//! Symbols of just-in-time compiled code, from a perf map: address ranges
//! with the name of the code in each.
use vstd::prelude::*;

verus! {

/// A perf map: `(start, end, name)` ranges, in file order.
#[derive(Debug)]
pub struct PerfMap {
    ranges: Vec<(usize, usize, String)>,
}

/// The name a perf map gives to an address.
#[derive(Debug)]
pub struct PerfMapSymbol(pub String);

/// Index of the first range with `start <= addr < end`, or -1.
pub open spec fn first_range_containing(ranges: Seq<(usize, usize, String)>, addr: usize) -> int
    decreases ranges.len(),
{
    if ranges.len() == 0 {
        -1
    } else {
        let i = first_range_containing(ranges.drop_last(), addr);
        if i >= 0 {
            i
        } else if ranges.last().0 <= addr < ranges.last().1 {
            ranges.len() - 1
        } else {
            -1
        }
    }
}

impl PerfMap {
    /// The ranges, in file order.
    pub closed spec fn ranges(&self) -> Seq<(usize, usize, String)> {
        self.ranges@
    }

    /// A perf map with the given `(start, end, name)` ranges.
    pub fn from_ranges(ranges: Vec<(usize, usize, String)>) -> (r: Self)
        ensures
            r.ranges() == ranges@,
    {
        PerfMap { ranges }
    }

    /// The name of the first range that contains `addr`.
    pub fn find(&self, addr: usize) -> (r: Option<PerfMapSymbol>)
        ensures
            ({
                let i = first_range_containing(self.ranges(), addr);
                match r {
                    Some(s) => i >= 0 && s.0 == self.ranges()[i].2,
                    None => i < 0,
                }
            }),
    {
        let mut i: usize = 0;
        while i < self.ranges.len()
            invariant
                0 <= i <= self.ranges@.len(),
                first_range_containing(self.ranges@.take(i as int), addr) < 0,
            decreases self.ranges@.len() - i,
        {
            let ghost pre = self.ranges@.take(i as int);
            assert(self.ranges@.take(i as int + 1).drop_last() =~= pre);
            let (start, end, name) = &self.ranges[i];
            if *start <= addr && addr < *end {
                proof {
                    lemma_first_range_prefix(self.ranges@, addr, i as int);
                }
                return Some(PerfMapSymbol(name.clone()));
            }
            i = i + 1;
        }
        assert(self.ranges@.take(i as int) =~= self.ranges@);
        None
    }
}

proof fn lemma_first_range_prefix(ranges: Seq<(usize, usize, String)>, addr: usize, i: int)
    requires
        0 <= i < ranges.len(),
        first_range_containing(ranges.take(i), addr) < 0,
        ranges[i].0 <= addr < ranges[i].1,
    ensures
        first_range_containing(ranges, addr) == i,
    decreases ranges.len(),
{
    assert(ranges.take(i + 1).drop_last() =~= ranges.take(i));
    assert(first_range_containing(ranges.take(i + 1), addr) == i);
    lemma_first_range_extend(ranges, addr, i + 1);
}

proof fn lemma_first_range_extend(ranges: Seq<(usize, usize, String)>, addr: usize, n: int)
    requires
        0 <= n <= ranges.len(),
        first_range_containing(ranges.take(n), addr) >= 0,
    ensures
        first_range_containing(ranges, addr) == first_range_containing(ranges.take(n), addr),
    decreases ranges.len() - n,
{
    if n < ranges.len() {
        assert(ranges.take(n + 1).drop_last() =~= ranges.take(n));
        lemma_first_range_extend(ranges, addr, n + 1);
    } else {
        assert(ranges.take(n) =~= ranges);
    }
}

/// Unicode white space, as `char::is_whitespace` has it.
pub open spec fn is_space(c: char) -> bool {
    let u = c as u32;
    (0x09 <= u <= 0x0d) || u == 0x20 || u == 0x85 || u == 0xa0 || u == 0x1680 || (0x2000 <= u <= 0x200a)
        || u == 0x2028 || u == 0x2029 || u == 0x202f || u == 0x205f || u == 0x3000
}

fn is_space_exec(c: char) -> (r: bool)
    ensures
        r == is_space(c),
{
    let u = c as u32;
    (0x09 <= u && u <= 0x0d) || u == 0x20 || u == 0x85 || u == 0xa0 || u == 0x1680 || (0x2000 <= u && u
        <= 0x200a) || u == 0x2028 || u == 0x2029 || u == 0x202f || u == 0x205f || u == 0x3000
}

/// The `(start, end)` positions of the words of `s` from position `i` on,
/// where `cur` is the start of the word being read, if any: words are the
/// maximal runs of characters that are not white space.
pub open spec fn scan_words(s: Seq<char>, i: int, cur: Option<int>) -> Seq<(int, int)>
    decreases s.len() - i,
{
    if i >= s.len() {
        match cur {
            Some(b) => seq![(b, s.len() as int)],
            None => Seq::empty(),
        }
    } else if is_space(s[i]) {
        match cur {
            Some(b) => seq![(b, i)] + scan_words(s, i + 1, None),
            None => scan_words(s, i + 1, None),
        }
    } else {
        match cur {
            Some(b) => scan_words(s, i + 1, Some(b)),
            None => scan_words(s, i + 1, Some(i)),
        }
    }
}

/// The words of `s`, as `split_whitespace` yields them.
pub open spec fn words(s: Seq<char>) -> Seq<Seq<char>> {
    scan_words(s, 0, None).map_values(|w: (int, int)| s.subrange(w.0, w.1))
}

/// The value of a hex digit.
pub open spec fn hex_digit(c: char) -> Option<nat> {
    let u = c as u32;
    if 0x30 <= u <= 0x39 {
        Some((u - 0x30) as nat)
    } else if 0x61 <= u <= 0x66 {
        Some((u - 0x61 + 10) as nat)
    } else if 0x41 <= u <= 0x46 {
        Some((u - 0x41 + 10) as nat)
    } else {
        None
    }
}

/// The value of a run of hex digits (0 for none).
pub open spec fn hex_digits(s: Seq<char>) -> Option<nat>
    decreases s.len(),
{
    if s.len() == 0 {
        Some(0)
    } else {
        match (hex_digits(s.drop_last()), hex_digit(s.last())) {
            (Some(v), Some(d)) => Some(v * 16 + d),
            _ => None,
        }
    }
}

/// What `usize::from_str_radix(s, 16)` gives: an optional `+`, then at least
/// one hex digit, with a value that fits.
pub open spec fn parse_hex(s: Seq<char>) -> Option<usize> {
    let body = if s.len() > 0 && s[0] == '+' {
        s.drop_first()
    } else {
        s
    };
    if body.len() == 0 {
        None
    } else {
        match hex_digits(body) {
            Some(v) => if v <= usize::MAX {
                Some(v as usize)
            } else {
                None
            },
            None => None,
        }
    }
}

/// The words joined with single spaces.
pub open spec fn join_spaces(ws: Seq<Seq<char>>) -> Seq<char>
    decreases ws.len(),
{
    if ws.len() == 0 {
        Seq::empty()
    } else if ws.len() == 1 {
        ws[0]
    } else {
        join_spaces(ws.drop_last()) + seq![' '] + ws.last()
    }
}

/// What one line of a perf map says: `<start> <length> <name>`, the first
/// two in hex, the name being the remaining words joined by single spaces;
/// `None` when the line does not have that shape or the range's end does
/// not fit.
pub open spec fn parse_perf_line(line: Seq<char>) -> Option<(usize, usize, Seq<char>)> {
    let ws = words(line);
    if ws.len() < 2 {
        None
    } else {
        match (parse_hex(ws[0]), parse_hex(ws[1])) {
            (Some(start), Some(len)) => if start + len <= usize::MAX {
                Some((start, (start + len) as usize, join_spaces(ws.skip(2))))
            } else {
                None
            },
            _ => None,
        }
    }
}

proof fn lemma_hex_digits_grow(s: Seq<char>, i: int)
    requires
        0 <= i <= s.len(),
        hex_digits(s.take(i)) is Some,
        hex_digits(s) is Some,
    ensures
        hex_digits(s.take(i))->Some_0 <= hex_digits(s)->Some_0,
    decreases s.len() - i,
{
    if i < s.len() {
        let t = s.take(i + 1);
        assert(t.drop_last() =~= s.take(i));
        lemma_hex_digits_prefix_some(s, i + 1);
        lemma_hex_digits_grow(s, i + 1);
    } else {
        assert(s.take(i) =~= s);
    }
}

proof fn lemma_hex_digits_prefix_some(s: Seq<char>, i: int)
    requires
        0 <= i <= s.len(),
        hex_digits(s) is Some,
    ensures
        hex_digits(s.take(i)) is Some,
    decreases s.len() - i,
{
    if i < s.len() {
        lemma_hex_digits_prefix_some(s, i + 1);
        assert(s.take(i + 1).drop_last() =~= s.take(i));
    } else {
        assert(s.take(i) =~= s);
    }
}

fn parse_hex_word(s: &str) -> (r: Option<usize>)
    ensures
        r == parse_hex(s@),
{
    let n = s.unicode_len();
    let mut i: usize = 0;
    if n > 0 && s.get_char(0) == '+' {
        i = 1;
    }
    let ghost body = if s@.len() > 0 && s@[0] == '+' { s@.drop_first() } else { s@ };
    assert(body =~= s@.skip(i as int));
    if i == n {
        return None;
    }
    let mut v: usize = 0;
    let start = i;
    assert(body.take(0) =~= Seq::<char>::empty());
    while i < n
        invariant
            n == s@.len(),
            start <= i <= n,
            start < n,
            body == s@.skip(start as int),
            body == (if s@.len() > 0 && s@[0] == '+' { s@.drop_first() } else { s@ }),
            hex_digits(body.take(i - start)) == Some(v as nat),
        decreases n - i,
    {
        let c = s.get_char(i);
        let ghost t = body.take(i - start + 1);
        assert(t.drop_last() =~= body.take(i - start));
        assert(t.last() == c);
        let u = c as u32;
        let d: usize = if 0x30 <= u && u <= 0x39 {
            (u - 0x30) as usize
        } else if 0x61 <= u && u <= 0x66 {
            (u - 0x61 + 10) as usize
        } else if 0x41 <= u && u <= 0x46 {
            (u - 0x41 + 10) as usize
        } else {
            proof {
                assert(hex_digits(t) is None);
                lemma_hex_none_extends(body, i - start + 1);
            }
            return None;
        };
        match v.checked_mul(16) {
            Some(m) => match m.checked_add(d) {
                Some(next) => {
                    v = next;
                },
                None => {
                    proof {
                        lemma_hex_overflow(body, i - start + 1);
                    }
                    return None;
                },
            },
            None => {
                proof {
                    lemma_hex_overflow(body, i - start + 1);
                }
                return None;
            },
        }
        i = i + 1;
    }
    assert(body.take(n - start) =~= body);
    Some(v)
}

proof fn lemma_hex_none_extends(s: Seq<char>, i: int)
    requires
        0 <= i <= s.len(),
        hex_digits(s.take(i)) is None,
    ensures
        hex_digits(s) is None,
{
    if hex_digits(s) is Some {
        lemma_hex_digits_prefix_some(s, i);
    }
}

proof fn lemma_hex_overflow(s: Seq<char>, i: int)
    requires
        0 <= i <= s.len(),
        hex_digits(s.take(i)) is Some,
        hex_digits(s.take(i))->Some_0 > usize::MAX,
    ensures
        !(hex_digits(s) matches Some(v) && v <= usize::MAX),
{
    if hex_digits(s) is Some {
        lemma_hex_digits_grow(s, i);
    }
}

/// Word positions as integers.
pub open spec fn positions(r: Seq<(usize, usize)>) -> Seq<(int, int)> {
    r.map_values(|w: (usize, usize)| (w.0 as int, w.1 as int))
}

fn word_positions(s: &str) -> (r: Vec<(usize, usize)>)
    ensures
        positions(r@) == scan_words(s@, 0, None),
        forall|k: int| 0 <= k < r@.len() ==> (#[trigger] r@[k]).0 <= r@[k].1 <= s@.len(),
{
    let n = s.unicode_len();
    let mut r: Vec<(usize, usize)> = Vec::new();
    let mut cur: Option<usize> = None;
    let mut i: usize = 0;
    while i < n
        invariant
            n == s@.len(),
            0 <= i <= n,
            cur matches Some(b) ==> b < i,
            forall|k: int| 0 <= k < r@.len() ==> (#[trigger] r@[k]).0 <= r@[k].1 <= i,
            scan_words(s@, 0, None) == positions(r@) + scan_words(
                s@,
                i as int,
                match cur {
                    Some(b) => Some(b as int),
                    None => None,
                },
            ),
        decreases n - i,
    {
        let c = s.get_char(i);
        let ghost before = r@;
        if is_space_exec(c) {
            match cur {
                Some(b) => {
                    r.push((b, i));
                    assert(positions(r@) =~= positions(before) + seq![(b as int, i as int)]);
                    assert(positions(r@) + scan_words(s@, i + 1, None) =~= positions(before) + (seq![
                        (b as int, i as int),
                    ] + scan_words(s@, i + 1, None)));
                },
                None => {},
            }
            cur = None;
        } else {
            match cur {
                Some(_) => {},
                None => {
                    cur = Some(i);
                },
            }
        }
        i = i + 1;
    }
    let ghost before = r@;
    match cur {
        Some(b) => {
            r.push((b, n));
            assert(positions(r@) =~= positions(before) + seq![(b as int, n as int)]);
        },
        None => {
            assert(positions(r@) =~= positions(before) + Seq::<(int, int)>::empty());
        },
    }
    r
}

/// Parses one line of a perf map, as `parse_perf_line` says.
pub fn parse_line(line: &str) -> (r: Option<(usize, usize, String)>)
    ensures
        match r {
            Some(t) => parse_perf_line(line@) == Some((t.0, t.1, t.2@)),
            None => parse_perf_line(line@) is None,
        },
{
    let pos = word_positions(line);
    let ghost ws = words(line@);
    assert(ws.len() == pos@.len());
    assert forall|k: int| 0 <= k < ws.len() implies #[trigger] ws[k] == line@.subrange(pos@[k].0 as int, pos@[k].1 as int) by {
        assert(positions(pos@)[k] == (pos@[k].0 as int, pos@[k].1 as int));
    }
    if pos.len() < 2 {
        return None;
    }
    let (a0, b0) = pos[0];
    let (a1, b1) = pos[1];
    let start = match parse_hex_word(line.substring_char(a0, b0)) {
        Some(v) => v,
        None => return None,
    };
    let len = match parse_hex_word(line.substring_char(a1, b1)) {
        Some(v) => v,
        None => return None,
    };
    let end = match start.checked_add(len) {
        Some(e) => e,
        None => return None,
    };
    let mut name = String::new();
    let space = " ";
    proof {
        reveal_strlit(" ");
    }
    let ghost rest = ws.skip(2);
    let mut k: usize = 2;
    while k < pos.len()
        invariant
            space@ == seq![' '],
            ws == words(line@),
            ws.len() == pos@.len(),
            forall|x: int| 0 <= x < ws.len() ==> #[trigger] ws[x] == line@.subrange(pos@[x].0 as int, pos@[x].1 as int),
            forall|x: int| 0 <= x < pos@.len() ==> (#[trigger] pos@[x]).0 <= pos@[x].1 <= line@.len(),
            rest == ws.skip(2),
            2 <= k <= pos@.len(),
            name@ == join_spaces(rest.take(k - 2)),
        decreases pos@.len() - k,
    {
        let (a, b) = pos[k];
        assert(rest.take(k - 1).drop_last() =~= rest.take(k - 2));
        assert(rest.take(k - 1).last() == ws[k as int]);
        if k > 2 {
            name.append(space);
        }
        name.append(line.substring_char(a, b));
        proof {
            if k == 2 {
                assert(rest.take(1).len() == 1);
                assert(name@ =~= join_spaces(rest.take(1)));
            } else {
                assert(name@ =~= join_spaces(rest.take(k - 1)));
            }
        }
        k = k + 1;
    }
    assert(rest.take(k - 2) =~= rest);
    Some((start, end, name))
}

impl PerfMap {
    /// A perf map from its lines; `None` when a line is not of the form
    /// `<start> <length> <name>` (see `parse_perf_line`).
    pub fn from_lines(lines: &Vec<String>) -> (r: Option<PerfMap>)
        ensures
            r is Some <==> forall|i: int| 0 <= i < lines@.len() ==> #[trigger] parse_perf_line(lines@[i]@) is Some,
            r matches Some(m) ==> m.ranges().len() == lines@.len() && forall|i: int|
                0 <= i < lines@.len() ==> parse_perf_line(lines@[i]@) == Some(
                    ((#[trigger] m.ranges()[i]).0, m.ranges()[i].1, m.ranges()[i].2@),
                ),
    {
        let mut ranges: Vec<(usize, usize, String)> = Vec::new();
        let mut i: usize = 0;
        while i < lines.len()
            invariant
                0 <= i <= lines@.len(),
                ranges@.len() == i,
                forall|j: int| 0 <= j < i ==> #[trigger] parse_perf_line(lines@[j]@) is Some,
                forall|j: int|
                    0 <= j < i ==> parse_perf_line(lines@[j]@) == Some(
                        ((#[trigger] ranges@[j]).0, ranges@[j].1, ranges@[j].2@),
                    ),
            decreases lines@.len() - i,
        {
            match parse_line(lines[i].as_str()) {
                Some(t) => {
                    ranges.push(t);
                },
                None => {
                    return None;
                },
            }
            i = i + 1;
        }
        Some(PerfMap { ranges })
    }
}

} // verus!
