//! Encoding a report as a pprof `Profile`: a string table, one function per
//! distinct symbol name, one location per captured frame, and one sample per
//! stack.
use vstd::prelude::*;

use crate::error::Error;
use crate::frames::{decimal_chars, demangled, raw_name_of, unknown_chars, utf8_lossy, Frames, Symbol};
use crate::protos::{Function, Label, Line, Location, Profile, Sample, ValueType};
use crate::report::Report;
use crate::text::str_eq;

verus! {

/// The characters of every string of a table.
pub open spec fn views(t: Seq<String>) -> Seq<Seq<char>> {
    t.map_values(|s: String| s@)
}

/// A string table: it starts with the empty string and holds no string twice.
pub open spec fn table_wf(t: Seq<String>) -> bool {
    &&& t.len() >= 1
    &&& t[0]@.len() == 0
    &&& views(t).no_duplicates()
}

/// The table holds `s`.
pub open spec fn in_table(t: Seq<String>, s: Seq<char>) -> bool {
    views(t).contains(s)
}

/// Entry `idx` of the table is `s`.
pub open spec fn names(t: Seq<String>, idx: i64, s: Seq<char>) -> bool {
    0 <= idx < t.len() && t[idx as int]@ == s
}

/// The demangled name of a symbol.
pub open spec fn symbol_name(s: Symbol) -> Seq<char> {
    demangled(utf8_lossy(raw_name_of(s)))
}

/// The raw name of a symbol as text.
pub open spec fn symbol_sys_name(s: Symbol) -> Seq<char> {
    utf8_lossy(raw_name_of(s))
}

/// The file name of a symbol, or `Unknown`.
pub open spec fn symbol_file(s: Symbol) -> Seq<char> {
    match s.filename {
        Some(f) => f@,
        None => unknown_chars(),
    }
}

/// The line number of a symbol, or 0.
pub open spec fn symbol_line(s: Symbol) -> i64 {
    match s.lineno {
        Some(l) => l as i64,
        None => 0,
    }
}

/// The thread label of a sample: its thread name, or its id in decimal.
pub open spec fn thread_label(f: Frames) -> Seq<char> {
    if f.thread_name@.len() > 0 {
        f.thread_name@
    } else {
        decimal_chars(f.thread_id)
    }
}

/// `samples`
pub open spec fn samples_chars() -> Seq<char> {
    seq!['s', 'a', 'm', 'p', 'l', 'e', 's']
}

/// `count`
pub open spec fn count_chars() -> Seq<char> {
    seq!['c', 'o', 'u', 'n', 't']
}

/// `cpu`
pub open spec fn cpu_chars() -> Seq<char> {
    seq!['c', 'p', 'u']
}

/// `nanoseconds`
pub open spec fn nanoseconds_chars() -> Seq<char> {
    seq!['n', 'a', 'n', 'o', 's', 'e', 'c', 'o', 'n', 'd', 's']
}

/// `thread`
pub open spec fn thread_chars() -> Seq<char> {
    seq!['t', 'h', 'r', 'e', 'a', 'd']
}

/// Every string that a sample needs is in the table.
pub open spec fn strings_of_in(t: Seq<String>, f: Frames) -> bool {
    &&& in_table(t, thread_label(f))
    &&& forall|j: int, k: int|
        0 <= j < f.frames@.len() && 0 <= k < f.frames@[j]@.len() ==> {
            &&& in_table(t, symbol_name(#[trigger] f.frames@[j]@[k]))
            &&& in_table(t, symbol_sys_name(f.frames@[j]@[k]))
            &&& in_table(t, symbol_file(f.frames@[j]@[k]))
        }
}

/// Function ids are positions counted from 1, every name of a function is
/// in the table, and no two functions have the same name.
pub open spec fn functions_wf(fns: Seq<Function>, t: Seq<String>) -> bool {
    &&& forall|f: int|
        0 <= f < fns.len() ==> {
            &&& (#[trigger] fns[f]).id == f + 1
            &&& 0 <= fns[f].name < t.len()
            &&& 0 <= fns[f].system_name < t.len()
            &&& 0 <= fns[f].filename < t.len()
        }
    &&& forall|a: int, b: int| 0 <= a < b < fns.len() ==> #[trigger] fns[a].name != #[trigger] fns[b].name
}

/// Function `fid` exists and carries the demangled name of `sym`.
pub open spec fn function_for(fns: Seq<Function>, t: Seq<String>, fid: u64, sym: Symbol) -> bool {
    &&& 1 <= fid <= fns.len()
    &&& names(t, fns[fid - 1].name, symbol_name(sym))
}

/// A line for `sym`: its function carries the symbol's name and its line
/// number is the symbol's.
pub open spec fn line_for(line: Line, fns: Seq<Function>, t: Seq<String>, sym: Symbol) -> bool {
    &&& function_for(fns, t, line.function_id, sym)
    &&& line.line == symbol_line(sym)
}

/// Location `lid` exists and has one line per symbol of `frame`, in order.
pub open spec fn location_for(
    locs: Seq<Location>,
    fns: Seq<Function>,
    t: Seq<String>,
    lid: u64,
    frame: Seq<Symbol>,
) -> bool {
    &&& 1 <= lid <= locs.len()
    &&& locs[lid - 1].line@.len() == frame.len()
    &&& forall|k: int| 0 <= k < frame.len() ==> line_for(#[trigger] locs[lid - 1].line@[k], fns, t, frame[k])
}

/// Location ids are positions counted from 1.
pub open spec fn locations_wf(locs: Seq<Location>) -> bool {
    forall|l: int| 0 <= l < locs.len() ==> (#[trigger] locs[l]).id == l + 1
}

/// The sample's second value: its count in nanoseconds of CPU time at the
/// given frequency, rounded toward zero and kept within `i64`.
pub open spec fn cpu_nanos(count: isize, frequency: i32) -> i64 {
    let magnitude = (if count >= 0 { count as int } else { -(count as int) }) * 1_000_000_000int / (
    frequency as int);
    if count >= 0 {
        if magnitude > i64::MAX {
            i64::MAX
        } else {
            magnitude as i64
        }
    } else {
        if -magnitude < i64::MIN {
            i64::MIN
        } else {
            (-magnitude) as i64
        }
    }
}

/// The sample for stack `f` with `count` samples: one location per frame,
/// the count and its CPU time as values, and the thread label.
pub open spec fn sample_for(
    s: Sample,
    f: Frames,
    count: isize,
    frequency: i32,
    locs: Seq<Location>,
    fns: Seq<Function>,
    t: Seq<String>,
) -> bool {
    &&& s.location_id@.len() == f.frames@.len()
    &&& forall|j: int|
        0 <= j < f.frames@.len() ==> location_for(locs, fns, t, #[trigger] s.location_id@[j], f.frames@[j]@)
    &&& s.value@ == seq![count as i64, cpu_nanos(count, frequency)]
    &&& s.label@.len() == 1
    &&& names(t, s.label@[0].key, thread_chars())
    &&& names(t, s.label@[0].str, thread_label(f))
}

/// `p` encodes `report`.
pub open spec fn encodes(report: Report, p: Profile) -> bool {
    let t = p.string_table@;
    let freq = report.timing.frequency;
    &&& table_wf(t)
    &&& forall|i: int| 0 <= i < report.data@.len() ==> strings_of_in(t, #[trigger] report.data@[i].0)
    &&& functions_wf(p.function@, t)
    &&& locations_wf(p.location@)
    &&& p.sample@.len() == report.data@.len()
    &&& forall|i: int|
        0 <= i < report.data@.len() ==> sample_for(
            #[trigger] p.sample@[i],
            report.data@[i].0,
            report.data@[i].1,
            freq,
            p.location@,
            p.function@,
            t,
        )
    &&& p.sample_type@.len() == 2
    &&& names(t, p.sample_type@[0].ty, samples_chars())
    &&& names(t, p.sample_type@[0].unit, count_chars())
    &&& names(t, p.sample_type@[1].ty, cpu_chars())
    &&& names(t, p.sample_type@[1].unit, nanoseconds_chars())
    &&& p.period_type == Some(p.sample_type@[1])
    &&& p.period == 1_000_000_000int / (freq as int)
    &&& p.time_nanos == saturate_i64(report.timing.start_time)
    &&& p.duration_nanos == saturate_i64(report.timing.duration)
}

/// `v`, or `i64::MAX` when it is larger.
pub open spec fn saturate_i64(v: u64) -> i64 {
    if v > i64::MAX {
        i64::MAX
    } else {
        v as i64
    }
}

/// Number of frames over all stacks of a report.
pub open spec fn total_frames(data: Seq<(Frames, isize)>) -> int
    decreases data.len(),
{
    if data.len() == 0 {
        0
    } else {
        total_frames(data.drop_last()) + data.last().0.frames@.len()
    }
}

/// The index of `s` in the table, adding it at the end when missing.
fn intern(table: &mut Vec<String>, s: String) -> (r: usize)
    requires
        table_wf(old(table)@),
    ensures
        table_wf(final(table)@),
        r < final(table)@.len(),
        final(table)@[r as int]@ == s@,
        old(table)@.len() <= final(table)@.len() <= old(table)@.len() + 1,
        final(table)@.take(old(table)@.len() as int) == old(table)@,
        forall|x: Seq<char>| in_table(old(table)@, x) ==> #[trigger] in_table(final(table)@, x),
        in_table(final(table)@, s@),
{
    let ghost t0 = table@;
    let mut i: usize = 0;
    while i < table.len()
        invariant
            table@ == t0,
            table_wf(t0),
            0 <= i <= t0.len(),
            forall|j: int| 0 <= j < i ==> #[trigger] t0[j]@ != s@,
        decreases t0.len() - i,
    {
        if str_eq(table[i].as_str(), s.as_str()) {
            assert(t0.take(t0.len() as int) =~= t0);
            assert(views(t0)[i as int] == s@);
            return i;
        }
        i = i + 1;
    }
    let ghost sv = s@;
    table.push(s);
    proof {
        let t1 = table@;
        assert(t1.take(t0.len() as int) =~= t0);
        assert(views(t1) =~= views(t0).push(sv));
        assert forall|a: int, b: int|
            0 <= a < views(t1).len() && 0 <= b < views(t1).len() && a != b implies views(t1)[a] != views(t1)[b] by {
            if a < t0.len() && b < t0.len() {
                assert(views(t0)[a] != views(t0)[b]);
            } else if a < t0.len() {
                assert(t0[a]@ != sv);
            } else {
                assert(t0[b]@ != sv);
            }
        }
        assert forall|x: Seq<char>| in_table(t0, x) implies #[trigger] in_table(t1, x) by {
            let j = choose|j: int| 0 <= j < views(t0).len() && views(t0)[j] == x;
            assert(views(t1)[j] == x);
        }
        assert(views(t1)[t0.len() as int] == sv);
    }
    table.len() - 1
}

/// The index of `s`, which the table holds.
fn index_of(table: &Vec<String>, s: &str) -> (r: i64)
    requires
        in_table(table@, s@),
        table@.len() <= i64::MAX,
    ensures
        names(table@, r, s@),
{
    let mut i: usize = 0;
    while i < table.len()
        invariant
            in_table(table@, s@),
            table@.len() <= i64::MAX,
            0 <= i <= table@.len(),
            forall|j: int| 0 <= j < i ==> #[trigger] table@[j]@ != s@,
        decreases table@.len() - i,
    {
        if str_eq(table[i].as_str(), s) {
            return i as i64;
        }
        i = i + 1;
    }
    proof {
        let j = choose|j: int| 0 <= j < views(table@).len() && views(table@)[j] == s@;
        assert(table@[j]@ == s@);
    }
    0
}

/// Number of symbols over the frames of one stack.
pub open spec fn symbols_in(frames: Seq<Vec<Symbol>>) -> int
    decreases frames.len(),
{
    if frames.len() == 0 {
        0
    } else {
        symbols_in(frames.drop_last()) + frames.last()@.len()
    }
}

/// Number of symbols over all stacks of a report.
pub open spec fn total_symbols(data: Seq<(Frames, isize)>) -> int
    decreases data.len(),
{
    if data.len() == 0 {
        0
    } else {
        total_symbols(data.drop_last()) + symbols_in(data.last().0.frames@)
    }
}

/// An upper bound on the entries of every table the encoding builds: the
/// empty string, five fixed strings, a label per stack, three names per
/// symbol, and a location per frame.
pub open spec fn table_bound(data: Seq<(Frames, isize)>) -> int {
    6 + data.len() + 3 * total_symbols(data) + total_frames(data)
}

proof fn lemma_symbols_prefix(frames: Seq<Vec<Symbol>>, j: int)
    requires
        0 <= j <= frames.len(),
    ensures
        0 <= symbols_in(frames.take(j)) <= symbols_in(frames),
        j < frames.len() ==> symbols_in(frames.take(j)) + frames[j]@.len() == symbols_in(frames.take(j + 1)),
    decreases frames.len() - j,
{
    if j < frames.len() {
        assert(frames.take(j + 1).drop_last() =~= frames.take(j));
        assert(frames.take(j + 1).last() == frames[j]);
        lemma_symbols_prefix(frames, j + 1);
    } else {
        assert(frames.take(j) =~= frames);
    }
    lemma_symbols_nonneg(frames.take(j));
}

proof fn lemma_symbols_nonneg(frames: Seq<Vec<Symbol>>)
    ensures
        symbols_in(frames) >= 0,
    decreases frames.len(),
{
    if frames.len() > 0 {
        lemma_symbols_nonneg(frames.drop_last());
    }
}

proof fn lemma_totals_prefix(data: Seq<(Frames, isize)>, i: int)
    requires
        0 <= i <= data.len(),
    ensures
        0 <= total_symbols(data.take(i)) <= total_symbols(data),
        0 <= total_frames(data.take(i)) <= total_frames(data),
        i < data.len() ==> total_symbols(data.take(i)) + symbols_in(data[i].0.frames@) == total_symbols(
            data.take(i + 1),
        ),
        i < data.len() ==> total_frames(data.take(i)) + data[i].0.frames@.len() == total_frames(
            data.take(i + 1),
        ),
    decreases data.len() - i,
{
    if i < data.len() {
        assert(data.take(i + 1).drop_last() =~= data.take(i));
        assert(data.take(i + 1).last() == data[i]);
        lemma_symbols_nonneg(data[i].0.frames@);
        lemma_totals_prefix(data, i + 1);
    } else {
        assert(data.take(i) =~= data);
    }
    lemma_totals_nonneg(data.take(i));
}

proof fn lemma_totals_nonneg(data: Seq<(Frames, isize)>)
    ensures
        total_symbols(data) >= 0,
        total_frames(data) >= 0,
    decreases data.len(),
{
    if data.len() > 0 {
        lemma_totals_nonneg(data.drop_last());
        lemma_symbols_nonneg(data.last().0.frames@);
    }
}

/// Whether `table_bound` of the report fits in an `i64`.
fn fits_i64_tables(data: &Vec<(Frames, isize)>) -> (r: bool)
    ensures
        r == (table_bound(data@) <= i64::MAX),
{
    let mut symbols: u128 = 0;
    let mut frames: u128 = 0;
    let mut i: usize = 0;
    while i < data.len()
        invariant
            0 <= i <= data@.len(),
            symbols == total_symbols(data@.take(i as int)),
            frames == total_frames(data@.take(i as int)),
            table_bound(data@.take(i as int)) <= i64::MAX,
        decreases data@.len() - i,
    {
        proof {
            lemma_totals_prefix(data@, i as int);
            lemma_totals_prefix(data@, i as int + 1);
            lemma_totals_prefix(data@, data@.len() as int);
            assert(data@.take(data@.len() as int) =~= data@);
            assert(data@.take(i as int + 1).len() == i + 1);
        }
        let fr = &data[i].0.frames;
        assert(symbols_in(fr@) <= total_symbols(data@));
        let mut j: usize = 0;
        let mut here: u128 = 0;
        while j < fr.len()
            invariant
                0 <= j <= fr@.len(),
                here == symbols_in(fr@.take(j as int)),
                here <= i64::MAX,
                symbols_in(fr@) <= total_symbols(data@),
                total_frames(data@) >= 0,
            decreases fr@.len() - j,
        {
            proof {
                lemma_symbols_prefix(fr@, j as int);
            }
            here = here + fr[j].len() as u128;
            if here > i64::MAX as u128 {
                proof {
                    lemma_symbols_prefix(fr@, j as int + 1);
                    lemma_symbols_prefix(fr@, fr@.len() as int);
                    assert(fr@.take(fr@.len() as int) =~= fr@);
                }
                return false;
            }
            j = j + 1;
        }
        proof {
            assert(fr@.take(j as int) =~= fr@);
        }
        let next_symbols = symbols + here;
        let next_frames = frames + fr.len() as u128;
        if 6 + (i as u128 + 1) + 3 * next_symbols + next_frames > i64::MAX as u128 {
            return false;
        }
        symbols = next_symbols;
        frames = next_frames;
        i = i + 1;
    }
    assert(data@.take(i as int) =~= data@);
    true
}

/// Interns every string that stack `f` needs.
fn intern_strings_of(table: &mut Vec<String>, f: &Frames)
    requires
        table_wf(old(table)@),
    ensures
        table_wf(final(table)@),
        forall|x: Seq<char>| in_table(old(table)@, x) ==> #[trigger] in_table(final(table)@, x),
        strings_of_in(final(table)@, *f),
        final(table)@.len() <= old(table)@.len() + 1 + 3 * symbols_in(f.frames@),
{
    let ghost t0 = table@;
    let label = f.thread_name_or_id();
    intern(table, label);
    let mut j: usize = 0;
    while j < f.frames.len()
        invariant
            table_wf(table@),
            forall|x: Seq<char>| in_table(t0, x) ==> #[trigger] in_table(table@, x),
            in_table(table@, thread_label(*f)),
            0 <= j <= f.frames@.len(),
            forall|a: int, k: int|
                0 <= a < j && 0 <= k < f.frames@[a]@.len() ==> {
                    &&& in_table(table@, symbol_name(#[trigger] f.frames@[a]@[k]))
                    &&& in_table(table@, symbol_sys_name(f.frames@[a]@[k]))
                    &&& in_table(table@, symbol_file(f.frames@[a]@[k]))
                },
            table@.len() <= t0.len() + 1 + 3 * symbols_in(f.frames@.take(j as int)),
        decreases f.frames@.len() - j,
    {
        proof {
            lemma_symbols_prefix(f.frames@, j as int);
        }
        let frame = &f.frames[j];
        let mut k: usize = 0;
        let ghost base = table@.len();
        while k < frame.len()
            invariant
                frame == f.frames@[j as int],
                j < f.frames@.len(),
                table_wf(table@),
                forall|x: Seq<char>| in_table(t0, x) ==> #[trigger] in_table(table@, x),
                in_table(table@, thread_label(*f)),
                0 <= k <= frame@.len(),
                forall|a: int, c: int|
                    0 <= a < j && 0 <= c < f.frames@[a]@.len() ==> {
                        &&& in_table(table@, symbol_name(#[trigger] f.frames@[a]@[c]))
                        &&& in_table(table@, symbol_sys_name(f.frames@[a]@[c]))
                        &&& in_table(table@, symbol_file(f.frames@[a]@[c]))
                    },
                forall|c: int|
                    0 <= c < k ==> {
                        &&& in_table(table@, symbol_name(#[trigger] frame@[c]))
                        &&& in_table(table@, symbol_sys_name(frame@[c]))
                        &&& in_table(table@, symbol_file(frame@[c]))
                    },
                table@.len() <= base + 3 * k,
            decreases frame@.len() - k,
        {
            let sym = &frame[k];
            intern(table, sym.name());
            intern(table, sym.sys_name());
            intern(table, sym.filename());
            k = k + 1;
        }
        proof {
            lemma_symbols_prefix(f.frames@, j as int);
            assert forall|a: int, c: int|
                0 <= a < j + 1 && 0 <= c < f.frames@[a]@.len() implies {
                    &&& in_table(table@, symbol_name(#[trigger] f.frames@[a]@[c]))
                    &&& in_table(table@, symbol_sys_name(f.frames@[a]@[c]))
                    &&& in_table(table@, symbol_file(f.frames@[a]@[c]))
                } by {
                if a == j {
                    assert(f.frames@[a]@[c] == frame@[c]);
                }
            }
        }
        j = j + 1;
    }
    proof {
        assert(f.frames@.take(j as int) =~= f.frames@);
    }
}

/// The id of the function named by table entry `name`, if there is one.
fn find_function(fns: &Vec<Function>, name: i64) -> (r: Option<u64>)
    ensures
        r matches Some(fid) ==> 1 <= fid <= fns@.len() && fns@[fid - 1].name == name,
        r is None ==> forall|f: int| 0 <= f < fns@.len() ==> #[trigger] fns@[f].name != name,
{
    let mut i: usize = 0;
    while i < fns.len()
        invariant
            0 <= i <= fns@.len(),
            forall|f: int| 0 <= f < i ==> #[trigger] fns@[f].name != name,
        decreases fns@.len() - i,
    {
        if fns[i].name == name {
            return Some(i as u64 + 1);
        }
        i = i + 1;
    }
    None
}

proof fn lemma_line_for_extend(line: Line, fns1: Seq<Function>, fns2: Seq<Function>, t: Seq<String>, sym: Symbol)
    requires
        line_for(line, fns1, t, sym),
        fns1.len() <= fns2.len(),
        fns2.take(fns1.len() as int) == fns1,
    ensures
        line_for(line, fns2, t, sym),
{
    assert(fns2[line.function_id - 1] == fns2.take(fns1.len() as int)[line.function_id - 1]);
}

proof fn lemma_location_for_extend(
    locs1: Seq<Location>,
    fns1: Seq<Function>,
    locs2: Seq<Location>,
    fns2: Seq<Function>,
    t: Seq<String>,
    lid: u64,
    frame: Seq<Symbol>,
)
    requires
        location_for(locs1, fns1, t, lid, frame),
        fns1.len() <= fns2.len(),
        fns2.take(fns1.len() as int) == fns1,
        locs1.len() <= locs2.len(),
        locs2.take(locs1.len() as int) == locs1,
    ensures
        location_for(locs2, fns2, t, lid, frame),
{
    assert(locs2[lid - 1] == locs2.take(locs1.len() as int)[lid - 1]);
    assert forall|k: int| 0 <= k < frame.len() implies line_for(#[trigger] locs2[lid - 1].line@[k], fns2, t, frame[k]) by {
        lemma_line_for_extend(locs1[lid - 1].line@[k], fns1, fns2, t, frame[k]);
    }
}

proof fn lemma_sample_for_extend(
    s: Sample,
    f: Frames,
    count: isize,
    frequency: i32,
    locs1: Seq<Location>,
    fns1: Seq<Function>,
    locs2: Seq<Location>,
    fns2: Seq<Function>,
    t: Seq<String>,
)
    requires
        sample_for(s, f, count, frequency, locs1, fns1, t),
        fns1.len() <= fns2.len(),
        fns2.take(fns1.len() as int) == fns1,
        locs1.len() <= locs2.len(),
        locs2.take(locs1.len() as int) == locs1,
    ensures
        sample_for(s, f, count, frequency, locs2, fns2, t),
{
    assert forall|j: int| 0 <= j < f.frames@.len() implies location_for(locs2, fns2, t, #[trigger] s.location_id@[j], f.frames@[j]@) by {
        lemma_location_for_extend(locs1, fns1, locs2, fns2, t, s.location_id@[j], f.frames@[j]@);
    }
}

/// One line per symbol of a frame; a function is added for each symbol
/// name not seen before.
fn encode_lines(frame: &Vec<Symbol>, table: &Vec<String>, fns: &mut Vec<Function>) -> (lines: Vec<Line>)
    requires
        table_wf(table@),
        table@.len() <= i64::MAX,
        forall|k: int|
            0 <= k < frame@.len() ==> {
                &&& in_table(table@, symbol_name(#[trigger] frame@[k]))
                &&& in_table(table@, symbol_sys_name(frame@[k]))
                &&& in_table(table@, symbol_file(frame@[k]))
            },
        functions_wf(old(fns)@, table@),
        old(fns)@.len() + frame@.len() <= i64::MAX,
    ensures
        functions_wf(final(fns)@, table@),
        old(fns)@.len() <= final(fns)@.len() <= old(fns)@.len() + frame@.len(),
        final(fns)@.take(old(fns)@.len() as int) == old(fns)@,
        lines@.len() == frame@.len(),
        forall|k: int| 0 <= k < frame@.len() ==> line_for(#[trigger] lines@[k], final(fns)@, table@, frame@[k]),
{
    let ghost f0 = fns@;
    let mut lines: Vec<Line> = Vec::new();
    let mut k: usize = 0;
    while k < frame.len()
        invariant
            table_wf(table@),
            table@.len() <= i64::MAX,
            forall|c: int|
                0 <= c < frame@.len() ==> {
                    &&& in_table(table@, symbol_name(#[trigger] frame@[c]))
                    &&& in_table(table@, symbol_sys_name(frame@[c]))
                    &&& in_table(table@, symbol_file(frame@[c]))
                },
            functions_wf(fns@, table@),
            f0.len() <= fns@.len() <= f0.len() + k,
            f0.len() + frame@.len() <= i64::MAX,
            fns@.take(f0.len() as int) == f0,
            0 <= k <= frame@.len(),
            lines@.len() == k,
            forall|c: int| 0 <= c < k ==> line_for(#[trigger] lines@[c], fns@, table@, frame@[c]),
        decreases frame@.len() - k,
    {
        let sym = &frame[k];
        let name = sym.name();
        let name_idx = index_of(table, name.as_str());
        let ghost fns_before = fns@;
        let function_id = match find_function(fns, name_idx) {
            Some(fid) => fid,
            None => {
                let sys_idx = index_of(table, sym.sys_name().as_str());
                let file_idx = index_of(table, sym.filename().as_str());
                let fid = fns.len() as u64 + 1;
                fns.push(
                    Function {
                        id: fid,
                        name: name_idx,
                        system_name: sys_idx,
                        filename: file_idx,
                        start_line: 0,
                    },
                );
                proof {
                    assert(fns@.take(f0.len() as int) =~= fns_before.take(f0.len() as int));
                    assert forall|f: int| 0 <= f < fns@.len() implies {
                        &&& (#[trigger] fns@[f]).id == f + 1
                        &&& 0 <= fns@[f].name < table@.len()
                        &&& 0 <= fns@[f].system_name < table@.len()
                        &&& 0 <= fns@[f].filename < table@.len()
                    } by {
                        if f < fns_before.len() {
                            assert(fns@[f] == fns_before[f]);
                        }
                    }
                    assert forall|a: int, b: int| 0 <= a < b < fns@.len() implies #[trigger] fns@[a].name
                        != #[trigger] fns@[b].name by {
                        assert(fns@[a] == fns_before[a]);
                        if b < fns_before.len() {
                            assert(fns@[b] == fns_before[b]);
                        }
                    }
                }
                fid
            },
        };
        let line = Line { function_id, line: sym.lineno() as i64 };
        proof {
            assert(fns@.len() <= fns_before.len() + 1);
            assert(fns@.take(fns_before.len() as int) =~= fns_before);
            assert forall|c: int| 0 <= c < k implies line_for(#[trigger] lines@[c], fns@, table@, frame@[c]) by {
                lemma_line_for_extend(lines@[c], fns_before, fns@, table@, frame@[c]);
            }
            assert(fns@[function_id - 1].name == name_idx);
        }
        lines.push(line);
        k = k + 1;
    }
    lines
}

/// The sample for one stack: a location per frame, the values and the
/// thread label.
fn encode_stack(
    f: &Frames,
    count: isize,
    frequency: i32,
    table: &Vec<String>,
    locs: &mut Vec<Location>,
    fns: &mut Vec<Function>,
) -> (s: Sample)
    requires
        frequency > 0,
        table_wf(table@),
        table@.len() <= i64::MAX,
        strings_of_in(table@, *f),
        in_table(table@, thread_chars()),
        functions_wf(old(fns)@, table@),
        locations_wf(old(locs)@),
        old(fns)@.len() + symbols_in(f.frames@) <= i64::MAX,
        old(locs)@.len() + f.frames@.len() <= i64::MAX,
    ensures
        sample_for(s, *f, count, frequency, final(locs)@, final(fns)@, table@),
        functions_wf(final(fns)@, table@),
        locations_wf(final(locs)@),
        old(fns)@.len() <= final(fns)@.len() <= old(fns)@.len() + symbols_in(f.frames@),
        final(fns)@.take(old(fns)@.len() as int) == old(fns)@,
        final(locs)@.len() == old(locs)@.len() + f.frames@.len(),
        final(locs)@.take(old(locs)@.len() as int) == old(locs)@,
{
    let ghost f0 = fns@;
    let ghost l0 = locs@;
    let mut location_ids: Vec<u64> = Vec::new();
    let mut j: usize = 0;
    while j < f.frames.len()
        invariant
            table_wf(table@),
            table@.len() <= i64::MAX,
            strings_of_in(table@, *f),
            functions_wf(fns@, table@),
            locations_wf(locs@),
            f0.len() + symbols_in(f.frames@) <= i64::MAX,
            l0.len() + f.frames@.len() <= i64::MAX,
            f0.len() <= fns@.len() <= f0.len() + symbols_in(f.frames@.take(j as int)),
            fns@.take(f0.len() as int) == f0,
            locs@.len() == l0.len() + j,
            locs@.take(l0.len() as int) == l0,
            0 <= j <= f.frames@.len(),
            location_ids@.len() == j,
            forall|a: int| 0 <= a < j ==> location_for(locs@, fns@, table@, #[trigger] location_ids@[a], f.frames@[a]@),
        decreases f.frames@.len() - j,
    {
        proof {
            lemma_symbols_prefix(f.frames@, j as int);
            lemma_symbols_prefix(f.frames@, j as int + 1);
        }
        let frame = &f.frames[j];
        let ghost fns_before = fns@;
        let ghost locs_before = locs@;
        assert forall|k: int|
            0 <= k < frame@.len() implies {
                &&& in_table(table@, symbol_name(#[trigger] frame@[k]))
                &&& in_table(table@, symbol_sys_name(frame@[k]))
                &&& in_table(table@, symbol_file(frame@[k]))
            } by {
            assert(frame@[k] == f.frames@[j as int]@[k]);
        }
        let lines = encode_lines(frame, table, fns);
        let location_id = locs.len() as u64 + 1;
        locs.push(Location { id: location_id, mapping_id: 0, address: 0, line: lines, is_folded: false });
        proof {
            assert(locs@.take(l0.len() as int) =~= locs_before.take(l0.len() as int));
            assert(fns@.take(f0.len() as int) =~= fns_before.take(f0.len() as int).take(f0.len() as int)) by {
                assert(fns@.take(fns_before.len() as int) == fns_before);
                assert(fns@.take(f0.len() as int) =~= fns@.take(fns_before.len() as int).take(f0.len() as int));
            }
            assert(locs@.take(locs_before.len() as int) =~= locs_before);
            assert forall|l: int| 0 <= l < locs@.len() implies (#[trigger] locs@[l]).id == l + 1 by {
                if l < locs_before.len() {
                    assert(locs@[l] == locs_before[l]);
                }
            }
            assert forall|a: int| 0 <= a < j implies location_for(locs@, fns@, table@, #[trigger] location_ids@[a], f.frames@[a]@) by {
                lemma_location_for_extend(locs_before, fns_before, locs@, fns@, table@, location_ids@[a], f.frames@[a]@);
            }
            assert(locs@[location_id - 1].line@ == lines@);
            assert(location_for(locs@, fns@, table@, location_id, frame@));
        }
        location_ids.push(location_id);
        j = j + 1;
    }
    proof {
        assert(f.frames@.take(j as int) =~= f.frames@);
    }
    let thread = "thread";
    proof {
        reveal_strlit("thread");
        assert(thread@ =~= thread_chars());
    }
    let key = index_of(table, thread);
    let label_text = f.thread_name_or_id();
    let str_idx = index_of(table, label_text.as_str());
    let magnitude: u128 = if count >= 0 {
        count as u128
    } else {
        (-(count as i128)) as u128
    };
    let scaled: u128 = magnitude * 1_000_000_000 / (frequency as u128);
    let cpu: i64 = if count >= 0 {
        if scaled > i64::MAX as u128 {
            i64::MAX
        } else {
            scaled as i64
        }
    } else {
        if scaled > 9_223_372_036_854_775_808u128 {
            i64::MIN
        } else {
            (-(scaled as i128)) as i64
        }
    };
    let values: Vec<i64> = vec![count as i64, cpu];
    let labels: Vec<Label> = vec![Label { key, str: str_idx, num: 0, num_unit: 0 }];
    let s = Sample { location_id: location_ids, value: values, label: labels };
    proof {
        assert(s.value@ =~= seq![count as i64, cpu_nanos(count, frequency)]);
        assert(s.label@[0].key == key);
    }
    s
}

proof fn lemma_strings_of_extend(t1: Seq<String>, t2: Seq<String>, f: Frames)
    requires
        strings_of_in(t1, f),
        forall|x: Seq<char>| in_table(t1, x) ==> #[trigger] in_table(t2, x),
    ensures
        strings_of_in(t2, f),
{
}

/// Interns a fixed string.
fn intern_str(table: &mut Vec<String>, s: &str)
    requires
        table_wf(old(table)@),
    ensures
        table_wf(final(table)@),
        old(table)@.len() <= final(table)@.len() <= old(table)@.len() + 1,
        forall|x: Seq<char>| in_table(old(table)@, x) ==> #[trigger] in_table(final(table)@, x),
        in_table(final(table)@, s@),
{
    intern(table, String::from_str(s));
}

impl Report {
    /// The report in the pprof format. The string table starts with the
    /// empty string and holds each string once; each distinct demangled
    /// symbol name becomes one function; each frame of each stack becomes one
    /// location with a line per symbol; each stack becomes one sample whose
    /// values are its count and that count in nanoseconds of CPU time, with
    /// a `thread` label. Fails only when a table would need more entries
    /// than an `i64` can index.
    pub fn pprof(&self) -> (r: Result<Profile, Error>)
        requires
            self.timing.frequency > 0,
        ensures
            r is Ok <==> table_bound(self.data@) <= i64::MAX,
            r matches Ok(p) ==> encodes(*self, p),
            r matches Err(e) ==> e == Error::CreatingError,
    {
        if !fits_i64_tables(&self.data) {
            return Err(Error::CreatingError);
        }
        let frequency = self.timing.frequency;
        let mut table: Vec<String> = Vec::new();
        table.push(String::new());
        assert(views(table@) =~= seq![Seq::<char>::empty()]);
        let mut i: usize = 0;
        while i < self.data.len()
            invariant
                table_bound(self.data@) <= i64::MAX,
                table_wf(table@),
                0 <= i <= self.data@.len(),
                forall|a: int| 0 <= a < i ==> strings_of_in(table@, #[trigger] self.data@[a].0),
                table@.len() <= 1 + i + 3 * total_symbols(self.data@.take(i as int)),
            decreases self.data@.len() - i,
        {
            proof {
                lemma_totals_prefix(self.data@, i as int);
            }
            let ghost before = table@;
            intern_strings_of(&mut table, &self.data[i].0);
            proof {
                assert forall|a: int| 0 <= a < i + 1 implies strings_of_in(table@, #[trigger] self.data@[a].0) by {
                    if a < i {
                        lemma_strings_of_extend(before, table@, self.data@[a].0);
                    }
                }
            }
            i = i + 1;
        }
        proof {
            assert(self.data@.take(i as int) =~= self.data@);
            lemma_totals_nonneg(self.data@);
        }
        let ghost t1 = table@;
        intern_str(&mut table, "samples");
        intern_str(&mut table, "count");
        intern_str(&mut table, "cpu");
        intern_str(&mut table, "nanoseconds");
        intern_str(&mut table, "thread");
        proof {
            reveal_strlit("samples");
            reveal_strlit("count");
            reveal_strlit("cpu");
            reveal_strlit("nanoseconds");
            reveal_strlit("thread");
            assert("samples"@ =~= samples_chars());
            assert("count"@ =~= count_chars());
            assert("cpu"@ =~= cpu_chars());
            assert("nanoseconds"@ =~= nanoseconds_chars());
            assert("thread"@ =~= thread_chars());
            assert forall|a: int| 0 <= a < self.data@.len() implies strings_of_in(table@, #[trigger] self.data@[a].0) by {
                lemma_strings_of_extend(t1, table@, self.data@[a].0);
            }
            assert(table@.len() <= table_bound(self.data@));
        }
        let mut samples: Vec<Sample> = Vec::new();
        let mut locs: Vec<Location> = Vec::new();
        let mut fns: Vec<Function> = Vec::new();
        let mut i: usize = 0;
        while i < self.data.len()
            invariant
                frequency == self.timing.frequency,
                frequency > 0,
                table_bound(self.data@) <= i64::MAX,
                table_wf(table@),
                table@.len() <= i64::MAX,
                in_table(table@, thread_chars()),
                forall|a: int| 0 <= a < self.data@.len() ==> strings_of_in(table@, #[trigger] self.data@[a].0),
                functions_wf(fns@, table@),
                locations_wf(locs@),
                0 <= i <= self.data@.len(),
                fns@.len() <= total_symbols(self.data@.take(i as int)),
                locs@.len() == total_frames(self.data@.take(i as int)),
                samples@.len() == i,
                forall|a: int|
                    0 <= a < i ==> sample_for(
                        #[trigger] samples@[a],
                        self.data@[a].0,
                        self.data@[a].1,
                        frequency,
                        locs@,
                        fns@,
                        table@,
                    ),
            decreases self.data@.len() - i,
        {
            proof {
                lemma_totals_prefix(self.data@, i as int);
                lemma_totals_prefix(self.data@, i as int + 1);
                lemma_totals_prefix(self.data@, self.data@.len() as int);
                assert(self.data@.take(self.data@.len() as int) =~= self.data@);
            }
            let ghost fns_before = fns@;
            let ghost locs_before = locs@;
            let (frames, count) = &self.data[i];
            let s = encode_stack(frames, *count, frequency, &table, &mut locs, &mut fns);
            proof {
                assert forall|a: int| 0 <= a < i implies sample_for(
                    #[trigger] samples@[a],
                    self.data@[a].0,
                    self.data@[a].1,
                    frequency,
                    locs@,
                    fns@,
                    table@,
                ) by {
                    lemma_sample_for_extend(
                        samples@[a],
                        self.data@[a].0,
                        self.data@[a].1,
                        frequency,
                        locs_before,
                        fns_before,
                        locs@,
                        fns@,
                        table@,
                    );
                }
            }
            samples.push(s);
            i = i + 1;
        }
        proof {
            assert(self.data@.take(i as int) =~= self.data@);
        }
        let samples_idx = index_of(&table, "samples");
        let count_idx = index_of(&table, "count");
        let cpu_idx = index_of(&table, "cpu");
        let nanos_idx = index_of(&table, "nanoseconds");
        let sample_type = vec![
            ValueType { ty: samples_idx, unit: count_idx },
            ValueType { ty: cpu_idx, unit: nanos_idx },
        ];
        let period_type = Some(ValueType { ty: cpu_idx, unit: nanos_idx });
        let time_nanos = if self.timing.start_time > i64::MAX as u64 {
            i64::MAX
        } else {
            self.timing.start_time as i64
        };
        let duration_nanos = if self.timing.duration > i64::MAX as u64 {
            i64::MAX
        } else {
            self.timing.duration as i64
        };
        let p = Profile {
            sample_type,
            sample: samples,
            mapping: Vec::new(),
            location: locs,
            function: fns,
            string_table: table,
            drop_frames: 0,
            keep_frames: 0,
            time_nanos,
            duration_nanos,
            period_type,
            period: 1_000_000_000i64 / (frequency as i64),
            comment: Vec::new(),
            default_sample_type: 0,
        };
        Ok(p)
    }
}

} // verus!
