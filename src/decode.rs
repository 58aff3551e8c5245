//! Reading a pprof `Profile` back into a report, so that a saved profile can
//! be rendered again.
use vstd::prelude::*;
use vstd::utf8::encode_utf8;

use crate::encode::thread_chars;
use crate::error::Error;
use crate::frames::{unknown_chars, Frames, Symbol};
use crate::protos::{Function, Line, Location, Profile, Sample};
use crate::report::{is_frames_merge_of, merge_frames, Report, ReportTiming};
use crate::text::str_eq;

verus! {

/// Entry `idx` of the string table, if there is one.
pub open spec fn string_at(t: Seq<String>, idx: i64) -> Option<Seq<char>> {
    if 0 <= idx < t.len() {
        Some(t[idx as int]@)
    } else {
        None
    }
}

/// Entry `idx` of the string table, or `Unknown`.
pub open spec fn string_or_unknown(t: Seq<String>, idx: i64) -> Seq<char> {
    match string_at(t, idx) {
        Some(s) => s,
        None => unknown_chars(),
    }
}

/// Index of the last function with this id, or -1.
pub open spec fn function_index(fns: Seq<Function>, id: u64) -> int
    decreases fns.len(),
{
    if fns.len() == 0 {
        -1
    } else if fns.last().id == id {
        fns.len() - 1
    } else {
        function_index(fns.drop_last(), id)
    }
}

/// Index of the last location with this id, or -1.
pub open spec fn location_index(locs: Seq<Location>, id: u64) -> int
    decreases locs.len(),
{
    if locs.len() == 0 {
        -1
    } else if locs.last().id == id {
        locs.len() - 1
    } else {
        location_index(locs.drop_last(), id)
    }
}

/// A symbol as seen from outside: raw name bytes, address, line, file.
pub type SymbolView = (Option<Seq<u8>>, Option<usize>, Option<u32>, Option<Seq<char>>);

/// The view of a symbol.
pub open spec fn symbol_view(s: Symbol) -> SymbolView {
    (
        match s.name {
            Some(n) => Some(n@),
            None => None,
        },
        s.addr,
        s.lineno,
        match s.filename {
            Some(f) => Some(f@),
            None => None,
        },
    )
}

/// The symbol that a line of the profile stands for, when its function is
/// there: the function's name, the line when positive, and the function's
/// file unless it is `Unknown`.
pub open spec fn line_symbol(p: Profile, line: Line) -> Option<SymbolView> {
    let f = function_index(p.function@, line.function_id);
    if f < 0 {
        None
    } else {
        let func = p.function@[f];
        let file = string_or_unknown(p.string_table@, func.filename);
        Some(
            (
                Some(encode_utf8(string_or_unknown(p.string_table@, func.name))),
                None,
                if line.line > 0 {
                    Some(line.line as u32)
                } else {
                    None
                },
                if file != unknown_chars() {
                    Some(file)
                } else {
                    None
                },
            ),
        )
    }
}

/// The symbols of the lines whose functions are there, in order.
pub open spec fn lines_symbols(p: Profile, lines: Seq<Line>) -> Seq<SymbolView>
    decreases lines.len(),
{
    if lines.len() == 0 {
        Seq::empty()
    } else {
        let rest = lines_symbols(p, lines.drop_last());
        match line_symbol(p, lines.last()) {
            Some(s) => rest.push(s),
            None => rest,
        }
    }
}

/// The frames of a sample: for each location id that names a location, the
/// symbols of its lines, when there are any.
pub open spec fn sample_frames(p: Profile, ids: Seq<u64>) -> Seq<Seq<SymbolView>>
    decreases ids.len(),
{
    if ids.len() == 0 {
        Seq::empty()
    } else {
        let rest = sample_frames(p, ids.drop_last());
        let l = location_index(p.location@, ids.last());
        if l < 0 {
            rest
        } else {
            let syms = lines_symbols(p, p.location@[l].line@);
            if syms.len() == 0 {
                rest
            } else {
                rest.push(syms)
            }
        }
    }
}

/// The thread name of a sample: the text of the first label whose key is
/// `thread` (empty when that text is missing), or empty without such label.
pub open spec fn sample_thread(p: Profile, labels: Seq<crate::protos::Label>) -> Seq<char>
    decreases labels.len(),
{
    if labels.len() == 0 {
        Seq::empty()
    } else if string_at(p.string_table@, labels[0].key) == Some(thread_chars()) {
        match string_at(p.string_table@, labels[0].str) {
            Some(s) => s,
            None => Seq::empty(),
        }
    } else {
        sample_thread(p, labels.drop_first())
    }
}

/// The view of a resolved sample's frames.
pub open spec fn frames_view(f: Frames) -> Seq<Seq<SymbolView>> {
    f.frames@.map_values(|v: Vec<Symbol>| v@.map_values(|s: Symbol| symbol_view(s)))
}

/// `e` is what sample `s` of `p` reads as: its frames and thread name, thread
/// 0 at time 0, and its first value (0 without values) as count.
pub open spec fn decoded_from(p: Profile, s: Sample, e: (Frames, isize)) -> bool {
    &&& frames_view(e.0) == sample_frames(p, s.location_id@)
    &&& e.0.thread_name@ == sample_thread(p, s.label@)
    &&& e.0.thread_id == 0
    &&& e.0.sample_timestamp == 0
    &&& e.1 == if s.value@.len() > 0 {
        s.value@[0] as isize
    } else {
        0
    }
}

/// The timing a profile records: the frequency its period gives (1 without
/// a positive period), and its start time and duration (0 unless positive).
pub open spec fn decoded_timing(p: Profile) -> ReportTiming {
    ReportTiming {
        frequency: if p.period > 0 {
            (1_000_000_000int / (p.period as int)) as i32
        } else {
            1
        },
        start_time: if p.time_nanos > 0 {
            p.time_nanos as u64
        } else {
            0
        },
        duration: if p.duration_nanos > 0 {
            p.duration_nanos as u64
        } else {
            0
        },
    }
}

fn string_at_exec(t: &Vec<String>, idx: i64) -> (r: Option<&String>)
    ensures
        match r {
            Some(s) => string_at(t@, idx) == Some(s@),
            None => string_at(t@, idx) is None,
        },
{
    if 0 <= idx && (idx as u64) < (t.len() as u64) {
        Some(&t[idx as usize])
    } else {
        None
    }
}

fn find_function(fns: &Vec<Function>, id: u64) -> (r: Option<usize>)
    ensures
        match r {
            Some(f) => f as int == function_index(fns@, id) && f < fns@.len(),
            None => function_index(fns@, id) < 0,
        },
{
    let mut i: usize = fns.len();
    assert(fns@.take(i as int) =~= fns@);
    while i > 0
        invariant
            0 <= i <= fns@.len(),
            function_index(fns@, id) == function_index(fns@.take(i as int), id),
        decreases i,
    {
        let ghost pre = fns@.take(i as int);
        assert(pre.drop_last() =~= fns@.take(i as int - 1));
        assert(pre.last() == fns@[i as int - 1]);
        if fns[i - 1].id == id {
            return Some(i - 1);
        }
        i = i - 1;
    }
    None
}

fn find_location(locs: &Vec<Location>, id: u64) -> (r: Option<usize>)
    ensures
        match r {
            Some(l) => l as int == location_index(locs@, id) && l < locs@.len(),
            None => location_index(locs@, id) < 0,
        },
{
    let mut i: usize = locs.len();
    assert(locs@.take(i as int) =~= locs@);
    while i > 0
        invariant
            0 <= i <= locs@.len(),
            location_index(locs@, id) == location_index(locs@.take(i as int), id),
        decreases i,
    {
        let ghost pre = locs@.take(i as int);
        assert(pre.drop_last() =~= locs@.take(i as int - 1));
        assert(pre.last() == locs@[i as int - 1]);
        if locs[i - 1].id == id {
            return Some(i - 1);
        }
        i = i - 1;
    }
    None
}

fn unknown_string() -> (r: String)
    ensures
        r@ == unknown_chars(),
{
    let r = String::from_str("Unknown");
    proof {
        reveal_strlit("Unknown");
    }
    assert(r@ =~= unknown_chars());
    r
}

fn string_bytes(s: &String) -> (r: Vec<u8>)
    ensures
        r@ == encode_utf8(s@),
{
    s.as_str().as_bytes_vec()
}

fn decode_line(p: &Profile, line: &Line) -> (r: Option<Symbol>)
    ensures
        match r {
            Some(s) => line_symbol(*p, *line) == Some(symbol_view(s)),
            None => line_symbol(*p, *line) is None,
        },
{
    match find_function(&p.function, line.function_id) {
        None => None,
        Some(f) => {
            let func = &p.function[f];
            let name = match string_at_exec(&p.string_table, func.name) {
                Some(s) => s.clone(),
                None => unknown_string(),
            };
            let file = match string_at_exec(&p.string_table, func.filename) {
                Some(s) => s.clone(),
                None => unknown_string(),
            };
            let unknown = unknown_string();
            let is_unknown = str_eq(file.as_str(), unknown.as_str());
            let lineno = if line.line > 0 {
                Some(line.line as u32)
            } else {
                None
            };
            let s = Symbol {
                name: Some(string_bytes(&name)),
                addr: None,
                lineno,
                filename: if is_unknown {
                    None
                } else {
                    Some(file)
                },
            };
            Some(s)
        },
    }
}

fn decode_location(p: &Profile, loc: &Location) -> (r: Vec<Symbol>)
    ensures
        r@.map_values(|s: Symbol| symbol_view(s)) == lines_symbols(*p, loc.line@),
{
    let mut r: Vec<Symbol> = Vec::new();
    let mut k: usize = 0;
    while k < loc.line.len()
        invariant
            0 <= k <= loc.line@.len(),
            r@.map_values(|s: Symbol| symbol_view(s)) == lines_symbols(*p, loc.line@.take(k as int)),
        decreases loc.line@.len() - k,
    {
        let ghost pre = loc.line@.take(k as int + 1);
        assert(pre.drop_last() =~= loc.line@.take(k as int));
        assert(pre.last() == loc.line@[k as int]);
        let ghost before = r@;
        match decode_line(p, &loc.line[k]) {
            Some(s) => {
                r.push(s);
                assert(r@.map_values(|s: Symbol| symbol_view(s)) =~= before.map_values(|s: Symbol| symbol_view(s)).push(
                    symbol_view(s),
                ));
            },
            None => {},
        }
        k = k + 1;
    }
    assert(loc.line@.take(k as int) =~= loc.line@);
    r
}

fn decode_thread(p: &Profile, labels: &Vec<crate::protos::Label>) -> (r: String)
    ensures
        r@ == sample_thread(*p, labels@),
{
    let thread = "thread";
    proof {
        reveal_strlit("thread");
    }
    assert(thread@ =~= thread_chars());
    let mut i: usize = 0;
    assert(labels@.skip(0) =~= labels@);
    while i < labels.len()
        invariant
            thread@ == thread_chars(),
            0 <= i <= labels@.len(),
            sample_thread(*p, labels@) == sample_thread(*p, labels@.skip(i as int)),
        decreases labels@.len() - i,
    {
        let ghost rest = labels@.skip(i as int);
        assert(rest[0] == labels@[i as int]);
        let is_thread = match string_at_exec(&p.string_table, labels[i].key) {
            Some(k) => str_eq(k.as_str(), thread),
            None => false,
        };
        if is_thread {
            return match string_at_exec(&p.string_table, labels[i].str) {
                Some(s) => s.clone(),
                None => String::new(),
            };
        }
        assert(rest.drop_first() =~= labels@.skip(i as int + 1));
        i = i + 1;
    }
    assert(labels@.skip(i as int).len() == 0);
    String::new()
}

fn decode_sample(p: &Profile, s: &Sample) -> (r: (Frames, isize))
    ensures
        decoded_from(*p, *s, r),
{
    let mut frames: Vec<Vec<Symbol>> = Vec::new();
    let mut j: usize = 0;
    while j < s.location_id.len()
        invariant
            0 <= j <= s.location_id@.len(),
            frames@.map_values(|v: Vec<Symbol>| v@.map_values(|x: Symbol| symbol_view(x))) == sample_frames(
                *p,
                s.location_id@.take(j as int),
            ),
        decreases s.location_id@.len() - j,
    {
        let ghost pre = s.location_id@.take(j as int + 1);
        assert(pre.drop_last() =~= s.location_id@.take(j as int));
        assert(pre.last() == s.location_id@[j as int]);
        let ghost before = frames@;
        match find_location(&p.location, s.location_id[j]) {
            Some(l) => {
                let symbols = decode_location(p, &p.location[l]);
                if symbols.len() > 0 {
                    let ghost sv = symbols@.map_values(|x: Symbol| symbol_view(x));
                    frames.push(symbols);
                    assert(frames@.map_values(|v: Vec<Symbol>| v@.map_values(|x: Symbol| symbol_view(x)))
                        =~= before.map_values(|v: Vec<Symbol>| v@.map_values(|x: Symbol| symbol_view(x))).push(sv));
                } else {
                    assert(symbols@.map_values(|x: Symbol| symbol_view(x)).len() == 0);
                }
            },
            None => {},
        }
        j = j + 1;
    }
    assert(s.location_id@.take(j as int) =~= s.location_id@);
    let thread_name = decode_thread(p, &s.label);
    let count: isize = if s.value.len() > 0 {
        s.value[0] as isize
    } else {
        0
    };
    (Frames { frames, thread_name, thread_id: 0, sample_timestamp: 0 }, count)
}

impl Report {
    /// The report that a saved profile records: each sample is read back as
    /// a stack of symbols with its thread name and count, samples that read
    /// as the same stack are merged, and the timing is taken from the
    /// profile's period, start time and duration.
    pub fn from_pprof(profile: &Profile) -> (r: Result<Report, Error>)
        ensures
            r is Ok,
            r matches Ok(report) ==> report.timing == decoded_timing(*profile),
            r is Ok ==> exists|decoded: Seq<(Frames, isize)>|
                {
                    &&& decoded.len() == profile.sample@.len()
                    &&& forall|i: int|
                        0 <= i < decoded.len() ==> decoded_from(*profile, profile.sample@[i], #[trigger] decoded[i])
                    &&& #[trigger] is_frames_merge_of(decoded, r->Ok_0.data@)
                },
    {
        let mut data: Vec<(Frames, isize)> = Vec::new();
        let mut i: usize = 0;
        while i < profile.sample.len()
            invariant
                0 <= i <= profile.sample@.len(),
                data@.len() == i,
                forall|j: int| 0 <= j < i ==> decoded_from(*profile, profile.sample@[j], #[trigger] data@[j]),
            decreases profile.sample@.len() - i,
        {
            let e = decode_sample(profile, &profile.sample[i]);
            data.push(e);
            i = i + 1;
        }
        let ghost decoded = data@;
        let frequency: i32 = if profile.period > 0 {
            (1_000_000_000i64 / profile.period) as i32
        } else {
            1
        };
        let start_time: u64 = if profile.time_nanos > 0 {
            profile.time_nanos as u64
        } else {
            0
        };
        let duration: u64 = if profile.duration_nanos > 0 {
            profile.duration_nanos as u64
        } else {
            0
        };
        let merged = merge_frames(data);
        let r: Result<Report, Error> = Ok(
            Report { data: merged, timing: ReportTiming { frequency, start_time, duration } },
        );
        // the witness for the postcondition's `decoded`
        assert(is_frames_merge_of(decoded, r->Ok_0.data@));
        r
    }
}

} // verus!
