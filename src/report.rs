//! Reports: the drained contents of the profiler, with equal stacks merged.
use vstd::prelude::*;

use crate::collector::{all_entries, is_merge_of, merge_entries, Entry};
use crate::error::Error;
use crate::frames::{kept_frames, raw_name_of, utf8_lossy, Frames, Symbol, UnresolvedFrames};
use crate::text::str_eq;
use crate::profiler::Profiler;

verus! {

/// Timing metadata of a report.
#[derive(Debug, Clone, Copy, PartialEq, Eq, Structural)]
pub struct ReportTiming {
    /// Frequency at which samples were taken, per second.
    pub frequency: i32,
    /// When collection started, in nanoseconds since the Unix epoch.
    pub start_time: u64,
    /// How long collection ran, in nanoseconds.
    pub duration: u64,
}

impl Default for ReportTiming {
    /// Frequency 1, starting at the epoch, lasting no time.
    fn default() -> (r: Self)
        ensures
            r == (ReportTiming { frequency: 1, start_time: 0, duration: 0 }),
    {
        ReportTiming { frequency: 1, start_time: 0, duration: 0 }
    }
}

/// The samples of a profiler run before symbol lookup: one entry per distinct
/// stack, with its number of samples.
pub struct UnresolvedReport {
    pub data: Vec<Entry<UnresolvedFrames>>,
    pub timing: ReportTiming,
}

impl UnresolvedReport {
    /// Drains the profiler's table into a report: every resident and
    /// overflowed entry is read, and the positive counts of equal stacks are
    /// summed into one entry.
    pub fn build(profiler: &Profiler, timing: ReportTiming) -> (r: Result<UnresolvedReport, Error>)
        requires
            profiler.wf(),
        ensures
            r matches Ok(report) && report.timing == timing && is_merge_of(
                all_entries(profiler.samples()),
                report.data@,
            ),
    {
        let entries = match profiler.data().try_iter() {
            Ok(v) => v,
            Err(e) => return Err(e),
        };
        let data = merge_entries(&entries);
        Ok(UnresolvedReport { data, timing })
    }
}

/// The samples of a profiler run after symbol lookup: each distinct stack
/// with its symbols, and its number of samples.
pub struct Report {
    pub data: Vec<(Frames, isize)>,
    pub timing: ReportTiming,
}

impl Report {
    /// A report from a drained one and the symbols looked up for it:
    /// `symbols[i][j]` holds the symbols of frame `j` of entry `i`. Each
    /// entry becomes a stack with symbols; entries that come out as the same
    /// stack are merged.
    pub fn from_unresolved(report: UnresolvedReport, symbols: Vec<Vec<Vec<Symbol>>>) -> (r: Report)
        requires
            symbols@.len() == report.data@.len(),
        ensures
            r.timing == report.timing,
            exists|resolved: Seq<(Frames, isize)>|
                {
                    &&& resolved.len() == report.data@.len()
                    &&& forall|i: int|
                        0 <= i < resolved.len() ==> resolved_from(#[trigger] resolved[i], report.data@[i], symbols@[i]@)
                    &&& #[trigger] is_frames_merge_of(resolved, r.data@)
                },
    {
        let mut remaining = symbols;
        let ghost all = remaining@;
        let mut data: Vec<(Frames, isize)> = Vec::new();
        let mut i: usize = 0;
        while i < report.data.len()
            invariant
                remaining@.len() == report.data@.len(),
                all.len() == report.data@.len(),
                0 <= i <= report.data@.len(),
                forall|j: int| i <= j < all.len() ==> remaining@[j] == all[j],
                data@.len() == i,
                forall|j: int| 0 <= j < i ==> resolved_from(#[trigger] data@[j], report.data@[j], all[j]@),
            decreases report.data@.len() - i,
        {
            let mut taken: Vec<Vec<Symbol>> = Vec::new();
            core::mem::swap(&mut remaining[i], &mut taken);
            let entry = &report.data[i];
            let frames = Frames::from_resolved(&entry.item, taken);
            data.push((frames, entry.count));
            i = i + 1;
        }
        let ghost resolved = data@;
        let merged = merge_frames(data);
        let r = Report { data: merged, timing: report.timing };
        // the witness for the postcondition's `resolved`
        assert(is_frames_merge_of(resolved, r.data@));
        r
    }
}

/// `e` is entry `u` after symbol lookup found `symbols` for its frames.
pub open spec fn resolved_from(e: (Frames, isize), u: Entry<UnresolvedFrames>, symbols: Seq<Vec<Symbol>>) -> bool {
    &&& e.1 == u.count
    &&& e.0.frames@ == kept_frames(symbols)
    &&& e.0.thread_name@ == utf8_lossy(u.item.name())
    &&& e.0.thread_id == u.item.thread_id
    &&& e.0.sample_timestamp == u.item.sample_timestamp
}

/// What makes two resolved samples the same stack: the raw names of their
/// symbols, frame by frame, the thread name and id, and the time.
pub open spec fn frames_key(f: Frames) -> (Seq<Seq<Seq<u8>>>, Seq<char>, u64, u64) {
    (
        f.frames@.map_values(|v: Vec<Symbol>| v@.map_values(|s: Symbol| raw_name_of(s))),
        f.thread_name@,
        f.thread_id,
        f.sample_timestamp,
    )
}

/// Index of the first entry whose stack has key `k`, or -1.
pub open spec fn first_index_of_key(s: Seq<(Frames, isize)>, k: (Seq<Seq<Seq<u8>>>, Seq<char>, u64, u64)) -> int
    decreases s.len(),
{
    if s.len() == 0 {
        -1
    } else {
        let p = first_index_of_key(s.drop_last(), k);
        if p >= 0 {
            p
        } else if frames_key(s.last().0) == k {
            s.len() - 1
        } else {
            -1
        }
    }
}

/// The counts of the entries with key `k`, added in order with wrapping.
pub open spec fn folded_count(s: Seq<(Frames, isize)>, k: (Seq<Seq<Seq<u8>>>, Seq<char>, u64, u64)) -> isize
    decreases s.len(),
{
    if s.len() == 0 {
        0
    } else {
        let p = folded_count(s.drop_last(), k);
        if frames_key(s.last().0) == k {
            p.wrapping_add(s.last().1)
        } else {
            p
        }
    }
}

/// `merged` holds one entry per key of `entries`: the stack of the first
/// entry with that key and the wrapping sum of the counts under it, in order
/// of first appearance.
pub open spec fn is_frames_merge_of(entries: Seq<(Frames, isize)>, merged: Seq<(Frames, isize)>) -> bool {
    &&& forall|i: int, j: int|
        0 <= i < merged.len() && 0 <= j < merged.len() && i != j ==> frames_key(#[trigger] merged[i].0)
            != frames_key(#[trigger] merged[j].0)
    &&& forall|i: int|
        0 <= i < merged.len() ==> {
            let k = frames_key((#[trigger] merged[i]).0);
            &&& 0 <= first_index_of_key(entries, k) < entries.len()
            &&& merged[i].0 == entries[first_index_of_key(entries, k)].0
            &&& merged[i].1 == folded_count(entries, k)
        }
    &&& forall|e: int|
        0 <= e < entries.len() ==> exists|i: int|
            0 <= i < merged.len() && frames_key(#[trigger] merged[i].0) == frames_key(#[trigger] entries[e].0)
}

fn bytes_eq(a: &Vec<u8>, b: &Vec<u8>) -> (r: bool)
    ensures
        r == (a@ == b@),
{
    if a.len() != b.len() {
        return false;
    }
    let mut i: usize = 0;
    while i < a.len()
        invariant
            a@.len() == b@.len(),
            0 <= i <= a@.len(),
            forall|j: int| 0 <= j < i ==> a@[j] == b@[j],
        decreases a@.len() - i,
    {
        if a[i] != b[i] {
            return false;
        }
        i = i + 1;
    }
    assert(a@ =~= b@);
    true
}

fn symbols_same(a: &Vec<Symbol>, b: &Vec<Symbol>) -> (r: bool)
    ensures
        r == (a@.map_values(|s: Symbol| raw_name_of(s)) == b@.map_values(|s: Symbol| raw_name_of(s))),
{
    let ghost ma = a@.map_values(|s: Symbol| raw_name_of(s));
    let ghost mb = b@.map_values(|s: Symbol| raw_name_of(s));
    if a.len() != b.len() {
        assert(ma.len() != mb.len());
        return false;
    }
    let mut i: usize = 0;
    while i < a.len()
        invariant
            ma == a@.map_values(|s: Symbol| raw_name_of(s)),
            mb == b@.map_values(|s: Symbol| raw_name_of(s)),
            a@.len() == b@.len(),
            0 <= i <= a@.len(),
            forall|j: int| 0 <= j < i ==> ma[j] == mb[j],
        decreases a@.len() - i,
    {
        let x = a[i].raw_name();
        let y = b[i].raw_name();
        if !bytes_eq(&x, &y) {
            assert(ma[i as int] != mb[i as int]);
            return false;
        }
        i = i + 1;
    }
    assert(ma =~= mb);
    true
}

/// Whether two resolved samples are the same stack.
pub fn frames_same(a: &Frames, b: &Frames) -> (r: bool)
    ensures
        r == (frames_key(*a) == frames_key(*b)),
{
    let ghost ka = frames_key(*a);
    let ghost kb = frames_key(*b);
    if a.thread_id != b.thread_id || a.sample_timestamp != b.sample_timestamp || !str_eq(
        a.thread_name.as_str(),
        b.thread_name.as_str(),
    ) {
        return false;
    }
    if a.frames.len() != b.frames.len() {
        assert(ka.0.len() != kb.0.len());
        return false;
    }
    let mut j: usize = 0;
    while j < a.frames.len()
        invariant
            ka == frames_key(*a),
            kb == frames_key(*b),
            a.frames@.len() == b.frames@.len(),
            0 <= j <= a.frames@.len(),
            forall|x: int| 0 <= x < j ==> ka.0[x] == kb.0[x],
        decreases a.frames@.len() - j,
    {
        if !symbols_same(&a.frames[j], &b.frames[j]) {
            assert(ka.0[j as int] != kb.0[j as int]);
            return false;
        }
        j = j + 1;
    }
    assert(ka.0 =~= kb.0);
    true
}

proof fn lemma_first_index_none(s: Seq<(Frames, isize)>, k: (Seq<Seq<Seq<u8>>>, Seq<char>, u64, u64))
    requires
        forall|e: int| 0 <= e < s.len() ==> frames_key(#[trigger] s[e].0) != k,
    ensures
        first_index_of_key(s, k) == -1,
        folded_count(s, k) == 0,
    decreases s.len(),
{
    if s.len() > 0 {
        assert(s.last() == s[s.len() - 1]);
        lemma_first_index_none(s.drop_last(), k);
    }
}

proof fn lemma_first_index_bound(s: Seq<(Frames, isize)>, k: (Seq<Seq<Seq<u8>>>, Seq<char>, u64, u64))
    ensures
        first_index_of_key(s, k) >= 0 ==> first_index_of_key(s, k) < s.len() && frames_key(
            s[first_index_of_key(s, k)].0,
        ) == k,
    decreases s.len(),
{
    if s.len() > 0 {
        lemma_first_index_bound(s.drop_last(), k);
    }
}

/// Merges entries with the same stack: the first such entry's stack is kept
/// and the counts are added in order, wrapping on overflow.
pub fn merge_frames(entries: Vec<(Frames, isize)>) -> (r: Vec<(Frames, isize)>)
    ensures
        is_frames_merge_of(entries@, r@),
{
    let mut entries = entries;
    let ghost all = entries@;
    let mut r: Vec<(Frames, isize)> = Vec::new();
    let mut n: usize = 0;
    while n < entries.len()
        invariant
            entries@.len() == all.len(),
            0 <= n <= all.len(),
            forall|m: int| n <= m < all.len() ==> entries@[m] == all[m],
            is_frames_merge_of(all.take(n as int), r@),
        decreases all.len() - n,
    {
        let ghost pre = all.take(n as int);
        let ghost post = all.take(n as int + 1);
        assert(post.drop_last() =~= pre);
        assert(post.last() == all[n as int]);
        let mut taken = (Frames { frames: Vec::new(), thread_name: String::new(), thread_id: 0, sample_timestamp: 0 }, 0isize);
        core::mem::swap(&mut entries[n], &mut taken);
        assert(taken == all[n as int]);
        let ghost k = frames_key(taken.0);
        let mut i: usize = 0;
        while i < r.len()
            invariant
                0 <= i <= r@.len(),
                k == frames_key(taken.0),
                forall|j: int| 0 <= j < i ==> frames_key(#[trigger] r@[j].0) != k,
            ensures
                0 <= i <= r@.len(),
                forall|j: int| 0 <= j < i ==> frames_key(#[trigger] r@[j].0) != k,
                i < r@.len() ==> frames_key(r@[i as int].0) == k,
            decreases r@.len() - i,
        {
            if frames_same(&r[i].0, &taken.0) {
                break;
            }
            i = i + 1;
        }
        let ghost rs = r@;
        if i < r.len() {
            let sum = r[i].1.wrapping_add(taken.1);
            r[i].1 = sum;
            proof {
                assert forall|a: int, b: int|
                    0 <= a < r@.len() && 0 <= b < r@.len() && a != b implies frames_key(#[trigger] r@[a].0)
                        != frames_key(#[trigger] r@[b].0) by {
                    assert(r@[a].0 == rs[a].0);
                    assert(r@[b].0 == rs[b].0);
                }
                assert forall|a: int| 0 <= a < r@.len() implies {
                    let kk = frames_key((#[trigger] r@[a]).0);
                    &&& 0 <= first_index_of_key(post, kk) < post.len()
                    &&& r@[a].0 == post[first_index_of_key(post, kk)].0
                    &&& r@[a].1 == folded_count(post, kk)
                } by {
                    assert(r@[a].0 == rs[a].0);
                    let kk = frames_key(rs[a].0);
                    assert(post[first_index_of_key(pre, kk)] == pre[first_index_of_key(pre, kk)]);
                }
                assert forall|e: int| 0 <= e < post.len() implies exists|x: int|
                    0 <= x < r@.len() && frames_key(#[trigger] r@[x].0) == frames_key(#[trigger] post[e].0) by {
                    if e < n {
                        assert(post[e] == pre[e]);
                        let x = choose|x: int| 0 <= x < rs.len() && frames_key(#[trigger] rs[x].0) == frames_key(#[trigger] pre[e].0);
                        assert(r@[x].0 == rs[x].0);
                    } else {
                        assert(r@[i as int].0 == rs[i as int].0);
                    }
                }
            }
        } else {
            proof {
                assert forall|e: int| 0 <= e < pre.len() implies frames_key(#[trigger] pre[e].0) != k by {
                    if frames_key(pre[e].0) == k {
                        let x = choose|x: int| 0 <= x < rs.len() && frames_key(#[trigger] rs[x].0) == frames_key(#[trigger] pre[e].0);
                    }
                }
                lemma_first_index_none(pre, k);
            }
            r.push(taken);
            proof {
                assert forall|a: int, b: int|
                    0 <= a < r@.len() && 0 <= b < r@.len() && a != b implies frames_key(#[trigger] r@[a].0)
                        != frames_key(#[trigger] r@[b].0) by {
                    if a < rs.len() {
                        assert(r@[a] == rs[a]);
                    }
                    if b < rs.len() {
                        assert(r@[b] == rs[b]);
                    }
                }
                assert forall|a: int| 0 <= a < r@.len() implies {
                    let kk = frames_key((#[trigger] r@[a]).0);
                    &&& 0 <= first_index_of_key(post, kk) < post.len()
                    &&& r@[a].0 == post[first_index_of_key(post, kk)].0
                    &&& r@[a].1 == folded_count(post, kk)
                } by {
                    if a < rs.len() {
                        assert(r@[a] == rs[a]);
                        let kk = frames_key(rs[a].0);
                        assert(post[first_index_of_key(pre, kk)] == pre[first_index_of_key(pre, kk)]);
                    }
                }
                assert forall|e: int| 0 <= e < post.len() implies exists|x: int|
                    0 <= x < r@.len() && frames_key(#[trigger] r@[x].0) == frames_key(#[trigger] post[e].0) by {
                    if e < n {
                        assert(post[e] == pre[e]);
                        let x = choose|x: int| 0 <= x < rs.len() && frames_key(#[trigger] rs[x].0) == frames_key(#[trigger] pre[e].0);
                        assert(r@[x] == rs[x]);
                    } else {
                        assert(r@[rs.len() as int] == taken);
                    }
                }
            }
        }
        n = n + 1;
    }
    assert(all.take(n as int) =~= all);
    r
}

} // verus!
