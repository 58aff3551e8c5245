//! The frame-pointer stack walker. It reads the interrupted thread's stack
//! through three calls that the caller supplies (validate an address, read
//! the two words of a frame, find a function's start), checks each address
//! before it is read, and stops at the first frame pointer that does not
//! grow.
use vstd::prelude::*;

use crate::frames::Frame;
use crate::MAX_DEPTH;

verus! {

/// Some segment `(start, end)` has `start < addr < end`.
pub open spec fn in_segments(segments: Seq<(usize, usize)>, addr: usize) -> bool {
    exists|i: int| 0 <= i < segments.len() && segments[i].0 < addr < #[trigger] segments[i].1
}

/// Whether `addr` lies strictly inside one of `segments`.
pub fn is_in_segments(segments: &Vec<(usize, usize)>, addr: usize) -> (r: bool)
    ensures
        r == in_segments(segments@, addr),
{
    let mut i: usize = 0;
    while i < segments.len()
        invariant
            0 <= i <= segments@.len(),
            forall|j: int| 0 <= j < i ==> !(segments@[j].0 < addr < #[trigger] segments@[j].1),
        decreases segments@.len() - i,
    {
        let (start, end) = segments[i];
        if start < addr && addr < end {
            return true;
        }
        i = i + 1;
    }
    false
}

/// Whether a walk may step from frame pointer `last` (`None` before the
/// first frame) to `next`: the stack grows toward lower addresses, so each
/// caller's frame lies strictly above its callee's.
pub fn frame_pointer_advances(last: Option<usize>, next: usize) -> (r: bool)
    ensures
        r == match last {
            None => true,
            Some(l) => l < next,
        },
{
    match last {
        None => true,
        Some(l) => l < next,
    }
}

/// The frames that a walk collected, innermost first, with the frame pointer
/// each was read from and the caller's frame pointer saved there.
pub struct Backtrace {
    pub frames: [Frame; MAX_DEPTH],
    pub frame_pointers: [usize; MAX_DEPTH],
    pub saved_pointers: [usize; MAX_DEPTH],
    pub depth: usize,
}

impl Backtrace {
    /// The collected frames.
    pub open spec fn stack(&self) -> Seq<Frame> {
        self.frames@.take(self.depth as int)
    }

    /// The frame pointers the frames were read from.
    pub open spec fn chain(&self) -> Seq<usize> {
        self.frame_pointers@.take(self.depth as int)
    }

    /// The caller's frame pointer read at each frame pointer of the chain.
    pub open spec fn saved(&self) -> Seq<usize> {
        self.saved_pointers@.take(self.depth as int)
    }

    /// The collected frames, as a slice.
    pub fn frames(&self) -> (r: &[Frame])
        requires
            self.depth <= MAX_DEPTH,
        ensures
            r@ == self.stack(),
    {
        let s = self.frames.as_slice();
        slice_prefix(s, self.depth)
    }
}

fn slice_prefix(s: &[Frame], n: usize) -> (r: &[Frame])
    requires
        n <= s@.len(),
    ensures
        r@ == s@.take(n as int),
{
    let r = vstd::slice::slice_subrange(s, 0, n);
    assert(r@ =~= s@.take(n as int));
    r
}

/// Why a walk that stands at frame pointer `next` (after `last`, `None`
/// before the first frame) records no further frame: the pointer does not
/// lie above the previous one, it fails validation, or the return address
/// read there is blocklisted.
pub open spec fn walk_stops<V: Fn(usize) -> bool, R: Fn(usize) -> (usize, usize)>(
    validate: V,
    read_frame: R,
    blocklist: Seq<(usize, usize)>,
    last: Option<usize>,
    next: usize,
) -> bool {
    ||| (last matches Some(l) && next <= l)
    ||| validate.ensures((next,), false)
    ||| exists|w: (usize, usize)| #[trigger] read_frame.ensures((next,), w) && in_segments(blocklist, w.1)
}

/// `stack`, `chain` and `saved` are a walk from frame pointer `start`: each
/// frame pointer of the chain passed `validate`; `read_frame` there gave the
/// caller's saved frame pointer and the frame's return address; the next
/// frame pointer is the saved one and lies strictly above; each frame's
/// symbol address is what `symbol_address` gave for its return address; no
/// return address is blocklisted; and, short of `max_depth` frames, the walk
/// ended for a reason `walk_stops` names.
pub open spec fn is_walk<V: Fn(usize) -> bool, R: Fn(usize) -> (usize, usize), S: Fn(usize) -> usize>(
    validate: V,
    read_frame: R,
    symbol_address: S,
    start: usize,
    blocklist: Seq<(usize, usize)>,
    max_depth: usize,
    stack: Seq<Frame>,
    chain: Seq<usize>,
    saved: Seq<usize>,
) -> bool {
    let n = stack.len();
    &&& chain.len() == n
    &&& saved.len() == n
    &&& n <= max_depth
    &&& n > 0 ==> chain[0] == start
    &&& forall|i: int|
        0 <= i < n ==> {
            &&& validate.ensures((#[trigger] chain[i],), true)
            &&& read_frame.ensures((chain[i],), (saved[i], stack[i].ip))
            &&& symbol_address.ensures((stack[i].ip,), stack[i].symbol_address)
            &&& !in_segments(blocklist, stack[i].ip)
        }
    &&& forall|i: int| 0 <= i < n - 1 ==> chain[i + 1] == #[trigger] saved[i] && chain[i] < saved[i]
    &&& n < max_depth ==> walk_stops(
        validate,
        read_frame,
        blocklist,
        if n == 0 {
            None
        } else {
            Some(chain[n - 1])
        },
        if n == 0 {
            start
        } else {
            saved[n - 1]
        },
    )
}

/// The frames of some walk from `start` (see `is_walk`).
pub open spec fn is_walk_stack<V: Fn(usize) -> bool, R: Fn(usize) -> (usize, usize), S: Fn(usize) -> usize>(
    validate: V,
    read_frame: R,
    symbol_address: S,
    start: usize,
    blocklist: Seq<(usize, usize)>,
    max_depth: usize,
    stack: Seq<Frame>,
) -> bool {
    exists|chain: Seq<usize>, saved: Seq<usize>|
        #[trigger] is_walk(validate, read_frame, symbol_address, start, blocklist, max_depth, stack, chain, saved)
}

/// Walks the chain of frame pointers that starts at `frame_pointer`.
///
/// Each step checks that the frame pointer lies strictly above the previous
/// one (so a cyclic chain ends), validates it, reads the saved frame pointer
/// and return address there, and records the return address, with the start
/// of its function, as a frame. The walk stops at `max_depth` frames, or at
/// the first step that fails, or at a blocklisted return address.
pub fn trace<V: Fn(usize) -> bool, R: Fn(usize) -> (usize, usize), S: Fn(usize) -> usize>(
    validate: V,
    read_frame: R,
    symbol_address: S,
    frame_pointer: usize,
    blocklist: &Vec<(usize, usize)>,
    max_depth: usize,
) -> (r: Backtrace)
    requires
        max_depth <= MAX_DEPTH,
        forall|a: usize| validate.requires((a,)),
        forall|a: usize| read_frame.requires((a,)),
        forall|a: usize| symbol_address.requires((a,)),
    ensures
        r.depth <= max_depth,
        is_walk(
            validate,
            read_frame,
            symbol_address,
            frame_pointer,
            blocklist@,
            max_depth,
            r.stack(),
            r.chain(),
            r.saved(),
        ),
{
    let mut bt = Backtrace {
        frames: [Frame { ip: 0, symbol_address: 0 };MAX_DEPTH],
        frame_pointers: [0usize;MAX_DEPTH],
        saved_pointers: [0usize;MAX_DEPTH],
        depth: 0,
    };
    let mut fp = frame_pointer;
    let mut last: Option<usize> = None;
    while bt.depth < max_depth
        invariant
            max_depth <= MAX_DEPTH,
            forall|a: usize| validate.requires((a,)),
            forall|a: usize| read_frame.requires((a,)),
            forall|a: usize| symbol_address.requires((a,)),
            bt.depth <= max_depth,
            bt.frames@.len() == MAX_DEPTH,
            bt.frame_pointers@.len() == MAX_DEPTH,
            bt.saved_pointers@.len() == MAX_DEPTH,
            bt.depth > 0 ==> bt.chain()[0] == frame_pointer,
            bt.depth > 0 ==> last == Some(bt.chain()[bt.depth - 1]) && fp == bt.saved()[bt.depth - 1],
            bt.depth == 0 ==> last is None && fp == frame_pointer,
            forall|i: int|
                0 <= i < bt.depth ==> {
                    &&& validate.ensures((#[trigger] bt.chain()[i],), true)
                    &&& read_frame.ensures((bt.chain()[i],), (bt.saved()[i], bt.stack()[i].ip))
                    &&& symbol_address.ensures((bt.stack()[i].ip,), bt.stack()[i].symbol_address)
                    &&& !in_segments(blocklist@, bt.stack()[i].ip)
                },
            forall|i: int|
                0 <= i < bt.depth - 1 ==> bt.chain()[i + 1] == #[trigger] bt.saved()[i] && bt.chain()[i]
                    < bt.saved()[i],
        ensures
            bt.depth <= max_depth,
            bt.depth > 0 ==> last == Some(bt.chain()[bt.depth - 1]) && fp == bt.saved()[bt.depth - 1],
            bt.depth == 0 ==> last is None && fp == frame_pointer,
            bt.depth < max_depth ==> walk_stops(validate, read_frame, blocklist@, last, fp),
        decreases max_depth - bt.depth,
    {
        if !frame_pointer_advances(last, fp) {
            break;
        }
        if !validate(fp) {
            break;
        }
        let (next, ret) = read_frame(fp);
        if is_in_segments(blocklist, ret) {
            assert(read_frame.ensures((fp,), (next, ret)));
            break;
        }
        let sym = symbol_address(ret);
        let ghost old_frames = bt.frames@;
        let ghost old_fps = bt.frame_pointers@;
        let ghost old_saved = bt.saved_pointers@;
        let ghost old_chain = bt.chain();
        let ghost old_stack = bt.stack();
        let ghost old_sv = bt.saved();
        let d = bt.depth;
        bt.frames[d] = Frame { ip: ret, symbol_address: sym };
        bt.frame_pointers[d] = fp;
        bt.saved_pointers[d] = next;
        bt.depth = d + 1;
        assert(bt.stack() =~= old_frames.take(d as int).push(Frame { ip: ret, symbol_address: sym }));
        assert(bt.chain() =~= old_fps.take(d as int).push(fp));
        assert(bt.saved() =~= old_saved.take(d as int).push(next));
        assert(old_chain =~= old_fps.take(d as int));
        assert(old_stack =~= old_frames.take(d as int));
        assert(old_sv =~= old_saved.take(d as int));
        assert forall|i: int|
            0 <= i < bt.depth implies {
                &&& validate.ensures((#[trigger] bt.chain()[i],), true)
                &&& read_frame.ensures((bt.chain()[i],), (bt.saved()[i], bt.stack()[i].ip))
                &&& symbol_address.ensures((bt.stack()[i].ip,), bt.stack()[i].symbol_address)
                &&& !in_segments(blocklist@, bt.stack()[i].ip)
            } by {
            if i < d {
                assert(bt.chain()[i] == old_chain[i]);
                assert(bt.stack()[i] == old_stack[i]);
                assert(bt.saved()[i] == old_sv[i]);
            }
        }
        assert forall|i: int| 0 <= i < bt.depth - 1 implies bt.chain()[i + 1] == #[trigger] bt.saved()[i]
            && bt.chain()[i] < bt.saved()[i] by {
            assert(bt.saved()[i] == old_sv[i]);
            assert(bt.chain()[i] == old_chain[i]);
            if i + 1 < d {
                assert(bt.chain()[i + 1] == old_chain[i + 1]);
            }
        }
        last = Some(fp);
        fp = next;
    }
    bt
}

} // verus!
