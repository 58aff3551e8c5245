//! Captured stacks before symbol lookup, and the symbols that lookup yields.
use vstd::prelude::*;

use crate::collector::{hash_step, hash_words, SampleKey, HASH_OFFSET};
use crate::profiler::decimal_digits;
use crate::{MAX_DEPTH, MAX_THREAD_NAME};

verus! {

/// One captured frame: the return address found on the stack and the start
/// address of the function that contains it.
#[derive(Debug, Clone, Copy, PartialEq, Eq, Structural)]
pub struct Frame {
    pub ip: usize,
    pub symbol_address: usize,
}

impl Frame {
    /// The instruction pointer of this frame.
    pub fn ip(&self) -> (r: usize)
        ensures
            r == self.ip,
    {
        self.ip
    }

    /// The start address of the enclosing function.
    pub fn symbol_address(&self) -> (r: usize)
        ensures
            r == self.symbol_address,
    {
        self.symbol_address
    }
}

/// The words that identify a stack: the symbol address of each frame, then
/// the thread id.
pub open spec fn stack_words(frames: Seq<Frame>, thread_id: u64) -> Seq<u64> {
    frames.map_values(|f: Frame| f.symbol_address as u64).push(thread_id)
}

/// One sample as captured: a bounded stack of frames, the thread that was
/// running, its name and when the sample was taken. Two samples are the same
/// key when their frames have the same symbol addresses and the thread ids
/// agree; names and times do not take part.
#[derive(Debug, Clone, Copy)]
pub struct UnresolvedFrames {
    pub frames: [Frame; MAX_DEPTH],
    pub depth: usize,
    pub thread_name: [u8; MAX_THREAD_NAME],
    pub thread_name_length: usize,
    pub thread_id: u64,
    /// Nanoseconds since the Unix epoch.
    pub sample_timestamp: u64,
}

impl UnresolvedFrames {
    /// The invariant: the stack and the name fit their buffers.
    pub open spec fn wf(&self) -> bool {
        &&& self.depth <= MAX_DEPTH
        &&& self.thread_name_length <= MAX_THREAD_NAME
    }

    /// The captured frames, outermost call last.
    pub open spec fn stack(&self) -> Seq<Frame> {
        self.frames@.take(if self.depth <= MAX_DEPTH { self.depth as int } else { MAX_DEPTH as int })
    }

    /// The thread name bytes.
    pub open spec fn name(&self) -> Seq<u8> {
        self.thread_name@.take(
            if self.thread_name_length <= MAX_THREAD_NAME {
                self.thread_name_length as int
            } else {
                MAX_THREAD_NAME as int
            },
        )
    }

    /// A sample of the given frames, thread name, thread and time.
    pub fn new(frames: &[Frame], tn: &[u8], thread_id: u64, sample_timestamp: u64) -> (r: Self)
        requires
            frames@.len() <= MAX_DEPTH,
            tn@.len() <= MAX_THREAD_NAME,
        ensures
            r.wf(),
            r.stack() == frames@,
            r.name() == tn@,
            r.thread_id == thread_id,
            r.sample_timestamp == sample_timestamp,
    {
        let mut buf = [Frame { ip: 0, symbol_address: 0 };MAX_DEPTH];
        let mut i: usize = 0;
        while i < frames.len()
            invariant
                frames@.len() <= MAX_DEPTH,
                0 <= i <= frames@.len(),
                buf@.len() == MAX_DEPTH,
                buf@.take(i as int) == frames@.take(i as int),
            decreases frames@.len() - i,
        {
            buf[i] = frames[i];
            assert(buf@.take(i as int + 1) =~= frames@.take(i as int + 1));
            i = i + 1;
        }
        let mut name = [0u8;MAX_THREAD_NAME];
        let mut j: usize = 0;
        while j < tn.len()
            invariant
                tn@.len() <= MAX_THREAD_NAME,
                0 <= j <= tn@.len(),
                name@.len() == MAX_THREAD_NAME,
                name@.take(j as int) == tn@.take(j as int),
            decreases tn@.len() - j,
        {
            name[j] = tn[j];
            assert(name@.take(j as int + 1) =~= tn@.take(j as int + 1));
            j = j + 1;
        }
        assert(frames@.take(i as int) =~= frames@);
        assert(tn@.take(j as int) =~= tn@);
        UnresolvedFrames {
            frames: buf,
            depth: frames.len(),
            thread_name: name,
            thread_name_length: tn.len(),
            thread_id,
            sample_timestamp,
        }
    }

    /// A sample with no frames, no name, thread 0 and time 0.
    pub fn empty() -> (r: Self)
        ensures
            r.wf(),
            r.stack().len() == 0,
            r.name().len() == 0,
            r.thread_id == 0,
            r.sample_timestamp == 0,
    {
        UnresolvedFrames {
            frames: [Frame { ip: 0, symbol_address: 0 };MAX_DEPTH],
            depth: 0,
            thread_name: [0u8;MAX_THREAD_NAME],
            thread_name_length: 0,
            thread_id: 0,
            sample_timestamp: 0,
        }
    }

    /// Number of captured frames.
    pub fn len(&self) -> (r: usize)
        ensures
            r == self.stack().len(),
    {
        if self.depth <= MAX_DEPTH {
            self.depth
        } else {
            MAX_DEPTH
        }
    }

    /// The `i`-th captured frame.
    pub fn frame(&self, i: usize) -> (r: Frame)
        requires
            i < self.stack().len(),
        ensures
            r == self.stack()[i as int],
    {
        self.frames[i]
    }
}

impl SampleKey for UnresolvedFrames {
    open spec fn key(&self) -> Seq<u64> {
        stack_words(self.stack(), self.thread_id)
    }

    fn same_key(&self, other: &Self) -> (r: bool) {
        let ghost n1 = if self.depth <= MAX_DEPTH { self.depth as int } else { MAX_DEPTH as int };
        let ghost n2 = if other.depth <= MAX_DEPTH { other.depth as int } else { MAX_DEPTH as int };
        let ghost w1 = self.key();
        let ghost w2 = other.key();
        assert(w1.len() == n1 + 1);
        assert(w2.len() == n2 + 1);
        assert(w1[n1] == self.thread_id);
        assert(w2[n2] == other.thread_id);
        let n: usize = if self.depth <= MAX_DEPTH { self.depth } else { MAX_DEPTH };
        let m: usize = if other.depth <= MAX_DEPTH { other.depth } else { MAX_DEPTH };
        if self.thread_id != other.thread_id || n != m {
            return false;
        }
        let mut i: usize = 0;
        while i < n
            invariant
                n == n1,
                n1 == n2,
                0 <= i <= n,
                n <= MAX_DEPTH,
                w1 == self.key(),
                w2 == other.key(),
                w1.len() == n + 1,
                w2.len() == n + 1,
                forall|j: int| 0 <= j < i ==> w1[j] == w2[j],
            decreases n - i,
        {
            assert(w1[i as int] == self.frames@[i as int].symbol_address as u64);
            assert(w2[i as int] == other.frames@[i as int].symbol_address as u64);
            if self.frames[i].symbol_address != other.frames[i].symbol_address {
                return false;
            }
            i = i + 1;
        }
        assert(w1 =~= w2);
        true
    }

    fn key_hash(&self) -> (r: u64) {
        let ghost w = self.key();
        let n: usize = if self.depth <= MAX_DEPTH { self.depth } else { MAX_DEPTH };
        let mut h = HASH_OFFSET;
        let mut i: usize = 0;
        assert(w.take(0) =~= Seq::<u64>::empty());
        while i < n
            invariant
                n <= MAX_DEPTH,
                0 <= i <= n,
                w == self.key(),
                w.len() == n + 1,
                forall|j: int| 0 <= j < n ==> w[j] == self.frames@[j].symbol_address as u64,
                h == hash_words(w.take(i as int)),
            decreases n - i,
        {
            assert(w.take(i as int + 1).drop_last() =~= w.take(i as int));
            h = hash_step(h, self.frames[i].symbol_address as u64);
            i = i + 1;
        }
        assert(w.drop_last() =~= w.take(n as int));
        assert(w.last() == self.thread_id);
        hash_step(h, self.thread_id)
    }

    fn duplicate(&self) -> (r: Self) {
        *self
    }
}

} // verus!

verus! {

/// What `String::from_utf8_lossy` makes of these bytes.
pub uninterp spec fn utf8_lossy(b: Seq<u8>) -> Seq<char>;

/// What `symbolic_demangle::demangle` makes of this symbol name.
pub uninterp spec fn demangled(s: Seq<char>) -> Seq<char>;

/// Relies on `String::from_utf8_lossy`: the text of the bytes, with each
/// invalid sequence replaced; the result depends on the bytes alone.
#[verifier::external_body]
fn lossy_string(b: &[u8]) -> (r: String)
    ensures
        r@ == utf8_lossy(b@),
{
    String::from_utf8_lossy(b).into_owned()
}

/// Relies on `symbolic_demangle::demangle`: the demangled form of a Rust,
/// C++ or other mangled name, or the name itself when it is not mangled; the
/// result depends on the name alone.
#[verifier::external_body]
fn demangle_name(s: &str) -> (r: String)
    ensures
        r@ == demangled(s@),
{
    symbolic_demangle::demangle(s).into_owned()
}

/// The decimal digits of `n` as characters.
pub open spec fn decimal_chars(n: u64) -> Seq<char> {
    crate::profiler::decimal(n as nat).map_values(|b: u8| b as char)
}

/// The one-character string of an ASCII decimal digit.
fn digit_str(b: u8) -> (r: &'static str)
    requires
        48 <= b <= 57,
    ensures
        r@ == seq![b as char],
{
    let r = match b - 48 {
        0 => {
            proof {
                reveal_strlit("0");
            }
            "0"
        },
        1 => {
            proof {
                reveal_strlit("1");
            }
            "1"
        },
        2 => {
            proof {
                reveal_strlit("2");
            }
            "2"
        },
        3 => {
            proof {
                reveal_strlit("3");
            }
            "3"
        },
        4 => {
            proof {
                reveal_strlit("4");
            }
            "4"
        },
        5 => {
            proof {
                reveal_strlit("5");
            }
            "5"
        },
        6 => {
            proof {
                reveal_strlit("6");
            }
            "6"
        },
        7 => {
            proof {
                reveal_strlit("7");
            }
            "7"
        },
        8 => {
            proof {
                reveal_strlit("8");
            }
            "8"
        },
        _ => {
            proof {
                reveal_strlit("9");
            }
            "9"
        },
    };
    assert(r@ =~= seq![b as char]);
    r
}

/// `n` in decimal, without sign or padding.
pub fn decimal_string(n: u64) -> (r: String)
    ensures
        r@ == decimal_chars(n),
{
    let (buf, pos) = decimal_digits(n);
    let ghost digits = buf@.subrange(pos as int, 20);
    proof {
        lemma_decimal_ascii(n as nat);
    }
    let mut r = String::new();
    let mut i: usize = pos;
    while i < 20
        invariant
            pos <= i <= 20,
            buf@.len() == 20,
            digits == buf@.subrange(pos as int, 20),
            digits == crate::profiler::decimal(n as nat),
            forall|j: int| 0 <= j < digits.len() ==> 48 <= #[trigger] digits[j] <= 57,
            r@ == digits.take(i - pos).map_values(|b: u8| b as char),
        decreases 20 - i,
    {
        assert(buf@[i as int] == digits[i - pos]);
        r.append(digit_str(buf[i]));
        assert(r@ =~= digits.take(i - pos + 1).map_values(|b: u8| b as char));
        i = i + 1;
    }
    assert(digits.take(20 - pos) =~= digits);
    r
}

/// Every digit of `decimal(n)` is an ASCII digit.
pub proof fn lemma_decimal_ascii(n: nat)
    ensures
        forall|j: int|
            0 <= j < crate::profiler::decimal(n).len() ==> 48 <= #[trigger] crate::profiler::decimal(n)[j] <= 57,
    decreases n,
{
    let d = crate::profiler::decimal(n);
    if n >= 10 {
        lemma_decimal_ascii(n / 10);
        let p = crate::profiler::decimal(n / 10);
        assert(d == p.push((48 + n % 10) as u8));
        assert forall|j: int| 0 <= j < d.len() implies 48 <= #[trigger] d[j] <= 57 by {
            if j < p.len() {
                assert(d[j] == p[j]);
            }
        }
    } else {
        assert(d == seq![(48 + n) as u8]);
    }
}

/// A function symbol found for a frame: its raw (mangled) name, its address,
/// and the source line and file when debug information has them.
#[derive(Debug, Clone)]
pub struct Symbol {
    /// The raw name of the symbol, not demangled.
    pub name: Option<Vec<u8>>,
    /// The address of the function; not fully trustworthy.
    pub addr: Option<usize>,
    /// The line number, from debug information.
    pub lineno: Option<u32>,
    /// The file name, from debug information.
    pub filename: Option<String>,
}

/// The name used where a symbol has none.
pub open spec fn unknown_chars() -> Seq<char> {
    seq!['U', 'n', 'k', 'n', 'o', 'w', 'n']
}

/// The raw name of a symbol, or `Unknown` in bytes.
pub open spec fn raw_name_of(s: Symbol) -> Seq<u8> {
    match s.name {
        Some(n) => n@,
        None => unknown_chars().map_values(|c: char| c as u8),
    }
}

impl Symbol {
    /// The raw name, or `Unknown` when there is none.
    pub fn raw_name(&self) -> (r: Vec<u8>)
        ensures
            r@ == raw_name_of(*self),
    {
        match &self.name {
            Some(n) => n.clone(),
            None => {
                let r: Vec<u8> = vec![85u8, 110, 107, 110, 111, 119, 110];
                assert(r@ =~= unknown_chars().map_values(|c: char| c as u8));
                r
            },
        }
    }

    /// The demangled name.
    pub fn name(&self) -> (r: String)
        ensures
            r@ == demangled(utf8_lossy(raw_name_of(*self))),
    {
        let raw = self.raw_name();
        let text = lossy_string(raw.as_slice());
        demangle_name(text.as_str())
    }

    /// The raw name as text, not demangled.
    pub fn sys_name(&self) -> (r: String)
        ensures
            r@ == utf8_lossy(raw_name_of(*self)),
    {
        let raw = self.raw_name();
        lossy_string(raw.as_slice())
    }

    /// The file name, or `Unknown` when there is none.
    pub fn filename(&self) -> (r: String)
        ensures
            r@ == match self.filename {
                Some(f) => f@,
                None => unknown_chars(),
            },
    {
        match &self.filename {
            Some(f) => f.clone(),
            None => {
                let r = String::from_str("Unknown");
                proof {
                    reveal_strlit("Unknown");
                }
                assert(r@ =~= unknown_chars());
                r
            },
        }
    }

    /// The line number, or 0 when there is none.
    pub fn lineno(&self) -> (r: u32)
        ensures
            r == match self.lineno {
                Some(l) => l,
                None => 0,
            },
    {
        match self.lineno {
            Some(l) => l,
            None => 0,
        }
    }
}

/// A thread's name, or its id in decimal when the name is empty.
pub fn thread_name_or_id(thread_name: &String, thread_id: u64) -> (r: String)
    ensures
        r@ == if thread_name@.len() > 0 {
            thread_name@
        } else {
            decimal_chars(thread_id)
        },
{
    if thread_name.as_str().unicode_len() == 0 {
        decimal_string(thread_id)
    } else {
        thread_name.clone()
    }
}

} // verus!

verus! {

/// The name of the profiler's signal handler, as demangled.
pub open spec fn handler_name() -> Seq<char> {
    seq!['p', 'e', 'r', 'f', '_', 's', 'i', 'g', 'n', 'a', 'l', '_', 'h', 'a', 'n', 'd', 'l', 'e', 'r']
}

/// Some symbol of the frame is the profiler's signal handler.
pub open spec fn is_handler_frame(frame: Seq<Symbol>) -> bool {
    exists|i: int| 0 <= i < frame.len() && demangled(utf8_lossy(raw_name_of(#[trigger] frame[i]))) == handler_name()
}

/// The frames kept after symbol lookup: a frame of the signal handler is
/// dropped together with the frame after it, and frames without symbols are
/// dropped.
pub open spec fn kept_frames(frames: Seq<Vec<Symbol>>) -> Seq<Vec<Symbol>>
    decreases frames.len(),
{
    if frames.len() == 0 {
        Seq::empty()
    } else if is_handler_frame(frames[0]@) {
        if frames.len() == 1 {
            Seq::empty()
        } else {
            kept_frames(frames.skip(2))
        }
    } else if frames[0]@.len() == 0 {
        kept_frames(frames.skip(1))
    } else {
        seq![frames[0]] + kept_frames(frames.skip(1))
    }
}

/// A sample after symbol lookup: the symbols of each kept frame, innermost
/// first, with the thread's name and id and the time of the sample.
pub struct Frames {
    pub frames: Vec<Vec<Symbol>>,
    pub thread_name: String,
    pub thread_id: u64,
    /// Nanoseconds since the Unix epoch.
    pub sample_timestamp: u64,
}

fn is_handler(frame: &Vec<Symbol>) -> (r: bool)
    ensures
        r == is_handler_frame(frame@),
{
    let target = "perf_signal_handler";
    proof {
        reveal_strlit("perf_signal_handler");
    }
    assert(target@ =~= handler_name());
    let mut i: usize = 0;
    while i < frame.len()
        invariant
            target@ == handler_name(),
            0 <= i <= frame@.len(),
            forall|j: int| 0 <= j < i ==> demangled(utf8_lossy(raw_name_of(#[trigger] frame@[j]))) != handler_name(),
        decreases frame@.len() - i,
    {
        let name = frame[i].name();
        if crate::text::str_eq(name.as_str(), target) {
            return true;
        }
        i = i + 1;
    }
    false
}

impl Frames {
    /// A sample after symbol lookup: `symbols[i]` holds the symbols found
    /// for the `i`-th captured frame. The thread name bytes are read as
    /// text, invalid sequences replaced.
    pub fn from_resolved(frames: &UnresolvedFrames, symbols: Vec<Vec<Symbol>>) -> (r: Frames)
        ensures
            r.frames@ == kept_frames(symbols@),
            r.thread_name@ == utf8_lossy(frames.name()),
            r.thread_id == frames.thread_id,
            r.sample_timestamp == frames.sample_timestamp,
    {
        let mut symbols = symbols;
        let ghost all = symbols@;
        let mut out: Vec<Vec<Symbol>> = Vec::new();
        let mut i: usize = 0;
        assert(all.skip(0) =~= all);
        assert(out@ + kept_frames(all) =~= kept_frames(all));
        while i < symbols.len()
            invariant
                symbols@.len() == all.len(),
                0 <= i <= all.len(),
                forall|j: int| i <= j < all.len() ==> symbols@[j] == all[j],
                out@ + kept_frames(all.skip(i as int)) == kept_frames(all),
            decreases all.len() - i,
        {
            let ghost rest = all.skip(i as int);
            assert(rest[0] == all[i as int]);
            if is_handler(&symbols[i]) {
                if i + 1 < symbols.len() {
                    assert(rest.skip(2) =~= all.skip(i as int + 2));
                    i = i + 2;
                } else {
                    assert(all.skip(i as int + 1).len() == 0);
                    assert(kept_frames(all.skip(i as int + 1)) =~= Seq::<Vec<Symbol>>::empty());
                    i = i + 1;
                }
            } else if symbols[i].len() == 0 {
                assert(rest.skip(1) =~= all.skip(i as int + 1));
                i = i + 1;
            } else {
                let mut taken: Vec<Symbol> = Vec::new();
                core::mem::swap(&mut symbols[i], &mut taken);
                let ghost before = out@;
                out.push(taken);
                assert(rest.skip(1) =~= all.skip(i as int + 1));
                assert(out@ + kept_frames(all.skip(i as int + 1)) =~= before + kept_frames(rest));
                i = i + 1;
            }
        }
        assert(all.skip(i as int).len() == 0);
        assert(kept_frames(all.skip(i as int)) =~= Seq::<Vec<Symbol>>::empty());
        assert(out@ =~= kept_frames(all));
        let name_len = if frames.thread_name_length <= MAX_THREAD_NAME {
            frames.thread_name_length
        } else {
            MAX_THREAD_NAME
        };
        let name_slice = slice_prefix_u8(&frames.thread_name, name_len);
        let thread_name = lossy_string(name_slice);
        Frames {
            frames: out,
            thread_name,
            thread_id: frames.thread_id,
            sample_timestamp: frames.sample_timestamp,
        }
    }

    /// The thread's name, or its id in decimal when the name is empty.
    pub fn thread_name_or_id(&self) -> (r: String)
        ensures
            r@ == if self.thread_name@.len() > 0 {
                self.thread_name@
            } else {
                decimal_chars(self.thread_id)
            },
    {
        thread_name_or_id(&self.thread_name, self.thread_id)
    }
}

fn slice_prefix_u8(a: &[u8; MAX_THREAD_NAME], n: usize) -> (r: &[u8])
    requires
        n <= MAX_THREAD_NAME,
    ensures
        r@ == a@.take(n as int),
{
    let s = a.as_slice();
    let r = vstd::slice::slice_subrange(s, 0, n);
    assert(r@ =~= a@.take(n as int));
    r
}

} // verus!
