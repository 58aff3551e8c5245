//! The profiler's state machine and the decisions of its signal handler.
use vstd::prelude::*;

use crate::backtrace::{in_segments, is_in_segments, is_walk_stack, trace};
use crate::collector::{collector_after_add, empty_state, Collector, CollectorState};
use crate::error::Error;
use crate::frames::{Frame, UnresolvedFrames};
use crate::text::{contains_chars, str_contains};
use crate::{MAX_DEPTH, MAX_THREAD_NAME};

verus! {

/// The sampling frequency that a builder starts with, in samples per second.
pub const DEFAULT_FREQUENCY: i32 = 99;

/// The decimal digits of `n`, most significant first, in ASCII.
pub open spec fn decimal(n: nat) -> Seq<u8>
    decreases n,
{
    if n < 10 {
        seq![(48 + n) as u8]
    } else {
        decimal(n / 10).push((48 + n % 10) as u8)
    }
}

/// The name written for a thread whose name cannot be looked up: its id in
/// decimal, keeping the last `MAX_THREAD_NAME` digits when there are more.
pub open spec fn fallback_thread_name(id: u64) -> Seq<u8> {
    let d = decimal(id as nat);
    if d.len() <= MAX_THREAD_NAME {
        d
    } else {
        d.subrange(d.len() - MAX_THREAD_NAME, d.len() as int)
    }
}

/// `10` to the power `k`.
pub open spec fn pow10(k: nat) -> nat
    decreases k,
{
    if k == 0 {
        1
    } else {
        10 * pow10((k - 1) as nat)
    }
}

/// The decimal digits of `n`, without allocating: they stand in the returned
/// buffer from the returned position to its end.
pub fn decimal_digits(n: u64) -> (r: ([u8; 20], usize))
    ensures
        r.1 < 20,
        r.0@.subrange(r.1 as int, 20) == decimal(n as nat),
{
    let mut buf = [0u8;20];
    let mut pos: usize = 20;
    let mut m: u64 = n;
    proof {
        reveal_with_fuel(pow10, 21);
        assert(pow10(20) == 100000000000000000000nat);
        assert(pow10(0) == 1);
        assert((m as nat) * pow10(0) == m as nat);
        assert(buf@.subrange(20, 20) =~= Seq::<u8>::empty());
        assert(decimal(n as nat) =~= decimal(m as nat) + buf@.subrange(pos as int, 20));
    }
    loop
        invariant_except_break
            pos < 20 ==> m >= 1,
            (m as nat) * pow10((20 - pos) as nat) <= n as nat,
            pow10(20) > u64::MAX,
            decimal(n as nat) == decimal(m as nat) + buf@.subrange(pos as int, 20),
        invariant
            0 <= pos <= 20,
            buf@.len() == 20,
        ensures
            decimal(n as nat) == buf@.subrange(pos as int, 20),
        decreases m,
    {
        proof {
            if pos == 0 {
                assert(pow10(20) <= (m as nat) * pow10(20)) by (nonlinear_arith)
                    requires
                        m >= 1,
                ;
            }
        }
        let ghost tail = buf@.subrange(pos as int, 20);
        let digit = (48 + m % 10) as u8;
        pos = pos - 1;
        buf[pos] = digit;
        assert(buf@.subrange(pos as int, 20) =~= seq![digit] + tail);
        if m < 10 {
            assert(decimal(m as nat) == seq![digit]);
            assert(decimal(n as nat) =~= buf@.subrange(pos as int, 20));
            break;
        }
        let ghost k = (20 - pos - 1) as nat;
        proof {
            assert(decimal(m as nat) == decimal((m / 10) as nat).push(digit));
            assert(decimal(m as nat) + tail =~= decimal((m / 10) as nat) + (seq![digit] + tail));
            assert(((m / 10) as nat) * pow10(k + 1) <= (m as nat) * pow10(k)) by (nonlinear_arith)
                requires
                    pow10(k + 1) == 10 * pow10(k),
            ;
        }
        m = m / 10;
    }
    proof {
        assert(decimal(n as nat).len() >= 1) by {
            reveal_with_fuel(decimal, 2);
        }
    }
    (buf, pos)
}

/// Writes the thread id in decimal into `name` without allocating, and
/// returns the number of bytes written; the bytes after them are left as
/// they were.
pub fn write_thread_name_fallback(thread_id: u64, name: &mut [u8; MAX_THREAD_NAME]) -> (len: usize)
    ensures
        len <= MAX_THREAD_NAME,
        final(name)@.take(len as int) == fallback_thread_name(thread_id),
        forall|i: int| len <= i < MAX_THREAD_NAME ==> final(name)@[i] == old(name)@[i],
{
    let (buf, pos) = decimal_digits(thread_id);
    let d_len: usize = 20 - pos;
    let start: usize = if d_len <= MAX_THREAD_NAME { pos } else { 20 - MAX_THREAD_NAME };
    let len: usize = 20 - start;
    let ghost want = fallback_thread_name(thread_id);
    assert(want =~= buf@.subrange(start as int, 20));
    let mut i: usize = 0;
    while i < len
        invariant
            len <= MAX_THREAD_NAME,
            start + len == 20,
            buf@.len() == 20,
            want == buf@.subrange(start as int, 20),
            0 <= i <= len,
            name@.len() == MAX_THREAD_NAME,
            name@.take(i as int) == want.take(i as int),
            forall|x: int| i <= x < MAX_THREAD_NAME ==> name@[x] == old(name)@[x],
        decreases len - i,
    {
        name[i] = buf[start + i];
        assert(name@.take(i as int + 1) =~= want.take(i as int + 1));
        i = i + 1;
    }
    assert(want.take(len as int) =~= want);
    len
}

/// One loaded shared object: its name, if it has a readable one, and the
/// `(address, length)` of each of its segments in memory.
pub struct SharedLibrary {
    pub name: Option<String>,
    pub segments: Vec<(usize, usize)>,
}

/// Whether some blocked name occurs in the library name.
pub open spec fn name_is_blocked(name: Seq<char>, blocked: Seq<String>) -> bool {
    exists|b: int| 0 <= b < blocked.len() && contains_chars(name, #[trigger] blocked[b]@)
}

/// The address range `(start, end)` of a segment; `end` is `usize::MAX` when
/// `start + length` does not fit.
pub open spec fn segment_range(seg: (usize, usize)) -> (usize, usize) {
    if seg.0 + seg.1 <= usize::MAX {
        (seg.0, (seg.0 + seg.1) as usize)
    } else {
        (seg.0, usize::MAX)
    }
}

/// The address ranges of the libraries whose names contain a blocked name,
/// library by library, segment by segment.
pub open spec fn blocked_ranges(libs: Seq<SharedLibrary>, blocked: Seq<String>) -> Seq<(usize, usize)>
    decreases libs.len(),
{
    if libs.len() == 0 {
        Seq::empty()
    } else {
        let lib = libs.last();
        blocked_ranges(libs.drop_last(), blocked) + match lib.name {
            Some(n) if name_is_blocked(n@, blocked) => lib.segments@.map_values(|s: (usize, usize)| segment_range(s)),
            _ => Seq::empty(),
        }
    }
}

fn is_blocked_name(name: &String, blocked: &Vec<String>) -> (r: bool)
    ensures
        r == name_is_blocked(name@, blocked@),
{
    let mut b: usize = 0;
    while b < blocked.len()
        invariant
            0 <= b <= blocked@.len(),
            forall|c: int| 0 <= c < b ==> !contains_chars(name@, #[trigger] blocked@[c]@),
        decreases blocked@.len() - b,
    {
        if str_contains(name.as_str(), blocked[b].as_str()) {
            return true;
        }
        b = b + 1;
    }
    false
}

/// The address ranges of every library whose name contains one of the
/// `blocked` names.
pub fn resolve_blocklist(libraries: &Vec<SharedLibrary>, blocked: &Vec<String>) -> (r: Vec<(usize, usize)>)
    ensures
        r@ == blocked_ranges(libraries@, blocked@),
{
    let mut r: Vec<(usize, usize)> = Vec::new();
    let mut i: usize = 0;
    while i < libraries.len()
        invariant
            0 <= i <= libraries@.len(),
            r@ == blocked_ranges(libraries@.take(i as int), blocked@),
        decreases libraries@.len() - i,
    {
        let lib = &libraries[i];
        assert(libraries@.take(i as int + 1).drop_last() =~= libraries@.take(i as int));
        let ghost before = r@;
        let blocked_lib = match &lib.name {
            Some(n) => is_blocked_name(n, blocked),
            None => false,
        };
        if blocked_lib {
            let ghost segs = lib.segments@.map_values(|s: (usize, usize)| segment_range(s));
            let mut j: usize = 0;
            while j < lib.segments.len()
                invariant
                    0 <= j <= lib.segments@.len(),
                    segs == lib.segments@.map_values(|s: (usize, usize)| segment_range(s)),
                    r@ == before + segs.take(j as int),
                decreases lib.segments@.len() - j,
            {
                let (start, length) = lib.segments[j];
                let end = match start.checked_add(length) {
                    Some(e) => e,
                    None => usize::MAX,
                };
                r.push((start, end));
                assert(r@ =~= before + segs.take(j as int + 1));
                j = j + 1;
            }
            assert(segs.take(j as int) =~= segs);
        } else {
            assert(r@ =~= before + Seq::<(usize, usize)>::empty());
        }
        i = i + 1;
    }
    assert(libraries@.take(i as int) =~= libraries@);
    r
}

/// The interval timer's period for `frequency` samples per second, as
/// `(seconds, microseconds)`.
pub fn timer_interval(frequency: i32) -> (r: (i64, i64))
    requires
        frequency > 0,
    ensures
        r.0 == (1_000_000int / frequency as int) / 1_000_000int,
        r.1 == (1_000_000int / frequency as int) % 1_000_000int,
{
    let interval: i64 = 1_000_000i64 / (frequency as i64);
    (interval / 1_000_000, interval % 1_000_000)
}

/// A start from state `running`, where `registered` is what arming the
/// signal handler returned: the state after it and the result.
pub open spec fn after_start(running: bool, registered: Result<(), Error>) -> (bool, Result<(), Error>) {
    if running {
        (true, Err(Error::Running))
    } else {
        (registered is Ok, registered)
    }
}

/// A stop from state `running`, where `unregistered` is what disarming the
/// signal handler returned: the state after it and the result.
pub open spec fn after_stop(running: bool, unregistered: Result<(), Error>) -> (bool, Result<(), Error>) {
    if running {
        (unregistered is Err, unregistered)
    } else {
        (false, Err(Error::NotRunning))
    }
}

/// A profiler that a successful start has put into the running state fails
/// a second start with `Running`; an idle profiler fails a stop with
/// `NotRunning`.
pub proof fn lemma_start_stop_errors(
    registered: Result<(), Error>,
    again: Result<(), Error>,
    unregistered: Result<(), Error>,
)
    ensures
        registered is Ok ==> after_start(after_start(false, registered).0, again) == (
            true,
            Err::<(), Error>(Error::Running),
        ),
        after_stop(false, unregistered) == (false, Err::<(), Error>(Error::NotRunning)),
{
}

/// The registers of an interrupted thread that the handler reads.
#[derive(Debug, Clone, Copy, PartialEq, Eq, Structural)]
pub struct Registers {
    /// The interrupted program counter.
    pub pc: usize,
    /// The interrupted frame pointer.
    pub fp: usize,
}

/// The process-wide profiler: the aggregation table of samples, whether it
/// is running, and the address ranges whose samples are dropped.
pub struct Profiler {
    data: Collector<UnresolvedFrames>,
    sample_counter: u64,
    running: bool,
    blocklist_segments: Vec<(usize, usize)>,
}

impl Profiler {
    /// The contents of the aggregation table.
    pub closed spec fn samples(&self) -> CollectorState<UnresolvedFrames> {
        self.data@
    }

    /// Whether the profiler is running.
    pub closed spec fn running(&self) -> bool {
        self.running
    }

    /// How many samples were taken since the profiler was created or last
    /// stopped (wrapping around).
    pub closed spec fn sample_count(&self) -> u64 {
        self.sample_counter
    }

    /// The address ranges whose samples are dropped.
    pub closed spec fn blocklist(&self) -> Seq<(usize, usize)> {
        self.blocklist_segments@
    }

    /// The profiler's invariant.
    pub closed spec fn wf(&self) -> bool {
        self.data.wf()
    }

    /// An idle profiler with an empty table and no blocklist.
    pub fn new() -> (r: Result<Profiler, Error>)
        ensures
            r matches Ok(p) && {
                &&& p.wf()
                &&& !p.running()
                &&& p.samples() == empty_state::<UnresolvedFrames>()
                &&& p.sample_count() == 0
                &&& p.blocklist().len() == 0
            },
    {
        let data = match Collector::new() {
            Ok(c) => c,
            Err(e) => return Err(e),
        };
        Ok(Profiler { data, sample_counter: 0, running: false, blocklist_segments: Vec::new() })
    }

    /// Whether the profiler is running.
    pub fn is_running(&self) -> (r: bool)
        ensures
            r == self.running(),
    {
        self.running
    }

    /// The aggregation table.
    pub fn data(&self) -> (r: &Collector<UnresolvedFrames>)
        requires
            self.wf(),
        ensures
            r.wf(),
            r@ == self.samples(),
    {
        &self.data
    }

    /// Number of samples taken since creation or the last stop, wrapping.
    pub fn sample_counter(&self) -> (r: u64)
        ensures
            r == self.sample_count(),
    {
        self.sample_counter
    }

    /// Replaces the blocklist and returns the one it replaced.
    pub fn set_blocklist(&mut self, segments: Vec<(usize, usize)>) -> (previous: Vec<(usize, usize)>)
        ensures
            previous@ == old(self).blocklist(),
            final(self).blocklist() == segments@,
            final(self).samples() == old(self).samples(),
            final(self).running() == old(self).running(),
            final(self).sample_count() == old(self).sample_count(),
            final(self).wf() == old(self).wf(),
    {
        let mut segments = segments;
        core::mem::swap(&mut self.blocklist_segments, &mut segments);
        segments
    }

    /// Starts the profiler: fails with `Running` when it already runs;
    /// otherwise calls `register` (which arms the signal handler) and runs
    /// once that succeeded. A failed start leaves the profiler idle.
    pub fn start<F: FnOnce() -> Result<(), Error>>(&mut self, register: F) -> (r: Result<(), Error>)
        requires
            register.requires(()),
        ensures
            final(self).samples() == old(self).samples(),
            final(self).sample_count() == old(self).sample_count(),
            final(self).blocklist() == old(self).blocklist(),
            final(self).wf() == old(self).wf(),
            !old(self).running() ==> register.ensures((), r),
            (final(self).running(), r) == after_start(old(self).running(), r),
    {
        if self.running {
            Err(Error::Running)
        } else {
            let r = register();
            if r.is_ok() {
                self.running = true;
            }
            r
        }
    }

    /// Stops the profiler: fails with `NotRunning` when it is idle;
    /// otherwise calls `unregister` (which disarms the signal handler) and,
    /// once that succeeded, empties the table, resets the sample counter and
    /// becomes idle. A failed `unregister` leaves the profiler running.
    pub fn stop<F: FnOnce() -> Result<(), Error>>(&mut self, unregister: F) -> (r: Result<(), Error>)
        requires
            old(self).wf(),
            unregister.requires(()),
        ensures
            final(self).wf(),
            final(self).blocklist() == old(self).blocklist(),
            old(self).running() ==> unregister.ensures((), r),
            (final(self).running(), r) == after_stop(old(self).running(), r),
            !old(self).running() ==> final(self).samples() == old(self).samples()
                && final(self).sample_count() == old(self).sample_count(),
            old(self).running() && r is Ok ==> !final(self).running() && final(self).samples()
                == empty_state::<UnresolvedFrames>() && final(self).sample_count() == 0,
            old(self).running() && r is Err ==> final(self).running() && final(self).samples()
                == old(self).samples() && final(self).sample_count() == old(self).sample_count(),
    {
        if self.running {
            let r = unregister();
            if r.is_ok() {
                let data = match Collector::new() {
                    Ok(c) => c,
                    Err(e) => return Err(e),
                };
                self.sample_counter = 0;
                self.data = data;
                self.running = false;
            }
            r
        } else {
            Err(Error::NotRunning)
        }
    }

    /// Whether `addr` lies strictly inside a blocklisted range.
    pub fn is_blocklisted(&self, addr: usize) -> (r: bool)
        ensures
            r == in_segments(self.blocklist(), addr),
    {
        is_in_segments(&self.blocklist_segments, addr)
    }

    /// Whether an unwinder that has recorded `depth` frames goes on to record
    /// a frame at `ip`: only below `MAX_DEPTH` frames, and never a
    /// blocklisted one (the walk stops there).
    pub fn keep_frame(&self, depth: usize, ip: usize) -> (r: bool)
        ensures
            r == (depth < MAX_DEPTH && !in_segments(self.blocklist(), ip)),
    {
        depth < MAX_DEPTH && !self.is_blocklisted(ip)
    }

    /// Records one sample: the frames, the thread's name and id, and the
    /// time, counted once.
    pub fn sample(&mut self, frames: &[Frame], thread_name: &[u8], thread_id: u64, sample_timestamp: u64)
        requires
            old(self).wf(),
            frames@.len() <= MAX_DEPTH,
            thread_name@.len() <= MAX_THREAD_NAME,
        ensures
            final(self).wf(),
            exists|u: UnresolvedFrames|
                {
                    &&& u.wf()
                    &&& u.stack() == frames@
                    &&& u.name() == thread_name@
                    &&& u.thread_id == thread_id
                    &&& u.sample_timestamp == sample_timestamp
                    &&& final(self).samples() == #[trigger] collector_after_add(old(self).samples(), u, 1)
                },
            final(self).sample_count() == old(self).sample_count().wrapping_add(1),
            final(self).running() == old(self).running(),
            final(self).blocklist() == old(self).blocklist(),
    {
        let frames = UnresolvedFrames::new(frames, thread_name, thread_id, sample_timestamp);
        let ghost u = frames;
        let ghost before = self.data@;
        self.sample_counter = self.sample_counter.wrapping_add(1);
        let _ = self.data.add(frames, 1);
        assert(self.samples() == collector_after_add(old(self).samples(), u, 1));
    }

    /// What the signal handler does once it holds the profiler: drop the
    /// sample when the interrupted program counter is blocklisted; otherwise
    /// walk the stack from the interrupted frame pointer with `trace`, through
    /// the given memory calls and the profiler's blocklist (no frames without
    /// registers), and record the walk's frames once. Returns whether a
    /// sample was taken.
    pub fn on_signal<V: Fn(usize) -> bool, R: Fn(usize) -> (usize, usize), S: Fn(usize) -> usize>(
        &mut self,
        registers: Option<Registers>,
        validate: V,
        read_frame: R,
        symbol_address: S,
        thread_name: &[u8],
        thread_id: u64,
        sample_timestamp: u64,
    ) -> (r: bool)
        requires
            old(self).wf(),
            thread_name@.len() <= MAX_THREAD_NAME,
            forall|a: usize| validate.requires((a,)),
            forall|a: usize| read_frame.requires((a,)),
            forall|a: usize| symbol_address.requires((a,)),
        ensures
            final(self).wf(),
            final(self).running() == old(self).running(),
            final(self).blocklist() == old(self).blocklist(),
            r == !(registers matches Some(regs) && in_segments(old(self).blocklist(), regs.pc)),
            !r ==> final(self).samples() == old(self).samples() && final(self).sample_count()
                == old(self).sample_count(),
            r ==> final(self).sample_count() == old(self).sample_count().wrapping_add(1),
            r ==> exists|u: UnresolvedFrames|
                {
                    &&& u.wf()
                    &&& u.thread_id == thread_id
                    &&& u.name() == thread_name@
                    &&& u.sample_timestamp == sample_timestamp
                    &&& registers is None ==> u.stack().len() == 0
                    &&& registers matches Some(regs) ==> is_walk_stack(
                        validate,
                        read_frame,
                        symbol_address,
                        regs.fp,
                        old(self).blocklist(),
                        MAX_DEPTH,
                        u.stack(),
                    )
                    &&& final(self).samples() == #[trigger] collector_after_add(old(self).samples(), u, 1)
                },
    {
        match registers {
            Some(regs) => {
                if self.is_blocklisted(regs.pc) {
                    return false;
                }
                let bt = trace(validate, read_frame, symbol_address, regs.fp, &self.blocklist_segments, MAX_DEPTH);
                assert(is_walk_stack(
                    validate,
                    read_frame,
                    symbol_address,
                    regs.fp,
                    self.blocklist(),
                    MAX_DEPTH,
                    bt.stack(),
                ));
                let frames = bt.frames();
                self.sample(frames, thread_name, thread_id, sample_timestamp);
                true
            },
            None => {
                let empty: [Frame; 0] = [];
                let frames = empty.as_slice();
                assert(frames@.len() == 0);
                self.sample(frames, thread_name, thread_id, sample_timestamp);
                true
            },
        }
    }
}

/// The configuration of a profiler run: the sampling frequency and the
/// address ranges whose samples are dropped.
#[derive(Clone)]
pub struct ProfilerGuardBuilder {
    frequency: i32,
    blocklist_segments: Vec<(usize, usize)>,
}

impl Default for ProfilerGuardBuilder {
    /// Frequency `DEFAULT_FREQUENCY`, no blocklist.
    fn default() -> (r: Self)
        ensures
            r.frequency_value() == DEFAULT_FREQUENCY,
            r.blocklist_value().len() == 0,
    {
        ProfilerGuardBuilder { frequency: DEFAULT_FREQUENCY, blocklist_segments: Vec::new() }
    }
}

impl ProfilerGuardBuilder {
    /// The configured frequency.
    pub closed spec fn frequency_value(&self) -> i32 {
        self.frequency
    }

    /// The configured blocklist ranges.
    pub closed spec fn blocklist_value(&self) -> Seq<(usize, usize)> {
        self.blocklist_segments@
    }

    /// The same configuration with another frequency.
    pub fn frequency(self, frequency: i32) -> (r: Self)
        ensures
            r.frequency_value() == frequency,
            r.blocklist_value() == self.blocklist_value(),
    {
        ProfilerGuardBuilder { frequency, ..self }
    }

    /// The same configuration with a blocklist: the address ranges of the
    /// loaded libraries whose names contain one of the `blocklist` names.
    pub fn blocklist(self, libraries: &Vec<SharedLibrary>, blocklist: &Vec<String>) -> (r: Self)
        ensures
            r.frequency_value() == self.frequency_value(),
            r.blocklist_value() == blocked_ranges(libraries@, blocklist@),
    {
        let blocklist_segments = resolve_blocklist(libraries, blocklist);
        ProfilerGuardBuilder { blocklist_segments, ..self }
    }

    /// The configured frequency.
    pub fn get_frequency(&self) -> (r: i32)
        ensures
            r == self.frequency_value(),
    {
        self.frequency
    }

    /// Starts `profiler` with this configuration: fails with `Running`, and
    /// changes nothing, when it already runs; otherwise hands it the blocklist
    /// and calls `register`. On success returns the frequency at which the
    /// timer is to be armed; when `register` fails, the profiler keeps its
    /// previous blocklist and stays idle.
    pub fn start_on<F: FnOnce() -> Result<(), Error>>(self, profiler: &mut Profiler, register: F) -> (r: Result<i32, Error>)
        requires
            register.requires(()),
        ensures
            final(profiler).samples() == old(profiler).samples(),
            final(profiler).sample_count() == old(profiler).sample_count(),
            final(profiler).wf() == old(profiler).wf(),
            final(profiler).running() == (old(profiler).running() || r is Ok),
            old(profiler).running() ==> r == Err::<i32, Error>(Error::Running),
            r is Ok ==> final(profiler).blocklist() == self.blocklist_value(),
            r is Err ==> final(profiler).blocklist() == old(profiler).blocklist(),
            !old(profiler).running() ==> match r {
                Ok(f) => f == self.frequency_value() && register.ensures((), Ok(())),
                Err(e) => register.ensures((), Err(e)),
            },
    {
        if profiler.is_running() {
            return Err(Error::Running);
        }
        let frequency = self.frequency;
        let previous = profiler.set_blocklist(self.blocklist_segments);
        let r = profiler.start(register);
        match r {
            Ok(u) => {
                assert(u == ());
                assert(r == Ok::<(), Error>(()));
                Ok(frequency)
            },
            Err(e) => {
                let _ = profiler.set_blocklist(previous);
                Err(e)
            },
        }
    }
}

} // verus!
