use std::collections::BTreeMap;

use std::cell::Cell;

use pprof::backtrace::{trace, Backtrace};
use pprof::frames::Frame;
use pprof::profiler::{
    resolve_blocklist, timer_interval, write_thread_name_fallback, Profiler,
    ProfilerGuardBuilder, Registers, SharedLibrary,
};
use pprof::report::{ReportTiming, UnresolvedReport};
use pprof::text::str_contains;
use pprof::{Error, MAX_DEPTH};

/// A fake stack: frame pointer -> (saved frame pointer, return address).
struct FakeStack {
    frames: BTreeMap<usize, (usize, usize)>,
    reads: Cell<usize>,
}

impl FakeStack {
    fn validate(&self, addr: usize) -> bool {
        self.frames.contains_key(&addr)
    }

    fn read_frame(&self, addr: usize) -> (usize, usize) {
        self.reads.set(self.reads.get() + 1);
        self.frames[&addr]
    }

    fn symbol_address(&self, ip: usize) -> usize {
        ip & !0xf
    }
}

fn fake(frames: &[(usize, usize, usize)]) -> FakeStack {
    FakeStack {
        frames: frames.iter().map(|&(fp, next, ret)| (fp, (next, ret))).collect(),
        reads: Cell::new(0),
    }
}

fn walk(mem: &FakeStack, fp: usize, blocklist: &Vec<(usize, usize)>, depth: usize) -> Backtrace {
    trace(
        |a| mem.validate(a),
        |a| mem.read_frame(a),
        |ip| mem.symbol_address(ip),
        fp,
        blocklist,
        depth,
    )
}

#[test]
fn start_twice_fails_with_running() {
    let mut p = Profiler::new().unwrap();
    assert!(p.start(|| Ok(())).is_ok());
    assert!(p.is_running());
    assert_eq!(p.start(|| Ok(())), Err(Error::Running));
    assert!(p.is_running());
}

#[test]
fn stop_without_start_fails_with_not_running() {
    let mut p = Profiler::new().unwrap();
    assert_eq!(p.stop(|| Ok(())), Err(Error::NotRunning));
    assert!(!p.is_running());
}

#[test]
fn failed_registration_leaves_profiler_idle() {
    let mut p = Profiler::new().unwrap();
    assert_eq!(p.start(|| Err(Error::OsError(22))), Err(Error::OsError(22)));
    assert!(!p.is_running());
    assert!(p.start(|| Ok(())).is_ok());
    assert!(p.stop(|| Ok(())).is_ok());
    assert!(!p.is_running());
}

#[test]
fn stop_discards_samples() {
    let mut p = Profiler::new().unwrap();
    p.start(|| Ok(())).unwrap();
    p.sample(&[Frame { ip: 1, symbol_address: 0 }], b"t", 3, 10);
    p.sample(&[Frame { ip: 1, symbol_address: 0 }], b"t", 3, 11);
    assert_eq!(p.sample_counter(), 2);
    let report = UnresolvedReport::build(&p, ReportTiming::default()).unwrap();
    assert_eq!(report.data.len(), 1);
    assert_eq!(report.data[0].count, 2);
    assert_eq!(report.data[0].item.thread_id, 3);
    p.stop(|| Ok(())).unwrap();
    assert_eq!(p.sample_counter(), 0);
    let report = UnresolvedReport::build(&p, ReportTiming::default()).unwrap();
    assert!(report.data.is_empty());
}

#[test]
fn report_twice_is_identical() {
    let mut p = Profiler::new().unwrap();
    for i in 0..50usize {
        p.sample(&[Frame { ip: i % 5, symbol_address: i % 5 }], b"", 1, 0);
    }
    let timing = ReportTiming { frequency: 99, start_time: 5, duration: 7 };
    let a = UnresolvedReport::build(&p, timing).unwrap();
    let b = UnresolvedReport::build(&p, timing).unwrap();
    let summary = |r: &UnresolvedReport| {
        r.data
            .iter()
            .map(|e| (e.item.frames[0].symbol_address, e.count))
            .collect::<BTreeMap<usize, isize>>()
    };
    assert_eq!(summary(&a), summary(&b));
    assert_eq!(summary(&a).len(), 5);
    assert!(a.data.iter().all(|e| e.count == 10));
    assert_eq!(a.timing, timing);
}

#[test]
fn cyclic_frame_chain_terminates() {
    // The frame at 0x1000 points back at itself.
    let mem = fake(&[(0x1000, 0x1000, 0x4444)]);
    let bt = walk(&mem, 0x1000, &Vec::new(), MAX_DEPTH);
    assert_eq!(bt.depth, 1);
    assert_eq!(bt.frames().len(), 1);
    assert_eq!(bt.frames()[0].ip, 0x4444);
    assert_eq!(mem.reads.get(), 1);
}

#[test]
fn descending_frame_chain_stops() {
    let mem = fake(&[(0x2000, 0x3000, 0x10), (0x3000, 0x1000, 0x20), (0x1000, 0x5000, 0x30)]);
    let bt = walk(&mem, 0x2000, &Vec::new(), MAX_DEPTH);
    let ips: Vec<usize> = bt.frames().iter().map(|f| f.ip).collect();
    assert_eq!(ips, vec![0x10, 0x20]);
}

#[test]
fn walk_stops_at_invalid_pointer_depth_and_blocklist() {
    let mem = fake(&[(0x10, 0x20, 0x111), (0x20, 0x30, 0x222), (0x30, 0x40, 0x333)]);
    let bt = walk(&mem, 0x10, &Vec::new(), MAX_DEPTH);
    let ips: Vec<usize> = bt.frames().iter().map(|f| f.ip).collect();
    assert_eq!(ips, vec![0x111, 0x222, 0x333]);
    assert_eq!(bt.frames()[1].symbol_address, 0x220);

    let mem = fake(&[(0x10, 0x20, 0x111), (0x20, 0x30, 0x222), (0x30, 0x40, 0x333)]);
    let bt = walk(&mem, 0x10, &Vec::new(), 2);
    assert_eq!(bt.depth, 2);

    let mem = fake(&[(0x10, 0x20, 0x111), (0x20, 0x30, 0x222), (0x30, 0x40, 0x333)]);
    let bt = walk(&mem, 0x10, &vec![(0x200, 0x300)], MAX_DEPTH);
    let ips: Vec<usize> = bt.frames().iter().map(|f| f.ip).collect();
    assert_eq!(ips, vec![0x111]);

    let mem = fake(&[]);
    let bt = walk(&mem, 0, &Vec::new(), MAX_DEPTH);
    assert_eq!(bt.depth, 0);
}

#[test]
fn signal_drops_blocklisted_pc() {
    let mut p = Profiler::new().unwrap();
    p.set_blocklist(vec![(0x300, 0x400)]);
    assert!(p.is_blocklisted(0x350));
    assert!(!p.is_blocklisted(0x300));
    assert!(!p.is_blocklisted(0x400));
    let mem = fake(&[(0x10, 0x20, 0x111)]);
    let taken = p.on_signal(Some(Registers { pc: 0x350, fp: 0x10 }), |a| mem.validate(a), |a| mem.read_frame(a), |ip| mem.symbol_address(ip), b"x", 1, 0);
    assert!(!taken);
    assert_eq!(p.sample_counter(), 0);
    let taken = p.on_signal(Some(Registers { pc: 0x50, fp: 0x10 }), |a| mem.validate(a), |a| mem.read_frame(a), |ip| mem.symbol_address(ip), b"x", 1, 0);
    assert!(taken);
    let taken = p.on_signal(None, |a| mem.validate(a), |a| mem.read_frame(a), |ip| mem.symbol_address(ip), b"x", 1, 0);
    assert!(taken);
    assert_eq!(p.sample_counter(), 2);
    let report = UnresolvedReport::build(&p, ReportTiming::default()).unwrap();
    let mut depths: Vec<usize> = report.data.iter().map(|e| e.item.depth).collect();
    depths.sort();
    assert_eq!(depths, vec![0, 1]);
}

#[test]
fn thread_name_fallback_digits() {
    let mut name = [0u8; 16];
    let n = write_thread_name_fallback(1234, &mut name);
    assert_eq!(&name[..n], b"1234");
    let mut name = [0u8; 16];
    let n = write_thread_name_fallback(0, &mut name);
    assert_eq!(&name[..n], b"0");
    let mut name = [0u8; 16];
    let n = write_thread_name_fallback(1000, &mut name);
    assert_eq!(&name[..n], b"1000");
    let mut name = [0u8; 16];
    let n = write_thread_name_fallback(u64::MAX, &mut name);
    assert_eq!(&name[..n], b"6744073709551615");
}

#[test]
fn blocklist_matches_library_names() {
    let libs = vec![
        SharedLibrary { name: Some("/usr/lib/libc.so.6".to_string()), segments: vec![(0x1000, 0x100), (0x3000, 0x10)] },
        SharedLibrary { name: Some("/usr/lib/libm.so".to_string()), segments: vec![(0x5000, 0x100)] },
        SharedLibrary { name: None, segments: vec![(0x7000, 0x100)] },
        SharedLibrary { name: Some("linux-vdso.so.1".to_string()), segments: vec![(usize::MAX - 1, 5)] },
    ];
    let blocked = vec!["libc".to_string(), "vdso".to_string()];
    let ranges = resolve_blocklist(&libs, &blocked);
    assert_eq!(ranges, vec![(0x1000, 0x1100), (0x3000, 0x3010), (usize::MAX - 1, usize::MAX)]);
    let builder = ProfilerGuardBuilder::default().frequency(1000).blocklist(&libs, &blocked);
    assert_eq!(builder.get_frequency(), 1000);
    assert!(str_contains("abcdef", "cde"));
    assert!(str_contains("abc", ""));
    assert!(!str_contains("abc", "abcd"));
    assert!(!str_contains("abcabd", "abe"));
}

#[test]
fn builder_starts_profiler_with_blocklist() {
    let mut p = Profiler::new().unwrap();
    let libs = vec![SharedLibrary { name: Some("libgcc_s.so".to_string()), segments: vec![(0x10, 0x10)] }];
    let b = ProfilerGuardBuilder::default().blocklist(&libs, &vec!["libgcc".to_string()]);
    assert_eq!(b.clone().start_on(&mut p, || Ok(())), Ok(99));
    assert!(p.is_blocklisted(0x15));
    assert_eq!(b.start_on(&mut p, || Ok(())), Err(Error::Running));
}

#[test]
fn timer_interval_for_frequencies() {
    assert_eq!(timer_interval(99), (0, 10101));
    assert_eq!(timer_interval(100), (0, 10000));
    assert_eq!(timer_interval(1), (1, 0));
}

#[test]
fn invalid_first_frame_pointer_gives_no_frames() {
    let mem = fake(&[(0x10, 0x20, 0x111)]);
    let bt = walk(&mem, 0x18, &Vec::new(), MAX_DEPTH);
    assert_eq!(bt.depth, 0);
    assert_eq!(mem.reads.get(), 0);
}

#[test]
fn walk_records_saved_pointers() {
    let mem = fake(&[(0x10, 0x20, 0x111), (0x20, 0x30, 0x222)]);
    let bt = walk(&mem, 0x10, &Vec::new(), MAX_DEPTH);
    assert_eq!(bt.depth, 2);
    assert_eq!(&bt.frame_pointers[..2], &[0x10, 0x20]);
    assert_eq!(&bt.saved_pointers[..2], &[0x20, 0x30]);
}

#[test]
fn failed_start_keeps_previous_blocklist() {
    let mut p = Profiler::new().unwrap();
    p.set_blocklist(vec![(0x100, 0x200)]);
    let libs = vec![SharedLibrary { name: Some("libfoo.so".to_string()), segments: vec![(0x1000, 0x10)] }];
    let b = ProfilerGuardBuilder::default().blocklist(&libs, &vec!["foo".to_string()]);
    assert_eq!(b.clone().start_on(&mut p, || Err(Error::OsError(1))), Err(Error::OsError(1)));
    assert!(p.is_blocklisted(0x150));
    assert!(!p.is_blocklisted(0x1005));
    assert!(!p.is_running());
    p.start(|| Ok(())).unwrap();
    assert_eq!(b.start_on(&mut p, || Ok(())), Err(Error::Running));
    assert!(p.is_blocklisted(0x150));
    assert!(!p.is_blocklisted(0x1005));
}

#[test]
fn thread_name_fallback_keeps_rest() {
    let mut name = [0u8; 16];
    let n = write_thread_name_fallback(12345, &mut name);
    assert_eq!(n, 5);
    assert_eq!(&name[..5], b"12345");
    assert!(name[5..].iter().all(|&b| b == 0));
}
