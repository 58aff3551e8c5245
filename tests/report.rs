use pprof::frames::{Frame, Frames, Symbol, UnresolvedFrames};
use pprof::collector::Entry;
use pprof::flamegraph::signed_decimal_string;
use pprof::frames::decimal_string;
use pprof::report::{frames_same, merge_frames, Report, ReportTiming, UnresolvedReport};

fn sym(name: &str, line: Option<u32>, file: Option<&str>) -> Symbol {
    Symbol {
        name: Some(name.as_bytes().to_vec()),
        addr: None,
        lineno: line,
        filename: file.map(|f| f.to_string()),
    }
}

fn frames(names: &[&[&str]], thread: &str, id: u64) -> Frames {
    Frames {
        frames: names
            .iter()
            .map(|f| f.iter().map(|n| sym(n, Some(3), Some("lib.rs"))).collect())
            .collect(),
        thread_name: thread.to_string(),
        thread_id: id,
        sample_timestamp: 0,
    }
}

fn sample_report() -> Report {
    Report {
        data: vec![
            (frames(&[&["inner"], &["main"]], "worker", 1), 7),
            (frames(&[&["other", "inlined"], &["main"]], "", 42), 3),
        ],
        timing: ReportTiming { frequency: 100, start_time: 1_000, duration: 2_000 },
    }
}

#[test]
fn pprof_tables_are_consistent() {
    let report = sample_report();
    let p = report.pprof().unwrap();
    assert_eq!(p.string_table[0], "");
    let mut seen = std::collections::HashSet::new();
    for s in p.string_table.iter() {
        assert!(seen.insert(s.clone()));
    }
    assert_eq!(p.sample.len(), 2);
    assert_eq!(p.sample[0].value, vec![7, 70_000_000]);
    assert_eq!(p.sample[1].value, vec![3, 30_000_000]);
    assert_eq!(p.period, 10_000_000);
    assert_eq!(p.time_nanos, 1_000);
    assert_eq!(p.duration_nanos, 2_000);
    // "main" is one function shared by both stacks
    assert_eq!(p.function.len(), 4);
    assert_eq!(p.location.len(), 4);
    let name_of = |fid: u64| p.string_table[p.function[(fid - 1) as usize].name as usize].clone();
    let loc = &p.location[(p.sample[1].location_id[0] - 1) as usize];
    let names: Vec<String> = loc.line.iter().map(|l| name_of(l.function_id)).collect();
    assert_eq!(names, vec!["other", "inlined"]);
    let label = &p.sample[1].label[0];
    assert_eq!(p.string_table[label.key as usize], "thread");
    assert_eq!(p.string_table[label.str as usize], "42");
    assert_eq!(p.string_table[p.sample_type[1].ty as usize], "cpu");
    assert_eq!(p.string_table[p.sample_type[1].unit as usize], "nanoseconds");
}

#[test]
fn pprof_round_trip_keeps_symbols_counts_and_frequency() {
    let report = sample_report();
    let p = report.pprof().unwrap();
    let back = Report::from_pprof(&p).unwrap();
    assert_eq!(back.timing.frequency, 100);
    assert_eq!(back.timing.start_time, 1_000);
    assert_eq!(back.timing.duration, 2_000);
    let total: isize = back.data.iter().map(|(_, c)| *c).sum();
    assert_eq!(total, 10);
    let mut names: Vec<String> = back
        .data
        .iter()
        .flat_map(|(f, _)| f.frames.iter())
        .flat_map(|fr| fr.iter())
        .map(|s| s.name())
        .collect();
    names.sort();
    names.dedup();
    assert_eq!(names, vec!["inlined", "inner", "main", "other"]);
    let worker = back.data.iter().find(|(f, _)| f.thread_name == "worker").unwrap();
    assert_eq!(worker.1, 7);
    assert_eq!(worker.0.frames[0][0].lineno, Some(3));
    assert_eq!(worker.0.frames[0][0].filename.as_deref(), Some("lib.rs"));
}

#[test]
fn from_pprof_defaults() {
    let p = pprof::protos::Profile::default();
    let r = Report::from_pprof(&p).unwrap();
    assert!(r.data.is_empty());
    assert_eq!(r.timing.frequency, 1);
    assert_eq!(r.timing.start_time, 0);
}

#[test]
fn merge_frames_sums_equal_stacks() {
    let a = frames(&[&["f"]], "t", 1);
    let b = frames(&[&["f"]], "t", 1);
    let c = frames(&[&["g"]], "t", 1);
    assert!(frames_same(&a, &b));
    assert!(!frames_same(&a, &c));
    let merged = merge_frames(vec![(a, 2), (c, 5), (b, 4)]);
    assert_eq!(merged.len(), 2);
    assert_eq!(merged[0].1, 6);
    assert_eq!(merged[1].1, 5);
}

#[test]
fn resolution_skips_handler_frames() {
    let u = UnresolvedFrames::new(
        &[
            Frame { ip: 1, symbol_address: 1 },
            Frame { ip: 2, symbol_address: 2 },
            Frame { ip: 3, symbol_address: 3 },
            Frame { ip: 4, symbol_address: 4 },
        ],
        b"main",
        9,
        5,
    );
    let symbols = vec![
        vec![sym("perf_signal_handler", None, None)],
        vec![sym("sigreturn", None, None)],
        vec![],
        vec![sym("work", None, None)],
    ];
    let f = Frames::from_resolved(&u, symbols);
    assert_eq!(f.frames.len(), 1);
    assert_eq!(f.frames[0][0].name(), "work");
    assert_eq!(f.thread_name, "main");
    assert_eq!(f.thread_id, 9);
    assert_eq!(f.sample_timestamp, 5);

    let report = UnresolvedReport {
        data: vec![Entry { item: u, count: 3 }, Entry { item: u, count: 4 }],
        timing: ReportTiming::default(),
    };
    let resolved = Report::from_unresolved(report, vec![vec![vec![], vec![], vec![], vec![sym("work", None, None)]]; 2]);
    assert_eq!(resolved.data.len(), 1);
    assert_eq!(resolved.data[0].1, 7);
}

#[test]
fn flamegraph_lines_fold_stacks() {
    let report = Report {
        data: vec![
            (frames(&[&["inner", "inlined"], &["main"]], "worker", 1), 7),
            (frames(&[], "", 42), -3),
        ],
        timing: ReportTiming::default(),
    };
    let lines = report.flamegraph_lines();
    assert_eq!(lines, vec!["worker;main;inlined;inner 7".to_string(), "42 -3".to_string()]);
}

#[test]
fn decimal_formatting() {
    assert_eq!(decimal_string(0), "0");
    assert_eq!(decimal_string(1000), "1000");
    assert_eq!(decimal_string(u64::MAX), u64::MAX.to_string());
    assert_eq!(signed_decimal_string(-3), "-3");
    assert_eq!(signed_decimal_string(42), "42");
    assert_eq!(signed_decimal_string(isize::MIN), isize::MIN.to_string());
}
