use pprof::addr_validate::{drain_step, needs_probe, probe_step, DrainStep, IoOutcome, ProbeStep};
use pprof::frames::{thread_name_or_id, Symbol};
use pprof::perfmap::{parse_line, PerfMap};
use pprof::protos::{Function, Label, Line, Location, Mapping, Profile, Sample, ValueType};

#[test]
fn demangle_rust() {
    let symbol = Symbol {
        name: Some(b"_ZN3foo3barE".to_vec()),
        addr: None,
        lineno: None,
        filename: None,
    };

    assert_eq!(&symbol.name(), "foo::bar")
}

#[test]
fn demangle_cpp() {
    let name =
        b"_ZNK3MapI10StringName3RefI8GDScriptE10ComparatorIS0_E16DefaultAllocatorE3hasERKS0_"
            .to_vec();

    let symbol = Symbol {
        name: Some(name),
        addr: None,
        lineno: None,
        filename: None,
    };

    assert_eq!(
        &symbol.name(),
        "Map<StringName, Ref<GDScript>, Comparator<StringName>, DefaultAllocator>::has(StringName const&) const"
    )
}

#[test]
fn symbol_defaults() {
    let symbol = Symbol { name: None, addr: None, lineno: None, filename: None };
    assert_eq!(symbol.raw_name(), b"Unknown".to_vec());
    assert_eq!(symbol.sys_name(), "Unknown");
    assert_eq!(symbol.filename(), "Unknown");
    assert_eq!(symbol.lineno(), 0);
    let symbol = Symbol {
        name: Some(vec![b'a', 0xff, b'b']),
        addr: Some(16),
        lineno: Some(12),
        filename: Some("src/main.rs".to_string()),
    };
    assert_eq!(symbol.sys_name(), "a\u{fffd}b");
    assert_eq!(symbol.filename(), "src/main.rs");
    assert_eq!(symbol.lineno(), 12);
}

#[test]
fn thread_name_or_decimal_id() {
    assert_eq!(thread_name_or_id(&"worker".to_string(), 5), "worker");
    assert_eq!(thread_name_or_id(&String::new(), 140234), "140234");
}

#[test]
fn validator_decisions() {
    assert!(!needs_probe(0));
    assert!(needs_probe(0x1000));
    assert_eq!(drain_step(IoOutcome::Done(16)), DrainStep::Proceed);
    assert_eq!(drain_step(IoOutcome::Done(0)), DrainStep::Reopen);
    assert_eq!(drain_step(IoOutcome::Interrupted), DrainStep::Retry);
    assert_eq!(drain_step(IoOutcome::WouldBlock), DrainStep::Proceed);
    assert_eq!(drain_step(IoOutcome::Failed), DrainStep::Reopen);
    assert_eq!(probe_step(IoOutcome::Done(16)), ProbeStep::Valid(true));
    assert_eq!(probe_step(IoOutcome::Done(0)), ProbeStep::Valid(false));
    assert_eq!(probe_step(IoOutcome::Interrupted), ProbeStep::Retry);
    assert_eq!(probe_step(IoOutcome::WouldBlock), ProbeStep::Valid(false));
    assert_eq!(probe_step(IoOutcome::Failed), ProbeStep::Valid(false));
}

#[test]
fn perf_map_finds_first_containing_range() {
    let map = PerfMap::from_ranges(vec![
        (0x100, 0x200, "jit_a".to_string()),
        (0x180, 0x300, "jit_b".to_string()),
    ]);
    assert_eq!(map.find(0x150).unwrap().0, "jit_a");
    assert_eq!(map.find(0x1ff).unwrap().0, "jit_a");
    assert_eq!(map.find(0x200).unwrap().0, "jit_b");
    assert!(map.find(0x300).is_none());
    assert!(map.find(0xff).is_none());
}

#[test]
fn profile_accessors() {
    let mut p = Profile::default();
    p.set_period(10_000_000);
    assert_eq!(p.get_period(), 10_000_000);
    p.clear_period();
    assert_eq!(p.get_period(), 0);
    p.set_comment(vec![1, 2, 3]);
    p.mut_comment().push(4);
    assert_eq!(p.get_comment(), &[1, 2, 3, 4]);
    assert_eq!(p.take_comment(), vec![1, 2, 3, 4]);
    assert!(p.get_comment().is_empty());
    p.set_time_nanos(5);
    p.set_duration_nanos(6);
    p.set_drop_frames(1);
    p.set_keep_frames(2);
    p.set_default_sample_type(3);
    assert_eq!(
        (p.get_time_nanos(), p.get_duration_nanos(), p.get_drop_frames(), p.get_keep_frames(), p.get_default_sample_type()),
        (5, 6, 1, 2, 3)
    );
    p.set_string_table(vec!["".to_string(), "cpu".to_string()]);
    assert_eq!(p.string_table.len(), 2);
    p.clear_string_table();
    assert!(p.string_table.is_empty());

    let mut vt = ValueType::default();
    vt.set_type(1);
    vt.set_unit(2);
    assert_eq!((vt.get_type(), vt.get_unit()), (1, 2));
    p.set_sample_type(vec![vt.clone()]);
    assert_eq!(p.sample_type.len(), 1);

    let mut label = Label::default();
    label.set_key(1);
    label.set_str(2);
    label.set_num(3);
    label.set_num_unit(4);
    assert_eq!((label.get_key(), label.get_str(), label.get_num(), label.get_num_unit()), (1, 2, 3, 4));

    let mut s = Sample::default();
    s.set_location_id(vec![7, 8]);
    s.mut_value().push(9);
    assert_eq!(s.get_value(), &[9]);
    s.set_label(vec![label]);
    assert_eq!(s.take_location_id(), vec![7, 8]);
    assert_eq!(s.take_value(), vec![9]);
    p.set_sample(vec![s]);
    assert_eq!(p.sample.len(), 1);

    let mut m = Mapping::default();
    m.set_id(1);
    m.set_memory_start(0x1000);
    m.set_memory_limit(0x2000);
    m.set_has_functions(true);
    assert_eq!((m.get_id(), m.get_memory_start(), m.get_memory_limit()), (1, 0x1000, 0x2000));
    assert!(m.get_has_functions());
    m.clear_has_functions();
    assert!(!m.get_has_functions());

    let mut line = Line::default();
    line.set_function_id(3);
    line.set_line(42);
    let mut loc = Location::default();
    loc.set_id(1);
    loc.set_line(vec![line]);
    assert_eq!(loc.line[0].get_line(), 42);
    assert_eq!(loc.line[0].get_function_id(), 3);

    let mut f = Function::default();
    f.set_id(3);
    f.set_name(1);
    f.set_system_name(2);
    f.set_filename(4);
    f.set_start_line(10);
    assert_eq!((f.get_id(), f.get_name(), f.get_system_name(), f.get_filename(), f.get_start_line()), (3, 1, 2, 4, 10));
    p.set_function(vec![f]);
    p.set_location(vec![loc]);
    p.set_mapping(vec![m]);
    assert_eq!((p.function.len(), p.location.len(), p.mapping.len()), (1, 1, 1));
    p.clear_function();
    p.clear_location();
    p.clear_mapping();
    p.clear_sample();
    p.clear_sample_type();
    assert!(p.function.is_empty() && p.location.is_empty() && p.mapping.is_empty());
}

#[test]
fn perf_map_lines_parse() {
    assert_eq!(
        parse_line("7f00a000 1f0 JIT  compiled   function"),
        Some((0x7f00a000, 0x7f00a1f0, "JIT compiled function".to_string()))
    );
    assert_eq!(parse_line("  +10\t20 x"), Some((0x10, 0x30, "x".to_string())));
    assert_eq!(parse_line("10 20"), Some((0x10, 0x30, String::new())));
    assert_eq!(parse_line("10"), None);
    assert_eq!(parse_line("1g 20 x"), None);
    assert_eq!(parse_line("+ 20 x"), None);
    assert_eq!(parse_line("ffffffffffffffff 1 x"), None);
    assert_eq!(parse_line("10000000000000000 1 x"), None);
    let lines = vec!["100 10 a".to_string(), "200 10 b c".to_string()];
    let map = PerfMap::from_lines(&lines).unwrap();
    assert_eq!(map.find(0x205).unwrap().0, "b c");
    assert!(PerfMap::from_lines(&vec!["100 10 a".to_string(), "junk".to_string()]).is_none());
}
