use alloc_track::{
    escape_field, hash_ips, is_internal_frame, parse_csv_line, parse_u64, unescape_field, BacktraceMetric,
    BacktraceMode, BacktraceReport, HashedBacktrace, Size, SizeUnit, CSV_HEADER,
};

#[test]
fn decimal_fields_parse() {
    assert_eq!(parse_u64("0"), Some(0));
    assert_eq!(parse_u64("1024"), Some(1024));
    assert_eq!(parse_u64("18446744073709551615"), Some(u64::MAX));
    assert_eq!(parse_u64("18446744073709551616"), None);
    assert_eq!(parse_u64(""), None);
    assert_eq!(parse_u64("12a"), None);
}

#[test]
fn escaping_doubles_backslashes_and_hides_newlines() {
    assert_eq!(escape_field("a\\b\nc"), "a\\\\b\\nc");
    assert_eq!(unescape_field("a\\\\b\\nc"), Some("a\\b\nc".to_string()));
    assert_eq!(unescape_field("bad\\x"), None);
    assert_eq!(escape_field(""), "");
}

#[test]
fn csv_write_gives_the_fields() {
    let m = BacktraceMetric { allocated: 300, freed: 100, allocations: 3, mode: BacktraceMode::Short };
    let mut out = String::new();
    m.csv_write("100", &mut out);
    assert_eq!(out, "300,3,100,100,200");
}

#[test]
fn csv_report_lines_read_back() {
    let m1 = BacktraceMetric { allocated: 2048, freed: 1024, allocations: 2, mode: BacktraceMode::Full };
    let m2 = BacktraceMetric { allocated: 7, freed: 9, allocations: 1, mode: BacktraceMode::Full };
    let t = HashedBacktrace::capture(BacktraceMode::Disabled);
    let report = BacktraceReport(vec![(t.clone(), m1), (t, m2)]);
    let avgs = vec!["1024".to_string(), "7".to_string()];
    let stacks = vec!["main\n  at src\\main.rs:3, \"x\"".to_string(), String::new()];
    let csv = report.csv(&avgs, &stacks);
    assert!(csv.starts_with(CSV_HEADER));
    assert_eq!(CSV_HEADER, "allocated,allocations,avg_allocation,freed,total_used,backtrace\n");
    let body = &csv[CSV_HEADER.len()..];
    let lines: Vec<String> = body.split_inclusive('\n').map(|l| l.to_string()).collect();
    assert_eq!(lines.len(), 2);
    assert_eq!(lines[0], "2048,2,1024,1024,1024,\"main\\n  at src\\\\main.rs:3, \"x\"\"\n");
    let r = parse_csv_line(&lines[0]).unwrap();
    assert_eq!((r.allocated, r.allocations, r.freed, r.total_used), (2048, 2, 1024, 1024));
    assert_eq!(r.backtrace, stacks[0]);
    let r = parse_csv_line(&lines[1]).unwrap();
    assert_eq!((r.allocated, r.allocations, r.freed, r.total_used), (7, 1, 9, 0));
    assert_eq!(r.backtrace, "");
    assert!(parse_csv_line("1,2,3,4\n").is_none());
}

#[test]
fn sizes_pick_their_unit() {
    assert_eq!(Size(1023).scaled(), (1023, SizeUnit::Bytes));
    assert_eq!(Size(1024).scaled(), (1, SizeUnit::KiloBytes));
    assert_eq!(Size(1024 * 1024 - 1).scaled(), (1023, SizeUnit::KiloBytes));
    assert_eq!(Size(3 * 1024 * 1024 + 5).scaled(), (3, SizeUnit::MegaBytes));
    assert_eq!(SizeUnit::KiloBytes.suffix(), "KB");
}

#[test]
fn internal_frames_are_recognised() {
    assert!(is_internal_frame("alloc_track::tracker::Tracker::record_alloc"));
    assert!(is_internal_frame("<alloc::vec::Vec<T> as Clone>::clone"));
    assert!(is_internal_frame("__rg_alloc"));
    assert!(is_internal_frame("std::rt::lang_start"));
    assert!(is_internal_frame("_start"));
    assert!(!is_internal_frame("_start_here"));
    assert!(!is_internal_frame("my_app::main"));
    assert!(!is_internal_frame(""));
}

#[test]
fn stack_hash_depends_on_the_pointers() {
    assert_eq!(hash_ips(&vec![1, 2, 3]), hash_ips(&vec![1, 2, 3]));
    assert_ne!(hash_ips(&vec![1, 2, 3]), hash_ips(&vec![3, 2, 1]));
    let disabled = HashedBacktrace::capture(BacktraceMode::Disabled);
    assert_eq!(disabled.hash(), 0);
    let enabled = HashedBacktrace::capture(BacktraceMode::Short);
    assert_ne!(enabled.hash(), 0);
}

#[test]
fn default_mode_is_disabled() {
    assert_eq!(BacktraceMode::default(), BacktraceMode::Disabled);
    assert!(!BacktraceMode::Disabled.is_enabled());
    assert!(BacktraceMode::Full.is_enabled());
}

#[test]
fn captured_stack_can_be_resolved_in_place() {
    let mut t = HashedBacktrace::capture(BacktraceMode::Full);
    let h = t.hash();
    assert!(!t.inner().frames().is_empty());
    t.inner_mut().resolve();
    assert_eq!(t.hash(), h);
    let copy = t.clone();
    assert!(copy == t);
}
