use alloc_track::{
    group_names, thread_report, thread_report_by_name, BacktraceMetric, BacktraceMode, FreeError, HashedBacktrace, SlotError, Tracker, MAX_THREADS,
};

fn no_trace() -> HashedBacktrace {
    HashedBacktrace::capture(BacktraceMode::Disabled)
}

#[test]
fn free_then_second_free_is_refused() {
    let mut t = Tracker::new(BacktraceMode::Disabled, 4);
    let slot = t.register_thread().unwrap();
    t.record_alloc(slot, 0x1000, 64, no_trace());
    assert!(t.is_live(0x1000));
    assert_eq!(t.record_free(slot, 0x1000, 64), Ok(()));
    assert!(!t.is_live(0x1000));
    assert_eq!(t.record_free(slot, 0x1000, 64), Err(FreeError::DoubleFree));
}

#[test]
fn free_of_unknown_address_is_refused() {
    let mut t = Tracker::new(BacktraceMode::Disabled, 4);
    let slot = t.register_thread().unwrap();
    assert_eq!(t.record_free(slot, 0x2000, 8), Err(FreeError::DoubleFree));
    assert_eq!(t.table().freed(slot, slot), 0);
}

#[test]
fn allocations_add_up_per_thread() {
    let mut t = Tracker::new(BacktraceMode::Disabled, 4);
    let slot = t.register_thread().unwrap();
    for k in 0..10usize {
        t.record_alloc(slot, 0x1000 + k * 64, 48, no_trace());
    }
    assert_eq!(t.table().allocated(slot), 480);
    let report = thread_report(t.table(), &vec![Some(0)], &vec!["main".to_string()]);
    assert_eq!(report.0.len(), 1);
    assert_eq!(report.0[0].0, "main");
    assert_eq!(report.0[0].1.total_alloc, 480);
    assert_eq!(report.0[0].1.current_used, 480);
}

#[test]
fn worker_frees_what_main_allocated() {
    let mut t = Tracker::new(BacktraceMode::Disabled, 4);
    let main = t.register_thread().unwrap();
    let worker = t.register_thread().unwrap();
    t.record_alloc(main, 0x1000, 1024, no_trace());
    assert_eq!(t.record_free(worker, 0x1000, 1024), Ok(()));
    let names = vec!["main".to_string(), "worker".to_string()];
    let report = thread_report(t.table(), &vec![Some(0), Some(1)], &names);
    let m = &report.0[0].1;
    let w = &report.0[1].1;
    assert_eq!(report.0[0].0, "main");
    assert_eq!(report.0[1].0, "worker");
    assert_eq!(m.total_alloc, 1024);
    assert_eq!(m.current_used, 0);
    assert_eq!(m.freed_by_others[1], 1024);
    assert_eq!(m.freed_by_others[0], 0);
    assert_eq!(m.total_freed, 1024);
    assert_eq!(m.total_did_free, 0);
    assert_eq!(w.total_alloc, 0);
    assert_eq!(w.total_did_free, 1024);
    assert_eq!(w.total_freed, 0);
    assert_eq!(t.table().freed(worker, main), 1024);
}

#[test]
fn threads_sharing_a_name_are_summed() {
    let mut t = Tracker::new(BacktraceMode::Disabled, 4);
    let a = t.register_thread().unwrap();
    let b = t.register_thread().unwrap();
    let c = t.register_thread().unwrap();
    t.record_alloc(a, 1, 100, no_trace());
    t.record_alloc(b, 2, 200, no_trace());
    t.record_alloc(c, 3, 300, no_trace());
    assert_eq!(t.record_free(c, 1, 100), Ok(()));
    let names = vec!["pool".to_string()];
    let report = thread_report(t.table(), &vec![Some(0), Some(0), None], &names);
    assert_eq!(report.0.len(), 1);
    assert_eq!(report.0[0].1.total_alloc, 300);
    assert_eq!(report.0[0].1.current_used, 300);
    assert_eq!(report.0[0].1.total_did_free, 0);
    assert_eq!(report.0[0].1.total_freed, 0);
    assert_eq!(report.0[0].1.freed_by_others, vec![0]);
}

#[test]
fn same_site_shares_one_record() {
    let mut t = Tracker::new(BacktraceMode::Short, 4);
    let slot = t.register_thread().unwrap();
    let trace = HashedBacktrace::capture(BacktraceMode::Short);
    t.record_alloc(slot, 0x10, 100, trace.clone());
    t.record_alloc(slot, 0x20, 50, trace.clone());
    let report = t.backtrace_report(|_, _| true);
    assert_eq!(report.0.len(), 1);
    let m = report.0[0].1;
    assert_eq!(m.allocations, 2);
    assert_eq!(m.allocated, 150);
    assert_eq!(m.freed, 0);
    assert_eq!(m.in_use(), 150);
    assert_eq!(m.mode, BacktraceMode::Short);
    assert!(report.0[0].0 == trace);
}

#[test]
fn frees_count_against_the_site() {
    let mut t = Tracker::new(BacktraceMode::Full, 4);
    let slot = t.register_thread().unwrap();
    let trace = HashedBacktrace::capture(BacktraceMode::Full);
    t.record_alloc(slot, 0x10, 100, trace);
    assert_eq!(t.record_free(slot, 0x10, 100), Ok(()));
    let report = t.backtrace_report(|_, _| true);
    assert_eq!(report.0[0].1.freed, 100);
    assert_eq!(report.0[0].1.in_use(), 0);
}

#[test]
fn report_is_sorted_by_bytes_in_use_and_filtered() {
    let mut t = Tracker::new(BacktraceMode::Short, 4);
    let slot = t.register_thread().unwrap();
    let mut traces = Vec::new();
    for _ in 0..3 {
        traces.push(HashedBacktrace::capture(BacktraceMode::Short));
    }
    let first = HashedBacktrace::capture(BacktraceMode::Short);
    let second = HashedBacktrace::capture(BacktraceMode::Short);
    assert!(!(first == second));
    t.record_alloc(slot, 1, 300, first.clone());
    t.record_alloc(slot, 2, 10, second.clone());
    let report = t.backtrace_report(|_, _| true);
    assert_eq!(report.0.len(), 2);
    assert_eq!(report.0[0].1.allocated, 10);
    assert_eq!(report.0[1].1.allocated, 300);
    let small = t.backtrace_report(|_, m| m.allocated < 100);
    assert_eq!(small.0.len(), 1);
    assert_eq!(small.0[0].1.allocated, 10);
}

#[test]
fn disabled_capture_reports_no_sites() {
    let mut t = Tracker::new(BacktraceMode::Disabled, 4);
    let slot = t.register_thread().unwrap();
    for k in 0..5usize {
        t.record_alloc(slot, k, 32, no_trace());
    }
    assert_eq!(t.record_free(slot, 0, 32), Ok(()));
    assert_eq!(t.backtrace_report(|_, _| true).0.len(), 0);
}

#[test]
fn too_many_threads_is_refused() {
    let mut t = Tracker::new(BacktraceMode::Disabled, 2);
    let a = t.register_thread().unwrap();
    let b = t.register_thread().unwrap();
    t.record_alloc(a, 1, 10, no_trace());
    t.record_alloc(b, 2, 20, no_trace());
    assert_eq!(t.register_thread(), Err(SlotError::CapacityExceeded));
    assert_eq!(t.table().slots(), 2);
    assert_eq!(t.table().allocated(a), 10);
    assert_eq!(t.table().allocated(b), 20);
}

#[test]
fn default_capacity() {
    let t = Tracker::new(BacktraceMode::Disabled, MAX_THREADS);
    assert_eq!(t.table().capacity(), 1024);
    assert_eq!(t.table().slots(), 0);
}

#[test]
fn os_tid_is_recorded_once() {
    let mut t = Tracker::new(BacktraceMode::Disabled, 2);
    let a = t.register_thread().unwrap();
    assert!(t.table().needs_os_tid(a));
    t.set_os_tid(a, 4242);
    assert!(!t.table().needs_os_tid(a));
    assert_eq!(t.table().os_tid(a), 4242);
}

#[test]
fn in_use_saturates() {
    let m = BacktraceMetric { allocated: 10, freed: 25, allocations: 1, mode: BacktraceMode::Short };
    assert_eq!(m.in_use(), 0);
    let m = BacktraceMetric { allocated: 25, freed: 10, allocations: 1, mode: BacktraceMode::Short };
    assert_eq!(m.in_use(), 15);
}

#[test]
fn counters_saturate() {
    let mut t = Tracker::new(BacktraceMode::Disabled, 2);
    let a = t.register_thread().unwrap();
    t.record_alloc(a, 1, u64::MAX - 1, no_trace());
    t.record_alloc(a, 2, 5, no_trace());
    assert_eq!(t.table().allocated(a), u64::MAX);
}

#[test]
fn names_are_grouped_sorted_and_unique() {
    let slots = vec![
        Some("worker".to_string()),
        None,
        Some("main".to_string()),
        Some("worker".to_string()),
        Some("Main".to_string()),
    ];
    let (names, ids) = group_names(&slots);
    assert_eq!(names, vec!["Main".to_string(), "main".to_string(), "worker".to_string()]);
    assert_eq!(ids, vec![Some(2), None, Some(1), Some(2), Some(0)]);
    let (names, ids) = group_names(&Vec::new());
    assert!(names.is_empty() && ids.is_empty());
}

#[test]
fn report_by_name_merges_and_orders() {
    let mut t = Tracker::new(BacktraceMode::Disabled, 4);
    let w1 = t.register_thread().unwrap();
    let m = t.register_thread().unwrap();
    let w2 = t.register_thread().unwrap();
    let hidden = t.register_thread().unwrap();
    t.record_alloc(m, 1, 1024, no_trace());
    t.record_alloc(w1, 2, 10, no_trace());
    t.record_alloc(w2, 3, 20, no_trace());
    t.record_alloc(hidden, 4, 40, no_trace());
    assert_eq!(t.record_free(w2, 1, 1024), Ok(()));
    let slots = vec![Some("worker".to_string()), Some("main".to_string()), Some("worker".to_string()), None];
    let r = thread_report_by_name(t.table(), &slots);
    assert_eq!(r.0.len(), 2);
    assert_eq!(r.0[0].0, "main");
    assert_eq!(r.0[1].0, "worker");
    assert_eq!(r.0[0].1.total_alloc, 1024);
    assert_eq!(r.0[0].1.current_used, 0);
    assert_eq!(r.0[0].1.total_freed, 1024);
    assert_eq!(r.0[0].1.freed_by_others, vec![0, 1024]);
    assert_eq!(r.0[1].1.total_alloc, 30);
    assert_eq!(r.0[1].1.total_did_free, 1024);
}

#[test]
fn free_lowers_the_owner_in_use() {
    let mut t = Tracker::new(BacktraceMode::Disabled, 4);
    let a = t.register_thread().unwrap();
    let b = t.register_thread().unwrap();
    t.record_alloc(a, 1, 300, no_trace());
    t.record_alloc(a, 2, 200, no_trace());
    let slots = vec![Some("a".to_string()), Some("b".to_string())];
    let before = thread_report_by_name(t.table(), &slots);
    assert_eq!(t.record_free(b, 2, 200), Ok(()));
    let after = thread_report_by_name(t.table(), &slots);
    assert_eq!(before.0[0].1.current_used, 500);
    assert_eq!(after.0[0].1.current_used, 300);
    assert_eq!(after.0[0].1.freed_by_others[1], before.0[0].1.freed_by_others[1] + 200);
    assert_eq!(after.0[1].1.total_alloc, before.0[1].1.total_alloc);
}

#[test]
fn os_tid_is_kept_once_set() {
    let mut t = Tracker::new(BacktraceMode::Disabled, 2);
    let a = t.register_thread().unwrap();
    t.record_os_tid_once(a, 7);
    t.record_os_tid_once(a, 9);
    assert_eq!(t.table().os_tid(a), 7);
}
