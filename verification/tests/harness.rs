use kvbench::binary_search_tree::LockFreeBinarySearchTree;
use kvbench::testclient::{per_sec, BenchContext, MultiThreadClient, ReportEntry, WaitBarrier};

#[test]
fn report_entry_line() {
    // 1000 operations in two seconds: five hundred per second.
    let e = ReportEntry::new("put", 1000, 2_000_000_000);
    assert_eq!(e.metric, "put");
    assert_eq!(e.size, 1000);
    assert_eq!(e.elapsed, 2_000_000_000);
    assert_eq!(e.format(), "put: 1000, put_per_sec: 500");
}

#[test]
fn report_entry_zero_elapsed() {
    let e = ReportEntry::new("get", 5, 0);
    assert_eq!(e.format(), "get: 5, get_per_sec: 0");
}

#[test]
fn per_sec_values() {
    assert_eq!(per_sec(1000, 2_000_000_000), 500);
    assert_eq!(per_sec(1, 1), 1_000_000_000);
    assert_eq!(per_sec(12345, 0), 0);
    assert_eq!(per_sec(u128::MAX, 3), u128::MAX);
}

#[test]
fn barrier_single_thread_never_blocks() {
    let mut b = WaitBarrier::new(1);
    b.arrive();
    assert!(b.ready());
    b.arrive();
    assert!(b.ready());
}

#[test]
fn barrier_waits_for_full_round() {
    let mut b = WaitBarrier::new(3);
    assert!(b.ready());
    b.arrive();
    assert!(!b.ready());
    b.arrive();
    assert!(!b.ready());
    b.arrive();
    assert!(b.ready());
    b.arrive();
    assert!(!b.ready());
    b.arrive();
    b.arrive();
    assert!(b.ready());
}

#[test]
fn aggregation_across_threads() {
    let mut ctx = BenchContext::new(2);
    let mut c0 = MultiThreadClient::new_multithread(0, 2);
    c0.set_tree(LockFreeBinarySearchTree::new_default());
    let mut c1 = MultiThreadClient::new_multithread(1, 2);
    c1.set_tree(LockFreeBinarySearchTree::new_default());

    c0.report(&mut ctx, "put", 500, 2_000_000_000);
    c1.report(&mut ctx, "put", 500, 1_000_000_000);
    c0.report(&mut ctx, "get", 10, 1_000_000_000);

    let summaries = c0.end(&mut ctx);
    assert_eq!(summaries.len(), 2);

    let put = &summaries[0];
    assert_eq!(put.metric, "put");
    assert_eq!(put.num_threads, 2);
    assert_eq!(put.total_num, 1000);
    assert_eq!(put.total_cost, 3_000_000_000);
    assert_eq!(put.max_time_cost, 2_000_000_000);
    // Wall-clock view: 1000 ops over the slowest thread's two seconds.
    assert_eq!(put.total_throughput, 500);
    // Serial-equivalent view: 1000 ops over three summed seconds.
    assert_eq!(put.avg_throughput, 333);
    assert_eq!(
        put.format(),
        "metric: put, #threads: 2, total throughput: 500, avg throughput: 333"
    );

    let get = &summaries[1];
    assert_eq!(get.metric, "get");
    assert_eq!(get.num_threads, 1);
    assert_eq!(get.total_num, 10);
    assert_eq!(get.format(), "metric: get, #threads: 1, total throughput: 10, avg throughput: 10");

    // The aggregation is cleared for the next workload.
    let empty = c0.end(&mut ctx);
    assert_eq!(empty.len(), 0);
}

#[test]
fn notice_is_tagged_with_the_thread_id() {
    let c = MultiThreadClient::<LockFreeBinarySearchTree>::new_multithread(7, 8);
    assert_eq!(c.notice("starting"), "[7]: starting");
}

#[test]
fn client_accessors() {
    let mut c = MultiThreadClient::new_multithread(3, 8);
    assert_eq!(c.id(), 3);
    assert_eq!(c.nthreads(), 8);
    c.set_tree(LockFreeBinarySearchTree::new_default());
    c.put("k".to_string(), "v".to_string());
    assert!(c.get_check("k".to_string(), "v".to_string()));
    assert!(!c.get_check("k".to_string(), "other".to_string()));
    assert!(c.get_check_absent("missing".to_string()));
    assert!(!c.get_check_absent("k".to_string()));
    assert_eq!(c.get_tree().get_val(&c.get_tree().encode_key(&"k".to_string())), Some("v".to_string()));
}
