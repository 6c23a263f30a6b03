use kvbench::binary_search_tree::LockFreeBinarySearchTree;
use kvbench::errors::BenchError;
use kvbench::fix_sized_key::FixSizedKeyParams;
use kvbench::rng::{random_alnum_string, rng_from_seed};
use kvbench::testcases::{
    draw_coins, gen_distinct_i32, gen_distinct_usize, SimpleWorkload, Testcases, Testcasesi32,
    TestcasesUsize, Workload,
};
use kvbench::testclient::{BenchContext, MultiThreadClient};
use kvbench::testrunner::{find_tree, ops_per_thread, TreeKind};

#[test]
fn find_testcases() {
    assert_eq!(Testcases::find("put_s"), Ok(Workload::PutS));
    assert_eq!(Testcases::find("put_m"), Ok(Workload::PutM));
    assert_eq!(Testcases::find("put_l"), Ok(Workload::PutL));
    assert_eq!(Testcasesi32::find("simple"), Ok(SimpleWorkload::Simple));
    assert_eq!(TestcasesUsize::find("simple"), Ok(SimpleWorkload::Simple));
}

#[test]
fn unknown_testcase_is_fatal() {
    // The runner aborts on this error without doing any benchmark work.
    assert_eq!(Testcases::find("does-not-exist"), Err(BenchError::UnknownTestcase));
    assert_eq!(Testcasesi32::find("does-not-exist"), Err(BenchError::UnknownTestcase));
    assert_eq!(TestcasesUsize::find("does-not-exist"), Err(BenchError::UnknownTestcase));
}

#[test]
fn find_trees() {
    assert_eq!(find_tree("bst"), Ok(TreeKind::Bst));
    assert_eq!(find_tree("skiplist"), Ok(TreeKind::SkipList));
    assert_eq!(find_tree("bptree"), Ok(TreeKind::BpTree));
    assert_eq!(find_tree("avltree"), Ok(TreeKind::AvlTree));
    assert_eq!(find_tree("art"), Ok(TreeKind::Art));
}

#[test]
fn unknown_tree_is_fatal() {
    assert_eq!(find_tree("does-not-exist"), Err(BenchError::UnknownTree));
}

#[test]
fn ops_split_evenly() {
    assert_eq!(ops_per_thread(5_000_000, 4), 1_250_000);
    assert_eq!(ops_per_thread(10, 3), 3);
    assert_eq!(ops_per_thread(0, 1), 0);
}

#[test]
fn alnum_values_have_requested_length() {
    let s = random_alnum_string(8);
    assert_eq!(s.len(), 8);
    assert!(s.chars().all(|c| c.is_ascii_alphanumeric()));
    assert_eq!(random_alnum_string(0).len(), 0);
}

fn fresh_client(id: usize, nthreads: usize) -> MultiThreadClient<LockFreeBinarySearchTree> {
    let mut c = MultiThreadClient::new_multithread(id, nthreads);
    c.set_tree(LockFreeBinarySearchTree::new_default());
    c
}

#[test]
fn put_workload_reports_one_metric() {
    let mut ctx = BenchContext::new(1);
    let mut client = fresh_client(0, 1);
    let summaries = Testcases::put_s(&mut client, &mut ctx, 200);
    assert_eq!(summaries.len(), 1);
    assert_eq!(summaries[0].metric, "put_8");
    assert_eq!(summaries[0].total_num, 200);
    assert_eq!(summaries[0].num_threads, 1);
    println!("{}", summaries[0].format());
}

#[test]
fn put_workload_value_sizes() {
    let mut ctx = BenchContext::new(1);
    let mut client = fresh_client(0, 1);
    let m = Testcases::run(Workload::PutM, &mut client, &mut ctx, 50);
    assert_eq!(m[0].metric, "put_32");
    let mut client = fresh_client(0, 1);
    let l = Testcases::run(Workload::PutL, &mut client, &mut ctx, 50);
    assert_eq!(l[0].metric, "put_128");
}

#[test]
fn simple_workload_i32() {
    // The phased scenario: insert a thousand distinct keys bound to their
    // successors, read each back, then a mixed phase; every check is
    // verified to pass, and each phase yields a throughput line.
    let mut ctx = BenchContext::new(1);
    let mut client = fresh_client(0, 1);
    let summaries = Testcasesi32::test_simple(&mut client, &mut ctx, 1000).unwrap();
    assert_eq!(summaries.len(), 3);
    assert_eq!(summaries[0].metric, "put");
    assert_eq!(summaries[1].metric, "get");
    assert_eq!(summaries[2].metric, "r50");
    for s in summaries.iter() {
        assert_eq!(s.total_num, 1000);
        println!("{}", s.format());
    }
}

#[test]
fn simple_workload_four_clients() {
    // Four clients with a thousand keys each, run phase-by-phase through
    // one shared context: four thousand keys in all, no check failures,
    // and a throughput line per phase for each client.
    let mut ctx = BenchContext::new(1);
    for id in 0..4 {
        let mut client = fresh_client(id, 4);
        let summaries = Testcasesi32::test_simple(&mut client, &mut ctx, 1000).unwrap();
        assert_eq!(summaries.len(), 3);
        for s in summaries.iter() {
            assert_eq!(s.total_num, 1000);
            println!("[{}] {}", id, s.format());
        }
    }
}

#[test]
fn key_generation() {
    let mut rng = rng_from_seed(12345);
    // Asking for at most one key always succeeds.
    assert_eq!(gen_distinct_i32(&mut rng, 0).unwrap(), vec![]);
    assert_eq!(gen_distinct_usize(&mut rng, 0).unwrap(), vec![]);
    assert_eq!(gen_distinct_i32(&mut rng, 1).unwrap().len(), 1);
    // Larger draws come out pairwise distinct.
    let keys = gen_distinct_i32(&mut rng, 200).unwrap();
    assert_eq!(keys.len(), 200);
    for i in 0..keys.len() {
        for j in (i + 1)..keys.len() {
            assert_ne!(keys[i], keys[j]);
        }
    }
    // The same seed draws the same keys.
    let mut rng2 = rng_from_seed(777);
    let mut rng3 = rng_from_seed(777);
    assert_eq!(gen_distinct_i32(&mut rng2, 50).unwrap(), gen_distinct_i32(&mut rng3, 50).unwrap());
    assert_eq!(draw_coins(&mut rng, 9).len(), 9);
}

#[test]
fn phases_run_separately() {
    // The case-6 decomposition a parallel runner uses: insert, check (no
    // misses, as proved), then the mixed phase, each a call of its own.
    let mut client = fresh_client(0, 2);
    let mut rng = rng_from_seed(42);
    let keys = gen_distinct_i32(&mut rng, 300).unwrap();
    let _put_cost = Testcasesi32::put_phase(&mut client, &keys);
    let (_get_cost, misses) = Testcasesi32::check_phase(&client, &keys);
    assert_eq!(misses, 0);
    let coins = draw_coins(&mut rng, 300);
    let new_keys = gen_distinct_i32(&mut rng, 300).unwrap();
    let (_r50_cost, misses) = Testcasesi32::mixed_phase(&mut client, &keys, &new_keys, &coins);
    assert_eq!(misses, 0);
    // The first phase's bindings survive the mixed phase.
    let (_again, misses) = Testcasesi32::check_phase(&client, &keys);
    assert_eq!(misses, 0);
}

#[test]
fn put_values_phase_fills_the_tree() {
    let mut client = fresh_client(0, 1);
    let mut rng = rng_from_seed(5);
    let _cost = Testcases::put_values_phase(&mut client, &mut rng, 50, 8);
    // Every inserted key is a decimal u32; at least one binding exists and
    // holds an eight-byte value.
    let mut rng2 = rng_from_seed(5);
    let k = kvbench::rng::gen_u32(&mut rng2);
    let v = client.get_tree().get_val(&client.get_tree().encode_key(&k.to_string()));
    assert_eq!(v.map(|s| s.len()), Some(8));
}

#[test]
fn workload_value_sizes_exec() {
    assert_eq!(Workload::PutS.value_size(), 8);
    assert_eq!(Workload::PutM.value_size(), 32);
    assert_eq!(Workload::PutL.value_size(), 128);
}

#[test]
fn simple_workload_usize() {
    let params = FixSizedKeyParams { key_size: 24, allow_int_cmp: true };
    let mut client = MultiThreadClient::new_multithread(0, 1);
    client.set_tree(LockFreeBinarySearchTree::new(params));
    let mut ctx = BenchContext::new(1);
    let summaries = TestcasesUsize::test_simple(&mut client, &mut ctx, 300).unwrap();
    assert_eq!(summaries.len(), 3);
    for s in summaries.iter() {
        assert_eq!(s.total_num, 300);
    }
}
