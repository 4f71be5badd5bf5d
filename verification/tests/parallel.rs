use exchange_core_rs::processors::parallel::{ComputeConfig, ComputePool, ComputePoolError};
use exchange_core_rs::processors::thread_pool::worker_name;
use exchange_core_rs::text::push_decimal;

fn pool(workers: usize, serial_threshold: usize) -> ComputePool {
    ComputePool::new(ComputeConfig { workers, serial_threshold })
        .expect("failed to build compute thread pool")
}

fn square(items: &[i64], workers: usize, threshold: usize) -> Vec<i64> {
    let pool = pool(workers, threshold);
    pool.map(items, |&x| x * x)
}

#[test]
fn map_empty_and_single() {
    assert!(square(&[], 4, 0).is_empty());
    assert_eq!(square(&[7], 4, 0), vec![49]);
}

#[test]
fn map_preserves_input_order_serial_and_parallel() {
    let input: Vec<i64> = (0..10_000).collect();
    let expect: Vec<i64> = input.iter().map(|&x| x * x).collect();
    assert_eq!(square(&input, 1, 1024), expect, "workers=1 serial");
    assert_eq!(square(&input, 8, 0), expect, "workers=8 parallel, threshold=0");
}

#[test]
fn serial_threshold_forces_serial_below_n() {
    let input: Vec<i64> = (0..500).collect();
    assert_eq!(square(&input, 8, 100_000), square(&input, 8, 0));
}

#[test]
fn map_is_worker_invariant() {
    let input: Vec<i64> = (-700..1_300).collect();
    let expect = square(&input, 1, 1024);
    assert_eq!(expect[0], 490_000);
    assert_eq!(expect[1_999], 1_687_401);
    for workers in [0usize, 1, 2, 3, 8, 16] {
        for threshold in [0usize, 1, 1_999, 2_000, 2_001, usize::MAX] {
            assert_eq!(square(&input, workers, threshold), expect);
        }
    }
}

#[test]
fn map_splits_anywhere() {
    let input: Vec<i64> = (0..300).collect();
    let whole = square(&input, 4, 100);
    for at in [0usize, 1, 99, 100, 150, 299, 300] {
        let mut joined = square(&input[..at], 4, 100);
        joined.extend(square(&input[at..], 4, 100));
        assert_eq!(joined, whole);
    }
}

#[test]
fn map_changes_the_type_of_the_items() {
    let input: Vec<usize> = (0..40).collect();
    let expect: Vec<String> = (0..40).map(|i: usize| i.to_string()).collect();
    assert_eq!(pool(1, 0).map(&input, |i| i.to_string()), expect);
    assert_eq!(pool(4, 0).map(&input, |i| i.to_string()), expect);
}

#[test]
fn items_from_the_threshold_on_go_to_the_worker_threads() {
    let pool = pool(3, 10);
    let below = vec![0u8; 9];
    let at = vec![0u8; 10];
    assert!(pool.map(&below, |_| rayon::current_thread_index()).iter().all(|i| i.is_none()));
    assert!(pool.map(&at, |_| rayon::current_thread_index()).iter().all(|i| i.is_some()));
    assert!(pool.map(&at, |_| rayon::current_num_threads()).iter().all(|n| *n == 3));
    assert!(!pool.uses_workers(0));
    assert!(!pool.uses_workers(9));
    assert!(pool.uses_workers(10));
    assert!(pool.uses_workers(usize::MAX));
}

#[test]
fn one_worker_never_leaves_the_calling_thread() {
    let items = vec![0u8; 5_000];
    for workers in [0usize, 1] {
        let pool = pool(workers, 0);
        assert!(!pool.uses_workers(items.len()));
        assert!(pool.map(&items, |_| rayon::current_thread_index()).iter().all(|i| i.is_none()));
    }
    let default = ComputePool::default();
    assert!(!default.uses_workers(usize::MAX));
    assert!(default.map(&items, |_| rayon::current_thread_index()).iter().all(|i| i.is_none()));
}

#[test]
fn worker_names_number_the_threads() {
    assert_eq!(worker_name(0), "ec-compute-0");
    assert_eq!(worker_name(10), "ec-compute-10");
    assert_eq!(worker_name(65_534), "ec-compute-65534");
}

#[test]
fn default_config_is_one_worker_and_a_threshold_of_1024() {
    let config = ComputeConfig::default();
    assert_eq!(config, ComputeConfig { workers: 1, serial_threshold: 1024 });
    assert_eq!(*ComputePool::default().config(), config);
}

#[test]
fn config_is_what_the_pool_was_made_with() {
    for workers in [0usize, 1, 5] {
        let config = ComputeConfig { workers, serial_threshold: 77 };
        assert_eq!(*ComputePool::new(config).unwrap().config(), config);
    }
}

#[test]
fn pool_from_threads_that_were_started() {
    let config = ComputeConfig { workers: 2, serial_threshold: 1 };
    let threads = rayon::ThreadPoolBuilder::new().num_threads(2).build();
    let pool = ComputePool::from_build(config, threads).unwrap();
    assert_eq!(*pool.config(), config);
    assert_eq!(pool.map(&[1i64, 2, 3], |x| x + 1), vec![2, 3, 4]);
    assert_eq!(pool.map(&[1i64], |_| rayon::current_num_threads()), vec![2]);
}

#[test]
fn pool_from_threads_that_could_not_be_started() {
    let _ = rayon::ThreadPoolBuilder::new().num_threads(1).build_global();
    let cause = rayon::ThreadPoolBuilder::new().num_threads(1).build_global().unwrap_err();
    let text = format!("{cause}");
    let config = ComputeConfig { workers: 2, serial_threshold: 1 };
    match ComputePool::from_build(config, Err(cause)) {
        Ok(_) => panic!("no pool without threads"),
        Err(ComputePoolError::ThreadPoolBuild(cause)) => assert_eq!(format!("{cause}"), text),
    }
}

#[test]
fn description_holds_the_configuration_alone() {
    assert_eq!(
        ComputePool::default().describe(),
        "ComputePool { config: ComputeConfig { workers: 1, serial_threshold: 1024 } }"
    );
    assert_eq!(
        pool(3, 0).describe(),
        "ComputePool { config: ComputeConfig { workers: 3, serial_threshold: 0 } }"
    );
    let config = ComputeConfig { workers: 1, serial_threshold: usize::MAX };
    assert_eq!(
        ComputePool::new(config).unwrap().describe(),
        format!("ComputePool {{ config: {config:?} }}")
    );
}

#[derive(Debug)]
#[allow(dead_code)]
struct Shown {
    config: ComputeConfig,
}

#[test]
fn description_is_what_debug_prints_of_the_configuration() {
    for (workers, serial_threshold) in [(0usize, 0usize), (1, 1024), (2, 99), (1, usize::MAX)] {
        let config = ComputeConfig { workers, serial_threshold };
        let expect = format!("{:?}", Shown { config }).replacen("Shown", "ComputePool", 1);
        assert_eq!(ComputePool::new(config).unwrap().describe(), expect);
    }
}

#[test]
fn decimal_text() {
    for n in [0usize, 1, 9, 10, 11, 99, 100, 101, 1024, 909_090, usize::MAX] {
        let mut text = String::from("n=");
        push_decimal(&mut text, n);
        assert_eq!(text, format!("n={n}"));
    }
}
