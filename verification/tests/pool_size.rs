use duprm::pool::{files_per_worker, fingerprint_window, MAX_IN_FLIGHT};

#[test]
fn each_worker_gets_its_share_rounded_up() {
    assert_eq!(MAX_IN_FLIGHT, 64);
    assert_eq!(files_per_worker(1), 64);
    assert_eq!(files_per_worker(2), 32);
    assert_eq!(files_per_worker(3), 22);
    assert_eq!(files_per_worker(6), 11);
    assert_eq!(files_per_worker(8), 8);
    assert_eq!(files_per_worker(12), 6);
    assert_eq!(files_per_worker(63), 2);
    assert_eq!(files_per_worker(64), 1);
}

#[test]
fn each_worker_gets_at_least_one_file() {
    assert_eq!(files_per_worker(65), 1);
    assert_eq!(files_per_worker(1000), 1);
    assert_eq!(files_per_worker(usize::MAX), 1);
}

#[test]
fn window_is_share_times_workers() {
    assert_eq!(fingerprint_window(1), 64);
    assert_eq!(fingerprint_window(3), 66);
    assert_eq!(fingerprint_window(6), 66);
    assert_eq!(fingerprint_window(8), 64);
    assert_eq!(fingerprint_window(63), 126);
    assert_eq!(fingerprint_window(64), 64);
    assert_eq!(fingerprint_window(65), 65);
    assert_eq!(fingerprint_window(usize::MAX), usize::MAX);
}

#[test]
fn window_overshoots_by_less_than_one_file_per_worker() {
    for workers in 1..200usize {
        let window = fingerprint_window(workers);
        assert!(window >= workers);
        assert!(window >= MAX_IN_FLIGHT);
        assert!(window < MAX_IN_FLIGHT + workers);
        assert_eq!(window, files_per_worker(workers) * workers);
    }
}
