use sha_1::hasher::Hasher;
use sha_1::{HasherError, Lang, NoThreads};

#[test]
fn unreadable_file_gets_marker_row() {
    let row = Hasher::send_hashing_result(None, String::from("dir/gone.bin"));
    assert_eq!(row, "dir/gone.bin: Unhashable item\n");
}

#[test]
fn digest_row_format() {
    let digest = "da39a3ee5e6b4b0d3255bfef95601890afd80709";
    let row = Hasher::send_hashing_result(Some(String::from(digest)), String::from("p"));
    assert_eq!(row, format!("p: {}\n", digest));
}

/// Drive one simulated run of N completions under budget K, asserting the
/// in-flight bound throughout, and return the collected rows.
fn simulate_run(budget: u8, mut queue: Vec<String>) -> Vec<String> {
    let n = queue.len();
    let mut h = Hasher::new(budget, Lang::C);
    for _ in 0..n {
        let pending = if h.must_wait() { queue.pop() } else { None };
        h.wait_if_max_threads(pending);
        assert!(h.in_flight_count() <= budget as u64);
    }
    let mut rest = Vec::new();
    for _ in 0..h.in_flight_count() {
        rest.push(queue.pop().unwrap());
    }
    h.wait_for_remaining_threads(rest);
    assert_eq!(h.in_flight_count(), 0);
    h.results().clone()
}

#[test]
fn in_flight_never_exceeds_budget() {
    let queue: Vec<String> = (0..7)
        .map(|i| Hasher::send_hashing_result(Some(String::from("0123")), format!("f{}", i)))
        .collect();
    let rows = simulate_run(2, queue);
    assert_eq!(rows.len(), 7);
}

#[test]
fn report_is_complete_each_path_once() {
    let paths = ["a", "b", "c", "d", "e"];
    let queue: Vec<String> = paths
        .iter()
        .map(|p| Hasher::send_hashing_result(Some(String::from("0123")), String::from(*p)))
        .collect();
    let mut rows = simulate_run(2, queue);
    assert_eq!(rows.len(), paths.len());
    rows.sort();
    let mut expected: Vec<String> =
        paths.iter().map(|p| format!("{}: 0123\n", p)).collect();
    expected.sort();
    assert_eq!(rows, expected);
}

#[test]
fn report_row_set_independent_of_completion_order() {
    let queue1: Vec<String> = ["x", "y", "z"]
        .iter()
        .map(|p| Hasher::send_hashing_result(Some(String::from("feed")), String::from(*p)))
        .collect();
    let mut queue2 = queue1.clone();
    queue2.reverse();
    let mut rows1 = simulate_run(1, queue1);
    let mut rows2 = simulate_run(3, queue2);
    rows1.sort();
    rows2.sort();
    assert_eq!(rows1, rows2);
}

#[test]
fn thread_count_selection() {
    assert_eq!(NoThreads::One(1).get_number_of_threads(), 1);
    assert_eq!(NoThreads::Eight(8).get_number_of_threads(), 8);
    assert_eq!(NoThreads::SixtyFour(64).get_number_of_threads(), 64);
}

#[test]
fn error_kinds_are_distinct() {
    assert_ne!(HasherError::BadInputLocation, HasherError::BadOutputLocation);
}
