use std::time::Instant;
use stockfish_rs::search::{next_depth, nodes_per_second, time_exceeded, SearchInfo, SearchLimits};
use stockfish_rs::text::str_chars;
use stockfish_rs::uci::hash_option_value;

fn limits(depth: Option<i32>, nodes: Option<u64>, movetime: Option<u64>) -> SearchLimits {
    SearchLimits { depth, nodes, movetime, infinite: false }
}

#[test]
fn time_limit_is_used_up_at_the_limit() {
    assert!(!time_exceeded(49, 50));
    assert!(time_exceeded(50, 50));
    assert!(time_exceeded(51, 50));
}

#[test]
fn should_stop_at_applies_each_limit() {
    let mut info = SearchInfo::new_at(limits(None, None, Some(100)), Instant::now());
    assert!(!info.should_stop_at(99));
    assert!(!info.stopped);
    assert!(info.should_stop_at(100));
    assert!(info.stopped);
    // Once stopped, it stays stopped.
    assert!(info.should_stop_at(0));

    let mut info = SearchInfo::new_at(limits(None, Some(10), None), Instant::now());
    info.nodes = 9;
    assert!(!info.should_stop_at(1_000_000));
    info.nodes = 10;
    assert!(info.should_stop_at(0));

    let mut info = SearchInfo::new_at(limits(Some(3), None, None), Instant::now());
    assert!(!info.should_stop_at(u128::MAX));
}

#[test]
fn new_at_keeps_the_start_time() {
    let start = Instant::now();
    let info = SearchInfo::new_at(limits(None, None, None), start);
    assert_eq!(info.start_time, start);
    assert_eq!(info.nodes, 0);
    assert!(!info.stopped);
}

#[test]
fn deepening_schedule() {
    let l = limits(Some(3), None, None);
    assert_eq!(next_depth(&l, 0), Some(1));
    assert_eq!(next_depth(&l, 2), Some(3));
    assert_eq!(next_depth(&l, 3), None);
    let l = limits(None, None, None);
    assert_eq!(next_depth(&l, 63), Some(64));
    assert_eq!(next_depth(&l, 64), None);
}

#[test]
fn speed_in_nodes_per_second() {
    assert_eq!(nodes_per_second(5000, 0), 0);
    assert_eq!(nodes_per_second(5000, 2000), 2500);
    assert_eq!(nodes_per_second(7, 3), 2333);
}

#[test]
fn hash_option_value_needs_the_hash_name() {
    assert_eq!(hash_option_value("hash", &str_chars("64")), Some(64));
    assert_eq!(hash_option_value("hash", &str_chars("x")), None);
    assert_eq!(hash_option_value("threads", &str_chars("64")), None);
    // The name is compared as given: lowercasing happens before.
    assert_eq!(hash_option_value("Hash", &str_chars("64")), None);
}
