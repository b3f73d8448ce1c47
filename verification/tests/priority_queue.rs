use crust::priority_queue::{PriorityQueue, DEFAULT_CAPACITY};

#[test]
fn new_queue_is_empty() {
    let mut q = PriorityQueue::new();
    assert_eq!(q.buffered(), 0);
    assert_eq!(q.capacity(), DEFAULT_CAPACITY);
    assert_eq!(q.capacity(), 1024 * 1024);
    assert_eq!(q.pop(), None);
}

#[test]
fn push_then_pop_gives_data_back() {
    let mut q = PriorityQueue::new();
    q.push(vec![1, 2, 3], 7, 100);
    assert_eq!(q.buffered(), 3);
    assert_eq!(q.pop(), Some(vec![1, 2, 3]));
    assert_eq!(q.buffered(), 0);
    assert_eq!(q.pop(), None);
}

#[test]
fn lower_priority_number_is_served_first() {
    let mut q = PriorityQueue::new();
    q.push(b"low".to_vec(), 5, 0);
    q.push(b"high".to_vec(), 0, 1);
    q.push(b"mid".to_vec(), 2, 2);
    assert_eq!(q.pop(), Some(b"high".to_vec()));
    assert_eq!(q.pop(), Some(b"mid".to_vec()));
    assert_eq!(q.pop(), Some(b"low".to_vec()));
    assert_eq!(q.pop(), None);
}

#[test]
fn fifo_within_a_priority() {
    let mut q = PriorityQueue::new();
    q.push(vec![1], 3, 0);
    q.push(vec![2], 3, 1);
    q.push(vec![3], 3, 2);
    assert_eq!(q.pop(), Some(vec![1]));
    assert_eq!(q.pop(), Some(vec![2]));
    assert_eq!(q.pop(), Some(vec![3]));
}

#[test]
fn buffered_counts_bytes() {
    let mut q = PriorityQueue::new();
    q.push(vec![0; 10], 1, 0);
    q.push(vec![0; 25], 9, 0);
    assert_eq!(q.buffered(), 35);
    let _ = q.pop();
    assert_eq!(q.buffered(), 25);
}

#[test]
fn eviction_drops_highest_priority_times_age() {
    let mut q = PriorityQueue::new();
    q.push(vec![3; 600_000], 3, 0);
    q.push(vec![1; 300_000], 1, 0);
    // at time 10: scores are 3 * 10 = 30 and 1 * 10 = 10, so the priority 3 message goes
    q.push(vec![2; 400_000], 2, 10);
    assert_eq!(q.buffered(), 700_000);
    assert_eq!(q.pop(), Some(vec![1; 300_000]));
    assert_eq!(q.pop(), Some(vec![2; 400_000]));
    assert_eq!(q.pop(), None);
}

#[test]
fn eviction_tie_drops_less_important_level() {
    let mut q = PriorityQueue::new();
    q.push(vec![2; 500_000], 2, 0);
    q.push(vec![4; 500_000], 4, 5);
    // at time 10: 2 * 10 == 4 * 5, the larger priority number loses
    q.push(vec![9; 100_000], 9, 10);
    assert_eq!(q.buffered(), 600_000);
    assert_eq!(q.pop(), Some(vec![2; 500_000]));
    assert_eq!(q.pop(), Some(vec![9; 100_000]));
}

#[test]
fn priority_zero_is_dropped_last() {
    let mut q = PriorityQueue::new();
    q.push(vec![0; 500_000], 0, 0);
    q.push(vec![7; 500_000], 7, 999);
    q.push(vec![5; 100_000], 5, 1000);
    assert_eq!(q.pop(), Some(vec![0; 500_000]));
    assert_eq!(q.pop(), Some(vec![5; 100_000]));
    assert_eq!(q.pop(), None);
}

#[test]
fn oldest_message_of_a_level_is_dropped_first() {
    let mut q = PriorityQueue::new();
    q.push(vec![1; 400_000], 4, 0);
    q.push(vec![2; 400_000], 4, 1);
    q.push(vec![3; 400_000], 4, 2);
    assert_eq!(q.buffered(), 800_000);
    assert_eq!(q.pop(), Some(vec![2; 400_000]));
    assert_eq!(q.pop(), Some(vec![3; 400_000]));
}

#[test]
fn message_larger_than_budget_is_still_queued() {
    let mut q = PriorityQueue::new();
    q.push(vec![1; 10], 1, 0);
    q.push(vec![5; 2 * 1024 * 1024], 5, 1);
    assert_eq!(q.buffered(), 2 * 1024 * 1024);
    assert_eq!(q.pop(), Some(vec![5; 2 * 1024 * 1024]));
    assert_eq!(q.pop(), None);
}

#[test]
fn future_timestamps_count_as_no_age() {
    let mut q = PriorityQueue::new();
    q.push(vec![1; 500_000], 1, 50);
    q.push(vec![6; 500_000], 6, 100);
    // at time 40 both messages look fresh: scores 0 and 0, the larger level goes
    q.push(vec![3; 100_000], 3, 40);
    assert_eq!(q.pop(), Some(vec![1; 500_000]));
    assert_eq!(q.pop(), Some(vec![3; 100_000]));
}

#[test]
fn empty_messages_survive_eviction() {
    let mut q = PriorityQueue::new();
    q.push(Vec::new(), 9, 0);
    q.push(vec![1; 2_000_000], 1, 5);
    assert_eq!(q.buffered(), 2_000_000);
    assert_eq!(q.pop(), Some(vec![1; 2_000_000]));
    assert_eq!(q.pop(), Some(Vec::new()));
}

#[test]
fn tied_level_is_passed_over_in_eviction() {
    let mut q = PriorityQueue::new();
    q.push(vec![1; 300_000], 1, 0);
    q.push(vec![2; 300_000], 2, 0);
    q.push(vec![4; 300_000], 4, 5);
    // at time 10 the scores are 10, 20 and 20: level 4 takes the place of level 2, so after
    // level 4 the next victim is level 1, and level 2 is not considered in this push
    assert!(!q.push_would_stall(600_000, 10));
    q.push(vec![9; 600_000], 9, 10);
    assert_eq!(q.buffered(), 900_000);
    assert_eq!(q.pop(), Some(vec![2; 300_000]));
    assert_eq!(q.pop(), Some(vec![9; 600_000]));
    assert_eq!(q.pop(), None);
}

#[test]
fn eviction_stalls_when_only_tied_levels_are_left() {
    let mut q = PriorityQueue::new();
    q.push(vec![2; 500_000], 2, 0);
    q.push(vec![4; 500_000], 4, 5);
    // level 4 takes the place of level 2; once it is dropped nothing scored is left
    assert!(q.push_would_stall(1_000_000, 10));
    assert!(!q.push_would_stall(100_000, 10));
    assert!(!q.push_would_stall(1_000_000, 11));
    assert_eq!(q.buffered(), 1_000_000);
}

#[test]
fn push_would_stall_is_false_with_room() {
    let q = PriorityQueue::new();
    assert!(!q.push_would_stall(10, 0));
    assert!(!q.push_would_stall(5 * 1024 * 1024, 0));
}

#[test]
fn push_reports_how_many_messages_it_dropped() {
    let mut q = PriorityQueue::new();
    assert_eq!(q.push(vec![1; 400_000], 4, 0), 0);
    assert_eq!(q.push(vec![2; 400_000], 4, 1), 0);
    assert_eq!(q.push(vec![3; 400_000], 4, 2), 1);
    assert_eq!(q.push(vec![5; 2 * 1024 * 1024], 5, 3), 2);
    assert_eq!(q.pop(), Some(vec![5; 2 * 1024 * 1024]));
    assert_eq!(q.pop(), None);
}
