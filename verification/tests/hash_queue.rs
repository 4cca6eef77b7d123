use serde::de::DeserializeOwned;
use serde::Serialize;
use set_deque::errors::HashQueueError;
use set_deque::hash_queue::members_of;
use set_deque::hash_queue::peeked;
use set_deque::hash_queue::popped;
use set_deque::hash_queue::HashQueue;
use std::fmt::Debug;
use std::hash::Hash;
use std::path::Path;
use std::path::PathBuf;

/// Where the store of a test lives: `db_name` below the scratch directory.
fn store_path(db_name: &str) -> PathBuf {
    Path::new("/tmp/set_deque").join(db_name)
}

/// Opens the queue at `db_name` and empties it, so that every test starts
/// from an empty queue whatever an earlier run left behind.
fn test_setup<T: Hash + Eq + Clone + Serialize + Debug + DeserializeOwned>(
    _: T,
    db_name: &str,
) -> HashQueue<T> {
    let mut set_deque: HashQueue<T> = HashQueue::open(store_path(db_name), "test").unwrap();
    set_deque.clear().unwrap();
    set_deque
}

#[test]
fn should_add_to_hash_queue() {
    let mut hash_queue = test_setup("1".to_string(), "./tests/should_add_to_hash_queue");
    let result = hash_queue.push_back("1".to_string());
    assert_eq!(true, result.unwrap());
}

#[test]
fn should_report_hash_queue_is_empty() {
    let hash_queue = test_setup("1".to_string(), "./tests/should_report_hash_queue_is_empty");
    let result = hash_queue.is_empty();
    assert_eq!(true, result);
}

#[test]
fn should_report_hash_queue_is_not_empty() {
    let mut hash_queue =
        test_setup("1".to_string(), "./tests/should_report_hash_queue_is_not_empty");
    hash_queue.push_back("1".to_string()).unwrap();
    let result = hash_queue.is_empty();
    assert_eq!(false, result);
}

#[test]
fn should_see_front_of_hash_queue_and_dequeue() {
    let mut hash_queue = test_setup(1u64, "./tests/should_see_front_of_hash_queue_and_dequeue");
    hash_queue.push_back(1).unwrap();
    let result = hash_queue.front().unwrap();
    assert_eq!(Some(1), result);
    let result = hash_queue.pop_front().unwrap();
    assert_eq!(Some(1), result);
}

#[test]
fn should_fail_to_add_duplicate_item() {
    let mut hash_queue = test_setup(1u64, "./tests/should_fail_to_add_duplicate_item");
    hash_queue.push_back(1).unwrap();
    let result = hash_queue.push_back(1).unwrap();
    assert_eq!(false, result);
}

#[test]
fn should_empty_hash_queue() {
    let mut hash_queue = test_setup(1u64, "./tests/should_empty_hash_queue");
    hash_queue.push_back(1).unwrap();
    let result = hash_queue.front().unwrap();
    assert_eq!(Some(1), result);
    let result = hash_queue.pop_front().unwrap();
    assert_eq!(Some(1), result);
    assert_eq!(true, hash_queue.is_empty());
}

#[test]
fn should_produce_items_in_correct_order() {
    let mut hash_queue = test_setup(1u64, "./tests/should_produce_items_in_correct_order");

    hash_queue.push_back(1).unwrap();
    hash_queue.push_back(2).unwrap();
    hash_queue.push_back(3).unwrap();

    let one = hash_queue.pop_front().unwrap();
    let two = hash_queue.pop_front().unwrap();
    let three = hash_queue.pop_front().unwrap();

    assert_eq!(one, Some(1));
    assert_eq!(two, Some(2));
    assert_eq!(three, Some(3));
}

#[test]
fn should_produce_items_in_correct_order_reversed() {
    let mut hash_queue =
        test_setup(1u64, "./tests/should_produce_items_in_correct_order_reversed");

    hash_queue.push_back(1).unwrap();
    hash_queue.push_back(2).unwrap();
    hash_queue.push_back(3).unwrap();

    let one = hash_queue.pop_back().unwrap();
    let two = hash_queue.pop_back().unwrap();
    let three = hash_queue.pop_back().unwrap();

    assert_eq!(one, Some(3));
    assert_eq!(two, Some(2));
    assert_eq!(three, Some(1));
}

#[test]
fn push_peek_and_pop_from_both_ends() {
    let mut queue = test_setup(1u64, "./tests/push_peek_and_pop_from_both_ends");
    assert_eq!(queue.push_back(1).unwrap(), true);
    assert_eq!(queue.push_back(2).unwrap(), true);
    assert_eq!(queue.push_back(1).unwrap(), false);
    assert_eq!(queue.front().unwrap(), Some(1));
    assert_eq!(queue.back().unwrap(), Some(2));
    assert_eq!(queue.pop_front().unwrap(), Some(1));
    assert_eq!(queue.pop_back().unwrap(), Some(2));
    assert_eq!(queue.is_empty(), true);
}

#[test]
fn duplicate_push_leaves_contents_unchanged() {
    let mut queue = test_setup("a".to_string(), "./tests/duplicate_push_leaves_contents_unchanged");
    assert_eq!(queue.push_back("a".to_string()).unwrap(), true);
    assert_eq!(queue.push_back("b".to_string()).unwrap(), true);
    assert_eq!(queue.push_back("a".to_string()).unwrap(), false);
    assert_eq!(queue.push_back("b".to_string()).unwrap(), false);
    assert_eq!(queue.pop_front().unwrap(), Some("a".to_string()));
    assert_eq!(queue.pop_front().unwrap(), Some("b".to_string()));
    assert_eq!(queue.pop_front().unwrap(), None);
    assert_eq!(queue.is_empty(), true);
}

#[test]
fn strings_leave_in_the_order_they_came() {
    let mut queue = test_setup("a".to_string(), "./tests/strings_leave_in_the_order_they_came");
    queue.push_back("a".to_string()).unwrap();
    queue.push_back("b".to_string()).unwrap();
    queue.push_back("c".to_string()).unwrap();
    assert_eq!(queue.pop_front().unwrap(), Some("a".to_string()));
    assert_eq!(queue.pop_front().unwrap(), Some("b".to_string()));
    assert_eq!(queue.pop_front().unwrap(), Some("c".to_string()));
}

#[test]
fn strings_leave_newest_first_from_the_back() {
    let mut queue =
        test_setup("a".to_string(), "./tests/strings_leave_newest_first_from_the_back");
    queue.push_back("a".to_string()).unwrap();
    queue.push_back("b".to_string()).unwrap();
    queue.push_back("c".to_string()).unwrap();
    assert_eq!(queue.pop_back().unwrap(), Some("c".to_string()));
    assert_eq!(queue.pop_back().unwrap(), Some("b".to_string()));
    assert_eq!(queue.pop_back().unwrap(), Some("a".to_string()));
}

#[test]
fn order_survives_removals_in_between() {
    let mut queue = test_setup(1u64, "./tests/order_survives_removals_in_between");
    queue.push_back(10).unwrap();
    queue.push_back(20).unwrap();
    assert_eq!(queue.pop_front().unwrap(), Some(10));
    queue.push_back(30).unwrap();
    queue.push_back(10).unwrap();
    assert_eq!(queue.pop_back().unwrap(), Some(10));
    assert_eq!(queue.pop_front().unwrap(), Some(20));
    assert_eq!(queue.pop_front().unwrap(), Some(30));
    assert_eq!(queue.pop_front().unwrap(), None);
}

#[test]
fn reopened_queue_holds_what_was_pushed() {
    let path = "./tests/reopened_queue_holds_what_was_pushed";
    let mut queue = test_setup(1u64, path);
    queue.push_back(7).unwrap();
    queue.push_back(8).unwrap();
    queue.push_back(9).unwrap();
    drop(queue);

    let mut again: HashQueue<u64> = HashQueue::open(store_path(path), "test").unwrap();
    assert_eq!(again.is_empty(), false);
    assert_eq!(again.push_back(8).unwrap(), false);
    assert_eq!(again.front().unwrap(), Some(7));
    assert_eq!(again.back().unwrap(), Some(9));
    assert_eq!(again.pop_front().unwrap(), Some(7));
    assert_eq!(again.pop_back().unwrap(), Some(9));
    assert_eq!(again.push_back(10).unwrap(), true);
    assert_eq!(again.pop_front().unwrap(), Some(8));
    assert_eq!(again.pop_front().unwrap(), Some(10));
    assert_eq!(again.is_empty(), true);
}

#[test]
fn emptiness_follows_one_push_and_one_pop() {
    let mut queue = test_setup(1u64, "./tests/emptiness_follows_one_push_and_one_pop");
    assert_eq!(queue.is_empty(), true);
    queue.push_back(5).unwrap();
    assert_eq!(queue.is_empty(), false);
    assert_eq!(queue.pop_back().unwrap(), Some(5));
    assert_eq!(queue.is_empty(), true);
}

#[test]
fn clearing_an_empty_queue_changes_nothing() {
    let mut queue = test_setup(1u64, "./tests/clearing_an_empty_queue_changes_nothing");
    assert_eq!(queue.is_empty(), true);
    queue.clear().unwrap();
    assert_eq!(queue.is_empty(), true);
    assert_eq!(queue.front().unwrap(), None);
    assert_eq!(queue.back().unwrap(), None);
    queue.clear().unwrap();
    assert_eq!(queue.is_empty(), true);
}

#[test]
fn clear_removes_every_entry() {
    let mut queue = test_setup(1u64, "./tests/clear_removes_every_entry");
    queue.push_back(1).unwrap();
    queue.push_back(2).unwrap();
    queue.clear().unwrap();
    assert_eq!(queue.is_empty(), true);
    assert_eq!(queue.pop_front().unwrap(), None);
    assert_eq!(queue.push_back(1).unwrap(), true);
    assert_eq!(queue.front().unwrap(), Some(1));
}

#[test]
fn peeking_does_not_change_what_pops_return() {
    let mut queue = test_setup(1u64, "./tests/peeking_does_not_change_what_pops_return");
    queue.push_back(1).unwrap();
    queue.push_back(2).unwrap();
    queue.push_back(3).unwrap();
    assert_eq!(queue.front().unwrap(), Some(1));
    assert_eq!(queue.front().unwrap(), Some(1));
    assert_eq!(queue.back().unwrap(), Some(3));
    assert_eq!(queue.back().unwrap(), Some(3));
    assert_eq!(queue.pop_front().unwrap(), Some(1));
    assert_eq!(queue.pop_back().unwrap(), Some(3));
    assert_eq!(queue.pop_front().unwrap(), Some(2));
    assert_eq!(queue.is_empty(), true);
}

#[test]
fn popping_an_empty_queue_gives_nothing() {
    let mut queue = test_setup(1u64, "./tests/popping_an_empty_queue_gives_nothing");
    assert_eq!(queue.pop_front().unwrap(), None);
    assert_eq!(queue.pop_back().unwrap(), None);
    assert_eq!(queue.front().unwrap(), None);
    assert_eq!(queue.back().unwrap(), None);
}

#[test]
fn open_reports_a_store_that_cannot_be_opened() {
    let result: Result<HashQueue<u64>, HashQueueError> =
        HashQueue::open(Path::new("/dev/null/queue"), "test");
    assert!(matches!(result, Err(HashQueueError::SledError { .. })));
}

#[test]
fn open_reports_values_of_another_type() {
    let path = "./tests/open_reports_values_of_another_type";
    let mut numbers = test_setup(1u64, path);
    numbers.push_back(1).unwrap();
    drop(numbers);

    let result: Result<HashQueue<String>, HashQueueError> =
        HashQueue::open(store_path(path), "test");
    assert!(matches!(result, Err(HashQueueError::BinCodeError { .. })));
}

#[test]
fn peeked_passes_the_item_or_the_codec_error() {
    let found: Result<Option<u64>, HashQueueError> = peeked(Ok(4));
    assert_eq!(found.unwrap(), Some(4));
    let failed: Result<Option<u64>, HashQueueError> =
        peeked(Err(Box::new(bincode::ErrorKind::SizeLimit)));
    assert!(matches!(
        failed,
        Err(HashQueueError::BinCodeError { error: bincode::ErrorKind::SizeLimit })
    ));
}

#[test]
fn popped_reports_a_missing_member_as_out_of_sync() {
    assert_eq!(popped(4u64, true, "pop_front").unwrap(), Some(4));
    match popped(4u64, false, "pop_front") {
        Err(HashQueueError::SyncError { message }) => assert_eq!(message, "pop_front"),
        _ => panic!("a missing member must be reported"),
    }
    match popped("x".to_string(), false, "pop_back") {
        Err(HashQueueError::SyncError { message }) => assert_eq!(message, "pop_back"),
        _ => panic!("a missing member must be reported"),
    }
}

#[test]
fn members_of_keeps_each_item_once() {
    let set = members_of(vec![1u64, 2, 1, 3, 2]);
    assert_eq!(set.len(), 3);
    assert!(set.contains(&1));
    assert!(set.contains(&2));
    assert!(set.contains(&3));
    let none = members_of(Vec::<u64>::new());
    assert!(none.is_empty());
}

#[test]
fn pop_front_reports_a_region_that_left_the_set_behind() {
    let path = "./tests/pop_front_reports_a_region_that_left_the_set_behind";
    let mut wide = test_setup(1u64, path);
    wide.push_back(1).unwrap();
    wide.push_back(257).unwrap();
    drop(wide);

    // Read back as single bytes, both entries decode to the same item, so
    // the set holds one member for two entries.
    let mut narrow: HashQueue<u8> = HashQueue::open(store_path(path), "test").unwrap();
    assert_eq!(narrow.pop_front().unwrap(), Some(1));
    match narrow.pop_front() {
        Err(HashQueueError::SyncError { message }) => assert_eq!(message, "pop_front"),
        _ => panic!("the missing member must be reported"),
    }
    assert_eq!(narrow.pop_front().unwrap(), None);
}

#[test]
fn pop_back_reports_a_region_that_left_the_set_behind() {
    let path = "./tests/pop_back_reports_a_region_that_left_the_set_behind";
    let mut wide = test_setup(1u64, path);
    wide.push_back(1).unwrap();
    wide.push_back(257).unwrap();
    drop(wide);

    let mut narrow: HashQueue<u8> = HashQueue::open(store_path(path), "test").unwrap();
    assert_eq!(narrow.pop_back().unwrap(), Some(1));
    match narrow.pop_back() {
        Err(HashQueueError::SyncError { message }) => assert_eq!(message, "pop_back"),
        _ => panic!("the missing member must be reported"),
    }
    assert_eq!(narrow.pop_back().unwrap(), None);
}

#[test]
fn push_back_refuses_a_region_whose_greatest_key_is_no_position() {
    let path = "./tests/push_back_refuses_a_region_whose_greatest_key_is_no_position";
    let mut queue = test_setup(1u64, path);
    queue.push_back(1).unwrap();
    drop(queue);

    let db = sled::open(store_path(path)).unwrap();
    let tree = db.open_tree("test").unwrap();
    tree.insert([0xffu8; 3], bincode::serialize(&2u64).unwrap()).unwrap();
    tree.flush().unwrap();
    drop(tree);
    drop(db);

    let mut again: HashQueue<u64> = HashQueue::open(store_path(path), "test").unwrap();
    assert!(matches!(again.push_back(3), Err(HashQueueError::SledError { .. })));
    assert_eq!(again.push_back(2).unwrap(), false);
    assert_eq!(again.pop_back().unwrap(), Some(2));
    assert_eq!(again.push_back(3).unwrap(), true);
    assert_eq!(again.back().unwrap(), Some(3));
}
