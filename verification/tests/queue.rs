use data_structures::queue::ShuffleQueue;

#[test]
fn shuffle_queue() {
    let mut test_queue = ShuffleQueue::new();
    let (test_data_1, test_data_2, test_data_3) = (10, 42, 59492957);

    test_queue.queue(test_data_1.clone());
    test_queue.queue(test_data_2.clone());
    test_queue.queue(test_data_3.clone());

    assert!(test_queue.dequeue().unwrap() == test_data_1);
    assert!(test_queue.peek().unwrap() == test_data_2);
    assert!(test_queue.dequeue().unwrap() == test_data_2);
    assert!(test_queue.dequeue().unwrap() == test_data_3);
    assert!(test_queue.dequeue().is_err());
}

#[test]
fn shuffle_queue_count_and_is_empty() {
    let mut queue = ShuffleQueue::new();
    assert!(queue.is_empty());
    assert!(queue.count() == 0);
    assert!(queue.peek().is_err());

    queue.queue(7);
    queue.queue(8);
    assert!(!queue.is_empty());
    assert!(queue.count() == 2);
    assert!(queue.peek().unwrap() == 7);
    assert!(queue.dequeue().unwrap() == 7);
    assert!(queue.count() == 1);
    assert!(queue.dequeue().unwrap() == 8);
    assert!(queue.is_empty());
}
