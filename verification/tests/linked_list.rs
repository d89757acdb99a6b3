use data_structures::linked_list::LinkedList;

#[test]
fn linked_list_insert_first_and_remove_first() {
    let mut test_list = LinkedList::new();
    let (test_data_1, test_data_2, test_data_3, test_data_4, test_data_5) =
        (10, 42, 59492957, -2222, -9683491);

    test_list.insert_first(test_data_1.clone());
    assert!(
        test_list.peek_first().is_ok(),
        "failed to insert first data object"
    );
    test_list.insert_first(test_data_2.clone());
    assert!(
        test_list.peek_first().is_ok(),
        "failed to insert second data object"
    );
    test_list.insert_first(test_data_3.clone());
    assert!(
        test_list.peek_first().is_ok(),
        "failed to insert third data object"
    );
    test_list.insert_first(test_data_4.clone());
    assert!(
        test_list.peek_first().is_ok(),
        "failed to insert fourth data object"
    );
    test_list.insert_first(test_data_5.clone());
    assert!(
        test_list.peek_first().is_ok(),
        "failed to insert fifth data object"
    );

    assert!(
        test_list.remove_first().unwrap() == test_data_5,
        "first item doesn't match"
    );
    assert!(
        test_list.remove_first().unwrap() == test_data_4,
        "second item doesn't match"
    );
    assert!(
        test_list.remove_first().unwrap() == test_data_3,
        "third item doesn't match"
    );
    assert!(
        test_list.remove_first().unwrap() == test_data_2,
        "fourth item doesn't match"
    );
    assert!(
        test_list.remove_first().unwrap() == test_data_1,
        "fifth item doesn't match"
    );
    assert!(
        test_list.remove_first().is_err(),
        "item was removed from empty list"
    );
}

#[test]
fn linked_list_insert_first_and_remove_last() {
    let mut test_list = LinkedList::new();
    let (test_data_1, test_data_2, test_data_3, test_data_4, test_data_5) =
        (10, 42, 59492957, -2222, -9683491);

    test_list.insert_last(test_data_1.clone());
    assert!(
        test_list.peek_first().is_ok(),
        "failed to insert first data object"
    );
    test_list.insert_first(test_data_2.clone());
    assert!(
        test_list.peek_first().is_ok(),
        "failed to insert second data object"
    );
    test_list.insert_first(test_data_3.clone());
    assert!(
        test_list.peek_first().is_ok(),
        "failed to insert third data object"
    );
    test_list.insert_first(test_data_4.clone());
    assert!(
        test_list.peek_first().is_ok(),
        "failed to insert fourth data object"
    );
    test_list.insert_first(test_data_5.clone());
    assert!(
        test_list.peek_first().is_ok(),
        "failed to insert fifth data object"
    );

    assert!(
        test_list.remove_last().unwrap() == test_data_1,
        "first item doesn't match"
    );
    assert!(
        test_list.remove_last().unwrap() == test_data_2,
        "second item doesn't match"
    );
    assert!(
        test_list.remove_last().unwrap() == test_data_3,
        "third item doesn't match"
    );
    assert!(
        test_list.remove_last().unwrap() == test_data_4,
        "fourth item doesn't match"
    );
    assert!(
        test_list.remove_last().unwrap() == test_data_5,
        "fifth item doesn't match"
    );
    assert!(
        test_list.remove_last().is_err(),
        "item was removed from empty list"
    );
}

#[test]
fn linked_list_peek_both_ends() {
    let mut list = LinkedList::new();
    assert!(list.is_empty());
    assert!(list.peek_first().is_err());
    assert!(list.peek_last().is_err());

    list.insert_last(1);
    list.insert_last(2);
    list.insert_first(0);
    assert!(!list.is_empty());
    assert!(*list.peek_first().unwrap() == 0);
    assert!(*list.peek_last().unwrap() == 2);
}

#[test]
fn linked_list_into_iter_both_ends() {
    let mut list = LinkedList::new();
    list.insert_last(1);
    list.insert_last(2);
    list.insert_last(3);
    list.insert_last(4);

    let mut iter = list.into_iter();
    assert_eq!(iter.next(), Some(1));
    assert_eq!(iter.next_back(), Some(4));
    assert_eq!(iter.next(), Some(2));
    assert_eq!(iter.next_back(), Some(3));
    assert_eq!(iter.next(), None);
    assert_eq!(iter.next_back(), None);
}
