use data_structures::stack::{ListStack, VecStack};

#[test]
fn vec_stack_count() {
    let mut test_stack = VecStack::new();
    let (test_data_1, test_data_2, test_data_3) = (10, 42, 59492957);

    assert!(test_stack.count() == 0);
    test_stack.push(test_data_1.clone());
    assert!(test_stack.count() == 1);
    test_stack.push(test_data_2.clone());
    assert!(test_stack.count() == 2);
    test_stack.push(test_data_3.clone());
    assert!(test_stack.count() == 3);
}

#[test]
fn vec_stack_push() {
    let mut test_stack = VecStack::new();
    let (test_data_1, test_data_2, test_data_3) = (10, 42, 59492957);

    test_stack.push(test_data_1.clone());
    test_stack.push(test_data_2.clone());
    test_stack.push(test_data_3.clone());
    assert!(test_stack.count() == 3);
    assert!(test_stack.is_empty() == false);
}

#[test]
fn vec_stack_pop() {
    let mut test_stack = VecStack::new();
    let (test_data_1, test_data_2, test_data_3) = (10, 42, 59492957);

    test_stack.push(test_data_1.clone());
    test_stack.push(test_data_2.clone());
    test_stack.push(test_data_3.clone());

    assert!(test_stack.pop().unwrap() == test_data_3);
    assert!(test_stack.pop().unwrap() == test_data_2);
    assert!(test_stack.pop().unwrap() == test_data_1);

    assert!(test_stack.count() == 0);
    assert!(test_stack.is_empty());
    assert!(test_stack.pop().is_err());
}

#[test]
fn vec_stack_peek() {
    let mut test_stack = VecStack::new();
    let (test_data_1, test_data_2, test_data_3) = (10, 42, 59492957);

    test_stack.push(test_data_1.clone());
    test_stack.push(test_data_2.clone());
    test_stack.push(test_data_3.clone());

    assert!(test_stack.peek().unwrap() == test_data_3);
    assert!(test_stack.pop().unwrap() == test_data_3);
    assert!(test_stack.peek().unwrap() == test_data_2);
    assert!(test_stack.pop().unwrap() == test_data_2);
    assert!(test_stack.peek().unwrap() == test_data_1);
    assert!(test_stack.pop().unwrap() == test_data_1);
    assert!(test_stack.is_empty());
    assert!(test_stack.peek().is_err());
}

#[test]
fn list_stack_count() {
    let mut test_stack = ListStack::new();
    let (test_data_1, test_data_2, test_data_3) = (10, 42, 59492957);

    assert!(test_stack.count() == 0);
    test_stack.push(test_data_1.clone());
    assert!(test_stack.count() == 1);
    test_stack.push(test_data_2.clone());
    assert!(test_stack.count() == 2);
    test_stack.push(test_data_3.clone());
    assert!(test_stack.count() == 3);
}

#[test]
fn list_stack_push() {
    let mut test_stack = ListStack::new();
    let (test_data_1, test_data_2, test_data_3) = (10, 42, 59492957);

    test_stack.push(test_data_1.clone());
    test_stack.push(test_data_2.clone());
    test_stack.push(test_data_3.clone());
    assert!(test_stack.count() == 3);
    assert!(test_stack.is_empty() == false);
}

#[test]
fn list_stack_pop() {
    let mut test_stack = ListStack::new();
    let (test_data_1, test_data_2, test_data_3) = (10, 42, 59492957);

    test_stack.push(test_data_1.clone());
    test_stack.push(test_data_2.clone());
    test_stack.push(test_data_3.clone());

    assert!(test_stack.pop().unwrap() == test_data_3);
    assert!(test_stack.pop().unwrap() == test_data_2);
    assert!(test_stack.pop().unwrap() == test_data_1);

    assert!(test_stack.count() == 0);
    assert!(test_stack.is_empty());
    assert!(test_stack.pop().is_err());
}

#[test]
fn list_stack_peek() {
    let mut test_stack = ListStack::new();
    let (test_data_1, test_data_2, test_data_3) = (10, 42, 59492957);

    test_stack.push(test_data_1.clone());
    test_stack.push(test_data_2.clone());
    test_stack.push(test_data_3.clone());

    assert!(test_stack.peek().unwrap() == test_data_3);
    assert!(test_stack.pop().unwrap() == test_data_3);
    assert!(test_stack.peek().unwrap() == test_data_2);
    assert!(test_stack.pop().unwrap() == test_data_2);
    assert!(test_stack.peek().unwrap() == test_data_1);
    assert!(test_stack.pop().unwrap() == test_data_1);
    assert!(test_stack.is_empty());
    assert!(test_stack.peek().is_err());
}
