use data_structures::binary_search_tree::{BinarySearchTree, BinarySearchTreeNode};

#[test]
fn test_bst_insert() {
    let true_tree = BinarySearchTree {
        root: {
            Some(Box::new(BinarySearchTreeNode {
                key: 5isize,
                data: Some("5"),
                left_child: Some(Box::new(BinarySearchTreeNode {
                    key: 1isize,
                    data: Some("1"),
                    left_child: None,
                    right_child: None,
                })),
                right_child: Some(Box::new(BinarySearchTreeNode {
                    key: 10isize,
                    data: Some("10"),
                    left_child: None,
                    right_child: Some(Box::new(BinarySearchTreeNode {
                        key: 100isize,
                        data: Some("degenerate tree"),
                        left_child: None,
                        right_child: None,
                    })),
                })),
            }))
        },
    };
    let mut test_tree = BinarySearchTree::new();
    let _ = test_tree.insert(5isize, "5");
    let _ = test_tree.insert(10isize, "10");
    let _ = test_tree.insert(1isize, "1");
    let _ = test_tree.insert(100isize, "degenerate tree");
    assert_eq!(test_tree, true_tree, "binary tree insert not as expected");
    let true_tree = BinarySearchTree {
        root: {
            Some(Box::new(BinarySearchTreeNode {
                key: 99isize,
                data: Some(99),
                left_child: Some(Box::new(BinarySearchTreeNode {
                    key: 12isize,
                    data: Some(12),
                    left_child: None,
                    right_child: None,
                })),
                right_child: None,
            }))
        },
    };
    let mut test_tree = BinarySearchTree::new();
    let _ = test_tree.insert(99isize, 99);
    let _ = test_tree.insert(12isize, 12);
    assert_eq!(test_tree, true_tree, "binary tree insert not as expected");
    assert!(
        test_tree.insert(12isize, 23535).is_err(),
        "inserted key that already exists"
    );
}

#[test]
fn test_bst_remove() {
    let true_tree = BinarySearchTree {
        root: {
            Some(Box::new(BinarySearchTreeNode {
                key: 100isize,
                data: Some("degenerate tree"),
                left_child: None,
                right_child: None,
            }))
        },
    };
    let mut test_tree = BinarySearchTree {
        root: {
            Some(Box::new(BinarySearchTreeNode {
                key: 5isize,
                data: Some("5"),
                left_child: Some(Box::new(BinarySearchTreeNode {
                    key: 1isize,
                    data: Some("1"),
                    left_child: None,
                    right_child: None,
                })),
                right_child: Some(Box::new(BinarySearchTreeNode {
                    key: 10isize,
                    data: Some("10"),
                    left_child: None,
                    right_child: Some(Box::new(BinarySearchTreeNode {
                        key: 100isize,
                        data: Some("degenerate tree"),
                        left_child: None,
                        right_child: None,
                    })),
                })),
            }))
        },
    };
    let _ = test_tree.remove(5isize);
    let _ = test_tree.remove(10isize);
    let _ = test_tree.remove(1isize);
    assert_eq!(test_tree, true_tree, "binary tree remove not as expected");
    assert!(
        test_tree.remove(5isize).is_err(),
        "removed value that doesn't exist"
    );
}

#[test]
fn test_bst_depth() {
    let true_tree = BinarySearchTree {
        root: {
            Some(Box::new(BinarySearchTreeNode {
                key: 5isize,
                data: Some("5"),
                left_child: Some(Box::new(BinarySearchTreeNode {
                    key: 1isize,
                    data: Some("1"),
                    left_child: None,
                    right_child: None,
                })),
                right_child: Some(Box::new(BinarySearchTreeNode {
                    key: 10isize,
                    data: Some("10"),
                    left_child: None,
                    right_child: Some(Box::new(BinarySearchTreeNode {
                        key: 100isize,
                        data: Some("degenerate tree"),
                        left_child: None,
                        right_child: None,
                    })),
                })),
            }))
        },
    };
    assert_eq!(
        true_tree.depth(100).unwrap(),
        2,
        "binary tree depth not as expected"
    );
    assert_eq!(
        true_tree.depth(5).unwrap(),
        0,
        "binary tree depth not as expected"
    );
    assert_eq!(
        true_tree.depth(10).unwrap(),
        1,
        "binary tree depth not as expected"
    );
    assert!(
        true_tree.depth(9999).is_err(),
        "found depth of non existent key"
    );
}

#[test]
fn bst_search_and_removed_payloads() {
    let mut tree = BinarySearchTree::new();
    let _ = tree.insert(8, 80);
    let _ = tree.insert(3, 30);
    let _ = tree.insert(13, 130);
    let _ = tree.insert(5, 50);

    assert!(tree.search(3).unwrap() == 30);
    assert!(tree.search(8).unwrap() == 80);
    assert!(tree.search(4).is_err());

    assert!(tree.remove(8).unwrap() == 80);
    assert!(tree.search(8).is_err());
    assert!(tree.search(13).unwrap() == 130);
    assert!(tree.remove(3).unwrap() == 30);
    assert!(tree.remove(13).unwrap() == 130);
    assert!(tree.remove(5).unwrap() == 50);
    assert!(tree.remove(5).is_err());
    let mut empty_tree: BinarySearchTree<u8> = BinarySearchTree::new();
    assert!(empty_tree.search(1).is_err());
    assert!(empty_tree.remove(1).is_err());
}

#[test]
fn bst_height() {
    let tree = BinarySearchTree {
        root: {
            Some(Box::new(BinarySearchTreeNode {
                key: 5isize,
                data: Some(5),
                left_child: Some(Box::new(BinarySearchTreeNode {
                    key: 1isize,
                    data: Some(1),
                    left_child: None,
                    right_child: None,
                })),
                right_child: Some(Box::new(BinarySearchTreeNode {
                    key: 10isize,
                    data: Some(10),
                    left_child: None,
                    right_child: Some(Box::new(BinarySearchTreeNode {
                        key: 100isize,
                        data: Some(100),
                        left_child: None,
                        right_child: None,
                    })),
                })),
            }))
        },
    };
    assert_eq!(tree.height().unwrap(), 2);
    let single = BinarySearchTree {
        root: Some(Box::new(BinarySearchTreeNode {
            key: 7isize,
            data: Some(7),
            left_child: None,
            right_child: None,
        })),
    };
    assert_eq!(single.height().unwrap(), 0);
    let empty: BinarySearchTree<u8> = BinarySearchTree { root: None };
    assert!(empty.height().is_err());
}
