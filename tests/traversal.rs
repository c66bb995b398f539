use humble_port_scanner::traversal;
use humble_port_scanner::traversal::BinaryTree;

#[test]
fn inorder_morisson_traversal_tests() {
    let mut root = BinaryTree::new(1);
    let mut root_left = BinaryTree::new(2);

    let mut root_left_right = BinaryTree::new(7);
    root_left_right.left = BinaryTree::wrap(BinaryTree::new(8));
    root_left_right.right = BinaryTree::wrap(BinaryTree::new(9));

    root_left.right = BinaryTree::wrap(root_left_right);
    root.left = BinaryTree::wrap(root_left);
    root.right = BinaryTree::wrap(BinaryTree::new(3));

    let tree = BinaryTree::wrap(root);
    let traversal = traversal::morisson_inorder_traversal(&tree);
    assert_eq!(traversal, vec![2, 8, 7, 9, 1, 3]);
}

#[test]
fn traversal_of_empty_tree_is_empty() {
    assert_eq!(traversal::morisson_inorder_traversal(&None), Vec::<i32>::new());
}

#[test]
fn traversal_of_left_spine_is_reversed_insertion() {
    let mut a = BinaryTree::new(3);
    let mut b = BinaryTree::new(2);
    b.left = BinaryTree::wrap(BinaryTree::new(1));
    a.left = BinaryTree::wrap(b);
    let tree = BinaryTree::wrap(a);
    assert_eq!(traversal::morisson_inorder_traversal(&tree), vec![1, 2, 3]);
    // the walk works on a copy: the tree is unchanged
    let again = traversal::morisson_inorder_traversal(&tree);
    assert_eq!(again, vec![1, 2, 3]);
}

#[test]
fn new_node_is_a_leaf() {
    let n = BinaryTree::new(-4);
    assert_eq!(n.value, -4);
    assert!(n.left.is_none() && n.right.is_none());
    assert_eq!(BinaryTree::wrap(BinaryTree::new(5)), Some(Box::new(BinaryTree::new(5))));
}
