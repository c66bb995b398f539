use vstd::prelude::*;

verus! {

/// A binary tree of `i32` values in which every node owns its children.
#[derive(Debug, PartialEq, Eq)]
pub struct BinaryTree {
    pub value: i32,
    pub left: Option<Box<BinaryTree>>,
    pub right: Option<Box<BinaryTree>>,
}

/// The values of a (possibly empty) tree, read in order: left subtree,
/// node, right subtree.
pub open spec fn inorder(t: Option<Box<BinaryTree>>) -> Seq<i32>
    decreases t,
{
    match t {
        None => Seq::empty(),
        Some(node) => inorder(node.left) + seq![node.value] + inorder(node.right),
    }
}

/// The number of nodes of a (possibly empty) tree.
pub open spec fn size(t: Option<Box<BinaryTree>>) -> nat
    decreases t,
{
    match t {
        None => 0,
        Some(node) => size(node.left) + 1 + size(node.right),
    }
}

/// The number of nodes in the left subtree of the root.
pub open spec fn left_size(t: Option<Box<BinaryTree>>) -> nat {
    match t {
        None => 0,
        Some(node) => size(node.left),
    }
}

impl BinaryTree {
    /// A leaf holding `value`.
    pub fn new(value: i32) -> (r: Self)
        ensures
            r.value == value,
            r.left is None,
            r.right is None,
    {
        BinaryTree { value, left: None, right: None }
    }

    /// The non-empty tree whose root is `node`.
    pub fn wrap(node: BinaryTree) -> (r: Option<Box<BinaryTree>>)
        ensures
            r == Some(Box::new(node)),
    {
        Some(Box::new(node))
    }
}

/// A copy of the tree `t`, node for node.
fn copy_tree(t: &Option<Box<BinaryTree>>) -> (r: Option<Box<BinaryTree>>)
    ensures
        r == *t,
    decreases *t,
{
    match t {
        None => None,
        Some(node) => {
            let left = copy_tree(&node.left);
            let right = copy_tree(&node.right);
            Some(Box::new(BinaryTree { value: node.value, left, right }))
        },
    }
}

/// The values of the tree `root` in order.
///
/// The walk follows Morris's idea of keeping no stack: rather than threading
/// the in-order predecessor back to its successor, it rotates a private copy
/// of the tree to the right while the current node has a left child, so that
/// the next value in order is always at the top.
pub fn morisson_inorder_traversal(root: &Option<Box<BinaryTree>>) -> (r: Vec<i32>)
    ensures
        r@ == inorder(*root),
{
    let mut inorder_traversal: Vec<i32> = Vec::new();
    let mut current = copy_tree(root);
    while current.is_some()
        invariant
            inorder_traversal@ + inorder(current) == inorder(*root),
        decreases size(current), left_size(current),
    {
        let ghost before = current;
        let node = current.unwrap();
        let BinaryTree { value, left, right } = *node;
        assert(inorder(before) == inorder(left) + seq![value] + inorder(right));
        assert(size(before) == size(left) + 1 + size(right));
        match left {
            None => {
                assert(inorder_traversal@.push(value) + inorder(right) =~= inorder_traversal@
                    + inorder(before));
                inorder_traversal.push(value);
                current = right;
            },
            Some(left_node) => {
                let BinaryTree { value: left_value, left: left_left, right: left_right } =
                    *left_node;
                let lowered = BinaryTree { value, left: left_right, right };
                let raised = BinaryTree {
                    value: left_value,
                    left: left_left,
                    right: Some(Box::new(lowered)),
                };
                assert(inorder(left) == inorder(left_left) + seq![left_value] + inorder(
                    left_right,
                ));
                assert(inorder(Some(Box::new(lowered))) == inorder(left_right) + seq![value]
                    + inorder(right));
                assert(inorder(Some(Box::new(raised))) =~= inorder(before));
                assert(size(left) == size(left_left) + 1 + size(left_right));
                assert(size(Some(Box::new(lowered))) == size(left_right) + 1 + size(right));
                assert(size(Some(Box::new(raised))) == size(before));
                current = Some(Box::new(raised));
            },
        }
    }
    inorder_traversal
}

} // verus!
