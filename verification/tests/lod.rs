use opengl_rust::lod::{collect_nodes, Node, NodeType, Planet};

fn children_of(t: &i32, _lod: u32) -> (i32, i32, i32) {
    (t * 10 + 1, t * 10 + 2, t * 10 + 3)
}

#[test]
fn new_node_is_a_leaf() {
    let node = Node::new(7, 2);
    assert_eq!(node.node_type, NodeType::Leaf);
    assert_eq!(node.lod(), 2);
    assert!(node.children.is_empty());
}

#[test]
fn leaf_in_range_splits_into_three() {
    let mut node = Node::new(1, 0);
    node.update(2, &|_: &i32, _: u32| true, &children_of);
    assert_eq!(node.node_type, NodeType::Branch);
    let kids: Vec<(i32, u32, NodeType)> = node
        .children
        .iter()
        .map(|c| (c.transform, c.lod(), c.node_type))
        .collect();
    assert_eq!(
        kids,
        vec![(11, 1, NodeType::Leaf), (12, 1, NodeType::Leaf), (13, 1, NodeType::Leaf)]
    );
}

#[test]
fn deepest_level_does_not_split() {
    let mut node = Node::new(1, 2);
    node.update(2, &|_: &i32, _: u32| true, &children_of);
    assert_eq!(node.node_type, NodeType::Leaf);
    assert!(node.children.is_empty());
}

#[test]
fn branch_out_of_range_merges() {
    let mut node = Node::new(1, 0);
    node.update(3, &|_: &i32, _: u32| true, &children_of);
    node.update(3, &|_: &i32, _: u32| true, &children_of);
    assert_eq!(node.children[0].children.len(), 3);
    node.update(3, &|_: &i32, _: u32| false, &children_of);
    assert_eq!(node.node_type, NodeType::Leaf);
    assert!(node.children.is_empty());
}

#[test]
fn children_refine_before_the_parent() {
    let mut node = Node::new(1, 0);
    node.update(3, &|_: &i32, _: u32| true, &children_of);
    // Only child 12 stays in range; 11 and 13 are asked too, and stay leaves.
    node.update(3, &|t: &i32, l: u32| l == 0 || *t == 12, &children_of);
    let kinds: Vec<NodeType> = node.children.iter().map(|c| c.node_type).collect();
    assert_eq!(kinds, vec![NodeType::Leaf, NodeType::Branch, NodeType::Leaf]);
    assert_eq!(node.children[1].children[0].transform, 121);
}

#[test]
fn drawn_nodes_are_leaves_counted_per_split() {
    let mut planet = Planet::new(0, vec![1, 2, 3]);
    assert_eq!(planet.all_nodes().len(), 3);
    planet.update(3, &|t: &i32, _: u32| *t == 2 || *t == 21, &children_of);
    let drawn: Vec<i32> = planet.all_nodes().iter().map(|n| n.transform).collect();
    assert_eq!(drawn, vec![1, 3, 21, 22, 23]);
    planet.update(3, &|t: &i32, _: u32| *t == 2 || *t == 21, &children_of);
    let drawn: Vec<i32> = planet.all_nodes().iter().map(|n| n.transform).collect();
    // Two branches over three roots: 3 + 2 * 2 leaves.
    assert_eq!(drawn, vec![1, 3, 22, 23, 211, 212, 213]);
    assert!(planet.all_nodes().iter().all(|n| n.node_type == NodeType::Leaf));
}

#[test]
fn collect_nodes_of_an_empty_forest() {
    let nodes: Vec<Node<i32>> = Vec::new();
    assert!(collect_nodes(&nodes).is_empty());
}

fn well_formed(node: &Node<i32>) -> bool {
    match node.node_type {
        NodeType::Leaf => node.children.is_empty(),
        NodeType::Branch => {
            node.children.len() == 3
                && node.children.iter().all(|c| c.lod() == node.lod() + 1 && well_formed(c))
        }
    }
}

#[test]
fn updates_keep_trees_well_formed() {
    let mut node = Node::new(1, 0);
    let patterns: [fn(&i32, u32) -> bool; 4] = [
        |_, _| true,
        |t, _| *t % 2 == 1,
        |_, l| l == 0,
        |t, l| l < 2 || *t > 120,
    ];
    for pattern in patterns.iter().cycle().take(12) {
        node.update(4, pattern, &children_of);
        assert!(well_formed(&node));
    }
}

fn leaf_shaped(node: &Node<i32>) -> bool {
    (node.node_type == NodeType::Leaf) == node.children.is_empty()
        && node.children.iter().all(|c| c.lod() == node.lod() + 1 && leaf_shaped(c))
}

#[test]
fn second_update_keeps_the_root() {
    let in_range = |t: &i32, l: u32| l < 2 || *t == 12;
    for start in [Node::new(1, 0), Node::new(5, 1)] {
        let mut node = start;
        node.update(3, &in_range, &children_of);
        let kind = node.node_type;
        let count = node.children.len();
        node.update(3, &in_range, &children_of);
        assert_eq!(node.node_type, kind);
        assert_eq!(node.children.len(), count);
    }
}

#[test]
fn updates_keep_leaves_childless_and_children_one_deeper() {
    // A branch with two children: not of the three-child shape, but every node is
    // a leaf exactly when it has no children.
    let mut node = Node::new(1, 0);
    node.node_type = NodeType::Branch;
    node.children = vec![Node::new(4, 1), Node::new(5, 1)];
    assert!(leaf_shaped(&node));
    let patterns: [fn(&i32, u32) -> bool; 3] = [|_, _| true, |t, _| *t % 2 == 1, |_, l| l == 0];
    for pattern in patterns.iter().cycle().take(9) {
        node.update(3, pattern, &children_of);
        assert!(leaf_shaped(&node));
    }
    assert_eq!(node.node_type, NodeType::Branch);
}
