use opengl_rust::scene_graph::{GameObject, Node, SceneGraph};
use std::rc::Rc;

#[test]
fn new_graph_holds_its_root() {
    let graph = SceneGraph::new(Node::new(String::from("Root")));
    assert_eq!(graph.root(), 0);
    assert_eq!(graph.len(), 1);
    assert_eq!(graph.name(0), "Root");
    assert_eq!(graph.parent(0), None);
    assert!(graph.children(0).is_empty());
}

#[test]
fn attached_child_reads_back() {
    let mut graph = SceneGraph::new(Node::new(String::from("Root")));
    let a = graph.insert(Node::new(String::from("A")));
    let b = graph.insert(Node::new(String::from("B")));
    graph.add_child(graph.root(), a);
    graph.add_child(graph.root(), b);
    graph.add_child(a, b);
    assert_eq!(graph.children(0), vec![a, b]);
    assert_eq!(graph.children(a), vec![b]);
    assert_eq!(graph.parent(a), Some(0));
    // The last attachment wins for the parent link.
    assert_eq!(graph.parent(b), Some(a));
    assert_eq!(graph.name(b), "B");
}

#[test]
fn game_object_collects_children() {
    let mut root = GameObject::empty(0u8);
    root.add_child(Rc::new(GameObject::empty(1u8)));
    root.add_child(Rc::new(GameObject::empty(2u8)));
}
