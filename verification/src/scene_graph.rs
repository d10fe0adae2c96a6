use vstd::prelude::*;

verus! {

/// Handle of a node inside its scene graph.
pub type NodeId = usize;

/// A named node of a scene graph, with the handle of its parent and the handles
/// of its children in the order they were attached.
pub struct Node {
    pub name: String,
    parent: Option<NodeId>,
    children: Vec<NodeId>,
}

impl Node {
    /// The handle of the node's parent, if it has one.
    pub closed spec fn parent_link(self) -> Option<NodeId> {
        self.parent
    }

    /// The node's name.
    pub closed spec fn label(self) -> Seq<char> {
        self.name@
    }

    /// The handles of the node's children.
    pub closed spec fn child_links(self) -> Seq<NodeId> {
        self.children@
    }

    /// A detached node called `name`.
    pub fn new(name: String) -> (node: Self)
        ensures
            node.label() == name@,
            node.parent_link() is None,
            node.child_links().len() == 0,
    {
        Node { name, parent: None, children: Vec::new() }
    }
}

/// A scene graph: the nodes it owns, addressed by handle, and its root.
pub struct SceneGraph {
    nodes: Vec<Node>,
    root: NodeId,
}

/// What a reader sees of one node: its name, its parent and its children.
pub ghost struct NodeView {
    pub name: Seq<char>,
    pub parent: Option<NodeId>,
    pub children: Seq<NodeId>,
}

impl SceneGraph {
    /// The nodes, in handle order.
    pub closed spec fn node_views(self) -> Seq<NodeView> {
        self.nodes@.map_values(
            |node: Node| NodeView { name: node.name@, parent: node.parent, children: node.children@ },
        )
    }

    /// The handle of the root.
    pub closed spec fn root_id(self) -> NodeId {
        self.root
    }

    /// Every handle the graph holds names one of its nodes.
    pub open spec fn well_formed(self) -> bool {
        let nodes = self.node_views();
        &&& self.root_id() < nodes.len()
        &&& forall|i: int|
            0 <= i < nodes.len() ==> {
                &&& ((#[trigger] nodes[i]).parent matches Some(p) ==> p < nodes.len())
                &&& forall|j: int|
                    0 <= j < nodes[i].children.len() ==> nodes[i].children[j] < nodes.len()
            }
    }

    /// A graph that holds only `root`.
    pub fn new(root: Node) -> (graph: Self)
        requires
            root.parent_link() is None,
            root.child_links().len() == 0,
        ensures
            graph.well_formed(),
            graph.root_id() == 0,
            graph.node_views().len() == 1,
            graph.node_views()[0] == (NodeView {
                name: root.label(),
                parent: None,
                children: Seq::empty(),
            }),
    {
        let mut nodes: Vec<Node> = Vec::new();
        nodes.push(root);
        let graph = SceneGraph { nodes, root: 0 };
        assert(graph.node_views()[0].children =~= Seq::<NodeId>::empty());
        graph
    }

    /// The handle of the root.
    pub fn root(&self) -> (root: NodeId)
        ensures
            root == self.root_id(),
    {
        self.root
    }

    /// Number of nodes in the graph.
    pub fn len(&self) -> (count: usize)
        ensures
            count == self.node_views().len(),
    {
        self.nodes.len()
    }

    /// Hands a detached node to the graph and returns its handle.
    pub fn insert(&mut self, node: Node) -> (id: NodeId)
        requires
            old(self).well_formed(),
            node.parent_link() is None,
            node.child_links().len() == 0,
        ensures
            final(self).well_formed(),
            id == old(self).node_views().len(),
            final(self).root_id() == old(self).root_id(),
            final(self).node_views() == old(self).node_views().push(
                NodeView { name: node.label(), parent: None, children: Seq::empty() },
            ),
    {
        let id = self.nodes.len();
        let ghost name = node.name@;
        assert(node.children@ =~= Seq::<NodeId>::empty());
        self.nodes.push(node);
        assert(self.node_views() =~= old(self).node_views().push(
            NodeView { name, parent: None, children: Seq::empty() },
        ));
        id
    }

    /// Attaches `child` below `parent`: the child's parent becomes `parent` and the
    /// child is appended to the parent's children. Nothing else changes.
    pub fn add_child(&mut self, parent: NodeId, child: NodeId)
        requires
            old(self).well_formed(),
            parent < old(self).node_views().len(),
            child < old(self).node_views().len(),
        ensures
            final(self).well_formed(),
            final(self).root_id() == old(self).root_id(),
            final(self).node_views() == SceneGraph::attached(old(self).node_views(), parent, child),
    {
        let ghost before = self.node_views();
        let mut moved = Node { name: String::new(), parent: None, children: Vec::new() };
        std::mem::swap(&mut moved, &mut self.nodes[child]);
        moved.parent = Some(parent);
        std::mem::swap(&mut moved, &mut self.nodes[child]);
        let mut host = Node { name: String::new(), parent: None, children: Vec::new() };
        std::mem::swap(&mut host, &mut self.nodes[parent]);
        host.children.push(child);
        std::mem::swap(&mut host, &mut self.nodes[parent]);
        assert(self.node_views() =~= SceneGraph::attached(before, parent, child));
    }

    /// The nodes after attaching `child` below `parent`.
    pub open spec fn attached(nodes: Seq<NodeView>, parent: NodeId, child: NodeId) -> Seq<NodeView> {
        let relinked = nodes.update(
            child as int,
            NodeView { parent: Some(parent), ..nodes[child as int] },
        );
        relinked.update(
            parent as int,
            NodeView {
                children: relinked[parent as int].children.push(child),
                ..relinked[parent as int]
            },
        )
    }

    /// The name of a node.
    pub fn name(&self, id: NodeId) -> (name: &String)
        requires
            id < self.node_views().len(),
        ensures
            name@ == self.node_views()[id as int].name,
    {
        &self.nodes[id].name
    }

    /// The children of a node, in the order they were attached.
    pub fn children(&self, id: NodeId) -> (children: Vec<NodeId>)
        requires
            id < self.node_views().len(),
        ensures
            children@ == self.node_views()[id as int].children,
    {
        self.nodes[id].children.clone()
    }

    /// The parent of a node, if it has one.
    pub fn parent(&self, id: NodeId) -> (parent: Option<NodeId>)
        requires
            id < self.node_views().len(),
        ensures
            parent == self.node_views()[id as int].parent,
    {
        self.nodes[id].parent
    }
}

/// An object of the scene: where it is (`T`) and the objects it carries.
pub struct GameObject<T> {
    transform: T,
    children: Vec<std::rc::Rc<GameObject<T>>>,
}

impl<T> GameObject<T> {
    /// Where the object is.
    pub closed spec fn placement(self) -> T {
        self.transform
    }

    /// The objects it carries, in the order they were added.
    pub closed spec fn carried(self) -> Seq<std::rc::Rc<GameObject<T>>> {
        self.children@
    }

    /// An object at `transform` that carries nothing.
    pub fn empty(transform: T) -> (object: Self)
        ensures
            object.placement() == transform,
            object.carried().len() == 0,
    {
        Self { transform, children: Vec::new() }
    }

    /// Adds `child` after the objects already carried.
    pub fn add_child(&mut self, child: std::rc::Rc<Self>)
        ensures
            final(self).placement() == old(self).placement(),
            final(self).carried() == old(self).carried().push(child),
    {
        self.children.push(child);
    }
}

/// What a read gives back of an attachment: the child's parent is the new parent,
/// the parent's children end with the child, and every other node reads as before.
pub proof fn lemma_attach_read_back(nodes: Seq<NodeView>, parent: NodeId, child: NodeId)
    requires
        parent < nodes.len(),
        child < nodes.len(),
    ensures
        SceneGraph::attached(nodes, parent, child)[child as int].parent == Some(parent),
        SceneGraph::attached(nodes, parent, child)[parent as int].children == nodes[parent as int].children.push(child),
        SceneGraph::attached(nodes, parent, child).len() == nodes.len(),
        forall|i: int|
            0 <= i < nodes.len() && i != parent && i != child ==> #[trigger] SceneGraph::attached(
                nodes,
                parent,
                child,
            )[i] == nodes[i],
{
}

} // verus!
