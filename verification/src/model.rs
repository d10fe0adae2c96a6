use vstd::prelude::*;

verus! {

/// A node of a loaded model's scene: the numbers of the meshes it holds and its
/// child nodes.
pub struct ModelNode {
    pub meshes: Vec<u32>,
    pub children: Vec<ModelNode>,
}

/// The mesh numbers of a node and everything below it, in the order a model
/// processes them: the node's own meshes first, then each child's, depth first.
pub open spec fn mesh_order(node: ModelNode) -> Seq<u32>
    decreases node, 1int,
{
    node.meshes@ + forest_mesh_order(node.children@)
}

/// The mesh numbers of the trees `nodes`, tree after tree.
pub open spec fn forest_mesh_order(nodes: Seq<ModelNode>) -> Seq<u32>
    decreases nodes, 0int,
{
    if nodes.len() == 0 {
        Seq::empty()
    } else {
        let last = nodes[nodes.len() - 1];
        proof {
            assert(decreases_to!(nodes => last));
        }
        forest_mesh_order(nodes.subrange(0, nodes.len() - 1)) + mesh_order(last)
    }
}

/// Every mesh entry of `node` and the nodes below it, counted as often as it
/// occurs, without regard to order.
pub open spec fn meshes_below(node: ModelNode) -> vstd::multiset::Multiset<u32>
    decreases node, 1int,
{
    node.meshes@.to_multiset().add(forest_meshes(node.children@))
}

/// Every mesh entry of the trees `nodes`.
pub open spec fn forest_meshes(nodes: Seq<ModelNode>) -> vstd::multiset::Multiset<u32>
    decreases nodes, 0int,
{
    if nodes.len() == 0 {
        vstd::multiset::Multiset::empty()
    } else {
        let last = nodes[nodes.len() - 1];
        proof {
            assert(decreases_to!(nodes => last));
        }
        forest_meshes(nodes.subrange(0, nodes.len() - 1)).add(meshes_below(last))
    }
}

proof fn lemma_forest_meshes(nodes: Seq<ModelNode>)
    ensures
        forest_mesh_order(nodes).to_multiset() =~= forest_meshes(nodes),
    decreases nodes, 0int,
{
    broadcast use vstd::seq_lib::group_to_multiset_ensures;

    if nodes.len() > 0 {
        let last = nodes[nodes.len() - 1];
        let rest = nodes.subrange(0, nodes.len() - 1);
        assert(decreases_to!(nodes => last));
        lemma_forest_meshes(rest);
        lemma_processing_order(last, mesh_order(last));
        vstd::seq_lib::lemma_multiset_commutative(forest_mesh_order(rest), mesh_order(last));
    }
}

/// Processing a node handles every mesh entry of the node and of the nodes below
/// it exactly as often as it occurs there, starting with the node's own meshes in
/// their order; so there are as many steps as mesh entries in the subtree.
pub proof fn lemma_processing_order(node: ModelNode, order: Seq<u32>)
    requires
        order == mesh_order(node),
    ensures
        order.to_multiset() =~= meshes_below(node),
        order.len() >= node.meshes@.len(),
        order.take(node.meshes@.len() as int) =~= node.meshes@,
        order.len() == meshes_below(node).len(),
        node.children@.len() == 0 ==> order =~= node.meshes@,
    decreases node, 1int,
{
    broadcast use vstd::seq_lib::group_to_multiset_ensures;

    assert(decreases_to!(node => node.children));
    assert(decreases_to!(node.children => node.children@));
    lemma_forest_meshes(node.children@);
    vstd::seq_lib::lemma_multiset_commutative(node.meshes@, forest_mesh_order(node.children@));
    if node.children@.len() == 0 {
        assert(forest_mesh_order(node.children@) =~= Seq::<u32>::empty());
    }
}

/// The mesh numbers below `node`, in processing order (see `mesh_order`).
pub fn process_node(node: &ModelNode) -> (order: Vec<u32>)
    ensures
        order@ == mesh_order(*node),
    decreases *node,
{
    let mut order: Vec<u32> = Vec::new();
    let mut i: usize = 0;
    while i < node.meshes.len()
        invariant
            i <= node.meshes@.len(),
            order@ == node.meshes@.take(i as int),
        decreases node.meshes@.len() - i,
    {
        order.push(node.meshes[i]);
        assert(order@ =~= node.meshes@.take(i + 1));
        i = i + 1;
    }
    assert(node.meshes@.take(node.meshes@.len() as int) =~= node.meshes@);
    let mut c: usize = 0;
    while c < node.children.len()
        invariant
            c <= node.children@.len(),
            order@ == node.meshes@ + forest_mesh_order(node.children@.take(c as int)),
        decreases node.children@.len() - c,
    {
        proof {
            assert(decreases_to!(*node => node.children));
            assert(decreases_to!(node.children => node.children@));
            assert(decreases_to!(node.children@ => node.children@[c as int]));
            assert(node.children@.take(c + 1).subrange(0, c as int) =~= node.children@.take(
                c as int,
            ));
        }
        let mut below = process_node(&node.children[c]);
        order.append(&mut below);
        assert(order@ =~= node.meshes@ + forest_mesh_order(node.children@.take(c + 1)));
        c = c + 1;
    }
    assert(node.children@.take(node.children@.len() as int) =~= node.children@);
    order
}

} // verus!
