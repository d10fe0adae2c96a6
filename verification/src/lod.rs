use vstd::prelude::*;

verus! {

/// Whether a node of the level-of-detail tree is drawn itself or through its children.
#[derive(Debug, Copy, Clone, PartialEq, Eq, Structural)]
pub enum NodeType {
    Leaf,
    Branch,
}

/// A node of a level-of-detail tree over a planet face. `T` is the node's placement
/// in the world; `lod` is its depth in the tree.
pub struct Node<T> {
    pub transform: T,
    pub node_type: NodeType,
    pub lod: u32,
    pub children: Vec<Node<T>>,
}

impl<T> Node<T> {
    /// The depth of the node in its tree.
    pub open spec fn level(self) -> u32 {
        self.lod
    }

    /// A leaf at depth `lod` placed at `transform`.
    pub open spec fn fresh(transform: T, lod: u32, node: Node<T>) -> bool {
        &&& node.transform == transform
        &&& node.node_type == NodeType::Leaf
        &&& node.lod == lod
        &&& node.children@.len() == 0
    }

    /// A leaf holds no children; a branch holds exactly three, one level deeper,
    /// each of them well formed too.
    pub open spec fn well_formed(self) -> bool
        decreases self,
    {
        match self.node_type {
            NodeType::Leaf => self.children@.len() == 0,
            NodeType::Branch => {
                &&& self.children@.len() == 3
                &&& self.lod < u32::MAX
                &&& forall|i: int|
                    0 <= i < 3 ==> {
                        &&& (#[trigger] self.children@[i]).lod == self.lod + 1
                        &&& self.children@[i].well_formed()
                    }
            },
        }
    }

    /// One refinement step of a tree, as `update` makes it. A node at depth
    /// `levels` or deeper stays as it is. Any other node asks `in_range` once and
    /// becomes a branch exactly when it answered `true`. A branch that becomes a
    /// leaf loses its children; any other node keeps its children, each refined in
    /// turn, and a leaf that becomes a branch gains three new leaves one level
    /// deeper after them, placed where `subdivide` says.
    pub open spec fn lod_step<F: Fn(&T, u32) -> bool, G: Fn(&T, u32) -> (T, T, T)>(
        old: Node<T>,
        new: Node<T>,
        levels: nat,
        in_range: F,
        subdivide: G,
    ) -> bool
        decreases old,
    {
        if levels <= old.lod {
            new == old
        } else {
            let split = new.node_type == NodeType::Branch;
            let n = old.children@.len() as int;
            &&& new.transform == old.transform
            &&& new.lod == old.lod
            &&& call_ensures(in_range, (&old.transform, old.lod), split)
            &&& old.node_type == NodeType::Branch && !split ==> new.children@.len() == 0
            &&& !(old.node_type == NodeType::Branch && !split) ==> {
                let grows = old.node_type == NodeType::Leaf && split;
                &&& new.children@.len() == n + if grows {
                    3int
                } else {
                    0int
                }
                &&& forall|i: int|
                    0 <= i < n ==> Node::lod_step(
                        #[trigger] old.children@[i],
                        new.children@[i],
                        levels,
                        in_range,
                        subdivide,
                    )
                &&& grows ==> {
                    &&& call_ensures(
                        subdivide,
                        (&old.transform, old.lod),
                        (
                            new.children@[n].transform,
                            new.children@[n + 1].transform,
                            new.children@[n + 2].transform,
                        ),
                    )
                    &&& forall|i: int|
                        n <= i < n + 3 ==> Node::fresh(
                            (#[trigger] new.children@[i]).transform,
                            (old.lod + 1) as u32,
                            new.children@[i],
                        )
                }
            }
        }
    }

    /// A refinement step keeps the node's depth.
    pub proof fn lemma_step_keeps_level<F: Fn(&T, u32) -> bool, G: Fn(&T, u32) -> (T, T, T)>(
        old: Node<T>,
        new: Node<T>,
        levels: nat,
        in_range: F,
        subdivide: G,
    )
        requires
            Node::lod_step(old, new, levels, in_range, subdivide),
        ensures
            new.level() == old.level(),
    {
    }

    /// Refining a well-formed tree gives a well-formed tree: leaves stay without
    /// children and every branch keeps exactly three children one level deeper.
    pub proof fn lemma_step_keeps_well_formed<
        F: Fn(&T, u32) -> bool,
        G: Fn(&T, u32) -> (T, T, T),
    >(old: Node<T>, new: Node<T>, levels: nat, in_range: F, subdivide: G)
        requires
            old.well_formed(),
            Node::lod_step(old, new, levels, in_range, subdivide),
            levels <= u32::MAX,
        ensures
            new.well_formed(),
        decreases old,
    {
        if levels > old.lod && new.node_type == NodeType::Branch && old.node_type
            == NodeType::Branch {
            assert forall|i: int| 0 <= i < 3 implies {
                &&& (#[trigger] new.children@[i]).lod == new.lod + 1
                &&& new.children@[i].well_formed()
            } by {
                assert(decreases_to!(old => old.children));
                assert(decreases_to!(old.children => old.children@));
                assert(decreases_to!(old.children@ => old.children@[i]));
                Node::lemma_step_keeps_level(
                    old.children@[i],
                    new.children@[i],
                    levels,
                    in_range,
                    subdivide,
                );
                Node::lemma_step_keeps_well_formed(
                    old.children@[i],
                    new.children@[i],
                    levels,
                    in_range,
                    subdivide,
                );
            }
        } else if levels > old.lod && new.node_type == NodeType::Branch {
            assert(old.children@.len() == 0);
            assert forall|i: int| 0 <= i < 3 implies {
                &&& (#[trigger] new.children@[i]).lod == new.lod + 1
                &&& new.children@[i].well_formed()
            } by {
                assert(Node::fresh(new.children@[i].transform, (old.lod + 1) as u32, new.children@[i]));
                assert(new.children@[i].well_formed());
            }
        }
    }

    /// In this node and every node below it, a node is a leaf exactly when it has
    /// no children, and each child is one level deeper than its parent.
    pub open spec fn leaf_shaped(self) -> bool
        decreases self,
    {
        &&& (self.node_type == NodeType::Leaf) == (self.children@.len() == 0)
        &&& forall|i: int|
            0 <= i < self.children@.len() ==> {
                &&& (#[trigger] self.children@[i]).lod == self.lod + 1
                &&& self.children@[i].leaf_shaped()
            }
    }

    /// Refining a tree in which a node is a leaf exactly when it has no children,
    /// and each child is one level deeper, gives a tree of which the same holds.
    pub proof fn lemma_step_keeps_leaf_shaped<
        F: Fn(&T, u32) -> bool,
        G: Fn(&T, u32) -> (T, T, T),
    >(old: Node<T>, new: Node<T>, levels: nat, in_range: F, subdivide: G)
        requires
            old.leaf_shaped(),
            Node::lod_step(old, new, levels, in_range, subdivide),
            levels <= u32::MAX,
        ensures
            new.leaf_shaped(),
        decreases old,
    {
        if levels > old.lod {
            let n = old.children@.len() as int;
            assert forall|i: int| 0 <= i < new.children@.len() implies {
                &&& (#[trigger] new.children@[i]).lod == new.lod + 1
                &&& new.children@[i].leaf_shaped()
            } by {
                if i < n {
                    assert(decreases_to!(old => old.children));
                    assert(decreases_to!(old.children => old.children@));
                    assert(decreases_to!(old.children@ => old.children@[i]));
                    Node::lemma_step_keeps_level(
                        old.children@[i],
                        new.children@[i],
                        levels,
                        in_range,
                        subdivide,
                    );
                    Node::lemma_step_keeps_leaf_shaped(
                        old.children@[i],
                        new.children@[i],
                        levels,
                        in_range,
                        subdivide,
                    );
                } else {
                    assert(old.node_type == NodeType::Leaf);
                    assert(Node::fresh(
                        new.children@[i].transform,
                        (old.lod + 1) as u32,
                        new.children@[i],
                    ));
                    assert(new.children@[i].children@.len() == 0);
                    assert(new.children@[i].leaf_shaped());
                }
            }
        }
    }

    /// `in_range` answers the same for the same placement and depth.
    pub open spec fn deterministic<F: Fn(&T, u32) -> bool>(in_range: F) -> bool {
        forall|t: &T, l: u32, a: bool, b: bool|
            #[trigger] call_ensures(in_range, (t, l), a) && #[trigger] call_ensures(
                in_range,
                (t, l),
                b,
            ) ==> a == b
    }

    /// A second refinement with the same arguments and a deterministic range test
    /// leaves the node a leaf or a branch as the first made it, with as many
    /// children: a branch is not split again and a leaf stays merged.
    pub proof fn lemma_second_step_keeps_node<
        F: Fn(&T, u32) -> bool,
        G: Fn(&T, u32) -> (T, T, T),
    >(first: Node<T>, second: Node<T>, third: Node<T>, levels: nat, in_range: F, subdivide: G)
        requires
            Node::<T>::deterministic(in_range),
            Node::lod_step(first, second, levels, in_range, subdivide),
            Node::lod_step(second, third, levels, in_range, subdivide),
        ensures
            third.node_type == second.node_type,
            third.children@.len() == second.children@.len(),
    {
        if levels > first.lod {
            let a = second.node_type == NodeType::Branch;
            let b = third.node_type == NodeType::Branch;
            assert(call_ensures(in_range, (&first.transform, first.lod), a));
            assert(call_ensures(in_range, (&second.transform, second.lod), b));
            assert(a == b);
        }
    }

    /// What one refinement step does to a node. A node at depth `levels` or deeper
    /// is left as it is. Any other node keeps its placement and depth and becomes
    /// a branch exactly when `in_range` answered `true` for its placement and
    /// depth. A branch that becomes a leaf drops all its children; a node that
    /// keeps its kind keeps as many children as it had, each with its placement
    /// and depth.
    pub proof fn lemma_step_outcome<F: Fn(&T, u32) -> bool, G: Fn(&T, u32) -> (T, T, T)>(
        old: Node<T>,
        new: Node<T>,
        levels: nat,
        in_range: F,
        subdivide: G,
    )
        requires
            Node::lod_step(old, new, levels, in_range, subdivide),
        ensures
            levels <= old.lod ==> new == old,
            levels > old.lod ==> {
                &&& new.transform == old.transform
                &&& new.lod == old.lod
                &&& call_ensures(
                    in_range,
                    (&old.transform, old.lod),
                    new.node_type == NodeType::Branch,
                )
                &&& old.node_type == NodeType::Branch && new.node_type == NodeType::Leaf
                    ==> new.children@.len() == 0
                &&& old.node_type == new.node_type ==> {
                    &&& new.children@.len() == old.children@.len()
                    &&& forall|i: int|
                        0 <= i < old.children@.len() ==> {
                            &&& (#[trigger] new.children@[i]).transform
                                == old.children@[i].transform
                            &&& new.children@[i].lod == old.children@[i].lod
                        }
                }
            },
    {
        if levels > old.lod && old.node_type == new.node_type {
            assert forall|i: int| 0 <= i < old.children@.len() implies {
                &&& (#[trigger] new.children@[i]).transform == old.children@[i].transform
                &&& new.children@[i].lod == old.children@[i].lod
            } by {
                assert(Node::lod_step(
                    old.children@[i],
                    new.children@[i],
                    levels,
                    in_range,
                    subdivide,
                ));
            }
        }
    }

    /// When a leaf shallower than `levels` splits, it keeps its placement and depth
    /// and gains three new children after any it had: leaves without children,
    /// one level deeper, placed where `subdivide` puts them for the splitting
    /// node's own placement and its own depth.
    pub proof fn lemma_split_places_children<
        F: Fn(&T, u32) -> bool,
        G: Fn(&T, u32) -> (T, T, T),
    >(old: Node<T>, new: Node<T>, levels: nat, in_range: F, subdivide: G)
        requires
            Node::lod_step(old, new, levels, in_range, subdivide),
            old.lod < levels,
            levels <= u32::MAX,
            old.node_type == NodeType::Leaf,
            new.node_type == NodeType::Branch,
        ensures
            new.transform == old.transform,
            new.lod == old.lod,
            call_ensures(in_range, (&old.transform, old.lod), true),
            new.children@.len() == old.children@.len() + 3,
            call_ensures(
                subdivide,
                (&old.transform, old.lod),
                (
                    new.children@[old.children@.len() as int].transform,
                    new.children@[old.children@.len() as int + 1].transform,
                    new.children@[old.children@.len() as int + 2].transform,
                ),
            ),
            forall|i: int|
                old.children@.len() <= i < new.children@.len() ==> {
                    &&& (#[trigger] new.children@[i]).node_type == NodeType::Leaf
                    &&& new.children@[i].lod == old.lod + 1
                    &&& new.children@[i].children@.len() == 0
                },
    {
        assert(old.lod + 1 <= levels);
        let n = old.children@.len() as int;
        assert forall|i: int| n <= i < new.children@.len() implies {
            &&& (#[trigger] new.children@[i]).node_type == NodeType::Leaf
            &&& new.children@[i].lod == old.lod + 1
            &&& new.children@[i].children@.len() == 0
        } by {
            assert(Node::fresh(new.children@[i].transform, (old.lod + 1) as u32, new.children@[i]));
        }
    }

    /// A new leaf at depth `lod`.
    pub fn new(transform: T, lod: u32) -> (node: Self)
        ensures
            Node::fresh(transform, lod, node),
            node.well_formed(),
    {
        Self { transform, node_type: NodeType::Leaf, lod, children: Vec::new() }
    }

    /// The depth of the node in its tree.
    pub fn lod(&self) -> (lod: u32)
        ensures
            lod == self.level(),
    {
        self.lod
    }

    /// Refines the tree below this node for `lod_levels` levels of detail:
    /// children first, then this node, as `lod_step` describes.
    pub fn update<F: Fn(&T, u32) -> bool, G: Fn(&T, u32) -> (T, T, T)>(
        &mut self,
        lod_levels: usize,
        in_range: &F,
        subdivide: &G,
    )
        requires
            lod_levels <= u32::MAX,
            forall|t: &T, l: u32| in_range.requires((t, l)),
            forall|t: &T, l: u32| subdivide.requires((t, l)),
        ensures
            Node::lod_step(*old(self), *final(self), lod_levels as nat, *in_range, *subdivide),
        decreases *old(self),
    {
        if lod_levels <= self.lod as usize {
            return ;
        }
        let ghost before = *self;
        let ghost old_children = self.children@;
        let mut pending: Vec<Node<T>> = Vec::new();
        std::mem::swap(&mut pending, &mut self.children);
        let mut updated: Vec<Node<T>> = Vec::new();
        let ghost n = old_children.len();
        while pending.len() > 0
            invariant
                lod_levels <= u32::MAX,
                forall|t: &T, l: u32| in_range.requires((t, l)),
                forall|t: &T, l: u32| subdivide.requires((t, l)),
                before == *old(self),
                old_children == before.children@,
                n == old_children.len(),
                self.transform == before.transform,
                self.lod == before.lod,
                self.node_type == before.node_type,
                self.children@.len() == 0,
                updated@.len() + pending@.len() == n,
                pending@ == old_children.subrange(updated@.len() as int, n as int),
                forall|i: int|
                    0 <= i < updated@.len() ==> Node::lod_step(
                        #[trigger] old_children[i],
                        updated@[i],
                        lod_levels as nat,
                        *in_range,
                        *subdivide,
                    ),
            decreases pending@.len(),
        {
            let ghost k = updated@.len() as int;
            let mut child = pending.remove(0);
            assert(child == old_children[k]);
            assert(decreases_to!(before => before.children));
            assert(decreases_to!(before.children => before.children@));
            assert(decreases_to!(before.children@ => before.children@[k]));
            child.update(lod_levels, in_range, subdivide);
            updated.push(child);
            assert(pending@ =~= old_children.subrange(updated@.len() as int, n as int));
        }
        self.children = updated;
        assert(self.children@.len() == n);
        let within = in_range(&self.transform, self.lod);
        if within && self.node_type == NodeType::Leaf {
            self.node_type = NodeType::Branch;
            let (first, second, third) = subdivide(&self.transform, self.lod);
            let lod = self.lod + 1;
            self.children.push(Node::new(first, lod));
            self.children.push(Node::new(second, lod));
            self.children.push(Node::new(third, lod));
        } else if !within && self.node_type == NodeType::Branch {
            self.node_type = NodeType::Leaf;
            self.children.clear();
        }
    }
}

/// The leaves among `nodes`, in their order.
pub open spec fn leaves_of<T>(nodes: Seq<Node<T>>) -> Seq<Node<T>> {
    nodes.filter(|node: Node<T>| node.node_type == NodeType::Leaf)
}

/// The nodes drawn for a forest: its own leaves in order, then, branch after
/// branch in order, the nodes drawn for that branch's children.
pub open spec fn collected<T>(nodes: Seq<Node<T>>) -> Seq<Node<T>>
    decreases nodes, 1int,
{
    leaves_of(nodes) + collected_below(nodes)
}

/// The nodes drawn below the branches of `nodes`, branch after branch.
pub open spec fn collected_below<T>(nodes: Seq<Node<T>>) -> Seq<Node<T>>
    decreases nodes, 0int,
{
    if nodes.len() == 0 {
        Seq::empty()
    } else {
        let last = nodes[nodes.len() - 1];
        let rest = nodes.subrange(0, nodes.len() - 1);
        let deeper = if last.node_type == NodeType::Branch {
            proof {
                assert(decreases_to!(nodes => last));
                assert(decreases_to!(last => last.children));
                assert(decreases_to!(last.children => last.children@));
            }
            collected(last.children@)
        } else {
            Seq::empty()
        };
        collected_below(rest) + deeper
    }
}

/// The nodes that references point to.
pub open spec fn targets<T>(refs: Seq<&Node<T>>) -> Seq<Node<T>> {
    refs.map_values(|r: &Node<T>| *r)
}

/// Only leaves are drawn.
pub proof fn lemma_collected_are_leaves<T>(nodes: Seq<Node<T>>)
    ensures
        forall|k: int|
            0 <= k < collected(nodes).len() ==> (#[trigger] collected(nodes)[k]).node_type
                == NodeType::Leaf,
    decreases nodes, 1int,
{
    lemma_below_are_leaves(nodes);
    broadcast use vstd::seq_lib::group_filter_ensures;

    let leaves = leaves_of(nodes);
    assert forall|k: int| 0 <= k < collected(nodes).len() implies (#[trigger] collected(
        nodes,
    )[k]).node_type == NodeType::Leaf by {
        if k < leaves.len() {
            assert(collected(nodes)[k] == leaves[k]);
        } else {
            assert(collected(nodes)[k] == collected_below(nodes)[k - leaves.len()]);
        }
    }
}

proof fn lemma_below_are_leaves<T>(nodes: Seq<Node<T>>)
    ensures
        forall|k: int|
            0 <= k < collected_below(nodes).len() ==> (#[trigger] collected_below(
                nodes,
            )[k]).node_type == NodeType::Leaf,
    decreases nodes, 0int,
{
    if nodes.len() > 0 {
        let last = nodes[nodes.len() - 1];
        let rest = nodes.subrange(0, nodes.len() - 1);
        lemma_below_are_leaves(rest);
        if last.node_type == NodeType::Branch {
            assert(decreases_to!(nodes => last));
            assert(decreases_to!(last => last.children));
            assert(decreases_to!(last.children => last.children@));
            lemma_collected_are_leaves(last.children@);
        }
        let below = collected_below(nodes);
        let first_part = collected_below(rest);
        assert forall|k: int| 0 <= k < below.len() implies (#[trigger] below[k]).node_type
            == NodeType::Leaf by {
            if k < first_part.len() {
                assert(below[k] == first_part[k]);
            } else {
                assert(below[k] == collected(last.children@)[k - first_part.len()]);
            }
        }
    }
}

/// Number of branches anywhere in a forest.
pub open spec fn branch_count<T>(nodes: Seq<Node<T>>) -> nat
    decreases nodes,
{
    if nodes.len() == 0 {
        0
    } else {
        let last = nodes[nodes.len() - 1];
        let rest = nodes.subrange(0, nodes.len() - 1);
        let inner = if last.node_type == NodeType::Branch {
            proof {
                assert(decreases_to!(nodes => last));
                assert(decreases_to!(last => last.children));
                assert(decreases_to!(last.children => last.children@));
            }
            1 + branch_count(last.children@)
        } else {
            0
        };
        branch_count(rest) + inner
    }
}

/// In a forest of well-formed trees every split turns one drawn node into three,
/// so the forest draws its roots' count plus two nodes per branch.
pub proof fn lemma_collected_count<T>(nodes: Seq<Node<T>>)
    requires
        forall|i: int| 0 <= i < nodes.len() ==> (#[trigger] nodes[i]).well_formed(),
    ensures
        collected(nodes).len() == nodes.len() + 2 * branch_count(nodes),
    decreases nodes,
{
    broadcast use vstd::seq_lib::group_filter_ensures;

    if nodes.len() > 0 {
        let last = nodes[nodes.len() - 1];
        let rest = nodes.subrange(0, nodes.len() - 1);
        let is_leaf = |node: Node<T>| node.node_type == NodeType::Leaf;
        assert(nodes =~= rest.push(last));
        rest.lemma_filter_push(last, is_leaf);
        assert forall|i: int| 0 <= i < rest.len() implies (#[trigger] rest[i]).well_formed() by {
            assert(rest[i] == nodes[i]);
        }
        lemma_collected_count(rest);
        if last.node_type == NodeType::Branch {
            assert(decreases_to!(nodes => last));
            assert(decreases_to!(last => last.children));
            assert(decreases_to!(last.children => last.children@));
            assert(last.well_formed());
            lemma_collected_count(last.children@);
        }
    } else {
        assert(leaves_of(nodes) =~= Seq::<Node<T>>::empty()) by {
            reveal(Seq::filter);
        }
    }
}

/// Every leaf of the trees `nodes`, each counted once per place it occurs, found
/// by walking each tree down to its leaves.
pub open spec fn tree_leaves<T>(nodes: Seq<Node<T>>) -> vstd::multiset::Multiset<Node<T>>
    decreases nodes,
{
    if nodes.len() == 0 {
        vstd::multiset::Multiset::empty()
    } else {
        let last = nodes[nodes.len() - 1];
        let rest = nodes.subrange(0, nodes.len() - 1);
        let own = if last.node_type == NodeType::Leaf {
            vstd::multiset::Multiset::singleton(last)
        } else {
            proof {
                assert(decreases_to!(nodes => last));
                assert(decreases_to!(last => last.children));
                assert(decreases_to!(last.children => last.children@));
            }
            tree_leaves(last.children@)
        };
        tree_leaves(rest).add(own)
    }
}

/// The nodes drawn for a forest are exactly its leaves: every leaf of every tree
/// is drawn, once for each place it occurs, and nothing else is drawn.
pub proof fn lemma_drawn_are_the_leaves<T>(nodes: Seq<Node<T>>, drawn: Seq<Node<T>>)
    requires
        drawn == collected(nodes),
    ensures
        drawn.to_multiset() =~= tree_leaves(nodes),
        drawn.len() == tree_leaves(nodes).len(),
    decreases nodes,
{
    broadcast use vstd::seq_lib::group_filter_ensures;
    broadcast use vstd::seq_lib::group_to_multiset_ensures;
    broadcast use vstd::multiset::group_multiset_axioms;

    if nodes.len() > 0 {
        let last = nodes[nodes.len() - 1];
        let rest = nodes.subrange(0, nodes.len() - 1);
        let is_leaf = |node: Node<T>| node.node_type == NodeType::Leaf;
        assert(nodes =~= rest.push(last));
        rest.lemma_filter_push(last, is_leaf);
        lemma_drawn_are_the_leaves(rest, collected(rest));
        let head = leaves_of(rest);
        let own_leaf = if last.node_type == NodeType::Leaf {
            seq![last]
        } else {
            Seq::empty()
        };
        let deeper = if last.node_type == NodeType::Branch {
            collected(last.children@)
        } else {
            Seq::empty()
        };
        if last.node_type == NodeType::Branch {
            assert(decreases_to!(nodes => last));
            assert(decreases_to!(last => last.children));
            assert(decreases_to!(last.children => last.children@));
            lemma_drawn_are_the_leaves(last.children@, collected(last.children@));
            assert(leaves_of(nodes) =~= head);
        } else {
            assert(leaves_of(nodes) =~= head.push(last));
            assert(head.push(last) =~= head + own_leaf);
            assert(own_leaf =~= Seq::<Node<T>>::empty().push(last));
        }
        assert(leaves_of(nodes) =~= head + own_leaf);
        assert(collected_below(nodes) == collected_below(rest) + deeper);
        vstd::seq_lib::lemma_multiset_commutative(head, own_leaf);
        vstd::seq_lib::lemma_multiset_commutative(head + own_leaf, collected_below(nodes));
        vstd::seq_lib::lemma_multiset_commutative(collected_below(rest), deeper);
        vstd::seq_lib::lemma_multiset_commutative(head, collected_below(rest));
    } else {
        assert(leaves_of(nodes) =~= Seq::<Node<T>>::empty()) by {
            reveal(Seq::filter);
        }
        assert(collected(nodes) =~= Seq::<Node<T>>::empty());
    }
}

proof fn lemma_lone_leaves<T>(nodes: Seq<Node<T>>)
    requires
        forall|i: int| 0 <= i < nodes.len() ==> (#[trigger] nodes[i]).node_type == NodeType::Leaf,
    ensures
        leaves_of(nodes) =~= nodes,
        collected_below(nodes) =~= Seq::<Node<T>>::empty(),
    decreases nodes,
{
    if nodes.len() > 0 {
        let last = nodes[nodes.len() - 1];
        let rest = nodes.subrange(0, nodes.len() - 1);
        let is_leaf = |node: Node<T>| node.node_type == NodeType::Leaf;
        assert(nodes =~= rest.push(last));
        rest.lemma_filter_push(last, is_leaf);
        assert forall|i: int| 0 <= i < rest.len() implies (#[trigger] rest[i]).node_type
            == NodeType::Leaf by {
            assert(rest[i] == nodes[i]);
        }
        lemma_lone_leaves(rest);
        assert(last.node_type == NodeType::Leaf);
    } else {
        assert(leaves_of(nodes) =~= Seq::<Node<T>>::empty()) by {
            reveal(Seq::filter);
        }
    }
}

/// A forest of lone leaves is drawn as it stands: every root, once, in order.
pub proof fn lemma_lone_leaves_drawn_in_order<T>(nodes: Seq<Node<T>>, drawn: Seq<Node<T>>)
    requires
        drawn == collected(nodes),
        forall|i: int| 0 <= i < nodes.len() ==> (#[trigger] nodes[i]).node_type == NodeType::Leaf,
    ensures
        drawn =~= nodes,
{
    lemma_lone_leaves(nodes);
}

/// The nodes to draw for a forest: every leaf, found depth first (see `collected`).
pub fn collect_nodes<'a, T>(nodes: &'a Vec<Node<T>>) -> (drawn: Vec<&'a Node<T>>)
    ensures
        targets(drawn@) == collected(nodes@),
    decreases nodes@,
{
    broadcast use vstd::seq_lib::group_filter_ensures;

    let ghost is_leaf = |node: Node<T>| node.node_type == NodeType::Leaf;
    let mut leaves: Vec<&'a Node<T>> = Vec::new();
    let mut others: Vec<&'a Node<T>> = Vec::new();
    let mut i: usize = 0;
    while i < nodes.len()
        invariant
            i <= nodes.len(),
            is_leaf == (|node: Node<T>| node.node_type == NodeType::Leaf),
            targets(leaves@) == nodes@.take(i as int).filter(is_leaf),
            targets(others@) == collected_below(nodes@.take(i as int)),
        decreases nodes.len() - i,
    {
        let node = &nodes[i];
        let ghost prefix = nodes@.take(i as int);
        proof {
            assert(nodes@.take(i + 1) =~= prefix.push(*node));
            prefix.lemma_filter_push(*node, is_leaf);
            assert(nodes@.take(i + 1).subrange(0, i as int) =~= prefix);
        }
        if node.node_type == NodeType::Leaf {
            leaves.push(node);
            assert(targets(leaves@) =~= nodes@.take(i + 1).filter(is_leaf));
            assert(targets(others@) =~= collected_below(nodes@.take(i + 1)));
        } else {
            proof {
                assert(decreases_to!(nodes@ => nodes@[i as int]));
                assert(decreases_to!(nodes@[i as int] => nodes@[i as int].children));
                assert(decreases_to!(nodes@[i as int].children => nodes@[i as int].children@));
            }
            let mut deeper = collect_nodes(&node.children);
            let ghost before = others@;
            others.append(&mut deeper);
            assert(targets(leaves@) =~= nodes@.take(i + 1).filter(is_leaf));
            assert(targets(others@) =~= targets(before) + collected(node.children@));
            assert(targets(others@) =~= collected_below(nodes@.take(i + 1)));
        }
        i = i + 1;
    }
    assert(nodes@.take(nodes.len() as int) =~= nodes@);
    leaves.append(&mut others);
    assert(targets(leaves@) =~= collected(nodes@));
    leaves
}

/// A planet surface as a forest of level-of-detail trees, one per face of its base
/// polyhedron.
pub struct Planet<T> {
    pub transform: T,
    pub root_nodes: Vec<Node<T>>,
}

impl<T> Planet<T> {
    /// A planet at `transform` whose faces are placed at `face_transforms`; every
    /// face starts as a leaf at depth zero.
    pub fn new(transform: T, face_transforms: Vec<T>) -> (planet: Self)
        ensures
            planet.transform == transform,
            planet.root_nodes@.len() == face_transforms@.len(),
            forall|i: int|
                0 <= i < face_transforms@.len() ==> Node::fresh(
                    face_transforms@[i],
                    0,
                    #[trigger] planet.root_nodes@[i],
                ),
            forall|i: int|
                0 <= i < face_transforms@.len() ==> (#[trigger] planet.root_nodes@[i]).well_formed(),
    {
        let mut pending = face_transforms;
        let ghost faces = pending@;
        let mut root_nodes: Vec<Node<T>> = Vec::new();
        while pending.len() > 0
            invariant
                root_nodes@.len() + pending@.len() == faces.len(),
                pending@ == faces.subrange(root_nodes@.len() as int, faces.len() as int),
                forall|i: int|
                    0 <= i < root_nodes@.len() ==> Node::fresh(
                        faces[i],
                        0,
                        #[trigger] root_nodes@[i],
                    ),
                forall|i: int| 0 <= i < root_nodes@.len() ==> (#[trigger] root_nodes@[i]).well_formed(),
            decreases pending@.len(),
        {
            let face = pending.remove(0);
            root_nodes.push(Node::new(face, 0));
            assert(pending@ =~= faces.subrange(root_nodes@.len() as int, faces.len() as int));
        }
        Self { transform, root_nodes }
    }

    /// Refines every face tree, in order (see `Node::update`).
    pub fn update<F: Fn(&T, u32) -> bool, G: Fn(&T, u32) -> (T, T, T)>(
        &mut self,
        lod_levels: usize,
        in_range: &F,
        subdivide: &G,
    )
        requires
            lod_levels <= u32::MAX,
            forall|t: &T, l: u32| in_range.requires((t, l)),
            forall|t: &T, l: u32| subdivide.requires((t, l)),
        ensures
            final(self).transform == old(self).transform,
            final(self).root_nodes@.len() == old(self).root_nodes@.len(),
            forall|i: int|
                0 <= i < old(self).root_nodes@.len() ==> Node::lod_step(
                    #[trigger] old(self).root_nodes@[i],
                    final(self).root_nodes@[i],
                    lod_levels as nat,
                    *in_range,
                    *subdivide,
                ),
    {
        let ghost roots = self.root_nodes@;
        let mut pending: Vec<Node<T>> = Vec::new();
        std::mem::swap(&mut pending, &mut self.root_nodes);
        let mut updated: Vec<Node<T>> = Vec::new();
        while pending.len() > 0
            invariant
                lod_levels <= u32::MAX,
                forall|t: &T, l: u32| in_range.requires((t, l)),
                forall|t: &T, l: u32| subdivide.requires((t, l)),
                self.transform == old(self).transform,
                roots == old(self).root_nodes@,
                updated@.len() + pending@.len() == roots.len(),
                pending@ == roots.subrange(updated@.len() as int, roots.len() as int),
                forall|i: int|
                    0 <= i < updated@.len() ==> Node::lod_step(
                        #[trigger] roots[i],
                        updated@[i],
                        lod_levels as nat,
                        *in_range,
                        *subdivide,
                    ),
            decreases pending@.len(),
        {
            let ghost k = updated@.len() as int;
            let mut node = pending.remove(0);
            assert(node == roots[k]);
            node.update(lod_levels, in_range, subdivide);
            updated.push(node);
            assert(pending@ =~= roots.subrange(updated@.len() as int, roots.len() as int));
        }
        self.root_nodes = updated;
    }

    /// The nodes to draw: every leaf of every face tree (see `collected`).
    pub fn all_nodes(&self) -> (drawn: Vec<&Node<T>>)
        ensures
            targets(drawn@) == collected(self.root_nodes@),
    {
        collect_nodes(&self.root_nodes)
    }
}

} // verus!
