use crate::actors::glimmer_manager::{I3WindowDataMsg, SwayWindowDataMsg, WindowDataMsgWrapper};
use crate::ipc::{
    first_with_id, first_with_key, first_with_sway_id, Container, law_first_with_key, lemma_first_with_key_append,
    lemma_first_in_row, lemma_listing_append, preorder, preorder_all, sway_preorder, sway_preorder_all, Node, SwayNode,
    SwayWindowChange, WindowChange,
};
use vstd::prelude::*;

verus! {

/// The window managers whose events the decorations follow.
#[derive(Debug, Clone, Copy, PartialEq, Eq)]
pub enum WindowManager {
    I3,
    SWAY,
}

/// The listener of window events, for one window manager.
#[derive(Debug)]
pub struct WmIPC {
    pub wm: WindowManager,
}

impl Node {
    /// The first container, in pre-order (a container before its tiling
    /// children, the children in order), whose id is `id`.
    pub fn find_node(self, id: usize) -> (found: Option<Node>)
        ensures
            found == first_with_id(preorder(self), id),
        decreases self,
    {
        let ghost me = self;
        proof {
            lemma_first_with_key_append(seq![me], preorder_all(me.nodes@), id as int);
            assert(seq![me].drop_first() =~= Seq::<Node>::empty());
        }
        if self.id == id {
            return Some(self);
        }
        let Node { nodes, .. } = self;
        let ghost all = nodes@;
        proof {
            assert(all.take(0) =~= Seq::<Node>::empty());
        }
        for n in it: nodes
            invariant
                self == me,
                all == me.nodes@,
                it.seq() == all,
                me.id != id,
                first_with_id(preorder(me), id) == first_with_id(preorder_all(all), id),
                first_with_id(preorder_all(all.take(it.index() as int)), id) is None,
        {
            let ghost i = it.index() as int;
            proof {
                assert(all.take(i + 1).subrange(0, i) =~= all.take(i));
                assert(preorder_all(all.take(i + 1)) == preorder_all(all.take(i)) + preorder(all[i]));
                assert(all =~= all.take(i + 1) + all.skip(i + 1));
                lemma_listing_append(
                    all.take(i + 1),
                    all.skip(i + 1),
                    |ns: Seq<Node>| preorder_all(ns),
                    |n: Node| preorder(n),
                );
                lemma_first_with_key_append(preorder_all(all.take(i)), preorder(all[i]), id as int);
                lemma_first_with_key_append(preorder_all(all.take(i + 1)), preorder_all(all.skip(i + 1)), id as int);
            }
            if let Some(found) = n.find_node(id) {
                return Some(found);
            }
        }
        proof {
            assert(all.take(all.len() as int) =~= all);
        }
        None
    }
}

/// The search of an i3 tree by id, as `find_node` does it: the root is
/// found when it has the id; otherwise every tiling child is searched in
/// order and the first one whose subtree holds the id gives the result;
/// nothing is found exactly when neither the root nor any child's subtree
/// holds the id; and what is found has the id. Every container listed for
/// a child is listed for its parent.
pub proof fn law_find_node_searches_every_child(tree: Node, id: usize)
    ensures
        match first_with_id(preorder(tree), id) {
            Some(found) => found.id == id,
            None => true,
        },
        tree.id == id ==> first_with_id(preorder(tree), id) == Some(tree),
        (first_with_id(preorder(tree), id) is None) <==> (tree.id != id && forall|i: int|
            0 <= i < tree.nodes@.len() ==> #[trigger] first_with_id(preorder(tree.nodes@[i]), id) is None),
        forall|i: int|
            tree.id != id && 0 <= i < tree.nodes@.len() && (#[trigger] first_with_id(preorder(tree.nodes@[i]), id)) is Some
                && (forall|j: int| 0 <= j < i ==> #[trigger] first_with_id(preorder(tree.nodes@[j]), id) is None)
                ==> first_with_id(preorder(tree), id) == first_with_id(preorder(tree.nodes@[i]), id),
        forall|i: int, x: Node|
            0 <= i < tree.nodes@.len() && #[trigger] preorder(tree.nodes@[i]).contains(x) ==> preorder(tree).contains(x),
{
    let ns = tree.nodes@;
    let listing = |ns: Seq<Node>| preorder_all(ns);
    let one = |n: Node| preorder(n);
    lemma_first_with_key_append(seq![tree], preorder_all(ns), id as int);
    assert(seq![tree].drop_first() =~= Seq::<Node>::empty());
    law_first_with_key(preorder(tree), id as int);
    assert(seq![tree][0] == tree);
    assert(tree.container_id() == tree.id as int);
    assert(first_with_key(seq![tree].drop_first(), id as int) is None);
    assert(first_with_key(seq![tree], id as int) == (if tree.id == id { Some(tree) } else { None::<Node> }));
    assert(tree.id != id ==> first_with_id(preorder(tree), id) == first_with_key(preorder_all(ns), id as int));
    lemma_first_in_row(ns, id as int, listing, one);
    assert(listing(ns) == preorder_all(ns));
    assert forall|i: int| 0 <= i < ns.len() implies #[trigger] first_with_id(preorder(ns[i]), id) == first_with_key(
        one(ns[i]),
        id as int,
    ) by {
        assert(one(ns[i]) == preorder(ns[i]));
    }
    if first_with_id(preorder(tree), id) is None {
        assert forall|i: int| 0 <= i < ns.len() implies #[trigger] first_with_id(preorder(ns[i]), id) is None by {
            assert(first_with_key(one(ns[i]), id as int) is None);
        }
    }
    if tree.id != id && forall|i: int| 0 <= i < ns.len() ==> #[trigger] first_with_id(preorder(ns[i]), id) is None {
        assert forall|i: int| 0 <= i < ns.len() implies #[trigger] first_with_key(one(ns[i]), id as int) is None by {
            assert(first_with_id(preorder(ns[i]), id) is None);
        }
    }
    assert forall|i: int|
        tree.id != id && 0 <= i < ns.len() && (#[trigger] first_with_id(preorder(ns[i]), id)) is Some && (forall|j: int|
            0 <= j < i ==> #[trigger] first_with_id(preorder(ns[j]), id) is None) implies first_with_id(preorder(tree), id)
        == first_with_id(preorder(ns[i]), id) by {
        assert(first_with_key(one(ns[i]), id as int) is Some);
        assert forall|j: int| 0 <= j < i implies #[trigger] first_with_key(one(ns[j]), id as int) is None by {
            assert(first_with_id(preorder(ns[j]), id) is None);
        }
    }
    assert forall|i: int, x: Node|
        0 <= i < ns.len() && #[trigger] preorder(ns[i]).contains(x) implies preorder(tree).contains(x) by {
        assert(ns =~= ns.take(i) + seq![ns[i]] + ns.skip(i + 1));
        lemma_listing_append(ns.take(i) + seq![ns[i]], ns.skip(i + 1), listing, one);
        lemma_listing_append(ns.take(i), seq![ns[i]], listing, one);
        let single = seq![ns[i]];
        assert(single.subrange(0, 0) =~= Seq::<Node>::empty());
        assert(preorder_all(single.subrange(0, 0)) =~= Seq::<Node>::empty());
        assert(preorder_all(single) == preorder_all(single.subrange(0, 0)) + preorder(single[0]));
        assert(preorder_all(single) =~= preorder(ns[i]));
        let k = choose|k: int| 0 <= k < preorder(ns[i]).len() && preorder(ns[i])[k] == x;
        let pre = seq![tree] + preorder_all(ns.take(i));
        assert(preorder(tree)[pre.len() + k] == x);
    }
}

/// The search of a sway tree by id, as `find_by_id` does it: the root is
/// found when it has the id; otherwise every tiling child is searched in
/// order, then every floating child in order, and the first one whose
/// subtree holds the id gives the result; nothing is found exactly when
/// neither the root nor any child's subtree holds the id; and what is found
/// has the id.
pub proof fn law_find_by_id_searches_every_child(tree: SwayNode, id: i64)
    ensures
        match first_with_sway_id(sway_preorder(tree), id) {
            Some(found) => found.id == id,
            None => true,
        },
        tree.id == id ==> first_with_sway_id(sway_preorder(tree), id) == Some(tree),
        (first_with_sway_id(sway_preorder(tree), id) is None) <==> {
            &&& tree.id != id
            &&& forall|i: int|
                0 <= i < tree.nodes@.len() ==> #[trigger] first_with_sway_id(sway_preorder(tree.nodes@[i]), id) is None
            &&& forall|i: int|
                0 <= i < tree.floating_nodes@.len() ==> #[trigger] first_with_sway_id(
                    sway_preorder(tree.floating_nodes@[i]),
                    id,
                ) is None
        },
        forall|i: int|
            tree.id != id && 0 <= i < tree.nodes@.len() && (#[trigger] first_with_sway_id(
                sway_preorder(tree.nodes@[i]),
                id,
            )) is Some && (forall|j: int|
                0 <= j < i ==> #[trigger] first_with_sway_id(sway_preorder(tree.nodes@[j]), id) is None)
                ==> first_with_sway_id(sway_preorder(tree), id) == first_with_sway_id(sway_preorder(tree.nodes@[i]), id),
        forall|i: int|
            tree.id != id && (forall|j: int|
                0 <= j < tree.nodes@.len() ==> #[trigger] first_with_sway_id(sway_preorder(tree.nodes@[j]), id) is None)
                && 0 <= i < tree.floating_nodes@.len() && (#[trigger] first_with_sway_id(
                sway_preorder(tree.floating_nodes@[i]),
                id,
            )) is Some && (forall|j: int|
                0 <= j < i ==> #[trigger] first_with_sway_id(sway_preorder(tree.floating_nodes@[j]), id) is None)
                ==> first_with_sway_id(sway_preorder(tree), id) == first_with_sway_id(
                sway_preorder(tree.floating_nodes@[i]),
                id,
            ),
{
    let tiling = tree.nodes@;
    let floating = tree.floating_nodes@;
    let listing = |ns: Seq<SwayNode>| sway_preorder_all(ns);
    let one = |n: SwayNode| sway_preorder(n);
    lemma_first_with_key_append(seq![tree] + sway_preorder_all(tiling), sway_preorder_all(floating), id as int);
    lemma_first_with_key_append(seq![tree], sway_preorder_all(tiling), id as int);
    assert(seq![tree].drop_first() =~= Seq::<SwayNode>::empty());
    law_first_with_key(sway_preorder(tree), id as int);
    assert(seq![tree][0] == tree);
    assert(tree.container_id() == tree.id as int);
    assert(first_with_key(seq![tree].drop_first(), id as int) is None);
    assert(first_with_key(seq![tree], id as int) == (if tree.id == id { Some(tree) } else { None::<SwayNode> }));
    assert(tree.id != id ==> first_with_sway_id(sway_preorder(tree), id) == (match first_with_key(
        sway_preorder_all(tiling),
        id as int,
    ) {
        Some(n) => Some(n),
        None => first_with_key(sway_preorder_all(floating), id as int),
    }));
    lemma_first_in_row(tiling, id as int, listing, one);
    lemma_first_in_row(floating, id as int, listing, one);
    assert(listing(tiling) == sway_preorder_all(tiling));
    assert(listing(floating) == sway_preorder_all(floating));
    assert forall|i: int| 0 <= i < tiling.len() implies #[trigger] first_with_sway_id(sway_preorder(tiling[i]), id)
        == first_with_key(one(tiling[i]), id as int) by {
        assert(one(tiling[i]) == sway_preorder(tiling[i]));
    }
    assert forall|i: int| 0 <= i < floating.len() implies #[trigger] first_with_sway_id(sway_preorder(floating[i]), id)
        == first_with_key(one(floating[i]), id as int) by {
        assert(one(floating[i]) == sway_preorder(floating[i]));
    }
    let t_none = forall|i: int| 0 <= i < tiling.len() ==> #[trigger] first_with_sway_id(sway_preorder(tiling[i]), id) is None;
    let f_none = forall|i: int| 0 <= i < floating.len() ==> #[trigger] first_with_sway_id(sway_preorder(floating[i]), id) is None;
    assert(t_none <==> first_with_sway_id(sway_preorder_all(tiling), id) is None) by {
        if t_none {
            assert forall|i: int| 0 <= i < tiling.len() implies #[trigger] first_with_key(one(tiling[i]), id as int) is None by {
                assert(first_with_sway_id(sway_preorder(tiling[i]), id) is None);
            }
        }
        if first_with_sway_id(sway_preorder_all(tiling), id) is None {
            assert forall|i: int| 0 <= i < tiling.len() implies #[trigger] first_with_sway_id(sway_preorder(tiling[i]), id) is None by {
                assert(first_with_key(one(tiling[i]), id as int) is None);
            }
        }
    }
    assert(f_none <==> first_with_sway_id(sway_preorder_all(floating), id) is None) by {
        if f_none {
            assert forall|i: int| 0 <= i < floating.len() implies #[trigger] first_with_key(one(floating[i]), id as int) is None by {
                assert(first_with_sway_id(sway_preorder(floating[i]), id) is None);
            }
        }
        if first_with_sway_id(sway_preorder_all(floating), id) is None {
            assert forall|i: int| 0 <= i < floating.len() implies #[trigger] first_with_sway_id(sway_preorder(floating[i]), id) is None by {
                assert(first_with_key(one(floating[i]), id as int) is None);
            }
        }
    }
    assert forall|i: int|
        tree.id != id && 0 <= i < tiling.len() && (#[trigger] first_with_sway_id(sway_preorder(tiling[i]), id)) is Some
            && (forall|j: int| 0 <= j < i ==> #[trigger] first_with_sway_id(sway_preorder(tiling[j]), id) is None)
            implies first_with_sway_id(sway_preorder(tree), id) == first_with_sway_id(sway_preorder(tiling[i]), id) by {
        assert(first_with_key(one(tiling[i]), id as int) is Some);
        assert forall|j: int| 0 <= j < i implies #[trigger] first_with_key(one(tiling[j]), id as int) is None by {
            assert(first_with_sway_id(sway_preorder(tiling[j]), id) is None);
        }
    }
    assert forall|i: int|
        tree.id != id && t_none && 0 <= i < floating.len() && (#[trigger] first_with_sway_id(
            sway_preorder(floating[i]),
            id,
        )) is Some && (forall|j: int|
            0 <= j < i ==> #[trigger] first_with_sway_id(sway_preorder(floating[j]), id) is None)
            implies first_with_sway_id(sway_preorder(tree), id) == first_with_sway_id(sway_preorder(floating[i]), id) by {
        assert(first_with_key(one(floating[i]), id as int) is Some);
        assert forall|j: int| 0 <= j < i implies #[trigger] first_with_key(one(floating[j]), id as int) is None by {
            assert(first_with_sway_id(sway_preorder(floating[j]), id) is None);
        }
    }
}

/// The container that an i3 event stands for: the one of the same id in
/// the current tree, or the event's own where the tree has none.
pub open spec fn i3_container_for(container: Node, tree: Node) -> Node {
    match first_with_id(preorder(tree), container.id) {
        Some(found) => found,
        None => container,
    }
}

/// The message to the manager for an i3 window event, given the layout
/// tree read after it.
pub fn i3_window_data_msg(change: WindowChange, container: Node, tree: Node) -> (msg: WindowDataMsgWrapper)
    ensures
        msg.i3wdm == Some(I3WindowDataMsg { change, container: i3_container_for(container, tree) }),
        msg.swaywdm is None,
{
    let found = match tree.find_node(container.id) {
        Some(found) => found,
        None => container,
    };
    WindowDataMsgWrapper {
        i3wdm: Some(I3WindowDataMsg { change, container: found }),
        swaywdm: None,
    }
}

impl SwayNode {
    /// The first container, in pre-order (a container, then its tiling
    /// children, then its floating children, each in order), whose id is
    /// `id`.
    pub fn find_by_id(self, id: i64) -> (found: Option<SwayNode>)
        ensures
            found == first_with_sway_id(sway_preorder(self), id),
        decreases self,
    {
        let ghost me = self;
        let ghost tiling = me.nodes@;
        let ghost floating = me.floating_nodes@;
        proof {
            lemma_first_with_key_append(
                seq![me] + sway_preorder_all(tiling),
                sway_preorder_all(floating),
                id as int,
            );
            lemma_first_with_key_append(seq![me], sway_preorder_all(tiling), id as int);
            assert(seq![me].drop_first() =~= Seq::<SwayNode>::empty());
        }
        if self.id == id {
            return Some(self);
        }
        let SwayNode { nodes, floating_nodes, .. } = self;
        proof {
            assert(tiling.take(0) =~= Seq::<SwayNode>::empty());
            assert(floating.take(0) =~= Seq::<SwayNode>::empty());
        }
        for n in it: nodes
            invariant
                self == me,
                tiling == me.nodes@,
                it.seq() == tiling,
                me.id != id,
                first_with_sway_id(sway_preorder(me), id) == (match first_with_sway_id(sway_preorder_all(tiling), id) {
                    Some(n) => Some(n),
                    None => first_with_sway_id(sway_preorder_all(floating), id),
                }),
                first_with_sway_id(sway_preorder_all(tiling.take(it.index() as int)), id) is None,
        {
            let ghost i = it.index() as int;
            proof {
                assert(tiling.take(i + 1).subrange(0, i) =~= tiling.take(i));
                assert(sway_preorder_all(tiling.take(i + 1)) == sway_preorder_all(tiling.take(i)) + sway_preorder(tiling[i]));
                assert(tiling =~= tiling.take(i + 1) + tiling.skip(i + 1));
                lemma_listing_append(
                    tiling.take(i + 1),
                    tiling.skip(i + 1),
                    |ns: Seq<SwayNode>| sway_preorder_all(ns),
                    |n: SwayNode| sway_preorder(n),
                );
                lemma_first_with_key_append(sway_preorder_all(tiling.take(i)), sway_preorder(tiling[i]), id as int);
                lemma_first_with_key_append(
                    sway_preorder_all(tiling.take(i + 1)),
                    sway_preorder_all(tiling.skip(i + 1)),
                    id as int,
                );
            }
            if let Some(found) = n.find_by_id(id) {
                return Some(found);
            }
        }
        proof {
            assert(tiling.take(tiling.len() as int) =~= tiling);
        }
        for n in it: floating_nodes
            invariant
                self == me,
                floating == me.floating_nodes@,
                it.seq() == floating,
                me.id != id,
                first_with_sway_id(sway_preorder(me), id) == first_with_sway_id(sway_preorder_all(floating), id),
                first_with_sway_id(sway_preorder_all(floating.take(it.index() as int)), id) is None,
        {
            let ghost i = it.index() as int;
            proof {
                assert(floating.take(i + 1).subrange(0, i) =~= floating.take(i));
                assert(sway_preorder_all(floating.take(i + 1)) == sway_preorder_all(floating.take(i)) + sway_preorder(floating[i]));
                assert(floating =~= floating.take(i + 1) + floating.skip(i + 1));
                lemma_listing_append(
                    floating.take(i + 1),
                    floating.skip(i + 1),
                    |ns: Seq<SwayNode>| sway_preorder_all(ns),
                    |n: SwayNode| sway_preorder(n),
                );
                lemma_first_with_key_append(sway_preorder_all(floating.take(i)), sway_preorder(floating[i]), id as int);
                lemma_first_with_key_append(
                    sway_preorder_all(floating.take(i + 1)),
                    sway_preorder_all(floating.skip(i + 1)),
                    id as int,
                );
            }
            if let Some(found) = n.find_by_id(id) {
                return Some(found);
            }
        }
        proof {
            assert(floating.take(floating.len() as int) =~= floating);
        }
        None
    }
}

/// The container that a sway event stands for: the one of the same id in
/// the current tree, or the event's own where the tree has none.
pub open spec fn sway_container_for(container: SwayNode, tree: SwayNode) -> SwayNode {
    match first_with_sway_id(sway_preorder(tree), container.id) {
        Some(found) => found,
        None => container,
    }
}

/// The message to the manager for a sway window event, given the layout
/// tree read after it.
pub fn sway_window_data_msg(change: SwayWindowChange, container: SwayNode, tree: SwayNode) -> (msg: WindowDataMsgWrapper)
    ensures
        msg.i3wdm is None,
        msg.swaywdm == Some(SwayWindowDataMsg { change, container: sway_container_for(container, tree) }),
{
    let found = match tree.find_by_id(container.id) {
        Some(found) => found,
        None => container,
    };
    WindowDataMsgWrapper {
        i3wdm: None,
        swaywdm: Some(SwayWindowDataMsg { change, container: found }),
    }
}

/// The container that an i3 event message carries is, when the current
/// tree holds a container with the event's id, exactly the first one that
/// the tree's search finds, with every field (title, rectangle, children)
/// as the tree has it: a container of the tree with the event's id.
/// Otherwise it is the event's own container, unchanged.
pub proof fn law_i3_message_takes_tree_container(container: Node, tree: Node)
    ensures
        forall|found: Node|
            first_with_id(preorder(tree), container.id) == Some(found) ==> #[trigger] i3_container_for(container, tree)
                == found,
        first_with_id(preorder(tree), container.id) is None ==> i3_container_for(container, tree) == container,
        i3_container_for(container, tree).id == container.id,
        (exists|k: int| 0 <= k < preorder(tree).len() && #[trigger] preorder(tree)[k].id == container.id)
            ==> preorder(tree).contains(i3_container_for(container, tree)),
        (forall|k: int| 0 <= k < preorder(tree).len() ==> #[trigger] preorder(tree)[k].id != container.id)
            ==> i3_container_for(container, tree) == container,
{
    law_first_with_key(preorder(tree), container.id as int);
    if exists|k: int| 0 <= k < preorder(tree).len() && #[trigger] preorder(tree)[k].id == container.id {
        let k = choose|k: int| 0 <= k < preorder(tree).len() && #[trigger] preorder(tree)[k].id == container.id;
        assert(preorder(tree)[k].container_id() == container.id as int);
    }
    if forall|k: int| 0 <= k < preorder(tree).len() ==> #[trigger] preorder(tree)[k].id != container.id {
        if first_with_id(preorder(tree), container.id) is Some {
            let found = first_with_id(preorder(tree), container.id).unwrap();
            let k = choose|k: int|
                0 <= k < preorder(tree).len() && preorder(tree)[k] == found && forall|i: int|
                    0 <= i < k ==> #[trigger] preorder(tree)[i].container_id() != container.id as int;
            assert(preorder(tree)[k].id != container.id);
        }
    }
}

/// The container that a sway event message carries is, when the current
/// tree holds a container with the event's id, exactly the first one that
/// the tree's search finds, with every field (title, rectangle, children)
/// as the tree has it: a container of the tree with the event's id.
/// Otherwise it is the event's own container, unchanged.
pub proof fn law_sway_message_takes_tree_container(container: SwayNode, tree: SwayNode)
    ensures
        forall|found: SwayNode|
            first_with_sway_id(sway_preorder(tree), container.id) == Some(found) ==> #[trigger] sway_container_for(
                container,
                tree,
            ) == found,
        first_with_sway_id(sway_preorder(tree), container.id) is None ==> sway_container_for(container, tree) == container,
        sway_container_for(container, tree).id == container.id,
        (exists|k: int| 0 <= k < sway_preorder(tree).len() && #[trigger] sway_preorder(tree)[k].id == container.id)
            ==> sway_preorder(tree).contains(sway_container_for(container, tree)),
        (forall|k: int| 0 <= k < sway_preorder(tree).len() ==> #[trigger] sway_preorder(tree)[k].id != container.id)
            ==> sway_container_for(container, tree) == container,
{
    law_first_with_key(sway_preorder(tree), container.id as int);
    if exists|k: int| 0 <= k < sway_preorder(tree).len() && #[trigger] sway_preorder(tree)[k].id == container.id {
        let k = choose|k: int| 0 <= k < sway_preorder(tree).len() && #[trigger] sway_preorder(tree)[k].id == container.id;
        assert(sway_preorder(tree)[k].container_id() == container.id as int);
    }
    if forall|k: int| 0 <= k < sway_preorder(tree).len() ==> #[trigger] sway_preorder(tree)[k].id != container.id {
        if first_with_sway_id(sway_preorder(tree), container.id) is Some {
            let found = first_with_sway_id(sway_preorder(tree), container.id).unwrap();
            let k = choose|k: int|
                0 <= k < sway_preorder(tree).len() && sway_preorder(tree)[k] == found && forall|i: int|
                    0 <= i < k ==> #[trigger] sway_preorder(tree)[i].container_id() != container.id as int;
            assert(sway_preorder(tree)[k].id != container.id);
        }
    }
}

/// The container of an event message, whichever window manager reported
/// it, keeps the event's id: the tree's search only returns a container of
/// that id.
pub proof fn law_event_container_keeps_its_id(i3: Node, i3_tree: Node, sway: SwayNode, sway_tree: SwayNode)
    ensures
        i3_container_for(i3, i3_tree).id == i3.id,
        sway_container_for(sway, sway_tree).id == sway.id,
{
    law_first_with_key(preorder(i3_tree), i3.id as int);
    law_first_with_key(sway_preorder(sway_tree), sway.id as int);
}

} // verus!
