use vstd::prelude::*;

verus! {

/// A rectangle as the i3 IPC reports it.
#[derive(Debug, Clone, Copy, PartialEq, Eq)]
pub struct Rect {
    pub x: isize,
    pub y: isize,
    pub width: isize,
    pub height: isize,
}

/// The part of an i3 container that the decorations read: its id, its
/// title, its rectangle and its tiling children.
#[derive(Debug)]
pub struct Node {
    pub id: usize,
    pub name: Option<String>,
    pub rect: Rect,
    pub nodes: Vec<Node>,
}

/// The kinds of change that i3 reports for a window.
#[derive(Debug, Clone, Copy, PartialEq, Eq)]
pub enum WindowChange {
    /// the window has become managed by i3
    New,
    /// the window has closed
    Close,
    /// the window has received input focus
    Focus,
    /// the window's title has changed
    Title,
    /// the window has entered or exited fullscreen mode
    FullscreenMode,
    /// the window has changed its position in the tree
    Move,
    /// the window has transitioned to or from floating
    Floating,
    /// the window has become urgent or lost its urgent status
    Urgent,
    /// a mark has been added to or removed from the window
    Mark,
}

/// A rectangle as sway reports it.
#[derive(Debug, Clone, Copy, PartialEq, Eq)]
pub struct SwayRect {
    pub x: i32,
    pub y: i32,
    pub width: i32,
    pub height: i32,
}

/// The part of a sway container that the decorations read: its id, its
/// title, its rectangle, and its tiling and floating children.
#[derive(Debug)]
pub struct SwayNode {
    pub id: i64,
    pub name: Option<String>,
    pub rect: SwayRect,
    pub nodes: Vec<SwayNode>,
    pub floating_nodes: Vec<SwayNode>,
}

/// The kinds of change that sway reports for a view.
#[derive(Debug, Clone, Copy, PartialEq, Eq)]
pub enum SwayWindowChange {
    /// The view was created.
    New,
    /// The view was closed.
    Close,
    /// The view was focused.
    Focus,
    /// The view's title has changed.
    Title,
    /// The view's fullscreen mode has changed.
    FullscreenMode,
    /// The view has been reparented in the tree.
    Move,
    /// The view has become floating or is no longer floating.
    Floating,
    /// The view's urgency hint has changed status.
    Urgent,
    /// A mark has been added or removed.
    Mark,
}

/// A container of a layout tree, known by its id.
pub trait Container {
    /// The container's id, as an integer.
    spec fn container_id(&self) -> int;
}

impl Container for Node {
    open spec fn container_id(&self) -> int {
        self.id as int
    }
}

impl Container for SwayNode {
    open spec fn container_id(&self) -> int {
        self.id as int
    }
}

/// The first container of `s` whose id is `id`, if there is one.
pub open spec fn first_with_key<T: Container>(s: Seq<T>, id: int) -> Option<T>
    decreases s.len(),
{
    if s.len() == 0 {
        None
    } else if s[0].container_id() == id {
        Some(s[0])
    } else {
        first_with_key(s.drop_first(), id)
    }
}

/// Searching two listings one after the other finds in the first one
/// where it can, else in the second.
pub proof fn lemma_first_with_key_append<T: Container>(a: Seq<T>, b: Seq<T>, id: int)
    ensures
        first_with_key(a + b, id) == (match first_with_key(a, id) {
            Some(n) => Some(n),
            None => first_with_key(b, id),
        }),
    decreases a.len(),
{
    if a.len() > 0 {
        assert((a + b).drop_first() =~= a.drop_first() + b);
        lemma_first_with_key_append(a.drop_first(), b, id);
    } else {
        assert(a + b =~= b);
    }
}

/// The search by id finds a container that has that id and stands in the
/// listing before any other that has it; it finds none exactly when no
/// container of the listing has that id.
pub proof fn law_first_with_key<T: Container>(s: Seq<T>, id: int)
    ensures
        match first_with_key(s, id) {
            Some(n) => n.container_id() == id && exists|k: int|
                0 <= k < s.len() && s[k] == n && forall|i: int| 0 <= i < k ==> #[trigger] s[i].container_id() != id,
            None => forall|i: int| 0 <= i < s.len() ==> #[trigger] s[i].container_id() != id,
        },
    decreases s.len(),
{
    if s.len() > 0 {
        law_first_with_key(s.drop_first(), id);
        if s[0].container_id() != id {
            match first_with_key(s.drop_first(), id) {
                Some(n) => {
                    let k = choose|k: int|
                        0 <= k < s.drop_first().len() && s.drop_first()[k] == n && forall|i: int|
                            0 <= i < k ==> #[trigger] s.drop_first()[i].container_id() != id;
                    assert(s[k + 1] == n);
                    assert forall|i: int| 0 <= i < k + 1 implies #[trigger] s[i].container_id() != id by {
                        if i > 0 {
                            assert(s[i] == s.drop_first()[i - 1]);
                        }
                    }
                },
                None => {
                    assert forall|i: int| 0 <= i < s.len() implies #[trigger] s[i].container_id() != id by {
                        if i > 0 {
                            assert(s[i] == s.drop_first()[i - 1]);
                        }
                    }
                },
            }
        }
    }
}

/// A listing of a row of trees that lists each tree after those before it
/// lists a row split in two as the two parts in turn.
pub proof fn lemma_listing_append<T>(
    a: Seq<T>,
    b: Seq<T>,
    listing: spec_fn(Seq<T>) -> Seq<T>,
    one: spec_fn(T) -> Seq<T>,
)
    requires
        forall|ns: Seq<T>| ns.len() == 0 ==> #[trigger] listing(ns) == Seq::<T>::empty(),
        forall|ns: Seq<T>|
            ns.len() > 0 ==> #[trigger] listing(ns) == listing(ns.subrange(0, ns.len() - 1)) + one(
                ns[ns.len() - 1],
            ),
    ensures
        listing(a + b) == listing(a) + listing(b),
    decreases b.len(),
{
    if b.len() == 0 {
        assert(a + b =~= a);
        assert(listing(a) + listing(b) =~= listing(a));
    } else {
        let ab = a + b;
        let b0 = b.subrange(0, b.len() - 1);
        assert(ab.subrange(0, ab.len() - 1) =~= a + b0);
        assert(ab[ab.len() - 1] == b[b.len() - 1]);
        lemma_listing_append(a, b0, listing, one);
        assert(listing(ab) =~= listing(a) + listing(b));
    }
}

/// Searching the listing of a row of trees finds what the search of the
/// first tree whose own listing holds a match finds, and finds nothing
/// exactly when no tree's listing holds a match.
pub proof fn lemma_first_in_row<T: Container>(
    ns: Seq<T>,
    id: int,
    listing: spec_fn(Seq<T>) -> Seq<T>,
    one: spec_fn(T) -> Seq<T>,
)
    requires
        forall|ns: Seq<T>| ns.len() == 0 ==> #[trigger] listing(ns) == Seq::<T>::empty(),
        forall|ns: Seq<T>|
            ns.len() > 0 ==> #[trigger] listing(ns) == listing(ns.subrange(0, ns.len() - 1)) + one(
                ns[ns.len() - 1],
            ),
    ensures
        (first_with_key(listing(ns), id) is None) <==> (forall|i: int|
            0 <= i < ns.len() ==> #[trigger] first_with_key(one(ns[i]), id) is None),
        forall|i: int|
            0 <= i < ns.len() && (#[trigger] first_with_key(one(ns[i]), id)) is Some && (forall|j: int|
                0 <= j < i ==> #[trigger] first_with_key(one(ns[j]), id) is None) ==> first_with_key(listing(ns), id)
                == first_with_key(one(ns[i]), id),
    decreases ns.len(),
{
    if ns.len() == 0 {
        assert(listing(ns) =~= Seq::<T>::empty());
    } else {
        let n = ns.len() - 1;
        let init = ns.subrange(0, n);
        lemma_first_in_row(init, id, listing, one);
        assert(listing(ns) == listing(init) + one(ns[n]));
        lemma_first_with_key_append(listing(init), one(ns[n]), id);
        assert forall|i: int| 0 <= i < n implies init[i] == ns[i] by {}
        if first_with_key(listing(ns), id) is None {
            assert forall|i: int| 0 <= i < ns.len() implies #[trigger] first_with_key(one(ns[i]), id) is None by {
                if i < n {
                    assert(init[i] == ns[i]);
                    assert(first_with_key(one(init[i]), id) is None);
                }
            }
        }
        if forall|i: int| 0 <= i < ns.len() ==> #[trigger] first_with_key(one(ns[i]), id) is None {
            assert forall|i: int| 0 <= i < init.len() implies #[trigger] first_with_key(one(init[i]), id) is None by {
                assert(init[i] == ns[i]);
                assert(first_with_key(one(ns[i]), id) is None);
            }
        }
        assert forall|i: int|
            0 <= i < ns.len() && (#[trigger] first_with_key(one(ns[i]), id)) is Some && (forall|j: int|
                0 <= j < i ==> #[trigger] first_with_key(one(ns[j]), id) is None) implies first_with_key(listing(ns), id)
            == first_with_key(one(ns[i]), id) by {
            if i < n {
                assert(init[i] == ns[i]);
                assert forall|j: int| 0 <= j < i implies #[trigger] first_with_key(one(init[j]), id) is None by {
                    assert(init[j] == ns[j]);
                    assert(first_with_key(one(ns[j]), id) is None);
                }
                assert(first_with_key(one(init[i]), id) is Some);
            } else {
                assert forall|j: int| 0 <= j < init.len() implies #[trigger] first_with_key(one(init[j]), id) is None by {
                    assert(init[j] == ns[j]);
                    assert(first_with_key(one(ns[j]), id) is None);
                }
            }
        }
    }
}

/// The containers of a tree, parent before children, children in order.
pub open spec fn preorder(n: Node) -> Seq<Node>
    decreases n, 1int,
{
    seq![n] + preorder_all(n.nodes@)
}

/// The pre-order listings of a row of trees, one after the other.
pub open spec fn preorder_all(ns: Seq<Node>) -> Seq<Node>
    decreases ns, 0int,
{
    if ns.len() == 0 {
        seq![]
    } else {
        preorder_all(ns.subrange(0, ns.len() - 1)) + preorder(ns[ns.len() - 1])
    }
}

/// The first i3 container of `s` whose id is `id`, if there is one.
pub open spec fn first_with_id(s: Seq<Node>, id: usize) -> Option<Node> {
    first_with_key(s, id as int)
}

/// The containers of a sway tree: the container, then the listing of each
/// tiling child in order, then that of each floating child in order.
pub open spec fn sway_preorder(n: SwayNode) -> Seq<SwayNode>
    decreases n, 1int,
{
    seq![n] + sway_preorder_all(n.nodes@) + sway_preorder_all(n.floating_nodes@)
}

/// The listings of a row of sway trees, one after the other.
pub open spec fn sway_preorder_all(ns: Seq<SwayNode>) -> Seq<SwayNode>
    decreases ns, 0int,
{
    if ns.len() == 0 {
        seq![]
    } else {
        sway_preorder_all(ns.subrange(0, ns.len() - 1)) + sway_preorder(ns[ns.len() - 1])
    }
}

/// The first sway container of `s` whose id is `id`, if there is one.
pub open spec fn first_with_sway_id(s: Seq<SwayNode>, id: i64) -> Option<SwayNode> {
    first_with_key(s, id as int)
}

/// A tree whose root has the id sought is found at its root.
pub proof fn law_root_found_first(tree: Node)
    ensures
        first_with_id(preorder(tree), tree.id) == Some(tree),
{
}

} // verus!
