use crate::actors::glimmer_instance::Geometry;
use std::collections::HashMap;
use vstd::prelude::*;

verus! {

broadcast use vstd::std_specs::hash::group_hash_axioms;

/// What the GTK side needs to know of a window to decorate it.
#[derive(Debug, Clone, PartialEq, Eq)]
pub struct WindowShim {
    pub id: usize,
    pub label: Option<String>,
    pub geometry: Geometry,
}

/// The requests that the actors send to the GTK main loop.
#[derive(Debug, Clone, PartialEq, Eq)]
pub enum Messages {
    Create(WindowShim),
    Update(WindowShim),
    Destroy(usize),
    Nothing,
}

/// What the GTK main loop has to do for a request, once the table of
/// decorations has taken it.
#[derive(Debug)]
pub enum WindowAction<W> {
    /// Build a decoration showing this title (in its `#label` element) over
    /// this geometry, and hand it to [`WindowRegistry::attach`] under this id.
    Build(usize, Option<String>, Geometry),
    /// Move and resize the decoration held under this id.
    Reposition(usize, Geometry),
    /// Close this decoration: the table no longer holds it.
    Close(W),
    /// Nothing to do.
    Nothing,
}

/// The table that the GTK side keeps after a request: a destroy drops the
/// entry of its id, the other requests leave the table as it is.
pub open spec fn next_windows<W>(m: Map<usize, W>, msg: Messages) -> Map<usize, W> {
    match msg {
        Messages::Destroy(id) => m.remove(id),
        _ => m,
    }
}

/// What the GTK side does for a request, given the decorations it holds.
pub open spec fn action_for<W>(m: Map<usize, W>, msg: Messages) -> WindowAction<W> {
    match msg {
        Messages::Create(w) => WindowAction::Build(w.id, w.label, w.geometry),
        Messages::Update(w) => if m.contains_key(w.id) {
            WindowAction::Reposition(w.id, w.geometry)
        } else {
            WindowAction::Nothing
        },
        Messages::Destroy(id) => if m.contains_key(id) {
            WindowAction::Close(m[id])
        } else {
            WindowAction::Nothing
        },
        Messages::Nothing => WindowAction::Nothing,
    }
}

/// A destroy request closes the decoration last attached under its id and
/// leaves the table without that id; a second destroy for it does nothing.
pub proof fn law_destroy_closes_attached<W>(m: Map<usize, W>, id: usize, window: W)
    ensures
        action_for(m.insert(id, window), Messages::Destroy(id)) == WindowAction::Close(window),
        next_windows(m.insert(id, window), Messages::Destroy(id)) == m.remove(id),
        action_for(next_windows(m.insert(id, window), Messages::Destroy(id)), Messages::Destroy(id))
            == WindowAction::<W>::Nothing,
{
    assert(m.insert(id, window).remove(id) =~= m.remove(id));
}

/// Only a destroy request changes the table, and none adds to it.
pub proof fn law_only_destroy_changes_windows<W>(m: Map<usize, W>, msg: Messages)
    ensures
        !(msg is Destroy) ==> next_windows(m, msg) == m,
        next_windows(m, msg).dom().subset_of(m.dom()),
{
}

/// An update for a window that has a decoration moves it to the update's
/// geometry; one for a window without a decoration does nothing.
pub proof fn law_update_repositions_held<W>(m: Map<usize, W>, shim: WindowShim)
    ensures
        m.contains_key(shim.id) ==> action_for(m, Messages::Update(shim)) == WindowAction::<W>::Reposition(
            shim.id,
            shim.geometry,
        ),
        !m.contains_key(shim.id) ==> action_for(m, Messages::Update(shim)) == WindowAction::<W>::Nothing,
{
}

/// One step of the GTK side: a request taken by the table, or a freshly
/// built decoration attached under an id.
pub enum WindowOp<W> {
    Receive(Messages),
    Attach(usize, W),
}

/// The table after one step.
pub open spec fn table_after<W>(m: Map<usize, W>, op: WindowOp<W>) -> Map<usize, W> {
    match op {
        WindowOp::Receive(msg) => next_windows(m, msg),
        WindowOp::Attach(id, w) => m.insert(id, w),
    }
}

/// The decorations that one step hands back to be closed: the one that a
/// destroy takes out, or the one that an attach replaces.
pub open spec fn closed_by<W>(m: Map<usize, W>, op: WindowOp<W>) -> Seq<W> {
    match op {
        WindowOp::Receive(msg) => match action_for(m, msg) {
            WindowAction::Close(w) => seq![w],
            _ => Seq::empty(),
        },
        WindowOp::Attach(id, w) => if m.contains_key(id) {
            seq![m[id]]
        } else {
            Seq::empty()
        },
    }
}

/// The decoration that one step attaches, if any.
pub open spec fn attached_by<W>(op: WindowOp<W>) -> Seq<W> {
    match op {
        WindowOp::Attach(id, w) => seq![w],
        _ => Seq::empty(),
    }
}

/// The table, and the decorations handed back to be closed in order,
/// after a run of steps from an empty table.
pub open spec fn windows_run<W>(ops: Seq<WindowOp<W>>) -> (Map<usize, W>, Seq<W>)
    decreases ops.len(),
{
    if ops.len() == 0 {
        (Map::empty(), Seq::empty())
    } else {
        let before = windows_run(ops.drop_last());
        (table_after(before.0, ops.last()), before.1 + closed_by(before.0, ops.last()))
    }
}

/// The decorations attached during a run, in order.
pub open spec fn attached_in<W>(ops: Seq<WindowOp<W>>) -> Seq<W>
    decreases ops.len(),
{
    if ops.len() == 0 {
        Seq::empty()
    } else {
        attached_in(ops.drop_last()) + attached_by(ops.last())
    }
}

/// The table holds `w` under some id.
pub open spec fn held<W>(m: Map<usize, W>, w: W) -> bool {
    exists|id: usize| m.contains_key(id) && m[id] == w
}

/// Every attached decoration is held or was handed back, never both; none
/// was handed back twice; no decoration is held under two ids.
pub open spec fn windows_accounted<W>(m: Map<usize, W>, closed: Seq<W>, attached: Seq<W>) -> bool {
    &&& forall|w: W| attached.contains(w) <==> (held(m, w) || closed.contains(w))
    &&& forall|w: W| !(held(m, w) && closed.contains(w))
    &&& closed.no_duplicates()
    &&& forall|i: usize, j: usize|
        m.contains_key(i) && m.contains_key(j) && i != j ==> #[trigger] m[i] != #[trigger] m[j]
}

proof fn lemma_push_no_duplicates<W>(s: Seq<W>, w: W)
    requires
        s.no_duplicates(),
        !s.contains(w),
    ensures
        (s + seq![w]).no_duplicates(),
{
    let t = s + seq![w];
    assert forall|i: int, j: int| 0 <= i < t.len() && 0 <= j < t.len() && i != j implies t[i] != t[j] by {
        if i < s.len() && j < s.len() {
            assert(t[i] == s[i] && t[j] == s[j]);
        } else if i < s.len() {
            assert(t[i] == s[i]);
        } else if j < s.len() {
            assert(t[j] == s[j]);
        }
    }
}

proof fn lemma_step_accounted<W>(m: Map<usize, W>, closed: Seq<W>, attached: Seq<W>, op: WindowOp<W>)
    requires
        windows_accounted(m, closed, attached),
        forall|w: W| op == WindowOp::Attach(op->Attach_0, w) ==> !attached.contains(w),
    ensures
        windows_accounted(table_after(m, op), closed + closed_by(m, op), attached + attached_by(op)),
{
    let m2 = table_after(m, op);
    let c2 = closed + closed_by(m, op);
    let a2 = attached + attached_by(op);
    match op {
        WindowOp::Receive(msg) => {
            assert(a2 =~= attached);
            match msg {
                Messages::Destroy(id) => {
                    if m.contains_key(id) {
                        let gone = m[id];
                        assert(m2 =~= m.remove(id));
                        assert(c2 =~= closed.push(gone));
                        assert(held(m, gone));
                        assert(!closed.contains(gone));
                        lemma_push_no_duplicates(closed, gone);
                        assert(closed + seq![gone] =~= c2);
                        assert forall|w: W| held(m2, w) <==> (held(m, w) && w != gone) by {
                            if held(m2, w) {
                                let k = choose|k: usize| m2.contains_key(k) && m2[k] == w;
                                assert(m.contains_key(k) && m[k] == w && k != id);
                            }
                            if held(m, w) && w != gone {
                                let k = choose|k: usize| m.contains_key(k) && m[k] == w;
                                assert(m2.contains_key(k) && m2[k] == w);
                            }
                        }
                        assert forall|w: W| c2.contains(w) <==> (closed.contains(w) || w == gone) by {
                            if c2.contains(w) {
                                let k = choose|k: int| 0 <= k < c2.len() && c2[k] == w;
                                if k < closed.len() {
                                    assert(closed[k] == w);
                                }
                            }
                            if closed.contains(w) {
                                let k = choose|k: int| 0 <= k < closed.len() && closed[k] == w;
                                assert(c2[k] == w);
                            }
                            if w == gone {
                                assert(c2[closed.len() as int] == w);
                            }
                        }
                    } else {
                        assert(m2 =~= m);
                        assert(c2 =~= closed);
                    }
                },
                _ => {
                    assert(m2 =~= m);
                    assert(c2 =~= closed);
                },
            }
        },
        WindowOp::Attach(id, w) => {
            assert(!attached.contains(w));
            assert(!held(m, w));
            assert(!closed.contains(w));
            assert forall|x: W| a2.contains(x) <==> (attached.contains(x) || x == w) by {
                if a2.contains(x) {
                    let k = choose|k: int| 0 <= k < a2.len() && a2[k] == x;
                    if k < attached.len() {
                        assert(attached[k] == x);
                    }
                }
                if attached.contains(x) {
                    let k = choose|k: int| 0 <= k < attached.len() && attached[k] == x;
                    assert(a2[k] == x);
                }
                if x == w {
                    assert(a2[attached.len() as int] == x);
                }
            }
            if m.contains_key(id) {
                let gone = m[id];
                assert(held(m, gone));
                assert(!closed.contains(gone));
                lemma_push_no_duplicates(closed, gone);
                assert(closed + seq![gone] =~= c2);
                assert forall|x: W| held(m2, x) <==> (x == w || (held(m, x) && x != gone)) by {
                    if held(m2, x) {
                        let k = choose|k: usize| m2.contains_key(k) && m2[k] == x;
                        if k != id {
                            assert(m.contains_key(k) && m[k] == x);
                        }
                    }
                    if x == w {
                        assert(m2.contains_key(id) && m2[id] == x);
                    }
                    if held(m, x) && x != gone {
                        let k = choose|k: usize| m.contains_key(k) && m[k] == x;
                        assert(k != id);
                        assert(m2.contains_key(k) && m2[k] == x);
                    }
                }
                assert forall|x: W| c2.contains(x) <==> (closed.contains(x) || x == gone) by {
                    if c2.contains(x) {
                        let k = choose|k: int| 0 <= k < c2.len() && c2[k] == x;
                        if k < closed.len() {
                            assert(closed[k] == x);
                        }
                    }
                    if closed.contains(x) {
                        let k = choose|k: int| 0 <= k < closed.len() && closed[k] == x;
                        assert(c2[k] == x);
                    }
                    if x == gone {
                        assert(c2[closed.len() as int] == x);
                    }
                }
            } else {
                assert(c2 =~= closed);
                assert forall|x: W| held(m2, x) <==> (x == w || held(m, x)) by {
                    if held(m2, x) {
                        let k = choose|k: usize| m2.contains_key(k) && m2[k] == x;
                        if k != id {
                            assert(m.contains_key(k) && m[k] == x);
                        }
                    }
                    if x == w {
                        assert(m2.contains_key(id) && m2[id] == x);
                    }
                    if held(m, x) {
                        let k = choose|k: usize| m.contains_key(k) && m[k] == x;
                        assert(m2.contains_key(k) && m2[k] == x);
                    }
                }
            }
            assert forall|i: usize, j: usize|
                m2.contains_key(i) && m2.contains_key(j) && i != j implies #[trigger] m2[i] != #[trigger] m2[j] by {
                if i == id {
                    assert(m.contains_key(j) && m2[j] == m[j]);
                    assert(held(m, m[j]));
                } else if j == id {
                    assert(m.contains_key(i) && m2[i] == m[i]);
                    assert(held(m, m[i]));
                } else {
                    assert(m[i] != m[j]);
                }
            }
        },
    }
}

/// Over any run of the GTK side from an empty table in which each attached
/// decoration is a newly built one: every decoration built is either still
/// held by the table or has been handed back to be closed, never both;
/// none is handed back twice; and no decoration is held under two ids.
pub proof fn law_every_window_held_or_closed_once<W>(ops: Seq<WindowOp<W>>)
    requires
        attached_in(ops).no_duplicates(),
    ensures
        windows_accounted(windows_run(ops).0, windows_run(ops).1, attached_in(ops)),
    decreases ops.len(),
{
    if ops.len() == 0 {
        assert forall|w: W| !held(Map::<usize, W>::empty(), w) by {}
    } else {
        let prev = ops.drop_last();
        let a = attached_in(prev);
        let op = ops.last();
        assert(attached_in(ops) == a + attached_by(op));
        assert(a.no_duplicates()) by {
            assert forall|i: int, j: int| 0 <= i < a.len() && 0 <= j < a.len() && i != j implies a[i] != a[j] by {
                assert(attached_in(ops)[i] == a[i] && attached_in(ops)[j] == a[j]);
            }
        }
        law_every_window_held_or_closed_once(prev);
        assert forall|w: W| op == WindowOp::Attach(op->Attach_0, w) implies !a.contains(w) by {
            let all = attached_in(ops);
            assert(all[a.len() as int] == w);
            if a.contains(w) {
                let k = choose|k: int| 0 <= k < a.len() && a[k] == w;
                assert(all[k] == w);
            }
        }
        lemma_step_accounted(windows_run(prev).0, windows_run(prev).1, a, op);
    }
}

/// The decorations that the GTK main loop holds, one per window id.
pub struct WindowRegistry<W> {
    windows: HashMap<usize, W>,
}

impl<W> View for WindowRegistry<W> {
    type V = Map<usize, W>;

    closed spec fn view(&self) -> Map<usize, W> {
        self.windows@
    }
}

impl<W> WindowRegistry<W> {
    /// A table that holds no decoration.
    pub fn new() -> (r: Self)
        ensures
            r@ == Map::<usize, W>::empty(),
    {
        WindowRegistry { windows: HashMap::new() }
    }

    /// Takes a request and says what the GTK side has to do for it. A
    /// destroy takes the decoration out of the table and hands it back to
    /// be closed; an update is only acted on for a window that has a
    /// decoration.
    pub fn receive(&mut self, msg: Messages) -> (action: WindowAction<W>)
        ensures
            final(self)@ == next_windows(old(self)@, msg),
            action == action_for(old(self)@, msg),
            final(self)@ == table_after(old(self)@, WindowOp::Receive(msg)),
            closed_by(old(self)@, WindowOp::Receive(msg)) == (match action {
                WindowAction::Close(w) => seq![w],
                _ => Seq::<W>::empty(),
            }),
    {
        match msg {
            Messages::Create(w) => WindowAction::Build(w.id, w.label, w.geometry),
            Messages::Update(w) => {
                if self.windows.contains_key(&w.id) {
                    WindowAction::Reposition(w.id, w.geometry)
                } else {
                    WindowAction::Nothing
                }
            },
            Messages::Destroy(id) => match self.windows.remove(&id) {
                Some(window) => WindowAction::Close(window),
                None => WindowAction::Nothing,
            },
            Messages::Nothing => WindowAction::Nothing,
        }
    }

    /// Puts a freshly built decoration under `id`; the one it replaces, if
    /// any, is handed back to be closed.
    pub fn attach(&mut self, id: usize, window: W) -> (replaced: Option<W>)
        ensures
            final(self)@ == old(self)@.insert(id, window),
            replaced == old(self)@.get(id),
            final(self)@ == table_after(old(self)@, WindowOp::Attach(id, window)),
            closed_by(old(self)@, WindowOp::Attach(id, window)) == (match replaced {
                Some(w) => seq![w],
                None => Seq::<W>::empty(),
            }),
    {
        self.windows.insert(id, window)
    }

    /// The decoration held under `id`.
    pub fn window(&self, id: usize) -> (window: Option<&W>)
        ensures
            match window {
                Some(w) => self@.contains_key(id) && *w == self@[id],
                None => !self@.contains_key(id),
            },
    {
        self.windows.get(&id)
    }
}

} // verus!
