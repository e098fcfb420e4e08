use crate::actors::glimmer_instance::{geometry_of, Geometry, InstanceKillNotificationMsg};
use crate::gtk_utils::WindowShim;
use crate::ipc::{Node, SwayNode, SwayWindowChange, WindowChange};
use std::collections::HashMap;
use vstd::prelude::*;

verus! {

broadcast use vstd::std_specs::hash::group_hash_axioms;

/// What the decorations read of a window event, whichever window manager
/// reported it.
pub trait WindowDataMsgTrait {
    /// The event carries the data of a window.
    spec fn has_window_data(&self) -> bool;

    /// The id of the event's container.
    spec fn container_id_of(&self) -> usize;

    /// What the GTK side needs of the event's container.
    spec fn window_shim_of(&self) -> WindowShim;

    /// The kind of change, in i3's terms.
    spec fn change_of(&self) -> WindowChange;

    fn get_container_id(&self) -> (id: usize)
        requires
            self.has_window_data(),
        ensures
            id == self.container_id_of(),
    ;

    fn get_window_shim(&self) -> (shim: WindowShim)
        requires
            self.has_window_data(),
        ensures
            shim == self.window_shim_of(),
    ;

    fn get_change(&self) -> (change: WindowChange)
        requires
            self.has_window_data(),
        ensures
            change == self.change_of(),
    ;
}

/// A window event as i3 reports it.
#[derive(Debug)]
pub struct I3WindowDataMsg {
    pub change: WindowChange,
    pub container: Node,
}

impl WindowDataMsgTrait for I3WindowDataMsg {
    open spec fn has_window_data(&self) -> bool {
        true
    }

    open spec fn container_id_of(&self) -> usize {
        self.container.id
    }

    open spec fn window_shim_of(&self) -> WindowShim {
        WindowShim {
            id: self.container.id,
            label: self.container.name,
            geometry: geometry_of(self.container.rect),
        }
    }

    open spec fn change_of(&self) -> WindowChange {
        self.change
    }

    fn get_container_id(&self) -> (id: usize) {
        self.container.id
    }

    fn get_change(&self) -> (change: WindowChange) {
        self.change
    }

    fn get_window_shim(&self) -> (shim: WindowShim) {
        let rect = &self.container.rect;
        WindowShim {
            id: self.get_container_id(),
            label: match &self.container.name {
                None => None,
                Some(s) => Some(s.clone()),
            },
            geometry: Geometry {
                height: #[verifier::truncate] (rect.height as i32),
                width: #[verifier::truncate] (rect.width as i32),
                x: #[verifier::truncate] (rect.x as i32),
                y: #[verifier::truncate] (rect.y as i32),
            },
        }
    }
}

/// A sway change in i3's terms: each kind to the kind of the same name.
pub open spec fn i3_change_of(change: SwayWindowChange) -> WindowChange {
    match change {
        SwayWindowChange::Close => WindowChange::Close,
        SwayWindowChange::Floating => WindowChange::Floating,
        SwayWindowChange::Focus => WindowChange::Focus,
        SwayWindowChange::FullscreenMode => WindowChange::FullscreenMode,
        SwayWindowChange::Mark => WindowChange::Mark,
        SwayWindowChange::Move => WindowChange::Move,
        SwayWindowChange::New => WindowChange::New,
        SwayWindowChange::Title => WindowChange::Title,
        SwayWindowChange::Urgent => WindowChange::Urgent,
    }
}

/// A window event as sway reports it.
#[derive(Debug)]
pub struct SwayWindowDataMsg {
    pub change: SwayWindowChange,
    pub container: SwayNode,
}

impl WindowDataMsgTrait for SwayWindowDataMsg {
    open spec fn has_window_data(&self) -> bool {
        true
    }

    open spec fn container_id_of(&self) -> usize {
        self.container.id as usize
    }

    open spec fn window_shim_of(&self) -> WindowShim {
        WindowShim {
            id: self.container.id as usize,
            label: self.container.name,
            geometry: Geometry {
                height: self.container.rect.height,
                width: self.container.rect.width,
                x: self.container.rect.x,
                y: self.container.rect.y,
            },
        }
    }

    open spec fn change_of(&self) -> WindowChange {
        i3_change_of(self.change)
    }

    fn get_container_id(&self) -> (id: usize) {
        #[verifier::truncate] (self.container.id as usize)
    }

    fn get_change(&self) -> (change: WindowChange) {
        match self.change {
            SwayWindowChange::Close => WindowChange::Close,
            SwayWindowChange::Floating => WindowChange::Floating,
            SwayWindowChange::Focus => WindowChange::Focus,
            SwayWindowChange::FullscreenMode => WindowChange::FullscreenMode,
            SwayWindowChange::Mark => WindowChange::Mark,
            SwayWindowChange::Move => WindowChange::Move,
            SwayWindowChange::New => WindowChange::New,
            SwayWindowChange::Title => WindowChange::Title,
            SwayWindowChange::Urgent => WindowChange::Urgent,
        }
    }

    fn get_window_shim(&self) -> (shim: WindowShim) {
        let rect = self.container.rect;
        WindowShim {
            id: self.get_container_id(),
            label: match &self.container.name {
                None => None,
                Some(s) => Some(s.clone()),
            },
            geometry: Geometry { height: rect.height, width: rect.width, x: rect.x, y: rect.y },
        }
    }
}

/// A window event from either window manager.
#[derive(Debug)]
pub struct WindowDataMsgWrapper {
    pub i3wdm: Option<I3WindowDataMsg>,
    pub swaywdm: Option<SwayWindowDataMsg>,
}

/// The event that a wrapper stands for.
enum WindowData<'a> {
    I3(&'a I3WindowDataMsg),
    Sway(&'a SwayWindowDataMsg),
}

impl WindowDataMsgWrapper {
    /// The event inside: the i3 one where there is one, else the sway one.
    fn get_wdm(&self) -> (wdm: WindowData<'_>)
        requires
            self.i3wdm is Some || self.swaywdm is Some,
        ensures
            match wdm {
                WindowData::I3(m) => self.i3wdm == Some(*m),
                WindowData::Sway(m) => self.i3wdm is None && self.swaywdm == Some(*m),
            },
    {
        if let Some(wdm) = &self.i3wdm {
            return WindowData::I3(wdm);
        }
        match &self.swaywdm {
            Some(wdm) => WindowData::Sway(wdm),
            None => WindowData::I3(self.i3wdm.as_ref().unwrap()),
        }
    }
}

impl WindowDataMsgTrait for WindowDataMsgWrapper {
    open spec fn has_window_data(&self) -> bool {
        self.i3wdm is Some || self.swaywdm is Some
    }

    open spec fn container_id_of(&self) -> usize {
        match self.i3wdm {
            Some(m) => m.container_id_of(),
            None => self.swaywdm.unwrap().container_id_of(),
        }
    }

    open spec fn window_shim_of(&self) -> WindowShim {
        match self.i3wdm {
            Some(m) => m.window_shim_of(),
            None => self.swaywdm.unwrap().window_shim_of(),
        }
    }

    open spec fn change_of(&self) -> WindowChange {
        match self.i3wdm {
            Some(m) => m.change_of(),
            None => self.swaywdm.unwrap().change_of(),
        }
    }

    fn get_container_id(&self) -> (id: usize) {
        match self.get_wdm() {
            WindowData::I3(m) => m.get_container_id(),
            WindowData::Sway(m) => m.get_container_id(),
        }
    }

    fn get_window_shim(&self) -> (shim: WindowShim) {
        match self.get_wdm() {
            WindowData::I3(m) => m.get_window_shim(),
            WindowData::Sway(m) => m.get_window_shim(),
        }
    }

    fn get_change(&self) -> (change: WindowChange) {
        match self.get_wdm() {
            WindowData::I3(m) => m.get_change(),
            WindowData::Sway(m) => m.get_change(),
        }
    }
}

/// Each sway change is read as the i3 change of the same name, and no two
/// sway changes are read alike.
pub proof fn law_sway_changes_keep_their_names(a: SwayWindowChange, b: SwayWindowChange)
    ensures
        i3_change_of(a) == i3_change_of(b) ==> a == b,
        i3_change_of(SwayWindowChange::New) == WindowChange::New,
        i3_change_of(SwayWindowChange::Close) == WindowChange::Close,
        i3_change_of(SwayWindowChange::Focus) == WindowChange::Focus,
        i3_change_of(SwayWindowChange::Title) == WindowChange::Title,
        i3_change_of(SwayWindowChange::FullscreenMode) == WindowChange::FullscreenMode,
        i3_change_of(SwayWindowChange::Move) == WindowChange::Move,
        i3_change_of(SwayWindowChange::Floating) == WindowChange::Floating,
        i3_change_of(SwayWindowChange::Urgent) == WindowChange::Urgent,
        i3_change_of(SwayWindowChange::Mark) == WindowChange::Mark,
{
}

/// What the decorations read of an event is read off its container: the
/// shim has the container's id and title, and a geometry with the
/// container's coordinates; the change is the event's own (for sway, the
/// i3 change of the same name).
pub proof fn law_events_read_their_container(i3: I3WindowDataMsg, sway: SwayWindowDataMsg)
    ensures
        i3.container_id_of() == i3.container.id,
        i3.change_of() == i3.change,
        i3.window_shim_of().id == i3.container.id,
        i3.window_shim_of().label == i3.container.name,
        i3.window_shim_of().geometry == (Geometry {
            x: i3.container.rect.x as i32,
            y: i3.container.rect.y as i32,
            width: i3.container.rect.width as i32,
            height: i3.container.rect.height as i32,
        }),
        sway.container_id_of() == sway.container.id as usize,
        sway.change_of() == i3_change_of(sway.change),
        sway.window_shim_of().id == sway.container.id as usize,
        sway.window_shim_of().label == sway.container.name,
        sway.window_shim_of().geometry == (Geometry {
            x: sway.container.rect.x,
            y: sway.container.rect.y,
            width: sway.container.rect.width,
            height: sway.container.rect.height,
        }),
{
}

/// A wrapper reads as the event inside it: the i3 one where there is one,
/// else the sway one; its change, container id and shim are that event's
/// own.
pub proof fn law_wrapper_reads_its_event(w: WindowDataMsgWrapper)
    ensures
        (w.i3wdm is Some) ==> {
            &&& w.change_of() == w.i3wdm.unwrap().change_of()
            &&& w.container_id_of() == w.i3wdm.unwrap().container_id_of()
            &&& w.window_shim_of() == w.i3wdm.unwrap().window_shim_of()
        },
        (w.i3wdm is None && w.swaywdm is Some) ==> {
            &&& w.change_of() == w.swaywdm.unwrap().change_of()
            &&& w.change_of() == i3_change_of(w.swaywdm.unwrap().change)
            &&& w.container_id_of() == w.swaywdm.unwrap().container_id_of()
            &&& w.window_shim_of() == w.swaywdm.unwrap().window_shim_of()
        },
{
}

/// Hands the manager the channel to the GTK side.
#[derive(Debug)]
pub struct AttachSenderMsg<S> {
    pub sender: S,
}

/// The instances kept once one has been got for window `id`: the same
/// ones where `id` already had one, else those and `spawned` for `id`.
pub open spec fn registry_after_get<A>(instances: Map<usize, A>, id: usize, spawned: A) -> Map<usize, A> {
    if instances.contains_key(id) {
        instances
    } else {
        instances.insert(id, spawned)
    }
}

/// Once an instance has been got for a window, getting one again for it
/// hands back that same instance and keeps every instance as it was.
pub proof fn law_get_instance_twice<A>(instances: Map<usize, A>, id: usize, first: A, second: A)
    ensures
        registry_after_get(instances, id, first).contains_key(id),
        registry_after_get(registry_after_get(instances, id, first), id, second) == registry_after_get(
            instances,
            id,
            first,
        ),
{
}

/// Getting the instance of one window leaves the instances of all other
/// windows as they were.
pub proof fn law_get_instance_keeps_others<A>(instances: Map<usize, A>, id: usize, spawned: A, other: usize)
    requires
        other != id,
    ensures
        registry_after_get(instances, id, spawned).contains_key(other) == instances.contains_key(other),
        instances.contains_key(other) ==> registry_after_get(instances, id, spawned)[other] == instances[other],
{
}

/// Once the instance of a window has stopped and been forgotten, the next
/// event for that window gets a new instance.
pub proof fn law_stopped_window_gets_new_instance<A>(instances: Map<usize, A>, id: usize, spawned: A)
    ensures
        registry_after_get(instances.remove(id), id, spawned) == instances.insert(id, spawned),
        registry_after_get(instances.remove(id), id, spawned)[id] == spawned,
{
    assert(instances.remove(id).insert(id, spawned) =~= instances.insert(id, spawned));
}

/// A message that the manager handles, as its instances and its channel
/// see it: a window event for an id, with the instance that is got for it;
/// the notice that an instance has stopped; a channel to attach.
pub enum ManagerMsg<A, S> {
    WindowData(usize, A),
    InstanceKill(usize),
    AttachSender(S),
}

/// The instances and the channel after the manager handled one message.
pub open spec fn manager_after<A, S>(instances: Map<usize, A>, sender: Option<S>, msg: ManagerMsg<A, S>) -> (
    Map<usize, A>,
    Option<S>,
) {
    match msg {
        ManagerMsg::WindowData(id, instance) => (registry_after_get(instances, id, instance), sender),
        ManagerMsg::InstanceKill(id) => (instances.remove(id), sender),
        ManagerMsg::AttachSender(s) => (instances, Some(s)),
    }
}

/// The instances and the channel after the manager handled `msgs` in turn.
pub open spec fn manager_after_run<A, S>(instances: Map<usize, A>, sender: Option<S>, msgs: Seq<ManagerMsg<A, S>>) -> (
    Map<usize, A>,
    Option<S>,
)
    decreases msgs.len(),
{
    if msgs.len() == 0 {
        (instances, sender)
    } else {
        let before = manager_after_run(instances, sender, msgs.drop_last());
        manager_after(before.0, before.1, msgs.last())
    }
}

proof fn lemma_channel_stays_from<A, S>(instances: Map<usize, A>, sender: Option<S>, msgs: Seq<ManagerMsg<A, S>>, i: int, k: int)
    requires
        0 <= i < k <= msgs.len(),
        msgs[i] is AttachSender,
    ensures
        manager_after_run(instances, sender, msgs.take(k)).1 is Some,
    decreases k,
{
    assert(msgs.take(k).drop_last() =~= msgs.take(k - 1));
    if k > i + 1 {
        lemma_channel_stays_from(instances, sender, msgs, i, k - 1);
    }
}

proof fn lemma_no_channel_before_attach<A, S>(instances: Map<usize, A>, msgs: Seq<ManagerMsg<A, S>>, k: int)
    requires
        0 <= k <= msgs.len(),
        forall|j: int| 0 <= j < k ==> !(#[trigger] msgs[j] is AttachSender),
    ensures
        manager_after_run(instances, None::<S>, msgs.take(k)).1 is None,
    decreases k,
{
    if k > 0 {
        assert(msgs.take(k).drop_last() =~= msgs.take(k - 1));
        assert(msgs.take(k).last() == msgs[k - 1]);
        lemma_no_channel_before_attach(instances, msgs, k - 1);
    }
}

/// Starting from a manager without a channel, a window event that comes
/// before any channel was attached finds none (getting an instance then
/// cannot be done); once a channel has been attached, every later window
/// event finds one, whatever stopped instances and other channels come in
/// between.
pub proof fn law_attached_channel_stays<A, S>(instances: Map<usize, A>, msgs: Seq<ManagerMsg<A, S>>)
    ensures
        forall|k: int|
            0 <= k <= msgs.len() && (forall|j: int| 0 <= j < k ==> !(#[trigger] msgs[j] is AttachSender))
                ==> (#[trigger] manager_after_run(instances, None::<S>, msgs.take(k))).1 is None,
        forall|i: int, k: int|
            0 <= i < k <= msgs.len() && #[trigger] msgs[i] is AttachSender
                ==> (#[trigger] manager_after_run(instances, None::<S>, msgs.take(k))).1 is Some,
{
    assert forall|k: int|
        0 <= k <= msgs.len() && (forall|j: int| 0 <= j < k ==> !(#[trigger] msgs[j] is AttachSender)) implies
        (#[trigger] manager_after_run(instances, None::<S>, msgs.take(k))).1 is None by {
        lemma_no_channel_before_attach(instances, msgs, k);
    }
    assert forall|i: int, k: int|
        0 <= i < k <= msgs.len() && #[trigger] msgs[i] is AttachSender implies
        (#[trigger] manager_after_run(instances, None::<S>, msgs.take(k))).1 is Some by {
        lemma_channel_stays_from(instances, None::<S>, msgs, i, k);
    }
}

proof fn lemma_instances_from_window_events<A, S>(sender: Option<S>, msgs: Seq<ManagerMsg<A, S>>)
    ensures
        forall|k: usize|
            #[trigger] manager_after_run(Map::<usize, A>::empty(), sender, msgs).0.contains_key(k) ==> exists|i: int|
                0 <= i < msgs.len() && msgs[i] == ManagerMsg::<A, S>::WindowData(
                    k,
                    manager_after_run(Map::<usize, A>::empty(), sender, msgs).0[k],
                ),
    decreases msgs.len(),
{
    if msgs.len() > 0 {
        let prev = msgs.drop_last();
        lemma_instances_from_window_events(sender, prev);
        let before = manager_after_run(Map::<usize, A>::empty(), sender, prev);
        let after = manager_after_run(Map::<usize, A>::empty(), sender, msgs);
        assert(after == manager_after(before.0, before.1, msgs.last()));
        assert forall|k: usize| #[trigger] after.0.contains_key(k) implies exists|i: int|
            0 <= i < msgs.len() && msgs[i] == ManagerMsg::<A, S>::WindowData(k, after.0[k]) by {
            let last = msgs.len() - 1;
            let fresh = match msgs.last() {
                ManagerMsg::WindowData(id, a) => id == k && !before.0.contains_key(k),
                _ => false,
            };
            if fresh {
                assert(msgs[last] == ManagerMsg::<A, S>::WindowData(k, after.0[k]));
            } else {
                assert(before.0.contains_key(k) && after.0[k] == before.0[k]);
                let i = choose|i: int|
                    0 <= i < prev.len() && prev[i] == ManagerMsg::<A, S>::WindowData(k, before.0[k]);
                assert(msgs[i] == prev[i]);
            }
        }
    }
}

/// Over any run of messages from a manager that keeps no instance (as the
/// runtime starts it): every instance kept under an id is the instance that
/// a window event for that id got; and an instance kept under an id is
/// never replaced by another: it stays until a stopped-instance notice for
/// that id, so a new instance for an id is only ever taken while the id
/// has none.
pub proof fn law_instances_come_from_their_window<A, S>(sender: Option<S>, msgs: Seq<ManagerMsg<A, S>>)
    ensures
        forall|k: usize|
            #[trigger] manager_after_run(Map::<usize, A>::empty(), sender, msgs).0.contains_key(k) ==> exists|i: int|
                0 <= i < msgs.len() && msgs[i] == ManagerMsg::<A, S>::WindowData(
                    k,
                    manager_after_run(Map::<usize, A>::empty(), sender, msgs).0[k],
                ),
        forall|j: int, k: usize|
            0 <= j < msgs.len() && #[trigger] manager_after_run(Map::<usize, A>::empty(), sender, msgs.take(j)).0.contains_key(k)
                && msgs[j] != ManagerMsg::<A, S>::InstanceKill(k) ==> {
                &&& manager_after_run(Map::<usize, A>::empty(), sender, msgs.take(j + 1)).0.contains_key(k)
                &&& manager_after_run(Map::<usize, A>::empty(), sender, msgs.take(j + 1)).0[k]
                    == manager_after_run(Map::<usize, A>::empty(), sender, msgs.take(j)).0[k]
            },
{
    lemma_instances_from_window_events(sender, msgs);
    assert forall|j: int, k: usize|
        0 <= j < msgs.len() && #[trigger] manager_after_run(Map::<usize, A>::empty(), sender, msgs.take(j)).0.contains_key(k)
            && msgs[j] != ManagerMsg::<A, S>::InstanceKill(k) implies {
            &&& manager_after_run(Map::<usize, A>::empty(), sender, msgs.take(j + 1)).0.contains_key(k)
            &&& manager_after_run(Map::<usize, A>::empty(), sender, msgs.take(j + 1)).0[k]
                == manager_after_run(Map::<usize, A>::empty(), sender, msgs.take(j)).0[k]
        } by {
        assert(msgs.take(j + 1).drop_last() =~= msgs.take(j));
        assert(msgs.take(j + 1).last() == msgs[j]);
    }
}

/// Keeps one instance per window, keyed by container id. `A` is the
/// runtime's handle of an instance, `S` the channel to the GTK side that
/// each new instance gets a copy of.
pub struct GlimmerManager<A, S> {
    instances: HashMap<usize, A>,
    sender: Option<S>,
}

impl<A, S> GlimmerManager<A, S> {
    /// The instances, by container id.
    pub closed spec fn instances_view(&self) -> Map<usize, A> {
        self.instances@
    }

    /// The channel to the GTK side, once attached.
    pub closed spec fn sender_view(&self) -> Option<S> {
        self.sender
    }
}

impl<A, S> Default for GlimmerManager<A, S> {
    fn default() -> (manager: Self)
        ensures
            manager.instances_view() == Map::<usize, A>::empty(),
            manager.sender_view() is None,
    {
        GlimmerManager { instances: HashMap::new(), sender: None }
    }
}

impl<A, S> GlimmerManager<A, S> {
    /// Whether the channel to the GTK side has been attached, which getting
    /// an instance needs.
    pub fn has_sender(&self) -> (attached: bool)
        ensures
            attached == self.sender_view() is Some,
    {
        self.sender.is_some()
    }

    /// Forgets the instance of a window whose instance has stopped; the
    /// other instances and the channel stay.
    pub fn handle_instance_kill(&mut self, msg: InstanceKillNotificationMsg)
        ensures
            final(self).instances_view() == old(self).instances_view().remove(msg.id),
            final(self).sender_view() == old(self).sender_view(),
            (final(self).instances_view(), final(self).sender_view()) == manager_after(
                old(self).instances_view(),
                old(self).sender_view(),
                ManagerMsg::InstanceKill(msg.id),
            ),
    {
        self.instances.remove(&msg.id);
    }

    /// Keeps the channel to the GTK side that new instances get; the
    /// instances stay as they are.
    pub fn handle_attach_sender(&mut self, msg: AttachSenderMsg<S>)
        ensures
            final(self).instances_view() == old(self).instances_view(),
            final(self).sender_view() == Some(msg.sender),
            (final(self).instances_view(), final(self).sender_view()) == manager_after(
                old(self).instances_view(),
                old(self).sender_view(),
                ManagerMsg::AttachSender(msg.sender),
            ),
    {
        self.sender = Some(msg.sender);
    }
}

impl<A, S: Clone> GlimmerManager<A, S> {
    /// The instance of the event's window: the one already kept for its
    /// container id, or else a new one that `spawn` starts with that id and
    /// a copy of the channel, and that the manager keeps from then on.
    pub fn get_instance<F: FnOnce(usize, S) -> A>(&mut self, msg: &WindowDataMsgWrapper, spawn: F) -> (instance: &A)
        requires
            old(self).sender_view() is Some,
            msg.has_window_data(),
            forall|s: S| !old(self).instances_view().contains_key(msg.container_id_of()) ==> spawn.requires((msg.container_id_of(), s)),
        ensures
            final(self).sender_view() == old(self).sender_view(),
            final(self).instances_view() == registry_after_get(old(self).instances_view(), msg.container_id_of(), *instance),
            (final(self).instances_view(), final(self).sender_view()) == manager_after(
                old(self).instances_view(),
                old(self).sender_view(),
                ManagerMsg::WindowData(msg.container_id_of(), *instance),
            ),
            old(self).instances_view().contains_key(msg.container_id_of()) ==> *instance == old(self).instances_view()[msg.container_id_of()],
            !old(self).instances_view().contains_key(msg.container_id_of()) ==> exists|s: S|
                cloned(old(self).sender_view().unwrap(), s) && #[trigger] spawn.ensures((msg.container_id_of(), s), *instance),
    {
        let id = msg.get_container_id();
        let sender = self.sender.as_ref().unwrap().clone();
        if !self.instances.contains_key(&id) {
            let instance = spawn(id, sender);
            let ghost spawned = instance;
            self.instances.insert(id, instance);
            let found = self.instances.get(&id).unwrap();
            assert(cloned(old(self).sender_view().unwrap(), sender));
            assert(*found == spawned);
            return found;
        }
        self.instances.get(&id).unwrap()
    }
}

} // verus!
