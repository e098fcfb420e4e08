use crate::actors::glimmer_manager::{manager_after, registry_after_get, ManagerMsg};
use crate::actors::glint_instance::InstanceKillNotificationMsg;
use crate::ipc::{Node, WindowChange};
use std::collections::HashMap;
use vstd::prelude::*;

verus! {

broadcast use vstd::std_specs::hash::group_hash_axioms;

/// A window event as i3 reports it.
#[derive(Debug)]
pub struct WindowDataMsg {
    pub change: WindowChange,
    pub container: Node,
}

/// Hands the manager the channel to the GTK side.
#[derive(Debug)]
pub struct AttachSenderMsg<S> {
    pub sender: S,
}

/// Keeps one decoration instance per window, keyed by container id. `A`
/// is the runtime's handle of an instance, `S` the channel to the GTK side.
pub struct GlintManager<A, S> {
    instances: HashMap<usize, A>,
    sender: Option<S>,
}

impl<A, S> GlintManager<A, S> {
    /// The instances, by container id.
    pub closed spec fn instances_view(&self) -> Map<usize, A> {
        self.instances@
    }

    /// The channel to the GTK side, once attached.
    pub closed spec fn sender_view(&self) -> Option<S> {
        self.sender
    }

    /// Forgets the instance of a window whose instance has stopped; the
    /// other instances and the channel stay.
    pub fn handle_instance_kill(&mut self, msg: InstanceKillNotificationMsg)
        ensures
            final(self).instances_view() == old(self).instances_view().remove(msg.id),
            final(self).sender_view() == old(self).sender_view(),
            (final(self).instances_view(), final(self).sender_view()) == manager_after(
                old(self).instances_view(),
                old(self).sender_view(),
                ManagerMsg::InstanceKill(msg.id),
            ),
    {
        self.instances.remove(&msg.id);
    }

    /// Keeps the channel to the GTK side; the instances stay as they are.
    pub fn handle_attach_sender(&mut self, msg: AttachSenderMsg<S>)
        ensures
            final(self).instances_view() == old(self).instances_view(),
            final(self).sender_view() == Some(msg.sender),
            (final(self).instances_view(), final(self).sender_view()) == manager_after(
                old(self).instances_view(),
                old(self).sender_view(),
                ManagerMsg::AttachSender(msg.sender),
            ),
    {
        self.sender = Some(msg.sender);
    }
}

impl<A, S> Default for GlintManager<A, S> {
    fn default() -> (manager: Self)
        ensures
            manager.instances_view() == Map::<usize, A>::empty(),
            manager.sender_view() is None,
    {
        GlintManager { instances: HashMap::new(), sender: None }
    }
}

impl<A, S: Clone> GlintManager<A, S> {
    /// The instance of the event's window: the one already kept for its
    /// container id, or else a new one that `spawn` starts with that id and
    /// a copy of the channel, and that the manager keeps from then on.
    pub fn get_instance<F: FnOnce(usize, S) -> A>(&mut self, msg: &WindowDataMsg, spawn: F) -> (instance: &A)
        requires
            old(self).sender_view() is Some,
            forall|s: S| !old(self).instances_view().contains_key(msg.container.id) ==> spawn.requires((msg.container.id, s)),
        ensures
            final(self).sender_view() == old(self).sender_view(),
            final(self).instances_view() == registry_after_get(old(self).instances_view(), msg.container.id, *instance),
            (final(self).instances_view(), final(self).sender_view()) == manager_after(
                old(self).instances_view(),
                old(self).sender_view(),
                ManagerMsg::WindowData(msg.container.id, *instance),
            ),
            old(self).instances_view().contains_key(msg.container.id) ==> *instance == old(self).instances_view()[msg.container.id],
            !old(self).instances_view().contains_key(msg.container.id) ==> exists|s: S|
                cloned(old(self).sender_view().unwrap(), s) && #[trigger] spawn.ensures((msg.container.id, s), *instance),
    {
        let id = msg.container.id;
        let sender = self.sender.as_ref().unwrap().clone();
        if !self.instances.contains_key(&id) {
            let instance = spawn(id, sender);
            let ghost spawned = instance;
            self.instances.insert(id, instance);
            let found = self.instances.get(&id).unwrap();
            assert(cloned(old(self).sender_view().unwrap(), sender));
            assert(*found == spawned);
            return found;
        }
        self.instances.get(&id).unwrap()
    }
}

} // verus!
