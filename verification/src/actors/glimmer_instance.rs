use crate::actors::glimmer_manager::{WindowDataMsgTrait, WindowDataMsgWrapper};
use crate::actors::glimmer_manager::{manager_after, ManagerMsg};
use crate::gtk_utils::{action_for, closed_by, next_windows, table_after, Messages, WindowAction, WindowOp, WindowShim};
use crate::ipc::{Rect, WindowChange};
use vstd::prelude::*;

verus! {

/// Where a decoration stands on the screen, and how large it is.
#[derive(Debug, Clone, Copy, PartialEq, Eq)]
pub struct Geometry {
    pub x: i32,
    pub y: i32,
    pub width: i32,
    pub height: i32,
}

/// The geometry of an i3 rectangle: each coordinate taken as an `i32`.
pub open spec fn geometry_of(rect: Rect) -> Geometry {
    Geometry {
        x: rect.x as i32,
        y: rect.y as i32,
        width: rect.width as i32,
        height: rect.height as i32,
    }
}

impl From<Rect> for Geometry {
    fn from(rect: Rect) -> (g: Geometry)
        ensures
            g == geometry_of(rect),
    {
        Geometry {
            x: #[verifier::truncate] (rect.x as i32),
            y: #[verifier::truncate] (rect.y as i32),
            width: #[verifier::truncate] (rect.width as i32),
            height: #[verifier::truncate] (rect.height as i32),
        }
    }
}

impl vstd::std_specs::convert::FromSpecImpl<Rect> for Geometry {
    open spec fn obeys_from_spec() -> bool {
        true
    }

    open spec fn from_spec(rect: Rect) -> Geometry {
        geometry_of(rect)
    }
}

/// Asks an instance to take its decoration down.
#[derive(Debug)]
pub struct DismountMsg {}

/// Tells the manager that the instance of this window has stopped.
#[derive(Debug, Clone, Copy, PartialEq, Eq)]
pub struct InstanceKillNotificationMsg {
    pub id: usize,
}

/// The request to the GTK side that a window event leads to: a focus
/// creates the decoration, a close destroys the one of that container, a
/// move or a fullscreen change updates it, and the other changes ask for
/// nothing.
pub open spec fn message_for(change: WindowChange, shim: WindowShim, container_id: usize) -> Messages {
    match change {
        WindowChange::Focus => Messages::Create(shim),
        WindowChange::Close => Messages::Destroy(container_id),
        WindowChange::Move => Messages::Update(shim),
        WindowChange::FullscreenMode => Messages::Update(shim),
        _ => Messages::Nothing,
    }
}

/// A focus event has the GTK side build a decoration showing the focused
/// window's title over its geometry; a close event takes down the decoration of the
/// container that closed; no other event takes a decoration down.
pub proof fn law_event_effect_on_decorations<W>(
    windows: Map<usize, W>,
    change: WindowChange,
    shim: WindowShim,
    container_id: usize,
)
    ensures
        change == WindowChange::Focus ==> action_for(windows, message_for(change, shim, container_id))
            == WindowAction::<W>::Build(shim.id, shim.label, shim.geometry),
        change == WindowChange::Close ==> next_windows(windows, message_for(change, shim, container_id))
            == windows.remove(container_id),
        change != WindowChange::Close ==> next_windows(windows, message_for(change, shim, container_id))
            == windows,
{
}

/// What an instance of window `id` sends when it stops: the notice that
/// tells the manager the instance is gone, and the request that has the GTK
/// side destroy the window's decoration.
pub open spec fn stop_notice(id: usize) -> (InstanceKillNotificationMsg, Messages) {
    (InstanceKillNotificationMsg { id }, Messages::Destroy(id))
}

/// When an instance stops, the manager, handling its notice, forgets that
/// window's instance and keeps all others and the channel; the GTK side,
/// handling its request, drops the window's decoration, hands it back to
/// be closed if it held one, and keeps all others.
pub proof fn law_stopped_instance_is_cleaned_up<H, A, S, W>(
    instance: GlimmerInstance<H>,
    instances: Map<usize, A>,
    sender: Option<S>,
    windows: Map<usize, W>,
)
    ensures
        ({
            let id = instance.window_id();
            let notice = stop_notice(id);
            let manager = manager_after(instances, sender, ManagerMsg::InstanceKill(notice.0.id));
            let table = table_after(windows, WindowOp::Receive(notice.1));
            &&& !manager.0.contains_key(id)
            &&& manager.0 == instances.remove(id)
            &&& manager.1 == sender
            &&& !table.contains_key(id)
            &&& table == windows.remove(id)
            &&& closed_by(windows, WindowOp::Receive(notice.1)) == (if windows.contains_key(id) {
                seq![windows[id]]
            } else {
                Seq::<W>::empty()
            })
        }),
{
}

/// What an instance asks of the runtime for one window event: send
/// `message` to the GTK side, cancel the dismount armed before (if any),
/// and arm `dismount` anew.
#[derive(Debug)]
pub struct InstanceStep<H> {
    pub message: Messages,
    pub cancel: Option<H>,
    pub dismount: DismountMsg,
}

/// The decoration of one window, kept alive while events come for it and
/// taken down once none has come for a while. `H` is the runtime's handle
/// of the armed dismount.
pub struct GlimmerInstance<H> {
    pub id: usize,
    pub kill_handle: Option<H>,
}

impl<H> GlimmerInstance<H> {
    /// The id of the window this instance decorates.
    pub open spec fn window_id(&self) -> usize {
        self.id
    }

    /// The dismount that is armed, if any.
    pub open spec fn pending_dismount(&self) -> Option<H> {
        self.kill_handle
    }

    /// An instance for window `id`, with no dismount armed.
    pub fn new(id: usize) -> (instance: Self)
        ensures
            instance.window_id() == id,
            instance.pending_dismount() is None,
    {
        Self { id, kill_handle: None }
    }

    /// Takes a window event: says which request goes to the GTK side, and
    /// hands back the armed dismount so that it can be cancelled before a
    /// new one is armed.
    pub fn handle(&mut self, msg: &WindowDataMsgWrapper) -> (step: InstanceStep<H>)
        requires
            msg.has_window_data(),
        ensures
            step.message == message_for(msg.change_of(), msg.window_shim_of(), msg.container_id_of()),
            step.cancel == old(self).pending_dismount(),
            final(self).window_id() == old(self).window_id(),
            final(self).pending_dismount() is None,
    {
        let message: Messages = match msg.get_change() {
            WindowChange::Focus => Messages::Create(msg.get_window_shim()),
            WindowChange::Close => Messages::Destroy(msg.get_container_id()),
            WindowChange::Move => Messages::Update(msg.get_window_shim()),
            WindowChange::FullscreenMode => Messages::Update(msg.get_window_shim()),
            _ => Messages::Nothing,
        };
        let cancel = self.kill_handle.take();
        InstanceStep { message, cancel, dismount: DismountMsg {} }
    }

    /// Records the dismount that the runtime armed for the last event.
    pub fn dismount_scheduled(&mut self, handle: H)
        ensures
            final(self).window_id() == old(self).window_id(),
            final(self).pending_dismount() == Some(handle),
    {
        self.kill_handle = Some(handle);
    }

    /// What a stopping instance sends: the manager learns that this id is
    /// gone, and the GTK side destroys its decoration.
    pub fn stopped(&self) -> (notice: (InstanceKillNotificationMsg, Messages))
        ensures
            notice == stop_notice(self.window_id()),
    {
        (InstanceKillNotificationMsg { id: self.id }, Messages::Destroy(self.id))
    }
}

} // verus!
