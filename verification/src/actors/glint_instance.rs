pub use crate::actors::glimmer_instance::{Geometry, InstanceKillNotificationMsg};
use vstd::prelude::*;

verus! {

/// Asks an instance to show a decoration with this title over this area.
#[derive(Debug)]
pub struct CreateDecorationMsg {
    pub label: String,
    pub geometry: Geometry,
}

/// Asks an instance to take its decoration down.
#[derive(Debug)]
pub struct DismountMsg {}

/// The decoration of one window, as a window `W` of the GTK side.
pub struct GlintInstance<W> {
    pub id: usize,
    pub window: Option<W>,
}

impl<W> GlintInstance<W> {
    /// The id of the window this instance decorates.
    pub open spec fn window_id(&self) -> usize {
        self.id
    }

    /// The decoration shown, if any.
    pub open spec fn window_view(&self) -> Option<W> {
        self.window
    }

    /// An instance for window `id` that shows nothing yet.
    pub fn new(id: usize) -> (instance: Self)
        ensures
            instance.window_id() == id,
            instance.window_view() is None,
    {
        Self { id, window: None }
    }

    /// Keeps the decoration just built for a create request, in place of
    /// any earlier one, and asks for its dismount.
    pub fn mount(&mut self, window: W) -> (dismount: DismountMsg)
        ensures
            final(self).window_id() == old(self).window_id(),
            final(self).window_view() == Some(window),
    {
        self.window = Some(window);
        DismountMsg {}
    }

    /// The decoration to close when the instance stops.
    pub fn stopped(&self) -> (window: Option<&W>)
        ensures
            match window {
                Some(w) => self.window_view() == Some(*w),
                None => self.window_view() is None,
            },
    {
        match &self.window {
            Some(window) => Some(window),
            None => None,
        }
    }
}

} // verus!
