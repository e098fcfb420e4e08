pub mod glimmer_instance;
pub mod glimmer_manager;
pub mod glint_instance;
pub mod glint_manager;
pub mod i3_ipc;
pub mod messages;
