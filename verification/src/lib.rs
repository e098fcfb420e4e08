pub mod actors;
pub mod gtk_utils;
pub mod ipc;
