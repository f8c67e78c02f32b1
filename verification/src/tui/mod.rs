//! The terminal frontend without the terminal: typed commands and
//! embedded documents in [`command`], the saved-plan library in
//! [`store`], the application's states in [`state`] and its transitions
//! in [`app`], what the panes show in [`view`], and where they lie in
//! [`layout`].

pub mod app;
pub mod command;
pub mod laws;
pub mod layout;
pub mod state;
pub mod store;
pub mod view;
