//! The decision core of a Wayland compositor: which outputs and surfaces exist,
//! where things are placed, and what has to be done when something happens.
pub mod action;
pub mod backend;
pub mod error;
pub mod handlers;
pub mod search;
pub mod space;
pub mod state;
pub mod text;
