//! What clients ask for over the protocols.
pub mod compositor;
pub mod dnd;
pub mod drm_lease;
pub mod layer_shell;
pub mod screencopy;
