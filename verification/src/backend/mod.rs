//! What shows the outputs: a window of another compositor, or the displays themselves.
use crate::backend::udev::Udev;
use crate::backend::winit::Winit;
use vstd::prelude::*;

pub mod checks;
pub mod connector;
pub mod effects;
pub mod formats;
pub mod frame;
pub mod laws;
pub mod model;
pub mod scanout;
pub mod session;
pub mod udev;
pub mod winit;

verus! {

/// What shows the outputs.
#[derive(Debug)]
pub enum Backend {
    Winit(Winit),
    Udev(Udev),
}

/// Which backend to use.
#[derive(Clone, Copy, PartialEq, Eq, Structural, Debug)]
pub enum BackendKind {
    Winit,
    Udev,
}

impl Backend {
    /// The backend that drives displays, where it is in use.
    pub fn udev(&mut self) -> (r: &mut Udev)
        requires
            *old(self) is Udev,
        ensures
            *old(self) == Backend::Udev(*r),
            *final(self) == Backend::Udev(*final(r)),
    {
        match self {
            Backend::Udev(udev) => udev,
            Backend::Winit(_) => vstd::pervasive::unreached(),
        }
    }

    /// The backend that shows a window, where it is in use.
    pub fn winit(&mut self) -> (r: &mut Winit)
        requires
            *old(self) is Winit,
        ensures
            *old(self) == Backend::Winit(*r),
            *final(self) == Backend::Winit(*final(r)),
    {
        match self {
            Backend::Winit(winit) => winit,
            Backend::Udev(_) => vstd::pervasive::unreached(),
        }
    }
}

/// The backend for what the environment names: a window where it names another compositor.
pub open spec fn backend_for(wayland_display: bool, x_display: bool) -> BackendKind {
    match (wayland_display, x_display) {
        (false, false) => BackendKind::Udev,
        _ => BackendKind::Winit,
    }
}

/// Picks the backend: a window where another compositor is there to show it, by either
/// protocol, else the displays themselves.
pub fn choose_backend(wayland_display: bool, x_display: bool) -> (r: BackendKind)
    ensures
        r == if wayland_display || x_display {
            BackendKind::Winit
        } else {
            BackendKind::Udev
        },
        r == backend_for(wayland_display, x_display),
{
    if wayland_display || x_display {
        BackendKind::Winit
    } else {
        BackendKind::Udev
    }
}

/// The displays are driven only where there is no other compositor; it makes no difference
/// by which protocol there is one.
pub proof fn law_displays_are_the_last_resort(wayland_display: bool, x_display: bool)
    ensures
        backend_for(wayland_display, x_display) == BackendKind::Udev <==> !wayland_display
            && !x_display,
        backend_for(wayland_display, x_display) == BackendKind::Winit <==> wayland_display
            || x_display,
        backend_for(wayland_display, x_display) == backend_for(x_display, wayland_display),
{
}

} // verus!
