//! The plane that outputs and windows are mapped on.
use crate::backend::connector::Mode;
use crate::backend::udev::UdevOutputState;
use vstd::prelude::*;

verus! {

/// A size in pixels.
#[derive(Clone, Copy, PartialEq, Eq, Structural, Debug)]
pub struct Size {
    pub w: i32,
    pub h: i32,
}

/// An axis-parallel rectangle.
#[derive(Clone, Copy, PartialEq, Eq, Structural, Debug)]
pub struct Rectangle {
    pub x: i32,
    pub y: i32,
    pub w: i32,
    pub h: i32,
}

/// An output that is mapped on the space.
///
/// `geometry` is the part of the space that the output shows; an output without a mode
/// shows none. `udev` is set on the outputs that stand for a connector of a device.
#[derive(Clone, Copy, PartialEq, Eq, Structural, Debug)]
pub struct Output {
    pub id: u64,
    pub mode: Option<Mode>,
    pub geometry: Option<Rectangle>,
    pub udev: Option<UdevOutputState>,
}

/// A window that is mapped on the space, with the surface of its toplevel where it has one.
#[derive(Clone, Copy, PartialEq, Eq, Structural, Debug)]
pub struct Window {
    pub id: u64,
    pub toplevel: Option<u64>,
}

/// The mapped outputs in the order in which they were mapped, and the mapped windows from
/// the bottom of the stack to its top.
#[derive(Debug)]
pub struct Space {
    pub outputs: Vec<Output>,
    pub elements: Vec<Window>,
}

/// The window's toplevel has this surface.
pub open spec fn has_surface(surface: u64) -> spec_fn(Window) -> bool {
    |w: Window| w.toplevel == Some(surface)
}

impl Space {
    /// The plane with nothing on it.
    pub fn new() -> (r: Space)
        ensures
            r.outputs@ == Seq::<Output>::empty(),
            r.elements@ == Seq::<Window>::empty(),
    {
        Space { outputs: Vec::new(), elements: Vec::new() }
    }
}

} // verus!
