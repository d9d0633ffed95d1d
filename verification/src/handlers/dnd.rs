//! Drag and drop.
use vstd::prelude::*;

verus! {

/// What the client drags with.
#[derive(Clone, Copy, PartialEq, Eq, Structural, Debug)]
pub enum GrabType {
    Pointer,
    Touch,
}

/// What a request to drag leads to.
#[derive(Clone, Copy, PartialEq, Eq, Structural, Debug)]
pub enum DndAction {
    /// The pointer is grabbed; it keeps its focus.
    GrabPointer,
    /// Dragging by touch is not offered.
    Ignore,
}

/// What a request to drag leads to.
pub open spec fn dnd_action(grab: GrabType) -> DndAction {
    if grab == GrabType::Pointer {
        DndAction::GrabPointer
    } else {
        DndAction::Ignore
    }
}

/// Decides about a client's request to drag.
pub fn dnd_requested(grab: GrabType) -> (r: DndAction)
    ensures
        r == match grab {
            GrabType::Pointer => DndAction::GrabPointer,
            GrabType::Touch => DndAction::Ignore,
        },
        r == dnd_action(grab),
{
    match grab {
        GrabType::Pointer => DndAction::GrabPointer,
        GrabType::Touch => DndAction::Ignore,
    }
}

/// The pointer is grabbed for those who drag with it, and for nobody else.
pub proof fn law_only_pointers_drag(grab: GrabType)
    ensures
        dnd_action(grab) == DndAction::GrabPointer <==> grab is Pointer,
        dnd_action(grab) == DndAction::Ignore <==> grab is Touch,
{
}

} // verus!
