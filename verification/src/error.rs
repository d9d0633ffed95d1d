//! What can go wrong.
use vstd::prelude::*;

verus! {

/// A failure that the compositor reports to its caller.
#[derive(Debug)]
pub enum CompositorError {
    /// The backend could not do what was asked.
    Backend(String),
    /// A frame could not be copied out to a client.
    Screencopy(String),
}

/// The model of a [`CompositorError`].
pub enum ErrorView {
    Backend(Seq<char>),
    Screencopy(Seq<char>),
}

impl View for CompositorError {
    type V = ErrorView;

    open spec fn view(&self) -> ErrorView {
        match self {
            CompositorError::Backend(s) => ErrorView::Backend(s@),
            CompositorError::Screencopy(s) => ErrorView::Screencopy(s@),
        }
    }
}

/// The model of an error tells the two kinds apart and has the words of the error.
pub proof fn law_error_model_is_complete(why: String)
    ensures
        CompositorError::Backend(why)@ == ErrorView::Backend(why@),
        CompositorError::Screencopy(why)@ == ErrorView::Screencopy(why@),
{
}

} // verus!
