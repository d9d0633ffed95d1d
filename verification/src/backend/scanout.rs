//! Making the compositor of a display: what is tried, and what comes of it.
use crate::backend::formats::driver_chosen;
use crate::backend::formats::render_formats;
use crate::backend::formats::supported_color_formats;
use crate::backend::formats::uncompressed;
use crate::backend::formats::Format;
use crate::backend::formats::ABGR8888;
use crate::backend::formats::ARGB8888;
use crate::search::lemma_filter_members;
use vstd::prelude::*;

verus! {

/// A step of making the compositor of a display. The preferred formats are tried first; the
/// fallback is tried only where they failed, and on a surface of its own.
#[derive(Clone, Copy, PartialEq, Eq, Structural, Debug)]
pub enum CompositorStep {
    /// Make a surface for the attempt.
    MakeSurface { fallback: bool },
    /// Make the compositor on the surface that was just made.
    MakeCompositor { fallback: bool },
    /// The compositor is there.
    Ready,
    /// There is no compositor to be had.
    Fatal,
}

/// The planes of a display controller, by what they are for.
#[derive(Debug)]
pub struct Planes {
    pub primary: Vec<u32>,
    pub cursor: Vec<u32>,
    pub overlay: Vec<u32>,
}

/// What the compositor is made with.
#[derive(Debug)]
pub struct CompositorAttempt {
    pub color_formats: [u32; 2],
    pub formats: Vec<Format>,
    pub planes: Planes,
}

impl CompositorStep {
    /// The step after this one succeeded or failed.
    pub open spec fn followed(self, made: bool) -> CompositorStep {
        match self {
            CompositorStep::MakeSurface { fallback } => if made {
                CompositorStep::MakeCompositor { fallback }
            } else {
                CompositorStep::Fatal
            },
            CompositorStep::MakeCompositor { fallback } => if made {
                CompositorStep::Ready
            } else if fallback {
                CompositorStep::Fatal
            } else {
                CompositorStep::MakeSurface { fallback: true }
            },
            done => done,
        }
    }
}

/// The formats of an attempt, out of those that the renderer can draw in.
pub open spec fn attempt_formats(fallback: bool, renderable: Seq<Format>) -> Seq<Format> {
    let preferred = renderable.filter(uncompressed());
    if fallback {
        preferred.filter(driver_chosen())
    } else {
        preferred
    }
}

/// The first step: a surface for the preferred formats.
pub fn first_attempt() -> (r: CompositorStep)
    ensures
        r == (CompositorStep::MakeSurface { fallback: false }),
{
    CompositorStep::MakeSurface { fallback: false }
}

/// Goes on after a step. Where a surface cannot be made, or the fallback fails too, there is
/// no compositor to be had.
pub fn after_attempt(step: CompositorStep, made: bool) -> (r: CompositorStep)
    ensures
        r == step.followed(made),
{
    match step {
        CompositorStep::MakeSurface { fallback } => if made {
            CompositorStep::MakeCompositor { fallback }
        } else {
            CompositorStep::Fatal
        },
        CompositorStep::MakeCompositor { fallback } => if made {
            CompositorStep::Ready
        } else if fallback {
            CompositorStep::Fatal
        } else {
            CompositorStep::MakeSurface { fallback: true }
        },
        done => done,
    }
}

/// What an attempt is made with, out of what the renderer can draw in and the planes that
/// the display controller has. Overlay planes are not used.
pub fn compositor_attempt(fallback: bool, renderable: &Vec<Format>, planes: Planes) -> (r:
    CompositorAttempt)
    ensures
        r.color_formats@ == seq![ARGB8888, ABGR8888],
        r.formats@ == attempt_formats(fallback, renderable@),
        r.planes.primary == planes.primary,
        r.planes.cursor == planes.cursor,
        r.planes.overlay@ == Seq::<u32>::empty(),
{
    let formats = render_formats(renderable);
    CompositorAttempt {
        color_formats: supported_color_formats(),
        formats: if fallback {
            formats.fallback
        } else {
            formats.preferred
        },
        planes: Planes { primary: planes.primary, cursor: planes.cursor, overlay: Vec::new() },
    }
}

/// The step that is reached when the steps so far came out like this.
pub open spec fn reached(outcomes: Seq<bool>) -> CompositorStep
    decreases outcomes.len(),
{
    if outcomes.len() == 0 {
        CompositorStep::MakeSurface { fallback: false }
    } else {
        reached(outcomes.drop_last()).followed(outcomes.last())
    }
}

proof fn lemma_reached(outcomes: Seq<bool>)
    ensures
        reached(outcomes) == if outcomes.len() == 0 {
            CompositorStep::MakeSurface { fallback: false }
        } else if !outcomes[0] {
            CompositorStep::Fatal
        } else if outcomes.len() == 1 {
            CompositorStep::MakeCompositor { fallback: false }
        } else if outcomes[1] {
            CompositorStep::Ready
        } else if outcomes.len() == 2 {
            CompositorStep::MakeSurface { fallback: true }
        } else if !outcomes[2] {
            CompositorStep::Fatal
        } else if outcomes.len() == 3 {
            CompositorStep::MakeCompositor { fallback: true }
        } else if outcomes[3] {
            CompositorStep::Ready
        } else {
            CompositorStep::Fatal
        },
    decreases outcomes.len(),
{
    if outcomes.len() > 0 {
        lemma_reached(outcomes.drop_last());
    }
}

/// The fallback is tried only after the preferred formats failed, and on a surface that was
/// made after that; with the preferred formats at work it is never tried.
pub proof fn law_fallback_only_after_failure(outcomes: Seq<bool>)
    ensures
        reached(outcomes) == (CompositorStep::MakeSurface { fallback: true }) <==> outcomes
            == seq![true, false],
        reached(outcomes) == (CompositorStep::MakeCompositor { fallback: true }) <==> outcomes
            == seq![true, false, true],
{
    lemma_reached(outcomes);
    if outcomes.len() == 2 && outcomes[0] && !outcomes[1] {
        assert(outcomes =~= seq![true, false]);
    }
    if outcomes.len() == 3 && outcomes[0] && !outcomes[1] && outcomes[2] {
        assert(outcomes =~= seq![true, false, true]);
    }
}

/// At most four steps are taken. There is a compositor in the end exactly when one of the two
/// attempts succeeds on a surface that could be made: two failures are fatal, one is not.
pub proof fn law_two_failures_are_fatal(
    surface: bool,
    made: bool,
    second_surface: bool,
    second_made: bool,
)
    ensures
        reached(seq![surface, made, second_surface, second_made]) == if surface && (made
            || second_surface && second_made) {
            CompositorStep::Ready
        } else {
            CompositorStep::Fatal
        },
{
    lemma_reached(seq![surface, made, second_surface, second_made]);
}

/// An attempt is made with formats that the renderer can draw in: the first with all but
/// those that keep compression data, the second with those that leave the layout to the
/// driver, and with all of these.
pub proof fn law_attempts_narrow_down(renderable: Seq<Format>, f: Format)
    ensures
        ({
            let first = attempt_formats(false, renderable);
            let second = attempt_formats(true, renderable);
            let vendor = f.modifier / 0x0100_0000_0000_0000;
            let number = f.modifier % 0x0100_0000_0000_0000;
            &&& first.contains(f) <==> renderable.contains(f) && !(vendor == 1 && (4 <= number <= 8
                || 10 <= number <= 12))
            &&& second.contains(f) <==> renderable.contains(f) && f.modifier
                == 0x0100_0000_0000_0000 - 1
            &&& second.contains(f) ==> first.contains(f)
        }),
{
    lemma_filter_members(renderable, uncompressed(), f);
    lemma_filter_members(renderable.filter(uncompressed()), driver_chosen(), f);
}

/// A compositor that is there stays, and where none is to be had none comes.
pub proof fn law_attempts_end(made: bool)
    ensures
        CompositorStep::Ready.followed(made) == CompositorStep::Ready,
        CompositorStep::Fatal.followed(made) == CompositorStep::Fatal,
{
}

/// The formats of an attempt are in the order of the renderer: one more format of the
/// renderer comes last, or is not used.
pub proof fn law_attempts_keep_the_order(fallback: bool, renderable: Seq<Format>, f: Format)
    ensures
        attempt_formats(fallback, Seq::empty()).len() == 0,
        attempt_formats(fallback, renderable.push(f)) == attempt_formats(fallback, renderable)
            || attempt_formats(fallback, renderable.push(f)) == attempt_formats(
            fallback,
            renderable,
        ).push(f),
        attempt_formats(fallback, renderable.push(f)) == attempt_formats(fallback, renderable).push(f)
            <==> attempt_formats(fallback, seq![f]).contains(f),
{
    reveal(Seq::filter);
    let preferred = renderable.filter(uncompressed());
    assert(renderable.push(f).drop_last() =~= renderable);
    assert(preferred.push(f).drop_last() =~= preferred);
    law_attempts_narrow_down(seq![f], f);
    assert(seq![f][0] == f);
    assert(preferred.push(f) != preferred) by {
        assert(preferred.push(f).len() != preferred.len());
    }
    let chosen = preferred.filter(driver_chosen());
    assert(chosen.push(f) != chosen) by {
        assert(chosen.push(f).len() != chosen.len());
    }
}

} // verus!
