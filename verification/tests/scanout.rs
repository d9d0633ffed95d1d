use projectwc::backend::formats::Format;
use projectwc::backend::scanout::{
    after_attempt, compositor_attempt, first_attempt, CompositorStep, Planes,
};

fn run(outcomes: &[bool]) -> CompositorStep {
    outcomes.iter().fold(first_attempt(), |step, made| after_attempt(step, *made))
}

fn planes() -> Planes {
    Planes { primary: vec![1, 2], cursor: vec![3], overlay: vec![4, 5] }
}

#[test]
fn the_preferred_formats_come_first() {
    assert_eq!(run(&[]), CompositorStep::MakeSurface { fallback: false });
    assert_eq!(run(&[true]), CompositorStep::MakeCompositor { fallback: false });
    assert_eq!(run(&[true, true]), CompositorStep::Ready);
}

#[test]
fn the_fallback_gets_a_surface_of_its_own() {
    assert_eq!(run(&[true, false]), CompositorStep::MakeSurface { fallback: true });
    assert_eq!(run(&[true, false, true]), CompositorStep::MakeCompositor { fallback: true });
    assert_eq!(run(&[true, false, true, true]), CompositorStep::Ready);
}

#[test]
fn two_failures_are_fatal() {
    assert_eq!(run(&[true, false, true, false]), CompositorStep::Fatal);
    assert_eq!(run(&[false]), CompositorStep::Fatal);
    assert_eq!(run(&[true, false, false]), CompositorStep::Fatal);
    assert_eq!(after_attempt(CompositorStep::Fatal, true), CompositorStep::Fatal);
    assert_eq!(after_attempt(CompositorStep::Ready, false), CompositorStep::Ready);
}

#[test]
fn an_attempt_uses_no_overlay_planes() {
    let linear = Format { code: 1, modifier: 0 };
    let compressed = Format { code: 1, modifier: 0x0100_0000_0000_0004 };
    let chosen = Format { code: 1, modifier: 0x00ff_ffff_ffff_ffff };
    let renderable = vec![linear, compressed, chosen];
    let first = compositor_attempt(false, &renderable, planes());
    assert_eq!(first.formats, vec![linear, chosen]);
    assert_eq!(first.planes.primary, vec![1, 2]);
    assert_eq!(first.planes.cursor, vec![3]);
    assert!(first.planes.overlay.is_empty());
    assert_eq!(first.color_formats, [875_713_089, 875_708_993]);
    let second = compositor_attempt(true, &renderable, planes());
    assert_eq!(second.formats, vec![chosen]);
    assert!(second.planes.overlay.is_empty());
}
