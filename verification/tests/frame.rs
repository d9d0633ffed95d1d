use projectwc::backend::connector::{ConnectorInfo, ConnectorMode, Mode, Timings};
use projectwc::backend::frame::{
    EventMetadata, EventTime, FrameCommand, FrameResult, Presentation, PresentationKind,
    RenderElement, Submission, Time, Vblank,
};
use projectwc::backend::udev::{GpuProbe, PrimaryGpu, Udev};
use projectwc::handlers::layer_shell::{Layer, LayerSurface};
use projectwc::space::{Rectangle, Window};
use projectwc::state::ProjectWC;

const MODE: Mode = Mode { width: 1920, height: 1080, refresh: 60_000 };
const FULL_HD: Timings = Timings {
    width: 1920,
    height: 1080,
    clock: 148_500,
    htotal: 2200,
    vtotal: 1125,
    vscan: 0,
    flags: 0,
};
const AT: Time = Time { seconds: 12, nanoseconds: 500 };

fn shown() -> (Udev, ProjectWC) {
    let mut wc = ProjectWC::new(String::from("wayland-1"));
    let (mut udev, _) = Udev::new(PrimaryGpu::Found(128), &Vec::new(), &mut wc).unwrap();
    let gpu = GpuProbe { software: false, render_node: None };
    udev.device_added(1, gpu, true, &None, &mut wc).unwrap();
    let connector = ConnectorInfo {
        handle: 3,
        interface: 11,
        interface_id: 1,
        size: None,
        modes: vec![ConnectorMode { timings: FULL_HD, mode_type: 8 }],
        properties: None,
        display: None,
    };
    udev.connector_connected(1, &connector, 40, &mut wc);
    wc.space.elements.push(Window { id: 7, toplevel: Some(70) });
    wc.space.elements.push(Window { id: 8, toplevel: None });
    (udev, wc)
}

fn layer(id: u64, layer: Layer, place: Option<(i32, i32)>) -> LayerSurface {
    LayerSurface {
        id,
        surface: id + 100,
        layer,
        geometry: place.map(|(x, y)| Rectangle { x, y, w: 10, h: 10 }),
    }
}

#[test]
fn the_cursor_is_drawn_above_the_layers() {
    let (udev, wc) = shown();
    let layers = vec![
        layer(1, Layer::Background, Some((0, 0))),
        layer(2, Layer::Top, Some((5, 6))),
        layer(3, Layer::Bottom, None),
        layer(4, Layer::Overlay, Some((7, 8))),
        layer(5, Layer::Bottom, Some((1, 2))),
        layer(6, Layer::Top, None),
    ];
    let elements = udev.render(1, &wc.space.outputs[0], 30, 40, &layers).unwrap();
    assert_eq!(
        elements,
        vec![
            RenderElement::Cursor { x: 30, y: 40, size: 16 },
            RenderElement::Layer { layer: 2, x: 5, y: 6 },
            RenderElement::Layer { layer: 4, x: 7, y: 8 },
            RenderElement::Layer { layer: 1, x: 0, y: 0 },
            RenderElement::Layer { layer: 5, x: 1, y: 2 },
        ]
    );
}

#[test]
fn what_no_device_shows_is_not_drawn() {
    let (mut udev, mut wc) = shown();
    let output = wc.space.outputs[0];
    assert!(udev.render(2, &output, 0, 0, &Vec::new()).is_none());
    udev.connector_disconnected(1, 3, 40, &mut wc);
    assert!(udev.render(1, &output, 0, 0, &Vec::new()).is_none());
}

#[test]
fn windows_hear_of_a_frame_that_was_drawn() {
    let (udev, wc) = shown();
    let told = vec![
        FrameCommand::SendFrame { window: 7, output: 0 },
        FrameCommand::SendFrame { window: 8, output: 0 },
        FrameCommand::RefreshSpace,
        FrameCommand::FlushClients,
    ];
    assert!(udev.after_frame(FrameResult::Empty, 0, &wc).is_empty());
    assert_eq!(udev.after_frame(FrameResult::Drawn, 0, &wc), told);
    let mut failed = vec![FrameCommand::ResetBuffers];
    failed.extend(told);
    assert_eq!(udev.after_frame(FrameResult::Failed, 0, &wc), failed);
}

#[test]
fn a_shown_frame_is_marked_at_its_time() {
    let (udev, _) = shown();
    let meta = EventMetadata { time: EventTime::Monotonic(AT), sequence: 9 };
    assert_eq!(udev.on_vblank(1, 40, meta), Vblank::Submit(AT));
    let wall = EventMetadata { time: EventTime::Realtime, sequence: 9 };
    let zero = Time { seconds: 0, nanoseconds: 0 };
    assert_eq!(udev.on_vblank(1, 40, wall), Vblank::Submit(zero));
    assert_eq!(udev.on_vblank(1, 41, meta), Vblank::NoSurface);
    assert_eq!(udev.on_vblank(2, 40, meta), Vblank::NoDevice);
}

#[test]
fn clients_hear_of_a_frame_that_was_shown() {
    let (udev, wc) = shown();
    let meta = EventMetadata { time: EventTime::Monotonic(AT), sequence: u32::MAX };
    let next = udev.frame_submitted(1, 40, meta, Submission::Feedback(Some(MODE)), &wc);
    assert_eq!(
        next.presented,
        Some(Presentation {
            time: AT,
            refresh: Some(60_000),
            sequence: 4_294_967_295,
            kind: PresentationKind {
                vsync: true,
                hw_clock: true,
                hw_completion: true,
                zero_copy: false,
            },
        })
    );
    assert_eq!(next.output, 0);
    assert_eq!(next.delay, AT);
}

#[test]
fn the_next_frame_is_drawn_whatever_became_of_the_last() {
    let (udev, wc) = shown();
    let wall = EventMetadata { time: EventTime::Realtime, sequence: 3 };
    for submission in [Submission::Nothing, Submission::Failed] {
        let next = udev.frame_submitted(1, 40, wall, submission, &wc);
        assert_eq!(next.presented, None);
        assert_eq!(next.output, 0);
        assert_eq!(next.delay, Time { seconds: 0, nanoseconds: 0 });
    }
    let next = udev.frame_submitted(1, 40, wall, Submission::Feedback(None), &wc);
    assert_eq!(next.presented.unwrap().refresh, None);
}
