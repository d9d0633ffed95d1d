use projectwc::backend::connector::Mode;
use projectwc::backend::frame::FrameCommand;
use projectwc::backend::winit::{
    after_step, fill_buffer, render_screencopy, BufferInfo, CopyStep, Transform, Winit,
    WinitCommand, WinitEvent,
};
use projectwc::backend::{choose_backend, Backend, BackendKind};
use projectwc::error::CompositorError;
use projectwc::space::{Rectangle, Size, Window};
use projectwc::state::{ProjectWC, Screencopy, State};

const SIZE: Size = Size { w: 1280, h: 800 };
const COPY: Screencopy = Screencopy { id: 5, output: 0, width: 2, height: 2 };
const LAYOUT: BufferInfo = BufferInfo { xrgb8888: true, width: 2, height: 2, stride: 8 };

fn window() -> (Winit, ProjectWC) {
    let mut wc = ProjectWC::new(String::from("wayland-1"));
    let plan = Winit::new(Ok(SIZE), &mut wc).unwrap();
    let winit = Winit::listen(&plan, Ok(())).unwrap();
    (winit, wc)
}

#[test]
fn the_window_becomes_an_output() {
    let mut wc = ProjectWC::new(String::from("wayland-1"));
    let plan = Winit::new(Ok(SIZE), &mut wc).unwrap();
    assert_eq!(plan.name, "winit");
    assert_eq!(plan.make, "projectwc");
    assert_eq!(plan.model, "winit");
    assert_eq!(plan.serial_number, "Unknown");
    assert_eq!(plan.physical_size, Size { w: 0, h: 0 });
    assert_eq!(plan.mode, Mode { width: 1280, height: 800, refresh: 60_000 });
    assert_eq!(plan.transform, Transform::Flipped180);
    assert_eq!((plan.x, plan.y), (0, 0));
    assert_eq!(plan.wayland_display, "wayland-1");
    let output = wc.space.outputs[0];
    assert_eq!(output.id, plan.output);
    assert_eq!(output.geometry, Some(Rectangle { x: 0, y: 0, w: 1280, h: 800 }));
    assert_eq!(output.udev, None);
    assert_eq!(wc.next_output, 1);
}

#[test]
fn without_a_window_there_is_no_backend() {
    let mut wc = ProjectWC::new(String::from("wayland-1"));
    match Winit::new(Err(String::from("no display")), &mut wc) {
        Err(CompositorError::Backend(why)) => assert_eq!(why, "no display"),
        other => panic!("unexpected: {other:?}"),
    }
    assert!(wc.space.outputs.is_empty());
    let plan = Winit::new(Ok(SIZE), &mut wc).unwrap();
    match Winit::listen(&plan, Err(String::from("no source"))) {
        Err(CompositorError::Backend(why)) => assert_eq!(why, "no source"),
        other => panic!("unexpected: {other:?}"),
    }
}

#[test]
fn a_resized_window_is_laid_out_anew() {
    let (winit, mut wc) = window();
    let steps = winit.on_event(WinitEvent::Resized(Size { w: 640, h: 480 }), &mut wc);
    let mode = Mode { width: 640, height: 480, refresh: 60_000 };
    assert_eq!(steps, vec![WinitCommand::SetMode { output: 0, mode }, WinitCommand::ApplyLayout]);
    assert_eq!(wc.space.outputs[0].mode, Some(mode));
    assert_eq!(wc.space.outputs[0].geometry, Some(Rectangle { x: 0, y: 0, w: 640, h: 480 }));
    winit.on_event(WinitEvent::Resized(SIZE), &mut wc);
    assert_eq!(wc.space.outputs[0].geometry, Some(Rectangle { x: 0, y: 0, w: 1280, h: 800 }));
    assert_eq!(wc.space.outputs.len(), 1);
}

#[test]
fn input_and_closing_are_passed_on() {
    let (winit, mut wc) = window();
    assert_eq!(winit.on_event(WinitEvent::Input, &mut wc), vec![WinitCommand::HandleInput]);
    assert_eq!(winit.on_event(WinitEvent::CloseRequested, &mut wc), vec![WinitCommand::Stop]);
    assert!(winit.on_event(WinitEvent::Other, &mut wc).is_empty());
}

#[test]
fn a_frame_is_drawn_and_the_windows_hear_of_it() {
    let (winit, mut wc) = window();
    wc.space.elements.push(Window { id: 7, toplevel: Some(70) });
    let steps = winit.on_event(WinitEvent::Redraw(SIZE), &mut wc);
    assert_eq!(
        steps,
        vec![
            WinitCommand::RenderOutput(0),
            WinitCommand::Submit(Rectangle { x: 0, y: 0, w: 1280, h: 800 }),
            WinitCommand::Frame(FrameCommand::SendFrame { window: 7, output: 0 }),
            WinitCommand::Frame(FrameCommand::RefreshSpace),
            WinitCommand::Frame(FrameCommand::FlushClients),
            WinitCommand::RequestRedraw,
        ]
    );
}

#[test]
fn a_request_for_a_copy_is_served_once() {
    let (winit, mut wc) = window();
    wc.frame(Screencopy { id: 4, ..COPY });
    wc.frame(COPY);
    let steps = winit.on_event(WinitEvent::Redraw(SIZE), &mut wc);
    assert_eq!(steps[2], WinitCommand::CopyFrame(COPY));
    assert_eq!(wc.pending_screencopy, None);
    let steps = winit.on_event(WinitEvent::Redraw(SIZE), &mut wc);
    assert!(!steps.iter().any(|s| matches!(s, WinitCommand::CopyFrame(_))));
}

#[test]
fn a_request_for_a_copy_of_another_output_is_dropped() {
    let (winit, mut wc) = window();
    wc.frame(Screencopy { output: 9, ..COPY });
    let steps = winit.on_event(WinitEvent::Redraw(SIZE), &mut wc);
    assert!(!steps.iter().any(|s| matches!(s, WinitCommand::CopyFrame(_))));
    assert_eq!(wc.pending_screencopy, None);
}

#[test]
fn a_copy_goes_through_its_steps() {
    let first = render_screencopy(COPY);
    assert_eq!(first, CopyStep::CopyFramebuffer(Rectangle { x: 0, y: 0, w: 2, h: 2 }));
    let second = after_step(first, Ok(())).unwrap();
    assert_eq!(second, CopyStep::MapTexture);
    let third = after_step(second, Ok(())).unwrap();
    assert_eq!(third, CopyStep::FillBuffer);
    assert_eq!(after_step(third, Ok(())).unwrap(), CopyStep::Submit);
}

#[test]
fn a_copy_reports_the_step_that_failed() {
    let failed = |step| match after_step(step, Err(String::from("Lost"))) {
        Err(CompositorError::Screencopy(text)) => text,
        other => panic!("unexpected: {other:?}"),
    };
    assert_eq!(failed(render_screencopy(COPY)), "copy_framebuffer: Lost");
    assert_eq!(failed(CopyStep::MapTexture), "map_texture: Lost");
    assert_eq!(failed(CopyStep::FillBuffer), "shm buffer: Lost");
}

#[test]
fn a_fitting_buffer_gets_the_picture() {
    let bytes: Vec<u8> = (0..20).collect();
    let mut buffer = [255u8; 16];
    assert!(fill_buffer(COPY, LAYOUT, &bytes, &mut buffer));
    assert_eq!(buffer.to_vec(), bytes[..16].to_vec());
}

#[test]
fn any_other_buffer_stays_as_it_is() {
    let bytes: Vec<u8> = (0..64).collect();
    let wrong = [
        BufferInfo { xrgb8888: false, ..LAYOUT },
        BufferInfo { width: 3, ..LAYOUT },
        BufferInfo { height: 1, ..LAYOUT },
        BufferInfo { stride: 12, ..LAYOUT },
    ];
    for info in wrong {
        let mut buffer = [255u8; 16];
        assert!(!fill_buffer(COPY, info, &bytes, &mut buffer));
        assert_eq!(buffer, [255u8; 16]);
    }
    let mut short = [255u8; 15];
    assert!(!fill_buffer(COPY, LAYOUT, &bytes, &mut short));
    assert_eq!(short, [255u8; 15]);
}

#[test]
fn the_backend_is_chosen_by_the_displays_around() {
    assert_eq!(choose_backend(true, false), BackendKind::Winit);
    assert_eq!(choose_backend(false, true), BackendKind::Winit);
    assert_eq!(choose_backend(true, true), BackendKind::Winit);
    assert_eq!(choose_backend(false, false), BackendKind::Udev);
}

#[test]
fn the_compositor_needs_a_backend() {
    let (winit, wc) = window();
    assert!(State::new(None, wc).is_none());
    let (_, wc) = window();
    let mut state = State::new(Some(Backend::Winit(winit)), wc).unwrap();
    assert_eq!(state.backend.winit().output, 0);
    state.backend.winit().output = 3;
    assert_eq!(*state.backend.winit(), Winit { output: 3 });
}
