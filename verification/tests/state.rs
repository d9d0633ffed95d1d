use projectwc::error::CompositorError;
use projectwc::space::{Output, Rectangle, Size, Window};
use projectwc::state::{
    GapConfig, LayoutRequest, Placement, Point, ProjectWC, SurfaceHit, WindowGeometry, WindowHit,
};

fn with_windows(count: u64) -> ProjectWC {
    let mut wc = ProjectWC::new(String::from("wayland-1"));
    for id in 0..count {
        wc.space.elements.push(Window { id, toplevel: Some(100 + id) });
    }
    wc
}

fn output_at(geometry: Option<Rectangle>) -> Output {
    Output { id: 0, mode: None, geometry, udev: None }
}

#[test]
fn the_compositor_starts_empty() {
    let wc = ProjectWC::new(String::from("wayland-7"));
    assert_eq!(wc.socket_name, "wayland-7");
    assert_eq!(wc.seat.name, "winit");
    assert_eq!((wc.seat.repeat_delay, wc.seat.repeat_rate), (200, 25));
    assert_eq!(wc.layout, "tiling");
    assert!(wc.space.outputs.is_empty());
    assert!(wc.space.elements.is_empty());
    assert_eq!(wc.pending_screencopy, None);
}

#[test]
fn the_first_output_is_laid_out() {
    let mut wc = with_windows(2);
    wc.space.outputs.push(output_at(Some(Rectangle { x: 50, y: 60, w: 1920, h: 1080 })));
    wc.space.outputs.push(output_at(None));
    assert_eq!(
        wc.apply_layout().unwrap(),
        Some(LayoutRequest {
            width: 1920,
            height: 1080,
            gaps: GapConfig {
                outer_horizontal: 20,
                outer_vertical: 20,
                inner_horizontal: 10,
                inner_vertical: 10,
            },
            num_master: 1,
            smart_gaps: true,
        })
    );
}

#[test]
fn without_windows_there_is_nothing_to_lay_out() {
    assert_eq!(with_windows(0).apply_layout().unwrap(), None);
}

#[test]
fn windows_cannot_be_laid_out_on_nothing() {
    let why = |wc: &ProjectWC| match wc.apply_layout() {
        Err(CompositorError::Backend(why)) => why,
        other => panic!("unexpected: {other:?}"),
    };
    let mut wc = with_windows(1);
    assert_eq!(why(&wc), "no output");
    wc.space.outputs.push(output_at(None));
    assert_eq!(why(&wc), "no output geometry");
}

#[test]
fn windows_are_placed_on_their_output() {
    let mut wc = with_windows(1);
    wc.space.elements.push(Window { id: 9, toplevel: None });
    let area = Rectangle { x: 1000, y: -20, w: 500, h: 500 };
    wc.space.outputs.push(output_at(Some(area)));
    let geometries = vec![
        WindowGeometry { x_coordinate: 20, y_coordinate: 30, width: 200, height: 100 },
        WindowGeometry { x_coordinate: -5, y_coordinate: 0, width: 10, height: 10 },
        WindowGeometry { x_coordinate: i32::MAX, y_coordinate: 0, width: 10, height: 10 },
    ];
    assert_eq!(
        wc.place_windows(&geometries),
        vec![
            Placement { window: 0, x: 1020, y: 10, configure: Some(Size { w: 200, h: 100 }) },
            Placement { window: 9, x: 995, y: -20, configure: None },
        ]
    );
    assert_eq!(wc.place_windows(&geometries[..1].to_vec()).len(), 1);
    wc.space.outputs[0] = output_at(Some(Rectangle { x: 0, y: 0, ..area }));
    let moved = wc.place_windows(&geometries);
    assert_eq!((moved[0].x, moved[0].y), (20, 30));
}

#[test]
fn a_window_is_found_by_its_surface() {
    let mut wc = with_windows(2);
    wc.space.elements.push(Window { id: 9, toplevel: Some(101) });
    assert_eq!(wc.window_for_surface(101), Some(Window { id: 1, toplevel: Some(101) }));
    assert_eq!(wc.window_index(101), Some(1));
    assert_eq!(wc.window_for_surface(55), None);
}

#[test]
fn the_surface_under_the_pointer_lies_on_the_space() {
    let hit = SurfaceHit { surface: 42, offset: Point { x: 3, y: -4 } };
    let window = WindowHit { location: Point { x: 100, y: 200 }, hit: Some(hit) };
    assert_eq!(
        ProjectWC::surface_under_pointer(Some(window)),
        Some((42, Point { x: 103, y: 196 }))
    );
    let missed = WindowHit { hit: None, ..window };
    assert_eq!(ProjectWC::surface_under_pointer(Some(missed)), None);
    assert_eq!(ProjectWC::surface_under_pointer(None), None);
}
