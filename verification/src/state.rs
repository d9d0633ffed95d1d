//! The state that the backends and the protocol handlers share.
use crate::backend::Backend;
use crate::error::CompositorError;
use crate::error::ErrorView;
use crate::search::first_where;
use crate::search::lemma_first_found;
use crate::search::lemma_first_missing;
use crate::search::lemma_first_where;
use crate::space::has_surface;
use crate::space::Output;
use crate::space::Rectangle;
use crate::space::Size;
use crate::space::Space;
use crate::space::Window;
use vstd::prelude::*;

verus! {

/// The whole compositor.
#[derive(Debug)]
pub struct State {
    pub backend: Backend,
    pub projectwc: ProjectWC,
}

/// A place on the space, or relative to something on it.
#[derive(Clone, Copy, PartialEq, Eq, Structural, Debug)]
pub struct Point {
    pub x: i32,
    pub y: i32,
}

/// A surface, at a place that is relative to its window.
#[derive(Clone, Copy, PartialEq, Eq, Structural, Debug)]
pub struct SurfaceHit {
    pub surface: u64,
    pub offset: Point,
}

/// A window under the pointer, and the surface of it that the pointer is on, if any.
#[derive(Clone, Copy, PartialEq, Eq, Structural, Debug)]
pub struct WindowHit {
    pub location: Point,
    pub hit: Option<SurfaceHit>,
}

/// A client's request for a copy of the next frame of an output.
#[derive(Clone, Copy, PartialEq, Eq, Structural, Debug)]
pub struct Screencopy {
    pub id: u64,
    pub output: u64,
    pub width: i32,
    pub height: i32,
}

/// The distances that a layout keeps around and between windows.
#[derive(Clone, Copy, PartialEq, Eq, Structural, Debug)]
pub struct GapConfig {
    pub outer_horizontal: i32,
    pub outer_vertical: i32,
    pub inner_horizontal: i32,
    pub inner_vertical: i32,
}

/// What a layout is asked for.
#[derive(Clone, Copy, PartialEq, Eq, Structural, Debug)]
pub struct LayoutRequest {
    pub width: u32,
    pub height: u32,
    pub gaps: GapConfig,
    pub num_master: i32,
    pub smart_gaps: bool,
}

/// Where a layout puts a window, relative to the output.
#[derive(Clone, Copy, PartialEq, Eq, Structural, Debug)]
pub struct WindowGeometry {
    pub x_coordinate: i32,
    pub y_coordinate: i32,
    pub width: u32,
    pub height: u32,
}

/// Where a window goes on the space, and the size that its toplevel is configured to.
#[derive(Clone, Copy, PartialEq, Eq, Structural, Debug)]
pub struct Placement {
    pub window: u64,
    pub x: i32,
    pub y: i32,
    pub configure: Option<Size>,
}

/// The seat that clients see.
#[derive(Debug)]
pub struct SeatConfig {
    pub name: String,
    pub repeat_delay: i32,
    pub repeat_rate: i32,
}

/// The compositor itself, apart from its backend.
#[derive(Debug)]
pub struct ProjectWC {
    pub space: Space,
    pub next_output: u64,
    pub seat: SeatConfig,
    pub layout: String,
    pub socket_name: String,
    pub pending_screencopy: Option<Screencopy>,
}

impl State {
    /// The compositor with its backend; without a backend there is none.
    pub fn new(backend: Option<Backend>, projectwc: ProjectWC) -> (r: Option<State>)
        ensures
            match backend {
                Some(backend) => r == Some(State { backend, projectwc }),
                None => r is None,
            },
    {
        match backend {
            Some(backend) => Some(State { backend, projectwc }),
            None => None,
        }
    }
}

/// The place of a surface on the space: that of its window, and its own within the window.
pub open spec fn surface_place(window: WindowHit, hit: SurfaceHit) -> Point {
    Point {
        x: (hit.offset.x + window.location.x) as i32,
        y: (hit.offset.y + window.location.y) as i32,
    }
}

/// The place of the surface is within the coordinates of the space.
pub open spec fn reachable(window: WindowHit) -> bool {
    window.hit matches Some(hit) ==> {
        &&& i32::MIN <= hit.offset.x + window.location.x <= i32::MAX
        &&& i32::MIN <= hit.offset.y + window.location.y <= i32::MAX
    }
}

/// The part of the space that windows are laid out on: what the first output shows.
pub open spec fn layout_area(outputs: Seq<Output>) -> Option<Rectangle> {
    if outputs.len() > 0 {
        outputs[0].geometry
    } else {
        None
    }
}

/// The layout that every output is asked for: 20 pixels around, 10 between the windows, and
/// one master window.
pub open spec fn layout_request_of(area: Rectangle) -> LayoutRequest {
    LayoutRequest {
        width: area.w as u32,
        height: area.h as u32,
        gaps: GapConfig {
            outer_horizontal: 20,
            outer_vertical: 20,
            inner_horizontal: 10,
            inner_vertical: 10,
        },
        num_master: 1,
        smart_gaps: true,
    }
}

/// What comes of laying out this many windows on these outputs: what the layout is asked
/// for, if anything, or why it cannot be asked.
pub open spec fn layout_outcome(windows: nat, outputs: Seq<Output>) -> Result<
    Option<LayoutRequest>,
    ErrorView,
> {
    if windows == 0 {
        Ok(None)
    } else if outputs.len() == 0 {
        Err(ErrorView::Backend("no output"@))
    } else {
        match outputs[0].geometry {
            Some(area) => Ok(Some(layout_request_of(area))),
            None => Err(ErrorView::Backend("no output geometry"@)),
        }
    }
}

/// A window at the place that a layout gave it on an output that shows `area`.
pub open spec fn placement_of(area: Rectangle, window: Window, geometry: WindowGeometry) -> Placement {
    Placement {
        window: window.id,
        x: (area.x + geometry.x_coordinate) as i32,
        y: (area.y + geometry.y_coordinate) as i32,
        configure: match window.toplevel {
            Some(_) => Some(Size { w: geometry.width as i32, h: geometry.height as i32 }),
            None => None,
        },
    }
}

/// The place of a window is within the coordinates of the space.
pub open spec fn placeable(area: Rectangle, geometry: WindowGeometry) -> bool {
    &&& i32::MIN <= area.x + geometry.x_coordinate <= i32::MAX
    &&& i32::MIN <= area.y + geometry.y_coordinate <= i32::MAX
}

impl ProjectWC {
    /// The state at start: nothing is mapped and nothing is asked for.
    pub fn new(socket_name: String) -> (r: ProjectWC)
        ensures
            r.space.outputs@.len() == 0,
            r.space.elements@.len() == 0,
            r.next_output == 0,
            r.seat.name@ == "winit"@,
            r.seat.repeat_delay == 200,
            r.seat.repeat_rate == 25,
            r.layout@ == "tiling"@,
            r.socket_name == socket_name,
            r.pending_screencopy is None,
    {
        ProjectWC {
            space: Space::new(),
            next_output: 0,
            seat: SeatConfig { name: "winit".to_owned(), repeat_delay: 200, repeat_rate: 25 },
            layout: "tiling".to_owned(),
            socket_name,
            pending_screencopy: None,
        }
    }

    /// What to ask the layout for. Windows are laid out on the first output; without
    /// windows there is nothing to ask.
    pub fn apply_layout(&self) -> (r: Result<Option<LayoutRequest>, CompositorError>)
        ensures
            self.space.elements@.len() == 0 ==> r == Ok::<Option<LayoutRequest>, CompositorError>(None),
            self.space.elements@.len() > 0 ==> {
                match layout_area(self.space.outputs@) {
                    Some(area) => r == Ok::<Option<LayoutRequest>, CompositorError>(
                        Some(layout_request_of(area)),
                    ),
                    None => r matches Err(e) && e@ == ErrorView::Backend(
                        if self.space.outputs@.len() == 0 {
                            "no output"@
                        } else {
                            "no output geometry"@
                        },
                    ),
                }
            },
            match layout_outcome(self.space.elements@.len(), self.space.outputs@) {
                Ok(request) => r == Ok::<Option<LayoutRequest>, CompositorError>(request),
                Err(why) => r matches Err(e) && e@ == why,
            },
    {
        if self.space.elements.len() == 0 {
            return Ok(None);
        }
        if self.space.outputs.len() == 0 {
            return Err(CompositorError::Backend("no output".to_owned()));
        }
        let area = match self.space.outputs[0].geometry {
            Some(area) => area,
            None => return Err(CompositorError::Backend("no output geometry".to_owned())),
        };
        Ok(
            Some(
                LayoutRequest {
                    width: area.w as u32,
                    height: area.h as u32,
                    gaps: GapConfig {
                        outer_horizontal: 20,
                        outer_vertical: 20,
                        inner_horizontal: 10,
                        inner_vertical: 10,
                    },
                    num_master: 1,
                    smart_gaps: true,
                },
            ),
        )
    }

    /// Turns what the layout answered into places on the space: the windows from the bottom
    /// of the stack up, as far as the answer reaches.
    pub fn place_windows(&self, geometries: &Vec<WindowGeometry>) -> (r: Vec<Placement>)
        requires
            layout_area(self.space.outputs@) matches Some(area) && forall|i: int|
                0 <= i < geometries@.len() && i < self.space.elements@.len() ==> placeable(
                    area,
                    #[trigger] geometries@[i],
                ),
        ensures
            r@.len() == if geometries@.len() <= self.space.elements@.len() {
                geometries@.len()
            } else {
                self.space.elements@.len()
            },
            layout_area(self.space.outputs@) matches Some(area) && forall|i: int|
                0 <= i < r@.len() ==> #[trigger] r@[i] == placement_of(
                    area,
                    self.space.elements@[i],
                    geometries@[i],
                ),
    {
        let mut r: Vec<Placement> = Vec::new();
        let area = match self.space.outputs[0].geometry {
            Some(area) => area,
            None => return r,
        };
        let mut i: usize = 0;
        while i < geometries.len() && i < self.space.elements.len()
            invariant
                i <= geometries.len(),
                i <= self.space.elements.len(),
                r@.len() == i,
                forall|k: int|
                    0 <= k < geometries@.len() && k < self.space.elements@.len() ==> placeable(
                        area,
                        #[trigger] geometries@[k],
                    ),
                forall|k: int|
                    0 <= k < i ==> #[trigger] r@[k] == placement_of(
                        area,
                        self.space.elements@[k],
                        geometries@[k],
                    ),
            decreases geometries.len() - i,
        {
            let window = self.space.elements[i];
            let geometry = geometries[i];
            assert(placeable(area, geometries@[i as int]));
            r.push(
                Placement {
                    window: window.id,
                    x: area.x + geometry.x_coordinate,
                    y: area.y + geometry.y_coordinate,
                    configure: match window.toplevel {
                        Some(_) => Some(Size { w: geometry.width as i32, h: geometry.height as i32 }),
                        None => None,
                    },
                },
            );
            i += 1;
        }
        r
    }

    /// The surface under the pointer and its place on the space, out of the window under the
    /// pointer.
    pub fn surface_under_pointer(window: Option<WindowHit>) -> (r: Option<(u64, Point)>)
        requires
            window matches Some(w) ==> reachable(w),
        ensures
            r == match window {
                Some(w) => match w.hit {
                    Some(hit) => Some((hit.surface, surface_place(w, hit))),
                    None => None,
                },
                None => None,
            },
    {
        let window = match window {
            Some(window) => window,
            None => return None,
        };
        match window.hit {
            Some(hit) => Some(
                (
                    hit.surface,
                    Point {
                        x: hit.offset.x + window.location.x,
                        y: hit.offset.y + window.location.y,
                    },
                ),
            ),
            None => None,
        }
    }

    /// The index of the window that a surface belongs to.
    pub fn window_index(&self, surface: u64) -> (r: Option<usize>)
        ensures
            match first_where(self.space.elements@, has_surface(surface)) {
                Some(i) => r matches Some(k) && k == i && k < self.space.elements@.len(),
                None => r is None,
            },
    {
        let ghost wanted = has_surface(surface);
        let mut i: usize = 0;
        while i < self.space.elements.len()
            invariant
                i <= self.space.elements.len(),
                wanted == has_surface(surface),
                forall|j: int| 0 <= j < i ==> !wanted(#[trigger] self.space.elements@[j]),
            decreases self.space.elements.len() - i,
        {
            if self.space.elements[i].toplevel == Some(surface) {
                proof {
                    lemma_first_found(self.space.elements@, wanted, i as int);
                }
                return Some(i);
            }
            i += 1;
        }
        proof {
            lemma_first_missing(self.space.elements@, wanted);
        }
        None
    }

    /// The window that a surface belongs to.
    pub fn window_for_surface(&self, surface: u64) -> (r: Option<Window>)
        ensures
            match first_where(self.space.elements@, has_surface(surface)) {
                Some(i) => r == Some(self.space.elements@[i]),
                None => r is None,
            },
            r matches Some(window) ==> window.toplevel == Some(surface)
                && self.space.elements@.contains(window),
            r is None ==> forall|j: int|
                0 <= j < self.space.elements@.len() ==> (
                #[trigger] self.space.elements@[j]).toplevel != Some(surface),
    {
        proof {
            law_window_of_a_surface(self.space.elements@, surface);
        }
        match self.window_index(surface) {
            Some(i) => Some(self.space.elements[i]),
            None => None,
        }
    }
}

/// Where an output lies on the space has no bearing on the layout that is asked for, and the
/// windows that are laid out on it move along with it.
pub proof fn law_windows_move_with_their_output(
    here: Rectangle,
    there: Rectangle,
    window: Window,
    geometry: WindowGeometry,
)
    requires
        here.w == there.w,
        here.h == there.h,
        placeable(here, geometry),
        placeable(there, geometry),
    ensures
        layout_request_of(here) == layout_request_of(there),
        placement_of(there, window, geometry).x - placement_of(here, window, geometry).x == there.x
            - here.x,
        placement_of(there, window, geometry).y - placement_of(here, window, geometry).y == there.y
            - here.y,
        placement_of(there, window, geometry).configure == placement_of(
            here,
            window,
            geometry,
        ).configure,
{
}

/// A layout is asked for an area as wide and as high as what the output shows, with twenty
/// pixels around the windows and ten between them, one master window, and no gaps around a
/// window that is alone.
pub proof fn law_layout_fills_the_area(area: Rectangle)
    ensures
        ({
            let request = layout_request_of(area);
            &&& request.width as i32 == area.w
            &&& request.height as i32 == area.h
            &&& 0 <= area.w ==> request.width == area.w
            &&& 0 <= area.h ==> request.height == area.h
            &&& request.gaps.outer_horizontal == 20
            &&& request.gaps.outer_vertical == 20
            &&& request.gaps.inner_horizontal == 10
            &&& request.gaps.inner_vertical == 10
            &&& request.num_master == 1
            &&& request.smart_gaps
        }),
{
    let w = area.w;
    let h = area.h;
    assert((w as u32) as i32 == w) by (bit_vector);
    assert((h as u32) as i32 == h) by (bit_vector);
}

/// Windows are laid out on the first output, wherever the others are; without one that shows
/// something there is nowhere to lay them out.
pub proof fn law_windows_go_on_the_first_output(first: Output, others: Seq<Output>)
    ensures
        layout_area(seq![first] + others) == first.geometry,
        layout_area(Seq::empty()) is None,
{
}

/// A window is as far from the corner of its output as the layout says, and its toplevel, if
/// it has one, is configured to the size that the layout gave it.
pub proof fn law_window_goes_where_the_layout_says(
    area: Rectangle,
    window: Window,
    geometry: WindowGeometry,
)
    requires
        placeable(area, geometry),
    ensures
        ({
            let place = placement_of(area, window, geometry);
            &&& place.window == window.id
            &&& place.x - area.x == geometry.x_coordinate
            &&& place.y - area.y == geometry.y_coordinate
            &&& place.configure is Some <==> window.toplevel is Some
            &&& place.configure matches Some(size) ==> size.w as u32 == geometry.width && size.h as u32
                == geometry.height
        }),
{
    let w = geometry.width;
    let h = geometry.height;
    assert((w as i32) as u32 == w) by (bit_vector);
    assert((h as i32) as u32 == h) by (bit_vector);
}

/// A surface is as far from the corner of its window as it says, on either axis, and moves
/// along with the window.
pub proof fn law_surface_moves_with_its_window(window: WindowHit, hit: SurfaceHit)
    requires
        window.hit == Some(hit),
        reachable(window),
    ensures
        surface_place(window, hit).x - window.location.x == hit.offset.x,
        surface_place(window, hit).y - window.location.y == hit.offset.y,
{
}

/// The window of a surface is the first one whose toplevel has it.
pub proof fn law_window_of_a_surface(windows: Seq<Window>, surface: u64)
    ensures
        match first_where(windows, has_surface(surface)) {
            Some(i) => {
                &&& 0 <= i < windows.len()
                &&& windows[i].toplevel == Some(surface)
                &&& forall|j: int| 0 <= j < i ==> (#[trigger] windows[j]).toplevel != Some(surface)
            },
            None => forall|j: int|
                0 <= j < windows.len() ==> (#[trigger] windows[j]).toplevel != Some(surface),
        },
{
    let wanted = has_surface(surface);
    lemma_first_where(windows, wanted);
    match first_where(windows, wanted) {
        Some(i) => {
            assert forall|j: int| 0 <= j < i implies (#[trigger] windows[j]).toplevel != Some(
                surface,
            ) by {
                assert(!wanted(windows[j]));
            }
        },
        None => {
            assert forall|j: int| 0 <= j < windows.len() implies (#[trigger] windows[j]).toplevel
                != Some(surface) by {
                assert(!wanted(windows[j]));
            }
        },
    }
}

/// Whatever lies within the coordinates of the space can be reached and placed.
pub proof fn law_places_on_the_space_are_in_reach(
    window: WindowHit,
    hit: SurfaceHit,
    area: Rectangle,
    geometry: WindowGeometry,
    x: i32,
    y: i32,
)
    ensures
        window.hit is None ==> reachable(window),
        window.hit == Some(hit) && hit.offset.x + window.location.x == x && hit.offset.y
            + window.location.y == y ==> reachable(window) && surface_place(window, hit) == (Point {
            x,
            y,
        }),
        area.x + geometry.x_coordinate == x && area.y + geometry.y_coordinate == y ==> placeable(
            area,
            geometry,
        ),
{
}

/// The layout is left alone exactly when there are no windows, and cannot be asked exactly
/// when there are windows and nothing to lay them out on. Otherwise it is asked for an area as
/// large as what the first output shows, whatever the others show.
pub proof fn law_layout_needs_windows_and_an_output(windows: nat, first: Output, others: Seq<Output>)
    ensures
        layout_outcome(0, others) == Ok::<Option<LayoutRequest>, ErrorView>(None),
        windows > 0 ==> layout_outcome(windows, Seq::empty()) == Err::<
            Option<LayoutRequest>,
            ErrorView,
        >(ErrorView::Backend("no output"@)),
        windows > 0 && first.geometry is None ==> layout_outcome(windows, seq![first] + others)
            == Err::<Option<LayoutRequest>, ErrorView>(ErrorView::Backend("no output geometry"@)),
        windows > 0 ==> (first.geometry matches Some(area) ==> (layout_outcome(
            windows,
            seq![first] + others,
        ) matches Ok(Some(request)) && request.width as i32 == area.w && request.height as i32
            == area.h)),
{
    if let Some(area) = first.geometry {
        law_layout_fills_the_area(area);
    }
}

} // verus!
