//! The backend that shows one output in a window of another compositor.
use crate::backend::connector::Mode;
use crate::backend::frame::notify;
use crate::backend::frame::notify_clients;
use crate::backend::frame::FrameCommand;
use crate::error::CompositorError;
use crate::error::ErrorView;
use crate::search::first_where;
use crate::search::lemma_first_found;
use crate::search::lemma_first_missing;
use crate::search::lemma_first_where;
use crate::space::Output;
use crate::space::Rectangle;
use crate::space::Size;
use crate::space::Window;
use crate::state::ProjectWC;
use crate::state::Screencopy;
use vstd::prelude::*;

verus! {

/// The refresh rate of the window, in millihertz.
pub const REFRESH: i32 = 60_000;

/// The backend: the output that stands for the window.
#[derive(Clone, Copy, PartialEq, Eq, Structural, Debug)]
pub struct Winit {
    pub output: u64,
}

/// How the picture of an output is turned before it is shown.
#[derive(Clone, Copy, PartialEq, Eq, Structural, Debug)]
pub enum Transform {
    Normal,
    /// Upside down and mirrored.
    Flipped180,
}

/// How to bring up the output that stands for the window.
#[derive(Debug)]
pub struct WindowPlan {
    pub output: u64,
    pub name: String,
    pub make: String,
    pub model: String,
    pub serial_number: String,
    pub physical_size: Size,
    pub mode: Mode,
    pub transform: Transform,
    /// Where the output goes on the space.
    pub x: i32,
    pub y: i32,
    /// The display that programs started from here connect to.
    pub wayland_display: String,
}

/// Something happened to the window.
#[derive(Clone, Copy, PartialEq, Eq, Structural, Debug)]
pub enum WinitEvent {
    Resized(Size),
    /// Input went to the window.
    Input,
    /// The window, of this size, is to be drawn.
    Redraw(Size),
    CloseRequested,
    Other,
}

/// A step of handling an event of the window.
#[derive(Clone, Copy, PartialEq, Eq, Structural, Debug)]
pub enum WinitCommand {
    /// The output changes its mode.
    SetMode { output: u64, mode: Mode },
    /// The windows are laid out anew.
    ApplyLayout,
    /// The input is handled.
    HandleInput,
    /// The space is drawn on the output.
    RenderOutput(u64),
    /// The frame is shown; this part of it is new.
    Submit(Rectangle),
    /// The frame is copied out to a client.
    CopyFrame(Screencopy),
    /// Word of the frame goes to the clients.
    Frame(FrameCommand),
    RequestRedraw,
    /// The compositor ends.
    Stop,
}

/// The mode of a window of this size.
pub open spec fn window_mode(size: Size) -> Mode {
    Mode { width: size.w, height: size.h, refresh: REFRESH }
}

/// The output that stands for a window of this size.
pub open spec fn window_output(id: u64, size: Size) -> Output {
    Output {
        id,
        mode: Some(window_mode(size)),
        geometry: Some(Rectangle { x: 0, y: 0, w: size.w, h: size.h }),
        udev: None,
    }
}

/// The output has this name.
pub open spec fn is_output(id: u64) -> spec_fn(Output) -> bool {
    |o: Output| o.id == id
}

/// An output in another mode. It stays where it is.
pub open spec fn with_mode(o: Output, mode: Mode) -> Output {
    Output {
        mode: Some(mode),
        geometry: match o.geometry {
            Some(g) => Some(Rectangle { w: mode.width, h: mode.height, ..g }),
            None => None,
        },
        ..o
    }
}

/// The outputs after the one of this name changed its mode.
pub open spec fn resized(outputs: Seq<Output>, id: u64, mode: Mode) -> Seq<Output> {
    match first_where(outputs, is_output(id)) {
        Some(i) => outputs.update(i, with_mode(outputs[i], mode)),
        None => outputs,
    }
}

/// The steps of drawing a frame, with the client's request for a copy of it. The copy is
/// made only where it is of this output.
pub open spec fn redraw_steps(
    output: u64,
    size: Size,
    pending: Option<Screencopy>,
    windows: Seq<Window>,
) -> Seq<WinitCommand> {
    let copy = match pending {
        Some(s) => if s.output == output {
            seq![WinitCommand::CopyFrame(s)]
        } else {
            Seq::empty()
        },
        None => Seq::empty(),
    };
    seq![
        WinitCommand::RenderOutput(output),
        WinitCommand::Submit(Rectangle { x: 0, y: 0, w: size.w, h: size.h }),
    ] + copy + notify_clients(windows, output).map_values(|c: FrameCommand| WinitCommand::Frame(c))
        + seq![WinitCommand::RequestRedraw]
}

/// The steps of handling an event of the window.
pub open spec fn event_steps(
    output: u64,
    event: WinitEvent,
    pending: Option<Screencopy>,
    windows: Seq<Window>,
) -> Seq<WinitCommand> {
    match event {
        WinitEvent::Resized(size) => seq![
            WinitCommand::SetMode { output, mode: window_mode(size) },
            WinitCommand::ApplyLayout,
        ],
        WinitEvent::Input => seq![WinitCommand::HandleInput],
        WinitEvent::Redraw(size) => redraw_steps(output, size, pending, windows),
        WinitEvent::CloseRequested => seq![WinitCommand::Stop],
        WinitEvent::Other => Seq::empty(),
    }
}

fn output_index(outputs: &Vec<Output>, id: u64) -> (r: Option<usize>)
    ensures
        match first_where(outputs@, is_output(id)) {
            Some(i) => r matches Some(k) && k == i && k < outputs@.len(),
            None => r is None,
        },
{
    let ghost wanted = is_output(id);
    let mut i: usize = 0;
    while i < outputs.len()
        invariant
            i <= outputs.len(),
            wanted == is_output(id),
            forall|j: int| 0 <= j < i ==> !wanted(#[trigger] outputs@[j]),
        decreases outputs.len() - i,
    {
        if outputs[i].id == id {
            proof {
                lemma_first_found(outputs@, wanted, i as int);
            }
            return Some(i);
        }
        i += 1;
    }
    proof {
        lemma_first_missing(outputs@, wanted);
    }
    None
}

impl Winit {
    /// Brings up the output for a window that was opened, at the corner of the space;
    /// `window` is the window's size, or why there is no window.
    pub fn new(window: Result<Size, String>, projectwc: &mut ProjectWC) -> (r: Result<
        WindowPlan,
        CompositorError,
    >)
        requires
            old(projectwc).next_output < u64::MAX,
        ensures
            match window {
                Ok(size) => {
                    &&& r matches Ok(plan)
                    &&& plan.output == old(projectwc).next_output
                    &&& plan.name@ == "winit"@
                    &&& plan.make@ == "projectwc"@
                    &&& plan.model@ == "winit"@
                    &&& plan.serial_number@ == "Unknown"@
                    &&& plan.physical_size == (Size { w: 0, h: 0 })
                    &&& plan.mode == window_mode(size)
                    &&& plan.transform == Transform::Flipped180
                    &&& plan.x == 0 && plan.y == 0
                    &&& plan.wayland_display@ == old(projectwc).socket_name@
                    &&& final(projectwc).space.outputs@ == old(projectwc).space.outputs@.push(
                        window_output(old(projectwc).next_output, size),
                    )
                    &&& final(projectwc).next_output == old(projectwc).next_output + 1
                    &&& final(projectwc).space.elements == old(projectwc).space.elements
                    &&& final(projectwc).seat == old(projectwc).seat
                    &&& final(projectwc).layout == old(projectwc).layout
                    &&& final(projectwc).socket_name == old(projectwc).socket_name
                    &&& final(projectwc).pending_screencopy == old(projectwc).pending_screencopy
                },
                Err(why) => {
                    &&& r matches Err(e) && e@ == ErrorView::Backend(why@)
                    &&& *final(projectwc) == *old(projectwc)
                },
            },
    {
        let size = match window {
            Ok(size) => size,
            Err(why) => return Err(CompositorError::Backend(why)),
        };
        let mode = Mode { width: size.w, height: size.h, refresh: REFRESH };
        let output = projectwc.next_output;
        projectwc.next_output = output + 1;
        projectwc.space.outputs.push(
            Output {
                id: output,
                mode: Some(mode),
                geometry: Some(Rectangle { x: 0, y: 0, w: size.w, h: size.h }),
                udev: None,
            },
        );
        Ok(
            WindowPlan {
                output,
                name: "winit".to_owned(),
                make: "projectwc".to_owned(),
                model: "winit".to_owned(),
                serial_number: "Unknown".to_owned(),
                physical_size: Size { w: 0, h: 0 },
                mode,
                transform: Transform::Flipped180,
                x: 0,
                y: 0,
                wayland_display: projectwc.socket_name.clone(),
            },
        )
    }

    /// The backend, once the events of the window are listened to; `listening` says why they
    /// are not.
    pub fn listen(plan: &WindowPlan, listening: Result<(), String>) -> (r: Result<
        Winit,
        CompositorError,
    >)
        ensures
            match listening {
                Ok(()) => r == Ok::<Winit, CompositorError>((Winit { output: plan.output })),
                Err(why) => r matches Err(e) && e@ == ErrorView::Backend(why@),
            },
    {
        match listening {
            Ok(()) => Ok(Winit { output: plan.output }),
            Err(why) => Err(CompositorError::Backend(why)),
        }
    }

    /// Handles an event of the window. Drawing a frame takes up the pending request for a
    /// copy, whether or not it is of this output.
    pub fn on_event(&self, event: WinitEvent, projectwc: &mut ProjectWC) -> (r: Vec<WinitCommand>)
        ensures
            r@ == event_steps(
                self.output,
                event,
                old(projectwc).pending_screencopy,
                old(projectwc).space.elements@,
            ),
            final(projectwc).space.outputs@ == match event {
                WinitEvent::Resized(size) => resized(
                    old(projectwc).space.outputs@,
                    self.output,
                    window_mode(size),
                ),
                _ => old(projectwc).space.outputs@,
            },
            final(projectwc).pending_screencopy == match event {
                WinitEvent::Redraw(_) => None,
                _ => old(projectwc).pending_screencopy,
            },
            final(projectwc).space.elements == old(projectwc).space.elements,
            final(projectwc).next_output == old(projectwc).next_output,
            final(projectwc).seat == old(projectwc).seat,
            final(projectwc).layout == old(projectwc).layout,
            final(projectwc).socket_name == old(projectwc).socket_name,
    {
        let mut r: Vec<WinitCommand> = Vec::new();
        match event {
            WinitEvent::Resized(size) => {
                let mode = Mode { width: size.w, height: size.h, refresh: REFRESH };
                if let Some(i) = output_index(&projectwc.space.outputs, self.output) {
                    let o = projectwc.space.outputs[i];
                    let geometry = match o.geometry {
                        Some(g) => Some(Rectangle { x: g.x, y: g.y, w: size.w, h: size.h }),
                        None => None,
                    };
                    projectwc.space.outputs.set(
                        i,
                        Output { id: o.id, mode: Some(mode), geometry, udev: o.udev },
                    );
                }
                r.push(WinitCommand::SetMode { output: self.output, mode });
                r.push(WinitCommand::ApplyLayout);
            },
            WinitEvent::Input => r.push(WinitCommand::HandleInput),
            WinitEvent::Redraw(size) => {
                let pending = projectwc.pending_screencopy;
                projectwc.pending_screencopy = None;
                r = self.redraw(size, pending, projectwc);
            },
            WinitEvent::CloseRequested => r.push(WinitCommand::Stop),
            WinitEvent::Other => {},
        }
        proof {
            assert(r@ =~= event_steps(
                self.output,
                event,
                old(projectwc).pending_screencopy,
                old(projectwc).space.elements@,
            ));
        }
        r
    }

    fn redraw(&self, size: Size, pending: Option<Screencopy>, projectwc: &ProjectWC) -> (r: Vec<
        WinitCommand,
    >)
        ensures
            r@ == redraw_steps(self.output, size, pending, projectwc.space.elements@),
    {
        let mut r: Vec<WinitCommand> = Vec::new();
        r.push(WinitCommand::RenderOutput(self.output));
        r.push(WinitCommand::Submit(Rectangle { x: 0, y: 0, w: size.w, h: size.h }));
        if let Some(screencopy) = pending {
            if screencopy.output == self.output {
                r.push(WinitCommand::CopyFrame(screencopy));
            }
        }
        let ghost head = r@;
        let mut words: Vec<FrameCommand> = Vec::new();
        notify(&projectwc.space.elements, self.output, &mut words);
        let ghost told = notify_clients(projectwc.space.elements@, self.output);
        proof {
            assert(words@ =~= told);
        }
        let mut i: usize = 0;
        while i < words.len()
            invariant
                i <= words.len(),
                words@ == told,
                r@ == head + told.take(i as int).map_values(
                    |c: FrameCommand| WinitCommand::Frame(c),
                ),
            decreases words.len() - i,
        {
            r.push(WinitCommand::Frame(words[i]));
            i += 1;
            proof {
                assert(r@ =~= head + told.take(i as int).map_values(
                    |c: FrameCommand| WinitCommand::Frame(c),
                ));
            }
        }
        r.push(WinitCommand::RequestRedraw);
        proof {
            assert(told.take(told.len() as int) =~= told);
            assert(r@ =~= redraw_steps(self.output, size, pending, projectwc.space.elements@));
        }
        r
    }
}

// ---------------------------------------------------------------------------
// Copying a frame out to a client
// ---------------------------------------------------------------------------

/// How a client's buffer is laid out.
#[derive(Clone, Copy, PartialEq, Eq, Structural, Debug)]
pub struct BufferInfo {
    /// It holds 32 bits a pixel: unused, red, green, blue.
    pub xrgb8888: bool,
    pub width: i32,
    pub height: i32,
    /// The bytes from one line to the next.
    pub stride: i32,
}

/// The part of the frame that the client gets.
pub open spec fn copy_region_of(s: Screencopy) -> Rectangle {
    Rectangle { x: 0, y: 0, w: s.width, h: s.height }
}

/// The buffer takes a picture of this size and nothing else.
pub open spec fn fits(s: Screencopy, info: BufferInfo, len: int) -> bool {
    &&& info.xrgb8888
    &&& info.width == s.width
    &&& info.height == s.height
    &&& info.stride == s.width * 4
    &&& len == info.stride * info.height
}

/// Where the buffer is said to have the size of the picture, that is the size of a picture,
/// and a line of it can be measured.
pub open spec fn measured(s: Screencopy, info: BufferInfo) -> bool {
    info.xrgb8888 && info.width == s.width && info.height == s.height ==> {
        &&& 0 <= s.width
        &&& 0 <= s.height
        &&& s.width * 4 <= i32::MAX
    }
}

/// A step of copying a frame out to a client.
#[derive(Clone, Copy, PartialEq, Eq, Structural, Debug)]
pub enum CopyStep {
    /// Take this part of the frame.
    CopyFramebuffer(Rectangle),
    /// Make its bytes readable.
    MapTexture,
    /// Write them into the client's buffer.
    FillBuffer,
    /// Tell the client that its copy is there.
    Submit,
}

/// What a failure of the step is reported as.
pub open spec fn step_label(step: CopyStep) -> Seq<char> {
    match step {
        CopyStep::CopyFramebuffer(_) => "copy_framebuffer: "@,
        CopyStep::MapTexture => "map_texture: "@,
        _ => "shm buffer: "@,
    }
}

/// The step that follows.
pub open spec fn step_after(step: CopyStep) -> CopyStep {
    match step {
        CopyStep::CopyFramebuffer(_) => CopyStep::MapTexture,
        CopyStep::MapTexture => CopyStep::FillBuffer,
        _ => CopyStep::Submit,
    }
}

/// What comes of a copy after a step that succeeded or failed: the next step, or how the
/// copy failed.
pub open spec fn step_outcome(step: CopyStep, outcome: Result<(), Seq<char>>) -> Result<
    CopyStep,
    Seq<char>,
> {
    match outcome {
        Ok(()) => Ok(step_after(step)),
        Err(why) => Err(step_label(step) + why),
    }
}

/// A step's outcome, with its failure as text.
pub open spec fn outcome_view(r: Result<(), String>) -> Result<(), Seq<char>> {
    match r {
        Ok(()) => Ok(()),
        Err(why) => Err(why@),
    }
}

/// The first step of a copy: the part of the frame that the client gets is taken.
pub fn render_screencopy(screencopy: Screencopy) -> (r: CopyStep)
    ensures
        r == CopyStep::CopyFramebuffer(copy_region_of(screencopy)),
        r matches CopyStep::CopyFramebuffer(region) && region.x == 0 && region.y == 0 && region.w
            == screencopy.width && region.h == screencopy.height,
{
    CopyStep::CopyFramebuffer(
        Rectangle { x: 0, y: 0, w: screencopy.width, h: screencopy.height },
    )
}

/// Goes on with a copy after a step, or reports how it failed.
pub fn after_step(step: CopyStep, outcome: Result<(), String>) -> (r: Result<
    CopyStep,
    CompositorError,
>)
    requires
        step != CopyStep::Submit,
    ensures
        match step_outcome(step, outcome_view(outcome)) {
            Ok(next) => r == Ok::<CopyStep, CompositorError>(next),
            Err(text) => r matches Err(e) && e@ == ErrorView::Screencopy(text),
        },
{
    match outcome {
        Ok(()) => Ok(
            match step {
                CopyStep::CopyFramebuffer(_) => CopyStep::MapTexture,
                CopyStep::MapTexture => CopyStep::FillBuffer,
                _ => CopyStep::Submit,
            },
        ),
        Err(why) => {
            let label = match step {
                CopyStep::CopyFramebuffer(_) => "copy_framebuffer: ",
                CopyStep::MapTexture => "map_texture: ",
                _ => "shm buffer: ",
            };
            let mut text = label.to_owned();
            text.append(why.as_str());
            Err(CompositorError::Screencopy(text))
        },
    }
}

/// Copies the picture into the client's buffer, where the buffer takes it; else the buffer
/// stays as it is.
pub fn fill_buffer(screencopy: Screencopy, info: BufferInfo, bytes: &[u8], buffer: &mut [u8]) -> (r:
    bool)
    requires
        measured(screencopy, info),
        fits(screencopy, info, old(buffer)@.len() as int) ==> bytes@.len() >= old(buffer)@.len(),
    ensures
        r == fits(screencopy, info, old(buffer)@.len() as int),
        final(buffer)@ == if r {
            bytes@.take(old(buffer)@.len() as int)
        } else {
            old(buffer)@
        },
{
    if !info.xrgb8888 || info.width != screencopy.width || info.height != screencopy.height {
        return false;
    }
    if info.stride != screencopy.width * 4 {
        return false;
    }
    proof {
        assert(0 <= info.stride * info.height <= 0x7fff_ffff * 0x7fff_ffff) by (nonlinear_arith)
            requires
                0 <= info.stride <= 0x7fff_ffff,
                0 <= info.height <= 0x7fff_ffff,
        ;
    }
    if buffer.len() as u64 != info.stride as u64 * info.height as u64 {
        return false;
    }
    let n = buffer.len();
    let ghost before = buffer@;
    let mut i: usize = 0;
    while i < n
        invariant
            i <= n,
            n == buffer@.len(),
            n == before.len(),
            bytes@.len() >= n,
            forall|j: int| 0 <= j < i ==> buffer@[j] == bytes@[j],
        decreases n - i,
    {
        buffer[i] = bytes[i];
        i += 1;
    }
    proof {
        assert(buffer@ =~= bytes@.take(before.len() as int));
    }
    true
}

/// A frame is copied out where, and only where, a request for a copy of this output waits.
pub proof fn law_copy_of_own_output_only(
    output: u64,
    size: Size,
    pending: Option<Screencopy>,
    windows: Seq<Window>,
    s: Screencopy,
)
    ensures
        event_steps(output, WinitEvent::Redraw(size), pending, windows).contains(
            WinitCommand::CopyFrame(s),
        ) <==> pending == Some(s) && s.output == output,
{
    let steps = redraw_steps(output, size, pending, windows);
    if pending == Some(s) && s.output == output {
        assert(steps[2] == WinitCommand::CopyFrame(s));
    }
}

/// A request for a copy is served at most once: drawing takes it up, and the frames after
/// that copy nothing until there is a new one.
pub proof fn law_copy_served_once(
    output: u64,
    size: Size,
    windows: Seq<Window>,
    s: Screencopy,
)
    ensures
        !event_steps(output, WinitEvent::Redraw(size), None, windows).contains(
            WinitCommand::CopyFrame(s),
        ),
{
    law_copy_of_own_output_only(output, size, None, windows, s);
}

/// An output that changes its mode stays where it is on the space, and the other outputs
/// stay as they are.
pub proof fn law_resize_stays_in_place(outputs: Seq<Output>, id: u64, mode: Mode, i: int)
    requires
        0 <= i < outputs.len(),
    ensures
        ({
            let after = resized(outputs, id, mode);
            &&& after.len() == outputs.len()
            &&& after[i].id == outputs[i].id
            &&& after[i].udev == outputs[i].udev
            &&& outputs[i].id != id ==> after[i] == outputs[i]
            &&& match (outputs[i].geometry, after[i].geometry) {
                (Some(a), Some(b)) => a.x == b.x && a.y == b.y,
                (None, None) => true,
                _ => false,
            }
        }),
{
    lemma_first_where(outputs, is_output(id));
}

/// Of two changes of an output's mode, the last one counts.
pub proof fn law_last_resize_counts(outputs: Seq<Output>, id: u64, first: Mode, second: Mode)
    ensures
        resized(resized(outputs, id, first), id, second) == resized(outputs, id, second),
{
    let between = resized(outputs, id, first);
    lemma_first_where(outputs, is_output(id));
    match first_where(outputs, is_output(id)) {
        Some(k) => {
            assert forall|j: int| 0 <= j < k implies !is_output(id)(#[trigger] between[j]) by {
                assert(between[j] == outputs[j]);
            }
            lemma_first_found(between, is_output(id), k);
            assert(resized(between, id, second) =~= resized(outputs, id, second));
        },
        None => {},
    }
}

/// How a copy ends whose steps come out like this: the client is told, or the copy failed.
pub open spec fn copy_ends(
    s: Screencopy,
    copied: Result<(), Seq<char>>,
    mapped: Result<(), Seq<char>>,
    filled: Result<(), Seq<char>>,
) -> Result<CopyStep, Seq<char>> {
    match step_outcome(CopyStep::CopyFramebuffer(copy_region_of(s)), copied) {
        Err(text) => Err(text),
        Ok(second) => match step_outcome(second, mapped) {
            Err(text) => Err(text),
            Ok(third) => step_outcome(third, filled),
        },
    }
}

/// A copy reaches the client exactly when none of its steps fails, and otherwise reports
/// the first that did.
pub proof fn law_copy_reports_first_failure(
    s: Screencopy,
    copied: Result<(), Seq<char>>,
    mapped: Result<(), Seq<char>>,
    filled: Result<(), Seq<char>>,
)
    ensures
        copy_ends(s, copied, mapped, filled) == (match (copied, mapped, filled) {
            (Err(why), _, _) => Err("copy_framebuffer: "@ + why),
            (Ok(()), Err(why), _) => Err("map_texture: "@ + why),
            (Ok(()), Ok(()), Err(why)) => Err("shm buffer: "@ + why),
            (Ok(()), Ok(()), Ok(())) => Ok::<CopyStep, Seq<char>>(CopyStep::Submit),
        }),
{
}

/// The part of the frame that a client gets begins at the corner of the frame, and is as wide
/// and as high as the client asked for.
pub proof fn law_copy_is_as_large_as_asked_for(s: Screencopy)
    ensures
        copy_region_of(s).x == 0,
        copy_region_of(s).y == 0,
        copy_region_of(s).w == s.width,
        copy_region_of(s).h == s.height,
{
}

/// A buffer takes a picture exactly when it holds four bytes a pixel, in lines without gaps,
/// of as many pixels as the client asked for in a line and of as many lines, and no more.
pub proof fn law_buffer_holds_just_the_picture(s: Screencopy, info: BufferInfo, len: int)
    ensures
        fits(s, info, len) ==> {
            &&& info.xrgb8888
            &&& info.width == s.width
            &&& info.height == s.height
            &&& info.stride == 4 * info.width
            &&& len == 4 * (s.width * s.height)
        },
        info.xrgb8888 && info.width == s.width && info.height == s.height && info.stride == 4
            * s.width && len == 4 * (s.width * s.height) ==> fits(s, info, len),
{
    assert((s.width * 4) * s.height == 4 * (s.width * s.height)) by (nonlinear_arith);
}

/// A copy goes through its steps in order: the frame is taken, its bytes are made readable,
/// they are written out, and the client is told. A step that fails ends the copy, and the
/// report begins with the step and ends with the reason.
pub proof fn law_copy_goes_step_by_step(region: Rectangle, why: Seq<char>)
    ensures
        step_outcome(CopyStep::CopyFramebuffer(region), Ok(())) == Ok::<CopyStep, Seq<char>>(
            CopyStep::MapTexture,
        ),
        step_outcome(CopyStep::MapTexture, Ok(())) == Ok::<CopyStep, Seq<char>>(
            CopyStep::FillBuffer,
        ),
        step_outcome(CopyStep::FillBuffer, Ok(())) == Ok::<CopyStep, Seq<char>>(CopyStep::Submit),
        step_outcome(CopyStep::CopyFramebuffer(region), Err(why)) == Err::<CopyStep, Seq<char>>(
            "copy_framebuffer: "@ + why,
        ),
        step_outcome(CopyStep::MapTexture, Err(why)) == Err::<CopyStep, Seq<char>>(
            "map_texture: "@ + why,
        ),
        step_outcome(CopyStep::FillBuffer, Err(why)) == Err::<CopyStep, Seq<char>>(
            "shm buffer: "@ + why,
        ),
{
}

/// The output that stands for a window is as large as the window, is drawn sixty times a
/// second, lies at the corner of the space, and stands for no connector.
pub proof fn law_window_output_fills_the_window(id: u64, size: Size)
    ensures
        ({
            let o = window_output(id, size);
            &&& o.id == id
            &&& o.udev is None
            &&& o.mode matches Some(m) && m == window_mode(size)
            &&& window_mode(size).width == size.w
            &&& window_mode(size).height == size.h
            &&& window_mode(size).refresh == 60 * 1000
            &&& o.geometry matches Some(g) && g.x == 0 && g.y == 0 && g.w == size.w && g.h == size.h
        }),
{
}

/// An output that changes its mode has the new mode afterwards, and shows as much of the
/// space as the mode says, if it showed any. Only the first output of the name changes.
pub proof fn law_resize_takes_effect(outputs: Seq<Output>, id: u64, mode: Mode, i: int)
    requires
        0 <= i < outputs.len(),
    ensures
        ({
            let after = resized(outputs, id, mode);
            let first = outputs[i].id == id && forall|j: int|
                0 <= j < i ==> (#[trigger] outputs[j]).id != id;
            &&& after.len() == outputs.len()
            &&& !first ==> after[i] == outputs[i]
            &&& first ==> {
                &&& after[i].id == id
                &&& after[i].udev == outputs[i].udev
                &&& after[i].mode == Some(mode)
                &&& after[i].geometry is Some <==> outputs[i].geometry is Some
                &&& after[i].geometry matches Some(g) ==> {
                    &&& g.w == mode.width
                    &&& g.h == mode.height
                    &&& outputs[i].geometry matches Some(was) && g.x == was.x && g.y == was.y
                }
            }
        }),
{
    let wanted = is_output(id);
    lemma_first_where(outputs, wanted);
    if outputs[i].id == id && forall|j: int| 0 <= j < i ==> (#[trigger] outputs[j]).id != id {
        lemma_first_found(outputs, wanted, i);
    } else {
        match first_where(outputs, wanted) {
            Some(k) => {
                assert(outputs[k].id == id);
                if k == i {
                    assert forall|j: int| 0 <= j < i implies (#[trigger] outputs[j]).id != id by {
                        assert(!wanted(outputs[j]));
                    }
                }
            },
            None => {},
        }
    }
}

/// A window that changes its size gives its output a mode of that size, and the windows are
/// laid out anew; input is handled; a window that is closed ends the compositor; and anything
/// else leads to nothing.
pub proof fn law_window_events_lead_to(
    output: u64,
    size: Size,
    pending: Option<Screencopy>,
    windows: Seq<Window>,
)
    ensures
        ({
            let steps = event_steps(output, WinitEvent::Resized(size), pending, windows);
            &&& steps.len() == 2
            &&& steps[0] matches WinitCommand::SetMode { output: of, mode } && of == output
                && mode.width == size.w && mode.height == size.h && mode.refresh == 60 * 1000
            &&& steps[1] == WinitCommand::ApplyLayout
        }),
        event_steps(output, WinitEvent::Input, pending, windows) == seq![WinitCommand::HandleInput],
        event_steps(output, WinitEvent::CloseRequested, pending, windows) == seq![
            WinitCommand::Stop,
        ],
        event_steps(output, WinitEvent::Other, pending, windows).len() == 0,
{
}

/// A frame is drawn and shown whole, before anything else; at the very end the next one is
/// asked for. Between that, the windows are told in their order, the space is refreshed and
/// the clients get their messages; a copy that is due is made before the clients hear of the
/// frame.
pub proof fn law_redraw_goes_in_order(
    output: u64,
    size: Size,
    pending: Option<Screencopy>,
    windows: Seq<Window>,
    i: int,
)
    requires
        0 <= i < windows.len(),
    ensures
        ({
            let steps = event_steps(output, WinitEvent::Redraw(size), pending, windows);
            let n = windows.len() as int;
            let due = pending matches Some(s) && s.output == output;
            let from = if due {
                3int
            } else {
                2int
            };
            &&& steps.len() == from + n + 3
            &&& steps[0] == WinitCommand::RenderOutput(output)
            &&& steps[1] matches WinitCommand::Submit(part) && part.x == 0 && part.y == 0 && part.w
                == size.w && part.h == size.h
            &&& due ==> steps[2] == WinitCommand::CopyFrame(pending->Some_0)
            &&& steps[from + i] == WinitCommand::Frame(
                FrameCommand::SendFrame { window: windows[i].id, output },
            )
            &&& steps[from + n] == WinitCommand::Frame(FrameCommand::RefreshSpace)
            &&& steps[from + n + 1] == WinitCommand::Frame(FrameCommand::FlushClients)
            &&& steps[from + n + 2] == WinitCommand::RequestRedraw
        }),
{
}

/// Without windows a frame is drawn just the same, and there is nobody to tell.
pub proof fn law_redraw_without_windows(
    output: u64,
    size: Size,
    pending: Option<Screencopy>,
    windows: Seq<Window>,
)
    requires
        windows.len() == 0,
    ensures
        ({
            let steps = event_steps(output, WinitEvent::Redraw(size), pending, windows);
            let due = pending matches Some(s) && s.output == output;
            let shown = seq![
                WinitCommand::RenderOutput(output),
                WinitCommand::Submit(Rectangle { x: 0, y: 0, w: size.w, h: size.h }),
            ];
            let copied = if due {
                shown.push(WinitCommand::CopyFrame(pending->Some_0))
            } else {
                shown
            };
            steps == copied + seq![
                WinitCommand::Frame(FrameCommand::RefreshSpace),
                WinitCommand::Frame(FrameCommand::FlushClients),
                WinitCommand::RequestRedraw,
            ]
        }),
{
    let steps = event_steps(output, WinitEvent::Redraw(size), pending, windows);
    let due = pending matches Some(s) && s.output == output;
    let shown = seq![
        WinitCommand::RenderOutput(output),
        WinitCommand::Submit(Rectangle { x: 0, y: 0, w: size.w, h: size.h }),
    ];
    let copied = if due {
        shown.push(WinitCommand::CopyFrame(pending->Some_0))
    } else {
        shown
    };
    assert(steps =~= copied + seq![
        WinitCommand::Frame(FrameCommand::RefreshSpace),
        WinitCommand::Frame(FrameCommand::FlushClients),
        WinitCommand::RequestRedraw,
    ]);
}

/// A buffer that cannot be the picture's own is measured at once; one that can is where the
/// picture has a size, and a line of it fits in a number.
pub proof fn law_pictures_can_be_measured(s: Screencopy, info: BufferInfo)
    ensures
        !info.xrgb8888 || info.width != s.width || info.height != s.height ==> measured(s, info),
        0 <= s.width && 0 <= s.height && s.width * 4 <= i32::MAX ==> measured(s, info),
{
}

/// The outcome of a step is shown as it is, with the words of its failure.
pub proof fn law_outcomes_are_shown(why: String)
    ensures
        outcome_view(Ok(())) == Ok::<(), Seq<char>>(()),
        outcome_view(Err(why)) == Err::<(), Seq<char>>(why@),
{
}

} // verus!
