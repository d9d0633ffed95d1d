//! The frames of an output: what is drawn, what follows once it is drawn, and what follows
//! once it is shown.
use crate::backend::connector::Mode;
use crate::backend::model::device_views;
use crate::backend::model::searchable;
use crate::backend::model::stands_for;
use crate::backend::model::DeviceView;
use crate::backend::udev::position_of_output;
use crate::backend::udev::Udev;
use crate::backend::udev::UdevOutputState;
use crate::handlers::layer_shell::Layer;
use crate::handlers::layer_shell::LayerSurface;
use crate::search::first_where;
use crate::search::lemma_filter_members;
use crate::search::lemma_first_where;
use crate::space::Output;
use crate::space::Window;
use crate::state::ProjectWC;
use vstd::prelude::*;

verus! {

broadcast use vstd::std_specs::hash::group_hash_axioms;

/// The width and the height of the cursor.
pub const CURSOR_SIZE: i32 = 16;

/// A thing to draw.
#[derive(Clone, Copy, PartialEq, Eq, Structural, Debug)]
pub enum RenderElement {
    Cursor { x: i32, y: i32, size: i32 },
    Layer { layer: u64, x: i32, y: i32 },
}

/// What came of drawing a frame.
#[derive(Clone, Copy, PartialEq, Eq, Structural, Debug)]
pub enum FrameResult {
    /// Nothing had changed.
    Empty,
    Drawn,
    Failed,
}

/// A step once a frame has been drawn.
#[derive(Clone, Copy, PartialEq, Eq, Structural, Debug)]
pub enum FrameCommand {
    /// Forget what the buffers hold.
    ResetBuffers,
    /// Tell a window that its frame was drawn on the output.
    SendFrame { window: u64, output: u64 },
    RefreshSpace,
    FlushClients,
}

/// A length of time.
#[derive(Clone, Copy, PartialEq, Eq, Structural, Debug)]
pub struct Time {
    pub seconds: u64,
    pub nanoseconds: u32,
}

/// The clock reading of an event, by the clock that was read.
#[derive(Clone, Copy, PartialEq, Eq, Structural, Debug)]
pub enum EventTime {
    Monotonic(Time),
    Realtime,
}

/// What the device says of a frame that it has shown.
#[derive(Clone, Copy, PartialEq, Eq, Structural, Debug)]
pub struct EventMetadata {
    pub time: EventTime,
    pub sequence: u32,
}

/// What to do about a frame that was shown.
#[derive(Clone, Copy, PartialEq, Eq, Structural, Debug)]
pub enum Vblank {
    NoDevice,
    NoSurface,
    /// Mark the frame as shown at this time.
    Submit(Time),
}

/// What came of marking a frame as shown.
#[derive(Clone, Copy, PartialEq, Eq, Structural, Debug)]
pub enum Submission {
    /// Clients wait for word of it; the frame's output has this mode.
    Feedback(Option<Mode>),
    Nothing,
    Failed,
}

/// The properties that a presentation had.
#[derive(Clone, Copy, PartialEq, Eq, Structural, Debug)]
pub struct PresentationKind {
    pub vsync: bool,
    pub hw_clock: bool,
    pub hw_completion: bool,
    pub zero_copy: bool,
}

/// What clients are told of a frame that was shown. The refresh rate is in millihertz, and
/// is absent where it is not known.
#[derive(Clone, Copy, PartialEq, Eq, Structural, Debug)]
pub struct Presentation {
    pub time: Time,
    pub refresh: Option<i32>,
    pub sequence: u64,
    pub kind: PresentationKind,
}

/// What follows a frame that was shown: clients are told, and the output's next frame is
/// drawn after a while.
#[derive(Clone, Copy, PartialEq, Eq, Structural, Debug)]
pub struct NextFrame {
    pub presented: Option<Presentation>,
    pub output: u64,
    pub delay: Time,
}

// ---------------------------------------------------------------------------
// Drawing
// ---------------------------------------------------------------------------

/// The layer is drawn above the windows.
pub open spec fn is_upper(layer: Layer) -> bool {
    layer == Layer::Top || layer == Layer::Overlay
}

/// The layer surface is drawn: it is on an upper layer (or a lower one) and has a place.
pub open spec fn drawn_on(upper: bool) -> spec_fn(LayerSurface) -> bool {
    |s: LayerSurface| is_upper(s.layer) == upper && s.geometry is Some
}

/// A layer surface at its place.
pub open spec fn layer_element() -> spec_fn(LayerSurface) -> RenderElement {
    |s: LayerSurface|
        match s.geometry {
            Some(g) => RenderElement::Layer { layer: s.id, x: g.x, y: g.y },
            None => RenderElement::Layer { layer: s.id, x: 0, y: 0 },
        }
}

/// The layer surfaces of the upper (or the lower) layers, in the order of the output.
pub open spec fn layer_elements(layers: Seq<LayerSurface>, upper: bool) -> Seq<RenderElement> {
    layers.filter(drawn_on(upper)).map_values(layer_element())
}

/// What is drawn on an output, the topmost first: the cursor, the upper layers, the lower
/// layers.
pub open spec fn elements_of(x: i32, y: i32, layers: Seq<LayerSurface>) -> Seq<RenderElement> {
    seq![RenderElement::Cursor { x, y, size: CURSOR_SIZE }] + layer_elements(layers, true)
        + layer_elements(layers, false)
}

/// The device shows something on the display controller that the output stands for.
pub open spec fn shows(devices: Map<u64, DeviceView>, node: u64, output: Output) -> bool {
    &&& devices.contains_key(node)
    &&& output.udev matches Some(state) && devices[node].surfaces.contains_key(state.crtc)
}

/// Every window is told that its frame was drawn.
pub open spec fn send_frames(windows: Seq<Window>, output: u64) -> Seq<FrameCommand> {
    windows.map_values(|w: Window| FrameCommand::SendFrame { window: w.id, output })
}

/// What follows once every window may draw its next frame.
pub open spec fn notify_clients(windows: Seq<Window>, output: u64) -> Seq<FrameCommand> {
    send_frames(windows, output) + seq![FrameCommand::RefreshSpace, FrameCommand::FlushClients]
}

/// What follows a frame that was drawn.
pub open spec fn after_frame_of(
    result: FrameResult,
    windows: Seq<Window>,
    output: u64,
) -> Seq<FrameCommand> {
    match result {
        FrameResult::Empty => Seq::empty(),
        FrameResult::Drawn => notify_clients(windows, output),
        FrameResult::Failed => seq![FrameCommand::ResetBuffers] + notify_clients(windows, output),
    }
}

fn push_layers(r: &mut Vec<RenderElement>, layers: &Vec<LayerSurface>, upper: bool)
    ensures
        final(r)@ == old(r)@ + layer_elements(layers@, upper),
{
    let ghost before = r@;
    let ghost wanted = drawn_on(upper);
    let mut i: usize = 0;
    proof {
        reveal(Seq::filter);
        assert(layers@.take(0) =~= Seq::<LayerSurface>::empty());
        assert(r@ =~= before + layer_elements(layers@.take(0), upper));
    }
    while i < layers.len()
        invariant
            i <= layers.len(),
            wanted == drawn_on(upper),
            r@ == before + layer_elements(layers@.take(i as int), upper),
        decreases layers.len() - i,
    {
        let layer = layers[i];
        let ghost so_far = layers@.take(i as int).filter(wanted);
        proof {
            let next = layers@.take(i + 1);
            assert(next.drop_last() =~= layers@.take(i as int));
            assert(next.last() == layer);
            reveal(Seq::filter);
            assert(next.filter(wanted) == if wanted(layer) {
                so_far.push(layer)
            } else {
                so_far
            });
        }
        let on = match layer.layer {
            Layer::Top => upper,
            Layer::Overlay => upper,
            Layer::Bottom => !upper,
            Layer::Background => !upper,
        };
        if on {
            if let Some(g) = layer.geometry {
                r.push(RenderElement::Layer { layer: layer.id, x: g.x, y: g.y });
                proof {
                    assert(so_far.push(layer).map_values(layer_element()) =~= so_far.map_values(
                        layer_element(),
                    ).push(layer_element()(layer)));
                    assert(r@ =~= before + layer_elements(layers@.take(i + 1), upper));
                }
            }
        }
        i += 1;
    }
    proof {
        assert(layers@.take(layers@.len() as int) =~= layers@);
    }
}

/// Every window is told of the frame, in the order of the stack; the space is refreshed and
/// the clients get their messages.
pub fn notify(windows: &Vec<Window>, output: u64, r: &mut Vec<FrameCommand>)
    ensures
        final(r)@ == old(r)@ + notify_clients(windows@, output),
{
    let ghost before = r@;
    let mut i: usize = 0;
    while i < windows.len()
        invariant
            i <= windows.len(),
            r@ == before + send_frames(windows@.take(i as int), output),
        decreases windows.len() - i,
    {
        r.push(FrameCommand::SendFrame { window: windows[i].id, output });
        i += 1;
        proof {
            assert(r@ =~= before + send_frames(windows@.take(i as int), output));
        }
    }
    r.push(FrameCommand::RefreshSpace);
    r.push(FrameCommand::FlushClients);
    proof {
        assert(windows@.take(windows@.len() as int) =~= windows@);
        assert(r@ =~= before + notify_clients(windows@, output));
    }
}

impl Udev {
    /// What to draw on an output of a device, with the cursor at (`x`, `y`) and the layer
    /// surfaces of the output; nothing where the device does not show the output.
    pub fn render(
        &self,
        node: u64,
        output: &Output,
        x: i32,
        y: i32,
        layers: &Vec<LayerSurface>,
    ) -> (r: Option<Vec<RenderElement>>)
        requires
            self.devices@.contains_key(node) ==> output.udev is Some,
        ensures
            if shows(device_views(self.devices@), node, *output) {
                r matches Some(elements) && elements@ == elements_of(x, y, layers@)
            } else {
                r is None
            },
    {
        let device = match self.devices.get(&node) {
            Some(device) => device,
            None => return None,
        };
        assert(device_views(self.devices@)[node] == device@);
        let state = match output.udev {
            Some(state) => state,
            None => return None,
        };
        if !device.surfaces.contains_key(&state.crtc) {
            return None;
        }
        let mut r: Vec<RenderElement> = Vec::new();
        r.push(RenderElement::Cursor { x, y, size: CURSOR_SIZE });
        push_layers(&mut r, layers, true);
        push_layers(&mut r, layers, false);
        proof {
            assert(r@ =~= elements_of(x, y, layers@));
        }
        Some(r)
    }

    /// What follows a frame of an output that was drawn.
    pub fn after_frame(&self, result: FrameResult, output: u64, projectwc: &ProjectWC) -> (r: Vec<
        FrameCommand,
    >)
        ensures
            r@ == after_frame_of(result, projectwc.space.elements@, output),
    {
        let mut r: Vec<FrameCommand> = Vec::new();
        match result {
            FrameResult::Empty => return r,
            FrameResult::Drawn => {},
            FrameResult::Failed => r.push(FrameCommand::ResetBuffers),
        }
        notify(&projectwc.space.elements, output, &mut r);
        proof {
            assert(r@ =~= after_frame_of(result, projectwc.space.elements@, output));
        }
        r
    }
}

// ---------------------------------------------------------------------------
// Showing
// ---------------------------------------------------------------------------

/// The time at which a frame was shown. The wall clock does not tell it.
pub open spec fn presentation_time_of(time: EventTime) -> Time {
    match time {
        EventTime::Monotonic(t) => t,
        EventTime::Realtime => Time { seconds: 0, nanoseconds: 0 },
    }
}

/// What to do about a frame that was shown.
pub open spec fn vblank_of(
    devices: Map<u64, DeviceView>,
    node: u64,
    crtc: u32,
    meta: EventMetadata,
) -> Vblank {
    if !devices.contains_key(node) {
        Vblank::NoDevice
    } else if !devices[node].surfaces.contains_key(crtc) {
        Vblank::NoSurface
    } else {
        Vblank::Submit(presentation_time_of(meta.time))
    }
}

/// What clients are told of a frame that was shown.
pub open spec fn presentation_of(meta: EventMetadata, submission: Submission) -> Option<Presentation> {
    match submission {
        Submission::Feedback(mode) => Some(
            Presentation {
                time: presentation_time_of(meta.time),
                refresh: match mode {
                    Some(m) => Some(m.refresh),
                    None => None,
                },
                sequence: meta.sequence as u64,
                kind: PresentationKind {
                    vsync: true,
                    hw_clock: true,
                    hw_completion: true,
                    zero_copy: false,
                },
            },
        ),
        _ => None,
    }
}

/// Some output stands for the display controller.
pub open spec fn has_output(outputs: Seq<Output>, node: u64, crtc: u32) -> bool {
    first_where(outputs, stands_for(node, crtc)) is Some
}

fn presentation_time(time: EventTime) -> (r: Time)
    ensures
        r == presentation_time_of(time),
{
    match time {
        EventTime::Monotonic(t) => t,
        EventTime::Realtime => Time { seconds: 0, nanoseconds: 0 },
    }
}

impl Udev {
    /// Decides what to do about a frame that a display controller has shown.
    pub fn on_vblank(&self, node: u64, crtc: u32, meta: EventMetadata) -> (r: Vblank)
        ensures
            r == vblank_of(device_views(self.devices@), node, crtc, meta),
            r == Vblank::NoDevice <==> !self.devices@.contains_key(node),
            r is Submit <==> self.devices@.contains_key(node) && self.devices@[node].surfaces@.contains_key(
                crtc,
            ),
            r matches Vblank::Submit(t) ==> (meta.time matches EventTime::Monotonic(read) ==> t == read),
    {
        let device = match self.devices.get(&node) {
            Some(device) => device,
            None => return Vblank::NoDevice,
        };
        assert(device_views(self.devices@)[node] == device@);
        if !device.surfaces.contains_key(&crtc) {
            return Vblank::NoSurface;
        }
        Vblank::Submit(presentation_time(meta.time))
    }

    /// What follows once the frame is marked as shown: word to the clients that wait for it,
    /// and the next frame of the display controller's output.
    pub fn frame_submitted(
        &self,
        node: u64,
        crtc: u32,
        meta: EventMetadata,
        submission: Submission,
        projectwc: &ProjectWC,
    ) -> (r: NextFrame)
        requires
            searchable(projectwc.space.outputs@, node, crtc),
            has_output(projectwc.space.outputs@, node, crtc),
            submission matches Submission::Feedback(Some(mode)) ==> mode.refresh > 0,
        ensures
            r.presented == presentation_of(meta, submission),
            first_where(projectwc.space.outputs@, stands_for(node, crtc)) matches Some(i)
                && r.output == projectwc.space.outputs@[i].id,
            r.delay == presentation_time_of(meta.time),
            meta.time matches EventTime::Monotonic(t) ==> r.delay == t,
            submission matches Submission::Feedback(Some(mode)) ==> (r.presented matches Some(p)
                && p.refresh == Some(mode.refresh) && p.time == r.delay && p.sequence
                == meta.sequence),
            submission == Submission::Feedback(None) ==> (r.presented matches Some(p) && p.refresh
                is None),
            !(submission is Feedback) ==> r.presented is None,
            exists|i: int|
                0 <= i < projectwc.space.outputs@.len() && (
                #[trigger] projectwc.space.outputs@[i]).udev == Some(
                    (UdevOutputState { node, crtc }),
                ) && projectwc.space.outputs@[i].id == r.output,
    {
        let time = presentation_time(meta.time);
        let presented = match submission {
            Submission::Feedback(mode) => Some(
                Presentation {
                    time,
                    refresh: match mode {
                        Some(m) => Some(m.refresh),
                        None => None,
                    },
                    sequence: meta.sequence as u64,
                    kind: PresentationKind {
                        vsync: true,
                        hw_clock: true,
                        hw_completion: true,
                        zero_copy: false,
                    },
                },
            ),
            _ => None,
        };
        proof {
            lemma_first_where(projectwc.space.outputs@, stands_for(node, crtc));
        }
        let output = match position_of_output(&projectwc.space.outputs, node, crtc) {
            Some(i) => projectwc.space.outputs[i].id,
            None => 0,
        };
        NextFrame { presented, output, delay: time }
    }
}

/// The layer surface has a place on the output.
pub open spec fn placed() -> spec_fn(LayerSurface) -> bool {
    |s: LayerSurface| s.geometry is Some
}

proof fn lemma_layers_split(layers: Seq<LayerSurface>)
    ensures
        layers.filter(drawn_on(true)).len() + layers.filter(drawn_on(false)).len()
            == layers.filter(placed()).len(),
    decreases layers.len(),
{
    reveal(Seq::filter);
    if layers.len() > 0 {
        lemma_layers_split(layers.drop_last());
    }
}

/// Besides the cursor, which comes first, just the layer surfaces that have a place are
/// drawn, as many as there are, and those of the upper layers before those of the lower.
pub proof fn law_every_placed_layer_is_drawn(x: i32, y: i32, layers: Seq<LayerSurface>, i: int)
    requires
        0 <= i < layers.len(),
        layers[i].geometry is Some,
    ensures
        ({
            let elements = elements_of(x, y, layers);
            let uppers = layer_elements(layers, true).len();
            &&& elements.len() == 1 + layers.filter(placed()).len()
            &&& elements[0] == (RenderElement::Cursor { x, y, size: CURSOR_SIZE })
            &&& exists|k: int|
                {
                    &&& if is_upper(layers[i].layer) {
                        1 <= k <= uppers
                    } else {
                        uppers < k < elements.len()
                    }
                    &&& #[trigger] elements[k] == layer_element()(layers[i])
                }
        }),
{
    let elements = elements_of(x, y, layers);
    let upper = is_upper(layers[i].layer);
    let kept = layers.filter(drawn_on(upper));
    lemma_layers_split(layers);
    lemma_filter_members(layers, drawn_on(upper), layers[i]);
    assert(layers.contains(layers[i]));
    let n = choose|n: int| 0 <= n < kept.len() && kept[n] == layers[i];
    let k = if upper {
        1 + n
    } else {
        1 + layer_elements(layers, true).len() + n
    };
    assert(elements[k] == layer_element()(layers[i]));
}

/// A frame in which nothing had changed makes no window draw; any other makes every window
/// draw, whether or not it could be drawn.
pub proof fn law_windows_draw_again(windows: Seq<Window>, output: u64, result: FrameResult, i: int)
    requires
        0 <= i < windows.len(),
    ensures
        after_frame_of(result, windows, output).contains(
            FrameCommand::SendFrame { window: windows[i].id, output },
        ) <==> result != FrameResult::Empty,
{
    let steps = after_frame_of(result, windows, output);
    let k = match result {
        FrameResult::Failed => i + 1,
        _ => i,
    };
    if result != FrameResult::Empty {
        assert(steps[k] == (FrameCommand::SendFrame { window: windows[i].id, output }));
    }
}

/// Clients that wait for word of a frame are told the refresh rate of the output's mode where
/// it has one, and that it is not known where it has none; and always when the frame was
/// shown and which one it was. The others are told nothing.
pub proof fn law_clients_hear_the_refresh_rate(meta: EventMetadata, mode: Mode)
    ensures
        ({
            let known = presentation_of(meta, Submission::Feedback(Some(mode)));
            let unknown = presentation_of(meta, Submission::Feedback(None));
            &&& known matches Some(p) && p.refresh == Some(mode.refresh) && p.sequence
                == meta.sequence && (meta.time matches EventTime::Monotonic(t) ==> p.time == t)
            &&& unknown matches Some(p) && p.refresh is None && p.sequence == meta.sequence && (
            meta.time matches EventTime::Monotonic(t) ==> p.time == t)
            &&& presentation_of(meta, Submission::Nothing) is None
            &&& presentation_of(meta, Submission::Failed) is None
        }),
{
}

/// Whatever the mode, a presentation is one that kept to the vertical blank, by the clock
/// and the completion of the hardware, from a copy.
pub proof fn law_presentations_are_of_one_kind(meta: EventMetadata, submission: Submission)
    ensures
        presentation_of(meta, submission) matches Some(p) ==> p.kind.vsync && p.kind.hw_clock
            && p.kind.hw_completion && !p.kind.zero_copy,
{
}

/// A frame was shown when the monotonic clock says so; by the wall clock it was shown at no
/// time at all. Two frames with the same clock reading were shown at the same time, and that
/// is also when the clients are told that it was.
pub proof fn law_only_the_monotonic_clock_counts(meta: EventMetadata, submission: Submission)
    ensures
        meta.time matches EventTime::Monotonic(t) ==> presentation_time_of(meta.time) == t,
        meta.time == EventTime::Realtime ==> presentation_time_of(meta.time).seconds == 0
            && presentation_time_of(meta.time).nanoseconds == 0,
        presentation_of(meta, submission) matches Some(p) ==> p.time == presentation_time_of(
            meta.time,
        ),
{
}

/// A frame is marked as shown where, and only where, its device is in use and shows something
/// on the display controller; the time is the one on the monotonic clock, and none on the
/// wall clock.
pub proof fn law_shown_frame_is_marked(
    devices: Map<u64, DeviceView>,
    node: u64,
    crtc: u32,
    meta: EventMetadata,
)
    ensures
        ({
            let vblank = vblank_of(devices, node, crtc, meta);
            let used = devices.contains_key(node);
            let shown = used && devices[node].surfaces.contains_key(crtc);
            &&& vblank == Vblank::NoDevice <==> !used
            &&& vblank == Vblank::NoSurface <==> used && !shown
            &&& vblank is Submit <==> shown
            &&& vblank matches Vblank::Submit(t) ==> match meta.time {
                EventTime::Monotonic(read) => t == read,
                EventTime::Realtime => t.seconds == 0 && t.nanoseconds == 0,
            }
        }),
{
}

/// An output can be drawn on by a device exactly when the device is in use and shows
/// something on the display controller that the output stands for.
pub proof fn law_drawn_outputs_are_shown(devices: Map<u64, DeviceView>, node: u64, output: Output)
    ensures
        output.udev is None ==> !shows(devices, node, output),
        output.udev matches Some(at) ==> (shows(devices, node, output) <==> devices.contains_key(node)
            && devices[node].surfaces.contains_key(at.crtc)),
{
}

/// The cursor is drawn first, where the pointer is and 16 pixels wide and high; the layers
/// follow, the upper ones before the lower ones.
pub proof fn law_cursor_is_on_top(x: i32, y: i32, layers: Seq<LayerSurface>)
    ensures
        ({
            let elements = elements_of(x, y, layers);
            &&& elements.len() > 0
            &&& elements[0] == (RenderElement::Cursor { x, y, size: 16 })
            &&& elements.skip(1) == layer_elements(layers, true) + layer_elements(layers, false)
        }),
{
    assert(elements_of(x, y, layers).skip(1) =~= layer_elements(layers, true) + layer_elements(
        layers,
        false,
    ));
}

/// One more layer surface adds one more thing to draw, behind those that are there: itself,
/// at its place. It is added to the upper layers where it is on the top or the overlay
/// layer, to the lower ones where it is on the bottom or the background layer, and not at
/// all where it has no place. Without layer surfaces there is nothing to draw.
pub proof fn law_layers_keep_their_order(layers: Seq<LayerSurface>, s: LayerSurface, upper: bool)
    ensures
        layer_elements(Seq::empty(), upper).len() == 0,
        layer_elements(layers.push(s), upper) == (match (s.geometry, s.layer) {
            (Some(g), Layer::Top) | (Some(g), Layer::Overlay) => if upper {
                layer_elements(layers, upper).push(
                    RenderElement::Layer { layer: s.id, x: g.x, y: g.y },
                )
            } else {
                layer_elements(layers, upper)
            },
            (Some(g), Layer::Bottom) | (Some(g), Layer::Background) => if upper {
                layer_elements(layers, upper)
            } else {
                layer_elements(layers, upper).push(
                    RenderElement::Layer { layer: s.id, x: g.x, y: g.y },
                )
            },
            (None, _) => layer_elements(layers, upper),
        }),
{
    reveal(Seq::filter);
    let wanted = drawn_on(upper);
    let more = layers.push(s);
    assert(more.drop_last() =~= layers);
    assert(more.last() == s);
    let kept = layers.filter(wanted);
    if wanted(s) {
        assert(more.filter(wanted) == kept.push(s));
        assert(kept.push(s).map_values(layer_element()) =~= kept.map_values(layer_element()).push(
            layer_element()(s),
        ));
    } else {
        assert(more.filter(wanted) == kept);
    }
}

/// A frame in which nothing had changed leads to nothing. After any other the windows are
/// told in their order, and then the space is refreshed and the clients get their messages;
/// a frame that could not be drawn makes the buffers forgotten before that.
pub proof fn law_frame_is_followed_in_order(windows: Seq<Window>, output: u64, i: int)
    requires
        0 <= i < windows.len(),
    ensures
        ({
            let n = windows.len() as int;
            let drawn = after_frame_of(FrameResult::Drawn, windows, output);
            let failed = after_frame_of(FrameResult::Failed, windows, output);
            &&& after_frame_of(FrameResult::Empty, windows, output).len() == 0
            &&& drawn.len() == n + 2
            &&& drawn[i] == (FrameCommand::SendFrame { window: windows[i].id, output })
            &&& drawn[n] == FrameCommand::RefreshSpace
            &&& drawn[n + 1] == FrameCommand::FlushClients
            &&& failed.len() == n + 3
            &&& failed[0] == FrameCommand::ResetBuffers
            &&& failed.skip(1) == drawn
        }),
{
    let drawn = after_frame_of(FrameResult::Drawn, windows, output);
    let failed = after_frame_of(FrameResult::Failed, windows, output);
    assert(failed.skip(1) =~= drawn);
}

/// Without windows, a frame that was drawn leads to the space being refreshed and the
/// clients getting their messages, and to nothing else.
pub proof fn law_frame_without_windows(windows: Seq<Window>, output: u64)
    requires
        windows.len() == 0,
    ensures
        after_frame_of(FrameResult::Drawn, windows, output) == seq![
            FrameCommand::RefreshSpace,
            FrameCommand::FlushClients,
        ],
        after_frame_of(FrameResult::Failed, windows, output) == seq![
            FrameCommand::ResetBuffers,
            FrameCommand::RefreshSpace,
            FrameCommand::FlushClients,
        ],
        after_frame_of(FrameResult::Empty, windows, output).len() == 0,
{
    assert(after_frame_of(FrameResult::Drawn, windows, output) =~= seq![
        FrameCommand::RefreshSpace,
        FrameCommand::FlushClients,
    ]);
    assert(after_frame_of(FrameResult::Failed, windows, output) =~= seq![
        FrameCommand::ResetBuffers,
        FrameCommand::RefreshSpace,
        FrameCommand::FlushClients,
    ]);
}

/// An output stands for a display controller exactly when some output says so.
pub proof fn law_output_is_found_by_its_connector(outputs: Seq<Output>, node: u64, crtc: u32)
    ensures
        match first_where(outputs, stands_for(node, crtc)) {
            Some(i) => {
                &&& has_output(outputs, node, crtc)
                &&& 0 <= i < outputs.len()
                &&& outputs[i].udev matches Some(at) && at.node == node && at.crtc == crtc
                &&& forall|j: int|
                    0 <= j < i ==> !((#[trigger] outputs[j]).udev matches Some(at) && at.node == node
                        && at.crtc == crtc)
            },
            None => {
                &&& !has_output(outputs, node, crtc)
                &&& forall|j: int|
                    0 <= j < outputs.len() ==> !((#[trigger] outputs[j]).udev matches Some(at)
                        && at.node == node && at.crtc == crtc)
            },
        },
{
    let wanted = stands_for(node, crtc);
    lemma_first_where(outputs, wanted);
    match first_where(outputs, wanted) {
        Some(i) => {
            assert forall|j: int| 0 <= j < i implies !((#[trigger] outputs[j]).udev matches Some(at)
                && at.node == node && at.crtc == crtc) by {
                assert(!wanted(outputs[j]));
            }
        },
        None => {
            assert forall|j: int| 0 <= j < outputs.len() implies !((
            #[trigger] outputs[j]).udev matches Some(at) && at.node == node && at.crtc == crtc) by {
                assert(!wanted(outputs[j]));
            }
        },
    }
}

} // verus!
