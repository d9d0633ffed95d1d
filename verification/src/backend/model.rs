//! The mathematical model of the devices and their outputs: what there is, and what each
//! event makes of it.
use crate::backend::connector::connector_name_of;
use crate::backend::connector::has_frames;
use crate::backend::connector::initial_mode_of;
use crate::backend::connector::is_non_desktop;
use crate::backend::connector::mode_of;
use crate::backend::connector::text_view;
use crate::backend::connector::ConnectorView;
use crate::backend::connector::DisplayView;
use crate::backend::connector::Mode;
use crate::backend::scanout::CompositorStep;
use crate::backend::udev::AllocatorSource;
use crate::backend::udev::Connected;
use crate::backend::udev::CrtcMapping;
use crate::backend::udev::DesktopPlan;
use crate::backend::udev::DeviceAdded;
use crate::backend::udev::Disconnected;
use crate::backend::udev::FoundDevice;
use crate::backend::udev::GpuProbe;
use crate::backend::udev::LeaseOffer;
use crate::backend::udev::NonDesktopConnector;
use crate::backend::udev::OutputDevice;
use crate::backend::udev::OutputInfo;
use crate::backend::udev::ScanEvent;
use crate::backend::udev::ScanOutcome;
use crate::backend::udev::Surface;
use crate::backend::udev::Udev;
use crate::backend::udev::UdevOutputState;
use crate::search::first_where;
use crate::space::Output;
use crate::space::Rectangle;
use crate::space::Size;
use crate::space::Space;
use crate::state::ProjectWC;
use vstd::prelude::*;

verus! {

/// The model of an [`OutputInfo`].
pub struct OutputInfoView {
    pub connector: Seq<char>,
    pub make: Seq<char>,
    pub model: Seq<char>,
    pub serial: Option<Seq<char>>,
}

/// The model of an [`OutputDevice`].
#[verifier::ext_equal]
pub struct DeviceView {
    pub surfaces: Map<u32, OutputInfoView>,
    pub render_node: Option<u64>,
    pub allocator: AllocatorSource,
    pub lease_global: bool,
    pub non_desktop_connectors: Seq<NonDesktopConnector>,
    pub active_leases: Seq<u32>,
}

/// The devices together with the outputs that are mapped on the space.
#[verifier::ext_equal]
pub struct World {
    pub primary_gpu: u64,
    pub devices: Map<u64, DeviceView>,
    pub outputs: Seq<Output>,
    pub next_output: u64,
}

impl View for OutputInfo {
    type V = OutputInfoView;

    open spec fn view(&self) -> OutputInfoView {
        OutputInfoView {
            connector: self.connector@,
            make: self.make@,
            model: self.model@,
            serial: text_view(self.serial),
        }
    }
}

/// The models of the surfaces of a device.
pub open spec fn surface_views(m: Map<u32, Surface>) -> Map<u32, OutputInfoView> {
    m.map_values(|s: Surface| s.output_info@)
}

impl View for OutputDevice {
    type V = DeviceView;

    open spec fn view(&self) -> DeviceView {
        DeviceView {
            surfaces: surface_views(self.surfaces@),
            render_node: self.render_node,
            allocator: self.allocator,
            lease_global: self.lease_global,
            non_desktop_connectors: self.non_desktop_connectors@,
            active_leases: self.active_leases@,
        }
    }
}

/// The models of all devices.
pub open spec fn device_views(m: Map<u64, OutputDevice>) -> Map<u64, DeviceView> {
    m.map_values(|d: OutputDevice| d@)
}

/// The model of the devices together with the mapped outputs.
pub open spec fn world(udev: Udev, projectwc: ProjectWC) -> World {
    World {
        primary_gpu: udev.primary_gpu,
        devices: device_views(udev.devices@),
        outputs: projectwc.space.outputs@,
        next_output: projectwc.next_output,
    }
}

/// The world in which no device is in use yet.
pub open spec fn bare_world(primary_gpu: u64, projectwc: ProjectWC) -> World {
    World {
        primary_gpu,
        devices: Map::empty(),
        outputs: projectwc.space.outputs@,
        next_output: projectwc.next_output,
    }
}

/// Nothing but the outputs differs.
pub open spec fn only_outputs_differ(a: ProjectWC, b: ProjectWC) -> bool {
    &&& a.space.elements == b.space.elements
    &&& a.seat == b.seat
    &&& a.layout == b.layout
    &&& a.socket_name == b.socket_name
    &&& a.pending_screencopy == b.pending_screencopy
}

pub proof fn lemma_surface_views_update(m: Map<u32, Surface>, crtc: u32, s: Surface)
    ensures
        surface_views(m.insert(crtc, s)) == surface_views(m).insert(crtc, s.output_info@),
        surface_views(m.remove(crtc)) == surface_views(m).remove(crtc),
{
    assert(surface_views(m.insert(crtc, s)) =~= surface_views(m).insert(crtc, s.output_info@));
    assert(surface_views(m.remove(crtc)) =~= surface_views(m).remove(crtc));
}

pub proof fn lemma_device_views_update(m: Map<u64, OutputDevice>, node: u64, d: OutputDevice)
    ensures
        device_views(m.insert(node, d)) == device_views(m).insert(node, d@),
        device_views(m.remove(node)) == device_views(m).remove(node),
        device_views(m.remove(node).insert(node, d)) == device_views(m).insert(node, d@),
{
    assert(device_views(m.insert(node, d)) =~= device_views(m).insert(node, d@));
    assert(device_views(m.remove(node)) =~= device_views(m).remove(node));
    assert(device_views(m.remove(node).insert(node, d)) =~= device_views(m).insert(node, d@));
}

// ---------------------------------------------------------------------------
// Connectors that appear
// ---------------------------------------------------------------------------

/// A text, or what to say where it is missing.
pub open spec fn text_or(text: Option<Seq<char>>, otherwise: Seq<char>) -> Seq<char> {
    match text {
        Some(t) => t,
        None => otherwise,
    }
}

/// Who made the display.
pub open spec fn make_of(display: Option<DisplayView>) -> Seq<char> {
    match display {
        Some(d) => text_or(d.make, "Unknown"@),
        None => "Unknown"@,
    }
}

/// What the display's maker calls it.
pub open spec fn model_of(display: Option<DisplayView>) -> Seq<char> {
    match display {
        Some(d) => text_or(d.model, "Unkown"@),
        None => "Unkown"@,
    }
}

/// The display's serial number.
pub open spec fn serial_of(display: Option<DisplayView>) -> Seq<char> {
    match display {
        Some(d) => text_or(d.serial, "Unkown"@),
        None => "Unkown"@,
    }
}

/// What is remembered of the display behind a connector.
pub open spec fn output_info_of(c: ConnectorView) -> OutputInfoView {
    OutputInfoView {
        connector: connector_name_of(c.interface, c.interface_id),
        make: make_of(c.display),
        model: model_of(c.display),
        serial: Some(serial_of(c.display)),
    }
}

/// The model of [`Connected`].
pub enum ConnectedView {
    NoDevice,
    NonDesktop(Option<(u32, Seq<char>, Seq<char>)>),
    Desktop(DesktopPlanView),
}

/// The model of a [`DesktopPlan`].
pub struct DesktopPlanView {
    pub output: u64,
    pub info: OutputInfoView,
    pub physical_size: Size,
    pub mode_index: int,
    pub mode: Mode,
    pub x: int,
    pub y: int,
    pub compositor: CompositorStep,
}

impl View for DesktopPlan {
    type V = DesktopPlanView;

    open spec fn view(&self) -> DesktopPlanView {
        DesktopPlanView {
            output: self.output,
            info: OutputInfoView {
                connector: self.name@,
                make: self.make@,
                model: self.model@,
                serial: Some(self.serial_number@),
            },
            physical_size: self.physical_size,
            mode_index: self.mode_index as int,
            mode: self.mode,
            x: self.x as int,
            y: self.y as int,
            compositor: self.compositor,
        }
    }
}

impl View for Connected {
    type V = ConnectedView;

    open spec fn view(&self) -> ConnectedView {
        match self {
            Connected::NoDevice => ConnectedView::NoDevice,
            Connected::NonDesktop(Some(offer)) => ConnectedView::NonDesktop(
                Some((offer.connector, offer.name@, offer.description@)),
            ),
            Connected::NonDesktop(None) => ConnectedView::NonDesktop(None),
            Connected::Desktop(plan) => ConnectedView::Desktop(plan@),
        }
    }
}

/// The output that is drawn on once the connector has been dealt with: the new one, where
/// there is one.
pub open spec fn drawn_after(outcome: ConnectedView) -> Option<u64> {
    match outcome {
        ConnectedView::Desktop(plan) => Some(plan.output),
        _ => None,
    }
}

/// The width that an output takes up on the space.
pub open spec fn width_of(o: Output) -> int {
    match o.geometry {
        Some(g) => g.w as int,
        None => 0,
    }
}

/// The width that outputs take up side by side.
pub open spec fn row_width(outputs: Seq<Output>) -> int
    decreases outputs.len(),
{
    if outputs.len() == 0 {
        0
    } else {
        row_width(outputs.drop_last()) + width_of(outputs.last())
    }
}

/// Every output shows some part of the space, and adding up their widths stays within the
/// coordinates of the space.
pub open spec fn measurable(outputs: Seq<Output>) -> bool {
    &&& forall|i: int| 0 <= i < outputs.len() ==> (#[trigger] outputs[i]).geometry is Some
    &&& forall|k: int|
        0 <= k <= outputs.len() ==> i32::MIN <= row_width(#[trigger] outputs.take(k)) <= i32::MAX
}

/// The size of a display in millimetres; a display that does not know it has none.
pub open spec fn physical_size_of(size: Option<(u32, u32)>) -> Size {
    match size {
        Some((w, h)) => Size { w: w as i32, h: h as i32 },
        None => Size { w: 0, h: 0 },
    }
}

impl World {
    /// The mode that the connector starts with.
    pub open spec fn starting_mode(c: ConnectorView) -> Mode {
        mode_of(c.modes[initial_mode_of(c.modes)].timings)
    }

    /// The output for a new connector: to the right of the outputs that are there.
    pub open spec fn new_output(self, node: u64, c: ConnectorView, crtc: u32) -> Output {
        let mode = Self::starting_mode(c);
        Output {
            id: self.next_output,
            mode: Some(mode),
            geometry: Some(
                Rectangle { x: row_width(self.outputs) as i32, y: 0, w: mode.width, h: mode.height },
            ),
            udev: Some(UdevOutputState { node, crtc }),
        }
    }

    /// The connector can be brought up: where it drives a desktop, it has a mode, there is
    /// room to the right of the outputs, and there is a name for one more output.
    pub open spec fn can_connect(self, node: u64, c: ConnectorView) -> bool {
        self.devices.contains_key(node) && !is_non_desktop(c.properties) ==> {
            &&& c.modes.len() > 0
            &&& has_frames(c.modes[initial_mode_of(c.modes)].timings)
            &&& measurable(self.outputs)
            &&& self.next_output < u64::MAX
        }
    }

    /// The world after a connector of a device appeared.
    pub open spec fn connected(self, node: u64, c: ConnectorView, crtc: u32) -> World {
        if !self.devices.contains_key(node) {
            self
        } else {
            let device = self.devices[node];
            if is_non_desktop(c.properties) {
                World {
                    devices: self.devices.insert(
                        node,
                        DeviceView {
                            non_desktop_connectors: device.non_desktop_connectors.push(
                                NonDesktopConnector { connector: c.handle, crtc },
                            ),
                            ..device
                        },
                    ),
                    ..self
                }
            } else {
                World {
                    devices: self.devices.insert(
                        node,
                        DeviceView {
                            surfaces: device.surfaces.insert(crtc, output_info_of(c)),
                            ..device
                        },
                    ),
                    outputs: self.outputs.push(self.new_output(node, c, crtc)),
                    next_output: (self.next_output + 1) as u64,
                    ..self
                }
            }
        }
    }

    /// What has to be done about a connector that appeared.
    pub open spec fn connect_outcome(self, node: u64, c: ConnectorView, crtc: u32) -> ConnectedView {
        if !self.devices.contains_key(node) {
            ConnectedView::NoDevice
        } else if is_non_desktop(c.properties) {
            if self.devices[node].lease_global {
                ConnectedView::NonDesktop(
                    Some(
                        (
                            c.handle,
                            connector_name_of(c.interface, c.interface_id),
                            make_of(c.display) + " "@ + model_of(c.display),
                        ),
                    ),
                )
            } else {
                ConnectedView::NonDesktop(None)
            }
        } else {
            ConnectedView::Desktop(
                DesktopPlanView {
                    output: self.next_output,
                    info: output_info_of(c),
                    physical_size: physical_size_of(c.size),
                    mode_index: initial_mode_of(c.modes),
                    mode: Self::starting_mode(c),
                    x: row_width(self.outputs),
                    y: 0,
                    compositor: CompositorStep::MakeSurface { fallback: false },
                },
            )
        }
    }
}

// ---------------------------------------------------------------------------
// Connectors that disappear
// ---------------------------------------------------------------------------

/// The connector is driven by this display controller.
pub open spec fn on_crtc(crtc: u32) -> spec_fn(NonDesktopConnector) -> bool {
    |c: NonDesktopConnector| c.crtc == crtc
}

/// The output stands for this display controller of this device.
pub open spec fn stands_for(node: u64, crtc: u32) -> spec_fn(Output) -> bool {
    |o: Output| o.udev == Some(UdevOutputState { node, crtc })
}

/// Looking for the output of a display controller meets no output that stands for none.
pub open spec fn searchable(outputs: Seq<Output>, node: u64, crtc: u32) -> bool {
    forall|i: int|
        0 <= i < outputs.len() && (#[trigger] outputs[i]).udev is None ==> exists|j: int|
            0 <= j < i && stands_for(node, crtc)(#[trigger] outputs[j])
}

impl DeviceView {
    /// The device after a display controller stopped driving its connector: its surface is
    /// gone, or, where it had none, its entry among the connectors for lease.
    pub open spec fn without_crtc(self, crtc: u32) -> DeviceView {
        if self.surfaces.contains_key(crtc) {
            DeviceView { surfaces: self.surfaces.remove(crtc), ..self }
        } else {
            match first_where(self.non_desktop_connectors, on_crtc(crtc)) {
                Some(i) => DeviceView {
                    non_desktop_connectors: self.non_desktop_connectors.remove(i),
                    ..self
                },
                None => self,
            }
        }
    }

    /// Losing the connector takes it off what clients can lease.
    pub open spec fn withdraws(self, crtc: u32) -> bool {
        &&& !self.surfaces.contains_key(crtc)
        &&& first_where(self.non_desktop_connectors, on_crtc(crtc)) is Some
        &&& self.lease_global
    }
}

impl World {
    /// A connector of the device can be taken down.
    pub open spec fn can_disconnect(self, node: u64, crtc: u32) -> bool {
        self.devices.contains_key(node) ==> searchable(self.outputs, node, crtc)
    }

    /// The outputs without the one that stands for a display controller.
    pub open spec fn outputs_without(self, node: u64, crtc: u32) -> Seq<Output> {
        match first_where(self.outputs, stands_for(node, crtc)) {
            Some(i) => self.outputs.remove(i),
            None => self.outputs,
        }
    }

    /// The world after a connector of a device disappeared.
    pub open spec fn disconnected(self, node: u64, crtc: u32) -> World {
        if !self.devices.contains_key(node) {
            self
        } else {
            World {
                devices: self.devices.insert(node, self.devices[node].without_crtc(crtc)),
                outputs: self.outputs_without(node, crtc),
                ..self
            }
        }
    }

    /// What has to be done about a connector that disappeared.
    pub open spec fn disconnect_outcome(self, node: u64, connector: u32, crtc: u32) -> Disconnected {
        if !self.devices.contains_key(node) {
            Disconnected::NoDevice
        } else {
            Disconnected::Done {
                withdraw: if self.devices[node].withdraws(crtc) {
                    Some(connector)
                } else {
                    None
                },
                unmap: match first_where(self.outputs, stands_for(node, crtc)) {
                    Some(i) => Some(self.outputs[i].id),
                    None => None,
                },
            }
        }
    }
}

// ---------------------------------------------------------------------------
// Devices that are scanned
// ---------------------------------------------------------------------------

/// The model of a [`ScanEvent`].
pub enum ScanEventView {
    Connected { connector: ConnectorView, crtc: Option<u32> },
    Disconnected { handle: u32, crtc: Option<u32> },
}

/// The model of a [`ScanOutcome`].
pub enum ScanOutcomeView {
    Connected(ConnectedView),
    Disconnected(Disconnected),
    Ignored,
}

impl View for ScanEvent {
    type V = ScanEventView;

    open spec fn view(&self) -> ScanEventView {
        match self {
            ScanEvent::Connected { connector, crtc } => ScanEventView::Connected {
                connector: connector@,
                crtc: *crtc,
            },
            ScanEvent::Disconnected { handle, crtc } => ScanEventView::Disconnected {
                handle: *handle,
                crtc: *crtc,
            },
        }
    }
}

impl View for ScanOutcome {
    type V = ScanOutcomeView;

    open spec fn view(&self) -> ScanOutcomeView {
        match self {
            ScanOutcome::Connected(c) => ScanOutcomeView::Connected(c@),
            ScanOutcome::Disconnected(d) => ScanOutcomeView::Disconnected(*d),
            ScanOutcome::Ignored => ScanOutcomeView::Ignored,
        }
    }
}

/// The models of the events of a scan.
pub open spec fn event_views(events: Seq<ScanEvent>) -> Seq<ScanEventView> {
    events.map_values(|e: ScanEvent| e@)
}

/// The models of what the events of a scan led to.
pub open spec fn outcome_views(outcomes: Seq<ScanOutcome>) -> Seq<ScanOutcomeView> {
    outcomes.map_values(|o: ScanOutcome| o@)
}

/// The models of the events of a scan that may have failed.
pub open spec fn scan_views(scan: Option<Vec<ScanEvent>>) -> Option<Seq<ScanEventView>> {
    match scan {
        Some(events) => Some(event_views(events@)),
        None => None,
    }
}

impl World {
    /// The event of a scan can be handled.
    pub open spec fn can_handle(self, node: u64, event: ScanEventView) -> bool {
        match event {
            ScanEventView::Connected { connector, crtc: Some(crtc) } => self.can_connect(
                node,
                connector,
            ),
            ScanEventView::Disconnected { handle, crtc: Some(crtc) } => self.can_disconnect(
                node,
                crtc,
            ),
            _ => true,
        }
    }

    /// The world after one event of a scan. A connector without a display controller is
    /// passed over.
    pub open spec fn after_event(self, node: u64, event: ScanEventView) -> World {
        match event {
            ScanEventView::Connected { connector, crtc: Some(crtc) } => self.connected(
                node,
                connector,
                crtc,
            ),
            ScanEventView::Disconnected { handle, crtc: Some(crtc) } => self.disconnected(
                node,
                crtc,
            ),
            _ => self,
        }
    }

    /// What one event of a scan leads to.
    pub open spec fn event_outcome(self, node: u64, event: ScanEventView) -> ScanOutcomeView {
        match event {
            ScanEventView::Connected { connector, crtc: Some(crtc) } => ScanOutcomeView::Connected(
                self.connect_outcome(node, connector, crtc),
            ),
            ScanEventView::Disconnected {
                handle,
                crtc: Some(crtc),
            } => ScanOutcomeView::Disconnected(self.disconnect_outcome(node, handle, crtc)),
            _ => ScanOutcomeView::Ignored,
        }
    }

    /// The world after the events of a scan, one after the other.
    pub open spec fn after_events(self, node: u64, events: Seq<ScanEventView>) -> World
        decreases events.len(),
    {
        if events.len() == 0 {
            self
        } else {
            self.after_events(node, events.drop_last()).after_event(node, events.last())
        }
    }

    /// Each event can be handled when its turn comes.
    pub open spec fn can_handle_all(self, node: u64, events: Seq<ScanEventView>) -> bool {
        forall|k: int|
            0 <= k < events.len() ==> self.after_events(node, #[trigger] events.take(k)).can_handle(
                node,
                events[k],
            )
    }

    /// What the events of a scan lead to, each in the world that those before it left.
    pub open spec fn event_outcomes(self, node: u64, events: Seq<ScanEventView>) -> Seq<
        ScanOutcomeView,
    > {
        Seq::new(
            events.len(),
            |k: int| self.after_events(node, events.take(k)).event_outcome(node, events[k]),
        )
    }

    /// The events that a scan of a device hands over: none where the device is not in use or
    /// the scan failed.
    pub open spec fn effective_events(self, node: u64, scan: Option<Seq<ScanEventView>>) -> Seq<
        ScanEventView,
    > {
        match scan {
            Some(events) => if self.devices.contains_key(node) {
                events
            } else {
                Seq::empty()
            },
            None => Seq::empty(),
        }
    }
}

/// The first `k` events come before the next, and the next is the last of `k + 1`.
pub proof fn lemma_after_next_event(w: World, node: u64, events: Seq<ScanEventView>, k: int)
    requires
        0 <= k < events.len(),
    ensures
        w.after_events(node, events.take(k + 1)) == w.after_events(node, events.take(k)).after_event(
            node,
            events[k],
        ),
{
    assert(events.take(k + 1).drop_last() =~= events.take(k));
    assert(events.take(k + 1).last() == events[k]);
}

/// Events of a scan neither add nor remove devices.
pub proof fn lemma_events_keep_devices(w: World, node: u64, events: Seq<ScanEventView>)
    ensures
        w.after_events(node, events).devices.dom() == w.devices.dom(),
        w.after_events(node, events).primary_gpu == w.primary_gpu,
    decreases events.len(),
{
    if events.len() > 0 {
        lemma_events_keep_devices(w, node, events.drop_last());
        let v = w.after_events(node, events.drop_last());
        assert(v.after_event(node, events.last()).devices.dom() =~= v.devices.dom());
    }
}

// ---------------------------------------------------------------------------
// Devices that come and go
// ---------------------------------------------------------------------------

/// The device that a graphics stack renders on: none where it renders in software, else the
/// render node that it names, else the device itself.
pub open spec fn render_node_of(probe: GpuProbe, node: u64) -> Option<u64> {
    if probe.software {
        None
    } else {
        match probe.render_node {
            Some(n) => Some(n),
            None => Some(node),
        }
    }
}

/// The connectors of a device that goes away all disappear.
pub open spec fn losses(crtcs: Seq<CrtcMapping>) -> Seq<ScanEventView> {
    crtcs.map_values(
        |m: CrtcMapping|
            ScanEventView::Disconnected { handle: m.connector, crtc: Some(m.crtc) },
    )
}

/// Whose memory a device draws into: its own where it renders, else that of the primary
/// device where that is in use.
pub open spec fn allocator_of(
    devices: Map<u64, DeviceView>,
    primary_gpu: u64,
    render_node: Option<u64>,
) -> Option<AllocatorSource> {
    if render_node is Some {
        Some(AllocatorSource::Own)
    } else if devices.contains_key(primary_gpu) {
        Some(AllocatorSource::PrimaryGpu)
    } else {
        None
    }
}

impl World {
    /// Whose memory a new device would draw into.
    pub open spec fn allocator_for(self, render_node: Option<u64>) -> Option<AllocatorSource> {
        allocator_of(self.devices, self.primary_gpu, render_node)
    }

    /// The world with a device that has just been opened, before it is scanned.
    pub open spec fn with_device(
        self,
        node: u64,
        render_node: Option<u64>,
        allocator: AllocatorSource,
        lease_global: bool,
    ) -> World {
        World {
            devices: self.devices.insert(
                node,
                DeviceView {
                    surfaces: Map::empty(),
                    render_node,
                    allocator,
                    lease_global,
                    non_desktop_connectors: Seq::empty(),
                    active_leases: Seq::empty(),
                },
            ),
            ..self
        }
    }

    /// The world in which a device that is being added is scanned.
    pub open spec fn opened(self, node: u64, probe: GpuProbe, lease_global: bool) -> World {
        let render_node = render_node_of(probe, node);
        match self.allocator_for(render_node) {
            Some(allocator) => self.with_device(node, render_node, allocator, lease_global),
            None => self,
        }
    }

    /// The events that adding a device leads to.
    pub open spec fn first_events(
        self,
        node: u64,
        probe: GpuProbe,
        scan: Option<Seq<ScanEventView>>,
    ) -> Seq<ScanEventView> {
        match (self.allocator_for(render_node_of(probe, node)), scan) {
            (Some(_), Some(events)) => events,
            _ => Seq::empty(),
        }
    }

    /// The world after a device was added and scanned for the first time.
    pub open spec fn added(
        self,
        node: u64,
        probe: GpuProbe,
        lease_global: bool,
        scan: Option<Seq<ScanEventView>>,
    ) -> World {
        self.opened(node, probe, lease_global).after_events(
            node,
            self.first_events(node, probe, scan),
        )
    }

    /// The connectors of a device can be taken down one after the other.
    pub open spec fn can_remove(self, node: u64, crtcs: Seq<CrtcMapping>) -> bool {
        self.devices.contains_key(node) ==> self.can_handle_all(node, losses(crtcs))
    }

    /// The world after a device went away.
    pub open spec fn removed(self, node: u64, crtcs: Seq<CrtcMapping>) -> World {
        if !self.devices.contains_key(node) {
            self
        } else {
            let w = self.after_events(node, losses(crtcs));
            World { devices: w.devices.remove(node), ..w }
        }
    }
}

// ---------------------------------------------------------------------------
// Start
// ---------------------------------------------------------------------------

/// The model of a [`FoundDevice`].
pub struct FoundView {
    pub node: u64,
    pub probe: GpuProbe,
    pub lease_global: bool,
    pub scan: Option<Seq<ScanEventView>>,
}

impl View for FoundDevice {
    type V = FoundView;

    open spec fn view(&self) -> FoundView {
        FoundView {
            node: self.node,
            probe: self.probe,
            lease_global: self.lease_global,
            scan: scan_views(self.scan),
        }
    }
}

/// The model of a device that is there at start; there is none where it could not be opened.
pub open spec fn found_view(found: Option<FoundDevice>) -> Option<FoundView> {
    match found {
        Some(d) => Some(d@),
        None => None,
    }
}

/// The models of the devices that are there at start.
pub open spec fn found_views(found: Seq<Option<FoundDevice>>) -> Seq<Option<FoundView>> {
    found.map_values(|f: Option<FoundDevice>| found_view(f))
}

impl World {
    /// The device was opened and there is memory for it to draw into.
    pub open spec fn takes(self, found: Option<FoundView>) -> bool {
        match found {
            Some(d) => self.allocator_for(render_node_of(d.probe, d.node)) is Some,
            None => false,
        }
    }

    /// What is reported of a device that was added.
    pub open spec fn is_added(self, found: Option<FoundView>, added: DeviceAdded) -> bool {
        match found {
            Some(d) => {
                &&& added.render_node == render_node_of(d.probe, d.node)
                &&& self.allocator_for(render_node_of(d.probe, d.node)) == Some(added.allocator)
                &&& outcome_views(added.outcomes@) == self.opened(
                    d.node,
                    d.probe,
                    d.lease_global,
                ).event_outcomes(d.node, self.first_events(d.node, d.probe, d.scan))
            },
            None => false,
        }
    }

    /// The world after one device was found.
    pub open spec fn after_device(self, found: Option<FoundView>) -> World {
        match found {
            Some(d) => self.added(d.node, d.probe, d.lease_global, d.scan),
            None => self,
        }
    }

    /// The world after the devices were found, one after the other.
    pub open spec fn after_devices(self, found: Seq<Option<FoundView>>) -> World
        decreases found.len(),
    {
        if found.len() == 0 {
            self
        } else {
            self.after_devices(found.drop_last()).after_device(found.last())
        }
    }

    /// The first `n` devices can all be used.
    pub open spec fn takes_first(self, found: Seq<Option<FoundView>>, n: int) -> bool {
        forall|k: int|
            0 <= k < n ==> self.after_devices(#[trigger] found.take(k)).takes(found[k])
    }

    /// The connectors of each device can be brought up when its turn comes.
    pub open spec fn can_start(self, found: Seq<Option<FoundView>>) -> bool {
        forall|k: int|
            0 <= k < found.len() && self.takes_first(found, k) ==> self.after_devices(
                #[trigger] found.take(k),
            ).can_add(found[k])
    }

    /// The connectors of a device that is being added can be brought up.
    pub open spec fn can_add(self, found: Option<FoundView>) -> bool {
        match found {
            Some(d) => self.opened(d.node, d.probe, d.lease_global).can_handle_all(
                d.node,
                self.first_events(d.node, d.probe, d.scan),
            ),
            None => true,
        }
    }
}

/// The first `k` devices come before the next, and the next is the last of `k + 1`.
pub proof fn lemma_after_next_device(w: World, found: Seq<Option<FoundView>>, k: int)
    requires
        0 <= k < found.len(),
    ensures
        w.after_devices(found.take(k + 1)) == w.after_devices(found.take(k)).after_device(found[k]),
{
    assert(found.take(k + 1).drop_last() =~= found.take(k));
    assert(found.take(k + 1).last() == found[k]);
}

// ---------------------------------------------------------------------------
// What the models show
// ---------------------------------------------------------------------------

/// The world holds just the devices and the outputs that are there, and of each device all
/// that is known of it.
pub proof fn law_world_shows_what_is_there(udev: Udev, projectwc: ProjectWC, node: u64, crtc: u32)
    ensures
        ({
            let w = world(udev, projectwc);
            &&& w.primary_gpu == udev.primary_gpu
            &&& w.outputs == projectwc.space.outputs@
            &&& w.next_output == projectwc.next_output
            &&& w.devices.contains_key(node) <==> udev.devices@.contains_key(node)
            &&& udev.devices@.contains_key(node) ==> {
                let device = udev.devices@[node];
                let shown = w.devices[node];
                &&& shown.render_node == device.render_node
                &&& shown.allocator == device.allocator
                &&& shown.lease_global == device.lease_global
                &&& shown.non_desktop_connectors == device.non_desktop_connectors@
                &&& shown.active_leases == device.active_leases@
                &&& shown.surfaces.contains_key(crtc) <==> device.surfaces@.contains_key(crtc)
                &&& device.surfaces@.contains_key(crtc) ==> {
                    let info = device.surfaces@[crtc].output_info;
                    &&& shown.surfaces[crtc].connector == info.connector@
                    &&& shown.surfaces[crtc].make == info.make@
                    &&& shown.surfaces[crtc].model == info.model@
                    &&& info.serial is None ==> shown.surfaces[crtc].serial is None
                    &&& info.serial matches Some(s) ==> shown.surfaces[crtc].serial == Some(s@)
                }
            }
        }),
{
}

/// Where only the outputs differ, the windows, the seat, the layout, the socket and the
/// request for a copy are the same.
pub proof fn law_all_but_the_outputs_stays(a: ProjectWC, b: ProjectWC)
    requires
        only_outputs_differ(a, b),
    ensures
        b == (ProjectWC {
            space: Space { outputs: b.space.outputs, ..a.space },
            next_output: b.next_output,
            ..a
        }),
{
}

/// The model of a plan has every part of it.
pub proof fn law_plan_model_is_complete(plan: DesktopPlan)
    ensures
        plan@.output == plan.output,
        plan@.info.connector == plan.name@,
        plan@.info.make == plan.make@,
        plan@.info.model == plan.model@,
        plan@.info.serial == Some(plan.serial_number@),
        plan@.physical_size == plan.physical_size,
        plan@.mode_index == plan.mode_index,
        plan@.mode == plan.mode,
        plan@.x == plan.x,
        plan@.y == plan.y,
        plan@.compositor == plan.compositor,
        Connected::Desktop(plan)@ == ConnectedView::Desktop(plan@),
{
}

/// The model of an offer has every part of it.
pub proof fn law_offer_model_is_complete(offer: LeaseOffer)
    ensures
        Connected::NonDesktop(Some(offer))@ matches ConnectedView::NonDesktop(Some(told)) && told.0
            == offer.connector && told.1 == offer.name@ && told.2 == offer.description@,
        Connected::NonDesktop(None)@ == ConnectedView::NonDesktop(None),
        Connected::NoDevice@ == ConnectedView::NoDevice,
{
}

/// The models of events and of what they led to keep their order and all their parts.
pub proof fn law_scan_models_are_complete(
    events: Seq<ScanEvent>,
    outcomes: Seq<ScanOutcome>,
    i: int,
    j: int,
)
    requires
        0 <= i < events.len(),
        0 <= j < outcomes.len(),
    ensures
        event_views(events).len() == events.len(),
        match events[i] {
            ScanEvent::Connected { connector, crtc } => event_views(events)[i] == (
            ScanEventView::Connected { connector: connector@, crtc }),
            ScanEvent::Disconnected { handle, crtc } => event_views(events)[i] == (
            ScanEventView::Disconnected { handle, crtc }),
        },
        outcome_views(outcomes).len() == outcomes.len(),
        match outcomes[j] {
            ScanOutcome::Connected(c) => outcome_views(outcomes)[j] == ScanOutcomeView::Connected(c@),
            ScanOutcome::Disconnected(d) => outcome_views(outcomes)[j]
                == ScanOutcomeView::Disconnected(d),
            ScanOutcome::Ignored => outcome_views(outcomes)[j] == ScanOutcomeView::Ignored,
        },
{
}

/// The models of the devices that are there at start keep their order and all their parts;
/// a scan that failed is told from one that found nothing.
pub proof fn law_found_models_are_complete(found: Seq<Option<FoundDevice>>, i: int)
    requires
        0 <= i < found.len(),
    ensures
        found_views(found).len() == found.len(),
        found[i] is None <==> found_views(found)[i] is None,
        found[i] matches Some(d) ==> (found_views(found)[i] matches Some(v) && v.node == d.node
            && v.probe == d.probe && v.lease_global == d.lease_global && (d.scan is None
            <==> v.scan is None) && (d.scan matches Some(events) ==> v.scan == Some(
            event_views(events@),
        ))),
{
}

/// What is reported of a device that was added: where it renders, whose memory it draws
/// into, and what each event of its first scan led to, in their order.
pub proof fn law_report_of_an_added_device(w: World, d: FoundView, added: DeviceAdded)
    requires
        w.is_added(Some(d), added),
    ensures
        added.render_node is None <==> d.probe.software,
        added.render_node matches Some(n) ==> d.probe.render_node == Some(n) || d.probe.render_node
            is None && n == d.node,
        added.allocator == (if d.probe.software {
            AllocatorSource::PrimaryGpu
        } else {
            AllocatorSource::Own
        }),
        d.probe.software ==> w.devices.contains_key(w.primary_gpu),
        added.outcomes@.len() == (match d.scan {
            Some(events) => events.len(),
            None => 0,
        }),
        d.scan matches Some(events) ==> forall|k: int|
            0 <= k < events.len() ==> outcome_views(added.outcomes@)[k] == w.opened(
                d.node,
                d.probe,
                d.lease_global,
            ).after_events(d.node, events.take(k)).event_outcome(d.node, #[trigger] events[k]),
        !w.is_added(None, added),
{
    let outcomes = outcome_views(added.outcomes@);
    assert(outcomes.len() == added.outcomes@.len());
}

} // verus!
