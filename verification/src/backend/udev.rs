//! The backend that drives displays directly: graphics devices, their connectors, and the
//! outputs that stand for them.
use crate::backend::connector::connector_name;
use crate::backend::connector::initial_mode;
use crate::backend::connector::mode_from;
use crate::backend::connector::non_desktop;
use crate::backend::connector::text_view;
use crate::backend::connector::ConnectorInfo;
use crate::backend::connector::DisplayInfo;
use crate::backend::connector::Mode;
use crate::backend::effects::law_scan_keeps_what_a_device_is;
use crate::backend::model::allocator_of;
use crate::backend::model::bare_world;
use crate::backend::model::device_views;
use crate::backend::model::drawn_after;
use crate::backend::model::event_views;
use crate::backend::model::found_view;
use crate::backend::model::found_views;
use crate::backend::model::lemma_after_next_event;
use crate::backend::model::lemma_after_next_device;
use crate::backend::model::lemma_device_views_update;
use crate::backend::model::lemma_events_keep_devices;
use crate::backend::model::lemma_surface_views_update;
use crate::backend::model::losses;
use crate::backend::model::make_of;
use crate::backend::model::measurable;
use crate::backend::model::model_of;
use crate::backend::model::on_crtc;
use crate::backend::model::only_outputs_differ;
use crate::backend::model::outcome_views;
use crate::backend::model::render_node_of;
use crate::backend::model::row_width;
use crate::backend::model::scan_views;
use crate::backend::model::searchable;
use crate::backend::model::serial_of;
use crate::backend::model::stands_for;
use crate::backend::model::surface_views;
use crate::backend::model::text_or;
use crate::backend::model::world;
use crate::backend::model::FoundView;
use crate::backend::model::ScanEventView;
use crate::backend::scanout::first_attempt;
use crate::backend::scanout::CompositorStep;
use crate::search::first_where;
use crate::search::lemma_first_found;
use crate::search::lemma_first_missing;
use crate::search::lemma_first_where;
use crate::space::Output;
use crate::space::Rectangle;
use crate::space::Size;
use crate::state::ProjectWC;
use std::collections::HashMap;
use vstd::prelude::*;

verus! {

broadcast use vstd::std_specs::hash::group_hash_axioms;

/// The graphics devices in use, by device number.
#[derive(Debug)]
pub struct Udev {
    pub primary_gpu: u64,
    pub devices: HashMap<u64, OutputDevice>,
}

/// Whose memory a device draws into.
#[derive(Clone, Copy, PartialEq, Eq, Structural, Debug)]
pub enum AllocatorSource {
    /// Its own.
    Own,
    /// That of the primary device.
    PrimaryGpu,
}

/// A connector that drives something else than a desktop, and its display controller.
#[derive(Clone, Copy, PartialEq, Eq, Structural, Debug)]
pub struct NonDesktopConnector {
    pub connector: u32,
    pub crtc: u32,
}

/// A graphics device.
///
/// `surfaces` holds what is shown, by display controller. `lease_global` says whether
/// clients can ask for a lease on the device's connectors.
#[derive(Debug)]
pub struct OutputDevice {
    pub surfaces: HashMap<u32, Surface>,
    pub render_node: Option<u64>,
    pub allocator: AllocatorSource,
    pub lease_global: bool,
    pub non_desktop_connectors: Vec<NonDesktopConnector>,
    pub active_leases: Vec<u32>,
}

/// What a display controller shows.
#[derive(Debug)]
pub struct Surface {
    pub output_info: OutputInfo,
}

/// What is known of the display that a surface drives.
#[derive(Debug)]
pub struct OutputInfo {
    pub connector: String,
    pub make: String,
    pub model: String,
    pub serial: Option<String>,
}

/// Which connector an output stands for: its device and its display controller.
#[derive(Clone, Copy, PartialEq, Eq, Structural, Debug)]
pub struct UdevOutputState {
    pub node: u64,
    pub crtc: u32,
}

/// A connector that is offered for lease.
#[derive(Debug)]
pub struct LeaseOffer {
    pub connector: u32,
    pub name: String,
    pub description: String,
}

/// How to bring up a connector that drives a desktop.
#[derive(Debug)]
pub struct DesktopPlan {
    /// The new output.
    pub output: u64,
    pub name: String,
    pub make: String,
    pub model: String,
    pub serial_number: String,
    /// The size of the display in millimetres.
    pub physical_size: Size,
    /// The mode to set, by its index among the connector's modes.
    pub mode_index: usize,
    pub mode: Mode,
    /// Where the output goes on the space.
    pub x: i32,
    pub y: i32,
    /// The first step of making the output's compositor.
    pub compositor: CompositorStep,
}

/// What a connector that appeared leads to.
#[derive(Debug)]
pub enum Connected {
    /// The device is not in use: nothing.
    NoDevice,
    /// It drives something else than a desktop; it is offered to clients where they can
    /// lease from the device.
    NonDesktop(Option<LeaseOffer>),
    /// It is brought up as an output.
    Desktop(DesktopPlan),
}

/// What a connector that disappeared leads to.
#[derive(Clone, Copy, PartialEq, Eq, Structural, Debug)]
pub enum Disconnected {
    /// The device is not in use: nothing.
    NoDevice,
    /// The connector is taken off what clients can lease, and its output off the space.
    Done { withdraw: Option<u32>, unmap: Option<u64> },
}

/// What changed between two scans of a device.
#[derive(Debug)]
pub enum ScanEvent {
    Connected { connector: ConnectorInfo, crtc: Option<u32> },
    Disconnected { handle: u32, crtc: Option<u32> },
}

/// What an event of a scan leads to.
#[derive(Debug)]
pub enum ScanOutcome {
    Connected(Connected),
    Disconnected(Disconnected),
    /// The connector has no display controller.
    Ignored,
}

/// A connector and the display controller that drives it.
#[derive(Clone, Copy, PartialEq, Eq, Structural, Debug)]
pub struct CrtcMapping {
    pub connector: u32,
    pub crtc: u32,
}

/// What the graphics stack says of a device: whether it renders in software, and the
/// render node that it names.
#[derive(Clone, Copy, PartialEq, Eq, Structural, Debug)]
pub struct GpuProbe {
    pub software: bool,
    pub render_node: Option<u64>,
}

/// Why a device cannot be used.
#[derive(Clone, Copy, PartialEq, Eq, Structural, Debug)]
pub enum DeviceError {
    /// The device does not render, and the primary device is not there to render for it.
    NoAllocator,
}

/// How a device is going to be used.
#[derive(Clone, Copy, PartialEq, Eq, Structural, Debug)]
pub struct DevicePlan {
    pub render_node: Option<u64>,
    pub allocator: AllocatorSource,
}

/// A device that was added.
#[derive(Debug)]
pub struct DeviceAdded {
    pub render_node: Option<u64>,
    pub allocator: AllocatorSource,
    pub outcomes: Vec<ScanOutcome>,
}

/// A device that has been opened and looked at.
#[derive(Debug)]
pub struct FoundDevice {
    pub node: u64,
    pub probe: GpuProbe,
    pub lease_global: bool,
    pub scan: Option<Vec<ScanEvent>>,
}

/// What came of looking for the primary device.
#[derive(Clone, Copy, PartialEq, Eq, Structural, Debug)]
pub enum PrimaryGpu {
    /// The devices could not be asked.
    Failed,
    /// There is none that renders.
    Missing,
    Found(u64),
}

/// What has to be done about a device that went away.
#[derive(Debug)]
pub enum DeviceRemoved {
    /// It was not in use: nothing.
    NoDevice,
    /// Its connectors are lost, clients can no longer lease from it, and its render node is
    /// given up.
    Done {
        lost: Vec<Disconnected>,
        disable_lease_global: bool,
        remove_render_node: Option<u64>,
    },
}

fn text_or_else(text: &Option<String>, otherwise: &str) -> (r: String)
    ensures
        r@ == text_or(text_view(*text), otherwise@),
{
    match text {
        Some(t) => t.clone(),
        None => otherwise.to_owned(),
    }
}

fn make_text(display: &Option<DisplayInfo>) -> (r: String)
    ensures
        r@ == make_of(
            match *display {
                Some(d) => Some(d@),
                None => None,
            },
        ),
{
    match display {
        Some(d) => text_or_else(&d.make, "Unknown"),
        None => "Unknown".to_owned(),
    }
}

fn model_text(display: &Option<DisplayInfo>) -> (r: String)
    ensures
        r@ == model_of(
            match *display {
                Some(d) => Some(d@),
                None => None,
            },
        ),
{
    match display {
        Some(d) => text_or_else(&d.model, "Unkown"),
        None => "Unkown".to_owned(),
    }
}

fn serial_text(display: &Option<DisplayInfo>) -> (r: String)
    ensures
        r@ == serial_of(
            match *display {
                Some(d) => Some(d@),
                None => None,
            },
        ),
{
    match display {
        Some(d) => text_or_else(&d.serial, "Unkown"),
        None => "Unkown".to_owned(),
    }
}

/// Adds up the widths of the outputs.
pub fn total_width(outputs: &Vec<Output>) -> (r: i32)
    requires
        measurable(outputs@),
    ensures
        r == row_width(outputs@),
{
    let mut x: i32 = 0;
    let mut i: usize = 0;
    proof {
        assert(outputs@.take(0) =~= Seq::<Output>::empty());
    }
    while i < outputs.len()
        invariant
            i <= outputs.len(),
            measurable(outputs@),
            x == row_width(outputs@.take(i as int)),
        decreases outputs.len() - i,
    {
        proof {
            let next = outputs@.take(i + 1);
            assert(next.drop_last() =~= outputs@.take(i as int));
            assert(next.last() == outputs@[i as int]);
            assert(i32::MIN <= row_width(next) <= i32::MAX);
            assert(outputs@[i as int].geometry is Some);
        }
        if let Some(g) = outputs[i].geometry {
            x = x + g.w;
        }
        i += 1;
    }
    proof {
        assert(outputs@.take(outputs@.len() as int) =~= outputs@);
    }
    x
}

impl Udev {
    /// Handles a connector that appeared on a device.
    ///
    /// A connector that drives something else than a desktop is remembered and offered for
    /// lease. Any other becomes an output, to the right of those that are there.
    pub fn connector_connected(
        &mut self,
        node: u64,
        connector: &ConnectorInfo,
        crtc: u32,
        projectwc: &mut ProjectWC,
    ) -> (r: Connected)
        requires
            world(*old(self), *old(projectwc)).can_connect(node, connector@),
        ensures
            world(*final(self), *final(projectwc)) == world(*old(self), *old(projectwc)).connected(
                node,
                connector@,
                crtc,
            ),
            r@ == world(*old(self), *old(projectwc)).connect_outcome(node, connector@, crtc),
            only_outputs_differ(*old(projectwc), *final(projectwc)),
            r is NoDevice <==> !old(self).devices@.contains_key(node),
            r matches Connected::Desktop(plan) ==> {
                let before = old(projectwc).space.outputs@;
                let after = final(projectwc).space.outputs@;
                &&& after == before.push(after.last())
                &&& after.last().id == plan.output
                &&& after.last().mode == Some(plan.mode)
                &&& after.last().geometry == Some(
                    (Rectangle { x: plan.x, y: plan.y, w: plan.mode.width, h: plan.mode.height }),
                )
                &&& after.last().udev == Some((UdevOutputState { node, crtc }))
                &&& plan.y == 0
                &&& plan.mode_index < connector.modes@.len()
                &&& plan.mode.width == connector.modes@[plan.mode_index as int].timings.width
                &&& plan.mode.height == connector.modes@[plan.mode_index as int].timings.height
                &&& plan.output == old(projectwc).next_output
                &&& plan.output < final(projectwc).next_output
            },
            !(r is Desktop) ==> *final(projectwc) == *old(projectwc),
            r matches Connected::NonDesktop(offer) ==> {
                let entries = final(self).devices@[node].non_desktop_connectors@;
                &&& final(self).devices@.contains_key(node)
                &&& offer is Some <==> final(self).devices@[node].lease_global
                &&& offer matches Some(told) ==> told.connector == connector.handle
                &&& entries.len() > 0
                &&& entries.last().connector == connector.handle
                &&& entries.last().crtc == crtc
            },
    {
        let ghost before = world(*self, *projectwc);
        let ghost devices_before = self.devices@;
        let name = connector_name(connector.interface, connector.interface_id);
        let mut device = match self.devices.remove(&node) {
            Some(device) => device,
            None => {
                proof {
                    assert(self.devices@ =~= devices_before);
                }
                return Connected::NoDevice;
            },
        };
        let make = make_text(&connector.display);
        let model = model_text(&connector.display);
        let serial_number = serial_text(&connector.display);
        if non_desktop(connector) {
            device.non_desktop_connectors.push(
                NonDesktopConnector { connector: connector.handle, crtc },
            );
            let offer = if device.lease_global {
                let mut description = make;
                description.append(" ");
                description.append(model.as_str());
                Some(LeaseOffer { connector: connector.handle, name, description })
            } else {
                None
            };
            proof {
                lemma_device_views_update(devices_before, node, device);
            }
            self.devices.insert(node, device);
            Connected::NonDesktop(offer)
        } else {
            let mode_index = initial_mode(&connector.modes);
            let mode = mode_from(connector.modes[mode_index].timings);
            let physical_size = match connector.size {
                Some((w, h)) => Size { w: w as i32, h: h as i32 },
                None => Size { w: 0, h: 0 },
            };
            let x = total_width(&projectwc.space.outputs);
            let output = projectwc.next_output;
            projectwc.next_output = output + 1;
            projectwc.space.outputs.push(
                Output {
                    id: output,
                    mode: Some(mode),
                    geometry: Some(Rectangle { x, y: 0, w: mode.width, h: mode.height }),
                    udev: Some(UdevOutputState { node, crtc }),
                },
            );
            let output_info = OutputInfo {
                connector: name.clone(),
                make: make.clone(),
                model: model.clone(),
                serial: Some(serial_number.clone()),
            };
            let surface = Surface { output_info };
            proof {
                lemma_surface_views_update(device.surfaces@, crtc, surface);
            }
            device.surfaces.insert(crtc, surface);
            proof {
                lemma_device_views_update(devices_before, node, device);
            }
            self.devices.insert(node, device);
            proof {
                assert(world(*self, *projectwc) =~= before.connected(node, connector@, crtc));
            }
            Connected::Desktop(
                DesktopPlan {
                    output,
                    name,
                    make,
                    model,
                    serial_number,
                    physical_size,
                    mode_index,
                    mode,
                    x,
                    y: 0,
                    compositor: first_attempt(),
                },
            )
        }
    }

    /// Handles a connector that disappeared from a device.
    ///
    /// What the display controller showed is gone, and so is its output. A connector that
    /// was there for lease is no longer offered.
    pub fn connector_disconnected(
        &mut self,
        node: u64,
        connector: u32,
        crtc: u32,
        projectwc: &mut ProjectWC,
    ) -> (r: Disconnected)
        requires
            world(*old(self), *old(projectwc)).can_disconnect(node, crtc),
        ensures
            world(*final(self), *final(projectwc)) == world(
                *old(self),
                *old(projectwc),
            ).disconnected(node, crtc),
            r == world(*old(self), *old(projectwc)).disconnect_outcome(node, connector, crtc),
            only_outputs_differ(*old(projectwc), *final(projectwc)),
            r is NoDevice <==> !old(self).devices@.contains_key(node),
            r is NoDevice ==> *final(projectwc) == *old(projectwc),
            r matches Disconnected::Done { withdraw, unmap } ==> {
                let before = old(projectwc).space.outputs@;
                let after = final(projectwc).space.outputs@;
                let at = UdevOutputState { node, crtc };
                &&& withdraw matches Some(handle) ==> handle == connector
                    && old(self).devices@[node].lease_global
                    && !old(self).devices@[node].surfaces@.contains_key(crtc)
                &&& match unmap {
                    Some(id) => exists|i: int|
                        {
                            &&& 0 <= i < before.len()
                            &&& (#[trigger] before[i]).id == id
                            &&& before[i].udev == Some(at)
                            &&& after == before.remove(i)
                        },
                    None => after == before && forall|i: int|
                        0 <= i < before.len() ==> (#[trigger] before[i]).udev != Some(at),
                }
            },
    {
        let ghost before = world(*self, *projectwc);
        let ghost devices_before = self.devices@;
        let mut device = match self.devices.remove(&node) {
            Some(device) => device,
            None => {
                proof {
                    assert(self.devices@ =~= devices_before);
                }
                return Disconnected::NoDevice;
            },
        };
        let ghost surfaces_before = device.surfaces@;
        let mut withdraw: Option<u32> = None;
        match device.surfaces.remove(&crtc) {
            Some(surface) => {
                proof {
                    lemma_surface_views_update(surfaces_before, crtc, surface);
                }
            },
            None => {
                proof {
                    assert(device.surfaces@ =~= surfaces_before);
                }
                if let Some(pos) = position_on_crtc(&device.non_desktop_connectors, crtc) {
                    device.non_desktop_connectors.remove(pos);
                    if device.lease_global {
                        withdraw = Some(connector);
                    }
                }
            },
        }
        proof {
            lemma_device_views_update(devices_before, node, device);
        }
        self.devices.insert(node, device);
        let ghost outputs_before = projectwc.space.outputs@;
        let unmap = match position_of_output(&projectwc.space.outputs, node, crtc) {
            Some(pos) => {
                let output = projectwc.space.outputs.remove(pos);
                Some(output.id)
            },
            None => None,
        };
        proof {
            lemma_first_where(outputs_before, stands_for(node, crtc));
            assert forall|i: int| 0 <= i < outputs_before.len() && unmap is None implies (
            #[trigger] outputs_before[i]).udev != Some(UdevOutputState { node, crtc }) by {
                assert(!stands_for(node, crtc)(outputs_before[i]));
            }
            assert(world(*self, *projectwc) =~= before.disconnected(node, crtc));
        }
        Disconnected::Done { withdraw, unmap }
    }
}

fn position_on_crtc(connectors: &Vec<NonDesktopConnector>, crtc: u32) -> (r: Option<usize>)
    ensures
        match first_where(connectors@, on_crtc(crtc)) {
            Some(i) => r matches Some(k) && k == i && k < connectors@.len(),
            None => r is None,
        },
{
    let ghost wanted = on_crtc(crtc);
    let mut i: usize = 0;
    while i < connectors.len()
        invariant
            i <= connectors.len(),
            wanted == on_crtc(crtc),
            forall|j: int| 0 <= j < i ==> !wanted(#[trigger] connectors@[j]),
        decreases connectors.len() - i,
    {
        if connectors[i].crtc == crtc {
            proof {
                lemma_first_found(connectors@, wanted, i as int);
            }
            return Some(i);
        }
        i += 1;
    }
    proof {
        lemma_first_missing(connectors@, wanted);
    }
    None
}

/// Finds the output that stands for a display controller.
pub fn position_of_output(outputs: &Vec<Output>, node: u64, crtc: u32) -> (r: Option<usize>)
    requires
        searchable(outputs@, node, crtc),
    ensures
        match first_where(outputs@, stands_for(node, crtc)) {
            Some(i) => r matches Some(k) && k == i && k < outputs@.len(),
            None => r is None,
        },
{
    let ghost wanted = stands_for(node, crtc);
    let mut i: usize = 0;
    while i < outputs.len()
        invariant
            i <= outputs.len(),
            searchable(outputs@, node, crtc),
            wanted == stands_for(node, crtc),
            forall|j: int| 0 <= j < i ==> !wanted(#[trigger] outputs@[j]),
        decreases outputs.len() - i,
    {
        assert(outputs@[i as int].udev is Some);
        if let Some(state) = outputs[i].udev {
            if state.node == node && state.crtc == crtc {
                proof {
                    lemma_first_found(outputs@, wanted, i as int);
                }
                return Some(i);
            }
        }
        i += 1;
    }
    proof {
        lemma_first_missing(outputs@, wanted);
    }
    None
}

impl Connected {
    /// The output to draw on once the connector has been dealt with.
    pub fn output_to_draw(&self) -> (r: Option<u64>)
        ensures
            r == drawn_after(self@),
            *self matches Connected::Desktop(plan) ==> r == Some(plan.output),
            !(*self is Desktop) ==> r is None,
    {
        match self {
            Connected::Desktop(plan) => Some(plan.output),
            _ => None,
        }
    }
}

impl DeviceError {
    /// The error in words.
    pub fn message(&self) -> (r: String)
        ensures
            r@ == "no allocator for device"@,
    {
        "no allocator for device".to_owned()
    }
}

/// Picks the device that a graphics stack renders on.
pub fn render_node(probe: GpuProbe, node: u64) -> (r: Option<u64>)
    ensures
        r == render_node_of(probe, node),
        r is None <==> probe.software,
        r matches Some(n) ==> probe.render_node == Some(n) || probe.render_node is None && n == node,
{
    if probe.software {
        None
    } else {
        match probe.render_node {
            Some(n) => Some(n),
            None => Some(node),
        }
    }
}

impl Udev {
    /// Starts with the devices that are there. Where the primary one could not be asked for,
    /// or one of them cannot be used, there is no backend; the devices before that one have
    /// been brought up by then.
    pub fn new(
        primary_gpu: PrimaryGpu,
        found: &Vec<Option<FoundDevice>>,
        projectwc: &mut ProjectWC,
    ) -> (r: Option<(Udev, Vec<DeviceAdded>)>)
        requires
            primary_gpu != PrimaryGpu::Missing,
            primary_gpu matches PrimaryGpu::Found(gpu) ==> bare_world(gpu, *old(projectwc)).can_start(
                found_views(found@),
            ),
        ensures
            only_outputs_differ(*old(projectwc), *final(projectwc)),
            match primary_gpu {
                PrimaryGpu::Found(gpu) => {
                    let bare = bare_world(gpu, *old(projectwc));
                    let devices = found_views(found@);
                    if bare.takes_first(devices, devices.len() as int) {
                        &&& r matches Some((udev, added))
                        &&& world(udev, *final(projectwc)) == bare.after_devices(devices)
                        &&& added@.len() == devices.len()
                        &&& forall|k: int|
                            0 <= k < added@.len() ==> bare.after_devices(devices.take(k)).is_added(
                                devices[k],
                                #[trigger] added@[k],
                            )
                    } else {
                        &&& r is None
                        &&& exists|k: int|
                            {
                                &&& 0 <= k < devices.len()
                                &&& bare.takes_first(devices, k)
                                &&& !bare.after_devices(#[trigger] devices.take(k)).takes(devices[k])
                                &&& final(projectwc).space.outputs@ == bare.after_devices(
                                    devices.take(k),
                                ).outputs
                                &&& final(projectwc).next_output == bare.after_devices(
                                    devices.take(k),
                                ).next_output
                            }
                    }
                },
                _ => r is None && *final(projectwc) == *old(projectwc),
            },
    {
        let gpu = match primary_gpu {
            PrimaryGpu::Found(gpu) => gpu,
            _ => return None,
        };
        let ghost bare = bare_world(gpu, *projectwc);
        let ghost projectwc_before = *projectwc;
        let ghost devices = found_views(found@);
        let mut udev = Udev { primary_gpu: gpu, devices: HashMap::new() };
        let mut added: Vec<DeviceAdded> = Vec::new();
        let mut i: usize = 0;
        proof {
            assert(device_views(udev.devices@) =~= Map::empty());
            assert(devices.take(0) =~= Seq::<Option<FoundView>>::empty());
        }
        while i < found.len()
            invariant
                i <= found.len(),
                devices == found_views(found@),
                primary_gpu == PrimaryGpu::Found(gpu),
                projectwc_before == *old(projectwc),
                bare == bare_world(gpu, projectwc_before),
                bare.can_start(devices),
                bare.takes_first(devices, i as int),
                world(udev, *projectwc) == bare.after_devices(devices.take(i as int)),
                only_outputs_differ(projectwc_before, *projectwc),
                added@.len() == i,
                forall|k: int|
                    0 <= k < i ==> bare.after_devices(devices.take(k)).is_added(
                        devices[k],
                        #[trigger] added@[k],
                    ),
            decreases found.len() - i,
        {
            let ghost now = bare.after_devices(devices.take(i as int));
            proof {
                lemma_after_next_device(bare, devices, i as int);
                assert(devices[i as int] == found_view(found@[i as int]));
                assert(now.can_add(devices[i as int]));
            }
            match udev.start_device(&found[i], projectwc) {
                Some(a) => {
                    added.push(a);
                    assert(now.is_added(devices[i as int], a));
                },
                None => return None,
            }
            i += 1;
        }
        proof {
            assert(devices.take(devices.len() as int) =~= devices);
        }
        Some((udev, added))
    }

    /// Starts to use one of the devices that are there, when its turn comes. There is no
    /// backend where the device could not be opened or cannot be used.
    pub fn start_device(&mut self, found: &Option<FoundDevice>, projectwc: &mut ProjectWC) -> (r:
        Option<DeviceAdded>)
        requires
            world(*old(self), *old(projectwc)).can_add(found_view(*found)),
        ensures
            world(*final(self), *final(projectwc)) == world(
                *old(self),
                *old(projectwc),
            ).after_device(found_view(*found)),
            ({
                let before = world(*old(self), *old(projectwc));
                if before.takes(found_view(*found)) {
                    r matches Some(added) && before.is_added(found_view(*found), added)
                } else {
                    r is None
                }
            }),
            only_outputs_differ(*old(projectwc), *final(projectwc)),
    {
        let device = match found {
            Some(device) => device,
            None => return None,
        };
        match self.device_added(
            device.node,
            device.probe,
            device.lease_global,
            &device.scan,
            projectwc,
        ) {
            Ok(added) => Some(added),
            Err(_) => None,
        }
    }

    fn handle_events(&mut self, node: u64, events: &Vec<ScanEvent>, projectwc: &mut ProjectWC) -> (r:
        Vec<ScanOutcome>)
        requires
            world(*old(self), *old(projectwc)).can_handle_all(node, event_views(events@)),
        ensures
            world(*final(self), *final(projectwc)) == world(
                *old(self),
                *old(projectwc),
            ).after_events(node, event_views(events@)),
            outcome_views(r@) == world(*old(self), *old(projectwc)).event_outcomes(
                node,
                event_views(events@),
            ),
            only_outputs_differ(*old(projectwc), *final(projectwc)),
    {
        let ghost before = world(*self, *projectwc);
        let ghost projectwc_before = *projectwc;
        let ghost views = event_views(events@);
        let mut outcomes: Vec<ScanOutcome> = Vec::new();
        let mut i: usize = 0;
        proof {
            assert(views.take(0) =~= Seq::<ScanEventView>::empty());
        }
        while i < events.len()
            invariant
                i <= events.len(),
                views == event_views(events@),
                before.can_handle_all(node, views),
                world(*self, *projectwc) == before.after_events(node, views.take(i as int)),
                only_outputs_differ(projectwc_before, *projectwc),
                outcomes@.len() == i,
                forall|k: int|
                    0 <= k < i ==> (#[trigger] outcomes@[k])@ == before.after_events(
                        node,
                        views.take(k),
                    ).event_outcome(node, views[k]),
            decreases events.len() - i,
        {
            let ghost now = before.after_events(node, views.take(i as int));
            proof {
                assert(views[i as int] == events@[i as int]@);
                assert(now.can_handle(node, views[i as int]));
                lemma_after_next_event(before, node, views, i as int);
            }
            let outcome = match &events[i] {
                ScanEvent::Connected { connector, crtc: Some(crtc) } => ScanOutcome::Connected(
                    self.connector_connected(node, connector, *crtc, projectwc),
                ),
                ScanEvent::Disconnected {
                    handle,
                    crtc: Some(crtc),
                } => ScanOutcome::Disconnected(
                    self.connector_disconnected(node, *handle, *crtc, projectwc),
                ),
                _ => ScanOutcome::Ignored,
            };
            assert(outcome@ == now.event_outcome(node, views[i as int]));
            outcomes.push(outcome);
            i += 1;
        }
        proof {
            assert(views.take(views.len() as int) =~= views);
            assert(outcome_views(outcomes@) =~= before.event_outcomes(node, views));
        }
        outcomes
    }

    /// Handles what a scan of a device found: connectors that appeared and disappeared, in
    /// the order of the scan. A scan that failed changes nothing.
    pub fn device_changed(
        &mut self,
        node: u64,
        scan: &Option<Vec<ScanEvent>>,
        projectwc: &mut ProjectWC,
    ) -> (r: Vec<ScanOutcome>)
        requires
            world(*old(self), *old(projectwc)).can_handle_all(
                node,
                world(*old(self), *old(projectwc)).effective_events(node, scan_views(*scan)),
            ),
        ensures
            ({
                let before = world(*old(self), *old(projectwc));
                let events = before.effective_events(node, scan_views(*scan));
                &&& world(*final(self), *final(projectwc)) == before.after_events(node, events)
                &&& outcome_views(r@) == before.event_outcomes(node, events)
            }),
            only_outputs_differ(*old(projectwc), *final(projectwc)),
    {
        let ghost before = world(*self, *projectwc);
        if self.devices.contains_key(&node) {
            if let Some(events) = scan {
                return self.handle_events(node, events, projectwc);
            }
        }
        let none: Vec<ScanOutcome> = Vec::new();
        proof {
            assert(outcome_views(none@) =~= before.event_outcomes(node, Seq::empty()));
        }
        none
    }

    /// Decides how to use a device that has been opened: where it renders, and whose memory
    /// it draws into.
    pub fn plan_device(&self, node: u64, probe: GpuProbe) -> (r: Result<DevicePlan, DeviceError>)
        ensures
            match allocator_of(
                device_views(self.devices@),
                self.primary_gpu,
                render_node_of(probe, node),
            ) {
                Some(allocator) => r == Ok::<DevicePlan, DeviceError>(
                    (DevicePlan { render_node: render_node_of(probe, node), allocator }),
                ),
                None => r == Err::<DevicePlan, DeviceError>(DeviceError::NoAllocator),
            },
    {
        let render_node = render_node(probe, node);
        if render_node.is_some() {
            Ok(DevicePlan { render_node, allocator: AllocatorSource::Own })
        } else if self.devices.contains_key(&self.primary_gpu) {
            Ok(DevicePlan { render_node, allocator: AllocatorSource::PrimaryGpu })
        } else {
            Err(DeviceError::NoAllocator)
        }
    }

    /// Starts to use a device that has been opened, and handles its first scan.
    pub fn device_added(
        &mut self,
        node: u64,
        probe: GpuProbe,
        lease_global: bool,
        scan: &Option<Vec<ScanEvent>>,
        projectwc: &mut ProjectWC,
    ) -> (r: Result<DeviceAdded, DeviceError>)
        requires
            world(*old(self), *old(projectwc)).opened(node, probe, lease_global).can_handle_all(
                node,
                world(*old(self), *old(projectwc)).first_events(node, probe, scan_views(*scan)),
            ),
        ensures
            ({
                let before = world(*old(self), *old(projectwc));
                let found = FoundView { node, probe, lease_global, scan: scan_views(*scan) };
                &&& world(*final(self), *final(projectwc)) == before.added(
                    node,
                    probe,
                    lease_global,
                    scan_views(*scan),
                )
                &&& if before.takes(Some(found)) {
                    r matches Ok(added) && before.is_added(Some(found), added)
                } else {
                    r == Err::<DeviceAdded, DeviceError>(DeviceError::NoAllocator)
                }
            }),
            only_outputs_differ(*old(projectwc), *final(projectwc)),
    {
        let ghost before = world(*self, *projectwc);
        let ghost devices_before = self.devices@;
        let DevicePlan { render_node, allocator } = match self.plan_device(node, probe) {
            Ok(plan) => plan,
            Err(e) => return Err(e),
        };
        let device = OutputDevice {
            surfaces: HashMap::new(),
            render_node,
            allocator,
            lease_global,
            non_desktop_connectors: Vec::new(),
            active_leases: Vec::new(),
        };
        proof {
            lemma_device_views_update(devices_before, node, device);
            assert(surface_views(device.surfaces@) =~= Map::empty());
        }
        self.devices.insert(node, device);
        proof {
            assert(world(*self, *projectwc) =~= before.opened(node, probe, lease_global));
        }
        let outcomes = self.device_changed(node, scan, projectwc);
        Ok(DeviceAdded { render_node, allocator, outcomes })
    }

    /// Stops using a device that went away: its connectors are lost first.
    pub fn device_removed(
        &mut self,
        node: u64,
        crtcs: &Vec<CrtcMapping>,
        projectwc: &mut ProjectWC,
    ) -> (r: DeviceRemoved)
        requires
            world(*old(self), *old(projectwc)).can_remove(node, crtcs@),
        ensures
            world(*final(self), *final(projectwc)) == world(*old(self), *old(projectwc)).removed(
                node,
                crtcs@,
            ),
            ({
                let before = world(*old(self), *old(projectwc));
                let device = before.after_events(node, losses(crtcs@)).devices[node];
                if before.devices.contains_key(node) {
                    r matches DeviceRemoved::Done { lost, disable_lease_global, remove_render_node }
                        && {
                        &&& lost@.len() == crtcs@.len()
                        &&& forall|k: int|
                            0 <= k < lost@.len() ==> #[trigger] lost@[k] == before.after_events(
                                node,
                                losses(crtcs@).take(k),
                            ).disconnect_outcome(node, crtcs@[k].connector, crtcs@[k].crtc)
                        &&& disable_lease_global == device.lease_global
                        &&& remove_render_node == device.render_node
                        &&& disable_lease_global == old(self).devices@[node].lease_global
                        &&& remove_render_node == old(self).devices@[node].render_node
                    }
                } else {
                    r == DeviceRemoved::NoDevice
                }
            }),
            only_outputs_differ(*old(projectwc), *final(projectwc)),
    {
        let ghost before = world(*self, *projectwc);
        let ghost projectwc_before = *projectwc;
        let ghost views = losses(crtcs@);
        if !self.devices.contains_key(&node) {
            return DeviceRemoved::NoDevice;
        }
        let mut lost: Vec<Disconnected> = Vec::new();
        let mut i: usize = 0;
        proof {
            assert(views.take(0) =~= Seq::<ScanEventView>::empty());
        }
        while i < crtcs.len()
            invariant
                i <= crtcs.len(),
                views == losses(crtcs@),
                before.can_handle_all(node, views),
                world(*self, *projectwc) == before.after_events(node, views.take(i as int)),
                only_outputs_differ(projectwc_before, *projectwc),
                lost@.len() == i,
                forall|k: int|
                    0 <= k < i ==> #[trigger] lost@[k] == before.after_events(
                        node,
                        views.take(k),
                    ).disconnect_outcome(node, crtcs@[k].connector, crtcs@[k].crtc),
            decreases crtcs.len() - i,
        {
            proof {
                assert(before.after_events(node, views.take(i as int)).can_handle(
                    node,
                    views[i as int],
                ));
                lemma_after_next_event(before, node, views, i as int);
            }
            let mapping = crtcs[i];
            lost.push(
                self.connector_disconnected(node, mapping.connector, mapping.crtc, projectwc),
            );
            i += 1;
        }
        let ghost stripped = world(*self, *projectwc);
        let ghost devices_now = self.devices@;
        proof {
            assert(views.take(views.len() as int) =~= views);
            lemma_events_keep_devices(before, node, views);
            law_scan_keeps_what_a_device_is(before, node, views);
            assert(stripped.devices.contains_key(node));
        }
        match self.devices.remove(&node) {
            Some(device) => {
                proof {
                    lemma_device_views_update(devices_now, node, device);
                }
                DeviceRemoved::Done {
                    lost,
                    disable_lease_global: device.lease_global,
                    remove_render_node: device.render_node,
                }
            },
            None => DeviceRemoved::NoDevice,
        }
    }
}

} // verus!
