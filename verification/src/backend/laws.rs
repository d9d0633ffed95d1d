//! What stays true of the devices and their outputs, whatever happens.
use crate::backend::connector::is_non_desktop;
use crate::backend::connector::ConnectorView;
use crate::backend::frame::has_output;
use crate::backend::frame::shows;
use crate::backend::frame::vblank_of;
use crate::backend::frame::EventMetadata;
use crate::backend::model::drawn_after;
use crate::backend::model::lemma_after_next_event;
use crate::backend::model::losses;
use crate::backend::model::measurable;
use crate::backend::model::on_crtc;
use crate::backend::model::render_node_of;
use crate::backend::model::row_width;
use crate::backend::model::searchable;
use crate::backend::model::stands_for;
use crate::backend::model::DeviceView;
use crate::backend::model::FoundView;
use crate::backend::model::ScanEventView;
use crate::backend::model::World;
use crate::backend::udev::AllocatorSource;
use crate::backend::udev::CrtcMapping;
use crate::backend::udev::GpuProbe;
use crate::backend::udev::UdevOutputState;
use crate::search::first_where;
use crate::search::is_first;
use crate::search::lemma_filter_members;
use crate::search::lemma_first_found;
use crate::search::lemma_first_missing;
use crate::search::lemma_first_where;
use crate::space::Output;
use vstd::prelude::*;

verus! {

// ---------------------------------------------------------------------------
// Outputs and surfaces
// ---------------------------------------------------------------------------

impl World {
    /// The device shows something on this display controller.
    pub open spec fn lit(self, at: UdevOutputState) -> bool {
        self.devices.contains_key(at.node) && self.devices[at.node].surfaces.contains_key(at.crtc)
    }

    /// Outputs and surfaces go together: every output stands for a surface, no two for the
    /// same one, and every surface has its output.
    pub open spec fn matched(self) -> bool {
        &&& forall|i: int|
            0 <= i < self.outputs.len() ==> ((#[trigger] self.outputs[i]).udev matches Some(at)
                && self.lit(at))
        &&& forall|i: int, j: int|
            0 <= i < j < self.outputs.len() ==> (#[trigger] self.outputs[i]).udev != (
            #[trigger] self.outputs[j]).udev
        &&& forall|at: UdevOutputState| #[trigger]
            self.lit(at) ==> exists|i: int|
                0 <= i < self.outputs.len() && (#[trigger] self.outputs[i]).udev == Some(at)
    }

    /// Outputs and surfaces of one device go together: every output of the device stands for
    /// one of its surfaces, no two for the same one, and every surface has its output.
    pub open spec fn matched_on(self, node: u64) -> bool {
        &&& forall|i: int|
            0 <= i < self.outputs.len() ==> ((#[trigger] self.outputs[i]).udev matches Some(at)
                ==> (at.node == node ==> self.lit(at)))
        &&& forall|i: int, j: int|
            0 <= i < j < self.outputs.len() && of_device(node)(#[trigger] self.outputs[i])
                ==> self.outputs[i].udev != (#[trigger] self.outputs[j]).udev
        &&& forall|at: UdevOutputState|
            at.node == node && #[trigger] self.lit(at) ==> exists|i: int|
                0 <= i < self.outputs.len() && (#[trigger] self.outputs[i]).udev == Some(at)
    }

    /// No two outputs have the same name, and no name is given out twice.
    pub open spec fn named(self) -> bool {
        &&& forall|i: int|
            0 <= i < self.outputs.len() ==> (#[trigger] self.outputs[i]).id < self.next_output
        &&& forall|i: int, j: int|
            0 <= i < j < self.outputs.len() ==> (#[trigger] self.outputs[i]).id != (
            #[trigger] self.outputs[j]).id
    }
}

/// The output stands for a connector of this device.
pub open spec fn of_device(node: u64) -> spec_fn(Output) -> bool {
    |o: Output| o.udev matches Some(at) && at.node == node
}

/// The output stands for none of the connectors of this device.
pub open spec fn not_of_device(node: u64) -> spec_fn(Output) -> bool {
    |o: Output| !of_device(node)(o)
}

/// Every output stands for some connector.
pub open spec fn all_stand(outputs: Seq<Output>) -> bool {
    forall|i: int| 0 <= i < outputs.len() ==> (#[trigger] outputs[i]).udev is Some
}

/// Outputs and surfaces go together exactly when they do on every device, and every output
/// stands for some connector.
pub proof fn law_match_is_per_device(w: World)
    ensures
        w.matched() <==> all_stand(w.outputs) && forall|node: u64| #[trigger] w.matched_on(node),
{
    if all_stand(w.outputs) && forall|node: u64| #[trigger] w.matched_on(node) {
        assert forall|i: int| 0 <= i < w.outputs.len() implies ((
        #[trigger] w.outputs[i]).udev matches Some(at) && w.lit(at)) by {
            assert(w.matched_on(w.outputs[i].udev->Some_0.node));
        }
        assert forall|i: int, j: int| 0 <= i < j < w.outputs.len() implies (
        #[trigger] w.outputs[i]).udev != (#[trigger] w.outputs[j]).udev by {
            let node = w.outputs[i].udev->Some_0.node;
            assert(w.matched_on(node));
            assert(of_device(node)(w.outputs[i]));
        }
        assert forall|at: UdevOutputState| #[trigger] w.lit(at) implies exists|i: int|
            0 <= i < w.outputs.len() && (#[trigger] w.outputs[i]).udev == Some(at) by {
            assert(w.matched_on(at.node));
        }
    }
}

proof fn lemma_where(w: World, at: UdevOutputState)
    requires
        w.matched_on(at.node),
    ensures
        match first_where(w.outputs, stands_for(at.node, at.crtc)) {
            Some(i) => is_first(w.outputs, stands_for(at.node, at.crtc), i) && w.lit(at),
            None => !w.lit(at) && forall|i: int|
                0 <= i < w.outputs.len() ==> (#[trigger] w.outputs[i]).udev != Some(at),
        },
{
    let wanted = stands_for(at.node, at.crtc);
    assert(at == (UdevOutputState { node: at.node, crtc: at.crtc }));
    lemma_first_where(w.outputs, wanted);
    if first_where(w.outputs, wanted) is None {
        assert forall|i: int| 0 <= i < w.outputs.len() implies (#[trigger] w.outputs[i]).udev != Some(
            at,
        ) by {
            assert(!wanted(w.outputs[i]));
        }
        if w.lit(at) {
            let i = choose|i: int|
                0 <= i < w.outputs.len() && (#[trigger] w.outputs[i]).udev == Some(at);
            assert(!wanted(w.outputs[i]));
        }
    }
}

proof fn lemma_connect_keeps_match_on(w: World, node: u64, c: ConnectorView, crtc: u32, on: u64)
    requires
        w.matched_on(on),
        !w.lit(UdevOutputState { node, crtc }),
    ensures
        w.connected(node, c, crtc).matched_on(on),
{
    let v = w.connected(node, c, crtc);
    let new_at = UdevOutputState { node, crtc };
    if w.devices.contains_key(node) {
        assert forall|at: UdevOutputState| w.lit(at) implies v.lit(at) by {}
        if is_non_desktop(c.properties) {
            assert forall|at: UdevOutputState| #[trigger] v.lit(at) implies w.lit(at) by {}
        } else {
            let n = w.outputs.len() as int;
            assert(v.outputs[n].udev == Some(new_at));
            assert(forall|i: int| 0 <= i < n ==> v.outputs[i] == w.outputs[i]);
            assert(v.lit(new_at));
            assert forall|at: UdevOutputState| at.node == on && #[trigger] v.lit(at) implies exists|i: int|
                0 <= i < v.outputs.len() && (#[trigger] v.outputs[i]).udev == Some(at) by {
                if at == new_at {
                    assert(v.outputs[n].udev == Some(at));
                } else {
                    assert(w.lit(at));
                    let i = choose|i: int| 0 <= i < n && (#[trigger] w.outputs[i]).udev == Some(at);
                    assert(v.outputs[i].udev == Some(at));
                }
            }
        }
    }
}

/// A connector that appears on a display controller that shows nothing gets an output of
/// its own.
pub proof fn law_connect_keeps_match(w: World, node: u64, c: ConnectorView, crtc: u32)
    requires
        w.matched(),
        !w.lit(UdevOutputState { node, crtc }),
    ensures
        w.connected(node, c, crtc).matched(),
{
    let v = w.connected(node, c, crtc);
    law_match_is_per_device(w);
    law_match_is_per_device(v);
    assert forall|on: u64| #[trigger] v.matched_on(on) by {
        assert(w.matched_on(on));
        lemma_connect_keeps_match_on(w, node, c, crtc, on);
    }
}

proof fn lemma_disconnect_keeps_match_on(w: World, node: u64, crtc: u32, on: u64)
    requires
        w.matched_on(on),
    ensures
        w.disconnected(node, crtc).matched_on(on),
{
    let v = w.disconnected(node, crtc);
    let gone = UdevOutputState { node, crtc };
    if w.devices.contains_key(node) {
        assert forall|at: UdevOutputState| at != gone implies v.lit(at) == #[trigger] w.lit(at) by {}
        lemma_first_where(w.outputs, stands_for(node, crtc));
        if on == node {
            lemma_where(w, gone);
        }
        match first_where(w.outputs, stands_for(node, crtc)) {
            Some(k) => {
                assert(w.outputs[k].udev == Some(gone));
                assert forall|i: int| 0 <= i < v.outputs.len() implies ((
                #[trigger] v.outputs[i]).udev matches Some(at) ==> (at.node == on ==> v.lit(at))) by {
                    let j = if i < k {
                        i
                    } else {
                        i + 1
                    };
                    assert(v.outputs[i] == w.outputs[j]);
                    if of_device(on)(w.outputs[j]) {
                        assert(on == node ==> of_device(on)(w.outputs[k]));
                        assert(w.outputs[j].udev != w.outputs[k].udev);
                    }
                }
                assert forall|i: int, j: int|
                    0 <= i < j < v.outputs.len() && of_device(on)(
                        #[trigger] v.outputs[i],
                    ) implies v.outputs[i].udev != (#[trigger] v.outputs[j]).udev by {
                    let a = if i < k {
                        i
                    } else {
                        i + 1
                    };
                    let b = if j < k {
                        j
                    } else {
                        j + 1
                    };
                    assert(v.outputs[i] == w.outputs[a]);
                    assert(v.outputs[j] == w.outputs[b]);
                }
                assert forall|at: UdevOutputState| at.node == on && #[trigger] v.lit(at) implies exists|
                    i: int,
                |
                    0 <= i < v.outputs.len() && (#[trigger] v.outputs[i]).udev == Some(at) by {
                    assert(w.lit(at));
                    let j = choose|j: int|
                        0 <= j < w.outputs.len() && (#[trigger] w.outputs[j]).udev == Some(at);
                    let i = if j < k {
                        j
                    } else {
                        j - 1
                    };
                    assert(v.outputs[i].udev == Some(at));
                }
            },
            None => {
                assert(v.outputs == w.outputs);
                assert forall|at: UdevOutputState| #[trigger] v.lit(at) implies w.lit(at) by {}
            },
        }
    }
}

proof fn lemma_disconnect_darkens(w: World, node: u64, crtc: u32)
    ensures
        !w.disconnected(node, crtc).lit(UdevOutputState { node, crtc }),
        forall|at: UdevOutputState|
            at != (UdevOutputState { node, crtc }) ==> w.disconnected(node, crtc).lit(at) == #[trigger] w.lit(
                at,
            ),
{
}

/// A connector that disappears takes its output with it, and no other.
pub proof fn law_disconnect_keeps_match(w: World, node: u64, crtc: u32)
    requires
        w.matched(),
    ensures
        w.disconnected(node, crtc).matched(),
        !w.disconnected(node, crtc).lit(UdevOutputState { node, crtc }),
        forall|at: UdevOutputState|
            at != (UdevOutputState { node, crtc }) ==> w.disconnected(node, crtc).lit(at) == #[trigger] w.lit(
                at,
            ),
{
    let v = w.disconnected(node, crtc);
    lemma_disconnect_darkens(w, node, crtc);
    law_match_is_per_device(w);
    law_match_is_per_device(v);
    lemma_disconnect_keeps_standing(w, node, crtc);
    assert forall|on: u64| #[trigger] v.matched_on(on) by {
        assert(w.matched_on(on));
        lemma_disconnect_keeps_match_on(w, node, crtc, on);
    }
}

proof fn lemma_disconnect_keeps_standing(w: World, node: u64, crtc: u32)
    requires
        all_stand(w.outputs),
    ensures
        all_stand(w.disconnected(node, crtc).outputs),
{
    let v = w.disconnected(node, crtc);
    lemma_first_where(w.outputs, stands_for(node, crtc));
    assert forall|i: int| 0 <= i < v.outputs.len() implies (#[trigger] v.outputs[i]).udev is Some by {
        assert(v.outputs[i] == w.outputs[i] || v.outputs[i] == w.outputs[i + 1]);
    }
}

proof fn lemma_connect_keeps_names(w: World, node: u64, c: ConnectorView, crtc: u32)
    requires
        w.named(),
        w.can_connect(node, c),
    ensures
        w.connected(node, c, crtc).named(),
        w.next_output <= w.connected(node, c, crtc).next_output,
{
}

proof fn lemma_disconnect_keeps_names(w: World, node: u64, crtc: u32)
    requires
        w.named(),
    ensures
        w.disconnected(node, crtc).named(),
        w.next_output == w.disconnected(node, crtc).next_output,
{
    let v = w.disconnected(node, crtc);
    if w.devices.contains_key(node) {
        lemma_first_where(w.outputs, stands_for(node, crtc));
        if let Some(k) = first_where(w.outputs, stands_for(node, crtc)) {
            assert forall|i: int, j: int| 0 <= i < j < v.outputs.len() implies (
            #[trigger] v.outputs[i]).id != (#[trigger] v.outputs[j]).id by {
                let a = if i < k {
                    i
                } else {
                    i + 1
                };
                let b = if j < k {
                    j
                } else {
                    j + 1
                };
                assert(v.outputs[i] == w.outputs[a]);
                assert(v.outputs[j] == w.outputs[b]);
            }
        }
    }
}

/// The names of the outputs stay apart through a scan, whatever it found.
pub proof fn law_scan_keeps_names(w: World, node: u64, events: Seq<ScanEventView>)
    requires
        w.named(),
        w.can_handle_all(node, events),
    ensures
        w.after_events(node, events).named(),
        w.next_output <= w.after_events(node, events).next_output,
    decreases events.len(),
{
    if events.len() > 0 {
        let n = events.len() - 1;
        let before = events.drop_last();
        assert(before =~= events.take(n));
        assert forall|k: int| 0 <= k < before.len() implies w.after_events(
            node,
            #[trigger] before.take(k),
        ).can_handle(node, before[k]) by {
            assert(before.take(k) =~= events.take(k));
        }
        law_scan_keeps_names(w, node, before);
        let v = w.after_events(node, events.take(n));
        assert(v.can_handle(node, events[n]));
        match events.last() {
            ScanEventView::Connected { connector, crtc: Some(crtc) } => {
                lemma_connect_keeps_names(v, node, connector, crtc);
            },
            ScanEventView::Disconnected { handle, crtc: Some(crtc) } => {
                lemma_disconnect_keeps_names(v, node, crtc);
            },
            _ => {},
        }
    }
}

/// Where outputs and surfaces of a device go together, and every output stands for some
/// connector, a frame that a surface of the device has shown belongs to an output, and that
/// output can be drawn on.
pub proof fn law_shown_frame_has_an_output(w: World, node: u64, crtc: u32, meta: EventMetadata)
    requires
        all_stand(w.outputs),
        w.matched_on(node),
        vblank_of(w.devices, node, crtc, meta) is Submit,
    ensures
        searchable(w.outputs, node, crtc),
        has_output(w.outputs, node, crtc),
        first_where(w.outputs, stands_for(node, crtc)) matches Some(i) && shows(
            w.devices,
            node,
            w.outputs[i],
        ),
{
    let at = UdevOutputState { node, crtc };
    assert(w.lit(at));
    lemma_where(w, at);
}

/// Where every output stands for some connector, any connector can be taken down.
pub proof fn law_can_disconnect(w: World, node: u64, crtc: u32)
    requires
        all_stand(w.outputs),
    ensures
        w.can_disconnect(node, crtc),
{
}

impl World {
    /// No event of the scan brings up a display controller that shows something already.
    pub open spec fn orderly(self, node: u64, events: Seq<ScanEventView>) -> bool {
        forall|k: int|
            0 <= k < events.len() ==> (events[k] matches ScanEventView::Connected {
                connector,
                crtc: Some(crtc),
            } ==> !self.after_events(node, #[trigger] events.take(k)).lit(
                UdevOutputState { node, crtc },
            ))
    }
}

proof fn lemma_orderly_start_of(w: World, node: u64, events: Seq<ScanEventView>)
    requires
        w.orderly(node, events),
        events.len() > 0,
    ensures
        w.orderly(node, events.drop_last()),
        events.last() matches ScanEventView::Connected { connector, crtc: Some(crtc) }
            ==> !w.after_events(node, events.drop_last()).lit(UdevOutputState { node, crtc }),
{
    let n = events.len() - 1;
    let before = events.drop_last();
    assert(before =~= events.take(n));
    assert forall|k: int| 0 <= k < before.len() implies (before[k] matches ScanEventView::Connected {
        connector,
        crtc: Some(crtc),
    } ==> !w.after_events(node, #[trigger] before.take(k)).lit(UdevOutputState { node, crtc })) by {
        assert(before.take(k) =~= events.take(k));
    }
    assert(events[n] == events.last());
}

/// Outputs and surfaces of a device go together after a scan of it, whatever it found.
pub proof fn law_scan_keeps_match_on(w: World, node: u64, events: Seq<ScanEventView>)
    requires
        w.matched_on(node),
        w.orderly(node, events),
    ensures
        w.after_events(node, events).matched_on(node),
    decreases events.len(),
{
    if events.len() > 0 {
        lemma_orderly_start_of(w, node, events);
        law_scan_keeps_match_on(w, node, events.drop_last());
        let v = w.after_events(node, events.drop_last());
        match events.last() {
            ScanEventView::Connected { connector, crtc: Some(crtc) } => {
                lemma_connect_keeps_match_on(v, node, connector, crtc, node);
            },
            ScanEventView::Disconnected { handle, crtc: Some(crtc) } => {
                lemma_disconnect_keeps_match_on(v, node, crtc, node);
            },
            _ => {},
        }
    }
}

/// Outputs and surfaces go together after a scan, whatever it found.
pub proof fn law_scan_keeps_match(w: World, node: u64, events: Seq<ScanEventView>)
    requires
        w.matched(),
        w.orderly(node, events),
    ensures
        w.after_events(node, events).matched(),
    decreases events.len(),
{
    if events.len() > 0 {
        lemma_orderly_start_of(w, node, events);
        law_scan_keeps_match(w, node, events.drop_last());
        let v = w.after_events(node, events.drop_last());
        match events.last() {
            ScanEventView::Connected { connector, crtc: Some(crtc) } => {
                law_connect_keeps_match(v, node, connector, crtc);
            },
            ScanEventView::Disconnected { handle, crtc: Some(crtc) } => {
                law_disconnect_keeps_match(v, node, crtc);
            },
            _ => {},
        }
    }
}

/// A device that was not in use shows nothing before it is scanned.
pub proof fn law_new_device_is_dark(
    w: World,
    node: u64,
    render_node: Option<u64>,
    allocator: AllocatorSource,
    lease_global: bool,
)
    requires
        w.matched(),
        !w.devices.contains_key(node),
    ensures
        w.with_device(node, render_node, allocator, lease_global).matched(),
        forall|crtc: u32|
            !#[trigger] w.with_device(node, render_node, allocator, lease_global).lit(
                UdevOutputState { node, crtc },
            ),
{
    let v = w.with_device(node, render_node, allocator, lease_global);
    assert forall|at: UdevOutputState| #[trigger] v.lit(at) implies w.lit(at) by {}
    assert forall|at: UdevOutputState| #[trigger] w.lit(at) implies v.lit(at) by {}
}

/// Outputs and surfaces go together after a device was added.
pub proof fn law_add_keeps_match(
    w: World,
    node: u64,
    probe: GpuProbe,
    lease_global: bool,
    scan: Option<Seq<ScanEventView>>,
)
    requires
        w.matched(),
        !w.devices.contains_key(node),
        w.opened(node, probe, lease_global).orderly(node, w.first_events(node, probe, scan)),
    ensures
        w.added(node, probe, lease_global, scan).matched(),
{
    let render_node = render_node_of(probe, node);
    if let Some(allocator) = w.allocator_for(render_node) {
        law_new_device_is_dark(w, node, render_node, allocator, lease_global);
    }
    law_scan_keeps_match(
        w.opened(node, probe, lease_global),
        node,
        w.first_events(node, probe, scan),
    );
}

impl World {
    /// No device is found twice, and no scan brings up a display controller that shows
    /// something already.
    pub open spec fn orderly_start(self, found: Seq<Option<FoundView>>) -> bool {
        forall|k: int|
            0 <= k < found.len() ==> {
                let w = self.after_devices(#[trigger] found.take(k));
                found[k] matches Some(d) ==> {
                    &&& !w.devices.contains_key(d.node)
                    &&& w.opened(d.node, d.probe, d.lease_global).orderly(
                        d.node,
                        w.first_events(d.node, d.probe, d.scan),
                    )
                }
            }
    }
}

/// Outputs and surfaces go together once the devices that are there at start were found.
pub proof fn law_start_is_matched(w: World, found: Seq<Option<FoundView>>)
    requires
        w.devices == Map::<u64, DeviceView>::empty(),
        w.outputs == Seq::<Output>::empty(),
        w.orderly_start(found),
    ensures
        w.after_devices(found).matched(),
    decreases found.len(),
{
    if found.len() > 0 {
        let n = found.len() - 1;
        let before = found.drop_last();
        assert(before =~= found.take(n));
        assert(w.orderly_start(before)) by {
            assert forall|k: int| 0 <= k < before.len() implies {
                let v = w.after_devices(#[trigger] before.take(k));
                before[k] matches Some(d) ==> {
                    &&& !v.devices.contains_key(d.node)
                    &&& v.opened(d.node, d.probe, d.lease_global).orderly(
                        d.node,
                        v.first_events(d.node, d.probe, d.scan),
                    )
                }
            } by {
                assert(before.take(k) =~= found.take(k));
            }
        }
        law_start_is_matched(w, before);
        let v = w.after_devices(found.take(n));
        if let Some(d) = found.last() {
            assert(found[n] == Some(d));
            assert(!v.devices.contains_key(d.node));
            law_add_keeps_match(v, d.node, d.probe, d.lease_global, d.scan);
        }
    }
}

// ---------------------------------------------------------------------------
// Undoing
// ---------------------------------------------------------------------------

impl World {
    /// Nothing uses this display controller.
    pub open spec fn idle(self, node: u64, crtc: u32) -> bool {
        &&& self.devices.contains_key(node)
        &&& !self.devices[node].surfaces.contains_key(crtc)
        &&& first_where(self.devices[node].non_desktop_connectors, on_crtc(crtc)) is None
        &&& first_where(self.outputs, stands_for(node, crtc)) is None
    }
}

/// A connector that appears on an idle display controller and disappears again leaves
/// everything as it was, but for the name that its output had, which is not given out again.
pub proof fn law_disconnect_undoes_connect(w: World, node: u64, c: ConnectorView, crtc: u32)
    requires
        w.idle(node, crtc),
    ensures
        w.connected(node, c, crtc).disconnected(node, crtc) == (World {
            next_output: w.connected(node, c, crtc).next_output,
            ..w
        }),
{
    let v = w.connected(node, c, crtc);
    let end = v.disconnected(node, crtc);
    let device = w.devices[node];
    let wanted = stands_for(node, crtc);
    lemma_first_where(w.outputs, wanted);
    lemma_first_where(device.non_desktop_connectors, on_crtc(crtc));
    if is_non_desktop(c.properties) {
        let entries = v.devices[node].non_desktop_connectors;
        let n = device.non_desktop_connectors.len() as int;
        assert forall|j: int| 0 <= j < n implies !on_crtc(crtc)(#[trigger] entries[j]) by {
            assert(entries[j] == device.non_desktop_connectors[j]);
        }
        lemma_first_found(entries, on_crtc(crtc), n);
        assert(entries.remove(n) =~= device.non_desktop_connectors);
    } else {
        let n = w.outputs.len() as int;
        assert forall|j: int| 0 <= j < n implies !wanted(#[trigger] v.outputs[j]) by {
            assert(v.outputs[j] == w.outputs[j]);
        }
        lemma_first_found(v.outputs, wanted, n);
        assert(v.outputs.remove(n) =~= w.outputs);
        assert(v.devices[node].surfaces.remove(crtc) =~= device.surfaces);
    }
    assert(end.devices[node] =~= device);
    assert(end.devices =~= w.devices);
}

impl World {
    /// At most one thing uses this display controller, and at most one output stands for it.
    pub open spec fn at_most_once(self, node: u64, crtc: u32) -> bool {
        let entries = self.devices[node].non_desktop_connectors;
        &&& self.devices[node].surfaces.contains_key(crtc) ==> first_where(entries, on_crtc(crtc)) is None
        &&& forall|i: int, j: int|
            0 <= i < j < entries.len() && (#[trigger] entries[i]).crtc == crtc ==> (
            #[trigger] entries[j]).crtc != crtc
        &&& forall|i: int, j: int|
            0 <= i < j < self.outputs.len() && (#[trigger] self.outputs[i]).udev == Some(
                UdevOutputState { node, crtc },
            ) ==> (#[trigger] self.outputs[j]).udev != Some(UdevOutputState { node, crtc })
    }
}

/// Losing a connector twice is the same as losing it once.
pub proof fn law_disconnect_is_idempotent(w: World, node: u64, crtc: u32)
    requires
        w.at_most_once(node, crtc),
    ensures
        w.disconnected(node, crtc).disconnected(node, crtc) == w.disconnected(node, crtc),
{
    if w.devices.contains_key(node) {
        let v = w.disconnected(node, crtc);
        let device = w.devices[node];
        let entries = device.non_desktop_connectors;
        let left = v.devices[node].non_desktop_connectors;
        lemma_first_where(entries, on_crtc(crtc));
        lemma_first_where(w.outputs, stands_for(node, crtc));
        assert forall|i: int| 0 <= i < left.len() implies !on_crtc(crtc)(#[trigger] left[i]) by {
            if !device.surfaces.contains_key(crtc) {
                if let Some(k) = first_where(entries, on_crtc(crtc)) {
                    assert(entries[k].crtc == crtc);
                    if i < k {
                        assert(left[i] == entries[i]);
                        assert(!on_crtc(crtc)(entries[i]));
                    } else {
                        assert(left[i] == entries[i + 1]);
                    }
                }
            }
        }
        lemma_first_missing(left, on_crtc(crtc));
        assert forall|i: int| 0 <= i < v.outputs.len() implies !stands_for(node, crtc)(
            #[trigger] v.outputs[i],
        ) by {
            if let Some(k) = first_where(w.outputs, stands_for(node, crtc)) {
                if i < k {
                    assert(v.outputs[i] == w.outputs[i]);
                    assert(!stands_for(node, crtc)(w.outputs[i]));
                } else {
                    assert(v.outputs[i] == w.outputs[i + 1]);
                    assert(w.outputs[k].udev == Some(UdevOutputState { node, crtc }));
                }
            }
        }
        lemma_first_missing(v.outputs, stands_for(node, crtc));
        assert(v.devices.insert(node, v.devices[node]) =~= v.devices);
    }
}

/// The output of a display that has just come up is the last on the space, and can be drawn
/// on.
pub proof fn law_new_output_can_be_drawn(w: World, node: u64, c: ConnectorView, crtc: u32)
    ensures
        ({
            let v = w.connected(node, c, crtc);
            match drawn_after(w.connect_outcome(node, c, crtc)) {
                Some(output) => {
                    &&& v.outputs == w.outputs.push(v.outputs.last())
                    &&& v.outputs.last().id == output
                    &&& shows(v.devices, node, v.outputs.last())
                },
                None => v.outputs == w.outputs,
            }
        }),
{
}

// ---------------------------------------------------------------------------
// Devices apart
// ---------------------------------------------------------------------------

proof fn lemma_filter_push<A>(s: Seq<A>, x: A, p: spec_fn(A) -> bool)
    ensures
        s.push(x).filter(p) == if p(x) {
            s.filter(p).push(x)
        } else {
            s.filter(p)
        },
{
    reveal(Seq::filter);
    assert(s.push(x).drop_last() =~= s);
}

proof fn lemma_filter_remove<A>(s: Seq<A>, k: int, p: spec_fn(A) -> bool)
    requires
        0 <= k < s.len(),
        !p(s[k]),
    ensures
        s.remove(k).filter(p) == s.filter(p),
    decreases s.len(),
{
    reveal(Seq::filter);
    if k == s.len() - 1 {
        assert(s.remove(k) =~= s.drop_last());
    } else {
        lemma_filter_remove(s.drop_last(), k, p);
        assert(s.remove(k).drop_last() =~= s.drop_last().remove(k));
        assert(s.remove(k).last() == s.last());
    }
}

/// What a scan of one device finds leaves the other devices and their outputs alone.
pub proof fn law_scan_stays_on_its_device(
    w: World,
    node: u64,
    events: Seq<ScanEventView>,
    other: u64,
)
    requires
        other != node,
    ensures
        ({
            let v = w.after_events(node, events);
            &&& v.devices.dom() == w.devices.dom()
            &&& v.devices[other] == w.devices[other]
            &&& v.outputs.filter(of_device(other)) == w.outputs.filter(of_device(other))
        }),
    decreases events.len(),
{
    if events.len() > 0 {
        let u = w.after_events(node, events.drop_last());
        law_scan_stays_on_its_device(w, node, events.drop_last(), other);
        let v = u.after_event(node, events.last());
        assert(v.devices.dom() =~= u.devices.dom());
        match events.last() {
            ScanEventView::Connected { connector, crtc: Some(crtc) } => {
                if u.devices.contains_key(node) && !is_non_desktop(connector.properties) {
                    lemma_filter_push(
                        u.outputs,
                        u.new_output(node, connector, crtc),
                        of_device(other),
                    );
                }
            },
            ScanEventView::Disconnected { handle, crtc: Some(crtc) } => {
                if u.devices.contains_key(node) {
                    lemma_first_where(u.outputs, stands_for(node, crtc));
                    if let Some(k) = first_where(u.outputs, stands_for(node, crtc)) {
                        lemma_filter_remove(u.outputs, k, of_device(other));
                    }
                }
            },
            _ => {},
        }
    }
}

proof fn lemma_losses_remove_outputs(w: World, node: u64, crtcs: Seq<CrtcMapping>, k: int)
    requires
        w.matched_on(node),
        0 <= k <= crtcs.len(),
    ensures
        ({
            let v = w.after_events(node, losses(crtcs).take(k));
            &&& v.matched_on(node)
            &&& v.outputs.filter(not_of_device(node)) == w.outputs.filter(not_of_device(node))
            &&& v.devices.remove(node) == w.devices.remove(node)
            &&& v.next_output == w.next_output
            &&& v.primary_gpu == w.primary_gpu
            &&& forall|crtc: u32| #[trigger]
                v.lit(UdevOutputState { node, crtc }) ==> w.lit(UdevOutputState { node, crtc })
                    && forall|n: int| 0 <= n < k ==> (#[trigger] crtcs[n]).crtc != crtc
        }),
    decreases k,
{
    let events = losses(crtcs);
    if k == 0 {
        assert(events.take(0) =~= Seq::<ScanEventView>::empty());
    } else {
        lemma_losses_remove_outputs(w, node, crtcs, k - 1);
        lemma_after_next_event(w, node, events, k - 1);
        let u = w.after_events(node, events.take(k - 1));
        let v = w.after_events(node, events.take(k));
        let crtc = crtcs[k - 1].crtc;
        assert(v == u.disconnected(node, crtc));
        lemma_disconnect_keeps_match_on(u, node, crtc, node);
        lemma_disconnect_darkens(u, node, crtc);
        if u.devices.contains_key(node) {
            lemma_first_where(u.outputs, stands_for(node, crtc));
            if let Some(i) = first_where(u.outputs, stands_for(node, crtc)) {
                lemma_filter_remove(u.outputs, i, not_of_device(node));
            }
            assert(v.devices.remove(node) =~= u.devices.remove(node));
        }
        assert forall|c: u32| #[trigger] v.lit(UdevOutputState { node, crtc: c }) implies w.lit(
            UdevOutputState { node, crtc: c },
        ) && forall|n: int| 0 <= n < k ==> (#[trigger] crtcs[n]).crtc != c by {
            assert(c != crtc);
            assert(u.lit(UdevOutputState { node, crtc: c }));
        }
    }
}

proof fn lemma_filter_all<A>(s: Seq<A>, p: spec_fn(A) -> bool)
    requires
        forall|i: int| 0 <= i < s.len() ==> p(#[trigger] s[i]),
    ensures
        s.filter(p) == s,
    decreases s.len(),
{
    reveal(Seq::filter);
    if s.len() > 0 {
        lemma_filter_all(s.drop_last(), p);
        assert(s.drop_last().push(s.last()) =~= s);
    }
}

proof fn lemma_losses_keep_standing(w: World, node: u64, crtcs: Seq<CrtcMapping>, k: int)
    requires
        all_stand(w.outputs),
        0 <= k <= crtcs.len(),
    ensures
        all_stand(w.after_events(node, losses(crtcs).take(k)).outputs),
    decreases k,
{
    let events = losses(crtcs);
    if k == 0 {
        assert(events.take(0) =~= Seq::<ScanEventView>::empty());
    } else {
        lemma_losses_keep_standing(w, node, crtcs, k - 1);
        lemma_after_next_event(w, node, events, k - 1);
        lemma_disconnect_keeps_standing(
            w.after_events(node, events.take(k - 1)),
            node,
            crtcs[k - 1].crtc,
        );
    }
}

/// Where every output stands for some connector, any device can go away.
pub proof fn law_can_remove(w: World, node: u64, crtcs: Seq<CrtcMapping>)
    requires
        all_stand(w.outputs),
    ensures
        w.can_remove(node, crtcs),
{
    let events = losses(crtcs);
    assert forall|k: int| 0 <= k < events.len() implies w.after_events(
        node,
        #[trigger] events.take(k),
    ).can_handle(node, events[k]) by {
        lemma_losses_keep_standing(w, node, crtcs, k);
        law_can_disconnect(w.after_events(node, events.take(k)), node, crtcs[k].crtc);
    }
}

/// A device that goes away, with every display controller that it shows something on, is
/// gone with all its outputs; the other devices and their outputs stay as they are.
pub proof fn law_removed_device_leaves_nothing(w: World, node: u64, crtcs: Seq<CrtcMapping>)
    requires
        w.matched_on(node),
        w.devices.contains_key(node),
        forall|crtc: u32| #[trigger]
            w.lit(UdevOutputState { node, crtc }) ==> exists|n: int|
                0 <= n < crtcs.len() && (#[trigger] crtcs[n]).crtc == crtc,
    ensures
        w.removed(node, crtcs) == (World {
            devices: w.devices.remove(node),
            outputs: w.outputs.filter(not_of_device(node)),
            ..w
        }),
{
    let events = losses(crtcs);
    assert(events.take(crtcs.len() as int) =~= events);
    lemma_losses_remove_outputs(w, node, crtcs, crtcs.len() as int);
    let v = w.after_events(node, events);
    assert forall|i: int| 0 <= i < v.outputs.len() implies not_of_device(node)(
        #[trigger] v.outputs[i],
    ) by {
        if of_device(node)(v.outputs[i]) {
            let at = v.outputs[i].udev->Some_0;
            assert(v.lit(at));
            assert(v.lit(UdevOutputState { node, crtc: at.crtc }));
        }
    }
    lemma_filter_all(v.outputs, not_of_device(node));
}

/// Outputs and surfaces go together after a device went away.
pub proof fn law_remove_keeps_match(w: World, node: u64, crtcs: Seq<CrtcMapping>)
    requires
        w.matched(),
        forall|crtc: u32| #[trigger]
            w.lit(UdevOutputState { node, crtc }) ==> exists|n: int|
                0 <= n < crtcs.len() && (#[trigger] crtcs[n]).crtc == crtc,
    ensures
        w.removed(node, crtcs).matched(),
{
    if w.devices.contains_key(node) {
        let end = w.removed(node, crtcs);
        let kept = w.outputs.filter(not_of_device(node));
        law_match_is_per_device(w);
        assert(w.matched_on(node));
        law_removed_device_leaves_nothing(w, node, crtcs);
        lemma_filter_keeps_apart(w.outputs, not_of_device(node));
        assert forall|i: int| 0 <= i < end.outputs.len() implies ((
        #[trigger] end.outputs[i]).udev matches Some(at) && end.lit(at)) by {
            lemma_filter_members(w.outputs, not_of_device(node), kept[i]);
            assert(kept.contains(kept[i]));
            let j = choose|j: int| 0 <= j < w.outputs.len() && w.outputs[j] == kept[i];
            assert(w.outputs[j].udev matches Some(at) && w.lit(at));
        }
        assert forall|at: UdevOutputState| #[trigger] end.lit(at) implies exists|i: int|
            0 <= i < end.outputs.len() && (#[trigger] end.outputs[i]).udev == Some(at) by {
            assert(w.lit(at));
            let j = choose|j: int|
                0 <= j < w.outputs.len() && (#[trigger] w.outputs[j]).udev == Some(at);
            lemma_filter_members(w.outputs, not_of_device(node), w.outputs[j]);
            assert(w.outputs.contains(w.outputs[j]));
            let i = choose|i: int| 0 <= i < kept.len() && kept[i] == w.outputs[j];
            assert(end.outputs[i].udev == Some(at));
        }
    }
}

proof fn lemma_filter_keeps_apart(outputs: Seq<Output>, p: spec_fn(Output) -> bool)
    requires
        forall|i: int, j: int|
            0 <= i < j < outputs.len() ==> (#[trigger] outputs[i]).udev != (
            #[trigger] outputs[j]).udev,
    ensures
        ({
            let kept = outputs.filter(p);
            forall|i: int, j: int|
                0 <= i < j < kept.len() ==> (#[trigger] kept[i]).udev != (#[trigger] kept[j]).udev
        }),
    decreases outputs.len(),
{
    reveal(Seq::filter);
    if outputs.len() > 0 {
        let rest = outputs.drop_last();
        lemma_filter_keeps_apart(rest, p);
        let before = rest.filter(p);
        assert forall|i: int| 0 <= i < before.len() implies (#[trigger] before[i]).udev
            != outputs.last().udev by {
            lemma_filter_members(rest, p, before[i]);
            assert(before.contains(before[i]));
            let j = choose|j: int| 0 <= j < rest.len() && rest[j] == before[i];
            assert(outputs[j].udev != outputs[outputs.len() - 1].udev);
        }
    }
}

proof fn lemma_scan_keeps_the_rest(w: World, node: u64, events: Seq<ScanEventView>)
    ensures
        ({
            let v = w.after_events(node, events);
            &&& v.outputs.filter(not_of_device(node)) == w.outputs.filter(not_of_device(node))
            &&& v.devices.remove(node) == w.devices.remove(node)
            &&& v.devices.contains_key(node) == w.devices.contains_key(node)
            &&& v.primary_gpu == w.primary_gpu
        }),
    decreases events.len(),
{
    if events.len() > 0 {
        let u = w.after_events(node, events.drop_last());
        lemma_scan_keeps_the_rest(w, node, events.drop_last());
        let v = u.after_event(node, events.last());
        assert(v.devices.remove(node) =~= u.devices.remove(node));
        match events.last() {
            ScanEventView::Connected { connector, crtc: Some(crtc) } => {
                if u.devices.contains_key(node) && !is_non_desktop(connector.properties) {
                    lemma_filter_push(
                        u.outputs,
                        u.new_output(node, connector, crtc),
                        not_of_device(node),
                    );
                }
            },
            ScanEventView::Disconnected { handle, crtc: Some(crtc) } => {
                if u.devices.contains_key(node) {
                    lemma_first_where(u.outputs, stands_for(node, crtc));
                    if let Some(k) = first_where(u.outputs, stands_for(node, crtc)) {
                        lemma_filter_remove(u.outputs, k, not_of_device(node));
                    }
                }
            },
            _ => {},
        }
    }
}

/// A device that had no outputs, is added and goes away again, with every display controller
/// that it shows something on by then, leaves everything as it was, but for the names that
/// its outputs had. Where every output stood for some connector, it can go away.
pub proof fn law_remove_undoes_add(
    w: World,
    node: u64,
    probe: GpuProbe,
    lease_global: bool,
    scan: Option<Seq<ScanEventView>>,
    crtcs: Seq<CrtcMapping>,
)
    requires
        forall|i: int| 0 <= i < w.outputs.len() ==> !of_device(node)(#[trigger] w.outputs[i]),
        !w.devices.contains_key(node),
        w.allocator_for(render_node_of(probe, node)) is Some,
        w.opened(node, probe, lease_global).orderly(node, w.first_events(node, probe, scan)),
        forall|crtc: u32| #[trigger]
            w.added(node, probe, lease_global, scan).lit(UdevOutputState { node, crtc })
                ==> exists|n: int| 0 <= n < crtcs.len() && (#[trigger] crtcs[n]).crtc == crtc,
    ensures
        w.added(node, probe, lease_global, scan).removed(node, crtcs) == (World {
            next_output: w.added(node, probe, lease_global, scan).next_output,
            ..w
        }),
        all_stand(w.outputs) ==> w.added(node, probe, lease_global, scan).can_remove(node, crtcs),
{
    let opened = w.opened(node, probe, lease_global);
    let events = w.first_events(node, probe, scan);
    let v = w.added(node, probe, lease_global, scan);
    assert forall|at: UdevOutputState| at.node == node implies !#[trigger] opened.lit(at) by {}
    assert forall|i: int| 0 <= i < opened.outputs.len() implies !of_device(node)(
        #[trigger] opened.outputs[i],
    ) by {
        assert(!of_device(node)(w.outputs[i]));
    }
    assert(opened.matched_on(node));
    law_scan_keeps_match_on(opened, node, events);
    lemma_scan_keeps_the_rest(opened, node, events);
    law_removed_device_leaves_nothing(v, node, crtcs);
    assert(opened.devices.remove(node) =~= w.devices);
    lemma_filter_all(w.outputs, not_of_device(node));
    if all_stand(w.outputs) {
        lemma_scan_keeps_standing(opened, node, events);
        law_can_remove(v, node, crtcs);
    }
}

proof fn lemma_scan_keeps_standing(w: World, node: u64, events: Seq<ScanEventView>)
    requires
        all_stand(w.outputs),
    ensures
        all_stand(w.after_events(node, events).outputs),
    decreases events.len(),
{
    if events.len() > 0 {
        lemma_scan_keeps_standing(w, node, events.drop_last());
        let u = w.after_events(node, events.drop_last());
        if let ScanEventView::Disconnected { handle, crtc: Some(crtc) } = events.last() {
            lemma_disconnect_keeps_standing(u, node, crtc);
        }
    }
}

// ---------------------------------------------------------------------------
// The row of outputs
// ---------------------------------------------------------------------------

/// The output begins where the outputs before it end.
pub open spec fn follows(outputs: Seq<Output>, k: int) -> bool {
    outputs[k].geometry matches Some(g) && g.x == row_width(outputs.take(k)) && g.y == 0 && g.w >= 0
}

/// The outputs stand in a row from the left, each beginning where the one before ends.
pub open spec fn in_a_row(outputs: Seq<Output>) -> bool {
    forall|k: int| 0 <= k < outputs.len() ==> #[trigger] follows(outputs, k)
}

proof fn lemma_row_width_next(outputs: Seq<Output>, k: int)
    requires
        0 <= k < outputs.len(),
        outputs[k].geometry is Some,
    ensures
        row_width(outputs.take(k + 1)) == row_width(outputs.take(k)) + outputs[k].geometry->Some_0.w,
{
    assert(outputs.take(k + 1).drop_last() =~= outputs.take(k));
    assert(outputs.take(k + 1).last() == outputs[k]);
}

proof fn lemma_row_width_grows(outputs: Seq<Output>, i: int, j: int)
    requires
        in_a_row(outputs),
        0 <= i <= j <= outputs.len(),
    ensures
        row_width(outputs.take(i)) <= row_width(outputs.take(j)),
    decreases j - i,
{
    if i < j {
        lemma_row_width_grows(outputs, i, j - 1);
        assert(follows(outputs, j - 1));
        lemma_row_width_next(outputs, j - 1);
    }
}

/// A connector that appears extends the row of outputs.
pub proof fn law_connect_extends_the_row(w: World, node: u64, c: ConnectorView, crtc: u32)
    requires
        in_a_row(w.outputs),
        w.can_connect(node, c),
    ensures
        in_a_row(w.connected(node, c, crtc).outputs),
{
    let v = w.connected(node, c, crtc);
    let n = w.outputs.len() as int;
    if w.devices.contains_key(node) && !is_non_desktop(c.properties) {
        assert(w.outputs.take(n) =~= w.outputs);
        assert(measurable(w.outputs));
        assert forall|k: int| 0 <= k < v.outputs.len() implies #[trigger] follows(v.outputs, k) by {
            assert(v.outputs.take(k) =~= w.outputs.take(k));
            if k < n {
                assert(follows(w.outputs, k));
            }
        }
    }
}

/// Outputs in a row have room beside each other as soon as the whole row has room.
pub proof fn law_row_is_measurable(outputs: Seq<Output>)
    requires
        in_a_row(outputs),
        row_width(outputs) <= i32::MAX,
    ensures
        measurable(outputs),
{
    let n = outputs.len() as int;
    assert(outputs.take(n) =~= outputs);
    assert(outputs.take(0) =~= Seq::<Output>::empty());
    assert forall|i: int| 0 <= i < n implies (#[trigger] outputs[i]).geometry is Some by {
        assert(follows(outputs, i));
    }
    assert forall|k: int| 0 <= k <= n implies i32::MIN <= row_width(#[trigger] outputs.take(k))
        <= i32::MAX by {
        lemma_row_width_grows(outputs, 0, k);
        lemma_row_width_grows(outputs, k, n);
    }
}

/// Outputs in a row do not overlap: each ends before the next begins.
pub proof fn law_row_does_not_overlap(outputs: Seq<Output>, i: int, j: int)
    requires
        in_a_row(outputs),
        0 <= i < j < outputs.len(),
    ensures
        outputs[i].geometry matches Some(a) && outputs[j].geometry matches Some(b) && a.x + a.w
            <= b.x,
{
    assert(follows(outputs, i));
    assert(follows(outputs, j));
    lemma_row_width_next(outputs, i);
    lemma_row_width_grows(outputs, i + 1, j);
}

} // verus!
