//! Tests of what [`Udev`] asks of its callers, for callers that cannot prove it.
use crate::backend::connector::has_frames;
use crate::backend::connector::initial_mode;
use crate::backend::connector::mode_from;
use crate::backend::connector::non_desktop;
use crate::backend::model::event_views;
use crate::backend::model::found_view;
use crate::backend::model::lemma_after_next_event;
use crate::backend::model::losses;
use crate::backend::model::measurable;
use crate::backend::model::row_width;
use crate::backend::model::scan_views;
use crate::backend::model::searchable;
use crate::backend::model::stands_for;
use crate::backend::model::world;
use crate::backend::model::ScanEventView;
use crate::backend::model::World;
use crate::backend::udev::position_of_output;
use crate::backend::udev::total_width;
use crate::backend::udev::AllocatorSource;
use crate::backend::udev::CrtcMapping;
use crate::backend::udev::FoundDevice;
use crate::backend::udev::ScanEvent;
use crate::backend::udev::Udev;
use crate::backend::udev::UdevOutputState;
use crate::space::Output;
use crate::space::Rectangle;
use crate::state::ProjectWC;
use vstd::prelude::*;

verus! {

broadcast use vstd::std_specs::hash::group_hash_axioms;

/// Tests whether the widths of the outputs can be added up.
pub fn is_measurable(outputs: &Vec<Output>) -> (r: bool)
    ensures
        r == measurable(outputs@),
{
    let mut width: i64 = 0;
    let mut i: usize = 0;
    proof {
        assert(outputs@.take(0) =~= Seq::<Output>::empty());
    }
    while i < outputs.len()
        invariant
            i <= outputs.len(),
            width == row_width(outputs@.take(i as int)),
            i32::MIN <= width <= i32::MAX,
            forall|k: int| 0 <= k < i ==> (#[trigger] outputs@[k]).geometry is Some,
            forall|k: int|
                0 <= k <= i ==> i32::MIN <= row_width(#[trigger] outputs@.take(k)) <= i32::MAX,
        decreases outputs.len() - i,
    {
        proof {
            let next = outputs@.take(i + 1);
            assert(next.drop_last() =~= outputs@.take(i as int));
            assert(next.last() == outputs@[i as int]);
        }
        match outputs[i].geometry {
            Some(g) => {
                width = width + g.w as i64;
                if width < i32::MIN as i64 || width > i32::MAX as i64 {
                    assert(row_width(outputs@.take(i + 1)) == width);
                    return false;
                }
            },
            None => {
                assert(outputs@[i as int].geometry is None);
                return false;
            },
        }
        i += 1;
    }
    true
}

/// Tests whether the output of a display controller can be looked for.
pub fn is_searchable(outputs: &Vec<Output>, node: u64, crtc: u32) -> (r: bool)
    ensures
        r == searchable(outputs@, node, crtc),
{
    let mut i: usize = 0;
    while i < outputs.len()
        invariant
            i <= outputs.len(),
            forall|j: int| 0 <= j < i ==> (#[trigger] outputs@[j]).udev is Some,
            forall|j: int| 0 <= j < i ==> !stands_for(node, crtc)(#[trigger] outputs@[j]),
        decreases outputs.len() - i,
    {
        match outputs[i].udev {
            Some(at) => {
                if at.node == node && at.crtc == crtc {
                    assert(stands_for(node, crtc)(outputs@[i as int]));
                    return true;
                }
            },
            None => {
                assert(outputs@[i as int].udev is None);
                return false;
            },
        }
        i += 1;
    }
    true
}

fn copy_outputs(outputs: &Vec<Output>) -> (r: Vec<Output>)
    ensures
        r@ == outputs@,
{
    let mut r: Vec<Output> = Vec::new();
    let mut i: usize = 0;
    while i < outputs.len()
        invariant
            i <= outputs.len(),
            r@ == outputs@.take(i as int),
        decreases outputs.len() - i,
    {
        r.push(outputs[i]);
        i += 1;
        proof {
            assert(r@ =~= outputs@.take(i as int));
        }
    }
    proof {
        assert(outputs@.take(outputs@.len() as int) =~= outputs@);
    }
    r
}

/// As far as the events of one device go, the two worlds look the same.
spec fn alike(a: World, b: World, node: u64) -> bool {
    &&& a.devices.contains_key(node)
    &&& b.devices.contains_key(node)
    &&& a.outputs == b.outputs
    &&& a.next_output == b.next_output
}

proof fn lemma_alike(a: World, b: World, node: u64, events: Seq<ScanEventView>)
    requires
        alike(a, b, node),
    ensures
        alike(a.after_events(node, events), b.after_events(node, events), node),
        a.can_handle_all(node, events) == b.can_handle_all(node, events),
    decreases events.len(),
{
    if events.len() > 0 {
        lemma_alike(a, b, node, events.drop_last());
    }
    assert forall|k: int| 0 <= k < events.len() implies a.after_events(
        node,
        #[trigger] events.take(k),
    ).can_handle(node, events[k]) == b.after_events(node, events.take(k)).can_handle(
        node,
        events[k],
    ) by {
        lemma_alike(a, b, node, events.take(k));
    }
    if a.can_handle_all(node, events) {
        assert forall|k: int| 0 <= k < events.len() implies b.after_events(
            node,
            #[trigger] events.take(k),
        ).can_handle(node, events[k]) by {
            assert(a.after_events(node, events.take(k)).can_handle(node, events[k]));
        }
    }
    if b.can_handle_all(node, events) {
        assert forall|k: int| 0 <= k < events.len() implies a.after_events(
            node,
            #[trigger] events.take(k),
        ).can_handle(node, events[k]) by {
            assert(b.after_events(node, events.take(k)).can_handle(node, events[k]));
        }
    }
}

/// A world in which the device is in use.
spec fn some_world(outputs: Seq<Output>, next_output: u64, node: u64) -> World {
    World { primary_gpu: 0, devices: Map::empty(), outputs, next_output }.with_device(
        node,
        None,
        AllocatorSource::Own,
        false,
    )
}

/// Goes through the events of a scan of a device that is in use, and tests whether each can
/// be handled when its turn comes.
fn can_handle_events(
    node: u64,
    events: &Vec<ScanEvent>,
    outputs: &Vec<Output>,
    next_output: u64,
) -> (r: bool)
    ensures
        r == some_world(outputs@, next_output, node).can_handle_all(node, event_views(events@)),
{
    let ghost start = some_world(outputs@, next_output, node);
    let ghost views = event_views(events@);
    let mut mapped = copy_outputs(outputs);
    let mut next: u64 = next_output;
    let mut i: usize = 0;
    proof {
        assert(views.take(0) =~= Seq::<ScanEventView>::empty());
    }
    while i < events.len()
        invariant
            i <= events.len(),
            views == event_views(events@),
            start == some_world(outputs@, next_output, node),
            start.after_events(node, views.take(i as int)).devices.contains_key(node),
            start.after_events(node, views.take(i as int)).outputs == mapped@,
            start.after_events(node, views.take(i as int)).next_output == next,
            forall|k: int|
                0 <= k < i ==> start.after_events(node, #[trigger] views.take(k)).can_handle(
                    node,
                    views[k],
                ),
        decreases events.len() - i,
    {
        let ghost now = start.after_events(node, views.take(i as int));
        proof {
            assert(views[i as int] == events@[i as int]@);
            lemma_after_next_event(start, node, views, i as int);
        }
        match &events[i] {
            ScanEvent::Connected { connector, crtc: Some(crtc) } => {
                if !non_desktop(connector) {
                    if connector.modes.len() == 0 {
                        assert(!now.can_handle(node, views[i as int]));
                        return false;
                    }
                    let timings = connector.modes[initial_mode(&connector.modes)].timings;
                    if timings.htotal == 0 || timings.vtotal == 0 {
                        assert(!has_frames(timings));
                        assert(!now.can_handle(node, views[i as int]));
                        return false;
                    }
                    if next == u64::MAX || !is_measurable(&mapped) {
                        assert(!now.can_handle(node, views[i as int]));
                        return false;
                    }
                    let mode = mode_from(timings);
                    let x = total_width(&mapped);
                    mapped.push(
                        Output {
                            id: next,
                            mode: Some(mode),
                            geometry: Some(Rectangle { x, y: 0, w: mode.width, h: mode.height }),
                            udev: Some(UdevOutputState { node, crtc: *crtc }),
                        },
                    );
                    next = next + 1;
                }
            },
            ScanEvent::Disconnected { handle: _, crtc: Some(crtc) } => {
                if !is_searchable(&mapped, node, *crtc) {
                    assert(!now.can_handle(node, views[i as int]));
                    return false;
                }
                if let Some(k) = position_of_output(&mapped, node, *crtc) {
                    mapped.remove(k);
                }
            },
            _ => {},
        }
        assert(now.can_handle(node, views[i as int]));
        i += 1;
    }
    true
}

impl Udev {
    /// Tests whether [`Udev::device_changed`] can handle a scan.
    pub fn can_handle_scan(
        &self,
        node: u64,
        scan: &Option<Vec<ScanEvent>>,
        projectwc: &ProjectWC,
    ) -> (r: bool)
        ensures
            r == world(*self, *projectwc).can_handle_all(
                node,
                world(*self, *projectwc).effective_events(node, scan_views(*scan)),
            ),
    {
        if self.devices.contains_key(&node) {
            if let Some(events) = scan {
                let ghost w = world(*self, *projectwc);
                proof {
                    lemma_alike(
                        some_world(w.outputs, w.next_output, node),
                        w,
                        node,
                        event_views(events@),
                    );
                }
                return can_handle_events(
                    node,
                    events,
                    &projectwc.space.outputs,
                    projectwc.next_output,
                );
            }
        }
        true
    }

    /// Tests whether [`Udev::device_added`] or [`Udev::start_device`] can bring up what the
    /// first scan of a device found.
    pub fn can_add(&self, found: &Option<FoundDevice>, projectwc: &ProjectWC) -> (r: bool)
        ensures
            r == world(*self, *projectwc).can_add(found_view(*found)),
    {
        let device = match found {
            Some(device) => device,
            None => return true,
        };
        if self.plan_device(device.node, device.probe).is_err() {
            return true;
        }
        match &device.scan {
            Some(events) => {
                let ghost w = world(*self, *projectwc);
                proof {
                    lemma_alike(
                        some_world(w.outputs, w.next_output, device.node),
                        w.opened(device.node, device.probe, device.lease_global),
                        device.node,
                        event_views(events@),
                    );
                }
                can_handle_events(
                    device.node,
                    events,
                    &projectwc.space.outputs,
                    projectwc.next_output,
                )
            },
            None => true,
        }
    }

    /// Tests whether [`Udev::device_removed`] can take down the connectors of a device.
    pub fn can_remove(&self, node: u64, crtcs: &Vec<CrtcMapping>, projectwc: &ProjectWC) -> (r: bool)
        ensures
            r == world(*self, *projectwc).can_remove(node, crtcs@),
    {
        if !self.devices.contains_key(&node) {
            return true;
        }
        let mut events: Vec<ScanEvent> = Vec::new();
        let mut i: usize = 0;
        while i < crtcs.len()
            invariant
                i <= crtcs.len(),
                event_views(events@) == losses(crtcs@.take(i as int)),
            decreases crtcs.len() - i,
        {
            let ghost before = event_views(events@);
            events.push(
                ScanEvent::Disconnected { handle: crtcs[i].connector, crtc: Some(crtcs[i].crtc) },
            );
            i += 1;
            proof {
                assert(event_views(events@) =~= before.push(events@.last()@));
                assert(event_views(events@) =~= losses(crtcs@.take(i as int)));
            }
        }
        let ghost w = world(*self, *projectwc);
        proof {
            assert(crtcs@.take(crtcs@.len() as int) =~= crtcs@);
            lemma_alike(some_world(w.outputs, w.next_output, node), w, node, losses(crtcs@));
        }
        can_handle_events(node, &events, &projectwc.space.outputs, projectwc.next_output)
    }
}

} // verus!
