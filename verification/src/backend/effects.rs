//! What the events of devices come to, read off the devices and the space before and after.
use crate::backend::connector::connector_name_of;
use crate::backend::connector::initial_mode_of;
use crate::backend::connector::is_non_desktop;
use crate::backend::connector::law_initial_mode_is_preferred;
use crate::backend::connector::mode_of;
use crate::backend::connector::ConnectorView;
use crate::backend::model::bare_world;
use crate::backend::model::drawn_after;
use crate::backend::model::losses;
use crate::backend::model::make_of;
use crate::backend::model::measurable;
use crate::backend::model::model_of;
use crate::backend::model::on_crtc;
use crate::backend::model::render_node_of;
use crate::backend::model::row_width;
use crate::backend::model::serial_of;
use crate::backend::model::stands_for;
use crate::backend::model::ConnectedView;
use crate::backend::model::FoundView;
use crate::backend::model::ScanEventView;
use crate::backend::model::ScanOutcomeView;
use crate::backend::model::World;
use crate::backend::scanout::CompositorStep;
use crate::backend::udev::AllocatorSource;
use crate::backend::udev::CrtcMapping;
use crate::backend::udev::Disconnected;
use crate::backend::udev::GpuProbe;
use crate::backend::udev::UdevOutputState;
use crate::search::first_where;
use crate::search::lemma_first_where;
use crate::space::Output;
use crate::state::ProjectWC;
use vstd::prelude::*;

verus! {

// ---------------------------------------------------------------------------
// Widths
// ---------------------------------------------------------------------------

/// Outputs side by side are as wide as the two parts of the row together; one output is as
/// wide as what it shows, and nothing has no width.
pub proof fn law_widths_add_up(a: Seq<Output>, b: Seq<Output>, o: Output)
    ensures
        row_width(a + b) == row_width(a) + row_width(b),
        row_width(Seq::<Output>::empty()) == 0,
        row_width(seq![o]) == (match o.geometry {
            Some(g) => g.w as int,
            None => 0int,
        }),
    decreases b.len(),
{
    reveal_with_fuel(row_width, 2);
    assert(seq![o].drop_last() =~= Seq::<Output>::empty());
    if b.len() == 0 {
        assert(a + b =~= a);
    } else {
        law_widths_add_up(a, b.drop_last(), o);
        assert((a + b).drop_last() =~= a + b.drop_last());
        assert((a + b).last() == b.last());
    }
}

proof fn lemma_width_of_more(outputs: Seq<Output>, o: Output)
    ensures
        row_width(outputs.push(o)) == row_width(outputs) + match o.geometry {
            Some(g) => g.w as int,
            None => 0int,
        },
{
    law_widths_add_up(outputs, seq![o], o);
    assert(outputs.push(o) =~= outputs + seq![o]);
}

// ---------------------------------------------------------------------------
// A connector that appears
// ---------------------------------------------------------------------------

/// The output that a desktop gets is the one that its plan names: it comes last on the space,
/// behind the outputs that were there, in the planned mode, with its corner in the planned
/// place, which is at the top, as large as the mode says, and it stands for the connector.
/// That is the output to draw on.
pub proof fn law_new_output_is_as_planned(w: World, node: u64, c: ConnectorView, crtc: u32)
    requires
        w.can_connect(node, c),
        w.devices.contains_key(node),
        !is_non_desktop(c.properties),
    ensures
        ({
            let v = w.connected(node, c, crtc);
            let n = w.outputs.len() as int;
            &&& w.connect_outcome(node, c, crtc) matches ConnectedView::Desktop(plan)
            &&& v.outputs.len() == n + 1
            &&& forall|i: int| 0 <= i < n ==> #[trigger] v.outputs[i] == w.outputs[i]
            &&& v.outputs[n].id == plan.output
            &&& v.outputs[n].mode == Some(plan.mode)
            &&& v.outputs[n].udev matches Some(at) && at.node == node && at.crtc == crtc
            &&& v.outputs[n].geometry matches Some(g) && {
                &&& g.x == plan.x
                &&& g.y == plan.y
                &&& g.w == plan.mode.width
                &&& g.h == plan.mode.height
            }
            &&& plan.y == 0
            &&& drawn_after(w.connect_outcome(node, c, crtc)) == Some(plan.output)
        }),
{
    assert(w.outputs.take(w.outputs.len() as int) =~= w.outputs);
}

/// The first output is at the left end of the space, and of two that come up in a row the
/// second begins where the first ends.
pub proof fn law_outputs_come_up_side_by_side(
    w: World,
    node: u64,
    c: ConnectorView,
    crtc: u32,
    next_node: u64,
    next: ConnectorView,
    next_crtc: u32,
)
    requires
        w.connect_outcome(node, c, crtc) is Desktop,
        w.connected(node, c, crtc).connect_outcome(next_node, next, next_crtc) is Desktop,
    ensures
        ({
            let v = w.connected(node, c, crtc);
            let first = w.connect_outcome(node, c, crtc)->Desktop_0;
            let second = v.connect_outcome(next_node, next, next_crtc)->Desktop_0;
            &&& w.outputs.len() == 0 ==> first.x == 0
            &&& second.x == first.x + first.mode.width
            &&& second.y == first.y
            &&& w.next_output < u64::MAX ==> second.output == first.output + 1
        }),
{
    lemma_width_of_more(w.outputs, w.new_output(node, c, crtc));
}

/// A new output begins as far to the right as the outputs that are there are wide.
pub proof fn law_new_output_begins_behind_the_row(w: World, node: u64, c: ConnectorView, crtc: u32)
    requires
        w.connect_outcome(node, c, crtc) is Desktop,
        w.outputs.len() > 0,
    ensures
        ({
            let last = w.outputs.last();
            let before = World { outputs: w.outputs.drop_last(), ..w };
            let plan = w.connect_outcome(node, c, crtc)->Desktop_0;
            let plan_before = before.connect_outcome(node, c, crtc)->Desktop_0;
            plan.x - plan_before.x == match last.geometry {
                Some(g) => g.w as int,
                None => 0int,
            }
        }),
{
    lemma_width_of_more(w.outputs.drop_last(), w.outputs.last());
    assert(w.outputs.drop_last().push(w.outputs.last()) =~= w.outputs);
}

/// The mode of a plan is the one that it names among the connector's modes: one that is
/// preferred where there is any, and the first of those, else the first of all. The width
/// and the height are those that the kernel gives.
pub proof fn law_plan_picks_a_listed_mode(w: World, node: u64, c: ConnectorView, crtc: u32)
    requires
        w.can_connect(node, c),
        w.connect_outcome(node, c, crtc) is Desktop,
    ensures
        ({
            let plan = w.connect_outcome(node, c, crtc)->Desktop_0;
            let k = plan.mode_index;
            &&& 0 <= k < c.modes.len()
            &&& plan.mode.width == c.modes[k].timings.width
            &&& plan.mode.height == c.modes[k].timings.height
            &&& plan.mode == mode_of(c.modes[k].timings)
            &&& forall|j: int| 0 <= j < k ==> (#[trigger] c.modes[j]).mode_type & 8 != 8
            &&& c.modes[k].mode_type & 8 == 8 || k == 0 && forall|j: int|
                0 <= j < c.modes.len() ==> (#[trigger] c.modes[j]).mode_type & 8 != 8
        }),
{
    law_initial_mode_is_preferred(c.modes);
}

/// What a plan says of the display is what is remembered of it under the display controller,
/// and is what the display says of itself, as far as it does. The compositor of the output
/// is tried with the preferred formats first.
pub proof fn law_plan_describes_the_display(w: World, node: u64, c: ConnectorView, crtc: u32)
    requires
        w.connect_outcome(node, c, crtc) is Desktop,
    ensures
        ({
            let v = w.connected(node, c, crtc);
            let plan = w.connect_outcome(node, c, crtc)->Desktop_0;
            &&& v.devices[node].surfaces.contains_key(crtc)
            &&& v.devices[node].surfaces[crtc] == plan.info
            &&& plan.info.connector == connector_name_of(c.interface, c.interface_id)
            &&& c.display matches Some(d) ==> {
                &&& plan.info.make == (match d.make {
                    Some(t) => t,
                    None => "Unknown"@,
                })
                &&& plan.info.model == (match d.model {
                    Some(t) => t,
                    None => "Unkown"@,
                })
                &&& plan.info.serial == Some(
                    match d.serial {
                        Some(t) => t,
                        None => "Unkown"@,
                    },
                )
            }
            &&& c.display is None ==> {
                &&& plan.info.make == "Unknown"@
                &&& plan.info.model == "Unkown"@
                &&& plan.info.serial == Some("Unkown"@)
            }
            &&& c.size matches Some(size) ==> {
                &&& plan.physical_size.w as u32 == size.0
                &&& plan.physical_size.h as u32 == size.1
            }
            &&& c.size is None ==> plan.physical_size.w == 0 && plan.physical_size.h == 0
            &&& plan.compositor == (CompositorStep::MakeSurface { fallback: false })
        }),
{
    if let Some((a, b)) = c.size {
        assert((a as i32) as u32 == a) by (bit_vector);
        assert((b as i32) as u32 == b) by (bit_vector);
    }
}

/// A display gives the words that it has for its maker, its model and its serial number.
pub proof fn law_display_has_its_own_words(c: ConnectorView)
    requires
        c.display is Some,
    ensures
        ({
            let d = c.display->Some_0;
            &&& d.make is Some ==> make_of(c.display) == d.make->Some_0
            &&& d.model is Some ==> model_of(c.display) == d.model->Some_0
            &&& d.serial is Some ==> serial_of(c.display) == d.serial->Some_0
        }),
{
}

/// A desktop that comes up changes what one display controller shows, and nothing else of
/// its device or of the others; the name of its output is used up.
pub proof fn law_connect_changes_one_surface(
    w: World,
    node: u64,
    c: ConnectorView,
    crtc: u32,
    other: u64,
    other_crtc: u32,
)
    requires
        w.can_connect(node, c),
        w.connect_outcome(node, c, crtc) is Desktop,
    ensures
        ({
            let v = w.connected(node, c, crtc);
            let before = w.devices[node];
            let after = v.devices[node];
            &&& v.primary_gpu == w.primary_gpu
            &&& v.next_output == w.next_output + 1
            &&& v.devices.contains_key(other) <==> w.devices.contains_key(other)
            &&& other != node ==> v.devices[other] == w.devices[other]
            &&& after.render_node == before.render_node
            &&& after.allocator == before.allocator
            &&& after.lease_global == before.lease_global
            &&& after.non_desktop_connectors == before.non_desktop_connectors
            &&& after.active_leases == before.active_leases
            &&& other_crtc != crtc ==> {
                &&& after.surfaces.contains_key(other_crtc) <==> before.surfaces.contains_key(
                    other_crtc,
                )
                &&& after.surfaces[other_crtc] == before.surfaces[other_crtc]
            }
        }),
{
}

/// A connector that drives something else than a desktop is remembered last among those of
/// its kind, with its display controller, and nothing else changes. It is offered where, and
/// only where, clients can lease from the device: under its own handle and name, and
/// described by its maker and its model.
pub proof fn law_headset_is_offered(
    w: World,
    node: u64,
    c: ConnectorView,
    crtc: u32,
    other: u64,
)
    requires
        w.devices.contains_key(node),
        is_non_desktop(c.properties),
    ensures
        ({
            let v = w.connected(node, c, crtc);
            let before = w.devices[node];
            let after = v.devices[node];
            let n = before.non_desktop_connectors.len() as int;
            &&& v.outputs == w.outputs
            &&& v.next_output == w.next_output
            &&& v.primary_gpu == w.primary_gpu
            &&& v.devices.contains_key(other) <==> w.devices.contains_key(other)
            &&& other != node ==> v.devices[other] == w.devices[other]
            &&& after.surfaces == before.surfaces
            &&& after.render_node == before.render_node
            &&& after.allocator == before.allocator
            &&& after.lease_global == before.lease_global
            &&& after.active_leases == before.active_leases
            &&& after.non_desktop_connectors.len() == n + 1
            &&& after.non_desktop_connectors.take(n) == before.non_desktop_connectors
            &&& after.non_desktop_connectors[n].connector == c.handle
            &&& after.non_desktop_connectors[n].crtc == crtc
            &&& w.connect_outcome(node, c, crtc) matches ConnectedView::NonDesktop(offer)
            &&& offer is Some <==> before.lease_global
            &&& offer matches Some(told) ==> {
                &&& told.0 == c.handle
                &&& told.1 == connector_name_of(c.interface, c.interface_id)
                &&& told.2 == (match c.display {
                    Some(d) => (match d.make {
                        Some(t) => t,
                        None => "Unknown"@,
                    }) + " "@ + (match d.model {
                        Some(t) => t,
                        None => "Unkown"@,
                    }),
                    None => "Unknown"@ + " "@ + "Unkown"@,
                })
            }
            &&& drawn_after(w.connect_outcome(node, c, crtc)) is None
        }),
{
    let n = w.devices[node].non_desktop_connectors.len() as int;
    let after = w.connected(node, c, crtc).devices[node].non_desktop_connectors;
    assert(after.take(n) =~= w.devices[node].non_desktop_connectors);
}

/// What becomes of a connector depends on two things: whether its device is in use, and
/// whether it is marked as driving something else than a desktop. Without the device nothing
/// happens.
pub proof fn law_connectors_of_unused_devices_are_left_alone(
    w: World,
    node: u64,
    c: ConnectorView,
    crtc: u32,
    connector: u32,
)
    ensures
        w.connect_outcome(node, c, crtc) is NoDevice <==> !w.devices.contains_key(node),
        w.connect_outcome(node, c, crtc) is Desktop <==> w.devices.contains_key(node)
            && !is_non_desktop(c.properties),
        w.disconnect_outcome(node, connector, crtc) is NoDevice <==> !w.devices.contains_key(node),
        !w.devices.contains_key(node) ==> w.connected(node, c, crtc) == w && w.disconnected(
            node,
            crtc,
        ) == w,
{
}

// ---------------------------------------------------------------------------
// A connector that disappears
// ---------------------------------------------------------------------------

/// The output that a lost connector unmaps is the one that is missing on the space
/// afterwards: it stood for the connector, and was the first that did. Where none did,
/// nothing is unmapped and the outputs stay as they are. Where the outputs have different
/// names, none of those that are left has the name that was unmapped.
pub proof fn law_unmapped_output_is_the_one_missing(
    w: World,
    node: u64,
    connector: u32,
    crtc: u32,
)
    requires
        w.devices.contains_key(node),
    ensures
        ({
            let v = w.disconnected(node, crtc);
            let at = UdevOutputState { node, crtc };
            &&& w.disconnect_outcome(node, connector, crtc) matches Disconnected::Done {
                withdraw,
                unmap,
            }
            &&& match unmap {
                Some(id) => {
                    &&& exists|i: int|
                        {
                            &&& 0 <= i < w.outputs.len()
                            &&& (#[trigger] w.outputs[i]).id == id
                            &&& w.outputs[i].udev == Some(at)
                            &&& v.outputs == w.outputs.remove(i)
                            &&& forall|j: int| 0 <= j < i ==> (#[trigger] w.outputs[j]).udev != Some(at)
                        }
                    &&& w.named() ==> forall|i: int|
                        0 <= i < v.outputs.len() ==> (#[trigger] v.outputs[i]).id != id
                },
                None => {
                    &&& v.outputs == w.outputs
                    &&& forall|i: int|
                        0 <= i < w.outputs.len() ==> (#[trigger] w.outputs[i]).udev != Some(at)
                },
            }
        }),
{
    let v = w.disconnected(node, crtc);
    let at = UdevOutputState { node, crtc };
    let wanted = stands_for(node, crtc);
    lemma_first_where(w.outputs, wanted);
    match first_where(w.outputs, wanted) {
        Some(k) => {
            assert(w.outputs[k].udev == Some(at));
            assert forall|j: int| 0 <= j < k implies (#[trigger] w.outputs[j]).udev != Some(at) by {
                assert(!wanted(w.outputs[j]));
            }
            if w.named() {
                assert forall|i: int| 0 <= i < v.outputs.len() implies (#[trigger] v.outputs[i]).id
                    != w.outputs[k].id by {
                    if i < k {
                        assert(v.outputs[i] == w.outputs[i]);
                    } else {
                        assert(v.outputs[i] == w.outputs[i + 1]);
                    }
                }
            }
        },
        None => {
            assert forall|i: int| 0 <= i < w.outputs.len() implies (#[trigger] w.outputs[i]).udev
                != Some(at) by {
                assert(!wanted(w.outputs[i]));
            }
        },
    }
}

/// A lost connector takes what its display controller showed with it. Where that showed
/// nothing, the first connector for lease on it is forgotten, and is withdrawn under the
/// handle that was lost where, and only where, clients can lease from the device. Nothing
/// else changes.
pub proof fn law_lost_connector_is_forgotten(
    w: World,
    node: u64,
    connector: u32,
    crtc: u32,
    other: u64,
    other_crtc: u32,
)
    requires
        w.devices.contains_key(node),
    ensures
        ({
            let v = w.disconnected(node, crtc);
            let before = w.devices[node];
            let after = v.devices[node];
            let entries = before.non_desktop_connectors;
            let shown = before.surfaces.contains_key(crtc);
            let leased = exists|i: int| 0 <= i < entries.len() && (#[trigger] entries[i]).crtc == crtc;
            &&& v.primary_gpu == w.primary_gpu
            &&& v.next_output == w.next_output
            &&& v.devices.contains_key(other) <==> w.devices.contains_key(other)
            &&& other != node ==> v.devices[other] == w.devices[other]
            &&& !after.surfaces.contains_key(crtc)
            &&& other_crtc != crtc ==> {
                &&& after.surfaces.contains_key(other_crtc) <==> before.surfaces.contains_key(
                    other_crtc,
                )
                &&& after.surfaces[other_crtc] == before.surfaces[other_crtc]
            }
            &&& after.render_node == before.render_node
            &&& after.allocator == before.allocator
            &&& after.lease_global == before.lease_global
            &&& after.active_leases == before.active_leases
            &&& shown || !leased ==> after.non_desktop_connectors == entries
            &&& !shown && leased ==> exists|i: int|
                {
                    &&& 0 <= i < entries.len()
                    &&& (#[trigger] entries[i]).crtc == crtc
                    &&& after.non_desktop_connectors == entries.remove(i)
                    &&& forall|j: int| 0 <= j < i ==> (#[trigger] entries[j]).crtc != crtc
                }
            &&& w.disconnect_outcome(node, connector, crtc) matches Disconnected::Done {
                withdraw,
                unmap,
            }
            &&& withdraw == (if !shown && leased && before.lease_global {
                Some(connector)
            } else {
                None
            })
        }),
{
    let entries = w.devices[node].non_desktop_connectors;
    lemma_first_where(entries, on_crtc(crtc));
    match first_where(entries, on_crtc(crtc)) {
        Some(i) => {
            assert(entries[i].crtc == crtc);
            assert forall|j: int| 0 <= j < i implies (#[trigger] entries[j]).crtc != crtc by {
                assert(!on_crtc(crtc)(entries[j]));
            }
        },
        None => {
            assert forall|i: int| 0 <= i < entries.len() implies (#[trigger] entries[i]).crtc
                != crtc by {
                assert(!on_crtc(crtc)(entries[i]));
            }
        },
    }
}

// ---------------------------------------------------------------------------
// Scans
// ---------------------------------------------------------------------------

/// A scan with one event comes to what the event comes to: a connector that appeared on a
/// display controller, or one that disappeared from it. Without a display controller nothing
/// happens.
pub proof fn law_scan_of_one_event(
    w: World,
    node: u64,
    c: ConnectorView,
    handle: u32,
    crtc: u32,
)
    ensures
        ({
            let up = seq![ScanEventView::Connected { connector: c, crtc: Some(crtc) }];
            let down = seq![ScanEventView::Disconnected { handle, crtc: Some(crtc) }];
            let up_nowhere = seq![ScanEventView::Connected { connector: c, crtc: None }];
            let down_nowhere = seq![ScanEventView::Disconnected { handle, crtc: None }];
            &&& w.after_events(node, up) == w.connected(node, c, crtc)
            &&& w.event_outcomes(node, up) == seq![
                ScanOutcomeView::Connected(w.connect_outcome(node, c, crtc)),
            ]
            &&& w.after_events(node, down) == w.disconnected(node, crtc)
            &&& w.event_outcomes(node, down) == seq![
                ScanOutcomeView::Disconnected(w.disconnect_outcome(node, handle, crtc)),
            ]
            &&& w.after_events(node, up_nowhere) == w
            &&& w.event_outcomes(node, up_nowhere) == seq![ScanOutcomeView::Ignored]
            &&& w.after_events(node, down_nowhere) == w
            &&& w.event_outcomes(node, down_nowhere) == seq![ScanOutcomeView::Ignored]
        }),
{
    let up = ScanEventView::Connected { connector: c, crtc: Some(crtc) };
    let down = ScanEventView::Disconnected { handle, crtc: Some(crtc) };
    let up_nowhere = ScanEventView::Connected { connector: c, crtc: None };
    let down_nowhere = ScanEventView::Disconnected { handle, crtc: None };
    lemma_one_event(w, node, up);
    lemma_one_event(w, node, down);
    lemma_one_event(w, node, up_nowhere);
    lemma_one_event(w, node, down_nowhere);
}

proof fn lemma_one_event(w: World, node: u64, event: ScanEventView)
    ensures
        w.after_events(node, seq![event]) == w.after_event(node, event),
        w.event_outcomes(node, seq![event]) == seq![w.event_outcome(node, event)],
{
    reveal_with_fuel(World::after_events, 2);
    let events = seq![event];
    assert(events.drop_last() =~= Seq::<ScanEventView>::empty());
    assert(events.take(0) =~= Seq::<ScanEventView>::empty());
    assert(w.event_outcomes(node, events) =~= seq![w.event_outcome(node, event)]);
}

/// A scan can be handled in two parts, the first before the second, and each event leads to
/// one outcome, in the order of the scan.
pub proof fn law_scan_in_two_parts(
    w: World,
    node: u64,
    first: Seq<ScanEventView>,
    second: Seq<ScanEventView>,
)
    ensures
        w.after_events(node, first + second) == w.after_events(node, first).after_events(
            node,
            second,
        ),
        w.event_outcomes(node, first + second) == w.event_outcomes(node, first) + w.after_events(
            node,
            first,
        ).event_outcomes(node, second),
        w.event_outcomes(node, first).len() == first.len(),
{
    let v = w.after_events(node, first);
    lemma_events_in_two_parts(w, node, first, second);
    let left = w.event_outcomes(node, first + second);
    let right = w.event_outcomes(node, first) + v.event_outcomes(node, second);
    assert forall|k: int| 0 <= k < left.len() implies left[k] == right[k] by {
        if k < first.len() {
            assert((first + second).take(k) =~= first.take(k));
        } else {
            let m = k - first.len();
            assert((first + second).take(k) =~= first + second.take(m));
            lemma_events_in_two_parts(w, node, first, second.take(m));
        }
    }
    assert(left =~= right);
}

proof fn lemma_events_in_two_parts(
    w: World,
    node: u64,
    first: Seq<ScanEventView>,
    second: Seq<ScanEventView>,
)
    ensures
        w.after_events(node, first + second) == w.after_events(node, first).after_events(
            node,
            second,
        ),
    decreases second.len(),
{
    if second.len() == 0 {
        assert(first + second =~= first);
    } else {
        lemma_events_in_two_parts(w, node, first, second.drop_last());
        assert((first + second).drop_last() =~= first + second.drop_last());
        assert((first + second).last() == second.last());
    }
}

/// A scan that failed hands nothing over, and neither does one of a device that is not in
/// use; any other hands over all that it found.
pub proof fn law_failed_scan_changes_nothing(
    w: World,
    node: u64,
    events: Seq<ScanEventView>,
)
    ensures
        w.effective_events(node, None).len() == 0,
        w.after_events(node, w.effective_events(node, None)) == w,
        w.devices.contains_key(node) ==> w.effective_events(node, Some(events)) == events,
        !w.devices.contains_key(node) ==> w.effective_events(node, Some(events)).len() == 0,
{
}

/// Whatever a scan finds, the device renders where it did, draws into the same memory, has
/// connectors to give away as before, and the leases on it stand.
pub proof fn law_scan_keeps_what_a_device_is(w: World, node: u64, events: Seq<ScanEventView>)
    ensures
        ({
            let before = w.devices[node];
            let after = w.after_events(node, events).devices[node];
            &&& after.render_node == before.render_node
            &&& after.allocator == before.allocator
            &&& after.lease_global == before.lease_global
            &&& after.active_leases == before.active_leases
        }),
    decreases events.len(),
{
    if events.len() > 0 {
        law_scan_keeps_what_a_device_is(w, node, events.drop_last());
    }
}

// ---------------------------------------------------------------------------
// Devices that come and go
// ---------------------------------------------------------------------------

/// A device renders somewhere unless it renders in software: on the render node that it
/// names, else on itself.
pub proof fn law_render_node_is_named_or_own(probe: GpuProbe, node: u64)
    ensures
        render_node_of(probe, node) is None <==> probe.software,
        !probe.software ==> (probe.render_node matches Some(named) ==> render_node_of(probe, node)
            == Some(named)),
        !probe.software && probe.render_node is None ==> render_node_of(probe, node) == Some(node),
{
}

/// A device that renders draws into memory of its own. One that does not needs the primary
/// device, and cannot be used without it.
pub proof fn law_device_needs_memory(w: World, d: FoundView)
    ensures
        ({
            let source = w.allocator_for(render_node_of(d.probe, d.node));
            &&& source == Some(AllocatorSource::Own) <==> !d.probe.software
            &&& source == Some(AllocatorSource::PrimaryGpu) <==> d.probe.software
                && w.devices.contains_key(w.primary_gpu)
            &&& source is None <==> d.probe.software && !w.devices.contains_key(w.primary_gpu)
            &&& w.takes(Some(d)) <==> !d.probe.software || w.devices.contains_key(w.primary_gpu)
            &&& !w.takes(None)
        }),
{
}

/// A device that is added is in use from then on, just as it was found: it shows nothing,
/// gives nothing away and nothing of it is leased until it is scanned. Nothing else changes.
/// A device that cannot be used changes nothing at all.
pub proof fn law_added_device_is_as_found(w: World, d: FoundView, other: u64)
    ensures
        ({
            let v = w.opened(d.node, d.probe, d.lease_global);
            let events = w.first_events(d.node, d.probe, d.scan);
            let device = v.devices[d.node];
            &&& w.after_device(Some(d)) == w.added(d.node, d.probe, d.lease_global, d.scan)
            &&& w.after_device(Some(d)) == v.after_events(d.node, events)
            &&& w.after_device(None) == w
            &&& v.outputs == w.outputs
            &&& v.next_output == w.next_output
            &&& v.primary_gpu == w.primary_gpu
            &&& other != d.node ==> (v.devices.contains_key(other) <==> w.devices.contains_key(
                other,
            ))
            &&& other != d.node ==> v.devices[other] == w.devices[other]
            &&& d.probe.software && !w.devices.contains_key(w.primary_gpu) ==> {
                &&& v == w
                &&& events.len() == 0
                &&& w.after_device(Some(d)) == w
            }
            &&& !d.probe.software || w.devices.contains_key(w.primary_gpu) ==> {
                &&& v.devices.contains_key(d.node)
                &&& forall|crtc: u32| !#[trigger] device.surfaces.contains_key(crtc)
                &&& device.non_desktop_connectors.len() == 0
                &&& device.active_leases.len() == 0
                &&& device.lease_global == d.lease_global
                &&& device.render_node is None <==> d.probe.software
                &&& !d.probe.software ==> device.render_node == Some(
                    match d.probe.render_node {
                        Some(named) => named,
                        None => d.node,
                    },
                )
                &&& device.allocator == (if d.probe.software {
                    AllocatorSource::PrimaryGpu
                } else {
                    AllocatorSource::Own
                })
                &&& match d.scan {
                    Some(found) => events == found,
                    None => events.len() == 0,
                }
            }
        }),
{
}

/// The devices that are there at start can be looked at in two parts, the first before the
/// second; without devices nothing happens, and one device is added.
pub proof fn law_start_in_two_parts(
    w: World,
    first: Seq<Option<FoundView>>,
    second: Seq<Option<FoundView>>,
    d: Option<FoundView>,
)
    ensures
        w.after_devices(first + second) == w.after_devices(first).after_devices(second),
        w.after_devices(Seq::empty()) == w,
        w.after_devices(seq![d]) == w.after_device(d),
    decreases second.len(),
{
    reveal_with_fuel(World::after_devices, 2);
    assert(seq![d].drop_last() =~= Seq::<Option<FoundView>>::empty());
    if second.len() == 0 {
        assert(first + second =~= first);
    } else {
        law_start_in_two_parts(w, first, second.drop_last(), d);
        assert((first + second).drop_last() =~= first + second.drop_last());
        assert((first + second).last() == second.last());
    }
}

/// A device that goes away loses its connectors one after the other, each from the display
/// controller that drove it, and is no longer in use.
pub proof fn law_removed_device_loses_its_connectors(
    w: World,
    node: u64,
    crtcs: Seq<CrtcMapping>,
    k: int,
)
    requires
        0 <= k < crtcs.len(),
    ensures
        losses(crtcs).len() == crtcs.len(),
        losses(crtcs)[k] == (ScanEventView::Disconnected {
            handle: crtcs[k].connector,
            crtc: Some(crtcs[k].crtc),
        }),
        !w.removed(node, crtcs).devices.contains_key(node),
        w.devices.contains_key(node) ==> w.removed(node, crtcs).outputs == w.after_events(
            node,
            losses(crtcs),
        ).outputs,
        !w.devices.contains_key(node) ==> w.removed(node, crtcs) == w,
{
}

/// The devices are all of use exactly when each is, when its turn comes; before the first
/// nothing is in use.
pub proof fn law_devices_are_taken_in_turn(
    w: World,
    found: Seq<Option<FoundView>>,
    n: int,
    gpu: u64,
    projectwc: ProjectWC,
)
    requires
        0 <= n < found.len(),
    ensures
        w.takes_first(found, 0),
        w.takes_first(found, n + 1) <==> w.takes_first(found, n) && w.after_devices(
            found.take(n),
        ).takes(found[n]),
        ({
            let bare = bare_world(gpu, projectwc);
            &&& bare.primary_gpu == gpu
            &&& forall|node: u64| !#[trigger] bare.devices.contains_key(node)
            &&& bare.outputs == projectwc.space.outputs@
            &&& bare.next_output == projectwc.next_output
        }),
{
    if w.takes_first(found, n + 1) {
        assert(w.after_devices(found.take(n)).takes(found[n]));
        assert forall|k: int| 0 <= k < n implies w.after_devices(#[trigger] found.take(k)).takes(
            found[k],
        ) by {}
    }
}

// ---------------------------------------------------------------------------
// What can be handled
// ---------------------------------------------------------------------------

/// Outputs that all show something, none of them less than nothing, can be measured as soon
/// as all of them together stay within the coordinates of the space.
pub proof fn law_outputs_are_measurable(outputs: Seq<Output>)
    requires
        forall|i: int|
            0 <= i < outputs.len() ==> ((#[trigger] outputs[i]).geometry matches Some(g) && g.w >= 0),
        row_width(outputs) <= i32::MAX,
    ensures
        measurable(outputs),
{
    assert forall|i: int| 0 <= i < outputs.len() implies (#[trigger] outputs[i]).geometry is Some by {}
    assert forall|k: int| 0 <= k <= outputs.len() implies i32::MIN <= row_width(
        #[trigger] outputs.take(k),
    ) <= i32::MAX by {
        let (a, b) = (outputs.take(k), outputs.skip(k));
        assert(outputs =~= a + b);
        law_widths_add_up(a, b, outputs[0]);
        lemma_width_is_no_less_than_nothing(a);
        lemma_width_is_no_less_than_nothing(b);
    }
}

proof fn lemma_width_is_no_less_than_nothing(outputs: Seq<Output>)
    requires
        forall|i: int|
            0 <= i < outputs.len() ==> ((#[trigger] outputs[i]).geometry matches Some(g) && g.w >= 0),
    ensures
        row_width(outputs) >= 0,
    decreases outputs.len(),
{
    if outputs.len() > 0 {
        assert(outputs.last() == outputs[outputs.len() - 1]);
        lemma_width_is_no_less_than_nothing(outputs.drop_last());
    }
}

/// A connector can always come up on a device that is not in use, and where it drives
/// something else than a desktop. A desktop can where it has modes and the one to start with
/// has frames, the outputs can be measured, and there is a name for one more.
pub proof fn law_connector_can_come_up(w: World, node: u64, c: ConnectorView, k: int)
    ensures
        !w.devices.contains_key(node) || is_non_desktop(c.properties) ==> w.can_connect(node, c),
        0 <= k < c.modes.len() && c.modes[k].mode_type & 8 == 8 && (forall|j: int|
            0 <= j < k ==> (#[trigger] c.modes[j]).mode_type & 8 != 8) && c.modes[k].timings.htotal
            > 0 && c.modes[k].timings.vtotal > 0 && measurable(w.outputs) && w.next_output
            < u64::MAX ==> w.can_connect(node, c),
        c.modes.len() > 0 && (forall|j: int|
            0 <= j < c.modes.len() ==> (#[trigger] c.modes[j]).mode_type & 8 != 8)
            && c.modes[0].timings.htotal > 0 && c.modes[0].timings.vtotal > 0 && measurable(
            w.outputs,
        ) && w.next_output < u64::MAX ==> w.can_connect(node, c),
{
    if c.modes.len() > 0 {
        law_initial_mode_is_preferred(c.modes);
        let start = initial_mode_of(c.modes);
        if 0 <= k < c.modes.len() && c.modes[k].mode_type & 8 == 8 && forall|j: int|
            0 <= j < k ==> (#[trigger] c.modes[j]).mode_type & 8 != 8 {
            assert(start == k);
        }
        if forall|j: int| 0 <= j < c.modes.len() ==> (#[trigger] c.modes[j]).mode_type & 8 != 8 {
            assert(start == 0);
        }
    }
}

/// A connector can always go from a device that is not in use, and from one that is where the
/// search for its output ends at it before it meets an output that stands for nothing.
pub proof fn law_connector_can_go(w: World, node: u64, crtc: u32, i: int)
    ensures
        !w.devices.contains_key(node) ==> w.can_disconnect(node, crtc),
        0 <= i < w.outputs.len() && w.outputs[i].udev == Some(UdevOutputState { node, crtc }) && (
        forall|j: int| 0 <= j < i ==> (#[trigger] w.outputs[j]).udev is Some) ==> w.can_disconnect(
            node,
            crtc,
        ),
{
    if 0 <= i < w.outputs.len() && w.outputs[i].udev == Some(UdevOutputState { node, crtc }) && forall|
        j: int,
    |
        0 <= j < i ==> (#[trigger] w.outputs[j]).udev is Some {
        assert(stands_for(node, crtc)(w.outputs[i]));
    }
}

/// A scan can be handled exactly when its first part can, and the second after it. One event
/// can be handled where its connector can come up or go, and always where it has no display
/// controller.
pub proof fn law_scan_can_be_handled_in_parts(
    w: World,
    node: u64,
    first: Seq<ScanEventView>,
    event: ScanEventView,
)
    ensures
        w.can_handle_all(node, Seq::empty()),
        w.can_handle_all(node, first.push(event)) <==> w.can_handle_all(node, first)
            && w.after_events(node, first).can_handle(node, event),
        match event {
            ScanEventView::Connected { connector, crtc: Some(_) } => w.can_handle(node, event)
                <==> w.can_connect(node, connector),
            ScanEventView::Disconnected { handle: _, crtc: Some(crtc) } => w.can_handle(node, event)
                <==> w.can_disconnect(node, crtc),
            _ => w.can_handle(node, event),
        },
{
    let all = first.push(event);
    let n = first.len() as int;
    assert(all.take(n) =~= first);
    if w.can_handle_all(node, all) {
        assert forall|k: int| 0 <= k < n implies w.after_events(
            node,
            #[trigger] first.take(k),
        ).can_handle(node, first[k]) by {
            assert(all.take(k) =~= first.take(k));
            assert(all[k] == first[k]);
        }
        assert(w.after_events(node, all.take(n)).can_handle(node, all[n]));
    }
    if w.can_handle_all(node, first) && w.after_events(node, first).can_handle(node, event) {
        assert forall|k: int| 0 <= k < all.len() implies w.after_events(
            node,
            #[trigger] all.take(k),
        ).can_handle(node, all[k]) by {
            if k < n {
                assert(all.take(k) =~= first.take(k));
                assert(w.after_events(node, first.take(k)).can_handle(node, first[k]));
            }
        }
    }
}

/// A device can be added where its first scan can be handled, and always where it was not
/// scanned or is of no use; it can go where the losses of its connectors can be handled, and
/// always where it is not in use. The devices at start can be used where each can be added
/// when its turn comes.
pub proof fn law_devices_can_come_and_go(
    w: World,
    d: FoundView,
    node: u64,
    crtcs: Seq<CrtcMapping>,
    found: Seq<Option<FoundView>>,
)
    ensures
        w.can_add(None),
        d.scan is None || !w.takes(Some(d)) ==> w.can_add(Some(d)),
        d.scan matches Some(events) ==> (w.opened(d.node, d.probe, d.lease_global).can_handle_all(
            d.node,
            events,
        ) ==> w.can_add(Some(d))),
        !w.devices.contains_key(node) ==> w.can_remove(node, crtcs),
        w.can_handle_all(node, losses(crtcs)) ==> w.can_remove(node, crtcs),
        (forall|k: int|
            0 <= k < found.len() ==> w.after_devices(#[trigger] found.take(k)).can_add(found[k]))
            ==> w.can_start(found),
{
}

} // verus!
