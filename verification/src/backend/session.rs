//! What happens to the devices as a whole: the session is paused and comes back, and
//! devices appear, change and go away.
use crate::backend::model::device_views;
use crate::backend::model::DeviceView;
use crate::backend::udev::Udev;
use vstd::prelude::*;

verus! {

broadcast use vstd::std_specs::hash::group_hash_axioms;

/// The session leaves the foreground or comes back to it.
#[derive(Clone, Copy, PartialEq, Eq, Structural, Debug)]
pub enum SessionEvent {
    PauseSession,
    ActivateSession,
}

/// A step of pausing or activating. Devices are named by their number.
#[derive(Clone, Copy, PartialEq, Eq, Structural, Debug)]
pub enum SessionCommand {
    SuspendInput,
    ResumeInput,
    PauseDevice(u64),
    ActivateDevice(u64),
    SuspendLeases(u64),
    ResumeLeases(u64),
}

/// Something happened to a device.
#[derive(Clone, Copy, PartialEq, Eq, Structural, Debug)]
pub enum UdevEvent {
    Added { node: u64 },
    Changed { node: u64 },
    Removed { node: u64 },
}

/// What to do about a device.
#[derive(Clone, Copy, PartialEq, Eq, Structural, Debug)]
pub enum UdevAction {
    Ignore,
    /// Open it, and add it.
    Add(u64),
    /// Scan its connectors, and handle what changed.
    Rescan(u64),
    Remove(u64),
}

/// What is done about a device while the session is, or is not, active.
pub open spec fn udev_action(session_active: bool, event: UdevEvent) -> UdevAction {
    match (session_active, event) {
        (true, UdevEvent::Added { node }) => UdevAction::Add(node),
        (true, UdevEvent::Changed { node }) => UdevAction::Rescan(node),
        (true, UdevEvent::Removed { node }) => UdevAction::Remove(node),
        (false, _) => UdevAction::Ignore,
    }
}

/// What comes before the devices.
pub open spec fn input_step(event: SessionEvent) -> SessionCommand {
    match event {
        SessionEvent::PauseSession => SessionCommand::SuspendInput,
        SessionEvent::ActivateSession => SessionCommand::ResumeInput,
    }
}

/// What happens to one device.
pub open spec fn device_steps(event: SessionEvent, node: u64, device: DeviceView) -> Seq<
    SessionCommand,
> {
    let (own, leases) = match event {
        SessionEvent::PauseSession => (
            SessionCommand::PauseDevice(node),
            SessionCommand::SuspendLeases(node),
        ),
        SessionEvent::ActivateSession => (
            SessionCommand::ActivateDevice(node),
            SessionCommand::ResumeLeases(node),
        ),
    };
    if device.lease_global {
        seq![own, leases]
    } else {
        seq![own]
    }
}

/// What happens: to the input first, and then to the devices, one after the other.
pub open spec fn steps_in_order(
    event: SessionEvent,
    devices: Map<u64, DeviceView>,
    order: Seq<u64>,
) -> Seq<SessionCommand>
    decreases order.len(),
{
    if order.len() == 0 {
        seq![input_step(event)]
    } else {
        steps_in_order(event, devices, order.drop_last()) + device_steps(
            event,
            order.last(),
            devices[order.last()],
        )
    }
}

/// The order names each device once.
pub open spec fn is_order_of(order: Seq<u64>, devices: Map<u64, DeviceView>) -> bool {
    &&& order.no_duplicates()
    &&& order.to_set() == devices.dom()
}

impl Udev {
    /// Pauses or activates: input first, and then the devices, in no particular order.
    pub fn on_session_event(&self, event: SessionEvent) -> (r: Vec<SessionCommand>)
        ensures
            exists|order: Seq<u64>|
                is_order_of(order, device_views(self.devices@)) && r@ == #[trigger] steps_in_order(
                    event,
                    device_views(self.devices@),
                    order,
                ),
    {
        let ghost devices = device_views(self.devices@);
        let mut r: Vec<SessionCommand> = Vec::new();
        match event {
            SessionEvent::PauseSession => r.push(SessionCommand::SuspendInput),
            SessionEvent::ActivateSession => r.push(SessionCommand::ResumeInput),
        }
        proof {
            assert(r@ =~= seq![input_step(event)]);
        }
        let ghost mut order: Seq<u64> = Seq::empty();
        for key in it: self.devices.keys()
            invariant
                devices == device_views(self.devices@),
                it.seq().unref().to_set() == self.devices@.dom(),
                it.seq().no_duplicates(),
                order == it.seq().unref().take(it.index()),
                order.no_duplicates(),
                it.index() == it.seq().len() ==> order.to_set() == self.devices@.dom(),
                r@ == steps_in_order(event, devices, order),
        {
            let node: u64 = *key;
            proof {
                let all = it.seq().unref();
                assert(all[it.index()] == node);
                assert(all.to_set().contains(node));
                let next = all.take(it.index() + 1);
                assert(next.drop_last() =~= order);
                assert(next.last() == node);
            }
            let ghost before = r@;
            if let Some(device) = self.devices.get(&node) {
                match event {
                    SessionEvent::PauseSession => {
                        r.push(SessionCommand::PauseDevice(node));
                        if device.lease_global {
                            r.push(SessionCommand::SuspendLeases(node));
                        }
                    },
                    SessionEvent::ActivateSession => {
                        r.push(SessionCommand::ActivateDevice(node));
                        if device.lease_global {
                            r.push(SessionCommand::ResumeLeases(node));
                        }
                    },
                }
            }
            proof {
                assert(r@ =~= before + device_steps(event, node, devices[node]));
                order = order.push(node);
                assert(order =~= it.seq().unref().take(it.index() + 1));
                assert(it.index() + 1 == it.seq().len() ==> order =~= it.seq().unref());
            }
        }
        proof {
            assert(order.to_set() =~= devices.dom());
        }
        r
    }

    /// Decides what to do about a device. While the session is not active, nothing is done.
    pub fn on_udev_event(&self, session_active: bool, event: UdevEvent) -> (r: UdevAction)
        ensures
            r == if !session_active {
                UdevAction::Ignore
            } else {
                match event {
                    UdevEvent::Added { node } => UdevAction::Add(node),
                    UdevEvent::Changed { node } => UdevAction::Rescan(node),
                    UdevEvent::Removed { node } => UdevAction::Remove(node),
                }
            },
            r == udev_action(session_active, event),
    {
        if !session_active {
            return UdevAction::Ignore;
        }
        match event {
            UdevEvent::Added { node } => UdevAction::Add(node),
            UdevEvent::Changed { node } => UdevAction::Rescan(node),
            UdevEvent::Removed { node } => UdevAction::Remove(node),
        }
    }
}

proof fn lemma_steps_hold(
    event: SessionEvent,
    devices: Map<u64, DeviceView>,
    order: Seq<u64>,
    step: SessionCommand,
)
    ensures
        steps_in_order(event, devices, order).contains(step) <==> (step == input_step(event)
            || exists|k: int|
            0 <= k < order.len() && device_steps(event, #[trigger] order[k], devices[order[k]]).contains(
                step,
            )),
    decreases order.len(),
{
    let all = steps_in_order(event, devices, order);
    if order.len() == 0 {
        assert(all[0] == input_step(event));
    } else {
        let rest = order.drop_last();
        let head = steps_in_order(event, devices, rest);
        let tail = device_steps(event, order.last(), devices[order.last()]);
        lemma_steps_hold(event, devices, rest, step);
        if all.contains(step) {
            let i = choose|i: int| 0 <= i < all.len() && all[i] == step;
            if i < head.len() {
                assert(head[i] == step);
                if step != input_step(event) {
                    let k = choose|k: int|
                        0 <= k < rest.len() && device_steps(
                            event,
                            #[trigger] rest[k],
                            devices[rest[k]],
                        ).contains(step);
                    assert(order[k] == rest[k]);
                }
            } else {
                assert(tail[i - head.len()] == step);
                assert(order[order.len() - 1] == order.last());
            }
        }
        if head.contains(step) {
            let i = choose|i: int| 0 <= i < head.len() && head[i] == step;
            assert(all[i] == step);
        }
        if exists|k: int|
            0 <= k < order.len() && device_steps(event, #[trigger] order[k], devices[order[k]]).contains(
                step,
            ) {
            let k = choose|k: int|
                0 <= k < order.len() && device_steps(
                    event,
                    #[trigger] order[k],
                    devices[order[k]],
                ).contains(step);
            if k < rest.len() {
                assert(rest[k] == order[k]);
            } else {
                let i = choose|i: int| 0 <= i < tail.len() && tail[i] == step;
                assert(all[head.len() + i] == step);
            }
        }
    }
}

/// Whatever the order of the devices, pausing suspends the input first, and pauses exactly
/// the devices that are in use, with the leases of those that have any to give; nothing is
/// activated or resumed.
pub proof fn law_pause_reaches_every_device(
    devices: Map<u64, DeviceView>,
    order: Seq<u64>,
    node: u64,
)
    requires
        is_order_of(order, devices),
    ensures
        ({
            let steps = steps_in_order(SessionEvent::PauseSession, devices, order);
            &&& steps[0] == SessionCommand::SuspendInput
            &&& steps.contains(SessionCommand::PauseDevice(node)) <==> devices.contains_key(node)
            &&& steps.contains(SessionCommand::SuspendLeases(node)) <==> devices.contains_key(node)
                && devices[node].lease_global
            &&& !steps.contains(SessionCommand::ActivateDevice(node))
            &&& !steps.contains(SessionCommand::ResumeLeases(node))
        }),
{
    lemma_reaches(SessionEvent::PauseSession, devices, order, node);
}

/// Whatever the order of the devices, activating resumes the input first, and activates
/// exactly the devices that are in use, with the leases of those that have any to give;
/// nothing is paused or suspended.
pub proof fn law_activation_reaches_every_device(
    devices: Map<u64, DeviceView>,
    order: Seq<u64>,
    node: u64,
)
    requires
        is_order_of(order, devices),
    ensures
        ({
            let steps = steps_in_order(SessionEvent::ActivateSession, devices, order);
            &&& steps[0] == SessionCommand::ResumeInput
            &&& steps.contains(SessionCommand::ActivateDevice(node)) <==> devices.contains_key(node)
            &&& steps.contains(SessionCommand::ResumeLeases(node)) <==> devices.contains_key(node)
                && devices[node].lease_global
            &&& !steps.contains(SessionCommand::PauseDevice(node))
            &&& !steps.contains(SessionCommand::SuspendLeases(node))
        }),
{
    lemma_reaches(SessionEvent::ActivateSession, devices, order, node);
}

proof fn lemma_reaches(
    event: SessionEvent,
    devices: Map<u64, DeviceView>,
    order: Seq<u64>,
    node: u64,
)
    requires
        is_order_of(order, devices),
    ensures
        ({
            let steps = steps_in_order(event, devices, order);
            let paused = event == SessionEvent::PauseSession;
            let used = devices.contains_key(node);
            &&& steps[0] == input_step(event)
            &&& steps.contains(SessionCommand::PauseDevice(node)) <==> paused && used
            &&& steps.contains(SessionCommand::ActivateDevice(node)) <==> !paused && used
            &&& steps.contains(SessionCommand::SuspendLeases(node)) <==> paused && used
                && devices[node].lease_global
            &&& steps.contains(SessionCommand::ResumeLeases(node)) <==> !paused && used
                && devices[node].lease_global
        }),
{
    lemma_first_step(event, devices, order);
    lemma_steps_hold(event, devices, order, SessionCommand::PauseDevice(node));
    lemma_steps_hold(event, devices, order, SessionCommand::ActivateDevice(node));
    lemma_steps_hold(event, devices, order, SessionCommand::SuspendLeases(node));
    lemma_steps_hold(event, devices, order, SessionCommand::ResumeLeases(node));
    assert(order.to_set().contains(node) <==> order.contains(node));
    assert forall|k: int| 0 <= k < order.len() implies {
        let steps = device_steps(event, #[trigger] order[k], devices[order[k]]);
        let paused = event == SessionEvent::PauseSession;
        let it = order[k] == node;
        &&& steps.contains(SessionCommand::PauseDevice(node)) <==> paused && it
        &&& steps.contains(SessionCommand::ActivateDevice(node)) <==> !paused && it
        &&& steps.contains(SessionCommand::SuspendLeases(node)) <==> paused && it
            && devices[node].lease_global
        &&& steps.contains(SessionCommand::ResumeLeases(node)) <==> !paused && it
            && devices[node].lease_global
    } by {
        lemma_device_steps(event, order[k], devices[order[k]], node);
    }
    if devices.contains_key(node) {
        let k = choose|k: int| 0 <= k < order.len() && order[k] == node;
        assert(order[k] == node);
    }
}

proof fn lemma_device_steps(event: SessionEvent, n: u64, device: DeviceView, node: u64)
    ensures
        ({
            let steps = device_steps(event, n, device);
            let paused = event == SessionEvent::PauseSession;
            &&& steps.contains(SessionCommand::PauseDevice(node)) <==> paused && n == node
            &&& steps.contains(SessionCommand::ActivateDevice(node)) <==> !paused && n == node
            &&& steps.contains(SessionCommand::SuspendLeases(node)) <==> paused && n == node
                && device.lease_global
            &&& steps.contains(SessionCommand::ResumeLeases(node)) <==> !paused && n == node
                && device.lease_global
        }),
{
    let steps = device_steps(event, n, device);
    match event {
        SessionEvent::PauseSession => {
            assert(steps[0] == SessionCommand::PauseDevice(n));
            assert(device.lease_global ==> steps[1] == SessionCommand::SuspendLeases(n));
        },
        SessionEvent::ActivateSession => {
            assert(steps[0] == SessionCommand::ActivateDevice(n));
            assert(device.lease_global ==> steps[1] == SessionCommand::ResumeLeases(n));
        },
    }
}

proof fn lemma_first_step(event: SessionEvent, devices: Map<u64, DeviceView>, order: Seq<u64>)
    ensures
        steps_in_order(event, devices, order).len() > 0,
        steps_in_order(event, devices, order)[0] == input_step(event),
    decreases order.len(),
{
    if order.len() > 0 {
        lemma_first_step(event, devices, order.drop_last());
    }
}

/// The input comes first, and with one more device just that device's steps are added at the
/// end: the device itself, and its leases after it where it has any to give.
pub proof fn law_devices_follow_one_another(
    event: SessionEvent,
    devices: Map<u64, DeviceView>,
    order: Seq<u64>,
    node: u64,
)
    ensures
        steps_in_order(event, devices, Seq::empty()) == seq![
            match event {
                SessionEvent::PauseSession => SessionCommand::SuspendInput,
                SessionEvent::ActivateSession => SessionCommand::ResumeInput,
            },
        ],
        steps_in_order(event, devices, order.push(node)) == steps_in_order(event, devices, order)
            + match (event, devices[node].lease_global) {
            (SessionEvent::PauseSession, false) => seq![SessionCommand::PauseDevice(node)],
            (SessionEvent::PauseSession, true) => seq![
                SessionCommand::PauseDevice(node),
                SessionCommand::SuspendLeases(node),
            ],
            (SessionEvent::ActivateSession, false) => seq![SessionCommand::ActivateDevice(node)],
            (SessionEvent::ActivateSession, true) => seq![
                SessionCommand::ActivateDevice(node),
                SessionCommand::ResumeLeases(node),
            ],
        },
{
    assert(order.push(node).drop_last() =~= order);
}

/// An order of the devices names each of them in one place, and nothing else.
pub proof fn law_order_names_each_device_once(
    order: Seq<u64>,
    devices: Map<u64, DeviceView>,
    i: int,
    j: int,
    node: u64,
)
    requires
        is_order_of(order, devices),
        0 <= i < order.len(),
        0 <= j < order.len(),
    ensures
        devices.contains_key(order[i]),
        order[i] == order[j] ==> i == j,
        devices.contains_key(node) ==> exists|k: int| 0 <= k < order.len() && order[k] == node,
{
    assert(order.to_set().contains(order[i]));
    if devices.contains_key(node) {
        assert(order.to_set().contains(node));
    }
}

/// A device is ignored exactly while the session is not active. Otherwise what is done is
/// done about the very device that the event is about: one that appeared is added, one that
/// changed is scanned again, and one that is gone is removed.
pub proof fn law_events_concern_their_device(session_active: bool, event: UdevEvent, node: u64)
    ensures
        udev_action(session_active, event) == UdevAction::Ignore <==> !session_active,
        udev_action(session_active, event) == UdevAction::Add(node) <==> session_active && event == (
        UdevEvent::Added { node }),
        udev_action(session_active, event) == UdevAction::Rescan(node) <==> session_active && event
            == (UdevEvent::Changed { node }),
        udev_action(session_active, event) == UdevAction::Remove(node) <==> session_active && event
            == (UdevEvent::Removed { node }),
{
}

} // verus!
