use projectwc::backend::session::{SessionCommand, SessionEvent, UdevAction, UdevEvent};
use projectwc::backend::udev::{GpuProbe, PrimaryGpu, Udev};
use projectwc::state::ProjectWC;

fn two_devices() -> Udev {
    let mut wc = ProjectWC::new(String::from("wayland-1"));
    let (mut udev, added) = Udev::new(PrimaryGpu::Found(128), &Vec::new(), &mut wc).unwrap();
    assert!(added.is_empty());
    let gpu = GpuProbe { software: false, render_node: None };
    udev.device_added(1, gpu, true, &None, &mut wc).unwrap();
    udev.device_added(2, gpu, false, &None, &mut wc).unwrap();
    udev
}

#[test]
fn pausing_suspends_input_and_every_device() {
    let steps = two_devices().on_session_event(SessionEvent::PauseSession);
    assert_eq!(steps[0], SessionCommand::SuspendInput);
    assert_eq!(steps.len(), 4);
    let own = steps.iter().position(|s| *s == SessionCommand::PauseDevice(1)).unwrap();
    assert_eq!(steps[own + 1], SessionCommand::SuspendLeases(1));
    assert!(steps.contains(&SessionCommand::PauseDevice(2)));
}

#[test]
fn activating_resumes_input_and_every_device() {
    let steps = two_devices().on_session_event(SessionEvent::ActivateSession);
    assert_eq!(steps[0], SessionCommand::ResumeInput);
    assert_eq!(steps.len(), 4);
    let own = steps.iter().position(|s| *s == SessionCommand::ActivateDevice(1)).unwrap();
    assert_eq!(steps[own + 1], SessionCommand::ResumeLeases(1));
    assert!(steps.contains(&SessionCommand::ActivateDevice(2)));
}

#[test]
fn pausing_without_devices_only_suspends_input() {
    let mut wc = ProjectWC::new(String::from("wayland-1"));
    let (udev, _) = Udev::new(PrimaryGpu::Found(128), &Vec::new(), &mut wc).unwrap();
    assert_eq!(
        udev.on_session_event(SessionEvent::PauseSession),
        vec![SessionCommand::SuspendInput]
    );
}

#[test]
fn device_events_are_followed_while_the_session_is_active() {
    let udev = two_devices();
    assert_eq!(udev.on_udev_event(true, UdevEvent::Added { node: 7 }), UdevAction::Add(7));
    assert_eq!(udev.on_udev_event(true, UdevEvent::Changed { node: 7 }), UdevAction::Rescan(7));
    assert_eq!(udev.on_udev_event(true, UdevEvent::Removed { node: 7 }), UdevAction::Remove(7));
    assert_eq!(udev.on_udev_event(false, UdevEvent::Added { node: 7 }), UdevAction::Ignore);
    assert_eq!(udev.on_udev_event(false, UdevEvent::Changed { node: 7 }), UdevAction::Ignore);
    assert_eq!(udev.on_udev_event(false, UdevEvent::Removed { node: 7 }), UdevAction::Ignore);
}
