use projectwc::backend::connector::{
    ConnectorInfo, ConnectorMode, DisplayInfo, Mode, Property, PropertyInfo, PropertyKind, Timings,
};
use projectwc::backend::checks::{is_measurable, is_searchable};
use projectwc::backend::scanout::CompositorStep;
use projectwc::backend::udev::{
    position_of_output, render_node, total_width, AllocatorSource, Connected, CrtcMapping,
    DesktopPlan, DeviceError, DevicePlan, DeviceRemoved, Disconnected, FoundDevice, GpuProbe,
    NonDesktopConnector, PrimaryGpu, ScanEvent, ScanOutcome, Udev, UdevOutputState,
};
use projectwc::space::{Output, Rectangle, Size};
use projectwc::state::ProjectWC;

const GPU: GpuProbe = GpuProbe { software: false, render_node: None };
const SOFTWARE: GpuProbe = GpuProbe { software: true, render_node: Some(130) };

const FULL_HD: Timings = Timings {
    width: 1920,
    height: 1080,
    clock: 148_500,
    htotal: 2200,
    vtotal: 1125,
    vscan: 0,
    flags: 0,
};

fn screen(handle: u32, width: u16) -> ConnectorInfo {
    ConnectorInfo {
        handle,
        interface: 11,
        interface_id: handle,
        size: Some((527, 296)),
        modes: vec![
            ConnectorMode { timings: Timings { width: 640, height: 480, ..FULL_HD }, mode_type: 0 },
            ConnectorMode { timings: Timings { width, ..FULL_HD }, mode_type: 8 },
        ],
        properties: None,
        display: Some(DisplayInfo {
            make: Some(String::from("ACME")),
            model: Some(String::from("View 24")),
            serial: Some(String::from("S1")),
        }),
    }
}

fn headset(handle: u32) -> ConnectorInfo {
    ConnectorInfo {
        properties: Some(vec![Property {
            info: Some(PropertyInfo {
                name: Some(String::from("non-desktop")),
                kind: PropertyKind::Boolean,
            }),
            value: 1,
        }]),
        ..screen(handle, 1920)
    }
}

fn plan_of(connected: Connected) -> DesktopPlan {
    match connected {
        Connected::Desktop(plan) => plan,
        other => panic!("no desktop: {other:?}"),
    }
}

fn start() -> (Udev, ProjectWC) {
    let mut wc = ProjectWC::new(String::from("wayland-1"));
    let (mut udev, _) = Udev::new(PrimaryGpu::Found(128), &Vec::new(), &mut wc).unwrap();
    udev.device_added(1, GPU, true, &None, &mut wc).unwrap();
    (udev, wc)
}

#[test]
fn a_screen_becomes_an_output() {
    let (mut udev, mut wc) = start();
    let plan = plan_of(udev.connector_connected(1, &screen(3, 1920), 40, &mut wc));
    assert_eq!(plan.output, 0);
    assert_eq!(plan.name, "HDMI-A-3");
    assert_eq!(plan.make, "ACME");
    assert_eq!(plan.model, "View 24");
    assert_eq!(plan.serial_number, "S1");
    assert_eq!(plan.physical_size, Size { w: 527, h: 296 });
    assert_eq!(plan.mode_index, 1);
    assert_eq!(plan.mode, Mode { width: 1920, height: 1080, refresh: 60_000 });
    assert_eq!((plan.x, plan.y), (0, 0));
    assert_eq!(plan.compositor, CompositorStep::MakeSurface { fallback: false });
    let output = wc.space.outputs[0];
    assert_eq!(output.id, 0);
    assert_eq!(output.geometry, Some(Rectangle { x: 0, y: 0, w: 1920, h: 1080 }));
    assert_eq!(output.udev, Some(UdevOutputState { node: 1, crtc: 40 }));
    let info = &udev.devices[&1].surfaces[&40].output_info;
    assert_eq!(info.connector, "HDMI-A-3");
    assert_eq!(info.serial, Some(String::from("S1")));
}

#[test]
fn an_unknown_screen_is_called_unknown() {
    let (mut udev, mut wc) = start();
    let bare = ConnectorInfo { size: None, display: None, ..screen(3, 1920) };
    let plan = plan_of(udev.connector_connected(1, &bare, 40, &mut wc));
    assert_eq!(plan.make, "Unknown");
    assert_eq!(plan.model, "Unkown");
    assert_eq!(plan.serial_number, "Unkown");
    assert_eq!(plan.physical_size, Size { w: 0, h: 0 });
    let nameless = ConnectorInfo {
        display: Some(DisplayInfo { make: None, model: None, serial: None }),
        ..screen(4, 1920)
    };
    let plan = plan_of(udev.connector_connected(1, &nameless, 41, &mut wc));
    assert_eq!((plan.make.as_str(), plan.model.as_str()), ("Unknown", "Unkown"));
}

#[test]
fn screens_stand_in_a_row() {
    let (mut udev, mut wc) = start();
    udev.connector_connected(1, &screen(3, 1920), 40, &mut wc);
    udev.connector_connected(1, &screen(4, 2560), 41, &mut wc);
    let plan = plan_of(udev.connector_connected(1, &screen(5, 800), 42, &mut wc));
    assert_eq!(plan.x, 4480);
    assert_eq!(plan.output, 2);
    let xs: Vec<i32> = wc.space.outputs.iter().map(|o| o.geometry.unwrap().x).collect();
    assert_eq!(xs, vec![0, 1920, 4480]);
    assert_eq!(total_width(&wc.space.outputs), 5280);
}

#[test]
fn a_gap_in_the_row_is_not_filled() {
    let (mut udev, mut wc) = start();
    udev.connector_connected(1, &screen(3, 1000), 40, &mut wc);
    udev.connector_connected(1, &screen(4, 2000), 41, &mut wc);
    udev.connector_disconnected(1, 3, 40, &mut wc);
    let plan = plan_of(udev.connector_connected(1, &screen(3, 1000), 40, &mut wc));
    assert_eq!(plan.x, 2000);
    assert_eq!(wc.space.outputs[0].geometry, Some(Rectangle { x: 1000, y: 0, w: 2000, h: 1080 }));
    assert_eq!(plan.output, 2);
}

#[test]
fn a_headset_is_offered_for_lease() {
    let (mut udev, mut wc) = start();
    match udev.connector_connected(1, &headset(9), 50, &mut wc) {
        Connected::NonDesktop(Some(offer)) => {
            assert_eq!(offer.connector, 9);
            assert_eq!(offer.name, "HDMI-A-9");
            assert_eq!(offer.description, "ACME View 24");
        }
        other => panic!("no offer: {other:?}"),
    }
    assert!(wc.space.outputs.is_empty());
    assert_eq!(
        udev.devices[&1].non_desktop_connectors,
        vec![NonDesktopConnector { connector: 9, crtc: 50 }]
    );
    udev.device_added(2, GPU, false, &None, &mut wc).unwrap();
    let kept = udev.connector_connected(2, &headset(9), 50, &mut wc);
    assert!(matches!(kept, Connected::NonDesktop(None)));
    assert_eq!(udev.devices[&2].non_desktop_connectors.len(), 1);
}

#[test]
fn a_connector_of_an_unknown_device_is_passed_over() {
    let (mut udev, mut wc) = start();
    let connected = udev.connector_connected(77, &screen(3, 1920), 40, &mut wc);
    assert!(matches!(connected, Connected::NoDevice));
    assert_eq!(udev.connector_disconnected(77, 3, 40, &mut wc), Disconnected::NoDevice);
    assert!(wc.space.outputs.is_empty());
}

#[test]
fn a_lost_screen_takes_its_output_along() {
    let (mut udev, mut wc) = start();
    udev.connector_connected(1, &screen(3, 1920), 40, &mut wc);
    udev.connector_connected(1, &screen(4, 1280), 41, &mut wc);
    let lost = udev.connector_disconnected(1, 3, 40, &mut wc);
    assert_eq!(lost, Disconnected::Done { withdraw: None, unmap: Some(0) });
    assert_eq!(wc.space.outputs.len(), 1);
    assert_eq!(wc.space.outputs[0].id, 1);
    assert!(!udev.devices[&1].surfaces.contains_key(&40));
    let again = udev.connector_disconnected(1, 3, 40, &mut wc);
    assert_eq!(again, Disconnected::Done { withdraw: None, unmap: None });
    assert_eq!(wc.space.outputs.len(), 1);
}

#[test]
fn a_lost_headset_is_withdrawn() {
    let (mut udev, mut wc) = start();
    udev.connector_connected(1, &headset(9), 50, &mut wc);
    let lost = udev.connector_disconnected(1, 9, 50, &mut wc);
    assert_eq!(lost, Disconnected::Done { withdraw: Some(9), unmap: None });
    assert!(udev.devices[&1].non_desktop_connectors.is_empty());
    udev.device_added(2, GPU, false, &None, &mut wc).unwrap();
    udev.connector_connected(2, &headset(9), 50, &mut wc);
    let silent = udev.connector_disconnected(2, 9, 50, &mut wc);
    assert_eq!(silent, Disconnected::Done { withdraw: None, unmap: None });
}

#[test]
fn losing_undoes_connecting() {
    let (mut udev, mut wc) = start();
    udev.connector_connected(1, &screen(3, 1920), 40, &mut wc);
    let before = format!("{:?} {:?}", udev.devices[&1].surfaces.len(), wc.space.outputs);
    udev.connector_connected(1, &screen(4, 1280), 41, &mut wc);
    udev.connector_disconnected(1, 4, 41, &mut wc);
    assert_eq!(format!("{:?} {:?}", udev.devices[&1].surfaces.len(), wc.space.outputs), before);
    assert_eq!(wc.next_output, 2);
}

#[test]
fn a_scan_is_handled_in_order() {
    let (mut udev, mut wc) = start();
    let scan = Some(vec![
        ScanEvent::Connected { connector: screen(3, 1920), crtc: Some(40) },
        ScanEvent::Connected { connector: screen(4, 1920), crtc: None },
        ScanEvent::Disconnected { handle: 3, crtc: Some(40) },
        ScanEvent::Disconnected { handle: 5, crtc: None },
        ScanEvent::Connected { connector: screen(6, 1280), crtc: Some(40) },
    ]);
    let outcomes = udev.device_changed(1, &scan, &mut wc);
    assert_eq!(outcomes.len(), 5);
    assert!(matches!(outcomes[0], ScanOutcome::Connected(Connected::Desktop(_))));
    assert!(matches!(outcomes[1], ScanOutcome::Ignored));
    assert!(matches!(
        outcomes[2],
        ScanOutcome::Disconnected(Disconnected::Done { withdraw: None, unmap: Some(0) })
    ));
    assert!(matches!(outcomes[3], ScanOutcome::Ignored));
    assert_eq!(wc.space.outputs.len(), 1);
    assert_eq!(wc.space.outputs[0].id, 1);
    assert_eq!(udev.devices[&1].surfaces[&40].output_info.connector, "HDMI-A-6");
}

#[test]
fn a_failed_scan_changes_nothing() {
    let (mut udev, mut wc) = start();
    assert!(udev.device_changed(1, &None, &mut wc).is_empty());
    let scan = Some(vec![ScanEvent::Connected { connector: screen(3, 1920), crtc: Some(40) }]);
    assert!(udev.device_changed(77, &scan, &mut wc).is_empty());
    assert!(wc.space.outputs.is_empty());
}

#[test]
fn a_device_renders_on_its_own_node() {
    assert_eq!(render_node(GPU, 5), Some(5));
    assert_eq!(render_node(GpuProbe { software: false, render_node: Some(130) }, 5), Some(130));
    assert_eq!(render_node(SOFTWARE, 5), None);
}

#[test]
fn a_device_that_does_not_render_needs_the_primary_one() {
    let (mut udev, mut wc) = start();
    let refused = udev.device_added(2, SOFTWARE, true, &None, &mut wc);
    assert_eq!(refused.unwrap_err(), DeviceError::NoAllocator);
    assert_eq!(DeviceError::NoAllocator.message(), "no allocator for device");
    assert!(!udev.devices.contains_key(&2));
    udev.device_added(128, GPU, true, &None, &mut wc).unwrap();
    assert_eq!(
        udev.plan_device(2, SOFTWARE),
        Ok(DevicePlan { render_node: None, allocator: AllocatorSource::PrimaryGpu })
    );
    let added = udev.device_added(2, SOFTWARE, true, &None, &mut wc).unwrap();
    assert_eq!(added.allocator, AllocatorSource::PrimaryGpu);
    assert_eq!(added.render_node, None);
    assert_eq!(udev.devices[&2].allocator, AllocatorSource::PrimaryGpu);
}

#[test]
fn a_removed_device_leaves_nothing() {
    let (mut udev, mut wc) = start();
    udev.device_added(2, GPU, false, &None, &mut wc).unwrap();
    udev.connector_connected(2, &screen(3, 1280), 40, &mut wc);
    udev.connector_connected(1, &screen(3, 1920), 40, &mut wc);
    udev.connector_connected(1, &headset(9), 50, &mut wc);
    let crtcs =
        vec![CrtcMapping { connector: 3, crtc: 40 }, CrtcMapping { connector: 9, crtc: 50 }];
    match udev.device_removed(1, &crtcs, &mut wc) {
        DeviceRemoved::Done { lost, disable_lease_global, remove_render_node } => {
            assert_eq!(
                lost,
                vec![
                    Disconnected::Done { withdraw: None, unmap: Some(1) },
                    Disconnected::Done { withdraw: Some(9), unmap: None },
                ]
            );
            assert!(disable_lease_global);
            assert_eq!(remove_render_node, Some(1));
        }
        DeviceRemoved::NoDevice => panic!("the device was there"),
    }
    assert!(!udev.devices.contains_key(&1));
    assert!(udev.devices.contains_key(&2));
    assert_eq!(wc.space.outputs.len(), 1);
    assert_eq!(wc.space.outputs[0].udev, Some(UdevOutputState { node: 2, crtc: 40 }));
    assert!(matches!(udev.device_removed(1, &crtcs, &mut wc), DeviceRemoved::NoDevice));
}

#[test]
fn the_backend_starts_with_its_devices() {
    let mut wc = ProjectWC::new(String::from("wayland-1"));
    let scan = Some(vec![ScanEvent::Connected { connector: screen(3, 1920), crtc: Some(40) }]);
    let found = vec![
        Some(FoundDevice { node: 128, probe: GPU, lease_global: true, scan }),
        Some(FoundDevice { node: 2, probe: SOFTWARE, lease_global: false, scan: None }),
    ];
    let (udev, added) = Udev::new(PrimaryGpu::Found(128), &found, &mut wc).unwrap();
    assert_eq!(udev.primary_gpu, 128);
    assert_eq!(added.len(), 2);
    assert_eq!(added[0].outcomes.len(), 1);
    assert_eq!(added[1].allocator, AllocatorSource::PrimaryGpu);
    assert_eq!(udev.devices.len(), 2);
    assert_eq!(wc.space.outputs.len(), 1);
}

#[test]
fn the_backend_does_not_start_with_a_useless_device() {
    let mut wc = ProjectWC::new(String::from("wayland-1"));
    assert!(Udev::new(PrimaryGpu::Failed, &Vec::new(), &mut wc).is_none());
    assert!(Udev::new(PrimaryGpu::Found(128), &vec![None], &mut wc).is_none());
    let scan = Some(vec![ScanEvent::Connected { connector: screen(3, 1920), crtc: Some(40) }]);
    let found = vec![
        Some(FoundDevice { node: 1, probe: GPU, lease_global: true, scan }),
        Some(FoundDevice { node: 2, probe: SOFTWARE, lease_global: false, scan: None }),
    ];
    assert!(Udev::new(PrimaryGpu::Found(128), &found, &mut wc).is_none());
    assert_eq!(wc.space.outputs.len(), 1);
    assert_eq!(wc.next_output, 1);
}

#[test]
fn the_output_of_a_display_controller_is_found() {
    let (mut udev, mut wc) = start();
    udev.connector_connected(1, &screen(3, 1920), 40, &mut wc);
    udev.connector_connected(1, &screen(4, 1920), 41, &mut wc);
    assert_eq!(position_of_output(&wc.space.outputs, 1, 41), Some(1));
    assert_eq!(position_of_output(&wc.space.outputs, 1, 42), None);
    assert_eq!(position_of_output(&wc.space.outputs, 2, 41), None);
}

#[test]
fn removing_undoes_adding() {
    let (mut udev, mut wc) = start();
    udev.connector_connected(1, &screen(3, 1920), 40, &mut wc);
    let before = wc.space.outputs.clone();
    let scan = Some(vec![
        ScanEvent::Connected { connector: screen(5, 1280), crtc: Some(60) },
        ScanEvent::Connected { connector: headset(6), crtc: Some(61) },
    ]);
    udev.device_added(2, GPU, true, &scan, &mut wc).unwrap();
    assert_eq!(wc.space.outputs.len(), 2);
    let crtcs =
        vec![CrtcMapping { connector: 5, crtc: 60 }, CrtcMapping { connector: 6, crtc: 61 }];
    udev.device_removed(2, &crtcs, &mut wc);
    assert_eq!(wc.space.outputs, before);
    assert_eq!(udev.devices.len(), 1);
    assert_eq!(wc.next_output, 2);
}

#[test]
fn no_name_is_given_out_twice() {
    let (mut udev, mut wc) = start();
    let mut names = Vec::new();
    for round in 0..3 {
        names.push(plan_of(udev.connector_connected(1, &screen(3, 1920), 40, &mut wc)).output);
        names.push(plan_of(udev.connector_connected(1, &screen(4, 1920), 41, &mut wc)).output);
        udev.connector_disconnected(1, 3, 40, &mut wc);
        udev.connector_disconnected(1, 4, 41, &mut wc);
        assert_eq!(wc.next_output, 2 * (round + 1));
    }
    assert_eq!(names, vec![0, 1, 2, 3, 4, 5]);
}

#[test]
fn a_scan_of_one_device_leaves_the_others_alone() {
    let (mut udev, mut wc) = start();
    udev.connector_connected(1, &screen(3, 1920), 40, &mut wc);
    udev.device_added(2, GPU, false, &None, &mut wc).unwrap();
    let scan = Some(vec![
        ScanEvent::Connected { connector: screen(3, 800), crtc: Some(40) },
        ScanEvent::Disconnected { handle: 3, crtc: Some(40) },
    ]);
    udev.device_changed(2, &scan, &mut wc);
    assert_eq!(wc.space.outputs.len(), 1);
    assert_eq!(wc.space.outputs[0].udev, Some(UdevOutputState { node: 1, crtc: 40 }));
    assert_eq!(udev.devices[&1].surfaces.len(), 1);
    assert_eq!(udev.devices[&2].surfaces.len(), 0);
}

#[test]
fn a_new_output_is_drawn_on_at_once() {
    let (mut udev, mut wc) = start();
    udev.connector_connected(1, &screen(3, 1920), 40, &mut wc);
    let connected = udev.connector_connected(1, &screen(4, 1920), 41, &mut wc);
    assert_eq!(connected.output_to_draw(), Some(1));
    let output = wc.space.outputs[1];
    assert_eq!(output.id, 1);
    assert!(udev.render(1, &output, 0, 0, &Vec::new()).is_some());
    assert_eq!(udev.connector_connected(1, &headset(9), 50, &mut wc).output_to_draw(), None);
    assert_eq!(udev.connector_connected(7, &screen(3, 1), 40, &mut wc).output_to_draw(), None);
}

#[test]
fn the_backend_starts_one_device_at_a_time() {
    let (mut udev, mut wc) = start();
    let scan = Some(vec![ScanEvent::Connected { connector: screen(3, 1920), crtc: Some(40) }]);
    let good = Some(FoundDevice { node: 2, probe: GPU, lease_global: true, scan });
    assert!(udev.can_add(&good, &wc));
    assert_eq!(udev.start_device(&good, &mut wc).unwrap().outcomes.len(), 1);
    let useless = Some(FoundDevice { node: 3, probe: SOFTWARE, lease_global: true, scan: None });
    assert!(udev.can_add(&useless, &wc));
    assert!(udev.start_device(&useless, &mut wc).is_none());
    assert!(udev.start_device(&None, &mut wc).is_none());
    assert_eq!(udev.devices.len(), 2);
    assert_eq!(wc.space.outputs.len(), 1);
}

#[test]
fn a_scan_that_cannot_be_handled_is_told() {
    let (udev, mut wc) = start();
    let connected = |connector| Some(vec![ScanEvent::Connected { connector, crtc: Some(40) }]);
    assert!(udev.can_handle_scan(1, &connected(screen(3, 1920)), &wc));
    let modeless = || ConnectorInfo { modes: Vec::new(), ..screen(3, 1920) };
    assert!(!udev.can_handle_scan(1, &connected(modeless()), &wc));
    let endless = || ConnectorInfo {
        modes: vec![
            ConnectorMode { timings: FULL_HD, mode_type: 0 },
            ConnectorMode { timings: Timings { vtotal: 0, ..FULL_HD }, mode_type: 8 },
        ],
        ..screen(3, 1920)
    };
    assert!(!udev.can_handle_scan(1, &connected(endless()), &wc));
    let other_mode_endless = ConnectorInfo {
        modes: vec![
            ConnectorMode { timings: FULL_HD, mode_type: 8 },
            ConnectorMode { timings: Timings { vtotal: 0, ..FULL_HD }, mode_type: 0 },
        ],
        ..screen(3, 1920)
    };
    assert!(udev.can_handle_scan(1, &connected(other_mode_endless), &wc));
    assert!(udev.can_handle_scan(7, &connected(modeless()), &wc));
    assert!(udev.can_handle_scan(1, &None, &wc));
    let idle = Some(vec![ScanEvent::Connected { connector: modeless(), crtc: None }]);
    assert!(udev.can_handle_scan(1, &idle, &wc));
    let useless = Some(FoundDevice {
        node: 2,
        probe: SOFTWARE,
        lease_global: false,
        scan: connected(modeless()),
    });
    assert!(udev.can_add(&useless, &wc));
    let found = Some(FoundDevice {
        node: 2,
        probe: GPU,
        lease_global: false,
        scan: connected(modeless()),
    });
    assert!(!udev.can_add(&found, &wc));
    wc.next_output = u64::MAX;
    assert!(!udev.can_handle_scan(1, &connected(screen(3, 1920)), &wc));
}

#[test]
fn room_that_is_given_up_can_be_used_again() {
    let (mut udev, mut wc) = start();
    udev.connector_connected(1, &screen(3, 1920), 40, &mut wc);
    wc.space.outputs[0].geometry = Some(Rectangle { x: 0, y: 0, w: i32::MAX, h: 1080 });
    assert!(is_measurable(&wc.space.outputs));
    let crowd = |handle, crtc| ScanEvent::Connected { connector: screen(handle, 1), crtc };
    let both = Some(vec![crowd(4, Some(41)), crowd(5, Some(42))]);
    assert!(!udev.can_handle_scan(1, &both, &wc));
    let swapped = Some(vec![
        crowd(4, Some(41)),
        ScanEvent::Disconnected { handle: 3, crtc: Some(40) },
        crowd(5, Some(42)),
    ]);
    assert!(udev.can_handle_scan(1, &swapped, &wc));
}

#[test]
fn an_output_of_another_backend_stops_a_search() {
    let (mut udev, mut wc) = start();
    udev.connector_connected(1, &screen(3, 1920), 40, &mut wc);
    wc.space.outputs.push(Output { id: 9, mode: None, geometry: None, udev: None });
    assert!(is_searchable(&wc.space.outputs, 1, 40));
    assert!(!is_searchable(&wc.space.outputs, 1, 41));
    assert!(!is_measurable(&wc.space.outputs));
    assert!(udev.can_remove(1, &vec![CrtcMapping { connector: 3, crtc: 40 }], &wc));
    let twice =
        vec![CrtcMapping { connector: 3, crtc: 40 }, CrtcMapping { connector: 3, crtc: 40 }];
    assert!(!udev.can_remove(1, &twice, &wc));
    assert!(udev.can_remove(7, &twice, &wc));
}
