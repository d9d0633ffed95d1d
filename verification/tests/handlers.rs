use projectwc::backend::udev::{GpuProbe, NonDesktopConnector, PrimaryGpu, Udev};
use projectwc::backend::Backend;
use projectwc::handlers::compositor::{commit, CommitCommand, CommitWalk};
use projectwc::handlers::dnd::{dnd_requested, DndAction, GrabType};
use projectwc::handlers::drm_lease::{LeaseGrant, LeaseNegotiation, LeaseStage};
use projectwc::handlers::layer_shell::{
    handle_commit, layer_destroyed, new_layer_surface, Layer, LayerCommit, LayerMap, LayerPlace,
    LayerSurface,
};
use projectwc::space::{Output, Window};
use projectwc::state::ProjectWC;

fn lease_device() -> Udev {
    let mut wc = ProjectWC::new(String::from("wayland-1"));
    let (mut udev, _) = Udev::new(PrimaryGpu::Found(128), &Vec::new(), &mut wc).unwrap();
    let gpu = GpuProbe { software: false, render_node: None };
    udev.device_added(1, gpu, true, &None, &mut wc).unwrap();
    let device = udev.devices.get_mut(&1).unwrap();
    device.non_desktop_connectors.push(NonDesktopConnector { connector: 9, crtc: 50 });
    device.non_desktop_connectors.push(NonDesktopConnector { connector: 8, crtc: 51 });
    udev
}

fn rejected(negotiation: &LeaseNegotiation) -> Option<bool> {
    match negotiation.stage {
        LeaseStage::Rejected { with_cause } => Some(with_cause),
        _ => None,
    }
}

fn surface_on(id: u64, surface: u64) -> LayerSurface {
    LayerSurface { id, surface, layer: Layer::Top, geometry: None }
}

fn layer_maps() -> Vec<LayerMap> {
    vec![
        LayerMap { output: 0, layers: vec![surface_on(1, 11)] },
        LayerMap { output: 1, layers: vec![surface_on(2, 12), surface_on(3, 13)] },
    ]
}

#[test]
fn a_commit_reaches_the_window_of_the_root() {
    let mut wc = ProjectWC::new(String::from("wayland-1"));
    wc.space.elements.push(Window { id: 7, toplevel: Some(30) });
    let walk = CommitWalk::start(10, false);
    assert_eq!(walk, CommitWalk::AskParent(10));
    let walk = walk.step(Some(20)).step(Some(30));
    assert_eq!(walk, CommitWalk::AskParent(30));
    let walk = walk.step(None);
    assert_eq!(walk, CommitWalk::Root(30));
    assert_eq!(
        commit(10, walk, &wc),
        vec![
            CommitCommand::ProcessBuffer(10),
            CommitCommand::WindowCommit(7),
            CommitCommand::ShellCommit(10),
            CommitCommand::ResizeCommit(10),
            CommitCommand::LayerCommit(10),
        ]
    );
}

#[test]
fn a_commit_of_a_synchronized_subsurface_reaches_no_window() {
    let mut wc = ProjectWC::new(String::from("wayland-1"));
    wc.space.elements.push(Window { id: 7, toplevel: Some(10) });
    let walk = CommitWalk::start(10, true);
    assert_eq!(walk, CommitWalk::Skipped);
    assert_eq!(walk.step(Some(20)), CommitWalk::Skipped);
    assert_eq!(commit(10, walk, &wc).len(), 4);
    assert_eq!(commit(99, CommitWalk::Root(99), &wc).len(), 4);
}

#[test]
fn only_the_pointer_can_drag() {
    assert_eq!(dnd_requested(GrabType::Pointer), DndAction::GrabPointer);
    assert_eq!(dnd_requested(GrabType::Touch), DndAction::Ignore);
}

#[test]
fn a_layer_surface_goes_where_the_client_asks() {
    let mut wc = ProjectWC::new(String::from("wayland-1"));
    assert_eq!(new_layer_surface(None, &wc), None);
    assert_eq!(new_layer_surface(Some(4), &wc), Some(4));
    wc.space.outputs.push(Output { id: 2, mode: None, geometry: None, udev: None });
    wc.space.outputs.push(Output { id: 3, mode: None, geometry: None, udev: None });
    assert_eq!(new_layer_surface(None, &wc), Some(2));
    assert_eq!(new_layer_surface(Some(3), &wc), Some(3));
}

#[test]
fn a_layer_surface_that_is_gone_is_found() {
    let maps = layer_maps();
    assert_eq!(layer_destroyed(&maps, 3), Some(LayerPlace { output: 1, layer: 3 }));
    assert_eq!(layer_destroyed(&maps, 1), Some(LayerPlace { output: 0, layer: 1 }));
    assert_eq!(layer_destroyed(&maps, 9), None);
}

#[test]
fn a_layer_surface_is_configured_once() {
    let maps = layer_maps();
    let place = LayerPlace { output: 1, layer: 2 };
    assert_eq!(
        handle_commit(&maps, 12, Some(false)),
        Some(LayerCommit { place, send_configure: true })
    );
    for sent in [Some(true), None] {
        assert_eq!(
            handle_commit(&maps, 12, sent),
            Some(LayerCommit { place, send_configure: false })
        );
    }
    assert_eq!(handle_commit(&maps, 99, Some(false)), None);
}

#[test]
fn a_lease_is_granted_in_full() {
    let udev = lease_device();
    let mut negotiation = udev.lease_request(1, vec![8, 9]);
    assert!(matches!(negotiation.stage, LeaseStage::Planes { crtc: 51 }));
    assert_eq!(negotiation.wanted_plane(), None);
    negotiation.planes(Some(vec![100, 101]));
    assert_eq!(negotiation.wanted_plane(), Some((100, 51)));
    negotiation.claimed(false);
    assert_eq!(negotiation.wanted_plane(), Some((101, 51)));
    negotiation.claimed(true);
    assert!(matches!(negotiation.stage, LeaseStage::Planes { crtc: 50 }));
    negotiation.planes(Some(vec![102]));
    negotiation.claimed(true);
    assert!(matches!(negotiation.stage, LeaseStage::Granted));
    assert_eq!(
        negotiation.granted,
        vec![
            LeaseGrant { connector: 8, crtc: 51, plane: 101 },
            LeaseGrant { connector: 9, crtc: 50, plane: 102 },
        ]
    );
}

#[test]
fn an_empty_request_is_granted() {
    let negotiation = lease_device().lease_request(1, Vec::new());
    assert!(matches!(negotiation.stage, LeaseStage::Granted));
    assert!(negotiation.granted.is_empty());
}

#[test]
fn a_lease_is_turned_down_at_the_first_obstacle() {
    let udev = lease_device();
    assert_eq!(rejected(&udev.lease_request(1, vec![7, 9])), Some(false));
    let mut unreadable = udev.lease_request(1, vec![9]);
    unreadable.planes(None);
    assert_eq!(rejected(&unreadable), Some(true));
    let mut without_planes = udev.lease_request(1, vec![9]);
    without_planes.planes(Some(Vec::new()));
    assert_eq!(rejected(&without_planes), Some(false));
    let mut all_taken = udev.lease_request(1, vec![9]);
    all_taken.planes(Some(vec![100]));
    all_taken.claimed(false);
    assert_eq!(rejected(&all_taken), Some(false));
    let mut second_unknown = udev.lease_request(1, vec![9, 7]);
    second_unknown.planes(Some(vec![100]));
    second_unknown.claimed(true);
    assert_eq!(rejected(&second_unknown), Some(false));
}

#[test]
fn an_ended_lease_is_forgotten() {
    let mut udev = lease_device();
    for lease in [4, 5, 4, 6] {
        udev.new_active_lease(1, lease);
    }
    assert_eq!(udev.devices[&1].active_leases, vec![4, 5, 4, 6]);
    udev.lease_destroyed(1, 4);
    assert_eq!(udev.devices[&1].active_leases, vec![5, 6]);
    udev.lease_destroyed(1, 99);
    assert_eq!(udev.devices[&1].active_leases, vec![5, 6]);
}

#[test]
fn the_backend_in_use_is_handed_out() {
    let mut backend = Backend::Udev(lease_device());
    backend.udev().new_active_lease(1, 3);
    assert_eq!(backend.udev().devices[&1].active_leases, vec![3]);
}
