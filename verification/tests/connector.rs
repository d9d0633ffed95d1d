use projectwc::backend::connector::{
    connector_name, initial_mode, mode_from, non_desktop, ConnectorInfo, ConnectorMode, Mode,
    Property, PropertyInfo, PropertyKind, Timings,
};

const FULL_HD: Timings = Timings {
    width: 1920,
    height: 1080,
    clock: 148_500,
    htotal: 2200,
    vtotal: 1125,
    vscan: 0,
    flags: 0,
};

fn mode(width: u16, mode_type: u32) -> ConnectorMode {
    ConnectorMode { timings: Timings { width, ..FULL_HD }, mode_type }
}

fn with_properties(properties: Option<Vec<Property>>) -> ConnectorInfo {
    ConnectorInfo {
        handle: 1,
        interface: 10,
        interface_id: 1,
        size: None,
        modes: Vec::new(),
        properties,
        display: None,
    }
}

fn property(name: Option<&str>, kind: PropertyKind, value: u64) -> Property {
    Property { info: Some(PropertyInfo { name: name.map(String::from), kind }), value }
}

#[test]
fn connectors_are_named_by_type_and_number() {
    let names = [
        (0, "Unknown"), (1, "VGA"), (2, "DVI-I"), (3, "DVI-D"), (4, "DVI-A"), (5, "Composite"),
        (6, "SVIDEO"), (7, "LVDS"), (8, "Component"), (9, "DIN"), (10, "DP"), (11, "HDMI-A"),
        (12, "HDMI-B"), (13, "TV"), (14, "eDP"), (15, "Virtual"), (16, "DSI"), (17, "DPI"),
        (18, "Writeback"), (19, "SPI"), (20, "USB"), (21, "Unknown"), (u32::MAX, "Unknown"),
    ];
    for (kind, name) in names {
        assert_eq!(connector_name(kind, 1), format!("{name}-1"));
    }
    assert_eq!(connector_name(11, 0), "HDMI-A-0");
    assert_eq!(connector_name(14, 4_294_967_295), "eDP-4294967295");
}

#[test]
fn different_connectors_have_different_names() {
    assert_ne!(connector_name(2, 1), connector_name(3, 1));
    assert_ne!(connector_name(10, 1), connector_name(10, 11));
    assert_eq!(connector_name(0, 7), connector_name(99, 7));
}

#[test]
fn the_first_preferred_mode_is_picked() {
    assert_eq!(initial_mode(&vec![mode(1, 0), mode(2, 8), mode(3, 8)]), 1);
    assert_eq!(initial_mode(&vec![mode(1, 64), mode(2, 72)]), 1);
    assert_eq!(initial_mode(&vec![mode(1, 64), mode(2, 16)]), 0);
    assert_eq!(initial_mode(&Vec::new()), 0);
}

#[test]
fn a_headset_is_no_desktop() {
    let set = vec![
        property(Some("DPMS"), PropertyKind::Other, 3),
        property(Some("non-desktop"), PropertyKind::Boolean, 1),
    ];
    assert!(non_desktop(&with_properties(Some(set))));
    let any = vec![property(Some("non-desktop"), PropertyKind::Boolean, 77)];
    assert!(non_desktop(&with_properties(Some(any))));
    let unset = vec![property(Some("non-desktop"), PropertyKind::Boolean, 0)];
    assert!(!non_desktop(&with_properties(Some(unset))));
}

#[test]
fn only_a_readable_boolean_marks_a_headset() {
    assert!(!non_desktop(&with_properties(None)));
    assert!(!non_desktop(&with_properties(Some(Vec::new()))));
    let other = vec![property(Some("non-desktop"), PropertyKind::Other, 1)];
    assert!(!non_desktop(&with_properties(Some(other))));
    let unnamed = vec![property(None, PropertyKind::Boolean, 1)];
    assert!(!non_desktop(&with_properties(Some(unnamed))));
    let unreadable = vec![
        Property { info: None, value: 1 },
        property(Some("non-desktop"), PropertyKind::Boolean, 1),
    ];
    assert!(non_desktop(&with_properties(Some(unreadable))));
    let first_counts = vec![
        property(Some("non-desktop"), PropertyKind::Boolean, 0),
        property(Some("non-desktop"), PropertyKind::Boolean, 1),
    ];
    assert!(!non_desktop(&with_properties(Some(first_counts))));
}

#[test]
fn a_mode_is_worked_out_from_its_timings() {
    assert_eq!(mode_from(FULL_HD), Mode { width: 1920, height: 1080, refresh: 60_000 });
    let film = Timings { clock: 74_176, htotal: 2750, ..FULL_HD };
    assert_eq!(mode_from(film).refresh, 23_976);
    let vesa = Timings { width: 800, height: 600, clock: 40_000, htotal: 1056, vtotal: 628, ..FULL_HD };
    assert_eq!(mode_from(vesa), Mode { width: 800, height: 600, refresh: 60_317 });
}

#[test]
fn interlaced_and_doubled_lines_count() {
    assert_eq!(mode_from(Timings { flags: 16, ..FULL_HD }).refresh, 120_000);
    assert_eq!(mode_from(Timings { flags: 32, ..FULL_HD }).refresh, 30_000);
    assert_eq!(mode_from(Timings { flags: 48, ..FULL_HD }).refresh, 60_000);
    assert_eq!(mode_from(Timings { flags: 15, ..FULL_HD }).refresh, 60_000);
    assert_eq!(mode_from(Timings { vscan: 1, ..FULL_HD }).refresh, 60_000);
    assert_eq!(mode_from(Timings { vscan: 3, ..FULL_HD }).refresh, 20_000);
    assert_eq!(mode_from(Timings { clock: 0, ..FULL_HD }).refresh, 0);
}
