use evremap_config::deviceinfo::{
    event_number_from_path, has_duplicate_name, is_event_node_name, resolve_device,
    should_display_name_warning, sort_devices, DeviceInfo, DeviceInfoError,
};

fn dev(name: &str, phys: Option<&str>, path: &str) -> DeviceInfo {
    DeviceInfo {
        name: name.to_string(),
        phys: phys.map(|p| p.to_string()),
        path: path.to_string(),
        supports_remap: true,
    }
}

fn paths(devices: &[DeviceInfo]) -> Vec<String> {
    devices.iter().map(|d| d.path.clone()).collect()
}

#[test]
fn event_number_reads_the_suffix() {
    assert_eq!(event_number_from_path("/dev/input/event12"), 12);
    assert_eq!(event_number_from_path("/dev/input/event0"), 0);
    assert_eq!(event_number_from_path("/dev/input/event+7"), 7);
    assert_eq!(event_number_from_path("/dev/input/event4294967295"), 4294967295);
}

#[test]
fn event_number_defaults_to_zero() {
    assert_eq!(event_number_from_path("/dev/input/mouse3"), 0);
    assert_eq!(event_number_from_path("/dev/input/event"), 0);
    assert_eq!(event_number_from_path("/dev/input/event+"), 0);
    assert_eq!(event_number_from_path("/dev/input/event-1"), 0);
    assert_eq!(event_number_from_path("/dev/input/event4294967296"), 0);
    assert_eq!(event_number_from_path("/dev/input/event7x"), 0);
    assert_eq!(event_number_from_path(""), 0);
}

#[test]
fn event_number_uses_the_last_occurrence() {
    assert_eq!(event_number_from_path("/tmp/event5/event9"), 9);
    assert_eq!(event_number_from_path("/tmp/event5/eventx"), 0);
}

#[test]
fn node_names_need_prefix_and_number() {
    assert!(is_event_node_name("event3"));
    assert!(is_event_node_name("event15"));
    assert!(!is_event_node_name("mouse0"));
    assert!(!is_event_node_name("event"));
    assert!(!is_event_node_name("eventx"));
    assert!(!is_event_node_name("by-id"));
}

#[test]
fn devices_sorted_by_name_then_unit_number() {
    let mut devices = vec![
        dev("Keyboard", None, "/dev/input/event10"),
        dev("Mouse", None, "/dev/input/event1"),
        dev("Keyboard", None, "/dev/input/event2"),
        dev("Consumer Control", None, "/dev/input/event7"),
    ];
    sort_devices(&mut devices);
    assert_eq!(
        paths(&devices),
        vec![
            "/dev/input/event7",
            "/dev/input/event2",
            "/dev/input/event10",
            "/dev/input/event1",
        ]
    );
}

#[test]
fn device_order_is_the_same_for_any_discovery_order() {
    let a = vec![
        dev("b", None, "/dev/input/event3"),
        dev("a", None, "/dev/input/event9"),
        dev("b", None, "/dev/input/event1"),
        dev("a", None, "/dev/input/event11"),
    ];
    let mut b = a.clone();
    b.reverse();
    let mut c = vec![a[2].clone(), a[0].clone(), a[3].clone(), a[1].clone()];
    let mut a = a;
    sort_devices(&mut a);
    sort_devices(&mut b);
    sort_devices(&mut c);
    let expected = vec![
        "/dev/input/event9",
        "/dev/input/event11",
        "/dev/input/event1",
        "/dev/input/event3",
    ];
    assert_eq!(paths(&a), expected);
    assert_eq!(paths(&b), expected);
    assert_eq!(paths(&c), expected);
}

#[test]
fn sorting_no_devices_or_one_device() {
    let mut none: Vec<DeviceInfo> = Vec::new();
    sort_devices(&mut none);
    assert!(none.is_empty());
    let mut one = vec![dev("x", None, "/dev/input/event0")];
    sort_devices(&mut one);
    assert_eq!(paths(&one), vec!["/dev/input/event0"]);
}

#[test]
fn shared_name_without_phys_resolves_to_first_listed() {
    let devices = vec![
        dev("Keyboard", Some("usb-1/input0"), "/dev/input/event2"),
        dev("Keyboard", Some("usb-2/input0"), "/dev/input/event5"),
        dev("Mouse", None, "/dev/input/event6"),
        dev("Keyboard", None, "/dev/input/event8"),
    ];
    let r = resolve_device(&devices, &"Keyboard".to_string(), &None).unwrap();
    assert_eq!(r.index, 0);
    assert_eq!(r.other_candidates, vec![1, 3]);
}

#[test]
fn unique_name_resolves_without_other_candidates() {
    let devices = vec![dev("Keyboard", None, "/dev/input/event2"), dev("Mouse", None, "/dev/input/event6")];
    let r = resolve_device(&devices, &"Mouse".to_string(), &None).unwrap();
    assert_eq!(r.index, 1);
    assert!(r.other_candidates.is_empty());
}

#[test]
fn unmatched_phys_is_not_found_even_if_name_exists() {
    let devices = vec![dev("Keyboard", Some("usb-1/input0"), "/dev/input/event2")];
    let r = resolve_device(&devices, &"Keyboard".to_string(), &Some("usb-9/input0".to_string()));
    match r {
        Err(DeviceInfoError::NotFoundByNamePhys(n, p)) => {
            assert_eq!(n, "Keyboard");
            assert_eq!(p, "usb-9/input0");
        }
        other => panic!("unexpected {:?}", other),
    }
}

#[test]
fn matching_phys_resolves_to_that_device() {
    let devices = vec![
        dev("Keyboard", Some("usb-1/input0"), "/dev/input/event2"),
        dev("Keyboard", Some("usb-2/input0"), "/dev/input/event5"),
    ];
    let r = resolve_device(&devices, &"Keyboard".to_string(), &Some("usb-2/input0".to_string()))
        .unwrap();
    assert_eq!(r.index, 1);
    assert!(r.other_candidates.is_empty());
}

#[test]
fn unknown_name_is_not_found_by_name() {
    let devices = vec![dev("Keyboard", None, "/dev/input/event2")];
    match resolve_device(&devices, &"Pedal".to_string(), &None) {
        Err(DeviceInfoError::NotFoundByName(n)) => assert_eq!(n, "Pedal"),
        other => panic!("unexpected {:?}", other),
    }
    match resolve_device(&Vec::new(), &"Pedal".to_string(), &None) {
        Err(DeviceInfoError::NotFoundByName(n)) => assert_eq!(n, "Pedal"),
        other => panic!("unexpected {:?}", other),
    }
}

#[test]
fn warning_only_for_shared_name_without_phys() {
    let devices = vec![
        dev("Keyboard", None, "/dev/input/event2"),
        dev("Mouse", None, "/dev/input/event3"),
        dev("Keyboard", None, "/dev/input/event4"),
    ];
    let kb = "Keyboard".to_string();
    assert!(has_duplicate_name(&devices, &kb));
    assert!(!has_duplicate_name(&devices, &"Mouse".to_string()));
    assert!(should_display_name_warning(&devices, &kb, &String::new()));
    assert!(!should_display_name_warning(&devices, &kb, &"usb-1".to_string()));
    assert!(!should_display_name_warning(&devices, &"Mouse".to_string(), &String::new()));
}

#[test]
fn devices_with_equal_keys_keep_discovery_order() {
    let mut devices = vec![
        dev("Pad", None, "/dev/input/eventB"),
        dev("Pad", None, "/dev/input/event0"),
        dev("Pad", None, "/dev/input/eventA"),
    ];
    sort_devices(&mut devices);
    assert_eq!(paths(&devices), vec!["/dev/input/eventB", "/dev/input/event0", "/dev/input/eventA"]);
}
