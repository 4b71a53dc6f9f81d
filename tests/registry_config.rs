use evremap_config::config_file::{ConfigFile, DualRoleConfig, RemapConfig};
use evremap_config::key_code::{KeyCode, KEY_LEFTCTRL, KEY_LEFTSHIFT};
use evremap_config::key_combo::KeyCombination;
use evremap_config::key_registry::{KeyName, KeyRegistry};

fn entry(code: u16, name: &str) -> KeyName {
    KeyName { code: KeyCode(code), name: name.to_string() }
}

fn registry() -> KeyRegistry {
    KeyRegistry::new(vec![
        entry(0, "KEY_RESERVED"),
        entry(1, "KEY_ESC"),
        entry(2, "KEY_1"),
        entry(30, "KEY_A"),
        entry(256, "BTN_0"),
        entry(48, "KEY_B"),
    ])
}

#[test]
fn registry_lists_keys_in_name_order() {
    let r = registry();
    assert_eq!(r.len(), 6);
    assert_eq!(
        r.list_keynames_iter(),
        vec!["BTN_0", "KEY_1", "KEY_A", "KEY_B", "KEY_ESC", "KEY_RESERVED"]
    );
    assert_eq!(
        r.list_keycodes(),
        vec![KeyCode(256), KeyCode(2), KeyCode(30), KeyCode(48), KeyCode(1), KeyCode(0)]
    );
    assert_eq!(r.key_at(2), KeyCode(30));
}

#[test]
fn registry_finds_keys_by_name() {
    let r = registry();
    assert_eq!(r.find_by_name(&"KEY_ESC".to_string()), Some(KeyCode(1)));
    assert_eq!(r.find_by_name(&"KEY_Z".to_string()), None);
    assert_eq!(r.find_by_name(&String::new()), None);
}

#[test]
fn empty_registry() {
    let r = KeyRegistry::new(Vec::new());
    assert_eq!(r.len(), 0);
    assert!(r.list_keycodes().is_empty());
}

#[test]
fn new_dual_role_entry_uses_first_registry_key() {
    let d = DualRoleConfig::default_for(&registry());
    assert_eq!(d.input, KeyCode(256));
    assert!(d.hold.is_empty());
    assert!(d.tap.is_empty());
}

#[test]
fn empty_fields_become_unset() {
    let c = ConfigFile::from_parts(String::new(), String::new(), Vec::new(), Vec::new());
    assert!(c.device_name.is_none());
    assert!(c.phys.is_none());
    let c = ConfigFile::from_parts("Keyboard".to_string(), "usb-1".to_string(), Vec::new(), Vec::new());
    assert_eq!(c.device_name.as_deref(), Some("Keyboard"));
    assert_eq!(c.phys.as_deref(), Some("usb-1"));
}

#[test]
fn remap_entries_store_the_canonical_sequence() {
    let input = KeyCombination::from_keys(&[KeyCode(30), KeyCode(KEY_LEFTSHIFT), KeyCode(30)]);
    let output = KeyCombination::from_keys(&[KeyCode(48), KeyCode(KEY_LEFTCTRL)]);
    let r = RemapConfig::from_combinations(&input, &output);
    assert_eq!(r.input, vec![KeyCode(KEY_LEFTSHIFT), KeyCode(30)]);
    assert_eq!(r.output, vec![KeyCode(KEY_LEFTCTRL), KeyCode(48)]);
    let stored = RemapConfig { input: vec![KeyCode(30), KeyCode(KEY_LEFTCTRL), KeyCode(KEY_LEFTSHIFT)], output: vec![] };
    let (i, o) = stored.combinations();
    assert_eq!(i.to_keys(), vec![KeyCode(KEY_LEFTCTRL), KeyCode(KEY_LEFTSHIFT), KeyCode(30)]);
    assert!(o.to_keys().is_empty());
}

#[test]
fn dual_role_entries_store_the_canonical_sequences() {
    let hold = KeyCombination::from_keys(&[KeyCode(KEY_LEFTSHIFT), KeyCode(KEY_LEFTCTRL)]);
    let tap = KeyCombination::from_keys(&[KeyCode(1)]);
    let d = DualRoleConfig::from_combinations(KeyCode(58), &hold, &tap);
    assert_eq!(d.input, KeyCode(58));
    assert_eq!(d.hold, vec![KeyCode(KEY_LEFTCTRL), KeyCode(KEY_LEFTSHIFT)]);
    assert_eq!(d.tap, vec![KeyCode(1)]);
    let (h, t) = d.combinations();
    assert_eq!(h.to_keys(), d.hold);
    assert_eq!(t.to_keys(), d.tap);
}

#[test]
fn registry_keeps_given_order_for_equal_names() {
    let r = KeyRegistry::new(vec![entry(7, "KEY_X"), entry(3, "KEY_A"), entry(5, "KEY_X")]);
    assert_eq!(r.list_keycodes(), vec![KeyCode(3), KeyCode(7), KeyCode(5)]);
}
