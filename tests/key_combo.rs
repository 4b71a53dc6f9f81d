use evremap_config::key_code::{
    is_modifier, modifier_at, KeyCode, KEY_FN, KEY_LEFTALT, KEY_LEFTCTRL, KEY_LEFTMETA,
    KEY_LEFTSHIFT, KEY_RIGHTALT, KEY_RIGHTCTRL, KEY_RIGHTMETA, KEY_RIGHTSHIFT,
};
use evremap_config::key_combo::{KeyCombination, ModifierKeysMask};

const KEY_A: u16 = 30;
const KEY_B: u16 = 48;
const KEY_C: u16 = 46;

fn k(c: u16) -> KeyCode {
    KeyCode(c)
}

fn all_modifiers() -> Vec<KeyCode> {
    vec![
        k(KEY_FN),
        k(KEY_LEFTALT),
        k(KEY_RIGHTALT),
        k(KEY_LEFTMETA),
        k(KEY_RIGHTMETA),
        k(KEY_LEFTCTRL),
        k(KEY_RIGHTCTRL),
        k(KEY_LEFTSHIFT),
        k(KEY_RIGHTSHIFT),
    ]
}

#[test]
fn push_shift_a_ctrl_flattens_to_ctrl_shift_a() {
    let mut c = KeyCombination::new();
    c.push(k(KEY_LEFTSHIFT));
    c.push(k(KEY_A));
    c.push(k(KEY_LEFTCTRL));
    assert_eq!(c.to_keys(), vec![k(KEY_LEFTCTRL), k(KEY_LEFTSHIFT), k(KEY_A)]);
    assert_eq!(c.iter(), c.to_keys());
}

#[test]
fn pop_takes_ordinary_key_then_shift_before_ctrl() {
    let mut c = KeyCombination::from_keys(&[k(KEY_LEFTCTRL), k(KEY_LEFTSHIFT), k(KEY_A)]);
    assert_eq!(c.pop(), Some(k(KEY_A)));
    assert_eq!(c.to_keys(), vec![k(KEY_LEFTCTRL), k(KEY_LEFTSHIFT)]);
    assert_eq!(c.pop(), Some(k(KEY_LEFTSHIFT)));
    assert_eq!(c.to_keys(), vec![k(KEY_LEFTCTRL)]);
    assert_eq!(c.pop(), Some(k(KEY_LEFTCTRL)));
    assert_eq!(c.pop(), None);
    assert!(c.to_keys().is_empty());
}

#[test]
fn modifier_insertion_order_does_not_matter() {
    let forward = all_modifiers();
    let mut backward = all_modifiers();
    backward.reverse();
    let shuffled = vec![
        k(KEY_RIGHTCTRL),
        k(KEY_FN),
        k(KEY_RIGHTSHIFT),
        k(KEY_LEFTMETA),
        k(KEY_LEFTALT),
        k(KEY_LEFTSHIFT),
        k(KEY_RIGHTMETA),
        k(KEY_LEFTCTRL),
        k(KEY_RIGHTALT),
    ];
    let a = KeyCombination::from_keys(&forward).to_keys();
    let b = KeyCombination::from_keys(&backward).to_keys();
    let mut pushed = KeyCombination::new();
    for key in &shuffled {
        pushed.push(*key);
    }
    assert_eq!(a, all_modifiers());
    assert_eq!(b, all_modifiers());
    assert_eq!(pushed.to_keys(), all_modifiers());
}

#[test]
fn duplicate_keys_listed_once_in_first_seen_order() {
    let input = [k(KEY_B), k(KEY_A), k(KEY_B), k(KEY_LEFTALT), k(KEY_C), k(KEY_A), k(KEY_LEFTALT)];
    let mut pushed = KeyCombination::new();
    for key in &input {
        pushed.push(*key);
    }
    let expected = vec![k(KEY_LEFTALT), k(KEY_B), k(KEY_A), k(KEY_C)];
    assert_eq!(pushed.to_keys(), expected);
    assert_eq!(KeyCombination::from_keys(&input).to_keys(), expected);
}

#[test]
fn pop_removes_ordinary_keys_last_in_first_out() {
    let mut c = KeyCombination::new();
    c.push(k(KEY_A));
    c.push(k(KEY_RIGHTSHIFT));
    c.push(k(KEY_B));
    c.push(k(KEY_C));
    assert_eq!(c.pop(), Some(k(KEY_C)));
    assert_eq!(c.pop(), Some(k(KEY_B)));
    assert_eq!(c.pop(), Some(k(KEY_A)));
    assert_eq!(c.pop(), Some(k(KEY_RIGHTSHIFT)));
    assert_eq!(c.pop(), None);
}

#[test]
fn pop_removes_modifiers_in_reverse_declared_order() {
    let mut c = KeyCombination::new();
    // Added in an order unrelated to the declared one.
    for key in [
        k(KEY_RIGHTSHIFT),
        k(KEY_FN),
        k(KEY_LEFTCTRL),
        k(KEY_RIGHTALT),
        k(KEY_LEFTSHIFT),
        k(KEY_RIGHTMETA),
        k(KEY_LEFTALT),
        k(KEY_RIGHTCTRL),
        k(KEY_LEFTMETA),
    ] {
        c.push(key);
    }
    let mut popped = Vec::new();
    while let Some(key) = c.pop() {
        popped.push(key);
    }
    assert_eq!(
        popped,
        vec![
            k(KEY_RIGHTSHIFT),
            k(KEY_LEFTSHIFT),
            k(KEY_RIGHTCTRL),
            k(KEY_LEFTCTRL),
            k(KEY_RIGHTMETA),
            k(KEY_LEFTMETA),
            k(KEY_RIGHTALT),
            k(KEY_LEFTALT),
            k(KEY_FN),
        ]
    );
}

#[test]
fn pop_prefers_later_declared_modifier_over_later_pressed() {
    let mut c = KeyCombination::new();
    c.push(k(KEY_RIGHTSHIFT));
    c.push(k(KEY_FN));
    assert_eq!(c.pop(), Some(k(KEY_RIGHTSHIFT)));
    assert_eq!(c.pop(), Some(k(KEY_FN)));
}

#[test]
fn clear_then_iter_is_empty() {
    let mut c = KeyCombination::from_keys(&[k(KEY_LEFTMETA), k(KEY_A), k(KEY_B)]);
    c.clear();
    assert!(c.iter().is_empty());
    assert_eq!(c.pop(), None);
}

#[test]
fn empty_combination_pops_nothing() {
    let mut c = KeyCombination::new();
    assert_eq!(c.pop(), None);
    assert!(c.to_keys().is_empty());
}

#[test]
fn pushing_a_present_key_or_modifier_again_changes_nothing() {
    let mut c = KeyCombination::new();
    c.push(k(KEY_A));
    c.push(k(KEY_LEFTSHIFT));
    c.push(k(KEY_A));
    c.push(k(KEY_LEFTSHIFT));
    assert_eq!(c.to_keys(), vec![k(KEY_LEFTSHIFT), k(KEY_A)]);
}

#[test]
fn classifies_the_nine_modifiers() {
    for (i, key) in all_modifiers().iter().enumerate() {
        assert!(is_modifier(key));
        assert_eq!(modifier_at(i), *key);
    }
    assert!(!is_modifier(&k(KEY_A)));
    assert!(!is_modifier(&k(0)));
}

#[test]
fn mask_add_remove_contains_and_order() {
    let mut m = ModifierKeysMask::empty();
    assert!(m.is_empty());
    m.add(k(KEY_RIGHTALT));
    m.add(k(KEY_FN));
    m.add(k(KEY_A));
    assert!(m.contains(k(KEY_FN)));
    assert!(m.contains(k(KEY_RIGHTALT)));
    assert!(!m.contains(k(KEY_A)));
    assert!(!m.contains(k(KEY_LEFTALT)));
    assert_eq!(m.into_iter(), vec![k(KEY_FN), k(KEY_RIGHTALT)]);
    m.remove(k(KEY_FN));
    assert_eq!(m.into_iter(), vec![k(KEY_RIGHTALT)]);
    m.remove(k(KEY_A));
    assert_eq!(m.pop(), Some(k(KEY_RIGHTALT)));
    assert_eq!(m.pop(), None);
    assert!(m.is_empty());
}
