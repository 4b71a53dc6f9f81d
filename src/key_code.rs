//! Key identifiers and the fixed table of modifier keys.
use vstd::prelude::*;

verus! {

/// An input-layer key identifier: the numeric code of an `EV_KEY` event.
#[derive(Clone, Copy, Debug, PartialEq, Eq, Structural, Hash)]
pub struct KeyCode(pub u16);

pub const KEY_FN: u16 = 464;
pub const KEY_LEFTALT: u16 = 56;
pub const KEY_RIGHTALT: u16 = 100;
pub const KEY_LEFTMETA: u16 = 125;
pub const KEY_RIGHTMETA: u16 = 126;
pub const KEY_LEFTCTRL: u16 = 29;
pub const KEY_RIGHTCTRL: u16 = 97;
pub const KEY_LEFTSHIFT: u16 = 42;
pub const KEY_RIGHTSHIFT: u16 = 54;

/// The code of the modifier at position `i` of the declared order
/// FN, LEFTALT, RIGHTALT, LEFTMETA, RIGHTMETA, LEFTCTRL, RIGHTCTRL,
/// LEFTSHIFT, RIGHTSHIFT.
pub open spec fn modifier_code(i: int) -> u16 {
    if i == 0 {
        KEY_FN
    } else if i == 1 {
        KEY_LEFTALT
    } else if i == 2 {
        KEY_RIGHTALT
    } else if i == 3 {
        KEY_LEFTMETA
    } else if i == 4 {
        KEY_RIGHTMETA
    } else if i == 5 {
        KEY_LEFTCTRL
    } else if i == 6 {
        KEY_RIGHTCTRL
    } else if i == 7 {
        KEY_LEFTSHIFT
    } else {
        KEY_RIGHTSHIFT
    }
}

/// The modifier key at position `i` of the declared order.
pub open spec fn modifier_key(i: int) -> KeyCode {
    KeyCode(modifier_code(i))
}

/// Position of `k` in the declared modifier order, or -1 for other keys.
pub open spec fn modifier_index(k: KeyCode) -> int {
    if k.0 == KEY_FN {
        0
    } else if k.0 == KEY_LEFTALT {
        1
    } else if k.0 == KEY_RIGHTALT {
        2
    } else if k.0 == KEY_LEFTMETA {
        3
    } else if k.0 == KEY_RIGHTMETA {
        4
    } else if k.0 == KEY_LEFTCTRL {
        5
    } else if k.0 == KEY_RIGHTCTRL {
        6
    } else if k.0 == KEY_LEFTSHIFT {
        7
    } else if k.0 == KEY_RIGHTSHIFT {
        8
    } else {
        -1
    }
}

/// Whether `k` is one of the nine modifier keys.
pub open spec fn is_modifier_key(k: KeyCode) -> bool {
    modifier_index(k) >= 0
}

/// The modifier table is a bijection between positions 0..9 and the
/// modifier keys.
pub proof fn lemma_modifier_table(i: int, k: KeyCode)
    ensures
        0 <= i < 9 ==> modifier_index(modifier_key(i)) == i,
        0 <= i < 9 ==> is_modifier_key(modifier_key(i)),
        is_modifier_key(k) ==> modifier_index(k) < 9 && modifier_key(modifier_index(k)) == k,
{
}

/// Whether `key` is one of the nine modifier keys.
pub fn is_modifier(key: &KeyCode) -> (r: bool)
    ensures
        r == is_modifier_key(*key),
{
    let c = key.0;
    c == KEY_FN || c == KEY_LEFTALT || c == KEY_RIGHTALT || c == KEY_LEFTMETA || c
        == KEY_RIGHTMETA || c == KEY_LEFTCTRL || c == KEY_RIGHTCTRL || c == KEY_LEFTSHIFT || c
        == KEY_RIGHTSHIFT
}

/// The modifier at position `i` of the declared order.
pub fn modifier_at(i: usize) -> (r: KeyCode)
    requires
        i < 9,
    ensures
        r == modifier_key(i as int),
{
    if i == 0 {
        KeyCode(KEY_FN)
    } else if i == 1 {
        KeyCode(KEY_LEFTALT)
    } else if i == 2 {
        KeyCode(KEY_RIGHTALT)
    } else if i == 3 {
        KeyCode(KEY_LEFTMETA)
    } else if i == 4 {
        KeyCode(KEY_RIGHTMETA)
    } else if i == 5 {
        KeyCode(KEY_LEFTCTRL)
    } else if i == 6 {
        KeyCode(KEY_RIGHTCTRL)
    } else if i == 7 {
        KeyCode(KEY_LEFTSHIFT)
    } else {
        KeyCode(KEY_RIGHTSHIFT)
    }
}

} // verus!
