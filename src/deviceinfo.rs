//! Input devices: their description, the deterministic order in which they
//! are listed, and resolution of a configured device by name and port.
use vstd::prelude::*;
use vstd::utf8::encode_utf8;

use crate::order::{
    bytes_lt, class_of, compare_bytes, equivalent, insertion_sort, lemma_bytes_order, sorted_by_le,
    SortKey,
};

verus! {

/// One input device node.
#[derive(Clone, Debug)]
pub struct DeviceInfo {
    /// Display name reported by the device.
    pub name: String,
    /// Stable hardware-port identifier, when the device reports one.
    pub phys: Option<String>,
    /// Filesystem path of the device node.
    pub path: String,
    /// Whether the device reports key events, which makes it a remap target.
    pub supports_remap: bool,
}

/// Why a device could not be listed, opened or found.
#[derive(Clone, Debug)]
pub enum DeviceInfoError {
    /// The device node at the path could not be opened; the message says why.
    FileOpen(String, String),
    /// The device directory could not be read.
    Io(String),
    /// The device was opened but could not be queried.
    Evdev(String),
    /// No device has the requested name.
    NotFoundByName(String),
    /// No device has the requested port identifier (name, phys).
    NotFoundByNamePhys(String, String),
}

// ---------------------------------------------------------------------------
// Event numbers: "/dev/input/event12" has number 12.

/// `c` is an ASCII decimal digit.
pub open spec fn is_digit(c: u8) -> bool {
    48 <= c <= 57
}

/// Every byte of `d` is a decimal digit.
pub open spec fn all_digits(d: Seq<u8>) -> bool {
    forall|i: int| 0 <= i < d.len() ==> is_digit(#[trigger] d[i])
}

/// The number written by the decimal digits `d`.
pub open spec fn decimal_value(d: Seq<u8>) -> nat
    decreases d.len(),
{
    if d.len() == 0 {
        0
    } else {
        decimal_value(d.drop_last()) * 10 + (d.last() - 48) as nat
    }
}

/// `d` without one leading `+`.
pub open spec fn unsigned_digits(d: Seq<u8>) -> Seq<u8> {
    if d.len() > 0 && d[0] == 43 {
        d.drop_first()
    } else {
        d
    }
}

/// How `u32`'s `from_str` reads `d`: an optional `+`, then one or more
/// decimal digits whose value fits in 32 bits.
pub open spec fn parse_u32_spec(d: Seq<u8>) -> Option<u32> {
    let digits = unsigned_digits(d);
    if digits.len() > 0 && all_digits(digits) && decimal_value(digits) <= u32::MAX {
        Some(decimal_value(digits) as u32)
    } else {
        None
    }
}

/// The bytes of `event` start at position `i` of `b`.
pub open spec fn event_at(b: Seq<u8>, i: int) -> bool {
    &&& 0 <= i
    &&& i + 5 <= b.len()
    &&& b[i] == 101
    &&& b[i + 1] == 118
    &&& b[i + 2] == 101
    &&& b[i + 3] == 110
    &&& b[i + 4] == 116
}

/// The last position at or before `i` where `event` starts, or -1.
pub open spec fn last_event_at(b: Seq<u8>, i: int) -> int
    decreases i + 1,
{
    if i < 0 {
        -1
    } else if event_at(b, i) {
        i
    } else {
        last_event_at(b, i - 1)
    }
}

/// The number after the last `event` in the path `b`, or 0 when there is
/// none or it does not read as a `u32`.
pub open spec fn event_number_of(b: Seq<u8>) -> u32 {
    let p = last_event_at(b, b.len() - 5);
    if p < 0 {
        0
    } else {
        match parse_u32_spec(b.subrange(p + 5, b.len() as int)) {
            Some(v) => v,
            None => 0,
        }
    }
}

proof fn lemma_last_event_at(b: Seq<u8>, i: int)
    ensures
        last_event_at(b, i) < 0 || (last_event_at(b, i) <= i && event_at(b, last_event_at(b, i))),
    decreases i + 1,
{
    if i >= 0 && !event_at(b, i) {
        lemma_last_event_at(b, i - 1);
    }
}

proof fn lemma_decimal_prefix(d: Seq<u8>, k: int)
    requires
        0 <= k <= d.len(),
    ensures
        decimal_value(d.subrange(0, k)) <= decimal_value(d),
    decreases d.len(),
{
    if k < d.len() {
        assert(d.drop_last().subrange(0, k) =~= d.subrange(0, k));
        lemma_decimal_prefix(d.drop_last(), k);
    } else {
        assert(d.subrange(0, k) =~= d);
    }
}

/// Reads `b[start..]` as `u32`'s `from_str` does.
fn parse_u32_from(b: &[u8], start: usize) -> (r: Option<u32>)
    requires
        start <= b@.len(),
    ensures
        r == parse_u32_spec(b@.subrange(start as int, b@.len() as int)),
{
    let ghost whole = b@.subrange(start as int, b@.len() as int);
    let mut i: usize = start;
    if i < b.len() && b[i] == 43 {
        i += 1;
    }
    let first = i;
    let ghost digits = b@.subrange(first as int, b@.len() as int);
    assert(unsigned_digits(whole) =~= digits);
    if i >= b.len() {
        return None;
    }
    let mut acc: u64 = 0;
    while i < b.len()
        invariant
            first <= i <= b@.len(),
            digits == b@.subrange(first as int, b@.len() as int),
            whole == b@.subrange(start as int, b@.len() as int),
            unsigned_digits(whole) == digits,
            acc == decimal_value(b@.subrange(first as int, i as int)),
            acc <= u32::MAX,
            all_digits(b@.subrange(first as int, i as int)),
        decreases b@.len() - i,
    {
        let c = b[i];
        if c < 48 || c > 57 {
            assert(!is_digit(digits[i - first]));
            return None;
        }
        let ghost prev = b@.subrange(first as int, i as int);
        let ghost next = b@.subrange(first as int, i as int + 1);
        assert(next.drop_last() =~= prev);
        acc = acc * 10 + (c - 48) as u64;
        i += 1;
        assert(all_digits(next)) by {
            assert forall|k: int| 0 <= k < next.len() implies is_digit(#[trigger] next[k]) by {
                if k < prev.len() {
                    assert(next[k] == prev[k]);
                }
            }
        }
        if acc > 4294967295 {
            proof {
                if all_digits(digits) {
                    assert(digits.subrange(0, i - first) =~= next);
                    lemma_decimal_prefix(digits, i - first);
                }
            }
            return None;
        }
    }
    assert(b@.subrange(first as int, i as int) =~= digits);
    Some(acc as u32)
}

/// Position of the last `event` in `b`.
fn last_event_pos(b: &[u8]) -> (r: Option<usize>)
    ensures
        r.is_none() ==> last_event_at(b@, b@.len() - 5) < 0,
        r.is_some() ==> r.unwrap() == last_event_at(b@, b@.len() - 5),
{
    if b.len() < 5 {
        return None;
    }
    let mut k: usize = b.len() - 4;
    while k > 0
        invariant
            k <= b@.len() - 4,
            b@.len() >= 5,
            last_event_at(b@, b@.len() - 5) == last_event_at(b@, k - 1),
        decreases k,
    {
        let i = k - 1;
        if b[i] == 101 && b[i + 1] == 118 && b[i + 2] == 101 && b[i + 3] == 110 && b[i + 4] == 116 {
            return Some(i);
        }
        k -= 1;
    }
    None
}

/// The unit number of a device node path: the number after the last
/// `event` in it, 0 when there is none.
pub fn event_number_from_path(path: &str) -> (r: u32)
    ensures
        r == event_number_of(encode_utf8(path@)),
{
    let b = path.as_bytes();
    let n = b.len();
    match last_event_pos(b) {
        Some(p) => {
            proof {
                lemma_last_event_at(b@, b@.len() - 5);
                assert(event_at(b@, p as int));
                assert(p + 5 <= n);
            }
            match parse_u32_from(b, p + 5) {
                Some(v) => v,
                None => 0,
            }
        },
        None => 0,
    }
}

/// Whether a directory entry named `name` is a device node: `event`
/// followed by a unit number.
pub fn is_event_node_name(name: &str) -> (r: bool)
    ensures
        r == (event_at(encode_utf8(name@), 0) && parse_u32_spec(
            encode_utf8(name@).subrange(5, encode_utf8(name@).len() as int),
        ).is_some()),
{
    let b = name.as_bytes();
    if b.len() >= 5 && b[0] == 101 && b[1] == 118 && b[2] == 101 && b[3] == 110 && b[4] == 116 {
        parse_u32_from(b, 5).is_some()
    } else {
        false
    }
}

// ---------------------------------------------------------------------------
// Listing order: by name, then by unit number.

/// The bytes of the device's name, the primary sort key.
pub open spec fn name_key(d: DeviceInfo) -> Seq<u8> {
    encode_utf8(d.name@)
}

/// The unit number of the device's node, the secondary sort key.
pub open spec fn unit_number(d: DeviceInfo) -> u32 {
    event_number_of(encode_utf8(d.path@))
}

/// `a` is listed strictly before `b`: its name sorts first, or the names
/// are equal and its unit number is smaller.
pub open spec fn device_before(a: DeviceInfo, b: DeviceInfo) -> bool {
    bytes_lt(name_key(a), name_key(b)) || (name_key(a) == name_key(b) && unit_number(a)
        < unit_number(b))
}

/// `a` and `b` have the same sort key.
pub open spec fn same_device_key(a: DeviceInfo, b: DeviceInfo) -> bool {
    name_key(a) == name_key(b) && unit_number(a) == unit_number(b)
}

impl SortKey for DeviceInfo {
    open spec fn le(&self, other: &Self) -> bool {
        !device_before(*other, *self)
    }

    proof fn lemma_le_total(a: &Self, b: &Self) {
        lemma_bytes_order(name_key(*a), name_key(*b), name_key(*a));
    }

    proof fn lemma_le_transitive(a: &Self, b: &Self, c: &Self) {
        lemma_bytes_order(name_key(*a), name_key(*b), name_key(*c));
        lemma_bytes_order(name_key(*b), name_key(*c), name_key(*a));
        lemma_bytes_order(name_key(*c), name_key(*a), name_key(*b));
        lemma_bytes_order(name_key(*a), name_key(*c), name_key(*b));
        lemma_bytes_order(name_key(*b), name_key(*a), name_key(*c));
        lemma_bytes_order(name_key(*c), name_key(*b), name_key(*a));
    }

    fn is_le(&self, other: &Self) -> (r: bool) {
        let c = compare_bytes(self.name.as_str().as_bytes(), other.name.as_str().as_bytes());
        proof {
            lemma_bytes_order(name_key(*self), name_key(*other), name_key(*self));
        }
        if c < 0 {
            true
        } else if c > 0 {
            false
        } else {
            event_number_from_path(self.path.as_str()) <= event_number_from_path(
                other.path.as_str(),
            )
        }
    }
}

/// `s` is in listing order.
pub open spec fn in_listing_order(s: Seq<DeviceInfo>) -> bool {
    forall|i: int, j: int| 0 <= i < j < s.len() ==> !device_before(#[trigger] s[j], #[trigger] s[i])
}

/// The devices of `s` with the same sort key as `z`, in their order in `s`.
pub open spec fn same_key_devices(s: Seq<DeviceInfo>, z: DeviceInfo) -> Seq<DeviceInfo> {
    s.filter(|w: DeviceInfo| same_device_key(w, z))
}

proof fn lemma_classes_are_keys(s: Seq<DeviceInfo>, z: DeviceInfo)
    ensures
        class_of(s, z) == same_key_devices(s, z),
{
    assert forall|w: DeviceInfo| equivalent(w, z) == same_device_key(w, z) by {
        lemma_bytes_order(name_key(w), name_key(z), name_key(w));
    }
    assert((|w: DeviceInfo| equivalent(w, z)) =~= (|w: DeviceInfo| same_device_key(w, z)));
}

/// Puts `devices` in listing order: ascending by name, ties broken by
/// ascending unit number; devices with the same name and unit number keep
/// their relative order.
pub fn sort_devices(devices: &mut Vec<DeviceInfo>)
    ensures
        final(devices)@.to_multiset() == old(devices)@.to_multiset(),
        in_listing_order(final(devices)@),
        forall|z: DeviceInfo| #[trigger]
            same_key_devices(final(devices)@, z) == same_key_devices(old(devices)@, z),
{
    insertion_sort(devices);
    assert forall|z: DeviceInfo| #[trigger]
        same_key_devices(devices@, z) == same_key_devices(old(devices)@, z) by {
        lemma_classes_are_keys(devices@, z);
        lemma_classes_are_keys(old(devices)@, z);
        assert(class_of(devices@, z) == class_of(old(devices)@, z));
    }
    assert forall|i: int, j: int| 0 <= i < j < devices@.len() implies !device_before(
        #[trigger] devices@[j],
        #[trigger] devices@[i],
    ) by {
        assert(sorted_by_le(devices@));
        assert(devices@[i].le(&devices@[j]));
    }
}

/// Listing is deterministic: when no two devices share both name and unit
/// number, any two listings of the same devices, whatever order they were
/// found in, are identical.
pub proof fn lemma_listing_deterministic(
    found1: Seq<DeviceInfo>,
    found2: Seq<DeviceInfo>,
    listed1: Seq<DeviceInfo>,
    listed2: Seq<DeviceInfo>,
)
    requires
        found1.to_multiset() == found2.to_multiset(),
        forall|a: DeviceInfo, b: DeviceInfo|
            found1.contains(a) && found1.contains(b) && same_device_key(a, b) ==> a == b,
        listed1.to_multiset() == found1.to_multiset(),
        listed2.to_multiset() == found2.to_multiset(),
        in_listing_order(listed1),
        in_listing_order(listed2),
    ensures
        listed1 == listed2,
{
    assert forall|a: DeviceInfo, b: DeviceInfo|
        listed1.to_multiset().count(a) > 0 && listed1.to_multiset().count(b) > 0 && same_device_key(
            a,
            b,
        ) implies a == b by {
        vstd::seq_lib::to_multiset_contains(found1, a);
        vstd::seq_lib::to_multiset_contains(found1, b);
        broadcast use vstd::seq_lib::group_to_multiset_ensures;
    }
    lemma_sorted_unique(listed1, listed2);
}

/// Two listings in listing order of the same multiset, whose items are told
/// apart by their keys, are equal.
proof fn lemma_sorted_unique(s1: Seq<DeviceInfo>, s2: Seq<DeviceInfo>)
    requires
        s1.to_multiset() == s2.to_multiset(),
        forall|a: DeviceInfo, b: DeviceInfo|
            s1.to_multiset().count(a) > 0 && s1.to_multiset().count(b) > 0 && same_device_key(
                a,
                b,
            ) ==> a == b,
        in_listing_order(s1),
        in_listing_order(s2),
    ensures
        s1 == s2,
    decreases s1.len(),
{
    broadcast use vstd::seq_lib::group_to_multiset_ensures;

    if s1.len() == 0 {
        assert(s2.to_multiset().len() == 0);
        assert(s2.len() == 0);
        assert(s1 =~= s2);
    } else {
        assert(s1.to_multiset().len() == s1.len());
        assert(s2.len() == s1.len());
        let a = s1[0];
        let b = s2[0];
        assert(s1.contains(a));
        assert(s2.contains(b));
        vstd::seq_lib::to_multiset_contains(s1, a);
        vstd::seq_lib::to_multiset_contains(s2, a);
        vstd::seq_lib::to_multiset_contains(s1, b);
        vstd::seq_lib::to_multiset_contains(s2, b);
        assert(s2.contains(a));
        assert(s1.contains(b));
        let ia = choose|i: int| 0 <= i < s2.len() && s2[i] == a;
        let ib = choose|i: int| 0 <= i < s1.len() && s1[i] == b;
        assert(!device_before(a, b)) by {
            if ia > 0 {
                assert(!device_before(s2[ia], s2[0]));
            }
        }
        assert(!device_before(b, a)) by {
            if ib > 0 {
                assert(!device_before(s1[ib], s1[0]));
            }
        }
        lemma_bytes_order(name_key(a), name_key(b), name_key(a));
        assert(same_device_key(a, b));
        assert(a == b);
        let t1 = s1.drop_first();
        let t2 = s2.drop_first();
        assert(s1 =~= seq![a] + t1);
        assert(s2 =~= seq![a] + t2);
        vstd::seq_lib::lemma_multiset_commutative(seq![a], t1);
        vstd::seq_lib::lemma_multiset_commutative(seq![a], t2);
        assert(t1.to_multiset() =~= s1.to_multiset().remove(a)) by {
            vstd::seq_lib::to_multiset_remove(s1, 0);
            assert(s1.remove(0) =~= t1);
        }
        assert(t2.to_multiset() =~= s2.to_multiset().remove(a)) by {
            vstd::seq_lib::to_multiset_remove(s2, 0);
            assert(s2.remove(0) =~= t2);
        }
        assert forall|i: int, j: int| 0 <= i < j < t1.len() implies !device_before(
            #[trigger] t1[j],
            #[trigger] t1[i],
        ) by {
            assert(!device_before(s1[j + 1], s1[i + 1]));
        }
        assert forall|i: int, j: int| 0 <= i < j < t2.len() implies !device_before(
            #[trigger] t2[j],
            #[trigger] t2[i],
        ) by {
            assert(!device_before(s2[j + 1], s2[i + 1]));
        }
        lemma_sorted_unique(t1, t2);
    }
}

// ---------------------------------------------------------------------------
// Resolution of a configured device.

/// The device chosen for a configured name: its position in the listing,
/// and the positions of the other devices with the same name, which make
/// the choice worth a warning.
#[derive(Clone, Debug)]
pub struct Resolution {
    pub index: usize,
    pub other_candidates: Vec<usize>,
}

/// `d` reports the port identifier `phys`.
pub open spec fn has_phys(d: DeviceInfo, phys: Seq<char>) -> bool {
    match d.phys {
        Some(p) => p@ == phys,
        None => false,
    }
}

/// `d` has the display name `name`.
pub open spec fn has_name(d: DeviceInfo, name: Seq<char>) -> bool {
    d.name@ == name
}

/// Resolving by port identifier: the first device in `devices` with port
/// `phys`, or a not-found error naming `name` and `phys` when none has it.
pub open spec fn resolved_by_phys(
    devices: Seq<DeviceInfo>,
    name: Seq<char>,
    phys: Seq<char>,
    r: Result<Resolution, DeviceInfoError>,
) -> bool {
    match r {
        Ok(res) => {
            &&& res.index < devices.len()
            &&& has_phys(devices[res.index as int], phys)
            &&& forall|j: int| 0 <= j < res.index ==> !has_phys(#[trigger] devices[j], phys)
            &&& res.other_candidates@.len() == 0
        },
        Err(e) => {
            &&& e matches DeviceInfoError::NotFoundByNamePhys(n, p) && n@ == name && p@ == phys
            &&& forall|j: int| 0 <= j < devices.len() ==> !has_phys(#[trigger] devices[j], phys)
        },
    }
}

/// Resolving by name: the first device in `devices` named `name`, with the
/// positions of all later ones in ascending order, or a not-found error
/// when no device has that name.
pub open spec fn resolved_by_name(
    devices: Seq<DeviceInfo>,
    name: Seq<char>,
    r: Result<Resolution, DeviceInfoError>,
) -> bool {
    match r {
        Ok(res) => {
            let others = res.other_candidates@;
            &&& res.index < devices.len()
            &&& has_name(devices[res.index as int], name)
            &&& forall|j: int| 0 <= j < res.index ==> !has_name(#[trigger] devices[j], name)
            &&& forall|k: int|
                0 <= k < others.len() ==> res.index < #[trigger] others[k] < devices.len()
                    && has_name(devices[others[k] as int], name)
            &&& forall|k: int, l: int| 0 <= k < l < others.len() ==> #[trigger] others[k] < #[trigger] others[l]
            &&& forall|j: int|
                res.index < j < devices.len() && has_name(#[trigger] devices[j], name)
                    ==> others.contains(j as usize)
        },
        Err(e) => {
            &&& e matches DeviceInfoError::NotFoundByName(n) && n@ == name
            &&& forall|j: int| 0 <= j < devices.len() ==> !has_name(#[trigger] devices[j], name)
        },
    }
}

/// Finds the configured device among `devices`, given in listing order.
/// With a port identifier only that identifier is matched, never the name
/// alone; without one the first device of that name is chosen and the
/// other devices of that name are reported beside it.
pub fn resolve_device(devices: &Vec<DeviceInfo>, name: &String, phys: &Option<String>) -> (r: Result<
    Resolution,
    DeviceInfoError,
>)
    ensures
        phys.is_some() ==> resolved_by_phys(devices@, name@, phys.unwrap()@, r),
        phys.is_none() ==> resolved_by_name(devices@, name@, r),
{
    match phys {
        Some(want) => {
            let mut i: usize = 0;
            while i < devices.len()
                invariant
                    i <= devices@.len(),
                    phys.is_some() && phys.unwrap()@ == want@,
                    forall|j: int| 0 <= j < i ==> !has_phys(#[trigger] devices@[j], want@),
                decreases devices@.len() - i,
            {
                let found = match &devices[i].phys {
                    Some(p) => *p == *want,
                    None => false,
                };
                if found {
                    return Ok(Resolution { index: i, other_candidates: Vec::new() });
                }
                i += 1;
            }
            Err(DeviceInfoError::NotFoundByNamePhys(name.clone(), want.clone()))
        },
        None => {
            let mut first: Option<usize> = None;
            let mut others: Vec<usize> = Vec::new();
            let mut i: usize = 0;
            while i < devices.len()
                invariant
                    i <= devices@.len(),
                    phys.is_none(),
                    first.is_none() ==> forall|j: int|
                        0 <= j < i ==> !has_name(#[trigger] devices@[j], name@),
                    first.is_none() ==> others@.len() == 0,
                    first.is_some() ==> {
                        let f = first.unwrap();
                        &&& f < i
                        &&& has_name(devices@[f as int], name@)
                        &&& forall|j: int| 0 <= j < f ==> !has_name(#[trigger] devices@[j], name@)
                        &&& forall|k: int|
                            0 <= k < others@.len() ==> f < #[trigger] others@[k] < i && has_name(
                                devices@[others@[k] as int],
                                name@,
                            )
                        &&& forall|k: int, l: int|
                            0 <= k < l < others@.len() ==> #[trigger] others@[k] < #[trigger] others@[l]
                        &&& forall|j: int|
                            f < j < i && has_name(#[trigger] devices@[j], name@) ==> others@.contains(
                                j as usize,
                            )
                    },
                decreases devices@.len() - i,
            {
                if devices[i].name == *name {
                    if first.is_none() {
                        first = Some(i);
                    } else {
                        let ghost before = others@;
                        others.push(i);
                        proof {
                            assert forall|j: int|
                                first.unwrap() < j < i + 1 && has_name(
                                    #[trigger] devices@[j],
                                    name@,
                                ) implies others@.contains(j as usize) by {
                                if j < i {
                                    assert(before.contains(j as usize));
                                    let w = choose|w: int| 0 <= w < before.len() && before[w] == j as usize;
                                    assert(others@[w] == j as usize);
                                } else {
                                    assert(others@[others@.len() - 1] == j as usize);
                                }
                            }
                        }
                    }
                }
                i += 1;
            }
            match first {
                Some(f) => Ok(Resolution { index: f, other_candidates: others }),
                None => Err(DeviceInfoError::NotFoundByName(name.clone())),
            }
        },
    }
}

/// At least two devices of `devices` have the display name `name`.
pub open spec fn name_is_shared(devices: Seq<DeviceInfo>, name: Seq<char>) -> bool {
    exists|i: int, j: int|
        0 <= i < j < devices.len() && has_name(#[trigger] devices[i], name) && has_name(
            #[trigger] devices[j],
            name,
        )
}

/// Whether at least two devices have the display name `name`.
pub fn has_duplicate_name(devices: &Vec<DeviceInfo>, name: &String) -> (r: bool)
    ensures
        r == name_is_shared(devices@, name@),
{
    let mut first: Option<usize> = None;
    let mut i: usize = 0;
    while i < devices.len()
        invariant
            i <= devices@.len(),
            first.is_none() ==> forall|j: int| 0 <= j < i ==> !has_name(#[trigger] devices@[j], name@),
            first.is_some() ==> first.unwrap() < i && has_name(devices@[first.unwrap() as int], name@)
                && forall|j: int|
                0 <= j < i && j != first.unwrap() ==> !has_name(#[trigger] devices@[j], name@),
        decreases devices@.len() - i,
    {
        if devices[i].name == *name {
            if first.is_some() {
                assert(has_name(devices@[first.unwrap() as int], name@));
                assert(has_name(devices@[i as int], name@));
                return true;
            }
            first = Some(i);
        }
        i += 1;
    }
    proof {
        if name_is_shared(devices@, name@) {
            let (a, b) = choose|a: int, b: int|
                0 <= a < b < devices@.len() && has_name(#[trigger] devices@[a], name@) && has_name(
                    #[trigger] devices@[b],
                    name@,
                );
            assert(has_name(devices@[a], name@));
            assert(has_name(devices@[b], name@));
        }
    }
    false
}

/// Whether a configuration naming device `name` with port `phys` (empty
/// when not given) deserves the warning that the name is ambiguous: several
/// devices have that name and no port identifier tells them apart.
pub fn should_display_name_warning(devices: &Vec<DeviceInfo>, name: &String, phys: &String) -> (r:
    bool)
    ensures
        r == (name_is_shared(devices@, name@) && phys@.len() == 0),
{
    has_duplicate_name(devices, name) && phys.as_str().is_empty()
}

} // verus!
