//! The registry of every known key code with its display name, listed in
//! ascending order of name. It is built once by the caller, from the names
//! the input layer gives, and then shared read-only.
use vstd::prelude::*;
use vstd::utf8::encode_utf8;

use crate::key_code::KeyCode;
use crate::order::{
    bytes_lt, class_of, compare_bytes, equivalent, insertion_sort, lemma_bytes_order, sorted_by_le,
    SortKey,
};

verus! {

/// A key code with its canonical display name, such as `KEY_A`.
#[derive(Clone, Debug)]
pub struct KeyName {
    pub code: KeyCode,
    pub name: String,
}

impl SortKey for KeyName {
    open spec fn le(&self, other: &Self) -> bool {
        !bytes_lt(encode_utf8(other.name@), encode_utf8(self.name@))
    }

    proof fn lemma_le_total(a: &Self, b: &Self) {
        lemma_bytes_order(encode_utf8(a.name@), encode_utf8(b.name@), encode_utf8(a.name@));
    }

    proof fn lemma_le_transitive(a: &Self, b: &Self, c: &Self) {
        let (x, y, z) = (encode_utf8(a.name@), encode_utf8(b.name@), encode_utf8(c.name@));
        lemma_bytes_order(x, y, z);
        lemma_bytes_order(y, z, x);
        lemma_bytes_order(z, x, y);
        lemma_bytes_order(x, z, y);
        lemma_bytes_order(y, x, z);
        lemma_bytes_order(z, y, x);
    }

    fn is_le(&self, other: &Self) -> (r: bool) {
        compare_bytes(other.name.as_str().as_bytes(), self.name.as_str().as_bytes()) >= 0
    }
}

/// Every known key with its name, in ascending order of name.
#[derive(Clone, Debug)]
pub struct KeyRegistry {
    keys: Vec<KeyName>,
}

impl View for KeyRegistry {
    type V = Seq<KeyName>;

    closed spec fn view(&self) -> Seq<KeyName> {
        self.keys@
    }
}

/// The codes of `s`, in order.
pub open spec fn codes_of(s: Seq<KeyName>) -> Seq<KeyCode> {
    s.map_values(|k: KeyName| k.code)
}

/// The keys of `s` whose names equal `z`'s, in their order in `s`.
pub open spec fn same_name_keys(s: Seq<KeyName>, z: KeyName) -> Seq<KeyName> {
    s.filter(|w: KeyName| encode_utf8(w.name@) == encode_utf8(z.name@))
}

proof fn lemma_classes_are_names(s: Seq<KeyName>, z: KeyName)
    ensures
        class_of(s, z) == same_name_keys(s, z),
{
    assert forall|w: KeyName|
        equivalent(w, z) == (encode_utf8(w.name@) == encode_utf8(z.name@)) by {
        lemma_bytes_order(encode_utf8(w.name@), encode_utf8(z.name@), encode_utf8(w.name@));
    }
    assert((|w: KeyName| equivalent(w, z)) =~= (|w: KeyName|
        encode_utf8(w.name@) == encode_utf8(z.name@)));
}

impl KeyRegistry {
    /// The registry of `keys`, put in ascending order of name; keys with
    /// equal names keep the order they were given in.
    pub fn new(keys: Vec<KeyName>) -> (r: Self)
        ensures
            r@.to_multiset() == keys@.to_multiset(),
            sorted_by_le(r@),
            forall|z: KeyName| #[trigger] same_name_keys(r@, z) == same_name_keys(keys@, z),
    {
        let ghost given = keys@;
        let mut keys = keys;
        insertion_sort(&mut keys);
        let r = KeyRegistry { keys };
        assert forall|z: KeyName| #[trigger] same_name_keys(r@, z) == same_name_keys(given, z) by {
            lemma_classes_are_names(r@, z);
            lemma_classes_are_names(given, z);
            assert(class_of(r@, z) == class_of(given, z));
        }
        r
    }

    /// Number of keys.
    pub fn len(&self) -> (r: usize)
        ensures
            r == self@.len(),
    {
        self.keys.len()
    }

    /// The key codes, in order of name.
    pub fn list_keycodes(&self) -> (r: Vec<KeyCode>)
        ensures
            r@ == codes_of(self@),
    {
        let mut out: Vec<KeyCode> = Vec::new();
        let mut i: usize = 0;
        while i < self.keys.len()
            invariant
                i <= self@.len(),
                out@ == codes_of(self@.subrange(0, i as int)),
            decreases self@.len() - i,
        {
            out.push(self.keys[i].code);
            i += 1;
            assert(codes_of(self@.subrange(0, i as int)) =~= codes_of(self@.subrange(0, i - 1)).push(self@[i - 1].code));
        }
        assert(self@.subrange(0, i as int) =~= self@);
        out
    }

    /// The display names, in order.
    pub fn list_keynames_iter(&self) -> (r: Vec<String>)
        ensures
            r@.len() == self@.len(),
            forall|i: int| 0 <= i < r@.len() ==> #[trigger] r@[i]@ == self@[i].name@,
    {
        let mut out: Vec<String> = Vec::new();
        let mut i: usize = 0;
        while i < self.keys.len()
            invariant
                i <= self@.len(),
                out@.len() == i,
                forall|j: int| 0 <= j < i ==> #[trigger] out@[j]@ == self@[j].name@,
            decreases self@.len() - i,
        {
            out.push(self.keys[i].name.clone());
            i += 1;
        }
        out
    }

    /// The key at position `i` of the listing.
    pub fn key_at(&self, i: usize) -> (r: KeyCode)
        requires
            i < self@.len(),
        ensures
            r == self@[i as int].code,
    {
        self.keys[i].code
    }

    /// The first key whose display name is `name`, if any.
    pub fn find_by_name(&self, name: &String) -> (r: Option<KeyCode>)
        ensures
            r.is_none() ==> forall|j: int| 0 <= j < self@.len() ==> (#[trigger] self@[j]).name@ != name@,
            r.is_some() ==> exists|j: int|
                0 <= j < self@.len() && (#[trigger] self@[j]).name@ == name@ && self@[j].code == r.unwrap()
                    && forall|l: int| 0 <= l < j ==> (#[trigger] self@[l]).name@ != name@,
    {
        let mut i: usize = 0;
        while i < self.keys.len()
            invariant
                i <= self@.len(),
                forall|j: int| 0 <= j < i ==> (#[trigger] self@[j]).name@ != name@,
            decreases self@.len() - i,
        {
            if self.keys[i].name == *name {
                return Some(self.keys[i].code);
            }
            i += 1;
        }
        None
    }
}

} // verus!
