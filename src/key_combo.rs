//! Canonical key combinations: a bitmask of held modifiers plus an ordered,
//! duplicate-free list of ordinary keys.
use vstd::prelude::*;

use crate::key_code::{
    is_modifier, is_modifier_key, lemma_modifier_table, modifier_at, modifier_index, modifier_key,
    KeyCode, KEY_FN, KEY_LEFTALT, KEY_LEFTCTRL, KEY_LEFTMETA, KEY_LEFTSHIFT, KEY_RIGHTALT,
    KEY_RIGHTCTRL, KEY_RIGHTMETA, KEY_RIGHTSHIFT,
};

verus! {

/// Whether bit `i` of `m` is set.
pub open spec fn bit_set(m: u16, i: int) -> bool {
    (m >> (i as u16)) & 1u16 == 1u16
}

/// The modifiers of `held` among the first `n` positions, in declared order.
pub open spec fn modifiers_in_order(held: Set<KeyCode>, n: int) -> Seq<KeyCode>
    decreases n,
{
    if n <= 0 {
        Seq::empty()
    } else {
        let prev = modifiers_in_order(held, n - 1);
        if held.contains(modifier_key(n - 1)) {
            prev.push(modifier_key(n - 1))
        } else {
            prev
        }
    }
}

/// The nine modifiers of `held`, in declared order.
pub open spec fn ordered_modifiers(held: Set<KeyCode>) -> Seq<KeyCode> {
    modifiers_in_order(held, 9)
}

proof fn lemma_bit_or(m: u16, j: u16, i: u16)
    requires
        m < 512,
        j < 9,
        i < 9,
    ensures
        ((m | (1u16 << j)) >> i) & 1u16 == 1u16 <==> (((m >> i) & 1u16 == 1u16) || i == j),
        (m | (1u16 << j)) < 512,
        ((m & (1u16 << j)) != 0u16) <==> ((m >> j) & 1u16 == 1u16),
{
    assert(((m | (1u16 << j)) >> i) & 1u16 == 1u16 <==> (((m >> i) & 1u16 == 1u16) || i == j))
        by (bit_vector)
        requires
            m < 512,
            j < 9,
            i < 9,
    ;
    assert((m | (1u16 << j)) < 512) by (bit_vector)
        requires
            m < 512,
            j < 9,
    ;
    assert(((m & (1u16 << j)) != 0u16) <==> ((m >> j) & 1u16 == 1u16)) by (bit_vector)
        requires
            j < 9,
    ;
}

proof fn lemma_bit_clear(m: u16, j: u16, i: u16)
    requires
        m < 512,
        j < 9,
        i < 9,
    ensures
        ((m & !(1u16 << j)) >> i) & 1u16 == 1u16 <==> (((m >> i) & 1u16 == 1u16) && i != j),
        (m & !(1u16 << j)) < 512,
{
    assert(((m & !(1u16 << j)) >> i) & 1u16 == 1u16 <==> (((m >> i) & 1u16 == 1u16) && i
        != j)) by (bit_vector)
        requires
            m < 512,
            j < 9,
            i < 9,
    ;
    assert((m & !(1u16 << j)) < 512) by (bit_vector)
        requires
            m < 512,
    ;
}

proof fn lemma_bits_zero(m: u16)
    requires
        m < 512,
    ensures
        m == 0 <==> forall|i: int| 0 <= i < 9 ==> !bit_set(m, i),
{
    assert(m == 0 <==> (!((m >> 0u16) & 1u16 == 1u16) && !((m >> 1u16) & 1u16 == 1u16) && !((m
        >> 2u16) & 1u16 == 1u16) && !((m >> 3u16) & 1u16 == 1u16) && !((m >> 4u16) & 1u16 == 1u16)
        && !((m >> 5u16) & 1u16 == 1u16) && !((m >> 6u16) & 1u16 == 1u16) && !((m >> 7u16) & 1u16
        == 1u16) && !((m >> 8u16) & 1u16 == 1u16))) by (bit_vector)
        requires
            m < 512,
    ;
    if m != 0 {
        assert(bit_set(m, 0) || bit_set(m, 1) || bit_set(m, 2) || bit_set(m, 3) || bit_set(m, 4)
            || bit_set(m, 5) || bit_set(m, 6) || bit_set(m, 7) || bit_set(m, 8));
    }
}

/// Bitmask over the nine modifier keys: bit `i` stands for the modifier at
/// position `i` of the declared order.
#[derive(Clone, Copy, Debug, PartialEq, Eq, Structural, Hash)]
pub struct ModifierKeysMask(u16);

impl ModifierKeysMask {
    /// Only the nine modifier bits may be set.
    pub closed spec fn wf(&self) -> bool {
        self.0 < 512
    }

    /// The modifier keys whose bits are set.
    pub closed spec fn held(&self) -> Set<KeyCode> {
        Set::new(|k: KeyCode| is_modifier_key(k) && bit_set(self.0, modifier_index(k)))
    }

    /// The mask with no modifier set.
    pub fn empty() -> (r: Self)
        ensures
            r.wf(),
            r.held() == Set::<KeyCode>::empty(),
    {
        let r = ModifierKeysMask(0);
        assert(r.held() =~= Set::<KeyCode>::empty()) by {
            lemma_bits_zero(0);
        }
        r
    }

    /// The single-bit mask of a modifier key, or `None` for any other key.
    fn from_keycode(key: KeyCode) -> (r: Option<u16>)
        ensures
            r.is_some() == is_modifier_key(key),
            r.is_some() ==> r.unwrap() == (1u16 << (modifier_index(key) as u16)),
            r.is_some() ==> modifier_index(key) < 9,
    {
        let c = key.0;
        if c == KEY_FN {
            Some(1u16 << 0u16)
        } else if c == KEY_LEFTALT {
            Some(1u16 << 1u16)
        } else if c == KEY_RIGHTALT {
            Some(1u16 << 2u16)
        } else if c == KEY_LEFTMETA {
            Some(1u16 << 3u16)
        } else if c == KEY_RIGHTMETA {
            Some(1u16 << 4u16)
        } else if c == KEY_LEFTCTRL {
            Some(1u16 << 5u16)
        } else if c == KEY_RIGHTCTRL {
            Some(1u16 << 6u16)
        } else if c == KEY_LEFTSHIFT {
            Some(1u16 << 7u16)
        } else if c == KEY_RIGHTSHIFT {
            Some(1u16 << 8u16)
        } else {
            None
        }
    }

    /// Sets the bit of `key`; other keys leave the mask unchanged.
    pub fn add(&mut self, key: KeyCode)
        requires
            old(self).wf(),
        ensures
            final(self).wf(),
            final(self).held() == if is_modifier_key(key) {
                old(self).held().insert(key)
            } else {
                old(self).held()
            },
    {
        if let Some(keymask) = Self::from_keycode(key) {
            let ghost m = self.0;
            let ghost j = modifier_index(key) as u16;
            self.0 = self.0 | keymask;
            proof {
                lemma_bit_or(m, j, 0);
                assert forall|k: KeyCode| #[trigger]
                    self.held().contains(k) == old(self).held().insert(key).contains(k) by {
                    if is_modifier_key(k) {
                        lemma_modifier_table(0, k);
                        lemma_bit_or(m, j, modifier_index(k) as u16);
                    }
                }
                assert(self.held() =~= old(self).held().insert(key));
            }
        }
    }

    /// Clears the bit of `key`; other keys leave the mask unchanged.
    pub fn remove(&mut self, key: KeyCode)
        requires
            old(self).wf(),
        ensures
            final(self).wf(),
            final(self).held() == old(self).held().remove(key),
    {
        if let Some(keymask) = Self::from_keycode(key) {
            let ghost m = self.0;
            let ghost j = modifier_index(key) as u16;
            self.0 = self.0 & !keymask;
            proof {
                lemma_bit_clear(m, j, 0);
                assert forall|k: KeyCode| #[trigger]
                    self.held().contains(k) == old(self).held().remove(key).contains(k) by {
                    if is_modifier_key(k) {
                        lemma_modifier_table(0, k);
                        lemma_modifier_table(0, key);
                        lemma_bit_clear(m, j, modifier_index(k) as u16);
                    }
                }
            }
        }
        assert(self.held() =~= old(self).held().remove(key));
    }

    /// Whether the bit of `key` is set (never, for a key that is not a
    /// modifier).
    pub fn contains(&self, key: KeyCode) -> (r: bool)
        requires
            self.wf(),
        ensures
            r == self.held().contains(key),
    {
        if let Some(keymask) = Self::from_keycode(key) {
            proof {
                lemma_bit_or(self.0, modifier_index(key) as u16, 0);
            }
            (self.0 & keymask) != 0
        } else {
            false
        }
    }

    /// Whether no modifier is set.
    pub fn is_empty(&self) -> (r: bool)
        requires
            self.wf(),
        ensures
            r == (self.held() == Set::<KeyCode>::empty()),
    {
        proof {
            lemma_bits_zero(self.0);
            if self.0 != 0 {
                let i = choose|i: int| 0 <= i < 9 && bit_set(self.0, i);
                lemma_modifier_table(i, modifier_key(i));
                assert(self.held().contains(modifier_key(i)));
            } else {
                assert(self.held() =~= Set::<KeyCode>::empty());
            }
        }
        self.0 == 0
    }

    /// The set modifiers, in declared order.
    pub fn into_iter(self) -> (r: Vec<KeyCode>)
        requires
            self.wf(),
        ensures
            r@ == ordered_modifiers(self.held()),
    {
        let mut v: Vec<KeyCode> = Vec::new();
        let mut i: usize = 0;
        while i < 9
            invariant
                i <= 9,
                self.wf(),
                v@ == modifiers_in_order(self.held(), i as int),
            decreases 9 - i,
        {
            let k = modifier_at(i);
            if self.contains(k) {
                v.push(k);
            }
            i += 1;
        }
        v
    }

    /// Removes and returns the set modifier that comes latest in the declared
    /// order, i.e. the last of `ordered_modifiers`.
    pub fn pop(&mut self) -> (r: Option<KeyCode>)
        requires
            old(self).wf(),
        ensures
            final(self).wf(),
            ordered_modifiers(old(self).held()).len() == 0 ==> r.is_none() && final(self).held()
                == old(self).held(),
            ordered_modifiers(old(self).held()).len() > 0 ==> r == Some(
                ordered_modifiers(old(self).held()).last(),
            ) && final(self).held() == old(self).held().remove(r.unwrap()) && ordered_modifiers(
                final(self).held(),
            ) == ordered_modifiers(old(self).held()).drop_last(),
    {
        if self.is_empty() {
            proof {
                lemma_in_order_no_modifiers(self.held(), 9);
            }
            return None;
        }
        let ghost h = self.held();
        let mut i: usize = 9;
        while i > 0
            invariant
                i <= 9,
                self.wf(),
                self.held() == h,
                old(self).held() == h,
                h != Set::<KeyCode>::empty(),
                forall|j: int| i <= j < 9 ==> !h.contains(#[trigger] modifier_key(j)),
            decreases i,
        {
            i -= 1;
            let k = modifier_at(i);
            if self.contains(k) {
                self.remove(k);
                proof {
                    lemma_in_order_tail(h, i as int + 1);
                    lemma_in_order_remove_last(h, i as int);
                }
                return Some(k);
            }
        }
        proof {
            assert forall|k: KeyCode| !h.contains(k) by {
                if h.contains(k) {
                    lemma_modifier_table(0, k);
                    assert(!h.contains(modifier_key(modifier_index(k))));
                }
            }
            assert(h =~= Set::<KeyCode>::empty());
        }
        None
    }
}

/// The modifiers among `s`.
pub open spec fn modifiers_of(s: Seq<KeyCode>) -> Set<KeyCode> {
    Set::new(|k: KeyCode| is_modifier_key(k) && s.contains(k))
}

/// The ordinary keys of `s`, each once, in the order of first appearance.
pub open spec fn ordinary_keys_of(s: Seq<KeyCode>) -> Seq<KeyCode>
    decreases s.len(),
{
    if s.len() == 0 {
        Seq::empty()
    } else {
        let prev = ordinary_keys_of(s.drop_last());
        let k = s.last();
        if is_modifier_key(k) || prev.contains(k) {
            prev
        } else {
            prev.push(k)
        }
    }
}

/// The canonical flattened form of the combination pressed as `s`: held
/// modifiers in declared order, then ordinary keys in first-seen order.
pub open spec fn canonical_keys(s: Seq<KeyCode>) -> Seq<KeyCode> {
    ordered_modifiers(modifiers_of(s)) + ordinary_keys_of(s)
}

/// A canonical key combination: held modifiers plus ordinary keys in
/// insertion order, without duplicates.
#[derive(Clone, Debug)]
pub struct KeyCombination {
    modifiers: ModifierKeysMask,
    keys: Vec<KeyCode>,
}

impl View for KeyCombination {
    type V = Seq<KeyCode>;

    /// The observable key order: held modifiers in declared order, then the
    /// ordinary keys in insertion order.
    open spec fn view(&self) -> Seq<KeyCode> {
        ordered_modifiers(self.held_modifiers()) + self.ordinary_keys()
    }
}

impl KeyCombination {
    /// Modifiers sit only in the mask; ordinary keys are listed at most once.
    pub closed spec fn wf(&self) -> bool {
        &&& self.modifiers.wf()
        &&& self.keys@.no_duplicates()
        &&& forall|i: int| 0 <= i < self.keys@.len() ==> !is_modifier_key(#[trigger] self.keys@[i])
    }

    /// The modifier keys held.
    pub closed spec fn held_modifiers(&self) -> Set<KeyCode> {
        self.modifiers.held()
    }

    /// The ordinary keys, in insertion order.
    pub closed spec fn ordinary_keys(&self) -> Seq<KeyCode> {
        self.keys@
    }

    /// The empty combination.
    pub fn new() -> (r: Self)
        ensures
            r.wf(),
            r.held_modifiers() == Set::<KeyCode>::empty(),
            r.ordinary_keys() == Seq::<KeyCode>::empty(),
            r@ == Seq::<KeyCode>::empty(),
    {
        let r = KeyCombination { modifiers: ModifierKeysMask::empty(), keys: Vec::new() };
        proof {
            lemma_in_order_no_modifiers(r.held_modifiers(), 9);
            assert(r@ =~= Seq::<KeyCode>::empty());
        }
        r
    }

    /// Removes every key.
    pub fn clear(&mut self)
        requires
            old(self).wf(),
        ensures
            final(self).wf(),
            final(self).held_modifiers() == Set::<KeyCode>::empty(),
            final(self).ordinary_keys() == Seq::<KeyCode>::empty(),
            final(self)@ == Seq::<KeyCode>::empty(),
    {
        self.modifiers = ModifierKeysMask::empty();
        self.keys.clear();
        proof {
            lemma_in_order_no_modifiers(self.held_modifiers(), 9);
            assert(self@ =~= Seq::<KeyCode>::empty());
        }
    }

    /// Adds `key`: a modifier joins the held set, an ordinary key is appended
    /// unless already present.
    pub fn push(&mut self, key: KeyCode)
        requires
            old(self).wf(),
        ensures
            final(self).wf(),
            is_modifier_key(key) ==> final(self).held_modifiers() == old(self).held_modifiers().insert(key)
                && final(self).ordinary_keys() == old(self).ordinary_keys(),
            !is_modifier_key(key) ==> final(self).held_modifiers() == old(self).held_modifiers()
                && final(self).ordinary_keys() == if old(self).ordinary_keys().contains(key) {
                old(self).ordinary_keys()
            } else {
                old(self).ordinary_keys().push(key)
            },
    {
        if is_modifier(&key) {
            self.modifiers.add(key);
        } else if !contains_key(&self.keys, key) {
            self.keys.push(key);
            proof {
                assert forall|i: int, j: int|
                    0 <= i < self.keys@.len() && 0 <= j < self.keys@.len() && i != j implies self.keys@[i]
                    != self.keys@[j] by {
                    if j == self.keys@.len() - 1 {
                        assert(old(self).keys@.contains(self.keys@[i]) || i == j);
                    }
                    if i == self.keys@.len() - 1 {
                        assert(old(self).keys@.contains(self.keys@[j]));
                    }
                }
            }
        }
    }

    /// Removes and returns the last key of the observable order: the latest
    /// ordinary key while there is one, then the held modifier latest in the
    /// declared order.
    pub fn pop(&mut self) -> (r: Option<KeyCode>)
        requires
            old(self).wf(),
        ensures
            final(self).wf(),
            old(self)@.len() == 0 ==> r.is_none() && final(self)@ == old(self)@,
            old(self)@.len() > 0 ==> r == Some(old(self)@.last()) && final(self)@ == old(
                self,
            )@.drop_last(),
            old(self).ordinary_keys().len() > 0 ==> r == Some(old(self).ordinary_keys().last())
                && final(self).ordinary_keys() == old(self).ordinary_keys().drop_last()
                && final(self).held_modifiers() == old(self).held_modifiers(),
            old(self).ordinary_keys().len() == 0 ==> final(self).ordinary_keys().len() == 0 && (
            r.is_some() ==> final(self).held_modifiers() == old(self).held_modifiers().remove(
                r.unwrap(),
            )),
    {
        if self.keys.len() > 0 {
            let r = self.keys.pop();
            proof {
                let m = ordered_modifiers(self.held_modifiers());
                assert(old(self)@.drop_last() =~= m + self.keys@);
                assert forall|i: int, j: int|
                    0 <= i < self.keys@.len() && 0 <= j < self.keys@.len() && i != j implies self.keys@[i]
                    != self.keys@[j] by {
                    assert(self.keys@[i] == old(self).keys@[i]);
                    assert(self.keys@[j] == old(self).keys@[j]);
                }
                assert forall|i: int| 0 <= i < self.keys@.len() implies !is_modifier_key(
                    #[trigger] self.keys@[i],
                ) by {
                    assert(self.keys@[i] == old(self).keys@[i]);
                }
            }
            r
        } else {
            proof {
                assert(self@ =~= ordered_modifiers(self.held_modifiers()));
            }
            let r = self.modifiers.pop();
            proof {
                assert(self@ =~= ordered_modifiers(self.held_modifiers()));
            }
            r
        }
    }

    /// The keys in observable order.
    pub fn iter(&self) -> (r: Vec<KeyCode>)
        requires
            self.wf(),
        ensures
            r@ == self@,
    {
        self.to_keys()
    }

    /// The keys in observable order, as a plain sequence for storage.
    pub fn to_keys(&self) -> (r: Vec<KeyCode>)
        requires
            self.wf(),
        ensures
            r@ == self@,
    {
        let mut out = self.modifiers.into_iter();
        let ghost m = out@;
        let mut i: usize = 0;
        while i < self.keys.len()
            invariant
                i <= self.keys@.len(),
                out@ == m + self.keys@.subrange(0, i as int),
                m == ordered_modifiers(self.held_modifiers()),
            decreases self.keys@.len() - i,
        {
            out.push(self.keys[i]);
            i += 1;
            assert(out@ =~= m + self.keys@.subrange(0, i as int));
        }
        assert(self.keys@.subrange(0, self.keys@.len() as int) =~= self.keys@);
        out
    }

    /// The combination pressed as `keys`, normalised as by pushing each key
    /// in turn onto an empty combination.
    pub fn from_keys(keys: &[KeyCode]) -> (r: Self)
        ensures
            r.wf(),
            r.held_modifiers() == modifiers_of(keys@),
            r.ordinary_keys() == ordinary_keys_of(keys@),
            r@ == canonical_keys(keys@),
    {
        let mut res = KeyCombination::new();
        let mut i: usize = 0;
        while i < keys.len()
            invariant
                i <= keys@.len(),
                res.wf(),
                res.held_modifiers() == modifiers_of(keys@.subrange(0, i as int)),
                res.ordinary_keys() == ordinary_keys_of(keys@.subrange(0, i as int)),
            decreases keys@.len() - i,
        {
            let k = keys[i];
            res.push(k);
            proof {
                let p = keys@.subrange(0, i as int);
                let q = keys@.subrange(0, i as int + 1);
                assert(q.drop_last() =~= p);
                assert(q =~= p.push(k));
                assert forall|x: KeyCode| q.contains(x) <==> (p.contains(x) || x == k) by {
                    if q.contains(x) {
                        let j = choose|j: int| 0 <= j < q.len() && q[j] == x;
                        if j < p.len() {
                            assert(p[j] == x);
                        }
                    }
                    if p.contains(x) {
                        let j = choose|j: int| 0 <= j < p.len() && p[j] == x;
                        assert(q[j] == x);
                    }
                    if x == k {
                        assert(q[q.len() - 1] == x);
                    }
                }
                assert(modifiers_of(q) =~= if is_modifier_key(k) {
                    modifiers_of(p).insert(k)
                } else {
                    modifiers_of(p)
                });
            }
            i += 1;
        }
        assert(keys@.subrange(0, keys@.len() as int) =~= keys@);
        res
    }
}

/// In `s`, an occurrence of `a` comes before every occurrence of `b`.
pub open spec fn occurs_first(s: Seq<KeyCode>, a: KeyCode, b: KeyCode) -> bool {
    exists|p: int| 0 <= p < s.len() && s[p] == a && forall|q: int| 0 <= q <= p ==> s[q] != b
}

/// Modifiers come out in the declared order whatever order they were
/// pressed in: two sequences of modifier keys that hold the same keys have
/// the same canonical form.
pub proof fn lemma_modifier_order_independent(s1: Seq<KeyCode>, s2: Seq<KeyCode>)
    requires
        forall|i: int| 0 <= i < s1.len() ==> is_modifier_key(#[trigger] s1[i]),
        forall|i: int| 0 <= i < s2.len() ==> is_modifier_key(#[trigger] s2[i]),
        s1.to_set() == s2.to_set(),
    ensures
        canonical_keys(s1) == canonical_keys(s2),
{
    assert forall|k: KeyCode| s1.contains(k) == s2.contains(k) by {
        assert(s1.to_set().contains(k) == s1.contains(k));
        assert(s2.to_set().contains(k) == s2.contains(k));
    }
    assert(modifiers_of(s1) =~= modifiers_of(s2));
    lemma_ordinary_keys_of(s1);
    lemma_ordinary_keys_of(s2);
    assert forall|k: KeyCode| !ordinary_keys_of(s1).contains(k) by {
        if s1.contains(k) {
            let j = choose|j: int| 0 <= j < s1.len() && s1[j] == k;
            assert(is_modifier_key(s1[j]));
        }
    }
    assert forall|k: KeyCode| !ordinary_keys_of(s2).contains(k) by {
        if s2.contains(k) {
            let j = choose|j: int| 0 <= j < s2.len() && s2[j] == k;
            assert(is_modifier_key(s2[j]));
        }
    }
    if ordinary_keys_of(s1).len() > 0 {
        assert(ordinary_keys_of(s1).contains(ordinary_keys_of(s1)[0]));
    }
    if ordinary_keys_of(s2).len() > 0 {
        assert(ordinary_keys_of(s2).contains(ordinary_keys_of(s2)[0]));
    }
    assert(ordinary_keys_of(s1) =~= ordinary_keys_of(s2));
}

/// Pressing keys with repeats lists every key of the input exactly once,
/// and the ordinary keys in the order of their first appearance.
pub proof fn lemma_first_seen_order(s: Seq<KeyCode>)
    ensures
        canonical_keys(s).no_duplicates(),
        forall|k: KeyCode| #[trigger] canonical_keys(s).contains(k) <==> s.contains(k),
        forall|i: int, j: int|
            0 <= i < j < ordinary_keys_of(s).len() ==> occurs_first(
                s,
                #[trigger] ordinary_keys_of(s)[i],
                #[trigger] ordinary_keys_of(s)[j],
            ),
{
    let m = ordered_modifiers(modifiers_of(s));
    let o = ordinary_keys_of(s);
    let c = canonical_keys(s);
    lemma_ordinary_keys_of(s);
    lemma_in_order_members(modifiers_of(s), 9);
    assert forall|k: KeyCode| c.contains(k) <==> s.contains(k) by {
        if c.contains(k) {
            let j = choose|j: int| 0 <= j < c.len() && c[j] == k;
            if j < m.len() {
                assert(m.contains(k));
            } else {
                assert(o[j - m.len()] == k);
                assert(o.contains(k));
            }
        }
        if s.contains(k) {
            if is_modifier_key(k) {
                lemma_modifier_table(0, k);
                assert(modifiers_of(s).contains(modifier_key(modifier_index(k))));
                assert(modifiers_in_order(modifiers_of(s), 9).contains(
                    modifier_key(modifier_index(k)),
                ));
                assert(m.contains(k));
                let j = choose|j: int| 0 <= j < m.len() && m[j] == k;
                assert(c[j] == k);
            } else {
                assert(o.contains(k));
                let j = choose|j: int| 0 <= j < o.len() && o[j] == k;
                assert(c[m.len() + j] == k);
            }
        }
    }
    assert forall|i: int, j: int| 0 <= i < c.len() && 0 <= j < c.len() && i != j implies c[i]
        != c[j] by {
        if i < m.len() && j >= m.len() {
            assert(m.contains(c[i]));
            assert(!is_modifier_key(o[j - m.len()]));
        } else if i >= m.len() && j < m.len() {
            assert(m.contains(c[j]));
            assert(!is_modifier_key(o[i - m.len()]));
        }
    }
}

/// Held modifiers are listed in strictly ascending declared position, so
/// taking them from the end yields RIGHTSHIFT, LEFTSHIFT, RIGHTCTRL, ...,
/// FN, whatever order they were added in.
pub proof fn lemma_modifiers_declared_order(held: Set<KeyCode>)
    ensures
        forall|a: int, b: int|
            0 <= a < b < ordered_modifiers(held).len() ==> modifier_index(
                #[trigger] ordered_modifiers(held)[a],
            ) < modifier_index(#[trigger] ordered_modifiers(held)[b]),
{
    lemma_in_order_ascending(held, 9);
}

proof fn lemma_in_order_ascending(held: Set<KeyCode>, n: int)
    requires
        0 <= n <= 9,
    ensures
        forall|a: int, b: int|
            0 <= a < b < modifiers_in_order(held, n).len() ==> modifier_index(
                #[trigger] modifiers_in_order(held, n)[a],
            ) < modifier_index(#[trigger] modifiers_in_order(held, n)[b]),
    decreases n,
{
    if n > 0 {
        lemma_in_order_ascending(held, n - 1);
        lemma_in_order_members(held, n - 1);
        let prev = modifiers_in_order(held, n - 1);
        let cur = modifiers_in_order(held, n);
        lemma_modifier_table(n - 1, modifier_key(n - 1));
        assert forall|a: int, b: int| 0 <= a < b < cur.len() implies modifier_index(
            #[trigger] cur[a],
        ) < modifier_index(#[trigger] cur[b]) by {
            if b < prev.len() {
                assert(cur[a] == prev[a] && cur[b] == prev[b]);
            } else {
                assert(cur[a] == prev[a]);
                assert(prev.contains(prev[a]));
            }
        }
    }
}

/// What `ordinary_keys_of` holds: each ordinary key of `s` once, in
/// first-seen order.
proof fn lemma_ordinary_keys_of(s: Seq<KeyCode>)
    ensures
        ordinary_keys_of(s).no_duplicates(),
        forall|k: KeyCode|
            #[trigger] ordinary_keys_of(s).contains(k) <==> (s.contains(k) && !is_modifier_key(k)),
        forall|i: int|
            0 <= i < ordinary_keys_of(s).len() ==> !is_modifier_key(
                #[trigger] ordinary_keys_of(s)[i],
            ),
        forall|i: int, j: int|
            0 <= i < j < ordinary_keys_of(s).len() ==> occurs_first(
                s,
                #[trigger] ordinary_keys_of(s)[i],
                #[trigger] ordinary_keys_of(s)[j],
            ),
    decreases s.len(),
{
    if s.len() > 0 {
        let p = s.drop_last();
        let k = s.last();
        let prev = ordinary_keys_of(p);
        let o = ordinary_keys_of(s);
        lemma_ordinary_keys_of(p);
        assert forall|x: KeyCode| s.contains(x) <==> (p.contains(x) || x == k) by {
            if s.contains(x) {
                let j = choose|j: int| 0 <= j < s.len() && s[j] == x;
                if j < p.len() {
                    assert(p[j] == x);
                }
            }
            if p.contains(x) {
                let j = choose|j: int| 0 <= j < p.len() && p[j] == x;
                assert(s[j] == x);
            }
            if x == k {
                assert(s[s.len() - 1] == x);
            }
        }
        assert forall|i: int, j: int| 0 <= i < j < o.len() implies occurs_first(
            s,
            #[trigger] o[i],
            #[trigger] o[j],
        ) by {
            if j < prev.len() {
                assert(occurs_first(p, prev[i], prev[j]));
                let w = choose|w: int|
                    0 <= w < p.len() && p[w] == prev[i] && forall|q: int|
                        0 <= q <= w ==> p[q] != prev[j];
                assert(s[w] == o[i]);
                assert forall|q: int| 0 <= q <= w implies s[q] != o[j] by {
                    assert(s[q] == p[q]);
                }
            } else {
                assert(o[j] == k);
                assert(!prev.contains(k));
                assert(prev.contains(prev[i]));
                let w = choose|w: int| 0 <= w < p.len() && p[w] == prev[i];
                assert(s[w] == o[i]);
                assert forall|q: int| 0 <= q <= w implies s[q] != o[j] by {
                    assert(s[q] == p[q]);
                    assert(p.contains(p[q]));
                }
            }
        }
        if !(is_modifier_key(k) || prev.contains(k)) {
            assert forall|x: KeyCode| o.contains(x) <==> (prev.contains(x) || x == k) by {
                if o.contains(x) {
                    let j = choose|j: int| 0 <= j < o.len() && o[j] == x;
                    if j < prev.len() {
                        assert(prev[j] == x);
                    }
                }
                if prev.contains(x) {
                    let j = choose|j: int| 0 <= j < prev.len() && prev[j] == x;
                    assert(o[j] == x);
                }
                if x == k {
                    assert(o[o.len() - 1] == x);
                }
            }
            assert forall|i: int, j: int| 0 <= i < o.len() && 0 <= j < o.len() && i != j implies o[i]
                != o[j] by {
                if i == o.len() - 1 {
                    assert(prev.contains(o[j]));
                } else if j == o.len() - 1 {
                    assert(prev.contains(o[i]));
                }
            }
        }
    }
}

/// The members of `modifiers_in_order(h, n)`: the held modifiers among the
/// first `n` positions, each once.
proof fn lemma_in_order_members(h: Set<KeyCode>, n: int)
    requires
        0 <= n <= 9,
    ensures
        modifiers_in_order(h, n).no_duplicates(),
        forall|k: KeyCode| #[trigger]
            modifiers_in_order(h, n).contains(k) ==> is_modifier_key(k) && h.contains(k)
                && modifier_index(k) < n,
        forall|j: int|
            0 <= j < n && h.contains(modifier_key(j)) ==> #[trigger] modifiers_in_order(
                h,
                n,
            ).contains(modifier_key(j)),
    decreases n,
{
    if n > 0 {
        lemma_in_order_members(h, n - 1);
        let prev = modifiers_in_order(h, n - 1);
        let cur = modifiers_in_order(h, n);
        let mk = modifier_key(n - 1);
        lemma_modifier_table(n - 1, mk);
        if h.contains(mk) {
            assert forall|k: KeyCode| #[trigger] cur.contains(k) implies is_modifier_key(k)
                && h.contains(k) && modifier_index(k) < n by {
                let j = choose|j: int| 0 <= j < cur.len() && cur[j] == k;
                if j < prev.len() {
                    assert(prev.contains(k));
                }
            }
            assert forall|j: int|
                0 <= j < n && h.contains(modifier_key(j)) implies #[trigger] cur.contains(
                modifier_key(j),
            ) by {
                if j < n - 1 {
                    assert(prev.contains(modifier_key(j)));
                    let w = choose|w: int| 0 <= w < prev.len() && prev[w] == modifier_key(j);
                    assert(cur[w] == modifier_key(j));
                } else {
                    assert(cur[cur.len() - 1] == mk);
                }
            }
            assert forall|a: int, b: int| 0 <= a < cur.len() && 0 <= b < cur.len() && a != b implies cur[a]
                != cur[b] by {
                if a == cur.len() - 1 {
                    assert(prev.contains(cur[b]));
                } else if b == cur.len() - 1 {
                    assert(prev.contains(cur[a]));
                }
            }
        } else {
            assert forall|j: int|
                0 <= j < n && h.contains(modifier_key(j)) implies #[trigger] cur.contains(
                modifier_key(j),
            ) by {
                if j < n - 1 {
                    assert(prev.contains(modifier_key(j)));
                }
            }
        }
    }
}

/// Whether `key` occurs in `keys`.
fn contains_key(keys: &Vec<KeyCode>, key: KeyCode) -> (r: bool)
    ensures
        r == keys@.contains(key),
{
    let mut i: usize = 0;
    while i < keys.len()
        invariant
            i <= keys@.len(),
            forall|j: int| 0 <= j < i ==> keys@[j] != key,
        decreases keys@.len() - i,
    {
        if keys[i] == key {
            return true;
        }
        i += 1;
    }
    false
}

/// `modifiers_in_order` only looks at the modifiers among its first `n`
/// positions.
proof fn lemma_in_order_congruent(a: Set<KeyCode>, b: Set<KeyCode>, n: int)
    requires
        forall|j: int| 0 <= j < n ==> a.contains(modifier_key(j)) == b.contains(modifier_key(j)),
    ensures
        modifiers_in_order(a, n) == modifiers_in_order(b, n),
    decreases n,
{
    if n > 0 {
        lemma_in_order_congruent(a, b, n - 1);
    }
}

/// With no modifier held at positions `n..9`, the full order is the prefix.
proof fn lemma_in_order_tail(h: Set<KeyCode>, n: int)
    requires
        0 <= n <= 9,
        forall|j: int| n <= j < 9 ==> !h.contains(#[trigger] modifier_key(j)),
    ensures
        ordered_modifiers(h) == modifiers_in_order(h, n),
    decreases 9 - n,
{
    if n < 9 {
        lemma_in_order_tail(h, n + 1);
    }
}

/// With no modifier held at all, the order is empty.
proof fn lemma_in_order_no_modifiers(h: Set<KeyCode>, n: int)
    requires
        forall|j: int| 0 <= j < n ==> !h.contains(#[trigger] modifier_key(j)),
    ensures
        modifiers_in_order(h, n) == Seq::<KeyCode>::empty(),
    decreases n,
{
    if n > 0 {
        lemma_in_order_no_modifiers(h, n - 1);
    }
}

/// Removing the held modifier at position `i`, the latest one held, drops the
/// last element of the order.
proof fn lemma_in_order_remove_last(h: Set<KeyCode>, i: int)
    requires
        0 <= i < 9,
        h.contains(modifier_key(i)),
        forall|j: int| i < j < 9 ==> !h.contains(#[trigger] modifier_key(j)),
    ensures
        ordered_modifiers(h).len() > 0,
        ordered_modifiers(h).last() == modifier_key(i),
        ordered_modifiers(h.remove(modifier_key(i))) == ordered_modifiers(h).drop_last(),
{
    let r = h.remove(modifier_key(i));
    lemma_in_order_tail(h, i + 1);
    assert forall|j: int| i <= j < 9 implies !r.contains(#[trigger] modifier_key(j)) by {
        lemma_modifier_table(j, modifier_key(j));
        lemma_modifier_table(i, modifier_key(i));
    }
    lemma_in_order_tail(r, i);
    assert forall|j: int| 0 <= j < i implies r.contains(modifier_key(j)) == h.contains(
        modifier_key(j),
    ) by {
        lemma_modifier_table(j, modifier_key(j));
        lemma_modifier_table(i, modifier_key(i));
    }
    lemma_in_order_congruent(r, h, i);
    assert(modifiers_in_order(h, i + 1) == modifiers_in_order(h, i).push(modifier_key(i)));
    assert(modifiers_in_order(h, i).push(modifier_key(i)).drop_last() =~= modifiers_in_order(h, i));
}

} // verus!
