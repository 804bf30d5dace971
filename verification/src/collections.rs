//! Ordered sets and maps keyed by text. Both keep their keys strictly ascending
//! in the order of `text_lt`, so walking one visits every key once, in order.
use vstd::prelude::*;

use crate::finding::Severity;
use crate::text::{chars_of, str_eq};

verus! {

/// Lexicographic order by code point, the order of `str`.
pub open spec fn text_lt(a: Seq<char>, b: Seq<char>) -> bool
    decreases a.len(),
{
    if b.len() == 0 {
        false
    } else if a.len() == 0 {
        true
    } else {
        a[0] < b[0] || (a[0] == b[0] && text_lt(a.drop_first(), b.drop_first()))
    }
}

/// No text sorts before itself.
pub proof fn text_lt_irreflexive(a: Seq<char>)
    ensures
        !text_lt(a, a),
    decreases a.len(),
{
    if a.len() > 0 {
        text_lt_irreflexive(a.drop_first());
    }
}

/// The order is transitive.
pub proof fn text_lt_transitive(a: Seq<char>, b: Seq<char>, c: Seq<char>)
    requires
        text_lt(a, b),
        text_lt(b, c),
    ensures
        text_lt(a, c),
    decreases a.len(),
{
    if a.len() > 0 && a[0] == b[0] && b[0] == c[0] {
        text_lt_transitive(a.drop_first(), b.drop_first(), c.drop_first());
    }
}

/// Of two different texts one sorts before the other.
pub proof fn text_lt_total(a: Seq<char>, b: Seq<char>)
    ensures
        text_lt(a, b) || text_lt(b, a) || a == b,
    decreases a.len(),
{
    if a.len() == 0 {
        if b.len() == 0 {
            assert(a == b);
        }
    } else if b.len() > 0 && a[0] == b[0] {
        text_lt_total(a.drop_first(), b.drop_first());
        if a.drop_first() == b.drop_first() {
            assert(a == seq![a[0]] + a.drop_first());
            assert(b == seq![b[0]] + b.drop_first());
        }
    }
}

/// Whether `a` sorts before `b`.
pub fn text_less(a: &str, b: &str) -> (r: bool)
    ensures
        r == text_lt(a@, b@),
{
    let x = chars_of(a);
    let y = chars_of(b);
    let mut i: usize = 0;
    assert(a@.subrange(0, x@.len() as int) == a@);
    assert(b@.subrange(0, y@.len() as int) == b@);
    while i < x.len() && i < y.len()
        invariant
            i <= x@.len(),
            i <= y@.len(),
            x@ == a@,
            y@ == b@,
            text_lt(a@, b@) == text_lt(
                a@.subrange(i as int, x@.len() as int),
                b@.subrange(i as int, y@.len() as int),
            ),
        decreases x@.len() - i,
    {
        let ghost s = a@.subrange(i as int, x@.len() as int);
        let ghost t = b@.subrange(i as int, y@.len() as int);
        assert(s.drop_first() == a@.subrange(i + 1, x@.len() as int));
        assert(t.drop_first() == b@.subrange(i + 1, y@.len() as int));
        assert(s[0] == x@[i as int] && t[0] == y@[i as int]);
        if x[i] < y[i] {
            return true;
        }
        if y[i] < x[i] {
            return false;
        }
        i += 1;
    }
    i < y.len()
}

/// Whether every key sorts before the ones after it.
pub open spec fn strictly_ascending(keys: Seq<Seq<char>>) -> bool {
    forall|i: int, j: int| 0 <= i < j < keys.len() ==> text_lt(#[trigger] keys[i], #[trigger] keys[j])
}

/// The texts of a list of strings.
pub open spec fn texts(v: Seq<String>) -> Seq<Seq<char>> {
    v.map_values(|s: String| s@)
}

/// A set of texts.
#[derive(Debug)]
pub struct TextSet {
    items: Vec<String>,
}

impl View for TextSet {
    type V = Seq<Seq<char>>;

    closed spec fn view(&self) -> Seq<Seq<char>> {
        texts(self.items@)
    }
}

impl TextSet {
    #[verifier::type_invariant]
    closed spec fn inv(self) -> bool {
        strictly_ascending(texts(self.items@))
    }

    /// The empty set.
    pub fn new() -> (r: TextSet)
        ensures
            r@ == Seq::<Seq<char>>::empty(),
    {
        let r = TextSet { items: Vec::new() };
        assert(r@ == Seq::<Seq<char>>::empty());
        r
    }

    /// Number of members.
    pub fn len(&self) -> (r: usize)
        ensures
            r == self@.len(),
            strictly_ascending(self@),
    {
        proof {
            use_type_invariant(self);
        }
        self.items.len()
    }

    /// Whether the set has no member.
    pub fn is_empty(&self) -> (r: bool)
        ensures
            r == (self@.len() == 0),
    {
        self.items.len() == 0
    }

    /// The `i`-th member in order.
    pub fn at(&self, i: usize) -> (r: &String)
        requires
            i < self@.len(),
        ensures
            r@ == self@[i as int],
    {
        &self.items[i]
    }

    /// Whether `k` is a member.
    pub fn contains(&self, k: &str) -> (r: bool)
        ensures
            r == self@.contains(k@),
    {
        let mut i: usize = 0;
        while i < self.items.len()
            invariant
                i <= self.items@.len(),
                forall|j: int| 0 <= j < i ==> self@[j] != k@,
            decreases self.items@.len() - i,
        {
            if str_eq(self.items[i].as_str(), k) {
                assert(self@[i as int] == k@);
                return true;
            }
            i += 1;
        }
        false
    }

    /// Adds `k`; nothing changes where it is already a member.
    pub fn insert(&mut self, k: String)
        ensures
            forall|x: Seq<char>| #[trigger]
                final(self)@.contains(x) <==> (old(self)@.contains(x) || x == k@),
            strictly_ascending(final(self)@),
    {
        proof {
            use_type_invariant(&*self);
        }
        let ghost before = self.items@;
        let mut i: usize = 0;
        while i < self.items.len() && text_less(self.items[i].as_str(), k.as_str())
            invariant
                i <= self.items@.len(),
                self.items@ == before,
                forall|j: int| 0 <= j < i ==> text_lt(#[trigger] texts(before)[j], k@),
            decreases self.items@.len() - i,
        {
            i += 1;
        }
        if i < self.items.len() && str_eq(self.items[i].as_str(), k.as_str()) {
            proof {
                assert(texts(before)[i as int] == k@);
            }
            return;
        }
        let ghost key = k@;
        proof {
            lemma_slot(texts(before), i as int, key);
            let after = texts(before).insert(i as int, key);
            assert(texts(before.insert(i as int, k)) =~= after);
            assert forall|x: Seq<char>| #[trigger] after.contains(x) <==> (texts(before).contains(x)
                || x == key) by {
                lemma_insert_contains(texts(before), i as int, key, x);
            }
        }
        let mut items: Vec<String> = Vec::new();
        std::mem::swap(&mut self.items, &mut items);
        items.insert(i, k);
        *self = TextSet { items };
    }

    /// Takes `k` out; nothing changes where it is no member.
    pub fn remove(&mut self, k: &str)
        ensures
            forall|x: Seq<char>| #[trigger]
                final(self)@.contains(x) <==> (old(self)@.contains(x) && x != k@),
            strictly_ascending(final(self)@),
    {
        proof {
            use_type_invariant(&*self);
        }
        let ghost before = texts(self.items@);
        let mut kept: Vec<String> = Vec::new();
        let mut i: usize = 0;
        while i < self.items.len()
            invariant
                i <= self.items@.len(),
                before == texts(self.items@),
                strictly_ascending(before),
                strictly_ascending(texts(kept@)),
                forall|x: Seq<char>| #[trigger]
                    texts(kept@).contains(x) <==> (before.take(i as int).contains(x) && x != k@),
            decreases self.items@.len() - i,
        {
            let ghost old_kept = texts(kept@);
            let ghost item = self.items[i as int]@;
            proof {
                assert(before.take(i + 1) == before.take(i as int).push(item));
                assert forall|x: Seq<char>| #[trigger]
                    before.take(i + 1).contains(x) <==> (before.take(i as int).contains(x) || x
                        == item) by {
                    lemma_push_contains(before.take(i as int), item, x);
                }
            }
            if !str_eq(self.items[i].as_str(), k) {
                let s = self.items[i].clone();
                proof {
                    let after = texts(kept@.push(s));
                    assert(after == old_kept.push(item));
                    assert forall|a: int, b: int| 0 <= a < b < after.len() implies text_lt(
                        #[trigger] after[a],
                        #[trigger] after[b],
                    ) by {
                        assert(after[a] == old_kept[a]);
                        if b == old_kept.len() {
                            assert(old_kept.contains(old_kept[a]));
                            let p = before.take(i as int);
                            let m = choose|m: int| 0 <= m < p.len() && p[m] == old_kept[a];
                            assert(text_lt(before[m], before[i as int]));
                        } else {
                            assert(after[b] == old_kept[b]);
                        }
                    }
                    assert forall|x: Seq<char>| #[trigger]
                        after.contains(x) <==> (old_kept.contains(x) || x == item) by {
                        lemma_push_contains(old_kept, item, x);
                    }
                }
                kept.push(s);
            }
            i += 1;
        }
        assert(before.take(before.len() as int) == before);
        *self = TextSet { items: kept };
    }

    /// Adds every member of `other`.
    pub fn extend(&mut self, other: &TextSet)
        ensures
            forall|x: Seq<char>| #[trigger]
                final(self)@.contains(x) <==> (old(self)@.contains(x) || other@.contains(x)),
            strictly_ascending(final(self)@),
    {
        proof {
            use_type_invariant(&*self);
        }
        let ghost before = self@;
        let mut i: usize = 0;
        while i < other.items.len()
            invariant
                i <= other.items@.len(),
                other@.len() == other.items@.len(),
                strictly_ascending(self@),
                forall|x: Seq<char>| #[trigger]
                    self@.contains(x) <==> (before.contains(x) || other@.take(i as int).contains(
                        x,
                    )),
            decreases other.items@.len() - i,
        {
            let k = other.items[i].clone();
            proof {
                let p = other@.take(i as int);
                let q = other@.take(i + 1);
                assert(q == p.push(k@));
                assert forall|x: Seq<char>| #[trigger] q.contains(x) <==> (p.contains(x) || x
                    == k@) by {
                    lemma_push_contains(p, k@, x);
                }
            }
            self.insert(k);
            i += 1;
        }
        assert(other@.take(other@.len() as int) == other@);
    }

    /// A copy of the set.
    pub fn duplicate(&self) -> (r: TextSet)
        ensures
            r@ == self@,
    {
        proof {
            use_type_invariant(self);
        }
        let mut items: Vec<String> = Vec::new();
        let mut i: usize = 0;
        while i < self.items.len()
            invariant
                i <= self.items@.len(),
                items@ == self.items@.take(i as int),
            decreases self.items@.len() - i,
        {
            items.push(self.items[i].clone());
            i += 1;
        }
        assert(items@ == self.items@);
        TextSet { items }
    }
}

/// A map from texts to values.
#[derive(Debug)]
pub struct TextMap<V> {
    keys: Vec<String>,
    values: Vec<V>,
}

impl<V> TextMap<V> {
    #[verifier::type_invariant]
    closed spec fn inv(self) -> bool {
        &&& strictly_ascending(texts(self.keys@))
        &&& self.keys@.len() == self.values@.len()
    }

    /// The keys, in order.
    pub closed spec fn keys(&self) -> Seq<Seq<char>> {
        texts(self.keys@)
    }

    /// The values, in the order of their keys.
    pub closed spec fn values(&self) -> Seq<V> {
        self.values@
    }

    /// Where `k` stands among the keys.
    pub open spec fn has(&self, k: Seq<char>) -> bool {
        self.keys().contains(k)
    }

    /// The value of a key.
    pub open spec fn value_of(&self, k: Seq<char>) -> V {
        self.values()[self.keys().index_of(k)]
    }

    /// The empty map.
    pub fn new() -> (r: TextMap<V>)
        ensures
            r.keys() == Seq::<Seq<char>>::empty(),
            r.values() == Seq::<V>::empty(),
    {
        let r = TextMap { keys: Vec::new(), values: Vec::new() };
        assert(r.keys() == Seq::<Seq<char>>::empty());
        r
    }

    /// Number of entries.
    pub fn len(&self) -> (r: usize)
        ensures
            r == self.keys().len(),
            r == self.values().len(),
            strictly_ascending(self.keys()),
    {
        proof {
            use_type_invariant(self);
        }
        self.keys.len()
    }

    /// Whether the map has no entry.
    pub fn is_empty(&self) -> (r: bool)
        ensures
            r == (self.keys().len() == 0),
    {
        self.keys.len() == 0
    }

    /// The `i`-th key in order.
    pub fn key_at(&self, i: usize) -> (r: &String)
        requires
            i < self.keys().len(),
        ensures
            r@ == self.keys()[i as int],
    {
        &self.keys[i]
    }

    /// The value of the `i`-th key in order.
    pub fn value_at(&self, i: usize) -> (r: &V)
        requires
            i < self.keys().len(),
        ensures
            *r == self.values()[i as int],
            self.has(self.keys()[i as int]),
            *r == self.value_of(self.keys()[i as int]),
    {
        proof {
            use_type_invariant(self);
            lemma_position(self.keys(), i as int);
        }
        &self.values[i]
    }

    /// The value of `k`, if it is a key.
    pub fn get(&self, k: &str) -> (r: Option<&V>)
        ensures
            r is Some <==> self.has(k@),
            r is Some ==> *r->0 == self.value_of(k@),
    {
        proof {
            use_type_invariant(self);
        }
        let mut i: usize = 0;
        while i < self.keys.len()
            invariant
                i <= self.keys@.len(),
                self.keys@.len() == self.values@.len(),
                strictly_ascending(self.keys()),
                forall|j: int| 0 <= j < i ==> self.keys()[j] != k@,
            decreases self.keys@.len() - i,
        {
            if str_eq(self.keys[i].as_str(), k) {
                proof {
                    assert(self.keys()[i as int] == k@);
                    lemma_position(self.keys(), i as int);
                }
                return Some(&self.values[i]);
            }
            i += 1;
        }
        None
    }

    /// Sets the value of `k`.
    pub fn insert(&mut self, k: String, v: V)
        ensures
            forall|x: Seq<char>| #[trigger] final(self).has(x) <==> (old(self).has(x) || x == k@),
            forall|x: Seq<char>|
                #[trigger] final(self).has(x) ==> final(self).value_of(x) == (if x == k@ {
                    v
                } else {
                    old(self).value_of(x)
                }),
            strictly_ascending(final(self).keys()),
    {
        proof {
            use_type_invariant(&*self);
        }
        let ghost before = *self;
        let ghost key = k@;
        let mut i: usize = 0;
        while i < self.keys.len() && text_less(self.keys[i].as_str(), k.as_str())
            invariant
                i <= self.keys@.len(),
                *self == before,
                self.keys@.len() == self.values@.len(),
                forall|j: int| 0 <= j < i ==> text_lt(#[trigger] before.keys()[j], k@),
            decreases self.keys@.len() - i,
        {
            i += 1;
        }
        let found = i < self.keys.len() && str_eq(self.keys[i].as_str(), k.as_str());
        let mut taken = TextMap { keys: Vec::new(), values: Vec::new() };
        std::mem::swap(self, &mut taken);
        let TextMap { keys: mut keys, values: mut values } = taken;
        if found {
            values.set(i, v);
            proof {
                assert(before.keys()[i as int] == key);
            }
        } else {
            proof {
                lemma_slot(before.keys(), i as int, key);
                assert(texts(keys@.insert(i as int, k)) =~= before.keys().insert(i as int, key));
            }
            keys.insert(i, k);
            values.insert(i, v);
        }
        *self = TextMap { keys, values };
        proof {
            let ks = self.keys();
            let vs = self.values();
            assert forall|x: Seq<char>| #[trigger] self.has(x) <==> (before.has(x) || x == key) by {
                if found {
                    assert(ks == before.keys());
                } else {
                    lemma_insert_contains(before.keys(), i as int, key, x);
                }
            }
            assert forall|x: Seq<char>| #[trigger] self.has(x) implies self.value_of(x) == (if x
                == key {
                v
            } else {
                before.value_of(x)
            }) by {
                let p = ks.index_of(x);
                assert(ks[p] == x);
                if x == key {
                    lemma_position(ks, i as int);
                } else if found {
                    lemma_position(before.keys(), p);
                } else {
                    let p0 = if p < i { p } else { p - 1 };
                    assert(before.keys()[p0] == x);
                    lemma_position(before.keys(), p0);
                }
            }
        }
    }
}

impl<V> TextMap<V> {
    /// Takes a key out, if it is there.
    pub fn remove(&mut self, k: &str) -> (r: Option<V>)
        ensures
            r is Some <==> old(self).has(k@),
            r is Some ==> r->0 == old(self).value_of(k@),
            forall|x: Seq<char>| #[trigger] final(self).has(x) <==> (old(self).has(x) && x != k@),
            forall|x: Seq<char>| #[trigger]
                final(self).has(x) ==> final(self).value_of(x) == old(self).value_of(x),
            strictly_ascending(final(self).keys()),
    {
        proof {
            use_type_invariant(&*self);
        }
        let ghost before = *self;
        let ghost ks = before.keys();
        let mut i: usize = 0;
        while i < self.keys.len() && !str_eq(self.keys[i].as_str(), k)
            invariant
                i <= self.keys@.len(),
                *self == before,
                ks == before.keys(),
                self.keys@.len() == self.values@.len(),
                forall|j: int| 0 <= j < i ==> #[trigger] ks[j] != k@,
            decreases self.keys@.len() - i,
        {
            assert(ks[i as int] == self.keys@[i as int]@);
            i += 1;
        }
        if i >= self.keys.len() {
            return None;
        }
        assert(ks[i as int] == k@);
        let mut taken = TextMap { keys: Vec::new(), values: Vec::new() };
        std::mem::swap(self, &mut taken);
        let TextMap { keys: mut keys, values: mut values } = taken;
        let _key = keys.remove(i);
        let v = values.remove(i);
        proof {
            assert(texts(keys@) =~= ks.remove(i as int));
            assert forall|a: int, b: int| 0 <= a < b < keys@.len() implies text_lt(
                #[trigger] texts(keys@)[a],
                #[trigger] texts(keys@)[b],
            ) by {
                let a0 = if a < i { a } else { a + 1 };
                let b0 = if b < i { b } else { b + 1 };
                assert(text_lt(ks[a0], ks[b0]));
            }
        }
        *self = TextMap { keys, values };
        proof {
            let after = self.keys();
            lemma_position(ks, i as int);
            assert forall|x: Seq<char>| #[trigger] self.has(x) implies before.has(x) && x != k@
                && self.value_of(x) == before.value_of(x) by {
                let p = after.index_of(x);
                assert(after[p] == x);
                lemma_position(after, p);
                let p0 = if p < i { p } else { p + 1 };
                assert(ks[p0] == x);
                lemma_position(ks, p0);
            }
            assert forall|x: Seq<char>| before.has(x) && x != k@ implies #[trigger] self.has(x) by {
                let p = ks.index_of(x);
                assert(ks[p] == x);
                let p1 = if p < i { p } else { p - 1 };
                assert(after[p1] == x);
            }
        }
        Some(v)
    }
}

impl TextMap<Severity> {
    /// A copy of the map.
    pub fn duplicate(&self) -> (r: TextMap<Severity>)
        ensures
            r.keys() == self.keys(),
            r.values() == self.values(),
    {
        proof {
            use_type_invariant(self);
        }
        let mut keys: Vec<String> = Vec::new();
        let mut values: Vec<Severity> = Vec::new();
        let mut i: usize = 0;
        while i < self.keys.len()
            invariant
                i <= self.keys@.len() == self.values@.len(),
                keys@ == self.keys@.take(i as int),
                values@ == self.values@.take(i as int),
            decreases self.keys@.len() - i,
        {
            keys.push(self.keys[i].clone());
            values.push(self.values[i]);
            i += 1;
        }
        assert(keys@ == self.keys@);
        assert(values@ == self.values@);
        TextMap { keys, values }
    }
}

impl TextMap<String> {
    /// A copy of the map.
    pub fn duplicate(&self) -> (r: TextMap<String>)
        ensures
            r.keys() == self.keys(),
            r.values() == self.values(),
    {
        proof {
            use_type_invariant(self);
        }
        let mut keys: Vec<String> = Vec::new();
        let mut values: Vec<String> = Vec::new();
        let mut i: usize = 0;
        while i < self.keys.len()
            invariant
                i <= self.keys@.len() == self.values@.len(),
                keys@ == self.keys@.take(i as int),
                values@ == self.values@.take(i as int),
            decreases self.keys@.len() - i,
        {
            keys.push(self.keys[i].clone());
            values.push(self.values[i].clone());
            i += 1;
        }
        assert(keys@ == self.keys@);
        assert(values@ == self.values@);
        TextMap { keys, values }
    }
}

/// In an ascending list a key stands in one place only.
proof fn lemma_position(keys: Seq<Seq<char>>, i: int)
    requires
        strictly_ascending(keys),
        0 <= i < keys.len(),
    ensures
        keys.index_of(keys[i]) == i,
        keys.contains(keys[i]),
{
    let p = keys.index_of(keys[i]);
    assert(0 <= p < keys.len() && keys[p] == keys[i]);
    if p != i {
        text_lt_irreflexive(keys[i]);
    }
}

/// A new key goes after all smaller ones and before the first that is not.
proof fn lemma_slot(keys: Seq<Seq<char>>, i: int, k: Seq<char>)
    requires
        strictly_ascending(keys),
        0 <= i <= keys.len(),
        forall|j: int| 0 <= j < i ==> text_lt(#[trigger] keys[j], k),
        i < keys.len() ==> !text_lt(keys[i], k) && keys[i] != k,
    ensures
        strictly_ascending(keys.insert(i, k)),
{
    if i < keys.len() {
        text_lt_total(keys[i], k);
    }
    assert forall|j: int| i <= j < keys.len() implies text_lt(k, #[trigger] keys[j]) by {
        if i < j {
            text_lt_transitive(k, keys[i], keys[j]);
        }
    }
    let after = keys.insert(i, k);
    assert forall|a: int, b: int| 0 <= a < b < after.len() implies text_lt(
        #[trigger] after[a],
        #[trigger] after[b],
    ) by {
        let a0 = if a < i { a } else { a - 1 };
        let b0 = if b < i { b } else { b - 1 };
        if a != i {
            assert(after[a] == keys[a0]);
        }
        if b != i {
            assert(after[b] == keys[b0]);
        }
    }
}

proof fn lemma_push_contains(keys: Seq<Seq<char>>, k: Seq<char>, x: Seq<char>)
    ensures
        keys.push(k).contains(x) <==> (keys.contains(x) || x == k),
{
    assert(keys.push(k) == keys.insert(keys.len() as int, k));
    lemma_insert_contains(keys, keys.len() as int, k, x);
}

proof fn lemma_insert_contains(keys: Seq<Seq<char>>, i: int, k: Seq<char>, x: Seq<char>)
    requires
        0 <= i <= keys.len(),
    ensures
        keys.insert(i, k).contains(x) <==> (keys.contains(x) || x == k),
{
    let after = keys.insert(i, k);
    if keys.contains(x) {
        let j = choose|j: int| 0 <= j < keys.len() && keys[j] == x;
        let j2 = if j < i { j } else { j + 1 };
        assert(after[j2] == x);
    }
    if x == k {
        assert(after[i] == x);
    }
    if after.contains(x) && x != k {
        let j = choose|j: int| 0 <= j < after.len() && after[j] == x;
        let j2 = if j < i { j } else { j - 1 };
        assert(keys[j2] == x);
    }
}

} // verus!
