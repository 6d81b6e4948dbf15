//! An ordered map from strings to strings.
//!
//! Entries are kept sorted by key in code-point order, which for UTF-8 text
//! is the byte order that `BTreeMap<String, String>` uses; iteration order
//! is therefore the same as that of a `BTreeMap`.
use vstd::prelude::*;

use crate::text::{chars_eq, chars_of};

verus! {

/// Three-way comparison of character sequences in code-point order
/// (`-1` less, `0` equal, `1` greater).
pub open spec fn seq_order(a: Seq<char>, b: Seq<char>) -> int
    decreases a.len(),
{
    if a.len() == 0 {
        if b.len() == 0 {
            0
        } else {
            -1
        }
    } else if b.len() == 0 {
        1
    } else if a[0] < b[0] {
        -1
    } else if a[0] > b[0] {
        1
    } else {
        seq_order(a.drop_first(), b.drop_first())
    }
}

/// Keys strictly increase along the entry sequence.
pub open spec fn keys_sorted(es: Seq<(Seq<char>, Seq<char>)>) -> bool {
    forall|i: int, j: int| 0 <= i < j < es.len() ==> seq_order(#[trigger] es[i].0, #[trigger] es[j].0) < 0
}

/// Some entry has key `k`.
pub open spec fn has_key(es: Seq<(Seq<char>, Seq<char>)>, k: Seq<char>) -> bool {
    exists|i: int| 0 <= i < es.len() && #[trigger] es[i].0 == k
}

/// The map that an entry sequence denotes.
pub open spec fn as_map(es: Seq<(Seq<char>, Seq<char>)>) -> Map<Seq<char>, Seq<char>> {
    Map::new(|k: Seq<char>| has_key(es, k), |k: Seq<char>| es[key_index(es, k)].1)
}

/// An index at which key `k` is stored, when there is one.
pub open spec fn key_index(es: Seq<(Seq<char>, Seq<char>)>, k: Seq<char>) -> int {
    choose|i: int| 0 <= i < es.len() && #[trigger] es[i].0 == k
}

pub proof fn lemma_order_refl(a: Seq<char>)
    ensures
        seq_order(a, a) == 0,
    decreases a.len(),
{
    if a.len() > 0 {
        lemma_order_refl(a.drop_first());
    }
}

pub proof fn lemma_order_antisym(a: Seq<char>, b: Seq<char>)
    ensures
        seq_order(a, b) == -seq_order(b, a),
    decreases a.len(),
{
    if a.len() > 0 && b.len() > 0 && a[0] == b[0] {
        lemma_order_antisym(a.drop_first(), b.drop_first());
    }
}

pub proof fn lemma_order_zero(a: Seq<char>, b: Seq<char>)
    requires
        seq_order(a, b) == 0,
    ensures
        a == b,
    decreases a.len(),
{
    if a.len() > 0 && b.len() > 0 {
        lemma_order_zero(a.drop_first(), b.drop_first());
        assert(a =~= seq![a[0]] + a.drop_first());
        assert(b =~= seq![b[0]] + b.drop_first());
    }
}

pub proof fn lemma_order_trans(a: Seq<char>, b: Seq<char>, c: Seq<char>)
    requires
        seq_order(a, b) < 0,
        seq_order(b, c) < 0,
    ensures
        seq_order(a, c) < 0,
    decreases a.len(),
{
    if a.len() > 0 && b.len() > 0 && c.len() > 0 && a[0] == b[0] && b[0]
        == c[0] {
        lemma_order_trans(a.drop_first(), b.drop_first(), c.drop_first());
    }
}

/// In a sorted entry sequence, the key at index `i` maps to the value at `i`.
pub proof fn lemma_as_map_at(es: Seq<(Seq<char>, Seq<char>)>, i: int)
    requires
        keys_sorted(es),
        0 <= i < es.len(),
    ensures
        as_map(es).contains_key(es[i].0),
        as_map(es)[es[i].0] == es[i].1,
{
    let k = es[i].0;
    assert(has_key(es, k));
    let j = key_index(es, k);
    assert(0 <= j < es.len() && es[j].0 == k);
    if j < i {
        assert(seq_order(es[j].0, es[i].0) < 0);
        lemma_order_refl(k);
    } else if j > i {
        assert(seq_order(es[i].0, es[j].0) < 0);
        lemma_order_refl(k);
    }
}

/// The entries of a map, in key order.
pub open spec fn sorted_entries(m: Map<Seq<char>, Seq<char>>) -> Seq<(Seq<char>, Seq<char>)> {
    choose|es: Seq<(Seq<char>, Seq<char>)>| keys_sorted(es) && as_map(es) == m
}

/// Dropping the first entry of a sorted sequence removes the least key.
proof fn lemma_as_map_drop_first(es: Seq<(Seq<char>, Seq<char>)>)
    requires
        keys_sorted(es),
        es.len() > 0,
    ensures
        keys_sorted(es.drop_first()),
        as_map(es.drop_first()) == as_map(es).remove(es[0].0),
{
    let t = es.drop_first();
    let k0 = es[0].0;
    assert forall|i: int, j: int| 0 <= i < j < t.len() implies seq_order(
        #[trigger] t[i].0,
        #[trigger] t[j].0,
    ) < 0 by {
        assert(t[i] == es[i + 1] && t[j] == es[j + 1]);
    }
    assert forall|k: Seq<char>| #[trigger] has_key(t, k) <==> (has_key(es, k) && k != k0) by {
        if has_key(t, k) {
            let i = choose|i: int| 0 <= i < t.len() && #[trigger] t[i].0 == k;
            assert(es[i + 1].0 == k);
            assert(seq_order(es[0].0, es[i + 1].0) < 0);
            lemma_order_refl(k);
        }
        if has_key(es, k) && k != k0 {
            let i = choose|i: int| 0 <= i < es.len() && #[trigger] es[i].0 == k;
            assert(i != 0);
            assert(t[i - 1].0 == k);
        }
    }
    assert forall|k: Seq<char>| #[trigger] as_map(t).contains_key(k) implies as_map(t)[k] == as_map(
        es,
    )[k] by {
        let i = choose|i: int| 0 <= i < t.len() && #[trigger] t[i].0 == k;
        lemma_as_map_at(t, i);
        lemma_as_map_at(es, i + 1);
        assert(es[i + 1] == t[i]);
    }
    assert(as_map(t) =~= as_map(es).remove(k0));
}

/// A map has only one sorted entry sequence.
pub proof fn lemma_sorted_unique(a: Seq<(Seq<char>, Seq<char>)>, b: Seq<(Seq<char>, Seq<char>)>)
    requires
        keys_sorted(a),
        keys_sorted(b),
        as_map(a) == as_map(b),
    ensures
        a == b,
    decreases a.len(),
{
    if a.len() == 0 || b.len() == 0 {
        if a.len() > 0 {
            lemma_as_map_at(a, 0);
            assert(as_map(b).contains_key(a[0].0));
        }
        if b.len() > 0 {
            lemma_as_map_at(b, 0);
            assert(as_map(a).contains_key(b[0].0));
        }
        assert(a =~= b);
    } else {
        lemma_as_map_at(a, 0);
        lemma_as_map_at(b, 0);
        let ka = a[0].0;
        let kb = b[0].0;
        assert(has_key(b, ka));
        assert(has_key(a, kb));
        let j = choose|j: int| 0 <= j < b.len() && #[trigger] b[j].0 == ka;
        let i = choose|i: int| 0 <= i < a.len() && #[trigger] a[i].0 == kb;
        if j > 0 {
            assert(seq_order(b[0].0, b[j].0) < 0);
            lemma_order_refl(ka);
            if i > 0 {
                assert(seq_order(a[0].0, a[i].0) < 0);
                lemma_order_antisym(ka, kb);
            }
        }
        assert(ka == kb);
        assert(a[0] == b[0]);
        lemma_as_map_drop_first(a);
        lemma_as_map_drop_first(b);
        lemma_sorted_unique(a.drop_first(), b.drop_first());
        assert(a =~= seq![a[0]] + a.drop_first());
        assert(b =~= seq![b[0]] + b.drop_first());
    }
}

/// A sorted entry sequence is the sorted entry sequence of its map.
pub proof fn lemma_sorted_entries(es: Seq<(Seq<char>, Seq<char>)>)
    requires
        keys_sorted(es),
    ensures
        sorted_entries(as_map(es)) == es,
        (sorted_entries(as_map(es)).len() == 0) == (as_map(es) == Map::<Seq<char>, Seq<char>>::empty()),
{
    assert(keys_sorted(es) && as_map(es) == as_map(es));
    let c = sorted_entries(as_map(es));
    lemma_sorted_unique(c, es);
    if es.len() > 0 {
        lemma_as_map_at(es, 0);
    } else {
        assert(as_map(es) =~= Map::<Seq<char>, Seq<char>>::empty());
    }
}

/// Three-way comparison of character slices in code-point order.
pub fn order_chars(a: &[char], b: &[char]) -> (r: i8)
    ensures
        r as int == seq_order(a@, b@),
{
    let mut i: usize = 0;
    assert(a@.skip(0) =~= a@);
    assert(b@.skip(0) =~= b@);
    loop
        invariant
            i <= a@.len(),
            i <= b@.len(),
            seq_order(a@, b@) == seq_order(a@.skip(i as int), b@.skip(i as int)),
        decreases a@.len() - i,
    {
        let ghost sa = a@.skip(i as int);
        let ghost sb = b@.skip(i as int);
        if i == a.len() {
            if i == b.len() {
                return 0;
            } else {
                return -1;
            }
        }
        if i == b.len() {
            return 1;
        }
        assert(sa[0] == a@[i as int]);
        assert(sb[0] == b@[i as int]);
        if a[i] < b[i] {
            return -1;
        }
        if a[i] > b[i] {
            return 1;
        }
        assert(sa.drop_first() =~= a@.skip(i as int + 1));
        assert(sb.drop_first() =~= b@.skip(i as int + 1));
        i = i + 1;
    }
}

/// The character view of each stored entry.
pub open spec fn view_entries(v: Seq<(String, String)>) -> Seq<(Seq<char>, Seq<char>)> {
    v.map_values(|e: (String, String)| (e.0@, e.1@))
}

/// A map from strings to strings whose entries are ordered by key.
#[derive(Debug)]
pub struct StrMap {
    entries: Vec<(String, String)>,
}

impl StrMap {
    /// The entries, in key order.
    pub closed spec fn entries_spec(&self) -> Seq<(Seq<char>, Seq<char>)> {
        view_entries(self.entries@)
    }

    #[verifier::type_invariant]
    spec fn sorted(&self) -> bool {
        keys_sorted(self.entries_spec())
    }

    /// An empty map (`BTreeMap::new`).
    pub fn new() -> (m: Self)
        ensures
            m.entries_spec() == Seq::<(Seq<char>, Seq<char>)>::empty(),
            m@ == Map::<Seq<char>, Seq<char>>::empty(),
            keys_sorted(m.entries_spec()),
    {
        let m = StrMap { entries: Vec::new() };
        assert(m.entries_spec() =~= Seq::<(Seq<char>, Seq<char>)>::empty());
        assert(m@ =~= Map::<Seq<char>, Seq<char>>::empty());
        m
    }

    /// Number of entries (`BTreeMap::len`).
    pub fn len(&self) -> (n: usize)
        ensures
            n == self.entries_spec().len(),
            keys_sorted(self.entries_spec()),
    {
        proof {
            use_type_invariant(self);
        }
        self.entries.len()
    }

    /// Whether the map is empty (`BTreeMap::is_empty`).
    pub fn is_empty(&self) -> (b: bool)
        ensures
            b == (self.entries_spec().len() == 0),
            b == (self@ == Map::<Seq<char>, Seq<char>>::empty()),
            keys_sorted(self.entries_spec()),
    {
        proof {
            use_type_invariant(self);
            if self.entries_spec().len() > 0 {
                use_type_invariant(self);
                lemma_as_map_at(self.entries_spec(), 0);
                assert(self@.contains_key(self.entries_spec()[0].0));
            } else {
                assert(self@ =~= Map::<Seq<char>, Seq<char>>::empty());
            }
        }
        self.entries.len() == 0
    }

    /// The `i`-th entry in key order.
    pub fn entry(&self, i: usize) -> (e: (&String, &String))
        requires
            i < self.entries_spec().len(),
        ensures
            (e.0@, e.1@) == self.entries_spec()[i as int],
            keys_sorted(self.entries_spec()),
    {
        proof {
            use_type_invariant(self);
        }
        let e = &self.entries[i];
        (&e.0, &e.1)
    }

    /// The value stored under `key` (`BTreeMap::get`).
    pub fn get(&self, key: &str) -> (r: Option<&String>)
        ensures
            r matches Some(v) ==> self@.contains_key(key@) && v@ == self@[key@],
            r is None ==> !self@.contains_key(key@),
            keys_sorted(self.entries_spec()),
    {
        proof {
            use_type_invariant(self);
        }
        let k = chars_of(key);
        let mut i: usize = 0;
        while i < self.entries.len()
            invariant
                i <= self.entries_spec().len(),
                self.entries_spec().len() == self.entries@.len(),
                keys_sorted(self.entries_spec()),
                k@ == key@,
                forall|j: int| 0 <= j < i ==> self.entries_spec()[j].0 != key@,
            decreases self.entries.len() - i,
        {
            let ek = chars_of(self.entries[i].0.as_str());
            if chars_eq(ek.as_slice(), k.as_slice()) {
                proof {
                    lemma_as_map_at(self.entries_spec(), i as int);
                }
                return Some(&self.entries[i].1);
            }
            i = i + 1;
        }
        None
    }

    /// Whether `key` is present (`BTreeMap::contains_key`).
    pub fn contains_key(&self, key: &str) -> (b: bool)
        ensures
            b == self@.contains_key(key@),
            keys_sorted(self.entries_spec()),
    {
        match self.get(key) {
            Some(_) => true,
            None => false,
        }
    }

    /// Stores `value` under `key`, replacing an earlier value
    /// (`BTreeMap::insert`); the entries stay in key order.
    pub fn insert(&mut self, key: String, value: String)
        ensures
            final(self)@ == old(self)@.insert(key@, value@),
            keys_sorted(final(self).entries_spec()),
            final(self).entries_spec() == sorted_entries(final(self)@),
    {
        proof {
            use_type_invariant(&*self);
        }
        let ghost es = self.entries_spec();
        let k = chars_of(key.as_str());
        let mut i: usize = 0;
        while i < self.entries.len()
            invariant
                i <= es.len(),
                es == self.entries_spec(),
                es == old(self).entries_spec(),
                es.len() == self.entries@.len(),
                keys_sorted(es),
                k@ == key@,
                forall|j: int| 0 <= j < i ==> seq_order(es[j].0, key@) < 0,
            ensures
                i <= es.len(),
                forall|j: int| 0 <= j < i ==> seq_order(es[j].0, key@) < 0,
                i < es.len() ==> seq_order(key@, es[i as int].0) < 0,
            decreases self.entries.len() - i,
        {
            let ek = chars_of(self.entries[i].0.as_str());
            let c = order_chars(k.as_slice(), ek.as_slice());
            if c == 0 {
                proof {
                    lemma_order_zero(key@, es[i as int].0);
                }
                let ghost new_es = es.update(i as int, (key@, value@));
                let mut v: Vec<(String, String)> = Vec::new();
                std::mem::swap(&mut v, &mut self.entries);
                v.set(i, (key, value));
                proof {
                    assert(view_entries(v@) =~= new_es);
                    assert forall|a: int, b: int| 0 <= a < b < new_es.len() implies seq_order(
                        #[trigger] new_es[a].0,
                        #[trigger] new_es[b].0,
                    ) < 0 by {
                        assert(es[a].0 == new_es[a].0);
                        assert(es[b].0 == new_es[b].0);
                    }
                    lemma_replace_map(es, i as int, new_es);
                }
                self.entries = v;
                proof {
                    lemma_sorted_entries(new_es);
                }
                return;
            }
            if c < 0 {
                break;
            }
            proof {
                lemma_order_antisym(key@, es[i as int].0);
            }
            i = i + 1;
        }
        proof {
            if i < es.len() {
                lemma_order_antisym(key@, es[i as int].0);
            }
        }
        let ghost new_es = es.insert(i as int, (key@, value@));
        let ghost pos = i as int;
        let mut v: Vec<(String, String)> = Vec::new();
        std::mem::swap(&mut v, &mut self.entries);
        v.insert(i, (key, value));
        proof {
            assert(view_entries(v@) =~= new_es);
            assert forall|a: int, b: int| 0 <= a < b < new_es.len() implies seq_order(
                #[trigger] new_es[a].0,
                #[trigger] new_es[b].0,
            ) < 0 by {
                if b < pos {
                } else if b == pos {
                } else if a < pos {
                    if b - 1 > pos {
                        assert(seq_order(es[pos].0, es[b - 1].0) < 0);
                        lemma_order_trans(key@, es[pos].0, es[b - 1].0);
                    }
                    lemma_order_trans(es[a].0, key@, es[b - 1].0);
                } else if a == pos {
                    if b - 1 > pos {
                        assert(seq_order(es[pos].0, es[b - 1].0) < 0);
                        lemma_order_trans(key@, es[pos].0, es[b - 1].0);
                    }
                } else {
                }
            }
            lemma_insert_map(es, pos, new_es);
        }
        self.entries = v;
        proof {
            lemma_sorted_entries(new_es);
        }
    }
}

proof fn lemma_replace_map(
        es: Seq<(Seq<char>, Seq<char>)>,
        i: int,
        new_es: Seq<(Seq<char>, Seq<char>)>,
    )
        requires
            keys_sorted(es),
            keys_sorted(new_es),
            0 <= i < es.len(),
            new_es.len() == es.len(),
            new_es[i].0 == es[i].0,
            forall|j: int| 0 <= j < es.len() && j != i ==> new_es[j] == es[j],
        ensures
            as_map(new_es) == as_map(es).insert(new_es[i].0, new_es[i].1),
    {
        let m = as_map(es).insert(new_es[i].0, new_es[i].1);
        assert forall|k: Seq<char>| has_key(new_es, k) <==> m.contains_key(k) by {
            if has_key(new_es, k) {
                let j = choose|j: int| 0 <= j < new_es.len() && #[trigger] new_es[j].0 == k;
                if j != i {
                    assert(es[j].0 == k);
                }
            }
            if has_key(es, k) {
                let j = choose|j: int| 0 <= j < es.len() && #[trigger] es[j].0 == k;
                if j != i {
                    assert(new_es[j].0 == k);
                } else {
                    assert(new_es[i].0 == k);
                }
            }
            if k == new_es[i].0 {
                assert(new_es[i].0 == k);
            }
        }
        assert forall|k: Seq<char>| #[trigger] m.contains_key(k) implies as_map(new_es)[k]
            == m[k] by {
            let j = key_index(new_es, k);
            assert(has_key(new_es, k));
            assert(0 <= j < new_es.len() && new_es[j].0 == k);
            lemma_as_map_at(new_es, j);
            lemma_as_map_at(new_es, i);
            lemma_order_refl(k);
            if j != i {
                if j < i {
                    assert(seq_order(new_es[j].0, new_es[i].0) < 0);
                } else {
                    assert(seq_order(new_es[i].0, new_es[j].0) < 0);
                }
                lemma_as_map_at(es, j);
            }
        }
        assert(as_map(new_es) =~= m);
    }

proof fn lemma_insert_map(
        es: Seq<(Seq<char>, Seq<char>)>,
        pos: int,
        new_es: Seq<(Seq<char>, Seq<char>)>,
    )
        requires
            keys_sorted(es),
            keys_sorted(new_es),
            0 <= pos <= es.len(),
            new_es.len() == es.len() + 1,
            forall|j: int| 0 <= j < pos ==> new_es[j] == es[j],
            forall|j: int| pos < j < new_es.len() ==> new_es[j] == es[j - 1],
        ensures
            as_map(new_es) == as_map(es).insert(new_es[pos].0, new_es[pos].1),
    {
        let m = as_map(es).insert(new_es[pos].0, new_es[pos].1);
        assert forall|k: Seq<char>| has_key(new_es, k) <==> m.contains_key(k) by {
            if has_key(new_es, k) {
                let j = choose|j: int| 0 <= j < new_es.len() && #[trigger] new_es[j].0 == k;
                if j < pos {
                    assert(es[j].0 == k);
                } else if j > pos {
                    assert(es[j - 1].0 == k);
                }
            }
            if has_key(es, k) {
                let j = choose|j: int| 0 <= j < es.len() && #[trigger] es[j].0 == k;
                if j < pos {
                    assert(new_es[j].0 == k);
                } else {
                    assert(new_es[j + 1].0 == k);
                }
            }
            if k == new_es[pos].0 {
                assert(new_es[pos].0 == k);
            }
        }
        assert forall|k: Seq<char>| #[trigger] m.contains_key(k) implies as_map(new_es)[k]
            == m[k] by {
            let j = key_index(new_es, k);
            assert(has_key(new_es, k));
            assert(0 <= j < new_es.len() && new_es[j].0 == k);
            lemma_as_map_at(new_es, j);
            lemma_as_map_at(new_es, pos);
            lemma_order_refl(k);
            if j < pos {
                assert(seq_order(new_es[j].0, new_es[pos].0) < 0);
                lemma_as_map_at(es, j);
            } else if j > pos {
                assert(seq_order(new_es[pos].0, new_es[j].0) < 0);
                lemma_as_map_at(es, j - 1);
            }
        }
        assert(as_map(new_es) =~= m);
    }

impl Clone for StrMap {
    /// An entry-by-entry copy.
    fn clone(&self) -> (r: Self)
        ensures
            r.entries_spec() == self.entries_spec(),
            r@ == self@,
    {
        proof {
            use_type_invariant(self);
        }
        let mut entries: Vec<(String, String)> = Vec::new();
        let mut i: usize = 0;
        while i < self.entries.len()
            invariant
                i <= self.entries@.len(),
                entries@.len() == i,
                view_entries(entries@) == view_entries(self.entries@).take(i as int),
            decreases self.entries.len() - i,
        {
            let e = &self.entries[i];
            let k = e.0.clone();
            let v = e.1.clone();
            let ghost before = entries@;
            entries.push((k, v));
            assert(entries@ == before.push((k, v)));
            assert(view_entries(entries@)[i as int] == view_entries(self.entries@)[i as int]);
            assert(view_entries(entries@) =~= view_entries(self.entries@).take(i as int + 1));
            i = i + 1;
        }
        assert(view_entries(entries@) =~= view_entries(self.entries@));
        StrMap { entries }
    }
}

impl View for StrMap {
    type V = Map<Seq<char>, Seq<char>>;

    open spec fn view(&self) -> Map<Seq<char>, Seq<char>> {
        as_map(self.entries_spec())
    }
}

} // verus!
