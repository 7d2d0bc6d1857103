//! The ordered key-to-value energy report. Keys are stable string labels;
//! values are raw integer energy amounts (the unit is the probe's: microjoule
//! counters stay microjoules, register counters stay raw register units).
//! Insertion order is significant: it determines output ordering. The map is
//! backed by `indexmap::IndexMap`, whose insertion-order semantics the
//! contracts below state.

use vstd::prelude::*;
use indexmap::IndexMap;

verus! {

#[verifier::external_type_specification]
#[verifier::external_body]
#[verifier::reject_recursive_types(K)]
#[verifier::reject_recursive_types(V)]
#[verifier::reject_recursive_types(S)]
pub struct ExIndexMap<K, V, S>(IndexMap<K, V, S>);

/// The entries an `IndexMap` holds, in insertion order.
pub uninterp spec fn map_entries(m: IndexMap<String, u64>) -> Seq<(Seq<char>, u64)>;

/// One entry list: a label paired with a raw energy value.
pub type Entries = Seq<(Seq<char>, u64)>;

pub open spec fn has_key(es: Entries, k: Seq<char>) -> bool {
    exists|i: int| 0 <= i < es.len() && es[i].0 == k
}

pub open spec fn index_of_key(es: Entries, k: Seq<char>) -> int {
    choose|i: int| 0 <= i < es.len() && es[i].0 == k
}

pub open spec fn unique_keys(es: Entries) -> bool {
    forall|i: int, j: int| 0 <= i < j < es.len() ==> es[i].0 != es[j].0
}

/// What one insertion does to an ordered entry list: an existing key keeps
/// its place and takes the new value; a new key is appended last.
pub open spec fn spec_insert(es: Entries, k: Seq<char>, v: u64) -> Entries {
    if has_key(es, k) {
        es.update(index_of_key(es, k), (k, v))
    } else {
        es.push((k, v))
    }
}

/// The value stored under a key, if any.
pub open spec fn spec_get(es: Entries, k: Seq<char>) -> Option<u64> {
    if has_key(es, k) {
        Some(es[index_of_key(es, k)].1)
    } else {
        None
    }
}

/// Relies on `indexmap::IndexMap::new`: creates an empty map.
#[verifier::external_body]
fn im_new() -> (m: IndexMap<String, u64>)
    ensures
        map_entries(m) == Seq::<(Seq<char>, u64)>::empty(),
{
    IndexMap::new()
}

/// Relies on `indexmap::IndexMap::insert`: an equivalent key retains its
/// place in the order and its value is updated, with the older value
/// returned; a new key-value pair is inserted last in order.
#[verifier::external_body]
fn im_insert(m: &mut IndexMap<String, u64>, k: String, v: u64) -> (r: Option<u64>)
    ensures
        map_entries(*final(m)) == spec_insert(map_entries(*old(m)), k@, v),
        r == spec_get(map_entries(*old(m)), k@),
{
    m.insert(k, v)
}

/// Relies on `indexmap::IndexMap::len`: the number of key-value pairs.
#[verifier::external_body]
fn im_len(m: &IndexMap<String, u64>) -> (n: usize)
    ensures
        n == map_entries(*m).len(),
{
    m.len()
}

/// Relies on `indexmap::IndexMap::get_index`: the key-value pair at a
/// position in the order, for valid indices `0 <= index < len`.
#[verifier::external_body]
fn im_get_index(m: &IndexMap<String, u64>, i: usize) -> (r: Option<(String, u64)>)
    ensures
        r is Some <==> i < map_entries(*m).len(),
        r matches Some(p) ==> (p.0@, p.1) == map_entries(*m)[i as int],
{
    match m.get_index(i) {
        Some((k, v)) => Some((k.clone(), *v)),
        None => None,
    }
}

/// Relies on `indexmap::IndexMap::get`: the stored value for the key, if it
/// is present.
#[verifier::external_body]
fn im_get(m: &IndexMap<String, u64>, k: &String) -> (r: Option<u64>)
    ensures
        r == spec_get(map_entries(*m), k@),
{
    m.get(k).copied()
}

/// An ordered string-to-value energy report with unique keys.
pub struct EnergyMap {
    inner: IndexMap<String, u64>,
}

impl View for EnergyMap {
    type V = Entries;

    closed spec fn view(&self) -> Entries {
        map_entries(self.inner)
    }
}

impl EnergyMap {
    /// Keys are unique: the backing map never holds two entries with one key.
    pub open spec fn wf(self) -> bool {
        unique_keys(self@)
    }

    pub fn new() -> (r: EnergyMap)
        ensures
            r@ == Seq::<(Seq<char>, u64)>::empty(),
            r.wf(),
    {
        EnergyMap { inner: im_new() }
    }

    /// Inserts one labelled value: an existing label keeps its place and
    /// takes the new value (the older one is returned); a new label goes
    /// last in the order.
    pub fn insert(&mut self, k: String, v: u64) -> (r: Option<u64>)
        requires
            old(self).wf(),
        ensures
            final(self)@ == spec_insert(old(self)@, k@, v),
            final(self).wf(),
            r == spec_get(old(self)@, k@),
    {
        proof {
            lemma_insert_preserves_unique(self@, k@, v);
        }
        im_insert(&mut self.inner, k, v)
    }

    pub fn len(&self) -> (n: usize)
        ensures
            n == self@.len(),
    {
        im_len(&self.inner)
    }

    /// The entry at a position in the insertion order.
    pub fn entry_at(&self, i: usize) -> (r: (String, u64))
        requires
            i < self@.len(),
        ensures
            (r.0@, r.1) == self@[i as int],
    {
        match im_get_index(&self.inner, i) {
            Some(p) => p,
            None => unreached(),
        }
    }

    pub fn get(&self, k: &String) -> (r: Option<u64>)
        ensures
            r == spec_get(self@, k@),
    {
        im_get(&self.inner, k)
    }

    /// Inserts every entry of `other`, in order: on a label both reports
    /// carry, the value of `other` wins while the label keeps its place.
    pub fn extend_from(&mut self, other: &EnergyMap)
        requires
            old(self).wf(),
        ensures
            final(self)@ == spec_insert_all(old(self)@, other@),
            final(self).wf(),
    {
        let n = other.len();
        let mut i: usize = 0;
        while i < n
            invariant
                n == other@.len(),
                i <= n,
                self@ == spec_insert_all(old(self)@, other@.take(i as int)),
                self.wf(),
            decreases n - i,
        {
            proof {
                lemma_insert_all_push(old(self)@, other@.take(i as int), other@[i as int]);
                assert(other@.take(i + 1) =~= other@.take(i as int).push(other@[i as int]));
            }
            let (k, v) = other.entry_at(i);
            self.insert(k, v);
            i = i + 1;
        }
        proof {
            assert(other@.take(n as int) =~= other@);
        }
    }
}

/// Inserting every entry of `xs` into `es`, left to right.
pub open spec fn spec_insert_all(es: Entries, xs: Entries) -> Entries
    decreases xs.len(),
{
    if xs.len() == 0 {
        es
    } else {
        spec_insert_all(spec_insert(es, xs[0].0, xs[0].1), xs.drop_first())
    }
}

/// Merging the reports of an ordered probe collection: each report's entries
/// are inserted in probe order.
pub open spec fn spec_merge(ms: Seq<Entries>) -> Entries
    decreases ms.len(),
{
    if ms.len() == 0 {
        Seq::empty()
    } else {
        spec_insert_all(spec_merge(ms.drop_last()), ms.last())
    }
}

/// Merges the reports of an ordered probe collection into one flat report:
/// entries are inserted in probe order, so on a shared label the later
/// probe's value wins.
pub fn merge(maps: &Vec<EnergyMap>) -> (r: EnergyMap)
    ensures
        r@ == spec_merge(maps@.map_values(|m: EnergyMap| m@)),
        r.wf(),
{
    let ghost ms = maps@.map_values(|m: EnergyMap| m@);
    let mut r = EnergyMap::new();
    assert(r@ =~= spec_merge(ms.take(0)));
    let n = maps.len();
    let mut i: usize = 0;
    while i < n
        invariant
            n == maps@.len(),
            ms == maps@.map_values(|m: EnergyMap| m@),
            i <= n,
            r@ == spec_merge(ms.take(i as int)),
            r.wf(),
        decreases n - i,
    {
        r.extend_from(&maps[i]);
        proof {
            assert(ms[i as int] == maps@[i as int]@);
            assert(ms.take(i + 1).drop_last() =~= ms.take(i as int));
            assert(ms.take(i + 1).last() == ms[i as int]);
        }
        i = i + 1;
    }
    proof {
        assert(ms.take(n as int) =~= ms);
    }
    r
}

/// One insertion keeps keys unique.
pub proof fn lemma_insert_preserves_unique(es: Entries, k: Seq<char>, v: u64)
    requires
        unique_keys(es),
    ensures
        unique_keys(spec_insert(es, k, v)),
{
    if has_key(es, k) {
        let ix = index_of_key(es, k);
        assert(0 <= ix < es.len() && es[ix].0 == k);
        assert forall|i: int, j: int|
            0 <= i < j < spec_insert(es, k, v).len() implies spec_insert(es, k, v)[i].0
            != spec_insert(es, k, v)[j].0 by {
            assert(es[i].0 != es[j].0);
        }
    } else {
        assert forall|i: int, j: int|
            0 <= i < j < spec_insert(es, k, v).len() implies spec_insert(es, k, v)[i].0
            != spec_insert(es, k, v)[j].0 by {
            if j < es.len() {
                assert(es[i].0 != es[j].0);
            } else {
                assert(!(exists|x: int| 0 <= x < es.len() && es[x].0 == k));
                assert(es[i].0 != k);
            }
        }
    }
}

/// Inserting under a key and reading that key back gives the new value.
pub proof fn lemma_get_insert_same(es: Entries, k: Seq<char>, v: u64)
    requires
        unique_keys(es),
    ensures
        spec_get(spec_insert(es, k, v), k) == Some(v),
{
    let r = spec_insert(es, k, v);
    if has_key(es, k) {
        let ix = index_of_key(es, k);
        assert(0 <= ix < es.len() && es[ix].0 == k);
        assert(r[ix].0 == k);
        let jx = index_of_key(r, k);
        assert(0 <= jx < r.len() && r[jx].0 == k);
        if jx != ix {
            assert(es[jx].0 == k);
            assert(false);
        }
    } else {
        assert(r[es.len() as int].0 == k);
        let jx = index_of_key(r, k);
        assert(0 <= jx < r.len() && r[jx].0 == k);
        if jx < es.len() {
            assert(es[jx].0 == k);
            assert(false);
        }
    }
}

/// Inserting under one key leaves every other key's value unchanged.
pub proof fn lemma_get_insert_other(es: Entries, k2: Seq<char>, v: u64, k: Seq<char>)
    requires
        unique_keys(es),
        k2 != k,
    ensures
        spec_get(spec_insert(es, k2, v), k) == spec_get(es, k),
{
    let r = spec_insert(es, k2, v);
    if has_key(es, k2) {
        let ix = index_of_key(es, k2);
        assert(forall|i: int| 0 <= i < es.len() ==> r[i].0 == es[i].0);
        if has_key(es, k) {
            let j = index_of_key(es, k);
            assert(r[j].0 == k);
            let j2 = index_of_key(r, k);
            assert(es[j2].0 == k);
            if j2 != j {
                assert(false);
            }
            assert(j != ix);
            assert(r[j] == es[j]);
        } else {
            if has_key(r, k) {
                let j2 = index_of_key(r, k);
                assert(es[j2].0 == k);
                assert(false);
            }
        }
    } else {
        if has_key(es, k) {
            let j = index_of_key(es, k);
            assert(r[j].0 == k);
            let j2 = index_of_key(r, k);
            assert(0 <= j2 < r.len() && r[j2].0 == k);
            if j2 < es.len() {
                assert(es[j2].0 == k);
                if j2 != j {
                    assert(false);
                }
                assert(r[j2] == es[j2]);
            } else {
                assert(r[j2].0 == k2);
                assert(false);
            }
        } else {
            if has_key(r, k) {
                let j2 = index_of_key(r, k);
                assert(0 <= j2 < r.len() && r[j2].0 == k);
                if j2 < es.len() {
                    assert(es[j2].0 == k);
                } else {
                    assert(r[j2].0 == k2);
                }
                assert(false);
            }
        }
    }
}

/// Dropping the first entry of a unique-keyed list keeps keys unique.
proof fn lemma_unique_drop_first(es: Entries)
    requires
        unique_keys(es),
        es.len() > 0,
    ensures
        unique_keys(es.drop_first()),
{
    assert forall|i: int, j: int|
        0 <= i < j < es.drop_first().len() implies es.drop_first()[i].0 != es.drop_first()[j].0 by {
        assert(es[i + 1].0 != es[j + 1].0);
    }
}

/// Merging two reports that share no label concatenates them: the result is
/// the first report's entries followed by the second's, in order.
pub proof fn lemma_insert_all_disjoint(a: Entries, b: Entries)
    requires
        unique_keys(a),
        unique_keys(b),
        forall|i: int| 0 <= i < b.len() ==> !has_key(a, #[trigger] b[i].0),
    ensures
        spec_insert_all(a, b) == a + b,
    decreases b.len(),
{
    if b.len() == 0 {
        assert(a + b =~= a);
    } else {
        let x = b[0];
        assert(!has_key(a, x.0));
        let a2 = spec_insert(a, x.0, x.1);
        assert(a2 == a.push(x));
        lemma_insert_preserves_unique(a, x.0, x.1);
        lemma_unique_drop_first(b);
        assert forall|i: int| 0 <= i < b.drop_first().len() implies !has_key(
            a2,
            #[trigger] b.drop_first()[i].0,
        ) by {
            let k = b.drop_first()[i].0;
            assert(b[i + 1].0 == k);
            assert(b[0].0 != k);
            if has_key(a2, k) {
                let j = index_of_key(a2, k);
                assert(0 <= j < a2.len() && a2[j].0 == k);
                if j < a.len() {
                    assert(a[j].0 == k);
                } else {
                    assert(a2[j].0 == x.0);
                }
                assert(false);
            }
        }
        lemma_insert_all_disjoint(a2, b.drop_first());
        assert(a.push(x) + b.drop_first() =~= a + b);
    }
}

/// Merging a second report on top of a first: a label the second report
/// carries ends with the second report's value (the later probe wins), and
/// any other label keeps the first report's value.
pub proof fn lemma_insert_all_get(a: Entries, b: Entries, k: Seq<char>)
    requires
        unique_keys(a),
        unique_keys(b),
    ensures
        has_key(b, k) ==> spec_get(spec_insert_all(a, b), k) == spec_get(b, k),
        !has_key(b, k) ==> spec_get(spec_insert_all(a, b), k) == spec_get(a, k),
    decreases b.len(),
{
    if b.len() == 0 {
        assert(!has_key(b, k));
    } else {
        let x = b[0];
        let a2 = spec_insert(a, x.0, x.1);
        let b2 = b.drop_first();
        lemma_insert_preserves_unique(a, x.0, x.1);
        lemma_unique_drop_first(b);
        lemma_insert_all_get(a2, b2, k);
        if has_key(b2, k) {
            assert(b[index_of_key(b2, k) + 1].0 == k);
            assert(has_key(b, k));
            // the witness in b sits past position 0: b2 already holds k and
            // keys in b are unique
            let j = index_of_key(b, k);
            assert(0 <= j < b.len() && b[j].0 == k);
            if j == 0 {
                let j2 = index_of_key(b2, k);
                assert(b[j2 + 1].0 == k);
                assert(false);
            }
            assert(b2[j - 1] == b[j]);
            assert(has_key(b2, k));
            let j2 = index_of_key(b2, k);
            assert(b[j2 + 1].0 == k);
            if j2 + 1 != j {
                assert(false);
            }
            assert(spec_get(b2, k) == spec_get(b, k));
        } else if x.0 == k {
            assert(has_key(b, k));
            let j = index_of_key(b, k);
            assert(0 <= j < b.len() && b[j].0 == k);
            if j != 0 {
                assert(b2[j - 1].0 == k);
                assert(false);
            }
            assert(spec_get(b, k) == Some(x.1));
            lemma_get_insert_same(a, k, x.1);
        } else {
            if has_key(b, k) {
                let j = index_of_key(b, k);
                assert(0 <= j < b.len() && b[j].0 == k);
                assert(j != 0);
                assert(b2[j - 1].0 == k);
                assert(false);
            }
            lemma_get_insert_other(a, x.0, x.1, k);
        }
    }
}

/// Merging an empty report into another changes nothing; starting a merge
/// from the empty report reproduces the other report exactly.
pub proof fn lemma_insert_all_empty(a: Entries)
    requires
        unique_keys(a),
    ensures
        spec_insert_all(a, Seq::empty()) == a,
        spec_insert_all(Seq::empty(), a) == a,
{
    assert(forall|i: int| 0 <= i < a.len() ==> !has_key(Seq::empty(), #[trigger] a[i].0));
    lemma_insert_all_disjoint(Seq::empty(), a);
    assert(Seq::empty() + a =~= a);
}

/// A collection of exactly two probes whose reports share no label merges to
/// the first report's entries followed by the second's; on a shared label the
/// second probe's value wins.
pub proof fn lemma_merge_pair(a: Entries, b: Entries)
    requires
        unique_keys(a),
        unique_keys(b),
    ensures
        (forall|i: int| 0 <= i < b.len() ==> !has_key(a, #[trigger] b[i].0)) ==> spec_merge(
            seq![a, b],
        ) == a + b,
        forall|k: Seq<char>|
            #[trigger] has_key(b, k) ==> spec_get(spec_merge(seq![a, b]), k) == spec_get(b, k),
        forall|k: Seq<char>|
            !(#[trigger] has_key(b, k)) ==> spec_get(spec_merge(seq![a, b]), k) == spec_get(a, k),
{
    let pair = seq![a, b];
    assert(pair.len() == 2 && pair.last() == b);
    assert(pair.drop_last() =~= seq![a]);
    let single = seq![a];
    assert(single.len() == 1 && single.last() == a);
    assert(single.drop_last() =~= Seq::<Entries>::empty());
    assert(spec_merge(Seq::<Entries>::empty()) == Seq::<(Seq<char>, u64)>::empty());
    assert(spec_merge(single) == spec_insert_all(Seq::empty(), a));
    assert(spec_merge(pair) == spec_insert_all(spec_insert_all(Seq::empty(), a), b));
    lemma_insert_all_empty(a);
    if forall|i: int| 0 <= i < b.len() ==> !has_key(a, #[trigger] b[i].0) {
        lemma_insert_all_disjoint(a, b);
    }
    assert forall|k: Seq<char>| #[trigger] has_key(b, k) implies spec_get(
        spec_merge(seq![a, b]),
        k,
    ) == spec_get(b, k) by {
        lemma_insert_all_get(a, b, k);
    }
    assert forall|k: Seq<char>| !(#[trigger] has_key(b, k)) implies spec_get(
        spec_merge(seq![a, b]),
        k,
    ) == spec_get(a, k) by {
        lemma_insert_all_get(a, b, k);
    }
}

/// Folding a concatenation is folding the two parts in turn.
pub proof fn lemma_insert_all_concat(es: Entries, a: Entries, b: Entries)
    ensures
        spec_insert_all(es, a + b) == spec_insert_all(spec_insert_all(es, a), b),
    decreases a.len(),
{
    if a.len() == 0 {
        assert(a + b =~= b);
    } else {
        assert((a + b)[0] == a[0]);
        assert((a + b).drop_first() =~= a.drop_first() + b);
        assert((a + b).len() > 0);
        lemma_insert_all_concat(spec_insert(es, a[0].0, a[0].1), a.drop_first(), b);
    }
}

/// Folding one more entry onto the end extends the fold by one insertion.
pub proof fn lemma_insert_all_push(es: Entries, xs: Entries, x: (Seq<char>, u64))
    ensures
        spec_insert_all(es, xs.push(x)) == spec_insert(spec_insert_all(es, xs), x.0, x.1),
    decreases xs.len(),
{
    if xs.len() == 0 {
        assert(xs.push(x)[0] == x);
        assert(xs.push(x).drop_first() =~= Seq::<(Seq<char>, u64)>::empty());
        assert(spec_insert_all(es, xs.push(x)) == spec_insert_all(
            spec_insert(es, x.0, x.1),
            xs.push(x).drop_first(),
        ));
    } else {
        lemma_insert_all_push(spec_insert(es, xs[0].0, xs[0].1), xs.drop_first(), x);
        assert(xs.push(x)[0] == xs[0]);
        assert(xs.push(x).drop_first() =~= xs.drop_first().push(x));
        assert(spec_insert_all(es, xs.push(x)) == spec_insert_all(
            spec_insert(es, xs[0].0, xs[0].1),
            xs.drop_first().push(x),
        ));
    }
}

} // verus!
