use vstd::prelude::*;
use crate::chunk::{
    ChunkMap, Key, binding_view, listed_bindings, chunk_bindings, chunk_clone, chunk_get, chunk_insert, chunk_new,
    chunk_range, key_view,
};
use crate::datom::{
    Datom, DatomView, aevt_key, datoms_view, eavt_key, holds_datom, in_aevt_order, in_eavt_order,
    one_per_key, same_datom, with_datom,
};
use crate::order::{
    KeyView, ValueKey, key_le, key_lt, lemma_key_lt_strict_total, lemma_value_key_lt_facts,
    value_key_lt,
};
use crate::value::{
    AttributeId, EntityId, Maximum, Minimum, TransactionId, V, max_value_key, min_value_key,
    value_key_canonical,
};

verus! {

/// `k` lies between `lo` and `hi`, both included.
pub open spec fn in_bracket(k: KeyView, lo: KeyView, hi: KeyView) -> bool {
    key_le(lo, k) && key_le(k, hi)
}

/// The key of `d` in the entity-first index, or else in the attribute-first
/// one.
pub open spec fn index_key(d: DatomView, entity_first: bool) -> KeyView {
    if entity_first {
        eavt_key(d)
    } else {
        aevt_key(d)
    }
}

/// The datoms that an index's bindings stand for: one per key, with the
/// flag bound to it.
pub open spec fn index_datoms(m: Map<KeyView, bool>, entity_first: bool) -> Set<DatomView> {
    Set::new(
        |d: DatomView|
            m.contains_key(index_key(d, entity_first)) && m[index_key(d, entity_first)] == d.4,
    )
}

/// An index holds one datom per key.
proof fn lemma_index_one_per_key(m: Map<KeyView, bool>, entity_first: bool)
    ensures
        one_per_key(index_datoms(m, entity_first)),
{
    let s = index_datoms(m, entity_first);
    assert forall|x: DatomView, y: DatomView|
        #[trigger] s.contains(x) && #[trigger] s.contains(y) && same_datom(x, y) implies x == y by {
        assert(index_key(x, entity_first) == index_key(y, entity_first));
    }
}

/// Every key lays out some datom.
pub open spec fn keys_canonical(m: Map<KeyView, bool>) -> bool {
    forall|k: KeyView| #[trigger] m.contains_key(k) ==> value_key_canonical(k.2)
}

proof fn lemma_value_key_bounds(k: ValueKey)
    requires
        value_key_canonical(k),
    ensures
        k == min_value_key() || value_key_lt(min_value_key(), k),
        k == max_value_key() || value_key_lt(k, max_value_key()),
{
    if k.0 == 0 || k.0 == 6 {
        assert(k.3 =~= Seq::<char>::empty());
    }
}

/// A bracket that fixes the leading fields and fills the others with their
/// least and greatest values holds exactly the keys with those leading
/// fields.
proof fn lemma_brackets(x: KeyView, lead: i64, second: i64, k: ValueKey, t: i64)
    requires
        value_key_canonical(x.2),
    ensures
        in_bracket(x, (lead, i64::MIN, min_value_key(), i64::MIN),
            (lead, i64::MAX, max_value_key(), i64::MAX)) <==> x.0 == lead,
        in_bracket(x, (lead, second, min_value_key(), i64::MIN),
            (lead, second, max_value_key(), i64::MAX)) <==> (x.0 == lead && x.1 == second),
        in_bracket(x, (lead, second, k, i64::MIN), (lead, second, k, i64::MAX)) <==> (x.0 == lead
            && x.1 == second && x.2 == k),
        in_bracket(x, (lead, second, k, t), (lead, second, k, t)) <==> (x.0 == lead && x.1
            == second && x.2 == k && x.3 == t),
{
    lemma_value_key_bounds(x.2);
    lemma_value_key_lt_facts(x.2, k, x.2);
    lemma_value_key_lt_facts(min_value_key(), x.2, max_value_key());
    lemma_value_key_lt_facts(max_value_key(), x.2, min_value_key());
    lemma_key_lt_strict_total(x, (lead, second, k, t), x);
}

fn lowest_key(lead: i64) -> (r: Key)
    ensures
        key_view(r) == (lead, i64::MIN, min_value_key(), i64::MIN),
{
    (lead, i64::minimum(), V::minimum().to_key(), i64::minimum())
}

fn highest_key(lead: i64) -> (r: Key)
    ensures
        key_view(r) == (lead, i64::MAX, max_value_key(), i64::MAX),
{
    (lead, i64::maximum(), V::maximum().to_key(), i64::maximum())
}

fn datom_key(d: &Datom, entity_first: bool) -> (r: Key)
    ensures
        key_view(r) == index_key(d@, entity_first),
{
    if entity_first {
        d.to_eavt_key()
    } else {
        d.to_aevt_key()
    }
}

/// Inserts `d` under its key unless a datom equal to it is bound already.
fn insert_datom(m: &ChunkMap, d: Datom, entity_first: bool) -> (r: ChunkMap)
    requires
        keys_canonical(chunk_bindings(*m)),
    ensures
        keys_canonical(chunk_bindings(r)),
        index_datoms(chunk_bindings(r), entity_first) == with_datom(
            index_datoms(chunk_bindings(*m), entity_first),
            d@,
        ),
{
    let ghost old_set = index_datoms(chunk_bindings(*m), entity_first);
    let k = datom_key(&d, entity_first);
    match chunk_get(m, &k) {
        Some(b) => {
            proof {
                let x = (d@.0, d@.1, d@.2, d@.3, b);
                assert(index_key(x, entity_first) == index_key(d@, entity_first));
                assert(old_set.contains(x));
                assert(same_datom(x, d@));
            }
            chunk_clone(m)
        },
        None => {
            let r = chunk_insert(m, k, d.added);
            proof {
                assert forall|x: DatomView| old_set.contains(x) implies !same_datom(x, d@) by {
                    if same_datom(x, d@) {
                        assert(index_key(x, entity_first) == index_key(d@, entity_first));
                    }
                }
                assert(!holds_datom(old_set, d@));
                assert(index_datoms(chunk_bindings(r), entity_first) =~= old_set.insert(d@));
            }
            r
        },
    }
}

/// The datoms whose key lies between `lo` and `hi`, ascending by key.
fn collect(m: &ChunkMap, lo: Key, hi: Key, entity_first: bool) -> (r: Vec<Datom>)
    requires
        keys_canonical(chunk_bindings(*m)),
    ensures
        forall|i: int, j: int|
            0 <= i < j < r@.len() ==> key_lt(
                index_key(#[trigger] r@[i]@, entity_first),
                index_key(#[trigger] r@[j]@, entity_first),
            ),
        forall|d: DatomView|
            datoms_view(r@).contains(d) <==> (index_datoms(chunk_bindings(*m), entity_first).contains(
                d,
            ) && in_bracket(index_key(d, entity_first), key_view(lo), key_view(hi))),
{
    let items = chunk_range(m, lo, hi);
    let ghost bv = listed_bindings(items@);
    assert forall|i: int| 0 <= i < items.len() implies value_key_canonical(
        key_view(#[trigger] items@[i].0).2,
    ) by {
        assert(bv[i] == binding_view(items@[i]));
        assert(bv.contains(bv[i]));
        assert(chunk_bindings(*m).contains_key(bv[i].0));
    }
    let mut r: Vec<Datom> = Vec::new();
    let mut i: usize = 0;
    while i < items.len()
        invariant
            0 <= i <= items.len(),
            r.len() == i,
            bv == listed_bindings(items@),
            forall|j: int|
                0 <= j < items.len() ==> value_key_canonical(key_view(#[trigger] items@[j].0).2),
            forall|j: int|
                0 <= j < i ==> index_key((#[trigger] r@[j])@, entity_first) == key_view(
                    items@[j].0,
                ) && r@[j]@.4 == items@[j].1,
        decreases items.len() - i,
    {
        let d = if entity_first {
            Datom::from_eavt_binding(&items[i].0, items[i].1)
        } else {
            Datom::from_aevt_binding(&items[i].0, items[i].1)
        };
        r.push(d);
        i = i + 1;
    }
    let ghost dv = datoms_view(r@);
    let ghost set = index_datoms(chunk_bindings(*m), entity_first);
    assert forall|i: int, j: int| 0 <= i < j < r@.len() implies key_lt(
        index_key(#[trigger] r@[i]@, entity_first),
        index_key(#[trigger] r@[j]@, entity_first),
    ) by {
        assert(key_view(items@[i].0) == index_key(r@[i]@, entity_first));
        assert(key_view(items@[j].0) == index_key(r@[j]@, entity_first));
    }
    assert forall|d: DatomView| dv.contains(d) <==> (set.contains(d) && in_bracket(
        index_key(d, entity_first),
        key_view(lo),
        key_view(hi),
    )) by {
        if dv.contains(d) {
            let k = choose|k: int| 0 <= k < dv.len() && dv[k] == d;
            assert(dv[k] == r@[k]@);
            assert(bv[k] == (index_key(d, entity_first), d.4));
            assert(bv.contains(bv[k]));
        }
        if set.contains(d) && in_bracket(index_key(d, entity_first), key_view(lo), key_view(hi)) {
            assert(bv.contains((index_key(d, entity_first), d.4)));
            let k = choose|k: int| 0 <= k < bv.len() && bv[k] == (index_key(d, entity_first), d.4);
            assert(dv[k] == r@[k]@);
            assert(dv[k] == d);
            assert(dv.contains(dv[k]));
        }
    }
    r
}

/// Turns what `collect` promises into a listing in the index's order.
proof fn lemma_listing(r: Seq<Datom>, wanted: Set<DatomView>, entity_first: bool)
    requires
        forall|i: int, j: int|
            0 <= i < j < r.len() ==> key_lt(
                index_key(#[trigger] r[i]@, entity_first),
                index_key(#[trigger] r[j]@, entity_first),
            ),
        forall|d: DatomView| datoms_view(r).contains(d) <==> wanted.contains(d),
    ensures
        entity_first ==> in_eavt_order(datoms_view(r), wanted),
        !entity_first ==> in_aevt_order(datoms_view(r), wanted),
{
    let dv = datoms_view(r);
    assert forall|i: int, j: int| 0 <= i < j < dv.len() implies key_lt(
        index_key(#[trigger] dv[i], entity_first),
        index_key(#[trigger] dv[j], entity_first),
    ) by {
        assert(dv[i] == r[i]@);
        assert(dv[j] == r[j]@);
    }
}

/// A listing by a full key holds at most one datom.
proof fn lemma_full_key_listing(s: Seq<DatomView>, k: KeyView, entity_first: bool)
    requires
        forall|i: int, j: int|
            0 <= i < j < s.len() ==> key_lt(
                index_key(#[trigger] s[i], entity_first),
                index_key(#[trigger] s[j], entity_first),
            ),
        forall|i: int| 0 <= i < s.len() ==> index_key(#[trigger] s[i], entity_first) == k,
    ensures
        s.len() <= 1,
{
    if s.len() > 1 {
        assert(index_key(s[0], entity_first) == k);
        assert(index_key(s[1], entity_first) == k);
        lemma_key_lt_strict_total(k, k, k);
    }
}

/// The persistent index in entity, attribute, value, transaction order.
pub struct EAVTIndex {
    index: ChunkMap,
}

impl View for EAVTIndex {
    type V = Set<DatomView>;

    closed spec fn view(&self) -> Set<DatomView> {
        index_datoms(chunk_bindings(self.index), true)
    }
}

impl EAVTIndex {

    pub closed spec fn wf(&self) -> bool {
        keys_canonical(chunk_bindings(self.index))
    }

    /// An index holds one datom per entity, attribute, value and
    /// transaction.
    pub proof fn lemma_one_per_key(&self)
        ensures
            one_per_key(self@),
    {
        lemma_index_one_per_key(chunk_bindings(self.index), true);
    }

    pub fn new() -> (r: EAVTIndex)
        ensures
            r.wf(),
            r@ == Set::<DatomView>::empty(),
    {
        let r = EAVTIndex { index: chunk_new() };
        assert(r@ =~= Set::<DatomView>::empty());
        r
    }

    /// A new version holding this one's datoms and `datom`; where a datom
    /// equal to `datom` is held already, the new version holds the same
    /// datoms. This one is left unchanged.
    pub fn insert(&self, datom: Datom) -> (r: EAVTIndex)
        requires
            self.wf(),
        ensures
            r.wf(),
            r@ == with_datom(self@, datom@),
    {
        EAVTIndex { index: insert_datom(&self.index, datom, true) }
    }

    /// Every datom, in index order.
    pub fn scan(&self) -> (r: Vec<Datom>)
        requires
            self.wf(),
        ensures
            in_eavt_order(datoms_view(r@), self@),
    {
        let lo = (i64::minimum(), i64::minimum(), V::minimum().to_key(), i64::minimum());
        let hi = (i64::maximum(), i64::maximum(), V::maximum().to_key(), i64::maximum());
        let r = collect(&self.index, lo, hi, true);
        proof {
            assert forall|x: DatomView| self@.contains(x) implies in_bracket(index_key(x, true), key_view(lo), key_view(hi)) by {
                assert(chunk_bindings(self.index).contains_key(index_key(x, true)));
                lemma_value_key_bounds(x.2);
            }
            assert forall|d: DatomView| datoms_view(r@).contains(d) <==> self@.contains(d) by {}
            lemma_listing(r@, self@, true);
        }
        r
    }

    /// The datoms of entity `e`.
    pub fn select_e(&self, e: EntityId) -> (r: Vec<Datom>)
        requires
            self.wf(),
        ensures
            in_eavt_order(datoms_view(r@), self@.filter(|x: DatomView| x.0 == e)),
    {
        let lo = lowest_key(e);
        let hi = highest_key(e);
        let r = collect(&self.index, lo, hi, true);
        proof {
            let wanted = self@.filter(|x: DatomView| x.0 == e);
            assert forall|x: DatomView| self@.contains(x) implies (in_bracket(index_key(x, true), key_view(lo), key_view(hi)) <==> x.0 == e) by {
                assert(chunk_bindings(self.index).contains_key(index_key(x, true)));
                lemma_brackets(index_key(x, true), e, 0, x.2, 0);
            }
            assert forall|d: DatomView| datoms_view(r@).contains(d) <==> wanted.contains(d) by {}
            lemma_listing(r@, wanted, true);
        }
        r
    }

    /// The datoms of entity `e` and attribute `a`.
    pub fn select_ea(&self, e: EntityId, a: AttributeId) -> (r: Vec<Datom>)
        requires
            self.wf(),
        ensures
            in_eavt_order(datoms_view(r@), self@.filter(|x: DatomView| x.0 == e && x.1 == a)),
    {
        let lo = (e, a, V::minimum().to_key(), i64::minimum());
        let hi = (e, a, V::maximum().to_key(), i64::maximum());
        let r = collect(&self.index, lo, hi, true);
        proof {
            let wanted = self@.filter(|x: DatomView| x.0 == e && x.1 == a);
            assert forall|x: DatomView| self@.contains(x) implies (in_bracket(index_key(x, true), key_view(lo), key_view(hi)) <==> x.0 == e && x.1 == a) by {
                assert(chunk_bindings(self.index).contains_key(index_key(x, true)));
                lemma_brackets(index_key(x, true), e, a, x.2, 0);
            }
            assert forall|d: DatomView| datoms_view(r@).contains(d) <==> wanted.contains(d) by {}
            lemma_listing(r@, wanted, true);
        }
        r
    }

    /// The datoms of entity `e`, attribute `a` and value `v`.
    pub fn select_eav(&self, e: EntityId, a: AttributeId, v: &V) -> (r: Vec<Datom>)
        requires
            self.wf(),
        ensures
            in_eavt_order(datoms_view(r@), self@.filter(|x: DatomView| x.0 == e && x.1 == a && x.2 == v@)),
    {
        let lo = (e, a, v.to_key(), i64::minimum());
        let hi = (e, a, v.to_key(), i64::maximum());
        let r = collect(&self.index, lo, hi, true);
        proof {
            let wanted = self@.filter(|x: DatomView| x.0 == e && x.1 == a && x.2 == v@);
            assert forall|x: DatomView| self@.contains(x) implies (in_bracket(index_key(x, true), key_view(lo), key_view(hi)) <==> x.0 == e && x.1 == a && x.2 == v@) by {
                assert(chunk_bindings(self.index).contains_key(index_key(x, true)));
                lemma_brackets(index_key(x, true), e, a, v@, 0);
            }
            assert forall|d: DatomView| datoms_view(r@).contains(d) <==> wanted.contains(d) by {}
            lemma_listing(r@, wanted, true);
        }
        r
    }

    /// The datom with entity `e`, attribute `a`, value `v` and transaction `t`, if held.
    pub fn select_eavt(&self, e: EntityId, a: AttributeId, v: &V, t: TransactionId) -> (r: Vec<Datom>)
        requires
            self.wf(),
        ensures
            in_eavt_order(datoms_view(r@), self@.filter(|x: DatomView| x.0 == e && x.1 == a && x.2 == v@ && x.3 == t)),
            r.len() <= 1,
    {
        let lo = (e, a, v.to_key(), t);
        let hi = (e, a, v.to_key(), t);
        let r = collect(&self.index, lo, hi, true);
        proof {
            let wanted = self@.filter(|x: DatomView| x.0 == e && x.1 == a && x.2 == v@ && x.3 == t);
            assert forall|x: DatomView| self@.contains(x) implies (in_bracket(index_key(x, true), key_view(lo), key_view(hi)) <==> x.0 == e && x.1 == a && x.2 == v@ && x.3 == t) by {
                assert(chunk_bindings(self.index).contains_key(index_key(x, true)));
                lemma_brackets(index_key(x, true), e, a, v@, t);
            }
            assert forall|d: DatomView| datoms_view(r@).contains(d) <==> wanted.contains(d) by {}
            lemma_listing(r@, wanted, true);
            assert forall|i: int| 0 <= i < datoms_view(r@).len() implies index_key(#[trigger] datoms_view(r@)[i], true) == key_view(lo) by {
                assert(datoms_view(r@).contains(datoms_view(r@)[i]));
            }
            lemma_full_key_listing(datoms_view(r@), key_view(lo), true);
        }
        r
    }
}

impl Clone for EAVTIndex {
    /// Another handle on the same version; the tree's nodes are shared.
    fn clone(&self) -> (r: Self)
        ensures
            r@ == self@,
            r.wf() == self.wf(),
    {
        EAVTIndex { index: chunk_clone(&self.index) }
    }
}

/// The persistent index in attribute, entity, value, transaction order.
pub struct AEVTIndex {
    index: ChunkMap,
}

impl View for AEVTIndex {
    type V = Set<DatomView>;

    closed spec fn view(&self) -> Set<DatomView> {
        index_datoms(chunk_bindings(self.index), false)
    }
}

impl AEVTIndex {

    pub closed spec fn wf(&self) -> bool {
        keys_canonical(chunk_bindings(self.index))
    }

    /// An index holds one datom per entity, attribute, value and
    /// transaction.
    pub proof fn lemma_one_per_key(&self)
        ensures
            one_per_key(self@),
    {
        lemma_index_one_per_key(chunk_bindings(self.index), false);
    }

    pub fn new() -> (r: AEVTIndex)
        ensures
            r.wf(),
            r@ == Set::<DatomView>::empty(),
    {
        let r = AEVTIndex { index: chunk_new() };
        assert(r@ =~= Set::<DatomView>::empty());
        r
    }

    /// A new version holding this one's datoms and `datom`; where a datom
    /// equal to `datom` is held already, the new version holds the same
    /// datoms. This one is left unchanged.
    pub fn insert(&self, datom: Datom) -> (r: AEVTIndex)
        requires
            self.wf(),
        ensures
            r.wf(),
            r@ == with_datom(self@, datom@),
    {
        AEVTIndex { index: insert_datom(&self.index, datom, false) }
    }

    /// Every datom, in index order.
    pub fn scan(&self) -> (r: Vec<Datom>)
        requires
            self.wf(),
        ensures
            in_aevt_order(datoms_view(r@), self@),
    {
        let lo = (i64::minimum(), i64::minimum(), V::minimum().to_key(), i64::minimum());
        let hi = (i64::maximum(), i64::maximum(), V::maximum().to_key(), i64::maximum());
        let r = collect(&self.index, lo, hi, false);
        proof {
            assert forall|x: DatomView| self@.contains(x) implies in_bracket(index_key(x, false), key_view(lo), key_view(hi)) by {
                assert(chunk_bindings(self.index).contains_key(index_key(x, false)));
                lemma_value_key_bounds(x.2);
            }
            assert forall|d: DatomView| datoms_view(r@).contains(d) <==> self@.contains(d) by {}
            lemma_listing(r@, self@, false);
        }
        r
    }

    /// The datoms of attribute `a`.
    pub fn select_a(&self, a: AttributeId) -> (r: Vec<Datom>)
        requires
            self.wf(),
        ensures
            in_aevt_order(datoms_view(r@), self@.filter(|x: DatomView| x.1 == a)),
    {
        let lo = lowest_key(a);
        let hi = highest_key(a);
        let r = collect(&self.index, lo, hi, false);
        proof {
            let wanted = self@.filter(|x: DatomView| x.1 == a);
            assert forall|x: DatomView| self@.contains(x) implies (in_bracket(index_key(x, false), key_view(lo), key_view(hi)) <==> x.1 == a) by {
                assert(chunk_bindings(self.index).contains_key(index_key(x, false)));
                lemma_brackets(index_key(x, false), a, 0, x.2, 0);
            }
            assert forall|d: DatomView| datoms_view(r@).contains(d) <==> wanted.contains(d) by {}
            lemma_listing(r@, wanted, false);
        }
        r
    }

    /// The datoms of attribute `a` and entity `e`.
    pub fn select_ae(&self, a: AttributeId, e: EntityId) -> (r: Vec<Datom>)
        requires
            self.wf(),
        ensures
            in_aevt_order(datoms_view(r@), self@.filter(|x: DatomView| x.1 == a && x.0 == e)),
    {
        let lo = (a, e, V::minimum().to_key(), i64::minimum());
        let hi = (a, e, V::maximum().to_key(), i64::maximum());
        let r = collect(&self.index, lo, hi, false);
        proof {
            let wanted = self@.filter(|x: DatomView| x.1 == a && x.0 == e);
            assert forall|x: DatomView| self@.contains(x) implies (in_bracket(index_key(x, false), key_view(lo), key_view(hi)) <==> x.1 == a && x.0 == e) by {
                assert(chunk_bindings(self.index).contains_key(index_key(x, false)));
                lemma_brackets(index_key(x, false), a, e, x.2, 0);
            }
            assert forall|d: DatomView| datoms_view(r@).contains(d) <==> wanted.contains(d) by {}
            lemma_listing(r@, wanted, false);
        }
        r
    }

    /// The datoms of attribute `a`, entity `e` and value `v`.
    pub fn select_aev(&self, a: AttributeId, e: EntityId, v: &V) -> (r: Vec<Datom>)
        requires
            self.wf(),
        ensures
            in_aevt_order(datoms_view(r@), self@.filter(|x: DatomView| x.1 == a && x.0 == e && x.2 == v@)),
    {
        let lo = (a, e, v.to_key(), i64::minimum());
        let hi = (a, e, v.to_key(), i64::maximum());
        let r = collect(&self.index, lo, hi, false);
        proof {
            let wanted = self@.filter(|x: DatomView| x.1 == a && x.0 == e && x.2 == v@);
            assert forall|x: DatomView| self@.contains(x) implies (in_bracket(index_key(x, false), key_view(lo), key_view(hi)) <==> x.1 == a && x.0 == e && x.2 == v@) by {
                assert(chunk_bindings(self.index).contains_key(index_key(x, false)));
                lemma_brackets(index_key(x, false), a, e, v@, 0);
            }
            assert forall|d: DatomView| datoms_view(r@).contains(d) <==> wanted.contains(d) by {}
            lemma_listing(r@, wanted, false);
        }
        r
    }

    /// The datom with attribute `a`, entity `e`, value `v` and transaction `t`, if held.
    pub fn select_aevt(&self, a: AttributeId, e: EntityId, v: &V, t: TransactionId) -> (r: Vec<Datom>)
        requires
            self.wf(),
        ensures
            in_aevt_order(datoms_view(r@), self@.filter(|x: DatomView| x.1 == a && x.0 == e && x.2 == v@ && x.3 == t)),
            r.len() <= 1,
    {
        let lo = (a, e, v.to_key(), t);
        let hi = (a, e, v.to_key(), t);
        let r = collect(&self.index, lo, hi, false);
        proof {
            let wanted = self@.filter(|x: DatomView| x.1 == a && x.0 == e && x.2 == v@ && x.3 == t);
            assert forall|x: DatomView| self@.contains(x) implies (in_bracket(index_key(x, false), key_view(lo), key_view(hi)) <==> x.1 == a && x.0 == e && x.2 == v@ && x.3 == t) by {
                assert(chunk_bindings(self.index).contains_key(index_key(x, false)));
                lemma_brackets(index_key(x, false), a, e, v@, t);
            }
            assert forall|d: DatomView| datoms_view(r@).contains(d) <==> wanted.contains(d) by {}
            lemma_listing(r@, wanted, false);
            assert forall|i: int| 0 <= i < datoms_view(r@).len() implies index_key(#[trigger] datoms_view(r@)[i], false) == key_view(lo) by {
                assert(datoms_view(r@).contains(datoms_view(r@)[i]));
            }
            lemma_full_key_listing(datoms_view(r@), key_view(lo), false);
        }
        r
    }
}

impl Clone for AEVTIndex {
    /// Another handle on the same version; the tree's nodes are shared.
    fn clone(&self) -> (r: Self)
        ensures
            r@ == self@,
            r.wf() == self.wf(),
    {
        AEVTIndex { index: chunk_clone(&self.index) }
    }
}

} // verus!
