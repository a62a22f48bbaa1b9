use vstd::prelude::*;
use crate::chunk::{Key, key_view};
use crate::order::{KeyView, ValueKey, key_lt, lemma_key_lt_strict_total, ordering_is};
use crate::value::{AttributeId, EntityId, TransactionId, V, cmp_i64, value_key_canonical};
use std::cmp::Ordering;

verus! {

/// The model of a datom: entity, attribute, value layout, transaction, and
/// whether it asserts (`true`) or retracts (`false`) the fact.
pub type DatomView = (i64, i64, ValueKey, i64, bool);

/// A fact: entity `e` has value `v` for attribute `a` as of transaction `t`.
/// `added` tells an assertion (`true`) from a retraction (`false`). Two
/// datoms are the same datom when `e`, `a`, `v` and `t` agree; the flag is
/// carried along and takes no part in identity or order.
#[derive(Debug)]
pub struct Datom {
    pub e: EntityId,
    pub a: AttributeId,
    pub v: V,
    pub t: TransactionId,
    pub added: bool,
}

impl View for Datom {
    type V = DatomView;

    open spec fn view(&self) -> DatomView {
        (self.e, self.a, self.v@, self.t, self.added)
    }
}

/// The layouts that some datom has.
pub open spec fn datom_canonical(d: DatomView) -> bool {
    value_key_canonical(d.2)
}

/// The datom's value is a real value, not a sentinel.
pub open spec fn datom_storable(d: DatomView) -> bool {
    1 <= d.2.0 <= 5
}

/// The key of `d` in the entity-first index.
pub open spec fn eavt_key(d: DatomView) -> KeyView {
    (d.0, d.1, d.2, d.3)
}

/// The key of `d` in the attribute-first index: entity and attribute swap.
pub open spec fn aevt_key(d: DatomView) -> KeyView {
    (d.1, d.0, d.2, d.3)
}

/// `x` and `y` are the same datom: entity, attribute, value and transaction
/// agree.
pub open spec fn same_datom(x: DatomView, y: DatomView) -> bool {
    eavt_key(x) == eavt_key(y)
}

/// `set` holds a datom equal to `d`, whatever its assertion flag.
pub open spec fn holds_datom(set: Set<DatomView>, d: DatomView) -> bool {
    exists|x: DatomView| #[trigger] set.contains(x) && same_datom(x, d)
}

/// `set` holds at most one datom for each entity, attribute, value and
/// transaction.
pub open spec fn one_per_key(set: Set<DatomView>) -> bool {
    forall|x: DatomView, y: DatomView|
        #[trigger] set.contains(x) && #[trigger] set.contains(y) && same_datom(x, y) ==> x == y
}

/// `set` after inserting `d`: unchanged where it already holds a datom equal
/// to `d`, else with `d` added.
pub open spec fn with_datom(set: Set<DatomView>, d: DatomView) -> Set<DatomView> {
    if holds_datom(set, d) {
        set
    } else {
        set.insert(d)
    }
}

/// Entity, attribute, value, then transaction.
pub open spec fn eavt_lt(x: DatomView, y: DatomView) -> bool {
    key_lt(eavt_key(x), eavt_key(y))
}

/// Attribute, entity, value, then transaction.
pub open spec fn aevt_lt(x: DatomView, y: DatomView) -> bool {
    key_lt(aevt_key(x), aevt_key(y))
}

pub open spec fn eavt_sorted(s: Seq<DatomView>) -> bool {
    forall|i: int, j: int| 0 <= i < j < s.len() ==> eavt_lt(#[trigger] s[i], #[trigger] s[j])
}

pub open spec fn aevt_sorted(s: Seq<DatomView>) -> bool {
    forall|i: int, j: int| 0 <= i < j < s.len() ==> aevt_lt(#[trigger] s[i], #[trigger] s[j])
}

/// `s` lists the datoms of `set` in entity-first order.
pub open spec fn in_eavt_order(s: Seq<DatomView>, set: Set<DatomView>) -> bool {
    &&& eavt_sorted(s)
    &&& forall|x: DatomView| s.contains(x) <==> set.contains(x)
}

/// `s` lists the datoms of `set` in attribute-first order.
pub open spec fn in_aevt_order(s: Seq<DatomView>, set: Set<DatomView>) -> bool {
    &&& aevt_sorted(s)
    &&& forall|x: DatomView| s.contains(x) <==> set.contains(x)
}

pub open spec fn datoms_view(r: Seq<Datom>) -> Seq<DatomView> {
    r.map_values(|d: Datom| d@)
}

impl Clone for Datom {
    fn clone(&self) -> (r: Datom)
        ensures
            r@ == self@,
    {
        Datom { e: self.e, a: self.a, v: self.v.clone(), t: self.t, added: self.added }
    }
}

impl PartialEq for Datom {
    /// Entity, attribute, value and transaction agree.
    fn eq(&self, other: &Datom) -> (r: bool) {
        matches!(self.cmp_eavt(other), Ordering::Equal)
    }
}

impl vstd::std_specs::cmp::PartialEqSpecImpl for Datom {
    open spec fn obeys_eq_spec() -> bool {
        true
    }

    open spec fn eq_spec(&self, other: &Datom) -> bool {
        same_datom(self@, other@)
    }
}

impl Eq for Datom {

}

impl Datom {
    /// An assertion of the fact `(e, a, v)` as of transaction `t`.
    pub fn new(e: EntityId, a: AttributeId, v: V, t: TransactionId) -> (r: Datom)
        ensures
            r@ == (e, a, v@, t, true),
    {
        Datom { e, a, v, t, added: true }
    }

    /// A retraction of the fact `(e, a, v)` as of transaction `t`.
    pub fn retraction(e: EntityId, a: AttributeId, v: V, t: TransactionId) -> (r: Datom)
        ensures
            r@ == (e, a, v@, t, false),
    {
        Datom { e, a, v, t, added: false }
    }

    pub fn e(&self) -> (r: EntityId)
        ensures
            r == self.e,
    {
        self.e
    }

    pub fn a(&self) -> (r: AttributeId)
        ensures
            r == self.a,
    {
        self.a
    }

    pub fn v(&self) -> (r: V)
        ensures
            r@ == self.v@,
    {
        self.v.clone()
    }

    pub fn t(&self) -> (r: TransactionId)
        ensures
            r == self.t,
    {
        self.t
    }

    /// Whether the datom asserts its fact; `false` for a retraction.
    pub fn added(&self) -> (r: bool)
        ensures
            r == self.added,
    {
        self.added
    }

    /// Compares value, then transaction.
    fn cmp_vt(&self, other: &Datom) -> (r: Ordering)
        ensures
            ordering_is(
                r,
                key_lt((0, 0, self@.2, self@.3), (0, 0, other@.2, other@.3)),
                (self@.2, self@.3) == (other@.2, other@.3),
                key_lt((0, 0, other@.2, other@.3), (0, 0, self@.2, self@.3)),
            ),
    {
        let o = self.v.cmp_value(&other.v);
        if !matches!(o, Ordering::Equal) {
            return o;
        }
        cmp_i64(self.t, other.t)
    }

    /// The entity-first comparator: entity, attribute, value, then
    /// transaction; the first field that differs decides, and datoms that
    /// agree on all four compare equal.
    pub fn cmp_eavt(&self, other: &Datom) -> (r: Ordering)
        ensures
            ordering_is(r, eavt_lt(self@, other@), same_datom(self@, other@), eavt_lt(other@, self@)),
    {
        let o = cmp_i64(self.e, other.e);
        if !matches!(o, Ordering::Equal) {
            return o;
        }
        let o = cmp_i64(self.a, other.a);
        if !matches!(o, Ordering::Equal) {
            return o;
        }
        self.cmp_vt(other)
    }

    /// The attribute-first comparator: attribute, entity, value, then
    /// transaction; the first field that differs decides, and datoms that
    /// agree on all four compare equal.
    pub fn cmp_aevt(&self, other: &Datom) -> (r: Ordering)
        ensures
            ordering_is(r, aevt_lt(self@, other@), same_datom(self@, other@), aevt_lt(other@, self@)),
    {
        let o = cmp_i64(self.a, other.a);
        if !matches!(o, Ordering::Equal) {
            return o;
        }
        let o = cmp_i64(self.e, other.e);
        if !matches!(o, Ordering::Equal) {
            return o;
        }
        self.cmp_vt(other)
    }

    pub(crate) fn to_eavt_key(&self) -> (r: Key)
        ensures
            key_view(r) == eavt_key(self@),
    {
        (self.e, self.a, self.v.to_key(), self.t)
    }

    pub(crate) fn to_aevt_key(&self) -> (r: Key)
        ensures
            key_view(r) == aevt_key(self@),
    {
        (self.a, self.e, self.v.to_key(), self.t)
    }

    pub(crate) fn from_eavt_binding(k: &Key, added: bool) -> (r: Datom)
        requires
            value_key_canonical(key_view(*k).2),
        ensures
            eavt_key(r@) == key_view(*k),
            r@.4 == added,
    {
        Datom { e: k.0, a: k.1, v: V::from_key(&k.2), t: k.3, added }
    }

    pub(crate) fn from_aevt_binding(k: &Key, added: bool) -> (r: Datom)
        requires
            value_key_canonical(key_view(*k).2),
        ensures
            aevt_key(r@) == key_view(*k),
            r@.4 == added,
    {
        Datom { e: k.1, a: k.0, v: V::from_key(&k.2), t: k.3, added }
    }
}

/// Each index order is a strict total order on datoms: of two datoms that
/// are not the same datom exactly one precedes the other, no datom precedes
/// one equal to it, and precedence is transitive.
pub proof fn lemma_index_orders_total(x: DatomView, y: DatomView, z: DatomView)
    ensures
        same_datom(x, y) ==> !eavt_lt(x, y) && !aevt_lt(x, y),
        !same_datom(x, y) ==> (eavt_lt(x, y) || eavt_lt(y, x)),
        eavt_lt(x, y) ==> !eavt_lt(y, x),
        eavt_lt(x, y) && eavt_lt(y, z) ==> eavt_lt(x, z),
        !same_datom(x, y) ==> (aevt_lt(x, y) || aevt_lt(y, x)),
        aevt_lt(x, y) ==> !aevt_lt(y, x),
        aevt_lt(x, y) && aevt_lt(y, z) ==> aevt_lt(x, z),
{
    lemma_key_lt_strict_total(eavt_key(x), eavt_key(y), eavt_key(z));
    lemma_key_lt_strict_total(aevt_key(x), aevt_key(y), aevt_key(z));
}

/// A listing strictly ascending in either order.
pub open spec fn listed_by(s: Seq<DatomView>, lt: spec_fn(DatomView, DatomView) -> bool) -> bool {
    forall|i: int, j: int| 0 <= i < j < s.len() ==> lt(#[trigger] s[i], #[trigger] s[j])
}

proof fn lemma_tail_contents(
    s1: Seq<DatomView>,
    s2: Seq<DatomView>,
    x: DatomView,
    lt: spec_fn(DatomView, DatomView) -> bool,
)
    requires
        lt == (|a: DatomView, b: DatomView| eavt_lt(a, b)) || lt == (|a: DatomView, b: DatomView|
            aevt_lt(a, b)),
        listed_by(s1, lt),
        listed_by(s2, lt),
        s1.len() > 0,
        s2.len() > 0,
        s1[0] == s2[0],
        forall|y: DatomView| s1.contains(y) ==> s2.contains(y),
        s1.drop_first().contains(x),
    ensures
        s2.drop_first().contains(x),
{
    let i = choose|i: int| 0 <= i < s1.drop_first().len() && s1.drop_first()[i] == x;
    assert(s1[i + 1] == x);
    assert(lt(s1[0], s1[i + 1]));
    lemma_index_orders_total(x, x, x);
    assert(s1.contains(x));
    let m = choose|m: int| 0 <= m < s2.len() && s2[m] == x;
    assert(m != 0);
    assert(s2.drop_first()[m - 1] == x);
}

/// Two strictly ascending listings of the same datoms are equal.
proof fn lemma_listing_unique(
    s1: Seq<DatomView>,
    s2: Seq<DatomView>,
    lt: spec_fn(DatomView, DatomView) -> bool,
)
    requires
        lt == (|a: DatomView, b: DatomView| eavt_lt(a, b)) || lt == (|a: DatomView, b: DatomView|
            aevt_lt(a, b)),
        listed_by(s1, lt),
        listed_by(s2, lt),
        forall|x: DatomView| s1.contains(x) <==> s2.contains(x),
    ensures
        s1 == s2,
    decreases s1.len(),
{
    if s1.len() == 0 || s2.len() == 0 {
        if s2.len() > 0 {
            assert(s2.contains(s2[0]));
        }
        if s1.len() > 0 {
            assert(s1.contains(s1[0]));
        }
        assert(s1 =~= s2);
    } else {
        let a = s1[0];
        let b = s2[0];
        if a != b {
            assert(s1.contains(a));
            assert(s2.contains(b));
            let k = choose|k: int| 0 <= k < s2.len() && s2[k] == a;
            let j = choose|j: int| 0 <= j < s1.len() && s1[j] == b;
            assert(lt(s2[0], s2[k]));
            assert(lt(s1[0], s1[j]));
            lemma_index_orders_total(a, b, a);
        }
        let t1 = s1.drop_first();
        let t2 = s2.drop_first();
        assert forall|x: DatomView| t1.contains(x) <==> t2.contains(x) by {
            if t1.contains(x) {
                lemma_tail_contents(s1, s2, x, lt);
            }
            if t2.contains(x) {
                lemma_tail_contents(s2, s1, x, lt);
            }
        }
        assert(listed_by(t1, lt));
        assert(listed_by(t2, lt));
        lemma_listing_unique(t1, t2, lt);
        assert(s1 =~= seq![a] + t1);
        assert(s2 =~= seq![b] + t2);
    }
}

/// Two listings of one set of datoms in entity-first order are the same.
pub proof fn lemma_eavt_listing_unique(s1: Seq<DatomView>, s2: Seq<DatomView>, set: Set<DatomView>)
    requires
        in_eavt_order(s1, set),
        in_eavt_order(s2, set),
    ensures
        s1 == s2,
{
    let lt = |a: DatomView, b: DatomView| eavt_lt(a, b);
    assert(listed_by(s1, lt));
    assert(listed_by(s2, lt));
    lemma_listing_unique(s1, s2, lt);
}

/// Two listings of one set of datoms in attribute-first order are the same.
pub proof fn lemma_aevt_listing_unique(s1: Seq<DatomView>, s2: Seq<DatomView>, set: Set<DatomView>)
    requires
        in_aevt_order(s1, set),
        in_aevt_order(s2, set),
    ensures
        s1 == s2,
{
    let lt = |a: DatomView, b: DatomView| aevt_lt(a, b);
    assert(listed_by(s1, lt));
    assert(listed_by(s2, lt));
    lemma_listing_unique(s1, s2, lt);
}

} // verus!
