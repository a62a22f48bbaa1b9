use vstd::prelude::*;
use crate::datom::{
    Datom, DatomView, aevt_sorted, datom_storable, datoms_view, eavt_sorted, holds_datom,
    in_aevt_order, in_eavt_order, lemma_aevt_listing_unique, lemma_eavt_listing_unique,
    lemma_index_orders_total, one_per_key, same_datom, with_datom,
};
use crate::indexes::{AEVTIndex, EAVTIndex};
use crate::value::{AttributeId, EntityId, TransactionId, V};

verus! {

/// A point-in-time view of the database: the same datoms held in an
/// entity-first and an attribute-first index. Inserting yields a new
/// snapshot and leaves this one as it was.
pub struct DatabaseSnapshot {
    eavt: EAVTIndex,
    aevt: AEVTIndex,
}

impl View for DatabaseSnapshot {
    type V = Set<DatomView>;

    closed spec fn view(&self) -> Set<DatomView> {
        self.eavt@
    }
}

impl DatabaseSnapshot {
    /// Both indexes hold the same datoms, none of which holds a sentinel.
    pub closed spec fn wf(&self) -> bool {
        &&& self.eavt.wf()
        &&& self.aevt.wf()
        &&& self.eavt@ == self.aevt@
        &&& forall|d: DatomView| #[trigger] self.eavt@.contains(d) ==> datom_storable(d)
    }

    /// A snapshot holds one datom per entity, attribute, value and
    /// transaction.
    pub proof fn lemma_one_per_key(&self)
        requires
            self.wf(),
        ensures
            one_per_key(self@),
    {
        self.eavt.lemma_one_per_key();
    }

    #[must_use]
    pub fn new() -> (r: DatabaseSnapshot)
        ensures
            r.wf(),
            r@ == Set::<DatomView>::empty(),
    {
        DatabaseSnapshot { eavt: EAVTIndex::new(), aevt: AEVTIndex::new() }
    }

    /// A new snapshot holding this one's datoms and `datom`, in every index;
    /// where a datom equal to `datom` is held already, the new snapshot holds
    /// the same datoms.
    #[must_use]
    pub fn insert(self, datom: Datom) -> (r: Self)
        requires
            self.wf(),
            !datom.v.is_sentinel(),
        ensures
            r.wf(),
            r@ == with_datom(self@, datom@),
    {
        let eavt = self.eavt.insert(datom.clone());
        let aevt = self.aevt.insert(datom);
        DatabaseSnapshot { eavt, aevt }
    }

    /// All datoms in entity, attribute, value, transaction order.
    pub fn scan_eavt(&self) -> (r: Vec<Datom>)
        requires
            self.wf(),
        ensures
            in_eavt_order(datoms_view(r@), self@),
    {
        self.eavt.scan()
    }

    /// The datoms of entity `e`, in entity-first order.
    pub fn select_e(&self, e: EntityId) -> (r: Vec<Datom>)
        requires
            self.wf(),
        ensures
            in_eavt_order(datoms_view(r@), self@.filter(|x: DatomView| x.0 == e)),
    {
        self.eavt.select_e(e)
    }

    /// The datoms of entity `e` and attribute `a`, in entity-first order.
    pub fn select_ea(&self, e: EntityId, a: AttributeId) -> (r: Vec<Datom>)
        requires
            self.wf(),
        ensures
            in_eavt_order(datoms_view(r@), self@.filter(|x: DatomView| x.0 == e && x.1 == a)),
    {
        self.eavt.select_ea(e, a)
    }

    /// The datoms of entity `e`, attribute `a` and value `v`, in
    /// entity-first order.
    pub fn select_eav(&self, e: EntityId, a: AttributeId, v: &V) -> (r: Vec<Datom>)
        requires
            self.wf(),
        ensures
            in_eavt_order(
                datoms_view(r@),
                self@.filter(|x: DatomView| x.0 == e && x.1 == a && x.2 == v@),
            ),
    {
        self.eavt.select_eav(e, a, v)
    }

    /// The datom with entity `e`, attribute `a`, value `v` and transaction
    /// `t`, if one is held.
    pub fn select_eavt(&self, e: EntityId, a: AttributeId, v: &V, t: TransactionId) -> (r: Vec<
        Datom,
    >)
        requires
            self.wf(),
        ensures
            in_eavt_order(
                datoms_view(r@),
                self@.filter(|x: DatomView| x.0 == e && x.1 == a && x.2 == v@ && x.3 == t),
            ),
            r.len() <= 1,
    {
        self.eavt.select_eavt(e, a, v, t)
    }

    /// All datoms in attribute, entity, value, transaction order.
    pub fn scan_aevt(&self) -> (r: Vec<Datom>)
        requires
            self.wf(),
        ensures
            in_aevt_order(datoms_view(r@), self@),
    {
        self.aevt.scan()
    }

    /// The datoms of attribute `a`, in attribute-first order.
    pub fn select_a(&self, a: AttributeId) -> (r: Vec<Datom>)
        requires
            self.wf(),
        ensures
            in_aevt_order(datoms_view(r@), self@.filter(|x: DatomView| x.1 == a)),
    {
        self.aevt.select_a(a)
    }

    /// The datoms of attribute `a` and entity `e`, in attribute-first order.
    pub fn select_ae(&self, a: AttributeId, e: EntityId) -> (r: Vec<Datom>)
        requires
            self.wf(),
        ensures
            in_aevt_order(datoms_view(r@), self@.filter(|x: DatomView| x.1 == a && x.0 == e)),
    {
        self.aevt.select_ae(a, e)
    }

    /// The datoms of attribute `a`, entity `e` and value `v`, in
    /// attribute-first order.
    pub fn select_aev(&self, a: AttributeId, e: EntityId, v: &V) -> (r: Vec<Datom>)
        requires
            self.wf(),
        ensures
            in_aevt_order(
                datoms_view(r@),
                self@.filter(|x: DatomView| x.1 == a && x.0 == e && x.2 == v@),
            ),
    {
        self.aevt.select_aev(a, e, v)
    }

    /// The datom with attribute `a`, entity `e`, value `v` and transaction
    /// `t`, if one is held.
    pub fn select_aevt(&self, a: AttributeId, e: EntityId, v: &V, t: TransactionId) -> (r: Vec<
        Datom,
    >)
        requires
            self.wf(),
        ensures
            in_aevt_order(
                datoms_view(r@),
                self@.filter(|x: DatomView| x.1 == a && x.0 == e && x.2 == v@ && x.3 == t),
            ),
            r.len() <= 1,
    {
        self.aevt.select_aevt(a, e, v, t)
    }
}

impl Clone for DatabaseSnapshot {
    /// Another handle on the same snapshot; the indexes' nodes are shared.
    fn clone(&self) -> (r: Self)
        ensures
            r@ == self@,
            r.wf() == self.wf(),
    {
        DatabaseSnapshot { eavt: self.eavt.clone(), aevt: self.aevt.clone() }
    }
}

impl Default for DatabaseSnapshot {
    fn default() -> (r: Self)
        ensures
            r.wf(),
            r@ == Set::<DatomView>::empty(),
    {
        Self::new()
    }
}

proof fn lemma_listing_no_duplicates(s: Seq<DatomView>)
    requires
        eavt_sorted(s) || aevt_sorted(s),
    ensures
        s.no_duplicates(),
        s.to_set().len() == s.len(),
{
    assert forall|i: int, j: int| 0 <= i < s.len() && 0 <= j < s.len() && i != j implies s[i]
        != s[j] by {
        lemma_index_orders_total(s[i], s[j], s[i]);
        lemma_index_orders_total(s[j], s[i], s[j]);
    }
    s.unique_seq_to_set();
}

/// Both index orders list the same datoms of a snapshot, as many of them in
/// one as in the other; only their sequence differs.
pub proof fn lemma_scans_agree(db: Set<DatomView>, by_entity: Seq<DatomView>, by_attribute: Seq<DatomView>)
    requires
        in_eavt_order(by_entity, db),
        in_aevt_order(by_attribute, db),
    ensures
        by_entity.to_set() == by_attribute.to_set(),
        by_entity.len() == by_attribute.len(),
{
    assert(by_entity.to_set() =~= by_attribute.to_set());
    lemma_listing_no_duplicates(by_entity);
    lemma_listing_no_duplicates(by_attribute);
}

/// Inserting a datom twice leaves the same datoms as inserting it once, and
/// so the same listing in each index order.
pub proof fn lemma_insert_idempotent(
    db: Set<DatomView>,
    d: DatomView,
    once: Seq<DatomView>,
    twice: Seq<DatomView>,
)
    ensures
        with_datom(with_datom(db, d), d) == with_datom(db, d),
        in_eavt_order(once, with_datom(db, d)) && in_eavt_order(twice, with_datom(with_datom(db, d), d))
            ==> once == twice,
        in_aevt_order(once, with_datom(db, d)) && in_aevt_order(twice, with_datom(with_datom(db, d), d))
            ==> once == twice,
{
    if !holds_datom(db, d) {
        assert(db.insert(d).contains(d) && same_datom(d, d));
    }
    assert(holds_datom(with_datom(db, d), d));
    if in_eavt_order(once, with_datom(db, d)) && in_eavt_order(twice, with_datom(with_datom(db, d), d)) {
        lemma_eavt_listing_unique(once, twice, with_datom(db, d));
    }
    if in_aevt_order(once, with_datom(db, d)) && in_aevt_order(twice, with_datom(with_datom(db, d), d)) {
        lemma_aevt_listing_unique(once, twice, with_datom(db, d));
    }
}

/// Deriving a snapshot by an insert leaves the listing of the first one as
/// it was: it lacks `d` unless a datom equal to `d` was held. The new
/// listing holds every earlier datom and a datom equal to `d`, and nothing
/// else.
pub proof fn lemma_snapshot_isolation(
    db: Set<DatomView>,
    d: DatomView,
    before: Seq<DatomView>,
    after: Seq<DatomView>,
)
    requires
        in_eavt_order(before, db),
        in_eavt_order(after, with_datom(db, d)),
    ensures
        !holds_datom(db, d) ==> !before.contains(d) && after.contains(d),
        exists|x: DatomView| #[trigger] after.contains(x) && same_datom(x, d),
        forall|x: DatomView| before.contains(x) ==> after.contains(x),
        forall|x: DatomView| after.contains(x) ==> (before.contains(x) || x == d),
{
    if holds_datom(db, d) {
        let x = choose|x: DatomView| #[trigger] db.contains(x) && same_datom(x, d);
        assert(after.contains(x));
    } else {
        assert(!db.contains(d));
        assert(after.contains(d) && same_datom(d, d));
    }
}

/// Selecting by entity gives the datoms of the full scan whose entity
/// matches.
pub proof fn lemma_entity_bracket(
    db: Set<DatomView>,
    e: EntityId,
    all: Seq<DatomView>,
    selected: Seq<DatomView>,
)
    requires
        in_eavt_order(all, db),
        in_eavt_order(selected, db.filter(|x: DatomView| x.0 == e)),
    ensures
        selected.to_set() == all.to_set().filter(|x: DatomView| x.0 == e),
{
    assert(selected.to_set() =~= all.to_set().filter(|x: DatomView| x.0 == e));
}

/// Inserting a datom and selecting by its entity, attribute, value and
/// transaction gives one datom, equal to the inserted one, in either index.
/// It is the inserted datom itself unless an equal one was held already.
pub proof fn lemma_round_trip(db: Set<DatomView>, d: DatomView, r: Seq<DatomView>)
    requires
        one_per_key(db),
    ensures
        in_eavt_order(
            r,
            with_datom(db, d).filter(
                |x: DatomView| x.0 == d.0 && x.1 == d.1 && x.2 == d.2 && x.3 == d.3,
            ),
        ) ==> r.len() == 1 && same_datom(r[0], d) && (!holds_datom(db, d) ==> r == seq![d]),
        in_aevt_order(
            r,
            with_datom(db, d).filter(
                |x: DatomView| x.1 == d.1 && x.0 == d.0 && x.2 == d.2 && x.3 == d.3,
            ),
        ) ==> r.len() == 1 && same_datom(r[0], d) && (!holds_datom(db, d) ==> r == seq![d]),
{
    let s = with_datom(db, d);
    let f1 = s.filter(|x: DatomView| x.0 == d.0 && x.1 == d.1 && x.2 == d.2 && x.3 == d.3);
    let f2 = s.filter(|x: DatomView| x.1 == d.1 && x.0 == d.0 && x.2 == d.2 && x.3 == d.3);
    let w = if holds_datom(db, d) {
        choose|x: DatomView| #[trigger] db.contains(x) && same_datom(x, d)
    } else {
        d
    };
    assert(s.contains(w));
    assert forall|x: DatomView| s.contains(x) && same_datom(x, d) implies x == w by {
        if holds_datom(db, d) {
            assert(db.contains(x));
            assert(db.contains(w) && same_datom(x, w));
        }
    }
    assert(f1 =~= set![w]);
    assert(f2 =~= set![w]);
    let one = seq![w];
    assert(one.contains(w)) by {
        assert(one[0] == w);
    }
    if in_eavt_order(r, f1) {
        lemma_eavt_listing_unique(r, one, f1);
    }
    if in_aevt_order(r, f2) {
        lemma_aevt_listing_unique(r, one, f2);
    }
}

} // verus!
