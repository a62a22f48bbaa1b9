use factstore::{AEVTIndex, DatabaseSnapshot, Datom, EAVTIndex, Maximum, Minimum, V};
use std::cmp::Ordering;

fn populated() -> DatabaseSnapshot {
    let mut snapshot = DatabaseSnapshot::new();
    for e in 0..5 {
        for a in 0..5 {
            for v in 0..5 {
                snapshot = snapshot.insert(Datom::new(e, a, V::I64(v), 1));
            }
        }
    }
    snapshot
}

fn key(d: &Datom) -> (i64, i64, V, i64, bool) {
    (d.e, d.a, d.v.clone(), d.t, d.added)
}

#[test]
fn selector_scenario() {
    let snapshot = populated();
    let aev = snapshot.select_aev(3, 3, &V::I64(3));
    assert_eq!(aev, vec![Datom::new(3, 3, V::I64(3), 1)]);
    assert_eq!(snapshot.select_a(3).len(), 25);
    assert!(snapshot.select_a(3).iter().all(|d| d.a == 3));
    assert_eq!(snapshot.select_e(1).len(), 25);
    assert!(snapshot.select_e(1).iter().all(|d| d.e == 1));
}

#[test]
fn selectors_on_both_orders() {
    let snapshot = populated();
    let ea = snapshot.select_ea(2, 4);
    assert_eq!(ea.len(), 5);
    let values: Vec<V> = ea.iter().map(|d| d.v.clone()).collect();
    assert_eq!(values, vec![V::I64(0), V::I64(1), V::I64(2), V::I64(3), V::I64(4)]);
    let ae = snapshot.select_ae(4, 2);
    assert_eq!(ae, ea);
    assert_eq!(snapshot.select_eav(2, 4, &V::I64(1)), vec![Datom::new(2, 4, V::I64(1), 1)]);
    assert_eq!(snapshot.select_eavt(2, 4, &V::I64(1), 1), vec![Datom::new(2, 4, V::I64(1), 1)]);
    assert_eq!(snapshot.select_aevt(4, 2, &V::I64(1), 1), vec![Datom::new(2, 4, V::I64(1), 1)]);
    assert!(snapshot.select_eavt(2, 4, &V::I64(1), 2).is_empty());
    assert!(snapshot.select_e(7).is_empty());
    assert!(snapshot.select_a(-1).is_empty());
}

#[test]
fn attribute_first_order() {
    let snapshot = populated();
    let a3 = snapshot.select_a(3);
    let entities: Vec<i64> = a3.iter().map(|d| d.e).collect();
    let mut expected = Vec::new();
    for e in 0..5 {
        for _ in 0..5 {
            expected.push(e);
        }
    }
    assert_eq!(entities, expected);
}

#[test]
fn ordering_is_strict_in_both_indexes() {
    let snapshot = populated()
        .insert(Datom::new(-3, 9, V::String("b".to_string()), 2))
        .insert(Datom::new(-3, 9, V::String("ab".to_string()), 2))
        .insert(Datom::retraction(-3, 9, V::String("ab".to_string()), 2));
    let eavt = snapshot.scan_eavt();
    assert_eq!(eavt.len(), 127);
    for w in eavt.windows(2) {
        assert_eq!(w[0].cmp_eavt(&w[1]), Ordering::Less);
        assert!((w[0].e, w[0].a) <= (w[1].e, w[1].a));
    }
    let aevt = snapshot.scan_aevt();
    for w in aevt.windows(2) {
        assert_eq!(w[0].cmp_aevt(&w[1]), Ordering::Less);
        assert!((w[0].a, w[0].e) <= (w[1].a, w[1].e));
    }
    assert_eq!(key(&eavt[0]), key(&Datom::new(-3, 9, V::String("ab".to_string()), 2)));
    assert_eq!(key(&eavt[1]), key(&Datom::new(-3, 9, V::String("b".to_string()), 2)));
}

#[test]
fn scans_agree_as_sets() {
    let snapshot = populated().insert(Datom::new(9, 0, V::Key, 3));
    let mut eavt: Vec<_> = snapshot.scan_eavt().iter().map(key).collect();
    let aevt_list = snapshot.scan_aevt();
    assert_eq!(eavt.len(), 126);
    assert_eq!(aevt_list.len(), 126);
    let mut aevt: Vec<_> = aevt_list.iter().map(key).collect();
    let by_fields = |x: &(i64, i64, V, i64, bool), y: &(i64, i64, V, i64, bool)| {
        (x.0, x.1, x.3).cmp(&(y.0, y.1, y.3)).then(format!("{:?}", x.2).cmp(&format!("{:?}", y.2)))
    };
    eavt.sort_by(by_fields);
    aevt.sort_by(by_fields);
    assert_eq!(eavt, aevt);
    assert_ne!(snapshot.scan_eavt(), snapshot.scan_aevt());
}

#[test]
fn insert_is_idempotent() {
    let once = DatabaseSnapshot::new().insert(Datom::new(1, 2, V::I64(3), 4));
    let twice = once.clone().insert(Datom::new(1, 2, V::I64(3), 4));
    assert_eq!(once.scan_eavt(), twice.scan_eavt());
    assert_eq!(once.scan_aevt(), twice.scan_aevt());
    assert_eq!(twice.scan_eavt().len(), 1);

    let index = EAVTIndex::new().insert(Datom::new(1, 2, V::Key, 4));
    let again = index.insert(Datom::new(1, 2, V::Key, 4));
    assert_eq!(index.scan(), again.scan());
    let index = AEVTIndex::new().insert(Datom::new(1, 2, V::Key, 4));
    let again = index.insert(Datom::new(1, 2, V::Key, 4));
    assert_eq!(index.scan(), again.scan());
    assert_eq!(again.scan().len(), 1);
}

#[test]
fn snapshot_isolation() {
    let s1 = populated();
    let before = s1.scan_eavt();
    let d = Datom::new(42, 1, V::EntityId(7), 9);
    let s2 = s1.clone().insert(d.clone());
    assert_eq!(s1.scan_eavt(), before);
    assert!(!s1.scan_eavt().contains(&d));
    let after = s2.scan_eavt();
    assert_eq!(after.len(), before.len() + 1);
    assert!(after.contains(&d));
    assert!(before.iter().all(|x| after.contains(x)));
    assert!(s1.select_e(42).is_empty());
    assert_eq!(s2.select_e(42), vec![d]);
}

#[test]
fn entity_bracket_matches_filtered_scan() {
    let snapshot = populated()
        .insert(Datom::new(i64::MIN, i64::MIN, V::I64(i64::MIN), i64::MIN))
        .insert(Datom::new(i64::MAX, i64::MAX, V::I64(i64::MAX), i64::MAX));
    let all = snapshot.scan_eavt();
    for e in [i64::MIN, -1, 0, 1, 2, 3, 4, 5, i64::MAX] {
        let filtered: Vec<Datom> = all.iter().filter(|d| d.e == e).cloned().collect();
        assert_eq!(snapshot.select_e(e), filtered);
    }
    for a in [i64::MIN, 0, 3, i64::MAX] {
        let filtered: Vec<Datom> = snapshot.scan_aevt().into_iter().filter(|d| d.a == a).collect();
        assert_eq!(snapshot.select_a(a), filtered);
    }
}

#[test]
fn round_trip_by_full_key() {
    let d = Datom::new(5, 6, V::String("x".to_string()), 7);
    let s = populated().insert(d.clone());
    assert_eq!(s.select_eavt(5, 6, &V::String("x".to_string()), 7), vec![d.clone()]);
    assert_eq!(s.select_aevt(6, 5, &V::String("x".to_string()), 7), vec![d]);
}

#[test]
fn one_datom_per_fact() {
    let s = DatabaseSnapshot::new()
        .insert(Datom::new(1, 1, V::I64(1), 1))
        .insert(Datom::retraction(1, 1, V::I64(1), 1));
    let run = s.select_eavt(1, 1, &V::I64(1), 1);
    assert_eq!(run.len(), 1);
    assert!(run[0].added);
    assert_eq!(s.scan_aevt().len(), 1);
    assert!(s.select_aevt(1, 1, &V::I64(1), 1)[0].added);

    let s = DatabaseSnapshot::new()
        .insert(Datom::retraction(1, 1, V::I64(1), 1))
        .insert(Datom::new(1, 1, V::I64(1), 1));
    let run = s.select_eavt(1, 1, &V::I64(1), 1);
    assert_eq!(run.len(), 1);
    assert!(!run[0].added);

    let s = s.insert(Datom::retraction(1, 1, V::I64(1), 2));
    let history = s.select_eav(1, 1, &V::I64(1));
    assert_eq!(history.len(), 2);
    assert_eq!(history[1].t, 2);
    assert!(!history[1].added);
}

#[test]
fn empty_snapshot() {
    let s = DatabaseSnapshot::default();
    assert!(s.scan_eavt().is_empty());
    assert!(s.scan_aevt().is_empty());
    assert!(s.select_e(0).is_empty());
    assert!(s.select_aevt(0, 0, &V::Key, 0).is_empty());
}

#[test]
fn value_variants_order_by_declaration() {
    let s = DatabaseSnapshot::new()
        .insert(Datom::new(1, 1, V::Key, 1))
        .insert(Datom::new(1, 1, V::I64(-5), 1))
        .insert(Datom::new(1, 1, V::Uuid(u128::MAX), 1))
        .insert(Datom::new(1, 1, V::Uuid(3), 1))
        .insert(Datom::new(1, 1, V::EntityId(10), 1))
        .insert(Datom::new(1, 1, V::String("zz".to_string()), 1))
        .insert(Datom::new(1, 1, V::String("".to_string()), 1))
        .insert(Datom::new(1, 1, V::String("é".to_string()), 1));
    let values: Vec<V> = s.select_ea(1, 1).into_iter().map(|d| d.v).collect();
    assert_eq!(
        values,
        vec![
            V::String("".to_string()),
            V::String("zz".to_string()),
            V::String("é".to_string()),
            V::EntityId(10),
            V::Uuid(3),
            V::Uuid(u128::MAX),
            V::I64(-5),
            V::Key,
        ]
    );
}

#[test]
fn uuid_values_order_by_bytes() {
    let low = uuid::Uuid::parse_str("00000000-0000-0000-0000-0000000000ff").unwrap();
    let high = uuid::Uuid::parse_str("01000000-0000-0000-0000-000000000000").unwrap();
    assert!(low < high);
    let s = DatabaseSnapshot::new()
        .insert(Datom::new(1, 1, V::Uuid(high.as_u128()), 1))
        .insert(Datom::new(1, 1, V::Uuid(low.as_u128()), 1));
    let got: Vec<V> = s.select_e(1).into_iter().map(|d| d.v).collect();
    assert_eq!(got, vec![V::Uuid(low.as_u128()), V::Uuid(high.as_u128())]);
}

#[test]
fn sentinels() {
    assert_eq!(i64::minimum(), i64::MIN);
    assert_eq!(i64::maximum(), i64::MAX);
    assert_eq!(V::minimum(), V::MinimumValue);
    assert_eq!(V::maximum(), V::MaximumValue);
    assert!(!V::minimum().is_real());
    assert!(!V::maximum().is_real());
    assert!(V::Key.is_real());
    assert!(V::String("s".to_string()).is_real());
}

#[test]
fn full_key_selection_with_extreme_fields() {
    let d = Datom::new(i64::MIN, i64::MAX, V::I64(0), i64::MIN);
    let s = DatabaseSnapshot::new().insert(d.clone()).insert(Datom::new(i64::MIN, i64::MAX, V::I64(0), i64::MAX));
    assert_eq!(s.select_eavt(i64::MIN, i64::MAX, &V::I64(0), i64::MIN), vec![d.clone()]);
    assert_eq!(s.select_eav(i64::MIN, i64::MAX, &V::I64(0)).len(), 2);
    assert_eq!(s.select_aev(i64::MAX, i64::MIN, &V::I64(0))[0], d);
}
