use factstore::order::cmp_str;
use factstore::value::cmp_i64;
use factstore::{Datom, V};
use std::cmp::Ordering;

fn sample() -> Vec<Datom> {
    vec![
        Datom::new(1, 2, V::I64(3), 4),
        Datom::new(1, 2, V::I64(3), 5),
        Datom::retraction(1, 2, V::I64(3), 6),
        Datom::new(2, 1, V::I64(3), 4),
        Datom::new(1, 1, V::String("a".to_string()), 4),
        Datom::new(1, 1, V::EntityId(0), 4),
        Datom::new(-1, 9, V::Key, 0),
        Datom::new(1, 2, V::Uuid(7), 4),
    ]
}

#[test]
fn comparators_are_strict_total_orders() {
    let ds = sample();
    for x in &ds {
        assert_eq!(x.cmp_eavt(x), Ordering::Equal);
        assert_eq!(x.cmp_aevt(x), Ordering::Equal);
        for y in &ds {
            if x != y {
                assert_eq!(x.cmp_eavt(y), y.cmp_eavt(x).reverse());
                assert_ne!(x.cmp_eavt(y), Ordering::Equal);
                assert_eq!(x.cmp_aevt(y), y.cmp_aevt(x).reverse());
                assert_ne!(x.cmp_aevt(y), Ordering::Equal);
            }
            for z in &ds {
                if x.cmp_eavt(y) == Ordering::Less && y.cmp_eavt(z) == Ordering::Less {
                    assert_eq!(x.cmp_eavt(z), Ordering::Less);
                }
                if x.cmp_aevt(y) == Ordering::Less && y.cmp_aevt(z) == Ordering::Less {
                    assert_eq!(x.cmp_aevt(z), Ordering::Less);
                }
            }
        }
    }
}

#[test]
fn comparators_cascade_in_field_order() {
    let a = Datom::new(1, 9, V::I64(0), 0);
    let b = Datom::new(2, 1, V::I64(0), 0);
    assert_eq!(a.cmp_eavt(&b), Ordering::Less);
    assert_eq!(a.cmp_aevt(&b), Ordering::Greater);
    let c = Datom::new(1, 9, V::I64(0), 1);
    assert_eq!(a.cmp_eavt(&c), Ordering::Less);
    let r = Datom::retraction(1, 9, V::I64(0), 0);
    assert_eq!(r.cmp_eavt(&a), Ordering::Equal);
    assert_eq!(r.cmp_aevt(&a), Ordering::Equal);
    assert_eq!(r, a);
}

#[test]
fn values_compare_by_variant_then_payload() {
    assert_eq!(V::MinimumValue.cmp_value(&V::String(String::new())), Ordering::Less);
    assert_eq!(V::Key.cmp_value(&V::MaximumValue), Ordering::Less);
    assert_eq!(V::I64(-100).cmp_value(&V::Uuid(u128::MAX)), Ordering::Greater);
    assert_eq!(V::I64(-100).cmp_value(&V::I64(3)), Ordering::Less);
    assert_eq!(V::EntityId(5).cmp_value(&V::EntityId(5)), Ordering::Equal);
    assert_eq!(V::Uuid(9).cmp_value(&V::Uuid(2)), Ordering::Greater);
    assert_eq!(V::MaximumValue.cmp_value(&V::MaximumValue), Ordering::Equal);
}

#[test]
fn strings_compare_lexicographically() {
    assert_eq!(cmp_str("abc", "abd"), Ordering::Less);
    assert_eq!(cmp_str("ab", "abc"), Ordering::Less);
    assert_eq!(cmp_str("abc", "ab"), Ordering::Greater);
    assert_eq!(cmp_str("", ""), Ordering::Equal);
    assert_eq!(cmp_str("z", "é"), Ordering::Less);
    assert_eq!(cmp_str("é", "é"), Ordering::Equal);
    for (x, y) in [("a", "b"), ("zz", "é"), ("", "x"), ("日本", "日"), ("x", "x")] {
        assert_eq!(cmp_str(x, y), x.cmp(y));
    }
}

#[test]
fn integers_compare_naturally() {
    assert_eq!(cmp_i64(i64::MIN, i64::MAX), Ordering::Less);
    assert_eq!(cmp_i64(0, 0), Ordering::Equal);
    assert_eq!(cmp_i64(1, -1), Ordering::Greater);
}
