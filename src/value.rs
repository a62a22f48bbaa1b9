use vstd::prelude::*;
use crate::order::{ValueKey, cmp_str, lemma_value_key_lt_facts, ordering_is, value_key_lt};
use std::cmp::Ordering;

verus! {

pub type EntityId = i64;

pub type AttributeId = i64;

pub type TransactionId = i64;

/// A keyword such as `:db/ident`.
#[derive(Clone, Debug)]
pub struct Key(pub String);

/// Types with a least element, used to open a range scan.
pub trait Minimum: Sized {
    spec fn spec_minimum() -> Self;

    fn minimum() -> (r: Self)
        ensures
            r == Self::spec_minimum(),
    ;
}

/// Types with a greatest element, used to close a range scan.
pub trait Maximum: Sized {
    spec fn spec_maximum() -> Self;

    fn maximum() -> (r: Self)
        ensures
            r == Self::spec_maximum(),
    ;
}

impl Minimum for i64 {
    open spec fn spec_minimum() -> i64 {
        i64::MIN
    }

    fn minimum() -> (r: i64) {
        i64::MIN
    }
}

impl Maximum for i64 {
    open spec fn spec_maximum() -> i64 {
        i64::MAX
    }

    fn maximum() -> (r: i64) {
        i64::MAX
    }
}

/// Compares two integers.
pub fn cmp_i64(x: i64, y: i64) -> (r: Ordering)
    ensures
        ordering_is(r, x < y, x == y, x > y),
{
    if x < y {
        Ordering::Less
    } else if x == y {
        Ordering::Equal
    } else {
        Ordering::Greater
    }
}

/// What the value slot of a datom holds. `MinimumValue` and `MaximumValue`
/// are bracketing sentinels for range scans and are never stored. A UUID is
/// held as the 128-bit integer of its big-endian bytes, whose order is the
/// order of those bytes.
#[derive(Debug, PartialEq, Eq)]
pub enum V {
    MinimumValue,
    String(String),
    EntityId(EntityId),
    Uuid(u128),
    I64(i64),
    Key,
    MaximumValue,
}

/// The layout of the least value.
pub open spec fn min_value_key() -> ValueKey {
    (0u8, 0i64, 0u128, Seq::<char>::empty())
}

/// The layout of the greatest value.
pub open spec fn max_value_key() -> ValueKey {
    (6u8, 0i64, 0u128, Seq::<char>::empty())
}

/// The layouts that some value has: the rank picks the variant and the
/// payloads that the variant does not use are zero or empty.
pub open spec fn value_key_canonical(k: ValueKey) -> bool {
    &&& k.0 <= 6
    &&& (k.0 != 2 && k.0 != 4) ==> k.1 == 0
    &&& k.0 != 3 ==> k.2 == 0
    &&& k.0 != 1 ==> k.3.len() == 0
}

/// A value laid out for ordering: variants rank in declaration order, and
/// within a variant the payload orders naturally.
impl View for V {
    type V = ValueKey;

    open spec fn view(&self) -> ValueKey {
        match self {
            V::MinimumValue => min_value_key(),
            V::String(s) => (1u8, 0i64, 0u128, s@),
            V::EntityId(e) => (2u8, *e, 0u128, Seq::<char>::empty()),
            V::Uuid(u) => (3u8, 0i64, *u, Seq::<char>::empty()),
            V::I64(n) => (4u8, *n, 0u128, Seq::<char>::empty()),
            V::Key => (5u8, 0i64, 0u128, Seq::<char>::empty()),
            V::MaximumValue => max_value_key(),
        }
    }
}

impl V {
    pub open spec fn is_sentinel(&self) -> bool {
        self is MinimumValue || self is MaximumValue
    }

    /// Whether this value may be stored in a datom.
    pub fn is_real(&self) -> (r: bool)
        ensures
            r == !self.is_sentinel(),
    {
        !matches!(self, V::MinimumValue | V::MaximumValue)
    }

    fn rank(&self) -> (r: u8)
        ensures
            r == self@.0,
    {
        match self {
            V::MinimumValue => 0,
            V::String(_) => 1,
            V::EntityId(_) => 2,
            V::Uuid(_) => 3,
            V::I64(_) => 4,
            V::Key => 5,
            V::MaximumValue => 6,
        }
    }

    /// Compares two values: variants rank in declaration order, and within
    /// a variant the payloads compare naturally.
    pub fn cmp_value(&self, other: &V) -> (r: Ordering)
        ensures
            ordering_is(r, value_key_lt(self@, other@), self@ == other@, value_key_lt(other@, self@)),
    {
        proof {
            lemma_value_key_lt_facts(self@, other@, self@);
        }
        let (x, y) = (self.rank(), other.rank());
        if x != y {
            return if x < y {
                Ordering::Less
            } else {
                Ordering::Greater
            };
        }
        match (self, other) {
            (V::String(p), V::String(q)) => cmp_str(p.as_str(), q.as_str()),
            (V::EntityId(p), V::EntityId(q)) => cmp_i64(*p, *q),
            (V::I64(p), V::I64(q)) => cmp_i64(*p, *q),
            (V::Uuid(p), V::Uuid(q)) => {
                if *p < *q {
                    Ordering::Less
                } else if *p == *q {
                    Ordering::Equal
                } else {
                    Ordering::Greater
                }
            },
            _ => {
                proof {
                    assert(self@.3 =~= other@.3);
                }
                Ordering::Equal
            },
        }
    }

    pub(crate) fn to_key(&self) -> (r: (u8, i64, u128, String))
        ensures
            (r.0, r.1, r.2, r.3@) == self@,
    {
        match self {
            V::MinimumValue => (0, 0, 0, String::new()),
            V::String(s) => (1, 0, 0, s.clone()),
            V::EntityId(e) => (2, *e, 0, String::new()),
            V::Uuid(u) => (3, 0, *u, String::new()),
            V::I64(n) => (4, *n, 0, String::new()),
            V::Key => (5, 0, 0, String::new()),
            V::MaximumValue => (6, 0, 0, String::new()),
        }
    }

    pub(crate) fn from_key(k: &(u8, i64, u128, String)) -> (r: V)
        requires
            value_key_canonical((k.0, k.1, k.2, k.3@)),
        ensures
            r@ == (k.0, k.1, k.2, k.3@),
    {
        match k.0 {
            0 => V::MinimumValue,
            1 => V::String(k.3.clone()),
            2 => V::EntityId(k.1),
            3 => V::Uuid(k.2),
            4 => V::I64(k.1),
            5 => V::Key,
            _ => V::MaximumValue,
        }
    }
}

impl Clone for V {
    fn clone(&self) -> (r: V)
        ensures
            r@ == self@,
    {
        match self {
            V::MinimumValue => V::MinimumValue,
            V::String(s) => V::String(s.clone()),
            V::EntityId(e) => V::EntityId(*e),
            V::Uuid(u) => V::Uuid(*u),
            V::I64(n) => V::I64(*n),
            V::Key => V::Key,
            V::MaximumValue => V::MaximumValue,
        }
    }
}

impl Minimum for V {
    open spec fn spec_minimum() -> V {
        V::MinimumValue
    }

    fn minimum() -> (r: V) {
        V::MinimumValue
    }
}

impl Maximum for V {
    open spec fn spec_maximum() -> V {
        V::MaximumValue
    }

    fn maximum() -> (r: V) {
        V::MaximumValue
    }
}

} // verus!
