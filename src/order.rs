use vstd::prelude::*;
use vstd::string::StrSliceExecFns;
use std::cmp::Ordering;

verus! {

/// The model of a value as it is laid out for ordering: a variant rank, an
/// integer payload, a UUID payload and a string payload.
pub type ValueKey = (u8, i64, u128, Seq<char>);

/// The model of an index key: two leading 64-bit fields (entity and
/// attribute, in the index's order), the value and the transaction. A datom's
/// identity is its key; the assertion flag is not part of it.
pub type KeyView = (i64, i64, ValueKey, i64);

/// Lexicographic order on strings by character code point (which is the
/// byte order of their UTF-8 encodings).
pub open spec fn str_lt(a: Seq<char>, b: Seq<char>) -> bool
    decreases a.len(),
{
    if a.len() == 0 {
        b.len() > 0
    } else if b.len() == 0 {
        false
    } else if a[0] != b[0] {
        (a[0] as u32) < (b[0] as u32)
    } else {
        str_lt(a.drop_first(), b.drop_first())
    }
}

pub open spec fn value_key_lt(x: ValueKey, y: ValueKey) -> bool {
    if x.0 != y.0 {
        x.0 < y.0
    } else if x.1 != y.1 {
        x.1 < y.1
    } else if x.2 != y.2 {
        x.2 < y.2
    } else {
        str_lt(x.3, y.3)
    }
}

/// Lexicographic order on index keys, field by field.
pub open spec fn key_lt(x: KeyView, y: KeyView) -> bool {
    if x.0 != y.0 {
        x.0 < y.0
    } else if x.1 != y.1 {
        x.1 < y.1
    } else if x.2 != y.2 {
        value_key_lt(x.2, y.2)
    } else {
        x.3 < y.3
    }
}

pub open spec fn key_le(x: KeyView, y: KeyView) -> bool {
    x == y || key_lt(x, y)
}

proof fn lemma_str_lt_irreflexive(a: Seq<char>)
    ensures
        !str_lt(a, a),
    decreases a.len(),
{
    if a.len() > 0 {
        lemma_str_lt_irreflexive(a.drop_first());
    }
}

proof fn lemma_str_lt_total(a: Seq<char>, b: Seq<char>)
    requires
        a != b,
    ensures
        str_lt(a, b) || str_lt(b, a),
    decreases a.len(),
{
    if a.len() == 0 && b.len() == 0 {
        assert(a =~= b);
    }
    if a.len() > 0 && b.len() > 0 {
        vstd::utf8::char_u32_cast(a[0], a[0] as u32);
        vstd::utf8::char_u32_cast(b[0], b[0] as u32);
    }
    if a.len() > 0 && b.len() > 0 && a[0] == b[0] {
        if a.drop_first() == b.drop_first() {
            assert(a =~= seq![a[0]] + a.drop_first());
            assert(b =~= seq![b[0]] + b.drop_first());
        }
        lemma_str_lt_total(a.drop_first(), b.drop_first());
    }
}

proof fn lemma_str_lt_transitive(a: Seq<char>, b: Seq<char>, c: Seq<char>)
    requires
        str_lt(a, b),
        str_lt(b, c),
    ensures
        str_lt(a, c),
    decreases a.len(),
{
    if a.len() > 0 && b.len() > 0 && c.len() > 0 && a[0] == b[0] && b[0] == c[0] {
        lemma_str_lt_transitive(a.drop_first(), b.drop_first(), c.drop_first());
    }
}

proof fn lemma_str_lt_asymmetric(a: Seq<char>, b: Seq<char>)
    requires
        str_lt(a, b),
    ensures
        !str_lt(b, a),
{
    if str_lt(b, a) {
        lemma_str_lt_transitive(a, b, a);
        lemma_str_lt_irreflexive(a);
    }
}

pub(crate) proof fn lemma_value_key_lt_facts(x: ValueKey, y: ValueKey, z: ValueKey)
    ensures
        !value_key_lt(x, x),
        x != y ==> (value_key_lt(x, y) || value_key_lt(y, x)),
        value_key_lt(x, y) ==> !value_key_lt(y, x),
        value_key_lt(x, y) && value_key_lt(y, z) ==> value_key_lt(x, z),
{
    lemma_str_lt_irreflexive(x.3);
    if x != y && x.0 == y.0 && x.1 == y.1 && x.2 == y.2 {
        lemma_str_lt_total(x.3, y.3);
    }
    if value_key_lt(x, y) && x.0 == y.0 && x.1 == y.1 && x.2 == y.2 {
        lemma_str_lt_asymmetric(x.3, y.3);
    }
    if value_key_lt(x, y) && value_key_lt(y, z) && x.0 == y.0 && y.0 == z.0 && x.1 == y.1
        && y.1 == z.1 && x.2 == y.2 && y.2 == z.2 {
        lemma_str_lt_transitive(x.3, y.3, z.3);
    }
}

/// The key order is a strict total order: irreflexive, total on distinct
/// keys, asymmetric and transitive.
pub proof fn lemma_key_lt_strict_total(x: KeyView, y: KeyView, z: KeyView)
    ensures
        !key_lt(x, x),
        x != y ==> (key_lt(x, y) || key_lt(y, x)),
        key_lt(x, y) ==> !key_lt(y, x),
        key_lt(x, y) && key_lt(y, z) ==> key_lt(x, z),
{
    lemma_value_key_lt_facts(x.2, y.2, z.2);
    lemma_value_key_lt_facts(y.2, x.2, z.2);
    lemma_value_key_lt_facts(x.2, z.2, y.2);
}

/// `r` tells how `lt` and `eq` decide the pair: `Less` when the first is
/// below, `Equal` when they are equal, `Greater` otherwise.
pub open spec fn ordering_is(r: Ordering, lt: bool, eq: bool, gt: bool) -> bool {
    &&& (r == Ordering::Less) == lt
    &&& (r == Ordering::Equal) == eq
    &&& (r == Ordering::Greater) == gt
}

/// Where `a` and `b` agree before position `i`, what follows decides their
/// order.
proof fn lemma_str_lt_from(a: Seq<char>, b: Seq<char>, i: int)
    requires
        0 <= i <= a.len(),
        i <= b.len(),
        a.subrange(0, i) == b.subrange(0, i),
    ensures
        str_lt(a, b) == str_lt(a.subrange(i, a.len() as int), b.subrange(i, b.len() as int)),
    decreases i,
{
    if i == 0 {
        assert(a.subrange(0, a.len() as int) =~= a);
        assert(b.subrange(0, b.len() as int) =~= b);
    } else {
        assert(a[0] == a.subrange(0, i)[0]);
        assert(b[0] == b.subrange(0, i)[0]);
        assert(a.drop_first().subrange(0, i - 1) =~= a.subrange(0, i).drop_first());
        assert(b.drop_first().subrange(0, i - 1) =~= b.subrange(0, i).drop_first());
        lemma_str_lt_from(a.drop_first(), b.drop_first(), i - 1);
        assert(a.drop_first().subrange(i - 1, a.len() - 1) =~= a.subrange(i, a.len() as int));
        assert(b.drop_first().subrange(i - 1, b.len() - 1) =~= b.subrange(i, b.len() as int));
    }
}

/// Compares two strings character by character.
pub fn cmp_str(a: &str, b: &str) -> (r: Ordering)
    ensures
        ordering_is(r, str_lt(a@, b@), a@ == b@, str_lt(b@, a@)),
{
    let n = a.unicode_len();
    let m = b.unicode_len();
    proof {
        lemma_str_lt_irreflexive(a@);
        if a@ != b@ {
            lemma_str_lt_total(a@, b@);
            lemma_str_lt_asymmetric_both(a@, b@);
        }
    }
    let mut i: usize = 0;
    while i < n && i < m
        invariant
            n == a@.len(),
            m == b@.len(),
            i <= n,
            i <= m,
            a@.subrange(0, i as int) == b@.subrange(0, i as int),
        decreases n - i,
    {
        let ca = a.get_char(i);
        let cb = b.get_char(i);
        if ca != cb {
            proof {
                lemma_str_lt_from(a@, b@, i as int);
                lemma_str_lt_from(b@, a@, i as int);
                let ta = a@.subrange(i as int, n as int);
                let tb = b@.subrange(i as int, m as int);
                assert(ta[0] == ca);
                assert(tb[0] == cb);
                vstd::utf8::char_u32_cast(ca, ca as u32);
                vstd::utf8::char_u32_cast(cb, cb as u32);
            }
            if (ca as u32) < (cb as u32) {
                return Ordering::Less;
            } else {
                return Ordering::Greater;
            }
        }
        proof {
            assert(a@.subrange(0, i + 1) =~= a@.subrange(0, i as int).push(ca));
            assert(b@.subrange(0, i + 1) =~= b@.subrange(0, i as int).push(cb));
        }
        i = i + 1;
    }
    proof {
        lemma_str_lt_from(a@, b@, i as int);
        lemma_str_lt_from(b@, a@, i as int);
        if n == m {
            assert(a@ =~= a@.subrange(0, i as int));
            assert(b@ =~= b@.subrange(0, i as int));
        }
    }
    if n < m {
        Ordering::Less
    } else if n > m {
        Ordering::Greater
    } else {
        Ordering::Equal
    }
}

proof fn lemma_str_lt_asymmetric_both(a: Seq<char>, b: Seq<char>)
    ensures
        !(str_lt(a, b) && str_lt(b, a)),
{
    if str_lt(a, b) {
        lemma_str_lt_asymmetric(a, b);
    }
}

} // verus!
