use vstd::prelude::*;
use crate::order::{KeyView, key_le, key_lt};

verus! {

/// Fan-out of the persistent tree's nodes.
pub const SIZE: usize = 512;

/// An index key as stored: two leading fields, the value laid out as
/// (rank, integer, UUID, string), and the transaction.
pub type Key = (i64, i64, (u8, i64, u128, String), i64);

pub open spec fn key_view(k: Key) -> KeyView {
    (k.0, k.1, (k.2.0, k.2.1, k.2.2, k.2.3@), k.3)
}

/// The view of a listed binding: its key and its assertion flag.
pub open spec fn binding_view(p: (Key, bool)) -> (KeyView, bool) {
    (key_view(p.0), p.1)
}

/// The views of listed bindings, in their order.
pub open spec fn listed_bindings(r: Seq<(Key, bool)>) -> Seq<(KeyView, bool)> {
    r.map_values(|p: (Key, bool)| binding_view(p))
}

/// A persistent ordered map from keys to assertion flags:
/// immutable_chunkmap's `Map`, whose nodes are shared between versions and
/// never changed in place.
#[verifier::external_body]
pub struct ChunkMap {
    map: immutable_chunkmap::map::Map<Key, bool, SIZE>,
}

/// The bindings held by a persistent map.
pub uninterp spec fn chunk_bindings(m: ChunkMap) -> Map<KeyView, bool>;

/// Relies on immutable_chunkmap's `Map::new`: an empty map.
#[verifier::external_body]
pub(crate) fn chunk_new() -> (r: ChunkMap)
    ensures
        chunk_bindings(r).dom() == Set::<KeyView>::empty(),
{
    ChunkMap { map: immutable_chunkmap::map::Map::new() }
}

/// Relies on immutable_chunkmap's `Map::get`: the flag bound to `k`, if any.
#[verifier::external_body]
pub(crate) fn chunk_get(m: &ChunkMap, k: &Key) -> (r: Option<bool>)
    ensures
        r == (if chunk_bindings(*m).contains_key(key_view(*k)) {
            Some(chunk_bindings(*m)[key_view(*k)])
        } else {
            None
        }),
{
    m.map.get(k).copied()
}

/// Relies on immutable_chunkmap's `Map::insert`: the returned map holds the
/// old bindings with `k` bound to `b`; the receiver is left as it was.
#[verifier::external_body]
pub(crate) fn chunk_insert(m: &ChunkMap, k: Key, b: bool) -> (r: ChunkMap)
    ensures
        chunk_bindings(r) == chunk_bindings(*m).insert(key_view(k), b),
{
    ChunkMap { map: m.map.insert(k, b).0 }
}

/// Relies on immutable_chunkmap's `Map::clone`: the copy shares the tree and
/// holds the same bindings.
#[verifier::external_body]
pub(crate) fn chunk_clone(m: &ChunkMap) -> (r: ChunkMap)
    ensures
        chunk_bindings(r) == chunk_bindings(*m),
{
    ChunkMap { map: m.map.clone() }
}

/// Relies on immutable_chunkmap's `Map::range` with two inclusive bounds: the
/// bindings whose key `k` has `lo <= k <= hi`, visited in ascending key
/// order. std orders tuples lexicographically, integers naturally, and
/// `String` by its bytes.
#[verifier::external_body]
pub(crate) fn chunk_range(m: &ChunkMap, lo: Key, hi: Key) -> (r: Vec<(Key, bool)>)
    ensures
        forall|i: int, j: int|
            0 <= i < j < r@.len() ==> key_lt(
                #[trigger] key_view(r@[i].0),
                #[trigger] key_view(r@[j].0),
            ),
        forall|kb: (KeyView, bool)|
            listed_bindings(r@).contains(kb) <==> (chunk_bindings(
                *m,
            ).contains_key(kb.0) && chunk_bindings(*m)[kb.0] == kb.1 && key_le(key_view(lo), kb.0)
                && key_le(kb.0, key_view(hi))),
{
    m.map.range((std::ops::Bound::Included(lo), std::ops::Bound::Included(hi))).map(
        |(k, b)| (k.clone(), *b),
    ).collect()
}

} // verus!
