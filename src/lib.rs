//! The storage core of an append-only fact database: datoms held in
//! persistent indexes of two sort orders, wrapped in snapshots that answer
//! range selections by partial keys.
use vstd::prelude::*;

pub mod order;
mod chunk;
pub mod value;
pub mod datom;
pub mod indexes;
pub mod database_snapshot;
pub mod pull;

pub use database_snapshot::DatabaseSnapshot;
pub use datom::Datom;
pub use indexes::{AEVTIndex, EAVTIndex};
pub use value::{AttributeId, EntityId, Key, Maximum, Minimum, TransactionId, V};

verus! {

} // verus!
