//! A verified entity-component core with a deterministic binary wire codec.
//!
//! The crate has four parts: a generational arena and a handle-indexed
//! versioned store (`arena`), a per-entity capability map and the entity
//! runtime (`ecs`), a byte-exact serialization scheme for values built from
//! integers, text, sequences and tagged unions (`wire`, `packet`), and
//! dense per-group identity tagging (`ident`).

pub mod arena;
pub mod ecs;
pub mod ident;
pub mod packet;
pub mod wire;

pub use crate::arena::{
    GenerationalArrayEntry, GenerationalIndex, GenerationalIndexAllocator, GenerationalIndexArray,
};
pub use crate::ecs::{ComponentMap, Ecs, Entity, EntityMap, System};
pub use crate::ident::{CompId, Id, IdRegistry, UniqCompId, UniqId};
pub use crate::packet::Packet;
pub use crate::wire::{DecodeError, Deserialize, Serialize, Wire, WireLaws};
