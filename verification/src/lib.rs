//! Memory-management primitives for an environment that has no general-purpose
//! heap or standard hash table online yet: a dual-region bump allocator that
//! serves byte and page allocations from a single fixed address range, and an
//! open-addressing hash table with a randomized keyed hash.

pub mod arith;
pub mod early_allocator;
pub mod hash_map;
