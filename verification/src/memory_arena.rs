//! Standard owned storage for L1 key/value bytes.
//!
//! `MemoryArena` is the shard-local allocation boundary, while each value uses
//! ordinary shared ownership.

use crate::memory::{MemoryValue, ValueModel};
use vstd::prelude::*;

verus! {

/// The allocation boundary of a shard.
pub struct MemoryArena {}

impl MemoryArena {
    /// An arena.
    pub fn new() -> (arena: MemoryArena)
        ensures
            arena == (MemoryArena {  }),
    {
        MemoryArena {  }
    }

    /// Copies a key and a value into one allocation under an existing charge of
    /// that many bytes. The charge is handed back if there is no memory for it;
    /// an empty pair needs none.
    pub fn allocate(&mut self, key: &[u8], value: &[u8], charge: usize) -> (result: Result<MemoryValue, usize>)
        ensures
            *final(self) == *old(self),
            match result {
                Ok(stored) => stored.wf() && stored@ == (ValueModel { key: key@, value: value@ }),
                Err(returned) => returned == charge && key@.len() + value@.len() > 0,
            },
    {
        match MemoryValue::try_new(key, value) {
            Some(stored) => Ok(stored),
            None => Err(charge),
        }
    }
}

} // verus!
