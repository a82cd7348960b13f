//! The iterator interface of the storage engine.
use vstd::prelude::*;

verus! {

#[verifier::external_type_specification]
#[verifier::external_body]
pub struct ExAnyhowError(anyhow::Error);

/// An iterator over key/value entries of storage.
pub trait StorageIterator {
    type KeyType<'a>: PartialEq + Eq + PartialOrd + Ord where Self: 'a;

    /// The value of the current entry.
    fn value(&self) -> &[u8];

    /// The key of the current entry.
    fn key(&self) -> Self::KeyType<'_>;

    /// Whether the iterator stands on an entry.
    fn is_valid(&self) -> bool;

    /// Moves to the next entry.
    fn next(&mut self) -> Result<(), anyhow::Error>;

    /// The number of underlying iterators that are active; one unless an iterator says otherwise.
    fn num_active_iterators(&self) -> (n: usize)
        default_ensures
            n == 1,
    {
        1
    }
}

} // verus!
