use vstd::prelude::*;

verus! {

/// Error returned when trying to push to a full ring buffer.
#[derive(Debug, Clone, Copy, PartialEq, Eq)]
pub struct BufferFullError(());

impl BufferFullError {
    pub(crate) fn new() -> (r: Self) {
        Self(())
    }

    /// The error's name, as its `Display` form writes it: `BufferFullError`.
    pub fn to_string(&self) -> (r: String)
        ensures
            r@ == "BufferFullError"@,
    {
        "BufferFullError".to_owned()
    }

    /// What went wrong, in words: `ring buffer is full`.
    pub fn message(&self) -> (r: String)
        ensures
            r@ == "ring buffer is full"@,
    {
        "ring buffer is full".to_owned()
    }
}

} // verus!
