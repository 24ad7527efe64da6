use vstd::prelude::*;

verus! {

/// The error kinds the library reports.
#[derive(Debug)]
pub enum Error {
    /// A filesystem operation failed; the message says which one.
    Io(String),
    /// The snapshot file does not exist, so there is nothing to read.
    NotFound,
    /// The caller supplied an empty root list.
    InvalidInput,
}

} // verus!
