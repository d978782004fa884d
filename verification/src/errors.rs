//! The failure kinds of the lifecycle operations. Every failure is
//! terminal to its single operation: nothing is committed and the
//! caller may safely retry.

use vstd::prelude::*;

verus! {

/// Why a lifecycle operation was refused.
#[derive(Clone, Copy, Debug, PartialEq, Eq, Structural)]
pub enum ErrorCode {
    /// An add targeted a position whose address already holds a live
    /// marker entry.
    DuplicatePosition,
    /// An update, delete, or like targeted an address holding no marker
    /// entry.
    NotFound,
    /// An update or delete came from a caller who is not the entry's
    /// author.
    Unauthorized,
    /// A tile or author index membership would exceed its fixed
    /// capacity.
    CapacityExceeded,
}

} // verus!
