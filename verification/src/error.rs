//! The error taxonomy of the store.

use vstd::prelude::*;

verus! {

/// What can go wrong in a store operation.
///
/// `NotFound` is a soft signal: a read miss that the `get` operations turn
/// into read-through initialization or an empty result, never surfaced by
/// them. Clearing an absent entry is treated as success uniformly, for the
/// scalar and the custom variant alike, so that cleanup stays idempotent.
/// `IOError` stands for an underlying filesystem failure; the model store
/// never fails that way, so only a caller that binds the store to a real
/// filesystem produces it.
#[derive(Clone, Copy, Debug, PartialEq, Eq, Structural)]
pub enum PrefError {
    /// No user configuration root is resolvable on this host; fatal to every
    /// path-dependent operation.
    ConfigDirectoryUnavailable,
    /// An underlying create/open/read/write/remove failure.
    IOError,
    /// The target of a create-only operation is already present.
    AlreadyExists,
    /// The extension/sub-path combination produced an unparseable matching
    /// pattern.
    PatternError,
    /// A read miss on an entry that is not present.
    NotFound,
}

} // verus!
