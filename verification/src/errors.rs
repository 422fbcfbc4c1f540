//! Error taxonomy.
//!
//! Build-time errors abort compilation of the subscription; they are
//! never recoverable.  Runtime errors are recoverable per connection:
//! none of them may terminate the processing pipeline.

use vstd::prelude::*;

use crate::level::Level;
use crate::parse::ParseError;

verus! {

/// A build-time specification error: compilation aborts.
#[derive(Debug, PartialEq, Eq)]
pub enum BuildError {
    /// A predicate references a name that no declaration provides, or
    /// a group function names an owner that was never declared.
    UnresolvedAtom(Vec<u8>),
    /// A predicate is scheduled at a level earlier than the level at
    /// which one of its dependencies becomes available.
    LevelMismatch {
        /// The name whose availability is violated.
        name: Vec<u8>,
        /// The level at which the name becomes available.
        available: Level,
        /// The earlier level at which it was scheduled.
        scheduled: Level,
    },
    /// A filter expression string does not follow the grammar.
    GrammarError(ParseError),
}

/// A recoverable runtime error: recorded, never fatal to the pipeline.
#[derive(Clone, Copy, Debug, PartialEq, Eq, Structural)]
pub enum RuntimeError {
    /// A payload read reached beyond the packet's bounds; the packet
    /// is skipped and the connection continues.
    MalformedPacket,
    /// The per-core connection table is full; the new flow is denied
    /// admission (or an old connection is evicted), never a crash.
    CapacityExceeded,
    /// A datatype requires a protocol parser that is not enabled; the
    /// connection is excluded from that datatype's tracking only.
    ProtocolUnsupported,
}

} // verus!
