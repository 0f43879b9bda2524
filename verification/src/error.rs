//! What the block store reports when it turns an input down.

use vstd::prelude::*;
use crate::hash_value::HashValue;

verus! {

/// Why a block failed validation against its parent.
#[derive(Clone, Copy, Debug, PartialEq, Eq, Structural)]
pub enum InvalidBlockKind {
    /// The round is not above that of the root.
    OldRound,
    /// The parent is not in the tree.
    MissingParent,
    /// The round is not above that of the parent.
    InvalidRound,
    /// The timestamp is not above that of the parent.
    NonIncreasingTimestamp,
}

/// An inconsistency after which the validator cannot go on.
#[derive(Clone, Copy, Debug, PartialEq, Eq, Structural)]
pub enum FatalKind {
    /// The root certificate and the committed state differ in version.
    RootVersionMismatch,
    /// The root certificate and the committed state differ in state id.
    RootStateMismatch,
    /// A genesis block among the blocks to insert below the root.
    UnexpectedGenesis,
    /// A block whose parent is neither the root nor an earlier block.
    MissingParent,
    /// A block that does not come after its parent in round and in timestamp.
    InvalidBlock,
    /// A block whose recomputed state differs from the one its certificate names.
    ExecutionDivergence,
    /// A certificate that does not fit the block it certifies.
    InvalidQuorumCert,
    /// A block below a pending reconfiguration that carries a payload.
    ReconfigurationSuffixPayload,
}

/// Why the block store turned an input down.
#[derive(Clone, Copy, Debug, PartialEq, Eq, Structural)]
pub enum Error {
    /// The block fails a test against its parent.
    InvalidBlock(InvalidBlockKind),
    /// The operation needs a block that has not been inserted yet.
    MissingBlock(HashValue),
    /// No block with this id is in the tree.
    BlockNotFound(HashValue),
    /// A certificate disagrees with the local block.
    InconsistentBlockInfo,
    /// The locally computed state differs from the one a certificate asserts.
    ExecutionDivergence,
    /// The state computer failed.
    ExecutionError,
    /// A commit for a block whose round is not above the root's.
    StaleCommit,
    /// An inconsistency that must stop the validator.
    Fatal(FatalKind),
}

} // verus!
