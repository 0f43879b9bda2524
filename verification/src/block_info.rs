//! What a certificate says of a block, and the commit decision it carries.

use vstd::prelude::*;
use crate::hash_value::{AccountAddress, Author, HashValue, Signature};

verus! {

pub type Round = u64;

pub type Version = u64;

/// The validator set of the next epoch, as far as the consensus core reads it: the
/// identifier under which the caller keeps the full set. The core only asks whether
/// one is pending and whether two are the same.
#[derive(Clone, Copy, Debug, PartialEq, Eq, Structural, Hash)]
pub struct ValidatorSet {
    pub id: HashValue,
}

impl ValidatorSet {
    pub fn new(id: HashValue) -> (s: ValidatorSet)
        ensures
            s == (ValidatorSet { id }),
    {
        ValidatorSet { id }
    }

    /// The set without validators.
    pub fn empty() -> (s: ValidatorSet)
        ensures
            s == (ValidatorSet { id: HashValue { hi: 0, lo: 0 } }),
    {
        ValidatorSet { id: HashValue::zero() }
    }
}

/// The identity of a block together with the summary of its execution.
#[derive(Clone, Copy, Debug, PartialEq, Eq, Structural, Hash)]
pub struct BlockInfo {
    pub epoch: u64,
    pub round: Round,
    pub id: HashValue,
    /// Root hash of the transaction accumulator after the block.
    pub executed_state_id: HashValue,
    pub version: Version,
    pub timestamp_usecs: u64,
    /// Set when committing the block ends the epoch.
    pub next_validator_set: Option<ValidatorSet>,
}

impl BlockInfo {
    pub fn new(
        epoch: u64,
        round: Round,
        id: HashValue,
        executed_state_id: HashValue,
        version: Version,
        timestamp_usecs: u64,
        next_validator_set: Option<ValidatorSet>,
    ) -> (b: BlockInfo)
        ensures
            b == (BlockInfo {
                epoch,
                round,
                id,
                executed_state_id,
                version,
                timestamp_usecs,
                next_validator_set,
            }),
    {
        BlockInfo {
            epoch,
            round,
            id,
            executed_state_id,
            version,
            timestamp_usecs,
            next_validator_set,
        }
    }

    /// The block info that stands for "nothing": round zero, empty accumulator.
    pub fn empty() -> (b: BlockInfo)
        ensures
            b == (BlockInfo {
                epoch: 0,
                round: 0,
                id: HashValue { hi: 0, lo: 0 },
                executed_state_id: HashValue::spec_accumulator_placeholder(),
                version: 0,
                timestamp_usecs: 0,
                next_validator_set: None,
            }),
    {
        BlockInfo {
            epoch: 0,
            round: 0,
            id: HashValue::zero(),
            executed_state_id: HashValue::accumulator_placeholder(),
            version: 0,
            timestamp_usecs: 0,
            next_validator_set: None,
        }
    }

    pub fn has_reconfiguration(&self) -> (r: bool)
        ensures
            r == self.next_validator_set.is_some(),
    {
        self.next_validator_set.is_some()
    }
}

/// A commit decision: the block to commit and the hash of the vote that carries it.
#[derive(Clone, Copy, Debug, PartialEq, Eq, Structural, Hash)]
pub struct LedgerInfo {
    pub commit_info: BlockInfo,
    pub consensus_data_hash: HashValue,
}

impl LedgerInfo {
    pub fn new(commit_info: BlockInfo, consensus_data_hash: HashValue) -> (li: LedgerInfo)
        ensures
            li == (LedgerInfo { commit_info, consensus_data_hash }),
    {
        LedgerInfo { commit_info, consensus_data_hash }
    }

    pub fn consensus_block_id(&self) -> (id: HashValue)
        ensures
            id == self.commit_info.id,
    {
        self.commit_info.id
    }

    pub fn round(&self) -> (r: Round)
        ensures
            r == self.commit_info.round,
    {
        self.commit_info.round
    }
}

/// One signature with the validator that gave it.
#[derive(Clone, Copy, Debug, PartialEq, Eq, Structural, Hash)]
pub struct AuthorSignature {
    pub author: Author,
    pub signature: Signature,
}

/// Whether `author` has an entry among `sigs`.
pub open spec fn has_signed(sigs: Seq<AuthorSignature>, author: AccountAddress) -> bool {
    exists|i: int| 0 <= i < sigs.len() && #[trigger] sigs[i].author == author
}

/// The authors that have an entry among `sigs`.
pub open spec fn signers(sigs: Seq<AuthorSignature>) -> Set<AccountAddress> {
    Set::new(|a: AccountAddress| has_signed(sigs, a))
}

/// No author has two entries among `sigs`.
pub open spec fn distinct_signers(sigs: Seq<AuthorSignature>) -> bool {
    forall|i: int, j: int|
        0 <= i < j < sigs.len() ==> (#[trigger] sigs[i]).author != (#[trigger] sigs[j]).author
}

/// A ledger info with the signatures collected for it, in the order in which they
/// were recorded.
#[derive(Clone, Debug, PartialEq, Eq)]
pub struct LedgerInfoWithSignatures {
    pub ledger_info: LedgerInfo,
    pub signatures: Vec<AuthorSignature>,
}

impl LedgerInfoWithSignatures {
    pub fn new(ledger_info: LedgerInfo, signatures: Vec<AuthorSignature>) -> (li:
        LedgerInfoWithSignatures)
        ensures
            li.ledger_info == ledger_info,
            li.signatures == signatures,
    {
        LedgerInfoWithSignatures { ledger_info, signatures }
    }

    pub fn ledger_info(&self) -> (li: &LedgerInfo)
        ensures
            *li == self.ledger_info,
    {
        &self.ledger_info
    }

    pub fn signatures(&self) -> (s: &Vec<AuthorSignature>)
        ensures
            *s == self.signatures,
    {
        &self.signatures
    }
}

} // verus!
