//! Blocks, the certificates that link them, and blocks with their execution outcome.

use vstd::prelude::*;
use std::sync::Arc;
use crate::block_info::{AuthorSignature, BlockInfo, LedgerInfoWithSignatures, Round};
use crate::executor::{ExecutedTrees, ProcessedVMOutput};
use crate::hash_value::{Author, HashValue};

verus! {

/// What a vote is about: the proposed block and its parent.
#[derive(Clone, Copy, Debug, PartialEq, Eq, Structural, Hash)]
pub struct VoteData {
    pub proposed: BlockInfo,
    pub parent: BlockInfo,
}

impl VoteData {
    pub fn new(proposed: BlockInfo, parent: BlockInfo) -> (v: VoteData)
        ensures
            v == (VoteData { proposed, parent }),
    {
        VoteData { proposed, parent }
    }
}

/// Proof that a quorum voted for a block and its execution result. The signed ledger
/// info may carry a commit decision for an ancestor.
#[derive(Clone, Debug, PartialEq, Eq)]
pub struct QuorumCert {
    pub vote_data: VoteData,
    pub signed_ledger_info: LedgerInfoWithSignatures,
}

impl QuorumCert {
    pub fn new(vote_data: VoteData, signed_ledger_info: LedgerInfoWithSignatures) -> (qc:
        QuorumCert)
        ensures
            qc.vote_data == vote_data,
            qc.signed_ledger_info == signed_ledger_info,
    {
        QuorumCert { vote_data, signed_ledger_info }
    }

    pub open spec fn spec_certified_block(&self) -> BlockInfo {
        self.vote_data.proposed
    }

    /// The block that the certificate certifies.
    #[verifier::when_used_as_spec(spec_certified_block)]
    pub fn certified_block(&self) -> (b: BlockInfo)
        ensures
            b == self.vote_data.proposed,
    {
        self.vote_data.proposed
    }

    pub open spec fn spec_parent_block(&self) -> BlockInfo {
        self.vote_data.parent
    }

    #[verifier::when_used_as_spec(spec_parent_block)]
    pub fn parent_block(&self) -> (b: BlockInfo)
        ensures
            b == self.vote_data.parent,
    {
        self.vote_data.parent
    }

    pub open spec fn spec_commit_info(&self) -> BlockInfo {
        self.signed_ledger_info.ledger_info.commit_info
    }

    /// The block that the embedded ledger info commits.
    #[verifier::when_used_as_spec(spec_commit_info)]
    pub fn commit_info(&self) -> (b: BlockInfo)
        ensures
            b == self.signed_ledger_info.ledger_info.commit_info,
    {
        self.signed_ledger_info.ledger_info.commit_info
    }

    pub fn ledger_info(&self) -> (li: &LedgerInfoWithSignatures)
        ensures
            *li == self.signed_ledger_info,
    {
        &self.signed_ledger_info
    }
}

/// A round that timed out.
#[derive(Clone, Copy, Debug, PartialEq, Eq, Structural, Hash)]
pub struct Timeout {
    pub epoch: u64,
    pub round: Round,
}

/// Proof that a quorum timed out at a round.
#[derive(Clone, Debug, PartialEq, Eq)]
pub struct TimeoutCertificate {
    pub timeout: Timeout,
    pub signatures: Vec<AuthorSignature>,
}

impl TimeoutCertificate {
    pub fn new(timeout: Timeout, signatures: Vec<AuthorSignature>) -> (tc: TimeoutCertificate)
        ensures
            tc.timeout == timeout,
            tc.signatures == signatures,
    {
        TimeoutCertificate { timeout, signatures }
    }

    pub open spec fn spec_round(&self) -> Round {
        self.timeout.round
    }

    #[verifier::when_used_as_spec(spec_round)]
    pub fn round(&self) -> (r: Round)
        ensures
            r == self.timeout.round,
    {
        self.timeout.round
    }

    pub fn epoch(&self) -> (e: u64)
        ensures
            e == self.timeout.epoch,
    {
        self.timeout.epoch
    }
}

/// What kind of block it is, with the payload of a proposal in its serialized form.
#[derive(Clone, Debug)]
pub enum BlockType {
    Proposal { payload: Vec<u8>, author: Author },
    NilBlock,
    Genesis,
}

/// A proposal: identity, position in the chain, and the certificate for its parent.
#[derive(Clone, Debug)]
pub struct Block {
    pub id: HashValue,
    pub epoch: u64,
    pub round: Round,
    pub timestamp_usecs: u64,
    pub parent_id: HashValue,
    /// The certificate for the parent, shared with whoever else holds it.
    pub quorum_cert: Arc<QuorumCert>,
    pub block_type: BlockType,
}

impl Block {
    pub open spec fn spec_is_genesis_block(&self) -> bool {
        self.block_type is Genesis
    }

    #[verifier::when_used_as_spec(spec_is_genesis_block)]
    pub fn is_genesis_block(&self) -> (r: bool)
        ensures
            r == (self.block_type is Genesis),
    {
        match &self.block_type {
            BlockType::Genesis => true,
            _ => false,
        }
    }

    pub open spec fn spec_is_nil_block(&self) -> bool {
        self.block_type is NilBlock
    }

    #[verifier::when_used_as_spec(spec_is_nil_block)]
    pub fn is_nil_block(&self) -> (r: bool)
        ensures
            r == (self.block_type is NilBlock),
    {
        match &self.block_type {
            BlockType::NilBlock => true,
            _ => false,
        }
    }

    /// The payload carries nothing: the block is no proposal, or its payload has no
    /// bytes.
    pub open spec fn spec_has_empty_payload(&self) -> bool {
        match self.block_type {
            BlockType::Proposal { payload, author } => payload@.len() == 0,
            _ => true,
        }
    }

    #[verifier::when_used_as_spec(spec_has_empty_payload)]
    pub fn has_empty_payload(&self) -> (r: bool)
        ensures
            r == self.spec_has_empty_payload(),
    {
        match &self.block_type {
            BlockType::Proposal { payload, author } => payload.len() == 0,
            _ => true,
        }
    }

    /// The block info of this block for the given execution summary.
    pub open spec fn spec_gen_block_info(
        &self,
        executed_state_id: HashValue,
        version: u64,
        next_validator_set: Option<crate::block_info::ValidatorSet>,
    ) -> BlockInfo {
        BlockInfo {
            epoch: self.epoch,
            round: self.round,
            id: self.id,
            executed_state_id,
            version,
            timestamp_usecs: self.timestamp_usecs,
            next_validator_set,
        }
    }

    #[verifier::when_used_as_spec(spec_gen_block_info)]
    pub fn gen_block_info(
        &self,
        executed_state_id: HashValue,
        version: u64,
        next_validator_set: Option<crate::block_info::ValidatorSet>,
    ) -> (b: BlockInfo)
        ensures
            b == self.spec_gen_block_info(executed_state_id, version, next_validator_set),
    {
        BlockInfo {
            epoch: self.epoch,
            round: self.round,
            id: self.id,
            executed_state_id,
            version,
            timestamp_usecs: self.timestamp_usecs,
            next_validator_set,
        }
    }
}

/// A block with the outcome of its execution.
#[derive(Clone, Debug)]
pub struct ExecutedBlock {
    pub block: Block,
    pub output: ProcessedVMOutput,
}

impl ExecutedBlock {
    pub fn new(block: Block, output: ProcessedVMOutput) -> (b: ExecutedBlock)
        ensures
            b.block == block,
            b.output == output,
    {
        ExecutedBlock { block, output }
    }

    pub fn block(&self) -> (b: &Block)
        ensures
            *b == self.block,
    {
        &self.block
    }

    pub fn output(&self) -> (o: &ProcessedVMOutput)
        ensures
            *o == self.output,
    {
        &self.output
    }

    pub open spec fn spec_id(&self) -> HashValue {
        self.block.id
    }

    #[verifier::when_used_as_spec(spec_id)]
    pub fn id(&self) -> (h: HashValue)
        ensures
            h == self.block.id,
    {
        self.block.id
    }

    pub open spec fn spec_parent_id(&self) -> HashValue {
        self.block.parent_id
    }

    #[verifier::when_used_as_spec(spec_parent_id)]
    pub fn parent_id(&self) -> (h: HashValue)
        ensures
            h == self.block.parent_id,
    {
        self.block.parent_id
    }

    pub open spec fn spec_round(&self) -> Round {
        self.block.round
    }

    #[verifier::when_used_as_spec(spec_round)]
    pub fn round(&self) -> (r: Round)
        ensures
            r == self.block.round,
    {
        self.block.round
    }

    pub open spec fn spec_epoch(&self) -> u64 {
        self.block.epoch
    }

    #[verifier::when_used_as_spec(spec_epoch)]
    pub fn epoch(&self) -> (e: u64)
        ensures
            e == self.block.epoch,
    {
        self.block.epoch
    }

    pub open spec fn spec_timestamp_usecs(&self) -> u64 {
        self.block.timestamp_usecs
    }

    #[verifier::when_used_as_spec(spec_timestamp_usecs)]
    pub fn timestamp_usecs(&self) -> (t: u64)
        ensures
            t == self.block.timestamp_usecs,
    {
        self.block.timestamp_usecs
    }

    pub fn quorum_cert(&self) -> (qc: &Arc<QuorumCert>)
        ensures
            *qc == self.block.quorum_cert,
    {
        &self.block.quorum_cert
    }

    pub open spec fn spec_executed_trees(&self) -> ExecutedTrees {
        self.output.spec_executed_trees()
    }

    #[verifier::when_used_as_spec(spec_executed_trees)]
    pub fn executed_trees(&self) -> (t: ExecutedTrees)
        ensures
            t == self.output.spec_executed_trees(),
    {
        self.output.executed_trees()
    }

    pub open spec fn spec_has_reconfiguration(&self) -> bool {
        self.output.spec_validators().is_some()
    }

    /// Whether committing the block changes the validator set.
    #[verifier::when_used_as_spec(spec_has_reconfiguration)]
    pub fn has_reconfiguration(&self) -> (r: bool)
        ensures
            r == self.output.spec_validators().is_some(),
    {
        self.output.validators().is_some()
    }

    /// The block info that a certificate for this block must carry: the block's
    /// identity with the state that its execution left behind.
    pub open spec fn spec_block_info(&self) -> BlockInfo {
        BlockInfo {
            epoch: self.block.epoch,
            round: self.block.round,
            id: self.block.id,
            executed_state_id: self.output.spec_executed_trees().accumulator_root,
            version: self.output.spec_reported_version(),
            timestamp_usecs: self.block.timestamp_usecs,
            next_validator_set: self.output.spec_validators(),
        }
    }

    #[verifier::when_used_as_spec(spec_block_info)]
    pub fn block_info(&self) -> (b: BlockInfo)
        ensures
            b == self.spec_block_info(),
    {
        let state = self.output.executed_state();
        self.block.gen_block_info(state.state_id, state.version, state.validators)
    }
}

} // verus!
