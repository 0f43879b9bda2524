//! The value types in which an execution reports its outcome.

use vstd::prelude::*;
use crate::block_info::{ValidatorSet, Version};
use crate::hash_value::HashValue;

verus! {

/// The ledger state after an execution, as the consensus core reads it: the two root
/// hashes and the number of transactions in the accumulator. The trees themselves
/// stay with the executor.
#[derive(Clone, Copy, Debug, PartialEq, Eq, Structural)]
pub struct ExecutedTrees {
    /// Root hash of the sparse Merkle state tree.
    pub state_root: HashValue,
    /// Root hash of the transaction accumulator.
    pub accumulator_root: HashValue,
    /// Number of leaves of the transaction accumulator.
    pub num_leaves: u64,
}

impl ExecutedTrees {
    pub fn new(state_root: HashValue, accumulator_root: HashValue, num_leaves: u64) -> (t:
        ExecutedTrees)
        ensures
            t == (ExecutedTrees { state_root, accumulator_root, num_leaves }),
    {
        ExecutedTrees { state_root, accumulator_root, num_leaves }
    }

    /// The trees of a ledger without transactions.
    pub fn new_empty() -> (t: ExecutedTrees)
        ensures
            t == (ExecutedTrees {
                state_root: HashValue::spec_sparse_merkle_placeholder(),
                accumulator_root: HashValue::spec_accumulator_placeholder(),
                num_leaves: 0,
            }),
    {
        ExecutedTrees {
            state_root: HashValue::sparse_merkle_placeholder(),
            accumulator_root: HashValue::accumulator_placeholder(),
            num_leaves: 0,
        }
    }

    pub open spec fn spec_version(&self) -> Option<Version> {
        if self.num_leaves > 0 {
            Some((self.num_leaves - 1) as u64)
        } else {
            None
        }
    }

    /// The version of the last transaction, if there is one.
    #[verifier::when_used_as_spec(spec_version)]
    pub fn version(&self) -> (v: Option<Version>)
        ensures
            v == self.spec_version(),
    {
        let num_elements: u64 = self.num_leaves;
        if num_elements > 0 {
            Some(num_elements - 1)
        } else {
            None
        }
    }

    pub fn state_id(&self) -> (h: HashValue)
        ensures
            h == self.accumulator_root,
    {
        self.accumulator_root
    }

    pub fn state_root(&self) -> (h: HashValue)
        ensures
            h == self.state_root,
    {
        self.state_root
    }
}

/// Whether a transaction's effects are kept or discarded, with the status code of
/// the virtual machine.
#[derive(Clone, Copy, Debug, PartialEq, Eq, Structural)]
pub enum TransactionStatus {
    Keep(u64),
    Discard(u64),
}

/// What the execution of one transaction left behind.
#[derive(Clone, Copy, Debug, PartialEq, Eq, Structural)]
pub struct TransactionData {
    pub status: TransactionStatus,
    pub state_root_hash: HashValue,
    pub event_root_hash: HashValue,
    pub gas_used: u64,
    pub num_account_created: usize,
    /// Set when the transaction was kept.
    pub txn_info_hash: Option<HashValue>,
}

impl TransactionData {
    pub fn txn_info_hash(&self) -> (h: Option<HashValue>)
        ensures
            h == self.txn_info_hash,
    {
        self.txn_info_hash
    }
}

/// The identity of the state that an execution produced.
#[derive(Clone, Copy, Debug, PartialEq, Eq, Structural)]
pub struct ExecutedState {
    pub state_id: HashValue,
    pub version: Version,
    /// The validators to change to once the block is committed.
    pub validators: Option<ValidatorSet>,
}

impl ExecutedState {
    pub fn state_for_genesis() -> (s: ExecutedState)
        ensures
            s == (ExecutedState {
                state_id: HashValue::spec_accumulator_placeholder(),
                version: 0,
                validators: None,
            }),
    {
        ExecutedState {
            state_id: HashValue::accumulator_placeholder(),
            version: 0,
            validators: None,
        }
    }
}

impl Default for ExecutedState {
    /// The state with the all-zero id at version zero.
    fn default() -> (s: ExecutedState)
        ensures
            s == (ExecutedState {
                state_id: HashValue { hi: 0, lo: 0 },
                version: 0,
                validators: None,
            }),
    {
        ExecutedState { state_id: HashValue::zero(), version: 0, validators: None }
    }
}

/// What consensus agrees on after an execution: the new state and, per transaction,
/// its status.
#[derive(Clone, Debug, PartialEq, Eq)]
pub struct StateComputeResult {
    pub executed_state: ExecutedState,
    pub compute_status: Vec<TransactionStatus>,
}

impl Default for StateComputeResult {
    /// The default state without transactions.
    fn default() -> (r: StateComputeResult)
        ensures
            r.executed_state == (ExecutedState {
                state_id: HashValue { hi: 0, lo: 0 },
                version: 0,
                validators: None,
            }),
            r.compute_status@ == Seq::<TransactionStatus>::empty(),
    {
        StateComputeResult { executed_state: ExecutedState::default(), compute_status: Vec::new() }
    }
}

impl StateComputeResult {
    pub fn version(&self) -> (v: Version)
        ensures
            v == self.executed_state.version,
    {
        self.executed_state.version
    }

    pub fn root_hash(&self) -> (h: HashValue)
        ensures
            h == self.executed_state.state_id,
    {
        self.executed_state.state_id
    }

    pub fn status(&self) -> (s: &Vec<TransactionStatus>)
        ensures
            *s == self.compute_status,
    {
        &self.compute_status
    }

    pub fn has_reconfiguration(&self) -> (r: bool)
        ensures
            r == self.executed_state.validators.is_some(),
    {
        self.executed_state.validators.is_some()
    }
}

/// The outcome of executing one block.
#[derive(Clone, Debug)]
pub struct ProcessedVMOutput {
    transaction_data: Vec<TransactionData>,
    executed_trees: ExecutedTrees,
    validators: Option<ValidatorSet>,
}

impl ProcessedVMOutput {
    pub closed spec fn spec_transaction_data(&self) -> Seq<TransactionData> {
        self.transaction_data@
    }

    pub closed spec fn spec_executed_trees(&self) -> ExecutedTrees {
        self.executed_trees
    }

    pub closed spec fn spec_validators(&self) -> Option<ValidatorSet> {
        self.validators
    }

    /// The version that the output reports: that of the last transaction in the
    /// accumulator, zero for an empty one.
    pub open spec fn spec_reported_version(&self) -> Version {
        if self.spec_executed_trees().num_leaves == 0 {
            0
        } else {
            (self.spec_executed_trees().num_leaves - 1) as u64
        }
    }

    /// The state that the output leaves behind.
    pub open spec fn spec_executed_state(&self) -> ExecutedState {
        ExecutedState {
            state_id: self.spec_executed_trees().accumulator_root,
            version: self.spec_reported_version(),
            validators: self.spec_validators(),
        }
    }

    pub fn new(
        transaction_data: Vec<TransactionData>,
        executed_trees: ExecutedTrees,
        validators: Option<ValidatorSet>,
    ) -> (o: ProcessedVMOutput)
        ensures
            o.spec_transaction_data() == transaction_data@,
            o.spec_executed_trees() == executed_trees,
            o.spec_validators() == validators,
    {
        ProcessedVMOutput { transaction_data, executed_trees, validators }
    }

    pub fn transaction_data(&self) -> (d: &Vec<TransactionData>)
        ensures
            d@ == self.spec_transaction_data(),
    {
        &self.transaction_data
    }

    #[verifier::when_used_as_spec(spec_executed_trees)]
    pub fn executed_trees(&self) -> (t: ExecutedTrees)
        ensures
            t == self.spec_executed_trees(),
    {
        self.executed_trees
    }

    pub fn accu_root(&self) -> (h: HashValue)
        ensures
            h == self.spec_executed_trees().accumulator_root,
    {
        self.executed_trees.accumulator_root
    }

    pub fn version(&self) -> (v: Option<Version>)
        ensures
            v == self.spec_executed_trees().spec_version(),
    {
        self.executed_trees.version()
    }

    #[verifier::when_used_as_spec(spec_validators)]
    pub fn validators(&self) -> (v: Option<ValidatorSet>)
        ensures
            v == self.spec_validators(),
    {
        self.validators
    }

    pub fn set_validators(&mut self, validator_set: ValidatorSet)
        ensures
            final(self).spec_validators() == Some(validator_set),
            final(self).spec_executed_trees() == old(self).spec_executed_trees(),
            final(self).spec_transaction_data() == old(self).spec_transaction_data(),
    {
        self.validators = Some(validator_set);
    }

    /// The state that the output leaves behind, without the per-transaction status.
    pub fn executed_state(&self) -> (s: ExecutedState)
        ensures
            s == self.spec_executed_state(),
    {
        let num_leaves: u64 = self.executed_trees.num_leaves;
        let version: u64 = if num_leaves == 0 {
            0
        } else {
            num_leaves - 1
        };
        ExecutedState {
            state_id: self.executed_trees.accumulator_root,
            version,
            validators: self.validators,
        }
    }

    /// The result handed to consensus: the state left behind and the status of each
    /// transaction, in order.
    pub fn state_compute_result(&self) -> (r: StateComputeResult)
        ensures
            r.executed_state == self.spec_executed_state(),
            r.compute_status@ == self.spec_transaction_data().map_values(
                |d: TransactionData| d.status,
            ),
    {
        let mut compute_status: Vec<TransactionStatus> = Vec::new();
        let mut i: usize = 0;
        while i < self.transaction_data.len()
            invariant
                i <= self.transaction_data.len(),
                compute_status@ == self.transaction_data@.subrange(0, i as int).map_values(
                    |d: TransactionData| d.status,
                ),
            decreases self.transaction_data.len() - i,
        {
            compute_status.push(self.transaction_data[i].status);
            i += 1;
            assert(compute_status@ =~= self.transaction_data@.subrange(0, i as int).map_values(
                |d: TransactionData| d.status,
            ));
        }
        assert(self.transaction_data@.subrange(0, i as int) =~= self.transaction_data@);
        StateComputeResult { executed_state: self.executed_state(), compute_status }
    }
}

} // verus!
