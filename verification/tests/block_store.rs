use std::sync::Arc;

use chained_bft::block::{
    Block, BlockType, ExecutedBlock, QuorumCert, Timeout, TimeoutCertificate, VoteData,
};
use chained_bft::block_info::{
    AuthorSignature, BlockInfo, LedgerInfo, LedgerInfoWithSignatures, ValidatorSet,
};
use chained_bft::block_store::{BlockStore, ExecutionInput};
use chained_bft::error::{Error, FatalKind, InvalidBlockKind};
use chained_bft::executor::{ExecutedTrees, ProcessedVMOutput};
use chained_bft::hash_value::{AccountAddress, HashValue, Signature};
use chained_bft::pending_votes::VoteReceptionResult;
use chained_bft::validator_verifier::ValidatorVerifier;
use chained_bft::vote::Vote;

fn h(n: u128) -> HashValue {
    HashValue::new(0, n)
}

fn author(n: u128) -> AccountAddress {
    AccountAddress::new(0, n)
}

fn sig(n: u128) -> Signature {
    Signature::new(h(n), h(n + 1))
}

fn genesis_id() -> HashValue {
    h(1_000_000)
}

fn genesis_block_info() -> BlockInfo {
    BlockInfo::new(
        0,
        0,
        genesis_id(),
        HashValue::accumulator_placeholder(),
        0,
        0,
        None,
    )
}

fn placeholder_ledger_info() -> LedgerInfo {
    LedgerInfo::new(BlockInfo::empty(), HashValue::zero())
}

fn certificate(certified: BlockInfo, parent: BlockInfo, commit: BlockInfo) -> QuorumCert {
    QuorumCert::new(
        VoteData::new(certified, parent),
        LedgerInfoWithSignatures::new(LedgerInfo::new(commit, HashValue::zero()), Vec::new()),
    )
}

fn certificate_for_genesis() -> QuorumCert {
    certificate(genesis_block_info(), genesis_block_info(), genesis_block_info())
}

fn genesis_block() -> Block {
    Block {
        id: genesis_id(),
        epoch: 0,
        round: 0,
        timestamp_usecs: 0,
        parent_id: HashValue::zero(),
        quorum_cert: Arc::new(certificate_for_genesis()),
        block_type: BlockType::Genesis,
    }
}

/// A proposal below `parent` that carries the certificate `qc`.
fn proposal(id: u128, round: u64, timestamp_usecs: u64, parent: HashValue, qc: QuorumCert) -> Block {
    Block {
        id: h(id),
        epoch: 0,
        round,
        timestamp_usecs,
        parent_id: parent,
        quorum_cert: Arc::new(qc),
        block_type: BlockType::Proposal { payload: vec![1], author: author(1) },
    }
}

/// A proposal below `parent` with the certificate for that parent.
fn child_of(parent: &ExecutedBlock, id: u128, round: u64, timestamp_usecs: u64) -> Block {
    let info = parent.block_info();
    proposal(id, round, timestamp_usecs, parent.id(), certificate(info, info, BlockInfo::empty()))
}

/// The outcome of an execution that leaves `leaves` transactions in the ledger.
fn output(leaves: u64) -> ProcessedVMOutput {
    ProcessedVMOutput::new(Vec::new(), ExecutedTrees::new(h(7000 + leaves as u128), h(8000 + leaves as u128), leaves), None)
}

/// The root as recovery sets it up, after the test that it may.
fn root_of(block: Block, qc: &QuorumCert, trees: ExecutedTrees) -> Result<ExecutedBlock, FatalKind> {
    match BlockStore::root_fault(qc, trees) {
        Some(fault) => Err(fault),
        None => Ok(BlockStore::root_block(block, qc, trees)),
    }
}

fn genesis_root() -> ExecutedBlock {
    root_of(genesis_block(), &certificate_for_genesis(), ExecutedTrees::new_empty()).unwrap()
}

struct Recovered {
    root: Arc<ExecutedBlock>,
    root_qc: Arc<QuorumCert>,
    root_li: Arc<QuorumCert>,
    blocks: Vec<Arc<ExecutedBlock>>,
    quorum_certs: Vec<Arc<QuorumCert>>,
}

impl Recovered {
    fn new(
        root: ExecutedBlock,
        root_qc: QuorumCert,
        root_li: QuorumCert,
        blocks: Vec<ExecutedBlock>,
        quorum_certs: Vec<QuorumCert>,
    ) -> Self {
        Recovered {
            root: Arc::new(root),
            root_qc: Arc::new(root_qc),
            root_li: Arc::new(root_li),
            blocks: blocks.into_iter().map(Arc::new).collect(),
            quorum_certs: quorum_certs.into_iter().map(Arc::new).collect(),
        }
    }

    fn fault(&self) -> Option<FatalKind> {
        BlockStore::recovery_fault(
            &self.root,
            &self.root_qc,
            &self.root_li,
            &self.blocks,
            &self.quorum_certs,
        )
    }

    /// The store, after the test that it can be built.
    fn store(self, max_pruned_blocks_in_mem: usize) -> Result<BlockStore, FatalKind> {
        match self.fault() {
            Some(fault) => Err(fault),
            None => Ok(BlockStore::new(
                self.root,
                self.root_qc,
                self.root_li,
                self.blocks,
                self.quorum_certs,
                None,
                max_pruned_blocks_in_mem,
            )),
        }
    }

    /// Rebuilds the store, after the test that it can be rebuilt.
    fn rebuild(self, store: &mut BlockStore) -> Result<Vec<HashValue>, FatalKind> {
        match self.fault() {
            Some(fault) => Err(fault),
            None => Ok(store.rebuild(
                self.root,
                self.root_qc,
                self.root_li,
                self.blocks,
                self.quorum_certs,
            )),
        }
    }
}

fn new_store(max_pruned_blocks_in_mem: usize) -> BlockStore {
    Recovered::new(
        genesis_root(),
        certificate_for_genesis(),
        certificate_for_genesis(),
        Vec::new(),
        Vec::new(),
    )
    .store(max_pruned_blocks_in_mem)
    .unwrap()
}

fn insert(store: &mut BlockStore, parent: &ExecutedBlock, id: u128, round: u64, ts: u64) -> Arc<ExecutedBlock> {
    store
        .execute_and_insert_block(child_of(parent, id, round, ts), Some(output(round)))
        .unwrap()
}

fn commit_proof(block: &ExecutedBlock) -> LedgerInfoWithSignatures {
    LedgerInfoWithSignatures::new(LedgerInfo::new(block.block_info(), HashValue::zero()), Vec::new())
}

fn ids(blocks: &[Arc<ExecutedBlock>]) -> Vec<HashValue> {
    blocks.iter().map(|b| b.id()).collect()
}

#[test]
fn new_store_holds_the_root_alone() {
    let store = new_store(10);
    assert_eq!(store.len(), 1);
    assert_eq!(store.child_links(), 0);
    assert_eq!(store.pruned_blocks_in_mem(), 0);
    assert_eq!(store.root().id(), genesis_id());
    assert!(store.block_exists(genesis_id()));
    assert_eq!(store.highest_quorum_cert().certified_block().id, genesis_id());
    assert_eq!(store.highest_ledger_info().commit_info().id, genesis_id());
    assert!(store.highest_timeout_cert().is_none());
    assert_eq!(store.highest_certified_block().unwrap().id(), genesis_id());
    assert_eq!(store.path_from_root(genesis_id()).unwrap().len(), 0);
    assert!(store.path_from_root(h(5)).is_none());
    assert!(store.get_quorum_cert_for_block(genesis_id()).is_some());
    assert!(store.get_quorum_cert_for_block(h(5)).is_none());
}

#[test]
fn root_block_takes_the_committed_state() {
    let trees = ExecutedTrees::new(h(1), h(2), 5);
    let certified = BlockInfo::new(0, 3, h(9), h(2), 4, 30, Some(ValidatorSet::new(h(77))));
    let qc = certificate(certified, genesis_block_info(), BlockInfo::empty());
    let block = proposal(9, 3, 30, genesis_id(), certificate_for_genesis());
    assert_eq!(BlockStore::root_fault(&qc, trees), None);
    let root = BlockStore::root_block(block, &qc, trees);
    assert_eq!(root.block_info(), certified);
    assert_eq!(root.executed_trees(), trees);
    assert!(root.has_reconfiguration());
    assert_eq!(root.output().transaction_data().len(), 0);
}

#[test]
fn root_block_refuses_another_version() {
    let trees = ExecutedTrees::new(h(1), h(2), 5);
    let certified = BlockInfo::new(0, 3, h(9), h(2), 5, 30, None);
    let qc = certificate(certified, genesis_block_info(), BlockInfo::empty());
    let block = proposal(9, 3, 30, genesis_id(), certificate_for_genesis());
    assert_eq!(
        BlockStore::root_fault(&qc, trees),
        Some(FatalKind::RootVersionMismatch)
    );
    assert_eq!(root_of(block, &qc, trees).err(), Some(FatalKind::RootVersionMismatch));
}

#[test]
fn root_block_refuses_another_state() {
    let trees = ExecutedTrees::new(h(1), h(2), 5);
    let certified = BlockInfo::new(0, 3, h(9), h(3), 4, 30, None);
    let qc = certificate(certified, genesis_block_info(), BlockInfo::empty());
    let block = proposal(9, 3, 30, genesis_id(), certificate_for_genesis());
    assert_eq!(
        BlockStore::root_fault(&qc, trees),
        Some(FatalKind::RootStateMismatch)
    );
    assert_eq!(root_of(block, &qc, trees).err(), Some(FatalKind::RootStateMismatch));
}

#[test]
fn new_store_refuses_a_root_certificate_for_another_block() {
    let other = BlockInfo::new(0, 0, h(5), HashValue::accumulator_placeholder(), 0, 0, None);
    let recovered = Recovered::new(
        genesis_root(),
        certificate(other, other, other),
        certificate_for_genesis(),
        Vec::new(),
        Vec::new(),
    );
    assert_eq!(recovered.fault(), Some(FatalKind::InvalidQuorumCert));
    assert!(recovered.store(10).is_err());
}

#[test]
fn happy_path_commit() {
    let mut store = new_store(10);
    let genesis = store.root();
    let b1 = insert(&mut store, &genesis, 1, 1, 10);
    let b2 = insert(&mut store, &b1, 2, 2, 20);
    let b3 = insert(&mut store, &b2, 3, 3, 30);
    assert_eq!(store.len(), 4);
    assert_eq!(store.child_links(), 3);
    assert_eq!(ids(&store.path_from_root(b1.id()).unwrap()), vec![b1.id()]);
    assert_eq!(
        ids(&store.path_from_root(b3.id()).unwrap()),
        vec![b1.id(), b2.id(), b3.id()]
    );

    let proof = commit_proof(&b1);
    assert_eq!(ids(&store.blocks_to_commit(&proof).unwrap()), vec![b1.id()]);
    let committed = store.commit(&proof).unwrap();
    assert_eq!(ids(&committed), vec![b1.id()]);
    assert_eq!(store.root().id(), b1.id());
    assert!(store.block_exists(b2.id()));
    assert!(store.block_exists(b3.id()));
    assert!(!store.block_exists(genesis.id()));
    assert_eq!(store.len(), 3);
    assert_eq!(store.pruned_blocks_in_mem(), 1);
    assert_eq!(ids(&store.path_from_root(b3.id()).unwrap()), vec![b2.id(), b3.id()]);
    assert_eq!(store.path_from_root(b1.id()).unwrap().len(), 0);
}

#[test]
fn fork_pruning() {
    let mut store = new_store(10);
    let genesis = store.root();
    let b1 = insert(&mut store, &genesis, 1, 1, 10);
    let b2 = insert(&mut store, &b1, 2, 2, 20);
    let b3 = insert(&mut store, &b2, 3, 3, 30);
    let b2x = insert(&mut store, &b1, 22, 2, 21);
    let b3x = insert(&mut store, &b2x, 33, 3, 31);
    assert_eq!(store.len(), 6);

    assert_eq!(
        store.find_blocks_to_prune(b2.id()),
        vec![genesis.id(), b1.id(), b2x.id(), b3x.id()]
    );
    let committed = store.commit(&commit_proof(&b2)).unwrap();
    assert_eq!(ids(&committed), vec![b1.id(), b2.id()]);
    assert_eq!(store.root().id(), b2.id());
    assert!(!store.block_exists(b2x.id()));
    assert!(!store.block_exists(b3x.id()));
    assert!(!store.block_exists(b1.id()));
    assert!(store.block_exists(b3.id()));
    assert_eq!(store.len(), 2);
    assert_eq!(store.pruned_blocks_in_mem(), 4);
    assert_eq!(
        store.pruned_ids(),
        vec![genesis.id(), b1.id(), b2x.id(), b3x.id()]
    );
}

#[test]
fn duplicate_insert() {
    let mut store = new_store(10);
    let genesis = store.root();
    let block = child_of(&genesis, 1, 1, 10);
    let first = store.execute_and_insert_block(block.clone(), Some(output(1))).unwrap();
    match store.prepare_execution(&block) {
        Ok(ExecutionInput::Known(known)) => assert!(Arc::ptr_eq(&known, &first)),
        _ => panic!("the block is in the store"),
    }
    let second = store.execute_and_insert_block(block, Some(output(2))).unwrap();
    assert!(Arc::ptr_eq(&first, &second));
    assert_eq!(second.executed_trees(), output(1).executed_trees());
    assert_eq!(store.len(), 2);
}

#[test]
fn stale_commit_is_refused() {
    let mut store = new_store(10);
    let genesis = store.root();
    let b1 = insert(&mut store, &genesis, 1, 1, 10);
    let b2 = insert(&mut store, &b1, 2, 2, 20);
    store.commit(&commit_proof(&b2)).unwrap();
    assert_eq!(store.commit(&commit_proof(&b2)).err(), Some(Error::StaleCommit));
    assert_eq!(
        store.commit(&commit_proof(&b1)).err(),
        Some(Error::BlockNotFound(b1.id()))
    );
    assert_eq!(store.root().id(), b2.id());
    assert_eq!(store.len(), 1);
}

#[test]
fn commit_of_the_root_is_stale() {
    let mut store = new_store(10);
    let genesis = store.root();
    insert(&mut store, &genesis, 1, 1, 10);
    assert_eq!(store.commit(&commit_proof(&genesis)).err(), Some(Error::StaleCommit));
    assert_eq!(store.len(), 2);
}

#[test]
fn pruned_window_keeps_the_newest_ids() {
    let mut store = new_store(2);
    let genesis = store.root();
    let b1 = insert(&mut store, &genesis, 1, 1, 10);
    let b2 = insert(&mut store, &b1, 2, 2, 20);
    let b3 = insert(&mut store, &b2, 3, 3, 30);
    let b4 = insert(&mut store, &b3, 4, 4, 40);
    store.commit(&commit_proof(&b1)).unwrap();
    assert_eq!(store.pruned_blocks_in_mem(), 1);
    assert_eq!(store.pruned_ids(), vec![genesis.id()]);
    store.commit(&commit_proof(&b4)).unwrap();
    // genesis, b1, b2, b3 were pruned; the window keeps the last two
    assert_eq!(store.pruned_blocks_in_mem(), 2);
    assert_eq!(store.pruned_ids(), vec![b2.id(), b3.id()]);
    assert_eq!(store.root().id(), b4.id());
}

#[test]
fn pruned_window_of_size_zero_keeps_nothing() {
    let mut store = new_store(0);
    let genesis = store.root();
    let b1 = insert(&mut store, &genesis, 1, 1, 10);
    store.commit(&commit_proof(&b1)).unwrap();
    assert_eq!(store.pruned_blocks_in_mem(), 0);
}

#[test]
fn invalid_blocks_are_refused_in_order() {
    let mut store = new_store(10);
    let genesis = store.root();
    let b1 = insert(&mut store, &genesis, 1, 1, 10);
    let b2 = insert(&mut store, &b1, 2, 2, 20);
    store.commit(&commit_proof(&b1)).unwrap();

    // round not above the root's, whatever else is wrong
    let old = proposal(50, 1, 50, h(999), certificate_for_genesis());
    assert_eq!(
        store.execute_and_insert_block(old, Some(output(1))).err(),
        Some(Error::InvalidBlock(InvalidBlockKind::OldRound))
    );
    let orphan = proposal(51, 5, 50, h(999), certificate_for_genesis());
    assert_eq!(
        store.verify_and_get_parent(&orphan).err(),
        Some(Error::InvalidBlock(InvalidBlockKind::MissingParent))
    );
    assert_eq!(
        store.execute_and_insert_block(orphan, Some(output(1))).err(),
        Some(Error::InvalidBlock(InvalidBlockKind::MissingParent))
    );
    let same_round = child_of(&b2, 52, 2, 50);
    assert_eq!(
        store.execute_and_insert_block(same_round, Some(output(1))).err(),
        Some(Error::InvalidBlock(InvalidBlockKind::InvalidRound))
    );
    let same_time = child_of(&b2, 53, 3, 20);
    assert_eq!(
        store.execute_and_insert_block(same_time, Some(output(1))).err(),
        Some(Error::InvalidBlock(InvalidBlockKind::NonIncreasingTimestamp))
    );
    assert_eq!(store.len(), 2);
    let good = child_of(&b2, 54, 3, 21);
    assert_eq!(store.verify_and_get_parent(&good).unwrap().id(), b2.id());
}

#[test]
fn failed_execution_is_surfaced() {
    let mut store = new_store(10);
    let genesis = store.root();
    let block = child_of(&genesis, 1, 1, 10);
    match store.prepare_execution(&block) {
        Ok(ExecutionInput::Compute(trees)) => assert_eq!(trees, ExecutedTrees::new_empty()),
        _ => panic!("the block is to be executed"),
    }
    assert_eq!(
        store.execute_and_insert_block(block, None).err(),
        Some(Error::ExecutionError)
    );
    assert_eq!(store.len(), 1);
}

#[test]
fn reconfiguration_suffix_reuses_the_parent_state() {
    let mut store = new_store(10);
    let genesis = store.root();
    let b1 = insert(&mut store, &genesis, 1, 1, 10);
    let reconfig = store
        .insert_reconfiguration_block(
            proposal(2, 2, 20, b1.id(), certificate(b1.block_info(), genesis.block_info(), BlockInfo::empty())),
            Some(output(2)),
        )
        .unwrap();
    assert!(reconfig.has_reconfiguration());
    assert_eq!(reconfig.output().validators(), Some(ValidatorSet::empty()));
    assert_eq!(reconfig.executed_trees(), output(2).executed_trees());
    assert!(store.get_quorum_cert_for_block(b1.id()).is_some());

    // a block with a payload below the pending reconfiguration is a violation
    let loaded = child_of(&reconfig, 3, 3, 30);
    assert_eq!(
        store.prepare_execution(&loaded).err(),
        Some(Error::Fatal(FatalKind::ReconfigurationSuffixPayload))
    );
    assert_eq!(
        store.execute_and_insert_block(loaded, Some(output(3))).err(),
        Some(Error::Fatal(FatalKind::ReconfigurationSuffixPayload))
    );
    // an empty one takes over trees and validators, whatever was computed
    let mut empty = child_of(&reconfig, 4, 3, 30);
    empty.block_type = BlockType::NilBlock;
    assert!(matches!(store.prepare_execution(&empty), Ok(ExecutionInput::Suffix)));
    let suffix = store.execute_and_insert_block(empty, None).unwrap();
    assert_eq!(suffix.executed_trees(), reconfig.executed_trees());
    assert_eq!(suffix.output().validators(), Some(ValidatorSet::empty()));
    assert_eq!(suffix.output().transaction_data().len(), 0);
    assert_eq!(suffix.block_info().next_validator_set, Some(ValidatorSet::empty()));
}

#[test]
fn reconfiguration_at_the_root_does_not_bind_children() {
    let mut store = new_store(10);
    let genesis = store.root();
    let reconfig = store
        .insert_reconfiguration_block(child_of(&genesis, 1, 1, 10), Some(output(1)))
        .unwrap();
    let mut nil = child_of(&reconfig, 2, 2, 20);
    nil.block_type = BlockType::NilBlock;
    let below = store.execute_and_insert_block(nil, None).unwrap();
    assert_eq!(below.executed_trees(), reconfig.executed_trees());
    store.commit(&commit_proof(&reconfig)).unwrap();
    // the parent is the root now: the state computer is asked again
    let child = child_of(&reconfig, 3, 2, 25);
    assert!(matches!(store.prepare_execution(&child), Ok(ExecutionInput::Compute(_))));
    let inserted = store.execute_and_insert_block(child, Some(output(9))).unwrap();
    assert_eq!(inserted.executed_trees(), output(9).executed_trees());
    assert!(store.block_exists(below.id()));
}

#[test]
fn quorum_cert_needs_its_block() {
    let mut store = new_store(10);
    let genesis = store.root();
    let unknown = BlockInfo::new(0, 1, h(1), h(8001), 0, 10, None);
    let qc = Arc::new(certificate(unknown, genesis.block_info(), BlockInfo::empty()));
    assert_eq!(store.verify_quorum_cert(&qc).err(), Some(Error::MissingBlock(h(1))));
    assert_eq!(
        store.insert_single_quorum_cert(qc).err(),
        Some(Error::MissingBlock(h(1)))
    );
    assert_eq!(store.highest_quorum_cert().certified_block().round, 0);
}

#[test]
fn quorum_cert_must_agree_with_the_block() {
    let mut store = new_store(10);
    let genesis = store.root();
    let b1 = insert(&mut store, &genesis, 1, 1, 10);
    let mut diverged = b1.block_info();
    diverged.executed_state_id = h(4242);
    assert_eq!(
        store
            .insert_single_quorum_cert(Arc::new(certificate(diverged, genesis.block_info(), BlockInfo::empty())))
            .err(),
        Some(Error::ExecutionDivergence)
    );
    let mut other_round = b1.block_info();
    other_round.round = 7;
    assert_eq!(
        store
            .insert_single_quorum_cert(Arc::new(certificate(other_round, genesis.block_info(), BlockInfo::empty())))
            .err(),
        Some(Error::InconsistentBlockInfo)
    );
    assert!(store.get_quorum_cert_for_block(b1.id()).is_none());
    assert_eq!(store.highest_quorum_cert().certified_block().round, 0);
}

#[test]
fn quorum_cert_moves_the_highest_trackers() {
    let mut store = new_store(10);
    let genesis = store.root();
    let b1 = insert(&mut store, &genesis, 1, 1, 10);
    let b2 = insert(&mut store, &b1, 2, 2, 20);
    let qc2 = Arc::new(certificate(b2.block_info(), b1.block_info(), b1.block_info()));
    store.insert_single_quorum_cert(qc2.clone()).unwrap();
    assert_eq!(store.highest_quorum_cert().certified_block().id, b2.id());
    assert_eq!(store.highest_ledger_info().commit_info().id, b1.id());
    assert_eq!(store.highest_certified_block().unwrap().id(), b2.id());
    assert!(Arc::ptr_eq(&store.pending_commit().unwrap(), &qc2));

    // a certificate for a lower round is stored and moves nothing
    let qc1 = Arc::new(certificate(b1.block_info(), genesis.block_info(), BlockInfo::empty()));
    store.insert_single_quorum_cert(qc1).unwrap();
    assert_eq!(store.highest_quorum_cert().certified_block().id, b2.id());
    assert_eq!(store.highest_ledger_info().commit_info().id, b1.id());
    assert!(store.get_quorum_cert_for_block(b1.id()).is_some());
}

#[test]
fn known_quorum_cert_is_a_no_op() {
    let mut store = new_store(10);
    let genesis = store.root();
    let b1 = insert(&mut store, &genesis, 1, 1, 10);
    let qc = Arc::new(certificate(b1.block_info(), genesis.block_info(), genesis.block_info()));
    store.insert_single_quorum_cert(qc.clone()).unwrap();
    let highest = store.highest_quorum_cert();
    let ledger = store.highest_ledger_info();
    let stored = store.get_quorum_cert_for_block(b1.id()).unwrap();
    store.insert_single_quorum_cert(qc).unwrap();
    assert!(Arc::ptr_eq(&store.highest_quorum_cert(), &highest));
    assert!(Arc::ptr_eq(&store.highest_ledger_info(), &ledger));
    assert!(Arc::ptr_eq(&store.get_quorum_cert_for_block(b1.id()).unwrap(), &stored));
}

#[test]
fn commit_drops_the_certificates_of_pruned_blocks() {
    let mut store = new_store(10);
    let genesis = store.root();
    let b1 = insert(&mut store, &genesis, 1, 1, 10);
    let b2 = insert(&mut store, &b1, 2, 2, 20);
    let fork = insert(&mut store, &b1, 22, 3, 21);
    for b in [&b1, &b2, &fork] {
        store
            .insert_single_quorum_cert(Arc::new(certificate(b.block_info(), genesis.block_info(), BlockInfo::empty())))
            .unwrap();
    }
    store.commit(&commit_proof(&b2)).unwrap();
    assert!(store.get_quorum_cert_for_block(genesis.id()).is_none());
    assert!(store.get_quorum_cert_for_block(b1.id()).is_none());
    assert!(store.get_quorum_cert_for_block(fork.id()).is_none());
    assert!(store.get_quorum_cert_for_block(b2.id()).is_some());
    // the highest certificate outlives its block
    assert_eq!(store.highest_quorum_cert().certified_block().id, fork.id());
    assert!(store.highest_certified_block().is_none());
}

#[test]
fn timeout_certificate_is_replaced_by_a_newer_one_only() {
    let mut store = new_store(10);
    let tc = |round: u64| Arc::new(TimeoutCertificate::new(Timeout { epoch: 1, round }, Vec::new()));
    assert!(!store.is_newer_timeout_certificate(&tc(0)));
    assert!(!store.insert_timeout_certificate(tc(0)));
    assert!(store.highest_timeout_cert().is_none());
    assert!(store.is_newer_timeout_certificate(&tc(2)));
    assert!(store.insert_timeout_certificate(tc(2)));
    assert_eq!(store.highest_timeout_cert().unwrap().round(), 2);
    assert!(!store.insert_timeout_certificate(tc(2)));
    assert!(!store.insert_timeout_certificate(tc(1)));
    assert_eq!(store.highest_timeout_cert().unwrap().round(), 2);
    assert!(store.insert_timeout_certificate(tc(3)));
    assert_eq!(store.highest_timeout_cert().unwrap().round(), 3);
    assert_eq!(store.highest_timeout_cert().unwrap().epoch(), 1);
}

#[test]
fn insert_block_with_qc_takes_the_certificate_first() {
    let mut store = new_store(10);
    let genesis = store.root();
    let b1 = insert(&mut store, &genesis, 1, 1, 10);
    let b2 = store
        .insert_block_with_qc(child_of(&b1, 2, 2, 20), Some(output(2)))
        .unwrap();
    assert_eq!(store.highest_quorum_cert().certified_block().id, b1.id());
    assert!(store.block_exists(b2.id()));

    // a certificate for a block that is not here stops the insertion
    let unknown = BlockInfo::new(0, 2, h(77), h(1), 0, 20, None);
    let orphan = proposal(3, 3, 30, h(77), certificate(unknown, unknown, BlockInfo::empty()));
    assert_eq!(
        store.insert_block_with_qc(orphan, Some(output(3))).err(),
        Some(Error::MissingBlock(h(77)))
    );
    assert!(!store.block_exists(h(3)));
}

#[test]
fn rebuild_after_sync() {
    let mut store = new_store(10);
    let genesis = store.root();
    let old = insert(&mut store, &genesis, 1, 1, 10);
    store.insert_timeout_certificate(Arc::new(TimeoutCertificate::new(
        Timeout { epoch: 0, round: 4 },
        Vec::new(),
    )));

    let trees5 = output(5).executed_trees();
    let info5 = BlockInfo::new(0, 5, h(5), trees5.state_id(), 4, 50, None);
    let root_qc = certificate(info5, genesis.block_info(), BlockInfo::empty());
    let b5 = root_of(proposal(5, 5, 50, h(4), certificate_for_genesis()), &root_qc, trees5).unwrap();
    let b6 = ExecutedBlock::new(child_of(&b5, 6, 6, 60), output(6));
    let b7 = ExecutedBlock::new(child_of(&b6, 7, 7, 70), output(7));
    let qc6 = certificate(b6.block_info(), b5.block_info(), BlockInfo::empty());
    let root_li = certificate(b7.block_info(), b6.block_info(), b6.block_info());
    let (id6, id7) = (b6.id(), b7.id());

    let to_remove = Recovered::new(b5, root_qc, root_li, vec![b6, b7], vec![qc6])
        .rebuild(&mut store)
        .unwrap();
    assert_eq!(to_remove, vec![genesis.id(), old.id()]);
    assert_eq!(store.root().id(), h(5));
    assert_eq!(store.len(), 3);
    // the highest commit decision is ahead of the root: the commit is due
    let decision = store.pending_commit().unwrap();
    assert_eq!(decision.commit_info().id, id6);
    assert_eq!(store.find_blocks_to_prune(id6), vec![h(5)]);
    let committed = store.commit(decision.ledger_info()).unwrap();
    assert_eq!(ids(&committed), vec![id6]);
    assert_eq!(store.root().id(), id6);
    assert_eq!(store.len(), 2);
    assert!(store.block_exists(id7));
    assert!(!store.block_exists(h(5)));
    assert!(!store.block_exists(old.id()));
    assert_eq!(store.highest_ledger_info().commit_info().id, id6);
    assert_eq!(
        store.highest_ledger_info().commit_info().round,
        store.root().round()
    );
    assert!(store.pending_commit().is_none());
    // the highest timeout certificate carries over
    assert_eq!(store.highest_timeout_cert().unwrap().round(), 4);
    assert_eq!(store.pruned_blocks_in_mem(), 1);
}

#[test]
fn rebuild_leaves_shared_blocks_in_storage() {
    let mut store = new_store(10);
    let genesis = store.root();
    let b1 = insert(&mut store, &genesis, 1, 1, 10);
    let b2 = insert(&mut store, &b1, 2, 2, 20);
    let fork = insert(&mut store, &b1, 22, 2, 21);
    let b3 = insert(&mut store, &b2, 3, 3, 30);

    // the new tree: b2 as the root, b3 below it, and a block that is new
    let info2 = b2.block_info();
    let root_qc = certificate(info2, b1.block_info(), BlockInfo::empty());
    let root_li = certificate(info2, b1.block_info(), info2);
    let root2 = root_of(b2.block().clone(), &root_qc, b2.executed_trees()).unwrap();
    let again3 = ExecutedBlock::new(b3.block().clone(), b3.output().clone());
    let b4 = ExecutedBlock::new(child_of(&b3, 4, 4, 40), output(4));
    let to_remove = Recovered::new(root2, root_qc, root_li, vec![again3, b4], Vec::new())
        .rebuild(&mut store)
        .unwrap();
    // only what the new tree does not hold is stale, in the order of the old tree
    assert_eq!(to_remove, vec![genesis.id(), b1.id(), fork.id()]);
    assert_eq!(store.root().id(), b2.id());
    assert!(store.block_exists(b3.id()));
    assert!(store.block_exists(h(4)));
    assert_eq!(store.len(), 3);
    for id in to_remove {
        assert!(!store.block_exists(id));
    }
}

#[test]
fn rebuild_is_not_begun_on_inconsistent_input() {
    let mut store = new_store(10);
    let genesis = store.root();
    let b1 = insert(&mut store, &genesis, 1, 1, 10);
    let orphan = ExecutedBlock::new(proposal(9, 9, 90, h(8), certificate_for_genesis()), output(9));
    let recovered = Recovered::new(
        genesis_root(),
        certificate_for_genesis(),
        certificate_for_genesis(),
        vec![orphan],
        Vec::new(),
    );
    assert_eq!(recovered.fault(), Some(FatalKind::MissingParent));
    assert_eq!(recovered.rebuild(&mut store).err(), Some(FatalKind::MissingParent));
    assert_eq!(store.len(), 2);
    assert!(store.block_exists(b1.id()));
}

#[test]
fn recovery_refuses_inconsistent_input() {
    let build = |blocks: Vec<ExecutedBlock>, qcs: Vec<QuorumCert>| {
        Recovered::new(
            genesis_root(),
            certificate_for_genesis(),
            certificate_for_genesis(),
            blocks,
            qcs,
        )
        .fault()
    };
    let g = genesis_root();
    let b1 = || ExecutedBlock::new(child_of(&g, 1, 1, 10), output(1));

    let mut genesis_again = child_of(&g, 2, 1, 10);
    genesis_again.block_type = BlockType::Genesis;
    assert_eq!(
        build(vec![ExecutedBlock::new(genesis_again, output(1))], vec![]),
        Some(FatalKind::UnexpectedGenesis)
    );
    assert_eq!(
        build(vec![ExecutedBlock::new(child_of(&b1(), 2, 2, 20), output(2))], vec![]),
        Some(FatalKind::MissingParent)
    );
    assert_eq!(
        build(vec![ExecutedBlock::new(child_of(&g, 1, 0, 10), output(1))], vec![]),
        Some(FatalKind::InvalidBlock)
    );
    assert_eq!(
        build(vec![ExecutedBlock::new(child_of(&g, 1, 1, 0), output(1))], vec![]),
        Some(FatalKind::InvalidBlock)
    );
    let mut diverged = b1().block_info();
    diverged.executed_state_id = h(4242);
    assert_eq!(
        build(vec![b1()], vec![certificate(diverged, g.block_info(), BlockInfo::empty())]),
        Some(FatalKind::ExecutionDivergence)
    );
    let mut other_version = b1().block_info();
    other_version.version = 99;
    assert_eq!(
        build(vec![b1()], vec![certificate(other_version, g.block_info(), BlockInfo::empty())]),
        Some(FatalKind::InvalidQuorumCert)
    );
    let unknown = BlockInfo::new(0, 1, h(55), h(1), 0, 10, None);
    assert_eq!(
        build(vec![b1()], vec![certificate(unknown, g.block_info(), BlockInfo::empty())]),
        Some(FatalKind::InvalidQuorumCert)
    );
    assert_eq!(build(vec![b1(), b1()], vec![]), None);
}

#[test]
fn recovered_block_is_executed_on_the_trees_of_its_parent() {
    let g = genesis_root();
    let b1 = ExecutedBlock::new(child_of(&g, 1, 1, 10), output(1));
    let b2 = child_of(&b1, 2, 2, 20);
    let on_root = child_of(&g, 3, 1, 10);
    let executed = vec![Arc::new(b1)];
    assert_eq!(
        BlockStore::recovered_parent_trees(&g, &executed, &b2),
        Some(output(1).executed_trees())
    );
    assert_eq!(
        BlockStore::recovered_parent_trees(&g, &executed, &on_root),
        Some(ExecutedTrees::new_empty())
    );
    assert_eq!(BlockStore::recovered_parent_trees(&g, &Vec::new(), &b2), None);
}

#[test]
fn ordering_by_round_is_stable() {
    let g = genesis_root();
    let rounds = [(1u128, 3u64), (2, 1), (3, 2), (4, 1), (5, 3), (6, 2)];
    let blocks: Vec<Block> = rounds
        .iter()
        .map(|(id, round)| child_of(&g, *id, *round, 10))
        .collect();
    let ordered: Vec<HashValue> = BlockStore::order_by_round(blocks)
        .iter()
        .map(|b| b.id)
        .collect();
    assert_eq!(ordered, vec![h(2), h(4), h(3), h(6), h(1), h(5)]);
    assert!(BlockStore::order_by_round(Vec::new()).is_empty());
}

#[test]
fn recovery_orders_blocks_by_round() {
    let g = genesis_root();
    let b1 = ExecutedBlock::new(child_of(&g, 1, 1, 10), output(1));
    let b2 = ExecutedBlock::new(child_of(&b1, 2, 2, 20), output(2));
    let b3 = ExecutedBlock::new(child_of(&b2, 3, 3, 30), output(3));
    let fork = ExecutedBlock::new(child_of(&b1, 22, 2, 21), output(4));
    let unordered = vec![
        b3.block().clone(),
        fork.block().clone(),
        b2.block().clone(),
        b1.block().clone(),
    ];
    let ordered: Vec<HashValue> = BlockStore::order_by_round(unordered)
        .iter()
        .map(|b| b.id)
        .collect();
    assert_eq!(ordered, vec![h(1), h(22), h(2), h(3)]);
    let store = Recovered::new(
        g,
        certificate_for_genesis(),
        certificate_for_genesis(),
        vec![b3, fork, b2, b1],
        Vec::new(),
    )
    .store(10)
    .unwrap();
    assert_eq!(store.len(), 5);
    assert_eq!(
        ids(&store.path_from_root(h(3)).unwrap()),
        vec![h(1), h(2), h(3)]
    );
    // blocks of one round keep the order in which they were handed in
    assert_eq!(
        store.find_blocks_to_prune(h(3)),
        vec![genesis_id(), h(1), h(22), h(2)]
    );
}

#[test]
fn rebuild_without_a_pending_commit() {
    let mut store = new_store(10);
    let genesis = store.root();
    insert(&mut store, &genesis, 1, 1, 10);
    let trees5 = output(5).executed_trees();
    let info5 = BlockInfo::new(0, 5, h(5), trees5.state_id(), 4, 50, None);
    let root_qc = certificate(info5, genesis.block_info(), BlockInfo::empty());
    let root_li = certificate(info5, genesis.block_info(), info5);
    let b5 = root_of(proposal(5, 5, 50, h(4), certificate_for_genesis()), &root_qc, trees5).unwrap();
    let b6 = ExecutedBlock::new(child_of(&b5, 6, 6, 60), output(6));
    let to_remove = Recovered::new(b5, root_qc, root_li, vec![b6], Vec::new())
        .rebuild(&mut store)
        .unwrap();
    assert!(store.pending_commit().is_none());
    assert_eq!(to_remove.len(), 2);
    assert_eq!(store.root().id(), h(5));
    assert_eq!(store.len(), 2);
    assert_eq!(store.highest_ledger_info().commit_info().round, store.root().round());
    assert_eq!(store.pruned_blocks_in_mem(), 0);
}

#[test]
fn commit_after_rebuild_is_turned_down_for_an_unknown_block() {
    let mut store = new_store(10);
    let genesis = store.root();
    let trees5 = output(5).executed_trees();
    let info5 = BlockInfo::new(0, 5, h(5), trees5.state_id(), 4, 50, None);
    let root_qc = certificate(info5, genesis.block_info(), BlockInfo::empty());
    let unknown = BlockInfo::new(0, 9, h(9), h(1), 8, 90, None);
    let root_li = certificate(info5, genesis.block_info(), unknown);
    let b5 = root_of(proposal(5, 5, 50, h(4), certificate_for_genesis()), &root_qc, trees5).unwrap();
    Recovered::new(b5, root_qc, root_li, Vec::new(), Vec::new())
        .rebuild(&mut store)
        .unwrap();
    // the commit is due, and is turned down: the block is not here
    let decision = store.pending_commit().unwrap();
    assert_eq!(
        store.commit(decision.ledger_info()).err(),
        Some(Error::BlockNotFound(h(9)))
    );
    assert_eq!(store.root().id(), h(5));
    // the decision stays ahead of the root
    assert_eq!(store.highest_ledger_info().commit_info().round, 9);
    assert!(store.pending_commit().is_some());
}

fn vote_for(block: &ExecutedBlock, parent: &ExecutedBlock, by: AccountAddress) -> Vote {
    Vote::new(
        VoteData::new(block.block_info(), parent.block_info()),
        by,
        placeholder_ledger_info(),
        sig(1),
    )
}

#[test]
fn basic_new_rank_event_test() {
    let mut store = new_store(10);
    let genesis = store.root();
    let a1 = store
        .insert_block_with_qc(
            proposal(1, 1, 1, genesis.id(), certificate_for_genesis()),
            Some(output(1)),
        )
        .unwrap();
    assert_eq!(store.highest_quorum_cert().certified_block().id, genesis.id());

    // enough votes for a1: its certificate becomes the highest one
    let vote = vote_for(&a1, &genesis, author(1));
    let verifier = ValidatorVerifier::new_single(author(1));
    let r = store.insert_vote_and_qc(&vote, &verifier).unwrap();
    assert!(matches!(r, VoteReceptionResult::NewQuorumCertificate(_)));
    assert_eq!(store.highest_quorum_cert().certified_block().id, a1.id());
    assert_eq!(store.highest_quorum_cert().certified_block().round, 1);
    assert_eq!(store.highest_certified_block().unwrap().id(), a1.id());
}

#[test]
fn process_old_proposal_test() {
    let mut store = new_store(10);
    let genesis = store.root();
    let new_block = proposal(1, 1, 1, genesis.id(), certificate_for_genesis());
    let new_block_id = new_block.id;
    let old_block = proposal(2, 1, 2, genesis.id(), certificate_for_genesis());
    let old_block_id = old_block.id;
    store.execute_and_insert_block(new_block, Some(output(1))).unwrap();
    store.execute_and_insert_block(old_block, Some(output(1))).unwrap();
    assert!(store.get_block(new_block_id).is_some());
    assert!(store.get_block(old_block_id).is_some());
}

#[test]
fn process_vote_timeout_msg_test() {
    let mut non_proposer = new_store(10);
    let mut static_proposer = new_store(10);
    let qc = non_proposer.highest_quorum_cert();
    let block_0 = proposal(1, 1, 1, genesis_id(), qc.as_ref().clone());
    let inserted = non_proposer
        .execute_and_insert_block(block_0.clone(), Some(output(1)))
        .unwrap();
    static_proposer
        .execute_and_insert_block(block_0.clone(), Some(output(1)))
        .unwrap();

    let parent_block_info = block_0.quorum_cert.certified_block();
    let block_0_quorum_cert = Arc::new(certificate(
        inserted.block_info(),
        parent_block_info,
        BlockInfo::empty(),
    ));
    non_proposer
        .insert_single_quorum_cert(block_0_quorum_cert.clone())
        .unwrap();
    assert_eq!(static_proposer.highest_quorum_cert().certified_block().round, 0);
    assert_eq!(non_proposer.highest_quorum_cert().certified_block().round, 1);

    // the certificate travels with the vote; the receiver takes it in
    static_proposer
        .insert_single_quorum_cert(block_0_quorum_cert)
        .unwrap();
    assert_eq!(static_proposer.highest_quorum_cert().certified_block().round, 1);
}

#[test]
fn process_votes_basic_test() {
    let mut store = new_store(10);
    let genesis = store.root();
    let a1 = store
        .insert_block_with_qc(
            proposal(1, 1, 1, genesis.id(), certificate_for_genesis()),
            Some(output(1)),
        )
        .unwrap();
    let executed_state = a1.output().executed_state();
    let vote_data = VoteData::new(
        BlockInfo::new(
            a1.quorum_cert().certified_block().epoch,
            a1.round(),
            a1.id(),
            executed_state.state_id,
            executed_state.version,
            a1.timestamp_usecs(),
            executed_state.validators,
        ),
        a1.quorum_cert().certified_block(),
    );
    let vote = Vote::new(vote_data, author(1), placeholder_ledger_info(), sig(1));
    let verifier = ValidatorVerifier::new_single(author(1));
    store.insert_vote_and_qc(&vote, &verifier).unwrap();
    // the new certificate is aggregated
    assert_eq!(store.highest_quorum_cert().certified_block().id, a1.id());
}

#[test]
fn basic_restart_test() {
    let mut store = new_store(10);
    let genesis = store.root();
    let num_proposals: u64 = 100;
    let mut proposals: Vec<Arc<ExecutedBlock>> = Vec::new();
    let a1 = store
        .insert_block_with_qc(
            proposal(1, 1, 1, genesis.id(), certificate_for_genesis()),
            Some(output(1)),
        )
        .unwrap();
    proposals.push(a1);
    for i in 2..=num_proposals {
        let parent = proposals.last().unwrap().clone();
        let b = store
            .insert_block_with_qc(child_of(&parent, i as u128, i, i), Some(output(i)))
            .unwrap();
        proposals.push(b);
    }
    assert_eq!(store.len(), 101);

    // what storage hands back after a restart: the blocks and their certificates
    let recovered_blocks: Vec<ExecutedBlock> = proposals
        .iter()
        .map(|p| ExecutedBlock::new(p.block().clone(), p.output().clone()))
        .collect();
    let recovered_certs: Vec<QuorumCert> = proposals
        .iter()
        .map(|p| p.quorum_cert().as_ref().clone())
        .collect();
    let restarted = Recovered::new(
        genesis_root(),
        certificate_for_genesis(),
        certificate_for_genesis(),
        recovered_blocks,
        recovered_certs,
    )
    .store(10)
    .unwrap();
    for block in proposals {
        assert_eq!(restarted.block_exists(block.id()), true);
    }
    assert_eq!(restarted.len(), 101);
    assert_eq!(
        restarted.highest_quorum_cert().certified_block().round,
        num_proposals - 1
    );
}

#[test]
fn signatures_travel_with_the_commit_proof() {
    let mut store = new_store(10);
    let genesis = store.root();
    let b1 = insert(&mut store, &genesis, 1, 1, 10);
    let proof = LedgerInfoWithSignatures::new(
        LedgerInfo::new(b1.block_info(), h(3)),
        vec![AuthorSignature { author: author(1), signature: sig(5) }],
    );
    assert_eq!(proof.signatures().len(), 1);
    assert_eq!(proof.ledger_info().consensus_block_id(), b1.id());
    assert_eq!(proof.ledger_info().round(), 1);
    assert_eq!(ids(&store.commit(&proof).unwrap()), vec![b1.id()]);
}
