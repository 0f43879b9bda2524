use std::sync::Arc;

use chained_bft::block::{
    Block, BlockType, ExecutedBlock, QuorumCert, Timeout, TimeoutCertificate, VoteData,
};
use chained_bft::block_info::{BlockInfo, LedgerInfo, LedgerInfoWithSignatures};
use chained_bft::block_tree::BlockTree;
use chained_bft::error::Error;
use chained_bft::executor::{ExecutedTrees, ProcessedVMOutput};
use chained_bft::hash_value::{AccountAddress, HashValue, Signature};
use chained_bft::pending_votes::VoteReceptionResult;
use chained_bft::validator_verifier::ValidatorVerifier;
use chained_bft::vote::Vote;

fn h(n: u128) -> HashValue {
    HashValue::new(n, 0)
}

fn certificate(certified: BlockInfo, commit: BlockInfo) -> QuorumCert {
    QuorumCert::new(
        VoteData::new(certified, BlockInfo::empty()),
        LedgerInfoWithSignatures::new(LedgerInfo::new(commit, HashValue::zero()), Vec::new()),
    )
}

fn executed(id: u128, round: u64, parent: u128) -> ExecutedBlock {
    let block = Block {
        id: h(id),
        epoch: 1,
        round,
        timestamp_usecs: round * 100,
        parent_id: h(parent),
        quorum_cert: Arc::new(certificate(BlockInfo::empty(), BlockInfo::empty())),
        block_type: BlockType::NilBlock,
    };
    let output = ProcessedVMOutput::new(Vec::new(), ExecutedTrees::new(h(id), h(id + 1), round + 1), None);
    ExecutedBlock::new(block, output)
}

fn tree_with_root(max_pruned_blocks_in_mem: usize) -> BlockTree {
    let root = executed(100, 1, 99);
    let info = root.block_info();
    BlockTree::new(
        root,
        certificate(info, info),
        certificate(info, info),
        max_pruned_blocks_in_mem,
        None,
    )
}

fn ids(blocks: &[Arc<ExecutedBlock>]) -> Vec<HashValue> {
    blocks.iter().map(|b| b.id()).collect()
}

#[test]
fn block_needs_its_parent() {
    let mut tree = tree_with_root(10);
    let r = tree.insert_block(executed(2, 3, 1));
    assert_eq!(r.err(), Some(Error::BlockNotFound(h(1))));
    assert_eq!(tree.len(), 1);
    tree.insert_block(executed(1, 2, 100)).unwrap();
    tree.insert_block(executed(2, 3, 1)).unwrap();
    assert_eq!(tree.len(), 3);
    assert_eq!(tree.child_links(), 2);
    assert_eq!(tree.get_all_block_id(), vec![h(100), h(1), h(2)]);
}

#[test]
fn inserting_twice_returns_the_same_handle() {
    let mut tree = tree_with_root(10);
    let first = tree.insert_block(executed(1, 2, 100)).unwrap();
    let second = tree.insert_block(executed(1, 2, 100)).unwrap();
    assert!(Arc::ptr_eq(&first, &second));
    assert!(Arc::ptr_eq(&first, &tree.get_block(&h(1)).unwrap()));
    assert_eq!(tree.len(), 2);
}

#[test]
fn shared_blocks_are_kept_under_their_handle() {
    let root = Arc::new(executed(100, 1, 99));
    let qc = Arc::new(certificate(root.block_info(), root.block_info()));
    let mut tree = BlockTree::new_shared(root.clone(), qc.clone(), qc.clone(), 3, None);
    assert!(Arc::ptr_eq(&tree.root(), &root));
    assert!(Arc::ptr_eq(&tree.highest_quorum_cert(), &qc));
    assert!(Arc::ptr_eq(&tree.highest_ledger_info(), &qc));
    assert_eq!(tree.max_pruned_blocks_in_mem(), 3);
    let child = Arc::new(executed(1, 2, 100));
    let kept = tree.insert_shared_block(child.clone()).unwrap();
    assert!(Arc::ptr_eq(&kept, &child));
    assert!(Arc::ptr_eq(&tree.get_block(&h(1)).unwrap(), &child));
    // the same id again: the first handle stays
    let again = tree.insert_shared_block(Arc::new(executed(1, 2, 100))).unwrap();
    assert!(Arc::ptr_eq(&again, &child));
    assert_eq!(
        tree.insert_shared_block(Arc::new(executed(3, 4, 2))).err(),
        Some(Error::BlockNotFound(h(2)))
    );
    assert_eq!(tree.len(), 2);
}

#[test]
fn path_runs_from_below_the_root_to_the_block() {
    let mut tree = tree_with_root(10);
    tree.insert_block(executed(1, 2, 100)).unwrap();
    tree.insert_block(executed(2, 3, 1)).unwrap();
    tree.insert_block(executed(3, 4, 2)).unwrap();
    tree.insert_block(executed(4, 3, 1)).unwrap();
    assert_eq!(ids(&tree.path_from_root(h(100)).unwrap()), Vec::<HashValue>::new());
    assert_eq!(ids(&tree.path_from_root(h(1)).unwrap()), vec![h(1)]);
    assert_eq!(ids(&tree.path_from_root(h(3)).unwrap()), vec![h(1), h(2), h(3)]);
    assert_eq!(ids(&tree.path_from_root(h(4)).unwrap()), vec![h(1), h(4)]);
    assert!(tree.path_from_root(h(5)).is_none());
    assert_eq!(tree.root().id(), h(100));
    assert_eq!(tree.root_id(), h(100));
}

/// root -> a -> a1, a2 ; root -> b -> b1 ; inserted a, a1, b, b1, a2
fn two_branches(max_pruned_blocks_in_mem: usize) -> BlockTree {
    let mut tree = tree_with_root(max_pruned_blocks_in_mem);
    tree.insert_block(executed(10, 2, 100)).unwrap(); // a
    tree.insert_block(executed(11, 3, 10)).unwrap(); // a1
    tree.insert_block(executed(20, 2, 100)).unwrap(); // b
    tree.insert_block(executed(21, 3, 20)).unwrap(); // b1
    tree.insert_block(executed(12, 3, 10)).unwrap(); // a2
    tree
}

#[test]
fn pruning_goes_breadth_first_with_children_in_insertion_order() {
    let tree = two_branches(10);
    // nothing is below an id that is not in the tree: everything would go
    assert_eq!(
        tree.find_blocks_to_prune(h(999)),
        vec![h(100), h(10), h(20), h(11), h(12), h(21)]
    );
    assert_eq!(tree.find_blocks_to_prune(h(100)), Vec::<HashValue>::new());
    assert_eq!(tree.find_blocks_to_prune(h(10)), vec![h(100), h(20), h(21)]);
    assert_eq!(tree.find_blocks_to_prune(h(20)), vec![h(100), h(10), h(11), h(12)]);
    assert_eq!(
        tree.find_blocks_to_prune(h(12)),
        vec![h(100), h(10), h(20), h(11), h(21)]
    );
}

#[test]
fn pruning_keeps_the_subtree_in_its_order() {
    let mut tree = two_branches(10);
    let pruned = tree.find_blocks_to_prune(h(10));
    tree.process_pruned_blocks(h(10), pruned);
    assert_eq!(tree.root_id(), h(10));
    assert_eq!(tree.get_all_block_id(), vec![h(10), h(11), h(12)]);
    assert_eq!(tree.pruned_blocks_in_mem(), 3);
    assert!(!tree.block_exists(&h(100)));
    assert!(!tree.block_exists(&h(21)));
    assert_eq!(ids(&tree.path_from_root(h(12)).unwrap()), vec![h(12)]);
    // children can still be added below what stayed
    tree.insert_block(executed(13, 4, 12)).unwrap();
    assert_eq!(tree.find_blocks_to_prune(h(13)), vec![h(10), h(11), h(12)]);
}

#[test]
fn pruned_window_is_bounded() {
    let mut tree = two_branches(4);
    assert_eq!(tree.max_pruned_blocks_in_mem(), 4);
    let first = tree.find_blocks_to_prune(h(10));
    assert_eq!(first.len(), 3);
    tree.process_pruned_blocks(h(10), first);
    assert_eq!(tree.pruned_blocks_in_mem(), 3);
    assert_eq!(tree.pruned_ids(), vec![h(100), h(20), h(21)]);
    let second = tree.find_blocks_to_prune(h(12));
    assert_eq!(second, vec![h(10), h(11)]);
    tree.process_pruned_blocks(h(12), second);
    assert_eq!(tree.pruned_blocks_in_mem(), 4);
    assert_eq!(tree.pruned_ids(), vec![h(20), h(21), h(10), h(11)]);
    assert_eq!(tree.len(), 1);
}

#[test]
fn certificate_for_an_absent_block_is_inconsistent() {
    let mut tree = tree_with_root(10);
    let info = executed(1, 2, 100).block_info();
    let qc = Arc::new(certificate(info, BlockInfo::empty()));
    assert_eq!(tree.verify_quorum_cert(&qc), Err(Error::InconsistentBlockInfo));
    assert_eq!(tree.insert_quorum_cert(qc), Err(Error::InconsistentBlockInfo));
}

#[test]
fn certificate_is_tested_against_the_block() {
    let mut tree = tree_with_root(10);
    let b = tree.insert_block(executed(1, 2, 100)).unwrap();
    let mut diverged = b.block_info();
    diverged.executed_state_id = h(77);
    diverged.round = 9;
    assert_eq!(
        tree.insert_quorum_cert(Arc::new(certificate(diverged, BlockInfo::empty()))),
        Err(Error::ExecutionDivergence)
    );
    let mut later = b.block_info();
    later.timestamp_usecs += 1;
    assert_eq!(
        tree.insert_quorum_cert(Arc::new(certificate(later, BlockInfo::empty()))),
        Err(Error::InconsistentBlockInfo)
    );
    assert_eq!(
        tree.insert_quorum_cert(Arc::new(certificate(b.block_info(), BlockInfo::empty()))),
        Ok(())
    );
    assert_eq!(tree.highest_quorum_cert().certified_block(), b.block_info());
    assert_eq!(tree.highest_certified_block().unwrap().id(), h(1));
}

#[test]
fn first_certificate_for_a_block_stays() {
    let mut tree = tree_with_root(10);
    let b = tree.insert_block(executed(1, 2, 100)).unwrap();
    let first = Arc::new(certificate(b.block_info(), BlockInfo::empty()));
    let commit = executed(100, 1, 99).block_info();
    let second = Arc::new(certificate(b.block_info(), BlockInfo::new(1, 5, h(1), h(2), 2, 200, None)));
    tree.insert_quorum_cert(first.clone()).unwrap();
    tree.insert_quorum_cert(second.clone()).unwrap();
    assert!(Arc::ptr_eq(&tree.get_quorum_cert_for_block(&h(1)).unwrap(), &first));
    assert!(Arc::ptr_eq(&tree.highest_quorum_cert(), &first));
    // the second one commits a higher round: it is the highest commit decision
    assert!(Arc::ptr_eq(&tree.highest_ledger_info(), &second));
    assert_eq!(commit.round, 1);
}

#[test]
fn equal_rounds_do_not_move_the_highest_certificate() {
    let mut tree = tree_with_root(10);
    let a = tree.insert_block(executed(1, 2, 100)).unwrap();
    let b = tree.insert_block(executed(2, 2, 100)).unwrap();
    let for_a = Arc::new(certificate(a.block_info(), BlockInfo::empty()));
    tree.insert_quorum_cert(for_a.clone()).unwrap();
    tree.insert_quorum_cert(Arc::new(certificate(b.block_info(), BlockInfo::empty()))).unwrap();
    assert!(Arc::ptr_eq(&tree.highest_quorum_cert(), &for_a));
    assert!(tree.get_quorum_cert_for_block(&h(2)).is_some());
}

#[test]
fn timeout_certificate_only_moves_up() {
    let mut tree = tree_with_root(10);
    let tc = |round: u64| Arc::new(TimeoutCertificate::new(Timeout { epoch: 1, round }, Vec::new()));
    assert!(tree.replace_timeout_cert(tc(5)));
    assert!(!tree.replace_timeout_cert(tc(5)));
    assert!(!tree.replace_timeout_cert(tc(4)));
    assert_eq!(tree.highest_timeout_cert().unwrap().round(), 5);
    assert!(tree.replace_timeout_cert(tc(6)));
    assert_eq!(tree.highest_timeout_cert().unwrap().round(), 6);
}

#[test]
fn votes_pass_through_the_tree() {
    let mut tree = tree_with_root(10);
    let author = AccountAddress::new(1, 1);
    let info = executed(1, 2, 100).block_info();
    let vote = Vote::new(
        VoteData::new(info, BlockInfo::empty()),
        author,
        LedgerInfo::new(BlockInfo::empty(), HashValue::zero()),
        Signature::new(h(1), h(2)),
    );
    let verifier = ValidatorVerifier::new_single(author);
    match tree.insert_vote(&vote, &verifier) {
        VoteReceptionResult::NewQuorumCertificate(qc) => {
            assert_eq!(qc.certified_block(), info);
            // the certificate is returned, not stored
            assert!(tree.get_quorum_cert_for_block(&h(1)).is_none());
            assert_eq!(tree.highest_quorum_cert().certified_block().id, h(100));
        }
        _ => panic!("one validator makes the quorum"),
    }
    assert!(matches!(
        tree.insert_vote(&vote, &verifier),
        VoteReceptionResult::DuplicateVote
    ));
}
