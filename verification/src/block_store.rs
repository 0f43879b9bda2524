//! The block store: the block tree with the rules under which blocks, certificates
//! and commits are taken in. It is the sequential core; the caller executes blocks,
//! writes to storage and holds the lock, and hands the outcomes in.
//!
//! A store is built, or rebuilt, only from what is free of inconsistencies. Whether
//! it is, `root_fault` and `recovery_fault` say; an inconsistency they name must stop
//! the validator before `root_block`, `new` or `rebuild` is called.

use vstd::prelude::*;
use std::sync::Arc;
use crate::block::{Block, ExecutedBlock, QuorumCert, TimeoutCertificate};
use crate::block_info::{BlockInfo, LedgerInfoWithSignatures, ValidatorSet};
use crate::block_tree::{
    blocks_of, certificates_after_insert, certs_of, share, BlockTree, Certificates,
};
use crate::error::{Error, FatalKind, InvalidBlockKind};
use crate::executor::{ExecutedTrees, ProcessedVMOutput, TransactionData};
use crate::hash_value::HashValue;
use crate::pending_votes::{reception_result, votes_after_insert, VoteReceptionResult};
use crate::round_order::{
    first_lowest, law_order_is_ordered, law_ordered_stays, lemma_ordered_by, ordered_by,
};
use crate::tree_model::{
    blocks_after_insert, blocks_to_prune, has_block, has_cert_for, index_of,
    lemma_round_above_root, lemma_stale_ids, lemma_subtree, newest, path_to, retain_certs,
    rooted_tree, stale_ids, subtree,
};
use crate::validator_verifier::ValidatorVerifier;
use crate::vote::Vote;

verus! {

/// Why the certificate for the root does not fit the committed state, if it does
/// not.
pub open spec fn root_verdict(root_qc: QuorumCert, committed: ExecutedTrees) -> Option<FatalKind> {
    let certified = root_qc.spec_certified_block();
    let version = match committed.spec_version() {
        Some(v) => v,
        None => 0,
    };
    if certified.version != version {
        Some(FatalKind::RootVersionMismatch)
    } else if certified.executed_state_id != committed.accumulator_root {
        Some(FatalKind::RootStateMismatch)
    } else {
        None
    }
}

/// `root` is `block` with the committed state as its outcome: no transactions, the
/// committed trees, and the next validator set that the root certificate names.
pub open spec fn is_root_of(
    root: ExecutedBlock,
    block: Block,
    root_qc: QuorumCert,
    committed: ExecutedTrees,
) -> bool {
    &&& root.block == block
    &&& root.output.spec_transaction_data() == Seq::<TransactionData>::empty()
    &&& root.output.spec_executed_trees() == committed
    &&& root.output.spec_validators() == root_qc.spec_certified_block().next_validator_set
}

/// Some certificate of `qcs` certifies the block of `b` with another state than the
/// one `b` was executed to.
pub open spec fn certified_state_differs(qcs: Seq<QuorumCert>, b: ExecutedBlock) -> bool {
    exists|k: int|
        0 <= k < qcs.len() && (#[trigger] qcs[k]).spec_certified_block().id == b.spec_id()
            && qcs[k].spec_certified_block().executed_state_id
            != b.output.spec_executed_trees().accumulator_root
}

/// Why a recovered block cannot go below the blocks recovered so far, if it cannot.
pub open spec fn recovered_block_verdict(
    blocks: Seq<ExecutedBlock>,
    b: ExecutedBlock,
    qcs: Seq<QuorumCert>,
) -> Option<FatalKind> {
    if b.block.spec_is_genesis_block() {
        Some(FatalKind::UnexpectedGenesis)
    } else if !has_block(blocks, b.spec_parent_id()) {
        Some(FatalKind::MissingParent)
    } else if certified_state_differs(qcs, b) {
        Some(FatalKind::ExecutionDivergence)
    } else {
        let parent = blocks[index_of(blocks, b.spec_parent_id())];
        if !has_block(blocks, b.spec_id()) && !(parent.spec_round() < b.spec_round()
            && parent.spec_timestamp_usecs() < b.spec_timestamp_usecs()) {
            Some(FatalKind::InvalidBlock)
        } else {
            None
        }
    }
}

/// The blocks of the tree after the first `n` recovered blocks went in below the
/// root, or the first inconsistency met.
pub open spec fn recovered_blocks(
    root: ExecutedBlock,
    inputs: Seq<ExecutedBlock>,
    qcs: Seq<QuorumCert>,
    n: int,
) -> Result<Seq<ExecutedBlock>, FatalKind>
    decreases n,
{
    if n <= 0 {
        Ok(seq![root])
    } else {
        match recovered_blocks(root, inputs, qcs, n - 1) {
            Err(k) => Err(k),
            Ok(blocks) => match recovered_block_verdict(blocks, inputs[n - 1], qcs) {
                Some(k) => Err(k),
                None => Ok(blocks_after_insert(blocks, inputs[n - 1])),
            },
        }
    }
}

/// The block at `i` is the first with the id `id`.
pub open spec fn is_first_with_id(blocks: Seq<ExecutedBlock>, id: HashValue, i: int) -> bool {
    &&& 0 <= i < blocks.len()
    &&& blocks[i].spec_id() == id
    &&& forall|j: int| 0 <= j < i ==> (#[trigger] blocks[j]).spec_id() != id
}

/// The round of an executed block.
pub open spec fn executed_round() -> spec_fn(ExecutedBlock) -> u64 {
    |b: ExecutedBlock| b.spec_round()
}

/// The round of a block.
pub open spec fn block_round() -> spec_fn(Block) -> u64 {
    |b: Block| b.round
}

/// The executed blocks in the order of their rounds; blocks of the same round keep
/// their order. A parent has a lower round than its child, so it comes first.
pub open spec fn by_round(blocks: Seq<ExecutedBlock>) -> Seq<ExecutedBlock> {
    ordered_by(blocks, executed_round())
}

/// The blocks in the order of their rounds; blocks of the same round keep their
/// order.
pub open spec fn blocks_by_round(blocks: Seq<Block>) -> Seq<Block> {
    ordered_by(blocks, block_round())
}

/// Blocks that were ordered by round and then executed one by one are in the order
/// in which recovery puts them into the tree.
pub proof fn law_executed_in_order(blocks: Seq<Block>, executed: Seq<ExecutedBlock>)
    requires
        executed.len() == blocks.len(),
        forall|i: int|
            0 <= i < executed.len() ==> (#[trigger] executed[i]).block == blocks_by_round(
                blocks,
            )[i],
    ensures
        by_round(executed) == executed,
{
    lemma_ordered_by(blocks, block_round());
    law_order_is_ordered(blocks, block_round());
    assert forall|i: int, j: int| 0 <= i < j < executed.len() implies executed_round()(
        #[trigger] executed[i],
    ) <= executed_round()(#[trigger] executed[j]) by {
        assert(executed[i].block == blocks_by_round(blocks)[i]);
        assert(executed[j].block == blocks_by_round(blocks)[j]);
        assert(block_round()(blocks_by_round(blocks)[i]) <= block_round()(
            blocks_by_round(blocks)[j],
        ));
    }
    law_ordered_stays(executed, executed_round());
}

/// Why a recovered certificate does not fit the recovered blocks, if it does not.
pub open spec fn recovered_cert_verdict(blocks: Seq<ExecutedBlock>, qc: QuorumCert) -> Option<
    FatalKind,
> {
    match BlockTree::quorum_cert_verdict(blocks, qc) {
        Ok(()) => None,
        Err(Error::ExecutionDivergence) => Some(FatalKind::ExecutionDivergence),
        Err(_) => Some(FatalKind::InvalidQuorumCert),
    }
}

/// The certificates of the tree after the first `n` recovered certificates went in,
/// or the first inconsistency met.
pub open spec fn recovered_certs(
    blocks: Seq<ExecutedBlock>,
    start: Certificates,
    qcs: Seq<QuorumCert>,
    n: int,
) -> Result<Certificates, FatalKind>
    decreases n,
{
    if n <= 0 {
        Ok(start)
    } else {
        match recovered_certs(blocks, start, qcs, n - 1) {
            Err(k) => Err(k),
            Ok(certs) => match recovered_cert_verdict(blocks, qcs[n - 1]) {
                Some(k) => Err(k),
                None => Ok(certificates_after_insert(certs, qcs[n - 1])),
            },
        }
    }
}

/// What becomes of a tree that holds `root` alone with the certificates `start`
/// when the recovered blocks go in one by one in the order of their rounds, each
/// below its parent, and then the certificates one by one: the blocks and the
/// certificates of the tree, or the first inconsistency.
pub open spec fn filled(
    root: ExecutedBlock,
    start: Certificates,
    inputs: Seq<ExecutedBlock>,
    qcs: Seq<QuorumCert>,
) -> Result<(Seq<ExecutedBlock>, Certificates), FatalKind> {
    match recovered_blocks(root, by_round(inputs), qcs, inputs.len() as int) {
        Err(k) => Err(k),
        Ok(blocks) => match recovered_certs(blocks, start, qcs, qcs.len() as int) {
            Err(k) => Err(k),
            Ok(certs) => Ok((blocks, certs)),
        },
    }
}

/// What recovery makes of its inputs: the blocks and the certificates of the tree,
/// or the first inconsistency. The root certificate must fit the root; then the
/// tree with the root alone is filled.
pub open spec fn recovery_outcome(
    root: ExecutedBlock,
    root_qc: QuorumCert,
    root_li: QuorumCert,
    inputs: Seq<ExecutedBlock>,
    qcs: Seq<QuorumCert>,
) -> Result<(Seq<ExecutedBlock>, Certificates), FatalKind> {
    if root_qc.spec_certified_block() != root.spec_block_info() {
        Err(FatalKind::InvalidQuorumCert)
    } else {
        filled(
            root,
            Certificates {
                stored: seq![root_qc],
                highest_quorum_cert: root_qc,
                highest_ledger_info: root_li,
            },
            inputs,
            qcs,
        )
    }
}

/// The inconsistency that stops recovery, if there is one.
pub open spec fn recovery_fault_of(
    root: ExecutedBlock,
    root_qc: QuorumCert,
    root_li: QuorumCert,
    inputs: Seq<ExecutedBlock>,
    qcs: Seq<QuorumCert>,
) -> Option<FatalKind> {
    match recovery_outcome(root, root_qc, root_li, inputs, qcs) {
        Ok(_) => None,
        Err(k) => Some(k),
    }
}

/// An inconsistency met among the first blocks stays the outcome for all of them.
pub proof fn lemma_recovered_blocks_fail(
    root: ExecutedBlock,
    inputs: Seq<ExecutedBlock>,
    qcs: Seq<QuorumCert>,
    k: int,
    n: int,
)
    requires
        0 <= k <= n,
        recovered_blocks(root, inputs, qcs, k) is Err,
    ensures
        recovered_blocks(root, inputs, qcs, n) == recovered_blocks(root, inputs, qcs, k),
    decreases n,
{
    if k < n {
        lemma_recovered_blocks_fail(root, inputs, qcs, k, n - 1);
    }
}

/// An inconsistency met among the first certificates stays the outcome for all of
/// them.
pub proof fn lemma_recovered_certs_fail(
    blocks: Seq<ExecutedBlock>,
    start: Certificates,
    qcs: Seq<QuorumCert>,
    k: int,
    n: int,
)
    requires
        0 <= k <= n,
        recovered_certs(blocks, start, qcs, k) is Err,
    ensures
        recovered_certs(blocks, start, qcs, n) == recovered_certs(blocks, start, qcs, k),
    decreases n,
{
    if k < n {
        lemma_recovered_certs_fail(blocks, start, qcs, k, n - 1);
    }
}

/// What the store says of a block against its parent; the tests are made in this
/// order: the round is above the root's, the parent is present, the round is above
/// the parent's, the timestamp is above the parent's.
pub open spec fn parent_verdict(blocks: Seq<ExecutedBlock>, block: Block) -> Result<(), Error> {
    if blocks[0].spec_round() >= block.round {
        Err(Error::InvalidBlock(InvalidBlockKind::OldRound))
    } else if !has_block(blocks, block.parent_id) {
        Err(Error::InvalidBlock(InvalidBlockKind::MissingParent))
    } else {
        let parent = blocks[index_of(blocks, block.parent_id)];
        if parent.spec_round() >= block.round {
            Err(Error::InvalidBlock(InvalidBlockKind::InvalidRound))
        } else if block.timestamp_usecs <= parent.spec_timestamp_usecs() {
            Err(Error::InvalidBlock(InvalidBlockKind::NonIncreasingTimestamp))
        } else {
            Ok(())
        }
    }
}

/// The block continues a pending reconfiguration: its parent is not the root and
/// changes the validator set.
pub open spec fn is_reconfiguration_suffix(blocks: Seq<ExecutedBlock>, block: Block) -> bool {
    &&& has_block(blocks, block.parent_id)
    &&& blocks[index_of(blocks, block.parent_id)].spec_id() != blocks[0].spec_id()
    &&& blocks[index_of(blocks, block.parent_id)].spec_has_reconfiguration()
}

/// Whether the block can be executed below its parent. `computed` says whether the
/// state computer delivered an outcome; it is not asked for a block that continues a
/// pending reconfiguration, which must be empty.
pub open spec fn execution_verdict(
    blocks: Seq<ExecutedBlock>,
    block: Block,
    computed: bool,
) -> Result<(), Error> {
    match parent_verdict(blocks, block) {
        Err(e) => Err(e),
        Ok(()) => if is_reconfiguration_suffix(blocks, block) {
            if block.spec_has_empty_payload() {
                Ok(())
            } else {
                Err(Error::Fatal(FatalKind::ReconfigurationSuffixPayload))
            }
        } else if computed {
            Ok(())
        } else {
            Err(Error::ExecutionError)
        },
    }
}

/// `executed` is `block` with the outcome that the store gives it: below a pending
/// reconfiguration the trees and the next validator set of the parent, without
/// transactions; otherwise what the state computer delivered.
pub open spec fn is_execution_of(
    executed: ExecutedBlock,
    blocks: Seq<ExecutedBlock>,
    block: Block,
    computed: Option<ProcessedVMOutput>,
) -> bool {
    &&& executed.block == block
    &&& if is_reconfiguration_suffix(blocks, block) {
        let parent = blocks[index_of(blocks, block.parent_id)];
        &&& executed.output.spec_transaction_data() == Seq::<TransactionData>::empty()
        &&& executed.output.spec_executed_trees() == parent.output.spec_executed_trees()
        &&& executed.output.spec_validators() == parent.output.spec_validators()
    } else {
        computed == Some(executed.output)
    }
}

/// What the store says of a certificate before it takes it in: the certified block
/// must be present, and then the tree decides.
pub open spec fn store_cert_verdict(blocks: Seq<ExecutedBlock>, qc: QuorumCert) -> Result<(), Error> {
    if !has_block(blocks, qc.spec_certified_block().id) {
        Err(Error::MissingBlock(qc.spec_certified_block().id))
    } else {
        BlockTree::quorum_cert_verdict(blocks, qc)
    }
}

/// What the store says of a commit for the block `id`.
pub open spec fn commit_verdict(blocks: Seq<ExecutedBlock>, id: HashValue) -> Result<(), Error> {
    if !has_block(blocks, id) {
        Err(Error::BlockNotFound(id))
    } else if blocks[index_of(blocks, id)].spec_round() <= blocks[0].spec_round() {
        Err(Error::StaleCommit)
    } else {
        Ok(())
    }
}

/// Once a tree is rebuilt, the commit that is due brings the root to the round of
/// the highest commit decision, provided the decision names a block of the tree by
/// id and round. Where no commit is due, the root is at that round already.
pub proof fn law_commit_after_rebuild(blocks: Seq<ExecutedBlock>, decision: BlockInfo)
    requires
        rooted_tree(blocks),
        has_block(blocks, decision.id),
        blocks[index_of(blocks, decision.id)].spec_round() == decision.round,
    ensures
        decision.round > blocks[0].spec_round() ==> commit_verdict(blocks, decision.id) is Ok
            && subtree(blocks, decision.id)[0].spec_round() == decision.round,
        decision.round <= blocks[0].spec_round() ==> blocks[0].spec_round() == decision.round,
{
    let i = index_of(blocks, decision.id);
    if i >= 1 {
        lemma_round_above_root(blocks, i);
    }
    lemma_subtree(blocks, decision.id);
}

/// What the caller has to do before a block can go in.
pub enum ExecutionInput {
    /// The block is in the store already: nothing is to be done.
    Known(Arc<ExecutedBlock>),
    /// The block continues a pending reconfiguration: the state computer is not
    /// asked.
    Suffix,
    /// The state computer is to execute the block on these trees, those of the
    /// parent.
    Compute(ExecutedTrees),
}

/// The block store: what a validator holds in memory above its last commit.
pub struct BlockStore {
    inner: BlockTree,
}

impl BlockStore {
    /// The tree that the store holds.
    pub closed spec fn tree(&self) -> BlockTree {
        self.inner
    }

    /// What holds of the store between any two operations: what holds of its tree.
    pub open spec fn wf(&self) -> bool {
        self.tree().wf()
    }

    /// Why the root certificate does not fit the committed state, if it does not:
    /// it names another version, or another state.
    pub fn root_fault(root_qc: &QuorumCert, committed_trees: ExecutedTrees) -> (r: Option<FatalKind>)
        ensures
            r == root_verdict(*root_qc, committed_trees),
    {
        let certified = root_qc.certified_block();
        let committed_version: u64 = match committed_trees.version() {
            Some(v) => v,
            None => 0,
        };
        if certified.version != committed_version {
            Some(FatalKind::RootVersionMismatch)
        } else if certified.executed_state_id != committed_trees.state_id() {
            Some(FatalKind::RootStateMismatch)
        } else {
            None
        }
    }

    /// The root block as recovery sets it up: the committed state stands for its
    /// outcome, nothing is executed. The root certificate must fit the committed
    /// state.
    pub fn root_block(root_block: Block, root_qc: &QuorumCert, committed_trees: ExecutedTrees) -> (root:
        ExecutedBlock)
        requires
            root_verdict(*root_qc, committed_trees) is None,
        ensures
            is_root_of(root, root_block, *root_qc, committed_trees),
    {
        let root_output = ProcessedVMOutput::new(
            Vec::new(),
            committed_trees,
            root_qc.certified_block().next_validator_set,
        );
        ExecutedBlock::new(root_block, root_output)
    }

    /// The blocks in the order of their rounds, as recovery executes them and puts
    /// them into the tree; blocks of the same round keep their order.
    pub fn order_by_round(blocks: Vec<Block>) -> (ordered: Vec<Block>)
        ensures
            ordered@ == blocks_by_round(blocks@),
    {
        let ghost inputs = blocks@;
        let mut rest = blocks;
        let mut ordered: Vec<Block> = Vec::new();
        proof {
            assert(ordered@ + blocks_by_round(rest@) =~= blocks_by_round(inputs));
        }
        while rest.len() > 0
            invariant
                ordered@ + blocks_by_round(rest@) == blocks_by_round(inputs),
            decreases rest.len(),
        {
            let ghost before = rest@;
            let ghost done = ordered@;
            let mut lowest: usize = 0;
            let mut k: usize = 1;
            while k < rest.len()
                invariant
                    1 <= k <= rest.len(),
                    lowest < k,
                    lowest == first_lowest(rest@, block_round(), k as int),
                decreases rest.len() - k,
            {
                if rest[k].round < rest[lowest].round {
                    lowest = k;
                }
                k += 1;
            }
            let block = rest.remove(lowest);
            ordered.push(block);
            proof {
                lemma_ordered_by(before, block_round());
                assert(ordered@ + blocks_by_round(rest@) =~= done + blocks_by_round(before));
            }
        }
        proof {
            assert(ordered@ + blocks_by_round(rest@) =~= ordered@);
        }
        ordered
    }

    /// The trees on which a recovered block is to be executed again: those of its
    /// parent, which is the root or the first of the blocks executed so far with that
    /// id. Nothing where the parent is not among them.
    pub fn recovered_parent_trees(
        root: &ExecutedBlock,
        executed: &Vec<Arc<ExecutedBlock>>,
        block: &Block,
    ) -> (r: Option<ExecutedTrees>)
        ensures
            r.is_some() == has_block(seq![*root] + blocks_of(executed@), block.parent_id),
            r matches Some(trees) ==> exists|i: int|
                #[trigger] is_first_with_id(
                    seq![*root] + blocks_of(executed@),
                    block.parent_id,
                    i,
                ) && (seq![*root] + blocks_of(executed@))[i].spec_executed_trees() == trees,
    {
        let ghost known = seq![*root] + blocks_of(executed@);
        if root.id() == block.parent_id {
            proof {
                assert(known[0] == *root);
                assert(is_first_with_id(known, block.parent_id, 0));
            }
            return Some(root.executed_trees());
        }
        let mut i: usize = 0;
        while i < executed.len()
            invariant
                i <= executed.len(),
                known == seq![*root] + blocks_of(executed@),
                forall|j: int| 0 <= j < i + 1 ==> (#[trigger] known[j]).spec_id() != block.parent_id,
            decreases executed.len() - i,
        {
            if executed[i].id() == block.parent_id {
                proof {
                    assert(known[i + 1] == *executed@[i as int]);
                    assert(is_first_with_id(known, block.parent_id, i + 1));
                }
                return Some(executed[i].executed_trees());
            }
            i += 1;
            proof {
                assert(known[i as int] == *executed@[i - 1]);
            }
        }
        None
    }

    /// Where the first block with the lowest round stands.
    fn first_lowest_round(blocks: &Vec<Arc<ExecutedBlock>>) -> (m: usize)
        requires
            blocks.len() > 0,
        ensures
            m == first_lowest(blocks_of(blocks@), executed_round(), blocks@.len() as int),
            m < blocks.len(),
    {
        let mut m: usize = 0;
        let mut k: usize = 1;
        while k < blocks.len()
            invariant
                1 <= k <= blocks.len(),
                m < k,
                m == first_lowest(blocks_of(blocks@), executed_round(), k as int),
            decreases blocks.len() - k,
        {
            if blocks[k].round() < blocks[m].round() {
                m = k;
            }
            k += 1;
        }
        m
    }

    /// Whether some certificate certifies the block with another state than the one
    /// it was executed to.
    fn has_diverging_cert(quorum_certs: &Vec<Arc<QuorumCert>>, block: &ExecutedBlock) -> (r: bool)
        ensures
            r == certified_state_differs(certs_of(quorum_certs@), *block),
    {
        let id = block.id();
        let state_id = block.output().accu_root();
        let mut k: usize = 0;
        while k < quorum_certs.len()
            invariant
                k <= quorum_certs.len(),
                id == block.spec_id(),
                state_id == block.output.spec_executed_trees().accumulator_root,
                forall|l: int|
                    0 <= l < k ==> !((#[trigger] certs_of(quorum_certs@)[l]).spec_certified_block().id
                        == id && certs_of(quorum_certs@)[l].spec_certified_block().executed_state_id
                        != state_id),
            decreases quorum_certs.len() - k,
        {
            let certified = quorum_certs[k].certified_block();
            if certified.id == id && certified.executed_state_id != state_id {
                proof {
                    assert(certs_of(quorum_certs@)[k as int].spec_certified_block().id == id);
                }
                return true;
            }
            k += 1;
        }
        false
    }

    /// Other handles to the same blocks.
    fn share_all(blocks: &Vec<Arc<ExecutedBlock>>) -> (r: Vec<Arc<ExecutedBlock>>)
        ensures
            r@ == blocks@,
    {
        let mut r: Vec<Arc<ExecutedBlock>> = Vec::new();
        let mut i: usize = 0;
        while i < blocks.len()
            invariant
                i <= blocks.len(),
                r@ == blocks@.subrange(0, i as int),
            decreases blocks.len() - i,
        {
            r.push(share(&blocks[i]));
            i += 1;
            proof {
                assert(r@ =~= blocks@.subrange(0, i as int));
            }
        }
        proof {
            assert(blocks@.subrange(0, i as int) =~= blocks@);
        }
        r
    }

    /// Fills a tree that holds its root alone: the recovered blocks go in by round,
    /// then the certificates. It stops at the first inconsistency and names it; the
    /// tree that comes back with a fault is of no use.
    fn fill(
        initial: BlockTree,
        blocks: &Vec<Arc<ExecutedBlock>>,
        quorum_certs: &Vec<Arc<QuorumCert>>,
    ) -> (r: (BlockTree, Option<FatalKind>))
        requires
            initial.wf(),
            initial.blocks().len() == 1,
        ensures
            r.0.wf(),
            r.0.spec_highest_timeout_cert() == initial.spec_highest_timeout_cert(),
            r.0.pruned_block_ids() == initial.pruned_block_ids(),
            r.0.spec_max_pruned_blocks_in_mem() == initial.spec_max_pruned_blocks_in_mem(),
            r.0.pending_votes() == initial.pending_votes(),
            match filled(
                initial.blocks()[0],
                initial.certificates(),
                blocks_of(blocks@),
                certs_of(quorum_certs@),
            ) {
                Ok((tree_blocks, certs)) => {
                    &&& r.1 is None
                    &&& r.0.blocks() == tree_blocks
                    &&& r.0.certificates() == certs
                },
                Err(k) => r.1 == Some(k),
            },
    {
        let ghost root = initial.blocks()[0];
        let ghost start = initial.certificates();
        let ghost inputs = blocks_of(blocks@);
        let ghost qcs = certs_of(quorum_certs@);
        let ghost n = inputs.len() as int;
        let ghost ordered = by_round(inputs);
        let mut tree = initial;
        let mut rest = Self::share_all(blocks);
        let ghost mut i: int = 0;
        proof {
            lemma_ordered_by(inputs, executed_round());
            assert(tree.blocks() =~= seq![root]);
            assert(ordered.subrange(0, n) =~= ordered);
        }
        while rest.len() > 0
            invariant
                0 <= i <= n,
                n == inputs.len(),
                n == ordered.len(),
                inputs == blocks_of(blocks@),
                ordered == by_round(inputs),
                initial.blocks().len() == 1,
                root == initial.blocks()[0],
                start == initial.certificates(),
                ordered.subrange(i, n) == by_round(blocks_of(rest@)),
                qcs == certs_of(quorum_certs@),
                tree.wf(),
                recovered_blocks(root, ordered, qcs, i) == Ok::<Seq<ExecutedBlock>, FatalKind>(
                    tree.blocks(),
                ),
                tree.certificates() == start,
                tree.spec_highest_timeout_cert() == initial.spec_highest_timeout_cert(),
                tree.pruned_block_ids() == initial.pruned_block_ids(),
                tree.spec_max_pruned_blocks_in_mem() == initial.spec_max_pruned_blocks_in_mem(),
                tree.pending_votes() == initial.pending_votes(),
            decreases rest.len(),
        {
            let ghost before = blocks_of(rest@);
            let lowest = Self::first_lowest_round(&rest);
            let block = rest.remove(lowest);
            proof {
                lemma_ordered_by(before, executed_round());
                assert(blocks_of(rest@) =~= before.remove(lowest as int));
                assert(ordered.subrange(i, n)[0] == ordered[i]);
                assert(*block == ordered[i]);
                assert(by_round(before).subrange(1, by_round(before).len() as int) =~= by_round(
                    blocks_of(rest@),
                ));
                assert(ordered.subrange(i + 1, n) =~= by_round(before).subrange(
                    1,
                    by_round(before).len() as int,
                ));
            }
            let verdict: Option<FatalKind> = if block.block().is_genesis_block() {
                Some(FatalKind::UnexpectedGenesis)
            } else {
                match tree.get_block(&block.parent_id()) {
                    None => Some(FatalKind::MissingParent),
                    Some(parent) => {
                        if Self::has_diverging_cert(quorum_certs, &*block) {
                            Some(FatalKind::ExecutionDivergence)
                        } else if !tree.block_exists(&block.id()) && !(parent.round() < block.round()
                            && parent.timestamp_usecs() < block.timestamp_usecs()) {
                            Some(FatalKind::InvalidBlock)
                        } else {
                            None
                        }
                    },
                }
            };
            proof {
                assert(verdict == recovered_block_verdict(tree.blocks(), *block, qcs));
            }
            if let Some(kind) = verdict {
                proof {
                    assert(recovered_blocks(root, ordered, qcs, i + 1) == Err::<
                        Seq<ExecutedBlock>,
                        FatalKind,
                    >(kind));
                    lemma_recovered_blocks_fail(root, ordered, qcs, i + 1, n);
                }
                return (tree, Some(kind));
            }
            let _ = tree.insert_shared_block(block);
            proof {
                i = i + 1;
            }
        }
        let ghost tree_blocks = tree.blocks();
        let mut k: usize = 0;
        while k < quorum_certs.len()
            invariant
                k <= quorum_certs.len(),
                qcs == certs_of(quorum_certs@),
                inputs == blocks_of(blocks@),
                initial.blocks().len() == 1,
                root == initial.blocks()[0],
                start == initial.certificates(),
                recovered_blocks(root, by_round(inputs), qcs, inputs.len() as int) == Ok::<
                    Seq<ExecutedBlock>,
                    FatalKind,
                >(tree_blocks),
                tree.wf(),
                tree.blocks() == tree_blocks,
                recovered_certs(tree_blocks, start, qcs, k as int) == Ok::<Certificates, FatalKind>(
                    tree.certificates(),
                ),
                tree.spec_highest_timeout_cert() == initial.spec_highest_timeout_cert(),
                tree.pruned_block_ids() == initial.pruned_block_ids(),
                tree.spec_max_pruned_blocks_in_mem() == initial.spec_max_pruned_blocks_in_mem(),
                tree.pending_votes() == initial.pending_votes(),
            decreases quorum_certs.len() - k,
        {
            let qc = share(&quorum_certs[k]);
            proof {
                assert(*qc == qcs[k as int]);
            }
            match tree.insert_quorum_cert(qc) {
                Ok(()) => {},
                Err(e) => {
                    let kind = match e {
                        Error::ExecutionDivergence => FatalKind::ExecutionDivergence,
                        _ => FatalKind::InvalidQuorumCert,
                    };
                    proof {
                        assert(recovered_certs(tree_blocks, start, qcs, k + 1) == Err::<
                            Certificates,
                            FatalKind,
                        >(kind));
                        lemma_recovered_certs_fail(
                            tree_blocks,
                            start,
                            qcs,
                            k + 1,
                            qcs.len() as int,
                        );
                    }
                    return (tree, Some(kind));
                },
            }
            k += 1;
        }
        (tree, None)
    }

    /// The inconsistency in what was recovered, if there is one: the first that
    /// building the tree would meet. Wherever this gives nothing, the tree can be
    /// built.
    pub fn recovery_fault(
        root: &Arc<ExecutedBlock>,
        root_qc: &Arc<QuorumCert>,
        root_li: &Arc<QuorumCert>,
        blocks: &Vec<Arc<ExecutedBlock>>,
        quorum_certs: &Vec<Arc<QuorumCert>>,
    ) -> (r: Option<FatalKind>)
        ensures
            r == recovery_fault_of(
                **root,
                **root_qc,
                **root_li,
                blocks_of(blocks@),
                certs_of(quorum_certs@),
            ),
    {
        if root_qc.certified_block() != root.block_info() {
            return Some(FatalKind::InvalidQuorumCert);
        }
        let tree = BlockTree::new_shared(share(root), share(root_qc), share(root_li), 0, None);
        let (_, fault) = Self::fill(tree, blocks, quorum_certs);
        fault
    }

    /// Builds the tree from what was recovered: the root, the blocks above it with
    /// their recomputed outcomes, and the certificates. The blocks go in by round, so
    /// that a parent goes in before its children. What was recovered must be free of
    /// inconsistencies: `recovery_fault` finds none.
    pub fn build_block_tree(
        root: Arc<ExecutedBlock>,
        root_qc: Arc<QuorumCert>,
        root_li: Arc<QuorumCert>,
        blocks: Vec<Arc<ExecutedBlock>>,
        quorum_certs: Vec<Arc<QuorumCert>>,
        highest_timeout_cert: Option<Arc<TimeoutCertificate>>,
        max_pruned_blocks_in_mem: usize,
    ) -> (tree: BlockTree)
        requires
            recovery_outcome(*root, *root_qc, *root_li, blocks_of(blocks@), certs_of(quorum_certs@))
                is Ok,
        ensures
            tree.wf(),
            recovery_outcome(*root, *root_qc, *root_li, blocks_of(blocks@), certs_of(quorum_certs@))
                == Ok::<(Seq<ExecutedBlock>, Certificates), FatalKind>(
                (tree.blocks(), tree.certificates()),
            ),
            tree.spec_highest_timeout_cert() == match highest_timeout_cert {
                Some(tc) => Some(*tc),
                None => None,
            },
            tree.pruned_block_ids() == Seq::<HashValue>::empty(),
            tree.spec_max_pruned_blocks_in_mem() == max_pruned_blocks_in_mem,
            tree.pending_votes() == Seq::<Vote>::empty(),
    {
        let start = BlockTree::new_shared(
            root,
            root_qc,
            root_li,
            max_pruned_blocks_in_mem,
            highest_timeout_cert,
        );
        let (tree, _) = Self::fill(start, &blocks, &quorum_certs);
        tree
    }

    /// The store over the tree built from what was recovered, which must be free of
    /// inconsistencies.
    pub fn new(
        root: Arc<ExecutedBlock>,
        root_qc: Arc<QuorumCert>,
        root_li: Arc<QuorumCert>,
        blocks: Vec<Arc<ExecutedBlock>>,
        quorum_certs: Vec<Arc<QuorumCert>>,
        highest_timeout_cert: Option<Arc<TimeoutCertificate>>,
        max_pruned_blocks_in_mem: usize,
    ) -> (store: BlockStore)
        requires
            recovery_outcome(*root, *root_qc, *root_li, blocks_of(blocks@), certs_of(quorum_certs@))
                is Ok,
        ensures
            store.wf(),
            recovery_outcome(*root, *root_qc, *root_li, blocks_of(blocks@), certs_of(quorum_certs@))
                == Ok::<(Seq<ExecutedBlock>, Certificates), FatalKind>(
                (store.tree().blocks(), store.tree().certificates()),
            ),
            store.tree().spec_highest_timeout_cert() == match highest_timeout_cert {
                Some(tc) => Some(*tc),
                None => None,
            },
            store.tree().pruned_block_ids() == Seq::<HashValue>::empty(),
            store.tree().spec_max_pruned_blocks_in_mem() == max_pruned_blocks_in_mem,
            store.tree().pending_votes() == Seq::<Vote>::empty(),
    {
        BlockStore {
            inner: Self::build_block_tree(
                root,
                root_qc,
                root_li,
                blocks,
                quorum_certs,
                highest_timeout_cert,
                max_pruned_blocks_in_mem,
            ),
        }
    }

    pub fn block_exists(&self, block_id: HashValue) -> (r: bool)
        ensures
            r == has_block(self.tree().blocks(), block_id),
    {
        self.inner.block_exists(&block_id)
    }

    pub fn get_block(&self, block_id: HashValue) -> (r: Option<Arc<ExecutedBlock>>)
        requires
            self.wf(),
        ensures
            r.is_some() == has_block(self.tree().blocks(), block_id),
            r matches Some(b) ==> Some(*b) == self.tree().spec_get_block(block_id),
    {
        self.inner.get_block(&block_id)
    }

    pub fn root(&self) -> (r: Arc<ExecutedBlock>)
        requires
            self.wf(),
        ensures
            *r == self.tree().spec_root(),
    {
        self.inner.root()
    }

    pub fn get_quorum_cert_for_block(&self, block_id: HashValue) -> (r: Option<Arc<QuorumCert>>)
        requires
            self.wf(),
        ensures
            r.is_some() == has_cert_for(self.tree().quorum_certs(), block_id),
            r matches Some(qc) ==> Some(*qc) == self.tree().spec_get_quorum_cert_for_block(
                block_id,
            ),
    {
        self.inner.get_quorum_cert_for_block(&block_id)
    }

    pub fn path_from_root(&self, block_id: HashValue) -> (r: Option<Vec<Arc<ExecutedBlock>>>)
        requires
            self.wf(),
        ensures
            r.is_some() == has_block(self.tree().blocks(), block_id),
            r matches Some(path) ==> blocks_of(path@) == path_to(
                self.tree().blocks(),
                index_of(self.tree().blocks(), block_id),
            ),
    {
        self.inner.path_from_root(block_id)
    }

    /// The block that the highest certificate certifies, while it is in the tree.
    pub fn highest_certified_block(&self) -> (r: Option<Arc<ExecutedBlock>>)
        requires
            self.wf(),
        ensures
            r.is_some() == has_block(
                self.tree().blocks(),
                self.tree().spec_highest_quorum_cert().spec_certified_block().id,
            ),
            r matches Some(b) ==> Some(*b) == self.tree().spec_get_block(
                self.tree().spec_highest_quorum_cert().spec_certified_block().id,
            ),
    {
        self.inner.highest_certified_block()
    }

    pub fn highest_quorum_cert(&self) -> (r: Arc<QuorumCert>)
        ensures
            *r == self.tree().spec_highest_quorum_cert(),
    {
        self.inner.highest_quorum_cert()
    }

    pub fn highest_ledger_info(&self) -> (r: Arc<QuorumCert>)
        ensures
            *r == self.tree().spec_highest_ledger_info(),
    {
        self.inner.highest_ledger_info()
    }

    pub fn highest_timeout_cert(&self) -> (r: Option<Arc<TimeoutCertificate>>)
        ensures
            r.is_some() == self.tree().spec_highest_timeout_cert().is_some(),
            r matches Some(tc) ==> Some(*tc) == self.tree().spec_highest_timeout_cert(),
    {
        self.inner.highest_timeout_cert()
    }

    /// The number of blocks in the tree.
    pub fn len(&self) -> (n: usize)
        ensures
            n == self.tree().blocks().len(),
    {
        self.inner.len()
    }

    /// The number of parent links in the tree.
    pub fn child_links(&self) -> (n: usize)
        requires
            self.wf(),
        ensures
            n == self.tree().blocks().len() - 1,
    {
        self.inner.child_links()
    }

    /// The number of pruned ids that are still kept.
    pub fn pruned_blocks_in_mem(&self) -> (n: usize)
        ensures
            n == self.tree().pruned_block_ids().len(),
    {
        self.inner.pruned_blocks_in_mem()
    }

    /// The ids of the blocks pruned last, the oldest first.
    pub fn pruned_ids(&self) -> (ids: Vec<HashValue>)
        ensures
            ids@ == self.tree().pruned_block_ids(),
    {
        self.inner.pruned_ids()
    }

    /// The ids that a commit of the block `next_root_id` would remove. Reads only.
    pub fn find_blocks_to_prune(&self, next_root_id: HashValue) -> (ids: Vec<HashValue>)
        requires
            self.wf(),
        ensures
            ids@ == blocks_to_prune(self.tree().blocks(), next_root_id),
    {
        self.inner.find_blocks_to_prune(next_root_id)
    }

    /// Tests a block against its parent and returns the parent.
    pub fn verify_and_get_parent(&self, block: &Block) -> (r: Result<Arc<ExecutedBlock>, Error>)
        requires
            self.wf(),
        ensures
            match parent_verdict(self.tree().blocks(), *block) {
                Ok(()) => r matches Ok(parent) && Some(*parent) == self.tree().spec_get_block(
                    block.parent_id,
                ),
                Err(e) => r matches Err(x) && x == e,
            },
    {
        let root = self.inner.root();
        if !(root.round() < block.round) {
            return Err(Error::InvalidBlock(InvalidBlockKind::OldRound));
        }
        let parent = match self.inner.get_block(&block.parent_id) {
            Some(p) => p,
            None => {
                return Err(Error::InvalidBlock(InvalidBlockKind::MissingParent));
            },
        };
        if !(parent.round() < block.round) {
            return Err(Error::InvalidBlock(InvalidBlockKind::InvalidRound));
        }
        if !(block.timestamp_usecs > parent.timestamp_usecs()) {
            return Err(Error::InvalidBlock(InvalidBlockKind::NonIncreasingTimestamp));
        }
        Ok(parent)
    }

    /// What is to be done before the block can go in: nothing for a block that is
    /// known, nothing for an empty block below a pending reconfiguration, an
    /// execution on the trees of the parent otherwise. Reads only.
    pub fn prepare_execution(&self, block: &Block) -> (r: Result<ExecutionInput, Error>)
        requires
            self.wf(),
        ensures
            has_block(self.tree().blocks(), block.id) ==> {
                &&& r matches Ok(ExecutionInput::Known(b))
                &&& Some(*b) == self.tree().spec_get_block(block.id)
            },
            !has_block(self.tree().blocks(), block.id) ==> match execution_verdict(
                self.tree().blocks(),
                *block,
                true,
            ) {
                Err(e) => r matches Err(x) && x == e,
                Ok(()) => if is_reconfiguration_suffix(self.tree().blocks(), *block) {
                    r matches Ok(ExecutionInput::Suffix)
                } else {
                    &&& r matches Ok(ExecutionInput::Compute(trees))
                    &&& trees == self.tree().blocks()[index_of(
                        self.tree().blocks(),
                        block.parent_id,
                    )].spec_executed_trees()
                },
            },
    {
        if let Some(existing) = self.inner.get_block(&block.id) {
            return Ok(ExecutionInput::Known(existing));
        }
        let parent = match self.verify_and_get_parent(block) {
            Ok(p) => p,
            Err(e) => {
                return Err(e);
            },
        };
        if self.inner.root_id() != parent.id() && parent.has_reconfiguration() {
            if !block.has_empty_payload() {
                return Err(Error::Fatal(FatalKind::ReconfigurationSuffixPayload));
            }
            Ok(ExecutionInput::Suffix)
        } else {
            Ok(ExecutionInput::Compute(parent.executed_trees()))
        }
    }

    /// Gives the block its outcome. `computed` is what the state computer delivered,
    /// nothing where it failed or was not asked.
    pub fn execute_block(&self, block: Block, computed: Option<ProcessedVMOutput>) -> (r: Result<
        ExecutedBlock,
        Error,
    >)
        requires
            self.wf(),
        ensures
            match execution_verdict(self.tree().blocks(), block, computed.is_some()) {
                Err(e) => r matches Err(x) && x == e,
                Ok(()) => r matches Ok(executed) && is_execution_of(
                    executed,
                    self.tree().blocks(),
                    block,
                    computed,
                ),
            },
    {
        let parent = match self.verify_and_get_parent(&block) {
            Ok(p) => p,
            Err(e) => {
                return Err(e);
            },
        };
        if self.inner.root_id() != parent.id() && parent.has_reconfiguration() {
            if !block.has_empty_payload() {
                return Err(Error::Fatal(FatalKind::ReconfigurationSuffixPayload));
            }
            let output = ProcessedVMOutput::new(
                Vec::new(),
                parent.executed_trees(),
                parent.output().validators(),
            );
            Ok(ExecutedBlock::new(block, output))
        } else {
            match computed {
                Some(output) => Ok(ExecutedBlock::new(block, output)),
                None => Err(Error::ExecutionError),
            }
        }
    }

    /// Takes in a block with the outcome of its execution. A block that is known
    /// already is not inserted again: the handle of the block that is there comes
    /// back, and nothing changes.
    pub fn execute_and_insert_block(&mut self, block: Block, computed: Option<ProcessedVMOutput>) -> (r:
        Result<Arc<ExecutedBlock>, Error>)
        requires
            old(self).wf(),
        ensures
            final(self).wf(),
            final(self).tree().same_certificates(&old(self).tree()),
            final(self).tree().spec_root() == old(self).tree().spec_root(),
            has_block(old(self).tree().blocks(), block.id) ==> {
                &&& r matches Ok(b)
                &&& Some(*b) == old(self).tree().spec_get_block(block.id)
                &&& final(self).tree().blocks() == old(self).tree().blocks()
            },
            !has_block(old(self).tree().blocks(), block.id) ==> match execution_verdict(
                old(self).tree().blocks(),
                block,
                computed.is_some(),
            ) {
                Err(e) => {
                    &&& r matches Err(x)
                    &&& x == e
                    &&& final(self).tree().blocks() == old(self).tree().blocks()
                },
                Ok(()) => {
                    &&& r matches Ok(b)
                    &&& is_execution_of(*b, old(self).tree().blocks(), block, computed)
                    &&& final(self).tree().blocks() == old(self).tree().blocks().push(*b)
                },
            },
    {
        if let Some(existing) = self.inner.get_block(&block.id) {
            return Ok(existing);
        }
        let executed = match self.execute_block(block, computed) {
            Ok(e) => e,
            Err(e) => {
                return Err(e);
            },
        };
        self.inner.insert_block(executed)
    }

    /// Tests a certificate against the store without storing it. Reads only.
    pub fn verify_quorum_cert(&self, qc: &QuorumCert) -> (r: Result<(), Error>)
        requires
            self.wf(),
        ensures
            r == store_cert_verdict(self.tree().blocks(), *qc),
    {
        if !self.inner.block_exists(&qc.certified_block().id) {
            return Err(Error::MissingBlock(qc.certified_block().id));
        }
        self.inner.verify_quorum_cert(qc)
    }

    /// Takes in a certificate for a block of the store. A certificate that is turned
    /// down changes nothing.
    pub fn insert_single_quorum_cert(&mut self, qc: Arc<QuorumCert>) -> (r: Result<(), Error>)
        requires
            old(self).wf(),
        ensures
            final(self).wf(),
            final(self).tree().blocks() == old(self).tree().blocks(),
            final(self).tree().spec_highest_timeout_cert() == old(self).tree().spec_highest_timeout_cert(),
            final(self).tree().pruned_block_ids() == old(self).tree().pruned_block_ids(),
            final(self).tree().spec_max_pruned_blocks_in_mem() == old(self).tree().spec_max_pruned_blocks_in_mem(),
            final(self).tree().pending_votes() == old(self).tree().pending_votes(),
            r == store_cert_verdict(old(self).tree().blocks(), *qc),
            r is Err ==> final(self).tree().certificates() == old(self).tree().certificates(),
            r is Ok ==> final(self).tree().certificates() == certificates_after_insert(
                old(self).tree().certificates(),
                *qc,
            ),
    {
        if !self.inner.block_exists(&qc.certified_block().id) {
            return Err(Error::MissingBlock(qc.certified_block().id));
        }
        self.inner.insert_quorum_cert(qc)
    }

    /// Whether `tc` would take the place of the highest timeout certificate. Reads
    /// only.
    pub fn is_newer_timeout_certificate(&self, tc: &TimeoutCertificate) -> (r: bool)
        ensures
            r == BlockTree::timeout_cert_is_newer(self.tree().spec_highest_timeout_cert(), *tc),
    {
        let current_round: u64 = match self.inner.highest_timeout_cert() {
            Some(cur) => cur.round(),
            None => 0,
        };
        tc.round() > current_round
    }

    /// Puts `tc` in the place of the highest timeout certificate if its round is above
    /// the round of the one that is there; says whether it did.
    pub fn insert_timeout_certificate(&mut self, tc: Arc<TimeoutCertificate>) -> (replaced: bool)
        requires
            old(self).wf(),
        ensures
            final(self).wf(),
            final(self).tree().blocks() == old(self).tree().blocks(),
            final(self).tree().certificates() == old(self).tree().certificates(),
            final(self).tree().pruned_block_ids() == old(self).tree().pruned_block_ids(),
            final(self).tree().spec_max_pruned_blocks_in_mem() == old(self).tree().spec_max_pruned_blocks_in_mem(),
            final(self).tree().pending_votes() == old(self).tree().pending_votes(),
            replaced == BlockTree::timeout_cert_is_newer(
                old(self).tree().spec_highest_timeout_cert(),
                *tc,
            ),
            final(self).tree().spec_highest_timeout_cert() == if replaced {
                Some(*tc)
            } else {
                old(self).tree().spec_highest_timeout_cert()
            },
    {
        self.inner.replace_timeout_cert(tc)
    }

    /// Hands a vote to the pending votes and says what became of it. Whether the
    /// block voted for is in the store is not asked, and a certificate that the vote
    /// completes is returned, not stored.
    pub fn insert_vote(&mut self, vote: &Vote, validator_verifier: &ValidatorVerifier) -> (r:
        VoteReceptionResult)
        requires
            old(self).wf(),
            validator_verifier.wf(),
        ensures
            final(self).wf(),
            final(self).tree().blocks() == old(self).tree().blocks(),
            final(self).tree().certificates() == old(self).tree().certificates(),
            final(self).tree().spec_highest_timeout_cert() == old(self).tree().spec_highest_timeout_cert(),
            final(self).tree().pruned_block_ids() == old(self).tree().pruned_block_ids(),
            final(self).tree().spec_max_pruned_blocks_in_mem() == old(self).tree().spec_max_pruned_blocks_in_mem(),
            final(self).tree().pending_votes() == votes_after_insert(
                old(self).tree().pending_votes(),
                *vote,
                validator_verifier.validators(),
            ),
            reception_result(
                r,
                old(self).tree().pending_votes(),
                *vote,
                validator_verifier.validators(),
                validator_verifier.spec_quorum_voting_power(),
            ),
    {
        self.inner.insert_vote(vote, validator_verifier)
    }

    /// Hands in a vote and, where it completes a quorum certificate, takes the
    /// certificate in as well. The error is that of the certificate.
    pub fn insert_vote_and_qc(&mut self, vote: &Vote, validator_verifier: &ValidatorVerifier) -> (r:
        Result<VoteReceptionResult, Error>)
        requires
            old(self).wf(),
            validator_verifier.wf(),
        ensures
            final(self).wf(),
            final(self).tree().blocks() == old(self).tree().blocks(),
            final(self).tree().pending_votes() == votes_after_insert(
                old(self).tree().pending_votes(),
                *vote,
                validator_verifier.validators(),
            ),
            match r {
                Ok(reception) => {
                    &&& reception_result(
                        reception,
                        old(self).tree().pending_votes(),
                        *vote,
                        validator_verifier.validators(),
                        validator_verifier.spec_quorum_voting_power(),
                    )
                    &&& match reception {
                        VoteReceptionResult::NewQuorumCertificate(qc) => {
                            &&& store_cert_verdict(old(self).tree().blocks(), *qc) is Ok
                            &&& final(self).tree().certificates() == certificates_after_insert(
                                old(self).tree().certificates(),
                                *qc,
                            )
                        },
                        _ => final(self).tree().certificates() == old(self).tree().certificates(),
                    }
                },
                Err(e) => {
                    &&& final(self).tree().certificates() == old(self).tree().certificates()
                    &&& exists|reception: VoteReceptionResult|
                        {
                            &&& #[trigger] reception_result(
                                reception,
                                old(self).tree().pending_votes(),
                                *vote,
                                validator_verifier.validators(),
                                validator_verifier.spec_quorum_voting_power(),
                            )
                            &&& reception matches VoteReceptionResult::NewQuorumCertificate(qc)
                            &&& store_cert_verdict(old(self).tree().blocks(), *qc) == Err::<
                                (),
                                Error,
                            >(e)
                        }
                },
            },
    {
        let reception = self.insert_vote(vote, validator_verifier);
        if let VoteReceptionResult::NewQuorumCertificate(qc) = &reception {
            match self.insert_single_quorum_cert(share(qc)) {
                Ok(()) => {},
                Err(e) => {
                    return Err(e);
                },
            }
        }
        Ok(reception)
    }

    /// Takes in the certificate that a block carries for its parent, then the block.
    pub fn insert_block_with_qc(&mut self, block: Block, computed: Option<ProcessedVMOutput>) -> (r:
        Result<Arc<ExecutedBlock>, Error>)
        requires
            old(self).wf(),
        ensures
            final(self).wf(),
            final(self).tree().spec_root() == old(self).tree().spec_root(),
            match store_cert_verdict(old(self).tree().blocks(), *block.quorum_cert) {
                Err(e) => {
                    &&& r matches Err(x)
                    &&& x == e
                    &&& final(self).tree().blocks() == old(self).tree().blocks()
                    &&& final(self).tree().certificates() == old(self).tree().certificates()
                },
                Ok(()) => {
                    &&& final(self).tree().certificates() == certificates_after_insert(
                        old(self).tree().certificates(),
                        *block.quorum_cert,
                    )
                    &&& has_block(old(self).tree().blocks(), block.id) ==> {
                        &&& r matches Ok(b)
                        &&& Some(*b) == old(self).tree().spec_get_block(block.id)
                        &&& final(self).tree().blocks() == old(self).tree().blocks()
                    }
                    &&& !has_block(old(self).tree().blocks(), block.id) ==> match execution_verdict(
                        old(self).tree().blocks(),
                        block,
                        computed.is_some(),
                    ) {
                        Err(e) => {
                            &&& r matches Err(x)
                            &&& x == e
                            &&& final(self).tree().blocks() == old(self).tree().blocks()
                        },
                        Ok(()) => {
                            &&& r matches Ok(b)
                            &&& is_execution_of(*b, old(self).tree().blocks(), block, computed)
                            &&& final(self).tree().blocks() == old(self).tree().blocks().push(*b)
                        },
                    }
                },
            },
    {
        match self.insert_single_quorum_cert(share(&block.quorum_cert)) {
            Ok(()) => {},
            Err(e) => {
                return Err(e);
            },
        }
        self.execute_and_insert_block(block, computed)
    }

    /// Takes in the certificate that a block carries for its parent, then the block
    /// as one that changes the validator set to the empty one.
    pub fn insert_reconfiguration_block(&mut self, block: Block, computed: Option<ProcessedVMOutput>) -> (r:
        Result<Arc<ExecutedBlock>, Error>)
        requires
            old(self).wf(),
        ensures
            final(self).wf(),
            final(self).tree().spec_root() == old(self).tree().spec_root(),
            match store_cert_verdict(old(self).tree().blocks(), *block.quorum_cert) {
                Err(e) => {
                    &&& r matches Err(x)
                    &&& x == e
                    &&& final(self).tree().blocks() == old(self).tree().blocks()
                    &&& final(self).tree().certificates() == old(self).tree().certificates()
                },
                Ok(()) => {
                    &&& final(self).tree().certificates() == certificates_after_insert(
                        old(self).tree().certificates(),
                        *block.quorum_cert,
                    )
                    &&& match execution_verdict(
                        old(self).tree().blocks(),
                        block,
                        computed.is_some(),
                    ) {
                        Err(e) => {
                            &&& r matches Err(x)
                            &&& x == e
                            &&& final(self).tree().blocks() == old(self).tree().blocks()
                        },
                        Ok(()) => {
                            &&& r matches Ok(b)
                            &&& if has_block(old(self).tree().blocks(), block.id) {
                                &&& Some(*b) == old(self).tree().spec_get_block(block.id)
                                &&& final(self).tree().blocks() == old(self).tree().blocks()
                            } else {
                                &&& b.block == block
                                &&& b.output.spec_validators() == Some(
                                    ValidatorSet { id: HashValue { hi: 0, lo: 0 } },
                                )
                                &&& exists|executed: ExecutedBlock|
                                    {
                                        &&& #[trigger] is_execution_of(
                                            executed,
                                            old(self).tree().blocks(),
                                            block,
                                            computed,
                                        )
                                        &&& b.output.spec_executed_trees()
                                            == executed.output.spec_executed_trees()
                                        &&& b.output.spec_transaction_data()
                                            == executed.output.spec_transaction_data()
                                    }
                                &&& final(self).tree().blocks() == old(self).tree().blocks().push(
                                    *b,
                                )
                            }
                        },
                    }
                },
            },
    {
        match self.insert_single_quorum_cert(share(&block.quorum_cert)) {
            Ok(()) => {},
            Err(e) => {
                return Err(e);
            },
        }
        let executed = match self.execute_block(block, computed) {
            Ok(e) => e,
            Err(e) => {
                return Err(e);
            },
        };
        let ExecutedBlock { block: inner_block, output } = executed;
        let mut output = output;
        output.set_validators(ValidatorSet::empty());
        self.inner.insert_block(ExecutedBlock::new(inner_block, output))
    }

    /// Makes the block `next_root_id` the root and returns the ids that left the
    /// tree.
    pub fn prune_tree(&mut self, next_root_id: HashValue) -> (ids: Vec<HashValue>)
        requires
            old(self).wf(),
            has_block(old(self).tree().blocks(), next_root_id),
        ensures
            final(self).wf(),
            ids@ == blocks_to_prune(old(self).tree().blocks(), next_root_id),
            final(self).tree().blocks() == subtree(old(self).tree().blocks(), next_root_id),
            forall|id: HashValue|
                #![trigger has_block(final(self).tree().blocks(), id)]
                #![trigger ids@.contains(id)]
                has_block(final(self).tree().blocks(), id) <==> has_block(
                    old(self).tree().blocks(),
                    id,
                ) && !ids@.contains(id),
            final(self).tree().spec_root() == old(self).tree().blocks()[index_of(
                old(self).tree().blocks(),
                next_root_id,
            )],
            old(self).tree().spec_root().spec_round() <= final(self).tree().spec_root().spec_round(),
            final(self).tree().quorum_certs() == retain_certs(
                old(self).tree().quorum_certs(),
                final(self).tree().blocks(),
                old(self).tree().quorum_certs().len() as int,
            ),
            final(self).tree().pruned_block_ids() == newest(
                old(self).tree().pruned_block_ids() + ids@,
                old(self).tree().spec_max_pruned_blocks_in_mem() as int,
            ),
            final(self).tree().pruned_block_ids().len() == if old(
                self,
            ).tree().pruned_block_ids().len() + ids@.len() <= old(
                self,
            ).tree().spec_max_pruned_blocks_in_mem() {
                old(self).tree().pruned_block_ids().len() + ids@.len()
            } else {
                old(self).tree().spec_max_pruned_blocks_in_mem() as nat
            },
            final(self).tree().spec_highest_quorum_cert() == old(self).tree().spec_highest_quorum_cert(),
            final(self).tree().spec_highest_ledger_info() == old(self).tree().spec_highest_ledger_info(),
            final(self).tree().spec_highest_timeout_cert() == old(self).tree().spec_highest_timeout_cert(),
            final(self).tree().spec_max_pruned_blocks_in_mem() == old(self).tree().spec_max_pruned_blocks_in_mem(),
            final(self).tree().pending_votes() == old(self).tree().pending_votes(),
    {
        let ids = self.inner.find_blocks_to_prune(next_root_id);
        let recorded = Self::copy_ids(&ids);
        self.inner.process_pruned_blocks(next_root_id, recorded);
        ids
    }

    /// A copy of the ids.
    fn copy_ids(ids: &Vec<HashValue>) -> (r: Vec<HashValue>)
        ensures
            r@ == ids@,
    {
        let mut r: Vec<HashValue> = Vec::new();
        let mut i: usize = 0;
        while i < ids.len()
            invariant
                i <= ids.len(),
                r@ == ids@.subrange(0, i as int),
            decreases ids.len() - i,
        {
            r.push(ids[i]);
            i += 1;
        }
        r
    }

    /// The blocks that a commit with this proof hands to the state computer: the
    /// path from the child of the root down to the block that the proof names.
    /// Reads only.
    pub fn blocks_to_commit(&self, finality_proof: &LedgerInfoWithSignatures) -> (r: Result<
        Vec<Arc<ExecutedBlock>>,
        Error,
    >)
        requires
            self.wf(),
        ensures
            match commit_verdict(self.tree().blocks(), finality_proof.ledger_info.commit_info.id) {
                Err(e) => r matches Err(x) && x == e,
                Ok(()) => r matches Ok(path) && blocks_of(path@) == path_to(
                    self.tree().blocks(),
                    index_of(self.tree().blocks(), finality_proof.ledger_info.commit_info.id),
                ),
            },
    {
        let block_id_to_commit = finality_proof.ledger_info().consensus_block_id();
        let block_to_commit = match self.inner.get_block(&block_id_to_commit) {
            Some(b) => b,
            None => {
                return Err(Error::BlockNotFound(block_id_to_commit));
            },
        };
        if !(block_to_commit.round() > self.inner.root().round()) {
            return Err(Error::StaleCommit);
        }
        match self.inner.path_from_root(block_id_to_commit) {
            Some(path) => Ok(path),
            None => Ok(Vec::new()),
        }
    }

    /// Commits the block that the proof names: it becomes the root, and what is
    /// neither that block nor below it leaves the tree. Returns the blocks committed,
    /// from the child of the old root down to the new root. A commit that is turned
    /// down changes nothing.
    pub fn commit(&mut self, finality_proof: &LedgerInfoWithSignatures) -> (r: Result<
        Vec<Arc<ExecutedBlock>>,
        Error,
    >)
        requires
            old(self).wf(),
        ensures
            final(self).wf(),
            final(self).tree().spec_highest_quorum_cert() == old(self).tree().spec_highest_quorum_cert(),
            final(self).tree().spec_highest_ledger_info() == old(self).tree().spec_highest_ledger_info(),
            final(self).tree().spec_highest_timeout_cert() == old(self).tree().spec_highest_timeout_cert(),
            final(self).tree().spec_max_pruned_blocks_in_mem() == old(self).tree().spec_max_pruned_blocks_in_mem(),
            final(self).tree().pending_votes() == old(self).tree().pending_votes(),
            old(self).tree().spec_root().spec_round() <= final(self).tree().spec_root().spec_round(),
            match commit_verdict(
                old(self).tree().blocks(),
                finality_proof.ledger_info.commit_info.id,
            ) {
                Err(e) => {
                    &&& r matches Err(x)
                    &&& x == e
                    &&& final(self).tree().blocks() == old(self).tree().blocks()
                    &&& final(self).tree().quorum_certs() == old(self).tree().quorum_certs()
                    &&& final(self).tree().pruned_block_ids() == old(self).tree().pruned_block_ids()
                },
                Ok(()) => {
                    let id = finality_proof.ledger_info.commit_info.id;
                    let before = old(self).tree().blocks();
                    &&& r matches Ok(path)
                    &&& blocks_of(path@) == path_to(before, index_of(before, id))
                    &&& final(self).tree().blocks() == subtree(before, id)
                    &&& forall|other: HashValue|
                        #![trigger has_block(final(self).tree().blocks(), other)]
                        #![trigger blocks_to_prune(before, id).contains(other)]
                        has_block(final(self).tree().blocks(), other) <==> has_block(
                            before,
                            other,
                        ) && !blocks_to_prune(before, id).contains(other)
                    &&& final(self).tree().spec_root() == before[index_of(before, id)]
                    &&& old(self).tree().spec_root().spec_round() < final(self).tree().spec_root().spec_round()
                    &&& final(self).tree().quorum_certs() == retain_certs(
                        old(self).tree().quorum_certs(),
                        final(self).tree().blocks(),
                        old(self).tree().quorum_certs().len() as int,
                    )
                    &&& final(self).tree().pruned_block_ids() == newest(
                        old(self).tree().pruned_block_ids() + blocks_to_prune(before, id),
                        old(self).tree().spec_max_pruned_blocks_in_mem() as int,
                    )
                    &&& final(self).tree().pruned_block_ids().len() == if old(
                        self,
                    ).tree().pruned_block_ids().len() + blocks_to_prune(before, id).len() <= old(
                        self,
                    ).tree().spec_max_pruned_blocks_in_mem() {
                        old(self).tree().pruned_block_ids().len() + blocks_to_prune(
                            before,
                            id,
                        ).len()
                    } else {
                        old(self).tree().spec_max_pruned_blocks_in_mem() as nat
                    }
                },
            },
    {
        let blocks_to_commit = match self.blocks_to_commit(finality_proof) {
            Ok(path) => path,
            Err(e) => {
                return Err(e);
            },
        };
        let _ = self.prune_tree(finality_proof.ledger_info().consensus_block_id());
        Ok(blocks_to_commit)
    }

    /// The proof of the commit that is due: that of the highest commit decision,
    /// where it commits a round above the root's. Reads only.
    pub fn pending_commit(&self) -> (r: Option<Arc<QuorumCert>>)
        requires
            self.wf(),
        ensures
            r.is_some() == (self.tree().spec_highest_ledger_info().spec_commit_info().round
                > self.tree().spec_root().spec_round()),
            r matches Some(qc) ==> *qc == self.tree().spec_highest_ledger_info(),
    {
        let highest = self.inner.highest_ledger_info();
        if highest.commit_info().round > self.inner.root().round() {
            Some(highest)
        } else {
            None
        }
    }

    /// Replaces the tree by the one built from the arguments, which must be free of
    /// inconsistencies; the highest timeout certificate and the bound of the pruned
    /// window carry over. Returns the stale ids, to be removed from storage: the ids
    /// of the blocks of the replaced tree that the new tree does not hold, in the
    /// order in which they stood. The commit that may now be due is
    /// `pending_commit`.
    pub fn rebuild(
        &mut self,
        root: Arc<ExecutedBlock>,
        root_qc: Arc<QuorumCert>,
        root_li: Arc<QuorumCert>,
        blocks: Vec<Arc<ExecutedBlock>>,
        quorum_certs: Vec<Arc<QuorumCert>>,
    ) -> (to_remove: Vec<HashValue>)
        requires
            old(self).wf(),
            recovery_outcome(*root, *root_qc, *root_li, blocks_of(blocks@), certs_of(quorum_certs@))
                is Ok,
        ensures
            final(self).wf(),
            to_remove@ == stale_ids(
                old(self).tree().blocks(),
                final(self).tree().blocks(),
                old(self).tree().blocks().len() as int,
            ),
            forall|id: HashValue| #[trigger]
                to_remove@.contains(id) <==> has_block(old(self).tree().blocks(), id)
                    && !has_block(final(self).tree().blocks(), id),
            recovery_outcome(*root, *root_qc, *root_li, blocks_of(blocks@), certs_of(quorum_certs@))
                == Ok::<(Seq<ExecutedBlock>, Certificates), FatalKind>(
                (final(self).tree().blocks(), final(self).tree().certificates()),
            ),
            final(self).tree().spec_highest_timeout_cert() == old(
                self,
            ).tree().spec_highest_timeout_cert(),
            final(self).tree().spec_max_pruned_blocks_in_mem() == old(
                self,
            ).tree().spec_max_pruned_blocks_in_mem(),
            final(self).tree().pruned_block_ids() == Seq::<HashValue>::empty(),
            final(self).tree().pending_votes() == Seq::<Vote>::empty(),
    {
        let max_pruned_blocks_in_mem = self.inner.max_pruned_blocks_in_mem();
        let prev_htc = self.inner.highest_timeout_cert();
        let replaced = self.inner.get_all_block_id();
        self.inner = Self::build_block_tree(
            root,
            root_qc,
            root_li,
            blocks,
            quorum_certs,
            prev_htc,
            max_pruned_blocks_in_mem,
        );
        let ghost before = old(self).tree().blocks();
        let mut to_remove: Vec<HashValue> = Vec::new();
        let mut i: usize = 0;
        while i < replaced.len()
            invariant
                i <= replaced.len(),
                replaced@ == before.map_values(|b: ExecutedBlock| b.spec_id()),
                to_remove@ == stale_ids(before, self.tree().blocks(), i as int),
            decreases replaced.len() - i,
        {
            if !self.inner.block_exists(&replaced[i]) {
                to_remove.push(replaced[i]);
            }
            i += 1;
        }
        proof {
            lemma_stale_ids(before, self.tree().blocks(), before.len() as int);
        }
        to_remove
    }
}

} // verus!
