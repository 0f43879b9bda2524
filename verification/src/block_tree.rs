//! The tree of executed blocks with its certificates: the single custodian of what
//! the validator knows above the last commit.

use vstd::prelude::*;
use std::collections::VecDeque;
use std::sync::Arc;
use crate::block::{ExecutedBlock, QuorumCert, TimeoutCertificate};
use crate::block_info::distinct_signers;
use crate::error::Error;
use crate::hash_value::HashValue;
use crate::pending_votes::{
    distinct_voters, reception_result, votes_after_insert, PendingVotes, VoteReceptionResult,
};
use crate::tree_model::{
    bfs_order, blocks_after_insert, blocks_to_prune, cert_index, cert_matches_block,
    certs_after_insert, certs_consistent, chain_up, children_upto, descends_from,
    distinct_certified, distinct_ids, has_block, has_cert_for, highest_cert_after_insert,
    highest_ledger_info_after_insert, index_of, law_parent_precedes_child, law_prune_partitions,
    lemma_cert_matches_after_push, lemma_index_of, lemma_parent_index, lemma_push_keeps_tree,
    lemma_retain_certs, lemma_round_above_root, lemma_subtree, newest, parent_index, path_to,
    retain_certs, retain_descendants, rooted_tree, rounds_bounded, subtree,
};
use crate::validator_verifier::ValidatorVerifier;
use crate::vote::Vote;

verus! {

/// Another handle to the value that `a` points to.
///
/// Trusted: `Arc::clone` of the standard library, which returns a pointer to the same
/// allocation and so to an equal value.
#[verifier::external_body]
pub(crate) fn share<T>(a: &Arc<T>) -> (r: Arc<T>)
    ensures
        r == *a,
{
    Arc::clone(a)
}

/// The blocks behind a sequence of handles.
pub open spec fn blocks_of(handles: Seq<Arc<ExecutedBlock>>) -> Seq<ExecutedBlock> {
    handles.map_values(|a: Arc<ExecutedBlock>| *a)
}

/// The certificates behind a sequence of handles.
pub open spec fn certs_of(handles: Seq<Arc<QuorumCert>>) -> Seq<QuorumCert> {
    handles.map_values(|a: Arc<QuorumCert>| *a)
}

/// The certificates of a tree: those stored, the one for the highest certified round,
/// and the one that commits the highest round.
pub struct Certificates {
    pub stored: Seq<QuorumCert>,
    pub highest_quorum_cert: QuorumCert,
    pub highest_ledger_info: QuorumCert,
}

/// The certificates after `qc` is taken in.
pub open spec fn certificates_after_insert(c: Certificates, qc: QuorumCert) -> Certificates {
    Certificates {
        stored: certs_after_insert(c.stored, qc),
        highest_quorum_cert: highest_cert_after_insert(c.highest_quorum_cert, qc),
        highest_ledger_info: highest_ledger_info_after_insert(c.highest_ledger_info, qc),
    }
}

/// The tree of executed blocks above the last commit, with the certificates known
/// for them.
pub struct BlockTree {
    /// The blocks in insertion order; the first is the root.
    blocks: Vec<Arc<ExecutedBlock>>,
    /// At most one certificate per certified block, in insertion order.
    quorum_certs: Vec<Arc<QuorumCert>>,
    /// The certificate for the highest certified round.
    highest_quorum_cert: Arc<QuorumCert>,
    /// The certificate for the highest round that timed out.
    highest_timeout_cert: Option<Arc<TimeoutCertificate>>,
    /// The certificate whose ledger info commits the highest round.
    highest_ledger_info: Arc<QuorumCert>,
    /// The ids of the blocks pruned last, the oldest first.
    pruned_block_ids: VecDeque<HashValue>,
    /// How many pruned ids are kept.
    max_pruned_blocks_in_mem: usize,
    /// The votes that wait for a quorum.
    pending_votes: PendingVotes,
}

impl BlockTree {
    /// The blocks in insertion order, the root first.
    pub closed spec fn blocks(&self) -> Seq<ExecutedBlock> {
        blocks_of(self.blocks@)
    }

    /// The stored certificates in insertion order.
    pub closed spec fn quorum_certs(&self) -> Seq<QuorumCert> {
        certs_of(self.quorum_certs@)
    }

    pub closed spec fn spec_highest_quorum_cert(&self) -> QuorumCert {
        *self.highest_quorum_cert
    }

    pub closed spec fn spec_highest_ledger_info(&self) -> QuorumCert {
        *self.highest_ledger_info
    }

    pub closed spec fn spec_highest_timeout_cert(&self) -> Option<TimeoutCertificate> {
        match self.highest_timeout_cert {
            Some(tc) => Some(*tc),
            None => None,
        }
    }

    /// The ids of the blocks pruned last, the oldest first.
    pub closed spec fn pruned_block_ids(&self) -> Seq<HashValue> {
        self.pruned_block_ids@
    }

    pub closed spec fn spec_max_pruned_blocks_in_mem(&self) -> usize {
        self.max_pruned_blocks_in_mem
    }

    /// The votes that wait for a quorum, one per author.
    pub closed spec fn pending_votes(&self) -> Seq<Vote> {
        self.pending_votes.votes()
    }

    /// The stored certificates with the two highest ones.
    pub open spec fn certificates(&self) -> Certificates {
        Certificates {
            stored: self.quorum_certs(),
            highest_quorum_cert: self.spec_highest_quorum_cert(),
            highest_ledger_info: self.spec_highest_ledger_info(),
        }
    }

    /// The root: the block committed last.
    pub open spec fn spec_root(&self) -> ExecutedBlock {
        self.blocks()[0]
    }

    /// The block with the id `id`, if it is in the tree.
    pub open spec fn spec_get_block(&self, id: HashValue) -> Option<ExecutedBlock> {
        if has_block(self.blocks(), id) {
            Some(self.blocks()[index_of(self.blocks(), id)])
        } else {
            None
        }
    }

    /// The certificate stored for the block `id`, if there is one.
    pub open spec fn spec_get_quorum_cert_for_block(&self, id: HashValue) -> Option<QuorumCert> {
        if has_cert_for(self.quorum_certs(), id) {
            Some(self.quorum_certs()[cert_index(self.quorum_certs(), id)])
        } else {
            None
        }
    }

    /// What holds of the tree between any two operations: the blocks form a rooted
    /// tree; no block has two certificates; every certificate fits its block; no
    /// certificate is for a higher round than the highest one; the window of pruned
    /// ids keeps to its bound; no author has two pending votes.
    pub open spec fn wf(&self) -> bool {
        &&& rooted_tree(self.blocks())
        &&& distinct_certified(self.quorum_certs())
        &&& certs_consistent(self.blocks(), self.quorum_certs())
        &&& rounds_bounded(self.quorum_certs(), self.spec_highest_quorum_cert())
        &&& self.pruned_block_ids().len() <= self.spec_max_pruned_blocks_in_mem()
        &&& distinct_voters(self.pending_votes())
    }

    /// The two trees agree in everything but their blocks: certificates, pruned ids
    /// and pending votes.
    pub open spec fn same_certificates(&self, other: &BlockTree) -> bool {
        &&& self.quorum_certs() == other.quorum_certs()
        &&& self.spec_highest_quorum_cert() == other.spec_highest_quorum_cert()
        &&& self.spec_highest_ledger_info() == other.spec_highest_ledger_info()
        &&& self.spec_highest_timeout_cert() == other.spec_highest_timeout_cert()
        &&& self.pruned_block_ids() == other.pruned_block_ids()
        &&& self.spec_max_pruned_blocks_in_mem() == other.spec_max_pruned_blocks_in_mem()
        &&& self.pending_votes() == other.pending_votes()
    }

    /// A tree that holds the root alone, with the certificate for the root as the
    /// highest one and `root_ledger_info` as the highest commit decision.
    pub fn new(
        root: ExecutedBlock,
        root_quorum_cert: QuorumCert,
        root_ledger_info: QuorumCert,
        max_pruned_blocks_in_mem: usize,
        highest_timeout_cert: Option<Arc<TimeoutCertificate>>,
    ) -> (tree: BlockTree)
        requires
            root_quorum_cert.spec_certified_block() == root.spec_block_info(),
        ensures
            tree.wf(),
            tree.blocks() == seq![root],
            tree.quorum_certs() == seq![root_quorum_cert],
            tree.spec_highest_quorum_cert() == root_quorum_cert,
            tree.spec_highest_ledger_info() == root_ledger_info,
            tree.spec_highest_timeout_cert() == match highest_timeout_cert {
                Some(tc) => Some(*tc),
                None => None,
            },
            tree.pruned_block_ids() == Seq::<HashValue>::empty(),
            tree.spec_max_pruned_blocks_in_mem() == max_pruned_blocks_in_mem,
            tree.pending_votes() == Seq::<Vote>::empty(),
    {
        Self::new_shared(
            Arc::new(root),
            Arc::new(root_quorum_cert),
            Arc::new(root_ledger_info),
            max_pruned_blocks_in_mem,
            highest_timeout_cert,
        )
    }

    /// The same tree, from values that are shared already.
    pub fn new_shared(
        root: Arc<ExecutedBlock>,
        root_quorum_cert: Arc<QuorumCert>,
        root_ledger_info: Arc<QuorumCert>,
        max_pruned_blocks_in_mem: usize,
        highest_timeout_cert: Option<Arc<TimeoutCertificate>>,
    ) -> (tree: BlockTree)
        requires
            (*root_quorum_cert).spec_certified_block() == (*root).spec_block_info(),
        ensures
            tree.wf(),
            tree.blocks() == seq![*root],
            tree.quorum_certs() == seq![*root_quorum_cert],
            tree.spec_highest_quorum_cert() == *root_quorum_cert,
            tree.spec_highest_ledger_info() == *root_ledger_info,
            tree.spec_highest_timeout_cert() == match highest_timeout_cert {
                Some(tc) => Some(*tc),
                None => None,
            },
            tree.pruned_block_ids() == Seq::<HashValue>::empty(),
            tree.spec_max_pruned_blocks_in_mem() == max_pruned_blocks_in_mem,
            tree.pending_votes() == Seq::<Vote>::empty(),
    {
        let mut blocks: Vec<Arc<ExecutedBlock>> = Vec::new();
        blocks.push(share(&root));
        let mut quorum_certs: Vec<Arc<QuorumCert>> = Vec::new();
        quorum_certs.push(share(&root_quorum_cert));
        let tree = BlockTree {
            blocks,
            quorum_certs,
            highest_quorum_cert: root_quorum_cert,
            highest_timeout_cert,
            highest_ledger_info: root_ledger_info,
            pruned_block_ids: VecDeque::new(),
            max_pruned_blocks_in_mem,
            pending_votes: PendingVotes::new(),
        };
        proof {
            assert(tree.blocks() =~= seq![*root]);
            assert(tree.quorum_certs() =~= seq![*root_quorum_cert]);
            lemma_index_of(tree.blocks(), 0);
        }
        tree
    }

    /// Where the block with the id `id` stands, if it is in the tree.
    fn find_block(&self, id: HashValue) -> (r: Option<usize>)
        ensures
            r.is_some() == has_block(self.blocks(), id),
            r matches Some(i) ==> i < self.blocks().len() && self.blocks()[i as int].spec_id()
                == id,
            distinct_ids(self.blocks()) ==> (r matches Some(i) ==> i == index_of(
                self.blocks(),
                id,
            )),
    {
        let mut i: usize = 0;
        while i < self.blocks.len()
            invariant
                i <= self.blocks.len(),
                forall|j: int| 0 <= j < i ==> (#[trigger] self.blocks()[j]).spec_id() != id,
            decreases self.blocks.len() - i,
        {
            if self.blocks[i].id() == id {
                proof {
                    assert(self.blocks()[i as int].spec_id() == id);
                }
                return Some(i);
            }
            i += 1;
        }
        None
    }

    /// Where the certificate for the block `id` stands, if one is stored.
    fn find_quorum_cert(&self, id: HashValue) -> (r: Option<usize>)
        ensures
            r.is_some() == has_cert_for(self.quorum_certs(), id),
            r matches Some(k) ==> k < self.quorum_certs().len() && self.quorum_certs()[k as int]
                .spec_certified_block().id == id,
            distinct_certified(self.quorum_certs()) ==> (r matches Some(k) ==> k == cert_index(
                self.quorum_certs(),
                id,
            )),
    {
        let mut k: usize = 0;
        while k < self.quorum_certs.len()
            invariant
                k <= self.quorum_certs.len(),
                forall|l: int|
                    0 <= l < k ==> (#[trigger] self.quorum_certs()[l]).spec_certified_block().id
                        != id,
            decreases self.quorum_certs.len() - k,
        {
            if self.quorum_certs[k].certified_block().id == id {
                assert(self.quorum_certs()[k as int].spec_certified_block().id == id);
                return Some(k);
            }
            k += 1;
        }
        None
    }

    pub fn block_exists(&self, block_id: &HashValue) -> (r: bool)
        ensures
            r == has_block(self.blocks(), *block_id),
    {
        self.find_block(*block_id).is_some()
    }

    pub fn get_block(&self, block_id: &HashValue) -> (r: Option<Arc<ExecutedBlock>>)
        requires
            self.wf(),
        ensures
            r.is_some() == has_block(self.blocks(), *block_id),
            r matches Some(b) ==> Some(*b) == self.spec_get_block(*block_id),
    {
        match self.find_block(*block_id) {
            Some(i) => Some(share(&self.blocks[i])),
            None => None,
        }
    }

    pub fn root(&self) -> (r: Arc<ExecutedBlock>)
        requires
            self.wf(),
        ensures
            *r == self.spec_root(),
    {
        share(&self.blocks[0])
    }

    /// The id of the root.
    pub fn root_id(&self) -> (id: HashValue)
        requires
            self.wf(),
        ensures
            id == self.spec_root().spec_id(),
    {
        self.blocks[0].id()
    }

    /// The block that the highest certificate certifies, while it is in the tree.
    pub fn highest_certified_block(&self) -> (r: Option<Arc<ExecutedBlock>>)
        requires
            self.wf(),
        ensures
            r.is_some() == has_block(
                self.blocks(),
                self.spec_highest_quorum_cert().spec_certified_block().id,
            ),
            r matches Some(b) ==> Some(*b) == self.spec_get_block(
                self.spec_highest_quorum_cert().spec_certified_block().id,
            ),
    {
        let id = self.highest_quorum_cert.certified_block().id;
        self.get_block(&id)
    }

    pub fn highest_quorum_cert(&self) -> (r: Arc<QuorumCert>)
        ensures
            *r == self.spec_highest_quorum_cert(),
    {
        share(&self.highest_quorum_cert)
    }

    pub fn highest_ledger_info(&self) -> (r: Arc<QuorumCert>)
        ensures
            *r == self.spec_highest_ledger_info(),
    {
        share(&self.highest_ledger_info)
    }

    pub fn highest_timeout_cert(&self) -> (r: Option<Arc<TimeoutCertificate>>)
        ensures
            r.is_some() == self.spec_highest_timeout_cert().is_some(),
            r matches Some(tc) ==> Some(*tc) == self.spec_highest_timeout_cert(),
    {
        match &self.highest_timeout_cert {
            Some(tc) => Some(share(tc)),
            None => None,
        }
    }

    pub fn get_quorum_cert_for_block(&self, block_id: &HashValue) -> (r: Option<Arc<QuorumCert>>)
        requires
            self.wf(),
        ensures
            r.is_some() == has_cert_for(self.quorum_certs(), *block_id),
            r matches Some(qc) ==> Some(*qc) == self.spec_get_quorum_cert_for_block(*block_id),
    {
        match self.find_quorum_cert(*block_id) {
            Some(k) => Some(share(&self.quorum_certs[k])),
            None => None,
        }
    }

    pub fn max_pruned_blocks_in_mem(&self) -> (n: usize)
        ensures
            n == self.spec_max_pruned_blocks_in_mem(),
    {
        self.max_pruned_blocks_in_mem
    }

    /// The number of blocks in the tree.
    pub fn len(&self) -> (n: usize)
        ensures
            n == self.blocks().len(),
    {
        self.blocks.len()
    }

    /// The number of parent links in the tree: every block but the root has one.
    pub fn child_links(&self) -> (n: usize)
        requires
            self.wf(),
        ensures
            n == self.blocks().len() - 1,
    {
        self.blocks.len() - 1
    }

    /// The number of pruned ids that are still kept.
    pub fn pruned_blocks_in_mem(&self) -> (n: usize)
        ensures
            n == self.pruned_block_ids().len(),
    {
        self.pruned_block_ids.len()
    }

    /// The ids of the blocks pruned last, the oldest first.
    pub fn pruned_ids(&self) -> (ids: Vec<HashValue>)
        ensures
            ids@ == self.pruned_block_ids(),
    {
        let mut ids: Vec<HashValue> = Vec::new();
        let mut i: usize = 0;
        while i < self.pruned_block_ids.len()
            invariant
                i <= self.pruned_block_ids.len(),
                ids@ == self.pruned_block_ids@.subrange(0, i as int),
            decreases self.pruned_block_ids.len() - i,
        {
            ids.push(self.pruned_block_ids[i]);
            i += 1;
        }
        ids
    }

    /// The ids of all blocks in the tree, in insertion order.
    pub fn get_all_block_id(&self) -> (ids: Vec<HashValue>)
        ensures
            ids@ == self.blocks().map_values(|b: ExecutedBlock| b.spec_id()),
    {
        let mut ids: Vec<HashValue> = Vec::new();
        let mut i: usize = 0;
        while i < self.blocks.len()
            invariant
                i <= self.blocks.len(),
                ids@ == self.blocks().subrange(0, i as int).map_values(
                    |b: ExecutedBlock| b.spec_id(),
                ),
            decreases self.blocks.len() - i,
        {
            ids.push(self.blocks[i].id());
            i += 1;
            assert(ids@ =~= self.blocks().subrange(0, i as int).map_values(
                |b: ExecutedBlock| b.spec_id(),
            ));
        }
        ids
    }

    /// Inserts a block below its parent and returns the handle under which the tree
    /// keeps it. A block whose id is already present is not inserted again: the
    /// handle of the block that is there comes back.
    pub fn insert_block(&mut self, block: ExecutedBlock) -> (r: Result<Arc<ExecutedBlock>, Error>)
        requires
            old(self).wf(),
            !has_block(old(self).blocks(), block.spec_id()) && has_block(
                old(self).blocks(),
                block.spec_parent_id(),
            ) ==> {
                let parent = old(self).blocks()[index_of(
                    old(self).blocks(),
                    block.spec_parent_id(),
                )];
                &&& parent.spec_round() < block.spec_round()
                &&& parent.spec_timestamp_usecs() < block.spec_timestamp_usecs()
            },
        ensures
            final(self).wf(),
            final(self).same_certificates(old(self)),
            final(self).blocks() == blocks_after_insert(old(self).blocks(), block),
            final(self).spec_root() == old(self).spec_root(),
            r is Ok ==> has_block(final(self).blocks(), block.spec_id()),
            match r {
                Ok(b) => if has_block(old(self).blocks(), block.spec_id()) {
                    &&& final(self).blocks() == old(self).blocks()
                    &&& Some(*b) == old(self).spec_get_block(block.spec_id())
                } else {
                    &&& has_block(old(self).blocks(), block.spec_parent_id())
                    &&& final(self).blocks() == old(self).blocks().push(block)
                    &&& *b == block
                },
                Err(e) => {
                    &&& e == Error::BlockNotFound(block.spec_parent_id())
                    &&& !has_block(old(self).blocks(), block.spec_id())
                    &&& !has_block(old(self).blocks(), block.spec_parent_id())
                    &&& final(self).blocks() == old(self).blocks()
                },
            },
    {
        self.insert_shared_block(Arc::new(block))
    }

    /// Inserts a block that is shared already; in all else as `insert_block`.
    pub fn insert_shared_block(&mut self, handle: Arc<ExecutedBlock>) -> (r: Result<Arc<ExecutedBlock>, Error>)
        requires
            old(self).wf(),
            !has_block(old(self).blocks(), (*handle).spec_id()) && has_block(
                old(self).blocks(),
                (*handle).spec_parent_id(),
            ) ==> {
                let parent = old(self).blocks()[index_of(
                    old(self).blocks(),
                    (*handle).spec_parent_id(),
                )];
                &&& parent.spec_round() < (*handle).spec_round()
                &&& parent.spec_timestamp_usecs() < (*handle).spec_timestamp_usecs()
            },
        ensures
            final(self).wf(),
            final(self).same_certificates(old(self)),
            final(self).blocks() == blocks_after_insert(old(self).blocks(), *handle),
            final(self).spec_root() == old(self).spec_root(),
            r is Ok ==> has_block(final(self).blocks(), (*handle).spec_id()),
            match r {
                Ok(b) => if has_block(old(self).blocks(), (*handle).spec_id()) {
                    &&& final(self).blocks() == old(self).blocks()
                    &&& Some(*b) == old(self).spec_get_block((*handle).spec_id())
                } else {
                    &&& has_block(old(self).blocks(), (*handle).spec_parent_id())
                    &&& final(self).blocks() == old(self).blocks().push(*handle)
                    &&& *b == *handle
                },
                Err(e) => {
                    &&& e == Error::BlockNotFound((*handle).spec_parent_id())
                    &&& !has_block(old(self).blocks(), (*handle).spec_id())
                    &&& !has_block(old(self).blocks(), (*handle).spec_parent_id())
                    &&& final(self).blocks() == old(self).blocks()
                },
            },
    {
        let block_id = handle.id();
        if let Some(i) = self.find_block(block_id) {
            return Ok(share(&self.blocks[i]));
        }
        let parent_at = match self.find_block(handle.parent_id()) {
            Some(p) => p,
            None => {
                return Err(Error::BlockNotFound(handle.parent_id()));
            },
        };
        let shared = share(&handle);
        self.blocks.push(handle);
        proof {
            let before = old(self).blocks();
            let block = *shared;
            assert(self.blocks() =~= before.push(block));
            assert(self.blocks()[before.len() as int].spec_id() == block.spec_id());
            lemma_push_keeps_tree(before, block, parent_at as int);
            assert forall|k: int| 0 <= k < self.quorum_certs().len() implies cert_matches_block(
                self.blocks(),
                #[trigger] self.quorum_certs()[k],
            ) by {
                lemma_cert_matches_after_push(before, block, self.quorum_certs()[k]);
            }
        }
        Ok(shared)
    }

    /// Puts `tc` in the place of the highest timeout certificate if its round is above
    /// the round of the one that is there; says whether it did.
    pub fn replace_timeout_cert(&mut self, tc: Arc<TimeoutCertificate>) -> (replaced: bool)
        requires
            old(self).wf(),
        ensures
            final(self).wf(),
            final(self).blocks() == old(self).blocks(),
            final(self).quorum_certs() == old(self).quorum_certs(),
            final(self).spec_highest_quorum_cert() == old(self).spec_highest_quorum_cert(),
            final(self).spec_highest_ledger_info() == old(self).spec_highest_ledger_info(),
            final(self).pruned_block_ids() == old(self).pruned_block_ids(),
            final(self).spec_max_pruned_blocks_in_mem() == old(self).spec_max_pruned_blocks_in_mem(),
            final(self).pending_votes() == old(self).pending_votes(),
            replaced == Self::timeout_cert_is_newer(old(self).spec_highest_timeout_cert(), *tc),
            final(self).spec_highest_timeout_cert() == if replaced {
                Some(*tc)
            } else {
                old(self).spec_highest_timeout_cert()
            },
    {
        let current_round: u64 = match &self.highest_timeout_cert {
            Some(cur) => cur.round(),
            None => 0,
        };
        if tc.round() <= current_round {
            return false;
        }
        self.highest_timeout_cert = Some(tc);
        true
    }

    /// `tc` is for a round above that of `current`; no certificate counts as round
    /// zero.
    pub open spec fn timeout_cert_is_newer(
        current: Option<TimeoutCertificate>,
        tc: TimeoutCertificate,
    ) -> bool {
        match current {
            Some(cur) => tc.spec_round() > cur.spec_round(),
            None => tc.spec_round() > 0,
        }
    }

    /// What the tree answers to a certificate: it is taken where the certified block
    /// is present with the very block info that the certificate carries.
    pub open spec fn quorum_cert_verdict(blocks: Seq<ExecutedBlock>, qc: QuorumCert) -> Result<
        (),
        Error,
    > {
        let certified = qc.spec_certified_block();
        if !has_block(blocks, certified.id) {
            Err(Error::InconsistentBlockInfo)
        } else {
            let local = blocks[index_of(blocks, certified.id)].spec_block_info();
            if local.executed_state_id != certified.executed_state_id {
                Err(Error::ExecutionDivergence)
            } else if local != certified {
                Err(Error::InconsistentBlockInfo)
            } else {
                Ok(())
            }
        }
    }

    /// Tests a certificate against the tree without storing it.
    pub fn verify_quorum_cert(&self, qc: &QuorumCert) -> (r: Result<(), Error>)
        requires
            self.wf(),
        ensures
            r == Self::quorum_cert_verdict(self.blocks(), *qc),
    {
        let certified = qc.certified_block();
        match self.find_block(certified.id) {
            None => Err(Error::InconsistentBlockInfo),
            Some(i) => {
                let local = self.blocks[i].block_info();
                if local.executed_state_id != certified.executed_state_id {
                    Err(Error::ExecutionDivergence)
                } else if local != certified {
                    Err(Error::InconsistentBlockInfo)
                } else {
                    Ok(())
                }
            },
        }
    }

    /// Records a certificate for a block of the tree. The first certificate for a
    /// block is kept; a later one for the same block is not stored. The highest
    /// certificate and the highest commit decision move up where the new certificate
    /// is strictly above them. A certificate that the tree turns down changes
    /// nothing.
    pub fn insert_quorum_cert(&mut self, qc: Arc<QuorumCert>) -> (r: Result<(), Error>)
        requires
            old(self).wf(),
        ensures
            final(self).wf(),
            final(self).blocks() == old(self).blocks(),
            final(self).spec_highest_timeout_cert() == old(self).spec_highest_timeout_cert(),
            final(self).pruned_block_ids() == old(self).pruned_block_ids(),
            final(self).spec_max_pruned_blocks_in_mem() == old(self).spec_max_pruned_blocks_in_mem(),
            final(self).pending_votes() == old(self).pending_votes(),
            r == Self::quorum_cert_verdict(old(self).blocks(), *qc),
            r is Err ==> final(self).same_certificates(old(self)),
            r is Ok ==> final(self).certificates() == certificates_after_insert(
                old(self).certificates(),
                *qc,
            ),
    {
        match self.verify_quorum_cert(&qc) {
            Err(e) => {
                return Err(e);
            },
            Ok(()) => {},
        }
        let block_id = qc.certified_block().id;
        let qc_round: u64 = qc.certified_block().round;
        let qc_commit_round: u64 = qc.commit_info().round;
        if qc_round > self.highest_quorum_cert.certified_block().round {
            self.highest_quorum_cert = share(&qc);
        }
        if self.find_quorum_cert(block_id).is_none() {
            self.quorum_certs.push(share(&qc));
            proof {
                assert(self.quorum_certs() =~= old(self).quorum_certs().push(*qc));
            }
        }
        if self.highest_ledger_info.commit_info().round < qc_commit_round {
            self.highest_ledger_info = qc;
        }
        Ok(())
    }

    /// The blocks from the child of the root down to the block `block_id`: empty for
    /// the root, nothing for an id that is not in the tree.
    pub fn path_from_root(&self, block_id: HashValue) -> (r: Option<Vec<Arc<ExecutedBlock>>>)
        requires
            self.wf(),
        ensures
            r.is_some() == has_block(self.blocks(), block_id),
            r matches Some(path) ==> blocks_of(path@) == path_to(
                self.blocks(),
                index_of(self.blocks(), block_id),
            ),
    {
        let start = match self.find_block(block_id) {
            Some(i) => i,
            None => {
                return None;
            },
        };
        let mut up: Vec<Arc<ExecutedBlock>> = Vec::new();
        let mut cur: usize = start;
        while cur > 0
            invariant
                self.wf(),
                cur < self.blocks.len(),
                blocks_of(up@) + chain_up(self.blocks(), cur as int) == chain_up(
                    self.blocks(),
                    start as int,
                ),
            decreases cur,
        {
            up.push(share(&self.blocks[cur]));
            let parent = self.find_block(self.blocks[cur].parent_id());
            proof {
                lemma_parent_index(self.blocks(), cur as int);
                assert(chain_up(self.blocks(), cur as int) == seq![self.blocks()[cur as int]]
                    + chain_up(self.blocks(), parent_index(self.blocks(), cur as int)));
            }
            match parent {
                Some(p) => {
                    cur = p;
                },
                None => {
                    return None;
                },
            }
        }
        let mut path: Vec<Arc<ExecutedBlock>> = Vec::new();
        let mut k: usize = up.len();
        while k > 0
            invariant
                k <= up.len(),
                path.len() == up.len() - k,
                forall|m: int|
                    0 <= m < path.len() ==> *(#[trigger] path@[m]) == *up@[up.len() - 1 - m],
            decreases k,
        {
            k -= 1;
            path.push(share(&up[k]));
        }
        Some(path)
    }

    /// The ids to remove when the block `next_root_id` becomes the root. Reads only.
    pub fn find_blocks_to_prune(&self, next_root_id: HashValue) -> (ids: Vec<HashValue>)
        requires
            self.wf(),
        ensures
            ids@ == blocks_to_prune(self.blocks(), next_root_id),
    {
        let n: usize = self.blocks.len();
        let root_id = self.blocks[0].id();
        let mut queue: Vec<HashValue> = Vec::new();
        if next_root_id == root_id {
            return queue;
        }
        queue.push(root_id);
        let mut head: usize = 0;
        while head < queue.len() && head < n
            invariant
                n == self.blocks.len(),
                head <= n,
                bfs_order(self.blocks(), queue@, head as int, next_root_id) == blocks_to_prune(
                    self.blocks(),
                    next_root_id,
                ),
            decreases n - head,
        {
            let cur = queue[head];
            let ghost before = queue@;
            let mut k: usize = 1;
            while k < n
                invariant
                    n == self.blocks.len(),
                    1 <= k <= n,
                    head < before.len(),
                    cur == before[head as int],
                    queue@ == before + children_upto(self.blocks(), cur, next_root_id, k as int),
                decreases n - k,
            {
                let b = &self.blocks[k];
                if b.parent_id() == cur && b.id() != next_root_id {
                    queue.push(b.id());
                }
                k += 1;
            }
            head += 1;
        }
        queue
    }

    /// Makes the block `root_id` the root. `newly_pruned_blocks` are the ids that
    /// `find_blocks_to_prune` gave for it: these blocks leave the tree, so that the
    /// new root and what lies below it stay, in their order. The certificates of the
    /// blocks that leave are dropped, and the ids are recorded in the window of
    /// pruned ids, which keeps the newest entries up to its bound.
    pub fn process_pruned_blocks(&mut self, root_id: HashValue, newly_pruned_blocks: Vec<HashValue>)
        requires
            old(self).wf(),
            has_block(old(self).blocks(), root_id),
            newly_pruned_blocks@ == blocks_to_prune(old(self).blocks(), root_id),
        ensures
            final(self).wf(),
            final(self).blocks() == subtree(old(self).blocks(), root_id),
            forall|id: HashValue|
                #![trigger has_block(final(self).blocks(), id)]
                #![trigger newly_pruned_blocks@.contains(id)]
                has_block(final(self).blocks(), id) <==> has_block(old(self).blocks(), id)
                    && !newly_pruned_blocks@.contains(id),
            forall|id: HashValue| #[trigger]
                has_block(final(self).blocks(), id) ==> final(self).spec_get_block(id) == old(
                    self,
                ).spec_get_block(id),
            forall|k: int|
                0 <= k < final(self).quorum_certs().len() ==> final(self).spec_root().spec_round()
                    <= (#[trigger] final(self).quorum_certs()[k]).spec_certified_block().round,
            final(self).spec_root() == old(self).blocks()[index_of(old(self).blocks(), root_id)],
            old(self).spec_root().spec_round() <= final(self).spec_root().spec_round(),
            final(self).quorum_certs() == retain_certs(
                old(self).quorum_certs(),
                final(self).blocks(),
                old(self).quorum_certs().len() as int,
            ),
            final(self).pruned_block_ids() == newest(
                old(self).pruned_block_ids() + newly_pruned_blocks@,
                old(self).spec_max_pruned_blocks_in_mem() as int,
            ),
            final(self).pruned_block_ids().len() == if old(self).pruned_block_ids().len()
                + newly_pruned_blocks@.len() <= old(self).spec_max_pruned_blocks_in_mem() {
                old(self).pruned_block_ids().len() + newly_pruned_blocks@.len()
            } else {
                old(self).spec_max_pruned_blocks_in_mem() as nat
            },
            final(self).spec_highest_quorum_cert() == old(self).spec_highest_quorum_cert(),
            final(self).spec_highest_ledger_info() == old(self).spec_highest_ledger_info(),
            final(self).spec_highest_timeout_cert() == old(self).spec_highest_timeout_cert(),
            final(self).spec_max_pruned_blocks_in_mem() == old(self).spec_max_pruned_blocks_in_mem(),
            final(self).pending_votes() == old(self).pending_votes(),
    {
        let n: usize = self.blocks.len();
        let mut keep: Vec<bool> = Vec::new();
        let mut kept: Vec<Arc<ExecutedBlock>> = Vec::new();
        let mut i: usize = 0;
        while i < n
            invariant
                self.wf(),
                self.blocks() == old(self).blocks(),
                n == self.blocks.len(),
                i <= n,
                keep.len() == i,
                forall|j: int|
                    0 <= j < i ==> #[trigger] keep@[j] == descends_from(self.blocks(), j, root_id),
                blocks_of(kept@) == retain_descendants(self.blocks(), root_id, i as int),
            decreases n - i,
        {
            let b = &self.blocks[i];
            let below: bool = if b.id() == root_id {
                true
            } else if i == 0 {
                false
            } else {
                proof {
                    lemma_parent_index(self.blocks(), i as int);
                }
                match self.find_block(b.parent_id()) {
                    Some(p) => keep[p],
                    None => false,
                }
            };
            keep.push(below);
            if below {
                kept.push(share(b));
            }
            i += 1;
        }
        self.blocks = kept;

        let ghost old_certs = old(self).quorum_certs();
        let ghost old_blocks = old(self).blocks();
        let m: usize = self.quorum_certs.len();
        let mut kept_certs: Vec<Arc<QuorumCert>> = Vec::new();
        let mut k: usize = 0;
        while k < m
            invariant
                self.quorum_certs() == old_certs,
                self.blocks() == subtree(old_blocks, root_id),
                m == self.quorum_certs.len(),
                k <= m,
                certs_of(kept_certs@) == retain_certs(old_certs, self.blocks(), k as int),
            decreases m - k,
        {
            let qc = &self.quorum_certs[k];
            if self.find_block(qc.certified_block().id).is_some() {
                kept_certs.push(share(qc));
            }
            k += 1;
        }
        self.quorum_certs = kept_certs;

        let ghost pruned_before = self.pruned_block_ids@;
        let mut x: usize = 0;
        while x < newly_pruned_blocks.len()
            invariant
                x <= newly_pruned_blocks.len(),
                self.pruned_block_ids@ == pruned_before + newly_pruned_blocks@.subrange(0, x as int),
                self.blocks() == subtree(old_blocks, root_id),
                self.quorum_certs() == retain_certs(old_certs, self.blocks(), old_certs.len() as int),
                self.spec_highest_quorum_cert() == old(self).spec_highest_quorum_cert(),
                self.spec_highest_ledger_info() == old(self).spec_highest_ledger_info(),
                self.spec_highest_timeout_cert() == old(self).spec_highest_timeout_cert(),
                self.spec_max_pruned_blocks_in_mem() == old(self).spec_max_pruned_blocks_in_mem(),
                self.pending_votes() == old(self).pending_votes(),
            decreases newly_pruned_blocks.len() - x,
        {
            self.pruned_block_ids.push_back(newly_pruned_blocks[x]);
            x += 1;
        }
        let ghost all = pruned_before + newly_pruned_blocks@;
        while self.pruned_block_ids.len() > self.max_pruned_blocks_in_mem
            invariant
                self.pruned_block_ids@.len() <= all.len(),
                self.pruned_block_ids@ == all.subrange(
                    all.len() - self.pruned_block_ids@.len(),
                    all.len() as int,
                ),
                self.pruned_block_ids@.len() < all.len() ==> self.pruned_block_ids@.len()
                    >= self.max_pruned_blocks_in_mem,
                self.blocks() == subtree(old_blocks, root_id),
                self.quorum_certs() == retain_certs(old_certs, self.blocks(), old_certs.len() as int),
                self.spec_highest_quorum_cert() == old(self).spec_highest_quorum_cert(),
                self.spec_highest_ledger_info() == old(self).spec_highest_ledger_info(),
                self.spec_highest_timeout_cert() == old(self).spec_highest_timeout_cert(),
                self.spec_max_pruned_blocks_in_mem() == old(self).spec_max_pruned_blocks_in_mem(),
                self.pending_votes() == old(self).pending_votes(),
            decreases self.pruned_block_ids@.len(),
        {
            let _ = self.pruned_block_ids.pop_front();
        }
        proof {
            lemma_retain_certs(old_certs, self.blocks(), old_certs.len() as int);
            lemma_subtree(old_blocks, root_id);
            law_prune_partitions(old_blocks, root_id);
            assert forall|k: int| 0 <= k < self.quorum_certs().len() implies self.spec_root().spec_round()
                <= (#[trigger] self.quorum_certs()[k]).spec_certified_block().round by {
                let qc = self.quorum_certs()[k];
                let i = index_of(self.blocks(), qc.spec_certified_block().id);
                if i >= 1 {
                    lemma_round_above_root(self.blocks(), i);
                }
            }
        }
    }

    /// Hands a vote to the pending votes and says what became of it. A certificate
    /// that the vote completes is returned, not stored: the block it certifies may
    /// not be here yet.
    pub fn insert_vote(&mut self, vote: &Vote, validator_verifier: &ValidatorVerifier) -> (r:
        VoteReceptionResult)
        requires
            old(self).wf(),
            validator_verifier.wf(),
        ensures
            final(self).wf(),
            final(self).blocks() == old(self).blocks(),
            final(self).quorum_certs() == old(self).quorum_certs(),
            final(self).spec_highest_quorum_cert() == old(self).spec_highest_quorum_cert(),
            final(self).spec_highest_ledger_info() == old(self).spec_highest_ledger_info(),
            final(self).spec_highest_timeout_cert() == old(self).spec_highest_timeout_cert(),
            final(self).pruned_block_ids() == old(self).pruned_block_ids(),
            final(self).spec_max_pruned_blocks_in_mem() == old(self).spec_max_pruned_blocks_in_mem(),
            final(self).pending_votes() == votes_after_insert(
                old(self).pending_votes(),
                *vote,
                validator_verifier.validators(),
            ),
            reception_result(
                r,
                old(self).pending_votes(),
                *vote,
                validator_verifier.validators(),
                validator_verifier.spec_quorum_voting_power(),
            ),
            r matches VoteReceptionResult::NewQuorumCertificate(qc) ==> distinct_signers(
                qc.signed_ledger_info.signatures@,
            ),
            r matches VoteReceptionResult::NewTimeoutCertificate(tc) ==> distinct_signers(
                tc.signatures@,
            ),
    {
        self.pending_votes.insert_vote(vote, validator_verifier)
    }

    /// Every block but the root has its parent in the tree and stands above it in
    /// round and in timestamp.
    pub proof fn law_blocks_follow_parents(&self, id: HashValue)
        requires
            self.wf(),
            has_block(self.blocks(), id),
            id != self.spec_root().spec_id(),
        ensures
            self.spec_get_block(id) matches Some(b) && self.spec_get_block(b.spec_parent_id())
                matches Some(parent) && parent.spec_round() < b.spec_round()
                && parent.spec_timestamp_usecs() < b.spec_timestamp_usecs(),
    {
        law_parent_precedes_child(self.blocks(), id);
    }

    /// Every block of the tree is at or above the round of the root.
    pub proof fn law_root_has_lowest_round(&self, id: HashValue)
        requires
            self.wf(),
            has_block(self.blocks(), id),
        ensures
            self.spec_get_block(id) matches Some(b) && self.spec_root().spec_round()
                <= b.spec_round(),
    {
        let i = index_of(self.blocks(), id);
        if i >= 1 {
            lemma_round_above_root(self.blocks(), i);
        }
    }

    /// For every stored certificate the certified block is in the tree, and its block
    /// info is the one that the certificate carries.
    pub proof fn law_certificates_fit_blocks(&self, k: int)
        requires
            self.wf(),
            0 <= k < self.quorum_certs().len(),
        ensures
            self.spec_get_block(self.quorum_certs()[k].spec_certified_block().id) matches Some(b)
                && b.spec_block_info() == self.quorum_certs()[k].spec_certified_block(),
    {
    }

    /// No stored certificate certifies a round above the one of the highest
    /// certificate.
    pub proof fn law_highest_cert_bounds_rounds(&self, k: int)
        requires
            self.wf(),
            0 <= k < self.quorum_certs().len(),
        ensures
            self.quorum_certs()[k].spec_certified_block().round
                <= self.spec_highest_quorum_cert().spec_certified_block().round,
    {
    }
}

} // verus!
