//! The block tree as mathematics: a sequence of executed blocks in insertion order,
//! the root first and every other block after its parent.

use vstd::prelude::*;
use vstd::set_lib::lemma_len_subset;
use crate::block::{ExecutedBlock, QuorumCert};
use crate::hash_value::HashValue;

verus! {

/// Some block of `blocks` has the id `id`.
pub open spec fn has_block(blocks: Seq<ExecutedBlock>, id: HashValue) -> bool {
    exists|i: int| 0 <= i < blocks.len() && (#[trigger] blocks[i]).spec_id() == id
}

/// The position of the block with the id `id`, where there is one.
pub open spec fn index_of(blocks: Seq<ExecutedBlock>, id: HashValue) -> int {
    choose|i: int| 0 <= i < blocks.len() && (#[trigger] blocks[i]).spec_id() == id
}

/// No two blocks share an id.
pub open spec fn distinct_ids(blocks: Seq<ExecutedBlock>) -> bool {
    forall|i: int, j: int|
        0 <= i < j < blocks.len() ==> (#[trigger] blocks[i]).spec_id() != (
        #[trigger] blocks[j]).spec_id()
}

/// The block at `parent` is the parent of the block at `child`: it stands earlier,
/// and the child is above it in round and in timestamp.
pub open spec fn is_parent_at(blocks: Seq<ExecutedBlock>, child: int, parent: int) -> bool {
    &&& 0 <= parent < child < blocks.len()
    &&& blocks[parent].spec_id() == blocks[child].spec_parent_id()
    &&& blocks[parent].spec_round() < blocks[child].spec_round()
    &&& blocks[parent].spec_timestamp_usecs() < blocks[child].spec_timestamp_usecs()
}

/// The block at `i` has its parent before it.
pub open spec fn has_parent_before(blocks: Seq<ExecutedBlock>, i: int) -> bool {
    exists|j: int| #[trigger] is_parent_at(blocks, i, j)
}

/// Every block but the first has its parent before it.
pub open spec fn parents_precede(blocks: Seq<ExecutedBlock>) -> bool {
    forall|i: int| 1 <= i < blocks.len() ==> #[trigger] has_parent_before(blocks, i)
}

/// The position of the parent of the block at `i`.
pub open spec fn parent_index(blocks: Seq<ExecutedBlock>, i: int) -> int {
    choose|j: int| #[trigger] is_parent_at(blocks, i, j)
}

/// A rooted tree: the first block is the root, ids are unique, and every other block
/// comes after its parent in the sequence, in round and in timestamp.
pub open spec fn rooted_tree(blocks: Seq<ExecutedBlock>) -> bool {
    &&& blocks.len() >= 1
    &&& distinct_ids(blocks)
    &&& parents_precede(blocks)
}

/// The block at `i` is the block `ancestor` or lies below it.
pub open spec fn descends_from(blocks: Seq<ExecutedBlock>, i: int, ancestor: HashValue) -> bool
    decreases i,
{
    if i < 0 || i >= blocks.len() {
        false
    } else if blocks[i].spec_id() == ancestor {
        true
    } else if i == 0 {
        false
    } else {
        let p = parent_index(blocks, i);
        0 <= p < i && descends_from(blocks, p, ancestor)
    }
}

/// The blocks from the one at `i` up to the child of the root, the lowest first.
pub open spec fn chain_up(blocks: Seq<ExecutedBlock>, i: int) -> Seq<ExecutedBlock>
    decreases i,
{
    if i <= 0 || i >= blocks.len() {
        Seq::empty()
    } else {
        let p = parent_index(blocks, i);
        if 0 <= p < i {
            seq![blocks[i]] + chain_up(blocks, p)
        } else {
            seq![blocks[i]]
        }
    }
}

/// The path from the child of the root down to the block at `i`; empty for the root.
pub open spec fn path_to(blocks: Seq<ExecutedBlock>, i: int) -> Seq<ExecutedBlock> {
    chain_up(blocks, i).reverse()
}

/// In a sequence with unique ids, a block is found at its own position.
pub proof fn lemma_index_of(blocks: Seq<ExecutedBlock>, i: int)
    requires
        distinct_ids(blocks),
        0 <= i < blocks.len(),
    ensures
        has_block(blocks, blocks[i].spec_id()),
        index_of(blocks, blocks[i].spec_id()) == i,
{
    let j = index_of(blocks, blocks[i].spec_id());
    assert(blocks[j].spec_id() == blocks[i].spec_id());
}

/// In a rooted tree the parent of a block below the root is where `parent_index`
/// says, and nowhere else.
pub proof fn lemma_parent_index(blocks: Seq<ExecutedBlock>, i: int)
    requires
        rooted_tree(blocks),
        1 <= i < blocks.len(),
    ensures
        is_parent_at(blocks, i, parent_index(blocks, i)),
        parent_index(blocks, i) == index_of(blocks, blocks[i].spec_parent_id()),
        has_block(blocks, blocks[i].spec_parent_id()),
{
    assert(has_parent_before(blocks, i));
    let j = choose|j: int| #[trigger] is_parent_at(blocks, i, j);
    assert(blocks[j].spec_id() == blocks[i].spec_parent_id());
}

/// Every block of a rooted tree below the root is above the root in round.
pub proof fn lemma_round_above_root(blocks: Seq<ExecutedBlock>, i: int)
    requires
        rooted_tree(blocks),
        1 <= i < blocks.len(),
    ensures
        blocks[0].spec_round() < blocks[i].spec_round(),
        blocks[0].spec_timestamp_usecs() < blocks[i].spec_timestamp_usecs(),
    decreases i,
{
    lemma_parent_index(blocks, i);
    let p = parent_index(blocks, i);
    if p >= 1 {
        lemma_round_above_root(blocks, p);
    }
}

/// Every block of a rooted tree descends from the root.
pub proof fn lemma_descends_from_root(blocks: Seq<ExecutedBlock>, i: int)
    requires
        rooted_tree(blocks),
        0 <= i < blocks.len(),
    ensures
        descends_from(blocks, i, blocks[0].spec_id()),
    decreases i,
{
    if i >= 1 {
        lemma_parent_index(blocks, i);
        lemma_descends_from_root(blocks, parent_index(blocks, i));
    }
}

/// A descendant of a block stands after it in the sequence.
pub proof fn lemma_descendant_is_later(blocks: Seq<ExecutedBlock>, i: int, a: int)
    requires
        rooted_tree(blocks),
        0 <= i < blocks.len(),
        0 <= a < blocks.len(),
        descends_from(blocks, i, blocks[a].spec_id()),
    ensures
        a <= i,
        blocks[a].spec_round() <= blocks[i].spec_round(),
        a < i ==> blocks[a].spec_round() < blocks[i].spec_round(),
    decreases i,
{
    if blocks[i].spec_id() != blocks[a].spec_id() {
        lemma_parent_index(blocks, i);
        lemma_descendant_is_later(blocks, parent_index(blocks, i), a);
    }
}

/// Appending a block whose parent is present and below it in round and timestamp,
/// and whose id is new, keeps the tree rooted.
pub proof fn lemma_push_keeps_tree(blocks: Seq<ExecutedBlock>, block: ExecutedBlock, p: int)
    requires
        rooted_tree(blocks),
        !has_block(blocks, block.spec_id()),
        0 <= p < blocks.len(),
        blocks[p].spec_id() == block.spec_parent_id(),
        blocks[p].spec_round() < block.spec_round(),
        blocks[p].spec_timestamp_usecs() < block.spec_timestamp_usecs(),
    ensures
        rooted_tree(blocks.push(block)),
{
    let next = blocks.push(block);
    assert forall|i: int| 1 <= i < next.len() implies #[trigger] has_parent_before(next, i) by {
        if i == blocks.len() {
            assert(is_parent_at(next, i, p));
        } else {
            let j = parent_index(blocks, i);
            lemma_parent_index(blocks, i);
            assert(is_parent_at(next, i, j));
        }
    }
}

/// Some certificate of `qcs` certifies the block `id`.
pub open spec fn has_cert_for(qcs: Seq<QuorumCert>, id: HashValue) -> bool {
    exists|k: int| 0 <= k < qcs.len() && (#[trigger] qcs[k]).spec_certified_block().id == id
}

/// The position of the certificate for the block `id`, where there is one.
pub open spec fn cert_index(qcs: Seq<QuorumCert>, id: HashValue) -> int {
    choose|k: int| 0 <= k < qcs.len() && (#[trigger] qcs[k]).spec_certified_block().id == id
}

/// No two certificates certify the same block.
pub open spec fn distinct_certified(qcs: Seq<QuorumCert>) -> bool {
    forall|k: int, l: int|
        0 <= k < l < qcs.len() ==> (#[trigger] qcs[k]).spec_certified_block().id != (
        #[trigger] qcs[l]).spec_certified_block().id
}

/// The block that `qc` certifies is present, and its block info is the one that the
/// certificate carries.
pub open spec fn cert_matches_block(blocks: Seq<ExecutedBlock>, qc: QuorumCert) -> bool {
    &&& has_block(blocks, qc.spec_certified_block().id)
    &&& blocks[index_of(blocks, qc.spec_certified_block().id)].spec_block_info()
        == qc.spec_certified_block()
}

/// Every certificate fits a block of the tree.
pub open spec fn certs_consistent(blocks: Seq<ExecutedBlock>, qcs: Seq<QuorumCert>) -> bool {
    forall|k: int| 0 <= k < qcs.len() ==> cert_matches_block(blocks, #[trigger] qcs[k])
}

/// No certificate certifies a round above the one that `highest` certifies.
pub open spec fn rounds_bounded(qcs: Seq<QuorumCert>, highest: QuorumCert) -> bool {
    forall|k: int|
        0 <= k < qcs.len() ==> (#[trigger] qcs[k]).spec_certified_block().round
            <= highest.spec_certified_block().round
}

/// A certificate that fits a block of the tree still fits after a block is appended.
pub proof fn lemma_cert_matches_after_push(
    blocks: Seq<ExecutedBlock>,
    block: ExecutedBlock,
    qc: QuorumCert,
)
    requires
        distinct_ids(blocks.push(block)),
        cert_matches_block(blocks, qc),
    ensures
        cert_matches_block(blocks.push(block), qc),
{
    let next = blocks.push(block);
    let i = index_of(blocks, qc.spec_certified_block().id);
    lemma_index_of(next, i);
}

/// Among the first `n` blocks, those that are the block `ancestor` or lie below it,
/// in their order.
pub open spec fn retain_descendants(blocks: Seq<ExecutedBlock>, ancestor: HashValue, n: int) -> Seq<
    ExecutedBlock,
>
    decreases n,
{
    if n <= 0 {
        Seq::empty()
    } else {
        let rest = retain_descendants(blocks, ancestor, n - 1);
        if descends_from(blocks, n - 1, ancestor) {
            rest.push(blocks[n - 1])
        } else {
            rest
        }
    }
}

/// The subtree below the block `ancestor`, that block first.
pub open spec fn subtree(blocks: Seq<ExecutedBlock>, ancestor: HashValue) -> Seq<ExecutedBlock> {
    retain_descendants(blocks, ancestor, blocks.len() as int)
}

/// Among the first `n` certificates, those whose block is in `blocks`, in their
/// order.
pub open spec fn retain_certs(qcs: Seq<QuorumCert>, blocks: Seq<ExecutedBlock>, n: int) -> Seq<
    QuorumCert,
>
    decreases n,
{
    if n <= 0 {
        Seq::empty()
    } else {
        let rest = retain_certs(qcs, blocks, n - 1);
        if has_block(blocks, qcs[n - 1].spec_certified_block().id) {
            rest.push(qcs[n - 1])
        } else {
            rest
        }
    }
}

/// The last `max` entries of `ids`, or all of them where there are fewer.
pub open spec fn newest(ids: Seq<HashValue>, max: int) -> Seq<HashValue> {
    if ids.len() <= max {
        ids
    } else {
        ids.subrange(ids.len() - max, ids.len() as int)
    }
}

/// Where the block stands that ends up at position `m` of
/// `retain_descendants(blocks, ancestor, n)`.
pub open spec fn source_index(blocks: Seq<ExecutedBlock>, ancestor: HashValue, n: int, m: int) -> int
    decreases n,
{
    if n <= 0 {
        -1
    } else if descends_from(blocks, n - 1, ancestor) && m == retain_descendants(
        blocks,
        ancestor,
        n - 1,
    ).len() {
        n - 1
    } else {
        source_index(blocks, ancestor, n - 1, m)
    }
}

/// Retaining from a longer prefix yields at least as many blocks, and the same ones
/// at the positions that the shorter prefix fills.
pub proof fn lemma_retain_prefix(blocks: Seq<ExecutedBlock>, a: HashValue, k: int, n: int)
    requires
        0 <= k <= n <= blocks.len(),
    ensures
        retain_descendants(blocks, a, k).len() <= retain_descendants(blocks, a, n).len(),
        retain_descendants(blocks, a, n).len() <= n,
        forall|m: int|
            0 <= m < retain_descendants(blocks, a, k).len() ==> retain_descendants(blocks, a, n)[m]
                == retain_descendants(blocks, a, k)[m],
    decreases n,
{
    if n > 0 {
        if k < n {
            lemma_retain_prefix(blocks, a, k, n - 1);
        } else {
            lemma_retain_prefix(blocks, a, n - 1, n - 1);
        }
    }
}

/// A retained block stands in the result at the position given by the number of
/// retained blocks before it.
pub proof fn lemma_retained_position(blocks: Seq<ExecutedBlock>, a: HashValue, k: int, n: int)
    requires
        0 <= k < n <= blocks.len(),
        descends_from(blocks, k, a),
    ensures
        retain_descendants(blocks, a, k).len() < retain_descendants(blocks, a, n).len(),
        retain_descendants(blocks, a, n)[retain_descendants(blocks, a, k).len() as int]
            == blocks[k],
{
    lemma_retain_prefix(blocks, a, k + 1, n);
}

/// Every position of the result is filled from a retained block of the prefix.
pub proof fn lemma_source_index(blocks: Seq<ExecutedBlock>, a: HashValue, n: int, m: int)
    requires
        0 <= n <= blocks.len(),
        0 <= m < retain_descendants(blocks, a, n).len(),
    ensures
        0 <= source_index(blocks, a, n, m) < n,
        descends_from(blocks, source_index(blocks, a, n, m), a),
        retain_descendants(blocks, a, n)[m] == blocks[source_index(blocks, a, n, m)],
        retain_descendants(blocks, a, source_index(blocks, a, n, m)).len() == m,
    decreases n,
{
    if n > 0 {
        let rest = retain_descendants(blocks, a, n - 1);
        if !(descends_from(blocks, n - 1, a) && m == rest.len()) {
            lemma_source_index(blocks, a, n - 1, m);
        }
    }
}

/// Where no block of the prefix is retained, the result is empty.
pub proof fn lemma_retain_nothing(blocks: Seq<ExecutedBlock>, a: HashValue, n: int)
    requires
        0 <= n <= blocks.len(),
        forall|j: int| 0 <= j < n ==> !descends_from(blocks, j, a),
    ensures
        retain_descendants(blocks, a, n).len() == 0,
    decreases n,
{
    if n > 0 {
        lemma_retain_nothing(blocks, a, n - 1);
    }
}

/// The subtree below a block of a rooted tree is a rooted tree with that block as
/// its root. It holds the descendants of the block and no others, each as it was.
pub proof fn lemma_subtree(blocks: Seq<ExecutedBlock>, a: HashValue)
    requires
        rooted_tree(blocks),
        has_block(blocks, a),
    ensures
        rooted_tree(subtree(blocks, a)),
        subtree(blocks, a)[0] == blocks[index_of(blocks, a)],
        forall|id: HashValue|
            #![trigger has_block(subtree(blocks, a), id)]
            #![trigger has_block(blocks, id)]
            has_block(subtree(blocks, a), id) <==> has_block(blocks, id) && descends_from(
                blocks,
                index_of(blocks, id),
                a,
            ),
        forall|id: HashValue| #[trigger]
            has_block(subtree(blocks, a), id) ==> subtree(blocks, a)[index_of(
                subtree(blocks, a),
                id,
            )] == blocks[index_of(blocks, id)],
{
    let n = blocks.len() as int;
    let r = subtree(blocks, a);
    let ia = index_of(blocks, a);
    // nothing before the new root is retained
    assert forall|j: int| 0 <= j < ia implies !descends_from(blocks, j, a) by {
        if descends_from(blocks, j, a) {
            lemma_descendant_is_later(blocks, j, ia);
        }
    }
    lemma_retain_nothing(blocks, a, ia);
    lemma_retained_position(blocks, a, ia, n);

    assert forall|m1: int, m2: int| 0 <= m1 < m2 < r.len() implies (#[trigger] r[m1]).spec_id() != (
    #[trigger] r[m2]).spec_id() by {
        lemma_source_index(blocks, a, n, m1);
        lemma_source_index(blocks, a, n, m2);
        let k1 = source_index(blocks, a, n, m1);
        let k2 = source_index(blocks, a, n, m2);
        assert(r[m1] == blocks[k1] && r[m2] == blocks[k2] && k1 != k2);
    }
    assert forall|m: int| 1 <= m < r.len() implies #[trigger] has_parent_before(r, m) by {
        lemma_source_index(blocks, a, n, m);
        let k = source_index(blocks, a, n, m);
        lemma_parent_index(blocks, k);
        let p = parent_index(blocks, k);
        lemma_retained_position(blocks, a, p, n);
        lemma_retain_prefix(blocks, a, p + 1, k);
        let mp = retain_descendants(blocks, a, p).len() as int;
        assert(is_parent_at(r, m, mp));
    }

    assert forall|id: HashValue| has_block(r, id) implies has_block(blocks, id) && descends_from(
        blocks,
        index_of(blocks, id),
        a,
    ) && r[index_of(r, id)] == blocks[index_of(blocks, id)] by {
        let m = index_of(r, id);
        lemma_source_index(blocks, a, n, m);
        let k = source_index(blocks, a, n, m);
        assert(blocks[k].spec_id() == id);
    }
    assert forall|id: HashValue|
        has_block(blocks, id) && descends_from(blocks, index_of(blocks, id), a) implies has_block(
        r,
        id,
    ) by {
        let k = index_of(blocks, id);
        lemma_retained_position(blocks, a, k, n);
    }
}

/// The ids of the children of the block `parent` among the first `n` blocks, in
/// insertion order, without the block `skip`.
pub open spec fn children_upto(
    blocks: Seq<ExecutedBlock>,
    parent: HashValue,
    skip: HashValue,
    n: int,
) -> Seq<HashValue>
    decreases n,
{
    if n <= 1 {
        Seq::empty()
    } else {
        let rest = children_upto(blocks, parent, skip, n - 1);
        let b = blocks[n - 1];
        if b.spec_parent_id() == parent && b.spec_id() != skip {
            rest.push(b.spec_id())
        } else {
            rest
        }
    }
}

/// The ids of the children of the block `parent`, in insertion order, without the
/// block `skip`.
pub open spec fn children_of(blocks: Seq<ExecutedBlock>, parent: HashValue, skip: HashValue) -> Seq<
    HashValue,
> {
    children_upto(blocks, parent, skip, blocks.len() as int)
}

/// Breadth-first traversal, continued: `queue` holds the ids reached so far, of which
/// those before `head` have had their children appended. Each step appends the
/// children of the block at `head`; the block `skip` and what lies below it are
/// never entered.
pub open spec fn bfs_order(
    blocks: Seq<ExecutedBlock>,
    queue: Seq<HashValue>,
    head: int,
    skip: HashValue,
) -> Seq<HashValue>
    decreases blocks.len() - head,
{
    if head < 0 || head >= queue.len() || head >= blocks.len() {
        queue
    } else {
        bfs_order(blocks, queue + children_of(blocks, queue[head], skip), head + 1, skip)
    }
}

/// The ids to remove when the block `next_root` becomes the root: every block that is
/// neither `next_root` nor below it, in breadth-first order from the root, the
/// children of a block in insertion order. Nothing where `next_root` is the root.
pub open spec fn blocks_to_prune(blocks: Seq<ExecutedBlock>, next_root: HashValue) -> Seq<
    HashValue,
> {
    if blocks.len() == 0 || blocks[0].spec_id() == next_root {
        Seq::empty()
    } else {
        bfs_order(blocks, seq![blocks[0].spec_id()], 0, next_root)
    }
}

/// What `children_upto` holds: the ids of the blocks after the root, among the first
/// `n`, whose parent is `parent` and which are not `skip`; none of them twice.
pub proof fn lemma_children_upto(
    blocks: Seq<ExecutedBlock>,
    parent: HashValue,
    skip: HashValue,
    n: int,
)
    requires
        distinct_ids(blocks),
        0 <= n <= blocks.len(),
    ensures
        forall|id: HashValue|
            children_upto(blocks, parent, skip, n).contains(id) <==> exists|k: int|
                1 <= k < n && (#[trigger] blocks[k]).spec_id() == id && blocks[k].spec_parent_id()
                    == parent && id != skip,
        children_upto(blocks, parent, skip, n).no_duplicates(),
    decreases n,
{
    let c = children_upto(blocks, parent, skip, n);
    if n > 1 {
        lemma_children_upto(blocks, parent, skip, n - 1);
        let rest = children_upto(blocks, parent, skip, n - 1);
        let b = blocks[n - 1];
        if b.spec_parent_id() == parent && b.spec_id() != skip {
            assert(!rest.contains(b.spec_id()));
            assert forall|id: HashValue| c.contains(id) implies exists|k: int|
                1 <= k < n && (#[trigger] blocks[k]).spec_id() == id && blocks[k].spec_parent_id()
                    == parent && id != skip by {
                let m = choose|m: int| 0 <= m < c.len() && c[m] == id;
                if m < rest.len() {
                    assert(rest.contains(id));
                }
            }
            assert forall|id: HashValue|
                (exists|k: int|
                    1 <= k < n && (#[trigger] blocks[k]).spec_id() == id
                        && blocks[k].spec_parent_id() == parent && id != skip) implies c.contains(
                id,
            ) by {
                let k = choose|k: int|
                    1 <= k < n && (#[trigger] blocks[k]).spec_id() == id
                        && blocks[k].spec_parent_id() == parent && id != skip;
                if k == n - 1 {
                    assert(c[rest.len() as int] == id);
                } else {
                    assert(rest.contains(id));
                    let m = choose|m: int| 0 <= m < rest.len() && rest[m] == id;
                    assert(c[m] == id);
                }
            }
        }
    }
}

/// The entry at `m` of the queue was appended as a child of an entry before `head`.
pub open spec fn appended_below(
    blocks: Seq<ExecutedBlock>,
    queue: Seq<HashValue>,
    head: int,
    m: int,
) -> bool {
    exists|j: int|
        0 <= j < head && index_of(blocks, queue[m]) >= 1 && blocks[index_of(
            blocks,
            queue[m],
        )].spec_parent_id() == #[trigger] queue[j]
}

/// What holds of the queue of a traversal that started at the root: nothing stands
/// in it twice; it holds only blocks outside the subtree of `skip`; the children
/// outside that subtree of every entry before `head` are in it; and every entry but
/// the first came in as such a child.
pub open spec fn traversal_state(
    blocks: Seq<ExecutedBlock>,
    queue: Seq<HashValue>,
    head: int,
    skip: HashValue,
) -> bool {
    &&& 0 <= head <= queue.len()
    &&& queue.len() >= 1
    &&& queue[0] == blocks[0].spec_id()
    &&& queue.no_duplicates()
    &&& forall|m: int|
        0 <= m < queue.len() ==> has_block(blocks, #[trigger] queue[m]) && !descends_from(
            blocks,
            index_of(blocks, queue[m]),
            skip,
        )
    &&& forall|j: int, k: int|
        0 <= j < head && 1 <= k < blocks.len() && (#[trigger] blocks[k]).spec_parent_id()
            == #[trigger] queue[j] && blocks[k].spec_id() != skip ==> queue.contains(
            blocks[k].spec_id(),
        )
    &&& forall|m: int| 1 <= m < queue.len() ==> #[trigger] appended_below(blocks, queue, head, m)
}

/// A queue without repetitions that holds only ids of blocks is no longer than the
/// sequence of blocks.
pub proof fn lemma_queue_bounded(blocks: Seq<ExecutedBlock>, queue: Seq<HashValue>)
    requires
        queue.no_duplicates(),
        forall|m: int| 0 <= m < queue.len() ==> has_block(blocks, #[trigger] queue[m]),
    ensures
        queue.len() <= blocks.len(),
{
    let ids = blocks.map_values(|b: ExecutedBlock| b.spec_id());
    assert forall|id: HashValue| queue.to_set().contains(id) implies ids.to_set().contains(id) by {
        let i = index_of(blocks, id);
        assert(ids[i] == id);
    }
    lemma_len_subset(queue.to_set(), ids.to_set());
    queue.unique_seq_to_set();
    ids.lemma_cardinality_of_set();
}

/// One step of the traversal keeps its state.
pub proof fn lemma_traversal_step(
    blocks: Seq<ExecutedBlock>,
    queue: Seq<HashValue>,
    head: int,
    skip: HashValue,
)
    requires
        rooted_tree(blocks),
        traversal_state(blocks, queue, head, skip),
        head < queue.len(),
    ensures
        traversal_state(blocks, queue + children_of(blocks, queue[head], skip), head + 1, skip),
{
    let n = blocks.len() as int;
    let cur = queue[head];
    let c = children_of(blocks, cur, skip);
    let next = queue + c;
    lemma_children_upto(blocks, cur, skip, n);

    // what a newly appended id is
    assert forall|x: int| 0 <= x < c.len() implies has_block(blocks, #[trigger] c[x])
        && index_of(blocks, c[x]) >= 1 && blocks[index_of(blocks, c[x])].spec_parent_id() == cur
        && c[x] != skip && !descends_from(blocks, index_of(blocks, c[x]), skip)
        && !queue.contains(c[x]) by {
        let id = c[x];
        assert(c.contains(id));
        let k = choose|k: int|
            1 <= k < n && (#[trigger] blocks[k]).spec_id() == id && blocks[k].spec_parent_id()
                == cur && id != skip;
        lemma_parent_index(blocks, k);
        assert(blocks[parent_index(blocks, k)].spec_id() == cur);
        if queue.contains(id) {
            let m = choose|m: int| 0 <= m < queue.len() && queue[m] == id;
            if m != 0 {
                assert(appended_below(blocks, queue, head, m));
            }
        }
    }
    assert forall|j: int, k: int|
        0 <= j < head + 1 && 1 <= k < blocks.len() && (#[trigger] blocks[k]).spec_parent_id()
            == #[trigger] next[j] && blocks[k].spec_id() != skip implies next.contains(
        blocks[k].spec_id(),
    ) by {
        if j < head {
            let m = choose|m: int| 0 <= m < queue.len() && queue[m] == blocks[k].spec_id();
            assert(next[m] == blocks[k].spec_id());
        } else {
            assert(c.contains(blocks[k].spec_id()));
            let x = choose|x: int| 0 <= x < c.len() && c[x] == blocks[k].spec_id();
            assert(next[queue.len() + x] == blocks[k].spec_id());
        }
    }
    assert forall|m: int| 1 <= m < next.len() implies #[trigger] appended_below(
        blocks,
        next,
        head + 1,
        m,
    ) by {
        if m < queue.len() {
            assert(appended_below(blocks, queue, head, m));
            let j = choose|j: int|
                0 <= j < head && index_of(blocks, queue[m]) >= 1 && blocks[index_of(
                    blocks,
                    queue[m],
                )].spec_parent_id() == #[trigger] queue[j];
            assert(next[j] == queue[j] && next[m] == queue[m]);
        } else {
            assert(next[head] == cur);
        }
    }
}

/// Once every entry of the queue has had its children appended, the queue holds
/// every block outside the subtree of `skip`.
pub proof fn lemma_traversal_complete(
    blocks: Seq<ExecutedBlock>,
    queue: Seq<HashValue>,
    skip: HashValue,
    i: int,
)
    requires
        rooted_tree(blocks),
        traversal_state(blocks, queue, queue.len() as int, skip),
        0 <= i < blocks.len(),
        !descends_from(blocks, i, skip),
    ensures
        queue.contains(blocks[i].spec_id()),
    decreases i,
{
    if i != 0 {
        lemma_parent_index(blocks, i);
        let p = parent_index(blocks, i);
        lemma_traversal_complete(blocks, queue, skip, p);
    }
}

/// A traversal from any of its states ends with every block outside the subtree of
/// `skip`, each once.
pub proof fn lemma_traversal_result(
    blocks: Seq<ExecutedBlock>,
    queue: Seq<HashValue>,
    head: int,
    skip: HashValue,
)
    requires
        rooted_tree(blocks),
        traversal_state(blocks, queue, head, skip),
    ensures
        bfs_order(blocks, queue, head, skip).no_duplicates(),
        forall|id: HashValue|
            bfs_order(blocks, queue, head, skip).contains(id) <==> has_block(blocks, id)
                && !descends_from(blocks, index_of(blocks, id), skip),
    decreases blocks.len() - head,
{
    lemma_queue_bounded(blocks, queue);
    if head >= queue.len() {
        assert forall|id: HashValue|
            has_block(blocks, id) && !descends_from(blocks, index_of(blocks, id), skip) implies queue.contains(
            id,
        ) by {
            lemma_traversal_complete(blocks, queue, skip, index_of(blocks, id));
        }
    } else {
        lemma_traversal_step(blocks, queue, head, skip);
        lemma_traversal_result(
            blocks,
            queue + children_of(blocks, queue[head], skip),
            head + 1,
            skip,
        );
    }
}

/// The ids to prune are the blocks of the tree that are neither the next root nor
/// below it, each once.
pub proof fn lemma_blocks_to_prune(blocks: Seq<ExecutedBlock>, next_root: HashValue)
    requires
        rooted_tree(blocks),
    ensures
        blocks_to_prune(blocks, next_root).no_duplicates(),
        forall|id: HashValue|
            #![trigger blocks_to_prune(blocks, next_root).contains(id)]
            #![trigger has_block(blocks, id)]
            blocks_to_prune(blocks, next_root).contains(id) <==> has_block(blocks, id)
                && !descends_from(blocks, index_of(blocks, id), next_root),
        blocks_to_prune(blocks, next_root).len() <= blocks.len(),
{
    let r = blocks_to_prune(blocks, next_root);
    if blocks[0].spec_id() == next_root {
        assert forall|id: HashValue| has_block(blocks, id) implies descends_from(
            blocks,
            index_of(blocks, id),
            next_root,
        ) by {
            lemma_descends_from_root(blocks, index_of(blocks, id));
        }
    } else {
        let q = seq![blocks[0].spec_id()];
        lemma_traversal_result(blocks, q, 0, next_root);
        lemma_queue_bounded(blocks, r);
    }
}

/// `qc` is one of the first `n` certificates, and its block is among `blocks`.
pub open spec fn retained_from(
    qcs: Seq<QuorumCert>,
    blocks: Seq<ExecutedBlock>,
    n: int,
    qc: QuorumCert,
) -> bool {
    exists|k: int|
        0 <= k < n && #[trigger] qcs[k] == qc && has_block(blocks, qc.spec_certified_block().id)
}

/// Every retained certificate is one of the first `n`, its block is among `blocks`,
/// and no certificate is retained twice where none stood twice before.
pub proof fn lemma_retain_certs(qcs: Seq<QuorumCert>, blocks: Seq<ExecutedBlock>, n: int)
    requires
        0 <= n <= qcs.len(),
    ensures
        forall|m: int|
            0 <= m < retain_certs(qcs, blocks, n).len() ==> retained_from(
                qcs,
                blocks,
                n,
                #[trigger] retain_certs(qcs, blocks, n)[m],
            ),
        distinct_certified(qcs) ==> distinct_certified(retain_certs(qcs, blocks, n)),
    decreases n,
{
    if n > 0 {
        lemma_retain_certs(qcs, blocks, n - 1);
        let rest = retain_certs(qcs, blocks, n - 1);
        let r = retain_certs(qcs, blocks, n);
        assert forall|m: int| 0 <= m < r.len() implies retained_from(
            qcs,
            blocks,
            n,
            #[trigger] r[m],
        ) by {
            if m < rest.len() {
                assert(retained_from(qcs, blocks, n - 1, rest[m]));
            }
        }
    }
}

/// The blocks after `block` is handed to the tree: appended where its id is new and
/// its parent is present, otherwise nothing changes.
pub open spec fn blocks_after_insert(blocks: Seq<ExecutedBlock>, block: ExecutedBlock) -> Seq<
    ExecutedBlock,
> {
    if !has_block(blocks, block.spec_id()) && has_block(blocks, block.spec_parent_id()) {
        blocks.push(block)
    } else {
        blocks
    }
}

/// The stored certificates after `qc` is taken in: the first certificate for a block
/// stays.
pub open spec fn certs_after_insert(qcs: Seq<QuorumCert>, qc: QuorumCert) -> Seq<QuorumCert> {
    if has_cert_for(qcs, qc.spec_certified_block().id) {
        qcs
    } else {
        qcs.push(qc)
    }
}

/// The highest certificate after `qc` is taken in.
pub open spec fn highest_cert_after_insert(highest: QuorumCert, qc: QuorumCert) -> QuorumCert {
    if qc.spec_certified_block().round > highest.spec_certified_block().round {
        qc
    } else {
        highest
    }
}

/// The highest commit decision after `qc` is taken in.
pub open spec fn highest_ledger_info_after_insert(highest: QuorumCert, qc: QuorumCert) -> QuorumCert {
    if qc.spec_commit_info().round > highest.spec_commit_info().round {
        qc
    } else {
        highest
    }
}

/// Inserting a block a second time changes nothing.
pub proof fn law_insert_block_twice(blocks: Seq<ExecutedBlock>, block: ExecutedBlock)
    ensures
        blocks_after_insert(blocks_after_insert(blocks, block), block) == blocks_after_insert(
            blocks,
            block,
        ),
{
    let once = blocks_after_insert(blocks, block);
    if !has_block(blocks, block.spec_id()) && has_block(blocks, block.spec_parent_id()) {
        assert(once[blocks.len() as int].spec_id() == block.spec_id());
    }
}

/// Taking in a certificate a second time changes neither the stored certificates nor
/// the highest certificate nor the highest commit decision.
pub proof fn law_insert_cert_twice(
    qcs: Seq<QuorumCert>,
    highest: QuorumCert,
    highest_ledger_info: QuorumCert,
    qc: QuorumCert,
)
    ensures
        certs_after_insert(certs_after_insert(qcs, qc), qc) == certs_after_insert(qcs, qc),
        highest_cert_after_insert(highest_cert_after_insert(highest, qc), qc)
            == highest_cert_after_insert(highest, qc),
        highest_ledger_info_after_insert(
            highest_ledger_info_after_insert(highest_ledger_info, qc),
            qc,
        ) == highest_ledger_info_after_insert(highest_ledger_info, qc),
{
    let once = certs_after_insert(qcs, qc);
    if !has_cert_for(qcs, qc.spec_certified_block().id) {
        assert(once[qcs.len() as int].spec_certified_block().id == qc.spec_certified_block().id);
    }
}

/// A certificate that is stored, in a tree whose highest certificate and highest
/// commit decision are not below it, changes nothing when it is taken in again.
pub proof fn law_known_cert_is_noop(
    qcs: Seq<QuorumCert>,
    highest: QuorumCert,
    highest_ledger_info: QuorumCert,
    qc: QuorumCert,
)
    requires
        rounds_bounded(qcs, highest),
        exists|k: int| 0 <= k < qcs.len() && #[trigger] qcs[k] == qc,
        qc.spec_commit_info().round <= highest_ledger_info.spec_commit_info().round,
    ensures
        certs_after_insert(qcs, qc) == qcs,
        highest_cert_after_insert(highest, qc) == highest,
        highest_ledger_info_after_insert(highest_ledger_info, qc) == highest_ledger_info,
{
}

/// Pruning to a block of the tree splits the blocks in two: those that are pruned,
/// and the subtree that stays.
pub proof fn law_prune_partitions(blocks: Seq<ExecutedBlock>, next_root: HashValue)
    requires
        rooted_tree(blocks),
        has_block(blocks, next_root),
    ensures
        forall|id: HashValue|
            #![trigger has_block(subtree(blocks, next_root), id)]
            #![trigger blocks_to_prune(blocks, next_root).contains(id)]
            has_block(blocks, id) ==> (has_block(subtree(blocks, next_root), id)
                <==> !blocks_to_prune(blocks, next_root).contains(id)),
        forall|id: HashValue| #[trigger]
            blocks_to_prune(blocks, next_root).contains(id) ==> has_block(blocks, id)
                && !has_block(subtree(blocks, next_root), id),
        forall|id: HashValue| #[trigger]
            has_block(subtree(blocks, next_root), id) ==> has_block(blocks, id) && descends_from(
                blocks,
                index_of(blocks, id),
                next_root,
            ),
        blocks_to_prune(blocks, next_root).no_duplicates(),
        rooted_tree(subtree(blocks, next_root)),
        subtree(blocks, next_root)[0].spec_id() == next_root,
        blocks[0].spec_round() <= subtree(blocks, next_root)[0].spec_round(),
{
    lemma_blocks_to_prune(blocks, next_root);
    lemma_subtree(blocks, next_root);
    let i = index_of(blocks, next_root);
    if i >= 1 {
        lemma_round_above_root(blocks, i);
    }
}

/// In a rooted tree every block but the root has its parent in the tree, and stands
/// above it in round and in timestamp.
pub proof fn law_parent_precedes_child(blocks: Seq<ExecutedBlock>, id: HashValue)
    requires
        rooted_tree(blocks),
        has_block(blocks, id),
        id != blocks[0].spec_id(),
    ensures
        has_block(blocks, blocks[index_of(blocks, id)].spec_parent_id()),
        blocks[index_of(blocks, blocks[index_of(blocks, id)].spec_parent_id())].spec_round()
            < blocks[index_of(blocks, id)].spec_round(),
        blocks[index_of(blocks, blocks[index_of(blocks, id)].spec_parent_id())].spec_timestamp_usecs()
            < blocks[index_of(blocks, id)].spec_timestamp_usecs(),
{
    let i = index_of(blocks, id);
    lemma_parent_index(blocks, i);
}

/// The window of pruned ids holds the newest entries, as many as fit, in the order
/// in which they came.
pub proof fn law_newest(ids: Seq<HashValue>, max: int)
    requires
        0 <= max,
    ensures
        newest(ids, max).len() == if ids.len() <= max {
            ids.len() as int
        } else {
            max
        },
        forall|i: int|
            0 <= i < newest(ids, max).len() ==> #[trigger] newest(ids, max)[i] == ids[ids.len()
                - newest(ids, max).len() + i],
{
}

/// What the chain from a block up to the child of the root holds: the block itself
/// first, then parent after parent, and last a child of the root. The root has an
/// empty chain.
pub proof fn lemma_chain_up(blocks: Seq<ExecutedBlock>, i: int)
    requires
        rooted_tree(blocks),
        0 <= i < blocks.len(),
    ensures
        i == 0 ==> chain_up(blocks, i).len() == 0,
        i >= 1 ==> {
            let c = chain_up(blocks, i);
            &&& 1 <= c.len() <= i
            &&& c[0] == blocks[i]
            &&& c[c.len() - 1].spec_parent_id() == blocks[0].spec_id()
            &&& forall|k: int|
                0 <= k < c.len() - 1 ==> (#[trigger] c[k]).spec_parent_id() == c[k + 1].spec_id()
        },
    decreases i,
{
    if i >= 1 {
        lemma_parent_index(blocks, i);
        let p = parent_index(blocks, i);
        lemma_chain_up(blocks, p);
        assert(chain_up(blocks, i) == seq![blocks[i]] + chain_up(blocks, p));
    }
}

/// The path from the root to a block below it starts at a child of the root, goes
/// from parent to child, and ends at the block. The path to the root is empty.
pub proof fn law_path_from_root(blocks: Seq<ExecutedBlock>, id: HashValue)
    requires
        rooted_tree(blocks),
        has_block(blocks, id),
    ensures
        id == blocks[0].spec_id() ==> path_to(blocks, index_of(blocks, id)).len() == 0,
        id != blocks[0].spec_id() ==> {
            let path = path_to(blocks, index_of(blocks, id));
            &&& path.len() >= 1
            &&& path[0].spec_parent_id() == blocks[0].spec_id()
            &&& path[path.len() - 1] == blocks[index_of(blocks, id)]
            &&& forall|k: int|
                1 <= k < path.len() ==> (#[trigger] path[k]).spec_parent_id() == path[k
                    - 1].spec_id()
        },
{
    let i = index_of(blocks, id);
    lemma_chain_up(blocks, i);
}

/// Among the first `n` blocks of `replaced`, the ids of those that `kept` does not
/// hold, in their order.
pub open spec fn stale_ids(
    replaced: Seq<ExecutedBlock>,
    kept: Seq<ExecutedBlock>,
    n: int,
) -> Seq<HashValue>
    decreases n,
{
    if n <= 0 {
        Seq::empty()
    } else {
        let rest = stale_ids(replaced, kept, n - 1);
        if has_block(kept, replaced[n - 1].spec_id()) {
            rest
        } else {
            rest.push(replaced[n - 1].spec_id())
        }
    }
}

/// The stale ids are the ids of the replaced blocks that are no ids of kept blocks,
/// and no others.
pub proof fn lemma_stale_ids(replaced: Seq<ExecutedBlock>, kept: Seq<ExecutedBlock>, n: int)
    requires
        0 <= n <= replaced.len(),
    ensures
        stale_ids(replaced, kept, n).len() <= n,
        forall|id: HashValue| #[trigger]
            stale_ids(replaced, kept, n).contains(id) <==> !has_block(kept, id) && exists|k: int|
                0 <= k < n && (#[trigger] replaced[k]).spec_id() == id,
    decreases n,
{
    let s = stale_ids(replaced, kept, n);
    if n > 0 {
        lemma_stale_ids(replaced, kept, n - 1);
        let rest = stale_ids(replaced, kept, n - 1);
        let last = replaced[n - 1].spec_id();
        assert forall|id: HashValue| #[trigger] s.contains(id) implies !has_block(kept, id)
            && exists|k: int| 0 <= k < n && (#[trigger] replaced[k]).spec_id() == id by {
            let m = choose|m: int| 0 <= m < s.len() && s[m] == id;
            if m < rest.len() {
                assert(rest[m] == id);
                assert(rest.contains(id));
                let k = choose|k: int| 0 <= k < n - 1 && (#[trigger] replaced[k]).spec_id() == id;
                assert(0 <= k < n && replaced[k].spec_id() == id);
            } else {
                assert(replaced[n - 1].spec_id() == id);
            }
        }
        assert forall|id: HashValue|
            !has_block(kept, id) && (exists|k: int|
                0 <= k < n && (#[trigger] replaced[k]).spec_id() == id) implies #[trigger] s.contains(
            id,
        ) by {
            let k = choose|k: int| 0 <= k < n && (#[trigger] replaced[k]).spec_id() == id;
            if k == n - 1 {
                assert(s[rest.len() as int] == id);
            } else {
                assert(0 <= k < n - 1 && replaced[k].spec_id() == id);
                assert(rest.contains(id));
                let m = choose|m: int| 0 <= m < rest.len() && rest[m] == id;
                assert(s[m] == id);
            }
        }
    } else {
        assert forall|id: HashValue| !(#[trigger] s.contains(id)) by {}
    }
}

} // verus!
