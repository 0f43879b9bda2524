//! The votes that wait for a quorum. Each author has at most one pending vote: its
//! last one. Votes that sign the same ledger info add up to a quorum certificate;
//! timeout signatures for the same round add up to a timeout certificate.

use vstd::prelude::*;
use std::sync::Arc;
use crate::block::{QuorumCert, TimeoutCertificate};
use crate::block_info::{
    distinct_signers, has_signed, AuthorSignature, LedgerInfo, LedgerInfoWithSignatures, Round,
};
use crate::hash_value::AccountAddress;
use crate::validator_verifier::{
    is_validator, voting_power_verdict, ValidatorInfo, ValidatorVerifier, VerifyError,
};
use crate::vote::Vote;

verus! {

/// What became of a vote. At most one result is reported for a vote: a quorum
/// certificate goes before a timeout certificate.
#[derive(Clone, Debug)]
pub enum VoteReceptionResult {
    /// The vote was added and no quorum is reached yet; the voting power collected
    /// so far for the ledger info that the vote signs.
    VoteAdded(u64),
    /// The author has voted for this very ledger info before.
    DuplicateVote,
    /// The author has voted for another ledger info in the same round.
    EquivocateVote,
    /// The vote completes a quorum certificate.
    NewQuorumCertificate(Arc<QuorumCert>),
    /// The vote completes a timeout certificate.
    NewTimeoutCertificate(Arc<TimeoutCertificate>),
    /// The vote or one counted with it is from no validator.
    ErrorAddingVote(VerifyError),
}

/// How a vote stands to the last vote of its author.
#[derive(Clone, Copy, Debug, PartialEq, Eq, Structural)]
pub enum Admission {
    /// The vote takes the place of the author's last vote, or is its first.
    Fresh,
    Duplicate,
    Equivocation,
}

/// `author` has a pending vote.
pub open spec fn has_voted(votes: Seq<Vote>, author: AccountAddress) -> bool {
    exists|i: int| 0 <= i < votes.len() && (#[trigger] votes[i]).author == author
}

/// Where the pending vote of `author` stands.
pub open spec fn vote_index(votes: Seq<Vote>, author: AccountAddress) -> int {
    choose|i: int| 0 <= i < votes.len() && (#[trigger] votes[i]).author == author
}

/// No author has two pending votes.
pub open spec fn distinct_voters(votes: Seq<Vote>) -> bool {
    forall|i: int, j: int|
        0 <= i < j < votes.len() ==> (#[trigger] votes[i]).author != (#[trigger] votes[j]).author
}

/// How `vote` stands to what its author voted last. A vote for the same ledger info
/// is a duplicate unless it brings the first timeout signature; a vote for another
/// ledger info in the same round is an equivocation; a vote for another round takes
/// the place of the last one.
pub open spec fn admission(votes: Seq<Vote>, vote: Vote) -> Admission {
    if !has_voted(votes, vote.author) {
        Admission::Fresh
    } else {
        let last = votes[vote_index(votes, vote.author)];
        if last.ledger_info == vote.ledger_info {
            if vote.timeout_signature.is_some() && last.timeout_signature.is_none() {
                Admission::Fresh
            } else {
                Admission::Duplicate
            }
        } else if last.spec_round() == vote.spec_round() {
            Admission::Equivocation
        } else {
            Admission::Fresh
        }
    }
}

/// The votes once `vote` is written down: in the place of its author's last vote, or
/// at the end.
pub open spec fn with_vote(votes: Seq<Vote>, vote: Vote) -> Seq<Vote> {
    if has_voted(votes, vote.author) {
        votes.update(vote_index(votes, vote.author), vote)
    } else {
        votes.push(vote)
    }
}

/// The pending votes after `vote` is handed in: written down where its author is a
/// validator and the vote is fresh, unchanged otherwise.
pub open spec fn votes_after_insert(
    votes: Seq<Vote>,
    vote: Vote,
    validators: Seq<ValidatorInfo>,
) -> Seq<Vote> {
    if is_validator(validators, vote.author) && admission(votes, vote) == Admission::Fresh {
        with_vote(votes, vote)
    } else {
        votes
    }
}

/// The signatures, among the first `n` votes, of those that sign `ledger_info`.
pub open spec fn signatures_for(votes: Seq<Vote>, ledger_info: LedgerInfo, n: int) -> Seq<
    AuthorSignature,
>
    decreases n,
{
    if n <= 0 {
        Seq::empty()
    } else {
        let rest = signatures_for(votes, ledger_info, n - 1);
        let v = votes[n - 1];
        if v.ledger_info == ledger_info {
            rest.push(AuthorSignature { author: v.author, signature: v.signature })
        } else {
            rest
        }
    }
}

/// The timeout signatures, among the first `n` votes, of those for the round `round`.
pub open spec fn timeout_signatures_for(votes: Seq<Vote>, round: Round, n: int) -> Seq<
    AuthorSignature,
>
    decreases n,
{
    if n <= 0 {
        Seq::empty()
    } else {
        let rest = timeout_signatures_for(votes, round, n - 1);
        let v = votes[n - 1];
        if v.spec_round() == round && v.timeout_signature.is_some() {
            rest.push(AuthorSignature { author: v.author, signature: v.timeout_signature.unwrap() })
        } else {
            rest
        }
    }
}

/// What the vote store answers to `vote`, given the votes `after` it was written
/// down next to the others.
pub open spec fn fresh_vote_result(
    r: VoteReceptionResult,
    after: Seq<Vote>,
    vote: Vote,
    validators: Seq<ValidatorInfo>,
    quorum_voting_power: u64,
) -> bool {
    let sigs = signatures_for(after, vote.ledger_info, after.len() as int);
    let timeout_sigs = timeout_signatures_for(after, vote.spec_round(), after.len() as int);
    match voting_power_verdict(validators, quorum_voting_power, sigs) {
        Ok(()) => {
            &&& r matches VoteReceptionResult::NewQuorumCertificate(qc)
            &&& qc.vote_data == vote.vote_data
            &&& qc.signed_ledger_info.ledger_info == vote.ledger_info
            &&& qc.signed_ledger_info.signatures@ == sigs
        },
        Err(VerifyError::UnknownAuthor) => r == VoteReceptionResult::ErrorAddingVote(
            VerifyError::UnknownAuthor,
        ),
        Err(VerifyError::TooLittleVotingPower { voting_power, quorum_voting_power: q }) => {
            if vote.timeout_signature.is_some() {
                match voting_power_verdict(validators, quorum_voting_power, timeout_sigs) {
                    Ok(()) => {
                        &&& r matches VoteReceptionResult::NewTimeoutCertificate(tc)
                        &&& tc.timeout == vote.spec_timeout()
                        &&& tc.signatures@ == timeout_sigs
                    },
                    Err(VerifyError::UnknownAuthor) => r == VoteReceptionResult::ErrorAddingVote(
                        VerifyError::UnknownAuthor,
                    ),
                    Err(VerifyError::TooLittleVotingPower { .. }) => r
                        == VoteReceptionResult::VoteAdded(voting_power),
                }
            } else {
                r == VoteReceptionResult::VoteAdded(voting_power)
            }
        },
    }
}

/// What the vote store answers to `vote` when it holds `votes`.
pub open spec fn reception_result(
    r: VoteReceptionResult,
    votes: Seq<Vote>,
    vote: Vote,
    validators: Seq<ValidatorInfo>,
    quorum_voting_power: u64,
) -> bool {
    if !is_validator(validators, vote.author) {
        r == VoteReceptionResult::ErrorAddingVote(VerifyError::UnknownAuthor)
    } else {
        match admission(votes, vote) {
            Admission::Duplicate => r == VoteReceptionResult::DuplicateVote,
            Admission::Equivocation => r == VoteReceptionResult::EquivocateVote,
            Admission::Fresh => fresh_vote_result(
                r,
                with_vote(votes, vote),
                vote,
                validators,
                quorum_voting_power,
            ),
        }
    }
}

/// With one pending vote per author, an author's vote is found at its own place.
pub proof fn lemma_vote_index(votes: Seq<Vote>, i: int)
    requires
        distinct_voters(votes),
        0 <= i < votes.len(),
    ensures
        has_voted(votes, votes[i].author),
        vote_index(votes, votes[i].author) == i,
{
    let j = vote_index(votes, votes[i].author);
    assert(votes[j].author == votes[i].author);
}

/// Writing a vote down keeps one pending vote per author, and the vote is then the
/// pending vote of its author.
pub proof fn lemma_with_vote(votes: Seq<Vote>, vote: Vote)
    requires
        distinct_voters(votes),
    ensures
        distinct_voters(with_vote(votes, vote)),
        has_voted(with_vote(votes, vote), vote.author),
        with_vote(votes, vote)[vote_index(with_vote(votes, vote), vote.author)] == vote,
{
    let after = with_vote(votes, vote);
    if has_voted(votes, vote.author) {
        let i = vote_index(votes, vote.author);
        lemma_vote_index(after, i);
    } else {
        let n = votes.len() as int;
        lemma_vote_index(after, n);
    }
}

/// A vote handed in a second time is turned down as a duplicate and changes
/// nothing: no vote is counted twice.
pub proof fn law_insert_vote_twice(votes: Seq<Vote>, vote: Vote, validators: Seq<ValidatorInfo>)
    requires
        distinct_voters(votes),
    ensures
        votes_after_insert(votes_after_insert(votes, vote, validators), vote, validators)
            == votes_after_insert(votes, vote, validators),
        is_validator(validators, vote.author) && admission(votes, vote) == Admission::Fresh
            ==> admission(votes_after_insert(votes, vote, validators), vote)
            == Admission::Duplicate,
{
    if is_validator(validators, vote.author) && admission(votes, vote) == Admission::Fresh {
        lemma_with_vote(votes, vote);
    }
}

/// With one pending vote per author, no author has two signatures for a ledger
/// info, and every signature is that of a pending vote.
pub proof fn lemma_signatures_for(votes: Seq<Vote>, ledger_info: LedgerInfo, n: int)
    requires
        distinct_voters(votes),
        0 <= n <= votes.len(),
    ensures
        distinct_signers(signatures_for(votes, ledger_info, n)),
        forall|a: AccountAddress|
            has_signed(signatures_for(votes, ledger_info, n), a) <==> exists|i: int|
                0 <= i < n && (#[trigger] votes[i]).author == a && votes[i].ledger_info
                    == ledger_info,
    decreases n,
{
    let s = signatures_for(votes, ledger_info, n);
    if n > 0 {
        lemma_signatures_for(votes, ledger_info, n - 1);
        let rest = signatures_for(votes, ledger_info, n - 1);
        let v = votes[n - 1];
        assert forall|a: AccountAddress| has_signed(s, a) implies exists|i: int|
            0 <= i < n && (#[trigger] votes[i]).author == a && votes[i].ledger_info
                == ledger_info by {
            let m = choose|m: int| 0 <= m < s.len() && (#[trigger] s[m]).author == a;
            if m < rest.len() {
                assert(has_signed(rest, a));
            }
        }
        assert forall|a: AccountAddress|
            (exists|i: int|
                0 <= i < n && (#[trigger] votes[i]).author == a && votes[i].ledger_info
                    == ledger_info) implies has_signed(s, a) by {
            let i = choose|i: int|
                0 <= i < n && (#[trigger] votes[i]).author == a && votes[i].ledger_info
                    == ledger_info;
            if i == n - 1 {
                assert(s[rest.len() as int].author == a);
            } else {
                assert(has_signed(rest, a));
                let m = choose|m: int| 0 <= m < rest.len() && (#[trigger] rest[m]).author == a;
                assert(s[m].author == a);
            }
        }
        assert forall|x: int, y: int| 0 <= x < y < s.len() implies (#[trigger] s[x]).author != (
        #[trigger] s[y]).author by {
            if y >= rest.len() {
                if rest[x].author == v.author {
                    assert(has_signed(rest, v.author));
                }
            }
        }
    }
}

/// With one pending vote per author, no author has two timeout signatures for a
/// round, and every timeout signature is that of a pending vote.
pub proof fn lemma_timeout_signatures_for(votes: Seq<Vote>, round: Round, n: int)
    requires
        distinct_voters(votes),
        0 <= n <= votes.len(),
    ensures
        distinct_signers(timeout_signatures_for(votes, round, n)),
        forall|a: AccountAddress|
            has_signed(timeout_signatures_for(votes, round, n), a) ==> exists|i: int|
                0 <= i < n && (#[trigger] votes[i]).author == a && votes[i].spec_round() == round
                    && votes[i].timeout_signature.is_some(),
    decreases n,
{
    let s = timeout_signatures_for(votes, round, n);
    if n > 0 {
        lemma_timeout_signatures_for(votes, round, n - 1);
        let rest = timeout_signatures_for(votes, round, n - 1);
        let v = votes[n - 1];
        assert forall|a: AccountAddress| has_signed(s, a) implies exists|i: int|
            0 <= i < n && (#[trigger] votes[i]).author == a && votes[i].spec_round() == round
                && votes[i].timeout_signature.is_some() by {
            let m = choose|m: int| 0 <= m < s.len() && (#[trigger] s[m]).author == a;
            if m < rest.len() {
                assert(has_signed(rest, a));
            }
        }
        assert forall|x: int, y: int| 0 <= x < y < s.len() implies (#[trigger] s[x]).author != (
        #[trigger] s[y]).author by {
            if y >= rest.len() {
                if rest[x].author == v.author {
                    assert(has_signed(rest, v.author));
                }
            }
        }
    }
}

/// The votes that wait for a quorum, one per author.
#[derive(Clone, Debug)]
pub struct PendingVotes {
    votes: Vec<Vote>,
}

impl PendingVotes {
    /// The pending votes, in the order in which their authors first voted.
    pub closed spec fn votes(&self) -> Seq<Vote> {
        self.votes@
    }

    /// No author has two pending votes.
    pub open spec fn wf(&self) -> bool {
        distinct_voters(self.votes())
    }

    pub fn new() -> (p: PendingVotes)
        ensures
            p.wf(),
            p.votes() == Seq::<Vote>::empty(),
    {
        PendingVotes { votes: Vec::new() }
    }

    /// The number of pending votes.
    pub fn len(&self) -> (n: usize)
        ensures
            n == self.votes().len(),
    {
        self.votes.len()
    }

    /// Where the pending vote of `author` stands.
    fn find_vote(&self, author: AccountAddress) -> (r: Option<usize>)
        requires
            self.wf(),
        ensures
            r.is_some() == has_voted(self.votes(), author),
            r matches Some(i) ==> i < self.votes().len() && i == vote_index(self.votes(), author),
    {
        let mut i: usize = 0;
        while i < self.votes.len()
            invariant
                self.wf(),
                i <= self.votes.len(),
                forall|k: int| 0 <= k < i ==> (#[trigger] self.votes@[k]).author != author,
            decreases self.votes.len() - i,
        {
            if self.votes[i].author == author {
                return Some(i);
            }
            i += 1;
        }
        None
    }

    /// The pending vote of `author`, if it has one.
    pub fn last_vote(&self, author: AccountAddress) -> (r: Option<Vote>)
        requires
            self.wf(),
        ensures
            r.is_some() == has_voted(self.votes(), author),
            r matches Some(v) ==> v == self.votes()[vote_index(self.votes(), author)],
    {
        match self.find_vote(author) {
            Some(i) => Some(self.votes[i]),
            None => None,
        }
    }

    /// The signatures collected for `ledger_info`.
    pub fn signatures_for(&self, ledger_info: &LedgerInfo) -> (sigs: Vec<AuthorSignature>)
        ensures
            sigs@ == signatures_for(self.votes(), *ledger_info, self.votes().len() as int),
    {
        let mut sigs: Vec<AuthorSignature> = Vec::new();
        let mut i: usize = 0;
        while i < self.votes.len()
            invariant
                i <= self.votes.len(),
                sigs@ == signatures_for(self.votes(), *ledger_info, i as int),
            decreases self.votes.len() - i,
        {
            let v = self.votes[i];
            if v.ledger_info == *ledger_info {
                sigs.push(AuthorSignature { author: v.author, signature: v.signature });
            }
            i += 1;
        }
        sigs
    }

    /// The timeout signatures collected for the round `round`.
    pub fn timeout_signatures_for(&self, round: Round) -> (sigs: Vec<AuthorSignature>)
        ensures
            sigs@ == timeout_signatures_for(self.votes(), round, self.votes().len() as int),
    {
        let mut sigs: Vec<AuthorSignature> = Vec::new();
        let mut i: usize = 0;
        while i < self.votes.len()
            invariant
                i <= self.votes.len(),
                sigs@ == timeout_signatures_for(self.votes(), round, i as int),
            decreases self.votes.len() - i,
        {
            let v = self.votes[i];
            if v.round() == round {
                if let Some(signature) = v.timeout_signature {
                    sigs.push(AuthorSignature { author: v.author, signature });
                }
            }
            i += 1;
        }
        sigs
    }

    /// Takes in a vote and says what became of it. A vote from no validator, a
    /// duplicate and an equivocation leave the pending votes as they were.
    pub fn insert_vote(&mut self, vote: &Vote, validator_verifier: &ValidatorVerifier) -> (r:
        VoteReceptionResult)
        requires
            old(self).wf(),
            validator_verifier.wf(),
        ensures
            final(self).wf(),
            final(self).votes() == votes_after_insert(
                old(self).votes(),
                *vote,
                validator_verifier.validators(),
            ),
            reception_result(
                r,
                old(self).votes(),
                *vote,
                validator_verifier.validators(),
                validator_verifier.spec_quorum_voting_power(),
            ),
            r matches VoteReceptionResult::NewQuorumCertificate(qc) ==> distinct_signers(
                qc.signed_ledger_info.signatures@,
            ),
            r matches VoteReceptionResult::NewTimeoutCertificate(tc) ==> distinct_signers(
                tc.signatures@,
            ),
    {
        if validator_verifier.get_voting_power(vote.author).is_none() {
            return VoteReceptionResult::ErrorAddingVote(VerifyError::UnknownAuthor);
        }
        match self.find_vote(vote.author) {
            Some(i) => {
                let last = self.votes[i];
                if last.ledger_info == vote.ledger_info {
                    if !(vote.is_timeout() && !last.is_timeout()) {
                        return VoteReceptionResult::DuplicateVote;
                    }
                } else if last.round() == vote.round() {
                    return VoteReceptionResult::EquivocateVote;
                }
                self.votes.set(i, *vote);
            },
            None => {
                self.votes.push(*vote);
            },
        }
        let sigs = self.signatures_for(&vote.ledger_info);
        proof {
            lemma_signatures_for(self.votes(), vote.ledger_info, self.votes().len() as int);
            lemma_timeout_signatures_for(
                self.votes(),
                vote.spec_round(),
                self.votes().len() as int,
            );
        }
        let voting_power: u64 = match validator_verifier.check_voting_power(&sigs) {
            Ok(()) => {
                return VoteReceptionResult::NewQuorumCertificate(
                    Arc::new(
                        QuorumCert::new(
                            vote.vote_data,
                            LedgerInfoWithSignatures::new(vote.ledger_info, sigs),
                        ),
                    ),
                );
            },
            Err(VerifyError::TooLittleVotingPower { voting_power, quorum_voting_power }) => voting_power,
            Err(VerifyError::UnknownAuthor) => {
                return VoteReceptionResult::ErrorAddingVote(VerifyError::UnknownAuthor);
            },
        };
        if vote.is_timeout() {
            let timeout_sigs = self.timeout_signatures_for(vote.round());
            match validator_verifier.check_voting_power(&timeout_sigs) {
                Ok(()) => {
                    return VoteReceptionResult::NewTimeoutCertificate(
                        Arc::new(TimeoutCertificate::new(vote.timeout(), timeout_sigs)),
                    );
                },
                Err(VerifyError::TooLittleVotingPower { .. }) => {},
                Err(VerifyError::UnknownAuthor) => {
                    return VoteReceptionResult::ErrorAddingVote(VerifyError::UnknownAuthor);
                },
            }
        }
        VoteReceptionResult::VoteAdded(voting_power)
    }
}

} // verus!
