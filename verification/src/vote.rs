//! A validator's vote on a proposal.

use vstd::prelude::*;
use crate::block::{Timeout, VoteData};
use crate::block_info::{LedgerInfo, Round};
use crate::hash_value::{Author, Signature};

verus! {

/// A vote: what was voted on, by whom, and the ledger info that the signature
/// covers. The signatures are carried as given; whoever builds the vote has made
/// them.
#[derive(Clone, Copy, Debug, PartialEq, Eq, Structural)]
pub struct Vote {
    pub vote_data: VoteData,
    pub author: Author,
    /// The ledger info that the author signed; votes are counted together exactly
    /// when they sign the same one.
    pub ledger_info: LedgerInfo,
    pub signature: Signature,
    /// Present when the author also declares the round timed out.
    pub timeout_signature: Option<Signature>,
}

impl Vote {
    pub fn new(vote_data: VoteData, author: Author, ledger_info: LedgerInfo, signature: Signature) -> (v:
        Vote)
        ensures
            v == (Vote { vote_data, author, ledger_info, signature, timeout_signature: None }),
    {
        Vote { vote_data, author, ledger_info, signature, timeout_signature: None }
    }

    pub fn add_timeout_signature(&mut self, signature: Signature)
        ensures
            *final(self) == (Vote { timeout_signature: Some(signature), ..*old(self) }),
    {
        self.timeout_signature = Some(signature);
    }

    pub open spec fn spec_round(&self) -> Round {
        self.vote_data.proposed.round
    }

    /// The round of the proposal that the vote is for.
    #[verifier::when_used_as_spec(spec_round)]
    pub fn round(&self) -> (r: Round)
        ensures
            r == self.vote_data.proposed.round,
    {
        self.vote_data.proposed.round
    }

    pub open spec fn spec_timeout(&self) -> Timeout {
        Timeout { epoch: self.vote_data.proposed.epoch, round: self.vote_data.proposed.round }
    }

    /// The timeout that a timeout signature of this vote signs.
    #[verifier::when_used_as_spec(spec_timeout)]
    pub fn timeout(&self) -> (t: Timeout)
        ensures
            t == self.spec_timeout(),
    {
        Timeout { epoch: self.vote_data.proposed.epoch, round: self.vote_data.proposed.round }
    }

    pub open spec fn spec_is_timeout(&self) -> bool {
        self.timeout_signature.is_some()
    }

    #[verifier::when_used_as_spec(spec_is_timeout)]
    pub fn is_timeout(&self) -> (r: bool)
        ensures
            r == self.timeout_signature.is_some(),
    {
        self.timeout_signature.is_some()
    }
}

} // verus!
