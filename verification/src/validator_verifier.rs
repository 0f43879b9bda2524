//! The validators of an epoch with their voting power, and the quorum they need.

use vstd::prelude::*;
use crate::block_info::{has_signed, AuthorSignature};
use crate::hash_value::{AccountAddress, Author};

verus! {

/// A validator and the weight of its vote.
#[derive(Clone, Copy, Debug, PartialEq, Eq, Structural)]
pub struct ValidatorInfo {
    pub author: Author,
    pub voting_power: u64,
}

/// Why a set of signatures does not make a quorum.
#[derive(Clone, Copy, Debug, PartialEq, Eq, Structural)]
pub enum VerifyError {
    /// A signer is no validator of the epoch.
    UnknownAuthor,
    /// The signers are validators, and their summed voting power is below the quorum.
    TooLittleVotingPower { voting_power: u64, quorum_voting_power: u64 },
}

/// Some validator of `validators` has the address `author`.
pub open spec fn is_validator(validators: Seq<ValidatorInfo>, author: AccountAddress) -> bool {
    exists|i: int| 0 <= i < validators.len() && (#[trigger] validators[i]).author == author
}

/// No address names two validators.
pub open spec fn distinct_validators(validators: Seq<ValidatorInfo>) -> bool {
    forall|i: int, j: int|
        0 <= i < j < validators.len() ==> (#[trigger] validators[i]).author != (
        #[trigger] validators[j]).author
}

/// The summed voting power of the first `n` validators.
pub open spec fn total_power(validators: Seq<ValidatorInfo>, n: int) -> int
    decreases n,
{
    if n <= 0 {
        0
    } else {
        total_power(validators, n - 1) + validators[n - 1].voting_power
    }
}

/// The summed voting power of those among the first `n` validators that have a
/// signature in `sigs`.
pub open spec fn signed_power(
    validators: Seq<ValidatorInfo>,
    sigs: Seq<AuthorSignature>,
    n: int,
) -> int
    decreases n,
{
    if n <= 0 {
        0
    } else {
        signed_power(validators, sigs, n - 1) + if has_signed(sigs, validators[n - 1].author) {
            validators[n - 1].voting_power as int
        } else {
            0
        }
    }
}

/// Every signature in `sigs` is that of a validator.
pub open spec fn all_validators(validators: Seq<ValidatorInfo>, sigs: Seq<AuthorSignature>) -> bool {
    forall|i: int| 0 <= i < sigs.len() ==> is_validator(validators, (#[trigger] sigs[i]).author)
}

/// What a verifier with these validators and this quorum says of a set of
/// signatures.
pub open spec fn voting_power_verdict(
    validators: Seq<ValidatorInfo>,
    quorum_voting_power: u64,
    sigs: Seq<AuthorSignature>,
) -> Result<(), VerifyError> {
    let power = signed_power(validators, sigs, validators.len() as int);
    if !all_validators(validators, sigs) {
        Err(VerifyError::UnknownAuthor)
    } else if power < quorum_voting_power {
        Err(
            VerifyError::TooLittleVotingPower {
                voting_power: power as u64,
                quorum_voting_power,
            },
        )
    } else {
        Ok(())
    }
}

/// The quorum for a total voting power: more than two thirds of it, and nothing for
/// an empty set.
pub open spec fn quorum_for(total: int, validators: int) -> int {
    if validators == 0 {
        0
    } else {
        total * 2 / 3 + 1
    }
}

/// The power of the signers among a prefix is at most the power of the prefix, which
/// is at most the power of all.
pub proof fn lemma_power_bounds(
    validators: Seq<ValidatorInfo>,
    sigs: Seq<AuthorSignature>,
    k: int,
    n: int,
)
    requires
        0 <= k <= n <= validators.len(),
    ensures
        0 <= signed_power(validators, sigs, k) <= total_power(validators, k),
        total_power(validators, k) <= total_power(validators, n),
    decreases n,
{
    if k < n {
        lemma_power_bounds(validators, sigs, k, n - 1);
    } else if n > 0 {
        lemma_power_bounds(validators, sigs, k - 1, n - 1);
    }
}

/// The validators of an epoch: who may vote, with what weight, and how much weight
/// makes a quorum.
#[derive(Clone, Debug)]
pub struct ValidatorVerifier {
    validators: Vec<ValidatorInfo>,
    quorum_voting_power: u64,
}

impl ValidatorVerifier {
    pub closed spec fn validators(&self) -> Seq<ValidatorInfo> {
        self.validators@
    }

    pub closed spec fn spec_quorum_voting_power(&self) -> u64 {
        self.quorum_voting_power
    }

    /// Validators are distinct, and their summed power fits in 64 bits.
    pub open spec fn wf(&self) -> bool {
        &&& distinct_validators(self.validators())
        &&& total_power(self.validators(), self.validators().len() as int) <= u64::MAX
    }

    /// The summed voting power, or nothing where validators repeat or the sum does
    /// not fit.
    fn sum_distinct(validators: &Vec<ValidatorInfo>) -> (r: Option<u64>)
        ensures
            r.is_some() == (distinct_validators(validators@) && total_power(
                validators@,
                validators@.len() as int,
            ) <= u64::MAX),
            r matches Some(t) ==> t == total_power(validators@, validators@.len() as int),
    {
        let n: usize = validators.len();
        let mut total: u64 = 0;
        let mut i: usize = 0;
        while i < n
            invariant
                n == validators.len(),
                i <= n,
                total == total_power(validators@, i as int),
                distinct_validators(validators@.subrange(0, i as int)),
            decreases n - i,
        {
            let v = validators[i];
            let mut j: usize = 0;
            while j < i
                invariant
                    n == validators.len(),
                    j <= i < n,
                    v == validators[i as int],
                    forall|k: int| 0 <= k < j ==> (#[trigger] validators[k]).author != v.author,
                decreases i - j,
            {
                if validators[j].author == v.author {
                    return None;
                }
                j += 1;
            }
            if v.voting_power > u64::MAX - total {
                proof {
                    lemma_power_bounds(validators@, Seq::empty(), (i + 1) as int, n as int);
                }
                return None;
            }
            total = total + v.voting_power;
            i += 1;
            assert(distinct_validators(validators@.subrange(0, i as int)));
        }
        proof {
            assert(validators@.subrange(0, n as int) =~= validators@);
        }
        Some(total)
    }

    /// The verifier for these validators with the usual quorum, more than two thirds
    /// of the total voting power. Nothing where an address stands twice or the total
    /// does not fit in 64 bits.
    pub fn new(validators: Vec<ValidatorInfo>) -> (r: Option<ValidatorVerifier>)
        ensures
            r.is_some() == (distinct_validators(validators@) && total_power(
                validators@,
                validators@.len() as int,
            ) <= u64::MAX),
            r matches Some(v) ==> {
                &&& v.wf()
                &&& v.validators() == validators@
                &&& v.spec_quorum_voting_power() == quorum_for(
                    total_power(validators@, validators@.len() as int),
                    validators@.len() as int,
                )
            },
    {
        match Self::sum_distinct(&validators) {
            None => None,
            Some(total) => {
                let quorum_voting_power: u64 = if validators.len() == 0 {
                    0
                } else {
                    total / 3 * 2 + (total % 3) * 2 / 3 + 1
                };
                Some(ValidatorVerifier { validators, quorum_voting_power })
            },
        }
    }

    /// The verifier for these validators with the given quorum. Nothing where an
    /// address stands twice, the total does not fit in 64 bits, or the quorum is above
    /// the total.
    pub fn new_with_quorum_voting_power(
        validators: Vec<ValidatorInfo>,
        quorum_voting_power: u64,
    ) -> (r: Option<ValidatorVerifier>)
        ensures
            r.is_some() == (distinct_validators(validators@) && total_power(
                validators@,
                validators@.len() as int,
            ) <= u64::MAX && quorum_voting_power <= total_power(
                validators@,
                validators@.len() as int,
            )),
            r matches Some(v) ==> {
                &&& v.wf()
                &&& v.validators() == validators@
                &&& v.spec_quorum_voting_power() == quorum_voting_power
            },
    {
        match Self::sum_distinct(&validators) {
            None => None,
            Some(total) => {
                if quorum_voting_power > total {
                    None
                } else {
                    Some(ValidatorVerifier { validators, quorum_voting_power })
                }
            },
        }
    }

    /// The verifier of an epoch with one validator, whose vote alone is the quorum.
    pub fn new_single(author: Author) -> (v: ValidatorVerifier)
        ensures
            v.wf(),
            v.validators() == seq![ValidatorInfo { author, voting_power: 1 }],
            v.spec_quorum_voting_power() == 1,
    {
        let mut validators: Vec<ValidatorInfo> = Vec::new();
        validators.push(ValidatorInfo { author, voting_power: 1 });
        proof {
            assert(total_power(validators@, 0) == 0);
        }
        ValidatorVerifier { validators, quorum_voting_power: 1 }
    }

    pub fn quorum_voting_power(&self) -> (q: u64)
        ensures
            q == self.spec_quorum_voting_power(),
    {
        self.quorum_voting_power
    }

    /// The number of validators.
    pub fn len(&self) -> (n: usize)
        ensures
            n == self.validators().len(),
    {
        self.validators.len()
    }

    /// The voting power of `author`, if it is a validator.
    pub fn get_voting_power(&self, author: Author) -> (r: Option<u64>)
        ensures
            r.is_some() == is_validator(self.validators(), author),
            r matches Some(p) ==> exists|i: int|
                0 <= i < self.validators().len() && (#[trigger] self.validators()[i]).author
                    == author && self.validators()[i].voting_power == p,
    {
        let mut i: usize = 0;
        while i < self.validators.len()
            invariant
                i <= self.validators.len(),
                forall|k: int| 0 <= k < i ==> (#[trigger] self.validators@[k]).author != author,
            decreases self.validators.len() - i,
        {
            if self.validators[i].author == author {
                return Some(self.validators[i].voting_power);
            }
            i += 1;
        }
        None
    }

    /// Whether `author` has a signature in `sigs`.
    fn signed_by(sigs: &Vec<AuthorSignature>, author: Author) -> (r: bool)
        ensures
            r == has_signed(sigs@, author),
    {
        let mut i: usize = 0;
        while i < sigs.len()
            invariant
                i <= sigs.len(),
                forall|k: int| 0 <= k < i ==> (#[trigger] sigs@[k]).author != author,
            decreases sigs.len() - i,
        {
            if sigs[i].author == author {
                return true;
            }
            i += 1;
        }
        false
    }

    /// Whether the signers are validators whose summed voting power reaches the
    /// quorum. A validator counts once, however often it signed.
    pub fn check_voting_power(&self, sigs: &Vec<AuthorSignature>) -> (r: Result<(), VerifyError>)
        requires
            self.wf(),
        ensures
            r == voting_power_verdict(self.validators(), self.spec_quorum_voting_power(), sigs@),
    {
        let mut i: usize = 0;
        while i < sigs.len()
            invariant
                i <= sigs.len(),
                forall|k: int|
                    0 <= k < i ==> is_validator(self.validators(), (#[trigger] sigs@[k]).author),
            decreases sigs.len() - i,
        {
            if self.get_voting_power(sigs[i].author).is_none() {
                return Err(VerifyError::UnknownAuthor);
            }
            i += 1;
        }
        let n: usize = self.validators.len();
        let mut power: u64 = 0;
        let mut k: usize = 0;
        while k < n
            invariant
                self.wf(),
                n == self.validators.len(),
                k <= n,
                power == signed_power(self.validators(), sigs@, k as int),
            decreases n - k,
        {
            proof {
                lemma_power_bounds(self.validators(), sigs@, (k + 1) as int, n as int);
            }
            if Self::signed_by(sigs, self.validators[k].author) {
                power = power + self.validators[k].voting_power;
            }
            k += 1;
        }
        if power < self.quorum_voting_power {
            Err(
                VerifyError::TooLittleVotingPower {
                    voting_power: power,
                    quorum_voting_power: self.quorum_voting_power,
                },
            )
        } else {
            Ok(())
        }
    }
}

} // verus!
