use chained_bft::block_info::AuthorSignature;
use chained_bft::hash_value::{AccountAddress, HashValue, Signature};
use chained_bft::validator_verifier::{ValidatorInfo, ValidatorVerifier, VerifyError};

fn author(n: u128) -> AccountAddress {
    AccountAddress::new(0, n)
}

fn signed(by: u128) -> AuthorSignature {
    AuthorSignature {
        author: author(by),
        signature: Signature::new(HashValue::new(0, by), HashValue::new(by, 0)),
    }
}

fn with_powers(powers: &[u64]) -> Option<ValidatorVerifier> {
    ValidatorVerifier::new(
        powers
            .iter()
            .enumerate()
            .map(|(i, p)| ValidatorInfo { author: author(i as u128 + 1), voting_power: *p })
            .collect(),
    )
}

#[test]
fn quorum_is_more_than_two_thirds() {
    assert_eq!(with_powers(&[]).unwrap().quorum_voting_power(), 0);
    assert_eq!(with_powers(&[1]).unwrap().quorum_voting_power(), 1);
    assert_eq!(with_powers(&[1, 1]).unwrap().quorum_voting_power(), 2);
    assert_eq!(with_powers(&[1, 1, 1]).unwrap().quorum_voting_power(), 3);
    assert_eq!(with_powers(&[1, 1, 1, 1]).unwrap().quorum_voting_power(), 3);
    assert_eq!(with_powers(&[1, 1, 1, 1, 1, 1, 1]).unwrap().quorum_voting_power(), 5);
    assert_eq!(with_powers(&[10, 20, 30, 40]).unwrap().quorum_voting_power(), 67);
    assert_eq!(with_powers(&[0, 0]).unwrap().quorum_voting_power(), 1);
    assert_eq!(
        with_powers(&[u64::MAX]).unwrap().quorum_voting_power(),
        12297829382473034411
    );
    assert_eq!(with_powers(&[1, 1, 1, 1]).unwrap().len(), 4);
}

#[test]
fn repeated_validator_is_refused() {
    let twice = vec![
        ValidatorInfo { author: author(1), voting_power: 1 },
        ValidatorInfo { author: author(2), voting_power: 1 },
        ValidatorInfo { author: author(1), voting_power: 5 },
    ];
    assert!(ValidatorVerifier::new(twice.clone()).is_none());
    assert!(ValidatorVerifier::new_with_quorum_voting_power(twice, 1).is_none());
}

#[test]
fn total_power_must_fit() {
    assert!(with_powers(&[u64::MAX, 1]).is_none());
    assert!(with_powers(&[u64::MAX - 1, 1]).is_some());
    assert!(with_powers(&[u64::MAX, 0]).is_some());
}

#[test]
fn quorum_above_the_total_is_refused() {
    let two = || {
        vec![
            ValidatorInfo { author: author(1), voting_power: 2 },
            ValidatorInfo { author: author(2), voting_power: 3 },
        ]
    };
    assert!(ValidatorVerifier::new_with_quorum_voting_power(two(), 6).is_none());
    let v = ValidatorVerifier::new_with_quorum_voting_power(two(), 5).unwrap();
    assert_eq!(v.quorum_voting_power(), 5);
    assert_eq!(v.get_voting_power(author(2)), Some(3));
    assert_eq!(v.get_voting_power(author(3)), None);
}

#[test]
fn voting_power_is_summed_over_the_signers() {
    let v = with_powers(&[10, 20, 30, 40]).unwrap();
    assert_eq!(
        v.check_voting_power(&vec![]),
        Err(VerifyError::TooLittleVotingPower { voting_power: 0, quorum_voting_power: 67 })
    );
    assert_eq!(
        v.check_voting_power(&vec![signed(1), signed(4)]),
        Err(VerifyError::TooLittleVotingPower { voting_power: 50, quorum_voting_power: 67 })
    );
    assert_eq!(
        v.check_voting_power(&vec![signed(2), signed(4)]),
        Err(VerifyError::TooLittleVotingPower { voting_power: 60, quorum_voting_power: 67 })
    );
    assert_eq!(v.check_voting_power(&vec![signed(3), signed(4)]), Ok(()));
    assert_eq!(v.check_voting_power(&vec![signed(4), signed(2), signed(1)]), Ok(()));
}

#[test]
fn a_validator_counts_once() {
    let v = with_powers(&[10, 20, 30, 40]).unwrap();
    assert_eq!(
        v.check_voting_power(&vec![signed(4), signed(4), signed(4)]),
        Err(VerifyError::TooLittleVotingPower { voting_power: 40, quorum_voting_power: 67 })
    );
}

#[test]
fn unknown_signer_is_an_error() {
    let v = with_powers(&[10, 20, 30, 40]).unwrap();
    assert_eq!(
        v.check_voting_power(&vec![signed(3), signed(4), signed(5)]),
        Err(VerifyError::UnknownAuthor)
    );
}

#[test]
fn single_validator() {
    let v = ValidatorVerifier::new_single(author(7));
    assert_eq!(v.quorum_voting_power(), 1);
    assert_eq!(v.len(), 1);
    assert_eq!(v.get_voting_power(author(7)), Some(1));
    assert_eq!(v.check_voting_power(&vec![signed(7)]), Ok(()));
    assert_eq!(
        v.check_voting_power(&vec![]),
        Err(VerifyError::TooLittleVotingPower { voting_power: 0, quorum_voting_power: 1 })
    );
}
