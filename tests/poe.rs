use kitties::poe::{Config, Error, Event, Pallet};

const BLOCK: u64 = 0;

fn new_test_ext() -> Pallet {
    Pallet::new(Config { proof_limit: 255 })
}

#[test]
fn create_proof_works() {
    let mut p = new_test_ext();
    let claim = vec![0, 1];
    assert!(p.create_proof(1, claim.clone(), BLOCK).is_ok());
    assert_eq!(p.get(&claim), Some((1, BLOCK)));
}

#[test]
fn create_proof_failed_when_proof_already_exist() {
    let mut p = new_test_ext();
    let claim = vec![0, 1];
    assert!(p.create_proof(1, claim.clone(), BLOCK).is_ok());
    assert_eq!(p.create_proof(1, claim.clone(), BLOCK).unwrap_err(), Error::ProofAlreadyExist);
    assert_eq!(p.get(&claim), Some((1, BLOCK)));
}

#[test]
fn create_proof_failed_when_proof_exceeds_length_limit() {
    let mut p = new_test_ext();
    let claim: Vec<u8> = vec![0; 256];
    assert_eq!(p.create_proof(1, claim.clone(), BLOCK).unwrap_err(), Error::ProofExceedsLengthLimit);
    assert_eq!(p.get(&claim), None);
}

#[test]
fn revoke_proof_works() {
    let mut p = new_test_ext();
    let claim = vec![0, 1];
    assert!(p.create_proof(1, claim.clone(), BLOCK).is_ok());
    assert!(p.revoke_proof(1, claim.clone()).is_ok());
    assert_eq!(p.get(&claim), None);
}

#[test]
fn revoke_proof_failed_when_proof_is_not_exist() {
    let mut p = new_test_ext();
    let claim = vec![0, 1];
    assert_eq!(p.revoke_proof(1, claim.clone()).unwrap_err(), Error::ProofNotExist);
}

#[test]
fn revoke_proof_failed_when_caller_is_not_owner() {
    let mut p = new_test_ext();
    let claim = vec![0, 1];
    assert!(p.create_proof(1, claim.clone(), BLOCK).is_ok());
    assert_eq!(p.revoke_proof(2, claim.clone()).unwrap_err(), Error::NotProofOwner);
    assert_eq!(p.get(&claim), Some((1, BLOCK)));
}

#[test]
fn transfer_proof_works() {
    let mut p = new_test_ext();
    let claim = vec![0, 1];
    assert!(p.create_proof(1, claim.clone(), BLOCK).is_ok());
    assert_eq!(p.get(&claim).unwrap(), (1, 0));
    assert!(p.transfer_proof(1, 2, claim.clone(), BLOCK).is_ok());
    assert_eq!(p.get(&claim).unwrap(), (2, 0));
}

#[test]
fn transfer_proof_failed_when_caller_is_not_owner() {
    let mut p = new_test_ext();
    let claim = vec![0, 1];
    assert!(p.create_proof(1, claim.clone(), BLOCK).is_ok());
    assert_eq!(p.transfer_proof(2, 3, claim.clone(), BLOCK).unwrap_err(), Error::NotProofOwner);
    assert_eq!(p.get(&claim), Some((1, BLOCK)));
}

#[test]
fn transfer_proof_failed_when_proof_not_exist() {
    let mut p = new_test_ext();
    let claim = vec![0, 1];
    assert_eq!(p.transfer_proof(1, 2, claim.clone(), BLOCK).unwrap_err(), Error::ProofNotExist);
}

#[test]
fn claim_at_the_length_limit_is_accepted() {
    let mut p = Pallet::new(Config { proof_limit: 4 });
    assert!(p.create_proof(1, vec![1, 2, 3, 4], 3).is_ok());
    assert_eq!(p.create_proof(1, vec![1, 2, 3, 4, 5], 3).unwrap_err(), Error::ProofExceedsLengthLimit);
    assert_eq!(p.create_proof(1, vec![], 3).map(|_| ()), Ok(()));
    assert_eq!(p.get(&vec![]), Some((1, 3)));
}

#[test]
fn claims_are_kept_apart() {
    let mut p = new_test_ext();
    p.create_proof(1, vec![1], 5).unwrap();
    p.create_proof(2, vec![2], 6).unwrap();
    p.create_proof(3, vec![1, 2], 7).unwrap();
    match p.transfer_proof(2, 4, vec![2], 9).unwrap() {
        Event::ProofTransferred(who, claim) => {
            assert_eq!(who, 4);
            assert_eq!(claim, vec![2]);
        }
        other => panic!("unexpected {:?}", other),
    }
    p.revoke_proof(1, vec![1]).unwrap();
    assert_eq!(p.get(&vec![1]), None);
    assert_eq!(p.get(&vec![2]), Some((4, 9)));
    assert_eq!(p.get(&vec![1, 2]), Some((3, 7)));
    p.create_proof(5, vec![1], 10).unwrap();
    assert_eq!(p.get(&vec![1]), Some((5, 10)));
}
