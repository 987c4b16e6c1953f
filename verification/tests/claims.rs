use pallets::poe::{Config, Error, Event, Pallet};

const ALICE: u64 = 1;
const BOB: u64 = 2;

fn registry() -> Pallet {
    Pallet::new(Config {
        max_claim_length: 8,
    })
}

#[test]
fn create_claim_records_sender_and_block() {
    let mut p = registry();
    p.set_block_number(5);
    assert_eq!(p.create_claim(ALICE, vec![1, 2, 3]), Ok(()));
    assert_eq!(p.proofs(&vec![1, 2, 3]), Some((ALICE, 5)));
    assert_eq!(
        p.last_event(),
        Some(Event::ClaimCreated(ALICE, vec![1, 2, 3]))
    );
}

#[test]
fn create_claim_rejects_a_duplicate() {
    let mut p = registry();
    assert_eq!(p.create_claim(ALICE, vec![1, 2]), Ok(()));
    assert_eq!(
        p.create_claim(BOB, vec![1, 2]),
        Err(Error::ProofAlreadyClaimed)
    );
    assert_eq!(p.proofs(&vec![1, 2]), Some((ALICE, 0)));
}

#[test]
fn create_claim_rejects_an_overlong_claim() {
    let mut p = registry();
    assert_eq!(
        p.create_claim(ALICE, vec![0; 9]),
        Err(Error::ProofTooLong)
    );
    assert_eq!(p.proofs(&vec![0; 9]), None);
    assert_eq!(p.create_claim(ALICE, vec![0; 8]), Ok(()));
}

#[test]
fn revoke_claim_removes_the_claim() {
    let mut p = registry();
    assert_eq!(p.create_claim(ALICE, vec![7]), Ok(()));
    assert_eq!(p.revoke_claim(ALICE, vec![7]), Ok(()));
    assert_eq!(p.proofs(&vec![7]), None);
    assert_eq!(p.last_event(), Some(Event::ClaimRevoked(ALICE, vec![7])));
    // The claim can be recorded again once revoked.
    p.set_block_number(9);
    assert_eq!(p.create_claim(BOB, vec![7]), Ok(()));
    assert_eq!(p.proofs(&vec![7]), Some((BOB, 9)));
}

#[test]
fn revoke_claim_requires_an_existing_claim() {
    let mut p = registry();
    assert_eq!(p.revoke_claim(ALICE, vec![7]), Err(Error::NoSuchProof));
}

#[test]
fn revoke_claim_requires_the_owner() {
    let mut p = registry();
    assert_eq!(p.create_claim(ALICE, vec![7]), Ok(()));
    assert_eq!(p.revoke_claim(BOB, vec![7]), Err(Error::NotProofOwner));
    assert_eq!(p.proofs(&vec![7]), Some((ALICE, 0)));
}

#[test]
fn transfer_claim_keeps_the_original_block() {
    let mut p = registry();
    p.set_block_number(3);
    assert_eq!(p.create_claim(ALICE, vec![4, 4]), Ok(()));
    p.set_block_number(7);
    assert_eq!(p.transfer_claim(ALICE, vec![4, 4], BOB), Ok(()));
    assert_eq!(p.proofs(&vec![4, 4]), Some((BOB, 3)));
    assert_eq!(
        p.last_event(),
        Some(Event::ClaimTransfered(ALICE, BOB, vec![4, 4]))
    );
}

#[test]
fn transfer_claim_requires_an_existing_claim() {
    let mut p = registry();
    assert_eq!(
        p.transfer_claim(ALICE, vec![4], BOB),
        Err(Error::NoSuchProof)
    );
}

#[test]
fn transfer_claim_requires_the_owner() {
    let mut p = registry();
    assert_eq!(p.create_claim(ALICE, vec![4]), Ok(()));
    assert_eq!(
        p.transfer_claim(BOB, vec![4], BOB),
        Err(Error::NotProofOwner)
    );
    assert_eq!(p.proofs(&vec![4]), Some((ALICE, 0)));
}

#[test]
fn claims_with_different_bytes_do_not_collide() {
    let mut p = registry();
    assert_eq!(p.create_claim(ALICE, vec![]), Ok(()));
    assert_eq!(p.create_claim(BOB, vec![0]), Ok(()));
    assert_eq!(p.create_claim(BOB, vec![0, 0]), Ok(()));
    assert_eq!(p.proofs(&vec![]), Some((ALICE, 0)));
    assert_eq!(p.proofs(&vec![0]), Some((BOB, 0)));
    assert_eq!(p.proofs(&vec![0, 0]), Some((BOB, 0)));
    assert_eq!(p.revoke_claim(BOB, vec![0]), Ok(()));
    assert_eq!(p.proofs(&vec![0]), None);
    assert_eq!(p.proofs(&vec![]), Some((ALICE, 0)));
    assert_eq!(p.proofs(&vec![0, 0]), Some((BOB, 0)));
}
