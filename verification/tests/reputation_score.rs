use stellar_identity::reputation_score::{Config, ReputationScore};
use stellar_identity::Address;

fn addr(s: &str) -> Address {
    Address::new(s.as_bytes().to_vec())
}

fn config() -> Config {
    Config {
        max_score: 100,
        transaction_success_weight: 10,
        transaction_failure_weight: 5,
        credential_valid_weight: 20,
        credential_invalid_weight: 15,
    }
}

#[test]
fn test_initialization_and_score_bounds() {
    let mut rep = ReputationScore::new();
    let user = addr("GUSER");
    rep.initialize(addr("GADMIN"), config());
    assert_eq!(rep.get_reputation_score(&user), 0);
    for _ in 0..15 {
        rep.update_transaction_reputation(&user, true, 0).unwrap();
    }
    assert_eq!(rep.get_reputation_score(&user), 100);
    for _ in 0..20 {
        rep.update_transaction_reputation(&user, false, 0).unwrap();
    }
    assert_eq!(rep.get_reputation_score(&user), 0);
}

#[test]
fn test_transaction_updates() {
    let mut rep = ReputationScore::new();
    let user = addr("GUSER");
    rep.initialize(addr("GADMIN"), config());
    let score = rep.update_transaction_reputation(&user, true, 100).unwrap();
    assert_eq!(score, 10);
    let score = rep.update_transaction_reputation(&user, false, 0).unwrap();
    assert_eq!(score, 5);
}

#[test]
fn test_credential_updates() {
    let mut rep = ReputationScore::new();
    let user = addr("GUSER");
    rep.initialize(addr("GADMIN"), config());
    let kyc = b"KYC".to_vec();
    let score = rep.update_credential_reputation(&user, true, &kyc).unwrap();
    assert_eq!(score, 20);
    let score = rep.update_credential_reputation(&user, false, &kyc).unwrap();
    assert_eq!(score, 5);
}

#[test]
fn test_deterministic_parallel_safe() {
    let mut rep = ReputationScore::new();
    rep.initialize(addr("GADMIN"), config());
    let alice = addr("GALICE");
    let bob = addr("GBOB");
    let alice_score = rep.get_reputation_score(&alice);
    let bob_score = rep.get_reputation_score(&bob);
    assert_eq!(alice_score, bob_score);
    for _ in 0..3 {
        let _ = rep.update_transaction_reputation(&alice, true, 100);
    }
    let alice_after = rep.get_reputation_score(&alice);
    let bob_after = rep.get_reputation_score(&bob);
    assert!(alice_after > bob_after);
    assert_eq!(bob_after, bob_score);
}

#[test]
fn scores_saturate_at_the_maximum() {
    let mut rep = ReputationScore::new();
    assert!(!rep.is_initialized());
    let big = Config { max_score: u32::MAX, transaction_success_weight: u32::MAX, ..config() };
    rep.initialize(addr("GADMIN"), big);
    assert!(rep.is_initialized());
    let user = addr("GUSER");
    assert_eq!(rep.update_transaction_reputation(&user, true, 0).unwrap(), u32::MAX);
    assert_eq!(rep.update_transaction_reputation(&user, true, 0).unwrap(), u32::MAX);
    assert_eq!(rep.update_credential_reputation(&user, false, &Vec::new()).unwrap(), u32::MAX - 15);
}
