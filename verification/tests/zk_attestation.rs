use soroban_sdk::testutils::EnvTestConfig;
use soroban_sdk::Env;
use stellar_identity::zk_attestation::{CircuitType, ZKAttestation, ZKAttestationError};
use stellar_identity::{Address, Ledger};

fn env() -> Env {
    Env::new_with_config(EnvTestConfig { capture_snapshot_at_drop: false })
}

fn ledger() -> Ledger {
    Ledger { timestamp: 1_700_000_000, sequence: 1000 }
}

fn bytes(s: &str) -> Vec<u8> {
    s.as_bytes().to_vec()
}

fn contract() -> ZKAttestation {
    ZKAttestation::new(Address::new(bytes("CCONTRACTADDRESS")))
}

fn register(zk: &mut ZKAttestation, env: &Env, id: &str, vk: &str, inputs: u32) -> Result<(), ZKAttestationError> {
    zk.register_circuit(
        env,
        &ledger(),
        bytes(id),
        bytes("Test"),
        bytes("Test circuit"),
        bytes(vk),
        inputs,
        1,
        CircuitType::RangeProof,
        Vec::new(),
    )
}

fn context_metadata(value: &str) -> Vec<(Vec<u8>, Vec<u8>)> {
    vec![(bytes("context"), bytes(value))]
}

fn sha256(env: &Env, data: &[u8]) -> Vec<u8> {
    env.crypto().sha256(&soroban_sdk::Bytes::from_slice(env, data)).to_array().to_vec()
}

#[test]
fn fuzz_duplicate_circuit_registration() {
    let env = env();
    let mut zk = contract();
    assert!(register(&mut zk, &env, "dup_test", "key_data_16_bytes!", 1).is_ok());
    let result = register(&mut zk, &env, "dup_test", "key_data_16_bytes!", 1);
    assert!(result.is_err());
    assert_eq!(result.err().unwrap(), ZKAttestationError::InvalidCircuit);
}

#[test]
fn fuzz_nullifier_reuse() {
    let env = env();
    let mut zk = contract();
    let _ = register(&mut zk, &env, "null_test", "key_data_16_bytes!", 1);
    let result1 = zk.submit_proof(
        &env,
        &ledger(),
        bytes("null_test"),
        vec![bytes("input")],
        bytes("proof"),
        bytes("same_nullifier"),
        Vec::new(),
        None,
        context_metadata("test"),
    );
    assert!(result1.is_ok());
    let result2 = zk.submit_proof(
        &env,
        &ledger(),
        bytes("null_test"),
        vec![bytes("input2")],
        bytes("proof2"),
        bytes("same_nullifier"),
        Vec::new(),
        None,
        context_metadata("test"),
    );
    assert!(result2.is_err());
    assert_eq!(result2.err().unwrap(), ZKAttestationError::NullifierAlreadyUsed);
}

#[test]
fn fuzz_empty_proof() {
    let env = env();
    let mut zk = contract();
    let _ = register(&mut zk, &env, "empty_proof", "key_data_16_bytes!", 1);
    let result = zk.submit_proof(
        &env,
        &ledger(),
        bytes("empty_proof"),
        vec![bytes("input")],
        Vec::new(),
        bytes("null"),
        Vec::new(),
        None,
        context_metadata("test"),
    );
    assert!(result.is_err());
    assert_eq!(result.err().unwrap(), ZKAttestationError::InvalidProof);
}

#[test]
fn bench_register_circuit() {
    let env = env();
    let mut zk = contract();
    let result = zk.register_circuit(
        &env,
        &ledger(),
        bytes("bench_circ"),
        bytes("Bench Circuit"),
        bytes("desc"),
        bytes("verifier_key_data_here!!"),
        2,
        3,
        CircuitType::RangeProof,
        vec![bytes("attr")],
    );
    assert!(result.is_ok());
}

#[test]
fn test_zk_proof_lifecycle() {
    let env = env();
    let mut zk = contract();
    let register_result = zk.register_circuit(
        &env,
        &ledger(),
        bytes("age_test"),
        bytes("Age Range Proof"),
        bytes("Prove age >= minimum without revealing exact age"),
        bytes("test_verifier_key_32_bytes_long!"),
        2,
        3,
        CircuitType::RangeProof,
        vec![bytes("age_commitment")],
    );
    assert!(register_result.is_ok());
    let proof_id = zk.submit_proof(
        &env,
        &ledger(),
        bytes("age_test"),
        vec![bytes("commitment_value_1"), bytes("18")],
        bytes("valid_zk_proof_data"),
        bytes("unique_nullifier_123"),
        vec![bytes("age_commitment")],
        None,
        context_metadata("age_verification"),
    );
    assert!(proof_id.is_ok());
    let proof_id = proof_id.unwrap();
    let verify_result = zk.verify_proof(&ledger(), &proof_id);
    assert!(verify_result.is_ok());
    assert!(verify_result.unwrap());
    let retrieved = zk.get_proof(&proof_id);
    assert!(retrieved.is_ok());
    let circuits = zk.get_active_circuits();
    assert!(circuits.len() >= 1);
}

#[test]
fn test_paginated_registered_circuits() {
    let env = env();
    let mut zk = contract();
    for i in 0..5u32 {
        let cid = format!("circ_{i}");
        let _ = zk.register_circuit(
            &env,
            &ledger(),
            bytes(&cid),
            bytes("name"),
            bytes("desc"),
            bytes("vk_data_123456789012345678"),
            1,
            1,
            CircuitType::RangeProof,
            vec![bytes("attr")],
        );
    }
    let page0 = zk.get_registered_circuits(0, 3);
    assert_eq!(page0.data.len(), 3);
    assert_eq!(page0.total, 5);
    assert!(page0.has_more);
    let page1 = zk.get_registered_circuits(1, 3);
    assert_eq!(page1.data.len(), 2);
    assert!(!page1.has_more);
}

#[test]
fn registered_circuit_records_key_hash() {
    let env = env();
    let mut zk = contract();
    register(&mut zk, &env, "hash_test", "some verifier key", 1).unwrap();
    let circuit = zk.get_circuit(&bytes("hash_test")).unwrap();
    assert_eq!(circuit.verifying_key_hash, sha256(&env, b"some verifier key"));
    assert_eq!(circuit.verifying_key_hash.len(), 32);
    assert_ne!(circuit.verifying_key_hash, bytes("some verifier key"));
    assert!(circuit.active);
    assert_eq!(circuit.created_by.strkey, bytes("CCONTRACTADDRESS"));
    assert_eq!(circuit.created_at, 1_700_000_000);
    assert_eq!(zk.get_circuit(&bytes("nope")).err().unwrap(), ZKAttestationError::InvalidCircuit);
}

#[test]
fn submitted_proof_records() {
    let env = env();
    let mut zk = contract();
    register(&mut zk, &env, "rec", "vk", 2).unwrap();
    let l = Ledger { timestamp: 1_700_000_042, sequence: 77 };
    let id = zk
        .submit_proof(
            &env,
            &l,
            bytes("rec"),
            vec![bytes("a"), bytes("b")],
            bytes("proof-bytes"),
            bytes("n1"),
            vec![bytes("age")],
            Some(1_700_000_100),
            Vec::new(),
        )
        .unwrap();
    assert_eq!(id, bytes("zk:1700000042:77"));
    let proof = zk.get_proof(&id).unwrap();
    assert_eq!(proof.verifying_key_hash, sha256(&env, b"vk"));
    assert_eq!(proof.verifier_address.strkey, bytes("CCONTRACTADDRESS"));
    assert_eq!(proof.expires_at, Some(1_700_000_100));
    assert_eq!(zk.get_circuit_proofs(&bytes("rec")), vec![id.clone()]);
    // expired proofs no longer verify
    let late = Ledger { timestamp: 1_700_000_101, sequence: 80 };
    assert_eq!(zk.verify_proof(&late, &id), Ok(false));
    assert_eq!(zk.verify_proof(&l, &id), Ok(true));
    assert_eq!(zk.verify_proof(&l, &bytes("zk:none")), Err(ZKAttestationError::NotFound));
    assert_eq!(zk.batch_verify_proofs(&late, &vec![id.clone(), bytes("zk:none")]), vec![false, false]);
    assert_eq!(zk.batch_verify_proofs(&l, &vec![id]), vec![true]);
}

#[test]
fn submit_proof_checks_in_order() {
    let env = env();
    let mut zk = contract();
    let submit = |zk: &mut ZKAttestation, circuit: &str, inputs: usize, proof: &str, nullifier: &str| {
        zk.submit_proof(
            &env,
            &ledger(),
            bytes(circuit),
            vec![bytes("i"); inputs],
            bytes(proof),
            bytes(nullifier),
            Vec::new(),
            None,
            Vec::new(),
        )
    };
    assert_eq!(submit(&mut zk, "none", 1, "p", "n").err().unwrap(), ZKAttestationError::InvalidCircuit);
    register(&mut zk, &env, "c", "vk", 1).unwrap();
    register(&mut zk, &env, "nokey", "", 1).unwrap();
    assert_eq!(submit(&mut zk, "c", 2, "p", "n").err().unwrap(), ZKAttestationError::InvalidPublicInputs);
    assert_eq!(submit(&mut zk, "nokey", 1, "p", "n").err().unwrap(), ZKAttestationError::InvalidCircuit);
    zk.deactivate_circuit(&bytes("c")).unwrap();
    assert_eq!(submit(&mut zk, "c", 1, "p", "n").err().unwrap(), ZKAttestationError::CircuitDeactivated);
    zk.reactivate_circuit(&bytes("c")).unwrap();
    assert!(submit(&mut zk, "c", 1, "p", "n").is_ok());
    assert_eq!(zk.deactivate_circuit(&bytes("missing")).err().unwrap(), ZKAttestationError::InvalidCircuit);
    // deactivated circuits stay in the list of registered circuits
    zk.deactivate_circuit(&bytes("c")).unwrap();
    assert_eq!(zk.get_active_circuits(), vec![bytes("c"), bytes("nokey")]);
}
