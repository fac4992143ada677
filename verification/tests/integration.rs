use stellar_identity::credential_issuer::CredentialIssuer;
use stellar_identity::did_registry::DIDRegistry;
use stellar_identity::{Address, Ledger, Service, VerificationMethod};

fn ledger() -> Ledger {
    Ledger { timestamp: 1_700_000_000, sequence: 1000 }
}

fn addr(s: &str) -> Address {
    Address::new(s.as_bytes().to_vec())
}

fn bytes(s: &str) -> Vec<u8> {
    s.as_bytes().to_vec()
}

fn make_vm(key: &[u8; 32]) -> VerificationMethod {
    VerificationMethod {
        id: bytes("#key-1"),
        type_: bytes("Ed25519VerificationKey2018"),
        controller: addr("GVMCONTROLLER"),
        public_key: *key,
    }
}

fn make_services() -> Vec<Service> {
    vec![Service {
        id: bytes("#hub"),
        type_: bytes("IdentityHub"),
        endpoint: bytes("https://hub.example.com"),
    }]
}

#[test]
fn test_full_kyc_flow() {
    let mut dids = DIDRegistry::new();
    let mut creds = CredentialIssuer::new();
    let controller = addr("GCONTROLLER");
    let issuer = addr("GISSUER");
    let subject = addr("GSUBJECT");
    let did = bytes("did:stellar:GABC0");
    assert!(dids.create_did(&ledger(), controller, did.clone(), vec![make_vm(&[1u8; 32])], make_services()).is_ok());
    let resolved = dids.resolve_did(&did);
    assert!(resolved.is_ok());
    assert!(!resolved.unwrap().deactivated);
    let cred_id = creds.issue_credential(
        &ledger(),
        issuer.clone(),
        subject,
        vec![bytes("KYCCredential")],
        bytes("{\"name\":\"Alice\",\"dob\":\"1990-01-01\"}"),
        None,
        bytes("proof"),
    );
    assert!(cred_id.is_ok());
    let cred_id = cred_id.unwrap();
    let verification = creds.verify_credential(&ledger(), &cred_id);
    assert!(verification.is_ok());
    assert!(verification.unwrap());
    let revoked = creds.revoke_credential(&ledger(), &issuer, &cred_id, Some(bytes("KYC expired")));
    assert!(revoked.is_ok());
    let verification_after = creds.verify_credential(&ledger(), &cred_id);
    assert!(verification_after.is_ok());
    assert!(!verification_after.unwrap());
    assert_eq!(creds.get_credential_status(&cred_id), bytes("revoked"));
    assert!(creds.get_revocation_reason(&cred_id).is_some());
}

#[test]
fn test_multi_user_scenario() {
    let mut dids = DIDRegistry::new();
    let mut creds = CredentialIssuer::new();
    let user1 = addr("GUSER1");
    let user2 = addr("GUSER2");
    let user3 = addr("GUSER3");
    for (i, (user, key)) in [(&user1, [1u8; 32]), (&user2, [2u8; 32]), (&user3, [3u8; 32])].iter().enumerate() {
        let did = format!("did:stellar:GABC{}", i).into_bytes();
        assert!(dids.create_did(&ledger(), (*user).clone(), did, vec![make_vm(key)], make_services()).is_ok());
    }
    let cred_id = creds.issue_credential(
        &ledger(),
        user1.clone(),
        user2.clone(),
        vec![bytes("KYCCredential")],
        bytes("{\"name\":\"Alice\"}"),
        None,
        bytes("proof"),
    );
    assert!(cred_id.is_ok());
    let cred_id = cred_id.unwrap();
    let user2_creds = creds.get_subject_credentials(&user2);
    assert_eq!(user2_creds.len(), 1);
    assert_eq!(user2_creds[0], cred_id);
    let user1_creds = creds.get_issuer_credentials(&user1);
    assert_eq!(user1_creds.len(), 1);
    let verification = creds.verify_credential(&ledger(), &cred_id);
    assert!(verification.is_ok());
    assert!(verification.unwrap());
    assert!(creds.get_subject_credentials(&user3).is_empty());
}
