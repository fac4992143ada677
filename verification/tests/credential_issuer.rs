use stellar_identity::credential_issuer::{CredentialIssuer, CredentialIssuerError, SchemaCheck};
use stellar_identity::{Address, Ledger};

fn ledger() -> Ledger {
    Ledger { timestamp: 1_700_000_000, sequence: 1000 }
}

fn ledger_at(i: u32) -> Ledger {
    Ledger { timestamp: 1_700_000_000 + i as u64, sequence: 1000 + i }
}

fn addr(s: &str) -> Address {
    Address::new(s.as_bytes().to_vec())
}

fn bytes(s: &str) -> Vec<u8> {
    s.as_bytes().to_vec()
}

fn issue(ci: &mut CredentialIssuer, l: &Ledger, issuer: &Address, subject: &Address) -> Vec<u8> {
    ci.issue_credential(
        l,
        issuer.clone(),
        subject.clone(),
        vec![bytes("Test")],
        bytes("data"),
        None,
        bytes("proof"),
    )
    .unwrap()
}

#[test]
fn fuzz_empty_credential_data() {
    let mut ci = CredentialIssuer::new();
    let result = ci.issue_credential(
        &ledger(),
        addr("GISSUER"),
        addr("GSUBJECT"),
        vec![bytes("Test")],
        Vec::new(),
        None,
        bytes("proof"),
    );
    assert!(result.is_err());
    assert_eq!(result.err().unwrap(), CredentialIssuerError::InvalidCredential);
}

#[test]
fn fuzz_empty_credential_type() {
    let mut ci = CredentialIssuer::new();
    let result = ci.issue_credential(
        &ledger(),
        addr("GISSUER"),
        addr("GSUBJECT"),
        Vec::new(),
        bytes("data"),
        None,
        bytes("proof"),
    );
    assert!(result.is_err());
    assert_eq!(result.err().unwrap(), CredentialIssuerError::InvalidCredential);
}

#[test]
fn fuzz_long_credential_type() {
    let mut ci = CredentialIssuer::new();
    let result = ci.issue_credential(
        &ledger(),
        addr("GISSUER"),
        addr("GSUBJECT"),
        vec![vec![b'X'; 5000]],
        bytes("data"),
        None,
        bytes("proof"),
    );
    assert!(result.is_err());
}

#[test]
fn bench_issue_credential() {
    let mut ci = CredentialIssuer::new();
    let result = ci.issue_credential(
        &ledger(),
        addr("GISSUER"),
        addr("GSUBJECT"),
        vec![bytes("KYCVerification")],
        bytes("{\"name\":\"Alice\"}"),
        None,
        bytes("proof"),
    );
    assert!(result.is_ok());
}

#[test]
fn bench_verify_credential() {
    let mut ci = CredentialIssuer::new();
    let id = ci
        .issue_credential(
            &ledger(),
            addr("GISSUER"),
            addr("GSUBJECT"),
            vec![bytes("KYC")],
            bytes("{\"v\":1}"),
            None,
            bytes("proof"),
        )
        .unwrap();
    let result = ci.verify_credential(&ledger(), &id);
    assert!(result.is_ok());
    assert!(result.unwrap());
}

#[test]
fn bench_paginated_credentials() {
    let mut ci = CredentialIssuer::new();
    let issuer = addr("GISSUER");
    let subject = addr("GSUBJECT");
    for _ in 0..25 {
        let _ = issue(&mut ci, &ledger(), &issuer, &subject);
    }
    let result = ci.get_credentials_by_subject(&subject, 0, 10);
    assert_eq!(result.data.len(), 10);
    assert_eq!(result.total, 25);
    assert!(result.has_more);
}

#[test]
fn test_pagination_empty_list() {
    let ci = CredentialIssuer::new();
    let result = ci.get_credentials_by_subject(&addr("GSUBJECT"), 0, 10);
    assert_eq!(result.data.len(), 0);
    assert_eq!(result.page, 0);
    assert_eq!(result.total, 0);
    assert!(!result.has_more);
}

#[test]
fn test_pagination_single_page() {
    let mut ci = CredentialIssuer::new();
    let issuer = addr("GISSUER");
    let subject = addr("GSUBJECT");
    for _ in 0..5 {
        let _ = issue(&mut ci, &ledger(), &issuer, &subject);
    }
    let result = ci.get_credentials_by_subject(&subject, 0, 10);
    assert_eq!(result.data.len(), 5);
    assert_eq!(result.total, 5);
    assert!(!result.has_more);
}

#[test]
fn test_pagination_multiple_pages() {
    let mut ci = CredentialIssuer::new();
    let issuer = addr("GISSUER");
    let subject = addr("GSUBJECT");
    for _ in 0..25 {
        let _ = issue(&mut ci, &ledger(), &issuer, &subject);
    }
    let page0 = ci.get_credentials_by_subject(&subject, 0, 10);
    assert_eq!(page0.data.len(), 10);
    assert_eq!(page0.total, 25);
    assert!(page0.has_more);
    let page1 = ci.get_credentials_by_subject(&subject, 1, 10);
    assert_eq!(page1.data.len(), 10);
    assert!(page1.has_more);
    let page2 = ci.get_credentials_by_subject(&subject, 2, 10);
    assert_eq!(page2.data.len(), 5);
    assert!(!page2.has_more);
}

#[test]
fn test_pagination_last_page_exact() {
    let mut ci = CredentialIssuer::new();
    let issuer = addr("GISSUER");
    let subject = addr("GSUBJECT");
    for _ in 0..20 {
        let _ = issue(&mut ci, &ledger(), &issuer, &subject);
    }
    let page1 = ci.get_credentials_by_subject(&subject, 1, 10);
    assert_eq!(page1.data.len(), 10);
    assert!(!page1.has_more);
}

#[test]
fn test_pagination_page_size_clamping() {
    let mut ci = CredentialIssuer::new();
    let issuer = addr("GISSUER");
    let subject = addr("GSUBJECT");
    for _ in 0..60 {
        let _ = issue(&mut ci, &ledger(), &issuer, &subject);
    }
    let result = ci.get_credentials_by_subject(&subject, 0, 0);
    assert_eq!(result.data.len(), 10);
    let result = ci.get_credentials_by_subject(&subject, 0, 100);
    assert_eq!(result.data.len(), 50);
}

#[test]
fn test_credential_status_packing() {
    let mut ci = CredentialIssuer::new();
    let issuer = addr("GISSUER");
    let subject = addr("GSUBJECT");
    let id = issue(&mut ci, &ledger(), &issuer, &subject);
    assert_eq!(ci.get_credential_status(&id), bytes("active"));
    let _ = ci.revoke_credential(&ledger(), &issuer, &id, None);
    assert_eq!(ci.get_credential_status(&id), bytes("revoked"));
    assert_eq!(ci.get_credential_status(&bytes("nonexistent")), bytes("unknown"));
}

#[test]
fn test_paginated_issuer_credentials() {
    let mut ci = CredentialIssuer::new();
    let issuer = addr("GISSUER");
    for i in 0..12u32 {
        let subject = Address::new(format!("GSUBJECT{}", i).into_bytes());
        let _ = issue(&mut ci, &ledger(), &issuer, &subject);
    }
    let page0 = ci.get_credentials_by_issuer(&issuer, 0, 5);
    assert_eq!(page0.data.len(), 5);
    assert_eq!(page0.total, 12);
    assert!(page0.has_more);
    let page2 = ci.get_credentials_by_issuer(&issuer, 2, 5);
    assert_eq!(page2.data.len(), 2);
    assert!(!page2.has_more);
}

#[test]
fn credential_id_comes_from_the_ledger() {
    let mut ci = CredentialIssuer::new();
    let l = Ledger { timestamp: 1_700_000_123, sequence: 4567 };
    let id = issue(&mut ci, &l, &addr("GI"), &addr("GS"));
    assert_eq!(id, bytes("vc:1700000123:4567"));
    let c = ci.get_credential(&id).unwrap();
    assert_eq!(c.id, id);
    assert_eq!(c.issuance_date, 1_700_000_123);
    assert_eq!(c.proof, Some(bytes("proof")));
    assert_eq!(c.schema_id, None);
    assert_eq!(c.revocation, None);
}

#[test]
fn empty_proof_is_invalid_signature() {
    let mut ci = CredentialIssuer::new();
    let result = ci.issue_credential(
        &ledger(),
        addr("GI"),
        addr("GS"),
        vec![bytes("T")],
        bytes("data"),
        None,
        Vec::new(),
    );
    assert_eq!(result.err().unwrap(), CredentialIssuerError::InvalidSignature);
}

#[test]
fn type_length_limit_is_128() {
    let mut ci = CredentialIssuer::new();
    let ok = ci.issue_credential(
        &ledger(),
        addr("GI"),
        addr("GS"),
        vec![vec![b'T'; 128]],
        bytes("d"),
        None,
        bytes("p"),
    );
    assert!(ok.is_ok());
    let too_long = ci.issue_credential(
        &ledger(),
        addr("GI"),
        addr("GS"),
        vec![bytes("short"), vec![b'T'; 129]],
        bytes("d"),
        None,
        bytes("p"),
    );
    assert_eq!(too_long.err().unwrap(), CredentialIssuerError::InvalidCredential);
}

#[test]
fn revoke_then_verify_fails() {
    let mut ci = CredentialIssuer::new();
    let issuer = addr("GISSUER");
    let id = issue(&mut ci, &ledger(), &issuer, &addr("GS"));
    assert_eq!(ci.verify_credential(&ledger(), &id), Ok(true));
    // only the issuer may revoke
    assert_eq!(
        ci.revoke_credential(&ledger(), &addr("GOTHER"), &id, None).err().unwrap(),
        CredentialIssuerError::Unauthorized
    );
    let later = Ledger { timestamp: 1_700_000_777, sequence: 2000 };
    ci.revoke_credential(&later, &issuer, &id, Some(bytes("KYC expired"))).unwrap();
    assert_eq!(ci.verify_credential(&later, &id), Ok(false));
    assert_eq!(ci.get_revocation_reason(&id), Some(bytes("KYC expired")));
    assert_eq!(ci.get_credential(&id).unwrap().revocation, Some(bytes("1700000777")));
    assert_eq!(
        ci.revoke_credential(&later, &issuer, &id, None).err().unwrap(),
        CredentialIssuerError::AlreadyRevoked
    );
    assert_eq!(
        ci.revoke_credential(&later, &issuer, &bytes("vc:none"), None).err().unwrap(),
        CredentialIssuerError::NotFound
    );
}

#[test]
fn expired_credential_does_not_verify() {
    let mut ci = CredentialIssuer::new();
    let id = ci
        .issue_credential(
            &ledger(),
            addr("GI"),
            addr("GS"),
            vec![bytes("T")],
            bytes("d"),
            Some(1_700_000_100),
            bytes("p"),
        )
        .unwrap();
    let at = |ts: u64| Ledger { timestamp: ts, sequence: 1 };
    assert_eq!(ci.verify_credential(&at(1_700_000_100), &id), Ok(true));
    assert_eq!(ci.verify_credential(&at(1_700_000_101), &id), Ok(false));
    assert_eq!(ci.verify_credential(&at(1), &bytes("missing")), Err(CredentialIssuerError::NotFound));
}

#[test]
fn batch_verify_counts_errors_as_false() {
    let mut ci = CredentialIssuer::new();
    let issuer = addr("GI");
    let a = issue(&mut ci, &ledger_at(1), &issuer, &addr("GS"));
    let b = issue(&mut ci, &ledger_at(2), &issuer, &addr("GS"));
    ci.revoke_credential(&ledger(), &issuer, &b, None).unwrap();
    let results = ci.batch_verify_credentials(&ledger(), &vec![a, b, bytes("missing")]);
    assert_eq!(results, vec![true, false, false]);
}

#[test]
fn issuer_and_subject_lists() {
    let mut ci = CredentialIssuer::new();
    let issuer = addr("GI");
    let s1 = addr("GS1");
    let s2 = addr("GS2");
    let a = issue(&mut ci, &ledger_at(1), &issuer, &s1);
    let b = issue(&mut ci, &ledger_at(2), &issuer, &s2);
    assert_eq!(ci.get_issuer_credentials(&issuer), vec![a.clone(), b.clone()]);
    assert_eq!(ci.get_subject_credentials(&s1), vec![a]);
    assert_eq!(ci.get_subject_credentials(&s2), vec![b]);
    assert!(ci.get_subject_credentials(&issuer).is_empty());
    assert!(ci.search_credentials_by_type(&bytes("Test"), 10).is_empty());
}

#[test]
fn issue_with_schema_checks() {
    let mut ci = CredentialIssuer::new();
    let issue_with = |ci: &mut CredentialIssuer, check: SchemaCheck, data: Vec<u8>| {
        ci.issue_credential_with_schema(
            &ledger(),
            addr("GI"),
            addr("GS"),
            vec![bytes("KYC")],
            data,
            bytes("kyc_v1"),
            check,
            None,
            bytes("p"),
        )
    };
    assert_eq!(
        issue_with(&mut ci, SchemaCheck::NotFound, bytes("d")).err().unwrap(),
        CredentialIssuerError::SchemaNotFound
    );
    assert_eq!(
        issue_with(&mut ci, SchemaCheck::Rejected, bytes("d")).err().unwrap(),
        CredentialIssuerError::SchemaValidationFailed
    );
    assert_eq!(
        issue_with(&mut ci, SchemaCheck::Accepted, vec![b'd'; 10241]).err().unwrap(),
        CredentialIssuerError::InvalidCredential
    );
    let id = issue_with(&mut ci, SchemaCheck::Accepted, vec![b'd'; 10240]).unwrap();
    assert_eq!(ci.get_credential(&id).unwrap().schema_id, Some(bytes("kyc_v1")));
}

#[test]
fn every_credential_sits_on_its_page() {
    let mut ci = CredentialIssuer::new();
    let issuer = addr("GISSUER");
    let subject = addr("GSUBJECT");
    for i in 0..25u32 {
        issue(&mut ci, &ledger_at(i), &issuer, &subject);
    }
    let all = ci.get_issuer_credentials(&issuer);
    assert_eq!(all.len(), 25);
    for i in 0..25usize {
        let page = ci.get_credentials_by_issuer(&issuer, (i / 10) as u32, 10);
        assert_eq!(page.data[i % 10], all[i]);
    }
    let last = ci.get_credentials_by_issuer(&issuer, 2, 10);
    assert_eq!(last.data.len(), 5);
    assert!(!last.has_more);
}
