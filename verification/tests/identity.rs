use stellar_identity::{clamp_page_size, Address, StellarIdentity, StorageKey};

fn addr(s: &str) -> Address {
    Address::new(s.as_bytes().to_vec())
}

#[test]
fn clamp_page_size_values() {
    assert_eq!(clamp_page_size(0), 10);
    assert_eq!(clamp_page_size(1), 1);
    assert_eq!(clamp_page_size(50), 50);
    assert_eq!(clamp_page_size(51), 50);
    assert_eq!(clamp_page_size(u32::MAX), 50);
}

#[test]
fn identity_hub_addresses() {
    let mut hub = StellarIdentity::new();
    assert!(hub.get_did_registry_address().is_none());
    hub.initialize(addr("CDID"), addr("CCRED"), addr("CREP"), addr("CZK"), addr("CCF"));
    assert_eq!(hub.get_did_registry_address().unwrap().strkey, b"CDID".to_vec());
    assert_eq!(hub.get_credential_issuer_address().unwrap().strkey, b"CCRED".to_vec());
    assert_eq!(hub.get_reputation_score_address().unwrap().strkey, b"CREP".to_vec());
    assert_eq!(hub.get_zk_attestation_address().unwrap().strkey, b"CZK".to_vec());
    assert_eq!(hub.get_compliance_filter_address().unwrap().strkey, b"CCF".to_vec());
    assert_eq!(hub.get_address(StorageKey::ZkAttestation).unwrap().strkey, b"CZK".to_vec());
    hub.initialize(addr("CDID2"), addr("CCRED"), addr("CREP"), addr("CZK"), addr("CCF"));
    assert_eq!(hub.get_did_registry_address().unwrap().strkey, b"CDID2".to_vec());
}
