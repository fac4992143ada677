use stellar_identity::compliance_filter::{ComplianceFilter, ComplianceFilterError};
use stellar_identity::{Address, Ledger};

fn ledger() -> Ledger {
    Ledger { timestamp: 1_700_000_000, sequence: 1000 }
}

fn at(ts: u64) -> Ledger {
    Ledger { timestamp: ts, sequence: 1000 }
}

fn addr(s: &str) -> Address {
    Address::new(s.as_bytes().to_vec())
}

fn bytes(s: &str) -> Vec<u8> {
    s.as_bytes().to_vec()
}

#[test]
fn fuzz_invalid_risk_score() {
    let mut cf = ComplianceFilter::new();
    let result = cf.update_risk_score(&ledger(), &addr("GUSER"), 101, &bytes("test"));
    assert!(result.is_err());
    assert_eq!(result.err().unwrap(), ComplianceFilterError::InvalidRiskScore);
}

#[test]
fn bench_screen_address() {
    let mut cf = ComplianceFilter::new();
    let source = bytes("OFAC_SDN");
    let _ = cf.update_sanctions_list(&ledger(), source.clone(), [2u8; 32], 1);
    let _ = cf.load_list_entries(&source, vec![addr("GSANCTIONED")]);
    let result = cf.screen_address(&ledger(), &addr("GCLEAN"));
    assert!(result.is_ok());
}

#[test]
fn test_compliance_enforcement() {
    let mut cf = ComplianceFilter::new();
    let source = bytes("OFAC_SDN");
    let _ = cf.update_sanctions_list(&ledger(), source.clone(), [2u8; 32], 1);
    let sanctioned = addr("GSANCTIONED");
    let _ = cf.load_list_entries(&source, vec![sanctioned.clone()]);
    let screening = cf.screen_address(&ledger(), &sanctioned);
    assert!(screening.is_err());
    let clean_result = cf.screen_address(&ledger(), &addr("GCLEAN"));
    assert!(clean_result.is_ok());
    assert_eq!(clean_result.unwrap().status, bytes("clear"));
}

#[test]
fn test_admin_operations() {
    let mut cf = ComplianceFilter::new();
    let source = bytes("UN_LIST");
    let result = cf.update_sanctions_list(&ledger(), source.clone(), [3u8; 32], 5);
    assert!(result.is_ok());
    let list = cf.get_sanctions_list(&source);
    assert!(list.is_some());
    assert!(list.unwrap().active);
    let deactivate = cf.deactivate_sanctions_list(&ledger(), &source);
    assert!(deactivate.is_ok());
    let list_after = cf.get_sanctions_list(&source);
    assert!(list_after.is_some());
    assert!(!list_after.unwrap().active);
}

#[test]
fn blocked_screening_is_recorded_and_refused() {
    let mut cf = ComplianceFilter::new();
    cf.update_sanctions_list(&ledger(), bytes("OFAC"), [1u8; 32], 1).unwrap();
    cf.update_sanctions_list(&ledger(), bytes("EU"), [2u8; 32], 1).unwrap();
    cf.update_sanctions_list(&ledger(), bytes("UN"), [3u8; 32], 1).unwrap();
    let bad = addr("GBAD");
    cf.load_list_entries(&bytes("OFAC"), vec![addr("GX"), bad.clone()]).unwrap();
    cf.load_list_entries(&bytes("UN"), vec![bad.clone()]).unwrap();
    assert_eq!(cf.screen_address(&ledger(), &bad).err().unwrap(), ComplianceFilterError::AddressBlocked);
    let stored = cf.get_screening_result(&bad).unwrap();
    assert_eq!(stored.status, bytes("blocked"));
    assert_eq!(stored.risk_score, 100);
    assert_eq!(stored.matches, vec![bytes("OFAC"), bytes("UN")]);
    let trail = cf.get_audit_trail(&bad);
    assert_eq!(trail, vec![bytes("audit:GBAD:1700000000")]);
    let report = cf.get_regulatory_report(&trail[0]).unwrap();
    assert_eq!(report.activity_summary, bytes("screen_address:matched:OFAC,UN,"));
    assert_eq!(report.risk_flags, bytes("matched:OFAC,UN,"));
    assert_eq!(report.ledger_sequence, 1000);
}

#[test]
fn deactivated_list_is_skipped() {
    let mut cf = ComplianceFilter::new();
    cf.update_sanctions_list(&ledger(), bytes("OFAC"), [1u8; 32], 1).unwrap();
    let bad = addr("GBAD");
    cf.load_list_entries(&bytes("OFAC"), vec![bad.clone()]).unwrap();
    cf.deactivate_sanctions_list(&ledger(), &bytes("OFAC")).unwrap();
    let result = cf.screen_address(&ledger(), &bad).unwrap();
    assert_eq!(result.status, bytes("clear"));
    assert_eq!(result.risk_score, 0);
    assert!(result.matches.is_empty());
    let report = cf.get_regulatory_report(&bytes("audit:GBAD:1700000000")).unwrap();
    assert_eq!(report.risk_flags, bytes("none"));
    // refreshing the list activates it again
    cf.update_sanctions_list(&at(1_700_000_001), bytes("OFAC"), [9u8; 32], 2).unwrap();
    assert!(cf.get_sanctions_list(&bytes("OFAC")).unwrap().active);
    assert_eq!(cf.screen_address(&at(1_700_000_001), &bad).err().unwrap(), ComplianceFilterError::AddressBlocked);
}

#[test]
fn list_entries_need_a_registered_list() {
    let mut cf = ComplianceFilter::new();
    assert_eq!(cf.load_list_entries(&bytes("NOPE"), Vec::new()).err().unwrap(), ComplianceFilterError::NotFound);
    assert_eq!(cf.deactivate_sanctions_list(&ledger(), &bytes("NOPE")).err().unwrap(), ComplianceFilterError::NotFound);
    assert!(cf.get_sanctions_list(&bytes("NOPE")).is_none());
}

#[test]
fn reports_are_never_overwritten() {
    let mut cf = ComplianceFilter::new();
    let subject = addr("GSUBJ");
    let k1 = cf.file_regulatory_report(&ledger(), &subject, bytes("first"), bytes("f1")).unwrap();
    let k2 = cf.file_regulatory_report(&ledger(), &subject, bytes("second"), bytes("f2")).unwrap();
    assert_eq!(k1, bytes("audit:GSUBJ:1700000000"));
    assert_eq!(k1, k2);
    let report = cf.get_regulatory_report(&k1).unwrap();
    assert_eq!(report.activity_summary, bytes("first"));
    assert_eq!(report.risk_flags, bytes("f1"));
    assert_eq!(cf.get_audit_trail(&subject), vec![k1.clone()]);
    let k3 = cf.file_regulatory_report(&at(1_700_000_009), &subject, bytes("third"), bytes("f3")).unwrap();
    assert_eq!(cf.get_audit_trail(&subject), vec![k1, k3]);
}

#[test]
fn risk_score_updates_status() {
    let mut cf = ComplianceFilter::new();
    let user = addr("GUSER");
    cf.update_risk_score(&ledger(), &user, 50, &bytes("oracle")).unwrap();
    let r = cf.get_screening_result(&user).unwrap();
    assert_eq!(r.status, bytes("clear"));
    assert_eq!(r.risk_score, 50);
    assert_eq!(r.timestamp, 1_700_000_000);
    cf.update_risk_score(&at(1_700_000_001), &user, 71, &bytes("oracle")).unwrap();
    assert_eq!(cf.get_screening_result(&user).unwrap().status, bytes("suspicious"));
    cf.update_risk_score(&at(1_700_000_002), &user, 100, &bytes("oracle")).unwrap();
    assert_eq!(cf.get_screening_result(&user).unwrap().status, bytes("blocked"));
    let report = cf.get_regulatory_report(&bytes("audit:GUSER:1700000000")).unwrap();
    assert_eq!(report.activity_summary, bytes("risk_score_update:oracle"));
    assert_eq!(cf.get_audit_trail(&user).len(), 3);
}

#[test]
fn screen_did_parses_the_address() {
    let mut cf = ComplianceFilter::new();
    cf.update_sanctions_list(&ledger(), bytes("OFAC"), [1u8; 32], 1).unwrap();
    cf.load_list_entries(&bytes("OFAC"), vec![addr("GBAD")]).unwrap();
    assert_eq!(
        ComplianceFilter::did_bytes_to_address(&bytes("did:stellar:GBAD:extra")).unwrap().strkey,
        bytes("GBAD")
    );
    assert_eq!(
        cf.screen_did(&ledger(), &bytes("did:stellar:GBAD")).err().unwrap(),
        ComplianceFilterError::AddressBlocked
    );
    assert_eq!(cf.screen_did(&ledger(), &bytes("did:stellar:")).err().unwrap(), ComplianceFilterError::NotFound);
    assert_eq!(cf.screen_did(&ledger(), &bytes("did:stellar:GOK")).unwrap().status, bytes("clear"));
}

#[test]
fn rules_and_batch_screening() {
    let mut cf = ComplianceFilter::new();
    cf.register_compliance_rule(&ledger(), bytes("GDPR"), bytes("{\"consent\":true}"), bytes("mandatory")).unwrap();
    let rule = cf.get_compliance_rule(&bytes("GDPR")).unwrap();
    assert!(rule.active);
    assert_eq!(rule.created, 1_700_000_000);
    assert!(cf.get_compliance_rule(&bytes("CCPA")).is_none());
    cf.update_sanctions_list(&ledger(), bytes("OFAC"), [1u8; 32], 1).unwrap();
    cf.load_list_entries(&bytes("OFAC"), vec![addr("GBAD")]).unwrap();
    let results = cf.batch_screen_addresses(&ledger(), &vec![addr("GOK"), addr("GBAD")]);
    assert_eq!(results.len(), 2);
    assert_eq!(results[0].status, bytes("clear"));
    assert_eq!(results[1].status, bytes("blocked"));
    // batch screening stores nothing
    assert!(cf.get_screening_result(&addr("GBAD")).is_none());
    assert!(cf.get_audit_trail(&addr("GBAD")).is_empty());
}

#[test]
fn screening_trail_holds_the_key_filed_earlier() {
    let mut cf = ComplianceFilter::new();
    let user = addr("GUSER");
    let key = cf
        .file_regulatory_report(&at(500), &user, bytes("manual"), bytes("none"))
        .unwrap();
    assert_eq!(key, bytes("audit:GUSER:500"));
    let result = cf.screen_address(&at(500), &user).unwrap();
    assert_eq!(result.status, bytes("clear"));
    let trail = cf.get_audit_trail(&user);
    assert_eq!(trail, vec![bytes("audit:GUSER:500")]);
    let report = cf.get_regulatory_report(&key).unwrap();
    assert_eq!(report.activity_summary, bytes("manual"));
    let _ = cf.screen_address(&at(501), &user).unwrap();
    assert_eq!(cf.get_audit_trail(&user), vec![bytes("audit:GUSER:500"), bytes("audit:GUSER:501")]);
}

#[test]
fn risk_update_keeps_the_screened_address() {
    let mut cf = ComplianceFilter::new();
    let user = addr("GFRESH");
    cf.update_risk_score(&at(7), &user, 80, &bytes("oracle")).unwrap();
    let stored = cf.get_screening_result(&user).unwrap();
    assert_eq!(stored.address.strkey, bytes("GFRESH"));
    assert_eq!(stored.risk_score, 80);
    assert_eq!(stored.status, bytes("suspicious"));
    assert!(stored.matches.is_empty());
    assert_eq!(stored.timestamp, 7);
}

#[test]
fn did_screening_is_address_screening() {
    let mut cf = ComplianceFilter::new();
    let source = bytes("UN_LIST");
    cf.update_sanctions_list(&ledger(), source.clone(), [1u8; 32], 1).unwrap();
    cf.load_list_entries(&source, vec![addr("GBAD")]).unwrap();
    let result = cf.screen_did(&ledger(), &bytes("did:stellar:GBAD"));
    assert_eq!(result.err().unwrap(), ComplianceFilterError::AddressBlocked);
    let stored = cf.get_screening_result(&addr("GBAD")).unwrap();
    assert_eq!(stored.matches, vec![bytes("UN_LIST")]);
    assert_eq!(stored.risk_score, 100);
}
