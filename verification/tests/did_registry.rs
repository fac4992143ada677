use stellar_identity::did_registry::{DIDRegistry, DIDRegistryError};
use stellar_identity::{Address, Ledger, Service, VerificationMethod};

fn ledger() -> Ledger {
    Ledger { timestamp: 1_700_000_000, sequence: 1000 }
}

fn later() -> Ledger {
    Ledger { timestamp: 1_700_000_500, sequence: 1100 }
}

fn addr(s: &str) -> Address {
    Address::new(s.as_bytes().to_vec())
}

fn bytes(s: &str) -> Vec<u8> {
    s.as_bytes().to_vec()
}

fn make_did_bytes(controller: &Address) -> Vec<u8> {
    let mut did = bytes("did:stellar:");
    did.extend_from_slice(&controller.strkey);
    did
}

fn make_vm(id: &str, key: &[u8; 32], controller: &str) -> VerificationMethod {
    VerificationMethod {
        id: bytes(id),
        type_: bytes("Ed25519VerificationKey2018"),
        controller: addr(controller),
        public_key: *key,
    }
}

fn make_services() -> Vec<Service> {
    vec![Service {
        id: bytes("#hub"),
        type_: bytes("IdentityHub"),
        endpoint: bytes("https://hub.example.com"),
    }]
}

fn registry_with_did(controller: &Address) -> (DIDRegistry, Vec<u8>) {
    let mut reg = DIDRegistry::new();
    let did = make_did_bytes(controller);
    let vm = make_vm("#key-1", &[1u8; 32], "GVMCONTROLLER");
    reg.create_did(&ledger(), controller.clone(), did.clone(), vec![vm], make_services()).unwrap();
    (reg, did)
}

#[test]
fn test_resolve_did_success() {
    let controller = addr("GCONTROLLERAAAA");
    let (reg, did) = registry_with_did(&controller);
    let doc = reg.resolve_did(&did).unwrap();
    assert_eq!(doc.id, did);
    assert_eq!(doc.controller.strkey, controller.strkey);
    assert!(!doc.deactivated);
    assert_eq!(doc.created, 1_700_000_000);
    assert_eq!(doc.updated, 1_700_000_000);
    assert_eq!(doc.verification_method.len(), 1);
    assert_eq!(doc.service.len(), 1);
}

#[test]
fn test_resolve_did_not_found() {
    let reg = DIDRegistry::new();
    let result = reg.resolve_did(&bytes("did:stellar:NONEXISTENT"));
    assert_eq!(result.err().unwrap(), DIDRegistryError::NotFound);
}

#[test]
fn test_update_did_verification_methods() {
    let controller = addr("GCONTROLLERBBBB");
    let (mut reg, did) = registry_with_did(&controller);
    let new_vm = make_vm("#key-2", &[2u8; 32], "GVMCONTROLLER");
    reg.update_did(&ledger(), &controller, Some(vec![new_vm]), None).unwrap();
    let doc = reg.resolve_did(&did).unwrap();
    assert_eq!(doc.verification_method.len(), 1);
    assert_eq!(doc.verification_method[0].id, bytes("#key-2"));
}

#[test]
fn test_update_did_services() {
    let controller = addr("GCONTROLLERCCCC");
    let (mut reg, did) = registry_with_did(&controller);
    reg.update_did(&ledger(), &controller, None, Some(Vec::new())).unwrap();
    let doc = reg.resolve_did(&did).unwrap();
    assert_eq!(doc.service.len(), 0);
}

#[test]
fn test_update_deactivated_did_fails() {
    let controller = addr("GCONTROLLERDDDD");
    let (mut reg, _did) = registry_with_did(&controller);
    reg.deactivate_did(&ledger(), &controller).unwrap();
    let result = reg.update_did(&ledger(), &controller, None, None);
    assert_eq!(result.err().unwrap(), DIDRegistryError::Deactivated);
}

#[test]
fn test_deactivate_did_success() {
    let controller = addr("GCONTROLLEREEEE");
    let (mut reg, did) = registry_with_did(&controller);
    reg.deactivate_did(&ledger(), &controller).unwrap();
    let doc = reg.resolve_did(&did).unwrap();
    assert!(doc.deactivated);
}

#[test]
fn test_deactivate_already_deactivated_did_fails() {
    let controller = addr("GCONTROLLERFFFF");
    let (mut reg, _did) = registry_with_did(&controller);
    reg.deactivate_did(&ledger(), &controller).unwrap();
    let result = reg.deactivate_did(&ledger(), &controller);
    assert_eq!(result.err().unwrap(), DIDRegistryError::AlreadyDeactivated);
}

#[test]
fn test_deactivate_nonexistent_did_fails() {
    let mut reg = DIDRegistry::new();
    let controller = addr("GCONTROLLERGGGG");
    let result = reg.deactivate_did(&ledger(), &controller);
    assert_eq!(result.err().unwrap(), DIDRegistryError::NotFound);
}

#[test]
fn fuzz_long_did_string() {
    let mut reg = DIDRegistry::new();
    let controller = addr("GCONTROLLERHHHH");
    let long_did = vec![b'a'; 10000];
    let vm = make_vm("#key-1", &[1u8; 32], "GCONTROLLERHHHH");
    let result = reg.create_did(&ledger(), controller, long_did, vec![vm], Vec::new());
    assert!(result.is_err());
    assert_eq!(result.err().unwrap(), DIDRegistryError::InvalidFormat);
}

#[test]
fn fuzz_invalid_did_format() {
    let mut reg = DIDRegistry::new();
    let controller = addr("GCONTROLLERIIII");
    let vm = make_vm("#key-1", &[1u8; 32], "GCONTROLLERIIII");
    let result = reg.create_did(&ledger(), controller, bytes("invalid:did:format"), vec![vm], Vec::new());
    assert!(result.is_err());
    assert_eq!(result.err().unwrap(), DIDRegistryError::InvalidFormat);
}

#[test]
fn bench_create_did() {
    let mut reg = DIDRegistry::new();
    let controller = addr("GCONTROLLERJJJJ");
    let vm = make_vm("#key-1", &[1u8; 32], "GVMCONTROLLER");
    let result = reg.create_did(
        &ledger(),
        controller,
        bytes("did:stellar:GABCDEF123456789"),
        vec![vm],
        make_services(),
    );
    assert!(result.is_ok());
}

#[test]
fn bench_resolve_did() {
    let mut reg = DIDRegistry::new();
    let controller = addr("GCONTROLLERKKKK");
    let did = bytes("did:stellar:GABCDEF123456789");
    let vm = make_vm("#key-1", &[1u8; 32], "GVMCONTROLLER");
    let _ = reg.create_did(&ledger(), controller, did.clone(), vec![vm], Vec::new());
    let result = reg.resolve_did(&did);
    assert!(result.is_ok());
}

#[test]
fn create_did_twice_gives_already_exists() {
    let controller = addr("GCONTROLLERLLLL");
    let (mut reg, did) = registry_with_did(&controller);
    let other = addr("GOTHERCONTROLLER");
    let result = reg.create_did(&later(), other.clone(), did.clone(), Vec::new(), Vec::new());
    assert_eq!(result.err().unwrap(), DIDRegistryError::AlreadyExists);
    // the first document is untouched and the other controller has no DID
    assert_eq!(reg.resolve_did(&did).unwrap().controller.strkey, controller.strkey);
    assert!(reg.get_controller_did(&other).is_none());
}

#[test]
fn create_did_length_limits() {
    let mut reg = DIDRegistry::new();
    let controller = addr("GLIMITS");
    // exactly 256 bytes is accepted, 257 is not
    let mut did = bytes("did:stellar:");
    did.resize(256, b'x');
    assert!(reg.create_did(&ledger(), controller.clone(), did, Vec::new(), Vec::new()).is_ok());
    let mut too_long = bytes("did:stellar:");
    too_long.resize(257, b'y');
    assert_eq!(
        reg.create_did(&ledger(), controller.clone(), too_long, Vec::new(), Vec::new()).err().unwrap(),
        DIDRegistryError::InvalidFormat
    );
    // a verification-method id of 129 bytes is refused
    let long_vm_id = "k".repeat(129);
    let vm = make_vm(&long_vm_id, &[3u8; 32], "GLIMITS");
    assert_eq!(
        reg.create_did(&ledger(), controller.clone(), bytes("did:stellar:VM"), vec![vm], Vec::new())
            .err()
            .unwrap(),
        DIDRegistryError::InvalidFormat
    );
    // a service endpoint of 513 bytes is refused, 512 accepted
    let svc = |n: usize| Service { id: bytes("#s"), type_: bytes("T"), endpoint: vec![b'e'; n] };
    assert_eq!(
        reg.create_did(&ledger(), controller.clone(), bytes("did:stellar:SVC1"), Vec::new(), vec![svc(513)])
            .err()
            .unwrap(),
        DIDRegistryError::InvalidFormat
    );
    assert!(reg
        .create_did(&ledger(), controller, bytes("did:stellar:SVC2"), Vec::new(), vec![svc(512)])
        .is_ok());
}

#[test]
fn controller_points_at_latest_did() {
    let controller = addr("GMULTI");
    let mut reg = DIDRegistry::new();
    reg.create_did(&ledger(), controller.clone(), bytes("did:stellar:ONE"), Vec::new(), Vec::new()).unwrap();
    reg.create_did(&later(), controller.clone(), bytes("did:stellar:TWO"), Vec::new(), Vec::new()).unwrap();
    assert_eq!(reg.get_controller_did(&controller).unwrap(), &bytes("did:stellar:TWO"));
    assert!(reg.did_exists(&bytes("did:stellar:ONE")));
    assert!(reg.did_exists(&bytes("did:stellar:TWO")));
    assert!(!reg.did_exists(&bytes("did:stellar:THREE")));
}

#[test]
fn update_keeps_created_and_sets_updated() {
    let controller = addr("GUPDATE");
    let (mut reg, did) = registry_with_did(&controller);
    reg.update_did(&later(), &controller, None, None).unwrap();
    let doc = reg.resolve_did(&did).unwrap();
    assert_eq!(doc.created, 1_700_000_000);
    assert_eq!(doc.updated, 1_700_000_500);
    assert_eq!(doc.service.len(), 1);
    assert_eq!(doc.verification_method.len(), 1);
}

#[test]
fn deactivated_document_is_frozen() {
    let controller = addr("GFROZEN");
    let (mut reg, did) = registry_with_did(&controller);
    reg.deactivate_did(&later(), &controller).unwrap();
    assert_eq!(
        reg.add_authentication(&later(), &controller, bytes("#auth")).err().unwrap(),
        DIDRegistryError::Deactivated
    );
    assert_eq!(
        reg.remove_authentication(&later(), &controller, &bytes("#auth")).err().unwrap(),
        DIDRegistryError::Deactivated
    );
    let doc = reg.resolve_did(&did).unwrap();
    assert!(doc.deactivated);
    assert_eq!(doc.updated, 1_700_000_500);
    assert_eq!(doc.authentication.len(), 0);
}

#[test]
fn authentication_add_and_remove() {
    let controller = addr("GAUTH");
    let (mut reg, did) = registry_with_did(&controller);
    reg.add_authentication(&ledger(), &controller, bytes("#a")).unwrap();
    reg.add_authentication(&ledger(), &controller, bytes("#b")).unwrap();
    reg.add_authentication(&ledger(), &controller, bytes("#a")).unwrap();
    assert_eq!(reg.resolve_did(&did).unwrap().authentication, vec![bytes("#a"), bytes("#b"), bytes("#a")]);
    // every copy of the method goes
    reg.remove_authentication(&later(), &controller, &bytes("#a")).unwrap();
    assert_eq!(reg.resolve_did(&did).unwrap().authentication, vec![bytes("#b")]);
    assert_eq!(reg.resolve_did(&did).unwrap().updated, 1_700_000_500);
    // removing a method that is not listed fails
    assert_eq!(
        reg.remove_authentication(&later(), &controller, &bytes("#zzz")).err().unwrap(),
        DIDRegistryError::NotFound
    );
    // unknown controller
    assert_eq!(
        reg.add_authentication(&ledger(), &addr("GNOBODY"), bytes("#a")).err().unwrap(),
        DIDRegistryError::NotFound
    );
}

#[test]
fn signature_key_lookup() {
    let controller = addr("GSIGNER");
    let mut reg = DIDRegistry::new();
    let did = make_did_bytes(&controller);
    let vms = vec![make_vm("#k1", &[7u8; 32], "GSIGNER"), make_vm("#k2", &[9u8; 32], "GSIGNER")];
    reg.create_did(&ledger(), controller.clone(), did.clone(), vms, Vec::new()).unwrap();
    assert_eq!(reg.verify_signature(&did).unwrap(), [7u8; 32]);
    assert_eq!(reg.verify_signature_with_method(&did, 1).unwrap(), [9u8; 32]);
    assert_eq!(reg.verify_signature_with_method(&did, 2).err().unwrap(), DIDRegistryError::NotFound);
    assert_eq!(reg.verify_signature(&bytes("did:stellar:NOPE")).err().unwrap(), DIDRegistryError::NotFound);
    reg.deactivate_did(&ledger(), &controller).unwrap();
    assert_eq!(reg.verify_signature(&did).err().unwrap(), DIDRegistryError::Deactivated);
    // a document without methods has no key
    let empty = addr("GEMPTY");
    let empty_did = make_did_bytes(&empty);
    reg.create_did(&ledger(), empty, empty_did.clone(), Vec::new(), Vec::new()).unwrap();
    assert_eq!(reg.verify_signature(&empty_did).err().unwrap(), DIDRegistryError::NotFound);
}
