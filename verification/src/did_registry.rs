//! The DID registry: documents keyed by their `did:stellar:` identifier,
//! and for each controller the DID it created last.

use vstd::prelude::*;
use crate::bytes::{ascii, ascii_vec, byte_views, bytes_eq, copy_bytes, has_prefix};
use crate::table::{distinct_keys, entries_map, lemma_entries_map_index, lemma_entries_map_key, Table};
use crate::types::{Address, Bytes, DIDDocument, Ledger, Service, VerificationMethod};

verus! {

/// Errors of the DID registry.
#[derive(Clone, Copy, Debug, PartialEq, Eq, PartialOrd, Ord, Structural)]
pub enum DIDRegistryError {
    AlreadyExists,
    NotFound,
    Unauthorized,
    InvalidFormat,
    Deactivated,
    InvalidSignature,
    AlreadyDeactivated,
}

/// Longest DID accepted, in bytes.
pub const MAX_DID_LENGTH: usize = 256;

/// Longest verification-method id accepted, in bytes.
pub const MAX_VM_ID_LENGTH: usize = 128;

/// Longest service id accepted, in bytes.
pub const MAX_SERVICE_ID_LENGTH: usize = 128;

/// Longest service endpoint accepted, in bytes.
pub const MAX_SERVICE_ENDPOINT_LENGTH: usize = 512;

/// The method prefix that every DID of this registry carries.
pub open spec fn did_prefix() -> Seq<u8> {
    ascii("did:stellar:"@)
}

/// Whether `did` starts with `did:stellar:`.
pub open spec fn has_did_prefix(did: Seq<u8>) -> bool {
    did_prefix().len() <= did.len() && did.subrange(0, did_prefix().len() as int) == did_prefix()
}

/// Whether a new document with these parts is well formed.
pub open spec fn valid_document_format(
    did: Seq<u8>,
    vms: Seq<VerificationMethod>,
    services: Seq<Service>,
) -> bool {
    &&& has_did_prefix(did)
    &&& did.len() <= MAX_DID_LENGTH
    &&& forall|i: int| 0 <= i < vms.len() ==> (#[trigger] vms[i]).id@.len() <= MAX_VM_ID_LENGTH
    &&& forall|i: int|
        0 <= i < services.len() ==> (#[trigger] services[i]).id@.len() <= MAX_SERVICE_ID_LENGTH
            && services[i].endpoint@.len() <= MAX_SERVICE_ENDPOINT_LENGTH
}

/// `create_did` accepts a DID only when it begins with the 12 bytes
/// `did:stellar:` and is at most 256 bytes long; every such DID has the
/// prefix.
pub proof fn law_did_format(did: Seq<u8>, vms: Seq<VerificationMethod>, services: Seq<Service>)
    ensures
        valid_document_format(did, vms, services) ==> {
            &&& 12 <= did.len() <= 256
            &&& did.subrange(0, 12) == ascii("did:stellar:"@)
        },
        has_did_prefix(did) <==> (12 <= did.len() && did.subrange(0, 12) == ascii("did:stellar:"@)),
{
    reveal_strlit("did:stellar:");
    assert(did_prefix().len() == 12);
}

/// `doc` is the document that `create_did` makes from these arguments.
pub open spec fn is_new_document(
    doc: DIDDocument,
    did: Seq<u8>,
    controller: Seq<u8>,
    vms: Vec<VerificationMethod>,
    services: Vec<Service>,
    now: u64,
) -> bool {
    &&& doc.id@ == did
    &&& doc.controller@ == controller
    &&& doc.verification_method == vms
    &&& doc.authentication@.len() == 0
    &&& doc.service == services
    &&& doc.created == now
    &&& doc.updated == now
    &&& !doc.deactivated
}

/// `list` without every entry equal to `item`, order kept.
pub open spec fn without(list: Seq<Seq<u8>>, item: Seq<u8>) -> Seq<Seq<u8>>
    decreases list.len(),
{
    if list.len() == 0 {
        list
    } else if list.last() == item {
        without(list.drop_last(), item)
    } else {
        without(list.drop_last(), item).push(list.last())
    }
}

/// The registry's stored state as lists of entries, for keeping it in
/// ledger storage between calls.
pub struct DIDRegistryParts {
    /// Documents, each under its DID.
    pub documents: Vec<(Bytes, DIDDocument)>,
    /// For each controller address, its DID.
    pub controllers: Vec<(Bytes, Bytes)>,
}

impl DIDRegistryParts {
    /// The documents that the parts hold.
    pub open spec fn documents(&self) -> Map<Seq<u8>, DIDDocument> {
        entries_map(self.documents@)
    }

    /// The controllers' DIDs that the parts hold.
    pub open spec fn controllers(&self) -> Map<Seq<u8>, Seq<u8>> {
        entries_map(self.controllers@).map_values(|d: Bytes| d@)
    }

    /// The parts describe a registry that keeps the registry's invariant.
    pub open spec fn valid(&self) -> bool {
        &&& distinct_keys(self.documents@)
        &&& distinct_keys(self.controllers@)
        &&& forall|d: Seq<u8>| #[trigger]
            self.documents().contains_key(d) ==> self.documents()[d].id@ == d
        &&& forall|c: Seq<u8>| #[trigger]
            self.controllers().contains_key(c) ==> self.documents().contains_key(
                self.controllers()[c],
            ) && self.documents()[self.controllers()[c]].controller@ == c
    }
}

/// The registry's stored state.
pub struct DIDRegistry {
    documents: Table<DIDDocument>,
    controllers: Table<Bytes>,
}

impl DIDRegistry {
    /// The documents, keyed by DID.
    pub closed spec fn documents(&self) -> Map<Seq<u8>, DIDDocument> {
        self.documents.map()
    }

    /// For each controller address, the DID it created last.
    pub closed spec fn controllers(&self) -> Map<Seq<u8>, Seq<u8>> {
        self.controllers.map().map_values(|d: Vec<u8>| d@)
    }

    /// The underlying tables are well formed.
    pub closed spec fn tables_wf(&self) -> bool {
        self.documents.wf() && self.controllers.wf()
    }

    /// The registry's invariant: each document is stored under its own id,
    /// and each controller's DID names a document that it controls.
    pub open spec fn inv(&self) -> bool {
        &&& self.tables_wf()
        &&& forall|d: Seq<u8>| #[trigger]
            self.documents().contains_key(d) ==> self.documents()[d].id@ == d
        &&& forall|c: Seq<u8>| #[trigger]
            self.controllers().contains_key(c) ==> self.documents().contains_key(
                self.controllers()[c],
            ) && self.documents()[self.controllers()[c]].controller@ == c
    }

    /// The document of the DID that `controller` created last, if any.
    pub open spec fn document_of(&self, controller: Seq<u8>) -> Option<DIDDocument> {
        if self.controllers().contains_key(controller) && self.documents().contains_key(
            self.controllers()[controller],
        ) {
            Some(self.documents()[self.controllers()[controller]])
        } else {
            None
        }
    }

    /// What every change to the registry keeps: no document disappears,
    /// a document's id, controller and creation time never change, and a
    /// deactivated document is never changed again.
    pub open spec fn keeps_history(old: &DIDRegistry, new: &DIDRegistry) -> bool {
        forall|d: Seq<u8>| #[trigger]
            old.documents().contains_key(d) ==> {
                &&& new.documents().contains_key(d)
                &&& new.documents()[d].id@ == old.documents()[d].id@
                &&& new.documents()[d].controller@ == old.documents()[d].controller@
                &&& new.documents()[d].created == old.documents()[d].created
                &&& old.documents()[d].deactivated ==> new.documents()[d]
                    == old.documents()[d]
            }
    }

    /// `new` is `old` after `controller` created the document of `did` from
    /// `vms` and `services` at `ledger`: the document is stored under `did`
    /// and `did` becomes the controller's DID.
    pub open spec fn created(
        old: &DIDRegistry,
        new: &DIDRegistry,
        ledger: Ledger,
        controller: Seq<u8>,
        did: Seq<u8>,
        vms: Vec<VerificationMethod>,
        services: Vec<Service>,
    ) -> bool {
        &&& new.documents() == old.documents().insert(did, new.documents()[did])
        &&& is_new_document(new.documents()[did], did, controller, vms, services, ledger.timestamp)
        &&& new.controllers() == old.controllers().insert(controller, did)
    }

    /// A DID just created resolves to an active document of its controller,
    /// is taken for any later `create_did`, and is the DID that the
    /// controller's later changes apply to.
    pub proof fn law_created_did_resolves(
        old: &DIDRegistry,
        new: &DIDRegistry,
        ledger: Ledger,
        controller: Seq<u8>,
        did: Seq<u8>,
        vms: Vec<VerificationMethod>,
        services: Vec<Service>,
    )
        requires
            DIDRegistry::created(old, new, ledger, controller, did, vms, services),
        ensures
            new.documents().contains_key(did),
            new.documents()[did].id@ == did,
            new.documents()[did].controller@ == controller,
            !new.documents()[did].deactivated,
            new.document_of(controller) == Some(new.documents()[did]),
    {
        assert(new.documents().contains_key(did));
        assert(new.controllers().contains_key(controller));
    }

    /// An empty registry.
    pub fn new() -> (r: DIDRegistry)
        ensures
            r.inv(),
            r.documents() == Map::<Seq<u8>, DIDDocument>::empty(),
            r.controllers() == Map::<Seq<u8>, Seq<u8>>::empty(),
    {
        let r = DIDRegistry { documents: Table::new(), controllers: Table::new() };
        assert(r.controllers() =~= Map::<Seq<u8>, Seq<u8>>::empty());
        r
    }


    /// The registry as lists of entries.
    pub fn into_parts(self) -> (r: DIDRegistryParts)
        requires
            self.inv(),
        ensures
            r.valid(),
            r.documents() == self.documents(),
            r.controllers() == self.controllers(),
    {
        let ghost s = self;
        let DIDRegistry { documents, controllers } = self;
        let r = DIDRegistryParts { documents: documents.into_entries(), controllers: controllers.into_entries() };
        assert(r.documents() == s.documents());
        assert(r.controllers() =~= s.controllers());
        r
    }

    /// The registry that `parts` describe, when they keep its invariant.
    pub fn from_parts(parts: DIDRegistryParts) -> (r: Option<DIDRegistry>)
        ensures
            r is Some <==> parts.valid(),
            r matches Some(reg) ==> reg.inv() && reg.documents() == parts.documents()
                && reg.controllers() == parts.controllers(),
    {
        let ghost p = parts;
        let n = parts.documents.len();
        let mut i: usize = 0;
        while i < n
            invariant
                parts == p,
                n == parts.documents@.len(),
                i <= n,
                forall|j: int| 0 <= j < i ==> (#[trigger] parts.documents@[j]).0@ == parts.documents@[j].1.id@,
            decreases n - i,
        {
            if !bytes_eq(&parts.documents[i].0, &parts.documents[i].1.id) {
                proof {
                    if distinct_keys(parts.documents@) {
                        lemma_entries_map_index(parts.documents@, i as int);
                        let key = parts.documents@[i as int].0@;
                        assert(p.documents().contains_key(key));
                        assert(p.documents()[key].id@ != key);
                    }
                    assert(!p.valid());
                }
                return None;
            }
            i = i + 1;
        }
        let documents_table = match Table::from_entries(parts.documents) {
            Some(t) => t,
            None => return None,
        };
        let m = parts.controllers.len();
        let mut k: usize = 0;
        while k < m
            invariant
                parts == p,
                m == parts.controllers@.len(),
                k <= m,
                documents_table.wf(),
                documents_table.map() == p.documents(),
                forall|j: int|
                    0 <= j < k ==> p.documents().contains_key((#[trigger] parts.controllers@[j]).1@)
                        && p.documents()[parts.controllers@[j].1@].controller@ == parts.controllers@[j].0@,
            decreases m - k,
        {
            let ok = match documents_table.get(&parts.controllers[k].1) {
                Some(doc) => bytes_eq(&doc.controller.strkey, &parts.controllers[k].0),
                None => false,
            };
            if !ok {
                proof {
                    if distinct_keys(parts.controllers@) {
                        lemma_entries_map_index(parts.controllers@, k as int);
                        let c = parts.controllers@[k as int].0@;
                        assert(p.controllers().contains_key(c));
                        assert(p.controllers()[c] == parts.controllers@[k as int].1@);
                        assert(!(p.documents().contains_key(p.controllers()[c])
                            && p.documents()[p.controllers()[c]].controller@ == c));
                    }
                    assert(!p.valid());
                }
                return None;
            }
            k = k + 1;
        }
        let controllers_table = match Table::from_entries(parts.controllers) {
            Some(t) => t,
            None => return None,
        };
        let reg = DIDRegistry { documents: documents_table, controllers: controllers_table };
        proof {
            assert(reg.controllers() =~= p.controllers());
            assert forall|d: Seq<u8>| #[trigger] p.documents().contains_key(d) implies p.documents()[d].id@ == d by {
                let j = lemma_entries_map_key(p.documents@, d);
            }
            assert forall|c: Seq<u8>| #[trigger] p.controllers().contains_key(c) implies p.documents().contains_key(
                p.controllers()[c],
            ) && p.documents()[p.controllers()[c]].controller@ == c by {
                let j = lemma_entries_map_key(p.controllers@, c);
                assert(p.controllers@[j] == parts.controllers@[j]);
            }
        }
        Some(reg)
    }

    /// Whether `did` starts with `did:stellar:`.
    fn check_did_prefix(did: &Bytes) -> (r: bool)
        ensures
            r == has_did_prefix(did@),
    {
        proof {
            reveal_strlit("did:stellar:");
        }
        let prefix = ascii_vec("did:stellar:");
        has_prefix(did, &prefix)
    }

    /// Whether the parts of a new document are well formed.
    fn check_format(did_id: &Bytes, verification_methods: &Vec<VerificationMethod>, services: &Vec<Service>) -> (r: bool)
        ensures
            r == valid_document_format(did_id@, verification_methods@, services@),
    {
        if !Self::check_did_prefix(did_id) {
            return false;
        }
        if did_id.len() > MAX_DID_LENGTH {
            return false;
        }
        let n = verification_methods.len();
        let mut i: usize = 0;
        while i < n
            invariant
                n == verification_methods@.len(),
                i <= n,
                forall|j: int|
                    0 <= j < i ==> (#[trigger] verification_methods@[j]).id@.len() <= MAX_VM_ID_LENGTH,
            decreases n - i,
        {
            if verification_methods[i].id.len() > MAX_VM_ID_LENGTH {
                return false;
            }
            i = i + 1;
        }
        let m = services.len();
        let mut k: usize = 0;
        while k < m
            invariant
                m == services@.len(),
                k <= m,
                forall|j: int|
                    0 <= j < k ==> (#[trigger] services@[j]).id@.len() <= MAX_SERVICE_ID_LENGTH
                        && services@[j].endpoint@.len() <= MAX_SERVICE_ENDPOINT_LENGTH,
            decreases m - k,
        {
            if services[k].id.len() > MAX_SERVICE_ID_LENGTH || services[k].endpoint.len()
                > MAX_SERVICE_ENDPOINT_LENGTH {
                return false;
            }
            k = k + 1;
        }
        true
    }

    proof fn lemma_controllers_insert(&self, old_reg: &DIDRegistry, c: Vec<u8>, d: Vec<u8>)
        requires
            self.controllers.map() == old_reg.controllers.map().insert(c@, d),
        ensures
            self.controllers() == old_reg.controllers().insert(c@, d@),
    {
        assert(self.controllers() =~= old_reg.controllers().insert(c@, d@));
    }

    /// Register a new DID document controlled by `controller`.
    ///
    /// The DID must start with `did:stellar:` and be at most 256 bytes, each
    /// verification-method id at most 128 bytes, each service id at most 128
    /// and each endpoint at most 512 bytes; otherwise `InvalidFormat`.  A DID
    /// that is already registered gives `AlreadyExists`.  On success the
    /// controller's DID becomes `did_id`.
    pub fn create_did(
        &mut self,
        ledger: &Ledger,
        controller: Address,
        did_id: Bytes,
        verification_methods: Vec<VerificationMethod>,
        services: Vec<Service>,
    ) -> (r: Result<(), DIDRegistryError>)
        requires
            old(self).inv(),
        ensures
            final(self).inv(),
            DIDRegistry::keeps_history(old(self), final(self)),
            !valid_document_format(did_id@, verification_methods@, services@) ==> r == Err::<
                (),
                DIDRegistryError,
            >(DIDRegistryError::InvalidFormat),
            valid_document_format(did_id@, verification_methods@, services@)
                && old(self).documents().contains_key(did_id@) ==> r == Err::<
                (),
                DIDRegistryError,
            >(DIDRegistryError::AlreadyExists),
            valid_document_format(did_id@, verification_methods@, services@)
                && !old(self).documents().contains_key(did_id@) ==> r == Ok::<(), DIDRegistryError>(
                ()),
            r is Err ==> *final(self) == *old(self),
            r is Ok ==> DIDRegistry::created(
                old(self),
                final(self),
                *ledger,
                controller@,
                did_id@,
                verification_methods,
                services,
            ),
    {
        if !Self::check_format(&did_id, &verification_methods, &services) {
            return Err(DIDRegistryError::InvalidFormat);
        }
        if self.documents.contains_key(&did_id) {
            return Err(DIDRegistryError::AlreadyExists);
        }
        let ghost old_reg = *self;
        let now = ledger.timestamp;
        let key = copy_bytes(&did_id);
        let did_copy = copy_bytes(&did_id);
        let controller_key = copy_bytes(&controller.strkey);
        let doc = DIDDocument {
            id: did_id,
            controller,
            verification_method: verification_methods,
            authentication: Vec::new(),
            service: services,
            created: now,
            updated: now,
            deactivated: false,
        };
        let ghost new_doc = doc;
        self.documents.insert(key, doc);
        self.controllers.insert(controller_key, did_copy);
        proof {
            self.lemma_controllers_insert(&old_reg, controller_key, did_copy);
            assert(self.documents()[new_doc.id@] == new_doc);
            assert(self.tables_wf());
            assert forall|d: Seq<u8>| #[trigger]
                self.documents().contains_key(d) implies self.documents()[d].id@ == d by {
                if d != new_doc.id@ {
                    assert(old_reg.documents().contains_key(d));
                }
            }
            assert forall|c: Seq<u8>| #[trigger]
                self.controllers().contains_key(c) implies self.documents().contains_key(
                self.controllers()[c],
            ) && self.documents()[self.controllers()[c]].controller@ == c by {
                if c != new_doc.controller@ {
                    assert(old_reg.controllers().contains_key(c));
                    assert(old_reg.documents().contains_key(old_reg.controllers()[c]));
                }
            }
        }
        Ok(())
    }

    /// Resolve a DID to its document.  A deactivated document still
    /// resolves; an unknown DID gives `NotFound`.
    pub fn resolve_did(&self, did: &Bytes) -> (r: Result<&DIDDocument, DIDRegistryError>)
        requires
            self.inv(),
        ensures
            self.documents().contains_key(did@) ==> (r matches Ok(doc) && *doc
                == self.documents()[did@]),
            !self.documents().contains_key(did@) ==> (r matches Err(e) && e
                == DIDRegistryError::NotFound),
    {
        match self.documents.get(did) {
            Some(doc) => Ok(doc),
            None => Err(DIDRegistryError::NotFound),
        }
    }

    /// The DID that `controller` created last, if any.
    pub fn get_controller_did(&self, controller: &Address) -> (r: Option<&Bytes>)
        requires
            self.inv(),
        ensures
            r is Some <==> self.controllers().contains_key(controller@),
            r matches Some(d) ==> d@ == self.controllers()[controller@],
    {
        self.controllers.get(&controller.strkey)
    }

    /// Whether `did` is registered (deactivated or not).
    pub fn did_exists(&self, did: &Bytes) -> (r: bool)
        requires
            self.inv(),
        ensures
            r == self.documents().contains_key(did@),
    {
        self.documents.contains_key(did)
    }

    /// The DID of `controller`, copied, when its document exists.
    fn controlled_did(&self, controller: &Address) -> (r: Option<Bytes>)
        requires
            self.inv(),
        ensures
            r is Some <==> self.document_of(controller@) is Some,
            r matches Some(d) ==> d@ == self.controllers()[controller@],
    {
        match self.controllers.get(&controller.strkey) {
            Some(d) => {
                assert(self.controllers().contains_key(controller@));
                Some(copy_bytes(d))
            },
            None => {
                assert(!self.controllers().contains_key(controller@));
                None
            },
        }
    }

    /// Whether the document stored under `did` is deactivated.
    fn is_deactivated(&self, did: &Bytes) -> (r: bool)
        requires
            self.tables_wf(),
            self.documents().contains_key(did@),
        ensures
            r == self.documents()[did@].deactivated,
    {
        match self.documents.get(did) {
            Some(doc) => doc.deactivated,
            None => false,
        }
    }

    /// Take the document stored under `did` out for changing it.
    fn take_document(&mut self, did: &Bytes) -> (r: DIDDocument)
        requires
            old(self).tables_wf(),
            old(self).documents().contains_key(did@),
        ensures
            r == old(self).documents()[did@],
            final(self).tables_wf(),
            final(self).documents() == old(self).documents().remove(did@),
            final(self).controllers() == old(self).controllers(),
    {
        match self.documents.remove(did) {
            Some(doc) => doc,
            None => {
                assert(false);
                DIDDocument {
                    id: Vec::new(),
                    controller: Address { strkey: Vec::new() },
                    verification_method: Vec::new(),
                    authentication: Vec::new(),
                    service: Vec::new(),
                    created: 0,
                    updated: 0,
                    deactivated: false,
                }
            },
        }
    }

    /// Put a changed document back under its DID.
    fn put_document(&mut self, did: Bytes, doc: DIDDocument)
        requires
            old(self).tables_wf(),
        ensures
            final(self).tables_wf(),
            final(self).documents() == old(self).documents().insert(did@, doc),
            final(self).controllers() == old(self).controllers(),
    {
        self.documents.insert(did, doc);
    }

    proof fn lemma_replaced(&self, old_reg: &DIDRegistry, did: Seq<u8>)
        requires
            old_reg.inv(),
            self.tables_wf(),
            old_reg.documents().contains_key(did),
            self.controllers() == old_reg.controllers(),
            self.documents() == old_reg.documents().remove(did).insert(did, self.documents()[did]),
            self.documents()[did].id@ == old_reg.documents()[did].id@,
            self.documents()[did].controller@ == old_reg.documents()[did].controller@,
            self.documents()[did].created == old_reg.documents()[did].created,
            !old_reg.documents()[did].deactivated,
        ensures
            self.inv(),
            DIDRegistry::keeps_history(old_reg, self),
            self.documents() == old_reg.documents().insert(did, self.documents()[did]),
    {
        assert(self.documents() =~= old_reg.documents().insert(did, self.documents()[did]));
        assert forall|c: Seq<u8>| #[trigger]
            self.controllers().contains_key(c) implies self.documents().contains_key(
            self.controllers()[c],
        ) && self.documents()[self.controllers()[c]].controller@ == c by {
            assert(old_reg.controllers().contains_key(c));
        }
    }

    /// Replace the verification methods and/or the services of the DID that
    /// `controller` created last.  `NotFound` when it has none;
    /// `Deactivated` when that document is deactivated.
    pub fn update_did(
        &mut self,
        ledger: &Ledger,
        controller: &Address,
        verification_methods: Option<Vec<VerificationMethod>>,
        services: Option<Vec<Service>>,
    ) -> (r: Result<(), DIDRegistryError>)
        requires
            old(self).inv(),
        ensures
            final(self).inv(),
            DIDRegistry::keeps_history(old(self), final(self)),
            r is Err ==> *final(self) == *old(self),
            match old(self).document_of(controller@) {
                None => r == Err::<(), DIDRegistryError>(DIDRegistryError::NotFound),
                Some(doc) => if doc.deactivated {
                    r == Err::<(), DIDRegistryError>(DIDRegistryError::Deactivated)
                } else {
                    &&& r == Ok::<(), DIDRegistryError>(())
                    &&& final(self).controllers() == old(self).controllers()
                    &&& final(self).documents() == old(self).documents().insert(
                        doc.id@,
                        DIDDocument {
                            verification_method: match verification_methods {
                                Some(m) => m,
                                None => doc.verification_method,
                            },
                            service: match services {
                                Some(s) => s,
                                None => doc.service,
                            },
                            updated: ledger.timestamp,
                            ..doc
                        },
                    )
                },
            },
    {
        let did = match self.controlled_did(controller) {
            Some(d) => d,
            None => return Err(DIDRegistryError::NotFound),
        };
        if self.is_deactivated(&did) {
            return Err(DIDRegistryError::Deactivated);
        }
        let ghost old_reg = *self;
        let mut doc = self.take_document(&did);
        if let Some(methods) = verification_methods {
            doc.verification_method = methods;
        }
        if let Some(svcs) = services {
            doc.service = svcs;
        }
        doc.updated = ledger.timestamp;
        self.put_document(did, doc);
        proof {
            self.lemma_replaced(&old_reg, did@);
        }
        Ok(())
    }

    /// Deactivate (tombstone) the DID that `controller` created last; the
    /// document stays resolvable with `deactivated` set.  `NotFound` when it
    /// has none; `AlreadyDeactivated` when it is deactivated already.
    pub fn deactivate_did(&mut self, ledger: &Ledger, controller: &Address) -> (r: Result<
        (),
        DIDRegistryError,
    >)
        requires
            old(self).inv(),
        ensures
            final(self).inv(),
            DIDRegistry::keeps_history(old(self), final(self)),
            r is Err ==> *final(self) == *old(self),
            match old(self).document_of(controller@) {
                None => r == Err::<(), DIDRegistryError>(DIDRegistryError::NotFound),
                Some(doc) => if doc.deactivated {
                    r == Err::<(), DIDRegistryError>(DIDRegistryError::AlreadyDeactivated)
                } else {
                    &&& r == Ok::<(), DIDRegistryError>(())
                    &&& final(self).controllers() == old(self).controllers()
                    &&& final(self).documents() == old(self).documents().insert(
                        doc.id@,
                        DIDDocument { deactivated: true, updated: ledger.timestamp, ..doc },
                    )
                },
            },
    {
        let did = match self.controlled_did(controller) {
            Some(d) => d,
            None => return Err(DIDRegistryError::NotFound),
        };
        if self.is_deactivated(&did) {
            return Err(DIDRegistryError::AlreadyDeactivated);
        }
        let ghost old_reg = *self;
        let mut doc = self.take_document(&did);
        doc.deactivated = true;
        doc.updated = ledger.timestamp;
        self.put_document(did, doc);
        proof {
            self.lemma_replaced(&old_reg, did@);
        }
        Ok(())
    }

    /// Append an authentication method to the DID that `controller` created
    /// last.  `NotFound` when it has none; `Deactivated` when deactivated.
    pub fn add_authentication(
        &mut self,
        ledger: &Ledger,
        controller: &Address,
        authentication_method: Bytes,
    ) -> (r: Result<(), DIDRegistryError>)
        requires
            old(self).inv(),
        ensures
            final(self).inv(),
            DIDRegistry::keeps_history(old(self), final(self)),
            r is Err ==> *final(self) == *old(self),
            match old(self).document_of(controller@) {
                None => r == Err::<(), DIDRegistryError>(DIDRegistryError::NotFound),
                Some(doc) => if doc.deactivated {
                    r == Err::<(), DIDRegistryError>(DIDRegistryError::Deactivated)
                } else {
                    let new_doc = final(self).documents()[doc.id@];
                    &&& r == Ok::<(), DIDRegistryError>(())
                    &&& final(self).controllers() == old(self).controllers()
                    &&& final(self).documents() == old(self).documents().insert(doc.id@, new_doc)
                    &&& new_doc == DIDDocument {
                        authentication: new_doc.authentication,
                        updated: ledger.timestamp,
                        ..doc
                    }
                    &&& new_doc.authentication@ == doc.authentication@.push(authentication_method)
                },
            },
    {
        let did = match self.controlled_did(controller) {
            Some(d) => d,
            None => return Err(DIDRegistryError::NotFound),
        };
        if self.is_deactivated(&did) {
            return Err(DIDRegistryError::Deactivated);
        }
        let ghost old_reg = *self;
        let mut doc = self.take_document(&did);
        doc.authentication.push(authentication_method);
        doc.updated = ledger.timestamp;
        self.put_document(did, doc);
        proof {
            self.lemma_replaced(&old_reg, did@);
        }
        Ok(())
    }

    /// Remove every authentication method equal to `authentication_method`
    /// from the DID that `controller` created last.  `NotFound` when it has
    /// none or when no such method is listed; `Deactivated` when deactivated.
    pub fn remove_authentication(
        &mut self,
        ledger: &Ledger,
        controller: &Address,
        authentication_method: &Bytes,
    ) -> (r: Result<(), DIDRegistryError>)
        requires
            old(self).inv(),
        ensures
            final(self).inv(),
            DIDRegistry::keeps_history(old(self), final(self)),
            r is Err ==> *final(self) == *old(self),
            match old(self).document_of(controller@) {
                None => r == Err::<(), DIDRegistryError>(DIDRegistryError::NotFound),
                Some(doc) => if doc.deactivated {
                    r == Err::<(), DIDRegistryError>(DIDRegistryError::Deactivated)
                } else if !byte_views(doc.authentication@).contains(authentication_method@) {
                    r == Err::<(), DIDRegistryError>(DIDRegistryError::NotFound)
                } else {
                    let new_doc = final(self).documents()[doc.id@];
                    &&& r == Ok::<(), DIDRegistryError>(())
                    &&& final(self).controllers() == old(self).controllers()
                    &&& final(self).documents() == old(self).documents().insert(doc.id@, new_doc)
                    &&& new_doc == DIDDocument {
                        authentication: new_doc.authentication,
                        updated: ledger.timestamp,
                        ..doc
                    }
                    &&& byte_views(new_doc.authentication@) == without(
                        byte_views(doc.authentication@),
                        authentication_method@,
                    )
                },
            },
    {
        let did = match self.controlled_did(controller) {
            Some(d) => d,
            None => return Err(DIDRegistryError::NotFound),
        };
        if self.is_deactivated(&did) {
            return Err(DIDRegistryError::Deactivated);
        }
        let (new_auth, found) = match self.documents.get(&did) {
            Some(doc) => filter_out(&doc.authentication, authentication_method),
            None => (Vec::new(), false),
        };
        if !found {
            return Err(DIDRegistryError::NotFound);
        }
        let ghost old_reg = *self;
        let mut doc = self.take_document(&did);
        doc.authentication = new_auth;
        doc.updated = ledger.timestamp;
        self.put_document(did, doc);
        proof {
            self.lemma_replaced(&old_reg, did@);
        }
        Ok(())
    }

    /// The public key of the verification method at `method_index` of the
    /// active document of `did`.
    fn signing_key(&self, did: &Bytes, method_index: usize) -> (r: Result<[u8; 32], DIDRegistryError>)
        requires
            self.inv(),
        ensures
            r == signing_key_outcome(self.documents(), did@, method_index as int),
    {
        match self.documents.get(did) {
            None => Err(DIDRegistryError::NotFound),
            Some(doc) => {
                if doc.deactivated {
                    Err(DIDRegistryError::Deactivated)
                } else if method_index < doc.verification_method.len() {
                    Ok(doc.verification_method[method_index].public_key)
                } else {
                    Err(DIDRegistryError::NotFound)
                }
            },
        }
    }

    /// Look up the key that a signature by `did` is checked against: the
    /// public key of its first verification method.  `NotFound` when the DID
    /// is unknown or has no method; `Deactivated` when it is deactivated.
    /// The Ed25519 check of the signature against this key is the host's.
    pub fn verify_signature(&self, did: &Bytes) -> (r: Result<[u8; 32], DIDRegistryError>)
        requires
            self.inv(),
        ensures
            r == signing_key_outcome(self.documents(), did@, 0),
    {
        self.signing_key(did, 0)
    }

    /// As `verify_signature`, with the verification method at `method_index`.
    pub fn verify_signature_with_method(&self, did: &Bytes, method_index: u32) -> (r: Result<
        [u8; 32],
        DIDRegistryError,
    >)
        requires
            self.inv(),
        ensures
            r == signing_key_outcome(self.documents(), did@, method_index as int),
    {
        self.signing_key(did, method_index as usize)
    }
}

/// The key that a signature check of `did` with method `index` uses, or the error.
pub open spec fn signing_key_outcome(
    documents: Map<Seq<u8>, DIDDocument>,
    did: Seq<u8>,
    index: int,
) -> Result<[u8; 32], DIDRegistryError> {
    if !documents.contains_key(did) {
        Err(DIDRegistryError::NotFound)
    } else if documents[did].deactivated {
        Err(DIDRegistryError::Deactivated)
    } else if 0 <= index < documents[did].verification_method@.len() {
        Ok(documents[did].verification_method@[index].public_key)
    } else {
        Err(DIDRegistryError::NotFound)
    }
}


/// `list` without the entries equal to `item`, and whether there were any.
fn filter_out(list: &Vec<Bytes>, item: &Bytes) -> (r: (Vec<Bytes>, bool))
    ensures
        byte_views(r.0@) == without(byte_views(list@), item@),
        r.1 == byte_views(list@).contains(item@),
{
    let mut found = false;
    let mut new_list: Vec<Bytes> = Vec::new();
    let ghost all = byte_views(list@);
    let n = list.len();
    let mut i: usize = 0;
    while i < n
        invariant
            n == list@.len(),
            all == byte_views(list@),
            i <= n,
            byte_views(new_list@) == without(all.subrange(0, i as int), item@),
            found == all.subrange(0, i as int).contains(item@),
        decreases n - i,
    {
        let ghost prefix = all.subrange(0, i as int);
        let ghost next = all.subrange(0, i as int + 1);
        assert(next.drop_last() =~= prefix);
        assert(next.last() == all[i as int]);
        if !bytes_eq(&list[i], item) {
            let b = copy_bytes(&list[i]);
            let ghost before = new_list@;
            new_list.push(b);
            assert(byte_views(new_list@) =~= byte_views(before).push(all[i as int]));
        } else {
            found = true;
        }
        proof {
            assert forall|x: Seq<u8>| next.contains(x) <==> prefix.contains(x) || x == all[i as int] by {
                if next.contains(x) {
                    let j = choose|j: int| 0 <= j < next.len() && next[j] == x;
                    if j < i {
                        assert(prefix[j] == x);
                    }
                }
                if prefix.contains(x) {
                    let j = choose|j: int| 0 <= j < prefix.len() && prefix[j] == x;
                    assert(next[j] == x);
                }
                if x == all[i as int] {
                    assert(next[i as int] == x);
                }
            }
        }
        i = i + 1;
    }
    assert(all.subrange(0, n as int) =~= all);
    (new_list, found)
}

} // verus!
