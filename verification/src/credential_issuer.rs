//! The credential issuer: verifiable credentials with their revocation
//! status, the revocation reasons, and each issuer's and subject's list of
//! credential ids.

use vstd::prelude::*;
use crate::bytes::{ascii, ascii_vec, byte_views, bytes_eq, copy_byte_list, copy_bytes, decimal, decimal_bytes};
use crate::pagination::{page_has_more, page_in_range, page_items, paginate_bytes};
use crate::table::{
    append_to_list, appended, distinct_keys, entries_map, lemma_entries_map_index, lemma_entries_map_key,
    list_views, Table,
};
use crate::types::{
    ledger_id, make_ledger_id, Address, Bytes, Ledger, PaginatedCredentials, VerifiableCredential,
};

verus! {

/// Errors of the credential issuer.
#[derive(Clone, Copy, Debug, PartialEq, Eq, PartialOrd, Ord, Structural)]
pub enum CredentialIssuerError {
    Unauthorized,
    NotFound,
    InvalidCredential,
    AlreadyRevoked,
    Expired,
    InvalidSignature,
    InvalidIssuer,
    SchemaValidationFailed,
    SchemaNotFound,
}

/// What the schema registry reports on a credential's schema: the schema is
/// not registered, or the credential data does not satisfy it, or it does.
#[derive(Clone, Copy, Debug, PartialEq, Eq, Structural)]
pub enum SchemaCheck {
    NotFound,
    Rejected,
    Accepted,
}

/// Longest credential type accepted, in bytes.
pub const MAX_CREDENTIAL_TYPE_LENGTH: usize = 128;

/// Longest credential data accepted with a schema, in bytes.
pub const MAX_CREDENTIAL_DATA_LENGTH: usize = 10240;

/// Stored status of an active credential.
pub const STATUS_ACTIVE: u32 = 0;

/// Stored status of a revoked credential.
pub const STATUS_REVOKED: u32 = 1;

/// Every credential type is at most `MAX_CREDENTIAL_TYPE_LENGTH` bytes.
pub open spec fn type_lengths_ok(types: Seq<Bytes>) -> bool {
    forall|i: int| 0 <= i < types.len() ==> (#[trigger] types[i])@.len() <= MAX_CREDENTIAL_TYPE_LENGTH
}

/// The checks every stored credential passes: data and types are present,
/// and a proof, when there is one, is not empty.
pub open spec fn validation(data: Seq<u8>, types: Seq<Bytes>, proof: Option<Bytes>) -> Result<
    (),
    CredentialIssuerError,
> {
    if data.len() == 0 {
        Err(CredentialIssuerError::InvalidCredential)
    } else if types.len() == 0 {
        Err(CredentialIssuerError::InvalidCredential)
    } else if proof matches Some(p) && p@.len() == 0 {
        Err(CredentialIssuerError::InvalidSignature)
    } else {
        Ok(())
    }
}

/// The outcome of the checks of `issue_credential`.
pub open spec fn issue_check(types: Seq<Bytes>, data: Seq<u8>, proof: Bytes) -> Result<
    (),
    CredentialIssuerError,
> {
    if !type_lengths_ok(types) {
        Err(CredentialIssuerError::InvalidCredential)
    } else {
        validation(data, types, Some(proof))
    }
}

/// The outcome of the checks of `issue_credential_with_schema`.
pub open spec fn schema_issue_check(
    schema: SchemaCheck,
    types: Seq<Bytes>,
    data: Seq<u8>,
    proof: Bytes,
) -> Result<(), CredentialIssuerError> {
    match schema {
        SchemaCheck::NotFound => Err(CredentialIssuerError::SchemaNotFound),
        SchemaCheck::Rejected => Err(CredentialIssuerError::SchemaValidationFailed),
        SchemaCheck::Accepted => if !type_lengths_ok(types) {
            Err(CredentialIssuerError::InvalidCredential)
        } else if data.len() > MAX_CREDENTIAL_DATA_LENGTH {
            Err(CredentialIssuerError::InvalidCredential)
        } else {
            validation(data, types, Some(proof))
        },
    }
}

/// Issuance passes its checks only with a non-empty list of credential
/// types each at most 128 bytes long, non-empty data and a non-empty proof;
/// under a schema, only when the schema accepted the data and the data is at
/// most 10240 bytes.
pub proof fn law_issue_checks(schema: SchemaCheck, types: Seq<Bytes>, data: Seq<u8>, proof: Bytes)
    ensures
        issue_check(types, data, proof) is Ok <==> {
            &&& types.len() > 0
            &&& forall|i: int| 0 <= i < types.len() ==> (#[trigger] types[i])@.len() <= 128
            &&& data.len() > 0
            &&& proof@.len() > 0
        },
        schema_issue_check(schema, types, data, proof) is Ok <==> {
            &&& schema == SchemaCheck::Accepted
            &&& types.len() > 0
            &&& forall|i: int| 0 <= i < types.len() ==> (#[trigger] types[i])@.len() <= 128
            &&& data.len() > 0
            &&& data.len() <= 10240
            &&& proof@.len() > 0
        },
{
}

/// The id that a credential issued in `ledger` gets.
pub open spec fn credential_id_for(ledger: Ledger) -> Seq<u8> {
    ledger_id(ascii("vc:"@), ledger)
}

/// The text `get_credential_status` reports for a stored status.
pub open spec fn status_text(status: Option<u32>) -> Seq<u8> {
    match status {
        Some(0) => ascii("active"@),
        Some(1) => ascii("revoked"@),
        _ => ascii("unknown"@),
    }
}

/// A credential's status reads `active` when stored as 0, `revoked` when
/// stored as 1, and `unknown` otherwise or when none is stored.
pub proof fn law_status_text(status: Option<u32>)
    ensures
        status == Some(0u32) ==> status_text(status) == ascii("active"@),
        status == Some(1u32) ==> status_text(status) == ascii("revoked"@),
        status != Some(0u32) && status != Some(1u32) ==> status_text(status) == ascii("unknown"@),
{
}

/// The issuer's stored state as lists of entries, for keeping it in ledger
/// storage between calls.
pub struct CredentialIssuerParts {
    /// Credentials, each under its id.
    pub credentials: Vec<(Bytes, VerifiableCredential)>,
    /// Stored statuses, by credential id.
    pub status: Vec<(Bytes, u32)>,
    /// Revocation reasons, by credential id.
    pub reasons: Vec<(Bytes, Bytes)>,
    /// Credential ids by issuer address.
    pub issuer_creds: Vec<(Bytes, Vec<Bytes>)>,
    /// Credential ids by subject address.
    pub subject_creds: Vec<(Bytes, Vec<Bytes>)>,
}

impl CredentialIssuerParts {
    /// The credentials that the parts hold.
    pub open spec fn credentials(&self) -> Map<Seq<u8>, VerifiableCredential> {
        entries_map(self.credentials@)
    }

    /// The statuses that the parts hold.
    pub open spec fn status(&self) -> Map<Seq<u8>, u32> {
        entries_map(self.status@)
    }

    /// The revocation reasons that the parts hold.
    pub open spec fn reasons(&self) -> Map<Seq<u8>, Seq<u8>> {
        entries_map(self.reasons@).map_values(|r: Bytes| r@)
    }

    /// The issuers' lists that the parts hold.
    pub open spec fn issuer_creds(&self) -> Map<Seq<u8>, Seq<Seq<u8>>> {
        list_views(entries_map(self.issuer_creds@))
    }

    /// The subjects' lists that the parts hold.
    pub open spec fn subject_creds(&self) -> Map<Seq<u8>, Seq<Seq<u8>>> {
        list_views(entries_map(self.subject_creds@))
    }

    /// The parts describe an issuer that keeps the issuer's invariant.
    pub open spec fn valid(&self) -> bool {
        &&& distinct_keys(self.credentials@)
        &&& distinct_keys(self.status@)
        &&& distinct_keys(self.reasons@)
        &&& distinct_keys(self.issuer_creds@)
        &&& distinct_keys(self.subject_creds@)
        &&& forall|id: Seq<u8>| #[trigger]
            self.credentials().contains_key(id) ==> {
                &&& self.credentials()[id].id@ == id
                &&& self.credentials()[id].proof matches Some(p) && p@.len() > 0
                &&& type_lengths_ok(self.credentials()[id].type_@)
            }
    }
}

/// The issuer's stored state.
pub struct CredentialIssuer {
    credentials: Table<VerifiableCredential>,
    status: Table<u32>,
    reasons: Table<Bytes>,
    issuer_creds: Table<Vec<Bytes>>,
    subject_creds: Table<Vec<Bytes>>,
}

impl CredentialIssuer {
    /// Credentials, keyed by id.
    pub closed spec fn credentials(&self) -> Map<Seq<u8>, VerifiableCredential> {
        self.credentials.map()
    }

    /// Stored statuses, keyed by credential id.
    pub closed spec fn status(&self) -> Map<Seq<u8>, u32> {
        self.status.map()
    }

    /// Revocation reasons, keyed by credential id.
    pub closed spec fn reasons(&self) -> Map<Seq<u8>, Seq<u8>> {
        self.reasons.map().map_values(|r: Bytes| r@)
    }

    /// For each issuer, the ids of the credentials it issued, in order.
    pub closed spec fn issuer_creds(&self) -> Map<Seq<u8>, Seq<Seq<u8>>> {
        list_views(self.issuer_creds.map())
    }

    /// For each subject, the ids of the credentials issued to it, in order.
    pub closed spec fn subject_creds(&self) -> Map<Seq<u8>, Seq<Seq<u8>>> {
        list_views(self.subject_creds.map())
    }

    /// The status of credential `id`, where a missing status counts as active.
    pub open spec fn status_or_active(&self, id: Seq<u8>) -> u32 {
        if self.status().contains_key(id) {
            self.status()[id]
        } else {
            STATUS_ACTIVE
        }
    }

    /// The underlying tables are well formed.
    pub closed spec fn tables_wf(&self) -> bool {
        &&& self.credentials.wf()
        &&& self.status.wf()
        &&& self.reasons.wf()
        &&& self.issuer_creds.wf()
        &&& self.subject_creds.wf()
    }

    /// The issuer's invariant: each credential is stored under its own id
    /// and carries a non-empty proof and only credential types of at most
    /// 128 bytes.
    pub open spec fn inv(&self) -> bool {
        &&& self.tables_wf()
        &&& forall|id: Seq<u8>| #[trigger]
            self.credentials().contains_key(id) ==> {
                &&& self.credentials()[id].id@ == id
                &&& self.credentials()[id].proof matches Some(p) && p@.len() > 0
                &&& type_lengths_ok(self.credentials()[id].type_@)
            }
    }

    /// The outcome of `verify_credential` for credential `id` at time `now`.
    pub open spec fn verify_outcome(&self, id: Seq<u8>, now: u64) -> Result<bool, CredentialIssuerError> {
        if !self.credentials().contains_key(id) {
            Err(CredentialIssuerError::NotFound)
        } else if self.status_or_active(id) == STATUS_REVOKED {
            Ok(false)
        } else if self.credentials()[id].expiration_date matches Some(e) && now > e {
            Ok(false)
        } else if self.credentials()[id].proof matches Some(p) && p@.len() == 0 {
            Err(CredentialIssuerError::InvalidSignature)
        } else {
            Ok(true)
        }
    }

    /// `new` is `old` after a credential was stored under `id` by `issuer`
    /// for `subject`: the credential `c` is active and listed last for both.
    pub open spec fn stored(
        old: &CredentialIssuer,
        new: &CredentialIssuer,
        id: Seq<u8>,
        issuer: Seq<u8>,
        subject: Seq<u8>,
    ) -> bool {
        &&& new.credentials() == old.credentials().insert(id, new.credentials()[id])
        &&& new.credentials()[id].id@ == id
        &&& new.status() == old.status().insert(id, STATUS_ACTIVE)
        &&& new.reasons() == old.reasons()
        &&& new.issuer_creds() == appended(old.issuer_creds(), issuer, id)
        &&& new.subject_creds() == appended(old.subject_creds(), subject, id)
    }

    /// An issuer with nothing stored.
    pub fn new() -> (r: CredentialIssuer)
        ensures
            r.inv(),
            r.credentials() == Map::<Seq<u8>, VerifiableCredential>::empty(),
            r.status() == Map::<Seq<u8>, u32>::empty(),
            r.reasons() == Map::<Seq<u8>, Seq<u8>>::empty(),
            r.issuer_creds() == Map::<Seq<u8>, Seq<Seq<u8>>>::empty(),
            r.subject_creds() == Map::<Seq<u8>, Seq<Seq<u8>>>::empty(),
    {
        let r = CredentialIssuer {
            credentials: Table::new(),
            status: Table::new(),
            reasons: Table::new(),
            issuer_creds: Table::new(),
            subject_creds: Table::new(),
        };
        assert(r.reasons() =~= Map::<Seq<u8>, Seq<u8>>::empty());
        assert(r.issuer_creds() =~= Map::<Seq<u8>, Seq<Seq<u8>>>::empty());
        assert(r.subject_creds() =~= Map::<Seq<u8>, Seq<Seq<u8>>>::empty());
        r
    }


    /// The issuer as lists of entries.
    pub fn into_parts(self) -> (r: CredentialIssuerParts)
        requires
            self.inv(),
        ensures
            r.valid(),
            r.credentials() == self.credentials(),
            r.status() == self.status(),
            r.reasons() == self.reasons(),
            r.issuer_creds() == self.issuer_creds(),
            r.subject_creds() == self.subject_creds(),
    {
        let ghost s = self;
        let CredentialIssuer { credentials, status, reasons, issuer_creds, subject_creds } = self;
        let r = CredentialIssuerParts {
            credentials: credentials.into_entries(),
            status: status.into_entries(),
            reasons: reasons.into_entries(),
            issuer_creds: issuer_creds.into_entries(),
            subject_creds: subject_creds.into_entries(),
        };
        assert(r.credentials() == s.credentials());
        assert(r.reasons() =~= s.reasons());
        assert(r.issuer_creds() =~= s.issuer_creds());
        assert(r.subject_creds() =~= s.subject_creds());
        r
    }

    /// The issuer that `parts` describe, when they keep its invariant.
    pub fn from_parts(parts: CredentialIssuerParts) -> (r: Option<CredentialIssuer>)
        ensures
            r is Some <==> parts.valid(),
            r matches Some(ci) ==> {
                &&& ci.inv()
                &&& ci.credentials() == parts.credentials()
                &&& ci.status() == parts.status()
                &&& ci.reasons() == parts.reasons()
                &&& ci.issuer_creds() == parts.issuer_creds()
                &&& ci.subject_creds() == parts.subject_creds()
            },
    {
        let ghost p = parts;
        let n = parts.credentials.len();
        let mut i: usize = 0;
        while i < n
            invariant
                parts == p,
                n == parts.credentials@.len(),
                i <= n,
                forall|j: int|
                    0 <= j < i ==> {
                        let e = #[trigger] parts.credentials@[j];
                        &&& e.0@ == e.1.id@
                        &&& e.1.proof matches Some(pr) && pr@.len() > 0
                        &&& type_lengths_ok(e.1.type_@)
                    },
            decreases n - i,
        {
            let ok = bytes_eq(&parts.credentials[i].0, &parts.credentials[i].1.id) && match &parts.credentials[i].1.proof {
                Some(pr) => pr.len() > 0,
                None => false,
            } && Self::check_type_lengths(&parts.credentials[i].1.type_);
            if !ok {
                proof {
                    if distinct_keys(parts.credentials@) {
                        lemma_entries_map_index(parts.credentials@, i as int);
                        let key = parts.credentials@[i as int].0@;
                        assert(p.credentials().contains_key(key));
                    }
                    assert(!p.valid());
                }
                return None;
            }
            i = i + 1;
        }
        let credentials = match Table::from_entries(parts.credentials) {
            Some(t) => t,
            None => return None,
        };
        let status = match Table::from_entries(parts.status) {
            Some(t) => t,
            None => return None,
        };
        let reasons = match Table::from_entries(parts.reasons) {
            Some(t) => t,
            None => return None,
        };
        let issuer_creds = match Table::from_entries(parts.issuer_creds) {
            Some(t) => t,
            None => return None,
        };
        let subject_creds = match Table::from_entries(parts.subject_creds) {
            Some(t) => t,
            None => return None,
        };
        let ci = CredentialIssuer { credentials, status, reasons, issuer_creds, subject_creds };
        proof {
            assert(ci.reasons() =~= p.reasons());
            assert(ci.issuer_creds() =~= p.issuer_creds());
            assert(ci.subject_creds() =~= p.subject_creds());
            assert forall|id: Seq<u8>| #[trigger] p.credentials().contains_key(id) implies {
                &&& p.credentials()[id].id@ == id
                &&& p.credentials()[id].proof matches Some(pr) && pr@.len() > 0
                &&& type_lengths_ok(p.credentials()[id].type_@)
            } by {
                let j = lemma_entries_map_key(p.credentials@, id);
            }
        }
        Some(ci)
    }

    /// Whether every credential type is short enough.
    fn check_type_lengths(types: &Vec<Bytes>) -> (r: bool)
        ensures
            r == type_lengths_ok(types@),
    {
        let n = types.len();
        let mut i: usize = 0;
        while i < n
            invariant
                n == types@.len(),
                i <= n,
                forall|j: int| 0 <= j < i ==> (#[trigger] types@[j])@.len() <= MAX_CREDENTIAL_TYPE_LENGTH,
            decreases n - i,
        {
            if types[i].len() > MAX_CREDENTIAL_TYPE_LENGTH {
                return false;
            }
            i = i + 1;
        }
        true
    }

    /// The checks every stored credential passes.
    fn validate_credential(data: &Bytes, types: &Vec<Bytes>, proof: &Bytes) -> (r: Result<
        (),
        CredentialIssuerError,
    >)
        ensures
            r == validation(data@, types@, Some(*proof)),
    {
        if data.len() == 0 {
            return Err(CredentialIssuerError::InvalidCredential);
        }
        if types.len() == 0 {
            return Err(CredentialIssuerError::InvalidCredential);
        }
        if proof.len() == 0 {
            return Err(CredentialIssuerError::InvalidSignature);
        }
        Ok(())
    }

    /// Store a validated credential under `id` and list it for its issuer
    /// and subject.
    fn store_credential(&mut self, id: &Bytes, credential: VerifiableCredential)
        requires
            old(self).inv(),
            credential.id@ == id@,
            credential.proof matches Some(p) && p@.len() > 0,
            type_lengths_ok(credential.type_@),
        ensures
            final(self).inv(),
            CredentialIssuer::stored(old(self), final(self), id@, credential.issuer@, credential.subject@),
            final(self).credentials()[id@] == credential,
    {
        let ghost old_s = *self;
        let ghost c = credential;
        let issuer_key = copy_bytes(&credential.issuer.strkey);
        let subject_key = copy_bytes(&credential.subject.strkey);
        self.credentials.insert(copy_bytes(id), credential);
        self.status.insert(copy_bytes(id), STATUS_ACTIVE);
        append_to_list(&mut self.issuer_creds, issuer_key, id);
        append_to_list(&mut self.subject_creds, subject_key, id);
        proof {
            assert(self.credentials()[id@] == c);
            assert(self.reasons.map() == old_s.reasons.map());
            assert forall|k: Seq<u8>| #[trigger] self.credentials().contains_key(k) implies {
                &&& self.credentials()[k].id@ == k
                &&& self.credentials()[k].proof matches Some(p) && p@.len() > 0
                &&& type_lengths_ok(self.credentials()[k].type_@)
            } by {
                if k != id@ {
                    assert(old_s.credentials().contains_key(k));
                }
            }
        }
    }

    /// Issue a credential from `issuer` to `subject`.
    ///
    /// Each credential type must be at most 128 bytes, the data and the list
    /// of types must not be empty (`InvalidCredential`), and the proof must
    /// not be empty (`InvalidSignature`).  The credential gets the id
    /// `vc:<timestamp>:<sequence>`, is stored active and listed for its
    /// issuer and subject; the id is returned.
    pub fn issue_credential(
        &mut self,
        ledger: &Ledger,
        issuer: Address,
        subject: Address,
        credential_type: Vec<Bytes>,
        credential_data: Bytes,
        expiration_date: Option<u64>,
        proof: Bytes,
    ) -> (r: Result<Bytes, CredentialIssuerError>)
        requires
            old(self).inv(),
        ensures
            final(self).inv(),
            match issue_check(credential_type@, credential_data@, proof) {
                Err(e) => r == Err::<Bytes, CredentialIssuerError>(e) && *final(self) == *old(self),
                Ok(_) => r is Ok && {
                    let id = r->Ok_0@;
                    let c = final(self).credentials()[id];
                    &&& id == credential_id_for(*ledger)
                    &&& CredentialIssuer::stored(old(self), final(self), id, issuer@, subject@)
                    &&& c == VerifiableCredential {
                        id: c.id,
                        issuer,
                        subject,
                        type_: credential_type,
                        credential_data,
                        issuance_date: ledger.timestamp,
                        expiration_date,
                        schema_id: None,
                        revocation: None,
                        proof: Some(proof),
                    }
                },
            },
    {
        if !Self::check_type_lengths(&credential_type) {
            return Err(CredentialIssuerError::InvalidCredential);
        }
        match Self::validate_credential(&credential_data, &credential_type, &proof) {
            Err(e) => return Err(e),
            Ok(()) => {},
        }
        proof {
            reveal_strlit("vc:");
        }
        let id = make_ledger_id(&ascii_vec("vc:"), ledger);
        let credential = VerifiableCredential {
            id: copy_bytes(&id),
            issuer,
            subject,
            type_: credential_type,
            credential_data,
            issuance_date: ledger.timestamp,
            expiration_date,
            schema_id: None,
            revocation: None,
            proof: Some(proof),
        };
        self.store_credential(&id, credential);
        Ok(id)
    }

    /// Issue a credential whose data was checked against schema `schema_id`;
    /// `schema` is what the schema registry reported on that check.
    ///
    /// `SchemaNotFound` when the schema is not registered,
    /// `SchemaValidationFailed` when the data does not satisfy it; then the
    /// checks of `issue_credential`, with the data limited to 10240 bytes.
    /// The stored credential records `schema_id`.
    pub fn issue_credential_with_schema(
        &mut self,
        ledger: &Ledger,
        issuer: Address,
        subject: Address,
        credential_type: Vec<Bytes>,
        credential_data: Bytes,
        schema_id: Bytes,
        schema: SchemaCheck,
        expiration_date: Option<u64>,
        proof: Bytes,
    ) -> (r: Result<Bytes, CredentialIssuerError>)
        requires
            old(self).inv(),
        ensures
            final(self).inv(),
            match schema_issue_check(schema, credential_type@, credential_data@, proof) {
                Err(e) => r == Err::<Bytes, CredentialIssuerError>(e) && *final(self) == *old(self),
                Ok(_) => r is Ok && {
                    let id = r->Ok_0@;
                    let c = final(self).credentials()[id];
                    &&& id == credential_id_for(*ledger)
                    &&& CredentialIssuer::stored(old(self), final(self), id, issuer@, subject@)
                    &&& c == VerifiableCredential {
                        id: c.id,
                        issuer,
                        subject,
                        type_: credential_type,
                        credential_data,
                        issuance_date: ledger.timestamp,
                        expiration_date,
                        schema_id: Some(schema_id),
                        revocation: None,
                        proof: Some(proof),
                    }
                },
            },
    {
        match schema {
            SchemaCheck::NotFound => return Err(CredentialIssuerError::SchemaNotFound),
            SchemaCheck::Rejected => return Err(CredentialIssuerError::SchemaValidationFailed),
            SchemaCheck::Accepted => {},
        }
        if !Self::check_type_lengths(&credential_type) {
            return Err(CredentialIssuerError::InvalidCredential);
        }
        if credential_data.len() > MAX_CREDENTIAL_DATA_LENGTH {
            return Err(CredentialIssuerError::InvalidCredential);
        }
        match Self::validate_credential(&credential_data, &credential_type, &proof) {
            Err(e) => return Err(e),
            Ok(()) => {},
        }
        proof {
            reveal_strlit("vc:");
        }
        let id = make_ledger_id(&ascii_vec("vc:"), ledger);
        let credential = VerifiableCredential {
            id: copy_bytes(&id),
            issuer,
            subject,
            type_: credential_type,
            credential_data,
            issuance_date: ledger.timestamp,
            expiration_date,
            schema_id: Some(schema_id),
            revocation: None,
            proof: Some(proof),
        };
        self.store_credential(&id, credential);
        Ok(id)
    }

    /// The stored status of credential `id`, with a missing one counting as
    /// `missing`.
    fn status_of(&self, id: &Bytes, missing: u32) -> (r: u32)
        requires
            self.tables_wf(),
        ensures
            r == if self.status().contains_key(id@) {
                self.status()[id@]
            } else {
                missing
            },
    {
        match self.status.get(id) {
            Some(s) => *s,
            None => missing,
        }
    }

    /// Verify credential `credential_id` at the ledger's time: `NotFound` when
    /// unknown; `false` when revoked or expired; `InvalidSignature` when its
    /// proof is empty; `true` otherwise.
    pub fn verify_credential(&self, ledger: &Ledger, credential_id: &Bytes) -> (r: Result<
        bool,
        CredentialIssuerError,
    >)
        requires
            self.inv(),
        ensures
            r == self.verify_outcome(credential_id@, ledger.timestamp),
    {
        let credential = match self.credentials.get(credential_id) {
            Some(c) => c,
            None => return Err(CredentialIssuerError::NotFound),
        };
        if self.status_of(credential_id, STATUS_ACTIVE) == STATUS_REVOKED {
            return Ok(false);
        }
        if let Some(expiration) = credential.expiration_date {
            if ledger.timestamp > expiration {
                return Ok(false);
            }
        }
        let empty_proof = match &credential.proof {
            Some(p) => p.len() == 0,
            None => false,
        };
        if empty_proof {
            return Err(CredentialIssuerError::InvalidSignature);
        }
        Ok(true)
    }

    /// Revoke credential `credential_id` on behalf of `issuer`, recording the
    /// ledger time as the revocation and `reason`, when given.
    ///
    /// `NotFound` when unknown; `Unauthorized` when `issuer` did not issue
    /// it; `AlreadyRevoked` when it is revoked already.
    pub fn revoke_credential(
        &mut self,
        ledger: &Ledger,
        issuer: &Address,
        credential_id: &Bytes,
        reason: Option<Bytes>,
    ) -> (r: Result<(), CredentialIssuerError>)
        requires
            old(self).inv(),
        ensures
            final(self).inv(),
            r is Err ==> *final(self) == *old(self),
            match old(self).credentials().get(credential_id@) {
                None => r == Err::<(), CredentialIssuerError>(CredentialIssuerError::NotFound),
                Some(c) => if c.issuer@ != issuer@ {
                    r == Err::<(), CredentialIssuerError>(CredentialIssuerError::Unauthorized)
                } else if old(self).status_or_active(credential_id@) == STATUS_REVOKED {
                    r == Err::<(), CredentialIssuerError>(CredentialIssuerError::AlreadyRevoked)
                } else {
                    let nc = final(self).credentials()[credential_id@];
                    &&& r == Ok::<(), CredentialIssuerError>(())
                    &&& final(self).credentials() == old(self).credentials().insert(
                        credential_id@,
                        nc,
                    )
                    &&& nc == VerifiableCredential { revocation: nc.revocation, ..c }
                    &&& nc.revocation matches Some(when) && when@ == decimal(
                        ledger.timestamp as nat,
                    )
                    &&& final(self).status() == old(self).status().insert(
                        credential_id@,
                        STATUS_REVOKED,
                    )
                    &&& final(self).reasons() == match reason {
                        Some(text) => old(self).reasons().insert(credential_id@, text@),
                        None => old(self).reasons(),
                    }
                    &&& final(self).issuer_creds() == old(self).issuer_creds()
                    &&& final(self).subject_creds() == old(self).subject_creds()
                },
            },
    {
        let authorized = match self.credentials.get(credential_id) {
            None => return Err(CredentialIssuerError::NotFound),
            Some(c) => c.issuer.same(issuer),
        };
        if !authorized {
            return Err(CredentialIssuerError::Unauthorized);
        }
        if self.status_of(credential_id, STATUS_ACTIVE) == STATUS_REVOKED {
            return Err(CredentialIssuerError::AlreadyRevoked);
        }
        let ghost old_s = *self;
        let mut credential = match self.credentials.remove(credential_id) {
            Some(c) => c,
            None => return Err(CredentialIssuerError::NotFound),
        };
        credential.revocation = Some(decimal_bytes(ledger.timestamp));
        let ghost nc = credential;
        self.credentials.insert(copy_bytes(credential_id), credential);
        self.status.insert(copy_bytes(credential_id), STATUS_REVOKED);
        let ghost reasons_before = self.reasons.map();
        if let Some(text) = reason {
            self.reasons.insert(copy_bytes(credential_id), text);
            assert(self.reasons() =~= old_s.reasons().insert(credential_id@, text@));
        }
        proof {
            assert(self.credentials() =~= old_s.credentials().insert(credential_id@, nc));
            assert forall|k: Seq<u8>| #[trigger] self.credentials().contains_key(k) implies {
                &&& self.credentials()[k].id@ == k
                &&& self.credentials()[k].proof matches Some(p) && p@.len() > 0
                &&& type_lengths_ok(self.credentials()[k].type_@)
            } by {
                assert(old_s.credentials().contains_key(k));
            }
        }
        Ok(())
    }

    /// Credential `credential_id`, or `NotFound`.
    pub fn get_credential(&self, credential_id: &Bytes) -> (r: Result<
        &VerifiableCredential,
        CredentialIssuerError,
    >)
        requires
            self.inv(),
        ensures
            self.credentials().contains_key(credential_id@) ==> (r matches Ok(c) && *c
                == self.credentials()[credential_id@]),
            !self.credentials().contains_key(credential_id@) ==> r == Err::<
                &VerifiableCredential,
                CredentialIssuerError,
            >(CredentialIssuerError::NotFound),
    {
        match self.credentials.get(credential_id) {
            Some(c) => Ok(c),
            None => Err(CredentialIssuerError::NotFound),
        }
    }

    /// The list stored under `key`, copied, or an empty list.
    fn list_or_empty(lists: &Table<Vec<Bytes>>, key: &Bytes) -> (r: Vec<Bytes>)
        requires
            lists.wf(),
        ensures
            byte_views(r@) == if lists.map().contains_key(key@) {
                byte_views(lists.map()[key@]@)
            } else {
                Seq::empty()
            },
    {
        match lists.get(key) {
            Some(l) => copy_byte_list(l),
            None => {
                let r: Vec<Bytes> = Vec::new();
                assert(byte_views(r@) =~= Seq::<Seq<u8>>::empty());
                r
            },
        }
    }

    /// The ids of the credentials `issuer` issued, oldest first.
    pub fn get_issuer_credentials(&self, issuer: &Address) -> (r: Vec<Bytes>)
        requires
            self.inv(),
        ensures
            byte_views(r@) == if self.issuer_creds().contains_key(issuer@) {
                self.issuer_creds()[issuer@]
            } else {
                Seq::empty()
            },
    {
        Self::list_or_empty(&self.issuer_creds, &issuer.strkey)
    }

    /// The ids of the credentials issued to `subject`, oldest first.
    pub fn get_subject_credentials(&self, subject: &Address) -> (r: Vec<Bytes>)
        requires
            self.inv(),
        ensures
            byte_views(r@) == if self.subject_creds().contains_key(subject@) {
                self.subject_creds()[subject@]
            } else {
                Seq::empty()
            },
    {
        Self::list_or_empty(&self.subject_creds, &subject.strkey)
    }

    /// Page `page` of the ids of the credentials issued to `subject`.
    pub fn get_credentials_by_subject(&self, subject: &Address, page: u32, page_size: u32) -> (r:
        PaginatedCredentials)
        requires
            self.inv(),
            self.subject_creds().contains_key(subject@) ==> self.subject_creds()[subject@].len()
                <= u32::MAX,
            page_in_range(page, page_size),
        ensures
            ({
                let all = if self.subject_creds().contains_key(subject@) {
                    self.subject_creds()[subject@]
                } else {
                    Seq::empty()
                };
                &&& byte_views(r.data@) == page_items(all, page, page_size)
                &&& r.page == page
                &&& r.total == all.len()
                &&& r.has_more == page_has_more(all.len() as int, page, page_size)
            }),
    {
        let all = Self::list_or_empty(&self.subject_creds, &subject.strkey);
        assert(byte_views(all@).len() == all@.len());
        let (data, total, has_more) = paginate_bytes(&all, page, page_size);
        PaginatedCredentials { data, page, total, has_more }
    }

    /// Page `page` of the ids of the credentials `issuer` issued.
    pub fn get_credentials_by_issuer(&self, issuer: &Address, page: u32, page_size: u32) -> (r:
        PaginatedCredentials)
        requires
            self.inv(),
            self.issuer_creds().contains_key(issuer@) ==> self.issuer_creds()[issuer@].len()
                <= u32::MAX,
            page_in_range(page, page_size),
        ensures
            ({
                let all = if self.issuer_creds().contains_key(issuer@) {
                    self.issuer_creds()[issuer@]
                } else {
                    Seq::empty()
                };
                &&& byte_views(r.data@) == page_items(all, page, page_size)
                &&& r.page == page
                &&& r.total == all.len()
                &&& r.has_more == page_has_more(all.len() as int, page, page_size)
            }),
    {
        let all = Self::list_or_empty(&self.issuer_creds, &issuer.strkey);
        assert(byte_views(all@).len() == all@.len());
        let (data, total, has_more) = paginate_bytes(&all, page, page_size);
        PaginatedCredentials { data, page, total, has_more }
    }

    /// The status of credential `credential_id` as text: `active`,
    /// `revoked`, or `unknown` when it has no status.
    pub fn get_credential_status(&self, credential_id: &Bytes) -> (r: Bytes)
        requires
            self.inv(),
        ensures
            r@ == status_text(self.status().get(credential_id@)),
    {
        proof {
            reveal_strlit("active");
            reveal_strlit("revoked");
            reveal_strlit("unknown");
        }
        let status = self.status_of(credential_id, 255);
        if status == STATUS_ACTIVE {
            ascii_vec("active")
        } else if status == STATUS_REVOKED {
            ascii_vec("revoked")
        } else {
            ascii_vec("unknown")
        }
    }

    /// Verify each credential in turn, counting an error as `false`.
    pub fn batch_verify_credentials(&self, ledger: &Ledger, credential_ids: &Vec<Bytes>) -> (r:
        Vec<bool>)
        requires
            self.inv(),
        ensures
            r@.len() == credential_ids@.len(),
            forall|i: int|
                0 <= i < r@.len() ==> r@[i] == (self.verify_outcome(
                    #[trigger] credential_ids@[i]@,
                    ledger.timestamp,
                ) == Ok::<bool, CredentialIssuerError>(true)),
    {
        let mut results: Vec<bool> = Vec::new();
        let n = credential_ids.len();
        let mut i: usize = 0;
        while i < n
            invariant
                self.inv(),
                n == credential_ids@.len(),
                i <= n,
                results@.len() == i,
                forall|j: int|
                    0 <= j < i ==> results@[j] == (self.verify_outcome(
                        #[trigger] credential_ids@[j]@,
                        ledger.timestamp,
                    ) == Ok::<bool, CredentialIssuerError>(true)),
            decreases n - i,
        {
            let valid = match self.verify_credential(ledger, &credential_ids[i]) {
                Ok(b) => b,
                Err(_) => false,
            };
            results.push(valid);
            i = i + 1;
        }
        results
    }

    /// The reason recorded when credential `credential_id` was revoked, if any.
    pub fn get_revocation_reason(&self, credential_id: &Bytes) -> (r: Option<Bytes>)
        requires
            self.inv(),
        ensures
            r is Some <==> self.reasons().contains_key(credential_id@),
            r matches Some(text) ==> text@ == self.reasons()[credential_id@],
    {
        match self.reasons.get(credential_id) {
            Some(text) => Some(copy_bytes(text)),
            None => None,
        }
    }

    /// An unknown credential is `NotFound`, and a stored credential past its
    /// expiration date does not verify.
    pub proof fn law_unknown_or_expired_credential(&self, id: Seq<u8>, now: u64)
        requires
            self.inv(),
        ensures
            !self.credentials().contains_key(id) ==> self.verify_outcome(id, now) == Err::<
                bool,
                CredentialIssuerError,
            >(CredentialIssuerError::NotFound),
            self.credentials().contains_key(id) && (self.credentials()[id].expiration_date matches Some(
                e,
            ) && now > e) ==> self.verify_outcome(id, now) == Ok::<bool, CredentialIssuerError>(false),
    {
    }

    /// A revoked credential does not verify, at any time.
    pub proof fn law_revoked_credential_fails(&self, id: Seq<u8>, now: u64)
        requires
            self.inv(),
            self.credentials().contains_key(id),
            self.status_or_active(id) == STATUS_REVOKED,
        ensures
            self.verify_outcome(id, now) == Ok::<bool, CredentialIssuerError>(false),
    {
    }

    /// A stored credential that is neither revoked nor expired verifies.
    pub proof fn law_live_credential_verifies(&self, id: Seq<u8>, now: u64)
        requires
            self.inv(),
            self.credentials().contains_key(id),
            self.status_or_active(id) != STATUS_REVOKED,
            !(self.credentials()[id].expiration_date matches Some(e) && now > e),
        ensures
            self.verify_outcome(id, now) == Ok::<bool, CredentialIssuerError>(true),
    {
    }

    /// A credential that issuance just stored verifies at every time up to
    /// its expiration.
    pub proof fn law_issued_credential_verifies(
        old: &CredentialIssuer,
        new: &CredentialIssuer,
        id: Seq<u8>,
        issuer: Seq<u8>,
        subject: Seq<u8>,
        now: u64,
    )
        requires
            new.inv(),
            CredentialIssuer::stored(old, new, id, issuer, subject),
            !(new.credentials()[id].expiration_date matches Some(e) && now > e),
        ensures
            new.verify_outcome(id, now) == Ok::<bool, CredentialIssuerError>(true),
    {
        assert(new.credentials().contains_key(id));
        assert(new.status().contains_key(id));
    }

    /// Search by credential type; no index by type is kept, so the result
    /// is always empty.
    pub fn search_credentials_by_type(&self, credential_type: &Bytes, max_results: u32) -> (r: Vec<
        Bytes,
    >)
        ensures
            r@.len() == 0,
    {
        Vec::new()
    }
}

} // verus!
