//! Decentralized identity on Stellar: a DID registry, a verifiable-credential
//! issuer, zero-knowledge attestations, sanctions screening and reputation
//! scores, each kept as a verified model of the contract's stored state.

pub mod bytes;
pub mod table;
pub mod types;
pub mod pagination;
pub mod host;
pub mod did_registry;
pub mod zk_attestation;
pub mod credential_issuer;
pub mod compliance_filter;
pub mod reputation_score;

pub use crate::compliance_filter::ComplianceFilter;
pub use crate::credential_issuer::CredentialIssuer;
pub use crate::did_registry::DIDRegistry;
pub use crate::reputation_score::ReputationScore;
pub use crate::types::{
    Address, Bytes, DIDDocument, Ledger, PaginatedAddresses, PaginatedCircuits, PaginatedCredentials,
    Service, Symbol, VerifiableCredential, VerificationMethod,
};
pub use crate::zk_attestation::{ZKAttestation, ZKAttestationRecord};

use vstd::prelude::*;

verus! {

/// Page size used when a caller asks for a page of size zero.
pub const DEFAULT_PAGE_SIZE: u32 = 10;

/// Largest page size a listing query hands out.
pub const MAX_PAGE_SIZE: u32 = 50;

/// The page size that a listing query actually uses for a requested size.
pub open spec fn spec_clamp_page_size(page_size: u32) -> u32 {
    if page_size == 0 {
        DEFAULT_PAGE_SIZE
    } else if page_size > MAX_PAGE_SIZE {
        MAX_PAGE_SIZE
    } else {
        page_size
    }
}

/// A page holds 10 items when asked for 0, at most 50, and otherwise as
/// many as asked.
pub proof fn law_page_size(page_size: u32)
    ensures
        page_size == 0 ==> spec_clamp_page_size(page_size) == 10,
        1 <= page_size <= 50 ==> spec_clamp_page_size(page_size) == page_size,
        page_size > 50 ==> spec_clamp_page_size(page_size) == 50,
{
}

/// Clamp a requested page size into `1..=MAX_PAGE_SIZE`, with zero meaning the default.
pub fn clamp_page_size(page_size: u32) -> (r: u32)
    ensures
        r == spec_clamp_page_size(page_size),
        1 <= r <= MAX_PAGE_SIZE,
{
    if page_size == 0 {
        DEFAULT_PAGE_SIZE
    } else if page_size > MAX_PAGE_SIZE {
        MAX_PAGE_SIZE
    } else {
        page_size
    }
}

/// The contracts whose addresses the identity hub records.
#[derive(Clone, Copy, Debug, PartialEq, Eq, Structural)]
pub enum StorageKey {
    DidRegistry,
    CredentialIssuer,
    ReputationScore,
    ZkAttestation,
    ComplianceFilter,
}

/// The identity hub: the addresses of the five identity contracts.
pub struct StellarIdentity {
    did_registry: Option<Address>,
    credential_issuer: Option<Address>,
    reputation_score: Option<Address>,
    zk_attestation: Option<Address>,
    compliance_filter: Option<Address>,
}

impl StellarIdentity {
    /// The address recorded for `key`, if any.
    pub closed spec fn recorded(&self, key: StorageKey) -> Option<Address> {
        match key {
            StorageKey::DidRegistry => self.did_registry,
            StorageKey::CredentialIssuer => self.credential_issuer,
            StorageKey::ReputationScore => self.reputation_score,
            StorageKey::ZkAttestation => self.zk_attestation,
            StorageKey::ComplianceFilter => self.compliance_filter,
        }
    }

    /// A hub with no addresses recorded.
    pub fn new() -> (r: StellarIdentity)
        ensures
            forall|k: StorageKey| #[trigger] r.recorded(k) is None,
    {
        StellarIdentity {
            did_registry: None,
            credential_issuer: None,
            reputation_score: None,
            zk_attestation: None,
            compliance_filter: None,
        }
    }

    /// Record the five contract addresses, replacing any recorded before.
    pub fn initialize(
        &mut self,
        did_registry_address: Address,
        credential_issuer_address: Address,
        reputation_score_address: Address,
        zk_attestation_address: Address,
        compliance_filter_address: Address,
    )
        ensures
            final(self).recorded(StorageKey::DidRegistry) == Some(did_registry_address),
            final(self).recorded(StorageKey::CredentialIssuer) == Some(credential_issuer_address),
            final(self).recorded(StorageKey::ReputationScore) == Some(reputation_score_address),
            final(self).recorded(StorageKey::ZkAttestation) == Some(zk_attestation_address),
            final(self).recorded(StorageKey::ComplianceFilter) == Some(compliance_filter_address),
    {
        self.did_registry = Some(did_registry_address);
        self.credential_issuer = Some(credential_issuer_address);
        self.reputation_score = Some(reputation_score_address);
        self.zk_attestation = Some(zk_attestation_address);
        self.compliance_filter = Some(compliance_filter_address);
    }

    /// The address recorded for `key`, if any.
    pub fn get_address(&self, key: StorageKey) -> (r: Option<&Address>)
        ensures
            match self.recorded(key) {
                Some(a) => r matches Some(b) && *b == a,
                None => r is None,
            },
    {
        match key {
            StorageKey::DidRegistry => self.did_registry.as_ref(),
            StorageKey::CredentialIssuer => self.credential_issuer.as_ref(),
            StorageKey::ReputationScore => self.reputation_score.as_ref(),
            StorageKey::ZkAttestation => self.zk_attestation.as_ref(),
            StorageKey::ComplianceFilter => self.compliance_filter.as_ref(),
        }
    }

    /// The DID registry's address, if recorded.
    pub fn get_did_registry_address(&self) -> (r: Option<&Address>)
        ensures
            match self.recorded(StorageKey::DidRegistry) {
                Some(a) => r matches Some(b) && *b == a,
                None => r is None,
            },
    {
        self.get_address(StorageKey::DidRegistry)
    }

    /// The credential issuer's address, if recorded.
    pub fn get_credential_issuer_address(&self) -> (r: Option<&Address>)
        ensures
            match self.recorded(StorageKey::CredentialIssuer) {
                Some(a) => r matches Some(b) && *b == a,
                None => r is None,
            },
    {
        self.get_address(StorageKey::CredentialIssuer)
    }

    /// The reputation contract's address, if recorded.
    pub fn get_reputation_score_address(&self) -> (r: Option<&Address>)
        ensures
            match self.recorded(StorageKey::ReputationScore) {
                Some(a) => r matches Some(b) && *b == a,
                None => r is None,
            },
    {
        self.get_address(StorageKey::ReputationScore)
    }

    /// The attestation contract's address, if recorded.
    pub fn get_zk_attestation_address(&self) -> (r: Option<&Address>)
        ensures
            match self.recorded(StorageKey::ZkAttestation) {
                Some(a) => r matches Some(b) && *b == a,
                None => r is None,
            },
    {
        self.get_address(StorageKey::ZkAttestation)
    }

    /// The compliance filter's address, if recorded.
    pub fn get_compliance_filter_address(&self) -> (r: Option<&Address>)
        ensures
            match self.recorded(StorageKey::ComplianceFilter) {
                Some(a) => r matches Some(b) && *b == a,
                None => r is None,
            },
    {
        self.get_address(StorageKey::ComplianceFilter)
    }
}

} // verus!
