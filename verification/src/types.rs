//! Records shared by the contracts: account addresses, DID documents,
//! verifiable credentials, ledger information and paginated listings.

use vstd::prelude::*;
use crate::bytes::{ascii, ascii_vec, bytes_eq, concat, copy_bytes, decimal, decimal_bytes};

verus! {

/// A byte string, as stored on the ledger.
pub type Bytes = Vec<u8>;

/// A short identifier (a contract symbol), held by its bytes.
pub type Symbol = Vec<u8>;

/// A Stellar account or contract address, held by its strkey text
/// (`G...` for accounts, `C...` for contracts).
#[derive(Clone, Debug)]
pub struct Address {
    pub strkey: Vec<u8>,
}

impl View for Address {
    type V = Seq<u8>;

    open spec fn view(&self) -> Seq<u8> {
        self.strkey@
    }
}

impl Address {
    /// The address with the given strkey text.
    pub fn new(strkey: Vec<u8>) -> (r: Address)
        ensures
            r@ == strkey@,
    {
        Address { strkey }
    }

    /// Whether two addresses are the same address.
    pub fn same(&self, other: &Address) -> (r: bool)
        ensures
            r == (self@ == other@),
    {
        bytes_eq(&self.strkey, &other.strkey)
    }

    /// A fresh copy of this address.
    pub fn copy(&self) -> (r: Address)
        ensures
            r@ == self@,
    {
        Address { strkey: copy_bytes(&self.strkey) }
    }
}

/// What the ledger reports at the time of a call.
#[derive(Clone, Copy, Debug)]
pub struct Ledger {
    /// Close time of the ledger, in seconds since the Unix epoch.
    pub timestamp: u64,
    /// Sequence number of the ledger.
    pub sequence: u32,
}

/// The identifier that a contract derives from the ledger for a new record:
/// `prefix`, the ledger timestamp, `:` and the ledger sequence number, the
/// two numbers in decimal.
pub open spec fn ledger_id(prefix: Seq<u8>, ledger: Ledger) -> Seq<u8> {
    prefix + decimal(ledger.timestamp as nat) + ascii(":"@) + decimal(ledger.sequence as nat)
}

/// Build `ledger_id(prefix, ledger)`.
pub fn make_ledger_id(prefix: &Vec<u8>, ledger: &Ledger) -> (r: Vec<u8>)
    ensures
        r@ == ledger_id(prefix@, *ledger),
{
    proof {
        reveal_strlit(":");
    }
    let colon = ascii_vec(":");
    let ts = decimal_bytes(ledger.timestamp);
    let seq = decimal_bytes(ledger.sequence as u64);
    let a = concat(prefix, &ts);
    let b = concat(&a, &colon);
    concat(&b, &seq)
}

/// A public key by which a DID subject can be authenticated.
#[derive(Clone, Debug)]
pub struct VerificationMethod {
    pub id: Bytes,
    pub type_: Bytes,
    pub controller: Address,
    pub public_key: [u8; 32],
}

/// A service endpoint advertised by a DID document.
#[derive(Clone, Debug)]
pub struct Service {
    pub id: Bytes,
    pub type_: Bytes,
    pub endpoint: Bytes,
}

/// A W3C DID document as kept by the registry.
#[derive(Clone, Debug)]
pub struct DIDDocument {
    pub id: Bytes,
    pub controller: Address,
    pub verification_method: Vec<VerificationMethod>,
    pub authentication: Vec<Bytes>,
    pub service: Vec<Service>,
    pub created: u64,
    pub updated: u64,
    pub deactivated: bool,
}

/// A verifiable credential as kept by the issuer.
#[derive(Clone, Debug)]
pub struct VerifiableCredential {
    pub id: Bytes,
    pub issuer: Address,
    pub subject: Address,
    pub type_: Vec<Bytes>,
    pub credential_data: Bytes,
    pub issuance_date: u64,
    pub expiration_date: Option<u64>,
    pub schema_id: Option<Bytes>,
    pub revocation: Option<Bytes>,
    pub proof: Option<Bytes>,
}

/// One page of credential identifiers.
#[derive(Clone, Debug)]
pub struct PaginatedCredentials {
    pub data: Vec<Bytes>,
    pub page: u32,
    pub total: u32,
    pub has_more: bool,
}

/// One page of addresses.
#[derive(Clone, Debug)]
pub struct PaginatedAddresses {
    pub data: Vec<Address>,
    pub page: u32,
    pub total: u32,
    pub has_more: bool,
}

/// One page of circuit identifiers.
#[derive(Clone, Debug)]
pub struct PaginatedCircuits {
    pub data: Vec<Symbol>,
    pub page: u32,
    pub total: u32,
    pub has_more: bool,
}

} // verus!
