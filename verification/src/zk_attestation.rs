//! Zero-knowledge attestations: registered circuits, submitted proofs,
//! spent nullifiers and the attestation records derived from proofs.

use vstd::prelude::*;
use soroban_sdk::Env;
use crate::bytes::{ascii, ascii_vec, byte_views, bytes_eq, copy_byte_list, copy_bytes, list_contains, no_duplicate_bytes};
use crate::host::{sha256, spec_sha256};
use crate::pagination::{page_has_more, page_in_range, page_items, paginate_bytes};
use crate::table::{distinct_keys, entries_map, lemma_entries_map_index, lemma_entries_map_key, list_views, Table};
use crate::types::{ledger_id, make_ledger_id, Address, Bytes, Ledger, PaginatedCircuits, Symbol};

verus! {

/// Errors of the attestation contract.
#[derive(Clone, Copy, Debug, PartialEq, Eq, PartialOrd, Ord, Structural)]
pub enum ZKAttestationError {
    InvalidProof,
    NotFound,
    Unauthorized,
    InvalidCircuit,
    VerificationFailed,
    Expired,
    NullifierAlreadyUsed,
    InvalidPublicInputs,
    CircuitDeactivated,
    RevokedCredential,
}

/// The kind of statement a circuit proves.
#[derive(Clone, Copy, Debug, PartialEq, Eq, Structural)]
pub enum CircuitType {
    RangeProof,
    SetMembership,
    CredentialOwnership,
    CompositeProof,
    EqualityProof,
}

/// A proof submitted against a circuit.
#[derive(Clone, Debug)]
pub struct ZKProof {
    pub proof_id: Bytes,
    pub circuit_id: Symbol,
    pub public_inputs: Vec<Bytes>,
    pub proof_bytes: Bytes,
    pub verifying_key_hash: Bytes,
    pub nullifier: Bytes,
    pub verifier_address: Address,
    pub created_at: u64,
    pub expires_at: Option<u64>,
    pub metadata: Vec<(Symbol, Bytes)>,
    pub revealed_attributes: Vec<Symbol>,
}

/// A registered verification circuit.
#[derive(Clone, Debug)]
pub struct ZKCircuit {
    pub circuit_id: Symbol,
    pub name: Bytes,
    pub description: Bytes,
    pub verifier_key: Bytes,
    pub verifying_key_hash: Bytes,
    pub public_input_count: u32,
    pub private_input_count: u32,
    pub created_by: Address,
    pub created_at: u64,
    pub active: bool,
    pub circuit_type: CircuitType,
    pub supported_attributes: Vec<Symbol>,
}

/// The attestation derived from an accepted proof.
#[derive(Clone, Debug)]
pub struct ZKAttestationRecord {
    pub credential_id: Bytes,
    pub proof_hash: Bytes,
    pub nullifier: Bytes,
    pub revealed_attributes: Vec<Symbol>,
    pub circuit_id: Symbol,
    pub created_at: u64,
    pub expires_at: Option<u64>,
}

/// The record of a spent nullifier.
#[derive(Clone, Debug)]
pub struct NullifierRecord {
    pub nullifier: Bytes,
    pub used_at: u64,
    pub context: Bytes,
    pub proof_id: Bytes,
}

/// The value stored under key `key` in a key-value list, taking the first
/// entry with that key.
pub open spec fn lookup(entries: Seq<(Symbol, Bytes)>, key: Seq<u8>) -> Option<Seq<u8>>
    decreases entries.len(),
{
    if entries.len() == 0 {
        None
    } else if entries[0].0@ == key {
        Some(entries[0].1@)
    } else {
        lookup(entries.drop_first(), key)
    }
}

/// The context that a nullifier record keeps: the metadata's `context`
/// entry, or `default`.
pub open spec fn nullifier_context(metadata: Seq<(Symbol, Bytes)>) -> Seq<u8> {
    match lookup(metadata, ascii("context"@)) {
        Some(c) => c,
        None => ascii("default"@),
    }
}

/// The outcome of checking a proof against a verifier key.  The check only
/// requires both to be non-empty.
pub open spec fn zk_check(verifier_key: Seq<u8>, proof_bytes: Seq<u8>) -> Result<bool, ZKAttestationError> {
    if proof_bytes.len() == 0 {
        Err(ZKAttestationError::InvalidProof)
    } else if verifier_key.len() == 0 {
        Err(ZKAttestationError::InvalidCircuit)
    } else {
        Ok(true)
    }
}

/// Whether a proof that expires at `expires_at` has expired at time `now`.
pub open spec fn expired(expires_at: Option<u64>, now: u64) -> bool {
    match expires_at {
        Some(e) => now > e,
        None => false,
    }
}

/// The identifier `submit_proof` gives a proof accepted in `ledger`.
pub open spec fn proof_id_for(ledger: Ledger) -> Seq<u8> {
    ledger_id(ascii("zk:"@), ledger)
}

/// The contract's stored state as lists of entries, for keeping it in
/// ledger storage between calls.
pub struct ZKAttestationParts {
    /// The contract's own address.
    pub contract: Address,
    /// Circuits, each under its id.
    pub circuits: Vec<(Bytes, ZKCircuit)>,
    /// Proofs, each under its id.
    pub proofs: Vec<(Bytes, ZKProof)>,
    /// Nullifier records, each under its nullifier.
    pub nullifiers: Vec<(Bytes, NullifierRecord)>,
    /// Proof ids by circuit id.
    pub circuit_proofs: Vec<(Bytes, Vec<Bytes>)>,
    /// Attestations, by proof id.
    pub attestations: Vec<(Bytes, ZKAttestationRecord)>,
    /// Registered circuit ids, in order of registration.
    pub active_circuits: Vec<Symbol>,
}

impl ZKAttestationParts {
    /// The circuits that the parts hold.
    pub open spec fn circuits(&self) -> Map<Seq<u8>, ZKCircuit> {
        entries_map(self.circuits@)
    }

    /// The proofs that the parts hold.
    pub open spec fn proofs(&self) -> Map<Seq<u8>, ZKProof> {
        entries_map(self.proofs@)
    }

    /// The nullifier records that the parts hold.
    pub open spec fn nullifiers(&self) -> Map<Seq<u8>, NullifierRecord> {
        entries_map(self.nullifiers@)
    }

    /// The circuits' proof lists that the parts hold.
    pub open spec fn circuit_proofs(&self) -> Map<Seq<u8>, Seq<Seq<u8>>> {
        list_views(entries_map(self.circuit_proofs@))
    }

    /// The attestations that the parts hold.
    pub open spec fn attestations(&self) -> Map<Seq<u8>, ZKAttestationRecord> {
        entries_map(self.attestations@)
    }

    /// The parts describe a contract that keeps the contract's invariant.
    pub open spec fn valid(&self) -> bool {
        &&& distinct_keys(self.circuits@)
        &&& distinct_keys(self.proofs@)
        &&& distinct_keys(self.nullifiers@)
        &&& distinct_keys(self.circuit_proofs@)
        &&& distinct_keys(self.attestations@)
        &&& forall|c: Seq<u8>| #[trigger]
            self.circuits().contains_key(c) ==> self.circuits()[c].circuit_id@ == c
                && self.circuits()[c].created_by@ == self.contract@
        &&& forall|p: Seq<u8>| #[trigger]
            self.proofs().contains_key(p) ==> {
                let proof = self.proofs()[p];
                &&& proof.proof_id@ == p
                &&& proof.proof_bytes@.len() > 0
                &&& self.circuits().contains_key(proof.circuit_id@)
                &&& self.circuits()[proof.circuit_id@].verifier_key@.len() > 0
            }
        &&& forall|n: Seq<u8>| #[trigger]
            self.nullifiers().contains_key(n) ==> self.nullifiers()[n].nullifier@ == n
        &&& byte_views(self.active_circuits@).no_duplicates()
        &&& forall|c: Seq<u8>|
            self.circuits().contains_key(c) <==> #[trigger] byte_views(self.active_circuits@).contains(c)
    }
}

/// The attestation contract's stored state.
pub struct ZKAttestation {
    contract: Address,
    circuits: Table<ZKCircuit>,
    proofs: Table<ZKProof>,
    nullifiers: Table<NullifierRecord>,
    circuit_proofs: Table<Vec<Bytes>>,
    attestations: Table<ZKAttestationRecord>,
    active_circuits: Vec<Symbol>,
}

impl ZKAttestation {
    /// The address of the contract itself.
    pub closed spec fn contract(&self) -> Seq<u8> {
        self.contract@
    }

    /// Registered circuits, keyed by circuit id.
    pub closed spec fn circuits(&self) -> Map<Seq<u8>, ZKCircuit> {
        self.circuits.map()
    }

    /// Accepted proofs, keyed by proof id.
    pub closed spec fn proofs(&self) -> Map<Seq<u8>, ZKProof> {
        self.proofs.map()
    }

    /// Spent nullifiers.
    pub closed spec fn nullifiers(&self) -> Map<Seq<u8>, NullifierRecord> {
        self.nullifiers.map()
    }

    /// For each circuit, the ids of the proofs accepted against it, in order.
    pub closed spec fn circuit_proofs(&self) -> Map<Seq<u8>, Seq<Seq<u8>>> {
        self.circuit_proofs.map().map_values(|l: Vec<Bytes>| byte_views(l@))
    }

    /// Attestations, keyed by proof id.
    pub closed spec fn attestations(&self) -> Map<Seq<u8>, ZKAttestationRecord> {
        self.attestations.map()
    }

    /// Ids of the registered circuits, in order of registration.
    pub closed spec fn active_circuits(&self) -> Seq<Seq<u8>> {
        byte_views(self.active_circuits@)
    }

    /// The underlying tables are well formed.
    pub closed spec fn tables_wf(&self) -> bool {
        &&& self.circuits.wf()
        &&& self.proofs.wf()
        &&& self.nullifiers.wf()
        &&& self.circuit_proofs.wf()
        &&& self.attestations.wf()
    }

    /// The contract's invariant: records are stored under their own ids,
    /// every circuit was created by this contract, every stored proof names a
    /// registered circuit with a non-empty verifier key and has non-empty
    /// proof bytes, and the circuit list holds each registered circuit once.
    pub open spec fn inv(&self) -> bool {
        &&& self.tables_wf()
        &&& forall|c: Seq<u8>| #[trigger]
            self.circuits().contains_key(c) ==> self.circuits()[c].circuit_id@ == c
                && self.circuits()[c].created_by@ == self.contract()
        &&& forall|p: Seq<u8>| #[trigger]
            self.proofs().contains_key(p) ==> {
                let proof = self.proofs()[p];
                &&& proof.proof_id@ == p
                &&& proof.proof_bytes@.len() > 0
                &&& self.circuits().contains_key(proof.circuit_id@)
                &&& self.circuits()[proof.circuit_id@].verifier_key@.len() > 0
            }
        &&& forall|n: Seq<u8>| #[trigger]
            self.nullifiers().contains_key(n) ==> self.nullifiers()[n].nullifier@ == n
        &&& self.active_circuits().no_duplicates()
        &&& forall|c: Seq<u8>|
            self.circuits().contains_key(c) <==> #[trigger] self.active_circuits().contains(c)
    }

    /// What every change keeps: circuits, proofs, nullifiers and
    /// attestations are never removed, a circuit changes only in its active
    /// flag, and a spent nullifier's record never changes.
    pub open spec fn keeps_history(old: &ZKAttestation, new: &ZKAttestation) -> bool {
        &&& new.contract() == old.contract()
        &&& forall|c: Seq<u8>| #[trigger]
            old.circuits().contains_key(c) ==> new.circuits().contains_key(c) && new.circuits()[c]
                == (ZKCircuit { active: new.circuits()[c].active, ..old.circuits()[c] })
        &&& forall|p: Seq<u8>| #[trigger]
            old.proofs().contains_key(p) ==> new.proofs().contains_key(p)
        &&& forall|n: Seq<u8>| #[trigger]
            old.nullifiers().contains_key(n) ==> new.nullifiers().contains_key(n)
                && new.nullifiers()[n] == old.nullifiers()[n]
        &&& forall|p: Seq<u8>| #[trigger]
            old.attestations().contains_key(p) ==> new.attestations().contains_key(p)
    }

    /// The outcome of the checks `submit_proof` makes before it stores anything.
    pub open spec fn submit_check(
        &self,
        circuit_id: Seq<u8>,
        input_count: int,
        proof_bytes: Seq<u8>,
        nullifier: Seq<u8>,
    ) -> Result<(), ZKAttestationError> {
        if !self.circuits().contains_key(circuit_id) {
            Err(ZKAttestationError::InvalidCircuit)
        } else if !self.circuits()[circuit_id].active {
            Err(ZKAttestationError::CircuitDeactivated)
        } else if input_count != self.circuits()[circuit_id].public_input_count {
            Err(ZKAttestationError::InvalidPublicInputs)
        } else if self.nullifiers().contains_key(nullifier) {
            Err(ZKAttestationError::NullifierAlreadyUsed)
        } else {
            match zk_check(self.circuits()[circuit_id].verifier_key@, proof_bytes) {
                Err(e) => Err(e),
                Ok(_) => Ok(()),
            }
        }
    }

    /// The outcome of `verify_proof` for the proof stored under `proof_id`.
    pub open spec fn verify_outcome(&self, proof_id: Seq<u8>, now: u64) -> Result<bool, ZKAttestationError> {
        if !self.proofs().contains_key(proof_id) {
            Err(ZKAttestationError::NotFound)
        } else if expired(self.proofs()[proof_id].expires_at, now) {
            Ok(false)
        } else if !self.circuits().contains_key(self.proofs()[proof_id].circuit_id@) {
            Err(ZKAttestationError::InvalidCircuit)
        } else {
            zk_check(
                self.circuits()[self.proofs()[proof_id].circuit_id@].verifier_key@,
                self.proofs()[proof_id].proof_bytes@,
            )
        }
    }

    /// A contract at address `contract` with nothing registered.
    pub fn new(contract: Address) -> (r: ZKAttestation)
        ensures
            r.inv(),
            r.contract() == contract@,
            r.circuits() == Map::<Seq<u8>, ZKCircuit>::empty(),
            r.proofs() == Map::<Seq<u8>, ZKProof>::empty(),
            r.nullifiers() == Map::<Seq<u8>, NullifierRecord>::empty(),
            r.circuit_proofs() == Map::<Seq<u8>, Seq<Seq<u8>>>::empty(),
            r.attestations() == Map::<Seq<u8>, ZKAttestationRecord>::empty(),
            r.active_circuits() == Seq::<Seq<u8>>::empty(),
    {
        let r = ZKAttestation {
            contract,
            circuits: Table::new(),
            proofs: Table::new(),
            nullifiers: Table::new(),
            circuit_proofs: Table::new(),
            attestations: Table::new(),
            active_circuits: Vec::new(),
        };
        assert(r.circuit_proofs() =~= Map::<Seq<u8>, Seq<Seq<u8>>>::empty());
        assert(r.active_circuits() =~= Seq::<Seq<u8>>::empty());
        r
    }


    /// The contract's state as lists of entries.
    pub fn into_parts(self) -> (r: ZKAttestationParts)
        requires
            self.inv(),
        ensures
            r.valid(),
            r.contract@ == self.contract(),
            r.circuits() == self.circuits(),
            r.proofs() == self.proofs(),
            r.nullifiers() == self.nullifiers(),
            r.circuit_proofs() == self.circuit_proofs(),
            r.attestations() == self.attestations(),
            byte_views(r.active_circuits@) == self.active_circuits(),
    {
        let ghost s = self;
        let ZKAttestation {
            contract,
            circuits,
            proofs,
            nullifiers,
            circuit_proofs,
            attestations,
            active_circuits,
        } = self;
        let r = ZKAttestationParts {
            contract,
            circuits: circuits.into_entries(),
            proofs: proofs.into_entries(),
            nullifiers: nullifiers.into_entries(),
            circuit_proofs: circuit_proofs.into_entries(),
            attestations: attestations.into_entries(),
            active_circuits,
        };
        assert(r.circuits() == s.circuits());
        assert(r.proofs() == s.proofs());
        assert(r.nullifiers() == s.nullifiers());
        assert(r.circuit_proofs() =~= s.circuit_proofs());
        r
    }

    /// The contract that `parts` describe, when they keep its invariant.
    pub fn from_parts(parts: ZKAttestationParts) -> (r: Option<ZKAttestation>)
        ensures
            r is Some <==> parts.valid(),
            r matches Some(zk) ==> {
                &&& zk.inv()
                &&& zk.contract() == parts.contract@
                &&& zk.circuits() == parts.circuits()
                &&& zk.proofs() == parts.proofs()
                &&& zk.nullifiers() == parts.nullifiers()
                &&& zk.circuit_proofs() == parts.circuit_proofs()
                &&& zk.attestations() == parts.attestations()
                &&& zk.active_circuits() == byte_views(parts.active_circuits@)
            },
    {
        let ghost p = parts;
        let ghost active = byte_views(parts.active_circuits@);
        if !no_duplicate_bytes(&parts.active_circuits) {
            return None;
        }
        let n = parts.circuits.len();
        let mut i: usize = 0;
        while i < n
            invariant
                parts == p,
                active == byte_views(p.active_circuits@),
                n == parts.circuits@.len(),
                i <= n,
                forall|j: int|
                    0 <= j < i ==> {
                        let e = #[trigger] parts.circuits@[j];
                        &&& e.0@ == e.1.circuit_id@
                        &&& e.1.created_by@ == p.contract@
                        &&& active.contains(e.0@)
                    },
            decreases n - i,
        {
            let e = &parts.circuits[i];
            let ok = bytes_eq(&e.0, &e.1.circuit_id) && e.1.created_by.same(&parts.contract)
                && list_contains(&parts.active_circuits, &e.0);
            if !ok {
                proof {
                    if distinct_keys(parts.circuits@) {
                        lemma_entries_map_index(parts.circuits@, i as int);
                        assert(p.circuits().contains_key(parts.circuits@[i as int].0@));
                    }
                    assert(!p.valid());
                }
                return None;
            }
            i = i + 1;
        }
        let circuits = match Table::from_entries(parts.circuits) {
            Some(t) => t,
            None => return None,
        };
        let m = parts.active_circuits.len();
        let mut k: usize = 0;
        while k < m
            invariant
                parts == p,
                active == byte_views(p.active_circuits@),
                m == active.len(),
                k <= m,
                circuits.wf(),
                circuits.map() == p.circuits(),
                forall|j: int| 0 <= j < k ==> p.circuits().contains_key(#[trigger] active[j]),
            decreases m - k,
        {
            if !circuits.contains_key(&parts.active_circuits[k]) {
                proof {
                    assert(active[k as int] == parts.active_circuits@[k as int]@);
                    assert(active.contains(active[k as int]));
                    assert(!p.valid());
                }
                return None;
            }
            k = k + 1;
        }
        let q = parts.proofs.len();
        let mut j: usize = 0;
        while j < q
            invariant
                parts == p,
                q == parts.proofs@.len(),
                j <= q,
                circuits.wf(),
                circuits.map() == p.circuits(),
                forall|t: int|
                    0 <= t < j ==> {
                        let e = #[trigger] parts.proofs@[t];
                        &&& e.0@ == e.1.proof_id@
                        &&& e.1.proof_bytes@.len() > 0
                        &&& p.circuits().contains_key(e.1.circuit_id@)
                        &&& p.circuits()[e.1.circuit_id@].verifier_key@.len() > 0
                    },
            decreases q - j,
        {
            let e = &parts.proofs[j];
            let key_ok = match circuits.get(&e.1.circuit_id) {
                Some(c) => c.verifier_key.len() > 0,
                None => false,
            };
            let ok = bytes_eq(&e.0, &e.1.proof_id) && e.1.proof_bytes.len() > 0 && key_ok;
            if !ok {
                proof {
                    if distinct_keys(parts.proofs@) {
                        lemma_entries_map_index(parts.proofs@, j as int);
                        assert(p.proofs().contains_key(parts.proofs@[j as int].0@));
                    }
                    assert(!p.valid());
                }
                return None;
            }
            j = j + 1;
        }
        let u = parts.nullifiers.len();
        let mut t: usize = 0;
        while t < u
            invariant
                parts == p,
                u == parts.nullifiers@.len(),
                t <= u,
                forall|x: int|
                    0 <= x < t ==> (#[trigger] parts.nullifiers@[x]).0@ == parts.nullifiers@[x].1.nullifier@,
            decreases u - t,
        {
            if !bytes_eq(&parts.nullifiers[t].0, &parts.nullifiers[t].1.nullifier) {
                proof {
                    if distinct_keys(parts.nullifiers@) {
                        lemma_entries_map_index(parts.nullifiers@, t as int);
                        assert(p.nullifiers().contains_key(parts.nullifiers@[t as int].0@));
                    }
                    assert(!p.valid());
                }
                return None;
            }
            t = t + 1;
        }
        let proofs = match Table::from_entries(parts.proofs) {
            Some(tb) => tb,
            None => return None,
        };
        let nullifiers = match Table::from_entries(parts.nullifiers) {
            Some(tb) => tb,
            None => return None,
        };
        let circuit_proofs = match Table::from_entries(parts.circuit_proofs) {
            Some(tb) => tb,
            None => return None,
        };
        let attestations = match Table::from_entries(parts.attestations) {
            Some(tb) => tb,
            None => return None,
        };
        let zk = ZKAttestation {
            contract: parts.contract,
            circuits,
            proofs,
            nullifiers,
            circuit_proofs,
            attestations,
            active_circuits: parts.active_circuits,
        };
        proof {
            assert(zk.circuit_proofs() =~= p.circuit_proofs());
            assert forall|c: Seq<u8>| #[trigger] p.circuits().contains_key(c) implies p.circuits()[c].circuit_id@
                == c && p.circuits()[c].created_by@ == p.contract@ by {
                let x = lemma_entries_map_key(p.circuits@, c);
            }
            assert forall|c: Seq<u8>| p.circuits().contains_key(c) <==> #[trigger] active.contains(c) by {
                if p.circuits().contains_key(c) {
                    let x = lemma_entries_map_key(p.circuits@, c);
                }
                if active.contains(c) {
                    let x = choose|x: int| 0 <= x < active.len() && active[x] == c;
                }
            }
            assert forall|pid: Seq<u8>| #[trigger] p.proofs().contains_key(pid) implies {
                let proof = p.proofs()[pid];
                &&& proof.proof_id@ == pid
                &&& proof.proof_bytes@.len() > 0
                &&& p.circuits().contains_key(proof.circuit_id@)
                &&& p.circuits()[proof.circuit_id@].verifier_key@.len() > 0
            } by {
                let x = lemma_entries_map_key(p.proofs@, pid);
            }
            assert forall|nl: Seq<u8>| #[trigger] p.nullifiers().contains_key(nl) implies p.nullifiers()[nl].nullifier@
                == nl by {
                let x = lemma_entries_map_key(p.nullifiers@, nl);
            }
            assert(zk.contract() == p.contract@);
            assert(zk.active_circuits() == active);
            assert(zk.circuits() == p.circuits());
            assert(zk.proofs() == p.proofs());
            assert(zk.nullifiers() == p.nullifiers());
            assert(zk.attestations() == p.attestations());
            assert(zk.tables_wf());
        }
        Some(zk)
    }

    /// Register a circuit under `circuit_id`, created by this contract and
    /// active, with the SHA-256 of its verifier key.  A circuit id that is
    /// already registered gives `InvalidCircuit`.
    pub fn register_circuit(
        &mut self,
        env: &Env,
        ledger: &Ledger,
        circuit_id: Symbol,
        name: Bytes,
        description: Bytes,
        verifier_key: Bytes,
        public_input_count: u32,
        private_input_count: u32,
        circuit_type: CircuitType,
        supported_attributes: Vec<Symbol>,
    ) -> (r: Result<(), ZKAttestationError>)
        requires
            old(self).inv(),
        ensures
            final(self).inv(),
            ZKAttestation::keeps_history(old(self), final(self)),
            old(self).circuits().contains_key(circuit_id@) ==> r == Err::<(), ZKAttestationError>(
                ZKAttestationError::InvalidCircuit,
            ) && *final(self) == *old(self),
            !old(self).circuits().contains_key(circuit_id@) ==> {
                let c = final(self).circuits()[circuit_id@];
                &&& r == Ok::<(), ZKAttestationError>(())
                &&& final(self).circuits() == old(self).circuits().insert(circuit_id@, c)
                &&& c == ZKCircuit {
                    circuit_id: c.circuit_id,
                    verifying_key_hash: c.verifying_key_hash,
                    created_by: c.created_by,
                    name,
                    description,
                    verifier_key,
                    public_input_count,
                    private_input_count,
                    created_at: ledger.timestamp,
                    active: true,
                    circuit_type,
                    supported_attributes,
                }
                &&& c.circuit_id@ == circuit_id@
                &&& c.verifying_key_hash@ == spec_sha256(verifier_key@)
                &&& c.created_by@ == old(self).contract()
                &&& final(self).active_circuits() == old(self).active_circuits().push(circuit_id@)
                &&& final(self).proofs() == old(self).proofs()
                &&& final(self).nullifiers() == old(self).nullifiers()
                &&& final(self).circuit_proofs() == old(self).circuit_proofs()
                &&& final(self).attestations() == old(self).attestations()
            },
    {
        if self.circuits.contains_key(&circuit_id) {
            return Err(ZKAttestationError::InvalidCircuit);
        }
        let ghost old_s = *self;
        let verifying_key_hash = sha256(env, &verifier_key);
        let key = copy_bytes(&circuit_id);
        let listed = copy_bytes(&circuit_id);
        let circuit = ZKCircuit {
            circuit_id,
            name,
            description,
            verifier_key,
            verifying_key_hash,
            public_input_count,
            private_input_count,
            created_by: self.contract.copy(),
            created_at: ledger.timestamp,
            active: true,
            circuit_type,
            supported_attributes,
        };
        let ghost c = circuit;
        self.circuits.insert(key, circuit);
        let ghost before = self.active_circuits@;
        self.active_circuits.push(listed);
        proof {
            let k = c.circuit_id@;
            assert(self.active_circuits@ == before.push(listed));
            assert(self.active_circuits() =~= old_s.active_circuits().push(k));
            assert(self.circuits()[k] == c);
            assert(!old_s.active_circuits().contains(k));
            assert forall|x: Seq<u8>| #[trigger] self.circuits().contains_key(x) implies self.circuits()[x].circuit_id@
                == x && self.circuits()[x].created_by@ == self.contract() by {
                if x != k {
                    assert(old_s.circuits().contains_key(x));
                }
            }
            assert forall|i: int, j: int|
                0 <= i < self.active_circuits().len() && 0 <= j < self.active_circuits().len() && i
                    != j implies self.active_circuits()[i] != self.active_circuits()[j] by {
                let n = old_s.active_circuits().len() as int;
                if i == n {
                    assert(old_s.active_circuits()[j] == self.active_circuits()[j]);
                } else if j == n {
                    assert(old_s.active_circuits()[i] == self.active_circuits()[i]);
                }
            }
            assert forall|x: Seq<u8>|
                self.circuits().contains_key(x) <==> #[trigger] self.active_circuits().contains(x) by {
                if self.active_circuits().contains(x) && x != k {
                    let i = choose|i: int|
                        0 <= i < self.active_circuits().len() && self.active_circuits()[i] == x;
                    assert(old_s.active_circuits()[i] == x);
                    assert(old_s.active_circuits().contains(x));
                }
                if self.circuits().contains_key(x) && x != k {
                    assert(old_s.circuits().contains_key(x));
                    assert(old_s.active_circuits().contains(x));
                    let i = choose|i: int|
                        0 <= i < old_s.active_circuits().len() && old_s.active_circuits()[i] == x;
                    assert(self.active_circuits()[i] == x);
                }
                if x == k {
                    assert(self.active_circuits()[old_s.active_circuits().len() as int] == x);
                }
            }
            assert forall|p: Seq<u8>| #[trigger] self.proofs().contains_key(p) implies {
                let proof = self.proofs()[p];
                &&& proof.proof_id@ == p
                &&& proof.proof_bytes@.len() > 0
                &&& self.circuits().contains_key(proof.circuit_id@)
                &&& self.circuits()[proof.circuit_id@].verifier_key@.len() > 0
            } by {
                assert(old_s.circuits().contains_key(old_s.proofs()[p].circuit_id@));
            }
            assert(self.tables_wf());
            assert(self.active_circuits().no_duplicates());
            assert(self.nullifiers == old_s.nullifiers);
            assert(self.nullifiers() == old_s.nullifiers());
            assert(forall|n: Seq<u8>| #[trigger]
                self.nullifiers().contains_key(n) ==> self.nullifiers()[n].nullifier@ == n);
        }
        Ok(())
    }

    /// The value of the metadata entry with key `key`.
    fn metadata_get(metadata: &Vec<(Symbol, Bytes)>, key: &Vec<u8>) -> (r: Option<Bytes>)
        ensures
            match r {
                Some(v) => lookup(metadata@, key@) == Some(v@),
                None => lookup(metadata@, key@) is None,
            },
    {
        let n = metadata.len();
        let mut i: usize = 0;
        assert(metadata@.subrange(0, n as int) =~= metadata@);
        while i < n
            invariant
                n == metadata@.len(),
                i <= n,
                lookup(metadata@, key@) == lookup(metadata@.subrange(i as int, n as int), key@),
            decreases n - i,
        {
            let ghost rest = metadata@.subrange(i as int, n as int);
            assert(rest[0] == metadata@[i as int]);
            if bytes_eq(&metadata[i].0, key) {
                return Some(copy_bytes(&metadata[i].1));
            }
            assert(rest.drop_first() =~= metadata@.subrange(i as int + 1, n as int));
            i = i + 1;
        }
        None
    }

    /// Check a proof against a verifier key.
    fn verify_zk_proof(verifier_key: &Bytes, proof_bytes: &Bytes) -> (r: Result<bool, ZKAttestationError>)
        ensures
            r == zk_check(verifier_key@, proof_bytes@),
    {
        if proof_bytes.len() == 0 {
            return Err(ZKAttestationError::InvalidProof);
        }
        if verifier_key.len() == 0 {
            return Err(ZKAttestationError::InvalidCircuit);
        }
        Ok(true)
    }

    /// The checks of `submit_proof`, returning the circuit's verifying key
    /// hash when they pass.
    fn check_submission(
        &self,
        circuit_id: &Symbol,
        input_count: usize,
        proof_bytes: &Bytes,
        nullifier: &Bytes,
    ) -> (r: Result<Bytes, ZKAttestationError>)
        requires
            self.inv(),
        ensures
            match r {
                Ok(h) => self.submit_check(circuit_id@, input_count as int, proof_bytes@, nullifier@)
                    is Ok && h@ == self.circuits()[circuit_id@].verifying_key_hash@,
                Err(e) => self.submit_check(circuit_id@, input_count as int, proof_bytes@, nullifier@)
                    == Err::<(), ZKAttestationError>(e),
            },
    {
        let circuit = match self.circuits.get(circuit_id) {
            Some(c) => c,
            None => return Err(ZKAttestationError::InvalidCircuit),
        };
        if !circuit.active {
            return Err(ZKAttestationError::CircuitDeactivated);
        }
        if input_count != circuit.public_input_count as usize {
            return Err(ZKAttestationError::InvalidPublicInputs);
        }
        if self.nullifiers.contains_key(nullifier) {
            return Err(ZKAttestationError::NullifierAlreadyUsed);
        }
        match Self::verify_zk_proof(&circuit.verifier_key, proof_bytes) {
            Err(e) => Err(e),
            Ok(_) => Ok(copy_bytes(&circuit.verifying_key_hash)),
        }
    }

    /// Submit a proof against circuit `circuit_id`, spending `nullifier`.
    ///
    /// Errors, in the order checked: `InvalidCircuit` when the circuit is not
    /// registered, `CircuitDeactivated` when it is inactive,
    /// `InvalidPublicInputs` when the number of public inputs differs from
    /// the circuit's, `NullifierAlreadyUsed` when the nullifier is spent,
    /// `InvalidProof` when the proof is empty and `InvalidCircuit` when the
    /// circuit's verifier key is empty.  On success the proof, the nullifier
    /// record and the attestation are stored under the proof id
    /// `zk:<timestamp>:<sequence>`, which is returned.
    pub fn submit_proof(
        &mut self,
        env: &Env,
        ledger: &Ledger,
        circuit_id: Symbol,
        public_inputs: Vec<Bytes>,
        proof_bytes: Bytes,
        nullifier: Bytes,
        revealed_attributes: Vec<Symbol>,
        expires_at: Option<u64>,
        metadata: Vec<(Symbol, Bytes)>,
    ) -> (r: Result<Bytes, ZKAttestationError>)
        requires
            old(self).inv(),
        ensures
            final(self).inv(),
            ZKAttestation::keeps_history(old(self), final(self)),
            old(self).nullifiers().contains_key(nullifier@) ==> r is Err,
            match old(self).submit_check(
                circuit_id@,
                public_inputs@.len() as int,
                proof_bytes@,
                nullifier@,
            ) {
                Err(e) => r == Err::<Bytes, ZKAttestationError>(e) && *final(self) == *old(self),
                Ok(_) => r is Ok && submitted(
                    old(self),
                    final(self),
                    r->Ok_0@,
                    ledger,
                    circuit_id,
                    public_inputs,
                    proof_bytes,
                    nullifier@,
                    revealed_attributes,
                    expires_at,
                    metadata,
                ),
            },
    {
        let verifying_key_hash = match self.check_submission(
            &circuit_id,
            public_inputs.len(),
            &proof_bytes,
            &nullifier,
        ) {
            Ok(h) => h,
            Err(e) => return Err(e),
        };
        let ghost old_s = *self;
        let ghost circuit = old_s.circuits()[circuit_id@];
        proof {
            reveal_strlit("zk:");
            reveal_strlit("context");
            reveal_strlit("default");
            reveal_strlit("unknown");
        }
        let proof_id = make_ledger_id(&ascii_vec("zk:"), ledger);
        let context = match Self::metadata_get(&metadata, &ascii_vec("context")) {
            Some(c) => c,
            None => ascii_vec("default"),
        };
        let nullifier_record = NullifierRecord {
            nullifier: copy_bytes(&nullifier),
            used_at: ledger.timestamp,
            context,
            proof_id: copy_bytes(&proof_id),
        };
        let ghost nrec = nullifier_record;
        self.nullifiers.insert(copy_bytes(&nullifier), nullifier_record);

        let proof_hash = sha256(env, &proof_bytes);
        let attestation = ZKAttestationRecord {
            credential_id: ascii_vec("unknown"),
            proof_hash,
            nullifier: copy_bytes(&nullifier),
            revealed_attributes: copy_byte_list(&revealed_attributes),
            circuit_id: copy_bytes(&circuit_id),
            created_at: ledger.timestamp,
            expires_at,
        };
        let ghost arec = attestation;

        let list_key = copy_bytes(&circuit_id);
        let ghost earlier = if old_s.circuit_proofs().contains_key(circuit_id@) {
            old_s.circuit_proofs()[circuit_id@]
        } else {
            Seq::<Seq<u8>>::empty()
        };
        let ghost tp = self.circuit_proofs.map();
        let mut list = match self.circuit_proofs.remove(&list_key) {
            Some(l) => l,
            None => {
                let l: Vec<Bytes> = Vec::new();
                assert(byte_views(l@) =~= Seq::<Seq<u8>>::empty());
                l
            },
        };
        assert(byte_views(list@) == earlier);
        let ghost old_list = byte_views(list@);
        let pid_copy = copy_bytes(&proof_id);
        let ghost before = list@;
        list.push(pid_copy);
        assert(list@ == before.push(pid_copy));
        assert(byte_views(list@) =~= old_list.push(proof_id@));
        let ghost new_list = list;
        self.circuit_proofs.insert(list_key, list);
        assert(self.circuit_proofs.map() =~= tp.insert(circuit_id@, new_list));
        assert(self.circuit_proofs() =~= old_s.circuit_proofs().insert(circuit_id@, earlier.push(proof_id@)));

        let proof = ZKProof {
            proof_id: copy_bytes(&proof_id),
            circuit_id,
            public_inputs,
            proof_bytes,
            verifying_key_hash,
            nullifier,
            verifier_address: self.contract.copy(),
            created_at: ledger.timestamp,
            expires_at,
            metadata,
            revealed_attributes,
        };
        let ghost prec = proof;
        self.proofs.insert(copy_bytes(&proof_id), proof);
        self.attestations.insert(copy_bytes(&proof_id), attestation);
        proof {
            let pid = proof_id@;
            let cid = prec.circuit_id@;
            let n = prec.nullifier@;
            assert(self.proofs()[pid] == prec);
            assert(self.nullifiers()[n] == nrec);
            assert(self.attestations()[pid] == arec);
            assert(self.circuits() == old_s.circuits());
            assert forall|p: Seq<u8>| #[trigger] self.proofs().contains_key(p) implies {
                let proof = self.proofs()[p];
                &&& proof.proof_id@ == p
                &&& proof.proof_bytes@.len() > 0
                &&& self.circuits().contains_key(proof.circuit_id@)
                &&& self.circuits()[proof.circuit_id@].verifier_key@.len() > 0
            } by {
                if p != pid {
                    assert(old_s.proofs().contains_key(p));
                }
            }
            assert forall|x: Seq<u8>| #[trigger]
                self.nullifiers().contains_key(x) implies self.nullifiers()[x].nullifier@ == x by {
                if x != n {
                    assert(old_s.nullifiers().contains_key(x));
                }
            }
            assert(self.active_circuits() == old_s.active_circuits());
        }
        Ok(proof_id)
    }

    /// Check the proof stored under `proof_id`: `NotFound` when there is
    /// none, `false` when it has expired, otherwise the outcome of checking it
    /// against its circuit's verifier key.
    pub fn verify_proof(&self, ledger: &Ledger, proof_id: &Bytes) -> (r: Result<bool, ZKAttestationError>)
        requires
            self.inv(),
        ensures
            r == self.verify_outcome(proof_id@, ledger.timestamp),
            self.proofs().contains_key(proof_id@) && !expired(
                self.proofs()[proof_id@].expires_at,
                ledger.timestamp,
            ) ==> r == Ok::<bool, ZKAttestationError>(true),
    {
        let proof = match self.proofs.get(proof_id) {
            Some(p) => p,
            None => return Err(ZKAttestationError::NotFound),
        };
        if let Some(expiry) = proof.expires_at {
            if ledger.timestamp > expiry {
                return Ok(false);
            }
        }
        let circuit = match self.circuits.get(&proof.circuit_id) {
            Some(c) => c,
            None => return Err(ZKAttestationError::InvalidCircuit),
        };
        Self::verify_zk_proof(&circuit.verifier_key, &proof.proof_bytes)
    }

    /// The proof stored under `proof_id`, or `NotFound`.
    pub fn get_proof(&self, proof_id: &Bytes) -> (r: Result<&ZKProof, ZKAttestationError>)
        requires
            self.inv(),
        ensures
            self.proofs().contains_key(proof_id@) ==> (r matches Ok(p) && *p
                == self.proofs()[proof_id@]),
            !self.proofs().contains_key(proof_id@) ==> r == Err::<&ZKProof, ZKAttestationError>(
                ZKAttestationError::NotFound,
            ),
    {
        match self.proofs.get(proof_id) {
            Some(p) => Ok(p),
            None => Err(ZKAttestationError::NotFound),
        }
    }

    /// The circuit registered under `circuit_id`, or `InvalidCircuit`.
    pub fn get_circuit(&self, circuit_id: &Symbol) -> (r: Result<&ZKCircuit, ZKAttestationError>)
        requires
            self.inv(),
        ensures
            self.circuits().contains_key(circuit_id@) ==> (r matches Ok(c) && *c
                == self.circuits()[circuit_id@]),
            !self.circuits().contains_key(circuit_id@) ==> r == Err::<
                &ZKCircuit,
                ZKAttestationError,
            >(ZKAttestationError::InvalidCircuit),
    {
        match self.circuits.get(circuit_id) {
            Some(c) => Ok(c),
            None => Err(ZKAttestationError::InvalidCircuit),
        }
    }

    /// The ids of the proofs accepted against `circuit_id`, oldest first.
    pub fn get_circuit_proofs(&self, circuit_id: &Symbol) -> (r: Vec<Bytes>)
        requires
            self.inv(),
        ensures
            byte_views(r@) == if self.circuit_proofs().contains_key(circuit_id@) {
                self.circuit_proofs()[circuit_id@]
            } else {
                Seq::empty()
            },
    {
        match self.circuit_proofs.get(circuit_id) {
            Some(l) => copy_byte_list(l),
            None => {
                let r: Vec<Bytes> = Vec::new();
                assert(byte_views(r@) =~= Seq::<Seq<u8>>::empty());
                r
            },
        }
    }

    /// Page `page` of the registered circuit ids.
    pub fn get_registered_circuits(&self, page: u32, page_size: u32) -> (r: PaginatedCircuits)
        requires
            self.inv(),
            self.active_circuits().len() <= u32::MAX,
            page_in_range(page, page_size),
        ensures
            byte_views(r.data@) == page_items(self.active_circuits(), page, page_size),
            r.page == page,
            r.total == self.active_circuits().len(),
            r.has_more == page_has_more(self.active_circuits().len() as int, page, page_size),
    {
        let (data, total, has_more) = paginate_bytes(&self.active_circuits, page, page_size);
        PaginatedCircuits { data, page, total, has_more }
    }

    /// The ids of all registered circuits, in order of registration.
    pub fn get_active_circuits(&self) -> (r: Vec<Symbol>)
        requires
            self.inv(),
        ensures
            byte_views(r@) == self.active_circuits(),
    {
        copy_byte_list(&self.active_circuits)
    }

    /// Set the active flag of circuit `circuit_id`: `InvalidCircuit` when it
    /// is not registered, `Unauthorized` when this contract did not create it.
    fn set_circuit_active(&mut self, circuit_id: &Symbol, active: bool) -> (r: Result<(), ZKAttestationError>)
        requires
            old(self).inv(),
        ensures
            final(self).inv(),
            ZKAttestation::keeps_history(old(self), final(self)),
            r is Err ==> *final(self) == *old(self),
            match old(self).circuits().get(circuit_id@) {
                None => r == Err::<(), ZKAttestationError>(ZKAttestationError::InvalidCircuit),
                Some(c) => if c.created_by@ != old(self).contract() {
                    r == Err::<(), ZKAttestationError>(ZKAttestationError::Unauthorized)
                } else {
                    &&& r == Ok::<(), ZKAttestationError>(())
                    &&& final(self).circuits() == old(self).circuits().insert(
                        circuit_id@,
                        ZKCircuit { active, ..c },
                    )
                    &&& final(self).proofs() == old(self).proofs()
                    &&& final(self).nullifiers() == old(self).nullifiers()
                    &&& final(self).circuit_proofs() == old(self).circuit_proofs()
                    &&& final(self).attestations() == old(self).attestations()
                    &&& final(self).active_circuits() == old(self).active_circuits()
                },
            },
    {
        let authorized = match self.circuits.get(circuit_id) {
            None => return Err(ZKAttestationError::InvalidCircuit),
            Some(c) => c.created_by.same(&self.contract),
        };
        if !authorized {
            return Err(ZKAttestationError::Unauthorized);
        }
        let ghost old_s = *self;
        let mut circuit = match self.circuits.remove(circuit_id) {
            Some(c) => c,
            None => return Err(ZKAttestationError::InvalidCircuit),
        };
        circuit.active = active;
        let ghost c = circuit;
        self.circuits.insert(copy_bytes(circuit_id), circuit);
        proof {
            assert(self.circuits() =~= old_s.circuits().insert(circuit_id@, c));
            assert(self.circuits().dom() =~= old_s.circuits().dom());
            assert forall|x: Seq<u8>| #[trigger] self.circuits().contains_key(x) implies self.circuits()[x].circuit_id@
                == x && self.circuits()[x].created_by@ == self.contract() by {
                assert(old_s.circuits().contains_key(x));
            }
            assert forall|x: Seq<u8>|
                self.circuits().contains_key(x) <==> #[trigger] self.active_circuits().contains(x) by {
                assert(old_s.circuits().contains_key(x) == self.circuits().contains_key(x));
            }
            assert forall|p: Seq<u8>| #[trigger] self.proofs().contains_key(p) implies {
                let proof = self.proofs()[p];
                &&& proof.proof_id@ == p
                &&& proof.proof_bytes@.len() > 0
                &&& self.circuits().contains_key(proof.circuit_id@)
                &&& self.circuits()[proof.circuit_id@].verifier_key@.len() > 0
            } by {
                assert(old_s.circuits().contains_key(old_s.proofs()[p].circuit_id@));
            }
            assert(self.tables_wf());
            assert(self.active_circuits().no_duplicates());
            assert(self.nullifiers == old_s.nullifiers);
            assert(self.nullifiers() == old_s.nullifiers());
            assert(forall|n: Seq<u8>| #[trigger]
                self.nullifiers().contains_key(n) ==> self.nullifiers()[n].nullifier@ == n);
        }
        Ok(())
    }

    /// Mark circuit `circuit_id` inactive, so that it takes no new proofs.
    /// `InvalidCircuit` when it is not registered; `Unauthorized` when this
    /// contract did not create it.
    pub fn deactivate_circuit(&mut self, circuit_id: &Symbol) -> (r: Result<(), ZKAttestationError>)
        requires
            old(self).inv(),
        ensures
            final(self).inv(),
            ZKAttestation::keeps_history(old(self), final(self)),
            r is Err ==> *final(self) == *old(self),
            old(self).circuits().contains_key(circuit_id@) ==> r is Ok,
            match old(self).circuits().get(circuit_id@) {
                None => r == Err::<(), ZKAttestationError>(ZKAttestationError::InvalidCircuit),
                Some(c) => if c.created_by@ != old(self).contract() {
                    r == Err::<(), ZKAttestationError>(ZKAttestationError::Unauthorized)
                } else {
                    &&& r == Ok::<(), ZKAttestationError>(())
                    &&& final(self).circuits() == old(self).circuits().insert(
                        circuit_id@,
                        ZKCircuit { active: false, ..c },
                    )
                    &&& final(self).proofs() == old(self).proofs()
                    &&& final(self).nullifiers() == old(self).nullifiers()
                    &&& final(self).circuit_proofs() == old(self).circuit_proofs()
                    &&& final(self).attestations() == old(self).attestations()
                    &&& final(self).active_circuits() == old(self).active_circuits()
                },
            },
    {
        self.set_circuit_active(circuit_id, false)
    }

    /// Mark circuit `circuit_id` active again.  `InvalidCircuit` when it is
    /// not registered; `Unauthorized` when this contract did not create it.
    pub fn reactivate_circuit(&mut self, circuit_id: &Symbol) -> (r: Result<(), ZKAttestationError>)
        requires
            old(self).inv(),
        ensures
            final(self).inv(),
            ZKAttestation::keeps_history(old(self), final(self)),
            r is Err ==> *final(self) == *old(self),
            old(self).circuits().contains_key(circuit_id@) ==> r is Ok,
            match old(self).circuits().get(circuit_id@) {
                None => r == Err::<(), ZKAttestationError>(ZKAttestationError::InvalidCircuit),
                Some(c) => if c.created_by@ != old(self).contract() {
                    r == Err::<(), ZKAttestationError>(ZKAttestationError::Unauthorized)
                } else {
                    &&& r == Ok::<(), ZKAttestationError>(())
                    &&& final(self).circuits() == old(self).circuits().insert(
                        circuit_id@,
                        ZKCircuit { active: true, ..c },
                    )
                    &&& final(self).proofs() == old(self).proofs()
                    &&& final(self).nullifiers() == old(self).nullifiers()
                    &&& final(self).circuit_proofs() == old(self).circuit_proofs()
                    &&& final(self).attestations() == old(self).attestations()
                    &&& final(self).active_circuits() == old(self).active_circuits()
                },
            },
    {
        self.set_circuit_active(circuit_id, true)
    }

    /// Check each proof in turn, counting an error as `false`.
    pub fn batch_verify_proofs(&self, ledger: &Ledger, proof_ids: &Vec<Bytes>) -> (r: Vec<bool>)
        requires
            self.inv(),
        ensures
            r@.len() == proof_ids@.len(),
            forall|i: int|
                0 <= i < r@.len() ==> r@[i] == (self.verify_outcome(
                    #[trigger] proof_ids@[i]@,
                    ledger.timestamp,
                ) == Ok::<bool, ZKAttestationError>(true)),
    {
        let mut results: Vec<bool> = Vec::new();
        let n = proof_ids.len();
        let mut i: usize = 0;
        while i < n
            invariant
                self.inv(),
                n == proof_ids@.len(),
                i <= n,
                results@.len() == i,
                forall|j: int|
                    0 <= j < i ==> results@[j] == (self.verify_outcome(
                        #[trigger] proof_ids@[j]@,
                        ledger.timestamp,
                    ) == Ok::<bool, ZKAttestationError>(true)),
            decreases n - i,
        {
            let valid = match self.verify_proof(ledger, &proof_ids[i]) {
                Ok(b) => b,
                Err(_) => false,
            };
            results.push(valid);
            i = i + 1;
        }
        results
    }
}

/// A submission passes its checks only against a registered, active
/// circuit, with exactly as many public inputs as the circuit declares, an
/// unspent nullifier, a non-empty proof and a circuit with a non-empty
/// verifier key.
pub proof fn law_submission_checks(
    zk: &ZKAttestation,
    circuit_id: Seq<u8>,
    input_count: int,
    proof_bytes: Seq<u8>,
    nullifier: Seq<u8>,
)
    ensures
        zk.submit_check(circuit_id, input_count, proof_bytes, nullifier) is Ok <==> {
            &&& zk.circuits().contains_key(circuit_id)
            &&& zk.circuits()[circuit_id].active
            &&& input_count == zk.circuits()[circuit_id].public_input_count
            &&& !zk.nullifiers().contains_key(nullifier)
            &&& proof_bytes.len() > 0
            &&& zk.circuits()[circuit_id].verifier_key@.len() > 0
        },
{
}

/// An unknown proof is `NotFound`, and a stored proof past its expiry does
/// not verify.
pub proof fn law_unknown_or_expired_proof(zk: &ZKAttestation, proof_id: Seq<u8>, now: u64)
    ensures
        !zk.proofs().contains_key(proof_id) ==> zk.verify_outcome(proof_id, now) == Err::<
            bool,
            ZKAttestationError,
        >(ZKAttestationError::NotFound),
        zk.proofs().contains_key(proof_id) && (zk.proofs()[proof_id].expires_at matches Some(e)
            && now > e) ==> zk.verify_outcome(proof_id, now) == Ok::<bool, ZKAttestationError>(false),
{
}

/// The context a spent nullifier records is the metadata's first `context`
/// entry, or `default` when there is none.
pub proof fn law_nullifier_context(metadata: Seq<(Symbol, Bytes)>)
    ensures
        lookup(metadata, ascii("context"@)) matches Some(c) ==> nullifier_context(metadata) == c,
        lookup(metadata, ascii("context"@)) is None ==> nullifier_context(metadata) == ascii(
            "default"@,
        ),
        metadata.len() > 0 && metadata[0].0@ == ascii("context"@) ==> nullifier_context(metadata)
            == metadata[0].1@,
{
}

/// A nullifier is spent once: after a proof was accepted with it, every
/// submission that spends it again is refused.
pub proof fn law_nullifier_single_use(
    old: &ZKAttestation,
    new: &ZKAttestation,
    proof_id: Seq<u8>,
    ledger: &Ledger,
    circuit_id: Symbol,
    public_inputs: Vec<Bytes>,
    proof_bytes: Bytes,
    nullifier: Seq<u8>,
    revealed_attributes: Vec<Symbol>,
    expires_at: Option<u64>,
    metadata: Vec<(Symbol, Bytes)>,
    next_circuit: Seq<u8>,
    next_input_count: int,
    next_proof: Seq<u8>,
)
    requires
        submitted(
            old,
            new,
            proof_id,
            ledger,
            circuit_id,
            public_inputs,
            proof_bytes,
            nullifier,
            revealed_attributes,
            expires_at,
            metadata,
        ),
    ensures
        new.nullifiers().contains_key(nullifier),
        new.submit_check(next_circuit, next_input_count, next_proof, nullifier) is Err,
{
    assert(new.nullifiers().contains_key(nullifier));
}

/// A proof that was just accepted verifies at every time up to its expiry.
pub proof fn law_submitted_proof_verifies(
    old: &ZKAttestation,
    new: &ZKAttestation,
    proof_id: Seq<u8>,
    ledger: &Ledger,
    circuit_id: Symbol,
    public_inputs: Vec<Bytes>,
    proof_bytes: Bytes,
    nullifier: Seq<u8>,
    revealed_attributes: Vec<Symbol>,
    expires_at: Option<u64>,
    metadata: Vec<(Symbol, Bytes)>,
    now: u64,
)
    requires
        new.inv(),
        submitted(
            old,
            new,
            proof_id,
            ledger,
            circuit_id,
            public_inputs,
            proof_bytes,
            nullifier,
            revealed_attributes,
            expires_at,
            metadata,
        ),
        !expired(expires_at, now),
    ensures
        new.verify_outcome(proof_id, now) == Ok::<bool, ZKAttestationError>(true),
{
    assert(new.proofs().contains_key(proof_id));
}

/// `new` is `old` after `submit_proof` accepted a proof under `proof_id`.
pub open spec fn submitted(
    old: &ZKAttestation,
    new: &ZKAttestation,
    proof_id: Seq<u8>,
    ledger: &Ledger,
    circuit_id: Symbol,
    public_inputs: Vec<Bytes>,
    proof_bytes: Bytes,
    nullifier: Seq<u8>,
    revealed_attributes: Vec<Symbol>,
    expires_at: Option<u64>,
    metadata: Vec<(Symbol, Bytes)>,
) -> bool {
    let proof = new.proofs()[proof_id];
    let nrec = new.nullifiers()[nullifier];
    let arec = new.attestations()[proof_id];
    let earlier = if old.circuit_proofs().contains_key(circuit_id@) {
        old.circuit_proofs()[circuit_id@]
    } else {
        Seq::empty()
    };
    &&& proof_id == proof_id_for(*ledger)
    &&& new.circuits() == old.circuits()
    &&& new.active_circuits() == old.active_circuits()
    &&& new.proofs() == old.proofs().insert(proof_id, proof)
    &&& proof == ZKProof {
        proof_id: proof.proof_id,
        verifying_key_hash: proof.verifying_key_hash,
        nullifier: proof.nullifier,
        verifier_address: proof.verifier_address,
        circuit_id,
        public_inputs,
        proof_bytes,
        created_at: ledger.timestamp,
        expires_at,
        metadata,
        revealed_attributes,
    }
    &&& proof.proof_id@ == proof_id
    &&& proof.verifying_key_hash@ == old.circuits()[circuit_id@].verifying_key_hash@
    &&& proof.nullifier@ == nullifier
    &&& proof.verifier_address@ == old.contract()
    &&& new.nullifiers() == old.nullifiers().insert(nullifier, nrec)
    &&& nrec.nullifier@ == nullifier
    &&& nrec.used_at == ledger.timestamp
    &&& nrec.context@ == nullifier_context(metadata@)
    &&& nrec.proof_id@ == proof_id
    &&& new.circuit_proofs() == old.circuit_proofs().insert(circuit_id@, earlier.push(proof_id))
    &&& new.attestations() == old.attestations().insert(proof_id, arec)
    &&& arec.credential_id@ == ascii("unknown"@)
    &&& arec.proof_hash@ == spec_sha256(proof_bytes@)
    &&& arec.nullifier@ == nullifier
    &&& byte_views(arec.revealed_attributes@) == byte_views(revealed_attributes@)
    &&& arec.circuit_id@ == circuit_id@
    &&& arec.created_at == ledger.timestamp
    &&& arec.expires_at == expires_at
}

} // verus!
