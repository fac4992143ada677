//! Sanctions screening and regulatory reporting: sanctions lists supplied by
//! oracles, screening of addresses against the active lists, jurisdiction
//! rules, and an append-only audit trail of regulatory reports.

use vstd::prelude::*;
use crate::bytes::{ascii, ascii_vec, byte_views, bytes_eq, concat, copy_byte_list, copy_bytes, decimal, decimal_bytes, list_contains, no_duplicate_bytes};
use crate::table::{
    append_to_list, appended, distinct_keys, entries_map, lemma_entries_map_index, lemma_entries_map_key,
    list_views, Table,
};
use crate::did_registry::did_prefix;
use crate::types::{Address, Bytes, Ledger};

verus! {

/// Errors of the compliance filter.
#[derive(Clone, Copy, Debug, PartialEq, Eq, PartialOrd, Ord, Structural)]
pub enum ComplianceFilterError {
    AddressBlocked,
    HighRisk,
    Unauthorized,
    NotFound,
    InvalidRiskScore,
    OracleStale,
    InvalidHash,
}

/// Reference to an external sanctions list (OFAC, UN, EU, ...), with the
/// integrity hash that the oracle supplied for the full list.
#[derive(Clone, Debug)]
pub struct SanctionsList {
    pub source: Bytes,
    pub last_updated: u64,
    pub hash: [u8; 32],
    pub active: bool,
    pub entry_count: u32,
}

/// Result of screening one address: status `clear`, `suspicious` or
/// `blocked`, a risk score from 0 to 100, and the lists that matched.
#[derive(Clone, Debug)]
pub struct ScreeningResult {
    pub address: Address,
    pub status: Bytes,
    pub risk_score: u32,
    pub matches: Vec<Bytes>,
    pub timestamp: u64,
}

/// A jurisdiction-specific compliance rule.
#[derive(Clone, Debug)]
pub struct ComplianceRule {
    pub jurisdiction: Bytes,
    pub requirement: Bytes,
    pub enforcement: Bytes,
    pub active: bool,
    pub created: u64,
}

/// An entry of the audit trail, written on every compliance decision.
#[derive(Clone, Debug)]
pub struct RegulatoryReport {
    pub subject: Address,
    pub activity_summary: Bytes,
    pub risk_flags: Bytes,
    pub timestamp: u64,
    pub ledger_sequence: u32,
}

/// Highest risk score accepted.
pub const MAX_RISK_SCORE: u32 = 100;

/// Risk scores above this are suspicious.
pub const SUSPICIOUS_ABOVE: u32 = 70;

/// The views of a list of addresses.
pub open spec fn address_views(s: Seq<Address>) -> Seq<Seq<u8>> {
    s.map_values(|a: Address| a@)
}

/// The key under which the report about `subject` at time `ts` is kept:
/// `audit:<subject>:<ts>`.
pub open spec fn report_key(subject: Seq<u8>, ts: u64) -> Seq<u8> {
    ascii("audit:"@) + subject + ascii(":"@) + decimal(ts as nat)
}

/// Every byte of a decimal rendering is a digit, and there is at least one.
proof fn lemma_decimal_digits(n: nat)
    ensures
        decimal(n).len() > 0,
        forall|i: int| 0 <= i < decimal(n).len() ==> 48 <= #[trigger] decimal(n)[i] <= 57,
    decreases n,
{
    if n >= 10 {
        lemma_decimal_digits(n / 10);
    }
}

/// A report key names its subject: two keys that are equal were made for
/// the same subject.
proof fn lemma_report_key_subject(a: Seq<u8>, t: u64, b: Seq<u8>, u: u64)
    requires
        report_key(a, t) == report_key(b, u),
    ensures
        a == b,
{
    reveal_strlit("audit:");
    reveal_strlit(":");
    let p = ascii("audit:"@);
    let c = ascii(":"@);
    assert(p.len() == 6);
    assert(c.len() == 1);
    assert(c[0] == 58);
    lemma_decimal_digits(t as nat);
    lemma_decimal_digits(u as nat);
    let ka2 = p + a + c;
    let kb2 = p + b + c;
    let ka = ka2 + decimal(t as nat);
    let kb = kb2 + decimal(u as nat);
    assert(ka == report_key(a, t));
    assert(kb == report_key(b, u));
    assert(ka.len() == kb.len());
    assert(ka2.len() == 7 + a.len());
    assert(kb2.len() == 7 + b.len());
    if a.len() < b.len() {
        let q: int = 6 + b.len() as int;
        assert(kb2[q] == c[0]);
        assert(kb[q] == kb2[q]);
        assert(ka[q] == decimal(t as nat)[q - ka2.len()]);
        assert(false);
    } else if b.len() < a.len() {
        let q: int = 6 + a.len() as int;
        assert(ka2[q] == c[0]);
        assert(ka[q] == ka2[q]);
        assert(kb[q] == decimal(u as nat)[q - kb2.len()]);
        assert(false);
    } else {
        assert forall|i: int| 0 <= i < a.len() implies a[i] == b[i] by {
            assert(ka[6 + i] == ka2[6 + i]);
            assert(kb[6 + i] == kb2[6 + i]);
            assert(ka2[6 + i] == (p + a)[6 + i]);
            assert(kb2[6 + i] == (p + b)[6 + i]);
        }
        assert(a =~= b);
    }
}

/// The screening status for a risk score.
pub open spec fn screening_status(score: u32, blocked: bool) -> Seq<u8> {
    if blocked || score >= MAX_RISK_SCORE {
        ascii("blocked"@)
    } else if score > SUSPICIOUS_ABOVE {
        ascii("suspicious"@)
    } else {
        ascii("clear"@)
    }
}

/// The matched sources, each followed by a comma.
pub open spec fn flag_list(matches: Seq<Seq<u8>>) -> Seq<u8>
    decreases matches.len(),
{
    if matches.len() == 0 {
        Seq::empty()
    } else {
        flag_list(matches.drop_last()) + matches.last() + ascii(","@)
    }
}

/// The risk flags that a screening records in the audit trail.
pub open spec fn risk_flags(matches: Seq<Seq<u8>>) -> Seq<u8> {
    if matches.len() == 0 {
        ascii("none"@)
    } else {
        ascii("matched:"@) + flag_list(matches)
    }
}

/// The summary an automatic audit entry carries: the action, `:`, the detail.
pub open spec fn audit_summary(action: Seq<u8>, detail: Seq<u8>) -> Seq<u8> {
    action + ascii(":"@) + detail
}

/// The part of a DID after `did:stellar:` up to the next `:`.
pub open spec fn until_colon(s: Seq<u8>) -> Seq<u8>
    decreases s.len(),
{
    if s.len() == 0 {
        s
    } else if s[0] == 58 {
        Seq::empty()
    } else {
        seq![s[0]] + until_colon(s.drop_first())
    }
}

/// The address that `screen_did` screens for `did`, or `NotFound` when the
/// DID is no longer than its 12-byte method prefix.
pub open spec fn did_address(did: Seq<u8>) -> Result<Seq<u8>, ComplianceFilterError> {
    if did.len() <= 12 {
        Err(ComplianceFilterError::NotFound)
    } else {
        Ok(until_colon(did.subrange(12, did.len() as int)))
    }
}

/// The screening status is `blocked` whenever the address has a sanctions
/// match, whatever its risk score; without a match it is `blocked` from a
/// score of 100, `suspicious` above 70 and `clear` up to 70.
pub proof fn law_screening_status(score: u32, matched: bool)
    ensures
        matched ==> screening_status(score, matched) == ascii("blocked"@),
        !matched && score >= 100 ==> screening_status(score, matched) == ascii("blocked"@),
        !matched && 70 < score < 100 ==> screening_status(score, matched) == ascii("suspicious"@),
        !matched && score <= 70 ==> screening_status(score, matched) == ascii("clear"@),
{
}

/// A byte string without `:` is kept whole up to the next `:`.
proof fn lemma_until_colon_whole(s: Seq<u8>)
    requires
        !s.contains(58u8),
    ensures
        until_colon(s) == s,
    decreases s.len(),
{
    if s.len() > 0 {
        if s[0] == 58 {
            assert(s.contains(58u8));
        }
        let rest = s.drop_first();
        if rest.contains(58u8) {
            let i = choose|i: int| 0 <= i < rest.len() && rest[i] == 58u8;
            assert(s[i + 1] == 58u8);
            assert(s.contains(58u8));
        }
        lemma_until_colon_whole(rest);
        assert(seq![s[0]] + rest =~= s);
    }
}

/// The DID `did:stellar:<address>` names `address` when the address is not
/// empty and has no `:`; `screen_did` on that DID then screens exactly that
/// address, as `screen_address` does.
pub proof fn law_did_names_its_address(address: Seq<u8>)
    requires
        address.len() > 0,
        !address.contains(58u8),
    ensures
        did_address(did_prefix() + address) == Ok::<Seq<u8>, ComplianceFilterError>(address),
{
    reveal_strlit("did:stellar:");
    let did = did_prefix() + address;
    assert(did_prefix().len() == 12);
    assert(did.subrange(12, did.len() as int) =~= address);
    lemma_until_colon_whole(address);
}

/// `res` is the screening of `address` that found `matches` at time `now`.
pub open spec fn is_screening(res: ScreeningResult, address: Seq<u8>, matches: Seq<Seq<u8>>, now: u64) -> bool {
    let blocked = matches.len() > 0;
    let score: u32 = if blocked { MAX_RISK_SCORE } else { 0 };
    &&& res.address@ == address
    &&& res.status@ == screening_status(score, blocked)
    &&& res.risk_score == score
    &&& byte_views(res.matches@) == matches
    &&& res.timestamp == now
}

/// `new` is `old` after screening `address` at `ledger`, and `r` is what the
/// screening answered: the result is stored as the address's latest
/// screening and an audit entry is written; a match on an active list is
/// refused with `AddressBlocked`.
pub open spec fn screened(
    old: &ComplianceFilter,
    new: &ComplianceFilter,
    address: Seq<u8>,
    ledger: Ledger,
    r: Result<ScreeningResult, ComplianceFilterError>,
) -> bool {
    let m = old.matches_for(address);
    let flags = risk_flags(m);
    &&& new.screenings() == old.screenings().insert(address, new.screenings()[address])
    &&& is_screening(new.screenings()[address], address, m, ledger.timestamp)
    &&& ComplianceFilter::audited(
        old,
        new,
        address,
        audit_summary(ascii("screen_address"@), flags),
        flags,
        ledger,
    )
    &&& ComplianceFilter::same_lists_and_rules(old, new)
    &&& if m.len() > 0 {
        r == Err::<ScreeningResult, ComplianceFilterError>(ComplianceFilterError::AddressBlocked)
    } else {
        r matches Ok(res) && is_screening(res, address, m, ledger.timestamp)
    }
}

/// The filter's stored state as lists of entries, for keeping it in ledger
/// storage between calls.
pub struct ComplianceFilterParts {
    /// Sanctions lists, by source.
    pub lists: Vec<(Bytes, SanctionsList)>,
    /// Loaded addresses, by source.
    pub entries: Vec<(Bytes, Vec<Address>)>,
    /// Latest screenings, by address.
    pub screenings: Vec<(Bytes, ScreeningResult)>,
    /// Rules, by jurisdiction.
    pub rules: Vec<(Bytes, ComplianceRule)>,
    /// Reports, by report key.
    pub reports: Vec<(Bytes, RegulatoryReport)>,
    /// Report keys, by address.
    pub audit_index: Vec<(Bytes, Vec<Bytes>)>,
    /// Registered sources, in order of registration.
    pub list_index: Vec<Bytes>,
}

impl ComplianceFilterParts {
    /// The lists that the parts hold.
    pub open spec fn lists(&self) -> Map<Seq<u8>, SanctionsList> {
        entries_map(self.lists@)
    }

    /// The loaded addresses that the parts hold.
    pub open spec fn entries(&self) -> Map<Seq<u8>, Seq<Seq<u8>>> {
        entries_map(self.entries@).map_values(|l: Vec<Address>| address_views(l@))
    }

    /// The screenings that the parts hold.
    pub open spec fn screenings(&self) -> Map<Seq<u8>, ScreeningResult> {
        entries_map(self.screenings@)
    }

    /// The rules that the parts hold.
    pub open spec fn rules(&self) -> Map<Seq<u8>, ComplianceRule> {
        entries_map(self.rules@)
    }

    /// The reports that the parts hold.
    pub open spec fn reports(&self) -> Map<Seq<u8>, RegulatoryReport> {
        entries_map(self.reports@)
    }

    /// The audit trails that the parts hold.
    pub open spec fn audit_index(&self) -> Map<Seq<u8>, Seq<Seq<u8>>> {
        list_views(entries_map(self.audit_index@))
    }

    /// The parts describe a filter that keeps the filter's invariant.
    pub open spec fn valid(&self) -> bool {
        &&& distinct_keys(self.lists@)
        &&& distinct_keys(self.entries@)
        &&& distinct_keys(self.screenings@)
        &&& distinct_keys(self.rules@)
        &&& distinct_keys(self.reports@)
        &&& distinct_keys(self.audit_index@)
        &&& byte_views(self.list_index@).no_duplicates()
        &&& forall|s: Seq<u8>|
            self.lists().contains_key(s) <==> #[trigger] byte_views(self.list_index@).contains(s)
        &&& forall|a: Seq<u8>, i: int|
            self.audit_index().contains_key(a) && 0 <= i < self.audit_index()[a].len()
                ==> self.reports().contains_key(#[trigger] self.audit_index()[a][i])
        &&& forall|a: Seq<u8>| #[trigger]
            self.screenings().contains_key(a) ==> self.screenings()[a].address@ == a
        &&& forall|k: Seq<u8>| #[trigger]
            self.reports().contains_key(k) ==> {
                &&& k == report_key(self.reports()[k].subject@, self.reports()[k].timestamp)
                &&& self.trail_of(self.reports()[k].subject@).contains(k)
            }
    }

    /// The audit trail of `address` that the parts hold, empty when none.
    pub open spec fn trail_of(&self, address: Seq<u8>) -> Seq<Seq<u8>> {
        if self.audit_index().contains_key(address) {
            self.audit_index()[address]
        } else {
            Seq::empty()
        }
    }
}

/// The filter's stored state.
pub struct ComplianceFilter {
    lists: Table<SanctionsList>,
    entries: Table<Vec<Address>>,
    screenings: Table<ScreeningResult>,
    rules: Table<ComplianceRule>,
    reports: Table<RegulatoryReport>,
    audit_index: Table<Vec<Bytes>>,
    list_index: Vec<Bytes>,
}

impl ComplianceFilter {
    /// Sanctions lists, keyed by source.
    pub closed spec fn lists(&self) -> Map<Seq<u8>, SanctionsList> {
        self.lists.map()
    }

    /// The addresses loaded for each source.
    pub closed spec fn entries(&self) -> Map<Seq<u8>, Seq<Seq<u8>>> {
        self.entries.map().map_values(|l: Vec<Address>| address_views(l@))
    }

    /// The latest screening of each address.
    pub closed spec fn screenings(&self) -> Map<Seq<u8>, ScreeningResult> {
        self.screenings.map()
    }

    /// Compliance rules, keyed by jurisdiction.
    pub closed spec fn rules(&self) -> Map<Seq<u8>, ComplianceRule> {
        self.rules.map()
    }

    /// Regulatory reports, keyed by report key.
    pub closed spec fn reports(&self) -> Map<Seq<u8>, RegulatoryReport> {
        self.reports.map()
    }

    /// For each address, the keys of the reports about it, in order.
    pub closed spec fn audit_index(&self) -> Map<Seq<u8>, Seq<Seq<u8>>> {
        list_views(self.audit_index.map())
    }

    /// The registered sources, in order of registration.
    pub closed spec fn list_index(&self) -> Seq<Seq<u8>> {
        byte_views(self.list_index@)
    }

    /// The addresses loaded for `source`, none when nothing was loaded.
    pub open spec fn entries_of(&self, source: Seq<u8>) -> Seq<Seq<u8>> {
        if self.entries().contains_key(source) {
            self.entries()[source]
        } else {
            Seq::empty()
        }
    }

    /// The audit trail of `address`, empty when there is none.
    pub open spec fn trail_of(&self, address: Seq<u8>) -> Seq<Seq<u8>> {
        if self.audit_index().contains_key(address) {
            self.audit_index()[address]
        } else {
            Seq::empty()
        }
    }

    /// Whether `source` is an active list that holds `address`.
    pub open spec fn listed_in(&self, source: Seq<u8>, address: Seq<u8>) -> bool {
        &&& self.lists().contains_key(source)
        &&& self.lists()[source].active
        &&& self.entries_of(source).contains(address)
    }

    /// The sources among `sources` whose active list holds `address`, in order.
    pub open spec fn matching(&self, sources: Seq<Seq<u8>>, address: Seq<u8>) -> Seq<Seq<u8>>
        decreases sources.len(),
    {
        if sources.len() == 0 {
            Seq::empty()
        } else if self.listed_in(sources.last(), address) {
            self.matching(sources.drop_last(), address).push(sources.last())
        } else {
            self.matching(sources.drop_last(), address)
        }
    }

    /// The registered sources whose active list holds `address`.
    pub open spec fn matches_for(&self, address: Seq<u8>) -> Seq<Seq<u8>> {
        self.matching(self.list_index(), address)
    }

    /// The underlying tables are well formed.
    pub closed spec fn tables_wf(&self) -> bool {
        &&& self.lists.wf()
        &&& self.entries.wf()
        &&& self.screenings.wf()
        &&& self.rules.wf()
        &&& self.reports.wf()
        &&& self.audit_index.wf()
    }

    /// The filter's invariant: the source index lists each registered list
    /// once, every key in an audit trail names a stored report, each latest
    /// screening is of the address it is stored under, and each report is
    /// stored under the key of its subject and time and is in its subject's
    /// audit trail.
    pub open spec fn inv(&self) -> bool {
        &&& self.tables_wf()
        &&& self.list_index().no_duplicates()
        &&& forall|s: Seq<u8>| self.lists().contains_key(s) <==> #[trigger] self.list_index().contains(s)
        &&& forall|a: Seq<u8>, i: int|
            self.audit_index().contains_key(a) && 0 <= i < self.audit_index()[a].len()
                ==> self.reports().contains_key(#[trigger] self.audit_index()[a][i])
        &&& forall|a: Seq<u8>| #[trigger]
            self.screenings().contains_key(a) ==> self.screenings()[a].address@ == a
        &&& forall|k: Seq<u8>| #[trigger]
            self.reports().contains_key(k) ==> {
                &&& k == report_key(self.reports()[k].subject@, self.reports()[k].timestamp)
                &&& self.trail_of(self.reports()[k].subject@).contains(k)
            }
    }

    /// What every change keeps: no list, source or report disappears, no
    /// stored report changes, and every audit trail only grows at its end.
    pub open spec fn keeps_history(old: &ComplianceFilter, new: &ComplianceFilter) -> bool {
        &&& forall|s: Seq<u8>| #[trigger] old.lists().contains_key(s) ==> new.lists().contains_key(s)
        &&& old.list_index().is_prefix_of(new.list_index())
        &&& forall|k: Seq<u8>| #[trigger]
            old.reports().contains_key(k) ==> new.reports().contains_key(k) && new.reports()[k]
                == old.reports()[k]
        &&& forall|a: Seq<u8>| #[trigger] old.trail_of(a).is_prefix_of(new.trail_of(a))
    }

    /// `new` is `old` after the audit entry about `address` with `summary`
    /// and `flags` at `ledger`: written when no report has its key yet.
    pub open spec fn audited(
        old: &ComplianceFilter,
        new: &ComplianceFilter,
        address: Seq<u8>,
        summary: Seq<u8>,
        flags: Seq<u8>,
        ledger: Ledger,
    ) -> bool {
        let k = report_key(address, ledger.timestamp);
        &&& new.trail_of(address).contains(k)
        &&& if old.reports().contains_key(k) {
            &&& new.reports() == old.reports()
            &&& new.audit_index() == old.audit_index()
        } else {
            let rep = new.reports()[k];
            &&& new.reports() == old.reports().insert(k, rep)
            &&& rep.subject@ == address
            &&& rep.activity_summary@ == summary
            &&& rep.risk_flags@ == flags
            &&& rep.timestamp == ledger.timestamp
            &&& rep.ledger_sequence == ledger.sequence
            &&& new.audit_index() == old.audit_index().insert(address, old.trail_of(address).push(k))
        }
    }

    /// Lists, entries, rules and the source index are as in `old`.
    pub open spec fn same_lists_and_rules(old: &ComplianceFilter, new: &ComplianceFilter) -> bool {
        &&& new.lists() == old.lists()
        &&& new.entries() == old.entries()
        &&& new.rules() == old.rules()
        &&& new.list_index() == old.list_index()
    }

    /// A filter with nothing registered.
    pub fn new() -> (r: ComplianceFilter)
        ensures
            r.inv(),
            r.lists() == Map::<Seq<u8>, SanctionsList>::empty(),
            r.entries() == Map::<Seq<u8>, Seq<Seq<u8>>>::empty(),
            r.screenings() == Map::<Seq<u8>, ScreeningResult>::empty(),
            r.rules() == Map::<Seq<u8>, ComplianceRule>::empty(),
            r.reports() == Map::<Seq<u8>, RegulatoryReport>::empty(),
            r.audit_index() == Map::<Seq<u8>, Seq<Seq<u8>>>::empty(),
            r.list_index() == Seq::<Seq<u8>>::empty(),
    {
        let r = ComplianceFilter {
            lists: Table::new(),
            entries: Table::new(),
            screenings: Table::new(),
            rules: Table::new(),
            reports: Table::new(),
            audit_index: Table::new(),
            list_index: Vec::new(),
        };
        assert(r.entries() =~= Map::<Seq<u8>, Seq<Seq<u8>>>::empty());
        assert(r.audit_index() =~= Map::<Seq<u8>, Seq<Seq<u8>>>::empty());
        assert(r.list_index() =~= Seq::<Seq<u8>>::empty());
        r
    }


    /// The filter's state as lists of entries.
    pub fn into_parts(self) -> (r: ComplianceFilterParts)
        requires
            self.inv(),
        ensures
            r.valid(),
            r.lists() == self.lists(),
            r.entries() == self.entries(),
            r.screenings() == self.screenings(),
            r.rules() == self.rules(),
            r.reports() == self.reports(),
            r.audit_index() == self.audit_index(),
            byte_views(r.list_index@) == self.list_index(),
    {
        let ghost s = self;
        let ComplianceFilter { lists, entries, screenings, rules, reports, audit_index, list_index } = self;
        let r = ComplianceFilterParts {
            lists: lists.into_entries(),
            entries: entries.into_entries(),
            screenings: screenings.into_entries(),
            rules: rules.into_entries(),
            reports: reports.into_entries(),
            audit_index: audit_index.into_entries(),
            list_index,
        };
        assert(r.lists() == s.lists());
        assert(r.entries() =~= s.entries());
        assert(r.reports() == s.reports());
        assert(r.audit_index() =~= s.audit_index());
        assert(r.screenings() == s.screenings());
        assert forall|k: Seq<u8>| #[trigger] r.reports().contains_key(k) implies {
            &&& k == report_key(r.reports()[k].subject@, r.reports()[k].timestamp)
            &&& r.trail_of(r.reports()[k].subject@).contains(k)
        } by {
            assert(s.reports().contains_key(k));
            assert(r.trail_of(s.reports()[k].subject@) == s.trail_of(s.reports()[k].subject@));
        }
        r
    }

    /// The filter that `parts` describe, when they keep its invariant.
    pub fn from_parts(parts: ComplianceFilterParts) -> (r: Option<ComplianceFilter>)
        ensures
            r is Some <==> parts.valid(),
            r matches Some(cf) ==> {
                &&& cf.inv()
                &&& cf.lists() == parts.lists()
                &&& cf.entries() == parts.entries()
                &&& cf.screenings() == parts.screenings()
                &&& cf.rules() == parts.rules()
                &&& cf.reports() == parts.reports()
                &&& cf.audit_index() == parts.audit_index()
                &&& cf.list_index() == byte_views(parts.list_index@)
            },
    {
        let ghost p = parts;
        let ghost index = byte_views(parts.list_index@);
        if !no_duplicate_bytes(&parts.list_index) {
            return None;
        }
        let n = parts.lists.len();
        let mut i: usize = 0;
        while i < n
            invariant
                parts == p,
                index == byte_views(p.list_index@),
                n == parts.lists@.len(),
                i <= n,
                forall|j: int| 0 <= j < i ==> index.contains((#[trigger] parts.lists@[j]).0@),
            decreases n - i,
        {
            if !list_contains(&parts.list_index, &parts.lists[i].0) {
                proof {
                    if distinct_keys(parts.lists@) {
                        lemma_entries_map_index(parts.lists@, i as int);
                        assert(p.lists().contains_key(parts.lists@[i as int].0@));
                    }
                    assert(!p.valid());
                }
                return None;
            }
            i = i + 1;
        }
        let lists = match Table::from_entries(parts.lists) {
            Some(t) => t,
            None => return None,
        };
        let m = parts.list_index.len();
        let mut k: usize = 0;
        while k < m
            invariant
                parts == p,
                index == byte_views(p.list_index@),
                m == index.len(),
                k <= m,
                lists.wf(),
                lists.map() == p.lists(),
                forall|j: int| 0 <= j < k ==> p.lists().contains_key(#[trigger] index[j]),
            decreases m - k,
        {
            if !lists.contains_key(&parts.list_index[k]) {
                proof {
                    assert(index[k as int] == parts.list_index@[k as int]@);
                    assert(index.contains(index[k as int]));
                    assert(!p.valid());
                }
                return None;
            }
            k = k + 1;
        }
        let reports = match Table::from_entries(parts.reports) {
            Some(t) => t,
            None => return None,
        };
        let q = parts.audit_index.len();
        let mut a: usize = 0;
        while a < q
            invariant
                parts == p,
                q == parts.audit_index@.len(),
                a <= q,
                reports.wf(),
                reports.map() == p.reports(),
                forall|x: int, y: int|
                    0 <= x < a && 0 <= y < parts.audit_index@[x].1@.len() ==> p.reports().contains_key(
                        (#[trigger] parts.audit_index@[x].1@[y])@,
                    ),
            decreases q - a,
        {
            let keys = &parts.audit_index[a].1;
            let len = keys.len();
            let mut b: usize = 0;
            while b < len
                invariant
                    parts == p,
                    a < q,
                    q == parts.audit_index@.len(),
                    keys == parts.audit_index@[a as int].1,
                    len == keys@.len(),
                    b <= len,
                    reports.wf(),
                    reports.map() == p.reports(),
                    forall|x: int, y: int|
                        0 <= x < a && 0 <= y < parts.audit_index@[x].1@.len() ==> p.reports().contains_key(
                            (#[trigger] parts.audit_index@[x].1@[y])@,
                        ),
                    forall|y: int| 0 <= y < b ==> p.reports().contains_key((#[trigger] keys@[y])@),
                decreases len - b,
            {
                if !reports.contains_key(&keys[b]) {
                    proof {
                        if distinct_keys(parts.audit_index@) {
                            lemma_entries_map_index(parts.audit_index@, a as int);
                            let addr = parts.audit_index@[a as int].0@;
                            assert(p.audit_index().contains_key(addr));
                            assert(p.audit_index()[addr] == byte_views(keys@));
                            assert(p.audit_index()[addr][b as int] == keys@[b as int]@);
                        }
                        assert(!p.valid());
                    }
                    return None;
                }
                b = b + 1;
            }
            a = a + 1;
        }
        let ns = parts.screenings.len();
        let mut si: usize = 0;
        while si < ns
            invariant
                parts == p,
                ns == parts.screenings@.len(),
                si <= ns,
                forall|j: int|
                    0 <= j < si ==> (#[trigger] parts.screenings@[j]).0@ == parts.screenings@[j].1.address@,
            decreases ns - si,
        {
            if !bytes_eq(&parts.screenings[si].0, &parts.screenings[si].1.address.strkey) {
                proof {
                    if distinct_keys(parts.screenings@) {
                        lemma_entries_map_index(parts.screenings@, si as int);
                        assert(p.screenings().contains_key(parts.screenings@[si as int].0@));
                    }
                    assert(!p.valid());
                }
                return None;
            }
            si = si + 1;
        }
        let entries = match Table::from_entries(parts.entries) {
            Some(t) => t,
            None => return None,
        };
        let screenings = match Table::from_entries(parts.screenings) {
            Some(t) => t,
            None => return None,
        };
        let rules = match Table::from_entries(parts.rules) {
            Some(t) => t,
            None => return None,
        };
        let audit_index = match Table::from_entries(parts.audit_index) {
            Some(t) => t,
            None => return None,
        };
        let er = reports.entries_ref();
        let ghost filed_reports = er@;
        let nr = er.len();
        let mut ri: usize = 0;
        while ri < nr
            invariant
                parts == p,
                distinct_keys(er@),
                entries_map(er@) == p.reports(),
                er@ == filed_reports,
                nr == er@.len(),
                ri <= nr,
                audit_index.wf(),
                audit_index.map() == entries_map(p.audit_index@),
                forall|j: int|
                    0 <= j < ri ==> {
                        let e = #[trigger] er@[j];
                        &&& e.0@ == report_key(e.1.subject@, e.1.timestamp)
                        &&& p.trail_of(e.1.subject@).contains(e.0@)
                    },
            decreases nr - ri,
        {
            let e = &er[ri];
            let key = Self::make_report_key(&e.1.subject, e.1.timestamp);
            let filed = match audit_index.get(&e.1.subject.strkey) {
                Some(keys) => list_contains(keys, &e.0),
                None => false,
            };
            if !bytes_eq(&e.0, &key) || !filed {
                proof {
                    lemma_entries_map_index(er@, ri as int);
                    assert(p.reports().contains_key(er@[ri as int].0@));
                    assert(!p.valid());
                }
                return None;
            }
            ri = ri + 1;
        }
        let cf = ComplianceFilter {
            lists,
            entries,
            screenings,
            rules,
            reports,
            audit_index,
            list_index: parts.list_index,
        };
        proof {
            assert(cf.entries() =~= p.entries());
            assert(cf.audit_index() =~= p.audit_index());
            assert(cf.list_index() == index);
            assert forall|s: Seq<u8>| p.lists().contains_key(s) <==> #[trigger] index.contains(s) by {
                if p.lists().contains_key(s) {
                    let x = lemma_entries_map_key(p.lists@, s);
                }
                if index.contains(s) {
                    let x = choose|x: int| 0 <= x < index.len() && index[x] == s;
                }
            }
            assert forall|addr: Seq<u8>, y: int|
                p.audit_index().contains_key(addr) && 0 <= y < p.audit_index()[addr].len()
                    implies p.reports().contains_key(#[trigger] p.audit_index()[addr][y]) by {
                let x = lemma_entries_map_key(p.audit_index@, addr);
                assert(p.audit_index()[addr] == byte_views(p.audit_index@[x].1@));
                assert(p.audit_index()[addr][y] == (p.audit_index@[x].1@[y])@);
            }
            assert(cf.lists() == p.lists());
            assert(cf.reports() == p.reports());
            assert(cf.tables_wf());
            assert forall|x: Seq<u8>| #[trigger]
                p.screenings().contains_key(x) implies p.screenings()[x].address@ == x by {
                let j = lemma_entries_map_key(p.screenings@, x);
            }
            assert forall|k: Seq<u8>| #[trigger] p.reports().contains_key(k) implies {
                &&& k == report_key(p.reports()[k].subject@, p.reports()[k].timestamp)
                &&& p.trail_of(p.reports()[k].subject@).contains(k)
            } by {
                let j = lemma_entries_map_key(filed_reports, k);
            }
            assert forall|x: Seq<u8>| #[trigger] cf.trail_of(x) == p.trail_of(x) by {}
            assert(p.valid());
            assert(cf.screenings() == p.screenings());
            assert forall|x: Seq<u8>| #[trigger]
                cf.screenings().contains_key(x) implies cf.screenings()[x].address@ == x by {
                assert(p.screenings().contains_key(x));
            }
            assert forall|k: Seq<u8>| #[trigger] cf.reports().contains_key(k) implies {
                &&& k == report_key(cf.reports()[k].subject@, cf.reports()[k].timestamp)
                &&& cf.trail_of(cf.reports()[k].subject@).contains(k)
            } by {
                assert(p.reports().contains_key(k));
                assert(cf.trail_of(p.reports()[k].subject@) == p.trail_of(p.reports()[k].subject@));
            }
            assert(cf.inv());
        }
        Some(cf)
    }

    proof fn lemma_prefix_refl(s: Seq<Seq<u8>>)
        ensures
            s.is_prefix_of(s),
    {
        assert(s.subrange(0, s.len() as int) =~= s);
    }

    proof fn lemma_prefix_push(s: Seq<Seq<u8>>, x: Seq<u8>)
        ensures
            s.is_prefix_of(s.push(x)),
    {
        assert(s.push(x).subrange(0, s.len() as int) =~= s);
    }

    /// History is kept when lists, the source index, reports and trails are unchanged.
    proof fn lemma_history_unchanged(old: &ComplianceFilter, new: &ComplianceFilter)
        requires
            new.lists() == old.lists(),
            new.list_index() == old.list_index(),
            new.reports() == old.reports(),
            new.audit_index() == old.audit_index(),
        ensures
            ComplianceFilter::keeps_history(old, new),
    {
        Self::lemma_prefix_refl(old.list_index());
        assert forall|a: Seq<u8>| #[trigger] old.trail_of(a).is_prefix_of(new.trail_of(a)) by {
            Self::lemma_prefix_refl(old.trail_of(a));
        }
    }

    /// The screenings and filed reports keep their part of the invariant when
    /// screenings, reports and trails are unchanged.
    proof fn lemma_records_frame(old: &ComplianceFilter, new: &ComplianceFilter)
        requires
            old.inv(),
            new.screenings() == old.screenings(),
            new.reports() == old.reports(),
            new.audit_index() == old.audit_index(),
        ensures
            forall|a: Seq<u8>| #[trigger]
                new.screenings().contains_key(a) ==> new.screenings()[a].address@ == a,
            forall|k: Seq<u8>| #[trigger]
                new.reports().contains_key(k) ==> {
                    &&& k == report_key(new.reports()[k].subject@, new.reports()[k].timestamp)
                    &&& new.trail_of(new.reports()[k].subject@).contains(k)
                },
    {
        assert forall|k: Seq<u8>| #[trigger] new.reports().contains_key(k) implies {
            &&& k == report_key(new.reports()[k].subject@, new.reports()[k].timestamp)
            &&& new.trail_of(new.reports()[k].subject@).contains(k)
        } by {
            assert(old.reports().contains_key(k));
            assert(new.trail_of(old.reports()[k].subject@) == old.trail_of(old.reports()[k].subject@));
        }
    }

    /// Register or refresh the sanctions list of `source` with the oracle's
    /// hash and entry count; the list becomes active, and a new source is
    /// appended to the source index.
    pub fn update_sanctions_list(
        &mut self,
        ledger: &Ledger,
        source: Bytes,
        hash: [u8; 32],
        entry_count: u32,
    ) -> (r: Result<(), ComplianceFilterError>)
        requires
            old(self).inv(),
        ensures
            final(self).inv(),
            ComplianceFilter::keeps_history(old(self), final(self)),
            r == Ok::<(), ComplianceFilterError>(()),
            final(self).lists() == old(self).lists().insert(source@, final(self).lists()[source@]),
            final(self).lists()[source@] == (SanctionsList {
                source: final(self).lists()[source@].source,
                last_updated: ledger.timestamp,
                hash,
                active: true,
                entry_count,
            }),
            final(self).lists()[source@].source@ == source@,
            final(self).list_index() == if old(self).list_index().contains(source@) {
                old(self).list_index()
            } else {
                old(self).list_index().push(source@)
            },
            final(self).entries() == old(self).entries(),
            final(self).screenings() == old(self).screenings(),
            final(self).rules() == old(self).rules(),
            final(self).reports() == old(self).reports(),
            final(self).audit_index() == old(self).audit_index(),
    {
        let ghost old_s = *self;
        let key = copy_bytes(&source);
        let listed = list_contains(&self.list_index, &source);
        let index_entry = copy_bytes(&source);
        let list = SanctionsList {
            source,
            last_updated: ledger.timestamp,
            hash,
            active: true,
            entry_count,
        };
        let ghost l = list;
        self.lists.insert(key, list);
        if !listed {
            let ghost before = self.list_index@;
            self.list_index.push(index_entry);
            proof {
                assert(self.list_index@ == before.push(index_entry));
                assert(self.list_index() =~= old_s.list_index().push(index_entry@));
                let n = old_s.list_index().len() as int;
                assert forall|i: int, j: int|
                    0 <= i < self.list_index().len() && 0 <= j < self.list_index().len() && i
                        != j implies self.list_index()[i] != self.list_index()[j] by {
                    if i == n {
                        assert(old_s.list_index()[j] == self.list_index()[j]);
                    } else if j == n {
                        assert(old_s.list_index()[i] == self.list_index()[i]);
                    }
                }
                Self::lemma_prefix_push(old_s.list_index(), index_entry@);
            }
        } else {
            proof {
                Self::lemma_prefix_refl(old_s.list_index());
            }
        }
        proof {
            let k = l.source@;
            assert(self.lists()[k] == l);
            assert forall|x: Seq<u8>| self.lists().contains_key(x) <==> #[trigger] self.list_index().contains(x) by {
                if x != k {
                    if self.list_index().contains(x) && !listed {
                        let i = choose|i: int| 0 <= i < self.list_index().len() && self.list_index()[i] == x;
                        assert(old_s.list_index()[i] == x);
                    }
                    if old_s.list_index().contains(x) && !listed {
                        let i = choose|i: int| 0 <= i < old_s.list_index().len() && old_s.list_index()[i] == x;
                        assert(self.list_index()[i] == x);
                    }
                } else if !listed {
                    assert(self.list_index()[old_s.list_index().len() as int] == x);
                }
            }
            assert forall|a: Seq<u8>| #[trigger] old_s.trail_of(a).is_prefix_of(self.trail_of(a)) by {
                Self::lemma_prefix_refl(old_s.trail_of(a));
            }
            assert(self.reports == old_s.reports);
            assert(self.audit_index == old_s.audit_index);
            assert(self.reports() == old_s.reports());
            assert(self.audit_index() == old_s.audit_index());
            assert(self.tables_wf());
            assert(self.list_index().no_duplicates());
            assert(self.screenings == old_s.screenings);
            Self::lemma_records_frame(&old_s, self);
        }
        Ok(())
    }

    /// Load the addresses of the sanctions list of `source`, replacing any
    /// loaded before.  `NotFound` when the list is not registered.
    pub fn load_list_entries(&mut self, source: &Bytes, entries: Vec<Address>) -> (r: Result<
        (),
        ComplianceFilterError,
    >)
        requires
            old(self).inv(),
        ensures
            final(self).inv(),
            ComplianceFilter::keeps_history(old(self), final(self)),
            !old(self).lists().contains_key(source@) ==> r == Err::<(), ComplianceFilterError>(
                ComplianceFilterError::NotFound,
            ) && *final(self) == *old(self),
            old(self).lists().contains_key(source@) ==> {
                &&& r == Ok::<(), ComplianceFilterError>(())
                &&& final(self).entries() == old(self).entries().insert(
                    source@,
                    address_views(entries@),
                )
                &&& final(self).lists() == old(self).lists()
                &&& final(self).list_index() == old(self).list_index()
                &&& final(self).screenings() == old(self).screenings()
                &&& final(self).rules() == old(self).rules()
                &&& final(self).reports() == old(self).reports()
                &&& final(self).audit_index() == old(self).audit_index()
            },
    {
        if !self.lists.contains_key(source) {
            return Err(ComplianceFilterError::NotFound);
        }
        let ghost old_s = *self;
        let ghost es = entries;
        self.entries.insert(copy_bytes(source), entries);
        proof {
            assert(self.entries() =~= old_s.entries().insert(source@, address_views(es@)));
            assert(self.screenings == old_s.screenings);
            Self::lemma_records_frame(&old_s, self);
            Self::lemma_history_unchanged(&old_s, self);
        }
        Ok(())
    }

    /// Mark the sanctions list of `source` inactive, so that screening skips
    /// it.  `NotFound` when it is not registered.
    pub fn deactivate_sanctions_list(&mut self, ledger: &Ledger, source: &Bytes) -> (r: Result<
        (),
        ComplianceFilterError,
    >)
        requires
            old(self).inv(),
        ensures
            final(self).inv(),
            ComplianceFilter::keeps_history(old(self), final(self)),
            !old(self).lists().contains_key(source@) ==> r == Err::<(), ComplianceFilterError>(
                ComplianceFilterError::NotFound,
            ) && *final(self) == *old(self),
            old(self).lists().contains_key(source@) ==> {
                &&& r == Ok::<(), ComplianceFilterError>(())
                &&& final(self).lists() == old(self).lists().insert(
                    source@,
                    SanctionsList {
                        active: false,
                        last_updated: ledger.timestamp,
                        ..old(self).lists()[source@]
                    },
                )
                &&& final(self).entries() == old(self).entries()
                &&& final(self).list_index() == old(self).list_index()
                &&& final(self).screenings() == old(self).screenings()
                &&& final(self).rules() == old(self).rules()
                &&& final(self).reports() == old(self).reports()
                &&& final(self).audit_index() == old(self).audit_index()
            },
    {
        if !self.lists.contains_key(source) {
            return Err(ComplianceFilterError::NotFound);
        }
        let ghost old_s = *self;
        let mut list = match self.lists.remove(source) {
            Some(l) => l,
            None => return Err(ComplianceFilterError::NotFound),
        };
        list.active = false;
        list.last_updated = ledger.timestamp;
        let ghost l = list;
        self.lists.insert(copy_bytes(source), list);
        proof {
            assert(self.lists() =~= old_s.lists().insert(source@, l));
            assert(self.lists().dom() =~= old_s.lists().dom());
            assert forall|x: Seq<u8>| self.lists().contains_key(x) <==> #[trigger] self.list_index().contains(x) by {
                assert(self.lists().contains_key(x) == old_s.lists().contains_key(x));
            }
            Self::lemma_prefix_refl(old_s.list_index());
            assert forall|a: Seq<u8>| #[trigger] old_s.trail_of(a).is_prefix_of(self.trail_of(a)) by {
                Self::lemma_prefix_refl(old_s.trail_of(a));
            }
            assert(self.reports == old_s.reports);
            assert(self.audit_index == old_s.audit_index);
            assert(self.reports() == old_s.reports());
            assert(self.audit_index() == old_s.audit_index());
            assert(self.screenings == old_s.screenings);
            Self::lemma_records_frame(&old_s, self);
        }
        Ok(())
    }


    /// Whether `list` holds `address`.
    fn addresses_contain(list: &Vec<Address>, address: &Address) -> (r: bool)
        ensures
            r == address_views(list@).contains(address@),
    {
        let n = list.len();
        let mut i: usize = 0;
        while i < n
            invariant
                n == list@.len(),
                i <= n,
                forall|j: int| 0 <= j < i ==> address_views(list@)[j] != address@,
            decreases n - i,
        {
            if list[i].same(address) {
                assert(address_views(list@)[i as int] == address@);
                return true;
            }
            i = i + 1;
        }
        false
    }

    /// Whether the active list of `source` holds `address`.
    fn check_listed(&self, source: &Bytes, address: &Address) -> (r: bool)
        requires
            self.inv(),
        ensures
            r == self.listed_in(source@, address@),
    {
        let active = match self.lists.get(source) {
            Some(l) => l.active,
            None => false,
        };
        if !active {
            return false;
        }
        match self.entries.get(source) {
            Some(es) => {
                assert(self.entries()[source@] == address_views(es@));
                Self::addresses_contain(es, address)
            },
            None => {
                assert(!self.entries().contains_key(source@));
                false
            },
        }
    }

    /// The screening status for a risk score, as text.
    fn status_from_score(score: u32, blocked: bool) -> (r: Bytes)
        ensures
            r@ == screening_status(score, blocked),
    {
        proof {
            reveal_strlit("blocked");
            reveal_strlit("suspicious");
            reveal_strlit("clear");
        }
        if blocked || score >= MAX_RISK_SCORE {
            ascii_vec("blocked")
        } else if score > SUSPICIOUS_ABOVE {
            ascii_vec("suspicious")
        } else {
            ascii_vec("clear")
        }
    }

    /// Screen `address` against the active lists of every registered
    /// source, without storing anything; also reports whether it is blocked.
    fn run_screening(&self, ledger: &Ledger, address: &Address) -> (r: (ScreeningResult, bool))
        requires
            self.inv(),
        ensures
            is_screening(r.0, address@, self.matches_for(address@), ledger.timestamp),
            r.1 == (self.matches_for(address@).len() > 0),
    {
        let mut matches: Vec<Bytes> = Vec::new();
        let ghost sources = self.list_index();
        let n = self.list_index.len();
        let mut i: usize = 0;
        assert(byte_views(matches@) =~= self.matching(sources.subrange(0, 0), address@));
        while i < n
            invariant
                self.inv(),
                sources == self.list_index(),
                n == sources.len(),
                i <= n,
                byte_views(matches@) == self.matching(sources.subrange(0, i as int), address@),
            decreases n - i,
        {
            let ghost next = sources.subrange(0, i as int + 1);
            assert(next.drop_last() =~= sources.subrange(0, i as int));
            assert(next.last() == self.list_index[i as int]@);
            if self.check_listed(&self.list_index[i], address) {
                let m = copy_bytes(&self.list_index[i]);
                let ghost before = matches@;
                matches.push(m);
                assert(byte_views(matches@) =~= byte_views(before).push(m@));
            }
            i = i + 1;
        }
        assert(sources.subrange(0, n as int) =~= sources);
        let blocked = matches.len() > 0;
        let risk_score: u32 = if blocked { MAX_RISK_SCORE } else { 0 };
        let status = Self::status_from_score(risk_score, blocked);
        let result = ScreeningResult {
            address: address.copy(),
            status,
            risk_score,
            matches,
            timestamp: ledger.timestamp,
        };
        (result, blocked)
    }

    /// The risk flags of a list of matched sources, as text.
    fn risk_flags_bytes(matches: &Vec<Bytes>) -> (r: Bytes)
        ensures
            r@ == risk_flags(byte_views(matches@)),
    {
        proof {
            reveal_strlit("none");
            reveal_strlit("matched:");
            reveal_strlit(",");
        }
        if matches.len() == 0 {
            return ascii_vec("none");
        }
        let ghost all = byte_views(matches@);
        let comma = ascii_vec(",");
        let mut out = ascii_vec("matched:");
        let n = matches.len();
        let mut i: usize = 0;
        assert(flag_list(all.subrange(0, 0)) =~= Seq::<u8>::empty());
        assert(out@ =~= ascii("matched:"@) + flag_list(all.subrange(0, 0)));
        while i < n
            invariant
                all == byte_views(matches@),
                n == matches@.len(),
                comma@ == ascii(","@),
                i <= n,
                out@ == ascii("matched:"@) + flag_list(all.subrange(0, i as int)),
            decreases n - i,
        {
            let ghost next = all.subrange(0, i as int + 1);
            assert(next.drop_last() =~= all.subrange(0, i as int));
            assert(next.last() == all[i as int]);
            let with_item = concat(&out, &matches[i]);
            out = concat(&with_item, &comma);
            i = i + 1;
            assert(out@ =~= ascii("matched:"@) + flag_list(all.subrange(0, i as int)));
        }
        assert(all.subrange(0, n as int) =~= all);
        out
    }

    /// The key of the report about `subject` at time `ts`.
    fn make_report_key(subject: &Address, ts: u64) -> (r: Bytes)
        ensures
            r@ == report_key(subject@, ts),
    {
        proof {
            reveal_strlit("audit:");
            reveal_strlit(":");
        }
        let a = concat(&ascii_vec("audit:"), &subject.strkey);
        let b = concat(&a, &ascii_vec(":"));
        concat(&b, &decimal_bytes(ts))
    }

    /// Write the report about `subject` with `summary` and `flags` at the
    /// ledger's time, unless a report with its key exists; the key is returned.
    fn record_report(&mut self, ledger: &Ledger, subject: &Address, summary: Bytes, flags: Bytes) -> (r:
        Bytes)
        requires
            old(self).inv(),
        ensures
            final(self).inv(),
            ComplianceFilter::keeps_history(old(self), final(self)),
            r@ == report_key(subject@, ledger.timestamp),
            ComplianceFilter::audited(old(self), final(self), subject@, summary@, flags@, *ledger),
            ComplianceFilter::same_lists_and_rules(old(self), final(self)),
            final(self).screenings() == old(self).screenings(),
    {
        let ghost old_s = *self;
        let key = Self::make_report_key(subject, ledger.timestamp);
        if !self.reports.contains_key(&key) {
            let report = RegulatoryReport {
                subject: subject.copy(),
                activity_summary: summary,
                risk_flags: flags,
                timestamp: ledger.timestamp,
                ledger_sequence: ledger.sequence,
            };
            let ghost rep = report;
            self.reports.insert(copy_bytes(&key), report);
            append_to_list(&mut self.audit_index, copy_bytes(&subject.strkey), &key);
            proof {
                let k = key@;
                let a = subject@;
                assert(self.reports()[k] == rep);
                assert(self.audit_index() == appended(old_s.audit_index(), a, k));
                assert(self.audit_index() =~= old_s.audit_index().insert(a, old_s.trail_of(a).push(k)));
                assert forall|b: Seq<u8>, i: int|
                    self.audit_index().contains_key(b) && 0 <= i < self.audit_index()[b].len()
                        implies self.reports().contains_key(#[trigger] self.audit_index()[b][i]) by {
                    if b != a || i < old_s.trail_of(a).len() {
                        assert(old_s.reports().contains_key(old_s.audit_index()[b][i]));
                    }
                }
                assert forall|b: Seq<u8>| #[trigger] old_s.trail_of(b).is_prefix_of(self.trail_of(b)) by {
                    if b == a {
                        Self::lemma_prefix_push(old_s.trail_of(a), k);
                    } else {
                        Self::lemma_prefix_refl(old_s.trail_of(b));
                    }
                }
                Self::lemma_prefix_refl(old_s.list_index());
                assert(self.lists == old_s.lists);
                assert(self.lists() == old_s.lists());
                assert(self.tables_wf());
                assert(self.screenings == old_s.screenings);
                assert forall|x: Seq<u8>| #[trigger]
                    self.screenings().contains_key(x) implies self.screenings()[x].address@ == x by {
                    assert(old_s.screenings().contains_key(x));
                }
                assert(self.trail_of(a) == old_s.trail_of(a).push(k));
                assert(self.trail_of(a)[old_s.trail_of(a).len() as int] == k);
                assert forall|x: Seq<u8>| #[trigger] self.reports().contains_key(x) implies {
                    &&& x == report_key(self.reports()[x].subject@, self.reports()[x].timestamp)
                    &&& self.trail_of(self.reports()[x].subject@).contains(x)
                } by {
                    if x == k {
                        assert(self.reports()[x] == rep);
                        assert(rep.subject@ == a);
                        assert(self.trail_of(a)[old_s.trail_of(a).len() as int] == k);
                        assert(self.trail_of(a).contains(k));
                    } else {
                        assert(old_s.reports().contains_key(x));
                        let s = old_s.reports()[x].subject@;
                        assert(old_s.trail_of(s).contains(x));
                        let i = choose|i: int| 0 <= i < old_s.trail_of(s).len() && old_s.trail_of(s)[i] == x;
                        if s == a {
                            assert(self.trail_of(s)[i] == x);
                        } else {
                            assert(self.trail_of(s) == old_s.trail_of(s));
                        }
                    }
                }
            }
        } else {
            proof {
                Self::lemma_history_unchanged(&old_s, self);
                assert(self.screenings == old_s.screenings);
                Self::lemma_records_frame(&old_s, self);
                let k = key@;
                let rep = old_s.reports()[k];
                lemma_report_key_subject(subject@, ledger.timestamp, rep.subject@, rep.timestamp);
            }
        }
        key
    }

    /// Write the automatic audit entry for `action` on `address`: the
    /// summary is `action:detail` and the flags are `detail`.
    fn append_audit(&mut self, ledger: &Ledger, address: &Address, action: &Bytes, detail: &Bytes)
        requires
            old(self).inv(),
        ensures
            final(self).inv(),
            ComplianceFilter::keeps_history(old(self), final(self)),
            ComplianceFilter::audited(
                old(self),
                final(self),
                address@,
                audit_summary(action@, detail@),
                detail@,
                *ledger,
            ),
            ComplianceFilter::same_lists_and_rules(old(self), final(self)),
            final(self).screenings() == old(self).screenings(),
    {
        proof {
            reveal_strlit(":");
        }
        let with_colon = concat(action, &ascii_vec(":"));
        let summary = concat(&with_colon, detail);
        self.record_report(ledger, address, summary, copy_bytes(detail));
    }


    /// A copy of a screening result.
    fn copy_screening(r: &ScreeningResult) -> (c: ScreeningResult)
        ensures
            c.address@ == r.address@,
            c.status@ == r.status@,
            c.risk_score == r.risk_score,
            byte_views(c.matches@) == byte_views(r.matches@),
            c.timestamp == r.timestamp,
    {
        ScreeningResult {
            address: r.address.copy(),
            status: copy_bytes(&r.status),
            risk_score: r.risk_score,
            matches: copy_byte_list(&r.matches),
            timestamp: r.timestamp,
        }
    }

    /// Screen `address` against the active lists of all registered sources,
    /// store the result as its latest screening and write an audit entry.
    /// Status is `blocked` with score 100 when some active list holds the
    /// address, which then gives `AddressBlocked`; otherwise `clear` with
    /// score 0, returned.
    pub fn screen_address(&mut self, ledger: &Ledger, address: &Address) -> (r: Result<
        ScreeningResult,
        ComplianceFilterError,
    >)
        requires
            old(self).inv(),
        ensures
            final(self).inv(),
            ComplianceFilter::keeps_history(old(self), final(self)),
            screened(old(self), final(self), address@, *ledger, r),
    {
        let ghost old_s = *self;
        let (result, blocked) = self.run_screening(ledger, address);
        let stored = Self::copy_screening(&result);
        let ghost st = stored;
        self.screenings.insert(copy_bytes(&address.strkey), stored);
        let ghost mid = *self;
        proof {
            assert(self.lists == old_s.lists);
            assert(self.entries == old_s.entries);
            assert(self.reports == old_s.reports);
            assert(self.audit_index == old_s.audit_index);
            assert(self.rules == old_s.rules);
            assert(self.list_index == old_s.list_index);
            assert(self.screenings()[address@] == st);
            assert(self.lists() == old_s.lists());
            assert(self.list_index() == old_s.list_index());
            assert(self.reports() == old_s.reports());
            assert(self.audit_index() == old_s.audit_index());
            assert(self.tables_wf());
            assert forall|x: Seq<u8>| #[trigger]
                self.screenings().contains_key(x) implies self.screenings()[x].address@ == x by {
                if x != address@ {
                    assert(old_s.screenings().contains_key(x));
                }
            }
            assert forall|x: Seq<u8>| #[trigger] self.reports().contains_key(x) implies {
                &&& x == report_key(self.reports()[x].subject@, self.reports()[x].timestamp)
                &&& self.trail_of(self.reports()[x].subject@).contains(x)
            } by {
                assert(old_s.reports().contains_key(x));
                assert(self.trail_of(old_s.reports()[x].subject@) == old_s.trail_of(old_s.reports()[x].subject@));
            }
            assert(self.inv());
            Self::lemma_history_unchanged(&old_s, &mid);
        }
        let flags = Self::risk_flags_bytes(&result.matches);
        proof {
            reveal_strlit("screen_address");
        }
        self.append_audit(ledger, address, &ascii_vec("screen_address"), &flags);
        proof {
            Self::lemma_matching_frame(&old_s, &mid, old_s.list_index(), address@);
            assert forall|a: Seq<u8>| #[trigger] old_s.trail_of(a).is_prefix_of(self.trail_of(a)) by {
                assert(old_s.trail_of(a) == mid.trail_of(a));
            }
        }
        if blocked {
            return Err(ComplianceFilterError::AddressBlocked);
        }
        if result.risk_score > SUSPICIOUS_ABOVE {
            return Err(ComplianceFilterError::HighRisk);
        }
        Ok(result)
    }

    /// The address that a `did:stellar:<address>` DID names: the bytes after
    /// the 12-byte method prefix, up to the next `:`.  `NotFound` when the
    /// DID is no longer than the prefix.  The prefix itself is not checked.
    pub fn did_bytes_to_address(did: &Bytes) -> (r: Result<Address, ComplianceFilterError>)
        ensures
            match did_address(did@) {
                Ok(a) => r matches Ok(addr) && addr@ == a,
                Err(e) => r == Err::<Address, ComplianceFilterError>(e),
            },
    {
        let prefix_len: usize = 12;
        if did.len() <= prefix_len {
            return Err(ComplianceFilterError::NotFound);
        }
        let n = did.len();
        let ghost rest = did@.subrange(12, n as int);
        let mut out: Vec<u8> = Vec::new();
        let mut i: usize = prefix_len;
        let mut stop = false;
        assert(did@.subrange(i as int, n as int) =~= rest);
        assert(out@ + rest =~= rest);
        while i < n && !stop
            invariant
                n == did@.len(),
                12 <= i <= n,
                rest == did@.subrange(12, n as int),
                !stop ==> until_colon(rest) == out@ + until_colon(did@.subrange(i as int, n as int)),
                stop ==> until_colon(rest) == out@,
            decreases n - i + (if stop { 0int } else { 1int }),
        {
            let ghost tail = did@.subrange(i as int, n as int);
            assert(tail[0] == did@[i as int]);
            assert(tail.drop_first() =~= did@.subrange(i as int + 1, n as int));
            let b = did[i];
            if b == 58u8 {
                assert(until_colon(tail) =~= Seq::<u8>::empty());
                assert(out@ + Seq::<u8>::empty() =~= out@);
                stop = true;
            } else {
                let ghost before = out@;
                out.push(b);
                assert(out@ + until_colon(did@.subrange(i as int + 1, n as int)) =~= before
                    + until_colon(tail));
                i = i + 1;
            }
        }
        proof {
            if !stop {
                assert(until_colon(did@.subrange(n as int, n as int)) =~= Seq::<u8>::empty());
                assert(out@ + Seq::<u8>::empty() =~= out@);
            }
        }
        Ok(Address::new(out))
    }

    /// Screen the address that a `did:stellar:<address>` DID names, as
    /// `screen_address` does.  `NotFound` when the DID is too short.
    pub fn screen_did(&mut self, ledger: &Ledger, did_bytes: &Bytes) -> (r: Result<
        ScreeningResult,
        ComplianceFilterError,
    >)
        requires
            old(self).inv(),
        ensures
            final(self).inv(),
            ComplianceFilter::keeps_history(old(self), final(self)),
            match did_address(did_bytes@) {
                Err(e) => r == Err::<ScreeningResult, ComplianceFilterError>(e) && *final(self)
                    == *old(self),
                Ok(a) => screened(old(self), final(self), a, *ledger, r),
            },
    {
        let address = match Self::did_bytes_to_address(did_bytes) {
            Ok(a) => a,
            Err(e) => return Err(e),
        };
        self.screen_address(ledger, &address)
    }

    /// Set the risk score of `address` (from a risk oracle), keeping its
    /// matches: the status follows the new score, and an audit entry with
    /// `reason` is written.  `InvalidRiskScore` when the score exceeds 100.
    pub fn update_risk_score(
        &mut self,
        ledger: &Ledger,
        address: &Address,
        new_score: u32,
        reason: &Bytes,
    ) -> (r: Result<(), ComplianceFilterError>)
        requires
            old(self).inv(),
        ensures
            final(self).inv(),
            ComplianceFilter::keeps_history(old(self), final(self)),
            new_score > MAX_RISK_SCORE ==> r == Err::<(), ComplianceFilterError>(
                ComplianceFilterError::InvalidRiskScore,
            ) && *final(self) == *old(self),
            new_score <= MAX_RISK_SCORE ==> {
                let nr = final(self).screenings()[address@];
                &&& r == Ok::<(), ComplianceFilterError>(())
                &&& final(self).screenings() == old(self).screenings().insert(address@, nr)
                &&& nr.risk_score == new_score
                &&& nr.timestamp == ledger.timestamp
                &&& nr.status@ == screening_status(new_score, nr.matches@.len() > 0)
                &&& old(self).screenings().contains_key(address@) ==> nr == ScreeningResult {
                    status: nr.status,
                    risk_score: new_score,
                    timestamp: ledger.timestamp,
                    ..old(self).screenings()[address@]
                }
                &&& nr.address@ == address@
                &&& !old(self).screenings().contains_key(address@) ==> nr.matches@.len() == 0
                &&& ComplianceFilter::audited(
                    old(self),
                    final(self),
                    address@,
                    audit_summary(ascii("risk_score_update"@), reason@),
                    reason@,
                    *ledger,
                )
                &&& ComplianceFilter::same_lists_and_rules(old(self), final(self))
            },
    {
        if new_score > MAX_RISK_SCORE {
            return Err(ComplianceFilterError::InvalidRiskScore);
        }
        let ghost old_s = *self;
        proof {
            reveal_strlit("clear");
            reveal_strlit("risk_score_update");
        }
        let mut result = match self.screenings.remove(&address.strkey) {
            Some(res) => res,
            None => ScreeningResult {
                address: address.copy(),
                status: ascii_vec("clear"),
                risk_score: 0,
                matches: Vec::new(),
                timestamp: 0,
            },
        };
        result.risk_score = new_score;
        result.status = Self::status_from_score(new_score, result.matches.len() > 0);
        result.timestamp = ledger.timestamp;
        let ghost nr = result;
        self.screenings.insert(copy_bytes(&address.strkey), result);
        let ghost mid = *self;
        proof {
            assert(self.screenings() =~= old_s.screenings().insert(address@, nr));
            assert(self.lists == old_s.lists);
            assert(self.entries == old_s.entries);
            assert(self.reports == old_s.reports);
            assert(self.audit_index == old_s.audit_index);
            assert(self.rules == old_s.rules);
            assert(self.list_index == old_s.list_index);
            assert(self.lists() == old_s.lists());
            assert(self.list_index() == old_s.list_index());
            assert(self.reports() == old_s.reports());
            assert(self.audit_index() == old_s.audit_index());
        }
        self.append_audit(ledger, address, &ascii_vec("risk_score_update"), reason);
        proof {
            assert forall|a: Seq<u8>| #[trigger] old_s.trail_of(a).is_prefix_of(self.trail_of(a)) by {
                assert(old_s.trail_of(a) == mid.trail_of(a));
            }
        }
        Ok(())
    }

    /// The latest screening of `address`, if any.
    pub fn get_screening_result(&self, address: &Address) -> (r: Option<&ScreeningResult>)
        requires
            self.inv(),
        ensures
            r is Some <==> self.screenings().contains_key(address@),
            r matches Some(res) ==> *res == self.screenings()[address@],
    {
        self.screenings.get(&address.strkey)
    }

    /// Register (or replace) the active rule of `jurisdiction`.
    pub fn register_compliance_rule(
        &mut self,
        ledger: &Ledger,
        jurisdiction: Bytes,
        requirement: Bytes,
        enforcement: Bytes,
    ) -> (r: Result<(), ComplianceFilterError>)
        requires
            old(self).inv(),
        ensures
            final(self).inv(),
            ComplianceFilter::keeps_history(old(self), final(self)),
            r == Ok::<(), ComplianceFilterError>(()),
            ({
                let rule = final(self).rules()[jurisdiction@];
                &&& final(self).rules() == old(self).rules().insert(jurisdiction@, rule)
                &&& rule == ComplianceRule {
                    jurisdiction: rule.jurisdiction,
                    requirement,
                    enforcement,
                    active: true,
                    created: ledger.timestamp,
                }
                &&& rule.jurisdiction@ == jurisdiction@
            }),
            final(self).lists() == old(self).lists(),
            final(self).entries() == old(self).entries(),
            final(self).list_index() == old(self).list_index(),
            final(self).screenings() == old(self).screenings(),
            final(self).reports() == old(self).reports(),
            final(self).audit_index() == old(self).audit_index(),
    {
        let ghost old_s = *self;
        let key = copy_bytes(&jurisdiction);
        let rule = ComplianceRule {
            jurisdiction,
            requirement,
            enforcement,
            active: true,
            created: ledger.timestamp,
        };
        let ghost ru = rule;
        self.rules.insert(key, rule);
        proof {
            assert(self.rules()[ru.jurisdiction@] == ru);
            assert(self.lists == old_s.lists);
            assert(self.entries == old_s.entries);
            assert(self.reports == old_s.reports);
            assert(self.audit_index == old_s.audit_index);
            assert(self.list_index == old_s.list_index);
            assert(self.screenings == old_s.screenings);
            assert(self.lists() == old_s.lists());
            assert(self.list_index() == old_s.list_index());
            assert(self.reports() == old_s.reports());
            assert(self.audit_index() == old_s.audit_index());
            assert(self.tables_wf());
            assert(self.screenings == old_s.screenings);
            Self::lemma_records_frame(&old_s, self);
            Self::lemma_history_unchanged(&old_s, self);
        }
        Ok(())
    }

    /// The rule of `jurisdiction`, if registered.
    pub fn get_compliance_rule(&self, jurisdiction: &Bytes) -> (r: Option<&ComplianceRule>)
        requires
            self.inv(),
        ensures
            r is Some <==> self.rules().contains_key(jurisdiction@),
            r matches Some(rule) ==> *rule == self.rules()[jurisdiction@],
    {
        self.rules.get(jurisdiction)
    }

    /// File a regulatory report about `subject` at the ledger's time and
    /// return its key `audit:<subject>:<timestamp>`.  A report already filed
    /// under that key is kept as it is: reports are never overwritten.
    pub fn file_regulatory_report(
        &mut self,
        ledger: &Ledger,
        subject: &Address,
        activity_summary: Bytes,
        risk_flags: Bytes,
    ) -> (r: Result<Bytes, ComplianceFilterError>)
        requires
            old(self).inv(),
        ensures
            final(self).inv(),
            ComplianceFilter::keeps_history(old(self), final(self)),
            r matches Ok(k) && k@ == report_key(subject@, ledger.timestamp),
            ComplianceFilter::audited(
                old(self),
                final(self),
                subject@,
                activity_summary@,
                risk_flags@,
                *ledger,
            ),
            ComplianceFilter::same_lists_and_rules(old(self), final(self)),
            final(self).screenings() == old(self).screenings(),
    {
        let key = self.record_report(ledger, subject, activity_summary, risk_flags);
        Ok(key)
    }

    /// The keys of the reports about `subject`, oldest first.
    pub fn get_audit_trail(&self, subject: &Address) -> (r: Vec<Bytes>)
        requires
            self.inv(),
        ensures
            byte_views(r@) == self.trail_of(subject@),
    {
        match self.audit_index.get(&subject.strkey) {
            Some(l) => copy_byte_list(l),
            None => {
                let r: Vec<Bytes> = Vec::new();
                assert(byte_views(r@) =~= Seq::<Seq<u8>>::empty());
                r
            },
        }
    }

    /// The report filed under `report_key`, if any.
    pub fn get_regulatory_report(&self, report_key: &Bytes) -> (r: Option<&RegulatoryReport>)
        requires
            self.inv(),
        ensures
            r is Some <==> self.reports().contains_key(report_key@),
            r matches Some(rep) ==> *rep == self.reports()[report_key@],
    {
        self.reports.get(report_key)
    }

    /// Screen each address in turn, storing nothing.
    pub fn batch_screen_addresses(&self, ledger: &Ledger, addresses: &Vec<Address>) -> (r: Vec<
        ScreeningResult,
    >)
        requires
            self.inv(),
        ensures
            r@.len() == addresses@.len(),
            forall|i: int|
                0 <= i < r@.len() ==> is_screening(
                    #[trigger] r@[i],
                    addresses@[i]@,
                    self.matches_for(addresses@[i]@),
                    ledger.timestamp,
                ),
    {
        let mut results: Vec<ScreeningResult> = Vec::new();
        let n = addresses.len();
        let mut i: usize = 0;
        while i < n
            invariant
                self.inv(),
                n == addresses@.len(),
                i <= n,
                results@.len() == i,
                forall|j: int|
                    0 <= j < i ==> is_screening(
                        #[trigger] results@[j],
                        addresses@[j]@,
                        self.matches_for(addresses@[j]@),
                        ledger.timestamp,
                    ),
            decreases n - i,
        {
            let (result, _) = self.run_screening(ledger, &addresses[i]);
            results.push(result);
            i = i + 1;
        }
        results
    }

    proof fn lemma_matching_frame(a: &ComplianceFilter, b: &ComplianceFilter, sources: Seq<Seq<u8>>, address: Seq<u8>)
        requires
            a.lists() == b.lists(),
            a.entries() == b.entries(),
        ensures
            a.matching(sources, address) == b.matching(sources, address),
        decreases sources.len(),
    {
        if sources.len() > 0 {
            Self::lemma_matching_frame(a, b, sources.drop_last(), address);
        }
    }

    proof fn lemma_matching(&self, sources: Seq<Seq<u8>>, address: Seq<u8>)
        ensures
            self.matching(sources, address).len() > 0 <==> exists|i: int|
                0 <= i < sources.len() && self.listed_in(#[trigger] sources[i], address),
        decreases sources.len(),
    {
        if sources.len() > 0 {
            let rest = sources.drop_last();
            self.lemma_matching(rest, address);
            if exists|i: int| 0 <= i < rest.len() && self.listed_in(#[trigger] rest[i], address) {
                let i = choose|i: int| 0 <= i < rest.len() && self.listed_in(#[trigger] rest[i], address);
                assert(sources[i] == rest[i]);
            }
            if exists|i: int| 0 <= i < sources.len() && self.listed_in(#[trigger] sources[i], address) {
                let i = choose|i: int| 0 <= i < sources.len() && self.listed_in(#[trigger] sources[i], address);
                if i < rest.len() {
                    assert(rest[i] == sources[i]);
                }
            }
        }
    }

    /// Screening blocks an address exactly when some registered sanctions
    /// list that is active holds it.
    pub proof fn law_blocked_iff_listed(&self, address: Seq<u8>)
        requires
            self.inv(),
        ensures
            self.matches_for(address).len() > 0 <==> exists|s: Seq<u8>|
                self.lists().contains_key(s) && #[trigger] self.listed_in(s, address),
    {
        self.lemma_matching(self.list_index(), address);
        if exists|s: Seq<u8>| self.lists().contains_key(s) && #[trigger] self.listed_in(s, address) {
            let s = choose|s: Seq<u8>| self.lists().contains_key(s) && #[trigger] self.listed_in(s, address);
            assert(self.list_index().contains(s));
            let i = choose|i: int| 0 <= i < self.list_index().len() && self.list_index()[i] == s;
            assert(self.listed_in(self.list_index()[i], address));
        }
    }

    /// The sanctions list of `source`, if registered.
    pub fn get_sanctions_list(&self, source: &Bytes) -> (r: Option<&SanctionsList>)
        requires
            self.inv(),
        ensures
            r is Some <==> self.lists().contains_key(source@),
            r matches Some(l) ==> *l == self.lists()[source@],
    {
        self.lists.get(source)
    }
}

} // verus!
