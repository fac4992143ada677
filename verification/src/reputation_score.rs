//! Reputation scores: one score per address, raised and lowered by
//! configured weights on transaction and credential outcomes, and capped by
//! the configured maximum.

use vstd::prelude::*;
use crate::table::{distinct_keys, entries_map, lemma_entries_map_index, lemma_entries_map_key, Table};
use crate::types::{Address, Bytes};
use crate::bytes::copy_bytes;

verus! {

/// Errors of the reputation contract.
#[derive(Clone, Copy, Debug, PartialEq, Eq, PartialOrd, Ord, Structural)]
pub enum ReputationScoreError {
    NotInitialized,
    NotAdmin,
}

/// The scoring configuration.
#[derive(Clone, Copy, Debug, PartialEq, Eq, Structural)]
pub struct Config {
    pub max_score: u32,
    pub transaction_success_weight: u32,
    pub transaction_failure_weight: u32,
    pub credential_valid_weight: u32,
    pub credential_invalid_weight: u32,
}

/// `score` raised (`up`) or lowered by `weight`, saturating at the bounds of
/// `u32`, then capped at `max`.
pub open spec fn adjusted(score: u32, up: bool, weight: u32, max: u32) -> u32 {
    let moved: u32 = if up {
        if score + weight > u32::MAX {
            u32::MAX
        } else {
            (score + weight) as u32
        }
    } else {
        if score - weight < 0 {
            0
        } else {
            (score - weight) as u32
        }
    };
    if moved > max {
        max
    } else {
        moved
    }
}

/// A negative outcome never raises a score and stops at zero; a positive
/// one never lowers it below the cap and never passes the cap.
pub proof fn law_adjust_direction(score: u32, weight: u32, max: u32)
    ensures
        adjusted(score, false, weight, max) <= score,
        weight >= score ==> adjusted(score, false, weight, max) == 0,
        score <= max && weight < score ==> adjusted(score, false, weight, max) == score - weight,
        adjusted(score, true, weight, max) <= max,
        score <= max ==> adjusted(score, true, weight, max) >= score,
        score + weight <= max ==> adjusted(score, true, weight, max) == score + weight,
{
}

/// The contract's stored state as plain values, for keeping it in ledger
/// storage between calls.
pub struct ReputationScoreParts {
    /// The administrator, once initialized.
    pub admin: Option<Address>,
    /// The configuration, once initialized.
    pub config: Option<Config>,
    /// Scores, by address.
    pub scores: Vec<(Bytes, u32)>,
}

impl ReputationScoreParts {
    /// The scores that the parts hold.
    pub open spec fn scores(&self) -> Map<Seq<u8>, u32> {
        entries_map(self.scores@)
    }

    /// The parts describe a contract that keeps the contract's invariant.
    pub open spec fn valid(&self) -> bool {
        &&& distinct_keys(self.scores@)
        &&& (self.admin is Some <==> self.config is Some)
        &&& self.config is None ==> self.scores@.len() == 0
        &&& forall|a: Seq<u8>| #[trigger]
            self.scores().contains_key(a) ==> self.scores()[a] <= self.config->0.max_score
    }
}

/// The reputation contract's stored state.
pub struct ReputationScore {
    admin: Option<Address>,
    config: Option<Config>,
    scores: Table<u32>,
}

impl ReputationScore {
    /// The administrator set at initialization.
    pub closed spec fn admin(&self) -> Option<Seq<u8>> {
        match self.admin {
            Some(a) => Some(a@),
            None => None,
        }
    }

    /// The configuration set at initialization.
    pub closed spec fn config(&self) -> Option<Config> {
        self.config
    }

    /// Stored scores, keyed by address.
    pub closed spec fn scores(&self) -> Map<Seq<u8>, u32> {
        self.scores.map()
    }

    /// The score of `address`, zero when none is stored.
    pub open spec fn score_of(&self, address: Seq<u8>) -> u32 {
        if self.scores().contains_key(address) {
            self.scores()[address]
        } else {
            0
        }
    }

    /// The contract's invariant: initialization sets the administrator and
    /// the configuration together, and no stored score exceeds the
    /// configured maximum.
    pub open spec fn inv(&self) -> bool {
        &&& self.tables_wf()
        &&& (self.admin() is Some <==> self.config() is Some)
        &&& self.config() is None ==> self.scores() == Map::<Seq<u8>, u32>::empty()
        &&& forall|a: Seq<u8>| #[trigger]
            self.scores().contains_key(a) ==> self.scores()[a] <= self.config()->0.max_score
    }

    /// The score table is well formed.
    pub closed spec fn tables_wf(&self) -> bool {
        self.scores.wf()
    }

    /// A contract that is not initialized yet.
    pub fn new() -> (r: ReputationScore)
        ensures
            r.inv(),
            r.admin() is None,
            r.config() is None,
            r.scores() == Map::<Seq<u8>, u32>::empty(),
    {
        ReputationScore { admin: None, config: None, scores: Table::new() }
    }


    /// The contract's state as plain values.
    pub fn into_parts(self) -> (r: ReputationScoreParts)
        requires
            self.inv(),
        ensures
            r.valid(),
            r.admin matches Some(a) ==> self.admin() == Some(a@),
            r.admin is None ==> self.admin() is None,
            r.config == self.config(),
            r.scores() == self.scores(),
    {
        let ghost s = self;
        let ReputationScore { admin, config, scores } = self;
        let r = ReputationScoreParts { admin, config, scores: scores.into_entries() };
        proof {
            assert(r.scores() == s.scores());
            assert(r.config == s.config());
            if r.config is None {
                if r.scores@.len() > 0 {
                    lemma_entries_map_index(r.scores@, 0);
                    assert(s.scores().contains_key(r.scores@[0].0@));
                }
            }
        }
        r
    }

    /// The contract that `parts` describe, when they keep its invariant.
    pub fn from_parts(parts: ReputationScoreParts) -> (r: Option<ReputationScore>)
        ensures
            r is Some <==> parts.valid(),
            r matches Some(rep) ==> {
                &&& rep.inv()
                &&& rep.config() == parts.config
                &&& rep.scores() == parts.scores()
                &&& parts.admin matches Some(a) ==> rep.admin() == Some(a@)
                &&& parts.admin is None ==> rep.admin() is None
            },
    {
        let ghost p = parts;
        if parts.admin.is_some() != parts.config.is_some() {
            return None;
        }
        let max = match parts.config {
            Some(c) => c.max_score,
            None => {
                if parts.scores.len() > 0 {
                    return None;
                }
                0
            },
        };
        let n = parts.scores.len();
        let mut i: usize = 0;
        while i < n
            invariant
                parts == p,
                p.config is Some ==> max == p.config->0.max_score,
                p.config is None ==> n == 0,
                n == parts.scores@.len(),
                i <= n,
                forall|j: int| 0 <= j < i ==> (#[trigger] parts.scores@[j]).1 <= max,
            decreases n - i,
        {
            if parts.scores[i].1 > max {
                proof {
                    if distinct_keys(parts.scores@) {
                        lemma_entries_map_index(parts.scores@, i as int);
                        assert(p.scores().contains_key(parts.scores@[i as int].0@));
                    }
                    assert(!p.valid());
                }
                return None;
            }
            i = i + 1;
        }
        let scores = match Table::from_entries(parts.scores) {
            Some(t) => t,
            None => return None,
        };
        let rep = ReputationScore { admin: parts.admin, config: parts.config, scores };
        proof {
            assert forall|a: Seq<u8>| #[trigger] p.scores().contains_key(a) implies p.scores()[a] <= p.config->0.max_score by {
                let x = lemma_entries_map_key(p.scores@, a);
            }
            assert(rep.scores() == p.scores());
            assert(rep.config() == p.config);
            if p.config is None {
                assert(rep.scores() =~= Map::<Seq<u8>, u32>::empty()) by {
                    if exists|k: Seq<u8>| rep.scores().contains_key(k) {
                        let k = choose|k: Seq<u8>| rep.scores().contains_key(k);
                        let x = lemma_entries_map_key(p.scores@, k);
                    }
                }
            }
        }
        Some(rep)
    }

    /// Whether `initialize` was called.
    pub fn is_initialized(&self) -> (r: bool)
        requires
            self.inv(),
        ensures
            r == self.admin() is Some,
    {
        self.admin.is_some()
    }

    /// Set the administrator and the configuration, once.
    pub fn initialize(&mut self, admin: Address, config: Config)
        requires
            old(self).inv(),
            old(self).admin() is None,
        ensures
            final(self).inv(),
            final(self).admin() == Some(admin@),
            final(self).config() == Some(config),
            final(self).scores() == old(self).scores(),
    {
        self.admin = Some(admin);
        self.config = Some(config);
    }

    /// The score of `address`, zero when it has none.
    pub fn get_reputation_score(&self, address: &Address) -> (r: u32)
        requires
            self.inv(),
        ensures
            r == self.score_of(address@),
    {
        match self.scores.get(&address.strkey) {
            Some(s) => *s,
            None => 0,
        }
    }

    /// Move the score of `address` up or down by `weight`, capped at the
    /// configured maximum, store it and return it.
    fn adjust(&mut self, address: &Address, up: bool, weight: u32) -> (r: u32)
        requires
            old(self).inv(),
            old(self).config() is Some,
        ensures
            final(self).inv(),
            r == adjusted(old(self).score_of(address@), up, weight, old(self).config()->0.max_score),
            final(self).scores() == old(self).scores().insert(address@, r),
            final(self).admin() == old(self).admin(),
            final(self).config() == old(self).config(),
    {
        let max = match self.config {
            Some(c) => c.max_score,
            None => 0,
        };
        let old_score = self.get_reputation_score(address);
        let mut score = if up {
            old_score.saturating_add(weight)
        } else {
            old_score.saturating_sub(weight)
        };
        if score > max {
            score = max;
        }
        self.scores.insert(copy_bytes(&address.strkey), score);
        score
    }

    /// Record a transaction of `address`: a success raises its score by the
    /// success weight, a failure lowers it by the failure weight (not below
    /// zero); the score is capped at the maximum and returned.
    pub fn update_transaction_reputation(
        &mut self,
        address: &Address,
        success: bool,
        amount: i128,
    ) -> (r: Result<u32, ReputationScoreError>)
        requires
            old(self).inv(),
            old(self).config() is Some,
        ensures
            final(self).inv(),
            ({
                let c = old(self).config()->0;
                let s = adjusted(
                    old(self).score_of(address@),
                    success,
                    if success {
                        c.transaction_success_weight
                    } else {
                        c.transaction_failure_weight
                    },
                    c.max_score,
                );
                &&& r == Ok::<u32, ReputationScoreError>(s)
                &&& final(self).scores() == old(self).scores().insert(address@, s)
            }),
            final(self).admin() == old(self).admin(),
            final(self).config() == old(self).config(),
    {
        let weight = match self.config {
            Some(c) => if success {
                c.transaction_success_weight
            } else {
                c.transaction_failure_weight
            },
            None => 0,
        };
        Ok(self.adjust(address, success, weight))
    }

    /// Record a credential check of `address`: a valid credential raises its
    /// score by the valid weight, an invalid one lowers it by the invalid
    /// weight (not below zero); the score is capped and returned.
    pub fn update_credential_reputation(
        &mut self,
        address: &Address,
        valid: bool,
        credential_type: &Bytes,
    ) -> (r: Result<u32, ReputationScoreError>)
        requires
            old(self).inv(),
            old(self).config() is Some,
        ensures
            final(self).inv(),
            ({
                let c = old(self).config()->0;
                let s = adjusted(
                    old(self).score_of(address@),
                    valid,
                    if valid {
                        c.credential_valid_weight
                    } else {
                        c.credential_invalid_weight
                    },
                    c.max_score,
                );
                &&& r == Ok::<u32, ReputationScoreError>(s)
                &&& final(self).scores() == old(self).scores().insert(address@, s)
            }),
            final(self).admin() == old(self).admin(),
            final(self).config() == old(self).config(),
    {
        let weight = match self.config {
            Some(c) => if valid {
                c.credential_valid_weight
            } else {
                c.credential_invalid_weight
            },
            None => 0,
        };
        Ok(self.adjust(address, valid, weight))
    }

    /// No score ever exceeds the configured maximum.
    pub proof fn law_score_within_max(&self, address: Seq<u8>)
        requires
            self.inv(),
            self.config() is Some,
        ensures
            self.score_of(address) <= self.config()->0.max_score,
    {
    }
}

} // verus!
