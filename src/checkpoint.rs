//! The checkpoint: everything tracked (factories, venues, token metadata,
//! the blacklist) and how far discovery has got.
use vstd::prelude::*;
use crate::amm::AMM;
use crate::currency::Currency;
use crate::errors::EventLogError;
use crate::event_log::EventLog;
use crate::factory::Factory;
use crate::keyed::{
    contains_address, keys_unique, lemma_seq_to_map_contains, lemma_seq_to_map_index,
    lemma_seq_to_map_update, seq_to_map, AddressMap, H160Map,
};
use crate::primitives::H160;

verus! {

/// What a checkpoint stands for: the resume height and the address-keyed maps.
pub struct CheckpointView {
    pub block_number: Option<u64>,
    pub factories: Map<H160, Factory>,
    pub amms: Map<H160, AMM>,
    pub currencies: Map<H160, Currency>,
    pub blacklist: Set<H160>,
}

/// The earlier of two resume heights; an absent height means "from the
/// factories' creation" and is the earliest.
pub open spec fn min_height(a: Option<u64>, b: Option<u64>) -> Option<u64> {
    match (a, b) {
        (Some(x), Some(y)) => Some(if x <= y { x } else { y }),
        _ => None,
    }
}

/// Merging `incoming` into `base`: the earlier resume height, the union of
/// the maps with `incoming`'s entries winning on a shared address, and the
/// union of the blacklists.
pub open spec fn merge_spec(base: CheckpointView, incoming: CheckpointView) -> CheckpointView {
    CheckpointView {
        block_number: min_height(base.block_number, incoming.block_number),
        factories: base.factories.union_prefer_right(incoming.factories),
        amms: base.amms.union_prefer_right(incoming.amms),
        currencies: base.currencies.union_prefer_right(incoming.currencies),
        blacklist: base.blacklist + incoming.blacklist,
    }
}

/// Merging is associative, and on an address that both sides hold the
/// incoming entry is the one kept.
pub proof fn lemma_merge_associative(a: CheckpointView, b: CheckpointView, c: CheckpointView)
    ensures
        merge_spec(merge_spec(a, b), c) == merge_spec(a, merge_spec(b, c)),
        forall|k: H160| #[trigger] b.amms.contains_key(k) ==> merge_spec(a, b).amms[k] == b.amms[k],
        forall|k: H160| #[trigger] b.factories.contains_key(k) ==> merge_spec(a, b).factories[k] == b.factories[k],
        forall|k: H160| #[trigger] b.currencies.contains_key(k) ==> merge_spec(a, b).currencies[k] == b.currencies[k],
{
    let l = merge_spec(merge_spec(a, b), c);
    let r = merge_spec(a, merge_spec(b, c));
    assert(l.factories =~= r.factories);
    assert(l.amms =~= r.amms);
    assert(l.currencies =~= r.currencies);
    assert(l.blacklist =~= r.blacklist);
}

/// The tracked state.
pub struct Checkpoint {
    pub block_number: Option<u64>,
    pub factories: AddressMap<Factory>,
    pub amms: AddressMap<AMM>,
    pub currencies: AddressMap<Currency>,
    /// Tokens whose metadata could not be resolved even one at a time.
    pub currencies_blacklist: Vec<H160>,
}

/// The smallest creation block of `factories`, 0 when there are none.
pub open spec fn min_creation_block(factories: Seq<Factory>) -> u64
    decreases factories.len(),
{
    if factories.len() == 0 {
        0
    } else if factories.len() == 1 {
        factories[0].creation_block_spec()
    } else {
        let rest = min_creation_block(factories.drop_last());
        let b = factories.last().creation_block_spec();
        if b < rest {
            b
        } else {
            rest
        }
    }
}

/// The highest block of any venue's cursor, 0 when there are none.
pub open spec fn max_cursor_block(amms: Seq<AMM>) -> u64
    decreases amms.len(),
{
    if amms.len() == 0 {
        0
    } else {
        let rest = max_cursor_block(amms.drop_last());
        let b = amms.last().cursor_spec().0;
        if b > rest {
            b
        } else {
            rest
        }
    }
}

fn min_creation_block_of(factories: &Vec<Factory>) -> (r: u64)
    ensures
        r == min_creation_block(factories@),
{
    let mut best: u64 = 0;
    let mut i: usize = 0;
    while i < factories.len()
        invariant
            i <= factories@.len(),
            best == min_creation_block(factories@.subrange(0, i as int)),
        decreases factories@.len() - i,
    {
        proof {
            assert(factories@.subrange(0, i + 1).drop_last() =~= factories@.subrange(0, i as int));
        }
        let b = factories[i].creation_block();
        if i == 0 || b < best {
            best = b;
        }
        i = i + 1;
    }
    proof {
        assert(factories@.subrange(0, factories@.len() as int) =~= factories@);
    }
    best
}

fn max_cursor_block_of(amms: &Vec<AMM>) -> (r: u64)
    ensures
        r == max_cursor_block(amms@),
{
    let mut best: u64 = 0;
    let mut i: usize = 0;
    while i < amms.len()
        invariant
            i <= amms@.len(),
            best == max_cursor_block(amms@.subrange(0, i as int)),
        decreases amms@.len() - i,
    {
        proof {
            assert(amms@.subrange(0, i + 1).drop_last() =~= amms@.subrange(0, i as int));
        }
        let b = amms[i].last_synced_log().0;
        if b > best {
            best = b;
        }
        i = i + 1;
    }
    proof {
        assert(amms@.subrange(0, amms@.len() as int) =~= amms@);
    }
    best
}

impl Checkpoint {
    pub open spec fn wf(&self) -> bool {
        self.factories.wf() && self.amms.wf() && self.currencies.wf()
    }

    pub open spec fn view(&self) -> CheckpointView {
        CheckpointView {
            block_number: self.block_number,
            factories: self.factories.view(),
            amms: self.amms.view(),
            currencies: self.currencies.view(),
            blacklist: self.currencies_blacklist@.to_set(),
        }
    }

    pub fn is_well_formed(&self) -> (r: bool)
        ensures
            r == self.wf(),
    {
        self.factories.is_well_formed() && self.amms.is_well_formed() && self.currencies.is_well_formed()
    }

    /// An empty checkpoint that will discover venues of `factories`.
    pub fn new_from_factories(factories: AddressMap<Factory>) -> (r: Checkpoint)
        requires
            factories.wf(),
        ensures
            r.wf(),
            r.block_number is None,
            r.factories == factories,
            r.view().amms == Map::<H160, AMM>::empty(),
            r.view().currencies == Map::<H160, Currency>::empty(),
            r.view().blacklist == Set::<H160>::empty(),
    {
        let r = Checkpoint {
            block_number: None,
            factories,
            amms: AddressMap::new(),
            currencies: AddressMap::new(),
            currencies_blacklist: Vec::new(),
        };
        proof {
            assert(r.currencies_blacklist@.to_set() =~= Set::<H160>::empty());
        }
        r
    }

    /// Where discovery resumes: the stored height, or else the earliest
    /// factory creation block (0 without factories).
    pub fn block_number(&self) -> (r: u64)
        ensures
            r == match self.block_number {
                Some(b) => b,
                None => min_creation_block(self.factories.entries@),
            },
    {
        match self.block_number {
            Some(b) => b,
            None => min_creation_block_of(&self.factories.entries),
        }
    }

    /// The block of the newest log applied to any venue or, when no venue
    /// has applied one, the earliest factory creation block.
    pub fn last_synced_log_block(&self) -> (r: u64)
        ensures
            r == if max_cursor_block(self.amms.entries@) == 0 {
                min_creation_block(self.factories.entries@)
            } else {
                max_cursor_block(self.amms.entries@)
            },
    {
        let last = max_cursor_block_of(&self.amms.entries);
        if last == 0 {
            min_creation_block_of(&self.factories.entries)
        } else {
            last
        }
    }

    /// Merges `other` into this checkpoint (see `merge_spec`).
    pub fn extend(&mut self, other: Checkpoint)
        requires
            old(self).wf(),
            other.wf(),
        ensures
            final(self).wf(),
            final(self).view() == merge_spec(old(self).view(), other.view()),
    {
        self.block_number = match (self.block_number, other.block_number) {
            (Some(x), Some(y)) => Some(if x <= y { x } else { y }),
            _ => None,
        };
        let Checkpoint { factories, amms, currencies, currencies_blacklist, .. } = other;
        insert_all(&mut self.factories, factories.entries);
        insert_all(&mut self.amms, amms.entries);
        insert_all(&mut self.currencies, currencies.entries);
        let ghost before = self.currencies_blacklist@;
        let ghost factories_after = self.factories;
        let ghost amms_after = self.amms;
        let ghost currencies_after = self.currencies;
        let ghost block_after = self.block_number;
        proof {
            assert(self.factories.view() =~= old(self).factories.view().union_prefer_right(other.factories.view()));
            assert(self.amms.view() =~= old(self).amms.view().union_prefer_right(other.amms.view()));
            assert(self.currencies.view() =~= old(self).currencies.view().union_prefer_right(other.currencies.view()));
        }
        let mut rest = currencies_blacklist;
        let ghost incoming = rest@;
        let mut i: usize = 0;
        while i < rest.len()
            invariant
                i <= rest@.len(),
                rest@ == incoming,
                self.factories == factories_after,
                self.amms == amms_after,
                self.currencies == currencies_after,
                self.block_number == block_after,
                self.currencies_blacklist@.to_set() == before.to_set() + incoming.subrange(0, i as int).to_set(),
            decreases rest@.len() - i,
        {
            let a = rest[i];
            let ghost prev = self.currencies_blacklist@;
            if !contains_address(&self.currencies_blacklist, a) {
                self.currencies_blacklist.push(a);
            }
            proof {
                assert(incoming.subrange(0, i + 1) =~= incoming.subrange(0, i as int).push(a));
                incoming.subrange(0, i as int).lemma_push_to_set_commute(a);
                if !prev.contains(a) {
                    prev.lemma_push_to_set_commute(a);
                } else {
                    assert(prev.to_set().insert(a) =~= prev.to_set());
                }
                assert(self.currencies_blacklist@.to_set() =~= before.to_set()
                    + incoming.subrange(0, i + 1).to_set());
            }
            i = i + 1;
        }
        proof {
            assert(incoming.subrange(0, incoming.len() as int) =~= incoming);
        }
    }
}

/// Whether a venue holds one of the blacklisted tokens.
pub open spec fn has_blacklisted(a: AMM, blacklist: Set<H160>) -> bool {
    blacklist.contains(a.tokens_spec()[0]) || blacklist.contains(a.tokens_spec()[1])
}

/// The venues that hold no blacklisted token.
pub open spec fn without_blacklisted(amms: Map<H160, AMM>, blacklist: Set<H160>) -> Map<H160, AMM> {
    Map::new(|k: H160| amms.contains_key(k) && !has_blacklisted(amms[k], blacklist), |k: H160| amms[k])
}

/// The venues after discovery: each new venue whose address is not tracked
/// yet is added, in order.
pub open spec fn discovered_spec(amms: Map<H160, AMM>, found: Seq<AMM>) -> Map<H160, AMM>
    decreases found.len(),
{
    if found.len() == 0 {
        amms
    } else {
        let prev = discovered_spec(amms, found.drop_last());
        let a = found.last();
        if prev.contains_key(a.address_spec()) {
            prev
        } else {
            prev.insert(a.address_spec(), a)
        }
    }
}

/// A venue with the known metadata of its tokens stored.
pub open spec fn filled_spec(a: AMM, currencies: Map<H160, Currency>) -> AMM {
    let t = a.tokens_spec();
    let a1 = if currencies.contains_key(t[0]) {
        a.with_currency_spec(currencies[t[0]])
    } else {
        a
    };
    if currencies.contains_key(t[1]) {
        a1.with_currency_spec(currencies[t[1]])
    } else {
        a1
    }
}

/// Every venue with the known metadata of its tokens stored.
pub open spec fn filled_map(amms: Map<H160, AMM>, currencies: Map<H160, Currency>) -> Map<H160, AMM> {
    Map::new(|k: H160| amms.contains_key(k), |k: H160| filled_spec(amms[k], currencies))
}

/// The token map after storing each valid token of `found`, in order.
pub open spec fn resolved_spec(currencies: Map<H160, Currency>, found: Seq<Currency>) -> Map<H160, Currency>
    decreases found.len(),
{
    if found.len() == 0 {
        currencies
    } else {
        let prev = resolved_spec(currencies, found.drop_last());
        let c = found.last();
        if c.is_invalid_spec() {
            prev
        } else {
            prev.insert(c.address, c)
        }
    }
}

/// Of the `missing` tokens, those still without metadata.
pub open spec fn unresolved(missing: Seq<H160>, currencies: Map<H160, Currency>) -> Set<H160> {
    Set::new(|t: H160| missing.contains(t) && !currencies.contains_key(t))
}

/// The venues after replaying `logs` in order: a log for an untracked
/// address is ignored, an already-synced log is skipped, and any other
/// failure stops the replay with that error.
pub open spec fn replay_spec(amms: Map<H160, AMM>, logs: Seq<EventLog>) -> (Map<H160, AMM>, Option<EventLogError>)
    decreases logs.len(),
{
    if logs.len() == 0 {
        (amms, None)
    } else {
        let prev = replay_spec(amms, logs.drop_last());
        let log = logs.last();
        if prev.1 is Some || !prev.0.contains_key(log.address) {
            prev
        } else {
            match prev.0[log.address].apply_log_spec(log) {
                Ok(a) => (prev.0.insert(log.address, a), None),
                Err(EventLogError::AlreadySynced) => prev,
                Err(e) => (prev.0, Some(e)),
            }
        }
    }
}

proof fn lemma_filled_keeps_address(a: AMM, currencies: Map<H160, Currency>)
    ensures
        filled_spec(a, currencies).address_spec() == a.address_spec(),
        filled_spec(a, currencies).tokens_spec() == a.tokens_spec(),
{
}

proof fn lemma_seq_to_map_filled(s: Seq<AMM>, t: Seq<AMM>, currencies: Map<H160, Currency>)
    requires
        s.len() == t.len(),
        forall|i: int| 0 <= i < s.len() ==> #[trigger] t[i] == filled_spec(s[i], currencies),
        keys_unique(s),
    ensures
        seq_to_map(t) =~= filled_map(seq_to_map(s), currencies),
        keys_unique(t),
{
    assert forall|i: int| 0 <= i < s.len() implies #[trigger] t[i].key_spec() == s[i].key_spec() by {
        lemma_filled_keeps_address(s[i], currencies);
    }
    assert forall|a: int, b: int| 0 <= a < t.len() && 0 <= b < t.len() && a != b implies #[trigger] t[a].key_spec() != #[trigger] t[b].key_spec() by {
        assert(s[a].key_spec() != s[b].key_spec());
    }
    assert forall|k: H160| seq_to_map(t).contains_key(k) <==> filled_map(seq_to_map(s), currencies).contains_key(k) by {
        lemma_seq_to_map_contains(s, k);
        lemma_seq_to_map_contains(t, k);
        if exists|i: int| 0 <= i < s.len() && #[trigger] s[i].key_spec() == k {
            let i = choose|i: int| 0 <= i < s.len() && #[trigger] s[i].key_spec() == k;
            assert(t[i].key_spec() == k);
        }
        if exists|i: int| 0 <= i < t.len() && #[trigger] t[i].key_spec() == k {
            let i = choose|i: int| 0 <= i < t.len() && #[trigger] t[i].key_spec() == k;
            assert(s[i].key_spec() == k);
        }
    }
    assert forall|k: H160| #[trigger] seq_to_map(t).contains_key(k) implies seq_to_map(t)[k] == filled_map(seq_to_map(s), currencies)[k] by {
        lemma_seq_to_map_contains(t, k);
        let i = choose|i: int| 0 <= i < t.len() && #[trigger] t[i].key_spec() == k;
        lemma_seq_to_map_index(t, i);
        lemma_seq_to_map_index(s, i);
    }
}

impl Checkpoint {
    /// Drops every venue that holds a blacklisted token.
    pub fn remove_invalid_amm(&mut self)
        requires
            old(self).wf(),
        ensures
            final(self).wf(),
            final(self).amms.view() == without_blacklisted(old(self).amms.view(), old(self).view().blacklist),
            final(self).factories == old(self).factories,
            final(self).currencies == old(self).currencies,
            final(self).currencies_blacklist == old(self).currencies_blacklist,
            final(self).block_number == old(self).block_number,
    {
        let ghost bl = self.view().blacklist;
        let ghost s = self.amms.entries@;
        let ghost start = self.amms.view();
        let mut to_remove: Vec<H160> = Vec::new();
        let ghost mut idx: Seq<int> = Seq::empty();
        let mut i: usize = 0;
        while i < self.amms.entries.len()
            invariant
                self.wf(),
                self.amms.entries@ == s,
                bl == self.view().blacklist,
                i <= s.len(),
                idx.len() == to_remove@.len(),
                forall|j: int| 0 <= j < idx.len() ==> 0 <= #[trigger] idx[j] < i && s[idx[j]].key_spec() == to_remove@[j] && has_blacklisted(s[idx[j]], bl),
                forall|m: int| 0 <= m < i && has_blacklisted(#[trigger] s[m], bl) ==> to_remove@.contains(s[m].key_spec()),
            decreases s.len() - i,
        {
            let tokens = self.amms.entries[i].tokens();
            let ghost before = to_remove@;
            let blacklisted = contains_address(&self.currencies_blacklist, tokens[0])
                || contains_address(&self.currencies_blacklist, tokens[1]);
            proof {
                assert(blacklisted == has_blacklisted(s[i as int], bl));
            }
            if blacklisted {
                let k = self.amms.entries[i].key();
                to_remove.push(k);
                proof {
                    idx = idx.push(i as int);
                }
            }
            proof {
                assert forall|m: int| 0 <= m < i + 1 && has_blacklisted(#[trigger] s[m], bl) implies to_remove@.contains(s[m].key_spec()) by {
                    if m < i {
                        let jj = choose|jj: int| 0 <= jj < before.len() && #[trigger] before[jj] == s[m].key_spec();
                        assert(to_remove@[jj] == before[jj]);
                    } else {
                        assert(to_remove@[to_remove@.len() - 1] == s[m].key_spec());
                    }
                }
            }
            i = i + 1;
        }
        let ghost keys = to_remove@;
        let mut j: usize = 0;
        while j < to_remove.len()
            invariant
                self.amms.wf(),
                to_remove@ == keys,
                j <= keys.len(),
                self.amms.view() == start.remove_keys(keys.subrange(0, j as int).to_set()),
                self.factories == old(self).factories,
                self.currencies == old(self).currencies,
                self.currencies_blacklist == old(self).currencies_blacklist,
                self.block_number == old(self).block_number,
            decreases keys.len() - j,
        {
            let k = to_remove[j];
            self.amms.remove(k);
            proof {
                assert(keys.subrange(0, j + 1) =~= keys.subrange(0, j as int).push(k));
                keys.subrange(0, j as int).lemma_push_to_set_commute(k);
                assert(self.amms.view() =~= start.remove_keys(keys.subrange(0, j + 1).to_set()));
            }
            j = j + 1;
        }
        proof {
            assert(keys.subrange(0, keys.len() as int) =~= keys);
            assert forall|k: H160| self.amms.view().contains_key(k) <==> without_blacklisted(start, bl).contains_key(k) by {
                lemma_seq_to_map_contains(s, k);
                if start.contains_key(k) {
                    let m = choose|m: int| 0 <= m < s.len() && #[trigger] s[m].key_spec() == k;
                    lemma_seq_to_map_index(s, m);
                    if keys.contains(k) {
                        let jj = choose|jj: int| 0 <= jj < keys.len() && #[trigger] keys[jj] == k;
                        lemma_seq_to_map_index(s, idx[jj]);
                    }
                }
            }
            let removed = keys.to_set();
            assert(self.amms.view() == start.remove_keys(removed));
            assert forall|k: H160| #[trigger] self.amms.view().contains_key(k) implies self.amms.view()[k] == without_blacklisted(start, bl)[k] by {
                assert(start.remove_keys(removed)[k] == start[k]);
                assert(without_blacklisted(start, bl).contains_key(k));
                assert(start.contains_key(k) && !has_blacklisted(start[k], bl));
            }
            assert(self.amms.view() =~= without_blacklisted(start, bl));
        }
    }

    /// Adds the venues found by discovery that are not tracked yet and moves
    /// the resume height to `end_block`.
    pub fn apply_discovery(&mut self, found: Vec<AMM>, end_block: u64)
        requires
            old(self).wf(),
        ensures
            final(self).wf(),
            final(self).amms.view() == discovered_spec(old(self).amms.view(), found@),
            final(self).block_number == Some(end_block),
            final(self).factories == old(self).factories,
            final(self).currencies == old(self).currencies,
            final(self).currencies_blacklist == old(self).currencies_blacklist,
    {
        let mut found = found;
        let ghost all = found@;
        let ghost mut k: int = 0;
        while found.len() > 0
            invariant
                self.wf(),
                0 <= k <= all.len(),
                found@ == all.subrange(k, all.len() as int),
                self.amms.view() == discovered_spec(old(self).amms.view(), all.subrange(0, k)),
                self.factories == old(self).factories,
                self.currencies == old(self).currencies,
                self.currencies_blacklist == old(self).currencies_blacklist,
            decreases found@.len(),
        {
            let amm = found.remove(0);
            proof {
                assert(all.subrange(0, k + 1).drop_last() =~= all.subrange(0, k));
                assert(all.subrange(0, k + 1).last() == amm);
            }
            if !self.amms.contains_key(amm.address()) {
                self.amms.insert(amm);
            }
            proof {
                k = k + 1;
                assert(found@ =~= all.subrange(k, all.len() as int));
            }
        }
        proof {
            assert(all.subrange(0, k) =~= all);
        }
        self.block_number = Some(end_block);
    }

    /// Stores, in every venue, the metadata already known for its tokens.
    pub fn fill_amm_currencies(&mut self)
        requires
            old(self).wf(),
        ensures
            final(self).wf(),
            final(self).amms.view() == filled_map(old(self).amms.view(), old(self).currencies.view()),
            final(self).factories == old(self).factories,
            final(self).currencies == old(self).currencies,
            final(self).currencies_blacklist == old(self).currencies_blacklist,
            final(self).block_number == old(self).block_number,
    {
        let ghost s = self.amms.entries@;
        let ghost cs = self.currencies.view();
        let mut i: usize = 0;
        while i < self.amms.entries.len()
            invariant
                self.currencies.wf(),
                self.currencies.view() == cs,
                self.currencies == old(self).currencies,
                self.factories == old(self).factories,
                self.currencies_blacklist == old(self).currencies_blacklist,
                self.block_number == old(self).block_number,
                i <= s.len(),
                self.amms.entries@.len() == s.len(),
                forall|m: int| 0 <= m < i ==> #[trigger] self.amms.entries@[m] == filled_spec(s[m], cs),
                forall|m: int| i <= m < s.len() ==> #[trigger] self.amms.entries@[m] == s[m],
            decreases s.len() - i,
        {
            let tokens = self.amms.entries[i].tokens();
            let ghost a0 = self.amms.entries@[i as int];
            match self.currencies.get(tokens[0]) {
                Some(c) => {
                    let c2 = c.clone();
                    self.amms.entries[i].set_currency(c2);
                },
                None => {},
            }
            match self.currencies.get(tokens[1]) {
                Some(c) => {
                    let c2 = c.clone();
                    self.amms.entries[i].set_currency(c2);
                },
                None => {},
            }
            proof {
                lemma_filled_keeps_address(a0, cs);
                assert(self.amms.entries@[i as int] == filled_spec(a0, cs));
            }
            i = i + 1;
        }
        proof {
            lemma_seq_to_map_filled(s, self.amms.entries@, cs);
        }
    }

    /// The tokens of tracked venues that have no metadata yet, once each.
    pub fn missing_currencies(&self) -> (r: Vec<H160>)
        ensures
            forall|t: H160| #[trigger] r@.contains(t) <==> (!self.currencies.view().contains_key(t)
                && exists|i: int| 0 <= i < self.amms.entries@.len() && #[trigger] self.amms.entries@[i].tokens_spec().contains(t)),
            forall|a: int, b: int| 0 <= a < b < r@.len() ==> r@[a] != r@[b],
    {
        let mut out: Vec<H160> = Vec::new();
        let mut i: usize = 0;
        while i < self.amms.entries.len()
            invariant
                i <= self.amms.entries@.len(),
                forall|t: H160| #[trigger] out@.contains(t) <==> (!self.currencies.view().contains_key(t)
                    && exists|m: int| 0 <= m < i && #[trigger] self.amms.entries@[m].tokens_spec().contains(t)),
                forall|a: int, b: int| 0 <= a < b < out@.len() ==> out@[a] != out@[b],
            decreases self.amms.entries@.len() - i,
        {
            let tokens = self.amms.entries[i].tokens();
            let ghost ts = self.amms.entries@[i as int].tokens_spec();
            let mut j: usize = 0;
            while j < 2
                invariant
                    i < self.amms.entries@.len(),
                    j <= 2,
                    tokens@ == ts,
                    ts == self.amms.entries@[i as int].tokens_spec(),
                    ts.len() == 2,
                    forall|t: H160| #[trigger] out@.contains(t) <==> (!self.currencies.view().contains_key(t)
                        && ((exists|m: int| 0 <= m < i && #[trigger] self.amms.entries@[m].tokens_spec().contains(t))
                        || ts.subrange(0, j as int).contains(t))),
                    forall|a: int, b: int| 0 <= a < b < out@.len() ==> out@[a] != out@[b],
                decreases 2 - j,
            {
                let t = tokens[j];
                let ghost before = out@;
                let known = self.currencies.contains_key(t);
                let present = contains_address(&out, t);
                if !known && !present {
                    out.push(t);
                }
                proof {
                    assert(ts.subrange(0, j + 1) =~= ts.subrange(0, j as int).push(t));
                    assert forall|x: H160| #[trigger] out@.contains(x) <==> (before.contains(x) || (!known && x == t)) by {
                        if !known && !present {
                            assert(out@ == before.push(t));
                            if x == t {
                                assert(out@[before.len() as int] == t);
                            }
                            if out@.contains(x) {
                                let q = choose|q: int| 0 <= q < out@.len() && #[trigger] out@[q] == x;
                                if q < before.len() {
                                    assert(before[q] == x);
                                }
                            }
                            if before.contains(x) {
                                let q = choose|q: int| 0 <= q < before.len() && #[trigger] before[q] == x;
                                assert(out@[q] == x);
                            }
                        }
                    }
                    assert forall|x: H160| #[trigger] out@.contains(x) <==> (!self.currencies.view().contains_key(x)
                        && ((exists|m: int| 0 <= m < i && #[trigger] self.amms.entries@[m].tokens_spec().contains(x))
                        || ts.subrange(0, j + 1).contains(x))) by {
                        if ts.subrange(0, j + 1).contains(x) && !ts.subrange(0, j as int).contains(x) {
                            let q = choose|q: int| 0 <= q < j + 1 && #[trigger] ts.subrange(0, j + 1)[q] == x;
                            if q < j {
                                assert(ts.subrange(0, j as int)[q] == x);
                            }
                            assert(x == t);
                        }
                        if x == t {
                            assert(ts.subrange(0, j + 1)[j as int] == t);
                        }
                        if ts.subrange(0, j as int).contains(x) {
                            let q = choose|q: int| 0 <= q < j && #[trigger] ts.subrange(0, j as int)[q] == x;
                            assert(ts.subrange(0, j + 1)[q] == x);
                        }
                    }
                    assert forall|a: int, b: int| 0 <= a < b < out@.len() implies out@[a] != out@[b] by {
                        if !known && !present && b == out@.len() - 1 {
                            assert(before[a] == out@[a]);
                        }
                    }
                }
                j = j + 1;
            }
            proof {
                assert(ts.subrange(0, 2) =~= ts);
                assert forall|x: H160| #[trigger] out@.contains(x) <==> (!self.currencies.view().contains_key(x)
                    && exists|m: int| 0 <= m < i + 1 && #[trigger] self.amms.entries@[m].tokens_spec().contains(x)) by {
                    if exists|m: int| 0 <= m < i + 1 && #[trigger] self.amms.entries@[m].tokens_spec().contains(x) {
                        let m = choose|m: int| 0 <= m < i + 1 && #[trigger] self.amms.entries@[m].tokens_spec().contains(x);
                        if m < i {
                            assert(0 <= m < i && self.amms.entries@[m].tokens_spec().contains(x));
                        }
                    }
                }
            }
            i = i + 1;
        }
        out
    }
}

impl Checkpoint {
    /// Stores the valid tokens of a metadata query and fills the venues with
    /// them. When the query went one token at a time (`batch_size` 1), the
    /// `missing` tokens still unresolved are blacklisted and the venues that
    /// hold a blacklisted token are dropped first.
    pub fn apply_currencies(&mut self, currencies: Vec<Currency>, missing: &Vec<H160>, batch_size: usize)
        requires
            old(self).wf(),
        ensures
            final(self).wf(),
            final(self).currencies.view() == resolved_spec(old(self).currencies.view(), currencies@),
            final(self).view().blacklist == if batch_size == 1 {
                old(self).view().blacklist + unresolved(missing@, final(self).currencies.view())
            } else {
                old(self).view().blacklist
            },
            final(self).amms.view() == filled_map(
                if batch_size == 1 {
                    without_blacklisted(old(self).amms.view(), final(self).view().blacklist)
                } else {
                    old(self).amms.view()
                },
                final(self).currencies.view(),
            ),
            final(self).factories == old(self).factories,
            final(self).block_number == old(self).block_number,
    {
        let mut currencies = currencies;
        let ghost all = currencies@;
        let ghost mut k: int = 0;
        while currencies.len() > 0
            invariant
                self.wf(),
                0 <= k <= all.len(),
                currencies@ == all.subrange(k, all.len() as int),
                self.currencies.view() == resolved_spec(old(self).currencies.view(), all.subrange(0, k)),
                self.amms == old(self).amms,
                self.factories == old(self).factories,
                self.currencies_blacklist == old(self).currencies_blacklist,
                self.block_number == old(self).block_number,
            decreases currencies@.len(),
        {
            let currency = currencies.remove(0);
            proof {
                assert(all.subrange(0, k + 1).drop_last() =~= all.subrange(0, k));
                assert(all.subrange(0, k + 1).last() == currency);
            }
            if !currency.is_invalid_token() {
                self.currencies.insert(currency);
            }
            proof {
                k = k + 1;
                assert(currencies@ =~= all.subrange(k, all.len() as int));
            }
        }
        proof {
            assert(all.subrange(0, k) =~= all);
        }
        if batch_size == 1 {
            let ghost before = self.currencies_blacklist@;
            let mut i: usize = 0;
            while i < missing.len()
                invariant
                    self.wf(),
                    i <= missing@.len(),
                    self.currencies_blacklist@.to_set() == before.to_set() + unresolved(missing@.subrange(0, i as int), self.currencies.view()),
                    self.currencies.view() == resolved_spec(old(self).currencies.view(), all),
                    self.amms == old(self).amms,
                    self.factories == old(self).factories,
                    self.block_number == old(self).block_number,
                decreases missing@.len() - i,
            {
                let t = missing[i];
                let ghost prev = self.currencies_blacklist@;
                if !self.currencies.contains_key(t) && !contains_address(&self.currencies_blacklist, t) {
                    self.currencies_blacklist.push(t);
                }
                proof {
                    let cs = self.currencies.view();
                    assert(missing@.subrange(0, i + 1) =~= missing@.subrange(0, i as int).push(t));
                    if !cs.contains_key(t) && !prev.contains(t) {
                        prev.lemma_push_to_set_commute(t);
                    }
                    assert forall|x: H160| #[trigger] self.currencies_blacklist@.to_set().contains(x) <==> (before.to_set() + unresolved(missing@.subrange(0, i + 1), cs)).contains(x) by {
                        if x == t {
                            assert(missing@.subrange(0, i + 1)[i as int] == t);
                        }
                        if missing@.subrange(0, i + 1).contains(x) && x != t {
                            let q = choose|q: int| 0 <= q < i + 1 && #[trigger] missing@.subrange(0, i + 1)[q] == x;
                            assert(missing@.subrange(0, i as int)[q] == x);
                        }
                        if missing@.subrange(0, i as int).contains(x) {
                            let q = choose|q: int| 0 <= q < i && #[trigger] missing@.subrange(0, i as int)[q] == x;
                            assert(missing@.subrange(0, i + 1)[q] == x);
                        }
                    }
                    assert(self.currencies_blacklist@.to_set() =~= before.to_set() + unresolved(missing@.subrange(0, i + 1), cs));
                }
                i = i + 1;
            }
            proof {
                assert(missing@.subrange(0, missing@.len() as int) =~= missing@);
            }
            self.remove_invalid_amm();
        }
        self.fill_amm_currencies();
    }

    /// Replays logs into the venues they address (see `replay_spec`).
    pub fn apply_logs(&mut self, logs: &Vec<EventLog>) -> (r: Result<(), EventLogError>)
        requires
            old(self).wf(),
        ensures
            final(self).wf(),
            final(self).amms.view() == replay_spec(old(self).amms.view(), logs@).0,
            r == match replay_spec(old(self).amms.view(), logs@).1 {
                None => Ok::<(), EventLogError>(()),
                Some(e) => Err(e),
            },
            final(self).factories == old(self).factories,
            final(self).currencies == old(self).currencies,
            final(self).currencies_blacklist == old(self).currencies_blacklist,
            final(self).block_number == old(self).block_number,
    {
        let mut i: usize = 0;
        while i < logs.len()
            invariant
                self.wf(),
                i <= logs@.len(),
                replay_spec(old(self).amms.view(), logs@.subrange(0, i as int)) == (self.amms.view(), None::<EventLogError>),
                self.factories == old(self).factories,
                self.currencies == old(self).currencies,
                self.currencies_blacklist == old(self).currencies_blacklist,
                self.block_number == old(self).block_number,
            decreases logs@.len() - i,
        {
            let ghost prefix = logs@.subrange(0, i + 1);
            proof {
                assert(prefix.drop_last() =~= logs@.subrange(0, i as int));
                assert(prefix.last() == logs@[i as int]);
            }
            let log = &logs[i];
            match self.amms.index_of(log.address) {
                None => {},
                Some(idx) => {
                    let ghost s = self.amms.entries@;
                    let ghost a0 = s[idx as int];
                    proof {
                        lemma_seq_to_map_index(s, idx as int);
                        crate::amm::lemma_apply_log_idempotent(a0, *log);
                    }
                    let res = self.amms.entries[idx].sync_from_log(log);
                    proof {
                        if res is Ok {
                            lemma_seq_to_map_update(s, idx as int, self.amms.entries@[idx as int]);
                            assert(self.amms.entries@ == s.update(idx as int, self.amms.entries@[idx as int]));
                        } else {
                            assert(self.amms.entries@ =~= s);
                        }
                    }
                    match res {
                        Ok(()) => {},
                        Err(EventLogError::AlreadySynced) => {},
                        Err(e) => {
                            proof {
                                assert(prefix =~= logs@.subrange(0, i + 1));
                                lemma_replay_stops(old(self).amms.view(), logs@, i + 1);
                            }
                            return Err(e);
                        },
                    }
                },
            }
            i = i + 1;
        }
        proof {
            assert(logs@.subrange(0, logs@.len() as int) =~= logs@);
        }
        Ok(())
    }
}

/// Once the replay has stopped on an error, later logs change nothing.
proof fn lemma_replay_stops(amms: Map<H160, AMM>, logs: Seq<EventLog>, n: int)
    requires
        0 <= n <= logs.len(),
        replay_spec(amms, logs.subrange(0, n)).1 is Some,
    ensures
        replay_spec(amms, logs) == replay_spec(amms, logs.subrange(0, n)),
    decreases logs.len() - n,
{
    if n < logs.len() {
        assert(logs.subrange(0, n + 1).drop_last() =~= logs.subrange(0, n));
        lemma_replay_stops(amms, logs, n + 1);
    } else {
        assert(logs.subrange(0, n) =~= logs);
    }
}

/// The persisted form of a checkpoint: plain lists, independent of how the
/// maps were built.
pub struct CheckpointRecord {
    pub block_number: Option<u64>,
    pub factories: Vec<Factory>,
    pub amms: Vec<AMM>,
    pub currencies: Vec<Currency>,
    pub currencies_blacklist: Vec<H160>,
}

/// What loading a record yields: each list becomes the map it builds when
/// its entries are stored in order.
pub open spec fn load_spec(r: CheckpointRecord) -> CheckpointView {
    CheckpointView {
        block_number: r.block_number,
        factories: seq_to_map(r.factories@),
        amms: seq_to_map(r.amms@),
        currencies: seq_to_map(r.currencies@),
        blacklist: r.currencies_blacklist@.to_set(),
    }
}

/// Builds a keyed map from a list, later entries winning on a repeated key.
pub fn map_from_list<T: H160Map>(items: Vec<T>) -> (r: AddressMap<T>)
    ensures
        r.wf(),
        r.view() == seq_to_map(items@),
{
    let mut map = AddressMap::new();
    let ghost all = items@;
    insert_all(&mut map, items);
    proof {
        assert(Map::<H160, T>::empty().union_prefer_right(seq_to_map(all)) =~= seq_to_map(all));
    }
    map
}

impl Checkpoint {
    /// The lists to persist.
    pub fn to_record(self) -> (r: CheckpointRecord)
        ensures
            r.block_number == self.block_number,
            r.factories@ == self.factories.entries@,
            r.amms@ == self.amms.entries@,
            r.currencies@ == self.currencies.entries@,
            r.currencies_blacklist@ == self.currencies_blacklist@,
    {
        CheckpointRecord {
            block_number: self.block_number,
            factories: self.factories.entries,
            amms: self.amms.entries,
            currencies: self.currencies.entries,
            currencies_blacklist: self.currencies_blacklist,
        }
    }

    /// A checkpoint from persisted lists.
    pub fn from_record(record: CheckpointRecord) -> (r: Checkpoint)
        ensures
            r.wf(),
            r.view() == load_spec(record),
    {
        let CheckpointRecord { block_number, factories, amms, currencies, currencies_blacklist } = record;
        Checkpoint {
            block_number,
            factories: map_from_list(factories),
            amms: map_from_list(amms),
            currencies: map_from_list(currencies),
            currencies_blacklist,
        }
    }
}

/// Persisting a checkpoint and loading the lists back yields the same
/// resume height, maps and blacklist.
pub proof fn lemma_record_round_trip(c: Checkpoint, r: CheckpointRecord)
    requires
        c.wf(),
        r.block_number == c.block_number,
        r.factories@ == c.factories.entries@,
        r.amms@ == c.amms.entries@,
        r.currencies@ == c.currencies.entries@,
        r.currencies_blacklist@ == c.currencies_blacklist@,
    ensures
        load_spec(r) == c.view(),
{
}

/// Two lists with unique keys and the same entries, in whatever order, load
/// to the same map.
pub proof fn lemma_load_order_independent<T: H160Map>(a: Seq<T>, b: Seq<T>)
    requires
        keys_unique(a),
        keys_unique(b),
        forall|x: T| a.contains(x) <==> b.contains(x),
    ensures
        seq_to_map(a) == seq_to_map(b),
{
    assert forall|k: H160| seq_to_map(a).contains_key(k) <==> seq_to_map(b).contains_key(k) by {
        lemma_seq_to_map_contains(a, k);
        lemma_seq_to_map_contains(b, k);
        if exists|i: int| 0 <= i < a.len() && #[trigger] a[i].key_spec() == k {
            let i = choose|i: int| 0 <= i < a.len() && #[trigger] a[i].key_spec() == k;
            assert(a.contains(a[i]));
            let j = choose|j: int| 0 <= j < b.len() && b[j] == a[i];
            assert(b[j].key_spec() == k);
        }
        if exists|i: int| 0 <= i < b.len() && #[trigger] b[i].key_spec() == k {
            let i = choose|i: int| 0 <= i < b.len() && #[trigger] b[i].key_spec() == k;
            assert(b.contains(b[i]));
            let j = choose|j: int| 0 <= j < a.len() && a[j] == b[i];
            assert(a[j].key_spec() == k);
        }
    }
    assert forall|k: H160| #[trigger] seq_to_map(a).contains_key(k) implies seq_to_map(a)[k] == seq_to_map(b)[k] by {
        lemma_seq_to_map_contains(a, k);
        let i = choose|i: int| 0 <= i < a.len() && #[trigger] a[i].key_spec() == k;
        assert(a.contains(a[i]));
        let j = choose|j: int| 0 <= j < b.len() && b[j] == a[i];
        lemma_seq_to_map_index(a, i);
        lemma_seq_to_map_index(b, j);
    }
    assert(seq_to_map(a) =~= seq_to_map(b));
}

/// The venues that have not applied any log yet (cursor block 0).
pub open spec fn unsynced_count(amms: Seq<AMM>) -> nat
    decreases amms.len(),
{
    if amms.len() == 0 {
        0
    } else {
        unsynced_count(amms.drop_last()) + if amms.last().cursor_spec().0 == 0 {
            1nat
        } else {
            0nat
        }
    }
}

/// Counts that summarize a checkpoint.
pub struct CheckpointStats {
    pub block_number: u64,
    pub factories: usize,
    pub amms: usize,
    pub invalid_amms: usize,
    pub currencies: usize,
    pub currencies_blacklist: usize,
    pub last_synced_log: u64,
}

impl Checkpoint {
    /// The stored resume height (0 when absent), the sizes of the
    /// collections, the venues without any applied log, and the newest
    /// applied log's block.
    pub fn stats(&self) -> (r: CheckpointStats)
        ensures
            r.block_number == match self.block_number {
                Some(b) => b,
                None => 0,
            },
            r.factories == self.factories.entries@.len(),
            r.amms == self.amms.entries@.len(),
            r.invalid_amms == unsynced_count(self.amms.entries@),
            r.currencies == self.currencies.entries@.len(),
            r.currencies_blacklist == self.currencies_blacklist@.len(),
            r.last_synced_log == max_cursor_block(self.amms.entries@),
    {
        let mut invalid: usize = 0;
        let mut i: usize = 0;
        while i < self.amms.entries.len()
            invariant
                i <= self.amms.entries@.len(),
                invalid == unsynced_count(self.amms.entries@.subrange(0, i as int)),
                invalid <= i,
            decreases self.amms.entries@.len() - i,
        {
            proof {
                assert(self.amms.entries@.subrange(0, i + 1).drop_last() =~= self.amms.entries@.subrange(0, i as int));
            }
            if self.amms.entries[i].last_synced_log().0 == 0 {
                invalid = invalid + 1;
            }
            i = i + 1;
        }
        proof {
            assert(self.amms.entries@.subrange(0, self.amms.entries@.len() as int) =~= self.amms.entries@);
        }
        CheckpointStats {
            block_number: match self.block_number {
                Some(b) => b,
                None => 0,
            },
            factories: self.factories.len(),
            amms: self.amms.len(),
            invalid_amms: invalid,
            currencies: self.currencies.len(),
            currencies_blacklist: self.currencies_blacklist.len(),
            last_synced_log: max_cursor_block_of(&self.amms.entries),
        }
    }

    /// The first block reserve sync reads: one past `last_synced_log_block`
    /// (which is kept when it is the largest block number).
    pub fn sync_start_block(&self) -> (r: u64)
        ensures
            ({
                let last = if max_cursor_block(self.amms.entries@) == 0 {
                    min_creation_block(self.factories.entries@)
                } else {
                    max_cursor_block(self.amms.entries@)
                };
                r == if last < u64::MAX { (last + 1) as u64 } else { last }
            }),
    {
        let last = self.last_synced_log_block();
        if last < u64::MAX {
            last + 1
        } else {
            last
        }
    }
}

/// Stores each of `items` in turn, later ones winning.
pub fn insert_all<T: H160Map>(map: &mut AddressMap<T>, items: Vec<T>)
    requires
        old(map).wf(),
    ensures
        final(map).wf(),
        final(map).view() == old(map).view().union_prefer_right(seq_to_map(items@)),
{
    let mut items = items;
    let ghost all = items@;
    let ghost start = map.view();
    let ghost mut k: int = 0;
    proof {
        assert(seq_to_map(all.subrange(0, 0)) =~= Map::<H160, T>::empty());
        assert(start =~= start.union_prefer_right(Map::<H160, T>::empty()));
    }
    while items.len() > 0
        invariant
            map.wf(),
            0 <= k <= all.len(),
            items@ == all.subrange(k, all.len() as int),
            map.view() == start.union_prefer_right(seq_to_map(all.subrange(0, k))),
        decreases items@.len(),
    {
        let item = items.remove(0);
        proof {
            assert(all.subrange(0, k + 1).drop_last() =~= all.subrange(0, k));
            assert(all.subrange(0, k + 1).last() == item);
        }
        map.insert(item);
        proof {
            k = k + 1;
            assert(items@ =~= all.subrange(k, all.len() as int));
            assert(map.view() =~= start.union_prefer_right(seq_to_map(all.subrange(0, k))));
        }
    }
    proof {
        assert(all.subrange(0, k) =~= all);
    }
}

} // verus!
