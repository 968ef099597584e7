//! The venue model: a closed set of venue kinds behind one interface.
use vstd::prelude::*;
use crate::currency::Currency;
use crate::decimals::{decimals_gap, fits_normalization, normalization_fits};
use crate::erc_4626::{deposit_signature_spec, withdraw_signature_spec, ERC4626Vault};
use crate::errors::{ArithmeticError, EventLogError, SwapSimulationError};
use crate::event_log::{cursor_le, cursor_lt, Cursor, EventLog};
use crate::keyed::H160Map;
use crate::primitives::{H160, H256, U256};
use crate::uniswap_v2::{sync_signature_spec, UniswapV2Pool};

verus! {

/// A tracked venue.
#[derive(Debug)]
pub enum AMM {
    UniswapV2Pool(UniswapV2Pool),
    ERC4626Vault(ERC4626Vault),
}

impl Clone for AMM {
    fn clone(&self) -> (r: AMM)
        ensures
            r == *self,
    {
        match self {
            AMM::UniswapV2Pool(p) => AMM::UniswapV2Pool(p.clone()),
            AMM::ERC4626Vault(v) => AMM::ERC4626Vault(*v),
        }
    }
}

impl AMM {
    pub open spec fn address_spec(self) -> H160 {
        match self {
            AMM::UniswapV2Pool(p) => p.address,
            AMM::ERC4626Vault(v) => v.vault_token,
        }
    }

    pub open spec fn tokens_spec(self) -> Seq<H160> {
        match self {
            AMM::UniswapV2Pool(p) => seq![p.token_a.address, p.token_b.address],
            AMM::ERC4626Vault(v) => seq![v.vault_token, v.asset_token],
        }
    }

    pub open spec fn cursor_spec(self) -> Cursor {
        match self {
            AMM::UniswapV2Pool(p) => p.last_synced_log,
            AMM::ERC4626Vault(v) => v.last_synced,
        }
    }

    pub open spec fn signatures_spec(self) -> Seq<H256> {
        match self {
            AMM::UniswapV2Pool(_) => seq![sync_signature_spec()],
            AMM::ERC4626Vault(_) => seq![deposit_signature_spec(), withdraw_signature_spec()],
        }
    }

    /// The venue kind, as a small number.
    pub open spec fn kind_spec(self) -> u8 {
        match self {
            AMM::UniswapV2Pool(_) => 0,
            AMM::ERC4626Vault(_) => 1,
        }
    }

    /// Fees within 100%.
    pub open spec fn fees_valid(self) -> bool {
        match self {
            AMM::UniswapV2Pool(p) => p.fee <= 10000,
            AMM::ERC4626Vault(v) => v.fees_valid(),
        }
    }

    /// The decimal shift of the price computation is in range.
    pub open spec fn price_computable(self) -> bool {
        match self {
            AMM::UniswapV2Pool(p) => decimals_gap(p.token_a.decimals, p.token_b.decimals) <= 38,
            AMM::ERC4626Vault(v) => normalization_fits(
                v.vault_reserve@,
                v.asset_reserve@,
                v.vault_token_decimals,
                v.asset_token_decimals,
            ),
        }
    }

    pub open spec fn apply_log_spec(self, log: EventLog) -> Result<AMM, EventLogError> {
        match self {
            AMM::UniswapV2Pool(p) => match p.apply_log_spec(log) {
                Ok(q) => Ok(AMM::UniswapV2Pool(q)),
                Err(e) => Err(e),
            },
            AMM::ERC4626Vault(v) => match v.apply_log_spec(log) {
                Ok(w) => Ok(AMM::ERC4626Vault(w)),
                Err(e) => Err(e),
            },
        }
    }

    pub open spec fn price_spec(self, base_token: H160) -> Result<u128, ArithmeticError> {
        match self {
            AMM::UniswapV2Pool(p) => p.price_spec(base_token),
            AMM::ERC4626Vault(v) => v.price_spec(base_token),
        }
    }

    pub open spec fn swap_spec(self, token_in: H160, amount_in: nat) -> Result<nat, SwapSimulationError> {
        match self {
            AMM::UniswapV2Pool(p) => p.swap_spec(token_in, amount_in),
            AMM::ERC4626Vault(v) => v.swap_spec(token_in, amount_in),
        }
    }

    pub open spec fn swap_mut_spec(self, token_in: H160, amount_in: nat) -> Result<
        (nat, AMM),
        SwapSimulationError,
    > {
        match self {
            AMM::UniswapV2Pool(p) => match p.swap_mut_spec(token_in, amount_in) {
                Ok((out, q)) => Ok((out, AMM::UniswapV2Pool(q))),
                Err(e) => Err(e),
            },
            AMM::ERC4626Vault(v) => match v.swap_mut_spec(token_in, amount_in) {
                Ok((out, w)) => Ok((out, AMM::ERC4626Vault(w))),
                Err(e) => Err(e),
            },
        }
    }

    pub open spec fn populated_spec(self) -> bool {
        match self {
            AMM::UniswapV2Pool(p) => p.populated_spec(),
            AMM::ERC4626Vault(v) => v.populated_spec(),
        }
    }

    /// The venue with metadata stored for whichever token `currency` describes.
    pub open spec fn with_currency_spec(self, currency: Currency) -> AMM {
        match self {
            AMM::UniswapV2Pool(p) => AMM::UniswapV2Pool(
                if currency.address == p.token_a.address {
                    UniswapV2Pool { token_a: currency, ..p }
                } else if currency.address == p.token_b.address {
                    UniswapV2Pool { token_b: currency, ..p }
                } else {
                    p
                },
            ),
            AMM::ERC4626Vault(v) => AMM::ERC4626Vault(
                if currency.address == v.vault_token {
                    ERC4626Vault { vault_token_decimals: currency.decimals, ..v }
                } else if currency.address == v.asset_token {
                    ERC4626Vault { asset_token_decimals: currency.decimals, ..v }
                } else {
                    v
                },
            ),
        }
    }

    /// Whether `calculate_price_64_x_64` can be called on this venue.
    pub fn is_price_computable(&self) -> (r: bool)
        ensures
            r == self.price_computable(),
    {
        match self {
            AMM::UniswapV2Pool(p) => {
                let a = p.token_a.decimals;
                let b = p.token_b.decimals;
                if a < b {
                    b - a <= 38
                } else {
                    a - b <= 38
                }
            },
            AMM::ERC4626Vault(v) => fits_normalization(
                v.vault_reserve,
                v.asset_reserve,
                v.vault_token_decimals,
                v.asset_token_decimals,
            ),
        }
    }

    /// Whether the swap methods can be called on this venue.
    pub fn has_valid_fees(&self) -> (r: bool)
        ensures
            r == self.fees_valid(),
    {
        match self {
            AMM::UniswapV2Pool(p) => p.fee <= 10000,
            AMM::ERC4626Vault(v) => v.deposit_fee <= 10000 && v.withdraw_fee <= 10000,
        }
    }

    pub fn address(&self) -> (r: H160)
        ensures
            r == self.address_spec(),
    {
        match self {
            AMM::UniswapV2Pool(p) => p.address(),
            AMM::ERC4626Vault(v) => v.address(),
        }
    }

    pub fn tokens(&self) -> (r: Vec<H160>)
        ensures
            r@ == self.tokens_spec(),
    {
        match self {
            AMM::UniswapV2Pool(p) => p.tokens(),
            AMM::ERC4626Vault(v) => v.tokens(),
        }
    }

    pub fn last_synced_log(&self) -> (r: Cursor)
        ensures
            r == self.cursor_spec(),
    {
        match self {
            AMM::UniswapV2Pool(p) => p.last_synced_log(),
            AMM::ERC4626Vault(v) => v.last_synced_log(),
        }
    }

    pub fn data_is_populated(&self) -> (r: bool)
        ensures
            r == self.populated_spec(),
    {
        match self {
            AMM::UniswapV2Pool(p) => p.data_is_populated(),
            AMM::ERC4626Vault(v) => v.data_is_populated(),
        }
    }

    pub fn sync_on_event_signatures(&self) -> (r: Vec<H256>)
        ensures
            r@ == self.signatures_spec(),
    {
        match self {
            AMM::UniswapV2Pool(p) => p.sync_on_event_signatures(),
            AMM::ERC4626Vault(v) => v.sync_on_event_signatures(),
        }
    }

    /// The venue kind: 0 for a pool, 1 for a vault.
    pub fn kind(&self) -> (r: u8)
        ensures
            r == self.kind_spec(),
    {
        match self {
            AMM::UniswapV2Pool(_) => 0,
            AMM::ERC4626Vault(_) => 1,
        }
    }

    /// Applies one event log; see each venue kind.
    pub fn sync_from_log(&mut self, log: &EventLog) -> (r: Result<(), EventLogError>)
        ensures
            match old(self).apply_log_spec(*log) {
                Ok(a) => r is Ok && *final(self) == a,
                Err(e) => r == Err::<(), EventLogError>(e) && *final(self) == *old(self),
            },
    {
        match self {
            AMM::UniswapV2Pool(p) => p.sync_from_log(log),
            AMM::ERC4626Vault(v) => v.sync_from_log(log),
        }
    }

    pub fn set_currency(&mut self, currency: Currency)
        ensures
            *final(self) == old(self).with_currency_spec(currency),
    {
        match self {
            AMM::UniswapV2Pool(p) => p.set_currency(currency),
            AMM::ERC4626Vault(v) => v.set_currency(&currency),
        }
    }

    pub fn calculate_price_64_x_64(&self, base_token: H160) -> (r: Result<u128, ArithmeticError>)
        requires
            self.price_computable(),
        ensures
            r == self.price_spec(base_token),
    {
        match self {
            AMM::UniswapV2Pool(p) => p.calculate_price_64_x_64(base_token),
            AMM::ERC4626Vault(v) => v.calculate_price_64_x_64(base_token),
        }
    }

    pub fn get_token_out(&self, token_in: H160) -> (r: H160)
        ensures
            r == (if token_in == self.tokens_spec()[0] {
                self.tokens_spec()[1]
            } else {
                self.tokens_spec()[0]
            }),
    {
        match self {
            AMM::UniswapV2Pool(p) => p.get_token_out(token_in),
            AMM::ERC4626Vault(v) => v.get_token_out(token_in),
        }
    }

    pub fn simulate_swap(&self, token_in: H160, amount_in: U256) -> (r: Result<U256, SwapSimulationError>)
        requires
            self.fees_valid(),
        ensures
            match self.swap_spec(token_in, amount_in@) {
                Ok(v) => r is Ok && r->Ok_0@ == v,
                Err(e) => r == Err::<U256, SwapSimulationError>(e),
            },
    {
        match self {
            AMM::UniswapV2Pool(p) => p.simulate_swap(token_in, amount_in),
            AMM::ERC4626Vault(v) => v.simulate_swap(token_in, amount_in),
        }
    }

    pub fn simulate_swap_mut(&mut self, token_in: H160, amount_in: U256) -> (r: Result<U256, SwapSimulationError>)
        requires
            old(self).fees_valid(),
        ensures
            match old(self).swap_mut_spec(token_in, amount_in@) {
                Ok((out, a)) => r is Ok && r->Ok_0@ == out && *final(self) == a,
                Err(e) => r == Err::<U256, SwapSimulationError>(e) && *final(self) == *old(self),
            },
    {
        match self {
            AMM::UniswapV2Pool(p) => p.simulate_swap_mut(token_in, amount_in),
            AMM::ERC4626Vault(v) => v.simulate_swap_mut(token_in, amount_in),
        }
    }
}

impl H160Map for AMM {
    open spec fn key_spec(&self) -> H160 {
        self.address_spec()
    }

    fn key(&self) -> (r: H160) {
        self.address()
    }
}

/// A log that applies moves the cursor strictly forward, to the log's own
/// cursor, and keeps the venue's address; applying the same log again is
/// refused as already synced, so the second application changes nothing.
pub proof fn lemma_apply_log_idempotent(amm: AMM, log: EventLog)
    ensures
        amm.apply_log_spec(log) matches Ok(next) ==> {
            &&& log.cursor_spec() == Ok::<Cursor, EventLogError>(next.cursor_spec())
            &&& cursor_lt(amm.cursor_spec(), next.cursor_spec())
            &&& next.address_spec() == amm.address_spec()
            &&& next.tokens_spec() == amm.tokens_spec()
            &&& next.apply_log_spec(log) == Err::<AMM, EventLogError>(EventLogError::AlreadySynced)
        },
{
}

/// The venue after applying each log in turn; a log that fails leaves it as
/// it was.
pub open spec fn apply_logs_spec(amm: AMM, logs: Seq<EventLog>) -> AMM
    decreases logs.len(),
{
    if logs.len() == 0 {
        amm
    } else {
        let prev = apply_logs_spec(amm, logs.drop_last());
        match prev.apply_log_spec(logs.last()) {
            Ok(next) => next,
            Err(_) => prev,
        }
    }
}

/// Across any sequence of logs the cursor never moves backwards, and the
/// venue keeps its address.
pub proof fn lemma_cursor_monotone(amm: AMM, logs: Seq<EventLog>)
    ensures
        cursor_le(amm.cursor_spec(), apply_logs_spec(amm, logs).cursor_spec()),
        apply_logs_spec(amm, logs).address_spec() == amm.address_spec(),
    decreases logs.len(),
{
    if logs.len() > 0 {
        lemma_cursor_monotone(amm, logs.drop_last());
        lemma_apply_log_idempotent(apply_logs_spec(amm, logs.drop_last()), logs.last());
    }
}

/// The sync-event signatures of every venue kind present, each kind's once,
/// in the order the kinds first appear.
pub open spec fn sync_signatures_spec(amms: Seq<AMM>) -> Seq<H256>
    decreases amms.len(),
{
    if amms.len() == 0 {
        seq![]
    } else {
        let prev = sync_signatures_spec(amms.drop_last());
        let a = amms.last();
        if exists|i: int| 0 <= i < amms.len() - 1 && #[trigger] amms[i].kind_spec() == a.kind_spec() {
            prev
        } else {
            prev + a.signatures_spec()
        }
    }
}

/// The union of the sync-event signatures of the venue kinds in `amms`.
pub fn amm_sync_event_signatures(amms: &Vec<AMM>) -> (r: Vec<H256>)
    ensures
        r@ == sync_signatures_spec(amms@),
{
    let mut event_signatures: Vec<H256> = Vec::new();
    let mut seen_pool = false;
    let mut seen_vault = false;
    let mut i: usize = 0;
    while i < amms.len()
        invariant
            i <= amms@.len(),
            event_signatures@ == sync_signatures_spec(amms@.subrange(0, i as int)),
            seen_pool == exists|j: int| 0 <= j < i && #[trigger] amms@[j].kind_spec() == 0,
            seen_vault == exists|j: int| 0 <= j < i && #[trigger] amms@[j].kind_spec() == 1,
        decreases amms@.len() - i,
    {
        let ghost prefix = amms@.subrange(0, i as int);
        let ghost next = amms@.subrange(0, i + 1);
        proof {
            assert(next.drop_last() =~= prefix);
            assert(next.last() == amms@[i as int]);
        }
        let kind = amms[i].kind();
        let seen = if kind == 0 {
            seen_pool
        } else {
            seen_vault
        };
        proof {
            assert(seen == exists|j: int| 0 <= j < next.len() - 1 && #[trigger] next[j].kind_spec()
                == next.last().kind_spec()) by {
                if seen {
                    let j = choose|j: int| 0 <= j < i && #[trigger] amms@[j].kind_spec() == kind;
                    assert(next[j].kind_spec() == next.last().kind_spec());
                }
                if exists|j: int| 0 <= j < next.len() - 1 && #[trigger] next[j].kind_spec()
                    == next.last().kind_spec() {
                    let j = choose|j: int| 0 <= j < next.len() - 1 && #[trigger] next[j].kind_spec()
                        == next.last().kind_spec();
                    assert(amms@[j].kind_spec() == kind);
                }
            }
        }
        if !seen {
            let sigs = amms[i].sync_on_event_signatures();
            let mut k: usize = 0;
            let ghost before = event_signatures@;
            while k < sigs.len()
                invariant
                    k <= sigs@.len(),
                    event_signatures@ == before + sigs@.subrange(0, k as int),
                decreases sigs@.len() - k,
            {
                event_signatures.push(sigs[k]);
                k = k + 1;
                proof {
                    assert(before + sigs@.subrange(0, k as int) =~= (before + sigs@.subrange(
                        0,
                        k - 1,
                    )).push(sigs@[k - 1]));
                }
            }
            proof {
                assert(sigs@.subrange(0, sigs@.len() as int) =~= sigs@);
            }
        }
        if kind == 0 {
            seen_pool = true;
        } else {
            seen_vault = true;
        }
        i = i + 1;
        proof {
            assert(seen_pool == exists|j: int| 0 <= j < i && #[trigger] amms@[j].kind_spec() == 0) by {
                if exists|j: int| 0 <= j < i && #[trigger] amms@[j].kind_spec() == 0 {
                    let j = choose|j: int| 0 <= j < i && #[trigger] amms@[j].kind_spec() == 0;
                    if j < i - 1 {
                        assert(0 <= j < i - 1 && amms@[j].kind_spec() == 0);
                    }
                }
            }
            assert(seen_vault == exists|j: int| 0 <= j < i && #[trigger] amms@[j].kind_spec() == 1) by {
                if exists|j: int| 0 <= j < i && #[trigger] amms@[j].kind_spec() == 1 {
                    let j = choose|j: int| 0 <= j < i && #[trigger] amms@[j].kind_spec() == 1;
                    if j < i - 1 {
                        assert(0 <= j < i - 1 && amms@[j].kind_spec() == 1);
                    }
                }
            }
        }
    }
    proof {
        assert(amms@.subrange(0, amms@.len() as int) =~= amms@);
    }
    event_signatures
}

} // verus!
