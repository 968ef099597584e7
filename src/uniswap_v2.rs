//! The constant-product pool: two reserves and one fee in basis points.
use vstd::prelude::*;
use crate::currency::Currency;
use crate::decimals::{
    decimals_gap, lemma_normalization_fits_u128, normalize_reserves, normalized, price_q64,
    q64_price,
};
use crate::errors::{ArithmeticError, EventLogError, SwapSimulationError};
use crate::event_log::{
    address_word_at, cursor_before, cursor_lt, read_address_word, read_word, word_at, Cursor,
    EventLog,
};
use crate::primitives::{lemma_u256_view_bound, two128, two256, H160, H256, U256};
use crate::u256_ops::{checked_add, checked_mul, div};

verus! {

pub const SYNC_EVENT_SIGNATURE_HI: u128 = 0x1c411e9a96e071241c2f21f7726b17ae;

pub const SYNC_EVENT_SIGNATURE_LO: u128 = 0x89e3cab4c78be50e062b03a9fffbbad1;

pub const PAIR_CREATED_EVENT_SIGNATURE_HI: u128 = 0x0d3648bd0f6ba80134a33ba9275ac585;

pub const PAIR_CREATED_EVENT_SIGNATURE_LO: u128 = 0xd9d315f0ad8355cddefde31afa28d0e9;

/// `Sync(uint112 reserve0, uint112 reserve1)`.
pub open spec fn sync_signature_spec() -> H256 {
    H256 { hi: SYNC_EVENT_SIGNATURE_HI, lo: SYNC_EVENT_SIGNATURE_LO }
}

pub fn sync_event_signature() -> (r: H256)
    ensures
        r == sync_signature_spec(),
{
    H256 { hi: SYNC_EVENT_SIGNATURE_HI, lo: SYNC_EVENT_SIGNATURE_LO }
}

/// `PairCreated(address indexed token0, address indexed token1, address pair, uint256)`.
pub open spec fn pair_created_signature_spec() -> H256 {
    H256 { hi: PAIR_CREATED_EVENT_SIGNATURE_HI, lo: PAIR_CREATED_EVENT_SIGNATURE_LO }
}

pub fn pair_created_event_signature() -> (r: H256)
    ensures
        r == pair_created_signature_spec(),
{
    H256 { hi: PAIR_CREATED_EVENT_SIGNATURE_HI, lo: PAIR_CREATED_EVENT_SIGNATURE_LO }
}

/// 2^112, the bound of a `uint112` reserve.
pub open spec fn two112() -> nat {
    0x1_0000_0000_0000_0000_0000_0000_0000nat
}

/// The constant-product swap: `amount_in * (1 - fee) * reserve_out /
/// (reserve_in + amount_in * (1 - fee))`, with the fee in basis points and
/// every product taken before the division.
pub open spec fn amount_out_spec(amount_in: nat, reserve_in: nat, reserve_out: nat, fee: nat) -> nat {
    if amount_in == 0 || reserve_in == 0 || reserve_out == 0 {
        0
    } else {
        let with_fee = amount_in * ((10000 - fee) as nat);
        (with_fee * reserve_out) / (reserve_in * 10000 + with_fee)
    }
}

/// The products of the swap formula fit in 256 bits.
pub open spec fn swap_fits(amount_in: nat, reserve_in: nat, reserve_out: nat, fee: nat) -> bool {
    amount_in == 0 || reserve_in == 0 || reserve_out == 0 || {
        let with_fee = amount_in * ((10000 - fee) as nat);
        with_fee * reserve_out < two256() && reserve_in * 10000 + with_fee < two256()
    }
}

proof fn lemma_amount_out_below(amount_in: nat, reserve_in: nat, reserve_out: nat, fee: nat)
    requires
        fee <= 10000,
    ensures
        amount_out_spec(amount_in, reserve_in, reserve_out, fee) <= reserve_out,
{
    if !(amount_in == 0 || reserve_in == 0 || reserve_out == 0) {
        let f = amount_in * ((10000 - fee) as nat);
        let den = reserve_in * 10000 + f;
        assert(f * reserve_out <= den * reserve_out) by (nonlinear_arith)
            requires
                f <= den,
        ;
        vstd::arithmetic::div_mod::lemma_div_is_ordered(
            (f * reserve_out) as int,
            (den * reserve_out) as int,
            den as int,
        );
        vstd::arithmetic::div_mod::lemma_div_multiples_vanish(reserve_out as int, den as int);
        vstd::arithmetic::mul::lemma_mul_is_commutative(den as int, reserve_out as int);
    }
}

proof fn lemma_product_at_least(a: nat, b: nat)
    requires
        b >= 1,
    ensures
        a * b >= a,
{
    assert(a * b >= a) by (nonlinear_arith)
        requires
            b >= 1,
    ;
}

/// The swap formula, or `None` when one of its products does not fit in 256
/// bits.
fn checked_amount_out(amount_in: U256, reserve_in: U256, reserve_out: U256, fee: u32) -> (r: Option<U256>)
    requires
        fee <= 10000,
    ensures
        r is Some <==> swap_fits(amount_in@, reserve_in@, reserve_out@, fee as nat),
        r is Some ==> r->Some_0@ == amount_out_spec(amount_in@, reserve_in@, reserve_out@, fee as nat),
{
    if amount_in.is_zero() || reserve_in.is_zero() || reserve_out.is_zero() {
        return Some(U256::zero());
    }
    let ghost f: nat = amount_in@ * ((10000 - fee) as nat);
    proof {
        lemma_product_at_least(f, reserve_out@);
        lemma_product_at_least(reserve_in@, 10000);
    }
    let with_fee = match checked_mul(amount_in, U256::from_u64((10000 - fee) as u64)) {
        Some(v) => v,
        None => return None,
    };
    let num = match checked_mul(with_fee, reserve_out) {
        Some(v) => v,
        None => return None,
    };
    let scaled_in = match checked_mul(reserve_in, U256::from_u64(10000)) {
        Some(v) => v,
        None => return None,
    };
    let den = match checked_add(scaled_in, with_fee) {
        Some(v) => v,
        None => return None,
    };
    Some(div(num, den))
}

/// A constant-product pool.
#[derive(Debug)]
pub struct UniswapV2Pool {
    pub address: H160,
    pub token_a: Currency,
    pub token_b: Currency,
    pub reserve_0: u128,
    pub reserve_1: u128,
    pub last_synced_log: Cursor,
    /// Swap fee in basis points.
    pub fee: u32,
}

impl Clone for UniswapV2Pool {
    fn clone(&self) -> (r: UniswapV2Pool)
        ensures
            r == *self,
    {
        UniswapV2Pool {
            address: self.address,
            token_a: self.token_a.clone(),
            token_b: self.token_b.clone(),
            reserve_0: self.reserve_0,
            reserve_1: self.reserve_1,
            last_synced_log: self.last_synced_log,
            fee: self.fee,
        }
    }
}

/// The fields of a `PairCreated` log.
pub struct PairCreated {
    pub pair: H160,
    pub token_0: H160,
    pub token_1: H160,
}

/// What a `PairCreated` log holds, or why it cannot be read.
pub open spec fn pair_created_spec(log: EventLog) -> Result<(H160, H160, H160), EventLogError> {
    if log.signature_spec() != Some(pair_created_signature_spec()) {
        Err(EventLogError::InvalidEventSignature)
    } else if log.topics@.len() < 3 || log.data@.len() < 64 {
        Err(EventLogError::MalformedPayload)
    } else {
        Ok(
            (
                address_word_at(log.data@, 0),
                log.topics@[1].address_spec(),
                log.topics@[2].address_spec(),
            ),
        )
    }
}

/// Decodes a `PairCreated` log: the pair from the payload, the two tokens
/// from the indexed topics.
pub fn decode_pair_created(log: &EventLog) -> (r: Result<PairCreated, EventLogError>)
    ensures
        match pair_created_spec(*log) {
            Ok(t) => r matches Ok(p) && p.pair == t.0 && p.token_0 == t.1 && p.token_1 == t.2,
            Err(e) => r == Err::<PairCreated, EventLogError>(e),
        },
{
    match log.signature() {
        Some(sig) => {
            if sig != pair_created_event_signature() {
                return Err(EventLogError::InvalidEventSignature);
            }
        },
        None => return Err(EventLogError::InvalidEventSignature),
    }
    if log.topics.len() < 3 || log.data.len() < 64 {
        return Err(EventLogError::MalformedPayload);
    }
    Ok(
        PairCreated {
            pair: read_address_word(&log.data, 0),
            token_0: log.topics[1].to_address(),
            token_1: log.topics[2].to_address(),
        },
    )
}

impl UniswapV2Pool {
    /// The state a `Sync` log leads to, or why it does not apply.
    pub open spec fn apply_log_spec(self, log: EventLog) -> Result<UniswapV2Pool, EventLogError> {
        match log.cursor_spec() {
            Err(e) => Err(e),
            Ok(c) => if !cursor_lt(self.last_synced_log, c) {
                Err(EventLogError::AlreadySynced)
            } else if log.signature_spec() != Some(sync_signature_spec()) {
                Err(EventLogError::InvalidEventSignature)
            } else if log.data@.len() < 64 || word_at(log.data@, 0) >= two112() || word_at(
                log.data@,
                1,
            ) >= two112() {
                Err(EventLogError::MalformedPayload)
            } else {
                Ok(
                    UniswapV2Pool {
                        reserve_0: word_at(log.data@, 0) as u128,
                        reserve_1: word_at(log.data@, 1) as u128,
                        last_synced_log: c,
                        ..self
                    },
                )
            },
        }
    }

    /// The reserves on the input and on the output side of a swap.
    pub open spec fn reserves_for(self, token_in: H160) -> (nat, nat) {
        if token_in == self.token_a.address {
            (self.reserve_0 as nat, self.reserve_1 as nat)
        } else {
            (self.reserve_1 as nat, self.reserve_0 as nat)
        }
    }

    /// What a swap returns.
    pub open spec fn swap_spec(self, token_in: H160, amount_in: nat) -> Result<nat, SwapSimulationError> {
        let (rin, rout) = self.reserves_for(token_in);
        if swap_fits(amount_in, rin, rout, self.fee as nat) {
            Ok(amount_out_spec(amount_in, rin, rout, self.fee as nat))
        } else {
            Err(SwapSimulationError::Overflow)
        }
    }

    /// What a swap returns and the pool it leaves: the input side grows by
    /// `amount_in`, the output side shrinks by the amount out.
    pub open spec fn swap_mut_spec(self, token_in: H160, amount_in: nat) -> Result<
        (nat, UniswapV2Pool),
        SwapSimulationError,
    > {
        let (rin, rout) = self.reserves_for(token_in);
        let out = amount_out_spec(amount_in, rin, rout, self.fee as nat);
        if !swap_fits(amount_in, rin, rout, self.fee as nat) || rin + amount_in >= two128() {
            Err(SwapSimulationError::Overflow)
        } else if token_in == self.token_a.address {
            Ok(
                (
                    out,
                    UniswapV2Pool {
                        reserve_0: (rin + amount_in) as u128,
                        reserve_1: (rout - out) as u128,
                        ..self
                    },
                ),
            )
        } else {
            Ok(
                (
                    out,
                    UniswapV2Pool {
                        reserve_0: (rout - out) as u128,
                        reserve_1: (rin + amount_in) as u128,
                        ..self
                    },
                ),
            )
        }
    }

    pub open spec fn token_out_spec(self, token_in: H160) -> H160 {
        if token_in == self.token_a.address {
            self.token_b.address
        } else {
            self.token_a.address
        }
    }

    pub open spec fn populated_spec(self) -> bool {
        self.token_a.is_filled_spec() && self.token_b.is_filled_spec() && self.reserve_0 != 0
            && self.reserve_1 != 0
    }

    /// The Q64.64 price of `base_token`: the other side's normalized reserve
    /// over its own.
    pub open spec fn price_spec(self, base_token: H160) -> Result<u128, ArithmeticError> {
        let s = normalized(
            self.reserve_0 as nat,
            self.reserve_1 as nat,
            self.token_a.decimals,
            self.token_b.decimals,
        );
        if base_token == self.token_a.address {
            q64_price(s.1, s.0)
        } else {
            q64_price(s.0, s.1)
        }
    }

    #[allow(clippy::too_many_arguments)]
    pub fn new(
        address: H160,
        token_a: Currency,
        token_b: Currency,
        reserve_0: u128,
        reserve_1: u128,
        last_synced_log: Cursor,
        fee: u32,
    ) -> (r: UniswapV2Pool)
        ensures
            r == (UniswapV2Pool {
                address,
                token_a,
                token_b,
                reserve_0,
                reserve_1,
                last_synced_log,
                fee,
            }),
    {
        UniswapV2Pool { address, token_a, token_b, reserve_0, reserve_1, last_synced_log, fee }
    }

    /// A pool with zero reserves from a `PairCreated` log, positioned at that
    /// log. Its data is not synced.
    pub fn new_empty_pool_from_log(log: &EventLog) -> (r: Result<UniswapV2Pool, EventLogError>)
        ensures
            match pair_created_spec(*log) {
                Err(e) => r == Err::<UniswapV2Pool, EventLogError>(e),
                Ok(t) => match log.cursor_spec() {
                    Err(e) => r == Err::<UniswapV2Pool, EventLogError>(e),
                    Ok(c) => r matches Ok(p) && p.address == t.0 && p.token_a.address == t.1
                        && p.token_b.address == t.2 && !p.token_a.is_filled_spec()
                        && !p.token_b.is_filled_spec() && p.reserve_0 == 0 && p.reserve_1 == 0
                        && p.last_synced_log == c && p.fee == 0,
                },
            },
    {
        let created = decode_pair_created(log)?;
        let cursor = log.cursor()?;
        Ok(
            UniswapV2Pool {
                address: created.pair,
                token_a: Currency::new(created.token_0),
                token_b: Currency::new(created.token_1),
                reserve_0: 0,
                reserve_1: 0,
                last_synced_log: cursor,
                fee: 0,
            },
        )
    }

    pub fn address(&self) -> (r: H160)
        ensures
            r == self.address,
    {
        self.address
    }

    pub fn tokens(&self) -> (r: Vec<H160>)
        ensures
            r@ == seq![self.token_a.address, self.token_b.address],
    {
        vec![self.token_a.address, self.token_b.address]
    }

    pub fn currencies(&self) -> (r: Vec<Currency>)
        ensures
            r@ == seq![self.token_a, self.token_b],
    {
        vec![self.token_a.clone(), self.token_b.clone()]
    }

    pub fn reserves(&self) -> (r: Vec<u128>)
        ensures
            r@ == seq![self.reserve_0, self.reserve_1],
    {
        vec![self.reserve_0, self.reserve_1]
    }

    /// Stores resolved metadata for whichever of the two tokens it belongs to.
    pub fn set_currency(&mut self, currency: Currency)
        ensures
            if currency.address == old(self).token_a.address {
                *final(self) == (UniswapV2Pool { token_a: currency, ..*old(self) })
            } else if currency.address == old(self).token_b.address {
                *final(self) == (UniswapV2Pool { token_b: currency, ..*old(self) })
            } else {
                *final(self) == *old(self)
            },
    {
        if currency.address == self.token_a.address {
            self.token_a = currency;
        } else if currency.address == self.token_b.address {
            self.token_b = currency;
        }
    }

    pub fn last_synced_log(&self) -> (r: Cursor)
        ensures
            r == self.last_synced_log,
    {
        self.last_synced_log
    }

    /// Both tokens have metadata and both reserves are non-zero.
    pub fn data_is_populated(&self) -> (r: bool)
        ensures
            r == self.populated_spec(),
    {
        self.token_a.data_is_filled() && self.token_b.data_is_filled() && self.reserve_0 != 0
            && self.reserve_1 != 0
    }

    pub fn sync_on_event_signatures(&self) -> (r: Vec<H256>)
        ensures
            r@ == seq![sync_signature_spec()],
    {
        vec![sync_event_signature()]
    }

    /// Applies a `Sync` log: both reserves are replaced and the cursor moves
    /// to the log's. A log at or before the cursor is refused, and nothing
    /// changes on any error.
    pub fn sync_from_log(&mut self, log: &EventLog) -> (r: Result<(), EventLogError>)
        ensures
            match old(self).apply_log_spec(*log) {
                Ok(p) => r is Ok && *final(self) == p,
                Err(e) => r == Err::<(), EventLogError>(e) && *final(self) == *old(self),
            },
    {
        let cursor = log.cursor()?;
        if !cursor_before(self.last_synced_log, cursor) {
            return Err(EventLogError::AlreadySynced);
        }
        match log.signature() {
            Some(sig) => {
                if sig != sync_event_signature() {
                    return Err(EventLogError::InvalidEventSignature);
                }
            },
            None => return Err(EventLogError::InvalidEventSignature),
        }
        if log.data.len() < 64 {
            return Err(EventLogError::MalformedPayload);
        }
        let reserve_0 = read_word(&log.data, 0);
        let reserve_1 = read_word(&log.data, 1);
        let bound = U256::from_halves(0, 0x1_0000_0000_0000_0000_0000_0000_0000);
        if !reserve_0.lt(&bound) || !reserve_1.lt(&bound) {
            return Err(EventLogError::MalformedPayload);
        }
        self.reserve_0 = reserve_0.as_u128();
        self.reserve_1 = reserve_1.as_u128();
        self.last_synced_log = cursor;
        Ok(())
    }

    /// The Q64.64 price of `base_token` in the other token, from the
    /// reserves brought to common decimals; an empty side prices at 1.0.
    pub fn calculate_price_64_x_64(&self, base_token: H160) -> (r: Result<u128, ArithmeticError>)
        requires
            decimals_gap(self.token_a.decimals, self.token_b.decimals) <= 38,
        ensures
            r == self.price_spec(base_token),
    {
        proof {
            lemma_normalization_fits_u128(
                self.reserve_0 as nat,
                self.reserve_1 as nat,
                self.token_a.decimals,
                self.token_b.decimals,
            );
        }
        let (r_0, r_1) = normalize_reserves(
            U256::from_u128(self.reserve_0),
            U256::from_u128(self.reserve_1),
            self.token_a.decimals,
            self.token_b.decimals,
        );
        if base_token == self.token_a.address {
            price_q64(r_1, r_0)
        } else {
            price_q64(r_0, r_1)
        }
    }

    pub fn get_token_out(&self, token_in: H160) -> (r: H160)
        ensures
            r == self.token_out_spec(token_in),
    {
        if self.token_a.address == token_in {
            self.token_b.address
        } else {
            self.token_a.address
        }
    }

    /// The amount out of a swap of `amount_in` of `token_in`; the pool does
    /// not change.
    pub fn simulate_swap(&self, token_in: H160, amount_in: U256) -> (r: Result<U256, SwapSimulationError>)
        requires
            self.fee <= 10000,
        ensures
            r is Ok <==> swap_fits(
                amount_in@,
                self.reserves_for(token_in).0,
                self.reserves_for(token_in).1,
                self.fee as nat,
            ),
            r is Ok ==> r->Ok_0@ == amount_out_spec(
                amount_in@,
                self.reserves_for(token_in).0,
                self.reserves_for(token_in).1,
                self.fee as nat,
            ),
            r is Err ==> r->Err_0 == SwapSimulationError::Overflow,
            match self.swap_spec(token_in, amount_in@) {
                Ok(v) => r is Ok && r->Ok_0@ == v,
                Err(e) => r == Err::<U256, SwapSimulationError>(e),
            },
    {
        let (reserve_in, reserve_out) = if self.token_a.address == token_in {
            (self.reserve_0, self.reserve_1)
        } else {
            (self.reserve_1, self.reserve_0)
        };
        match checked_amount_out(
            amount_in,
            U256::from_u128(reserve_in),
            U256::from_u128(reserve_out),
            self.fee,
        ) {
            Some(v) => Ok(v),
            None => Err(SwapSimulationError::Overflow),
        }
    }

    /// Like `simulate_swap`, and the reserves then reflect the trade: the
    /// input side grows by `amount_in` and the output side shrinks by the
    /// amount out. Fails, changing nothing, where the grown reserve would not
    /// fit in 128 bits.
    pub fn simulate_swap_mut(&mut self, token_in: H160, amount_in: U256) -> (r: Result<U256, SwapSimulationError>)
        requires
            old(self).fee <= 10000,
        ensures
            match old(self).swap_mut_spec(token_in, amount_in@) {
                Ok((out, p)) => r is Ok && r->Ok_0@ == out && *final(self) == p,
                Err(e) => r == Err::<U256, SwapSimulationError>(e) && *final(self) == *old(self),
            },
    {
        let amount_out = self.simulate_swap(token_in, amount_in)?;
        let first = self.token_a.address == token_in;
        let (reserve_in, reserve_out) = if first {
            (self.reserve_0, self.reserve_1)
        } else {
            (self.reserve_1, self.reserve_0)
        };
        proof {
            lemma_u256_view_bound(amount_in);
            lemma_amount_out_below(amount_in@, reserve_in as nat, reserve_out as nat, self.fee as nat);
        }
        if !amount_in.fits_u128() {
            return Err(SwapSimulationError::Overflow);
        }
        let amount = amount_in.as_u128();
        if amount > u128::MAX - reserve_in {
            return Err(SwapSimulationError::Overflow);
        }
        let out = amount_out.as_u128();
        if first {
            self.reserve_0 = reserve_in + amount;
            self.reserve_1 = reserve_out - out;
        } else {
            self.reserve_0 = reserve_out - out;
            self.reserve_1 = reserve_in + amount;
        }
        Ok(amount_out)
    }

    pub fn fee(&self) -> (r: u32)
        ensures
            r == self.fee,
    {
        self.fee
    }

    /// The constant-product swap formula with this pool's fee.
    pub fn get_amount_out(&self, amount_in: U256, reserve_in: U256, reserve_out: U256) -> (r: U256)
        requires
            self.fee <= 10000,
            swap_fits(amount_in@, reserve_in@, reserve_out@, self.fee as nat),
        ensures
            r@ == amount_out_spec(amount_in@, reserve_in@, reserve_out@, self.fee as nat),
    {
        checked_amount_out(amount_in, reserve_in, reserve_out, self.fee).unwrap()
    }
}

} // verus!
