//! The yield vault: a share reserve, an asset reserve, and separate deposit
//! and withdrawal fees in basis points.
use vstd::prelude::*;
use crate::currency::Currency;
use crate::decimals::{normalization_fits, normalize_reserves, normalized, price_q64, q64_price};
use crate::errors::{ArithmeticError, EventLogError, SwapSimulationError};
use crate::event_log::{cursor_before, cursor_lt, read_word, word_at, Cursor, EventLog};
use crate::primitives::{
    lemma_u256_from_nat, lemma_u256_view_bound, lemma_u256_view_injective, two256, u256_from_nat,
    H160, H256, U256,
};
use crate::u256_ops::{checked_add, checked_mul, div, wrapping_sub};

verus! {

pub const DEPOSIT_EVENT_SIGNATURE_HI: u128 = 0xdcbc1c05240f31ff3ad067ef1ee35ce4;

pub const DEPOSIT_EVENT_SIGNATURE_LO: u128 = 0x997762752e3a095284754544f4c709d7;

pub const WITHDRAW_EVENT_SIGNATURE_HI: u128 = 0xfbde797d201c681b91056529119e0b02;

pub const WITHDRAW_EVENT_SIGNATURE_LO: u128 = 0x407c7bb96a4a2c75c01fc9667232c8db;

/// `Deposit(address indexed sender, address indexed owner, uint256 assets, uint256 shares)`.
pub open spec fn deposit_signature_spec() -> H256 {
    H256 { hi: DEPOSIT_EVENT_SIGNATURE_HI, lo: DEPOSIT_EVENT_SIGNATURE_LO }
}

pub fn deposit_event_signature() -> (r: H256)
    ensures
        r == deposit_signature_spec(),
{
    H256 { hi: DEPOSIT_EVENT_SIGNATURE_HI, lo: DEPOSIT_EVENT_SIGNATURE_LO }
}

/// `Withdraw(address indexed sender, address indexed receiver, address indexed
/// owner, uint256 assets, uint256 shares)`.
pub open spec fn withdraw_signature_spec() -> H256 {
    H256 { hi: WITHDRAW_EVENT_SIGNATURE_HI, lo: WITHDRAW_EVENT_SIGNATURE_LO }
}

pub fn withdraw_event_signature() -> (r: H256)
    ensures
        r == withdraw_signature_spec(),
{
    H256 { hi: WITHDRAW_EVENT_SIGNATURE_HI, lo: WITHDRAW_EVENT_SIGNATURE_LO }
}

/// An ERC-4626 vault.
#[derive(Clone, Copy, Debug)]
pub struct ERC4626Vault {
    /// The share token, received for depositing; also the vault's address.
    pub vault_token: H160,
    pub vault_token_decimals: u8,
    /// The underlying token, received for withdrawing.
    pub asset_token: H160,
    pub asset_token_decimals: u8,
    /// Total supply of shares.
    pub vault_reserve: U256,
    /// Total assets held.
    pub asset_reserve: U256,
    /// Deposit fee in basis points.
    pub deposit_fee: u32,
    /// Withdrawal fee in basis points.
    pub withdraw_fee: u32,
    pub last_synced: Cursor,
}

impl ERC4626Vault {
    pub open spec fn fees_valid(self) -> bool {
        self.deposit_fee <= 10000 && self.withdraw_fee <= 10000
    }

    /// The fee that applies when `reserve_in` is the input side: withdrawing
    /// when it is the share reserve, depositing otherwise.
    pub open spec fn fee_for(self, reserve_in: U256) -> nat {
        if reserve_in == self.vault_reserve {
            self.withdraw_fee as nat
        } else {
            self.deposit_fee as nat
        }
    }

    /// `amount_in * reserve_out / reserve_in`, less the fee. With no shares
    /// outstanding, one unit converts to one unit.
    pub open spec fn amount_out_spec(self, amount_in: nat, reserve_in: U256, reserve_out: nat) -> nat {
        if amount_in == 0 {
            0
        } else if self.vault_reserve@ == 0 {
            amount_in
        } else {
            ((amount_in * reserve_out / reserve_in@) * ((10000 - self.fee_for(reserve_in)) as nat))
                / 10000
        }
    }

    /// Why the conversion cannot be computed, if it cannot.
    pub open spec fn amount_out_error(self, amount_in: nat, reserve_in: U256, reserve_out: nat) -> Option<
        SwapSimulationError,
    > {
        if amount_in == 0 || self.vault_reserve@ == 0 {
            None
        } else if reserve_in@ == 0 {
            Some(SwapSimulationError::ZeroReserve)
        } else if amount_in * reserve_out >= two256() || (amount_in * reserve_out / reserve_in@) * ((
        10000 - self.fee_for(reserve_in)) as nat) >= two256() {
            Some(SwapSimulationError::Overflow)
        } else {
            None
        }
    }

    /// The (input, output) reserves of a swap of `token_in`.
    pub open spec fn reserves_for(self, token_in: H160) -> (U256, U256) {
        if token_in == self.vault_token {
            (self.vault_reserve, self.asset_reserve)
        } else {
            (self.asset_reserve, self.vault_reserve)
        }
    }

    /// What a swap returns.
    pub open spec fn swap_spec(self, token_in: H160, amount_in: nat) -> Result<nat, SwapSimulationError> {
        let (rin, rout) = self.reserves_for(token_in);
        match self.amount_out_error(amount_in, rin, rout@) {
            Some(e) => Err(e),
            None => Ok(self.amount_out_spec(amount_in, rin, rout@)),
        }
    }

    /// What a swap returns and the vault it leaves: redeeming shares burns
    /// them and pays out assets; depositing assets mints shares.
    pub open spec fn swap_mut_spec(self, token_in: H160, amount_in: nat) -> Result<
        (nat, ERC4626Vault),
        SwapSimulationError,
    > {
        match self.swap_spec(token_in, amount_in) {
            Err(e) => Err(e),
            Ok(out) => if token_in == self.vault_token {
                if amount_in > self.vault_reserve@ || out > self.asset_reserve@ {
                    Err(SwapSimulationError::Overflow)
                } else {
                    Ok(
                        (
                            out,
                            ERC4626Vault {
                                vault_reserve: u256_from_nat((self.vault_reserve@ - amount_in) as nat),
                                asset_reserve: u256_from_nat((self.asset_reserve@ - out) as nat),
                                ..self
                            },
                        ),
                    )
                }
            } else {
                if self.asset_reserve@ + amount_in >= two256() || self.vault_reserve@ + out
                    >= two256() {
                    Err(SwapSimulationError::Overflow)
                } else {
                    Ok(
                        (
                            out,
                            ERC4626Vault {
                                asset_reserve: u256_from_nat(self.asset_reserve@ + amount_in),
                                vault_reserve: u256_from_nat(self.vault_reserve@ + out),
                                ..self
                            },
                        ),
                    )
                }
            },
        }
    }

    /// The state a `Deposit` or `Withdraw` log leads to, or why it does not
    /// apply.
    pub open spec fn apply_log_spec(self, log: EventLog) -> Result<ERC4626Vault, EventLogError> {
        match log.cursor_spec() {
            Err(e) => Err(e),
            Ok(c) => if !cursor_lt(self.last_synced, c) {
                Err(EventLogError::AlreadySynced)
            } else if log.signature_spec() != Some(deposit_signature_spec()) && log.signature_spec()
                != Some(withdraw_signature_spec()) {
                Err(EventLogError::InvalidEventSignature)
            } else if log.data@.len() < 64 {
                Err(EventLogError::MalformedPayload)
            } else {
                let assets = word_at(log.data@, 0);
                let shares = word_at(log.data@, 1);
                if log.signature_spec() == Some(deposit_signature_spec()) {
                    if self.asset_reserve@ + assets >= two256() || self.vault_reserve@ + shares
                        >= two256() {
                        Err(EventLogError::ReserveOutOfRange)
                    } else {
                        Ok(
                            ERC4626Vault {
                                asset_reserve: u256_from_nat(self.asset_reserve@ + assets),
                                vault_reserve: u256_from_nat(self.vault_reserve@ + shares),
                                last_synced: c,
                                ..self
                            },
                        )
                    }
                } else {
                    if assets > self.asset_reserve@ || shares > self.vault_reserve@ {
                        Err(EventLogError::ReserveOutOfRange)
                    } else {
                        Ok(
                            ERC4626Vault {
                                asset_reserve: u256_from_nat(
                                    (self.asset_reserve@ - assets) as nat,
                                ),
                                vault_reserve: u256_from_nat(
                                    (self.vault_reserve@ - shares) as nat,
                                ),
                                last_synced: c,
                                ..self
                            },
                        )
                    }
                }
            },
        }
    }

    /// The Q64.64 price of `base_token` in the other token, from the
    /// reserves brought to common decimals; an empty side prices at 1.0.
    pub open spec fn price_spec(self, base_token: H160) -> Result<u128, ArithmeticError> {
        let s = normalized(
            self.vault_reserve@,
            self.asset_reserve@,
            self.vault_token_decimals,
            self.asset_token_decimals,
        );
        if base_token == self.vault_token {
            q64_price(s.1, s.0)
        } else {
            q64_price(s.0, s.1)
        }
    }

    pub open spec fn populated_spec(self) -> bool {
        !(self.vault_token.is_zero_spec() || self.asset_token.is_zero_spec()
            || self.vault_reserve@ == 0 || self.asset_reserve@ == 0)
    }

    #[allow(clippy::too_many_arguments)]
    pub fn new(
        vault_token: H160,
        vault_token_decimals: u8,
        asset_token: H160,
        asset_token_decimals: u8,
        vault_reserve: U256,
        asset_reserve: U256,
        deposit_fee: u32,
        withdraw_fee: u32,
        last_synced: Cursor,
    ) -> (r: ERC4626Vault)
        ensures
            r == (ERC4626Vault {
                vault_token,
                vault_token_decimals,
                asset_token,
                asset_token_decimals,
                vault_reserve,
                asset_reserve,
                deposit_fee,
                withdraw_fee,
                last_synced,
            }),
    {
        ERC4626Vault {
            vault_token,
            vault_token_decimals,
            asset_token,
            asset_token_decimals,
            vault_reserve,
            asset_reserve,
            deposit_fee,
            withdraw_fee,
            last_synced,
        }
    }

    pub fn address(&self) -> (r: H160)
        ensures
            r == self.vault_token,
    {
        self.vault_token
    }

    pub fn tokens(&self) -> (r: Vec<H160>)
        ensures
            r@ == seq![self.vault_token, self.asset_token],
    {
        vec![self.vault_token, self.asset_token]
    }

    pub fn last_synced_log(&self) -> (r: Cursor)
        ensures
            r == self.last_synced,
    {
        self.last_synced
    }

    pub fn sync_on_event_signatures(&self) -> (r: Vec<H256>)
        ensures
            r@ == seq![deposit_signature_spec(), withdraw_signature_spec()],
    {
        vec![deposit_event_signature(), withdraw_event_signature()]
    }

    /// Stores the decimal count of whichever of the two tokens `currency`
    /// describes.
    pub fn set_currency(&mut self, currency: &Currency)
        ensures
            if currency.address == old(self).vault_token {
                *final(self) == (ERC4626Vault {
                    vault_token_decimals: currency.decimals,
                    ..*old(self)
                })
            } else if currency.address == old(self).asset_token {
                *final(self) == (ERC4626Vault {
                    asset_token_decimals: currency.decimals,
                    ..*old(self)
                })
            } else {
                *final(self) == *old(self)
            },
    {
        if currency.address == self.vault_token {
            self.vault_token_decimals = currency.decimals;
        } else if currency.address == self.asset_token {
            self.asset_token_decimals = currency.decimals;
        }
    }

    /// Applies a `Deposit` (reserves grow) or `Withdraw` (reserves shrink)
    /// log and moves the cursor to the log's. A log at or before the cursor
    /// is refused, and nothing changes on any error.
    pub fn sync_from_log(&mut self, log: &EventLog) -> (r: Result<(), EventLogError>)
        ensures
            match old(self).apply_log_spec(*log) {
                Ok(v) => r is Ok && *final(self) == v,
                Err(e) => r == Err::<(), EventLogError>(e) && *final(self) == *old(self),
            },
    {
        let cursor = log.cursor()?;
        if !cursor_before(self.last_synced, cursor) {
            return Err(EventLogError::AlreadySynced);
        }
        let sig = match log.signature() {
            Some(sig) => sig,
            None => return Err(EventLogError::InvalidEventSignature),
        };
        let deposit = sig == deposit_event_signature();
        if !deposit && sig != withdraw_event_signature() {
            return Err(EventLogError::InvalidEventSignature);
        }
        if log.data.len() < 64 {
            return Err(EventLogError::MalformedPayload);
        }
        let assets = read_word(&log.data, 0);
        let shares = read_word(&log.data, 1);
        let (asset_reserve, vault_reserve) = if deposit {
            let a = match checked_add(self.asset_reserve, assets) {
                Some(v) => v,
                None => return Err(EventLogError::ReserveOutOfRange),
            };
            let v = match checked_add(self.vault_reserve, shares) {
                Some(v) => v,
                None => return Err(EventLogError::ReserveOutOfRange),
            };
            (a, v)
        } else {
            if self.asset_reserve.lt(&assets) || self.vault_reserve.lt(&shares) {
                return Err(EventLogError::ReserveOutOfRange);
            }
            proof {
                lemma_u256_view_bound(self.asset_reserve);
                lemma_u256_view_bound(self.vault_reserve);
                vstd::arithmetic::div_mod::lemma_small_mod((self.asset_reserve@ - assets@) as nat, two256());
                vstd::arithmetic::div_mod::lemma_small_mod((self.vault_reserve@ - shares@) as nat, two256());
            }
            (wrapping_sub(self.asset_reserve, assets), wrapping_sub(self.vault_reserve, shares))
        };
        proof {
            lemma_u256_view_bound(asset_reserve);
            lemma_u256_view_bound(vault_reserve);
            lemma_u256_from_nat(asset_reserve@);
            lemma_u256_from_nat(vault_reserve@);
            lemma_u256_view_injective(asset_reserve, u256_from_nat(asset_reserve@));
            lemma_u256_view_injective(vault_reserve, u256_from_nat(vault_reserve@));
        }
        self.asset_reserve = asset_reserve;
        self.vault_reserve = vault_reserve;
        self.last_synced = cursor;
        Ok(())
    }

    pub fn get_token_out(&self, token_in: H160) -> (r: H160)
        ensures
            r == (if token_in == self.vault_token {
                self.asset_token
            } else {
                self.vault_token
            }),
    {
        if self.vault_token == token_in {
            self.asset_token
        } else {
            self.vault_token
        }
    }

    /// The conversion, or why it cannot be computed.
    fn checked_amount_out(&self, amount_in: U256, reserve_in: U256, reserve_out: U256) -> (r: Result<
        U256,
        SwapSimulationError,
    >)
        requires
            self.fees_valid(),
        ensures
            match self.amount_out_error(amount_in@, reserve_in, reserve_out@) {
                Some(e) => r == Err::<U256, SwapSimulationError>(e),
                None => r is Ok && r->Ok_0@ == self.amount_out_spec(
                    amount_in@,
                    reserve_in,
                    reserve_out@,
                ),
            },
    {
        if amount_in.is_zero() {
            return Ok(U256::zero());
        }
        if self.vault_reserve.is_zero() {
            return Ok(amount_in);
        }
        if reserve_in.is_zero() {
            return Err(SwapSimulationError::ZeroReserve);
        }
        let fee = if reserve_in == self.vault_reserve {
            self.withdraw_fee
        } else {
            self.deposit_fee
        };
        let product = match checked_mul(amount_in, reserve_out) {
            Some(v) => v,
            None => return Err(SwapSimulationError::Overflow),
        };
        let converted = div(product, reserve_in);
        let kept = match checked_mul(converted, U256::from_u64((10000 - fee) as u64)) {
            Some(v) => v,
            None => return Err(SwapSimulationError::Overflow),
        };
        Ok(div(kept, U256::from_u64(10000)))
    }

    /// `amount_in * reserve_out / reserve_in`, less the fee of the direction
    /// that `reserve_in` names.
    pub fn get_amount_out(&self, amount_in: U256, reserve_in: U256, reserve_out: U256) -> (r: U256)
        requires
            self.fees_valid(),
            self.amount_out_error(amount_in@, reserve_in, reserve_out@) is None,
        ensures
            r@ == self.amount_out_spec(amount_in@, reserve_in, reserve_out@),
    {
        match self.checked_amount_out(amount_in, reserve_in, reserve_out) {
            Ok(v) => v,
            // ruled out by the precondition
            Err(_) => U256::zero(),
        }
    }

    /// The amount out of a swap of `amount_in` of `token_in`; the vault does
    /// not change.
    pub fn simulate_swap(&self, token_in: H160, amount_in: U256) -> (r: Result<U256, SwapSimulationError>)
        requires
            self.fees_valid(),
        ensures
            match self.swap_spec(token_in, amount_in@) {
                Ok(v) => r is Ok && r->Ok_0@ == v,
                Err(e) => r == Err::<U256, SwapSimulationError>(e),
            },
    {
        if self.vault_token == token_in {
            self.checked_amount_out(amount_in, self.vault_reserve, self.asset_reserve)
        } else {
            self.checked_amount_out(amount_in, self.asset_reserve, self.vault_reserve)
        }
    }

    /// Like `simulate_swap`, and the reserves then reflect the trade:
    /// redeeming shares burns them and pays out assets; depositing assets
    /// mints shares. Fails, changing nothing, where a reserve would leave the
    /// 256-bit range.
    pub fn simulate_swap_mut(&mut self, token_in: H160, amount_in: U256) -> (r: Result<U256, SwapSimulationError>)
        requires
            old(self).fees_valid(),
        ensures
            match old(self).swap_mut_spec(token_in, amount_in@) {
                Ok((out, v)) => r is Ok && r->Ok_0@ == out && *final(self) == v,
                Err(e) => r == Err::<U256, SwapSimulationError>(e) && *final(self) == *old(self),
            },
    {
        let amount_out = self.simulate_swap(token_in, amount_in)?;
        proof {
            lemma_u256_view_bound(self.asset_reserve);
            lemma_u256_view_bound(self.vault_reserve);
        }
        let (vault_reserve, asset_reserve) = if self.vault_token == token_in {
            if self.vault_reserve.lt(&amount_in) || self.asset_reserve.lt(&amount_out) {
                return Err(SwapSimulationError::Overflow);
            }
            proof {
                vstd::arithmetic::div_mod::lemma_small_mod((self.vault_reserve@ - amount_in@) as nat, two256());
                vstd::arithmetic::div_mod::lemma_small_mod((self.asset_reserve@ - amount_out@) as nat, two256());
            }
            (wrapping_sub(self.vault_reserve, amount_in), wrapping_sub(self.asset_reserve, amount_out))
        } else {
            let a = match checked_add(self.asset_reserve, amount_in) {
                Some(v) => v,
                None => return Err(SwapSimulationError::Overflow),
            };
            let v = match checked_add(self.vault_reserve, amount_out) {
                Some(v) => v,
                None => return Err(SwapSimulationError::Overflow),
            };
            (v, a)
        };
        proof {
            lemma_u256_view_bound(asset_reserve);
            lemma_u256_view_bound(vault_reserve);
            lemma_u256_from_nat(asset_reserve@);
            lemma_u256_from_nat(vault_reserve@);
            lemma_u256_view_injective(asset_reserve, u256_from_nat(asset_reserve@));
            lemma_u256_view_injective(vault_reserve, u256_from_nat(vault_reserve@));
        }
        self.vault_reserve = vault_reserve;
        self.asset_reserve = asset_reserve;
        Ok(amount_out)
    }

    /// Both tokens are set and both reserves are non-zero.
    pub fn data_is_populated(&self) -> (r: bool)
        ensures
            r == self.populated_spec(),
    {
        !(self.vault_token.is_zero() || self.asset_token.is_zero() || self.vault_reserve.is_zero()
            || self.asset_reserve.is_zero())
    }

    /// The Q64.64 price of `base_token` in the other token.
    pub fn calculate_price_64_x_64(&self, base_token: H160) -> (r: Result<u128, ArithmeticError>)
        requires
            normalization_fits(
                self.vault_reserve@,
                self.asset_reserve@,
                self.vault_token_decimals,
                self.asset_token_decimals,
            ),
        ensures
            r == self.price_spec(base_token),
    {
        let (r_v, r_a) = normalize_reserves(
            self.vault_reserve,
            self.asset_reserve,
            self.vault_token_decimals,
            self.asset_token_decimals,
        );
        if base_token == self.vault_token {
            price_q64(r_a, r_v)
        } else {
            price_q64(r_v, r_a)
        }
    }
}

} // verus!
