use vstd::prelude::*;
use vstd::arithmetic::div_mod::{lemma_div_denominator, lemma_div_is_ordered, lemma_fundamental_div_mod};

verus! {

/// 2^64.
pub open spec fn two64() -> nat {
    0x1_0000_0000_0000_0000
}

/// 2^128.
pub open spec fn two128() -> nat {
    0x1_0000_0000_0000_0000_0000_0000_0000_0000nat
}

/// 2^192.
pub open spec fn two192() -> nat {
    0x1_0000_0000_0000_0000_0000_0000_0000_0000_0000_0000_0000_0000nat
}

/// 2^256, the modulus of 256-bit words.
pub open spec fn two256() -> nat {
    0x1_0000_0000_0000_0000_0000_0000_0000_0000_0000_0000_0000_0000_0000_0000_0000_0000nat
}

/// A 160-bit account or contract address: the top 32 bits and the low 128 bits.
#[derive(Clone, Copy, Debug, PartialEq, Eq, Structural, Hash)]
pub struct H160 {
    pub hi: u32,
    pub lo: u128,
}

impl H160 {
    pub fn new(hi: u32, lo: u128) -> (r: H160)
        ensures
            r == (H160 { hi, lo }),
    {
        H160 { hi, lo }
    }

    pub fn zero() -> (r: H160)
        ensures
            r == (H160 { hi: 0, lo: 0 }),
    {
        H160 { hi: 0, lo: 0 }
    }

    pub open spec fn is_zero_spec(self) -> bool {
        self.hi == 0 && self.lo == 0
    }

    pub fn is_zero(&self) -> (r: bool)
        ensures
            r == self.is_zero_spec(),
    {
        self.hi == 0 && self.lo == 0
    }
}

/// A 256-bit hash word (an event signature or a log topic): the top and the
/// low 128 bits.
#[derive(Clone, Copy, Debug, PartialEq, Eq, Structural, Hash)]
pub struct H256 {
    pub hi: u128,
    pub lo: u128,
}

impl H256 {
    pub fn new(hi: u128, lo: u128) -> (r: H256)
        ensures
            r == (H256 { hi, lo }),
    {
        H256 { hi, lo }
    }

    /// The address held in the low 160 bits of the word, as an indexed
    /// address topic stores it.
    pub open spec fn address_spec(self) -> H160 {
        H160 { hi: (self.hi % 0x1_0000_0000) as u32, lo: self.lo }
    }

    pub fn to_address(&self) -> (r: H160)
        ensures
            r == self.address_spec(),
    {
        H160 { hi: (self.hi % 0x1_0000_0000) as u32, lo: self.lo }
    }
}

/// An unsigned 256-bit integer as four 64-bit limbs, least significant first.
#[derive(Clone, Copy, Debug, PartialEq, Eq, Structural, Hash)]
pub struct U256 {
    pub l0: u64,
    pub l1: u64,
    pub l2: u64,
    pub l3: u64,
}

impl View for U256 {
    type V = nat;

    open spec fn view(&self) -> nat {
        self.l0 as nat + self.l1 as nat * two64() + self.l2 as nat * two128() + self.l3 as nat
            * two192()
    }
}

/// The value of a limb-wise description is below 2^256, and determines the limbs.
pub proof fn lemma_u256_view_bound(a: U256)
    ensures
        a@ < two256(),
        a@ < two128() <==> (a.l2 == 0 && a.l3 == 0),
        a@ < two64() <==> (a.l1 == 0 && a.l2 == 0 && a.l3 == 0),
        a@ < two192() <==> a.l3 == 0,
{
}

pub proof fn lemma_u256_view_injective(a: U256, b: U256)
    requires
        a@ == b@,
    ensures
        a == b,
{
    lemma_u256_view_bound(a);
    lemma_u256_view_bound(b);
    if a.l3 != b.l3 {
        assert(false);
    }
    if a.l2 != b.l2 {
        assert(false);
    }
    if a.l1 != b.l1 {
        assert(false);
    }
}


/// The 256-bit integer with value `n`, for `n` below 2^256.
pub open spec fn u256_from_nat(n: nat) -> U256 {
    U256 {
        l0: (n % two64()) as u64,
        l1: ((n / two64()) % two64()) as u64,
        l2: ((n / two128()) % two64()) as u64,
        l3: ((n / two192()) % two64()) as u64,
    }
}

pub proof fn lemma_u256_from_nat(n: nat)
    requires
        n < two256(),
    ensures
        u256_from_nat(n)@ == n,
{
    let b = two64() as int;
    let q1 = n as int / b;
    let q2 = q1 / b;
    let q3 = q2 / b;
    lemma_fundamental_div_mod(n as int, b);
    lemma_fundamental_div_mod(q1, b);
    lemma_fundamental_div_mod(q2, b);
    lemma_div_denominator(n as int, b, b);
    lemma_div_denominator(q1, b, b);
    lemma_div_denominator(n as int, b * b, b);
    assert(b * b == two128());
    assert(two128() * b == two192());
    lemma_div_is_ordered(n as int, two256() - 1, two192() as int);
    assert((two256() - 1) / (two192() as int) == b - 1) by {
        vstd::arithmetic::div_mod::lemma_fundamental_div_mod_converse(
            two256() - 1,
            two192() as int,
            b - 1,
            two192() - 1,
        );
    }
    vstd::arithmetic::div_mod::lemma_small_mod(q3 as nat, two64());
}

impl U256 {
    pub fn zero() -> (r: U256)
        ensures
            r@ == 0,
    {
        U256 { l0: 0, l1: 0, l2: 0, l3: 0 }
    }

    pub fn from_u64(x: u64) -> (r: U256)
        ensures
            r@ == x,
    {
        U256 { l0: x, l1: 0, l2: 0, l3: 0 }
    }

    pub fn from_u128(x: u128) -> (r: U256)
        ensures
            r@ == x,
    {
        let lo: u64 = (x % 0x1_0000_0000_0000_0000) as u64;
        let hi: u64 = (x / 0x1_0000_0000_0000_0000) as u64;
        U256 { l0: lo, l1: hi, l2: 0, l3: 0 }
    }

    /// Builds the value `hi * 2^128 + lo`.
    pub fn from_halves(hi: u128, lo: u128) -> (r: U256)
        ensures
            r@ == hi as nat * two128() + lo as nat,
    {
        U256 {
            l0: (lo % 0x1_0000_0000_0000_0000) as u64,
            l1: (lo / 0x1_0000_0000_0000_0000) as u64,
            l2: (hi % 0x1_0000_0000_0000_0000) as u64,
            l3: (hi / 0x1_0000_0000_0000_0000) as u64,
        }
    }

    pub fn is_zero(&self) -> (r: bool)
        ensures
            r == (self@ == 0),
    {
        self.l0 == 0 && self.l1 == 0 && self.l2 == 0 && self.l3 == 0
    }

    pub fn lt(&self, other: &U256) -> (r: bool)
        ensures
            r == (self@ < other@),
    {
        if self.l3 != other.l3 {
            self.l3 < other.l3
        } else if self.l2 != other.l2 {
            self.l2 < other.l2
        } else if self.l1 != other.l1 {
            self.l1 < other.l1
        } else {
            self.l0 < other.l0
        }
    }

    pub fn le(&self, other: &U256) -> (r: bool)
        ensures
            r == (self@ <= other@),
    {
        !other.lt(self)
    }

    /// Whether the value fits in 128 bits.
    pub fn fits_u128(&self) -> (r: bool)
        ensures
            r == (self@ < two128()),
    {
        self.l2 == 0 && self.l3 == 0
    }

    /// The value as a `u128`; it must fit.
    pub fn as_u128(&self) -> (r: u128)
        requires
            self@ < two128(),
        ensures
            r == self@,
    {
        self.l1 as u128 * 0x1_0000_0000_0000_0000 + self.l0 as u128
    }

    /// The value modulo 2^128 (the low half).
    pub fn low_half(&self) -> (r: U256)
        ensures
            r@ == self@ % two128(),
            r@ < two128(),
    {
        let r = U256 { l0: self.l0, l1: self.l1, l2: 0, l3: 0 };
        proof {
            let h = self.l2 as nat + self.l3 as nat * two64();
            assert(self@ == h * two128() + r@);
            vstd::arithmetic::div_mod::lemma_fundamental_div_mod_converse(
                self@ as int,
                two128() as int,
                h as int,
                r@ as int,
            );
        }
        r
    }

    /// The value divided by 2^128 (the high half).
    pub fn high_half(&self) -> (r: U256)
        ensures
            r@ == self@ / two128(),
            r@ < two128(),
    {
        let r = U256 { l0: self.l2, l1: self.l3, l2: 0, l3: 0 };
        proof {
            let lo = self.l0 as nat + self.l1 as nat * two64();
            assert(self@ == r@ * two128() + lo);
            vstd::arithmetic::div_mod::lemma_fundamental_div_mod_converse(
                self@ as int,
                two128() as int,
                r@ as int,
                lo as int,
            );
        }
        r
    }
}

} // verus!
