//! Event logs as the data provider hands them over, and the decoding of their
//! 32-byte payload words.
use vstd::prelude::*;
use crate::errors::EventLogError;
use crate::primitives::{two128, two192, two64, H160, H256, U256};

verus! {

/// A position in the event-log stream: (block height, log index).
pub type Cursor = (u64, u64);

/// Lexicographic order on cursors.
pub open spec fn cursor_lt(a: Cursor, b: Cursor) -> bool {
    a.0 < b.0 || (a.0 == b.0 && a.1 < b.1)
}

pub open spec fn cursor_le(a: Cursor, b: Cursor) -> bool {
    cursor_lt(a, b) || a == b
}

/// Whether `a` comes strictly before `b`.
pub fn cursor_before(a: Cursor, b: Cursor) -> (r: bool)
    ensures
        r == cursor_lt(a, b),
{
    a.0 < b.0 || (a.0 == b.0 && a.1 < b.1)
}

/// One event log: the emitting contract, its topics (the first is the event
/// signature), the ABI-encoded payload and its position in the chain.
#[derive(Debug)]
pub struct EventLog {
    pub address: H160,
    pub topics: Vec<H256>,
    pub data: Vec<u8>,
    pub block_number: Option<u64>,
    pub log_index: Option<u64>,
}

impl EventLog {
    pub open spec fn cursor_spec(&self) -> Result<Cursor, EventLogError> {
        match self.block_number {
            None => Err(EventLogError::MissingBlockNumber),
            Some(b) => match self.log_index {
                None => Err(EventLogError::MissingLogIndex),
                Some(i) => Ok((b, i)),
            },
        }
    }

    /// The log's cursor, or which positional field is missing.
    pub fn cursor(&self) -> (r: Result<Cursor, EventLogError>)
        ensures
            r == self.cursor_spec(),
    {
        match self.block_number {
            None => Err(EventLogError::MissingBlockNumber),
            Some(b) => match self.log_index {
                None => Err(EventLogError::MissingLogIndex),
                Some(i) => Ok((b, i)),
            },
        }
    }

    pub open spec fn signature_spec(&self) -> Option<H256> {
        if self.topics@.len() > 0 {
            Some(self.topics@[0])
        } else {
            None
        }
    }

    /// The event signature: the first topic, if any.
    pub fn signature(&self) -> (r: Option<H256>)
        ensures
            r == self.signature_spec(),
    {
        if self.topics.len() > 0 {
            Some(self.topics[0])
        } else {
            None
        }
    }
}

/// The big-endian value of a byte string.
pub open spec fn be_nat(s: Seq<u8>) -> nat
    decreases s.len(),
{
    if s.len() == 0 {
        0
    } else {
        (be_nat(s.drop_last()) * 256 + s.last()) as nat
    }
}

pub open spec fn pow256(n: nat) -> nat
    decreases n,
{
    if n == 0 {
        1
    } else {
        256 * pow256((n - 1) as nat)
    }
}

/// The number of whole 32-byte words in a payload.
pub open spec fn word_count(data: Seq<u8>) -> nat {
    data.len() / 32
}

/// The `i`-th 32-byte word of an ABI-encoded payload, as an unsigned integer.
pub open spec fn word_at(data: Seq<u8>, i: nat) -> nat {
    be_nat(data.subrange(32 * i as int, 32 * i as int + 32))
}

/// The address held in the low 160 bits of the `i`-th word.
pub open spec fn address_word_at(data: Seq<u8>, i: nat) -> H160 {
    let v = word_at(data, i);
    H160 { hi: ((v / two128()) % 0x1_0000_0000) as u32, lo: (v % two128()) as u128 }
}

proof fn lemma_be_nat_bound(s: Seq<u8>)
    ensures
        be_nat(s) < pow256(s.len()),
    decreases s.len(),
{
    if s.len() > 0 {
        lemma_be_nat_bound(s.drop_last());
        let p = pow256((s.len() - 1) as nat);
        let b = be_nat(s.drop_last());
        assert(b * 256 + s.last() < 256 * p) by (nonlinear_arith)
            requires
                b < p,
                s.last() < 256,
        ;
    }
}

proof fn lemma_be_nat_append(a: Seq<u8>, b: Seq<u8>)
    ensures
        be_nat(a + b) == be_nat(a) * pow256(b.len()) + be_nat(b),
    decreases b.len(),
{
    if b.len() == 0 {
        assert(a + b =~= a);
        assert(pow256(0) == 1);
        assert(be_nat(b) == 0);
        assert(be_nat(a) * 1 == be_nat(a));
    } else {
        let b1 = b.drop_last();
        assert((a + b).drop_last() =~= a + b1);
        assert((a + b).last() == b.last());
        lemma_be_nat_append(a, b1);
        let p = pow256(b1.len());
        assert(pow256(b.len()) == 256 * p);
        let x = be_nat(a);
        let y = be_nat(b1);
        assert(b1.len() == b.len() - 1);
        assert(be_nat(b) == y * 256 + b.last());
        assert(be_nat(a + b) == be_nat(a + b1) * 256 + b.last());
        assert(be_nat(a + b1) == x * p + y);
        assert((x * p + y) * 256 + b.last() == x * (256 * p) + (y * 256 + b.last()))
            by (nonlinear_arith);
    }
}

/// Reads eight bytes big-endian.
fn read_be_u64(data: &Vec<u8>, start: usize) -> (r: u64)
    requires
        start + 8 <= data@.len(),
    ensures
        r == be_nat(data@.subrange(start as int, start + 8)),
{
    let n: usize = data.len();
    let mut acc: u64 = 0;
    let mut j: usize = start;
    let end: usize = start + 8;
    proof {
        reveal_with_fuel(pow256, 9);
        assert(data@.subrange(start as int, start as int) =~= Seq::<u8>::empty());
    }
    while j < end
        invariant
            end == start + 8,
            start <= j <= start + 8,
            start + 8 <= data@.len(),
            acc == be_nat(data@.subrange(start as int, j as int)),
            pow256(8) == 0x1_0000_0000_0000_0000,
        decreases start + 8 - j,
    {
        let ghost prefix = data@.subrange(start as int, j as int);
        let ghost next = data@.subrange(start as int, j + 1);
        proof {
            assert(next.drop_last() =~= prefix);
            lemma_be_nat_bound(next);
            assert(pow256(next.len()) <= pow256(8)) by {
                lemma_pow256_mono(next.len(), 8);
            }
        }
        acc = acc * 256 + data[j] as u64;
        j = j + 1;
    }
    acc
}

proof fn lemma_pow256_mono(a: nat, b: nat)
    requires
        a <= b,
    ensures
        pow256(a) <= pow256(b),
    decreases b,
{
    if a < b {
        lemma_pow256_mono(a, (b - 1) as nat);
    }
}

/// Reads the `i`-th 32-byte word of a payload.
pub fn read_word(data: &Vec<u8>, i: usize) -> (r: U256)
    requires
        32 * i + 32 <= data@.len(),
    ensures
        r@ == word_at(data@, i as nat),
{
    let n: usize = data.len();
    let o: usize = 32 * i;
    let l3 = read_be_u64(data, o);
    let l2 = read_be_u64(data, o + 8);
    let l1 = read_be_u64(data, o + 16);
    let l0 = read_be_u64(data, o + 24);
    let r = U256 { l0, l1, l2, l3 };
    proof {
        let d = data@;
        let s0 = d.subrange(o as int, o + 8);
        let s1 = d.subrange(o + 8, o + 16);
        let s2 = d.subrange(o + 16, o + 24);
        let s3 = d.subrange(o + 24, o + 32);
        assert(d.subrange(o as int, o + 32) =~= ((s0 + s1) + s2) + s3);
        reveal_with_fuel(pow256, 9);
        lemma_be_nat_append(s0, s1);
        lemma_be_nat_append(s0 + s1, s2);
        lemma_be_nat_append((s0 + s1) + s2, s3);
        assert(two64() * two64() == two128()) by (nonlinear_arith);
        assert(two128() * two64() == two192()) by (nonlinear_arith);
        let v0 = be_nat(s0);
        let v1 = be_nat(s1);
        let v2 = be_nat(s2);
        let v3 = be_nat(s3);
        assert(((v0 * two64() + v1) * two64() + v2) * two64() + v3 == v3 + v2 * two64() + v1
            * two128() + v0 * two192()) by (nonlinear_arith)
            requires
                two64() * two64() == two128(),
                two128() * two64() == two192(),
        ;
    }
    r
}

/// Reads the address held in the low 160 bits of the `i`-th word.
pub fn read_address_word(data: &Vec<u8>, i: usize) -> (r: H160)
    requires
        32 * i + 32 <= data@.len(),
    ensures
        r == address_word_at(data@, i as nat),
{
    let w = read_word(data, i);
    let r = H160 {
        hi: (w.l2 % 0x1_0000_0000) as u32,
        lo: w.l1 as u128 * 0x1_0000_0000_0000_0000 + w.l0 as u128,
    };
    proof {
        let v = w@;
        let low = w.l0 as nat + w.l1 as nat * two64();
        let high = w.l2 as nat + w.l3 as nat * two64();
        assert(v == high * two128() + low);
        vstd::arithmetic::div_mod::lemma_fundamental_div_mod_converse(
            v as int,
            two128() as int,
            high as int,
            low as int,
        );
        vstd::arithmetic::div_mod::lemma_fundamental_div_mod_converse(
            high as int,
            0x1_0000_0000,
            w.l3 as int * 0x1_0000_0000 + w.l2 as int / 0x1_0000_0000,
            (w.l2 % 0x1_0000_0000) as int,
        );
    }
    r
}

} // verus!
