//! Token metadata and the pure parts of batched metadata resolution.
use vstd::prelude::*;
use crate::errors::CurrencyError;
use crate::keyed::{contains_address, H160Map};
use crate::primitives::H160;

verus! {

/// A token: its address, symbol and decimal count. An empty symbol means the
/// metadata has not been resolved.
#[derive(Debug)]
pub struct Currency {
    pub address: H160,
    pub symbol: String,
    pub decimals: u8,
}

impl Clone for Currency {
    fn clone(&self) -> (r: Currency)
        ensures
            r == *self,
    {
        Currency { address: self.address, symbol: self.symbol.clone(), decimals: self.decimals }
    }
}

impl Currency {
    /// A token whose metadata is not resolved yet.
    pub fn new(address: H160) -> (r: Currency)
        ensures
            r.address == address,
            r.symbol@.len() == 0,
            r.decimals == 0,
    {
        Currency { address, symbol: String::new(), decimals: 0 }
    }

    /// A token with the symbol and decimal count that a metadata query
    /// returned; the decimal count is kept modulo 256.
    pub fn new_with_tokens(address: H160, symbol: String, decimals: u32) -> (r: Currency)
        ensures
            r.address == address,
            r.symbol@ == symbol@,
            r.decimals == decimals % 256,
    {
        let mut currency = Currency::new(address);
        currency.apply_tokens(symbol, decimals);
        currency
    }

    fn apply_tokens(&mut self, symbol: String, decimals: u32)
        ensures
            final(self).address == old(self).address,
            final(self).symbol@ == symbol@,
            final(self).decimals == decimals % 256,
    {
        self.symbol = symbol;
        self.decimals = (decimals % 256) as u8;
    }

    pub open spec fn is_invalid_spec(&self) -> bool {
        (self.address.hi == 0 && self.address.lo == 0) || self.symbol@.len() == 0
    }

    /// A zero address or an empty symbol makes the token unusable.
    pub fn is_invalid_token(&self) -> (r: bool)
        ensures
            r == self.is_invalid_spec(),
    {
        self.address.is_zero() || self.symbol.as_str().is_empty()
    }

    pub open spec fn is_filled_spec(&self) -> bool {
        self.symbol@.len() > 0
    }

    /// Whether the metadata has been resolved.
    pub fn data_is_filled(&self) -> (r: bool)
        ensures
            r == self.is_filled_spec(),
    {
        !self.symbol.as_str().is_empty()
    }

    pub fn address(&self) -> (r: H160)
        ensures
            r == self.address,
    {
        self.address
    }

    pub fn symbol(&self) -> (r: String)
        ensures
            r == self.symbol,
    {
        self.symbol.clone()
    }

    pub fn decimals(&self) -> (r: u8)
        ensures
            r == self.decimals,
    {
        self.decimals
    }
}

/// The batch size used when none is given.
pub const DEFAULT_BATCH_SIZE: usize = 150;

/// Each address once, in the order of first appearance.
pub open spec fn dedup_spec(s: Seq<H160>) -> Seq<H160>
    decreases s.len(),
{
    if s.len() == 0 {
        seq![]
    } else {
        let prev = dedup_spec(s.drop_last());
        if prev.contains(s.last()) {
            prev
        } else {
            prev.push(s.last())
        }
    }
}

/// The batches laid end to end.
pub open spec fn flatten_spec(batches: Seq<Vec<H160>>) -> Seq<H160>
    decreases batches.len(),
{
    if batches.len() == 0 {
        seq![]
    } else {
        flatten_spec(batches.drop_last()) + batches.last()@
    }
}

/// Splits the distinct addresses into consecutive batches of `batch_size`
/// (150 when absent), the last one possibly shorter.
pub fn currency_batches(addresses: &Vec<H160>, batch_size: Option<usize>) -> (r: Vec<Vec<H160>>)
    requires
        batch_size != Some(0usize),
    ensures
        flatten_spec(r@) == dedup_spec(addresses@),
        forall|i: int| 0 <= i < r@.len() ==> (#[trigger] r@[i])@.len() >= 1 && r@[i]@.len() <= match batch_size {
            Some(n) => n as int,
            None => DEFAULT_BATCH_SIZE as int,
        },
        forall|i: int| 0 <= i < r@.len() - 1 ==> (#[trigger] r@[i])@.len() == match batch_size {
            Some(n) => n as int,
            None => DEFAULT_BATCH_SIZE as int,
        },
{
    let size: usize = match batch_size {
        Some(n) => n,
        None => DEFAULT_BATCH_SIZE,
    };
    let mut unique: Vec<H160> = Vec::new();
    let mut i: usize = 0;
    while i < addresses.len()
        invariant
            i <= addresses@.len(),
            unique@ == dedup_spec(addresses@.subrange(0, i as int)),
        decreases addresses@.len() - i,
    {
        proof {
            assert(addresses@.subrange(0, i + 1).drop_last() =~= addresses@.subrange(0, i as int));
        }
        let a = addresses[i];
        if !contains_address(&unique, a) {
            unique.push(a);
        }
        i = i + 1;
    }
    proof {
        assert(addresses@.subrange(0, addresses@.len() as int) =~= addresses@);
    }
    let ghost all = unique@;
    let mut batches: Vec<Vec<H160>> = Vec::new();
    let mut current: Vec<H160> = Vec::new();
    let mut j: usize = 0;
    while j < unique.len()
        invariant
            size >= 1,
            unique@ == all,
            j <= all.len(),
            flatten_spec(batches@) + current@ == all.subrange(0, j as int),
            current@.len() < size,
            forall|b: int| 0 <= b < batches@.len() ==> (#[trigger] batches@[b])@.len() == size,
        decreases all.len() - j,
    {
        current.push(unique[j]);
        j = j + 1;
        proof {
            assert(all.subrange(0, j as int) =~= all.subrange(0, j - 1).push(all[j - 1]));
        }
        if current.len() == size {
            let ghost before = batches@;
            let full = current;
            current = Vec::new();
            batches.push(full);
            proof {
                assert(batches@.drop_last() =~= before);
                assert(flatten_spec(batches@) + current@ =~= all.subrange(0, j as int));
            }
        }
    }
    if current.len() > 0 {
        let ghost before = batches@;
        batches.push(current);
        proof {
            assert(batches@.drop_last() =~= before);
        }
    } else {
        proof {
            assert(flatten_spec(batches@) + Seq::<H160>::empty() =~= flatten_spec(batches@));
        }
    }
    proof {
        assert(all.subrange(0, all.len() as int) =~= all);
    }
    batches
}

/// The tokens of one batch from the metadata the query returned for each, by
/// position: a position without metadata leaves its token unresolved. The
/// response must cover every address.
pub fn currencies_from_infos(addresses: &Vec<H160>, infos: Vec<Option<(String, u32)>>) -> (r: Result<Vec<Currency>, CurrencyError>)
    ensures
        infos@.len() < addresses@.len() <==> r is Err,
        r is Ok ==> r->Ok_0@.len() == addresses@.len() && forall|i: int| 0 <= i < addresses@.len() ==> {
            let c = #[trigger] r->Ok_0@[i];
            &&& c.address == addresses@[i]
            &&& match infos@[i] {
                Some(info) => c.symbol@ == info.0@ && c.decimals == info.1 % 256,
                None => c.symbol@.len() == 0 && c.decimals == 0,
            }
        },
{
    if infos.len() < addresses.len() {
        return Err(CurrencyError::InvalidBatchResponse);
    }
    let ghost given = infos@;
    let mut infos = infos;
    let mut out: Vec<Currency> = Vec::new();
    let mut i: usize = 0;
    while i < addresses.len()
        invariant
            i <= addresses@.len() <= given.len(),
            infos@ == given.subrange(i as int, given.len() as int),
            out@.len() == i,
            forall|k: int| 0 <= k < i ==> {
                let c = #[trigger] out@[k];
                &&& c.address == addresses@[k]
                &&& match given[k] {
                    Some(info) => c.symbol@ == info.0@ && c.decimals == info.1 % 256,
                    None => c.symbol@.len() == 0 && c.decimals == 0,
                }
            },
        decreases addresses@.len() - i,
    {
        let info = infos.remove(0);
        proof {
            assert(info == given[i as int]);
        }
        let currency = match info {
            Some((symbol, decimals)) => Currency::new_with_tokens(addresses[i], symbol, decimals),
            None => Currency::new(addresses[i]),
        };
        out.push(currency);
        i = i + 1;
        proof {
            assert(infos@ =~= given.subrange(i as int, given.len() as int));
        }
    }
    Ok(out)
}

impl H160Map for Currency {
    open spec fn key_spec(&self) -> H160 {
        self.address
    }

    fn key(&self) -> (r: H160) {
        self.address
    }
}

} // verus!
