//! The factory registry: deployers of venues, the event that announces a new
//! venue, and the decoding of those events into fresh venues.
use vstd::prelude::*;
use crate::amm::AMM;
use crate::currency::Currency;
use crate::errors::EventLogError;
use crate::event_log::EventLog;
use crate::keyed::{AddressMap, H160Map};
use crate::primitives::{H160, H256};
use crate::uniswap_v2::{
    decode_pair_created, pair_created_event_signature, pair_created_signature_spec,
    pair_created_spec, UniswapV2Pool,
};

verus! {

/// A deployer of constant-product pools.
#[derive(Clone, Copy, Debug, PartialEq, Eq, Structural, Hash)]
pub struct UniswapV2Factory {
    pub address: H160,
    pub creation_block: u64,
    /// The fee, in basis points, of the pools it deploys.
    pub fee: u32,
}

/// Whether `a` is a pool just announced by a creation log: the given pair and
/// tokens and fee, no metadata, zero reserves and a zero cursor.
pub open spec fn is_fresh_pool(a: AMM, created: (H160, H160, H160), fee: u32) -> bool {
    match a {
        AMM::UniswapV2Pool(p) => p.address == created.0 && p.token_a.address == created.1
            && p.token_b.address == created.2 && p.fee == fee && !p.token_a.is_filled_spec()
            && !p.token_b.is_filled_spec() && p.token_a.decimals == 0 && p.token_b.decimals == 0
            && p.reserve_0 == 0 && p.reserve_1 == 0 && p.last_synced_log == (0u64, 0u64),
        _ => false,
    }
}

impl UniswapV2Factory {
    pub fn new(address: H160, creation_block: u64, fee: u32) -> (r: UniswapV2Factory)
        ensures
            r == (UniswapV2Factory { address, creation_block, fee }),
    {
        UniswapV2Factory { address, creation_block, fee }
    }

    pub fn address(&self) -> (r: H160)
        ensures
            r == self.address,
    {
        self.address
    }

    pub fn creation_block(&self) -> (r: u64)
        ensures
            r == self.creation_block,
    {
        self.creation_block
    }

    pub fn amm_created_event_signature(&self) -> (r: H256)
        ensures
            r == pair_created_signature_spec(),
    {
        pair_created_event_signature()
    }

    /// A fresh pool, with this factory's fee, from a `PairCreated` log.
    pub fn new_empty_amm_from_log(&self, log: &EventLog) -> (r: Result<AMM, EventLogError>)
        ensures
            match pair_created_spec(*log) {
                Ok(t) => r is Ok && is_fresh_pool(r->Ok_0, t, self.fee),
                Err(e) => r == Err::<AMM, EventLogError>(e),
            },
    {
        let created = decode_pair_created(log)?;
        Ok(
            AMM::UniswapV2Pool(
                UniswapV2Pool {
                    address: created.pair,
                    token_a: Currency::new(created.token_0),
                    token_b: Currency::new(created.token_1),
                    reserve_0: 0,
                    reserve_1: 0,
                    last_synced_log: (0, 0),
                    fee: self.fee,
                },
            ),
        )
    }
}

/// A registered factory.
#[derive(Clone, Copy, Debug, PartialEq, Eq, Structural, Hash)]
pub enum Factory {
    UniswapV2Factory(UniswapV2Factory),
}

impl Factory {
    pub open spec fn address_spec(self) -> H160 {
        match self {
            Factory::UniswapV2Factory(f) => f.address,
        }
    }

    pub open spec fn creation_block_spec(self) -> u64 {
        match self {
            Factory::UniswapV2Factory(f) => f.creation_block,
        }
    }

    pub open spec fn signature_spec(self) -> H256 {
        match self {
            Factory::UniswapV2Factory(_) => pair_created_signature_spec(),
        }
    }

    pub open spec fn fee_spec(self) -> u32 {
        match self {
            Factory::UniswapV2Factory(f) => f.fee,
        }
    }

    pub fn address(&self) -> (r: H160)
        ensures
            r == self.address_spec(),
    {
        match self {
            Factory::UniswapV2Factory(f) => f.address(),
        }
    }

    pub fn creation_block(&self) -> (r: u64)
        ensures
            r == self.creation_block_spec(),
    {
        match self {
            Factory::UniswapV2Factory(f) => f.creation_block(),
        }
    }

    pub fn amm_created_event_signature(&self) -> (r: H256)
        ensures
            r == self.signature_spec(),
    {
        match self {
            Factory::UniswapV2Factory(f) => f.amm_created_event_signature(),
        }
    }

    pub fn new_empty_amm_from_log(&self, log: &EventLog) -> (r: Result<AMM, EventLogError>)
        ensures
            match pair_created_spec(*log) {
                Ok(t) => r is Ok && is_fresh_pool(r->Ok_0, t, self.fee_spec()),
                Err(e) => r == Err::<AMM, EventLogError>(e),
            },
    {
        match self {
            Factory::UniswapV2Factory(f) => f.new_empty_amm_from_log(log),
        }
    }

    /// The kind of factory whose creation event has this signature, with a
    /// zero address, block and fee.
    pub fn try_from_signature(value: H256) -> (r: Result<Factory, EventLogError>)
        ensures
            value == pair_created_signature_spec() ==> r == Ok::<Factory, EventLogError>(
                Factory::UniswapV2Factory(
                    UniswapV2Factory { address: H160 { hi: 0, lo: 0 }, creation_block: 0, fee: 0 },
                ),
            ),
            value != pair_created_signature_spec() ==> r == Err::<Factory, EventLogError>(
                EventLogError::InvalidEventSignature,
            ),
    {
        if value == pair_created_event_signature() {
            Ok(Factory::UniswapV2Factory(UniswapV2Factory::new(H160::zero(), 0, 0)))
        } else {
            Err(EventLogError::InvalidEventSignature)
        }
    }
}

impl H160Map for Factory {
    open spec fn key_spec(&self) -> H160 {
        self.address_spec()
    }

    fn key(&self) -> (r: H160) {
        self.address()
    }
}

/// Each distinct creation-event signature of `factories`, in first-seen order.
pub open spec fn creation_signatures_spec(factories: Seq<Factory>) -> Seq<H256>
    decreases factories.len(),
{
    if factories.len() == 0 {
        seq![]
    } else {
        let prev = creation_signatures_spec(factories.drop_last());
        let sig = factories.last().signature_spec();
        if prev.contains(sig) {
            prev
        } else {
            prev.push(sig)
        }
    }
}

/// What creation logs announce, as (pair, token 0, token 1, fee): one entry
/// for each log that a registered factory emitted and that decodes.
pub open spec fn created_spec(factories: Map<H160, Factory>, logs: Seq<EventLog>) -> Seq<
    ((H160, H160, H160), u32),
>
    decreases logs.len(),
{
    if logs.len() == 0 {
        seq![]
    } else {
        let prev = created_spec(factories, logs.drop_last());
        let log = logs.last();
        if factories.contains_key(log.address) {
            match pair_created_spec(log) {
                Ok(t) => prev.push((t, factories[log.address].fee_spec())),
                Err(_) => prev,
            }
        } else {
            prev
        }
    }
}

/// The addresses of `s` other than the zero address, in order.
pub open spec fn nonzero_spec(s: Seq<H160>) -> Seq<H160>
    decreases s.len(),
{
    if s.len() == 0 {
        seq![]
    } else {
        let prev = nonzero_spec(s.drop_last());
        if s.last().is_zero_spec() {
            prev
        } else {
            prev.push(s.last())
        }
    }
}

/// Drops the zero addresses that a pair listing pads with.
pub fn nonzero_addresses(addresses: &Vec<H160>) -> (r: Vec<H160>)
    ensures
        r@ == nonzero_spec(addresses@),
{
    let mut pairs: Vec<H160> = Vec::new();
    let mut i: usize = 0;
    while i < addresses.len()
        invariant
            i <= addresses@.len(),
            pairs@ == nonzero_spec(addresses@.subrange(0, i as int)),
        decreases addresses@.len() - i,
    {
        proof {
            assert(addresses@.subrange(0, i + 1).drop_last() =~= addresses@.subrange(0, i as int));
        }
        if !addresses[i].is_zero() {
            pairs.push(addresses[i]);
        }
        i = i + 1;
    }
    proof {
        assert(addresses@.subrange(0, addresses@.len() as int) =~= addresses@);
    }
    pairs
}

/// Discovery of new venues from the factories' creation logs.
pub struct FactoryHelper {
    pub factories: AddressMap<Factory>,
}

impl FactoryHelper {
    pub fn new(factories: AddressMap<Factory>) -> (r: FactoryHelper)
        ensures
            r.factories == factories,
    {
        FactoryHelper { factories }
    }

    /// The creation-event signatures to filter logs on, without repeats.
    pub fn amm_created_event_signatures(&self) -> (r: Vec<H256>)
        ensures
            r@ == creation_signatures_spec(self.factories.entries@),
    {
        let mut sigs: Vec<H256> = Vec::new();
        let mut i: usize = 0;
        while i < self.factories.entries.len()
            invariant
                i <= self.factories.entries@.len(),
                sigs@ == creation_signatures_spec(self.factories.entries@.subrange(0, i as int)),
            decreases self.factories.entries@.len() - i,
        {
            proof {
                assert(self.factories.entries@.subrange(0, i + 1).drop_last()
                    =~= self.factories.entries@.subrange(0, i as int));
            }
            let sig = self.factories.entries[i].amm_created_event_signature();
            let mut found = false;
            let mut j: usize = 0;
            while j < sigs.len()
                invariant
                    j <= sigs@.len(),
                    found == exists|k: int| 0 <= k < j && sigs@[k] == sig,
                decreases sigs@.len() - j,
            {
                if sigs[j] == sig {
                    found = true;
                }
                j = j + 1;
            }
            if !found {
                sigs.push(sig);
            }
            i = i + 1;
        }
        proof {
            assert(self.factories.entries@.subrange(0, self.factories.entries@.len() as int)
                =~= self.factories.entries@);
        }
        sigs
    }

    /// The addresses of the registered factories.
    pub fn factory_addresses(&self) -> (r: Vec<H160>)
        ensures
            r@.len() == self.factories.entries@.len(),
            forall|i: int| 0 <= i < r@.len() ==> r@[i] == #[trigger] self.factories.entries@[i].address_spec(),
    {
        let mut out: Vec<H160> = Vec::new();
        let mut i: usize = 0;
        while i < self.factories.entries.len()
            invariant
                i <= self.factories.entries@.len(),
                out@.len() == i,
                forall|k: int| 0 <= k < i ==> out@[k] == #[trigger] self.factories.entries@[k].address_spec(),
            decreases self.factories.entries@.len() - i,
        {
            out.push(self.factories.entries[i].address());
            i = i + 1;
        }
        out
    }

    /// Fresh venues from creation logs: a log from an address that is not a
    /// registered factory, or one that does not decode, is skipped.
    pub fn pools_from_logs(&self, logs: &Vec<EventLog>) -> (r: Vec<AMM>)
        requires
            self.factories.wf(),
        ensures
            r@.len() == created_spec(self.factories.view(), logs@).len(),
            forall|i: int|
                0 <= i < r@.len() ==> is_fresh_pool(
                    #[trigger] r@[i],
                    created_spec(self.factories.view(), logs@)[i].0,
                    created_spec(self.factories.view(), logs@)[i].1,
                ),
    {
        let mut out: Vec<AMM> = Vec::new();
        let mut i: usize = 0;
        while i < logs.len()
            invariant
                i <= logs@.len(),
                self.factories.wf(),
                out@.len() == created_spec(self.factories.view(), logs@.subrange(0, i as int)).len(),
                forall|k: int|
                    0 <= k < out@.len() ==> is_fresh_pool(
                        #[trigger] out@[k],
                        created_spec(self.factories.view(), logs@.subrange(0, i as int))[k].0,
                        created_spec(self.factories.view(), logs@.subrange(0, i as int))[k].1,
                    ),
            decreases logs@.len() - i,
        {
            proof {
                assert(logs@.subrange(0, i + 1).drop_last() =~= logs@.subrange(0, i as int));
                assert(logs@.subrange(0, i + 1).last() == logs@[i as int]);
            }
            let log = &logs[i];
            match self.factories.get(log.address) {
                None => {},
                Some(factory) => {
                    match factory.new_empty_amm_from_log(log) {
                        Ok(amm) => {
                            out.push(amm);
                        },
                        Err(_) => {},
                    }
                },
            }
            i = i + 1;
        }
        proof {
            assert(logs@.subrange(0, logs@.len() as int) =~= logs@);
        }
        out
    }
}

} // verus!
