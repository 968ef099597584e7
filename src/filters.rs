//! Selecting venues by the state of their token metadata.
use vstd::prelude::*;
use crate::amm::AMM;

verus! {

/// A pool whose first token has metadata and whose second does not; a vault
/// carries no token metadata and is never selected.
pub open spec fn half_filled(a: AMM) -> bool {
    match a {
        AMM::UniswapV2Pool(p) => p.token_a.is_filled_spec() && !p.token_b.is_filled_spec(),
        AMM::ERC4626Vault(_) => false,
    }
}

/// The venues of `amms` that `half_filled` selects, in order.
pub open spec fn half_filled_spec(amms: Seq<AMM>) -> Seq<AMM>
    decreases amms.len(),
{
    if amms.len() == 0 {
        seq![]
    } else {
        let prev = half_filled_spec(amms.drop_last());
        if half_filled(amms.last()) {
            prev.push(amms.last())
        } else {
            prev
        }
    }
}

/// Keeps the pools whose first token has metadata and whose second lacks it.
pub fn filter_empty_amms(amms: Vec<AMM>) -> (r: Vec<AMM>)
    ensures
        r@ == half_filled_spec(amms@),
{
    let mut amms = amms;
    let ghost all = amms@;
    let ghost mut k: int = 0;
    let mut cleaned_amms: Vec<AMM> = Vec::new();
    while amms.len() > 0
        invariant
            0 <= k <= all.len(),
            amms@ == all.subrange(k, all.len() as int),
            cleaned_amms@ == half_filled_spec(all.subrange(0, k)),
        decreases amms@.len(),
    {
        let amm = amms.remove(0);
        proof {
            assert(all.subrange(0, k + 1).drop_last() =~= all.subrange(0, k));
            assert(all.subrange(0, k + 1).last() == amm);
        }
        let keep = match &amm {
            AMM::UniswapV2Pool(pool) => pool.token_a.data_is_filled() && !pool.token_b.data_is_filled(),
            AMM::ERC4626Vault(_) => false,
        };
        if keep {
            cleaned_amms.push(amm);
        }
        proof {
            k = k + 1;
            assert(amms@ =~= all.subrange(k, all.len() as int));
        }
    }
    proof {
        assert(all.subrange(0, k) =~= all);
    }
    cleaned_amms
}

} // verus!
