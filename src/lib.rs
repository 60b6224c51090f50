//! Round lifecycle and fair winner selection for lottery and giveaway rounds
//! on a replicated ledger: rounds are opened, stakes are registered into a
//! bounded pool, a winner is drawn from supplied randomness once the round
//! matures, and the winner claims the reward from an escrow pot.
use vstd::prelude::*;

pub mod did;
pub mod giveaway;
pub mod ledger;
pub mod lottery;
pub mod lucky_number;
pub mod precompile;
pub mod randomness;

verus! {

/// Identifier of an account on the ledger.
pub type AccountId = u64;

/// Amount of currency.
pub type Balance = u128;

/// Height of a block.
pub type BlockNumber = u32;

/// `b` cut to at most `n` items.
pub open spec fn truncated<T>(b: Seq<T>, n: usize) -> Seq<T> {
    if b.len() <= n {
        b
    } else {
        b.subrange(0, n as int)
    }
}

/// A copy of the first `n` items of `b`, or of all of them when fewer.
pub fn truncate_copy<T: Copy>(b: &[T], n: usize) -> (r: Vec<T>)
    ensures
        r@ == truncated(b@, n),
{
    let end: usize = if b.len() <= n {
        b.len()
    } else {
        n
    };
    let mut r: Vec<T> = Vec::new();
    let mut i: usize = 0;
    while i < end
        invariant
            end <= b@.len(),
            end == (if b@.len() <= n { b@.len() } else { n as nat }),
            0 <= i <= end,
            r@ == b@.subrange(0, i as int),
        decreases end - i,
    {
        r.push(b[i]);
        i = i + 1;
        assert(r@ =~= b@.subrange(0, i as int));
    }
    assert(b@.len() <= n ==> b@.subrange(0, end as int) =~= b@);
    r
}

} // verus!
