//! Duels: three rolls a side, compared by sum or by product.

use vstd::prelude::*;

verus! {

/// What three rolls are worth: their product in a product duel, their sum in
/// a sum duel.
pub open spec fn total(product: bool, rolls: Seq<usize>) -> int {
    if product {
        rolls[0] * rolls[1] * rolls[2]
    } else {
        rolls[0] + rolls[1] + rolls[2]
    }
}

/// Whether the acting player wins the duel. Only a strictly greater total
/// wins: on equal totals the point goes to the opponent.
pub open spec fn actor_beats(product: bool, actor: Seq<usize>, opponent: Seq<usize>) -> bool {
    total(product, actor) > total(product, opponent)
}

/// Two to the power of 64.
const LIMB: u128 = 0x1_0000_0000_0000_0000;

/// The product of two values below 2^64 is at most (2^64 - 1)^2.
proof fn lemma_limb_product(a: int, b: int)
    requires
        0 <= a < LIMB,
        0 <= b < LIMB,
    ensures
        0 <= a * b <= 0xFFFF_FFFF_FFFF_FFFE_0000_0000_0000_0001,
{
    assert(0 <= a * b <= (LIMB - 1) * (LIMB - 1)) by (nonlinear_arith)
        requires
            0 <= a <= LIMB - 1,
            0 <= b <= LIMB - 1,
    ;
}

/// The product of three rolls, exactly, as `high * 2^64 + low`.
fn triple_product(a: usize, b: usize, c: usize) -> (parts: (u128, u128))
    ensures
        parts.0 * LIMB + parts.1 == a * b * c,
        parts.1 < LIMB,
{
    let third: u128 = c as u128;
    proof {
        lemma_limb_product(a as int, b as int);
    }
    let pair: u128 = (a as u128) * (b as u128);
    let pair_high: u128 = pair / LIMB;
    let pair_low: u128 = pair % LIMB;
    proof {
        lemma_limb_product(pair_high as int, c as int);
        lemma_limb_product(pair_low as int, c as int);
    }
    let upper: u128 = pair_high * third;
    let lower: u128 = pair_low * third;
    let carry: u128 = lower / LIMB;
    let low: u128 = lower % LIMB;
    proof {
        assert((pair_high * LIMB + pair_low) * c == pair_high * c * LIMB + pair_low * c)
            by (nonlinear_arith);
        assert(pair * c == a * b * c);
    }
    (upper + carry, low)
}

/// Whether the acting player's three rolls beat the opponent's three rolls.
pub fn actor_wins(product: bool, actor: [usize; 3], opponent: [usize; 3]) -> (wins: bool)
    ensures
        wins == actor_beats(product, actor@, opponent@),
{
    if product {
        let mine: (u128, u128) = triple_product(actor[0], actor[1], actor[2]);
        let theirs: (u128, u128) = triple_product(opponent[0], opponent[1], opponent[2]);
        mine.0 > theirs.0 || (mine.0 == theirs.0 && mine.1 > theirs.1)
    } else {
        let mine: u128 = actor[0] as u128 + actor[1] as u128 + actor[2] as u128;
        let theirs: u128 = opponent[0] as u128 + opponent[1] as u128 + opponent[2] as u128;
        mine > theirs
    }
}

} // verus!
