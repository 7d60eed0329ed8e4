//! Rounding addresses to an alignment.
//!
//! An alignment is any positive number here, a power of two or not: rounding
//! goes to its multiples.

use vstd::prelude::*;
use vstd::arithmetic::div_mod::{
    lemma_fundamental_div_mod,
    lemma_mod_add_multiples_vanish,
    lemma_mod_multiples_basic,
};
use vstd::arithmetic::power2::is_pow2;

verus! {

/// The largest multiple of `alignment` that is not above `addr`.
pub open spec fn round_down(addr: int, alignment: int) -> int {
    addr - addr % alignment
}

/// The smallest multiple of `alignment` that is not below `addr`.
pub open spec fn round_up(addr: int, alignment: int) -> int {
    if addr % alignment == 0 {
        addr
    } else {
        addr - addr % alignment + alignment
    }
}

/// `round_down` gives a multiple of the alignment, less than one alignment
/// below the address.
pub proof fn lemma_round_down(addr: int, alignment: int)
    requires
        0 <= addr,
        0 < alignment,
    ensures
        round_down(addr, alignment) % alignment == 0,
        0 <= round_down(addr, alignment) <= addr < round_down(addr, alignment) + alignment,
{
    lemma_fundamental_div_mod(addr, alignment);
    lemma_mod_multiples_basic(addr / alignment, alignment);
    assert(alignment * (addr / alignment) == (addr / alignment) * alignment) by (nonlinear_arith);
}

/// `round_up` gives a multiple of the alignment, less than one alignment
/// above the address.
pub proof fn lemma_round_up(addr: int, alignment: int)
    requires
        0 <= addr,
        0 < alignment,
    ensures
        round_up(addr, alignment) % alignment == 0,
        addr <= round_up(addr, alignment) < addr + alignment,
{
    lemma_round_down(addr, alignment);
    if addr % alignment != 0 {
        lemma_mod_add_multiples_vanish(round_down(addr, alignment), alignment);
    }
}

/// Rounds `addr` down to a multiple of `alignment`.
pub fn align_down(addr: u64, alignment: u64) -> (aligned: u64)
    requires
        alignment > 0,
    ensures
        aligned == round_down(addr as int, alignment as int),
        aligned % alignment == 0,
        aligned <= addr < aligned + alignment,
{
    proof {
        lemma_round_down(addr as int, alignment as int);
    }
    addr - addr % alignment
}

/// Rounds `addr` up to a multiple of `alignment`; `None` where that multiple
/// is not a `u64`.
pub fn align_up(addr: u64, alignment: u64) -> (aligned: Option<u64>)
    requires
        alignment > 0,
    ensures
        aligned is Some <==> round_up(addr as int, alignment as int) <= u64::MAX,
        aligned is Some ==> aligned.unwrap() == round_up(addr as int, alignment as int),
        aligned is Some ==> aligned.unwrap() % alignment == 0 && addr <= aligned.unwrap() < addr
            + alignment,
{
    proof {
        lemma_round_down(addr as int, alignment as int);
        lemma_round_up(addr as int, alignment as int);
    }
    let rest: u64 = addr % alignment;
    if rest == 0 {
        Some(addr)
    } else {
        (addr - rest).checked_add(alignment)
    }
}

/// Whether `n` is a power of two.
pub fn is_power_of_two(n: u64) -> (yes: bool)
    ensures
        yes == is_pow2(n as int),
{
    if n == 0 {
        proof {
            reveal(is_pow2);
        }
        return false;
    }
    let mut rest: u64 = n;
    while rest % 2 == 0
        invariant
            rest > 0,
            is_pow2(rest as int) == is_pow2(n as int),
        decreases rest,
    {
        proof {
            reveal(is_pow2);
        }
        rest = rest / 2;
    }
    proof {
        reveal(is_pow2);
    }
    rest == 1
}

} // verus!
