//! The plaintext functions that the engine evaluates homomorphically: the
//! lookup tables of the fused strategy, the equality tests and boolean
//! connectives of the other two, and the proofs that every strategy's
//! pipeline computes the survival rule.
//!
//! Each executable function here is handed to a programmable-lookup-table
//! wrapper; its `ensures` ties it to a spec function, so everything proved of
//! the spec pipeline carries over to the encrypted computation.

use vstd::prelude::*;
use vstd::arithmetic::div_mod::{
    lemma_fundamental_div_mod_converse_div, lemma_fundamental_div_mod_converse_mod,
};
use crate::rule::rule_next;

verus! {

/// The packing factor of the single-table fused layout: the cell value is
/// moved into a disjoint high-order digit above the neighbor sum.
pub const PACK_FACTOR: u64 = 16;

/// First fused table: sums 2 and 3 collapse to markers 1 and 2, all other
/// sums to the sentinel 0.
pub open spec fn spec_mark_two_three(x: nat) -> nat {
    if x == 2 || x == 3 {
        (x - 1) as nat
    } else {
        0
    }
}

/// Second fused table: fold the marker-plus-cell value into the final state.
pub open spec fn spec_two_or_three(x: nat) -> nat {
    if x == 2 || x == 3 {
        1
    } else {
        0
    }
}

pub open spec fn spec_eq_one(x: nat) -> nat {
    if x == 1 {
        1
    } else {
        0
    }
}

pub open spec fn spec_eq_two(x: nat) -> nat {
    if x == 2 {
        1
    } else {
        0
    }
}

pub open spec fn spec_eq_three(x: nat) -> nat {
    if x == 3 {
        1
    } else {
        0
    }
}

pub open spec fn spec_is_zero(x: nat) -> nat {
    if x == 0 {
        1
    } else {
        0
    }
}

pub open spec fn spec_ge_one(x: nat) -> nat {
    if x >= 1 {
        1
    } else {
        0
    }
}

/// The single packed table: split the input back into the cell digit and the
/// neighbor sum, then apply the survival rule.
pub open spec fn spec_packed_rule(x: nat) -> nat {
    let cell = x / (PACK_FACTOR as nat);
    let n = x % (PACK_FACTOR as nat);
    if n == 3 || (cell == 1 && n == 2) {
        1
    } else {
        0
    }
}

pub fn tbl_mark_two_three(x: u64) -> (r: u64)
    ensures
        r as nat == spec_mark_two_three(x as nat),
{
    if x == 2 || x == 3 {
        x - 1
    } else {
        0
    }
}

pub fn tbl_two_or_three(x: u64) -> (r: u64)
    ensures
        r as nat == spec_two_or_three(x as nat),
{
    if x == 2 || x == 3 {
        1
    } else {
        0
    }
}

pub fn tbl_eq_one(x: u64) -> (r: u64)
    ensures
        r as nat == spec_eq_one(x as nat),
{
    if x == 1 {
        1
    } else {
        0
    }
}

pub fn tbl_eq_two(x: u64) -> (r: u64)
    ensures
        r as nat == spec_eq_two(x as nat),
{
    if x == 2 {
        1
    } else {
        0
    }
}

pub fn tbl_eq_three(x: u64) -> (r: u64)
    ensures
        r as nat == spec_eq_three(x as nat),
{
    if x == 3 {
        1
    } else {
        0
    }
}

pub fn tbl_is_zero(x: u64) -> (r: u64)
    ensures
        r as nat == spec_is_zero(x as nat),
{
    if x == 0 {
        1
    } else {
        0
    }
}

pub fn tbl_ge_one(x: u64) -> (r: u64)
    ensures
        r as nat == spec_ge_one(x as nat),
{
    if x >= 1 {
        1
    } else {
        0
    }
}

pub fn tbl_packed_rule(x: u64) -> (r: u64)
    ensures
        r as nat == spec_packed_rule(x as nat),
{
    let cell = x / PACK_FACTOR;
    let n = x % PACK_FACTOR;
    let r = if n == 3 || (cell == 1 && n == 2) {
        1
    } else {
        0
    };
    proof {
        assert(x as nat / (PACK_FACTOR as nat) == x / PACK_FACTOR);
        assert(x as nat % (PACK_FACTOR as nat) == x % PACK_FACTOR);
    }
    r
}

/// What the modular-integer-sum strategy computes from a cell and its exact
/// neighbor count: equality tests against 2 and 3, a boolean AND with the
/// cell, and a boolean OR, each connective expressed over a sum.
pub open spec fn integer_sum_alive(cell: nat, count: nat) -> nat {
    spec_ge_one(spec_eq_two(cell + spec_eq_two(count)) + spec_eq_three(count))
}

/// What the bit-sliced strategy computes from a cell and the three bits of
/// the count accumulator.
pub open spec fn bit_slice_alive(cell: nat, b0: nat, b1: nat, b2: nat) -> nat {
    let middle = spec_eq_two(b1 + spec_is_zero(b2));
    let eq3 = spec_eq_two(b0 + middle);
    let eq2 = spec_eq_two(spec_is_zero(b0) + middle);
    spec_ge_one(eq3 + spec_eq_two(cell + eq2))
}

/// What the two-table fused layout computes.
pub open spec fn fused_two_step_alive(cell: nat, count: nat) -> nat {
    spec_two_or_three(spec_mark_two_three(count) + cell)
}

/// What the packed single-table fused layout computes.
pub open spec fn fused_packed_alive(cell: nat, count: nat) -> nat {
    spec_packed_rule((PACK_FACTOR as nat) * cell + count)
}

/// Cross-strategy equivalence: for every cell value and neighbor count of an
/// eight-cell neighborhood, the three strategies' pipelines all compute the
/// survival rule, so boards updated under any of them decrypt identically.
pub proof fn lemma_strategies_agree(cell: nat, count: nat)
    requires
        cell <= 1,
        count <= 8,
    ensures
        integer_sum_alive(cell, count) == rule_next(cell, count),
        fused_two_step_alive(cell, count) == rule_next(cell, count),
        fused_packed_alive(cell, count) == rule_next(cell, count),
{
    let x = (PACK_FACTOR as nat) * cell + count;
    assert(x == 16 * cell + count);
    lemma_fundamental_div_mod_converse_div(x as int, 16, cell as int, count as int);
    lemma_fundamental_div_mod_converse_mod(x as int, 16, cell as int, count as int);
    assert(x / (PACK_FACTOR as nat) == cell);
    assert(x % (PACK_FACTOR as nat) == count);
}

/// The bit-sliced pipeline agrees with the survival rule whenever the three
/// accumulator bits encode the neighbor count modulo eight.  The count 8
/// aliases to 0, which the rule's thresholds 2 and 3 never meet.
pub proof fn lemma_bit_slice_agrees(cell: nat, count: nat, b0: nat, b1: nat, b2: nat)
    requires
        cell <= 1,
        count <= 8,
        b0 <= 1,
        b1 <= 1,
        b2 <= 1,
        b0 + 2 * b1 + 4 * b2 == count % 8,
    ensures
        bit_slice_alive(cell, b0, b1, b2) == rule_next(cell, count),
{
    if count < 8 {
        assert(count % 8 == count);
    } else {
        assert(count % 8 == 0);
    }
}

} // verus!
