//! The three interchangeable neighbor-count/rule encodings and their
//! capacity-driven selection.
//!
//! Every function here is verified against the plaintext model: each
//! strategy's pipeline is proved to hand back a ciphertext whose plaintext is
//! exactly the survival rule applied to the cell and its neighbor count.

use vstd::prelude::*;
use crate::LifeError;
use crate::fhe::{
    clone_cell, hom_add, hom_apply, hom_scalar_mul, hom_trivial, Cell, EvalContext,
};
use crate::rule::rule_next;
use crate::tables::{
    bit_slice_alive, fused_packed_alive, fused_two_step_alive, integer_sum_alive,
    lemma_bit_slice_agrees, lemma_strategies_agree, spec_eq_one, spec_eq_three, spec_eq_two,
    spec_ge_one, spec_is_zero, spec_mark_two_three, spec_packed_rule, spec_two_or_three,
    tbl_eq_one, tbl_eq_three, tbl_eq_two, tbl_ge_one, tbl_is_zero, tbl_mark_two_three,
    tbl_packed_rule, tbl_two_or_three,
};

verus! {

/// Which of the three encodings the caller asks for.
#[derive(Clone, Copy, Debug, PartialEq, Eq, Structural)]
pub enum StrategyKind {
    /// Cells are encrypted small integers; the count is their modular sum.
    IntegerSum,
    /// Cells are encrypted booleans; the count lives in a three-bit
    /// ripple-carry accumulator.
    BitSlice,
    /// Count and rule are fused into programmable lookup tables.
    FusedLookup,
}

/// A selected, capacity-validated strategy.  The fused encoding records which
/// of its two table layouts the context's capacities admit.
#[derive(Clone, Copy, Debug, PartialEq, Eq, Structural)]
pub enum Strategy {
    IntegerSum,
    BitSlice,
    /// Fused layout with two tables: collapse sums 2 and 3 to markers, add
    /// the unshifted cell, fold with a second table.
    FusedTwoStep,
    /// Fused layout with one table over the cell packed into a high digit.
    FusedPacked,
}

/// The combined plaintext capacity advertised by a context: message space
/// times carry space.
pub open spec fn capacity_of(msg: u64, carry: u64) -> nat {
    (msg as nat) * (carry as nat)
}

/// The capacity pairs served by the two-table fused layout.
pub open spec fn two_step_regime(msg: u64, carry: u64) -> bool {
    (msg == 16 && carry == 1) || (msg == 2 && carry == 8)
}

/// The capacity pairs served by the packed single-table fused layout.
pub open spec fn packed_regime(msg: u64, carry: u64) -> bool {
    (msg == 2 && carry == 16) || (msg == 16 && carry == 2) || (msg == 32 && carry == 1)
}

impl Strategy {
    /// Whether a selected strategy may run under the given capacities.
    pub open spec fn valid_for(self, msg: u64, carry: u64) -> bool {
        match self {
            Strategy::IntegerSum => capacity_of(msg, carry) >= 9,
            Strategy::BitSlice => capacity_of(msg, carry) >= 3,
            Strategy::FusedTwoStep => two_step_regime(msg, carry),
            Strategy::FusedPacked => packed_regime(msg, carry),
        }
    }
}

/// Does the advertised capacity reach `n`?
fn capacity_at_least(msg: u64, carry: u64, n: u64) -> (b: bool)
    requires
        1 <= n <= 16,
    ensures
        b == (capacity_of(msg, carry) >= n),
{
    if msg == 0 || carry == 0 {
        proof {
            assert(capacity_of(msg, carry) == 0) by (nonlinear_arith)
                requires
                    msg == 0 || carry == 0,
            ;
        }
        false
    } else if msg >= n {
        proof {
            assert((msg as nat) * (carry as nat) >= msg as nat) by (nonlinear_arith)
                requires
                    carry >= 1,
            ;
        }
        true
    } else if carry >= n {
        proof {
            assert((msg as nat) * (carry as nat) >= carry as nat) by (nonlinear_arith)
                requires
                    msg >= 1,
            ;
        }
        true
    } else {
        proof {
            assert((msg as nat) * (carry as nat) < 256) by (nonlinear_arith)
                requires
                    msg < 16,
                    carry < 16,
            ;
        }
        msg * carry >= n
    }
}

/// Validate and select a strategy for a context advertising the given
/// message and carry capacities.  Selection happens once, at setup, before
/// any ciphertext work: the integer-sum and bit-slice encodings need only a
/// minimum capacity, while the fused encoding serves an enumerated set of
/// capacity pairs and rejects every other combination.
pub fn select_strategy(kind: StrategyKind, msg: u64, carry: u64) -> (r: Result<
    Strategy,
    LifeError,
>)
    ensures
        kind == StrategyKind::IntegerSum ==> r == (if capacity_of(msg, carry) >= 9 {
            Ok::<Strategy, LifeError>(Strategy::IntegerSum)
        } else {
            Err::<Strategy, LifeError>(LifeError::CapacityOverflow)
        }),
        kind == StrategyKind::BitSlice ==> r == (if capacity_of(msg, carry) >= 3 {
            Ok::<Strategy, LifeError>(Strategy::BitSlice)
        } else {
            Err::<Strategy, LifeError>(LifeError::CapacityOverflow)
        }),
        kind == StrategyKind::FusedLookup ==> r == (if two_step_regime(msg, carry) {
            Ok::<Strategy, LifeError>(Strategy::FusedTwoStep)
        } else if packed_regime(msg, carry) {
            Ok::<Strategy, LifeError>(Strategy::FusedPacked)
        } else {
            Err::<Strategy, LifeError>(LifeError::UnsupportedParameterRegime)
        }),
        r matches Ok(s) ==> s.valid_for(msg, carry),
{
    match kind {
        StrategyKind::IntegerSum => {
            if capacity_at_least(msg, carry, 9) {
                Ok(Strategy::IntegerSum)
            } else {
                Err(LifeError::CapacityOverflow)
            }
        },
        StrategyKind::BitSlice => {
            if capacity_at_least(msg, carry, 3) {
                Ok(Strategy::BitSlice)
            } else {
                Err(LifeError::CapacityOverflow)
            }
        },
        StrategyKind::FusedLookup => {
            if (msg == 16 && carry == 1) || (msg == 2 && carry == 8) {
                Ok(Strategy::FusedTwoStep)
            } else if (msg == 2 && carry == 16) || (msg == 16 && carry == 2) || (msg == 32 && carry
                == 1) {
                Ok(Strategy::FusedPacked)
            } else {
                Err(LifeError::UnsupportedParameterRegime)
            }
        },
    }
}

/// Capacity validation of the fused encoding: a context advertising a
/// combined plaintext capacity below nine matches no fused table layout, so
/// selecting the fused strategy there fails with
/// `UnsupportedParameterRegime` before any ciphertext operation.
pub proof fn lemma_small_capacity_unsupported(msg: u64, carry: u64)
    requires
        capacity_of(msg, carry) < 9,
    ensures
        !two_step_regime(msg, carry),
        !packed_regime(msg, carry),
{
}

/// Evaluate one named plaintext table on a cell.  The ghost argument is the
/// table's specification; the caller's table function must implement it and
/// its outputs must stay tiny, so the result always fits any admitted
/// capacity.
fn apply_table<F: Fn(u64) -> u64>(
    ctx: &EvalContext,
    c: &Cell,
    f: F,
    Ghost(g): Ghost<spec_fn(nat) -> nat>,
) -> (r: Cell)
    requires
        c.key() == ctx.key(),
        c.value() < ctx.capacity(),
        c.value() <= 24,
        ctx.capacity() >= 3,
        forall|x: u64| #[trigger] call_requires(f, (x,)),
        forall|x: u64, y: u64| #[trigger] call_ensures(f, (x,), y) ==> y as nat == g(x as nat),
        forall|v: nat| #[trigger] g(v) <= 2,
    ensures
        r.key() == ctx.key(),
        r.value() == g(c.value()),
        r.value() <= 2,
{
    let r = hom_apply(ctx, c, f);
    proof {
        let cv: u64 = c.value() as u64;
        let y = choose|y: u64|
            #[trigger] call_ensures(f, (cv,), y) && r.value() == y as nat;
        assert(y as nat == g(cv as nat));
        assert(cv as nat == c.value());
    }
    r
}

/// Exclusive or of two encrypted booleans: add, then test for exactly one.
fn hom_xor(ctx: &EvalContext, a: &Cell, b: &Cell) -> (r: Cell)
    requires
        ctx.capacity() >= 3,
        a.key() == ctx.key(),
        b.key() == ctx.key(),
        a.value() <= 1,
        b.value() <= 1,
    ensures
        r.key() == ctx.key(),
        r.value() == spec_eq_one(a.value() + b.value()),
        r.value() <= 1,
{
    let t = hom_add(ctx, a, b);
    apply_table(ctx, &t, tbl_eq_one, Ghost(|v: nat| spec_eq_one(v)))
}

/// Conjunction of two encrypted booleans: add, then test for exactly two.
fn hom_and(ctx: &EvalContext, a: &Cell, b: &Cell) -> (r: Cell)
    requires
        ctx.capacity() >= 3,
        a.key() == ctx.key(),
        b.key() == ctx.key(),
        a.value() <= 1,
        b.value() <= 1,
    ensures
        r.key() == ctx.key(),
        r.value() == spec_eq_two(a.value() + b.value()),
        r.value() <= 1,
{
    let t = hom_add(ctx, a, b);
    apply_table(ctx, &t, tbl_eq_two, Ghost(|v: nat| spec_eq_two(v)))
}

/// Disjunction of two encrypted booleans: add, then test for at least one.
fn hom_or(ctx: &EvalContext, a: &Cell, b: &Cell) -> (r: Cell)
    requires
        ctx.capacity() >= 3,
        a.key() == ctx.key(),
        b.key() == ctx.key(),
        a.value() <= 1,
        b.value() <= 1,
    ensures
        r.key() == ctx.key(),
        r.value() == spec_ge_one(a.value() + b.value()),
        r.value() <= 1,
{
    let t = hom_add(ctx, a, b);
    apply_table(ctx, &t, tbl_ge_one, Ghost(|v: nat| spec_ge_one(v)))
}

/// Negation of an encrypted boolean: test for zero.
fn hom_not(ctx: &EvalContext, a: &Cell) -> (r: Cell)
    requires
        ctx.capacity() >= 3,
        a.key() == ctx.key(),
        a.value() <= 1,
    ensures
        r.key() == ctx.key(),
        r.value() == spec_is_zero(a.value()),
        r.value() <= 1,
{
    apply_table(ctx, a, tbl_is_zero, Ghost(|v: nat| spec_is_zero(v)))
}

/// Sum the eight neighbor ciphertexts by modular addition, accumulated left
/// to right.  With a capacity of at least nine the maximum sum of eight never
/// wraps, so the count is exact.
pub fn count_integer_sum(
    ctx: &EvalContext,
    n0: &Cell,
    n1: &Cell,
    n2: &Cell,
    n3: &Cell,
    n4: &Cell,
    n5: &Cell,
    n6: &Cell,
    n7: &Cell,
) -> (r: Cell)
    requires
        ctx.capacity() >= 9,
        n0.key() == ctx.key() && n0.value() <= 1,
        n1.key() == ctx.key() && n1.value() <= 1,
        n2.key() == ctx.key() && n2.value() <= 1,
        n3.key() == ctx.key() && n3.value() <= 1,
        n4.key() == ctx.key() && n4.value() <= 1,
        n5.key() == ctx.key() && n5.value() <= 1,
        n6.key() == ctx.key() && n6.value() <= 1,
        n7.key() == ctx.key() && n7.value() <= 1,
    ensures
        r.key() == ctx.key(),
        r.value() == n0.value() + n1.value() + n2.value() + n3.value() + n4.value() + n5.value()
            + n6.value() + n7.value(),
{
    let mut acc = clone_cell(n0);
    acc = hom_add(ctx, &acc, n1);
    acc = hom_add(ctx, &acc, n2);
    acc = hom_add(ctx, &acc, n3);
    acc = hom_add(ctx, &acc, n4);
    acc = hom_add(ctx, &acc, n5);
    acc = hom_add(ctx, &acc, n6);
    acc = hom_add(ctx, &acc, n7);
    acc
}

/// Rule evaluation for the integer-sum encoding: equality tests of the count
/// against three and two, a conjunction with the cell, and a disjunction.
pub fn evaluate_integer_sum(ctx: &EvalContext, cell: &Cell, count: &Cell) -> (r: Cell)
    requires
        ctx.capacity() >= 9,
        cell.key() == ctx.key(),
        count.key() == ctx.key(),
        cell.value() <= 1,
        count.value() <= 8,
    ensures
        r.key() == ctx.key(),
        r.value() == rule_next(cell.value(), count.value()),
        r.value() <= 1,
{
    let eq3 = apply_table(ctx, count, tbl_eq_three, Ghost(|v: nat| spec_eq_three(v)));
    let eq2 = apply_table(ctx, count, tbl_eq_two, Ghost(|v: nat| spec_eq_two(v)));
    let survive = hom_and(ctx, cell, &eq2);
    let r = hom_or(ctx, &survive, &eq3);
    proof {
        lemma_strategies_agree(cell.value(), count.value());
        assert(r.value() == integer_sum_alive(cell.value(), count.value()));
    }
    r
}

/// The three bits of the bit-sliced ripple-carry accumulator, least
/// significant first; its decoded value is the neighbor count modulo eight.
pub struct BitCount {
    lo: Cell,
    mid: Cell,
    hi: Cell,
}

impl BitCount {
    pub closed spec fn lo_value(self) -> nat {
        self.lo.value()
    }

    pub closed spec fn mid_value(self) -> nat {
        self.mid.value()
    }

    pub closed spec fn hi_value(self) -> nat {
        self.hi.value()
    }

    /// The count the accumulator holds, modulo eight.
    pub open spec fn decoded(self) -> nat {
        self.lo_value() + 2 * self.mid_value() + 4 * self.hi_value()
    }

    /// Each slot holds an encrypted boolean.
    pub open spec fn bits_ok(self) -> bool {
        self.lo_value() <= 1 && self.mid_value() <= 1 && self.hi_value() <= 1
    }

    /// All three slots belong to the given key pair.
    pub closed spec fn keys_match(self, k: nat) -> bool {
        self.lo.key() == k && self.mid.key() == k && self.hi.key() == k
    }
}

/// One ripple-carry step: fold one neighbor into the accumulator.  The chain
/// is strictly sequential; each gate reads the accumulator state the
/// previous one left.
fn bit_accumulate(ctx: &EvalContext, acc: BitCount, n: &Cell) -> (r: BitCount)
    requires
        ctx.capacity() >= 3,
        acc.keys_match(ctx.key()),
        acc.bits_ok(),
        n.key() == ctx.key(),
        n.value() <= 1,
    ensures
        r.keys_match(ctx.key()),
        r.bits_ok(),
        r.decoded() == (acc.decoded() + n.value()) % 8,
{
    let carry1 = hom_and(ctx, &acc.lo, n);
    let lo = hom_xor(ctx, &acc.lo, n);
    let carry2 = hom_and(ctx, &carry1, &acc.mid);
    let mid = hom_xor(ctx, &acc.mid, &carry1);
    let hi = hom_xor(ctx, &acc.hi, &carry2);
    let r = BitCount { lo, mid, hi };
    proof {
        assert(r.decoded() == (acc.decoded() + n.value()) % 8);
    }
    r
}

/// Count the eight neighbors in a three-bit accumulator initialized from an
/// encrypted zero triple, folding them in one fixed sequential order.
pub fn count_bit_slice(
    ctx: &EvalContext,
    n0: &Cell,
    n1: &Cell,
    n2: &Cell,
    n3: &Cell,
    n4: &Cell,
    n5: &Cell,
    n6: &Cell,
    n7: &Cell,
) -> (r: BitCount)
    requires
        ctx.capacity() >= 3,
        n0.key() == ctx.key() && n0.value() <= 1,
        n1.key() == ctx.key() && n1.value() <= 1,
        n2.key() == ctx.key() && n2.value() <= 1,
        n3.key() == ctx.key() && n3.value() <= 1,
        n4.key() == ctx.key() && n4.value() <= 1,
        n5.key() == ctx.key() && n5.value() <= 1,
        n6.key() == ctx.key() && n6.value() <= 1,
        n7.key() == ctx.key() && n7.value() <= 1,
    ensures
        r.keys_match(ctx.key()),
        r.bits_ok(),
        r.decoded() == (n0.value() + n1.value() + n2.value() + n3.value() + n4.value()
            + n5.value() + n6.value() + n7.value()) % 8,
{
    proof {
        assert(ctx.spec_message_modulus() >= 1) by (nonlinear_arith)
            requires
                (ctx.spec_message_modulus() as nat) * (ctx.spec_carry_modulus() as nat) >= 3,
        ;
    }
    let z0 = hom_trivial(ctx, 0);
    let z1 = hom_trivial(ctx, 0);
    let z2 = hom_trivial(ctx, 0);
    let mut acc = BitCount { lo: z0, mid: z1, hi: z2 };
    proof {
        assert(acc.decoded() == 0);
    }
    acc = bit_accumulate(ctx, acc, n0);
    proof {
        assert(acc.decoded() == (n0.value()) % 8);
    }
    acc = bit_accumulate(ctx, acc, n1);
    proof {
        assert(acc.decoded() == (n0.value() + n1.value()) % 8);
    }
    acc = bit_accumulate(ctx, acc, n2);
    proof {
        assert(acc.decoded() == (n0.value() + n1.value() + n2.value()) % 8);
    }
    acc = bit_accumulate(ctx, acc, n3);
    proof {
        assert(acc.decoded() == (n0.value() + n1.value() + n2.value() + n3.value()) % 8);
    }
    acc = bit_accumulate(ctx, acc, n4);
    proof {
        assert(acc.decoded() == (n0.value() + n1.value() + n2.value() + n3.value() + n4.value())
            % 8);
    }
    acc = bit_accumulate(ctx, acc, n5);
    proof {
        assert(acc.decoded() == (n0.value() + n1.value() + n2.value() + n3.value() + n4.value()
            + n5.value()) % 8);
    }
    acc = bit_accumulate(ctx, acc, n6);
    proof {
        assert(acc.decoded() == (n0.value() + n1.value() + n2.value() + n3.value() + n4.value()
            + n5.value() + n6.value()) % 8);
    }
    acc = bit_accumulate(ctx, acc, n7);
    acc
}

/// Fused two-table pipeline: sum the neighbors, collapse sums two and three
/// to markers one and two, add the unshifted cell, and fold the combined
/// value into the final boolean with a second table.
pub fn is_alive_two_step(
    ctx: &EvalContext,
    cell: &Cell,
    n0: &Cell,
    n1: &Cell,
    n2: &Cell,
    n3: &Cell,
    n4: &Cell,
    n5: &Cell,
    n6: &Cell,
    n7: &Cell,
) -> (r: Cell)
    requires
        ctx.capacity() >= 9,
        cell.key() == ctx.key() && cell.value() <= 1,
        n0.key() == ctx.key() && n0.value() <= 1,
        n1.key() == ctx.key() && n1.value() <= 1,
        n2.key() == ctx.key() && n2.value() <= 1,
        n3.key() == ctx.key() && n3.value() <= 1,
        n4.key() == ctx.key() && n4.value() <= 1,
        n5.key() == ctx.key() && n5.value() <= 1,
        n6.key() == ctx.key() && n6.value() <= 1,
        n7.key() == ctx.key() && n7.value() <= 1,
    ensures
        r.key() == ctx.key(),
        r.value() == rule_next(
            cell.value(),
            n0.value() + n1.value() + n2.value() + n3.value() + n4.value() + n5.value()
                + n6.value() + n7.value(),
        ),
        r.value() <= 1,
{
    let count = count_integer_sum(ctx, n0, n1, n2, n3, n4, n5, n6, n7);
    let marker = apply_table(ctx, &count, tbl_mark_two_three, Ghost(|v: nat| spec_mark_two_three(v)));
    let packed = hom_add(ctx, &marker, cell);
    let r = apply_table(ctx, &packed, tbl_two_or_three, Ghost(|v: nat| spec_two_or_three(v)));
    proof {
        lemma_strategies_agree(cell.value(), count.value());
        assert(r.value() == fused_two_step_alive(cell.value(), count.value()));
    }
    r
}

/// Fused single-table pipeline: sum the neighbors, pack the cell into a
/// disjoint high-order digit by a clear multiplication, and decide with one
/// table that splits the packed value back into its two components.
pub fn is_alive_packed(
    ctx: &EvalContext,
    cell: &Cell,
    n0: &Cell,
    n1: &Cell,
    n2: &Cell,
    n3: &Cell,
    n4: &Cell,
    n5: &Cell,
    n6: &Cell,
    n7: &Cell,
) -> (r: Cell)
    requires
        ctx.capacity() >= 25,
        cell.key() == ctx.key() && cell.value() <= 1,
        n0.key() == ctx.key() && n0.value() <= 1,
        n1.key() == ctx.key() && n1.value() <= 1,
        n2.key() == ctx.key() && n2.value() <= 1,
        n3.key() == ctx.key() && n3.value() <= 1,
        n4.key() == ctx.key() && n4.value() <= 1,
        n5.key() == ctx.key() && n5.value() <= 1,
        n6.key() == ctx.key() && n6.value() <= 1,
        n7.key() == ctx.key() && n7.value() <= 1,
    ensures
        r.key() == ctx.key(),
        r.value() == rule_next(
            cell.value(),
            n0.value() + n1.value() + n2.value() + n3.value() + n4.value() + n5.value()
                + n6.value() + n7.value(),
        ),
        r.value() <= 1,
{
    let count = count_integer_sum(ctx, n0, n1, n2, n3, n4, n5, n6, n7);
    let shifted = hom_scalar_mul(ctx, cell, 16);
    let packed = hom_add(ctx, &count, &shifted);
    let r = apply_table(ctx, &packed, tbl_packed_rule, Ghost(|v: nat| spec_packed_rule(v)));
    proof {
        lemma_strategies_agree(cell.value(), count.value());
        assert(r.value() == fused_packed_alive(cell.value(), count.value()));
    }
    r
}

/// Next state of one cell under the selected strategy: every encoding is
/// proved to compute the same survival rule on the plaintexts.
pub fn is_alive(
    ctx: &EvalContext,
    strat: Strategy,
    cell: &Cell,
    n0: &Cell,
    n1: &Cell,
    n2: &Cell,
    n3: &Cell,
    n4: &Cell,
    n5: &Cell,
    n6: &Cell,
    n7: &Cell,
) -> (r: Cell)
    requires
        strat.valid_for(ctx.spec_message_modulus(), ctx.spec_carry_modulus()),
        cell.key() == ctx.key() && cell.value() <= 1,
        n0.key() == ctx.key() && n0.value() <= 1,
        n1.key() == ctx.key() && n1.value() <= 1,
        n2.key() == ctx.key() && n2.value() <= 1,
        n3.key() == ctx.key() && n3.value() <= 1,
        n4.key() == ctx.key() && n4.value() <= 1,
        n5.key() == ctx.key() && n5.value() <= 1,
        n6.key() == ctx.key() && n6.value() <= 1,
        n7.key() == ctx.key() && n7.value() <= 1,
    ensures
        r.key() == ctx.key(),
        r.value() == rule_next(
            cell.value(),
            n0.value() + n1.value() + n2.value() + n3.value() + n4.value() + n5.value()
                + n6.value() + n7.value(),
        ),
        r.value() <= 1,
{
    let ghost count = n0.value() + n1.value() + n2.value() + n3.value() + n4.value() + n5.value()
        + n6.value() + n7.value();
    match strat {
        Strategy::IntegerSum => {
            let c = count_integer_sum(ctx, n0, n1, n2, n3, n4, n5, n6, n7);
            evaluate_integer_sum(ctx, cell, &c)
        },
        Strategy::BitSlice => {
            let bits = count_bit_slice(ctx, n0, n1, n2, n3, n4, n5, n6, n7);
            let r = evaluate_bit_slice(ctx, cell, &bits);
            proof {
                lemma_bit_slice_agrees(
                    cell.value(),
                    count,
                    bits.lo_value(),
                    bits.mid_value(),
                    bits.hi_value(),
                );
            }
            r
        },
        Strategy::FusedTwoStep => {
            proof {
                assert(ctx.capacity() >= 9);
            }
            is_alive_two_step(ctx, cell, n0, n1, n2, n3, n4, n5, n6, n7)
        },
        Strategy::FusedPacked => {
            proof {
                assert(ctx.capacity() >= 25);
            }
            is_alive_packed(ctx, cell, n0, n1, n2, n3, n4, n5, n6, n7)
        },
    }
}

/// Rule evaluation for the bit-sliced encoding: recognize the bit patterns
/// of counts three and two, then combine with the cell.
pub fn evaluate_bit_slice(ctx: &EvalContext, cell: &Cell, bits: &BitCount) -> (r: Cell)
    requires
        ctx.capacity() >= 3,
        cell.key() == ctx.key(),
        bits.keys_match(ctx.key()),
        cell.value() <= 1,
        bits.bits_ok(),
    ensures
        r.key() == ctx.key(),
        r.value() == bit_slice_alive(
            cell.value(),
            bits.lo_value(),
            bits.mid_value(),
            bits.hi_value(),
        ),
        r.value() <= 1,
{
    let not_hi = hom_not(ctx, &bits.hi);
    let middle = hom_and(ctx, &bits.mid, &not_hi);
    let eq3 = hom_and(ctx, &bits.lo, &middle);
    let not_lo = hom_not(ctx, &bits.lo);
    let eq2 = hom_and(ctx, &not_lo, &middle);
    let survive = hom_and(ctx, cell, &eq2);
    hom_or(ctx, &eq3, &survive)
}

} // verus!
