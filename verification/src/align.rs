//! Rounding an offset up to a power-of-two alignment.

use vstd::arithmetic::div_mod::{
    lemma_fundamental_div_mod, lemma_fundamental_div_mod_converse, lemma_mod_breakdown,
    lemma_mod_multiples_basic,
};
use vstd::arithmetic::power2::{
    is_pow2, is_pow2_equiv, lemma_pow2, lemma_pow2_adds, lemma_pow2_pos,
    lemma_pow2_strictly_increases, pow2,
};
use vstd::prelude::*;

verus! {

/// Whether `value` is a whole number of steps of `align`.
pub open spec fn is_multiple(value: nat, align: nat) -> bool
    recommends
        align > 0,
{
    value % align == 0
}

/// The least multiple of `align` that is not below `offset`.
pub open spec fn align_up(offset: nat, align: nat) -> nat
    recommends
        align > 0,
{
    if offset % align == 0 {
        offset
    } else {
        (offset + align - offset % align) as nat
    }
}

/// `align_up(offset, align)` is a multiple of `align`, lies in
/// `[offset, offset + align)`, and no smaller multiple of `align` reaches
/// `offset`.
pub proof fn lemma_align_up_least_multiple(offset: nat, align: nat)
    requires
        align > 0,
    ensures
        is_multiple(align_up(offset, align), align),
        offset <= align_up(offset, align) < offset + align,
        forall|m: nat|
            #[trigger] is_multiple(m, align) && offset <= m ==> align_up(offset, align) <= m,
{
    let a = align as int;
    let x = offset as int;
    let up = align_up(offset, align) as int;
    lemma_fundamental_div_mod(x, a);
    if x % a != 0 {
        assert(up == a * (x / a + 1)) by (nonlinear_arith)
            requires
                x == a * (x / a) + x % a,
                up == x + a - x % a,
        ;
        lemma_multiple_has_no_remainder(x / a + 1, a);
    }
    assert forall|m: nat| #[trigger] is_multiple(m, align) && offset <= m implies up <= m by {
        if (m as int) < up {
            lemma_fundamental_div_mod(m as int, a);
            lemma_fundamental_div_mod(up, a);
            let gap = up / a - (m as int) / a;
            assert(up - m == a * gap) by (nonlinear_arith)
                requires
                    up == a * (up / a),
                    m == a * ((m as int) / a),
                    gap == up / a - (m as int) / a,
            ;
            assert(gap >= 1 ==> a * gap >= a) by (nonlinear_arith)
                requires
                    a > 0,
            ;
            assert(gap <= 0 ==> a * gap <= 0) by (nonlinear_arith)
                requires
                    a > 0,
            ;
        }
    }
}

proof fn lemma_multiple_has_no_remainder(q: int, d: int)
    requires
        d > 0,
    ensures
        (d * q) % d == 0,
{
    lemma_mod_multiples_basic(q, d);
    assert(d * q == q * d) by (nonlinear_arith);
}

/// Clearing the bits below a power of two takes away the remainder.
proof fn lemma_mask_clears_remainder(x: usize, align: usize)
    requires
        is_pow2(align as int),
    ensures
        (x & !((align - 1) as usize)) == x - x % align,
    decreases align,
{
    reveal(is_pow2);
    if align == 1 {
        assert(x & !((1usize - 1) as usize) == x) by (bit_vector);
    } else {
        let half: usize = align / 2;
        let x2: usize = x / 2;
        lemma_mask_clears_remainder(x2, half);
        assert((x & !((align - 1) as usize)) == 2 * (x2 & !((half - 1) as usize))) by (bit_vector)
            requires
                align % 2 == 0,
                align >= 2,
                half == align / 2,
                x2 == x / 2,
        ;
        lemma_mod_breakdown(x as int, 2, half as int);
        assert(2 * (half as int) == align);
    }
}

/// A power of two that fits in `usize` divides the number of `usize` values.
proof fn lemma_pow2_divides_word(align: usize)
    requires
        is_pow2(align as int),
    ensures
        (usize::MAX + 1) % (align as int) == 0,
{
    reveal(is_pow2);
    is_pow2_equiv(align as int);
    let e = choose|e: nat| vstd::arithmetic::power::pow(2, e) == align as int;
    lemma_pow2(e);
    let bits = usize::BITS as nat;
    vstd::layout::unsigned_int_max_values();
    assert(pow2(bits) == usize::MAX + 1);
    if e >= bits {
        if e > bits {
            lemma_pow2_strictly_increases(bits, e);
        }
        assert(false);
    }
    let rest = (bits - e) as nat;
    lemma_pow2_adds(e, rest);
    lemma_pow2_pos(rest);
    lemma_multiple_has_no_remainder(pow2(rest) as int, align as int);
}

/// Rounds `offset` up to the next multiple of the power of two `align`, as
/// `(offset + align - 1) & !(align - 1)`; `None` where that multiple does not
/// fit in `usize`.
pub fn round_up(offset: usize, align: usize) -> (r: Option<usize>)
    requires
        is_pow2(align as int),
    ensures
        match r {
            Some(aligned) => aligned == align_up(offset as nat, align as nat),
            None => align_up(offset as nat, align as nat) > usize::MAX,
        },
{
    proof {
        reveal(is_pow2);
    }
    let mask: usize = align - 1;
    match offset.checked_add(mask) {
        Some(sum) => {
            proof {
                lemma_mask_clears_remainder(sum, align);
                lemma_remainder_after_bump(offset as int, align as int);
            }
            Some(sum & !mask)
        },
        None => {
            proof {
                lemma_pow2_divides_word(align);
                lemma_bump_crosses_multiple(offset as int, align as int, usize::MAX + 1);
            }
            None
        },
    }
}

/// What is left of `x + d - 1` after division by `d`, by what is left of `x`.
proof fn lemma_remainder_after_bump(x: int, d: int)
    requires
        0 <= x,
        0 < d,
    ensures
        (x + d - 1) - (x + d - 1) % d == align_up(x as nat, d as nat),
{
    lemma_fundamental_div_mod(x, d);
    let q = x / d;
    let r = x % d;
    if r == 0 {
        assert(x + d - 1 == q * d + (d - 1)) by (nonlinear_arith)
            requires
                x == d * q + r,
                r == 0,
        ;
        lemma_fundamental_div_mod_converse(x + d - 1, d, q, d - 1);
    } else {
        assert(x + d - 1 == (q + 1) * d + (r - 1)) by (nonlinear_arith)
            requires
                x == d * q + r,
        ;
        lemma_fundamental_div_mod_converse(x + d - 1, d, q + 1, r - 1);
    }
}

/// Where `x` lies below a multiple `top` of `d` and `x + d - 1` does not, the
/// least multiple of `d` from `x` on is at least `top`.
proof fn lemma_bump_crosses_multiple(x: int, d: int, top: int)
    requires
        0 <= x < top,
        0 < d,
        top % d == 0,
        x + d - 1 >= top,
    ensures
        align_up(x as nat, d as nat) >= top,
{
    lemma_align_up_least_multiple(x as nat, d as nat);
    let up = align_up(x as nat, d as nat) as int;
    if up < top {
        lemma_fundamental_div_mod(up, d);
        lemma_fundamental_div_mod(top, d);
        let gap = top / d - up / d;
        assert(top - up == d * gap) by (nonlinear_arith)
            requires
                up == d * (up / d),
                top == d * (top / d),
                gap == top / d - up / d,
        ;
        assert(gap >= 1 ==> d * gap >= d) by (nonlinear_arith)
            requires
                d > 0,
        ;
        assert(gap <= 0 ==> d * gap <= 0) by (nonlinear_arith)
            requires
                d > 0,
        ;
    }
}

} // verus!
