//! Power-of-two arithmetic and the wrap-around index scheme that the
//! circular store and its contracts are stated over.

use vstd::arithmetic::div_mod::lemma_fundamental_div_mod;
use vstd::arithmetic::div_mod::lemma_mod_multiples_basic;
use vstd::arithmetic::div_mod::lemma_mod_multiples_vanish;
use vstd::arithmetic::div_mod::lemma_mod_sub_multiples_vanish;
use vstd::arithmetic::div_mod::lemma_small_mod;
use vstd::arithmetic::mul::lemma_mul_is_commutative;
use vstd::prelude::*;

verus! {

/// Holds exactly when `n` is a power of two.
pub open spec fn is_power_of_two(n: int) -> bool
    decreases n,
{
    if n <= 0 {
        false
    } else if n == 1 {
        true
    } else {
        n % 2 == 0 && is_power_of_two(n / 2)
    }
}

/// The least power of two strictly greater than `x`.
pub open spec fn pow2_above(x: int) -> int
    decreases x,
{
    if x <= 0 {
        1
    } else {
        2 * pow2_above(x / 2)
    }
}

/// A power of two is at least 1.
pub proof fn lemma_pow2_pos(n: int)
    requires
        is_power_of_two(n),
    ensures
        n >= 1,
{
}

/// `pow2_above(x)` is a power of two, lies strictly above `x`, and for
/// positive `x` is at most `2 * x`.
pub proof fn lemma_pow2_above_props(x: int)
    ensures
        is_power_of_two(pow2_above(x)),
        pow2_above(x) > x,
        x >= 1 ==> pow2_above(x) <= 2 * x,
    decreases x,
{
    if x <= 0 {
    } else {
        lemma_pow2_above_props(x / 2);
    }
}

/// No power of two strictly above `x` lies below `pow2_above(x)`.
pub proof fn lemma_pow2_above_least(x: int, p: int)
    requires
        is_power_of_two(p),
        p > x,
    ensures
        p >= pow2_above(x),
    decreases x,
{
    if x <= 0 {
    } else {
        lemma_pow2_above_least(x / 2, p / 2);
    }
}

/// Of two distinct powers of two, the larger is at least double the smaller.
pub proof fn lemma_pow2_double(a: int, b: int)
    requires
        is_power_of_two(a),
        is_power_of_two(b),
        a < b,
    ensures
        2 * a <= b,
    decreases b,
{
    if a > 1 {
        lemma_pow2_double(a / 2, b / 2);
    }
}

/// The whole address space, `usize::MAX + 1`, is a power of two.
pub proof fn lemma_addr_space_pow2()
    ensures
        is_power_of_two(usize::MAX as int + 1),
{
    reveal_with_fuel(is_power_of_two, 66);
    if usize::MAX == 0xffff_ffffusize {
        assert(is_power_of_two(0x1_0000_0000int));
    } else {
        assert(is_power_of_two(0x1_0000_0000_0000_0000int));
    }
}

/// A smaller power of two divides a larger one.
pub proof fn lemma_pow2_divides(a: int, b: int)
    requires
        is_power_of_two(a),
        is_power_of_two(b),
        a <= b,
    ensures
        b % a == 0,
    decreases b,
{
    if a == 1 {
        lemma_small_mod(0, 1);
        lemma_fundamental_div_mod(b, 1);
        lemma_mod_multiples_basic(b, 1);
        lemma_mul_is_commutative(b, 1);
    } else {
        lemma_pow2_divides(a / 2, b / 2);
        let q = (b / 2) / (a / 2);
        lemma_fundamental_div_mod(b / 2, a / 2);
        lemma_fundamental_div_mod(a, 2);
        lemma_fundamental_div_mod(b, 2);
        assert(b == q * a) by (nonlinear_arith)
            requires
                b / 2 == (a / 2) * q,
                a == 2 * (a / 2),
                b == 2 * (b / 2),
        ;
        lemma_mod_multiples_basic(q, a);
    }
}

/// Reducing a value modulo the address space first does not change its
/// reduction modulo a representable power of two, which divides the
/// address space.
pub proof fn lemma_mod_addr_space(x: int, c: int)
    requires
        is_power_of_two(c),
        c <= usize::MAX,
    ensures
        (x + (usize::MAX as int + 1)) % c == x % c,
        (x - (usize::MAX as int + 1)) % c == x % c,
{
    let m = usize::MAX as int + 1;
    lemma_pow2_pos(c);
    lemma_addr_space_pow2();
    lemma_pow2_divides(c, m);
    let k = m / c;
    lemma_fundamental_div_mod(m, c);
    assert(m == c * k);
    lemma_mod_multiples_vanish(k, x, c);
    lemma_mod_multiples_vanish(-k, x, c);
    assert(c * (-k) == -(c * k)) by (nonlinear_arith);
}

/// Reduction of a position in `[0, 2 * cap)` back into the store: positions
/// past the end continue from index 0.
pub open spec fn wrap(pos: int, cap: int) -> int {
    if pos < cap {
        pos
    } else {
        pos - cap
    }
}

/// On `[0, 2 * cap)`, `wrap` agrees with reduction modulo `cap`.
pub proof fn lemma_wrap_is_mod(pos: int, cap: int)
    requires
        0 < cap,
        0 <= pos < 2 * cap,
    ensures
        pos % cap == wrap(pos, cap),
{
    if pos < cap {
        lemma_small_mod(pos as nat, cap as nat);
    } else {
        lemma_mod_sub_multiples_vanish(pos, cap);
        lemma_small_mod((pos - cap) as nat, cap as nat);
    }
}

/// The store index holding the element `i` places after the cursor
/// `first`, in a store of `cap` slots.
pub open spec fn slot(first: int, i: int, cap: int) -> int {
    wrap(first + i, cap)
}

/// The number of occupied slots between a read cursor `tail` and a write
/// cursor `head` in a store of `cap` slots.
pub open spec fn spec_count(tail: int, head: int, cap: int) -> int {
    if tail <= head {
        head - tail
    } else {
        head + cap - tail
    }
}

/// For in-range cursors, `spec_count` is the distance from `tail` up to
/// `head` modulo the store size.
pub proof fn lemma_count_is_mod(tail: int, head: int, cap: int)
    requires
        0 <= tail < cap,
        0 <= head < cap,
    ensures
        spec_count(tail, head, cap) == (head - tail) % cap,
{
    if tail <= head {
        lemma_small_mod((head - tail) as nat, cap as nat);
    } else {
        lemma_mod_sub_multiples_vanish(head - tail + cap, cap);
        lemma_small_mod((head - tail + cap) as nat, cap as nat);
    }
}

} // verus!
