//! Positional notation with a width for each digit, each width a whole
//! number of the next: the arithmetic that longitude and latitude share.

use vstd::arithmetic::div_mod::{
    lemma_fundamental_div_mod, lemma_fundamental_div_mod_converse, lemma_mod_mod,
};
use vstd::prelude::*;

verus! {

/// Value of the first `tiers` digits in a positional system in which digit
/// `k` weighs `width(k)`.
pub open spec fn positional(digit: spec_fn(int) -> int, width: spec_fn(int) -> int, tiers: int) -> int
    decreases tiers,
{
    if tiers <= 0 {
        0
    } else {
        positional(digit, width, tiers - 1) + digit(tiers - 1) * width(tiers - 1)
    }
}

/// The weights nest: `steps(k)` steps of tier `k` fill one step of the tier
/// above it.
pub open spec fn nested(width: spec_fn(int) -> int, steps: spec_fn(int) -> int, tiers: int) -> bool {
    &&& forall|k: int| 0 <= k < tiers ==> #[trigger] width(k) > 0
    &&& forall|k: int| 0 < k < tiers ==> width(k - 1) == steps(k) * #[trigger] width(k)
}

/// Each digit is one of the steps of its tier.
pub open spec fn proper(digit: spec_fn(int) -> int, steps: spec_fn(int) -> int, tiers: int) -> bool {
    forall|k: int| 0 <= k < tiers ==> 0 <= #[trigger] digit(k) < steps(k)
}

/// What is written in the first `t` digits is a whole number of steps of the
/// last of them.
proof fn lemma_prefix_aligned(
    digit: spec_fn(int) -> int,
    width: spec_fn(int) -> int,
    steps: spec_fn(int) -> int,
    tiers: int,
    t: int,
) -> (count: int)
    requires
        nested(width, steps, tiers),
        proper(digit, steps, tiers),
        1 <= t <= tiers,
    ensures
        count >= 0,
        positional(digit, width, t) == count * width(t - 1),
    decreases t,
{
    if t == 1 {
        assert(positional(digit, width, 0) == 0);
        digit(0)
    } else {
        let above = lemma_prefix_aligned(digit, width, steps, tiers, t - 1);
        let (s, w, d) = (steps(t - 1), width(t - 1), digit(t - 1));
        assert(width(t - 2) == s * w);
        assert(above * (s * w) + d * w == (above * s + d) * w && above * s + d >= 0)
            by (nonlinear_arith)
            requires
                above >= 0,
                0 <= d < s,
        ;
        above * s + d
    }
}

/// What the digits from `t` on add to a value, with a remainder `low` that is
/// less than one step of the last tier, is less than one step of tier `t - 1`.
proof fn lemma_suffix_bounded(
    digit: spec_fn(int) -> int,
    width: spec_fn(int) -> int,
    steps: spec_fn(int) -> int,
    tiers: int,
    t: int,
    low: int,
)
    requires
        nested(width, steps, tiers),
        proper(digit, steps, tiers),
        1 <= t <= tiers,
        0 <= low < width(tiers - 1),
    ensures
        0 <= positional(digit, width, tiers) - positional(digit, width, t) + low < width(t - 1),
    decreases tiers - t,
{
    if t < tiers {
        lemma_suffix_bounded(digit, width, steps, tiers, t + 1, low);
        let (s, w, d) = (steps(t), width(t), digit(t));
        assert(width(t - 1) == s * w);
        assert(0 <= d * w && d * w + w <= s * w) by (nonlinear_arith)
            requires
                0 <= d < s,
                w > 0,
        ;
    }
}

/// A value written in `tiers` digits, plus a remainder less than one step of
/// the last tier, yields each digit back: the first by division by its
/// width, each of the others by what is left of the step above it.
pub proof fn lemma_digit_recovered(
    digit: spec_fn(int) -> int,
    width: spec_fn(int) -> int,
    steps: spec_fn(int) -> int,
    tiers: int,
    t: int,
    low: int,
)
    requires
        nested(width, steps, tiers),
        proper(digit, steps, tiers),
        0 <= t < tiers,
        0 <= low < width(tiers - 1),
    ensures
        ({
            let value = positional(digit, width, tiers) + low;
            &&& 0 <= value < steps(0) * width(0)
            &&& t == 0 ==> value / width(0) == digit(0)
            &&& t > 0 ==> value % width(t - 1) / width(t) == digit(t)
        }),
{
    let value = positional(digit, width, tiers) + low;
    let (w, d) = (width(t), digit(t));
    // What follows digit `t` is less than one of its steps.
    lemma_suffix_bounded(digit, width, steps, tiers, t + 1, low);
    let rest = value - positional(digit, width, t + 1);
    assert(positional(digit, width, t + 1) == positional(digit, width, t) + d * w);
    assert(0 <= d * w) by (nonlinear_arith)
        requires
            0 <= d,
            w > 0,
    ;
    if t == 0 {
        assert(positional(digit, width, 0) == 0);
        lemma_fundamental_div_mod_converse(value, w, d, rest);
    } else {
        let above = lemma_prefix_aligned(digit, width, steps, tiers, t);
        lemma_suffix_bounded(digit, width, steps, tiers, t, low);
        lemma_fundamental_div_mod_converse(value, width(t - 1), above, d * w + rest);
        lemma_fundamental_div_mod_converse(d * w + rest, w, d, rest);
    }
    // The whole value is less than the steps of the first tier together.
    lemma_suffix_bounded(digit, width, steps, tiers, 1, low);
    let (s0, w0, d0) = (steps(0), width(0), digit(0));
    assert(positional(digit, width, 1) == positional(digit, width, 0) + d0 * w0);
    assert(positional(digit, width, 0) == 0);
    assert(0 <= d0 * w0 && d0 * w0 + w0 <= s0 * w0) by (nonlinear_arith)
        requires
            0 <= d0 < s0,
            w0 > 0,
    ;
}

/// The digit of tier `t` of a value: for the first tier the whole steps that
/// fit in it, for each other tier the whole steps that fit in what is left
/// of one step of the tier above.
pub open spec fn digit_of(width: spec_fn(int) -> int, t: int, value: int) -> int {
    if t == 0 {
        value / width(0)
    } else {
        value % width(t - 1) / width(t)
    }
}

/// The digits of a value, read positionally, give the value less what is
/// left of one step of the last tier.
pub proof fn lemma_value_rebuilt(
    digit: spec_fn(int) -> int,
    width: spec_fn(int) -> int,
    steps: spec_fn(int) -> int,
    tiers: int,
    value: int,
)
    requires
        nested(width, steps, tiers),
        1 <= tiers,
        forall|k: int| 0 <= k < tiers ==> #[trigger] digit(k) == digit_of(width, k, value),
    ensures
        positional(digit, width, tiers) + value % width(tiers - 1) == value,
    decreases tiers,
{
    let w = width(tiers - 1);
    assert(digit(tiers - 1) == digit_of(width, tiers - 1, value));
    if tiers == 1 {
        assert(positional(digit, width, 0) == 0);
        lemma_fundamental_div_mod(value, w);
        assert(digit(0) * w == w * (value / w)) by (nonlinear_arith)
            requires
                digit(0) == value / w,
        ;
    } else {
        lemma_value_rebuilt(digit, width, steps, tiers - 1, value);
        let s = steps(tiers - 1);
        let left = value % width(tiers - 2);
        assert(width(tiers - 2) == s * w);
        assert(s > 0) by (nonlinear_arith)
            requires
                s * w > 0,
                w > 0,
        ;
        assert(left % w == value % w) by {
            lemma_mod_mod(value, w, s);
            assert(w * s == s * w) by (nonlinear_arith);
        }
        lemma_fundamental_div_mod(left, w);
        assert(digit(tiers - 1) * w == w * (left / w)) by (nonlinear_arith)
            requires
                digit(tiers - 1) == left / w,
        ;
    }
}

} // verus!
