//! Small numeric helpers: clamping and bisection over a predicate.

use std::ops::{Add, Mul, Sub};
use vstd::prelude::*;
use vstd::std_specs::ops::{AddSpec, MulSpec, SubSpec};
use vstd::std_specs::cmp::PartialOrdIs;
use vstd::std_specs::cmp::PartialOrdSpec;

verus! {

/// The value that clamping `val` into `[low, high]` yields, for a type whose
/// comparison follows its specification. `low` wins when both bounds are
/// violated, and no order between `low` and `high` is assumed.
pub open spec fn clamped<T: PartialOrd>(val: T, low: T, high: T) -> T {
    if val.is_lt(&low) {
        low
    } else if val.is_gt(&high) {
        high
    } else {
        val
    }
}

/// What `clamp_t` returns, given what the two comparisons it may make
/// answered: `below` is the answer to `val < low`, and `above`, asked only
/// where `below` is `false`, the answer to `val > high`.
pub open spec fn clamped_by<T>(val: T, low: T, high: T, below: bool, above: bool) -> T {
    if below {
        low
    } else if above {
        high
    } else {
        val
    }
}

/// Clamp the given value `val` to lie between the values `low` and `high`.
///
/// The result is `low` where `val < low`, else `high` where `val > high`, else
/// `val`, by the comparisons of `T` itself, whatever they are.
pub fn clamp_t<T>(val: T, low: T, high: T) -> (r: T) where T: PartialOrd
    ensures
        exists|below: bool, above: bool|
            {
                &&& #[trigger] clamped_by(val, low, high, below, above) == r
                &&& call_ensures(T::lt, (&val, &low), below)
                &&& !below ==> call_ensures(T::gt, (&val, &high), above)
            },
        T::obeys_partial_cmp_spec() ==> r == clamped(val, low, high),
{
    let r: T;
    let below = val < low;
    if below {
        r = low;
        assert(clamped_by(val, low, high, true, false) == r);
    } else {
        let above = val > high;
        if above {
            r = high;
        } else {
            r = val;
        }
        assert(clamped_by(val, low, high, false, above) == r);
    }
    r
}

/// Clamping on machine integers, written out.
pub open spec fn clamped_int(val: int, low: int, high: int) -> int {
    if val < low {
        low
    } else if val > high {
        high
    } else {
        val
    }
}

/// `first` separates a run in which `pred` answered `true` just before it
/// from one in which it answered `false` at it, inside `0..size`.
pub open spec fn is_bisection_point<P: Fn(i32) -> bool>(pred: P, size: i32, first: i32) -> bool {
    &&& 0 <= first
    &&& first <= size || (size < 0 && first == 0)
    &&& first > 0 ==> call_ensures(pred, ((first - 1) as i32,), true)
    &&& first < size ==> call_ensures(pred, (first,), false)
}

/// The interval index that bisection reports once it has stopped at `first`.
pub open spec fn interval_of(size: i32, first: i32) -> int {
    clamped_int(first - 1, 0, size - 2)
}

/// Bisects `0..size` with `pred` and returns the index of the interval that
/// the boundary falls into, clamped to `0..=size - 2`.
///
/// For a predicate that is `true` on a prefix of `0..size` and `false` on the
/// rest, the bisection point is the length of that prefix (see
/// [`lemma_bisection_point_unique`]).
pub fn find_interval<P>(size: i32, pred: P) -> (r: i32) where P: Fn(i32) -> bool
    requires
        size >= i32::MIN + 2,
        forall|i: i32| 0 <= i < size ==> call_requires(pred, (i,)),
    ensures
        exists|first: i32| #[trigger]
            is_bisection_point(pred, size, first) && r == interval_of(size, first),
{
    let mut first: i32 = 0;
    let mut len: i32 = size;
    while len > 0
        invariant
            0 <= first,
            len >= 0 ==> first + len <= size,
            len < 0 ==> len == size && first == 0,
            first > 0 ==> exists|prev: i32| prev + 1 == first && call_ensures(pred, (prev,), true),
            len >= 0 && first + len < size ==> exists|next: i32|
                next == first + len && call_ensures(pred, (next,), false),
            forall|i: i32| 0 <= i < size ==> call_requires(pred, (i,)),
        decreases len,
    {
        let half: i32 = len / 2;
        let middle: i32 = first + half;
        // bisect range based on value of `pred` at `middle`
        if pred(middle) {
            first = middle + 1;
            len -= half + 1;
        } else {
            len = half;
        }
    }
    proof {
        assert(is_bisection_point(pred, size, first)) by {
            if first > 0 {
                let prev = choose|prev: i32| prev + 1 == first && call_ensures(pred, (prev,), true);
                assert(prev == (first - 1) as i32);
            }
        }
    }
    let r: i32 = clamp_t(first - 1, 0, size - 2);
    r
}

/// For a deterministic predicate that never turns `true` again after it was
/// `false`, the bisection point is unique: it is the one index at which the
/// predicate flips.
pub proof fn lemma_bisection_point_unique<P: Fn(i32) -> bool>(
    pred: P,
    truth: spec_fn(i32) -> bool,
    size: i32,
    a: i32,
    b: i32,
)
    requires
        forall|i: i32, out: bool| call_ensures(pred, (i,), out) ==> out == truth(i),
        forall|i: i32, j: i32| #![trigger truth(i), truth(j)] 0 <= i <= j < size && truth(j) ==> truth(i),
        is_bisection_point(pred, size, a),
        is_bisection_point(pred, size, b),
    ensures
        a == b,
{
    if a < b {
        assert(call_ensures(pred, (a,), false));
        assert(call_ensures(pred, ((b - 1) as i32,), true));
        assert(truth((b - 1) as i32));
        assert(truth(a));
    } else if b < a {
        assert(call_ensures(pred, (b,), false));
        assert(call_ensures(pred, ((a - 1) as i32,), true));
        assert(truth((a - 1) as i32));
        assert(truth(b));
    }
}


/// Interpolate linearly between two provided values: `a * (one - t) + b * t`,
/// where `one` is the unit of the parameter's type.
pub fn lerp<S, T>(one: S, t: S, a: T, b: T) -> (r: T) where
    S: Sub<S, Output = S>,
    S: Copy,
    T: Add<T, Output = T>,
    T: Mul<S, Output = T>,

    requires
        one.sub_req(t),
        forall|s: S| call_ensures(S::sub, (one, t), s) ==> a.mul_req(s),
        b.mul_req(t),
        forall|s: S, x: T, y: T|
            call_ensures(S::sub, (one, t), s) && call_ensures(T::mul, (a, s), x) && call_ensures(
                T::mul,
                (b, t),
                y,
            ) ==> x.add_req(y),
    ensures
        S::obeys_sub_spec() && <T as MulSpec<S>>::obeys_mul_spec() && T::obeys_add_spec() ==> r
            == a.mul_spec(one.sub_spec(t)).add_spec(b.mul_spec(t)),
{
    a * (one - t) + b * t
}

} // verus!
