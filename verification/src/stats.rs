//! Mean, median and variance of a window of samples.

use crate::sorting::{ascending, lemma_ascending, lemma_ascending_of_equal, sorted_copy};
use std::collections::VecDeque;
use vstd::prelude::*;

verus! {

/// The quotient of `a` by a positive `b`, rounded toward zero.
pub open spec fn trunc_div(a: int, b: int) -> int
    recommends
        b > 0,
{
    if a >= 0 {
        a / b
    } else {
        -((-a) / b)
    }
}

/// The sum of the samples.
pub open spec fn sum(s: Seq<i32>) -> int
    decreases s.len(),
{
    if s.len() == 0 {
        0
    } else {
        sum(s.drop_last()) + s.last()
    }
}

/// The sum of the squares of the samples.
pub open spec fn sum_of_squares(s: Seq<i32>) -> int
    decreases s.len(),
{
    if s.len() == 0 {
        0
    } else {
        sum_of_squares(s.drop_last()) + s.last() * s.last()
    }
}

/// The mean of the samples, rounded toward zero.
pub open spec fn mean(s: Seq<i32>) -> int
    recommends
        s.len() > 0,
{
    trunc_div(sum(s), s.len() as int)
}

/// The middle sample in ascending order; for an even count, the mean of the
/// two middle samples, rounded toward zero.
pub open spec fn median(s: Seq<i32>) -> int
    recommends
        s.len() > 0,
{
    let sorted = ascending(s);
    let mid = (s.len() / 2) as int;
    if s.len() % 2 == 0 {
        trunc_div(sorted[mid - 1] + sorted[mid], 2)
    } else {
        sorted[mid] as int
    }
}

/// The population variance of `s` is the fraction of this numerator and
/// [`variance_denominator`]: the mean of the squares less the square of the
/// mean, both brought over the square of the count.
pub open spec fn variance_numerator(s: Seq<i32>) -> int {
    s.len() * sum_of_squares(s) - sum(s) * sum(s)
}

/// The square of the count.
pub open spec fn variance_denominator(s: Seq<i32>) -> int {
    (s.len() * s.len()) as int
}

/// Every sample of `s` has the same value.
pub open spec fn all_equal(s: Seq<i32>) -> bool {
    forall|i: int, j: int| 0 <= i < s.len() && 0 <= j < s.len() ==> s[i] == s[j]
}

/// The sum over the samples of `s` of the square of `count * x - total`.
pub open spec fn squared_offsets(s: Seq<i32>, count: int, total: int) -> int
    decreases s.len(),
{
    if s.len() == 0 {
        0
    } else {
        squared_offsets(s.drop_last(), count, total) + (count * s.last() - total) * (count
            * s.last() - total)
    }
}

/// The sum of the squared deviations of the samples from their mean, times
/// the square of the count: a sample `x` deviates from the mean `sum / n` by
/// `(n * x - sum) / n`.
pub open spec fn squared_deviations(s: Seq<i32>) -> int {
    squared_offsets(s, s.len() as int, sum(s))
}

/// The sum of the squares of the distances of the samples from `centre`.
pub open spec fn sum_of_squares_about(s: Seq<i32>, centre: int) -> int
    decreases s.len(),
{
    if s.len() == 0 {
        0
    } else {
        sum_of_squares_about(s.drop_last(), centre) + (s.last() - centre) * (s.last() - centre)
    }
}

/// A variance as an exact number: `whole + remainder / denominator`.
#[derive(Clone, Copy, Debug, PartialEq, Eq)]
pub struct Variance {
    pub whole: u64,
    pub remainder: u128,
    pub denominator: u128,
}

impl Variance {
    /// The variance is the fraction of this numerator and the denominator.
    pub open spec fn numerator(&self) -> int {
        self.whole * self.denominator + self.remainder
    }

    /// The variance is greater than `threshold`.
    pub open spec fn above(&self, threshold: int) -> bool {
        self.numerator() > threshold * self.denominator
    }

    /// The variance is less than `threshold`.
    pub open spec fn below(&self, threshold: int) -> bool {
        self.numerator() < threshold * self.denominator
    }

    /// Whether the variance is greater than `threshold`.
    pub fn exceeds(&self, threshold: u32) -> (yes: bool)
        ensures
            yes == self.above(threshold as int),
    {
        let whole = self.whole as u128;
        let level = threshold as u128;
        let denominator = self.denominator;
        let remainder = self.remainder;
        if whole > level {
            assert(whole * denominator + remainder > level * denominator <==> denominator > 0
                || remainder > 0) by (nonlinear_arith)
                requires
                    whole > level,
            ;
            denominator > 0 || remainder > 0
        } else if whole == level {
            remainder > 0
        } else {
            let short = level - whole;
            assert(whole * denominator + remainder > level * denominator <==> remainder > short
                * denominator) by (nonlinear_arith)
                requires
                    short == level - whole,
            ;
            match denominator.checked_mul(short) {
                Some(limit) => {
                    assert(limit == short * denominator) by (nonlinear_arith)
                        requires
                            limit == denominator * short,
                    ;
                    remainder > limit
                },
                None => {
                    assert(short * denominator > u128::MAX) by (nonlinear_arith)
                        requires
                            denominator * short > u128::MAX,
                    ;
                    false
                },
            }
        }
    }

    /// Whether the variance is less than `threshold`.
    pub fn is_below(&self, threshold: u32) -> (yes: bool)
        ensures
            yes == self.below(threshold as int),
    {
        let whole = self.whole as u128;
        let level = threshold as u128;
        let denominator = self.denominator;
        let remainder = self.remainder;
        if whole >= level {
            assert(whole * denominator + remainder >= level * denominator) by (nonlinear_arith)
                requires
                    whole >= level,
            ;
            false
        } else {
            let short = level - whole;
            assert(whole * denominator + remainder < level * denominator <==> remainder < short
                * denominator) by (nonlinear_arith)
                requires
                    short == level - whole,
            ;
            match denominator.checked_mul(short) {
                Some(limit) => {
                    assert(limit == short * denominator) by (nonlinear_arith)
                        requires
                            limit == denominator * short,
                    ;
                    remainder < limit
                },
                None => {
                    assert(short * denominator > u128::MAX) by (nonlinear_arith)
                        requires
                            denominator * short > u128::MAX,
                    ;
                    true
                },
            }
        }
    }
}

/// A sum of `n` samples lies between `n` times the least and `n` times the
/// greatest value of a sample.
pub proof fn lemma_sum_bounds(s: Seq<i32>)
    ensures
        s.len() * i32::MIN <= sum(s) <= s.len() * i32::MAX,
    decreases s.len(),
{
    if s.len() > 0 {
        lemma_sum_bounds(s.drop_last());
    }
}

/// The mean of samples is itself the value of a sample.
pub proof fn lemma_mean_bounds(s: Seq<i32>)
    requires
        s.len() > 0,
    ensures
        i32::MIN <= mean(s) <= i32::MAX,
{
    lemma_sum_bounds(s);
    let n = s.len() as int;
    let total = sum(s);
    if total >= 0 {
        assert(total / n <= i32::MAX) by (nonlinear_arith)
            requires
                0 <= total <= n * i32::MAX,
                n > 0,
        ;
        assert(total / n >= 0) by (nonlinear_arith)
            requires
                0 <= total,
                n > 0,
        ;
    } else {
        let neg = -total;
        assert(0 <= neg / n <= 0x8000_0000) by (nonlinear_arith)
            requires
                0 <= neg <= n * 0x8000_0000,
                n > 0,
        ;
    }
}

proof fn lemma_squared_offsets_expand(s: Seq<i32>, count: int, total: int)
    ensures
        squared_offsets(s, count, total) == count * count * sum_of_squares(s) - 2 * count * total
            * sum(s) + s.len() * total * total,
    decreases s.len(),
{
    if s.len() > 0 {
        let rest = s.drop_last();
        let x = s.last() as int;
        lemma_squared_offsets_expand(rest, count, total);
        let q = sum_of_squares(rest);
        let t = sum(rest);
        let k = rest.len() as int;
        assert(count * count * q - 2 * count * total * t + k * total * total + (count * x - total)
            * (count * x - total) == count * count * (q + x * x) - 2 * count * total * (t + x) + (k
            + 1) * total * total) by (nonlinear_arith);
    }
}

proof fn lemma_squared_offsets_sign(s: Seq<i32>, count: int, total: int)
    ensures
        squared_offsets(s, count, total) >= 0,
        squared_offsets(s, count, total) == 0 <==> forall|i: int|
            0 <= i < s.len() ==> count * #[trigger] s[i] == total,
    decreases s.len(),
{
    if s.len() > 0 {
        let rest = s.drop_last();
        let d = count * s.last() - total;
        lemma_squared_offsets_sign(rest, count, total);
        assert(d * d >= 0 && (d * d == 0 <==> d == 0)) by (nonlinear_arith);
        if squared_offsets(s, count, total) == 0 {
            assert forall|i: int| 0 <= i < s.len() implies count * #[trigger] s[i] == total by {
                if i < rest.len() {
                    assert(rest[i] == s[i]);
                }
            }
        }
        if forall|i: int| 0 <= i < s.len() ==> count * #[trigger] s[i] == total {
            assert forall|i: int| 0 <= i < rest.len() implies count * #[trigger] rest[i]
                == total by {
                assert(rest[i] == s[i]);
            }
            assert(count * s[s.len() - 1] == total);
        }
    }
}

/// The sum of equal samples is the count times their value.
pub proof fn lemma_sum_of_equal(s: Seq<i32>)
    requires
        s.len() > 0,
        all_equal(s),
    ensures
        sum(s) == s.len() * s[0],
    decreases s.len(),
{
    let rest = s.drop_last();
    if rest.len() > 0 {
        assert(all_equal(rest)) by {
            assert forall|i: int, j: int|
                0 <= i < rest.len() && 0 <= j < rest.len() implies rest[i] == rest[j] by {
                assert(rest[i] == s[i] && rest[j] == s[j]);
            }
        }
        lemma_sum_of_equal(rest);
        assert(rest[0] == s[0]);
        assert(s.last() == s[0]);
        assert(rest.len() * s[0] + s[0] == s.len() * s[0]) by (nonlinear_arith)
            requires
                s.len() == rest.len() + 1,
        ;
    } else {
        assert(sum(rest) == 0);
        assert(s.last() == s[0]);
        assert(s.len() * s[0] == s[0]) by (nonlinear_arith)
            requires
                s.len() == 1,
        ;
    }
}

/// The mean of equal samples is their value.
pub proof fn lemma_mean_of_equal(s: Seq<i32>)
    requires
        s.len() > 0,
        all_equal(s),
    ensures
        mean(s) == s[0],
{
    let n = s.len() as int;
    let v = s[0] as int;
    lemma_sum_of_equal(s);
    if v >= 0 {
        assert(n * v >= 0 && (n * v) / n == v) by (nonlinear_arith)
            requires
                n > 0,
                v >= 0,
        ;
    } else {
        assert(n * v < 0 && (-(n * v)) / n == -v) by (nonlinear_arith)
            requires
                n > 0,
                v < 0,
        ;
    }
}

/// The median of equal samples is their value.
pub proof fn lemma_median_of_equal(s: Seq<i32>)
    requires
        s.len() > 0,
        all_equal(s),
    ensures
        median(s) == s[0],
{
    lemma_ascending_of_equal(s);
}

/// The variance is the mean of the squared deviations from the mean: the
/// numerator, times the count, is the sum of the squared deviations times
/// the square of the count.
pub proof fn lemma_variance_is_mean_squared_deviation(s: Seq<i32>)
    ensures
        s.len() * variance_numerator(s) == squared_deviations(s),
{
    let n = s.len() as int;
    let q = sum_of_squares(s);
    let t = sum(s);
    lemma_squared_offsets_expand(s, n, t);
    assert(n * (n * q - t * t) == n * n * q - 2 * n * t * t + n * t * t) by (nonlinear_arith);
}

/// The variance of a window that is not empty is never negative, and it is
/// zero exactly when all the samples are equal.
pub proof fn lemma_variance_sign(s: Seq<i32>)
    requires
        s.len() > 0,
    ensures
        variance_denominator(s) > 0,
        variance_numerator(s) >= 0,
        variance_numerator(s) == 0 <==> all_equal(s),
{
    let n = s.len() as int;
    let t = sum(s);
    let v = variance_numerator(s);
    lemma_variance_is_mean_squared_deviation(s);
    lemma_squared_offsets_sign(s, n, t);
    assert(n * n > 0) by (nonlinear_arith)
        requires
            n > 0,
    ;
    assert(v >= 0 && (v == 0 <==> n * v == 0)) by (nonlinear_arith)
        requires
            n > 0,
            n * v >= 0,
    ;
    if v == 0 {
        assert forall|i: int, j: int| 0 <= i < s.len() && 0 <= j < s.len() implies s[i]
            == s[j] by {
            let a = s[i] as int;
            let b = s[j] as int;
            assert(a == b) by (nonlinear_arith)
                requires
                    n > 0,
                    n * a == n * b,
            ;
        }
    }
    if all_equal(s) {
        lemma_sum_of_equal(s);
        assert forall|i: int| 0 <= i < s.len() implies n * #[trigger] s[i] == t by {
            assert(s[i] == s[0]);
        }
    }
}

/// The sum of the window's samples.
fn total_of(buffer: &VecDeque<i32>) -> (total: i128)
    ensures
        total == sum(buffer@),
{
    let mut total: i128 = 0;
    let mut i: usize = 0;
    while i < buffer.len()
        invariant
            i <= buffer@.len(),
            total == sum(buffer@.take(i as int)),
        decreases buffer@.len() - i,
    {
        proof {
            lemma_sum_bounds(buffer@.take(i as int));
            assert(buffer@.take(i + 1).drop_last() == buffer@.take(i as int));
        }
        total = total + buffer[i] as i128;
        i += 1;
    }
    assert(buffer@.take(i as int) == buffer@);
    total
}

/// The mean of the window's samples, rounded toward zero. The sum is taken
/// in 128 bits, so it does not overflow.
pub fn calculate_average(buffer: &VecDeque<i32>) -> (average: i32)
    requires
        buffer@.len() > 0,
    ensures
        average == mean(buffer@),
{
    let total = total_of(buffer);
    proof {
        lemma_mean_bounds(buffer@);
    }
    (total / (buffer.len() as i128)) as i32
}

/// Squared distances from `centre` open up into squares, a sum and a count.
proof fn lemma_sum_of_squares_about(s: Seq<i32>, centre: int)
    ensures
        sum_of_squares_about(s, centre) == sum_of_squares(s) - 2 * centre * sum(s) + s.len()
            * centre * centre,
    decreases s.len(),
{
    if s.len() > 0 {
        let rest = s.drop_last();
        let x = s.last() as int;
        lemma_sum_of_squares_about(rest, centre);
        let q = sum_of_squares(rest);
        let t = sum(rest);
        let k = rest.len() as int;
        assert(q - 2 * centre * t + k * centre * centre + (x - centre) * (x - centre) == (q + x
            * x) - 2 * centre * (t + x) + (k + 1) * centre * centre) by (nonlinear_arith);
    }
}

/// A sum of `n` squared distances between samples lies between zero and `n`
/// times the greatest such square.
proof fn lemma_sum_of_squares_about_bounds(s: Seq<i32>, centre: int)
    requires
        i32::MIN <= centre <= i32::MAX,
    ensures
        0 <= sum_of_squares_about(s, centre) <= s.len() * 0xFFFF_FFFE_0000_0001,
    decreases s.len(),
{
    if s.len() > 0 {
        lemma_sum_of_squares_about_bounds(s.drop_last(), centre);
        let d = s.last() - centre;
        assert(0 <= d * d <= 0xFFFF_FFFE_0000_0001) by (nonlinear_arith)
            requires
                -0xFFFF_FFFF <= d <= 0xFFFF_FFFF,
        ;
    }
}

/// The variance does not change when every sample is moved by `centre`.
proof fn lemma_variance_about(s: Seq<i32>, centre: int)
    ensures
        variance_numerator(s) == s.len() * sum_of_squares_about(s, centre) - (sum(s) - s.len()
            * centre) * (sum(s) - s.len() * centre),
{
    let n = s.len() as int;
    let q = sum_of_squares(s);
    let t = sum(s);
    lemma_sum_of_squares_about(s, centre);
    assert(n * q - t * t == n * (q - 2 * centre * t + n * centre * centre) - (t - n * centre) * (t
        - n * centre)) by (nonlinear_arith);
}

/// The population variance of the window's samples, as an exact number. It
/// is zero when all the samples are equal and above zero otherwise. The
/// squares are taken of the distances from the mean, so that they fit in
/// 128 bits however long the window.
pub fn calculate_variance(buffer: &VecDeque<i32>) -> (variance: Variance)
    requires
        buffer@.len() > 0,
    ensures
        variance.numerator() == variance_numerator(buffer@),
        variance.denominator == variance_denominator(buffer@),
        variance.remainder < variance.denominator,
        variance.numerator() == 0 <==> all_equal(buffer@),
{
    let count = buffer.len() as i128;
    let total = total_of(buffer);
    proof {
        lemma_sum_bounds(buffer@);
        lemma_mean_bounds(buffer@);
    }
    let centre = total / count;
    assert(-0x8000_0000_0000_0000_0000_0000 <= count * centre <= 0x8000_0000_0000_0000_0000_0000)
        by (nonlinear_arith)
        requires
            0 < count <= 0xFFFF_FFFF_FFFF_FFFF,
            -0x8000_0000 <= centre <= 0x7FFF_FFFF,
    ;
    assert(-0x8000_0000_0000_0000_0000_0000 <= total <= 0x8000_0000_0000_0000_0000_0000)
        by (nonlinear_arith)
        requires
            0 < count <= 0xFFFF_FFFF_FFFF_FFFF,
            count * (-0x8000_0000) <= total <= count * 0x7FFF_FFFF,
    ;
    let offset = total - count * centre;
    assert(-count < offset < count) by (nonlinear_arith)
        requires
            count > 0,
            centre == trunc_div(total as int, count as int),
            offset == total - count * centre,
    ;
    let mut squares: u128 = 0;
    let mut i: usize = 0;
    while i < buffer.len()
        invariant
            i <= buffer@.len(),
            i32::MIN <= centre <= i32::MAX,
            squares == sum_of_squares_about(buffer@.take(i as int), centre as int),
        decreases buffer@.len() - i,
    {
        let d = buffer[i] as i128 - centre;
        proof {
            lemma_sum_of_squares_about_bounds(buffer@.take(i as int), centre as int);
            assert(buffer@.take(i + 1).drop_last() == buffer@.take(i as int));
            assert(0 <= d * d <= 0xFFFF_FFFE_0000_0001) by (nonlinear_arith)
                requires
                    -0xFFFF_FFFF <= d <= 0xFFFF_FFFF,
            ;
        }
        squares = squares + (d * d) as u128;
        i += 1;
    }
    assert(buffer@.take(i as int) == buffer@);
    let n = buffer.len() as u128;
    let lean: u128 = if offset < 0 {
        (-offset) as u128
    } else {
        offset as u128
    };
    let quotient = squares / n;
    let rest = squares % n;
    proof {
        lemma_sum_of_squares_about_bounds(buffer@, centre as int);
        lemma_variance_about(buffer@, centre as int);
        lemma_variance_sign(buffer@);
        assert(squares == n * quotient + rest && 0 <= rest < n) by (nonlinear_arith)
            requires
                n > 0,
                quotient == squares / n,
                rest == squares % n,
        ;
        assert(quotient <= 0xFFFF_FFFE_0000_0001) by (nonlinear_arith)
            requires
                n > 0,
                squares == n * quotient + rest,
                0 <= rest,
                squares <= n * 0xFFFF_FFFE_0000_0001,
        ;
        assert(n * rest < n * n <= 0xFFFF_FFFF_FFFF_FFFE_0000_0000_0000_0001) by (nonlinear_arith)
            requires
                0 <= rest < n <= 0xFFFF_FFFF_FFFF_FFFF,
        ;
        assert(lean * lean < n * n && lean * lean == offset * offset) by (nonlinear_arith)
            requires
                0 <= lean < n,
                lean == offset || lean == -offset,
        ;
    }
    let spread = n * rest;
    let square = lean * lean;
    let denominator = n * n;
    proof {
        let v = variance_numerator(buffer@);
        assert(v == denominator * quotient + spread - square) by (nonlinear_arith)
            requires
                v == n * squares - offset * offset,
                squares == n * quotient + rest,
                spread == n * rest,
                square == offset * offset,
                denominator == n * n,
        ;
        if spread < square {
            assert(quotient >= 1) by (nonlinear_arith)
                requires
                    denominator * quotient + spread - square >= 0,
                    spread < square,
                    denominator > 0,
                    quotient >= 0,
            ;
            assert((quotient - 1) * denominator + (denominator - (square - spread)) == denominator
                * quotient + spread - square) by (nonlinear_arith);
        } else {
            assert(quotient * denominator + (spread - square) == denominator * quotient + spread
                - square) by (nonlinear_arith);
        }
    }
    if spread >= square {
        Variance { whole: quotient as u64, remainder: spread - square, denominator }
    } else {
        Variance {
            whole: (quotient - 1) as u64,
            remainder: denominator - (square - spread),
            denominator,
        }
    }
}

/// The median of the window's samples: the middle one in ascending order,
/// or the mean of the two middle ones, rounded toward zero.
pub fn calculate_median(buffer: &VecDeque<i32>) -> (middle: i32)
    requires
        buffer@.len() > 0,
    ensures
        middle == median(buffer@),
{
    let sorted = sorted_copy(buffer);
    proof {
        lemma_ascending(buffer@);
    }
    let mid = sorted.len() / 2;
    if sorted.len() % 2 == 0 {
        let pair: i64 = sorted[mid - 1] as i64 + sorted[mid] as i64;
        (pair / 2) as i32
    } else {
        sorted[mid]
    }
}

} // verus!
