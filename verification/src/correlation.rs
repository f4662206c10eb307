//! Integer side of the offset refinement by cross-correlation.
//!
//! The transform itself works on floating-point samples and is done by the
//! caller. What is decided here is everything around it: how long the
//! correlation and the transform are, how a signal is padded, which sample of
//! the correlation is reported as the peak, and which lag it stands for.
//!
//! Correlation samples reach [`find_peak`] as *levels*: signed integers that
//! are ordered as the samples are, with level `0` standing for the sample
//! `0.0`.

use vstd::arithmetic::power2::{lemma2_to64, lemma_pow2_strictly_increases, lemma_pow2_unfold, pow2};
use vstd::pervasive::runtime_assert;
use vstd::prelude::*;

verus! {

/// `x` is one of 1, 2, 4, 8, ...
pub open spec fn is_power_of_two(x: int) -> bool {
    exists|k: nat| x == #[trigger] pow2(k)
}

/// Two exponents are ordered as their powers of two are.
proof fn lemma_pow2_order(j: nat, k: nat)
    requires
        pow2(j) < pow2(k),
    ensures
        j < k,
{
    if j > k {
        lemma_pow2_strictly_increases(k, j);
    }
}

/// No power of two lies strictly between `pow2(k) / 2` and `pow2(k)`.
proof fn lemma_pow2_gap(p: int, k: nat)
    requires
        is_power_of_two(p),
        p < pow2(k),
    ensures
        k > 0,
        2 * p <= pow2(k),
{
    let j = choose|j: nat| p == #[trigger] pow2(j);
    lemma_pow2_order(j, k);
    lemma_pow2_unfold(k);
    if j < k - 1 {
        lemma_pow2_strictly_increases(j, (k - 1) as nat);
    }
}

/// The smallest power of two that is at least `n`; `1` for `n == 0`.
///
/// `n` may not exceed the largest power of two that a `usize` holds.
pub fn next_power_of_two(n: usize) -> (power: usize)
    requires
        n <= usize::MAX / 2 + 1,
    ensures
        is_power_of_two(power as int),
        power >= n,
        forall|p: int| is_power_of_two(p) && p >= n ==> power <= p,
{
    let mut power: usize = 1;
    let ghost mut k: nat = 0;
    proof {
        lemma2_to64();
    }
    while power < n
        invariant
            n <= usize::MAX / 2 + 1,
            power == pow2(k),
            power >= 1,
            k == 0 || power < 2 * n,
        decreases usize::MAX - power,
    {
        proof {
            lemma_pow2_unfold(k + 1);
            k = k + 1;
        }
        power *= 2;
    }
    proof {
        assert forall|p: int| is_power_of_two(p) && p >= n implies power <= p by {
            if p < power {
                lemma_pow2_gap(p, k);
            }
        }
    }
    power
}

/// Number of lags at which a segment of `segment_len` samples and a
/// reference of `reference_len` samples overlap: `segment_len +
/// reference_len - 1`.
pub fn correlation_len(segment_len: usize, reference_len: usize) -> (len: usize)
    requires
        1 <= segment_len + reference_len <= usize::MAX,
    ensures
        len == segment_len + reference_len - 1,
{
    segment_len + reference_len - 1
}

/// `input` padded to `length` items: the items of `input` in their places,
/// and `zero` in every place behind them.
pub open spec fn zero_padded<T>(input: Seq<T>, length: nat, zero: T) -> Seq<T> {
    Seq::new(
        length,
        |i: int|
            if i < input.len() {
                input[i]
            } else {
                zero
            },
    )
}

/// Padding keeps every item of the input in its place and fills the rest
/// with `zero`: the padded sequence has the length asked for, begins with
/// the input, and holds `zero` from there on.
pub proof fn lemma_zero_padded<T>(input: Seq<T>, length: nat, zero: T)
    requires
        input.len() <= length,
    ensures
        zero_padded(input, length, zero).len() == length,
        zero_padded(input, length, zero).take(input.len() as int) == input,
        forall|i: int| 0 <= i < input.len() ==> zero_padded(input, length, zero)[i] == input[i],
        forall|i: int| input.len() <= i < length ==> zero_padded(input, length, zero)[i] == zero,
{
    assert(zero_padded(input, length, zero).take(input.len() as int) =~= input);
}

/// Copies `input` to the front of a vector of `length` items and fills the
/// rest with `zero`.
///
/// An input longer than `length` is a mistake of the caller's, which the
/// precondition rules out. A caller that nothing holds to the precondition
/// does not get a vector for such an input either: the call ends in a
/// failed assertion before anything is made.
pub fn zero_pad<T: Copy>(input: &[T], length: usize, zero: T) -> (padded: Vec<T>)
    requires
        input@.len() <= length,
    ensures
        padded@ == zero_padded(input@, length as nat, zero),
        padded@.len() == length,
        forall|i: int| 0 <= i < input@.len() ==> padded@[i] == input@[i],
        forall|i: int| input@.len() <= i < length ==> padded@[i] == zero,
{
    runtime_assert(input.len() <= length);
    let mut padded: Vec<T> = Vec::with_capacity(length);
    let mut i: usize = 0;
    while i < length
        invariant
            i <= length,
            input@.len() <= length,
            padded@.len() == i,
            forall|j: int| 0 <= j < i && j < input@.len() ==> padded@[j] == input@[j],
            forall|j: int| input@.len() <= j < i ==> padded@[j] == zero,
        decreases length - i,
    {
        if i < input.len() {
            padded.push(input[i]);
        } else {
            padded.push(zero);
        }
        i += 1;
    }
    proof {
        assert(padded@ =~= zero_padded(input@, length as nat, zero));
    }
    padded
}

/// Where the running maximum of `levels` stands after the item at `index`
/// was seen: it starts at level `0` and moves only to a strictly greater
/// level.
pub open spec fn is_peak(levels: Seq<i32>, index: int, level: int) -> bool {
    &&& forall|j: int| 0 <= j < levels.len() ==> levels[j] <= level
    &&& if level == 0 {
        index == 0
    } else {
        &&& level > 0
        &&& 0 <= index < levels.len()
        &&& levels[index] == level
        &&& forall|j: int| 0 <= j < index ==> levels[j] < level
    }
}

/// Index and level of the correlation peak.
///
/// The peak is the first item with the greatest level, provided that level
/// is positive. Where no level is positive there is no alignment, and the
/// result is index `0` with level `0`.
pub fn find_peak(levels: &[i32]) -> (peak: (usize, i32))
    ensures
        is_peak(levels@, peak.0 as int, peak.1 as int),
{
    let mut max_index: usize = 0;
    let mut max_level: i32 = 0;
    let mut i: usize = 0;
    while i < levels.len()
        invariant
            i <= levels@.len(),
            is_peak(levels@.take(i as int), max_index as int, max_level as int),
        decreases levels@.len() - i,
    {
        if levels[i] > max_level {
            max_level = levels[i];
            max_index = i;
        }
        i += 1;
    }
    proof {
        assert(levels@.take(i as int) =~= levels@);
    }
    (max_index, max_level)
}

/// The lag, in samples, that index `index` of a correlation stands for when
/// the segment has `segment_len` samples: `index - (segment_len - 1)`.
pub fn lag_of_index(index: usize, segment_len: usize) -> (lag: isize)
    requires
        index <= isize::MAX,
        segment_len <= isize::MAX,
        index - segment_len < isize::MAX,
    ensures
        lag == index - (segment_len - 1),
{
    index as isize - (segment_len as isize - 1)
}

} // verus!
