//! The spectral transform: a radix-2 decimation-in-time transform over an
//! arbitrary sample type.
//!
//! The transform fixes which samples meet in which butterfly and where the
//! results go. The arithmetic of a butterfly is the caller's: it is handed
//! in as a function of the two samples, the index of the butterfly and the
//! size of its stage. What the transform computes with exact arithmetic is
//! shown in [`crate::dft`].

use vstd::prelude::*;
use vstd::arithmetic::power2::is_pow2;
use crate::error::AnalysisError;

verus! {

/// The least power of two that is at least `n`.
pub open spec fn next_power_of_two(n: nat) -> nat
    decreases n,
{
    if n <= 1 {
        1
    } else {
        2 * next_power_of_two((n + 1) / 2)
    }
}

/// Between a power of two and the next one there is no other.
pub proof fn lemma_pow2_gap(a: int, b: int)
    requires
        is_pow2(a),
        is_pow2(b),
        a < b,
    ensures
        2 * a <= b,
    decreases a,
{
    reveal(is_pow2);
    if a > 1 {
        lemma_pow2_gap(a / 2, b / 2);
    }
}

/// `next_power_of_two(n)` is a power of two, is at least `n`, is less than
/// twice `n` unless `n` is zero, and no smaller power of two is at least `n`.
pub proof fn lemma_next_power_of_two(n: nat)
    ensures
        is_pow2(next_power_of_two(n) as int),
        n <= next_power_of_two(n),
        n >= 1 ==> next_power_of_two(n) < 2 * n,
        forall|p: int| is_pow2(p) && n <= p ==> next_power_of_two(n) <= p,
    decreases n,
{
    reveal(is_pow2);
    if n > 1 {
        let h = (n + 1) / 2;
        lemma_next_power_of_two(h);
        assert forall|p: int| is_pow2(p) && n <= p implies next_power_of_two(n) <= p by {
            assert(is_pow2(p / 2));
            assert(h <= p / 2);
        }
    }
}

/// A power of two is its own padded length.
pub proof fn lemma_next_power_of_two_fixed(n: nat)
    requires
        is_pow2(n as int),
    ensures
        next_power_of_two(n) == n,
{
    lemma_next_power_of_two(n);
}

/// Computes the length that a sequence of `n` samples is padded to.
pub fn padded_len(n: usize) -> (p: usize)
    requires
        next_power_of_two(n as nat) <= usize::MAX,
    ensures
        p == next_power_of_two(n as nat),
{
    let mut p: usize = 1;
    proof {
        reveal(is_pow2);
        lemma_next_power_of_two(n as nat);
    }
    while p < n
        invariant
            is_pow2(p as int),
            is_pow2(next_power_of_two(n as nat) as int),
            p <= next_power_of_two(n as nat),
            n <= next_power_of_two(n as nat) <= usize::MAX,
            forall|q: int| is_pow2(q) && n <= q ==> next_power_of_two(n as nat) <= q,
        decreases next_power_of_two(n as nat) - p,
    {
        proof {
            lemma_pow2_gap(p as int, next_power_of_two(n as nat) as int);
            reveal(is_pow2);
        }
        p = p * 2;
    }
    p
}

/// The samples at even positions, in order.
pub open spec fn evens<T>(s: Seq<T>) -> Seq<T> {
    Seq::new(((s.len() + 1) / 2) as nat, |i: int| s[2 * i])
}

/// The samples at odd positions, in order.
pub open spec fn odds<T>(s: Seq<T>) -> Seq<T> {
    Seq::new(s.len() / 2, |i: int| s[2 * i + 1])
}

/// `input` followed by as many copies of `zero` as bring it to `len`.
pub open spec fn padded<T>(input: Seq<T>, zero: T, len: nat) -> Seq<T>
    recommends
        input.len() <= len,
{
    input + Seq::new((len - input.len()) as nat, |i: int| zero)
}

/// Whether `output` is what one stage of butterflies makes of the two
/// half-size transforms `low` and `high`: for each `k`, the pair of outputs
/// at `k` and `k + low.len()` is a result of `butterfly` on `low[k]`,
/// `high[k]`, `k` and the size of the stage.
pub open spec fn combines<T, F: Fn(T, T, usize, usize) -> (T, T)>(
    butterfly: F,
    low: Seq<T>,
    high: Seq<T>,
    output: Seq<T>,
) -> bool {
    &&& high.len() == low.len()
    &&& output.len() == 2 * low.len()
    &&& forall|k: int|
        0 <= k < low.len() ==> call_ensures(
            butterfly,
            (#[trigger] low[k], high[k], k as usize, output.len() as usize),
            (output[k], output[k + low.len()]),
        )
}

/// Whether `output` is a transform of `input` by `butterfly`: a single
/// sample is its own transform, and a longer input is split into its even
/// and odd positions, whose transforms are combined by one stage of
/// butterflies.
#[verifier::opaque]
pub open spec fn is_transform<T, F: Fn(T, T, usize, usize) -> (T, T)>(
    butterfly: F,
    input: Seq<T>,
    output: Seq<T>,
) -> bool
    decreases input.len(),
{
    if input.len() <= 1 {
        output == input
    } else {
        &&& input.len() % 2 == 0
        &&& output.len() == input.len()
        &&& exists|low: Seq<T>, high: Seq<T>|
            {
                &&& is_transform(butterfly, evens(input), low)
                &&& is_transform(butterfly, odds(input), high)
                &&& #[trigger] combines(butterfly, low, high, output)
            }
    }
}

/// A single sample, or none, is its own transform and has no other.
pub proof fn lemma_transform_of_one<T, F: Fn(T, T, usize, usize) -> (T, T)>(
    butterfly: F,
    input: Seq<T>,
    output: Seq<T>,
)
    requires
        input.len() <= 1,
    ensures
        is_transform(butterfly, input, output) <==> output == input,
{
    reveal(is_transform);
}

/// Two half-size transforms and one stage of butterflies make a transform.
pub proof fn lemma_transform_of_halves<T, F: Fn(T, T, usize, usize) -> (T, T)>(
    butterfly: F,
    input: Seq<T>,
    low: Seq<T>,
    high: Seq<T>,
    output: Seq<T>,
)
    requires
        input.len() > 1,
        input.len() % 2 == 0,
        is_transform(butterfly, evens(input), low),
        is_transform(butterfly, odds(input), high),
        low.len() == input.len() / 2,
        combines(butterfly, low, high, output),
    ensures
        is_transform(butterfly, input, output),
{
    reveal(is_transform);
}

/// A transform of more than one sample is made of the transforms of its
/// even and odd positions by one stage of butterflies.
pub proof fn lemma_transform_halves<T, F: Fn(T, T, usize, usize) -> (T, T)>(
    butterfly: F,
    input: Seq<T>,
    output: Seq<T>,
)
    requires
        is_transform(butterfly, input, output),
        input.len() > 1,
    ensures
        input.len() % 2 == 0,
        exists|low: Seq<T>, high: Seq<T>|
            {
                &&& is_transform(butterfly, evens(input), low)
                &&& is_transform(butterfly, odds(input), high)
                &&& #[trigger] combines(butterfly, low, high, output)
            },
{
    reveal(is_transform);
}

/// Whether `butterfly` may be called for every butterfly of a transform
/// of `len` samples: on any two samples, with a stage size `n` of at most
/// `len` and an index `k` in the first half of the stage.
pub open spec fn accepts_stages<T, F: Fn(T, T, usize, usize) -> (T, T)>(
    butterfly: F,
    len: nat,
) -> bool {
    forall|even: T, odd: T, k: usize, n: usize|
        2 * k < n <= len ==> #[trigger] call_requires(butterfly, (even, odd, k, n))
}

/// Whether `butterfly` has at most one result on each input.
pub open spec fn is_deterministic<T, F: Fn(T, T, usize, usize) -> (T, T)>(butterfly: F) -> bool {
    forall|args: (T, T, usize, usize), first: (T, T), second: (T, T)|
        #[trigger] call_ensures(butterfly, args, first) && #[trigger] call_ensures(
            butterfly,
            args,
            second,
        ) ==> first == second
}

/// A transform has the length of its input.
pub proof fn lemma_transform_len<T, F: Fn(T, T, usize, usize) -> (T, T)>(
    butterfly: F,
    input: Seq<T>,
    output: Seq<T>,
)
    requires
        is_transform(butterfly, input, output),
    ensures
        output.len() == input.len(),
{
    reveal(is_transform);
}

/// With a butterfly that has one result on each input, an input has one
/// transform.
pub proof fn lemma_transform_unique<T, F: Fn(T, T, usize, usize) -> (T, T)>(
    butterfly: F,
    input: Seq<T>,
    first: Seq<T>,
    second: Seq<T>,
)
    requires
        is_deterministic(butterfly),
        is_transform(butterfly, input, first),
        is_transform(butterfly, input, second),
    ensures
        first == second,
    decreases input.len(),
{
    reveal(is_transform);
    if input.len() > 1 {
        let (low1, high1) = choose|low: Seq<T>, high: Seq<T>|
            {
                &&& is_transform(butterfly, evens(input), low)
                &&& is_transform(butterfly, odds(input), high)
                &&& #[trigger] combines(butterfly, low, high, first)
            };
        let (low2, high2) = choose|low: Seq<T>, high: Seq<T>|
            {
                &&& is_transform(butterfly, evens(input), low)
                &&& is_transform(butterfly, odds(input), high)
                &&& #[trigger] combines(butterfly, low, high, second)
            };
        lemma_transform_unique(butterfly, evens(input), low1, low2);
        lemma_transform_unique(butterfly, odds(input), high1, high2);
        let half = low1.len() as int;
        assert forall|i: int| 0 <= i < first.len() implies first[i] == second[i] by {
            let k = if i < half {
                i
            } else {
                i - half
            };
            let args = (low1[k], high1[k], k as usize, first.len() as usize);
            assert(call_ensures(butterfly, args, (first[k], first[k + half])));
            assert(call_ensures(butterfly, args, (second[k], second[k + half])));
        }
        assert(first =~= second);
    }
}

/// The transform of a sequence whose length is a power of two.
fn transform_rec<T: Copy, F: Fn(T, T, usize, usize) -> (T, T)>(
    input: &Vec<T>,
    butterfly: &F,
) -> (output: Vec<T>)
    requires
        is_pow2(input.len() as int),
        accepts_stages(*butterfly, input@.len()),
    ensures
        is_transform(*butterfly, input@, output@),
        output.len() == input.len(),
    decreases input.len(),
{
    let n = input.len();
    if n <= 1 {
        let mut output: Vec<T> = Vec::new();
        if n == 1 {
            output.push(input[0]);
        }
        proof {
            assert(output@ =~= input@);
            lemma_transform_of_one(*butterfly, input@, output@);
        }
        return output;
    }
    proof {
        reveal(is_pow2);
    }
    let half: usize = n / 2;
    let mut even: Vec<T> = Vec::new();
    let mut odd: Vec<T> = Vec::new();
    let mut i: usize = 0;
    while i < half
        invariant
            n == input.len(),
            half == n / 2,
            n % 2 == 0,
            i <= half,
            even.len() == i,
            odd.len() == i,
            forall|j: int| 0 <= j < i ==> even[j] == input[2 * j],
            forall|j: int| 0 <= j < i ==> odd[j] == input[2 * j + 1],
        decreases half - i,
    {
        even.push(input[2 * i]);
        odd.push(input[2 * i + 1]);
        i += 1;
    }
    assert(even@ =~= evens(input@));
    assert(odd@ =~= odds(input@));
    let low = transform_rec(&even, butterfly);
    let high = transform_rec(&odd, butterfly);
    let mut output: Vec<T> = Vec::new();
    let mut back: Vec<T> = Vec::new();
    let mut k: usize = 0;
    while k < half
        invariant
            half == n / 2,
            n % 2 == 0,
            k <= half,
            low.len() == half,
            high.len() == half,
            output.len() == k,
            back.len() == k,
            accepts_stages(*butterfly, n as nat),
            forall|j: int|
                0 <= j < k ==> call_ensures(
                    *butterfly,
                    (#[trigger] low[j], high[j], j as usize, n),
                    (output[j], back[j]),
                ),
        decreases half - k,
    {
        let (sum, difference) = butterfly(low[k], high[k], k, n);
        output.push(sum);
        back.push(difference);
        k += 1;
    }
    let ghost front = output@;
    let ghost rest = back@;
    output.append(&mut back);
    proof {
        assert(output@ =~= front + rest);
        assert forall|j: int| 0 <= j < low@.len() implies call_ensures(
            *butterfly,
            (#[trigger] low@[j], high@[j], j as usize, output@.len() as usize),
            (output@[j], output@[j + low@.len()]),
        ) by {
            assert(output@[j] == front[j]);
            assert(output@[j + half] == rest[j]);
        }
        assert(combines(*butterfly, low@, high@, output@));
        lemma_transform_of_halves(*butterfly, input@, low@, high@, output@);
    }
    output
}

/// Replaces the samples in `buf` by their transform.
///
/// The samples are first padded with `zero` to the next power of two. The
/// transform splits the padded sequence into its even and odd positions,
/// transforms both halves and joins them with one call of `butterfly` for
/// each pair of outputs: `butterfly(even, odd, k, n)` gives, for a stage of
/// `n` outputs, the outputs at `k` and at `k + n / 2`. The result is in
/// natural order.
///
/// An empty `buf` is rejected and left as it is.
pub fn fft<T: Copy, F: Fn(T, T, usize, usize) -> (T, T)>(
    buf: &mut Vec<T>,
    zero: T,
    butterfly: &F,
) -> (result: Result<(), AnalysisError>)
    requires
        next_power_of_two(old(buf)@.len()) <= usize::MAX,
        accepts_stages(*butterfly, next_power_of_two(old(buf)@.len())),
    ensures
        old(buf)@.len() == 0 <==> result == Err::<(), AnalysisError>(AnalysisError::InvalidInput),
        old(buf)@.len() > 0 <==> result is Ok,
        result is Err ==> final(buf)@ == old(buf)@,
        result is Ok ==> final(buf)@.len() == next_power_of_two(old(buf)@.len()),
        result is Ok ==> is_pow2(final(buf)@.len() as int) && old(buf)@.len() <= final(buf)@.len()
            < 2 * old(buf)@.len(),
        result is Ok && is_pow2(old(buf)@.len() as int) ==> final(buf)@.len() == old(buf)@.len(),
        result is Ok ==> is_transform(
            *butterfly,
            padded(old(buf)@, zero, next_power_of_two(old(buf)@.len())),
            final(buf)@,
        ),
{
    let len = buf.len();
    if len == 0 {
        return Err(AnalysisError::InvalidInput);
    }
    let target = padded_len(len);
    proof {
        lemma_next_power_of_two(len as nat);
        if is_pow2(len as int) {
            lemma_next_power_of_two_fixed(len as nat);
        }
    }
    let ghost samples = buf@;
    while buf.len() < target
        invariant
            len <= buf.len() <= target,
            samples.len() == len,
            forall|i: int| 0 <= i < len ==> buf@[i] == samples[i],
            forall|i: int| len <= i < buf.len() ==> buf@[i] == zero,
        decreases target - buf.len(),
    {
        buf.push(zero);
    }
    assert(buf@ =~= padded(samples, zero, target as nat));
    let output = transform_rec(buf, butterfly);
    *buf = output;
    Ok(())
}

} // verus!
