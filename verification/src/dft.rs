//! What the transform computes where the arithmetic is exact: the discrete
//! Fourier transform.
//!
//! The transform of [`crate::fft`] leaves the arithmetic to its caller. This
//! module states the laws of exact arithmetic on samples, defines the
//! discrete Fourier transform by its sums, and proves that a transform whose
//! butterfly follows those laws is that transform. Arithmetic that rounds
//! does not follow the laws, and its transform comes only near.

use vstd::prelude::*;
use vstd::arithmetic::power2::is_pow2;
use crate::fft::{
    combines, evens, is_transform, lemma_transform_halves, lemma_transform_of_one, odds,
};

verus! {

/// Arithmetic on samples: a zero, a sum, a negation, and the product of a
/// sample with the root of unity `e^(-2 pi i k / n)`, called a turn by `k`
/// parts of `n`.
#[verifier::reject_recursive_types(T)]
pub struct Arithmetic<T> {
    pub zero: T,
    pub add: spec_fn(T, T) -> T,
    pub neg: spec_fn(T) -> T,
    pub turn: spec_fn(T, int, int) -> T,
}

impl<T> Arithmetic<T> {
    /// The sum of `x` and `y`.
    pub open spec fn sum_of(self, x: T, y: T) -> T {
        (self.add)(x, y)
    }

    /// The negation of `x`.
    pub open spec fn negated(self, x: T) -> T {
        (self.neg)(x)
    }

    /// `x` turned by `k` parts of `n`.
    pub open spec fn turned(self, x: T, k: int, n: int) -> T {
        (self.turn)(x, k, n)
    }

    /// The laws of exact arithmetic: sums may be regrouped and reordered,
    /// and zero adds nothing; a turn goes through sums and leaves zero; two
    /// turns are one turn by the sum of the parts; turns by parts that
    /// differ by a multiple of `n` are the same, and a turn by none is no
    /// turn; a turn by `2 k` parts of `2 n` is a turn by `k` parts of `n`;
    /// and half a turn negates.
    #[verifier::opaque]
    pub open spec fn is_exact(self) -> bool {
        &&& forall|x: T, y: T| #[trigger] self.sum_of(x, y) == self.sum_of(y, x)
        &&& forall|x: T, y: T, z: T| #[trigger]
            self.sum_of(self.sum_of(x, y), z) == self.sum_of(x, self.sum_of(y, z))
        &&& forall|x: T| #[trigger] self.sum_of(self.zero, x) == x
        &&& forall|x: T, y: T, k: int, n: int|
            n > 0 ==> #[trigger] self.turned(self.sum_of(x, y), k, n) == self.sum_of(
                self.turned(x, k, n),
                self.turned(y, k, n),
            )
        &&& forall|k: int, n: int| n > 0 ==> #[trigger] self.turned(self.zero, k, n) == self.zero
        &&& forall|x: T, j: int, k: int, n: int|
            n > 0 ==> #[trigger] self.turned(self.turned(x, j, n), k, n) == self.turned(
                x,
                j + k,
                n,
            )
        &&& forall|x: T, j: int, k: int, n: int|
            n > 0 && (j - k) % n == 0 ==> #[trigger] self.turned(x, j, n) == #[trigger] self.turned(
                x,
                k,
                n,
            )
        &&& forall|x: T, n: int| n > 0 ==> #[trigger] self.turned(x, 0, n) == x
        &&& forall|x: T, k: int, n: int|
            n > 0 ==> #[trigger] self.turned(x, 2 * k, 2 * n) == self.turned(x, k, n)
        &&& forall|x: T, n: int| n > 0 ==> #[trigger] self.turned(x, n, 2 * n) == self.negated(x)
    }

    /// The sum of the items of `s`, added up from the left.
    pub open spec fn total(self, s: Seq<T>) -> T
        decreases s.len(),
    {
        if s.len() == 0 {
            self.zero
        } else {
            self.sum_of(self.total(s.drop_last()), s.last())
        }
    }

    /// The terms of the `k`-th bin of the discrete Fourier transform of
    /// `input`: the `j`-th sample turned by `j k` parts of the length.
    pub open spec fn terms(self, input: Seq<T>, k: int) -> Seq<T> {
        Seq::new(input.len(), |j: int| self.turned(input[j], j * k, input.len() as int))
    }

    /// The `k`-th bin of the discrete Fourier transform of `input`.
    pub open spec fn bin(self, input: Seq<T>, k: int) -> T {
        self.total(self.terms(input, k))
    }

    /// The discrete Fourier transform of `input`, in natural order.
    pub open spec fn dft(self, input: Seq<T>) -> Seq<T> {
        Seq::new(input.len(), |k: int| self.bin(input, k))
    }

    /// Whether `butterfly` computes, for the even part `e` and the odd part
    /// `o`, the sum of `e` and `o` turned by `k` parts of `n`, and the sum
    /// of `e` and the negation of that turn.
    pub open spec fn is_butterfly<F: Fn(T, T, usize, usize) -> (T, T)>(self, butterfly: F) -> bool {
        forall|even: T, odd: T, k: usize, n: usize, out: (T, T)| #[trigger]
            call_ensures(butterfly, (even, odd, k, n), out) ==> out == (
                self.sum_of(even, self.turned(odd, k as int, n as int)),
                self.sum_of(even, self.negated(self.turned(odd, k as int, n as int))),
            )
    }
}

impl<T> Arithmetic<T> {
    /// The laws of sums, one by one.
    proof fn law_sums(self, x: T, y: T, z: T)
        requires
            self.is_exact(),
        ensures
            self.sum_of(x, y) == self.sum_of(y, x),
            self.sum_of(self.sum_of(x, y), z) == self.sum_of(x, self.sum_of(y, z)),
            self.sum_of(self.zero, x) == x,
    {
        reveal(Arithmetic::is_exact);
    }

    /// The laws of turns and sums, one by one.
    proof fn law_turn_of_sum(self, x: T, y: T, k: int, n: int)
        requires
            self.is_exact(),
            n > 0,
        ensures
            self.turned(self.sum_of(x, y), k, n) == self.sum_of(
                self.turned(x, k, n),
                self.turned(y, k, n),
            ),
            self.turned(self.zero, k, n) == self.zero,
    {
        reveal(Arithmetic::is_exact);
    }

    /// The laws of turns, one by one.
    proof fn law_turns(self, x: T, j: int, k: int, n: int)
        requires
            self.is_exact(),
            n > 0,
        ensures
            self.turned(self.turned(x, j, n), k, n) == self.turned(x, j + k, n),
            (j - k) % n == 0 ==> self.turned(x, j, n) == self.turned(x, k, n),
            self.turned(x, 0, n) == x,
            self.turned(x, 2 * k, 2 * n) == self.turned(x, k, n),
            self.turned(x, n, 2 * n) == self.negated(x),
    {
        reveal(Arithmetic::is_exact);
    }

    /// In a sum of two sums, the inner terms may change places.
    proof fn lemma_swap_inner(self, w: T, x: T, y: T, z: T)
        requires
            self.is_exact(),
        ensures
            self.sum_of(self.sum_of(w, x), self.sum_of(y, z)) == self.sum_of(
                self.sum_of(w, y),
                self.sum_of(x, z),
            ),
    {
        let yz = self.sum_of(y, z);
        let xz = self.sum_of(x, z);
        // (w + x) + (y + z) = w + (x + (y + z))
        self.law_sums(w, x, yz);
        // x + (y + z) = (x + y) + z = (y + x) + z = y + (x + z)
        self.law_sums(x, y, z);
        self.law_sums(y, x, z);
        // w + (y + (x + z)) = (w + y) + (x + z)
        self.law_sums(w, y, xz);
    }

    /// The sum of a sequence of even length is the sum of its even
    /// positions plus the sum of its odd positions.
    pub proof fn lemma_total_of_halves(self, s: Seq<T>)
        requires
            self.is_exact(),
            s.len() % 2 == 0,
        ensures
            self.total(s) == self.sum_of(self.total(evens(s)), self.total(odds(s))),
        decreases s.len(),
    {
        if s.len() == 0 {
            assert(evens(s) =~= Seq::<T>::empty());
            assert(odds(s) =~= Seq::<T>::empty());
            self.law_sums(self.zero, self.zero, self.zero);
        } else {
            let front = s.drop_last().drop_last();
            let a = s[s.len() - 2];
            let b = s[s.len() - 1];
            self.lemma_total_of_halves(front);
            assert(evens(s).drop_last() =~= evens(front));
            assert(odds(s).drop_last() =~= odds(front));
            assert(evens(s).last() == a);
            assert(odds(s).last() == b);
            assert(s.drop_last().last() == a);
            let e = self.total(evens(front));
            let o = self.total(odds(front));
            assert(self.total(s.drop_last()) == self.sum_of(self.total(front), a));
            assert(self.total(s) == self.sum_of(self.total(s.drop_last()), b));
            assert(self.total(evens(s)) == self.sum_of(e, a));
            assert(self.total(odds(s)) == self.sum_of(o, b));
            // ((e + o) + a) + b = (e + o) + (a + b) = (e + a) + (o + b)
            self.law_sums(self.sum_of(e, o), a, b);
            self.lemma_swap_inner(e, o, a, b);
        }
    }

    /// Each item of `s` turned by `k` parts of `n`.
    pub open spec fn all_turned(self, s: Seq<T>, k: int, n: int) -> Seq<T> {
        Seq::new(s.len(), |i: int| self.turned(s[i], k, n))
    }

    /// A turn of a sum is the sum of the turned items.
    pub proof fn lemma_turn_of_total(self, s: Seq<T>, k: int, n: int)
        requires
            self.is_exact(),
            n > 0,
        ensures
            self.turned(self.total(s), k, n) == self.total(self.all_turned(s, k, n)),
        decreases s.len(),
    {
        self.law_turn_of_sum(self.zero, self.zero, k, n);
        if s.len() > 0 {
            self.lemma_turn_of_total(s.drop_last(), k, n);
            assert(self.all_turned(s, k, n).drop_last() =~= self.all_turned(s.drop_last(), k, n));
            self.law_turn_of_sum(self.total(s.drop_last()), s.last(), k, n);
        }
    }

    /// A bin of a sequence of even length is the same bin of its even
    /// positions plus the turned same bin of its odd positions.
    pub proof fn lemma_bin_of_halves(self, input: Seq<T>, q: int)
        requires
            self.is_exact(),
            input.len() % 2 == 0,
            input.len() > 0,
        ensures
            self.bin(input, q) == self.sum_of(
                self.bin(evens(input), q),
                self.turned(self.bin(odds(input), q), q, input.len() as int),
            ),
    {
        let n = input.len() as int;
        let h = n / 2;
        let all = self.terms(input, q);
        self.lemma_total_of_halves(all);
        assert forall|m: int| 0 <= m < h implies evens(all)[m] == self.terms(
            evens(input),
            q,
        )[m] by {
            assert((2 * m) * q == 2 * (m * q)) by (nonlinear_arith);
            self.law_turns(input[2 * m], 0, m * q, h);
        }
        assert(evens(all) =~= self.terms(evens(input), q));
        let odd_terms = self.terms(odds(input), q);
        assert forall|m: int| 0 <= m < h implies odds(all)[m] == self.all_turned(
            odd_terms,
            q,
            n,
        )[m] by {
            let x = input[2 * m + 1];
            assert((2 * m + 1) * q == 2 * (m * q) + q) by (nonlinear_arith);
            self.law_turns(x, 0, m * q, h);
            self.law_turns(x, 2 * (m * q), q, n);
        }
        assert(odds(all) =~= self.all_turned(odd_terms, q, n));
        self.lemma_turn_of_total(odd_terms, q, n);
    }

    /// The bins repeat with the length of the input.
    pub proof fn lemma_bin_repeats(self, input: Seq<T>, k: int)
        requires
            self.is_exact(),
        ensures
            self.bin(input, k + input.len()) == self.bin(input, k),
    {
        let n = input.len() as int;
        assert forall|j: int| 0 <= j < n implies self.terms(input, k + n)[j] == self.terms(
            input,
            k,
        )[j] by {
            assert(j * (k + n) - j * k == j * n) by (nonlinear_arith);
            assert((j * n) % n == 0) by (nonlinear_arith)
                requires
                    n > 0,
            ;
            self.law_turns(input[j], j * (k + n), j * k, n);
        }
        assert(self.terms(input, k + n) =~= self.terms(input, k));
    }

    /// One stage of exact butterflies makes the bins of the whole out of the
    /// bins of the halves.
    proof fn lemma_stage<F: Fn(T, T, usize, usize) -> (T, T)>(
        self,
        butterfly: F,
        input: Seq<T>,
        output: Seq<T>,
        i: int,
    )
        requires
            self.is_exact(),
            self.is_butterfly(butterfly),
            input.len() % 2 == 0,
            0 < input.len() <= usize::MAX,
            combines(butterfly, self.dft(evens(input)), self.dft(odds(input)), output),
            0 <= i < input.len(),
        ensures
            output[i] == self.bin(input, i),
    {
        let n = input.len() as int;
        let h = n / 2;
        let k = if i < h {
            i
        } else {
            i - h
        };
        let low = self.dft(evens(input));
        let high = self.dft(odds(input));
        let even = self.bin(evens(input), k);
        let odd = self.bin(odds(input), k);
        assert(low[k] == even);
        assert(high[k] == odd);
        assert(call_ensures(
            butterfly,
            (low[k], high[k], k as usize, output.len() as usize),
            (output[k], output[k + low.len()]),
        ));
        let turn = self.turned(odd, k, n);
        assert(output[k] == self.sum_of(even, turn));
        assert(output[k + h] == self.sum_of(even, self.negated(turn)));
        self.lemma_bin_of_halves(input, i);
        if i >= h {
            self.lemma_bin_repeats(evens(input), k);
            self.lemma_bin_repeats(odds(input), k);
            self.law_turns(odd, k, h, n);
            self.law_turns(turn, 0, 0, h);
        }
    }

    /// The transform by an exact butterfly is the discrete Fourier
    /// transform: each output is the sum of all inputs, the `j`-th turned by
    /// `j k` parts of the length.
    pub proof fn lemma_transform_is_dft<F: Fn(T, T, usize, usize) -> (T, T)>(
        self,
        butterfly: F,
        input: Seq<T>,
        output: Seq<T>,
    )
        requires
            self.is_exact(),
            self.is_butterfly(butterfly),
            is_pow2(input.len() as int),
            input.len() <= usize::MAX,
            is_transform(butterfly, input, output),
        ensures
            output == self.dft(input),
        decreases input.len(),
    {
        let n = input.len() as int;
        assert(n >= 1 && (n > 1 ==> n % 2 == 0 && is_pow2(n / 2))) by {
            reveal(is_pow2);
        }
        if n == 1 {
            lemma_transform_of_one(butterfly, input, output);
            let all = self.terms(input, 0);
            assert(all.drop_last() =~= Seq::<T>::empty());
            assert(self.total(all.drop_last()) == self.zero);
            assert(self.total(all) == self.sum_of(self.zero, all.last()));
            self.law_sums(all.last(), all.last(), all.last());
            assert(0 * 0 == 0);
            self.law_turns(input[0], 0, 0, 1);
            assert(output =~= self.dft(input));
        } else {
            lemma_transform_halves(butterfly, input, output);
            let (low, high) = choose|low: Seq<T>, high: Seq<T>|
                {
                    &&& is_transform(butterfly, evens(input), low)
                    &&& is_transform(butterfly, odds(input), high)
                    &&& #[trigger] combines(butterfly, low, high, output)
                };
            self.lemma_transform_is_dft(butterfly, evens(input), low);
            self.lemma_transform_is_dft(butterfly, odds(input), high);
            assert forall|i: int| 0 <= i < n implies output[i] == self.bin(input, i) by {
                self.lemma_stage(butterfly, input, output, i);
            }
            assert(output =~= self.dft(input));
        }
    }
}

} // verus!
