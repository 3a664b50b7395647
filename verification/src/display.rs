//! Bar aggregation: folding the magnitudes of a spectrum into the bars of
//! the chart.
//!
//! A magnitude is the squared modulus of one bin, rounded to a whole
//! number. Groups of neighbouring magnitudes of equal size are averaged
//! into one bar each; what is left over at the end is dropped.

use vstd::prelude::*;
use rayon::iter::IntoParallelIterator;
use rayon::iter::ParallelIterator;
use crate::config::{bar_style_of, text_of, BarStyle, Style, StyleError};

verus! {

/// The test that a rounded magnitude is not negative.
pub open spec fn is_magnitude() -> spec_fn(i64) -> bool {
    |rounded: i64| rounded >= 0
}

/// The magnitudes that count: those that are not negative, in order.
pub open spec fn kept(magnitudes: Seq<i64>) -> Seq<u64> {
    magnitudes.filter(is_magnitude()).map_values(|rounded: i64| rounded as u64)
}

/// `total / count` rounded to the nearest whole number, halves upwards.
pub open spec fn rounded_ratio(total: int, count: int) -> int
    recommends
        total >= 0,
        count > 0,
{
    (2 * total + count) / (2 * count)
}

/// How many magnitudes go into one bar when `len` magnitudes are to fill
/// about `width` bars: their ratio rounded to the nearest whole number, and
/// at least one. With nothing to show or nowhere to show it, one.
pub open spec fn offset_for(len: nat, width: nat) -> nat {
    if len == 0 || width == 0 || rounded_ratio(len as int, width as int) < 1 {
        1
    } else {
        rounded_ratio(len as int, width as int) as nat
    }
}

/// The sum of the items of `s`.
pub open spec fn sum(s: Seq<u64>) -> int
    decreases s.len(),
{
    if s.len() == 0 {
        0
    } else {
        sum(s.drop_last()) + s.last()
    }
}

/// The `index`-th group of `offset` magnitudes.
pub open spec fn group(magnitudes: Seq<u64>, index: int, offset: int) -> Seq<u64> {
    magnitudes.subrange(index * offset, (index + 1) * offset)
}

/// The bar for the `index`-th group of `offset` magnitudes: their mean,
/// rounded.
pub open spec fn bar_of(magnitudes: Seq<u64>, index: int, offset: int) -> int {
    rounded_ratio(sum(group(magnitudes, index, offset)), offset)
}

/// The bars of the full groups of `offset` magnitudes, from the left.
pub open spec fn bars_by(magnitudes: Seq<u64>, offset: int) -> Seq<int> {
    Seq::new((magnitudes.len() as int / offset) as nat, |i: int| bar_of(magnitudes, i, offset))
}

/// The bars that `magnitudes` make on a chart `width` columns wide.
pub open spec fn bars_of(magnitudes: Seq<i64>, width: nat) -> Seq<int> {
    if width == 0 {
        Seq::empty()
    } else {
        bars_by(kept(magnitudes), offset_for(kept(magnitudes).len(), width) as int)
    }
}

/// The values of `bars` as numbers.
pub open spec fn heights(bars: Seq<u64>) -> Seq<int> {
    bars.map_values(|bar: u64| bar as int)
}

/// `rounded_ratio(total, count)` is the whole number nearest to
/// `total / count`: it differs from the quotient by at most a half, and
/// where two are equally near it is the larger.
pub proof fn lemma_rounded_ratio(total: int, count: int)
    requires
        total >= 0,
        count > 0,
    ensures
        2 * count * rounded_ratio(total, count) - count <= 2 * total,
        2 * total < 2 * count * rounded_ratio(total, count) + count,
        rounded_ratio(total, count) == total / count + if 2 * (total % count) >= count {
            1int
        } else {
            0int
        },
{
    let r = rounded_ratio(total, count);
    let d = 2 * count;
    let n = 2 * total + count;
    assert(d * r <= n < d * r + d) by (nonlinear_arith)
        requires
            r == n / d,
            d > 0,
    ;
    let q = total / count;
    let m = total % count;
    assert(total == count * q + m && 0 <= m < count) by (nonlinear_arith)
        requires
            q == total / count,
            m == total % count,
            count > 0,
    ;
    assert(d * r == 2 * (count * r) && 2 * count * r == 2 * (count * r)) by (nonlinear_arith)
        requires
            d == 2 * count,
    ;
    if 2 * m >= count {
        assert(r == q + 1) by (nonlinear_arith)
            requires
                2 * (count * r) <= 2 * (count * q + m) + count < 2 * (count * r) + 2 * count,
                count <= 2 * m < 2 * count,
                count > 0,
        ;
    } else {
        assert(r == q) by (nonlinear_arith)
            requires
                2 * (count * r) <= 2 * (count * q + m) + count < 2 * (count * r) + 2 * count,
                0 <= 2 * m < count,
                count > 0,
        ;
    }
}

/// The bars never outnumber the columns by half or more: twice the number
/// of bars is at most three times the width. Where the width divides the
/// number of magnitudes, there is one bar for each column.
pub proof fn lemma_bar_count(len: nat, width: nat)
    requires
        width > 0,
    ensures
        2 * (len / offset_for(len, width)) <= 3 * width,
        len / offset_for(len, width) <= len,
        len > 0 && len % width == 0 ==> len / offset_for(len, width) == width,
{
    let offset = offset_for(len, width) as int;
    let bars = len as int / offset;
    assert(bars * offset <= len && bars <= len) by (nonlinear_arith)
        requires
            bars == len as int / offset,
            offset >= 1,
            len >= 0,
    ;
    if len > 0 {
        let ratio = rounded_ratio(len as int, width as int);
        assert(2 * width * ratio <= 2 * len + width < 2 * width * ratio + 2 * width)
            by (nonlinear_arith)
            requires
                ratio == (2 * len + width) / (2 * width),
                width > 0,
        ;
        if ratio < 1 {
            assert(2 * len < width) by (nonlinear_arith)
                requires
                    2 * len + width < 2 * width * ratio + 2 * width,
                    ratio <= 0,
                    width > 0,
            ;
        } else {
            assert(2 * bars <= 3 * width) by (nonlinear_arith)
                requires
                    bars * ratio <= len,
                    2 * len + width < 2 * width * ratio + 2 * width,
                    ratio >= 1,
                    bars >= 0,
                    width > 0,
            ;
        }
        if len % width == 0 {
            let q = len as int / width as int;
            assert(len == q * width && q >= 1) by (nonlinear_arith)
                requires
                    q == len as int / width as int,
                    len % width == 0,
                    len > 0,
                    width > 0,
            ;
            assert(ratio == q) by (nonlinear_arith)
                requires
                    2 * width * ratio <= 2 * len + width < 2 * width * ratio + 2 * width,
                    len == q * width,
                    width > 0,
            ;
            assert(bars == width) by (nonlinear_arith)
                requires
                    bars == (q * width) / q,
                    q >= 1,
                    width > 0,
            ;
        }
    }
}

/// Extending a sequence by one item adds that item to its sum.
proof fn lemma_sum_push(s: Seq<u64>, last: u64)
    ensures
        sum(s.push(last)) == sum(s) + last,
{
    assert(s.push(last).drop_last() =~= s);
}

/// Computes how many magnitudes go into one bar.
pub fn calculate_offset(data_len: usize, terminal_width: usize) -> (offset: usize)
    ensures
        offset == offset_for(data_len as nat, terminal_width as nat),
        offset >= 1,
        terminal_width == 0 || data_len == 0 ==> offset == 1,
{
    if terminal_width == 0 || data_len == 0 {
        return 1;
    }
    let ratio: u128 = (2 * (data_len as u128) + terminal_width as u128) / (2 * (
    terminal_width as u128));
    assert(ratio == rounded_ratio(data_len as int, terminal_width as int));
    assert(ratio <= data_len) by (nonlinear_arith)
        requires
            ratio == (2 * data_len + terminal_width) / (2 * terminal_width),
            data_len >= 1,
            terminal_width >= 1,
    ;
    if ratio < 1 {
        1
    } else {
        ratio as usize
    }
}

/// Copies the magnitudes that are not negative.
fn keep_nonnegative(magnitudes: &Vec<i64>) -> (data: Vec<u64>)
    ensures
        data@ == kept(magnitudes@),
{
    let mut data: Vec<u64> = Vec::new();
    let mut at: usize = 0;
    let ghost keep = is_magnitude();
    let ghost value = |rounded: i64| rounded as u64;
    proof {
        reveal(Seq::filter);
        assert(magnitudes@.take(0) =~= Seq::<i64>::empty());
        assert(data@ =~= magnitudes@.take(0).filter(keep).map_values(value));
    }
    while at < magnitudes.len()
        invariant
            at <= magnitudes.len(),
            keep == is_magnitude(),
            value == |rounded: i64| rounded as u64,
            data@ == magnitudes@.take(at as int).filter(keep).map_values(value),
        decreases magnitudes.len() - at,
    {
        let magnitude = magnitudes[at];
        let ghost before = magnitudes@.take(at as int).filter(keep);
        proof {
            reveal(Seq::filter);
            assert(magnitudes@.take(at + 1).drop_last() =~= magnitudes@.take(at as int));
        }
        if magnitude >= 0 {
            data.push(magnitude as u64);
            assert(data@ =~= before.push(magnitude).map_values(value));
        }
        at += 1;
    }
    assert(magnitudes@.take(at as int) =~= magnitudes@);
    data
}

/// Computes the bar for the `index`-th group of `offset` magnitudes.
fn bar_value(data: &Vec<u64>, index: usize, offset: usize) -> (bar: u64)
    requires
        offset >= 1,
        (index + 1) * offset <= data.len(),
    ensures
        bar == bar_of(data@, index as int, offset as int),
{
    assert(index * offset + offset == (index + 1) * offset) by (nonlinear_arith);
    assert(index * offset >= 0) by (nonlinear_arith);
    let start: usize = index * offset;
    let ghost items = group(data@, index as int, offset as int);
    let mut total: u128 = 0;
    let mut taken: usize = 0;
    proof {
        assert(items.subrange(0, 0) =~= Seq::<u64>::empty());
    }
    while taken < offset
        invariant
            taken <= offset,
            start + offset <= data.len(),
            items == data@.subrange(start as int, start + offset),
            total == sum(items.subrange(0, taken as int)),
            total <= taken * u64::MAX,
        decreases offset - taken,
    {
        let magnitude = data[start + taken];
        proof {
            assert(items.subrange(0, taken + 1) =~= items.subrange(0, taken as int).push(
                magnitude,
            ));
            lemma_sum_push(items.subrange(0, taken as int), magnitude);
            assert((taken + 1) * u64::MAX == taken * u64::MAX + u64::MAX) by (nonlinear_arith);
            assert((taken + 1) * u64::MAX <= usize::MAX * u64::MAX) by (nonlinear_arith)
                requires
                    taken + 1 <= usize::MAX,
            ;
        }
        total = total + magnitude as u128;
        taken += 1;
    }
    let count: u128 = offset as u128;
    let whole: u128 = total / count;
    let rest: u128 = total % count;
    proof {
        assert(items.subrange(0, offset as int) =~= items);
        lemma_rounded_ratio(total as int, count as int);
        assert(total == count * whole + rest && 0 <= rest < count) by (nonlinear_arith)
            requires
                whole == total / count,
                rest == total % count,
                count > 0,
        ;
        assert(whole <= u64::MAX && (rest > 0 ==> whole < u64::MAX)) by (nonlinear_arith)
            requires
                total == count * whole + rest,
                total <= count * u64::MAX,
                0 <= rest < count,
                whole >= 0,
        ;
    }
    if 2 * rest >= count {
        (whole + 1) as u64
    } else {
        whole as u64
    }
}

/// Computes the bars of `count` groups of `offset` magnitudes each, the
/// groups shared out among the threads of the pool.
///
/// Calls `into_par_iter`, `map` and `collect` of `rayon`. Taken on trust:
/// that the vector collected from the parallel iterator over `0..count`
/// holds one item for each index, in the order of the indices, and that
/// the item is what the closure returned for that index.
#[verifier::external_body]
fn par_bars(data: &Vec<u64>, offset: usize, count: usize) -> (bars: Vec<u64>)
    requires
        offset >= 1,
        count * offset <= data.len(),
    ensures
        bars.len() == count,
        forall|i: int| 0 <= i < count ==> bars[i] == bar_of(data@, i, offset as int),
{
    (0..count).into_par_iter().map(|index| bar_value(data, index, offset)).collect()
}

/// Averages each full group of `offset` magnitudes into one bar.
///
/// The groups are taken from the left and do not overlap; magnitudes that
/// are left over at the end make no bar. A bar is the mean of its group,
/// rounded to the nearest whole number.
pub fn aggregate(magnitudes: &Vec<u64>, offset: usize) -> (bars: Vec<u64>)
    requires
        offset >= 1,
    ensures
        bars.len() == magnitudes.len() / offset,
        forall|i: int| 0 <= i < bars.len() ==> bars[i] == bar_of(magnitudes@, i, offset as int),
        heights(bars@) == bars_by(magnitudes@, offset as int),
{
    let count: usize = magnitudes.len() / offset;
    assert(count * offset <= magnitudes.len()) by (nonlinear_arith)
        requires
            count == magnitudes.len() / offset,
            offset >= 1,
    ;
    let bars = par_bars(magnitudes, offset, count);
    assert(heights(bars@) =~= bars_by(magnitudes@, offset as int));
    bars
}

/// Folds the rounded magnitudes of a spectrum into the bars of a chart
/// `terminal_width` columns wide.
///
/// Negative values are discarded. The rest is averaged in groups of
/// `calculate_offset` magnitudes, as [`aggregate`] does it. The number of
/// bars comes near `terminal_width` and may exceed it, by less than half.
/// A chart without columns gets no bars.
pub fn create_bars(magnitudes: &Vec<i64>, terminal_width: usize) -> (bars: Vec<u64>)
    ensures
        heights(bars@) == bars_of(magnitudes@, terminal_width as nat),
        bars.len() == if terminal_width == 0 {
            0
        } else {
            kept(magnitudes@).len() / offset_for(kept(magnitudes@).len(), terminal_width as nat)
        },
        forall|i: int|
            0 <= i < bars.len() ==> bars[i] == bar_of(
                kept(magnitudes@),
                i,
                offset_for(kept(magnitudes@).len(), terminal_width as nat) as int,
            ),
        2 * bars.len() <= 3 * terminal_width,
{
    if terminal_width == 0 {
        let bars: Vec<u64> = Vec::new();
        assert(heights(bars@) =~= bars_of(magnitudes@, 0));
        return bars;
    }
    let data = keep_nonnegative(magnitudes);
    let offset = calculate_offset(data.len(), terminal_width);
    proof {
        lemma_bar_count(data.len() as nat, terminal_width as nat);
    }
    aggregate(&data, offset)
}

/// What the chart shows: its colours and the bars of the last frame.
pub struct Display {
    pub bar_style: BarStyle,
    pub bars: Vec<u64>,
}

impl Display {
    /// An empty chart in the colours of `style`, where they can be decoded.
    pub fn new(style: &Style) -> (result: Result<Display, StyleError>)
        ensures
            result is Ok <==> bar_style_of(text_of(style.fg), text_of(style.bg)) is Ok,
            result matches Ok(display) ==> bar_style_of(text_of(style.fg), text_of(style.bg))
                == Ok::<BarStyle, StyleError>(display.bar_style) && display.bars@.len() == 0,
            result matches Err(error) ==> bar_style_of(text_of(style.fg), text_of(style.bg))
                == Err::<BarStyle, StyleError>(error),
    {
        match style.to_tui_style() {
            Ok(bar_style) => Ok(Display { bar_style, bars: Vec::new() }),
            Err(error) => Err(error),
        }
    }

    /// Replaces the bars by those of a new frame, as [`create_bars`] makes
    /// them. Nothing of the frame before is kept.
    pub fn update(&mut self, magnitudes: &Vec<i64>, terminal_width: usize)
        ensures
            final(self).bar_style == old(self).bar_style,
            heights(final(self).bars@) == bars_of(magnitudes@, terminal_width as nat),
            2 * final(self).bars@.len() <= 3 * terminal_width,
    {
        self.bars = create_bars(magnitudes, terminal_width);
    }
}

} // verus!
