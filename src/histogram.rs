use vstd::prelude::*;
use crate::color::{modify_width, requantized, Rgb, QUANTIZE_WORD_WIDTH};
use crate::filter::{allowed_by_all, should_ignore_color, Filter};

verus! {

/// A histogram colour, at the reduced bit width, with the number of pixels on it.
pub type ColorCount = (Rgb, u32);

/// Number of distinct colours at the histogram's bit width: 2^(3 * 5).
pub const HISTOGRAM_SIZE: usize = 32768;

/// A pixel with each channel narrowed from eight bits to the histogram's width.
pub open spec fn quantize_color(c: Rgb) -> Rgb {
    (
        requantized(c.0, 8, QUANTIZE_WORD_WIDTH),
        requantized(c.1, 8, QUANTIZE_WORD_WIDTH),
        requantized(c.2, 8, QUANTIZE_WORD_WIDTH),
    )
}

/// A histogram colour widened back to eight bits per channel.
pub open spec fn widen_color(c: Rgb) -> Rgb {
    (
        requantized(c.0, QUANTIZE_WORD_WIDTH, 8),
        requantized(c.1, QUANTIZE_WORD_WIDTH, 8),
        requantized(c.2, QUANTIZE_WORD_WIDTH, 8),
    )
}

/// The channels of a 5-bit colour packed into one integer, red most significant.
pub open spec fn pack(c: Rgb) -> int {
    c.0 as int * 1024 + c.1 as int * 32 + c.2 as int
}

/// The 5-bit colour whose packed form is `k`.
pub open spec fn unpack(k: int) -> Rgb {
    ((k / 1024) as u8, ((k / 32) % 32) as u8, (k % 32) as u8)
}

/// The histogram slot that a pixel falls into.
pub open spec fn histogram_key(p: Rgb) -> int {
    pack(quantize_color(p))
}

/// The number of pixels that fall into slot `key`.
pub open spec fn count_of(pixels: Seq<Rgb>, key: int) -> nat
    decreases pixels.len(),
{
    if pixels.len() == 0 {
        0
    } else {
        count_of(pixels.drop_last(), key) + if histogram_key(pixels.last()) == key {
            1nat
        } else {
            0nat
        }
    }
}

/// The sum of the counts of the slots below `n`.
pub open spec fn histogram_total(pixels: Seq<Rgb>, n: int) -> nat
    decreases n,
{
    if n <= 0 {
        0
    } else {
        histogram_total(pixels, n - 1) + count_of(pixels, n - 1)
    }
}

/// The occupied slots below `n` whose colour, widened to eight bits, every
/// filter allows, in increasing order of the packed colour.
pub open spec fn histogram_upto<F: Filter>(pixels: Seq<Rgb>, filters: Seq<F>, n: int) -> Seq<
    ColorCount,
>
    decreases n,
{
    if n <= 0 {
        seq![]
    } else {
        let prev = histogram_upto(pixels, filters, n - 1);
        let c = unpack(n - 1);
        if count_of(pixels, n - 1) > 0 && allowed_by_all(filters, widen_color(c)) {
            prev.push((c, count_of(pixels, n - 1) as u32))
        } else {
            prev
        }
    }
}

/// The filtered histogram of the pixels, ordered by packed colour.
pub open spec fn filtered_histogram<F: Filter>(pixels: Seq<Rgb>, filters: Seq<F>) -> Seq<
    ColorCount,
> {
    histogram_upto(pixels, filters, HISTOGRAM_SIZE as int)
}

pub proof fn lemma_narrow(x: u8)
    ensures
        requantized(x, 8, QUANTIZE_WORD_WIDTH) == x >> 3u32,
        requantized(x, 8, QUANTIZE_WORD_WIDTH) < 32,
{
    assert(x >> 3u32 < 32) by (bit_vector);
}

pub proof fn lemma_key_bound(p: Rgb)
    ensures
        0 <= histogram_key(p) < HISTOGRAM_SIZE,
{
    lemma_narrow(p.0);
    lemma_narrow(p.1);
    lemma_narrow(p.2);
}

pub proof fn lemma_count_bound(pixels: Seq<Rgb>, key: int)
    ensures
        count_of(pixels, key) <= pixels.len(),
    decreases pixels.len(),
{
    if pixels.len() > 0 {
        lemma_count_bound(pixels.drop_last(), key);
    }
}

proof fn lemma_histogram_total_push(pixels: Seq<Rgb>, p: Rgb, n: int)
    ensures
        histogram_total(pixels.push(p), n) == histogram_total(pixels, n) + if 0 <= histogram_key(p)
            < n {
            1nat
        } else {
            0nat
        },
    decreases n,
{
    assert(pixels.push(p).drop_last() =~= pixels);
    if n > 0 {
        lemma_histogram_total_push(pixels, p, n - 1);
    }
}

/// Every pixel is counted in exactly one slot: the counts of the whole
/// histogram add up to the number of pixels.
pub proof fn lemma_histogram_complete(pixels: Seq<Rgb>)
    ensures
        histogram_total(pixels, HISTOGRAM_SIZE as int) == pixels.len(),
    decreases pixels.len(),
{
    if pixels.len() == 0 {
        lemma_histogram_total_zero(pixels, HISTOGRAM_SIZE as int);
    } else {
        let prev = pixels.drop_last();
        lemma_histogram_complete(prev);
        lemma_key_bound(pixels.last());
        assert(prev.push(pixels.last()) =~= pixels);
        lemma_histogram_total_push(prev, pixels.last(), HISTOGRAM_SIZE as int);
    }
}

proof fn lemma_histogram_total_zero(pixels: Seq<Rgb>, n: int)
    requires
        pixels.len() == 0,
    ensures
        histogram_total(pixels, n) == 0,
    decreases n,
{
    if n > 0 {
        lemma_histogram_total_zero(pixels, n - 1);
    }
}

/// The slot of a pixel.
fn color_key(p: Rgb) -> (k: usize)
    ensures
        k == histogram_key(p),
        k < HISTOGRAM_SIZE,
{
    let r = modify_width(p.0, 8, QUANTIZE_WORD_WIDTH);
    let g = modify_width(p.1, 8, QUANTIZE_WORD_WIDTH);
    let b = modify_width(p.2, 8, QUANTIZE_WORD_WIDTH);
    proof {
        lemma_narrow(p.0);
        lemma_narrow(p.1);
        lemma_narrow(p.2);
    }
    (r as usize) * 1024 + (g as usize) * 32 + b as usize
}

/// The 5-bit colour of a slot.
fn key_color(k: usize) -> (c: Rgb)
    requires
        k < HISTOGRAM_SIZE,
    ensures
        c == unpack(k as int),
{
    ((k / 1024) as u8, ((k / 32) % 32) as u8, (k % 32) as u8)
}

/// Counts the pixels of each slot.
pub fn build_histogram(pixels: &Vec<Rgb>) -> (counts: Vec<u32>)
    requires
        pixels.len() <= u32::MAX,
    ensures
        counts.len() == HISTOGRAM_SIZE,
        forall|k: int| 0 <= k < HISTOGRAM_SIZE ==> counts@[k] == count_of(pixels@, k),
{
    let mut counts: Vec<u32> = vec![0u32; HISTOGRAM_SIZE];
    let mut i: usize = 0;
    while i < pixels.len()
        invariant
            0 <= i <= pixels.len() <= u32::MAX,
            counts.len() == HISTOGRAM_SIZE,
            forall|k: int|
                0 <= k < HISTOGRAM_SIZE ==> counts@[k] == count_of(pixels@.take(i as int), k),
        decreases pixels.len() - i,
    {
        let k = color_key(pixels[i]);
        proof {
            let next = pixels@.take(i + 1);
            assert(next.drop_last() =~= pixels@.take(i as int));
            lemma_count_bound(pixels@.take(i as int), k as int);
            assert forall|j: int| 0 <= j < HISTOGRAM_SIZE implies count_of(next, j) == count_of(
                pixels@.take(i as int),
                j,
            ) + if j == k {
                1nat
            } else {
                0nat
            } by {}
        }
        let c = counts[k];
        counts.set(k, c + 1);
        i += 1;
    }
    assert(pixels@.take(pixels.len() as int) =~= pixels@);
    counts
}

/// The occupied slots, in slot order, whose widened colour passes every filter.
pub fn filter_histogram<F: Filter>(pixels: &Vec<Rgb>, counts: &Vec<u32>, filters: &Vec<F>) -> (r: Vec<
    ColorCount,
>)
    requires
        counts.len() == HISTOGRAM_SIZE,
        forall|k: int| 0 <= k < HISTOGRAM_SIZE ==> counts@[k] == count_of(pixels@, k),
    ensures
        r@ == filtered_histogram(pixels@, filters@),
{
    let mut entries: Vec<ColorCount> = Vec::new();
    let mut k: usize = 0;
    while k < HISTOGRAM_SIZE
        invariant
            0 <= k <= HISTOGRAM_SIZE,
            counts.len() == HISTOGRAM_SIZE,
            forall|j: int| 0 <= j < HISTOGRAM_SIZE ==> counts@[j] == count_of(pixels@, j),
            entries@ == histogram_upto(pixels@, filters@, k as int),
        decreases HISTOGRAM_SIZE - k,
    {
        let count = counts[k];
        if count > 0 {
            let c = key_color(k);
            let wide = (
                modify_width(c.0, QUANTIZE_WORD_WIDTH, 8),
                modify_width(c.1, QUANTIZE_WORD_WIDTH, 8),
                modify_width(c.2, QUANTIZE_WORD_WIDTH, 8),
            );
            if !should_ignore_color(filters, wide) {
                entries.push((c, count));
            }
        }
        k += 1;
    }
    entries
}

} // verus!
