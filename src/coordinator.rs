use vstd::prelude::*;
use crate::scene::{Image, Rendered};

verus! {

/// Samples per pixel that each worker of a distributed render takes on.
pub const SAMPLES_PER_WORKER: u32 = 5;

/// Number of workers for `samples` samples per pixel: the sample count
/// divided by the share of one worker, rounded up.
pub open spec fn spec_worker_count(samples: int) -> int {
    (samples + SAMPLES_PER_WORKER - 1) / SAMPLES_PER_WORKER as int
}

pub fn worker_count(samples: u32) -> (r: usize)
    ensures
        r == spec_worker_count(samples as int),
{
    let n: u64 = (samples as u64 + (SAMPLES_PER_WORKER as u64 - 1)) / SAMPLES_PER_WORKER as u64;
    n as usize
}

/// The image a worker renders: the whole image, at one worker's sample count.
pub fn worker_image(image: &Image) -> (r: Image)
    ensures
        r == (Image { samples: SAMPLES_PER_WORKER, ..*image }),
{
    Image { samples: SAMPLES_PER_WORKER, ..*image }
}

/// Channel `ch` (0 red, 1 green, 2 blue) of a pixel.
pub open spec fn channel(p: (u8, u8, u8), ch: int) -> int {
    if ch == 0 {
        p.0 as int
    } else if ch == 1 {
        p.1 as int
    } else {
        p.2 as int
    }
}

/// Sum of channel `ch` of pixel `k` over the first `n` renders.
pub open spec fn channel_sum(results: Seq<Rendered>, k: int, ch: int, n: int) -> int
    decreases n,
{
    if n <= 0 {
        0
    } else {
        channel_sum(results, k, ch, n - 1) + channel(results[n - 1].pixels@[k], ch)
    }
}

/// Unweighted mean of channel `ch` of pixel `k` over all renders, rounded down.
pub open spec fn channel_mean(results: Seq<Rendered>, k: int, ch: int) -> int {
    channel_sum(results, k, ch, results.len() as int) / results.len() as int
}

proof fn lemma_channel_sum_bound(results: Seq<Rendered>, k: int, ch: int, n: int)
    requires
        0 <= n,
    ensures
        0 <= channel_sum(results, k, ch, n) <= 255 * n,
    decreases n,
{
    if n > 0 {
        lemma_channel_sum_bound(results, k, ch, n - 1);
    }
}

proof fn lemma_mean_fits(sum: int, n: int)
    requires
        0 < n,
        0 <= sum <= 255 * n,
    ensures
        0 <= sum / n <= 255,
{
    assert(sum / n <= 255) by (nonlinear_arith)
        requires
            0 < n,
            0 <= sum <= 255 * n,
    ;
    assert(0 <= sum / n) by (nonlinear_arith)
        requires
            0 < n,
            0 <= sum,
    ;
}

/// The pixel-wise mean of several renders of one image, each channel rounded
/// down: the fan-in of a distributed render.
pub fn average_pixels(results: &Vec<Rendered>, count: usize) -> (r: Vec<(u8, u8, u8)>)
    requires
        0 < results@.len() <= u32::MAX,
        forall|m: int| 0 <= m < results@.len() ==> #[trigger] results@[m].pixels@.len() >= count,
    ensures
        r@.len() == count,
        forall|k: int|
            0 <= k < count ==> {
                &&& (#[trigger] r@[k]).0 == channel_mean(results@, k, 0)
                &&& r@[k].1 == channel_mean(results@, k, 1)
                &&& r@[k].2 == channel_mean(results@, k, 2)
            },
{
    let n = results.len();
    let mut out: Vec<(u8, u8, u8)> = Vec::new();
    let mut k: usize = 0;
    while k < count
        invariant
            n == results@.len(),
            0 < n <= u32::MAX,
            forall|m: int| 0 <= m < results@.len() ==> #[trigger] results@[m].pixels@.len() >= count,
            k <= count,
            out@.len() == k,
            forall|q: int|
                0 <= q < k ==> {
                    &&& (#[trigger] out@[q]).0 == channel_mean(results@, q, 0)
                    &&& out@[q].1 == channel_mean(results@, q, 1)
                    &&& out@[q].2 == channel_mean(results@, q, 2)
                },
        decreases count - k,
    {
        let mut red: u64 = 0;
        let mut green: u64 = 0;
        let mut blue: u64 = 0;
        let mut m: usize = 0;
        while m < n
            invariant
                n == results@.len(),
                0 < n <= u32::MAX,
                forall|m: int| 0 <= m < results@.len() ==> #[trigger] results@[m].pixels@.len() >= count,
                k < count,
                m <= n,
                red == channel_sum(results@, k as int, 0, m as int),
                green == channel_sum(results@, k as int, 1, m as int),
                blue == channel_sum(results@, k as int, 2, m as int),
            decreases n - m,
        {
            proof {
                lemma_channel_sum_bound(results@, k as int, 0, m as int);
                lemma_channel_sum_bound(results@, k as int, 1, m as int);
                lemma_channel_sum_bound(results@, k as int, 2, m as int);
            }
            let (r, g, b) = results[m].pixels[k];
            red = red + r as u64;
            green = green + g as u64;
            blue = blue + b as u64;
            m += 1;
        }
        proof {
            lemma_channel_sum_bound(results@, k as int, 0, n as int);
            lemma_channel_sum_bound(results@, k as int, 1, n as int);
            lemma_channel_sum_bound(results@, k as int, 2, n as int);
            lemma_mean_fits(red as int, n as int);
            lemma_mean_fits(green as int, n as int);
            lemma_mean_fits(blue as int, n as int);
        }
        let count_n = n as u64;
        out.push(((red / count_n) as u8, (green / count_n) as u8, (blue / count_n) as u8));
        k += 1;
    }
    out
}

} // verus!
