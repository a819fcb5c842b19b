use vstd::prelude::*;

use vstd::arithmetic::div_mod::{lemma_div_multiples_vanish, lemma_fundamental_div_mod_converse};
use vstd::arithmetic::mul::{lemma_mul_is_distributive_add_other_way, lemma_mul_strict_inequality};

verus! {

/// Distance between two consecutive sweep times.
pub const STEP: usize = 3;

/// Number of sweep times that one pass over `[-frames, frames]` visits.
pub open spec fn pass_len(frames: int, step: int) -> int {
    2 * frames / step + 1
}

/// The `k`-th sweep time of a pass over `[-frames, frames]`.
pub open spec fn sweep_time(frames: int, step: int, k: int) -> int {
    -frames + k * step
}

/// The sweep times of one pass: `-frames`, `-frames + step`, ... up to the
/// last one that does not pass `frames`.
pub fn sweep_times(frames: usize, step: usize) -> (r: Vec<i32>)
    requires
        frames <= i32::MAX,
        0 < step <= i32::MAX,
    ensures
        r@.len() == pass_len(frames as int, step as int),
        forall|k: int|
            0 <= k < r@.len() ==> #[trigger] r@[k] as int == sweep_time(
                frames as int,
                step as int,
                k,
            ),
{
    let f: i64 = frames as i64;
    let s: i64 = step as i64;
    let mut r: Vec<i32> = Vec::new();
    let mut t: i64 = -f;
    while t <= f
        invariant
            f == frames,
            s == step,
            0 < s <= i32::MAX,
            f <= i32::MAX,
            t == sweep_time(f as int, s as int, r@.len() as int),
            t <= f + s,
            r@.len() > 0 ==> t - s <= f,
            forall|k: int|
                0 <= k < r@.len() ==> r@[k] as int == #[trigger] sweep_time(
                    f as int,
                    s as int,
                    k,
                ),
        decreases f + s - t,
    {
        proof {
            lemma_mul_is_distributive_add_other_way(s as int, r@.len() as int, 1);
        }
        r.push(t as i32);
        t = t + s;
    }
    proof {
        let k = r@.len() as int;
        assert(k > 0) by {
            if k == 0 {
                assert(t == -f);
            }
        }
        lemma_mul_is_distributive_add_other_way(s as int, k - 1, 1);
        lemma_fundamental_div_mod_converse(
            2 * f as int,
            s as int,
            k - 1,
            2 * f - (k - 1) * s,
        );
    }
    r
}

/// The number of sweep frames for an image `height` lines tall: one step per
/// line on each side of zero.
pub fn frame_count(height: usize, step: usize) -> (r: usize)
    requires
        height * step <= i32::MAX,
    ensures
        r == height * step,
{
    height * step
}

/// Where an extent starts so that it is centred in the space available; at
/// the origin when it does not fit.
pub fn centre_offset(available: usize, extent: usize) -> (r: usize)
    ensures
        r == (if available > extent {
            (available - extent) / 2
        } else {
            0
        }),
{
    if available > extent {
        (available - extent) / 2
    } else {
        0
    }
}

/// A pass for an image `height` lines tall visits `2 * height + 1` sweep
/// times, from `-frames` to `frames`, and zero exactly once, in the middle.
pub proof fn lemma_pass_of_height(height: int, step: int)
    requires
        height >= 0,
        step > 0,
    ensures
        pass_len(height * step, step) == 2 * height + 1,
        sweep_time(height * step, step, 0) == -(height * step),
        sweep_time(height * step, step, 2 * height) == height * step,
        sweep_time(height * step, step, height) == 0,
        forall|k: int|
            0 <= k <= 2 * height && k != height ==> #[trigger] sweep_time(height * step, step, k)
                != 0,
{
    assert(2 * (height * step) == (2 * height) * step) by (nonlinear_arith);
    lemma_div_multiples_vanish(2 * height, step);
    assert(sweep_time(height * step, step, 2 * height) == height * step) by (nonlinear_arith)
        requires
            step > 0,
    ;
    assert forall|k: int| 0 <= k <= 2 * height && k != height implies #[trigger] sweep_time(
        height * step,
        step,
        k,
    ) != 0 by {
        if k < height {
            lemma_mul_strict_inequality(k, height, step);
        } else {
            lemma_mul_strict_inequality(height, k, step);
        }
    }
}

} // verus!
