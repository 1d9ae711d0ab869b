//! Silence detection over a smoothed acoustic energy profile.
//!
//! Energy values are in micro-units: an RMS energy of 1.0 corresponds to
//! 1,000,000. One profile frame covers one hop of the analysis window.

use vstd::prelude::*;

verus! {

/// Samples per second of the analyzed waveform.
pub const SAMPLE_RATE: u64 = 44100;

/// Samples per analysis window.
pub const WINDOW_SIZE: u64 = 4096;

/// Samples between consecutive analysis windows.
pub const HOP_SIZE: u64 = 1024;

/// Minimal length of a silence span, in milliseconds.
pub const MIN_SILENCE_MS: u64 = 2000;

/// Base threshold for audio energy detection, in micro-units (0.005).
pub const ENERGY_THRESHOLD: u64 = 5000;

/// Minimal length of a silence span, in profile frames: the minimal silence
/// duration at one frame per hop, 2000 ms times 44100 Hz over 1024 samples
/// per hop, rounded down.
pub const MIN_SILENCE_FRAMES: u64 = 86;

/// The minimal silence length in frames is the minimal silence duration
/// expressed at the profile's frame rate.
pub proof fn lemma_min_silence_frames()
    ensures
        MIN_SILENCE_FRAMES == MIN_SILENCE_MS * SAMPLE_RATE / (HOP_SIZE * 1000),
{
    assert(MIN_SILENCE_MS == 2000);
    assert(SAMPLE_RATE == 44100);
    assert(HOP_SIZE == 1024);
    assert(MIN_SILENCE_FRAMES == 86);
    assert(2000int * 44100int / (1024int * 1000int) == 86int) by (nonlinear_arith);
}

/// Whether `[a, b)` is a maximal run of profile values below the threshold.
pub open spec fn is_silence_run(energy: Seq<u64>, threshold: u64, a: int, b: int) -> bool {
    0 <= a < b <= energy.len() && (forall|k: int| a <= k < b ==> energy[k] < threshold) && (a == 0
        || energy[a - 1] >= threshold) && (b == energy.len() || energy[b] >= threshold)
}

/// Whether `p` is the midpoint of a maximal below-threshold run of at least
/// the minimal silence length.
pub open spec fn is_silence_point(energy: Seq<u64>, threshold: u64, p: int) -> bool {
    exists|a: int, b: int|
        #[trigger] is_silence_run(energy, threshold, a, b) && b - a >= MIN_SILENCE_FRAMES && p == a
            + (b - a) / 2
}

/// Finds every silence span: a maximal run of profile values below the
/// threshold lasting at least the minimal silence duration. Each span is
/// reported once, by its midpoint frame, in increasing order.
pub fn find_silence_points(energy_profile: &Vec<u64>, threshold: u64) -> (r: Vec<usize>)
    ensures
        forall|j: int|
            0 <= j < r.len() ==> is_silence_point(energy_profile@, threshold, #[trigger] r@[j] as int),
        forall|a: int, b: int|
            #[trigger] is_silence_run(energy_profile@, threshold, a, b) && b - a
                >= MIN_SILENCE_FRAMES ==> r@.contains((a + (b - a) / 2) as usize),
        forall|j1: int, j2: int| 0 <= j1 < j2 < r.len() ==> r@[j1] < r@[j2],
{
    let e = energy_profile;
    let n = e.len();
    let mut out: Vec<usize> = Vec::new();
    let mut i: usize = 0;
    let mut in_run: bool = false;
    let mut run_start: usize = 0;
    let min_frames: usize = MIN_SILENCE_FRAMES as usize;
    while i < n
        invariant
            n == e@.len(),
            min_frames == MIN_SILENCE_FRAMES,
            0 <= i <= n,
            in_run <==> (i > 0 && e@[i - 1] < threshold),
            in_run ==> run_start < i && (forall|k: int|
                run_start <= k < i ==> e@[k] < threshold) && (run_start == 0 || e@[run_start - 1]
                >= threshold),
            forall|j: int|
                0 <= j < out.len() ==> is_silence_point(e@, threshold, #[trigger] out@[j] as int),
            forall|a: int, b: int|
                #[trigger] is_silence_run(e@, threshold, a, b) && b - a >= MIN_SILENCE_FRAMES && b
                    < i ==> out@.contains((a + (b - a) / 2) as usize),
            forall|j: int|
                0 <= j < out.len() ==> #[trigger] out@[j] < (if in_run {
                    run_start as int
                } else {
                    i as int
                }),
            forall|j1: int, j2: int| 0 <= j1 < j2 < out.len() ==> out@[j1] < out@[j2],
        decreases n - i,
    {
        if e[i] < threshold {
            proof {
                assert forall|a: int, b: int|
                    is_silence_run(e@, threshold, a, b) && b - a >= MIN_SILENCE_FRAMES && b < i + 1
                        implies b < i by {
                    if b == i {
                        assert(e@[b] >= threshold);
                    }
                }
            }
            if !in_run {
                in_run = true;
                run_start = i;
            }
        } else {
            if in_run {
                proof {
                    lemma_run_start_unique(e@, threshold, i as int, run_start as int);
                }
                if i - run_start >= min_frames {
                    let mid = run_start + (i - run_start) / 2;
                    let ghost old_out = out@;
                    proof {
                        assert(is_silence_run(e@, threshold, run_start as int, i as int));
                    }
                    out.push(mid);
                    proof {
                        assert(out@ == old_out.push(mid));
                        assert(is_silence_point(e@, threshold, mid as int));
                        assert forall|a: int, b: int|
                            is_silence_run(e@, threshold, a, b) && b - a >= MIN_SILENCE_FRAMES && b
                                < i + 1 implies out@.contains((a + (b - a) / 2) as usize) by {
                            if b < i {
                                let k = choose|k: int|
                                    0 <= k < old_out.len() && old_out[k] == (a + (b - a) / 2)
                                        as usize;
                                assert(old_out.contains((a + (b - a) / 2) as usize));
                                assert(out@[k] == (a + (b - a) / 2) as usize);
                            } else {
                                assert(a == run_start);
                                assert(out@[out@.len() - 1] == mid);
                            }
                        }
                    }
                } else {
                    proof {
                        assert forall|a: int, b: int|
                            is_silence_run(e@, threshold, a, b) && b - a >= MIN_SILENCE_FRAMES && b
                                < i + 1 implies out@.contains((a + (b - a) / 2) as usize) by {
                            if b == i {
                                assert(a == run_start);
                            }
                        }
                    }
                }
                in_run = false;
            } else {
                proof {
                    assert forall|a: int, b: int|
                        is_silence_run(e@, threshold, a, b) && b - a >= MIN_SILENCE_FRAMES && b < i
                            + 1 implies b < i by {
                        if b == i {
                            assert(e@[b - 1] < threshold);
                        }
                    }
                }
            }
        }
        i = i + 1;
    }
    if in_run && n - run_start >= min_frames {
        let mid = run_start + (n - run_start) / 2;
        let ghost old_out = out@;
        proof {
            assert(is_silence_run(e@, threshold, run_start as int, n as int));
            lemma_run_start_unique(e@, threshold, n as int, run_start as int);
        }
        out.push(mid);
        proof {
            assert(out@ == old_out.push(mid));
            assert(is_silence_point(e@, threshold, mid as int));
            assert forall|a: int, b: int|
                is_silence_run(e@, threshold, a, b) && b - a >= MIN_SILENCE_FRAMES implies
                out@.contains((a + (b - a) / 2) as usize) by {
                if b < n {
                    let k = choose|k: int|
                        0 <= k < old_out.len() && old_out[k] == (a + (b - a) / 2) as usize;
                    assert(old_out.contains((a + (b - a) / 2) as usize));
                    assert(out@[k] == (a + (b - a) / 2) as usize);
                } else {
                    assert(a == run_start);
                    assert(out@[out@.len() - 1] == mid);
                }
            }
        }
    } else {
        proof {
            if in_run {
                lemma_run_start_unique(e@, threshold, n as int, run_start as int);
                assert forall|a: int, b: int|
                    is_silence_run(e@, threshold, a, b) && b - a >= MIN_SILENCE_FRAMES implies b
                        < n || a == run_start by {
                }
            } else {
                assert forall|a: int, b: int|
                    is_silence_run(e@, threshold, a, b) && b - a >= MIN_SILENCE_FRAMES implies b
                        < n by {
                    if b == n {
                        assert(e@[b - 1] < threshold);
                    }
                }
            }
        }
    }
    out
}

/// Two maximal below-threshold runs that end at the same frame start at the
/// same frame.
proof fn lemma_run_start_unique(energy: Seq<u64>, threshold: u64, b: int, a0: int)
    requires
        0 <= a0 < b <= energy.len(),
        forall|k: int| a0 <= k < b ==> energy[k] < threshold,
        a0 == 0 || energy[a0 - 1] >= threshold,
    ensures
        forall|a: int, bb: int|
            #[trigger] is_silence_run(energy, threshold, a, bb) && bb == b ==> a == a0,
{
    assert forall|a: int, bb: int|
        is_silence_run(energy, threshold, a, bb) && bb == b implies a == a0 by {
        if a < a0 {
            assert(energy[a0 - 1] < threshold);
        } else if a > a0 {
            assert(energy[a - 1] < threshold);
        }
    }
}

/// The sum of a profile's energy values.
pub open spec fn seq_sum(s: Seq<u64>) -> int
    decreases s.len(),
{
    if s.len() == 0 {
        0
    } else {
        seq_sum(s.drop_last()) + s.last()
    }
}

/// The adaptive refinement threshold: a quarter of the profile's mean energy,
/// clamped between a tenth of the base threshold and the base threshold, so a
/// single global constant cannot misfire on unusually loud or quiet
/// recordings. An empty profile gets the base threshold.
pub open spec fn adaptive_threshold_spec(energy: Seq<u64>) -> u64 {
    if energy.len() == 0 {
        ENERGY_THRESHOLD
    } else {
        let a = seq_sum(energy) / energy.len() as int / 4;
        if a > ENERGY_THRESHOLD {
            ENERGY_THRESHOLD
        } else if a < ENERGY_THRESHOLD / 10 {
            ENERGY_THRESHOLD / 10
        } else {
            a as u64
        }
    }
}

/// Computes the adaptive refinement threshold of an energy profile.
pub fn refinement_threshold(energy_profile: &Vec<u64>) -> (r: u64)
    ensures
        r == adaptive_threshold_spec(energy_profile@),
{
    let n = energy_profile.len();
    if n == 0 {
        return ENERGY_THRESHOLD;
    }
    let mut sum: u128 = 0;
    let mut i: usize = 0;
    while i < n
        invariant
            n == energy_profile@.len(),
            0 <= i <= n,
            sum == seq_sum(energy_profile@.take(i as int)),
            sum <= (i as int) * (u64::MAX as int),
        decreases n - i,
    {
        proof {
            assert(energy_profile@.take(i + 1).drop_last() == energy_profile@.take(i as int));
            assert(energy_profile@.take(i + 1).last() == energy_profile@[i as int]);
            assert((i as int) * (u64::MAX as int) + (u64::MAX as int) == (i + 1) * (u64::MAX
                as int)) by (nonlinear_arith);
        }
        sum = sum + (energy_profile[i] as u128);
        i = i + 1;
    }
    proof {
        assert(energy_profile@.take(n as int) == energy_profile@);
        assert(sum / (n as u128) <= u64::MAX) by (nonlinear_arith)
            requires
                sum <= (n as int) * (u64::MAX as int),
                n > 0,
        ;
    }
    let mean: u128 = sum / (n as u128);
    let a: u128 = mean / 4;
    proof {
        assert(a == seq_sum(energy_profile@) / (n as int) / 4);
    }
    if a > (ENERGY_THRESHOLD as u128) {
        ENERGY_THRESHOLD
    } else if a < (ENERGY_THRESHOLD / 10) as u128 {
        ENERGY_THRESHOLD / 10
    } else {
        a as u64
    }
}

/// `x` held below the largest `u64` value.
pub open spec fn clamp_u64(x: int) -> u64 {
    if x > u64::MAX {
        u64::MAX as u64
    } else {
        x as u64
    }
}

/// The media time of a profile frame, in milliseconds.
pub open spec fn frame_to_ms(p: int) -> int {
    p * (HOP_SIZE as int) * 1000 / (SAMPLE_RATE as int)
}

/// Converts silence points from profile frames to milliseconds of media time.
pub fn silence_timestamps(points: &Vec<usize>) -> (r: Vec<u64>)
    ensures
        r.len() == points.len(),
        forall|j: int| 0 <= j < r.len() ==> r@[j] == clamp_u64(frame_to_ms(#[trigger] points@[j] as int)),
{
    let mut out: Vec<u64> = Vec::new();
    let mut i: usize = 0;
    while i < points.len()
        invariant
            0 <= i <= points.len(),
            out.len() == i,
            forall|j: int|
                0 <= j < i ==> out@[j] == clamp_u64(frame_to_ms(#[trigger] points@[j] as int)),
        decreases points.len() - i,
    {
        let p: u128 = points[i] as u128;
        let ms_wide: u128 = p * (HOP_SIZE as u128) * 1000 / (SAMPLE_RATE as u128);
        let ms: u64 = if ms_wide > (u64::MAX as u128) {
            u64::MAX
        } else {
            ms_wide as u64
        };
        out.push(ms);
        i = i + 1;
    }
    out
}

/// Whether `points` is exactly the sorted list of silence midpoints of the
/// profile at the threshold: each element is such a midpoint, every midpoint
/// of a long-enough maximal run occurs, and the list increases.
pub open spec fn is_silence_point_list(energy: Seq<u64>, threshold: u64, points: Seq<usize>) -> bool {
    &&& forall|j: int|
        0 <= j < points.len() ==> is_silence_point(energy, threshold, #[trigger] points[j] as int)
    &&& forall|a: int, b: int|
        #[trigger] is_silence_run(energy, threshold, a, b) && b - a >= MIN_SILENCE_FRAMES
            ==> points.contains((a + (b - a) / 2) as usize)
    &&& forall|j1: int, j2: int| 0 <= j1 < j2 < points.len() ==> points[j1] < points[j2]
}

/// Whether `sil` is the silence midpoints of the profile at the threshold,
/// converted to milliseconds of media time.
pub open spec fn is_silence_ms_list(energy: Seq<u64>, threshold: u64, sil: Seq<u64>) -> bool {
    exists|points: Seq<usize>|
        {
            &&& #[trigger] is_silence_point_list(energy, threshold, points)
            &&& sil.len() == points.len()
            &&& forall|j: int|
                0 <= j < sil.len() ==> sil[j] == clamp_u64(frame_to_ms(#[trigger] points[j] as int))
        }
}

} // verus!
