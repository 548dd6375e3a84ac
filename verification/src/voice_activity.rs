//! Energy-based voice activity detection on canonical audio.
//!
//! The regions found here are advice for tuning the recognizer. Nothing in
//! this crate removes audio because it lies outside of them: a region that
//! was missed would otherwise delete real speech.

use vstd::prelude::*;

verus! {

/// The length of a window: 100 ms of canonical audio.
pub const WINDOW: usize = 1600;

/// The padding added before and after a run of speech: two windows.
pub const PADDING: usize = 3200;

/// The energy above which a window counts as speech, in units of the square
/// of `1 / SAMPLE_SCALE`: a mean squared amplitude of 0.000 01, which only
/// true silence stays below.
pub const SILENCE_THRESHOLD: u64 = 10_995_116_277_760;

/// The sum of the squares of `window`.
pub open spec fn energy_sum(window: Seq<i32>) -> nat
    decreases window.len(),
{
    if window.len() == 0 {
        0
    } else {
        energy_sum(window.drop_last()) + (window.last() * window.last()) as nat
    }
}

/// Whether `window` holds speech: it is not empty and its mean squared
/// amplitude exceeds `threshold`.
pub open spec fn speech_in(window: Seq<i32>, threshold: nat) -> bool {
    window.len() > 0 && energy_sum(window) > threshold * window.len()
}

/// How many windows `len` samples make; the last may be shorter.
pub open spec fn window_count(len: nat) -> nat {
    (len + WINDOW - 1) as nat / (WINDOW as nat)
}

/// The `k`-th window of `samples`.
pub open spec fn window_of(samples: Seq<i32>, k: int) -> Seq<i32> {
    let from = k * WINDOW;
    let to = if from + WINDOW < samples.len() {
        from + WINDOW
    } else {
        samples.len() as int
    };
    samples.subrange(from, to)
}

/// The region of a run of speech that began at the sample `from` and ended
/// before the sample `to`, padded on both sides and cut to the buffer.
pub open spec fn padded(from: int, to: int, len: int) -> (int, int) {
    (
        if from >= PADDING {
            from - PADDING
        } else {
            0
        },
        if to + PADDING < len {
            to + PADDING
        } else {
            len
        },
    )
}

/// The regions found from the `k`-th window on, where `open` holds the first
/// sample of a run of speech that is under way.
pub open spec fn regions_from(samples: Seq<i32>, threshold: nat, k: int, open: Option<int>) -> Seq<
    (int, int),
>
    decreases window_count(samples.len()) - k,
{
    let len = samples.len() as int;
    if k < 0 || k >= window_count(samples.len()) {
        match open {
            Some(from) => seq![padded(from, len, len)],
            None => Seq::empty(),
        }
    } else {
        let speech = speech_in(window_of(samples, k), threshold);
        match open {
            None => if speech {
                regions_from(samples, threshold, k + 1, Some(k * WINDOW))
            } else {
                regions_from(samples, threshold, k + 1, None)
            },
            Some(from) => if speech {
                regions_from(samples, threshold, k + 1, open)
            } else {
                seq![padded(from, k * WINDOW, len)] + regions_from(samples, threshold, k + 1, None)
            },
        }
    }
}

/// The regions of `samples` that may hold speech: each run of windows with
/// speech, padded; the whole buffer if no window holds speech.
pub open spec fn speech_regions(samples: Seq<i32>, threshold: nat) -> Seq<(int, int)> {
    let found = regions_from(samples, threshold, 0, None);
    if found.len() == 0 {
        seq![(0, samples.len() as int)]
    } else {
        found
    }
}

/// What a list of regions holds.
pub open spec fn region_values(regions: Seq<(usize, usize)>) -> Seq<(int, int)> {
    Seq::new(regions.len(), |i: int| (regions[i].0 as int, regions[i].1 as int))
}

/// Whether every region lies within a buffer of `len` samples and none is
/// reversed.
pub open spec fn regions_within(regions: Seq<(int, int)>, len: int) -> bool {
    forall|i: int| 0 <= i < regions.len() ==> 0 <= (#[trigger] regions[i]).0 <= regions[i].1 <= len
}

proof fn lemma_energy_bound(window: Seq<i32>)
    ensures
        energy_sum(window) <= window.len() * 0x4000_0000_0000_0000,
    decreases window.len(),
{
    if window.len() > 0 {
        lemma_energy_bound(window.drop_last());
        let x = window.last() as int;
        assert(x * x <= 0x4000_0000_0000_0000) by (nonlinear_arith)
            requires
                -0x8000_0000 <= x <= 0x7fff_ffff,
        ;
        assert(x * x >= 0) by (nonlinear_arith);
    }
}

/// Whether `window` holds speech: its mean squared amplitude exceeds
/// `threshold`. An empty window holds none.
pub fn has_speech(window: &[i32], threshold: u64) -> (r: bool)
    ensures
        r == speech_in(window@, threshold as nat),
{
    let n = window.len();
    if n == 0 {
        return false;
    }
    let mut sum: u128 = 0;
    let mut i: usize = 0;
    proof {
        assert(window@.take(0) =~= Seq::<i32>::empty());
    }
    while i < n
        invariant
            i <= n == window.len(),
            sum == energy_sum(window@.take(i as int)),
        decreases n - i,
    {
        let x: i64 = window[i] as i64;
        proof {
            let next = window@.take(i + 1);
            assert(next.drop_last() =~= window@.take(i as int));
            assert(next.last() == window@[i as int]);
            lemma_energy_bound(next);
            assert(next.len() * 0x4000_0000_0000_0000 <= 0xffff_ffff_ffff_ffff
                * 0x4000_0000_0000_0000) by (nonlinear_arith)
                requires
                    next.len() <= 0xffff_ffff_ffff_ffff,
            ;
            assert(0 <= x * x <= 0x4000_0000_0000_0000) by (nonlinear_arith)
                requires
                    -0x8000_0000 <= x <= 0x7fff_ffff,
            ;
        }
        let square: i64 = x * x;
        sum = sum + (square as u128);
        i += 1;
    }
    proof {
        assert(window@.take(n as int) =~= window@);
        assert(threshold * n <= 0xffff_ffff_ffff_ffff * 0xffff_ffff_ffff_ffff) by (nonlinear_arith)
            requires
                threshold <= 0xffff_ffff_ffff_ffff,
                n <= 0xffff_ffff_ffff_ffff,
        ;
    }
    let bar: u128 = (threshold as u128) * (n as u128);
    sum > bar
}

proof fn lemma_regions_within(samples: Seq<i32>, threshold: nat, k: int, open: Option<int>)
    requires
        0 <= k,
        open matches Some(from) ==> 0 <= from <= k * WINDOW && from <= samples.len(),
        k * WINDOW <= samples.len() + WINDOW,
    ensures
        regions_within(regions_from(samples, threshold, k, open), samples.len() as int),
    decreases window_count(samples.len()) - k,
{
    let len = samples.len() as int;
    if k >= window_count(samples.len()) {
    } else {
        assert(k * WINDOW < len && (k + 1) * WINDOW <= len + WINDOW) by {
            assert((k + 1) * WINDOW == k * WINDOW + WINDOW) by (nonlinear_arith);
            let c = window_count(samples.len()) as int;
            assert(c * 1600 <= len + 1599) by (nonlinear_arith)
                requires
                    c == (len + 1599) / 1600,
                    len >= 0,
            ;
            assert((k + 1) * 1600 <= c * 1600) by (nonlinear_arith)
                requires
                    k + 1 <= c,
            ;
        }
        let speech = speech_in(window_of(samples, k), threshold);
        match open {
            None => {
                if speech {
                    lemma_regions_within(samples, threshold, k + 1, Some(k * WINDOW));
                } else {
                    lemma_regions_within(samples, threshold, k + 1, None);
                }
            },
            Some(from) => {
                if speech {
                    lemma_regions_within(samples, threshold, k + 1, open);
                } else {
                    lemma_regions_within(samples, threshold, k + 1, None);
                }
            },
        }
    }
}

/// The regions of speech are never empty as a list, and each lies within
/// the buffer.
pub proof fn lemma_speech_regions_cover(samples: Seq<i32>, threshold: nat)
    ensures
        speech_regions(samples, threshold).len() >= 1,
        regions_within(speech_regions(samples, threshold), samples.len() as int),
{
    assert(0 * WINDOW == 0) by (nonlinear_arith);
    lemma_regions_within(samples, threshold, 0, None);
}

/// The regions of `samples` that may hold speech, in order. The buffer is
/// cut into windows of `WINDOW` samples; each run of windows whose energy
/// exceeds `SILENCE_THRESHOLD` gives one region, padded by `PADDING` samples
/// on both sides and cut to the buffer. If no window holds speech the one
/// region is the whole buffer.
pub fn segment_speech(samples: &Vec<i32>) -> (regions: Vec<(usize, usize)>)
    ensures
        region_values(regions@) == speech_regions(samples@, SILENCE_THRESHOLD as nat),
        regions.len() >= 1,
        forall|i: int|
            0 <= i < regions.len() ==> (#[trigger] regions[i]).0 <= regions[i].1 <= samples.len(),
{
    let ghost threshold = SILENCE_THRESHOLD as nat;
    let len = samples.len();
    let mut regions: Vec<(usize, usize)> = Vec::new();
    let mut open: Option<usize> = None;
    let mut from: usize = 0;
    let ghost mut k: int = 0;
    proof {
        assert(region_values(regions@) + regions_from(samples@, threshold, 0, None)
            =~= regions_from(samples@, threshold, 0, None));
        assert(0 * WINDOW == 0) by (nonlinear_arith);
    }
    while from < len
        invariant
            len == samples.len(),
            threshold == SILENCE_THRESHOLD as nat,
            0 <= k,
            from == k * WINDOW || (from == len && k >= window_count(len as nat)),
            open matches Some(s) ==> s <= from,
            regions_from(samples@, threshold, 0, None) == region_values(regions@) + regions_from(
                samples@,
                threshold,
                k,
                match open {
                    Some(s) => Some(s as int),
                    None => None,
                },
            ),
        decreases len - from,
    {
        let to: usize = if len - from > WINDOW {
            from + WINDOW
        } else {
            len
        };
        proof {
            assert(k < window_count(len as nat)) by (nonlinear_arith)
                requires
                    from == k * 1600,
                    from < len,
                    k >= 0,
                    window_count(len as nat) == (len + 1599) / 1600,
            ;
            assert((k + 1) * WINDOW == k * WINDOW + WINDOW) by (nonlinear_arith);
        }
        let window = vstd::slice::slice_subrange(samples.as_slice(), from, to);
        assert(window@ =~= window_of(samples@, k));
        let speech = has_speech(window, SILENCE_THRESHOLD);
        match open {
            None => {
                if speech {
                    open = Some(from);
                }
            },
            Some(s) => {
                if !speech {
                    let begin: usize = if s >= PADDING {
                        s - PADDING
                    } else {
                        0
                    };
                    let end: usize = if len - from > PADDING {
                        from + PADDING
                    } else {
                        len
                    };
                    let ghost before = region_values(regions@);
                    regions.push((begin, end));
                    open = None;
                    proof {
                        let region = padded(s as int, from as int, len as int);
                        assert(region_values(regions@) =~= before + seq![region]);
                        assert(before + (seq![region] + regions_from(
                            samples@,
                            threshold,
                            k + 1,
                            None,
                        )) =~= region_values(regions@) + regions_from(
                            samples@,
                            threshold,
                            k + 1,
                            None,
                        ));
                    }
                }
            },
        }
        proof {
            if to == len && len - from <= WINDOW {
                assert(k + 1 >= window_count(len as nat)) by (nonlinear_arith)
                    requires
                        from == k * 1600,
                        len - from <= 1600,
                        window_count(len as nat) == (len + 1599) / 1600,
                ;
            }
            k = k + 1;
        }
        from = to;
    }
    proof {
        if from == k * WINDOW {
            assert(k >= window_count(len as nat)) by (nonlinear_arith)
                requires
                    from == k * 1600,
                    from >= len,
                    window_count(len as nat) == (len + 1599) / 1600,
            ;
        }
    }
    match open {
        Some(s) => {
            let begin: usize = if s >= PADDING {
                s - PADDING
            } else {
                0
            };
            let ghost before = region_values(regions@);
            regions.push((begin, len));
            proof {
                assert(region_values(regions@) =~= before + seq![padded(s as int, len as int, len as int)]);
            }
        },
        None => {
            assert(region_values(regions@) =~= region_values(regions@) + Seq::<(int, int)>::empty());
        },
    }
    if regions.len() == 0 {
        regions.push((0, len));
        assert(region_values(regions@) =~= seq![(0int, len as int)]);
    }
    proof {
        lemma_speech_regions_cover(samples@, threshold);
        let all = region_values(regions@);
        assert forall|i: int| 0 <= i < regions.len() implies (#[trigger] regions[i]).0
            <= regions[i].1 <= samples.len() by {
            assert(all[i] == (regions[i].0 as int, regions[i].1 as int));
        }
    }
    regions
}

} // verus!
