//! The shadow overflow observer.
//!
//! The observer polls the radix counter, decodes all six digits from one
//! sampled value, and declares a wraparound for a digit whenever its value
//! dropped since the previous sample. A declared wrap of digit `d` is
//! offered to every shadow slot: each enabled slot watching `d` bumps its
//! wrap tally, and on reaching its divisor resets the tally and advances its
//! shadow counter. Detection is a monotonic-decrease heuristic, not an exact
//! wrap count: however many times a digit truly wrapped between two samples,
//! one polling pass declares at most one wrap for it.

use vstd::prelude::*;

use crate::memory_worm::{
    MemoryWorm,
    ShadowConfig,
    MAX_SHADOWS,
    slot_advances,
    slot_after_wrap,
    spec_digit,
    u64_wrap_inc,
    decode,
};

verus! {

/// The observer's private state: the last sampled value of each digit.
/// It starts at all zeros, so the very first pass never declares a wrap
/// (no digit can be below zero).
pub struct Observer {
    /// Last observed value of each digit, indexed by digit.
    pub last_digits: Vec<u32>,
}

impl Observer {
    /// One remembered value per digit.
    pub open spec fn wf(self) -> bool {
        self.last_digits.len() == 6
    }

    /// A fresh observer that has seen every digit at zero.
    pub fn new() -> (o: Observer)
        ensures
            o.wf(),
            forall|d: int| 0 <= d < 6 ==> o.last_digits[d] == 0u32,
    {
        let mut last_digits: Vec<u32> = Vec::new();
        let mut i: usize = 0;
        while i < 6
            invariant
                i <= 6,
                last_digits.len() == i,
                forall|d: int| 0 <= d < i ==> last_digits[d] == 0u32,
            decreases 6 - i,
        {
            last_digits.push(0);
            i = i + 1;
        }
        Observer { last_digits }
    }
}

/// Whether the observer, remembering `last` and now sampling counter value
/// `v`, declares a wraparound for digit `d`: the sole detection rule is a
/// strict decrease of the digit's value.
pub open spec fn digit_wrapped(v: u64, last: Seq<u32>, d: int) -> bool {
    spec_digit(v, d) < last[d]
}

/// How one declared wrap of digit `digit` leaves slot `s`: a slot that is
/// enabled and watches `digit` takes one downsampling step (tally bumped or
/// reset, shadow counter advanced exactly when the tally reached the
/// divisor); every other slot, and its shadow counter, is untouched.
pub open spec fn slot_wrap_post(w0: MemoryWorm, w1: MemoryWorm, digit: int, s: int) -> bool {
    let c = w0.shadows[s];
    if c.enabled != 0 && c.source_digit == digit {
        w1.shadows[s] == slot_after_wrap(c) && w1.shadow_counters[s] == (if slot_advances(c) {
            u64_wrap_inc(w0.shadow_counters[s])
        } else {
            w0.shadow_counters[s]
        })
    } else {
        w1.shadows[s] == c && w1.shadow_counters[s] == w0.shadow_counters[s]
    }
}

/// Apply one declared wraparound of digit `digit` to the whole shadow
/// table: every enabled slot watching that digit takes one downsampling
/// step; disabled slots and slots watching other digits stay untouched, as
/// does the primary counter.
pub fn handle_overflow(worm: &mut MemoryWorm, digit: u8)
    requires
        old(worm).wf(),
        digit < 6,
    ensures
        final(worm).wf(),
        final(worm).counter == old(worm).counter,
        forall|s: int| 0 <= s < 6 ==> slot_wrap_post(*old(worm), *final(worm), digit as int, s),
{
    let mut shadow_id: usize = 0;
    while shadow_id < MAX_SHADOWS
        invariant
            worm.wf(),
            shadow_id <= 6,
            digit < 6,
            worm.counter == old(worm).counter,
            forall|s: int|
                0 <= s < shadow_id ==> slot_wrap_post(*old(worm), *worm, digit as int, s),
            forall|s: int|
                shadow_id <= s < 6 ==> worm.shadows[s] == old(worm).shadows[s]
                    && worm.shadow_counters[s] == old(worm).shadow_counters[s],
        decreases 6 - shadow_id,
    {
        let ghost prev = *worm;
        let c = worm.shadows[shadow_id];
        if c.enabled != 0 && c.source_digit == digit {
            let mut slot = c;
            let advanced = slot.record_wrap();
            worm.shadows[shadow_id] = slot;
            if advanced {
                let bumped = worm.shadow_counters[shadow_id].wrapping_add(1);
                worm.shadow_counters[shadow_id] = bumped;
            }
        }
        proof {
            assert forall|s: int|
                0 <= s < shadow_id + 1 implies slot_wrap_post(
                *old(worm),
                *worm,
                digit as int,
                s,
            ) by {
                if s < shadow_id {
                    assert(slot_wrap_post(*old(worm), prev, digit as int, s));
                    assert(worm.shadows[s] == prev.shadows[s]);
                    assert(worm.shadow_counters[s] == prev.shadow_counters[s]);
                }
            }
        }
        shadow_id = shadow_id + 1;
    }
}

/// What one polling pass over sampled counter value `v` does to slot `s`:
/// an enabled slot whose watched digit is declared wrapped takes one
/// downsampling step; a disabled slot, a slot bound to an index that names
/// no digit, and a slot whose digit did not wrap are untouched, shadow
/// counter included.
pub open spec fn observer_slot_post(
    w0: MemoryWorm,
    last: Seq<u32>,
    w1: MemoryWorm,
    s: int,
) -> bool {
    let c = w0.shadows[s];
    if c.enabled != 0 && c.source_digit < 6 && digit_wrapped(
        w0.counter,
        last,
        c.source_digit as int,
    ) {
        w1.shadows[s] == slot_after_wrap(c) && w1.shadow_counters[s] == (if slot_advances(c) {
            u64_wrap_inc(w0.shadow_counters[s])
        } else {
            w0.shadow_counters[s]
        })
    } else {
        w1.shadows[s] == c && w1.shadow_counters[s] == w0.shadow_counters[s]
    }
}

/// Whether slot `s` has already been offered its declared wrap once the
/// digits below `upto` have been examined against remembered values `last`:
/// the slot is enabled, watches a digit below `upto`, and that digit's
/// sampled value dropped below its remembered value.
pub open spec fn slot_wrap_seen(w0: MemoryWorm, last: Seq<u32>, s: int, upto: int) -> bool {
    let c = w0.shadows[s];
    c.enabled != 0 && (c.source_digit as int) < upto && digit_wrapped(
        w0.counter,
        last,
        c.source_digit as int,
    )
}

/// A slot's descriptor after `n` observed wraps of its watched digit, each
/// applied by one downsampling step.
pub open spec fn slot_after_wraps(c: ShadowConfig, n: nat) -> ShadowConfig
    decreases n,
{
    if n == 0 {
        c
    } else {
        slot_after_wrap(slot_after_wraps(c, (n - 1) as nat))
    }
}

/// How many times `n` observed wraps of the watched digit advance the
/// slot's shadow counter.
pub open spec fn slot_advance_count(c: ShadowConfig, n: nat) -> nat
    decreases n,
{
    if n == 0 {
        0
    } else {
        slot_advance_count(c, (n - 1) as nat) + (if slot_advances(
            slot_after_wraps(c, (n - 1) as nat),
        ) {
            1nat
        } else {
            0nat
        })
    }
}

/// While the tally is still short of the divisor, each observed wrap only
/// grows it by one and the shadow counter never advances: after `j` wraps
/// from a zero tally, with `j` below the divisor, the tally reads exactly
/// `j` and no advance has happened.
pub proof fn lemma_tally_grows(c: ShadowConfig, j: nat)
    requires
        c.overflow_count == 0,
        c.divisor >= 1,
        j < c.divisor,
    ensures
        slot_after_wraps(c, j) == (ShadowConfig { overflow_count: j as u32, ..c }),
        slot_advance_count(c, j) == 0,
    decreases j,
{
    if j > 0 {
        lemma_tally_grows(c, (j - 1) as nat);
        assert(!slot_advances(slot_after_wraps(c, (j - 1) as nat)));
    }
}

/// Shadow advancement: a slot whose tally starts at zero and whose divisor
/// is `k` advances its shadow counter exactly once over `k` observed wraps
/// of its watched digit, and its tally returns to zero.
pub proof fn lemma_shadow_advancement(c: ShadowConfig, k: u32)
    requires
        c.overflow_count == 0,
        c.divisor == k,
        k >= 1,
    ensures
        slot_advance_count(c, k as nat) == 1,
        slot_after_wraps(c, k as nat).overflow_count == 0,
{
    lemma_tally_grows(c, (k - 1) as nat);
    assert(slot_advances(slot_after_wraps(c, (k - 1) as nat)));
}

/// One polling pass of the observer loop: sample the counter once, decode
/// all six digits from that one sample, declare a wraparound for every
/// digit that dropped below its remembered value, drive the shadow slots
/// accordingly, and remember every digit's sampled value. The hosting loop
/// calls this repeatedly, forever; each pass is total and never fails.
pub fn run_observer(worm: &mut MemoryWorm, obs: &mut Observer)
    requires
        old(worm).wf(),
        old(obs).wf(),
    ensures
        final(worm).wf(),
        final(obs).wf(),
        final(worm).counter == old(worm).counter,
        forall|d: int|
            0 <= d < 6 ==> final(obs).last_digits[d] == spec_digit(old(worm).counter, d),
        forall|s: int|
            0 <= s < 6 ==> observer_slot_post(
                *old(worm),
                old(obs).last_digits@,
                *final(worm),
                s,
            ),
{
    let ghost last0 = old(obs).last_digits@;
    let current = worm.full();
    let mut d: usize = 0;
    while d < 6
        invariant
            worm.wf(),
            obs.wf(),
            d <= 6,
            last0 == old(obs).last_digits@,
            current == old(worm).counter,
            worm.counter == old(worm).counter,
            forall|j: int|
                0 <= j < d ==> obs.last_digits[j] == spec_digit(old(worm).counter, j),
            forall|j: int| d <= j < 6 ==> obs.last_digits[j] == old(obs).last_digits[j],
            forall|s: int|
                0 <= s < 6 && slot_wrap_seen(*old(worm), last0, s, d as int)
                    ==> observer_slot_post(*old(worm), last0, *worm, s),
            forall|s: int|
                0 <= s < 6 && !slot_wrap_seen(*old(worm), last0, s, d as int)
                    ==> worm.shadows[s] == old(worm).shadows[s] && worm.shadow_counters[s] == old(
                    worm,
                ).shadow_counters[s],
        decreases 6 - d,
    {
        let ghost prev = *worm;
        let current_value = decode(current, d);
        let last_value = obs.last_digits[d];
        let wrapped = current_value < last_value;
        if wrapped {
            handle_overflow(worm, d as u8);
        }
        proof {
            assert(last_value == last0[d as int]);
            assert(current_value == spec_digit(old(worm).counter, d as int));
            assert(wrapped == digit_wrapped(old(worm).counter, last0, d as int));
            assert forall|s: int|
                0 <= s < 6 && slot_wrap_seen(*old(worm), last0, s, d as int + 1) implies
                observer_slot_post(*old(worm), last0, *worm, s) by {
                let c = old(worm).shadows[s];
                if slot_wrap_seen(*old(worm), last0, s, d as int) {
                    assert(observer_slot_post(*old(worm), last0, prev, s));
                    if wrapped {
                        assert(slot_wrap_post(prev, *worm, d as int, s));
                        assert(c.source_digit as int != d as int);
                        assert(prev.shadows[s].source_digit == c.source_digit);
                    }
                } else {
                    assert(c.source_digit as int == d as int && wrapped);
                    assert(prev.shadows[s] == c && prev.shadow_counters[s] == old(
                        worm,
                    ).shadow_counters[s]);
                    assert(slot_wrap_post(prev, *worm, d as int, s));
                }
            }
            assert forall|s: int|
                0 <= s < 6 && !slot_wrap_seen(*old(worm), last0, s, d as int + 1) implies
                worm.shadows[s] == old(worm).shadows[s] && worm.shadow_counters[s] == old(
                worm,
            ).shadow_counters[s] by {
                let c = old(worm).shadows[s];
                assert(!slot_wrap_seen(*old(worm), last0, s, d as int));
                if wrapped {
                    assert(slot_wrap_post(prev, *worm, d as int, s));
                    assert(prev.shadows[s] == c);
                }
            }
        }
        obs.last_digits[d] = current_value;
        d = d + 1;
    }
}

/// A detected wrap drives exactly one downsampling step: in a pass whose
/// sample drops an enabled slot's watched digit below its remembered value,
/// the slot's descriptor takes one `slot_after_wrap` step and its shadow
/// counter advances precisely when the tally reached the divisor.
pub proof fn lemma_detected_wrap_steps_slot(
    w0: MemoryWorm,
    last: Seq<u32>,
    w1: MemoryWorm,
    s: int,
)
    requires
        0 <= s < 6,
        observer_slot_post(w0, last, w1, s),
        w0.shadows[s].enabled != 0,
        (w0.shadows[s].source_digit as int) < 6,
        digit_wrapped(w0.counter, last, w0.shadows[s].source_digit as int),
    ensures
        w1.shadows[s] == slot_after_wrap(w0.shadows[s]),
        w1.shadow_counters[s] == (if slot_advances(w0.shadows[s]) {
            u64_wrap_inc(w0.shadow_counters[s])
        } else {
            w0.shadow_counters[s]
        }),
{
}

/// Single-wrap detection: a digit sampled at `v2` after being remembered at
/// `v1` with `v2 < v1` is declared wrapped exactly once in that pass — an
/// enabled slot bound to it with divisor one advances its shadow counter by
/// exactly one and its tally returns to zero.
pub proof fn lemma_single_wrap_detection(w0: MemoryWorm, last: Seq<u32>, w1: MemoryWorm, s: int)
    requires
        0 <= s < 6,
        observer_slot_post(w0, last, w1, s),
        w0.shadows[s].enabled != 0,
        (w0.shadows[s].source_digit as int) < 6,
        digit_wrapped(w0.counter, last, w0.shadows[s].source_digit as int),
        w0.shadows[s].divisor == 1,
    ensures
        w1.shadow_counters[s] == u64_wrap_inc(w0.shadow_counters[s]),
        w1.shadows[s].overflow_count == 0,
{
}

/// Wraps collapse per pass: however many times a digit truly wrapped
/// between two consecutive samples, one polling pass advances a slot's
/// shadow counter at most once. Detection undercounts when the sampling
/// interval is coarse relative to the increment rate; this is the accepted
/// lossiness of the monotonic-decrease heuristic.
pub proof fn lemma_wraps_collapse_per_pass(w0: MemoryWorm, last: Seq<u32>, w1: MemoryWorm, s: int)
    requires
        0 <= s < 6,
        observer_slot_post(w0, last, w1, s),
    ensures
        w1.shadow_counters[s] == w0.shadow_counters[s] || w1.shadow_counters[s] == u64_wrap_inc(
            w0.shadow_counters[s],
        ),
{
}

/// A counter value advanced by `n` wrapping increments of one.
pub open spec fn u64_wrap_incs(x: u64, n: nat) -> u64
    decreases n,
{
    if n == 0 {
        x
    } else {
        u64_wrap_inc(u64_wrap_incs(x, (n - 1) as nat))
    }
}

/// Pass `i` of a run of polling passes, as it affects slot `s`: the pass
/// takes state `worms[i]` with remembered digits `lasts[i]` to state
/// `worms[i + 1]`, the slot is enabled and bound to a digit, and that digit
/// is declared wrapped in the pass.
pub open spec fn wrap_pass(worms: Seq<MemoryWorm>, lasts: Seq<Seq<u32>>, s: int, i: int) -> bool {
    observer_slot_post(worms[i], lasts[i], worms[i + 1], s) && worms[i].shadows[s].enabled != 0 && (
    worms[i].shadows[s].source_digit as int) < 6 && digit_wrapped(
        worms[i].counter,
        lasts[i],
        worms[i].shadows[s].source_digit as int,
    )
}

/// A run of polling passes, each declaring a wrap of slot `s`'s watched
/// digit: `worms` is the chain of states, `lasts` the remembered digits
/// each pass compared against.
pub open spec fn wrap_run(worms: Seq<MemoryWorm>, lasts: Seq<Seq<u32>>, s: int) -> bool {
    worms.len() == lasts.len() + 1 && forall|i: int|
        0 <= i < lasts.len() ==> #[trigger] wrap_pass(worms, lasts, s, i)
}

/// Over a run of passes each declaring a wrap of slot `s`'s watched digit,
/// the slot's descriptor takes one downsampling step per pass and its
/// shadow counter advances once per step whose tally reached the divisor.
pub proof fn lemma_wrap_run_steps(worms: Seq<MemoryWorm>, lasts: Seq<Seq<u32>>, s: int)
    requires
        0 <= s < 6,
        wrap_run(worms, lasts, s),
    ensures
        worms.last().shadows[s] == slot_after_wraps(worms[0].shadows[s], lasts.len()),
        worms.last().shadow_counters[s] == u64_wrap_incs(
            worms[0].shadow_counters[s],
            slot_advance_count(worms[0].shadows[s], lasts.len()),
        ),
    decreases lasts.len(),
{
    let n = lasts.len() as int;
    if n > 0 {
        let pw = worms.subrange(0, n);
        let pl = lasts.subrange(0, n - 1);
        assert forall|i: int| 0 <= i < pl.len() implies #[trigger] wrap_pass(pw, pl, s, i) by {
            assert(wrap_pass(worms, lasts, s, i));
            assert(pw[i] == worms[i] && pw[i + 1] == worms[i + 1] && pl[i] == lasts[i]);
        }
        lemma_wrap_run_steps(pw, pl, s);
        assert(wrap_pass(worms, lasts, s, n - 1));
        assert(pw.last() == worms[n - 1]);
    }
}

/// Shadow advancement: a slot enabled, bound to digit `d`, with divisor `k`
/// and a tally starting at zero, advances its shadow counter by exactly one
/// over a run of `k` passes each declaring a wrap of `d` (and touching no
/// other event of the slot), and its tally returns to zero.
pub proof fn lemma_shadow_advancement_over_passes(
    worms: Seq<MemoryWorm>,
    lasts: Seq<Seq<u32>>,
    s: int,
    k: u32,
)
    requires
        0 <= s < 6,
        wrap_run(worms, lasts, s),
        lasts.len() == k,
        k >= 1,
        worms[0].shadows[s].overflow_count == 0,
        worms[0].shadows[s].divisor == k,
    ensures
        worms.last().shadow_counters[s] == u64_wrap_inc(worms[0].shadow_counters[s]),
        worms.last().shadows[s].overflow_count == 0,
{
    lemma_wrap_run_steps(worms, lasts, s);
    lemma_shadow_advancement(worms[0].shadows[s], k);
    let x = worms[0].shadow_counters[s];
    assert(u64_wrap_incs(x, 0) == x);
    assert(u64_wrap_incs(x, 1) == u64_wrap_inc(x));
}

/// Pass `i` of a run of polling passes in which slot `s` sees nothing: the
/// slot is disabled, or bound past the last digit, or its watched digit is
/// not declared wrapped — whatever the pass declared for other digits.
pub open spec fn idle_pass(worms: Seq<MemoryWorm>, lasts: Seq<Seq<u32>>, s: int, i: int) -> bool {
    observer_slot_post(worms[i], lasts[i], worms[i + 1], s) && (worms[i].shadows[s].enabled == 0
        || (worms[i].shadows[s].source_digit as int) >= 6 || !digit_wrapped(
        worms[i].counter,
        lasts[i],
        worms[i].shadows[s].source_digit as int,
    ))
}

/// Disabled or mismatched slots never advance, over any number of passes:
/// however many wraps the passes declare for other digits, a slot that is
/// disabled or whose own watched digit never wraps keeps its descriptor and
/// its shadow counter unchanged through the whole run.
pub proof fn lemma_never_advance_over_passes(worms: Seq<MemoryWorm>, lasts: Seq<Seq<u32>>, s: int)
    requires
        0 <= s < 6,
        worms.len() == lasts.len() + 1,
        forall|i: int| 0 <= i < lasts.len() ==> #[trigger] idle_pass(worms, lasts, s, i),
    ensures
        worms.last().shadows[s] == worms[0].shadows[s],
        worms.last().shadow_counters[s] == worms[0].shadow_counters[s],
    decreases lasts.len(),
{
    let n = lasts.len() as int;
    if n > 0 {
        let pw = worms.subrange(0, n);
        let pl = lasts.subrange(0, n - 1);
        assert forall|i: int| 0 <= i < pl.len() implies #[trigger] idle_pass(pw, pl, s, i) by {
            assert(idle_pass(worms, lasts, s, i));
            assert(pw[i] == worms[i] && pw[i + 1] == worms[i + 1] && pl[i] == lasts[i]);
        }
        lemma_never_advance_over_passes(pw, pl, s);
        assert(idle_pass(worms, lasts, s, n - 1));
        assert(pw.last() == worms[n - 1]);
    }
}

/// Disabled or mismatched slots never advance: a slot that is disabled,
/// bound to an index that names no digit, or whose watched digit was not
/// declared wrapped in the pass keeps its descriptor and its shadow counter
/// unchanged, no matter what happened to the other digits.
pub proof fn lemma_disabled_or_mismatched_untouched(
    w0: MemoryWorm,
    last: Seq<u32>,
    w1: MemoryWorm,
    s: int,
)
    requires
        0 <= s < 6,
        observer_slot_post(w0, last, w1, s),
        w0.shadows[s].enabled == 0 || (w0.shadows[s].source_digit as int) >= 6 || !digit_wrapped(
            w0.counter,
            last,
            w0.shadows[s].source_digit as int,
        ),
    ensures
        w1.shadows[s] == w0.shadows[s],
        w1.shadow_counters[s] == w0.shadow_counters[s],
{
}

} // verus!
