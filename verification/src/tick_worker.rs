//! The tick producer.
//!
//! The producer's only effect is to advance the primary radix counter by
//! wrapping increments of one, as fast as its execution context allows. It
//! knows nothing of digits or shadows. The hosting layer spins forever;
//! here the advance is stated and proved for any number of ticks at once.

use vstd::prelude::*;

use vstd::arithmetic::div_mod::{lemma_mod_self_0, lemma_small_mod, lemma_add_mod_noop};

use crate::memory_worm::MemoryWorm;

verus! {

/// 2^64, the modulus of the primary counter.
pub const COUNTER_MODULUS: u128 = 0x1_0000_0000_0000_0000;

/// Advance the primary counter by `ticks` increments of one, each wrapping
/// silently modulo 2^64. After `ticks` calls from counter value `c`, the
/// counter reads `(c + ticks) mod 2^64`; nothing else changes.
pub fn run_tick_producer(worm: &mut MemoryWorm, ticks: u64)
    requires
        old(worm).wf(),
    ensures
        final(worm).wf(),
        final(worm).counter as int == (old(worm).counter + ticks) % (COUNTER_MODULUS as int),
        final(worm).shadows == old(worm).shadows,
        final(worm).shadow_counters == old(worm).shadow_counters,
{
    let ghost m = COUNTER_MODULUS as int;
    let ghost c0 = old(worm).counter as int;
    proof {
        lemma_small_mod(old(worm).counter as nat, COUNTER_MODULUS as nat);
    }
    let mut i: u64 = 0;
    while i < ticks
        invariant
            worm.wf(),
            i <= ticks,
            m == COUNTER_MODULUS as int,
            c0 == old(worm).counter as int,
            worm.counter as int == (c0 + i) % m,
            worm.shadows == old(worm).shadows,
            worm.shadow_counters == old(worm).shadow_counters,
        decreases ticks - i,
    {
        let ghost prev = worm.counter as int;
        worm.tick();
        proof {
            assert(worm.counter as int == (prev + 1) % m) by {
                if prev == m - 1 {
                    lemma_mod_self_0(m);
                } else {
                    lemma_small_mod((prev + 1) as nat, m as nat);
                }
            }
            lemma_small_mod(1nat, m as nat);
            lemma_add_mod_noop(c0 + i, 1, m);
            assert(((c0 + i) % m + 1int % m) % m == (c0 + i + 1) % m);
        }
        i = i + 1;
    }
}

} // verus!

