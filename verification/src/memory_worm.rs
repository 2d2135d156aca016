//! The radix counter and the shared-state model it lives in.
//!
//! One 64-bit value holds six packed digits, named P0 through P5 from least
//! to most significant. Decoding a digit is pure bit extraction: shift right
//! by the digit's offset, mask to its width. The whole value is advanced by
//! wrapping increments of one, so a digit's overflow carries into the next
//! digit through ordinary binary carry; no digit is stored separately.

use vstd::prelude::*;

verus! {

/// Number of shadow slots.
pub const MAX_SHADOWS: usize = 6;

/// Bit widths of the six digits: P0 and P5 are 12 bits wide, the rest 10.
pub const P0_BITS: u32 = 12;
pub const P1_BITS: u32 = 10;
pub const P2_BITS: u32 = 10;
pub const P3_BITS: u32 = 10;
pub const P4_BITS: u32 = 10;
pub const P5_BITS: u32 = 12;

/// Bit offsets of the six digits inside the 64-bit counter.
pub const P0_SHIFT: u32 = 0;
pub const P1_SHIFT: u32 = 12;
pub const P2_SHIFT: u32 = 22;
pub const P3_SHIFT: u32 = 32;
pub const P4_SHIFT: u32 = 42;
pub const P5_SHIFT: u32 = 52;

/// Masks selecting each digit once shifted down.
pub const P0_MASK: u64 = 0xFFF;
pub const P1_MASK: u64 = 0x3FF;
pub const P2_MASK: u64 = 0x3FF;
pub const P3_MASK: u64 = 0x3FF;
pub const P4_MASK: u64 = 0x3FF;
pub const P5_MASK: u64 = 0xFFF;

/// Bit offset of digit `d`.
pub open spec fn field_shift(d: int) -> u64 {
    if d == 0 {
        0
    } else if d == 1 {
        12
    } else if d == 2 {
        22
    } else if d == 3 {
        32
    } else if d == 4 {
        42
    } else {
        52
    }
}

/// Mask of digit `d` after shifting it down.
pub open spec fn field_mask(d: int) -> u64 {
    if d == 0 || d == 5 {
        0xFFF
    } else {
        0x3FF
    }
}

/// The value of digit `d` of counter value `v`: pure bit extraction.
pub open spec fn spec_digit(v: u64, d: int) -> u64 {
    (v >> field_shift(d)) & field_mask(d)
}

/// A 64-bit counter value advanced by one, wrapping modulo 2^64.
pub open spec fn u64_wrap_inc(x: u64) -> u64 {
    if x == 0xFFFF_FFFF_FFFF_FFFFu64 {
        0u64
    } else {
        (x + 1) as u64
    }
}

/// Every digit is narrower than 32 bits, so each fits in a `u32`.
pub proof fn lemma_digit_fits_u32(v: u64, d: int)
    requires
        0 <= d < 6,
    ensures
        spec_digit(v, d) <= 0xFFF,
{
    let s = field_shift(d);
    let m = field_mask(d);
    assert((v >> s) & m <= 0xFFF) by (bit_vector)
        requires
            m == 0xFFF || m == 0x3FF,
    ;
}

/// Pure bit extraction of digit `field_index` out of a 64-bit counter value.
pub fn decode(value: u64, field_index: usize) -> (r: u32)
    requires
        field_index < 6,
    ensures
        r == spec_digit(value, field_index as int),
{
    proof {
        lemma_digit_fits_u32(value, field_index as int);
    }
    if field_index == 0 {
        ((value >> P0_SHIFT) & P0_MASK) as u32
    } else if field_index == 1 {
        ((value >> P1_SHIFT) & P1_MASK) as u32
    } else if field_index == 2 {
        ((value >> P2_SHIFT) & P2_MASK) as u32
    } else if field_index == 3 {
        ((value >> P3_SHIFT) & P3_MASK) as u32
    } else if field_index == 4 {
        ((value >> P4_SHIFT) & P4_MASK) as u32
    } else {
        ((value >> P5_SHIFT) & P5_MASK) as u32
    }
}

/// One shadow slot's runtime-mutable descriptor: whether the slot is
/// enabled, which digit it watches, how many observed wraps of that digit
/// advance the shadow counter once, and the running tally of wraps seen
/// since the last advance. An external controller may rewrite any of these
/// fields at any time, so no field value is ever invalid.
#[derive(Copy, Clone, Debug, PartialEq, Eq, Structural)]
pub struct ShadowConfig {
    /// Nonzero means the slot is active.
    pub enabled: u8,
    /// Index of the watched digit; only values 0 through 5 select a digit.
    pub source_digit: u8,
    /// Padding kept for layout compatibility with the shared-memory record.
    pub reserved1: u16,
    /// Number of observed wraps required per shadow-counter advance.
    pub divisor: u32,
    /// Wraps observed since the shadow counter last advanced.
    pub overflow_count: u32,
    /// Padding kept for layout compatibility with the shared-memory record.
    pub reserved2: u32,
}

/// Whether one more observed wrap makes the slot's tally reach its divisor,
/// advancing the shadow counter and resetting the tally in the same step.
pub open spec fn slot_advances(c: ShadowConfig) -> bool {
    c.overflow_count + 1 >= c.divisor
}

/// The slot's descriptor after one observed wrap of its watched digit: the
/// tally either resets to zero (when it reached the divisor) or grows by one.
pub open spec fn slot_after_wrap(c: ShadowConfig) -> ShadowConfig {
    ShadowConfig {
        overflow_count: if slot_advances(c) {
            0u32
        } else {
            (c.overflow_count + 1) as u32
        },
        ..c
    }
}

impl ShadowConfig {
    /// A zero-initialized, disabled slot with the neutral divisor of one.
    pub fn new() -> (c: ShadowConfig)
        ensures
            c.enabled == 0,
            c.source_digit == 0,
            c.reserved1 == 0,
            c.divisor == 1,
            c.overflow_count == 0,
            c.reserved2 == 0,
    {
        ShadowConfig {
            enabled: 0,
            source_digit: 0,
            reserved1: 0,
            divisor: 1,
            overflow_count: 0,
            reserved2: 0,
        }
    }

    /// Record one observed wrap of the watched digit: bump the tally, and
    /// when it reaches the divisor reset it to zero and report that the
    /// shadow counter must advance. A divisor of zero is degenerate (an
    /// external controller can write one) and always advances.
    pub fn record_wrap(&mut self) -> (advanced: bool)
        ensures
            advanced == slot_advances(*old(self)),
            *final(self) == slot_after_wrap(*old(self)),
    {
        if self.divisor == 0 || self.overflow_count >= self.divisor - 1 {
            self.overflow_count = 0;
            true
        } else {
            self.overflow_count = self.overflow_count + 1;
            false
        }
    }
}

/// The shared-state model: the primary radix counter, the shadow
/// configuration table and the shadow counters, as one owned value. The
/// hosting layer keeps the real region in shared memory; this model is what
/// the update rules are stated and proved over.
pub struct MemoryWorm {
    /// The primary radix counter.
    pub counter: u64,
    /// The shadow configuration table, one record per slot.
    pub shadows: Vec<ShadowConfig>,
    /// The shadow counters, one per slot, advanced only by the observer.
    pub shadow_counters: Vec<u64>,
}

impl MemoryWorm {
    /// Both per-slot tables hold exactly one entry per shadow slot.
    pub open spec fn wf(self) -> bool {
        self.shadows.len() == MAX_SHADOWS && self.shadow_counters.len() == MAX_SHADOWS
    }

    /// A zeroed region: counter at zero, every slot disabled and
    /// zero-initialized, every shadow counter at zero.
    pub fn new() -> (w: MemoryWorm)
        ensures
            w.wf(),
            w.counter == 0,
            forall|s: int| 0 <= s < 6 ==> w.shadows[s] == (ShadowConfig {
                enabled: 0u8,
                source_digit: 0u8,
                reserved1: 0u16,
                divisor: 1u32,
                overflow_count: 0u32,
                reserved2: 0u32,
            }),
            forall|s: int| 0 <= s < 6 ==> w.shadow_counters[s] == 0u64,
    {
        let mut shadows: Vec<ShadowConfig> = Vec::new();
        let mut shadow_counters: Vec<u64> = Vec::new();
        let mut i: usize = 0;
        while i < MAX_SHADOWS
            invariant
                i <= 6,
                shadows.len() == i,
                shadow_counters.len() == i,
                forall|s: int| 0 <= s < i ==> shadows[s] == (ShadowConfig {
                    enabled: 0u8,
                    source_digit: 0u8,
                    reserved1: 0u16,
                    divisor: 1u32,
                    overflow_count: 0u32,
                    reserved2: 0u32,
                }),
                forall|s: int| 0 <= s < i ==> shadow_counters[s] == 0u64,
            decreases 6 - i,
        {
            shadows.push(ShadowConfig::new());
            shadow_counters.push(0);
            i = i + 1;
        }
        MemoryWorm { counter: 0, shadows, shadow_counters }
    }

    /// One tick: advance the primary counter by one, wrapping silently
    /// modulo 2^64. Never fails; touches nothing else.
    pub fn tick(&mut self)
        ensures
            final(self).counter == u64_wrap_inc(old(self).counter),
            final(self).counter as int == (old(self).counter + 1) % 0x1_0000_0000_0000_0000,
            final(self).shadows == old(self).shadows,
            final(self).shadow_counters == old(self).shadow_counters,
    {
        self.counter = self.counter.wrapping_add(1);
    }

    /// The current 64-bit value of the primary counter.
    pub fn full(&self) -> (r: u64)
        ensures
            r == self.counter,
    {
        self.counter
    }

    /// Digit P0 of the current counter value.
    pub fn p0(&self) -> (r: u32)
        ensures
            r == spec_digit(self.counter, 0),
    {
        decode(self.counter, 0)
    }

    /// Digit P1 of the current counter value.
    pub fn p1(&self) -> (r: u32)
        ensures
            r == spec_digit(self.counter, 1),
    {
        decode(self.counter, 1)
    }

    /// Digit P2 of the current counter value.
    pub fn p2(&self) -> (r: u32)
        ensures
            r == spec_digit(self.counter, 2),
    {
        decode(self.counter, 2)
    }

    /// Digit P3 of the current counter value.
    pub fn p3(&self) -> (r: u32)
        ensures
            r == spec_digit(self.counter, 3),
    {
        decode(self.counter, 3)
    }

    /// Digit P4 of the current counter value.
    pub fn p4(&self) -> (r: u32)
        ensures
            r == spec_digit(self.counter, 4),
    {
        decode(self.counter, 4)
    }

    /// Digit P5 of the current counter value.
    pub fn p5(&self) -> (r: u32)
        ensures
            r == spec_digit(self.counter, 5),
    {
        decode(self.counter, 5)
    }

    /// The current value of one shadow counter.
    pub fn shadow_counter(&self, index: usize) -> (r: u64)
        requires
            self.wf(),
            index < MAX_SHADOWS,
        ensures
            r == self.shadow_counters[index as int],
    {
        self.shadow_counters[index]
    }
}

/// Packing is the inverse of decoding: shifting every digit back to its
/// offset and combining them reproduces the original 64-bit value exactly.
pub proof fn lemma_decode_reconstructs(v: u64)
    ensures
        spec_digit(v, 0) | (spec_digit(v, 1) << 12) | (spec_digit(v, 2) << 22) | (spec_digit(
            v,
            3,
        ) << 32) | (spec_digit(v, 4) << 42) | (spec_digit(v, 5) << 52) == v,
{
    assert(((v >> 0) & 0xFFF) | (((v >> 12) & 0x3FF) << 12) | (((v >> 22) & 0x3FF) << 22) | (((v
        >> 32) & 0x3FF) << 32) | (((v >> 42) & 0x3FF) << 42) | (((v >> 52) & 0xFFF) << 52)
        == v) by (bit_vector);
}

} // verus!
