//! The shape of a filter's fingerprint array and the three slots of an item.

use vstd::arithmetic::div_mod::{lemma_div_pos_is_pos, lemma_fundamental_div_mod, lemma_mod_bound};
use vstd::prelude::*;

verus! {

/// The largest number of items that a filter is built for.
pub const MAX_ITEMS: usize = 0x4000_0000;

/// The sizing parameters of a fingerprint array: `segment_count + 2` segments of
/// `segment_length` slots each, or no slot at all where `segment_count` is zero.
#[derive(Clone, Copy, Debug, PartialEq, Eq)]
pub struct Layout {
    pub segment_length: u32,
    pub segment_count: u32,
}

/// The three slots of one item.
#[derive(Clone, Copy, Debug, PartialEq, Eq)]
pub struct Triple {
    pub a: u32,
    pub b: u32,
    pub c: u32,
}

impl Triple {
    /// Whether `slot` is one of the three.
    pub open spec fn touches(self, slot: int) -> bool {
        slot == self.a || slot == self.b || slot == self.c
    }

    /// The slots are distinct, ascending, and lie in an array of `slots` slots.
    pub open spec fn wf(self, slots: int) -> bool {
        self.a < self.b && self.b < self.c && self.c < slots
    }
}

impl Layout {
    /// A layout with segments has slots, and their number fits in 32 bits.
    pub open spec fn wf(self) -> bool {
        self.segment_count > 0 ==> self.segment_length > 0 && (self.segment_count + 2)
            * self.segment_length <= u32::MAX
    }

    /// The length of the fingerprint array.
    pub open spec fn slots(self) -> int {
        if self.segment_count == 0 {
            0
        } else {
            (self.segment_count + 2) * self.segment_length
        }
    }

    /// The first slot of a hash: any slot of the first `segment_count` segments.
    pub open spec fn first_slot(self, h: u64) -> int {
        h as int % (self.segment_count as int * self.segment_length as int)
    }

    /// The three slots of a hash: the first, and one in each of the two segments
    /// that follow the segment of the first.
    pub open spec fn triple(self, h: u64) -> Triple {
        let length = self.segment_length as int;
        let first = self.first_slot(h);
        let segment = first / length;
        Triple {
            a: first as u32,
            b: ((segment + 1) * length + (h >> 18u64) as int % length) as u32,
            c: ((segment + 2) * length + (h >> 36u64) as int % length) as u32,
        }
    }

    /// Computes [`Layout::wf`].
    pub fn is_wf(&self) -> (r: bool)
        ensures
            r == self.wf(),
    {
        let length: u64 = self.segment_length as u64;
        let count: u64 = self.segment_count as u64;
        if count == 0 {
            return true;
        }
        if length == 0 {
            return false;
        }
        assert((count + 2) * length <= 0x1_0000_0001 * 0x1_0000_0000) by (nonlinear_arith)
            requires
                0 <= count <= 0xffff_ffff,
                0 <= length <= 0xffff_ffff,
        ;
        let slots: u128 = (count as u128 + 2) * (length as u128);
        slots <= u32::MAX as u128
    }

    /// Computes [`Layout::slots`].
    pub fn slot_count(&self) -> (r: u32)
        requires
            self.wf(),
        ensures
            r == self.slots(),
    {
        if self.segment_count == 0 {
            0
        } else {
            ((self.segment_count as u64 + 2) * (self.segment_length as u64)) as u32
        }
    }

    /// Computes [`Layout::triple`].
    pub fn slots_of(&self, h: u64) -> (t: Triple)
        requires
            self.wf(),
            self.segment_count > 0,
        ensures
            t == self.triple(h),
            t.wf(self.slots()),
    {
        let length: u64 = self.segment_length as u64;
        proof {
            lemma_segments(
                self.segment_count as int,
                length as int,
                h as int,
                (h >> 18u64) as int,
                (h >> 36u64) as int,
            );
        }
        let span: u64 = self.segment_count as u64 * length;
        let first: u64 = h % span;
        let segment: u64 = first / length;
        let second: u64 = (segment + 1) * length + (h >> 18u64) % length;
        let third: u64 = (segment + 2) * length + (h >> 36u64) % length;
        Triple { a: first as u32, b: second as u32, c: third as u32 }
    }
}

/// Where the three slots of an item lie: the first slot is `h` reduced to the
/// first `count` segments, the other two are offsets `x1` and `x2` reduced to
/// one segment, in the two segments after that of the first.
pub proof fn lemma_segments(count: int, length: int, h: int, x1: int, x2: int)
    requires
        count > 0,
        length > 0,
    ensures
        count * length > 0,
        ({
            let first = h % (count * length);
            let r1 = x1 % length;
            let r2 = x2 % length;
            &&& 0 <= first < count * length
            &&& 0 <= first / length < count
            &&& first < (first / length + 1) * length
            &&& (first / length + 1) * length <= (first / length + 1) * length + r1
            &&& (first / length + 1) * length + r1 < (first / length + 2) * length
            &&& (first / length + 2) * length <= (first / length + 2) * length + r2
            &&& (first / length + 2) * length + r2 < (count + 2) * length
            &&& count * length <= (count + 2) * length
        }),
{
    assert(count * length > 0) by (nonlinear_arith)
        requires
            count > 0,
            length > 0,
    ;
    let first = h % (count * length);
    let r1 = x1 % length;
    let r2 = x2 % length;
    let w = first / length;
    lemma_mod_bound(h, count * length);
    lemma_mod_bound(x1, length);
    lemma_mod_bound(x2, length);
    lemma_fundamental_div_mod(first, length);
    lemma_mod_bound(first, length);
    lemma_div_pos_is_pos(first, length);
    assert(length * w == w * length) by (nonlinear_arith);
    assert((w + 1) * length == w * length + length) by (nonlinear_arith);
    assert((w + 2) * length == w * length + 2 * length) by (nonlinear_arith);
    assert((count + 2) * length == count * length + 2 * length) by (nonlinear_arith);
    assert(w < count) by (nonlinear_arith)
        requires
            w * length <= first,
            first < count * length,
            length > 0,
    ;
    assert(w * length + length <= count * length) by (nonlinear_arith)
        requires
            w + 1 <= count,
            length > 0,
    ;
}

/// The integer part of the binary logarithm; zero for zero.
pub open spec fn log2_floor(n: nat) -> nat
    decreases n,
{
    if n < 2 {
        0
    } else {
        1 + log2_floor(n / 2)
    }
}

/// Two to the power `e`.
pub open spec fn two_pow(e: nat) -> nat
    decreases e,
{
    if e == 0 {
        1
    } else {
        2 * two_pow((e - 1) as nat)
    }
}

/// The binary logarithm of the segment length for `n` items: it grows with
/// 37/64 of the logarithm of `n`, from 4 slots up to 2^18.
pub open spec fn segment_exponent(n: nat) -> nat {
    let e = (37 * log2_floor(n) + 144) / 64;
    if e > 18 {
        18
    } else {
        e
    }
}

/// The slots asked for before rounding up to whole segments: nine for every
/// eight items.
pub open spec fn capacity(n: nat) -> nat {
    (9 * n + 7) / 8
}

/// The layout of a filter of `n` items.
pub open spec fn layout_of(n: nat) -> Layout {
    let length = two_pow(segment_exponent(n));
    Layout {
        segment_length: length as u32,
        segment_count: if n == 0 {
            0
        } else {
            ((capacity(n) + length - 1) / (length as int)) as u32
        },
    }
}

/// Powers of two are positive and grow with the exponent.
pub proof fn lemma_two_pow_monotonic(a: nat, b: nat)
    requires
        a <= b,
    ensures
        1 <= two_pow(a) <= two_pow(b),
    decreases b,
{
    if b == 0 {
    } else if a < b {
        lemma_two_pow_monotonic(a, (b - 1) as nat);
    } else {
        lemma_two_pow_monotonic((a - 1) as nat, (b - 1) as nat);
    }
}

/// The largest segment length.
pub proof fn lemma_two_pow_18()
    ensures
        two_pow(18) == 262144,
{
    reveal_with_fuel(two_pow, 20);
}

/// The layout of up to `MAX_ITEMS` items is well formed, and the numbers in it
/// are what the definition computes, without truncation.
pub proof fn lemma_layout(n: nat)
    requires
        n <= MAX_ITEMS,
    ensures
        layout_of(n).wf(),
        n > 0 ==> layout_of(n).segment_count > 0,
        n == 0 ==> layout_of(n).segment_count == 0,
        1 <= two_pow(segment_exponent(n)) <= 262144,
        layout_of(n).segment_length == two_pow(segment_exponent(n)),
        n > 0 ==> layout_of(n).segment_count == (capacity(n) + two_pow(segment_exponent(n)) - 1) / (
        two_pow(segment_exponent(n)) as int),
{
    let e = segment_exponent(n);
    lemma_two_pow_monotonic(0, e);
    lemma_two_pow_monotonic(e, 18);
    lemma_two_pow_18();
    if n > 0 {
        let d = two_pow(e) as int;
        let x = capacity(n) + d - 1;
        lemma_fundamental_div_mod(x, d);
        lemma_mod_bound(x, d);
        assert(d * (x / d) == (x / d) * d) by (nonlinear_arith);
        assert((x / d + 2) * d == (x / d) * d + 2 * d) by (nonlinear_arith);
        assert(x / d >= 1) by (nonlinear_arith)
            requires
                x >= d,
                d > 0,
                x == d * (x / d) + x % d,
                0 <= x % d < d,
        ;
        assert(x / d <= x) by (nonlinear_arith)
            requires
                x >= 0,
                d >= 1,
                x == d * (x / d) + x % d,
                0 <= x % d < d,
                x / d >= 1,
        ;
    }
}

/// The three slots of any hash are distinct, ascending and inside the array.
pub proof fn lemma_triple(l: Layout, h: u64)
    requires
        l.wf(),
        l.segment_count > 0,
    ensures
        l.triple(h).wf(l.slots()),
{
    lemma_segments(
        l.segment_count as int,
        l.segment_length as int,
        h as int,
        (h >> 18u64) as int,
        (h >> 36u64) as int,
    );
}

/// Computes [`layout_of`].
pub fn layout_for(n: usize) -> (l: Layout)
    requires
        n <= MAX_ITEMS,
    ensures
        l == layout_of(n as nat),
        l.wf(),
        n > 0 ==> l.segment_count > 0,
        n == 0 ==> l.segment_count == 0,
{
    let mut rest: usize = n;
    let mut bits: u64 = 0;
    while rest >= 2
        invariant
            log2_floor(n as nat) == bits + log2_floor(rest as nat),
            bits + rest <= n,
            n <= MAX_ITEMS,
        decreases rest,
    {
        rest = rest / 2;
        bits = bits + 1;
    }
    let wide: u64 = (37 * bits + 144) / 64;
    let exponent: u64 = if wide > 18 {
        18
    } else {
        wide
    };
    let mut length: u64 = 1;
    let mut j: u64 = 0;
    while j < exponent
        invariant
            j <= exponent <= 18,
            length == two_pow(j as nat),
            length <= 262144,
        decreases exponent - j,
    {
        proof {
            lemma_two_pow_monotonic((j + 1) as nat, 18);
            lemma_two_pow_18();
        }
        length = length * 2;
        j = j + 1;
    }
    proof {
        lemma_layout(n as nat);
    }
    if n == 0 {
        return Layout { segment_length: length as u32, segment_count: 0 };
    }
    let asked: u64 = (9 * (n as u64) + 7) / 8;
    let count: u64 = (asked + length - 1) / length;
    Layout { segment_length: length as u32, segment_count: count as u32 }
}

} // verus!
