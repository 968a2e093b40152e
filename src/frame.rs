use vstd::prelude::*;
use vstd::arithmetic::div_mod::*;
use vstd::arithmetic::mul::*;

verus! {

/// The fixed-point value 1.0: samples, gains, rates and durations in seconds
/// all carry sixteen fractional bits.
pub const UNIT: i32 = 65536;

/// Integer division that rounds toward zero, as a cast from a float does.
pub open spec fn div_trunc(x: int, d: int) -> int {
    if x >= 0 {
        x / d
    } else {
        -((-x) / d)
    }
}

/// Saturates an integer into the range of `i32`.
pub open spec fn clamp_i32(x: int) -> int {
    if x < i32::MIN {
        i32::MIN as int
    } else if x > i32::MAX {
        i32::MAX as int
    } else {
        x
    }
}

/// Linear interpolation of one channel: `a + (b - a) * r / d`.
pub open spec fn lerp(a: int, b: int, r: int, d: int) -> int {
    a + div_trunc((b - a) * r, d)
}

/// One step of the one-pole low-pass filter on one channel, with the
/// coefficient `c` out of `UNIT`.
pub open spec fn low_pass_step(prev: int, x: int, c: int) -> int {
    div_trunc(c * prev + (UNIT - c) * x, UNIT as int)
}

/// A pair of fixed-point samples, left and right.
#[derive(Clone, Copy, Debug, PartialEq, Eq, Structural)]
pub struct Frame(pub i32, pub i32);

/// Pointwise saturating sum of two frames.
pub open spec fn frame_add(a: Frame, b: Frame) -> Frame {
    Frame(clamp_i32(a.0 + b.0) as i32, clamp_i32(a.1 + b.1) as i32)
}

/// A frame multiplied by `num / den`, rounded toward zero and saturated.
pub open spec fn frame_scale(f: Frame, num: int, den: int) -> Frame {
    Frame(
        clamp_i32(div_trunc(f.0 * num, den)) as i32,
        clamp_i32(div_trunc(f.1 * num, den)) as i32,
    )
}

/// The frame `r / d` of the way from `a` to `b`.
pub open spec fn frame_lerp(a: Frame, b: Frame, r: int, d: int) -> Frame {
    Frame(lerp(a.0 as int, b.0 as int, r, d) as i32, lerp(a.1 as int, b.1 as int, r, d) as i32)
}

/// The mean of the two channels, rounded toward zero.
pub open spec fn frame_avg(f: Frame) -> int {
    div_trunc(f.0 + f.1, 2)
}

/// The filtered frame that follows `prev` when `x` comes in.
pub open spec fn frame_low_pass(prev: Frame, x: Frame, c: int) -> Frame {
    Frame(
        low_pass_step(prev.0 as int, x.0 as int, c) as i32,
        low_pass_step(prev.1 as int, x.1 as int, c) as i32,
    )
}

/// A buffer after mono output `out` is added into its first slots, one
/// channel mean per slot, saturating.
pub open spec fn mix_mono(data: Seq<i32>, out: Seq<Frame>) -> Seq<i32> {
    Seq::new(
        data.len(),
        |j: int|
            if j < out.len() {
                clamp_i32(data[j] + frame_avg(out[j])) as i32
            } else {
                data[j]
            },
    )
}

/// A buffer after stereo output `out` is added into it, left and right
/// interleaved, saturating.
pub open spec fn mix_stereo(data: Seq<i32>, out: Seq<Frame>) -> Seq<i32> {
    Seq::new(
        data.len(),
        |j: int|
            if j / 2 < out.len() {
                if j % 2 == 0 {
                    clamp_i32(data[j] + out[j / 2].0) as i32
                } else {
                    clamp_i32(data[j] + out[j / 2].1) as i32
                }
            } else {
                data[j]
            },
    )
}

/// Output frames added into an interleaved buffer of one or two channels.
pub open spec fn mix_into(data: Seq<i32>, out: Seq<Frame>, stereo: bool) -> Seq<i32> {
    if stereo {
        mix_stereo(data, out)
    } else {
        mix_mono(data, out)
    }
}

/// How many output frames a buffer of `len` slots holds.
pub open spec fn frame_slots(len: int, stereo: bool) -> nat {
    (if stereo { len / 2 } else { len }) as nat
}

/// What output `out` adds to slot `j` of a buffer: a channel mean (mono) or
/// one channel (stereo) of the frame there, or nothing past its end.
pub open spec fn slot_value(out: Seq<Frame>, j: int, stereo: bool) -> int {
    if stereo {
        if j / 2 < out.len() {
            if j % 2 == 0 {
                out[j / 2].0 as int
            } else {
                out[j / 2].1 as int
            }
        } else {
            0
        }
    } else if j < out.len() {
        frame_avg(out[j])
    } else {
        0
    }
}

/// Mixing adds each slot's value to what the buffer held, saturating: the
/// result at a slot depends on that slot alone.
pub proof fn lemma_mix_slot(data: Seq<i32>, out: Seq<Frame>, stereo: bool, j: int)
    requires
        0 <= j < data.len(),
    ensures
        mix_into(data, out, stereo)[j] == clamp_i32(data[j] + slot_value(out, j, stereo)),
{
}

/// Outputs `outs` mixed into `data` one after another.
pub open spec fn mix_all(data: Seq<i32>, outs: Seq<Seq<Frame>>, stereo: bool) -> Seq<i32>
    decreases outs.len(),
{
    if outs.len() == 0 {
        data
    } else {
        mix_into(mix_all(data, outs.drop_last(), stereo), outs.last(), stereo)
    }
}

/// Mixing in nothing leaves the buffer.
pub proof fn lemma_mix_nothing(data: Seq<i32>, stereo: bool)
    ensures
        mix_into(data, seq![], stereo) == data,
{
    assert(mix_into(data, seq![], stereo) =~= data);
}

/// Adds `f` into slot `j` of a mono buffer, or into frame `j` of a stereo one.
pub fn add_frame_at(data: &mut [i32], j: usize, f: Frame, stereo: bool)
    requires
        stereo ==> 2 * j + 1 < old(data)@.len(),
        !stereo ==> j < old(data)@.len(),
    ensures
        stereo ==> final(data)@ == old(data)@.update(2 * j as int, clamp_i32(old(data)@[2 * j as int] + f.0) as i32).update(
            2 * j + 1,
            clamp_i32(old(data)@[2 * j + 1] + f.1) as i32,
        ),
        !stereo ==> final(data)@ == old(data)@.update(j as int, clamp_i32(old(data)@[j as int] + frame_avg(f)) as i32),
{
    if stereo {
        let a = clamp_to_i32(data[2 * j] as i128 + f.0 as i128);
        data[2 * j] = a;
        let b = clamp_to_i32(data[2 * j + 1] as i128 + f.1 as i128);
        data[2 * j + 1] = b;
    } else {
        let m = f.avg();
        let a = clamp_to_i32(data[j] as i128 + m as i128);
        data[j] = a;
    }
}

/// Adding one more frame extends the output mixed into a buffer.
pub proof fn lemma_mix_push(data: Seq<i32>, out: Seq<Frame>, f: Frame, stereo: bool)
    requires
        stereo ==> 2 * out.len() + 1 < data.len(),
        !stereo ==> out.len() < data.len(),
    ensures
        ({
            let j = out.len() as int;
            let m = mix_into(data, out, stereo);
            if stereo {
                mix_into(data, out.push(f), stereo) == m.update(2 * j, clamp_i32(m[2 * j] + f.0) as i32).update(
                    2 * j + 1,
                    clamp_i32(m[2 * j + 1] + f.1) as i32,
                )
            } else {
                mix_into(data, out.push(f), stereo) == m.update(j, clamp_i32(m[j] + frame_avg(f)) as i32)
            }
        }),
{
    let j = out.len() as int;
    let m = mix_into(data, out, stereo);
    let o = out.push(f);
    if stereo {
        let lhs = mix_into(data, o, stereo);
        let rhs = m.update(2 * j, clamp_i32(m[2 * j] + f.0) as i32).update(2 * j + 1, clamp_i32(m[2 * j + 1] + f.1) as i32);
        assert forall|i: int| 0 <= i < data.len() implies lhs[i] == rhs[i] by {
            if i == 2 * j || i == 2 * j + 1 {
                assert(i / 2 == j);
            } else if i / 2 < j {
                assert(o[i / 2] == out[i / 2]);
            } else {
                assert(i / 2 > j);
            }
        }
        assert(lhs =~= rhs);
    } else {
        let lhs = mix_into(data, o, stereo);
        let rhs = m.update(j, clamp_i32(m[j] + frame_avg(f)) as i32);
        assert forall|i: int| 0 <= i < data.len() implies lhs[i] == rhs[i] by {
            if i < j {
                assert(o[i] == out[i]);
            }
        }
        assert(lhs =~= rhs);
    }
}

pub proof fn lemma_div_trunc_bounds(x: int, d: int)
    requires
        d > 0,
    ensures
        x >= 0 ==> 0 <= div_trunc(x, d) <= x,
        x < 0 ==> x <= div_trunc(x, d) <= 0,
{
    if x >= 0 {
        lemma_div_pos_is_pos(x, d);
        lemma_div_is_ordered_by_denominator(x, 1, d);
    } else {
        lemma_div_pos_is_pos(-x, d);
        lemma_div_is_ordered_by_denominator(-x, 1, d);
    }
}

/// Rounding toward zero keeps the order against a multiple of the divisor.
pub proof fn lemma_div_trunc_scaled(x: int, k: int, d: int)
    requires
        d > 0,
    ensures
        x <= k * d ==> div_trunc(x, d) <= k,
        x >= k * d ==> div_trunc(x, d) >= k,
{
    lemma_div_multiples_vanish(k, d);
    lemma_div_multiples_vanish(-k, d);
    assert(k * d == d * k) by (nonlinear_arith);
    assert((-k) * d == d * (-k) && (-k) * d == -(k * d)) by (nonlinear_arith);
    if x >= 0 {
        lemma_div_pos_is_pos(x, d);
        if x <= k * d {
            lemma_div_is_ordered(x, k * d, d);
        }
        if x >= k * d && k > 0 {
            lemma_div_is_ordered(k * d, x, d);
        }
    } else {
        lemma_div_pos_is_pos(-x, d);
        if x <= k * d && k < 0 {
            lemma_div_is_ordered((-k) * d, -x, d);
        }
        if x >= k * d {
            assert(k < 0) by (nonlinear_arith)
                requires x >= k * d, x < 0, d > 0;
            lemma_div_is_ordered(-x, (-k) * d, d);
        }
    }
}

/// A bound on a product from bounds on its factors.
pub proof fn lemma_mul_bound(a: int, b: int, ba: int, bb: int)
    requires
        -ba <= a <= ba,
        0 <= b <= bb,
    ensures
        -(ba * bb) <= a * b <= ba * bb,
{
    if a >= 0 {
        lemma_mul_inequality(a, ba, b);
        lemma_mul_inequality(b, bb, ba);
        lemma_mul_nonnegative(a, b);
        assert(b * ba == ba * b && bb * ba == ba * bb) by (nonlinear_arith);
    } else {
        lemma_mul_inequality(-a, ba, b);
        lemma_mul_inequality(b, bb, ba);
        lemma_mul_nonnegative(-a, b);
        assert(b * ba == ba * b && bb * ba == ba * bb && (-a) * b == -(a * b)) by (nonlinear_arith);
    }
}

pub proof fn lemma_lerp_between(a: int, b: int, r: int, d: int)
    requires
        0 <= r < d,
    ensures
        a <= b ==> a <= lerp(a, b, r, d) <= b,
        b <= a ==> b <= lerp(a, b, r, d) <= a,
{
    let delta = b - a;
    if delta >= 0 {
        assert(0 <= delta * r <= delta * d) by (nonlinear_arith)
            requires delta >= 0, 0 <= r < d;
        lemma_div_trunc_scaled(delta * r, delta, d);
        lemma_div_trunc_bounds(delta * r, d);
    } else {
        assert(delta * d <= delta * r <= 0) by (nonlinear_arith)
            requires delta < 0, 0 <= r < d;
        lemma_div_trunc_scaled(delta * r, delta, d);
        lemma_div_trunc_bounds(delta * r, d);
    }
}

pub proof fn lemma_low_pass_between(p: int, x: int, c: int)
    requires
        0 <= c <= UNIT,
    ensures
        p <= x ==> p <= low_pass_step(p, x, c) <= x,
        x <= p ==> x <= low_pass_step(p, x, c) <= p,
{
    let u = UNIT as int;
    let s = c * p + (u - c) * x;
    if p <= x {
        assert(p * u <= s <= x * u) by (nonlinear_arith)
            requires s == c * p + (u - c) * x, 0 <= c <= u, p <= x;
    } else {
        assert(x * u <= s <= p * u) by (nonlinear_arith)
            requires s == c * p + (u - c) * x, 0 <= c <= u, x <= p;
    }
    lemma_div_trunc_scaled(s, p, u);
    lemma_div_trunc_scaled(s, x, u);
    assert(p * u == u * p) by (nonlinear_arith);
}

/// Rounds `x / d` toward zero.
pub fn div_trunc_i128(x: i128, d: i128) -> (r: i128)
    requires
        d > 0,
        x > i128::MIN,
    ensures
        r == div_trunc(x as int, d as int),
{
    proof {
        lemma_div_trunc_bounds(x as int, d as int);
    }
    if x >= 0 {
        x / d
    } else {
        let n: i128 = -x;
        -(n / d)
    }
}

/// Saturates a wide integer into `i32`.
pub fn clamp_to_i32(x: i128) -> (r: i32)
    ensures
        r == clamp_i32(x as int),
{
    if x < i32::MIN as i128 {
        i32::MIN
    } else if x > i32::MAX as i128 {
        i32::MAX
    } else {
        x as i32
    }
}

impl Frame {
    /// The silent frame.
    pub fn zero() -> (r: Frame)
        ensures
            r == Frame(0, 0),
    {
        Frame(0, 0)
    }

    /// Pointwise sum, saturating at the range of `i32`.
    pub fn add(self, other: Frame) -> (r: Frame)
        ensures
            r == frame_add(self, other),
    {
        Frame(
            clamp_to_i32(self.0 as i128 + other.0 as i128),
            clamp_to_i32(self.1 as i128 + other.1 as i128),
        )
    }

    /// Multiplies both channels by `num / den`, rounding toward zero and
    /// saturating.
    pub fn scale(self, num: i64, den: i64) -> (r: Frame)
        requires
            den > 0,
        ensures
            r == frame_scale(self, num as int, den as int),
    {
        proof {
            if num >= 0 {
                lemma_mul_bound(self.0 as int, num as int, 0x8000_0000, 0x8000_0000_0000_0000);
                lemma_mul_bound(self.1 as int, num as int, 0x8000_0000, 0x8000_0000_0000_0000);
            } else {
                lemma_mul_bound(self.0 as int, -num, 0x8000_0000, 0x8000_0000_0000_0000);
                lemma_mul_bound(self.1 as int, -num, 0x8000_0000, 0x8000_0000_0000_0000);
                assert(self.0 * (-num) == -(self.0 * num) && self.1 * (-num) == -(self.1 * num))
                    by (nonlinear_arith);
            }
        }
        let l = div_trunc_i128(self.0 as i128 * num as i128, den as i128);
        let r = div_trunc_i128(self.1 as i128 * num as i128, den as i128);
        Frame(clamp_to_i32(l), clamp_to_i32(r))
    }

    /// The mean of the two channels.
    pub fn avg(self) -> (r: i32)
        ensures
            r == frame_avg(self),
    {
        proof {
            lemma_div_trunc_bounds(self.0 + self.1, 2);
            lemma_div_trunc_scaled(self.0 + self.1, i32::MAX as int, 2);
            lemma_div_trunc_scaled(self.0 + self.1, i32::MIN as int, 2);
        }
        div_trunc_i128(self.0 as i128 + self.1 as i128, 2) as i32
    }

    /// The frame `r / d` of the way from `self` to `next`.
    pub fn interpolate(self, next: Frame, r: u128, d: u128) -> (res: Frame)
        requires
            r < d,
            d <= 0x1_0000_0000_0000_0000_0000,
        ensures
            res == frame_lerp(self, next, r as int, d as int),
    {
        proof {
            lemma_lerp_between(self.0 as int, next.0 as int, r as int, d as int);
            lemma_lerp_between(self.1 as int, next.1 as int, r as int, d as int);
            lemma_mul_bound(next.0 - self.0, r as int, 0x1_0000_0000, 0x1_0000_0000_0000_0000_0000);
            lemma_mul_bound(next.1 - self.1, r as int, 0x1_0000_0000, 0x1_0000_0000_0000_0000_0000);
        }
        let d0 = next.0 as i128 - self.0 as i128;
        let d1 = next.1 as i128 - self.1 as i128;
        let l = self.0 as i128 + div_trunc_i128(d0 * r as i128, d as i128);
        let rr = self.1 as i128 + div_trunc_i128(d1 * r as i128, d as i128);
        Frame(l as i32, rr as i32)
    }

    /// One step of the one-pole filter: `c * self + (UNIT - c) * x`, out of `UNIT`.
    pub fn low_pass(self, x: Frame, c: i32) -> (r: Frame)
        requires
            0 <= c <= UNIT,
        ensures
            r == frame_low_pass(self, x, c as int),
    {
        proof {
            lemma_low_pass_between(self.0 as int, x.0 as int, c as int);
            lemma_low_pass_between(self.1 as int, x.1 as int, c as int);
            lemma_mul_bound(self.0 as int, c as int, 0x8000_0000, 0x1_0000);
            lemma_mul_bound(self.1 as int, c as int, 0x8000_0000, 0x1_0000);
            lemma_mul_bound(x.0 as int, UNIT - c, 0x8000_0000, 0x1_0000);
            lemma_mul_bound(x.1 as int, UNIT - c, 0x8000_0000, 0x1_0000);
            assert(c * self.0 == self.0 * c && c * self.1 == self.1 * c) by (nonlinear_arith);
            assert((UNIT - c) * x.0 == x.0 * (UNIT - c) && (UNIT - c) * x.1 == x.1 * (UNIT - c))
                by (nonlinear_arith);
        }
        let k = c as i128;
        let rest = UNIT as i128 - k;
        let l = div_trunc_i128(k * self.0 as i128 + rest * x.0 as i128, UNIT as i128);
        let r = div_trunc_i128(k * self.1 as i128 + rest * x.1 as i128, UNIT as i128);
        Frame(l as i32, r as i32)
    }
}

} // verus!
