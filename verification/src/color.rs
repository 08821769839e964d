//! Radiance in three channels, and its conversion to display bytes.
use crate::error::Error;
use crate::random;
use crate::scalar::{clamp, divide, floor_sqrt, quotient, Fixed, SCALE};
use vstd::prelude::*;

verus! {

/// The largest intensity that is displayed, `0.999`, in raw units.
pub const DISPLAY_MAX: i64 = 999_000_000;

/// Linear radiance per channel; `1` is full intensity.
#[derive(Clone, Copy, Debug, PartialEq, Eq, Structural)]
pub struct Color {
    pub r: Fixed,
    pub g: Fixed,
    pub b: Fixed,
}

/// The display byte of one channel that accumulated `raw` over `samples`
/// samples: the average, its square root (gamma 2), limited to
/// `[0, 0.999]`, times 256, rounded down.
pub open spec fn channel_byte(raw: int, samples: int) -> int {
    let average = quotient(raw, samples);
    let corrected = floor_sqrt(average * SCALE);
    let limited = if corrected > DISPLAY_MAX {
        DISPLAY_MAX as int
    } else {
        corrected
    };
    (limited * 256) / (SCALE as int)
}

impl Color {
    /// No light at all.
    pub open spec fn spec_black() -> Color {
        Color { r: Fixed { raw: 0 }, g: Fixed { raw: 0 }, b: Fixed { raw: 0 } }
    }

    /// Full intensity in every channel.
    pub open spec fn spec_white() -> Color {
        Color { r: Fixed { raw: SCALE }, g: Fixed { raw: SCALE }, b: Fixed { raw: SCALE } }
    }

    /// Channelwise sum.
    pub open spec fn spec_add(self, rhs: Color) -> Color {
        Color {
            r: self.r.spec_add(rhs.r),
            g: self.g.spec_add(rhs.g),
            b: self.b.spec_add(rhs.b),
        }
    }

    /// Channelwise difference.
    pub open spec fn spec_sub(self, rhs: Color) -> Color {
        Color {
            r: self.r.spec_sub(rhs.r),
            g: self.g.spec_sub(rhs.g),
            b: self.b.spec_sub(rhs.b),
        }
    }

    /// Channelwise product, as an attenuation applies it.
    pub open spec fn spec_mul(self, rhs: Color) -> Color {
        Color {
            r: self.r.spec_mul(rhs.r),
            g: self.g.spec_mul(rhs.g),
            b: self.b.spec_mul(rhs.b),
        }
    }

    /// Every channel multiplied by `k`.
    pub open spec fn spec_scale(self, k: Fixed) -> Color {
        Color { r: k.spec_mul(self.r), g: k.spec_mul(self.g), b: k.spec_mul(self.b) }
    }

    /// The three display bytes after `samples` samples were accumulated.
    pub open spec fn spec_to_rgb(self, samples: u32) -> Seq<u8> {
        seq![
            channel_byte(self.r@, samples as int) as u8,
            channel_byte(self.g@, samples as int) as u8,
            channel_byte(self.b@, samples as int) as u8,
        ]
    }

    /// Whether every channel lies in `[lo, hi)`.
    pub open spec fn within(self, lo: Fixed, hi: Fixed) -> bool {
        &&& lo.raw <= self.r.raw < hi.raw
        &&& lo.raw <= self.g.raw < hi.raw
        &&& lo.raw <= self.b.raw < hi.raw
    }

    /// The colour with the given channels.
    pub fn new(r: Fixed, g: Fixed, b: Fixed) -> (c: Color)
        ensures
            c == (Color { r, g, b }),
    {
        Color { r, g, b }
    }

    /// A random colour with every channel in `[0, 1)`.
    pub fn rand() -> (c: Color)
        ensures
            c.within(Fixed { raw: 0 }, Fixed { raw: SCALE }),
    {
        Color {
            r: random::unit_interval(),
            g: random::unit_interval(),
            b: random::unit_interval(),
        }
    }

    /// A random colour with every channel in `[lo, hi)`.
    pub fn rand_in(lo: Fixed, hi: Fixed) -> (c: Color)
        requires
            lo.raw < hi.raw,
        ensures
            c.within(lo, hi),
    {
        Color { r: random::uniform(lo, hi), g: random::uniform(lo, hi), b: random::uniform(lo, hi) }
    }

    /// Adds `rhs` to this colour.
    pub fn add_assign(&mut self, rhs: Color)
        ensures
            *final(self) == old(self).spec_add(rhs),
    {
        *self = *self + rhs;
    }

    /// The display bytes of a colour that accumulated `samples_per_pixel`
    /// samples. Without samples there is no average, and the count is refused.
    pub fn to_rgb(&self, samples_per_pixel: u32) -> (r: Result<[u8; 3], Error>)
        ensures
            samples_per_pixel == 0 ==> r == Err::<[u8; 3], Error>(Error::InvalidSampleCount),
            samples_per_pixel > 0 ==> (r matches Ok(px) && px@ == self.spec_to_rgb(
                samples_per_pixel,
            )),
    {
        if samples_per_pixel == 0 {
            return Err(Error::InvalidSampleCount);
        }
        let px: [u8; 3] = [
            to_byte(self.r, samples_per_pixel),
            to_byte(self.g, samples_per_pixel),
            to_byte(self.b, samples_per_pixel),
        ];
        assert(px@ =~= self.spec_to_rgb(samples_per_pixel));
        Ok(px)
    }
}

/// The display byte of one channel.
fn to_byte(channel: Fixed, samples: u32) -> (r: u8)
    requires
        samples > 0,
    ensures
        r == channel_byte(channel@, samples as int),
{
    let q: i128 = divide(channel.raw as i128, samples as i128);
    let average = Fixed { raw: clamp(q) };
    let corrected = average.sqrt();
    proof {
        if q < 0 {
            assert(q * 1_000_000_000 < 0);
            assert(average.raw * 1_000_000_000 < 0);
        } else {
            assert(average.raw == q);
        }
        assert(corrected.raw == floor_sqrt(q * SCALE));
    }
    let limited: u64 = if corrected.raw > DISPLAY_MAX {
        DISPLAY_MAX as u64
    } else {
        corrected.raw as u64
    };
    ((limited * 256) / (SCALE as u64)) as u8
}

/// A channel whose average is full intensity is displayed as 255, whatever
/// the number of samples it was accumulated over.
pub proof fn lemma_full_average_is_brightest(samples: int)
    requires
        0 < samples,
    ensures
        channel_byte(samples * SCALE, samples) == 255,
{
    let k = SCALE as int;
    assert(quotient(samples * k, samples) == k) by (nonlinear_arith)
        requires
            0 < samples,
            k == 1_000_000_000,
    {
        assert((samples * k) / samples == k);
    }
    assert(crate::scalar::is_floor_sqrt(k * k, k)) by (nonlinear_arith)
        requires
            k == 1_000_000_000,
    ;
    crate::scalar::lemma_floor_sqrt_unique(k * k, k);
}

/// White converts to the brightest display value in every channel when it
/// stands for a single sample.
pub proof fn lemma_white_is_brightest()
    ensures
        Color::spec_white().spec_to_rgb(1) == seq![255u8, 255u8, 255u8],
{
    lemma_full_average_is_brightest(1);
    assert(Color::spec_white().spec_to_rgb(1) =~= seq![255u8, 255u8, 255u8]);
}

/// Whatever a channel holds, it is limited before it is quantised: a display
/// byte never leaves `[0, 255]`.
pub proof fn lemma_channel_byte_range(raw: int, samples: int)
    ensures
        0 <= channel_byte(raw, samples) <= 255,
{
    let average = quotient(raw, samples);
    if average * SCALE >= 0 {
        crate::scalar::lemma_floor_sqrt_exists(average * SCALE);
    }
}

impl Default for Color {
    fn default() -> (c: Color)
        ensures
            c == Color::spec_black(),
    {
        Color { r: Fixed { raw: 0 }, g: Fixed { raw: 0 }, b: Fixed { raw: 0 } }
    }
}

impl core::ops::Add for Color {
    type Output = Color;

    fn add(self, rhs: Color) -> (c: Color)
        ensures
            c == self.spec_add(rhs),
    {
        Color { r: self.r + rhs.r, g: self.g + rhs.g, b: self.b + rhs.b }
    }
}

impl vstd::std_specs::ops::AddSpecImpl for Color {
    open spec fn obeys_add_spec() -> bool {
        true
    }

    open spec fn add_req(self, rhs: Color) -> bool {
        true
    }

    open spec fn add_spec(self, rhs: Color) -> Color {
        self.spec_add(rhs)
    }
}

impl core::ops::Mul<Color> for Fixed {
    type Output = Color;

    fn mul(self, rhs: Color) -> (c: Color)
        ensures
            c == rhs.spec_scale(self),
    {
        Color { r: self * rhs.r, g: self * rhs.g, b: self * rhs.b }
    }
}

impl vstd::std_specs::ops::MulSpecImpl<Color> for Fixed {
    open spec fn obeys_mul_spec() -> bool {
        true
    }

    open spec fn mul_req(self, rhs: Color) -> bool {
        true
    }

    open spec fn mul_spec(self, rhs: Color) -> Color {
        rhs.spec_scale(self)
    }
}

impl core::ops::Mul for Color {
    type Output = Color;

    fn mul(self, rhs: Color) -> (c: Color)
        ensures
            c == self.spec_mul(rhs),
    {
        Color { r: self.r * rhs.r, g: self.g * rhs.g, b: self.b * rhs.b }
    }
}

impl vstd::std_specs::ops::MulSpecImpl for Color {
    open spec fn obeys_mul_spec() -> bool {
        true
    }

    open spec fn mul_req(self, rhs: Color) -> bool {
        true
    }

    open spec fn mul_spec(self, rhs: Color) -> Color {
        self.spec_mul(rhs)
    }
}

impl core::ops::Sub for Color {
    type Output = Color;

    fn sub(self, rhs: Color) -> (c: Color)
        ensures
            c == self.spec_sub(rhs),
    {
        Color { r: self.r - rhs.r, g: self.g - rhs.g, b: self.b - rhs.b }
    }
}

impl vstd::std_specs::ops::SubSpecImpl for Color {
    open spec fn obeys_sub_spec() -> bool {
        true
    }

    open spec fn sub_req(self, rhs: Color) -> bool {
        true
    }

    open spec fn sub_spec(self, rhs: Color) -> Color {
        self.spec_sub(rhs)
    }
}

} // verus!
