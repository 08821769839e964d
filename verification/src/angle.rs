//! The tangent of an angle, as the camera needs it for its field of view.
//!
//! Sine and cosine are the Taylor polynomials of degree 21 and 20 in nested
//! form, evaluated with eighteen digits for angles up to 45 degrees; their
//! quotient is rounded once, to the nearest billionth. Every other angle is
//! led back to such an angle by the symmetries of the tangent.
use crate::scalar::{Fixed, RAW_MAX, SCALE};
use core::ops::Neg;
use vstd::prelude::*;

verus! {

/// Number of terms after the first in each polynomial.
pub const TERMS: u32 = 10;

/// Half a turn in raw units of degrees.
pub const HALF_TURN: i64 = 180_000_000_000;

/// One, in the unit of the polynomials: eighteen digits.
pub const FINE: u128 = 1_000_000_000_000_000_000;

/// Pi in the unit of the polynomials.
pub const PI_FINE: u128 = 3_141_592_653_589_793_238;

/// The angle of `degrees` raw units of degrees, in radians with eighteen
/// digits, rounded down.
pub open spec fn spec_radians(degrees: int) -> int {
    (degrees * PI_FINE) / 180_000_000_000
}

/// The divisor of the factor `i` of a polynomial: `d (d + 1)` with
/// `d = 2 i - 1 + shift`.
pub open spec fn spec_denominator(shift: int, i: int) -> int {
    (2 * i - 1 + shift) * (2 * i + shift)
}

/// The nested factor `1 - x^2 / (d (d + 1)) * (next factor)` from factor `i`
/// up to factor `TERMS`, with eighteen digits. With `shift == 0` the first
/// factor is the cosine of `x`, with `shift == 1` it is the sine of `x`
/// divided by `x`.
pub open spec fn spec_factor(x2: int, shift: int, i: int) -> int
    decreases TERMS + 1 - i,
{
    if i < 1 || i > TERMS {
        FINE as int
    } else {
        FINE - ((x2 * spec_factor(x2, shift, i + 1)) / (FINE as int)) / spec_denominator(shift, i)
    }
}

/// Sine of an angle in radians, by its polynomial, both with eighteen digits.
pub open spec fn spec_sin(x: int) -> int {
    (x * spec_factor((x * x) / (FINE as int), 1, 1)) / (FINE as int)
}

/// Cosine of an angle in radians, by its polynomial, both with eighteen digits.
pub open spec fn spec_cos(x: int) -> int {
    spec_factor((x * x) / (FINE as int), 0, 1)
}

/// The quotient `n / d` of two numbers that are not negative, rounded to the
/// nearest billionth; the largest number where `d` is zero and `n` is not.
pub open spec fn spec_rounded(n: int, d: int) -> Fixed {
    if d == 0 {
        if n > 0 {
            Fixed { raw: RAW_MAX }
        } else {
            Fixed { raw: 0 }
        }
    } else {
        Fixed::of((2 * n * SCALE + d) / (2 * d))
    }
}

/// Tangent of an angle of `0` to `90` degrees, given in raw units of degrees.
/// Up to `45` degrees it is sine by cosine; beyond, cosine by sine of the
/// complement, so that the right angle gives the largest number.
pub open spec fn spec_tan_acute(degrees: int) -> Fixed {
    if degrees <= HALF_TURN / 4 {
        let x = spec_radians(degrees);
        spec_rounded(spec_sin(x), spec_cos(x))
    } else {
        let x = spec_radians(HALF_TURN / 2 - degrees);
        spec_rounded(spec_cos(x), spec_sin(x))
    }
}

/// Tangent of an angle in degrees. The tangent repeats after half a turn, is
/// odd, and mirrors about the right angle with a change of sign.
pub open spec fn spec_tan_degrees(angle: Fixed) -> Fixed {
    let size = if angle.raw < 0 {
        -angle.raw
    } else {
        angle.raw as int
    };
    let reduced = size % (HALF_TURN as int);
    let value = if reduced > HALF_TURN / 2 {
        spec_tan_acute(HALF_TURN - reduced).spec_neg()
    } else {
        spec_tan_acute(reduced)
    };
    if angle.raw < 0 {
        value.spec_neg()
    } else {
        value
    }
}

fn radians(degrees: u64) -> (r: u128)
    requires
        degrees <= 45_000_000_000,
    ensures
        r == spec_radians(degrees as int),
        r <= FINE,
{
    ((degrees as u128) * PI_FINE) / 180_000_000_000
}

fn factor(x2: u128, shift: u32) -> (r: u128)
    requires
        x2 <= FINE,
        shift <= 1,
    ensures
        r == spec_factor(x2 as int, shift as int, 1),
        r <= FINE,
{
    let mut acc: u128 = FINE;
    let mut i: u32 = TERMS;
    while i >= 1
        invariant
            i <= TERMS,
            shift <= 1,
            x2 <= FINE,
            acc <= FINE,
            acc == spec_factor(x2 as int, shift as int, i + 1),
        decreases i,
    {
        let d: u128 = (2 * i - 1 + shift) as u128;
        assert(0 < d * (d + 1) <= 21 * 22) by (nonlinear_arith)
            requires
                1 <= d <= 21,
        ;
        let den: u128 = d * (d + 1);
        assert(den == spec_denominator(shift as int, i as int));
        assert(x2 * acc <= 1_000_000_000_000_000_000 * x2) by (nonlinear_arith)
            requires
                acc <= 1_000_000_000_000_000_000,
        ;
        let q1: u128 = (x2 * acc) / FINE;
        let q2: u128 = q1 / den;
        assert(q2 <= q1) by (nonlinear_arith)
            requires
                q2 == q1 / den,
                den >= 1,
        ;
        acc = FINE - q2;
        i = i - 1;
    }
    acc
}

fn square(x: u128) -> (r: u128)
    requires
        x <= FINE,
    ensures
        r == (x * x) / (FINE as int),
        r <= FINE,
{
    assert(x * x <= 1_000_000_000_000_000_000 * x) by (nonlinear_arith)
        requires
            x <= 1_000_000_000_000_000_000,
    ;
    (x * x) / FINE
}

fn sine(x: u128) -> (r: u128)
    requires
        x <= FINE,
    ensures
        r == spec_sin(x as int),
        r <= FINE,
{
    let f = factor(square(x), 1);
    assert(x * f <= 1_000_000_000_000_000_000 * x) by (nonlinear_arith)
        requires
            f <= 1_000_000_000_000_000_000,
    ;
    (x * f) / FINE
}

fn cosine(x: u128) -> (r: u128)
    requires
        x <= FINE,
    ensures
        r == spec_cos(x as int),
        r <= FINE,
{
    factor(square(x), 0)
}

fn rounded(n: u128, d: u128) -> (r: Fixed)
    requires
        n <= FINE,
        d <= FINE,
    ensures
        r == spec_rounded(n as int, d as int),
{
    if d == 0 {
        if n > 0 {
            Fixed { raw: RAW_MAX }
        } else {
            Fixed { raw: 0 }
        }
    } else {
        let q: u128 = (2 * n * 1_000_000_000 + d) / (2 * d);
        if q > RAW_MAX as u128 {
            Fixed { raw: RAW_MAX }
        } else {
            Fixed { raw: q as i64 }
        }
    }
}

fn tan_acute(degrees: i64) -> (r: Fixed)
    requires
        0 <= degrees <= HALF_TURN / 2,
    ensures
        r == spec_tan_acute(degrees as int),
{
    if degrees <= HALF_TURN / 4 {
        let x = radians(degrees as u64);
        rounded(sine(x), cosine(x))
    } else {
        let x = radians((HALF_TURN / 2 - degrees) as u64);
        rounded(cosine(x), sine(x))
    }
}

/// Tangent of an angle in degrees.
pub fn tan_degrees(angle: Fixed) -> (r: Fixed)
    ensures
        r == spec_tan_degrees(angle),
{
    let size: u64 = if angle.raw < 0 {
        (-(angle.raw as i128)) as u64
    } else {
        angle.raw as u64
    };
    let reduced: i64 = (size % (HALF_TURN as u64)) as i64;
    let value = if reduced > HALF_TURN / 2 {
        tan_acute(HALF_TURN - reduced).neg()
    } else {
        tan_acute(reduced)
    };
    if angle.raw < 0 {
        value.neg()
    } else {
        value
    }
}

/// The divisors of the factors.
proof fn lemma_denominators()
    ensures
        spec_denominator(0, 1) == 2,
        spec_denominator(0, 2) == 12,
        spec_denominator(0, 3) == 30,
        spec_denominator(0, 4) == 56,
        spec_denominator(0, 5) == 90,
        spec_denominator(0, 6) == 132,
        spec_denominator(0, 7) == 182,
        spec_denominator(0, 8) == 240,
        spec_denominator(0, 9) == 306,
        spec_denominator(0, 10) == 380,
        spec_denominator(1, 1) == 6,
        spec_denominator(1, 2) == 20,
        spec_denominator(1, 3) == 42,
        spec_denominator(1, 4) == 72,
        spec_denominator(1, 5) == 110,
        spec_denominator(1, 6) == 156,
        spec_denominator(1, 7) == 210,
        spec_denominator(1, 8) == 272,
        spec_denominator(1, 9) == 342,
        spec_denominator(1, 10) == 420,
{
    assert(forall|shift: int, i: int|
        #[trigger] spec_denominator(shift, i) == (2 * i - 1 + shift) * (2 * i + shift));
    assert(1int * 2 == 2 && 3int * 4 == 12 && 5int * 6 == 30 && 7int * 8 == 56 && 9int * 10 == 90
        && 11int * 12 == 132 && 13int * 14 == 182 && 15int * 16 == 240 && 17int * 18 == 306
        && 19int * 20 == 380) by (nonlinear_arith);
    assert(2int * 3 == 6 && 4int * 5 == 20 && 6int * 7 == 42 && 8int * 9 == 72 && 10int * 11 == 110
        && 12int * 13 == 156 && 14int * 15 == 210 && 16int * 17 == 272 && 18int * 19 == 342
        && 20int * 21 == 420) by (nonlinear_arith);
}

/// The quotient, rounded down, of a dividend that lies between two multiples
/// of the divisor.
proof fn lemma_floor(n: int, d: int, q: int)
    requires
        d > 0,
        q * d <= n < q * d + d,
    ensures
        n / d == q,
{
    vstd::arithmetic::div_mod::lemma_fundamental_div_mod_converse(n, d, q, n - q * d);
}

/// One factor from the next: where the factor after `i` is `next`, the
/// product `x2 * next` has `q1` whole units and `q1` holds the divisor `q2`
/// times, factor `i` is one less `q2`.
proof fn lemma_factor_step(x2: int, shift: int, i: int, next: int, q1: int, q2: int)
    requires
        1 <= i <= TERMS,
        spec_factor(x2, shift, i + 1) == next,
        spec_denominator(shift, i) > 0,
        q1 * FINE <= x2 * next < q1 * FINE + FINE,
        q2 * spec_denominator(shift, i) <= q1 < q2 * spec_denominator(shift, i)
            + spec_denominator(shift, i),
    ensures
        spec_factor(x2, shift, i) == FINE - q2,
{
    lemma_floor(x2 * next, FINE as int, q1);
    lemma_floor(q1, spec_denominator(shift, i), q2);
}

/// The tangent repeats after half a turn.
pub proof fn lemma_tan_repeats(angle: Fixed)
    requires
        0 <= angle.raw <= RAW_MAX - HALF_TURN,
    ensures
        spec_tan_degrees(Fixed { raw: (angle.raw + HALF_TURN) as i64 }) == spec_tan_degrees(angle),
{
    vstd::arithmetic::div_mod::lemma_mod_add_multiples_vanish(angle.raw as int, HALF_TURN as int);
}

/// At no angle the tangent is zero, and at the right angle it is the largest number.
pub proof fn lemma_tan_at_the_ends()
    ensures
        spec_tan_degrees(Fixed { raw: 0 }).raw == 0,
        spec_tan_degrees(Fixed { raw: 90_000_000_000 }).raw == RAW_MAX,
{
    lemma_denominators();
    assert(spec_radians(0) == 0);
    assert(spec_factor(0, 0, 11) == FINE);
    assert(0 * (FINE as int) == 0);
    lemma_factor_step(0, 0, 10, FINE as int, 0, 0);
    lemma_factor_step(0, 0, 9, FINE as int, 0, 0);
    lemma_factor_step(0, 0, 8, FINE as int, 0, 0);
    lemma_factor_step(0, 0, 7, FINE as int, 0, 0);
    lemma_factor_step(0, 0, 6, FINE as int, 0, 0);
    lemma_factor_step(0, 0, 5, FINE as int, 0, 0);
    lemma_factor_step(0, 0, 4, FINE as int, 0, 0);
    lemma_factor_step(0, 0, 3, FINE as int, 0, 0);
    lemma_factor_step(0, 0, 2, FINE as int, 0, 0);
    lemma_factor_step(0, 0, 1, FINE as int, 0, 0);
    assert(spec_cos(0) == FINE);
    assert(spec_sin(0) == 0);
    lemma_floor(2int * 0int * 1_000_000_000 + 1_000_000_000_000_000_000, 2int * 1_000_000_000_000_000_000, 0);
    assert(spec_rounded(0, FINE as int).raw == 0);
    assert(spec_rounded(FINE as int, 0).raw == RAW_MAX);
}

/// The tangent is odd: opposite angles have opposite tangents.
pub proof fn lemma_tan_is_odd(angle: Fixed)
    requires
        angle.raw > -RAW_MAX,
    ensures
        spec_tan_degrees(angle.spec_neg()) == spec_tan_degrees(angle).spec_neg(),
{
    if angle.raw == 0 {
        lemma_tan_at_the_ends();
    } else {
        let size = crate::scalar::magnitude(angle.raw as int);
        let reduced = size % (HALF_TURN as int);
        let acute = if reduced > HALF_TURN / 2 {
            spec_tan_acute(HALF_TURN - reduced)
        } else {
            spec_tan_acute(reduced)
        };
        assert(-RAW_MAX <= acute.raw <= RAW_MAX);
    }
}

/// The tangent of 45 degrees, rounded to the nearest billionth.
pub proof fn lemma_tan_of_half_a_right_angle()
    ensures
        spec_tan_degrees(Fixed { raw: 45_000_000_000 }).raw == 1_000_000_000,
{
    lemma_denominators();
    lemma_floor(45_000_000_000int * 3_141_592_653_589_793_238, 180_000_000_000, 785_398_163_397_448_309);
    lemma_floor(785_398_163_397_448_309int * 785_398_163_397_448_309, 1_000_000_000_000_000_000, 616_850_275_068_084_912);
    lemma_factor_step(616_850_275_068_084_912, 1, 10, 1_000_000_000_000_000_000, 616_850_275_068_084_912, 1_468_691_131_114_487);
    lemma_factor_step(616_850_275_068_084_912, 1, 9, 998_531_308_868_885_513, 615_944_312_539_866_883, 1_801_006_761_812_476);
    lemma_factor_step(616_850_275_068_084_912, 1, 8, 998_198_993_238_187_524, 615_739_323_551_661_405, 2_263_747_513_057_578);
    lemma_factor_step(616_850_275_068_084_912, 1, 7, 997_736_252_486_942_422, 615_453_881_791_970_651, 2_930_732_770_437_955);
    lemma_factor_step(616_850_275_068_084_912, 1, 6, 997_069_267_229_562_045, 615_042_451_752_489_208, 3_942_579_818_926_212);
    lemma_factor_step(616_850_275_068_084_912, 1, 5, 996_057_420_181_073_788, 614_418_293_622_302_397, 5_585_620_851_111_839);
    lemma_factor_step(616_850_275_068_084_912, 1, 4, 994_414_379_148_888_161, 613_404_783_309_650_543, 8_519_510_879_300_701);
    lemma_factor_step(616_850_275_068_084_912, 1, 3, 991_480_489_120_699_299, 611_595_012_438_742_732, 14_561_786_010_446_255);
    lemma_factor_step(616_850_275_068_084_912, 1, 2, 985_438_213_989_553_745, 607_867_833_362_058_548, 30_393_391_668_102_927);
    lemma_factor_step(616_850_275_068_084_912, 1, 1, 969_606_608_331_897_073, 598_102_103_057_363_581, 99_683_683_842_893_930);
    lemma_factor_step(616_850_275_068_084_912, 0, 10, 1_000_000_000_000_000_000, 616_850_275_068_084_912, 1_623_290_197_547_591);
    lemma_factor_step(616_850_275_068_084_912, 0, 9, 998_376_709_802_452_409, 615_848_948_063_212_354, 2_012_578_261_644_484);
    lemma_factor_step(616_850_275_068_084_912, 0, 8, 997_987_421_738_355_516, 615_608_815_613_793_463, 2_565_036_731_724_139);
    lemma_factor_step(616_850_275_068_084_912, 0, 7, 997_434_963_268_275_861, 615_268_031_454_561_135, 3_380_593_579_420_665);
    lemma_factor_step(616_850_275_068_084_912, 0, 6, 996_619_406_420_579_335, 614_764_954_988_725_873, 4_657_310_265_066_105);
    lemma_factor_step(616_850_275_068_084_912, 0, 5, 995_342_689_734_933_895, 613_977_411_950_001_469, 6_821_971_243_888_905);
    lemma_factor_step(616_850_275_068_084_912, 0, 4, 993_178_028_756_111_095, 612_642_140_229_785_475, 10_940_038_218_389_026);
    lemma_factor_step(616_850_275_068_084_912, 0, 3, 989_059_961_781_610_974, 610_101_909_483_816_279, 20_336_730_316_127_209);
    lemma_factor_step(616_850_275_068_084_912, 0, 2, 979_663_269_683_872_791, 604_305_557_378_596_381, 50_358_796_448_216_365);
    lemma_factor_step(616_850_275_068_084_912, 0, 1, 949_641_203_551_783_635, 585_786_437_626_904_949, 292_893_218_813_452_474);
    lemma_floor(785_398_163_397_448_309int * 900_316_316_157_106_070, 1_000_000_000_000_000_000, 707_106_781_186_547_524);
    assert(spec_sin(785_398_163_397_448_309) == 707_106_781_186_547_524);
    assert(spec_cos(785_398_163_397_448_309) == 707_106_781_186_547_526);
    lemma_floor(2int * 707_106_781_186_547_524int * 1_000_000_000 + 707_106_781_186_547_526, 2int * 707_106_781_186_547_526, 1_000_000_000);
    assert(spec_rounded(707_106_781_186_547_524, 707_106_781_186_547_526).raw == 1_000_000_000);
}
/// The tangent of 30 degrees, rounded to the nearest billionth.
pub proof fn lemma_tan_of_a_third_of_a_right_angle()
    ensures
        spec_tan_degrees(Fixed { raw: 30_000_000_000 }).raw == 577_350_269,
{
    lemma_denominators();
    lemma_floor(30_000_000_000int * 3_141_592_653_589_793_238, 180_000_000_000, 523_598_775_598_298_873);
    lemma_floor(523_598_775_598_298_873int * 523_598_775_598_298_873, 1_000_000_000_000_000_000, 274_155_677_808_037_739);
    lemma_factor_step(274_155_677_808_037_739, 1, 10, 1_000_000_000_000_000_000, 274_155_677_808_037_739, 652_751_613_828_661);
    lemma_factor_step(274_155_677_808_037_739, 1, 9, 999_347_248_386_171_339, 273_976_722_246_908_251, 801_101_527_037_743);
    lemma_factor_step(274_155_677_808_037_739, 1, 8, 999_198_898_472_962_257, 273_936_051_275_899_652, 1_007_117_835_573_160);
    lemma_factor_step(274_155_677_808_037_739, 1, 7, 998_992_882_164_426_840, 273_879_570_735_193_615, 1_304_188_432_072_350);
    lemma_factor_step(274_155_677_808_037_739, 1, 6, 998_695_811_567_927_650, 273_798_127_144_453_541, 1_755_116_199_643_932);
    lemma_factor_step(274_155_677_808_037_739, 1, 5, 998_244_883_800_356_068, 273_674_502_736_692_489, 2_487_950_024_879_022);
    lemma_factor_step(274_155_677_808_037_739, 1, 4, 997_512_049_975_120_978, 273_473_592_182_614_506, 3_798_244_335_869_645);
    lemma_factor_step(274_155_677_808_037_739, 1, 3, 996_201_755_664_130_355, 273_114_367_557_656_856, 6_502_723_037_087_068);
    lemma_factor_step(274_155_677_808_037_739, 1, 2, 993_497_276_962_912_932, 272_372_919_366_207_192, 13_618_645_968_310_359);
    lemma_factor_step(274_155_677_808_037_739, 1, 1, 986_381_354_031_689_641, 270_422_048_691_767_912, 45_070_341_448_627_985);
    lemma_factor_step(274_155_677_808_037_739, 0, 10, 1_000_000_000_000_000_000, 274_155_677_808_037_739, 721_462_310_021_151);
    lemma_factor_step(274_155_677_808_037_739, 0, 9, 999_278_537_689_978_849, 273_957_884_819_420_937, 895_287_205_292_225);
    lemma_factor_step(274_155_677_808_037_739, 0, 8, 999_104_712_794_707_775, 273_910_229_737_437_985, 1_141_292_623_905_991);
    lemma_factor_step(274_155_677_808_037_739, 0, 7, 998_858_707_376_094_009, 273_842_785_955_153_478, 1_504_630_692_061_282);
    lemma_factor_step(274_155_677_808_037_739, 0, 6, 998_495_369_307_938_718, 273_743_174_760_804_901, 2_073_811_930_006_097);
    lemma_factor_step(274_155_677_808_037_739, 0, 5, 997_926_188_069_993_903, 273_587_130_492_720_522, 3_039_857_005_474_672);
    lemma_factor_step(274_155_677_808_037_739, 0, 4, 996_960_142_994_525_328, 273_322_283_750_262_318, 4_880_755_066_968_969);
    lemma_factor_step(274_155_677_808_037_739, 0, 3, 995_119_244_933_031_031, 272_817_591_094_437_846, 9_093_919_703_147_928);
    lemma_factor_step(274_155_677_808_037_739, 0, 2, 990_906_080_296_852_072, 271_662_528_087_889_349, 22_638_544_007_324_112);
    lemma_factor_step(274_155_677_808_037_739, 0, 1, 977_361_455_992_675_888, 267_949_192_431_122_706, 133_974_596_215_561_353);
    lemma_floor(523_598_775_598_298_873int * 954_929_658_551_372_015, 1_000_000_000_000_000_000, 500_000_000_000_000_000);
    assert(spec_sin(523_598_775_598_298_873) == 500_000_000_000_000_000);
    assert(spec_cos(523_598_775_598_298_873) == 866_025_403_784_438_647);
    lemma_floor(2int * 500_000_000_000_000_000int * 1_000_000_000 + 866_025_403_784_438_647, 2int * 866_025_403_784_438_647, 577_350_269);
    assert(spec_rounded(500_000_000_000_000_000, 866_025_403_784_438_647).raw == 577_350_269);
}
/// The tangent of 10 degrees, rounded to the nearest billionth.
pub proof fn lemma_tan_of_ten_degrees()
    ensures
        spec_tan_degrees(Fixed { raw: 10_000_000_000 }).raw == 176_326_981,
{
    lemma_denominators();
    lemma_floor(10_000_000_000int * 3_141_592_653_589_793_238, 180_000_000_000, 174_532_925_199_432_957);
    lemma_floor(174_532_925_199_432_957int * 174_532_925_199_432_957, 1_000_000_000_000_000_000, 30_461_741_978_670_859);
    lemma_factor_step(30_461_741_978_670_859, 1, 10, 1_000_000_000_000_000_000, 30_461_741_978_670_859, 72_527_957_092_073);
    lemma_factor_step(30_461_741_978_670_859, 1, 9, 999_927_472_042_907_927, 30_459_532_650_755_680, 89_062_960_967_121);
    lemma_factor_step(30_461_741_978_670_859, 1, 8, 999_910_937_039_032_879, 30_459_028_965_734_022, 111_981_724_138_728);
    lemma_factor_step(30_461_741_978_670_859, 1, 7, 999_888_018_275_861_272, 30_458_330_820_283_818, 145_039_670_572_780);
    lemma_factor_step(30_461_741_978_670_859, 1, 6, 999_854_960_329_427_220, 30_457_323_817_649_199, 195_239_255_241_341);
    lemma_factor_step(30_461_741_978_670_859, 1, 5, 999_804_760_744_758_659, 30_455_794_650_853_589, 276_870_860_462_305);
    lemma_factor_step(30_461_741_978_670_859, 1, 4, 999_723_129_139_537_695, 30_453_308_009_958_043, 422_962_611_249_417);
    lemma_factor_step(30_461_741_978_670_859, 1, 3, 999_577_037_388_750_583, 30_448_857_800_740_354, 724_972_804_779_532);
    lemma_factor_step(30_461_741_978_670_859, 1, 2, 999_275_027_195_220_468, 30_439_658_044_150_111, 1_521_982_902_207_505);
    lemma_factor_step(30_461_741_978_670_859, 1, 1, 998_478_017_097_792_495, 30_415_379_728_207_865, 5_069_229_954_701_310);
    lemma_factor_step(30_461_741_978_670_859, 0, 10, 1_000_000_000_000_000_000, 30_461_741_978_670_859, 80_162_478_891_239);
    lemma_factor_step(30_461_741_978_670_859, 0, 9, 999_919_837_521_108_761, 30_459_300_089_922_503, 99_540_196_372_295);
    lemma_factor_step(30_461_741_978_670_859, 0, 8, 999_900_459_803_627_705, 30_458_709_810_892_459, 126_911_290_878_718);
    lemma_factor_step(30_461_741_978_670_859, 0, 7, 999_873_088_709_121_282, 30_457_876_039_673_931, 167_350_967_250_955);
    lemma_factor_step(30_461_741_978_670_859, 0, 6, 999_832_649_032_749_045, 30_456_644_176_686_579, 230_732_152_853_686);
    lemma_factor_step(30_461_741_978_670_859, 0, 5, 999_769_267_847_146_314, 30_454_713_475_364_446, 338_385_705_281_827);
    lemma_factor_step(30_461_741_978_670_859, 0, 4, 999_661_614_294_718_173, 30_451_434_160_627_293, 543_775_610_011_201);
    lemma_factor_step(30_461_741_978_670_859, 0, 3, 999_456_224_389_988_799, 30_445_177_626_344_403, 1_014_839_254_211_480);
    lemma_factor_step(30_461_741_978_670_859, 0, 2, 998_985_160_745_788_520, 30_430_828_207_159_242, 2_535_902_350_596_603);
    lemma_factor_step(30_461_741_978_670_859, 0, 1, 997_464_097_649_403_397, 30_384_493_975_583_880, 15_192_246_987_791_940);
    lemma_floor(174_532_925_199_432_957int * 994_930_770_045_298_690, 1_000_000_000_000_000_000, 173_648_177_666_930_348);
    assert(spec_sin(174_532_925_199_432_957) == 173_648_177_666_930_348);
    assert(spec_cos(174_532_925_199_432_957) == 984_807_753_012_208_060);
    lemma_floor(2int * 173_648_177_666_930_348int * 1_000_000_000 + 984_807_753_012_208_060, 2int * 984_807_753_012_208_060, 176_326_981);
    assert(spec_rounded(173_648_177_666_930_348, 984_807_753_012_208_060).raw == 176_326_981);
}
} // verus!
