use vstd::prelude::*;

verus! {

/// Angle units in a full turn: angles are measured in tenths of a degree.
pub const FULL_TURN: u64 = 3600;

/// Angle units in a half turn.
pub const HALF_TURN: u64 = 1800;

/// Angle units in a quarter turn.
pub const QUARTER_TURN: u64 = 900;

/// The fixed-point value that stands for 1 in sines and cosines.
pub const TRIG_ONE: u64 = 16384;

/// Bhaskara's rational approximation of the sine on a half turn,
/// `16 x (H - x) / (5 H^2 - 4 x (H - x))`, scaled by `TRIG_ONE`.
pub open spec fn half_sine(x: int) -> int {
    let p = x * (HALF_TURN - x);
    (16 * p * TRIG_ONE) / (5 * HALF_TURN * HALF_TURN - 4 * p)
}

/// The sine of an angle, in units of `1 / TRIG_ONE`, by Bhaskara's rational
/// approximation (`half_sine`): within about 0.0016 of the true sine, and exact
/// at 0, 30 and 90 degrees. Every direction, move and distance the library
/// proves is relative to this approximation.
pub open spec fn sine(a: int) -> int {
    let t = a % (FULL_TURN as int);
    if t < HALF_TURN {
        half_sine(t)
    } else {
        -half_sine(t - HALF_TURN)
    }
}

/// The cosine of an angle, a quarter turn ahead of the sine: Bhaskara's
/// approximation too, within about 0.0016 of the true cosine.
pub open spec fn cosine(a: int) -> int {
    sine(a + QUARTER_TURN)
}

/// An angle reduced to one full turn.
pub open spec fn turned(heading: int, by: int) -> int {
    (heading + by) % (FULL_TURN as int)
}

pub proof fn lemma_half_sine_bounds(x: int)
    requires
        0 <= x <= HALF_TURN,
    ensures
        0 <= half_sine(x) <= TRIG_ONE,
        0 < x < HALF_TURN ==> half_sine(x) > 0,
        x == 0 || x == HALF_TURN ==> half_sine(x) == 0,
        x == QUARTER_TURN ==> half_sine(x) == TRIG_ONE,
{
    let h = HALF_TURN as int;
    let p = x * (h - x);
    assert(0 <= p <= h * h / 4) by (nonlinear_arith)
        requires
            0 <= x <= h,
            p == x * (h - x),
            h == 1800,
    ;
    let num = 16 * p * TRIG_ONE;
    let den = 5 * h * h - 4 * p;
    assert(den > 0);
    assert(num <= TRIG_ONE * den) by (nonlinear_arith)
        requires
            num == 16 * p * 16384,
            den == 5 * h * h - 4 * p,
            p <= h * h / 4,
            h == 1800,
    ;
    assert(num / den <= TRIG_ONE) by (nonlinear_arith)
        requires
            0 <= num <= TRIG_ONE * den,
            den > 0,
    ;
    assert(num / den >= 0) by (nonlinear_arith)
        requires
            0 <= num,
            den > 0,
    ;
    if 0 < x < h {
        assert(p >= h - 1) by (nonlinear_arith)
            requires
                1 <= x <= h - 1,
                p == x * (h - x),
        ;
        assert(num >= den);
        assert(num / den >= 1) by (nonlinear_arith)
            requires
                num >= den,
                den > 0,
        ;
    }
    if x == 0 || x == h {
        assert(p == 0) by (nonlinear_arith)
            requires
                x == 0 || x == h,
                p == x * (h - x),
        ;
        assert(num == 0);
    }
    if x == QUARTER_TURN {
        assert(p == 900 * 900);
        assert(num == 16 * 810000 * 16384);
        assert(den == 12960000);
        assert(num == 16384 * den);
        vstd::arithmetic::div_mod::lemma_div_multiples_vanish(16384, den);
    }
}

/// Sines and cosines lie in `[-TRIG_ONE, TRIG_ONE]`, and they are never both zero.
pub proof fn lemma_unit_direction(a: int)
    ensures
        -TRIG_ONE <= sine(a) <= TRIG_ONE,
        -TRIG_ONE <= cosine(a) <= TRIG_ONE,
        sine(a) != 0 || cosine(a) != 0,
{
    let ghost f = FULL_TURN as int;
    let t = a % f;
    let u = (a + QUARTER_TURN) % f;
    if t < HALF_TURN {
        lemma_half_sine_bounds(t);
    } else {
        lemma_half_sine_bounds(t - HALF_TURN);
    }
    if u < HALF_TURN {
        lemma_half_sine_bounds(u);
    } else {
        lemma_half_sine_bounds(u - HALF_TURN);
    }
    if sine(a) == 0 {
        assert(t == 0 || t == HALF_TURN);
        if t == 0 {
            assert(u == QUARTER_TURN) by {
                vstd::arithmetic::div_mod::lemma_add_mod_noop(a, QUARTER_TURN as int, f);
            }
        } else {
            assert(u == HALF_TURN + QUARTER_TURN) by {
                vstd::arithmetic::div_mod::lemma_add_mod_noop(a, QUARTER_TURN as int, f);
            }
        }
    }
}

/// The sine of `a` by Bhaskara's approximation, scaled by `TRIG_ONE`.
pub fn sin_of(a: u64) -> (r: i64)
    ensures
        r == sine(a as int),
        -TRIG_ONE <= r <= TRIG_ONE,
{
    proof {
        lemma_unit_direction(a as int);
    }
    let t = a % FULL_TURN;
    let (x, neg) = if t < HALF_TURN {
        (t, false)
    } else {
        (t - HALF_TURN, true)
    };
    assert(x * (HALF_TURN - x) <= HALF_TURN * HALF_TURN) by (nonlinear_arith)
        requires
            x <= HALF_TURN,
    ;
    let p = x * (HALF_TURN - x);
    assert(p <= HALF_TURN * HALF_TURN) by (nonlinear_arith)
        requires
            x <= HALF_TURN,
            p == x * (HALF_TURN - x),
    ;
    let den = 5 * HALF_TURN * HALF_TURN - 4 * p;
    assert(den >= HALF_TURN * HALF_TURN);
    let v = (16 * p * TRIG_ONE) / den;
    assert(v <= TRIG_ONE) by {
        lemma_half_sine_bounds(x as int);
    }
    if neg {
        -(v as i64)
    } else {
        v as i64
    }
}

/// The cosine of `a` by Bhaskara's approximation, scaled by `TRIG_ONE`.
pub fn cos_of(a: u64) -> (r: i64)
    requires
        a <= FULL_TURN,
    ensures
        r == cosine(a as int),
        -TRIG_ONE <= r <= TRIG_ONE,
{
    sin_of(a + QUARTER_TURN)
}

/// Turns an angle in `[0, FULL_TURN)` by a signed amount, wrapping round a full turn.
pub fn turn(heading: u64, by: i64) -> (r: u64)
    requires
        heading < FULL_TURN,
    ensures
        r == turned(heading as int, by as int),
        r < FULL_TURN,
{
    let ghost f = FULL_TURN as int;
    if by >= 0 {
        let s = heading + (by as u64) % FULL_TURN;
        proof {
            vstd::arithmetic::div_mod::lemma_add_mod_noop(heading as int, by as int, f);
            vstd::arithmetic::div_mod::lemma_small_mod(heading as nat, FULL_TURN as nat);
            vstd::arithmetic::div_mod::lemma_mod_twice(by as int, f);
            vstd::arithmetic::div_mod::lemma_add_mod_noop(heading as int, (by as int) % f, f);
        }
        s % FULL_TURN
    } else {
        let n: u64 = (-(by as i128)) as u64;
        let rem = n % FULL_TURN;
        let s = heading + (FULL_TURN - rem);
        proof {
            let q = (n as int) / f;
            vstd::arithmetic::div_mod::lemma_fundamental_div_mod(n as int, f);
            assert(heading + by == s + f * (-q - 1));
            vstd::arithmetic::div_mod::lemma_mod_multiples_vanish(-q - 1, s as int, f);
        }
        s % FULL_TURN
    }
}

} // verus!
