//! Positions in ticks under a meter.
use crate::rational::{
    abs, cross_fits, fits, frac, gcd, lemma_frac, lemma_frac_lowest, lemma_frac_scale,
    lemma_lt_of_fracs, lowest, q_add, q_div, q_floor, q_int, q_lt, q_rem, q_sub, Rational,
};
use crate::signature::{Signature, Tick};
use vstd::arithmetic::div_mod::{
    lemma_div_multiples_vanish, lemma_fundamental_div_mod, lemma_mod_breakdown,
    lemma_mod_multiples_basic,
};
use vstd::prelude::*;

verus! {

/// Room for a position of `x` parts of a tick under `signature`: twice
/// `(x + ticks per beat + its denominator)` times the denominators fits `i64`.
pub open spec fn position_fits(signature: Signature, x: int) -> bool {
    2 * ((x + signature.ticks_per_beat.numer + signature.ticks_per_beat.denom)
        * signature.denom_product()) <= i64::MAX
}

/// A position in ticks under a meter. A value is never changed in place: advancing
/// or quantizing gives a new one.
#[derive(Clone, Copy, Debug, PartialEq, Eq, Structural)]
pub struct Time {
    ticks: Tick,
    signature: Signature,
}

/// `frac(x, s)` for a whole `x`: its denominator divides `s` and scaling back gives `x`.
proof fn lemma_scaled_form(x: int, s: int)
    requires
        x >= 0,
        s > 0,
    ensures
        ({
            let t = frac(x, s);
            &&& lowest(t)
            &&& 0 <= t.0 <= x
            &&& 0 < t.1 <= s
            &&& s % t.1 == 0
            &&& t.0 * (s / t.1) == x
        }),
{
    lemma_frac(x, s);
    let t = frac(x, s);
    let g = gcd(abs(x), abs(s)) as int;
    assert(t.0 >= 0) by (nonlinear_arith)
        requires
            x == g * t.0,
            g > 0,
            x >= 0,
    ;
    assert(s == t.1 * g && x == t.0 * g) by (nonlinear_arith)
        requires
            s == g * t.1,
            x == g * t.0,
    ;
    lemma_mod_multiples_basic(g, t.1);
    lemma_div_multiples_vanish(g, t.1);
    assert(t.1 * g == g * t.1) by (nonlinear_arith);
}

impl Time {
    pub closed spec fn spec_ticks(self) -> Tick {
        self.ticks
    }

    pub closed spec fn spec_signature(self) -> Signature {
        self.signature
    }

    /// The position counted in parts of a tick, one over the denominator of the
    /// ticks per beat.
    pub open spec fn scaled(self) -> int {
        self.spec_ticks().numer * (self.spec_signature().ticks_per_beat.denom
            / self.spec_ticks().denom)
    }

    /// A meter, a position not below zero whose denominator divides that of the
    /// ticks per beat, and room for the arithmetic on it.
    pub open spec fn wf(self) -> bool {
        &&& self.spec_signature().wf()
        &&& self.spec_ticks().wf()
        &&& self.spec_ticks().numer >= 0
        &&& self.spec_signature().ticks_per_beat.denom % self.spec_ticks().denom == 0
        &&& position_fits(self.spec_signature(), self.scaled())
    }

    /// The ticks since the last beat, as a fraction.
    pub open spec fn spec_ticks_since_beat(self) -> (int, int) {
        q_rem(self.spec_ticks()@, self.spec_signature().ticks_per_beat@)
    }

    pub open spec fn spec_ticks_before_beat(self) -> (int, int) {
        q_sub(self.spec_ticks()@, self.spec_ticks_since_beat())
    }

    pub open spec fn spec_beats(self) -> (int, int) {
        q_div(self.spec_ticks()@, self.spec_signature().ticks_per_beat@)
    }

    pub open spec fn spec_bars(self) -> (int, int) {
        q_div(self.spec_beats(), self.spec_signature().beats_per_bar@)
    }

    pub open spec fn spec_beats_since_bar(self) -> (int, int) {
        q_rem(self.spec_beats(), self.spec_signature().beats_per_bar@)
    }

    pub open spec fn spec_bars_since_loop(self) -> (int, int) {
        q_rem(self.spec_bars(), self.spec_signature().bars_per_loop@)
    }

    /// Where a tap at this position lands: back to the last beat when less than half
    /// a beat has passed since it, on to the next beat otherwise.
    pub open spec fn spec_quantized_ticks(self) -> (int, int) {
        let half_beat = q_div(self.spec_signature().ticks_per_beat@, q_int(2));
        if q_lt(self.spec_ticks_since_beat(), half_beat) {
            self.spec_ticks_before_beat()
        } else {
            q_add(self.spec_ticks_before_beat(), self.spec_signature().ticks_per_beat@)
        }
    }

    /// The position as the fraction `scaled / s`, with bounds on its terms.
    pub proof fn lemma_form(self)
        requires
            self.wf(),
        ensures
            ({
                let t = self.spec_ticks();
                let s = self.spec_signature().ticks_per_beat.denom as int;
                let x = self.scaled();
                &&& x >= 0
                &&& t@ == frac(x, s)
                &&& t.numer <= x
                &&& t.denom <= s
                &&& t.numer * s == t.denom * x
            }),
    {
        let t = self.spec_ticks();
        let s = self.spec_signature().ticks_per_beat.denom as int;
        let n = t.numer as int;
        let d = t.denom as int;
        let k = s / d;
        lemma_fundamental_div_mod(s, d);
        assert(s == d * k);
        assert(k >= 1 && n <= n * k && d <= s && n * s == d * (n * k) && k * n == n * k && k * d
            == s) by (nonlinear_arith)
            requires
                s == d * k,
                s >= 1,
                d >= 1,
                n >= 0,
        ;
        lemma_frac_scale(n, d, k);
        lemma_frac_lowest(n, d);
    }

    pub fn new(signature: Signature) -> (r: Time)
        requires
            signature.wf(),
        ensures
            r.wf(),
            r.spec_signature() == signature,
            r.spec_ticks()@ == q_int(0),
            r.scaled() == 0,
    {
        let r = Time { ticks: Rational::from_integer(0), signature };
        proof {
            signature.lemma_term_bounds();
            lemma_mod_multiples_basic(signature.ticks_per_beat.denom as int, 1);
        }
        r
    }

    pub fn ticks(&self) -> (r: Tick)
        ensures
            r == self.spec_ticks(),
    {
        self.ticks
    }

    /// The residue since the last beat is `(scaled mod r) / s`, and the last beat is at
    /// `(scaled - scaled mod r) / s`, where `r / s` is the ticks per beat.
    pub proof fn lemma_beat_residue(self)
        requires
            self.wf(),
        ensures
            ({
                let t = self.spec_ticks();
                let tpb = self.spec_signature().ticks_per_beat;
                let x = self.scaled();
                let r = tpb.numer as int;
                let s = tpb.denom as int;
                &&& cross_fits(t@, tpb@)
                &&& self.spec_ticks_since_beat() == frac(x % r, s)
                &&& cross_fits(t@, self.spec_ticks_since_beat())
                &&& self.spec_ticks_before_beat() == frac(x - x % r, s)
            }),
    {
        let sig = self.spec_signature();
        let t = self.spec_ticks();
        let tpb = sig.ticks_per_beat;
        let x = self.scaled();
        let r = tpb.numer as int;
        let s = tpb.denom as int;
        let n = t.numer as int;
        let d = t.denom as int;
        let k = sig.denom_product();
        self.lemma_form();
        sig.lemma_term_bounds();
        assert(n * s + r * d <= i64::MAX && d * s <= i64::MAX) by (nonlinear_arith)
            requires
                0 <= n <= x,
                1 <= d <= s,
                r >= 1,
                s <= k,
                2 * ((x + r + s) * k) <= i64::MAX,
                4 * (s * s) <= i64::MAX,
        ;
        assert(abs(n) == n);
        // the residue
        let m = x % r;
        assert(n * s == d * x);
        assert((d * x) % (d * r) == d * m) by {
            lemma_mod_breakdown(d * x, d, r);
            lemma_div_multiples_vanish(x, d);
            lemma_mod_multiples_basic(x, d);
            assert(x * d == d * x) by (nonlinear_arith);
        }
        assert(r * d == d * r) by (nonlinear_arith);
        lemma_frac_scale(m, s, d);
        assert(self.spec_ticks_since_beat() == frac(m, s));
        // the last beat
        lemma_fundamental_div_mod(x, r);
        assert(0 <= m < r);
        lemma_frac(m, s);
        let f = frac(m, s);
        let g = gcd(abs(m), abs(s)) as int;
        assert(m == g * f.0 && s == g * f.1);
        assert(0 <= f.0 <= m && 1 <= f.1 <= s) by (nonlinear_arith)
            requires
                m == g * f.0,
                s == g * f.1,
                g > 0,
                m >= 0,
                s >= 1,
        ;
        assert(abs(f.0) == f.0);
        assert(n * f.1 + f.0 * d <= i64::MAX && d * f.1 <= i64::MAX) by (nonlinear_arith)
            requires
                0 <= n <= x,
                1 <= d <= s,
                0 <= f.0 < r,
                1 <= f.1 <= s,
                s <= k,
                2 * ((x + r + s) * k) <= i64::MAX,
                4 * (s * s) <= i64::MAX,
        ;
        let a = n * f.1 - f.0 * d;
        let b = d * f.1;
        let c = g * k;
        let kk = s / d;
        lemma_fundamental_div_mod(s, d);
        assert(s == d * kk);
        assert(x == n * kk);
        assert((g * kk) * a == s * (x - m) && (g * kk) * b == s * s && g * kk > 0 && b > 0)
            by (nonlinear_arith)
            requires
                a == n * f.1 - f.0 * d,
                b == d * f.1,
                m == g * f.0,
                s == g * f.1,
                s == d * kk,
                x == n * kk,
                g > 0,
                s > 0,
                d > 0,
                f.1 > 0,
        ;
        lemma_frac_scale(a, b, g * kk);
        lemma_frac_scale(x - m, s, s);
    }

    /// Beats and bars of the position fit `i64`, and so do the residues formed on them.
    pub proof fn lemma_beats_and_bars(self)
        requires
            self.wf(),
        ensures
            ({
                let sig = self.spec_signature();
                &&& fits(self.spec_beats())
                &&& lowest(self.spec_beats())
                &&& self.spec_beats().0 >= 0
                &&& cross_fits(self.spec_beats(), sig.beats_per_bar@)
                &&& fits(self.spec_bars())
                &&& lowest(self.spec_bars())
                &&& self.spec_bars().0 >= 0
                &&& cross_fits(self.spec_bars(), sig.bars_per_loop@)
            }),
    {
        let sig = self.spec_signature();
        let t = self.spec_ticks();
        let x = self.scaled();
        let r = sig.ticks_per_beat.numer as int;
        let s = sig.ticks_per_beat.denom as int;
        let u = sig.beats_per_bar.numer as int;
        let v = sig.beats_per_bar.denom as int;
        let w = sig.bars_per_loop.numer as int;
        let z = sig.bars_per_loop.denom as int;
        let k = sig.denom_product();
        let n = t.numer as int;
        let d = t.denom as int;
        self.lemma_form();
        sig.lemma_term_bounds();
        assert(n * s == d * x);
        lemma_frac_scale(x, r, d);
        assert(self.spec_beats() == frac(x, r));
        lemma_frac(x, r);
        let b = frac(x, r);
        assert(0 <= b.0 <= x && 1 <= b.1 <= r) by (nonlinear_arith)
            requires
                x * b.1 == b.0 * r,
                abs(b.0) <= abs(x),
                b.1 <= r,
                b.1 > 0,
                x >= 0,
                r > 0,
        ;
        assert(x * k <= (x + r + s) * k && x <= x * k) by (nonlinear_arith)
            requires
                x >= 0,
                r >= 1,
                s >= 1,
                k >= 1,
        ;
        assert(abs(b.0) == b.0 && abs(u) == u && abs(w) == w);
        assert(b.0 * v <= x * k) by (nonlinear_arith)
            requires
                0 <= b.0 <= x,
                1 <= v <= k,
        ;
        assert(u * b.1 <= r * u && b.1 * u <= r * u && b.1 * v <= r * v && b.1 * u > 0 && b.0 * v
            <= x * v) by (nonlinear_arith)
            requires
                0 <= b.0 <= x,
                1 <= b.1 <= r,
                u >= 1,
                v >= 1,
        ;
        lemma_frac(b.0 * v, b.1 * u);
        let c = frac(b.0 * v, b.1 * u);
        assert(0 <= c.0 <= x * v && 1 <= c.1 <= r * u) by (nonlinear_arith)
            requires
                (b.0 * v) * c.1 == c.0 * (b.1 * u),
                abs(c.0) <= abs(b.0 * v),
                c.1 <= b.1 * u,
                c.1 > 0,
                b.0 >= 0,
                v >= 1,
                b.1 * u > 0,
                b.0 * v <= x * v,
                b.1 * u <= r * u,
        ;
        assert(abs(c.0) == c.0);
        assert(c.0 * z <= x * k) by (nonlinear_arith)
            requires
                0 <= c.0 <= x * v,
                x >= 0,
                z >= 1,
                v * z <= k,
        ;
        assert(w * c.1 <= r * u * w && c.1 * z <= r * u * z) by (nonlinear_arith)
            requires
                1 <= c.1 <= r * u,
                z >= 1,
                w >= 1,
        ;
        assert(x * v <= x * k) by (nonlinear_arith)
            requires
                x >= 0,
                1 <= v <= k,
        ;
    }

    /// Ticks since the last beat; the clock is on a beat where its whole part is zero.
    pub fn ticks_since_beat(&self) -> (r: Tick)
        requires
            self.wf(),
        ensures
            r.wf(),
            r.numer >= 0,
            r@ == self.spec_ticks_since_beat(),
    {
        proof {
            self.lemma_beat_residue();
        }
        self.ticks.rem(&self.signature.ticks_per_beat)
    }

    pub fn beats(&self) -> (r: Tick)
        requires
            self.wf(),
        ensures
            r.wf(),
            r@ == self.spec_beats(),
    {
        proof {
            self.lemma_beats_and_bars();
        }
        self.signature.ticks_to_beats(self.ticks)
    }

    pub fn bars(&self) -> (r: Tick)
        requires
            self.wf(),
        ensures
            r.wf(),
            r@ == self.spec_bars(),
    {
        proof {
            self.lemma_beats_and_bars();
        }
        self.signature.ticks_to_bars(self.ticks)
    }

    pub fn beats_since_bar(&self) -> (r: Tick)
        requires
            self.wf(),
        ensures
            r.wf(),
            r.numer >= 0,
            r@ == self.spec_beats_since_bar(),
    {
        proof {
            self.lemma_beats_and_bars();
        }
        self.beats().rem(&self.signature.beats_per_bar)
    }

    pub fn bars_since_loop(&self) -> (r: Tick)
        requires
            self.wf(),
        ensures
            r.wf(),
            r.numer >= 0,
            r@ == self.spec_bars_since_loop(),
    {
        proof {
            self.lemma_beats_and_bars();
        }
        self.bars().rem(&self.signature.bars_per_loop)
    }

    /// The position of the last beat at or before this one.
    pub fn ticks_before_beat(&self) -> (r: Tick)
        requires
            self.wf(),
        ensures
            r.wf(),
            r@ == self.spec_ticks_before_beat(),
    {
        proof {
            self.lemma_beat_residue();
        }
        self.ticks().sub(&self.ticks_since_beat())
    }

    /// The position one tick later, under the same meter.
    pub fn next(&self) -> (r: Time)
        requires
            self.wf(),
            position_fits(self.spec_signature(), self.scaled() + self.spec_signature().ticks_per_beat.denom),
        ensures
            r.wf(),
            r.spec_signature() == self.spec_signature(),
            r.spec_ticks()@ == q_add(self.spec_ticks()@, q_int(1)),
            r.scaled() == self.scaled() + self.spec_signature().ticks_per_beat.denom,
    {
        let one = Rational::from_integer(1);
        proof {
            let sig = self.spec_signature();
            let x = self.scaled();
            let s = sig.ticks_per_beat.denom as int;
            let n = self.ticks.numer as int;
            let d = self.ticks.denom as int;
            let k = sig.denom_product();
            self.lemma_form();
            sig.lemma_term_bounds();
            assert(abs(n) == n);
            assert(n + d <= x + s && x + s <= i64::MAX) by (nonlinear_arith)
                requires
                    0 <= n <= x,
                    1 <= d <= s,
                    k >= 1,
                    2 * ((x + s + sig.ticks_per_beat.numer + s) * k) <= i64::MAX,
                    sig.ticks_per_beat.numer >= 1,
            ;
            let kk = s / d;
            lemma_fundamental_div_mod(s, d);
            assert(kk * (n * 1 + 1 * d) == x + s && kk * (d * 1) == s && kk > 0) by (nonlinear_arith)
                requires
                    s == d * kk,
                    x == n * kk,
                    s > 0,
                    d > 0,
            ;
            lemma_frac_scale(n * 1 + 1 * d, d * 1, kk);
            lemma_scaled_form(x + s, s);
        }
        Time { ticks: self.ticks.add(&one), signature: self.signature }
    }

    /// Moves a tap onto the beat it meant: back to the last beat when less than half a
    /// beat has passed since it, on to the next beat otherwise (half a beat exactly
    /// goes on).
    pub fn quantize_beat(&self) -> (r: Time)
        requires
            self.wf(),
            position_fits(self.spec_signature(), self.scaled() + self.spec_signature().ticks_per_beat.numer),
        ensures
            r.wf(),
            r.spec_signature() == self.spec_signature(),
            r.spec_ticks()@ == self.spec_quantized_ticks(),
            ({
                let x = self.scaled();
                let b = self.spec_signature().ticks_per_beat.numer as int;
                r.scaled() == if 2 * (x % b) < b {
                    x - x % b
                } else {
                    x - x % b + b
                }
            }),
    {
        let ticks_per_beat = self.signature.ticks_per_beat();
        let two = Rational::from_integer(2);
        let ghost sig = self.spec_signature();
        let ghost x = self.scaled();
        let ghost b = sig.ticks_per_beat.numer as int;
        let ghost s = sig.ticks_per_beat.denom as int;
        let ghost k = sig.denom_product();
        let ghost m = x % b;
        proof {
            self.lemma_form();
            self.lemma_beat_residue();
            sig.lemma_term_bounds();
            lemma_fundamental_div_mod(x, b);
            lemma_frac(b * 1, s * 2);
            assert(2 * s <= i64::MAX && s * 2 > 0) by (nonlinear_arith)
                requires
                    4 * (s * s) <= i64::MAX,
                    s >= 1,
            ;
            lemma_lt_of_fracs(m, s, b * 1, s * 2);
            assert(m * (s * 2) < (b * 1) * s <==> 2 * m < b) by (nonlinear_arith)
                requires
                    s > 0,
            ;
        }
        let ticks_per_half_beat = ticks_per_beat.div(&two);
        let before = self.ticks_before_beat();
        let ticks = if self.ticks_since_beat().lt(&ticks_per_half_beat) {
            proof {
                lemma_scaled_form(x - m, s);
            }
            before
        } else {
            proof {
                lemma_scaled_form(x - m, s);
                let f = frac(x - m, s);
                lemma_frac(x - m, s);
                let g = gcd(abs(x - m), abs(s)) as int;
                assert(x - m == g * f.0 && s == g * f.1);
                assert(abs(f.0) == f.0);
                assert(f.0 * s + b * f.1 <= i64::MAX && f.1 * s <= i64::MAX) by (nonlinear_arith)
                    requires
                        0 <= f.0 <= x,
                        1 <= f.1 <= s,
                        b >= 1,
                        s <= k,
                        2 * ((x + b + s) * k) <= i64::MAX,
                        4 * (s * s) <= i64::MAX,
                ;
                assert(g * (f.0 * s + b * f.1) == s * (x - m + b) && g * (f.1 * s) == s * s && g > 0
                    && f.1 * s > 0)
                    by (nonlinear_arith)
                    requires
                        x - m == g * f.0,
                        s == g * f.1,
                        s > 0,
                        f.1 > 0,
                ;
                lemma_frac_scale(f.0 * s + b * f.1, f.1 * s, g);
                lemma_frac_scale(x - m + b, s, s);
                lemma_scaled_form(x - m + b, s);
                assert(x - m + b <= i64::MAX) by (nonlinear_arith)
                    requires
                        2 * ((x + b + b + s) * k) <= i64::MAX,
                        k >= 1,
                        x >= m,
                        m >= 0,
                        s >= 1,
                        b >= 1,
                ;
            }
            before.add(&ticks_per_beat)
        };
        proof {
            assert(x - m >= 0);
            assert(2 * ((x - m + b + s) * k) <= 2 * ((x + b + s) * k)) by (nonlinear_arith)
                requires m >= 0, k >= 1;
            assert(2 * ((x - m + b + b + s) * k) <= 2 * ((x + b + b + s) * k)) by (nonlinear_arith)
                requires m >= 0, k >= 1;
        }
        Time { ticks, signature: self.signature }
    }

    /// Whether the position can advance by one tick and stay in range.
    pub fn can_advance(&self) -> (r: bool)
        requires
            self.wf(),
        ensures
            r == position_fits(self.spec_signature(), self.scaled() + self.spec_signature().ticks_per_beat.denom),
    {
        let s = self.signature.ticks_per_beat.denom;
        proof {
            self.signature.lemma_term_bounds();
            assert(4 * s <= i64::MAX) by (nonlinear_arith)
                requires 4 * (s * s) <= i64::MAX, s >= 1;
        }
        self.has_room(s)
    }

    /// Whether the position can be moved on to the next beat and stay in range.
    pub fn can_quantize(&self) -> (r: bool)
        requires
            self.wf(),
        ensures
            r == position_fits(self.spec_signature(), self.scaled() + self.spec_signature().ticks_per_beat.numer),
    {
        let b = self.signature.ticks_per_beat.numer;
        proof {
            self.signature.lemma_term_bounds();
            assert(4 * b <= i64::MAX) by (nonlinear_arith)
                requires 4 * (b * self.signature.ticks_per_beat.denom) <= i64::MAX, b >= 1,
                    self.signature.ticks_per_beat.denom >= 1;
        }
        self.has_room(b)
    }

    fn has_room(&self, extra: i64) -> (r: bool)
        requires
            self.wf(),
            extra >= 1,
            4 * extra <= i64::MAX,
        ensures
            r == position_fits(self.spec_signature(), self.scaled() + extra),
    {
        let sig = self.signature;
        let b = sig.ticks_per_beat.numer;
        let s = sig.ticks_per_beat.denom;
        let v = sig.beats_per_bar.denom;
        let z = sig.bars_per_loop.denom;
        proof {
            self.lemma_form();
            sig.lemma_term_bounds();
            sig.lemma_products();
            let x = self.scaled();
            let k = sig.denom_product();
            assert(4 * b <= i64::MAX && 4 * s <= i64::MAX) by (nonlinear_arith)
                requires 4 * (b * s) <= i64::MAX, b >= 1, s >= 1;
            assert(x <= i64::MAX / 2 && k <= i64::MAX) by (nonlinear_arith)
                requires
                    x >= 0,
                    k >= 1,
                    b >= 1,
                    s >= 1,
                    2 * ((x + b + s) * k) <= i64::MAX,
                    4 * (s * s) <= i64::MAX,
                    s <= k,
                    4 * sig.size() <= i64::MAX,
                    sig.size() == sig.numer_product() * k * s,
                    sig.numer_product() >= 1,
            ;
            lemma_fundamental_div_mod(s as int, self.ticks.denom as int);
            assert(s * v <= k) by (nonlinear_arith)
                requires k == s * v * z, s >= 1, v >= 1, z >= 1;
        }
        let x: i64 = self.ticks.numer * (s / self.ticks.denom);
        let k: i64 = s * v * z;
        let total: u128 = (x as u128) + (extra as u128) + (b as u128) + (s as u128);
        proof {
            assert(total < 0x1_0000_0000_0000_0000);
            assert(total * k < 0x1_0000_0000_0000_0000_0000_0000_0000_0000) by (nonlinear_arith)
                requires
                    0 <= total < 0x1_0000_0000_0000_0000,
                    0 <= k < 0x8000_0000_0000_0000,
            ;
        }
        total * (k as u128) <= (i64::MAX / 2) as u128
    }

    /// On the first tick of a beat.
    pub fn is_first_tick(&self) -> (r: bool)
        requires
            self.wf(),
        ensures
            r == (q_floor(self.spec_ticks_since_beat()).0 == 0),
    {
        self.ticks_since_beat().floor().numer == 0
    }

    /// On the first beat of a bar.
    pub fn is_first_beat(&self) -> (r: bool)
        requires
            self.wf(),
        ensures
            r == (q_floor(self.spec_beats_since_bar()).0 == 0),
    {
        self.beats_since_bar().floor().numer == 0
    }

    /// On the first bar of a loop.
    pub fn is_first_bar(&self) -> (r: bool)
        requires
            self.wf(),
        ensures
            r == (q_floor(self.spec_bars_since_loop()).0 == 0),
    {
        self.bars_since_loop().floor().numer == 0
    }
}

/// Quantizing a position that is already on a beat leaves it where it is.
pub proof fn lemma_quantize_on_beat(time: Time)
    requires
        time.wf(),
        time.spec_ticks_since_beat().0 == 0,
    ensures
        time.spec_quantized_ticks() == time.spec_ticks()@,
{
    let sig = time.spec_signature();
    let x = time.scaled();
    let r = sig.ticks_per_beat.numer as int;
    let s = sig.ticks_per_beat.denom as int;
    time.lemma_form();
    time.lemma_beat_residue();
    sig.lemma_term_bounds();
    lemma_fundamental_div_mod(x, r);
    let m = x % r;
    lemma_frac(m, s);
    let f = frac(m, s);
    assert(m == 0) by (nonlinear_arith)
        requires
            m * f.1 == f.0 * s,
            f.0 == 0,
            f.1 > 0,
            s > 0,
    ;
    assert(s * 2 > 0);
    lemma_lt_of_fracs(m, s, r * 1, s * 2);
    assert(m * (s * 2) < (r * 1) * s) by (nonlinear_arith)
        requires
            m == 0,
            r > 0,
            s > 0,
    ;
}

/// A position exactly half a beat past the last beat goes on to the next beat.
pub proof fn lemma_quantize_half_beat_goes_on(time: Time)
    requires
        time.wf(),
        time.spec_ticks_since_beat() == q_div(time.spec_signature().ticks_per_beat@, q_int(2)),
    ensures
        time.spec_quantized_ticks() == q_add(
            time.spec_ticks_before_beat(),
            time.spec_signature().ticks_per_beat@,
        ),
{
}

} // verus!
