//! The meter, and conversions between ticks, beats, bars, loops and nanoseconds.
use crate::rational::{
    abs, fits, frac, gcd, lemma_div_mul_cancel, lemma_frac, lemma_product_denominator, lowest,
    q_div, q_int, q_mul, Rational,
};
use vstd::prelude::*;

verus! {

pub const SECONDS_PER_MINUTE: i64 = 60;

pub const NANOS_PER_SECOND: i64 = 1_000_000_000;

pub const NANOS_PER_MINUTE: i64 = SECONDS_PER_MINUTE * NANOS_PER_SECOND;

pub const DEFAULT_TICKS_PER_BEAT: i64 = 16;

pub const DEFAULT_BEATS_PER_BAR: i64 = 4;

pub const DEFAULT_BARS_PER_LOOP: i64 = 4;

pub const DEFAULT_BEATS_PER_MINUTE: i64 = 60;

/// A tick position or count, exact.
pub type Tick = Rational;

/// Beats per minute.
pub type Tempo = Rational;

/// A change of tempo, in beats per minute.
pub type NudgeTempo = Rational;

/// The length of a beat in nanoseconds at `bpm` beats per minute.
pub open spec fn nanos_per_beat_at(bpm: (int, int)) -> (int, int) {
    q_div(q_int(NANOS_PER_MINUTE as int), bpm)
}

/// The meter: ticks per beat, beats per bar, bars per loop.
#[derive(Clone, Copy, Debug, PartialEq, Eq, Structural)]
pub struct Signature {
    pub ticks_per_beat: Tick,
    pub beats_per_bar: Tick,
    pub bars_per_loop: Tick,
}

impl Signature {
    /// The product of the three numerators.
    pub open spec fn numer_product(self) -> int {
        self.ticks_per_beat.numer * self.beats_per_bar.numer * self.bars_per_loop.numer
    }

    /// The product of the three denominators.
    pub open spec fn denom_product(self) -> int {
        self.ticks_per_beat.denom * self.beats_per_bar.denom * self.bars_per_loop.denom
    }

    /// The product of all six terms, and once more the ticks-per-beat denominator.
    pub open spec fn size(self) -> int {
        self.numer_product() * self.denom_product() * self.ticks_per_beat.denom
    }

    /// Three positive fractions in lowest terms, small enough that every product of
    /// terms formed while converting positions fits `i64`.
    pub open spec fn wf(self) -> bool {
        &&& self.ticks_per_beat.wf()
        &&& self.beats_per_bar.wf()
        &&& self.bars_per_loop.wf()
        &&& self.ticks_per_beat.numer > 0
        &&& self.beats_per_bar.numer > 0
        &&& self.bars_per_loop.numer > 0
        &&& 4 * self.size() <= i64::MAX
    }

    pub open spec fn spec_ticks_per_bar(self) -> (int, int) {
        q_mul(self.ticks_per_beat@, self.beats_per_bar@)
    }

    pub open spec fn spec_ticks_per_loop(self) -> (int, int) {
        q_mul(self.spec_ticks_per_bar(), self.bars_per_loop@)
    }

    pub open spec fn spec_nanos_per_tick(self, bpm: (int, int)) -> (int, int) {
        q_div(nanos_per_beat_at(bpm), self.ticks_per_beat@)
    }

    pub open spec fn spec_nanos_per_bar(self, bpm: (int, int)) -> (int, int) {
        q_mul(nanos_per_beat_at(bpm), self.beats_per_bar@)
    }

    pub open spec fn spec_nanos_per_loop(self, bpm: (int, int)) -> (int, int) {
        q_mul(self.spec_nanos_per_bar(bpm), self.bars_per_loop@)
    }

    /// 16 ticks per beat, 4 beats per bar, 4 bars per loop.
    pub fn default() -> (r: Signature)
        ensures
            r.wf(),
            r.ticks_per_beat@ == q_int(DEFAULT_TICKS_PER_BEAT as int),
            r.beats_per_bar@ == q_int(DEFAULT_BEATS_PER_BAR as int),
            r.bars_per_loop@ == q_int(DEFAULT_BARS_PER_LOOP as int),
    {
        let r = Signature {
            ticks_per_beat: Rational::from_integer(DEFAULT_TICKS_PER_BEAT),
            beats_per_bar: Rational::from_integer(DEFAULT_BEATS_PER_BAR),
            bars_per_loop: Rational::from_integer(DEFAULT_BARS_PER_LOOP),
        };
        proof {
            assert(r.numer_product() == 256);
            assert(r.denom_product() == 1);
        }
        r
    }

    pub fn ticks_per_beat(&self) -> (r: Tick)
        ensures
            r == self.ticks_per_beat,
    {
        self.ticks_per_beat
    }

    pub fn ticks_per_bar(&self) -> (r: Tick)
        requires
            self.wf(),
        ensures
            r.wf(),
            r@ == self.spec_ticks_per_bar(),
    {
        proof {
            self.lemma_products();
        }
        self.ticks_per_beat().mul(&self.beats_per_bar)
    }

    pub fn ticks_per_loop(&self) -> (r: Tick)
        requires
            self.wf(),
        ensures
            r.wf(),
            r@ == self.spec_ticks_per_loop(),
    {
        proof {
            self.lemma_products();
        }
        self.ticks_per_bar().mul(&self.bars_per_loop)
    }

    /// Bounds on products of the meter's terms.
    pub proof fn lemma_term_bounds(self)
        requires
            self.wf(),
        ensures
            ({
                let r = self.ticks_per_beat.numer as int;
                let s = self.ticks_per_beat.denom as int;
                let u = self.beats_per_bar.numer as int;
                let v = self.beats_per_bar.denom as int;
                let w = self.bars_per_loop.numer as int;
                let z = self.bars_per_loop.denom as int;
                let k = self.denom_product();
                &&& r >= 1 && s >= 1 && u >= 1 && v >= 1 && w >= 1 && z >= 1
                &&& k == s * v * z
                &&& s <= k && v <= k && v * z <= k
                &&& 4 * (s * s) <= i64::MAX
                &&& 4 * (r * s) <= i64::MAX
                &&& 4 * (r * v) <= i64::MAX
                &&& 4 * (r * u) <= i64::MAX
                &&& 4 * (r * u * z) <= i64::MAX
                &&& 4 * (r * u * w) <= i64::MAX
                &&& 2 * ((r + s) * k) <= i64::MAX
            }),
    {
        let r = self.ticks_per_beat.numer as int;
        let s = self.ticks_per_beat.denom as int;
        let u = self.beats_per_bar.numer as int;
        let v = self.beats_per_bar.denom as int;
        let w = self.bars_per_loop.numer as int;
        let z = self.bars_per_loop.denom as int;
        let k = self.denom_product();
        let n = self.numer_product();
        assert(n == r * u * w && k == s * v * z);
        assert(s <= k && v <= k && z <= k && v * z <= k && k >= 1) by (nonlinear_arith)
            requires
                k == s * v * z,
                s >= 1,
                v >= 1,
                z >= 1,
        ;
        assert(r <= r * u && r * u <= n && n >= 1) by (nonlinear_arith)
            requires
                n == r * u * w,
                r >= 1,
                u >= 1,
                w >= 1,
        ;
        assert(r * u * z <= n * k) by (nonlinear_arith)
            requires
                r * u <= n,
                r * u >= 1,
                z >= 1,
                z <= k,
        ;
        assert(4 * (n * k * s) <= i64::MAX);
        assert(s * s <= n * k * s && r * s <= n * k * s && r * v <= n * k * s && r * u <= n * k * s
            && r * u * z <= n * k * s && n <= n * k * s) by (nonlinear_arith)
            requires
                r >= 1,
                s >= 1,
                n >= 1,
                k >= 1,
                r <= n,
                s <= k,
                v <= k,
                r * u <= n,
                r * u * z <= n * k,
        ;
        assert((r + s) * k <= 2 * (n * k * s)) by (nonlinear_arith)
            requires
                r >= 1,
                s >= 1,
                k >= 1,
                r <= n,
                n >= 1,
        ;
    }

    /// Facts on the meter's terms that the conversions need.
    pub proof fn lemma_products(self)
        requires
            self.wf(),
        ensures
            fits(self.spec_ticks_per_bar()),
            fits(self.spec_ticks_per_loop()),
            self.numer_product() >= 1,
            self.denom_product() >= 1,
    {
        let r = self.ticks_per_beat.numer as int;
        let s = self.ticks_per_beat.denom as int;
        let u = self.beats_per_bar.numer as int;
        let v = self.beats_per_bar.denom as int;
        let w = self.bars_per_loop.numer as int;
        let z = self.bars_per_loop.denom as int;
        assert(r * u <= i64::MAX && s * v <= i64::MAX && r * u * w <= i64::MAX && s * v * z
            <= i64::MAX && r * u * w >= 1 && s * v * z >= 1 && r * u >= 1 && s * v >= 1)
            by (nonlinear_arith)
            requires
                r >= 1,
                s >= 1,
                u >= 1,
                v >= 1,
                w >= 1,
                z >= 1,
                4 * (r * u * w * (s * v * z) * s) <= i64::MAX,
        ;
        lemma_frac(r * u, s * v);
        let b = frac(r * u, s * v);
        assert(abs(b.0 * w) <= r * u * w && b.1 * z <= s * v * z && b.1 * z > 0) by (nonlinear_arith)
            requires
                abs(b.0) <= r * u,
                b.1 <= s * v,
                b.1 > 0,
                w >= 1,
                z >= 1,
        ;
        lemma_frac(b.0 * w, b.1 * z);
    }

    pub fn ticks_to_beats(&self, ticks: Tick) -> (r: Tick)
        requires
            self.wf(),
            ticks.wf(),
            fits(q_div(ticks@, self.ticks_per_beat@)),
        ensures
            r.wf(),
            r@ == q_div(ticks@, self.ticks_per_beat@),
    {
        ticks.div(&self.ticks_per_beat)
    }

    pub fn ticks_to_bars(&self, ticks: Tick) -> (r: Tick)
        requires
            self.wf(),
            ticks.wf(),
            fits(q_div(ticks@, self.ticks_per_beat@)),
            fits(q_div(q_div(ticks@, self.ticks_per_beat@), self.beats_per_bar@)),
        ensures
            r.wf(),
            r@ == q_div(q_div(ticks@, self.ticks_per_beat@), self.beats_per_bar@),
    {
        self.ticks_to_beats(ticks).div(&self.beats_per_bar)
    }

    pub fn ticks_to_loops(&self, ticks: Tick) -> (r: Tick)
        requires
            self.wf(),
            ticks.wf(),
            fits(q_div(ticks@, self.ticks_per_beat@)),
            fits(q_div(q_div(ticks@, self.ticks_per_beat@), self.beats_per_bar@)),
            fits(
                q_div(
                    q_div(q_div(ticks@, self.ticks_per_beat@), self.beats_per_bar@),
                    self.bars_per_loop@,
                ),
            ),
        ensures
            r.wf(),
            r@ == q_div(
                q_div(q_div(ticks@, self.ticks_per_beat@), self.beats_per_bar@),
                self.bars_per_loop@,
            ),
    {
        self.ticks_to_bars(ticks).div(&self.bars_per_loop)
    }

    /// A beat's length in nanoseconds, over the ticks of a beat.
    pub fn nanos_per_tick(&self, beats_per_minute: Tempo) -> (r: Tick)
        requires
            self.wf(),
            beats_per_minute.wf(),
            beats_per_minute.numer > 0,
            fits(nanos_per_beat_at(beats_per_minute@)),
            fits(self.spec_nanos_per_tick(beats_per_minute@)),
        ensures
            r.wf(),
            r@ == self.spec_nanos_per_tick(beats_per_minute@),
    {
        let nanos_per_beat = self.nanos_per_beat(beats_per_minute);
        nanos_per_beat.div(&self.ticks_per_beat)
    }

    /// A minute in nanoseconds, over the beats of a minute.
    pub fn nanos_per_beat(&self, beats_per_minute: Tempo) -> (r: Tick)
        requires
            beats_per_minute.wf(),
            beats_per_minute.numer > 0,
            fits(nanos_per_beat_at(beats_per_minute@)),
        ensures
            r.wf(),
            r@ == nanos_per_beat_at(beats_per_minute@),
    {
        Rational::from_integer(NANOS_PER_MINUTE).div(&beats_per_minute)
    }

    pub fn nanos_per_bar(&self, beats_per_minute: Tempo) -> (r: Tick)
        requires
            self.wf(),
            beats_per_minute.wf(),
            beats_per_minute.numer > 0,
            fits(nanos_per_beat_at(beats_per_minute@)),
            fits(self.spec_nanos_per_bar(beats_per_minute@)),
        ensures
            r.wf(),
            r@ == self.spec_nanos_per_bar(beats_per_minute@),
    {
        self.nanos_per_beat(beats_per_minute).mul(&self.beats_per_bar)
    }

    pub fn nanos_per_loop(&self, beats_per_minute: Tempo) -> (r: Tick)
        requires
            self.wf(),
            beats_per_minute.wf(),
            beats_per_minute.numer > 0,
            fits(nanos_per_beat_at(beats_per_minute@)),
            fits(self.spec_nanos_per_bar(beats_per_minute@)),
            fits(self.spec_nanos_per_loop(beats_per_minute@)),
        ensures
            r.wf(),
            r@ == self.spec_nanos_per_loop(beats_per_minute@),
    {
        self.nanos_per_bar(beats_per_minute).mul(&self.bars_per_loop)
    }

    /// The tempo at which a tick lasts `nanos_per_tick` nanoseconds.
    pub fn beats_per_minute(&self, nanos_per_tick: Tick) -> (r: Tempo)
        requires
            self.wf(),
            nanos_per_tick.wf(),
            nanos_per_tick.numer > 0,
            fits(q_mul(nanos_per_tick@, self.ticks_per_beat@)),
            fits(q_div(q_int(NANOS_PER_MINUTE as int), q_mul(nanos_per_tick@, self.ticks_per_beat@))),
        ensures
            r.wf(),
            r@ == q_div(q_int(NANOS_PER_MINUTE as int), q_mul(nanos_per_tick@, self.ticks_per_beat@)),
    {
        let nanos_per_beat = nanos_per_tick.mul(&self.ticks_per_beat);
        proof {
            lemma_product_denominator(nanos_per_tick@.1, self.ticks_per_beat@.1);
            lemma_frac(nanos_per_tick@.0 * self.ticks_per_beat@.0,
                nanos_per_tick@.1 * self.ticks_per_beat@.1);
            assert(nanos_per_tick@.0 * self.ticks_per_beat@.0 > 0) by (nonlinear_arith)
                requires nanos_per_tick@.0 > 0, self.ticks_per_beat@.0 > 0;
            assert(nanos_per_beat.numer > 0) by (nonlinear_arith)
                requires
                    (nanos_per_tick@.0 * self.ticks_per_beat@.0) * nanos_per_beat@.1 == nanos_per_beat@.0 * (nanos_per_tick@.1 * self.ticks_per_beat@.1),
                    nanos_per_tick@.0 * self.ticks_per_beat@.0 > 0,
                    nanos_per_beat@.1 > 0,
                    nanos_per_tick@.1 * self.ticks_per_beat@.1 > 0;
        }
        Rational::from_integer(NANOS_PER_MINUTE).div(&nanos_per_beat)
    }
}

/// The remainder of `elapsed` nanoseconds by a period, with room to subtract it from
/// the period.
pub open spec fn period_fits(period: (int, int)) -> bool {
    fits(period) && 2 * (period.0 * period.1) <= i64::MAX && period.1 * period.1 <= i64::MAX
}

impl Signature {
    /// A tempo under which the pacing arithmetic stays within `i64`: positive, with
    /// the beat and tick lengths, and twice the beat, representable.
    pub open spec fn tempo_in_range(self, bpm: Rational) -> bool {
        self.tempo_fits(bpm@)
    }

    /// `tempo_in_range` for a tempo given as a fraction.
    pub open spec fn tempo_fits(self, bpm: (int, int)) -> bool {
        &&& lowest(bpm)
        &&& fits(bpm)
        &&& bpm.0 > 0
        &&& fits(nanos_per_beat_at(bpm))
        &&& fits(q_mul(nanos_per_beat_at(bpm), q_int(2)))
        &&& period_fits(self.spec_nanos_per_tick(bpm))
    }

    /// Whether the clock can run at `bpm` under this meter.
    pub fn accepts_tempo(&self, bpm: &Tempo) -> (r: bool)
        requires
            self.wf(),
        ensures
            r == self.tempo_in_range(*bpm),
    {
        if !bpm.is_wf() || bpm.numer <= 0 {
            return false;
        }
        let nanos_per_beat = match Rational::from_integer(NANOS_PER_MINUTE).checked_div(bpm) {
            Some(n) => n,
            None => return false,
        };
        if nanos_per_beat.checked_mul(&Rational::from_integer(2)).is_none() {
            return false;
        }
        let nanos_per_tick = match nanos_per_beat.checked_div(&self.ticks_per_beat) {
            Some(n) => n,
            None => return false,
        };
        let n = nanos_per_tick.numer as i128;
        let d = nanos_per_tick.denom as i128;
        proof {
            assert(-0x4000_0000_0000_0000_0000_0000_0000_0000 < n * d < 0x4000_0000_0000_0000_0000_0000_0000_0000
                && 0 < d * d < 0x4000_0000_0000_0000_0000_0000_0000_0000) by (nonlinear_arith)
                requires
                    -0x8000_0000_0000_0000 < n < 0x8000_0000_0000_0000,
                    0 < d < 0x8000_0000_0000_0000,
            ;
        }
        2 * (n * d) <= i64::MAX as i128 && d * d <= i64::MAX as i128
    }

    /// Whether this meter is well formed.
    pub fn is_valid(&self) -> (r: bool)
        ensures
            r == self.wf(),
    {
        let a = self.ticks_per_beat;
        let b = self.beats_per_bar;
        let c = self.bars_per_loop;
        if !a.is_wf() || !b.is_wf() || !c.is_wf() || a.numer <= 0 || b.numer <= 0 || c.numer <= 0 {
            return false;
        }
        let terms: [i64; 7] = [a.numer, b.numer, c.numer, a.denom, b.denom, c.denom, a.denom];
        let mut product: i64 = 4;
        let mut i: usize = 0;
        let ghost all = seq![4int, a.numer as int, b.numer as int, c.numer as int, a.denom as int,
            b.denom as int, c.denom as int, a.denom as int];
        proof {
            lemma_product_of_step(all, 0);
            assert(all.subrange(0, 0) =~= Seq::<int>::empty());
            self.lemma_size_is_product(all);
        }
        while i < 7
            invariant
                0 <= i <= 7,
                all.len() == 8,
                forall|j: int| 0 <= j < 7 ==> terms[j] as int == all[j + 1],
                forall|j: int| 0 <= j < 8 ==> all[j] >= 1,
                product == product_of(all.subrange(0, i + 1)),
                1 <= product <= i64::MAX,
                product_of(all) == 4 * self.size(),
            decreases 7 - i,
        {
            proof {
                lemma_product_of_step(all, i + 1);
            }
            match product.checked_mul(terms[i]) {
                Some(p) => {
                    proof {
                        assert(all.subrange(0, i + 2).drop_last() =~= all.subrange(0, i + 1));
                        lemma_product_of_ge(all.subrange(0, i + 2), product as int);
                    }
                    product = p;
                },
                None => {
                    proof {
                        lemma_product_of_grows(all, i + 2);
                    }
                    return false;
                },
            }
            i = i + 1;
        }
        proof {
            assert(all.subrange(0, 8) == all);
        }
        true
    }

    proof fn lemma_size_is_product(self, all: Seq<int>)
        requires
            all == seq![4int, self.ticks_per_beat.numer as int, self.beats_per_bar.numer as int,
                self.bars_per_loop.numer as int, self.ticks_per_beat.denom as int,
                self.beats_per_bar.denom as int, self.bars_per_loop.denom as int,
                self.ticks_per_beat.denom as int],
        ensures
            product_of(all) == 4 * self.size(),
    {
        assert(all.subrange(0, 0) =~= Seq::<int>::empty());
        lemma_product_of_step(all, 0);
        lemma_product_of_step(all, 1);
        lemma_product_of_step(all, 2);
        lemma_product_of_step(all, 3);
        lemma_product_of_step(all, 4);
        lemma_product_of_step(all, 5);
        lemma_product_of_step(all, 6);
        lemma_product_of_step(all, 7);
        assert(all.subrange(0, 8) == all);
        let r = all[1];
        let u = all[2];
        let w = all[3];
        let s = all[4];
        let v = all[5];
        let z = all[6];
        let a = r * u * w;
        let b = s * v * z;
        let first_three = ((4 * r) * u) * w;
        assert(first_three == 4 * a) by (nonlinear_arith)
            requires
                first_three == ((4 * r) * u) * w,
                a == r * u * w,
        ;
        let first_six = ((first_three * s) * v) * z;
        assert(first_six == first_three * b) by (nonlinear_arith)
            requires
                first_six == ((first_three * s) * v) * z,
                b == s * v * z,
        ;
        assert(first_six * s == 4 * (a * b * s)) by (nonlinear_arith)
            requires
                first_six == first_three * b,
                first_three == 4 * a,
        ;
    }
}

/// One more term multiplies the product of a prefix.
proof fn lemma_product_of_step(all: Seq<int>, j: int)
    requires
        0 <= j < all.len(),
    ensures
        product_of(all.subrange(0, j + 1)) == product_of(all.subrange(0, j)) * all[j],
{
    let t = all.subrange(0, j + 1);
    assert(t.drop_last() =~= all.subrange(0, j));
}

/// The product of a sequence of integers.
pub open spec fn product_of(terms: Seq<int>) -> int
    decreases terms.len(),
{
    if terms.len() == 0 {
        1
    } else {
        product_of(terms.drop_last()) * terms.last()
    }
}

proof fn lemma_product_of_ge(terms: Seq<int>, p: int)
    requires
        terms.len() >= 1,
        forall|j: int| 0 <= j < terms.len() ==> terms[j] >= 1,
        p == product_of(terms.drop_last()),
        p >= 1,
    ensures
        product_of(terms) >= p,
{
    assert(p * terms.last() >= p) by (nonlinear_arith)
        requires
            p >= 1,
            terms.last() >= 1,
    ;
}

/// A product of terms not below one grows with each further term.
proof fn lemma_product_of_grows(all: Seq<int>, len: int)
    requires
        1 <= len <= all.len(),
        forall|j: int| 0 <= j < all.len() ==> all[j] >= 1,
    ensures
        product_of(all) >= product_of(all.subrange(0, len)),
        product_of(all.subrange(0, len)) >= 1,
    decreases all.len() - len,
{
    if len == all.len() {
        assert(all.subrange(0, len) =~= all);
        lemma_product_of_pos(all);
    } else {
        lemma_product_of_grows(all, len + 1);
        let t = all.subrange(0, len + 1);
        assert(t.drop_last() =~= all.subrange(0, len));
        lemma_product_of_pos(all.subrange(0, len));
        lemma_product_of_ge(t, product_of(all.subrange(0, len)));
    }
}

proof fn lemma_product_of_pos(terms: Seq<int>)
    requires
        forall|j: int| 0 <= j < terms.len() ==> terms[j] >= 1,
    ensures
        product_of(terms) >= 1,
    decreases terms.len(),
{
    if terms.len() > 0 {
        lemma_product_of_pos(terms.drop_last());
        lemma_product_of_ge(terms, product_of(terms.drop_last()));
    }
}

/// A fraction of two positive integers is positive.
pub proof fn lemma_frac_positive(n: int, d: int)
    requires
        n > 0,
        d > 0,
    ensures
        frac(n, d).0 > 0,
{
    lemma_frac(n, d);
    let f = frac(n, d);
    assert(f.0 > 0) by (nonlinear_arith)
        requires
            n * f.1 == f.0 * d,
            n > 0,
            d > 0,
            f.1 > 0,
    ;
}

/// At a positive tempo, beats, ticks, bars and loops all last a positive time.
pub proof fn lemma_tempo_periods_positive(signature: Signature, bpm: (int, int))
    requires
        signature.wf(),
        bpm.0 > 0,
        bpm.1 > 0,
    ensures
        nanos_per_beat_at(bpm).0 > 0,
        nanos_per_beat_at(bpm).1 > 0,
        signature.spec_nanos_per_tick(bpm).0 > 0,
        signature.spec_nanos_per_bar(bpm).0 > 0,
        signature.spec_nanos_per_loop(bpm).0 > 0,
{
    let tpb = signature.ticks_per_beat@;
    let bpb = signature.beats_per_bar@;
    let bpl = signature.bars_per_loop@;
    assert(NANOS_PER_MINUTE * bpm.1 > 0 && 1 * bpm.0 > 0) by (nonlinear_arith)
        requires
            bpm.0 > 0,
            bpm.1 > 0,
    ;
    lemma_frac_positive(NANOS_PER_MINUTE * bpm.1, 1 * bpm.0);
    lemma_frac(NANOS_PER_MINUTE * bpm.1, 1 * bpm.0);
    let b = nanos_per_beat_at(bpm);
    assert(b.0 * tpb.1 > 0 && b.1 * tpb.0 > 0 && b.0 * bpb.0 > 0 && b.1 * bpb.1 > 0)
        by (nonlinear_arith)
        requires
            b.0 > 0,
            b.1 > 0,
            tpb.0 > 0,
            tpb.1 > 0,
            bpb.0 > 0,
            bpb.1 > 0,
    ;
    lemma_frac_positive(b.0 * tpb.1, b.1 * tpb.0);
    lemma_frac_positive(b.0 * bpb.0, b.1 * bpb.1);
    lemma_frac(b.0 * bpb.0, b.1 * bpb.1);
    let c = signature.spec_nanos_per_bar(bpm);
    assert(c.0 * bpl.0 > 0 && c.1 * bpl.1 > 0) by (nonlinear_arith)
        requires
            c.0 > 0,
            c.1 > 0,
            bpl.0 > 0,
            bpl.1 > 0,
    ;
    lemma_frac_positive(c.0 * bpl.0, c.1 * bpl.1);
}

impl Signature {
    pub open spec fn default_spec() -> Signature {
        Signature {
            ticks_per_beat: Rational { numer: DEFAULT_TICKS_PER_BEAT, denom: 1 },
            beats_per_bar: Rational { numer: DEFAULT_BEATS_PER_BAR, denom: 1 },
            bars_per_loop: Rational { numer: DEFAULT_BARS_PER_LOOP, denom: 1 },
        }
    }
}

/// The default meter runs at the default tempo: a beat of a billion nanoseconds and
/// a tick of 62,500,000.
pub proof fn lemma_default_tempo_in_range()
    ensures
        Signature::default_spec().tempo_fits(q_int(DEFAULT_BEATS_PER_MINUTE as int)),
        nanos_per_beat_at(q_int(DEFAULT_BEATS_PER_MINUTE as int)) == q_int(1_000_000_000),
        Signature::default_spec().spec_nanos_per_tick(q_int(DEFAULT_BEATS_PER_MINUTE as int))
            == q_int(62_500_000),
{
    reveal_with_fuel(gcd, 3);
    assert(NANOS_PER_MINUTE == 60_000_000_000);
    assert(abs(60_000_000_000) == 60_000_000_000 && abs(60) == 60 && abs(1) == 1 && abs(16) == 16
        && abs(1_000_000_000) == 1_000_000_000 && abs(2_000_000_000) == 2_000_000_000 && abs(
        62_500_000,
    ) == 62_500_000);
    assert((NANOS_PER_MINUTE as int) * 1 == 60_000_000_000 && 1 * 60int == 60);
    assert(gcd(60, 1) == 1);
    assert(gcd(60_000_000_000, 60) == 60);
    assert(gcd(2_000_000_000, 1) == 1);
    assert(gcd(1_000_000_000, 16) == 16);
    assert(gcd(62_500_000, 1) == 1);
    assert(gcd(1_000_000_000, 1) == 1);
    assert(frac(60_000_000_000, 60) == (1_000_000_000int, 1int));
    assert(nanos_per_beat_at(q_int(60)) == q_int(1_000_000_000));
    assert(frac(1_000_000_000, 16) == (62_500_000int, 1int));
    assert(frac(2_000_000_000, 1) == (2_000_000_000int, 1int));
}

/// A beat lasts exactly as long as its ticks: converting a tempo to nanoseconds
/// per tick and multiplying back by the ticks per beat gives nanoseconds per beat,
/// with no rounding.
pub proof fn lemma_nanos_per_beat_is_ticks_times_tick(signature: Signature, bpm: (int, int))
    requires
        signature.wf(),
        bpm.0 > 0,
        bpm.1 > 0,
    ensures
        q_mul(signature.spec_nanos_per_tick(bpm), signature.ticks_per_beat@) == nanos_per_beat_at(
            bpm,
        ),
{
    assert(NANOS_PER_MINUTE * bpm.1 != 0 && 1 * bpm.0 != 0) by (nonlinear_arith)
        requires bpm.0 > 0, bpm.1 > 0;
    lemma_frac(NANOS_PER_MINUTE * bpm.1, 1 * bpm.0);
    lemma_div_mul_cancel(nanos_per_beat_at(bpm), signature.ticks_per_beat@);
}

} // verus!
