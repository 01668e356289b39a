//! Pacing against the monotonic clock.
use crate::rational::{abs, fits, frac, lemma_frac, q_int, q_rem, q_sub, Rational};
use crate::signature::{
    lemma_frac_positive, lemma_tempo_periods_positive, nanos_per_beat_at, period_fits, Signature,
    Tempo, Tick, NANOS_PER_SECOND,
};
use std::time::{Duration, Instant};
use vstd::arithmetic::div_mod::{lemma_fundamental_div_mod, lemma_mod_multiples_vanish};
use vstd::prelude::*;

verus! {

/// std's `Instant`, a reading of the monotonic clock, carried opaque.
#[verifier::external_type_specification]
#[verifier::external_body]
pub struct ExInstant(std::time::Instant);

/// Relies on std's `Instant::now`: a reading of the monotonic clock.
#[verifier::external_body]
pub(crate) fn instant_now() -> Instant {
    Instant::now()
}

/// Relies on std's `Instant::elapsed`: the time since `instant`.
#[verifier::external_body]
fn instant_elapsed(instant: &Instant) -> Duration {
    instant.elapsed()
}

/// Relies on std's `Duration::as_secs`: the whole seconds of a duration.
pub assume_specification[ Duration::as_secs ](duration: &Duration) -> u64;

/// Relies on std's `Duration::subsec_nanos`: the nanoseconds beyond the whole
/// seconds, which the documentation keeps under a billion.
pub assume_specification[ Duration::subsec_nanos ](duration: &Duration) -> (r: u32)
    ensures
        r < NANOS_PER_SECOND,
;

/// The largest count of whole seconds whose nanoseconds fit `i64` with any fraction.
pub const MAX_WHOLE_SECONDS: u64 = 9_223_372_035;

/// A duration of `secs` seconds and `subsec_nanos` nanoseconds, in nanoseconds.
pub fn duration_to_nanos(secs: u64, subsec_nanos: u32) -> (r: i64)
    requires
        secs * NANOS_PER_SECOND + subsec_nanos <= i64::MAX,
    ensures
        r == secs * NANOS_PER_SECOND + subsec_nanos,
{
    secs as i64 * NANOS_PER_SECOND + subsec_nanos as i64
}

/// What is left of `elapsed` nanoseconds after the last whole `period`.
pub fn elapsed_remainder(elapsed: i64, period: &Tick) -> (r: Tick)
    requires
        elapsed >= 0,
        period.wf(),
        period.numer > 0,
        2 * (period.numer * period.denom) <= i64::MAX,
    ensures
        r.wf(),
        r@ == q_rem(q_int(elapsed as int), period@),
        0 <= r.numer < period.numer,
        r.denom <= period.denom,
{
    let rest = elapsed % period.numer;
    let ghost n = period.numer as int;
    let ghost d = period.denom as int;
    proof {
        lemma_fundamental_div_mod(elapsed as int, n);
        let q = elapsed as int / n;
        assert(elapsed * d == n * (q * d) + rest * d && rest * d + n <= i64::MAX && rest * 1 == rest
            && 1 * d == d && n * 1 == n) by (nonlinear_arith)
            requires
                elapsed == n * q + rest,
                0 <= rest < n,
                d >= 1,
                2 * (n * d) <= i64::MAX,
        ;
        lemma_mod_multiples_vanish(q * d, rest * d, n);
        let m = (rest * d) % n;
        lemma_fundamental_div_mod(rest * d, n);
        lemma_frac(m, d);
        let f = frac(m, d);
        assert(0 <= f.0 < n) by (nonlinear_arith)
            requires
                m * f.1 == f.0 * d,
                abs(f.0) <= abs(m),
                0 <= m < n,
                f.1 > 0,
                d > 0,
        ;
    }
    Rational::from_integer(rest).rem(period)
}

/// Time left until the next whole `period` once `elapsed` nanoseconds have passed.
pub fn nanos_until_next(elapsed: i64, period: &Tick) -> (r: Tick)
    requires
        elapsed >= 0,
        period.wf(),
        period.numer > 0,
        period_fits(period@),
    ensures
        r.wf(),
        r@ == q_sub(period@, q_rem(q_int(elapsed as int), period@)),
        r.numer > 0,
        r.numer * period.denom <= period.numer * r.denom,
{
    let since = elapsed_remainder(elapsed, period);
    proof {
        let n = period.numer as int;
        let d = period.denom as int;
        let sn = since.numer as int;
        let sd = since.denom as int;
        lemma_fundamental_div_mod(elapsed as int, n);
        let rest = elapsed as int % n;
        assert(rest * d >= 0) by (nonlinear_arith)
            requires
                rest >= 0,
                d > 0,
        ;
        lemma_fundamental_div_mod(rest * d, n);
        let m = (rest * d) % n;
        assert(q_rem(q_int(elapsed as int), period@) == frac((elapsed * d) % (n * 1), 1 * d));
        assert((elapsed * d) % (n * 1) == m) by {
            let q = elapsed as int / n;
            assert(elapsed * d == n * (q * d) + rest * d && n * 1 == n) by (nonlinear_arith)
                requires
                    elapsed == n * q + rest,
            ;
            lemma_mod_multiples_vanish(q * d, rest * d, n);
        }
        lemma_frac(m, 1 * d);
        assert(1 * d == d);
        let top = n * sd - sn * d;
        let bottom = d * sd;
        assert(top > 0 && bottom > 0) by (nonlinear_arith)
            requires
                m * sd == sn * d,
                0 <= m < n,
                sd > 0,
                d > 0,
                top == n * sd - sn * d,
                bottom == d * sd,
        ;
        lemma_frac_positive(top, bottom);
        lemma_frac(top, bottom);
        let f = frac(top, bottom);
        assert(f.0 * d <= n * f.1) by (nonlinear_arith)
            requires
                top * f.1 == f.0 * bottom,
                top == n * sd - sn * d,
                bottom == d * sd,
                sn >= 0,
                sd > 0,
                d > 0,
                f.1 > 0,
        ;
        assert(abs(n) == n && abs(since.numer as int) == since.numer);
        assert(n * since.denom <= n * d && since.numer * d <= n * d && d * since.denom <= d * d)
            by (nonlinear_arith)
            requires
                0 <= since.numer < n,
                1 <= since.denom <= d,
        ;
    }
    period.sub(&since)
}

/// Whole nanoseconds to wait for `nanos`: zero where it is not positive.
pub fn whole_nanos(nanos: &Tick) -> (r: u64)
    requires
        nanos.wf(),
    ensures
        r == if nanos.numer <= 0 {
            0
        } else {
            nanos.numer / nanos.denom
        },
{
    if nanos.numer <= 0 {
        0
    } else {
        nanos.floor().numer as u64
    }
}

/// Paces ticks against the monotonic clock, from the moment it was made.
#[derive(Clone, Copy, Debug)]
pub struct Timer {
    instant: Instant,
    signature: Signature,
}

impl Timer {
    pub closed spec fn spec_signature(self) -> Signature {
        self.signature
    }

    pub fn new(signature: Signature) -> (r: Timer)
        ensures
            r.spec_signature() == signature,
    {
        Timer { instant: instant_now(), signature }
    }

    /// Nanoseconds since the timer was made; the largest `i64` past about 292 years.
    pub fn nanos(&self) -> (r: Tick)
        ensures
            r.wf(),
            r.denom == 1,
            r.numer >= 0,
    {
        Rational::from_integer(nanos_since(&self.instant))
    }

    pub fn nanos_since_tick(&self, beats_per_minute: Tempo) -> (r: Tick)
        requires
            self.spec_signature().wf(),
            self.spec_signature().tempo_in_range(beats_per_minute),
        ensures
            r.wf(),
            exists|e: int| e >= 0 && r@ == q_rem(q_int(e), self.spec_signature().spec_nanos_per_tick(beats_per_minute@)),
    {
        let period = self.signature.nanos_per_tick(beats_per_minute);
        proof {
            lemma_tempo_periods_positive(self.signature, beats_per_minute@);
        }
        elapsed_remainder(self.nanos().numer, &period)
    }

    pub fn nanos_since_beat(&self, beats_per_minute: Tempo) -> (r: Tick)
        requires
            self.spec_signature().wf(),
            beats_per_minute.wf(),
            beats_per_minute.numer > 0,
            period_fits(nanos_per_beat_at(beats_per_minute@)),
        ensures
            r.wf(),
            exists|e: int| e >= 0 && r@ == q_rem(q_int(e), nanos_per_beat_at(beats_per_minute@)),
    {
        let period = self.signature.nanos_per_beat(beats_per_minute);
        proof {
            lemma_tempo_periods_positive(self.signature, beats_per_minute@);
        }
        elapsed_remainder(self.nanos().numer, &period)
    }

    pub fn nanos_since_bar(&self, beats_per_minute: Tempo) -> (r: Tick)
        requires
            self.spec_signature().wf(),
            beats_per_minute.wf(),
            beats_per_minute.numer > 0,
            fits(nanos_per_beat_at(beats_per_minute@)),
            period_fits(self.spec_signature().spec_nanos_per_bar(beats_per_minute@)),
        ensures
            r.wf(),
            exists|e: int| e >= 0 && r@ == q_rem(q_int(e), self.spec_signature().spec_nanos_per_bar(beats_per_minute@)),
    {
        let period = self.signature.nanos_per_bar(beats_per_minute);
        proof {
            lemma_tempo_periods_positive(self.signature, beats_per_minute@);
        }
        elapsed_remainder(self.nanos().numer, &period)
    }

    pub fn nanos_since_loop(&self, beats_per_minute: Tempo) -> (r: Tick)
        requires
            self.spec_signature().wf(),
            beats_per_minute.wf(),
            beats_per_minute.numer > 0,
            fits(nanos_per_beat_at(beats_per_minute@)),
            fits(self.spec_signature().spec_nanos_per_bar(beats_per_minute@)),
            period_fits(self.spec_signature().spec_nanos_per_loop(beats_per_minute@)),
        ensures
            r.wf(),
            exists|e: int| e >= 0 && r@ == q_rem(q_int(e), self.spec_signature().spec_nanos_per_loop(beats_per_minute@)),
    {
        let period = self.signature.nanos_per_loop(beats_per_minute);
        proof {
            lemma_tempo_periods_positive(self.signature, beats_per_minute@);
        }
        elapsed_remainder(self.nanos().numer, &period)
    }

    pub fn nanos_until_tick(&self, beats_per_minute: Tempo) -> (r: Tick)
        requires
            self.spec_signature().wf(),
            self.spec_signature().tempo_in_range(beats_per_minute),
        ensures
            r.wf(),
            exists|e: int| e >= 0 && r@ == q_sub(self.spec_signature().spec_nanos_per_tick(beats_per_minute@),
                q_rem(q_int(e), self.spec_signature().spec_nanos_per_tick(beats_per_minute@))),
            r.numer > 0,
            r.numer * self.spec_signature().spec_nanos_per_tick(beats_per_minute@).1
                <= self.spec_signature().spec_nanos_per_tick(beats_per_minute@).0 * r.denom,
    {
        let period = self.signature.nanos_per_tick(beats_per_minute);
        proof {
            lemma_tempo_periods_positive(self.signature, beats_per_minute@);
        }
        nanos_until_next(self.nanos().numer, &period)
    }
}

/// Nanoseconds since `instant`; the largest `i64` past about 292 years.
pub(crate) fn nanos_since(instant: &Instant) -> (r: i64)
    ensures
        r >= 0,
{
    let elapsed = instant_elapsed(instant);
    let secs = elapsed.as_secs();
    let subsec_nanos = elapsed.subsec_nanos();
    if secs <= MAX_WHOLE_SECONDS {
        duration_to_nanos(secs, subsec_nanos)
    } else {
        i64::MAX
    }
}

} // verus!
