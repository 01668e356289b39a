//! The clock: its state, how it ticks and how it takes taps and control messages.
pub use crate::signature::{
    nanos_per_beat_at, NudgeTempo, Signature, Tempo, Tick, DEFAULT_BARS_PER_LOOP,
    DEFAULT_BEATS_PER_BAR, DEFAULT_BEATS_PER_MINUTE, DEFAULT_TICKS_PER_BEAT, NANOS_PER_MINUTE,
    NANOS_PER_SECOND, SECONDS_PER_MINUTE,
};
pub use crate::time::{position_fits, Time};
pub use crate::timer::{
    duration_to_nanos, elapsed_remainder, nanos_until_next, whole_nanos, Timer,
    MAX_WHOLE_SECONDS,
};
use crate::rational::{
    abs, cross_fits, frac, gcd, lemma_frac, lemma_lt_of_fracs, q_add, q_div, q_int, q_lt, q_mul,
    q_rem, q_sub, Rational,
};
use crate::signature::{lemma_default_tempo_in_range, lemma_tempo_periods_positive};
use crate::timer::{instant_now, nanos_since};
use std::time::Instant;
use vstd::prelude::*;

verus! {

/// What the clock is told.
#[derive(Clone, Copy, Debug, PartialEq, Eq, Structural)]
pub enum Message {
    Tempo(Tempo),
    NudgeTempo(NudgeTempo),
    Reset,
    Signature(Signature),
    Tap,
}

/// The tempo that taps `elapsed` nanoseconds apart give: one beat per interval.
pub open spec fn tap_tempo(elapsed: int) -> (int, int) {
    q_div(q_int(NANOS_PER_MINUTE as int), q_int(elapsed))
}

/// Taps `elapsed` nanoseconds apart belong to one gesture when the interval is under
/// two beats.
pub open spec fn tap_is_recent(elapsed: int, nanos_per_beat: (int, int)) -> bool {
    q_lt(q_int(elapsed), q_mul(nanos_per_beat, q_int(2)))
}

/// The clock: a position, a timer, the meter, the tempo and the last tap.
#[derive(Debug)]
pub struct Clock {
    time: Time,
    timer: Timer,
    signature: Signature,
    tempo: Tempo,
    tap: Option<Instant>,
}

impl Clock {
    pub closed spec fn spec_time(self) -> Time {
        self.time
    }

    pub closed spec fn spec_timer(self) -> Timer {
        self.timer
    }

    pub closed spec fn spec_signature(self) -> Signature {
        self.signature
    }

    pub closed spec fn spec_tempo(self) -> Tempo {
        self.tempo
    }

    pub closed spec fn spec_last_tap(self) -> Option<Instant> {
        self.tap
    }

    /// Position and timer follow the clock's meter, which runs at its tempo.
    pub open spec fn wf(self) -> bool {
        &&& self.spec_signature().wf()
        &&& self.spec_time().wf()
        &&& self.spec_time().spec_signature() == self.spec_signature()
        &&& self.spec_timer().spec_signature() == self.spec_signature()
        &&& self.spec_signature().tempo_in_range(self.spec_tempo())
    }

    /// The tempo that a tap reports, given the nanoseconds since the previous tap, if
    /// there was one: only a recent previous tap sets a tempo, and only one the clock
    /// can run at.
    pub open spec fn spec_tap_tempo(self, since_last_tap: Option<i64>) -> Option<(int, int)> {
        match since_last_tap {
            Some(e) => if e > 0 && tap_is_recent(e as int, nanos_per_beat_at(self.spec_tempo()@))
                && self.spec_signature().tempo_fits(tap_tempo(e as int)) {
                Some(tap_tempo(e as int))
            } else {
                None
            },
            None => None,
        }
    }

    /// Where a tap leaves the position: on the beat it meant, or back at zero where the
    /// position has no room to move on.
    pub open spec fn spec_tapped_ticks(self) -> (int, int) {
        let time = self.spec_time();
        if position_fits(
            time.spec_signature(),
            time.scaled() + time.spec_signature().ticks_per_beat.numer,
        ) {
            time.spec_quantized_ticks()
        } else {
            q_int(0)
        }
    }

    /// A clock at 60 beats per minute in the default meter, at tick zero.
    pub fn new() -> (r: Clock)
        ensures
            r.wf(),
            r.spec_signature() == Signature::default_spec(),
            r.spec_tempo()@ == q_int(DEFAULT_BEATS_PER_MINUTE as int),
            r.spec_time().spec_ticks()@ == q_int(0),
            r.spec_last_tap() is None,
    {
        let signature = Signature::default();
        let time = Time::new(signature);
        let timer = Timer::new(signature);
        let tempo = Rational::from_integer(DEFAULT_BEATS_PER_MINUTE);
        proof {
            lemma_default_tempo_in_range();
        }
        Clock { time, timer, signature, tempo, tap: None }
    }

    /// Back to tick zero with a fresh timer, forgetting the last tap.
    pub fn reset(&mut self)
        requires
            old(self).wf(),
        ensures
            final(self).wf(),
            final(self).spec_time().spec_ticks()@ == q_int(0),
            final(self).spec_time().spec_signature() == old(self).spec_signature(),
            final(self).spec_last_tap() is None,
            final(self).spec_signature() == old(self).spec_signature(),
            final(self).spec_tempo() == old(self).spec_tempo(),
    {
        self.time = Time::new(self.signature);
        self.timer = Timer::new(self.signature);
        self.tap = None;
    }

    /// A new meter; the position restarts at tick zero with a fresh timer.
    pub fn set_signature(&mut self, signature: Signature)
        requires
            old(self).wf(),
            signature.wf(),
            signature.tempo_in_range(old(self).spec_tempo()),
        ensures
            final(self).wf(),
            final(self).spec_signature() == signature,
            final(self).spec_time().spec_ticks()@ == q_int(0),
            final(self).spec_time().spec_signature() == signature,
            final(self).spec_tempo() == old(self).spec_tempo(),
            final(self).spec_last_tap() == old(self).spec_last_tap(),
    {
        self.signature = signature;
        self.time = Time::new(self.signature);
        self.timer = Timer::new(self.signature);
    }

    pub fn time(&self) -> (r: Time)
        ensures
            r == self.spec_time(),
    {
        self.time
    }

    pub fn tempo(&self) -> (r: Tempo)
        ensures
            r == self.spec_tempo(),
    {
        self.tempo
    }

    pub fn signature(&self) -> (r: Signature)
        ensures
            r == self.spec_signature(),
    {
        self.signature
    }

    /// Nanoseconds until the timer's next tick at the clock's tempo.
    pub fn nanos_until_tick(&self) -> (r: Tick)
        requires
            self.wf(),
        ensures
            r.wf(),
            exists|e: int|
                e >= 0 && r@ == q_sub(
                    self.spec_signature().spec_nanos_per_tick(self.spec_tempo()@),
                    q_rem(q_int(e), self.spec_signature().spec_nanos_per_tick(self.spec_tempo()@)),
                ),
            r.numer > 0,
            r.numer * self.spec_signature().spec_nanos_per_tick(self.spec_tempo()@).1
                <= self.spec_signature().spec_nanos_per_tick(self.spec_tempo()@).0 * r.denom,
    {
        self.timer.nanos_until_tick(self.tempo)
    }

    /// Advances the position by one tick; where it has no room left, it starts over
    /// at tick zero.
    pub fn tick(&mut self)
        requires
            old(self).wf(),
        ensures
            final(self).wf(),
            final(self).spec_signature() == old(self).spec_signature(),
            final(self).spec_tempo() == old(self).spec_tempo(),
            final(self).spec_last_tap() == old(self).spec_last_tap(),
            final(self).spec_time().spec_signature() == old(self).spec_signature(),
            ({
                let time = old(self).spec_time();
                let s = time.spec_signature().ticks_per_beat.denom as int;
                final(self).spec_time().spec_ticks()@ == if position_fits(
                    time.spec_signature(),
                    time.scaled() + s,
                ) {
                    q_add(time.spec_ticks()@, q_int(1))
                } else {
                    q_int(0)
                }
            }),
    {
        if self.time.can_advance() {
            self.time = self.time.next();
        } else {
            self.time = Time::new(self.signature);
        }
    }

    /// A tap now: reads the time since the previous tap and hands it on.
    pub fn tap(&mut self) -> (r: Option<Tempo>)
        requires
            old(self).wf(),
        ensures
            final(self).wf(),
            final(self).spec_signature() == old(self).spec_signature(),
            final(self).spec_tempo() == old(self).spec_tempo(),
            final(self).spec_time().spec_signature() == old(self).spec_signature(),
            final(self).spec_time().spec_ticks()@ == old(self).spec_tapped_ticks(),
            final(self).spec_last_tap() is Some,
            old(self).spec_last_tap() is None ==> r is None,
            r matches Some(t) ==> t.wf() && exists|e: i64|
                Some(t@) == old(self).spec_tap_tempo(Some(e)),
    {
        let since_last_tap = match &self.tap {
            Some(last) => Some(nanos_since(last)),
            None => None,
        };
        let now = instant_now();
        self.register_tap(since_last_tap, now)
    }

    /// A tap at `now`, `since_last_tap` nanoseconds after the previous one if there was
    /// one. The position moves onto the beat at once; the tempo that the interval
    /// gives is returned, not adopted.
    pub fn register_tap(&mut self, since_last_tap: Option<i64>, now: Instant) -> (r: Option<
        Tempo,
    >)
        requires
            old(self).wf(),
        ensures
            final(self).wf(),
            final(self).spec_signature() == old(self).spec_signature(),
            final(self).spec_tempo() == old(self).spec_tempo(),
            final(self).spec_time().spec_signature() == old(self).spec_signature(),
            final(self).spec_time().spec_ticks()@ == old(self).spec_tapped_ticks(),
            final(self).spec_last_tap() == Some(now),
            r.is_some() == old(self).spec_tap_tempo(since_last_tap).is_some(),
            r matches Some(t) ==> t.wf() && Some(t@) == old(self).spec_tap_tempo(since_last_tap),
    {
        self.time = if self.time.can_quantize() {
            self.time.quantize_beat()
        } else {
            Time::new(self.signature)
        };
        let mut next_tempo = None;
        if let Some(elapsed) = since_last_tap {
            if elapsed > 0 {
                let tap_nanos = Rational::from_integer(elapsed);
                let nanos_per_beat = self.signature.nanos_per_beat(self.tempo);
                let window = nanos_per_beat.mul(&Rational::from_integer(2));
                if tap_nanos.lt(&window) {
                    proof {
                        assert(NANOS_PER_MINUTE * 1 == NANOS_PER_MINUTE && 1 * elapsed == elapsed);
                        lemma_frac(NANOS_PER_MINUTE as int, elapsed as int);
                    }
                    let tempo = Rational::from_integer(NANOS_PER_MINUTE).div(&tap_nanos);
                    if self.signature.accepts_tempo(&tempo) {
                        next_tempo = Some(tempo);
                    }
                }
            }
        }
        self.tap = Some(now);
        next_tempo
    }

    /// Acts on a control message; returns the tempo to announce, if any. A tempo or
    /// meter that the clock cannot run at is ignored.
    pub fn apply(&mut self, message: Message) -> (r: Option<Tempo>)
        requires
            old(self).wf(),
        ensures
            final(self).wf(),
            match message {
                Message::Reset => {
                    &&& r is None
                    &&& final(self).spec_time().spec_ticks()@ == q_int(0)
                    &&& final(self).spec_last_tap() is None
                    &&& final(self).spec_signature() == old(self).spec_signature()
                    &&& final(self).spec_tempo() == old(self).spec_tempo()
                },
                Message::Signature(signature) => {
                    &&& r is None
                    &&& final(self).spec_tempo() == old(self).spec_tempo()
                    &&& if signature.wf() && signature.tempo_in_range(old(self).spec_tempo()) {
                        &&& final(self).spec_signature() == signature
                        &&& final(self).spec_time().spec_ticks()@ == q_int(0)
                    } else {
                        *final(self) == *old(self)
                    }
                },
                Message::Tempo(tempo) => {
                    &&& r is None
                    &&& final(self).spec_signature() == old(self).spec_signature()
                    &&& final(self).spec_time() == old(self).spec_time()
                    &&& final(self).spec_tempo() == if old(self).spec_signature().tempo_in_range(
                        tempo,
                    ) {
                        tempo
                    } else {
                        old(self).spec_tempo()
                    }
                },
                Message::NudgeTempo(nudge) => {
                    &&& final(self).spec_signature() == old(self).spec_signature()
                    &&& final(self).spec_time() == old(self).spec_time()
                    &&& (nudge.wf() && cross_fits(old(self).spec_tempo()@, nudge@)
                        && old(self).spec_signature().tempo_fits(
                        q_add(old(self).spec_tempo()@, nudge@),
                    )) ==> r is Some
                    &&& match r {
                        Some(t) => {
                            &&& t@ == q_add(old(self).spec_tempo()@, nudge@)
                            &&& final(self).spec_tempo() == t
                        },
                        None => final(self).spec_tempo() == old(self).spec_tempo(),
                    }
                },
                Message::Tap => {
                    &&& final(self).spec_signature() == old(self).spec_signature()
                    &&& final(self).spec_tempo() == old(self).spec_tempo()
                    &&& final(self).spec_time().spec_ticks()@ == old(self).spec_tapped_ticks()
                    &&& final(self).spec_last_tap() is Some
                    &&& old(self).spec_last_tap() is None ==> r is None
                },
            },
    {
        match message {
            Message::Reset => {
                self.reset();
                None
            },
            Message::Signature(signature) => {
                if signature.is_valid() && signature.accepts_tempo(&self.tempo) {
                    self.set_signature(signature);
                }
                None
            },
            Message::Tempo(tempo) => {
                if self.signature.accepts_tempo(&tempo) {
                    self.tempo = tempo;
                }
                None
            },
            Message::NudgeTempo(nudge) => {
                if !nudge.is_wf() {
                    return None;
                }
                match self.tempo.checked_add(&nudge) {
                    Some(tempo) => {
                        if self.signature.accepts_tempo(&tempo) {
                            self.tempo = tempo;
                            Some(tempo)
                        } else {
                            None
                        }
                    },
                    None => None,
                }
            },
            Message::Tap => self.tap(),
        }
    }
}

/// With 16 ticks per beat and a beat longer than 250,000,000 ns, taps 500,000,000 ns
/// apart give 120 beats per minute.
pub proof fn lemma_tap_half_second_is_120_bpm(clock: Clock)
    requires
        clock.wf(),
        clock.spec_signature().ticks_per_beat@ == q_int(16),
        q_lt(q_int(250_000_000), nanos_per_beat_at(clock.spec_tempo()@)),
    ensures
        clock.spec_tap_tempo(Some(500_000_000i64)) == Some(q_int(120)),
{
    reveal_with_fuel(gcd, 3);
    assert(abs(60_000_000_000) == 60_000_000_000 && abs(500_000_000) == 500_000_000 && abs(120)
        == 120 && abs(1) == 1 && abs(16) == 16 && abs(1_000_000_000) == 1_000_000_000 && abs(
        31_250_000,
    ) == 31_250_000);
    assert((NANOS_PER_MINUTE as int) * 1 == 60_000_000_000 && 1 * 500_000_000int == 500_000_000);
    assert(gcd(60_000_000_000, 500_000_000) == 500_000_000);
    assert(frac(60_000_000_000, 500_000_000) == (120int, 1int));
    assert(tap_tempo(500_000_000) == q_int(120));
    assert(gcd(120, 1) == 1);
    assert(gcd(500_000_000, 1) == 1);
    assert(gcd(60_000_000_000, 120) == 120);
    assert(frac(60_000_000_000, 120) == (500_000_000int, 1int));
    assert(nanos_per_beat_at(q_int(120)) == q_int(500_000_000));
    assert(gcd(1_000_000_000, 1) == 1);
    assert(frac(1_000_000_000, 1) == (1_000_000_000int, 1int));
    assert(gcd(500_000_000, 16) == 16);
    assert(frac(500_000_000, 16) == (31_250_000int, 1int));
    assert(clock.spec_signature().tempo_fits(q_int(120)));
    let b = nanos_per_beat_at(clock.spec_tempo()@);
    let t = clock.spec_tempo()@;
    lemma_tempo_periods_positive(clock.spec_signature(), t);
    lemma_frac(b.0 * 2, b.1 * 1);
    assert(b.1 * 1 == b.1);
    lemma_lt_of_fracs(500_000_000, 1, b.0 * 2, b.1 * 1);
    assert(frac(500_000_000, 1) == (500_000_000int, 1int));
    assert(500_000_000 * b.1 < (b.0 * 2) * 1) by (nonlinear_arith)
        requires
            250_000_000 * b.1 < b.0 * 1,
    ;
}

/// A tap more than two beats after the previous one sets no tempo.
pub proof fn lemma_stale_tap_sets_no_tempo(clock: Clock, elapsed: i64)
    requires
        clock.wf(),
        !tap_is_recent(elapsed as int, nanos_per_beat_at(clock.spec_tempo()@)),
    ensures
        clock.spec_tap_tempo(Some(elapsed)) is None,
{
}

} // verus!
