use metronome::clock::{
    duration_to_nanos, elapsed_remainder, nanos_until_next, whole_nanos, Clock, Message,
    Signature, Time, Timer,
};
use metronome::rational::Rational;
use std::time::Instant;

fn r(n: i64, d: i64) -> Rational {
    Rational::new(n, d)
}

fn whole(n: i64) -> Rational {
    Rational::from_integer(n)
}

fn meter(tpb: Rational, bpb: Rational, bpl: Rational) -> Signature {
    Signature { ticks_per_beat: tpb, beats_per_bar: bpb, bars_per_loop: bpl }
}

fn advance(time: Time, ticks: usize) -> Time {
    let mut time = time;
    for _ in 0..ticks {
        time = time.next();
    }
    time
}

#[test]
fn default_meter_and_its_lengths() {
    let signature = Signature::default();
    assert_eq!(signature.ticks_per_beat(), whole(16));
    assert_eq!(signature.beats_per_bar, whole(4));
    assert_eq!(signature.bars_per_loop, whole(4));
    assert_eq!(signature.ticks_per_bar(), whole(64));
    assert_eq!(signature.ticks_per_loop(), whole(256));
    assert!(signature.is_valid());
}

#[test]
fn tick_conversions_are_exact() {
    let signature = Signature::default();
    assert_eq!(signature.ticks_to_beats(whole(24)), r(3, 2));
    assert_eq!(signature.ticks_to_bars(whole(24)), r(3, 8));
    assert_eq!(signature.ticks_to_loops(whole(24)), r(3, 32));
}

#[test]
fn nanos_per_tick_at_sixty_bpm() {
    let signature = Signature::default();
    assert_eq!(signature.nanos_per_tick(whole(60)), whole(62_500_000));
    assert_eq!(signature.nanos_per_beat(whole(60)), whole(1_000_000_000));
    assert_eq!(signature.nanos_per_bar(whole(60)), whole(4_000_000_000));
    assert_eq!(signature.nanos_per_loop(whole(60)), whole(16_000_000_000));
}

#[test]
fn beat_is_tick_times_ticks_per_beat() {
    let signature = meter(whole(16), whole(4), whole(4));
    let tempo = whole(7);
    let tick = signature.nanos_per_tick(tempo);
    assert_eq!(tick, r(3_750_000_000, 7));
    assert_eq!(tick.mul(&signature.ticks_per_beat()), signature.nanos_per_beat(tempo));
    let odd = meter(r(3, 2), whole(5), whole(2));
    let tempo = r(241, 2);
    let tick = odd.nanos_per_tick(tempo);
    assert_eq!(tick.mul(&odd.ticks_per_beat()), odd.nanos_per_beat(tempo));
}

#[test]
fn tempo_from_nanos_per_tick() {
    let signature = Signature::default();
    let tick = signature.nanos_per_tick(whole(120));
    assert_eq!(tick, whole(31_250_000));
    assert_eq!(signature.beats_per_minute(tick), whole(120));
    assert_eq!(signature.beats_per_minute(r(3_750_000_000, 7)), whole(7));
}

#[test]
fn next_adds_one_tick() {
    let time = Time::new(Signature::default());
    assert_eq!(time.ticks(), whole(0));
    let later = time.next();
    assert_eq!(later.ticks(), whole(1));
    assert_eq!(time.ticks(), whole(0));
    assert_eq!(advance(later, 9).ticks(), whole(10));
}

#[test]
fn residues_and_boundaries() {
    let time = advance(Time::new(Signature::default()), 70);
    assert_eq!(time.ticks_since_beat(), whole(6));
    assert_eq!(time.ticks_before_beat(), whole(64));
    assert_eq!(time.beats(), r(35, 8));
    assert_eq!(time.bars(), r(35, 32));
    assert_eq!(time.beats_since_bar(), r(3, 8));
    assert_eq!(time.bars_since_loop(), r(35, 32));
    assert!(!time.is_first_tick());
    assert!(time.is_first_beat());
    assert!(!time.is_first_bar());
}

#[test]
fn first_of_loop_after_a_whole_loop() {
    let time = advance(Time::new(Signature::default()), 256);
    assert!(time.is_first_tick());
    assert!(time.is_first_beat());
    assert!(time.is_first_bar());
    assert_eq!(time.bars_since_loop(), whole(0));
}

#[test]
fn quantize_on_a_beat_stays() {
    let time = advance(Time::new(Signature::default()), 32);
    assert_eq!(time.ticks_since_beat(), whole(0));
    assert_eq!(time.quantize_beat(), time);
}

#[test]
fn quantize_half_beat_goes_to_next_beat() {
    let time = advance(Time::new(Signature::default()), 24);
    assert_eq!(time.quantize_beat().ticks(), whole(32));
}

#[test]
fn quantize_early_in_beat_goes_back() {
    let time = advance(Time::new(Signature::default()), 23);
    assert_eq!(time.quantize_beat().ticks(), whole(16));
    let late = advance(Time::new(Signature::default()), 25);
    assert_eq!(late.quantize_beat().ticks(), whole(32));
}

#[test]
fn quantize_with_fractional_ticks_per_beat() {
    let signature = meter(r(5, 2), whole(4), whole(4));
    let time = advance(Time::new(signature), 4);
    assert_eq!(time.ticks_since_beat(), r(3, 2));
    assert_eq!(time.ticks_before_beat(), r(5, 2));
    assert_eq!(time.quantize_beat().ticks(), whole(5));
    assert!(time.can_advance());
    assert!(time.can_quantize());
}

#[test]
fn tap_tempo_from_two_taps_half_a_second_apart() {
    let mut clock = Clock::new();
    assert_eq!(clock.register_tap(None, Instant::now()), None);
    assert_eq!(clock.register_tap(Some(500_000_000), Instant::now()), Some(whole(120)));
    assert_eq!(clock.tempo(), whole(60));
}

#[test]
fn stale_tap_leaves_tempo() {
    let mut clock = Clock::new();
    for _ in 0..5 {
        clock.tick();
    }
    assert_eq!(clock.register_tap(Some(3_000_000_000), Instant::now()), None);
    assert_eq!(clock.time().ticks(), whole(0));
    assert_eq!(clock.register_tap(Some(2_000_000_000), Instant::now()), None);
    assert_eq!(clock.register_tap(Some(1_999_999_999), Instant::now()), Some(r(60_000_000_000, 1_999_999_999)));
    assert_eq!(clock.tempo(), whole(60));
}

#[test]
fn zero_interval_sets_no_tempo() {
    let mut clock = Clock::new();
    assert_eq!(clock.register_tap(Some(0), Instant::now()), None);
}

#[test]
fn reset_clears_phase_and_last_tap() {
    let mut clock = Clock::new();
    for _ in 0..10 {
        clock.tick();
    }
    clock.tap();
    assert_eq!(clock.time().ticks(), whole(16));
    clock.tick();
    clock.reset();
    assert_eq!(clock.time().ticks(), whole(0));
    assert_eq!(clock.tap(), None);
    assert_eq!(clock.tempo(), whole(60));
}

#[test]
fn signature_change_restarts_at_zero() {
    let mut clock = Clock::new();
    for _ in 0..37 {
        clock.tick();
    }
    let signature = meter(whole(12), whole(3), whole(2));
    clock.set_signature(signature);
    assert_eq!(clock.time().ticks(), whole(0));
    assert_eq!(clock.signature(), signature);
    clock.tick();
    assert_eq!(clock.time().ticks(), whole(1));
}

#[test]
fn sixteen_ticks_make_a_beat_at_sixty_bpm() {
    let mut clock = Clock::new();
    assert_eq!(clock.signature().nanos_per_tick(clock.tempo()), whole(62_500_000));
    for _ in 0..16 {
        clock.tick();
    }
    assert!(clock.time().is_first_tick());
    assert_eq!(clock.time().beats(), whole(1));
}

#[test]
fn messages_change_tempo_and_meter() {
    let mut clock = Clock::new();
    assert_eq!(clock.apply(Message::NudgeTempo(whole(1))), Some(whole(61)));
    assert_eq!(clock.tempo(), whole(61));
    assert_eq!(clock.apply(Message::NudgeTempo(whole(-61))), None);
    assert_eq!(clock.tempo(), whole(61));
    assert_eq!(clock.apply(Message::Tempo(whole(90))), None);
    assert_eq!(clock.tempo(), whole(90));
    assert_eq!(clock.apply(Message::Tempo(whole(0))), None);
    assert_eq!(clock.tempo(), whole(90));
    clock.tick();
    let bad = meter(whole(0), whole(4), whole(4));
    assert_eq!(clock.apply(Message::Signature(bad)), None);
    assert_eq!(clock.signature(), Signature::default());
    assert_eq!(clock.time().ticks(), whole(1));
    let good = meter(whole(8), whole(3), whole(4));
    assert_eq!(clock.apply(Message::Signature(good)), None);
    assert_eq!(clock.signature(), good);
    assert_eq!(clock.time().ticks(), whole(0));
    clock.tick();
    assert_eq!(clock.apply(Message::Reset), None);
    assert_eq!(clock.time().ticks(), whole(0));
    assert_eq!(clock.apply(Message::Tap), None);
}

#[test]
fn meter_validity() {
    assert!(!meter(whole(0), whole(4), whole(4)).is_valid());
    assert!(!meter(whole(16), whole(-4), whole(4)).is_valid());
    assert!(!meter(Rational { numer: 2, denom: 4 }, whole(4), whole(4)).is_valid());
    assert!(!meter(whole(1 << 40), whole(1 << 20), whole(4)).is_valid());
    assert!(meter(r(7, 2), whole(5), r(3, 4)).is_valid());
}

#[test]
fn tempo_acceptance() {
    let signature = Signature::default();
    assert!(signature.accepts_tempo(&whole(60)));
    assert!(signature.accepts_tempo(&r(60_000_000_000, 1_999_999_999)));
    assert!(!signature.accepts_tempo(&whole(0)));
    assert!(!signature.accepts_tempo(&whole(-5)));
    assert!(!signature.accepts_tempo(&r(60_500_000_001, 1_000_000_003)));
}

#[test]
fn elapsed_arithmetic() {
    assert_eq!(duration_to_nanos(2, 5), 2_000_000_005);
    assert_eq!(elapsed_remainder(100, &whole(30)), whole(10));
    assert_eq!(elapsed_remainder(100, &r(7, 2)), whole(2));
    assert_eq!(elapsed_remainder(10, &r(3, 4)), r(1, 4));
    assert_eq!(nanos_until_next(100, &whole(30)), whole(20));
    assert_eq!(nanos_until_next(90, &whole(30)), whole(30));
    assert_eq!(whole_nanos(&r(7, 2)), 3);
    assert_eq!(whole_nanos(&whole(-5)), 0);
    assert_eq!(whole_nanos(&whole(0)), 0);
}

#[test]
fn timer_reads_the_clock() {
    let signature = Signature::default();
    let timer = Timer::new(signature);
    let nanos = timer.nanos();
    assert_eq!(nanos.denom, 1);
    assert!(nanos.numer >= 0);
    let until = timer.nanos_until_tick(whole(60));
    assert!(whole(0).lt(&until));
    assert!(!whole(62_500_000).lt(&until));
    let since = timer.nanos_since_beat(whole(60));
    assert!(since.lt(&whole(1_000_000_000)));
    assert!(timer.nanos_since_tick(whole(60)).lt(&whole(62_500_000)));
    assert!(timer.nanos_since_bar(whole(60)).lt(&whole(4_000_000_000)));
    assert!(timer.nanos_since_loop(whole(60)).lt(&whole(16_000_000_000)));
}

#[test]
fn clock_pacing_is_within_a_tick() {
    let clock = Clock::new();
    let until = clock.nanos_until_tick();
    assert!(whole_nanos(&until) <= 62_500_000);
}
