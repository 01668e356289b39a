use metronome::clock::{self, Signature, Time};
use metronome::interface::{self, key_message, Key, CHAR_NEWLINE, CHAR_SPACE};
use metronome::metronome::{route, Message};
use metronome::rational::Rational;

#[test]
fn control_goes_to_the_clock_only() {
    let nudge = Rational::from_integer(1);
    let r = route(Message::NudgeTempo(nudge));
    assert_eq!(r.to_clock, Some(clock::Message::NudgeTempo(nudge)));
    assert_eq!(r.to_interface, None);
    assert_eq!(route(Message::Reset).to_clock, Some(clock::Message::Reset));
    assert_eq!(route(Message::Tap).to_clock, Some(clock::Message::Tap));
    assert_eq!(route(Message::Tap).to_interface, None);
}

#[test]
fn meter_and_tempo_go_to_both() {
    let signature = Signature::default();
    let r = route(Message::Signature(signature));
    assert_eq!(r.to_clock, Some(clock::Message::Signature(signature)));
    assert_eq!(r.to_interface, Some(interface::Message::Signature(signature)));
    let tempo = Rational::from_integer(90);
    let r = route(Message::Tempo(tempo));
    assert_eq!(r.to_clock, Some(clock::Message::Tempo(tempo)));
    assert_eq!(r.to_interface, Some(interface::Message::Tempo(tempo)));
}

#[test]
fn positions_go_to_the_terminal_only() {
    let time = Time::new(Signature::default()).next();
    let r = route(Message::Time(time));
    assert_eq!(r.to_clock, None);
    assert_eq!(r.to_interface, Some(interface::Message::Time(time)));
}

#[test]
fn keys_map_to_messages() {
    assert_eq!(key_message(Key::Up), Some(Message::NudgeTempo(Rational::from_integer(1))));
    assert_eq!(key_message(Key::Down), Some(Message::NudgeTempo(Rational::from_integer(-1))));
    assert_eq!(key_message(Key::Char(CHAR_SPACE)), Some(Message::Tap));
    assert_eq!(key_message(Key::Char(CHAR_NEWLINE)), Some(Message::Reset));
    assert_eq!(key_message(Key::Char(0x41)), None);
    assert_eq!(key_message(Key::Other), None);
}
