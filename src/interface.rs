//! The terminal's side of the protocol: what it shows and what its keys send.
use crate::clock::{Signature, Tempo, Time};
use crate::metronome;
use crate::rational::{q_int, Rational};
use vstd::prelude::*;

verus! {

pub const CHAR_SPACE: u32 = 0x0020;

pub const CHAR_RETURN: u32 = 0x000D;

pub const CHAR_NEWLINE: u32 = 0x000A;

/// The terminal that shows the clock and reads the keyboard.
#[derive(Debug)]
pub struct Terminal {}

/// Updates the terminal shows.
#[derive(Clone, Copy, Debug, PartialEq, Eq, Structural)]
pub enum Message {
    Time(Time),
    Signature(Signature),
    Tempo(Tempo),
}

/// A key press as the terminal reads it.
#[derive(Clone, Copy, Debug, PartialEq, Eq, Structural)]
pub enum Key {
    Up,
    Down,
    Char(u32),
    Other,
}

/// Up and down nudge the tempo by one beat per minute, space taps, newline resets.
pub fn key_message(key: Key) -> (r: Option<metronome::Message>)
    ensures
        match key {
            Key::Up => r matches Some(metronome::Message::NudgeTempo(n)) && n.wf() && n@ == q_int(1),
            Key::Down => r matches Some(metronome::Message::NudgeTempo(n)) && n.wf() && n@ == q_int(-1),
            Key::Char(c) => if c == CHAR_SPACE {
                r == Some(metronome::Message::Tap)
            } else if c == CHAR_NEWLINE {
                r == Some(metronome::Message::Reset)
            } else {
                r is None
            },
            Key::Other => r is None,
        },
{
    match key {
        Key::Up => Some(metronome::Message::NudgeTempo(Rational::from_integer(1))),
        Key::Down => Some(metronome::Message::NudgeTempo(Rational::from_integer(-1))),
        Key::Char(c) => if c == CHAR_SPACE {
            Some(metronome::Message::Tap)
        } else if c == CHAR_NEWLINE {
            Some(metronome::Message::Reset)
        } else {
            None
        },
        Key::Other => None,
    }
}

} // verus!
