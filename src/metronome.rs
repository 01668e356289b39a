//! The hub between the clock and the terminal: a fixed routing table.
use crate::clock::{self, NudgeTempo, Signature, Tempo, Time};
use crate::interface;
use vstd::prelude::*;

verus! {

/// Everything that passes through the hub: control from the terminal, updates from
/// the clock.
#[derive(Clone, Copy, Debug, PartialEq, Eq, Structural)]
pub enum Message {
    Time(Time),
    Signature(Signature),
    Tempo(Tempo),
    Reset,
    NudgeTempo(NudgeTempo),
    Tap,
}

/// Where the hub forwards one message.
#[derive(Clone, Copy, Debug, PartialEq, Eq, Structural)]
pub struct Route {
    pub to_clock: Option<clock::Message>,
    pub to_interface: Option<interface::Message>,
}

/// Control goes to the clock; a new meter or tempo goes to the clock, to adopt it,
/// and to the terminal, to show it; a position goes to the terminal alone.
pub fn route(message: Message) -> (r: Route)
    ensures
        match message {
            Message::Reset => r.to_clock == Some(clock::Message::Reset) && r.to_interface is None,
            Message::NudgeTempo(n) => r.to_clock == Some(clock::Message::NudgeTempo(n))
                && r.to_interface is None,
            Message::Tap => r.to_clock == Some(clock::Message::Tap) && r.to_interface is None,
            Message::Signature(s) => r.to_clock == Some(clock::Message::Signature(s))
                && r.to_interface == Some(interface::Message::Signature(s)),
            Message::Tempo(t) => r.to_clock == Some(clock::Message::Tempo(t)) && r.to_interface
                == Some(interface::Message::Tempo(t)),
            Message::Time(t) => r.to_clock is None && r.to_interface == Some(
                interface::Message::Time(t),
            ),
        },
{
    match message {
        Message::Reset => Route { to_clock: Some(clock::Message::Reset), to_interface: None },
        Message::NudgeTempo(nudge) => Route {
            to_clock: Some(clock::Message::NudgeTempo(nudge)),
            to_interface: None,
        },
        Message::Tap => Route { to_clock: Some(clock::Message::Tap), to_interface: None },
        Message::Signature(signature) => Route {
            to_clock: Some(clock::Message::Signature(signature)),
            to_interface: Some(interface::Message::Signature(signature)),
        },
        Message::Tempo(tempo) => Route {
            to_clock: Some(clock::Message::Tempo(tempo)),
            to_interface: Some(interface::Message::Tempo(tempo)),
        },
        Message::Time(time) => Route { to_clock: None, to_interface: Some(interface::Message::Time(time)) },
    }
}

} // verus!
