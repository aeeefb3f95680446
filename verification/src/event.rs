//! The event data model: pixel coordinates and coded events.

use vstd::prelude::*;

verus! {

/// Pixel address of an event: column, row, and optional color channel
/// (`None` means channel 0 / monochrome).
#[derive(Clone, Copy, Debug)]
pub struct Coord {
    pub x: u16,
    pub y: u16,
    pub c: Option<u8>,
}

impl Coord {
    /// The color channel this coordinate addresses; absent means channel 0.
    pub open spec fn spec_channel(self) -> int {
        match self.c {
            Some(c) => c as int,
            None => 0,
        }
    }

    /// Returns the color channel, defaulting to 0 when absent.
    pub fn channel(&self) -> (r: u8)
        ensures
            r as int == self.spec_channel(),
    {
        match self.c {
            Some(c) => c,
            None => 0,
        }
    }
}

/// One event as emitted by an upstream source: a coordinate, a quantized
/// intensity exponent `d`, and the elapsed ticks `delta_t` since the pixel's
/// previous event.
#[derive(Clone, Copy, Debug)]
pub struct Event {
    pub coord: Coord,
    pub d: u8,
    pub delta_t: u32,
}

/// An [`Event`] stripped of its coordinate; a block slot already encodes the
/// position implicitly.
#[derive(Clone, Copy, Debug, PartialEq, Eq, Structural)]
pub struct EventCoordless {
    pub d: u8,
    pub delta_t: u32,
}

impl EventCoordless {
    /// Truncates an event to its coded payload.
    pub fn from_event(event: &Event) -> (r: EventCoordless)
        ensures
            r == (EventCoordless { d: event.d, delta_t: event.delta_t }),
    {
        EventCoordless { d: event.d, delta_t: event.delta_t }
    }
}

} // verus!
