use vstd::prelude::*;

verus! {

/// One typed numeric observation extracted from a protocol frame.
#[derive(Debug, Clone, Copy, PartialEq, Eq, Structural)]
pub enum Reading {
    Light(i32),
    Sound(i32),
    Motion(i32),
}

/// A wall-clock instant broken into the calendar fields the bridge reports.
#[derive(Debug, Clone, Copy, PartialEq, Eq, Structural)]
pub struct Timestamp {
    pub year: i32,
    pub month: u32,
    pub day: u32,
    pub hour: u32,
    pub minute: u32,
}

/// One minute of reduced activity: inverted-mean light, maximum sound,
/// maximum motion, stamped with the instant of the minute rollover.
#[derive(Debug, Clone, Copy, PartialEq, Eq, Structural)]
pub struct Summary {
    pub timestamp: Timestamp,
    pub light: i64,
    pub sound: i32,
    pub motion: i32,
}

} // verus!
