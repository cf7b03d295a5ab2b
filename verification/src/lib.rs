//! Input pipeline for a keypad-driven telephone reproduction.
//!
//! Raw, bouncy switch-matrix levels are turned into a validated telephone
//! number in three stages: a debouncing key-matrix scanner, a mode-aware
//! event accumulator that assembles digits typed over time, and a lenient
//! number parser that validates the finished buffer.

pub mod display;
pub mod event_buffer;
pub mod keypad;
pub mod phone_number;
pub mod phone_state;
pub mod time;
