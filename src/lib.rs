//! A verified engine for a live multi-player quiz show: the shared game state,
//! the phase state machine that moves each question through its steps, the
//! scoring rules of the four question kinds and the append-only event log.

pub mod model;
pub mod scoring;
pub mod game;
pub mod text;
mod draw;
pub mod laws;
