//! Pacing: delays that give the conversation a human rhythm.

use vstd::prelude::*;
use crate::chance::draw_u64_between;

verus! {

/// Timing of a session.
#[derive(Debug)]
pub struct PacingConfig {
    /// Shortest wait before an actor answers, in milliseconds.
    pub min_response_delay_ms: u64,
    /// Longest wait before an actor answers, in milliseconds.
    pub max_response_delay_ms: u64,
    /// Shortest interval between two student inputs, in milliseconds.
    pub min_student_input_ms: u64,
    /// Typewriter effect speed, in characters per second.
    pub typewriter_cps: u32,
}

impl Default for PacingConfig {
    fn default() -> (r: Self)
        ensures
            r.min_response_delay_ms == 1500,
            r.max_response_delay_ms == 3500,
            r.min_student_input_ms == 500,
            r.typewriter_cps == 30,
    {
        PacingConfig {
            min_response_delay_ms: 1500,
            max_response_delay_ms: 3500,
            min_student_input_ms: 500,
            typewriter_cps: 30,
        }
    }
}

impl Clone for PacingConfig {
    fn clone(&self) -> (r: Self)
        ensures
            r == *self,
    {
        PacingConfig { ..*self }
    }
}

impl PacingConfig {
    /// A random wait between the shortest and the longest response delay.
    pub fn random_response_delay(&self) -> (r: u64)
        requires
            self.min_response_delay_ms <= self.max_response_delay_ms,
        ensures
            self.min_response_delay_ms <= r <= self.max_response_delay_ms,
    {
        draw_u64_between(self.min_response_delay_ms, self.max_response_delay_ms)
    }
}

} // verus!
