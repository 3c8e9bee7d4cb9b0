//! Debugging support: the event log and the state inspected by the debug panel.

pub mod event_log;
pub mod panel;

use std::time::{Duration, Instant};
use vstd::prelude::*;
use crate::clock::{now, elapsed_since};
use crate::text::owned;

verus! {

/// Input debug state
#[derive(Debug, Clone)]
pub struct InputDebugState {
    /// Last key pressed (keycode representation)
    pub last_key: Option<String>,
    /// Last key modifiers
    pub last_modifiers: Option<String>,
    /// IME composing state
    pub ime_composing: bool,
    /// IME preedit text
    pub ime_preedit: String,
    /// Raw mode active
    pub raw_mode: bool,
}

impl Default for InputDebugState {
    fn default() -> (s: Self)
        ensures
            s.last_key is None,
            s.last_modifiers is None,
            !s.ime_composing,
            s.ime_preedit@ == Seq::<char>::empty(),
            !s.raw_mode,
    {
        InputDebugState {
            last_key: None,
            last_modifiers: None,
            ime_composing: false,
            ime_preedit: String::new(),
            raw_mode: false,
        }
    }
}

impl InputDebugState {
    /// Update with a new key press
    pub fn record_key(&mut self, key: &str, modifiers: &str)
        ensures
            final(self).last_key is Some && final(self).last_key.unwrap()@ == key@,
            final(self).last_modifiers is Some && final(self).last_modifiers.unwrap()@ == modifiers@,
            final(self).ime_composing == old(self).ime_composing,
            final(self).ime_preedit == old(self).ime_preedit,
            final(self).raw_mode == old(self).raw_mode,
    {
        self.last_key = Some(owned(key));
        self.last_modifiers = Some(owned(modifiers));
    }

    /// Update IME state
    pub fn update_ime(&mut self, composing: bool, preedit: &str)
        ensures
            final(self).ime_composing == composing,
            final(self).ime_preedit@ == preedit@,
            final(self).last_key == old(self).last_key,
            final(self).last_modifiers == old(self).last_modifiers,
            final(self).raw_mode == old(self).raw_mode,
    {
        self.ime_composing = composing;
        self.ime_preedit = owned(preedit);
    }
}

/// PTY session debug info
#[derive(Debug, Clone)]
pub struct PtyDebugInfo {
    /// Session ID
    pub session_id: String,
    /// Total bytes read
    pub bytes_read: usize,
    /// Total bytes written
    pub bytes_written: usize,
    /// Output buffer size
    pub buffer_size: usize,
    /// Session start time
    pub started_at: Instant,
    /// Is session active
    pub active: bool,
}

impl PtyDebugInfo {
    /// Create a new PTY debug info
    pub fn new(session_id: String) -> (p: Self)
        ensures
            p.session_id == session_id,
            p.bytes_read == 0,
            p.bytes_written == 0,
            p.buffer_size == 0,
            p.active,
    {
        PtyDebugInfo {
            session_id,
            bytes_read: 0,
            bytes_written: 0,
            buffer_size: 0,
            started_at: now(),
            active: true,
        }
    }

    /// Get session uptime, read from the system clock
    pub fn uptime(&self) -> Duration {
        elapsed_since(&self.started_at)
    }
}

} // verus!
