//! Debug panel state and the formatting it uses.

use vstd::prelude::*;
use crate::fmt::{decimal, u64_to_string, usize_to_string, digit_of, digit_char, round_div, as_float, round_div_exec, float_value};
use crate::text::{push_str, push_char};

verus! {

/// Log levels the panel can filter on.
#[derive(Debug, Clone, Copy, PartialEq, Eq, Structural)]
pub enum LogLevel {
    Trace,
    Debug,
    Info,
    Warn,
    Error,
}

/// Debug panel messages
#[derive(Debug, Clone)]
pub enum DebugPanelMessage {
    /// Toggle panel visibility
    Toggle,
    /// Set log level filter
    SetLogFilter(LogLevel),
    /// Clear log buffer
    ClearLogs,
    /// Search logs
    SearchLogs(String),
}

/// Terminal state information
#[derive(Debug, Clone)]
pub struct TerminalState {
    /// Terminal dimensions (cols x rows)
    pub cols: usize,
    pub rows: usize,
    /// Cursor position (row, col)
    pub cursor_row: usize,
    pub cursor_col: usize,
    /// Scrollback buffer size
    pub scrollback_size: usize,
    /// Total line count (visible + scrollback)
    pub total_lines: usize,
}

impl Default for TerminalState {
    fn default() -> (s: Self)
        ensures
            s.cols == 0 && s.rows == 0 && s.cursor_row == 0 && s.cursor_col == 0,
            s.scrollback_size == 0 && s.total_lines == 0,
    {
        TerminalState { cols: 0, rows: 0, cursor_row: 0, cursor_col: 0, scrollback_size: 0, total_lines: 0 }
    }
}

/// A quantity in tenths shown with one decimal: `x.y`.
pub open spec fn one_decimal(tenths: nat) -> Seq<char> {
    decimal(tenths / 10) + "."@ + seq![digit_char(tenths % 10)]
}

/// The float nearest `bytes` divided by `unit` (a power of two, so exactly),
/// in tenths, rounded to the nearest tenth with ties to even.
pub open spec fn tenths_of(bytes: nat, unit: nat) -> nat {
    round_div(as_float(bytes) * 10, unit)
}

/// How a byte count is shown: bytes under 1 KiB, then KiB and MiB with one decimal.
pub open spec fn bytes_text(bytes: nat) -> Seq<char> {
    if bytes < 1024 {
        decimal(bytes) + "B"@
    } else if bytes < 1024 * 1024 {
        one_decimal(tenths_of(bytes, 1024)) + "KB"@
    } else {
        one_decimal(tenths_of(bytes, 1024 * 1024)) + "MB"@
    }
}

fn push_one_decimal(s: &mut String, tenths: u64)
    ensures
        final(s)@ == old(s)@ + one_decimal(tenths as nat),
{
    let ghost s0 = s@;
    push_str(s, &u64_to_string(tenths / 10));
    push_str(s, ".");
    push_char(s, digit_of((tenths % 10) as usize));
    assert(s@ =~= s0 + one_decimal(tenths as nat));
}

/// Format a byte count for display
///
/// The count is converted to a float, divided by the unit and shown with one
/// decimal, rounded to the nearest tenth with ties to even.
pub fn format_bytes(bytes: usize) -> (r: String)
    ensures
        r@ == bytes_text(bytes as nat),
{
    if bytes < 1024 {
        let mut s = usize_to_string(bytes);
        push_str(&mut s, "B");
        s
    } else {
        let f = float_value(bytes as u64);
        let unit: u128 = if bytes < 1024 * 1024 { 1024 } else { 1048576 };
        let t = round_div_exec(f * 10, unit);
        assert(t < 0x1_0000_0000_0000_0000) by (nonlinear_arith)
            requires t <= (f as int * 10) / (unit as int) + 1, unit >= 1024, f <= 0x2_0000_0000_0000_0000;
        let mut s = String::new();
        push_one_decimal(&mut s, t as u64);
        if bytes < 1024 * 1024 {
            push_str(&mut s, "KB");
        } else {
            push_str(&mut s, "MB");
        }
        assert(s@ =~= bytes_text(bytes as nat));
        s
    }
}

} // verus!
