//! Event logging system for debugging terminal events
//!
//! Provides a circular buffer of terminal events with filtering capabilities.

use std::collections::VecDeque;
use std::time::{Duration, Instant};
use vstd::prelude::*;
use crate::clock::{now, elapsed_since, duration_millis};
use crate::fmt::{decimal, u64_to_string};
use crate::text::push_str;

verus! {

/// Types of events that can be logged
#[derive(Debug, Clone, PartialEq)]
pub enum EventType {
    /// PTY output received (bytes count)
    PtyOutput(usize),
    /// PTY input sent (bytes count)
    PtyInput(usize),
    /// Key press event (key name)
    KeyPress(String),
    /// Mouse click event (x, y)
    MouseClick(i32, i32),
    /// Bell event
    Bell,
    /// Terminal resize (cols, rows)
    Resize(u16, u16),
    /// OSC sequence received (sequence type)
    OscSequence(String),
    /// Escape sequence received (description)
    EscapeSequence(String),
    /// New tab created
    TabCreated,
    /// Tab closed
    TabClosed,
    /// Custom event with description
    Custom(String),
}

/// The variant of an event type, as a number: two event types match when they
/// are the same variant, whatever they carry.
pub open spec fn event_kind(e: EventType) -> nat {
    match e {
        EventType::PtyOutput(_) => 0,
        EventType::PtyInput(_) => 1,
        EventType::KeyPress(_) => 2,
        EventType::MouseClick(_, _) => 3,
        EventType::Bell => 4,
        EventType::Resize(_, _) => 5,
        EventType::OscSequence(_) => 6,
        EventType::EscapeSequence(_) => 7,
        EventType::TabCreated => 8,
        EventType::TabClosed => 9,
        EventType::Custom(_) => 10,
    }
}

/// The short label of each event type.
pub open spec fn event_label(e: EventType) -> Seq<char> {
    match e {
        EventType::PtyOutput(_) => "PTY OUT"@,
        EventType::PtyInput(_) => "PTY IN"@,
        EventType::KeyPress(_) => "KEY"@,
        EventType::MouseClick(_, _) => "MOUSE"@,
        EventType::Bell => "BELL"@,
        EventType::Resize(_, _) => "RESIZE"@,
        EventType::OscSequence(_) => "OSC"@,
        EventType::EscapeSequence(_) => "ESC"@,
        EventType::TabCreated => "TAB+"@,
        EventType::TabClosed => "TAB-"@,
        EventType::Custom(_) => "CUSTOM"@,
    }
}

impl EventType {
    /// Get a short label for the event type
    pub fn label(&self) -> (r: &str)
        ensures
            r@ == event_label(*self),
    {
        match self {
            EventType::PtyOutput(_) => "PTY OUT",
            EventType::PtyInput(_) => "PTY IN",
            EventType::KeyPress(_) => "KEY",
            EventType::MouseClick(_, _) => "MOUSE",
            EventType::Bell => "BELL",
            EventType::Resize(_, _) => "RESIZE",
            EventType::OscSequence(_) => "OSC",
            EventType::EscapeSequence(_) => "ESC",
            EventType::TabCreated => "TAB+",
            EventType::TabClosed => "TAB-",
            EventType::Custom(_) => "CUSTOM",
        }
    }

    /// The variant number.
    fn kind(&self) -> (k: u8)
        ensures
            k as nat == event_kind(*self),
    {
        match self {
            EventType::PtyOutput(_) => 0,
            EventType::PtyInput(_) => 1,
            EventType::KeyPress(_) => 2,
            EventType::MouseClick(_, _) => 3,
            EventType::Bell => 4,
            EventType::Resize(_, _) => 5,
            EventType::OscSequence(_) => 6,
            EventType::EscapeSequence(_) => 7,
            EventType::TabCreated => 8,
            EventType::TabClosed => 9,
            EventType::Custom(_) => 10,
        }
    }

    /// Check if this event type matches a filter pattern
    pub fn matches(&self, filter: &EventType) -> (r: bool)
        ensures
            r == (event_kind(*self) == event_kind(*filter)),
    {
        self.kind() == filter.kind()
    }
}

/// A single log entry
#[derive(Debug, Clone)]
pub struct LogEntry {
    /// When the event occurred
    pub timestamp: Instant,
    /// Type of event
    pub event_type: EventType,
    /// Human-readable description
    pub description: String,
}

/// How an age in milliseconds is shown: milliseconds under a second, seconds
/// under a minute, minutes beyond.
pub open spec fn age_text(ms: nat) -> Seq<char> {
    if ms / 1000 < 1 {
        decimal(ms) + "ms"@
    } else if ms / 1000 < 60 {
        decimal(ms / 1000) + "s"@
    } else {
        decimal(ms / 1000 / 60) + "m"@
    }
}

/// Formats an age given in whole seconds and whole milliseconds.
pub fn format_elapsed(secs: u64, ms: u128) -> (r: String)
    requires
        ms / 1000 == secs as u128,
    ensures
        r@ == age_text(ms as nat),
{
    if secs < 1 {
        let mut s = u64_to_string(ms as u64);
        push_str(&mut s, "ms");
        s
    } else if secs < 60 {
        let mut s = u64_to_string(secs);
        push_str(&mut s, "s");
        s
    } else {
        let mut s = u64_to_string(secs / 60);
        push_str(&mut s, "m");
        s
    }
}

impl LogEntry {
    /// Create a new log entry, stamped with the current time
    pub fn new(event_type: EventType, description: String) -> (e: Self)
        ensures
            e.event_type == event_type,
            e.description == description,
    {
        LogEntry { timestamp: now(), event_type, description }
    }

    /// Get elapsed time since the event occurred, read from the system clock
    pub fn elapsed(&self) -> Duration {
        elapsed_since(&self.timestamp)
    }

    /// Format elapsed time as a string
    ///
    /// The age is read from the system clock; it is shown as `format_elapsed` shows it.
    pub fn elapsed_str(&self) -> (r: String)
        ensures
            exists|ms: nat| r@ == age_text(ms),
    {
        let d = elapsed_since(&self.timestamp);
        let ms = duration_millis(&d);
        let secs = (ms / 1000) as u64;
        format_elapsed(secs, ms)
    }
}

/// Whether an event passes a filter list: some entry of the list is its variant.
pub open spec fn passes(filter: Seq<EventType>, e: EventType) -> bool {
    exists|i: int| 0 <= i < filter.len() && event_kind(filter[i]) == event_kind(e)
}

/// The most entries a log of this capacity holds: a log of capacity zero still
/// keeps the latest entry.
pub open spec fn effective_capacity(max_entries: usize) -> nat {
    if max_entries == 0 { 1 } else { max_entries as nat }
}

/// Event log with circular buffer and filtering
#[derive(Debug)]
pub struct EventLog {
    /// Log entries (circular buffer)
    entries: VecDeque<LogEntry>,
    /// Maximum number of entries to keep
    max_entries: usize,
    /// Optional filter (only log these event types)
    filter: Option<Vec<EventType>>,
}

impl EventLog {
    /// The entries, oldest first.
    pub closed spec fn logged(&self) -> Seq<LogEntry> {
        self.entries@
    }

    /// The capacity the log was made with.
    pub closed spec fn cap(&self) -> usize {
        self.max_entries
    }

    /// The active filter.
    pub closed spec fn active_filter(&self) -> Option<Seq<EventType>> {
        match self.filter {
            Some(v) => Some(v@),
            None => None,
        }
    }

    /// The log never holds more than its capacity (at least one entry).
    pub open spec fn bounded(&self) -> bool {
        self.logged().len() <= effective_capacity(self.cap())
    }

    /// Create a new event log with the specified capacity
    pub fn new(max_entries: usize) -> (log: Self)
        ensures
            log.logged() == Seq::<LogEntry>::empty(),
            log.cap() == max_entries,
            log.active_filter() is None,
            log.bounded(),
    {
        EventLog { entries: VecDeque::new(), max_entries, filter: None }
    }

    /// Log a new event
    ///
    /// An event that the filter refuses leaves the log unchanged. Otherwise the
    /// oldest entry is dropped when the log is full, and the new entry is
    /// appended.
    pub fn log(&mut self, event_type: EventType, description: String)
        ensures
            final(self).cap() == old(self).cap(),
            final(self).active_filter() == old(self).active_filter(),
            old(self).bounded() ==> final(self).bounded(),
            match old(self).active_filter() {
                Some(f) => !passes(f, event_type),
                None => false,
            } ==> final(self).logged() == old(self).logged(),
            !match old(self).active_filter() {
                Some(f) => !passes(f, event_type),
                None => false,
            } ==> {
                let kept = if old(self).logged().len() >= old(self).cap() && old(self).logged().len() > 0 {
                    old(self).logged().drop_first()
                } else {
                    old(self).logged()
                };
                &&& final(self).logged().len() == kept.len() + 1
                &&& final(self).logged().drop_last() == kept
                &&& final(self).logged().last().event_type == event_type
                &&& final(self).logged().last().description == description
            },
    {
        if let Some(filter_list) = &self.filter {
            let mut any = false;
            let mut i: usize = 0;
            while i < filter_list.len()
                invariant
                    i <= filter_list.len(),
                    any == exists|j: int| 0 <= j < i && event_kind(filter_list@[j]) == event_kind(event_type),
                decreases filter_list.len() - i,
            {
                if event_type.matches(&filter_list[i]) {
                    any = true;
                }
                i = i + 1;
            }
            if !any {
                return;
            }
        }
        let entry = LogEntry::new(event_type, description);
        if self.entries.len() >= self.max_entries {
            self.entries.pop_front();
        }
        let ghost kept = self.entries@;
        self.entries.push_back(entry);
        assert(self.entries@.drop_last() =~= kept);
    }

    /// Get all log entries
    pub fn entries(&self) -> (r: &VecDeque<LogEntry>)
        ensures
            r@ == self.logged(),
    {
        &self.entries
    }

    /// Get the most recent N entries, newest first
    pub fn recent(&self, count: usize) -> (r: Vec<&LogEntry>)
        ensures
            r.len() == if count < self.logged().len() { count as int } else { self.logged().len() as int },
            forall|i: int| 0 <= i < r.len() ==> *r@[i] == self.logged()[self.logged().len() - 1 - i],
    {
        let n = self.entries.len();
        let mut r: Vec<&LogEntry> = Vec::new();
        let mut i: usize = 0;
        while i < count && i < n
            invariant
                n == self.entries@.len(),
                i <= n,
                i <= count,
                r.len() == i,
                forall|j: int| 0 <= j < i ==> *r@[j] == self.entries@[n - 1 - j],
            decreases n - i,
        {
            r.push(&self.entries[n - 1 - i]);
            i = i + 1;
        }
        r
    }

    /// Clear all log entries
    pub fn clear(&mut self)
        ensures
            final(self).logged() == Seq::<LogEntry>::empty(),
            final(self).cap() == old(self).cap(),
            final(self).active_filter() == old(self).active_filter(),
            final(self).bounded(),
    {
        self.entries.clear();
    }

    /// Set the event type filter (None = no filter, Some = only these types)
    pub fn set_filter(&mut self, filter: Option<Vec<EventType>>)
        ensures
            final(self).active_filter() == match filter {
                Some(v) => Some(v@),
                None => None::<Seq<EventType>>,
            },
            final(self).logged() == old(self).logged(),
            final(self).cap() == old(self).cap(),
            old(self).bounded() ==> final(self).bounded(),
    {
        self.filter = filter;
    }

    /// Get currently active filter
    pub fn filter(&self) -> (r: Option<&Vec<EventType>>)
        ensures
            match r {
                Some(v) => self.active_filter() == Some(v@),
                None => self.active_filter() is None,
            },
    {
        match &self.filter {
            Some(v) => Some(v),
            None => None,
        }
    }

    /// Get filtered entries matching the current filter
    pub fn filtered_entries(&self) -> (r: Vec<&LogEntry>)
        ensures
            match self.active_filter() {
                Some(f) => r@.map_values(|e: &LogEntry| *e) == self.logged().filter(|e: LogEntry| passes(f, e.event_type)),
                None => r@.map_values(|e: &LogEntry| *e) == self.logged(),
            },
    {
        let n = self.entries.len();
        let mut r: Vec<&LogEntry> = Vec::new();
        let mut i: usize = 0;
        match &self.filter {
            Some(filter_list) => {
                let ghost f = filter_list@;
                let ghost pred = |e: LogEntry| passes(f, e.event_type);
                while i < n
                    invariant
                        n == self.entries@.len(),
                        f == filter_list@,
                        pred == (|e: LogEntry| passes(f, e.event_type)),
                        i <= n,
                        r@.map_values(|e: &LogEntry| *e) == self.entries@.subrange(0, i as int).filter(pred),
                    decreases n - i,
                {
                    let e = &self.entries[i];
                    let mut any = false;
                    let mut j: usize = 0;
                    while j < filter_list.len()
                        invariant
                            j <= filter_list.len(),
                            f == filter_list@,
                            any == exists|t: int| 0 <= t < j && event_kind(f[t]) == event_kind(e.event_type),
                        decreases filter_list.len() - j,
                    {
                        if e.event_type.matches(&filter_list[j]) {
                            any = true;
                        }
                        j = j + 1;
                    }
                    proof {
                        reveal_with_fuel(Seq::filter, 1);
                        let s = self.entries@.subrange(0, i + 1);
                        assert(s.drop_last() =~= self.entries@.subrange(0, i as int));
                        assert(s.last() == *e);
                    }
                    if any {
                        let ghost before = r@;
                        r.push(e);
                        assert(r@.map_values(|e: &LogEntry| *e) =~= before.map_values(|e: &LogEntry| *e).push(*e));
                    }
                    i = i + 1;
                }
                assert(self.entries@.subrange(0, n as int) =~= self.entries@);
            },
            None => {
                while i < n
                    invariant
                        n == self.entries@.len(),
                        i <= n,
                        r@.map_values(|e: &LogEntry| *e) == self.entries@.subrange(0, i as int),
                    decreases n - i,
                {
                    let ghost before = r@;
                    r.push(&self.entries[i]);
                    assert(r@.map_values(|e: &LogEntry| *e) =~= before.map_values(|e: &LogEntry| *e).push(self.entries@[i as int]));
                    assert(self.entries@.subrange(0, i + 1) =~= self.entries@.subrange(0, i as int).push(self.entries@[i as int]));
                    i = i + 1;
                }
                assert(self.entries@.subrange(0, n as int) =~= self.entries@);
            },
        }
        r
    }

    /// Get entry count
    pub fn len(&self) -> (r: usize)
        ensures
            r == self.logged().len(),
    {
        self.entries.len()
    }

    /// Check if log is empty
    pub fn is_empty(&self) -> (r: bool)
        ensures
            r == (self.logged().len() == 0),
    {
        self.entries.len() == 0
    }

    /// Get maximum capacity
    pub fn capacity(&self) -> (r: usize)
        ensures
            r == self.cap(),
    {
        self.max_entries
    }
}

impl Default for EventLog {
    fn default() -> (log: Self)
        ensures
            log.logged() == Seq::<LogEntry>::empty(),
            log.cap() == 1000,
            log.active_filter() is None,
            log.bounded(),
    {
        Self::new(1000)
    }
}

} // verus!
