//! Accessibility
//!
//! Screen reader announcements with a priority queue of bounded length,
//! keyboard-only navigation among focusable elements, reduced motion
//! settings and labels for assistive technology.

use std::time::{Duration, Instant};
use vstd::prelude::*;
use crate::clock::{duration_of_millis, millis, now};
use crate::fmt::{decimal, u64_to_string, usize_to_string};
use crate::text::{chars_of, owned, push_char, push_str, string_of, trim, trim_str, is_ctrl, is_control, str_eq};

verus! {

/// Accessibility configuration
#[derive(Debug, Clone, Copy)]
pub struct AccessibilityConfig {
    pub screen_reader_enabled: bool,
    pub high_contrast_mode: bool,
    pub reduced_motion: bool,
    pub large_cursor: bool,
    pub cursor_blink_disabled: bool,
    pub bell_visual: bool,
    pub announce_output: bool,
    pub focus_highlight: bool,
    pub keyboard_only: bool,
}

impl Default for AccessibilityConfig {
    fn default() -> (c: Self)
        ensures
            !c.screen_reader_enabled && !c.high_contrast_mode && !c.reduced_motion && !c.large_cursor,
            !c.cursor_blink_disabled && !c.bell_visual && !c.announce_output,
            c.focus_highlight && !c.keyboard_only,
    {
        AccessibilityConfig {
            screen_reader_enabled: false,
            high_contrast_mode: false,
            reduced_motion: false,
            large_cursor: false,
            cursor_blink_disabled: false,
            bell_visual: false,
            announce_output: false,
            focus_highlight: true,
            keyboard_only: false,
        }
    }
}

/// Priority level for screen reader announcements
#[derive(Debug, Clone, Copy, PartialEq, Eq, Structural, PartialOrd, Ord)]
pub enum AnnouncePriority {
    Background,
    Low,
    Normal,
    High,
    Critical,
}

/// Screen reader announcement
#[derive(Debug)]
pub struct ScreenReaderAnnouncement {
    pub text: String,
    pub priority: AnnouncePriority,
    pub interrupt: bool,
    pub timestamp: Instant,
}

impl ScreenReaderAnnouncement {
    /// An announcement made now, not interrupting.
    pub fn new(text: String, priority: AnnouncePriority) -> (a: Self)
        ensures
            a.text@ == text@,
            a.priority == priority,
            !a.interrupt,
    {
        ScreenReaderAnnouncement { text, priority, interrupt: false, timestamp: now() }
    }

    /// The announcement, interrupting or not.
    pub fn with_interrupt(self, interrupt: bool) -> (a: Self)
        ensures
            a.text == self.text,
            a.priority == self.priority,
            a.interrupt == interrupt,
            a.timestamp == self.timestamp,
    {
        let mut a = self;
        a.interrupt = interrupt;
        a
    }
}

/// An announcement as plain values: text, priority, whether it interrupts.
pub open spec fn announcement_view(a: ScreenReaderAnnouncement) -> (Seq<char>, AnnouncePriority, bool) {
    (a.text@, a.priority, a.interrupt)
}

/// The state of the speech filter: the text kept so far and whether an
/// escape sequence is open.
pub open spec fn speech_step(acc: (Seq<char>, bool), ch: char) -> (Seq<char>, bool) {
    if ch == '\x1b' {
        (acc.0, true)
    } else if acc.1 && ch == 'm' {
        (acc.0, false)
    } else if acc.1 {
        acc
    } else if ch == '\t' {
        (acc.0 + "    "@, false)
    } else if ch == '\r' {
        acc
    } else if ch == '\n' {
        (acc.0.push(' '), false)
    } else if is_ctrl(ch) {
        acc
    } else {
        (acc.0.push(ch), false)
    }
}

/// The speech filter run over a text.
pub open spec fn speech_filter(s: Seq<char>) -> (Seq<char>, bool)
    decreases s.len(),
{
    if s.len() == 0 {
        (seq![], false)
    } else {
        speech_step(speech_filter(s.drop_last()), s.last())
    }
}

/// Text as it is spoken: escape sequences up to their `m` dropped, tabs as
/// four spaces, line feeds as spaces, carriage returns and other control
/// characters dropped, the whole trimmed.
pub open spec fn spoken(s: Seq<char>) -> Seq<char> {
    trim(speech_filter(s).0)
}

/// The queue after an announcement: a critical one goes first and
/// interrupts, a high one goes second (or first in an empty queue), others
/// go last; at most fifty are kept.
pub open spec fn queued(q: Seq<(Seq<char>, AnnouncePriority, bool)>, text: Seq<char>, p: AnnouncePriority) -> Seq<(Seq<char>, AnnouncePriority, bool)> {
    let q1 = match p {
        AnnouncePriority::Critical => seq![(text, p, true)] + q,
        AnnouncePriority::High => if q.len() == 0 {
            seq![(text, p, false)]
        } else {
            q.insert(1, (text, p, false))
        },
        _ => q.push((text, p, false)),
    };
    if q1.len() > 50 {
        q1.take(50)
    } else {
        q1
    }
}

/// Screen reader engine for text-to-speech announcements
#[derive(Debug)]
pub struct ScreenReader {
    queue: Vec<ScreenReaderAnnouncement>,
    enabled: bool,
}

impl ScreenReader {
    /// The pending announcements, next first.
    pub closed spec fn pending(&self) -> Seq<(Seq<char>, AnnouncePriority, bool)> {
        self.queue@.map_values(|a: ScreenReaderAnnouncement| announcement_view(a))
    }

    /// Whether announcements are taken.
    pub closed spec fn on(&self) -> bool {
        self.enabled
    }

    /// A disabled screen reader with nothing queued.
    pub fn new() -> (r: Self)
        ensures
            r.pending().len() == 0,
            !r.on(),
    {
        ScreenReader { queue: Vec::new(), enabled: false }
    }

    /// Announce text with given priority; nothing happens while disabled
    pub fn announce(&mut self, text: &str, priority: AnnouncePriority)
        ensures
            final(self).pending() == if old(self).on() { queued(old(self).pending(), spoken(text@), priority) } else { old(self).pending() },
            final(self).on() == old(self).on(),
    {
        if !self.enabled {
            return;
        }
        let ghost q0 = self.pending();
        let a = ScreenReaderAnnouncement::new(Self::format_for_speech(text), priority);
        match priority {
            AnnouncePriority::Critical => {
                self.queue.insert(0, a.with_interrupt(true));
            },
            AnnouncePriority::High => {
                if self.queue.len() == 0 {
                    self.queue.insert(0, a);
                } else {
                    self.queue.insert(1, a);
                }
            },
            _ => {
                self.queue.push(a);
            },
        }
        let ghost q1 = self.pending();
        assert(q1 =~= match priority {
            AnnouncePriority::Critical => seq![(spoken(text@), priority, true)] + q0,
            AnnouncePriority::High => if q0.len() == 0 {
                seq![(spoken(text@), priority, false)]
            } else {
                q0.insert(1, (spoken(text@), priority, false))
            },
            _ => q0.push((spoken(text@), priority, false)),
        });
        if self.queue.len() > 50 {
            self.queue.truncate(50);
            assert(self.pending() =~= q1.take(50));
        }
    }

    /// Announce terminal output, line by line, skipping lines with nothing
    /// to say
    pub fn announce_output(&mut self, lines: &Vec<String>)
        ensures
            final(self).pending() == if old(self).on() { output_queued(old(self).pending(), lines@.map_values(|l: String| l@)) } else { old(self).pending() },
            final(self).on() == old(self).on(),
    {
        if !self.enabled {
            return;
        }
        let ghost lv = lines@.map_values(|l: String| l@);
        let ghost q0 = self.pending();
        let mut i: usize = 0;
        while i < lines.len()
            invariant
                i <= lines@.len(),
                self.on(),
                lv == lines@.map_values(|l: String| l@),
                self.pending() == output_queued(q0, lv.subrange(0, i as int)),
            decreases lines.len() - i,
        {
            assert(lv.subrange(0, i + 1).drop_last() =~= lv.subrange(0, i as int));
            assert(lv.subrange(0, i + 1).last() == lines@[i as int]@);
            let cleaned = Self::format_for_speech(lines[i].as_str());
            if cleaned.as_str().unicode_len() > 0 {
                self.announce(cleaned.as_str(), AnnouncePriority::Low);
            }
            i = i + 1;
        }
        assert(lv.subrange(0, lv.len() as int) =~= lv);
    }

    /// Announce command prompt
    pub fn announce_prompt(&mut self, prompt: &str)
        ensures
            final(self).pending() == if old(self).on() { queued(old(self).pending(), spoken("Command prompt: "@ + prompt@), AnnouncePriority::Normal) } else { old(self).pending() },
            final(self).on() == old(self).on(),
    {
        let mut t = owned("Command prompt: ");
        push_str(&mut t, prompt);
        self.announce(t.as_str(), AnnouncePriority::Normal);
    }

    /// Announce terminal bell
    pub fn announce_bell(&mut self)
        ensures
            final(self).pending() == if old(self).on() { queued(old(self).pending(), spoken("Bell"@), AnnouncePriority::High) } else { old(self).pending() },
            final(self).on() == old(self).on(),
    {
        self.announce("Bell", AnnouncePriority::High);
    }

    /// Announce cursor position, counting rows and columns from 1
    pub fn announce_cursor_position(&mut self, row: usize, col: usize)
        requires
            row < usize::MAX,
            col < usize::MAX,
        ensures
            final(self).pending() == if old(self).on() {
                queued(old(self).pending(), spoken("Cursor at row "@ + decimal((row + 1) as nat) + ", column "@
                    + decimal((col + 1) as nat)), AnnouncePriority::Low)
            } else {
                old(self).pending()
            },
            final(self).on() == old(self).on(),
    {
        let mut t = owned("Cursor at row ");
        push_str(&mut t, usize_to_string(row + 1).as_str());
        push_str(&mut t, ", column ");
        push_str(&mut t, usize_to_string(col + 1).as_str());
        self.announce(t.as_str(), AnnouncePriority::Low);
    }

    /// Clear announcement queue
    pub fn clear_queue(&mut self)
        ensures
            final(self).pending().len() == 0,
            final(self).on() == old(self).on(),
    {
        self.queue.clear();
        assert(self.pending() =~= Seq::<(Seq<char>, AnnouncePriority, bool)>::empty());
    }

    /// Get next announcement to speak
    pub fn next(&mut self) -> (r: Option<ScreenReaderAnnouncement>)
        ensures
            match r {
                Some(a) => old(self).pending().len() > 0 && announcement_view(a) == old(self).pending()[0]
                    && final(self).pending() == old(self).pending().drop_first(),
                None => old(self).pending().len() == 0 && final(self).pending() == old(self).pending(),
            },
            final(self).on() == old(self).on(),
    {
        if self.queue.len() == 0 {
            return None;
        }
        let ghost q0 = self.pending();
        let a = self.queue.remove(0);
        assert(self.pending() =~= q0.drop_first());
        Some(a)
    }

    /// Format text for speech (clean escape sequences and control characters)
    pub fn format_for_speech(text: &str) -> (r: String)
        ensures
            r@ == spoken(text@),
    {
        let v = chars_of(text);
        let mut result = String::new();
        let mut in_escape = false;
        let mut i: usize = 0;
        while i < v.len()
            invariant
                i <= v@.len(),
                v@ == text@,
                (result@, in_escape) == speech_filter(v@.subrange(0, i as int)),
            decreases v.len() - i,
        {
            let ch = v[i];
            assert(v@.subrange(0, i + 1).drop_last() =~= v@.subrange(0, i as int));
            if ch == '\x1b' {
                in_escape = true;
            } else if in_escape && ch == 'm' {
                in_escape = false;
            } else if in_escape {
            } else if ch == '\t' {
                push_str(&mut result, "    ");
            } else if ch == '\r' {
            } else if ch == '\n' {
                push_char(&mut result, ' ');
            } else if is_control(ch) {
            } else {
                push_char(&mut result, ch);
            }
            i = i + 1;
        }
        assert(v@.subrange(0, v@.len() as int) =~= v@);
        trim_str(result.as_str())
    }

    /// Enables or disables announcements.
    pub fn set_enabled(&mut self, enabled: bool)
        ensures
            final(self).on() == enabled,
            final(self).pending() == old(self).pending(),
    {
        self.enabled = enabled;
    }

    /// Whether announcements are taken.
    pub fn is_enabled(&self) -> (b: bool)
        ensures
            b == self.on(),
    {
        self.enabled
    }
}

impl Default for ScreenReader {
    fn default() -> (r: Self)
        ensures
            r.pending().len() == 0,
            !r.on(),
    {
        Self::new()
    }
}

/// The queue after announcing each line with something to say, at low
/// priority (the spoken form of a line is announced, and so spoken again).
pub open spec fn output_queued(q: Seq<(Seq<char>, AnnouncePriority, bool)>, lines: Seq<Seq<char>>) -> Seq<(Seq<char>, AnnouncePriority, bool)>
    decreases lines.len(),
{
    if lines.len() == 0 {
        q
    } else {
        let q1 = output_queued(q, lines.drop_last());
        let t = spoken(lines.last());
        if t.len() > 0 {
            queued(q1, spoken(t), AnnouncePriority::Low)
        } else {
            q1
        }
    }
}

/// Contrast ratio checker for WCAG compliance (its colour arithmetic is done
/// in floating point, outside this library)
#[derive(Debug, Clone, Copy)]
pub struct ContrastChecker;

/// Types of focusable UI elements
#[derive(Debug, Clone, PartialEq, Eq)]
pub enum FocusableElement {
    Terminal,
    Tab(usize),
    SearchBar,
    CommandPalette,
    SettingsPanel,
    Button(String),
    Input(String),
}

/// Whether two elements are the same: the same kind with the same index or
/// name.
pub open spec fn same_element(a: FocusableElement, b: FocusableElement) -> bool {
    match (a, b) {
        (FocusableElement::Terminal, FocusableElement::Terminal) => true,
        (FocusableElement::Tab(i), FocusableElement::Tab(j)) => i == j,
        (FocusableElement::SearchBar, FocusableElement::SearchBar) => true,
        (FocusableElement::CommandPalette, FocusableElement::CommandPalette) => true,
        (FocusableElement::SettingsPanel, FocusableElement::SettingsPanel) => true,
        (FocusableElement::Button(x), FocusableElement::Button(y)) => x@ == y@,
        (FocusableElement::Input(x), FocusableElement::Input(y)) => x@ == y@,
        _ => false,
    }
}

/// Whether two elements are the same.
pub fn elements_equal(a: &FocusableElement, b: &FocusableElement) -> (r: bool)
    ensures
        r == same_element(*a, *b),
{
    match (a, b) {
        (FocusableElement::Terminal, FocusableElement::Terminal) => true,
        (FocusableElement::Tab(i), FocusableElement::Tab(j)) => *i == *j,
        (FocusableElement::SearchBar, FocusableElement::SearchBar) => true,
        (FocusableElement::CommandPalette, FocusableElement::CommandPalette) => true,
        (FocusableElement::SettingsPanel, FocusableElement::SettingsPanel) => true,
        (FocusableElement::Button(x), FocusableElement::Button(y)) => str_eq(x.as_str(), y.as_str()),
        (FocusableElement::Input(x), FocusableElement::Input(y)) => str_eq(x.as_str(), y.as_str()),
        _ => false,
    }
}

/// Focus animation style
#[derive(Debug, Clone, Copy, PartialEq, Eq, Structural)]
pub enum FocusAnimation {
    Pulse,
    Glow,
    Solid,
    NoAnimation,
}

/// Navigation action resulting from keyboard input
#[derive(Debug, Clone, Copy, PartialEq, Eq, Structural)]
pub enum NavigationAction {
    MoveFocusNext,
    MoveFocusPrev,
    Activate,
    Cancel,
    MoveUp,
    MoveDown,
    MoveLeft,
    MoveRight,
}

/// The keys that navigation looks at; any other key is `Other`.
#[derive(Debug, Clone, Copy, PartialEq, Eq, Structural)]
pub enum NavKey {
    Tab,
    Enter,
    Escape,
    ArrowUp,
    ArrowDown,
    ArrowLeft,
    ArrowRight,
    Other,
}

/// The navigation action of a key.
pub open spec fn key_action(k: NavKey) -> Option<NavigationAction> {
    match k {
        NavKey::Tab => Some(NavigationAction::MoveFocusNext),
        NavKey::Enter => Some(NavigationAction::Activate),
        NavKey::Escape => Some(NavigationAction::Cancel),
        NavKey::ArrowUp => Some(NavigationAction::MoveUp),
        NavKey::ArrowDown => Some(NavigationAction::MoveDown),
        NavKey::ArrowLeft => Some(NavigationAction::MoveLeft),
        NavKey::ArrowRight => Some(NavigationAction::MoveRight),
        NavKey::Other => None,
    }
}

/// The elements with every element equal to `e` taken out.
pub open spec fn without_element(s: Seq<FocusableElement>, e: FocusableElement) -> Seq<FocusableElement>
    decreases s.len(),
{
    if s.len() == 0 {
        seq![]
    } else if same_element(s.last(), e) {
        without_element(s.drop_last(), e)
    } else {
        without_element(s.drop_last(), e).push(s.last())
    }
}

/// The focus after a step forward among `len` elements: the next one,
/// wrapping from the last to the first.
pub open spec fn focus_after_next(focus: nat, len: nat) -> nat {
    (focus + 1) % len
}

/// The focus after a step back among `len` elements: the previous one,
/// wrapping from the first to the last.
pub open spec fn focus_after_prev(focus: nat, len: nat) -> nat {
    if focus == 0 {
        (len - 1) as nat
    } else {
        (focus - 1) as nat
    }
}

/// A step back undoes a step forward, and a step forward undoes a step
/// back, whatever element has the focus.
pub proof fn lemma_prev_undoes_next(focus: nat, len: nat)
    requires
        focus < len,
    ensures
        focus_after_next(focus, len) < len,
        focus_after_prev(focus, len) < len,
        focus_after_prev(focus_after_next(focus, len), len) == focus,
        focus_after_next(focus_after_prev(focus, len), len) == focus,
{
    if focus + 1 < len {
        assert((focus + 1) % len == focus + 1) by (nonlinear_arith)
            requires
                0 <= focus + 1 < len,
        ;
    } else {
        assert((focus + 1) % len == 0) by (nonlinear_arith)
            requires
                focus + 1 == len,
                len > 0,
        ;
    }
    if focus == 0 {
        assert((((len - 1) as nat) + 1) % len == 0) by (nonlinear_arith)
            requires
                len > 0,
        ;
    } else {
        assert((((focus - 1) as nat) + 1) % len == focus) by (nonlinear_arith)
            requires
                0 < focus < len,
        ;
    }
}

/// Announcing never lets the queue grow past fifty; a critical
/// announcement is spoken next and interrupts; a high one is spoken next,
/// or right after the one in front of it; any other is spoken last.
pub proof fn lemma_queue_order(q: Seq<(Seq<char>, AnnouncePriority, bool)>, text: Seq<char>, p: AnnouncePriority)
    requires
        q.len() <= 50,
    ensures
        queued(q, text, p).len() == if q.len() == 50 { 50 } else { q.len() + 1 },
        p == AnnouncePriority::Critical ==> queued(q, text, p)[0] == (text, p, true),
        p == AnnouncePriority::High && q.len() == 0 ==> queued(q, text, p)[0] == (text, p, false),
        p == AnnouncePriority::High && q.len() > 0 ==> queued(q, text, p)[0] == q[0] && queued(q, text, p)[1] == (text, p, false),
        (p != AnnouncePriority::Critical && p != AnnouncePriority::High) && q.len() < 50
            ==> queued(q, text, p) == q.push((text, p, false)),
        (p != AnnouncePriority::Critical && p != AnnouncePriority::High) && q.len() == 50 ==> queued(q, text, p) == q,
{
    if (p != AnnouncePriority::Critical && p != AnnouncePriority::High) && q.len() == 50 {
        assert(q.push((text, p, false)).take(50) =~= q);
    }
}

/// Keyboard-only navigation manager
#[derive(Debug, Clone)]
pub struct KeyboardNavigation {
    focusable_elements: Vec<FocusableElement>,
    current_focus: usize,
}

impl KeyboardNavigation {
    /// The focusable elements, in navigation order.
    pub closed spec fn elements(&self) -> Seq<FocusableElement> {
        self.focusable_elements@
    }

    /// The position of the focus.
    pub closed spec fn focus(&self) -> nat {
        self.current_focus as nat
    }

    /// The focus is on an element, or at 0 when there is none.
    pub open spec fn wf(&self) -> bool {
        if self.elements().len() == 0 {
            self.focus() == 0
        } else {
            self.focus() < self.elements().len()
        }
    }

    /// Navigation over the terminal alone, focused.
    pub fn new() -> (n: Self)
        ensures
            n.wf(),
            n.elements() == seq![FocusableElement::Terminal],
            n.focus() == 0,
    {
        let mut v: Vec<FocusableElement> = Vec::new();
        v.push(FocusableElement::Terminal);
        assert(v@ =~= seq![FocusableElement::Terminal]);
        KeyboardNavigation { focusable_elements: v, current_focus: 0 }
    }

    /// Add a focusable element at the end
    pub fn add_element(&mut self, element: FocusableElement)
        requires
            old(self).wf(),
        ensures
            final(self).wf(),
            final(self).elements() == old(self).elements().push(element),
            final(self).focus() == old(self).focus(),
    {
        self.focusable_elements.push(element);
    }

    /// Remove every element equal to the given one; a focus past the end
    /// moves to the last element
    pub fn remove_element(&mut self, element: &FocusableElement)
        requires
            old(self).wf(),
        ensures
            final(self).wf(),
            final(self).elements() == without_element(old(self).elements(), *element),
            final(self).focus() == if old(self).focus() >= final(self).elements().len() {
                if final(self).elements().len() == 0 { 0 } else { (final(self).elements().len() - 1) as nat }
            } else {
                old(self).focus()
            },
    {
        let ghost e0 = self.focusable_elements@;
        let mut kept: Vec<FocusableElement> = Vec::new();
        let mut i: usize = 0;
        while self.focusable_elements.len() > 0
            invariant
                i <= e0.len(),
                e0 == old(self).focusable_elements@,
                self.focusable_elements@ == e0.subrange(i as int, e0.len() as int),
                kept@ == without_element(e0.subrange(0, i as int), *element),
                self.current_focus == old(self).current_focus,
            decreases self.focusable_elements.len(),
        {
            assert(self.focusable_elements@.len() == e0.len() - i);
            assert(e0.len() == old(self).focusable_elements.len());
            let x = self.focusable_elements.remove(0);
            assert(x == e0[i as int]);
            assert(e0.subrange(0, i + 1).drop_last() =~= e0.subrange(0, i as int));
            if !elements_equal(&x, element) {
                kept.push(x);
            }
            i = i + 1;
            assert(self.focusable_elements@ =~= e0.subrange(i as int, e0.len() as int));
        }
        assert(e0.subrange(0, e0.len() as int) =~= e0);
        self.focusable_elements = kept;
        if self.current_focus >= self.focusable_elements.len() {
            self.current_focus = if self.focusable_elements.len() == 0 { 0 } else { self.focusable_elements.len() - 1 };
        }
    }

    /// Move focus to next element, wrapping around
    pub fn next(&mut self)
        requires
            old(self).wf(),
        ensures
            final(self).wf(),
            final(self).elements() == old(self).elements(),
            final(self).focus() == if old(self).elements().len() == 0 { old(self).focus() } else {
                focus_after_next(old(self).focus(), old(self).elements().len())
            },
    {
        if self.focusable_elements.len() > 0 {
            self.current_focus = (self.current_focus + 1) % self.focusable_elements.len();
        }
    }

    /// Move focus to previous element, wrapping around
    pub fn prev(&mut self)
        requires
            old(self).wf(),
        ensures
            final(self).wf(),
            final(self).elements() == old(self).elements(),
            final(self).focus() == if old(self).elements().len() == 0 { old(self).focus() } else {
                focus_after_prev(old(self).focus(), old(self).elements().len())
            },
    {
        if self.focusable_elements.len() > 0 {
            self.current_focus = if self.current_focus == 0 {
                self.focusable_elements.len() - 1
            } else {
                self.current_focus - 1
            };
        }
    }

    /// Move focus to first element
    pub fn focus_first(&mut self)
        requires
            old(self).wf(),
        ensures
            final(self).wf(),
            final(self).elements() == old(self).elements(),
            final(self).focus() == 0,
    {
        self.current_focus = 0;
    }

    /// Move focus to last element
    pub fn focus_last(&mut self)
        requires
            old(self).wf(),
        ensures
            final(self).wf(),
            final(self).elements() == old(self).elements(),
            final(self).focus() == if old(self).elements().len() == 0 { 0 } else { (old(self).elements().len() - 1) as nat },
    {
        self.current_focus = if self.focusable_elements.len() == 0 { 0 } else { self.focusable_elements.len() - 1 };
    }

    /// Focus the first element equal to the given one, if there is one
    pub fn focus_element(&mut self, element: FocusableElement)
        requires
            old(self).wf(),
        ensures
            final(self).wf(),
            final(self).elements() == old(self).elements(),
            (exists|i: int| 0 <= i < old(self).elements().len() && same_element(#[trigger] old(self).elements()[i], element))
                ==> same_element(old(self).elements()[final(self).focus() as int], element)
                && forall|j: int| 0 <= j < final(self).focus() ==> !same_element(#[trigger] old(self).elements()[j], element),
            !(exists|i: int| 0 <= i < old(self).elements().len() && same_element(#[trigger] old(self).elements()[i], element))
                ==> final(self).focus() == old(self).focus(),
    {
        let mut i: usize = 0;
        while i < self.focusable_elements.len()
            invariant
                i <= self.focusable_elements@.len(),
                self.focusable_elements@ == old(self).focusable_elements@,
                self.current_focus == old(self).current_focus,
                forall|j: int| 0 <= j < i ==> !same_element(#[trigger] self.focusable_elements@[j], element),
            decreases self.focusable_elements.len() - i,
        {
            if elements_equal(&self.focusable_elements[i], &element) {
                self.current_focus = i;
                return;
            }
            i = i + 1;
        }
    }

    /// Get currently focused element
    pub fn current(&self) -> (r: Option<&FocusableElement>)
        ensures
            match r {
                Some(e) => self.focus() < self.elements().len() && *e == self.elements()[self.focus() as int],
                None => self.focus() >= self.elements().len(),
            },
    {
        if self.current_focus < self.focusable_elements.len() {
            Some(&self.focusable_elements[self.current_focus])
        } else {
            None
        }
    }

    /// Handle keyboard input and return navigation action
    pub fn handle_key(key: NavKey) -> (r: Option<NavigationAction>)
        ensures
            r == key_action(key),
    {
        match key {
            NavKey::Tab => Some(NavigationAction::MoveFocusNext),
            NavKey::Enter => Some(NavigationAction::Activate),
            NavKey::Escape => Some(NavigationAction::Cancel),
            NavKey::ArrowUp => Some(NavigationAction::MoveUp),
            NavKey::ArrowDown => Some(NavigationAction::MoveDown),
            NavKey::ArrowLeft => Some(NavigationAction::MoveLeft),
            NavKey::ArrowRight => Some(NavigationAction::MoveRight),
            NavKey::Other => None,
        }
    }
}

impl Default for KeyboardNavigation {
    fn default() -> (n: Self)
        ensures
            n.wf(),
            n.elements() == seq![FocusableElement::Terminal],
            n.focus() == 0,
    {
        Self::new()
    }
}

/// Scroll behavior preference
#[derive(Debug, Clone, Copy, PartialEq, Eq, Structural)]
pub enum ScrollBehavior {
    Smooth,
    Instant,
    Auto,
}

/// Motion and animation settings
#[derive(Debug, Clone, Copy)]
pub struct MotionSettings {
    pub animation_duration: Duration,
    pub transition_enabled: bool,
    pub scroll_behavior: ScrollBehavior,
}

impl Default for MotionSettings {
    fn default() -> (m: Self)
        ensures
            m.animation_duration == duration_of_millis(200),
            m.transition_enabled,
            m.scroll_behavior == ScrollBehavior::Smooth,
    {
        MotionSettings { animation_duration: millis(200), transition_enabled: true, scroll_behavior: ScrollBehavior::Smooth }
    }
}

impl MotionSettings {
    /// No animation, no transitions, instant scrolling.
    pub fn reduced_motion() -> (m: Self)
        ensures
            m.animation_duration == duration_of_millis(0),
            !m.transition_enabled,
            m.scroll_behavior == ScrollBehavior::Instant,
    {
        MotionSettings { animation_duration: millis(0), transition_enabled: false, scroll_behavior: ScrollBehavior::Instant }
    }
}

/// The label assistive technology reads for an element.
pub open spec fn aria_label(e: FocusableElement) -> Seq<char> {
    match e {
        FocusableElement::Terminal => "Terminal window"@,
        FocusableElement::Tab(i) => "Tab "@ + decimal((i + 1) as nat),
        FocusableElement::SearchBar => "Search bar"@,
        FocusableElement::CommandPalette => "Command palette"@,
        FocusableElement::SettingsPanel => "Settings panel"@,
        FocusableElement::Button(n) => n@ + " button"@,
        FocusableElement::Input(n) => n@ + " input"@,
    }
}

/// Central accessibility manager
#[derive(Debug)]
pub struct AccessibilityManager {
    pub config: AccessibilityConfig,
    pub screen_reader: ScreenReader,
    pub keyboard_nav: KeyboardNavigation,
    pub contrast_checker: ContrastChecker,
}

impl AccessibilityManager {
    /// A manager for the configuration: the screen reader on when the
    /// configuration says so, navigation over the terminal alone.
    pub fn new(config: AccessibilityConfig) -> (m: Self)
        ensures
            m.config == config,
            m.screen_reader.on() == config.screen_reader_enabled,
            m.screen_reader.pending().len() == 0,
            m.keyboard_nav.wf(),
            m.keyboard_nav.elements() == seq![FocusableElement::Terminal],
            m.keyboard_nav.focus() == 0,
    {
        let mut screen_reader = ScreenReader::new();
        screen_reader.set_enabled(config.screen_reader_enabled);
        AccessibilityManager { config, screen_reader, keyboard_nav: KeyboardNavigation::new(), contrast_checker: ContrastChecker }
    }

    /// Adjust animation duration for reduced motion
    pub fn adjust_for_reduced_motion(&self, animation: &mut Duration)
        ensures
            *final(animation) == if self.config.reduced_motion { duration_of_millis(0) } else { *old(animation) },
    {
        if self.config.reduced_motion {
            *animation = millis(0);
        }
    }

    /// Get the label for a UI element
    pub fn get_aria_label(element: &FocusableElement) -> (r: String)
        requires
            element matches FocusableElement::Tab(i) ==> i < usize::MAX,
        ensures
            r@ == aria_label(*element),
    {
        match element {
            FocusableElement::Terminal => owned("Terminal window"),
            FocusableElement::Tab(idx) => {
                let mut s = owned("Tab ");
                push_str(&mut s, usize_to_string(*idx + 1).as_str());
                s
            },
            FocusableElement::SearchBar => owned("Search bar"),
            FocusableElement::CommandPalette => owned("Command palette"),
            FocusableElement::SettingsPanel => owned("Settings panel"),
            FocusableElement::Button(name) => {
                let mut s = owned(name.as_str());
                push_str(&mut s, " button");
                s
            },
            FocusableElement::Input(name) => {
                let mut s = owned(name.as_str());
                push_str(&mut s, " input");
                s
            },
        }
    }

    /// Handle keyboard input for navigation: moving the focus announces the
    /// newly focused element
    pub fn handle_key(&mut self, key: NavKey) -> (r: Option<NavigationAction>)
        requires
            old(self).keyboard_nav.wf(),
            forall|i: int| 0 <= i < old(self).keyboard_nav.elements().len() ==>
                (#[trigger] old(self).keyboard_nav.elements()[i] matches FocusableElement::Tab(t) ==> t < usize::MAX),
        ensures
            final(self).keyboard_nav.wf(),
            final(self).config == old(self).config,
            final(self).keyboard_nav.elements() == old(self).keyboard_nav.elements(),
            r == if !old(self).config.keyboard_only && !old(self).config.focus_highlight { None } else { key_action(key) },
            r == Some(NavigationAction::MoveFocusNext) ==> {
                let n = old(self).keyboard_nav.elements().len();
                let f = if n == 0 { old(self).keyboard_nav.focus() } else { ((old(self).keyboard_nav.focus() + 1) % n) as nat };
                &&& final(self).keyboard_nav.focus() == f
                &&& final(self).screen_reader.pending() == if f < n && old(self).screen_reader.on() {
                    queued(old(self).screen_reader.pending(), spoken(aria_label(old(self).keyboard_nav.elements()[f as int])),
                        AnnouncePriority::Normal)
                } else {
                    old(self).screen_reader.pending()
                }
            },
            r != Some(NavigationAction::MoveFocusNext) ==> final(self).keyboard_nav.focus() == old(self).keyboard_nav.focus()
                && final(self).screen_reader.pending() == old(self).screen_reader.pending(),
            final(self).screen_reader.on() == old(self).screen_reader.on(),
    {
        if !self.config.keyboard_only && !self.config.focus_highlight {
            return None;
        }
        let action = match KeyboardNavigation::handle_key(key) {
            Some(a) => a,
            None => {
                return None;
            },
        };
        match action {
            NavigationAction::MoveFocusNext => {
                self.keyboard_nav.next();
                match self.keyboard_nav.current() {
                    Some(element) => {
                        let label = Self::get_aria_label(element);
                        self.screen_reader.announce(label.as_str(), AnnouncePriority::Normal);
                    },
                    None => {},
                }
            },
            _ => {},
        }
        Some(action)
    }

    /// Get motion settings based on config
    pub fn motion_settings(&self) -> (m: MotionSettings)
        ensures
            m.animation_duration == duration_of_millis(if self.config.reduced_motion { 0 } else { 200 }),
            m.transition_enabled == !self.config.reduced_motion,
            m.scroll_behavior == if self.config.reduced_motion { ScrollBehavior::Instant } else { ScrollBehavior::Smooth },
    {
        if self.config.reduced_motion {
            MotionSettings::reduced_motion()
        } else {
            MotionSettings::default()
        }
    }
}

impl Default for AccessibilityManager {
    fn default() -> (m: Self)
        ensures
            !m.screen_reader.on(),
            m.keyboard_nav.wf(),
            m.keyboard_nav.elements() == seq![FocusableElement::Terminal],
    {
        Self::new(AccessibilityConfig::default())
    }
}

} // verus!
