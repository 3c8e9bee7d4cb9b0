//! The sections of the terminal's configuration file with their defaults, and
//! the events that hooks react to.

use vstd::prelude::*;
use crate::pattern::{regex_match, regex_compiles, regex_finds};
use crate::text::{chars_of, contains, contains_sub, owned, str_eq};

verus! {

/// Session management configuration
#[derive(Debug, Clone)]
pub struct SessionConfig {
    /// Restore previous session on startup
    pub restore_on_startup: bool,
    /// Save session on normal exit
    pub save_on_exit: bool,
    /// Enable automatic saving at intervals
    pub auto_save: bool,
    /// Auto-save interval in seconds
    pub auto_save_interval_seconds: u64,
    /// Maximum number of backup files to keep
    pub max_backups: usize,
    /// Custom session file path (None = use default)
    pub session_file: Option<String>,
    /// Prompt user before restoring crashed session
    pub prompt_on_recovery: bool,
}

impl Default for SessionConfig {
    fn default() -> (c: Self)
        ensures
            c.restore_on_startup && c.save_on_exit && c.auto_save && c.prompt_on_recovery,
            c.auto_save_interval_seconds == 30,
            c.max_backups == 5,
            c.session_file is None,
    {
        SessionConfig {
            restore_on_startup: true,
            save_on_exit: true,
            auto_save: true,
            auto_save_interval_seconds: 30,
            max_backups: 5,
            session_file: None,
            prompt_on_recovery: true,
        }
    }
}

/// General application settings
#[derive(Debug, Clone)]
pub struct GeneralConfig {
    pub app_name: String,
    pub default_shell: Option<String>,
    pub default_working_dir: Option<String>,
    pub session: SessionConfig,
}

impl Default for GeneralConfig {
    fn default() -> (c: Self)
        ensures
            c.app_name@ == "agterm"@,
            c.default_shell is None,
            c.default_working_dir is None,
            c.session.restore_on_startup && c.session.save_on_exit && c.session.auto_save && c.session.prompt_on_recovery,
            c.session.auto_save_interval_seconds == 30,
            c.session.max_backups == 5,
            c.session.session_file is None,
    {
        GeneralConfig {
            app_name: owned("agterm"),
            default_shell: None,
            default_working_dir: None,
            session: SessionConfig::default(),
        }
    }
}

/// Color scheme: colours written as hex strings
#[derive(Debug, Clone)]
pub struct ColorScheme {
    pub background: String,
    pub foreground: String,
    pub cursor: String,
    pub selection: Option<String>,
    pub black: Option<String>,
    pub red: Option<String>,
    pub green: Option<String>,
    pub yellow: Option<String>,
    pub blue: Option<String>,
    pub magenta: Option<String>,
    pub cyan: Option<String>,
    pub white: Option<String>,
    pub bright_black: Option<String>,
    pub bright_red: Option<String>,
    pub bright_green: Option<String>,
    pub bright_yellow: Option<String>,
    pub bright_blue: Option<String>,
    pub bright_magenta: Option<String>,
    pub bright_cyan: Option<String>,
    pub bright_white: Option<String>,
}

/// Scrollback buffer configuration
#[derive(Debug, Clone, Copy, PartialEq, Eq, Structural)]
pub struct ScrollbackConfig {
    /// Maximum number of lines to keep in scrollback (0 = unlimited)
    pub max_lines: usize,
    /// Enable RLE compression for scrollback lines
    pub compression: bool,
    /// Save scrollback to file on exit
    pub save_to_file: bool,
}

impl Default for ScrollbackConfig {
    fn default() -> (c: Self)
        ensures
            c == (ScrollbackConfig { max_lines: 10000, compression: true, save_to_file: false }),
    {
        ScrollbackConfig { max_lines: 10000, compression: true, save_to_file: false }
    }
}

/// Cursor style options
#[derive(Debug, Clone, Copy, PartialEq, Eq, Structural)]
pub enum CursorStyle {
    Block,
    Underline,
    Beam,
}

impl Default for CursorStyle {
    fn default() -> (s: Self)
        ensures
            s == CursorStyle::Block,
    {
        CursorStyle::Block
    }
}

/// Bell notification style
#[derive(Debug, Clone, Copy, PartialEq, Eq, Structural)]
pub enum BellStyle {
    Visual,
    Sound,
    Both,
    Silent,
}

impl Default for BellStyle {
    fn default() -> (s: Self)
        ensures
            s == BellStyle::Visual,
    {
        BellStyle::Visual
    }
}

/// Image display configuration
#[derive(Debug, Clone, Copy, PartialEq, Eq, Structural)]
pub struct ImageConfig {
    /// Enable image display support
    pub enabled: bool,
    /// Maximum image size in bytes
    pub max_size_bytes: usize,
}

impl Default for ImageConfig {
    fn default() -> (c: Self)
        ensures
            c == (ImageConfig { enabled: false, max_size_bytes: 10485760usize }),
    {
        ImageConfig { enabled: false, max_size_bytes: 10 * 1024 * 1024 }
    }
}

/// Bracket matching configuration
#[derive(Debug, Clone)]
pub struct BracketConfig {
    /// Enable bracket matching highlighting
    pub enabled: bool,
    /// Highlight color for matching brackets (#RRGGBB or #RRGGBBAA)
    pub highlight_color: String,
}

impl Default for BracketConfig {
    fn default() -> (c: Self)
        ensures
            c.enabled,
            c.highlight_color@ == "#5c8afa"@,
    {
        BracketConfig { enabled: true, highlight_color: owned("#5c8afa") }
    }
}

/// Link detection and opening configuration
#[derive(Debug, Clone)]
pub struct LinkConfig {
    /// Enable link detection and Ctrl+Click to open
    pub enabled: bool,
    /// Modifier key for opening links ("ctrl", "cmd", "alt")
    pub modifier: String,
    /// Show underline for detected links
    pub underline: bool,
}

impl LinkConfig {
    /// The default link settings on a platform: links open with Cmd on macOS
    /// and with Ctrl elsewhere
    pub fn for_platform(macos: bool) -> (c: Self)
        ensures
            c.enabled,
            c.underline,
            c.modifier@ == if macos { "cmd"@ } else { "ctrl"@ },
    {
        LinkConfig { enabled: true, modifier: if macos { owned("cmd") } else { owned("ctrl") }, underline: true }
    }
}

/// Title configuration for window and tab titles
#[derive(Debug, Clone)]
pub struct TitleConfig {
    /// Format string for tab titles (supports ${command}, ${cwd}, ${title})
    pub format: String,
    /// Show current working directory in title
    pub show_cwd: bool,
    /// Maximum length of title before truncation
    pub max_length: usize,
}

impl Default for TitleConfig {
    fn default() -> (c: Self)
        ensures
            c.format@ == "${title}"@,
            c.show_cwd,
            c.max_length == 50,
    {
        TitleConfig { format: owned("${title}"), show_cwd: true, max_length: 50 }
    }
}

/// Shell configuration
#[derive(Debug, Clone)]
pub struct ShellConfig {
    pub program: Option<String>,
    pub args: Vec<String>,
    pub env: Vec<(String, String)>,
    pub login_shell: bool,
    pub working_directory: Option<String>,
}

impl Default for ShellConfig {
    fn default() -> (c: Self)
        ensures
            c.program is None,
            c.args@ == Seq::<String>::empty(),
            c.env@ == Seq::<(String, String)>::empty(),
            c.login_shell,
            c.working_directory is None,
    {
        ShellConfig { program: None, args: Vec::new(), env: Vec::new(), login_shell: true, working_directory: None }
    }
}

/// Environment configuration
#[derive(Debug, Clone)]
pub struct EnvironmentConfig {
    pub inherit: bool,
    pub variables: Vec<(String, String)>,
    pub term: String,
    pub lang: Option<String>,
    pub path_prepend: Vec<String>,
    pub path_append: Vec<String>,
}

impl Default for EnvironmentConfig {
    fn default() -> (c: Self)
        ensures
            c.inherit,
            c.variables@ == Seq::<(String, String)>::empty(),
            c.term@ == "xterm-256color"@,
            c.lang is None,
            c.path_prepend@ == Seq::<String>::empty(),
            c.path_append@ == Seq::<String>::empty(),
    {
        EnvironmentConfig {
            inherit: true,
            variables: Vec::new(),
            term: owned("xterm-256color"),
            lang: None,
            path_prepend: Vec::new(),
            path_append: Vec::new(),
        }
    }
}

/// Text selection mode
#[derive(Debug, Clone, Copy, PartialEq, Eq, Structural)]
pub enum SelectionMode {
    Character,
    Word,
    Line,
}

impl Default for SelectionMode {
    fn default() -> (s: Self)
        ensures
            s == SelectionMode::Character,
    {
        SelectionMode::Character
    }
}

/// Mouse configuration
#[derive(Debug, Clone, Copy, PartialEq, Eq, Structural)]
pub struct MouseConfig {
    pub enabled: bool,
    pub reporting: bool,
    pub selection_mode: SelectionMode,
    pub copy_on_select: bool,
    pub middle_click_paste: bool,
}

impl Default for MouseConfig {
    fn default() -> (c: Self)
        ensures
            c == (MouseConfig {
                enabled: true,
                reporting: true,
                selection_mode: SelectionMode::Character,
                copy_on_select: true,
                middle_click_paste: true,
            }),
    {
        MouseConfig {
            enabled: true,
            reporting: true,
            selection_mode: SelectionMode::Character,
            copy_on_select: true,
            middle_click_paste: true,
        }
    }
}

/// PTY configuration
#[derive(Debug, Clone, Copy, PartialEq, Eq, Structural)]
pub struct PtyConfig {
    pub max_sessions: usize,
    pub default_cols: u16,
    pub default_rows: u16,
    pub scrollback_lines: usize,
}

impl Default for PtyConfig {
    fn default() -> (c: Self)
        ensures
            c == (PtyConfig { max_sessions: 32, default_cols: 120, default_rows: 40, scrollback_lines: 10000 }),
    {
        PtyConfig { max_sessions: 32, default_cols: 120, default_rows: 40, scrollback_lines: 10000 }
    }
}

/// TUI configuration
#[derive(Debug, Clone)]
pub struct TuiConfig {
    pub target_fps: u32,
    pub show_line_numbers: bool,
    pub theme: String,
    pub mouse_support: bool,
    pub keybindings: String,
}

impl Default for TuiConfig {
    fn default() -> (c: Self)
        ensures
            c.target_fps == 60,
            !c.show_line_numbers,
            c.theme@ == "default"@,
            c.mouse_support,
            c.keybindings@ == "default"@,
    {
        TuiConfig {
            target_fps: 60,
            show_line_numbers: false,
            theme: owned("default"),
            mouse_support: true,
            keybindings: owned("default"),
        }
    }
}

/// Logging configuration
#[derive(Debug, Clone)]
pub struct LoggingConfig {
    pub level: String,
    pub format: String,
    pub timestamps: bool,
    pub file_line: bool,
    pub file_output: bool,
    pub file_path: Option<String>,
}

impl Default for LoggingConfig {
    fn default() -> (c: Self)
        ensures
            c.level@ == "info"@,
            c.format@ == "pretty"@,
            c.timestamps,
            !c.file_line,
            c.file_output,
            c.file_path is None,
    {
        LoggingConfig {
            level: owned("info"),
            format: owned("pretty"),
            timestamps: true,
            file_line: false,
            file_output: true,
            file_path: None,
        }
    }
}

/// Debug configuration
#[derive(Debug, Clone, Copy, PartialEq, Eq, Structural)]
pub struct DebugConfig {
    pub enabled: bool,
    pub show_fps: bool,
    pub show_pty_stats: bool,
    pub log_buffer_size: usize,
}

impl Default for DebugConfig {
    fn default() -> (c: Self)
        ensures
            c == (DebugConfig { enabled: false, show_fps: true, show_pty_stats: true, log_buffer_size: 50 }),
    {
        DebugConfig { enabled: false, show_fps: true, show_pty_stats: true, log_buffer_size: 50 }
    }
}

/// Notification configuration
#[derive(Debug, Clone, Copy, PartialEq, Eq, Structural)]
pub struct NotificationConfig {
    pub enabled: bool,
    pub on_bell: bool,
    pub on_command_complete: bool,
    pub timeout_seconds: u64,
}

impl Default for NotificationConfig {
    fn default() -> (c: Self)
        ensures
            c == (NotificationConfig { enabled: true, on_bell: true, on_command_complete: false, timeout_seconds: 5 }),
    {
        NotificationConfig { enabled: true, on_bell: true, on_command_complete: false, timeout_seconds: 5 }
    }
}

/// Status bar configuration
#[derive(Debug, Clone, Copy, PartialEq, Eq, Structural)]
pub struct StatusBarConfig {
    pub visible: bool,
    pub show_cwd: bool,
    pub show_size: bool,
    pub show_encoding: bool,
    pub show_scroll_position: bool,
    pub show_mode: bool,
}

impl Default for StatusBarConfig {
    fn default() -> (c: Self)
        ensures
            c == (StatusBarConfig {
                visible: true,
                show_cwd: true,
                show_size: true,
                show_encoding: true,
                show_scroll_position: true,
                show_mode: true,
            }),
    {
        StatusBarConfig {
            visible: true,
            show_cwd: true,
            show_size: true,
            show_encoding: true,
            show_scroll_position: true,
            show_mode: true,
        }
    }
}

/// Configuration errors
#[derive(Debug, Clone)]
pub enum ConfigError {
    IoError(String),
    ParseError(String),
    SerializeError(String),
}

/// Terminal event types that can trigger hooks
#[derive(Debug, Clone, PartialEq)]
pub enum HookEvent {
    /// A command finished
    CommandComplete { command_pattern: Option<String>, exit_code: Option<i32> },
    /// The working directory changed
    DirectoryChange { directory_pattern: Option<String> },
    /// The output matched a pattern
    OutputMatch { pattern: String },
    /// The terminal bell rang
    Bell,
}

/// Whether pattern `p` accepts text `t`: the regular expression finds a
/// match, or, when it does not compile, the two are equal.
pub open spec fn pattern_accepts(p: Seq<char>, t: Seq<char>) -> bool {
    if regex_compiles(p) { regex_finds(p, t) } else { p == t }
}

/// Whether a hook listening for `want` fires on event `got`.
pub open spec fn event_fires(want: HookEvent, got: HookEvent) -> bool {
    match (want, got) {
        (HookEvent::CommandComplete { command_pattern: p1, exit_code: c1 }, HookEvent::CommandComplete { command_pattern: p2, exit_code: c2 }) => {
            let code_ok = match (c1, c2) {
                (Some(a), Some(b)) => a == b,
                (None, _) => true,
                (Some(_), None) => false,
            };
            let pattern_ok = match (p1, p2) {
                (Some(a), Some(b)) => pattern_accepts(a@, b@),
                (None, _) => true,
                (Some(_), None) => false,
            };
            code_ok && pattern_ok
        },
        (HookEvent::DirectoryChange { directory_pattern: p1 }, HookEvent::DirectoryChange { directory_pattern: p2 }) => {
            match (p1, p2) {
                (Some(a), Some(b)) => a@ == b@ || a@ == "*"@ || contains_sub(b@, a@),
                (None, _) => true,
                (Some(_), None) => false,
            }
        },
        (HookEvent::OutputMatch { pattern: a }, HookEvent::OutputMatch { pattern: b }) => pattern_accepts(a@, b@),
        (HookEvent::Bell, HookEvent::Bell) => true,
        _ => false,
    }
}

/// Whether pattern `p` accepts text `t`.
fn accepts(p: &str, t: &str) -> (r: bool)
    ensures
        r == pattern_accepts(p@, t@),
{
    match regex_match(p, t) {
        Some(hit) => hit,
        None => str_eq(p, t),
    }
}

impl HookEvent {
    /// Whether a hook listening for this event fires on `event`
    pub fn fires_on(&self, event: &HookEvent) -> (r: bool)
        ensures
            r == event_fires(*self, *event),
    {
        match (self, event) {
            (HookEvent::CommandComplete { command_pattern: p1, exit_code: c1 }, HookEvent::CommandComplete { command_pattern: p2, exit_code: c2 }) => {
                let code_ok = match (c1, c2) {
                    (Some(a), Some(b)) => *a == *b,
                    (None, _) => true,
                    (Some(_), None) => false,
                };
                let pattern_ok = match (p1, p2) {
                    (Some(a), Some(b)) => accepts(a.as_str(), b.as_str()),
                    (None, _) => true,
                    (Some(_), None) => false,
                };
                code_ok && pattern_ok
            },
            (HookEvent::DirectoryChange { directory_pattern: p1 }, HookEvent::DirectoryChange { directory_pattern: p2 }) => {
                match (p1, p2) {
                    (Some(a), Some(b)) => str_eq(a.as_str(), b.as_str()) || str_eq(a.as_str(), "*") || contains(
                        &chars_of(b.as_str()),
                        &chars_of(a.as_str()),
                    ),
                    (None, _) => true,
                    (Some(_), None) => false,
                }
            },
            (HookEvent::OutputMatch { pattern: a }, HookEvent::OutputMatch { pattern: b }) => accepts(a.as_str(), b.as_str()),
            (HookEvent::Bell, HookEvent::Bell) => true,
            _ => false,
        }
    }
}

/// A wildcard or absent pattern fires on every event of its kind: a hook
/// listening for any command (no pattern, no exit code) fires on every
/// completed command, and one listening for any directory fires on every
/// directory change.
pub proof fn lemma_open_patterns_fire(got_cmd: Option<String>, got_code: Option<i32>, got_dir: Option<String>)
    ensures
        event_fires(
            HookEvent::CommandComplete { command_pattern: None, exit_code: None },
            HookEvent::CommandComplete { command_pattern: got_cmd, exit_code: got_code },
        ),
        event_fires(HookEvent::DirectoryChange { directory_pattern: None }, HookEvent::DirectoryChange { directory_pattern: got_dir }),
        event_fires(HookEvent::Bell, HookEvent::Bell),
{
}

/// Actions to perform when a hook is triggered
#[derive(Debug, Clone, PartialEq)]
pub enum HookAction {
    /// Send a desktop notification
    Notify { title: String, message: String },
    /// Run a shell command
    RunCommand { command: String, args: Vec<String> },
    /// Play a sound file, at a volume from 0.0 to 1.0 held as the bits of
    /// its `f32`
    PlaySound { path: String, volume_bits: u32 },
    /// Custom action, with its parameters by name
    Custom { id: String, params: Vec<(String, String)> },
}

/// Hook for custom terminal event handling
#[derive(Debug, Clone, PartialEq)]
pub struct Hook {
    /// Hook name (for identification)
    pub name: String,
    /// Event type that triggers this hook
    pub event_type: HookEvent,
    /// Action to perform when triggered
    pub action: HookAction,
    /// Whether this hook is enabled
    pub enabled: bool,
}

/// The bits of the `f32` 0.3, the volume of the default error bell.
pub const QUIET_VOLUME_BITS: u32 = 0x3e99_999a;

/// Whether a hook fires on an event: it is enabled and listens for it.
pub open spec fn hook_fires(h: Hook, event: HookEvent) -> bool {
    h.enabled && event_fires(h.event_type, event)
}

impl Hook {
    /// Create a new hook, enabled
    pub fn new(name: String, event_type: HookEvent, action: HookAction) -> (h: Self)
        ensures
            h.name == name,
            h.event_type == event_type,
            h.action == action,
            h.enabled,
    {
        Hook { name, event_type, action, enabled: true }
    }

    /// The default hooks: a notification when any command completes
    /// (enabled); a quiet sound on the bell, a notification on entering the
    /// home directory, and a notification on error output (all disabled)
    pub fn default_hooks() -> (v: Vec<Hook>)
        ensures
            v@.len() == 4,
            v@[0].name@ == "Long Command Complete"@ && v@[0].enabled
                && v@[0].event_type == (HookEvent::CommandComplete { command_pattern: None, exit_code: None })
                && (v@[0].action matches HookAction::Notify { title, message }
                    && title@ == "Command Complete"@ && message@ == "Your long-running command has finished"@),
            v@[1].name@ == "Error Bell"@ && !v@[1].enabled && v@[1].event_type == HookEvent::Bell
                && (v@[1].action matches HookAction::PlaySound { path, volume_bits }
                    && path@ == "/System/Library/Sounds/Basso.aiff"@ && volume_bits == QUIET_VOLUME_BITS),
            v@[2].name@ == "Home Directory"@ && !v@[2].enabled
                && (v@[2].event_type matches HookEvent::DirectoryChange { directory_pattern: Some(d) } && d@ == "~"@)
                && (v@[2].action matches HookAction::Notify { title, message }
                    && title@ == "Directory Changed"@ && message@ == "Entered home directory"@),
            v@[3].name@ == "Error Pattern"@ && !v@[3].enabled
                && (v@[3].event_type matches HookEvent::OutputMatch { pattern } && pattern@ == "(?i)(error|fail|fatal)"@)
                && (v@[3].action matches HookAction::Notify { title, message }
                    && title@ == "Error Detected"@ && message@ == "Error pattern detected in output"@),
    {
        let mut v: Vec<Hook> = Vec::new();
        v.push(Hook::new(
            owned("Long Command Complete"),
            HookEvent::CommandComplete { command_pattern: None, exit_code: None },
            HookAction::Notify { title: owned("Command Complete"), message: owned("Your long-running command has finished") },
        ));
        v.push(Hook {
            name: owned("Error Bell"),
            event_type: HookEvent::Bell,
            action: HookAction::PlaySound { path: owned("/System/Library/Sounds/Basso.aiff"), volume_bits: QUIET_VOLUME_BITS },
            enabled: false,
        });
        v.push(Hook {
            name: owned("Home Directory"),
            event_type: HookEvent::DirectoryChange { directory_pattern: Some(owned("~")) },
            action: HookAction::Notify { title: owned("Directory Changed"), message: owned("Entered home directory") },
            enabled: false,
        });
        v.push(Hook {
            name: owned("Error Pattern"),
            event_type: HookEvent::OutputMatch { pattern: owned("(?i)(error|fail|fatal)") },
            action: HookAction::Notify { title: owned("Error Detected"), message: owned("Error pattern detected in output") },
            enabled: false,
        });
        v
    }

    /// Check if this hook should trigger for the given event: it must be
    /// enabled and listen for the event
    pub fn matches_event(&self, event: &HookEvent) -> (r: bool)
        ensures
            r == hook_fires(*self, *event),
    {
        if !self.enabled {
            return false;
        }
        self.event_type.fires_on(event)
    }

    /// Carry out the hook's action. Every action is only announced for now,
    /// so this always succeeds.
    pub fn execute(&self) -> (r: Result<(), String>)
        ensures
            r is Ok,
    {
        Ok(())
    }
}

/// The names of some hooks.
pub open spec fn hook_names(hs: Seq<Hook>) -> Seq<Seq<char>> {
    hs.map_values(|h: Hook| h.name@)
}

/// Whether `i` is the first hook called `name`.
pub open spec fn first_named(hs: Seq<Hook>, name: Seq<char>, i: int) -> bool {
    0 <= i < hs.len() && hs[i].name@ == name && forall|k: int| 0 <= k < i ==> (#[trigger] hs[k]).name@ != name
}

/// The first position of a hook called `name`, if any.
fn position_of(hooks: &Vec<Hook>, name: &str) -> (r: Option<usize>)
    ensures
        match r {
            Some(i) => first_named(hooks@, name@, i as int),
            None => forall|k: int| 0 <= k < hooks@.len() ==> (#[trigger] hooks@[k]).name@ != name@,
        },
{
    let mut i: usize = 0;
    while i < hooks.len()
        invariant
            i <= hooks@.len(),
            forall|k: int| 0 <= k < i ==> (#[trigger] hooks@[k]).name@ != name@,
        decreases hooks.len() - i,
    {
        if str_eq(hooks[i].name.as_str(), name) {
            return Some(i);
        }
        i = i + 1;
    }
    None
}

/// The positions of the hooks of `hs` that fire on an event, in order.
pub open spec fn firing(hs: Seq<Hook>, event: HookEvent) -> Seq<usize>
    decreases hs.len(),
{
    if hs.len() == 0 {
        Seq::empty()
    } else if hook_fires(hs.last(), event) {
        firing(hs.drop_last(), event).push((hs.len() - 1) as usize)
    } else {
        firing(hs.drop_last(), event)
    }
}

/// The positions that fire are positions of hooks.
proof fn lemma_firing_in_range(hs: Seq<Hook>, event: HookEvent)
    ensures
        forall|q: int| 0 <= q < firing(hs, event).len() ==> (#[trigger] firing(hs, event)[q]) < hs.len(),
    decreases hs.len(),
{
    if hs.len() > 0 {
        let d = hs.drop_last();
        lemma_firing_in_range(d, event);
        let f = firing(hs, event);
        let fd = firing(d, event);
        assert forall|q: int| 0 <= q < f.len() implies (#[trigger] f[q]) < hs.len() by {
            if q < fd.len() {
                assert(f[q] == fd[q]);
            }
        }
    }
}

/// Hook manager for handling terminal events
#[derive(Debug)]
pub struct HookManager {
    hooks: Vec<Hook>,
}

impl HookManager {
    /// The hooks, in order.
    pub closed spec fn all(&self) -> Seq<Hook> {
        self.hooks@
    }

    /// A hook manager with these hooks (those loaded from the hooks file, or
    /// the defaults)
    pub fn new(hooks: Vec<Hook>) -> (m: Self)
        ensures
            m.all() == hooks@,
    {
        HookManager { hooks }
    }

    /// Get all hooks
    pub fn hooks(&self) -> (r: &[Hook])
        ensures
            r@ == self.all(),
    {
        self.hooks.as_slice()
    }

    /// Add a new hook at the end
    pub fn add_hook(&mut self, hook: Hook)
        ensures
            final(self).all() == old(self).all().push(hook),
    {
        self.hooks.push(hook);
    }

    /// Remove the first hook with this name; false when there is none
    pub fn remove_hook(&mut self, name: &str) -> (r: bool)
        ensures
            r == hook_names(old(self).all()).contains(name@),
            r ==> exists|i: int| first_named(old(self).all(), name@, i) && final(self).all() == old(self).all().remove(i),
            !r ==> final(self).all() == old(self).all(),
    {
        match position_of(&self.hooks, name) {
            Some(i) => {
                self.hooks.remove(i);
                assert(hook_names(old(self).all())[i as int] == name@);
                true
            },
            None => {
                assert(!hook_names(old(self).all()).contains(name@)) by {
                    if hook_names(old(self).all()).contains(name@) {
                        let k = choose|k: int| 0 <= k < hook_names(old(self).all()).len() && hook_names(old(self).all())[k] == name@;
                        assert(old(self).all()[k].name@ == name@);
                    }
                }
                false
            },
        }
    }

    /// Enable or disable the first hook with this name; false when there is
    /// none
    pub fn set_hook_enabled(&mut self, name: &str, enabled: bool) -> (r: bool)
        ensures
            r == hook_names(old(self).all()).contains(name@),
            r ==> exists|i: int| first_named(old(self).all(), name@, i)
                && final(self).all() == old(self).all().update(i, Hook { enabled, ..old(self).all()[i] }),
            !r ==> final(self).all() == old(self).all(),
    {
        match position_of(&self.hooks, name) {
            Some(i) => {
                let mut h = self.hooks.remove(i);
                h.enabled = enabled;
                self.hooks.insert(i, h);
                assert(self.hooks@ =~= old(self).all().update(i as int, Hook { enabled, ..old(self).all()[i as int] }));
                assert(hook_names(old(self).all())[i as int] == name@);
                true
            },
            None => {
                assert(!hook_names(old(self).all()).contains(name@)) by {
                    if hook_names(old(self).all()).contains(name@) {
                        let k = choose|k: int| 0 <= k < hook_names(old(self).all()).len() && hook_names(old(self).all())[k] == name@;
                        assert(old(self).all()[k].name@ == name@);
                    }
                }
                false
            },
        }
    }

    /// The positions of the hooks that fire on an event, in order
    pub fn matching_hooks(&self, event: &HookEvent) -> (r: Vec<usize>)
        ensures
            r@ == firing(self.all(), *event),
    {
        let mut r: Vec<usize> = Vec::new();
        let mut i: usize = 0;
        while i < self.hooks.len()
            invariant
                i <= self.hooks@.len(),
                r@ == firing(self.hooks@.subrange(0, i as int), *event),
            decreases self.hooks.len() - i,
        {
            let ghost pre = self.hooks@.subrange(0, i as int);
            assert(self.hooks@.subrange(0, i + 1).drop_last() =~= pre);
            if self.hooks[i].matches_event(event) {
                r.push(i);
            }
            i = i + 1;
        }
        assert(self.hooks@.subrange(0, self.hooks@.len() as int) =~= self.hooks@);
        r
    }

    /// Process an event: carry out the action of every hook that fires on
    /// it, in order; returns the positions of those hooks
    pub fn process_event(&self, event: &HookEvent) -> (r: Vec<usize>)
        ensures
            r@ == firing(self.all(), *event),
    {
        let fired = self.matching_hooks(event);
        proof {
            lemma_firing_in_range(self.all(), *event);
        }
        let mut k: usize = 0;
        while k < fired.len()
            invariant
                k <= fired@.len(),
                fired@ == firing(self.all(), *event),
                forall|q: int| 0 <= q < fired@.len() ==> (#[trigger] fired@[q]) < self.hooks@.len(),
            decreases fired.len() - k,
        {
            let _ = self.hooks[fired[k]].execute();
            k = k + 1;
        }
        fired
    }
}

} // verus!
