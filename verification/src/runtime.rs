//! The running application: its configuration, its lifecycle, the log level
//! it is asked for, and what each key press in the terminal window does.

use vstd::prelude::*;
use crate::automation::{char_bytes, bytes_of};
use crate::debug::panel::LogLevel;
use crate::text::{chars_of, lowercase, owned, seq_eq, to_lowercase};

verus! {

/// General application settings
#[derive(Debug, Clone)]
pub struct GeneralConfig {
    pub app_name: String,
    pub default_shell: String,
    pub default_working_dir: Option<String>,
}

impl GeneralConfig {
    /// The default settings, given the value of `$SHELL` when it is set
    pub fn with_shell(shell: Option<String>) -> (c: Self)
        ensures
            c.app_name@ == "agterm"@,
            c.default_shell@ == match shell { Some(s) => s@, None => "/bin/sh"@ },
            c.default_working_dir is None,
    {
        GeneralConfig {
            app_name: owned("agterm"),
            default_shell: match shell {
                Some(s) => s,
                None => owned("/bin/sh"),
            },
            default_working_dir: None,
        }
    }
}

/// PTY settings
#[derive(Debug, Clone, Copy, PartialEq, Eq, Structural)]
pub struct PtyConfig {
    pub max_sessions: usize,
    pub default_cols: u16,
    pub default_rows: u16,
    pub scrollback_lines: usize,
}

impl Default for PtyConfig {
    fn default() -> (c: Self)
        ensures
            c == (PtyConfig { max_sessions: 32, default_cols: 120, default_rows: 40, scrollback_lines: 10000 }),
    {
        PtyConfig { max_sessions: 32, default_cols: 120, default_rows: 40, scrollback_lines: 10000 }
    }
}

/// An MCP server to connect to
#[derive(Debug, Clone)]
pub struct McpServerConfig {
    pub name: String,
    pub transport: String,
    pub command: Option<String>,
    pub args: Vec<String>,
    pub url: Option<String>,
    pub env: Vec<(String, String)>,
    pub auto_connect: bool,
}

impl McpServerConfig {
    /// A server with the given name and the default settings: standard I/O
    /// transport, connected automatically
    pub fn named(name: String) -> (c: Self)
        ensures
            c.name == name,
            c.transport@ == "stdio"@,
            c.command is None,
            c.args@ == Seq::<String>::empty(),
            c.url is None,
            c.env@ == Seq::<(String, String)>::empty(),
            c.auto_connect,
    {
        McpServerConfig {
            name,
            transport: owned("stdio"),
            command: None,
            args: Vec::new(),
            url: None,
            env: Vec::new(),
            auto_connect: true,
        }
    }
}

/// MCP settings
#[derive(Debug, Clone)]
pub struct McpConfig {
    pub servers: Vec<McpServerConfig>,
    pub timeout_secs: u64,
    pub retry_attempts: u32,
    pub retry_delay_secs: u64,
}

impl Default for McpConfig {
    fn default() -> (c: Self)
        ensures
            c.servers@.len() == 0,
            c.timeout_secs == 30,
            c.retry_attempts == 3,
            c.retry_delay_secs == 5,
    {
        McpConfig { servers: Vec::new(), timeout_secs: 30, retry_attempts: 3, retry_delay_secs: 5 }
    }
}

/// Storage settings
#[derive(Debug, Clone)]
pub struct StorageConfig {
    pub database_path: Option<String>,
    pub logs_dir: Option<String>,
    pub compression_level: String,
    pub archive_retention_days: u32,
    pub ai_summarization: bool,
    pub ai_provider: Option<String>,
}

impl Default for StorageConfig {
    fn default() -> (c: Self)
        ensures
            c.database_path is None,
            c.logs_dir is None,
            c.compression_level@ == "compacted"@,
            c.archive_retention_days == 90,
            !c.ai_summarization,
            c.ai_provider is None,
    {
        StorageConfig {
            database_path: None,
            logs_dir: None,
            compression_level: owned("compacted"),
            archive_retention_days: 90,
            ai_summarization: false,
            ai_provider: None,
        }
    }
}

/// TUI settings
#[derive(Debug, Clone)]
pub struct TuiConfig {
    pub target_fps: u32,
    pub show_line_numbers: bool,
    pub theme: String,
    pub mouse_support: bool,
    pub keybindings: String,
}

impl Default for TuiConfig {
    fn default() -> (c: Self)
        ensures
            c.target_fps == 60,
            !c.show_line_numbers,
            c.theme@ == "default"@,
            c.mouse_support,
            c.keybindings@ == "vim"@,
    {
        TuiConfig {
            target_fps: 60,
            show_line_numbers: false,
            theme: owned("default"),
            mouse_support: true,
            keybindings: owned("vim"),
        }
    }
}

/// Logging settings
#[derive(Debug, Clone)]
pub struct LoggingConfig {
    pub level: String,
    pub file: Option<String>,
    pub format: String,
    pub timestamps: bool,
    pub file_line: bool,
}

impl Default for LoggingConfig {
    fn default() -> (c: Self)
        ensures
            c.level@ == "info"@,
            c.file is None,
            c.format@ == "pretty"@,
            c.timestamps,
            !c.file_line,
    {
        LoggingConfig { level: owned("info"), file: None, format: owned("pretty"), timestamps: true, file_line: false }
    }
}

/// Application configuration
#[derive(Debug, Clone)]
pub struct AppConfig {
    pub general: GeneralConfig,
    pub pty: PtyConfig,
    pub mcp: McpConfig,
    pub storage: StorageConfig,
    pub tui: TuiConfig,
    pub logging: LoggingConfig,
}

impl AppConfig {
    /// The default configuration, given the value of `$SHELL` when it is set
    pub fn with_shell(shell: Option<String>) -> (c: Self)
        ensures
            c.general.app_name@ == "agterm"@,
            c.general.default_shell@ == match shell { Some(s) => s@, None => "/bin/sh"@ },
            c.pty.max_sessions == 32,
            c.tui.target_fps == 60,
            c.storage.database_path is None,
            c.logging.level@ == "info"@,
    {
        AppConfig {
            general: GeneralConfig::with_shell(shell),
            pty: PtyConfig::default(),
            mcp: McpConfig::default(),
            storage: StorageConfig::default(),
            tui: TuiConfig::default(),
            logging: LoggingConfig::default(),
        }
    }
}

/// Application running state
#[derive(Debug, Clone, Copy, PartialEq, Eq, Structural)]
pub enum RunningState {
    /// Application is starting up
    Starting,
    /// Application is running normally
    Running,
    /// Application is shutting down
    ShuttingDown,
    /// Application has stopped
    Stopped,
}

/// Active TUI view
#[derive(Debug, Clone, Copy, PartialEq, Eq, Structural)]
pub enum ActiveView {
    /// Main view with task tree and terminals
    Main,
    /// Graph view (F4)
    Graph,
    /// MCP panel (F5)
    Mcp,
    /// Archive browser (F6)
    Archive,
    /// Help screen (F1)
    Help,
}

impl Default for ActiveView {
    fn default() -> (v: Self)
        ensures
            v == ActiveView::Main,
    {
        ActiveView::Main
    }
}

/// Main application state
#[derive(Debug)]
pub struct AppState {
    /// Unique session ID for this run
    pub session_id: u128,
    /// Application configuration
    pub config: AppConfig,
    /// Current running state
    pub running_state: RunningState,
    /// Current working directory
    pub working_dir: String,
    /// Active view (for TUI)
    pub active_view: ActiveView,
    /// Whether the application should quit
    pub should_quit: bool,
}

impl AppState {
    /// Create the state of a new run with session `session_id`, started in
    /// `working_dir`
    pub fn new(config: AppConfig, session_id: u128, working_dir: String) -> (s: Self)
        ensures
            s.session_id == session_id,
            s.config == config,
            s.running_state == RunningState::Starting,
            s.working_dir == working_dir,
            s.active_view == ActiveView::Main,
            !s.should_quit,
    {
        AppState {
            session_id,
            config,
            running_state: RunningState::Starting,
            working_dir,
            active_view: ActiveView::Main,
            should_quit: false,
        }
    }

    /// Transition to running state
    pub fn start(&mut self)
        ensures
            *final(self) == (AppState { running_state: RunningState::Running, ..*old(self) }),
    {
        self.running_state = RunningState::Running;
    }

    /// Request application shutdown; only a running application starts to
    /// shut down
    pub fn request_shutdown(&mut self)
        ensures
            old(self).running_state == RunningState::Running ==> *final(self) == (AppState {
                running_state: RunningState::ShuttingDown,
                should_quit: true,
                ..*old(self)
            }),
            old(self).running_state != RunningState::Running ==> *final(self) == *old(self),
    {
        if self.running_state == RunningState::Running {
            self.running_state = RunningState::ShuttingDown;
            self.should_quit = true;
        }
    }

    /// Mark application as stopped
    pub fn stop(&mut self)
        ensures
            *final(self) == (AppState { running_state: RunningState::Stopped, ..*old(self) }),
    {
        self.running_state = RunningState::Stopped;
    }

    /// Check if application is running
    pub fn is_running(&self) -> (r: bool)
        ensures
            r == (self.running_state == RunningState::Running),
    {
        self.running_state == RunningState::Running
    }

    /// Switch to a different view
    pub fn switch_view(&mut self, view: ActiveView)
        ensures
            *final(self) == (AppState { active_view: view, ..*old(self) }),
    {
        self.active_view = view;
    }

    /// Get the current working directory
    pub fn cwd(&self) -> (r: &String)
        ensures
            *r == self.working_dir,
    {
        &self.working_dir
    }

    /// Change working directory
    pub fn set_cwd(&mut self, path: String)
        ensures
            *final(self) == (AppState { working_dir: path, ..*old(self) }),
    {
        self.working_dir = path;
    }
}

/// The log level a lowercase level name stands for; unknown names mean info.
pub open spec fn level_named(name: Seq<char>) -> LogLevel {
    if name == "trace"@ {
        LogLevel::Trace
    } else if name == "debug"@ {
        LogLevel::Debug
    } else if name == "info"@ {
        LogLevel::Info
    } else if name == "warn"@ || name == "warning"@ {
        LogLevel::Warn
    } else if name == "error"@ {
        LogLevel::Error
    } else {
        LogLevel::Info
    }
}

/// The log level a lowercase level name stands for
pub fn level_of_lowercase(name: &Vec<char>) -> (r: LogLevel)
    ensures
        r == level_named(name@),
{
    if seq_eq(name, &chars_of("trace")) {
        LogLevel::Trace
    } else if seq_eq(name, &chars_of("debug")) {
        LogLevel::Debug
    } else if seq_eq(name, &chars_of("info")) {
        LogLevel::Info
    } else if seq_eq(name, &chars_of("warn")) || seq_eq(name, &chars_of("warning")) {
        LogLevel::Warn
    } else if seq_eq(name, &chars_of("error")) {
        LogLevel::Error
    } else {
        LogLevel::Info
    }
}

/// Parse a log level name, ignoring case; unknown names mean info
pub fn parse_level(level: &str) -> (r: LogLevel)
    ensures
        r == level_named(lowercase(level@)),
{
    let lower = chars_of(to_lowercase(level).as_str());
    level_of_lowercase(&lower)
}

} // verus!

verus! {

/// The keys the terminal window tells apart.
#[derive(Debug, Clone, Copy, PartialEq, Eq, Structural)]
pub enum KeyInput {
    Char(char),
    Enter,
    Backspace,
    Tab,
    BackTab,
    Esc,
    Up,
    Down,
    Left,
    Right,
    Home,
    End,
    PageUp,
    PageDown,
    Insert,
    Delete,
    F(u8),
    Other,
}

/// The modifier keys held with a key.
#[derive(Debug, Clone, Copy, PartialEq, Eq, Structural)]
pub struct KeyMods {
    pub control: bool,
    pub shift: bool,
    pub alt: bool,
}

/// How a new pane is split off.
#[derive(Debug, Clone, Copy, PartialEq, Eq, Structural)]
pub enum SplitDirection {
    /// Side by side
    Horizontal,
    /// Stacked
    Vertical,
}

/// Directions to move the focus in.
#[derive(Debug, Clone, Copy, PartialEq, Eq, Structural)]
pub enum NavigateDirection {
    Left,
    Right,
    Up,
    Down,
}

/// What a key press makes the application do.
#[derive(Debug, Clone)]
pub enum AppAction {
    /// Write these bytes to the focused terminal
    Send(Vec<u8>),
    /// Quit the application
    Quit,
    /// Open a new terminal, split off in the given direction or as a tab
    SpawnTerminal(Option<SplitDirection>),
    /// Close the focused terminal
    CloseFocused,
    /// Focus the next terminal
    FocusNext,
    /// Focus the previous terminal
    FocusPrev,
    /// Move the focus to a neighbouring pane
    Navigate(NavigateDirection),
    /// Grow (`true`) or shrink the focused split
    ResizeFocused(bool),
    /// Focus the terminal at this position
    FocusIndex(usize),
    /// Nothing happens
    Ignore,
}

/// The code of the ASCII lowercase form of a character.
pub open spec fn ascii_lower_code(c: char) -> u32 {
    if 'A' <= c && c <= 'Z' { ((c as u32) + 32) as u32 } else { c as u32 }
}

/// The bytes a key sends to the terminal, if it sends any.
pub open spec fn key_bytes(code: KeyInput, mods: KeyMods) -> Option<Seq<u8>> {
    match code {
        KeyInput::Char(c) => if mods.control {
            Some(seq![((ascii_lower_code(c) % 256 + 256 - 97 + 1) % 256) as u8])
        } else if mods.alt {
            Some(seq![0x1bu8, ((c as u32) % 256) as u8])
        } else {
            Some(vstd::utf8::encode_utf8(seq![c]))
        },
        KeyInput::Enter => Some(seq![13u8]),
        KeyInput::Backspace => Some(seq![0x7fu8]),
        KeyInput::Tab => Some(seq![9u8]),
        KeyInput::Esc => Some(seq![0x1bu8]),
        KeyInput::Up => Some(seq![0x1bu8, 0x5bu8, 0x41u8]),
        KeyInput::Down => Some(seq![0x1bu8, 0x5bu8, 0x42u8]),
        KeyInput::Right => Some(seq![0x1bu8, 0x5bu8, 0x43u8]),
        KeyInput::Left => Some(seq![0x1bu8, 0x5bu8, 0x44u8]),
        KeyInput::Home => Some(seq![0x1bu8, 0x5bu8, 0x48u8]),
        KeyInput::End => Some(seq![0x1bu8, 0x5bu8, 0x46u8]),
        KeyInput::PageUp => Some(seq![0x1bu8, 0x5bu8, 0x35u8, 0x7eu8]),
        KeyInput::PageDown => Some(seq![0x1bu8, 0x5bu8, 0x36u8, 0x7eu8]),
        KeyInput::Insert => Some(seq![0x1bu8, 0x5bu8, 0x32u8, 0x7eu8]),
        KeyInput::Delete => Some(seq![0x1bu8, 0x5bu8, 0x33u8, 0x7eu8]),
        KeyInput::F(n) => if n == 1 {
            Some(seq![0x1bu8, 0x4fu8, 0x50u8])
        } else if n == 2 {
            Some(seq![0x1bu8, 0x4fu8, 0x51u8])
        } else if n == 3 {
            Some(seq![0x1bu8, 0x4fu8, 0x52u8])
        } else if n == 4 {
            Some(seq![0x1bu8, 0x4fu8, 0x53u8])
        } else if 5 <= n && n <= 12 {
            let mid: Seq<u8> = if n == 5 { seq![0x31u8, 0x35u8] } else if n == 6 { seq![0x31u8, 0x37u8] } else if n == 7 {
                seq![0x31u8, 0x38u8]
            } else if n == 8 { seq![0x31u8, 0x39u8] } else if n == 9 { seq![0x32u8, 0x30u8] } else if n == 10 {
                seq![0x32u8, 0x31u8]
            } else if n == 11 { seq![0x32u8, 0x33u8] } else { seq![0x32u8, 0x34u8] };
            Some(seq![0x1bu8, 0x5bu8] + mid + seq![0x7eu8])
        } else {
            None
        },
        KeyInput::BackTab => None,
        KeyInput::Other => None,
    }
}

/// The bytes a key sends to the focused terminal
pub fn pty_bytes(code: KeyInput, mods: KeyMods) -> (r: Option<Vec<u8>>)
    ensures
        match (r, key_bytes(code, mods)) {
            (Some(b), Some(s)) => b@ == s,
            (None, None) => true,
            _ => false,
        },
{
    let v: Vec<u8> = match code {
        KeyInput::Char(c) => {
            if mods.control {
                let l: u32 = if 'A' <= c && c <= 'Z' { (c as u32) + 32 } else { c as u32 };
                let b: u32 = l % 256;
                vec![((b + 256 - 97 + 1) % 256) as u8]
            } else if mods.alt {
                vec![0x1b, ((c as u32) % 256) as u8]
            } else {
                char_bytes(c)
            }
        },
        KeyInput::Enter => vec![13],
        KeyInput::Backspace => vec![0x7f],
        KeyInput::Tab => vec![9],
        KeyInput::Esc => vec![0x1b],
        KeyInput::Up => vec![0x1b, 0x5b, 0x41],
        KeyInput::Down => vec![0x1b, 0x5b, 0x42],
        KeyInput::Right => vec![0x1b, 0x5b, 0x43],
        KeyInput::Left => vec![0x1b, 0x5b, 0x44],
        KeyInput::Home => vec![0x1b, 0x5b, 0x48],
        KeyInput::End => vec![0x1b, 0x5b, 0x46],
        KeyInput::PageUp => vec![0x1b, 0x5b, 0x35, 0x7e],
        KeyInput::PageDown => vec![0x1b, 0x5b, 0x36, 0x7e],
        KeyInput::Insert => vec![0x1b, 0x5b, 0x32, 0x7e],
        KeyInput::Delete => vec![0x1b, 0x5b, 0x33, 0x7e],
        KeyInput::F(n) => {
            if n == 1 {
                vec![0x1b, 0x4f, 0x50]
            } else if n == 2 {
                vec![0x1b, 0x4f, 0x51]
            } else if n == 3 {
                vec![0x1b, 0x4f, 0x52]
            } else if n == 4 {
                vec![0x1b, 0x4f, 0x53]
            } else if n == 5 {
                vec![0x1b, 0x5b, 0x31, 0x35, 0x7e]
            } else if n == 6 {
                vec![0x1b, 0x5b, 0x31, 0x37, 0x7e]
            } else if n == 7 {
                vec![0x1b, 0x5b, 0x31, 0x38, 0x7e]
            } else if n == 8 {
                vec![0x1b, 0x5b, 0x31, 0x39, 0x7e]
            } else if n == 9 {
                vec![0x1b, 0x5b, 0x32, 0x30, 0x7e]
            } else if n == 10 {
                vec![0x1b, 0x5b, 0x32, 0x31, 0x7e]
            } else if n == 11 {
                vec![0x1b, 0x5b, 0x32, 0x33, 0x7e]
            } else if n == 12 {
                vec![0x1b, 0x5b, 0x32, 0x34, 0x7e]
            } else {
                return None;
            }
        },
        KeyInput::BackTab => return None,
        KeyInput::Other => return None,
    };
    proof {
        match key_bytes(code, mods) {
            Some(s) => {
                assert(v@ =~= s);
            },
            None => {},
        }
    }
    Some(v)
}

/// The kinds of action, with the payload they carry.
#[derive(Debug, Clone, Copy, PartialEq, Eq, Structural)]
pub enum ActionKind {
    Send,
    Quit,
    Spawn(Option<SplitDirection>),
    Close,
    Next,
    Prev,
    Navigate(NavigateDirection),
    Resize(bool),
    Focus(usize),
    Ignore,
}

/// What a key press does, apart from the bytes it may send.
pub open spec fn key_kind(code: KeyInput, mods: KeyMods) -> ActionKind {
    let pass = if key_bytes(code, mods) is Some { ActionKind::Send } else { ActionKind::Ignore };
    if mods.control {
        match code {
            KeyInput::Char(c) => if c == 'c' || c == 'd' {
                ActionKind::Send
            } else if c == 'q' {
                ActionKind::Quit
            } else if c == 't' {
                ActionKind::Spawn(None)
            } else if c == '\\' {
                ActionKind::Spawn(Some(SplitDirection::Horizontal))
            } else if c == '-' {
                ActionKind::Spawn(Some(SplitDirection::Vertical))
            } else if c == 'w' {
                ActionKind::Close
            } else if c == 'h' {
                ActionKind::Navigate(NavigateDirection::Left)
            } else if c == 'j' {
                ActionKind::Navigate(NavigateDirection::Down)
            } else if c == 'k' {
                ActionKind::Navigate(NavigateDirection::Up)
            } else if c == 'l' {
                ActionKind::Navigate(NavigateDirection::Right)
            } else {
                pass
            },
            KeyInput::Tab => ActionKind::Next,
            KeyInput::Left | KeyInput::Up => ActionKind::Resize(false),
            KeyInput::Right | KeyInput::Down => ActionKind::Resize(true),
            _ => pass,
        }
    } else if mods.shift && code == KeyInput::BackTab {
        ActionKind::Prev
    } else if mods.alt {
        match code {
            KeyInput::Char(c) => if '1' <= c && c <= '9' { ActionKind::Focus((c as u32 - 49) as usize) } else { pass },
            _ => pass,
        }
    } else {
        pass
    }
}

/// The bytes a key press sends, when it sends any.
pub open spec fn sent_bytes(code: KeyInput, mods: KeyMods) -> Seq<u8> {
    if mods.control && code == KeyInput::Char('c') {
        seq![3u8]
    } else if mods.control && code == KeyInput::Char('d') {
        seq![4u8]
    } else {
        match key_bytes(code, mods) {
            Some(s) => s,
            None => seq![],
        }
    }
}

impl AppAction {
    /// The kind of the action.
    pub open spec fn kind(self) -> ActionKind {
        match self {
            AppAction::Send(_) => ActionKind::Send,
            AppAction::Quit => ActionKind::Quit,
            AppAction::SpawnTerminal(d) => ActionKind::Spawn(d),
            AppAction::CloseFocused => ActionKind::Close,
            AppAction::FocusNext => ActionKind::Next,
            AppAction::FocusPrev => ActionKind::Prev,
            AppAction::Navigate(d) => ActionKind::Navigate(d),
            AppAction::ResizeFocused(g) => ActionKind::Resize(g),
            AppAction::FocusIndex(i) => ActionKind::Focus(i),
            AppAction::Ignore => ActionKind::Ignore,
        }
    }
}

/// What a key press in the terminal window makes the application do
pub fn decide_key(code: KeyInput, mods: KeyMods) -> (r: AppAction)
    ensures
        r.kind() == key_kind(code, mods),
        r matches AppAction::Send(b) ==> b@ == sent_bytes(code, mods),
{
    if mods.control {
        match code {
            KeyInput::Char(c) => {
                if c == 'c' {
                    return AppAction::Send(vec![3]);
                } else if c == 'd' {
                    return AppAction::Send(vec![4]);
                } else if c == 'q' {
                    return AppAction::Quit;
                } else if c == 't' {
                    return AppAction::SpawnTerminal(None);
                } else if c == '\\' {
                    return AppAction::SpawnTerminal(Some(SplitDirection::Horizontal));
                } else if c == '-' {
                    return AppAction::SpawnTerminal(Some(SplitDirection::Vertical));
                } else if c == 'w' {
                    return AppAction::CloseFocused;
                } else if c == 'h' {
                    return AppAction::Navigate(NavigateDirection::Left);
                } else if c == 'j' {
                    return AppAction::Navigate(NavigateDirection::Down);
                } else if c == 'k' {
                    return AppAction::Navigate(NavigateDirection::Up);
                } else if c == 'l' {
                    return AppAction::Navigate(NavigateDirection::Right);
                }
            },
            KeyInput::Tab => return AppAction::FocusNext,
            KeyInput::Left | KeyInput::Up => return AppAction::ResizeFocused(false),
            KeyInput::Right | KeyInput::Down => return AppAction::ResizeFocused(true),
            _ => {},
        }
    } else if mods.shift && code == KeyInput::BackTab {
        return AppAction::FocusPrev;
    } else if mods.alt {
        match code {
            KeyInput::Char(c) => {
                if '1' <= c && c <= '9' {
                    return AppAction::FocusIndex((c as u32 - 49) as usize);
                }
            },
            _ => {},
        }
    }
    match pty_bytes(code, mods) {
        Some(b) => AppAction::Send(b),
        None => AppAction::Ignore,
    }
}

/// The rows a terminal pane gets in a window of `rows` rows: the tab bar, the
/// status bar and a border take three
pub fn pane_rows(rows: u16) -> (r: u16)
    ensures
        r == if rows >= 3 { (rows - 3) as u16 } else { 0u16 },
{
    rows.saturating_sub(3)
}

} // verus!
