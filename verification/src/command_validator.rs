//! Command validation
//!
//! Risk analysis for commands: each command is checked against patterns of
//! critical, high and medium risk, in that order, then against a whitelist of
//! safe read-only commands; a command that matches nothing is of medium risk.

use vstd::prelude::*;
use crate::pattern::{regex_match, regex_compiles, regex_finds, pattern_hits};
use crate::text::{owned, push_str, trim, trim_str};

verus! {

/// Risk level for a command
#[derive(Debug, Clone, Copy, PartialEq, Eq, Structural, PartialOrd, Ord)]
pub enum RiskLevel {
    /// Safe commands that can be auto-approved (ls, git status, etc.)
    Low,
    /// Commands that may modify state but are generally safe (git commit, npm install)
    Medium,
    /// Commands that require user confirmation (rm -rf, sudo, etc.)
    High,
    /// Destructive commands that should never be auto-approved (rm -rf /, mkfs, etc.)
    Critical,
}

/// Whether a risk level allows auto-approval.
pub open spec fn approvable(r: RiskLevel) -> bool {
    r == RiskLevel::Low || r == RiskLevel::Medium
}

impl RiskLevel {
    /// Returns a human-readable description of the risk level
    pub fn description(&self) -> (s: &'static str)
        ensures
            s@ == match *self {
                RiskLevel::Low => "Safe operation with no side effects"@,
                RiskLevel::Medium => "Modifies state but generally safe"@,
                RiskLevel::High => "Potentially dangerous operation requiring user confirmation"@,
                RiskLevel::Critical => "Destructive operation that should never be auto-approved"@,
            },
    {
        match self {
            RiskLevel::Low => "Safe operation with no side effects",
            RiskLevel::Medium => "Modifies state but generally safe",
            RiskLevel::High => "Potentially dangerous operation requiring user confirmation",
            RiskLevel::Critical => "Destructive operation that should never be auto-approved",
        }
    }

    /// Returns whether this risk level allows auto-approval
    pub fn is_auto_approvable(&self) -> (b: bool)
        ensures
            b == approvable(*self),
    {
        match self {
            RiskLevel::Low | RiskLevel::Medium => true,
            _ => false,
        }
    }

    /// Returns the symbol for this risk level
    pub fn symbol(&self) -> (s: &'static str)
        ensures
            s@ == match *self {
                RiskLevel::Low => "\u{2713}"@,
                RiskLevel::Medium => "\u{26a0}"@,
                RiskLevel::High => "\u{26a0}\u{26a0}"@,
                RiskLevel::Critical => "\u{1f6d1}"@,
            },
    {
        match self {
            RiskLevel::Low => "\u{2713}",
            RiskLevel::Medium => "\u{26a0}",
            RiskLevel::High => "\u{26a0}\u{26a0}",
            RiskLevel::Critical => "\u{1f6d1}",
        }
    }
}

/// Result of command validation
#[derive(Debug, Clone)]
pub struct ValidationResult {
    /// The determined risk level
    pub risk_level: RiskLevel,
    /// The pattern that matched (if any)
    pub matched_pattern: Option<String>,
    /// Human-readable reason for the risk level
    pub reason: String,
    /// Whether the command is auto-approved
    pub auto_approved: bool,
}

/// The text of an optional string.
pub open spec fn opt_text(o: Option<String>) -> Option<Seq<char>> {
    match o {
        Some(s) => Some(s@),
        None => None,
    }
}

impl ValidationResult {
    /// Creates a new validation result; it is auto-approved exactly when the
    /// risk level allows it.
    pub fn new(risk_level: RiskLevel, matched_pattern: Option<String>, reason: String) -> (r: Self)
        ensures
            r.risk_level == risk_level,
            opt_text(r.matched_pattern) == opt_text(matched_pattern),
            r.reason@ == reason@,
            r.auto_approved == approvable(risk_level),
    {
        let auto_approved = risk_level.is_auto_approvable();
        ValidationResult { risk_level, matched_pattern, reason, auto_approved }
    }
}

/// Pattern set for a specific risk level: each pattern with its description
pub struct PatternSet {
    patterns: Vec<(&'static str, &'static str)>,
}

impl PatternSet {
    /// The patterns with their descriptions.
    pub closed spec fn view(&self) -> Seq<(Seq<char>, Seq<char>)> {
        self.patterns@.map_values(|p: (&'static str, &'static str)| (p.0@, p.1@))
    }

    /// The first pattern that compiles and matches the command, with its
    /// description.
    pub fn check(&self, command: &str) -> (r: Option<(String, &'static str)>)
        ensures
            r is Some <==> exists|i: int| 0 <= i < self.view().len() && pattern_hits(#[trigger] self.view()[i].0, command@),
            match r {
                Some((p, d)) => exists|i: int| first_hit(self.view(), command@, i) && p@ == self.view()[i].0 && d@ == self.view()[i].1,
                None => true,
            },
    {
        let mut i: usize = 0;
        while i < self.patterns.len()
            invariant
                i <= self.patterns@.len(),
                forall|k: int| 0 <= k < i ==> !pattern_hits(#[trigger] self.view()[k].0, command@),
            decreases self.patterns.len() - i,
        {
            let (p, d) = self.patterns[i];
            assert(self.view()[i as int] == (p@, d@));
            match regex_match(p, command) {
                Some(true) => {
                    assert(first_hit(self.view(), command@, i as int));
                    return Some((owned(p), d));
                },
                _ => {},
            }
            i = i + 1;
        }
        None
    }
}

/// Whether pattern `i` is the first of the set that compiles and matches.
pub open spec fn first_hit(set: Seq<(Seq<char>, Seq<char>)>, command: Seq<char>, i: int) -> bool {
    0 <= i < set.len() && pattern_hits(set[i].0, command) && forall|k: int| 0 <= k < i ==> !pattern_hits(#[trigger] set[k].0, command)
}

/// Whether some pattern of the set compiles and matches.
pub open spec fn any_hit(set: Seq<(Seq<char>, Seq<char>)>, command: Seq<char>) -> bool {
    exists|i: int| 0 <= i < set.len() && pattern_hits(#[trigger] set[i].0, command)
}

/// The patterns of one risk class, with what each means.
pub open spec fn critical_table() -> Seq<(Seq<char>, Seq<char>)> {
    seq![
        ("rm\\s+(-\\w*r\\w*f\\w*|-\\w*f\\w*r\\w*)?\\s+/\\s*$"@, "Removes entire root filesystem"@),
        ("rm\\s+(-\\w*r\\w*f\\w*|-\\w*f\\w*r\\w*)?\\s+~\\s*$"@, "Removes entire home directory"@),
        ("rm\\s+(-\\w*r\\w*f\\w*|-\\w*f\\w*r\\w*)?\\s+\\*\\s*$"@, "Recursively removes all files in current directory"@),
        ("(>|>>)\\s*/etc/"@, "Modifies system configuration files"@),
        ("(>|>>)\\s*/boot/"@, "Modifies boot files"@),
        ("(>|>>)\\s*/sys/"@, "Modifies system files"@),
        ("chmod\\s+777\\s+/"@, "Sets world-writable permissions on system paths"@),
        ("chmod\\s+-R\\s+777"@, "Recursively sets world-writable permissions"@),
        ("\\bmkfs\\b"@, "Formats filesystem"@),
        ("\\bdd\\s+if="@, "Direct disk write operation"@),
        ("\\bfdisk\\b"@, "Disk partitioning"@),
        ("\\bparted\\b"@, "Disk partitioning"@),
        ("\\bshutdown\\b"@, "System shutdown"@),
        ("\\breboot\\b"@, "System reboot"@),
        ("\\bhalt\\b"@, "System halt"@),
        ("\\bpoweroff\\b"@, "System power off"@),
        ("\\brmmod\\b"@, "Removes kernel module"@),
        ("\\bmodprobe\\s+-r\\b"@, "Removes kernel module"@),
    ]
}

/// The patterns of one risk class, with what each means.
pub open spec fn high_table() -> Seq<(Seq<char>, Seq<char>)> {
    seq![
        ("rm\\s+(-\\w*r\\w*f\\w*|-\\w*f\\w*r\\w*)\\s+"@, "Recursive file removal"@),
        ("rm\\s+-r\\b"@, "Recursive removal"@),
        ("\\bsudo\\s+"@, "Runs command with superuser privileges"@),
        ("\\bsu\\s+"@, "Switches user context"@),
        ("(curl|wget)\\s+.*\\|\\s*(bash|sh|zsh|fish)"@, "Downloads and executes script"@),
        ("\\|\\s*sh\\s*$"@, "Pipes output to shell"@),
        ("chmod\\s+\\+x.*&&.*\\./"@, "Makes file executable and runs it"@),
        ("chmod\\s+[0-9]*[1357]\\s+.*&&"@, "Adds execute permission and chains command"@),
        ("\\bapt\\s+remove\\b"@, "Removes system packages"@),
        ("\\bapt\\s+purge\\b"@, "Removes and purges packages"@),
        ("\\byum\\s+remove\\b"@, "Removes system packages"@),
        ("\\bdnf\\s+remove\\b"@, "Removes system packages"@),
        ("\\bbrew\\s+uninstall\\b"@, "Uninstalls packages"@),
        ("\\bkill\\s+-9\\s+1\\b"@, "Kills init process"@),
        ("\\bkillall\\s+-9\\b"@, "Force kills all processes by name"@),
        ("crontab\\s+-r"@, "Removes all cron jobs"@),
        ("\\bufw\\s+"@, "Modifies firewall"@),
        ("\\biptables\\s+"@, "Modifies firewall rules"@),
    ]
}

/// The patterns of one risk class, with what each means.
pub open spec fn medium_table() -> Seq<(Seq<char>, Seq<char>)> {
    seq![
        ("git\\s+push\\s+(-\\w*f\\w*|--force)"@, "Force pushes to remote"@),
        ("git\\s+reset\\s+--hard"@, "Hard resets git repository"@),
        ("git\\s+clean\\s+-\\w*[fd]"@, "Removes untracked files/directories"@),
        ("\\bnpm\\s+publish\\b"@, "Publishes package to npm"@),
        ("\\bcargo\\s+publish\\b"@, "Publishes package to crates.io"@),
        ("\\bpip\\s+upload\\b"@, "Uploads package to PyPI"@),
        ("\\bdocker\\s+rm\\b"@, "Removes Docker containers"@),
        ("\\bdocker\\s+rmi\\b"@, "Removes Docker images"@),
        ("\\bdocker\\s+system\\s+prune\\b"@, "Cleans up Docker system"@),
        ("\\bdocker-compose\\s+down\\b"@, "Stops and removes containers"@),
        ("\\bdropdb\\b"@, "Drops database"@),
        ("DROP\\s+DATABASE\\b"@, "Drops database"@),
        ("TRUNCATE\\s+TABLE\\b"@, "Truncates table"@),
        ("\\bmv\\s+.*\\s+/dev/null"@, "Moves files to void"@),
        (">\\s*/dev/sd[a-z]"@, "Writes to disk device"@),
    ]
}

/// The patterns of one risk class, with what each means.
pub open spec fn whitelist_table() -> Seq<(Seq<char>, Seq<char>)> {
    seq![
        ("^\\s*ls\\b"@, "Lists directory contents"@),
        ("^\\s*pwd\\b"@, "Prints working directory"@),
        ("^\\s*cd\\b"@, "Changes directory"@),
        ("^\\s*echo\\b"@, "Prints text"@),
        ("^\\s*cat\\b"@, "Displays file contents"@),
        ("^\\s*head\\b"@, "Shows file head"@),
        ("^\\s*tail\\b"@, "Shows file tail"@),
        ("^\\s*less\\b"@, "Pages through file"@),
        ("^\\s*more\\b"@, "Pages through file"@),
        ("^\\s*find\\b"@, "Finds files"@),
        ("^\\s*grep\\b"@, "Searches text"@),
        ("^\\s*which\\b"@, "Locates command"@),
        ("^\\s*whereis\\b"@, "Locates command"@),
        ("^\\s*man\\b"@, "Shows manual page"@),
        ("^\\s*help\\b"@, "Shows help"@),
        ("^\\s*git\\s+status\\b"@, "Shows git status"@),
        ("^\\s*git\\s+log\\b"@, "Shows git log"@),
        ("^\\s*git\\s+diff\\b"@, "Shows git diff"@),
        ("^\\s*git\\s+show\\b"@, "Shows git object"@),
        ("^\\s*git\\s+branch\\b"@, "Lists branches"@),
        ("^\\s*git\\s+remote\\b"@, "Lists remotes"@),
        ("^\\s*git\\s+blame\\b"@, "Shows line authors"@),
        ("^\\s*npm\\s+list\\b"@, "Lists npm packages"@),
        ("^\\s*npm\\s+info\\b"@, "Shows package info"@),
        ("^\\s*npm\\s+view\\b"@, "Shows package info"@),
        ("^\\s*cargo\\s+search\\b"@, "Searches crates"@),
        ("^\\s*pip\\s+list\\b"@, "Lists pip packages"@),
        ("^\\s*pip\\s+show\\b"@, "Shows package info"@),
        ("^\\s*cargo\\s+check\\b"@, "Checks code"@),
        ("^\\s*cargo\\s+test\\b"@, "Runs tests"@),
        ("^\\s*cargo\\s+build\\b"@, "Builds project"@),
        ("^\\s*cargo\\s+doc\\b"@, "Generates documentation"@),
        ("^\\s*cargo\\s+clippy\\b"@, "Runs linter"@),
        ("^\\s*cargo\\s+fmt\\b"@, "Formats code"@),
        ("^\\s*uname\\b"@, "Shows system info"@),
        ("^\\s*whoami\\b"@, "Shows current user"@),
        ("^\\s*hostname\\b"@, "Shows hostname"@),
        ("^\\s*date\\b"@, "Shows date/time"@),
        ("^\\s*uptime\\b"@, "Shows uptime"@),
        ("^\\s*ps\\b"@, "Lists processes"@),
        ("^\\s*top\\b"@, "Shows process monitor"@),
        ("^\\s*htop\\b"@, "Shows process monitor"@),
        ("^\\s*env\\b"@, "Shows environment"@),
        ("^\\s*export\\s+\\w+="@, "Sets environment variable"@),
        ("^\\s*alias\\b"@, "Lists or creates aliases"@),
    ]
}

/// The risk class a trimmed command falls in: the first class, in the order
/// critical, high, medium, whitelist, with a pattern that matches it;
/// medium when none does.
pub open spec fn risk_of(command: Seq<char>) -> RiskLevel {
    if any_hit(critical_table(), command) {
        RiskLevel::Critical
    } else if any_hit(high_table(), command) {
        RiskLevel::High
    } else if any_hit(medium_table(), command) {
        RiskLevel::Medium
    } else if any_hit(whitelist_table(), command) {
        RiskLevel::Low
    } else {
        RiskLevel::Medium
    }
}

/// The patterns of the class that decided a command's risk, if any.
pub open spec fn deciding_table(command: Seq<char>) -> Seq<(Seq<char>, Seq<char>)> {
    if any_hit(critical_table(), command) {
        critical_table()
    } else if any_hit(high_table(), command) {
        high_table()
    } else if any_hit(medium_table(), command) {
        medium_table()
    } else {
        whitelist_table()
    }
}

/// What the reason says after the pattern's description, per risk class.
pub open spec fn advice(level: RiskLevel) -> Seq<char> {
    match level {
        RiskLevel::Critical => "NEVER auto-approve this operation"@,
        RiskLevel::High => "User confirmation required"@,
        RiskLevel::Medium => "Proceed with caution"@,
        RiskLevel::Low => "Safe read-only operation"@,
    }
}

proof fn lemma_reported(table: Seq<(Seq<char>, Seq<char>)>, c: Seq<char>, p: Seq<char>, d: Seq<char>, reason: Seq<char>, level: RiskLevel)
    requires
        exists|i: int| first_hit(table, c, i) && p == table[i].0 && d == table[i].1,
        reason == d + " - "@ + advice(level),
    ensures
        exists|i: int| #[trigger] first_hit(table, c, i) && Some(p) == Some(table[i].0)
            && reason == table[i].1 + " - "@ + advice(level),
{
    let i = choose|i: int| first_hit(table, c, i) && p == table[i].0 && d == table[i].1;
    assert(first_hit(table, c, i));
}

/// Command validator that analyzes command safety
pub struct CommandValidator {
    critical_patterns: PatternSet,
    high_patterns: PatternSet,
    medium_patterns: PatternSet,
    whitelist: PatternSet,
}

impl CommandValidator {
    /// Whether the validator holds the four standard pattern tables.
    pub closed spec fn standard(&self) -> bool {
        &&& self.critical_patterns.view() == critical_table()
        &&& self.high_patterns.view() == high_table()
        &&& self.medium_patterns.view() == medium_table()
        &&& self.whitelist.view() == whitelist_table()
    }

    /// The set of `critical_table()`.
    fn critical_patterns_set() -> (s: PatternSet)
        ensures
            s.view() == critical_table(),
    {
        let mut v: Vec<(&'static str, &'static str)> = Vec::new();
        v.push(("rm\\s+(-\\w*r\\w*f\\w*|-\\w*f\\w*r\\w*)?\\s+/\\s*$", "Removes entire root filesystem"));
        v.push(("rm\\s+(-\\w*r\\w*f\\w*|-\\w*f\\w*r\\w*)?\\s+~\\s*$", "Removes entire home directory"));
        v.push(("rm\\s+(-\\w*r\\w*f\\w*|-\\w*f\\w*r\\w*)?\\s+\\*\\s*$", "Recursively removes all files in current directory"));
        v.push(("(>|>>)\\s*/etc/", "Modifies system configuration files"));
        v.push(("(>|>>)\\s*/boot/", "Modifies boot files"));
        v.push(("(>|>>)\\s*/sys/", "Modifies system files"));
        v.push(("chmod\\s+777\\s+/", "Sets world-writable permissions on system paths"));
        v.push(("chmod\\s+-R\\s+777", "Recursively sets world-writable permissions"));
        v.push(("\\bmkfs\\b", "Formats filesystem"));
        v.push(("\\bdd\\s+if=", "Direct disk write operation"));
        v.push(("\\bfdisk\\b", "Disk partitioning"));
        v.push(("\\bparted\\b", "Disk partitioning"));
        v.push(("\\bshutdown\\b", "System shutdown"));
        v.push(("\\breboot\\b", "System reboot"));
        v.push(("\\bhalt\\b", "System halt"));
        v.push(("\\bpoweroff\\b", "System power off"));
        v.push(("\\brmmod\\b", "Removes kernel module"));
        v.push(("\\bmodprobe\\s+-r\\b", "Removes kernel module"));
        let s = PatternSet { patterns: v };
        assert(s.view() =~= critical_table());
        s
    }

    /// The set of `high_table()`.
    fn high_patterns_set() -> (s: PatternSet)
        ensures
            s.view() == high_table(),
    {
        let mut v: Vec<(&'static str, &'static str)> = Vec::new();
        v.push(("rm\\s+(-\\w*r\\w*f\\w*|-\\w*f\\w*r\\w*)\\s+", "Recursive file removal"));
        v.push(("rm\\s+-r\\b", "Recursive removal"));
        v.push(("\\bsudo\\s+", "Runs command with superuser privileges"));
        v.push(("\\bsu\\s+", "Switches user context"));
        v.push(("(curl|wget)\\s+.*\\|\\s*(bash|sh|zsh|fish)", "Downloads and executes script"));
        v.push(("\\|\\s*sh\\s*$", "Pipes output to shell"));
        v.push(("chmod\\s+\\+x.*&&.*\\./", "Makes file executable and runs it"));
        v.push(("chmod\\s+[0-9]*[1357]\\s+.*&&", "Adds execute permission and chains command"));
        v.push(("\\bapt\\s+remove\\b", "Removes system packages"));
        v.push(("\\bapt\\s+purge\\b", "Removes and purges packages"));
        v.push(("\\byum\\s+remove\\b", "Removes system packages"));
        v.push(("\\bdnf\\s+remove\\b", "Removes system packages"));
        v.push(("\\bbrew\\s+uninstall\\b", "Uninstalls packages"));
        v.push(("\\bkill\\s+-9\\s+1\\b", "Kills init process"));
        v.push(("\\bkillall\\s+-9\\b", "Force kills all processes by name"));
        v.push(("crontab\\s+-r", "Removes all cron jobs"));
        v.push(("\\bufw\\s+", "Modifies firewall"));
        v.push(("\\biptables\\s+", "Modifies firewall rules"));
        let s = PatternSet { patterns: v };
        assert(s.view() =~= high_table());
        s
    }

    /// The set of `medium_table()`.
    fn medium_patterns_set() -> (s: PatternSet)
        ensures
            s.view() == medium_table(),
    {
        let mut v: Vec<(&'static str, &'static str)> = Vec::new();
        v.push(("git\\s+push\\s+(-\\w*f\\w*|--force)", "Force pushes to remote"));
        v.push(("git\\s+reset\\s+--hard", "Hard resets git repository"));
        v.push(("git\\s+clean\\s+-\\w*[fd]", "Removes untracked files/directories"));
        v.push(("\\bnpm\\s+publish\\b", "Publishes package to npm"));
        v.push(("\\bcargo\\s+publish\\b", "Publishes package to crates.io"));
        v.push(("\\bpip\\s+upload\\b", "Uploads package to PyPI"));
        v.push(("\\bdocker\\s+rm\\b", "Removes Docker containers"));
        v.push(("\\bdocker\\s+rmi\\b", "Removes Docker images"));
        v.push(("\\bdocker\\s+system\\s+prune\\b", "Cleans up Docker system"));
        v.push(("\\bdocker-compose\\s+down\\b", "Stops and removes containers"));
        v.push(("\\bdropdb\\b", "Drops database"));
        v.push(("DROP\\s+DATABASE\\b", "Drops database"));
        v.push(("TRUNCATE\\s+TABLE\\b", "Truncates table"));
        v.push(("\\bmv\\s+.*\\s+/dev/null", "Moves files to void"));
        v.push((">\\s*/dev/sd[a-z]", "Writes to disk device"));
        let s = PatternSet { patterns: v };
        assert(s.view() =~= medium_table());
        s
    }

    /// The set of `whitelist_table()`.
    fn whitelist_set() -> (s: PatternSet)
        ensures
            s.view() == whitelist_table(),
    {
        let mut v: Vec<(&'static str, &'static str)> = Vec::new();
        v.push(("^\\s*ls\\b", "Lists directory contents"));
        v.push(("^\\s*pwd\\b", "Prints working directory"));
        v.push(("^\\s*cd\\b", "Changes directory"));
        v.push(("^\\s*echo\\b", "Prints text"));
        v.push(("^\\s*cat\\b", "Displays file contents"));
        v.push(("^\\s*head\\b", "Shows file head"));
        v.push(("^\\s*tail\\b", "Shows file tail"));
        v.push(("^\\s*less\\b", "Pages through file"));
        v.push(("^\\s*more\\b", "Pages through file"));
        v.push(("^\\s*find\\b", "Finds files"));
        v.push(("^\\s*grep\\b", "Searches text"));
        v.push(("^\\s*which\\b", "Locates command"));
        v.push(("^\\s*whereis\\b", "Locates command"));
        v.push(("^\\s*man\\b", "Shows manual page"));
        v.push(("^\\s*help\\b", "Shows help"));
        v.push(("^\\s*git\\s+status\\b", "Shows git status"));
        v.push(("^\\s*git\\s+log\\b", "Shows git log"));
        v.push(("^\\s*git\\s+diff\\b", "Shows git diff"));
        v.push(("^\\s*git\\s+show\\b", "Shows git object"));
        v.push(("^\\s*git\\s+branch\\b", "Lists branches"));
        v.push(("^\\s*git\\s+remote\\b", "Lists remotes"));
        v.push(("^\\s*git\\s+blame\\b", "Shows line authors"));
        v.push(("^\\s*npm\\s+list\\b", "Lists npm packages"));
        v.push(("^\\s*npm\\s+info\\b", "Shows package info"));
        v.push(("^\\s*npm\\s+view\\b", "Shows package info"));
        v.push(("^\\s*cargo\\s+search\\b", "Searches crates"));
        v.push(("^\\s*pip\\s+list\\b", "Lists pip packages"));
        v.push(("^\\s*pip\\s+show\\b", "Shows package info"));
        v.push(("^\\s*cargo\\s+check\\b", "Checks code"));
        v.push(("^\\s*cargo\\s+test\\b", "Runs tests"));
        v.push(("^\\s*cargo\\s+build\\b", "Builds project"));
        v.push(("^\\s*cargo\\s+doc\\b", "Generates documentation"));
        v.push(("^\\s*cargo\\s+clippy\\b", "Runs linter"));
        v.push(("^\\s*cargo\\s+fmt\\b", "Formats code"));
        v.push(("^\\s*uname\\b", "Shows system info"));
        v.push(("^\\s*whoami\\b", "Shows current user"));
        v.push(("^\\s*hostname\\b", "Shows hostname"));
        v.push(("^\\s*date\\b", "Shows date/time"));
        v.push(("^\\s*uptime\\b", "Shows uptime"));
        v.push(("^\\s*ps\\b", "Lists processes"));
        v.push(("^\\s*top\\b", "Shows process monitor"));
        v.push(("^\\s*htop\\b", "Shows process monitor"));
        v.push(("^\\s*env\\b", "Shows environment"));
        v.push(("^\\s*export\\s+\\w+=", "Sets environment variable"));
        v.push(("^\\s*alias\\b", "Lists or creates aliases"));
        let s = PatternSet { patterns: v };
        assert(s.view() =~= whitelist_table());
        s
    }

    /// Creates a new command validator with default patterns
    pub fn new() -> (v: Self)
        ensures
            v.standard(),
    {
        CommandValidator {
            critical_patterns: Self::critical_patterns_set(),
            high_patterns: Self::high_patterns_set(),
            medium_patterns: Self::medium_patterns_set(),
            whitelist: Self::whitelist_set(),
        }
    }

    /// Validates a command and returns the risk assessment
    ///
    /// The command is trimmed; the first class (critical, high, medium,
    /// whitelist) with a matching pattern decides, and its first matching
    /// pattern is reported with its description; an unmatched command is of
    /// medium risk.
    pub fn validate(&self, command: &str) -> (r: ValidationResult)
        requires
            self.standard(),
        ensures
            ({
                let c = trim(command@);
                &&& r.risk_level == risk_of(c)
                &&& r.auto_approved == approvable(risk_of(c))
                &&& if any_hit(critical_table(), c) || any_hit(high_table(), c) || any_hit(medium_table(), c)
                    || any_hit(whitelist_table(), c) {
                    exists|i: int| #[trigger] first_hit(deciding_table(c), c, i)
                        && opt_text(r.matched_pattern) == Some(deciding_table(c)[i].0)
                        && r.reason@ == deciding_table(c)[i].1 + " - "@ + advice(risk_of(c))
                } else {
                    &&& r.matched_pattern is None
                    &&& r.reason@ == "Unknown command pattern - proceed with caution"@
                }
            }),
    {
        let t = trim_str(command);
        let cmd = t.as_str();
        let ghost c = trim(command@);
        if let Some((pattern, desc)) = self.critical_patterns.check(cmd) {
            let reason = Self::reason(desc, "NEVER auto-approve this operation");
            proof {
                assert(cmd@ == c);
                assert(any_hit(critical_table(), c));
                assert(risk_of(c) == RiskLevel::Critical);
                assert(deciding_table(c) == critical_table());
                lemma_reported(critical_table(), c, pattern@, desc@, reason@, RiskLevel::Critical);
            }
            return ValidationResult::new(RiskLevel::Critical, Some(pattern), reason);
        }
        if let Some((pattern, desc)) = self.high_patterns.check(cmd) {
            let reason = Self::reason(desc, "User confirmation required");
            proof {
                assert(cmd@ == c);
                assert(!any_hit(critical_table(), c));
                assert(any_hit(high_table(), c));
                assert(risk_of(c) == RiskLevel::High);
                assert(deciding_table(c) == high_table());
                lemma_reported(high_table(), c, pattern@, desc@, reason@, RiskLevel::High);
            }
            return ValidationResult::new(RiskLevel::High, Some(pattern), reason);
        }
        if let Some((pattern, desc)) = self.medium_patterns.check(cmd) {
            let reason = Self::reason(desc, "Proceed with caution");
            proof {
                assert(cmd@ == c);
                assert(!any_hit(critical_table(), c));
                assert(!any_hit(high_table(), c));
                assert(any_hit(medium_table(), c));
                assert(risk_of(c) == RiskLevel::Medium);
                assert(deciding_table(c) == medium_table());
                lemma_reported(medium_table(), c, pattern@, desc@, reason@, RiskLevel::Medium);
            }
            return ValidationResult::new(RiskLevel::Medium, Some(pattern), reason);
        }
        if let Some((pattern, desc)) = self.whitelist.check(cmd) {
            let reason = Self::reason(desc, "Safe read-only operation");
            proof {
                assert(cmd@ == c);
                assert(!any_hit(critical_table(), c));
                assert(!any_hit(high_table(), c));
                assert(!any_hit(medium_table(), c));
                assert(any_hit(whitelist_table(), c));
                assert(risk_of(c) == RiskLevel::Low);
                assert(deciding_table(c) == whitelist_table());
                lemma_reported(whitelist_table(), c, pattern@, desc@, reason@, RiskLevel::Low);
            }
            return ValidationResult::new(RiskLevel::Low, Some(pattern), reason);
        }
        assert(cmd@ == c);
        assert(!any_hit(critical_table(), c));
        assert(!any_hit(high_table(), c));
        assert(!any_hit(medium_table(), c));
        assert(!any_hit(whitelist_table(), c));
        ValidationResult::new(RiskLevel::Medium, None, owned("Unknown command pattern - proceed with caution"))
    }

    /// `desc - advice`.
    fn reason(desc: &str, advice: &str) -> (r: String)
        ensures
            r@ == desc@ + " - "@ + advice@,
    {
        let mut r = owned(desc);
        push_str(&mut r, " - ");
        push_str(&mut r, advice);
        r
    }

    /// Checks if a validation result allows auto-approval
    pub fn is_auto_approved(&self, result: &ValidationResult) -> (b: bool)
        ensures
            b == result.auto_approved,
    {
        result.auto_approved
    }
}

impl Default for CommandValidator {
    fn default() -> (v: Self)
        ensures
            v.standard(),
    {
        Self::new()
    }
}

} // verus!
