//! Context memory: labelled blocks with token budgets, the token estimate
//! they are measured by, and the compactor that picks the key lines out of
//! long command output.

use vstd::prelude::*;
use crate::clock::unix_now;
use crate::fmt::{decimal, u128_to_string, as_float, float_value, byte_len, byte_boundary, chars_in_bytes, byte_suffix, utf8_len_wide,
    usize_to_string, char_utf8_width, lemma_byte_len_push, lemma_byte_len_prefix_mono};
use crate::strings::{words, split_words, word_len, lemma_word_len_bound};
use crate::text::{chars_of, contains, contains_sub, lines_of, lines_of_str, lowercase, owned, occurs_at, find_sub, slice_chars,
    push_char,
    push_str, push_chars, to_lowercase, trim, trim_str};

verus! {

/// Memory block label - identifies the purpose of the block
#[derive(Debug, Clone, Copy, PartialEq, Eq, Structural)]
pub enum MemoryBlockLabel {
    /// Current working directory and environment info
    WorkingContext,
    /// Active task list (scratchpad)
    TaskProgress,
    /// Recent terminal output (sliding window)
    RecentOutput,
    /// Context from previous sessions
    SessionHistory,
    /// MCP server state and available tools
    McpContext,
}

impl MemoryBlockLabel {
    /// The label as it is written in rendered memory
    pub fn as_text(&self) -> (r: &'static str)
        ensures
            r@ == match *self {
                MemoryBlockLabel::WorkingContext => "working_context"@,
                MemoryBlockLabel::TaskProgress => "task_progress"@,
                MemoryBlockLabel::RecentOutput => "recent_output"@,
                MemoryBlockLabel::SessionHistory => "session_history"@,
                MemoryBlockLabel::McpContext => "mcp_context"@,
            },
    {
        match self {
            MemoryBlockLabel::WorkingContext => "working_context",
            MemoryBlockLabel::TaskProgress => "task_progress",
            MemoryBlockLabel::RecentOutput => "recent_output",
            MemoryBlockLabel::SessionHistory => "session_history",
            MemoryBlockLabel::McpContext => "mcp_context",
        }
    }
}

/// The token estimate of a text with `chars` characters and `words` words:
/// the mean of a quarter of the characters and 1.3 tokens per word, each
/// rounded down.
pub open spec fn token_estimate(chars: nat, words: nat) -> nat {
    (chars / 4 + (words * 13) / 10) / 2
}

/// A text has no more whitespace-separated words than characters.
pub proof fn lemma_words_len_bound(s: Seq<char>)
    ensures
        words(s).len() <= s.len(),
    decreases s.len(),
{
    if s.len() > 0 {
        if crate::text::is_ws(s[0]) {
            lemma_words_len_bound(s.drop_first());
        } else {
            lemma_word_len_bound(s);
            let n = word_len(s);
            assert(word_len(s) > 0) by {
                assert(!crate::text::is_ws(s[0]));
            }
            lemma_words_len_bound(s.subrange(n as int, s.len() as int));
        }
    }
}

/// Estimate token count from string
/// Uses a simple heuristic: ~4 characters per token for English text
pub fn estimate_tokens(text: &str) -> (r: usize)
    ensures
        r == token_estimate(text@.len(), words(text@).len()),
{
    let v = chars_of(text);
    let ws = split_words(&v);
    proof {
        lemma_words_len_bound(v@);
    }
    let char_count = v.len();
    let word_count = ws.len();
    let char_estimate = char_count / 4;
    let word_estimate = (word_count as u128 * 13) / 10;
    let total = (char_estimate as u128 + word_estimate) / 2;
    assert(total <= char_count) by (nonlinear_arith)
        requires
            total == (char_count / 4 + (word_count * 13) / 10) / 2,
            word_count <= char_count,
    ;
    total as usize
}

/// Default token limits for each block type
pub fn default_token_limit(label: MemoryBlockLabel) -> (r: usize)
    ensures
        r == match label {
            MemoryBlockLabel::WorkingContext => 500usize,
            MemoryBlockLabel::TaskProgress => 2000usize,
            MemoryBlockLabel::RecentOutput => 4000usize,
            MemoryBlockLabel::SessionHistory => 2000usize,
            MemoryBlockLabel::McpContext => 1000usize,
        },
{
    match label {
        MemoryBlockLabel::WorkingContext => 500,
        MemoryBlockLabel::TaskProgress => 2000,
        MemoryBlockLabel::RecentOutput => 4000,
        MemoryBlockLabel::SessionHistory => 2000,
        MemoryBlockLabel::McpContext => 1000,
    }
}

/// The number of bytes a block keeps when truncated: four per token of its
/// limit, the limit taken as a float; a product beyond the range of `usize`
/// gives its largest value.
pub open spec fn target_bytes(token_limit: nat) -> nat {
    let f = as_float(token_limit) * 4;
    if f > usize::MAX { usize::MAX as nat } else { f }
}

/// A truncated text: a note of how many bytes were cut, then the last
/// `target` bytes of `v`.
pub open spec fn truncated_text(v: Seq<char>, target: nat) -> Seq<char> {
    let cut = (byte_len(v) - target) as nat;
    "... [truncated "@ + decimal(cut) + " chars]\n"@ + v.subrange(chars_in_bytes(v, cut), v.len() as int)
}

/// Whether truncation cuts the block's text.
pub open spec fn truncates(b: MemoryBlock) -> bool {
    b.current_tokens > b.token_limit && byte_len(b.value@) > target_bytes(b.token_limit as nat)
}

/// Memory Block - a structured unit in the context window
#[derive(Debug, Clone)]
pub struct MemoryBlock {
    /// Block label identifying its purpose
    pub label: MemoryBlockLabel,
    /// String representation of block data
    pub value: String,
    /// Maximum token limit
    pub token_limit: usize,
    /// Current token count (estimated)
    pub current_tokens: usize,
    /// Last update time, in seconds since the Unix epoch
    pub updated_at: i64,
}

impl MemoryBlock {
    /// Create a new memory block
    pub fn new(label: MemoryBlockLabel, token_limit: usize) -> (r: Self)
        ensures
            r.label == label,
            r.value@ == Seq::<char>::empty(),
            r.token_limit == token_limit,
            r.current_tokens == 0,
    {
        MemoryBlock { label, value: String::new(), token_limit, current_tokens: 0, updated_at: unix_now() }
    }

    /// Update the block value
    pub fn update(&mut self, value: String)
        ensures
            final(self).label == old(self).label,
            final(self).token_limit == old(self).token_limit,
            final(self).value@ == value@,
            final(self).current_tokens == token_estimate(value@.len(), words(value@).len()),
    {
        self.current_tokens = estimate_tokens(value.as_str());
        self.value = value;
        self.updated_at = unix_now();
    }

    /// Append to the block value
    pub fn append(&mut self, text: &str)
        ensures
            final(self).label == old(self).label,
            final(self).token_limit == old(self).token_limit,
            final(self).value@ == old(self).value@ + text@,
            final(self).current_tokens == token_estimate(
                final(self).value@.len(),
                words(final(self).value@).len(),
            ),
    {
        push_str(&mut self.value, text);
        self.current_tokens = estimate_tokens(self.value.as_str());
        self.updated_at = unix_now();
    }

    /// Check if the block is over the token limit
    pub fn is_over_limit(&self) -> (r: bool)
        ensures
            r == (self.current_tokens > self.token_limit),
    {
        self.current_tokens > self.token_limit
    }

    /// Get remaining token capacity
    pub fn remaining_tokens(&self) -> (r: usize)
        ensures
            r == if self.token_limit > self.current_tokens {
                (self.token_limit - self.current_tokens) as usize
            } else {
                0usize
            },
    {
        self.token_limit.saturating_sub(self.current_tokens)
    }

    /// Truncate an over-full block to about four bytes per token of its
    /// limit, keeping the newest text behind a note of how much was cut.
    pub fn truncate_to_limit(&mut self)
        requires
            truncates(*old(self)) ==> byte_boundary(
                old(self).value@,
                (byte_len(old(self).value@) - target_bytes(old(self).token_limit as nat)) as nat,
            ),
        ensures
            final(self).label == old(self).label,
            final(self).token_limit == old(self).token_limit,
            if truncates(*old(self)) {
                &&& final(self).value@ == truncated_text(old(self).value@, target_bytes(old(self).token_limit as nat))
                &&& final(self).current_tokens == token_estimate(final(self).value@.len(), words(final(self).value@).len())
            } else {
                &&& final(self).value == old(self).value
                &&& final(self).current_tokens == old(self).current_tokens
            },
    {
        if !self.is_over_limit() {
            return;
        }
        let f = float_value(self.token_limit as u64);
        let f4 = f * 4;
        let target: u128 = if f4 > usize::MAX as u128 { usize::MAX as u128 } else { f4 };
        assert(target == target_bytes(self.token_limit as nat));
        let v = chars_of(self.value.as_str());
        let blen = utf8_len_wide(&v);
        if blen > target {
            let cut = blen - target;
            let tail = byte_suffix(&v, cut);
            let mut text = owned("... [truncated ");
            push_str(&mut text, u128_to_string(cut).as_str());
            push_str(&mut text, " chars]\n");
            push_chars(&mut text, &tail);
            assert(text@ =~= truncated_text(old(self).value@, target as nat));
            self.current_tokens = estimate_tokens(text.as_str());
            self.value = text;
            self.updated_at = unix_now();
        }
    }

    /// Clear the block
    pub fn clear(&mut self)
        ensures
            final(self).label == old(self).label,
            final(self).token_limit == old(self).token_limit,
            final(self).value@ == Seq::<char>::empty(),
            final(self).current_tokens == 0,
    {
        self.value = String::new();
        self.current_tokens = 0;
        self.updated_at = unix_now();
    }
}

/// Compaction configuration
#[derive(Debug, Clone)]
pub struct CompactionConfig {
    /// Number of last lines to keep
    pub last_lines_count: usize,
    /// Log storage directory
    pub log_dir: String,
    /// Maximum output size before compaction (bytes)
    pub max_output_size: usize,
    /// Enable AI summarization
    pub enable_ai_summary: bool,
}

impl Default for CompactionConfig {
    fn default() -> (r: Self)
        ensures
            r.last_lines_count == 10,
            r.log_dir@ == ".agterm/logs"@,
            r.max_output_size == 10 * 1024,
            !r.enable_ai_summary,
    {
        CompactionConfig {
            last_lines_count: 10,
            log_dir: owned(".agterm/logs"),
            max_output_size: 10 * 1024,
            enable_ai_summary: false,
        }
    }
}

/// Whether a lowercased line reports an error.
pub open spec fn error_marked(lower: Seq<char>) -> bool {
    contains_sub(lower, "error:"@) || contains_sub(lower, "error["@) || contains_sub(lower, "fatal:"@)
        || contains_sub(lower, "exception:"@) || contains_sub(lower, "panic:"@)
}

/// Whether a lowercased line reports a warning.
pub open spec fn warning_marked(lower: Seq<char>) -> bool {
    contains_sub(lower, "warning:"@) || contains_sub(lower, "warn:"@)
}

/// The test of a lowercased line for an error.
pub open spec fn error_test() -> spec_fn(Seq<char>) -> bool {
    |l: Seq<char>| error_marked(l)
}

/// The test of a lowercased line for a warning.
pub open spec fn warning_test() -> spec_fn(Seq<char>) -> bool {
    |l: Seq<char>| warning_marked(l)
}

/// The trimmed lines of `lines` whose lowercase form satisfies `marked`.
pub open spec fn marked_lines(lines: Seq<Seq<char>>, marked: spec_fn(Seq<char>) -> bool) -> Seq<Seq<char>>
    decreases lines.len(),
{
    if lines.len() == 0 {
        seq![]
    } else {
        let rest = marked_lines(lines.drop_last(), marked);
        if marked(lowercase(lines.last())) {
            rest.push(trim(lines.last()))
        } else {
            rest
        }
    }
}

/// The status line that a lowercased output earns, if any.
pub open spec fn success_line(lower: Seq<char>) -> Option<Seq<char>> {
    if contains_sub(lower, "successfully"@) {
        Some("Status: Success"@)
    } else if contains_sub(lower, "compiled"@) && contains_sub(lower, "modules"@) {
        Some("Status: Compiled"@)
    } else if contains_sub(lower, "test"@) && contains_sub(lower, "passed"@) {
        Some("Status: Tests passed"@)
    } else if contains_sub(lower, "done"@) || contains_sub(lower, "complete"@) {
        Some("Status: Done"@)
    } else {
        None
    }
}

/// Whether a lowercased line reports an error.
pub fn mentions_error(lower: &Vec<char>) -> (r: bool)
    ensures
        r == error_marked(lower@),
{
    contains(lower, &chars_of("error:")) || contains(lower, &chars_of("error[")) || contains(
        lower,
        &chars_of("fatal:"),
    ) || contains(lower, &chars_of("exception:")) || contains(lower, &chars_of("panic:"))
}

/// Whether a lowercased line reports a warning.
pub fn mentions_warning(lower: &Vec<char>) -> (r: bool)
    ensures
        r == warning_marked(lower@),
{
    contains(lower, &chars_of("warning:")) || contains(lower, &chars_of("warn:"))
}

/// The status line for an already lowercased output.
pub fn success_status(lower: &Vec<char>) -> (r: Option<String>)
    ensures
        match (r, success_line(lower@)) {
            (Some(s), Some(t)) => s@ == t,
            (None, None) => true,
            _ => false,
        },
{
    if contains(lower, &chars_of("successfully")) {
        Some(owned("Status: Success"))
    } else if contains(lower, &chars_of("compiled")) && contains(lower, &chars_of("modules")) {
        Some(owned("Status: Compiled"))
    } else if contains(lower, &chars_of("test")) && contains(lower, &chars_of("passed")) {
        Some(owned("Status: Tests passed"))
    } else if contains(lower, &chars_of("done")) || contains(lower, &chars_of("complete")) {
        Some(owned("Status: Done"))
    } else {
        None
    }
}

/// Output compactor
pub struct Compactor {
    config: CompactionConfig,
}

impl Compactor {
    /// The configuration the compactor works with
    pub closed spec fn settings(&self) -> CompactionConfig {
        self.config
    }

    /// Create a new compactor with configuration
    pub fn new(config: CompactionConfig) -> (r: Self)
        ensures
            r.settings() == config,
    {
        Compactor { config }
    }

    /// Create with default configuration
    pub fn with_defaults() -> (r: Self)
        ensures
            r.settings().last_lines_count == 10,
            r.settings().log_dir@ == ".agterm/logs"@,
            r.settings().max_output_size == 10 * 1024,
            !r.settings().enable_ai_summary,
    {
        Self::new(CompactionConfig::default())
    }

    /// Set log directory
    pub fn with_log_dir(self, dir: String) -> (r: Self)
        ensures
            r.settings().log_dir == dir,
            r.settings().last_lines_count == self.settings().last_lines_count,
            r.settings().max_output_size == self.settings().max_output_size,
            r.settings().enable_ai_summary == self.settings().enable_ai_summary,
    {
        let mut c = self.config;
        c.log_dir = dir;
        Compactor { config: c }
    }

    /// The trimmed lines of `output` that report an error
    pub fn detect_errors(&self, output: &str) -> (r: Vec<String>)
        ensures
            r@.len() == marked_lines(lines_of(output@), error_test()).len(),
            forall|i: int| 0 <= i < r@.len() ==> #[trigger] r@[i]@ == marked_lines(lines_of(output@), error_test())[i],
    {
        self.marked_in(output, true)
    }

    /// The trimmed lines of `output` that report a warning
    pub fn detect_warnings(&self, output: &str) -> (r: Vec<String>)
        ensures
            r@.len() == marked_lines(lines_of(output@), warning_test()).len(),
            forall|i: int| 0 <= i < r@.len() ==> #[trigger] r@[i]@ == marked_lines(lines_of(output@), warning_test())[i],
    {
        self.marked_in(output, false)
    }

    fn marked_in(&self, output: &str, errors: bool) -> (r: Vec<String>)
        ensures
            ({
                let m = marked_lines(lines_of(output@), if errors { error_test() } else { warning_test() });
                &&& r@.len() == m.len()
                &&& forall|i: int| 0 <= i < r@.len() ==> #[trigger] r@[i]@ == m[i]
            }),
    {
        let ghost marked = if errors { error_test() } else { warning_test() };
        let lines = lines_of_str(output);
        let ghost ls: Seq<Seq<char>> = lines_of(output@);
        let mut r: Vec<String> = Vec::new();
        let mut i: usize = 0;
        while i < lines.len()
            invariant
                i <= lines.len(),
                lines@.len() == ls.len(),
                forall|k: int| 0 <= k < lines@.len() ==> #[trigger] lines@[k]@ == ls[k],
                marked == (if errors { error_test() } else { warning_test() }),
                r@.len() == marked_lines(ls.subrange(0, i as int), marked).len(),
                forall|k: int| 0 <= k < r@.len() ==> #[trigger] r@[k]@ == marked_lines(
                    ls.subrange(0, i as int),
                    marked,
                )[k],
            decreases lines.len() - i,
        {
            let ghost pre = ls.subrange(0, i as int);
            assert(ls.subrange(0, i + 1).drop_last() =~= pre);
            assert(ls.subrange(0, i + 1).last() == lines@[i as int]@);
            let lower = chars_of(to_lowercase(lines[i].as_str()).as_str());
            let hit = if errors { mentions_error(&lower) } else { mentions_warning(&lower) };
            assert(hit == marked(lowercase(lines@[i as int]@)));
            if hit {
                r.push(trim_str(lines[i].as_str()));
            }
            i = i + 1;
        }
        assert(ls.subrange(0, lines.len() as int) =~= ls);
        r
    }

    /// The status line that the output earns, if any
    pub fn detect_success(&self, output: &str) -> (r: Option<String>)
        ensures
            match (r, success_line(lowercase(output@))) {
                (Some(s), Some(t)) => s@ == t,
                (None, None) => true,
                _ => false,
            },
    {
        let lower = chars_of(to_lowercase(output).as_str());
        success_status(&lower)
    }

    /// Check if output needs compaction
    pub fn needs_compaction(&self, output: &str) -> (r: bool)
        ensures
            r == (output.len() > self.settings().max_output_size),
    {
        output.len() > self.config.max_output_size
    }
}

/// Output compacted to its key lines, with where the full log was saved
#[derive(Debug)]
pub struct CompactedOutput {
    /// Key information extracted from output
    pub summary: String,
    /// Last N lines of output
    pub last_lines: Vec<String>,
    /// Path to full log file
    pub full_log_path: String,
    /// Original size in bytes
    pub original_size: usize,
    /// Compacted size in bytes
    pub compacted_size: usize,
    /// Compaction time, in seconds since the Unix epoch
    pub compacted_at: i64,
}

/// Some lines, each followed by a line break.
pub open spec fn lines_block(ls: Seq<Seq<char>>) -> Seq<char>
    decreases ls.len(),
{
    if ls.len() == 0 {
        seq![]
    } else {
        lines_block(ls.drop_last()) + ls.last() + "\n"@
    }
}

/// The text of some strings.
pub open spec fn string_texts(v: Seq<String>) -> Seq<Seq<char>> {
    v.map_values(|s: String| s@)
}

impl CompactedOutput {
    /// The summary, then the last lines under a heading when there are any,
    /// then where the full log is
    pub fn to_display_string(&self) -> (r: String)
        ensures
            r@ == self.summary@ + (if self.last_lines@.len() > 0 {
                "\n\n--- Last Output ---\n"@ + lines_block(string_texts(self.last_lines@))
            } else {
                seq![]
            }) + "\n[Full log: "@ + self.full_log_path@ + "]"@,
    {
        let mut out = owned(self.summary.as_str());
        let ghost ls = string_texts(self.last_lines@);
        if self.last_lines.len() > 0 {
            push_str(&mut out, "\n\n--- Last Output ---\n");
            let ghost base = out@;
            let mut i: usize = 0;
            while i < self.last_lines.len()
                invariant
                    i <= self.last_lines@.len(),
                    ls == string_texts(self.last_lines@),
                    out@ == base + lines_block(ls.subrange(0, i as int)),
                decreases self.last_lines.len() - i,
            {
                assert(ls.subrange(0, i + 1).drop_last() =~= ls.subrange(0, i as int));
                assert(ls.subrange(0, i + 1).last() == self.last_lines@[i as int]@);
                push_str(&mut out, self.last_lines[i].as_str());
                push_str(&mut out, "\n");
                i = i + 1;
                assert(out@ =~= base + lines_block(ls.subrange(0, i as int)));
            }
            assert(ls.subrange(0, ls.len() as int) =~= ls);
        }
        let ghost mid = out@;
        push_str(&mut out, "\n[Full log: ");
        push_str(&mut out, self.full_log_path.as_str());
        push_str(&mut out, "]");
        assert(out@ =~= mid + "\n[Full log: "@ + self.full_log_path@ + "]"@);
        out
    }
}

/// Whether a character may stand in an exit code: a digit or a minus sign.
pub open spec fn code_char(c: char) -> bool {
    ('0' <= c && c <= '9') || c == '-'
}

/// The characters of `s` up to the first that cannot stand in an exit code.
pub open spec fn code_prefix(s: Seq<char>) -> Seq<char>
    decreases s.len(),
{
    if s.len() > 0 && code_char(s[0]) {
        seq![s[0]] + code_prefix(s.drop_first())
    } else {
        seq![]
    }
}

/// The first position at which `p` occurs in `s`, when it occurs.
pub open spec fn first_occurrence(s: Seq<char>, p: Seq<char>) -> int {
    choose|i: int| occurs_at(s, p, i) && forall|j: int| 0 <= j < i ==> !occurs_at(s, p, j)
}

/// Whether a lowercased output reports success by its exit code.
pub open spec fn exit_zero(lower: Seq<char>) -> bool {
    contains_sub(lower, "exit code: 0"@) || contains_sub(lower, "exited with 0"@)
}

/// The number of bytes before the first `exit code:` of the lowercased
/// output.
pub open spec fn exit_code_offset(output: Seq<char>) -> nat {
    let lower = lowercase(output);
    byte_len(lower.subrange(0, first_occurrence(lower, "exit code:"@)))
}

/// Whether the exit code can be read from the output at the place where
/// its lowercase form names it: that byte offset falls on a character
/// boundary of the output itself (it does whenever lowercasing keeps the
/// byte length of what comes before).
pub open spec fn exit_code_readable(output: Seq<char>) -> bool {
    let lower = lowercase(output);
    !exit_zero(lower) && contains_sub(lower, "exit code:"@) ==> byte_boundary(output, exit_code_offset(output))
}

/// The characters after the first `n`; none when there are fewer.
pub open spec fn after_chars(s: Seq<char>, n: nat) -> Seq<char> {
    if n <= s.len() {
        s.subrange(n as int, s.len() as int)
    } else {
        seq![]
    }
}

/// The exit status line that the output earns, if any: success when it
/// says so, else the code that follows its first `exit code:`.
pub open spec fn exit_status_line(output: Seq<char>) -> Option<Seq<char>> {
    let lower = lowercase(output);
    if exit_zero(lower) {
        Some("Exit: 0 (success)"@)
    } else if contains_sub(lower, "exit code:"@) {
        let rest = output.subrange(chars_in_bytes(output, exit_code_offset(output)), output.len() as int);
        let code = code_prefix(after_chars(rest, 10));
        if code.len() > 0 {
            Some("Exit: "@ + code)
        } else {
            None
        }
    } else {
        None
    }
}

/// The first `k` error lines, one item each.
pub open spec fn error_items(errs: Seq<Seq<char>>, k: nat) -> Seq<char>
    decreases k,
{
    if k == 0 {
        seq![]
    } else {
        error_items(errs, (k - 1) as nat) + "  - "@ + errs[k - 1] + "\n"@
    }
}

/// The part of a summary that lists errors: at most five, and how many
/// more there are.
pub open spec fn errors_part(errs: Seq<Seq<char>>) -> Seq<char> {
    if errs.len() == 0 {
        seq![]
    } else {
        "Errors:\n"@ + error_items(errs, if errs.len() < 5 { errs.len() } else { 5 }) + (if errs.len() > 5 {
            "  ... and "@ + decimal((errs.len() - 5) as nat) + " more\n"@
        } else {
            seq![]
        })
    }
}

/// The part of a summary that counts warnings.
pub open spec fn warnings_part(n: nat) -> Seq<char> {
    if n > 0 {
        "Warnings: "@ + decimal(n) + " total\n"@
    } else {
        seq![]
    }
}

/// A line of its own, when there is one.
pub open spec fn line_part(l: Option<Seq<char>>) -> Seq<char> {
    match l {
        Some(t) => t + "\n"@,
        None => seq![],
    }
}

/// The key information of an output: its exit status, its errors, how
/// many warnings, its success status; or, when none of these is found, how
/// many lines and bytes it has.
pub open spec fn summary_of(output: Seq<char>) -> Seq<char> {
    let s = line_part(exit_status_line(output)) + errors_part(marked_lines(lines_of(output), error_test()))
        + warnings_part(marked_lines(lines_of(output), warning_test()).len()) + line_part(success_line(lowercase(output)));
    if s.len() == 0 {
        "Output: "@ + decimal(lines_of(output).len()) + " lines, "@ + decimal(byte_len(output)) + " bytes"@
    } else {
        s
    }
}

/// The last `n` lines of an output, all of them when there are fewer.
pub open spec fn last_lines_of(output: Seq<char>, n: nat) -> Seq<Seq<char>> {
    let ls = lines_of(output);
    if ls.len() <= n {
        ls
    } else {
        ls.subrange(ls.len() - n, ls.len() as int)
    }
}

/// The number of bytes of some lines together.
pub open spec fn lines_bytes(ls: Seq<Seq<char>>) -> nat
    decreases ls.len(),
{
    if ls.len() == 0 {
        0
    } else {
        lines_bytes(ls.drop_last()) + byte_len(ls.last())
    }
}

/// Whether `c` is the compaction of `output` (of `size` bytes) that keeps
/// its last `n` lines and refers to the full log at `path`; the compacted
/// size wraps around as `usize` arithmetic does.
pub open spec fn compacted(n: nat, output: Seq<char>, size: usize, path: Seq<char>, c: CompactedOutput) -> bool {
    let last = last_lines_of(output, n);
    &&& c.summary@ == summary_of(output)
    &&& c.last_lines@.len() == last.len()
    &&& forall|i: int| 0 <= i < last.len() ==> #[trigger] c.last_lines@[i]@ == last[i]
    &&& c.full_log_path@ == path
    &&& c.original_size == size
    &&& c.compacted_size as int == (byte_len(summary_of(output)) + lines_bytes(last)) as int % (usize::MAX as int + 1)
}

/// The position found by a first match is the first occurrence.
proof fn lemma_first_occurrence(s: Seq<char>, p: Seq<char>, i: int)
    requires
        occurs_at(s, p, i),
        forall|j: int| 0 <= j < i ==> !occurs_at(s, p, j),
    ensures
        first_occurrence(s, p) == i,
{
    let c = first_occurrence(s, p);
    assert(occurs_at(s, p, c) && forall|j: int| 0 <= j < c ==> !occurs_at(s, p, j));
    if c < i {
        assert(!occurs_at(s, p, c));
    }
    if c > i {
        assert(!occurs_at(s, p, i));
    }
}

/// Whether the first `w` bytes of `v` end on a character boundary.
fn on_boundary(v: &Vec<char>, w: u128) -> (b: bool)
    ensures
        b == byte_boundary(v@, w as nat),
{
    let mut acc: u128 = 0;
    let mut i: usize = 0;
    while acc < w && i < v.len()
        invariant
            i <= v.len(),
            acc == byte_len(v@.subrange(0, i as int)),
            forall|k: int| 0 <= k < i ==> byte_len(#[trigger] v@.subrange(0, k)) < w,
        decreases v.len() - i,
    {
        proof {
            assert(v@.subrange(0, i + 1) =~= v@.subrange(0, i as int).push(v@[i as int]));
            lemma_byte_len_push(v@.subrange(0, i as int), v@[i as int]);
            crate::fmt::lemma_byte_len_bounds(v@.subrange(0, i + 1));
        }
        acc = acc + char_utf8_width(v[i]) as u128;
        i = i + 1;
    }
    if acc == w {
        assert(byte_len(v@.subrange(0, i as int)) == w);
        true
    } else {
        proof {
            assert forall|k: int| 0 <= k <= v@.len() implies byte_len(#[trigger] v@.subrange(0, k)) != w by {
                if k > i {
                    lemma_byte_len_prefix_mono(v@, i as int, k);
                } else if k == i {
                } else {
                }
            }
        }
        false
    }
}

/// The code characters of `rest` after its first ten.
fn code_after_ten(rest: &Vec<char>) -> (code: Vec<char>)
    ensures
        code@ == code_prefix(after_chars(rest@, 10)),
{
    let mut code: Vec<char> = Vec::new();
    if rest.len() < 10 {
        return code;
    }
    let mut k: usize = 10;
    while k < rest.len() && (('0' <= rest[k] && rest[k] <= '9') || rest[k] == '-')
        invariant
            10 <= k <= rest@.len(),
            code@ + code_prefix(rest@.subrange(k as int, rest@.len() as int)) == code_prefix(after_chars(rest@, 10)),
        decreases rest.len() - k,
    {
        let ghost t = rest@.subrange(k as int, rest@.len() as int);
        assert(t.drop_first() =~= rest@.subrange(k + 1, rest@.len() as int));
        assert(t[0] == rest@[k as int]);
        code.push(rest[k]);
        k = k + 1;
        assert(code@ + code_prefix(rest@.subrange(k as int, rest@.len() as int)) =~= code_prefix(after_chars(rest@, 10)));
    }
    let ghost t = rest@.subrange(k as int, rest@.len() as int);
    assert(code_prefix(t) =~= Seq::<char>::empty());
    assert(code@ =~= code_prefix(after_chars(rest@, 10)));
    code
}

impl Compactor {
    /// The exit status line that the output earns, if any
    fn detect_exit_status(&self, output: &str) -> (r: Option<String>)
        requires
            exit_code_readable(output@),
        ensures
            match (r, exit_status_line(output@)) {
                (Some(s), Some(t)) => s@ == t,
                (None, None) => true,
                _ => false,
            },
    {
        let lower = chars_of(to_lowercase(output).as_str());
        if contains(&lower, &chars_of("exit code: 0")) || contains(&lower, &chars_of("exited with 0")) {
            return Some(owned("Exit: 0 (success)"));
        }
        match find_sub(&lower, &chars_of("exit code:")) {
            None => None,
            Some(i) => {
                proof {
                    lemma_first_occurrence(lower@, "exit code:"@, i as int);
                }
                let pos = utf8_len_wide(&slice_chars(&lower, 0, i));
                let out = chars_of(output);
                let rest = byte_suffix(&out, pos);
                let code = code_after_ten(&rest);
                if code.len() > 0 {
                    let mut line = owned("Exit: ");
                    crate::text::push_chars(&mut line, &code);
                    Some(line)
                } else {
                    None
                }
            },
        }
    }

    /// The key information of the output, as `summary_of` says
    fn extract_summary(&self, output: &str) -> (r: String)
        requires
            exit_code_readable(output@),
        ensures
            r@ == summary_of(output@),
    {
        let mut summary = String::new();
        match self.detect_exit_status(output) {
            Some(e) => {
                push_str(&mut summary, e.as_str());
                push_str(&mut summary, "\n");
            },
            None => {},
        }
        let ghost s1 = summary@;
        assert(s1 == line_part(exit_status_line(output@)));
        let errors = self.detect_errors(output);
        let ghost errs = marked_lines(lines_of(output@), error_test());
        if errors.len() > 0 {
            push_str(&mut summary, "Errors:\n");
            let lim: usize = if errors.len() < 5 { errors.len() } else { 5 };
            let mut k: usize = 0;
            while k < lim
                invariant
                    k <= lim <= errors@.len(),
                    errors@.len() == errs.len(),
                    forall|i: int| 0 <= i < errors@.len() ==> #[trigger] errors@[i]@ == errs[i],
                    summary@ == s1 + "Errors:\n"@ + error_items(errs, k as nat),
                decreases lim - k,
            {
                push_str(&mut summary, "  - ");
                push_str(&mut summary, errors[k].as_str());
                push_str(&mut summary, "\n");
                k = k + 1;
                assert(summary@ =~= s1 + "Errors:\n"@ + error_items(errs, k as nat));
            }
            if errors.len() > 5 {
                push_str(&mut summary, "  ... and ");
                push_str(&mut summary, usize_to_string(errors.len() - 5).as_str());
                push_str(&mut summary, " more\n");
            }
            assert(summary@ =~= s1 + errors_part(errs));
        } else {
            assert(summary@ =~= s1 + errors_part(errs));
        }
        let ghost s2 = summary@;
        let warnings = self.detect_warnings(output);
        if warnings.len() > 0 {
            push_str(&mut summary, "Warnings: ");
            push_str(&mut summary, usize_to_string(warnings.len()).as_str());
            push_str(&mut summary, " total\n");
        }
        assert(summary@ =~= s2 + warnings_part(marked_lines(lines_of(output@), warning_test()).len()));
        let ghost s3 = summary@;
        match self.detect_success(output) {
            Some(t) => {
                push_str(&mut summary, t.as_str());
                push_str(&mut summary, "\n");
            },
            None => {},
        }
        assert(summary@ =~= s3 + line_part(success_line(lowercase(output@))));
        let ghost whole = line_part(exit_status_line(output@)) + errors_part(errs)
            + warnings_part(marked_lines(lines_of(output@), warning_test()).len()) + line_part(success_line(lowercase(output@)));
        assert(summary@ =~= whole);
        if chars_of(summary.as_str()).len() == 0 {
            let out = chars_of(output);
            let mut line = owned("Output: ");
            push_str(&mut line, usize_to_string(lines_of_str(output).len()).as_str());
            push_str(&mut line, " lines, ");
            push_str(&mut line, u128_to_string(utf8_len_wide(&out)).as_str());
            push_str(&mut line, " bytes");
            line
        } else {
            summary
        }
    }

    /// Compacts the output that was saved in full at `full_log_path`: its
    /// key information, its last lines, and the sizes before and after
    pub fn compact(&self, output: &str, full_log_path: String) -> (r: CompactedOutput)
        requires
            exit_code_readable(output@),
        ensures
            compacted(self.settings().last_lines_count as nat, output@, output.len(), full_log_path@, r),
    {
        let original_size = output.len();
        let lines = lines_of_str(output);
        let ghost ls = lines_of(output@);
        let n = self.config.last_lines_count;
        let start: usize = if lines.len() <= n { 0 } else { lines.len() - n };
        let ghost last = last_lines_of(output@, n as nat);
        assert(last =~= ls.subrange(start as int, ls.len() as int));
        let mut last_lines: Vec<String> = Vec::new();
        let m: u128 = usize::MAX as u128 + 1;
        let mut bytes: u128 = 0;
        let mut i: usize = start;
        while i < lines.len()
            invariant
                start <= i <= lines@.len(),
                lines@.len() == ls.len(),
                forall|k: int| 0 <= k < lines@.len() ==> #[trigger] lines@[k]@ == ls[k],
                last == ls.subrange(start as int, ls.len() as int),
                last_lines@.len() == i - start,
                forall|k: int| 0 <= k < i - start ==> #[trigger] last_lines@[k]@ == last[k],
                m == usize::MAX as u128 + 1,
                bytes < m,
                bytes as int == lines_bytes(last.subrange(0, i - start)) as int % (m as int),
            decreases lines.len() - i,
        {
            let v = chars_of(lines[i].as_str());
            let w = utf8_len_wide(&v);
            proof {
                assert(last.subrange(0, i + 1 - start).drop_last() =~= last.subrange(0, i - start));
                assert(last.subrange(0, i + 1 - start).last() == ls[i as int]);
                vstd::arithmetic::div_mod::lemma_add_mod_noop(lines_bytes(last.subrange(0, i - start)) as int, w as int, m as int);
            }
            bytes = (bytes + w % m) % m;
            last_lines.push(owned(lines[i].as_str()));
            i = i + 1;
        }
        assert(last.subrange(0, last.len() as int) =~= last);
        let summary = self.extract_summary(output);
        let sv = chars_of(summary.as_str());
        let sw = utf8_len_wide(&sv);
        proof {
            vstd::arithmetic::div_mod::lemma_add_mod_noop(sw as int, lines_bytes(last) as int, m as int);
            vstd::arithmetic::div_mod::lemma_small_mod(bytes as nat, m as nat);
        }
        let wrapped = (sw % m + bytes) % m;
        CompactedOutput {
            summary,
            last_lines,
            full_log_path,
            original_size,
            compacted_size: wrapped as usize,
            compacted_at: unix_now(),
        }
    }

    /// Compacts the output as `compact` does when its exit code can be read
    /// where its lowercase form names it; `None` when it cannot
    pub fn compact_checked(&self, output: &str, full_log_path: String) -> (r: Option<CompactedOutput>)
        ensures
            r is Some <==> exit_code_readable(output@),
            r matches Some(c) ==> compacted(self.settings().last_lines_count as nat, output@, output.len(), full_log_path@, c),
    {
        if Self::exit_code_readable_in(output) {
            Some(self.compact(output, full_log_path))
        } else {
            None
        }
    }

    /// Whether the exit code of the output can be read
    fn exit_code_readable_in(output: &str) -> (b: bool)
        ensures
            b == exit_code_readable(output@),
    {
        let lower = chars_of(to_lowercase(output).as_str());
        if contains(&lower, &chars_of("exit code: 0")) || contains(&lower, &chars_of("exited with 0")) {
            return true;
        }
        match find_sub(&lower, &chars_of("exit code:")) {
            None => true,
            Some(i) => {
                proof {
                    lemma_first_occurrence(lower@, "exit code:"@, i as int);
                }
                let pos = utf8_len_wide(&slice_chars(&lower, 0, i));
                let out = chars_of(output);
                on_boundary(&out, pos)
            },
        }
    }
}

/// Summary type
#[derive(Debug, Clone, Copy, PartialEq, Eq, Structural)]
pub enum SummaryType {
    /// Session summary
    Session,
    /// Task output summary
    TaskOutput,
    /// Error summary
    Error,
    /// Daily/weekly rolling summary
    Rolling,
}

/// AI Summary request (for future AI integration)
#[derive(Debug, Clone)]
pub struct SummaryRequest {
    /// Content to summarize
    pub content: String,
    /// Maximum summary length (tokens)
    pub max_tokens: usize,
    /// Summary type
    pub summary_type: SummaryType,
}

/// AI Summary response
#[derive(Debug, Clone)]
pub struct SummaryResponse {
    /// Generated summary
    pub summary: String,
    /// Token count
    pub token_count: usize,
    /// Key points extracted
    pub key_points: Vec<String>,
    /// Suggested tags
    pub suggested_tags: Vec<String>,
}

/// The text of the prompt before the content, for each kind of summary.
pub open spec fn prompt_head(t: SummaryType) -> Seq<char> {
    match t {
        SummaryType::Session => "\u{b2e4}\u{c74c} \u{d130}\u{bbf8}\u{b110} \u{c138}\u{c158} \u{b85c}\u{adf8}\u{b97c} \u{c694}\u{c57d}\u{d574}\u{c8fc}\u{c138}\u{c694}.\n- \u{c2e4}\u{d589}\u{b41c} \u{c8fc}\u{c694} \u{ba85}\u{b839}\u{c5b4}\n- \u{c131}\u{acf5}/\u{c2e4}\u{d328} \u{c5ec}\u{bd80} \u{bc0f} \u{d575}\u{c2ec} \u{acb0}\u{acfc}\n- \u{bc1c}\u{c0dd}\u{d55c} \u{c5d0}\u{b7ec} \u{ba54}\u{c2dc}\u{c9c0} (\u{c788}\u{b294} \u{acbd}\u{c6b0})\n- \u{b2e4}\u{c74c} \u{c138}\u{c158}\u{c5d0}\u{c11c} \u{cc38}\u{ace0}\u{d560} \u{b9cc}\u{d55c} \u{c815}\u{bcf4}\n\n\u{b85c}\u{adf8}:\n"@,
        SummaryType::TaskOutput => "\u{b2e4}\u{c74c} \u{ba85}\u{b839}\u{c5b4} \u{cd9c}\u{b825}\u{c744} \u{d55c} \u{bb38}\u{c7a5}\u{c73c}\u{b85c} \u{c694}\u{c57d}\u{d574}\u{c8fc}\u{c138}\u{c694}.\n- \u{c131}\u{acf5} \u{c5ec}\u{bd80}\n- \u{d575}\u{c2ec} \u{acb0}\u{acfc}\n\n\u{cd9c}\u{b825}:\n"@,
        SummaryType::Error => "\u{b2e4}\u{c74c} \u{c5d0}\u{b7ec} \u{ba54}\u{c2dc}\u{c9c0}\u{b97c} \u{bd84}\u{c11d}\u{d558}\u{ace0} \u{d574}\u{acb0} \u{bc29}\u{bc95}\u{c744} \u{c81c}\u{c548}\u{d574}\u{c8fc}\u{c138}\u{c694}.\n\n\u{c5d0}\u{b7ec}:\n"@,
        SummaryType::Rolling => "\u{b2e4}\u{c74c} \u{c5ec}\u{b7ec} \u{c138}\u{c158} \u{c694}\u{c57d}\u{b4e4}\u{c744} \u{d558}\u{b098}\u{c758} \u{c0c1}\u{c704} \u{c694}\u{c57d}\u{c73c}\u{b85c} \u{d1b5}\u{d569}\u{d574}\u{c8fc}\u{c138}\u{c694}.\n- \u{c8fc}\u{c694} \u{c791}\u{c5c5} \u{d2b8}\u{b80c}\u{b4dc}\n- \u{bc18}\u{bcf5}\u{b418}\u{b294} \u{d328}\u{d134}\n- \u{c8fc}\u{c694} \u{c131}\u{acfc} \u{bc0f} \u{bb38}\u{c81c}\u{c810}\n\n\u{c138}\u{c158} \u{c694}\u{c57d}\u{b4e4}:\n"@,
    }
}

/// The text between the content and the token budget.
pub open spec fn prompt_middle(t: SummaryType) -> Seq<char> {
    "\n\n\u{cd5c}\u{b300} "@
}

/// The text after the token budget.
pub open spec fn prompt_tail(t: SummaryType) -> Seq<char> {
    match t {
        SummaryType::Error => " \u{d1a0}\u{d070}\u{c73c}\u{b85c} \u{b2f5}\u{bcc0}\u{d574}\u{c8fc}\u{c138}\u{c694}."@,
        _ => " \u{d1a0}\u{d070}\u{c73c}\u{b85c} \u{c694}\u{c57d}\u{d574}\u{c8fc}\u{c138}\u{c694}."@,
    }
}

/// Summary prompt template
pub fn generate_summary_prompt(request: &SummaryRequest) -> (r: String)
    ensures
        r@ == prompt_head(request.summary_type) + request.content@ + prompt_middle(request.summary_type)
            + decimal(request.max_tokens as nat) + prompt_tail(request.summary_type),
{
    let mut out = String::new();
    match request.summary_type {
        SummaryType::Session => push_str(&mut out, "\u{b2e4}\u{c74c} \u{d130}\u{bbf8}\u{b110} \u{c138}\u{c158} \u{b85c}\u{adf8}\u{b97c} \u{c694}\u{c57d}\u{d574}\u{c8fc}\u{c138}\u{c694}.\n- \u{c2e4}\u{d589}\u{b41c} \u{c8fc}\u{c694} \u{ba85}\u{b839}\u{c5b4}\n- \u{c131}\u{acf5}/\u{c2e4}\u{d328} \u{c5ec}\u{bd80} \u{bc0f} \u{d575}\u{c2ec} \u{acb0}\u{acfc}\n- \u{bc1c}\u{c0dd}\u{d55c} \u{c5d0}\u{b7ec} \u{ba54}\u{c2dc}\u{c9c0} (\u{c788}\u{b294} \u{acbd}\u{c6b0})\n- \u{b2e4}\u{c74c} \u{c138}\u{c158}\u{c5d0}\u{c11c} \u{cc38}\u{ace0}\u{d560} \u{b9cc}\u{d55c} \u{c815}\u{bcf4}\n\n\u{b85c}\u{adf8}:\n"),
        SummaryType::TaskOutput => push_str(&mut out, "\u{b2e4}\u{c74c} \u{ba85}\u{b839}\u{c5b4} \u{cd9c}\u{b825}\u{c744} \u{d55c} \u{bb38}\u{c7a5}\u{c73c}\u{b85c} \u{c694}\u{c57d}\u{d574}\u{c8fc}\u{c138}\u{c694}.\n- \u{c131}\u{acf5} \u{c5ec}\u{bd80}\n- \u{d575}\u{c2ec} \u{acb0}\u{acfc}\n\n\u{cd9c}\u{b825}:\n"),
        SummaryType::Error => push_str(&mut out, "\u{b2e4}\u{c74c} \u{c5d0}\u{b7ec} \u{ba54}\u{c2dc}\u{c9c0}\u{b97c} \u{bd84}\u{c11d}\u{d558}\u{ace0} \u{d574}\u{acb0} \u{bc29}\u{bc95}\u{c744} \u{c81c}\u{c548}\u{d574}\u{c8fc}\u{c138}\u{c694}.\n\n\u{c5d0}\u{b7ec}:\n"),
        SummaryType::Rolling => push_str(&mut out, "\u{b2e4}\u{c74c} \u{c5ec}\u{b7ec} \u{c138}\u{c158} \u{c694}\u{c57d}\u{b4e4}\u{c744} \u{d558}\u{b098}\u{c758} \u{c0c1}\u{c704} \u{c694}\u{c57d}\u{c73c}\u{b85c} \u{d1b5}\u{d569}\u{d574}\u{c8fc}\u{c138}\u{c694}.\n- \u{c8fc}\u{c694} \u{c791}\u{c5c5} \u{d2b8}\u{b80c}\u{b4dc}\n- \u{bc18}\u{bcf5}\u{b418}\u{b294} \u{d328}\u{d134}\n- \u{c8fc}\u{c694} \u{c131}\u{acfc} \u{bc0f} \u{bb38}\u{c81c}\u{c810}\n\n\u{c138}\u{c158} \u{c694}\u{c57d}\u{b4e4}:\n"),
    }
    push_str(&mut out, request.content.as_str());
    push_str(&mut out, "\n\n\u{cd5c}\u{b300} ");
    let n = usize_to_string(request.max_tokens);
    push_str(&mut out, n.as_str());
    match request.summary_type {
        SummaryType::Error => push_str(&mut out, " \u{d1a0}\u{d070}\u{c73c}\u{b85c} \u{b2f5}\u{bcc0}\u{d574}\u{c8fc}\u{c138}\u{c694}."),
        _ => push_str(&mut out, " \u{d1a0}\u{d070}\u{c73c}\u{b85c} \u{c694}\u{c57d}\u{d574}\u{c8fc}\u{c138}\u{c694}."),
    }
    out
}

} // verus!
