//! Clipboard history: entries classified by what they hold, kept most recent
//! last, with duplicates dropped, pinned entries kept and the others trimmed
//! to a maximum count.

use vstd::prelude::*;
use crate::automation::byte_len_capped;
use crate::clock::unix_millis;
use crate::fmt::{byte_len, byte_boundary, chars_in_bytes, byte_prefix};
use crate::text::{chars_of, contains, contains_sub, has_char, is_prefix, lines_of, lines_of_str, lowercase,
    owned, push_chars, push_str, starts_with, string_of, to_lowercase, trim, trim_chars};

verus! {

/// Content type of a clipboard entry
#[derive(Debug, Clone, Copy, PartialEq, Eq, Structural)]
pub enum ClipboardType {
    Text,
    Path,
    Url,
    Email,
    Code,
}

/// The snippets whose presence marks text as code.
pub open spec fn code_markers() -> Seq<Seq<char>> {
    seq![
        "fn "@, "func "@, "function "@, "def "@, "class "@, "interface "@, "import "@, "from "@,
        "use "@, "#include"@, "const "@, "let "@, "var "@, "public "@, "private "@, "{"@, "}"@,
        "=>"@, "->"@, "//"@, "/*"@, "*/"@,
    ]
}

/// How many times `c` occurs in `s`.
pub open spec fn occurrences(s: Seq<char>, c: char) -> nat
    decreases s.len(),
{
    if s.len() == 0 {
        0
    } else {
        occurrences(s.drop_last(), c) + if s.last() == c { 1nat } else { 0nat }
    }
}

/// An e-mail address: an `@`, a `.` and no space, with exactly one `@` that
/// has text on both sides.
pub open spec fn looks_like_email(t: Seq<char>) -> bool {
    &&& t.contains('@')
    &&& t.contains('.')
    &&& !t.contains(' ')
    &&& occurrences(t, '@') == 1
    &&& t[0] != '@'
    &&& t.last() != '@'
}

/// The content type of a text, judged on its trimmed form.
pub open spec fn detected(s: Seq<char>) -> ClipboardType {
    let t = trim(s);
    if is_prefix("http://"@, t) || is_prefix("https://"@, t) || is_prefix("ftp://"@, t) || is_prefix("file://"@, t) {
        ClipboardType::Url
    } else if looks_like_email(t) {
        ClipboardType::Email
    } else if is_prefix("/"@, t) || is_prefix("~/"@, t) || (byte_len(t) > 2 && t.len() > 1 && t[1] == ':') {
        ClipboardType::Path
    } else if exists|i: int| 0 <= i < code_markers().len() && contains_sub(t, #[trigger] code_markers()[i]) {
        ClipboardType::Code
    } else {
        ClipboardType::Text
    }
}

/// A text whose trimmed form starts with one of the URL schemes `http://`,
/// `https://`, `ftp://` or `file://` is a URL, whatever follows.
pub proof fn lemma_url_schemes(s: Seq<char>, scheme: Seq<char>)
    requires
        scheme == "http://"@ || scheme == "https://"@ || scheme == "ftp://"@ || scheme == "file://"@,
        is_prefix(scheme, trim(s)),
    ensures
        detected(s) == ClipboardType::Url,
{
}

/// A text whose trimmed form starts with `/` and holds no `@` is a path.
pub proof fn lemma_absolute_paths(s: Seq<char>)
    requires
        trim(s).len() > 0,
        trim(s)[0] == '/',
        !trim(s).contains('@'),
    ensures
        detected(s) == ClipboardType::Path,
{
    reveal_strlit("http://");
    reveal_strlit("https://");
    reveal_strlit("ftp://");
    reveal_strlit("file://");
    reveal_strlit("/");
    let t = trim(s);
    assert(!is_prefix("http://"@, t)) by {
        if is_prefix("http://"@, t) {
            assert(t.subrange(0, 7)[0] == t[0]);
        }
    }
    assert(!is_prefix("https://"@, t)) by {
        if is_prefix("https://"@, t) {
            assert(t.subrange(0, 8)[0] == t[0]);
        }
    }
    assert(!is_prefix("ftp://"@, t)) by {
        if is_prefix("ftp://"@, t) {
            assert(t.subrange(0, 6)[0] == t[0]);
        }
    }
    assert(!is_prefix("file://"@, t)) by {
        if is_prefix("file://"@, t) {
            assert(t.subrange(0, 7)[0] == t[0]);
        }
    }
    assert(is_prefix("/"@, t)) by {
        assert(t.subrange(0, 1) =~= "/"@);
    }
}

proof fn lemma_occurrences_absent(s: Seq<char>, c: char)
    requires
        !s.contains(c),
    ensures
        occurrences(s, c) == 0,
    decreases s.len(),
{
    if s.len() > 0 {
        assert(!s.drop_last().contains(c)) by {
            if s.drop_last().contains(c) {
                let i = choose|i: int| 0 <= i < s.drop_last().len() && s.drop_last()[i] == c;
                assert(s[i] == c);
            }
        }
        assert(s[s.len() - 1] == s.last());
        lemma_occurrences_absent(s.drop_last(), c);
    }
}

proof fn lemma_occurrences_concat(a: Seq<char>, b: Seq<char>, c: char)
    ensures
        occurrences(a + b, c) == occurrences(a, c) + occurrences(b, c),
    decreases b.len(),
{
    if b.len() == 0 {
        assert(a + b =~= a);
    } else {
        assert((a + b).drop_last() =~= a + b.drop_last());
        assert((a + b).last() == b.last());
        lemma_occurrences_concat(a, b.drop_last(), c);
    }
}

/// A single word made of text, one `@` and more text that holds a `.` is an
/// e-mail address, when the part before the `@` holds no `:` (so it does
/// not start with a URL scheme).
pub proof fn lemma_email_addresses(s: Seq<char>, user: Seq<char>, host: Seq<char>)
    requires
        trim(s) == user + "@"@ + host,
        user.len() > 0,
        host.len() > 0,
        !user.contains('@'),
        !host.contains('@'),
        !user.contains(' '),
        !host.contains(' '),
        !user.contains(':'),
        host.contains('.'),
    ensures
        detected(s) == ClipboardType::Email,
{
    reveal_strlit("@");
    reveal_strlit("http://");
    reveal_strlit("https://");
    reveal_strlit("ftp://");
    reveal_strlit("file://");
    let t = trim(s);
    let at = user.len() as int;
    assert(t[at] == '@');
    assert forall|i: int| 0 <= i < at implies t[i] == user[i] by {}
    assert forall|scheme: Seq<char>|
        (scheme == "http://"@ || scheme == "https://"@ || scheme == "ftp://"@ || scheme == "file://"@)
        implies !#[trigger] is_prefix(scheme, t) by {
        if is_prefix(scheme, t) {
            let k: int = if scheme == "ftp://"@ { 3 } else if scheme == "https://"@ { 5 } else { 4 };
            assert(scheme[k] == ':');
            assert(forall|i: int| 0 <= i < scheme.len() ==> scheme[i] != '@');
            assert(t.subrange(0, scheme.len() as int)[k] == t[k]);
            if k < at {
                assert(user[k] == ':');
                assert(user.contains(':'));
            } else {
                assert(t.subrange(0, scheme.len() as int)[at] == t[at]);
            }
        }
    }
    lemma_occurrences_absent(user, '@');
    lemma_occurrences_absent(host, '@');
    lemma_occurrences_concat(user, "@"@, '@');
    lemma_occurrences_concat(user + "@"@, host, '@');
    assert(occurrences("@"@, '@') == 1) by {
        assert("@"@.len() == 1 && "@"@[0] == '@');
        assert("@"@.drop_last() =~= Seq::<char>::empty());
        assert(occurrences(Seq::<char>::empty(), '@') == 0);
        assert(occurrences("@"@.drop_last(), '@') == 0);
    }
    assert(t.contains('@'));
    let j = choose|j: int| 0 <= j < host.len() && host[j] == '.';
    assert(t[at + 1 + j] == '.');
    assert(!t.contains(' ')) by {
        if t.contains(' ') {
            let i = choose|i: int| 0 <= i < t.len() && t[i] == ' ';
            if i < at {
                assert(user[i] == ' ');
            } else if i > at {
                assert(host[i - at - 1] == ' ');
            }
        }
    }
    assert(t[0] == user[0]);
    assert(user[0] != '@') by {
        if user[0] == '@' {
            assert(user.contains('@'));
        }
    }
    assert(t.last() == host.last());
    assert(host.last() != '@') by {
        if host.last() == '@' {
            assert(host[host.len() - 1] == '@');
        }
    }
}

/// How many times `c` occurs in `v`.
fn count_char(v: &Vec<char>, c: char) -> (n: usize)
    ensures
        n == occurrences(v@, c),
{
    let mut n: usize = 0;
    let mut i: usize = 0;
    while i < v.len()
        invariant
            i <= v@.len(),
            n == occurrences(v@.subrange(0, i as int), c),
            n <= i,
        decreases v.len() - i,
    {
        assert(v@.subrange(0, i + 1).drop_last() =~= v@.subrange(0, i as int));
        if v[i] == c {
            n = n + 1;
        }
        i = i + 1;
    }
    assert(v@.subrange(0, v@.len() as int) =~= v@);
    n
}

/// The code markers.
fn code_marker_table() -> (t: Vec<&'static str>)
    ensures
        t@.len() == code_markers().len(),
        forall|i: int| 0 <= i < t@.len() ==> (#[trigger] t@[i])@ == code_markers()[i],
{
    let mut t: Vec<&'static str> = Vec::new();
    t.push("fn ");
    t.push("func ");
    t.push("function ");
    t.push("def ");
    t.push("class ");
    t.push("interface ");
    t.push("import ");
    t.push("from ");
    t.push("use ");
    t.push("#include");
    t.push("const ");
    t.push("let ");
    t.push("var ");
    t.push("public ");
    t.push("private ");
    t.push("{");
    t.push("}");
    t.push("=>");
    t.push("->");
    t.push("//");
    t.push("/*");
    t.push("*/");
    t
}

impl ClipboardType {
    /// Detect the content type of a text
    pub fn detect(content: &str) -> (r: ClipboardType)
        ensures
            r == detected(content@),
    {
        let t = trim_chars(&chars_of(content));
        if starts_with(&t, &chars_of("http://")) || starts_with(&t, &chars_of("https://")) || starts_with(
            &t,
            &chars_of("ftp://"),
        ) || starts_with(&t, &chars_of("file://")) {
            return ClipboardType::Url;
        }
        if has_char(&t, '@') && has_char(&t, '.') && !has_char(&t, ' ') {
            if count_char(&t, '@') == 1 && t[0] != '@' && t[t.len() - 1] != '@' {
                return ClipboardType::Email;
            }
        }
        if starts_with(&t, &chars_of("/")) || starts_with(&t, &chars_of("~/")) || (t.len() > 1 && byte_len_capped(&t, 2) > 2
            && t[1] == ':') {
            return ClipboardType::Path;
        }
        let markers = code_marker_table();
        let mut i: usize = 0;
        while i < markers.len()
            invariant
                i <= markers@.len(),
                t@ == trim(content@),
                !(is_prefix("http://"@, t@) || is_prefix("https://"@, t@) || is_prefix("ftp://"@, t@) || is_prefix("file://"@, t@)),
                !looks_like_email(t@),
                !(is_prefix("/"@, t@) || is_prefix("~/"@, t@) || (byte_len(t@) > 2 && t@.len() > 1 && t@[1] == ':')),
                markers@.len() == code_markers().len(),
                forall|k: int| 0 <= k < markers@.len() ==> (#[trigger] markers@[k])@ == code_markers()[k],
                forall|k: int| 0 <= k < i ==> !contains_sub(t@, #[trigger] code_markers()[k]),
            decreases markers.len() - i,
        {
            if contains(&t, &chars_of(markers[i])) {
                assert(contains_sub(t@, code_markers()[i as int]));
                return ClipboardType::Code;
            }
            i = i + 1;
        }
        ClipboardType::Text
    }
}

/// Clipboard entry with metadata
#[derive(Debug, Clone)]
pub struct ClipboardEntry {
    /// The copied content
    pub content: String,
    /// When this entry was copied, in milliseconds since the Unix epoch
    pub timestamp: i64,
    /// Source of the copy (e.g., terminal id)
    pub source: Option<String>,
    /// Detected content type
    pub content_type: ClipboardType,
    /// Whether this entry is pinned
    pub pinned: bool,
    /// Optional user label for pinned items
    pub label: Option<String>,
}

/// Whether an entry matches a search query, ignoring case: the lowercase query
/// occurs in the lowercase content, label or source.
pub open spec fn entry_hit(e: ClipboardEntry, q: Seq<char>) -> bool {
    let ql = lowercase(q);
    ||| contains_sub(lowercase(e.content@), ql)
    ||| (e.label matches Some(l) && contains_sub(lowercase(l@), ql))
    ||| (e.source matches Some(s) && contains_sub(lowercase(s@), ql))
}

/// The first line of a text, or nothing.
pub open spec fn first_line(s: Seq<char>) -> Seq<char> {
    if lines_of(s).len() > 0 { lines_of(s)[0] } else { seq![] }
}

impl ClipboardEntry {
    /// A new entry copied at time `now`
    pub fn new_at(content: String, source: Option<String>, now: i64) -> (e: Self)
        ensures
            e == (ClipboardEntry {
                content,
                timestamp: now,
                source,
                content_type: detected(content@),
                pinned: false,
                label: None,
            }),
    {
        let content_type = ClipboardType::detect(content.as_str());
        ClipboardEntry { content, timestamp: now, source, content_type, pinned: false, label: None }
    }

    /// Create a new clipboard entry, copied now
    pub fn new(content: String, source: Option<String>) -> (e: Self)
        ensures
            e.content == content,
            e.source == source,
            e.content_type == detected(content@),
            !e.pinned,
            e.label is None,
    {
        let now = unix_millis();
        Self::new_at(content, source, now)
    }

    /// Create a pinned entry
    pub fn pinned(content: String, label: Option<String>) -> (e: Self)
        ensures
            e.content == content,
            e.source is None,
            e.content_type == detected(content@),
            e.pinned,
            e.label == label,
    {
        let content_type = ClipboardType::detect(content.as_str());
        ClipboardEntry { content, timestamp: unix_millis(), source: None, content_type, pinned: true, label }
    }

    /// The first line of the content, cut after `max_len` bytes with `...`
    /// added
    pub fn preview(&self, max_len: usize) -> (r: String)
        requires
            max_len < usize::MAX - 4,
            byte_len(first_line(self.content@)) > max_len ==> byte_boundary(first_line(self.content@), max_len as nat),
        ensures
            r@ == if byte_len(first_line(self.content@)) > max_len {
                first_line(self.content@).subrange(0, chars_in_bytes(first_line(self.content@), max_len as nat)) + "..."@
            } else {
                first_line(self.content@)
            },
    {
        let lines = lines_of_str(self.content.as_str());
        let first = if lines.len() > 0 { chars_of(lines[0].as_str()) } else { Vec::new() };
        assert(first@ == first_line(self.content@));
        if byte_len_capped(&first, max_len) > max_len {
            let head = byte_prefix(&first, max_len);
            let mut r = string_of(&head);
            push_str(&mut r, "...");
            r
        } else {
            string_of(&first)
        }
    }

    /// Check if the entry matches a search query
    pub fn matches(&self, query: &str) -> (r: bool)
        ensures
            r == entry_hit(*self, query@),
    {
        let ql = chars_of(to_lowercase(query).as_str());
        if contains(&chars_of(to_lowercase(self.content.as_str()).as_str()), &ql) {
            return true;
        }
        match &self.label {
            Some(l) => {
                if contains(&chars_of(to_lowercase(l.as_str()).as_str()), &ql) {
                    return true;
                }
            },
            None => {},
        }
        match &self.source {
            Some(s) => contains(&chars_of(to_lowercase(s.as_str()).as_str()), &ql),
            None => false,
        }
    }
}

} // verus!

verus! {

/// The entries with those holding `c` dropped, unless pinned.
pub open spec fn without_copies(es: Seq<ClipboardEntry>, c: Seq<char>) -> Seq<ClipboardEntry>
    decreases es.len(),
{
    if es.len() == 0 {
        seq![]
    } else {
        let rest = without_copies(es.drop_last(), c);
        if es.last().content@ != c || es.last().pinned { rest.push(es.last()) } else { rest }
    }
}

/// Number of unpinned entries.
pub open spec fn unpinned_count(es: Seq<ClipboardEntry>) -> nat
    decreases es.len(),
{
    if es.len() == 0 {
        0
    } else {
        unpinned_count(es.drop_last()) + if es.last().pinned { 0nat } else { 1nat }
    }
}

/// The entries with the first `k` unpinned ones dropped.
pub open spec fn drop_oldest(es: Seq<ClipboardEntry>, k: nat) -> Seq<ClipboardEntry>
    decreases es.len(),
{
    if es.len() == 0 || k == 0 {
        es
    } else if es[0].pinned {
        seq![es[0]] + drop_oldest(es.drop_first(), k)
    } else {
        drop_oldest(es.drop_first(), (k - 1) as nat)
    }
}

/// The entries with the oldest unpinned ones dropped until at most `max`
/// unpinned remain.
pub open spec fn trimmed(es: Seq<ClipboardEntry>, max: nat) -> Seq<ClipboardEntry> {
    if unpinned_count(es) > max { drop_oldest(es, (unpinned_count(es) - max) as nat) } else { es }
}

/// Counting the unpinned entries from the front.
proof fn lemma_unpinned_front(es: Seq<ClipboardEntry>)
    requires
        es.len() > 0,
    ensures
        unpinned_count(es) == unpinned_count(es.drop_first()) + if es[0].pinned { 0nat } else { 1nat },
    decreases es.len(),
{
    if es.len() > 1 {
        lemma_unpinned_front(es.drop_last());
        assert(es.drop_last().drop_first() =~= es.drop_first().drop_last());
        assert(es.drop_first().last() == es.last());
        assert(es.drop_last()[0] == es[0]);
        assert(unpinned_count(es.drop_first()) == unpinned_count(es.drop_first().drop_last())
            + if es.drop_first().last().pinned { 0nat } else { 1nat });
        assert(unpinned_count(es.drop_last()) == unpinned_count(es.drop_last().drop_first())
            + if es[0].pinned { 0nat } else { 1nat });
    } else {
        assert(es.drop_first().len() == 0);
        assert(es.drop_last().len() == 0);
        assert(unpinned_count(es.drop_first()) == 0);
        assert(unpinned_count(es.drop_last()) == 0);
        assert(es.last() == es[0]);
    }
}

/// Dropping the `k` oldest unpinned entries leaves `k` fewer unpinned ones
/// and every pinned one.
proof fn lemma_drop_oldest_keeps_pinned(es: Seq<ClipboardEntry>, k: nat, e: ClipboardEntry)
    requires
        k <= unpinned_count(es),
    ensures
        unpinned_count(drop_oldest(es, k)) == unpinned_count(es) - k,
        es.contains(e) && e.pinned ==> drop_oldest(es, k).contains(e),
    decreases es.len(),
{
    if es.len() > 0 && k > 0 {
        lemma_unpinned_front(es);
        let rest = es.drop_first();
        if es[0].pinned {
            lemma_drop_oldest_keeps_pinned(rest, k, e);
            let d = drop_oldest(rest, k);
            let n = seq![es[0]] + d;
            assert(n.drop_first() =~= d);
            lemma_unpinned_front(n);
            if es.contains(e) && e.pinned {
                let i = choose|i: int| 0 <= i < es.len() && es[i] == e;
                if i == 0 {
                    assert(n[0] == e);
                } else {
                    assert(rest[i - 1] == e);
                    let j = choose|j: int| 0 <= j < d.len() && d[j] == e;
                    assert(n[j + 1] == e);
                }
            }
        } else {
            lemma_drop_oldest_keeps_pinned(rest, (k - 1) as nat, e);
            if es.contains(e) && e.pinned {
                let i = choose|i: int| 0 <= i < es.len() && es[i] == e;
                assert(i != 0);
                assert(rest[i - 1] == e);
            }
        }
    }
}

/// Trimming keeps at most `max` unpinned entries, and as many as there
/// were up to that limit, and keeps every pinned entry.
pub proof fn lemma_trim_keeps_pinned(es: Seq<ClipboardEntry>, max: nat, e: ClipboardEntry)
    ensures
        unpinned_count(trimmed(es, max)) == if unpinned_count(es) > max { max } else { unpinned_count(es) },
        es.contains(e) && e.pinned ==> trimmed(es, max).contains(e),
{
    if unpinned_count(es) > max {
        lemma_drop_oldest_keeps_pinned(es, (unpinned_count(es) - max) as nat, e);
    }
}

/// The entries of `es` that satisfy `f`, in order.
pub open spec fn kept_entries(es: Seq<ClipboardEntry>, f: spec_fn(ClipboardEntry) -> bool) -> Seq<ClipboardEntry>
    decreases es.len(),
{
    if es.len() == 0 {
        seq![]
    } else if f(es.last()) {
        kept_entries(es.drop_last(), f).push(es.last())
    } else {
        kept_entries(es.drop_last(), f)
    }
}

/// The byte length of a text, as `str::len` gives it.
pub open spec fn text_len(s: Seq<char>) -> usize {
    vstd::utf8::encode_utf8(s).len() as usize
}

/// Clipboard history manager
#[derive(Debug, Clone)]
pub struct ClipboardHistory {
    entries: Vec<ClipboardEntry>,
    file_path: Option<String>,
    max_size: usize,
    deduplicate: bool,
    min_length: usize,
    max_length: usize,
}

impl ClipboardHistory {
    /// The entries, oldest first.
    pub closed spec fn items(&self) -> Seq<ClipboardEntry> {
        self.entries@
    }

    /// The most unpinned entries kept.
    pub closed spec fn capacity(&self) -> usize {
        self.max_size
    }

    /// Whether copies of the same content are dropped.
    pub closed spec fn dedups(&self) -> bool {
        self.deduplicate
    }

    /// The shortest content accepted, in bytes.
    pub closed spec fn min_len(&self) -> usize {
        self.min_length
    }

    /// The longest content accepted, in bytes.
    pub closed spec fn max_len(&self) -> usize {
        self.max_length
    }

    /// The file the history is kept in, once one is known.
    pub closed spec fn path(&self) -> Option<Seq<char>> {
        match self.file_path {
            Some(p) => Some(p@),
            None => None,
        }
    }

    /// Create a new clipboard history
    pub fn new(max_size: usize) -> (h: Self)
        ensures
            h.items() == Seq::<ClipboardEntry>::empty(),
            h.path() is None,
            h.capacity() == max_size,
            h.dedups(),
            h.min_len() == 1,
            h.max_len() == 1_000_000,
    {
        ClipboardHistory { entries: Vec::new(), file_path: None, max_size, deduplicate: true, min_length: 1, max_length: 1_000_000 }
    }

    /// Create with custom configuration
    pub fn with_config(max_size: usize, deduplicate: bool, min_length: usize, max_length: usize) -> (h: Self)
        ensures
            h.items() == Seq::<ClipboardEntry>::empty(),
            h.path() is None,
            h.capacity() == max_size,
            h.dedups() == deduplicate,
            h.min_len() == min_length,
            h.max_len() == max_length,
    {
        ClipboardHistory { entries: Vec::new(), file_path: None, max_size, deduplicate, min_length, max_length }
    }

    /// Drops the oldest unpinned entries beyond the maximum.
    fn trim_to_size(&mut self)
        ensures
            final(self).items() == trimmed(old(self).items(), old(self).capacity() as nat),
            final(self).capacity() == old(self).capacity(),
            final(self).dedups() == old(self).dedups(),
            final(self).min_len() == old(self).min_len(),
            final(self).max_len() == old(self).max_len(),
            final(self).path() == old(self).path(),
    {
        let ghost es = self.entries@;
        let mut unpinned: usize = 0;
        let mut i: usize = 0;
        while i < self.entries.len()
            invariant
                i <= self.entries@.len(),
                unpinned == unpinned_count(self.entries@.subrange(0, i as int)),
                unpinned <= i,
            decreases self.entries.len() - i,
        {
            assert(self.entries@.subrange(0, i + 1).drop_last() =~= self.entries@.subrange(0, i as int));
            if !self.entries[i].pinned {
                unpinned = unpinned + 1;
            }
            i = i + 1;
        }
        assert(self.entries@.subrange(0, self.entries@.len() as int) =~= self.entries@);
        if unpinned > self.max_size {
            let to_remove = unpinned - self.max_size;
            let mut rest: Vec<ClipboardEntry> = Vec::new();
            std::mem::swap(&mut rest, &mut self.entries);
            let mut kept: Vec<ClipboardEntry> = Vec::new();
            let mut removed: usize = 0;
            let ghost mut front: Seq<ClipboardEntry> = seq![];
            assert(rest@ == es);
            assert(front + drop_oldest(rest@, (to_remove - removed) as nat) =~= drop_oldest(es, to_remove as nat));
            while rest.len() > 0
                invariant
                    removed <= to_remove,
                    kept@ + drop_oldest(rest@, (to_remove - removed) as nat) == drop_oldest(es, to_remove as nat),
                decreases rest.len(),
            {
                let ghost r0 = rest@;
                let e = rest.remove(0);
                assert(r0.drop_first() =~= rest@);
                if e.pinned || removed >= to_remove {
                    proof {
                        if !(r0.len() == 0 || to_remove - removed == 0) {
                            assert(drop_oldest(r0, (to_remove - removed) as nat) =~= seq![e] + drop_oldest(rest@, (to_remove - removed) as nat));
                        } else {
                            assert(removed == to_remove);
                            lemma_drop_none(rest@);
                            assert(drop_oldest(r0, 0) == r0);
                            assert(r0 =~= seq![e] + rest@);
                        }
                    }
                    kept.push(e);
                    assert(kept@ + drop_oldest(rest@, (to_remove - removed) as nat) =~= drop_oldest(es, to_remove as nat));
                } else {
                    removed = removed + 1;
                }
            }
            self.entries = kept;
            assert(self.entries@ =~= drop_oldest(es, to_remove as nat));
        }
    }

    /// Add content to the history; refused (and `false`) when it is shorter or
    /// longer than allowed, or only whitespace
    pub fn add_at(&mut self, content: String, source: Option<String>, now: i64) -> (r: bool)
        ensures
            final(self).capacity() == old(self).capacity(),
            final(self).dedups() == old(self).dedups(),
            final(self).min_len() == old(self).min_len(),
            final(self).max_len() == old(self).max_len(),
            final(self).path() == old(self).path(),
            r == (old(self).min_len() <= text_len(content@) <= old(self).max_len() && trim(content@).len() > 0),
            !r ==> final(self).items() == old(self).items(),
            r ==> final(self).items() == trimmed(
                (if old(self).dedups() { without_copies(old(self).items(), content@) } else { old(self).items() }).push(
                    ClipboardEntry { content, timestamp: now, source, content_type: detected(content@), pinned: false, label: None }),
                old(self).capacity() as nat,
            ),
    {
        let n = content.as_str().len();
        if n < self.min_length || n > self.max_length {
            return false;
        }
        let cv = chars_of(content.as_str());
        if trim_chars(&cv).len() == 0 {
            return false;
        }
        if self.deduplicate {
            self.drop_copies(&cv);
        }
        let entry = ClipboardEntry::new_at(content, source, now);
        self.entries.push(entry);
        self.trim_to_size();
        true
    }

    /// Add content to the history, copied now
    pub fn add(&mut self, content: String, source: Option<String>) -> (r: bool)
        ensures
            final(self).capacity() == old(self).capacity(),
            final(self).dedups() == old(self).dedups(),
            final(self).min_len() == old(self).min_len(),
            final(self).max_len() == old(self).max_len(),
            final(self).path() == old(self).path(),
            r == (old(self).min_len() <= text_len(content@) <= old(self).max_len() && trim(content@).len() > 0),
            !r ==> final(self).items() == old(self).items(),
            r ==> exists|now: i64| final(self).items() == trimmed(
                (if old(self).dedups() { without_copies(old(self).items(), content@) } else { old(self).items() }).push(
                    ClipboardEntry { content, timestamp: now, source, content_type: detected(content@), pinned: false, label: None }),
                old(self).capacity() as nat,
            ),
    {
        let now = unix_millis();
        self.add_at(content, source, now)
    }

    /// Drops the unpinned entries that hold `c`.
    fn drop_copies(&mut self, c: &Vec<char>)
        ensures
            final(self).items() == without_copies(old(self).items(), c@),
            final(self).capacity() == old(self).capacity(),
            final(self).dedups() == old(self).dedups(),
            final(self).min_len() == old(self).min_len(),
            final(self).max_len() == old(self).max_len(),
            final(self).path() == old(self).path(),
    {
        let mut rest: Vec<ClipboardEntry> = Vec::new();
        std::mem::swap(&mut rest, &mut self.entries);
        let count = rest.len();
        let ghost all = rest@;
        let mut kept: Vec<ClipboardEntry> = Vec::new();
        let mut i: usize = 0;
        assert(all.subrange(0, 0) =~= Seq::<ClipboardEntry>::empty());
        assert(all.subrange(0, all.len() as int) =~= all);
        while rest.len() > 0
            invariant
                i <= all.len(),
                all.len() == count,
                rest@ == all.subrange(i as int, all.len() as int),
                kept@ == without_copies(all.subrange(0, i as int), c@),
            decreases rest.len(),
        {
            let e = rest.remove(0);
            assert(e == all[i as int]);
            assert(all.subrange(0, i + 1).drop_last() =~= all.subrange(0, i as int));
            if e.pinned || !crate::text::seq_eq(&chars_of(e.content.as_str()), c) {
                kept.push(e);
            }
            i = i + 1;
            assert(rest@ =~= all.subrange(i as int, all.len() as int));
        }
        assert(all.subrange(0, all.len() as int) =~= all);
        self.entries = kept;
    }
}

/// Dropping no entry keeps them all.
proof fn lemma_drop_none(es: Seq<ClipboardEntry>)
    ensures
        drop_oldest(es, 0) == es,
{
}

} // verus!

verus! {

/// Whether an entry is pinned.
pub open spec fn is_pinned(e: ClipboardEntry) -> bool {
    e.pinned
}

/// The entries kept in the history file: the pinned ones, then the last
/// `max` unpinned ones.
pub open spec fn saved_entries(es: Seq<ClipboardEntry>, max: nat) -> Seq<ClipboardEntry> {
    let p = kept_entries(es, |e: ClipboardEntry| e.pinned);
    let u = kept_entries(es, |e: ClipboardEntry| !e.pinned);
    p + if u.len() > max { u.subrange(u.len() - max, u.len() as int) } else { u }
}

/// The references' entries.
pub open spec fn entry_derefs(s: Seq<&ClipboardEntry>) -> Seq<ClipboardEntry> {
    s.map_values(|r: &ClipboardEntry| *r)
}

/// The contents of `es`, each once, in order of first occurrence.
pub open spec fn distinct_contents(seen: Seq<Seq<char>>, es: Seq<ClipboardEntry>) -> Seq<Seq<char>>
    decreases es.len(),
{
    if es.len() == 0 {
        seen
    } else if seen.contains(es[0].content@) {
        distinct_contents(seen, es.drop_first())
    } else {
        distinct_contents(seen.push(es[0].content@), es.drop_first())
    }
}

impl ClipboardHistory {
    /// References to the entries that satisfy `which`: pinned (0), unpinned
    /// (1), matching `query` (2), of type `t` (3), all (4).
    fn select<'a>(&'a self, which: u8, query: &str, t: ClipboardType) -> (r: Vec<&'a ClipboardEntry>)
        requires
            which < 5,
        ensures
            entry_derefs(r@) == kept_entries(self.items(), if which == 0 {
                |e: ClipboardEntry| e.pinned
            } else if which == 1 {
                |e: ClipboardEntry| !e.pinned
            } else if which == 2 {
                |e: ClipboardEntry| entry_hit(e, query@)
            } else if which == 3 {
                |e: ClipboardEntry| e.content_type == t
            } else {
                |e: ClipboardEntry| true
            }),
    {
        let ghost f = if which == 0 {
            |e: ClipboardEntry| e.pinned
        } else if which == 1 {
            |e: ClipboardEntry| !e.pinned
        } else if which == 2 {
            |e: ClipboardEntry| entry_hit(e, query@)
        } else if which == 3 {
            |e: ClipboardEntry| e.content_type == t
        } else {
            |e: ClipboardEntry| true
        };
        let mut r: Vec<&'a ClipboardEntry> = Vec::new();
        let mut i: usize = 0;
        while i < self.entries.len()
            invariant
                i <= self.entries@.len(),
                which < 5,
                f == (if which == 0 {
                    |e: ClipboardEntry| e.pinned
                } else if which == 1 {
                    |e: ClipboardEntry| !e.pinned
                } else if which == 2 {
                    |e: ClipboardEntry| entry_hit(e, query@)
                } else if which == 3 {
                    |e: ClipboardEntry| e.content_type == t
                } else {
                    |e: ClipboardEntry| true
                }),
                entry_derefs(r@) == kept_entries(self.entries@.subrange(0, i as int), f),
            decreases self.entries.len() - i,
        {
            let e = &self.entries[i];
            let keep = if which == 0 {
                e.pinned
            } else if which == 1 {
                !e.pinned
            } else if which == 2 {
                e.matches(query)
            } else if which == 3 {
                e.content_type == t
            } else {
                true
            };
            assert(keep == f(*e));
            assert(self.entries@.subrange(0, i + 1).drop_last() =~= self.entries@.subrange(0, i as int));
            if keep {
                r.push(e);
            }
            i = i + 1;
            assert(entry_derefs(r@) =~= kept_entries(self.entries@.subrange(0, i as int), f));
        }
        assert(self.entries@.subrange(0, self.entries@.len() as int) =~= self.entries@);
        r
    }

    /// Pin an entry by index, with a label
    pub fn pin(&mut self, index: usize, label: Option<String>) -> (r: bool)
        ensures
            r == (index < old(self).items().len()),
            r ==> final(self).items() == old(self).items().update(index as int, ClipboardEntry {
                pinned: true,
                label,
                ..old(self).items()[index as int]
            }),
            !r ==> final(self).items() == old(self).items(),
            final(self).capacity() == old(self).capacity(),
            final(self).path() == old(self).path(),
    {
        if index < self.entries.len() {
            let mut e = self.entries.remove(index);
            e.pinned = true;
            e.label = label;
            self.entries.insert(index, e);
            true
        } else {
            false
        }
    }

    /// Unpin an entry by index
    pub fn unpin(&mut self, index: usize) -> (r: bool)
        ensures
            r == (index < old(self).items().len()),
            r ==> final(self).items() == old(self).items().update(index as int, ClipboardEntry {
                pinned: false,
                ..old(self).items()[index as int]
            }),
            !r ==> final(self).items() == old(self).items(),
            final(self).capacity() == old(self).capacity(),
            final(self).path() == old(self).path(),
    {
        if index < self.entries.len() {
            let mut e = self.entries.remove(index);
            e.pinned = false;
            self.entries.insert(index, e);
            true
        } else {
            false
        }
    }

    /// Toggle the pin of an entry; a newly pinned entry takes the label
    pub fn toggle_pin(&mut self, index: usize, label: Option<String>) -> (r: bool)
        ensures
            r == (index < old(self).items().len()),
            r ==> final(self).items() == old(self).items().update(index as int, {
                let e = old(self).items()[index as int];
                if e.pinned { ClipboardEntry { pinned: false, ..e } } else { ClipboardEntry { pinned: true, label, ..e } }
            }),
            !r ==> final(self).items() == old(self).items(),
            final(self).capacity() == old(self).capacity(),
            final(self).path() == old(self).path(),
    {
        if index < self.entries.len() {
            let mut e = self.entries.remove(index);
            e.pinned = !e.pinned;
            if e.pinned {
                e.label = label;
            }
            self.entries.insert(index, e);
            true
        } else {
            false
        }
    }

    /// Get all pinned entries
    pub fn pinned(&self) -> (r: Vec<&ClipboardEntry>)
        ensures
            entry_derefs(r@) == kept_entries(self.items(), |e: ClipboardEntry| e.pinned),
    {
        self.select(0, "", ClipboardType::Text)
    }

    /// Get all unpinned entries
    pub fn unpinned(&self) -> (r: Vec<&ClipboardEntry>)
        ensures
            entry_derefs(r@) == kept_entries(self.items(), |e: ClipboardEntry| !e.pinned),
    {
        self.select(1, "", ClipboardType::Text)
    }

    /// Search entries by query; an empty query gives every entry
    pub fn search(&self, query: &str) -> (r: Vec<&ClipboardEntry>)
        ensures
            entry_derefs(r@) == if query@.len() == 0 {
                self.items()
            } else {
                kept_entries(self.items(), |e: ClipboardEntry| entry_hit(e, query@))
            },
    {
        if query.unicode_len() == 0 {
            let r = self.select(4, "", ClipboardType::Text);
            proof {
                lemma_kept_all_entries(self.items());
            }
            return r;
        }
        self.select(2, query, ClipboardType::Text)
    }

    /// Filter entries by content type
    pub fn filter_by_type(&self, content_type: ClipboardType) -> (r: Vec<&ClipboardEntry>)
        ensures
            entry_derefs(r@) == kept_entries(self.items(), |e: ClipboardEntry| e.content_type == content_type),
    {
        self.select(3, "", content_type)
    }

    /// The `n` most recent entries, newest first
    pub fn recent(&self, n: usize) -> (r: Vec<&ClipboardEntry>)
        ensures
            entry_derefs(r@) == (if self.items().len() > n {
                self.items().subrange(self.items().len() - n, self.items().len() as int)
            } else {
                self.items()
            }).reverse(),
    {
        let len = self.entries.len();
        let start = if len > n { len - n } else { 0 };
        let ghost tail = self.entries@.subrange(start as int, len as int);
        let mut r: Vec<&ClipboardEntry> = Vec::new();
        let mut i: usize = len;
        while i > start
            invariant
                start <= i <= len,
                len == self.entries@.len(),
                r@.len() == len - i,
                forall|k: int| 0 <= k < r@.len() ==> *(#[trigger] r@[k]) == self.entries@[len - 1 - k],
            decreases i,
        {
            i = i - 1;
            r.push(&self.entries[i]);
        }
        assert(entry_derefs(r@) =~= (if self.items().len() > n {
            self.items().subrange(self.items().len() - n, self.items().len() as int)
        } else {
            self.items()
        }).reverse());
        r
    }

    /// Get an entry by index
    pub fn get(&self, index: usize) -> (r: Option<&ClipboardEntry>)
        ensures
            match r {
                Some(e) => index < self.items().len() && *e == self.items()[index as int],
                None => index >= self.items().len(),
            },
    {
        if index < self.entries.len() {
            Some(&self.entries[index])
        } else {
            None
        }
    }

    /// Get mutable entry by index
    pub fn get_mut(&mut self, index: usize) -> (r: Option<&mut ClipboardEntry>)
        ensures
            final(self).capacity() == old(self).capacity(),
            final(self).dedups() == old(self).dedups(),
            final(self).min_len() == old(self).min_len(),
            final(self).max_len() == old(self).max_len(),
            final(self).path() == old(self).path(),
            match r {
                Some(e) => index < old(self).items().len() && *e == old(self).items()[index as int]
                    && final(self).items() == old(self).items().update(index as int, *final(e)),
                None => index >= old(self).items().len() && final(self).items() == old(self).items(),
            },
    {
        if index < self.entries.len() {
            Some(&mut self.entries[index])
        } else {
            None
        }
    }

    /// Get all entries, oldest first
    pub fn all(&self) -> (r: &[ClipboardEntry])
        ensures
            r@ == self.items(),
    {
        self.entries.as_slice()
    }

    /// Remove an entry by index
    pub fn remove(&mut self, index: usize) -> (r: Option<ClipboardEntry>)
        ensures
            match r {
                Some(e) => index < old(self).items().len() && e == old(self).items()[index as int]
                    && final(self).items() == old(self).items().remove(index as int),
                None => index >= old(self).items().len() && final(self).items() == old(self).items(),
            },
            final(self).capacity() == old(self).capacity(),
            final(self).path() == old(self).path(),
    {
        if index < self.entries.len() {
            Some(self.entries.remove(index))
        } else {
            None
        }
    }

    /// Clear all unpinned entries
    pub fn clear_unpinned(&mut self)
        ensures
            final(self).items() == kept_entries(old(self).items(), |e: ClipboardEntry| e.pinned),
            final(self).capacity() == old(self).capacity(),
            final(self).path() == old(self).path(),
    {
        let mut rest: Vec<ClipboardEntry> = Vec::new();
        std::mem::swap(&mut rest, &mut self.entries);
        let count = rest.len();
        let ghost all = rest@;
        let mut kept: Vec<ClipboardEntry> = Vec::new();
        let mut i: usize = 0;
        assert(all.subrange(0, all.len() as int) =~= all);
        while rest.len() > 0
            invariant
                i <= all.len(),
                all.len() == count,
                rest@ == all.subrange(i as int, all.len() as int),
                kept@ == kept_entries(all.subrange(0, i as int), |e: ClipboardEntry| e.pinned),
            decreases rest.len(),
        {
            let e = rest.remove(0);
            assert(e == all[i as int]);
            assert(all.subrange(0, i + 1).drop_last() =~= all.subrange(0, i as int));
            if e.pinned {
                kept.push(e);
            }
            i = i + 1;
            assert(rest@ =~= all.subrange(i as int, all.len() as int));
        }
        self.entries = kept;
    }

    /// Clear all entries
    pub fn clear(&mut self)
        ensures
            final(self).items() == Seq::<ClipboardEntry>::empty(),
            final(self).capacity() == old(self).capacity(),
            final(self).path() == old(self).path(),
    {
        self.entries = Vec::new();
    }

    /// Get number of entries
    pub fn len(&self) -> (n: usize)
        ensures
            n == self.items().len(),
    {
        self.entries.len()
    }

    /// Check if history is empty
    pub fn is_empty(&self) -> (r: bool)
        ensures
            r == (self.items().len() == 0),
    {
        self.entries.len() == 0
    }

    /// Get count of pinned entries
    pub fn pinned_count(&self) -> (n: usize)
        ensures
            n == kept_entries(self.items(), |e: ClipboardEntry| e.pinned).len(),
    {
        self.pinned().len()
    }

    /// The distinct contents of the entries, in order of first occurrence
    pub fn unique_contents(&self) -> (r: Vec<String>)
        ensures
            r@.len() == distinct_contents(seq![], self.items()).len(),
            forall|i: int| 0 <= i < r@.len() ==> (#[trigger] r@[i])@ == distinct_contents(seq![], self.items())[i],
    {
        let mut r: Vec<String> = Vec::new();
        let ghost mut seen: Seq<Seq<char>> = seq![];
        let mut i: usize = 0;
        assert(self.entries@.subrange(0, self.entries@.len() as int) =~= self.entries@);
        while i < self.entries.len()
            invariant
                i <= self.entries@.len(),
                r@.len() == seen.len(),
                forall|k: int| 0 <= k < r@.len() ==> (#[trigger] r@[k])@ == seen[k],
                distinct_contents(seq![], self.entries@) == distinct_contents(seen, self.entries@.subrange(i as int, self.entries@.len() as int)),
            decreases self.entries.len() - i,
        {
            let ghost rest = self.entries@.subrange(i as int, self.entries@.len() as int);
            assert(rest.drop_first() =~= self.entries@.subrange(i + 1, self.entries@.len() as int));
            assert(rest[0] == self.entries@[i as int]);
            let c = chars_of(self.entries[i].content.as_str());
            let mut found = false;
            let mut k: usize = 0;
            while k < r.len()
                invariant
                    k <= r@.len(),
                    i < self.entries@.len(),
                    c@ == self.entries@[i as int].content@,
                    r@.len() == seen.len(),
                    forall|q: int| 0 <= q < r@.len() ==> (#[trigger] r@[q])@ == seen[q],
                    found == exists|q: int| 0 <= q < k && seen[q] == c@,
                decreases r.len() - k,
            {
                if crate::text::str_eq(r[k].as_str(), self.entries[i].content.as_str()) {
                    found = true;
                }
                k = k + 1;
            }
            proof {
                if seen.contains(c@) {
                    let q = choose|q: int| 0 <= q < seen.len() && seen[q] == c@;
                    assert(seen[q] == c@);
                }
            }
            if !found {
                r.push(owned(self.entries[i].content.as_str()));
                proof {
                    seen = seen.push(c@);
                }
            }
            i = i + 1;
        }
        assert(self.entries@.subrange(self.entries@.len() as int, self.entries@.len() as int) =~= Seq::<ClipboardEntry>::empty());
        r
    }

    /// The entries the history file keeps: the pinned ones, then the most
    /// recent unpinned ones up to the maximum
    pub fn entries_to_save(&self) -> (r: Vec<&ClipboardEntry>)
        ensures
            entry_derefs(r@) == saved_entries(self.items(), self.capacity() as nat),
    {
        let mut r = self.pinned();
        let u = self.unpinned();
        let start = if u.len() > self.max_size { u.len() - self.max_size } else { 0 };
        let ghost r0 = r@;
        let mut i = start;
        while i < u.len()
            invariant
                start <= i <= u@.len(),
                r@ == r0 + u@.subrange(start as int, i as int),
            decreases u.len() - i,
        {
            r.push(u[i]);
            i = i + 1;
            assert(r@ =~= r0 + u@.subrange(start as int, i as int));
        }
        assert(entry_derefs(r@) =~= entry_derefs(r0) + entry_derefs(u@).subrange(start as int, u@.len() as int));
        assert(entry_derefs(u@).subrange(0, entry_derefs(u@).len() as int) =~= entry_derefs(u@));
        r
    }

    /// Get the file path if set
    pub fn file_path(&self) -> (r: Option<&String>)
        ensures
            match r {
                Some(p) => self.path() == Some(p@),
                None => self.path() is None,
            },
    {
        match &self.file_path {
            Some(p) => Some(p),
            None => None,
        }
    }

    /// Replace the entries by those read from the file at `path`, which the
    /// history keeps from now on
    pub fn load_entries(&mut self, loaded: Vec<ClipboardEntry>, path: String)
        ensures
            final(self).items() == loaded@,
            final(self).path() == Some(path@),
            final(self).capacity() == old(self).capacity(),
            final(self).dedups() == old(self).dedups(),
            final(self).min_len() == old(self).min_len(),
            final(self).max_len() == old(self).max_len(),
    {
        self.entries = loaded;
        self.file_path = Some(path);
    }
}

/// Keeping every entry keeps them all.
proof fn lemma_kept_all_entries(es: Seq<ClipboardEntry>)
    ensures
        kept_entries(es, |e: ClipboardEntry| true) == es,
    decreases es.len(),
{
    if es.len() > 0 {
        lemma_kept_all_entries(es.drop_last());
        assert(es.drop_last().push(es.last()) =~= es);
    }
}

} // verus!
