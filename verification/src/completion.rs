//! Auto-completion
//!
//! Suggestions for commands (from the history and from the executables on
//! the search path), for files and directories, and from the history alone.
//! The directory listings and the search path are read by the caller, which
//! hands the engine plain names.

use vstd::prelude::*;
use vstd::relations::{sorted_by, total_ordering};
use crate::aliases::without;
use crate::strings::{lex_lt, lex_less, strictly_sorted, words, split_words, lemma_lex_total, lemma_lex_trans,
    lemma_lex_asymmetric, lemma_lex_irreflexive, lemma_sorted_insert};
use crate::text::{chars_of, owned, string_of, is_prefix, starts_with, trim, trim_str, to_lowercase, lowercase,
    str_eq, has_char, ends_with};

verus! {

/// A completion suggestion
#[derive(Debug, Clone, PartialEq, Eq)]
pub struct CompletionItem {
    pub text: String,
    pub kind: CompletionKind,
    pub description: Option<String>,
}

/// What a suggestion completes to
#[derive(Debug, Clone, Copy, PartialEq, Eq, Structural)]
pub enum CompletionKind {
    /// Executable/command
    Command,
    /// File
    File,
    /// Directory
    Directory,
    /// From history
    History,
    /// Shell alias
    Alias,
}

impl CompletionKind {
    /// Get display prefix for the completion kind
    pub fn prefix(&self) -> (s: &'static str)
        ensures
            s@ == match *self {
                CompletionKind::Command => "cmd"@,
                CompletionKind::File => "file"@,
                CompletionKind::Directory => "dir"@,
                CompletionKind::History => "hist"@,
                CompletionKind::Alias => "alias"@,
            },
    {
        match self {
            CompletionKind::Command => "cmd",
            CompletionKind::File => "file",
            CompletionKind::Directory => "dir",
            CompletionKind::History => "hist",
            CompletionKind::Alias => "alias",
        }
    }
}

/// The text of an optional string.
pub open spec fn opt_text(o: Option<String>) -> Option<Seq<char>> {
    match o {
        Some(s) => Some(s@),
        None => None,
    }
}

/// A suggestion as plain values: text, kind, description.
pub open spec fn item_view(i: CompletionItem) -> (Seq<char>, CompletionKind, Option<Seq<char>>) {
    (i.text@, i.kind, opt_text(i.description))
}

/// Suggestions as plain values.
pub open spec fn items_view(s: Seq<CompletionItem>) -> Seq<(Seq<char>, CompletionKind, Option<Seq<char>>)> {
    s.map_values(|i: CompletionItem| item_view(i))
}

/// The texts of some strings.
pub open spec fn texts(v: Seq<String>) -> Seq<Seq<char>> {
    v.map_values(|s: String| s@)
}

/// The first `n` elements (all of them if there are fewer).
pub open spec fn first_n<A>(s: Seq<A>, n: nat) -> Seq<A> {
    if s.len() <= n {
        s
    } else {
        s.take(n as int)
    }
}

/// The history after adding a command: the trimmed command moves to the
/// front, any earlier copy of it goes, and the oldest entries beyond the
/// limit are dropped; an empty command changes nothing.
pub open spec fn history_after(h: Seq<Seq<char>>, command: Seq<char>, max: nat) -> Seq<Seq<char>> {
    let t = trim(command);
    if t.len() == 0 {
        h
    } else {
        first_n(seq![t] + without(h, t), max)
    }
}

/// Adding a command to the history: an empty command changes nothing;
/// otherwise the trimmed command stands first and nowhere else, every other
/// entry was there before, the limit is never passed, and a history without
/// repeats stays without repeats.
pub proof fn lemma_history_after(h: Seq<Seq<char>>, command: Seq<char>, max: nat)
    ensures
        trim(command).len() == 0 ==> history_after(h, command, max) == h,
        trim(command).len() > 0 ==> history_after(h, command, max).len() <= max,
        trim(command).len() > 0 && max > 0 ==> history_after(h, command, max).len() >= 1
            && history_after(h, command, max)[0] == trim(command),
        trim(command).len() > 0 ==> forall|i: int| 1 <= i < history_after(h, command, max).len()
            ==> #[trigger] history_after(h, command, max)[i] != trim(command) && h.contains(history_after(h, command, max)[i]),
        trim(command).len() > 0 && h.no_duplicates() ==> history_after(h, command, max).no_duplicates(),
{
    let t = trim(command);
    if t.len() > 0 {
        crate::aliases::lemma_without(h, t);
        let w = without(h, t);
        let full = seq![t] + w;
        let r = history_after(h, command, max);
        assert forall|i: int| 1 <= i < full.len() implies #[trigger] full[i] != t && h.contains(full[i]) by {
            assert(full[i] == w[i - 1]);
            assert(w.contains(w[i - 1]));
        }
        if h.no_duplicates() {
            assert forall|i: int, j: int| 0 <= i < full.len() && 0 <= j < full.len() && i != j implies full[i] != full[j] by {
                if i > 0 && j > 0 {
                    assert(full[i] == w[i - 1] && full[j] == w[j - 1]);
                } else if i == 0 {
                    assert(full[j] == w[j - 1]);
                    assert(w.contains(w[j - 1]));
                } else {
                    assert(full[i] == w[i - 1]);
                    assert(w.contains(w[i - 1]));
                }
            }
        }
        if full.len() > max {
            assert forall|i: int| 0 <= i < r.len() implies #[trigger] r[i] == full[i] by {}
        }
    }
}

/// The most recent history entries, as suggestions marked "recent".
pub open spec fn recent_items(h: Seq<Seq<char>>, limit: nat) -> Seq<(Seq<char>, CompletionKind, Option<Seq<char>>)> {
    first_n(h, limit).map_values(|t: Seq<char>| (t, CompletionKind::History, Some("recent"@)))
}

/// The first word of a text, or nothing.
pub open spec fn first_word(t: Seq<char>) -> Seq<char> {
    if words(t).len() > 0 {
        words(t)[0]
    } else {
        seq![]
    }
}

/// The history entries whose first word starts, ignoring case, with the
/// prefix, in order.
pub open spec fn history_hits(h: Seq<Seq<char>>, p: Seq<char>) -> Seq<Seq<char>>
    decreases h.len(),
{
    if h.len() == 0 {
        seq![]
    } else if is_prefix(lowercase(p), lowercase(first_word(h.last()))) {
        history_hits(h.drop_last(), p).push(h.last())
    } else {
        history_hits(h.drop_last(), p)
    }
}

/// The commands that start, ignoring case, with the prefix, in order.
pub open spec fn command_hits(c: Seq<Seq<char>>, p: Seq<char>) -> Seq<Seq<char>>
    decreases c.len(),
{
    if c.len() == 0 {
        seq![]
    } else if is_prefix(lowercase(p), lowercase(c.last())) {
        command_hits(c.drop_last(), p).push(c.last())
    } else {
        command_hits(c.drop_last(), p)
    }
}

/// Command suggestions: up to five matching history entries, then up to
/// twenty matching commands of the search path, in name order.
pub open spec fn command_items(h: Seq<Seq<char>>, c: Seq<Seq<char>>, p: Seq<char>) -> Seq<(Seq<char>, CompletionKind, Option<Seq<char>>)> {
    first_n(history_hits(h, p), 5).map_values(|t: Seq<char>| (t, CompletionKind::History, Some("from history"@)))
        + first_n(command_hits(c, p), 20).map_values(|t: Seq<char>| (t, CompletionKind::Command, None::<Seq<char>>))
}

/// Completion engine: the command history, newest first, and the commands
/// found on the search path.
pub struct CompletionEngine {
    history: Vec<String>,
    path_commands: Vec<String>,
    max_history: usize,
}

impl CompletionEngine {
    /// Every engine keeps at most 1000 history entries.
    #[verifier::type_invariant]
    spec fn keeps_thousand(self) -> bool {
        self.max_history == 1000
    }

    /// The history, newest first.
    pub closed spec fn hist(&self) -> Seq<Seq<char>> {
        texts(self.history@)
    }

    /// The commands of the search path, in name order.
    pub closed spec fn commands(&self) -> Seq<Seq<char>> {
        texts(self.path_commands@)
    }

    /// How many history entries are kept.
    pub closed spec fn limit(&self) -> nat {
        self.max_history as nat
    }

    /// An engine with an empty history and no commands; the caller loads the
    /// commands of the search path with `load_path_commands`.
    pub fn new() -> (e: Self)
        ensures
            e.hist().len() == 0,
            e.commands().len() == 0,
            e.limit() == 1000,
    {
        CompletionEngine { history: Vec::new(), path_commands: Vec::new(), max_history: 1000 }
    }

    /// Sets the commands of the search path from the executable names found
    /// there: each name once, in name order.
    pub fn load_path_commands(&mut self, found: Vec<String>)
        ensures
            strictly_sorted(final(self).commands()),
            forall|c: Seq<char>| #[trigger] final(self).commands().contains(c) <==> texts(found@).contains(c),
            final(self).hist() == old(self).hist(),
            final(self).limit() == old(self).limit(),
    {
        proof {
            use_type_invariant(&*self);
        }
        let mut r: Vec<String> = Vec::new();
        let mut i: usize = 0;
        while i < found.len()
            invariant
                i <= found@.len(),
                strictly_sorted(texts(r@)),
                forall|c: Seq<char>| #[trigger] texts(r@).contains(c) <==> texts(found@).subrange(0, i as int).contains(c),
            decreases found.len() - i,
        {
            let name = chars_of(found[i].as_str());
            let ghost keys = texts(r@);
            let ghost pre = texts(found@).subrange(0, i as int);
            let ghost post = texts(found@).subrange(0, i + 1);
            assert(post =~= pre.push(name@));
            let mut k: usize = 0;
            while k < r.len() && lex_less(&chars_of(r[k].as_str()), &name)
                invariant
                    k <= r@.len(),
                    keys == texts(r@),
                    forall|j: int| 0 <= j < k ==> lex_lt(#[trigger] keys[j], name@),
                decreases r.len() - k,
            {
                k = k + 1;
            }
            let present = k < r.len() && str_eq(r[k].as_str(), found[i].as_str());
            if !present {
                proof {
                    assert forall|j: int| k <= j < keys.len() implies lex_lt(name@, #[trigger] keys[j]) by {
                        if j == k {
                            lemma_lex_total(keys[j], name@);
                        } else {
                            assert(lex_lt(keys[k as int], keys[j]));
                            lemma_lex_total(keys[k as int], name@);
                            if keys[k as int] != name@ {
                                lemma_lex_trans(name@, keys[k as int], keys[j]);
                            }
                        }
                    }
                    lemma_sorted_insert(keys, name@, k as int);
                }
                r.insert(k, owned(found[i].as_str()));
                proof {
                    assert(texts(r@) =~= keys.insert(k as int, name@));
                    assert forall|c: Seq<char>| #[trigger] texts(r@).contains(c) <==> post.contains(c) by {
                        let nk = texts(r@);
                        if nk.contains(c) {
                            let w = choose|w: int| 0 <= w < nk.len() && nk[w] == c;
                            if w != k {
                                let w2 = if w < k { w } else { w - 1 };
                                assert(keys[w2] == c);
                                assert(keys.contains(c));
                                let m = choose|m: int| 0 <= m < pre.len() && pre[m] == c;
                                assert(post[m] == c);
                            } else {
                                assert(post[i as int] == c);
                            }
                        }
                        if post.contains(c) {
                            let m = choose|m: int| 0 <= m < post.len() && post[m] == c;
                            if m < i {
                                assert(pre[m] == c);
                                assert(keys.contains(c));
                                let w = choose|w: int| 0 <= w < keys.len() && keys[w] == c;
                                if w < k {
                                    assert(nk[w] == c);
                                } else {
                                    assert(nk[w + 1] == c);
                                }
                            } else {
                                assert(nk[k as int] == c);
                            }
                        }
                    }
                }
            } else {
                proof {
                    assert(keys[k as int] == name@);
                    assert forall|c: Seq<char>| #[trigger] texts(r@).contains(c) <==> post.contains(c) by {
                        if keys.contains(c) {
                            let m = choose|m: int| 0 <= m < pre.len() && pre[m] == c;
                            assert(post[m] == c);
                        }
                        if post.contains(c) {
                            let m = choose|m: int| 0 <= m < post.len() && post[m] == c;
                            if m == i {
                                assert(keys[k as int] == c);
                            } else {
                                assert(pre[m] == c);
                            }
                        }
                    }
                }
            }
            i = i + 1;
        }
        assert(texts(found@).subrange(0, found@.len() as int) =~= texts(found@));
        self.path_commands = r;
    }

    /// Add a command to history: trimmed, moved to the front, at most the
    /// history limit kept
    pub fn add_to_history(&mut self, command: &str)
        ensures
            final(self).hist() == history_after(old(self).hist(), command@, 1000),
            final(self).commands() == old(self).commands(),
            final(self).limit() == old(self).limit(),
    {
        proof {
            use_type_invariant(&*self);
        }
        let t = trim_str(command);
        if t.as_str().unicode_len() == 0 {
            return;
        }
        let ghost h0 = texts(self.history@);
        let mut kept: Vec<String> = Vec::new();
        kept.push(owned(t.as_str()));
        let mut i: usize = 0;
        assert(texts(kept@) =~= seq![t@] + without(h0.subrange(0, 0), t@));
        while i < self.history.len()
            invariant
                i <= self.history@.len(),
                h0 == texts(self.history@),
                texts(kept@) == seq![t@] + without(h0.subrange(0, i as int), t@),
            decreases self.history.len() - i,
        {
            assert(h0.subrange(0, i + 1).drop_last() =~= h0.subrange(0, i as int));
            assert(h0.subrange(0, i + 1).last() == h0[i as int]);
            if !str_eq(self.history[i].as_str(), t.as_str()) {
                let ghost prev = kept@;
                let e = owned(self.history[i].as_str());
                kept.push(e);
                assert(texts(kept@) =~= texts(prev).push(h0[i as int]));
                assert(without(h0.subrange(0, i + 1), t@) == without(h0.subrange(0, i as int), t@).push(h0[i as int]));
                assert(texts(kept@) =~= seq![t@] + without(h0.subrange(0, i + 1), t@));
            } else {
                assert(texts(kept@) =~= seq![t@] + without(h0.subrange(0, i + 1), t@));
            }
            i = i + 1;
        }
        assert(h0.subrange(0, h0.len() as int) =~= h0);
        if kept.len() > self.max_history {
            kept.truncate(self.max_history);
            assert(texts(kept@) =~= (seq![t@] + without(h0, t@)).take(self.max_history as int));
        }
        self.history = kept;
    }

    /// Get recent history items, newest first
    pub fn recent_history(&self, limit: usize) -> (r: Vec<CompletionItem>)
        ensures
            items_view(r@) == recent_items(self.hist(), limit as nat),
    {
        let mut r: Vec<CompletionItem> = Vec::new();
        let mut i: usize = 0;
        while i < self.history.len() && i < limit
            invariant
                i <= self.history@.len(),
                i <= limit,
                items_view(r@) == recent_items(self.hist().subrange(0, i as int), i as nat),
            decreases self.history.len() - i,
        {
            let ghost prev = r@;
            let it = CompletionItem {
                text: owned(self.history[i].as_str()),
                kind: CompletionKind::History,
                description: Some(owned("recent")),
            };
            r.push(it);
            assert(items_view(r@) =~= items_view(prev).push(item_view(it)));
            let ghost hs = self.hist().subrange(0, i + 1);
            assert(hs =~= self.hist().subrange(0, i as int).push(self.hist()[i as int]));
            assert(first_n(hs, (i + 1) as nat) =~= hs);
            assert(first_n(self.hist().subrange(0, i as int), i as nat) =~= self.hist().subrange(0, i as int));
            i = i + 1;
            assert(items_view(r@) =~= recent_items(self.hist().subrange(0, i as int), i as nat));
        }
        assert(items_view(r@) =~= recent_items(self.hist(), limit as nat));
        r
    }

    /// Complete command names: matching history entries first (at most
    /// five), then matching commands of the search path (at most twenty)
    pub fn complete_command(&self, prefix: &str) -> (r: Vec<CompletionItem>)
        ensures
            items_view(r@) == command_items(self.hist(), self.commands(), prefix@),
    {
        let lp = to_lowercase(prefix);
        let lpv = chars_of(lp.as_str());
        let mut r: Vec<CompletionItem> = Vec::new();
        let ghost h = self.hist();
        let mut i: usize = 0;
        while i < self.history.len() && r.len() < 5
            invariant
                i <= self.history@.len(),
                h == self.hist(),
                lpv@ == lowercase(prefix@),
                r@.len() <= 5,
                items_view(r@) == history_hits(h.subrange(0, i as int), prefix@).map_values(
                    |t: Seq<char>| (t, CompletionKind::History, Some("from history"@))),
            decreases self.history.len() - i,
        {
            assert(h.subrange(0, i + 1).drop_last() =~= h.subrange(0, i as int));
            let hv = chars_of(self.history[i].as_str());
            let ws = split_words(&hv);
            let fw: Vec<char> = if ws.len() > 0 {
                crate::text::slice_chars(&ws[0], 0, ws[0].len())
            } else {
                Vec::new()
            };
            assert(fw@ == first_word(h[i as int]));
            let lfw = to_lowercase(string_of(&fw).as_str());
            let ghost prev = r@;
            let ghost hh = history_hits(h.subrange(0, i as int), prefix@);
            if starts_with(&chars_of(lfw.as_str()), &lpv) {
                let it = CompletionItem {
                    text: owned(self.history[i].as_str()),
                    kind: CompletionKind::History,
                    description: Some(owned("from history")),
                };
                r.push(it);
                assert(items_view(r@) =~= items_view(prev).push(item_view(it)));
                assert(history_hits(h.subrange(0, i + 1), prefix@) == hh.push(h[i as int]));
                assert(hh.push(h[i as int]).map_values(|t: Seq<char>| (t, CompletionKind::History, Some("from history"@)))
                    =~= hh.map_values(|t: Seq<char>| (t, CompletionKind::History, Some("from history"@))).push(
                    (h[i as int], CompletionKind::History, Some("from history"@))));
            } else {
                assert(history_hits(h.subrange(0, i + 1), prefix@) == hh);
            }
            i = i + 1;
            assert(items_view(r@) =~= history_hits(h.subrange(0, i as int), prefix@).map_values(
                |t: Seq<char>| (t, CompletionKind::History, Some("from history"@))));
        }
        proof {
            lemma_hits_first(h, prefix@, i as int);
        }
        let ghost head = items_view(r@);
        let ghost c = self.commands();
        let mut n: usize = 0;
        let mut j: usize = 0;
        while j < self.path_commands.len() && n < 20
            invariant
                j <= self.path_commands@.len(),
                c == self.commands(),
                lpv@ == lowercase(prefix@),
                n <= 20,
                n == command_hits(c.subrange(0, j as int), prefix@).len(),
                items_view(r@) == head + command_hits(c.subrange(0, j as int), prefix@).map_values(
                    |t: Seq<char>| (t, CompletionKind::Command, None::<Seq<char>>)),
            decreases self.path_commands.len() - j,
        {
            assert(c.subrange(0, j + 1).drop_last() =~= c.subrange(0, j as int));
            let lc = to_lowercase(self.path_commands[j].as_str());
            let ghost prev = r@;
            let ghost ch = command_hits(c.subrange(0, j as int), prefix@);
            if starts_with(&chars_of(lc.as_str()), &lpv) {
                let it = CompletionItem {
                    text: owned(self.path_commands[j].as_str()),
                    kind: CompletionKind::Command,
                    description: None,
                };
                r.push(it);
                assert(items_view(r@) =~= items_view(prev).push(item_view(it)));
                assert(command_hits(c.subrange(0, j + 1), prefix@) == ch.push(c[j as int]));
                assert(ch.push(c[j as int]).map_values(|t: Seq<char>| (t, CompletionKind::Command, None::<Seq<char>>))
                    =~= ch.map_values(|t: Seq<char>| (t, CompletionKind::Command, None::<Seq<char>>)).push(
                    (c[j as int], CompletionKind::Command, None::<Seq<char>>)));
                n = n + 1;
            } else {
                assert(command_hits(c.subrange(0, j + 1), prefix@) == ch);
            }
            j = j + 1;
            assert(items_view(r@) =~= head + command_hits(c.subrange(0, j as int), prefix@).map_values(
                |t: Seq<char>| (t, CompletionKind::Command, None::<Seq<char>>)));
        }
        proof {
            lemma_command_hits_first(c, prefix@, j as int);
        }
        assert(items_view(r@) =~= command_items(h, c, prefix@));
        r
    }

    /// Get history for search/filtering, newest first
    pub fn get_history(&self) -> (r: &Vec<String>)
        ensures
            texts(r@) == self.hist(),
    {
        &self.history
    }

    /// Clear all history
    pub fn clear_history(&mut self)
        ensures
            final(self).hist().len() == 0,
            final(self).commands() == old(self).commands(),
            final(self).limit() == old(self).limit(),
    {
        proof {
            use_type_invariant(&*self);
        }
        self.history = Vec::new();
        assert(texts(self.history@) =~= Seq::<Seq<char>>::empty());
    }
}

/// Scanning the history stops after five hits or at its end: what was found
/// is the first five hits of the whole history.
proof fn lemma_hits_first(h: Seq<Seq<char>>, p: Seq<char>, i: int)
    requires
        0 <= i <= h.len(),
        history_hits(h.subrange(0, i), p).len() <= 5,
        i < h.len() ==> history_hits(h.subrange(0, i), p).len() == 5,
    ensures
        first_n(history_hits(h, p), 5) == history_hits(h.subrange(0, i), p),
{
    lemma_history_hits_prefix(h, p, i);
    if i == h.len() {
        assert(h.subrange(0, i) =~= h);
    }
}

proof fn lemma_history_hits_prefix(h: Seq<Seq<char>>, p: Seq<char>, i: int)
    requires
        0 <= i <= h.len(),
    ensures
        history_hits(h.subrange(0, i), p).len() <= history_hits(h, p).len(),
        history_hits(h.subrange(0, i), p) == history_hits(h, p).take(history_hits(h.subrange(0, i), p).len() as int),
    decreases h.len() - i,
{
    if i < h.len() {
        lemma_history_hits_prefix(h, p, i + 1);
        assert(h.subrange(0, i + 1).drop_last() =~= h.subrange(0, i));
        let a = history_hits(h.subrange(0, i), p);
        let b = history_hits(h.subrange(0, i + 1), p);
        assert(b.take(a.len() as int) =~= a);
        assert(history_hits(h, p).take(a.len() as int) =~= b.take(a.len() as int));
    } else {
        assert(h.subrange(0, i) =~= h);
        assert(history_hits(h, p).take(history_hits(h, p).len() as int) =~= history_hits(h, p));
    }
}

proof fn lemma_command_hits_first(c: Seq<Seq<char>>, p: Seq<char>, j: int)
    requires
        0 <= j <= c.len(),
        command_hits(c.subrange(0, j), p).len() <= 20,
        j < c.len() ==> command_hits(c.subrange(0, j), p).len() == 20,
    ensures
        first_n(command_hits(c, p), 20) == command_hits(c.subrange(0, j), p),
{
    lemma_command_hits_prefix(c, p, j);
    if j == c.len() {
        assert(c.subrange(0, j) =~= c);
    }
}

proof fn lemma_command_hits_prefix(c: Seq<Seq<char>>, p: Seq<char>, j: int)
    requires
        0 <= j <= c.len(),
    ensures
        command_hits(c.subrange(0, j), p).len() <= command_hits(c, p).len(),
        command_hits(c.subrange(0, j), p) == command_hits(c, p).take(command_hits(c.subrange(0, j), p).len() as int),
    decreases c.len() - j,
{
    if j < c.len() {
        lemma_command_hits_prefix(c, p, j + 1);
        assert(c.subrange(0, j + 1).drop_last() =~= c.subrange(0, j));
        let a = command_hits(c.subrange(0, j), p);
        let b = command_hits(c.subrange(0, j + 1), p);
        assert(b.take(a.len() as int) =~= a);
        assert(command_hits(c, p).take(a.len() as int) =~= b.take(a.len() as int));
    } else {
        assert(c.subrange(0, j) =~= c);
        assert(command_hits(c, p).take(command_hits(c, p).len() as int) =~= command_hits(c, p));
    }
}

/// `Path::parent` as text, or the empty text for a path without a parent.
pub uninterp spec fn path_parent(p: Seq<char>) -> Seq<char>;

/// `Path::file_name` as text, or the empty text for a path without one.
pub uninterp spec fn path_file_name(p: Seq<char>) -> Seq<char>;

/// `Path::is_relative`.
pub uninterp spec fn path_is_relative(p: Seq<char>) -> bool;

/// `PathBuf::join` as text.
pub uninterp spec fn path_joined(a: Seq<char>, b: Seq<char>) -> Seq<char>;

/// `Path::parent` (`""` when there is none), as text.
#[verifier::external_body]
fn parent_of(p: &str) -> (r: String)
    ensures
        r@ == path_parent(p@),
{
    std::path::Path::new(p).parent().unwrap_or(std::path::Path::new("")).to_string_lossy().into_owned()
}

/// `Path::file_name` (`""` when there is none), as text.
#[verifier::external_body]
fn file_name_of(p: &str) -> (r: String)
    ensures
        r@ == path_file_name(p@),
{
    std::path::Path::new(p).file_name().and_then(|n| n.to_str()).unwrap_or("").to_string()
}

/// `Path::is_relative`.
#[verifier::external_body]
fn is_relative(p: &str) -> (r: bool)
    ensures
        r == path_is_relative(p@),
{
    std::path::Path::new(p).is_relative()
}

/// `PathBuf::join`, as text.
#[verifier::external_body]
fn join_path(a: &str, b: &str) -> (r: String)
    ensures
        r@ == path_joined(a@, b@),
{
    std::path::PathBuf::from(a).join(b).to_string_lossy().into_owned()
}

/// Whether a text holds a path separator.
pub open spec fn has_sep(p: Seq<char>) -> bool {
    p.contains('/') || p.contains('\\')
}

/// The directory to list for completing a path: the path itself when it
/// ends in a separator, else its parent, or the working directory when the
/// text has no separator; a relative directory is taken from the working
/// directory.
pub open spec fn search_dir(p: Seq<char>, cwd: Seq<char>) -> Seq<char> {
    let dir = if has_sep(p) {
        if p.len() > 0 && (p.last() == '/' || p.last() == '\\') {
            p
        } else {
            path_parent(p)
        }
    } else {
        cwd
    };
    if path_is_relative(dir) {
        path_joined(cwd, dir)
    } else {
        dir
    }
}

/// The start that entry names must have, ignoring case.
pub open spec fn name_prefix(p: Seq<char>) -> Seq<char> {
    if has_sep(p) {
        path_file_name(p)
    } else {
        p
    }
}

/// The suggestion for a directory entry: its path as typed (with a final
/// separator for a directory) and its kind.
pub open spec fn entry_item(p: Seq<char>, name: Seq<char>, is_dir: bool) -> (Seq<char>, CompletionKind) {
    let text = if has_sep(p) {
        if is_dir {
            path_joined(path_joined(path_parent(p), name), ""@)
        } else {
            path_joined(path_parent(p), name)
        }
    } else if is_dir {
        name + "/"@
    } else {
        name
    };
    (text, if is_dir { CompletionKind::Directory } else { CompletionKind::File })
}

/// The suggestions for the entries whose names start, ignoring case, with
/// the name prefix, in listing order.
pub open spec fn entry_items(p: Seq<char>, entries: Seq<(Seq<char>, bool)>) -> Seq<(Seq<char>, CompletionKind)>
    decreases entries.len(),
{
    if entries.len() == 0 {
        seq![]
    } else {
        let rest = entry_items(p, entries.drop_last());
        let e = entries.last();
        if is_prefix(lowercase(name_prefix(p)), lowercase(e.0)) {
            rest.push(entry_item(p, e.0, e.1))
        } else {
            rest
        }
    }
}

/// Directories come first, then files, then the other kinds.
pub open spec fn kind_rank(k: CompletionKind) -> nat {
    match k {
        CompletionKind::Directory => 0,
        CompletionKind::File => 1,
        CompletionKind::Command => 2,
        CompletionKind::History => 3,
        CompletionKind::Alias => 4,
    }
}

/// The order of path suggestions: by kind, then by text.
pub open spec fn item_leq(a: (Seq<char>, CompletionKind), b: (Seq<char>, CompletionKind)) -> bool {
    kind_rank(a.1) < kind_rank(b.1) || (kind_rank(a.1) == kind_rank(b.1) && (a.0 == b.0 || lex_lt(a.0, b.0)))
}

/// The order of path suggestions, as a relation.
pub open spec fn item_order() -> spec_fn((Seq<char>, CompletionKind), (Seq<char>, CompletionKind)) -> bool {
    |a: (Seq<char>, CompletionKind), b: (Seq<char>, CompletionKind)| item_leq(a, b)
}

proof fn lemma_item_leq(a: (Seq<char>, CompletionKind), b: (Seq<char>, CompletionKind), c: (Seq<char>, CompletionKind))
    ensures
        item_leq(a, b) || item_leq(b, a),
        item_leq(a, b) && item_leq(b, c) ==> item_leq(a, c),
{
    lemma_lex_total(a.0, b.0);
    if item_leq(a, b) && item_leq(b, c) && kind_rank(a.1) == kind_rank(b.1) && kind_rank(b.1) == kind_rank(c.1)
        && a.0 != b.0 && b.0 != c.0 {
        lemma_lex_trans(a.0, b.0, c.0);
    }
}

/// Path suggestions: the matching entries, directories first, each group
/// in text order, at most fifty.
pub open spec fn path_items(p: Seq<char>, entries: Seq<(Seq<char>, bool)>) -> Seq<(Seq<char>, CompletionKind, Option<Seq<char>>)> {
    first_n(entry_items(p, entries).sort_by(item_order()), 50)
        .map_values(|x: (Seq<char>, CompletionKind)| (x.0, x.1, None::<Seq<char>>))
}

/// Suggestions for a command line: the recent history when it is empty,
/// commands while it has at most one word, else paths for its last word.
pub open spec fn completions(
    h: Seq<Seq<char>>,
    c: Seq<Seq<char>>,
    input: Seq<char>,
    entries: Seq<(Seq<char>, bool)>,
) -> Seq<(Seq<char>, CompletionKind, Option<Seq<char>>)> {
    if input.len() == 0 {
        recent_items(h, 10)
    } else if words(input).len() <= 1 {
        command_items(h, c, input)
    } else {
        path_items(words(input).last(), entries)
    }
}

proof fn lemma_item_order()
    ensures
        total_ordering(item_order()),
{
    let leq = item_order();
    assert forall|x: (Seq<char>, CompletionKind)| #[trigger] leq(x, x) by {}
    assert forall|x: (Seq<char>, CompletionKind), y: (Seq<char>, CompletionKind)|
        #[trigger] leq(x, y) && #[trigger] leq(y, x) implies x == y by {
        if x.0 != y.0 {
            lemma_lex_asymmetric(x.0, y.0);
        }
        assert(x.1 == y.1);
    }
    assert forall|x: (Seq<char>, CompletionKind), y: (Seq<char>, CompletionKind), z: (Seq<char>, CompletionKind)|
        #[trigger] leq(x, y) && #[trigger] leq(y, z) implies leq(x, z) by {
        if kind_rank(x.1) == kind_rank(y.1) && kind_rank(y.1) == kind_rank(z.1) {
            if x.0 != y.0 && y.0 != z.0 {
                lemma_lex_trans(x.0, y.0, z.0);
            }
        }
    }
    assert forall|x: (Seq<char>, CompletionKind), y: (Seq<char>, CompletionKind)|
        #[trigger] leq(x, y) || #[trigger] leq(y, x) by {
        lemma_lex_total(x.0, y.0);
    }
}

/// The text and kind of a suggestion.
pub open spec fn pair_view(i: CompletionItem) -> (Seq<char>, CompletionKind) {
    (i.text@, i.kind)
}

impl CompletionEngine {
    /// The directory whose listing `complete` needs for an input, if it
    /// needs one.
    pub fn path_query(&self, input: &str, cwd: &str) -> (r: Option<String>)
        ensures
            match r {
                Some(d) => input@.len() > 0 && words(input@).len() > 1 && d@ == search_dir(words(input@).last(), cwd@),
                None => input@.len() == 0 || words(input@).len() <= 1,
            },
    {
        if input.unicode_len() == 0 {
            return None;
        }
        let ws = split_words(&chars_of(input));
        if ws.len() <= 1 {
            return None;
        }
        let last = string_of(&ws[ws.len() - 1]);
        Some(Self::search_dir(last.as_str(), cwd))
    }

    /// The directory to list for completing a path.
    fn search_dir(prefix: &str, cwd: &str) -> (r: String)
        ensures
            r@ == search_dir(prefix@, cwd@),
    {
        let pv = chars_of(prefix);
        let n = pv.len();
        let dir = if has_char(&pv, '/') || has_char(&pv, '\\') {
            if n > 0 && (pv[n - 1] == '/' || pv[n - 1] == '\\') {
                owned(prefix)
            } else {
                parent_of(prefix)
            }
        } else {
            owned(cwd)
        };
        if is_relative(dir.as_str()) {
            join_path(cwd, dir.as_str())
        } else {
            dir
        }
    }

    /// Generate completion suggestions for the given input; `entries` is
    /// the listing (name, whether a directory) of the directory that
    /// `path_query` names, when it names one
    pub fn complete(&self, input: &str, cwd: &str, entries: &Vec<(String, bool)>) -> (r: Vec<CompletionItem>)
        ensures
            items_view(r@) == completions(self.hist(), self.commands(), input@,
                entries@.map_values(|e: (String, bool)| (e.0@, e.1))),
    {
        if input.unicode_len() == 0 {
            return self.recent_history(10);
        }
        let ws = split_words(&chars_of(input));
        if ws.len() <= 1 {
            return self.complete_command(input);
        }
        let last = string_of(&ws[ws.len() - 1]);
        Self::complete_path(last.as_str(), entries)
    }

    /// Complete file paths from the listing of the directory to search
    pub fn complete_path(prefix: &str, entries: &Vec<(String, bool)>) -> (r: Vec<CompletionItem>)
        ensures
            items_view(r@) == path_items(prefix@, entries@.map_values(|e: (String, bool)| (e.0@, e.1))),
    {
        let pv = chars_of(prefix);
        let sep = has_char(&pv, '/') || has_char(&pv, '\\');
        let fp = if sep { file_name_of(prefix) } else { owned(prefix) };
        let lfp = chars_of(to_lowercase(fp.as_str()).as_str());
        let parent = parent_of(prefix);
        let ghost ev = entries@.map_values(|e: (String, bool)| (e.0@, e.1));
        let mut matches: Vec<CompletionItem> = Vec::new();
        let mut i: usize = 0;
        while i < entries.len()
            invariant
                i <= entries@.len(),
                ev == entries@.map_values(|e: (String, bool)| (e.0@, e.1)),
                sep == has_sep(prefix@),
                lfp@ == lowercase(name_prefix(prefix@)),
                parent@ == path_parent(prefix@),
                forall|k: int| 0 <= k < matches@.len() ==> (#[trigger] matches@[k]).description is None,
                matches@.map_values(|x: CompletionItem| pair_view(x)) == entry_items(prefix@, ev.subrange(0, i as int)),
            decreases entries.len() - i,
        {
            assert(ev.subrange(0, i + 1).drop_last() =~= ev.subrange(0, i as int));
            assert(ev.subrange(0, i + 1).last() == ev[i as int]);
            let name = entries[i].0.as_str();
            let is_dir = entries[i].1;
            let ln = to_lowercase(name);
            let ghost prev = matches@;
            if starts_with(&chars_of(ln.as_str()), &lfp) {
                let text = if sep {
                    let j = join_path(parent.as_str(), name);
                    if is_dir {
                        join_path(j.as_str(), "")
                    } else {
                        j
                    }
                } else if is_dir {
                    let mut t = owned(name);
                    crate::text::push_char(&mut t, '/');
                    proof {
                        reveal_strlit("/");
                    }
                    assert(t@ =~= name@ + "/"@);
                    t
                } else {
                    owned(name)
                };
                let kind = if is_dir { CompletionKind::Directory } else { CompletionKind::File };
                let it = CompletionItem { text, kind, description: None };
                matches.push(it);
                assert(matches@.map_values(|x: CompletionItem| pair_view(x)) =~= prev.map_values(
                    |x: CompletionItem| pair_view(x)).push(pair_view(it)));
            }
            i = i + 1;
        }
        assert(ev.subrange(0, ev.len() as int) =~= ev);
        let ghost mv = matches@.map_values(|x: CompletionItem| pair_view(x));
        let sorted = sort_items(matches);
        proof {
            lemma_item_order();
            let leq = item_order();
            mv.lemma_sort_by_ensures(leq);
            vstd::seq_lib::lemma_sorted_unique(sorted@.map_values(|x: CompletionItem| pair_view(x)), mv.sort_by(leq), leq);
        }
        let mut r: Vec<CompletionItem> = Vec::new();
        let mut k: usize = 0;
        while k < sorted.len() && k < 50
            invariant
                k <= sorted@.len(),
                k <= 50,
                forall|t: int| 0 <= t < sorted@.len() ==> (#[trigger] sorted@[t]).description is None,
                items_view(r@) == sorted@.take(k as int).map_values(|x: CompletionItem| (x.text@, x.kind, None::<Seq<char>>)),
            decreases sorted.len() - k,
        {
            let it = CompletionItem { text: owned(sorted[k].text.as_str()), kind: sorted[k].kind, description: None };
            let ghost prev = r@;
            r.push(it);
            assert(items_view(r@) =~= items_view(prev).push(item_view(it)));
            k = k + 1;
            assert(items_view(r@) =~= sorted@.take(k as int).map_values(|x: CompletionItem| (x.text@, x.kind, None::<Seq<char>>)));
        }
        proof {
            let leq = item_order();
            let sv = sorted@.map_values(|x: CompletionItem| pair_view(x));
            assert(sv == mv.sort_by(leq));
            assert(items_view(r@) =~= first_n(sv, 50).map_values(|x: (Seq<char>, CompletionKind)| (x.0, x.1, None::<Seq<char>>)));
        }
        r
    }
}

/// Sorts path suggestions by kind, then text.
fn sort_items(items: Vec<CompletionItem>) -> (r: Vec<CompletionItem>)
    requires
        forall|k: int| 0 <= k < items@.len() ==> (#[trigger] items@[k]).description is None,
    ensures
        sorted_by(r@.map_values(|x: CompletionItem| pair_view(x)), item_order()),
        r@.map_values(|x: CompletionItem| pair_view(x)).to_multiset() == items@.map_values(|x: CompletionItem| pair_view(x)).to_multiset(),
        forall|k: int| 0 <= k < r@.len() ==> (#[trigger] r@[k]).description is None,
{
    let ghost iv = items@.map_values(|x: CompletionItem| pair_view(x));
    let mut rest = items;
    let mut r: Vec<CompletionItem> = Vec::new();
    let ghost mut done: Seq<(Seq<char>, CompletionKind)> = seq![];
    proof {
        lemma_item_order();
    }
    assert(r@.map_values(|x: CompletionItem| pair_view(x)) =~= done);
    while rest.len() > 0
        invariant
            iv == done + rest@.map_values(|x: CompletionItem| pair_view(x)),
            forall|k: int| 0 <= k < rest@.len() ==> (#[trigger] rest@[k]).description is None,
            forall|k: int| 0 <= k < r@.len() ==> (#[trigger] r@[k]).description is None,
            sorted_by(r@.map_values(|x: CompletionItem| pair_view(x)), item_order()),
            r@.map_values(|x: CompletionItem| pair_view(x)).to_multiset() == done.to_multiset(),
        decreases rest.len(),
    {
        let x = rest.remove(0);
        let ghost xv = pair_view(x);
        let ghost rv = r@.map_values(|y: CompletionItem| pair_view(y));
        let xt = chars_of(x.text.as_str());
        let mut k: usize = 0;
        while k < r.len() && item_le(&r[k], &x, &xt)
            invariant
                k <= r@.len(),
                rv == r@.map_values(|y: CompletionItem| pair_view(y)),
                xv == pair_view(x),
                xt@ == x.text@,
                forall|j: int| 0 <= j < k ==> item_leq(#[trigger] rv[j], xv),
            decreases r.len() - k,
        {
            k = k + 1;
        }
        proof {
            let leq = item_order();
            assert forall|j: int| k <= j < rv.len() implies item_leq(xv, #[trigger] rv[j]) by {
                assert(!item_leq(rv[k as int], xv));
                lemma_item_leq(rv[k as int], xv, rv[j]);
                if j > k {
                    assert(leq(rv[k as int], rv[j]));
                    lemma_item_leq(xv, rv[k as int], rv[j]);
                }
            }
            let nv = rv.insert(k as int, xv);
            assert forall|a: int, b: int| 0 <= a < b < nv.len() implies #[trigger] leq(nv[a], nv[b]) by {
                if b < k {
                } else if b == k {
                } else if a < k {
                    assert(nv[a] == rv[a]);
                    assert(nv[b] == rv[b - 1]);
                    assert(leq(rv[a], xv) && leq(xv, rv[b - 1]));
                } else if a == k {
                } else {
                    assert(leq(rv[a - 1], rv[b - 1]));
                }
            }
            vstd::seq_lib::to_multiset_insert(rv, k as int, xv);
            vstd::seq_lib::to_multiset_build(done, xv);
            done = done.push(xv);
        }
        r.insert(k, x);
        assert(r@.map_values(|y: CompletionItem| pair_view(y)) =~= rv.insert(k as int, xv));
        assert(iv =~= done + rest@.map_values(|y: CompletionItem| pair_view(y)));
    }
    assert(done =~= iv);
    r
}

/// Whether `a` comes no later than `b` (whose text is `bt`) in the order of
/// path suggestions.
fn item_le(a: &CompletionItem, b: &CompletionItem, bt: &Vec<char>) -> (r: bool)
    requires
        bt@ == b.text@,
    ensures
        r == item_leq(pair_view(*a), pair_view(*b)),
{
    let ra = rank_of(a.kind);
    let rb = rank_of(b.kind);
    if ra != rb {
        return ra < rb;
    }
    let at = chars_of(a.text.as_str());
    crate::text::seq_eq(&at, bt) || lex_less(&at, bt)
}

/// The rank of a kind in the order of path suggestions.
fn rank_of(k: CompletionKind) -> (r: u8)
    ensures
        r == kind_rank(k),
{
    match k {
        CompletionKind::Directory => 0,
        CompletionKind::File => 1,
        CompletionKind::Command => 2,
        CompletionKind::History => 3,
        CompletionKind::Alias => 4,
    }
}

} // verus!
