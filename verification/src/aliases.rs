//! Command alias management
//!
//! Aliases carry a name, the command they stand for, an optional description
//! and category, the moment they were made and whether they are active. The
//! manager keeps them ordered by name, indexes them by category, expands
//! aliases at the start of a command line (substituting `$1`, `${*}`, `$#`
//! and the like) and reads and writes shell alias definitions.

use vstd::prelude::*;
use crate::clock::unix_now;
use crate::strings::{lex_lt, lex_less, lemma_lex_total, lemma_lex_trans, lemma_lex_asymmetric,
    lemma_lex_irreflexive, strictly_sorted, count_lt, key_pos, lemma_count_lt_exact, lemma_key_pos_unique,
    lemma_sorted_insert};
use crate::text::{chars_of, owned, str_eq};
use crate::strings::{words, joined, replaced, split_words, join_chars, replace_all};
use crate::fmt::{decimal, decimal_chars};

verus! {

/// A command alias with its metadata.
#[derive(Debug)]
pub struct Alias {
    /// Alias name (short form)
    pub name: String,
    /// Full command to execute
    pub command: String,
    /// Human-readable description
    pub description: Option<String>,
    /// Category for grouping (e.g. "git", "docker", "file")
    pub category: Option<String>,
    /// When this alias was created, in seconds since the Unix epoch
    pub created_at: i64,
    /// Whether this alias is active
    pub enabled: bool,
}

/// The text of an optional string.
pub open spec fn opt_text(o: Option<String>) -> Option<Seq<char>> {
    match o {
        Some(s) => Some(s@),
        None => None,
    }
}

impl Alias {
    /// Create a new alias
    pub fn new(name: &str, command: &str) -> (a: Self)
        ensures
            a.name@ == name@,
            a.command@ == command@,
            a.description is None,
            a.category is None,
            a.enabled,
    {
        Alias {
            name: owned(name),
            command: owned(command),
            description: None,
            category: None,
            created_at: unix_now(),
            enabled: true,
        }
    }

    /// Create an alias with description
    pub fn with_description(name: &str, command: &str, description: &str) -> (a: Self)
        ensures
            a.name@ == name@,
            a.command@ == command@,
            opt_text(a.description) == Some(description@),
            a.category is None,
            a.enabled,
    {
        Alias {
            name: owned(name),
            command: owned(command),
            description: Some(owned(description)),
            category: None,
            created_at: unix_now(),
            enabled: true,
        }
    }

    /// Set the category
    pub fn with_category(self, category: &str) -> (a: Self)
        ensures
            a.name == self.name,
            a.command == self.command,
            a.description == self.description,
            opt_text(a.category) == Some(category@),
            a.created_at == self.created_at,
            a.enabled == self.enabled,
    {
        let mut a = self;
        a.category = Some(owned(category));
        a
    }

    /// Set enabled state
    pub fn with_enabled(self, enabled: bool) -> (a: Self)
        ensures
            a.name == self.name,
            a.command == self.command,
            a.description == self.description,
            a.category == self.category,
            a.created_at == self.created_at,
            a.enabled == enabled,
    {
        let mut a = self;
        a.enabled = enabled;
        a
    }
}

/// The names of a category, as the category index holds them.
pub struct CategoryEntry {
    pub category: String,
    pub names: Vec<String>,
}

/// Errors that can occur during alias operations
#[derive(Debug)]
pub enum AliasError {
    NotFound(String),
    AlreadyExists(String),
    InvalidName(String),
    InvalidCommand(String),
    IoError(String),
    SerializationError(String),
}

/// Manages command aliases with expansion and persistence
pub struct AliasManager {
    /// All aliases, ordered by name
    aliases: Vec<Alias>,
    /// Names of the aliases of each category, ordered by category
    category_index: Vec<CategoryEntry>,
    /// Path of the persistence file
    file_path: Option<String>,
    /// Maximum recursion depth for nested aliases
    pub max_recursion_depth: usize,
}

/// The texts of some strings.
pub open spec fn texts(v: Seq<String>) -> Seq<Seq<char>> {
    v.map_values(|s: String| s@)
}

/// The names of some aliases, in order.
pub open spec fn alias_names(s: Seq<Alias>) -> Seq<Seq<char>> {
    s.map_values(|a: Alias| a.name@)
}

/// A category index as text: each category with the names filed under it.
pub open spec fn index_view(v: Seq<CategoryEntry>) -> Seq<(Seq<char>, Seq<Seq<char>>)> {
    v.map_values(|e: CategoryEntry| (e.category@, texts(e.names@)))
}

/// The categories of an index, in order.
pub open spec fn index_keys(ix: Seq<(Seq<char>, Seq<Seq<char>>)>) -> Seq<Seq<char>> {
    ix.map_values(|e: (Seq<char>, Seq<Seq<char>>)| e.0)
}

/// The names with every occurrence of `n` taken out (`Vec::retain`).
pub open spec fn without(names: Seq<Seq<char>>, n: Seq<char>) -> Seq<Seq<char>>
    decreases names.len(),
{
    if names.len() == 0 {
        seq![]
    } else if names.last() == n {
        without(names.drop_last(), n)
    } else {
        without(names.drop_last(), n).push(names.last())
    }
}

/// What `without` keeps: every entry other than `n`, no more entries than
/// there were, and no repeated entry where there was none.
pub proof fn lemma_without(names: Seq<Seq<char>>, n: Seq<char>)
    ensures
        without(names, n).len() <= names.len(),
        forall|x: Seq<char>| #[trigger] without(names, n).contains(x) <==> (names.contains(x) && x != n),
        names.no_duplicates() ==> without(names, n).no_duplicates(),
    decreases names.len(),
{
    if names.len() > 0 {
        let d = names.drop_last();
        lemma_without(d, n);
        assert forall|x: Seq<char>| #[trigger] names.contains(x) <==> (d.contains(x) || x == names.last()) by {
            if names.contains(x) {
                let k = choose|k: int| 0 <= k < names.len() && names[k] == x;
                if k < names.len() - 1 {
                    assert(d[k] == x);
                }
            }
            if d.contains(x) {
                let k = choose|k: int| 0 <= k < d.len() && d[k] == x;
                assert(names[k] == x);
            }
            if x == names.last() {
                assert(names[names.len() - 1] == x);
            }
        }
        if names.no_duplicates() {
            assert(d.no_duplicates());
            assert(!d.contains(names.last())) by {
                if d.contains(names.last()) {
                    let k = choose|k: int| 0 <= k < d.len() && d[k] == names.last();
                    assert(names[k] == names[names.len() - 1]);
                }
            }
        }
        if names.last() != n {
            let w = without(d, n);
            assert forall|x: Seq<char>| #[trigger] w.push(names.last()).contains(x) <==> (w.contains(x) || x == names.last()) by {
                if w.push(names.last()).contains(x) {
                    let k = choose|k: int| 0 <= k < w.len() + 1 && w.push(names.last())[k] == x;
                    if k < w.len() {
                        assert(w[k] == x);
                    }
                }
                if w.contains(x) {
                    let k = choose|k: int| 0 <= k < w.len() && w[k] == x;
                    assert(w.push(names.last())[k] == x);
                }
                if x == names.last() {
                    assert(w.push(names.last())[w.len() as int] == x);
                }
            }
            if names.no_duplicates() {
                let wp = w.push(names.last());
                assert(!w.contains(names.last()));
                assert forall|i: int, j: int| 0 <= i < wp.len() && 0 <= j < wp.len() && i != j implies wp[i] != wp[j] by {
                    if i < w.len() && j < w.len() {
                        assert(wp[i] == w[i] && wp[j] == w[j]);
                    } else if i < w.len() {
                        assert(wp[i] == w[i]);
                        assert(w.contains(w[i]));
                    } else {
                        assert(wp[j] == w[j]);
                        assert(w.contains(w[j]));
                    }
                }
            }
        }
    }
}

/// An alias inserted at its place among sorted aliases is found again by
/// its name, and every other name finds what it found before.
pub proof fn lemma_added_alias_found(e: Seq<Alias>, k: int, a: Alias, other: Seq<char>)
    requires
        0 <= k <= e.len(),
        strictly_sorted(alias_names(e)),
        strictly_sorted(alias_names(e.insert(k, a))),
    ensures
        alias_names(e.insert(k, a)).contains(a.name@),
        alias_pos(e.insert(k, a), a.name@) == k,
        e.insert(k, a)[alias_pos(e.insert(k, a), a.name@)] == a,
        other != a.name@ ==> (alias_names(e.insert(k, a)).contains(other) <==> alias_names(e).contains(other)),
        other != a.name@ && alias_names(e).contains(other)
            ==> e.insert(k, a)[alias_pos(e.insert(k, a), other)] == e[alias_pos(e, other)],
{
    let n = e.insert(k, a);
    let nn = alias_names(n);
    let en = alias_names(e);
    assert(nn[k] == a.name@);
    lemma_key_pos_unique(nn, a.name@, k);
    if other != a.name@ {
        if en.contains(other) {
            let q = choose|q: int| 0 <= q < en.len() && en[q] == other;
            lemma_key_pos_unique(en, other, q);
            let nq = if q < k { q } else { q + 1 };
            assert(n[nq] == e[q]);
            assert(nn[nq] == other);
            lemma_key_pos_unique(nn, other, nq);
        }
        if nn.contains(other) {
            let q = choose|q: int| 0 <= q < nn.len() && nn[q] == other;
            assert(q != k);
            let eq = if q < k { q } else { q - 1 };
            assert(n[q] == e[eq]);
            assert(en[eq] == other);
        }
    }
}

/// Removing the alias with a name leaves none with that name, and every
/// other name finds what it found before.
pub proof fn lemma_removed_alias_gone(e: Seq<Alias>, name: Seq<char>, other: Seq<char>)
    requires
        strictly_sorted(alias_names(e)),
        alias_names(e).contains(name),
    ensures
        !alias_names(e.remove(alias_pos(e, name))).contains(name),
        other != name ==> (alias_names(e.remove(alias_pos(e, name))).contains(other) <==> alias_names(e).contains(other)),
        other != name && alias_names(e).contains(other)
            ==> e.remove(alias_pos(e, name))[alias_pos(e.remove(alias_pos(e, name)), other)] == e[alias_pos(e, other)],
{
    let en = alias_names(e);
    let p0 = choose|q: int| 0 <= q < en.len() && en[q] == name;
    lemma_key_pos_unique(en, name, p0);
    let p = alias_pos(e, name);
    let r = e.remove(p);
    let rn = alias_names(r);
    assert forall|i: int, j: int| 0 <= i < j < rn.len() implies lex_lt(#[trigger] rn[i], #[trigger] rn[j]) by {
        let ii = if i < p { i } else { i + 1 };
        let jj = if j < p { j } else { j + 1 };
        assert(r[i] == e[ii] && r[j] == e[jj]);
        assert(lex_lt(en[ii], en[jj]));
    }
    if rn.contains(name) {
        let q = choose|q: int| 0 <= q < rn.len() && rn[q] == name;
        let qq = if q < p { q } else { q + 1 };
        assert(r[q] == e[qq]);
        assert(en[qq] == name);
        lemma_key_pos_unique(en, name, qq);
    }
    if other != name {
        if en.contains(other) {
            let q = choose|q: int| 0 <= q < en.len() && en[q] == other;
            lemma_key_pos_unique(en, other, q);
            assert(q != p);
            let rq = if q < p { q } else { q - 1 };
            assert(r[rq] == e[q]);
            assert(rn[rq] == other);
            lemma_key_pos_unique(rn, other, rq);
        }
        if rn.contains(other) {
            let q = choose|q: int| 0 <= q < rn.len() && rn[q] == other;
            let qq = if q < p { q } else { q + 1 };
            assert(r[q] == e[qq]);
            assert(en[qq] == other);
        }
    }
}

/// The index with `name` filed under `cat`: appended to that category's
/// names, or a new category made for it in its place in the order.
pub open spec fn index_add(ix: Seq<(Seq<char>, Seq<Seq<char>>)>, cat: Seq<char>, name: Seq<char>) -> Seq<(Seq<char>, Seq<Seq<char>>)> {
    let p = key_pos(index_keys(ix), cat);
    if p >= 0 {
        ix.update(p, (cat, ix[p].1.push(name)))
    } else {
        ix.insert(count_lt(index_keys(ix), cat) as int, (cat, seq![name]))
    }
}

/// The index with `name` taken out of the names of `cat`; the category stays.
pub open spec fn index_remove(ix: Seq<(Seq<char>, Seq<Seq<char>>)>, cat: Seq<char>, name: Seq<char>) -> Seq<(Seq<char>, Seq<Seq<char>>)> {
    let p = key_pos(index_keys(ix), cat);
    if p >= 0 {
        ix.update(p, (cat, without(ix[p].1, name)))
    } else {
        ix
    }
}

/// The index built from scratch over some aliases, taken in order.
pub open spec fn index_of(s: Seq<Alias>) -> Seq<(Seq<char>, Seq<Seq<char>>)>
    decreases s.len(),
{
    if s.len() == 0 {
        seq![]
    } else {
        let ix = index_of(s.drop_last());
        match s.last().category {
            Some(c) => index_add(ix, c@, s.last().name@),
            None => ix,
        }
    }
}

/// Position of the alias called `name`, if there is one.
pub open spec fn alias_pos(s: Seq<Alias>, name: Seq<char>) -> int {
    key_pos(alias_names(s), name)
}

/// The category that a command falls under.
pub open spec fn category_of(command: Seq<char>) -> Seq<char> {
    if crate::text::is_prefix("git "@, command) {
        "git"@
    } else if crate::text::is_prefix("docker "@, command) || crate::text::is_prefix("docker-compose "@, command) {
        "docker"@
    } else if crate::text::is_prefix("cargo "@, command) {
        "rust"@
    } else if crate::text::is_prefix("npm "@, command) || crate::text::is_prefix("yarn "@, command)
        || crate::text::is_prefix("pnpm "@, command) {
        "nodejs"@
    } else if crate::text::is_prefix("cd "@, command) || crate::text::is_prefix("ls "@, command) {
        "file"@
    } else {
        "system"@
    }
}

/// Position of the alias called `name`.
fn find_alias(aliases: &Vec<Alias>, name: &str) -> (r: Option<usize>)
    ensures
        match r {
            Some(i) => i < aliases@.len() && aliases@[i as int].name@ == name@,
            None => !alias_names(aliases@).contains(name@),
        },
        r is Some <==> alias_names(aliases@).contains(name@),
{
    let mut i: usize = 0;
    while i < aliases.len()
        invariant
            i <= aliases@.len(),
            forall|j: int| 0 <= j < i ==> aliases@[j].name@ != name@,
        decreases aliases.len() - i,
    {
        if str_eq(aliases[i].name.as_str(), name) {
            assert(alias_names(aliases@)[i as int] == name@);
            return Some(i);
        }
        i = i + 1;
    }
    proof {
        if alias_names(aliases@).contains(name@) {
            let j = choose|j: int| 0 <= j < alias_names(aliases@).len() && alias_names(aliases@)[j] == name@;
            assert(aliases@[j].name@ == name@);
        }
    }
    None
}

/// Where an alias called `name`, which does not occur, goes in the order.
fn alias_slot(aliases: &Vec<Alias>, name: &Vec<char>) -> (k: usize)
    requires
        strictly_sorted(alias_names(aliases@)),
        !alias_names(aliases@).contains(name@),
    ensures
        k <= aliases@.len(),
        forall|j: int| 0 <= j < k ==> lex_lt(#[trigger] alias_names(aliases@)[j], name@),
        forall|j: int| k <= j < aliases@.len() ==> lex_lt(name@, #[trigger] alias_names(aliases@)[j]),
        count_lt(alias_names(aliases@), name@) == k,
{
    let ghost keys = alias_names(aliases@);
    let mut k: usize = 0;
    while k < aliases.len() && lex_less(&chars_of(aliases[k].name.as_str()), name)
        invariant
            k <= aliases@.len(),
            keys == alias_names(aliases@),
            forall|j: int| 0 <= j < k ==> lex_lt(#[trigger] keys[j], name@),
        decreases aliases.len() - k,
    {
        k = k + 1;
    }
    proof {
        assert forall|j: int| k <= j < keys.len() implies lex_lt(name@, #[trigger] keys[j]) by {
            assert(keys[j] != name@);
            lemma_lex_total(keys[j], name@);
            if lex_lt(keys[j], name@) {
                if j > k {
                    assert(lex_lt(keys[k as int], keys[j]));
                    lemma_lex_trans(keys[k as int], keys[j], name@);
                }
            }
        }
        assert forall|j: int| k <= j < keys.len() implies !lex_lt(#[trigger] keys[j], name@) by {
            lemma_lex_asymmetric(name@, keys[j]);
        }
        lemma_count_lt_exact(keys, name@, k as int);
    }
    k
}

/// Position of a category in the index.
fn find_category(index: &Vec<CategoryEntry>, cat: &str) -> (r: Option<usize>)
    ensures
        match r {
            Some(i) => i < index@.len() && index@[i as int].category@ == cat@,
            None => !index_keys(index_view(index@)).contains(cat@),
        },
{
    let mut i: usize = 0;
    while i < index.len()
        invariant
            i <= index@.len(),
            forall|j: int| 0 <= j < i ==> index@[j].category@ != cat@,
        decreases index.len() - i,
    {
        if str_eq(index[i].category.as_str(), cat) {
            return Some(i);
        }
        i = i + 1;
    }
    proof {
        let keys = index_keys(index_view(index@));
        if keys.contains(cat@) {
            let j = choose|j: int| 0 <= j < keys.len() && keys[j] == cat@;
            assert(index@[j].category@ == cat@);
        }
    }
    None
}

/// Where a category that does not occur goes in the order.
fn category_slot(index: &Vec<CategoryEntry>, cat: &Vec<char>) -> (k: usize)
    requires
        strictly_sorted(index_keys(index_view(index@))),
        !index_keys(index_view(index@)).contains(cat@),
    ensures
        k <= index@.len(),
        forall|j: int| 0 <= j < k ==> lex_lt(#[trigger] index_keys(index_view(index@))[j], cat@),
        forall|j: int| k <= j < index@.len() ==> lex_lt(cat@, #[trigger] index_keys(index_view(index@))[j]),
        count_lt(index_keys(index_view(index@)), cat@) == k,
{
    let ghost keys = index_keys(index_view(index@));
    let mut k: usize = 0;
    while k < index.len() && lex_less(&chars_of(index[k].category.as_str()), cat)
        invariant
            k <= index@.len(),
            keys == index_keys(index_view(index@)),
            forall|j: int| 0 <= j < k ==> lex_lt(#[trigger] keys[j], cat@),
        decreases index.len() - k,
    {
        k = k + 1;
    }
    proof {
        assert forall|j: int| k <= j < keys.len() implies lex_lt(cat@, #[trigger] keys[j]) by {
            assert(keys[j] != cat@);
            lemma_lex_total(keys[j], cat@);
            if lex_lt(keys[j], cat@) {
                if j > k {
                    assert(lex_lt(keys[k as int], keys[j]));
                    lemma_lex_trans(keys[k as int], keys[j], cat@);
                }
            }
        }
        assert forall|j: int| k <= j < keys.len() implies !lex_lt(#[trigger] keys[j], cat@) by {
            lemma_lex_asymmetric(cat@, keys[j]);
        }
        lemma_count_lt_exact(keys, cat@, k as int);
    }
    k
}

/// Files `name` under `cat` in the index.
fn index_insert(index: &mut Vec<CategoryEntry>, cat: &str, name: &str)
    requires
        strictly_sorted(index_keys(index_view(old(index)@))),
    ensures
        strictly_sorted(index_keys(index_view(final(index)@))),
        index_view(final(index)@) == index_add(index_view(old(index)@), cat@, name@),
{
    let ghost ix = index_view(index@);
    match find_category(index, cat) {
        Some(i) => {
            proof {
                lemma_key_pos_unique(index_keys(ix), cat@, i as int);
            }
            let mut entry = index.remove(i);
            entry.names.push(owned(name));
            index.insert(i, entry);
            proof {
                assert(texts(entry.names@) =~= ix[i as int].1.push(name@));
                assert(index_view(index@) =~= index_add(ix, cat@, name@));
                assert(index_keys(index_view(index@)) =~= index_keys(ix));
            }
        },
        None => {
            let cv = chars_of(cat);
            let k = category_slot(index, &cv);
            let mut names: Vec<String> = Vec::new();
            names.push(owned(name));
            index.insert(k, CategoryEntry { category: owned(cat), names });
            proof {
                assert(key_pos(index_keys(ix), cat@) == -1);
                assert(texts(names@) =~= seq![name@]);
                assert(index_view(index@) =~= index_add(ix, cat@, name@));
                assert(index_keys(index_view(index@)) =~= index_keys(ix).insert(k as int, cat@));
                lemma_sorted_insert(index_keys(ix), cat@, k as int);
            }
        },
    }
}

/// The names with every occurrence of `name` taken out.
fn retain_other(names: &Vec<String>, name: &str) -> (r: Vec<String>)
    ensures
        texts(r@) == without(texts(names@), name@),
{
    let mut r: Vec<String> = Vec::new();
    let mut i: usize = 0;
    while i < names.len()
        invariant
            i <= names@.len(),
            texts(r@) == without(texts(names@).subrange(0, i as int), name@),
        decreases names.len() - i,
    {
        let ghost pre = texts(names@).subrange(0, i + 1);
        assert(pre.drop_last() =~= texts(names@).subrange(0, i as int));
        if !str_eq(names[i].as_str(), name) {
            r.push(owned(names[i].as_str()));
            assert(texts(r@) =~= without(pre, name@));
        }
        i = i + 1;
    }
    assert(texts(names@).subrange(0, names@.len() as int) =~= texts(names@));
    r
}

/// Takes `name` out of the names filed under `cat`.
fn index_delete(index: &mut Vec<CategoryEntry>, cat: &str, name: &str)
    requires
        strictly_sorted(index_keys(index_view(old(index)@))),
    ensures
        strictly_sorted(index_keys(index_view(final(index)@))),
        index_view(final(index)@) == index_remove(index_view(old(index)@), cat@, name@),
{
    let ghost ix = index_view(index@);
    match find_category(index, cat) {
        Some(i) => {
            proof {
                lemma_key_pos_unique(index_keys(ix), cat@, i as int);
            }
            let entry = index.remove(i);
            let names = retain_other(&entry.names, name);
            index.insert(i, CategoryEntry { category: entry.category, names });
            proof {
                assert(index_view(index@) =~= index_remove(ix, cat@, name@));
                assert(index_keys(index_view(index@)) =~= index_keys(ix));
            }
        },
        None => {
            assert(key_pos(index_keys(ix), cat@) == -1);
        },
    }
}

impl AliasManager {
    /// The aliases, ordered by name.
    pub closed spec fn entries(&self) -> Seq<Alias> {
        self.aliases@
    }

    /// The category index: each category, in order, with the names filed
    /// under it.
    pub closed spec fn index(&self) -> Seq<(Seq<char>, Seq<Seq<char>>)> {
        index_view(self.category_index@)
    }

    /// The persistence file, if one is set.
    pub closed spec fn path(&self) -> Option<Seq<char>> {
        opt_text(self.file_path)
    }

    /// How deep nested aliases are expanded.
    pub closed spec fn depth_limit(&self) -> nat {
        self.max_recursion_depth as nat
    }

    /// Names strictly increase; so do categories.
    pub open spec fn wf(&self) -> bool {
        &&& strictly_sorted(alias_names(self.entries()))
        &&& strictly_sorted(index_keys(self.index()))
    }

    /// Create a new alias manager
    pub fn new() -> (m: Self)
        ensures
            m.wf(),
            m.entries().len() == 0,
            m.index().len() == 0,
            m.path() is None,
            m.depth_limit() == 10,
    {
        AliasManager { aliases: Vec::new(), category_index: Vec::new(), file_path: None, max_recursion_depth: 10 }
    }

    /// Same aliases, index, file and depth limit.
    pub open spec fn same_as(&self, other: &Self) -> bool {
        &&& self.entries() == other.entries()
        &&& self.index() == other.index()
        &&& self.path() == other.path()
        &&& self.depth_limit() == other.depth_limit()
    }

    /// Add a new alias
    ///
    /// The name and the command must not be empty and the name must be new;
    /// the category is detected from the command.
    pub fn add_alias(&mut self, name: &str, command: &str, description: Option<&str>) -> (r: Result<(), AliasError>)
        requires
            old(self).wf(),
        ensures
            final(self).wf(),
            name@.len() == 0 ==> r matches Err(AliasError::InvalidName(_)),
            name@.len() > 0 && command@.len() == 0 ==> r matches Err(AliasError::InvalidCommand(_)),
            name@.len() > 0 && command@.len() > 0 && alias_names(old(self).entries()).contains(name@)
                ==> (r matches Err(AliasError::AlreadyExists(n)) && n@ == name@),
            r is Err ==> final(self).same_as(old(self)),
            r is Ok <==> (name@.len() > 0 && command@.len() > 0 && !alias_names(old(self).entries()).contains(name@)),
            r is Ok ==> {
                let k = count_lt(alias_names(old(self).entries()), name@) as int;
                let a = final(self).entries()[k];
                &&& final(self).entries() == old(self).entries().insert(k, a)
                &&& a.name@ == name@
                &&& a.command@ == command@
                &&& opt_text(a.description) == (match description { Some(d) => Some(d@), None => None })
                &&& opt_text(a.category) == Some(category_of(command@))
                &&& a.enabled
                &&& final(self).index() == index_add(old(self).index(), category_of(command@), name@)
                &&& final(self).path() == old(self).path()
                &&& final(self).depth_limit() == old(self).depth_limit()
            },
            add_effect(old(self).entries(), old(self).index(), final(self).entries(), final(self).index(), name@,
                command@, match description { Some(d) => Some(d@), None => None }),
    {
        if name.unicode_len() == 0 {
            return Err(AliasError::InvalidName(owned("Alias name cannot be empty")));
        }
        if command.unicode_len() == 0 {
            return Err(AliasError::InvalidCommand(owned("Command cannot be empty")));
        }
        if let Some(_) = find_alias(&self.aliases, name) {
            return Err(AliasError::AlreadyExists(owned(name)));
        }
        let mut alias = match description {
            Some(d) => Alias::with_description(name, command, d),
            None => Alias::new(name, command),
        };
        if alias.category.is_none() {
            alias.category = Self::detect_category(command);
        }
        let cat = match &alias.category {
            Some(c) => owned(c.as_str()),
            None => owned("system"),
        };
        index_insert(&mut self.category_index, cat.as_str(), name);
        let nv = chars_of(name);
        let k = alias_slot(&self.aliases, &nv);
        let ghost old_names = alias_names(self.aliases@);
        self.aliases.insert(k, alias);
        proof {
            assert(alias_names(self.aliases@) =~= old_names.insert(k as int, name@));
            lemma_sorted_insert(old_names, name@, k as int);
        }
        Ok(())
    }

    /// Remove an alias by name
    pub fn remove_alias(&mut self, name: &str) -> (r: Result<Alias, AliasError>)
        requires
            old(self).wf(),
        ensures
            final(self).wf(),
            match r {
                Ok(a) => {
                    let p = alias_pos(old(self).entries(), name@);
                    &&& 0 <= p < old(self).entries().len()
                    &&& a == old(self).entries()[p]
                    &&& final(self).entries() == old(self).entries().remove(p)
                    &&& final(self).index() == match a.category {
                        Some(c) => index_remove(old(self).index(), c@, name@),
                        None => old(self).index(),
                    }
                    &&& final(self).path() == old(self).path()
                    &&& final(self).depth_limit() == old(self).depth_limit()
                },
                Err(e) => {
                    &&& !alias_names(old(self).entries()).contains(name@)
                    &&& (e matches AliasError::NotFound(n) && n@ == name@)
                    &&& final(self).same_as(old(self))
                },
            },
            r is Ok <==> alias_names(old(self).entries()).contains(name@),
    {
        match find_alias(&self.aliases, name) {
            None => Err(AliasError::NotFound(owned(name))),
            Some(i) => {
                proof {
                    lemma_key_pos_unique(alias_names(self.aliases@), name@, i as int);
                    assert(alias_names(self.aliases@)[i as int] == name@);
                }
                let ghost old_names = alias_names(self.aliases@);
                let alias = self.aliases.remove(i);
                proof {
                    assert(alias_names(self.aliases@) =~= old_names.remove(i as int));
                    assert forall|a: int, b: int| 0 <= a < b < alias_names(self.aliases@).len() implies
                        lex_lt(#[trigger] alias_names(self.aliases@)[a], #[trigger] alias_names(self.aliases@)[b]) by {
                        let a2 = if a < i { a } else { a + 1 };
                        let b2 = if b < i { b } else { b + 1 };
                        assert(lex_lt(old_names[a2], old_names[b2]));
                    }
                }
                match &alias.category {
                    Some(c) => {
                        index_delete(&mut self.category_index, c.as_str(), name);
                    },
                    None => {},
                }
                Ok(alias)
            },
        }
    }

    /// Update the command of an existing alias
    pub fn update_alias(&mut self, name: &str, new_command: &str) -> (r: Result<(), AliasError>)
        requires
            old(self).wf(),
        ensures
            final(self).wf(),
            new_command@.len() == 0 ==> r matches Err(AliasError::InvalidCommand(_)),
            new_command@.len() > 0 && !alias_names(old(self).entries()).contains(name@)
                ==> (r matches Err(AliasError::NotFound(n)) && n@ == name@),
            r is Ok <==> (new_command@.len() > 0 && alias_names(old(self).entries()).contains(name@)),
            r is Err ==> final(self).same_as(old(self)),
            r is Ok ==> {
                let p = alias_pos(old(self).entries(), name@);
                let a = final(self).entries()[p];
                &&& final(self).entries() == old(self).entries().update(p, a)
                &&& a.command@ == new_command@
                &&& a.name == old(self).entries()[p].name
                &&& a.description == old(self).entries()[p].description
                &&& a.category == old(self).entries()[p].category
                &&& a.created_at == old(self).entries()[p].created_at
                &&& a.enabled == old(self).entries()[p].enabled
                &&& final(self).index() == old(self).index()
                &&& final(self).path() == old(self).path()
                &&& final(self).depth_limit() == old(self).depth_limit()
            },
    {
        if new_command.unicode_len() == 0 {
            return Err(AliasError::InvalidCommand(owned("Command cannot be empty")));
        }
        match find_alias(&self.aliases, name) {
            None => Err(AliasError::NotFound(owned(name))),
            Some(i) => {
                proof {
                    lemma_key_pos_unique(alias_names(self.aliases@), name@, i as int);
                    assert(alias_names(self.aliases@)[i as int] == name@);
                }
                let ghost old_names = alias_names(self.aliases@);
                let mut alias = self.aliases.remove(i);
                alias.command = owned(new_command);
                self.aliases.insert(i, alias);
                proof {
                    assert(alias_names(self.aliases@) =~= old_names);
                }
                Ok(())
            },
        }
    }

    /// Get an alias by name
    pub fn get_alias(&self, name: &str) -> (r: Option<&Alias>)
        requires
            self.wf(),
        ensures
            match r {
                Some(a) => {
                    let p = alias_pos(self.entries(), name@);
                    0 <= p < self.entries().len() && *a == self.entries()[p]
                },
                None => !alias_names(self.entries()).contains(name@),
            },
    {
        match find_alias(&self.aliases, name) {
            None => None,
            Some(i) => {
                proof {
                    lemma_key_pos_unique(alias_names(self.aliases@), name@, i as int);
                }
                Some(&self.aliases[i])
            },
        }
    }

    /// Get a mutable alias by name
    pub fn get_alias_mut(&mut self, name: &str) -> (r: Option<&mut Alias>)
        requires
            old(self).wf(),
        ensures
            match r {
                Some(a) => {
                    let p = alias_pos(old(self).entries(), name@);
                    &&& 0 <= p < old(self).entries().len()
                    &&& *a == old(self).entries()[p]
                    &&& final(self).entries() == old(self).entries().update(p, *final(a))
                    &&& final(self).index() == old(self).index()
                    &&& final(self).path() == old(self).path()
                    &&& final(self).depth_limit() == old(self).depth_limit()
                },
                None => !alias_names(old(self).entries()).contains(name@) && final(self).same_as(old(self)),
            },
    {
        match find_alias(&self.aliases, name) {
            None => None,
            Some(i) => {
                proof {
                    lemma_key_pos_unique(alias_names(self.aliases@), name@, i as int);
                }
                Some(&mut self.aliases[i])
            },
        }
    }

    /// Check if an alias exists
    pub fn contains(&self, name: &str) -> (r: bool)
        ensures
            r == alias_names(self.entries()).contains(name@),
    {
        find_alias(&self.aliases, name).is_some()
    }

    /// Get the number of aliases
    pub fn len(&self) -> (n: usize)
        ensures
            n == self.entries().len(),
    {
        self.aliases.len()
    }

    /// Check if the manager has no aliases
    pub fn is_empty(&self) -> (r: bool)
        ensures
            r == (self.entries().len() == 0),
    {
        self.aliases.len() == 0
    }

    /// Clear all aliases
    pub fn clear(&mut self)
        ensures
            final(self).wf(),
            final(self).entries().len() == 0,
            final(self).index().len() == 0,
            final(self).path() == old(self).path(),
            final(self).depth_limit() == old(self).depth_limit(),
    {
        self.aliases.clear();
        self.category_index.clear();
    }

    /// Detect category based on command content
    pub fn detect_category(command: &str) -> (r: Option<String>)
        ensures
            opt_text(r) == Some(category_of(command@)),
    {
        let c = chars_of(command);
        if crate::text::starts_with(&c, &chars_of("git ")) {
            Some(owned("git"))
        } else if crate::text::starts_with(&c, &chars_of("docker ")) || crate::text::starts_with(&c, &chars_of("docker-compose ")) {
            Some(owned("docker"))
        } else if crate::text::starts_with(&c, &chars_of("cargo ")) {
            Some(owned("rust"))
        } else if crate::text::starts_with(&c, &chars_of("npm ")) || crate::text::starts_with(&c, &chars_of("yarn "))
            || crate::text::starts_with(&c, &chars_of("pnpm ")) {
            Some(owned("nodejs"))
        } else if crate::text::starts_with(&c, &chars_of("cd ")) || crate::text::starts_with(&c, &chars_of("ls ")) {
            Some(owned("file"))
        } else {
            Some(owned("system"))
        }
    }

    /// List all aliases, ordered by name
    pub fn list_aliases(&self) -> (r: Vec<&Alias>)
        ensures
            r@.len() == self.entries().len(),
            forall|i: int| 0 <= i < r@.len() ==> *(#[trigger] r@[i]) == self.entries()[i],
    {
        let mut r: Vec<&Alias> = Vec::new();
        let mut i: usize = 0;
        while i < self.aliases.len()
            invariant
                i <= self.aliases@.len(),
                r@.len() == i,
                forall|j: int| 0 <= j < i ==> *(#[trigger] r@[j]) == self.aliases@[j],
            decreases self.aliases.len() - i,
        {
            r.push(&self.aliases[i]);
            i = i + 1;
        }
        r
    }

    /// List only enabled aliases, ordered by name
    pub fn list_enabled_aliases(&self) -> (r: Vec<&Alias>)
        ensures
            r@.len() == enabled_of(self.entries()).len(),
            forall|i: int| 0 <= i < r@.len() ==> *(#[trigger] r@[i]) == enabled_of(self.entries())[i],
    {
        let mut r: Vec<&Alias> = Vec::new();
        let mut i: usize = 0;
        while i < self.aliases.len()
            invariant
                i <= self.aliases@.len(),
                r@.len() == enabled_of(self.aliases@.subrange(0, i as int)).len(),
                forall|j: int| 0 <= j < r@.len() ==> *(#[trigger] r@[j]) == enabled_of(self.aliases@.subrange(0, i as int))[j],
            decreases self.aliases.len() - i,
        {
            assert(self.aliases@.subrange(0, i + 1).drop_last() =~= self.aliases@.subrange(0, i as int));
            if self.aliases[i].enabled {
                r.push(&self.aliases[i]);
            }
            i = i + 1;
        }
        assert(self.aliases@.subrange(0, self.aliases@.len() as int) =~= self.aliases@);
        r
    }

    /// Get aliases by category, in the order the index files them
    pub fn get_by_category(&self, category: &str) -> (r: Vec<&Alias>)
        requires
            self.wf(),
        ensures
            r@.len() == resolved(self.entries(), filed_under(self.index(), category@)).len(),
            forall|i: int| 0 <= i < r@.len() ==>
                *(#[trigger] r@[i]) == resolved(self.entries(), filed_under(self.index(), category@))[i],
    {
        let mut r: Vec<&Alias> = Vec::new();
        match find_category(&self.category_index, category) {
            None => {
                proof {
                    assert(key_pos(index_keys(self.index()), category@) == -1);
                }
                r
            },
            Some(c) => {
                proof {
                    lemma_key_pos_unique(index_keys(self.index()), category@, c as int);
                }
                let names = &self.category_index[c].names;
                let ghost ns = texts(names@);
                assert(ns == filed_under(self.index(), category@));
                let mut i: usize = 0;
                while i < names.len()
                    invariant
                        self.wf(),
                        i <= names@.len(),
                        ns == texts(names@),
                        r@.len() == resolved(self.aliases@, ns.subrange(0, i as int)).len(),
                        forall|j: int| 0 <= j < r@.len() ==>
                            *(#[trigger] r@[j]) == resolved(self.aliases@, ns.subrange(0, i as int))[j],
                    decreases names.len() - i,
                {
                    assert(ns.subrange(0, i + 1).drop_last() =~= ns.subrange(0, i as int));
                    match find_alias(&self.aliases, names[i].as_str()) {
                        Some(k) => {
                            proof {
                                lemma_key_pos_unique(alias_names(self.aliases@), ns[i as int], k as int);
                            }
                            r.push(&self.aliases[k]);
                        },
                        None => {
                            assert(key_pos(alias_names(self.aliases@), ns[i as int]) == -1);
                        },
                    }
                    i = i + 1;
                }
                assert(ns.subrange(0, names@.len() as int) =~= ns);
                r
            },
        }
    }

    /// Get all categories, in order
    pub fn get_categories(&self) -> (r: Vec<String>)
        ensures
            texts(r@) == index_keys(self.index()),
    {
        let mut r: Vec<String> = Vec::new();
        let mut i: usize = 0;
        while i < self.category_index.len()
            invariant
                i <= self.category_index@.len(),
                texts(r@) == index_keys(self.index()).subrange(0, i as int),
            decreases self.category_index.len() - i,
        {
            let c = owned(self.category_index[i].category.as_str());
            assert(c@ == index_keys(self.index())[i as int]);
            let ghost prev = r@;
            r.push(c);
            assert(r@ == prev.push(c));
            assert(texts(r@) =~= texts(prev).push(c@));
            i = i + 1;
            assert(texts(r@) =~= index_keys(self.index()).subrange(0, i as int));
        }
        assert(index_keys(self.index()).subrange(0, self.category_index@.len() as int) =~= index_keys(self.index()));
        r
    }

    /// Toggle an alias on/off; returns the new state
    pub fn toggle_alias(&mut self, name: &str) -> (r: Result<bool, AliasError>)
        requires
            old(self).wf(),
        ensures
            final(self).wf(),
            match r {
                Ok(b) => {
                    let p = alias_pos(old(self).entries(), name@);
                    let a = final(self).entries()[p];
                    &&& 0 <= p < old(self).entries().len()
                    &&& final(self).entries() == old(self).entries().update(p, a)
                    &&& a.enabled == !old(self).entries()[p].enabled
                    &&& b == a.enabled
                    &&& a.name == old(self).entries()[p].name
                    &&& a.command == old(self).entries()[p].command
                    &&& a.description == old(self).entries()[p].description
                    &&& a.category == old(self).entries()[p].category
                    &&& a.created_at == old(self).entries()[p].created_at
                    &&& final(self).index() == old(self).index()
                    &&& final(self).path() == old(self).path()
                    &&& final(self).depth_limit() == old(self).depth_limit()
                },
                Err(e) => {
                    &&& !alias_names(old(self).entries()).contains(name@)
                    &&& (e matches AliasError::NotFound(n) && n@ == name@)
                    &&& final(self).same_as(old(self))
                },
            },
    {
        match find_alias(&self.aliases, name) {
            None => Err(AliasError::NotFound(owned(name))),
            Some(i) => {
                proof {
                    lemma_key_pos_unique(alias_names(self.aliases@), name@, i as int);
                }
                let ghost old_names = alias_names(self.aliases@);
                let mut alias = self.aliases.remove(i);
                alias.enabled = !alias.enabled;
                let b = alias.enabled;
                self.aliases.insert(i, alias);
                proof {
                    assert(alias_names(self.aliases@) =~= old_names);
                }
                Ok(b)
            },
        }
    }

    /// Rebuild the category index from scratch
    pub fn rebuild_category_index(&mut self)
        requires
            old(self).wf(),
        ensures
            final(self).wf(),
            final(self).entries() == old(self).entries(),
            final(self).index() == index_of(old(self).entries()),
            final(self).path() == old(self).path(),
            final(self).depth_limit() == old(self).depth_limit(),
    {
        self.category_index.clear();
        let mut i: usize = 0;
        assert(index_view(self.category_index@) =~= index_of(self.aliases@.subrange(0, 0)));
        while i < self.aliases.len()
            invariant
                i <= self.aliases@.len(),
                self.aliases@ == old(self).aliases@,
                self.file_path == old(self).file_path,
                self.max_recursion_depth == old(self).max_recursion_depth,
                strictly_sorted(alias_names(self.aliases@)),
                strictly_sorted(index_keys(index_view(self.category_index@))),
                index_view(self.category_index@) == index_of(self.aliases@.subrange(0, i as int)),
            decreases self.aliases.len() - i,
        {
            assert(self.aliases@.subrange(0, i + 1).drop_last() =~= self.aliases@.subrange(0, i as int));
            match &self.aliases[i].category {
                Some(c) => {
                    index_insert(&mut self.category_index, c.as_str(), self.aliases[i].name.as_str());
                },
                None => {},
            }
            i = i + 1;
        }
        assert(self.aliases@.subrange(0, self.aliases@.len() as int) =~= self.aliases@);
    }

    /// The persistence file, if one is set.
    pub fn file_path(&self) -> (r: Option<String>)
        ensures
            opt_text(r) == self.path(),
    {
        match &self.file_path {
            Some(p) => Some(owned(p.as_str())),
            None => None,
        }
    }

    /// Sets the persistence file.
    pub fn set_file_path(&mut self, path: &str)
        ensures
            final(self).path() == Some(path@),
            final(self).entries() == old(self).entries(),
            final(self).index() == old(self).index(),
            final(self).depth_limit() == old(self).depth_limit(),
    {
        self.file_path = Some(owned(path));
    }

    /// Parse a shell alias definition (e.g. `name='command'`)
    pub fn parse_shell_alias(definition: &str) -> (r: Option<(String, String)>)
        ensures
            match r {
                Some((n, c)) => shell_alias(definition@) == Some((n@, c@)),
                None => shell_alias(definition@) is None,
            },
    {
        let d = chars_of(definition);
        match crate::text::index_of(&d, '=') {
            None => None,
            Some(i) => {
                let left = crate::text::slice_chars(&d, 0, i);
                let right = crate::text::slice_chars(&d, i + 1, d.len());
                let name = crate::text::trim_chars(&left);
                let command = crate::text::trim_chars(&right);
                let unq = unquote_chars(&command);
                proof {
                    assert(first_eq_at(definition@, i as int));
                }
                Some((crate::text::string_of(&name), crate::text::string_of(&unq)))
            },
        }
    }
}

/// The aliases that are enabled, in order.
pub open spec fn enabled_of(s: Seq<Alias>) -> Seq<Alias>
    decreases s.len(),
{
    if s.len() == 0 {
        seq![]
    } else if s.last().enabled {
        enabled_of(s.drop_last()).push(s.last())
    } else {
        enabled_of(s.drop_last())
    }
}

/// The names that the index files under `cat`.
pub open spec fn filed_under(ix: Seq<(Seq<char>, Seq<Seq<char>>)>, cat: Seq<char>) -> Seq<Seq<char>> {
    let p = key_pos(index_keys(ix), cat);
    if p >= 0 {
        ix[p].1
    } else {
        seq![]
    }
}

/// The aliases called by the given names, in order, skipping names that no
/// alias has.
pub open spec fn resolved(s: Seq<Alias>, names: Seq<Seq<char>>) -> Seq<Alias>
    decreases names.len(),
{
    if names.len() == 0 {
        seq![]
    } else {
        let p = alias_pos(s, names.last());
        if p >= 0 {
            resolved(s, names.drop_last()).push(s[p])
        } else {
            resolved(s, names.drop_last())
        }
    }
}

/// Whether position `i` holds the first `=` of `d`.
pub open spec fn first_eq_at(d: Seq<char>, i: int) -> bool {
    0 <= i < d.len() && d[i] == '=' && forall|j: int| 0 <= j < i ==> d[j] != '='
}

/// A command with one pair of matching single or double quotes around it
/// taken off.
pub open spec fn unquoted(c: Seq<char>) -> Seq<char> {
    if c.len() >= 2 && ((c[0] == '\'' && c.last() == '\'') || (c[0] == '"' && c.last() == '"')) {
        c.subrange(1, c.len() - 1)
    } else {
        c
    }
}

/// A shell alias definition `name=command` read as its name and command:
/// both trimmed, the command's quotes taken off.
pub open spec fn shell_alias(d: Seq<char>) -> Option<(Seq<char>, Seq<char>)> {
    if exists|i: int| first_eq_at(d, i) {
        let i = choose|i: int| first_eq_at(d, i);
        Some((crate::text::trim(d.subrange(0, i)), unquoted(crate::text::trim(d.subrange(i + 1, d.len() as int)))))
    } else {
        None
    }
}

/// Takes one pair of matching quotes off a command.
fn unquote_chars(c: &Vec<char>) -> (r: Vec<char>)
    ensures
        r@ == unquoted(c@),
{
    let n = c.len();
    if n >= 2 && ((c[0] == '\'' && c[n - 1] == '\'') || (c[0] == '"' && c[n - 1] == '"')) {
        crate::text::slice_chars(c, 1, n - 1)
    } else {
        crate::text::slice_chars(c, 0, n)
    }
}

/// The texts of some character vectors.
pub open spec fn char_views(v: Seq<Vec<char>>) -> Seq<Seq<char>> {
    v.map_values(|w: Vec<char>| w@)
}

/// The numbered parameters `$1` .. `$n` (each also as `${k}`) replaced by
/// the arguments, in turn.
pub open spec fn numbered(s: Seq<char>, args: Seq<Seq<char>>, n: nat) -> Seq<char>
    decreases n,
{
    if n == 0 {
        s
    } else {
        let t = numbered(s, args, (n - 1) as nat);
        let a = args[n - 1];
        replaced(replaced(t, "${"@ + decimal(n) + "}"@, a), "$"@ + decimal(n), a)
    }
}

/// A command with its parameters substituted: `${*}`, `$*`, `${@}` and `$@`
/// by all arguments joined with spaces, `$#` by their number, `${k}` and `$k`
/// by the `k`-th; a command without any `$` gets the arguments appended.
pub open spec fn substituted(command: Seq<char>, args: Seq<Seq<char>>) -> Seq<char> {
    let all = joined(args, " "@);
    let r1 = replaced(replaced(replaced(replaced(command, "${*}"@, all), "$*"@, all), "${@}"@, all), "$@"@, all);
    let r2 = replaced(r1, "$#"@, decimal(args.len()));
    let r3 = numbered(r2, args, args.len());
    if !command.contains('$') && args.len() > 0 {
        r3 + " "@ + all
    } else {
        r3
    }
}

/// Whether a text holds no `$`.
pub open spec fn dollar_free(s: Seq<char>) -> bool {
    forall|i: int| 0 <= i < s.len() ==> s[i] != '$'
}

proof fn lemma_replaced_free(s: Seq<char>, p: Seq<char>, r: Seq<char>)
    requires
        dollar_free(s),
        p.len() > 0,
        p[0] == '$',
    ensures
        replaced(s, p, r) == s,
    decreases s.len(),
{
    if s.len() > 0 {
        if p.len() <= s.len() {
            assert(s.subrange(0, p.len() as int)[0] == s[0]);
        }
        assert(!crate::text::is_prefix(p, s));
        lemma_replaced_free(s.drop_first(), p, r);
        assert(seq![s[0]] + s.drop_first() =~= s);
    }
}

proof fn lemma_replaced_free_prefix(a: Seq<char>, b: Seq<char>, p: Seq<char>, r: Seq<char>)
    requires
        dollar_free(a),
        p.len() > 0,
        p[0] == '$',
    ensures
        replaced(a + b, p, r) == a + replaced(b, p, r),
    decreases a.len(),
{
    if a.len() == 0 {
        assert(a + b =~= b);
    } else {
        let s = a + b;
        if p.len() <= s.len() {
            assert(s.subrange(0, p.len() as int)[0] == s[0]);
        }
        assert(s[0] == a[0]);
        assert(!crate::text::is_prefix(p, s));
        assert(s.drop_first() =~= a.drop_first() + b);
        lemma_replaced_free_prefix(a.drop_first(), b, p, r);
        assert(seq![a[0]] + (a.drop_first() + replaced(b, p, r)) =~= a + replaced(b, p, r));
    }
}

proof fn lemma_joined_free(parts: Seq<Seq<char>>)
    requires
        forall|i: int| 0 <= i < parts.len() ==> dollar_free(#[trigger] parts[i]),
    ensures
        dollar_free(joined(parts, " "@)),
    decreases parts.len(),
{
    reveal_strlit(" ");
    if parts.len() > 1 {
        let d = parts.drop_last();
        assert forall|i: int| 0 <= i < d.len() implies dollar_free(#[trigger] d[i]) by {
            assert(d[i] == parts[i]);
        }
        lemma_joined_free(d);
        assert(dollar_free(parts[parts.len() - 1]));
        let j = joined(d, " "@) + " "@ + parts.last();
        assert forall|i: int| 0 <= i < j.len() implies j[i] != '$' by {
            let jd = joined(d, " "@);
            if i < jd.len() {
                assert(j[i] == jd[i]);
            } else if i == jd.len() {
                assert(j[i] == ' ');
            } else {
                assert(j[i] == parts.last()[i - jd.len() - 1]);
            }
        }
    } else if parts.len() == 1 {
        assert(dollar_free(parts[0]));
    }
}

proof fn lemma_numbered_free(s: Seq<char>, args: Seq<Seq<char>>, n: nat)
    requires
        dollar_free(s),
    ensures
        numbered(s, args, n) == s,
    decreases n,
{
    reveal_strlit("${");
    reveal_strlit("$");
    if n > 0 {
        lemma_numbered_free(s, args, (n - 1) as nat);
        let a = args[n - 1];
        let p1 = "${"@ + decimal(n) + "}"@;
        let p2 = "$"@ + decimal(n);
        assert(p1[0] == '$');
        assert(p2[0] == '$');
        lemma_replaced_free(s, p1, a);
        lemma_replaced_free(s, p2, a);
    }
}

/// The placeholders that stand for all the arguments together.
pub open spec fn all_args_form(f: Seq<char>) -> bool {
    f == "${*}"@ || f == "$*"@ || f == "${@}"@ || f == "$@"@
}

proof fn lemma_other_form_absent(form: Seq<char>, pat: Seq<char>, q: Seq<char>, r: Seq<char>)
    requires
        all_args_form(form),
        all_args_form(pat),
        form != pat,
        dollar_free(q),
    ensures
        replaced(form + q, pat, r) == form + q,
{
    reveal_strlit("${*}");
    reveal_strlit("$*");
    reveal_strlit("${@}");
    reveal_strlit("$@");
    let tail = form + q;
    assert(tail[0] == '$' && tail[1] == form[1]);
    if form.len() == 4 {
        assert(tail[2] == form[2]);
    }
    if crate::text::is_prefix(pat, tail) {
        assert(tail.subrange(0, pat.len() as int)[1] == tail[1]);
        if pat[1] == form[1] {
            assert(tail.subrange(0, pat.len() as int)[2] == tail[2]);
        }
    }
    let rest = form.drop_first() + q;
    assert(tail.drop_first() =~= rest);
    assert(dollar_free(rest)) by {
        assert forall|i: int| 0 <= i < rest.len() implies rest[i] != '$' by {
            if i < form.len() - 1 {
                assert(rest[i] == form[i + 1]);
            } else {
                assert(rest[i] == q[i - form.len() + 1]);
            }
        }
    }
    lemma_replaced_free(rest, pat, r);
    assert(seq![tail[0]] + rest =~= tail);
}

/// An alias command with one placeholder for all the arguments (`$@`, `$*`,
/// `${@}` or `${*}`) and no other `$` gets all the arguments in its place,
/// joined with single spaces, when they hold no `$` themselves; nothing of
/// the placeholder remains.
pub proof fn lemma_all_arguments_placeholder(p: Seq<char>, form: Seq<char>, q: Seq<char>, args: Seq<Seq<char>>)
    requires
        all_args_form(form),
        dollar_free(p),
        dollar_free(q),
        forall|i: int| 0 <= i < args.len() ==> dollar_free(#[trigger] args[i]),
    ensures
        substituted(p + form + q, args) == p + joined(args, " "@) + q,
{
    reveal_strlit("$@");
    reveal_strlit("${*}");
    reveal_strlit("$*");
    reveal_strlit("${@}");
    reveal_strlit("$#");
    let all = joined(args, " "@);
    let tail = form + q;
    let c = p + tail;
    assert(c =~= p + form + q);
    let r1 = p + (all + q);
    lemma_joined_free(args);
    assert(dollar_free(r1));
    assert forall|pat: Seq<char>| all_args_form(pat) implies #[trigger] replaced(c, pat, all)
        == (if pat == form { r1 } else { c }) by {
        assert(pat[0] == '$' && pat.len() > 0);
        lemma_replaced_free_prefix(p, tail, pat, all);
        if pat == form {
            assert(crate::text::is_prefix(form, tail)) by {
                assert(tail.subrange(0, form.len() as int) =~= form);
            }
            assert(tail.subrange(form.len() as int, tail.len() as int) =~= q);
            lemma_replaced_free(q, form, all);
        } else {
            lemma_other_form_absent(form, pat, q, all);
        }
    }
    assert forall|pat: Seq<char>| all_args_form(pat) implies #[trigger] replaced(r1, pat, all) == r1 by {
        lemma_replaced_free(r1, pat, all);
    }
    assert(all_args_form("${*}"@) && all_args_form("$*"@) && all_args_form("${@}"@) && all_args_form("$@"@));
    let x1 = replaced(c, "${*}"@, all);
    let x2 = replaced(x1, "$*"@, all);
    let x3 = replaced(x2, "${@}"@, all);
    let x4 = replaced(x3, "$@"@, all);
    assert(x4 == r1);
    lemma_replaced_free(r1, "$#"@, decimal(args.len()));
    lemma_numbered_free(r1, args, args.len());
    assert(c[p.len() as int] == '$');
    assert(c.contains('$'));
    assert(r1 =~= p + all + q);
}

/// An alias command with one `$#` and no other `$` gets the number of
/// arguments in its place.
pub proof fn lemma_argument_count_placeholder(p: Seq<char>, q: Seq<char>, args: Seq<Seq<char>>)
    requires
        dollar_free(p),
        dollar_free(q),
    ensures
        substituted(p + "$#"@ + q, args) == p + decimal(args.len()) + q,
{
    reveal_strlit("$@");
    reveal_strlit("${*}");
    reveal_strlit("$*");
    reveal_strlit("${@}");
    reveal_strlit("$#");
    let all = joined(args, " "@);
    let tail = "$#"@ + q;
    let c = p + tail;
    assert(c =~= p + "$#"@ + q);
    let rest = seq!['#'] + q;
    assert(tail =~= seq!['$'] + rest);
    assert(dollar_free(rest));
    assert forall|pat: Seq<char>| all_args_form(pat) implies #[trigger] replaced(c, pat, all) == c by {
        assert(pat[0] == '$' && pat.len() >= 2 && pat[1] != '#');
        lemma_replaced_free_prefix(p, tail, pat, all);
        if crate::text::is_prefix(pat, tail) {
            assert(tail.subrange(0, pat.len() as int)[1] == tail[1]);
        }
        assert(tail.drop_first() =~= rest);
        lemma_replaced_free(rest, pat, all);
    }
    assert(all_args_form("${*}"@) && all_args_form("$*"@) && all_args_form("${@}"@) && all_args_form("$@"@));
    let d = decimal(args.len());
    lemma_replaced_free_prefix(p, tail, "$#"@, d);
    assert(crate::text::is_prefix("$#"@, tail)) by {
        assert(tail.subrange(0, 2) =~= "$#"@);
    }
    assert(tail.subrange(2, tail.len() as int) =~= q);
    lemma_replaced_free(q, "$#"@, d);
    let r2 = p + (d + q);
    lemma_decimal_free(args.len());
    assert(dollar_free(r2)) by {
        assert forall|i: int| 0 <= i < r2.len() implies r2[i] != '$' by {
            if i < p.len() {
            } else if i < p.len() + d.len() {
                assert(r2[i] == d[i - p.len()]);
            } else {
                assert(r2[i] == q[i - p.len() - d.len()]);
            }
        }
    }
    lemma_numbered_free(r2, args, args.len());
    assert(c[p.len() as int] == '$');
    assert(c.contains('$'));
    assert(r2 =~= p + d + q);
}

/// An alias command without any `$` gets the arguments appended after a
/// space, and stays as it is when there are none.
pub proof fn lemma_no_placeholders(command: Seq<char>, args: Seq<Seq<char>>)
    requires
        dollar_free(command),
    ensures
        substituted(command, args) == if args.len() > 0 { command + " "@ + joined(args, " "@) } else { command },
{
    reveal_strlit("$@");
    reveal_strlit("${*}");
    reveal_strlit("$*");
    reveal_strlit("${@}");
    reveal_strlit("$#");
    let all = joined(args, " "@);
    lemma_replaced_free(command, "${*}"@, all);
    lemma_replaced_free(command, "$*"@, all);
    lemma_replaced_free(command, "${@}"@, all);
    lemma_replaced_free(command, "$@"@, all);
    lemma_replaced_free(command, "$#"@, decimal(args.len()));
    lemma_numbered_free(command, args, args.len());
    assert(!command.contains('$'));
}

/// An alias command with one `$1` and no other `$` gets the first argument
/// in its place, when the arguments hold no `$`.
pub proof fn lemma_first_argument_placeholder(p: Seq<char>, q: Seq<char>, args: Seq<Seq<char>>)
    requires
        dollar_free(p),
        dollar_free(q),
        args.len() >= 1,
        forall|i: int| 0 <= i < args.len() ==> dollar_free(#[trigger] args[i]),
    ensures
        substituted(p + "$1"@ + q, args) == p + args[0] + q,
{
    reveal_strlit("$@");
    reveal_strlit("${*}");
    reveal_strlit("$*");
    reveal_strlit("${@}");
    reveal_strlit("$#");
    reveal_strlit("$1");
    reveal_strlit("${");
    reveal_strlit("}");
    reveal_strlit("$");
    let all = joined(args, " "@);
    let tail = "$1"@ + q;
    let c = p + tail;
    assert(c =~= p + "$1"@ + q);
    let rest = seq!['1'] + q;
    assert(tail =~= seq!['$'] + rest);
    assert(dollar_free(rest));
    assert(tail.drop_first() =~= rest);
    assert forall|pat: Seq<char>, rr: Seq<char>| pat.len() >= 2 && pat[0] == '$' && pat[1] != '1' implies #[trigger] replaced(c, pat, rr) == c by {
        lemma_replaced_free_prefix(p, tail, pat, rr);
        if crate::text::is_prefix(pat, tail) {
            assert(tail.subrange(0, pat.len() as int)[1] == tail[1]);
        }
        lemma_replaced_free(rest, pat, rr);
        assert(seq![tail[0]] + rest =~= tail);
    }
    let d = decimal(args.len());
    assert(replaced(c, "${*}"@, all) == c);
    assert(replaced(c, "$*"@, all) == c);
    assert(replaced(c, "${@}"@, all) == c);
    assert(replaced(c, "$@"@, all) == c);
    assert(replaced(c, "$#"@, d) == c) by {
        lemma_replaced_free_prefix(p, tail, "$#"@, d);
        if crate::text::is_prefix("$#"@, tail) {
            assert(tail.subrange(0, 2)[1] == tail[1]);
        }
        lemma_replaced_free(rest, "$#"@, d);
    }
    let a = args[0];
    let r = p + (a + q);
    assert(dollar_free(r)) by {
        assert(dollar_free(a));
        assert forall|i: int| 0 <= i < r.len() implies r[i] != '$' by {
            if i < p.len() {
            } else if i < p.len() + a.len() {
                assert(r[i] == a[i - p.len()]);
            } else {
                assert(r[i] == q[i - p.len() - a.len()]);
            }
        }
    }
    // The first step of the numbered substitution places the first argument.
    assert(decimal(1) =~= seq!['1']);
    let b1 = "${"@ + decimal(1) + "}"@;
    let s1 = "$"@ + decimal(1);
    assert(b1[0] == '$' && b1[1] == '{' && b1.len() >= 2);
    assert(replaced(c, b1, a) == c);
    assert(s1 =~= "$1"@);
    lemma_replaced_free_prefix(p, tail, "$1"@, a);
    assert(crate::text::is_prefix("$1"@, tail)) by {
        assert(tail.subrange(0, 2) =~= "$1"@);
    }
    assert(tail.subrange(2, tail.len() as int) =~= q);
    lemma_replaced_free(q, "$1"@, a);
    assert(replaced(tail, "$1"@, a) == a + q);
    assert(replaced(c, "$1"@, a) == r);
    assert(numbered(c, args, 0) == c);
    assert(numbered(c, args, 1) == replaced(replaced(c, b1, a), s1, a));
    assert(numbered(c, args, 1) == r);
    lemma_numbered_after(c, args, args.len(), r);
    assert(c[p.len() as int] == '$');
    assert(c.contains('$'));
    assert(r =~= p + a + q);
}

proof fn lemma_numbered_after(s: Seq<char>, args: Seq<Seq<char>>, n: nat, r: Seq<char>)
    requires
        n >= 1,
        numbered(s, args, 1) == r,
        dollar_free(r),
    ensures
        numbered(s, args, n) == r,
    decreases n,
{
    reveal_strlit("${");
    reveal_strlit("$");
    if n > 1 {
        lemma_numbered_after(s, args, (n - 1) as nat, r);
        let p1 = "${"@ + decimal(n) + "}"@;
        let p2 = "$"@ + decimal(n);
        assert(p1[0] == '$');
        assert(p2[0] == '$');
        lemma_replaced_free(r, p1, args[n - 1]);
        lemma_replaced_free(r, p2, args[n - 1]);
    }
}

proof fn lemma_decimal_free(n: nat)
    ensures
        dollar_free(decimal(n)),
    decreases n,
{
    if n >= 10 {
        lemma_decimal_free(n / 10);
    }
}

/// A command line with aliases expanded: while the depth limit is not
/// reached, a first word naming an enabled alias is replaced by that alias's
/// command with the remaining words substituted as its arguments.
pub open spec fn expansion(s: Seq<Alias>, input: Seq<char>, depth: nat, limit: nat) -> Seq<char>
    decreases limit - depth,
{
    if depth >= limit {
        input
    } else {
        let parts = words(input);
        if parts.len() == 0 {
            input
        } else {
            let p = alias_pos(s, parts[0]);
            if p < 0 || !s[p].enabled {
                input
            } else {
                expansion(s, substituted(s[p].command@, parts.drop_first()), depth + 1, limit)
            }
        }
    }
}

/// Replaces every occurrence of a literal pattern.
fn replace_lit(s: &Vec<char>, pat: &str, r: &Vec<char>) -> (out: Vec<char>)
    requires
        pat@.len() > 0,
    ensures
        out@ == replaced(s@, pat@, r@),
{
    let p = chars_of(pat);
    replace_all(s, &p, r)
}

/// Substitute parameters (`$1`, `$2`, `${*}`, etc.) in a command
pub fn substitute_parameters(command: &Vec<char>, args: &Vec<Vec<char>>) -> (r: Vec<char>)
    requires
        args@.len() <= u64::MAX,
    ensures
        r@ == substituted(command@, char_views(args@)),
{
    let ghost av = char_views(args@);
    let sp = chars_of(" ");
    let all = join_chars(args, 0, &sp);
    assert(args@.subrange(0, args@.len() as int) =~= args@);
    assert(all@ == joined(av, " "@));
    proof {
        reveal_strlit("${*}");
        reveal_strlit("$*");
        reveal_strlit("${@}");
        reveal_strlit("$@");
        reveal_strlit("$#");
        reveal_strlit("${");
        reveal_strlit("}");
        reveal_strlit("$");
        reveal_strlit(" ");
    }
    let r1 = replace_lit(command, "${*}", &all);
    let r1 = replace_lit(&r1, "$*", &all);
    let r1 = replace_lit(&r1, "${@}", &all);
    let r1 = replace_lit(&r1, "$@", &all);
    let count = decimal_chars(args.len() as u64);
    let mut result = replace_lit(&r1, "$#", &count);
    let ghost r2 = result@;
    let mut i: usize = 0;
    while i < args.len()
        invariant
            i <= args@.len(),
            av == char_views(args@),
            args@.len() <= u64::MAX,
            result@ == numbered(r2, av, i as nat),
        decreases args.len() - i,
    {
        let num = decimal_chars((i + 1) as u64);
        let mut braced = chars_of("${");
        let mut k: usize = 0;
        let ghost b0 = braced@;
        while k < num.len()
            invariant
                k <= num@.len(),
                braced@ == b0 + num@.subrange(0, k as int),
            decreases num.len() - k,
        {
            braced.push(num[k]);
            k = k + 1;
            assert(braced@ =~= b0 + num@.subrange(0, k as int));
        }
        assert(num@.subrange(0, num@.len() as int) =~= num@);
        assert(braced@ == "${"@ + num@);
        let ghost b1 = braced@;
        proof {
            reveal_strlit("}");
        }
        braced.push('}');
        assert(braced@ == b1.push('}'));
        assert("}"@ =~= seq!['}']);
        assert(num@ == decimal((i + 1) as nat));
        assert(braced@ =~= "${"@ + decimal((i + 1) as nat) + "}"@);
        let mut plain = chars_of("$");
        let ghost p0 = plain@;
        let mut k: usize = 0;
        while k < num.len()
            invariant
                k <= num@.len(),
                plain@ == p0 + num@.subrange(0, k as int),
            decreases num.len() - k,
        {
            plain.push(num[k]);
            k = k + 1;
            assert(plain@ =~= p0 + num@.subrange(0, k as int));
        }
        assert(plain@ =~= "$"@ + decimal((i + 1) as nat));
        assert(args@[i as int]@ == av[i as int]);
        let t = replace_all(&result, &braced, &args[i]);
        result = replace_all(&t, &plain, &args[i]);
        i = i + 1;
    }
    if !crate::text::has_char(command, '$') && args.len() > 0 {
        let ghost r3 = result@;
        result.push(' ');
        let ghost r4 = result@;
        let mut k: usize = 0;
        while k < all.len()
            invariant
                k <= all@.len(),
                result@ == r4 + all@.subrange(0, k as int),
            decreases all.len() - k,
        {
            result.push(all[k]);
            k = k + 1;
            assert(result@ =~= r4 + all@.subrange(0, k as int));
        }
        assert(all@.subrange(0, all@.len() as int) =~= all@);
        assert(" "@ =~= seq![' ']);
        assert(r4 == r3.push(' '));
        assert(result@ =~= r3 + " "@ + all@);
    }
    result
}

impl AliasManager {
    /// Expand a command by replacing aliases and substituting parameters
    pub fn expand_command(&self, input: &str) -> (r: String)
        requires
            self.wf(),
        ensures
            r@ == expansion(self.entries(), input@, 0, self.depth_limit()),
    {
        let v = chars_of(input);
        let e = self.expand_command_recursive(&v, 0);
        crate::text::string_of(&e)
    }

    /// Expand a command with recursion depth tracking
    pub fn expand_command_recursive(&self, input: &Vec<char>, depth: usize) -> (r: Vec<char>)
        requires
            self.wf(),
        ensures
            r@ == expansion(self.entries(), input@, depth as nat, self.depth_limit()),
        decreases self.depth_limit() - depth,
    {
        if depth >= self.max_recursion_depth {
            return crate::text::slice_chars(input, 0, input.len());
        }
        let mut parts = split_words(input);
        if parts.len() == 0 {
            return crate::text::slice_chars(input, 0, input.len());
        }
        let ghost pv = words(input@);
        let first = parts.remove(0);
        assert(char_views(parts@) =~= pv.drop_first());
        let fs = crate::text::string_of(&first);
        match find_alias(&self.aliases, fs.as_str()) {
            None => {
                assert(key_pos(alias_names(self.aliases@), pv[0]) == -1);
                crate::text::slice_chars(input, 0, input.len())
            },
            Some(p) => {
                proof {
                    lemma_key_pos_unique(alias_names(self.aliases@), pv[0], p as int);
                }
                if !self.aliases[p].enabled {
                    return crate::text::slice_chars(input, 0, input.len());
                }
                let cmd = chars_of(self.aliases[p].command.as_str());
                let expanded = substitute_parameters(&cmd, &parts);
                self.expand_command_recursive(&expanded, depth + 1)
            },
        }
    }
}


/// The aliases a fresh manager starts with: name, command, description and
/// category, ordered by name.
pub open spec fn default_aliases() -> Seq<(Seq<char>, Seq<char>, Seq<char>, Seq<char>)> {
    seq![
        ("..."@, "cd ../.."@, "Go up two directories"@, "file"@),
        ("...."@, "cd ../../.."@, "Go up three directories"@, "file"@),
        ("c"@, "clear"@, "Clear terminal"@, "system"@),
        ("cb"@, "cargo build"@, "Cargo build"@, "rust"@),
        ("cbr"@, "cargo build --release"@, "Cargo build release"@, "rust"@),
        ("cc"@, "cargo check"@, "Cargo check"@, "rust"@),
        ("cr"@, "cargo run"@, "Cargo run"@, "rust"@),
        ("ct"@, "cargo test"@, "Cargo test"@, "rust"@),
        ("dex"@, "docker exec -it"@, "Execute command in container"@, "docker"@),
        ("dim"@, "docker images"@, "List docker images"@, "docker"@),
        ("dps"@, "docker ps"@, "List running containers"@, "docker"@),
        ("dpsa"@, "docker ps -a"@, "List all containers"@, "docker"@),
        ("drm"@, "docker rm"@, "Remove container"@, "docker"@),
        ("drmi"@, "docker rmi"@, "Remove image"@, "docker"@),
        ("ga"@, "git add"@, "Git add"@, "git"@),
        ("gb"@, "git branch"@, "Git branch"@, "git"@),
        ("gc"@, "git commit -m"@, "Git commit with message"@, "git"@),
        ("gco"@, "git checkout"@, "Git checkout"@, "git"@),
        ("gd"@, "git diff"@, "Git diff"@, "git"@),
        ("gl"@, "git pull"@, "Git pull"@, "git"@),
        ("glog"@, "git log --oneline --graph --all"@, "Git log with graph"@, "git"@),
        ("gp"@, "git push"@, "Git push"@, "git"@),
        ("grep"@, "grep --color=auto"@, "Grep with color"@, "system"@),
        ("gs"@, "git status"@, "Git status"@, "git"@),
        ("h"@, "history"@, "Show command history"@, "system"@),
        ("l"@, "ls -CF"@, "List files with indicators"@, "file"@),
        ("la"@, "ls -A"@, "List all files including hidden"@, "file"@),
        ("ll"@, "ls -lah"@, "List all files with details"@, "file"@),
    ]
}

/// The default aliases as literals.
fn default_alias_table() -> (t: Vec<(&'static str, &'static str, &'static str, &'static str)>)
    ensures
        t@.len() == default_aliases().len(),
        forall|i: int| 0 <= i < t@.len() ==> (#[trigger] t@[i].0@, t@[i].1@, t@[i].2@, t@[i].3@) == default_aliases()[i],
{
    let t = vec![
        ("...", "cd ../..", "Go up two directories", "file"),
        ("....", "cd ../../..", "Go up three directories", "file"),
        ("c", "clear", "Clear terminal", "system"),
        ("cb", "cargo build", "Cargo build", "rust"),
        ("cbr", "cargo build --release", "Cargo build release", "rust"),
        ("cc", "cargo check", "Cargo check", "rust"),
        ("cr", "cargo run", "Cargo run", "rust"),
        ("ct", "cargo test", "Cargo test", "rust"),
        ("dex", "docker exec -it", "Execute command in container", "docker"),
        ("dim", "docker images", "List docker images", "docker"),
        ("dps", "docker ps", "List running containers", "docker"),
        ("dpsa", "docker ps -a", "List all containers", "docker"),
        ("drm", "docker rm", "Remove container", "docker"),
        ("drmi", "docker rmi", "Remove image", "docker"),
        ("ga", "git add", "Git add", "git"),
        ("gb", "git branch", "Git branch", "git"),
        ("gc", "git commit -m", "Git commit with message", "git"),
        ("gco", "git checkout", "Git checkout", "git"),
        ("gd", "git diff", "Git diff", "git"),
        ("gl", "git pull", "Git pull", "git"),
        ("glog", "git log --oneline --graph --all", "Git log with graph", "git"),
        ("gp", "git push", "Git push", "git"),
        ("grep", "grep --color=auto", "Grep with color", "system"),
        ("gs", "git status", "Git status", "git"),
        ("h", "history", "Show command history", "system"),
        ("l", "ls -CF", "List files with indicators", "file"),
        ("la", "ls -A", "List all files including hidden", "file"),
        ("ll", "ls -lah", "List all files with details", "file"),
    ];
    assert(t@.len() == default_aliases().len());
    t
}

proof fn lemma_default_names_increase()
    ensures
        forall|i: int| 1 <= i < default_aliases().len() ==> lex_lt(#[trigger] default_aliases()[i - 1].0, default_aliases()[i].0),
{
    reveal_strlit("...");
    reveal_strlit("....");
    reveal_strlit("c");
    reveal_strlit("cb");
    reveal_strlit("cbr");
    reveal_strlit("cc");
    reveal_strlit("cr");
    reveal_strlit("ct");
    reveal_strlit("dex");
    reveal_strlit("dim");
    reveal_strlit("dps");
    reveal_strlit("dpsa");
    reveal_strlit("drm");
    reveal_strlit("drmi");
    reveal_strlit("ga");
    reveal_strlit("gb");
    reveal_strlit("gc");
    reveal_strlit("gco");
    reveal_strlit("gd");
    reveal_strlit("gl");
    reveal_strlit("glog");
    reveal_strlit("gp");
    reveal_strlit("grep");
    reveal_strlit("gs");
    reveal_strlit("h");
    reveal_strlit("l");
    reveal_strlit("la");
    reveal_strlit("ll");
    reveal_with_fuel(lex_lt, 6);
    assert forall|i: int| 1 <= i < default_aliases().len() implies lex_lt(#[trigger] default_aliases()[i - 1].0, default_aliases()[i].0) by {
        if i == 1 {
            assert(lex_lt("..."@, "...."@));
        } else if i == 2 {
            assert(lex_lt("...."@, "c"@));
        } else if i == 3 {
            assert(lex_lt("c"@, "cb"@));
        } else if i == 4 {
            assert(lex_lt("cb"@, "cbr"@));
        } else if i == 5 {
            assert(lex_lt("cbr"@, "cc"@));
        } else if i == 6 {
            assert(lex_lt("cc"@, "cr"@));
        } else if i == 7 {
            assert(lex_lt("cr"@, "ct"@));
        } else if i == 8 {
            assert(lex_lt("ct"@, "dex"@));
        } else if i == 9 {
            assert(lex_lt("dex"@, "dim"@));
        } else if i == 10 {
            assert(lex_lt("dim"@, "dps"@));
        } else if i == 11 {
            assert(lex_lt("dps"@, "dpsa"@));
        } else if i == 12 {
            assert(lex_lt("dpsa"@, "drm"@));
        } else if i == 13 {
            assert(lex_lt("drm"@, "drmi"@));
        } else if i == 14 {
            assert(lex_lt("drmi"@, "ga"@));
        } else if i == 15 {
            assert(lex_lt("ga"@, "gb"@));
        } else if i == 16 {
            assert(lex_lt("gb"@, "gc"@));
        } else if i == 17 {
            assert(lex_lt("gc"@, "gco"@));
        } else if i == 18 {
            assert(lex_lt("gco"@, "gd"@));
        } else if i == 19 {
            assert(lex_lt("gd"@, "gl"@));
        } else if i == 20 {
            assert(lex_lt("gl"@, "glog"@));
        } else if i == 21 {
            assert(lex_lt("glog"@, "gp"@));
        } else if i == 22 {
            assert(lex_lt("gp"@, "grep"@));
        } else if i == 23 {
            assert(lex_lt("grep"@, "gs"@));
        } else if i == 24 {
            assert(lex_lt("gs"@, "h"@));
        } else if i == 25 {
            assert(lex_lt("h"@, "l"@));
        } else if i == 26 {
            assert(lex_lt("l"@, "la"@));
        } else if i == 27 {
            assert(lex_lt("la"@, "ll"@));
        }
    }
}

impl AliasManager {
    /// Adds an alias whose name comes after every name already present, with
    /// the given category.
    fn add_default(&mut self, name: &str, command: &str, description: &str, category: &str)
        requires
            old(self).wf(),
            name@.len() > 0,
            command@.len() > 0,
            old(self).entries().len() > 0 ==> lex_lt(old(self).entries().last().name@, name@),
        ensures
            final(self).wf(),
            final(self).entries().len() == old(self).entries().len() + 1,
            final(self).entries().drop_last() == old(self).entries(),
            final(self).entries().last().name@ == name@,
            final(self).entries().last().command@ == command@,
            opt_text(final(self).entries().last().description) == Some(description@),
            opt_text(final(self).entries().last().category) == Some(category@),
            final(self).entries().last().enabled,
            final(self).path() == old(self).path(),
            final(self).depth_limit() == old(self).depth_limit(),
    {
        let ghost names = alias_names(self.aliases@);
        let n = self.aliases.len();
        proof {
            assert forall|j: int| 0 <= j < names.len() implies lex_lt(#[trigger] names[j], name@) by {
                if j < names.len() - 1 {
                    assert(lex_lt(names[j], names[names.len() - 1]));
                    lemma_lex_trans(names[j], names[names.len() - 1], name@);
                }
            }
            assert(!names.contains(name@)) by {
                if names.contains(name@) {
                    let j = choose|j: int| 0 <= j < names.len() && names[j] == name@;
                    lemma_lex_irreflexive(name@);
                }
            }
            lemma_count_lt_exact(names, name@, names.len() as int);
        }
        let _ = self.add_alias(name, command, Some(description));
        let mut a = self.aliases.remove(n);
        a.category = Some(owned(category));
        self.aliases.insert(n, a);
        proof {
            assert(alias_names(self.aliases@) =~= names.push(name@));
            assert(self.aliases@.drop_last() =~= old(self).entries());
        }
    }

    /// Create an alias manager with the default aliases, each filed under its
    /// category.
    pub fn with_defaults() -> (m: Self)
        ensures
            m.wf(),
            m.entries().len() == default_aliases().len(),
            forall|i: int| 0 <= i < m.entries().len() ==> {
                let d = default_aliases()[i];
                let a = #[trigger] m.entries()[i];
                &&& a.name@ == d.0
                &&& a.command@ == d.1
                &&& opt_text(a.description) == Some(d.2)
                &&& opt_text(a.category) == Some(d.3)
                &&& a.enabled
            },
            m.index() == index_of(m.entries()),
            m.path() is None,
            m.depth_limit() == 10,
    {
        let table = default_alias_table();
        let mut m = AliasManager::new();
        proof {
            lemma_default_names_increase();
            reveal_strlit("");
        }
        let mut i: usize = 0;
        while i < table.len()
            invariant
                i <= table@.len(),
                table@.len() == default_aliases().len(),
                forall|k: int| 0 <= k < table@.len() ==> (#[trigger] table@[k].0@, table@[k].1@, table@[k].2@, table@[k].3@) == default_aliases()[k],
                forall|k: int| 1 <= k < default_aliases().len() ==> lex_lt(#[trigger] default_aliases()[k - 1].0, default_aliases()[k].0),
                m.wf(),
                m.entries().len() == i,
                forall|k: int| 0 <= k < i ==> {
                    let d = default_aliases()[k];
                    let a = #[trigger] m.entries()[k];
                    &&& a.name@ == d.0
                    &&& a.command@ == d.1
                    &&& opt_text(a.description) == Some(d.2)
                    &&& opt_text(a.category) == Some(d.3)
                    &&& a.enabled
                },
                m.path() is None,
                m.depth_limit() == 10,
            decreases table.len() - i,
        {
            let (name, command, description, category) = table[i];
            assert((table@[i as int].0@, table@[i as int].1@, table@[i as int].2@, table@[i as int].3@) == default_aliases()[i as int]);
            assert(name@.len() > 0) by {
                default_rows_nonempty(i as int);
            }
            assert(command@.len() > 0) by {
                default_rows_nonempty(i as int);
            }
            if i > 0 {
                assert(lex_lt(default_aliases()[i - 1].0, default_aliases()[i as int].0));
            }
            let ghost before = m.entries();
            m.add_default(name, command, description, category);
            assert forall|k: int| 0 <= k < i + 1 implies {
                let d = default_aliases()[k];
                let a = #[trigger] m.entries()[k];
                &&& a.name@ == d.0
                &&& a.command@ == d.1
                &&& opt_text(a.description) == Some(d.2)
                &&& opt_text(a.category) == Some(d.3)
                &&& a.enabled
            } by {
                if k < i {
                    assert(m.entries()[k] == m.entries().drop_last()[k]);
                    assert(before[k] == m.entries()[k]);
                }
            }
            i = i + 1;
        }
        m.rebuild_category_index();
        m
    }
}

proof fn default_rows_nonempty(i: int)
    requires
        0 <= i < default_aliases().len(),
    ensures
        default_aliases()[i].0.len() > 0,
        default_aliases()[i].1.len() > 0,
{
    reveal_strlit("...");
    reveal_strlit("cd ../..");
    reveal_strlit("....");
    reveal_strlit("cd ../../..");
    reveal_strlit("c");
    reveal_strlit("clear");
    reveal_strlit("cb");
    reveal_strlit("cargo build");
    reveal_strlit("cbr");
    reveal_strlit("cargo build --release");
    reveal_strlit("cc");
    reveal_strlit("cargo check");
    reveal_strlit("cr");
    reveal_strlit("cargo run");
    reveal_strlit("ct");
    reveal_strlit("cargo test");
    reveal_strlit("dex");
    reveal_strlit("docker exec -it");
    reveal_strlit("dim");
    reveal_strlit("docker images");
    reveal_strlit("dps");
    reveal_strlit("docker ps");
    reveal_strlit("dpsa");
    reveal_strlit("docker ps -a");
    reveal_strlit("drm");
    reveal_strlit("docker rm");
    reveal_strlit("drmi");
    reveal_strlit("docker rmi");
    reveal_strlit("ga");
    reveal_strlit("git add");
    reveal_strlit("gb");
    reveal_strlit("git branch");
    reveal_strlit("gc");
    reveal_strlit("git commit -m");
    reveal_strlit("gco");
    reveal_strlit("git checkout");
    reveal_strlit("gd");
    reveal_strlit("git diff");
    reveal_strlit("gl");
    reveal_strlit("git pull");
    reveal_strlit("glog");
    reveal_strlit("git log --oneline --graph --all");
    reveal_strlit("gp");
    reveal_strlit("git push");
    reveal_strlit("grep");
    reveal_strlit("grep --color=auto");
    reveal_strlit("gs");
    reveal_strlit("git status");
    reveal_strlit("h");
    reveal_strlit("history");
    reveal_strlit("l");
    reveal_strlit("ls -CF");
    reveal_strlit("la");
    reveal_strlit("ls -A");
    reveal_strlit("ll");
    reveal_strlit("ls -lah");
    assert forall|k: int| 0 <= k < default_aliases().len() implies #[trigger] default_aliases()[k].0.len() > 0
        && default_aliases()[k].1.len() > 0 by {
        let i = k;
        if i == 0 {
            assert("..."@.len() > 0 && "cd ../.."@.len() > 0);
        } else if i == 1 {
            assert("...."@.len() > 0 && "cd ../../.."@.len() > 0);
        } else if i == 2 {
            assert("c"@.len() > 0 && "clear"@.len() > 0);
        } else if i == 3 {
            assert("cb"@.len() > 0 && "cargo build"@.len() > 0);
        } else if i == 4 {
            assert("cbr"@.len() > 0 && "cargo build --release"@.len() > 0);
        } else if i == 5 {
            assert("cc"@.len() > 0 && "cargo check"@.len() > 0);
        } else if i == 6 {
            assert("cr"@.len() > 0 && "cargo run"@.len() > 0);
        } else if i == 7 {
            assert("ct"@.len() > 0 && "cargo test"@.len() > 0);
        } else if i == 8 {
            assert("dex"@.len() > 0 && "docker exec -it"@.len() > 0);
        } else if i == 9 {
            assert("dim"@.len() > 0 && "docker images"@.len() > 0);
        } else if i == 10 {
            assert("dps"@.len() > 0 && "docker ps"@.len() > 0);
        } else if i == 11 {
            assert("dpsa"@.len() > 0 && "docker ps -a"@.len() > 0);
        } else if i == 12 {
            assert("drm"@.len() > 0 && "docker rm"@.len() > 0);
        } else if i == 13 {
            assert("drmi"@.len() > 0 && "docker rmi"@.len() > 0);
        } else if i == 14 {
            assert("ga"@.len() > 0 && "git add"@.len() > 0);
        } else if i == 15 {
            assert("gb"@.len() > 0 && "git branch"@.len() > 0);
        } else if i == 16 {
            assert("gc"@.len() > 0 && "git commit -m"@.len() > 0);
        } else if i == 17 {
            assert("gco"@.len() > 0 && "git checkout"@.len() > 0);
        } else if i == 18 {
            assert("gd"@.len() > 0 && "git diff"@.len() > 0);
        } else if i == 19 {
            assert("gl"@.len() > 0 && "git pull"@.len() > 0);
        } else if i == 20 {
            assert("glog"@.len() > 0 && "git log --oneline --graph --all"@.len() > 0);
        } else if i == 21 {
            assert("gp"@.len() > 0 && "git push"@.len() > 0);
        } else if i == 22 {
            assert("grep"@.len() > 0 && "grep --color=auto"@.len() > 0);
        } else if i == 23 {
            assert("gs"@.len() > 0 && "git status"@.len() > 0);
        } else if i == 24 {
            assert("h"@.len() > 0 && "history"@.len() > 0);
        } else if i == 25 {
            assert("l"@.len() > 0 && "ls -CF"@.len() > 0);
        } else if i == 26 {
            assert("la"@.len() > 0 && "ls -A"@.len() > 0);
        } else if i == 27 {
            assert("ll"@.len() > 0 && "ls -lah"@.len() > 0);
        }
    }
    assert(default_aliases()[i].0.len() > 0);
}

/// What adding an alias does to the aliases and the index: a valid new
/// alias goes in at its place, filed under the category its command falls
/// under; anything else leaves both as they were.
pub open spec fn add_effect(
    e0: Seq<Alias>,
    x0: Seq<(Seq<char>, Seq<Seq<char>>)>,
    e1: Seq<Alias>,
    x1: Seq<(Seq<char>, Seq<Seq<char>>)>,
    name: Seq<char>,
    command: Seq<char>,
    description: Option<Seq<char>>,
) -> bool {
    if accepted(e0, name, command) {
        let k = count_lt(alias_names(e0), name) as int;
        let a = e1[k];
        &&& e1 == e0.insert(k, a)
        &&& a.name@ == name
        &&& a.command@ == command
        &&& opt_text(a.description) == description
        &&& opt_text(a.category) == Some(category_of(command))
        &&& a.enabled
        &&& x1 == index_add(x0, category_of(command), name)
    } else {
        e1 == e0 && x1 == x0
    }
}

/// Whether an alias with this name and command can be added.
pub open spec fn accepted(e0: Seq<Alias>, name: Seq<char>, command: Seq<char>) -> bool {
    name.len() > 0 && command.len() > 0 && !alias_names(e0).contains(name)
}

/// An alias definition read from a shell file: name, command, description.
pub type ShellDef = (Seq<char>, Seq<char>, Option<Seq<char>>);

/// The alias definitions in the lines of a shell file. A comment line sets
/// the description of the next definition, unless it is empty, mentions
/// "aliases" or starts with "Generated"; a definition line `alias name=...`
/// uses it up.
pub open spec fn shell_defs(lines: Seq<Seq<char>>, desc: Option<Seq<char>>) -> Seq<ShellDef>
    decreases lines.len(),
{
    if lines.len() == 0 {
        seq![]
    } else {
        let line = crate::text::trim(lines[0]);
        let rest = lines.drop_first();
        if line.len() == 0 {
            shell_defs(rest, desc)
        } else if line[0] == '#' {
            let c = crate::text::trim(line.drop_first());
            if c.len() > 0 && !crate::text::contains_sub(c, "aliases"@) && !crate::text::is_prefix("Generated"@, c) {
                shell_defs(rest, Some(c))
            } else {
                shell_defs(rest, desc)
            }
        } else if crate::text::is_prefix("alias "@, line) {
            match shell_alias(line.subrange(6, line.len() as int)) {
                Some((n, c)) => seq![(n, c, desc)] + shell_defs(rest, None),
                None => shell_defs(rest, desc),
            }
        } else {
            shell_defs(rest, desc)
        }
    }
}

/// The aliases, index and count of additions after each definition is
/// added in turn, the first entry being the state before any.
pub type ImportTrace = Seq<(Seq<Alias>, Seq<(Seq<char>, Seq<Seq<char>>)>, nat)>;

/// Whether a trace follows the definitions from the given state: each step
/// is the effect of adding one definition, counting it when it is accepted.
pub open spec fn import_trace(trace: ImportTrace, e0: Seq<Alias>, x0: Seq<(Seq<char>, Seq<Seq<char>>)>, defs: Seq<ShellDef>) -> bool {
    &&& trace.len() == defs.len() + 1
    &&& trace[0] == (e0, x0, 0nat)
    &&& forall|j: int| 0 <= j < defs.len() ==> {
        let a = #[trigger] trace[j];
        let b = trace[j + 1];
        &&& add_effect(a.0, a.1, b.0, b.1, defs[j].0, defs[j].1, defs[j].2)
        &&& b.2 == a.2 + (if accepted(a.0, defs[j].0, defs[j].1) { 1nat } else { 0nat })
    }
}

/// Views of parsed definitions.
pub open spec fn def_views(v: Seq<(String, String, Option<String>)>) -> Seq<ShellDef> {
    v.map_values(|d: (String, String, Option<String>)| (d.0@, d.1@, opt_text(d.2)))
}

/// Reads the alias definitions of a shell file.
pub fn shell_definitions(content: &str) -> (r: Vec<(String, String, Option<String>)>)
    ensures
        def_views(r@) == shell_defs(crate::text::lines_of(content@), None),
{
    let lines = crate::text::lines_of_str(content);
    let ghost lv = crate::text::lines_of(content@);
    let mut r: Vec<(String, String, Option<String>)> = Vec::new();
    let mut desc: Option<String> = None;
    let mut i: usize = 0;
    proof {
        reveal_strlit("alias ");
        assert(lv.subrange(0, lv.len() as int) =~= lv);
        assert(def_views(r@) + shell_defs(lv, None) =~= shell_defs(lv, None));
    }
    let hash_alias = chars_of("aliases");
    let generated = chars_of("Generated");
    let alias_kw = chars_of("alias ");
    while i < lines.len()
        invariant
            i <= lines@.len(),
            lines@.len() == lv.len(),
            forall|k: int| 0 <= k < lines@.len() ==> #[trigger] lines@[k]@ == lv[k],
            hash_alias@ == "aliases"@,
            generated@ == "Generated"@,
            alias_kw@ == "alias "@,
            alias_kw@.len() == 6,
            shell_defs(lv, None) == def_views(r@) + shell_defs(lv.subrange(i as int, lv.len() as int), opt_text(desc)),
        decreases lines.len() - i,
    {
        let ghost rest = lv.subrange(i as int, lv.len() as int);
        assert(rest.drop_first() =~= lv.subrange(i + 1, lv.len() as int));
        assert(rest[0] == lines@[i as int]@);
        let lc = chars_of(lines[i].as_str());
        let line = crate::text::trim_chars(&lc);
        let ghost before = def_views(r@);
        if line.len() == 0 {
        } else if line[0] == '#' {
            let tail = crate::text::slice_chars(&line, 1, line.len());
            assert(tail@ =~= line@.drop_first());
            let c = crate::text::trim_chars(&tail);
            if c.len() > 0 && !crate::text::contains(&c, &hash_alias) && !crate::text::starts_with(&c, &generated) {
                desc = Some(crate::text::string_of(&c));
            }
        } else if crate::text::starts_with(&line, &alias_kw) {
            let def = crate::text::string_of_range(&line, 6, line.len());
            match AliasManager::parse_shell_alias(def.as_str()) {
                Some((n, c)) => {
                    let d = desc;
                    desc = None;
                    r.push((n, c, d));
                    assert(def_views(r@) =~= before.push(def_views(r@).last()));
                },
                None => {},
            }
        }
        i = i + 1;
        assert(shell_defs(lv, None) =~= def_views(r@) + shell_defs(lv.subrange(i as int, lv.len() as int), opt_text(desc)));
    }
    assert(lv.subrange(i as int, lv.len() as int) =~= Seq::<Seq<char>>::empty());
    assert(def_views(r@) =~= shell_defs(lv, None));
    r
}

impl AliasManager {
    /// Import aliases from shell format (bash/zsh); returns how many were
    /// added.
    pub fn import_from_shell(&mut self, shell_content: &str) -> (r: Result<usize, AliasError>)
        requires
            old(self).wf(),
        ensures
            final(self).wf(),
            match r {
                Ok(n) => exists|trace: ImportTrace|
                    #[trigger] import_trace(trace, old(self).entries(), old(self).index(),
                        shell_defs(crate::text::lines_of(shell_content@), None))
                    && trace.last() == (final(self).entries(), final(self).index(), n as nat),
                Err(_) => false,
            },
            final(self).path() == old(self).path(),
            final(self).depth_limit() == old(self).depth_limit(),
    {
        let defs = shell_definitions(shell_content);
        let ghost dv = def_views(defs@);
        let ghost e0 = self.entries();
        let ghost x0 = self.index();
        let mut imported: usize = 0;
        let mut i: usize = 0;
        let ghost mut trace: ImportTrace = seq![(e0, x0, 0nat)];
        while i < defs.len()
            invariant
                i <= defs@.len(),
                dv == def_views(defs@),
                self.wf(),
                imported <= i,
                trace.len() == i + 1,
                trace[0] == (e0, x0, 0nat),
                forall|j: int| 0 <= j < i ==> {
                    let a = #[trigger] trace[j];
                    let b = trace[j + 1];
                    &&& add_effect(a.0, a.1, b.0, b.1, dv[j].0, dv[j].1, dv[j].2)
                    &&& b.2 == a.2 + (if accepted(a.0, dv[j].0, dv[j].1) { 1nat } else { 0nat })
                },
                trace.last() == (self.entries(), self.index(), imported as nat),
                self.path() == old(self).path(),
                self.depth_limit() == old(self).depth_limit(),
            decreases defs.len() - i,
        {
            let ghost em = self.entries();
            let ghost xm = self.index();
            let ghost nm = imported as nat;
            let (name, command, desc) = &defs[i];
            let d: Option<&str> = match desc {
                Some(t) => Some(t.as_str()),
                None => None,
            };
            let res = self.add_alias(name.as_str(), command.as_str(), d);
            if res.is_ok() {
                imported = imported + 1;
            }
            proof {
                assert(dv[i as int] == (name@, command@, opt_text(*desc)));
                assert((match d { Some(t) => Some(t@), None => None }) == opt_text(*desc));
                let ghost prev = trace;
                trace = trace.push((self.entries(), self.index(), imported as nat));
                assert(trace[i as int] == prev[i as int]);
                assert forall|j: int| 0 <= j < i + 1 implies {
                    let a = #[trigger] trace[j];
                    let b = trace[j + 1];
                    &&& add_effect(a.0, a.1, b.0, b.1, dv[j].0, dv[j].1, dv[j].2)
                    &&& b.2 == a.2 + (if accepted(a.0, dv[j].0, dv[j].1) { 1nat } else { 0nat })
                } by {
                    if j < i {
                        assert(trace[j] == prev[j]);
                        assert(trace[j + 1] == prev[j + 1]);
                    }
                }
            }
            i = i + 1;
        }
        assert(import_trace(trace, e0, x0, dv));
        Ok(imported)
    }
}

/// One alias in shell form: its description as a comment line, if it has
/// one, then `alias name='command'`.
pub open spec fn alias_text(a: Alias) -> Seq<char> {
    (match a.description {
        Some(d) => "# "@ + d@ + "\n"@,
        None => seq![],
    }) + "alias "@ + a.name@ + "='"@ + a.command@ + "'\n"@
}

/// Several aliases in shell form, in order.
pub open spec fn aliases_text(s: Seq<Alias>) -> Seq<char>
    decreases s.len(),
{
    if s.len() == 0 {
        seq![]
    } else {
        aliases_text(s.drop_last()) + alias_text(s.last())
    }
}

/// The enabled aliases that have no category, in order.
pub open spec fn uncategorized(s: Seq<Alias>) -> Seq<Alias>
    decreases s.len(),
{
    if s.len() == 0 {
        seq![]
    } else if s.last().category is None {
        uncategorized(s.drop_last()).push(s.last())
    } else {
        uncategorized(s.drop_last())
    }
}

/// The category blocks of an export: each category's header line (after a
/// blank line, but for the first) and its aliases.
pub open spec fn groups_text(s: Seq<Alias>, groups: Seq<(Seq<char>, Seq<Seq<char>>)>) -> Seq<char>
    decreases groups.len(),
{
    if groups.len() == 0 {
        seq![]
    } else {
        let g = groups.last();
        groups_text(s, groups.drop_last()) + (if groups.len() == 1 { seq![] } else { "\n"@ })
            + "# "@ + g.0 + " aliases\n"@ + aliases_text(resolved(s, g.1))
    }
}

/// The shell form of the enabled aliases: a header; then, category by
/// category in order, a header line and the aliases of that category in name
/// order; then the aliases without a category.
pub open spec fn exported(s: Seq<Alias>) -> Seq<char> {
    let en = enabled_of(s);
    let groups = index_of(en);
    let rest = uncategorized(en);
    "# AgTerm Aliases\n# Generated by AgTerm alias manager\n\n"@ + groups_text(en, groups)
        + (if groups.len() > 0 && rest.len() > 0 { "\n"@ } else { seq![] }) + aliases_text(rest)
}

proof fn lemma_enabled_sorted(s: Seq<Alias>)
    requires
        strictly_sorted(alias_names(s)),
    ensures
        strictly_sorted(alias_names(enabled_of(s))),
        forall|k: int| 0 <= k < enabled_of(s).len() ==> s.contains(#[trigger] enabled_of(s)[k]),
    decreases s.len(),
{
    if s.len() > 0 {
        let d = s.drop_last();
        assert forall|i: int, j: int| 0 <= i < j < alias_names(d).len() implies
            lex_lt(#[trigger] alias_names(d)[i], #[trigger] alias_names(d)[j]) by {
            assert(alias_names(d)[i] == alias_names(s)[i]);
            assert(alias_names(d)[j] == alias_names(s)[j]);
        }
        lemma_enabled_sorted(d);
        assert forall|k: int| 0 <= k < enabled_of(d).len() implies s.contains(#[trigger] enabled_of(d)[k]) by {
            let w = choose|w: int| 0 <= w < d.len() && d[w] == enabled_of(d)[k];
            assert(s[w] == d[w]);
        }
        if s.last().enabled {
            let e = enabled_of(s);
            assert forall|i: int, j: int| 0 <= i < j < alias_names(e).len() implies
                lex_lt(#[trigger] alias_names(e)[i], #[trigger] alias_names(e)[j]) by {
                if j == e.len() - 1 {
                    let w = choose|w: int| 0 <= w < d.len() && d[w] == enabled_of(d)[i];
                    assert(alias_names(s)[w] == alias_names(e)[i]);
                    assert(alias_names(s)[s.len() - 1] == alias_names(e)[j]);
                } else {
                    assert(alias_names(e)[i] == alias_names(enabled_of(d))[i]);
                    assert(alias_names(e)[j] == alias_names(enabled_of(d))[j]);
                }
            }
            assert(s.contains(s.last())) by {
                assert(s[s.len() - 1] == s.last());
            }
        }
    }
}

/// Appends a literal.
fn push_lit(out: &mut Vec<char>, t: &str)
    ensures
        final(out)@ == old(out)@ + t@,
{
    let v = chars_of(t);
    let ghost o = out@;
    let mut i: usize = 0;
    while i < v.len()
        invariant
            i <= v@.len(),
            v@ == t@,
            out@ == o + v@.subrange(0, i as int),
        decreases v.len() - i,
    {
        out.push(v[i]);
        i = i + 1;
        assert(out@ =~= o + v@.subrange(0, i as int));
    }
    assert(v@.subrange(0, v@.len() as int) =~= v@);
}

/// Appends one alias in shell form.
fn push_alias_text(out: &mut Vec<char>, a: &Alias)
    ensures
        final(out)@ == old(out)@ + alias_text(*a),
{
    let ghost o = out@;
    match &a.description {
        Some(d) => {
            push_lit(out, "# ");
            push_lit(out, d.as_str());
            push_lit(out, "\n");
        },
        None => {},
    }
    let ghost m = out@;
    push_lit(out, "alias ");
    push_lit(out, a.name.as_str());
    push_lit(out, "='");
    push_lit(out, a.command.as_str());
    push_lit(out, "'\n");
    assert(out@ =~= o + alias_text(*a));
}

impl AliasManager {
    /// Export aliases in shell format (bash/zsh compatible)
    pub fn export_to_shell(&self) -> (r: String)
        requires
            self.wf(),
        ensures
            r@ == exported(self.entries()),
    {
        let mut out: Vec<char> = Vec::new();
        push_lit(&mut out, "# AgTerm Aliases\n# Generated by AgTerm alias manager\n\n");
        let ghost header = out@;
        // The enabled aliases, in name order.
        let mut en: Vec<&Alias> = Vec::new();
        let mut i: usize = 0;
        while i < self.aliases.len()
            invariant
                i <= self.aliases@.len(),
                en@.len() == enabled_of(self.aliases@.subrange(0, i as int)).len(),
                forall|j: int| 0 <= j < en@.len() ==> *(#[trigger] en@[j]) == enabled_of(self.aliases@.subrange(0, i as int))[j],
            decreases self.aliases.len() - i,
        {
            assert(self.aliases@.subrange(0, i + 1).drop_last() =~= self.aliases@.subrange(0, i as int));
            if self.aliases[i].enabled {
                en.push(&self.aliases[i]);
            }
            i = i + 1;
        }
        assert(self.aliases@.subrange(0, self.aliases@.len() as int) =~= self.aliases@);
        let ghost env = enabled_of(self.aliases@);
        proof {
            lemma_enabled_sorted(self.aliases@);
        }
        // Categories of the enabled aliases, with their names.
        let mut groups: Vec<CategoryEntry> = Vec::new();
        let mut i: usize = 0;
        assert(index_view(groups@) =~= index_of(env.subrange(0, 0)));
        while i < en.len()
            invariant
                i <= en@.len(),
                en@.len() == env.len(),
                forall|j: int| 0 <= j < en@.len() ==> *(#[trigger] en@[j]) == env[j],
                strictly_sorted(index_keys(index_view(groups@))),
                index_view(groups@) == index_of(env.subrange(0, i as int)),
            decreases en.len() - i,
        {
            assert(env.subrange(0, i + 1).drop_last() =~= env.subrange(0, i as int));
            assert(env.subrange(0, i + 1).last() == *en@[i as int]);
            match &en[i].category {
                Some(c) => {
                    index_insert(&mut groups, c.as_str(), en[i].name.as_str());
                },
                None => {},
            }
            i = i + 1;
        }
        assert(env.subrange(0, env.len() as int) =~= env);
        let ghost gv = index_view(groups@);
        // Category blocks.
        let mut g: usize = 0;
        while g < groups.len()
            invariant
                g <= groups@.len(),
                gv == index_view(groups@),
                en@.len() == env.len(),
                forall|j: int| 0 <= j < en@.len() ==> *(#[trigger] en@[j]) == env[j],
                strictly_sorted(alias_names(env)),
                out@ == header + groups_text(env, gv.subrange(0, g as int)),
            decreases groups.len() - g,
        {
            let ghost before = out@;
            let ghost sub = gv.subrange(0, g + 1);
            assert(sub.drop_last() =~= gv.subrange(0, g as int));
            if g > 0 {
                push_lit(&mut out, "\n");
            } else {
                assert(out@ =~= before + seq![]);
            }
            push_lit(&mut out, "# ");
            push_lit(&mut out, groups[g].category.as_str());
            push_lit(&mut out, " aliases\n");
            let ghost mid = out@;
            let names = &groups[g].names;
            let ghost ns = texts(names@);
            assert(ns == gv[g as int].1);
            let mut k: usize = 0;
            while k < names.len()
                invariant
                    k <= names@.len(),
                    ns == texts(names@),
                    en@.len() == env.len(),
                    forall|j: int| 0 <= j < en@.len() ==> *(#[trigger] en@[j]) == env[j],
                    strictly_sorted(alias_names(env)),
                    out@ == mid + aliases_text(resolved(env, ns.subrange(0, k as int))),
                decreases names.len() - k,
            {
                assert(ns.subrange(0, k + 1).drop_last() =~= ns.subrange(0, k as int));
                let ghost o2 = out@;
                let ghost pre = resolved(env, ns.subrange(0, k as int));
                match find_alias_ref(&en, names[k].as_str()) {
                    Some(p) => {
                        proof {
                            assert(alias_names(env)[p as int] == ns[k as int]);
                            lemma_key_pos_unique(alias_names(env), ns[k as int], p as int);
                        }
                        push_alias_text(&mut out, en[p]);
                        proof {
                            let post = resolved(env, ns.subrange(0, k + 1));
                            assert(post == pre.push(env[p as int]));
                            assert(post.drop_last() =~= pre);
                            assert(out@ =~= mid + aliases_text(post));
                        }
                    },
                    None => {
                        assert(!alias_names(env).contains(ns[k as int])) by {
                            if alias_names(env).contains(ns[k as int]) {
                                let j = choose|j: int| 0 <= j < alias_names(env).len() && alias_names(env)[j] == ns[k as int];
                                assert(en@[j].name@ == env[j].name@);
                            }
                        }
                        assert(key_pos(alias_names(env), ns[k as int]) == -1);
                    },
                }
                k = k + 1;
            }
            assert(ns.subrange(0, names@.len() as int) =~= ns);
            g = g + 1;
            assert(out@ =~= header + groups_text(env, gv.subrange(0, g as int)));
        }
        assert(gv.subrange(0, groups@.len() as int) =~= gv);
        // Aliases without a category.
        let ghost before_rest = out@;
        let mut has_rest = false;
        let mut i: usize = 0;
        while i < en.len()
            invariant
                i <= en@.len(),
                en@.len() == env.len(),
                forall|j: int| 0 <= j < en@.len() ==> *(#[trigger] en@[j]) == env[j],
                has_rest == (uncategorized(env.subrange(0, i as int)).len() > 0),
            decreases en.len() - i,
        {
            assert(env.subrange(0, i + 1).drop_last() =~= env.subrange(0, i as int));
            if en[i].category.is_none() {
                has_rest = true;
            }
            i = i + 1;
        }
        assert(env.subrange(0, env.len() as int) =~= env);
        if groups.len() > 0 && has_rest {
            push_lit(&mut out, "\n");
        }
        let ghost sep_done = out@;
        let mut i: usize = 0;
        while i < en.len()
            invariant
                i <= en@.len(),
                en@.len() == env.len(),
                forall|j: int| 0 <= j < en@.len() ==> *(#[trigger] en@[j]) == env[j],
                out@ == sep_done + aliases_text(uncategorized(env.subrange(0, i as int))),
            decreases en.len() - i,
        {
            assert(env.subrange(0, i + 1).drop_last() =~= env.subrange(0, i as int));
            let ghost pre = uncategorized(env.subrange(0, i as int));
            if en[i].category.is_none() {
                push_alias_text(&mut out, en[i]);
                proof {
                    let post = uncategorized(env.subrange(0, i + 1));
                    assert(env.subrange(0, i + 1).last() == env[i as int]);
                    assert(post == pre.push(env[i as int]));
                    assert(post.drop_last() =~= pre);
                    assert(out@ =~= sep_done + aliases_text(post));
                }
            }
            i = i + 1;
        }
        assert(out@ =~= exported(self.aliases@));
        crate::text::string_of(&out)
    }
}

/// Position of the alias called `name` among some alias references.
fn find_alias_ref(aliases: &Vec<&Alias>, name: &str) -> (r: Option<usize>)
    ensures
        match r {
            Some(i) => i < aliases@.len() && aliases@[i as int].name@ == name@,
            None => forall|j: int| 0 <= j < aliases@.len() ==> aliases@[j].name@ != name@,
        },
{
    let mut i: usize = 0;
    while i < aliases.len()
        invariant
            i <= aliases@.len(),
            forall|j: int| 0 <= j < i ==> aliases@[j].name@ != name@,
        decreases aliases.len() - i,
    {
        if str_eq(aliases[i].name.as_str(), name) {
            return Some(i);
        }
        i = i + 1;
    }
    None
}

/// What storing a loaded alias does: it replaces the alias of the same name
/// or goes in at its place, and its name is filed under its category.
pub open spec fn put_effect(
    e0: Seq<Alias>,
    x0: Seq<(Seq<char>, Seq<Seq<char>>)>,
    e1: Seq<Alias>,
    x1: Seq<(Seq<char>, Seq<Seq<char>>)>,
    a: Alias,
) -> bool {
    &&& (if alias_names(e0).contains(a.name@) {
        e1 == e0.update(alias_pos(e0, a.name@), a)
    } else {
        e1 == e0.insert(count_lt(alias_names(e0), a.name@) as int, a)
    })
    &&& x1 == match a.category {
        Some(c) => index_add(x0, c@, a.name@),
        None => x0,
    }
}

impl AliasManager {
    /// Stores one loaded alias.
    fn put_alias(&mut self, a: Alias)
        requires
            old(self).wf(),
        ensures
            final(self).wf(),
            put_effect(old(self).entries(), old(self).index(), final(self).entries(), final(self).index(), a),
            final(self).path() == old(self).path(),
            final(self).depth_limit() == old(self).depth_limit(),
    {
        match &a.category {
            Some(c) => {
                index_insert(&mut self.category_index, c.as_str(), a.name.as_str());
            },
            None => {},
        }
        let ghost names = alias_names(self.aliases@);
        let ghost e0 = self.aliases@;
        let ghost av = a;
        match find_alias(&self.aliases, a.name.as_str()) {
            Some(i) => {
                proof {
                    lemma_key_pos_unique(names, a.name@, i as int);
                }
                let _ = self.aliases.remove(i);
                self.aliases.insert(i, a);
                proof {
                    assert(self.aliases@ =~= e0.update(i as int, av));
                    assert(alias_names(self.aliases@) =~= names);
                }
            },
            None => {
                let nv = chars_of(a.name.as_str());
                let k = alias_slot(&self.aliases, &nv);
                self.aliases.insert(k, a);
                proof {
                    assert(alias_names(self.aliases@) =~= names.insert(k as int, nv@));
                    lemma_sorted_insert(names, nv@, k as int);
                }
            },
        }
    }

    /// Stores aliases read from a file, in order, and remembers the file.
    pub fn load_aliases(&mut self, loaded: Vec<Alias>, path: &str)
        requires
            old(self).wf(),
        ensures
            final(self).wf(),
            exists|trace: Seq<(Seq<Alias>, Seq<(Seq<char>, Seq<Seq<char>>)>)>|
                #![trigger trace.len(), trace.last()]
                {
                    &&& trace.len() == loaded@.len() + 1
                    &&& trace[0] == (old(self).entries(), old(self).index())
                    &&& trace.last() == (final(self).entries(), final(self).index())
                    &&& forall|j: int| 0 <= j < loaded@.len() ==> put_effect((#[trigger] trace[j]).0, trace[j].1,
                        trace[j + 1].0, trace[j + 1].1, loaded@[j])
                },
            final(self).path() == Some(path@),
            final(self).depth_limit() == old(self).depth_limit(),
    {
        let ghost lv = loaded@;
        let ghost mut trace: Seq<(Seq<Alias>, Seq<(Seq<char>, Seq<Seq<char>>)>)> = seq![(self.entries(), self.index())];
        let mut loaded = loaded;
        let mut i: usize = 0;
        let n = loaded.len();
        while loaded.len() > 0
            invariant
                n == lv.len(),
                i + loaded@.len() == n,
                loaded@ == lv.subrange(i as int, n as int),
                self.wf(),
                trace.len() == i + 1,
                trace[0] == (old(self).entries(), old(self).index()),
                trace.last() == (self.entries(), self.index()),
                forall|j: int| 0 <= j < i ==> put_effect((#[trigger] trace[j]).0, trace[j].1, trace[j + 1].0,
                    trace[j + 1].1, lv[j]),
                self.path() == old(self).path(),
                self.depth_limit() == old(self).depth_limit(),
            decreases loaded.len(),
        {
            let a = loaded.remove(0);
            assert(a == lv[i as int]);
            assert(loaded@ =~= lv.subrange(i + 1, n as int));
            let ghost prev = trace;
            self.put_alias(a);
            proof {
                trace = trace.push((self.entries(), self.index()));
                assert forall|j: int| 0 <= j < i + 1 implies put_effect((#[trigger] trace[j]).0, trace[j].1,
                    trace[j + 1].0, trace[j + 1].1, lv[j]) by {
                    assert(trace[j] == if j <= i { prev[j] } else { trace[j] });
                    if j < i {
                        assert(trace[j + 1] == prev[j + 1]);
                    }
                }
            }
            i = i + 1;
        }
        self.file_path = Some(owned(path));
    }
}

impl Default for AliasManager {
    fn default() -> (m: Self)
        ensures
            m.wf(),
            m.entries().len() == 0,
            m.index().len() == 0,
            m.path() is None,
            m.depth_limit() == 10,
    {
        Self::new()
    }
}

} // verus!
