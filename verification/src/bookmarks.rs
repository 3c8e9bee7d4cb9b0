//! Bookmarks: saved commands with a name, tags and usage statistics, kept by
//! a manager that indexes them by tag, searches them and ranks them by name,
//! recency and frequency of use.

use vstd::prelude::*;
use crate::clock::unix_millis;
use crate::ident::new_id;
use crate::strings::{lex_lt, lex_less, lemma_lex_total, lemma_lex_trans, lemma_lex_asymmetric, strictly_sorted, count_lt, key_pos, lemma_key_pos_unique, lemma_sorted_insert,
    lemma_lex_irreflexive};
use crate::text::{chars_of, contains, contains_sub, lowercase, owned, seq_eq, str_eq, to_lowercase};

verus! {

/// Represents a single bookmark entry
#[derive(Debug, Clone)]
pub struct Bookmark {
    /// Unique identifier
    pub id: u128,
    /// Display name of the bookmark
    pub name: String,
    /// The command to execute
    pub command: String,
    /// Optional working directory
    pub working_dir: Option<String>,
    /// Tags for categorization
    pub tags: Vec<String>,
    /// When the bookmark was created, in milliseconds since the Unix epoch
    pub created_at: i64,
    /// When the bookmark was last used, in milliseconds since the Unix epoch
    pub last_used: Option<i64>,
    /// Number of times the bookmark has been used
    pub use_count: u32,
    /// Optional description
    pub description: Option<String>,
}

/// The text of an optional string.
pub open spec fn opt_text(o: Option<String>) -> Option<Seq<char>> {
    match o {
        Some(s) => Some(s@),
        None => None,
    }
}

/// The texts of a list of strings.
pub open spec fn texts(v: Seq<String>) -> Seq<Seq<char>> {
    v.map_values(|s: String| s@)
}

/// Whether a bookmark matches a search query, ignoring case: the lowercase
/// query occurs in the lowercase name, command, description or one of the tags.
pub open spec fn query_hit(b: Bookmark, q: Seq<char>) -> bool {
    let ql = lowercase(q);
    ||| contains_sub(lowercase(b.name@), ql)
    ||| contains_sub(lowercase(b.command@), ql)
    ||| (b.description matches Some(d) && contains_sub(lowercase(d@), ql))
    ||| exists|i: int| 0 <= i < b.tags@.len() && contains_sub(lowercase(#[trigger] b.tags@[i]@), ql)
}

/// A bookmark matches a query that occurs, ignoring case, in its name, in
/// its command, in its description or in one of its tags.
pub proof fn lemma_query_hits(b: Bookmark, q: Seq<char>, i: int)
    ensures
        contains_sub(lowercase(b.name@), lowercase(q)) ==> query_hit(b, q),
        contains_sub(lowercase(b.command@), lowercase(q)) ==> query_hit(b, q),
        (b.description matches Some(d) && contains_sub(lowercase(d@), lowercase(q))) ==> query_hit(b, q),
        0 <= i < b.tags@.len() && contains_sub(lowercase(b.tags@[i]@), lowercase(q)) ==> query_hit(b, q),
{
}

/// A copy of a list of strings.
pub fn copy_strings(v: &Vec<String>) -> (r: Vec<String>)
    ensures
        texts(r@) == texts(v@),
{
    let mut r: Vec<String> = Vec::new();
    let mut i: usize = 0;
    while i < v.len()
        invariant
            i <= v.len(),
            r@.len() == i,
            forall|k: int| 0 <= k < i ==> #[trigger] r@[k]@ == v@[k]@,
        decreases v.len() - i,
    {
        r.push(owned(v[i].as_str()));
        i = i + 1;
    }
    assert(texts(r@) =~= texts(v@));
    r
}

/// A copy of an optional string.
pub fn copy_opt(o: &Option<String>) -> (r: Option<String>)
    ensures
        opt_text(r) == opt_text(*o),
{
    match o {
        Some(s) => Some(owned(s.as_str())),
        None => None,
    }
}

impl Bookmark {
    /// A bookmark with the given identity and creation time, never used yet
    pub fn with_identity(
        id: u128,
        name: &str,
        command: &str,
        working_dir: Option<String>,
        tags: Vec<String>,
        created_at: i64,
    ) -> (b: Self)
        ensures
            b.id == id,
            b.name@ == name@,
            b.command@ == command@,
            b.working_dir == working_dir,
            b.tags == tags,
            b.created_at == created_at,
            b.last_used is None,
            b.use_count == 0,
            b.description is None,
    {
        Bookmark {
            id,
            name: owned(name),
            command: owned(command),
            working_dir,
            tags,
            created_at,
            last_used: None,
            use_count: 0,
            description: None,
        }
    }

    /// Create a new bookmark, with a fresh identifier, created now
    pub fn new(name: &str, command: &str, working_dir: Option<String>, tags: Vec<String>) -> (b: Self)
        ensures
            b.name@ == name@,
            b.command@ == command@,
            b.working_dir == working_dir,
            b.tags == tags,
            b.last_used is None,
            b.use_count == 0,
            b.description is None,
    {
        let id = new_id();
        let now = unix_millis();
        Self::with_identity(id, name, command, working_dir, tags, now)
    }

    /// Add a description to the bookmark
    pub fn with_description(self, description: &str) -> (b: Self)
        ensures
            b.id == self.id,
            b.name == self.name,
            b.command == self.command,
            b.working_dir == self.working_dir,
            b.tags == self.tags,
            b.created_at == self.created_at,
            b.last_used == self.last_used,
            b.use_count == self.use_count,
            opt_text(b.description) == Some(description@),
    {
        let mut b = self;
        b.description = Some(owned(description));
        b
    }

    /// Record usage of this bookmark at the given time
    pub fn record_use_at(&mut self, now: i64)
        requires
            old(self).use_count < u32::MAX,
        ensures
            *final(self) == (Bookmark {
                use_count: (old(self).use_count + 1) as u32,
                last_used: Some(now),
                ..*old(self)
            }),
    {
        self.use_count = self.use_count + 1;
        self.last_used = Some(now);
    }

    /// Record usage of this bookmark
    pub fn record_use(&mut self)
        requires
            old(self).use_count < u32::MAX,
        ensures
            final(self).use_count == old(self).use_count + 1,
            final(self).last_used is Some,
            final(self).id == old(self).id,
            final(self).name == old(self).name,
            final(self).command == old(self).command,
            final(self).working_dir == old(self).working_dir,
            final(self).tags == old(self).tags,
            final(self).created_at == old(self).created_at,
            final(self).description == old(self).description,
    {
        let now = unix_millis();
        self.record_use_at(now);
    }

    /// Check if the bookmark matches a search query
    pub fn matches_query(&self, query: &str) -> (r: bool)
        ensures
            r == query_hit(*self, query@),
    {
        let ql = chars_of(to_lowercase(query).as_str());
        if contains(&chars_of(to_lowercase(self.name.as_str()).as_str()), &ql) {
            return true;
        }
        if contains(&chars_of(to_lowercase(self.command.as_str()).as_str()), &ql) {
            return true;
        }
        match &self.description {
            Some(d) => {
                if contains(&chars_of(to_lowercase(d.as_str()).as_str()), &ql) {
                    return true;
                }
            },
            None => {},
        }
        let mut i: usize = 0;
        while i < self.tags.len()
            invariant
                i <= self.tags@.len(),
                ql@ == lowercase(query@),
                forall|k: int| 0 <= k < i ==> !contains_sub(lowercase(#[trigger] self.tags@[k]@), ql@),
            decreases self.tags.len() - i,
        {
            if contains(&chars_of(to_lowercase(self.tags[i].as_str()).as_str()), &ql) {
                return true;
            }
            i = i + 1;
        }
        false
    }
}

/// Updates that can be applied to a bookmark
#[derive(Debug, Clone)]
pub struct BookmarkUpdate {
    pub name: Option<String>,
    pub command: Option<String>,
    pub working_dir: Option<Option<String>>,
    pub tags: Option<Vec<String>>,
    pub description: Option<Option<String>>,
}

/// What applying update `u` to bookmark `b0` gives `b1`.
pub open spec fn updated(b0: Bookmark, u: BookmarkUpdate, b1: Bookmark) -> bool {
    &&& b1.id == b0.id
    &&& b1.created_at == b0.created_at
    &&& b1.last_used == b0.last_used
    &&& b1.use_count == b0.use_count
    &&& b1.name@ == match u.name { Some(n) => n@, None => b0.name@ }
    &&& b1.command@ == match u.command { Some(c) => c@, None => b0.command@ }
    &&& opt_text(b1.working_dir) == match u.working_dir { Some(w) => opt_text(w), None => opt_text(b0.working_dir) }
    &&& texts(b1.tags@) == match u.tags { Some(t) => texts(t@), None => texts(b0.tags@) }
    &&& opt_text(b1.description) == match u.description { Some(d) => opt_text(d), None => opt_text(b0.description) }
}

impl Default for BookmarkUpdate {
    fn default() -> (u: Self)
        ensures
            u.name is None,
            u.command is None,
            u.working_dir is None,
            u.tags is None,
            u.description is None,
    {
        BookmarkUpdate { name: None, command: None, working_dir: None, tags: None, description: None }
    }
}

impl BookmarkUpdate {
    /// Create a new empty update
    pub fn new() -> (u: Self)
        ensures
            u.name is None,
            u.command is None,
            u.working_dir is None,
            u.tags is None,
            u.description is None,
    {
        Self::default()
    }

    /// Set the name
    pub fn name(self, name: &str) -> (u: Self)
        ensures
            opt_text(u.name) == Some(name@),
            u.command == self.command,
            u.working_dir == self.working_dir,
            u.tags == self.tags,
            u.description == self.description,
    {
        let mut u = self;
        u.name = Some(owned(name));
        u
    }

    /// Set the command
    pub fn command(self, command: &str) -> (u: Self)
        ensures
            opt_text(u.command) == Some(command@),
            u.name == self.name,
            u.working_dir == self.working_dir,
            u.tags == self.tags,
            u.description == self.description,
    {
        let mut u = self;
        u.command = Some(owned(command));
        u
    }

    /// Set the working directory
    pub fn working_dir(self, working_dir: Option<String>) -> (u: Self)
        ensures
            u.working_dir == Some(working_dir),
            u.name == self.name,
            u.command == self.command,
            u.tags == self.tags,
            u.description == self.description,
    {
        let mut u = self;
        u.working_dir = Some(working_dir);
        u
    }

    /// Set the tags
    pub fn tags(self, tags: Vec<String>) -> (u: Self)
        ensures
            u.tags == Some(tags),
            u.name == self.name,
            u.command == self.command,
            u.working_dir == self.working_dir,
            u.description == self.description,
    {
        let mut u = self;
        u.tags = Some(tags);
        u
    }

    /// Set the description
    pub fn description(self, description: Option<String>) -> (u: Self)
        ensures
            u.description == Some(description),
            u.name == self.name,
            u.command == self.command,
            u.working_dir == self.working_dir,
            u.tags == self.tags,
    {
        let mut u = self;
        u.description = Some(description);
        u
    }

    /// Apply the update to a bookmark
    pub fn apply_to(&self, bookmark: &mut Bookmark)
        ensures
            updated(*old(bookmark), *self, *final(bookmark)),
    {
        match &self.name {
            Some(n) => bookmark.name = owned(n.as_str()),
            None => {},
        }
        match &self.command {
            Some(c) => bookmark.command = owned(c.as_str()),
            None => {},
        }
        match &self.working_dir {
            Some(w) => bookmark.working_dir = copy_opt(w),
            None => {},
        }
        match &self.tags {
            Some(t) => bookmark.tags = copy_strings(t),
            None => {},
        }
        match &self.description {
            Some(d) => bookmark.description = copy_opt(d),
            None => {},
        }
    }
}

} // verus!

verus! {

/// Errors that can occur during bookmark operations
#[derive(Debug, Clone)]
pub enum BookmarkError {
    NotFound(u128),
    IoError(String),
    SerializationError(String),
    NoFilePath,
}

/// The orders in which bookmarks are listed.
#[derive(Debug, Clone, Copy, PartialEq, Eq, Structural)]
pub enum BookmarkOrder {
    /// By name, in the order of string comparison
    ByName,
    /// Most recently used first
    RecentFirst,
    /// Most used first, then most recently used
    MostUsedFirst,
}

/// `a >= b` for optional times, where no time comes before every time.
pub open spec fn time_ge(a: Option<i64>, b: Option<i64>) -> bool {
    match (a, b) {
        (_, None) => true,
        (None, Some(_)) => false,
        (Some(x), Some(y)) => x >= y,
    }
}

/// Whether `a` may stand before `b` in order `o`.
pub open spec fn ranks_before(o: BookmarkOrder, a: Bookmark, b: Bookmark) -> bool {
    match o {
        BookmarkOrder::ByName => a.name@ == b.name@ || lex_lt(a.name@, b.name@),
        BookmarkOrder::RecentFirst => time_ge(a.last_used, b.last_used),
        BookmarkOrder::MostUsedFirst => a.use_count > b.use_count || (a.use_count == b.use_count
            && time_ge(a.last_used, b.last_used)),
    }
}

/// The bookmarks stand in order `o`.
pub open spec fn ranked(o: BookmarkOrder, s: Seq<Bookmark>) -> bool {
    forall|i: int, j: int| 0 <= i < j < s.len() ==> ranks_before(o, #[trigger] s[i], #[trigger] s[j])
}

/// Each order is total and transitive.
pub proof fn lemma_order(o: BookmarkOrder, a: Bookmark, b: Bookmark, c: Bookmark)
    ensures
        ranks_before(o, a, b) || ranks_before(o, b, a),
        ranks_before(o, a, b) && ranks_before(o, b, c) ==> ranks_before(o, a, c),
{
    lemma_lex_total(a.name@, b.name@);
    if a.name@ != b.name@ && b.name@ != c.name@ && lex_lt(a.name@, b.name@) && lex_lt(b.name@, c.name@) {
        lemma_lex_trans(a.name@, b.name@, c.name@);
    }
    if a.name@ == c.name@ && lex_lt(a.name@, b.name@) && lex_lt(b.name@, c.name@) {
        lemma_lex_trans(a.name@, b.name@, c.name@);
        lemma_lex_irreflexive(a.name@);
    }
}

/// The bookmarks that references point at.
pub open spec fn derefs(s: Seq<&Bookmark>) -> Seq<Bookmark> {
    s.map_values(|r: &Bookmark| *r)
}

/// Whether `a` may stand before `b` in order `o`.
fn before_eq(o: BookmarkOrder, a: &Bookmark, b: &Bookmark) -> (r: bool)
    ensures
        r == ranks_before(o, *a, *b),
{
    match o {
        BookmarkOrder::ByName => {
            let an = chars_of(a.name.as_str());
            let bn = chars_of(b.name.as_str());
            seq_eq(&an, &bn) || lex_less(&an, &bn)
        },
        BookmarkOrder::RecentFirst => time_at_least(a.last_used, b.last_used),
        BookmarkOrder::MostUsedFirst => a.use_count > b.use_count || (a.use_count == b.use_count
            && time_at_least(a.last_used, b.last_used)),
    }
}

fn time_at_least(a: Option<i64>, b: Option<i64>) -> (r: bool)
    ensures
        r == time_ge(a, b),
{
    match (a, b) {
        (_, None) => true,
        (None, Some(_)) => false,
        (Some(x), Some(y)) => x >= y,
    }
}

/// The bookmarks put in order `o`; of bookmarks that tie, the earlier stays first.
pub fn sort_ranked<'a>(v: Vec<&'a Bookmark>, o: BookmarkOrder) -> (r: Vec<&'a Bookmark>)
    ensures
        ranked(o, derefs(r@)),
        derefs(r@).to_multiset() == derefs(v@).to_multiset(),
        r@.len() == v@.len(),
{
    let ghost iv = derefs(v@);
    let mut rest = v;
    let mut r: Vec<&'a Bookmark> = Vec::new();
    let ghost mut done: Seq<Bookmark> = seq![];
    assert(derefs(r@) =~= done);
    assert(iv =~= done + derefs(rest@));
    while rest.len() > 0
        invariant
            iv == done + derefs(rest@),
            ranked(o, derefs(r@)),
            derefs(r@).to_multiset() == done.to_multiset(),
            r@.len() == done.len(),
        decreases rest.len(),
    {
        let x = rest.remove(0);
        let ghost rv = derefs(r@);
        let mut k: usize = 0;
        while k < r.len() && before_eq(o, r[k], x)
            invariant
                k <= r@.len(),
                rv == derefs(r@),
                forall|j: int| 0 <= j < k ==> ranks_before(o, #[trigger] rv[j], *x),
            decreases r.len() - k,
        {
            k = k + 1;
        }
        proof {
            assert forall|j: int| k <= j < rv.len() implies ranks_before(o, *x, #[trigger] rv[j]) by {
                assert(!ranks_before(o, rv[k as int], *x));
                lemma_order(o, rv[k as int], *x, rv[j]);
                if j > k {
                    assert(ranks_before(o, rv[k as int], rv[j]));
                    lemma_order(o, *x, rv[k as int], rv[j]);
                }
            }
            let nv = rv.insert(k as int, *x);
            assert forall|a: int, b: int| 0 <= a < b < nv.len() implies ranks_before(o, #[trigger] nv[a], #[trigger] nv[b]) by {
                if b < k {
                } else if b == k {
                } else if a < k {
                    assert(nv[a] == rv[a]);
                    assert(nv[b] == rv[b - 1]);
                    lemma_order(o, rv[a], *x, rv[b - 1]);
                } else if a == k {
                } else {
                    assert(ranks_before(o, rv[a - 1], rv[b - 1]));
                }
            }
            vstd::seq_lib::to_multiset_insert(rv, k as int, *x);
            vstd::seq_lib::to_multiset_build(done, *x);
            done = done.push(*x);
        }
        r.insert(k, x);
        assert(derefs(r@) =~= rv.insert(k as int, *x));
        assert(iv =~= done + derefs(rest@));
    }
    assert(done =~= iv);
    r
}

} // verus!

verus! {

/// Whether a bookmark with identifier `id` is among `e`.
pub open spec fn has_id(e: Seq<Bookmark>, id: u128) -> bool {
    exists|i: int| 0 <= i < e.len() && e[i].id == id
}

/// Position of the bookmark with identifier `id`.
pub open spec fn id_pos(e: Seq<Bookmark>, id: u128) -> int {
    choose|i: int| 0 <= i < e.len() && e[i].id == id
}

/// No two bookmarks share an identifier.
pub open spec fn ids_unique(e: Seq<Bookmark>) -> bool {
    forall|i: int, j: int| 0 <= i < j < e.len() ==> (#[trigger] e[i]).id != (#[trigger] e[j]).id
}

/// The keys of a tag index.
pub open spec fn tag_keys(x: Seq<(Seq<char>, Seq<u128>)>) -> Seq<Seq<char>> {
    x.map_values(|e: (Seq<char>, Seq<u128>)| e.0)
}

/// The keys of the index under which some identifier is still filed, in
/// order: the tags of the bookmarks held.
pub open spec fn live_tag_keys(x: Seq<(Seq<char>, Seq<u128>)>) -> Seq<Seq<char>>
    decreases x.len(),
{
    if x.len() == 0 {
        seq![]
    } else if x.last().1.len() > 0 {
        live_tag_keys(x.drop_last()).push(x.last().0)
    } else {
        live_tag_keys(x.drop_last())
    }
}

/// The identifiers filed under `key`, in the order they were filed.
pub open spec fn filed(x: Seq<(Seq<char>, Seq<u128>)>, key: Seq<char>) -> Seq<u128> {
    let p = key_pos(tag_keys(x), key);
    if p >= 0 { x[p].1 } else { seq![] }
}

/// The index with `id` filed under `key`: appended to the key's identifiers,
/// or a new key made for it in its place in the order.
pub open spec fn index_push(x: Seq<(Seq<char>, Seq<u128>)>, key: Seq<char>, id: u128) -> Seq<(Seq<char>, Seq<u128>)> {
    let p = key_pos(tag_keys(x), key);
    if p >= 0 {
        x.update(p, (key, x[p].1.push(id)))
    } else {
        x.insert(count_lt(tag_keys(x), key) as int, (key, seq![id]))
    }
}

/// The index with `id` filed under each of `keys` in turn.
pub open spec fn index_push_all(x: Seq<(Seq<char>, Seq<u128>)>, keys: Seq<Seq<char>>, id: u128) -> Seq<(Seq<char>, Seq<u128>)>
    decreases keys.len(),
{
    if keys.len() == 0 {
        x
    } else {
        index_push(index_push_all(x, keys.drop_last(), id), keys.last(), id)
    }
}

/// The identifiers with every occurrence of `id` taken out.
pub open spec fn drop_id(s: Seq<u128>, id: u128) -> Seq<u128>
    decreases s.len(),
{
    if s.len() == 0 {
        seq![]
    } else if s.last() == id {
        drop_id(s.drop_last(), id)
    } else {
        drop_id(s.drop_last(), id).push(s.last())
    }
}

/// The index with `id` taken out of the identifiers of each of `keys`; the
/// keys themselves stay.
pub open spec fn index_drop(x: Seq<(Seq<char>, Seq<u128>)>, keys: Seq<Seq<char>>, id: u128) -> Seq<(Seq<char>, Seq<u128>)> {
    Seq::new(x.len(), |j: int| if keys.contains(x[j].0) { (x[j].0, drop_id(x[j].1, id)) } else { x[j] })
}

/// The lowercase forms of the tags, the keys they are filed under.
pub open spec fn tag_keys_of(tags: Seq<String>) -> Seq<Seq<char>> {
    tags.map_values(|t: String| lowercase(t@))
}

/// The bookmarks with `b` stored: in place of the one with its identifier, or
/// appended.
pub open spec fn put(e: Seq<Bookmark>, b: Bookmark) -> Seq<Bookmark> {
    if has_id(e, b.id) {
        e.update(id_pos(e, b.id), b)
    } else {
        e.push(b)
    }
}

/// The bookmarks that `ids` name, in that order; identifiers of bookmarks that
/// are gone are passed over.
pub open spec fn named_by(e: Seq<Bookmark>, ids: Seq<u128>) -> Seq<Bookmark>
    decreases ids.len(),
{
    if ids.len() == 0 {
        seq![]
    } else if has_id(e, ids.last()) {
        named_by(e, ids.drop_last()).push(e[id_pos(e, ids.last())])
    } else {
        named_by(e, ids.drop_last())
    }
}

/// The bookmarks of `e` that satisfy `f`, in order.
pub open spec fn kept(e: Seq<Bookmark>, f: spec_fn(Bookmark) -> bool) -> Seq<Bookmark>
    decreases e.len(),
{
    if e.len() == 0 {
        seq![]
    } else if f(e.last()) {
        kept(e.drop_last(), f).push(e.last())
    } else {
        kept(e.drop_last(), f)
    }
}

/// A new bookmark as `add_bookmark` builds it.
pub open spec fn fresh(
    b: Bookmark,
    id: u128,
    name: Seq<char>,
    command: Seq<char>,
    working_dir: Option<String>,
    tags: Seq<String>,
    description: Option<Seq<char>>,
    now: i64,
) -> bool {
    &&& b.id == id
    &&& b.name@ == name
    &&& b.command@ == command
    &&& b.working_dir == working_dir
    &&& b.tags@ == tags
    &&& b.created_at == now
    &&& b.last_used is None
    &&& b.use_count == 0
    &&& opt_text(b.description) == description
}

/// Manages bookmarks with CRUD operations and analytics
pub struct BookmarkManager {
    bookmarks: Vec<Bookmark>,
    tag_index: Vec<(String, Vec<u128>)>,
    file_path: Option<String>,
}

impl BookmarkManager {
    /// The bookmarks, in the order they were added.
    pub closed spec fn entries(&self) -> Seq<Bookmark> {
        self.bookmarks@
    }

    /// The tag index: each lowercase tag with the identifiers filed under it,
    /// ordered by tag.
    pub closed spec fn index(&self) -> Seq<(Seq<char>, Seq<u128>)> {
        self.tag_index@.map_values(|e: (String, Vec<u128>)| (e.0@, e.1@))
    }

    /// The file the bookmarks are kept in, once one is known.
    pub closed spec fn path(&self) -> Option<Seq<char>> {
        opt_text(self.file_path)
    }

    /// No two bookmarks share an identifier, and the index keys are strictly
    /// ordered.
    pub open spec fn wf(&self) -> bool {
        ids_unique(self.entries()) && strictly_sorted(tag_keys(self.index()))
    }

    /// Create a new bookmark manager
    pub fn new() -> (m: Self)
        ensures
            m.wf(),
            m.entries() == Seq::<Bookmark>::empty(),
            m.index() == Seq::<(Seq<char>, Seq<u128>)>::empty(),
            m.path() is None,
    {
        let m = BookmarkManager { bookmarks: Vec::new(), tag_index: Vec::new(), file_path: None };
        assert(m.index() =~= Seq::<(Seq<char>, Seq<u128>)>::empty());
        m
    }

    /// Position of the bookmark with identifier `id`.
    fn find(&self, id: u128) -> (r: Option<usize>)
        requires
            self.wf(),
        ensures
            match r {
                Some(i) => has_id(self.entries(), id) && i == id_pos(self.entries(), id),
                None => !has_id(self.entries(), id),
            },
    {
        let mut i: usize = 0;
        while i < self.bookmarks.len()
            invariant
                i <= self.bookmarks@.len(),
                self.wf(),
                forall|j: int| 0 <= j < i ==> self.bookmarks@[j].id != id,
            decreases self.bookmarks.len() - i,
        {
            if self.bookmarks[i].id == id {
                proof {
                    let e = self.entries();
                    assert(has_id(e, id));
                    let p = id_pos(e, id);
                    if p != i {
                        if p < i {
                        } else {
                            assert(e[i as int].id != e[p].id);
                        }
                    }
                }
                return Some(i);
            }
            i = i + 1;
        }
        None
    }

    /// Position of `key` in the index.
    fn find_key(&self, key: &Vec<char>) -> (r: Option<usize>)
        requires
            self.wf(),
        ensures
            match r {
                Some(i) => i < self.index().len() && self.index()[i as int].0 == key@ && key_pos(tag_keys(self.index()), key@) == i,
                None => !tag_keys(self.index()).contains(key@) && key_pos(tag_keys(self.index()), key@) == -1,
            },
    {
        let ghost keys = tag_keys(self.index());
        let mut i: usize = 0;
        while i < self.tag_index.len()
            invariant
                i <= self.tag_index@.len(),
                self.wf(),
                keys == tag_keys(self.index()),
                keys.len() == self.tag_index@.len(),
                forall|j: int| 0 <= j < self.tag_index@.len() ==> #[trigger] keys[j] == self.tag_index@[j].0@,
                forall|j: int| 0 <= j < i ==> keys[j] != key@,
            decreases self.tag_index.len() - i,
        {
            if seq_eq(&chars_of(self.tag_index[i].0.as_str()), key) {
                proof {
                    lemma_key_pos_unique(keys, key@, i as int);
                }
                return Some(i);
            }
            i = i + 1;
        }
        proof {
            if keys.contains(key@) {
                let j = choose|j: int| 0 <= j < keys.len() && keys[j] == key@;
                assert(keys[j] == key@);
            }
        }
        None
    }

    /// Where a key that does not occur goes in the order of the index.
    fn key_slot(&self, key: &Vec<char>) -> (k: usize)
        requires
            self.wf(),
            !tag_keys(self.index()).contains(key@),
        ensures
            k <= self.index().len(),
            forall|j: int| 0 <= j < k ==> lex_lt(#[trigger] tag_keys(self.index())[j], key@),
            forall|j: int| k <= j < self.index().len() ==> lex_lt(key@, #[trigger] tag_keys(self.index())[j]),
            count_lt(tag_keys(self.index()), key@) == k,
    {
        let ghost keys = tag_keys(self.index());
        let mut k: usize = 0;
        while k < self.tag_index.len() && lex_less(&chars_of(self.tag_index[k].0.as_str()), key)
            invariant
                k <= self.tag_index@.len(),
                keys == tag_keys(self.index()),
                keys.len() == self.tag_index@.len(),
                forall|j: int| 0 <= j < self.tag_index@.len() ==> #[trigger] keys[j] == self.tag_index@[j].0@,
                forall|j: int| 0 <= j < k ==> lex_lt(#[trigger] keys[j], key@),
            decreases self.tag_index.len() - k,
        {
            k = k + 1;
        }
        proof {
            assert forall|j: int| k <= j < keys.len() implies lex_lt(key@, #[trigger] keys[j]) by {
                assert(keys[j] != key@);
                lemma_lex_total(keys[j], key@);
                if lex_lt(keys[j], key@) {
                    if j > k {
                        assert(lex_lt(keys[k as int], keys[j]));
                        lemma_lex_trans(keys[k as int], keys[j], key@);
                    }
                }
            }
            assert forall|j: int| k <= j < keys.len() implies !lex_lt(#[trigger] keys[j], key@) by {
                lemma_lex_asymmetric(key@, keys[j]);
            }
            crate::strings::lemma_count_lt_exact(keys, key@, k as int);
        }
        k
    }

    /// Files `id` under `key`.
    fn file_id(&mut self, key: String, id: u128)
        requires
            old(self).wf(),
        ensures
            final(self).wf(),
            final(self).index() == index_push(old(self).index(), key@, id),
            final(self).entries() == old(self).entries(),
            final(self).path() == old(self).path(),
    {
        let ghost x = self.index();
        let kv = chars_of(key.as_str());
        match self.find_key(&kv) {
            Some(i) => {
                let (k, mut ids) = self.tag_index.remove(i);
                ids.push(id);
                self.tag_index.insert(i, (k, ids));
                proof {
                    assert(self.index() =~= index_push(x, key@, id));
                    assert(tag_keys(self.index()) =~= tag_keys(x));
                }
            },
            None => {
                let k = self.key_slot(&kv);
                let mut ids: Vec<u128> = Vec::new();
                ids.push(id);
                self.tag_index.insert(k, (key, ids));
                proof {
                    assert(ids@ =~= seq![id]);
                    assert(self.index() =~= index_push(x, kv@, id));
                    assert(tag_keys(self.index()) =~= tag_keys(x).insert(k as int, kv@));
                    lemma_sorted_insert(tag_keys(x), kv@, k as int);
                }
            },
        }
    }

    /// Files `id` under the lowercase form of each tag, in order.
    fn file_tags(&mut self, tags: &Vec<String>, id: u128)
        requires
            old(self).wf(),
        ensures
            final(self).wf(),
            final(self).index() == index_push_all(old(self).index(), tag_keys_of(tags@), id),
            final(self).entries() == old(self).entries(),
            final(self).path() == old(self).path(),
    {
        let ghost x0 = self.index();
        let mut i: usize = 0;
        while i < tags.len()
            invariant
                i <= tags@.len(),
                self.wf(),
                self.index() == index_push_all(x0, tag_keys_of(tags@.subrange(0, i as int)), id),
                self.entries() == old(self).entries(),
                self.path() == old(self).path(),
            decreases tags.len() - i,
        {
            let key = to_lowercase(tags[i].as_str());
            self.file_id(key, id);
            proof {
                let ks = tag_keys_of(tags@.subrange(0, i + 1));
                assert(ks.drop_last() =~= tag_keys_of(tags@.subrange(0, i as int)));
                assert(ks.last() == lowercase(tags@[i as int]@));
            }
            i = i + 1;
        }
        assert(tags@.subrange(0, tags@.len() as int) =~= tags@);
    }

    /// Takes `id` out of the identifiers filed under each of `keys`.
    fn unfile(&mut self, keys: &Vec<Vec<char>>, id: u128)
        requires
            old(self).wf(),
        ensures
            final(self).wf(),
            final(self).index() == index_drop(old(self).index(), keys@.map_values(|k: Vec<char>| k@), id),
            final(self).entries() == old(self).entries(),
            final(self).path() == old(self).path(),
    {
        let ghost x0 = self.index();
        let ghost ks = keys@.map_values(|k: Vec<char>| k@);
        let mut out: Vec<(String, Vec<u128>)> = Vec::new();
        let mut rest: Vec<(String, Vec<u128>)> = Vec::new();
        std::mem::swap(&mut rest, &mut self.tag_index);
        let ghost rest0 = rest@;
        assert(rest0.map_values(|e: (String, Vec<u128>)| (e.0@, e.1@)) == x0);
        let mut j: usize = 0;
        while j < rest.len()
            invariant
                j <= rest@.len(),
                rest@ == rest0,
                ks == keys@.map_values(|k: Vec<char>| k@),
                rest0.map_values(|e: (String, Vec<u128>)| (e.0@, e.1@)) == x0,
                out@.len() == j,
                forall|t: int| 0 <= t < j ==> (#[trigger] out@[t]).0@ == x0[t].0 && out@[t].1@ == index_drop(x0, ks, id)[t].1,
            decreases rest.len() - j,
        {
            let kv = chars_of(rest[j].0.as_str());
            let mut hit = false;
            let mut t: usize = 0;
            while t < keys.len()
                invariant
                    t <= keys@.len(),
                    hit == exists|u: int| 0 <= u < t && keys@[u]@ == kv@,
                decreases keys.len() - t,
            {
                if seq_eq(&keys[t], &kv) {
                    hit = true;
                }
                t = t + 1;
            }
            proof {
                assert(x0[j as int] == (rest0[j as int].0@, rest0[j as int].1@));
                if hit {
                    let u = choose|u: int| 0 <= u < keys@.len() && keys@[u]@ == kv@;
                    assert(ks[u] == kv@);
                }
                if ks.contains(kv@) {
                    let u = choose|u: int| 0 <= u < ks.len() && ks[u] == kv@;
                    assert(keys@[u]@ == kv@);
                }
            }
            let ids = if hit { retain_other(&rest[j].1, id) } else { copy_ids(&rest[j].1) };
            out.push((owned(rest[j].0.as_str()), ids));
            j = j + 1;
        }
        self.tag_index = out;
        assert(self.index() =~= index_drop(x0, ks, id));
        assert(tag_keys(self.index()) =~= tag_keys(x0));
    }
}

/// The identifiers with every occurrence of `id` taken out.
fn retain_other(ids: &Vec<u128>, id: u128) -> (r: Vec<u128>)
    ensures
        r@ == drop_id(ids@, id),
{
    let mut r: Vec<u128> = Vec::new();
    let mut i: usize = 0;
    while i < ids.len()
        invariant
            i <= ids@.len(),
            r@ == drop_id(ids@.subrange(0, i as int), id),
        decreases ids.len() - i,
    {
        assert(ids@.subrange(0, i + 1).drop_last() =~= ids@.subrange(0, i as int));
        if ids[i] != id {
            r.push(ids[i]);
        }
        i = i + 1;
    }
    assert(ids@.subrange(0, ids@.len() as int) =~= ids@);
    r
}

/// A copy of a list of identifiers.
fn copy_ids(ids: &Vec<u128>) -> (r: Vec<u128>)
    ensures
        r@ == ids@,
{
    let mut r: Vec<u128> = Vec::new();
    let mut i: usize = 0;
    while i < ids.len()
        invariant
            i <= ids@.len(),
            r@ == ids@.subrange(0, i as int),
        decreases ids.len() - i,
    {
        r.push(ids[i]);
        i = i + 1;
        assert(r@ =~= ids@.subrange(0, i as int));
    }
    r
}

} // verus!

verus! {

/// Putting a bookmark keeps identifiers unique.
/// With unique identifiers, a bookmark's identifier finds exactly its place.
proof fn lemma_id_pos_exact(e: Seq<Bookmark>, i: int)
    requires
        ids_unique(e),
        0 <= i < e.len(),
    ensures
        has_id(e, e[i].id),
        id_pos(e, e[i].id) == i,
{
    let id = e[i].id;
    assert(has_id(e, id));
    let p = id_pos(e, id);
    if p != i {
        if p < i {
            assert(e[p].id != e[i].id);
        } else {
            assert(e[i].id != e[p].id);
        }
    }
}

/// Storing a bookmark and then looking up its identifier gives it back;
/// every other identifier finds what it found before.
pub proof fn lemma_put_then_get(e: Seq<Bookmark>, b: Bookmark, other: u128)
    requires
        ids_unique(e),
    ensures
        ids_unique(put(e, b)),
        has_id(put(e, b), b.id),
        put(e, b)[id_pos(put(e, b), b.id)] == b,
        other != b.id ==> has_id(put(e, b), other) == has_id(e, other),
        other != b.id && has_id(e, other) ==> put(e, b)[id_pos(put(e, b), other)] == e[id_pos(e, other)],
{
    lemma_put_unique(e, b);
    let n = put(e, b);
    let k = if has_id(e, b.id) { id_pos(e, b.id) } else { e.len() as int };
    assert(n[k] == b);
    lemma_id_pos_exact(n, k);
    if other != b.id {
        if has_id(e, other) {
            let q = id_pos(e, other);
            assert(n[q] == e[q]);
            lemma_id_pos_exact(n, q);
        }
        if has_id(n, other) {
            let q = id_pos(n, other);
            assert(q != k);
            assert(e[q] == n[q]);
        }
    }
}

/// Taking out the bookmark with an identifier leaves none with it, and
/// every other identifier finds what it found before.
pub proof fn lemma_remove_then_absent(e: Seq<Bookmark>, id: u128, other: u128)
    requires
        ids_unique(e),
        has_id(e, id),
    ensures
        ids_unique(e.remove(id_pos(e, id))),
        !has_id(e.remove(id_pos(e, id)), id),
        other != id ==> has_id(e.remove(id_pos(e, id)), other) == has_id(e, other),
        other != id && has_id(e, other) ==> e.remove(id_pos(e, id))[id_pos(e.remove(id_pos(e, id)), other)] == e[id_pos(e, other)],
{
    let p = id_pos(e, id);
    let r = e.remove(p);
    assert forall|i: int, j: int| 0 <= i < j < r.len() implies (#[trigger] r[i]).id != (#[trigger] r[j]).id by {
        let ii = if i < p { i } else { i + 1 };
        let jj = if j < p { j } else { j + 1 };
        assert(r[i] == e[ii] && r[j] == e[jj]);
        assert(e[ii].id != e[jj].id);
    }
    if has_id(r, id) {
        let q = id_pos(r, id);
        let qq = if q < p { q } else { q + 1 };
        assert(r[q] == e[qq]);
        lemma_id_pos_exact(e, qq);
    }
    if other != id {
        if has_id(e, other) {
            let q = id_pos(e, other);
            assert(q != p);
            let rq = if q < p { q } else { q - 1 };
            assert(r[rq] == e[q]);
            lemma_id_pos_exact(r, rq);
        }
        if has_id(r, other) {
            let q = id_pos(r, other);
            let qq = if q < p { q } else { q + 1 };
            assert(r[q] == e[qq]);
        }
    }
}

proof fn lemma_put_unique(e: Seq<Bookmark>, b: Bookmark)
    requires
        ids_unique(e),
    ensures
        ids_unique(put(e, b)),
        has_id(e, b.id) ==> put(e, b).len() == e.len() && 0 <= id_pos(e, b.id) < e.len()
            && e[id_pos(e, b.id)].id == b.id,
        !has_id(e, b.id) ==> put(e, b).len() == e.len() + 1,
{
    let n = put(e, b);
    if has_id(e, b.id) {
        let p = id_pos(e, b.id);
        assert forall|i: int, j: int| 0 <= i < j < n.len() implies (#[trigger] n[i]).id != (#[trigger] n[j]).id by {
            if i == p {
                assert(e[j].id != e[p].id);
            } else if j == p {
                assert(e[i].id != e[p].id);
            } else {
                assert(e[i].id != e[j].id);
            }
        }
    } else {
        assert forall|i: int, j: int| 0 <= i < j < n.len() implies (#[trigger] n[i]).id != (#[trigger] n[j]).id by {
            if j == e.len() {
                assert(e[i].id != b.id);
            } else {
                assert(e[i].id != e[j].id);
            }
        }
    }
}

/// The lowercase forms of the tags.
fn lowered_keys(tags: &Vec<String>) -> (r: Vec<Vec<char>>)
    ensures
        r@.map_values(|k: Vec<char>| k@) == tag_keys_of(tags@),
{
    let mut r: Vec<Vec<char>> = Vec::new();
    let mut i: usize = 0;
    while i < tags.len()
        invariant
            i <= tags@.len(),
            r@.len() == i,
            forall|k: int| 0 <= k < i ==> #[trigger] r@[k]@ == lowercase(tags@[k]@),
        decreases tags.len() - i,
    {
        r.push(chars_of(to_lowercase(tags[i].as_str()).as_str()));
        i = i + 1;
    }
    assert(r@.map_values(|k: Vec<char>| k@) =~= tag_keys_of(tags@));
    r
}

/// The text of an optional string slice.
pub open spec fn opt_str(o: Option<&str>) -> Option<Seq<char>> {
    match o {
        Some(s) => Some(s@),
        None => None,
    }
}

impl BookmarkManager {
    /// Add a bookmark with a given identifier and creation time; one with the
    /// same identifier is replaced
    pub fn add_with_id(
        &mut self,
        id: u128,
        name: &str,
        command: &str,
        working_dir: Option<String>,
        tags: Vec<String>,
        description: Option<&str>,
        now: i64,
    )
        requires
            old(self).wf(),
        ensures
            final(self).wf(),
            final(self).index() == index_push_all(old(self).index(), tag_keys_of(tags@), id),
            final(self).path() == old(self).path(),
            ({
                let k = if has_id(old(self).entries(), id) { id_pos(old(self).entries(), id) } else { old(self).entries().len() as int };
                &&& 0 <= k < final(self).entries().len()
                &&& final(self).entries() == put(old(self).entries(), final(self).entries()[k])
                &&& fresh(final(self).entries()[k], id, name@, command@, working_dir, tags@, opt_str(description), now)
            }),
    {
        let ghost e0 = self.entries();
        self.file_tags(&tags, id);
        let mut b = Bookmark::with_identity(id, name, command, working_dir, tags, now);
        b.description = match description {
            Some(d) => Some(owned(d)),
            None => None,
        };
        proof {
            lemma_put_unique(e0, b);
        }
        match self.find(id) {
            Some(i) => {
                self.bookmarks.set(i, b);
                assert(self.entries() =~= put(e0, b));
            },
            None => {
                self.bookmarks.push(b);
                assert(self.entries() =~= put(e0, b));
            },
        }
    }

    /// Add a new bookmark, with a fresh identifier, created now
    pub fn add_bookmark(
        &mut self,
        name: &str,
        command: &str,
        working_dir: Option<String>,
        tags: Vec<String>,
        description: Option<&str>,
    ) -> (r: Result<u128, BookmarkError>)
        requires
            old(self).wf(),
        ensures
            final(self).wf(),
            final(self).path() == old(self).path(),
            r matches Ok(id) && final(self).index() == index_push_all(old(self).index(), tag_keys_of(tags@), id)
                && ({
                let k = if has_id(old(self).entries(), id) { id_pos(old(self).entries(), id) } else { old(self).entries().len() as int };
                &&& 0 <= k < final(self).entries().len()
                &&& final(self).entries() == put(old(self).entries(), final(self).entries()[k])
                &&& fresh(final(self).entries()[k], id, name@, command@, working_dir, tags@, opt_str(description), final(self).entries()[k].created_at)
            }),
    {
        let id = new_id();
        let now = unix_millis();
        self.add_with_id(id, name, command, working_dir, tags, description, now);
        Ok(id)
    }

    /// Remove a bookmark by ID
    pub fn remove_bookmark(&mut self, id: u128) -> (r: Result<Bookmark, BookmarkError>)
        requires
            old(self).wf(),
        ensures
            final(self).wf(),
            final(self).path() == old(self).path(),
            match r {
                Ok(b) => {
                    let p = id_pos(old(self).entries(), id);
                    &&& has_id(old(self).entries(), id)
                    &&& b == old(self).entries()[p]
                    &&& final(self).entries() == old(self).entries().remove(p)
                    &&& final(self).index() == index_drop(old(self).index(), tag_keys_of(b.tags@), id)
                },
                Err(e) => {
                    &&& !has_id(old(self).entries(), id)
                    &&& e matches BookmarkError::NotFound(x) && x == id
                    &&& final(self).entries() == old(self).entries()
                    &&& final(self).index() == old(self).index()
                },
            },
    {
        match self.find(id) {
            None => Err(BookmarkError::NotFound(id)),
            Some(i) => {
                let ghost e0 = self.entries();
                let b = self.bookmarks.remove(i);
                assert forall|a: int, c: int| 0 <= a < c < self.entries().len() implies
                    (#[trigger] self.entries()[a]).id != (#[trigger] self.entries()[c]).id by {
                    let a0 = if a < i { a } else { a + 1 };
                    let c0 = if c < i { c } else { c + 1 };
                    assert(e0[a0].id != e0[c0].id);
                }
                let keys = lowered_keys(&b.tags);
                self.unfile(&keys, id);
                Ok(b)
            },
        }
    }

    /// Update a bookmark
    pub fn update_bookmark(&mut self, id: u128, update: BookmarkUpdate) -> (r: Result<(), BookmarkError>)
        requires
            old(self).wf(),
        ensures
            final(self).wf(),
            final(self).path() == old(self).path(),
            match r {
                Ok(()) => {
                    let p = id_pos(old(self).entries(), id);
                    let b0 = old(self).entries()[p];
                    &&& has_id(old(self).entries(), id)
                    &&& final(self).entries().len() == old(self).entries().len()
                    &&& forall|j: int| 0 <= j < old(self).entries().len() && j != p ==> #[trigger] final(self).entries()[j] == old(self).entries()[j]
                    &&& updated(b0, update, final(self).entries()[p])
                    &&& final(self).index() == match update.tags {
                        Some(t) => index_push_all(index_drop(old(self).index(), tag_keys_of(b0.tags@), id), tag_keys_of(t@), id),
                        None => old(self).index(),
                    }
                },
                Err(e) => {
                    &&& !has_id(old(self).entries(), id)
                    &&& e matches BookmarkError::NotFound(x) && x == id
                    &&& final(self).entries() == old(self).entries()
                    &&& final(self).index() == old(self).index()
                },
            },
    {
        match self.find(id) {
            None => Err(BookmarkError::NotFound(id)),
            Some(i) => {
                let ghost e0 = self.entries();
                match &update.tags {
                    Some(new_tags) => {
                        let keys = lowered_keys(&self.bookmarks[i].tags);
                        self.unfile(&keys, id);
                        self.file_tags(new_tags, id);
                    },
                    None => {},
                }
                let mut b = self.bookmarks.remove(i);
                update.apply_to(&mut b);
                self.bookmarks.insert(i, b);
                assert(self.entries() =~= e0.update(i as int, b));
                assert forall|a: int, c: int| 0 <= a < c < self.entries().len() implies
                    (#[trigger] self.entries()[a]).id != (#[trigger] self.entries()[c]).id by {
                    assert(e0[a].id != e0[c].id);
                }
                Ok(())
            },
        }
    }

    /// Get a bookmark by ID
    pub fn get_bookmark(&self, id: u128) -> (r: Option<&Bookmark>)
        requires
            self.wf(),
        ensures
            match r {
                Some(b) => has_id(self.entries(), id) && *b == self.entries()[id_pos(self.entries(), id)],
                None => !has_id(self.entries(), id),
            },
    {
        match self.find(id) {
            Some(i) => Some(&self.bookmarks[i]),
            None => None,
        }
    }

    /// Record usage of a bookmark at the given time
    pub fn record_use_at(&mut self, id: u128, now: i64) -> (r: Result<(), BookmarkError>)
        requires
            old(self).wf(),
            has_id(old(self).entries(), id) ==> old(self).entries()[id_pos(old(self).entries(), id)].use_count < u32::MAX,
        ensures
            final(self).wf(),
            final(self).path() == old(self).path(),
            final(self).index() == old(self).index(),
            match r {
                Ok(()) => {
                    let p = id_pos(old(self).entries(), id);
                    let b0 = old(self).entries()[p];
                    &&& has_id(old(self).entries(), id)
                    &&& final(self).entries() == old(self).entries().update(p, Bookmark {
                        use_count: (b0.use_count + 1) as u32,
                        last_used: Some(now),
                        ..b0
                    })
                },
                Err(e) => {
                    &&& !has_id(old(self).entries(), id)
                    &&& e matches BookmarkError::NotFound(x) && x == id
                    &&& final(self).entries() == old(self).entries()
                },
            },
    {
        match self.find(id) {
            None => Err(BookmarkError::NotFound(id)),
            Some(i) => {
                let ghost e0 = self.entries();
                let mut b = self.bookmarks.remove(i);
                b.record_use_at(now);
                self.bookmarks.insert(i, b);
                assert(self.entries() =~= e0.update(i as int, b));
                assert forall|a: int, c: int| 0 <= a < c < self.entries().len() implies
                    (#[trigger] self.entries()[a]).id != (#[trigger] self.entries()[c]).id by {
                    assert(e0[a].id != e0[c].id);
                }
                Ok(())
            },
        }
    }

    /// Record usage of a bookmark, now
    pub fn record_use(&mut self, id: u128) -> (r: Result<(), BookmarkError>)
        requires
            old(self).wf(),
            has_id(old(self).entries(), id) ==> old(self).entries()[id_pos(old(self).entries(), id)].use_count < u32::MAX,
        ensures
            final(self).wf(),
            final(self).path() == old(self).path(),
            final(self).index() == old(self).index(),
            match r {
                Ok(()) => {
                    let p = id_pos(old(self).entries(), id);
                    let b0 = old(self).entries()[p];
                    &&& has_id(old(self).entries(), id)
                    &&& final(self).entries().len() == old(self).entries().len()
                    &&& forall|j: int| 0 <= j < old(self).entries().len() && j != p ==> #[trigger] final(self).entries()[j] == old(self).entries()[j]
                    &&& final(self).entries()[p] == (Bookmark {
                        use_count: (b0.use_count + 1) as u32,
                        last_used: final(self).entries()[p].last_used,
                        ..b0
                    })
                    &&& final(self).entries()[p].last_used is Some
                },
                Err(e) => {
                    &&& !has_id(old(self).entries(), id)
                    &&& e matches BookmarkError::NotFound(x) && x == id
                    &&& final(self).entries() == old(self).entries()
                },
            },
    {
        let now = unix_millis();
        self.record_use_at(id, now)
    }

    /// Get total number of bookmarks
    pub fn len(&self) -> (n: usize)
        ensures
            n == self.entries().len(),
    {
        self.bookmarks.len()
    }

    /// Check if the manager has no bookmarks
    pub fn is_empty(&self) -> (r: bool)
        ensures
            r == (self.entries().len() == 0),
    {
        self.bookmarks.len() == 0
    }

    /// Clear all bookmarks
    pub fn clear(&mut self)
        ensures
            final(self).wf(),
            final(self).entries() == Seq::<Bookmark>::empty(),
            final(self).index() == Seq::<(Seq<char>, Seq<u128>)>::empty(),
            final(self).path() == old(self).path(),
    {
        self.bookmarks = Vec::new();
        self.tag_index = Vec::new();
        assert(self.index() =~= Seq::<(Seq<char>, Seq<u128>)>::empty());
    }

    /// Get the file path if set
    pub fn file_path(&self) -> (r: Option<&String>)
        ensures
            match r {
                Some(p) => self.path() == Some(p@),
                None => self.path() is None,
            },
    {
        match &self.file_path {
            Some(p) => Some(p),
            None => None,
        }
    }

    /// Keep the bookmarks in the given file from now on
    pub fn set_file_path(&mut self, path: String)
        ensures
            final(self).path() == Some(path@),
            final(self).entries() == old(self).entries(),
            final(self).index() == old(self).index(),
    {
        self.file_path = Some(path);
    }
}

impl Default for BookmarkManager {
    fn default() -> (m: Self)
        ensures
            m.wf(),
            m.entries() == Seq::<Bookmark>::empty(),
            m.index() == Seq::<(Seq<char>, Seq<u128>)>::empty(),
            m.path() is None,
    {
        Self::new()
    }
}

} // verus!

verus! {

/// The first `n` of `s`, or all of them when there are fewer.
pub open spec fn first_n(s: Seq<Bookmark>, n: nat) -> Seq<Bookmark> {
    if n < s.len() { s.subrange(0, n as int) } else { s }
}

/// Whether a bookmark has been used.
pub open spec fn was_used(b: Bookmark) -> bool {
    b.last_used is Some
}

/// Whether a bookmark has a use count above zero.
pub open spec fn counted(b: Bookmark) -> bool {
    b.use_count > 0
}

impl BookmarkManager {
    /// References to the bookmarks that satisfy `which`: all of them, those
    /// that match `query`, those used, or those with a use count.
    fn select<'a>(&'a self, which: u8, query: &str) -> (r: Vec<&'a Bookmark>)
        requires
            which < 4,
        ensures
            derefs(r@) == kept(self.entries(), if which == 0 {
                |b: Bookmark| true
            } else if which == 1 {
                |b: Bookmark| query_hit(b, query@)
            } else if which == 2 {
                |b: Bookmark| was_used(b)
            } else {
                |b: Bookmark| counted(b)
            }),
    {
        let ghost f = if which == 0 {
            |b: Bookmark| true
        } else if which == 1 {
            |b: Bookmark| query_hit(b, query@)
        } else if which == 2 {
            |b: Bookmark| was_used(b)
        } else {
            |b: Bookmark| counted(b)
        };
        let mut r: Vec<&'a Bookmark> = Vec::new();
        let mut i: usize = 0;
        while i < self.bookmarks.len()
            invariant
                i <= self.bookmarks@.len(),
                which < 4,
                f == (if which == 0 {
                    |b: Bookmark| true
                } else if which == 1 {
                    |b: Bookmark| query_hit(b, query@)
                } else if which == 2 {
                    |b: Bookmark| was_used(b)
                } else {
                    |b: Bookmark| counted(b)
                }),
                derefs(r@) == kept(self.bookmarks@.subrange(0, i as int), f),
            decreases self.bookmarks.len() - i,
        {
            let b = &self.bookmarks[i];
            let keep = if which == 0 {
                true
            } else if which == 1 {
                b.matches_query(query)
            } else if which == 2 {
                b.last_used.is_some()
            } else {
                b.use_count > 0
            };
            assert(keep == f(*b));
            assert(self.bookmarks@.subrange(0, i + 1).drop_last() =~= self.bookmarks@.subrange(0, i as int));
            if keep {
                r.push(b);
            }
            i = i + 1;
            assert(derefs(r@) =~= kept(self.bookmarks@.subrange(0, i as int), f));
        }
        assert(self.bookmarks@.subrange(0, self.bookmarks@.len() as int) =~= self.bookmarks@);
        r
    }

    /// List all bookmarks, by name
    pub fn list_bookmarks(&self) -> (r: Vec<&Bookmark>)
        ensures
            ranked(BookmarkOrder::ByName, derefs(r@)),
            derefs(r@).to_multiset() == self.entries().to_multiset(),
    {
        let all = self.select(0, "");
        proof {
            lemma_kept_all(self.entries());
        }
        sort_ranked(all, BookmarkOrder::ByName)
    }

    /// Search bookmarks by query, by name
    pub fn search_bookmarks(&self, query: &str) -> (r: Vec<&Bookmark>)
        ensures
            ranked(BookmarkOrder::ByName, derefs(r@)),
            derefs(r@).to_multiset() == kept(self.entries(), |b: Bookmark| query_hit(b, query@)).to_multiset(),
    {
        let found = self.select(1, query);
        sort_ranked(found, BookmarkOrder::ByName)
    }

    /// Get bookmarks by tag, ignoring case, by name
    pub fn get_by_tag(&self, tag: &str) -> (r: Vec<&Bookmark>)
        requires
            self.wf(),
        ensures
            ranked(BookmarkOrder::ByName, derefs(r@)),
            derefs(r@).to_multiset() == named_by(self.entries(), filed(self.index(), lowercase(tag@))).to_multiset(),
    {
        let key = chars_of(to_lowercase(tag).as_str());
        let mut r: Vec<&Bookmark> = Vec::new();
        match self.find_key(&key) {
            None => {
                assert(named_by(self.entries(), filed(self.index(), key@)) =~= Seq::<Bookmark>::empty());
                assert(derefs(r@) =~= Seq::<Bookmark>::empty());
            },
            Some(j) => {
                let ids = &self.tag_index[j].1;
                let ghost is = ids@;
                assert(filed(self.index(), key@) == is);
                let mut t: usize = 0;
                while t < ids.len()
                    invariant
                        t <= is.len(),
                        is == ids@,
                        self.wf(),
                        derefs(r@) == named_by(self.entries(), is.subrange(0, t as int)),
                    decreases ids.len() - t,
                {
                    assert(is.subrange(0, t + 1).drop_last() =~= is.subrange(0, t as int));
                    match self.find(ids[t]) {
                        Some(p) => {
                            r.push(&self.bookmarks[p]);
                        },
                        None => {},
                    }
                    t = t + 1;
                    assert(derefs(r@) =~= named_by(self.entries(), is.subrange(0, t as int)));
                }
                assert(is.subrange(0, is.len() as int) =~= is);
                assert(derefs(r@) == named_by(self.entries(), filed(self.index(), key@)));
            },
        }
        sort_ranked(r, BookmarkOrder::ByName)
    }

    /// Get all unique tags, in order: those under which some bookmark is
    /// still filed
    pub fn get_all_tags(&self) -> (r: Vec<String>)
        requires
            self.wf(),
        ensures
            texts(r@) == live_tag_keys(self.index()),
            strictly_sorted(texts(r@)),
    {
        let ghost x = self.index();
        let mut r: Vec<String> = Vec::new();
        let ghost mut pos: Seq<int> = seq![];
        let mut i: usize = 0;
        while i < self.tag_index.len()
            invariant
                i <= self.tag_index@.len(),
                x == self.index(),
                x.len() == self.tag_index@.len(),
                strictly_sorted(tag_keys(x)),
                texts(r@) == live_tag_keys(x.subrange(0, i as int)),
                strictly_sorted(texts(r@)),
                pos.len() == r@.len(),
                forall|k: int| 0 <= k < r@.len() ==> 0 <= #[trigger] pos[k] < i && r@[k]@ == x[pos[k]].0,
            decreases self.tag_index.len() - i,
        {
            assert(x.subrange(0, i + 1).drop_last() =~= x.subrange(0, i as int));
            assert(x[i as int] == (self.tag_index@[i as int].0@, self.tag_index@[i as int].1@));
            if self.tag_index[i].1.len() > 0 {
                let ghost r0 = texts(r@);
                r.push(owned(self.tag_index[i].0.as_str()));
                proof {
                    pos = pos.push(i as int);
                    assert(texts(r@) =~= r0.push(x[i as int].0));
                    assert forall|a: int, c: int| 0 <= a < c < texts(r@).len() implies lex_lt(#[trigger] texts(r@)[a], #[trigger] texts(r@)[c]) by {
                        if c == texts(r@).len() - 1 {
                            assert(tag_keys(x)[pos[a]] == x[pos[a]].0);
                            assert(tag_keys(x)[i as int] == x[i as int].0);
                        } else {
                            assert(r0[a] == texts(r@)[a] && r0[c] == texts(r@)[c]);
                        }
                    }
                }
            }
            i = i + 1;
        }
        assert(x.subrange(0, x.len() as int) =~= x);
        r
    }

    /// Get most recently used bookmarks, at most `limit` of them
    pub fn get_recent(&self, limit: usize) -> (r: Vec<&Bookmark>)
        ensures
            exists|s: Seq<Bookmark>|
                #![trigger ranked(BookmarkOrder::RecentFirst, s)]
                ranked(BookmarkOrder::RecentFirst, s) && s.to_multiset() == kept(self.entries(), |b: Bookmark| was_used(b)).to_multiset()
                    && derefs(r@) == first_n(s, limit as nat),
    {
        let used = self.select(2, "");
        let sorted = sort_ranked(used, BookmarkOrder::RecentFirst);
        let r = take_refs(sorted, limit);
        assert(ranked(BookmarkOrder::RecentFirst, derefs(sorted@)));
        r
    }

    /// Get most frequently used bookmarks, at most `limit` of them
    pub fn get_most_used(&self, limit: usize) -> (r: Vec<&Bookmark>)
        ensures
            exists|s: Seq<Bookmark>|
                #![trigger ranked(BookmarkOrder::MostUsedFirst, s)]
                ranked(BookmarkOrder::MostUsedFirst, s) && s.to_multiset() == kept(self.entries(), |b: Bookmark| counted(b)).to_multiset()
                    && derefs(r@) == first_n(s, limit as nat),
    {
        let used = self.select(3, "");
        let sorted = sort_ranked(used, BookmarkOrder::MostUsedFirst);
        let r = take_refs(sorted, limit);
        assert(ranked(BookmarkOrder::MostUsedFirst, derefs(sorted@)));
        r
    }
}

/// The first `n` references, or all of them when there are fewer.
fn take_refs<'a>(v: Vec<&'a Bookmark>, n: usize) -> (r: Vec<&'a Bookmark>)
    ensures
        derefs(r@) == first_n(derefs(v@), n as nat),
{
    let mut r: Vec<&'a Bookmark> = Vec::new();
    let mut i: usize = 0;
    while i < v.len() && i < n
        invariant
            i <= v@.len(),
            i <= n,
            r@ == v@.subrange(0, i as int),
        decreases v.len() - i,
    {
        r.push(v[i]);
        i = i + 1;
        assert(r@ =~= v@.subrange(0, i as int));
    }
    assert(derefs(r@) =~= first_n(derefs(v@), n as nat));
    r
}

/// Keeping every bookmark keeps them all.
proof fn lemma_kept_all(e: Seq<Bookmark>)
    ensures
        kept(e, |b: Bookmark| true) == e,
    decreases e.len(),
{
    if e.len() > 0 {
        lemma_kept_all(e.drop_last());
        assert(e.drop_last().push(e.last()) =~= e);
    }
}

} // verus!

verus! {

/// The bookmarks a new manager starts with: name, command, two tags and a
/// description.
pub open spec fn default_rows() -> Seq<(Seq<char>, Seq<char>, Seq<char>, Seq<char>, Seq<char>)> {
    seq![
        ("Git Status"@, "git status"@, "git"@, "status"@, "Check the status of the git repository"@),
        ("Git Log"@, "git log --oneline --graph --decorate --all"@, "git"@, "log"@, "View git commit history with graph"@),
        ("Git Diff"@, "git diff"@, "git"@, "diff"@, "Show changes in working directory"@),
        ("Git Pull"@, "git pull --rebase"@, "git"@, "sync"@, "Pull latest changes with rebase"@),
        ("Docker PS"@, "docker ps -a"@, "docker"@, "containers"@, "List all containers"@),
        ("Docker Images"@, "docker images"@, "docker"@, "images"@, "List all Docker images"@),
        ("Docker Clean"@, "docker system prune -a --volumes"@, "docker"@, "cleanup"@, "Clean up Docker system (removes all unused data)"@),
        ("Disk Usage"@, "du -h -d 1 | sort -h"@, "system"@, "disk"@, "Show disk usage sorted by size"@),
        ("Process Tree"@, "ps aux --forest"@, "system"@, "processes"@, "Display process tree"@),
        ("Network Connections"@, "netstat -tuln"@, "system"@, "network"@, "Show active network connections"@),
        ("Cargo Build Release"@, "cargo build --release"@, "rust"@, "build"@, "Build project in release mode"@),
        ("Cargo Test"@, "cargo test"@, "rust"@, "test"@, "Run all tests"@),
        ("Cargo Check"@, "cargo check --all-features"@, "rust"@, "check"@, "Check code with all features enabled"@),
        ("Cargo Clippy"@, "cargo clippy --all-targets -- -D warnings"@, "rust"@, "lint"@, "Run Clippy linter with warnings as errors"@),
        ("Find Large Files"@, "find . -type f -size +100M -exec ls -lh {} \\;"@, "files"@, "search"@, "Find files larger than 100MB"@),
        ("Count Lines of Code"@, "find . -name '*.rs' | xargs wc -l | tail -1"@, "files"@, "stats"@, "Count total lines of Rust code"@),    ]
}

/// Bookmark `b` is row `k` of the defaults, added with identifier `ids[k]` at
/// time `times[k]` and not touched since.
pub open spec fn from_row(b: Bookmark, ids: Seq<u128>, times: Seq<i64>, k: int) -> bool {
    let d = default_rows()[k];
    &&& b.id == ids[k]
    &&& b.created_at == times[k]
    &&& b.name@ == d.0
    &&& b.command@ == d.1
    &&& texts(b.tags@) == seq![d.2, d.3]
    &&& opt_text(b.description) == Some(d.4)
    &&& b.working_dir is None
    &&& b.last_used is None
    &&& b.use_count == 0
}

/// Bookmark `b` is one of the first `n` rows of the defaults.
pub open spec fn from_some_row(b: Bookmark, ids: Seq<u128>, times: Seq<i64>, n: int) -> bool {
    exists|k: int| 0 <= k < n && #[trigger] from_row(b, ids, times, k)
}

/// The tag index after the first `n` rows of the defaults were filed.
pub open spec fn default_index(ids: Seq<u128>, n: nat) -> Seq<(Seq<char>, Seq<u128>)>
    decreases n,
{
    if n == 0 {
        seq![]
    } else {
        let d = default_rows()[n - 1];
        index_push_all(default_index(ids, (n - 1) as nat), seq![lowercase(d.2), lowercase(d.3)], ids[n - 1])
    }
}

/// No identifier occurs twice among the first `n`.
pub open spec fn distinct_ids(ids: Seq<u128>, n: int) -> bool {
    forall|a: int, b: int| 0 <= a < b < n ==> ids[a] != ids[b]
}

/// The rows of the defaults.
fn default_table() -> (t: Vec<(&'static str, &'static str, &'static str, &'static str, &'static str)>)
    ensures
        t@.len() == default_rows().len(),
        forall|k: int| 0 <= k < t@.len() ==> (#[trigger] t@[k].0@, t@[k].1@, t@[k].2@, t@[k].3@, t@[k].4@) == default_rows()[k],
{
    let mut t: Vec<(&'static str, &'static str, &'static str, &'static str, &'static str)> = Vec::new();
    t.push(("Git Status", "git status", "git", "status", "Check the status of the git repository"));
    t.push(("Git Log", "git log --oneline --graph --decorate --all", "git", "log", "View git commit history with graph"));
    t.push(("Git Diff", "git diff", "git", "diff", "Show changes in working directory"));
    t.push(("Git Pull", "git pull --rebase", "git", "sync", "Pull latest changes with rebase"));
    t.push(("Docker PS", "docker ps -a", "docker", "containers", "List all containers"));
    t.push(("Docker Images", "docker images", "docker", "images", "List all Docker images"));
    t.push(("Docker Clean", "docker system prune -a --volumes", "docker", "cleanup", "Clean up Docker system (removes all unused data)"));
    t.push(("Disk Usage", "du -h -d 1 | sort -h", "system", "disk", "Show disk usage sorted by size"));
    t.push(("Process Tree", "ps aux --forest", "system", "processes", "Display process tree"));
    t.push(("Network Connections", "netstat -tuln", "system", "network", "Show active network connections"));
    t.push(("Cargo Build Release", "cargo build --release", "rust", "build", "Build project in release mode"));
    t.push(("Cargo Test", "cargo test", "rust", "test", "Run all tests"));
    t.push(("Cargo Check", "cargo check --all-features", "rust", "check", "Check code with all features enabled"));
    t.push(("Cargo Clippy", "cargo clippy --all-targets -- -D warnings", "rust", "lint", "Run Clippy linter with warnings as errors"));
    t.push(("Find Large Files", "find . -type f -size +100M -exec ls -lh {} \\;", "files", "search", "Find files larger than 100MB"));
    t.push(("Count Lines of Code", "find . -name '*.rs' | xargs wc -l | tail -1", "files", "stats", "Count total lines of Rust code"));    t
}

/// Whether a manager is the one that adding the default bookmarks in order,
/// row `k` with identifier `ids[k]` at time `times[k]`, builds: its tag index
/// files every row's identifier under the row's tags; each bookmark is one
/// of the rows; and when the identifiers are distinct, it holds every row,
/// in order.
pub open spec fn built_from_defaults(m: BookmarkManager, ids: Seq<u128>, times: Seq<i64>) -> bool {
    let n = default_rows().len();
    &&& ids.len() == n
    &&& times.len() == n
    &&& m.index() == default_index(ids, n)
    &&& m.entries().len() <= n
    &&& forall|j: int| 0 <= j < m.entries().len() ==> from_some_row(#[trigger] m.entries()[j], ids, times, n as int)
    &&& m.entries().len() == n ==> forall|k: int| 0 <= k < m.entries().len() ==> #[trigger] from_row(m.entries()[k], ids, times, k)
    &&& distinct_ids(ids, n as int) ==> m.entries().len() == n
}

impl BookmarkManager {
    /// A manager holding the default bookmarks, row `k` added with identifier
    /// `ids[k]` at time `times[k]`
    pub fn with_default_ids(ids: &Vec<u128>, times: &Vec<i64>) -> (m: Self)
        requires
            ids@.len() == default_rows().len(),
            times@.len() == default_rows().len(),
        ensures
            m.wf(),
            m.path() is None,
            m.index() == default_index(ids@, default_rows().len()),
            m.entries().len() <= default_rows().len(),
            forall|j: int| 0 <= j < m.entries().len() ==> from_some_row(#[trigger] m.entries()[j], ids@, times@, default_rows().len() as int),
            m.entries().len() == default_rows().len() ==> forall|k: int| 0 <= k < m.entries().len() ==> #[trigger] from_row(m.entries()[k], ids@, times@, k),
            distinct_ids(ids@, default_rows().len() as int) ==> m.entries().len() == default_rows().len(),
    {
        let table = default_table();
        let mut m = BookmarkManager::new();
        let ghost n = default_rows().len();
        let mut i: usize = 0;
        while i < table.len()
            invariant
                i <= table@.len(),
                table@.len() == n,
                n == default_rows().len(),
                ids@.len() == n,
                times@.len() == n,
                forall|k: int| 0 <= k < table@.len() ==> (#[trigger] table@[k].0@, table@[k].1@, table@[k].2@, table@[k].3@, table@[k].4@) == default_rows()[k],
                m.wf(),
                m.path() is None,
                m.index() == default_index(ids@, i as nat),
                m.entries().len() <= i,
                forall|j: int| 0 <= j < m.entries().len() ==> from_some_row(#[trigger] m.entries()[j], ids@, times@, i as int),
                m.entries().len() == i ==> forall|k: int| 0 <= k < m.entries().len() ==> #[trigger] from_row(m.entries()[k], ids@, times@, k),
                distinct_ids(ids@, i as int) ==> m.entries().len() == i,
            decreases table.len() - i,
        {
            let (name, command, t1, t2, desc) = table[i];
            let mut tags: Vec<String> = Vec::new();
            tags.push(owned(t1));
            tags.push(owned(t2));
            let ghost e0 = m.entries();
            let ghost row = default_rows()[i as int];
            assert((table@[i as int].0@, table@[i as int].1@, table@[i as int].2@, table@[i as int].3@, table@[i as int].4@) == row);
            assert(tag_keys_of(tags@) =~= seq![lowercase(row.2), lowercase(row.3)]);
            m.add_with_id(ids[i], name, command, None, tags, Some(desc), times[i]);
            proof {
                let e1 = m.entries();
                let id = ids@[i as int];
                let k = if has_id(e0, id) { id_pos(e0, id) } else { e0.len() as int };
                let b = e1[k];
                assert(texts(b.tags@) =~= seq![row.2, row.3]);
                assert(from_row(b, ids@, times@, i as int));
                lemma_put_unique(e0, b);
                assert forall|j: int| 0 <= j < e1.len() implies from_some_row(#[trigger] e1[j], ids@, times@, i + 1) by {
                    if j == k {
                        assert(from_row(e1[j], ids@, times@, i as int));
                    } else {
                        assert(e1[j] == e0[j]);
                        assert(from_some_row(e0[j], ids@, times@, i as int));
                        let w = choose|w: int| 0 <= w < i && #[trigger] from_row(e0[j], ids@, times@, w);
                        assert(from_row(e1[j], ids@, times@, w));
                    }
                }
                if e1.len() == i + 1 {
                    assert(!has_id(e0, id));
                    assert(e0.len() == i);
                    assert forall|q: int| 0 <= q < e1.len() implies #[trigger] from_row(e1[q], ids@, times@, q) by {
                        if q < i {
                            assert(e1[q] == e0[q]);
                        }
                    }
                }
                if distinct_ids(ids@, i + 1) {
                    assert(distinct_ids(ids@, i as int));
                    assert(e0.len() == i);
                    if has_id(e0, id) {
                        let p = id_pos(e0, id);
                        assert(from_row(e0[p], ids@, times@, p));
                        assert(ids@[p] != ids@[i as int]);
                    }
                }
            }
            i = i + 1;
        }
        m
    }

    /// Create a bookmark manager with default bookmarks
    pub fn with_defaults() -> (m: Self)
        ensures
            m.wf(),
            m.path() is None,
            exists|ids: Seq<u128>, times: Seq<i64>| built_from_defaults(m, ids, times),
            m.entries().len() <= default_rows().len(),
            forall|j: int| 0 <= j < m.entries().len() ==> exists|k: int| 0 <= k < default_rows().len()
                && #[trigger] m.entries()[j].name@ == default_rows()[k].0
                && m.entries()[j].command@ == default_rows()[k].1
                && texts(m.entries()[j].tags@) == seq![default_rows()[k].2, default_rows()[k].3]
                && opt_text(m.entries()[j].description) == Some(default_rows()[k].4),
            m.entries().len() == default_rows().len() ==> forall|k: int| 0 <= k < m.entries().len() ==> {
                let d = default_rows()[k];
                &&& #[trigger] m.entries()[k].name@ == d.0
                &&& m.entries()[k].command@ == d.1
                &&& texts(m.entries()[k].tags@) == seq![d.2, d.3]
                &&& opt_text(m.entries()[k].description) == Some(d.4)
                &&& m.entries()[k].use_count == 0
            },
    {
        let mut ids: Vec<u128> = Vec::new();
        let mut times: Vec<i64> = Vec::new();
        let mut i: usize = 0;
        while i < 16
            invariant
                i <= 16,
                ids@.len() == i,
                times@.len() == i,
            decreases 16 - i,
        {
            ids.push(new_id());
            times.push(unix_millis());
            i = i + 1;
        }
        let m = Self::with_default_ids(&ids, &times);
        proof {
            assert(built_from_defaults(m, ids@, times@));
            assert forall|j: int| 0 <= j < m.entries().len() implies exists|k: int| 0 <= k < default_rows().len()
                && #[trigger] m.entries()[j].name@ == default_rows()[k].0
                && m.entries()[j].command@ == default_rows()[k].1
                && texts(m.entries()[j].tags@) == seq![default_rows()[k].2, default_rows()[k].3]
                && opt_text(m.entries()[j].description) == Some(default_rows()[k].4) by {
                assert(from_some_row(m.entries()[j], ids@, times@, default_rows().len() as int));
                let w = choose|w: int| 0 <= w < default_rows().len() && #[trigger] from_row(m.entries()[j], ids@, times@, w);
                assert(from_row(m.entries()[j], ids@, times@, w));
            }
            if m.entries().len() == default_rows().len() {
                assert forall|k: int| 0 <= k < m.entries().len() implies #[trigger] m.entries()[k].name@ == default_rows()[k].0
                    && m.entries()[k].command@ == default_rows()[k].1
                    && texts(m.entries()[k].tags@) == seq![default_rows()[k].2, default_rows()[k].3]
                    && opt_text(m.entries()[k].description) == Some(default_rows()[k].4)
                    && m.entries()[k].use_count == 0 by {
                    assert(from_row(m.entries()[k], ids@, times@, k));
                }
            }
        }
        m
    }

    /// Stores one loaded bookmark, in place of one with the same identifier.
    fn put_bookmark(&mut self, b: Bookmark)
        requires
            old(self).wf(),
        ensures
            final(self).wf(),
            final(self).entries() == put(old(self).entries(), b),
            final(self).index() == old(self).index(),
            final(self).path() == old(self).path(),
    {
        let ghost e0 = self.entries();
        proof {
            lemma_put_unique(e0, b);
        }
        match self.find(b.id) {
            Some(i) => {
                self.bookmarks.set(i, b);
                assert(self.entries() =~= put(e0, b));
            },
            None => {
                self.bookmarks.push(b);
                assert(self.entries() =~= put(e0, b));
            },
        }
    }

    /// Replace the bookmarks by those read from the file at `path`, which the
    /// manager keeps from now on
    pub fn load_entries(&mut self, loaded: Vec<Bookmark>, path: String)
        ensures
            final(self).wf(),
            final(self).entries() == loaded_entries(loaded@),
            final(self).index() == loaded_index(loaded@),
            final(self).path() == Some(path@),
    {
        self.clear();
        let count = loaded.len();
        let ghost all = loaded@;
        assert(all.len() == count);
        let mut rest = loaded;
        let mut i: usize = 0;
        assert(all.subrange(0, 0) =~= Seq::<Bookmark>::empty());
        while rest.len() > 0
            invariant
                i <= all.len(),
                all.len() <= usize::MAX,
                rest@ == all.subrange(i as int, all.len() as int),
                self.wf(),
                self.entries() == loaded_entries(all.subrange(0, i as int)),
                self.index() == loaded_index(all.subrange(0, i as int)),
            decreases rest.len(),
        {
            let b = rest.remove(0);
            assert(b == all[i as int]);
            assert(all.subrange(0, i + 1).drop_last() =~= all.subrange(0, i as int));
            self.file_tags(&b.tags, b.id);
            self.put_bookmark(b);
            i = i + 1;
            assert(rest@ =~= all.subrange(i as int, all.len() as int));
        }
        assert(all.subrange(0, all.len() as int) =~= all);
        self.file_path = Some(path);
    }
}

/// The bookmarks after storing each of `s` in turn into an empty manager.
pub open spec fn loaded_entries(s: Seq<Bookmark>) -> Seq<Bookmark>
    decreases s.len(),
{
    if s.len() == 0 {
        seq![]
    } else {
        put(loaded_entries(s.drop_last()), s.last())
    }
}

/// The tag index after filing each of `s` in turn into an empty index.
pub open spec fn loaded_index(s: Seq<Bookmark>) -> Seq<(Seq<char>, Seq<u128>)>
    decreases s.len(),
{
    if s.len() == 0 {
        seq![]
    } else {
        index_push_all(loaded_index(s.drop_last()), tag_keys_of(s.last().tags@), s.last().id)
    }
}

} // verus!
