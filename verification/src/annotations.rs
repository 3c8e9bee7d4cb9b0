//! Annotations on terminal lines: notes, warnings and bookmarks over a range
//! of lines, kept by a manager that finds them by line, type, text and tag,
//! navigates between bookmarks and drops the oldest beyond a maximum.

use vstd::prelude::*;
use crate::clock::unix_millis;
use crate::ident::new_id;
use crate::text::{chars_of, contains, contains_sub, lowercase, str_eq, to_lowercase};

verus! {

/// Type of annotation
#[derive(Debug, Clone, Copy, PartialEq, Eq, Hash, Structural)]
pub enum AnnotationType {
    /// Regular note
    Note,
    /// Warning or alert
    Warning,
    /// Bookmark for quick navigation
    Bookmark,
}

impl AnnotationType {
    /// Get default color for this annotation type
    pub fn default_color(&self) -> (r: [u8; 3])
        ensures
            r@ == match *self {
                AnnotationType::Note => seq![100u8, 149u8, 237u8],
                AnnotationType::Warning => seq![255u8, 165u8, 0u8],
                AnnotationType::Bookmark => seq![50u8, 205u8, 50u8],
            },
    {
        let r = match self {
            AnnotationType::Note => [100, 149, 237],
            AnnotationType::Warning => [255, 165, 0],
            AnnotationType::Bookmark => [50, 205, 50],
        };
        assert(r@ =~= match *self {
            AnnotationType::Note => seq![100u8, 149u8, 237u8],
            AnnotationType::Warning => seq![255u8, 165u8, 0u8],
            AnnotationType::Bookmark => seq![50u8, 205u8, 50u8],
        });
        r
    }

    /// Get display symbol for this annotation type
    pub fn symbol(&self) -> (r: &'static str)
        ensures
            r@ == match *self {
                AnnotationType::Note => "\u{1f4dd}"@,
                AnnotationType::Warning => "\u{26a0}\u{fe0f}"@,
                AnnotationType::Bookmark => "\u{1f516}"@,
            },
    {
        match self {
            AnnotationType::Note => "\u{1f4dd}",
            AnnotationType::Warning => "\u{26a0}\u{fe0f}",
            AnnotationType::Bookmark => "\u{1f516}",
        }
    }

    /// Get display name
    pub fn name(&self) -> (r: &'static str)
        ensures
            r@ == match *self {
                AnnotationType::Note => "Note"@,
                AnnotationType::Warning => "Warning"@,
                AnnotationType::Bookmark => "Bookmark"@,
            },
    {
        match self {
            AnnotationType::Note => "Note",
            AnnotationType::Warning => "Warning",
            AnnotationType::Bookmark => "Bookmark",
        }
    }
}

/// Range of lines (inclusive)
#[derive(Debug, Clone, Copy, PartialEq, Eq, Hash, Structural)]
pub struct LineRange {
    pub start: usize,
    pub end: usize,
}

impl LineRange {
    /// Create a single-line range
    pub fn single(line: usize) -> (r: Self)
        ensures
            r == (LineRange { start: line, end: line }),
    {
        LineRange { start: line, end: line }
    }

    /// Create a multi-line range; the bounds are put in order
    pub fn new(start: usize, end: usize) -> (r: Self)
        ensures
            r.start == if start <= end { start } else { end },
            r.end == if start <= end { end } else { start },
    {
        if start <= end {
            LineRange { start, end }
        } else {
            LineRange { start: end, end: start }
        }
    }

    /// Check if this range contains a line
    pub fn contains(&self, line: usize) -> (r: bool)
        ensures
            r == (self.start <= line && line <= self.end),
    {
        line >= self.start && line <= self.end
    }

    /// Check if this range overlaps with another
    pub fn overlaps(&self, other: &LineRange) -> (r: bool)
        ensures
            r == (self.start <= other.end && self.end >= other.start),
    {
        self.start <= other.end && self.end >= other.start
    }

    /// Get the number of lines in this range
    pub fn len(&self) -> (r: usize)
        requires
            self.start <= self.end,
            self.end - self.start < usize::MAX,
        ensures
            r == self.end - self.start + 1,
    {
        self.end - self.start + 1
    }

    /// Check if this is a single-line range
    pub fn is_single_line(&self) -> (r: bool)
        ensures
            r == (self.start == self.end),
    {
        self.start == self.end
    }
}

/// Whether line `l` lies in range `r`.
pub open spec fn covers(r: LineRange, l: int) -> bool {
    r.start <= l <= r.end
}

/// Two ordered ranges overlap exactly when some line lies in both.
pub proof fn lemma_overlap_iff_common_line(a: LineRange, b: LineRange)
    requires
        a.start <= a.end,
        b.start <= b.end,
    ensures
        (a.start <= b.end && a.end >= b.start) <==> exists|l: int| #[trigger] covers(a, l) && covers(b, l),
{
    if a.start <= b.end && a.end >= b.start {
        let l: int = if a.start >= b.start { a.start as int } else { b.start as int };
        assert(covers(a, l) && covers(b, l));
    }
}

/// Overlapping is symmetric.
pub proof fn lemma_overlap_symmetric(a: LineRange, b: LineRange)
    ensures
        (a.start <= b.end && a.end >= b.start) == (b.start <= a.end && b.end >= a.start),
{
}

/// Statistics about annotations
#[derive(Debug, Clone, Copy, PartialEq, Eq, Structural)]
pub struct AnnotationStats {
    pub total: usize,
    pub notes: usize,
    pub warnings: usize,
    pub bookmarks: usize,
}

/// A single annotation on terminal lines
#[derive(Debug, Clone)]
pub struct Annotation {
    /// Unique identifier
    pub id: u128,
    /// Lines this annotation applies to
    pub range: LineRange,
    /// Annotation content
    pub content: String,
    /// Type of annotation
    pub annotation_type: AnnotationType,
    /// Custom color (RGB), or None to use default
    pub color: Option<[u8; 3]>,
    /// When this annotation was created, in milliseconds since the Unix epoch
    pub created_at: i64,
    /// When this annotation was last modified, in milliseconds since the Unix epoch
    pub modified_at: i64,
    /// Optional tags for categorization
    pub tags: Vec<String>,
}

/// The texts of a list of strings.
pub open spec fn tag_texts(v: Seq<String>) -> Seq<Seq<char>> {
    v.map_values(|s: String| s@)
}

/// Whether `id` names one of the annotations.
pub open spec fn has_note(e: Seq<Annotation>, id: u128) -> bool {
    exists|i: int| 0 <= i < e.len() && e[i].id == id
}

/// Position of the annotation named `id`.
pub open spec fn note_pos(e: Seq<Annotation>, id: u128) -> int {
    choose|i: int| 0 <= i < e.len() && e[i].id == id
}

impl Annotation {
    /// A new annotation with the given identity, created at `now`
    pub fn with_identity(id: u128, range: LineRange, content: String, annotation_type: AnnotationType, now: i64) -> (a: Self)
        ensures
            a.id == id,
            a.range == range,
            a.content == content,
            a.annotation_type == annotation_type,
            a.color is None,
            a.created_at == now,
            a.modified_at == now,
            a.tags@ == Seq::<String>::empty(),
    {
        Annotation { id, range, content, annotation_type, color: None, created_at: now, modified_at: now, tags: Vec::new() }
    }

    /// Create a new annotation
    pub fn new(range: LineRange, content: String, annotation_type: AnnotationType) -> (a: Self)
        ensures
            a.range == range,
            a.content == content,
            a.annotation_type == annotation_type,
            a.color is None,
            a.created_at == a.modified_at,
            a.tags@ == Seq::<String>::empty(),
    {
        let id = new_id();
        let now = unix_millis();
        Self::with_identity(id, range, content, annotation_type, now)
    }

    /// Create a note annotation
    pub fn note(line: usize, content: String) -> (a: Self)
        ensures
            a.range == (LineRange { start: line, end: line }),
            a.content == content,
            a.annotation_type == AnnotationType::Note,
            a.color is None,
            a.tags@ == Seq::<String>::empty(),
    {
        Self::new(LineRange::single(line), content, AnnotationType::Note)
    }

    /// Create a warning annotation
    pub fn warning(line: usize, content: String) -> (a: Self)
        ensures
            a.range == (LineRange { start: line, end: line }),
            a.content == content,
            a.annotation_type == AnnotationType::Warning,
            a.color is None,
            a.tags@ == Seq::<String>::empty(),
    {
        Self::new(LineRange::single(line), content, AnnotationType::Warning)
    }

    /// Create a bookmark annotation
    pub fn bookmark(line: usize, content: String) -> (a: Self)
        ensures
            a.range == (LineRange { start: line, end: line }),
            a.content == content,
            a.annotation_type == AnnotationType::Bookmark,
            a.color is None,
            a.tags@ == Seq::<String>::empty(),
    {
        Self::new(LineRange::single(line), content, AnnotationType::Bookmark)
    }

    /// Update the content, at time `now`
    pub fn set_content_at(&mut self, content: String, now: i64)
        ensures
            *final(self) == (Annotation { content, modified_at: now, ..*old(self) }),
    {
        self.content = content;
        self.modified_at = now;
    }

    /// Update the content
    pub fn set_content(&mut self, content: String)
        ensures
            *final(self) == (Annotation { content, modified_at: final(self).modified_at, ..*old(self) }),
    {
        let now = unix_millis();
        self.set_content_at(content, now);
    }

    /// Set custom color, at time `now`
    pub fn set_color_at(&mut self, color: [u8; 3], now: i64)
        ensures
            *final(self) == (Annotation { color: Some(color), modified_at: now, ..*old(self) }),
    {
        self.color = Some(color);
        self.modified_at = now;
    }

    /// Set custom color
    pub fn set_color(&mut self, color: [u8; 3])
        ensures
            *final(self) == (Annotation { color: Some(color), modified_at: final(self).modified_at, ..*old(self) }),
    {
        let now = unix_millis();
        self.set_color_at(color, now);
    }

    /// Get effective color (custom or default)
    pub fn effective_color(&self) -> (r: [u8; 3])
        ensures
            r@ == match self.color {
                Some(c) => c@,
                None => match self.annotation_type {
                    AnnotationType::Note => seq![100u8, 149u8, 237u8],
                    AnnotationType::Warning => seq![255u8, 165u8, 0u8],
                    AnnotationType::Bookmark => seq![50u8, 205u8, 50u8],
                },
            },
    {
        match self.color {
            Some(c) => c,
            None => self.annotation_type.default_color(),
        }
    }

    /// Position of `tag` among the tags.
    fn tag_pos(&self, tag: &str) -> (r: Option<usize>)
        ensures
            match r {
                Some(i) => i < self.tags@.len() && self.tags@[i as int]@ == tag@
                    && (forall|j: int| 0 <= j < i ==> self.tags@[j]@ != tag@)
                    && tag_texts(self.tags@).contains(tag@),
                None => !tag_texts(self.tags@).contains(tag@),
            },
    {
        let mut i: usize = 0;
        while i < self.tags.len()
            invariant
                i <= self.tags@.len(),
                forall|j: int| 0 <= j < i ==> self.tags@[j]@ != tag@,
            decreases self.tags.len() - i,
        {
            if str_eq(self.tags[i].as_str(), tag) {
                assert(tag_texts(self.tags@)[i as int] == tag@);
                return Some(i);
            }
            i = i + 1;
        }
        proof {
            if tag_texts(self.tags@).contains(tag@) {
                let j = choose|j: int| 0 <= j < tag_texts(self.tags@).len() && tag_texts(self.tags@)[j] == tag@;
                assert(self.tags@[j]@ == tag@);
            }
        }
        None
    }

    /// Add a tag, at time `now`; a tag already there is not added again
    pub fn add_tag_at(&mut self, tag: String, now: i64)
        ensures
            tag_texts(old(self).tags@).contains(tag@) ==> *final(self) == *old(self),
            !tag_texts(old(self).tags@).contains(tag@) ==> *final(self) == (Annotation {
                tags: final(self).tags,
                modified_at: now,
                ..*old(self)
            }) && final(self).tags@ == old(self).tags@.push(tag),
    {
        if self.tag_pos(tag.as_str()).is_none() {
            self.tags.push(tag);
            self.modified_at = now;
        }
    }

    /// Add a tag
    pub fn add_tag(&mut self, tag: String)
        ensures
            tag_texts(old(self).tags@).contains(tag@) ==> *final(self) == *old(self),
            !tag_texts(old(self).tags@).contains(tag@) ==> final(self).tags@ == old(self).tags@.push(tag),
            final(self).id == old(self).id,
            final(self).range == old(self).range,
            final(self).content == old(self).content,
            final(self).annotation_type == old(self).annotation_type,
            final(self).color == old(self).color,
            final(self).created_at == old(self).created_at,
    {
        let now = unix_millis();
        self.add_tag_at(tag, now);
    }

    /// Remove a tag, at time `now`; `false` when it was not there
    pub fn remove_tag_at(&mut self, tag: &str, now: i64) -> (r: bool)
        ensures
            r == tag_texts(old(self).tags@).contains(tag@),
            !r ==> *final(self) == *old(self),
            r ==> exists|k: int| 0 <= k < old(self).tags@.len() && #[trigger] old(self).tags@[k]@ == tag@
                && (forall|j: int| 0 <= j < k ==> old(self).tags@[j]@ != tag@)
                && *final(self) == (Annotation { tags: final(self).tags, modified_at: now, ..*old(self) })
                && final(self).tags@ == old(self).tags@.remove(k),
    {
        match self.tag_pos(tag) {
            Some(i) => {
                self.tags.remove(i);
                self.modified_at = now;
                true
            },
            None => false,
        }
    }

    /// Remove a tag
    pub fn remove_tag(&mut self, tag: &str) -> (r: bool)
        ensures
            r == tag_texts(old(self).tags@).contains(tag@),
            !r ==> *final(self) == *old(self),
            r ==> final(self).tags@.len() + 1 == old(self).tags@.len(),
            final(self).id == old(self).id,
            final(self).range == old(self).range,
            final(self).content == old(self).content,
            final(self).annotation_type == old(self).annotation_type,
    {
        let now = unix_millis();
        self.remove_tag_at(tag, now)
    }

    /// Check if annotation has a tag
    pub fn has_tag(&self, tag: &str) -> (r: bool)
        ensures
            r == tag_texts(self.tags@).contains(tag@),
    {
        self.tag_pos(tag).is_some()
    }

    /// Check if this annotation applies to a line
    pub fn applies_to_line(&self, line: usize) -> (r: bool)
        ensures
            r == (self.range.start <= line && line <= self.range.end),
    {
        self.range.contains(line)
    }
}

} // verus!

verus! {

/// No two annotations share an identifier.
pub open spec fn notes_unique(e: Seq<Annotation>) -> bool {
    forall|i: int, j: int| 0 <= i < j < e.len() ==> (#[trigger] e[i]).id != (#[trigger] e[j]).id
}

/// The annotations with `a` stored: in place of the one with its identifier,
/// or appended.
pub open spec fn put_note(e: Seq<Annotation>, a: Annotation) -> Seq<Annotation> {
    if has_note(e, a.id) { e.update(note_pos(e, a.id), a) } else { e.push(a) }
}

/// Position of the first of the oldest annotations.
pub open spec fn first_oldest(e: Seq<Annotation>) -> int
    decreases e.len(),
{
    if e.len() <= 1 {
        0
    } else {
        let p = first_oldest(e.drop_last());
        if e.last().created_at < e[p].created_at { e.len() - 1 } else { p }
    }
}

/// The annotations with the oldest one dropped `k` times over.
pub open spec fn drop_oldest_notes(e: Seq<Annotation>, k: nat) -> Seq<Annotation>
    decreases k,
{
    if k == 0 || e.len() == 0 {
        e
    } else {
        drop_oldest_notes(e.remove(first_oldest(e)), (k - 1) as nat)
    }
}

/// The annotations cut down to at most `max`, the oldest dropped first.
pub open spec fn within_max(e: Seq<Annotation>, max: nat) -> Seq<Annotation> {
    if e.len() > max { drop_oldest_notes(e, (e.len() - max) as nat) } else { e }
}

/// The annotations of `e` that satisfy `f`, in order.
pub open spec fn notes_where(e: Seq<Annotation>, f: spec_fn(Annotation) -> bool) -> Seq<Annotation>
    decreases e.len(),
{
    if e.len() == 0 {
        seq![]
    } else if f(e.last()) {
        notes_where(e.drop_last(), f).push(e.last())
    } else {
        notes_where(e.drop_last(), f)
    }
}

/// The annotations that references point at.
pub open spec fn note_derefs(s: Seq<&Annotation>) -> Seq<Annotation> {
    s.map_values(|r: &Annotation| *r)
}

/// The annotations stand by first line.
pub open spec fn by_start(s: Seq<Annotation>) -> bool {
    forall|i: int, j: int| 0 <= i < j < s.len() ==> (#[trigger] s[i]).range.start <= (#[trigger] s[j]).range.start
}

/// Whether an annotation's content matches a search query, ignoring case.
pub open spec fn note_hit(a: Annotation, q: Seq<char>) -> bool {
    contains_sub(lowercase(a.content@), lowercase(q))
}

/// Whether an annotation of type `t` is a bookmark.
pub open spec fn is_bookmark(a: Annotation) -> bool {
    a.annotation_type == AnnotationType::Bookmark
}

/// Manages all annotations for a terminal session
#[derive(Debug, Clone)]
pub struct AnnotationManager {
    annotations: Vec<Annotation>,
    file_path: Option<String>,
    max_annotations: usize,
}

/// The first oldest annotation is in range and no annotation is older.
proof fn lemma_first_oldest(e: Seq<Annotation>)
    requires
        e.len() > 0,
    ensures
        0 <= first_oldest(e) < e.len(),
        forall|i: int| 0 <= i < e.len() ==> e[first_oldest(e)].created_at <= #[trigger] e[i].created_at,
    decreases e.len(),
{
    if e.len() > 1 {
        lemma_first_oldest(e.drop_last());
        assert forall|i: int| 0 <= i < e.len() implies e[first_oldest(e)].created_at <= #[trigger] e[i].created_at by {
            if i < e.len() - 1 {
                assert(e.drop_last()[i] == e[i]);
            }
        }
    }
}

/// Trimming to a limit keeps exactly as many annotations as the limit allows,
/// and never drops an annotation newer than every other one while the limit
/// leaves room for one.
pub proof fn lemma_within_max(e: Seq<Annotation>, max: nat, a: Annotation)
    requires
        notes_unique(e),
    ensures
        within_max(e, max).len() == if e.len() > max { max } else { e.len() },
        max > 0 && e.contains(a) && (forall|i: int| 0 <= i < e.len() && e[i].id != a.id ==> #[trigger] e[i].created_at < a.created_at)
            ==> within_max(e, max).contains(a),
{
    if e.len() > max {
        let k = (e.len() - max) as nat;
        lemma_drop_oldest(e, k, a);
    }
}

/// Dropping the oldest `k` of some annotations leaves the rest, among them
/// any one newer than all the others.
proof fn lemma_drop_oldest(e: Seq<Annotation>, k: nat, a: Annotation)
    requires
        notes_unique(e),
        k <= e.len(),
    ensures
        drop_oldest_notes(e, k).len() == e.len() - k,
        notes_unique(drop_oldest_notes(e, k)),
        k < e.len() && e.contains(a) && (forall|i: int| 0 <= i < e.len() && e[i].id != a.id ==> #[trigger] e[i].created_at < a.created_at)
            ==> drop_oldest_notes(e, k).contains(a),
    decreases k,
{
    if k > 0 && e.len() > 0 {
        lemma_first_oldest(e);
        let fo = first_oldest(e);
        let r = e.remove(fo);
        assert forall|i: int, j: int| 0 <= i < j < r.len() implies (#[trigger] r[i]).id != (#[trigger] r[j]).id by {
            let ii = if i < fo { i } else { i + 1 };
            let jj = if j < fo { j } else { j + 1 };
            assert(r[i] == e[ii] && r[j] == e[jj]);
        }
        if k < e.len() && e.contains(a) && (forall|i: int| 0 <= i < e.len() && e[i].id != a.id ==> #[trigger] e[i].created_at < a.created_at) {
            let pa = choose|i: int| 0 <= i < e.len() && e[i] == a;
            assert(e[pa] == a);
            let other = if pa == 0 { 1int } else { 0int };
            assert(e[other].id != a.id) by {
                if e[other].id == a.id {
                    if other < pa {
                        assert(e[other].id != e[pa].id);
                    } else {
                        assert(e[pa].id != e[other].id);
                    }
                }
            }
            assert(e[other].created_at < a.created_at);
            assert(fo != pa) by {
                if fo == pa {
                    assert(e[fo].created_at <= e[other].created_at);
                }
            }
            let ra = if pa < fo { pa } else { pa - 1 };
            assert(r[ra] == a);
            assert forall|i: int| 0 <= i < r.len() && r[i].id != a.id implies #[trigger] r[i].created_at < a.created_at by {
                let ii = if i < fo { i } else { i + 1 };
                assert(r[i] == e[ii]);
            }
        }
        lemma_drop_oldest(r, (k - 1) as nat, a);
    }
}

impl AnnotationManager {
    /// The annotations, in the order they were added.
    pub closed spec fn notes(&self) -> Seq<Annotation> {
        self.annotations@
    }

    /// The most annotations kept.
    pub closed spec fn limit(&self) -> usize {
        self.max_annotations
    }

    /// The file the annotations are kept in, once one is known.
    pub closed spec fn path(&self) -> Option<Seq<char>> {
        match self.file_path {
            Some(p) => Some(p@),
            None => None,
        }
    }

    /// No two annotations share an identifier.
    pub open spec fn wf(&self) -> bool {
        notes_unique(self.notes())
    }

    /// Create a new annotation manager
    pub fn new() -> (m: Self)
        ensures
            m.wf(),
            m.notes() == Seq::<Annotation>::empty(),
            m.limit() == 10000,
            m.path() is None,
    {
        AnnotationManager { annotations: Vec::new(), file_path: None, max_annotations: 10000 }
    }

    /// Create with custom max annotations
    pub fn with_max_annotations(max_annotations: usize) -> (m: Self)
        ensures
            m.wf(),
            m.notes() == Seq::<Annotation>::empty(),
            m.limit() == max_annotations,
            m.path() is None,
    {
        AnnotationManager { annotations: Vec::new(), file_path: None, max_annotations }
    }

    /// Position of the annotation named `id`.
    fn find(&self, id: u128) -> (r: Option<usize>)
        requires
            self.wf(),
        ensures
            match r {
                Some(i) => has_note(self.notes(), id) && i == note_pos(self.notes(), id),
                None => !has_note(self.notes(), id),
            },
    {
        let mut i: usize = 0;
        while i < self.annotations.len()
            invariant
                i <= self.annotations@.len(),
                self.wf(),
                forall|j: int| 0 <= j < i ==> self.annotations@[j].id != id,
            decreases self.annotations.len() - i,
        {
            if self.annotations[i].id == id {
                proof {
                    let e = self.notes();
                    assert(has_note(e, id));
                    let p = note_pos(e, id);
                    if p != i && p > i {
                        assert(e[i as int].id != e[p].id);
                    }
                }
                return Some(i);
            }
            i = i + 1;
        }
        None
    }

    /// Drops the oldest annotations beyond the maximum.
    fn trim_old_annotations(&mut self)
        requires
            old(self).wf(),
        ensures
            final(self).wf(),
            final(self).notes() == within_max(old(self).notes(), old(self).limit() as nat),
            final(self).limit() == old(self).limit(),
            final(self).path() == old(self).path(),
    {
        if self.annotations.len() > self.max_annotations {
            let excess = self.annotations.len() - self.max_annotations;
            let ghost e0 = self.notes();
            let mut k: usize = 0;
            while k < excess && self.annotations.len() > 0
                invariant
                    k <= excess,
                    self.wf(),
                    self.limit() == old(self).limit(),
                    self.path() == old(self).path(),
                    drop_oldest_notes(e0, excess as nat) == drop_oldest_notes(self.notes(), (excess - k) as nat),
                decreases excess - k,
            {
                let ghost e = self.notes();
                let p = self.oldest();
                self.annotations.remove(p);
                proof {
                    assert(drop_oldest_notes(e, (excess - k) as nat) == drop_oldest_notes(e.remove(p as int), (excess - k - 1) as nat));
                    assert forall|a: int, b: int| 0 <= a < b < self.notes().len() implies (#[trigger] self.notes()[a]).id != (#[trigger] self.notes()[b]).id by {
                        let a0 = if a < p { a } else { a + 1 };
                        let b0 = if b < p { b } else { b + 1 };
                        assert(e[a0].id != e[b0].id);
                    }
                }
                k = k + 1;
            }
        }
    }

    /// Position of the first of the oldest annotations.
    fn oldest(&self) -> (p: usize)
        requires
            self.annotations@.len() > 0,
        ensures
            p == first_oldest(self.notes()),
            p < self.notes().len(),
    {
        proof {
            lemma_first_oldest(self.notes());
        }
        let mut p: usize = 0;
        let mut i: usize = 1;
        while i < self.annotations.len()
            invariant
                1 <= i <= self.annotations@.len(),
                p == first_oldest(self.annotations@.subrange(0, i as int)),
                p < i,
            decreases self.annotations.len() - i,
        {
            let ghost pre = self.annotations@.subrange(0, i as int);
            assert(self.annotations@.subrange(0, i + 1).drop_last() =~= pre);
            assert(pre[p as int] == self.annotations@[p as int]);
            if self.annotations[i].created_at < self.annotations[p].created_at {
                p = i;
            }
            i = i + 1;
        }
        assert(self.annotations@.subrange(0, self.annotations@.len() as int) =~= self.annotations@);
        p
    }

    /// Add an annotation, replacing one with the same identifier, then drop
    /// the oldest beyond the maximum; the identifier is returned
    pub fn add(&mut self, annotation: Annotation) -> (id: u128)
        requires
            old(self).wf(),
        ensures
            final(self).wf(),
            id == annotation.id,
            final(self).notes() == within_max(put_note(old(self).notes(), annotation), old(self).limit() as nat),
            final(self).limit() == old(self).limit(),
            final(self).path() == old(self).path(),
    {
        let id = annotation.id;
        self.put(annotation);
        self.trim_old_annotations();
        id
    }

    /// Stores an annotation in place of one with the same identifier.
    fn put(&mut self, a: Annotation)
        requires
            old(self).wf(),
        ensures
            final(self).wf(),
            final(self).notes() == put_note(old(self).notes(), a),
            final(self).limit() == old(self).limit(),
            final(self).path() == old(self).path(),
    {
        let ghost e0 = self.notes();
        match self.find(a.id) {
            Some(i) => {
                self.annotations.set(i, a);
                assert(self.notes() =~= put_note(e0, a));
                assert forall|x: int, y: int| 0 <= x < y < self.notes().len() implies (#[trigger] self.notes()[x]).id != (#[trigger] self.notes()[y]).id by {
                    if x == i {
                        assert(e0[y].id != e0[i as int].id);
                    } else if y == i {
                        assert(e0[x].id != e0[i as int].id);
                    } else {
                        assert(e0[x].id != e0[y].id);
                    }
                }
            },
            None => {
                self.annotations.push(a);
                assert(self.notes() =~= put_note(e0, a));
                assert forall|x: int, y: int| 0 <= x < y < self.notes().len() implies (#[trigger] self.notes()[x]).id != (#[trigger] self.notes()[y]).id by {
                    if y == e0.len() {
                        assert(e0[x].id != a.id);
                    } else {
                        assert(e0[x].id != e0[y].id);
                    }
                }
            },
        }
    }

    /// Remove an annotation by ID
    pub fn remove(&mut self, id: u128) -> (r: Option<Annotation>)
        requires
            old(self).wf(),
        ensures
            final(self).wf(),
            final(self).limit() == old(self).limit(),
            final(self).path() == old(self).path(),
            match r {
                Some(a) => has_note(old(self).notes(), id) && a == old(self).notes()[note_pos(old(self).notes(), id)]
                    && final(self).notes() == old(self).notes().remove(note_pos(old(self).notes(), id)),
                None => !has_note(old(self).notes(), id) && final(self).notes() == old(self).notes(),
            },
    {
        match self.find(id) {
            Some(i) => {
                let ghost e0 = self.notes();
                let a = self.annotations.remove(i);
                assert forall|x: int, y: int| 0 <= x < y < self.notes().len() implies (#[trigger] self.notes()[x]).id != (#[trigger] self.notes()[y]).id by {
                    let x0 = if x < i { x } else { x + 1 };
                    let y0 = if y < i { y } else { y + 1 };
                    assert(e0[x0].id != e0[y0].id);
                }
                Some(a)
            },
            None => None,
        }
    }

    /// Update an annotation's content
    pub fn update_content(&mut self, id: u128, content: String) -> (r: bool)
        requires
            old(self).wf(),
        ensures
            final(self).wf(),
            final(self).limit() == old(self).limit(),
            final(self).path() == old(self).path(),
            r == has_note(old(self).notes(), id),
            !r ==> final(self).notes() == old(self).notes(),
            r ==> {
                let p = note_pos(old(self).notes(), id);
                final(self).notes() == old(self).notes().update(p, Annotation {
                    content,
                    modified_at: final(self).notes()[p].modified_at,
                    ..old(self).notes()[p]
                })
            },
    {
        match self.find(id) {
            Some(i) => {
                let ghost e0 = self.notes();
                let mut a = self.annotations.remove(i);
                a.set_content(content);
                self.annotations.insert(i, a);
                assert(self.notes() =~= e0.update(i as int, a));
                assert forall|x: int, y: int| 0 <= x < y < self.notes().len() implies (#[trigger] self.notes()[x]).id != (#[trigger] self.notes()[y]).id by {
                    assert(e0[x].id != e0[y].id);
                }
                true
            },
            None => false,
        }
    }

    /// Update an annotation's color
    pub fn update_color(&mut self, id: u128, color: [u8; 3]) -> (r: bool)
        requires
            old(self).wf(),
        ensures
            final(self).wf(),
            final(self).limit() == old(self).limit(),
            final(self).path() == old(self).path(),
            r == has_note(old(self).notes(), id),
            !r ==> final(self).notes() == old(self).notes(),
            r ==> {
                let p = note_pos(old(self).notes(), id);
                final(self).notes() == old(self).notes().update(p, Annotation {
                    color: Some(color),
                    modified_at: final(self).notes()[p].modified_at,
                    ..old(self).notes()[p]
                })
            },
    {
        match self.find(id) {
            Some(i) => {
                let ghost e0 = self.notes();
                let mut a = self.annotations.remove(i);
                a.set_color(color);
                self.annotations.insert(i, a);
                assert(self.notes() =~= e0.update(i as int, a));
                assert forall|x: int, y: int| 0 <= x < y < self.notes().len() implies (#[trigger] self.notes()[x]).id != (#[trigger] self.notes()[y]).id by {
                    assert(e0[x].id != e0[y].id);
                }
                true
            },
            None => false,
        }
    }

    /// Get an annotation by ID
    pub fn get(&self, id: u128) -> (r: Option<&Annotation>)
        requires
            self.wf(),
        ensures
            match r {
                Some(a) => has_note(self.notes(), id) && *a == self.notes()[note_pos(self.notes(), id)],
                None => !has_note(self.notes(), id),
            },
    {
        match self.find(id) {
            Some(i) => Some(&self.annotations[i]),
            None => None,
        }
    }
}

} // verus!

verus! {

/// The annotations put in order of their first line; of annotations that tie,
/// the earlier stays first.
fn sort_by_start<'a>(v: Vec<&'a Annotation>) -> (r: Vec<&'a Annotation>)
    ensures
        by_start(note_derefs(r@)),
        note_derefs(r@).to_multiset() == note_derefs(v@).to_multiset(),
        r@.len() == v@.len(),
{
    let ghost iv = note_derefs(v@);
    let mut rest = v;
    let mut r: Vec<&'a Annotation> = Vec::new();
    let ghost mut done: Seq<Annotation> = seq![];
    assert(note_derefs(r@) =~= done);
    assert(iv =~= done + note_derefs(rest@));
    while rest.len() > 0
        invariant
            iv == done + note_derefs(rest@),
            by_start(note_derefs(r@)),
            note_derefs(r@).to_multiset() == done.to_multiset(),
            r@.len() == done.len(),
        decreases rest.len(),
    {
        let x = rest.remove(0);
        let ghost rv = note_derefs(r@);
        let mut k: usize = 0;
        while k < r.len() && r[k].range.start <= x.range.start
            invariant
                k <= r@.len(),
                rv == note_derefs(r@),
                forall|j: int| 0 <= j < k ==> (#[trigger] rv[j]).range.start <= x.range.start,
            decreases r.len() - k,
        {
            k = k + 1;
        }
        proof {
            let nv = rv.insert(k as int, *x);
            assert forall|a: int, b: int| 0 <= a < b < nv.len() implies (#[trigger] nv[a]).range.start <= (#[trigger] nv[b]).range.start by {
                if b < k {
                } else if b == k {
                } else if a < k {
                    assert(nv[b] == rv[b - 1]);
                    if b - 1 > k {
                        assert(rv[k as int].range.start <= rv[b - 1].range.start);
                    }
                    assert(rv[k as int].range.start > x.range.start);
                } else if a == k {
                    assert(nv[b] == rv[b - 1]);
                    if b - 1 > k {
                        assert(rv[k as int].range.start <= rv[b - 1].range.start);
                    }
                } else {
                    assert(rv[a - 1].range.start <= rv[b - 1].range.start);
                }
            }
            vstd::seq_lib::to_multiset_insert(rv, k as int, *x);
            vstd::seq_lib::to_multiset_build(done, *x);
            done = done.push(*x);
        }
        r.insert(k, x);
        assert(note_derefs(r@) =~= rv.insert(k as int, *x));
        assert(iv =~= done + note_derefs(rest@));
    }
    assert(done =~= iv);
    r
}

/// Keeping every annotation keeps them all.
proof fn lemma_notes_where_all(e: Seq<Annotation>)
    ensures
        notes_where(e, |a: Annotation| true) == e,
    decreases e.len(),
{
    if e.len() > 0 {
        lemma_notes_where_all(e.drop_last());
        assert(e.drop_last().push(e.last()) =~= e);
    }
}

impl AnnotationManager {
    /// References to the annotations that satisfy `which`: covering `line`
    /// (0), of type `t` (1), matching `query` (2), tagged `query` (3), all (4).
    fn select<'a>(&'a self, which: u8, line: usize, t: AnnotationType, query: &str) -> (r: Vec<&'a Annotation>)
        requires
            which < 5,
        ensures
            note_derefs(r@) == notes_where(self.notes(), if which == 0 {
                |a: Annotation| covers(a.range, line as int)
            } else if which == 1 {
                |a: Annotation| a.annotation_type == t
            } else if which == 2 {
                |a: Annotation| note_hit(a, query@)
            } else if which == 3 {
                |a: Annotation| tag_texts(a.tags@).contains(query@)
            } else {
                |a: Annotation| true
            }),
    {
        let ghost f = if which == 0 {
            |a: Annotation| covers(a.range, line as int)
        } else if which == 1 {
            |a: Annotation| a.annotation_type == t
        } else if which == 2 {
            |a: Annotation| note_hit(a, query@)
        } else if which == 3 {
            |a: Annotation| tag_texts(a.tags@).contains(query@)
        } else {
            |a: Annotation| true
        };
        let ql = chars_of(to_lowercase(query).as_str());
        let mut r: Vec<&'a Annotation> = Vec::new();
        let mut i: usize = 0;
        while i < self.annotations.len()
            invariant
                i <= self.annotations@.len(),
                which < 5,
                ql@ == lowercase(query@),
                f == (if which == 0 {
                    |a: Annotation| covers(a.range, line as int)
                } else if which == 1 {
                    |a: Annotation| a.annotation_type == t
                } else if which == 2 {
                    |a: Annotation| note_hit(a, query@)
                } else if which == 3 {
                    |a: Annotation| tag_texts(a.tags@).contains(query@)
                } else {
                    |a: Annotation| true
                }),
                note_derefs(r@) == notes_where(self.annotations@.subrange(0, i as int), f),
            decreases self.annotations.len() - i,
        {
            let a = &self.annotations[i];
            let keep = if which == 0 {
                a.range.contains(line)
            } else if which == 1 {
                a.annotation_type == t
            } else if which == 2 {
                contains(&chars_of(to_lowercase(a.content.as_str()).as_str()), &ql)
            } else if which == 3 {
                a.has_tag(query)
            } else {
                true
            };
            assert(keep == f(*a));
            assert(self.annotations@.subrange(0, i + 1).drop_last() =~= self.annotations@.subrange(0, i as int));
            if keep {
                r.push(a);
            }
            i = i + 1;
            assert(note_derefs(r@) =~= notes_where(self.annotations@.subrange(0, i as int), f));
        }
        assert(self.annotations@.subrange(0, self.annotations@.len() as int) =~= self.annotations@);
        r
    }

    /// Get all annotations for a specific line
    pub fn get_for_line(&self, line: usize) -> (r: Vec<&Annotation>)
        ensures
            note_derefs(r@) == notes_where(self.notes(), |a: Annotation| covers(a.range, line as int)),
    {
        self.select(0, line, AnnotationType::Note, "")
    }

    /// Get all annotations of a specific type
    pub fn get_by_type(&self, annotation_type: AnnotationType) -> (r: Vec<&Annotation>)
        ensures
            note_derefs(r@) == notes_where(self.notes(), |a: Annotation| a.annotation_type == annotation_type),
    {
        self.select(1, 0, annotation_type, "")
    }

    /// Search annotations by content, ignoring case
    pub fn search(&self, query: &str) -> (r: Vec<&Annotation>)
        ensures
            note_derefs(r@) == notes_where(self.notes(), |a: Annotation| note_hit(a, query@)),
    {
        self.select(2, 0, AnnotationType::Note, query)
    }

    /// Search annotations by tag
    pub fn search_by_tag(&self, tag: &str) -> (r: Vec<&Annotation>)
        ensures
            note_derefs(r@) == notes_where(self.notes(), |a: Annotation| tag_texts(a.tags@).contains(tag@)),
    {
        self.select(3, 0, AnnotationType::Note, tag)
    }

    /// Get all bookmarks sorted by line number
    pub fn get_bookmarks(&self) -> (r: Vec<&Annotation>)
        ensures
            by_start(note_derefs(r@)),
            note_derefs(r@).to_multiset() == notes_where(self.notes(), |a: Annotation| a.annotation_type == AnnotationType::Bookmark).to_multiset(),
    {
        let b = self.get_by_type(AnnotationType::Bookmark);
        sort_by_start(b)
    }

    /// Navigate to the first bookmark after the given line
    pub fn next_bookmark(&self, current_line: usize) -> (r: Option<&Annotation>)
        ensures
            exists|s: Seq<Annotation>| #![trigger by_start(s)]
                by_start(s) && s.to_multiset() == notes_where(self.notes(), |a: Annotation| a.annotation_type == AnnotationType::Bookmark).to_multiset()
                && match r {
                    Some(a) => exists|k: int| 0 <= k < s.len() && #[trigger] s[k] == *a && a.range.start > current_line
                        && forall|j: int| 0 <= j < k ==> s[j].range.start <= current_line,
                    None => forall|j: int| 0 <= j < s.len() ==> (#[trigger] s[j]).range.start <= current_line,
                },
    {
        let b = self.get_bookmarks();
        let ghost s = note_derefs(b@);
        let mut i: usize = 0;
        while i < b.len()
            invariant
                i <= b@.len(),
                s == note_derefs(b@),
                by_start(s),
                s.to_multiset() == notes_where(self.notes(), |a: Annotation| a.annotation_type == AnnotationType::Bookmark).to_multiset(),
                forall|j: int| 0 <= j < i ==> (#[trigger] s[j]).range.start <= current_line,
            decreases b.len() - i,
        {
            if b[i].range.start > current_line {
                assert(s[i as int] == *b@[i as int]);
                return Some(b[i]);
            }
            i = i + 1;
        }
        None
    }

    /// Navigate to the last bookmark before the given line
    pub fn prev_bookmark(&self, current_line: usize) -> (r: Option<&Annotation>)
        ensures
            exists|s: Seq<Annotation>| #![trigger by_start(s)]
                by_start(s) && s.to_multiset() == notes_where(self.notes(), |a: Annotation| a.annotation_type == AnnotationType::Bookmark).to_multiset()
                && match r {
                    Some(a) => exists|k: int| 0 <= k < s.len() && #[trigger] s[k] == *a && a.range.start < current_line
                        && forall|j: int| k < j < s.len() ==> s[j].range.start >= current_line,
                    None => forall|j: int| 0 <= j < s.len() ==> (#[trigger] s[j]).range.start >= current_line,
                },
    {
        let b = self.get_bookmarks();
        let ghost s = note_derefs(b@);
        let mut i: usize = b.len();
        while i > 0
            invariant
                i <= b@.len(),
                s == note_derefs(b@),
                by_start(s),
                s.to_multiset() == notes_where(self.notes(), |a: Annotation| a.annotation_type == AnnotationType::Bookmark).to_multiset(),
                forall|j: int| i <= j < s.len() ==> (#[trigger] s[j]).range.start >= current_line,
            decreases i,
        {
            i = i - 1;
            if b[i].range.start < current_line {
                assert(s[i as int] == *b@[i as int]);
                return Some(b[i]);
            }
        }
        None
    }

    /// Get all annotations sorted by line number
    pub fn all_sorted(&self) -> (r: Vec<&Annotation>)
        ensures
            by_start(note_derefs(r@)),
            note_derefs(r@).to_multiset() == self.notes().to_multiset(),
    {
        let all = self.select(4, 0, AnnotationType::Note, "");
        proof {
            lemma_notes_where_all(self.notes());
        }
        sort_by_start(all)
    }

    /// Get total count of annotations
    pub fn count(&self) -> (n: usize)
        ensures
            n == self.notes().len(),
    {
        self.annotations.len()
    }

    /// Get count by type
    pub fn count_by_type(&self, annotation_type: AnnotationType) -> (n: usize)
        ensures
            n == notes_where(self.notes(), |a: Annotation| a.annotation_type == annotation_type).len(),
    {
        self.get_by_type(annotation_type).len()
    }

    /// Check if a line has any annotations
    pub fn has_annotations_at_line(&self, line: usize) -> (r: bool)
        ensures
            r == (notes_where(self.notes(), |a: Annotation| covers(a.range, line as int)).len() > 0),
    {
        self.get_for_line(line).len() > 0
    }

    /// Clear all annotations
    pub fn clear(&mut self)
        ensures
            final(self).wf(),
            final(self).notes() == Seq::<Annotation>::empty(),
            final(self).limit() == old(self).limit(),
            final(self).path() == old(self).path(),
    {
        self.annotations = Vec::new();
    }

    /// Clear annotations of a specific type
    pub fn clear_by_type(&mut self, annotation_type: AnnotationType)
        requires
            old(self).wf(),
        ensures
            final(self).wf(),
            final(self).notes() == notes_where(old(self).notes(), |a: Annotation| a.annotation_type != annotation_type),
            final(self).limit() == old(self).limit(),
            final(self).path() == old(self).path(),
    {
        let mut rest: Vec<Annotation> = Vec::new();
        std::mem::swap(&mut rest, &mut self.annotations);
        let count = rest.len();
        let ghost all = rest@;
        let mut kept: Vec<Annotation> = Vec::new();
        let mut i: usize = 0;
        assert(all.subrange(0, all.len() as int) =~= all);
        while rest.len() > 0
            invariant
                i <= all.len(),
                all.len() == count,
                notes_unique(all),
                rest@ == all.subrange(i as int, all.len() as int),
                kept@ == notes_where(all.subrange(0, i as int), |a: Annotation| a.annotation_type != annotation_type),
                forall|j: int| 0 <= j < kept@.len() ==> exists|q: int| 0 <= q < i && #[trigger] kept@[j] == all[q],
                notes_unique(kept@),
            decreases rest.len(),
        {
            let a = rest.remove(0);
            assert(a == all[i as int]);
            assert(all.subrange(0, i + 1).drop_last() =~= all.subrange(0, i as int));
            if a.annotation_type != annotation_type {
                proof {
                    assert forall|j: int| 0 <= j < kept@.len() implies (#[trigger] kept@[j]).id != a.id by {
                        let q = choose|q: int| 0 <= q < i && #[trigger] kept@[j] == all[q];
                        assert(all[q].id != all[i as int].id);
                    }
                }
                kept.push(a);
            }
            i = i + 1;
            assert(rest@ =~= all.subrange(i as int, all.len() as int));
        }
        self.annotations = kept;
    }

    /// Set the file path for persistence
    pub fn set_file_path(&mut self, path: String)
        ensures
            final(self).notes() == old(self).notes(),
            final(self).limit() == old(self).limit(),
            final(self).path() == Some(path@),
    {
        self.file_path = Some(path);
    }

    /// Get the file path if set
    pub fn file_path(&self) -> (r: Option<&String>)
        ensures
            match r {
                Some(p) => self.path() == Some(p@),
                None => self.path() is None,
            },
    {
        match &self.file_path {
            Some(p) => Some(p),
            None => None,
        }
    }

    /// Replace the annotations by those read from the file at `path`, which
    /// the manager keeps from now on; they are stored in turn, without
    /// dropping any beyond the maximum
    pub fn load_entries(&mut self, loaded: Vec<Annotation>, path: String)
        ensures
            final(self).wf(),
            final(self).notes() == loaded_notes(loaded@),
            final(self).limit() == old(self).limit(),
            final(self).path() == Some(path@),
    {
        self.clear();
        let count = loaded.len();
        let ghost all = loaded@;
        let mut rest = loaded;
        let mut i: usize = 0;
        assert(all.subrange(0, 0) =~= Seq::<Annotation>::empty());
        assert(all.subrange(0, all.len() as int) =~= all);
        while rest.len() > 0
            invariant
                i <= all.len(),
                all.len() == count,
                rest@ == all.subrange(i as int, all.len() as int),
                self.wf(),
                self.limit() == old(self).limit(),
                self.notes() == loaded_notes(all.subrange(0, i as int)),
            decreases rest.len(),
        {
            let a = rest.remove(0);
            assert(a == all[i as int]);
            assert(all.subrange(0, i + 1).drop_last() =~= all.subrange(0, i as int));
            self.put(a);
            i = i + 1;
            assert(rest@ =~= all.subrange(i as int, all.len() as int));
        }
        self.file_path = Some(path);
    }

    /// Get statistics about annotations
    pub fn stats(&self) -> (s: AnnotationStats)
        ensures
            s.total == self.notes().len(),
            s.notes == notes_where(self.notes(), |a: Annotation| a.annotation_type == AnnotationType::Note).len(),
            s.warnings == notes_where(self.notes(), |a: Annotation| a.annotation_type == AnnotationType::Warning).len(),
            s.bookmarks == notes_where(self.notes(), |a: Annotation| a.annotation_type == AnnotationType::Bookmark).len(),
    {
        AnnotationStats {
            total: self.count(),
            notes: self.count_by_type(AnnotationType::Note),
            warnings: self.count_by_type(AnnotationType::Warning),
            bookmarks: self.count_by_type(AnnotationType::Bookmark),
        }
    }
}

/// The annotations after storing each of `s` in turn into an empty manager.
pub open spec fn loaded_notes(s: Seq<Annotation>) -> Seq<Annotation>
    decreases s.len(),
{
    if s.len() == 0 {
        seq![]
    } else {
        put_note(loaded_notes(s.drop_last()), s.last())
    }
}

impl Default for AnnotationManager {
    fn default() -> (m: Self)
        ensures
            m.wf(),
            m.notes() == Seq::<Annotation>::empty(),
            m.limit() == 10000,
            m.path() is None,
    {
        Self::new()
    }
}

} // verus!
