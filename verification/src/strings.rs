//! Word splitting, joining and pattern replacement on character sequences.

use vstd::prelude::*;
use crate::text::{is_ws, is_whitespace, is_prefix, occurs_at, matches_at};

verus! {

/// Length of the run of non-whitespace characters that starts `s`.
pub open spec fn word_len(s: Seq<char>) -> nat
    decreases s.len(),
{
    if s.len() > 0 && !is_ws(s[0]) {
        1 + word_len(s.drop_first())
    } else {
        0
    }
}

/// `str::split_whitespace`: the maximal runs of non-whitespace characters.
pub open spec fn words(s: Seq<char>) -> Seq<Seq<char>>
    decreases s.len(),
{
    if s.len() == 0 {
        seq![]
    } else if is_ws(s[0]) {
        words(s.drop_first())
    } else {
        let n = word_len(s);
        if 0 < n <= s.len() {
            seq![s.subrange(0, n as int)] + words(s.subrange(n as int, s.len() as int))
        } else {
            seq![]
        }
    }
}

/// `join`: the parts with `sep` between each two of them.
pub open spec fn joined(parts: Seq<Seq<char>>, sep: Seq<char>) -> Seq<char>
    decreases parts.len(),
{
    if parts.len() == 0 {
        seq![]
    } else if parts.len() == 1 {
        parts[0]
    } else {
        joined(parts.drop_last(), sep) + sep + parts.last()
    }
}

/// `str::replace` for a non-empty pattern: every occurrence of `p`, scanning
/// from the left and without overlap, is replaced by `r`.
pub open spec fn replaced(s: Seq<char>, p: Seq<char>, r: Seq<char>) -> Seq<char>
    decreases s.len(),
{
    if s.len() == 0 || p.len() == 0 {
        s
    } else if is_prefix(p, s) {
        r + replaced(s.subrange(p.len() as int, s.len() as int), p, r)
    } else {
        seq![s[0]] + replaced(s.drop_first(), p, r)
    }
}

pub proof fn lemma_word_len_bound(s: Seq<char>)
    ensures
        word_len(s) <= s.len(),
        forall|i: int| 0 <= i < word_len(s) ==> !is_ws(#[trigger] s[i]),
        word_len(s) < s.len() ==> is_ws(s[word_len(s) as int]),
    decreases s.len(),
{
    if s.len() > 0 && !is_ws(s[0]) {
        lemma_word_len_bound(s.drop_first());
        assert forall|i: int| 0 <= i < word_len(s) implies !is_ws(#[trigger] s[i]) by {
            if i > 0 {
                assert(s[i] == s.drop_first()[i - 1]);
            }
        }
    }
}

proof fn lemma_word_len_step(s: Seq<char>, i: int)
    requires
        0 <= i < s.len(),
        !is_ws(s[i]),
    ensures
        word_len(s.subrange(i, s.len() as int)) == 1 + word_len(s.subrange(i + 1, s.len() as int)),
{
    assert(s.subrange(i, s.len() as int).drop_first() =~= s.subrange(i + 1, s.len() as int));
}

/// The whitespace-separated words of `v`.
pub fn split_words(v: &Vec<char>) -> (r: Vec<Vec<char>>)
    ensures
        r@.len() == words(v@).len(),
        forall|k: int| 0 <= k < r@.len() ==> #[trigger] r@[k]@ == words(v@)[k],
{
    let mut r: Vec<Vec<char>> = Vec::new();
    let ghost mut done: Seq<Seq<char>> = seq![];
    let mut i: usize = 0;
    assert(v@.subrange(0, v.len() as int) =~= v@);
    assert(done + words(v@) =~= words(v@));
    while i < v.len()
        invariant
            i <= v.len(),
            words(v@) == done + words(v@.subrange(i as int, v.len() as int)),
            r@.len() == done.len(),
            forall|k: int| 0 <= k < r@.len() ==> #[trigger] r@[k]@ == done[k],
        decreases v.len() - i,
    {
        let ghost rest = v@.subrange(i as int, v.len() as int);
        if is_whitespace(v[i]) {
            assert(rest.drop_first() =~= v@.subrange(i + 1, v.len() as int));
            i = i + 1;
        } else {
            let mut j = i;
            let mut w: Vec<char> = Vec::new();
            assert(v@.subrange(i as int, v.len() as int) =~= rest);
            while j < v.len() && !is_whitespace(v[j])
                invariant
                    i <= j <= v.len(),
                    w@ == v@.subrange(i as int, j as int),
                    word_len(rest) == (j - i) + word_len(v@.subrange(j as int, v.len() as int)),
                    rest == v@.subrange(i as int, v.len() as int),
                decreases v.len() - j,
            {
                proof {
                    lemma_word_len_step(v@, j as int);
                }
                w.push(v[j]);
                j = j + 1;
                assert(w@ =~= v@.subrange(i as int, j as int));
            }
            assert(word_len(v@.subrange(j as int, v.len() as int)) == 0);
            assert(word_len(rest) == j - i);
            assert(rest.subrange(0, (j - i) as int) =~= w@);
            assert(rest.subrange((j - i) as int, rest.len() as int) =~= v@.subrange(j as int, v.len() as int));
            proof {
                done = done.push(w@);
            }
            r.push(w);
            assert(words(v@) =~= done + words(v@.subrange(j as int, v.len() as int)));
            i = j;
        }
    }
    assert(v@.subrange(i as int, v.len() as int) =~= Seq::<char>::empty());
    assert(done =~= words(v@));
    r
}

/// The parts joined with `sep` between each two of them.
pub fn join_chars(parts: &Vec<Vec<char>>, from: usize, sep: &Vec<char>) -> (r: Vec<char>)
    requires
        from <= parts@.len(),
    ensures
        r@ == joined(parts@.subrange(from as int, parts@.len() as int).map_values(|p: Vec<char>| p@), sep@),
{
    let ghost views = parts@.subrange(from as int, parts@.len() as int).map_values(|p: Vec<char>| p@);
    let mut r: Vec<char> = Vec::new();
    let mut k = from;
    while k < parts.len()
        invariant
            from <= k <= parts@.len(),
            views == parts@.subrange(from as int, parts@.len() as int).map_values(|p: Vec<char>| p@),
            r@ == joined(views.subrange(0, k - from), sep@),
        decreases parts.len() - k,
    {
        let ghost before = r@;
        if k > from {
            let mut t: usize = 0;
            while t < sep.len()
                invariant
                    t <= sep@.len(),
                    r@ == before + sep@.subrange(0, t as int),
                decreases sep.len() - t,
            {
                r.push(sep[t]);
                t = t + 1;
                assert(r@ =~= before + sep@.subrange(0, t as int));
            }
            assert(sep@.subrange(0, sep@.len() as int) =~= sep@);
        }
        let ghost mid = r@;
        let mut t: usize = 0;
        while t < parts[k].len()
            invariant
                from <= k < parts@.len(),
                t <= parts@[k as int]@.len(),
                r@ == mid + parts@[k as int]@.subrange(0, t as int),
            decreases parts@[k as int]@.len() - t,
        {
            r.push(parts[k][t]);
            t = t + 1;
            assert(r@ =~= mid + parts@[k as int]@.subrange(0, t as int));
        }
        assert(parts@[k as int]@.subrange(0, parts@[k as int]@.len() as int) =~= parts@[k as int]@);
        let ghost nxt = views.subrange(0, k + 1 - from);
        assert(nxt.drop_last() =~= views.subrange(0, k - from));
        assert(nxt.last() == parts@[k as int]@);
        if k == from {
            assert(r@ =~= joined(nxt, sep@));
        } else {
            assert(r@ =~= joined(nxt, sep@));
        }
        k = k + 1;
    }
    assert(views.subrange(0, parts@.len() - from) =~= views);
    r
}

proof fn lemma_occurs_prefix(s: Seq<char>, p: Seq<char>, i: int)
    requires
        0 <= i <= s.len(),
    ensures
        occurs_at(s, p, i) == is_prefix(p, s.subrange(i, s.len() as int)),
{
    let rest = s.subrange(i, s.len() as int);
    if p.len() <= rest.len() {
        assert(rest.subrange(0, p.len() as int) =~= s.subrange(i, i + p.len()));
    }
}

/// Every occurrence of `p` in `s`, scanning from the left without overlap,
/// replaced by `r`.
pub fn replace_all(s: &Vec<char>, p: &Vec<char>, r: &Vec<char>) -> (out: Vec<char>)
    requires
        p@.len() > 0,
    ensures
        out@ == replaced(s@, p@, r@),
{
    let mut out: Vec<char> = Vec::new();
    let mut i: usize = 0;
    assert(s@.subrange(0, s.len() as int) =~= s@);
    assert(out@ + replaced(s@, p@, r@) =~= replaced(s@, p@, r@));
    while i < s.len()
        invariant
            p@.len() > 0,
            i <= s.len(),
            replaced(s@, p@, r@) == out@ + replaced(s@.subrange(i as int, s.len() as int), p@, r@),
        decreases s.len() - i,
    {
        let ghost rest = s@.subrange(i as int, s.len() as int);
        let ghost before = out@;
        proof {
            lemma_occurs_prefix(s@, p@, i as int);
        }
        if matches_at(s, p, i) {
            let mut t: usize = 0;
            while t < r.len()
                invariant
                    t <= r@.len(),
                    out@ == before + r@.subrange(0, t as int),
                decreases r.len() - t,
            {
                out.push(r[t]);
                t = t + 1;
                assert(out@ =~= before + r@.subrange(0, t as int));
            }
            assert(r@.subrange(0, r@.len() as int) =~= r@);
            assert(rest.subrange(p@.len() as int, rest.len() as int) =~= s@.subrange(i + p@.len(), s.len() as int));
            assert(out@ + replaced(s@.subrange(i + p@.len(), s.len() as int), p@, r@) =~= before + replaced(rest, p@, r@));
            i = i + p.len();
        } else {
            out.push(s[i]);
            assert(rest.drop_first() =~= s@.subrange(i + 1, s.len() as int));
            assert(out@ + replaced(s@.subrange(i + 1, s.len() as int), p@, r@) =~= before + replaced(rest, p@, r@));
            i = i + 1;
        }
    }
    assert(out@ + replaced(s@.subrange(i as int, s.len() as int), p@, r@) =~= out@);
    out
}

/// Lexicographic order on characters by code point, which is the order of
/// Rust's `str` comparison.
pub open spec fn lex_lt(a: Seq<char>, b: Seq<char>) -> bool
    decreases a.len(),
{
    if a.len() == 0 {
        b.len() > 0
    } else if b.len() == 0 {
        false
    } else if a[0] != b[0] {
        (a[0] as u32) < (b[0] as u32)
    } else {
        lex_lt(a.drop_first(), b.drop_first())
    }
}

pub proof fn lemma_lex_irreflexive(a: Seq<char>)
    ensures
        !lex_lt(a, a),
    decreases a.len(),
{
    if a.len() > 0 {
        lemma_lex_irreflexive(a.drop_first());
    }
}

pub proof fn lemma_lex_asymmetric(a: Seq<char>, b: Seq<char>)
    ensures
        lex_lt(a, b) ==> !lex_lt(b, a),
    decreases a.len(),
{
    if a.len() > 0 && b.len() > 0 && a[0] == b[0] {
        lemma_lex_asymmetric(a.drop_first(), b.drop_first());
    }
}

pub proof fn lemma_lex_total(a: Seq<char>, b: Seq<char>)
    ensures
        a == b || lex_lt(a, b) || lex_lt(b, a),
    decreases a.len(),
{
    if a.len() > 0 && b.len() > 0 {
        if a[0] == b[0] {
            lemma_lex_total(a.drop_first(), b.drop_first());
            if a.drop_first() == b.drop_first() {
                assert(a =~= seq![a[0]] + a.drop_first());
                assert(b =~= seq![b[0]] + b.drop_first());
            }
        } else {
            vstd::utf8::char_u32_cast(a[0], a[0] as u32);
            vstd::utf8::char_u32_cast(b[0], b[0] as u32);
        }
    } else if a.len() == 0 && b.len() == 0 {
        assert(a =~= b);
    }
}

pub proof fn lemma_lex_trans(a: Seq<char>, b: Seq<char>, c: Seq<char>)
    requires
        lex_lt(a, b),
        lex_lt(b, c),
    ensures
        lex_lt(a, c),
    decreases a.len(),
{
    if a.len() > 0 && b.len() > 0 && c.len() > 0 && a[0] == b[0] && b[0] == c[0] {
        lemma_lex_trans(a.drop_first(), b.drop_first(), c.drop_first());
    }
}

/// Whether `a` comes before `b` in the order of Rust's string comparison.
pub fn lex_less(a: &Vec<char>, b: &Vec<char>) -> (r: bool)
    ensures
        r == lex_lt(a@, b@),
{
    let mut i: usize = 0;
    assert(a@.subrange(0, a.len() as int) =~= a@);
    assert(b@.subrange(0, b.len() as int) =~= b@);
    while i < a.len() && i < b.len()
        invariant
            i <= a.len(),
            i <= b.len(),
            lex_lt(a@, b@) == lex_lt(a@.subrange(i as int, a.len() as int), b@.subrange(i as int, b.len() as int)),
        decreases a.len() - i,
    {
        let ghost ra = a@.subrange(i as int, a.len() as int);
        let ghost rb = b@.subrange(i as int, b.len() as int);
        if a[i] != b[i] {
            assert(ra[0] == a@[i as int]);
            assert(rb[0] == b@[i as int]);
            return (a[i] as u32) < (b[i] as u32);
        }
        assert(ra.drop_first() =~= a@.subrange(i + 1, a.len() as int));
        assert(rb.drop_first() =~= b@.subrange(i + 1, b.len() as int));
        i = i + 1;
    }
    i == a.len() && i < b.len()
}


/// Strictly increasing in the order of string comparison.
pub open spec fn strictly_sorted(keys: Seq<Seq<char>>) -> bool {
    forall|i: int, j: int| 0 <= i < j < keys.len() ==> lex_lt(#[trigger] keys[i], #[trigger] keys[j])
}

/// How many of the keys come before `key`.
pub open spec fn count_lt(keys: Seq<Seq<char>>, key: Seq<char>) -> nat
    decreases keys.len(),
{
    if keys.len() == 0 {
        0
    } else {
        count_lt(keys.drop_last(), key) + if lex_lt(keys.last(), key) { 1nat } else { 0nat }
    }
}

/// Position of `key` among the keys, if it occurs.
pub open spec fn key_pos(keys: Seq<Seq<char>>, key: Seq<char>) -> int {
    if exists|i: int| 0 <= i < keys.len() && keys[i] == key {
        choose|i: int| 0 <= i < keys.len() && keys[i] == key
    } else {
        -1
    }
}

pub proof fn lemma_count_lt_exact(keys: Seq<Seq<char>>, key: Seq<char>, k: int)
    requires
        0 <= k <= keys.len(),
        forall|j: int| 0 <= j < k ==> lex_lt(#[trigger] keys[j], key),
        forall|j: int| k <= j < keys.len() ==> !lex_lt(#[trigger] keys[j], key),
    ensures
        count_lt(keys, key) == k,
    decreases keys.len(),
{
    if keys.len() > 0 {
        let d = keys.drop_last();
        if k == keys.len() {
            assert forall|j: int| 0 <= j < d.len() implies lex_lt(#[trigger] d[j], key) by {
                assert(d[j] == keys[j]);
            }
            lemma_count_lt_exact(d, key, k - 1);
        } else {
            assert forall|j: int| 0 <= j < k implies lex_lt(#[trigger] d[j], key) by {
                assert(d[j] == keys[j]);
            }
            assert forall|j: int| k <= j < d.len() implies !lex_lt(#[trigger] d[j], key) by {
                assert(d[j] == keys[j]);
            }
            lemma_count_lt_exact(d, key, k);
        }
    }
}

pub proof fn lemma_key_pos_unique(keys: Seq<Seq<char>>, key: Seq<char>, i: int)
    requires
        strictly_sorted(keys),
        0 <= i < keys.len(),
        keys[i] == key,
    ensures
        key_pos(keys, key) == i,
{
    let p = key_pos(keys, key);
    if p != i {
        if p < i {
            assert(lex_lt(keys[p], keys[i]));
        } else {
            assert(lex_lt(keys[i], keys[p]));
        }
        lemma_lex_irreflexive(key);
    }
}

/// Inserting a key at its place keeps the keys strictly sorted.
pub proof fn lemma_sorted_insert(keys: Seq<Seq<char>>, key: Seq<char>, k: int)
    requires
        strictly_sorted(keys),
        0 <= k <= keys.len(),
        forall|j: int| 0 <= j < k ==> lex_lt(#[trigger] keys[j], key),
        forall|j: int| k <= j < keys.len() ==> lex_lt(key, #[trigger] keys[j]),
    ensures
        strictly_sorted(keys.insert(k, key)),
{
    let n = keys.insert(k, key);
    assert forall|i: int, j: int| 0 <= i < j < n.len() implies lex_lt(#[trigger] n[i], #[trigger] n[j]) by {
        if j < k {
        } else if j == k {
        } else if i < k {
            assert(n[i] == keys[i]);
            assert(n[j] == keys[j - 1]);
            if i < j - 1 {
                assert(lex_lt(keys[i], keys[j - 1]));
            }
        } else if i == k {
        } else {
            assert(lex_lt(keys[i - 1], keys[j - 1]));
        }
    }
}


} // verus!
