//! Turns a raw bank description into a stable account-name token: whitespace
//! is trimmed and interior runs become single underscores, and everything from
//! the bank's embedded date marker onward is cut off.

use vstd::prelude::*;
use crate::distance::str_to_chars;
use crate::bridge::string_from_chars;

verus! {

/// Characters treated as whitespace by the normalizer.
pub open spec fn is_space(c: char) -> bool {
    c == ' ' || c == '\t' || c == '\r' || c == '\n'
}

/// The fixed noise marker the bank embeds before a trailing date stamp.
pub open spec fn marker() -> Seq<char> {
    seq!['D', 'a', 't', 'o']
}

/// The marker occurs in `s` starting at position `i`.
pub open spec fn marker_at(s: Seq<char>, i: int) -> bool {
    0 <= i && i + 4 <= s.len() && s.subrange(i, i + 4) == marker()
}

/// `s` contains the marker somewhere.
pub open spec fn has_marker(s: Seq<char>) -> bool {
    exists|i: int| marker_at(s, i)
}

/// Position of the first marker occurrence, or `s.len()` if there is none.
pub open spec fn first_marker_index(s: Seq<char>) -> int
    decreases s.len(),
{
    if marker_at(s, 0) {
        0
    } else if s.len() == 0 {
        0
    } else {
        1 + first_marker_index(s.drop_first())
    }
}

/// `s` without its leading whitespace.
pub open spec fn drop_leading_spaces(s: Seq<char>) -> Seq<char>
    decreases s.len(),
{
    if s.len() > 0 && is_space(s[0]) {
        drop_leading_spaces(s.drop_first())
    } else {
        s
    }
}

/// `s` without its trailing whitespace.
pub open spec fn drop_trailing_spaces(s: Seq<char>) -> Seq<char>
    decreases s.len(),
{
    if s.len() > 0 && is_space(s.last()) {
        drop_trailing_spaces(s.drop_last())
    } else {
        s
    }
}

/// Each maximal whitespace run of `s` replaced by one underscore.
pub open spec fn collapse_spaces(s: Seq<char>) -> Seq<char>
    decreases s.len(),
    via collapse_spaces_decreases
{
    if s.len() == 0 {
        Seq::empty()
    } else if is_space(s[0]) {
        seq!['_'] + collapse_spaces(drop_leading_spaces(s))
    } else {
        seq![s[0]] + collapse_spaces(s.drop_first())
    }
}

#[via_fn]
proof fn collapse_spaces_decreases(s: Seq<char>) {
    if s.len() > 0 && is_space(s[0]) {
        lemma_drop_leading_len(s.drop_first());
    }
}

/// `s` without its trailing underscores.
pub open spec fn drop_trailing_underscores(s: Seq<char>) -> Seq<char>
    decreases s.len(),
{
    if s.len() > 0 && s.last() == '_' {
        drop_trailing_underscores(s.drop_last())
    } else {
        s
    }
}

/// The normalized form of a raw description: trim whitespace, collapse interior
/// runs to underscores, cut everything from the first marker onward, and drop
/// the separators left dangling by the cut.
pub open spec fn normalize_spec(s: Seq<char>) -> Seq<char> {
    let c = collapse_spaces(drop_trailing_spaces(drop_leading_spaces(s)));
    let i = first_marker_index(c);
    if i == c.len() {
        c
    } else {
        drop_trailing_underscores(c.take(i))
    }
}

proof fn lemma_drop_leading_len(s: Seq<char>)
    ensures
        drop_leading_spaces(s).len() <= s.len(),
    decreases s.len(),
{
    if s.len() > 0 && is_space(s[0]) {
        lemma_drop_leading_len(s.drop_first());
    }
}

proof fn lemma_drop_trailing_len(s: Seq<char>)
    ensures
        drop_trailing_spaces(s).len() <= s.len(),
    decreases s.len(),
{
    if s.len() > 0 && is_space(s.last()) {
        lemma_drop_trailing_len(s.drop_last());
    }
}

proof fn lemma_collapse_no_space(s: Seq<char>)
    ensures
        collapse_spaces(s).len() <= s.len(),
        forall|k: int|
            0 <= k < collapse_spaces(s).len() ==> !is_space(#[trigger] collapse_spaces(s)[k]),
    decreases s.len(),
{
    if s.len() == 0 {
    } else if is_space(s[0]) {
        lemma_drop_leading_len(s);
        let d = drop_leading_spaces(s);
        assert(d.len() < s.len()) by {
            lemma_drop_leading_len(s.drop_first());
        }
        lemma_collapse_no_space(d);
    } else {
        lemma_collapse_no_space(s.drop_first());
    }
}

/// On whitespace-free input the trimming and collapsing passes are identities.
proof fn lemma_space_free_fixed(s: Seq<char>)
    requires
        forall|k: int| 0 <= k < s.len() ==> !is_space(#[trigger] s[k]),
    ensures
        drop_leading_spaces(s) == s,
        drop_trailing_spaces(s) == s,
        collapse_spaces(s) == s,
    decreases s.len(),
{
    if s.len() > 0 {
        assert forall|k: int| 0 <= k < s.drop_first().len() implies !is_space(
            #[trigger] s.drop_first()[k],
        ) by {
            assert(s.drop_first()[k] == s[k + 1]);
        }
        lemma_space_free_fixed(s.drop_first());
        assert(seq![s[0]] + s.drop_first() =~= s);
    }
}

/// Characterizes `first_marker_index`: nothing earlier matches, and the index
/// either points at a match or at the end.
proof fn lemma_first_marker_index_props(s: Seq<char>)
    ensures
        0 <= first_marker_index(s) <= s.len(),
        forall|j: int| 0 <= j < first_marker_index(s) ==> !marker_at(s, j),
        first_marker_index(s) < s.len() ==> marker_at(s, first_marker_index(s)),
    decreases s.len(),
{
    if marker_at(s, 0) {
    } else if s.len() == 0 {
    } else {
        let t = s.drop_first();
        lemma_first_marker_index_props(t);
        let f = first_marker_index(s);
        assert forall|j: int| 0 <= j < f implies !marker_at(s, j) by {
            if j > 0 && marker_at(s, j) {
                assert(t.subrange(j - 1, j + 3) =~= s.subrange(j, j + 4));
                assert(marker_at(t, j - 1));
            }
        }
        if f < s.len() {
            assert(marker_at(t, f - 1));
            assert(s.subrange(f, f + 4) =~= t.subrange(f - 1, f + 3));
        }
    }
}

/// A marker occurrence inside a prefix is an occurrence in the whole string.
proof fn lemma_marker_in_prefix(s: Seq<char>, n: int, j: int)
    requires
        0 <= n <= s.len(),
        marker_at(s.take(n), j),
    ensures
        marker_at(s, j),
{
    assert(s.take(n).subrange(j, j + 4) =~= s.subrange(j, j + 4));
}

proof fn lemma_drop_trailing_underscores_prefix(s: Seq<char>)
    ensures
        drop_trailing_underscores(s) == s.take(drop_trailing_underscores(s).len() as int),
        drop_trailing_underscores(s).len() <= s.len(),
        drop_trailing_underscores(s).len() > 0 ==> drop_trailing_underscores(s).last() != '_',
    decreases s.len(),
{
    if s.len() > 0 && s.last() == '_' {
        lemma_drop_trailing_underscores_prefix(s.drop_last());
        let r = drop_trailing_underscores(s);
        assert(s.drop_last() =~= s.take(s.len() - 1));
        assert(s.take(s.len() - 1).take(r.len() as int) =~= s.take(r.len() as int));
    } else {
        assert(s.take(s.len() as int) =~= s);
    }
}

/// The normalized form of a description contains no whitespace and no marker,
/// and is never longer than the input.
pub proof fn lemma_normalize_clean(s: Seq<char>)
    ensures
        forall|k: int|
            0 <= k < normalize_spec(s).len() ==> !is_space(#[trigger] normalize_spec(s)[k]),
        !has_marker(normalize_spec(s)),
        normalize_spec(s).len() <= s.len(),
{
    let t = drop_trailing_spaces(drop_leading_spaces(s));
    let c = collapse_spaces(t);
    let i = first_marker_index(c);
    lemma_collapse_no_space(t);
    lemma_first_marker_index_props(c);
    lemma_drop_leading_len(s);
    lemma_drop_trailing_len(drop_leading_spaces(s));
    if i == c.len() {
        if has_marker(c) {
            let j = choose|j: int| marker_at(c, j);
            assert(j + 4 <= c.len());
            assert(0 <= j < i);
            assert(!marker_at(c, j));
        }
    } else {
        let p = c.take(i);
        lemma_drop_trailing_underscores_prefix(p);
        let r = drop_trailing_underscores(p);
        assert(r == p.take(r.len() as int));
        assert(p.take(r.len() as int) =~= c.take(r.len() as int));
        assert forall|k: int| 0 <= k < r.len() implies !is_space(#[trigger] r[k]) by {
            assert(r[k] == c[k]);
        }
        if has_marker(r) {
            let j = choose|j: int| marker_at(r, j);
            assert(r == c.take(r.len() as int));
            lemma_marker_in_prefix(c, r.len() as int, j);
            assert(j + 4 <= r.len() <= i);
            assert(!marker_at(c, j));
        }
    }
}

/// Normalization is idempotent: normalizing a normalized token changes nothing.
pub proof fn lemma_normalize_idempotent(s: Seq<char>)
    ensures
        normalize_spec(normalize_spec(s)) == normalize_spec(s),
{
    let r = normalize_spec(s);
    lemma_normalize_clean(s);
    lemma_space_free_fixed(r);
    lemma_first_marker_index_props(r);
    if first_marker_index(r) < r.len() {
        assert(marker_at(r, first_marker_index(r)));
        assert(has_marker(r));
    }
}

/// Whether `c` is one of the whitespace characters the normalizer folds away.
pub fn is_space_exec(c: char) -> (r: bool)
    ensures
        r == is_space(c),
{
    c == ' ' || c == '\t' || c == '\r' || c == '\n'
}

proof fn lemma_drop_leading_window(s: Seq<char>, start: int)
    requires
        0 <= start <= s.len(),
        forall|k: int| 0 <= k < start ==> is_space(#[trigger] s[k]),
        start < s.len() ==> !is_space(s[start]),
    ensures
        drop_leading_spaces(s) == s.subrange(start, s.len() as int),
    decreases s.len(),
{
    if start == 0 {
        assert(s.subrange(0, s.len() as int) =~= s);
    } else {
        let t = s.drop_first();
        assert forall|k: int| 0 <= k < start - 1 implies is_space(#[trigger] t[k]) by {
            assert(t[k] == s[k + 1]);
        }
        if start - 1 < t.len() {
            assert(t[start - 1] == s[start]);
        }
        lemma_drop_leading_window(t, start - 1);
        assert(t.subrange(start - 1, t.len() as int) =~= s.subrange(start, s.len() as int));
    }
}

proof fn lemma_drop_trailing_window(s: Seq<char>, end: int)
    requires
        0 <= end <= s.len(),
        forall|k: int| end <= k < s.len() ==> is_space(#[trigger] s[k]),
        0 < end ==> !is_space(s[end - 1]),
    ensures
        drop_trailing_spaces(s) == s.subrange(0, end),
    decreases s.len(),
{
    if end == s.len() {
        assert(s.subrange(0, end) =~= s);
    } else {
        let t = s.drop_last();
        assert(is_space(s.last()));
        assert forall|k: int| end <= k < t.len() implies is_space(#[trigger] t[k]) by {
            assert(t[k] == s[k]);
        }
        if 0 < end {
            assert(t[end - 1] == s[end - 1]);
        }
        lemma_drop_trailing_window(t, end);
        assert(t.subrange(0, end) =~= s.subrange(0, end));
    }
}

/// Normalizes a raw description into an account-name token.
pub fn normalize(raw: &str) -> (r: String)
    ensures
        r@ == normalize_spec(raw@),
{
    let s = str_to_chars(raw);
    let n = s.len();

    // trim: find the first and last non-whitespace positions
    let mut start: usize = 0;
    while start < n && is_space_exec(s[start])
        invariant
            start <= n,
            n == s@.len(),
            forall|k: int| 0 <= k < start ==> is_space(#[trigger] s@[k]),
        decreases n - start,
    {
        start = start + 1;
    }
    let mut end: usize = n;
    while end > start && is_space_exec(s[end - 1])
        invariant
            start <= end <= n,
            n == s@.len(),
            forall|k: int| end <= k < n ==> is_space(#[trigger] s@[k]),
        decreases end,
    {
        end = end - 1;
    }
    let ghost t = drop_trailing_spaces(drop_leading_spaces(s@));
    proof {
        lemma_drop_leading_window(s@, start as int);
        let s2 = s@.subrange(start as int, n as int);
        assert forall|k: int| end - start <= k < s2.len() implies is_space(#[trigger] s2[k]) by {
            assert(s2[k] == s@[k + start]);
        }
        if end > start {
            assert(s2[end - start - 1] == s@[end - 1]);
        }
        lemma_drop_trailing_window(s2, end - start);
        assert(s2.subrange(0, end - start) =~= s@.subrange(start as int, end as int));
        assert(t == s@.subrange(start as int, end as int));
    }

    // collapse whitespace runs between start and end into single underscores
    let mut c: Vec<char> = Vec::new();
    let mut i: usize = start;
    proof {
        assert(c@ + collapse_spaces(s@.subrange(start as int, end as int)) =~= collapse_spaces(t));
    }
    while i < end
        invariant
            start <= i <= end <= n,
            n == s@.len(),
            t == s@.subrange(start as int, end as int),
            c@ + collapse_spaces(s@.subrange(i as int, end as int)) == collapse_spaces(t),
        decreases end - i,
    {
        let ghost cpre = c@;
        let ghost rest = s@.subrange(i as int, end as int);
        proof {
            assert(rest[0] == s@[i as int]);
        }
        if is_space_exec(s[i]) {
            c.push('_');
            let ghost before = i as int;
            while i < end && is_space_exec(s[i])
                invariant
                    start <= before <= i as int <= end <= n,
                    n == s@.len(),
                    drop_leading_spaces(s@.subrange(before, end as int)) == drop_leading_spaces(
                        s@.subrange(i as int, end as int),
                    ),
                decreases end - i,
            {
                proof {
                    let cur = s@.subrange(i as int, end as int);
                    assert(cur[0] == s@[i as int]);
                    assert(cur.drop_first() =~= s@.subrange(i + 1, end as int));
                }
                i = i + 1;
            }
            proof {
                let cur = s@.subrange(i as int, end as int);
                if i < end {
                    assert(cur[0] == s@[i as int]);
                }
                assert(drop_leading_spaces(cur) == cur);
                assert(collapse_spaces(rest) == seq!['_'] + collapse_spaces(cur));
                assert(c@ == cpre.push('_'));
                assert(cpre.push('_') + collapse_spaces(cur) =~= cpre + (seq!['_']
                    + collapse_spaces(cur)));
            }
        } else {
            c.push(s[i]);
            proof {
                assert(rest.drop_first() =~= s@.subrange(i + 1, end as int));
                assert(collapse_spaces(rest) == seq![s@[i as int]] + collapse_spaces(
                    rest.drop_first(),
                ));
                assert(cpre.push(s@[i as int]) + collapse_spaces(rest.drop_first()) =~= cpre + (
                seq![s@[i as int]] + collapse_spaces(rest.drop_first())));
            }
            i = i + 1;
        }
    }
    proof {
        assert(s@.subrange(end as int, end as int) =~= Seq::<char>::empty());
        assert(c@ + Seq::<char>::empty() =~= c@);
    }
    let ghost cv = collapse_spaces(t);
    assert(c@ == cv);

    // cut everything from the first marker occurrence onward
    let clen = c.len();
    let mut pos: usize = 0;
    let mut found: bool = false;
    while pos < clen && !found
        invariant
            pos <= clen,
            clen == c@.len(),
            c@ == cv,
            !found ==> forall|j: int| 0 <= j < pos ==> !marker_at(cv, j),
            found ==> marker_at(cv, pos as int) && forall|j: int| 0 <= j < pos ==> !marker_at(
                cv,
                j,
            ),
        decreases clen - pos + (if found {
            0int
        } else {
            1int
        }),
    {
        if clen - pos >= 4 && c[pos] == 'D' && c[pos + 1] == 'a' && c[pos + 2] == 't' && c[pos + 3]
            == 'o' {
            proof {
                assert(cv.subrange(pos as int, pos + 4) =~= marker());
            }
            found = true;
        } else {
            proof {
                if marker_at(cv, pos as int) {
                    assert(cv.subrange(pos as int, pos + 4)[0] == cv[pos as int]);
                    assert(cv.subrange(pos as int, pos + 4)[1] == cv[pos + 1]);
                    assert(cv.subrange(pos as int, pos + 4)[2] == cv[pos + 2]);
                    assert(cv.subrange(pos as int, pos + 4)[3] == cv[pos + 3]);
                }
            }
            pos = pos + 1;
        }
    }
    proof {
        lemma_first_marker_index_props(cv);
        if found {
            assert(first_marker_index(cv) == pos as int);
        } else {
            if first_marker_index(cv) < cv.len() {
                assert(marker_at(cv, first_marker_index(cv)));
            }
            assert(first_marker_index(cv) == cv.len());
        }
    }
    if found {
        c.truncate(pos);
        proof {
            assert(c@ =~= cv.take(pos as int));
        }
        // drop the separators the cut left dangling
        loop
            invariant
                drop_trailing_underscores(c@) == drop_trailing_underscores(cv.take(pos as int)),
            ensures
                drop_trailing_underscores(c@) == drop_trailing_underscores(cv.take(pos as int)),
                c@.len() == 0 || c@.last() != '_',
            decreases c@.len(),
        {
            if c.len() == 0 {
                break ;
            }
            if c[c.len() - 1] != '_' {
                break ;
            }
            c.pop();
        }
        proof {
            assert(drop_trailing_underscores(c@) == c@);
        }
    }
    string_from_chars(&c)
}

} // verus!
