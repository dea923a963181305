//! Levenshtein edit distance between two strings, measured over logical
//! characters, together with the laws the clusterer depends on.

use vstd::prelude::*;

verus! {

/// Least of three naturals.
pub open spec fn min3(a: nat, b: nat, c: nat) -> nat {
    if a <= b && a <= c {
        a
    } else if b <= c {
        b
    } else {
        c
    }
}

/// Levenshtein distance: the minimum number of single-character insertions,
/// deletions and substitutions that transforms `a` into `b`.
pub open spec fn lev(a: Seq<char>, b: Seq<char>) -> nat
    decreases a.len() + b.len(),
{
    if a.len() == 0 {
        b.len()
    } else if b.len() == 0 {
        a.len()
    } else {
        let del = lev(a.drop_last(), b) + 1;
        let ins = lev(a, b.drop_last()) + 1;
        let sub = lev(a.drop_last(), b.drop_last()) + (if a.last() == b.last() {
            0nat
        } else {
            1nat
        });
        min3(del, ins, sub)
    }
}

/// A string is at distance zero from itself.
pub proof fn lemma_lev_self(a: Seq<char>)
    ensures
        lev(a, a) == 0,
    decreases a.len(),
{
    if a.len() > 0 {
        lemma_lev_self(a.drop_last());
    }
}

/// Edit distance is symmetric.
pub proof fn lemma_lev_symmetric(a: Seq<char>, b: Seq<char>)
    ensures
        lev(a, b) == lev(b, a),
    decreases a.len() + b.len(),
{
    if a.len() > 0 && b.len() > 0 {
        lemma_lev_symmetric(a.drop_last(), b);
        lemma_lev_symmetric(a, b.drop_last());
        lemma_lev_symmetric(a.drop_last(), b.drop_last());
    }
}

/// Edit distance never exceeds the length of the longer string.
pub proof fn lemma_lev_le_max(a: Seq<char>, b: Seq<char>)
    ensures
        lev(a, b) <= a.len() || lev(a, b) <= b.len(),
        lev(a, b) <= a.len() + b.len(),
    decreases a.len() + b.len(),
{
    if a.len() > 0 && b.len() > 0 {
        lemma_lev_le_max(a.drop_last(), b);
        lemma_lev_le_max(a, b.drop_last());
        lemma_lev_le_max(a.drop_last(), b.drop_last());
    }
}

/// Edit distance is at least the difference of the two lengths.
pub proof fn lemma_lev_ge_len_diff(a: Seq<char>, b: Seq<char>)
    ensures
        lev(a, b) >= a.len() - b.len(),
        lev(a, b) >= b.len() - a.len(),
    decreases a.len() + b.len(),
{
    if a.len() > 0 && b.len() > 0 {
        lemma_lev_ge_len_diff(a.drop_last(), b);
        lemma_lev_ge_len_diff(a, b.drop_last());
        lemma_lev_ge_len_diff(a.drop_last(), b.drop_last());
    }
}

/// Dropping the last character of one side changes the distance by at most one.
pub proof fn lemma_lev_drop_last(a: Seq<char>, b: Seq<char>)
    requires
        b.len() > 0,
    ensures
        lev(a, b) <= lev(a, b.drop_last()) + 1,
        lev(a, b.drop_last()) <= lev(a, b) + 1,
    decreases a.len() + b.len(),
{
    let b1 = b.drop_last();
    if a.len() == 0 {
    } else if b.len() == 1 {
        lemma_lev_ge_len_diff(a, b);
        assert(b1.len() == 0);
    } else {
        let a1 = a.drop_last();
        lemma_lev_drop_last(a1, b);
        // the deletion branch of lev(a, b1)
        assert(lev(a, b1) <= lev(a1, b1) + 1);
        assert(lev(a1, b1) <= lev(a1, b) + 1);
        let dab = lev(a1, b) + 1;
        let iab = lev(a, b1) + 1;
        let sab = lev(a1, b1) + (if a.last() == b.last() {
            0nat
        } else {
            1nat
        });
        assert(lev(a, b) == min3(dab, iab, sab));
        assert(lev(a, b1) <= dab + 1);
        assert(lev(a, b1) <= iab + 1);
        assert(lev(a, b1) <= sab + 1);
    }
}

/// The triangle inequality: editing `a` into `b` and `b` into `c` never beats
/// editing `a` into `c` directly.
pub proof fn lemma_lev_triangle(a: Seq<char>, b: Seq<char>, c: Seq<char>)
    ensures
        lev(a, c) <= lev(a, b) + lev(b, c),
    decreases a.len() + b.len() + c.len(),
{
    if b.len() == 0 {
        lemma_lev_le_max(a, c);
    } else if a.len() == 0 {
        lemma_lev_ge_len_diff(b, c);
    } else if c.len() == 0 {
        lemma_lev_ge_len_diff(a, b);
    } else {
        let a1 = a.drop_last();
        let b1 = b.drop_last();
        let c1 = c.drop_last();

        // dropping the last character of either side of lev(a, c), lev(b, c)
        lemma_lev_symmetric(a, c);
        lemma_lev_symmetric(a1, c);
        lemma_lev_drop_last(c, a);
        lemma_lev_drop_last(a, c);
        lemma_lev_symmetric(b, c);
        lemma_lev_symmetric(b1, c);
        lemma_lev_drop_last(c, b);

        let cost_ab: nat = if a.last() == b.last() {
            0nat
        } else {
            1nat
        };
        let dab = lev(a1, b) + 1;
        let iab = lev(a, b1) + 1;
        let sab = lev(a1, b1) + cost_ab;
        assert(lev(a, b) == min3(dab, iab, sab));

        if lev(a, b) == dab {
            lemma_lev_triangle(a1, b, c);
            assert(lev(a, c) <= lev(a1, c) + 1);
        } else if lev(a, b) == iab {
            lemma_lev_triangle(a, b1, c);
            assert(lev(b1, c) <= lev(b, c) + 1);
        } else {
            assert(lev(a, b) == sab);
            let cost_bc: nat = if b.last() == c.last() {
                0nat
            } else {
                1nat
            };
            let dbc = lev(b1, c) + 1;
            let ibc = lev(b, c1) + 1;
            let sbc = lev(b1, c1) + cost_bc;
            assert(lev(b, c) == min3(dbc, ibc, sbc));
            if lev(b, c) == dbc {
                lemma_lev_triangle(a1, b1, c);
                assert(lev(a, c) <= lev(a1, c) + 1);
                assert(lev(a1, b1) <= sab);
            } else if lev(b, c) == ibc {
                lemma_lev_triangle(a, b, c1);
                assert(lev(a, c) <= lev(a, c1) + 1);
            } else {
                assert(lev(b, c) == sbc);
                lemma_lev_triangle(a1, b1, c1);
                let cost_ac: nat = if a.last() == c.last() {
                    0nat
                } else {
                    1nat
                };
                // the substitution branch of lev(a, c)
                assert(lev(a, c) <= lev(a1, c1) + cost_ac);
                assert(cost_ac <= cost_ab + cost_bc);
            }
        }
    }
}

/// Copies the characters of a string slice into a vector, in order.
pub fn str_to_chars(s: &str) -> (r: Vec<char>)
    ensures
        r@ == s@,
{
    let n = s.unicode_len();
    let mut r: Vec<char> = Vec::new();
    let mut i: usize = 0;
    while i < n
        invariant
            i <= n,
            n == s@.len(),
            r@ == s@.take(i as int),
        decreases n - i,
    {
        r.push(s.get_char(i));
        proof {
            assert(s@.take(i as int).push(s@[i as int]) =~= s@.take(i + 1));
        }
        i = i + 1;
    }
    proof {
        assert(s@.take(n as int) =~= s@);
    }
    r
}

/// Levenshtein distance between `s1` and `s2`, computed with the classic
/// dynamic program over prefixes, kept two rows at a time.
pub fn levenshtein_distance(s1: &str, s2: &str) -> (d: usize)
    requires
        s1@.len() < usize::MAX,
        s2@.len() < usize::MAX,
    ensures
        d == lev(s1@, s2@),
{
    let a = str_to_chars(s1);
    let b = str_to_chars(s2);
    let m = a.len();
    let n = b.len();

    // prev[j] == lev of the first i characters of a and the first j of b
    let mut prev: Vec<usize> = Vec::new();
    let mut j: usize = 0;
    while j <= n
        invariant
            j <= n + 1,
            n == b@.len(),
            n < usize::MAX,
            a@ == s1@,
            b@ == s2@,
            prev@.len() == j,
            forall|jj: int| 0 <= jj < j ==> prev@[jj] == lev(a@.take(0), b@.take(jj)),
        decreases n + 1 - j,
    {
        prev.push(j);
        proof {
            assert(b@.take(j as int).len() == j);
        }
        j = j + 1;
    }

    let mut i: usize = 0;
    while i < m
        invariant
            i <= m,
            m == a@.len(),
            n == b@.len(),
            m < usize::MAX,
            n < usize::MAX,
            a@ == s1@,
            b@ == s2@,
            prev@.len() == n + 1,
            forall|jj: int| 0 <= jj <= n ==> prev@[jj] == lev(a@.take(i as int), b@.take(jj)),
        decreases m - i,
    {
        let mut curr: Vec<usize> = Vec::new();
        curr.push(i + 1);
        proof {
            assert(a@.take(i + 1).len() == i + 1);
            assert(b@.take(0).len() == 0);
        }
        let mut j: usize = 0;
        while j < n
            invariant
                j <= n,
                i < m,
                m == a@.len(),
                n == b@.len(),
                m < usize::MAX,
                n < usize::MAX,
                a@ == s1@,
                b@ == s2@,
                prev@.len() == n + 1,
                forall|jj: int| 0 <= jj <= n ==> prev@[jj] == lev(a@.take(i as int), b@.take(jj)),
                curr@.len() == j + 1,
                forall|jj: int| 0 <= jj <= j ==> curr@[jj] == lev(a@.take(i + 1), b@.take(jj)),
            decreases n - j,
        {
            let cost: usize = if a[i] == b[j] {
                0
            } else {
                1
            };
            proof {
                lemma_lev_le_max(a@.take(i as int), b@.take(j + 1));
                lemma_lev_le_max(a@.take(i + 1), b@.take(j as int));
                lemma_lev_le_max(a@.take(i as int), b@.take(j as int));
            }
            let del = prev[j + 1] + 1;
            let ins = curr[j] + 1;
            let sub = prev[j] + cost;
            let mut best = del;
            if ins < best {
                best = ins;
            }
            if sub < best {
                best = sub;
            }
            proof {
                assert(a@.take(i + 1).drop_last() =~= a@.take(i as int));
                assert(b@.take(j + 1).drop_last() =~= b@.take(j as int));
                assert(a@.take(i + 1).last() == a@[i as int]);
                assert(b@.take(j + 1).last() == b@[j as int]);
                assert(best == lev(a@.take(i + 1), b@.take(j + 1)));
            }
            curr.push(best);
            j = j + 1;
        }
        prev = curr;
        i = i + 1;
    }
    proof {
        assert(a@.take(m as int) =~= a@);
        assert(b@.take(n as int) =~= b@);
    }
    prev[n]
}

} // verus!
