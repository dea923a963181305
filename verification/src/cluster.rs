//! Greedy single-link clustering of payee tokens: each token joins the first
//! group, in creation order, that already holds a member within the edit
//! distance threshold, and otherwise founds a new group.  The first member of
//! a group is its canonical representative.

use vstd::prelude::*;
use vstd::multiset::Multiset;
use crate::distance::{lev, levenshtein_distance};

verus! {

/// The views of a sequence of strings.
pub open spec fn views(ss: Seq<String>) -> Seq<Seq<char>> {
    Seq::new(ss.len(), |i: int| ss[i]@)
}

/// The views of a sequence of groups of strings.
pub open spec fn group_views(gs: Seq<Vec<String>>) -> Seq<Seq<Seq<char>>> {
    Seq::new(gs.len(), |i: int| views(gs[i]@))
}

/// Some member of `group` is within distance `thr` of `t`.
pub open spec fn group_accepts(group: Seq<Seq<char>>, t: Seq<char>, thr: nat) -> bool {
    exists|k: int| 0 <= k < group.len() && lev(t, #[trigger] group[k]) <= thr
}

/// Index of the first group that accepts `t`, or `groups.len()` if none does.
pub open spec fn first_accepting(groups: Seq<Seq<Seq<char>>>, t: Seq<char>, thr: nat) -> int
    decreases groups.len(),
{
    if groups.len() == 0 {
        0
    } else if group_accepts(groups[0], t, thr) {
        0
    } else {
        1 + first_accepting(groups.drop_first(), t, thr)
    }
}

/// One clustering step: `t` joins the first group that accepts it, or founds a
/// new group at the end.
pub open spec fn insert_token(groups: Seq<Seq<Seq<char>>>, t: Seq<char>, thr: nat) -> Seq<
    Seq<Seq<char>>,
> {
    let i = first_accepting(groups, t, thr);
    if i < groups.len() {
        groups.update(i, groups[i].push(t))
    } else {
        groups.push(seq![t])
    }
}

/// Greedy single-link clustering of `tokens`, in arrival order.
pub open spec fn cluster(tokens: Seq<Seq<char>>, thr: nat) -> Seq<Seq<Seq<char>>>
    decreases tokens.len(),
{
    if tokens.len() == 0 {
        Seq::empty()
    } else {
        insert_token(cluster(tokens.drop_last(), thr), tokens.last(), thr)
    }
}

/// Characterizes `first_accepting`: no earlier group accepts, and the index
/// either points at an accepting group or at the end.
pub proof fn lemma_first_accepting_props(groups: Seq<Seq<Seq<char>>>, t: Seq<char>, thr: nat)
    ensures
        0 <= first_accepting(groups, t, thr) <= groups.len(),
        forall|j: int| 0 <= j < first_accepting(groups, t, thr) ==> !group_accepts(groups[j], t, thr),
        first_accepting(groups, t, thr) < groups.len() ==> group_accepts(
            groups[first_accepting(groups, t, thr)],
            t,
            thr,
        ),
    decreases groups.len(),
{
    if groups.len() == 0 {
    } else if group_accepts(groups[0], t, thr) {
    } else {
        let rest = groups.drop_first();
        lemma_first_accepting_props(rest, t, thr);
        let f = first_accepting(groups, t, thr);
        assert forall|j: int| 0 <= j < f implies !group_accepts(groups[j], t, thr) by {
            if j > 0 {
                assert(rest[j - 1] == groups[j]);
            }
        }
        if f < groups.len() {
            assert(rest[f - 1] == groups[f]);
        }
    }
}

/// The canonical account token for `t`: the first member of the first group,
/// in creation order, that contains `t`; `t` itself if no group does.
pub open spec fn spec_canonical(groups: Seq<Seq<Seq<char>>>, t: Seq<char>) -> Seq<char>
    decreases groups.len(),
{
    if groups.len() == 0 {
        t
    } else if groups[0].contains(t) {
        groups[0][0]
    } else {
        spec_canonical(groups.drop_first(), t)
    }
}

proof fn lemma_canonical_at(groups: Seq<Seq<Seq<char>>>, t: Seq<char>, i: int)
    requires
        0 <= i < groups.len(),
        groups[i].contains(t),
        forall|j: int| 0 <= j < i ==> !groups[j].contains(t),
    ensures
        spec_canonical(groups, t) == groups[i][0],
    decreases groups.len(),
{
    if i == 0 {
    } else {
        let rest = groups.drop_first();
        assert(rest[i - 1] == groups[i]);
        assert forall|j: int| 0 <= j < i - 1 implies !rest[j].contains(t) by {
            assert(rest[j] == groups[j + 1]);
        }
        lemma_canonical_at(rest, t, i - 1);
    }
}

proof fn lemma_canonical_none(groups: Seq<Seq<Seq<char>>>, t: Seq<char>)
    requires
        forall|j: int| 0 <= j < groups.len() ==> !groups[j].contains(t),
    ensures
        spec_canonical(groups, t) == t,
    decreases groups.len(),
{
    if groups.len() > 0 {
        let rest = groups.drop_first();
        assert forall|j: int| 0 <= j < rest.len() implies !rest[j].contains(t) by {
            assert(rest[j] == groups[j + 1]);
        }
        lemma_canonical_none(rest, t);
    }
}

/// All member strings of `groups` are shorter than `usize::MAX` characters.
pub open spec fn groups_len_ok(gs: Seq<Seq<Seq<char>>>) -> bool {
    forall|g: int, k: int|
        0 <= g < gs.len() && 0 <= k < gs[g].len() ==> #[trigger] gs[g][k].len() < usize::MAX
}

/// Index of the first group holding a member within `threshold` of `t`.
fn find_group(groups: &Vec<Vec<String>>, t: &String, threshold: usize) -> (r: Option<usize>)
    requires
        t@.len() < usize::MAX,
        groups_len_ok(group_views(groups@)),
    ensures
        r matches Some(gi) ==> gi == first_accepting(group_views(groups@), t@, threshold as nat)
            && gi < groups@.len(),
        r is None ==> first_accepting(group_views(groups@), t@, threshold as nat)
            == groups@.len(),
{
    let ghost gv = group_views(groups@);
    let mut gi: usize = 0;
    while gi < groups.len()
        invariant
            gi <= groups@.len(),
            gv == group_views(groups@),
            t@.len() < usize::MAX,
            groups_len_ok(gv),
            forall|j: int| 0 <= j < gi ==> !group_accepts(gv[j], t@, threshold as nat),
        decreases groups@.len() - gi,
    {
        let group = &groups[gi];
        let mut k: usize = 0;
        while k < group.len()
            invariant
                k <= group@.len(),
                gi < groups@.len(),
                gv == group_views(groups@),
                group@ == groups@[gi as int]@,
                t@.len() < usize::MAX,
                groups_len_ok(gv),
                forall|j: int| 0 <= j < gi ==> !group_accepts(gv[j], t@, threshold as nat),
                forall|kk: int| 0 <= kk < k ==> lev(t@, #[trigger] gv[gi as int][kk]) > threshold,
            decreases group@.len() - k,
        {
            proof {
                assert(gv[gi as int][k as int] == group@[k as int]@);
            }
            let d = levenshtein_distance(t.as_str(), group[k].as_str());
            if d <= threshold {
                proof {
                    assert(lev(t@, gv[gi as int][k as int]) <= threshold as nat);
                    assert(group_accepts(gv[gi as int], t@, threshold as nat));
                    lemma_first_accepting_props(gv, t@, threshold as nat);
                    let fa = first_accepting(gv, t@, threshold as nat);
                    if fa < gi as int {
                        assert(!group_accepts(gv[fa], t@, threshold as nat));
                        assert(group_accepts(gv[fa], t@, threshold as nat));
                    }
                    if fa > gi as int {
                        assert(!group_accepts(gv[gi as int], t@, threshold as nat));
                    }
                }
                return Some(gi);
            }
            k = k + 1;
        }
        proof {
            assert(!group_accepts(gv[gi as int], t@, threshold as nat));
        }
        gi = gi + 1;
    }
    proof {
        lemma_first_accepting_props(gv, t@, threshold as nat);
    }
    None
}

/// Partitions `strings`, in arrival order, into greedy single-link groups:
/// a string joins the first group holding a member within `threshold` edits,
/// and otherwise founds a new group.
pub fn group_strings_by_levenshtein(strings: &[String], threshold: usize) -> (groups: Vec<
    Vec<String>,
>)
    requires
        forall|i: int| 0 <= i < strings@.len() ==> #[trigger] strings@[i]@.len() < usize::MAX,
    ensures
        group_views(groups@) == cluster(views(strings@), threshold as nat),
{
    let mut groups: Vec<Vec<String>> = Vec::new();
    let n = strings.len();
    let mut idx: usize = 0;
    proof {
        assert(views(strings@.take(0)) =~= Seq::<Seq<char>>::empty());
        assert(group_views(groups@) =~= Seq::<Seq<Seq<char>>>::empty());
    }
    while idx < n
        invariant
            idx <= n,
            n == strings@.len(),
            forall|i: int| 0 <= i < strings@.len() ==> #[trigger] strings@[i]@.len() < usize::MAX,
            group_views(groups@) == cluster(views(strings@.take(idx as int)), threshold as nat),
            groups_len_ok(group_views(groups@)),
        decreases n - idx,
    {
        let ghost pre = group_views(groups@);
        let t = &strings[idx];
        proof {
            let tk = views(strings@.take(idx + 1));
            assert(tk.drop_last() =~= views(strings@.take(idx as int)));
            assert(tk.last() == strings@[idx as int]@);
        }
        match find_group(&groups, t, threshold) {
            Some(gi) => {
                let member = t.clone();
                groups[gi].push(member);
                proof {
                    assert(group_views(groups@) =~~= pre.update(
                        gi as int,
                        pre[gi as int].push(t@),
                    ));
                    assert(group_views(groups@) =~~= insert_token(pre, t@, threshold as nat));
                }
            },
            None => {
                let mut fresh: Vec<String> = Vec::new();
                fresh.push(t.clone());
                groups.push(fresh);
                proof {
                    assert(views(groups@.last()@) =~= seq![t@]);
                    assert(group_views(groups@) =~~= pre.push(seq![t@]));
                    assert(group_views(groups@) =~~= insert_token(pre, t@, threshold as nat));
                }
            },
        }
        idx = idx + 1;
    }
    proof {
        assert(strings@.take(n as int) =~= strings@);
    }
    groups
}

/// The canonical account token for `token`: the first member of the first
/// group that contains it, or the token itself if no group does.
pub fn canonical_for(groups: &Vec<Vec<String>>, token: &String) -> (r: String)
    ensures
        r@ == spec_canonical(group_views(groups@), token@),
{
    let ghost gv = group_views(groups@);
    let mut gi: usize = 0;
    while gi < groups.len()
        invariant
            gi <= groups@.len(),
            gv == group_views(groups@),
            forall|j: int| 0 <= j < gi ==> !gv[j].contains(token@),
        decreases groups@.len() - gi,
    {
        let group = &groups[gi];
        let mut k: usize = 0;
        while k < group.len()
            invariant
                k <= group@.len(),
                gi < groups@.len(),
                gv == group_views(groups@),
                group@ == groups@[gi as int]@,
                forall|j: int| 0 <= j < gi ==> !gv[j].contains(token@),
                forall|kk: int| 0 <= kk < k ==> gv[gi as int][kk] != token@,
            decreases group@.len() - k,
        {
            proof {
                assert(gv[gi as int][k as int] == group@[k as int]@);
            }
            if group[k] == *token {
                proof {
                    assert(gv[gi as int].contains(token@));
                    lemma_canonical_at(gv, token@, gi as int);
                }
                return group[0].clone();
            }
            k = k + 1;
        }
        proof {
            if gv[gi as int].contains(token@) {
                let kk = choose|kk: int|
                    0 <= kk < gv[gi as int].len() && gv[gi as int][kk] == token@;
                assert(false);
            }
        }
        gi = gi + 1;
    }
    proof {
        lemma_canonical_none(gv, token@);
    }
    token.clone()
}

proof fn lemma_flatten_update_push(gs: Seq<Seq<Seq<char>>>, i: int, t: Seq<char>)
    requires
        0 <= i < gs.len(),
    ensures
        gs.update(i, gs[i].push(t)).flatten().to_multiset() =~= gs.flatten().to_multiset().insert(
            t,
        ),
    decreases gs.len(),
{
    broadcast use vstd::seq_lib::group_to_multiset_ensures;
    broadcast use vstd::multiset::group_multiset_axioms;

    let up = gs.update(i, gs[i].push(t));
    if i == 0 {
        assert(up.drop_first() =~= gs.drop_first());
        assert(up.flatten() == gs[0].push(t) + gs.drop_first().flatten());
        assert(gs.flatten() == gs[0] + gs.drop_first().flatten());
        vstd::seq_lib::lemma_multiset_commutative(gs[0].push(t), gs.drop_first().flatten());
        vstd::seq_lib::lemma_multiset_commutative(gs[0], gs.drop_first().flatten());
        assert(gs[0].push(t).to_multiset() =~= gs[0].to_multiset().insert(t));
    } else {
        assert(up.drop_first() =~= gs.drop_first().update(i - 1, gs.drop_first()[i - 1].push(t)));
        lemma_flatten_update_push(gs.drop_first(), i - 1, t);
        assert(up.flatten() == gs[0] + up.drop_first().flatten());
        assert(gs.flatten() == gs[0] + gs.drop_first().flatten());
        vstd::seq_lib::lemma_multiset_commutative(gs[0], up.drop_first().flatten());
        vstd::seq_lib::lemma_multiset_commutative(gs[0], gs.drop_first().flatten());
    }
}

/// The clusterer partitions the batch: the groups' members, concatenated, are
/// a permutation of the input tokens — every token lands in exactly one group
/// slot — and no group is ever empty.
pub proof fn lemma_cluster_partitions(tokens: Seq<Seq<char>>, thr: nat)
    ensures
        cluster(tokens, thr).flatten().to_multiset() =~= tokens.to_multiset(),
        forall|g: int|
            0 <= g < cluster(tokens, thr).len() ==> (#[trigger] cluster(tokens, thr)[g]).len() > 0,
    decreases tokens.len(),
{
    broadcast use vstd::seq_lib::group_to_multiset_ensures;
    broadcast use vstd::multiset::group_multiset_axioms;

    if tokens.len() == 0 {
        assert(cluster(tokens, thr).flatten() =~= Seq::<Seq<char>>::empty());
        assert(Seq::<Seq<char>>::empty().to_multiset() =~= tokens.to_multiset());
    } else {
        let rest = tokens.drop_last();
        let t = tokens.last();
        let pre = cluster(rest, thr);
        lemma_cluster_partitions(rest, thr);
        assert(rest.push(t) =~= tokens);
        assert(tokens.to_multiset() =~= rest.to_multiset().insert(t));
        let i = first_accepting(pre, t, thr);
        lemma_first_accepting_props(pre, t, thr);
        if i < pre.len() {
            lemma_flatten_update_push(pre, i, t);
        } else {
            pre.lemma_flatten_push(seq![t]);
            vstd::seq_lib::lemma_multiset_commutative(pre.flatten(), seq![t]);
            assert(seq![t] =~= Seq::<Seq<char>>::empty().push(t));
            assert(seq![t].to_multiset() =~= Multiset::<Seq<char>>::empty().insert(t));
        }
    }
}


} // verus!
