use vstd::prelude::*;
use crate::reagent::{is_negation, ReagentView};
use crate::combinator::{apply_all, plain_markers, lemma_plain_of_plain};
use crate::solver::{
    filtered, kept_in_pass, reagent_kept, contains_slice, prefix_score, prefix_score_from,
    lemma_apply_all_plain,
};

verus! {

/// Filtering a pool that is already filtered changes nothing.
pub proof fn lemma_filter_idempotent(target: Seq<Seq<char>>, pool: Seq<ReagentView>)
    ensures
        filtered(target, filtered(target, pool)) == filtered(target, pool),
    decreases pool.len(),
{
    let next = kept_in_pass(target, pool, pool);
    if next.len() < pool.len() {
        lemma_filter_idempotent(target, next);
    }
}

proof fn lemma_pass_keeps(
    target: Seq<Seq<char>>,
    pool: Seq<ReagentView>,
    s: Seq<ReagentView>,
    r: ReagentView,
)
    requires
        s.contains(r),
        reagent_kept(target, pool, r),
    ensures
        kept_in_pass(target, pool, s).contains(r),
    decreases s.len(),
{
    if s.last() == r {
        assert(kept_in_pass(target, pool, s).last() == r);
    } else {
        let k = choose|k: int| 0 <= k < s.len() && s[k] == r;
        assert(s.drop_last()[k] == r);
        lemma_pass_keeps(target, pool, s.drop_last(), r);
        let sub = kept_in_pass(target, pool, s.drop_last());
        let kk = choose|kk: int| 0 <= kk < sub.len() && sub[kk] == r;
        if reagent_kept(target, pool, s.last()) {
            assert(sub.push(s.last())[kk] == r);
        }
    }
}

/// A reagent of the pool whose every marker is a negation marker or occurs in
/// the target is never removed by filtering.
pub proof fn lemma_filter_keeps_target_reagents(
    target: Seq<Seq<char>>,
    pool: Seq<ReagentView>,
    r: ReagentView,
)
    requires
        pool.contains(r),
        forall|k: int|
            0 <= k < r.atoms.len() ==> is_negation(#[trigger] r.atoms[k]) || target.contains(
                r.atoms[k],
            ),
    ensures
        filtered(target, pool).contains(r),
    decreases pool.len(),
{
    let next = kept_in_pass(target, pool, pool);
    assert(reagent_kept(target, pool, r));
    lemma_pass_keeps(target, pool, pool, r);
    if next.len() < pool.len() {
        lemma_filter_keeps_target_reagents(target, next, r);
    }
}

proof fn lemma_shorter_prefix(atoms: Seq<Seq<char>>, target: Seq<Seq<char>>, i: int, j: int)
    requires
        0 <= i <= j <= target.len(),
        contains_slice(atoms, target.take(j)),
    ensures
        contains_slice(atoms, target.take(i)),
{
    let t = target.take(j);
    let a = choose|a: int| 0 <= a && a + t.len() <= atoms.len() && #[trigger] atoms.subrange(a, a + t.len()) == t;
    assert(atoms.subrange(a, a + i) =~= target.take(i));
}

proof fn lemma_score_from(atoms: Seq<Seq<char>>, target: Seq<Seq<char>>, j: nat)
    requires
        j <= target.len(),
        contains_slice(atoms, target.take(j as int)),
    ensures
        j <= prefix_score_from(atoms, target, j) <= target.len(),
        contains_slice(atoms, target.take(prefix_score_from(atoms, target, j) as int)),
        prefix_score_from(atoms, target, j) < target.len() ==> !contains_slice(
            atoms,
            target.take(prefix_score_from(atoms, target, j) + 1int),
        ),
    decreases target.len() - j,
{
    if j < target.len() && contains_slice(atoms, target.take(j + 1 as int)) {
        lemma_score_from(atoms, target, j + 1);
    }
}

/// The start score of a reagent is the length of the longest prefix of the
/// target that its markers contain as a contiguous run.
pub proof fn lemma_start_score_is_longest_prefix(atoms: Seq<Seq<char>>, target: Seq<Seq<char>>)
    ensures
        prefix_score(atoms, target) <= target.len(),
        contains_slice(atoms, target.take(prefix_score(atoms, target) as int)),
        forall|j: int|
            prefix_score(atoms, target) < j <= target.len() ==> !contains_slice(
                atoms,
                #[trigger] target.take(j),
            ),
{
    assert(atoms.subrange(0int, 0int + target.take(0).len()) =~= target.take(0));
    lemma_score_from(atoms, target, 0);
    let s = prefix_score(atoms, target);
    assert forall|j: int| s < j <= target.len() implies !contains_slice(
        atoms,
        #[trigger] target.take(j),
    ) by {
        if contains_slice(atoms, target.take(j)) {
            lemma_shorter_prefix(atoms, target, s + 1int, j);
        }
    }
}

/// Re-seeding a combinator with a sequence that a list of reagents produced
/// from nothing keeps that sequence, and replaying the same reagents from an
/// empty reset reproduces it.
pub proof fn lemma_reset_replay(lists: Seq<Seq<Seq<char>>>)
    ensures
        plain_markers(apply_all(Seq::empty(), lists)) == apply_all(Seq::empty(), lists),
        apply_all(plain_markers(Seq::empty()), lists) == apply_all(Seq::empty(), lists),
{
    lemma_apply_all_plain(lists);
    lemma_plain_of_plain(apply_all(Seq::empty(), lists));
    lemma_plain_of_plain(Seq::empty());
}

} // verus!
