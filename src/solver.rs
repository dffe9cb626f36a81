use vstd::prelude::*;
use vstd::slice::slice_subrange;
use crate::reagent::{copy_strings, strs, is_negation, Reagent, ReagentView, views, marker_is_negation, negated_name};
use crate::combinator::{
    contains_marker, apply_markers, apply_all, no_negations, lemma_apply_keeps_plain,
    lemma_plain_of_plain, plain_markers, Combinator,
};
use crate::frontier::{Frontier, queue_entries, queue_new, queue_push, queue_pop};

verus! {

/// Some reagent of the pool holds a negation marker that cancels `m`.
pub open spec fn pool_negates(pool: Seq<ReagentView>, m: Seq<char>) -> bool {
    exists|i: int, k: int|
        0 <= i < pool.len() && 0 <= k < pool[i].atoms.len() && is_negation(
            #[trigger] pool[i].atoms[k],
        ) && pool[i].atoms[k].drop_first() == m
}

/// A marker may take part in reaching the target: it is a negation marker, it
/// occurs in the target, or some reagent of the pool can cancel it.
pub open spec fn marker_justified(
    target: Seq<Seq<char>>,
    pool: Seq<ReagentView>,
    m: Seq<char>,
) -> bool {
    is_negation(m) || target.contains(m) || pool_negates(pool, m)
}

/// Every marker of the reagent is justified against the pool.
pub open spec fn reagent_kept(
    target: Seq<Seq<char>>,
    pool: Seq<ReagentView>,
    r: ReagentView,
) -> bool {
    forall|k: int| 0 <= k < r.atoms.len() ==> marker_justified(target, pool, #[trigger] r.atoms[k])
}

/// The reagents of `s` that one pass over `pool` keeps, in order.
pub open spec fn kept_in_pass(
    target: Seq<Seq<char>>,
    pool: Seq<ReagentView>,
    s: Seq<ReagentView>,
) -> Seq<ReagentView>
    decreases s.len(),
{
    if s.len() == 0 {
        s
    } else if reagent_kept(target, pool, s.last()) {
        kept_in_pass(target, pool, s.drop_last()).push(s.last())
    } else {
        kept_in_pass(target, pool, s.drop_last())
    }
}

/// The reagents of `s` that one pass over `pool` removes, in order.
pub open spec fn dropped_in_pass(
    target: Seq<Seq<char>>,
    pool: Seq<ReagentView>,
    s: Seq<ReagentView>,
) -> Seq<ReagentView>
    decreases s.len(),
{
    if s.len() == 0 {
        s
    } else if reagent_kept(target, pool, s.last()) {
        dropped_in_pass(target, pool, s.drop_last())
    } else {
        dropped_in_pass(target, pool, s.drop_last()).push(s.last())
    }
}

/// The pool after filtering passes are repeated until one removes nothing.
pub open spec fn filtered(target: Seq<Seq<char>>, pool: Seq<ReagentView>) -> Seq<ReagentView>
    decreases pool.len(),
{
    let next = kept_in_pass(target, pool, pool);
    if next.len() < pool.len() {
        filtered(target, next)
    } else {
        pool
    }
}

/// The reagents that the repeated passes remove, pass by pass, in order.
pub open spec fn removed(target: Seq<Seq<char>>, pool: Seq<ReagentView>) -> Seq<ReagentView>
    decreases pool.len(),
{
    let next = kept_in_pass(target, pool, pool);
    if next.len() < pool.len() {
        dropped_in_pass(target, pool, pool) + removed(target, next)
    } else {
        Seq::empty()
    }
}

/// Whether some reagent of the pool holds a negation marker that cancels `m`.
fn pool_has_negation_of(pool: &Vec<Reagent>, m: &String) -> (r: bool)
    ensures
        r == pool_negates(views(pool@), m@),
{
    let ghost vp = views(pool@);
    let mut i: usize = 0;
    while i < pool.len()
        invariant
            i <= pool@.len(),
            vp == views(pool@),
            forall|a: int, k: int|
                0 <= a < i && 0 <= k < vp[a].atoms.len() ==> !(is_negation(
                    #[trigger] vp[a].atoms[k],
                ) && vp[a].atoms[k].drop_first() == m@),
        decreases pool@.len() - i,
    {
        let atoms = &pool[i].atoms;
        let mut k: usize = 0;
        while k < atoms.len()
            invariant
                i < pool@.len(),
                k <= atoms@.len(),
                atoms == pool@[i as int].atoms,
                vp == views(pool@),
                forall|a: int, k: int|
                    0 <= a < i && 0 <= k < vp[a].atoms.len() ==> !(is_negation(
                        #[trigger] vp[a].atoms[k],
                    ) && vp[a].atoms[k].drop_first() == m@),
                forall|j: int|
                    0 <= j < k ==> !(is_negation(#[trigger] vp[i as int].atoms[j])
                        && vp[i as int].atoms[j].drop_first() == m@),
            decreases atoms@.len() - k,
        {
            assert(vp[i as int].atoms[k as int] == atoms@[k as int]@);
            if marker_is_negation(&atoms[k]) {
                let name = negated_name(&atoms[k]);
                if name == *m {
                    assert(is_negation(vp[i as int].atoms[k as int]));
                    return true;
                }
            }
            k += 1;
        }
        i += 1;
    }
    false
}

/// Whether every marker of `r` is justified against the target and the pool.
fn is_useful(target: &Vec<String>, pool: &Vec<Reagent>, r: &Reagent) -> (b: bool)
    ensures
        b == reagent_kept(strs(target@), views(pool@), r@),
{
    let mut k: usize = 0;
    while k < r.atoms.len()
        invariant
            k <= r.atoms@.len(),
            forall|j: int|
                0 <= j < k ==> marker_justified(strs(target@), views(pool@), #[trigger] r@.atoms[j]),
        decreases r.atoms@.len() - k,
    {
        let m = &r.atoms[k];
        assert(r@.atoms[k as int] == m@);
        if !marker_is_negation(m) && !contains_marker(target, m) && !pool_has_negation_of(pool, m) {
            return false;
        }
        k += 1;
    }
    true
}

/// One filtering pass: the reagents of the pool that are kept, and those removed.
fn filter_pass(target: &Vec<String>, pool: &Vec<Reagent>) -> (r: (Vec<Reagent>, Vec<Reagent>))
    ensures
        views(r.0@) == kept_in_pass(strs(target@), views(pool@), views(pool@)),
        views(r.1@) == dropped_in_pass(strs(target@), views(pool@), views(pool@)),
{
    let ghost t = strs(target@);
    let ghost vp = views(pool@);
    let mut kept: Vec<Reagent> = Vec::new();
    let mut dropped: Vec<Reagent> = Vec::new();
    let mut i: usize = 0;
    while i < pool.len()
        invariant
            i <= pool@.len(),
            t == strs(target@),
            vp == views(pool@),
            views(kept@) == kept_in_pass(t, vp, vp.take(i as int)),
            views(dropped@) == dropped_in_pass(t, vp, vp.take(i as int)),
        decreases pool@.len() - i,
    {
        let ghost s = vp.take(i as int + 1);
        proof {
            assert(s.drop_last() =~= vp.take(i as int));
            assert(s.last() == pool@[i as int]@);
        }
        let r = pool[i].duplicate();
        if is_useful(target, pool, &pool[i]) {
            kept.push(r);
            assert(views(kept@) =~= kept_in_pass(t, vp, vp.take(i as int)).push(r@));
            assert(views(dropped@) =~= dropped_in_pass(t, vp, vp.take(i as int)));
        } else {
            dropped.push(r);
            assert(views(dropped@) =~= dropped_in_pass(t, vp, vp.take(i as int)).push(r@));
            assert(views(kept@) =~= kept_in_pass(t, vp, vp.take(i as int)));
        }
        i += 1;
    }
    assert(vp.take(pool@.len() as int) =~= vp);
    (kept, dropped)
}

/// Removes the reagents that can never help to reach the target, repeating
/// the pass until it removes nothing. Returns the reagents kept and those
/// removed, each in pool order.
pub fn filter_useless_reagents(exitus: &Reagent, reagents: &Vec<Reagent>) -> (r: (
    Vec<Reagent>,
    Vec<Reagent>,
))
    ensures
        views(r.0@) == filtered(exitus@.atoms, views(reagents@)),
        views(r.1@) == removed(exitus@.atoms, views(reagents@)),
{
    let ghost t = exitus@.atoms;
    let ghost start = views(reagents@);
    let mut pool = copy_reagents(reagents);
    let mut gone: Vec<Reagent> = Vec::new();
    assert(views(gone@) + removed(t, views(pool@)) =~= removed(t, start));
    loop
        invariant
            t == exitus@.atoms,
            start == views(reagents@),
            filtered(t, views(pool@)) == filtered(t, start),
            views(gone@) + removed(t, views(pool@)) == removed(t, start),
        decreases pool@.len(),
    {
        let ghost before = views(pool@);
        let (kept, mut dropped) = filter_pass(&exitus.atoms, &pool);
        if kept.len() < pool.len() {
            let ghost g = views(gone@);
            let ghost d = views(dropped@);
            gone.append(&mut dropped);
            assert(views(gone@) =~= g + d);
            pool = kept;
            assert(removed(t, before) == d + removed(t, views(pool@)));
            assert(g + d + removed(t, views(pool@)) =~= g + (d + removed(t, views(pool@))));
        } else {
            assert(views(kept@).len() == kept@.len());
            assert(filtered(t, before) == before);
            assert(removed(t, before) =~= Seq::<ReagentView>::empty());
            assert(views(gone@) + Seq::<ReagentView>::empty() =~= views(gone@));
            return (pool, gone);
        }
    }
}

/// A copy of a list of reagents.
pub fn copy_reagents(v: &Vec<Reagent>) -> (r: Vec<Reagent>)
    ensures
        views(r@) == views(v@),
{
    let mut r: Vec<Reagent> = Vec::new();
    let mut i: usize = 0;
    while i < v.len()
        invariant
            i <= v@.len(),
            views(r@) == views(v@).take(i as int),
        decreases v@.len() - i,
    {
        let d = v[i].duplicate();
        r.push(d);
        assert(views(r@) =~= views(v@).take(i as int).push(v@[i as int]@));
        i += 1;
        assert(views(r@) =~= views(v@).take(i as int));
    }
    assert(views(v@).take(v@.len() as int) =~= views(v@));
    r
}

/// `t` occurs in `s` as a contiguous run, in order.
pub open spec fn contains_slice(s: Seq<Seq<char>>, t: Seq<Seq<char>>) -> bool {
    exists|i: int| 0 <= i && i + t.len() <= s.len() && #[trigger] s.subrange(i, i + t.len()) == t
}

/// Starting from a prefix of length `j`, the length of the prefix of the target
/// reached by lengthening it one marker at a time while the reagent's markers
/// still contain it.
pub open spec fn prefix_score_from(atoms: Seq<Seq<char>>, target: Seq<Seq<char>>, j: nat) -> nat
    decreases target.len() - j,
{
    if j < target.len() && contains_slice(atoms, target.take(j + 1 as int)) {
        prefix_score_from(atoms, target, j + 1)
    } else {
        j
    }
}

/// The start score of a reagent's markers against the target.
pub open spec fn prefix_score(atoms: Seq<Seq<char>>, target: Seq<Seq<char>>) -> nat {
    prefix_score_from(atoms, target, 0)
}

/// The score a reagent carries, zero when it has none.
pub open spec fn score_of(r: ReagentView) -> nat {
    match r.score {
        Some(s) => s as nat,
        None => 0,
    }
}

/// `x` inserted into a list sorted by descending score, after every element
/// whose score is at least its own.
pub open spec fn insert_by_score(s: Seq<ReagentView>, x: ReagentView) -> Seq<ReagentView>
    decreases s.len(),
{
    if s.len() == 0 {
        seq![x]
    } else if score_of(s.last()) >= score_of(x) {
        s.push(x)
    } else {
        insert_by_score(s.drop_last(), x).push(s.last())
    }
}

/// The viable starts of a pool: each reagent with a positive start score,
/// annotated with it, best first, ties in pool order.
pub open spec fn viable_starts(target: Seq<Seq<char>>, pool: Seq<ReagentView>) -> Seq<ReagentView>
    decreases pool.len(),
{
    if pool.len() == 0 {
        Seq::empty()
    } else {
        let rest = viable_starts(target, pool.drop_last());
        let r = pool.last();
        let score = prefix_score(r.atoms, target);
        if score > 0 {
            insert_by_score(rest, ReagentView { score: Some(score as usize), ..r })
        } else {
            rest
        }
    }
}

/// Whether `slice` occurs in `sequence` as a contiguous run, in order.
pub fn contains_ordered_slice(sequence: &[String], slice: &[String]) -> (r: bool)
    ensures
        r == contains_slice(strs(sequence@), strs(slice@)),
{
    let l = slice.len();
    let n = sequence.len();
    if l > n {
        return false;
    }
    let ghost s = strs(sequence@);
    let ghost t = strs(slice@);
    let mut i: usize = 0;
    while i <= n - l
        invariant
            l == slice@.len(),
            l <= sequence@.len(),
            n == sequence@.len(),
            s == strs(sequence@),
            t == strs(slice@),
            forall|a: int| 0 <= a < i ==> #[trigger] s.subrange(a, a + l) != t,
            i <= sequence@.len() - l + 1,
        decreases sequence@.len() - l + 1 - i,
    {
        let mut k: usize = 0;
        while k < l && sequence[i + k] == slice[k]
            invariant
                l == slice@.len(),
                i + l <= n,
                n == sequence@.len(),
                k <= l,
                s == strs(sequence@),
                t == strs(slice@),
                forall|b: int| 0 <= b < k ==> s[i + b] == t[b],
            decreases l - k,
        {
            k += 1;
        }
        if k == l {
            assert(s.subrange(i as int, i + l) =~= t);
            return true;
        }
        assert(s.subrange(i as int, i + l)[k as int] != t[k as int]);
        if i == n - l {
            assert forall|a: int| 0 <= a <= i implies #[trigger] s.subrange(a, a + l) != t by {}
            proof {
                if contains_slice(s, t) {
                    let a = choose|a: int| 0 <= a && a + t.len() <= s.len() && #[trigger] s.subrange(a, a + t.len()) == t;
                    assert(s.subrange(a, a + l) == t);
                }
            }
            return false;
        }
        i += 1;
    }
    false
}

/// The length of the longest prefix of the target that the markers contain
/// as a contiguous run, found by lengthening the prefix one marker at a time.
pub fn start_score(atoms: &Vec<String>, target: &Vec<String>) -> (r: usize)
    ensures
        r as nat == prefix_score(strs(atoms@), strs(target@)),
        r <= target@.len(),
{
    let ghost a = strs(atoms@);
    let ghost t = strs(target@);
    let mut j: usize = 0;
    while j < target.len() && contains_ordered_slice(
        atoms.as_slice(),
        slice_subrange(target.as_slice(), 0, j + 1),
    )
        invariant
            j <= target@.len(),
            a == strs(atoms@),
            t == strs(target@),
            prefix_score_from(a, t, j as nat) == prefix_score(a, t),
        decreases target@.len() - j,
    {
        proof {
            assert(strs(target@.subrange(0, j + 1)) =~= t.take(j + 1));
        }
        j += 1;
    }
    proof {
        if j < target@.len() {
            assert(strs(target@.subrange(0, j + 1)) =~= t.take(j + 1));
        }
    }
    j
}

/// The score a reagent carries, zero when it has none.
fn score_value(r: &Reagent) -> (s: usize)
    ensures
        s as nat == score_of(r@),
{
    match r.score {
        Some(s) => s,
        None => 0,
    }
}

/// Inserts `x` into a list sorted by descending score, after every element
/// whose score is at least its own.
fn insert_sorted(v: &mut Vec<Reagent>, x: Reagent)
    requires
        x.score is Some,
    ensures
        views(final(v)@) == insert_by_score(views(old(v)@), x@),
{
    let xs = score_value(&x);
    let ghost s = views(v@);
    let mut p: usize = v.len();
    assert(s.take(p as int) =~= s);
    assert(insert_by_score(s, x@) + s.skip(p as int) =~= insert_by_score(s, x@));
    while p > 0 && score_value(&v[p - 1]) < xs
        invariant
            p <= v@.len(),
            s == views(v@),
            v@ == old(v)@,
            xs as nat == score_of(x@),
            insert_by_score(s, x@) == insert_by_score(s.take(p as int), x@) + s.skip(p as int),
        decreases p,
    {
        proof {
            let tp = s.take(p as int);
            assert(tp.drop_last() =~= s.take(p - 1));
            assert(tp.last() == s[p - 1]);
            assert(insert_by_score(s.take(p as int), x@) == insert_by_score(s.take(p - 1), x@).push(s[p - 1]));
            assert(insert_by_score(s.take(p - 1), x@).push(s[p - 1]) + s.skip(p as int) =~= insert_by_score(s.take(p - 1), x@) + s.skip(p - 1));
        }
        p -= 1;
    }
    proof {
        if p > 0 {
            let tp = s.take(p as int);
            assert(tp.last() == s[p - 1]);
            assert(insert_by_score(tp, x@) == tp.push(x@));
        } else {
            assert(insert_by_score(s.take(0), x@) == seq![x@]);
        }
    }
    v.insert(p, x);
    assert(views(v@) =~= s.take(p as int).push(x@) + s.skip(p as int));
}

/// The reagents that can start a path: each reagent whose markers contain a
/// non-empty prefix of the target as a contiguous run, annotated with the
/// length of the longest such prefix, best first, ties in pool order.
pub fn get_viable_start_reagents(exitus: &Reagent, reagents: &[Reagent]) -> (r: Vec<Reagent>)
    ensures
        views(r@) == viable_starts(exitus@.atoms, views(reagents@)),
{
    let ghost vp = views(reagents@);
    let mut starts: Vec<Reagent> = Vec::new();
    let mut i: usize = 0;
    while i < reagents.len()
        invariant
            i <= reagents@.len(),
            vp == views(reagents@),
            views(starts@) == viable_starts(exitus@.atoms, vp.take(i as int)),
        decreases reagents@.len() - i,
    {
        proof {
            let tp = vp.take(i as int + 1);
            assert(tp.drop_last() =~= vp.take(i as int));
            assert(tp.last() == reagents@[i as int]@);
        }
        let reagent = &reagents[i];
        let score = start_score(&reagent.atoms, &exitus.atoms);
        if score > 0 {
            let start = Reagent {
                score: Some(score),
                name: reagent.name.clone(),
                atoms: copy_strings(reagent.atoms.as_slice()),
            };
            assert(start@ == (ReagentView { score: Some(score), ..reagent@ }));
            insert_sorted(&mut starts, start);
        }
        i += 1;
    }
    assert(vp.take(reagents@.len() as int) =~= vp);
    starts
}

/// The deepest path the search explores.
pub const MAX_DEPTH: usize = 15;

/// The most states the search expands.
pub const MAX_EXPANSIONS: usize = 2500;

/// Heuristic scores are scaled by this common multiple of every depth up to
/// sixteen, so that the reward `3 / depth` is a whole number there.
pub const SCORE_SCALE: i128 = 720720;

/// The heuristic walk over the first `n` markers of `seq`: the accumulated
/// score and the misalignment offset.
pub open spec fn heuristic_walk(
    seq: Seq<Seq<char>>,
    target: Seq<Seq<char>>,
    depth: int,
    n: int,
) -> (int, int)
    decreases n,
{
    if n <= 0 {
        (0, 0)
    } else {
        let (score, offset) = heuristic_walk(seq, target, depth, n - 1);
        let i = n - 1;
        if i <= target.len() && i - offset < target.len() && seq[i] == target[i - offset] {
            (score + 3 * SCORE_SCALE / depth, offset)
        } else {
            (score - depth * SCORE_SCALE, offset + 1)
        }
    }
}

/// The heuristic score of a sequence against the target at a depth.
pub open spec fn heuristic_score(seq: Seq<Seq<char>>, target: Seq<Seq<char>>, depth: int) -> int {
    heuristic_walk(seq, target, depth, seq.len() as int).0
}

proof fn lemma_walk_bounds(seq: Seq<Seq<char>>, target: Seq<Seq<char>>, depth: int, n: int)
    requires
        1 <= depth,
        0 <= n,
    ensures
        0 <= heuristic_walk(seq, target, depth, n).1 <= n,
        -n * depth * SCORE_SCALE <= heuristic_walk(seq, target, depth, n).0 <= n * 3 * SCORE_SCALE,
    decreases n,
{
    if n > 0 {
        lemma_walk_bounds(seq, target, depth, n - 1);
        assert(3 * SCORE_SCALE / depth <= 3 * SCORE_SCALE) by (nonlinear_arith)
            requires
                1 <= depth,
        ;
        assert(n * 3 * SCORE_SCALE == (n - 1) * 3 * SCORE_SCALE + 3 * SCORE_SCALE) by (nonlinear_arith);
        assert(-n * depth * SCORE_SCALE == -(n - 1) * depth * SCORE_SCALE - depth * SCORE_SCALE) by (nonlinear_arith);
    }
}

/// Scores a sequence against the target at a search depth, higher being more
/// promising: walking the sequence with a misalignment offset, a marker equal
/// to the target's marker at its shifted position earns `3 / depth`, any other
/// costs `depth` and shifts the comparison by one. The score is returned
/// multiplied by `SCORE_SCALE` and rounded down.
pub fn heuristic(sequence: &Vec<String>, target: &Vec<String>, depth: usize) -> (r: i128)
    requires
        1 <= depth <= u32::MAX,
    ensures
        r == heuristic_score(strs(sequence@), strs(target@), depth as int),
{
    let ghost s = strs(sequence@);
    let ghost t = strs(target@);
    let d = depth as i128;
    let reward: i128 = 3 * SCORE_SCALE / d;
    let penalty: i128 = d * SCORE_SCALE;
    let mut score: i128 = 0;
    let mut offset: usize = 0;
    let mut i: usize = 0;
    while i < sequence.len()
        invariant
            i <= sequence@.len(),
            1 <= depth <= u32::MAX,
            d == depth as int,
            reward == 3 * SCORE_SCALE / (d as int),
            penalty == (d as int) * SCORE_SCALE,
            s == strs(sequence@),
            t == strs(target@),
            (score as int, offset as int) == heuristic_walk(s, t, d as int, i as int),
        decreases sequence@.len() - i,
    {
        proof {
            lemma_walk_bounds(s, t, d as int, i as int);
            lemma_walk_bounds(s, t, d as int, i + 1);
            assert(i * 3 * SCORE_SCALE <= 0x1_0000_0000_0000_0000 * 3 * SCORE_SCALE) by (nonlinear_arith)
                requires
                    i <= 0x1_0000_0000_0000_0000int,
            ;
            assert(i * d * SCORE_SCALE <= 0x1_0000_0000_0000_0000 * u32::MAX * SCORE_SCALE) by (nonlinear_arith)
                requires
                    i <= 0x1_0000_0000_0000_0000int,
                    1 <= d <= u32::MAX,
            ;
            assert(-i * d * SCORE_SCALE == -(i * d * SCORE_SCALE)) by (nonlinear_arith);
            assert(score >= -(0x1_0000_0000_0000_0000 * u32::MAX * SCORE_SCALE));
            assert(d * SCORE_SCALE <= u32::MAX * SCORE_SCALE) by (nonlinear_arith)
                requires
                    1 <= d <= u32::MAX,
            ;
        }
        if i <= target.len() && i - offset < target.len() && sequence[i] == target[i - offset] {
            score = score + reward;
        } else {
            score = score - penalty;
            offset = offset + 1;
        }
        i += 1;
    }
    score
}

/// The marker lists of a route: the start, then the pool reagents at `idx`.
pub open spec fn route_lists(
    start: ReagentView,
    pool: Seq<ReagentView>,
    idx: Seq<int>,
) -> Seq<Seq<Seq<char>>> {
    seq![start.atoms] + idx.map_values(|i: int| pool[i].atoms)
}

/// The reagent names of a route: the start, then the pool reagents at `idx`.
pub open spec fn route_names(start: ReagentView, pool: Seq<ReagentView>, idx: Seq<int>) -> Seq<
    Seq<char>,
> {
    seq![start.name] + idx.map_values(|i: int| pool[i].name)
}

/// Every index of the route names a reagent of the pool.
pub open spec fn in_pool(pool: Seq<ReagentView>, idx: Seq<int>) -> bool {
    forall|k: int| 0 <= k < idx.len() ==> 0 <= #[trigger] idx[k] < pool.len()
}

/// `path` names the start followed by reagents of the pool whose markers,
/// applied in order to an empty sequence, give `seq`.
pub open spec fn route_gives(
    start: ReagentView,
    pool: Seq<ReagentView>,
    path: Seq<Seq<char>>,
    seq: Seq<Seq<char>>,
) -> bool {
    exists|idx: Seq<int>|
        in_pool(pool, idx) && #[trigger] route_names(start, pool, idx) == path && apply_all(
            Seq::empty(),
            route_lists(start, pool, idx),
        ) == seq
}

/// The sequence the start reagent gives alone.
pub open spec fn start_sequence(start: ReagentView) -> Seq<Seq<char>> {
    apply_markers(Seq::empty(), start.atoms)
}

/// Pool reagent `j` differs in name from the start and, applied after it,
/// gives the target.
pub open spec fn finishes_start(
    target: Seq<Seq<char>>,
    start: ReagentView,
    pool: Seq<ReagentView>,
    j: int,
) -> bool {
    0 <= j < pool.len() && pool[j].name != start.name && apply_markers(
        start_sequence(start),
        pool[j].atoms,
    ) == target
}

/// Pool reagent `j` is the first that finishes the start.
pub open spec fn first_finisher(
    target: Seq<Seq<char>>,
    start: ReagentView,
    pool: Seq<ReagentView>,
    j: int,
) -> bool {
    finishes_start(target, start, pool, j) && forall|k: int|
        0 <= k < j ==> !#[trigger] finishes_start(target, start, pool, k)
}

proof fn lemma_route_push(start: ReagentView, pool: Seq<ReagentView>, idx: Seq<int>, j: int)
    requires
        in_pool(pool, idx),
        0 <= j < pool.len(),
    ensures
        in_pool(pool, idx.push(j)),
        route_lists(start, pool, idx.push(j)) == route_lists(start, pool, idx).push(pool[j].atoms),
        route_names(start, pool, idx.push(j)) == route_names(start, pool, idx).push(pool[j].name),
        apply_all(Seq::empty(), route_lists(start, pool, idx.push(j))) == apply_markers(
            apply_all(Seq::empty(), route_lists(start, pool, idx)),
            pool[j].atoms,
        ),
{
    assert(route_lists(start, pool, idx.push(j)) =~= route_lists(start, pool, idx).push(
        pool[j].atoms,
    ));
    assert(route_names(start, pool, idx.push(j)) =~= route_names(start, pool, idx).push(
        pool[j].name,
    ));
    assert(route_lists(start, pool, idx.push(j)).drop_last() =~= route_lists(start, pool, idx));
}

pub proof fn lemma_apply_all_plain(lists: Seq<Seq<Seq<char>>>)
    ensures
        no_negations(apply_all(Seq::empty(), lists)),
    decreases lists.len(),
{
    if lists.len() > 0 {
        lemma_apply_all_plain(lists.drop_last());
        lemma_apply_keeps_plain(apply_all(Seq::empty(), lists.drop_last()), lists.last());
    }
}

proof fn lemma_start_route(start: ReagentView, pool: Seq<ReagentView>)
    ensures
        route_lists(start, pool, Seq::empty()) == seq![start.atoms],
        route_names(start, pool, Seq::empty()) == seq![start.name],
        apply_all(Seq::empty(), seq![start.atoms]) == start_sequence(start),
{
    assert(route_lists(start, pool, Seq::empty()) =~= seq![start.atoms]);
    assert(route_names(start, pool, Seq::empty()) =~= seq![start.name]);
    assert(seq![start.atoms].drop_last() =~= Seq::<Seq<Seq<char>>>::empty());
    assert(apply_all(Seq::empty(), Seq::<Seq<Seq<char>>>::empty()) == Seq::<Seq<char>>::empty());
}

/// Whether two marker lists are equal.
pub fn same_markers(a: &Vec<String>, b: &Vec<String>) -> (r: bool)
    ensures
        r == (strs(a@) == strs(b@)),
{
    if a.len() != b.len() {
        assert(strs(a@).len() != strs(b@).len());
        return false;
    }
    let mut i: usize = 0;
    while i < a.len()
        invariant
            i <= a@.len(),
            a@.len() == b@.len(),
            forall|k: int| 0 <= k < i ==> a@[k]@ == b@[k]@,
        decreases a@.len() - i,
    {
        let same = a[i] == b[i];
        if !same {
            assert(strs(a@)[i as int] != strs(b@)[i as int]);
            return false;
        }
        i += 1;
    }
    assert(strs(a@) =~= strs(b@));
    true
}

/// A state of the search: the sequence reached and the path that reached it.
struct SearchState {
    sequence: Vec<String>,
    path: Vec<String>,
}

/// Every stored state is reached by its path, as witnessed by `wit`.
spec fn states_valid(
    states: Seq<SearchState>,
    wit: Seq<Seq<int>>,
    start: ReagentView,
    pool: Seq<ReagentView>,
) -> bool {
    &&& wit.len() == states.len()
    &&& forall|k: int|
        0 <= k < states.len() ==> {
            &&& in_pool(pool, #[trigger] wit[k])
            &&& strs(states[k].path@) == route_names(start, pool, wit[k])
            &&& strs(states[k].sequence@) == apply_all(Seq::empty(), route_lists(start, pool, wit[k]))
        }
}

/// Best-first search for a path from `start` to the target, expanding at most
/// `max_expansions` states and no path of `max_depth` reagents or more.
/// Returns the path found, if any, and the number of states expanded.
pub fn priority_search_bounded(
    exitus: &Reagent,
    start: &Reagent,
    reagents: &[Reagent],
    max_depth: usize,
    max_expansions: usize,
) -> (r: (Option<Vec<String>>, usize))
    requires
        max_depth <= u32::MAX,
    ensures
        r.1 <= max_expansions,
        r.0 is Some ==> 1 <= r.0->Some_0@.len() <= max_depth && route_gives(
            start@,
            views(reagents@),
            strs(r.0->Some_0@),
            exitus@.atoms,
        ),
        1 <= max_depth && start_sequence(start@) == exitus@.atoms ==> r.0 is Some && strs(
            r.0->Some_0@,
        ) == seq![start@.name],
        forall|j: int|
            #![trigger first_finisher(exitus@.atoms, start@, views(reagents@), j)]
            first_finisher(exitus@.atoms, start@, views(reagents@), j) && 2 <= max_depth && 1
                <= max_expansions && start_sequence(start@) != exitus@.atoms ==> r.0 is Some && strs(
                r.0->Some_0@,
            ) == seq![start@.name, views(reagents@)[j].name],
{
    let ghost target = exitus@.atoms;
    let ghost pool = views(reagents@);
    let ghost sv = start@;
    let mut combinator = Combinator::new();
    let first = combinator.add_reagent(start);
    proof {
        assert(route_lists(sv, pool, Seq::empty()) =~= seq![sv.atoms]);
        assert(route_names(sv, pool, Seq::empty()) =~= seq![sv.name]);
        lemma_start_route(sv, pool);
        assert(combinator.path() =~= seq![sv.name]);
    }
    if 1 <= max_depth && same_markers(&combinator.sequence, &exitus.atoms) {
        assert(in_pool(pool, Seq::empty()));
        assert(route_names(sv, pool, Seq::empty()) == strs(combinator.reagent_path@));
        let path = copy_strings(combinator.reagent_path.as_slice());
        return (Some(path), 0);
    }
    let mut states: Vec<SearchState> = Vec::new();
    let mut path0: Vec<String> = Vec::new();
    path0.push(start.name.clone());
    assert(strs(path0@) =~= seq![sv.name]);
    let priority0 = heuristic(&first, &exitus.atoms, 1);
    states.push(SearchState { sequence: first, path: path0 });
    let ghost mut wit: Seq<Seq<int>> = seq![Seq::<int>::empty()];
    let mut queue: Frontier = queue_new();
    queue_push(&mut queue, 0, priority0);
    assert(queue_entries(queue).dom() =~= set![0usize]);
    let mut expansions: usize = 0;
    loop
        invariant
            target == exitus@.atoms,
            pool == views(reagents@),
            sv == start@,
            max_depth <= u32::MAX,
            expansions <= max_expansions || expansions == 0,
            states@.len() >= 1,
            states_valid(states@, wit, sv, pool),
            strs(states@[0].path@) == seq![sv.name],
            strs(states@[0].sequence@) == start_sequence(sv),
            forall|key: usize| #[trigger] queue_entries(queue).contains_key(key) ==> key < states@.len(),
            expansions == 0 ==> queue_entries(queue).dom() == set![0usize],
            1 <= max_depth && start_sequence(sv) == target ==> false,
            expansions > 0 && 2 <= max_depth ==> forall|j: int| !#[trigger] finishes_start(target, sv, pool, j),
        decreases max_expansions - expansions,
    {
        if expansions >= max_expansions {
            return (None, expansions);
        }
        let popped = queue_pop(&mut queue);
        let current: usize = match popped {
            None => {
                assert(expansions > 0) by {
                    if expansions == 0 {
                        assert(set![0usize].contains(0usize));
                    }
                }
                return (None, expansions);
            },
            Some((item, _)) => item,
        };
        proof {
            if expansions == 0 {
                assert(set![0usize].contains(current));
            }
        }
        let cur_sequence = copy_strings(states[current].sequence.as_slice());
        let cur_path = copy_strings(states[current].path.as_slice());
        let ghost cur_wit = wit[current as int];
        if cur_path.len() >= max_depth {
            return (None, expansions);
        }
        proof {
            lemma_apply_all_plain(route_lists(sv, pool, cur_wit));
            lemma_plain_of_plain(strs(cur_sequence@));
            assert(strs(cur_path@).len() >= 1);
        }
        let prev_name = &cur_path[cur_path.len() - 1];
        let mut j: usize = 0;
        while j < reagents.len()
            invariant
                target == exitus@.atoms,
                pool == views(reagents@),
                sv == start@,
                max_depth <= u32::MAX,
                expansions < max_expansions,
                1 <= cur_path@.len() < max_depth,
                j <= reagents@.len(),
                states@.len() >= 1,
                states_valid(states@, wit, sv, pool),
                strs(states@[0].path@) == seq![sv.name],
                strs(states@[0].sequence@) == start_sequence(sv),
                forall|key: usize| #[trigger] queue_entries(queue).contains_key(key) ==> key < states@.len(),
                in_pool(pool, cur_wit),
                strs(cur_path@) == route_names(sv, pool, cur_wit),
                strs(cur_sequence@) == apply_all(Seq::empty(), route_lists(sv, pool, cur_wit)),
                plain_markers(strs(cur_sequence@)) == strs(cur_sequence@),
                prev_name@ == strs(cur_path@).last(),
                1 <= max_depth && start_sequence(sv) == target ==> false,
                expansions > 0 && 2 <= max_depth ==> forall|k: int| !#[trigger] finishes_start(target, sv, pool, k),
                expansions == 0 ==> cur_wit == Seq::<int>::empty(),
                expansions == 0 && 2 <= max_depth ==> forall|k: int| 0 <= k < j ==> !#[trigger] finishes_start(target, sv, pool, k),
            decreases reagents@.len() - j,
        {
            let reagent = &reagents[j];
            assert(pool[j as int] == reagent@);
            let same_name = reagent.name == *prev_name;
            if !same_name {
                combinator.reset(cur_sequence.as_slice(), cur_path.as_slice());
                let new_sequence = combinator.add_reagent(reagent);
                proof {
                    lemma_route_push(sv, pool, cur_wit, j as int);
                }
                if same_markers(&combinator.sequence, &exitus.atoms) {
                    let found = copy_strings(combinator.reagent_path.as_slice());
                    proof {
                        let w = cur_wit.push(j as int);
                        assert(route_names(sv, pool, w) == strs(found@));
                        assert(apply_all(Seq::empty(), route_lists(sv, pool, w)) == target);
                        if expansions == 0 {
                            lemma_start_route(sv, pool);
                            assert(finishes_start(target, sv, pool, j as int));
                            assert(strs(found@) =~= seq![sv.name, pool[j as int].name]);
                        }
                    }
                    return (Some(found), expansions + 1);
                }
                proof {
                    if expansions == 0 {
                        lemma_start_route(sv, pool);
                        assert(!finishes_start(target, sv, pool, j as int));
                    }
                    assert(combinator.reagent_path@.len() == combinator.path().len());
                }
                let depth = combinator.reagent_path.len();
                let priority = heuristic(&combinator.sequence, &exitus.atoms, depth);
                let new_path = copy_strings(combinator.reagent_path.as_slice());
                let key = states.len();
                states.push(SearchState { sequence: new_sequence, path: new_path });
                proof {
                    wit = wit.push(cur_wit.push(j as int));
                }
                queue_push(&mut queue, key, priority);
            } else {
                proof {
                    if expansions == 0 {
                        lemma_start_route(sv, pool);
                        assert(!finishes_start(target, sv, pool, j as int));
                    }
                }
            }
            j += 1;
        }
        expansions += 1;
    }
}

/// Best-first search for a path from `start` to the target within
/// `MAX_DEPTH` reagents and `MAX_EXPANSIONS` expanded states.
pub fn priority_search(exitus: &Reagent, start: &Reagent, reagents: &[Reagent]) -> (r: Option<
    Vec<String>,
>)
    ensures
        r is Some ==> 1 <= r->Some_0@.len() <= MAX_DEPTH && route_gives(
            start@,
            views(reagents@),
            strs(r->Some_0@),
            exitus@.atoms,
        ),
        start_sequence(start@) == exitus@.atoms ==> r is Some && strs(r->Some_0@) == seq![
            start@.name,
        ],
        forall|j: int|
            #![trigger first_finisher(exitus@.atoms, start@, views(reagents@), j)]
            first_finisher(exitus@.atoms, start@, views(reagents@), j) && start_sequence(start@)
                != exitus@.atoms ==> r is Some && strs(r->Some_0@) == seq![
                start@.name,
                views(reagents@)[j].name,
            ],
{
    let (path, _) = priority_search_bounded(exitus, start, reagents, MAX_DEPTH, MAX_EXPANSIONS);
    path
}

/// What the search starts from: the pool after filtering, the reagents that
/// filtering removed, and the viable starts of the filtered pool.
pub struct SearchPlan {
    pub kept: Vec<Reagent>,
    pub removed: Vec<Reagent>,
    pub starts: Vec<Reagent>,
}

/// Filters the pool and selects the viable starts, ready for one search per
/// start; there is nothing to search when `starts` is empty.
pub fn plan_search(exitus: &Reagent, reagents: &Vec<Reagent>) -> (r: SearchPlan)
    ensures
        views(r.kept@) == filtered(exitus@.atoms, views(reagents@)),
        views(r.removed@) == removed(exitus@.atoms, views(reagents@)),
        views(r.starts@) == viable_starts(exitus@.atoms, filtered(exitus@.atoms, views(reagents@))),
{
    let (kept, removed) = filter_useless_reagents(exitus, reagents);
    let starts = get_viable_start_reagents(exitus, kept.as_slice());
    SearchPlan { kept, removed, starts }
}

} // verus!
