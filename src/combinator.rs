use vstd::prelude::*;
use crate::reagent::{strs, is_negation, Reagent, copy_strings, marker_is_negation, negated_name};

verus! {

/// The sequence with every occurrence of `x` taken out.
pub open spec fn without(s: Seq<Seq<char>>, x: Seq<char>) -> Seq<Seq<char>>
    decreases s.len(),
{
    if s.len() == 0 {
        s
    } else if s.last() == x {
        without(s.drop_last(), x)
    } else {
        without(s.drop_last(), x).push(s.last())
    }
}

/// The plain (non-negation) markers of a sequence, in order.
pub open spec fn plain_markers(s: Seq<Seq<char>>) -> Seq<Seq<char>> {
    s.filter(|a: Seq<char>| !is_negation(a))
}

proof fn lemma_without_push(s: Seq<Seq<char>>, e: Seq<char>, x: Seq<char>)
    ensures
        without(s.push(e), x) == if e != x { without(s, x).push(e) } else { without(s, x) },
{
    assert(s.push(e).drop_last() =~= s);
}

proof fn lemma_plain_push(s: Seq<Seq<char>>, e: Seq<char>)
    ensures
        plain_markers(s.push(e)) == if !is_negation(e) {
            plain_markers(s).push(e)
        } else {
            plain_markers(s)
        },
{
    s.lemma_filter_push(e, |a: Seq<char>| !is_negation(a));
}

/// The effect of one marker on a running sequence: a negation marker removes
/// the marker it names, any other marker is appended unless already present.
pub open spec fn apply_marker(s: Seq<Seq<char>>, m: Seq<char>) -> Seq<Seq<char>> {
    if is_negation(m) {
        without(s, m.drop_first())
    } else if s.contains(m) {
        s
    } else {
        s.push(m)
    }
}

/// The effect of a list of markers, applied in order, on a running sequence.
pub open spec fn apply_markers(s: Seq<Seq<char>>, ms: Seq<Seq<char>>) -> Seq<Seq<char>>
    decreases ms.len(),
{
    if ms.len() == 0 {
        s
    } else {
        apply_marker(apply_markers(s, ms.drop_last()), ms.last())
    }
}

/// The sequence obtained by applying the marker lists one after another.
pub open spec fn apply_all(s: Seq<Seq<char>>, lists: Seq<Seq<Seq<char>>>) -> Seq<Seq<char>>
    decreases lists.len(),
{
    if lists.len() == 0 {
        s
    } else {
        apply_markers(apply_all(s, lists.drop_last()), lists.last())
    }
}

/// No marker of the sequence is a negation marker.
pub open spec fn no_negations(s: Seq<Seq<char>>) -> bool {
    forall|k: int| 0 <= k < s.len() ==> !is_negation(#[trigger] s[k])
}

proof fn lemma_without_keeps_plain(s: Seq<Seq<char>>, x: Seq<char>)
    requires
        no_negations(s),
    ensures
        no_negations(without(s, x)),
    decreases s.len(),
{
    if s.len() > 0 {
        lemma_without_keeps_plain(s.drop_last(), x);
    }
}

/// Applying markers to a sequence without negation markers gives one without
/// negation markers.
pub proof fn lemma_apply_keeps_plain(s: Seq<Seq<char>>, ms: Seq<Seq<char>>)
    requires
        no_negations(s),
    ensures
        no_negations(apply_markers(s, ms)),
    decreases ms.len(),
{
    if ms.len() > 0 {
        let prev = apply_markers(s, ms.drop_last());
        lemma_apply_keeps_plain(s, ms.drop_last());
        if is_negation(ms.last()) {
            lemma_without_keeps_plain(prev, ms.last().drop_first());
        }
    }
}

/// The plain markers of a sequence without negation markers are the sequence.
pub proof fn lemma_plain_of_plain(s: Seq<Seq<char>>)
    requires
        no_negations(s),
    ensures
        plain_markers(s) == s,
    decreases s.len(),
{
    if s.len() > 0 {
        lemma_plain_of_plain(s.drop_last());
        lemma_plain_push(s.drop_last(), s.last());
        assert(s.drop_last().push(s.last()) =~= s);
    } else {
        assert(plain_markers(s) =~= s);
    }
}

/// The running effect sequence of a chosen ordered list of reagents.
#[derive(Clone, Debug)]
pub struct Combinator {
    pub sequence: Vec<String>,
    pub reagent_path: Vec<String>,
}

/// Whether the list holds a marker equal to `m`.
pub fn contains_marker(seq: &Vec<String>, m: &String) -> (r: bool)
    ensures
        r == strs(seq@).contains(m@),
{
    let mut i: usize = 0;
    while i < seq.len()
        invariant
            i <= seq@.len(),
            forall|k: int| 0 <= k < i ==> seq@[k]@ != m@,
        decreases seq@.len() - i,
    {
        if seq[i] == *m {
            assert(strs(seq@)[i as int] == m@);
            return true;
        }
        i += 1;
    }
    proof {
        if strs(seq@).contains(m@) {
            let k = choose|k: int| 0 <= k < strs(seq@).len() && strs(seq@)[k] == m@;
            assert(seq@[k]@ == m@);
        }
    }
    false
}

/// The list with every marker equal to `x` taken out.
pub fn remove_marker(seq: &Vec<String>, x: &String) -> (r: Vec<String>)
    ensures
        strs(r@) == without(strs(seq@), x@),
{
    let mut r: Vec<String> = Vec::new();
    let mut i: usize = 0;
    while i < seq.len()
        invariant
            i <= seq@.len(),
            strs(r@) == without(strs(seq@).take(i as int), x@),
        decreases seq@.len() - i,
    {
        let ghost t = strs(seq@).take(i as int + 1);
        proof {
            assert(t =~= strs(seq@).take(i as int).push(seq@[i as int]@));
            lemma_without_push(strs(seq@).take(i as int), seq@[i as int]@, x@);
        }
        let same = seq[i] == *x;
        proof {
            assert(t.len() > 0);
        }
        if !same {
            r.push(seq[i].clone());
            assert(strs(r@) =~= without(strs(seq@).take(i as int), x@).push(seq@[i as int]@));
        }
        i += 1;
    }
    assert(strs(seq@).take(seq@.len() as int) =~= strs(seq@));
    r
}

/// The plain markers of a list, in order.
pub fn keep_plain(seq: &[String]) -> (r: Vec<String>)
    ensures
        strs(r@) == plain_markers(strs(seq@)),
{
    let mut r: Vec<String> = Vec::new();
    let mut i: usize = 0;
    while i < seq.len()
        invariant
            i <= seq@.len(),
            strs(r@) == plain_markers(strs(seq@).take(i as int)),
        decreases seq@.len() - i,
    {
        let ghost t = strs(seq@).take(i as int + 1);
        proof {
            assert(t =~= strs(seq@).take(i as int).push(seq@[i as int]@));
            lemma_plain_push(strs(seq@).take(i as int), seq@[i as int]@);
        }
        let neg = marker_is_negation(&seq[i]);
        proof {
            assert(t.len() > 0);
        }
        if !neg {
            r.push(seq[i].clone());
            assert(strs(r@) =~= plain_markers(strs(seq@).take(i as int)).push(seq@[i as int]@));
        }
        i += 1;
    }
    assert(strs(seq@).take(seq@.len() as int) =~= strs(seq@));
    r
}

impl Combinator {
    /// The markers currently active.
    pub open spec fn markers(&self) -> Seq<Seq<char>> {
        strs(self.sequence@)
    }

    /// The names of the reagents applied so far.
    pub open spec fn path(&self) -> Seq<Seq<char>> {
        strs(self.reagent_path@)
    }

    /// A combinator with no markers and an empty path.
    pub fn new() -> (c: Combinator)
        ensures
            c.markers() == Seq::<Seq<char>>::empty(),
            c.path() == Seq::<Seq<char>>::empty(),
    {
        let c = Combinator { sequence: Vec::new(), reagent_path: Vec::new() };
        assert(c.markers() =~= Seq::<Seq<char>>::empty());
        assert(c.path() =~= Seq::<Seq<char>>::empty());
        c
    }

    /// Applies one more reagent: records its name on the path and applies its
    /// markers in order. Returns the resulting sequence.
    pub fn add_reagent(&mut self, reagent: &Reagent) -> (r: Vec<String>)
        ensures
            final(self).markers() == apply_markers(old(self).markers(), reagent.markers()),
            final(self).path() == old(self).path().push(reagent.name@),
            strs(r@) == final(self).markers(),
    {
        self.reagent_path.push(reagent.name.clone());
        proof {
            assert(self.path() =~= old(self).path().push(reagent.name@));
        }
        let ghost ms = reagent.markers();
        let mut i: usize = 0;
        while i < reagent.atoms.len()
            invariant
                i <= reagent.atoms@.len(),
                ms == reagent.markers(),
                self.path() == old(self).path().push(reagent.name@),
                self.markers() == apply_markers(old(self).markers(), ms.take(i as int)),
            decreases reagent.atoms@.len() - i,
        {
            proof {
                assert(ms.take(i as int + 1).drop_last() =~= ms.take(i as int));
            }
            let atom = &reagent.atoms[i];
            if marker_is_negation(atom) {
                let name = negated_name(atom);
                self.sequence = remove_marker(&self.sequence, &name);
            } else if !contains_marker(&self.sequence, atom) {
                self.sequence.push(atom.clone());
                assert(self.markers() =~= apply_markers(old(self).markers(), ms.take(i as int)).push(atom@));
            }
            i += 1;
        }
        assert(ms.take(ms.len() as int) =~= ms);
        copy_strings(self.sequence.as_slice())
    }

    /// Re-seeds the combinator: its sequence becomes the plain markers of
    /// `base_sequence` and its path a copy of `reagent_path`.
    pub fn reset(&mut self, base_sequence: &[String], reagent_path: &[String])
        ensures
            final(self).markers() == plain_markers(strs(base_sequence@)),
            final(self).path() == strs(reagent_path@),
    {
        self.sequence = keep_plain(base_sequence);
        self.reagent_path = copy_strings(reagent_path);
    }
}

} // verus!
