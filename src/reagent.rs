use vstd::prelude::*;
use vstd::string::StrSliceExecFns;

verus! {

/// The markers of a list of strings, as character sequences.
pub open spec fn strs(v: Seq<String>) -> Seq<Seq<char>> {
    v.map_values(|s: String| s@)
}

/// A marker that cancels the plain marker named by the rest of it.
pub open spec fn is_negation(m: Seq<char>) -> bool {
    m.len() > 0 && m[0] == '-'
}

/// An item with a name and an ordered list of effect markers.
#[derive(Clone, Debug, PartialEq, Eq)]
pub struct Reagent {
    /// Length of the target prefix this reagent produces alone, once it is
    /// selected as a start; `None` otherwise.
    pub score: Option<usize>,
    pub name: String,
    pub atoms: Vec<String>,
}

/// What a reagent is, as mathematical values.
pub struct ReagentView {
    pub name: Seq<char>,
    pub atoms: Seq<Seq<char>>,
    pub score: Option<usize>,
}

impl View for Reagent {
    type V = ReagentView;

    open spec fn view(&self) -> ReagentView {
        ReagentView { name: self.name@, atoms: self.markers(), score: self.score }
    }
}

/// The views of a list of reagents.
pub open spec fn views(v: Seq<Reagent>) -> Seq<ReagentView> {
    v.map_values(|r: Reagent| r@)
}

impl Reagent {
    /// The reagent's markers.
    pub open spec fn markers(&self) -> Seq<Seq<char>> {
        strs(self.atoms@)
    }

    /// Builds a reagent with no score.
    pub fn new(name: String, atoms: Vec<String>) -> (r: Reagent)
        ensures
            r.name == name,
            r.atoms == atoms,
            r.score is None,
    {
        Reagent { score: None, name, atoms }
    }

    /// A copy of the reagent with the same name, markers and score.
    pub fn duplicate(&self) -> (r: Reagent)
        ensures
            r@ == self@,
    {
        Reagent { score: self.score, name: self.name.clone(), atoms: copy_strings(self.atoms.as_slice()) }
    }
}

/// A copy of a list of strings.
pub fn copy_strings(v: &[String]) -> (r: Vec<String>)
    ensures
        r@ == v@,
{
    let mut r: Vec<String> = Vec::new();
    let mut i: usize = 0;
    while i < v.len()
        invariant
            i <= v@.len(),
            r@ == v@.take(i as int),
        decreases v@.len() - i,
    {
        r.push(v[i].clone());
        i += 1;
        proof {
            assert(r@ =~= v@.take(i as int));
        }
    }
    assert(r@ =~= v@);
    r
}

/// Whether a marker is a negation marker.
pub fn marker_is_negation(m: &String) -> (r: bool)
    ensures
        r == is_negation(m@),
{
    let s = m.as_str();
    s.unicode_len() > 0 && s.get_char(0) == '-'
}

/// The marker named by a negation marker: the marker without its first character.
pub fn negated_name(m: &String) -> (r: String)
    requires
        m@.len() > 0,
    ensures
        r@ == m@.drop_first(),
{
    let s = m.as_str();
    let n = s.unicode_len();
    let t = s.substring_char(1, n);
    t.to_owned()
}

} // verus!
