use vstd::prelude::*;
use vstd::string::StrSliceExecFns;
use vstd::slice::slice_subrange;
use crate::reagent::{copy_strings, strs, Reagent, ReagentView, views};

verus! {

/// A character of the Unicode `White_Space` property.
pub open spec fn is_space(c: char) -> bool {
    let u = c as u32;
    u == 0x20 || (0x09 <= u <= 0x0d) || u == 0x85 || u == 0xa0 || u == 0x1680 || (0x2000 <= u
        <= 0x200a) || u == 0x2028 || u == 0x2029 || u == 0x202f || u == 0x205f || u == 0x3000
}

/// Where a left-to-right scan of the input stands: the finished lines, each as
/// its words; the words of the current line; whether a word is open; whether
/// the current line has begun.
pub struct ScanState {
    pub lines: Seq<Seq<Seq<char>>>,
    pub words: Seq<Seq<char>>,
    pub in_word: bool,
    pub line_open: bool,
}

/// The scan after one more character.
pub open spec fn scan_step(st: ScanState, c: char) -> ScanState {
    if c == '\n' {
        ScanState { lines: st.lines.push(st.words), words: Seq::empty(), in_word: false, line_open: false }
    } else if is_space(c) {
        ScanState { in_word: false, line_open: true, ..st }
    } else if st.in_word {
        ScanState { words: st.words.update(st.words.len() - 1, st.words.last().push(c)), line_open: true, ..st }
    } else {
        ScanState { words: st.words.push(seq![c]), in_word: true, line_open: true, ..st }
    }
}

/// The scan of a whole text.
pub open spec fn scan(s: Seq<char>) -> ScanState
    decreases s.len(),
{
    if s.len() == 0 {
        ScanState { lines: Seq::empty(), words: Seq::empty(), in_word: false, line_open: false }
    } else {
        scan_step(scan(s.drop_last()), s.last())
    }
}

/// The lines of a text, split at line feeds (a final line feed ends the last
/// line rather than starting an empty one), each as its whitespace-separated
/// words.
pub open spec fn words_by_line(s: Seq<char>) -> Seq<Seq<Seq<char>>> {
    let st = scan(s);
    if st.line_open {
        st.lines.push(st.words)
    } else {
        st.lines
    }
}

/// The words of each line in a list of lines of strings.
pub open spec fn lines_view(v: Seq<Vec<String>>) -> Seq<Seq<Seq<char>>> {
    v.map_values(|l: Vec<String>| strs(l@))
}

/// Whether a character is of the Unicode `White_Space` property.
pub fn is_space_char(c: char) -> (r: bool)
    ensures
        r == is_space(c),
{
    let u = c as u32;
    u == 0x20 || (0x09 <= u && u <= 0x0d) || u == 0x85 || u == 0xa0 || u == 0x1680 || (0x2000
        <= u && u <= 0x200a) || u == 0x2028 || u == 0x2029 || u == 0x202f || u == 0x205f || u
        == 0x3000
}

/// Splits a text into lines of whitespace-separated words.
pub fn split_words_by_line(text: &str) -> (r: Vec<Vec<String>>)
    ensures
        lines_view(r@) == words_by_line(text@),
{
    let ghost s = text@;
    let n = text.unicode_len();
    let mut lines: Vec<Vec<String>> = Vec::new();
    let mut words: Vec<String> = Vec::new();
    let mut in_word = false;
    let mut line_open = false;
    let mut tok_start: usize = 0;
    let mut i: usize = 0;
    assert(lines_view(lines@) =~= Seq::<Seq<Seq<char>>>::empty());
    assert(strs(words@) =~= Seq::<Seq<char>>::empty());
    assert(s.take(0) =~= Seq::<char>::empty());
    while i < n
        invariant
            s == text@,
            n == s.len(),
            i <= n,
            tok_start <= i,
            scan(s.take(i as int)) == (ScanState {
                lines: lines_view(lines@),
                words: if in_word {
                    strs(words@).push(s.subrange(tok_start as int, i as int))
                } else {
                    strs(words@)
                },
                in_word,
                line_open,
            }),
            in_word ==> tok_start < i,
        decreases n - i,
    {
        let c = text.get_char(i);
        let ghost st = scan(s.take(i as int));
        proof {
            assert(s.take(i + 1).drop_last() =~= s.take(i as int));
            assert(s.take(i + 1).last() == c);
        }
        if c == '\n' || is_space_char(c) {
            if in_word {
                let ghost before = strs(words@);
                let tok = text.substring_char(tok_start, i).to_owned();
                words.push(tok);
                assert(strs(words@) =~= before.push(s.subrange(tok_start as int, i as int)));
            }
            assert(strs(words@) == st.words);
            if c == '\n' {
                let ghost before = lines@;
                lines.push(words);
                words = Vec::new();
                assert(lines_view(lines@) =~= lines_view(before).push(st.words));
                assert(strs(words@) =~= Seq::<Seq<char>>::empty());
                line_open = false;
            } else {
                line_open = true;
            }
            in_word = false;
        } else {
            if !in_word {
                tok_start = i;
                in_word = true;
                assert(s.subrange(tok_start as int, i + 1) =~= seq![c]);
                assert(strs(words@).push(s.subrange(tok_start as int, i + 1)) =~= st.words.push(seq![c]));
            } else {
                assert(s.subrange(tok_start as int, i + 1) =~= s.subrange(tok_start as int, i as int).push(c));
                assert(strs(words@).push(s.subrange(tok_start as int, i + 1)) =~= st.words.update(
                    st.words.len() - 1,
                    st.words.last().push(c),
                ));
            }
            line_open = true;
        }
        i += 1;
    }
    proof {
        assert(s.take(n as int) =~= s);
    }
    if in_word {
        let ghost before = strs(words@);
        let tok = text.substring_char(tok_start, n).to_owned();
        words.push(tok);
        assert(strs(words@) =~= before.push(s.subrange(tok_start as int, n as int)));
    }
    if line_open {
        let ghost before = lines@;
        lines.push(words);
        assert(lines_view(lines@) =~= lines_view(before).push(scan(s).words));
    }
    lines
}

/// The name that marks the target line.
pub open spec fn target_name() -> Seq<char> {
    seq!['E', 'x', 'i', 't', 'u', 's', '-', '1']
}

/// Why a text does not describe a target and a pool.
#[derive(Debug, Clone, Copy, PartialEq, Eq)]
pub enum ParseError {
    /// The line (counted from one) has a name but no markers, or nothing.
    MissingMarkers { line: usize },
    /// No line names the target.
    MissingTarget,
}

/// The reagent a line of words describes: its first word is the name, the
/// others are the markers.
pub open spec fn line_reagent(words: Seq<Seq<char>>) -> ReagentView {
    ReagentView { name: words[0], atoms: words.drop_first(), score: None }
}

/// Every line holds a name and at least one marker.
pub open spec fn all_lines_marked(lines: Seq<Seq<Seq<char>>>) -> bool {
    forall|k: int| 0 <= k < lines.len() ==> #[trigger] lines[k].len() >= 2
}

/// The reagent of the last line that names the target, if any.
pub open spec fn target_of(lines: Seq<Seq<Seq<char>>>) -> Option<ReagentView>
    decreases lines.len(),
{
    if lines.len() == 0 {
        None
    } else if lines.last()[0] == target_name() {
        Some(line_reagent(lines.last()))
    } else {
        target_of(lines.drop_last())
    }
}

/// The reagents of the lines that do not name the target, in order.
pub open spec fn pool_of(lines: Seq<Seq<Seq<char>>>) -> Seq<ReagentView>
    decreases lines.len(),
{
    if lines.len() == 0 {
        Seq::empty()
    } else if lines.last()[0] == target_name() {
        pool_of(lines.drop_last())
    } else {
        pool_of(lines.drop_last()).push(line_reagent(lines.last()))
    }
}

/// Whether a string is the name that marks the target line.
pub fn is_target_name(s: &String) -> (r: bool)
    ensures
        r == (s@ == target_name()),
{
    let t = s.as_str();
    if t.unicode_len() != 8 {
        return false;
    }
    let r = t.get_char(0) == 'E' && t.get_char(1) == 'x' && t.get_char(2) == 'i' && t.get_char(3)
        == 't' && t.get_char(4) == 'u' && t.get_char(5) == 's' && t.get_char(6) == '-'
        && t.get_char(7) == '1';
    proof {
        if r {
            assert(s@ =~= target_name());
        }
    }
    r
}

/// Reads a target and a pool of reagents from text: one reagent per line, its
/// name first, then its markers, all separated by whitespace. The line named
/// `Exitus-1` is the target (the last such line, if several are).
pub fn parse_reagents(contents: &str) -> (r: Result<(Reagent, Vec<Reagent>), ParseError>)
    ensures
        ({
            let lines = words_by_line(contents@);
            match r {
                Ok((exitus, pool)) => all_lines_marked(lines) && target_of(lines) == Some(exitus@)
                    && views(pool@) == pool_of(lines),
                Err(ParseError::MissingMarkers { line }) => 1 <= line <= lines.len() && lines[line
                    - 1].len() < 2 && forall|k: int| 0 <= k < line - 1 ==> #[trigger] lines[k].len() >= 2,
                Err(ParseError::MissingTarget) => all_lines_marked(lines) && target_of(lines) is None,
            }
        }),
{
    let lines = split_words_by_line(contents);
    let ghost lv = lines_view(lines@);
    let mut exitus: Option<Reagent> = None;
    let mut pool: Vec<Reagent> = Vec::new();
    let mut k: usize = 0;
    assert(lv.take(0) =~= Seq::<Seq<Seq<char>>>::empty());
    while k < lines.len()
        invariant
            lv == lines_view(lines@),
            lv == words_by_line(contents@),
            k <= lines@.len(),
            forall|j: int| 0 <= j < k ==> #[trigger] lv[j].len() >= 2,
            match exitus {
                Some(e) => target_of(lv.take(k as int)) == Some(e@),
                None => target_of(lv.take(k as int)) is None,
            },
            views(pool@) == pool_of(lv.take(k as int)),
        decreases lines@.len() - k,
    {
        let words = &lines[k];
        assert(lv[k as int] == strs(words@));
        if words.len() < 2 {
            return Err(ParseError::MissingMarkers { line: k + 1 });
        }
        let ghost prefix = lv.take(k as int + 1);
        proof {
            assert(prefix.drop_last() =~= lv.take(k as int));
            assert(prefix.last() == strs(words@));
        }
        let atoms = copy_strings(slice_subrange(words.as_slice(), 1, words.len()));
        let reagent = Reagent { score: None, name: words[0].clone(), atoms };
        assert(reagent@ == line_reagent(strs(words@))) by {
            assert(strs(atoms@) =~= strs(words@).drop_first());
        }
        if is_target_name(&words[0]) {
            exitus = Some(reagent);
        } else {
            let ghost before = views(pool@);
            pool.push(reagent);
            assert(views(pool@) =~= before.push(reagent@));
        }
        k += 1;
    }
    assert(lv.take(lines@.len() as int) =~= lv);
    match exitus {
        Some(e) => Ok((e, pool)),
        None => Err(ParseError::MissingTarget),
    }
}

} // verus!
