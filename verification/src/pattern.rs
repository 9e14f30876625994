//! Path patterns: the grammar of the patterns that path filters match.
//!
//! A pattern is a sequence of segments separated by `/`. A segment is a run
//! of pieces: literal text, and parameters in angle brackets. `<name>`
//! captures text, `<name:/regex/>` captures what the regex matches,
//! `<*name>` captures all of the rest of the path but not nothing and
//! `<**name>` all of the rest of the path, even nothing; `<*name:/regex/>`
//! and `<**name:/regex/>` capture what the regex matches of the rest.

use vstd::prelude::*;
use crate::foreign::{regex_compiles, regex_search};
use crate::text::{chars_of, string_of, slice_chars, find_any, find_sub, index_of_any_from, lemma_index_of_any_from, find_from, lemma_find_from};

verus! {

/// One piece of a pattern segment.
pub enum Wisp {
    /// Literal text.
    Const(Vec<char>),
    /// A parameter: its name, how many stars preceded the name (0, 1 or 2)
    /// and its regex, if any.
    Param { name: Vec<char>, stars: u8, regex: Option<Vec<char>> },
}

/// The mathematical value of a [`Wisp`].
pub enum WispView {
    Const(Seq<char>),
    Param { name: Seq<char>, stars: u8, regex: Option<Seq<char>> },
}

impl View for Wisp {
    type V = WispView;

    open spec fn view(&self) -> WispView {
        match self {
            Wisp::Const(c) => WispView::Const(c@),
            Wisp::Param { name, stars, regex } => WispView::Param {
                name: name@,
                stars: *stars,
                regex: match regex {
                    Some(r) => Some(r@),
                    None => None,
                },
            },
        }
    }
}

/// The mathematical value of a pattern segment.
pub open spec fn segment_view(seg: Vec<Wisp>) -> Seq<WispView> {
    seg@.map_values(|w: Wisp| w@)
}

/// The mathematical value of a pattern's segments.
pub open spec fn segments_view(segs: Seq<Vec<Wisp>>) -> Seq<Seq<WispView>> {
    segs.map_values(|s: Vec<Wisp>| segment_view(s))
}

/// Why a pattern is refused.
#[derive(Clone, Copy, Debug, PartialEq, Eq, Structural)]
pub enum PathError {
    /// A `<` without its `>`.
    UnclosedParam,
    /// A parameter without a name.
    EmptyName,
    /// A parameter name holding `/`, `<` or more than two leading stars.
    InvalidName,
    /// A `:` after a parameter name that is not followed by `/`.
    MissingRegex,
    /// A regex without its closing `/>`.
    UnclosedRegex,
    /// An empty regex.
    EmptyRegex,
    /// A regex that the regex engine refuses.
    InvalidRegex,
    /// A parameter that follows a plain `<name>` parameter directly.
    AdjacentParams,
    /// A `<*name>` or `<**name>` parameter without regex that is not the
    /// last piece of the pattern.
    RestNotLast,
}

/// Characters that a parameter name cannot hold.
pub open spec fn name_char_ok(c: char) -> bool {
    c != '/' && c != '<' && c != '*'
}

/// The number of stars (at most two) at the start of a parameter.
pub open spec fn leading_stars(raw: Seq<char>) -> u8 {
    if raw.len() >= 2 && raw[0] == '*' && raw[1] == '*' {
        2
    } else if raw.len() >= 1 && raw[0] == '*' {
        1
    } else {
        0
    }
}

/// `"/>"`, which closes a parameter's regex.
pub open spec fn slash_gt() -> Seq<char> {
    seq!['/', '>']
}

/// Parses the parameter whose `<` stands just before `i`: the parameter and
/// the index just after its `>`.
pub open spec fn parse_param(s: Seq<char>, i: int) -> Result<(WispView, int), PathError> {
    let k = index_of_any_from(s, seq![':', '>'], i);
    if k >= s.len() {
        Err(PathError::UnclosedParam)
    } else {
        let raw = s.subrange(i, k);
        let stars = leading_stars(raw);
        let name = raw.skip(stars as int);
        if name.len() == 0 {
            Err(PathError::EmptyName)
        } else if !(forall|j: int| 0 <= j < name.len() ==> name_char_ok(#[trigger] name[j])) {
            Err(PathError::InvalidName)
        } else if s[k] == '>' {
            Ok((WispView::Param { name: name, stars: stars, regex: None }, k + 1))
        } else if k + 1 >= s.len() || s[k + 1] != '/' {
            Err(PathError::MissingRegex)
        } else {
            match find_from(s, slash_gt(), k + 2) {
                None => Err(PathError::UnclosedRegex),
                Some(e) => {
                    let re = s.subrange(k + 2, e);
                    if re.len() == 0 {
                        Err(PathError::EmptyRegex)
                    } else if !regex_compiles(re) {
                        Err(PathError::InvalidRegex)
                    } else {
                        Ok((WispView::Param { name: name, stars: stars, regex: Some(re) }, e + 2))
                    }
                },
            }
        }
    }
}

/// A plain `<name>` parameter.
pub open spec fn is_plain_named(w: WispView) -> bool {
    w matches WispView::Param { stars, regex, .. } && stars == 0 && regex is None
}

/// A `<*name>` or `<**name>` parameter without regex.
pub open spec fn is_plain_rest(w: WispView) -> bool {
    w matches WispView::Param { stars, regex, .. } && stars > 0 && regex is None
}

/// Adds a parameter to the segment being read.
pub open spec fn push_param(cur: Seq<WispView>, w: WispView) -> Result<Seq<WispView>, PathError> {
    if cur.len() > 0 && is_plain_named(cur.last()) {
        Err(PathError::AdjacentParams)
    } else {
        Ok(cur.push(w))
    }
}

/// The segments read so far, with the current one added if it is not empty.
pub open spec fn close_segment(segs: Seq<Seq<WispView>>, cur: Seq<WispView>) -> Seq<Seq<WispView>> {
    if cur.len() > 0 {
        segs.push(cur)
    } else {
        segs
    }
}

/// Plain rest parameters stand only at the very end.
pub open spec fn rest_last(segs: Seq<Seq<WispView>>) -> bool {
    forall|i: int, j: int|
        0 <= i < segs.len() && 0 <= j < segs[i].len() && is_plain_rest(#[trigger] segs[i][j])
            ==> i == segs.len() - 1 && j == segs[i].len() - 1
}

/// Parses `s[i..]`, given the segments read so far and the current one.
pub open spec fn parse_from(s: Seq<char>, i: int, segs: Seq<Seq<WispView>>, cur: Seq<WispView>) -> Result<Seq<Seq<WispView>>, PathError>
    decreases s.len() - i,
{
    if i < 0 || i >= s.len() {
        let all = close_segment(segs, cur);
        if rest_last(all) {
            Ok(all)
        } else {
            Err(PathError::RestNotLast)
        }
    } else if s[i] == '/' {
        parse_from(s, i + 1, close_segment(segs, cur), Seq::empty())
    } else if s[i] == '<' {
        match parse_param(s, i + 1) {
            Err(e) => Err(e),
            Ok((w, j)) => {
                proof {
                    lemma_parse_param_progress(s, i + 1);
                }
                match push_param(cur, w) {
                    Err(e) => Err(e),
                    Ok(cur2) => parse_from(s, j, segs, cur2),
                }
            },
        }
    } else {
        let j = index_of_any_from(s, seq!['/', '<'], i);
        proof {
            lemma_index_of_any_from(s, seq!['/', '<'], i);
        }
        parse_from(s, j, segs, cur.push(WispView::Const(s.subrange(i, j))))
    }
}

/// The segments of a pattern, or why it is refused.
pub open spec fn parse_pattern(s: Seq<char>) -> Result<Seq<Seq<WispView>>, PathError> {
    parse_from(s, 0, Seq::empty(), Seq::empty())
}

/// A parameter that parses ends after its `<` and within the pattern.
pub proof fn lemma_parse_param_progress(s: Seq<char>, i: int)
    requires
        0 <= i <= s.len(),
    ensures
        parse_param(s, i) matches Ok((w, j)) ==> i < j <= s.len(),
{
    lemma_index_of_any_from(s, seq![':', '>'], i);
    let k = index_of_any_from(s, seq![':', '>'], i);
    if k < s.len() && k + 1 < s.len() {
        lemma_find_from(s, slash_gt(), k + 2);
    }
}


/// Reads the parameter whose `<` stands just before `i`.
fn read_param(s: &[char], i: usize) -> (r: Result<(Wisp, usize), PathError>)
    requires
        i <= s@.len(),
    ensures
        match r {
            Ok((w, j)) => parse_param(s@, i as int) == Ok::<(WispView, int), PathError>((w@, j as int)),
            Err(e) => parse_param(s@, i as int) == Err::<(WispView, int), PathError>(e),
        },
{
    let k = find_any(s, &[':', '>'], i);
    proof {
        assert([':', '>']@ =~= seq![':', '>']);
        lemma_index_of_any_from(s@, seq![':', '>'], i as int);
    }
    if k >= s.len() {
        return Err(PathError::UnclosedParam);
    }
    let raw = slice_chars(s, i, k);
    let stars: u8 = if raw.len() >= 2 && raw[0] == '*' && raw[1] == '*' {
        2
    } else if raw.len() >= 1 && raw[0] == '*' {
        1
    } else {
        0
    };
    let name = slice_chars(raw.as_slice(), stars as usize, raw.len());
    assert(name@ =~= raw@.skip(stars as int));
    assert(stars == leading_stars(raw@));
    assert(raw@ == s@.subrange(i as int, k as int));
    if name.len() == 0 {
        return Err(PathError::EmptyName);
    }
    let mut q: usize = 0;
    #[verifier::loop_isolation(false)]
    while q < name.len()
        invariant
            q <= name@.len(),
            forall|j: int| 0 <= j < q ==> name_char_ok(#[trigger] name@[j]),
        decreases name@.len() - q,
    {
        let c = name[q];
        if c == '/' || c == '<' || c == '*' {
            assert(!name_char_ok(name@[q as int]));
            assert(!(forall|j: int| 0 <= j < name@.len() ==> name_char_ok(#[trigger] name@[j])));
            return Err(PathError::InvalidName);
        }
        q += 1;
    }
    if s[k] == '>' {
        return Ok((Wisp::Param { name, stars, regex: None }, k + 1));
    }
    if k + 1 >= s.len() || s[k + 1] != '/' {
        return Err(PathError::MissingRegex);
    }
    let found = find_sub(s, &['/', '>'], k + 2);
    proof {
        assert(['/', '>']@ =~= slash_gt());
        lemma_find_from(s@, slash_gt(), (k + 2) as int);
    }
    match found {
        None => Err(PathError::UnclosedRegex),
        Some(e) => {
            let re = slice_chars(s, k + 2, e);
            if re.len() == 0 {
                return Err(PathError::EmptyRegex);
            }
            let re_text = string_of(re.as_slice());
            match regex_search(re_text.as_str(), "") {
                Err(_) => Err(PathError::InvalidRegex),
                Ok(_) => Ok((Wisp::Param { name, stars, regex: Some(re) }, e + 2)),
            }
        },
    }
}

/// Whether `w` is a plain `<name>` parameter.
fn plain_named(w: &Wisp) -> (r: bool)
    ensures
        r == is_plain_named(w@),
{
    match w {
        Wisp::Param { stars, regex, .. } => *stars == 0 && regex.is_none(),
        Wisp::Const(_) => false,
    }
}

/// Whether `w` is a `<*name>` or `<**name>` parameter without regex.
fn plain_rest(w: &Wisp) -> (r: bool)
    ensures
        r == is_plain_rest(w@),
{
    match w {
        Wisp::Param { stars, regex, .. } => *stars > 0 && regex.is_none(),
        Wisp::Const(_) => false,
    }
}

/// Whether plain rest parameters stand only at the very end.
fn check_rest_last(segs: &Vec<Vec<Wisp>>) -> (r: bool)
    ensures
        r == rest_last(segments_view(segs@)),
{
    let ghost v = segments_view(segs@);
    let mut i: usize = 0;
    while i < segs.len()
        invariant
            i <= segs@.len(),
            v == segments_view(segs@),
            forall|a: int, b: int|
                0 <= a < i && 0 <= b < v[a].len() && is_plain_rest(#[trigger] v[a][b])
                    ==> a == v.len() - 1 && b == v[a].len() - 1,
        decreases segs@.len() - i,
    {
        let mut j: usize = 0;
        while j < segs[i].len()
            invariant
                i < segs@.len(),
                j <= segs@[i as int]@.len(),
                v == segments_view(segs@),
                forall|a: int, b: int|
                    0 <= a < i && 0 <= b < v[a].len() && is_plain_rest(#[trigger] v[a][b])
                        ==> a == v.len() - 1 && b == v[a].len() - 1,
                forall|b: int|
                    0 <= b < j && is_plain_rest(#[trigger] v[i as int][b])
                        ==> i == v.len() - 1 && b == v[i as int].len() - 1,
            decreases segs@[i as int]@.len() - j,
        {
            assert(v[i as int][j as int] == segs@[i as int]@[j as int]@);
            if plain_rest(&segs[i][j]) && !(i == segs.len() - 1 && j == segs[i].len() - 1) {
                return false;
            }
            j += 1;
        }
        i += 1;
    }
    true
}

/// Parses a path pattern into its segments.
pub fn parse(pattern: &str) -> (r: Result<Vec<Vec<Wisp>>, PathError>)
    ensures
        match r {
            Ok(segs) => parse_pattern(pattern@) == Ok::<Seq<Seq<WispView>>, PathError>(segments_view(segs@)),
            Err(e) => parse_pattern(pattern@) == Err::<Seq<Seq<WispView>>, PathError>(e),
        },
{
    let s = chars_of(pattern);
    let mut segs: Vec<Vec<Wisp>> = Vec::new();
    let mut cur: Vec<Wisp> = Vec::new();
    let mut i: usize = 0;
    assert(segments_view(segs@) =~= Seq::<Seq<WispView>>::empty());
    assert(segment_view(cur) =~= Seq::<WispView>::empty());
    while i < s.len()
        invariant
            i <= s@.len(),
            s@ == pattern@,
            parse_pattern(s@) == parse_from(s@, i as int, segments_view(segs@), segment_view(cur)),
        decreases s@.len() - i,
    {
        if s[i] == '/' {
            if cur.len() > 0 {
                let ghost before = segments_view(segs@);
                let ghost cv = segment_view(cur);
                segs.push(cur);
                assert(segments_view(segs@) =~= before.push(cv));
            }
            cur = Vec::new();
            assert(segment_view(cur) =~= Seq::<WispView>::empty());
            i += 1;
        } else if s[i] == '<' {
            proof {
                lemma_parse_param_progress(s@, i + 1);
            }
            match read_param(s.as_slice(), i + 1) {
                Err(e) => {
                    return Err(e);
                },
                Ok((w, j)) => {
                    let n = cur.len();
                    if n > 0 && plain_named(&cur[n - 1]) {
                        return Err(PathError::AdjacentParams);
                    }
                    let ghost cv = segment_view(cur);
                    let ghost wv = w@;
                    cur.push(w);
                    assert(segment_view(cur) =~= cv.push(wv));
                    i = j;
                },
            }
        } else {
            let j = find_any(s.as_slice(), &['/', '<'], i);
            proof {
                assert(['/', '<']@ =~= seq!['/', '<']);
                lemma_index_of_any_from(s@, seq!['/', '<'], i as int);
            }
            let text = slice_chars(s.as_slice(), i, j);
            let ghost cv = segment_view(cur);
            cur.push(Wisp::Const(text));
            assert(segment_view(cur) =~= cv.push(WispView::Const(s@.subrange(i as int, j as int))));
            i = j;
        }
    }
    if cur.len() > 0 {
        let ghost before = segments_view(segs@);
        let ghost cv = segment_view(cur);
        segs.push(cur);
        assert(segments_view(segs@) =~= before.push(cv));
    }
    if check_rest_last(&segs) {
        Ok(segs)
    } else {
        Err(PathError::RestNotLast)
    }
}

} // verus!
