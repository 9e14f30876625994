//! Path filters: match a pattern's segments against the path state,
//! consuming path and capturing parameters.

use vstd::prelude::*;
use crate::filter::{Filter, IntoBoxedFilter, BoxedFilter};
use crate::foreign::{regex_compiles, regex_first_match, regex_search};
use crate::path_state::{PathState, PathStateView, spec_pick, spec_all_rest, advance, params_insert, lemma_advance_bounds};
use crate::pattern::{Wisp, WispView, PathError, parse, parse_pattern, segments_view, segment_view};
use crate::request::{Request, RequestView};
use crate::text::{chars_of, string_of, slice_chars, find_sub, find_from, matches_at, lemma_find_from};
use vstd::string::*;

verus! {

/// A cursor that points into the path: inside a segment, or just past the
/// last segment.
pub open spec fn valid_cursor(st: PathStateView) -> bool {
    &&& st.parts.len() <= usize::MAX
    &&& forall|i: int| 0 <= i < st.parts.len() ==> #[trigger] st.parts[i].len() <= usize::MAX
    &&& st.cursor.0 <= st.parts.len()
    &&& st.cursor.0 < st.parts.len() ==> st.cursor.1 <= st.parts[st.cursor.0 as int].len()
    &&& st.cursor.0 == st.parts.len() ==> st.cursor.1 == 0
}

/// The state with the cursor at (`row`, `col`).
pub open spec fn with_cursor(st: PathStateView, row: int, col: int) -> PathStateView {
    PathStateView { cursor: (row as usize, col as usize), ..st }
}

/// `n` characters further along the current segment.
pub open spec fn step(st: PathStateView, n: int) -> PathStateView {
    with_cursor(st, st.cursor.0 as int, st.cursor.1 + n)
}

/// `n` characters further along the path, across segments.
pub open spec fn forward_by(st: PathStateView, n: int) -> PathStateView {
    let c = advance(st.parts, st.cursor.0 as nat, st.cursor.1 as nat, n as nat);
    with_cursor(st, c.0 as int, c.1 as int)
}

/// The state with `value` captured under `name`.
pub open spec fn capture(st: PathStateView, name: Seq<char>, value: Seq<char>) -> PathStateView {
    PathStateView { params: params_insert(st.params, name, value), ..st }
}

/// The pieces of a search result as characters.
pub open spec fn found_view(found: Option<(String, String)>) -> Option<(Seq<char>, Seq<char>)> {
    match found {
        Some((pre, m)) => Some((pre@, m@)),
        None => None,
    }
}

/// What a search result gives a parameter: the matched text, when the match
/// starts at the very start of `text` (it is then a prefix of `text`).
pub open spec fn leading_of(found: Option<(Seq<char>, Seq<char>)>, text: Seq<char>) -> Option<Seq<char>> {
    match found {
        Some((pre, m)) => if pre.len() == 0 && m.len() <= text.len() && text.take(m.len() as int) == m {
            Some(m)
        } else {
            None
        },
        None => None,
    }
}

/// What the regex matches at the very start of `text`, if it matches there.
pub open spec fn leading_match(re: Seq<char>, text: Seq<char>) -> Option<Seq<char>> {
    if !regex_compiles(re) {
        None
    } else {
        leading_of(regex_first_match(re, text), text)
    }
}

/// Matches one piece of a segment; `next` is the piece after it in the
/// segment, if any.
pub open spec fn match_wisp(w: WispView, next: Option<WispView>, st: PathStateView) -> Option<PathStateView> {
    match w {
        WispView::Const(c) => match spec_pick(st) {
            Some(t) => if t.len() >= c.len() && t.take(c.len() as int) == c {
                Some(step(st, c.len() as int))
            } else {
                None
            },
            None => None,
        },
        WispView::Param { name, stars, regex } => if stars == 0 {
            match spec_pick(st) {
                None => None,
                Some(t) => match regex {
                    Some(re) => match leading_match(re, t) {
                        Some(m) => Some(step(capture(st, name, m), m.len() as int)),
                        None => None,
                    },
                    None => match next {
                        Some(WispView::Const(c)) => match find_from(t, c, 1) {
                            Some(k) => Some(step(capture(st, name, t.take(k)), k)),
                            None => None,
                        },
                        _ => if t.len() > 0 {
                            Some(step(capture(st, name, t), t.len() as int))
                        } else {
                            None
                        },
                    },
                },
            }
        } else {
            let text = match spec_all_rest(st) {
                Some(x) => x,
                None => Seq::empty(),
            };
            if text.len() == 0 && stars < 2 {
                None
            } else {
                match regex {
                    None => Some(forward_by(capture(st, name, text), text.len() as int)),
                    Some(re) => match leading_match(re, text) {
                        Some(m) => Some(forward_by(capture(st, name, m), m.len() as int)),
                        None => None,
                    },
                }
            }
        },
    }
}

/// The piece after `seg[k]`, if any.
pub open spec fn next_of(seg: Seq<WispView>, k: int) -> Option<WispView> {
    if 0 <= k + 1 < seg.len() {
        Some(seg[k + 1])
    } else {
        None
    }
}

/// Matches the pieces `seg[k..]` in order.
pub open spec fn match_wisps(seg: Seq<WispView>, k: int, st: PathStateView) -> Option<PathStateView>
    decreases seg.len() - k,
{
    if k < 0 || k >= seg.len() {
        Some(st)
    } else {
        match match_wisp(seg[k], next_of(seg, k), st) {
            Some(st2) => match_wisps(seg, k + 1, st2),
            None => None,
        }
    }
}

/// A segment must end where a path segment ends (or at the end of the
/// path); the cursor then moves to the next path segment.
pub open spec fn finish_segment(st: PathStateView) -> Option<PathStateView> {
    if st.cursor.0 >= st.parts.len() {
        Some(st)
    } else if st.cursor.1 == st.parts[st.cursor.0 as int].len() {
        Some(with_cursor(st, st.cursor.0 + 1, 0))
    } else {
        None
    }
}

/// Matches the segments `segs[i..]` in order.
pub open spec fn match_segments(segs: Seq<Seq<WispView>>, i: int, st: PathStateView) -> Option<PathStateView>
    decreases segs.len() - i,
{
    if i < 0 || i >= segs.len() {
        Some(st)
    } else {
        match match_wisps(segs[i], 0, st) {
            Some(st2) => match finish_segment(st2) {
                Some(st3) => match_segments(segs, i + 1, st3),
                None => None,
            },
            None => None,
        }
    }
}

/// The state after matching a pattern's segments, if they match.
pub open spec fn path_matches(segs: Seq<Seq<WispView>>, st: PathStateView) -> Option<PathStateView> {
    if valid_cursor(st) {
        match_segments(segs, 0, st)
    } else {
        None
    }
}


/// The mathematical value of an optional piece.
pub open spec fn wisp_opt_view(w: Option<&Wisp>) -> Option<WispView> {
    match w {
        Some(x) => Some(x@),
        None => None,
    }
}

/// Matching a piece keeps the cursor inside the path and leaves the
/// segments and the trailing-slash flag as they were.
pub proof fn lemma_match_wisp_valid(w: WispView, next: Option<WispView>, st: PathStateView)
    requires
        valid_cursor(st),
        match_wisp(w, next, st) is Some,
    ensures
        valid_cursor(match_wisp(w, next, st)->0),
        match_wisp(w, next, st)->0.parts == st.parts,
        match_wisp(w, next, st)->0.end_slash == st.end_slash,
{
    match w {
        WispView::Const(c) => {
            let row = st.cursor.0 as int;
            let t = spec_pick(st)->0;
            assert(t.len() == st.parts[row].len() - st.cursor.1);
            assert(st.parts[row].len() <= usize::MAX);
        },
        WispView::Param { name, stars, regex } => {
            if stars == 0 {
                let row = st.cursor.0 as int;
                assert(st.parts[row].len() <= usize::MAX);
                let t = spec_pick(st)->0;
                match regex {
                    Some(re) => {},
                    None => match next {
                        Some(WispView::Const(c)) => {
                            lemma_find_from(t, c, 1);
                        },
                        _ => {},
                    },
                }
            } else {
                let text = match spec_all_rest(st) {
                    Some(x) => x,
                    None => Seq::empty(),
                };
                let m = match regex {
                    None => text,
                    Some(re) => leading_match(re, text)->0,
                };
                lemma_advance_bounds(st.parts, st.cursor.0 as nat, st.cursor.1 as nat, m.len());
            }
        },
    }
}

/// Whether the cursor points into the path.
pub fn cursor_is_valid(st: &PathState) -> (r: bool)
    ensures
        r == valid_cursor(st@),
{
    let n = st.parts.len();
    let mut i: usize = 0;
    while i < n
        invariant
            n == st@.parts.len(),
            i <= n,
            forall|j: int| 0 <= j < i ==> #[trigger] st@.parts[j].len() <= usize::MAX,
        decreases n - i,
    {
        let _ = st.parts[i].as_str().unicode_len();
        i += 1;
    }
    let row = st.cursor.0;
    if row > n {
        false
    } else if row == n {
        st.cursor.1 == 0
    } else {
        st.cursor.1 <= st.parts[row].as_str().unicode_len()
    }
}

/// What the result of searching `text` with a parameter's regex gives the
/// parameter: nothing when the regex is refused or finds nothing, else the
/// match when it starts at the very start of `text`.
pub fn leading_from_search(found: Result<Option<(String, String)>, ()>, text: &Vec<char>) -> (r: Option<Vec<char>>)
    ensures
        match found {
            Err(_) => r is None,
            Ok(f) => match r {
                Some(m) => leading_of(found_view(f), text@) == Some(m@),
                None => leading_of(found_view(f), text@) is None,
            },
        },
{
    match found {
        Err(_) => None,
        Ok(None) => None,
        Ok(Some((pre, m))) => {
            if pre.as_str().unicode_len() == 0 {
                let mc = chars_of(m.as_str());
                if mc.len() <= text.len() && matches_at(text.as_slice(), mc.as_slice(), 0) {
                    assert(text@.subrange(0, mc@.len() as int) =~= text@.take(mc@.len() as int));
                    Some(mc)
                } else {
                    proof {
                        if mc@.len() <= text@.len() {
                            assert(text@.subrange(0, mc@.len() as int) =~= text@.take(mc@.len() as int));
                        }
                    }
                    None
                }
            } else {
                None
            }
        },
    }
}

/// `leading_match` on concrete text.
fn leading_match_exec(re: &Vec<char>, text: &Vec<char>) -> (r: Option<Vec<char>>)
    ensures
        match r {
            Some(m) => leading_match(re@, text@) == Some(m@),
            None => leading_match(re@, text@) is None,
        },
{
    let re_s = string_of(re.as_slice());
    let text_s = string_of(text.as_slice());
    leading_from_search(regex_search(re_s.as_str(), text_s.as_str()), text)
}

/// Records `value` under `name`.
fn capture_exec(st: &mut PathState, name: &Vec<char>, value: &Vec<char>)
    ensures
        final(st)@ == capture(old(st)@, name@, value@),
{
    st.params.insert(string_of(name.as_slice()), string_of(value.as_slice()));
}

/// Matches one piece; on failure the state is left as it was.
fn match_wisp_exec(w: &Wisp, next: Option<&Wisp>, st: &mut PathState) -> (ok: bool)
    requires
        valid_cursor(old(st)@),
    ensures
        match match_wisp(w@, wisp_opt_view(next), old(st)@) {
            Some(s2) => ok && final(st)@ == s2,
            None => !ok && final(st)@ == old(st)@,
        },
{
    match w {
        Wisp::Const(c) => {
            match st.pick_chars() {
                Some(t) => {
                    if matches_at(t.as_slice(), c.as_slice(), 0) {
                        assert(t@.subrange(0, c@.len() as int) =~= t@.take(c@.len() as int));
                        st.cursor = (st.cursor.0, st.cursor.1 + c.len());
                        true
                    } else {
                        proof {
                            if t@.len() >= c@.len() {
                                assert(t@.subrange(0, c@.len() as int) =~= t@.take(c@.len() as int));
                            }
                        }
                        false
                    }
                },
                None => false,
            }
        },
        Wisp::Param { name, stars, regex } => {
            if *stars == 0 {
                match st.pick_chars() {
                    None => false,
                    Some(t) => match regex {
                        Some(re) => match leading_match_exec(re, &t) {
                            Some(m) => {
                                capture_exec(st, name, &m);
                                st.cursor = (st.cursor.0, st.cursor.1 + m.len());
                                true
                            },
                            None => false,
                        },
                        None => {
                            let following = match next {
                                Some(Wisp::Const(c)) => Some(c),
                                _ => None,
                            };
                            match following {
                                Some(c) => {
                                    let found = find_sub(t.as_slice(), c.as_slice(), 1);
                                    proof {
                                        lemma_find_from(t@, c@, 1);
                                    }
                                    match found {
                                        Some(k) => {
                                            let v = slice_chars(t.as_slice(), 0, k);
                                            assert(v@ =~= t@.take(k as int));
                                            capture_exec(st, name, &v);
                                            st.cursor = (st.cursor.0, st.cursor.1 + k);
                                            true
                                        },
                                        None => false,
                                    }
                                },
                                None => {
                                    if t.len() > 0 {
                                        capture_exec(st, name, &t);
                                        st.cursor = (st.cursor.0, st.cursor.1 + t.len());
                                        true
                                    } else {
                                        false
                                    }
                                },
                            }
                        },
                    },
                }
            } else {
                let text = match st.all_rest_chars() {
                    Some(x) => x,
                    None => Vec::new(),
                };
                if text.len() == 0 && *stars < 2 {
                    return false;
                }
                match regex {
                    None => {
                        capture_exec(st, name, &text);
                        st.forward(text.len());
                        true
                    },
                    Some(re) => match leading_match_exec(re, &text) {
                        Some(m) => {
                            capture_exec(st, name, &m);
                            st.forward(m.len());
                            true
                        },
                        None => false,
                    },
                }
            }
        },
    }
}

/// Matches the pieces of a segment in order. On failure the cursor and the
/// parameters may have changed; the segments and the trailing-slash flag
/// never do.
fn match_wisps_exec(seg: &Vec<Wisp>, st: &mut PathState) -> (ok: bool)
    requires
        valid_cursor(old(st)@),
    ensures
        match match_wisps(segment_view(*seg), 0, old(st)@) {
            Some(s2) => ok && final(st)@ == s2,
            None => !ok,
        },
        final(st)@.parts == old(st)@.parts,
        final(st)@.end_slash == old(st)@.end_slash,
        ok ==> valid_cursor(final(st)@),
{
    let ghost sv = segment_view(*seg);
    let mut k: usize = 0;
    while k < seg.len()
        invariant
            k <= seg@.len(),
            sv == segment_view(*seg),
            valid_cursor(st@),
            st@.parts == old(st)@.parts,
            st@.end_slash == old(st)@.end_slash,
            match_wisps(sv, 0, old(st)@) == match_wisps(sv, k as int, st@),
        decreases seg@.len() - k,
    {
        let next = if k + 1 < seg.len() { Some(&seg[k + 1]) } else { None };
        assert(wisp_opt_view(next) == next_of(sv, k as int));
        assert(sv[k as int] == seg@[k as int]@);
        let ghost before = st@;
        if !match_wisp_exec(&seg[k], next, st) {
            return false;
        }
        proof {
            lemma_match_wisp_valid(sv[k as int], next_of(sv, k as int), before);
        }
        k += 1;
    }
    true
}

/// `finish_segment` on the state.
fn finish_segment_exec(st: &mut PathState) -> (ok: bool)
    requires
        valid_cursor(old(st)@),
    ensures
        match finish_segment(old(st)@) {
            Some(s2) => ok && final(st)@ == s2 && valid_cursor(s2),
            None => !ok,
        },
        final(st)@.parts == old(st)@.parts,
        final(st)@.end_slash == old(st)@.end_slash,
{
    let row = st.cursor.0;
    if row >= st.parts.len() {
        return true;
    }
    let len = st.parts[row].as_str().unicode_len();
    if st.cursor.1 == len {
        st.cursor = (row + 1, 0);
        true
    } else {
        false
    }
}

/// Matches the segments of a pattern in order.
fn match_segments_exec(segs: &Vec<Vec<Wisp>>, st: &mut PathState) -> (ok: bool)
    requires
        valid_cursor(old(st)@),
    ensures
        match match_segments(segments_view(segs@), 0, old(st)@) {
            Some(s2) => ok && final(st)@ == s2,
            None => !ok,
        },
        final(st)@.parts == old(st)@.parts,
        final(st)@.end_slash == old(st)@.end_slash,
{
    let ghost sv = segments_view(segs@);
    let mut i: usize = 0;
    while i < segs.len()
        invariant
            i <= segs@.len(),
            sv == segments_view(segs@),
            valid_cursor(st@),
            st@.parts == old(st)@.parts,
            st@.end_slash == old(st)@.end_slash,
            match_segments(sv, 0, old(st)@) == match_segments(sv, i as int, st@),
        decreases segs@.len() - i,
    {
        assert(sv[i as int] == segment_view(segs@[i as int]));
        if !match_wisps_exec(&segs[i], st) {
            return false;
        }
        if !finish_segment_exec(st) {
            return false;
        }
        i += 1;
    }
    true
}

/// A filter on the path: the request passes when the pattern's segments
/// match the path from the cursor on. On a match the cursor moves past the
/// matched segments and the parameters are captured; otherwise the state is
/// left as it was.
pub struct PathFilter {
    pub raw: String,
    pub segments: Vec<Vec<Wisp>>,
}

impl PathFilter {
    /// A path filter for `value`, or why the pattern is refused.
    pub fn parse(value: &str) -> (r: Result<PathFilter, PathError>)
        ensures
            match r {
                Ok(f) => parse_pattern(value@) == Ok::<Seq<Seq<WispView>>, PathError>(segments_view(f.segments@)) && f.raw@ == value@,
                Err(e) => parse_pattern(value@) == Err::<Seq<Seq<WispView>>, PathError>(e),
            },
    {
        match parse(value) {
            Ok(segments) => Ok(PathFilter { raw: String::from_str(value), segments }),
            Err(e) => Err(e),
        }
    }

    /// A path filter for a well-formed pattern.
    pub fn new(value: &str) -> (r: PathFilter)
        requires
            parse_pattern(value@) is Ok,
        ensures
            parse_pattern(value@) == Ok::<Seq<Seq<WispView>>, PathError>(segments_view(r.segments@)),
            r.raw@ == value@,
    {
        match PathFilter::parse(value) {
            Ok(f) => f,
            Err(_) => {
                assert(false);
                PathFilter { raw: String::new(), segments: Vec::new() }
            },
        }
    }

    /// Matches the pattern against the path state.
    pub fn detect(&self, state: &mut PathState) -> (ok: bool)
        ensures
            match path_matches(segments_view(self.segments@), old(state)@) {
                Some(s2) => ok && final(state)@ == s2,
                None => !ok && final(state)@ == old(state)@,
            },
    {
        if !cursor_is_valid(state) {
            return false;
        }
        let saved_cursor = state.cursor;
        let saved_params = state.params.duplicate();
        if match_segments_exec(&self.segments, state) {
            true
        } else {
            state.cursor = saved_cursor;
            state.params = saved_params;
            false
        }
    }
}

/// The description of a path filter for the pattern `raw`: `"path:" + raw`.
pub open spec fn path_tag_text(raw: Seq<char>) -> Seq<char> {
    seq!['p', 'a', 't', 'h', ':'] + raw
}

/// What a path filter with the given segments decides.
pub open spec fn path_decide(segs: Seq<Seq<WispView>>, req: RequestView, state: PathStateView) -> (bool, RequestView, PathStateView) {
    match path_matches(segs, state) {
        Some(s2) => (true, req, s2),
        None => (false, req, state),
    }
}

impl Filter for PathFilter {
    open spec fn decide(&self, req: RequestView, state: PathStateView) -> (bool, RequestView, PathStateView) {
        path_decide(segments_view(self.segments@), req, state)
    }

    open spec fn spec_info(&self) -> Seq<char> {
        path_tag_text(self.raw@)
    }

    fn filter(&self, req: &mut Request, state: &mut PathState) -> (passed: bool) {
        self.detect(state)
    }

    fn info(&self) -> (r: String) {
        let mut out = String::new();
        crate::text::push_all(&mut out, &['p', 'a', 't', 'h', ':']);
        let raw = chars_of(self.raw.as_str());
        crate::text::push_all(&mut out, raw.as_slice());
        assert(out@ =~= path_tag_text(self.raw@));
        out
    }
}

impl IntoBoxedFilter for PathFilter {
    fn boxed(self) -> (b: BoxedFilter) {
        BoxedFilter(Box::new(self))
    }
}

} // verus!
