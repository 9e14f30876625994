//! Properties of routing that hold for every router, request and path.

use vstd::prelude::*;
use crate::filter::{Filter, BoxedFilter, MethodFilter, SchemeFilter, HostFilter, PortFilter, behaves_as};
use crate::handler::Handler;
use crate::listing::{path_tag, render, render_children, router_line, branch, child_prefix, filters_label, scan_filters, handler_label, after_colon, symbol_down};
use crate::path_filter::{leading_match, valid_cursor, path_matches, path_decide, match_segments, match_wisps, match_wisp, finish_segment, step, next_of, lemma_match_wisp_valid};
use crate::path_state::{PathStateView, params_get, params_insert, key_index, lemma_key_index, spec_all_rest, spec_ended, advance, joined_from, split_segments, spec_pick};
use crate::pattern::{WispView, PathError, parse_pattern, parse_from, close_segment, rest_last};
use crate::request::{Method, RequestView, Scheme, scheme_name};
use crate::router::{Router, Match, detect_spec, try_children, run_filters, last_filter_is_path};
use crate::text::{find_from, occurs_at, index_of_any, index_of_any_from, lemma_index_of_any_from, seq_join};

verus! {

proof fn lemma_key_index_first(ps: Seq<(Seq<char>, Seq<char>)>, k: Seq<char>, i: int, m: int)
    requires
        0 <= i <= m <= ps.len(),
        m < ps.len() ==> ps[m].0 == k,
        forall|j: int| i <= j < m ==> ps[j].0 != k,
    ensures
        key_index(ps, k, i) == m,
    decreases m - i,
{
    if i < m {
        lemma_key_index_first(ps, k, i + 1, m);
    }
}

/// A parameter reads back as the value last recorded under its name.
pub proof fn law_param_read_after_write(ps: Seq<(Seq<char>, Seq<char>)>, k: Seq<char>, v: Seq<char>)
    ensures
        params_get(params_insert(ps, k, v), k) == Some(v),
{
    lemma_key_index(ps, k, 0);
    let i = key_index(ps, k, 0);
    let ps2 = params_insert(ps, k, v);
    if i < ps.len() {
        lemma_key_index_first(ps2, k, 0, i);
    } else {
        lemma_key_index_first(ps2, k, 0, ps.len() as int);
    }
}

/// Recording a value under one name leaves the values of other names as
/// they were.
pub proof fn law_param_other_names_kept(ps: Seq<(Seq<char>, Seq<char>)>, k: Seq<char>, v: Seq<char>, k2: Seq<char>)
    requires
        k2 != k,
    ensures
        params_get(params_insert(ps, k, v), k2) == params_get(ps, k2),
{
    lemma_key_index(ps, k, 0);
    lemma_key_index(ps, k2, 0);
    let i = key_index(ps, k, 0);
    let i2 = key_index(ps, k2, 0);
    let ps2 = params_insert(ps, k, v);
    if i < ps.len() {
        lemma_key_index_first(ps2, k2, 0, i2);
    } else {
        if i2 < ps.len() {
            lemma_key_index_first(ps2, k2, 0, i2);
        } else {
            lemma_key_index_first(ps2, k2, 0, ps2.len() - 1 + 1);
        }
    }
}

/// A router whose filters reject the request matches nothing, whatever its
/// children and handler.
pub proof fn law_rejected_by_filters<H>(r: Router<H>, req: RequestView, st: PathStateView)
    requires
        !run_filters(r.filters@, 0, req, st).0,
    ensures
        detect_spec(r, req, st).0 is None,
{
}

/// When no child matches, the cursor is back where it was before the
/// children were tried.
pub proof fn law_failed_children_restore_cursor<H>(
    r: Router<H>,
    i: int,
    req: RequestView,
    st: PathStateView,
    cursor: (usize, usize),
)
    requires
        0 <= i < r.routers@.len(),
        try_children(r, i, req, st, cursor).0 is None,
    ensures
        try_children(r, i, req, st, cursor).2.cursor == cursor,
    decreases r.routers@.len() - i,
{
    let (found, req2, st2) = detect_spec(r.routers@[i], req, st);
    let st3 = PathStateView { cursor: cursor, ..st2 };
    if i + 1 < r.routers@.len() {
        law_failed_children_restore_cursor(r, i + 1, req2, st3, cursor);
    } else {
        assert(try_children(r, i + 1, req2, st3, cursor) == (None::<Match<H>>, req2, st3));
    }
}

/// Whether `h` is the handler of `r` or of one of its descendants.
pub open spec fn handler_in_tree<H>(r: Router<H>, h: H) -> bool
    decreases r, 1nat,
{
    r.handler == Some(h) || handler_in_children(r, h, 0)
}

/// Whether `h` is the handler of one of `r.routers[i..]` or of one of
/// their descendants.
pub open spec fn handler_in_children<H>(r: Router<H>, h: H, i: int) -> bool
    decreases r, 0nat, r.routers@.len() - i,
{
    if i < 0 || i >= r.routers@.len() {
        false
    } else {
        proof {
            assert(decreases_to!(r => r.routers));
        }
        handler_in_tree(r.routers@[i], h) || handler_in_children(r, h, i + 1)
    }
}

/// Whether `hs` starts with `prefix`.
pub open spec fn starts_with<T>(hs: Seq<T>, prefix: Seq<T>) -> bool {
    prefix.len() <= hs.len() && hs.take(prefix.len() as int) == prefix
}

/// A match hands out a handler of the tree, and its middleware chain starts
/// with the root's own middleware.
pub proof fn law_match_from_tree<H>(r: Router<H>, req: RequestView, st: PathStateView)
    ensures
        detect_spec(r, req, st).0 matches Some(m) ==> handler_in_tree(r, m.1) && starts_with(m.0, r.hoops@),
    decreases r, r.routers@.len() + 1,
{
    let (ok, req1, st1) = run_filters(r.filters@, 0, req, st);
    if ok {
        lemma_children_from_tree(r, 0, req1, st1, st1.cursor);
        let m = try_children(r, 0, req1, st1, st1.cursor).0;
        if m is Some {
            let found = m->0;
            let hs = found.0;
            assert((r.hoops@ + hs).take(r.hoops@.len() as int) =~= r.hoops@);
        } else {
            assert(r.hoops@.take(r.hoops@.len() as int) =~= r.hoops@);
        }
    }
}

proof fn lemma_children_from_tree<H>(r: Router<H>, i: int, req: RequestView, st: PathStateView, cursor: (usize, usize))
    ensures
        try_children(r, i, req, st, cursor).0 matches Some(m) ==> handler_in_children(r, m.1, i),
    decreases r, r.routers@.len() - i,
{
    if 0 <= i < r.routers@.len() {
        assert(decreases_to!(r => r.routers));
        let (found, req2, st2) = detect_spec(r.routers@[i], req, st);
        law_match_from_tree(r.routers@[i], req, st);
        if found is None {
            lemma_children_from_tree(r, i + 1, req2, PathStateView { cursor: cursor, ..st2 }, cursor);
        }
    }
}

/// A router with no filters and no children, only a handler, matches
/// exactly when the path has been consumed, and hands out its own
/// middleware and handler.
pub proof fn law_leaf<H>(r: Router<H>, h: H, req: RequestView, st: PathStateView)
    requires
        r.filters@.len() == 0,
        r.routers@.len() == 0,
        r.handler == Some(h),
    ensures
        detect_spec(r, req, st) == (if spec_ended(st) {
            Some((r.hoops@, h))
        } else {
            None::<Match<H>>
        }, req, st),
{
}

/// A router without filters, handler or other children, holding one child
/// `c`, matches exactly when `c` does, and puts its own middleware before
/// `c`'s.
pub proof fn law_single_child<H>(r: Router<H>, c: Router<H>, req: RequestView, st: PathStateView)
    requires
        r.filters@.len() == 0,
        r.routers@ == seq![c],
        r.handler is None,
    ensures
        detect_spec(r, req, st).0 == match detect_spec(c, req, st).0 {
            Some(m) => Some((r.hoops@ + m.0, m.1)),
            None => None::<Match<H>>,
        },
{
    assert(r.routers@[0] == c);
    assert(run_filters(r.filters@, 0, req, st) == (true, req, st));
    let (found, req2, st2) = detect_spec(c, req, st);
    let st3 = PathStateView { cursor: st.cursor, ..st2 };
    assert(try_children(r, 1, req2, st3, st.cursor) == (None::<Match<H>>, req2, st3));
}


/// Children are tried in order: when the first child matches, the router
/// hands out that child's match, after its own middleware.
pub proof fn law_first_child_wins<H>(r: Router<H>, req: RequestView, st: PathStateView)
    requires
        r.routers@.len() > 0,
        run_filters(r.filters@, 0, req, st).0,
        detect_spec(r.routers@[0], run_filters(r.filters@, 0, req, st).1, run_filters(r.filters@, 0, req, st).2).0 is Some,
    ensures
        ({
            let (ok, req1, st1) = run_filters(r.filters@, 0, req, st);
            let m = detect_spec(r.routers@[0], req1, st1).0->0;
            detect_spec(r, req, st).0 == Some((r.hoops@ + m.0, m.1))
        }),
{
}

/// A pattern whose segments are the literal words `words`.
pub open spec fn literal_segments(segs: Seq<Seq<WispView>>, words: Seq<Seq<char>>) -> bool {
    &&& segs.len() == words.len()
    &&& forall|k: int| 0 <= k < segs.len() ==> #[trigger] segs[k] == seq![WispView::Const(words[k])]
}

/// Whether the path segments from `row` on start with `words`.
pub open spec fn parts_start_with(parts: Seq<Seq<char>>, row: int, words: Seq<Seq<char>>) -> bool {
    &&& row + words.len() <= parts.len()
    &&& forall|k: int| 0 <= k < words.len() ==> #[trigger] parts[row + k] == words[k]
}

proof fn lemma_literal_segments(segs: Seq<Seq<WispView>>, words: Seq<Seq<char>>, i: int, st: PathStateView)
    requires
        literal_segments(segs, words),
        0 <= i <= segs.len(),
        valid_cursor(st),
        st.cursor.1 == 0,
    ensures
        match_segments(segs, i, st) == if parts_start_with(st.parts, st.cursor.0 as int, words.skip(i)) {
            Some(PathStateView { cursor: ((st.cursor.0 + segs.len() - i) as usize, 0usize), ..st })
        } else {
            None
        },
    decreases segs.len() - i,
{
    if i < segs.len() {
        let row = st.cursor.0 as int;
        let c = words[i];
        assert(segs[i] == seq![WispView::Const(c)]);
        if row < st.parts.len() {
            let part = st.parts[row];
            assert(part.skip(0) =~= part);
            let w1 = match_wisp(WispView::Const(c), None, st);
            assert(next_of(segs[i], 0) is None);
            if part.len() >= c.len() && part.take(c.len() as int) == c {
                let st2 = step(st, c.len() as int);
                assert(w1 == Some(st2));
                assert(match_wisps(segs[i], 1, st2) == Some(st2));
                assert(match_wisps(segs[i], 0, st) == Some(st2));
                if c.len() == part.len() {
                    assert(part.take(c.len() as int) =~= part);
                    let st3 = PathStateView { cursor: ((row + 1) as usize, 0usize), ..st };
                    assert(finish_segment(st2) == Some(st3));
                    lemma_literal_segments(segs, words, i + 1, st3);
                    assert(words.skip(i)[0] == c);
                    assert forall|k: int| 0 <= k < words.skip(i + 1).len() implies #[trigger] words.skip(i + 1)[k] == words.skip(i)[k + 1] by {}
                    if parts_start_with(st.parts, row, words.skip(i)) {
                        assert forall|k: int| 0 <= k < words.skip(i + 1).len() implies #[trigger] st.parts[row + 1 + k] == words.skip(i + 1)[k] by {
                            assert(st.parts[row + (k + 1)] == words.skip(i)[k + 1]);
                        }
                    }
                    if parts_start_with(st.parts, row + 1, words.skip(i + 1)) {
                        assert forall|k: int| 0 <= k < words.skip(i).len() implies #[trigger] st.parts[row + k] == words.skip(i)[k] by {
                            if k > 0 {
                                assert(st.parts[row + 1 + (k - 1)] == words.skip(i + 1)[k - 1]);
                            }
                        }
                    }
                } else {
                    assert(finish_segment(st2) is None);
                    if parts_start_with(st.parts, row, words.skip(i)) {
                        assert(st.parts[row + 0] == words.skip(i)[0]);
                    }
                }
            } else {
                assert(w1 is None);
                if parts_start_with(st.parts, row, words.skip(i)) {
                    assert(st.parts[row + 0] == words.skip(i)[0]);
                    assert(part.take(c.len() as int) =~= part);
                }
            }
        } else {
            assert(spec_pick(st) is None);
        }
    } else {
        assert(words.skip(i).len() == 0);
    }
}

/// A pattern of literal words matches, from the start of a segment,
/// exactly when the next path segments are those words; it then moves the
/// cursor past them.
pub proof fn law_literal_pattern(segs: Seq<Seq<WispView>>, words: Seq<Seq<char>>, st: PathStateView)
    requires
        literal_segments(segs, words),
        valid_cursor(st),
        st.cursor.1 == 0,
    ensures
        path_matches(segs, st) == if parts_start_with(st.parts, st.cursor.0 as int, words) {
            Some(PathStateView { cursor: ((st.cursor.0 + words.len()) as usize, 0usize), ..st })
        } else {
            None
        },
{
    lemma_literal_segments(segs, words, 0, st);
    assert(words.skip(0) =~= words);
}


/// The literal segments for the words `words`.
pub open spec fn literal_of(words: Seq<Seq<char>>) -> Seq<Seq<WispView>> {
    words.map_values(|w: Seq<char>| seq![WispView::Const(w)])
}

proof fn lemma_stop_at_slash(s: Seq<char>, i: int)
    requires
        0 <= i <= s.len(),
        !s.contains('<'),
    ensures
        index_of_any_from(s, seq!['/', '<'], i) == index_of_any_from(s, seq!['/'], i),
    decreases s.len() - i,
{
    if i < s.len() {
        assert(s[i] != '<');
        assert(seq!['/', '<'].contains(s[i]) == seq!['/'].contains(s[i])) by {
            if seq!['/', '<'].contains(s[i]) {
                let k = choose|k: int| 0 <= k < 2 && seq!['/', '<'][k] == s[i];
                assert(k == 0);
                assert(seq!['/'][0] == s[i]);
            }
            if seq!['/'].contains(s[i]) {
                assert(seq!['/', '<'][0] == s[i]);
            }
        }
        lemma_stop_at_slash(s, i + 1);
    }
}

proof fn lemma_literal_rest_last(segs: Seq<Seq<WispView>>)
    requires
        forall|a: int, b: int| 0 <= a < segs.len() && 0 <= b < segs[a].len() ==> #[trigger] segs[a][b] is Const,
    ensures
        rest_last(segs),
{
}

proof fn lemma_literal_parse_from(s: Seq<char>, i: int, segs: Seq<Seq<WispView>>)
    requires
        0 <= i <= s.len(),
        !s.contains('<'),
        forall|a: int, b: int| 0 <= a < segs.len() && 0 <= b < segs[a].len() ==> #[trigger] segs[a][b] is Const,
    ensures
        parse_from(s, i, segs, Seq::empty()) == Ok::<Seq<Seq<WispView>>, PathError>(segs + literal_of(split_segments(s, i))),
    decreases s.len() - i,
{
    if i >= s.len() {
        assert(split_segments(s, i) =~= Seq::<Seq<char>>::empty());
        assert(literal_of(split_segments(s, i)) =~= Seq::<Seq<WispView>>::empty());
        assert(segs + literal_of(split_segments(s, i)) =~= segs);
        assert(close_segment(segs, Seq::empty()) == segs);
        lemma_literal_rest_last(segs);
    } else if s[i] == '/' {
        lemma_index_of_any_from(s, seq!['/'], i);
        assert(seq!['/'].contains(s[i])) by {
            assert(seq!['/'][0] == s[i]);
        }
        assert(index_of_any_from(s, seq!['/'], i) == i);
        assert(s.subrange(i, i).len() == 0);
        assert(split_segments(s, i) == split_segments(s, i + 1));
        assert(close_segment(segs, Seq::empty()) == segs);
        lemma_literal_parse_from(s, i + 1, segs);
    } else {
        assert(s[i] != '<') by {
            if s[i] == '<' {
                assert(s.contains('<'));
            }
        }
        lemma_stop_at_slash(s, i);
        lemma_index_of_any_from(s, seq!['/'], i);
        let j = index_of_any_from(s, seq!['/'], i);
        assert(j > i) by {
            if j == i {
                assert(seq!['/'].contains(s[i]));
                let k = choose|k: int| 0 <= k < 1 && seq!['/'][k] == s[i];
                assert(false);
            }
        }
        let word = s.subrange(i, j);
        let cur = seq![WispView::Const(word)];
        assert(Seq::<WispView>::empty().push(WispView::Const(word)) =~= cur);
        let segs2 = segs.push(cur);
        assert forall|a: int, b: int| 0 <= a < segs2.len() && 0 <= b < segs2[a].len() implies #[trigger] segs2[a][b] is Const by {
            if a < segs.len() {
                assert(segs2[a] == segs[a]);
            }
        }
        if j >= s.len() {
            assert(split_segments(s, i) == seq![word] + split_segments(s, j + 1));
            assert(split_segments(s, j + 1) =~= Seq::<Seq<char>>::empty());
            assert(parse_from(s, j, segs, cur) == Ok::<Seq<Seq<WispView>>, PathError>(segs2)) by {
                lemma_literal_rest_last(segs2);
            }
            assert(literal_of(seq![word]) =~= seq![cur]);
            assert(segs + literal_of(split_segments(s, i)) =~= segs2);
        } else {
            assert(seq!['/'].contains(s[j]));
            assert(s[j] == '/') by {
                let k = choose|k: int| 0 <= k < 1 && seq!['/'][k] == s[j];
            }
            assert(split_segments(s, i) == seq![word] + split_segments(s, j + 1));
            assert(parse_from(s, j, segs, cur) == parse_from(s, j + 1, segs2, Seq::empty()));
            lemma_literal_parse_from(s, j + 1, segs2);
            assert(literal_of(seq![word] + split_segments(s, j + 1)) =~= seq![cur] + literal_of(split_segments(s, j + 1)));
            assert(segs2 + literal_of(split_segments(s, j + 1)) =~= segs + literal_of(split_segments(s, i)));
        }
    }
}

/// A pattern without parameters is accepted, and its segments are the
/// pieces between its slashes, as literal words; these are the pieces into
/// which a request path is split.
pub proof fn law_literal_parse(s: Seq<char>)
    requires
        !s.contains('<'),
    ensures
        parse_pattern(s) == Ok::<Seq<Seq<WispView>>, PathError>(literal_of(split_segments(s, 0))),
        literal_segments(literal_of(split_segments(s, 0)), split_segments(s, 0)),
{
    lemma_literal_parse_from(s, 0, Seq::empty());
    assert(Seq::<Seq<WispView>>::empty() + literal_of(split_segments(s, 0)) =~= literal_of(split_segments(s, 0)));
}


/// Moving forward by the length of all of the rest of the path reaches its
/// end: past the last segment, or to the end of the last segment when the
/// path has no trailing slash.
pub proof fn law_advance_through_rest(parts: Seq<Seq<char>>, row: nat, col: nat, end_slash: bool)
    requires
        row < parts.len(),
        col <= parts[row as int].len(),
    ensures
        ({
            let n = (parts[row as int].len() - col) + joined_from(parts, (row + 1) as int).len() + if end_slash { 1int } else { 0int };
            let c = advance(parts, row, col, n as nat);
            if end_slash {
                c == (parts.len(), 0nat)
            } else {
                c == ((parts.len() - 1) as nat, parts.last().len())
            }
        }),
    decreases parts.len() - row,
{
    let es: int = if end_slash { 1 } else { 0 };
    let r = parts[row as int].len() - col;
    let n = r + joined_from(parts, (row + 1) as int).len() + es;
    if row + 1 < parts.len() {
        assert(joined_from(parts, (row + 1) as int) == seq!['/'] + parts[(row + 1) as int] + joined_from(parts, (row + 2) as int));
        law_advance_through_rest(parts, row + 1, 0, end_slash);
        assert(n - r - 1 == (parts[(row + 1) as int].len() - 0) + joined_from(parts, (row + 2) as int).len() + es);
    } else {
        assert(joined_from(parts, (row + 1) as int).len() == 0);
        if end_slash {
            assert(advance(parts, row + 1, 0, 0) == (row + 1, 0nat));
        }
    }
}

/// The rest of the path from the cursor on, empty outside the path.
pub open spec fn rest_text(st: PathStateView) -> Seq<char> {
    match spec_all_rest(st) {
        Some(x) => x,
        None => Seq::<char>::empty(),
    }
}

/// The pattern made of the single parameter `<name>` with `stars` stars.
pub open spec fn rest_pattern(name: Seq<char>, stars: u8) -> Seq<Seq<WispView>> {
    seq![seq![WispView::Param { name: name, stars: stars, regex: None }]]
}

proof fn lemma_rest_param(name: Seq<char>, stars: u8, st: PathStateView)
    requires
        valid_cursor(st),
        stars >= 1,
        stars == 2 || rest_text(st).len() > 0,
    ensures
        path_matches(rest_pattern(name, stars), st) is Some,
        spec_ended(path_matches(rest_pattern(name, stars), st)->0),
        params_get(path_matches(rest_pattern(name, stars), st)->0.params, name) == Some(rest_text(st)),
{
    let w = WispView::Param { name: name, stars: stars, regex: None };
    let seg = seq![w];
    let segs = rest_pattern(name, stars);
    let rest = rest_text(st);
    law_param_read_after_write(st.params, name, rest);
    let st2 = match_wisp(w, None, st)->0;
    assert(next_of(seg, 0) is None);
    assert(match_wisps(seg, 1, st2) == Some(st2));
    let row = st.cursor.0 as nat;
    let col = st.cursor.1 as nat;
    if row < st.parts.len() {
        law_advance_through_rest(st.parts, row, col, st.end_slash);
        assert(st.parts[row as int].skip(col as int).len() == st.parts[row as int].len() - col);
        assert(st.parts.last() == st.parts[st.parts.len() - 1]);
    } else {
        assert(advance(st.parts, row, col, 0) == (row, col));
    }
    let st3 = finish_segment(st2)->0;
    assert(segs[0] == seg);
    assert(match_segments(segs, 1, st3) == Some(st3));
}

/// `<**name>` as a whole pattern matches any path state with its cursor in
/// the path: it captures all of the rest of the path under `name` and
/// consumes it.
pub proof fn law_double_star_takes_rest(name: Seq<char>, st: PathStateView)
    requires
        valid_cursor(st),
    ensures
        path_matches(rest_pattern(name, 2), st) is Some,
        spec_ended(path_matches(rest_pattern(name, 2), st)->0),
        params_get(path_matches(rest_pattern(name, 2), st)->0.params, name) == Some(rest_text(st)),
{
    lemma_rest_param(name, 2, st);
}

/// `<*name>` as a whole pattern matches exactly when some of the path is
/// left at the cursor; it then captures all of that rest under `name` and
/// consumes it.
pub proof fn law_single_star_needs_rest(name: Seq<char>, st: PathStateView)
    requires
        valid_cursor(st),
    ensures
        path_matches(rest_pattern(name, 1), st) is Some <==> rest_text(st).len() > 0,
        rest_text(st).len() > 0 ==> spec_ended(path_matches(rest_pattern(name, 1), st)->0)
            && params_get(path_matches(rest_pattern(name, 1), st)->0.params, name) == Some(rest_text(st)),
{
    if rest_text(st).len() > 0 {
        lemma_rest_param(name, 1, st);
    } else {
        let w = WispView::Param { name: name, stars: 1, regex: None };
        assert(match_wisp(w, None, st) is None);
        assert(rest_pattern(name, 1)[0] == seq![w]);
        assert(next_of(seq![w], 0) is None);
        assert(match_wisps(seq![w], 0, st) is None);
    }
}


proof fn lemma_wisps_valid(seg: Seq<WispView>, k: int, st: PathStateView)
    requires
        valid_cursor(st),
        match_wisps(seg, k, st) is Some,
    ensures
        valid_cursor(match_wisps(seg, k, st)->0),
    decreases seg.len() - k,
{
    if 0 <= k < seg.len() {
        lemma_match_wisp_valid(seg[k], next_of(seg, k), st);
        lemma_wisps_valid(seg, k + 1, match_wisp(seg[k], next_of(seg, k), st)->0);
    }
}

proof fn lemma_segments_tail(a: Seq<Seq<WispView>>, b: Seq<Seq<WispView>>, j: int, st: PathStateView)
    requires
        0 <= j <= b.len(),
    ensures
        match_segments(a + b, a.len() + j, st) == match_segments(b, j, st),
    decreases b.len() - j,
{
    if j < b.len() {
        assert((a + b)[a.len() + j] == b[j]);
        match match_wisps(b[j], 0, st) {
            Some(st2) => match finish_segment(st2) {
                Some(st3) => lemma_segments_tail(a, b, j + 1, st3),
                None => {},
            },
            None => {},
        }
    }
}

proof fn lemma_segments_concat(a: Seq<Seq<WispView>>, b: Seq<Seq<WispView>>, i: int, st: PathStateView)
    requires
        0 <= i <= a.len(),
        valid_cursor(st),
    ensures
        match_segments(a, i, st) matches Some(s1) ==> valid_cursor(s1),
        match_segments(a + b, i, st) == match match_segments(a, i, st) {
            Some(s1) => match_segments(b, 0, s1),
            None => None,
        },
    decreases a.len() - i,
{
    if i == a.len() {
        lemma_segments_tail(a, b, 0, st);
    } else {
        assert((a + b)[i] == a[i]);
        match match_wisps(a[i], 0, st) {
            Some(st2) => {
                lemma_wisps_valid(a[i], 0, st);
                match finish_segment(st2) {
                    Some(st3) => lemma_segments_concat(a, b, i + 1, st3),
                    None => {},
                }
            },
            None => {},
        }
    }
}

/// Matching the segments of one pattern and then, from where it stopped,
/// those of another is matching the two patterns joined, as a child
/// router's path filter goes on from where its parent's stopped.
pub proof fn law_nested_paths_compose(a: Seq<Seq<WispView>>, b: Seq<Seq<WispView>>, st: PathStateView)
    ensures
        path_matches(a + b, st) == match path_matches(a, st) {
            Some(s1) => path_matches(b, s1),
            None => None,
        },
{
    if valid_cursor(st) {
        lemma_segments_concat(a, b, 0, st);
    }
}


proof fn lemma_try_children_same_routers<H>(r1: Router<H>, r2: Router<H>, i: int, req: RequestView, st: PathStateView, cursor: (usize, usize))
    requires
        r1.routers@ == r2.routers@,
    ensures
        try_children(r1, i, req, st, cursor) == try_children(r2, i, req, st, cursor),
    decreases r1.routers@.len() - i,
{
    if 0 <= i < r1.routers@.len() {
        let (found, req2, st2) = detect_spec(r1.routers@[i], req, st);
        if found is None {
            lemma_try_children_same_routers(r1, r2, i + 1, req2, PathStateView { cursor: cursor, ..st2 }, cursor);
        }
    }
}

/// A router whose path filter has the segments `a`, holding as its only
/// child a router whose path filter has the segments `b`, matches what one
/// router matches that has the joined segments `a + b`, the child's
/// children and handler and the parent's middleware followed by the
/// child's, and hands out the same middleware chain and handler: a route
/// tree and the flat routes it spells out are interchangeable.
pub proof fn law_tree_equals_flat<H>(
    tree: Router<H>,
    child: Router<H>,
    flat: Router<H>,
    a: Seq<Seq<WispView>>,
    b: Seq<Seq<WispView>>,
    req: RequestView,
    st: PathStateView,
)
    requires
        tree.filters@.len() == 1,
        forall|q: RequestView, s: PathStateView| #[trigger] tree.filters@[0].0.decide(q, s) == path_decide(a, q, s),
        tree.routers@ == seq![child],
        tree.handler is None,
        child.filters@.len() == 1,
        forall|q: RequestView, s: PathStateView| #[trigger] child.filters@[0].0.decide(q, s) == path_decide(b, q, s),
        flat.filters@.len() == 1,
        forall|q: RequestView, s: PathStateView| #[trigger] flat.filters@[0].0.decide(q, s) == path_decide(a + b, q, s),
        flat.hoops@ == tree.hoops@ + child.hoops@,
        flat.routers == child.routers,
        flat.handler == child.handler,
    ensures
        detect_spec(tree, req, st).0 == detect_spec(flat, req, st).0,
{
    law_nested_paths_compose(a, b, st);
    assert(tree.routers@[0] == child);
    assert(run_filters(tree.filters@, 0, req, st) == match path_matches(a, st) {
        Some(s1) => (true, req, s1),
        None => (false, req, st),
    }) by {
        if let Some(s1) = path_matches(a, st) {
            assert(run_filters(tree.filters@, 1, req, s1) == (true, req, s1));
        }
    }
    assert(run_filters(flat.filters@, 0, req, st) == match path_matches(a + b, st) {
        Some(s2) => (true, req, s2),
        None => (false, req, st),
    }) by {
        if let Some(s2) = path_matches(a + b, st) {
            assert(run_filters(flat.filters@, 1, req, s2) == (true, req, s2));
        }
    }
    match path_matches(a, st) {
        None => {},
        Some(s1) => {
            assert(run_filters(child.filters@, 0, req, s1) == match path_matches(b, s1) {
                Some(s2) => (true, req, s2),
                None => (false, req, s1),
            }) by {
                if let Some(s2) = path_matches(b, s1) {
                    assert(run_filters(child.filters@, 1, req, s2) == (true, req, s2));
                }
            }
            let (found, req2, st2) = detect_spec(child, req, s1);
            let st3 = PathStateView { cursor: s1.cursor, ..st2 };
            assert(try_children(tree, 1, req2, st3, s1.cursor) == (None::<Match<H>>, req2, st3));
            match path_matches(b, s1) {
                None => {},
                Some(s2) => {
                    lemma_try_children_same_routers(child, flat, 0, req, s2, s2.cursor);
                    match try_children(child, 0, req, s2, s2.cursor).0 {
                        Some(mm) => {
                            assert(tree.hoops@ + (child.hoops@ + mm.0) =~= flat.hoops@ + mm.0);
                        },
                        None => {},
                    }
                },
            }
        },
    }
}


/// A router built as `Router::with_path(p).get(h)`, for a pattern `p`
/// without parameters, hands out `h` for a GET request whose path is split
/// into exactly the words of `p`, and nothing for a request with another
/// method.
pub proof fn law_route_matches_own_path<H>(r: Router<H>, p: Seq<char>, h: H, req: RequestView, st: PathStateView)
    requires
        !p.contains('<'),
        r.filters@.len() == 1,
        last_filter_is_path(r, p),
        r.hoops@.len() == 0,
        r.handler is None,
        r.routers@.len() == 1,
        r.routers@[0].filters@.len() == 1,
        behaves_as(r.routers@[0].filters@[0], MethodFilter(Method::Get)),
        r.routers@[0].routers@.len() == 0,
        r.routers@[0].hoops@.len() == 0,
        r.routers@[0].handler == Some(h),
        st.parts == split_segments(p, 0),
        st.cursor == (0usize, 0usize),
        valid_cursor(st),
    ensures
        req.method == Method::Get ==> detect_spec(r, req, st).0 == Some((Seq::<H>::empty(), h)),
        req.method != Method::Get ==> detect_spec(r, req, st).0 is None,
{
    let words = split_segments(p, 0);
    law_literal_parse(p);
    law_literal_pattern(literal_of(words), words, st);
    assert(parts_start_with(st.parts, 0, words)) by {
        assert forall|k: int| 0 <= k < words.len() implies #[trigger] st.parts[0 + k] == words[k] by {}
    }
    let st1 = PathStateView { cursor: (words.len() as usize, 0usize), ..st };
    assert(r.filters@[0].0.decide(req, st) == path_decide(literal_of(words), req, st));
    assert(r.filters@.last() == r.filters@[0]);
    assert(run_filters(r.filters@, 0, req, st) == (true, req, st1)) by {
        assert(run_filters(r.filters@, 1, req, st1) == (true, req, st1));
    }
    let c = r.routers@[0];
    assert(c.filters@[0].0.decide(req, st1) == MethodFilter(Method::Get).decide(req, st1));
    assert(spec_ended(st1));
    if req.method == Method::Get {
        assert(run_filters(c.filters@, 0, req, st1) == (true, req, st1)) by {
            assert(run_filters(c.filters@, 1, req, st1) == (true, req, st1));
        }
        assert(try_children(c, 0, req, st1, st1.cursor) == (None::<Match<H>>, req, st1));
        assert(detect_spec(c, req, st1).0 == Some((Seq::<H>::empty(), h)));
        assert(Seq::<H>::empty() + Seq::<H>::empty() =~= Seq::<H>::empty());
        assert(r.hoops@ =~= Seq::<H>::empty());
    } else {
        assert(run_filters(c.filters@, 0, req, st1).0 == false);
        let (f, q2, s2) = detect_spec(c, req, st1);
        let s3 = PathStateView { cursor: st1.cursor, ..s2 };
        assert(try_children(r, 1, q2, s3, st1.cursor) == (None::<Match<H>>, q2, s3));
    }
}

/// How many times `c` occurs in `s`.
pub open spec fn count_of(s: Seq<char>, c: char) -> nat
    decreases s.len(),
{
    if s.len() == 0 {
        0
    } else {
        count_of(s.drop_last(), c) + if s.last() == c {
            1nat
        } else {
            0nat
        }
    }
}

proof fn lemma_count_concat(a: Seq<char>, b: Seq<char>, c: char)
    ensures
        count_of(a + b, c) == count_of(a, c) + count_of(b, c),
    decreases b.len(),
{
    if b.len() == 0 {
        assert(a + b =~= a);
    } else {
        assert((a + b).drop_last() =~= a + b.drop_last());
        lemma_count_concat(a, b.drop_last(), c);
    }
}

proof fn lemma_count_skip(s: Seq<char>, k: int, c: char)
    requires
        0 <= k <= s.len(),
    ensures
        count_of(s.skip(k), c) <= count_of(s, c),
{
    assert(s =~= s.take(k) + s.skip(k));
    lemma_count_concat(s.take(k), s.skip(k), c);
}

/// The number of routers in the tree under `r`, `r` included.
pub open spec fn tree_size<H>(r: Router<H>) -> nat
    decreases r, 1nat,
{
    1 + children_size(r, 0)
}

/// The number of routers in the trees under `r.routers[i..]`.
pub open spec fn children_size<H>(r: Router<H>, i: int) -> nat
    decreases r, 0nat, r.routers@.len() - i,
{
    if i < 0 || i >= r.routers@.len() {
        0
    } else {
        proof {
            assert(decreases_to!(r => r.routers));
        }
        tree_size(r.routers@[i]) + children_size(r, i + 1)
    }
}

/// No filter description and no handler name in the tree under `r` holds a
/// line break.
pub open spec fn single_line_labels<H: Handler>(r: Router<H>) -> bool
    decreases r, 1nat,
{
    &&& forall|k: int| 0 <= k < r.filters@.len() ==> count_of(#[trigger] r.filters@[k].0.spec_info(), '\n') == 0
    &&& (r.handler matches Some(h) ==> count_of(h.spec_name(), '\n') == 0)
    &&& single_line_children(r, 0)
}

/// `single_line_labels` for each of `r.routers[i..]`.
pub open spec fn single_line_children<H: Handler>(r: Router<H>, i: int) -> bool
    decreases r, 0nat, r.routers@.len() - i,
{
    if i < 0 || i >= r.routers@.len() {
        true
    } else {
        proof {
            assert(decreases_to!(r => r.routers));
        }
        single_line_labels(r.routers@[i]) && single_line_children(r, i + 1)
    }
}

proof fn lemma_join_count(list: Seq<Seq<char>>, sep: Seq<char>, c: char)
    requires
        count_of(sep, c) == 0,
        forall|k: int| 0 <= k < list.len() ==> count_of(#[trigger] list[k], c) == 0,
    ensures
        count_of(seq_join(list, sep), c) == 0,
    decreases list.len(),
{
    if list.len() == 1 {
    } else if list.len() > 1 {
        let init = list.drop_last();
        assert forall|k: int| 0 <= k < init.len() implies count_of(#[trigger] init[k], c) == 0 by {
            assert(init[k] == list[k]);
        }
        lemma_join_count(init, sep, c);
        lemma_count_concat(seq_join(init, sep), sep, c);
        lemma_count_concat(seq_join(init, sep) + sep, list.last(), c);
    }
}

proof fn lemma_scan_count(fs: Seq<BoxedFilter>, i: int)
    requires
        0 <= i <= fs.len(),
        forall|k: int| 0 <= k < fs.len() ==> count_of(#[trigger] fs[k].0.spec_info(), '\n') == 0,
    ensures
        count_of(scan_filters(fs, i).0, '\n') == 0,
        forall|k: int| 0 <= k < scan_filters(fs, i).1.len() ==> count_of(#[trigger] scan_filters(fs, i).1[k], '\n') == 0,
    decreases i,
{
    if i > 0 {
        lemma_scan_count(fs, i - 1);
        let info = fs[i - 1].0.spec_info();
        let k = index_of_any(info, seq![':']);
        lemma_index_of_any_from(info, seq![':'], 0);
        if k < info.len() {
            lemma_count_skip(info, k + 1, '\n');
        }
        let others = scan_filters(fs, i - 1).1;
        assert forall|j: int| 0 <= j < others.push(after_colon(info)).len() implies count_of(#[trigger] others.push(after_colon(info))[j], '\n') == 0 by {
            if j < others.len() {
                assert(others.push(after_colon(info))[j] == others[j]);
            }
        }
    }
}

proof fn lemma_line_count<H: Handler>(r: Router<H>, prefix: Seq<char>, last: bool)
    requires
        count_of(prefix, '\n') == 0,
        forall|k: int| 0 <= k < r.filters@.len() ==> count_of(#[trigger] r.filters@[k].0.spec_info(), '\n') == 0,
        r.handler matches Some(h) ==> count_of(h.spec_name(), '\n') == 0,
    ensures
        count_of(router_line(r, prefix, last), '\n') == 1,
{
    let fs = r.filters@;
    let corner = seq![if last { crate::listing::symbol_ell() } else { crate::listing::symbol_tee() }, crate::listing::symbol_right(), crate::listing::symbol_right()];
    assert(count_of(corner, '\n') == 0) by {
        reveal_with_fuel(count_of, 4);
    }
    lemma_count_concat(prefix, corner, '\n');
    if fs.len() == 0 {
        assert(count_of(filters_label(fs), '\n') == 0) by {
            reveal_with_fuel(count_of, 7);
        }
    } else {
        lemma_scan_count(fs, fs.len() as int);
        let (path, others) = scan_filters(fs, fs.len() as int);
        if others.len() > 0 {
            assert(count_of(seq![','], '\n') == 0) by {
                reveal_with_fuel(count_of, 2);
            }
            assert(count_of(seq!['['], '\n') == 0) by {
                reveal_with_fuel(count_of, 2);
            }
            assert(count_of(seq![']'], '\n') == 0) by {
                reveal_with_fuel(count_of, 2);
            }
            lemma_join_count(others, seq![','], '\n');
            lemma_count_concat(path, seq!['['], '\n');
            lemma_count_concat(path + seq!['['], seq_join(others, seq![',']), '\n');
            lemma_count_concat(path + seq!['['] + seq_join(others, seq![',']), seq![']'], '\n');
        }
    }
    let arrow = seq![' ', '-', '>', ' '];
    assert(count_of(arrow, '\n') == 0) by {
        reveal_with_fuel(count_of, 5);
    }
    match r.handler {
        Some(h) => lemma_count_concat(arrow, h.spec_name(), '\n'),
        None => {},
    }
    assert(count_of(seq!['\n'], '\n') == 1) by {
        reveal_with_fuel(count_of, 2);
    }
    lemma_count_concat(branch(prefix, last), filters_label(fs), '\n');
    lemma_count_concat(branch(prefix, last) + filters_label(fs), handler_label(r.handler), '\n');
    lemma_count_concat(branch(prefix, last) + filters_label(fs) + handler_label(r.handler), seq!['\n'], '\n');
}

proof fn lemma_render_count<H: Handler>(r: Router<H>, prefix: Seq<char>, last: bool)
    requires
        count_of(prefix, '\n') == 0,
        single_line_labels(r),
    ensures
        count_of(render(r, prefix, last), '\n') == tree_size(r),
    decreases r, 1nat,
{
    lemma_line_count(r, prefix, last);
    let cp = child_prefix(prefix, last);
    let tail = if last { seq![' ', ' ', ' ', ' '] } else { seq![symbol_down(), ' ', ' ', ' '] };
    assert(count_of(tail, '\n') == 0) by {
        reveal_with_fuel(count_of, 5);
    }
    lemma_count_concat(prefix, tail, '\n');
    lemma_render_children_count(r, cp, 0);
    lemma_count_concat(router_line(r, prefix, last), render_children(r, cp, 0), '\n');
}

proof fn lemma_render_children_count<H: Handler>(r: Router<H>, prefix: Seq<char>, i: int)
    requires
        count_of(prefix, '\n') == 0,
        single_line_children(r, i),
    ensures
        count_of(render_children(r, prefix, i), '\n') == children_size(r, i),
    decreases r, 0nat, r.routers@.len() - i,
{
    if 0 <= i < r.routers@.len() {
        assert(decreases_to!(r => r.routers));
        let c = r.routers@[i];
        let last = i == r.routers@.len() - 1;
        lemma_render_count(c, prefix, last);
        lemma_render_children_count(r, prefix, i + 1);
        lemma_count_concat(render(c, prefix, last), render_children(r, prefix, i + 1), '\n');
    } else {
        assert(count_of(Seq::<char>::empty(), '\n') == 0);
    }
}

/// The listing of a router tree has one line per router: as many line
/// breaks as routers in the tree, when no filter description or handler
/// name holds a line break.
pub proof fn law_listing_line_per_router<H: Handler>(r: Router<H>)
    requires
        single_line_labels(r),
    ensures
        count_of(render(r, Seq::empty(), true), '\n') == tree_size(r),
{
    assert(count_of(Seq::<char>::empty(), '\n') == 0);
    lemma_render_count(r, Seq::empty(), true);
}

/// `a` and `b` are the same tree of routers, save for the middleware of
/// any of its routers.
pub open spec fn same_but_hoops<H>(a: Router<H>, b: Router<H>) -> bool
    decreases a, 1nat,
{
    &&& a.filters == b.filters
    &&& a.handler == b.handler
    &&& a.routers@.len() == b.routers@.len()
    &&& same_children_but_hoops(a, b, 0)
}

/// `same_but_hoops` for each pair of children `a.routers[i..]` and
/// `b.routers[i..]`.
pub open spec fn same_children_but_hoops<H>(a: Router<H>, b: Router<H>, i: int) -> bool
    decreases a, 0nat, a.routers@.len() - i,
{
    if i < 0 || i >= a.routers@.len() {
        true
    } else {
        proof {
            assert(decreases_to!(a => a.routers));
        }
        same_but_hoops(a.routers@[i], b.routers@[i]) && same_children_but_hoops(a, b, i + 1)
    }
}

proof fn lemma_same_but_hoops_refl<H>(a: Router<H>)
    ensures
        same_but_hoops(a, a),
    decreases a, 1nat,
{
    lemma_same_children_refl(a, 0);
}

proof fn lemma_same_children_refl<H>(a: Router<H>, i: int)
    ensures
        same_children_but_hoops(a, a, i),
    decreases a, 0nat, a.routers@.len() - i,
{
    if 0 <= i < a.routers@.len() {
        assert(decreases_to!(a => a.routers));
        lemma_same_but_hoops_refl(a.routers@[i]);
        lemma_same_children_refl(a, i + 1);
    }
}

/// Routers that differ only in their own middleware list are the same tree
/// save for middleware; this is what `hoop`, `hoop_when` and `hoops_mut`
/// change.
pub proof fn law_own_hoops_only<H>(a: Router<H>, b: Router<H>)
    requires
        a.filters == b.filters,
        a.routers == b.routers,
        a.handler == b.handler,
    ensures
        same_but_hoops(a, b),
{
    lemma_same_children_refl(a, 0);
    lemma_children_eq(a, b, 0);
}

proof fn lemma_children_eq<H>(a: Router<H>, b: Router<H>, i: int)
    requires
        a.routers == b.routers,
    ensures
        same_children_but_hoops(a, b, i) == same_children_but_hoops(a, a, i),
    decreases a.routers@.len() - i,
{
    if 0 <= i < a.routers@.len() {
        lemma_children_eq(a, b, i + 1);
    }
}

/// Middleware never shows in the listing: two trees that are the same save
/// for the middleware of their routers are listed alike.
pub proof fn law_listing_ignores_hoops<H: Handler>(a: Router<H>, b: Router<H>, prefix: Seq<char>, last: bool)
    requires
        same_but_hoops(a, b),
    ensures
        render(a, prefix, last) == render(b, prefix, last),
    decreases a, 1nat,
{
    assert(router_line(a, prefix, last) == router_line(b, prefix, last));
    lemma_children_listing(a, b, child_prefix(prefix, last), 0);
}

proof fn lemma_children_listing<H: Handler>(a: Router<H>, b: Router<H>, prefix: Seq<char>, i: int)
    requires
        a.routers@.len() == b.routers@.len(),
        same_children_but_hoops(a, b, i),
    ensures
        render_children(a, prefix, i) == render_children(b, prefix, i),
    decreases a, 0nat, a.routers@.len() - i,
{
    if 0 <= i < a.routers@.len() {
        assert(decreases_to!(a => a.routers));
        law_listing_ignores_hoops(a.routers@[i], b.routers@[i], prefix, i == a.routers@.len() - 1);
        lemma_children_listing(a, b, prefix, i + 1);
    }
}

/// `s` and `t` differ at most in their captured parameters.
pub open spec fn same_but_params(s: PathStateView, t: PathStateView) -> bool {
    &&& s.parts == t.parts
    &&& s.cursor == t.cursor
    &&& s.end_slash == t.end_slash
}

proof fn lemma_wisps_keep(seg: Seq<WispView>, k: int, st: PathStateView)
    requires
        valid_cursor(st),
        match_wisps(seg, k, st) is Some,
    ensures
        match_wisps(seg, k, st)->0.parts == st.parts,
        match_wisps(seg, k, st)->0.end_slash == st.end_slash,
    decreases seg.len() - k,
{
    if 0 <= k < seg.len() {
        lemma_match_wisp_valid(seg[k], next_of(seg, k), st);
        lemma_wisps_keep(seg, k + 1, match_wisp(seg[k], next_of(seg, k), st)->0);
    }
}

proof fn lemma_segments_keep(segs: Seq<Seq<WispView>>, i: int, st: PathStateView)
    requires
        valid_cursor(st),
        match_segments(segs, i, st) is Some,
    ensures
        match_segments(segs, i, st)->0.parts == st.parts,
        match_segments(segs, i, st)->0.end_slash == st.end_slash,
    decreases segs.len() - i,
{
    if 0 <= i < segs.len() {
        let st2 = match_wisps(segs[i], 0, st)->0;
        lemma_wisps_keep(segs[i], 0, st);
        lemma_wisps_valid(segs[i], 0, st);
        let st3 = finish_segment(st2)->0;
        lemma_segments_keep(segs, i + 1, st3);
    }
}

/// Matching a path pattern only moves the cursor and captures parameters:
/// the segments and the trailing-slash flag stay as they were.
pub proof fn law_path_match_keeps_path(segs: Seq<Seq<WispView>>, st: PathStateView)
    ensures
        path_matches(segs, st) matches Some(s1) ==> s1.parts == st.parts && s1.end_slash == st.end_slash,
{
    if path_matches(segs, st) is Some {
        lemma_segments_keep(segs, 0, st);
    }
}

proof fn lemma_wisp_blind(w: WispView, next: Option<WispView>, s: PathStateView, t: PathStateView)
    requires
        same_but_params(s, t),
    ensures
        match_wisp(w, next, s) is Some <==> match_wisp(w, next, t) is Some,
        match_wisp(w, next, s) is Some ==> same_but_params(match_wisp(w, next, s)->0, match_wisp(w, next, t)->0),
{
    assert(spec_pick(s) == spec_pick(t));
    assert(spec_all_rest(s) == spec_all_rest(t));
}

proof fn lemma_wisps_blind(seg: Seq<WispView>, k: int, s: PathStateView, t: PathStateView)
    requires
        same_but_params(s, t),
    ensures
        match_wisps(seg, k, s) is Some <==> match_wisps(seg, k, t) is Some,
        match_wisps(seg, k, s) is Some ==> same_but_params(match_wisps(seg, k, s)->0, match_wisps(seg, k, t)->0),
    decreases seg.len() - k,
{
    if 0 <= k < seg.len() {
        lemma_wisp_blind(seg[k], next_of(seg, k), s, t);
        if match_wisp(seg[k], next_of(seg, k), s) is Some {
            lemma_wisps_blind(seg, k + 1, match_wisp(seg[k], next_of(seg, k), s)->0, match_wisp(seg[k], next_of(seg, k), t)->0);
        }
    }
}

proof fn lemma_segments_blind(segs: Seq<Seq<WispView>>, i: int, s: PathStateView, t: PathStateView)
    requires
        same_but_params(s, t),
    ensures
        match_segments(segs, i, s) is Some <==> match_segments(segs, i, t) is Some,
        match_segments(segs, i, s) is Some ==> same_but_params(match_segments(segs, i, s)->0, match_segments(segs, i, t)->0),
    decreases segs.len() - i,
{
    if 0 <= i < segs.len() {
        lemma_wisps_blind(segs[i], 0, s, t);
        if let Some(s2) = match_wisps(segs[i], 0, s) {
            let t2 = match_wisps(segs[i], 0, t)->0;
            if let Some(s3) = finish_segment(s2) {
                lemma_segments_blind(segs, i + 1, s3, finish_segment(t2)->0);
            }
        }
    }
}

/// Whether a path pattern matches, and where it leaves the cursor, do not
/// depend on the parameters captured before.
pub proof fn law_path_match_ignores_params(segs: Seq<Seq<WispView>>, s: PathStateView, t: PathStateView)
    requires
        same_but_params(s, t),
    ensures
        path_matches(segs, s) is Some <==> path_matches(segs, t) is Some,
        path_matches(segs, s) is Some ==> same_but_params(path_matches(segs, s)->0, path_matches(segs, t)->0),
{
    lemma_segments_blind(segs, 0, s, t);
}

/// A router with only the path filter of `segs`: no middleware, no handler.
pub open spec fn path_node<H>(r: Router<H>, segs: Seq<Seq<WispView>>) -> bool {
    &&& r.filters@.len() == 1
    &&& forall|q: RequestView, s: PathStateView| #[trigger] r.filters@[0].0.decide(q, s) == path_decide(segs, q, s)
    &&& r.hoops@.len() == 0
    &&& r.handler is None
}

/// A router as `get(h)`, `post(h)`, ... add it: only the method filter of
/// `m` and the handler `h`.
pub open spec fn method_leaf<H>(r: Router<H>, m: Method, h: H) -> bool {
    &&& r.filters@.len() == 1
    &&& behaves_as(r.filters@[0], MethodFilter(m))
    &&& r.routers@.len() == 0
    &&& r.hoops@.len() == 0
    &&& r.handler == Some(h)
}

/// What a method leaf for `m` and `h` hands out.
pub open spec fn leaf_answer<H>(m: Method, h: H, q: RequestView, s: PathStateView) -> Option<Match<H>> {
    if q.method == m && spec_ended(s) {
        Some((Seq::<H>::empty(), h))
    } else {
        None
    }
}

proof fn lemma_method_leaf<H>(c: Router<H>, m: Method, h: H, q: RequestView, s: PathStateView)
    requires
        method_leaf(c, m, h),
    ensures
        detect_spec(c, q, s) == (leaf_answer(m, h, q, s), q, s),
{
    assert(c.filters@[0].0.decide(q, s) == MethodFilter(m).decide(q, s));
    if q.method == m {
        assert(run_filters(c.filters@, 1, q, s) == (true, q, s));
    }
    assert(try_children(c, 0, q, s, s.cursor) == (None::<Match<H>>, q, s));
}

proof fn lemma_path_node_filters<H>(r: Router<H>, segs: Seq<Seq<WispView>>, q: RequestView, s: PathStateView)
    requires
        path_node(r, segs),
    ensures
        run_filters(r.filters@, 0, q, s) == match path_matches(segs, s) {
            Some(s1) => (true, q, s1),
            None => (false, q, s),
        },
{
    assert(r.filters@[0].0.decide(q, s) == path_decide(segs, q, s));
    if let Some(s1) = path_matches(segs, s) {
        assert(run_filters(r.filters@, 1, q, s1) == (true, q, s1));
    }
}

/// What a path node hands out, given what its children hand out.
proof fn lemma_path_node<H>(r: Router<H>, segs: Seq<Seq<WispView>>, q: RequestView, s: PathStateView)
    requires
        path_node(r, segs),
    ensures
        detect_spec(r, q, s).0 == match path_matches(segs, s) {
            Some(s1) => try_children(r, 0, q, s1, s1.cursor).0,
            None => None,
        },
        path_matches(segs, s) is None ==> detect_spec(r, q, s).2 == s,
        path_matches(segs, s) matches Some(s1) ==> (try_children(r, 0, q, s1, s1.cursor).0 is None
            ==> detect_spec(r, q, s).2 == try_children(r, 0, q, s1, s1.cursor).2),
        path_matches(segs, s) matches Some(s1) ==> detect_spec(r, q, s).1 == try_children(r, 0, q, s1, s1.cursor).1,
        path_matches(segs, s) is None ==> detect_spec(r, q, s).1 == q,
{
    lemma_path_node_filters(r, segs, q, s);
    if let Some(s1) = path_matches(segs, s) {
        if let Some(m) = try_children(r, 0, q, s1, s1.cursor).0 {
            assert(Seq::<H>::empty() + m.0 =~= m.0);
            assert(r.hoops@ =~= Seq::<H>::empty());
        }
    }
}

/// Two method leaves, then whatever child `k = 2` gives.
proof fn lemma_two_leaves<H>(r: Router<H>, m0: Method, h0: H, m1: Method, h1: H, q: RequestView, s: PathStateView)
    requires
        r.routers@.len() >= 2,
        method_leaf(r.routers@[0], m0, h0),
        method_leaf(r.routers@[1], m1, h1),
    ensures
        try_children(r, 0, q, s, s.cursor) == match leaf_answer(m0, h0, q, s) {
            Some(a) => (Some(a), q, s),
            None => match leaf_answer(m1, h1, q, s) {
                Some(b) => (Some(b), q, s),
                None => try_children(r, 2, q, s, s.cursor),
            },
        },
{
    lemma_one_leaf(r, 0, m0, h0, q, s);
    lemma_one_leaf(r, 1, m1, h1, q, s);
}

proof fn lemma_one_leaf<H>(r: Router<H>, k: int, m: Method, h: H, q: RequestView, s: PathStateView)
    requires
        0 <= k < r.routers@.len(),
        method_leaf(r.routers@[k], m, h),
    ensures
        try_children(r, k, q, s, s.cursor) == match leaf_answer(m, h, q, s) {
            Some(a) => (Some(a), q, s),
            None => try_children(r, k + 1, q, s, s.cursor),
        },
{
    lemma_method_leaf(r.routers@[k], m, h, q, s);
    assert(PathStateView { cursor: s.cursor, ..s } =~= s);
    if leaf_answer(m, h, q, s) is None {
        assert(try_children(r, k, q, s, s.cursor) == try_children(r, k + 1, q, PathStateView { cursor: s.cursor, ..s }, s.cursor));
    }
}

proof fn lemma_leaf_blind<H>(m: Method, h: H, q: RequestView, s: PathStateView, t: PathStateView)
    requires
        same_but_params(s, t),
    ensures
        leaf_answer(m, h, q, s) == leaf_answer(m, h, q, t),
{
}

/// The routes of a resource written flat and written as a tree are
/// interchangeable. The flat form is a bare router holding, in order, a
/// router for the path `a` with GET and POST handlers `ha` and `hb`, one for
/// `a + b` with GET, PATCH and DELETE handlers `hc`, `hd`, `he`, and one for
/// `a + b + c` with a GET handler `hf`. The tree form is a router for `a`
/// with the GET and POST handlers, then a child for `b` with the GET, PATCH
/// and DELETE handlers, then a grandchild for `c` with the GET handler. For
/// every request and path state both hand out the same handler, or both
/// nothing.
pub proof fn law_flat_and_tree_routes_agree<H>(
    flat: Router<H>,
    tree: Router<H>,
    a: Seq<Seq<WispView>>,
    b: Seq<Seq<WispView>>,
    c: Seq<Seq<WispView>>,
    ha: H,
    hb: H,
    hc: H,
    hd: H,
    he: H,
    hf: H,
    q: RequestView,
    st: PathStateView,
)
    requires
        flat.filters@.len() == 0,
        flat.hoops@.len() == 0,
        flat.handler is None,
        flat.routers@.len() == 3,
        path_node(flat.routers@[0], a),
        flat.routers@[0].routers@.len() == 2,
        method_leaf(flat.routers@[0].routers@[0], Method::Get, ha),
        method_leaf(flat.routers@[0].routers@[1], Method::Post, hb),
        path_node(flat.routers@[1], a + b),
        flat.routers@[1].routers@.len() == 3,
        method_leaf(flat.routers@[1].routers@[0], Method::Get, hc),
        method_leaf(flat.routers@[1].routers@[1], Method::Patch, hd),
        method_leaf(flat.routers@[1].routers@[2], Method::Delete, he),
        path_node(flat.routers@[2], a + b + c),
        flat.routers@[2].routers@.len() == 1,
        method_leaf(flat.routers@[2].routers@[0], Method::Get, hf),
        path_node(tree, a),
        tree.routers@.len() == 3,
        method_leaf(tree.routers@[0], Method::Get, ha),
        method_leaf(tree.routers@[1], Method::Post, hb),
        path_node(tree.routers@[2], b),
        tree.routers@[2].routers@.len() == 4,
        method_leaf(tree.routers@[2].routers@[0], Method::Get, hc),
        method_leaf(tree.routers@[2].routers@[1], Method::Patch, hd),
        method_leaf(tree.routers@[2].routers@[2], Method::Delete, he),
        path_node(tree.routers@[2].routers@[3], c),
        tree.routers@[2].routers@[3].routers@.len() == 1,
        method_leaf(tree.routers@[2].routers@[3].routers@[0], Method::Get, hf),
    ensures
        detect_spec(flat, q, st).0 == detect_spec(tree, q, st).0,
{
    let x = flat.routers@[0];
    let y = flat.routers@[1];
    let z = flat.routers@[2];
    let u = tree.routers@[2];
    let v = u.routers@[3];
    law_nested_paths_compose(a, b, st);
    law_nested_paths_compose(a + b, c, st);
    assert(run_filters(flat.filters@, 0, q, st) == (true, q, st));
    // The tree.
    lemma_path_node(tree, a, q, st);
    // The flat form, first child.
    lemma_path_node(x, a, q, st);
    match path_matches(a, st) {
        None => {
            // Every flat child starts with `a`, which fails.
            let st_x = detect_spec(x, q, st).2;
            assert(st_x == st);
            let st1 = PathStateView { cursor: st.cursor, ..st_x };
            assert(st1 == st);
            lemma_path_node(y, a + b, q, st1);
            let st_y = PathStateView { cursor: st.cursor, ..detect_spec(y, q, st1).2 };
            assert(st_y == st);
            lemma_path_node(z, a + b + c, q, st_y);
            let st_z = PathStateView { cursor: st.cursor, ..detect_spec(z, q, st_y).2 };
            assert(try_children(flat, 3, detect_spec(z, q, st_y).1, st_z, st.cursor).0 is None);
            assert(try_children(flat, 2, q, st_y, st.cursor).0 is None);
            assert(try_children(flat, 1, q, st1, st.cursor).0 is None);
            assert(try_children(flat, 0, q, st, st.cursor).0 is None);
            assert(detect_spec(flat, q, st).0 is None);
            assert(detect_spec(tree, q, st).0 is None);
        },
        Some(s1) => {
            lemma_two_leaves(tree, Method::Get, ha, Method::Post, hb, q, s1);
            lemma_two_leaves(x, Method::Get, ha, Method::Post, hb, q, s1);
            assert(try_children(x, 2, q, s1, s1.cursor) == (None::<Match<H>>, q, s1));
            if leaf_answer(Method::Get, ha, q, s1) is Some || leaf_answer(Method::Post, hb, q, s1) is Some {
                assert(Seq::<H>::empty() + Seq::<H>::empty() =~= Seq::<H>::empty());
            } else {
                // The tree goes on with `u`; the flat form with `y` and `z`.
                let st1 = PathStateView { cursor: st.cursor, ..s1 };
                law_path_match_keeps_path(a, st);
                assert(same_but_params(st1, st));
                assert(detect_spec(x, q, st).2 == s1);
                law_path_match_ignores_params(a, st1, st);
                law_path_match_ignores_params(a + b, st1, st);
                law_path_match_ignores_params(a + b + c, st1, st);
                law_nested_paths_compose(a, b, st1);
                lemma_path_node(u, b, q, s1);
                lemma_path_node(y, a + b, q, st1);
                let t1 = path_matches(a, st1)->0;
                assert(same_but_params(t1, s1));
                law_path_match_ignores_params(b, t1, s1);
                let after_u = detect_spec(u, q, s1);
                let tu = PathStateView { cursor: s1.cursor, ..after_u.2 };
                assert(try_children(tree, 3, after_u.1, tu, s1.cursor).0 is None);
                match path_matches(b, s1) {
                    None => {
                        let st2 = PathStateView { cursor: st.cursor, ..detect_spec(y, q, st1).2 };
                        assert(detect_spec(y, q, st1).2 == st1);
                        assert(same_but_params(st2, st));
                        law_path_match_ignores_params(a + b + c, st2, st);
                        lemma_path_node(z, a + b + c, q, st2);
                        let st3 = PathStateView { cursor: st.cursor, ..detect_spec(z, q, st2).2 };
                        assert(try_children(flat, 3, detect_spec(z, q, st2).1, st3, st.cursor).0 is None);
                        assert(try_children(flat, 2, q, st2, st.cursor).0 is None);
                        assert(try_children(flat, 1, q, st1, st.cursor).0 is None);
                        assert(try_children(flat, 0, q, st, st.cursor).0 is None);
                        assert(detect_spec(flat, q, st).0 is None);
                        assert(try_children(tree, 2, q, s1, s1.cursor).0 is None);
                        assert(detect_spec(tree, q, st).0 is None);
                    },
                    Some(s2) => {
                        let t2 = path_matches(a + b, st1)->0;
                        assert(same_but_params(t2, s2));
                        law_path_match_keeps_path(b, s1);
                        law_path_match_keeps_path(a + b, st1);
                        lemma_two_leaves(u, Method::Get, hc, Method::Patch, hd, q, s2);
                        lemma_one_leaf(u, 2, Method::Delete, he, q, s2);
                        lemma_two_leaves(y, Method::Get, hc, Method::Patch, hd, q, t2);
                        lemma_one_leaf(y, 2, Method::Delete, he, q, t2);
                        lemma_leaf_blind(Method::Get, hc, q, s2, t2);
                        lemma_leaf_blind(Method::Patch, hd, q, s2, t2);
                        lemma_leaf_blind(Method::Delete, he, q, s2, t2);
                        assert(try_children(y, 3, q, t2, t2.cursor) == (None::<Match<H>>, q, t2));
                        if leaf_answer(Method::Get, hc, q, s2) is Some || leaf_answer(Method::Patch, hd, q, s2) is Some
                            || leaf_answer(Method::Delete, he, q, s2) is Some {
                            assert(Seq::<H>::empty() + Seq::<H>::empty() =~= Seq::<H>::empty());
                        } else {
                            // The tree goes on with `v`; the flat form with `z`.
                            let st2 = PathStateView { cursor: st.cursor, ..t2 };
                            assert(detect_spec(y, q, st1).2 == t2);
                            assert(same_but_params(st2, st));
                            law_path_match_ignores_params(a + b, st2, st);
                            law_path_match_ignores_params(a + b + c, st2, st);
                            law_nested_paths_compose(a + b, c, st2);
                            lemma_path_node(v, c, q, s2);
                            lemma_path_node(z, a + b + c, q, st2);
                            let t3 = path_matches(a + b, st2)->0;
                            assert(same_but_params(t3, s2));
                            law_path_match_ignores_params(c, t3, s2);
                            let after_v = detect_spec(v, q, s2);
                            let tv = PathStateView { cursor: s2.cursor, ..after_v.2 };
                            assert(try_children(u, 4, after_v.1, tv, s2.cursor).0 is None);
                            let after_z = detect_spec(z, q, st2);
                            let tz = PathStateView { cursor: st.cursor, ..after_z.2 };
                            assert(try_children(flat, 3, after_z.1, tz, st.cursor).0 is None);
                            match path_matches(c, s2) {
                                None => {
                                    assert(try_children(flat, 2, q, st2, st.cursor).0 is None);
                                    assert(try_children(flat, 1, q, st1, st.cursor).0 is None);
                                    assert(try_children(flat, 0, q, st, st.cursor).0 is None);
                                    assert(detect_spec(flat, q, st).0 is None);
                                    assert(try_children(u, 3, q, s2, s2.cursor).0 is None);
                                    assert(try_children(u, 0, q, s2, s2.cursor).0 is None);
                                    assert(detect_spec(u, q, s1).0 is None);
                                    assert(try_children(tree, 2, q, s1, s1.cursor).0 is None);
                                    assert(detect_spec(tree, q, st).0 is None);
                                },
                                Some(s3) => {
                                    let t4 = path_matches(a + b + c, st2)->0;
                                    assert(same_but_params(t4, s3));
                                    lemma_one_leaf(v, 0, Method::Get, hf, q, s3);
                                    lemma_one_leaf(z, 0, Method::Get, hf, q, t4);
                                    lemma_leaf_blind(Method::Get, hf, q, s3, t4);
                                    assert(try_children(v, 1, q, s3, s3.cursor).0 is None);
                                    assert(try_children(z, 1, q, t4, t4.cursor).0 is None);
                                    assert(Seq::<H>::empty() + Seq::<H>::empty() =~= Seq::<H>::empty());
                                },
                            }
                        }
                    },
                }
            }
        },
    }
}

/// A filter whose answer, the request it leaves and where it leaves the
/// cursor do not depend on the parameters captured before, and which never
/// changes the path's segments or its trailing-slash flag. Path and method
/// filters are such filters.
pub open spec fn blind_filter(f: BoxedFilter) -> bool {
    &&& forall|q: RequestView, s: PathStateView, t: PathStateView|
        #![trigger f.0.decide(q, s), f.0.decide(q, t)]
        same_but_params(s, t) ==> f.0.decide(q, s).0 == f.0.decide(q, t).0 && f.0.decide(q, s).1 == f.0.decide(q, t).1
            && same_but_params(f.0.decide(q, s).2, f.0.decide(q, t).2)
    &&& forall|q: RequestView, s: PathStateView|
        #![trigger f.0.decide(q, s)]
        f.0.decide(q, s).2.parts == s.parts && f.0.decide(q, s).2.end_slash == s.end_slash
}

/// Every filter in the tree under `r` is a `blind_filter`.
pub open spec fn blind_tree<H>(r: Router<H>) -> bool
    decreases r, 1nat,
{
    &&& forall|k: int| 0 <= k < r.filters@.len() ==> #[trigger] blind_filter(r.filters@[k])
    &&& blind_children(r, 0)
}

/// `blind_tree` for each of `r.routers[i..]`.
pub open spec fn blind_children<H>(r: Router<H>, i: int) -> bool
    decreases r, 0nat, r.routers@.len() - i,
{
    if i < 0 || i >= r.routers@.len() {
        true
    } else {
        proof {
            assert(decreases_to!(r => r.routers));
        }
        blind_tree(r.routers@[i]) && blind_children(r, i + 1)
    }
}

proof fn lemma_blind_children_each<H>(r: Router<H>, i: int)
    requires
        0 <= i,
    ensures
        blind_children(r, i) <==> forall|j: int| i <= j < r.routers@.len() ==> #[trigger] blind_tree(r.routers@[j]),
    decreases r.routers@.len() - i,
{
    if i < r.routers@.len() {
        lemma_blind_children_each(r, i + 1);
        if forall|j: int| i <= j < r.routers@.len() ==> #[trigger] blind_tree(r.routers@[j]) {
            assert(blind_tree(r.routers@[i]));
            assert forall|j: int| i + 1 <= j < r.routers@.len() implies #[trigger] blind_tree(r.routers@[j]) by {}
        }
        if blind_children(r, i) {
            assert forall|j: int| i <= j < r.routers@.len() implies #[trigger] blind_tree(r.routers@[j]) by {
                if j > i {
                    assert(i + 1 <= j);
                }
            }
        }
    }
}

/// A path filter is a `blind_filter`.
pub proof fn law_path_filter_blind(f: BoxedFilter, segs: Seq<Seq<WispView>>)
    requires
        forall|q: RequestView, s: PathStateView| #[trigger] f.0.decide(q, s) == path_decide(segs, q, s),
    ensures
        blind_filter(f),
{
    assert forall|q: RequestView, s: PathStateView, t: PathStateView|
        #![trigger f.0.decide(q, s), f.0.decide(q, t)]
        same_but_params(s, t) implies f.0.decide(q, s).0 == f.0.decide(q, t).0 && f.0.decide(q, s).1 == f.0.decide(q, t).1
            && same_but_params(f.0.decide(q, s).2, f.0.decide(q, t).2) by {
        law_path_match_ignores_params(segs, s, t);
    }
    assert forall|q: RequestView, s: PathStateView|
        #![trigger f.0.decide(q, s)]
        f.0.decide(q, s).2.parts == s.parts && f.0.decide(q, s).2.end_slash == s.end_slash by {
        law_path_match_keeps_path(segs, s);
    }
}

/// A method filter is a `blind_filter`.
pub proof fn law_method_filter_blind(f: BoxedFilter, m: Method)
    requires
        behaves_as(f, MethodFilter(m)),
    ensures
        blind_filter(f),
{
    assert forall|q: RequestView, s: PathStateView, t: PathStateView|
        #![trigger f.0.decide(q, s), f.0.decide(q, t)]
        same_but_params(s, t) implies f.0.decide(q, s).0 == f.0.decide(q, t).0 && f.0.decide(q, s).1 == f.0.decide(q, t).1
            && same_but_params(f.0.decide(q, s).2, f.0.decide(q, t).2) by {
        assert(f.0.decide(q, s) == MethodFilter(m).decide(q, s));
        assert(f.0.decide(q, t) == MethodFilter(m).decide(q, t));
    }
    assert forall|q: RequestView, s: PathStateView|
        #![trigger f.0.decide(q, s)]
        f.0.decide(q, s).2.parts == s.parts && f.0.decide(q, s).2.end_slash == s.end_slash by {
        assert(f.0.decide(q, s) == MethodFilter(m).decide(q, s));
    }
}

proof fn lemma_run_filters_blind(fs: Seq<BoxedFilter>, i: int, q: RequestView, s: PathStateView, t: PathStateView)
    requires
        forall|k: int| 0 <= k < fs.len() ==> #[trigger] blind_filter(fs[k]),
        same_but_params(s, t),
    ensures
        run_filters(fs, i, q, s).0 == run_filters(fs, i, q, t).0,
        run_filters(fs, i, q, s).1 == run_filters(fs, i, q, t).1,
        same_but_params(run_filters(fs, i, q, s).2, run_filters(fs, i, q, t).2),
        run_filters(fs, i, q, s).2.parts == s.parts,
        run_filters(fs, i, q, s).2.end_slash == s.end_slash,
    decreases fs.len() - i,
{
    if 0 <= i < fs.len() {
        assert(blind_filter(fs[i]));
        let ds = fs[i].0.decide(q, s);
        let dt = fs[i].0.decide(q, t);
        if ds.0 {
            lemma_run_filters_blind(fs, i + 1, ds.1, ds.2, dt.2);
        }
    }
}

proof fn lemma_detect_blind<H>(r: Router<H>, q: RequestView, s: PathStateView, t: PathStateView)
    requires
        blind_tree(r),
        same_but_params(s, t),
    ensures
        detect_spec(r, q, s).0 == detect_spec(r, q, t).0,
        detect_spec(r, q, s).1 == detect_spec(r, q, t).1,
        same_but_params(detect_spec(r, q, s).2, detect_spec(r, q, t).2),
        detect_spec(r, q, s).2.parts == s.parts,
        detect_spec(r, q, s).2.end_slash == s.end_slash,
    decreases r, r.routers@.len() + 1,
{
    lemma_run_filters_blind(r.filters@, 0, q, s, t);
    let (ok, q1, s1) = run_filters(r.filters@, 0, q, s);
    let t1 = run_filters(r.filters@, 0, q, t).2;
    if ok {
        lemma_try_blind(r, 0, q1, s1, t1, s1.cursor);
    }
}

proof fn lemma_try_blind<H>(r: Router<H>, i: int, q: RequestView, s: PathStateView, t: PathStateView, c: (usize, usize))
    requires
        blind_children(r, i),
        same_but_params(s, t),
    ensures
        try_children(r, i, q, s, c).0 == try_children(r, i, q, t, c).0,
        try_children(r, i, q, s, c).1 == try_children(r, i, q, t, c).1,
        same_but_params(try_children(r, i, q, s, c).2, try_children(r, i, q, t, c).2),
        try_children(r, i, q, s, c).2.parts == s.parts,
        try_children(r, i, q, s, c).2.end_slash == s.end_slash,
    decreases r, r.routers@.len() - i,
{
    if 0 <= i < r.routers@.len() {
        assert(decreases_to!(r => r.routers));
        let child = r.routers@[i];
        lemma_detect_blind(child, q, s, t);
        let (fs, qs, ss) = detect_spec(child, q, s);
        let ts = detect_spec(child, q, t).2;
        if fs is None {
            lemma_try_blind(r, i + 1, qs, PathStateView { cursor: c, ..ss }, PathStateView { cursor: c, ..ts }, c);
        }
    }
}

/// A match with `hs` put before its middleware.
pub open spec fn with_hoops<H>(hs: Seq<H>, m: Option<Match<H>>) -> Option<Match<H>> {
    match m {
        Some(x) => Some((hs + x.0, x.1)),
        None => None,
    }
}

/// `y` is the child `c`, whose only filter is the path filter of `b`, pulled
/// out from under a parent with the path `a` and the middleware `hs`: its
/// path is `a + b`, its middleware `hs` followed by `c`'s, and its handler
/// and children are `c`'s.
pub open spec fn pulled_out<H>(c: Router<H>, y: Router<H>, hs: Seq<H>, a: Seq<Seq<WispView>>, b: Seq<Seq<WispView>>) -> bool {
    &&& c.filters@.len() == 1
    &&& forall|q: RequestView, s: PathStateView| #[trigger] c.filters@[0].0.decide(q, s) == path_decide(b, q, s)
    &&& y.filters@.len() == 1
    &&& forall|q: RequestView, s: PathStateView| #[trigger] y.filters@[0].0.decide(q, s) == path_decide(a + b, q, s)
    &&& y.hoops@ == hs + c.hoops@
    &&& y.handler == c.handler
    &&& y.routers == c.routers
}

/// The shape of the law below: `flat` is a bare router whose first child
/// has `parent`'s path `a`, middleware and first `k` children, and whose
/// other children are `parent`'s later children, with the paths `bs`, pulled
/// out.
pub open spec fn split_routes<H>(parent: Router<H>, flat: Router<H>, a: Seq<Seq<WispView>>, bs: Seq<Seq<Seq<WispView>>>, k: int) -> bool {
    &&& parent.filters@.len() == 1
    &&& forall|q: RequestView, s: PathStateView| #[trigger] parent.filters@[0].0.decide(q, s) == path_decide(a, q, s)
    &&& parent.handler is None
    &&& 0 <= k <= parent.routers@.len()
    &&& bs.len() == parent.routers@.len() - k
    &&& flat.filters@.len() == 0
    &&& flat.hoops@.len() == 0
    &&& flat.handler is None
    &&& flat.routers@.len() == 1 + bs.len()
    &&& flat.routers@[0].filters@.len() == 1
    &&& forall|q: RequestView, s: PathStateView| #[trigger] flat.routers@[0].filters@[0].0.decide(q, s) == path_decide(a, q, s)
    &&& flat.routers@[0].hoops == parent.hoops
    &&& flat.routers@[0].handler is None
    &&& flat.routers@[0].routers@ == parent.routers@.take(k)
    &&& forall|j: int| 0 <= j < bs.len() ==> #[trigger] pulled_out(parent.routers@[k + j], flat.routers@[1 + j], parent.hoops@, a, bs[j])
}

proof fn lemma_prefix_children<H>(p: Router<H>, x: Router<H>, k: int, i: int, q: RequestView, s: PathStateView, c: (usize, usize))
    requires
        0 <= i <= k <= p.routers@.len(),
        x.routers@ == p.routers@.take(k),
    ensures
        try_children(p, i, q, s, c) == match try_children(x, i, q, s, c).0 {
            Some(m) => try_children(x, i, q, s, c),
            None => try_children(p, k, try_children(x, i, q, s, c).1, try_children(x, i, q, s, c).2, c),
        },
    decreases k - i,
{
    if i < k {
        assert(x.routers@[i] == p.routers@[i]);
        let (f, q2, s2) = detect_spec(p.routers@[i], q, s);
        if f is None {
            lemma_prefix_children(p, x, k, i + 1, q2, PathStateView { cursor: c, ..s2 }, c);
        }
    }
}

proof fn lemma_flat_all_fail<H>(flat: Router<H>, a: Seq<Seq<WispView>>, bs: Seq<Seq<Seq<WispView>>>, i: int, q: RequestView, st: PathStateView)
    requires
        1 <= i <= flat.routers@.len(),
        flat.routers@.len() == 1 + bs.len(),
        path_matches(a, st) is None,
        forall|j: int| 0 <= j < bs.len() ==> #[trigger] flat.routers@[1 + j].filters@.len() == 1,
        forall|j: int, q2: RequestView, s: PathStateView| 0 <= j < bs.len() ==> #[trigger] flat.routers@[1 + j].filters@[0].0.decide(q2, s) == path_decide(a + bs[j], q2, s),
    ensures
        try_children(flat, i, q, st, st.cursor).0 is None,
    decreases flat.routers@.len() - i,
{
    if i < flat.routers@.len() {
        let j = i - 1;
        let y = flat.routers@[i];
        assert(flat.routers@[1 + j] == y);
        law_nested_paths_compose(a, bs[j], st);
        assert(y.filters@[0].0.decide(q, st) == path_decide(a + bs[j], q, st));
        assert(run_filters(y.filters@, 0, q, st) == (false, q, st));
        assert(detect_spec(y, q, st) == (None::<Match<H>>, q, st));
        assert(PathStateView { cursor: st.cursor, ..st } =~= st);
        lemma_flat_all_fail(flat, a, bs, i + 1, q, st);
        assert(try_children(flat, i, q, st, st.cursor) == try_children(flat, i + 1, q, st, st.cursor));
    }
}

proof fn lemma_pulled_out_rest<H>(
    parent: Router<H>,
    flat: Router<H>,
    a: Seq<Seq<WispView>>,
    bs: Seq<Seq<Seq<WispView>>>,
    k: int,
    j: int,
    q: RequestView,
    s: PathStateView,
    t: PathStateView,
    st: PathStateView,
    s1: PathStateView,
)
    requires
        split_routes(parent, flat, a, bs, k),
        forall|i: int| 0 <= i < parent.routers@.len() ==> #[trigger] blind_tree(parent.routers@[i]),
        0 <= j <= bs.len(),
        path_matches(a, st) == Some(s1),
        s.cursor == s1.cursor,
        t.cursor == st.cursor,
        s.parts == st.parts,
        t.parts == st.parts,
        s.end_slash == st.end_slash,
        t.end_slash == st.end_slash,
    ensures
        try_children(flat, 1 + j, q, t, st.cursor).0 == with_hoops(parent.hoops@, try_children(parent, k + j, q, s, s1.cursor).0),
    decreases bs.len() - j,
{
    let c1 = s1.cursor;
    if j < bs.len() {
        let c = parent.routers@[k + j];
        let y = flat.routers@[1 + j];
        let b = bs[j];
        assert(pulled_out(c, y, parent.hoops@, a, b));
        assert(blind_tree(c));
        law_path_match_keeps_path(a, st);
        law_path_match_ignores_params(a, t, st);
        let t1 = path_matches(a, t)->0;
        assert(same_but_params(t1, s));
        law_nested_paths_compose(a, b, t);
        law_path_match_ignores_params(b, t1, s);
        law_path_match_keeps_path(b, s);
        assert(c.filters@[0].0.decide(q, s) == path_decide(b, q, s));
        assert(y.filters@[0].0.decide(q, t) == path_decide(a + b, q, t));
        match path_matches(b, s) {
            None => {
                assert(run_filters(c.filters@, 0, q, s) == (false, q, s));
                assert(run_filters(y.filters@, 0, q, t) == (false, q, t));
                assert(PathStateView { cursor: c1, ..s } =~= s);
                assert(PathStateView { cursor: st.cursor, ..t } =~= t);
                lemma_pulled_out_rest(parent, flat, a, bs, k, j + 1, q, s, t, st, s1);
            },
            Some(v) => {
                let u = path_matches(a + b, t)->0;
                assert(same_but_params(v, u));
                assert(run_filters(c.filters@, 1, q, v) == (true, q, v));
                assert(run_filters(y.filters@, 1, q, u) == (true, q, u));
                assert(run_filters(c.filters@, 0, q, s) == (true, q, v));
                assert(run_filters(y.filters@, 0, q, t) == (true, q, u));
                lemma_try_blind(c, 0, q, v, u, v.cursor);
                lemma_try_children_same_routers(c, y, 0, q, u, u.cursor);
                let (fc, qc, sc) = try_children(c, 0, q, v, v.cursor);
                let tc = try_children(y, 0, q, u, u.cursor).2;
                assert(detect_spec(y, q, t).0 == with_hoops(parent.hoops@, detect_spec(c, q, s).0)) by {
                    if let Some(m) = fc {
                        assert(parent.hoops@ + (c.hoops@ + m.0) =~= y.hoops@ + m.0);
                    } else {
                        assert(parent.hoops@ + c.hoops@ =~= y.hoops@);
                    }
                }
                if detect_spec(c, q, s).0 is None {
                    let s_next = PathStateView { cursor: c1, ..sc };
                    let t_next = PathStateView { cursor: st.cursor, ..tc };
                    lemma_pulled_out_rest(parent, flat, a, bs, k, j + 1, qc, s_next, t_next, st, s1);
                }
            },
        }
    }
}

/// A router with the path `a`, no handler and the children `c_0 .. c_n`
/// hands out, for every request and path state, what a bare router hands
/// out that holds, in order: a router with the path `a`, the parent's
/// middleware and the children `c_0 .. c_k`; then, for each later child
/// `c_i`, whose only filter is the path filter of `b_i`, a router with the
/// path `a + b_i`, the parent's middleware followed by `c_i`'s, and `c_i`'s
/// handler and children. This is the documented equivalence of routes
/// written as a tree and written flat, for a parent with several children
/// (`get`, `post`, ... children stay in the first router). It holds when
/// every filter below the parent leaves the path alone and decides, without
/// regard to the parameters captured before, as path and method filters do.
pub proof fn law_split_children<H>(
    parent: Router<H>,
    flat: Router<H>,
    a: Seq<Seq<WispView>>,
    bs: Seq<Seq<Seq<WispView>>>,
    k: int,
    q: RequestView,
    st: PathStateView,
)
    requires
        split_routes(parent, flat, a, bs, k),
        blind_children(parent, 0),
    ensures
        detect_spec(flat, q, st).0 == detect_spec(parent, q, st).0,
{
    lemma_blind_children_each(parent, 0);
    let x = flat.routers@[0];
    assert(run_filters(flat.filters@, 0, q, st) == (true, q, st));
    assert(parent.filters@[0].0.decide(q, st) == path_decide(a, q, st));
    assert(x.filters@[0].0.decide(q, st) == path_decide(a, q, st));
    match path_matches(a, st) {
        None => {
            assert(run_filters(parent.filters@, 0, q, st) == (false, q, st));
            assert(run_filters(x.filters@, 0, q, st) == (false, q, st));
            assert forall|j: int| 0 <= j < bs.len() implies #[trigger] flat.routers@[1 + j].filters@.len() == 1 by {
                assert(pulled_out(parent.routers@[k + j], flat.routers@[1 + j], parent.hoops@, a, bs[j]));
            }
            assert forall|j: int, q2: RequestView, s: PathStateView| 0 <= j < bs.len() implies #[trigger] flat.routers@[1 + j].filters@[0].0.decide(q2, s) == path_decide(a + bs[j], q2, s) by {
                assert(pulled_out(parent.routers@[k + j], flat.routers@[1 + j], parent.hoops@, a, bs[j]));
            }
            assert(PathStateView { cursor: st.cursor, ..st } =~= st);
            lemma_flat_all_fail(flat, a, bs, 1, q, st);
            assert(detect_spec(x, q, st) == (None::<Match<H>>, q, st));
            assert(try_children(flat, 0, q, st, st.cursor).0 is None);
            assert(detect_spec(flat, q, st).0 is None);
            assert(detect_spec(parent, q, st).0 is None);
        },
        Some(s1) => {
            let c1 = s1.cursor;
            assert(run_filters(parent.filters@, 1, q, s1) == (true, q, s1));
            assert(run_filters(x.filters@, 1, q, s1) == (true, q, s1));
            assert(run_filters(parent.filters@, 0, q, st) == (true, q, s1));
            assert(run_filters(x.filters@, 0, q, st) == (true, q, s1));
            lemma_prefix_children(parent, x, k, 0, q, s1, c1);
            let (fx, qx, sx) = try_children(x, 0, q, s1, c1);
            match fx {
                Some(m) => {
                    assert(Seq::<H>::empty() + (parent.hoops@ + m.0) =~= parent.hoops@ + m.0);
                    assert(detect_spec(x, q, st).0 == Some((parent.hoops@ + m.0, m.1)));
                    assert(detect_spec(parent, q, st).0 == Some((parent.hoops@ + m.0, m.1)));
                    assert(try_children(flat, 0, q, st, st.cursor).0 == Some((parent.hoops@ + m.0, m.1)));
                },
                None => {
                    law_path_match_keeps_path(a, st);
                    lemma_blind_children_each(x, 0);
                    assert forall|j: int| 0 <= j < x.routers@.len() implies #[trigger] blind_tree(x.routers@[j]) by {
                        assert(x.routers@[j] == parent.routers@[j]);
                    }
                    lemma_blind_children_each(x, 0);
                    lemma_try_blind(x, 0, q, s1, s1, c1);
                    if k > 0 {
                        law_failed_children_restore_cursor(x, 0, q, s1, c1);
                    }
                    assert(sx.cursor == c1);
                    let t = PathStateView { cursor: st.cursor, ..sx };
                    lemma_pulled_out_rest(parent, flat, a, bs, k, 0, qx, sx, t, st, s1);
                    let r1 = try_children(flat, 1, qx, t, st.cursor);
                    assert(detect_spec(x, q, st) == (None::<Match<H>>, qx, sx));
                    assert(try_children(flat, 0, q, st, st.cursor) == r1);
                    assert(detect_spec(parent, q, st).0 == with_hoops(parent.hoops@, try_children(parent, k, qx, sx, c1).0));
                    if let Some(m) = r1.0 {
                        assert(Seq::<H>::empty() + m.0 =~= m.0);
                    }
                },
            }
        },
    }
}

/// When a router's filters pass and none of its children matches, the
/// router hands out its own middleware and handler exactly when the path is
/// consumed at the cursor its filters left, however many children it has;
/// for children whose filters leave the path alone, that is exactly when the
/// path was consumed after the router's filters.
pub proof fn law_own_handler_after_children<H>(r: Router<H>, h: H, req: RequestView, st: PathStateView)
    requires
        r.handler == Some(h),
        run_filters(r.filters@, 0, req, st).0,
        try_children(r, 0, run_filters(r.filters@, 0, req, st).1, run_filters(r.filters@, 0, req, st).2,
            run_filters(r.filters@, 0, req, st).2.cursor).0 is None,
    ensures
        ({
            let (ok, q1, s1) = run_filters(r.filters@, 0, req, st);
            let s2 = try_children(r, 0, q1, s1, s1.cursor).2;
            &&& detect_spec(r, req, st).0 == if s1.cursor.0 >= s2.parts.len() {
                Some((r.hoops@, h))
            } else {
                None::<Match<H>>
            }
            &&& blind_children(r, 0) ==> detect_spec(r, req, st).0 == if spec_ended(s1) {
                Some((r.hoops@, h))
            } else {
                None::<Match<H>>
            }
        }),
{
    let (ok, q1, s1) = run_filters(r.filters@, 0, req, st);
    let s2 = try_children(r, 0, q1, s1, s1.cursor).2;
    if r.routers@.len() > 0 {
        law_failed_children_restore_cursor(r, 0, q1, s1, s1.cursor);
    }
    assert(s2.cursor == s1.cursor);
    if blind_children(r, 0) {
        lemma_try_blind(r, 0, q1, s1, s1, s1.cursor);
    }
}

/// A parameter `<name:/re/>` without stars that matches captures under
/// `name` exactly the text the cursor moves over in its segment: what the
/// regex matched at the start of the rest of the segment, which is a prefix
/// of that rest.
pub proof fn law_regex_param_captures_its_match(name: Seq<char>, re: Seq<char>, next: Option<WispView>, st: PathStateView)
    requires
        valid_cursor(st),
        match_wisp(WispView::Param { name: name, stars: 0, regex: Some(re) }, next, st) is Some,
    ensures
        ({
            let st2 = match_wisp(WispView::Param { name: name, stars: 0, regex: Some(re) }, next, st)->0;
            let t = spec_pick(st)->0;
            let k = st2.cursor.1 - st.cursor.1;
            &&& spec_pick(st) is Some
            &&& st2.cursor.0 == st.cursor.0
            &&& 0 <= k <= t.len()
            &&& params_get(st2.params, name) == Some(t.take(k))
            &&& leading_match(re, t) == Some(t.take(k))
            &&& st2.parts == st.parts
        }),
{
    let t = spec_pick(st)->0;
    let m = leading_match(re, t)->0;
    law_param_read_after_write(st.params, name, m);
    let row = st.cursor.0 as int;
    assert(st.parts[row].len() <= usize::MAX);
}

/// A parameter `<*name:/re/>` or `<**name:/re/>` that matches captures
/// under `name` exactly the text the cursor moves forward over: what the
/// regex matched at the start of all of the rest of the path, a prefix of
/// it, and not the whole rest.
pub proof fn law_rest_regex_param_captures_its_match(name: Seq<char>, stars: u8, re: Seq<char>, next: Option<WispView>, st: PathStateView)
    requires
        valid_cursor(st),
        stars >= 1,
        match_wisp(WispView::Param { name: name, stars: stars, regex: Some(re) }, next, st) is Some,
    ensures
        ({
            let st2 = match_wisp(WispView::Param { name: name, stars: stars, regex: Some(re) }, next, st)->0;
            let text = rest_text(st);
            &&& leading_match(re, text) is Some
            &&& ({
                let m = leading_match(re, text)->0;
                &&& m.len() <= text.len()
                &&& text.take(m.len() as int) == m
                &&& params_get(st2.params, name) == Some(m)
                &&& st2.cursor == ({
                    let c = advance(st.parts, st.cursor.0 as nat, st.cursor.1 as nat, m.len());
                    (c.0 as usize, c.1 as usize)
                })
            })
        }),
{
    let text = rest_text(st);
    let m = leading_match(re, text)->0;
    law_param_read_after_write(st.params, name, m);
}

/// A scheme filter passes a request whose URI has a scheme exactly when
/// that scheme is the filter's, and a request without one exactly when it
/// is set to; it leaves the request and the path state alone.
pub proof fn law_scheme_filter_exact(scheme: Scheme, lack: bool, q: RequestView, s: PathStateView)
    ensures
        (SchemeFilter { scheme: scheme, lack: lack }).decide(q, s) == (match q.scheme {
            Some(x) => x == scheme_name(scheme),
            None => lack,
        }, q, s),
        scheme_name(Scheme::Http) != scheme_name(Scheme::Https),
{
    assert(scheme_name(Scheme::Http).len() != scheme_name(Scheme::Https).len());
}

/// A host filter passes a request whose URI has a host exactly when that
/// host is the filter's, and a request without one exactly when it is set
/// to; it leaves the request and the path state alone.
pub proof fn law_host_filter_exact(host: String, lack: bool, q: RequestView, s: PathStateView)
    ensures
        (HostFilter { host: host, lack: lack }).decide(q, s) == (match q.host {
            Some(x) => x == host@,
            None => lack,
        }, q, s),
{
}

/// A port filter passes a request whose URI has a port exactly when that
/// port is the filter's, and a request without one exactly when it is set
/// to; it leaves the request and the path state alone.
pub proof fn law_port_filter_exact(port: u16, lack: bool, q: RequestView, s: PathStateView)
    ensures
        (PortFilter { port: port, lack: lack }).decide(q, s) == (match q.port {
            Some(x) => x == port,
            None => lack,
        }, q, s),
{
}

/// A method filter passes exactly the requests with its method, and leaves
/// the request and the path state alone.
pub proof fn law_method_filter_exact(m: Method, q: RequestView, s: PathStateView)
    ensures
        MethodFilter(m).decide(q, s) == (q.method == m, q, s),
{
}

/// Whether a filter's description is that of a path filter: it starts with
/// `"path:"`.
pub open spec fn is_path_filter(f: BoxedFilter) -> bool {
    let info = f.0.spec_info();
    info.len() >= 5 && info.take(5) == seq!['p', 'a', 't', 'h', ':']
}

/// The descriptions, after their tags, of the filters of `fs` that are not
/// path filters, in order.
pub open spec fn other_labels(fs: Seq<BoxedFilter>) -> Seq<Seq<char>> {
    fs.filter(|f: BoxedFilter| !is_path_filter(f)).map_values(|f: BoxedFilter| after_colon(f.0.spec_info()))
}

/// `"[a,b,...]"` for a non-empty list, nothing for an empty one.
pub open spec fn bracketed(labels: Seq<Seq<char>>) -> Seq<char> {
    if labels.len() == 0 {
        Seq::empty()
    } else {
        seq!['['] + seq_join(labels, seq![',']) + seq![']']
    }
}

proof fn lemma_scan_characterized(fs: Seq<BoxedFilter>, i: int)
    requires
        0 <= i <= fs.len(),
    ensures
        scan_filters(fs, i).1 == other_labels(fs.take(i)),
        (forall|j: int| 0 <= j < i ==> !#[trigger] is_path_filter(fs[j])) ==> scan_filters(fs, i).0 == Seq::<char>::empty(),
        forall|j: int| 0 <= j < i && #[trigger] is_path_filter(fs[j]) && (forall|l: int| j < l < i ==> !is_path_filter(fs[l]))
            ==> scan_filters(fs, i).0 == after_colon(fs[j].0.spec_info()),
    decreases i,
{
    reveal(Seq::filter);
    let pred = |f: BoxedFilter| !is_path_filter(f);
    if i == 0 {
        assert(fs.take(0).filter(pred) =~= Seq::<BoxedFilter>::empty());
        assert(other_labels(fs.take(0)) =~= Seq::<Seq<char>>::empty());
    } else {
        lemma_scan_characterized(fs, i - 1);
        let f = fs[i - 1];
        assert(fs.take(i).drop_last() =~= fs.take(i - 1));
        assert(fs.take(i).last() == f);
        let sub = fs.take(i - 1).filter(pred);
        assert(path_tag() =~= seq!['p', 'a', 't', 'h', ':']);
        if is_path_filter(f) {
            assert(fs.take(i).filter(pred) == sub);
        } else {
            assert(fs.take(i).filter(pred) == sub.push(f));
            assert(sub.push(f).map_values(|g: BoxedFilter| after_colon(g.0.spec_info()))
                =~= sub.map_values(|g: BoxedFilter| after_colon(g.0.spec_info())).push(after_colon(f.0.spec_info())));
        }
        assert forall|j: int| 0 <= j < i && #[trigger] is_path_filter(fs[j]) && (forall|l: int| j < l < i ==> !is_path_filter(fs[l]))
            implies scan_filters(fs, i).0 == after_colon(fs[j].0.spec_info()) by {
            if j < i - 1 {
                assert(!is_path_filter(fs[i - 1]));
            }
        }
    }
}

/// A router's line shows, before the brackets, the pattern of its last path
/// filter (nothing when it has none), wherever that filter stands among its
/// filters; the brackets hold exactly the descriptions of its other filters,
/// in order.
pub proof fn law_listing_path_and_other_filters(fs: Seq<BoxedFilter>)
    requires
        fs.len() > 0,
    ensures
        (forall|j: int| 0 <= j < fs.len() ==> !#[trigger] is_path_filter(fs[j])) ==> filters_label(fs) == bracketed(other_labels(fs)),
        forall|j: int| 0 <= j < fs.len() && #[trigger] is_path_filter(fs[j]) && (forall|l: int| j < l < fs.len() ==> !is_path_filter(fs[l]))
            ==> filters_label(fs) == after_colon(fs[j].0.spec_info()) + bracketed(other_labels(fs)),
{
    lemma_scan_characterized(fs, fs.len() as int);
    assert(fs.take(fs.len() as int) =~= fs);
    let others = other_labels(fs);
    if others.len() == 0 {
        assert(forall|p: Seq<char>| p + Seq::<char>::empty() == p);
    }
    assert forall|j: int| 0 <= j < fs.len() && #[trigger] is_path_filter(fs[j]) && (forall|l: int| j < l < fs.len() ==> !is_path_filter(fs[l]))
        implies filters_label(fs) == after_colon(fs[j].0.spec_info()) + bracketed(others) by {
        let p = after_colon(fs[j].0.spec_info());
        if others.len() == 0 {
            assert(p + bracketed(others) =~= p);
        } else {
            assert(p + seq!['['] + seq_join(others, seq![',']) + seq![']'] =~= p + bracketed(others));
        }
    }
    if forall|j: int| 0 <= j < fs.len() ==> !#[trigger] is_path_filter(fs[j]) {
        if others.len() == 0 {
            assert(Seq::<char>::empty() =~= bracketed(others));
        } else {
            assert(Seq::<char>::empty() + seq!['['] + seq_join(others, seq![',']) + seq![']'] =~= bracketed(others));
        }
    }
}

proof fn lemma_find_from_first(s: Seq<char>, pat: Seq<char>, from: int)
    requires
        0 <= from,
    ensures
        find_from(s, pat, from) matches Some(e) ==> from <= e && occurs_at(s, pat, e)
            && forall|j: int| from <= j < e ==> !#[trigger] occurs_at(s, pat, j),
        find_from(s, pat, from) is None ==> forall|j: int| from <= j ==> !#[trigger] occurs_at(s, pat, j),
    decreases s.len() + 1 - from,
{
    if from <= s.len() && !occurs_at(s, pat, from) {
        lemma_find_from_first(s, pat, from + 1);
    }
}

/// A plain parameter `<name>` that matches captures under `name` exactly
/// the text the cursor moves over in its segment, which is not empty: up to
/// the first later occurrence of the literal text that follows it in the
/// pattern, or else all of the rest of the segment.
pub proof fn law_plain_param_captures_what_it_consumes(name: Seq<char>, next: Option<WispView>, st: PathStateView)
    requires
        valid_cursor(st),
        match_wisp(WispView::Param { name: name, stars: 0, regex: None }, next, st) is Some,
    ensures
        ({
            let st2 = match_wisp(WispView::Param { name: name, stars: 0, regex: None }, next, st)->0;
            let t = spec_pick(st)->0;
            let k = st2.cursor.1 - st.cursor.1;
            &&& spec_pick(st) is Some
            &&& st2.cursor.0 == st.cursor.0
            &&& 0 < k <= t.len()
            &&& params_get(st2.params, name) == Some(t.take(k))
            &&& match next {
                Some(WispView::Const(c)) => occurs_at(t, c, k) && forall|j: int| 1 <= j < k ==> !#[trigger] occurs_at(t, c, j),
                _ => k == t.len(),
            }
        }),
{
    let t = spec_pick(st)->0;
    let row = st.cursor.0 as int;
    assert(st.parts[row].len() <= usize::MAX);
    match next {
        Some(WispView::Const(c)) => {
            lemma_find_from_first(t, c, 1);
            let k = find_from(t, c, 1)->0;
            law_param_read_after_write(st.params, name, t.take(k));
        },
        _ => {
            law_param_read_after_write(st.params, name, t);
            assert(t.take(t.len() as int) =~= t);
        },
    }
}

/// A literal piece matches exactly when the rest of the segment starts with
/// it, and then moves the cursor past it within the segment, capturing
/// nothing.
pub proof fn law_literal_piece(c: Seq<char>, next: Option<WispView>, st: PathStateView)
    requires
        valid_cursor(st),
    ensures
        match_wisp(WispView::Const(c), next, st) is Some <==> (spec_pick(st) matches Some(t) && t.len() >= c.len() && t.take(c.len() as int) == c),
        match_wisp(WispView::Const(c), next, st) matches Some(st2) ==> st2 == (PathStateView {
            cursor: (st.cursor.0, (st.cursor.1 + c.len()) as usize),
            ..st
        }),
{
}

} // verus!
