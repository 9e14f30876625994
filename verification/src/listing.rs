//! The indented text listing of a router tree, one router per line.

use vstd::prelude::*;
use crate::filter::{Filter, BoxedFilter};
use crate::handler::Handler;
use crate::router::Router;
use crate::text::{push_all, push_joined, seq_join, chars_of, index_of_any, find_any};

verus! {

/// `│`, which continues a branch past a router that has later siblings.
pub open spec fn symbol_down() -> char { '\u{2502}' }
/// `├`, the corner of a router that has later siblings.
pub open spec fn symbol_tee() -> char { '\u{251c}' }
/// `└`, the corner of a last child.
pub open spec fn symbol_ell() -> char { '\u{2514}' }
/// `─`, the horizontal stroke of a branch.
pub open spec fn symbol_right() -> char { '\u{2500}' }

/// `"path:"`, the prefix of a path filter's description.
pub open spec fn path_tag() -> Seq<char> {
    seq!['p', 'a', 't', 'h', ':']
}

/// The part of a description after its first `':'`, or all of it when there
/// is no `':'`.
pub open spec fn after_colon(info: Seq<char>) -> Seq<char> {
    let k = index_of_any(info, seq![':']);
    if k < info.len() {
        info.skip(k + 1)
    } else {
        info
    }
}

/// What the first `i` filters contribute to a line: the path (the last path
/// filter's pattern) and the descriptions of the other filters.
pub open spec fn scan_filters(fs: Seq<BoxedFilter>, i: int) -> (Seq<char>, Seq<Seq<char>>)
    decreases i,
{
    if i <= 0 || i > fs.len() {
        (Seq::empty(), Seq::empty())
    } else {
        let (path, others) = scan_filters(fs, i - 1);
        let info = fs[i - 1].0.spec_info();
        if info.len() >= 5 && info.take(5) == path_tag() {
            (after_colon(info), others)
        } else {
            (path, others.push(after_colon(info)))
        }
    }
}

/// The text shown for a router's filters: `!NULL!` without filters, else its
/// path followed by the other filters in brackets.
pub open spec fn filters_label(fs: Seq<BoxedFilter>) -> Seq<char> {
    if fs.len() == 0 {
        seq!['!', 'N', 'U', 'L', 'L', '!']
    } else {
        let (path, others) = scan_filters(fs, fs.len() as int);
        if others.len() == 0 {
            path
        } else {
            path + seq!['['] + seq_join(others, seq![',']) + seq![']']
        }
    }
}

/// The branch drawn before a router's line.
pub open spec fn branch(prefix: Seq<char>, last: bool) -> Seq<char> {
    prefix + seq![if last { symbol_ell() } else { symbol_tee() }, symbol_right(), symbol_right()]
}

/// The prefix of the lines of a router's children.
pub open spec fn child_prefix(prefix: Seq<char>, last: bool) -> Seq<char> {
    if last {
        prefix + seq![' ', ' ', ' ', ' ']
    } else {
        prefix + seq![symbol_down(), ' ', ' ', ' ']
    }
}

/// `" -> name"` for a router with a handler, nothing otherwise.
pub open spec fn handler_label<H: Handler>(h: Option<H>) -> Seq<char> {
    match h {
        Some(h) => seq![' ', '-', '>', ' '] + h.spec_name(),
        None => Seq::empty(),
    }
}

/// The line of one router.
pub open spec fn router_line<H: Handler>(r: Router<H>, prefix: Seq<char>, last: bool) -> Seq<char> {
    branch(prefix, last) + filters_label(r.filters@) + handler_label(r.handler) + seq!['\n']
}

/// The listing of a router and, below it, its descendants.
pub open spec fn render<H: Handler>(r: Router<H>, prefix: Seq<char>, last: bool) -> Seq<char>
    decreases r, r.routers@.len() + 1,
{
    router_line(r, prefix, last) + render_children(r, child_prefix(prefix, last), 0)
}

/// The listings of the children `r.routers[i..]`.
pub open spec fn render_children<H: Handler>(r: Router<H>, prefix: Seq<char>, i: int) -> Seq<char>
    decreases r, r.routers@.len() - i,
{
    if i < 0 || i >= r.routers@.len() {
        Seq::empty()
    } else {
        proof {
            assert(decreases_to!(r => r.routers));
        }
        render(r.routers@[i], prefix, i == r.routers@.len() - 1) + render_children(r, prefix, i + 1)
    }
}

/// `after_colon` on a concrete description.
fn after_colon_exec(info: &[char]) -> (r: Vec<char>)
    ensures
        r@ == after_colon(info@),
{
    let k = find_any(info, &[':'], 0);
    proof {
        assert(seq![':'] =~= [':']@);
    }
    if k < info.len() {
        crate::text::slice_chars(info, k + 1, info.len())
    } else {
        crate::text::slice_chars(info, 0, info.len())
    }
}

/// Appends the filters label of `fs` to `out`.
fn push_filters_label(out: &mut String, fs: &Vec<BoxedFilter>)
    ensures
        final(out)@ == old(out)@ + filters_label(fs@),
{
    if fs.len() == 0 {
        push_all(out, &['!', 'N', 'U', 'L', 'L', '!']);
        assert(['!', 'N', 'U', 'L', 'L', '!']@ =~= seq!['!', 'N', 'U', 'L', 'L', '!']);
        return;
    }
    let mut path: Vec<char> = Vec::new();
    let mut others: Vec<Vec<char>> = Vec::new();
    let mut i: usize = 0;
    while i < fs.len()
        invariant
            i <= fs@.len(),
            (path@, others@.map_values(|v: Vec<char>| v@)) == scan_filters(fs@, i as int),
        decreases fs@.len() - i,
    {
        let info = chars_of(fs[i].0.info().as_str());
        let tag = ['p', 'a', 't', 'h', ':'];
        proof {
            assert(tag@ =~= path_tag());
        }
        let is_path = crate::text::matches_at(info.as_slice(), &tag, 0);
        proof {
            assert(is_path == (info@.len() >= 5 && info@.take(5) == path_tag())) by {
                assert(info@.len() >= 5 ==> info@.subrange(0, 5) =~= info@.take(5));
            }
        }
        let ghost before = others@.map_values(|v: Vec<char>| v@);
        if is_path {
            path = after_colon_exec(info.as_slice());
        } else {
            others.push(after_colon_exec(info.as_slice()));
            assert(others@.map_values(|v: Vec<char>| v@) =~= before.push(after_colon(info@)));
        }
        i += 1;
    }
    let others_empty = others.len() == 0;
    push_all(out, path.as_slice());
    if !others_empty {
        push_all(out, &['[']);
        push_joined(out, &others, &[',']);
        push_all(out, &[']']);
        assert([',']@ =~= seq![',']);
        assert(['[']@ =~= seq!['[']);
        assert([']']@ =~= seq![']']);
    }
}

impl<H: Handler> Router<H> {
    /// Appends the listing of this router, drawn below `prefix`, to `out`.
    fn push_listing(&self, out: &mut String, prefix: &Vec<char>, last: bool)
        ensures
            final(out)@ == old(out)@ + render(*self, prefix@, last),
        decreases self,
    {
        let ghost start = out@;
        push_all(out, prefix.as_slice());
        let corner = if last { '\u{2514}' } else { '\u{251c}' };
        push_all(out, &[corner, '\u{2500}', '\u{2500}']);
        assert([corner, '\u{2500}', '\u{2500}']@ =~= seq![corner, symbol_right(), symbol_right()]);
        push_filters_label(out, &self.filters);
        match &self.handler {
            Some(h) => {
                push_all(out, &[' ', '-', '>', ' ']);
                assert([' ', '-', '>', ' ']@ =~= seq![' ', '-', '>', ' ']);
                let name = chars_of(h.name().as_str());
                push_all(out, name.as_slice());
            },
            None => {},
        }
        push_all(out, &['\n']);
        assert(['\n']@ =~= seq!['\n']);
        assert(out@ =~= start + router_line(*self, prefix@, last));
        let mut child_prefix_v: Vec<char> = crate::text::slice_chars(prefix.as_slice(), 0, prefix.len());
        if last {
            push_all_vec(&mut child_prefix_v, &[' ', ' ', ' ', ' ']);
            assert([' ', ' ', ' ', ' ']@ =~= seq![' ', ' ', ' ', ' ']);
        } else {
            push_all_vec(&mut child_prefix_v, &['\u{2502}', ' ', ' ', ' ']);
            assert(['\u{2502}', ' ', ' ', ' ']@ =~= seq![symbol_down(), ' ', ' ', ' ']);
        }
        assert(prefix@.subrange(0, prefix@.len() as int) =~= prefix@);
        let ghost cp = child_prefix(prefix@, last);
        let n = self.routers.len();
        let mut i: usize = 0;
        while i < n
            invariant
                n == self.routers@.len(),
                i <= n,
                child_prefix_v@ == cp,
                render_children(*self, cp, 0) == out@.skip((start + router_line(*self, prefix@, last)).len() as int) + render_children(*self, cp, i as int),
                out@.len() >= (start + router_line(*self, prefix@, last)).len(),
                out@.take((start + router_line(*self, prefix@, last)).len() as int) == start + router_line(*self, prefix@, last),
            decreases n - i,
        {
            proof {
                assert(decreases_to!(*self => self.routers));
            }
            let ghost before = out@;
            self.routers[i].push_listing(out, &child_prefix_v, i == n - 1);
            proof {
                let k = (start + router_line(*self, prefix@, last)).len() as int;
                assert(out@.skip(k) =~= before.skip(k) + render(self.routers@[i as int], cp, i == n - 1));
                assert(out@.take(k) =~= before.take(k));
            }
            i += 1;
        }
        proof {
            let k = (start + router_line(*self, prefix@, last)).len() as int;
            assert(out@ =~= out@.take(k) + out@.skip(k));
        }
    }

    /// The listing of the router tree, one line per router: the tree
    /// drawing, the router's path, its other filters in brackets and the
    /// name of its handler.
    pub fn to_tree_string(&self) -> (s: String)
        ensures
            s@ == render(*self, Seq::empty(), true),
    {
        let mut out = String::new();
        let prefix: Vec<char> = Vec::new();
        self.push_listing(&mut out, &prefix, true);
        assert(out@ =~= Seq::<char>::empty() + render(*self, prefix@, true));
        out
    }
}

/// Appends the characters of `cs` to `v`.
fn push_all_vec(v: &mut Vec<char>, cs: &[char])
    ensures
        final(v)@ == old(v)@ + cs@,
{
    let mut i: usize = 0;
    while i < cs.len()
        invariant
            i <= cs@.len(),
            v@ == old(v)@ + cs@.take(i as int),
        decreases cs@.len() - i,
    {
        v.push(cs[i]);
        i += 1;
        assert(v@ =~= old(v)@ + cs@.take(i as int));
    }
    assert(cs@.take(cs@.len() as int) =~= cs@);
}

} // verus!
