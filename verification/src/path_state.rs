//! The cursor that path filters move along the segments of a request path.

use vstd::prelude::*;
use vstd::string::*;
use vstd::utf8::{encode_utf8, valid_utf8, decode_utf8};
use crate::foreign::{percent_decode, decode_utf8_lossy, percent_decoded, utf8_lossy};
use crate::text::{chars_of, string_of, slice_chars, find_any, push_all, index_of_any_from, lemma_index_of_any_from};

verus! {

/// Parameters captured from the path, in the order of their first capture.
pub struct PathParams {
    pub entries: Vec<(String, String)>,
}

/// The state of path matching: the decoded segments of the path, a cursor
/// (segment, character within it), the captured parameters and whether the
/// path ended with a slash.
pub struct PathState {
    pub parts: Vec<String>,
    pub cursor: (usize, usize),
    pub params: PathParams,
    pub end_slash: bool,
}

/// The mathematical value of a [`PathState`].
pub struct PathStateView {
    pub parts: Seq<Seq<char>>,
    pub cursor: (usize, usize),
    pub params: Seq<(Seq<char>, Seq<char>)>,
    pub end_slash: bool,
}

impl View for PathParams {
    type V = Seq<(Seq<char>, Seq<char>)>;

    open spec fn view(&self) -> Seq<(Seq<char>, Seq<char>)> {
        self.entries@.map_values(|e: (String, String)| (e.0@, e.1@))
    }
}

impl View for PathState {
    type V = PathStateView;

    open spec fn view(&self) -> PathStateView {
        PathStateView {
            parts: self.parts@.map_values(|p: String| p@),
            cursor: self.cursor,
            params: self.params@,
            end_slash: self.end_slash,
        }
    }
}

/// Position of the first entry of `ps` at or after `i` whose key is `k`, or
/// `ps.len()` when there is none.
pub open spec fn key_index(ps: Seq<(Seq<char>, Seq<char>)>, k: Seq<char>, i: int) -> int
    decreases ps.len() - i,
{
    if i < 0 || i >= ps.len() {
        ps.len() as int
    } else if ps[i].0 == k {
        i
    } else {
        key_index(ps, k, i + 1)
    }
}

/// `key_index` finds the first entry with key `k` at or after `i`.
pub proof fn lemma_key_index(ps: Seq<(Seq<char>, Seq<char>)>, k: Seq<char>, i: int)
    requires
        0 <= i <= ps.len(),
    ensures
        i <= key_index(ps, k, i) <= ps.len(),
        key_index(ps, k, i) < ps.len() ==> ps[key_index(ps, k, i)].0 == k,
        forall|j: int| i <= j < key_index(ps, k, i) ==> ps[j].0 != k,
    decreases ps.len() - i,
{
    if i < ps.len() && ps[i].0 != k {
        lemma_key_index(ps, k, i + 1);
    }
}

/// The value recorded under `k`.
pub open spec fn params_get(ps: Seq<(Seq<char>, Seq<char>)>, k: Seq<char>) -> Option<Seq<char>> {
    let i = key_index(ps, k, 0);
    if i < ps.len() {
        Some(ps[i].1)
    } else {
        None
    }
}

/// Records `v` under `k`: replaces the value of an existing key in place, or
/// appends a new entry.
pub open spec fn params_insert(ps: Seq<(Seq<char>, Seq<char>)>, k: Seq<char>, v: Seq<char>) -> Seq<(Seq<char>, Seq<char>)> {
    let i = key_index(ps, k, 0);
    if i < ps.len() {
        ps.update(i, (k, v))
    } else {
        ps.push((k, v))
    }
}

impl PathParams {
    /// A copy of the parameters.
    pub fn duplicate(&self) -> (r: PathParams)
        ensures
            r@ == self@,
    {
        let mut entries: Vec<(String, String)> = Vec::new();
        let mut i: usize = 0;
        while i < self.entries.len()
            invariant
                i <= self.entries@.len(),
                entries@.len() == i,
                forall|j: int| 0 <= j < i ==> #[trigger] entries@[j] == self.entries@[j],
            decreases self.entries@.len() - i,
        {
            let k = self.entries[i].0.clone();
            let v = self.entries[i].1.clone();
            entries.push((k, v));
            i += 1;
        }
        let r = PathParams { entries };
        assert(r.entries@ =~= self.entries@);
        r
    }

    /// No parameters.
    pub fn new() -> (r: PathParams)
        ensures
            r@ == Seq::<(Seq<char>, Seq<char>)>::empty(),
    {
        let r = PathParams { entries: Vec::new() };
        assert(r@ =~= Seq::<(Seq<char>, Seq<char>)>::empty());
        r
    }

    /// The value captured under `name`.
    pub fn get(&self, name: &str) -> (r: Option<String>)
        ensures
            match r {
                Some(v) => params_get(self@, name@) == Some(v@),
                None => params_get(self@, name@) is None,
            },
    {
        let key = String::from_str(name);
        let mut i: usize = 0;
        while i < self.entries.len()
            invariant
                i <= self.entries@.len(),
                key@ == name@,
                key_index(self@, name@, 0) == key_index(self@, name@, i as int),
            decreases self.entries@.len() - i,
        {
            if self.entries[i].0 == key {
                return Some(self.entries[i].1.clone());
            }
            i += 1;
        }
        None
    }

    /// Records `value` under `name`, replacing an earlier value.
    pub fn insert(&mut self, name: String, value: String)
        ensures
            final(self)@ == params_insert(old(self)@, name@, value@),
    {
        let ghost ps = self@;
        proof {
            lemma_key_index(ps, name@, 0);
        }
        let mut i: usize = 0;
        while i < self.entries.len()
            invariant
                i <= self.entries@.len(),
                ps == self@,
                ps == old(self)@,
                key_index(ps, name@, 0) == key_index(ps, name@, i as int),
            decreases self.entries@.len() - i,
        {
            if self.entries[i].0 == name {
                assert(ps[i as int].0 == name@);
                assert(key_index(ps, name@, i as int) == i as int);
                self.entries.set(i, (name, value));
                assert(self@ =~= ps.update(i as int, (name@, value@)));
                return;
            }
            i += 1;
        }
        self.entries.push((name, value));
        assert(self@ =~= ps.push((name@, value@)));
    }
}

/// The segment at the cursor from the cursor's character on, if the cursor
/// is inside the path.
pub open spec fn spec_pick(st: PathStateView) -> Option<Seq<char>> {
    if st.cursor.0 < st.parts.len() && st.cursor.1 <= st.parts[st.cursor.0 as int].len() {
        Some(st.parts[st.cursor.0 as int].skip(st.cursor.1 as int))
    } else {
        None
    }
}

/// `"/" + parts[k] + "/" + parts[k + 1] + ...`.
pub open spec fn joined_from(parts: Seq<Seq<char>>, k: int) -> Seq<char>
    decreases parts.len() - k,
{
    if k < 0 || k >= parts.len() {
        Seq::empty()
    } else {
        seq!['/'] + parts[k] + joined_from(parts, k + 1)
    }
}

/// All of the path from the cursor on, with the trailing slash if the path
/// had one; `None` outside the path.
pub open spec fn spec_all_rest(st: PathStateView) -> Option<Seq<char>> {
    match spec_pick(st) {
        Some(p) => Some(p + joined_from(st.parts, st.cursor.0 + 1) + if st.end_slash {
            seq!['/']
        } else {
            Seq::empty()
        }),
        None => None,
    }
}

/// The cursor after moving `n` characters forward along the path, where the
/// slash between two segments counts as one character.
pub open spec fn advance(parts: Seq<Seq<char>>, row: nat, col: nat, n: nat) -> (nat, nat)
    decreases n,
{
    if row >= parts.len() {
        (row, col)
    } else {
        let len = parts[row as int].len();
        let r: nat = if col <= len { (len - col) as nat } else { 0 };
        if n <= r {
            (row, col + n)
        } else {
            advance(parts, row + 1, 0, (n - r - 1) as nat)
        }
    }
}

/// Moving forward from a cursor inside the path keeps it inside the path,
/// never moves it back a segment, and leaves it past the last segment only
/// at column 0.
pub proof fn lemma_advance_bounds(parts: Seq<Seq<char>>, row: nat, col: nat, n: nat)
    requires
        row <= parts.len(),
        row < parts.len() ==> col <= parts[row as int].len(),
        row == parts.len() ==> col == 0,
    ensures
        advance(parts, row, col, n).0 <= parts.len(),
        advance(parts, row, col, n).0 >= row,
        advance(parts, row, col, n).0 < parts.len() ==> advance(parts, row, col, n).1 <= parts[advance(parts, row, col, n).0 as int].len(),
        advance(parts, row, col, n).0 == parts.len() ==> advance(parts, row, col, n).1 == 0,
    decreases n,
{
    if row < parts.len() {
        let len = parts[row as int].len();
        let r: nat = (len - col) as nat;
        if n > r {
            lemma_advance_bounds(parts, row + 1, 0, (n - r - 1) as nat);
        }
    }
}

/// The path of a request split at its slashes, empty pieces dropped.
pub open spec fn split_segments(s: Seq<char>, i: int) -> Seq<Seq<char>>
    decreases s.len() + 1 - i,
{
    if i < 0 || i >= s.len() {
        Seq::empty()
    } else {
        let j = index_of_any_from(s, seq!['/'], i);
        proof {
            lemma_index_of_any_from(s, seq!['/'], i);
        }
        let seg = s.subrange(i, j);
        if seg.len() == 0 {
            split_segments(s, j + 1)
        } else {
            seq![seg] + split_segments(s, j + 1)
        }
    }
}

/// A path segment with its percent escapes decoded, read as UTF-8 (lossily).
pub open spec fn decode_segment(seg: Seq<char>) -> Seq<char> {
    utf8_lossy(percent_decoded(encode_utf8(seg)))
}

/// The state of matching at the start of `path`.
pub open spec fn initial_state(path: Seq<char>) -> PathStateView {
    PathStateView {
        parts: split_segments(path, 0).map_values(|seg: Seq<char>| decode_segment(seg)),
        cursor: (0, 0),
        params: Seq::empty(),
        end_slash: path.len() > 0 && path.last() == '/',
    }
}

/// Whether every segment of the path has been consumed.
pub open spec fn spec_ended(st: PathStateView) -> bool {
    st.cursor.0 >= st.parts.len()
}

impl PathState {
    /// The state at the start of matching `url_path`: its non-empty
    /// segments, each percent-decoded, with the cursor on the first.
    pub fn new(url_path: &str) -> (r: PathState)
        ensures
            r@ == initial_state(url_path@),
            forall|k: int| 0 <= k < r@.parts.len()
                && #[trigger] valid_utf8(percent_decoded(encode_utf8(split_segments(url_path@, 0)[k])))
                ==> r@.parts[k] == decode_utf8(percent_decoded(encode_utf8(split_segments(url_path@, 0)[k]))),
    {
        let cs = chars_of(url_path);
        let end_slash = cs.len() > 0 && cs[cs.len() - 1] == '/';
        let mut parts: Vec<String> = Vec::new();
        let ghost all = split_segments(cs@, 0);
        let ghost mut raws: Seq<Seq<char>> = Seq::empty();
        let mut i: usize = 0;
        while i < cs.len()
            invariant
                i <= cs@.len(),
                all == split_segments(cs@, 0),
                all == raws + split_segments(cs@, i as int),
                parts@.len() == raws.len(),
                forall|k: int| 0 <= k < raws.len() ==> #[trigger] parts@[k]@ == decode_segment(raws[k]),
                forall|k: int| 0 <= k < raws.len() && #[trigger] valid_utf8(percent_decoded(encode_utf8(raws[k])))
                    ==> parts@[k]@ == decode_utf8(percent_decoded(encode_utf8(raws[k]))),
            decreases cs@.len() - i,
        {
            let j = find_any(cs.as_slice(), &['/'], i);
            proof {
                assert(['/']@ =~= seq!['/']);
                lemma_index_of_any_from(cs@, seq!['/'], i as int);
            }
            let ghost raws_before = raws;
            if j > i {
                let raw = string_of(slice_chars(cs.as_slice(), i, j).as_slice());
                let bytes = percent_decode(raw.as_str());
                let part = decode_utf8_lossy(bytes.as_slice());
                parts.push(part);
                proof {
                    raws = raws.push(cs@.subrange(i as int, j as int));
                }
            }
            assert(split_segments(cs@, i as int) == if j > i {
                seq![cs@.subrange(i as int, j as int)] + split_segments(cs@, j + 1)
            } else {
                split_segments(cs@, j + 1)
            });
            if j == cs.len() {
                assert(split_segments(cs@, j + 1) == Seq::<Seq<char>>::empty());
                i = j;
            } else {
                i = j + 1;
            }
            assert(all =~= raws + split_segments(cs@, i as int));
            assert forall|k: int| 0 <= k < raws.len() implies #[trigger] parts@[k]@ == decode_segment(raws[k]) by {
                if k < raws_before.len() {
                    assert(raws[k] == raws_before[k]);
                }
            }
            assert forall|k: int| 0 <= k < raws.len() && #[trigger] valid_utf8(percent_decoded(encode_utf8(raws[k])))
                implies parts@[k]@ == decode_utf8(percent_decoded(encode_utf8(raws[k]))) by {
                if k < raws_before.len() {
                    assert(raws[k] == raws_before[k]);
                }
            }
        }
        assert(split_segments(cs@, i as int) =~= Seq::<Seq<char>>::empty());
        assert(raws =~= all);
        let r = PathState { parts, cursor: (0, 0), params: PathParams::new(), end_slash };
        assert(r@.parts =~= all.map_values(|seg: Seq<char>| decode_segment(seg)));
        r
    }

    /// The rest of the segment at the cursor, if the cursor is in the path.
    pub fn pick(&self) -> (r: Option<String>)
        ensures
            match r {
                Some(p) => spec_pick(self@) == Some(p@),
                None => spec_pick(self@) is None,
            },
    {
        match self.pick_chars() {
            Some(cs) => Some(string_of(cs.as_slice())),
            None => None,
        }
    }

    pub(crate) fn pick_chars(&self) -> (r: Option<Vec<char>>)
        ensures
            match r {
                Some(p) => spec_pick(self@) == Some(p@),
                None => spec_pick(self@) is None,
            },
            r matches Some(p) ==> self.cursor.1 + p@.len() <= usize::MAX,
    {
        if self.cursor.0 < self.parts.len() {
            let cs = chars_of(self.parts[self.cursor.0].as_str());
            if self.cursor.1 <= cs.len() {
                assert(cs@.subrange(self.cursor.1 as int, cs@.len() as int) =~= cs@.skip(self.cursor.1 as int));
                return Some(slice_chars(cs.as_slice(), self.cursor.1, cs.len()));
            }
        }
        None
    }

    /// All of the path from the cursor on (segments joined by slashes, with
    /// the trailing slash if the path had one), if the cursor is in the path.
    pub fn all_rest(&self) -> (r: Option<String>)
        ensures
            match r {
                Some(p) => spec_all_rest(self@) == Some(p@),
                None => spec_all_rest(self@) is None,
            },
    {
        match self.all_rest_chars() {
            Some(cs) => Some(string_of(cs.as_slice())),
            None => None,
        }
    }

    #[verifier::rlimit(80)]
    pub(crate) fn all_rest_chars(&self) -> (r: Option<Vec<char>>)
        ensures
            match r {
                Some(p) => spec_all_rest(self@) == Some(p@),
                None => spec_all_rest(self@) is None,
            },
    {
        match self.pick_chars() {
            Some(first) => {
                let mut out = string_of(first.as_slice());
                let nparts = self.parts.len();
                assert(self.cursor.0 < nparts);
                let mut k = self.cursor.0 + 1;
                let ghost parts = self@.parts;
                while k < self.parts.len()
                    invariant
                        self.cursor.0 < k <= self.parts@.len(),
                        parts == self@.parts,
                        out@ + joined_from(parts, k as int) == first@ + joined_from(parts, self.cursor.0 + 1),
                    decreases self.parts@.len() - k,
                {
                    let ghost before = out@;
                    push_all(&mut out, &['/']);
                    let seg = chars_of(self.parts[k].as_str());
                    push_all(&mut out, seg.as_slice());
                    assert(out@ =~= before + (seq!['/'] + parts[k as int]));
                    assert(joined_from(parts, k as int) =~= (seq!['/'] + parts[k as int]) + joined_from(parts, k + 1));
                    k += 1;
                }
                assert(joined_from(parts, k as int) =~= Seq::<char>::empty());
                if self.end_slash {
                    push_all(&mut out, &['/']);
                    assert(['/']@ =~= seq!['/']);
                }
                let r = chars_of(out.as_str());
                assert(r@ =~= first@ + joined_from(parts, self.cursor.0 + 1) + if self.end_slash { seq!['/'] } else { Seq::<char>::empty() });
                Some(r)
            },
            None => None,
        }
    }

    /// Moves the cursor `steps` characters forward along the path (the slash
    /// between segments counts as one).
    pub fn forward(&mut self, steps: usize)
        ensures
            final(self)@ == (PathStateView {
                cursor: ({
                    let c = advance(old(self)@.parts, old(self)@.cursor.0 as nat, old(self)@.cursor.1 as nat, steps as nat);
                    (c.0 as usize, c.1 as usize)
                }),
                ..old(self)@
            }),
    {
        let ghost parts = self@.parts;
        let ghost target = advance(parts, self.cursor.0 as nat, self.cursor.1 as nat, steps as nat);
        let mut n = steps;
        let mut row = self.cursor.0;
        let mut col = self.cursor.1;
        loop
            invariant
                parts == self@.parts,
                advance(parts, row as nat, col as nat, n as nat) == target,
            ensures
                (row as nat, col as nat) == target,
            decreases n,
        {
            if row >= self.parts.len() {
                break;
            }
            let len = self.parts[row].as_str().unicode_len();
            let r = if col <= len { len - col } else { 0 };
            if n <= r {
                col = col + n;
                n = 0;
                break;
            }
            n = n - r - 1;
            row = row + 1;
            col = 0;
        }
        self.cursor = (row, col);
    }

    /// Whether every segment of the path has been consumed.
    pub fn ended(&self) -> (r: bool)
        ensures
            r == spec_ended(self@),
    {
        self.cursor.0 >= self.parts.len()
    }
}

} // verus!
