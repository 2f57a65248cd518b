//! Paths as texts, compared by their components: what is joined, stripped,
//! expanded and excluded.

use crate::text::{chars_eq, chars_of, concat2, concat3, opt_view, str_eq, strip_prefix, texts};
use vstd::prelude::*;

verus! {

/// A path is absolute if it starts at the root.
pub open spec fn absolute(p: Seq<char>) -> bool {
    p.len() > 0 && p[0] == '/'
}

/// Where the text after the last separator of `p` starts.
pub open spec fn piece_start(p: Seq<char>) -> int
    decreases p.len(),
{
    if p.len() == 0 || p.last() == '/' {
        p.len() as int
    } else {
        piece_start(p.drop_last())
    }
}

/// Whether the piece of `p` from `from` to `to` is a component: an empty piece
/// is none, and `.` is one only at the very start of a path.
pub open spec fn piece_counts(p: Seq<char>, from: int, to: int) -> bool {
    from < to && !(from > 0 && to == from + 1 && p[from] == '.')
}

/// The last piece of a path starts behind its last separator.
pub proof fn lemma_piece_start(p: Seq<char>)
    ensures
        0 <= piece_start(p) <= p.len(),
        p.len() > 0 && p.last() != '/' ==> piece_start(p) < p.len(),
        piece_start(p) > 0 ==> p[piece_start(p) - 1] == '/',
        forall|i: int| piece_start(p) <= i < p.len() ==> p[i] != '/',
    decreases p.len(),
{
    if p.len() > 0 && p.last() != '/' {
        lemma_piece_start(p.drop_last());
        assert forall|i: int| piece_start(p) <= i < p.len() implies p[i] != '/' by {
            if i < p.len() - 1 {
                assert(p.drop_last()[i] == p[i]);
            }
        }
    }
}

/// Where the components of `p` stand, the root left out: for each the position
/// of its first character and the position behind its last.
pub open spec fn body_spans(p: Seq<char>) -> Seq<(int, int)>
    decreases p.len(),
{
    if p.len() == 0 {
        Seq::empty()
    } else if p.last() == '/' {
        body_spans(p.drop_last())
    } else {
        proof {
            lemma_piece_start(p);
        }
        let start = piece_start(p);
        let before = body_spans(p.take(start));
        if piece_counts(p, start, p.len() as int) {
            before.push((start, p.len() as int))
        } else {
            before
        }
    }
}

/// Where the components of `p` stand. The root of an absolute path is its first
/// component, and its text is the separator that the path starts with.
pub open spec fn component_spans(p: Seq<char>) -> Seq<(int, int)> {
    if absolute(p) {
        seq![(0int, 1int)] + body_spans(p)
    } else {
        body_spans(p)
    }
}

/// The texts of the components of `p`.
pub open spec fn components(p: Seq<char>) -> Seq<Seq<char>> {
    component_spans(p).map_values(|s: (int, int)| p.subrange(s.0, s.1))
}

/// Two paths are the same if their components are.
pub open spec fn same_path(a: Seq<char>, b: Seq<char>) -> bool {
    components(a) == components(b)
}

/// `p` is `base` or lies beneath it: its components start with those of `base`.
pub open spec fn path_within(p: Seq<char>, base: Seq<char>) -> bool {
    components(base).is_prefix_of(components(p))
}

/// `rel` seen from `base`: an absolute path stands for itself, any other goes
/// behind `base`, with a separator between them where `base` does not end with
/// one.
pub open spec fn joined(base: Seq<char>, rel: Seq<char>) -> Seq<char> {
    if absolute(rel) {
        rel
    } else if base.len() == 0 || base.last() == '/' {
        base + rel
    } else {
        base.push('/') + rel
    }
}

/// The text of `p` from its component number `n` to its last one.
pub open spec fn text_from(p: Seq<char>, n: int) -> Seq<char> {
    let spans = component_spans(p);
    if n < spans.len() {
        p.subrange(spans[n].0, spans.last().1)
    } else {
        Seq::empty()
    }
}

/// `p` as seen from `base`, if it lies within `base`.
pub open spec fn relative_to(p: Seq<char>, base: Seq<char>) -> Option<Seq<char>> {
    if path_within(p, base) {
        Some(text_from(p, components(base).len() as int))
    } else {
        None
    }
}

/// `path` with a leading `~` read as the home directory.
pub open spec fn expanded(path: Seq<char>, home: Seq<char>) -> Seq<char> {
    if path == seq!['~'] {
        home
    } else if seq!['~', '/'].is_prefix_of(path) {
        joined(home, path.skip(2))
    } else {
        path
    }
}

/// `path` expanded and, where it is then not absolute, seen from the current
/// directory, if that is known.
pub open spec fn normalized(
    path: Seq<char>,
    home: Seq<char>,
    current_dir: Option<Seq<char>>,
) -> Seq<char> {
    let full = expanded(path, home);
    match current_dir {
        Some(dir) if !absolute(full) => joined(dir, full),
        _ => full,
    }
}

/// `path` as it is shown: what lies within the home directory starts with `~/`.
pub open spec fn displayed(path: Seq<char>, home: Seq<char>) -> Seq<char> {
    match relative_to(path, home) {
        Some(rest) => seq!['~', '/'] + rest,
        None => path,
    }
}

/// `path` is one of the excluded paths or lies beneath one.
pub open spec fn excluded(path: Seq<char>, excludes: Seq<Seq<char>>) -> bool {
    exists|i: int| 0 <= i < excludes.len() && path_within(path, #[trigger] excludes[i])
}

spec fn span_view(s: (usize, usize)) -> (int, int) {
    (s.0 as int, s.1 as int)
}

/// Where the components of the path `p` stand.
fn spans_of(p: &[char]) -> (r: Vec<(usize, usize)>)
    ensures
        r@.map_values(|s: (usize, usize)| span_view(s)) == component_spans(p@),
{
    let mut out: Vec<(usize, usize)> = Vec::new();
    let ghost head = if absolute(p@) {
        seq![(0int, 1int)]
    } else {
        Seq::empty()
    };
    if p.len() > 0 && p[0] == '/' {
        out.push((0, 1));
    }
    let mut start: usize = 0;
    let mut i: usize = 0;
    let ghost view = |s: (usize, usize)| span_view(s);
    assert(out@.map_values(view) =~= head + body_spans(p@.take(0)));
    while i < p.len()
        invariant
            start <= i <= p@.len(),
            view == (|s: (usize, usize)| span_view(s)),
            start == piece_start(p@.take(i as int)),
            out@.map_values(view) == head + body_spans(p@.take(start as int)),
        decreases p.len() - i,
    {
        let ghost upto = p@.take(i as int);
        let ghost before = out@;
        proof {
            assert(p@.take(i + 1).drop_last() =~= upto);
            assert(upto.take(start as int) =~= p@.take(start as int));
            lemma_piece_start(upto);
        }
        if p[i] == '/' {
            if start < i && !(start > 0 && i == start + 1 && p[start] == '.') {
                out.push((start, i));
                assert(out@.map_values(view) =~= before.map_values(view).push(
                    (start as int, i as int),
                ));
                assert(head + body_spans(upto) =~= (head + body_spans(
                    p@.take(start as int),
                )).push((start as int, i as int)));
            } else {
                assert(body_spans(upto) == body_spans(p@.take(start as int)));
            }
            start = i + 1;
        }
        i += 1;
    }
    let ghost before = out@;
    assert(p@.take(i as int) =~= p@);
    proof {
        lemma_piece_start(p@);
    }
    if start < i && !(start > 0 && i == start + 1 && p[start] == '.') {
        out.push((start, i));
        assert(out@.map_values(view) =~= before.map_values(view).push((start as int, i as int)));
        assert(head + body_spans(p@) =~= (head + body_spans(p@.take(start as int))).push(
            (start as int, i as int),
        ));
    } else {
        assert(body_spans(p@) == body_spans(p@.take(start as int)));
    }
    assert(head + body_spans(p@) =~= component_spans(p@));
    out
}

/// The components of a path stand in it one behind the other.
pub proof fn lemma_spans_ordered(p: Seq<char>)
    ensures
        forall|i: int|
            0 <= i < component_spans(p).len() ==> 0 <= (#[trigger] component_spans(p)[i]).0
                < component_spans(p)[i].1 <= p.len(),
        forall|i: int, j: int|
            0 <= i < j < component_spans(p).len() ==> (#[trigger] component_spans(p)[i]).1 <= (
            #[trigger] component_spans(p)[j]).0,
{
    lemma_body_ordered(p);
}

proof fn lemma_body_ordered(p: Seq<char>)
    ensures
        forall|i: int|
            0 <= i < body_spans(p).len() ==> {
                let s = #[trigger] body_spans(p)[i];
                &&& 0 <= s.0 < s.1 <= p.len()
                &&& absolute(p) ==> s.0 > 0
                &&& s.0 > 0 ==> p[s.0 - 1] == '/'
                &&& s.1 < p.len() ==> p[s.1] == '/'
                &&& forall|k: int| s.0 <= k < s.1 ==> p[k] != '/'
                &&& piece_counts(p, s.0, s.1)
            },
        forall|i: int, j: int|
            0 <= i < j < body_spans(p).len() ==> (#[trigger] body_spans(p)[i]).1 < (
            #[trigger] body_spans(p)[j]).0,
    decreases p.len(),
{
    if p.len() > 0 {
        if p.last() == '/' {
            let q = p.drop_last();
            lemma_body_ordered(q);
            assert forall|i: int| 0 <= i < body_spans(p).len() implies {
                let s = #[trigger] body_spans(p)[i];
                &&& 0 <= s.0 < s.1 <= p.len()
                &&& absolute(p) ==> s.0 > 0
                &&& s.0 > 0 ==> p[s.0 - 1] == '/'
                &&& s.1 < p.len() ==> p[s.1] == '/'
                &&& forall|k: int| s.0 <= k < s.1 ==> p[k] != '/'
                &&& piece_counts(p, s.0, s.1)
            } by {
                let s = body_spans(q)[i];
                assert forall|k: int| s.0 <= k < s.1 implies p[k] != '/' by {
                    assert(q[k] == p[k]);
                }
            }
        } else {
            lemma_piece_start(p);
            let start = piece_start(p);
            let q = p.take(start);
            lemma_body_ordered(q);
            assert forall|i: int| 0 <= i < body_spans(p).len() implies {
                let s = #[trigger] body_spans(p)[i];
                &&& 0 <= s.0 < s.1 <= p.len()
                &&& absolute(p) ==> s.0 > 0
                &&& s.0 > 0 ==> p[s.0 - 1] == '/'
                &&& s.1 < p.len() ==> p[s.1] == '/'
                &&& forall|k: int| s.0 <= k < s.1 ==> p[k] != '/'
                &&& piece_counts(p, s.0, s.1)
            } by {
                if i < body_spans(q).len() {
                    let s = body_spans(q)[i];
                    assert forall|k: int| s.0 <= k < s.1 implies p[k] != '/' by {
                        assert(q[k] == p[k]);
                    }
                }
            }
            assert forall|i: int, j: int| 0 <= i < j < body_spans(p).len() implies (
            #[trigger] body_spans(p)[i]).1 < (#[trigger] body_spans(p)[j]).0 by {
                if j == body_spans(q).len() {
                    // a component before the last piece ends before the separator
                    let s = body_spans(q)[i];
                    if s.1 == start {
                        assert(q[start - 1] == '/');
                    }
                }
            }
        }
    }
}

/// No component of a relative path is the root.
pub proof fn lemma_relative_components(p: Seq<char>)
    requires
        !absolute(p),
    ensures
        forall|i: int|
            0 <= i < components(p).len() ==> (#[trigger] components(p)[i]).len() > 0
                && components(p)[i][0] != '/',
{
    lemma_body_ordered(p);
    assert forall|i: int| 0 <= i < components(p).len() implies (#[trigger] components(p)[i]).len()
        > 0 && components(p)[i][0] != '/' by {
        let s = body_spans(p)[i];
        assert(components(p)[i] == p.subrange(s.0, s.1));
        assert(p.subrange(s.0, s.1)[0] == p[s.0]);
    }
}

/// A path that has been taken apart into its components.
struct Parsed {
    chars: Vec<char>,
    spans: Vec<(usize, usize)>,
}

impl Parsed {
    spec fn of(self, p: Seq<char>) -> bool {
        &&& self.chars@ == p
        &&& self.spans@.map_values(|s: (usize, usize)| span_view(s)) == component_spans(p)
    }

    fn new(p: &str) -> (r: Parsed)
        ensures
            r.of(p@),
    {
        let chars = chars_of(p);
        let spans = spans_of(chars.as_slice());
        Parsed { chars, spans }
    }

    proof fn lemma_span(self, p: Seq<char>, i: int)
        requires
            self.of(p),
            0 <= i < self.spans@.len(),
        ensures
            component_spans(p).len() == self.spans@.len(),
            components(p).len() == self.spans@.len(),
            component_spans(p)[i] == span_view(self.spans@[i]),
            0 <= self.spans@[i].0 < self.spans@[i].1 <= p.len(),
            components(p)[i] == p.subrange(self.spans@[i].0 as int, self.spans@[i].1 as int),
    {
        let mapped = self.spans@.map_values(|s: (usize, usize)| span_view(s));
        assert(mapped[i] == span_view(self.spans@[i]));
        lemma_spans_ordered(p);
    }

    /// Whether the path is `base` or lies beneath it.
    fn within(&self, base: &Parsed, Ghost(p): Ghost<Seq<char>>, Ghost(b): Ghost<Seq<char>>) -> (r:
        bool)
        requires
            self.of(p),
            base.of(b),
        ensures
            r == path_within(p, b),
    {
        assert(components(p).len() == self.spans@.len()) by {
            assert(self.spans@.map_values(|s: (usize, usize)| span_view(s)).len()
                == self.spans@.len());
        }
        assert(components(b).len() == base.spans@.len()) by {
            assert(base.spans@.map_values(|s: (usize, usize)| span_view(s)).len()
                == base.spans@.len());
        }
        if base.spans.len() > self.spans.len() {
            return false;
        }
        for i in 0..base.spans.len()
            invariant
                self.of(p),
                base.of(b),
                base.spans@.len() <= self.spans@.len(),
                components(p).len() == self.spans@.len(),
                components(b).len() == base.spans@.len(),
                forall|j: int| 0 <= j < i ==> components(p)[j] == components(b)[j],
        {
            proof {
                self.lemma_span(p, i as int);
                base.lemma_span(b, i as int);
            }
            let (x, y) = self.spans[i];
            let (u, v) = base.spans[i];
            let mine = vstd::slice::slice_subrange(self.chars.as_slice(), x, y);
            let theirs = vstd::slice::slice_subrange(base.chars.as_slice(), u, v);
            if !chars_eq(mine, theirs) {
                assert(components(p)[i as int] != components(b)[i as int]);
                assert(components(p).take(components(b).len() as int)[i as int]
                    != components(b)[i as int]);
                return false;
            }
        }
        assert(components(p).take(components(b).len() as int) =~= components(b));
        true
    }
}

/// Whether a path is absolute.
pub fn is_absolute(path: &str) -> (r: bool)
    ensures
        r == absolute(path@),
{
    path.unicode_len() > 0 && path.get_char(0) == '/'
}

/// `rel` seen from `base`.
pub fn join_path(base: &str, rel: &str) -> (r: String)
    ensures
        r@ == joined(base@, rel@),
{
    proof {
        reveal_strlit("/");
    }
    let n: usize = base.unicode_len();
    if is_absolute(rel) {
        rel.to_owned()
    } else if n == 0 || base.get_char(n - 1) == '/' {
        concat2(base, rel)
    } else {
        assert(base@ + "/"@ =~= base@.push('/'));
        concat3(base, "/", rel)
    }
}

/// The components of a path.
pub fn path_components(path: &str) -> (r: Vec<String>)
    ensures
        texts(r@) == components(path@),
{
    let x = Parsed::new(path);
    let mut out: Vec<String> = Vec::new();
    let ghost all = components(path@);
    assert(all.len() == x.spans@.len()) by {
        assert(x.spans@.map_values(|s: (usize, usize)| span_view(s)).len() == x.spans@.len());
    }
    for i in 0..x.spans.len()
        invariant
            x.of(path@),
            all == components(path@),
            all.len() == x.spans@.len(),
            out@.len() == i,
            forall|j: int| 0 <= j < i ==> (#[trigger] out@[j])@ == all[j],
    {
        proof {
            x.lemma_span(path@, i as int);
        }
        let (from, to) = x.spans[i];
        out.push(path.substring_char(from, to).to_owned());
    }
    assert(texts(out@) =~= all);
    out
}

/// Whether two paths are the same.
pub fn path_eq(a: &str, b: &str) -> (r: bool)
    ensures
        r == same_path(a@, b@),
{
    let x = Parsed::new(a);
    let y = Parsed::new(b);
    let forth = x.within(&y, Ghost(a@), Ghost(b@));
    let back = y.within(&x, Ghost(b@), Ghost(a@));
    proof {
        if forth && back {
            let n = components(a@).len() as int;
            assert(components(a@).take(n) =~= components(a@));
            assert(components(b@).take(n) =~= components(b@));
        }
        if same_path(a@, b@) {
            assert(components(a@).take(components(a@).len() as int) =~= components(a@));
        }
    }
    forth && back
}

/// `path` as seen from `base`, if it lies within `base`.
pub fn strip_base(path: &str, base: &str) -> (r: Option<String>)
    ensures
        r is Some == relative_to(path@, base@) is Some,
        r matches Some(rest) ==> Some(rest@) == relative_to(path@, base@),
{
    let x = Parsed::new(path);
    let y = Parsed::new(base);
    if !x.within(&y, Ghost(path@), Ghost(base@)) {
        return None;
    }
    let n: usize = y.spans.len();
    assert(components(base@).len() == n) by {
        assert(y.spans@.map_values(|s: (usize, usize)| span_view(s)).len() == n);
    }
    assert(component_spans(path@).len() == x.spans@.len()) by {
        assert(x.spans@.map_values(|s: (usize, usize)| span_view(s)).len() == x.spans@.len());
    }
    if n < x.spans.len() {
        let last: usize = x.spans.len() - 1;
        proof {
            x.lemma_span(path@, n as int);
            x.lemma_span(path@, last as int);
            lemma_spans_ordered(path@);
        }
        let (from, _) = x.spans[n];
        let (_, to) = x.spans[last];
        Some(path.substring_char(from, to).to_owned())
    } else {
        Some(String::new())
    }
}

/// Expands a leading `~` in `path` and makes the path absolute. Where the
/// current directory is not known, a path that is not absolute stays as it is.
pub fn normalize_path(path: &str, home: &str, current_dir: Option<&str>) -> (r: String)
    ensures
        r@ == normalized(path@, home@, opt_view(current_dir)),
{
    proof {
        reveal_strlit("~");
        reveal_strlit("~/");
        assert("~"@ =~= seq!['~']);
        assert("~/"@ =~= seq!['~', '/']);
    }
    let full: String = if str_eq(path, "~") {
        home.to_owned()
    } else if let Some(rest) = strip_prefix(path, "~/") {
        join_path(home, rest.as_str())
    } else {
        path.to_owned()
    };
    assert(full@ == expanded(path@, home@));
    if is_absolute(full.as_str()) {
        full
    } else {
        match current_dir {
            Some(dir) => join_path(dir, full.as_str()),
            None => full,
        }
    }
}

/// The text that `path` is shown as.
pub fn display_path(path: &str, home: &str) -> (r: String)
    ensures
        r@ == displayed(path@, home@),
{
    proof {
        reveal_strlit("~/");
        assert("~/"@ =~= seq!['~', '/']);
    }
    match strip_base(path, home) {
        Some(rest) => concat2("~/", rest.as_str()),
        None => path.to_owned(),
    }
}

/// Whether `path` is one of the excluded paths or lies beneath one.
pub fn is_excluded(path: &str, excludes: &[String]) -> (r: bool)
    ensures
        r == excluded(path@, texts(excludes@)),
{
    let x = Parsed::new(path);
    let ghost all = texts(excludes@);
    for i in 0..excludes.len()
        invariant
            x.of(path@),
            all == texts(excludes@),
            forall|j: int| 0 <= j < i ==> !path_within(path@, #[trigger] all[j]),
    {
        let y = Parsed::new(excludes[i].as_str());
        assert(all[i as int] == excludes@[i as int]@);
        if x.within(&y, Ghost(path@), Ghost(excludes@[i as int]@)) {
            return true;
        }
    }
    false
}

/// `paths` with `p` added behind them, unless one of them is the same path.
pub open spec fn with_path(paths: Seq<Seq<char>>, p: Seq<char>) -> Seq<Seq<char>> {
    if exists|i: int| 0 <= i < paths.len() && same_path(#[trigger] paths[i], p) {
        paths
    } else {
        paths.push(p)
    }
}

/// Adds `path` to `paths`, unless the same path is there already.
pub fn push_unique_path(paths: &mut Vec<String>, path: String)
    ensures
        texts(final(paths)@) == with_path(texts(old(paths)@), path@),
{
    let ghost all = texts(paths@);
    for i in 0..paths.len()
        invariant
            paths@ == old(paths)@,
            all == texts(paths@),
            forall|j: int| 0 <= j < i ==> !same_path(#[trigger] all[j], path@),
    {
        assert(all[i as int] == paths@[i as int]@);
        if path_eq(paths[i].as_str(), path.as_str()) {
            return;
        }
    }
    let ghost p = path@;
    paths.push(path);
    assert(texts(paths@) =~= all.push(p));
}

/// The path starts with the component `.`.
pub open spec fn dot_first(p: Seq<char>) -> bool {
    p.len() > 0 && p[0] == '.' && (p.len() == 1 || p[1] == '/')
}

spec fn shifted(spans: Seq<(int, int)>, k: int) -> Seq<(int, int)> {
    spans.map_values(|s: (int, int)| (s.0 + k, s.1 + k))
}

proof fn lemma_piece_start_behind(a: Seq<char>, b: Seq<char>)
    ensures
        piece_start(a.push('/') + b) == a.len() + 1 + piece_start(b),
    decreases b.len(),
{
    let p = a.push('/') + b;
    if b.len() == 0 {
        assert(p.last() == '/');
    } else {
        assert(p.last() == b.last());
        assert(p.drop_last() =~= a.push('/') + b.drop_last());
        lemma_piece_start_behind(a, b.drop_last());
    }
}

/// The components behind a separator follow those before it.
proof fn lemma_body_behind(a: Seq<char>, b: Seq<char>)
    requires
        !dot_first(b),
    ensures
        body_spans(a.push('/') + b) == body_spans(a) + shifted(
            body_spans(b),
            a.len() + 1int,
        ),
    decreases b.len(),
{
    let p = a.push('/') + b;
    let k = a.len() + 1int;
    if b.len() == 0 {
        assert(p =~= a.push('/'));
        assert(p.drop_last() =~= a);
        assert(body_spans(p) =~= body_spans(a) + shifted(body_spans(b), k));
    } else if b.last() == '/' {
        assert(p.last() == '/');
        assert(p.drop_last() =~= a.push('/') + b.drop_last());
        lemma_body_behind(a, b.drop_last());
    } else {
        assert(p.last() != '/');
        lemma_piece_start_behind(a, b);
        lemma_piece_start(b);
        let start = piece_start(b);
        assert(p.take(k + start) =~= a.push('/') + b.take(start));
        lemma_body_behind(a, b.take(start));
        assert(p[k + start] == b[start]);
        assert(piece_counts(p, k + start, p.len() as int) == piece_counts(
            b,
            start,
            b.len() as int,
        ));
        let before = body_spans(b.take(start));
        assert(shifted(before.push((start, b.len() as int)), k) =~= shifted(before, k).push(
            (start + k, b.len() + k),
        ));
        assert(body_spans(p) =~= body_spans(a) + shifted(body_spans(b), k));
    }
}

/// Pieces that are no components can be cut off at the end.
proof fn lemma_body_cut(p: Seq<char>, m: int)
    requires
        0 <= m <= p.len(),
        m < p.len() ==> p[m] == '/',
        forall|i: int| 0 <= i < body_spans(p).len() ==> (#[trigger] body_spans(p)[i]).1 <= m,
    ensures
        body_spans(p) == body_spans(p.take(m)),
    decreases p.len(),
{
    if m == p.len() {
        assert(p.take(m) =~= p);
    } else if p.last() == '/' {
        let q = p.drop_last();
        assert(q.take(m) =~= p.take(m));
        assert(body_spans(q) == body_spans(p));
        assert forall|i: int| 0 <= i < body_spans(q).len() implies (#[trigger] body_spans(
            q,
        )[i]).1 <= m by {
            assert(body_spans(p)[i].1 <= m);
        }
        lemma_body_cut(q, m);
    } else {
        lemma_piece_start(p);
        let start = piece_start(p);
        if piece_counts(p, start, p.len() as int) {
            assert(body_spans(p).last().1 == p.len());
            assert(false);
        }
        assert(start > m);
        let q = p.take(start);
        assert(q.take(m) =~= p.take(m));
        assert(body_spans(q) == body_spans(p));
        assert forall|i: int| 0 <= i < body_spans(q).len() implies (#[trigger] body_spans(
            q,
        )[i]).1 <= m by {
            assert(body_spans(p)[i].1 <= m);
        }
        lemma_body_cut(q, m);
    }
}

/// The components of a path behind a base are those of the base and then those
/// of the path.
pub proof fn lemma_components_joined(base: Seq<char>, rel: Seq<char>)
    requires
        base.len() > 0,
        !absolute(rel),
        components(rel).len() > 0 ==> components(rel)[0] != seq!['.'],
    ensures
        components(joined(base, rel)) == components(base) + components(rel),
{
    if dot_first(rel) {
        lemma_dot_first(rel);
        assert(false);
    }
    let a = if base.last() == '/' {
        base.drop_last()
    } else {
        base
    };
    let p = a.push('/') + rel;
    let k = a.len() + 1int;
    assert(joined(base, rel) =~= p);
    lemma_body_behind(a, rel);
    assert(body_spans(base) == body_spans(a));
    lemma_body_ordered(base);
    lemma_body_ordered(rel);
    assert(p[0] == base[0]);
    let left = components(base);
    let right = components(rel);
    let n = component_spans(base).len();
    assert(component_spans(p) =~= component_spans(base) + shifted(body_spans(rel), k));
    lemma_spans_ordered(base);
    assert forall|i: int| 0 <= i < components(p).len() implies #[trigger] components(p)[i] == (left
        + right)[i] by {
        if i < n {
            let s = component_spans(base)[i];
            assert(0 <= s.0 < s.1 <= base.len());
            assert(p.subrange(s.0, s.1) =~= base.subrange(s.0, s.1));
        } else {
            let s = body_spans(rel)[i - n];
            assert(p.subrange(s.0 + k, s.1 + k) =~= rel.subrange(s.0, s.1));
        }
    }
    assert(components(p) =~= left + right);
}

proof fn lemma_dot_first(p: Seq<char>)
    requires
        dot_first(p),
    ensures
        components(p).len() > 0,
        components(p)[0] == seq!['.'],
    decreases p.len(),
{
    lemma_body_first(p);
    assert(p.subrange(0, 1) =~= seq!['.']);
}

proof fn lemma_body_first(p: Seq<char>)
    requires
        dot_first(p),
    ensures
        body_spans(p).len() > 0,
        body_spans(p)[0] == (0int, 1int),
    decreases p.len(),
{
    if p.len() == 1 {
        lemma_piece_start(p);
        assert(p.drop_last().len() == 0);
        assert(piece_start(p.drop_last()) == 0);
        assert(body_spans(p.take(0)).len() == 0);
    } else if p.last() == '/' {
        lemma_body_first(p.drop_last());
    } else {
        lemma_piece_start(p);
        assert(piece_start(p) >= 2);
        lemma_body_first(p.take(piece_start(p)));
    }
}

/// The components from one that a separator precedes on are those of the text
/// that starts there.
proof fn lemma_body_from(p: Seq<char>, j: int)
    requires
        0 <= j < body_spans(p).len(),
        body_spans(p)[j].0 > 0,
    ensures
        body_spans(p).skip(j) == shifted(
            body_spans(p.skip(body_spans(p)[j].0)),
            body_spans(p)[j].0,
        ),
{
    let body = body_spans(p);
    lemma_body_ordered(p);
    let s = body[j];
    let x = s.0;
    let a = p.take(x - 1);
    let q = p.skip(x);
    assert(p =~= a.push('/') + q);
    if dot_first(q) {
        assert(p[x] == '.');
        if s.1 > x + 1 {
            assert(p[x + 1] == q[1]);
            assert(p[x + 1] != '/');
        }
        assert(false);
    }
    lemma_body_behind(a, q);
    let before = body_spans(a);
    let behind = shifted(body_spans(q), x);
    assert(body == before + behind);
    lemma_body_ordered(a);
    lemma_body_ordered(q);
    if j < before.len() {
        assert(body[j] == before[j]);
        assert(false);
    } else if j > before.len() {
        let k = before.len() as int;
        assert(body[k] == behind[0]);
        assert(behind[0].0 >= x);
        assert(body[k].1 < body[j].0);
        assert(false);
    }
    assert(body.skip(j) =~= behind);
}

/// The same, with what follows the last component cut off.
proof fn lemma_body_text(p: Seq<char>, j: int)
    requires
        0 <= j < body_spans(p).len(),
        body_spans(p)[j].0 > 0,
    ensures
        0 < body_spans(p)[j].0 < body_spans(p).last().1 <= p.len(),
        body_spans(p).skip(j) == shifted(
            body_spans(p.subrange(body_spans(p)[j].0, body_spans(p).last().1)),
            body_spans(p)[j].0,
        ),
        p[body_spans(p)[j].0] != '/',
{
    let body = body_spans(p);
    lemma_body_from(p, j);
    lemma_body_ordered(p);
    let x = body[j].0;
    let y = body[body.len() - 1].1;
    if j < body.len() - 1 {
        assert(body[j].1 < body[body.len() - 1].0);
    }
    let q = p.skip(x);
    let m = y - x;
    let behind = body_spans(q);
    assert forall|i: int| 0 <= i < behind.len() implies (#[trigger] behind[i]).1 <= m by {
        assert(shifted(behind, x).len() == body.skip(j).len());
        assert(shifted(behind, x)[i] == body[j + i]);
        let last = body[body.len() - 1];
        assert(last.0 < last.1);
        if j + i < body.len() - 1 {
            assert(body[j + i].1 < body[body.len() - 1].0);
        }
    }
    if m < q.len() {
        assert(q[m] == p[y]);
    }
    lemma_body_cut(q, m);
    assert(q.take(m) =~= p.subrange(x, y));
}

/// What is left of a path without its first components has the others as its
/// components.
pub proof fn lemma_components_from(p: Seq<char>, n: int)
    requires
        1 <= n <= components(p).len(),
    ensures
        !absolute(text_from(p, n)),
        components(text_from(p, n)) == components(p).skip(n),
        n < components(p).len() ==> components(p)[n] != seq!['.'],
{
    let body = body_spans(p);
    let spans = component_spans(p);
    let rest = text_from(p, n);
    if n == components(p).len() {
        assert(components(rest) =~= components(p).skip(n));
    } else {
        lemma_body_ordered(p);
        let m = if absolute(p) {
            n - 1
        } else {
            n
        };
        let s = body[m];
        let x = s.0;
        let y = body.last().1;
        assert(spans[n] == s);
        assert(spans.last() == body.last());
        if m > 0 {
            assert(body[0].1 < body[m].0);
            assert(body[0].0 < body[0].1);
        }
        lemma_body_text(p, m);
        assert(rest == p.subrange(x, y));
        assert(rest[0] == p[x]);
        let behind = body_spans(rest);
        assert(components(p)[n] == p.subrange(s.0, s.1));
        if components(p)[n] == seq!['.'] {
            assert(p.subrange(s.0, s.1).len() == 1);
            assert(p.subrange(s.0, s.1)[0] == p[s.0]);
            assert(false);
        }
        assert(component_spans(rest) == behind);
        lemma_body_ordered(rest);
        assert(behind.len() == components(p).skip(n).len()) by {
            assert(shifted(behind, x).len() == body.skip(m).len());
        }
        assert forall|i: int| 0 <= i < behind.len() implies #[trigger] components(rest)[i]
            == components(p).skip(n)[i] by {
            let b = behind[i];
            assert(shifted(behind, x)[i] == body.skip(m)[i]);
            assert(spans[n + i] == body[m + i]);
            assert(rest.subrange(b.0, b.1) =~= p.subrange(b.0 + x, b.1 + x));
        }
        assert(components(rest) =~= components(p).skip(n));
    }
}

/// Normalizing twice is normalizing once, for what normalizing makes absolute; and
/// where the current directory is not known, for what it leaves without a leading
/// `~`.
pub proof fn law_normalize_idempotent(
    path: Seq<char>,
    home: Seq<char>,
    current_dir: Option<Seq<char>>,
)
    requires
        absolute(normalized(path, home, current_dir)) || (current_dir is None && normalized(
            path,
            home,
            current_dir,
        ) != seq!['~'] && !seq!['~', '/'].is_prefix_of(normalized(path, home, current_dir))),
    ensures
        normalized(normalized(path, home, current_dir), home, current_dir) == normalized(
            path,
            home,
            current_dir,
        ),
{
    let p = normalized(path, home, current_dir);
    assert(p != seq!['~']);
    if absolute(p) && seq!['~', '/'].is_prefix_of(p) {
        assert(p.take(2)[0] == '~');
    }
}

/// Normalizing makes every path absolute, where the current directory is.
pub proof fn law_normalize_absolute(path: Seq<char>, home: Seq<char>, current_dir: Seq<char>)
    requires
        absolute(current_dir),
    ensures
        absolute(normalized(path, home, Some(current_dir))),
{
}

/// What lies within a path that lies within `c` lies within `c`.
pub proof fn lemma_within_transitive(a: Seq<char>, b: Seq<char>, c: Seq<char>)
    requires
        path_within(a, b),
        path_within(b, c),
    ensures
        path_within(a, c),
{
    let base = components(c);
    assert(components(a).take(components(b).len() as int) == components(b));
    assert(components(b).take(base.len() as int) == base);
    assert(components(a).take(base.len() as int) =~= base);
}

/// An excluded path takes everything beneath it along.
pub proof fn law_excluded_beneath(p: Seq<char>, q: Seq<char>, excludes: Seq<Seq<char>>)
    requires
        excluded(p, excludes),
        path_within(q, p),
    ensures
        excluded(q, excludes),
{
    let i = choose|i: int| 0 <= i < excludes.len() && path_within(p, #[trigger] excludes[i]);
    lemma_within_transitive(q, p, excludes[i]);
}

/// Every excluded path is itself excluded.
pub proof fn law_excluded_itself(excludes: Seq<Seq<char>>, i: int)
    requires
        0 <= i < excludes.len(),
    ensures
        excluded(excludes[i], excludes),
{
    let own = components(excludes[i]);
    assert(own.take(own.len() as int) =~= own);
    assert(path_within(excludes[i], excludes[i]));
}

/// Whether a path is excluded depends on its components only, not on how it is
/// written.
pub proof fn law_excluded_same_path(p: Seq<char>, q: Seq<char>, excludes: Seq<Seq<char>>)
    requires
        same_path(p, q),
    ensures
        excluded(p, excludes) == excluded(q, excludes),
{
    assert forall|i: int| 0 <= i < excludes.len() implies path_within(p, #[trigger] excludes[i])
        == path_within(q, excludes[i]) by {}
    if excluded(p, excludes) {
        let i = choose|i: int| 0 <= i < excludes.len() && path_within(p, #[trigger] excludes[i]);
        assert(path_within(q, excludes[i]));
    }
    if excluded(q, excludes) {
        let i = choose|i: int| 0 <= i < excludes.len() && path_within(q, #[trigger] excludes[i]);
        assert(path_within(p, excludes[i]));
    }
}

/// A path that does not start with a separator has a component from its first
/// character on, and one whose last piece counts has a component up to its last.
proof fn lemma_body_ends(p: Seq<char>)
    requires
        p.len() > 0,
        p[0] != '/',
    ensures
        body_spans(p).len() > 0,
        body_spans(p)[0].0 == 0,
        piece_counts(p, piece_start(p), p.len() as int) ==> body_spans(p).last().1 == p.len(),
    decreases p.len(),
{
    if p.last() == '/' {
        assert(p.len() > 1);
        lemma_body_ends(p.drop_last());
    } else {
        lemma_piece_start(p);
        let start = piece_start(p);
        if start > 0 {
            lemma_body_ends(p.take(start));
        } else {
            assert(body_spans(p.take(start)).len() == 0);
        }
    }
}

/// What was joined to the home directory is shown as it was written, behind `~/`,
/// if it starts and ends with a component and does not start with `.`.
pub proof fn law_display_joined(home: Seq<char>, rel: Seq<char>)
    requires
        rel.len() > 0,
        rel[0] != '/',
        piece_counts(rel, piece_start(rel), rel.len() as int),
        !dot_first(rel),
    ensures
        displayed(joined(home, rel), home) == seq!['~', '/'] + rel,
{
    let p = joined(home, rel);
    let n = components(home).len() as int;
    let inner = body_spans(rel);
    lemma_body_ends(rel);
    if home.len() == 0 {
        assert(p =~= rel);
        assert(components(p).take(n) =~= components(home));
        assert(text_from(p, n) =~= rel);
    } else {
        let a = if home.last() == '/' {
            home.drop_last()
        } else {
            home
        };
        let k = a.len() + 1int;
        assert(p =~= a.push('/') + rel);
        lemma_body_behind(a, rel);
        assert(body_spans(home) == body_spans(a));
        lemma_body_ordered(rel);
        if components(rel)[0] == seq!['.'] {
            let s = inner[0];
            assert(rel.subrange(s.0, s.1).len() == 1);
            assert(rel.subrange(s.0, s.1)[0] == rel[0]);
        }
        lemma_components_joined(home, rel);
        assert(components(p).take(n) =~= components(home));
        assert(p[0] == home[0]);
        assert(component_spans(p) =~= component_spans(home) + shifted(inner, k));
        assert(component_spans(p)[n] == shifted(inner, k)[0]);
        assert(component_spans(p).last() == shifted(inner, k).last());
        assert(text_from(p, n) =~= rel);
    }
}

/// The text of `p` up to its component number `n`, counted from one.
pub open spec fn text_upto(p: Seq<char>, n: int) -> Seq<char> {
    p.take(component_spans(p)[n - 1].1)
}

/// The directories between `root` and what lies at `p`, neither of the two among
/// them, the deepest first.
pub open spec fn dirs_between(p: Seq<char>, root: Seq<char>) -> Seq<Seq<char>> {
    let n = components(p).len();
    let above = components(root).len();
    if path_within(p, root) && n > above + 1 {
        Seq::new((n - above - 1) as nat, |i: int| text_upto(p, n - 1 - i))
    } else {
        Seq::empty()
    }
}

/// The directories between `root` and what lies at `path`, the deepest first.
pub fn parent_dirs(path: &str, root: &str) -> (r: Vec<String>)
    ensures
        texts(r@) == dirs_between(path@, root@),
{
    let x = Parsed::new(path);
    let y = Parsed::new(root);
    let mut out: Vec<String> = Vec::new();
    let ghost wanted = dirs_between(path@, root@);
    assert(components(path@).len() == x.spans@.len()) by {
        assert(x.spans@.map_values(|s: (usize, usize)| span_view(s)).len() == x.spans@.len());
    }
    assert(components(root@).len() == y.spans@.len()) by {
        assert(y.spans@.map_values(|s: (usize, usize)| span_view(s)).len() == y.spans@.len());
    }
    if !x.within(&y, Ghost(path@), Ghost(root@)) {
        assert(texts(out@) =~= wanted);
        return out;
    }
    let above: usize = y.spans.len();
    let mut n: usize = x.spans.len();
    while n > 0 && n - 1 > above
        invariant
            x.of(path@),
            path_within(path@, root@),
            wanted == dirs_between(path@, root@),
            components(path@).len() == x.spans@.len(),
            components(root@).len() == above,
            above <= x.spans@.len(),
            n <= x.spans@.len(),
            n + out@.len() == x.spans@.len(),
            out@.len() > 0 ==> n > above,
            forall|j: int| 0 <= j < out@.len() ==> (#[trigger] out@[j])@ == wanted[j],
        decreases n,
    {
        n -= 1;
        proof {
            x.lemma_span(path@, n - 1);
        }
        let (_, to) = x.spans[n - 1];
        let dir = path.substring_char(0, to);
        assert(dir@ =~= path@.take(to as int));
        assert(dir@ == wanted[out@.len() as int]);
        out.push(dir.to_owned());
    }
    assert(texts(out@) =~= wanted);
    out
}

/// Cutting a path off behind one of its components leaves the components up to
/// that one.
proof fn lemma_body_take(p: Seq<char>, k: int)
    requires
        0 < k <= body_spans(p).len(),
    ensures
        0 <= body_spans(p)[k - 1].1 <= p.len(),
        body_spans(p.take(body_spans(p)[k - 1].1)) == body_spans(p).take(k),
    decreases p.len(),
{
    lemma_body_ordered(p);
    let body = body_spans(p);
    let m = body[k - 1].1;
    if k == body.len() {
        assert forall|i: int| 0 <= i < body.len() implies (#[trigger] body[i]).1 <= m by {
            if i < k - 1 {
                assert(body[i].1 < body[k - 1].0);
                assert(body[k - 1].0 < body[k - 1].1);
            }
        }
        lemma_body_cut(p, m);
        assert(body.take(k) =~= body);
    } else if p.last() == '/' {
        let q = p.drop_last();
        lemma_body_take(q, k);
        assert(q.take(m) =~= p.take(m));
    } else {
        lemma_piece_start(p);
        let start = piece_start(p);
        let q = p.take(start);
        assert(body_spans(q).take(k) =~= body.take(k));
        assert(body_spans(q)[k - 1] == body[k - 1]);
        lemma_body_take(q, k);
        assert(q.take(m) =~= p.take(m));
    }
}

proof fn lemma_components_upto(p: Seq<char>, n: int)
    requires
        1 <= n <= components(p).len(),
    ensures
        components(text_upto(p, n)) == components(p).take(n),
{
    let body = body_spans(p);
    let spans = component_spans(p);
    let q = text_upto(p, n);
    let m = if absolute(p) {
        n - 1
    } else {
        n
    };
    lemma_body_ordered(p);
    lemma_spans_ordered(p);
    if m == 0 {
        assert(q =~= p.take(1));
        assert(body_spans(q.drop_last()).len() == 0);
        assert(body_spans(q) =~= body.take(0));
    } else {
        lemma_body_take(p, m);
        assert(spans[n - 1] == body[m - 1]);
    }
    assert(spans[n - 1].0 < spans[n - 1].1 <= p.len());
    assert(q[0] == p[0]);
    assert(component_spans(q) =~= spans.take(n));
    assert forall|i: int| 0 <= i < n implies #[trigger] components(q)[i] == components(p)[i] by {
        let s = spans[i];
        assert(component_spans(q)[i] == s);
        if i < n - 1 {
            assert(spans[i].1 <= spans[n - 1].0);
        }
        assert(q.subrange(s.0, s.1) =~= p.subrange(s.0, s.1));
    }
    assert(components(q) =~= components(p).take(n));
}

/// The directories between a root and a path lie beneath the root, and the path
/// lies beneath them.
pub proof fn law_dirs_between(p: Seq<char>, root: Seq<char>, i: int)
    requires
        0 <= i < dirs_between(p, root).len(),
    ensures
        path_within(dirs_between(p, root)[i], root),
        !same_path(dirs_between(p, root)[i], root),
        path_within(p, dirs_between(p, root)[i]),
        !same_path(p, dirs_between(p, root)[i]),
{
    let n = components(p).len();
    let above = components(root).len();
    let k = n - 1 - i;
    let dir = dirs_between(p, root)[i];
    lemma_components_upto(p, k);
    assert(components(p).take(above as int) == components(root));
    assert(components(dir).take(above as int) =~= components(root));
}

/// Cutting a path off before a separator leaves some of its first components.
proof fn lemma_body_before(p: Seq<char>, m: int)
    requires
        0 <= m < p.len(),
        p[m] == '/',
    ensures
        body_spans(p.take(m)).is_prefix_of(body_spans(p)),
    decreases p.len(),
{
    let head = body_spans(p.take(m));
    if p.last() == '/' {
        let q = p.drop_last();
        if m < q.len() {
            lemma_body_before(q, m);
            assert(q.take(m) =~= p.take(m));
        } else {
            assert(q =~= p.take(m));
            assert(head.take(head.len() as int) =~= head);
        }
    } else {
        lemma_piece_start(p);
        let q = p.take(piece_start(p));
        lemma_body_before(q, m);
        assert(q.take(m) =~= p.take(m));
        assert(body_spans(p).take(head.len() as int) =~= body_spans(q).take(head.len() as int));
    }
}

/// What is joined to a path lies within it, unless it is absolute.
pub proof fn lemma_joined_within(base: Seq<char>, rel: Seq<char>)
    requires
        !absolute(rel),
    ensures
        path_within(joined(base, rel), base),
{
    let p = joined(base, rel);
    if base.len() == 0 {
        assert(components(p).take(0) =~= components(base));
    } else {
        let a = if base.last() == '/' {
            base.drop_last()
        } else {
            base
        };
        assert(p =~= a.push('/') + rel);
        assert(p.take(a.len() as int) =~= a);
        lemma_body_before(p, a.len() as int);
        assert(body_spans(base) == body_spans(a));
        assert(p[0] == base[0]);
        let n = component_spans(base).len() as int;
        assert(component_spans(p).take(n) =~= component_spans(base));
        lemma_spans_ordered(base);
        assert forall|i: int| 0 <= i < n implies #[trigger] components(p)[i] == components(
            base,
        )[i] by {
            let s = component_spans(base)[i];
            assert(component_spans(p)[i] == s);
            assert(0 <= s.0 < s.1 <= base.len());
            assert(p.subrange(s.0, s.1) =~= base.subrange(s.0, s.1));
        }
        assert(components(p).take(n) =~= components(base));
    }
}

/// The text of all components of a path is the same path.
proof fn lemma_text_from_start(p: Seq<char>)
    ensures
        same_path(text_from(p, 0), p),
        absolute(text_from(p, 0)) == absolute(p),
{
    let n = components(p).len() as int;
    let spans = component_spans(p);
    if n == 0 {
        if p.len() > 0 {
            lemma_body_ends(p);
        }
        assert(text_from(p, 0) =~= p);
    } else {
        if !absolute(p) {
            assert(p.len() > 0);
            lemma_body_ends(p);
        }
        lemma_spans_ordered(p);
        assert(spans[0].0 == 0);
        assert(spans[n - 1].1 > 0);
        assert(text_from(p, 0) =~= text_upto(p, n));
        lemma_components_upto(p, n);
        assert(components(p).take(n) =~= components(p));
    }
}

/// A path that lies within the home directory can be read back from the text under
/// which it is shown.
proof fn lemma_shown_within(p: Seq<char>, home: Seq<char>)
    requires
        path_within(p, home),
    ensures
        same_path(expanded(displayed(p, home), home), p),
        absolute(expanded(displayed(p, home), home)) == absolute(p),
{
    let shown = displayed(p, home);
    let n = components(home).len() as int;
    let rest = text_from(p, n);
    assert(shown == seq!['~', '/'] + rest);
    assert(shown.take(2) =~= seq!['~', '/']);
    assert(shown.skip(2) =~= rest);
    assert(shown != seq!['~']) by {
        assert(shown.len() >= 2);
    }
    if n == 0 {
        lemma_text_from_start(p);
        if home.len() > 0 && !absolute(home) {
            lemma_body_ends(home);
        }
        assert(home.len() == 0);
        assert(joined(home, rest) =~= rest);
    } else {
        lemma_components_from(p, n);
        assert(components(rest).len() > 0 ==> components(rest)[0] == components(p)[n]);
        assert(home.len() > 0);
        lemma_components_joined(home, rest);
        assert(components(home) + components(p).skip(n) =~= components(p)) by {
            assert(components(p).take(n) == components(home));
        }
        assert(components(p).take(n)[0] == components(p)[0]);
        lemma_root_component(home);
        lemma_root_component(p);
        assert(joined(home, rest)[0] == home[0]);
    }
}

/// A path is absolute if its first component is the root.
proof fn lemma_root_component(p: Seq<char>)
    requires
        components(p).len() > 0,
    ensures
        absolute(p) == (components(p)[0] == seq!['/']),
{
    if absolute(p) {
        assert(p.subrange(0, 1) =~= seq!['/']);
    } else {
        lemma_relative_components(p);
        assert(components(p)[0][0] != '/');
    }
}

/// A path that is shown can be read back: the text under which an absolute path
/// is shown stands for the same path, whatever the current directory.
pub proof fn law_display_round_trip(
    p: Seq<char>,
    home: Seq<char>,
    current_dir: Option<Seq<char>>,
)
    requires
        absolute(p),
    ensures
        same_path(normalized(displayed(p, home), home, current_dir), p),
{
    if path_within(p, home) {
        lemma_shown_within(p, home);
    } else {
        assert(p[0] != '~');
        assert(p != seq!['~']);
        assert(!seq!['~', '/'].is_prefix_of(p)) by {
            if seq!['~', '/'].is_prefix_of(p) {
                assert(p.take(2)[0] == '~');
            }
        }
    }
}

/// A path that was normalized and shown can be read back, where the current
/// directory is absolute if it is known.
pub proof fn law_shown_reads_back(
    path: Seq<char>,
    home: Seq<char>,
    current_dir: Option<Seq<char>>,
)
    requires
        current_dir matches Some(dir) ==> absolute(dir),
    ensures
        same_path(
            normalized(
                displayed(normalized(path, home, current_dir), home),
                home,
                current_dir,
            ),
            normalized(path, home, current_dir),
        ),
{
    let full = normalized(path, home, current_dir);
    if absolute(full) {
        law_display_round_trip(full, home, current_dir);
    } else {
        assert(current_dir is None);
        if path_within(full, home) {
            lemma_shown_within(full, home);
        } else {
            // what the home directory was put before lies within it
            if path == seq!['~'] {
                assert(components(home).take(components(home).len() as int) =~= components(home));
            } else if seq!['~', '/'].is_prefix_of(path) {
                if !absolute(path.skip(2)) {
                    lemma_joined_within(home, path.skip(2));
                }
            }
            assert(full == path);
        }
    }
}

/// A path is excluded if and only if the components of some excluded path are those that it
/// starts with.
pub proof fn law_excluded(path: Seq<char>, excludes: Seq<Seq<char>>)
    ensures
        excluded(path, excludes) <==> exists|i: int|
            0 <= i < excludes.len() && components(#[trigger] excludes[i]).len() <= components(
                path,
            ).len() && forall|k: int|
                0 <= k < components(excludes[i]).len() ==> #[trigger] components(excludes[i])[k]
                    == components(path)[k],
{
    if excluded(path, excludes) {
        let i = choose|i: int| 0 <= i < excludes.len() && path_within(path, #[trigger] excludes[i]);
        let base = components(excludes[i]);
        assert forall|k: int| 0 <= k < base.len() implies #[trigger] base[k] == components(
            path,
        )[k] by {
            assert(components(path).take(base.len() as int)[k] == base[k]);
        }
    }
    if exists|i: int|
        0 <= i < excludes.len() && components(#[trigger] excludes[i]).len() <= components(
            path,
        ).len() && forall|k: int|
            0 <= k < components(excludes[i]).len() ==> #[trigger] components(excludes[i])[k]
                == components(path)[k] {
        let i = choose|i: int|
            0 <= i < excludes.len() && components(#[trigger] excludes[i]).len() <= components(
                path,
            ).len() && forall|k: int|
                0 <= k < components(excludes[i]).len() ==> #[trigger] components(excludes[i])[k]
                    == components(path)[k];
        let base = components(excludes[i]);
        assert(components(path).take(base.len() as int) =~= base);
        assert(path_within(path, excludes[i]));
    }
}

/// A name behind a path is one more component of it.
pub proof fn law_name_behind(base: Seq<char>, name: Seq<char>)
    requires
        base.len() > 0,
        name.len() > 0,
        name != seq!['.'],
        forall|i: int| 0 <= i < name.len() ==> name[i] != '/',
    ensures
        components(base + seq!['/'] + name) == components(base).push(name),
{
    assert(name[0] != '/');
    lemma_piece_start_none(name);
    assert(name.take(0) =~= Seq::empty());
    assert(body_spans(Seq::<char>::empty()) =~= Seq::empty());
    assert(body_spans(name) =~= seq![(0int, name.len() as int)]);
    assert(name.subrange(0, name.len() as int) =~= name);
    assert(components(name) =~= seq![name]);
    if dot_first(name) {
        assert(name.len() > 1 ==> name[1] == '/');
        assert(name =~= seq!['.']);
    }
    lemma_body_behind(base, name);
    let p = base.push('/') + name;
    assert(base + seq!['/'] + name =~= p);
    let shift = shifted(body_spans(name), base.len() + 1int);
    assert(shift =~= seq![(base.len() + 1int, base.len() + 1int + name.len())]);
    assert(absolute(p) == absolute(base));
    assert(component_spans(p) =~= component_spans(base).push(
        (base.len() + 1int, base.len() + 1int + name.len()),
    ));
    lemma_spans_ordered(base);
    assert(p.subrange(base.len() + 1int, base.len() + 1int + name.len()) =~= name);
    assert forall|i: int| 0 <= i < components(base).len() implies #[trigger] components(p)[i]
        == components(base)[i] by {
        let s = component_spans(base)[i];
        assert(p.subrange(s.0, s.1) =~= base.subrange(s.0, s.1));
    }
    assert(components(p) =~= components(base).push(name));
}

proof fn lemma_piece_start_none(p: Seq<char>)
    requires
        forall|i: int| 0 <= i < p.len() ==> p[i] != '/',
    ensures
        piece_start(p) == 0,
    decreases p.len(),
{
    if p.len() > 0 {
        let front = p.drop_last();
        assert forall|i: int| 0 <= i < front.len() implies front[i] != '/' by {
            assert(front[i] == p[i]);
        }
        assert(p[p.len() - 1] != '/');
        lemma_piece_start_none(front);
    }
}

/// The root is one component, a name is one, and nothing is none.
pub proof fn law_first_component(name: Seq<char>)
    requires
        name.len() > 0,
        forall|i: int| 0 <= i < name.len() ==> name[i] != '/',
    ensures
        components(Seq::empty()) == Seq::<Seq<char>>::empty(),
        components(seq!['/']) == seq![seq!['/']],
        components(name) == seq![name],
        name != seq!['.'] ==> components(seq!['/'] + name) == seq![seq!['/'], name],
{
    let none = Seq::<char>::empty();
    let root = seq!['/'];
    assert(components(none) =~= Seq::empty());
    assert(root.drop_last() =~= none);
    assert(body_spans(root) =~= Seq::empty());
    assert(root.subrange(0, 1) =~= root);
    assert(components(root) =~= seq![root]);
    assert(name[0] != '/');
    lemma_piece_start_none(name);
    assert(name.take(0) =~= none);
    assert(body_spans(name) =~= seq![(0int, name.len() as int)]);
    assert(name.subrange(0, name.len() as int) =~= name);
    assert(components(name) =~= seq![name]);
    if name != seq!['.'] {
        if dot_first(name) {
            assert(name.len() > 1 ==> name[1] == '/');
            assert(name =~= seq!['.']);
        }
        lemma_body_behind(none, name);
        let p = none.push('/') + name;
        assert(root + name =~= p);
        assert(shifted(body_spans(name), 1) =~= seq![(1int, 1 + name.len() as int)]);
        assert(body_spans(p) =~= seq![(1int, 1 + name.len() as int)]);
        assert(component_spans(p) =~= seq![(0int, 1int), (1int, 1 + name.len() as int)]);
        assert(p.subrange(0, 1) =~= root);
        assert(p.subrange(1, 1 + name.len() as int) =~= name);
        assert(components(p) =~= seq![root, name]);
    }
}

/// A separator or a dot at the end of a path adds no component.
pub proof fn law_trailing_separator(base: Seq<char>)
    requires
        base.len() > 0,
    ensures
        components(base + seq!['/']) == components(base),
        components(base + seq!['/', '.']) == components(base),
{
    let p = base + seq!['/'];
    let q = base + seq!['/', '.'];
    assert(p.drop_last() =~= base);
    assert(body_spans(p) == body_spans(base));
    assert(q.drop_last() =~= p);
    lemma_piece_start(q);
    assert(piece_start(p) == p.len());
    assert(piece_start(q) == p.len());
    assert(q.take(p.len() as int) =~= p);
    assert(body_spans(q) == body_spans(p));
    lemma_spans_ordered(base);
    assert forall|i: int| 0 <= i < components(base).len() implies #[trigger] components(p)[i]
        == components(base)[i] && components(q)[i] == components(base)[i] by {
        let s = component_spans(base)[i];
        assert(p.subrange(s.0, s.1) =~= base.subrange(s.0, s.1));
        assert(q.subrange(s.0, s.1) =~= base.subrange(s.0, s.1));
    }
    assert(components(p) =~= components(base));
    assert(components(q) =~= components(base));
}

/// What a given path stands for: a tilde is the home directory, and what stands behind a
/// tilde and a separator lies in it. An absolute path stands for itself, and any other lies
/// in the current directory.
pub proof fn law_normalized(path: Seq<char>, home: Seq<char>, dir: Seq<char>)
    requires
        home.len() > 0 && home[0] == '/' && home.last() != '/',
        dir.len() > 0 && dir.last() != '/',
    ensures
        normalized(seq!['~'], home, Some(dir)) == home,
        path.len() > 0 && path[0] != '/' ==> normalized(seq!['~', '/'] + path, home, Some(dir))
            == home + seq!['/'] + path,
        path.len() > 0 && path[0] == '/' ==> normalized(path, home, Some(dir)) == path,
        path.len() > 0 && path[0] != '/' && path != seq!['~'] && !(path.len() > 1 && path[0] == '~'
            && path[1] == '/') ==> normalized(path, home, Some(dir)) == dir + seq!['/'] + path,
        path.len() > 0 && path[0] != '/' && path != seq!['~'] && !(path.len() > 1 && path[0] == '~'
            && path[1] == '/') ==> normalized(path, home, None) == path,
{
    let shown = seq!['~', '/'] + path;
    assert(shown.take(2) =~= seq!['~', '/']);
    assert(shown.skip(2) =~= path);
    assert(shown.len() >= 2);
    assert(shown != seq!['~']);
    assert(home.push('/') + path =~= home + seq!['/'] + path);
    assert(dir.push('/') + path =~= dir + seq!['/'] + path);
    if seq!['~', '/'].is_prefix_of(path) {
        assert(path.take(2)[0] == path[0] && path.take(2)[1] == path[1]);
    }
}

/// What does not lie in the home directory is shown as it is; what does is shown behind a
/// tilde, with the components that it has beyond those of the home directory.
pub proof fn law_displayed(path: Seq<char>, home: Seq<char>)
    ensures
        !path_within(path, home) ==> displayed(path, home) == path,
        path_within(path, home) && components(home).len() > 0 ==> {
            &&& displayed(path, home).len() >= 2
            &&& displayed(path, home).take(2) == seq!['~', '/']
            &&& components(displayed(path, home).skip(2)) == components(path).skip(
                components(home).len() as int,
            )
        },
{
    if path_within(path, home) && components(home).len() > 0 {
        let shown = displayed(path, home);
        let rest = text_from(path, components(home).len() as int);
        lemma_components_from(path, components(home).len() as int);
        assert(shown == seq!['~', '/'] + rest);
        assert(shown.take(2) =~= seq!['~', '/']);
        assert(shown.skip(2) =~= rest);
    }
}

/// The directories between a file and the directory of its policy are all of those that lie
/// between them, from the innermost outwards.
pub proof fn law_all_dirs_between(p: Seq<char>, root: Seq<char>, dir: Seq<char>)
    requires
        path_within(p, root),
        path_within(p, dir),
        components(root).len() < components(dir).len() < components(p).len(),
        components(root).len() > 0,
    ensures
        dirs_between(p, root).len() == components(p).len() - components(root).len() - 1,
        same_path(
            dirs_between(p, root)[components(p).len() - 1 - components(dir).len()],
            dir,
        ),
{
    let n = components(dir).len() as int;
    lemma_components_upto(p, n);
    assert(components(p).take(n) == components(dir));
}

/// Joining: an absolute path stands for itself, and any other goes behind the base, with one
/// separator between them where the base does not end with one.
pub proof fn law_joined(base: Seq<char>, rel: Seq<char>)
    ensures
        rel.len() > 0 && rel[0] == '/' ==> joined(base, rel) == rel,
        !(rel.len() > 0 && rel[0] == '/') && (base.len() == 0 || base.last() == '/') ==> joined(
            base,
            rel,
        ) == base + rel,
        !(rel.len() > 0 && rel[0] == '/') && base.len() > 0 && base.last() != '/' ==> joined(
            base,
            rel,
        ) == base + seq!['/'] + rel,
        absolute(rel) <==> rel.len() > 0 && rel[0] == '/',
        same_path(base, rel) <==> components(base) == components(rel),
{
    assert(base.push('/') + rel =~= base + seq!['/'] + rel);
}

/// What any path stands for, wherever the home directory and the current directory lie: a
/// leading tilde is read as the home directory, and what is then not absolute is joined to
/// the current directory, if that is known.
pub proof fn law_normalized_anywhere(path: Seq<char>, home: Seq<char>, dir: Seq<char>)
    ensures
        ({
            let full = if path.len() == 1 && path[0] == '~' {
                home
            } else if path.len() > 1 && path[0] == '~' && path[1] == '/' {
                joined(home, path.skip(2))
            } else {
                path
            };
            &&& normalized(path, home, None) == full
            &&& normalized(path, home, Some(dir)) == if full.len() > 0 && full[0] == '/' {
                full
            } else {
                joined(dir, full)
            }
        }),
{
    let tilde = seq!['~', '/'];
    if path.len() == 1 && path[0] == '~' {
        assert(path =~= seq!['~']);
    }
    if path.len() > 1 && path[0] == '~' && path[1] == '/' {
        assert(path.take(2) =~= tilde);
        assert(path != seq!['~']);
    }
    if tilde.is_prefix_of(path) {
        assert(path.take(2)[0] == path[0] && path.take(2)[1] == path[1]);
    }
}

} // verus!
