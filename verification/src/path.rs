//! File system paths, read by the Unix rules: `/` separates components,
//! repeated separators and `.` components (but for a leading one) do not
//! count, and a path that begins with `/` is absolute.
use vstd::prelude::*;
use vstd::string::*;

use crate::order::{order_text, order_u64, stable_order, Order};
use crate::text::{chars_of, concat, same_text, slice};

verus! {

/// The first `/` at or after `i`, or the end of the text.
pub open spec fn name_end(t: Seq<char>, i: int) -> int
    decreases t.len() - i,
{
    if i >= t.len() || t[i] == '/' {
        i
    } else {
        name_end(t, i + 1)
    }
}

/// Whether the text from `i` to `e`, between separators, is a component.
pub open spec fn is_component(t: Seq<char>, i: int, e: int) -> bool {
    i < e && (i == 0 || t.subrange(i, e) != seq!['.'])
}

/// Where the components stand that begin at or after `i`, the beginning of
/// the text or the place behind a separator.
pub open spec fn spans_from(t: Seq<char>, i: int) -> Seq<(int, int)>
    decreases t.len() + 1 - i,
    via spans_shrink
{
    if i >= t.len() {
        seq![]
    } else {
        let e = name_end(t, i);
        if is_component(t, i, e) {
            seq![(i, e)] + spans_from(t, e + 1)
        } else {
            spans_from(t, e + 1)
        }
    }
}

#[via_fn]
proof fn spans_shrink(t: Seq<char>, i: int) {
    lemma_name_end(t, i);
}

proof fn lemma_name_end(t: Seq<char>, i: int)
    ensures
        i <= name_end(t, i),
        i <= t.len() ==> name_end(t, i) <= t.len(),
        name_end(t, i) < t.len() ==> t[name_end(t, i)] == '/',
        forall|k: int| i <= k < name_end(t, i) && 0 <= k ==> #[trigger] t[k] != '/',
    decreases t.len() - i,
{
    if i < t.len() && t[i] != '/' {
        lemma_name_end(t, i + 1);
    }
}

/// Where the components of a path stand in its text. The root is a component
/// of its own, the leading `/`.
pub open spec fn spans(t: Seq<char>) -> Seq<(int, int)> {
    if is_absolute(t) {
        seq![(0int, 1int)] + spans_from(t, 1)
    } else {
        spans_from(t, 0)
    }
}

/// The path begins at the root.
pub open spec fn is_absolute(t: Seq<char>) -> bool {
    t.len() > 0 && t[0] == '/'
}

/// The texts at the given places.
pub open spec fn texts_at(t: Seq<char>, s: Seq<(int, int)>) -> Seq<Seq<char>> {
    s.map_values(|p: (int, int)| t.subrange(p.0, p.1))
}

/// The components of a path: `/` for the root, then the names between the
/// separators.
pub open spec fn parts(t: Seq<char>) -> Seq<Seq<char>> {
    texts_at(t, spans(t))
}

/// The component names a file or directory, and is not the root, `.` or `..`.
pub open spec fn is_name(p: Seq<char>) -> bool {
    p != seq!['/'] && p != seq!['.'] && p != seq!['.', '.']
}

/// The components of `b` come first in `a`.
pub open spec fn lies_under(a: Seq<char>, b: Seq<char>) -> bool {
    parts(b).len() <= parts(a).len() && parts(a).take(parts(b).len() as int) == parts(b)
}

/// The two paths have the same components.
pub open spec fn same_path(a: Seq<char>, b: Seq<char>) -> bool {
    parts(a) == parts(b)
}

/// `b` taken from `a`: an absolute `b` stands for itself.
pub open spec fn path_join(a: Seq<char>, b: Seq<char>) -> Seq<char> {
    if is_absolute(b) {
        b
    } else if a.len() == 0 || a.last() == '/' {
        a + b
    } else {
        a.push('/') + b
    }
}

/// The path without its first `k` components.
pub open spec fn path_rest(t: Seq<char>, k: int) -> Seq<char> {
    let s = spans(t);
    if k >= s.len() {
        seq![]
    } else {
        t.subrange(s[k].0, s.last().1)
    }
}

/// The path without its last component, unless it has none or is the root.
pub open spec fn path_parent(t: Seq<char>) -> Option<Seq<char>> {
    let s = spans(t);
    if s.len() == 0 || parts(t).last() == seq!['/'] {
        None
    } else if s.len() == 1 {
        Some(seq![])
    } else {
        Some(t.take(s[s.len() - 2].1))
    }
}

/// The last component, where it is a name.
pub open spec fn path_file_name(t: Seq<char>) -> Option<Seq<char>> {
    if parts(t).len() > 0 && is_name(parts(t).last()) {
        Some(parts(t).last())
    } else {
        None
    }
}

/// The path with its last name replaced, or `name` added where it has none.
pub open spec fn path_with_file_name(t: Seq<char>, name: Seq<char>) -> Seq<char> {
    if path_file_name(t) is Some {
        path_join(path_parent(t).unwrap(), name)
    } else {
        path_join(t, name)
    }
}

/// The rank of a component's kind: the root, `.`, `..`, names.
pub open spec fn part_rank(p: Seq<char>) -> int {
    if p == seq!['/'] {
        0
    } else if p == seq!['.'] {
        1
    } else if p == seq!['.', '.'] {
        2
    } else {
        3
    }
}

pub open spec fn part_order(p: Seq<char>, q: Seq<char>) -> Order {
    crate::order::first_of(
        crate::order::int_order(part_rank(p), part_rank(q)),
        crate::order::text_order(p, q),
    )
}

/// Paths by their first differing component.
pub open spec fn path_order(a: Seq<char>, b: Seq<char>) -> Order {
    crate::order::lex(parts(a), parts(b), |p: Seq<char>, q: Seq<char>| part_order(p, q))
}

proof fn lemma_spans_from(t: Seq<char>, i: int)
    requires
        0 <= i,
    ensures
        forall|k: int|
            0 <= k < spans_from(t, i).len() ==> i <= (#[trigger] spans_from(t, i)[k]).0
                < spans_from(t, i)[k].1 <= t.len(),
        forall|k: int, l: int|
            0 <= k < l < spans_from(t, i).len() ==> (#[trigger] spans_from(t, i)[k]).1 < (
            #[trigger] spans_from(t, i)[l]).0,
        forall|k: int, j: int|
            0 <= k < spans_from(t, i).len() && (#[trigger] spans_from(t, i)[k]).0 <= j
                < spans_from(t, i)[k].1 ==> #[trigger] t[j] != '/',
    decreases t.len() + 1 - i,
{
    if i < t.len() {
        lemma_name_end(t, i);
        let e = name_end(t, i);
        lemma_spans_from(t, e + 1);
        let s = spans_from(t, i);
        let rest = spans_from(t, e + 1);
        if is_component(t, i, e) {
            assert forall|k: int| 0 < k < s.len() implies s[k] == rest[k - 1] by {}
        }
    }
}

pub proof fn lemma_spans(t: Seq<char>)
    ensures
        forall|k: int|
            0 <= k < spans(t).len() ==> 0 <= (#[trigger] spans(t)[k]).0 < spans(t)[k].1 <= t.len(),
        forall|k: int, l: int|
            0 <= k < l < spans(t).len() ==> (#[trigger] spans(t)[k]).1 <= (
            #[trigger] spans(t)[l]).0,
        spans(t).len() > 0 ==> spans(t)[0].0 == 0,
        is_absolute(t) ==> spans(t).len() > 0 && parts(t)[0] == seq!['/'],
        forall|k: int|
            0 <= k < parts(t).len() ==> (#[trigger] parts(t)[k] == seq!['/'] <==> k == 0
                && is_absolute(t)),
{
    let s = spans(t);
    if is_absolute(t) {
        lemma_spans_from(t, 1);
        let rest = spans_from(t, 1);
        assert forall|k: int| 0 < k < s.len() implies s[k] == rest[k - 1] by {}
        assert(t.subrange(0, 1) == seq!['/']);
    } else {
        lemma_spans_from(t, 0);
        lemma_name_end(t, 0);
        if t.len() > 0 {
            assert(is_component(t, 0, name_end(t, 0)));
        }
    }
    assert forall|k: int| 0 <= k < parts(t).len() implies (#[trigger] parts(t)[k] == seq!['/']
        <==> k == 0 && is_absolute(t)) by {
        if !(k == 0 && is_absolute(t)) {
            assert(t[s[k].0] != '/') by {
                if is_absolute(t) {
                    assert(s[k] == spans_from(t, 1)[k - 1]);
                }
            }
            assert(parts(t)[k][0] == t[s[k].0]);
        }
    }
}

fn name_end_exec(x: &Vec<char>, i: usize) -> (r: usize)
    requires
        i <= x@.len(),
    ensures
        r == name_end(x@, i as int),
        i <= r <= x@.len(),
{
    let mut e: usize = i;
    while e < x.len() && x[e] != '/'
        invariant
            i <= e <= x@.len(),
            name_end(x@, i as int) == name_end(x@, e as int),
        ensures
            i <= e <= x@.len(),
            name_end(x@, i as int) == name_end(x@, e as int),
            e < x@.len() ==> x@[e as int] == '/',
        decreases x@.len() - e,
    {
        e = e + 1;
    }
    e
}

/// Places as mathematical integers.
pub open spec fn places(v: Seq<(usize, usize)>) -> Seq<(int, int)> {
    v.map_values(|p: (usize, usize)| (p.0 as int, p.1 as int))
}

fn spans_of(x: &Vec<char>) -> (r: Vec<(usize, usize)>)
    ensures
        places(r@) == spans(x@),
{
    let n: usize = x.len();
    let mut r: Vec<(usize, usize)> = Vec::new();
    let mut i: usize = 0;
    if n > 0 && x[0] == '/' {
        r.push((0, 1));
        i = 1;
    }
    assert(places(r@) + spans_from(x@, i as int) == spans(x@));
    while i < n
        invariant
            n == x@.len(),
            i <= n,
            places(r@) + spans_from(x@, i as int) == spans(x@),
        decreases n - i,
    {
        let e: usize = name_end_exec(x, i);
        let dot = e - i == 1 && x[i] == '.';
        let ghost before = places(r@);
        proof {
            lemma_name_end(x@, i as int);
            let piece = x@.subrange(i as int, e as int);
            if dot {
                assert(piece == seq!['.']);
            } else if e - i == 1 {
                assert(piece[0] != '.');
            } else {
                assert(piece.len() != 1);
            }
            assert(is_component(x@, i as int, e as int) == (i < e && (i == 0 || !dot)));
        }
        if i < e && (i == 0 || !dot) {
            r.push((i, e));
            assert(places(r@) == before.push((i as int, e as int)));
            assert(before + (seq![(i as int, e as int)] + spans_from(x@, e + 1)) == places(r@)
                + spans_from(x@, e + 1));
        }
        i = if e == n {
            n
        } else {
            e + 1
        };
    }
    assert(places(r@) + Seq::<(int, int)>::empty() == places(r@));
    r
}

/// A path.
#[derive(Debug)]
pub struct PathBuf {
    text: String,
}

impl View for PathBuf {
    type V = Seq<char>;

    closed spec fn view(&self) -> Seq<char> {
        self.text@
    }
}

impl Clone for PathBuf {
    fn clone(&self) -> (r: Self)
        ensures
            r == *self,
    {
        PathBuf { text: self.text.clone() }
    }
}

impl PartialEq for PathBuf {
    fn eq(&self, other: &Self) -> (r: bool) {
        self.is_same(other)
    }
}

impl vstd::std_specs::cmp::PartialEqSpecImpl for PathBuf {
    open spec fn obeys_eq_spec() -> bool {
        true
    }

    open spec fn eq_spec(&self, other: &Self) -> bool {
        same_path(self@, other@)
    }
}

impl PathBuf {
    /// The path with the given text.
    pub fn new(text: &str) -> (r: PathBuf)
        ensures
            r@ == text@,
    {
        PathBuf { text: text.to_owned() }
    }

    /// The path's text.
    pub fn as_str(&self) -> (r: &str)
        ensures
            r@ == self@,
    {
        self.text.as_str()
    }

    /// The components, in order.
    pub fn components(&self) -> (r: Vec<String>)
        ensures
            crate::text::texts(r@) == parts(self@),
    {
        let x = chars_of(self.text.as_str());
        let s = spans_of(&x);
        proof {
            lemma_spans(self@);
        }
        let mut r: Vec<String> = Vec::new();
        let mut k: usize = 0;
        while k < s.len()
            invariant
                k <= s@.len(),
                x@ == self@,
                places(s@) == spans(self@),
                forall|j: int|
                    0 <= j < spans(self@).len() ==> 0 <= (#[trigger] spans(self@)[j]).0 < spans(
                        self@,
                    )[j].1 <= self@.len(),
                crate::text::texts(r@) == parts(self@).take(k as int),
            decreases s@.len() - k,
        {
            let (a, b) = s[k];
            assert(spans(self@)[k as int] == (a as int, b as int));
            let piece = slice(self.text.as_str(), a, b);
            let ghost before = crate::text::texts(r@);
            r.push(piece);
            assert(crate::text::texts(r@) == before.push(piece@));
            assert(parts(self@).take(k + 1) == parts(self@).take(k as int).push(
                parts(self@)[k as int],
            ));
            k = k + 1;
        }
        assert(parts(self@).take(k as int) == parts(self@));
        r
    }

    /// Whether the two paths have the same components.
    pub fn is_same(&self, other: &PathBuf) -> (r: bool)
        ensures
            r == same_path(self@, other@),
    {
        let a = self.components();
        let b = other.components();
        proof {
            let (x, y) = (crate::text::texts(a@), crate::text::texts(b@));
            if x.len() == y.len() {
                assert(x.take(y.len() as int) == x);
            }
        }
        a.len() == b.len() && has_first(&a, &b)
    }

    /// Whether the components of `base` come first in this path.
    pub fn starts_with(&self, base: &PathBuf) -> (r: bool)
        ensures
            r == lies_under(self@, base@),
    {
        let a = self.components();
        let b = base.components();
        b.len() <= a.len() && has_first(&a, &b)
    }

    /// `other` taken from this path.
    pub fn join(&self, other: &str) -> (r: PathBuf)
        ensures
            r@ == path_join(self@, other@),
    {
        let a = chars_of(self.text.as_str());
        let b = chars_of(other);
        if b.len() > 0 && b[0] == '/' {
            return PathBuf::new(other);
        }
        if a.len() == 0 || a[a.len() - 1] == '/' {
            return PathBuf { text: concat(self.text.as_str(), other) };
        }
        proof {
            reveal_strlit("/");
            assert("/"@ == seq!['/']);
            assert(self@ + "/"@ == self@.push('/'));
        }
        let mut text = concat(self.text.as_str(), "/");
        text.append(other);
        PathBuf { text }
    }

    /// The path without its first `k` components.
    pub fn rest(&self, k: usize) -> (r: PathBuf)
        ensures
            r@ == path_rest(self@, k as int),
    {
        let x = chars_of(self.text.as_str());
        let s = spans_of(&x);
        if k >= s.len() {
            let text = String::new();
            assert(text@ == Seq::<char>::empty());
            return PathBuf { text };
        }
        proof {
            lemma_spans(self@);
            let n = s@.len() - 1;
            assert(spans(self@)[k as int] == (s@[k as int].0 as int, s@[k as int].1 as int));
            assert(spans(self@)[n] == (s@[n].0 as int, s@[n].1 as int));
        }
        PathBuf { text: slice(self.text.as_str(), s[k].0, s[s.len() - 1].1) }
    }

    /// The path without its last component, unless it has none or is the
    /// root.
    pub fn parent(&self) -> (r: Option<PathBuf>)
        ensures
            r is Some == path_parent(self@) is Some,
            r matches Some(p) ==> path_parent(self@) == Some(p@),
    {
        let x = chars_of(self.text.as_str());
        let s = spans_of(&x);
        proof {
            lemma_spans(self@);
        }
        if s.len() == 0 {
            return None;
        }
        assert(parts(self@).last() == parts(self@)[s@.len() - 1]);
        if s.len() == 1 {
            if x[0] == '/' {
                return None;
            }
            let text = String::new();
            assert(text@ == Seq::<char>::empty());
            return Some(PathBuf { text });
        }
        let end: usize = s[s.len() - 2].1;
        assert(spans(self@)[s@.len() - 2].1 == end);
        let text = slice(self.text.as_str(), 0, end);
        assert(text@ == self@.take(end as int));
        Some(PathBuf { text })
    }

    /// The last component, where it is a name.
    pub fn file_name(&self) -> (r: Option<String>)
        ensures
            crate::text::text_of(r) == path_file_name(self@),
    {
        let mut c = self.components();
        let ghost all = c@;
        match c.pop() {
            None => None,
            Some(last) => {
                assert(parts(self@).last() == crate::text::texts(all).last());
                assert(last@ == parts(self@).last());
                if part_rank_exec(last.as_str()) == 3 {
                    Some(last)
                } else {
                    None
                }
            },
        }
    }

    /// Replaces the last name, or adds `name` where there is none.
    pub fn set_file_name(&mut self, name: &str)
        ensures
            final(self)@ == path_with_file_name(old(self)@, name@),
    {
        let next = if self.file_name().is_some() {
            proof {
                lemma_spans(self@);
            }
            match self.parent() {
                Some(p) => p.join(name),
                None => self.join(name),
            }
        } else {
            self.join(name)
        };
        *self = next;
    }

    /// Compares two paths by their first differing component.
    pub fn order(&self, other: &PathBuf) -> (r: Order)
        ensures
            r == path_order(self@, other@),
    {
        let a = self.components();
        let b = other.components();
        order_parts(&a, &b)
    }
}

fn part_rank_exec(p: &str) -> (r: u64)
    ensures
        r == part_rank(p@),
{
    proof {
        reveal_strlit("/");
        reveal_strlit(".");
        reveal_strlit("..");
        assert("/"@ == seq!['/']);
        assert("."@ == seq!['.']);
        assert(".."@ == seq!['.', '.']);
    }
    if same_text(p, "/") {
        0
    } else if same_text(p, ".") {
        1
    } else if same_text(p, "..") {
        2
    } else {
        3
    }
}

fn order_parts(a: &Vec<String>, b: &Vec<String>) -> (r: Order)
    ensures
        r == crate::order::lex(
            crate::text::texts(a@),
            crate::text::texts(b@),
            |p: Seq<char>, q: Seq<char>| part_order(p, q),
        ),
{
    let ghost x = crate::text::texts(a@);
    let ghost y = crate::text::texts(b@);
    let ghost c = |p: Seq<char>, q: Seq<char>| part_order(p, q);
    let mut i: usize = 0;
    assert(x.skip(0) == x && y.skip(0) == y);
    while i < a.len() && i < b.len()
        invariant
            x == crate::text::texts(a@),
            y == crate::text::texts(b@),
            c == (|p: Seq<char>, q: Seq<char>| part_order(p, q)),
            i <= x.len(),
            i <= y.len(),
            crate::order::lex(x, y, c) == crate::order::lex(x.skip(i as int), y.skip(i as int), c),
        decreases x.len() - i,
    {
        assert(x.skip(i as int).skip(1) == x.skip(i + 1));
        assert(y.skip(i as int).skip(1) == y.skip(i + 1));
        let p = a[i].as_str();
        let q = b[i].as_str();
        let o = order_u64(part_rank_exec(p), part_rank_exec(q)).or_else(order_text(p, q));
        assert(o == c(x[i as int], y[i as int]));
        match o {
            Order::Equal => {},
            o => {
                return o;
            },
        }
        i = i + 1;
    }
    if i < b.len() {
        Order::Less
    } else if i < a.len() {
        Order::Greater
    } else {
        Order::Equal
    }
}

/// Whether the texts of `b` come first in `a`.
fn has_first(a: &Vec<String>, b: &Vec<String>) -> (r: bool)
    requires
        b@.len() <= a@.len(),
    ensures
        r == (crate::text::texts(a@).take(b@.len() as int) == crate::text::texts(b@)),
{
    let ghost x = crate::text::texts(a@);
    let ghost y = crate::text::texts(b@);
    let mut i: usize = 0;
    while i < b.len()
        invariant
            x == crate::text::texts(a@),
            y == crate::text::texts(b@),
            i <= b@.len() <= a@.len(),
            forall|k: int| 0 <= k < i ==> x[k] == y[k],
        decreases b@.len() - i,
    {
        if !same_text(a[i].as_str(), b[i].as_str()) {
            assert(x.take(y.len() as int)[i as int] != y[i as int]);
            return false;
        }
        i = i + 1;
    }
    assert(x.take(y.len() as int) == y);
    true
}

/// The components that a relative path adds where it is joined to another:
/// all but a leading `.`.
pub open spec fn added_parts(b: Seq<char>) -> Seq<Seq<char>> {
    if parts(b).len() > 0 && parts(b)[0] == seq!['.'] {
        parts(b).skip(1)
    } else {
        parts(b)
    }
}

proof fn lemma_name_end_prefix(t: Seq<char>, a: Seq<char>, i: int)
    requires
        0 <= i < a.len() <= t.len(),
        t.take(a.len() as int) == a,
        a.last() == '/',
    ensures
        name_end(t, i) == name_end(a, i),
        name_end(a, i) < a.len(),
    decreases a.len() - i,
{
    assert(t[i] == t.take(a.len() as int)[i]);
    if a[i] != '/' {
        lemma_name_end_prefix(t, a, i + 1);
    }
}

proof fn lemma_spans_prefix(t: Seq<char>, a: Seq<char>, i: int)
    requires
        0 <= i <= a.len() <= t.len(),
        t.take(a.len() as int) == a,
        a.len() > 0,
        a.last() == '/',
    ensures
        spans_from(t, i) == spans_from(a, i) + spans_from(t, a.len() as int),
    decreases a.len() - i,
{
    if i < a.len() {
        lemma_name_end_prefix(t, a, i);
        lemma_name_end(a, i);
        let e = name_end(a, i);
        assert(t.subrange(i, e) == a.subrange(i, e)) by {
            assert forall|k: int| i <= k < e implies t[k] == a[k] by {
                assert(t[k] == t.take(a.len() as int)[k]);
            }
        }
        lemma_spans_prefix(t, a, e + 1);
        let tail = spans_from(t, a.len() as int);
        assert((seq![(i, e)] + spans_from(a, e + 1)) + tail == seq![(i, e)] + (spans_from(a, e + 1)
            + tail));
    } else {
        assert(spans_from(a, i) + spans_from(t, i) == spans_from(t, i));
    }
}

proof fn lemma_name_end_shift(t: Seq<char>, b: Seq<char>, n: int, i: int)
    requires
        0 <= n,
        0 <= i,
        t.len() == n + b.len(),
        t.skip(n) == b,
    ensures
        name_end(t, n + i) == n + name_end(b, i),
    decreases b.len() - i,
{
    if i < b.len() {
        assert(t.skip(n)[i] == t[n + i]);
        if b[i] != '/' {
            lemma_name_end_shift(t, b, n, i + 1);
        }
    }
}

proof fn lemma_spans_shift(t: Seq<char>, b: Seq<char>, n: int, i: int)
    requires
        0 < n,
        0 < i,
        t.len() == n + b.len(),
        t.skip(n) == b,
    ensures
        texts_at(t, spans_from(t, n + i)) == texts_at(b, spans_from(b, i)),
    decreases b.len() + 1 - i,
{
    if i < b.len() {
        lemma_name_end_shift(t, b, n, i);
        lemma_name_end(b, i);
        let e = name_end(b, i);
        assert(t.subrange(n + i, n + e) == b.subrange(i, e)) by {
            assert forall|k: int| i <= k < e implies t[n + k] == b[k] by {
                assert(t.skip(n)[k] == t[n + k]);
            }
        }
        lemma_spans_shift(t, b, n, e + 1);
        if is_component(b, i, e) {
            assert(texts_at(t, spans_from(t, n + i)) == seq![b.subrange(i, e)] + texts_at(
                t,
                spans_from(t, n + e + 1),
            ));
            assert(texts_at(b, spans_from(b, i)) == seq![b.subrange(i, e)] + texts_at(
                b,
                spans_from(b, e + 1),
            ));
        }
    }
}

proof fn lemma_added_parts(t: Seq<char>, b: Seq<char>, n: int)
    requires
        0 < n,
        t.len() == n + b.len(),
        t.skip(n) == b,
        !is_absolute(b),
    ensures
        texts_at(t, spans_from(t, n)) == added_parts(b),
{
    if b.len() > 0 {
        lemma_name_end_shift(t, b, n, 0);
        lemma_name_end(b, 0);
        let e = name_end(b, 0);
        let head = b.subrange(0, e);
        assert(t.subrange(n, n + e) == head) by {
            assert forall|k: int| 0 <= k < e implies t[n + k] == b[k] by {
                assert(t.skip(n)[k] == t[n + k]);
            }
        }
        assert(e > 0);
        if e < b.len() {
            lemma_spans_shift(t, b, n, e + 1);
        }
        let rest = texts_at(b, spans_from(b, e + 1));
        assert(texts_at(t, spans_from(t, n + e + 1)) == rest);
        assert(parts(b) == seq![head] + rest);
        if head == seq!['.'] {
            assert(parts(b).skip(1) == rest);
        } else {
            assert(texts_at(t, spans_from(t, n)) == seq![head] + rest);
        }
    } else {
        assert(texts_at(t, spans_from(t, n)) == added_parts(b));
    }
}

proof fn lemma_spans_closed(a: Seq<char>, i: int)
    requires
        0 <= i,
        a.len() > 0,
        a.last() != '/',
    ensures
        spans_from(a.push('/'), i) == spans_from(a, i),
    decreases a.len() + 1 - i,
{
    let t = a.push('/');
    if i < a.len() {
        lemma_name_end_closed(a, i);
        lemma_name_end(a, i);
        let e = name_end(a, i);
        assert(t.subrange(i, e) == a.subrange(i, e));
        lemma_spans_closed(a, e + 1);
    } else if i == a.len() {
        assert(name_end(t, i) == i);
        assert(spans_from(t, i + 1) == Seq::<(int, int)>::empty());
    }
}

proof fn lemma_name_end_closed(a: Seq<char>, i: int)
    requires
        0 <= i <= a.len(),
    ensures
        name_end(a.push('/'), i) == name_end(a, i),
    decreases a.len() - i,
{
    if i < a.len() && a[i] != '/' {
        lemma_name_end_closed(a, i + 1);
    }
}

/// The components of a joined path: those of the first, then those that the
/// second adds.
pub proof fn join_appends_parts(a: Seq<char>, b: Seq<char>)
    requires
        a.len() > 0,
        !is_absolute(b),
    ensures
        parts(path_join(a, b)) == parts(a) + added_parts(b),
{
    let t = path_join(a, b);
    let c = if a.last() == '/' {
        a
    } else {
        a.push('/')
    };
    assert(t == c + b);
    assert(t.take(c.len() as int) == c);
    assert(t.skip(c.len() as int) == b);
    assert(c.last() == '/');
    lemma_added_parts(t, b, c.len() as int);
    let start = if is_absolute(a) {
        1int
    } else {
        0int
    };
    lemma_spans_prefix(t, c, start);
    if a.last() != '/' {
        lemma_spans_closed(a, start);
        assert(spans_from(c, start) == spans_from(a, start));
    }
    assert(t[0] == a[0]);
    let tail = spans_from(t, c.len() as int);
    assert(spans(t) == spans(a) + tail);
    lemma_spans(a);
    assert forall|k: int| 0 <= k < spans(a).len() implies #[trigger] parts(t)[k] == parts(a)[k] by {
        let (p, q) = spans(a)[k];
        assert(t.subrange(p, q) == a.subrange(p, q));
    }
    assert(parts(t) == parts(a) + texts_at(t, tail));
}

/// A relative path joined to another lies under it.
pub proof fn join_stays_under(a: Seq<char>, b: Seq<char>)
    requires
        !is_absolute(b),
    ensures
        lies_under(path_join(a, b), a),
{
    if a.len() > 0 {
        join_appends_parts(a, b);
        assert((parts(a) + added_parts(b)).take(parts(a).len() as int) == parts(a));
    } else {
        assert(parts(path_join(a, b)).take(0) == parts(a));
    }
}

/// A name without separators is its own single component.
pub proof fn lemma_single_name(b: Seq<char>)
    requires
        b.len() > 0,
        !b.contains('/'),
    ensures
        parts(b) == seq![b],
        b != seq!['.'] ==> added_parts(b) == seq![b],
{
    lemma_name_end(b, 0);
    let e = name_end(b, 0);
    if e < b.len() {
        assert(b[e] == '/');
    }
    assert(e == b.len());
    assert(b.subrange(0, e) == b);
    assert(b[0] != '/');
    assert(spans_from(b, e + 1) == Seq::<(int, int)>::empty());
    assert(spans(b) == seq![(0int, e)]);
    assert(parts(b) == seq![b]);
}

/// An empty path has no components.
pub proof fn lemma_no_parts()
    ensures
        parts(seq![]) == Seq::<Seq<char>>::empty(),
{
    assert(spans(seq![]) == Seq::<(int, int)>::empty());
}

pub proof fn lemma_path_ordering()
    ensures
        crate::order::is_ordering(|a: Seq<char>, b: Seq<char>| path_order(a, b)),
{
    crate::order::lemma_text_ordering();
    let w = |p: Seq<char>, q: Seq<char>| crate::order::text_order(p, q);
    let c = |p: Seq<char>, q: Seq<char>| part_order(p, q);
    assert forall|x: Seq<char>, y: Seq<char>| #![trigger c(x, y)] c(x, y)
        == crate::order::reversed(c(y, x)) by {
        assert(w(x, y) == crate::order::reversed(w(y, x)));
    }
    assert forall|x: Seq<char>, y: Seq<char>, z: Seq<char>|
        #![trigger c(x, y), c(y, z)]
        c(x, y) != Order::Greater && c(y, z) != Order::Greater implies c(x, z)
        != Order::Greater by {
        assert(w(x, y) != Order::Greater && w(y, z) != Order::Greater ==> w(x, z)
            != Order::Greater);
    }
    crate::order::lemma_lex_ordering(c);
    let l = |a: Seq<Seq<char>>, b: Seq<Seq<char>>| crate::order::lex(a, b, c);
    let p = |a: Seq<char>, b: Seq<char>| path_order(a, b);
    assert forall|x: Seq<char>, y: Seq<char>| #![trigger p(x, y)] p(x, y)
        == crate::order::reversed(p(y, x)) by {
        assert(l(parts(x), parts(y)) == crate::order::reversed(l(parts(y), parts(x))));
    }
    assert forall|x: Seq<char>, y: Seq<char>, z: Seq<char>|
        #![trigger p(x, y), p(y, z)]
        p(x, y) != Order::Greater && p(y, z) != Order::Greater implies p(x, z)
        != Order::Greater by {
        assert(l(parts(x), parts(y)) != Order::Greater && l(parts(y), parts(z)) != Order::Greater);
        assert(l(parts(x), parts(z)) != Order::Greater);
    }
}

/// The texts of a list of paths.
pub open spec fn path_texts(v: Seq<PathBuf>) -> Seq<Seq<char>> {
    v.map_values(|p: PathBuf| p@)
}

/// `s` holds the same values as `v`, sorted by `c`, equal ones in their order.
pub open spec fn is_sorted_copy(v: Seq<PathBuf>, s: Seq<PathBuf>) -> bool {
    exists|r: Seq<usize>|
        #![trigger r.len()]
        crate::order::is_stable_order(
            r,
            0,
            v.len() as int,
            |i: int, j: int| path_order(v[i]@, v[j]@),
        ) && s == r.map_values(|i: usize| v[i as int])
}

/// `s` holds the same texts as `v`, sorted as paths, equal ones in their order.
pub open spec fn is_sorted_texts(v: Seq<Seq<char>>, s: Seq<Seq<char>>) -> bool {
    exists|r: Seq<usize>|
        #![trigger r.len()]
        crate::order::is_stable_order(
            r,
            0,
            v.len() as int,
            |i: int, j: int| path_order(v[i], v[j]),
        ) && s == r.map_values(|i: usize| v[i as int])
}

/// A sorted copy of paths holds their texts, sorted.
pub proof fn lemma_sorted_texts(v: Seq<PathBuf>, s: Seq<PathBuf>)
    requires
        is_sorted_copy(v, s),
    ensures
        is_sorted_texts(path_texts(v), path_texts(s)),
{
    let c = |i: int, j: int| path_order(v[i]@, v[j]@);
    let r = choose|r: Seq<usize>|
        #![trigger r.len()]
        crate::order::is_stable_order(r, 0, v.len() as int, c) && s == r.map_values(
            |i: usize| v[i as int],
        );
    let t = path_texts(v);
    let d = |i: int, j: int| path_order(t[i], t[j]);
    assert(forall|k: int| 0 <= k < r.len() ==> 0 <= #[trigger] r[k] < v.len());
    assert(crate::order::is_stable_order(r, 0, t.len() as int, d));
    assert(path_texts(s) =~= r.map_values(|i: usize| t[i as int]));
}

/// The paths in ascending order.
pub fn sort_paths(v: &Vec<PathBuf>) -> (s: Vec<PathBuf>)
    ensures
        is_sorted_copy(v@, s@),
{
    let ghost c = |i: int, j: int| path_order(v@[i]@, v@[j]@);
    proof {
        lemma_path_ordering();
        let p = |a: Seq<char>, b: Seq<char>| path_order(a, b);
        assert forall|x: int, y: int| #![trigger c(x, y)] c(x, y)
            == crate::order::reversed(c(y, x)) by {
            assert(p(v@[x]@, v@[y]@) == crate::order::reversed(p(v@[y]@, v@[x]@)));
        }
        assert forall|x: int, y: int, z: int|
            #![trigger c(x, y), c(y, z)]
            c(x, y) != Order::Greater && c(y, z) != Order::Greater implies c(x, z)
            != Order::Greater by {
            assert(p(v@[x]@, v@[y]@) != Order::Greater && p(v@[y]@, v@[z]@) != Order::Greater);
            assert(p(v@[x]@, v@[z]@) != Order::Greater);
        }
    }
    let f = |i: usize, j: usize| -> (o: Order)
        requires
            i < v@.len(),
            j < v@.len(),
        ensures
            o == path_order(v@[i as int]@, v@[j as int]@),
        { v[i].order(&v[j]) };
    let r = stable_order(v.len(), f, Ghost(c));
    let mut s: Vec<PathBuf> = Vec::new();
    let ghost want = r@.map_values(|i: usize| v@[i as int]);
    let mut k: usize = 0;
    while k < r.len()
        invariant
            k <= r@.len(),
            want == r@.map_values(|i: usize| v@[i as int]),
            crate::order::is_stable_order(r@, 0, v@.len() as int, c),
            s@ == want.take(k as int),
        decreases r@.len() - k,
    {
        assert(r@[k as int] < v@.len());
        s.push(v[r[k]].clone());
        assert(want.take(k + 1) == want.take(k as int).push(want[k as int]));
        k = k + 1;
    }
    assert(want.take(k as int) == want);
    assert(r@.len() == v@.len());
    s
}

/// A relative path that is not empty has a first component.
pub proof fn lemma_first_name(t: Seq<char>)
    requires
        t.len() > 0,
        !is_absolute(t),
    ensures
        spans(t).len() > 0,
{
    lemma_name_end(t, 0);
    assert(is_component(t, 0, name_end(t, 0)));
}

/// Components that are names hold no separator and are not empty.
pub proof fn lemma_parts_plain(t: Seq<char>)
    ensures
        forall|k: int|
            0 <= k < parts(t).len() && is_name(#[trigger] parts(t)[k]) ==> parts(t)[k].len() > 0
                && !parts(t)[k].contains('/'),
{
    lemma_spans(t);
    let s = spans(t);
    assert forall|k: int| 0 <= k < parts(t).len() && is_name(#[trigger] parts(t)[k]) implies parts(
        t,
    )[k].len() > 0 && !parts(t)[k].contains('/') by {
        let (a, b) = s[k];
        let p = parts(t)[k];
        assert(p == t.subrange(a, b));
        let start = if is_absolute(t) {
            1int
        } else {
            0int
        };
        lemma_spans_from(t, start);
        assert(p != seq!['/']);
        if is_absolute(t) {
            assert(k > 0);
            assert(s[k] == spans_from(t, 1)[k - 1]);
        }
        assert forall|i: int| 0 <= i < p.len() implies p[i] != '/' by {
            assert(p[i] == t[a + i]);
            let f = spans_from(t, start);
            assert(f[k - start] == s[k]);
        }
    }
}

proof fn lemma_no_dot(t: Seq<char>, i: int)
    requires
        0 <= i,
    ensures
        forall|k: int|
            0 <= k < spans_from(t, i).len() ==> (#[trigger] spans_from(t, i)[k]).0 == 0
                || t.subrange(spans_from(t, i)[k].0, spans_from(t, i)[k].1) != seq!['.'],
    decreases t.len() + 1 - i,
{
    if i < t.len() {
        lemma_name_end(t, i);
        let e = name_end(t, i);
        lemma_no_dot(t, e + 1);
        let s = spans_from(t, i);
        let rest = spans_from(t, e + 1);
        if is_component(t, i, e) {
            assert forall|k: int| 0 < k < s.len() implies s[k] == rest[k - 1] by {}
        }
    }
}

/// A component is the root, which stands first, or it holds no separator; `.`
/// stands nowhere but first.
pub proof fn lemma_part_shapes(t: Seq<char>, k: int)
    requires
        0 <= k < parts(t).len(),
    ensures
        parts(t)[k].len() > 0,
        parts(t)[k] == seq!['/'] ==> k == 0,
        parts(t)[k] == seq!['.'] ==> k == 0,
        parts(t)[k] != seq!['/'] ==> !parts(t)[k].contains('/'),
{
    lemma_spans(t);
    let s = spans(t);
    let start = if is_absolute(t) {
        1int
    } else {
        0int
    };
    lemma_spans_from(t, start);
    let (a, b) = s[k];
    let p = parts(t)[k];
    assert(p == t.subrange(a, b));
    if is_absolute(t) && k == 0 {
        assert(p == seq!['/']);
    } else {
        let f = spans_from(t, start);
        assert(f[k - start] == s[k]);
        assert forall|i: int| 0 <= i < p.len() implies p[i] != '/' by {
            assert(p[i] == t[a + i]);
        }
        if p == seq!['/'] {
            assert(p[0] == '/');
        }
        lemma_no_dot(t, start);
        if k > 0 {
            assert(s[0].1 <= s[k].0);
        }
    }
}

/// The root has one component.
pub proof fn lemma_root_parts()
    ensures
        parts(seq!['/']) == seq![seq!['/']],
{
    let t = seq!['/'];
    assert(spans_from(t, 1) == Seq::<(int, int)>::empty());
    assert(spans(t) == seq![(0int, 1int)]);
    assert(t.subrange(0, 1) == t);
    assert(parts(t) == seq![t]);
}

/// Whether a component names a file or directory.
pub fn is_plain_name(p: &str) -> (r: bool)
    ensures
        r == is_name(p@),
{
    part_rank_exec(p) == 3
}

proof fn lemma_name_end_cut(t: Seq<char>, e: int, i: int)
    requires
        0 <= i <= e <= t.len(),
        e == t.len() || t[e] == '/',
    ensures
        name_end(t.take(e), i) == (if name_end(t, i) < e {
            name_end(t, i)
        } else {
            e
        }),
        name_end(t, i) <= e,
    decreases e - i,
{
    if i < e && t[i] != '/' {
        lemma_name_end_cut(t, e, i + 1);
    }
}

proof fn lemma_spans_cut(t: Seq<char>, i: int, j: int)
    requires
        0 <= i,
        0 <= j < spans_from(t, i).len(),
    ensures
        spans_from(t.take(spans_from(t, i)[j].1), i) == spans_from(t, i).take(j + 1),
    decreases t.len() + 1 - i,
{
    let s = spans_from(t, i);
    let e = s[j].1;
    lemma_spans_from(t, i);
    lemma_name_end(t, i);
    let n = name_end(t, i);
    let c = t.take(e);
    assert(i < t.len());
    assert(e == t.len() || t[e] == '/') by {
        lemma_span_closes(t, i, j);
    }
    lemma_name_end_cut(t, e, i);
    assert(t.subrange(i, n) == c.subrange(i, n));
    let rest = spans_from(t, n + 1);
    if is_component(t, i, n) {
        assert(s == seq![(i, n)] + rest);
        if j == 0 {
            assert(e == n);
            assert(spans_from(c, n + 1) == Seq::<(int, int)>::empty());
            assert(s.take(1) == seq![(i, n)]);
            assert(spans_from(c, i) == seq![(i, n)]);
        } else {
            assert(rest[j - 1] == s[j]);
            lemma_spans_cut(t, n + 1, j - 1);
            assert(s.take(j + 1) == seq![(i, n)] + rest.take(j));
        }
    } else {
        lemma_spans_cut(t, n + 1, j);
    }
}

proof fn lemma_span_closes(t: Seq<char>, i: int, j: int)
    requires
        0 <= i,
        0 <= j < spans_from(t, i).len(),
    ensures
        spans_from(t, i)[j].1 == t.len() || t[spans_from(t, i)[j].1] == '/',
    decreases t.len() + 1 - i,
{
    lemma_name_end(t, i);
    let n = name_end(t, i);
    if is_component(t, i, n) {
        if j > 0 {
            assert(spans_from(t, i)[j] == spans_from(t, n + 1)[j - 1]);
            lemma_span_closes(t, n + 1, j - 1);
        }
    } else {
        lemma_span_closes(t, n + 1, j);
    }
}

/// The components of a path's parent are those of the path but for the last.
pub proof fn parent_drops_last_part(t: Seq<char>)
    requires
        path_parent(t) is Some,
    ensures
        parts(path_parent(t).unwrap()) == parts(t).drop_last(),
{
    let s = spans(t);
    let p = path_parent(t).unwrap();
    lemma_spans(t);
    if s.len() == 1 {
        lemma_no_parts();
        assert(parts(t).drop_last() == Seq::<Seq<char>>::empty());
    } else {
        let n = s.len() - 2;
        let e = s[n].1;
        assert(p == t.take(e));
        assert(p[0] == t[0]);
        if is_absolute(t) {
            let f = spans_from(t, 1);
            assert(s == seq![(0int, 1int)] + f);
            if n == 0 {
                assert(spans_from(p, 1) == Seq::<(int, int)>::empty());
                assert(spans(p) == s.drop_last());
            } else {
                assert(f[n - 1] == s[n]);
                lemma_spans_cut(t, 1, n - 1);
                assert(spans(p) == s.drop_last());
            }
        } else {
            lemma_spans_cut(t, 0, n as int);
            assert(spans(p) == s.drop_last());
        }
        assert forall|k: int| 0 <= k < s.len() - 1 implies #[trigger] parts(p)[k] == parts(t)[k] by {
            let (a, b) = s[k];
            assert(spans(p)[k] == s[k]);
            assert(s[k].1 <= e) by {
                if k < n {
                    assert(s[k].1 <= s[n].0);
                }
            }
            assert(p.subrange(a, b) == t.subrange(a, b));
        }
        assert(parts(p) == parts(t).drop_last());
    }
}

/// The parent of a path that lies under another, and is not that one, lies
/// under it too.
pub proof fn parent_stays_under(t: Seq<char>, base: Seq<char>)
    requires
        lies_under(t, base),
        !same_path(t, base),
    ensures
        path_parent(t) matches Some(p) ==> lies_under(p, base),
{
    if path_parent(t) is Some {
        parent_drops_last_part(t);
        let (x, y) = (parts(t), parts(base));
        if x.len() == y.len() {
            assert(x.take(y.len() as int) == x);
        }
        assert(x.drop_last().take(y.len() as int) == x.take(y.len() as int));
    }
}

proof fn lemma_spans_tail(t: Seq<char>, i: int, j: int)
    requires
        0 <= i,
        0 <= j < spans_from(t, i).len(),
    ensures
        spans_from(t, spans_from(t, i)[j].0) == spans_from(t, i).skip(j),
    decreases t.len() + 1 - i,
{
    let s = spans_from(t, i);
    lemma_name_end(t, i);
    let n = name_end(t, i);
    let rest = spans_from(t, n + 1);
    if is_component(t, i, n) {
        assert(s == seq![(i, n)] + rest);
        if j == 0 {
            assert(s.skip(0) == s);
        } else {
            assert(rest[j - 1] == s[j]);
            lemma_spans_tail(t, n + 1, j - 1);
            assert(s.skip(j) == rest.skip(j - 1));
        }
    } else {
        lemma_spans_tail(t, n + 1, j);
    }
}

/// A path that begins where a component of another begins does not begin with
/// `.`.
proof fn lemma_tail_added(c: Seq<char>, n: int)
    requires
        0 < n < c.len(),
        c[n] != '/',
        spans_from(c, n).len() > 0,
        spans_from(c, n)[0].0 == n,
    ensures
        !is_absolute(c.skip(n)),
        parts(c.skip(n)) == texts_at(c, spans_from(c, n)),
{
    let rest = c.skip(n);
    assert(rest[0] == c[n]);
    lemma_added_parts(c, rest, n);
    lemma_name_end_shift(c, rest, n, 0);
    lemma_name_end(rest, 0);
    let h = name_end(rest, 0);
    lemma_first_name(rest);
    assert(parts(rest)[0] == rest.subrange(0, h));
    if rest.subrange(0, h) == seq!['.'] {
        assert(c.subrange(n, n + h) == rest.subrange(0, h));
        lemma_spans_from(c, n + h + 1);
        assert(spans_from(c, n) == spans_from(c, n + h + 1));
    }
}

/// The components of a path from one of them on, in the path cut off behind its
/// last component.
proof fn lemma_tail_texts(t: Seq<char>, k: int)
    requires
        0 <= k < spans(t).len(),
    ensures
        texts_at(t.take(spans(t).last().1), spans(t).skip(k)) == parts(t).skip(k),
{
    let s = spans(t);
    let e = s.last().1;
    let c = t.take(e);
    lemma_spans(t);
    assert forall|m: int| 0 <= m < s.skip(k).len() implies #[trigger] texts_at(c, s.skip(k))[m]
        == parts(t).skip(k)[m] by {
        let (a, b) = s[k + m];
        if k + m < s.len() - 1 {
            assert(s[k + m].1 <= s[s.len() - 1].0);
        }
        assert(c.subrange(a, b) == t.subrange(a, b));
    }
}

proof fn lemma_rest_spans(t: Seq<char>, k: int)
    requires
        0 < k < spans(t).len(),
    ensures
        ({
            let c = t.take(spans(t).last().1);
            let n = spans(t)[k].0;
            &&& 0 < n < c.len()
            &&& c[n] != '/'
            &&& spans_from(c, n) == spans(t).skip(k)
            &&& path_rest(t, k) == c.skip(n)
        }),
{
    let s = spans(t);
    lemma_spans(t);
    let start = if is_absolute(t) {
        1int
    } else {
        0int
    };
    let f = spans_from(t, start);
    let j = k - start;
    assert(is_absolute(t) ==> s == seq![(0int, 1int)] + f);
    assert(f[j] == s[k]);
    assert(f[f.len() - 1] == s.last());
    let e = s.last().1;
    let n = s[k].0;
    let c = t.take(e);
    lemma_spans_from(t, start);
    lemma_spans_cut(t, start, f.len() - 1);
    assert(f.take(f.len() as int) == f);
    lemma_spans_tail(c, start, j);
    assert(s[0].1 <= s[k].0);
    if k < s.len() - 1 {
        assert(s[k].1 <= s[s.len() - 1].0);
    }
    assert(f.skip(j) == s.skip(k));
    assert(t[n] != '/');
    assert(t.subrange(n, e) == c.skip(n));
}

/// What is left of a path behind its first components: the components that
/// follow them.
pub proof fn rest_drops_first_parts(t: Seq<char>, k: int)
    requires
        0 < k,
    ensures
        !is_absolute(path_rest(t, k)),
        parts(path_rest(t, k)) == (if k < parts(t).len() {
            parts(t).skip(k)
        } else {
            Seq::<Seq<char>>::empty()
        }),
{
    lemma_no_parts();
    if k < spans(t).len() {
        let c = t.take(spans(t).last().1);
        let n = spans(t)[k].0;
        lemma_rest_spans(t, k);
        assert(spans(t).skip(k)[0] == spans(t)[k]);
        lemma_tail_added(c, n);
        lemma_tail_texts(t, k);
    }
}

/// A path lies under another exactly when its components begin with those of
/// the other.
pub proof fn path_below_begins_with_path(a: Seq<char>, b: Seq<char>)
    ensures
        lies_under(a, b) ==> exists|rest: Seq<Seq<char>>| parts(a) == #[trigger] (parts(b) + rest),
        forall|rest: Seq<Seq<char>>| parts(a) == #[trigger] (parts(b) + rest) ==> lies_under(a, b),
        same_path(a, b) <==> lies_under(a, b) && lies_under(b, a),
{
    if lies_under(a, b) {
        let n = parts(b).len() as int;
        let rest = parts(a).skip(n);
        assert(parts(a) == parts(b) + rest);
    }
    assert forall|rest: Seq<Seq<char>>| parts(a) == #[trigger] (parts(b) + rest) implies lies_under(
        a,
        b,
    ) by {
        assert((parts(b) + rest).take(parts(b).len() as int) == parts(b));
    }
    if lies_under(a, b) && lies_under(b, a) {
        assert(parts(a).take(parts(a).len() as int) == parts(a));
    }
    if same_path(a, b) {
        assert(parts(a).take(parts(a).len() as int) == parts(a));
    }
}

/// The file name of a path is its last component, unless that is the root, `.`
/// or `..`.
pub proof fn file_name_is_last_part(t: Seq<char>)
    ensures
        path_file_name(t) matches Some(name) ==> parts(t).len() > 0 && name == parts(t).last()
            && name != seq!['/'] && name != seq!['.'] && name != seq!['.', '.'],
        parts(t).len() > 0 && parts(t).last() != seq!['/'] && parts(t).last() != seq!['.']
            && parts(t).last() != seq!['.', '.'] ==> path_file_name(t) is Some,
{
}

/// Paths are ordered by the first component in which they differ, names among
/// each other as texts, and a path comes before those below it.
pub proof fn earlier_component_comes_first(
    a: Seq<char>,
    b: Seq<char>,
    common: Seq<Seq<char>>,
    x: Seq<char>,
    p: Seq<Seq<char>>,
    y: Seq<char>,
    q: Seq<Seq<char>>,
)
    requires
        parts(b) == common + seq![y] + q,
    ensures
        parts(a) == common + seq![x] + p && x != y && is_name(x) && is_name(y) ==> path_order(a, b)
            == crate::order::text_order(x, y),
        parts(a) == common ==> path_order(a, b) == Order::Less,
        parts(a) == parts(b) ==> path_order(a, b) == Order::Equal,
{
    let c = |p: Seq<char>, q: Seq<char>| part_order(p, q);
    assert forall|e: Seq<char>| #[trigger] c(e, e) == Order::Equal by {
        crate::order::lemma_text_equal(e, e);
    }
    if x != y && is_name(x) && is_name(y) {
        crate::order::lemma_text_equal(x, y);
        assert(c(x, y) == crate::order::text_order(x, y));
        crate::order::first_difference_decides(common, x, p, y, q, c);
    }
    crate::order::shorter_list_comes_first(common, seq![y] + q, c);
    assert(common + (seq![y] + q) == common + seq![y] + q);
    crate::order::shorter_list_comes_first(parts(b), seq![], c);
}

/// A sorted list of paths holds each path of the list as often as the list, and
/// none stands behind one that comes later.
pub proof fn sorted_paths_are_the_same_paths(v: Seq<Seq<char>>, s: Seq<Seq<char>>)
    requires
        is_sorted_texts(v, s),
        v.len() <= usize::MAX,
    ensures
        s.len() == v.len(),
        forall|x: Seq<char>| #[trigger] s.contains(x) <==> v.contains(x),
        forall|a: int, b: int|
            0 <= a < b < s.len() ==> path_order(#[trigger] s[a], #[trigger] s[b])
                != Order::Greater,
{
    let c = |i: int, j: int| path_order(v[i], v[j]);
    let r = choose|r: Seq<usize>|
        #![trigger r.len()]
        crate::order::is_stable_order(r, 0, v.len() as int, c) && s == r.map_values(
            |i: usize| v[i as int],
        );
    assert forall|x: Seq<char>| #[trigger] s.contains(x) <==> v.contains(x) by {
        if s.contains(x) {
            let k = choose|k: int| 0 <= k < s.len() && s[k] == x;
            assert(v[r[k] as int] == x);
        }
        if v.contains(x) {
            let i = choose|i: int| 0 <= i < v.len() && v[i] == x;
            assert(r.contains(i as usize));
            let k = choose|k: int| 0 <= k < r.len() && r[k] == i as usize;
            assert(s[k] == x);
        }
    }
    assert forall|a: int, b: int| 0 <= a < b < s.len() implies path_order(
        #[trigger] s[a],
        #[trigger] s[b],
    ) != Order::Greater by {
        assert(crate::order::precedes(c, r[a] as int, r[b] as int));
        assert(s[a] == v[r[a] as int] && s[b] == v[r[b] as int]);
        assert(c(r[a] as int, r[b] as int) == path_order(s[a], s[b]));
    }
}

} // verus!
