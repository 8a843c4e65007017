//! Orderings: comparing texts and lists, and sorting without moving equals.
use vstd::prelude::*;

use crate::text::{chars_of, texts};

verus! {

/// How one value stands to another.
#[derive(Clone, Copy, Debug, PartialEq, Eq, Structural)]
pub enum Order {
    Less,
    Equal,
    Greater,
}

/// The order seen from the other side.
pub open spec fn reversed(o: Order) -> Order {
    match o {
        Order::Less => Order::Greater,
        Order::Equal => Order::Equal,
        Order::Greater => Order::Less,
    }
}

/// The first order, or the second where the first finds no difference.
pub open spec fn first_of(a: Order, b: Order) -> Order {
    match a {
        Order::Equal => b,
        _ => a,
    }
}

pub open spec fn int_order(a: int, b: int) -> Order {
    if a < b {
        Order::Less
    } else if a == b {
        Order::Equal
    } else {
        Order::Greater
    }
}

/// The order of two sequences by their first difference; a sequence comes
/// before those that continue it.
pub open spec fn lex<T>(a: Seq<T>, b: Seq<T>, c: spec_fn(T, T) -> Order) -> Order
    decreases a.len(),
{
    if a.len() == 0 {
        if b.len() == 0 {
            Order::Equal
        } else {
            Order::Less
        }
    } else if b.len() == 0 {
        Order::Greater
    } else {
        first_of(c(a[0], b[0]), lex(a.skip(1), b.skip(1), c))
    }
}

/// Nothing comes before something.
pub open spec fn option_order<T>(
    a: Option<T>,
    b: Option<T>,
    c: spec_fn(T, T) -> Order,
) -> Order {
    match (a, b) {
        (None, None) => Order::Equal,
        (None, Some(_)) => Order::Less,
        (Some(_), None) => Order::Greater,
        (Some(x), Some(y)) => c(x, y),
    }
}

pub open spec fn char_order() -> spec_fn(char, char) -> Order {
    |x: char, y: char| int_order(x as int, y as int)
}

/// Texts by their characters' code points.
pub open spec fn text_order(a: Seq<char>, b: Seq<char>) -> Order {
    lex(a, b, char_order())
}

/// Lists of texts by their first differing text.
pub open spec fn texts_order(a: Seq<Seq<char>>, b: Seq<Seq<char>>) -> Order {
    lex(a, b, |x: Seq<char>, y: Seq<char>| text_order(x, y))
}

/// The comparison answers consistently from both sides.
pub open spec fn is_mirrored<T>(c: spec_fn(T, T) -> Order) -> bool {
    forall|x: T, y: T| #![trigger c(x, y)] c(x, y) == reversed(c(y, x))
}

/// What does not come after something does not come after what that does not
/// come after.
pub open spec fn is_transitive<T>(c: spec_fn(T, T) -> Order) -> bool {
    forall|x: T, y: T, z: T|
        #![trigger c(x, y), c(y, z)]
        c(x, y) != Order::Greater && c(y, z) != Order::Greater ==> c(x, z) != Order::Greater
}

/// The comparison is a total order, up to values that it holds equal.
pub open spec fn is_ordering<T>(c: spec_fn(T, T) -> Order) -> bool {
    is_mirrored(c) && is_transitive(c)
}

pub proof fn lemma_lex_mirrored<T>(a: Seq<T>, b: Seq<T>, c: spec_fn(T, T) -> Order)
    requires
        is_mirrored(c),
    ensures
        lex(a, b, c) == reversed(lex(b, a, c)),
    decreases a.len(),
{
    if a.len() > 0 && b.len() > 0 {
        assert(c(a[0], b[0]) == reversed(c(b[0], a[0])));
        lemma_lex_mirrored(a.skip(1), b.skip(1), c);
    }
}

pub proof fn lemma_lex_transitive<T>(x: Seq<T>, y: Seq<T>, z: Seq<T>, c: spec_fn(T, T) -> Order)
    requires
        is_ordering(c),
        lex(x, y, c) != Order::Greater,
        lex(y, z, c) != Order::Greater,
    ensures
        lex(x, z, c) != Order::Greater,
    decreases x.len(),
{
    if x.len() > 0 && y.len() > 0 && z.len() > 0 {
        let (p, q, r) = (x[0], y[0], z[0]);
        assert(c(p, q) != Order::Greater && c(q, r) != Order::Greater);
        assert(c(p, r) != Order::Greater);
        assert(c(r, p) == reversed(c(p, r)) && c(p, q) == reversed(c(q, p)) && c(q, r)
            == reversed(c(r, q)));
        if c(p, r) == Order::Equal {
            assert(c(q, p) != Order::Greater) by {
                assert(c(q, r) != Order::Greater && c(r, p) != Order::Greater);
            }
            assert(c(r, q) != Order::Greater) by {
                assert(c(r, p) != Order::Greater && c(p, q) != Order::Greater);
            }
            assert(c(p, q) == Order::Equal && c(q, r) == Order::Equal);
            lemma_lex_transitive(x.skip(1), y.skip(1), z.skip(1), c);
        }
    }
}

pub proof fn lemma_lex_ordering<T>(c: spec_fn(T, T) -> Order)
    requires
        is_ordering(c),
    ensures
        is_ordering(|a: Seq<T>, b: Seq<T>| lex(a, b, c)),
{
    let l = |a: Seq<T>, b: Seq<T>| lex(a, b, c);
    assert forall|x: Seq<T>, y: Seq<T>| #![trigger l(x, y)] l(x, y) == reversed(l(y, x)) by {
        lemma_lex_mirrored(x, y, c);
    }
    assert forall|x: Seq<T>, y: Seq<T>, z: Seq<T>|
        #![trigger l(x, y), l(y, z)]
        l(x, y) != Order::Greater && l(y, z) != Order::Greater implies l(x, z)
        != Order::Greater by {
        lemma_lex_transitive(x, y, z, c);
    }
}

pub proof fn lemma_text_ordering()
    ensures
        is_ordering(|a: Seq<char>, b: Seq<char>| text_order(a, b)),
{
    let c = char_order();
    assert(is_ordering(c));
    lemma_lex_ordering(c);
    let l = |a: Seq<char>, b: Seq<char>| lex(a, b, c);
    let t = |a: Seq<char>, b: Seq<char>| text_order(a, b);
    assert(l =~= t);
}

pub proof fn lemma_texts_ordering()
    ensures
        is_ordering(|a: Seq<Seq<char>>, b: Seq<Seq<char>>| texts_order(a, b)),
{
    let c = |x: Seq<char>, y: Seq<char>| text_order(x, y);
    lemma_text_ordering();
    lemma_lex_ordering(c);
    let l = |a: Seq<Seq<char>>, b: Seq<Seq<char>>| lex(a, b, c);
    let t = |a: Seq<Seq<char>>, b: Seq<Seq<char>>| texts_order(a, b);
    assert(l =~= t);
}

/// Texts that compare equal are equal.
pub proof fn lemma_text_equal(a: Seq<char>, b: Seq<char>)
    ensures
        text_order(a, b) == Order::Equal <==> a == b,
    decreases a.len(),
{
    if a.len() > 0 && b.len() > 0 {
        lemma_text_equal(a.skip(1), b.skip(1));
        if a[0] == b[0] && a.skip(1) == b.skip(1) {
            assert(a == seq![a[0]] + a.skip(1));
            assert(b == seq![b[0]] + b.skip(1));
        }
    }
    if a.len() == 0 && b.len() == 0 {
        assert(a == b);
    }
}

impl Order {
    pub fn reverse(self) -> (r: Order)
        ensures
            r == reversed(self),
    {
        match self {
            Order::Less => Order::Greater,
            Order::Equal => Order::Equal,
            Order::Greater => Order::Less,
        }
    }

    pub fn or_else(self, next: Order) -> (r: Order)
        ensures
            r == first_of(self, next),
    {
        match self {
            Order::Equal => next,
            o => o,
        }
    }
}

pub fn order_u64(a: u64, b: u64) -> (r: Order)
    ensures
        r == int_order(a as int, b as int),
{
    if a < b {
        Order::Less
    } else if a == b {
        Order::Equal
    } else {
        Order::Greater
    }
}

pub fn order_i64(a: i64, b: i64) -> (r: Order)
    ensures
        r == int_order(a as int, b as int),
{
    if a < b {
        Order::Less
    } else if a == b {
        Order::Equal
    } else {
        Order::Greater
    }
}

pub fn order_i128(a: i128, b: i128) -> (r: Order)
    ensures
        r == int_order(a as int, b as int),
{
    if a < b {
        Order::Less
    } else if a == b {
        Order::Equal
    } else {
        Order::Greater
    }
}

fn order_chars(x: &Vec<char>, y: &Vec<char>) -> (r: Order)
    ensures
        r == text_order(x@, y@),
{
    let mut i: usize = 0;
    assert(x@.skip(0) == x@ && y@.skip(0) == y@);
    while i < x.len() && i < y.len()
        invariant
            i <= x@.len(),
            i <= y@.len(),
            text_order(x@, y@) == text_order(x@.skip(i as int), y@.skip(i as int)),
        decreases x@.len() - i,
    {
        assert(x@.skip(i as int).skip(1) == x@.skip(i + 1));
        assert(y@.skip(i as int).skip(1) == y@.skip(i + 1));
        if x[i] < y[i] {
            return Order::Less;
        }
        if x[i] > y[i] {
            return Order::Greater;
        }
        i = i + 1;
    }
    if i < y.len() {
        Order::Less
    } else if i < x.len() {
        Order::Greater
    } else {
        Order::Equal
    }
}

/// Compares two texts.
pub fn order_text(a: &str, b: &str) -> (r: Order)
    ensures
        r == text_order(a@, b@),
{
    let x = chars_of(a);
    let y = chars_of(b);
    order_chars(&x, &y)
}

/// Compares two lists of texts.
pub fn order_texts(a: &Vec<String>, b: &Vec<String>) -> (r: Order)
    ensures
        r == texts_order(texts(a@), texts(b@)),
{
    let ghost x = texts(a@);
    let ghost y = texts(b@);
    let mut i: usize = 0;
    assert(x.skip(0) == x && y.skip(0) == y);
    while i < a.len() && i < b.len()
        invariant
            x == texts(a@),
            y == texts(b@),
            i <= x.len(),
            i <= y.len(),
            texts_order(x, y) == texts_order(x.skip(i as int), y.skip(i as int)),
        decreases x.len() - i,
    {
        assert(x.skip(i as int).skip(1) == x.skip(i + 1));
        assert(y.skip(i as int).skip(1) == y.skip(i + 1));
        match order_text(a[i].as_str(), b[i].as_str()) {
            Order::Equal => {},
            o => {
                return o;
            },
        }
        i = i + 1;
    }
    if i < b.len() {
        Order::Less
    } else if i < a.len() {
        Order::Greater
    } else {
        Order::Equal
    }
}

/// Position `i` stands before position `j` in a stable sort by `c`.
pub open spec fn precedes(c: spec_fn(int, int) -> Order, i: int, j: int) -> bool {
    c(i, j) == Order::Less || (c(i, j) == Order::Equal && i < j)
}

/// `r` holds each of the positions from `lo` up to `hi` once, in the order of
/// `c`, equal ones in their original order.
pub open spec fn is_stable_order(
    r: Seq<usize>,
    lo: int,
    hi: int,
    c: spec_fn(int, int) -> Order,
) -> bool {
    &&& r.len() == hi - lo
    &&& forall|k: int| 0 <= k < r.len() ==> lo <= #[trigger] r[k] < hi
    &&& forall|v: usize| lo <= v < hi ==> r.contains(v)
    &&& forall|a: int, b: int|
        0 <= a < b < r.len() ==> precedes(c, #[trigger] r[a] as int, #[trigger] r[b] as int)
}

/// Sorts the positions below `n`, keeping equal ones in their order.
pub fn stable_order<F: Fn(usize, usize) -> Order>(
    n: usize,
    f: F,
    Ghost(c): Ghost<spec_fn(int, int) -> Order>,
) -> (r: Vec<usize>)
    requires
        is_ordering(c),
        forall|i: usize, j: usize| i < n && j < n ==> f.requires((i, j)),
        forall|i: usize, j: usize, o: Order|
            i < n && j < n && f.ensures((i, j), o) ==> o == c(i as int, j as int),
    ensures
        is_stable_order(r@, 0, n as int, c),
{
    sort_range(0, n, n, &f, Ghost(c))
}

fn sort_range<F: Fn(usize, usize) -> Order>(
    lo: usize,
    hi: usize,
    n: usize,
    f: &F,
    Ghost(c): Ghost<spec_fn(int, int) -> Order>,
) -> (r: Vec<usize>)
    requires
        lo <= hi <= n,
        is_ordering(c),
        forall|i: usize, j: usize| i < n && j < n ==> f.requires((i, j)),
        forall|i: usize, j: usize, o: Order|
            i < n && j < n && f.ensures((i, j), o) ==> o == c(i as int, j as int),
    ensures
        is_stable_order(r@, lo as int, hi as int, c),
    decreases hi - lo,
{
    if hi - lo == 0 {
        return Vec::new();
    }
    if hi - lo == 1 {
        let mut r: Vec<usize> = Vec::new();
        r.push(lo);
        assert(r@[0] == lo);
        return r;
    }
    let mid: usize = lo + (hi - lo) / 2;
    let left = sort_range(lo, mid, n, f, Ghost(c));
    let right = sort_range(mid, hi, n, f, Ghost(c));
    merge(lo, mid, hi, n, &left, &right, f, Ghost(c))
}

fn merge<F: Fn(usize, usize) -> Order>(
    lo: usize,
    mid: usize,
    hi: usize,
    n: usize,
    left: &Vec<usize>,
    right: &Vec<usize>,
    f: &F,
    Ghost(c): Ghost<spec_fn(int, int) -> Order>,
) -> (r: Vec<usize>)
    requires
        lo <= mid <= hi <= n,
        is_ordering(c),
        is_stable_order(left@, lo as int, mid as int, c),
        is_stable_order(right@, mid as int, hi as int, c),
        forall|i: usize, j: usize| i < n && j < n ==> f.requires((i, j)),
        forall|i: usize, j: usize, o: Order|
            i < n && j < n && f.ensures((i, j), o) ==> o == c(i as int, j as int),
    ensures
        is_stable_order(r@, lo as int, hi as int, c),
{
    let mut r: Vec<usize> = Vec::new();
    let mut i: usize = 0;
    let mut j: usize = 0;
    while i < left.len() || j < right.len()
        invariant
            lo <= mid <= hi <= n,
            is_ordering(c),
            is_stable_order(left@, lo as int, mid as int, c),
            is_stable_order(right@, mid as int, hi as int, c),
            forall|i: usize, j: usize| i < n && j < n ==> f.requires((i, j)),
            forall|i: usize, j: usize, o: Order|
                i < n && j < n && f.ensures((i, j), o) ==> o == c(i as int, j as int),
            i <= left@.len(),
            j <= right@.len(),
            r@.len() == i + j,
            forall|k: int| 0 <= k < r@.len() ==> lo <= #[trigger] r@[k] < hi,
            forall|a: int, b: int|
                0 <= a < b < r@.len() ==> precedes(
                    c,
                    #[trigger] r@[a] as int,
                    #[trigger] r@[b] as int,
                ),
            forall|a: int, b: int|
                0 <= a < r@.len() && i <= b < left@.len() ==> precedes(
                    c,
                    #[trigger] r@[a] as int,
                    #[trigger] left@[b] as int,
                ),
            forall|a: int, b: int|
                0 <= a < r@.len() && j <= b < right@.len() ==> precedes(
                    c,
                    #[trigger] r@[a] as int,
                    #[trigger] right@[b] as int,
                ),
            forall|a: int| 0 <= a < i ==> r@.contains(#[trigger] left@[a]),
            forall|a: int| 0 <= a < j ==> r@.contains(#[trigger] right@[a]),
        decreases left@.len() - i + right@.len() - j,
    {
        let ghost before = r@;
        let take_left = if i == left.len() {
            false
        } else if j == right.len() {
            true
        } else {
            match f(right[j], left[i]) {
                Order::Less => false,
                _ => true,
            }
        };
        if take_left {
            let v: usize = left[i];
            proof {
                if j < right@.len() {
                    let u = right@[j as int] as int;
                    assert(c(v as int, u) == reversed(c(u, v as int)));
                    assert forall|b: int| j <= b < right@.len() implies precedes(
                        c,
                        v as int,
                        #[trigger] right@[b] as int,
                    ) by {
                        let w = right@[b] as int;
                        if b > j {
                            assert(precedes(c, u, w));
                        }
                        assert(c(v as int, u) != Order::Greater);
                        if b > j {
                            assert(c(u, w) != Order::Greater);
                            assert(c(v as int, w) != Order::Greater);
                        }
                    }
                }
            }
            r.push(v);
            i = i + 1;
        } else {
            let v: usize = right[j];
            proof {
                if i < left@.len() {
                    let u = left@[i as int] as int;
                    assert(c(v as int, u) == Order::Less);
                    assert forall|b: int| i <= b < left@.len() implies precedes(
                        c,
                        v as int,
                        #[trigger] left@[b] as int,
                    ) by {
                        let w = left@[b] as int;
                        if b > i {
                            assert(precedes(c, u, w));
                            assert(c(u, w) != Order::Greater);
                            assert(c(v as int, w) != Order::Greater);
                            assert(c(v as int, w) == reversed(c(w, v as int)));
                            assert(c(u, v as int) == reversed(c(v as int, u)));
                            if c(v as int, w) == Order::Equal {
                                assert(c(u, w) != Order::Greater && c(w, v as int)
                                    != Order::Greater);
                                assert(c(u, v as int) != Order::Greater);
                            }
                        }
                    }
                }
            }
            r.push(v);
            j = j + 1;
        }
        proof {
            assert(r@.last() == r@[before.len() as int]);
            assert forall|x: usize| before.contains(x) implies r@.contains(x) by {
                let k = choose|k: int| 0 <= k < before.len() && before[k] == x;
                assert(r@[k] == x);
            }
            assert(r@.contains(r@[before.len() as int]));
        }
    }
    proof {
        assert forall|v: usize| lo <= v < hi implies r@.contains(v) by {
            if v < mid {
                assert(left@.contains(v));
                let a = choose|a: int| 0 <= a < left@.len() && left@[a] == v;
                assert(r@.contains(left@[a]));
            } else {
                assert(right@.contains(v));
                let a = choose|a: int| 0 <= a < right@.len() && right@[a] == v;
                assert(r@.contains(right@[a]));
            }
        }
    }
    r
}

/// The texts stand in ascending order, each once.
pub open spec fn is_ascending(s: Seq<Seq<char>>) -> bool {
    forall|i: int, j: int|
        0 <= i < j < s.len() ==> text_order(#[trigger] s[i], #[trigger] s[j]) == Order::Less
}

/// Two ascending lists of the same texts are the same list.
pub proof fn ascending_list_is_unique(a: Seq<Seq<char>>, b: Seq<Seq<char>>)
    requires
        is_ascending(a),
        is_ascending(b),
        forall|x: Seq<char>| a.contains(x) <==> b.contains(x),
    ensures
        a == b,
    decreases a.len(),
{
    lemma_text_ordering();
    let t = |x: Seq<char>, y: Seq<char>| text_order(x, y);
    if a.len() == 0 {
        if b.len() > 0 {
            assert(b.contains(b[0]));
        }
        assert(a == b);
    } else {
        assert(a.contains(a.last()));
        let k = choose|k: int| 0 <= k < b.len() && b[k] == a.last();
        assert(b.contains(b.last()));
        let m = choose|m: int| 0 <= m < a.len() && a[m] == b.last();
        if k < b.len() - 1 {
            assert(t(b[k], b.last()) == Order::Less);
            assert(t(b.last(), b[k]) == reversed(t(b[k], b.last())));
            if m < a.len() - 1 {
                assert(t(a[m], a.last()) == Order::Less);
            }
            lemma_text_equal(a.last(), a.last());
        }
        assert(k == b.len() - 1);
        let (x, y) = (a.drop_last(), b.drop_last());
        assert forall|v: Seq<char>| x.contains(v) <==> y.contains(v) by {
            lemma_text_equal(v, v);
            if x.contains(v) {
                let i = choose|i: int| 0 <= i < x.len() && x[i] == v;
                assert(a[i] == v);
                assert(b.contains(v));
                let j = choose|j: int| 0 <= j < b.len() && b[j] == v;
                assert(text_order(a[i], a.last()) == Order::Less);
                assert(j != k);
                assert(y[j] == v);
            }
            if y.contains(v) {
                let i = choose|i: int| 0 <= i < y.len() && y[i] == v;
                assert(b[i] == v);
                assert(a.contains(v));
                let j = choose|j: int| 0 <= j < a.len() && a[j] == v;
                assert(text_order(b[i], b.last()) == Order::Less);
                assert(j != a.len() - 1);
                assert(x[j] == v);
            }
        }
        ascending_list_is_unique(x, y);
        assert(a == x.push(a.last()));
        assert(b == y.push(b.last()));
    }
}

/// Adds a text to an ascending list, unless it is there.
pub fn insert_text(v: &mut Vec<String>, s: String)
    requires
        is_ascending(texts(old(v)@)),
    ensures
        is_ascending(texts(final(v)@)),
        forall|x: Seq<char>| #[trigger]
            texts(final(v)@).contains(x) <==> texts(old(v)@).contains(x) || x == s@,
{
    let ghost before = texts(v@);
    let ghost new = s@;
    let ghost c = |x: Seq<char>, y: Seq<char>| text_order(x, y);
    proof {
        lemma_text_ordering();
    }
    let mut i: usize = 0;
    while i < v.len()
        invariant
            i <= v@.len(),
            before == texts(v@),
            new == s@,
            is_ascending(before),
            forall|k: int| 0 <= k < i ==> text_order(#[trigger] before[k], new) == Order::Less,
        ensures
            i <= v@.len(),
            before == texts(v@),
            forall|k: int| 0 <= k < i ==> text_order(#[trigger] before[k], new) == Order::Less,
            i < v@.len() ==> text_order(before[i as int], new) == Order::Greater,
        decreases v@.len() - i,
    {
        match order_text(v[i].as_str(), s.as_str()) {
            Order::Less => {},
            Order::Equal => {
                proof {
                    lemma_text_equal(before[i as int], new);
                    assert(before.contains(new));
                }
                return ;
            },
            Order::Greater => {
                break ;
            },
        }
        i = i + 1;
    }
    v.insert(i, s);
    proof {
        let after = texts(v@);
        assert(after == before.insert(i as int, new));
        assert forall|a: int, b: int| 0 <= a < b < after.len() implies text_order(
            #[trigger] after[a],
            #[trigger] after[b],
        ) == Order::Less by {
            if a < i && b == i {
                assert(after[a] == before[a]);
            } else if a == i && b > i {
                assert(after[b] == before[b - 1]);
                assert(c(before[i as int], new) == reversed(c(new, before[i as int])));
                if b - 1 > i {
                    assert(text_order(before[i as int], before[b - 1]) == Order::Less);
                    assert(c(new, before[i as int]) != Order::Greater && c(
                        before[i as int],
                        before[b - 1],
                    ) != Order::Greater);
                    assert(c(new, before[b - 1]) != Order::Greater);
                    if c(new, before[b - 1]) == Order::Equal {
                        assert(c(new, before[b - 1]) == reversed(c(before[b - 1], new)));
                        assert(c(before[i as int], before[b - 1]) != Order::Greater && c(
                            before[b - 1],
                            new,
                        ) != Order::Greater);
                        assert(c(before[i as int], new) != Order::Greater);
                    }
                }
            } else {
                let x = if a < i {
                    a
                } else {
                    a - 1
                };
                let y = if b < i {
                    b
                } else {
                    b - 1
                };
                assert(after[a] == before[x] && after[b] == before[y]);
            }
        }
        assert forall|x: Seq<char>| #[trigger] after.contains(x) <==> before.contains(x) || x
            == new by {
            if after.contains(x) {
                let k = choose|k: int| 0 <= k < after.len() && after[k] == x;
                if k < i {
                    assert(before[k] == x);
                } else if k > i {
                    assert(before[k - 1] == x);
                }
            }
            if before.contains(x) {
                let k = choose|k: int| 0 <= k < before.len() && before[k] == x;
                if k < i {
                    assert(after[k] == x);
                } else {
                    assert(after[k + 1] == x);
                }
            }
            if x == new {
                assert(after[i as int] == x);
            }
        }
    }
}

/// An order of keys orders what has the keys.
pub proof fn lemma_key_ordering<T, K>(c: spec_fn(K, K) -> Order, key: spec_fn(T) -> K)
    requires
        is_ordering(c),
    ensures
        is_ordering(|a: T, b: T| c(key(a), key(b))),
{
    let l = |a: T, b: T| c(key(a), key(b));
    assert forall|x: T, y: T| #![trigger l(x, y)] l(x, y) == reversed(l(y, x)) by {
        assert(c(key(x), key(y)) == reversed(c(key(y), key(x))));
    }
    assert forall|x: T, y: T, z: T|
        #![trigger l(x, y), l(y, z)]
        l(x, y) != Order::Greater && l(y, z) != Order::Greater implies l(x, z)
        != Order::Greater by {
        assert(c(key(x), key(y)) != Order::Greater && c(key(y), key(z)) != Order::Greater);
        assert(c(key(x), key(z)) != Order::Greater);
    }
}

pub proof fn lemma_option_ordering<T>(c: spec_fn(T, T) -> Order)
    requires
        is_ordering(c),
    ensures
        is_ordering(|a: Option<T>, b: Option<T>| option_order(a, b, c)),
{
    let l = |a: Option<T>, b: Option<T>| option_order(a, b, c);
    assert forall|x: Option<T>, y: Option<T>| #![trigger l(x, y)] l(x, y) == reversed(l(y, x)) by {
        if x is Some && y is Some {
            assert(c(x.unwrap(), y.unwrap()) == reversed(c(y.unwrap(), x.unwrap())));
        }
    }
    assert forall|x: Option<T>, y: Option<T>, z: Option<T>|
        #![trigger l(x, y), l(y, z)]
        l(x, y) != Order::Greater && l(y, z) != Order::Greater implies l(x, z)
        != Order::Greater by {
        if x is Some && y is Some && z is Some {
            assert(c(x.unwrap(), y.unwrap()) != Order::Greater && c(y.unwrap(), z.unwrap())
                != Order::Greater);
            assert(c(x.unwrap(), z.unwrap()) != Order::Greater);
        }
    }
}

pub proof fn lemma_first_ordering<T>(c: spec_fn(T, T) -> Order, d: spec_fn(T, T) -> Order)
    requires
        is_ordering(c),
        is_ordering(d),
    ensures
        is_ordering(|a: T, b: T| first_of(c(a, b), d(a, b))),
{
    let l = |a: T, b: T| first_of(c(a, b), d(a, b));
    assert forall|x: T, y: T| #![trigger l(x, y)] l(x, y) == reversed(l(y, x)) by {
        assert(c(x, y) == reversed(c(y, x)));
        assert(d(x, y) == reversed(d(y, x)));
    }
    assert forall|x: T, y: T, z: T|
        #![trigger l(x, y), l(y, z)]
        l(x, y) != Order::Greater && l(y, z) != Order::Greater implies l(x, z)
        != Order::Greater by {
        assert(c(x, y) != Order::Greater && c(y, z) != Order::Greater);
        assert(c(x, z) != Order::Greater);
        assert(c(x, z) == reversed(c(z, x)) && c(x, y) == reversed(c(y, x)) && c(y, z) == reversed(
            c(z, y),
        ));
        if c(x, z) == Order::Equal {
            assert(c(y, z) != Order::Greater && c(z, x) != Order::Greater);
            assert(c(y, x) != Order::Greater);
            assert(c(z, x) != Order::Greater && c(x, y) != Order::Greater);
            assert(c(z, y) != Order::Greater);
            assert(c(x, y) == Order::Equal && c(y, z) == Order::Equal);
            assert(d(x, y) != Order::Greater && d(y, z) != Order::Greater);
            assert(d(x, z) != Order::Greater);
        }
    }
}

pub proof fn lemma_reversed_ordering<T>(c: spec_fn(T, T) -> Order)
    requires
        is_ordering(c),
    ensures
        is_ordering(|a: T, b: T| reversed(c(a, b))),
{
    let l = |a: T, b: T| reversed(c(a, b));
    assert forall|x: T, y: T| #![trigger l(x, y)] l(x, y) == reversed(l(y, x)) by {
        assert(c(x, y) == reversed(c(y, x)));
    }
    assert forall|x: T, y: T, z: T|
        #![trigger l(x, y), l(y, z)]
        l(x, y) != Order::Greater && l(y, z) != Order::Greater implies l(x, z)
        != Order::Greater by {
        assert(c(x, y) == reversed(c(y, x)) && c(y, z) == reversed(c(z, y)) && c(x, z) == reversed(
            c(z, x),
        ));
        assert(c(z, y) != Order::Greater && c(y, x) != Order::Greater);
        assert(c(z, x) != Order::Greater);
    }
}

pub proof fn lemma_int_ordering()
    ensures
        is_ordering(|a: int, b: int| int_order(a, b)),
{
}

/// Positions sorted by one order are sorted by any order that agrees with it on
/// them.
pub proof fn lemma_orders_agree(
    r: Seq<usize>,
    n: int,
    d: spec_fn(int, int) -> Order,
    c: spec_fn(int, int) -> Order,
)
    requires
        is_stable_order(r, 0, n, d),
        forall|i: int, j: int| 0 <= i < n && 0 <= j < n ==> #[trigger] c(i, j) == d(i, j),
    ensures
        is_stable_order(r, 0, n, c),
{
    assert forall|a: int, b: int| 0 <= a < b < r.len() implies precedes(
        c,
        #[trigger] r[a] as int,
        #[trigger] r[b] as int,
    ) by {
        assert(precedes(d, r[a] as int, r[b] as int));
        assert(c(r[a] as int, r[b] as int) == d(r[a] as int, r[b] as int));
    }
}

/// A list sorted stably by an order stands in only one way.
pub proof fn stable_order_is_unique(
    r: Seq<usize>,
    s: Seq<usize>,
    n: int,
    c: spec_fn(int, int) -> Order,
)
    requires
        is_ordering(c),
        is_stable_order(r, 0, n, c),
        is_stable_order(s, 0, n, c),
    ensures
        r == s,
{
    lemma_same_stable_order(r, s, n, c, n);
    assert(r.take(n) == r && s.take(n) == s);
}

proof fn lemma_precedes(c: spec_fn(int, int) -> Order, i: int, j: int)
    requires
        is_ordering(c),
    ensures
        !(precedes(c, i, j) && precedes(c, j, i)),
{
    assert(c(i, j) == reversed(c(j, i)));
}

proof fn lemma_same_stable_order(
    r: Seq<usize>,
    s: Seq<usize>,
    n: int,
    c: spec_fn(int, int) -> Order,
    k: int,
)
    requires
        is_ordering(c),
        is_stable_order(r, 0, n, c),
        is_stable_order(s, 0, n, c),
        0 <= k <= n,
    ensures
        r.take(k) == s.take(k),
    decreases k,
{
    if k > 0 {
        lemma_same_stable_order(r, s, n, c, k - 1);
        let (x, y) = (r[k - 1], s[k - 1]);
        assert(s.contains(x) && r.contains(y));
        let a = choose|a: int| 0 <= a < s.len() && s[a] == x;
        let b = choose|b: int| 0 <= b < r.len() && r[b] == y;
        if a < k - 1 {
            assert(r.take(k - 1)[a] == s.take(k - 1)[a]);
            assert(r[a] == x);
            assert(precedes(c, r[a] as int, r[k - 1] as int));
            lemma_precedes(c, x as int, x as int);
        }
        if b < k - 1 {
            assert(r.take(k - 1)[b] == s.take(k - 1)[b]);
            assert(s[b] == y);
            assert(precedes(c, s[b] as int, s[k - 1] as int));
            lemma_precedes(c, y as int, y as int);
        }
        if a > k - 1 && b > k - 1 {
            assert(precedes(c, s[k - 1] as int, s[a] as int));
            assert(precedes(c, r[k - 1] as int, r[b] as int));
            lemma_precedes(c, x as int, y as int);
        }
        assert(x == y);
        assert(r.take(k) == r.take(k - 1).push(x));
        assert(s.take(k) == s.take(k - 1).push(y));
    }
}

/// Takes a text out of an ascending list, where it is there.
pub fn remove_text(v: &mut Vec<String>, s: &str)
    requires
        is_ascending(texts(old(v)@)),
    ensures
        is_ascending(texts(final(v)@)),
        forall|x: Seq<char>| #[trigger]
            texts(final(v)@).contains(x) <==> texts(old(v)@).contains(x) && x != s@,
{
    let ghost before = texts(v@);
    let mut i: usize = 0;
    while i < v.len()
        invariant
            i <= v@.len(),
            before == texts(v@),
            before == texts(old(v)@),
            is_ascending(before),
            forall|k: int| 0 <= k < i ==> before[k] != s@,
        decreases v@.len() - i,
    {
        match order_text(v[i].as_str(), s) {
            Order::Equal => {
                proof {
                    lemma_text_equal(before[i as int], s@);
                }
                v.remove(i);
                proof {
                    let after = texts(v@);
                    assert(after == before.remove(i as int));
                    assert forall|a: int, b: int| 0 <= a < b < after.len() implies text_order(
                        #[trigger] after[a],
                        #[trigger] after[b],
                    ) == Order::Less by {
                        let x = if a < i {
                            a
                        } else {
                            a + 1
                        };
                        let y = if b < i {
                            b
                        } else {
                            b + 1
                        };
                        assert(after[a] == before[x] && after[b] == before[y]);
                    }
                    assert forall|x: Seq<char>| #[trigger] after.contains(x) <==> before.contains(x)
                        && x != s@ by {
                        if after.contains(x) {
                            let k = choose|k: int| 0 <= k < after.len() && after[k] == x;
                            if k < i {
                                assert(before[k] == x);
                            } else {
                                assert(before[k + 1] == x);
                                assert(text_order(before[i as int], before[k + 1]) == Order::Less);
                                lemma_text_equal(before[i as int], before[k + 1]);
                            }
                        }
                        if before.contains(x) && x != s@ {
                            let k = choose|k: int| 0 <= k < before.len() && before[k] == x;
                            if k < i {
                                assert(after[k] == x);
                            } else {
                                assert(after[k - 1] == x);
                            }
                        }
                    }
                }
                return ;
            },
            _ => {
                proof {
                    lemma_text_equal(before[i as int], s@);
                }
            },
        }
        i = i + 1;
    }
}

/// Of two lists that are the same up to some place, what stands at that place
/// decides.
pub proof fn first_difference_decides<T>(
    common: Seq<T>,
    x: T,
    a: Seq<T>,
    y: T,
    b: Seq<T>,
    c: spec_fn(T, T) -> Order,
)
    requires
        forall|e: T| #[trigger] c(e, e) == Order::Equal,
        c(x, y) != Order::Equal,
    ensures
        lex(common + seq![x] + a, common + seq![y] + b, c) == c(x, y),
    decreases common.len(),
{
    let p = common + seq![x] + a;
    let q = common + seq![y] + b;
    if common.len() == 0 {
        assert(p[0] == x && q[0] == y);
    } else {
        let rest = common.skip(1);
        assert(p[0] == common[0] && q[0] == common[0]);
        assert(p.skip(1) == rest + seq![x] + a);
        assert(q.skip(1) == rest + seq![y] + b);
        assert(c(common[0], common[0]) == Order::Equal);
        first_difference_decides(rest, x, a, y, b, c);
    }
}

/// A list comes before every longer one that begins with it, and is equal to
/// itself.
pub proof fn shorter_list_comes_first<T>(a: Seq<T>, b: Seq<T>, c: spec_fn(T, T) -> Order)
    requires
        forall|e: T| #[trigger] c(e, e) == Order::Equal,
    ensures
        lex(a, a, c) == Order::Equal,
        b.len() > 0 ==> lex(a, a + b, c) == Order::Less && lex(a + b, a, c) == Order::Greater,
    decreases a.len(),
{
    if a.len() == 0 {
        assert(a + b == b);
    } else {
        assert(c(a[0], a[0]) == Order::Equal);
        assert((a + b).skip(1) == a.skip(1) + b);
        assert((a + b)[0] == a[0]);
        shorter_list_comes_first(a.skip(1), b, c);
    }
}

/// Texts are ordered by the first character in which they differ, the smaller
/// one first, and a text comes before every longer one that begins with it.
pub proof fn earlier_character_comes_first(
    common: Seq<char>,
    x: char,
    a: Seq<char>,
    y: char,
    b: Seq<char>,
)
    ensures
        (x as u32) < (y as u32) ==> text_order(common + seq![x] + a, common + seq![y] + b)
            == Order::Less,
        (x as u32) > (y as u32) ==> text_order(common + seq![x] + a, common + seq![y] + b)
            == Order::Greater,
        text_order(common, common + seq![y] + b) == Order::Less,
        text_order(common, common) == Order::Equal,
{
    let c = char_order();
    if x as u32 != y as u32 {
        first_difference_decides(common, x, a, y, b, c);
    }
    shorter_list_comes_first(common, seq![y] + b, c);
    assert(common + (seq![y] + b) == common + seq![y] + b);
}

/// Lists of texts are ordered by the first text in which they differ, and a list
/// comes before every longer one that begins with it.
pub proof fn earlier_text_comes_first(
    common: Seq<Seq<char>>,
    x: Seq<char>,
    a: Seq<Seq<char>>,
    y: Seq<char>,
    b: Seq<Seq<char>>,
)
    ensures
        x != y ==> texts_order(common + seq![x] + a, common + seq![y] + b) == text_order(x, y),
        texts_order(common, common + seq![y] + b) == Order::Less,
        texts_order(common, common) == Order::Equal,
{
    let c = |x: Seq<char>, y: Seq<char>| text_order(x, y);
    assert forall|e: Seq<char>| #[trigger] c(e, e) == Order::Equal by {
        lemma_text_equal(e, e);
    }
    if x != y {
        lemma_text_equal(x, y);
        first_difference_decides(common, x, a, y, b, c);
    }
    shorter_list_comes_first(common, seq![y] + b, c);
    assert(common + (seq![y] + b) == common + seq![y] + b);
}

/// What is absent comes before everything that is there, and what is there is
/// ordered among itself.
pub proof fn absent_comes_first<T>(x: T, y: T, c: spec_fn(T, T) -> Order)
    ensures
        option_order(None, Some(x), c) == Order::Less,
        option_order(Some(x), None, c) == Order::Greater,
        option_order(None::<T>, None, c) == Order::Equal,
        option_order(Some(x), Some(y), c) == c(x, y),
{
}

/// In a sorted list of places each place stands once, none comes behind one that
/// is greater, and of two that are equal the earlier one comes first.
pub proof fn sorted_places_never_fall(r: Seq<usize>, n: int, c: spec_fn(int, int) -> Order)
    requires
        is_stable_order(r, 0, n, c),
    ensures
        r.len() == n,
        forall|v: usize| v < n ==> r.contains(v),
        forall|a: int, b: int|
            0 <= a < b < r.len() ==> c(#[trigger] r[a] as int, #[trigger] r[b] as int)
                != Order::Greater && (c(r[a] as int, r[b] as int) == Order::Equal ==> r[a] < r[b]),
{
}

} // verus!
