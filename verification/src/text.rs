//! Text as sequences of characters: comparing, searching, trimming,
//! splitting, joining, and decimal numbers.
use vstd::prelude::*;
use vstd::string::*;

verus! {

/// The Unicode characters with the White_Space property.
pub open spec fn is_space(c: char) -> bool {
    let n = c as u32;
    ||| 0x9 <= n <= 0xd
    ||| n == 0x20
    ||| n == 0x85
    ||| n == 0xa0
    ||| n == 0x1680
    ||| 0x2000 <= n <= 0x200a
    ||| n == 0x2028
    ||| n == 0x2029
    ||| n == 0x202f
    ||| n == 0x205f
    ||| n == 0x3000
}

/// `s` without its leading white space.
pub open spec fn trimmed_start(s: Seq<char>) -> Seq<char>
    decreases s.len(),
{
    if s.len() > 0 && is_space(s[0]) {
        trimmed_start(s.skip(1))
    } else {
        s
    }
}

/// `s` without its trailing white space.
pub open spec fn trimmed_end(s: Seq<char>) -> Seq<char>
    decreases s.len(),
{
    if s.len() > 0 && is_space(s.last()) {
        trimmed_end(s.drop_last())
    } else {
        s
    }
}

/// `s` without leading and trailing white space.
pub open spec fn trimmed(s: Seq<char>) -> Seq<char> {
    trimmed_end(trimmed_start(s))
}

/// `pat` stands in `s` at position `i`.
pub open spec fn occurs_at(s: Seq<char>, pat: Seq<char>, i: int) -> bool {
    0 <= i && i + pat.len() <= s.len() && s.subrange(i, i + pat.len()) == pat
}

/// The first position at or after `from` where `pat` stands in `s`.
pub open spec fn found_from(s: Seq<char>, pat: Seq<char>, from: int) -> Option<int>
    decreases s.len() + 1 - from,
{
    if from < 0 || from + pat.len() > s.len() {
        None
    } else if occurs_at(s, pat, from) {
        Some(from)
    } else {
        found_from(s, pat, from + 1)
    }
}

/// The first position where `pat` stands in `s`.
pub open spec fn found(s: Seq<char>, pat: Seq<char>) -> Option<int> {
    found_from(s, pat, 0)
}

/// `pat` stands somewhere in `s`.
pub open spec fn contains_text(s: Seq<char>, pat: Seq<char>) -> bool {
    exists|i: int| occurs_at(s, pat, i)
}

/// `s` begins with `pat`.
pub open spec fn has_prefix(s: Seq<char>, pat: Seq<char>) -> bool {
    pat.len() <= s.len() && s.take(pat.len() as int) == pat
}

/// `s` ends with `pat`.
pub open spec fn has_suffix(s: Seq<char>, pat: Seq<char>) -> bool {
    pat.len() <= s.len() && s.skip(s.len() - pat.len()) == pat
}

/// The pieces of `s` between the occurrences of `pat`, found from the left.
pub open spec fn pieces(s: Seq<char>, pat: Seq<char>) -> Seq<Seq<char>>
    decreases s.len(),
    when pat.len() > 0
    via pieces_shrink
{
    match found(s, pat) {
        None => seq![s],
        Some(i) => seq![s.take(i)] + pieces(s.skip(i + pat.len()), pat),
    }
}

#[via_fn]
proof fn pieces_shrink(s: Seq<char>, pat: Seq<char>) {
    lemma_found_from(s, pat, 0);
}

/// The texts one after the other, with `sep` between them.
pub open spec fn joined(parts: Seq<Seq<char>>, sep: Seq<char>) -> Seq<char>
    decreases parts.len(),
{
    if parts.len() == 0 {
        seq![]
    } else if parts.len() == 1 {
        parts[0]
    } else {
        joined(parts.drop_last(), sep) + sep + parts.last()
    }
}

/// The number of bytes that a character takes up in UTF-8.
pub open spec fn utf8_width(c: char) -> nat {
    let n = c as u32;
    if n < 0x80 {
        1
    } else if n < 0x800 {
        2
    } else if n < 0x10000 {
        3
    } else {
        4
    }
}

/// The number of bytes that a text takes up in UTF-8.
pub open spec fn utf8_len(s: Seq<char>) -> nat
    decreases s.len(),
{
    if s.len() == 0 {
        0
    } else {
        utf8_len(s.drop_last()) + utf8_width(s.last())
    }
}

pub proof fn lemma_utf8_bound(s: Seq<char>)
    ensures
        utf8_len(s) <= s.len() * 4,
    decreases s.len(),
{
    if s.len() > 0 {
        lemma_utf8_bound(s.drop_last());
    }
}

/// The text lies between `a` and `b` in `s`, with nothing but white space
/// outside, and has none at its ends.
pub open spec fn is_trimmed_at(s: Seq<char>, a: int, b: int) -> bool {
    &&& 0 <= a <= b <= s.len()
    &&& forall|i: int| 0 <= i < a ==> is_space(#[trigger] s[i])
    &&& forall|i: int| b <= i < s.len() ==> is_space(#[trigger] s[i])
    &&& a < b ==> !is_space(s[a]) && !is_space(s[b - 1])
}

proof fn lemma_trimmed_start(s: Seq<char>, a: int)
    requires
        0 <= a <= s.len(),
        forall|i: int| 0 <= i < a ==> is_space(#[trigger] s[i]),
        a < s.len() ==> !is_space(s[a]),
    ensures
        trimmed_start(s) == s.skip(a),
    decreases a,
{
    if a > 0 {
        assert(is_space(s[0]));
        lemma_trimmed_start(s.skip(1), a - 1);
        assert(s.skip(1).skip(a - 1) == s.skip(a));
    } else {
        assert(s.skip(0) == s);
    }
}

proof fn lemma_trimmed_end(s: Seq<char>, b: int)
    requires
        0 <= b <= s.len(),
        forall|i: int| b <= i < s.len() ==> is_space(#[trigger] s[i]),
        b > 0 ==> !is_space(s[b - 1]),
    ensures
        trimmed_end(s) == s.take(b),
    decreases s.len() - b,
{
    if b < s.len() {
        lemma_trimmed_end(s.drop_last(), b);
        assert(s.drop_last().take(b) == s.take(b));
    } else {
        assert(s.take(b) == s);
    }
}

/// What is left of a text without white space around it.
pub proof fn lemma_trimmed_at(s: Seq<char>, a: int, b: int)
    requires
        is_trimmed_at(s, a, b),
    ensures
        trimmed(s) == s.subrange(a, b),
{
    if a < b {
        lemma_trimmed_start(s, a);
        assert forall|i: int| b - a <= i < s.skip(a).len() implies is_space(
            #[trigger] s.skip(a)[i],
        ) by {
            assert(is_space(s[a + i]));
        }
        lemma_trimmed_end(s.skip(a), b - a);
        assert(s.skip(a).take(b - a) == s.subrange(a, b));
    } else {
        assert(forall|i: int| 0 <= i < s.len() ==> is_space(#[trigger] s[i]));
        lemma_trimmed_start(s, s.len() as int);
        assert(s.skip(s.len() as int) == Seq::<char>::empty());
        assert(s.subrange(a, b) == Seq::<char>::empty());
    }
}

/// Where a text without white space around it lies.
pub proof fn lemma_trimmed(s: Seq<char>) -> (p: (int, int))
    ensures
        is_trimmed_at(s, p.0, p.1),
        trimmed(s) == s.subrange(p.0, p.1),
    decreases s.len(),
{
    if s.len() == 0 {
        lemma_trimmed_at(s, 0, 0);
        (0, 0)
    } else if is_space(s[0]) {
        let rest = s.skip(1);
        let (a, b) = lemma_trimmed(rest);
        assert forall|i: int| 0 <= i < a + 1 implies is_space(#[trigger] s[i]) by {
            if i > 0 {
                assert(is_space(rest[i - 1]));
            }
        }
        assert forall|i: int| b + 1 <= i < s.len() implies is_space(#[trigger] s[i]) by {
            assert(is_space(rest[i - 1]));
        }
        lemma_trimmed_at(s, a + 1, b + 1);
        (a + 1, b + 1)
    } else if is_space(s.last()) {
        let rest = s.drop_last();
        let (a, b) = lemma_trimmed(rest);
        assert forall|i: int| 0 <= i < a implies is_space(#[trigger] s[i]) by {
            assert(is_space(rest[i]));
        }
        assert forall|i: int| b <= i < s.len() implies is_space(#[trigger] s[i]) by {
            if i < rest.len() {
                assert(is_space(rest[i]));
            }
        }
        lemma_trimmed_at(s, a, b);
        (a, b)
    } else {
        lemma_trimmed_at(s, 0, s.len() as int);
        (0, s.len() as int)
    }
}

/// The views of a list of strings.
pub open spec fn texts(v: Seq<String>) -> Seq<Seq<char>> {
    v.map_values(|s: String| s@)
}

/// The view of an optional string.
pub open spec fn text_of(o: Option<String>) -> Option<Seq<char>> {
    match o {
        Some(s) => Some(s@),
        None => None,
    }
}

pub proof fn lemma_found_from(s: Seq<char>, pat: Seq<char>, from: int)
    requires
        0 <= from,
    ensures
        found_from(s, pat, from) matches Some(i) ==> from <= i && occurs_at(s, pat, i) && (forall|j: int|
            from <= j < i ==> !#[trigger] occurs_at(s, pat, j)),
        found_from(s, pat, from) is None ==> (forall|j: int|
            from <= j ==> !#[trigger] occurs_at(s, pat, j)),
    decreases s.len() + 1 - from,
{
    if from + pat.len() <= s.len() && !occurs_at(s, pat, from) {
        lemma_found_from(s, pat, from + 1);
    }
}

/// The characters of a text.
pub fn chars_of(s: &str) -> (r: Vec<char>)
    ensures
        r@ == s@,
{
    let mut r: Vec<char> = Vec::new();
    for c in it: s.chars()
        invariant
            it.seq() == s@,
            r@ == s@.take(it.index() as int),
    {
        r.push(c);
        assert(s@.take(it.index() as int + 1) == s@.take(it.index() as int).push(c));
    }
    assert(s@.take(s@.len() as int) == s@);
    r
}

/// Whether two texts are equal.
pub fn same_text(a: &str, b: &str) -> (r: bool)
    ensures
        r == (a@ == b@),
{
    let x = chars_of(a);
    let y = chars_of(b);
    same_chars(&x, &y)
}

pub fn same_chars(x: &Vec<char>, y: &Vec<char>) -> (r: bool)
    ensures
        r == (x@ == y@),
{
    if x.len() != y.len() {
        return false;
    }
    let mut i: usize = 0;
    while i < x.len()
        invariant
            i <= x.len() == y.len(),
            x@.take(i as int) == y@.take(i as int),
        decreases x.len() - i,
    {
        if x[i] != y[i] {
            assert(x@ != y@);
            return false;
        }
        assert(x@.take(i + 1) == x@.take(i as int).push(x@[i as int]));
        assert(y@.take(i + 1) == y@.take(i as int).push(y@[i as int]));
        i = i + 1;
    }
    assert(x@.take(i as int) == x@);
    assert(y@.take(i as int) == y@);
    true
}

/// Whether `pat` stands in `s` at position `i`.
fn chars_at(s: &Vec<char>, pat: &Vec<char>, i: usize) -> (r: bool)
    requires
        i + pat@.len() <= s@.len(),
    ensures
        r == occurs_at(s@, pat@, i as int),
{
    let n: usize = s.len();
    let mut k: usize = 0;
    while k < pat.len()
        invariant
            k <= pat@.len(),
            n == s@.len(),
            i + pat@.len() <= n,
            forall|j: int| 0 <= j < k ==> s@[i + j] == pat@[j],
        decreases pat@.len() - k,
    {
        if s[i + k] != pat[k] {
            assert(s@.subrange(i as int, i + pat@.len())[k as int] != pat@[k as int]);
            return false;
        }
        k = k + 1;
    }
    assert(s@.subrange(i as int, i + pat@.len()) == pat@);
    true
}

/// The first position at or after `from` where `pat` stands in `s`.
pub fn find_chars(s: &Vec<char>, pat: &Vec<char>, from: usize) -> (r: Option<usize>)
    requires
        from <= s@.len(),
    ensures
        r is Some == found_from(s@, pat@, from as int) is Some,
        r matches Some(i) ==> found_from(s@, pat@, from as int) == Some(i as int),
{
    if pat.len() > s.len() {
        return None;
    }
    let last: usize = s.len() - pat.len();
    let mut i: usize = from;
    while i <= last
        invariant
            from <= i <= s@.len(),
            last + pat@.len() == s@.len(),
            found_from(s@, pat@, from as int) == found_from(s@, pat@, i as int),
        decreases s@.len() + 1 - i,
    {
        if chars_at(s, pat, i) {
            return Some(i);
        }
        if i == last {
            return None;
        }
        i = i + 1;
    }
    None
}


/// The first position where `pat` stands in `s`, in characters.
pub fn find_text(s: &str, pat: &str) -> (r: Option<usize>)
    ensures
        r is Some == found(s@, pat@) is Some,
        r matches Some(i) ==> found(s@, pat@) == Some(i as int),
{
    let x = chars_of(s);
    let y = chars_of(pat);
    find_chars(&x, &y, 0)
}

/// Whether `pat` stands somewhere in `s`.
pub fn has_text(s: &str, pat: &str) -> (r: bool)
    ensures
        r == contains_text(s@, pat@),
{
    proof {
        lemma_found_from(s@, pat@, 0);
    }
    find_text(s, pat).is_some()
}

/// Whether `s` begins with `pat`.
pub fn starts_with(s: &str, pat: &str) -> (r: bool)
    ensures
        r == has_prefix(s@, pat@),
{
    let x = chars_of(s);
    let y = chars_of(pat);
    if y.len() > x.len() {
        return false;
    }
    assert(s@.subrange(0, pat@.len() as int) == s@.take(pat@.len() as int));
    chars_at(&x, &y, 0)
}

/// Whether `s` ends with `pat`.
pub fn ends_with(s: &str, pat: &str) -> (r: bool)
    ensures
        r == has_suffix(s@, pat@),
{
    let x = chars_of(s);
    let y = chars_of(pat);
    if y.len() > x.len() {
        return false;
    }
    assert(s@.subrange(s@.len() - pat@.len(), s@.len() as int) == s@.skip(s@.len() - pat@.len()));
    chars_at(&x, &y, x.len() - y.len())
}

/// The part of `s` from character `from` up to, not including, `to`.
pub fn slice(s: &str, from: usize, to: usize) -> (r: String)
    requires
        from <= to <= s@.len(),
    ensures
        r@ == s@.subrange(from as int, to as int),
{
    s.substring_char(from, to).to_owned()
}

/// `a` followed by `b`.
pub fn concat(a: &str, b: &str) -> (r: String)
    ensures
        r@ == a@ + b@,
{
    let mut r = a.to_owned();
    r.append(b);
    r
}

/// The three texts one after the other.
pub fn concat3(a: &str, b: &str, c: &str) -> (r: String)
    ensures
        r@ == a@ + b@ + c@,
{
    let mut r = a.to_owned();
    r.append(b);
    r.append(c);
    r
}

/// Whether a character is white space.
pub fn char_is_space(c: char) -> (r: bool)
    ensures
        r == is_space(c),
{
    let n: u32 = c as u32;
    (0x9 <= n && n <= 0xd) || n == 0x20 || n == 0x85 || n == 0xa0 || n == 0x1680 || (0x2000 <= n
        && n <= 0x200a) || n == 0x2028 || n == 0x2029 || n == 0x202f || n == 0x205f || n == 0x3000
}

/// `s` without leading and trailing white space.
pub fn trim(s: &str) -> (r: String)
    ensures
        r@ == trimmed(s@),
{
    let x = chars_of(s);
    let mut a: usize = 0;
    assert(x@.skip(0) == x@);
    while a < x.len() && char_is_space(x[a])
        invariant
            a <= x@.len(),
            trimmed_start(x@.skip(a as int)) == trimmed_start(x@),
        ensures
            a <= x@.len(),
            trimmed_start(x@.skip(a as int)) == trimmed_start(x@),
            a < x@.len() ==> !is_space(x@[a as int]),
        decreases x@.len() - a,
    {
        assert(x@.skip(a as int).skip(1) == x@.skip(a + 1));
        a = a + 1;
    }
    let ghost rest = x@.skip(a as int);
    assert(trimmed_start(x@) == rest);
    let mut b: usize = x.len();
    assert(x@.subrange(a as int, b as int) == rest);
    while b > a && char_is_space(x[b - 1])
        invariant
            a <= b <= x@.len(),
            trimmed_end(x@.subrange(a as int, b as int)) == trimmed_end(rest),
        ensures
            a <= b <= x@.len(),
            trimmed_end(x@.subrange(a as int, b as int)) == trimmed_end(rest),
            a < b ==> !is_space(x@[b - 1]),
        decreases b,
    {
        assert(x@.subrange(a as int, b as int).drop_last() == x@.subrange(a as int, b - 1));
        b = b - 1;
    }
    slice(s, a, b)
}

/// The pieces of `s` between the occurrences of `pat`.
pub fn split(s: &str, pat: &str) -> (r: Vec<String>)
    requires
        pat@.len() > 0,
    ensures
        texts(r@) == pieces(s@, pat@),
{
    let x = chars_of(s);
    let y = chars_of(pat);
    let mut r: Vec<String> = Vec::new();
    let n: usize = x.len();
    let mut from: usize = 0;
    assert(s@.skip(0) == s@);
    assert(texts(r@) + pieces(s@.skip(0), pat@) == pieces(s@, pat@));
    loop
        invariant
            x@ == s@,
            y@ == pat@,
            n == s@.len(),
            pat@.len() > 0,
            from <= s@.len(),
            texts(r@) + pieces(s@.skip(from as int), pat@) == pieces(s@, pat@),
        decreases s@.len() - from,
    {
        let ghost rest = s@.skip(from as int);
        proof {
            lemma_found_shift(s@, pat@, from as int, 0);
            lemma_found_from(rest, pat@, 0);
        }
        match find_chars(&x, &y, from) {
            None => {
                let last = slice(s, from, x.len());
                assert(last@ == rest);
                r.push(last);
                assert(texts(r@) == pieces(s@, pat@));
                return r;
            },
            Some(i) => {
                let piece = slice(s, from, i);
                let ghost before = texts(r@);
                r.push(piece);
                assert(piece@ == rest.take(i - from));
                assert(texts(r@) == before.push(piece@));
                assert(rest.skip(i - from + pat@.len()) == s@.skip(i + pat@.len()));
                assert(before + (seq![piece@] + pieces(s@.skip(i + pat@.len()), pat@)) == texts(r@)
                    + pieces(s@.skip(i + pat@.len()), pat@));
                from = i + y.len();
            },
        }
    }
}

proof fn lemma_found_shift(s: Seq<char>, pat: Seq<char>, k: int, from: int)
    requires
        0 <= k <= s.len(),
        0 <= from,
    ensures
        found_from(s.skip(k), pat, from) == (match found_from(s, pat, k + from) {
            Some(i) => Some(i - k),
            None => None,
        }),
    decreases s.len() + 1 - from - k,
{
    if k + from + pat.len() <= s.len() {
        assert(s.skip(k).subrange(from, from + pat.len()) == s.subrange(
            k + from,
            k + from + pat.len(),
        ));
        if !occurs_at(s, pat, k + from) {
            lemma_found_shift(s, pat, k, from + 1);
        }
    }
}

/// The texts one after the other, with `sep` between them.
pub fn join(parts: &Vec<String>, sep: &str) -> (r: String)
    ensures
        r@ == joined(texts(parts@), sep@),
{
    let mut r = String::new();
    let mut i: usize = 0;
    let ghost all = texts(parts@);
    while i < parts.len()
        invariant
            i <= parts@.len(),
            all == texts(parts@),
            r@ == joined(all.take(i as int), sep@),
        decreases parts@.len() - i,
    {
        if i > 0 {
            r.append(sep);
        }
        r.append(parts[i].as_str());
        assert(all.take(i + 1).drop_last() == all.take(i as int));
        assert(all.take(i + 1).last() == parts@[i as int]@);
        i = i + 1;
    }
    assert(all.take(i as int) == all);
    r
}


/// The character for a digit below ten.
pub open spec fn digit(d: nat) -> char {
    (48 + d) as char
}

/// A number in decimal notation, without leading zeros.
pub open spec fn decimal(n: nat) -> Seq<char>
    decreases n,
{
    if n < 10 {
        seq![digit(n)]
    } else {
        decimal(n / 10).push(digit(n % 10))
    }
}

/// The character is one of `0` to `9`.
pub open spec fn is_digit(c: char) -> bool {
    48 <= c as u32 <= 57
}

/// The number that a run of decimal digits stands for.
pub open spec fn digits_value(s: Seq<char>) -> nat
    decreases s.len(),
{
    if s.len() == 0 {
        0
    } else {
        digits_value(s.drop_last()) * 10 + (s.last() as u32 - 48) as nat
    }
}

/// The digits of a text that may begin with a plus sign.
pub open spec fn unsigned_digits(s: Seq<char>) -> Seq<char> {
    if s.len() > 0 && s[0] == '+' {
        s.skip(1)
    } else {
        s
    }
}

/// The number that a text stands for: decimal digits, at least one, after an
/// optional plus sign.
pub open spec fn parsed_number(s: Seq<char>) -> Option<nat> {
    let d = unsigned_digits(s);
    if d.len() > 0 && (forall|i: int| 0 <= i < d.len() ==> is_digit(#[trigger] d[i])) {
        Some(digits_value(d))
    } else {
        None
    }
}

/// What is written in decimal is read back as the same number.
pub proof fn decimal_is_read_back(n: nat)
    ensures
        parsed_number(decimal(n)) == Some(n),
{
    lemma_decimal(n);
    assert(decimal(n)[0] != '+');
}

pub proof fn lemma_decimal(n: nat)
    ensures
        decimal(n).len() > 0,
        forall|i: int| 0 <= i < decimal(n).len() ==> is_digit(#[trigger] decimal(n)[i]),
        digits_value(decimal(n)) == n,
    decreases n,
{
    reveal_with_fuel(digits_value, 2);
    if n < 10 {
        assert(seq![digit(n)].drop_last() == Seq::<char>::empty());
    } else {
        lemma_decimal(n / 10);
        let d = decimal(n);
        assert(d.drop_last() == decimal(n / 10));
        assert(d.last() == digit(n % 10));
        assert forall|i: int| 0 <= i < d.len() implies is_digit(#[trigger] d[i]) by {
            if i < d.len() - 1 {
                assert(d[i] == decimal(n / 10)[i]);
            }
        }
    }
}

fn digit_text(d: u64) -> (r: &'static str)
    requires
        d < 10,
    ensures
        r@ == seq![digit(d as nat)],
{
    proof {
        reveal_strlit("0");
        reveal_strlit("1");
        reveal_strlit("2");
        reveal_strlit("3");
        reveal_strlit("4");
        reveal_strlit("5");
        reveal_strlit("6");
        reveal_strlit("7");
        reveal_strlit("8");
        reveal_strlit("9");
    }
    if d == 0 {
        "0"
    } else if d == 1 {
        "1"
    } else if d == 2 {
        "2"
    } else if d == 3 {
        "3"
    } else if d == 4 {
        "4"
    } else if d == 5 {
        "5"
    } else if d == 6 {
        "6"
    } else if d == 7 {
        "7"
    } else if d == 8 {
        "8"
    } else {
        "9"
    }
}

/// A number in decimal notation.
pub fn number_text(n: u64) -> (r: String)
    ensures
        r@ == decimal(n as nat),
    decreases n,
{
    if n < 10 {
        digit_text(n).to_owned()
    } else {
        let mut r = number_text(n / 10);
        r.append(digit_text(n % 10));
        assert(decimal((n / 10) as nat) + seq![digit((n % 10) as nat)] == decimal(n as nat));
        r
    }
}

/// Reads a text as a `usize`.
pub fn parse_usize(s: &str) -> (r: Option<usize>)
    ensures
        r == (match parsed_number(s@) {
            Some(n) if n <= usize::MAX => Some(n as usize),
            _ => None,
        }),
{
    let x = chars_of(s);
    let mut i: usize = 0;
    if x.len() > 0 && x[0] == '+' {
        i = 1;
    }
    let ghost start = i as int;
    let ghost d = unsigned_digits(s@);
    assert(d == s@.skip(start));
    if i == x.len() {
        return None;
    }
    let mut value: usize = 0;
    while i < x.len()
        invariant
            x@ == s@,
            0 <= start <= i <= x@.len(),
            start < x@.len(),
            d == s@.skip(start),
            d == unsigned_digits(s@),
            value == digits_value(d.take(i - start)),
            forall|j: int| 0 <= j < i - start ==> is_digit(#[trigger] d[j]),
        decreases x@.len() - i,
    {
        let c: u32 = x[i] as u32;
        assert(d[i - start] == x@[i as int]);
        if c < 48 || c > 57 {
            return None;
        }
        let v: u32 = c - 48;
        let ghost next = d.take(i - start + 1);
        proof {
            assert(next.drop_last() == d.take(i - start));
            assert(next.last() == x@[i as int]);
            assert(digits_value(next) == value * 10 + v);
        }
        if value > usize::MAX / 10 || value * 10 > usize::MAX - v as usize {
            proof {
                assert(digits_value(next) > usize::MAX);
                lemma_digits_grow(d, i - start + 1);
            }
            return None;
        }
        value = value * 10 + v as usize;
        i = i + 1;
    }
    assert(d.take(d.len() as int) == d);
    Some(value)
}

proof fn lemma_digits_grow(d: Seq<char>, k: int)
    requires
        0 <= k <= d.len(),
    ensures
        digits_value(d.take(k)) <= digits_value(d),
    decreases d.len() - k,
{
    if k < d.len() {
        lemma_digits_grow(d, k + 1);
        let next = d.take(k + 1);
        assert(next.drop_last() == d.take(k));
    } else {
        assert(d.take(k) == d);
    }
}

/// A copy of an optional text.
pub fn clone_option(o: &Option<String>) -> (r: Option<String>)
    ensures
        r == *o,
{
    match o {
        Some(s) => Some(s.clone()),
        None => None,
    }
}

/// A copy of a list of texts.
pub fn clone_texts(v: &Vec<String>) -> (r: Vec<String>)
    ensures
        r@ == v@,
{
    let mut r: Vec<String> = Vec::new();
    let mut i: usize = 0;
    while i < v.len()
        invariant
            i <= v@.len(),
            r@ == v@.take(i as int),
        decreases v@.len() - i,
    {
        r.push(v[i].clone());
        assert(v@.take(i + 1) == v@.take(i as int).push(v@[i as int]));
        i = i + 1;
    }
    assert(v@.take(i as int) == v@);
    r
}

/// Whether two optional texts are the same.
pub fn same_option(a: &Option<String>, b: &Option<String>) -> (r: bool)
    ensures
        r == (text_of(*a) == text_of(*b)),
{
    match (a, b) {
        (Some(x), Some(y)) => same_text(x.as_str(), y.as_str()),
        (None, None) => true,
        _ => false,
    }
}

/// Whether two lists hold the same texts in the same order.
pub fn same_texts(a: &Vec<String>, b: &Vec<String>) -> (r: bool)
    ensures
        r == (texts(a@) == texts(b@)),
{
    let ghost x = texts(a@);
    let ghost y = texts(b@);
    if a.len() != b.len() {
        assert(x.len() != y.len());
        return false;
    }
    let mut i: usize = 0;
    while i < a.len()
        invariant
            x == texts(a@),
            y == texts(b@),
            i <= a@.len() == b@.len(),
            forall|k: int| 0 <= k < i ==> x[k] == y[k],
        decreases a@.len() - i,
    {
        if !same_text(a[i].as_str(), b[i].as_str()) {
            assert(x[i as int] != y[i as int]);
            return false;
        }
        i = i + 1;
    }
    assert(x == y);
    true
}

/// Whether a list holds a text.
pub fn has_entry(v: &Vec<String>, s: &str) -> (r: bool)
    ensures
        r == texts(v@).contains(s@),
{
    let mut i: usize = 0;
    while i < v.len()
        invariant
            i <= v@.len(),
            forall|k: int| 0 <= k < i ==> texts(v@)[k] != s@,
        decreases v@.len() - i,
    {
        if same_text(v[i].as_str(), s) {
            assert(texts(v@)[i as int] == s@);
            return true;
        }
        i = i + 1;
    }
    false
}

/// The pieces of a text, put together again with the separator between them,
/// are the text; there is always one, and none of them holds the separator.
pub proof fn pieces_make_up_text(s: Seq<char>, pat: Seq<char>)
    requires
        pat.len() > 0,
    ensures
        pieces(s, pat).len() > 0,
        joined(pieces(s, pat), pat) == s,
        forall|i: int|
            0 <= i < pieces(s, pat).len() ==> !contains_text(#[trigger] pieces(s, pat)[i], pat),
    decreases s.len(),
{
    lemma_found_from(s, pat, 0);
    match found(s, pat) {
        None => {
            assert(pieces(s, pat) == seq![s]);
            assert forall|i: int| !occurs_at(s, pat, i) by {}
        },
        Some(i) => {
            let rest = s.skip(i + pat.len());
            let first = s.take(i);
            pieces_make_up_text(rest, pat);
            let p = pieces(rest, pat);
            let all = pieces(s, pat);
            assert(all == seq![first] + p);
            lemma_joined_front(first, p, pat);
            assert(first + pat + rest == s) by {
                assert(s.subrange(i, i + pat.len()) == pat);
            }
            assert(!contains_text(first, pat)) by {
                assert forall|j: int| !occurs_at(first, pat, j) by {
                    if occurs_at(first, pat, j) {
                        assert(first.subrange(j, j + pat.len()) == s.subrange(j, j + pat.len()));
                        assert(occurs_at(s, pat, j));
                    }
                }
            }
            assert forall|k: int| 0 <= k < all.len() implies !contains_text(
                #[trigger] all[k],
                pat,
            ) by {
                if k > 0 {
                    assert(all[k] == p[k - 1]);
                }
            }
        },
    }
}

proof fn lemma_joined_front(first: Seq<char>, p: Seq<Seq<char>>, sep: Seq<char>)
    requires
        p.len() > 0,
    ensures
        joined(seq![first] + p, sep) == first + sep + joined(p, sep),
    decreases p.len(),
{
    let all = seq![first] + p;
    reveal_with_fuel(joined, 2);
    if p.len() == 1 {
        assert(all.drop_last() == seq![first]);
    } else {
        lemma_joined_front(first, p.drop_last(), sep);
        assert(all.drop_last() == seq![first] + p.drop_last());
        assert(joined(all, sep) == joined(all.drop_last(), sep) + sep + p.last());
    }
}

/// A text without the white space around it is a part of the text with nothing
/// but white space before and behind it, and has none at its ends.
pub proof fn trimming_drops_outer_space(front: Seq<char>, s: Seq<char>, back: Seq<char>)
    requires
        forall|i: int| 0 <= i < front.len() ==> is_space(#[trigger] front[i]),
        forall|i: int| 0 <= i < back.len() ==> is_space(#[trigger] back[i]),
        s.len() > 0 ==> !is_space(s[0]) && !is_space(s.last()),
    ensures
        trimmed(front + s + back) == s,
{
    let t = front + s + back;
    let (a, b) = (front.len() as int, (front.len() + s.len()) as int);
    assert forall|i: int| 0 <= i < a implies is_space(#[trigger] t[i]) by {
        assert(t[i] == front[i]);
    }
    assert forall|i: int| b <= i < t.len() implies is_space(#[trigger] t[i]) by {
        assert(t[i] == back[i - b]);
    }
    if a < b {
        assert(t[a] == s[0] && t[b - 1] == s.last());
    }
    lemma_trimmed_at(t, a, b);
    assert(t.subrange(a, b) == s);
}

/// A text begins with what stands at its front and ends in what stands at its
/// back, and with nothing else of the same length.
pub proof fn front_and_back_are_found(front: Seq<char>, back: Seq<char>, other: Seq<char>)
    ensures
        has_prefix(front + back, front),
        has_suffix(front + back, back),
        other.len() == front.len() && has_prefix(front + back, other) ==> other == front,
        other.len() == back.len() && has_suffix(front + back, other) ==> other == back,
{
    let s = front + back;
    assert(s.take(front.len() as int) == front);
    assert(s.skip(front.len() as int) == back);
}

} // verus!
