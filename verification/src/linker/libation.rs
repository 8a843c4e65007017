//! Titles and series as Libation gives them: the subtitle may name the series
//! and the book's number in it, and the title may repeat the series' name.
use vstd::prelude::*;
use vstd::string::*;

use crate::outside::to_lowercase;
use crate::text::{chars_of, concat3, ends_with, find_text, same_text, slice, trim};

verus! {

/// The place in `s`, in characters from `k` on, that lies `b` bytes of UTF-8
/// after its beginning.
pub open spec fn place_from(s: Seq<char>, b: int, k: int) -> Option<int>
    decreases s.len() + 1 - k,
{
    if k < 0 || k > s.len() {
        None
    } else if crate::text::utf8_len(s.take(k)) == b {
        Some(k)
    } else {
        place_from(s, b, k + 1)
    }
}

/// What a subtitle says of a series.
#[derive(Debug, PartialEq)]
pub enum SubtitleCut {
    /// The name of the series and the book's number.
    Parts(String, String),
    /// Nothing.
    Nothing,
    /// The marker found in the lowercase form does not fall between two
    /// characters of the subtitle.
    Misaligned,
}

#[verifier::ext_equal]
pub enum CutView {
    Parts(Seq<char>, Seq<char>),
    Nothing,
    Misaligned,
}

impl View for SubtitleCut {
    type V = CutView;

    open spec fn view(&self) -> CutView {
        match self {
            SubtitleCut::Parts(a, b) => CutView::Parts(a@, b@),
            SubtitleCut::Nothing => CutView::Nothing,
            SubtitleCut::Misaligned => CutView::Misaligned,
        }
    }
}

/// A subtitle cut at a marker. The marker is looked for in the subtitle's
/// lowercase form; what lies before it, and behind it, is cut off the subtitle
/// at the same bytes.
pub open spec fn marker_cut(subtitle: Seq<char>, lower: Seq<char>, marker: Seq<char>) -> CutView {
    match crate::text::found(lower, marker) {
        None => CutView::Nothing,
        Some(i) => {
            let b = crate::text::utf8_len(lower.take(i));
            let e = b + crate::text::utf8_len(marker);
            match (place_from(subtitle, b as int, 0), place_from(subtitle, e as int, 0)) {
                (Some(x), Some(y)) => {
                    let name = crate::text::trimmed(subtitle.take(x));
                    let number = crate::text::trimmed(subtitle.skip(y));
                    if name.len() > 0 && number.len() > 0 {
                        CutView::Parts(name, number)
                    } else {
                        CutView::Nothing
                    }
                },
                _ => CutView::Misaligned,
            }
        },
    }
}

/// The first cut, or the second where the first finds nothing.
pub open spec fn first_cut(a: CutView, b: CutView) -> CutView {
    match a {
        CutView::Nothing => b,
        _ => a,
    }
}

/// What a subtitle without white space around it, whose lowercase form is
/// given, says of a series: its name before, and the book's number behind, the
/// first of the markers `, book `, `, vol. ` and `, volume ` that has both.
pub open spec fn subtitle_cut(subtitle: Seq<char>, lower: Seq<char>) -> CutView {
    first_cut(
        marker_cut(subtitle, lower, ", book "@),
        first_cut(
            marker_cut(subtitle, lower, ", vol. "@),
            marker_cut(subtitle, lower, ", volume "@),
        ),
    )
}

fn char_width(c: char) -> (r: u64)
    ensures
        r == crate::text::utf8_width(c),
        1 <= r <= 4,
{
    let n: u32 = c as u32;
    if n < 0x80 {
        1
    } else if n < 0x800 {
        2
    } else if n < 0x10000 {
        3
    } else {
        4
    }
}

/// The number of bytes of the first `k` characters, by place.
fn byte_places(x: &Vec<char>) -> (r: Vec<u128>)
    ensures
        r@.len() == x@.len() + 1,
        forall|k: int| 0 <= k <= x@.len() ==> #[trigger] r@[k] == crate::text::utf8_len(x@.take(k)),
{
    let n: usize = x.len();
    let mut r: Vec<u128> = Vec::new();
    let mut total: u128 = 0;
    r.push(0);
    let mut k: usize = 0;
    assert(x@.take(0) == Seq::<char>::empty());
    while k < n
        invariant
            n == x@.len(),
            k <= n,
            r@.len() == k + 1,
            total <= k * 4,
            total == crate::text::utf8_len(x@.take(k as int)),
            forall|j: int|
                0 <= j <= k ==> #[trigger] r@[j] == crate::text::utf8_len(x@.take(j)),
        decreases n - k,
    {
        let ghost next = x@.take(k + 1);
        assert(next.drop_last() == x@.take(k as int));
        assert(next.last() == x@[k as int]);
        total = total + char_width(x[k]) as u128;
        r.push(total);
        k = k + 1;
    }
    r
}

fn find_place(x: &Vec<char>, places: &Vec<u128>, b: u128) -> (r: Option<usize>)
    requires
        places@.len() == x@.len() + 1,
        forall|k: int|
            0 <= k <= x@.len() ==> #[trigger] places@[k] == crate::text::utf8_len(x@.take(k)),
    ensures
        r is Some == place_from(x@, b as int, 0) is Some,
        r matches Some(k) ==> k <= x@.len() && place_from(x@, b as int, 0) == Some(k as int),
{
    let mut k: usize = 0;
    while k < places.len()
        invariant
            k <= places@.len(),
            places@.len() == x@.len() + 1,
            forall|k: int|
                0 <= k <= x@.len() ==> #[trigger] places@[k] == crate::text::utf8_len(x@.take(k)),
            place_from(x@, b as int, 0) == place_from(x@, b as int, k as int),
        decreases places@.len() - k,
    {
        assert(places@[k as int] == crate::text::utf8_len(x@.take(k as int)));
        if places[k] == b {
            return Some(k);
        }
        k = k + 1;
    }
    None
}

fn cut_at_marker(subtitle: &str, lower: &str, marker: &str) -> (r: SubtitleCut)
    ensures
        r@ == marker_cut(subtitle@, lower@, marker@),
{
    match find_text(lower, marker) {
        None => SubtitleCut::Nothing,
        Some(i) => {
            let x = chars_of(subtitle);
            let y = chars_of(lower);
            let m = chars_of(marker);
            proof {
                crate::text::lemma_found_from(lower@, marker@, 0);
                crate::text::lemma_utf8_bound(lower@.take(i as int));
                crate::text::lemma_utf8_bound(marker@);
            }
            let lower_places = byte_places(&y);
            let marker_places = byte_places(&m);
            let places = byte_places(&x);
            assert(marker@.take(marker@.len() as int) == marker@);
            let b: u128 = lower_places[i];
            let e: u128 = b + marker_places[m.len()];
            match (find_place(&x, &places, b), find_place(&x, &places, e)) {
                (Some(p), Some(q)) => {
                    let before = slice(subtitle, 0, p);
                    let behind = slice(subtitle, q, x.len());
                    assert(before@ == subtitle@.take(p as int));
                    assert(behind@ == subtitle@.skip(q as int));
                    let name = trim(before.as_str());
                    let number = trim(behind.as_str());
                    if name.as_str().unicode_len() > 0 && number.as_str().unicode_len() > 0 {
                        SubtitleCut::Parts(name, number)
                    } else {
                        SubtitleCut::Nothing
                    }
                },
                _ => SubtitleCut::Misaligned,
            }
        },
    }
}

/// What a subtitle says of a series; `lower` is its lowercase form.
pub fn cut_subtitle(subtitle: &str, lower: &str) -> (r: SubtitleCut)
    ensures
        r@ == subtitle_cut(subtitle@, lower@),
{
    match cut_at_marker(subtitle, lower, ", book ") {
        SubtitleCut::Nothing => match cut_at_marker(subtitle, lower, ", vol. ") {
            SubtitleCut::Nothing => cut_at_marker(subtitle, lower, ", volume "),
            o => o,
        },
        o => o,
    }
}

/// A subtitle cannot be cut where its lowercase form has a marker.
#[derive(Debug, PartialEq, Eq)]
pub struct MisalignedSubtitle;

/// The series' name and the book's number out of a subtitle.
pub open spec fn series_subtitle(subtitle: Seq<char>) -> CutView {
    let s = crate::text::trimmed(subtitle);
    if s.len() == 0 {
        CutView::Nothing
    } else {
        subtitle_cut(s, crate::outside::lowercase(s))
    }
}

/// A text of ASCII characters.
pub open spec fn is_ascii_text(s: Seq<char>) -> bool {
    forall|i: int| 0 <= i < s.len() ==> crate::outside::is_ascii_char(#[trigger] s[i])
}

/// A text with its ASCII letters in lowercase.
pub open spec fn ascii_lowercase(s: Seq<char>) -> Seq<char> {
    s.map_values(|c: char| crate::outside::ascii_lower(c))
}

/// A subtitle of ASCII characters cut at a marker, in any letter case.
pub open spec fn ascii_marker_cut(subtitle: Seq<char>, marker: Seq<char>) -> CutView {
    match crate::text::found(ascii_lowercase(subtitle), marker) {
        None => CutView::Nothing,
        Some(i) => {
            let name = crate::text::trimmed(subtitle.take(i));
            let number = crate::text::trimmed(subtitle.skip(i + marker.len()));
            if name.len() > 0 && number.len() > 0 {
                CutView::Parts(name, number)
            } else {
                CutView::Nothing
            }
        },
    }
}

/// The series' name and the book's number out of a subtitle of ASCII
/// characters.
pub open spec fn ascii_series_subtitle(subtitle: Seq<char>) -> CutView {
    let s = crate::text::trimmed(subtitle);
    first_cut(
        ascii_marker_cut(s, ", book "@),
        first_cut(ascii_marker_cut(s, ", vol. "@), ascii_marker_cut(s, ", volume "@)),
    )
}

proof fn lemma_ascii_len(s: Seq<char>)
    requires
        is_ascii_text(s),
    ensures
        crate::text::utf8_len(s) == s.len(),
    decreases s.len(),
{
    if s.len() > 0 {
        assert(is_ascii_text(s.drop_last())) by {
            assert(forall|i: int| 0 <= i < s.drop_last().len() ==> s.drop_last()[i] == s[i]);
        }
        lemma_ascii_len(s.drop_last());
        assert(crate::outside::is_ascii_char(s[s.len() - 1]));
    }
}

proof fn lemma_ascii_place(s: Seq<char>, b: int, k: int)
    requires
        is_ascii_text(s),
        0 <= k <= b <= s.len(),
    ensures
        place_from(s, b, k) == Some(b),
    decreases b - k,
{
    assert(is_ascii_text(s.take(k)));
    lemma_ascii_len(s.take(k));
    if k < b {
        lemma_ascii_place(s, b, k + 1);
    }
}

proof fn lemma_ascii_cut(s: Seq<char>, marker: Seq<char>)
    requires
        is_ascii_text(s),
        is_ascii_text(marker),
    ensures
        marker_cut(s, ascii_lowercase(s), marker) == ascii_marker_cut(s, marker),
{
    let lower = ascii_lowercase(s);
    crate::text::lemma_found_from(lower, marker, 0);
    match crate::text::found(lower, marker) {
        None => {},
        Some(i) => {
            assert forall|k: int| 0 <= k < lower.take(i).len() implies crate::outside::is_ascii_char(
                #[trigger] lower.take(i)[k],
            ) by {
                assert(crate::outside::is_ascii_char(s[k]));
            }
            lemma_ascii_len(lower.take(i));
            lemma_ascii_len(marker);
            lemma_ascii_place(s, i, 0);
            lemma_ascii_place(s, i + marker.len(), 0);
        },
    }
}

proof fn lemma_ascii_markers()
    ensures
        is_ascii_text(", book "@),
        is_ascii_text(", vol. "@),
        is_ascii_text(", volume "@),
        ", book "@.len() > 0,
        ", vol. "@.len() > 0,
        ", volume "@.len() > 0,
{
    reveal_strlit(", book ");
    reveal_strlit(", vol. ");
    reveal_strlit(", volume ");
}

/// A subtitle of ASCII characters is read without regard to letter case.
proof fn lemma_ascii_series(subtitle: Seq<char>)
    requires
        is_ascii_text(subtitle),
        ({
            let s = crate::text::trimmed(subtitle);
            crate::outside::lowercase(s) == ascii_lowercase(s)
        }),
    ensures
        series_subtitle(subtitle) == ascii_series_subtitle(subtitle),
{
    let s = crate::text::trimmed(subtitle);
    let (a, b) = crate::text::lemma_trimmed(subtitle);
    assert(is_ascii_text(s)) by {
        assert(forall|i: int| 0 <= i < s.len() ==> s[i] == subtitle[a + i]);
    }
    lemma_ascii_markers();
    lemma_ascii_cut(s, ", book "@);
    lemma_ascii_cut(s, ", vol. "@);
    lemma_ascii_cut(s, ", volume "@);
    if s.len() == 0 {
        let lower = ascii_lowercase(s);
        assert(crate::text::found(lower, ", book "@) is None);
        assert(crate::text::found(lower, ", vol. "@) is None);
        assert(crate::text::found(lower, ", volume "@) is None);
    }
}

/// What is returned for a subtitle that says something of a series, or nothing,
/// or cannot be cut.
pub open spec fn is_reading(
    cut: CutView,
    r: Result<Option<(String, String)>, MisalignedSubtitle>,
) -> bool {
    match cut {
        CutView::Parts(a, b) => r matches Ok(Some(p)) && p.0@ == a && p.1@ == b,
        CutView::Nothing => r matches Ok(None),
        CutView::Misaligned => r is Err,
    }
}

/// The name of the series and the book's number that a subtitle gives. In a
/// subtitle of ASCII characters the markers may be in any letter case.
pub fn parse_libation_series_subtitle(subtitle: &str) -> (r: Result<
    Option<(String, String)>,
    MisalignedSubtitle,
>)
    ensures
        is_reading(series_subtitle(subtitle@), r),
        is_ascii_text(subtitle@) ==> is_reading(ascii_series_subtitle(subtitle@), r),
{
    let s = trim(subtitle);
    proof {
        let (a, b) = crate::text::lemma_trimmed(subtitle@);
        assert(forall|i: int| 0 <= i < s@.len() ==> s@[i] == subtitle@[a + i]);
    }
    let lower = to_lowercase(s.as_str());
    proof {
        if is_ascii_text(subtitle@) {
            assert(is_ascii_text(s@));
            lemma_ascii_series(subtitle@);
        }
    }
    if s.as_str().unicode_len() == 0 {
        return Ok(None);
    }
    match cut_subtitle(s.as_str(), lower.as_str()) {
        SubtitleCut::Parts(a, b) => Ok(Some((a, b))),
        SubtitleCut::Nothing => Ok(None),
        SubtitleCut::Misaligned => Err(MisalignedSubtitle),
    }
}

proof fn lemma_padded(front: Seq<char>, s: Seq<char>, back: Seq<char>)
    requires
        forall|i: int| 0 <= i < front.len() ==> crate::text::is_space(#[trigger] front[i]),
        forall|i: int| 0 <= i < back.len() ==> crate::text::is_space(#[trigger] back[i]),
    ensures
        crate::text::trimmed(front + s + back) == crate::text::trimmed(s),
{
    let all = front + s + back;
    let n = front.len() as int;
    let (a, b) = crate::text::lemma_trimmed(s);
    assert forall|i: int| 0 <= i < n + a implies crate::text::is_space(#[trigger] all[i]) by {
        if i < n {
            assert(all[i] == front[i]);
        } else {
            assert(all[i] == s[i - n]);
        }
    }
    assert forall|i: int| n + b <= i < all.len() implies crate::text::is_space(
        #[trigger] all[i],
    ) by {
        if i < n + s.len() {
            assert(all[i] == s[i - n]);
        } else {
            assert(all[i] == back[i - n - s.len()]);
        }
    }
    if a < b {
        assert(all[n + a] == s[a]);
        assert(all[n + b - 1] == s[b - 1]);
    }
    crate::text::lemma_trimmed_at(all, n + a, n + b);
    assert(all.subrange(n + a, n + b) == s.subrange(a, b));
}

/// White space around a subtitle makes no difference.
pub proof fn outer_space_makes_no_difference(front: Seq<char>, s: Seq<char>, back: Seq<char>)
    requires
        forall|i: int| 0 <= i < front.len() ==> crate::text::is_space(#[trigger] front[i]),
        forall|i: int| 0 <= i < back.len() ==> crate::text::is_space(#[trigger] back[i]),
    ensures
        series_subtitle(front + s + back) == series_subtitle(s),
        ascii_series_subtitle(front + s + back) == ascii_series_subtitle(s),
{
    lemma_padded(front, s, back);
}

/// The name and the number stand in `s` between `a` and `b`, and between `c` and
/// `d`. A marker, in any letter case, stands between them at `i`, with nothing
/// but white space around it.
pub open spec fn parts_at(
    s: Seq<char>,
    name: Seq<char>,
    number: Seq<char>,
    marker: Seq<char>,
    a: int,
    b: int,
    i: int,
    c: int,
    d: int,
) -> bool {
    &&& 0 <= a <= b <= i
    &&& i + marker.len() <= c <= d <= s.len()
    &&& name == s.subrange(a, b)
    &&& number == s.subrange(c, d)
    &&& ascii_lowercase(s.subrange(i, i + marker.len())) == marker
    &&& forall|k: int| b <= k < i ==> crate::text::is_space(#[trigger] s[k])
    &&& forall|k: int| i + marker.len() <= k < c ==> crate::text::is_space(#[trigger] s[k])
}

/// The name and the number stand in `s` around a marker.
pub open spec fn stand_around(
    s: Seq<char>,
    name: Seq<char>,
    number: Seq<char>,
    marker: Seq<char>,
) -> bool {
    exists|a: int, b: int, i: int, c: int, d: int| #[trigger]
        parts_at(s, name, number, marker, a, b, i, c, d)
}

/// A text that is not empty and has no white space at its ends.
pub open spec fn is_bare(s: Seq<char>) -> bool {
    s.len() > 0 && !crate::text::is_space(s[0]) && !crate::text::is_space(s.last())
}

proof fn lemma_parts(subtitle: Seq<char>, marker: Seq<char>, name: Seq<char>, number: Seq<char>)
    requires
        ascii_marker_cut(crate::text::trimmed(subtitle), marker) == CutView::Parts(name, number),
    ensures
        is_bare(name),
        is_bare(number),
        stand_around(subtitle, name, number, marker),
{
    let (from, to) = crate::text::lemma_trimmed(subtitle);
    let s = crate::text::trimmed(subtitle);
    let lower = ascii_lowercase(s);
    let n = marker.len() as int;
    crate::text::lemma_found_from(lower, marker, 0);
    let i = crate::text::found(lower, marker).unwrap();
    let before = s.take(i);
    let behind = s.skip(i + n);
    let (a, b) = crate::text::lemma_trimmed(before);
    let (c, d) = crate::text::lemma_trimmed(behind);
    assert(name == subtitle.subrange(from + a, from + b));
    assert(number == subtitle.subrange(from + i + n + c, from + i + n + d));
    assert forall|k: int| from + b <= k < from + i implies crate::text::is_space(
        #[trigger] subtitle[k],
    ) by {
        assert(before[k - from] == subtitle[k]);
    }
    assert forall|k: int| from + i + n <= k < from + i + n + c implies crate::text::is_space(
        #[trigger] subtitle[k],
    ) by {
        assert(behind[k - from - i - n] == subtitle[k]);
    }
    assert(ascii_lowercase(subtitle.subrange(from + i, from + i + n)) == lower.subrange(i, i + n));
    assert(parts_at(
        subtitle,
        name,
        number,
        marker,
        from + a,
        from + b,
        from + i,
        from + i + n + c,
        from + i + n + d,
    ));
}

/// What a subtitle of ASCII characters gives is part of it: name and number are
/// not empty, have no white space around them, and stand around one of the
/// markers in any letter case.
pub proof fn parts_stand_around_a_marker(
    subtitle: Seq<char>,
    name: Seq<char>,
    number: Seq<char>,
)
    requires
        ascii_series_subtitle(subtitle) == CutView::Parts(name, number),
    ensures
        is_bare(name),
        is_bare(number),
        stand_around(subtitle, name, number, ", book "@) || stand_around(
            subtitle,
            name,
            number,
            ", vol. "@,
        ) || stand_around(subtitle, name, number, ", volume "@),
{
    let s = crate::text::trimmed(subtitle);
    if ascii_marker_cut(s, ", book "@) == CutView::Parts(name, number) {
        lemma_parts(subtitle, ", book "@, name, number);
    } else if ascii_marker_cut(s, ", vol. "@) == CutView::Parts(name, number) {
        lemma_parts(subtitle, ", vol. "@, name, number);
    } else {
        lemma_parts(subtitle, ", volume "@, name, number);
    }
}

/// A subtitle of ASCII characters without a marker, in any letter case, says
/// nothing.
pub proof fn no_marker_says_nothing(subtitle: Seq<char>)
    requires
        ({
            let lower = ascii_lowercase(crate::text::trimmed(subtitle));
            &&& !crate::text::contains_text(lower, ", book "@)
            &&& !crate::text::contains_text(lower, ", vol. "@)
            &&& !crate::text::contains_text(lower, ", volume "@)
        }),
    ensures
        ascii_series_subtitle(subtitle) is Nothing,
{
    let lower = ascii_lowercase(crate::text::trimmed(subtitle));
    crate::text::lemma_found_from(lower, ", book "@, 0);
    crate::text::lemma_found_from(lower, ", vol. "@, 0);
    crate::text::lemma_found_from(lower, ", volume "@, 0);
}

/// What a subtitle says, with each character changed.
pub open spec fn mapped_cut(cut: CutView, f: spec_fn(char) -> char) -> CutView {
    match cut {
        CutView::Parts(a, b) => CutView::Parts(a.map_values(f), b.map_values(f)),
        o => o,
    }
}

/// Nothing but the case of ASCII letters changes.
pub open spec fn keeps_letters(f: spec_fn(char) -> char) -> bool {
    forall|c: char|
        crate::outside::ascii_lower(#[trigger] f(c)) == crate::outside::ascii_lower(c)
}

proof fn lemma_same_space(c: char, d: char)
    requires
        crate::outside::ascii_lower(c) == crate::outside::ascii_lower(d),
    ensures
        crate::text::is_space(c) == crate::text::is_space(d),
{
}

proof fn lemma_mapped_trim(s: Seq<char>, f: spec_fn(char) -> char)
    requires
        keeps_letters(f),
    ensures
        crate::text::trimmed(s.map_values(f)) == crate::text::trimmed(s).map_values(f),
{
    let t = s.map_values(f);
    let (a, b) = crate::text::lemma_trimmed(s);
    assert forall|i: int| 0 <= i < s.len() implies crate::text::is_space(#[trigger] t[i])
        == crate::text::is_space(s[i]) by {
        lemma_same_space(f(s[i]), s[i]);
    }
    crate::text::lemma_trimmed_at(t, a, b);
    assert(t.subrange(a, b) == s.subrange(a, b).map_values(f));
}

proof fn lemma_mapped_cut(s: Seq<char>, marker: Seq<char>, f: spec_fn(char) -> char)
    requires
        keeps_letters(f),
    ensures
        ascii_marker_cut(s.map_values(f), marker) == mapped_cut(ascii_marker_cut(s, marker), f),
{
    let t = s.map_values(f);
    assert(ascii_lowercase(t) == ascii_lowercase(s));
    crate::text::lemma_found_from(ascii_lowercase(s), marker, 0);
    match crate::text::found(ascii_lowercase(s), marker) {
        None => {},
        Some(i) => {
            lemma_mapped_trim(s.take(i), f);
            lemma_mapped_trim(s.skip(i + marker.len()), f);
            assert(t.take(i) == s.take(i).map_values(f));
            assert(t.skip(i + marker.len()) == s.skip(i + marker.len()).map_values(f));
        },
    }
}

/// The letter case of a subtitle of ASCII characters makes no difference but to
/// the letters of the name and the number themselves.
pub proof fn letter_case_makes_no_difference(subtitle: Seq<char>, f: spec_fn(char) -> char)
    requires
        keeps_letters(f),
    ensures
        ascii_series_subtitle(subtitle.map_values(f)) == mapped_cut(
            ascii_series_subtitle(subtitle),
            f,
        ),
{
    let s = crate::text::trimmed(subtitle);
    lemma_mapped_trim(subtitle, f);
    lemma_mapped_cut(s, ", book "@, f);
    lemma_mapped_cut(s, ", vol. "@, f);
    lemma_mapped_cut(s, ", volume "@, f);
}

/// An ASCII letter in uppercase, every other character as it is.
pub open spec fn ascii_upper(c: char) -> char {
    if 97 <= c as u32 <= 122 {
        ((c as u32 - 32) as u32) as char
    } else {
        c
    }
}

/// A subtitle of ASCII characters in uppercase gives the name and the number in
/// uppercase.
pub proof fn uppercase_gives_uppercase(subtitle: Seq<char>)
    ensures
        ascii_series_subtitle(subtitle.map_values(|c: char| ascii_upper(c))) == mapped_cut(
            ascii_series_subtitle(subtitle),
            |c: char| ascii_upper(c),
        ),
{
    let f = |c: char| ascii_upper(c);
    assert(keeps_letters(f));
    letter_case_makes_no_difference(subtitle, f);
}

/// A series' name as it is compared with the beginning of a title: without
/// white space around it and without a trailing ` Series` or ` series`.
pub open spec fn series_key(name: Seq<char>) -> Seq<char> {
    let n = crate::text::trimmed(name);
    if crate::text::has_suffix(n, " Series"@) {
        n.take(n.len() - " Series"@.len())
    } else if crate::text::has_suffix(n, " series"@) {
        n.take(n.len() - " series"@.len())
    } else {
        n
    }
}

/// A series' name as it is compared with the beginning of a title.
pub fn libation_series_key(subtitle_series_name: &str) -> (r: String)
    ensures
        r@ == series_key(subtitle_series_name@),
{
    proof {
        reveal_strlit(" Series");
        reveal_strlit(" series");
    }
    let n = trim(subtitle_series_name);
    let len: usize = n.as_str().unicode_len();
    if ends_with(n.as_str(), " Series") || ends_with(n.as_str(), " series") {
        let r = slice(n.as_str(), 0, len - 7);
        assert(r@ == n@.take(n@.len() - 7));
        r
    } else {
        n
    }
}

/// Whether a title begins with the name of the series: the two, each in the
/// form in which titles are compared, are the same. The second is the form of
/// what `libation_series_key` gives.
pub fn libation_series_name_matches(title_prefix: &str, series_name: &str) -> (r: bool)
    ensures
        r == (title_prefix@ == series_name@),
{
    same_text(title_prefix, series_name)
}

/// A title, and the series that it and the subtitle tell of.
#[derive(Debug, PartialEq)]
pub struct TitleAndSeries {
    pub title: String,
    pub series: Option<(String, String)>,
}

#[verifier::ext_equal]
pub struct TitleAndSeriesView {
    pub title: Seq<char>,
    pub series: Option<(Seq<char>, Seq<char>)>,
}

pub open spec fn pair_of(o: Option<(String, String)>) -> Option<(Seq<char>, Seq<char>)> {
    match o {
        Some(p) => Some((p.0@, p.1@)),
        None => None,
    }
}

impl View for TitleAndSeries {
    type V = TitleAndSeriesView;

    open spec fn view(&self) -> TitleAndSeriesView {
        TitleAndSeriesView { title: self.title@, series: pair_of(self.series) }
    }
}

/// What the title and subtitle of a book say, or what is still to be found out.
#[derive(Debug, PartialEq)]
pub enum TitleQuestion {
    Settled(TitleAndSeries),
    /// Is `prefix` the same title as `key`, which is the key of `series_name`?
    Compare { prefix: String, key: String, rest: String, series_name: String, number: String },
}

#[verifier::ext_equal]
pub enum TitleQuestionView {
    Settled(TitleAndSeriesView),
    Compare {
        prefix: Seq<char>,
        key: Seq<char>,
        rest: Seq<char>,
        series_name: Seq<char>,
        number: Seq<char>,
    },
}

impl View for TitleQuestion {
    type V = TitleQuestionView;

    open spec fn view(&self) -> TitleQuestionView {
        match self {
            TitleQuestion::Settled(t) => TitleQuestionView::Settled(t@),
            TitleQuestion::Compare {
                prefix,
                key,
                rest,
                series_name,
                number,
            } => TitleQuestionView::Compare {
                prefix: prefix@,
                key: key@,
                rest: rest@,
                series_name: series_name@,
                number: number@,
            },
        }
    }
}

/// The question that a title and what the subtitle says leave open. Where the
/// subtitle tells of no series it belongs to the title; where it does, and the
/// title has a `: `, what stands before that may be the series' name.
pub open spec fn title_question(title: Seq<char>, subtitle: Seq<char>, cut: CutView) -> TitleQuestionView {
    match cut {
        CutView::Parts(name, number) => match crate::text::found(title, ": "@) {
            Some(i) => TitleQuestionView::Compare {
                prefix: title.take(i),
                key: series_key(name),
                rest: title.skip(i + ": "@.len()),
                series_name: name,
                number,
            },
            None => TitleQuestionView::Settled(
                TitleAndSeriesView { title, series: Some((name, number)) },
            ),
        },
        _ => TitleQuestionView::Settled(
            TitleAndSeriesView {
                title: if subtitle.len() == 0 {
                    title
                } else {
                    title + ": "@ + subtitle
                },
                series: None,
            },
        ),
    }
}

/// Reads a title and subtitle as far as that goes without comparing titles.
pub fn ask_title(title: &str, subtitle: &str) -> (r: Result<TitleQuestion, MisalignedSubtitle>)
    ensures
        match r {
            Ok(q) => !(series_subtitle(subtitle@) is Misaligned) && q@ == title_question(
                title@,
                subtitle@,
                series_subtitle(subtitle@),
            ),
            Err(_) => series_subtitle(subtitle@) is Misaligned,
        },
{
    match parse_libation_series_subtitle(subtitle) {
        Err(e) => Err(e),
        Ok(None) => {
            let full = if subtitle.unicode_len() == 0 {
                title.to_owned()
            } else {
                concat3(title, ": ", subtitle)
            };
            Ok(TitleQuestion::Settled(TitleAndSeries { title: full, series: None }))
        },
        Ok(Some((name, number))) => match find_text(title, ": ") {
            Some(i) => {
                proof {
                    reveal_strlit(": ");
                    crate::text::lemma_found_from(title@, ": "@, 0);
                }
                let len: usize = title.unicode_len();
                let prefix = slice(title, 0, i);
                let rest = slice(title, i + 2, len);
                assert(prefix@ == title@.take(i as int));
                assert(rest@ == title@.skip(i + 2));
                let key = libation_series_key(name.as_str());
                Ok(TitleQuestion::Compare { prefix, key, rest, series_name: name, number })
            },
            None => Ok(
                TitleQuestion::Settled(
                    TitleAndSeries { title: title.to_owned(), series: Some((name, number)) },
                ),
            ),
        },
    }
}

/// The title and series of a book, once the question is answered.
pub open spec fn title_answer(
    title: Seq<char>,
    question: TitleQuestionView,
    same: bool,
) -> TitleAndSeriesView {
    match question {
        TitleQuestionView::Settled(t) => t,
        TitleQuestionView::Compare {
            prefix,
            rest,
            series_name,
            number,
            ..
        } => if same && crate::text::trimmed(rest).len() > 0 {
            TitleAndSeriesView {
                title: crate::text::trimmed(rest),
                series: Some((crate::text::trimmed(prefix), number)),
            }
        } else {
            TitleAndSeriesView { title, series: Some((series_name, number)) }
        },
    }
}

/// The title and series of a book. `prefix` and `key` are the texts of the
/// question in the form in which titles are compared: where they are the same,
/// the title begins with the series' name and what follows is the title.
pub fn answer_title(title: &str, question: TitleQuestion, prefix: &str, key: &str) -> (r:
    TitleAndSeries)
    ensures
        r@ == title_answer(title@, question@, prefix@ == key@),
{
    match question {
        TitleQuestion::Settled(t) => t,
        TitleQuestion::Compare { prefix: before, key: _, rest, series_name, number } => {
            let short = trim(rest.as_str());
            if libation_series_name_matches(prefix, key) && short.as_str().unicode_len() > 0 {
                TitleAndSeries {
                    title: short,
                    series: Some((trim(before.as_str()), number)),
                }
            } else {
                TitleAndSeries { title: title.to_owned(), series: Some((series_name, number)) }
            }
        },
    }
}

/// The title of a book whose subtitle names no series: the title, with the
/// subtitle behind it where there is one.
pub proof fn plain_subtitle_joins_title(title: Seq<char>, subtitle: Seq<char>, same: bool)
    ensures
        ({
            let r = title_answer(title, title_question(title, subtitle, CutView::Nothing), same);
            &&& r.series is None
            &&& subtitle.len() == 0 ==> r.title == title
            &&& subtitle.len() > 0 ==> r.title == title + ": "@ + subtitle
        }),
{
}

/// The title of a book whose subtitle names a series: where the title begins
/// with the series' name and a colon, what follows is the title, and what stands
/// before is the series; else the title stays whole, and the series is the one
/// of the subtitle. The number is the subtitle's in every case.
pub proof fn series_subtitle_is_no_part_of_title(
    before: Seq<char>,
    rest: Seq<char>,
    subtitle: Seq<char>,
    name: Seq<char>,
    number: Seq<char>,
)
    requires
        crate::text::found(before + ": "@ + rest, ": "@) == Some(before.len() as int),
    ensures
        ({
            let title = before + ": "@ + rest;
            let cut = CutView::Parts(name, number);
            let asked = title_question(title, subtitle, cut);
            let yes = title_answer(title, asked, true);
            let no = title_answer(title, asked, false);
            &&& asked matches TitleQuestionView::Compare { prefix, key, .. } && prefix == before
                && key == series_key(name)
            &&& crate::text::trimmed(rest).len() > 0 ==> yes.title == crate::text::trimmed(rest)
                && yes.series == Some((crate::text::trimmed(before), number))
            &&& crate::text::trimmed(rest).len() == 0 ==> yes.title == title && yes.series == Some(
                (name, number),
            )
            &&& no.title == title
            &&& no.series == Some((name, number))
        }),
{
    let title = before + ": "@ + rest;
    assert(title.take(before.len() as int) == before);
    assert(title.skip((before.len() + ": "@.len()) as int) == rest);
}

/// A title without a colon is kept as it is, and the series is the one that the
/// subtitle names.
pub proof fn title_without_colon_is_kept(
    title: Seq<char>,
    subtitle: Seq<char>,
    name: Seq<char>,
    number: Seq<char>,
    same: bool,
)
    requires
        !crate::text::contains_text(title, ": "@),
    ensures
        ({
            let r = title_answer(
                title,
                title_question(title, subtitle, CutView::Parts(name, number)),
                same,
            );
            r.title == title && r.series == Some((name, number))
        }),
{
    crate::text::lemma_found_from(title, ": "@, 0);
}

/// The key of a series is its name, without the word `Series` where it ends in
/// that.
pub proof fn series_word_is_dropped(name: Seq<char>)
    requires
        name.len() > 0,
        !crate::text::is_space(name[0]),
    ensures
        series_key(name + " Series"@) == name,
        series_key(name + " series"@) == name,
{
    reveal_strlit(" Series");
    reveal_strlit(" series");
    let a = name + " Series"@;
    let b = name + " series"@;
    let none = Seq::<char>::empty();
    assert(a.last() == 's' && b.last() == 's');
    assert(a[0] == name[0] && b[0] == name[0]);
    crate::text::trimming_drops_outer_space(none, a, none);
    crate::text::trimming_drops_outer_space(none, b, none);
    assert(none + a + none == a);
    assert(none + b + none == b);
    assert(a.skip(name.len() as int) == " Series"@);
    assert(b.skip(name.len() as int) == " series"@);
    assert(a.take(name.len() as int) == name);
    assert(b.take(name.len() as int) == name);
    assert(" Series"@[1] == 'S' && " series"@[1] == 's');
}

/// A subtitle that is a name, a marker and a number is read as these, however
/// the marker's letters are written.
pub proof fn marked_subtitle_is_read(name: Seq<char>, marker: Seq<char>, number: Seq<char>)
    requires
        is_bare(name),
        is_bare(number),
        ascii_lowercase(marker) == ", book "@,
        crate::text::found(ascii_lowercase(name + marker + number), ", book "@) == Some(
            name.len() as int,
        ),
    ensures
        ascii_series_subtitle(name + marker + number) == CutView::Parts(name, number),
{
    let s = name + marker + number;
    let none = Seq::<char>::empty();
    assert(marker.len() == ", book "@.len()) by {
        assert(ascii_lowercase(marker).len() == marker.len());
    }
    assert(s[0] == name[0]);
    assert(s.last() == number.last());
    crate::text::trimming_drops_outer_space(none, s, none);
    assert(none + s + none == s);
    crate::text::trimming_drops_outer_space(none, name, none);
    assert(none + name + none == name);
    crate::text::trimming_drops_outer_space(none, number, none);
    assert(none + number + none == number);
    assert(s.take(name.len() as int) == name);
    assert(s.skip((name.len() + ", book "@.len()) as int) == number);
}

proof fn lemma_utf8_grows(s: Seq<char>, a: int, b: int)
    requires
        0 <= a < b <= s.len(),
    ensures
        crate::text::utf8_len(s.take(a)) < crate::text::utf8_len(s.take(b)),
    decreases b - a,
{
    let t = s.take(b);
    assert(t.drop_last() == s.take(b - 1));
    assert(crate::text::utf8_width(t.last()) >= 1);
    if a < b - 1 {
        lemma_utf8_grows(s, a, b - 1);
    }
}

proof fn lemma_place_found(s: Seq<char>, x: int, k: int)
    requires
        0 <= k <= x <= s.len(),
    ensures
        place_from(s, crate::text::utf8_len(s.take(x)) as int, k) == Some(x),
    decreases x - k,
{
    if k < x {
        lemma_utf8_grows(s, k, x);
        lemma_place_found(s, x, k + 1);
    }
}

/// A subtitle in any script is cut where its lowercase form has the marker, at
/// the same number of bytes: what stands before is the name and what stands
/// behind is the number, without the white space around them. Where the
/// lowercase form has no marker there is nothing to cut.
pub proof fn marker_cuts_subtitle(
    subtitle: Seq<char>,
    lower: Seq<char>,
    marker: Seq<char>,
    i: int,
    x: int,
    y: int,
)
    requires
        0 <= x <= subtitle.len(),
        0 <= y <= subtitle.len(),
        crate::text::utf8_len(subtitle.take(x)) == crate::text::utf8_len(lower.take(i)),
        crate::text::utf8_len(subtitle.take(y)) == crate::text::utf8_len(lower.take(i))
            + crate::text::utf8_len(marker),
    ensures
        crate::text::found(lower, marker) == Some(i) ==> {
            let name = crate::text::trimmed(subtitle.take(x));
            let number = crate::text::trimmed(subtitle.skip(y));
            &&& name.len() > 0 && number.len() > 0 ==> marker_cut(subtitle, lower, marker)
                == CutView::Parts(name, number)
            &&& name.len() == 0 || number.len() == 0 ==> marker_cut(subtitle, lower, marker)
                is Nothing
        },
        crate::text::found(lower, marker) is None ==> marker_cut(subtitle, lower, marker)
            is Nothing,
{
    lemma_place_found(subtitle, x, 0);
    lemma_place_found(subtitle, y, 0);
}

/// The markers are looked for in this order: the one for a book, then the short
/// and the long one for a volume. A cut that one of them makes stands, whatever
/// the later ones would make.
pub proof fn first_marker_counts(subtitle: Seq<char>, lower: Seq<char>)
    ensures
        ({
            let book = marker_cut(subtitle, lower, ", book "@);
            let short = marker_cut(subtitle, lower, ", vol. "@);
            let long = marker_cut(subtitle, lower, ", volume "@);
            let cut = subtitle_cut(subtitle, lower);
            &&& !(book is Nothing) ==> cut == book
            &&& book is Nothing && !(short is Nothing) ==> cut == short
            &&& book is Nothing && short is Nothing ==> cut == long
        }),
        crate::text::trimmed(subtitle).len() == 0 ==> series_subtitle(subtitle) is Nothing,
        crate::text::trimmed(subtitle).len() > 0 ==> series_subtitle(subtitle) == subtitle_cut(
            crate::text::trimmed(subtitle),
            crate::outside::lowercase(crate::text::trimmed(subtitle)),
        ),
{
}

/// A reading of a subtitle gives back the two parts of its cut, and nothing
/// where there is nothing to cut; only a cut that cannot be made is an error.
pub proof fn reading_gives_parts_of_cut(
    cut: CutView,
    r: Result<Option<(String, String)>, MisalignedSubtitle>,
)
    requires
        is_reading(cut, r),
    ensures
        cut matches CutView::Parts(a, b) ==> (r matches Ok(Some(p)) && p.0@ == a && p.1@ == b),
        cut is Nothing <==> r == Ok::<Option<(String, String)>, MisalignedSubtitle>(None),
        cut is Misaligned <==> r is Err,
{
}

} // verus!
