//! What the library has from other crates and from the standard library: the
//! calls are made here, and what is believed of them is stated here.
use vstd::prelude::*;

use crate::text::text_of;

verus! {

/// The lowercase form of a text: what `str::to_lowercase` returns.
pub uninterp spec fn lowercase(s: Seq<char>) -> Seq<char>;

/// The character is below 128.
pub open spec fn is_ascii_char(c: char) -> bool {
    (c as u32) < 128
}

/// An ASCII letter in lowercase, every other character as it is.
pub open spec fn ascii_lower(c: char) -> char {
    if 65 <= c as u32 <= 90 {
        ((c as u32 + 32) as u32) as char
    } else {
        c
    }
}

/// Calls `str::to_lowercase`. The result depends on the text alone. A text of
/// ASCII characters keeps its length, and its letters `A` to `Z` become `a` to
/// `z`; for other texts the Unicode case mapping is not spelled out.
#[verifier::external_body]
pub(crate) fn to_lowercase(s: &str) -> (r: String)
    ensures
        r@ == lowercase(s@),
        (forall|i: int| 0 <= i < s@.len() ==> is_ascii_char(#[trigger] s@[i])) ==> r@
            == s@.map_values(|c: char| ascii_lower(c)),
{
    s.to_lowercase()
}

/// The characters that a file name keeps: neither a control character nor one
/// of `/ ? < > \ : * | "`.
pub open spec fn is_file_char(c: char) -> bool {
    let n = c as u32;
    &&& n > 0x1f
    &&& !(0x80 <= n <= 0x9f)
    &&& c != '/'
    &&& c != '?'
    &&& c != '<'
    &&& c != '>'
    &&& c != '\\'
    &&& c != ':'
    &&& c != '*'
    &&& c != '|'
    &&& c != '"'
}

/// The longest beginning of `s` that takes up at most `n` bytes of UTF-8.
pub open spec fn fitting(s: Seq<char>, n: nat) -> Seq<char>
    decreases s.len(),
{
    if s.len() == 0 || crate::text::utf8_len(s) <= n {
        s
    } else {
        fitting(s.drop_last(), n)
    }
}

/// A text made fit to be a file name: without the characters that file names
/// do not have, empty where only dots are left, and at most 255 bytes long.
pub open spec fn sanitized(name: Seq<char>) -> Seq<char> {
    let kept = name.filter(|c: char| is_file_char(c));
    if forall|i: int| 0 <= i < kept.len() ==> kept[i] == '.' {
        seq![]
    } else {
        fitting(kept, 255)
    }
}

/// Calls `sanitize_filename::sanitize_with_options` with the options that
/// `sanitize` uses on Unix: no Windows rules, cut at 255 bytes, illegal
/// characters dropped.
#[verifier::external_body]
pub(crate) fn sanitize(name: &str) -> (r: String)
    ensures
        r@ == sanitized(name@),
{
    let options = sanitize_filename::Options {
        windows: false,
        ..sanitize_filename::Options::default()
    };
    sanitize_filename::sanitize_with_options(name, options)
}

/// The text of the first group in the leftmost match of a regular expression:
/// what `regex::Regex::captures` finds. `None` where nothing matches, where
/// the group takes no part in the match, and where the expression is not
/// valid.
pub uninterp spec fn first_group(pattern: Seq<char>, text: Seq<char>) -> Option<Seq<char>>;

/// Compiles the expression with `regex::Regex::new`, calls `Regex::captures`
/// and takes the first group. What the expression's grammar makes of a text
/// is not spelled out: the result depends on the two arguments alone, and a
/// captured text is a part of the text that was searched.
#[verifier::external_body]
pub(crate) fn capture_first(pattern: &str, text: &str) -> (r: Option<String>)
    ensures
        text_of(r) == first_group(pattern@, text@),
        r matches Some(g) ==> exists|a: int, b: int|
            0 <= a <= b <= text@.len() && g@ == #[trigger] text@.subrange(a, b),
{
    match regex::Regex::new(pattern) {
        Ok(expression) => match expression.captures(text) {
            Some(groups) => groups.get(1).map(|group| group.as_str().to_owned()),
            None => None,
        },
        Err(_) => None,
    }
}

/// The score of the best fuzzy match of a query in a text, ignoring case: what
/// `sublime_fuzzy::FuzzySearch::best_match` finds with its default scoring.
pub uninterp spec fn best_score(query: Seq<char>, target: Seq<char>) -> Option<int>;

/// How many characters a text that is searched for has at most.
pub const MAX_QUERY: usize = 512;

/// The text is short enough to be searched for.
pub open spec fn is_searchable(query: Seq<char>) -> bool {
    query.len() <= MAX_QUERY
}

/// The text is short enough to be searched in.
pub open spec fn is_search_text(target: Seq<char>) -> bool {
    4 * target.len() <= isize::MAX
}

/// Calls `sublime_fuzzy::FuzzySearch::best_match`, ignoring case, and takes the
/// match's score. How the score is made up is not spelled out: it depends on
/// the two arguments alone, and there is no match where one of them is empty.
///
/// The lengths keep the search within its means. For a query of `n` characters
/// it sets up a table of `n * n` entries, nests at most `n` calls, and adds up
/// bonuses of at most `8 * n * n * n + 4 * n * n + 80 * n`, which is less than
/// 2 to the power of 31 where `n` is at most 512. From that it takes 4 for each
/// character of the text that lies between two matches.
#[verifier::external_body]
pub(crate) fn best_match_score(query: &str, target: &str) -> (r: Option<isize>)
    requires
        is_searchable(query@),
        is_search_text(target@),
    ensures
        r is Some == best_score(query@, target@) is Some,
        r matches Some(v) ==> best_score(query@, target@) == Some(v as int),
        query@.len() == 0 || target@.len() == 0 ==> r is None,
{
    sublime_fuzzy::FuzzySearch::new(query, target).case_insensitive().best_match().map(
        |found| found.score(),
    )
}

} // verus!
