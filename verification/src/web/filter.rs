//! The conditions that the pages filter books by, and the part of a list that a
//! page shows.
use vstd::prelude::*;
use vstd::string::*;

use crate::model::{Flags, Series, Term, TorrentMeta};
use crate::text::{has_entry, parse_usize, same_text, split, trim};

verus! {

/// One of the ids, separated by commas, stands for the category.
pub open spec fn names_category(cat: crate::model::OldCategoryView, value: Seq<char>) -> bool {
    exists|i: int|
        0 <= i < crate::text::pieces(value, ","@).len() && is_category_id(
            cat,
            #[trigger] crate::text::pieces(value, ","@)[i],
        )
}

/// The text is an id that stands for the category.
pub open spec fn is_category_id(cat: crate::model::OldCategoryView, id: Seq<char>) -> bool {
    crate::text::parsed_number(id) matches Some(n) && n <= usize::MAX && cat.one_ids.contains(
        n as usize,
    )
}

/// The book has one of the categories that the ids, separated by commas, stand
/// for, or the one that the text names. An empty text asks for books without a
/// category.
pub open spec fn category_matches(
    cat: Option<crate::model::OldCategoryView>,
    value: Seq<char>,
) -> bool {
    if value.len() == 0 {
        cat is None
    } else {
        cat matches Some(c) && (names_category(c, value) || c.name == value)
    }
}

/// The book has all the categories, separated by commas. An empty text asks for
/// books without categories.
pub open spec fn categories_match(categories: Seq<Seq<char>>, value: Seq<char>) -> bool {
    if value.len() == 0 {
        categories.len() == 0
    } else {
        forall|i: int|
            0 <= i < crate::text::pieces(value, ","@).len() ==> categories.contains(
                crate::text::trimmed(#[trigger] crate::text::pieces(value, ","@)[i]),
            )
    }
}

/// What a book's flags say of the flag with a name.
pub open spec fn named_flag(flags: Flags, name: Seq<char>) -> Option<bool> {
    if name == "violence"@ {
        flags.violence
    } else if name == "explicit"@ {
        flags.explicit
    } else if name == "some_explicit"@ {
        flags.some_explicit
    } else if name == "language"@ {
        flags.crude_language
    } else if name == "abridged"@ {
        flags.abridged
    } else if name == "lgbt"@ {
        flags.lgbt
    } else {
        None
    }
}

/// The book has the flag. An empty text asks for books without flags.
pub open spec fn flags_match(flags: Option<Flags>, value: Seq<char>) -> bool {
    if value.len() == 0 {
        flags matches Some(f) ==> f.bits == 0
    } else {
        flags matches Some(f) && named_flag(f, value) == Some(true)
    }
}

/// The book is in the language that the text stands for, given as its place in
/// the list of languages; a text that stands for none asks for books without a
/// language, as does an empty text.
pub open spec fn language_matches(
    language: Option<(u64, Seq<char>)>,
    value: Seq<char>,
    parsed: Option<u64>,
) -> bool {
    if value.len() == 0 {
        language is None
    } else {
        match (language, parsed) {
            (Some(l), Some(p)) => l.0 == p,
            (None, None) => true,
            _ => false,
        }
    }
}

/// The list holds the text. An empty text asks for an empty list.
pub open spec fn entry_matches(entries: Seq<Seq<char>>, value: Seq<char>) -> bool {
    if value.len() == 0 {
        entries.len() == 0
    } else {
        entries.contains(value)
    }
}

/// The optional text is the one asked for. An empty text asks for none.
pub open spec fn option_matches(o: Option<Seq<char>>, value: Seq<char>) -> bool {
    if value.len() == 0 {
        o is None
    } else {
        o == Some(value)
    }
}

/// The names of a book's series.
pub open spec fn series_names(series: Seq<crate::model::SeriesView>) -> Seq<Seq<char>> {
    series.map_values(|s: crate::model::SeriesView| s.name)
}

fn has_number(v: &Vec<usize>, n: usize) -> (r: bool)
    ensures
        r == v@.contains(n),
{
    let mut i: usize = 0;
    while i < v.len()
        invariant
            i <= v@.len(),
            forall|k: int| 0 <= k < i ==> v@[k] != n,
        decreases v@.len() - i,
    {
        if v[i] == n {
            return true;
        }
        i = i + 1;
    }
    false
}

pub fn match_category(meta: &TorrentMeta, value: &str) -> (r: bool)
    ensures
        r == category_matches(meta@.cat, value@),
{
    if value.unicode_len() == 0 {
        return meta.cat.is_none();
    }
    match &meta.cat {
        None => false,
        Some(cat) => {
            if same_text(cat.name.as_str(), value) {
                return true;
            }
            proof {
                reveal_strlit(",");
            }
            let ids = split(value, ",");
            let ghost p = crate::text::pieces(value@, ","@);
            let mut i: usize = 0;
            while i < ids.len()
                invariant
                    i <= ids@.len(),
                    crate::text::texts(ids@) == p,
                    p == crate::text::pieces(value@, ","@),
                    value@.len() > 0,
                    meta.cat == Some(*cat),
                    forall|k: int| 0 <= k < i ==> !is_category_id(cat@, #[trigger] p[k]),
                decreases ids@.len() - i,
            {
                assert(ids@[i as int]@ == p[i as int]);
                match parse_usize(ids[i].as_str()) {
                    Some(n) => {
                        if has_number(&cat.one_ids, n) {
                            assert(is_category_id(cat@, p[i as int]));
                            return true;
                        }
                    },
                    None => {},
                }
                i = i + 1;
            }
            assert(!names_category(cat@, value@));
            false
        },
    }
}

pub fn match_categories(meta: &TorrentMeta, value: &str) -> (r: bool)
    ensures
        r == categories_match(meta@.categories, value@),
{
    if value.unicode_len() == 0 {
        return meta.categories.len() == 0;
    }
    proof {
        reveal_strlit(",");
    }
    let names = split(value, ",");
    let ghost p = crate::text::pieces(value@, ","@);
    let mut i: usize = 0;
    while i < names.len()
        invariant
            i <= names@.len(),
            crate::text::texts(names@) == p,
            p == crate::text::pieces(value@, ","@),
            value@.len() > 0,
            forall|k: int|
                0 <= k < i ==> meta@.categories.contains(crate::text::trimmed(#[trigger] p[k])),
        decreases names@.len() - i,
    {
        assert(names@[i as int]@ == p[i as int]);
        let name = trim(names[i].as_str());
        if !has_entry(&meta.categories, name.as_str()) {
            assert(!meta@.categories.contains(crate::text::trimmed(p[i as int])));
            return false;
        }
        i = i + 1;
    }
    true
}

fn is_true(o: Option<bool>) -> (r: bool)
    ensures
        r == (o == Some(true)),
{
    match o {
        Some(b) => b,
        None => false,
    }
}

pub fn match_flags(meta: &TorrentMeta, value: &str) -> (r: bool)
    ensures
        r == flags_match(meta@.flags, value@),
{
    match meta.flags {
        None => value.unicode_len() == 0,
        Some(flags) => {
            if value.unicode_len() == 0 {
                flags.bits == 0
            } else if same_text(value, "violence") {
                is_true(flags.violence)
            } else if same_text(value, "explicit") {
                is_true(flags.explicit)
            } else if same_text(value, "some_explicit") {
                is_true(flags.some_explicit)
            } else if same_text(value, "language") {
                is_true(flags.crude_language)
            } else if same_text(value, "abridged") {
                is_true(flags.abridged)
            } else if same_text(value, "lgbt") {
                is_true(flags.lgbt)
            } else {
                false
            }
        },
    }
}

pub fn match_language(language: &Option<Term>, value: &str, parsed: Option<u64>) -> (r: bool)
    ensures
        r == language_matches(crate::model::term_of(*language), value@, parsed),
{
    if value.unicode_len() == 0 {
        return language.is_none();
    }
    match (language, parsed) {
        (Some(l), Some(p)) => l.rank == p,
        (None, None) => true,
        _ => false,
    }
}

pub fn match_entry(entries: &Vec<String>, value: &str) -> (r: bool)
    ensures
        r == entry_matches(crate::text::texts(entries@), value@),
{
    if value.unicode_len() == 0 {
        entries.len() == 0
    } else {
        has_entry(entries, value)
    }
}

pub fn match_option(o: &Option<String>, value: &str) -> (r: bool)
    ensures
        r == option_matches(crate::text::text_of(*o), value@),
{
    match o {
        None => value.unicode_len() == 0,
        Some(s) => value.unicode_len() > 0 && same_text(s.as_str(), value),
    }
}

pub fn has_series(series: &Vec<Series>, name: &str) -> (r: bool)
    ensures
        r == series_names(crate::model::series_of(series@)).contains(name@),
{
    let ghost names = series_names(crate::model::series_of(series@));
    let mut i: usize = 0;
    while i < series.len()
        invariant
            i <= series@.len(),
            names == series_names(crate::model::series_of(series@)),
            forall|k: int| 0 <= k < i ==> names[k] != name@,
        decreases series@.len() - i,
    {
        if same_text(series[i].name.as_str(), name) {
            assert(names[i as int] == name@);
            return true;
        }
        i = i + 1;
    }
    false
}

/// A filter by language that names a language of the list lets exactly the books
/// in that language pass; one that names none, and an empty one, lets exactly
/// the books without a language pass.
pub proof fn language_filter_is_exact(
    language: Option<(u64, Seq<char>)>,
    value: Seq<char>,
    named: u64,
)
    ensures
        value.len() > 0 && language_matches(language, value, Some(named)) ==> (language matches Some(
            l,
        ) && l.0 == named),
        forall|l: (u64, Seq<char>)|
            value.len() > 0 && l.0 == named ==> #[trigger] language_matches(
                Some(l),
                value,
                Some(named),
            ),
        language_matches(language, value, None) <==> language is None,
        value.len() == 0 ==> (language_matches(language, value, Some(named)) <==> language is None),
{
}

/// A filter by a flag lets exactly the books pass that have the flag, and an
/// empty one those that have none.
pub proof fn flag_filter_is_exact(flags: Flags)
    ensures
        flags_match(Some(flags), "violence"@) <==> flags.violence == Some(true),
        flags_match(Some(flags), "explicit"@) <==> flags.explicit == Some(true),
        flags_match(Some(flags), "some_explicit"@) <==> flags.some_explicit == Some(true),
        flags_match(Some(flags), "language"@) <==> flags.crude_language == Some(true),
        flags_match(Some(flags), "abridged"@) <==> flags.abridged == Some(true),
        flags_match(Some(flags), "lgbt"@) <==> flags.lgbt == Some(true),
        flags_match(Some(flags), seq![]) <==> flags.bits == 0,
        flags_match(None, seq![]),
        forall|value: Seq<char>| value.len() > 0 ==> !#[trigger] flags_match(None, value),
{
    reveal_strlit("violence");
    reveal_strlit("explicit");
    reveal_strlit("some_explicit");
    reveal_strlit("language");
    reveal_strlit("abridged");
    reveal_strlit("lgbt");
    assert("violence"@[0] == 'v');
    assert("explicit"@[0] == 'e');
    assert("some_explicit"@[0] == 's');
    assert("language"@[0] == 'l');
    assert("abridged"@[0] == 'a');
    assert("lgbt"@.len() == 4);
    assert("language"@.len() == 8);
}

/// A filter by category lets a book pass under its category's name and under
/// every id that stands for the category, alone or among others, and no book of
/// another category; an empty one lets exactly the books without a category
/// pass.
pub proof fn category_filter_is_exact(
    cat: Option<crate::model::OldCategoryView>,
    value: Seq<char>,
    n: usize,
)
    ensures
        value.len() == 0 ==> (category_matches(cat, value) <==> cat is None),
        value.len() > 0 && category_matches(cat, value) ==> (cat matches Some(c) && (c.name == value
            || exists|i: int|
            0 <= i < crate::text::pieces(value, ","@).len() && (crate::text::parsed_number(
                #[trigger] crate::text::pieces(value, ","@)[i],
            ) matches Some(m) && m <= usize::MAX && c.one_ids.contains(m as usize)))),
        value.len() > 0 ==> (cat matches Some(c) && c.name == value ==> category_matches(cat, value)),
        value.len() > 0 && crate::text::pieces(value, ","@).contains(
            crate::text::decimal(n as nat),
        ) ==> (cat matches Some(c) && c.one_ids.contains(n) ==> category_matches(cat, value)),
{
    if cat is Some && value.len() > 0 {
        let c = cat.unwrap();
        let p = crate::text::pieces(value, ","@);
        crate::text::decimal_is_read_back(n as nat);
        if c.one_ids.contains(n) && p.contains(crate::text::decimal(n as nat)) {
            let i = choose|i: int| 0 <= i < p.len() && p[i] == crate::text::decimal(n as nat);
            assert(is_category_id(c, p[i]));
        }
        if names_category(c, value) {
            let i = choose|i: int| 0 <= i < p.len() && is_category_id(c, #[trigger] p[i]);
            assert(crate::text::parsed_number(p[i]) is Some);
        }
    }
}

/// A filter by categories lets exactly the books pass that have every one of
/// the categories between the commas; an empty one those that have none.
pub proof fn categories_filter_is_exact(categories: Seq<Seq<char>>, value: Seq<char>)
    ensures
        value.len() == 0 ==> (categories_match(categories, value) <==> categories.len() == 0),
        value.len() > 0 ==> (categories_match(categories, value) <==> forall|w: Seq<char>| #[trigger]
            crate::text::pieces(value, ","@).contains(w) ==> categories.contains(
                crate::text::trimmed(w),
            )),
{
    let p = crate::text::pieces(value, ","@);
    if value.len() > 0 {
        if categories_match(categories, value) {
            assert forall|w: Seq<char>| #[trigger] p.contains(w) implies categories.contains(
                crate::text::trimmed(w),
            ) by {
                let i = choose|i: int| 0 <= i < p.len() && p[i] == w;
                assert(categories.contains(crate::text::trimmed(p[i])));
            }
        }
        if forall|w: Seq<char>| #[trigger] p.contains(w) ==> categories.contains(
            crate::text::trimmed(w),
        ) {
            assert forall|i: int| 0 <= i < p.len() implies categories.contains(
                crate::text::trimmed(#[trigger] p[i]),
            ) by {
                assert(p.contains(p[i]));
            }
        }
    }
}

/// A filter by a name lets exactly the books pass that have the name in their
/// list, and an empty one those whose list is empty; the same goes for a text
/// that a book may have.
pub proof fn name_filter_is_exact(
    entries: Seq<Seq<char>>,
    o: Option<Seq<char>>,
    value: Seq<char>,
)
    ensures
        value.len() > 0 ==> (entry_matches(entries, value) <==> exists|i: int|
            0 <= i < entries.len() && #[trigger] entries[i] == value),
        value.len() == 0 ==> (entry_matches(entries, value) <==> entries.len() == 0),
        value.len() > 0 ==> (option_matches(o, value) <==> (o matches Some(s) && s == value)),
        value.len() == 0 ==> (option_matches(o, value) <==> o is None),
{
}

/// Where a page begins: a place behind the end of the list is moved to the
/// beginning of the last page.
pub open spec fn page_start(from: int, page_size: int, total: int) -> int {
    if page_size > 0 && from >= total && total > 0 {
        ((total - 1) / page_size) * page_size
    } else {
        from
    }
}

/// Where a page begins.
pub fn clamp_from(from: usize, page_size: usize, total: usize) -> (r: usize)
    ensures
        r == page_start(from as int, page_size as int, total as int),
{
    if page_size > 0 && from >= total && total > 0 {
        let pages: usize = (total - 1) / page_size;
        assert(pages * page_size <= total - 1) by (nonlinear_arith)
            requires
                pages == (total - 1) / (page_size as int),
                page_size > 0,
                total > 0,
        ;
        pages * page_size
    } else {
        from
    }
}

/// A page of a list that is not empty begins inside it, unless the page is
/// without limit: what was asked for where that lies inside, else the beginning
/// of the last page.
pub proof fn page_starts_inside(from: int, page_size: int, total: int)
    requires
        0 <= from,
        0 < page_size,
        0 < total,
    ensures
        0 <= page_start(from, page_size, total) < total,
        from < total ==> page_start(from, page_size, total) == from,
        from >= total ==> page_start(from, page_size, total) % page_size == 0 && total - page_start(
            from,
            page_size,
            total,
        ) <= page_size,
{
    if from >= total {
        let q = (total - 1) / page_size;
        assert(0 <= q * page_size <= total - 1 && total - 1 < q * page_size + page_size)
            by (nonlinear_arith)
            requires
                q == (total - 1) / page_size,
                page_size > 0,
                total > 0,
        ;
        assert((q * page_size) % page_size == 0) by (nonlinear_arith)
            requires
                page_size > 0,
        ;
    }
}

/// The part of a list from a place on, at most so many items long.
pub open spec fn part_of<T>(s: Seq<T>, from: int, limit: int) -> Seq<T> {
    let a = if from < s.len() {
        from
    } else {
        s.len() as int
    };
    let b = if a + limit < s.len() {
        a + limit
    } else {
        s.len() as int
    };
    s.subrange(a, b)
}

/// Where a part of a list ends.
pub fn part_bounds(len: usize, from: usize, limit: usize) -> (r: (usize, usize))
    ensures
        r.0 <= r.1 <= len,
        r.0 == (if from < len {
            from
        } else {
            len
        }),
        r.1 == (if r.0 + limit < len {
            (r.0 + limit) as usize
        } else {
            len
        }),
{
    let a: usize = if from < len {
        from
    } else {
        len
    };
    let b: usize = if limit < len - a {
        a + limit
    } else {
        len
    };
    (a, b)
}

/// A page is the part of the list from its first place on: no longer than its
/// limit, shorter only at the end of the list, and with what stands there in
/// the list.
pub proof fn page_is_part_of_list<T>(s: Seq<T>, from: int, limit: int)
    requires
        0 <= from,
        0 <= limit,
    ensures
        part_of(s, from, limit).len() == (if from >= s.len() {
            0int
        } else if s.len() - from < limit {
            s.len() - from
        } else {
            limit
        }),
        forall|i: int|
            0 <= i < part_of(s, from, limit).len() ==> #[trigger] part_of(s, from, limit)[i] == s[from
                + i],
{
}

/// Two pages one behind the other are the page of double the length: nothing is
/// left out between them and nothing is shown twice.
pub proof fn pages_follow_each_other<T>(s: Seq<T>, from: int, limit: int)
    requires
        0 <= from,
        0 <= limit,
    ensures
        part_of(s, from, limit) + part_of(s, from + limit, limit) == part_of(s, from, 2 * limit),
{
    page_is_part_of_list(s, from, limit);
    page_is_part_of_list(s, from + limit, limit);
    page_is_part_of_list(s, from, 2 * limit);
    assert(part_of(s, from, limit) + part_of(s, from + limit, limit) =~= part_of(
        s,
        from,
        2 * limit,
    ));
}

/// A page without limit, and a page of an empty list, begin where they were
/// asked to.
pub proof fn unlimited_page_starts_as_asked(from: int, page_size: int, total: int)
    requires
        page_size == 0 || total == 0,
    ensures
        page_start(from, page_size, total) == from,
{
}

} // verus!
