//! The list of torrents: which are shown, in what order, and what of each.
use vstd::prelude::*;
use vstd::string::*;

use crate::model::{
    ClientStatus, LibraryMismatch, MetaView, MetadataSource, MismatchView, Series, SeriesView,
    Torrent, TorrentView,
};
use crate::order::{
    order_i128, order_i64, order_text, order_texts, order_u64, stable_order, Order,
};
use crate::outside::best_match_score;
use crate::text::{clone_option, clone_texts, same_text};
use crate::web::filter::{
    clamp_from, has_series, match_categories, match_category, match_entry, match_flags,
    match_language, match_option, part_bounds,
};
use crate::web::types::{
    RowMetaView, RowView, SeriesText, TorrentLibraryMismatch, TorrentsData, TorrentsMeta,
    TorrentsPageColumns, TorrentsPageFilter, TorrentsPageSort, TorrentsRow,
};

verus! {

/// A condition on torrents. `language` is the place, in the list of languages,
/// of the language that the value stands for.
#[derive(Debug, PartialEq)]
pub struct TorrentsFilter {
    pub field: TorrentsPageFilter,
    pub value: String,
    pub language: Option<u64>,
}

#[verifier::ext_equal]
pub struct FilterView {
    pub field: TorrentsPageFilter,
    pub value: Seq<char>,
    pub language: Option<u64>,
}

impl View for TorrentsFilter {
    type V = FilterView;

    open spec fn view(&self) -> FilterView {
        FilterView { field: self.field, value: self.value@, language: self.language }
    }
}

/// The finding on a book's place is of the kind that the value names, or names
/// the path that the value gives. An empty value asks for any finding.
pub open spec fn mismatch_matches(m: Option<MismatchView>, value: Seq<char>) -> bool {
    if value.len() == 0 {
        m is Some
    } else {
        match m {
            Some(MismatchView::NewLibraryDir(p)) => value == "new_library"@ || value == p,
            Some(MismatchView::NewPath(p)) => value == "new_path"@ || value == p,
            Some(MismatchView::NoLibrary) => value == "no_library"@,
            None => false,
        }
    }
}

pub open spec fn source_matches(source: MetadataSource, value: Seq<char>) -> bool {
    match source {
        MetadataSource::Mam => value == "mam"@,
        MetadataSource::Manual => value == "manual"@,
        MetadataSource::File => value == "file"@,
        MetadataSource::Match => value == "match"@,
    }
}

/// Some service's name or identifier is the value. An empty value asks for any
/// identifier.
pub open spec fn ids_match(ids: Map<Seq<char>, Seq<char>>, value: Seq<char>) -> bool {
    if value.len() == 0 {
        ids != Map::<Seq<char>, Seq<char>>::empty()
    } else {
        exists|k: Seq<char>| #[trigger] ids.contains_key(k) && (k == value || ids[k] == value)
    }
}

/// The torrent meets the condition. `abs` is the name under which the book's
/// identifier at Audiobookshelf is kept.
pub open spec fn filter_matches(t: TorrentView, f: FilterView, abs: Seq<char>) -> bool {
    let value = f.value;
    match f.field {
        TorrentsPageFilter::Kind => t.meta.media_type.1 == value,
        TorrentsPageFilter::Category => crate::web::filter::category_matches(t.meta.cat, value),
        TorrentsPageFilter::Categories => crate::web::filter::categories_match(
            t.meta.categories,
            value,
        ),
        TorrentsPageFilter::Flags => crate::web::filter::flags_match(t.meta.flags, value),
        TorrentsPageFilter::Title => t.meta.title == value,
        TorrentsPageFilter::Author => crate::web::filter::entry_matches(t.meta.authors, value),
        TorrentsPageFilter::Narrator => crate::web::filter::entry_matches(t.meta.narrators, value),
        TorrentsPageFilter::Series => crate::web::filter::entry_matches(
            crate::web::filter::series_names(t.meta.series),
            value,
        ),
        TorrentsPageFilter::Language => crate::web::filter::language_matches(
            t.meta.language,
            value,
            f.language,
        ),
        TorrentsPageFilter::Filetype => t.meta.filetypes.contains(value),
        TorrentsPageFilter::Linker => crate::web::filter::option_matches(t.linker, value),
        TorrentsPageFilter::QbitCategory => crate::web::filter::option_matches(t.category, value),
        TorrentsPageFilter::Linked => t.library_path is Some == (value == "true"@),
        TorrentsPageFilter::LibraryMismatch => mismatch_matches(t.library_mismatch, value),
        TorrentsPageFilter::ClientStatus => match t.client_status {
            Some(ClientStatus::NotInClient) => value == "not_in_client"@,
            Some(ClientStatus::RemovedFromTracker) => value == "removed_from_tracker"@,
            None => false,
        },
        TorrentsPageFilter::Abs => t.meta.ids.contains_key(abs) == (value == "true"@),
        TorrentsPageFilter::Query => true,
        TorrentsPageFilter::Source => source_matches(t.meta.source, value),
        TorrentsPageFilter::Metadata => ids_match(t.meta.ids, value),
    }
}

fn match_mismatch(m: &Option<LibraryMismatch>, value: &str) -> (r: bool)
    ensures
        r == mismatch_matches(crate::model::mismatch_of(*m), value@),
{
    if value.unicode_len() == 0 {
        return m.is_some();
    }
    match m {
        Some(LibraryMismatch::NewLibraryDir(p)) => same_text(value, "new_library") || same_text(
            value,
            p.as_str(),
        ),
        Some(LibraryMismatch::NewPath(p)) => same_text(value, "new_path") || same_text(
            value,
            p.as_str(),
        ),
        Some(LibraryMismatch::NoLibrary) => same_text(value, "no_library"),
        None => false,
    }
}

fn match_source(source: MetadataSource, value: &str) -> (r: bool)
    ensures
        r == source_matches(source, value@),
{
    match source {
        MetadataSource::Mam => same_text(value, "mam"),
        MetadataSource::Manual => same_text(value, "manual"),
        MetadataSource::File => same_text(value, "file"),
        MetadataSource::Match => same_text(value, "match"),
    }
}

/// Whether a torrent meets a condition. `abs` is the name under which a book's
/// identifier at Audiobookshelf is kept.
pub fn matches_filter(t: &Torrent, filter: &TorrentsFilter, abs: &str) -> (r: bool)
    ensures
        r == filter_matches(t@, filter@, abs@),
{
    let value = filter.value.as_str();
    match filter.field {
        TorrentsPageFilter::Kind => same_text(t.meta.media_type.name.as_str(), value),
        TorrentsPageFilter::Category => match_category(&t.meta, value),
        TorrentsPageFilter::Categories => match_categories(&t.meta, value),
        TorrentsPageFilter::Flags => match_flags(&t.meta, value),
        TorrentsPageFilter::Title => same_text(t.meta.title.as_str(), value),
        TorrentsPageFilter::Author => match_entry(&t.meta.authors, value),
        TorrentsPageFilter::Narrator => match_entry(&t.meta.narrators, value),
        TorrentsPageFilter::Series => {
            if value.unicode_len() == 0 {
                t.meta.series.len() == 0
            } else {
                has_series(&t.meta.series, value)
            }
        },
        TorrentsPageFilter::Language => match_language(&t.meta.language, value, filter.language),
        TorrentsPageFilter::Filetype => crate::text::has_entry(&t.meta.filetypes, value),
        TorrentsPageFilter::Linker => match_option(&t.linker, value),
        TorrentsPageFilter::QbitCategory => match_option(&t.category, value),
        TorrentsPageFilter::Linked => t.library_path.is_some() == same_text(value, "true"),
        TorrentsPageFilter::LibraryMismatch => match_mismatch(&t.library_mismatch, value),
        TorrentsPageFilter::ClientStatus => match t.client_status {
            Some(ClientStatus::NotInClient) => same_text(value, "not_in_client"),
            Some(ClientStatus::RemovedFromTracker) => same_text(value, "removed_from_tracker"),
            None => false,
        },
        TorrentsPageFilter::Abs => t.meta.ids.contains_key(abs) == same_text(value, "true"),
        TorrentsPageFilter::Query => true,
        TorrentsPageFilter::Source => match_source(t.meta.source, value),
        TorrentsPageFilter::Metadata => {
            if value.unicode_len() == 0 {
                !t.meta.ids.is_empty()
            } else {
                t.meta.ids.mentions(value)
            }
        },
    }
}

pub open spec fn filters_of(v: Seq<TorrentsFilter>) -> Seq<FilterView> {
    v.map_values(|f: TorrentsFilter| f@)
}

/// The torrent meets all the conditions.
pub open spec fn all_match(t: TorrentView, filters: Seq<FilterView>, abs: Seq<char>) -> bool {
    forall|i: int| 0 <= i < filters.len() ==> filter_matches(t, #[trigger] filters[i], abs)
}

fn matches_all(t: &Torrent, filters: &Vec<TorrentsFilter>, abs: &str) -> (r: bool)
    ensures
        r == all_match(t@, filters_of(filters@), abs@),
{
    let ghost all = filters_of(filters@);
    let mut i: usize = 0;
    while i < filters.len()
        invariant
            i <= filters@.len(),
            all == filters_of(filters@),
            forall|k: int| 0 <= k < i ==> filter_matches(t@, #[trigger] all[k], abs@),
        decreases filters@.len() - i,
    {
        if !matches_filter(t, &filters[i], abs) {
            assert(!filter_matches(t@, all[i as int], abs@));
            return false;
        }
        i = i + 1;
    }
    true
}

/// The text that is searched for: the first search condition that is not empty,
/// from `i` on.
pub open spec fn query_from(filters: Seq<FilterView>, i: int) -> Option<Seq<char>>
    decreases filters.len() - i,
{
    if i < 0 || i >= filters.len() {
        None
    } else if filters[i].field == TorrentsPageFilter::Query && filters[i].value.len() > 0 {
        Some(filters[i].value)
    } else {
        query_from(filters, i + 1)
    }
}

fn find_query(filters: &Vec<TorrentsFilter>) -> (r: Option<String>)
    ensures
        crate::text::text_of(r) == query_from(filters_of(filters@), 0),
{
    let ghost all = filters_of(filters@);
    let mut i: usize = 0;
    while i < filters.len()
        invariant
            i <= filters@.len(),
            all == filters_of(filters@),
            query_from(all, 0) == query_from(all, i as int),
        decreases filters@.len() - i,
    {
        if filters[i].field == TorrentsPageFilter::Query && filters[i].value.as_str().unicode_len()
            > 0 {
            return Some(filters[i].value.clone());
        }
        i = i + 1;
    }
    None
}

/// How well a text fits a search; one that does not match fits with 0.
pub open spec fn fit(query: Seq<char>, target: Seq<char>) -> int {
    match crate::outside::best_score(query, target) {
        Some(s) => s,
        None => 0,
    }
}

/// How well a text fits a search, where its best match has the given score.
pub fn score_of(found: Option<isize>) -> (r: isize)
    ensures
        r == (match found {
            Some(s) => s,
            None => 0isize,
        }),
{
    match found {
        Some(s) => s,
        None => 0,
    }
}

/// How well a text fits a search.
pub fn fuzzy_score(query: &str, target: &str) -> (r: isize)
    requires
        crate::outside::is_searchable(query@),
        crate::outside::is_search_text(target@),
    ensures
        r == fit(query@, target@),
{
    score_of(best_match_score(query, target))
}

/// The least score with which a book is found.
pub const MIN_FIT: i128 = 10;

/// Whether a book with the given score is found.
pub fn is_found(score: i128) -> (r: bool)
    ensures
        r == (score >= MIN_FIT),
{
    score >= MIN_FIT
}

/// The order in which books with the given scores are listed: the best first,
/// and among equals the earlier one.
pub open spec fn score_order(scores: Seq<i128>) -> spec_fn(int, int) -> Order {
    |i: int, j: int| crate::order::int_order(-scores[i], -scores[j])
}

/// The places of the scores, the best score first.
pub fn best_first(scores: &Vec<i128>) -> (r: Vec<usize>)
    ensures
        crate::order::is_stable_order(r@, 0, scores@.len() as int, score_order(scores@)),
{
    let n: usize = scores.len();
    let ghost c = score_order(scores@);
    proof {
        crate::order::lemma_int_ordering();
        let ints = |a: int, b: int| crate::order::int_order(a, b);
        let key = |i: int| -scores@[i];
        crate::order::lemma_key_ordering(ints, key);
        assert(c =~= (|i: int, j: int| ints(key(i), key(j))));
    }
    let f = |i: usize, j: usize| -> (o: Order)
        requires
            i < n,
            j < n,
            n == scores@.len(),
        ensures
            o == crate::order::int_order(-scores@[i as int], -scores@[j as int]),
        { order_i128(scores[j], scores[i]) };
    stable_order(n, f, Ghost(c))
}

/// How well all the texts together fit a search.
pub open spec fn total_fit(query: Seq<char>, targets: Seq<Seq<char>>) -> int
    decreases targets.len(),
{
    if targets.len() == 0 {
        0
    } else {
        total_fit(query, targets.drop_last()) + fit(query, targets.last())
    }
}

/// The texts of a book that a search looks at: the title, and those of the
/// names that are shown.
pub open spec fn searched_texts(meta: MetaView, show: TorrentsPageColumns) -> Seq<Seq<char>> {
    seq![meta.title] + (if show.authors {
        meta.authors
    } else {
        seq![]
    }) + (if show.narrators {
        meta.narrators
    } else {
        seq![]
    }) + (if show.series {
        crate::web::filter::series_names(meta.series)
    } else {
        seq![]
    })
}

proof fn lemma_total_fit_add(query: Seq<char>, a: Seq<Seq<char>>, b: Seq<Seq<char>>)
    ensures
        total_fit(query, a + b) == total_fit(query, a) + total_fit(query, b),
    decreases b.len(),
{
    if b.len() == 0 {
        assert(a + b == a);
    } else {
        lemma_total_fit_add(query, a, b.drop_last());
        assert((a + b).drop_last() == a + b.drop_last());
        assert((a + b).last() == b.last());
    }
}

/// The texts that a search looks at are few enough to be counted, and short
/// enough to be searched in.
pub open spec fn can_be_searched(meta: MetaView, show: TorrentsPageColumns) -> bool {
    let all = searched_texts(meta, show);
    &&& all.len() <= usize::MAX
    &&& forall|i: int| 0 <= i < all.len() ==> crate::outside::is_search_text(#[trigger] all[i])
}

/// A part of the texts that a search looks at: it follows those before it.
proof fn lemma_shown_names(
    meta: MetaView,
    show: TorrentsPageColumns,
    before: Seq<Seq<char>>,
    names: Seq<Seq<char>>,
)
    requires
        can_be_searched(meta, show),
        before.len() + names.len() <= searched_texts(meta, show).len(),
        searched_texts(meta, show).subrange(before.len() as int, (before.len() + names.len()) as int)
            == names,
    ensures
        before.len() + names.len() <= usize::MAX,
        forall|i: int|
            0 <= i < names.len() ==> crate::outside::is_search_text(#[trigger] names[i]),
{
    let all = searched_texts(meta, show);
    assert forall|i: int| 0 <= i < names.len() implies crate::outside::is_search_text(
        #[trigger] names[i],
    ) by {
        assert(names[i] == all[before.len() + i]);
    }
}

fn score_texts(query: &str, targets: &Vec<String>, start: i128, counted: u128) -> (r: i128)
    requires
        crate::outside::is_searchable(query@),
        forall|i: int|
            0 <= i < targets@.len() ==> crate::outside::is_search_text(
                #[trigger] crate::text::texts(targets@)[i],
            ),
        counted + targets@.len() <= usize::MAX,
        -(counted * 0x8000_0000_0000_0000) <= start <= counted * 0x8000_0000_0000_0000,
    ensures
        r == start + total_fit(query@, crate::text::texts(targets@)),
        -((counted + targets@.len()) * 0x8000_0000_0000_0000) <= r <= (counted + targets@.len())
            * 0x8000_0000_0000_0000,
{
    let ghost all = crate::text::texts(targets@);
    let mut r: i128 = start;
    let mut i: usize = 0;
    assert(total_fit(query@, all.take(0)) == 0);
    while i < targets.len()
        invariant
            i <= targets@.len(),
            all == crate::text::texts(targets@),
            crate::outside::is_searchable(query@),
            forall|k: int|
                0 <= k < targets@.len() ==> crate::outside::is_search_text(#[trigger] all[k]),
            counted + targets@.len() <= usize::MAX,
            r == start + total_fit(query@, all.take(i as int)),
            -((counted + i) * 0x8000_0000_0000_0000) <= r <= (counted + i) * 0x8000_0000_0000_0000,
        decreases targets@.len() - i,
    {
        assert(all[i as int] == targets@[i as int]@);
        let s: isize = fuzzy_score(query, targets[i].as_str());
        assert(all.take(i + 1).drop_last() == all.take(i as int));
        assert(all.take(i + 1).last() == targets@[i as int]@);
        r = r + s as i128;
        i = i + 1;
    }
    assert(all.take(i as int) == all);
    r
}

fn series_name_list(series: &Vec<Series>) -> (r: Vec<String>)
    ensures
        crate::text::texts(r@) == crate::web::filter::series_names(
            crate::model::series_of(series@),
        ),
{
    let ghost names = crate::web::filter::series_names(crate::model::series_of(series@));
    let mut r: Vec<String> = Vec::new();
    let mut i: usize = 0;
    while i < series.len()
        invariant
            i <= series@.len(),
            names == crate::web::filter::series_names(crate::model::series_of(series@)),
            crate::text::texts(r@) == names.take(i as int),
        decreases series@.len() - i,
    {
        let ghost before = crate::text::texts(r@);
        r.push(series[i].name.clone());
        assert(crate::text::texts(r@) == before.push(names[i as int]));
        assert(names.take(i + 1) == names.take(i as int).push(names[i as int]));
        i = i + 1;
    }
    assert(names.take(i as int) == names);
    r
}

/// How well a book fits a search.
pub fn search_score(query: &str, t: &Torrent, show: TorrentsPageColumns) -> (r: i128)
    requires
        crate::outside::is_searchable(query@),
        can_be_searched(t@.meta, show),
    ensures
        r == total_fit(query@, searched_texts(t@.meta, show)),
{
    let ghost q = query@;
    let ghost m = t@.meta;
    let ghost all = searched_texts(m, show);
    assert(all[0] == m.title);
    let s: isize = fuzzy_score(query, t.meta.title.as_str());
    let mut r: i128 = s as i128;
    let mut n: u128 = 1;
    let ghost mut seen: Seq<Seq<char>> = seq![m.title];
    proof {
        assert(seen.drop_last() == Seq::<Seq<char>>::empty());
        assert(total_fit(q, seen.drop_last()) == 0);
        assert(total_fit(q, seen) == s);
    }
    if show.authors {
        proof {
            let part = m.authors;
            assert(all.subrange(seen.len() as int, (seen.len() + part.len()) as int) =~= part);
            lemma_shown_names(m, show, seen, part);
        }
        r = score_texts(query, &t.meta.authors, r, n);
        n = n + t.meta.authors.len() as u128;
        proof {
            lemma_total_fit_add(q, seen, m.authors);
            seen = seen + m.authors;
        }
    } else {
        proof {
            assert(seen + Seq::<Seq<char>>::empty() == seen);
        }
    }
    if show.narrators {
        proof {
            let part = m.narrators;
            assert(all.subrange(seen.len() as int, (seen.len() + part.len()) as int) =~= part);
            lemma_shown_names(m, show, seen, part);
        }
        r = score_texts(query, &t.meta.narrators, r, n);
        n = n + t.meta.narrators.len() as u128;
        proof {
            lemma_total_fit_add(q, seen, m.narrators);
            seen = seen + m.narrators;
        }
    } else {
        proof {
            assert(seen + Seq::<Seq<char>>::empty() == seen);
        }
    }
    if show.series {
        let names = series_name_list(&t.meta.series);
        assert(crate::text::texts(names@).len() == names@.len());
        assert(names@.len() == m.series.len());
        proof {
            let part = crate::web::filter::series_names(m.series);
            assert(all.subrange(seen.len() as int, (seen.len() + part.len()) as int) =~= part);
            lemma_shown_names(m, show, seen, part);
        }
        r = score_texts(query, &names, r, n);
        proof {
            lemma_total_fit_add(q, seen, crate::web::filter::series_names(m.series));
            seen = seen + crate::web::filter::series_names(m.series);
        }
    } else {
        proof {
            assert(seen + Seq::<Seq<char>>::empty() == seen);
        }
    }
    assert(seen == searched_texts(m, show));
    r
}

/// Editions by their number, then by their name.
pub open spec fn edition_order(a: Option<(Seq<char>, u64)>, b: Option<(Seq<char>, u64)>) -> Order {
    crate::order::first_of(
        crate::order::option_order(
            a,
            b,
            |x: (Seq<char>, u64), y: (Seq<char>, u64)|
                crate::order::int_order(x.1 as int, y.1 as int),
        ),
        crate::order::option_order(
            a,
            b,
            |x: (Seq<char>, u64), y: (Seq<char>, u64)|
                crate::order::first_of(
                    crate::order::text_order(x.0, y.0),
                    crate::order::int_order(x.1 as int, y.1 as int),
                ),
        ),
    )
}

/// Lists of series by the places of the series.
pub open spec fn series_order(a: Seq<SeriesView>, b: Seq<SeriesView>) -> Order {
    crate::order::lex(
        a,
        b,
        |x: SeriesView, y: SeriesView| crate::order::int_order(x.rank as int, y.rank as int),
    )
}

pub open spec fn optional_text_order(a: Option<Seq<char>>, b: Option<Seq<char>>) -> Order {
    crate::order::option_order(a, b, |x: Seq<char>, y: Seq<char>| crate::order::text_order(x, y))
}

pub open spec fn term_order(a: Option<(u64, Seq<char>)>, b: Option<(u64, Seq<char>)>) -> Order {
    crate::order::option_order(
        a,
        b,
        |x: (u64, Seq<char>), y: (u64, Seq<char>)|
            crate::order::int_order(x.0 as int, y.0 as int),
    )
}

pub open spec fn time_order(a: Option<i64>, b: Option<i64>) -> Order {
    crate::order::option_order(a, b, |x: i64, y: i64| crate::order::int_order(x as int, y as int))
}

pub open spec fn category_order(
    a: Option<crate::model::OldCategoryView>,
    b: Option<crate::model::OldCategoryView>,
) -> Order {
    crate::order::option_order(
        a,
        b,
        |x: crate::model::OldCategoryView, y: crate::model::OldCategoryView|
            crate::order::int_order(x.rank as int, y.rank as int),
    )
}

/// The order of two torrents by a column.
pub open spec fn column_order(sort: TorrentsPageSort, a: TorrentView, b: TorrentView) -> Order {
    match sort {
        TorrentsPageSort::Kind => crate::order::int_order(
            a.meta.media_type.0 as int,
            b.meta.media_type.0 as int,
        ),
        TorrentsPageSort::Category => category_order(a.meta.cat, b.meta.cat),
        TorrentsPageSort::Title => crate::order::text_order(a.meta.title, b.meta.title),
        TorrentsPageSort::Edition => edition_order(a.meta.edition, b.meta.edition),
        TorrentsPageSort::Authors => crate::order::texts_order(a.meta.authors, b.meta.authors),
        TorrentsPageSort::Narrators => crate::order::texts_order(
            a.meta.narrators,
            b.meta.narrators,
        ),
        TorrentsPageSort::Series => crate::order::first_of(
            series_order(a.meta.series, b.meta.series),
            crate::order::int_order(a.meta.media_type.0 as int, b.meta.media_type.0 as int),
        ),
        TorrentsPageSort::Language => term_order(a.meta.language, b.meta.language),
        TorrentsPageSort::Size => crate::order::int_order(a.meta.size as int, b.meta.size as int),
        TorrentsPageSort::Linker => optional_text_order(a.linker, b.linker),
        TorrentsPageSort::QbitCategory => optional_text_order(a.category, b.category),
        TorrentsPageSort::Linked => crate::order::option_order(
            a.library_path,
            b.library_path,
            |x: Seq<char>, y: Seq<char>| crate::path::path_order(x, y),
        ),
        TorrentsPageSort::CreatedAt => crate::order::int_order(
            a.created_at as int,
            b.created_at as int,
        ),
        TorrentsPageSort::UploadedAt => time_order(a.meta.uploaded_at, b.meta.uploaded_at),
    }
}

/// The order the one way or the other way round.
pub open spec fn directed(o: Order, asc: bool) -> Order {
    if asc {
        o
    } else {
        crate::order::reversed(o)
    }
}

proof fn lemma_edition_ordering()
    ensures
        crate::order::is_ordering(
            |a: Option<(Seq<char>, u64)>, b: Option<(Seq<char>, u64)>| edition_order(a, b),
        ),
{
    crate::order::lemma_int_ordering();
    crate::order::lemma_text_ordering();
    let ints = |a: int, b: int| crate::order::int_order(a, b);
    let words = |a: Seq<char>, b: Seq<char>| crate::order::text_order(a, b);
    let num_key = |e: (Seq<char>, u64)| e.1 as int;
    let name_key = |e: (Seq<char>, u64)| e.0;
    crate::order::lemma_key_ordering(ints, num_key);
    crate::order::lemma_key_ordering(words, name_key);
    let by_num = |x: (Seq<char>, u64), y: (Seq<char>, u64)|
        crate::order::int_order(x.1 as int, y.1 as int);
    let by_name = |x: (Seq<char>, u64), y: (Seq<char>, u64)| crate::order::text_order(x.0, y.0);
    assert(by_num =~= (|x: (Seq<char>, u64), y: (Seq<char>, u64)| ints(num_key(x), num_key(y))));
    assert(by_name =~= (|x: (Seq<char>, u64), y: (Seq<char>, u64)|
        words(name_key(x), name_key(y))));
    crate::order::lemma_first_ordering(by_name, by_num);
    let both = |x: (Seq<char>, u64), y: (Seq<char>, u64)|
        crate::order::first_of(
            crate::order::text_order(x.0, y.0),
            crate::order::int_order(x.1 as int, y.1 as int),
        );
    assert(both =~= (|x: (Seq<char>, u64), y: (Seq<char>, u64)|
        crate::order::first_of(by_name(x, y), by_num(x, y))));
    crate::order::lemma_option_ordering(by_num);
    crate::order::lemma_option_ordering(both);
    let p = |a: Option<(Seq<char>, u64)>, b: Option<(Seq<char>, u64)>|
        crate::order::option_order(a, b, by_num);
    let q = |a: Option<(Seq<char>, u64)>, b: Option<(Seq<char>, u64)>|
        crate::order::option_order(a, b, both);
    crate::order::lemma_first_ordering(p, q);
    let e = |a: Option<(Seq<char>, u64)>, b: Option<(Seq<char>, u64)>| edition_order(a, b);
    assert(e =~= (|a: Option<(Seq<char>, u64)>, b: Option<(Seq<char>, u64)>|
        crate::order::first_of(p(a, b), q(a, b))));
}

pub proof fn lemma_series_ordering()
    ensures
        crate::order::is_ordering(|a: Seq<SeriesView>, b: Seq<SeriesView>| series_order(a, b)),
{
    crate::order::lemma_int_ordering();
    let ints = |a: int, b: int| crate::order::int_order(a, b);
    let key = |s: SeriesView| s.rank as int;
    crate::order::lemma_key_ordering(ints, key);
    let by_rank = |x: SeriesView, y: SeriesView|
        crate::order::int_order(x.rank as int, y.rank as int);
    assert(by_rank =~= (|x: SeriesView, y: SeriesView| ints(key(x), key(y))));
    crate::order::lemma_lex_ordering(by_rank);
    let e = |a: Seq<SeriesView>, b: Seq<SeriesView>| series_order(a, b);
    assert(e =~= (|a: Seq<SeriesView>, b: Seq<SeriesView>| crate::order::lex(a, b, by_rank)));
}

pub proof fn lemma_optional_text_ordering()
    ensures
        crate::order::is_ordering(
            |a: Option<Seq<char>>, b: Option<Seq<char>>| optional_text_order(a, b),
        ),
{
    crate::order::lemma_text_ordering();
    let words = |a: Seq<char>, b: Seq<char>| crate::order::text_order(a, b);
    crate::order::lemma_option_ordering(words);
    let e = |a: Option<Seq<char>>, b: Option<Seq<char>>| optional_text_order(a, b);
    assert(e =~= (|a: Option<Seq<char>>, b: Option<Seq<char>>|
        crate::order::option_order(a, b, words)));
}

pub proof fn lemma_term_ordering()
    ensures
        crate::order::is_ordering(
            |a: Option<(u64, Seq<char>)>, b: Option<(u64, Seq<char>)>| term_order(a, b),
        ),
{
    crate::order::lemma_int_ordering();
    let ints = |a: int, b: int| crate::order::int_order(a, b);
    let key = |s: (u64, Seq<char>)| s.0 as int;
    crate::order::lemma_key_ordering(ints, key);
    let by_rank = |x: (u64, Seq<char>), y: (u64, Seq<char>)|
        crate::order::int_order(x.0 as int, y.0 as int);
    assert(by_rank =~= (|x: (u64, Seq<char>), y: (u64, Seq<char>)| ints(key(x), key(y))));
    crate::order::lemma_option_ordering(by_rank);
    let e = |a: Option<(u64, Seq<char>)>, b: Option<(u64, Seq<char>)>| term_order(a, b);
    assert(e =~= (|a: Option<(u64, Seq<char>)>, b: Option<(u64, Seq<char>)>|
        crate::order::option_order(a, b, by_rank)));
}

proof fn lemma_category_ordering()
    ensures
        crate::order::is_ordering(
            |
                a: Option<crate::model::OldCategoryView>,
                b: Option<crate::model::OldCategoryView>,
            | category_order(a, b),
        ),
{
    crate::order::lemma_int_ordering();
    let ints = |a: int, b: int| crate::order::int_order(a, b);
    let key = |s: crate::model::OldCategoryView| s.rank as int;
    crate::order::lemma_key_ordering(ints, key);
    let by_rank = |x: crate::model::OldCategoryView, y: crate::model::OldCategoryView|
        crate::order::int_order(x.rank as int, y.rank as int);
    assert(by_rank =~= (|x: crate::model::OldCategoryView, y: crate::model::OldCategoryView|
        ints(key(x), key(y))));
    crate::order::lemma_option_ordering(by_rank);
    let e = |
        a: Option<crate::model::OldCategoryView>,
        b: Option<crate::model::OldCategoryView>,
    | category_order(a, b);
    assert(e =~= (|
        a: Option<crate::model::OldCategoryView>,
        b: Option<crate::model::OldCategoryView>,
    | crate::order::option_order(a, b, by_rank)));
}

pub proof fn lemma_time_ordering()
    ensures
        crate::order::is_ordering(|a: Option<i64>, b: Option<i64>| time_order(a, b)),
{
    crate::order::lemma_int_ordering();
    let ints = |a: int, b: int| crate::order::int_order(a, b);
    let key = |s: i64| s as int;
    crate::order::lemma_key_ordering(ints, key);
    let by_time = |x: i64, y: i64| crate::order::int_order(x as int, y as int);
    assert(by_time =~= (|x: i64, y: i64| ints(key(x), key(y))));
    crate::order::lemma_option_ordering(by_time);
    let e = |a: Option<i64>, b: Option<i64>| time_order(a, b);
    assert(e =~= (|a: Option<i64>, b: Option<i64>| crate::order::option_order(a, b, by_time)));
}

proof fn lemma_path_option_ordering()
    ensures
        crate::order::is_ordering(
            |a: Option<Seq<char>>, b: Option<Seq<char>>|
                crate::order::option_order(
                    a,
                    b,
                    |x: Seq<char>, y: Seq<char>| crate::path::path_order(x, y),
                ),
        ),
{
    crate::path::lemma_path_ordering();
    let paths = |x: Seq<char>, y: Seq<char>| crate::path::path_order(x, y);
    crate::order::lemma_option_ordering(paths);
}

/// Sorting by a column is sorting by a total order, whichever the column.
pub proof fn column_order_is_ordering(sort: TorrentsPageSort)
    ensures
        crate::order::is_ordering(|a: TorrentView, b: TorrentView| column_order(sort, a, b)),
{
    let goal = |a: TorrentView, b: TorrentView| column_order(sort, a, b);
    crate::order::lemma_int_ordering();
    let ints = |a: int, b: int| crate::order::int_order(a, b);
    match sort {
        TorrentsPageSort::Kind => {
            let key = |t: TorrentView| t.meta.media_type.0 as int;
            crate::order::lemma_key_ordering(ints, key);
            assert(goal =~= (|a: TorrentView, b: TorrentView| ints(key(a), key(b))));
        },
        TorrentsPageSort::Category => {
            lemma_category_ordering();
            let c = |
                a: Option<crate::model::OldCategoryView>,
                b: Option<crate::model::OldCategoryView>,
            | category_order(a, b);
            let key = |t: TorrentView| t.meta.cat;
            crate::order::lemma_key_ordering(c, key);
            assert(goal =~= (|a: TorrentView, b: TorrentView| c(key(a), key(b))));
        },
        TorrentsPageSort::Title => {
            crate::order::lemma_text_ordering();
            let c = |a: Seq<char>, b: Seq<char>| crate::order::text_order(a, b);
            let key = |t: TorrentView| t.meta.title;
            crate::order::lemma_key_ordering(c, key);
            assert(goal =~= (|a: TorrentView, b: TorrentView| c(key(a), key(b))));
        },
        TorrentsPageSort::Edition => {
            lemma_edition_ordering();
            let c = |a: Option<(Seq<char>, u64)>, b: Option<(Seq<char>, u64)>| edition_order(a, b);
            let key = |t: TorrentView| t.meta.edition;
            crate::order::lemma_key_ordering(c, key);
            assert(goal =~= (|a: TorrentView, b: TorrentView| c(key(a), key(b))));
        },
        TorrentsPageSort::Authors => {
            crate::order::lemma_texts_ordering();
            let c = |a: Seq<Seq<char>>, b: Seq<Seq<char>>| crate::order::texts_order(a, b);
            let key = |t: TorrentView| t.meta.authors;
            crate::order::lemma_key_ordering(c, key);
            assert(goal =~= (|a: TorrentView, b: TorrentView| c(key(a), key(b))));
        },
        TorrentsPageSort::Narrators => {
            crate::order::lemma_texts_ordering();
            let c = |a: Seq<Seq<char>>, b: Seq<Seq<char>>| crate::order::texts_order(a, b);
            let key = |t: TorrentView| t.meta.narrators;
            crate::order::lemma_key_ordering(c, key);
            assert(goal =~= (|a: TorrentView, b: TorrentView| c(key(a), key(b))));
        },
        TorrentsPageSort::Series => {
            lemma_series_ordering();
            let c = |a: Seq<SeriesView>, b: Seq<SeriesView>| series_order(a, b);
            let key = |t: TorrentView| t.meta.series;
            crate::order::lemma_key_ordering(c, key);
            let kind = |t: TorrentView| t.meta.media_type.0 as int;
            crate::order::lemma_key_ordering(ints, kind);
            let p = |a: TorrentView, b: TorrentView| c(key(a), key(b));
            let q = |a: TorrentView, b: TorrentView| ints(kind(a), kind(b));
            crate::order::lemma_first_ordering(p, q);
            assert(goal =~= (|a: TorrentView, b: TorrentView|
                crate::order::first_of(p(a, b), q(a, b))));
        },
        TorrentsPageSort::Language => {
            lemma_term_ordering();
            let c = |a: Option<(u64, Seq<char>)>, b: Option<(u64, Seq<char>)>| term_order(a, b);
            let key = |t: TorrentView| t.meta.language;
            crate::order::lemma_key_ordering(c, key);
            assert(goal =~= (|a: TorrentView, b: TorrentView| c(key(a), key(b))));
        },
        TorrentsPageSort::Size => {
            let key = |t: TorrentView| t.meta.size as int;
            crate::order::lemma_key_ordering(ints, key);
            assert(goal =~= (|a: TorrentView, b: TorrentView| ints(key(a), key(b))));
        },
        TorrentsPageSort::Linker => {
            lemma_optional_text_ordering();
            let c = |a: Option<Seq<char>>, b: Option<Seq<char>>| optional_text_order(a, b);
            let key = |t: TorrentView| t.linker;
            crate::order::lemma_key_ordering(c, key);
            assert(goal =~= (|a: TorrentView, b: TorrentView| c(key(a), key(b))));
        },
        TorrentsPageSort::QbitCategory => {
            lemma_optional_text_ordering();
            let c = |a: Option<Seq<char>>, b: Option<Seq<char>>| optional_text_order(a, b);
            let key = |t: TorrentView| t.category;
            crate::order::lemma_key_ordering(c, key);
            assert(goal =~= (|a: TorrentView, b: TorrentView| c(key(a), key(b))));
        },
        TorrentsPageSort::Linked => {
            lemma_path_option_ordering();
            let c = |a: Option<Seq<char>>, b: Option<Seq<char>>|
                crate::order::option_order(
                    a,
                    b,
                    |x: Seq<char>, y: Seq<char>| crate::path::path_order(x, y),
                );
            let key = |t: TorrentView| t.library_path;
            crate::order::lemma_key_ordering(c, key);
            assert(goal =~= (|a: TorrentView, b: TorrentView| c(key(a), key(b))));
        },
        TorrentsPageSort::CreatedAt => {
            let key = |t: TorrentView| t.created_at as int;
            crate::order::lemma_key_ordering(ints, key);
            assert(goal =~= (|a: TorrentView, b: TorrentView| ints(key(a), key(b))));
        },
        TorrentsPageSort::UploadedAt => {
            lemma_time_ordering();
            let c = |a: Option<i64>, b: Option<i64>| time_order(a, b);
            let key = |t: TorrentView| t.meta.uploaded_at;
            crate::order::lemma_key_ordering(c, key);
            assert(goal =~= (|a: TorrentView, b: TorrentView| c(key(a), key(b))));
        },
    }
}

pub fn order_option_text(a: &Option<String>, b: &Option<String>) -> (r: Order)
    ensures
        r == optional_text_order(crate::text::text_of(*a), crate::text::text_of(*b)),
{
    match (a, b) {
        (None, None) => Order::Equal,
        (None, Some(_)) => Order::Less,
        (Some(_), None) => Order::Greater,
        (Some(x), Some(y)) => order_text(x.as_str(), y.as_str()),
    }
}

pub fn order_term(a: &Option<crate::model::Term>, b: &Option<crate::model::Term>) -> (r: Order)
    ensures
        r == term_order(crate::model::term_of(*a), crate::model::term_of(*b)),
{
    match (a, b) {
        (None, None) => Order::Equal,
        (None, Some(_)) => Order::Less,
        (Some(_), None) => Order::Greater,
        (Some(x), Some(y)) => order_u64(x.rank, y.rank),
    }
}

pub fn order_time(a: &Option<i64>, b: &Option<i64>) -> (r: Order)
    ensures
        r == time_order(*a, *b),
{
    match (a, b) {
        (None, None) => Order::Equal,
        (None, Some(_)) => Order::Less,
        (Some(_), None) => Order::Greater,
        (Some(x), Some(y)) => order_i64(*x, *y),
    }
}

pub fn order_series(a: &Vec<Series>, b: &Vec<Series>) -> (r: Order)
    ensures
        r == series_order(crate::model::series_of(a@), crate::model::series_of(b@)),
{
    let ghost x = crate::model::series_of(a@);
    let ghost y = crate::model::series_of(b@);
    let ghost c = |x: SeriesView, y: SeriesView|
        crate::order::int_order(x.rank as int, y.rank as int);
    let mut i: usize = 0;
    assert(x.skip(0) == x && y.skip(0) == y);
    while i < a.len() && i < b.len()
        invariant
            x == crate::model::series_of(a@),
            y == crate::model::series_of(b@),
            c == (|x: SeriesView, y: SeriesView|
                crate::order::int_order(x.rank as int, y.rank as int)),
            i <= x.len(),
            i <= y.len(),
            crate::order::lex(x, y, c) == crate::order::lex(x.skip(i as int), y.skip(i as int), c),
        decreases x.len() - i,
    {
        assert(x.skip(i as int).skip(1) == x.skip(i + 1));
        assert(y.skip(i as int).skip(1) == y.skip(i + 1));
        let o = order_u64(a[i].rank, b[i].rank);
        assert(o == c(x[i as int], y[i as int]));
        match o {
            Order::Equal => {},
            o => {
                return o;
            },
        }
        i = i + 1;
    }
    if i < b.len() {
        Order::Less
    } else if i < a.len() {
        Order::Greater
    } else {
        Order::Equal
    }
}

fn order_edition(a: &Option<(String, u64)>, b: &Option<(String, u64)>) -> (r: Order)
    ensures
        r == edition_order(crate::model::edition_of(*a), crate::model::edition_of(*b)),
{
    match (a, b) {
        (None, None) => Order::Equal,
        (None, Some(_)) => Order::Less,
        (Some(_), None) => Order::Greater,
        (Some(x), Some(y)) => {
            let by_number = order_u64(x.1, y.1);
            by_number.or_else(order_text(x.0.as_str(), y.0.as_str()).or_else(by_number))
        },
    }
}

/// Compares two torrents by a column.
pub fn order_by_column(sort: TorrentsPageSort, a: &Torrent, b: &Torrent) -> (r: Order)
    ensures
        r == column_order(sort, a@, b@),
{
    match sort {
        TorrentsPageSort::Kind => order_u64(a.meta.media_type.rank, b.meta.media_type.rank),
        TorrentsPageSort::Category => match (&a.meta.cat, &b.meta.cat) {
            (None, None) => Order::Equal,
            (None, Some(_)) => Order::Less,
            (Some(_), None) => Order::Greater,
            (Some(x), Some(y)) => order_u64(x.rank, y.rank),
        },
        TorrentsPageSort::Title => order_text(a.meta.title.as_str(), b.meta.title.as_str()),
        TorrentsPageSort::Edition => order_edition(&a.meta.edition, &b.meta.edition),
        TorrentsPageSort::Authors => order_texts(&a.meta.authors, &b.meta.authors),
        TorrentsPageSort::Narrators => order_texts(&a.meta.narrators, &b.meta.narrators),
        TorrentsPageSort::Series => order_series(&a.meta.series, &b.meta.series).or_else(
            order_u64(a.meta.media_type.rank, b.meta.media_type.rank),
        ),
        TorrentsPageSort::Language => order_term(&a.meta.language, &b.meta.language),
        TorrentsPageSort::Size => order_u64(a.meta.size, b.meta.size),
        TorrentsPageSort::Linker => order_option_text(&a.linker, &b.linker),
        TorrentsPageSort::QbitCategory => order_option_text(&a.category, &b.category),
        TorrentsPageSort::Linked => match (&a.library_path, &b.library_path) {
            (None, None) => Order::Equal,
            (None, Some(_)) => Order::Less,
            (Some(_), None) => Order::Greater,
            (Some(x), Some(y)) => x.order(y),
        },
        TorrentsPageSort::CreatedAt => order_i64(a.created_at, b.created_at),
        TorrentsPageSort::UploadedAt => order_time(&a.meta.uploaded_at, &b.meta.uploaded_at),
    }
}

/// What is shown of a torrent in words that come from the catalogue: its flags,
/// its size and its dates.
#[derive(Debug, PartialEq)]
pub struct RowTexts {
    pub flags: Vec<String>,
    pub size: String,
    pub created_at: String,
    pub uploaded_at: String,
}

/// A torrent's record, with what is shown of it in the catalogue's words.
pub struct StoredTorrent {
    pub torrent: Torrent,
    pub texts: RowTexts,
}

/// What is shown of a client status.
pub open spec fn status_text_of(status: Option<ClientStatus>) -> Option<Seq<char>> {
    match status {
        Some(ClientStatus::RemovedFromTracker) => Some("removed_from_tracker"@),
        Some(ClientStatus::NotInClient) => Some("not_in_client"@),
        None => None,
    }
}

/// What is shown of a torrent.
pub open spec fn torrent_row(t: TorrentView, texts: RowTexts, abs: Seq<char>) -> RowView {
    RowView {
        id: t.id,
        mam_id: t.mam_id,
        meta: RowMetaView {
            title: t.meta.title,
            media_type: t.meta.media_type.1,
            cat_name: match t.meta.cat {
                Some(c) => c.name,
                None => "N/A"@,
            },
            cat_id: match t.meta.cat {
                Some(c) => Some(c.id),
                None => None,
            },
            categories: t.meta.categories,
            flags: crate::text::texts(texts.flags@),
            edition: match t.meta.edition {
                Some(e) => Some(e.0),
                None => None,
            },
            authors: t.meta.authors,
            narrators: t.meta.narrators,
            series: t.meta.series.map_values(|s: SeriesView| (s.name, s.entries)),
            language: match t.meta.language {
                Some(l) => Some(l.1),
                None => None,
            },
            size: texts.size@,
            filetypes: t.meta.filetypes,
        },
        linker: t.linker,
        category: t.category,
        library_path: t.library_path,
        library_mismatch: t.library_mismatch,
        client_status: status_text_of(t.client_status),
        linked: t.library_path is Some,
        created_at: texts.created_at@,
        uploaded_at: texts.uploaded_at@,
        abs_id: if t.meta.ids.contains_key(abs) {
            Some(t.meta.ids[abs])
        } else {
            None
        },
    }
}

/// The series as they are shown.
pub fn series_texts(series: &Vec<Series>) -> (r: Vec<SeriesText>)
    ensures
        r@.map_values(|s: SeriesText| crate::web::types::series_text(s))
            == crate::model::series_of(series@).map_values(|s: SeriesView| (s.name, s.entries)),
{
    let ghost want = crate::model::series_of(series@).map_values(
        |s: SeriesView| (s.name, s.entries),
    );
    let mut r: Vec<SeriesText> = Vec::new();
    let mut i: usize = 0;
    while i < series.len()
        invariant
            i <= series@.len(),
            want == crate::model::series_of(series@).map_values(
                |s: SeriesView| (s.name, s.entries),
            ),
            r@.map_values(|s: SeriesText| crate::web::types::series_text(s)) == want.take(i as int),
        decreases series@.len() - i,
    {
        let ghost before = r@.map_values(|s: SeriesText| crate::web::types::series_text(s));
        let s = SeriesText { name: series[i].name.clone(), entries: series[i].entries.clone() };
        r.push(s);
        assert(r@.map_values(|s: SeriesText| crate::web::types::series_text(s)) == before.push(
            crate::web::types::series_text(s),
        ));
        assert(want.take(i + 1) == want.take(i as int).push(want[i as int]));
        i = i + 1;
    }
    assert(want.take(i as int) == want);
    r
}

/// What is shown of a torrent. `abs` is the name under which a book's
/// identifier at Audiobookshelf is kept.
pub fn convert_torrent_row(t: &Torrent, texts: &RowTexts, abs: &str) -> (r: TorrentsRow)
    ensures
        r@ == torrent_row(t@, *texts, abs@),
{
    let (cat_name, cat_id): (String, Option<String>) = match &t.meta.cat {
        Some(c) => (c.name.clone(), Some(c.id.clone())),
        None => ("N/A".to_owned(), None),
    };
    let client_status: Option<String> = match t.client_status {
        Some(ClientStatus::RemovedFromTracker) => Some("removed_from_tracker".to_owned()),
        Some(ClientStatus::NotInClient) => Some("not_in_client".to_owned()),
        None => None,
    };
    let library_mismatch: Option<TorrentLibraryMismatch> = match &t.library_mismatch {
        Some(LibraryMismatch::NewLibraryDir(p)) => Some(
            TorrentLibraryMismatch::NewLibraryDir(p.as_str().to_owned()),
        ),
        Some(LibraryMismatch::NewPath(p)) => Some(
            TorrentLibraryMismatch::NewPath(p.as_str().to_owned()),
        ),
        Some(LibraryMismatch::NoLibrary) => Some(TorrentLibraryMismatch::NoLibrary),
        None => None,
    };
    let edition: Option<String> = match &t.meta.edition {
        Some(e) => Some(e.0.clone()),
        None => None,
    };
    let language: Option<String> = match &t.meta.language {
        Some(l) => Some(l.name.clone()),
        None => None,
    };
    let library_path: Option<String> = match &t.library_path {
        Some(p) => Some(p.as_str().to_owned()),
        None => None,
    };
    let abs_id: Option<String> = match t.meta.ids.get(abs) {
        Some(id) => Some(id.clone()),
        None => None,
    };
    TorrentsRow {
        id: t.id.clone(),
        mam_id: t.mam_id,
        meta: TorrentsMeta {
            title: t.meta.title.clone(),
            media_type: t.meta.media_type.name.clone(),
            cat_name,
            cat_id,
            categories: clone_texts(&t.meta.categories),
            flags: clone_texts(&texts.flags),
            edition,
            authors: clone_texts(&t.meta.authors),
            narrators: clone_texts(&t.meta.narrators),
            series: series_texts(&t.meta.series),
            language,
            size: texts.size.clone(),
            filetypes: clone_texts(&t.meta.filetypes),
        },
        linker: clone_option(&t.linker),
        category: clone_option(&t.category),
        library_path,
        library_mismatch,
        client_status,
        linked: t.library_path.is_some(),
        created_at: texts.created_at.clone(),
        uploaded_at: texts.uploaded_at.clone(),
        abs_id,
    }
}

/// The row could be read, meets the conditions, and fits the search well
/// enough.
pub open spec fn is_listed(
    row: Option<StoredTorrent>,
    filters: Seq<FilterView>,
    query: Option<Seq<char>>,
    show: TorrentsPageColumns,
    abs: Seq<char>,
) -> bool {
    row matches Some(s) && all_match(s.torrent@, filters, abs) && (query matches Some(q)
        ==> total_fit(q, searched_texts(s.torrent@.meta, show)) >= MIN_FIT)
}

/// The places of the rows that are listed, in order.
pub open spec fn listed_rows(
    rows: Seq<Option<StoredTorrent>>,
    filters: Seq<FilterView>,
    query: Option<Seq<char>>,
    show: TorrentsPageColumns,
    abs: Seq<char>,
) -> Seq<int>
    decreases rows.len(),
{
    if rows.len() == 0 {
        seq![]
    } else {
        let before = listed_rows(rows.drop_last(), filters, query, show, abs);
        if is_listed(rows.last(), filters, query, show, abs) {
            before.push(rows.len() - 1)
        } else {
            before
        }
    }
}

/// What is shown of the rows at the given places.
pub open spec fn shown_rows(
    rows: Seq<Option<StoredTorrent>>,
    places: Seq<int>,
    abs: Seq<char>,
) -> Seq<RowView> {
    places.map_values(|i: int| torrent_row(rows[i].unwrap().torrent@, rows[i].unwrap().texts, abs))
}

/// The order of the listed rows: by a column, or by how well they fit the
/// search, the best first.
pub open spec fn listing_order(
    rows: Seq<Option<StoredTorrent>>,
    places: Seq<int>,
    sort: Option<TorrentsPageSort>,
    asc: bool,
    query: Option<Seq<char>>,
    show: TorrentsPageColumns,
) -> spec_fn(int, int) -> Order {
    |i: int, j: int|
        {
            let a = rows[places[i]].unwrap().torrent@;
            let b = rows[places[j]].unwrap().torrent@;
            match (sort, query) {
                (Some(s), _) => directed(column_order(s, a, b), asc),
                (None, Some(q)) => crate::order::int_order(
                    -total_fit(q, searched_texts(a.meta, show)),
                    -total_fit(q, searched_texts(b.meta, show)),
                ),
                (None, None) => Order::Equal,
            }
        }
}

/// The page without limit shows everything.
pub open spec fn page_limit(page_size: usize) -> int {
    if page_size == 0 {
        usize::MAX as int
    } else {
        page_size as int
    }
}

pub open spec fn rows_of(v: Seq<TorrentsRow>) -> Seq<RowView> {
    v.map_values(|r: TorrentsRow| r@)
}

proof fn lemma_listed_in_range(
    rows: Seq<Option<StoredTorrent>>,
    filters: Seq<FilterView>,
    query: Option<Seq<char>>,
    show: TorrentsPageColumns,
    abs: Seq<char>,
)
    ensures
        forall|k: int|
            0 <= k < listed_rows(rows, filters, query, show, abs).len() ==> 0
                <= #[trigger] listed_rows(rows, filters, query, show, abs)[k] < rows.len()
                && rows[listed_rows(rows, filters, query, show, abs)[k]] is Some,
        listed_rows(rows, filters, query, show, abs).len() <= rows.len(),
    decreases rows.len(),
{
    if rows.len() > 0 {
        let rest = rows.drop_last();
        lemma_listed_in_range(rest, filters, query, show, abs);
        let before = listed_rows(rest, filters, query, show, abs);
        assert forall|k: int| 0 <= k < listed_rows(rows, filters, query, show, abs).len() implies 0
            <= #[trigger] listed_rows(rows, filters, query, show, abs)[k] < rows.len()
            && rows[listed_rows(rows, filters, query, show, abs)[k]] is Some by {
            if k < before.len() {
                assert(listed_rows(rows, filters, query, show, abs)[k] == before[k]);
                assert(rest[before[k]] == rows[before[k]]);
            }
        }
    }
}

#[verifier::spinoff_prover]
#[verifier::rlimit(40)]
proof fn lemma_listing_order(
    rows: Seq<Option<StoredTorrent>>,
    places: Seq<int>,
    sort: Option<TorrentsPageSort>,
    asc: bool,
    query: Option<Seq<char>>,
    show: TorrentsPageColumns,
)
    ensures
        crate::order::is_ordering(listing_order(rows, places, sort, asc, query, show)),
{
    let goal = listing_order(rows, places, sort, asc, query, show);
    let view = |i: int| rows[places[i]].unwrap().torrent@;
    match (sort, query) {
        (Some(s), _) => {
            column_order_is_ordering(s);
            let c = |a: TorrentView, b: TorrentView| column_order(s, a, b);
            crate::order::lemma_reversed_ordering(c);
            let d = |a: TorrentView, b: TorrentView| directed(column_order(s, a, b), asc);
            if asc {
                assert(d =~= c);
            } else {
                assert(d =~= (|a: TorrentView, b: TorrentView| crate::order::reversed(c(a, b))));
            }
            crate::order::lemma_key_ordering(d, view);
            assert(goal =~= (|i: int, j: int| d(view(i), view(j))));
        },
        (None, Some(q)) => {
            crate::order::lemma_int_ordering();
            let c = |a: int, b: int| crate::order::int_order(a, b);
            let key = |i: int| -total_fit(q, searched_texts(view(i).meta, show));
            crate::order::lemma_key_ordering(c, key);
            assert(goal =~= (|i: int, j: int| c(key(i), key(j))));
        },
        (None, None) => {},
    }
}

/// The places of the listed rows, with how well each fits the search.
struct Listed {
    places: Vec<usize>,
    scores: Vec<i128>,
}

pub open spec fn ints_of(v: Seq<usize>) -> Seq<int> {
    v.map_values(|i: usize| i as int)
}

fn list_rows(
    rows: &Vec<Option<StoredTorrent>>,
    filters: &Vec<TorrentsFilter>,
    query: &Option<String>,
    show: TorrentsPageColumns,
    abs: &str,
) -> (r: Listed)
    requires
        query matches Some(q) ==> crate::outside::is_searchable(q@),
        query is Some ==> forall|i: int|
            0 <= i < rows@.len() ==> (#[trigger] rows@[i] matches Some(s) ==> can_be_searched(s.torrent@.meta, show)),
    ensures
        ints_of(r.places@) == listed_rows(
            rows@,
            filters_of(filters@),
            crate::text::text_of(*query),
            show,
            abs@,
        ),
        r.scores@.len() == r.places@.len(),
        query matches Some(q) ==> forall|k: int|
            0 <= k < r.scores@.len() ==> #[trigger] r.scores@[k] == total_fit(
                q@,
                searched_texts(rows@[r.places@[k] as int].unwrap().torrent@.meta, show),
            ),
{
    let ghost fv = filters_of(filters@);
    let ghost qv = crate::text::text_of(*query);
    let mut places: Vec<usize> = Vec::new();
    let mut scores: Vec<i128> = Vec::new();
    let mut i: usize = 0;
    assert(ints_of(places@) == listed_rows(rows@.take(0), fv, qv, show, abs@));
    while i < rows.len()
        invariant
            i <= rows@.len(),
            fv == filters_of(filters@),
            qv == crate::text::text_of(*query),
            query matches Some(q) ==> crate::outside::is_searchable(q@),
            query is Some ==> forall|i: int|
                0 <= i < rows@.len() ==> (#[trigger] rows@[i] matches Some(s)
                    ==> can_be_searched(s.torrent@.meta, show)),
            ints_of(places@) == listed_rows(rows@.take(i as int), fv, qv, show, abs@),
            scores@.len() == places@.len(),
            query matches Some(q) ==> forall|k: int|
                0 <= k < scores@.len() ==> #[trigger] scores@[k] == total_fit(
                    q@,
                    searched_texts(rows@[places@[k] as int].unwrap().torrent@.meta, show),
                ),
        decreases rows@.len() - i,
    {
        let ghost now = rows@.take(i + 1);
        let ghost before = ints_of(places@);
        let ghost old_places = places@;
        proof {
            assert(now.drop_last() == rows@.take(i as int));
            assert(now.last() == rows@[i as int]);
        }
        match &rows[i] {
            Some(s) => {
                if matches_all(&s.torrent, filters, abs) {
                    let (score, fits): (i128, bool) = match query {
                        Some(q) => {
                            let score: i128 = search_score(q.as_str(), &s.torrent, show);
                            (score, is_found(score))
                        },
                        None => (0, true),
                    };
                    if fits {
                        places.push(i);
                        scores.push(score);
                        assert(ints_of(places@) == before.push(i as int));
                        assert forall|k: int| 0 <= k < old_places.len() implies places@[k]
                            == old_places[k] by {}
                    }
                }
            },
            None => {},
        }
        i = i + 1;
    }
    assert(rows@.take(i as int) == rows@);
    Listed { places, scores }
}

fn show_rows(
    rows: &Vec<Option<StoredTorrent>>,
    places: &Vec<usize>,
    from: usize,
    to: usize,
    abs: &str,
) -> (r: Vec<TorrentsRow>)
    requires
        from <= to <= places@.len(),
        forall|k: int|
            0 <= k < places@.len() ==> #[trigger] places@[k] < rows@.len() && rows@[places@[k] as int] is Some,
    ensures
        rows_of(r@) == shown_rows(
            rows@,
            ints_of(places@).subrange(from as int, to as int),
            abs@,
        ),
{
    let ghost want = shown_rows(rows@, ints_of(places@).subrange(from as int, to as int), abs@);
    let mut r: Vec<TorrentsRow> = Vec::new();
    let mut k: usize = from;
    while k < to
        invariant
            from <= k <= to <= places@.len(),
            forall|k: int|
                0 <= k < places@.len() ==> #[trigger] places@[k] < rows@.len()
                    && rows@[places@[k] as int] is Some,
            want == shown_rows(rows@, ints_of(places@).subrange(from as int, to as int), abs@),
            rows_of(r@) == want.take(k - from),
        decreases to - k,
    {
        let ghost before = rows_of(r@);
        match &rows[places[k]] {
            Some(s) => {
                let row = convert_torrent_row(&s.torrent, &s.texts, abs);
                r.push(row);
                proof {
                    assert(ints_of(places@).subrange(from as int, to as int)[k - from]
                        == places@[k as int] as int);
                    assert(want[k - from] == row@);
                    assert(rows_of(r@) == before.push(row@));
                    assert(want.take(k - from + 1) == want.take(k - from).push(want[k - from]));
                }
            },
            None => {},
        }
        k = k + 1;
    }
    assert(want.take(to - from) == want);
    r
}

/// The torrents that a request without conditions, search and order shows: a
/// part of all rows, without those that could not be read.
pub open spec fn shows_plain(
    rows: Seq<Option<StoredTorrent>>,
    stored: usize,
    from: usize,
    page_size: usize,
    abs: Seq<char>,
    show: TorrentsPageColumns,
    r: TorrentsData,
) -> bool {
    let start = crate::web::filter::page_start(from as int, page_size as int, stored as int);
    let part = crate::web::filter::part_of(rows, start, page_limit(page_size));
    &&& r.total == stored
    &&& r.from == start
    &&& rows_of(r.torrents@) == shown_rows(
        part,
        listed_rows(part, seq![], None, show, abs),
        abs,
    )
}

/// The torrents that a request with conditions, but without search and order,
/// shows.
pub open spec fn shows_filtered(
    rows: Seq<Option<StoredTorrent>>,
    filters: Seq<FilterView>,
    from: usize,
    page_size: usize,
    abs: Seq<char>,
    show: TorrentsPageColumns,
    r: TorrentsData,
) -> bool {
    let places = listed_rows(rows, filters, None, show, abs);
    &&& r.total == places.len()
    &&& r.from == from
    &&& rows_of(r.torrents@) == shown_rows(
        rows,
        crate::web::filter::part_of(places, from as int, page_limit(page_size)),
        abs,
    )
}

/// The torrents that a request with a search or an order shows.
pub open spec fn shows_sorted(
    rows: Seq<Option<StoredTorrent>>,
    filters: Seq<FilterView>,
    sort: Option<TorrentsPageSort>,
    asc: bool,
    from: usize,
    page_size: usize,
    abs: Seq<char>,
    show: TorrentsPageColumns,
    r: TorrentsData,
) -> bool {
    let query = query_from(filters, 0);
    let places = listed_rows(rows, filters, query, show, abs);
    let start = crate::web::filter::page_start(
        from as int,
        page_size as int,
        places.len() as int,
    );
    &&& r.total == places.len()
    &&& r.from == start
    &&& exists|order: Seq<usize>|
        #![trigger order.len()]
        crate::order::is_stable_order(
            order,
            0,
            places.len() as int,
            listing_order(rows, places, sort, asc, query, show),
        ) && rows_of(r.torrents@) == shown_rows(
            rows,
            if page_size > 0 {
                crate::web::filter::part_of(
                    order.map_values(|k: usize| places[k as int]),
                    start,
                    page_size as int,
                )
            } else {
                order.map_values(|k: usize| places[k as int])
            },
            abs,
        )
}

/// The length that a page has where none is asked for.
pub const DEFAULT_PAGE_SIZE: usize = 500;

/// The page of torrents that a request asks for. `rows` are the torrents from
/// the newest to the oldest, `None` for one that could not be read; `stored` is
/// how many the database counts. A search is over those that meet the
/// conditions; without a search and an order, the newest come first.
pub fn get_torrents_data(
    rows: &Vec<Option<StoredTorrent>>,
    stored: usize,
    sort: Option<TorrentsPageSort>,
    asc: bool,
    filters: &Vec<TorrentsFilter>,
    from: Option<usize>,
    page_size: Option<usize>,
    show: TorrentsPageColumns,
    abs: &str,
    abs_url: Option<String>,
) -> (r: TorrentsData)
    requires
        query_from(filters_of(filters@), 0) matches Some(q) ==> crate::outside::is_searchable(q)
            && forall|i: int|
            0 <= i < rows@.len() ==> (#[trigger] rows@[i] matches Some(s) ==> can_be_searched(s.torrent@.meta, show)),
    ensures
        r.abs_url == abs_url,
        r.page_size == (match page_size {
            Some(n) => n,
            None => DEFAULT_PAGE_SIZE,
        }),
        ({
            let fv = filters_of(filters@);
            let start = match from {
                Some(n) => n,
                None => 0,
            };
            if sort is None && fv.len() == 0 {
                shows_plain(rows@, stored, start, r.page_size, abs@, show, r)
            } else if sort is None && query_from(fv, 0) is None {
                shows_filtered(rows@, fv, start, r.page_size, abs@, show, r)
            } else {
                shows_sorted(rows@, fv, sort, asc, start, r.page_size, abs@, show, r)
            }
        }),
{
    let start: usize = match from {
        Some(n) => n,
        None => 0,
    };
    let size: usize = match page_size {
        Some(n) => n,
        None => DEFAULT_PAGE_SIZE,
    };
    if sort.is_none() && filters.len() == 0 {
        return plain_page(rows, stored, start, size, show, abs, abs_url);
    }
    let query = find_query(filters);
    if sort.is_none() && query.is_none() {
        return filtered_page(rows, filters, start, size, show, abs, abs_url);
    }
    sorted_page(rows, filters, sort, asc, &query, start, size, show, abs, abs_url)
}

fn limit_of(size: usize) -> (r: usize)
    ensures
        r == page_limit(size),
{
    if size == 0 {
        usize::MAX
    } else {
        size
    }
}

fn plain_page(
    rows: &Vec<Option<StoredTorrent>>,
    stored: usize,
    from: usize,
    size: usize,
    show: TorrentsPageColumns,
    abs: &str,
    abs_url: Option<String>,
) -> (r: TorrentsData)
    ensures
        r.abs_url == abs_url,
        r.page_size == size,
        shows_plain(rows@, stored, from, size, abs@, show, r),
{
    let start: usize = clamp_from(from, size, stored);
    let (a, b) = part_bounds(rows.len(), start, limit_of(size));
    assert(crate::web::filter::part_of(rows@, start as int, page_limit(size)) == rows@.subrange(
        a as int,
        b as int,
    ));
    let torrents = show_part(rows, a, b, show, abs);
    TorrentsData { torrents, total: stored, from: start, page_size: size, abs_url }
}

proof fn lemma_places_readable(
    rows: Seq<Option<StoredTorrent>>,
    v: Seq<usize>,
    filters: Seq<FilterView>,
    query: Option<Seq<char>>,
    show: TorrentsPageColumns,
    abs: Seq<char>,
)
    requires
        ints_of(v) == listed_rows(rows, filters, query, show, abs),
    ensures
        forall|k: int|
            0 <= k < v.len() ==> #[trigger] v[k] < rows.len() && rows[v[k] as int] is Some,
{
    lemma_listed_in_range(rows, filters, query, show, abs);
    let places = listed_rows(rows, filters, query, show, abs);
    assert forall|k: int| 0 <= k < v.len() implies #[trigger] v[k] < rows.len()
        && rows[v[k] as int] is Some by {
        assert(ints_of(v)[k] == v[k] as int);
        assert(places[k] == v[k] as int);
    }
}

fn filtered_page(
    rows: &Vec<Option<StoredTorrent>>,
    filters: &Vec<TorrentsFilter>,
    from: usize,
    size: usize,
    show: TorrentsPageColumns,
    abs: &str,
    abs_url: Option<String>,
) -> (r: TorrentsData)
    ensures
        r.abs_url == abs_url,
        r.page_size == size,
        shows_filtered(rows@, filters_of(filters@), from, size, abs@, show, r),
{
    let listed = list_rows(rows, filters, &None, show, abs);
    proof {
        lemma_places_readable(rows@, listed.places@, filters_of(filters@), None, show, abs@);
    }
    let total: usize = listed.places.len();
    let (a, b) = part_bounds(total, from, limit_of(size));
    let torrents = show_rows(rows, &listed.places, a, b, abs);
    assert(ints_of(listed.places@).len() == total);
    TorrentsData { torrents, total, from, page_size: size, abs_url }
}

fn pick_places(v: &Vec<usize>, order: &Vec<usize>) -> (r: Vec<usize>)
    requires
        forall|k: int| 0 <= k < order@.len() ==> #[trigger] order@[k] < v@.len(),
    ensures
        ints_of(r@) == order@.map_values(|k: usize| ints_of(v@)[k as int]),
        r@.len() == order@.len(),
        forall|k: int| 0 <= k < r@.len() ==> #[trigger] r@[k] == v@[order@[k] as int],
{
    let ghost want = order@.map_values(|k: usize| ints_of(v@)[k as int]);
    let mut r: Vec<usize> = Vec::new();
    let mut k: usize = 0;
    while k < order.len()
        invariant
            k <= order@.len(),
            forall|k: int| 0 <= k < order@.len() ==> #[trigger] order@[k] < v@.len(),
            want == order@.map_values(|k: usize| ints_of(v@)[k as int]),
            r@.len() == k,
            forall|j: int| 0 <= j < k ==> #[trigger] r@[j] == v@[order@[j] as int],
        decreases order@.len() - k,
    {
        assert(order@[k as int] < v@.len());
        r.push(v[order[k]]);
        k = k + 1;
    }
    assert(ints_of(r@) == want);
    r
}

fn sorted_page(
    rows: &Vec<Option<StoredTorrent>>,
    filters: &Vec<TorrentsFilter>,
    sort: Option<TorrentsPageSort>,
    asc: bool,
    query: &Option<String>,
    from: usize,
    size: usize,
    show: TorrentsPageColumns,
    abs: &str,
    abs_url: Option<String>,
) -> (r: TorrentsData)
    requires
        sort is Some || query is Some,
        crate::text::text_of(*query) == query_from(filters_of(filters@), 0),
        query matches Some(q) ==> crate::outside::is_searchable(q@),
        query is Some ==> forall|i: int|
            0 <= i < rows@.len() ==> (#[trigger] rows@[i] matches Some(s) ==> can_be_searched(s.torrent@.meta, show)),
    ensures
        r.abs_url == abs_url,
        r.page_size == size,
        shows_sorted(rows@, filters_of(filters@), sort, asc, from, size, abs@, show, r),
{
    let ghost qv = crate::text::text_of(*query);
    let listed = list_rows(rows, filters, query, show, abs);
    let ghost places = ints_of(listed.places@);
    let ghost c = listing_order(rows@, places, sort, asc, qv, show);
    proof {
        lemma_places_readable(rows@, listed.places@, filters_of(filters@), qv, show, abs@);
        lemma_listing_order(rows@, places, sort, asc, qv, show);
    }
    let total: usize = listed.places.len();
    let order = sort_listed(rows, &listed, sort, asc, query, show, Ghost(c), Ghost(places));
    let sorted = pick_places(&listed.places, &order);
    let ghost want = order@.map_values(|k: usize| places[k as int]);
    let start: usize = clamp_from(from, size, total);
    let (a, b): (usize, usize) = if size > 0 {
        part_bounds(total, start, size)
    } else {
        (0, total)
    };
    let torrents = show_rows(rows, &sorted, a, b, abs);
    proof {
        assert(ints_of(sorted@) == want);
        assert(want.len() == total);
        if size == 0 {
            assert(want.subrange(0, total as int) == want);
        } else {
            assert(want.subrange(a as int, b as int) == crate::web::filter::part_of(
                want,
                start as int,
                size as int,
            ));
        }
        assert(order@.len() == places.len());
    }
    TorrentsData { torrents, total, from: start, page_size: size, abs_url }
}

fn show_part(
    rows: &Vec<Option<StoredTorrent>>,
    a: usize,
    b: usize,
    show: TorrentsPageColumns,
    abs: &str,
) -> (r: Vec<TorrentsRow>)
    requires
        a <= b <= rows@.len(),
    ensures
        ({
            let part = rows@.subrange(a as int, b as int);
            rows_of(r@) == shown_rows(part, listed_rows(part, seq![], None, show, abs@), abs@)
        }),
{
    let ghost part = rows@.subrange(a as int, b as int);
    let mut r: Vec<TorrentsRow> = Vec::new();
    let mut k: usize = a;
    assert(part.take(0) == Seq::<Option<StoredTorrent>>::empty());
    assert(rows_of(r@) == shown_rows(
        part,
        listed_rows(part.take(0), seq![], None, show, abs@),
        abs@,
    ));
    while k < b
        invariant
            a <= k <= b <= rows@.len(),
            part == rows@.subrange(a as int, b as int),
            rows_of(r@) == shown_rows(
                part,
                listed_rows(part.take(k - a), seq![], None, show, abs@),
                abs@,
            ),
        decreases b - k,
    {
        let ghost before = rows_of(r@);
        let ghost now = part.take(k - a + 1);
        let ghost places = listed_rows(part.take(k - a), seq![], None, show, abs@);
        proof {
            assert(now.drop_last() == part.take(k - a));
            assert(now.last() == rows@[k as int]);
            assert(part[k - a] == rows@[k as int]);
        }
        match &rows[k] {
            Some(s) => {
                let row = convert_torrent_row(&s.torrent, &s.texts, abs);
                r.push(row);
                proof {
                    assert(is_listed(now.last(), seq![], None, show, abs@));
                    assert(rows_of(r@) == before.push(row@));
                    assert(shown_rows(part, places.push(k - a), abs@) == shown_rows(
                        part,
                        places,
                        abs@,
                    ).push(row@));
                }
            },
            None => {},
        }
        k = k + 1;
    }
    assert(part.take(b - a) == part);
    r
}

#[verifier::spinoff_prover]
#[verifier::rlimit(40)]
fn sort_listed(
    rows: &Vec<Option<StoredTorrent>>,
    listed: &Listed,
    sort: Option<TorrentsPageSort>,
    asc: bool,
    query: &Option<String>,
    show: TorrentsPageColumns,
    Ghost(c): Ghost<spec_fn(int, int) -> Order>,
    Ghost(places): Ghost<Seq<int>>,
) -> (r: Vec<usize>)
    requires
        ints_of(listed.places@) == places,
        listed.scores@.len() == listed.places@.len(),
        forall|k: int|
            0 <= k < listed.places@.len() ==> #[trigger] listed.places@[k] < rows@.len()
                && rows@[listed.places@[k] as int] is Some,
        query matches Some(q) ==> forall|k: int|
            0 <= k < listed.scores@.len() ==> #[trigger] listed.scores@[k] == total_fit(
                q@,
                searched_texts(rows@[listed.places@[k] as int].unwrap().torrent@.meta, show),
            ),
        c == listing_order(rows@, places, sort, asc, crate::text::text_of(*query), show),
        crate::order::is_ordering(c),
        sort is Some || query is Some,
    ensures
        crate::order::is_stable_order(r@, 0, places.len() as int, c),
{
    let n: usize = listed.places.len();
    match sort {
        Some(s) => {
            let f = |i: usize, j: usize| -> (o: Order)
                requires
                    i < n,
                    j < n,
                    n == listed.places@.len(),
                    forall|k: int|
                        0 <= k < listed.places@.len() ==> #[trigger] listed.places@[k] < rows@.len()
                            && rows@[listed.places@[k] as int] is Some,
                ensures
                    o == directed(
                        column_order(
                            s,
                            rows@[listed.places@[i as int] as int].unwrap().torrent@,
                            rows@[listed.places@[j as int] as int].unwrap().torrent@,
                        ),
                        asc,
                    ),
                {
                    match (&rows[listed.places[i]], &rows[listed.places[j]]) {
                        (Some(a), Some(b)) => {
                            let o = order_by_column(s, &a.torrent, &b.torrent);
                            if asc {
                                o
                            } else {
                                o.reverse()
                            }
                        },
                        _ => Order::Equal,
                    }
                };
            assert forall|i: usize, j: usize, o: Order|
                i < n && j < n && f.ensures((i, j), o) implies o == c(i as int, j as int) by {
                assert(places[i as int] == listed.places@[i as int] as int);
                assert(places[j as int] == listed.places@[j as int] as int);
            }
            stable_order(n, f, Ghost(c))
        },
        None => {
            let r = best_first(&listed.scores);
            proof {
                let d = score_order(listed.scores@);
                assert forall|i: int, j: int| 0 <= i < n && 0 <= j < n implies #[trigger] c(i, j)
                    == d(i, j) by {
                    assert(places[i] == listed.places@[i] as int);
                    assert(places[j] == listed.places@[j] as int);
                    assert(listed.scores@[i] == listed.scores@[i]);
                    assert(listed.scores@[j] == listed.scores@[j]);
                }
                crate::order::lemma_orders_agree(r@, n as int, d, c);
            }
            r
        },
    }
}

/// The list holds the places of the rows that are to be listed, all of them and
/// no others, each once and in their order.
pub proof fn listing_is_exact(
    rows: Seq<Option<StoredTorrent>>,
    filters: Seq<FilterView>,
    query: Option<Seq<char>>,
    show: TorrentsPageColumns,
    abs: Seq<char>,
)
    ensures
        forall|i: int|
            0 <= i < rows.len() ==> (#[trigger] listed_rows(
                rows,
                filters,
                query,
                show,
                abs,
            ).contains(i) <==> is_listed(rows[i], filters, query, show, abs)),
        forall|k: int, l: int|
            0 <= k < l < listed_rows(rows, filters, query, show, abs).len()
                ==> #[trigger] listed_rows(rows, filters, query, show, abs)[k]
                < #[trigger] listed_rows(rows, filters, query, show, abs)[l],
    decreases rows.len(),
{
    let all = listed_rows(rows, filters, query, show, abs);
    if rows.len() > 0 {
        let rest = rows.drop_last();
        let before = listed_rows(rest, filters, query, show, abs);
        listing_is_exact(rest, filters, query, show, abs);
        lemma_listed_in_range(rest, filters, query, show, abs);
        let n = rows.len() - 1;
        assert forall|i: int| 0 <= i < rows.len() implies (#[trigger] all.contains(i)
            <==> is_listed(rows[i], filters, query, show, abs)) by {
            if i < n {
                assert(rest[i] == rows[i]);
                assert(before.contains(i) <==> is_listed(rest[i], filters, query, show, abs));
                if all.contains(i) {
                    let k = choose|k: int| 0 <= k < all.len() && all[k] == i;
                    assert(before[k] == i);
                }
                if before.contains(i) {
                    let k = choose|k: int| 0 <= k < before.len() && before[k] == i;
                    assert(all[k] == i);
                }
            } else {
                if all.contains(i) {
                    let k = choose|k: int| 0 <= k < all.len() && all[k] == i;
                    if k < before.len() {
                        assert(before[k] == i);
                    }
                }
                if is_listed(rows[i], filters, query, show, abs) {
                    assert(all[before.len() as int] == i);
                }
            }
        }
        assert forall|k: int, l: int| 0 <= k < l < all.len() implies #[trigger] all[k]
            < #[trigger] all[l] by {
            if l < before.len() {
                assert(all[k] == before[k] && all[l] == before[l]);
            } else {
                assert(all[k] == before[k]);
            }
        }
    }
}

/// What each condition asks for of a torrent.
pub proof fn conditions_are_exact(t: TorrentView, f: FilterView, abs: Seq<char>)
    ensures
        ({
            let passes = filter_matches(t, f, abs);
            let v = f.value;
            match f.field {
                TorrentsPageFilter::Kind => passes <==> t.meta.media_type.1 == v,
                TorrentsPageFilter::Category => {
                    &&& v.len() == 0 ==> (passes <==> t.meta.cat is None)
                    &&& v.len() > 0 && passes ==> t.meta.cat is Some
                    &&& v.len() > 0 ==> (t.meta.cat matches Some(c) && c.name == v ==> passes)
                },
                TorrentsPageFilter::Categories => {
                    &&& v.len() == 0 ==> (passes <==> t.meta.categories.len() == 0)
                    &&& v.len() > 0 ==> (passes <==> forall|w: Seq<char>| #[trigger]
                        crate::text::pieces(v, ","@).contains(w) ==> t.meta.categories.contains(
                            crate::text::trimmed(w),
                        ))
                },
                TorrentsPageFilter::Flags => {
                    &&& v.len() == 0 ==> (passes <==> (t.meta.flags matches Some(x) ==> x.bits == 0))
                    &&& v.len() > 0 && passes ==> t.meta.flags is Some
                },
                TorrentsPageFilter::Title => passes <==> t.meta.title == v,
                TorrentsPageFilter::Author => {
                    &&& v.len() > 0 ==> (passes <==> t.meta.authors.contains(v))
                    &&& v.len() == 0 ==> (passes <==> t.meta.authors.len() == 0)
                },
                TorrentsPageFilter::Narrator => {
                    &&& v.len() > 0 ==> (passes <==> t.meta.narrators.contains(v))
                    &&& v.len() == 0 ==> (passes <==> t.meta.narrators.len() == 0)
                },
                TorrentsPageFilter::Series => {
                    &&& v.len() > 0 ==> (passes <==> exists|i: int|
                        0 <= i < t.meta.series.len() && (#[trigger] t.meta.series[i]).name == v)
                    &&& v.len() == 0 ==> (passes <==> t.meta.series.len() == 0)
                },
                TorrentsPageFilter::Language => {
                    &&& v.len() == 0 || f.language is None ==> (passes <==> t.meta.language is None)
                    &&& v.len() > 0 ==> (f.language matches Some(named) ==> (passes <==> (
                    t.meta.language matches Some(l) && l.0 == named)))
                },
                TorrentsPageFilter::Filetype => passes <==> t.meta.filetypes.contains(v),
                TorrentsPageFilter::Linker => passes <==> t.linker == (if v.len() == 0 {
                    None
                } else {
                    Some(v)
                }),
                TorrentsPageFilter::QbitCategory => passes <==> t.category == (if v.len() == 0 {
                    None
                } else {
                    Some(v)
                }),
                TorrentsPageFilter::Linked => {
                    &&& v == "true"@ ==> (passes <==> t.library_path is Some)
                    &&& v != "true"@ ==> (passes <==> t.library_path is None)
                },
                TorrentsPageFilter::LibraryMismatch => {
                    &&& v.len() == 0 ==> (passes <==> t.library_mismatch is Some)
                    &&& v == "new_library"@ ==> (t.library_mismatch matches Some(
                        MismatchView::NewLibraryDir(_),
                    ) ==> passes)
                    &&& v == "new_path"@ ==> (t.library_mismatch matches Some(
                        MismatchView::NewPath(_),
                    ) ==> passes)
                    &&& v == "no_library"@ ==> (t.library_mismatch == Some(MismatchView::NoLibrary)
                        ==> passes)
                    &&& passes ==> (t.library_mismatch matches Some(m) && match m {
                        MismatchView::NewLibraryDir(p) => v.len() == 0 || v == "new_library"@ || v
                            == p,
                        MismatchView::NewPath(p) => v.len() == 0 || v == "new_path"@ || v == p,
                        MismatchView::NoLibrary => v.len() == 0 || v == "no_library"@,
                    })
                },
                TorrentsPageFilter::ClientStatus => passes <==> ((t.client_status == Some(
                    ClientStatus::NotInClient,
                ) && v == "not_in_client"@) || (t.client_status == Some(
                    ClientStatus::RemovedFromTracker,
                ) && v == "removed_from_tracker"@)),
                TorrentsPageFilter::Abs => {
                    &&& v == "true"@ ==> (passes <==> t.meta.ids.contains_key(abs))
                    &&& v != "true"@ ==> (passes <==> !t.meta.ids.contains_key(abs))
                },
                TorrentsPageFilter::Query => passes,
                TorrentsPageFilter::Source => passes <==> ((t.meta.source == MetadataSource::Mam && v
                    == "mam"@) || (t.meta.source == MetadataSource::Manual && v == "manual"@) || (
                t.meta.source == MetadataSource::File && v == "file"@) || (t.meta.source
                    == MetadataSource::Match && v == "match"@)),
                TorrentsPageFilter::Metadata => {
                    &&& v.len() > 0 ==> (passes <==> t.meta.ids.contains_key(v)
                        || t.meta.ids.contains_value(v))
                    &&& v.len() == 0 ==> (passes <==> exists|k: Seq<char>| #[trigger]
                        t.meta.ids.contains_key(k))
                },
            }
        }),
{
    let v = f.value;
    match f.field {
        TorrentsPageFilter::Categories => {
            crate::web::filter::categories_filter_is_exact(t.meta.categories, v);
        },
        TorrentsPageFilter::Series => {
            let names = crate::web::filter::series_names(t.meta.series);
            if names.contains(v) {
                let i = choose|i: int| 0 <= i < names.len() && names[i] == v;
                assert(t.meta.series[i].name == v);
            }
            if exists|i: int| 0 <= i < t.meta.series.len() && (#[trigger] t.meta.series[i]).name
                == v {
                let i = choose|i: int|
                    0 <= i < t.meta.series.len() && (#[trigger] t.meta.series[i]).name == v;
                assert(names[i] == v);
            }
        },
        TorrentsPageFilter::LibraryMismatch => {
            reveal_strlit("new_library");
            reveal_strlit("new_path");
            reveal_strlit("no_library");
        },
        TorrentsPageFilter::Metadata => {
            let ids = t.meta.ids;
            if v.len() == 0 {
                if forall|k: Seq<char>| !#[trigger] ids.contains_key(k) {
                    assert(ids =~= Map::<Seq<char>, Seq<char>>::empty());
                }
            } else {
                if ids.contains_value(v) {
                    let k = choose|k: Seq<char>| #[trigger] ids.contains_key(k) && ids[k] == v;
                    assert(ids.contains_key(k));
                }
            }
        },
        _ => {},
    }
}

/// A row is listed exactly when it could be read, its torrent meets every one of
/// the conditions, and, where there is a search, it fits with a score of at
/// least 10.
pub proof fn every_condition_counts(
    rows: Seq<Option<StoredTorrent>>,
    filters: Seq<FilterView>,
    query: Option<Seq<char>>,
    show: TorrentsPageColumns,
    abs: Seq<char>,
    i: int,
)
    requires
        0 <= i < rows.len(),
    ensures
        listed_rows(rows, filters, query, show, abs).contains(i) <==> {
            &&& rows[i] is Some
            &&& forall|j: int|
                0 <= j < filters.len() ==> filter_matches(
                    rows[i].unwrap().torrent@,
                    #[trigger] filters[j],
                    abs,
                )
            &&& query matches Some(q) ==> total_fit(
                q,
                searched_texts(rows[i].unwrap().torrent@.meta, show),
            ) >= 10
        },
{
    listing_is_exact(rows, filters, query, show, abs);
}

/// Where one of the conditions names a language of the list, every book that is
/// listed has exactly that language, and a book in another language, or in
/// none, is not listed.
pub proof fn only_books_in_the_language_are_listed(
    rows: Seq<Option<StoredTorrent>>,
    filters: Seq<FilterView>,
    query: Option<Seq<char>>,
    show: TorrentsPageColumns,
    abs: Seq<char>,
    j: int,
    named: u64,
)
    requires
        0 <= j < filters.len(),
        filters[j].field == TorrentsPageFilter::Language,
        filters[j].value.len() > 0,
        filters[j].language == Some(named),
    ensures
        forall|i: int|
            0 <= i < rows.len() && #[trigger] listed_rows(
                rows,
                filters,
                query,
                show,
                abs,
            ).contains(i) ==> (rows[i] matches Some(s) && (s.torrent@.meta.language matches Some(l)
                && l.0 == named)),
{
    assert forall|i: int|
        0 <= i < rows.len() && #[trigger] listed_rows(rows, filters, query, show, abs).contains(
            i,
        ) implies (rows[i] matches Some(s) && (s.torrent@.meta.language matches Some(l) && l.0
        == named)) by {
        every_condition_counts(rows, filters, query, show, abs, i);
        let t = rows[i].unwrap().torrent@;
        assert(filter_matches(t, filters[j], abs));
        conditions_are_exact(t, filters[j], abs);
    }
}

/// A condition that is added takes rows away and adds none.
pub proof fn more_conditions_list_fewer(
    rows: Seq<Option<StoredTorrent>>,
    filters: Seq<FilterView>,
    f: FilterView,
    query: Option<Seq<char>>,
    show: TorrentsPageColumns,
    abs: Seq<char>,
    i: int,
)
    requires
        0 <= i < rows.len(),
        listed_rows(rows, filters.push(f), query, show, abs).contains(i),
    ensures
        listed_rows(rows, filters, query, show, abs).contains(i),
        filter_matches(rows[i].unwrap().torrent@, f, abs),
{
    every_condition_counts(rows, filters, query, show, abs, i);
    every_condition_counts(rows, filters.push(f), query, show, abs, i);
    let t = rows[i].unwrap().torrent@;
    let more = filters.push(f);
    assert forall|j: int| 0 <= j < filters.len() implies filter_matches(
        t,
        #[trigger] filters[j],
        abs,
    ) by {
        assert(filter_matches(t, more[j], abs));
        assert(more[j] == filters[j]);
    }
    assert(filter_matches(t, more[filters.len() as int], abs));
}

/// The search is for the first condition of that kind that is not empty; without
/// one there is no search. `i` is its place.
pub proof fn first_query_is_searched_for(filters: Seq<FilterView>, i: int)
    requires
        0 <= i <= filters.len(),
        forall|j: int|
            0 <= j < i ==> (#[trigger] filters[j]).field != TorrentsPageFilter::Query
                || filters[j].value.len() == 0,
        i < filters.len() ==> filters[i].field == TorrentsPageFilter::Query
            && filters[i].value.len() > 0,
    ensures
        query_from(filters, 0) == (if i < filters.len() {
            Some(filters[i].value)
        } else {
            None
        }),
{
    lemma_query_from(filters, 0, i);
}

proof fn lemma_query_from(filters: Seq<FilterView>, from: int, i: int)
    requires
        0 <= from <= i <= filters.len(),
        forall|j: int|
            from <= j < i ==> (#[trigger] filters[j]).field != TorrentsPageFilter::Query
                || filters[j].value.len() == 0,
        i < filters.len() ==> filters[i].field == TorrentsPageFilter::Query
            && filters[i].value.len() > 0,
    ensures
        query_from(filters, from) == (if i < filters.len() {
            Some(filters[i].value)
        } else {
            None
        }),
    decreases i - from,
{
    if from < i {
        assert(filters[from].field != TorrentsPageFilter::Query || filters[from].value.len() == 0);
        lemma_query_from(filters, from + 1, i);
    }
}

/// A search looks at the title in any case, and at the authors, the narrators
/// and the names of the series where their columns are shown; each counts by
/// itself, and one that does not match counts nothing.
pub proof fn search_adds_up_what_is_shown(
    query: Seq<char>,
    meta: MetaView,
    show: TorrentsPageColumns,
)
    ensures
        total_fit(query, searched_texts(meta, show)) == fit(query, meta.title) + (if show.authors {
            total_fit(query, meta.authors)
        } else {
            0
        }) + (if show.narrators {
            total_fit(query, meta.narrators)
        } else {
            0
        }) + (if show.series {
            total_fit(query, meta.series.map_values(|s: SeriesView| s.name))
        } else {
            0
        }),
        forall|a: Seq<Seq<char>>, text: Seq<char>| #[trigger]
            total_fit(query, a.push(text)) == total_fit(query, a) + fit(query, text),
        total_fit(query, seq![]) == 0,
        forall|text: Seq<char>|
            crate::outside::best_score(query, text) is None ==> #[trigger] fit(query, text) == 0,
        forall|text: Seq<char>|
            crate::outside::best_score(query, text) is Some ==> Some(#[trigger] fit(query, text))
                == crate::outside::best_score(query, text),
{
    let none = Seq::<Seq<char>>::empty();
    let a = if show.authors {
        meta.authors
    } else {
        none
    };
    let b = if show.narrators {
        meta.narrators
    } else {
        none
    };
    let c = if show.series {
        crate::web::filter::series_names(meta.series)
    } else {
        none
    };
    let first = seq![meta.title];
    assert(first.drop_last() == none);
    assert(total_fit(query, none) == 0);
    assert(total_fit(query, first) == fit(query, meta.title));
    lemma_total_fit_add(query, first, a);
    lemma_total_fit_add(query, first + a, b);
    lemma_total_fit_add(query, first + a + b, c);
    assert(searched_texts(meta, show) == first + a + b + c);
    assert(crate::web::filter::series_names(meta.series) == meta.series.map_values(
        |s: SeriesView| s.name,
    ));
    assert forall|x: Seq<Seq<char>>, text: Seq<char>| #[trigger]
        total_fit(query, x.push(text)) == total_fit(query, x) + fit(query, text) by {
        assert(x.push(text).drop_last() == x);
    }
}

/// What a row shows is what its torrent holds.
pub proof fn row_shows_its_torrent(t: TorrentView, texts: RowTexts, abs: Seq<char>)
    ensures
        ({
            let r = torrent_row(t, texts, abs);
            &&& r.id == t.id
            &&& r.mam_id == t.mam_id
            &&& r.meta.title == t.meta.title
            &&& r.meta.media_type == t.meta.media_type.1
            &&& t.meta.cat matches Some(c) ==> r.meta.cat_name == c.name && r.meta.cat_id == Some(
                c.id,
            )
            &&& t.meta.cat is None ==> r.meta.cat_name == "N/A"@ && r.meta.cat_id is None
            &&& r.meta.categories == t.meta.categories
            &&& r.meta.flags == crate::text::texts(texts.flags@)
            &&& t.meta.edition matches Some(e) ==> r.meta.edition == Some(e.0)
            &&& t.meta.edition is None ==> r.meta.edition is None
            &&& r.meta.authors == t.meta.authors
            &&& r.meta.narrators == t.meta.narrators
            &&& r.meta.series.len() == t.meta.series.len()
            &&& forall|i: int|
                0 <= i < t.meta.series.len() ==> #[trigger] r.meta.series[i] == (
                    t.meta.series[i].name,
                    t.meta.series[i].entries,
                )
            &&& t.meta.language matches Some(l) ==> r.meta.language == Some(l.1)
            &&& t.meta.language is None ==> r.meta.language is None
            &&& r.meta.size == texts.size@
            &&& r.meta.filetypes == t.meta.filetypes
            &&& r.linker == t.linker
            &&& r.category == t.category
            &&& r.library_path == t.library_path
            &&& r.library_mismatch == t.library_mismatch
            &&& r.linked <==> t.library_path is Some
            &&& t.client_status == Some(ClientStatus::RemovedFromTracker) ==> r.client_status
                == Some("removed_from_tracker"@)
            &&& t.client_status == Some(ClientStatus::NotInClient) ==> r.client_status == Some(
                "not_in_client"@,
            )
            &&& t.client_status is None ==> r.client_status is None
            &&& r.created_at == texts.created_at@
            &&& r.uploaded_at == texts.uploaded_at@
            &&& r.abs_id is Some <==> t.meta.ids.contains_key(abs)
            &&& r.abs_id matches Some(id) ==> id == t.meta.ids[abs]
        }),
{
}

/// A status that a row shows can be filtered by: the value that is shown is the
/// one that the filter takes.
pub proof fn shown_status_can_be_filtered(
    t: TorrentView,
    texts: RowTexts,
    abs: Seq<char>,
    language: Option<u64>,
)
    ensures
        torrent_row(t, texts, abs).client_status matches Some(s) ==> filter_matches(
            t,
            (FilterView { field: TorrentsPageFilter::ClientStatus, value: s, language }),
            abs,
        ),
{
}

/// By which of its fields a column orders the torrents: the smaller number
/// first, what is absent before what is there.
pub proof fn column_goes_by_its_field(a: TorrentView, b: TorrentView)
    ensures
        a.meta.media_type.0 < b.meta.media_type.0 ==> column_order(TorrentsPageSort::Kind, a, b)
            == Order::Less,
        a.meta.size < b.meta.size ==> column_order(TorrentsPageSort::Size, a, b) == Order::Less,
        a.created_at < b.created_at ==> column_order(TorrentsPageSort::CreatedAt, a, b)
            == Order::Less,
        a.meta.uploaded_at is None && b.meta.uploaded_at is Some ==> column_order(
            TorrentsPageSort::UploadedAt,
            a,
            b,
        ) == Order::Less,
        (a.meta.uploaded_at matches Some(x) && b.meta.uploaded_at matches Some(y) && x < y)
            ==> column_order(TorrentsPageSort::UploadedAt, a, b) == Order::Less,
        (a.meta.language matches Some(x) && b.meta.language matches Some(y) && x.0 < y.0)
            ==> column_order(TorrentsPageSort::Language, a, b) == Order::Less,
        a.meta.language is None && b.meta.language is Some ==> column_order(
            TorrentsPageSort::Language,
            a,
            b,
        ) == Order::Less,
        (a.meta.cat matches Some(x) && b.meta.cat matches Some(y) && x.rank < y.rank)
            ==> column_order(TorrentsPageSort::Category, a, b) == Order::Less,
        a.meta.cat is None && b.meta.cat is Some ==> column_order(TorrentsPageSort::Category, a, b)
            == Order::Less,
        column_order(TorrentsPageSort::Title, a, b) == crate::order::text_order(
            a.meta.title,
            b.meta.title,
        ),
        column_order(TorrentsPageSort::Authors, a, b) == crate::order::texts_order(
            a.meta.authors,
            b.meta.authors,
        ),
        column_order(TorrentsPageSort::Narrators, a, b) == crate::order::texts_order(
            a.meta.narrators,
            b.meta.narrators,
        ),
        a.linker is None && b.linker is Some ==> column_order(TorrentsPageSort::Linker, a, b)
            == Order::Less,
        (a.linker matches Some(x) && b.linker matches Some(y)) ==> column_order(
            TorrentsPageSort::Linker,
            a,
            b,
        ) == crate::order::text_order(a.linker.unwrap(), b.linker.unwrap()),
        a.category is None && b.category is Some ==> column_order(
            TorrentsPageSort::QbitCategory,
            a,
            b,
        ) == Order::Less,
        (a.category matches Some(x) && b.category matches Some(y)) ==> column_order(
            TorrentsPageSort::QbitCategory,
            a,
            b,
        ) == crate::order::text_order(a.category.unwrap(), b.category.unwrap()),
        a.library_path is None && b.library_path is Some ==> column_order(
            TorrentsPageSort::Linked,
            a,
            b,
        ) == Order::Less,
        (a.library_path matches Some(x) && b.library_path matches Some(y)) ==> column_order(
            TorrentsPageSort::Linked,
            a,
            b,
        ) == crate::path::path_order(a.library_path.unwrap(), b.library_path.unwrap()),
        a.meta.edition is None && b.meta.edition is Some ==> column_order(
            TorrentsPageSort::Edition,
            a,
            b,
        ) == Order::Less,
        (a.meta.edition matches Some(x) && b.meta.edition matches Some(y) && x.1 < y.1)
            ==> column_order(TorrentsPageSort::Edition, a, b) == Order::Less,
        (a.meta.edition matches Some(x) && b.meta.edition matches Some(y) && x.1 == y.1)
            ==> column_order(TorrentsPageSort::Edition, a, b) == crate::order::text_order(
            a.meta.edition.unwrap().0,
            b.meta.edition.unwrap().0,
        ),
        a.meta.series == b.meta.series && a.meta.media_type.0 < b.meta.media_type.0 ==> column_order(
            TorrentsPageSort::Series,
            a,
            b,
        ) == Order::Less,
        a.meta.series.len() == 0 && b.meta.series.len() > 0 ==> column_order(
            TorrentsPageSort::Series,
            a,
            b,
        ) == Order::Less,
        a.meta.series.len() > 0 && b.meta.series.len() > 0 && a.meta.series[0].rank
            < b.meta.series[0].rank ==> column_order(TorrentsPageSort::Series, a, b)
            == Order::Less,
{
    let c = |x: SeriesView, y: SeriesView| crate::order::int_order(x.rank as int, y.rank as int);
    if a.meta.series == b.meta.series {
        assert forall|e: SeriesView| #[trigger] c(e, e) == Order::Equal by {}
        crate::order::shorter_list_comes_first(a.meta.series, seq![], c);
    }
}

/// What stands in a list of places that is sorted: every listed place once, none
/// behind one that comes later by the column, or, in the other direction,
/// earlier; a search without a column puts the best score first.
pub open spec fn is_sorted_listing(
    rows: Seq<Option<StoredTorrent>>,
    listed: Seq<int>,
    sort: Option<TorrentsPageSort>,
    asc: bool,
    query: Option<Seq<char>>,
    show: TorrentsPageColumns,
    all: Seq<int>,
) -> bool {
    &&& all.len() == listed.len()
    &&& forall|k: int| 0 <= k < all.len() ==> listed.contains(#[trigger] all[k])
    &&& forall|k: int, l: int|
        0 <= k < l < all.len() ==> {
            let a = rows[#[trigger] all[k]].unwrap().torrent@;
            let b = rows[#[trigger] all[l]].unwrap().torrent@;
            &&& all[k] != all[l]
            &&& sort matches Some(s) ==> (if asc {
                column_order(s, a, b) != Order::Greater
            } else {
                column_order(s, a, b) != Order::Less
            })
            &&& sort is None ==> (query matches Some(q) ==> total_fit(
                q,
                searched_texts(a.meta, show),
            ) >= total_fit(q, searched_texts(b.meta, show)))
        }
}

proof fn lemma_sorted_listing(
    rows: Seq<Option<StoredTorrent>>,
    filters: Seq<FilterView>,
    sort: Option<TorrentsPageSort>,
    asc: bool,
    show: TorrentsPageColumns,
    abs: Seq<char>,
    order: Seq<usize>,
)
    requires
        ({
            let query = query_from(filters, 0);
            let listed = listed_rows(rows, filters, query, show, abs);
            crate::order::is_stable_order(
                order,
                0,
                listed.len() as int,
                listing_order(rows, listed, sort, asc, query, show),
            )
        }),
    ensures
        ({
            let query = query_from(filters, 0);
            let listed = listed_rows(rows, filters, query, show, abs);
            is_sorted_listing(
                rows,
                listed,
                sort,
                asc,
                query,
                show,
                order.map_values(|k: usize| listed[k as int]),
            )
        }),
{
    let query = query_from(filters, 0);
    let listed = listed_rows(rows, filters, query, show, abs);
    let c = listing_order(rows, listed, sort, asc, query, show);
    let all = order.map_values(|k: usize| listed[k as int]);
    listing_is_exact(rows, filters, query, show, abs);
    lemma_listing_order(rows, listed, sort, asc, query, show);
    assert forall|k: int| 0 <= k < all.len() implies listed.contains(#[trigger] all[k]) by {
        assert(0 <= order[k] < listed.len());
        assert(all[k] == listed[order[k] as int]);
    }
    assert forall|k: int, l: int| 0 <= k < l < all.len() implies ({
        let a = rows[#[trigger] all[k]].unwrap().torrent@;
        let b = rows[#[trigger] all[l]].unwrap().torrent@;
        &&& all[k] != all[l]
        &&& sort matches Some(s) ==> (if asc {
            column_order(s, a, b) != Order::Greater
        } else {
            column_order(s, a, b) != Order::Less
        })
        &&& sort is None ==> (query matches Some(q) ==> total_fit(q, searched_texts(a.meta, show))
            >= total_fit(q, searched_texts(b.meta, show)))
    }) by {
        let i = order[k] as int;
        let j = order[l] as int;
        assert(all[k] == listed[i]);
        assert(all[l] == listed[j]);
        assert(crate::order::precedes(c, i, j));
        assert(c(i, j) != Order::Greater);
        if i == j {
            assert(c(i, i) == crate::order::reversed(c(i, i)));
        }
        if i < j {
            assert(listed[i] < listed[j]);
        } else if j < i {
            assert(listed[j] < listed[i]);
        }
    }
}

/// A sorted page is a part of the sorted list of all that is listed: it begins
/// at the place that it says, which is the one asked for if the list reaches
/// that far, and shows as many as fit, or all where it has no limit. It says how
/// many are listed in all.
pub proof fn sorted_page_is_part_of_sorted_list(
    rows: Seq<Option<StoredTorrent>>,
    filters: Seq<FilterView>,
    sort: Option<TorrentsPageSort>,
    asc: bool,
    from: usize,
    page_size: usize,
    abs: Seq<char>,
    show: TorrentsPageColumns,
    r: TorrentsData,
)
    requires
        shows_sorted(rows, filters, sort, asc, from, page_size, abs, show, r),
    ensures
        ({
            let query = query_from(filters, 0);
            let listed = listed_rows(rows, filters, query, show, abs);
            let first = if page_size > 0 {
                r.from as int
            } else {
                0int
            };
            &&& r.total == listed.len()
            &&& from < listed.len() ==> r.from == from
            &&& r.torrents@.len() == (if first >= listed.len() {
                0int
            } else if page_size == 0 || listed.len() - first < page_size {
                listed.len() - first
            } else {
                page_size as int
            })
            &&& exists|all: Seq<int>| #[trigger]
                is_sorted_listing(rows, listed, sort, asc, query, show, all) && (forall|k: int|
                    0 <= k < r.torrents@.len() ==> (#[trigger] r.torrents@[k])@ == torrent_row(
                        rows[all[first + k]].unwrap().torrent@,
                        rows[all[first + k]].unwrap().texts,
                        abs,
                    ))
        }),
{
    let query = query_from(filters, 0);
    let listed = listed_rows(rows, filters, query, show, abs);
    let c = listing_order(rows, listed, sort, asc, query, show);
    let start = r.from as int;
    let order = choose|order: Seq<usize>|
        #![trigger order.len()]
        crate::order::is_stable_order(order, 0, listed.len() as int, c) && rows_of(r.torrents@)
            == shown_rows(
            rows,
            if page_size > 0 {
                crate::web::filter::part_of(
                    order.map_values(|k: usize| listed[k as int]),
                    start,
                    page_size as int,
                )
            } else {
                order.map_values(|k: usize| listed[k as int])
            },
            abs,
        );
    let all = order.map_values(|k: usize| listed[k as int]);
    lemma_sorted_listing(rows, filters, sort, asc, show, abs, order);
    crate::web::filter::page_is_part_of_list(all, start, page_size as int);
    let places = if page_size > 0 {
        crate::web::filter::part_of(all, start, page_size as int)
    } else {
        all
    };
    let first = if page_size > 0 {
        start
    } else {
        0int
    };
    let shown = shown_rows(rows, places, abs);
    assert(rows_of(r.torrents@).len() == r.torrents@.len());
    assert(shown.len() == places.len());
    assert forall|k: int| 0 <= k < r.torrents@.len() implies (#[trigger] r.torrents@[k])@
        == torrent_row(
        rows[all[first + k]].unwrap().torrent@,
        rows[all[first + k]].unwrap().texts,
        abs,
    ) by {
        assert(rows_of(r.torrents@)[k] == r.torrents@[k]@);
        assert(places[k] == all[first + k]);
        assert(shown[k] == torrent_row(
            rows[places[k]].unwrap().torrent@,
            rows[places[k]].unwrap().texts,
            abs,
        ));
    }
}

/// A page holds as many rows as it is asked to, and without a number every row
/// that there can be.
pub proof fn page_without_limit_holds_everything(rows: Vec<Option<StoredTorrent>>, n: usize)
    ensures
        n > 0 ==> page_limit(n) == n,
        rows@.len() <= page_limit(0),
{
    assert(rows.len() == rows@.len());
}

proof fn lemma_all_listed(
    rows: Seq<Option<StoredTorrent>>,
    show: TorrentsPageColumns,
    abs: Seq<char>,
)
    requires
        forall|i: int| 0 <= i < rows.len() ==> (#[trigger] rows[i]) is Some,
    ensures
        listed_rows(rows, seq![], None, show, abs) == Seq::new(rows.len(), |i: int| i),
    decreases rows.len(),
{
    if rows.len() > 0 {
        let rest = rows.drop_last();
        assert forall|i: int| 0 <= i < rest.len() implies (#[trigger] rest[i]) is Some by {
            assert(rest[i] == rows[i]);
        }
        lemma_all_listed(rest, show, abs);
        assert(rows[rows.len() - 1] is Some);
        assert(is_listed(rows.last(), seq![], None, show, abs));
    }
    assert(listed_rows(rows, seq![], None, show, abs) =~= Seq::new(rows.len(), |i: int| i));
}

/// A page without conditions, search and order shows the stored torrents in
/// their order, from the place that it says on, as many as fit; it counts all
/// that are stored.
pub proof fn plain_page_shows_rows_in_order(
    rows: Seq<Option<StoredTorrent>>,
    stored: usize,
    from: usize,
    page_size: usize,
    abs: Seq<char>,
    show: TorrentsPageColumns,
    r: TorrentsData,
)
    requires
        shows_plain(rows, stored, from, page_size, abs, show, r),
        forall|i: int| 0 <= i < rows.len() ==> (#[trigger] rows[i]) is Some,
        0 < page_size,
    ensures
        r.total == stored,
        from < stored ==> r.from == from,
        r.torrents@.len() == (if r.from >= rows.len() {
            0int
        } else if rows.len() - r.from < page_size {
            rows.len() - r.from
        } else {
            page_size as int
        }),
        forall|k: int|
            0 <= k < r.torrents@.len() ==> (#[trigger] r.torrents@[k])@ == torrent_row(
                rows[r.from + k].unwrap().torrent@,
                rows[r.from + k].unwrap().texts,
                abs,
            ),
{
    let start = r.from as int;
    let part = crate::web::filter::part_of(rows, start, page_size as int);
    crate::web::filter::page_is_part_of_list(rows, start, page_size as int);
    assert forall|i: int| 0 <= i < part.len() implies (#[trigger] part[i]) is Some by {
        assert(part[i] == rows[start + i]);
        assert(rows[start + i] is Some);
    }
    lemma_all_listed(part, show, abs);
    let listed = listed_rows(part, seq![], None, show, abs);
    let shown = shown_rows(part, listed, abs);
    assert(rows_of(r.torrents@).len() == r.torrents@.len());
    assert forall|k: int| 0 <= k < r.torrents@.len() implies (#[trigger] r.torrents@[k])@
        == torrent_row(
        rows[r.from + k].unwrap().torrent@,
        rows[r.from + k].unwrap().texts,
        abs,
    ) by {
        assert(rows_of(r.torrents@)[k] == r.torrents@[k]@);
        assert(shown[k] == torrent_row(part[k].unwrap().torrent@, part[k].unwrap().texts, abs));
        assert(part[k] == rows[start + k]);
    }
}

/// A page with conditions alone shows the listed torrents in their order, from
/// the place that was asked for on, as many as fit; it counts the listed ones.
pub proof fn filtered_page_shows_listed_in_order(
    rows: Seq<Option<StoredTorrent>>,
    filters: Seq<FilterView>,
    from: usize,
    page_size: usize,
    abs: Seq<char>,
    show: TorrentsPageColumns,
    r: TorrentsData,
)
    requires
        shows_filtered(rows, filters, from, page_size, abs, show, r),
        0 < page_size,
    ensures
        ({
            let listed = listed_rows(rows, filters, None, show, abs);
            &&& r.total == listed.len()
            &&& r.from == from
            &&& r.torrents@.len() == (if from >= listed.len() {
                0int
            } else if listed.len() - from < page_size {
                listed.len() - from
            } else {
                page_size as int
            })
            &&& forall|k: int|
                0 <= k < r.torrents@.len() ==> (#[trigger] r.torrents@[k])@ == torrent_row(
                    rows[listed[from + k]].unwrap().torrent@,
                    rows[listed[from + k]].unwrap().texts,
                    abs,
                )
        }),
{
    let listed = listed_rows(rows, filters, None, show, abs);
    let part = crate::web::filter::part_of(listed, from as int, page_size as int);
    crate::web::filter::page_is_part_of_list(listed, from as int, page_size as int);
    let shown = shown_rows(rows, part, abs);
    assert(rows_of(r.torrents@).len() == r.torrents@.len());
    assert forall|k: int| 0 <= k < r.torrents@.len() implies (#[trigger] r.torrents@[k])@
        == torrent_row(
        rows[listed[from + k]].unwrap().torrent@,
        rows[listed[from + k]].unwrap().texts,
        abs,
    ) by {
        assert(rows_of(r.torrents@)[k] == r.torrents@[k]@);
        assert(shown[k] == torrent_row(
            rows[part[k]].unwrap().torrent@,
            rows[part[k]].unwrap().texts,
            abs,
        ));
        assert(part[k] == listed[from + k]);
    }
}

/// A better score comes before a worse one.
pub proof fn better_score_comes_first(scores: Seq<i128>, i: int, j: int)
    requires
        0 <= i < scores.len(),
        0 <= j < scores.len(),
    ensures
        scores[i] > scores[j] ==> score_order(scores)(i, j) == Order::Less,
        scores[i] < scores[j] ==> score_order(scores)(i, j) == Order::Greater,
        scores[i] == scores[j] ==> score_order(scores)(i, j) == Order::Equal,
{
}

/// What contracts say of the conditions is what the conditions hold, one for one.
pub proof fn conditions_are_seen_whole(v: Seq<TorrentsFilter>, i: int)
    ensures
        filters_of(v).len() == v.len(),
        0 <= i < v.len() ==> filters_of(v)[i].field == v[i].field && filters_of(v)[i].value
            == v[i].value@ && filters_of(v)[i].language == v[i].language,
{
}

/// What contracts say of the rows of a page is what the rows hold, one for one.
pub proof fn rows_are_seen_whole(v: Seq<TorrentsRow>, i: int)
    requires
        0 <= i < v.len(),
    ensures
        rows_of(v).len() == v.len(),
        ({
            let r = rows_of(v)[i];
            &&& r.id == v[i].id@
            &&& r.mam_id == v[i].mam_id
            &&& r.meta.title == v[i].meta.title@
            &&& r.meta.media_type == v[i].meta.media_type@
            &&& r.meta.cat_name == v[i].meta.cat_name@
            &&& r.meta.categories == crate::text::texts(v[i].meta.categories@)
            &&& r.meta.flags == crate::text::texts(v[i].meta.flags@)
            &&& r.meta.authors == crate::text::texts(v[i].meta.authors@)
            &&& r.meta.narrators == crate::text::texts(v[i].meta.narrators@)
            &&& r.meta.series.len() == v[i].meta.series@.len()
            &&& r.meta.size == v[i].meta.size@
            &&& r.meta.filetypes == crate::text::texts(v[i].meta.filetypes@)
            &&& v[i].meta.cat_id matches Some(s) ==> r.meta.cat_id == Some(s@)
            &&& v[i].meta.edition matches Some(s) ==> r.meta.edition == Some(s@)
            &&& v[i].meta.language matches Some(s) ==> r.meta.language == Some(s@)
            &&& v[i].linker matches Some(s) ==> r.linker == Some(s@)
            &&& v[i].category matches Some(s) ==> r.category == Some(s@)
            &&& v[i].library_path matches Some(s) ==> r.library_path == Some(s@)
            &&& v[i].client_status matches Some(s) ==> r.client_status == Some(s@)
            &&& v[i].abs_id matches Some(s) ==> r.abs_id == Some(s@)
            &&& v[i].library_mismatch is Some <==> r.library_mismatch is Some
            &&& r.linked == v[i].linked
            &&& r.created_at == v[i].created_at@
            &&& r.uploaded_at == v[i].uploaded_at@
        }),
{
}

/// A finding that a row shows can be filtered by, and its title ends in the path
/// that it names.
pub proof fn shown_finding_can_be_filtered(m: TorrentLibraryMismatch)
    ensures
        mismatch_matches(crate::web::types::shown_mismatch(Some(m)), m.filter_text()),
        m matches TorrentLibraryMismatch::NewLibraryDir(p) ==> crate::text::has_suffix(
            m.title_text(),
            p@,
        ),
        m matches TorrentLibraryMismatch::NewPath(p) ==> crate::text::has_suffix(m.title_text(), p@),
{
    reveal_strlit("new_library");
    reveal_strlit("new_path");
    reveal_strlit("no_library");
    match m {
        TorrentLibraryMismatch::NewLibraryDir(p) => {
            crate::text::front_and_back_are_found("Wanted library dir: "@, p@, p@);
        },
        TorrentLibraryMismatch::NewPath(p) => {
            crate::text::front_and_back_are_found("Wanted library path: "@, p@, p@);
        },
        TorrentLibraryMismatch::NoLibrary => {},
    }
}

} // verus!
