//! The torrents that are selected for download: which are shown, in what order,
//! and what can be done with them.
use vstd::prelude::*;
use vstd::string::*;

use crate::model::{Flags, MetaView, SeriesView, Term, TorrentMeta};
use crate::order::{order_i64, order_text, order_texts, order_u64, stable_order, Order};
use crate::text::{clone_option, clone_texts, has_entry, same_text};
use crate::web::filter::{
    clamp_from, has_series, match_category, match_flags, match_language, match_option, part_bounds,
};
use crate::web::torrents::{
    order_option_text, order_series, order_term, order_time, series_texts,
};
use crate::web::types::SeriesText;

verus! {

/// What selected torrents are sorted by.
#[derive(Clone, Copy, Debug, PartialEq, Eq, Structural)]
pub enum SelectedPageSort {
    Kind,
    Title,
    Authors,
    Narrators,
    Series,
    Language,
    Size,
    Cost,
    Buffer,
    Grabber,
    CreatedAt,
    StartedAt,
}

/// What selected torrents are filtered by.
#[derive(Clone, Copy, Debug, PartialEq, Eq, Structural)]
pub enum SelectedPageFilter {
    Kind,
    Category,
    Flags,
    Title,
    Author,
    Narrator,
    Series,
    Language,
    Filetype,
    Cost,
    Grabber,
}

/// What can be done with several selected torrents at once.
#[derive(Clone, Copy, Debug, PartialEq, Eq, Structural)]
pub enum SelectedBulkAction {
    Remove,
    Update,
}

/// A torrent that is selected for download.
#[derive(Debug, PartialEq)]
pub struct SelectedTorrent {
    pub mam_id: u64,
    pub meta: TorrentMeta,
    pub cost: Term,
    pub unsat_buffer: Option<u64>,
    pub grabber: Option<String>,
    pub created_at: i64,
    pub started_at: Option<i64>,
    pub removed_at: Option<i64>,
}

#[verifier::ext_equal]
pub struct SelectedView {
    pub mam_id: u64,
    pub meta: MetaView,
    pub cost: (u64, Seq<char>),
    pub unsat_buffer: Option<u64>,
    pub grabber: Option<Seq<char>>,
    pub created_at: i64,
    pub started_at: Option<i64>,
    pub removed_at: Option<i64>,
}

impl View for SelectedTorrent {
    type V = SelectedView;

    open spec fn view(&self) -> SelectedView {
        SelectedView {
            mam_id: self.mam_id,
            meta: self.meta@,
            cost: self.cost@,
            unsat_buffer: self.unsat_buffer,
            grabber: crate::text::text_of(self.grabber),
            created_at: self.created_at,
            started_at: self.started_at,
            removed_at: self.removed_at,
        }
    }
}

/// A condition on selected torrents. `language` is the place, in the list of
/// languages, of the language that the value stands for.
#[derive(Debug, PartialEq)]
pub struct SelectedFilter {
    pub field: SelectedPageFilter,
    pub value: String,
    pub language: Option<u64>,
}

#[verifier::ext_equal]
pub struct SelectedFilterView {
    pub field: SelectedPageFilter,
    pub value: Seq<char>,
    pub language: Option<u64>,
}

impl View for SelectedFilter {
    type V = SelectedFilterView;

    open spec fn view(&self) -> SelectedFilterView {
        SelectedFilterView { field: self.field, value: self.value@, language: self.language }
    }
}

/// The torrent meets the condition.
pub open spec fn selected_matches(t: SelectedView, f: SelectedFilterView) -> bool {
    let value = f.value;
    match f.field {
        SelectedPageFilter::Kind => t.meta.media_type.1 == value,
        SelectedPageFilter::Category => crate::web::filter::category_matches(t.meta.cat, value),
        SelectedPageFilter::Flags => crate::web::filter::flags_match(t.meta.flags, value),
        SelectedPageFilter::Title => t.meta.title == value,
        SelectedPageFilter::Author => t.meta.authors.contains(value),
        SelectedPageFilter::Narrator => t.meta.narrators.contains(value),
        SelectedPageFilter::Series => crate::web::filter::series_names(t.meta.series).contains(
            value,
        ),
        SelectedPageFilter::Language => crate::web::filter::language_matches(
            t.meta.language,
            value,
            f.language,
        ),
        SelectedPageFilter::Filetype => t.meta.filetypes.contains(value),
        SelectedPageFilter::Cost => t.cost.1 == value,
        SelectedPageFilter::Grabber => crate::web::filter::option_matches(t.grabber, value),
    }
}

/// Whether a selected torrent meets a condition.
pub fn matches_selected(t: &SelectedTorrent, filter: &SelectedFilter) -> (r: bool)
    ensures
        r == selected_matches(t@, filter@),
{
    let value = filter.value.as_str();
    match filter.field {
        SelectedPageFilter::Kind => same_text(t.meta.media_type.name.as_str(), value),
        SelectedPageFilter::Category => match_category(&t.meta, value),
        SelectedPageFilter::Flags => match_flags(&t.meta, value),
        SelectedPageFilter::Title => same_text(t.meta.title.as_str(), value),
        SelectedPageFilter::Author => has_entry(&t.meta.authors, value),
        SelectedPageFilter::Narrator => has_entry(&t.meta.narrators, value),
        SelectedPageFilter::Series => has_series(&t.meta.series, value),
        SelectedPageFilter::Language => match_language(&t.meta.language, value, filter.language),
        SelectedPageFilter::Filetype => has_entry(&t.meta.filetypes, value),
        SelectedPageFilter::Cost => same_text(t.cost.name.as_str(), value),
        SelectedPageFilter::Grabber => match_option(&t.grabber, value),
    }
}

pub open spec fn selected_filters_of(v: Seq<SelectedFilter>) -> Seq<SelectedFilterView> {
    v.map_values(|f: SelectedFilter| f@)
}

pub open spec fn all_selected_match(t: SelectedView, filters: Seq<SelectedFilterView>) -> bool {
    forall|i: int| 0 <= i < filters.len() ==> selected_matches(t, #[trigger] filters[i])
}

fn matches_all(t: &SelectedTorrent, filters: &Vec<SelectedFilter>) -> (r: bool)
    ensures
        r == all_selected_match(t@, selected_filters_of(filters@)),
{
    let ghost all = selected_filters_of(filters@);
    let mut i: usize = 0;
    while i < filters.len()
        invariant
            i <= filters@.len(),
            all == selected_filters_of(filters@),
            forall|k: int| 0 <= k < i ==> selected_matches(t@, #[trigger] all[k]),
        decreases filters@.len() - i,
    {
        if !matches_selected(t, &filters[i]) {
            assert(!selected_matches(t@, all[i as int]));
            return false;
        }
        i = i + 1;
    }
    true
}

/// How many torrents may be unsatisfied for this one to be downloaded: its own
/// number, or the general one.
pub open spec fn buffer_of(t: SelectedView, default_unsat: u64) -> u64 {
    match t.unsat_buffer {
        Some(n) => n,
        None => default_unsat,
    }
}

/// The order of two selected torrents by a column.
pub open spec fn selected_order(
    sort: SelectedPageSort,
    default_unsat: u64,
    a: SelectedView,
    b: SelectedView,
) -> Order {
    match sort {
        SelectedPageSort::Kind => crate::order::int_order(
            a.meta.media_type.0 as int,
            b.meta.media_type.0 as int,
        ),
        SelectedPageSort::Title => crate::order::text_order(a.meta.title, b.meta.title),
        SelectedPageSort::Authors => crate::order::texts_order(a.meta.authors, b.meta.authors),
        SelectedPageSort::Narrators => crate::order::texts_order(
            a.meta.narrators,
            b.meta.narrators,
        ),
        SelectedPageSort::Series => crate::web::torrents::series_order(
            a.meta.series,
            b.meta.series,
        ),
        SelectedPageSort::Language => crate::web::torrents::term_order(
            a.meta.language,
            b.meta.language,
        ),
        SelectedPageSort::Size => crate::order::int_order(a.meta.size as int, b.meta.size as int),
        SelectedPageSort::Cost => crate::order::int_order(a.cost.0 as int, b.cost.0 as int),
        SelectedPageSort::Buffer => crate::order::int_order(
            buffer_of(a, default_unsat) as int,
            buffer_of(b, default_unsat) as int,
        ),
        SelectedPageSort::Grabber => crate::web::torrents::optional_text_order(
            a.grabber,
            b.grabber,
        ),
        SelectedPageSort::CreatedAt => crate::order::int_order(
            a.created_at as int,
            b.created_at as int,
        ),
        SelectedPageSort::StartedAt => crate::web::torrents::time_order(a.started_at, b.started_at),
    }
}

/// Sorting by a column is sorting by a total order, whichever the column.
pub proof fn selected_order_is_ordering(sort: SelectedPageSort, default_unsat: u64)
    ensures
        crate::order::is_ordering(
            |a: SelectedView, b: SelectedView| selected_order(sort, default_unsat, a, b),
        ),
{
    let goal = |a: SelectedView, b: SelectedView| selected_order(sort, default_unsat, a, b);
    crate::order::lemma_int_ordering();
    let ints = |a: int, b: int| crate::order::int_order(a, b);
    match sort {
        SelectedPageSort::Kind => {
            let key = |t: SelectedView| t.meta.media_type.0 as int;
            crate::order::lemma_key_ordering(ints, key);
            assert(goal =~= (|a: SelectedView, b: SelectedView| ints(key(a), key(b))));
        },
        SelectedPageSort::Title => {
            crate::order::lemma_text_ordering();
            let c = |a: Seq<char>, b: Seq<char>| crate::order::text_order(a, b);
            let key = |t: SelectedView| t.meta.title;
            crate::order::lemma_key_ordering(c, key);
            assert(goal =~= (|a: SelectedView, b: SelectedView| c(key(a), key(b))));
        },
        SelectedPageSort::Authors => {
            crate::order::lemma_texts_ordering();
            let c = |a: Seq<Seq<char>>, b: Seq<Seq<char>>| crate::order::texts_order(a, b);
            let key = |t: SelectedView| t.meta.authors;
            crate::order::lemma_key_ordering(c, key);
            assert(goal =~= (|a: SelectedView, b: SelectedView| c(key(a), key(b))));
        },
        SelectedPageSort::Narrators => {
            crate::order::lemma_texts_ordering();
            let c = |a: Seq<Seq<char>>, b: Seq<Seq<char>>| crate::order::texts_order(a, b);
            let key = |t: SelectedView| t.meta.narrators;
            crate::order::lemma_key_ordering(c, key);
            assert(goal =~= (|a: SelectedView, b: SelectedView| c(key(a), key(b))));
        },
        SelectedPageSort::Series => {
            crate::web::torrents::lemma_series_ordering();
            let c = |a: Seq<SeriesView>, b: Seq<SeriesView>|
                crate::web::torrents::series_order(a, b);
            let key = |t: SelectedView| t.meta.series;
            crate::order::lemma_key_ordering(c, key);
            assert(goal =~= (|a: SelectedView, b: SelectedView| c(key(a), key(b))));
        },
        SelectedPageSort::Language => {
            crate::web::torrents::lemma_term_ordering();
            let c = |a: Option<(u64, Seq<char>)>, b: Option<(u64, Seq<char>)>|
                crate::web::torrents::term_order(a, b);
            let key = |t: SelectedView| t.meta.language;
            crate::order::lemma_key_ordering(c, key);
            assert(goal =~= (|a: SelectedView, b: SelectedView| c(key(a), key(b))));
        },
        SelectedPageSort::Size => {
            let key = |t: SelectedView| t.meta.size as int;
            crate::order::lemma_key_ordering(ints, key);
            assert(goal =~= (|a: SelectedView, b: SelectedView| ints(key(a), key(b))));
        },
        SelectedPageSort::Cost => {
            let key = |t: SelectedView| t.cost.0 as int;
            crate::order::lemma_key_ordering(ints, key);
            assert(goal =~= (|a: SelectedView, b: SelectedView| ints(key(a), key(b))));
        },
        SelectedPageSort::Buffer => {
            let key = |t: SelectedView| buffer_of(t, default_unsat) as int;
            crate::order::lemma_key_ordering(ints, key);
            assert(goal =~= (|a: SelectedView, b: SelectedView| ints(key(a), key(b))));
        },
        SelectedPageSort::Grabber => {
            crate::web::torrents::lemma_optional_text_ordering();
            let c = |a: Option<Seq<char>>, b: Option<Seq<char>>|
                crate::web::torrents::optional_text_order(a, b);
            let key = |t: SelectedView| t.grabber;
            crate::order::lemma_key_ordering(c, key);
            assert(goal =~= (|a: SelectedView, b: SelectedView| c(key(a), key(b))));
        },
        SelectedPageSort::CreatedAt => {
            let key = |t: SelectedView| t.created_at as int;
            crate::order::lemma_key_ordering(ints, key);
            assert(goal =~= (|a: SelectedView, b: SelectedView| ints(key(a), key(b))));
        },
        SelectedPageSort::StartedAt => {
            crate::web::torrents::lemma_time_ordering();
            let c = |a: Option<i64>, b: Option<i64>| crate::web::torrents::time_order(a, b);
            let key = |t: SelectedView| t.started_at;
            crate::order::lemma_key_ordering(c, key);
            assert(goal =~= (|a: SelectedView, b: SelectedView| c(key(a), key(b))));
        },
    }
}

fn buffer(t: &SelectedTorrent, default_unsat: u64) -> (r: u64)
    ensures
        r == buffer_of(t@, default_unsat),
{
    match t.unsat_buffer {
        Some(n) => n,
        None => default_unsat,
    }
}

/// Compares two selected torrents by a column.
pub fn order_selected(
    sort: SelectedPageSort,
    default_unsat: u64,
    a: &SelectedTorrent,
    b: &SelectedTorrent,
) -> (r: Order)
    ensures
        r == selected_order(sort, default_unsat, a@, b@),
{
    match sort {
        SelectedPageSort::Kind => order_u64(a.meta.media_type.rank, b.meta.media_type.rank),
        SelectedPageSort::Title => order_text(a.meta.title.as_str(), b.meta.title.as_str()),
        SelectedPageSort::Authors => order_texts(&a.meta.authors, &b.meta.authors),
        SelectedPageSort::Narrators => order_texts(&a.meta.narrators, &b.meta.narrators),
        SelectedPageSort::Series => order_series(&a.meta.series, &b.meta.series),
        SelectedPageSort::Language => order_term(&a.meta.language, &b.meta.language),
        SelectedPageSort::Size => order_u64(a.meta.size, b.meta.size),
        SelectedPageSort::Cost => order_u64(a.cost.rank, b.cost.rank),
        SelectedPageSort::Buffer => order_u64(buffer(a, default_unsat), buffer(b, default_unsat)),
        SelectedPageSort::Grabber => order_option_text(&a.grabber, &b.grabber),
        SelectedPageSort::CreatedAt => order_i64(a.created_at, b.created_at),
        SelectedPageSort::StartedAt => order_time(&a.started_at, &b.started_at),
    }
}

/// What is shown of a selected book.
#[derive(Debug, PartialEq, Eq)]
pub struct SelectedMeta {
    pub title: String,
    pub media_type: String,
    pub cat_name: String,
    pub cat_id: Option<String>,
    pub flags: Vec<String>,
    pub authors: Vec<String>,
    pub narrators: Vec<String>,
    pub series: Vec<SeriesText>,
    pub language: Option<String>,
    pub size: String,
    pub filetypes: Vec<String>,
}

/// What is shown of a selected torrent.
#[derive(Debug, PartialEq, Eq)]
pub struct SelectedRow {
    pub mam_id: u64,
    pub meta: SelectedMeta,
    pub cost: String,
    pub required_unsats: u64,
    pub grabber: Option<String>,
    pub created_at: String,
    pub started_at: Option<String>,
    pub removed_at: Option<String>,
}

#[verifier::ext_equal]
pub struct SelectedMetaView {
    pub title: Seq<char>,
    pub media_type: Seq<char>,
    pub cat_name: Seq<char>,
    pub cat_id: Option<Seq<char>>,
    pub flags: Seq<Seq<char>>,
    pub authors: Seq<Seq<char>>,
    pub narrators: Seq<Seq<char>>,
    pub series: Seq<(Seq<char>, Seq<char>)>,
    pub language: Option<Seq<char>>,
    pub size: Seq<char>,
    pub filetypes: Seq<Seq<char>>,
}

#[verifier::ext_equal]
pub struct SelectedRowView {
    pub mam_id: u64,
    pub meta: SelectedMetaView,
    pub cost: Seq<char>,
    pub required_unsats: u64,
    pub grabber: Option<Seq<char>>,
    pub created_at: Seq<char>,
    pub started_at: Option<Seq<char>>,
    pub removed_at: Option<Seq<char>>,
}

impl View for SelectedRow {
    type V = SelectedRowView;

    open spec fn view(&self) -> SelectedRowView {
        SelectedRowView {
            mam_id: self.mam_id,
            meta: SelectedMetaView {
                title: self.meta.title@,
                media_type: self.meta.media_type@,
                cat_name: self.meta.cat_name@,
                cat_id: crate::text::text_of(self.meta.cat_id),
                flags: crate::text::texts(self.meta.flags@),
                authors: crate::text::texts(self.meta.authors@),
                narrators: crate::text::texts(self.meta.narrators@),
                series: self.meta.series@.map_values(
                    |s: SeriesText| crate::web::types::series_text(s),
                ),
                language: crate::text::text_of(self.meta.language),
                size: self.meta.size@,
                filetypes: crate::text::texts(self.meta.filetypes@),
            },
            cost: self.cost@,
            required_unsats: self.required_unsats,
            grabber: crate::text::text_of(self.grabber),
            created_at: self.created_at@,
            started_at: crate::text::text_of(self.started_at),
            removed_at: crate::text::text_of(self.removed_at),
        }
    }
}

/// What is shown of a selected torrent in words that come from the catalogue:
/// its size and its dates.
#[derive(Debug, PartialEq)]
pub struct SelectedTexts {
    pub size: String,
    pub created_at: String,
    pub started_at: String,
    pub removed_at: String,
}

/// A selected torrent's record, with what is shown of it in the catalogue's
/// words.
pub struct StoredSelected {
    pub torrent: SelectedTorrent,
    pub texts: SelectedTexts,
}

/// The names of the flags that are set.
pub open spec fn flag_names(flags: Option<Flags>) -> Seq<Seq<char>> {
    match flags {
        None => seq![],
        Some(f) => crate::web::types::only_if(f.crude_language == Some(true), "language"@)
            + crate::web::types::only_if(f.violence == Some(true), "violence"@)
            + crate::web::types::only_if(f.some_explicit == Some(true), "some_explicit"@)
            + crate::web::types::only_if(f.explicit == Some(true), "explicit"@)
            + crate::web::types::only_if(f.abridged == Some(true), "abridged"@)
            + crate::web::types::only_if(f.lgbt == Some(true), "lgbt"@),
    }
}

/// Each flag that is shown is one that the book can be found by, and the other
/// way round.
pub proof fn shown_flags_can_be_filtered(flags: Flags, name: Seq<char>)
    ensures
        flag_names(Some(flags)).contains(name) <==> crate::web::filter::named_flag(flags, name)
            == Some(true),
{
    reveal_strlit("language");
    reveal_strlit("violence");
    reveal_strlit("some_explicit");
    reveal_strlit("explicit");
    reveal_strlit("abridged");
    reveal_strlit("lgbt");
    let words = seq![
        "language"@,
        "violence"@,
        "some_explicit"@,
        "explicit"@,
        "abridged"@,
        "lgbt"@,
    ];
    let set = seq![
        flags.crude_language == Some(true),
        flags.violence == Some(true),
        flags.some_explicit == Some(true),
        flags.explicit == Some(true),
        flags.abridged == Some(true),
        flags.lgbt == Some(true),
    ];
    assert("language"@[0] == 'l' && "language"@.len() == 8);
    assert("violence"@[0] == 'v' && "violence"@.len() == 8);
    assert("explicit"@[0] == 'e' && "explicit"@.len() == 8);
    assert("abridged"@[0] == 'a' && "abridged"@.len() == 8);
    assert("lgbt"@.len() == 4 && "some_explicit"@.len() == 13);
    let a = crate::web::types::only_if(set[0], words[0]);
    let b = a + crate::web::types::only_if(set[1], words[1]);
    let c = b + crate::web::types::only_if(set[2], words[2]);
    let d = c + crate::web::types::only_if(set[3], words[3]);
    let e = d + crate::web::types::only_if(set[4], words[4]);
    let f = e + crate::web::types::only_if(set[5], words[5]);
    assert(f == flag_names(Some(flags)));
    let none = Seq::<Seq<char>>::empty();
    assert(none + a == a);
    lemma_only_if_contains(none, set[0], words[0], name);
    lemma_only_if_contains(a, set[1], words[1], name);
    lemma_only_if_contains(b, set[2], words[2], name);
    lemma_only_if_contains(c, set[3], words[3], name);
    lemma_only_if_contains(d, set[4], words[4], name);
    lemma_only_if_contains(e, set[5], words[5], name);
}

proof fn lemma_only_if_contains(s: Seq<Seq<char>>, condition: bool, word: Seq<char>, name: Seq<char>)
    ensures
        (s + crate::web::types::only_if(condition, word)).contains(name) <==> s.contains(name) || (
        condition && name == word),
{
    let t = s + crate::web::types::only_if(condition, word);
    reveal(crate::web::types::only_if);
    if t.contains(name) {
        let k = choose|k: int| 0 <= k < t.len() && t[k] == name;
        if k < s.len() {
            assert(s[k] == name);
        }
    }
    if s.contains(name) {
        let k = choose|k: int| 0 <= k < s.len() && s[k] == name;
        assert(t[k] == name);
    }
    if condition && name == word {
        assert(t[s.len() as int] == name);
    }
}

/// What is shown of a selected torrent.
pub open spec fn selected_row(t: SelectedView, texts: SelectedTexts, default_unsat: u64) -> SelectedRowView {
    SelectedRowView {
        mam_id: t.mam_id,
        meta: SelectedMetaView {
            title: t.meta.title,
            media_type: t.meta.media_type.1,
            cat_name: match t.meta.cat {
                Some(c) => c.name,
                None => "N/A"@,
            },
            cat_id: match t.meta.cat {
                Some(c) => Some(c.id),
                None => None,
            },
            flags: flag_names(t.meta.flags),
            authors: t.meta.authors,
            narrators: t.meta.narrators,
            series: t.meta.series.map_values(|s: SeriesView| (s.name, s.entries)),
            language: match t.meta.language {
                Some(l) => Some(l.1),
                None => None,
            },
            size: texts.size@,
            filetypes: t.meta.filetypes,
        },
        cost: t.cost.1,
        required_unsats: buffer_of(t, default_unsat),
        grabber: t.grabber,
        created_at: texts.created_at@,
        started_at: if t.started_at is Some {
            Some(texts.started_at@)
        } else {
            None
        },
        removed_at: if t.removed_at is Some {
            Some(texts.removed_at@)
        } else {
            None
        },
    }
}

fn push_flag(flags: &mut Vec<String>, set: Option<bool>, name: &str)
    ensures
        crate::text::texts(final(flags)@) == crate::text::texts(old(flags)@)
            + crate::web::types::only_if(set == Some(true), name@),
{
    let ghost before = crate::text::texts(flags@);
    proof {
        reveal(crate::web::types::only_if);
    }
    let push = match set {
        Some(b) => b,
        None => false,
    };
    if push {
        flags.push(name.to_owned());
        assert(crate::text::texts(flags@) == before.push(name@));
        assert(before.push(name@) == before + seq![name@]);
    } else {
        assert(before + Seq::<Seq<char>>::empty() == before);
    }
}

fn flag_values(flags: Option<Flags>) -> (r: Vec<String>)
    ensures
        crate::text::texts(r@) == flag_names(flags),
{
    let mut r: Vec<String> = Vec::new();
    assert(crate::text::texts(r@) == Seq::<Seq<char>>::empty());
    match flags {
        Some(f) => {
            push_flag(&mut r, f.crude_language, "language");
            push_flag(&mut r, f.violence, "violence");
            push_flag(&mut r, f.some_explicit, "some_explicit");
            push_flag(&mut r, f.explicit, "explicit");
            push_flag(&mut r, f.abridged, "abridged");
            push_flag(&mut r, f.lgbt, "lgbt");
            assert(crate::text::texts(r@) == flag_names(flags));
        },
        None => {},
    }
    r
}

/// What is shown of a selected torrent.
pub fn convert_selected_row(t: &SelectedTorrent, texts: &SelectedTexts, default_unsat: u64) -> (r:
    SelectedRow)
    ensures
        r@ == selected_row(t@, *texts, default_unsat),
{
    let (cat_name, cat_id): (String, Option<String>) = match &t.meta.cat {
        Some(c) => (c.name.clone(), Some(c.id.clone())),
        None => ("N/A".to_owned(), None),
    };
    let language: Option<String> = match &t.meta.language {
        Some(l) => Some(l.name.clone()),
        None => None,
    };
    SelectedRow {
        mam_id: t.mam_id,
        meta: SelectedMeta {
            title: t.meta.title.clone(),
            media_type: t.meta.media_type.name.clone(),
            cat_name,
            cat_id,
            flags: flag_values(t.meta.flags),
            authors: clone_texts(&t.meta.authors),
            narrators: clone_texts(&t.meta.narrators),
            series: series_texts(&t.meta.series),
            language,
            size: texts.size.clone(),
            filetypes: clone_texts(&t.meta.filetypes),
        },
        cost: t.cost.name.clone(),
        required_unsats: buffer(t, default_unsat),
        grabber: clone_option(&t.grabber),
        created_at: texts.created_at.clone(),
        started_at: if t.started_at.is_some() {
            Some(texts.started_at.clone())
        } else {
            None
        },
        removed_at: if t.removed_at.is_some() {
            Some(texts.removed_at.clone())
        } else {
            None
        },
    }
}

/// A page of selected torrents.
#[derive(Debug, PartialEq, Eq)]
pub struct SelectedData {
    pub torrents: Vec<SelectedRow>,
    pub queued: usize,
    pub downloading: usize,
    pub total: usize,
    pub from: usize,
    pub page_size: usize,
}

/// The row could be read, is not removed unless those are asked for too, and
/// meets the conditions.
pub open spec fn is_selected_listed(
    row: Option<StoredSelected>,
    include_removed: bool,
    filters: Seq<SelectedFilterView>,
) -> bool {
    row matches Some(s) && (include_removed || s.torrent.removed_at is None) && all_selected_match(
        s.torrent@,
        filters,
    )
}

/// The places of the rows that are listed, in order.
pub open spec fn selected_listed(
    rows: Seq<Option<StoredSelected>>,
    include_removed: bool,
    filters: Seq<SelectedFilterView>,
) -> Seq<int>
    decreases rows.len(),
{
    if rows.len() == 0 {
        seq![]
    } else {
        let before = selected_listed(rows.drop_last(), include_removed, filters);
        if is_selected_listed(rows.last(), include_removed, filters) {
            before.push(rows.len() - 1)
        } else {
            before
        }
    }
}

/// How many of the listed torrents have been started.
pub open spec fn started_count(rows: Seq<Option<StoredSelected>>, places: Seq<int>) -> nat
    decreases places.len(),
{
    if places.len() == 0 {
        0
    } else {
        started_count(rows, places.drop_last()) + if rows[places.last()].unwrap().torrent.started_at
            is Some {
            1nat
        } else {
            0nat
        }
    }
}

/// The order of the listed rows: by a column, or as they are.
pub open spec fn selected_listing_order(
    rows: Seq<Option<StoredSelected>>,
    places: Seq<int>,
    sort: Option<SelectedPageSort>,
    asc: bool,
    default_unsat: u64,
) -> spec_fn(int, int) -> Order {
    |i: int, j: int|
        {
            let a = rows[places[i]].unwrap().torrent@;
            let b = rows[places[j]].unwrap().torrent@;
            match sort {
                Some(s) => crate::web::torrents::directed(
                    selected_order(s, default_unsat, a, b),
                    asc,
                ),
                None => Order::Equal,
            }
        }
}

pub open spec fn shown_selected(
    rows: Seq<Option<StoredSelected>>,
    places: Seq<int>,
    default_unsat: u64,
) -> Seq<SelectedRowView> {
    places.map_values(
        |i: int| selected_row(rows[i].unwrap().torrent@, rows[i].unwrap().texts, default_unsat),
    )
}

pub open spec fn selected_rows_of(v: Seq<SelectedRow>) -> Seq<SelectedRowView> {
    v.map_values(|r: SelectedRow| r@)
}

proof fn lemma_selected_readable(
    rows: Seq<Option<StoredSelected>>,
    include_removed: bool,
    filters: Seq<SelectedFilterView>,
)
    ensures
        forall|k: int|
            0 <= k < selected_listed(rows, include_removed, filters).len() ==> 0
                <= #[trigger] selected_listed(rows, include_removed, filters)[k] < rows.len()
                && rows[selected_listed(rows, include_removed, filters)[k]] is Some,
    decreases rows.len(),
{
    if rows.len() > 0 {
        let rest = rows.drop_last();
        lemma_selected_readable(rest, include_removed, filters);
        let before = selected_listed(rest, include_removed, filters);
        let all = selected_listed(rows, include_removed, filters);
        assert forall|k: int| 0 <= k < all.len() implies 0 <= #[trigger] all[k] < rows.len()
            && rows[all[k]] is Some by {
            if k < before.len() {
                assert(all[k] == before[k]);
                assert(rest[before[k]] == rows[before[k]]);
            }
        }
    }
}

proof fn lemma_selected_listing_order(
    rows: Seq<Option<StoredSelected>>,
    places: Seq<int>,
    sort: Option<SelectedPageSort>,
    asc: bool,
    default_unsat: u64,
)
    ensures
        crate::order::is_ordering(selected_listing_order(rows, places, sort, asc, default_unsat)),
{
    let goal = selected_listing_order(rows, places, sort, asc, default_unsat);
    let view = |i: int| rows[places[i]].unwrap().torrent@;
    match sort {
        Some(s) => {
            selected_order_is_ordering(s, default_unsat);
            let c = |a: SelectedView, b: SelectedView| selected_order(s, default_unsat, a, b);
            crate::order::lemma_reversed_ordering(c);
            let d = |a: SelectedView, b: SelectedView|
                crate::web::torrents::directed(selected_order(s, default_unsat, a, b), asc);
            if asc {
                assert(d =~= c);
            } else {
                assert(d =~= (|a: SelectedView, b: SelectedView| crate::order::reversed(c(a, b))));
            }
            crate::order::lemma_key_ordering(d, view);
            assert(goal =~= (|i: int, j: int| d(view(i), view(j))));
        },
        None => {},
    }
}

fn list_selected(
    rows: &Vec<Option<StoredSelected>>,
    include_removed: bool,
    filters: &Vec<SelectedFilter>,
) -> (r: (Vec<usize>, usize))
    ensures
        crate::web::torrents::ints_of(r.0@) == selected_listed(
            rows@,
            include_removed,
            selected_filters_of(filters@),
        ),
        r.1 == started_count(rows@, crate::web::torrents::ints_of(r.0@)),
        r.1 <= r.0@.len(),
{
    let ghost fv = selected_filters_of(filters@);
    let mut places: Vec<usize> = Vec::new();
    let mut started: usize = 0;
    let mut i: usize = 0;
    assert(crate::web::torrents::ints_of(places@) == selected_listed(
        rows@.take(0),
        include_removed,
        fv,
    ));
    while i < rows.len()
        invariant
            i <= rows@.len(),
            fv == selected_filters_of(filters@),
            crate::web::torrents::ints_of(places@) == selected_listed(
                rows@.take(i as int),
                include_removed,
                fv,
            ),
            started == started_count(rows@, crate::web::torrents::ints_of(places@)),
            started <= places@.len() <= i,
        decreases rows@.len() - i,
    {
        let ghost now = rows@.take(i + 1);
        let ghost before = crate::web::torrents::ints_of(places@);
        proof {
            assert(now.drop_last() == rows@.take(i as int));
            assert(now.last() == rows@[i as int]);
        }
        match &rows[i] {
            Some(s) => {
                if (include_removed || s.torrent.removed_at.is_none()) && matches_all(
                    &s.torrent,
                    filters,
                ) {
                    places.push(i);
                    let ghost after = crate::web::torrents::ints_of(places@);
                    assert(after == before.push(i as int));
                    assert(after.drop_last() == before);
                    if s.torrent.started_at.is_some() {
                        started = started + 1;
                    }
                }
            },
            None => {},
        }
        i = i + 1;
    }
    assert(rows@.take(i as int) == rows@);
    (places, started)
}

fn sort_selected(
    rows: &Vec<Option<StoredSelected>>,
    places: &Vec<usize>,
    sort: Option<SelectedPageSort>,
    asc: bool,
    default_unsat: u64,
    Ghost(c): Ghost<spec_fn(int, int) -> Order>,
) -> (r: Vec<usize>)
    requires
        forall|k: int|
            0 <= k < places@.len() ==> #[trigger] places@[k] < rows@.len()
                && rows@[places@[k] as int] is Some,
        c == selected_listing_order(
            rows@,
            crate::web::torrents::ints_of(places@),
            sort,
            asc,
            default_unsat,
        ),
        crate::order::is_ordering(c),
    ensures
        crate::order::is_stable_order(r@, 0, places@.len() as int, c),
{
    let n: usize = places.len();
    let f = |i: usize, j: usize| -> (o: Order)
        requires
            i < n,
            j < n,
            n == places@.len(),
            forall|k: int|
                0 <= k < places@.len() ==> #[trigger] places@[k] < rows@.len()
                    && rows@[places@[k] as int] is Some,
        ensures
            o == (match sort {
                Some(s) => crate::web::torrents::directed(
                    selected_order(
                        s,
                        default_unsat,
                        rows@[places@[i as int] as int].unwrap().torrent@,
                        rows@[places@[j as int] as int].unwrap().torrent@,
                    ),
                    asc,
                ),
                None => Order::Equal,
            }),
        {
            match (&rows[places[i]], &rows[places[j]], sort) {
                (Some(a), Some(b), Some(s)) => {
                    let o = order_selected(s, default_unsat, &a.torrent, &b.torrent);
                    if asc {
                        o
                    } else {
                        o.reverse()
                    }
                },
                _ => Order::Equal,
            }
        };
    assert forall|i: usize, j: usize, o: Order|
        i < n && j < n && f.ensures((i, j), o) implies o == c(i as int, j as int) by {
        let p = crate::web::torrents::ints_of(places@);
        assert(p[i as int] == places@[i as int] as int);
        assert(p[j as int] == places@[j as int] as int);
    }
    stable_order(n, f, Ghost(c))
}

/// The page of selected torrents that a request asks for. `rows` are the
/// torrents as the database holds them, `None` for one that could not be read;
/// `default_unsat` is the general limit of unsatisfied torrents.
pub fn get_selected_data(
    rows: &Vec<Option<StoredSelected>>,
    sort: Option<SelectedPageSort>,
    asc: bool,
    filters: &Vec<SelectedFilter>,
    include_removed: bool,
    from: Option<usize>,
    page_size: Option<usize>,
    default_unsat: u64,
) -> (r: SelectedData)
    ensures
        ({
            let places = selected_listed(rows@, include_removed, selected_filters_of(filters@));
            let size = match page_size {
                Some(n) => n,
                None => crate::web::torrents::DEFAULT_PAGE_SIZE,
            };
            let asked = match from {
                Some(n) => n,
                None => 0,
            };
            let start = crate::web::filter::page_start(
                asked as int,
                size as int,
                places.len() as int,
            );
            &&& r.total == places.len()
            &&& r.downloading == started_count(rows@, places)
            &&& r.queued == places.len() - started_count(rows@, places)
            &&& r.page_size == size
            &&& r.from == start
            &&& exists|order: Seq<usize>|
                #![trigger order.len()]
                crate::order::is_stable_order(
                    order,
                    0,
                    places.len() as int,
                    selected_listing_order(rows@, places, sort, asc, default_unsat),
                ) && selected_rows_of(r.torrents@) == shown_selected(
                    rows@,
                    crate::web::filter::part_of(
                        order.map_values(|k: usize| places[k as int]),
                        start,
                        size as int,
                    ),
                    default_unsat,
                )
        }),
{
    let asked: usize = match from {
        Some(n) => n,
        None => 0,
    };
    let size: usize = match page_size {
        Some(n) => n,
        None => crate::web::torrents::DEFAULT_PAGE_SIZE,
    };
    let (listed, started) = list_selected(rows, include_removed, filters);
    let ghost places = crate::web::torrents::ints_of(listed@);
    let ghost c = selected_listing_order(rows@, places, sort, asc, default_unsat);
    proof {
        lemma_selected_readable(rows@, include_removed, selected_filters_of(filters@));
        lemma_selected_listing_order(rows@, places, sort, asc, default_unsat);
        assert forall|k: int| 0 <= k < listed@.len() implies #[trigger] listed@[k] < rows@.len()
            && rows@[listed@[k] as int] is Some by {
            assert(places[k] == listed@[k] as int);
        }
    }
    let total: usize = listed.len();
    let order = sort_selected(rows, &listed, sort, asc, default_unsat, Ghost(c));
    let start: usize = clamp_from(asked, size, total);
    let (a, b) = part_bounds(total, start, size);
    let ghost want = order@.map_values(|k: usize| places[k as int]);
    let ghost part = want.subrange(a as int, b as int);
    let ghost goal = shown_selected(rows@, part, default_unsat);
    let mut torrents: Vec<SelectedRow> = Vec::new();
    let mut k: usize = a;
    while k < b
        invariant
            a <= k <= b <= order@.len(),
            order@.len() == listed@.len(),
            places == crate::web::torrents::ints_of(listed@),
            want == order@.map_values(|k: usize| places[k as int]),
            part == want.subrange(a as int, b as int),
            goal == shown_selected(rows@, part, default_unsat),
            forall|k: int| 0 <= k < order@.len() ==> 0 <= #[trigger] order@[k] < listed@.len(),
            forall|k: int|
                0 <= k < listed@.len() ==> #[trigger] listed@[k] < rows@.len()
                    && rows@[listed@[k] as int] is Some,
            selected_rows_of(torrents@) == goal.take(k - a),
        decreases b - k,
    {
        let ghost before = selected_rows_of(torrents@);
        assert(order@[k as int] < listed@.len());
        let place: usize = listed[order[k]];
        match &rows[place] {
            Some(s) => {
                let row = convert_selected_row(&s.torrent, &s.texts, default_unsat);
                torrents.push(row);
                proof {
                    assert(part[k - a] == place as int);
                    assert(goal[k - a] == row@);
                    assert(selected_rows_of(torrents@) == before.push(row@));
                    assert(goal.take(k - a + 1) == goal.take(k - a).push(goal[k - a]));
                }
            },
            None => {},
        }
        k = k + 1;
    }
    proof {
        assert(goal.take(b - a) == goal);
        assert(want.len() == total);
        assert(part == crate::web::filter::part_of(want, start as int, size as int));
        assert(order@.len() == places.len());
    }
    SelectedData {
        torrents,
        queued: total - started,
        downloading: started,
        total,
        from: start,
        page_size: size,
    }
}

/// Whether a torrent counts as one that is being downloaded.
pub fn is_downloading(t: &SelectedTorrent) -> (r: bool)
    ensures
        r == (t.removed_at is None && t.started_at is Some),
{
    t.removed_at.is_none() && t.started_at.is_some()
}

/// What becomes of a selected torrent's record.
pub enum SelectedChange {
    /// It stays as it is.
    Keep,
    /// It is written.
    Save(SelectedTorrent),
    /// It is deleted.
    Delete(SelectedTorrent),
}

/// What becomes of a selected torrent. Removing one marks it as removed, and
/// deletes it where it is marked already; updating one sets how many torrents
/// may be unsatisfied and takes the mark away.
pub open spec fn changed_selected(
    action: SelectedBulkAction,
    t: SelectedView,
    unsats: Option<u64>,
    now: i64,
) -> Option<SelectedView> {
    match action {
        SelectedBulkAction::Remove => if t.removed_at is None {
            Some(SelectedView { removed_at: Some(now), ..t })
        } else {
            None
        },
        SelectedBulkAction::Update => Some(
            SelectedView {
                unsat_buffer: Some(
                    match unsats {
                        Some(n) => n,
                        None => 0,
                    },
                ),
                removed_at: None,
                ..t
            },
        ),
    }
}

/// What is to be done with a selected torrent's record, if there is one.
pub fn apply_to_selected(
    action: SelectedBulkAction,
    stored: Option<SelectedTorrent>,
    unsats: Option<u64>,
    now: i64,
) -> (r: SelectedChange)
    ensures
        match stored {
            None => r is Keep,
            Some(t) => match changed_selected(action, t@, unsats, now) {
                Some(after) => r matches SelectedChange::Save(s) && s@ == after,
                None => r == SelectedChange::Delete(t),
            },
        },
{
    match stored {
        None => SelectedChange::Keep,
        Some(t) => {
            let mut t = t;
            match action {
                SelectedBulkAction::Remove => {
                    if t.removed_at.is_none() {
                        t.removed_at = Some(now);
                        SelectedChange::Save(t)
                    } else {
                        SelectedChange::Delete(t)
                    }
                },
                SelectedBulkAction::Update => {
                    t.unsat_buffer = Some(
                        match unsats {
                            Some(n) => n,
                            None => 0,
                        },
                    );
                    t.removed_at = None;
                    SelectedChange::Save(t)
                },
            }
        },
    }
}

/// No two records have the same id.
pub open spec fn has_distinct_ids(records: Seq<SelectedTorrent>) -> bool {
    forall|i: int, j: int|
        0 <= i < j < records.len() ==> (#[trigger] records[i]).mam_id != (
        #[trigger] records[j]).mam_id
}

/// The record under an id.
pub open spec fn record_under(records: Seq<SelectedTorrent>, id: u64) -> Option<SelectedView> {
    if exists|i: int| 0 <= i < records.len() && (#[trigger] records[i]).mam_id == id {
        Some(
            records[choose|i: int|
                0 <= i < records.len() && (#[trigger] records[i]).mam_id == id]@,
        )
    } else {
        None
    }
}

/// What is left of a record after an action on the torrents with the given ids,
/// one after the other. `now` are the times at which their turns come.
pub open spec fn record_after(
    action: SelectedBulkAction,
    ids: Seq<u64>,
    now: Seq<i64>,
    unsats: Option<u64>,
    id: u64,
    stored: Option<SelectedView>,
) -> Option<SelectedView>
    decreases ids.len(),
{
    if ids.len() == 0 {
        stored
    } else {
        let before = record_after(action, ids.drop_last(), now.drop_last(), unsats, id, stored);
        match before {
            Some(t) if ids.last() == id => changed_selected(action, t, unsats, now.last()),
            _ => before,
        }
    }
}

proof fn lemma_record_under(records: Seq<SelectedTorrent>, i: int)
    requires
        has_distinct_ids(records),
        0 <= i < records.len(),
    ensures
        record_under(records, records[i].mam_id) == Some(records[i]@),
{
    let j = choose|j: int|
        0 <= j < records.len() && (#[trigger] records[j]).mam_id == records[i].mam_id;
    assert(0 <= j < records.len() && records[j].mam_id == records[i].mam_id);
    assert(i == j);
}

/// A record is replaced by one under the same id.
proof fn lemma_record_replaced(records: Seq<SelectedTorrent>, i: int, t: SelectedTorrent)
    requires
        has_distinct_ids(records),
        0 <= i < records.len(),
        t.mam_id == records[i].mam_id,
    ensures
        has_distinct_ids(records.update(i, t)),
        forall|id: u64|
            #[trigger] record_under(records.update(i, t), id) == if id == t.mam_id {
                Some(t@)
            } else {
                record_under(records, id)
            },
{
    let after = records.update(i, t);
    assert(forall|k: int| 0 <= k < after.len() ==> #[trigger] after[k].mam_id == records[k].mam_id);
    assert forall|id: u64| #[trigger] record_under(after, id) == if id == t.mam_id {
        Some(t@)
    } else {
        record_under(records, id)
    } by {
        if id == t.mam_id {
            lemma_record_under(after, i);
        } else if exists|k: int| 0 <= k < records.len() && (#[trigger] records[k]).mam_id == id {
            let k = choose|k: int| 0 <= k < records.len() && (#[trigger] records[k]).mam_id == id;
            lemma_record_under(records, k);
            lemma_record_under(after, k);
        }
    }
}

/// A record is taken out.
proof fn lemma_record_taken(records: Seq<SelectedTorrent>, i: int)
    requires
        has_distinct_ids(records),
        0 <= i < records.len(),
    ensures
        has_distinct_ids(records.remove(i)),
        forall|id: u64|
            #[trigger] record_under(records.remove(i), id) == if id == records[i].mam_id {
                None
            } else {
                record_under(records, id)
            },
{
    let after = records.remove(i);
    assert(forall|k: int|
        0 <= k < after.len() ==> #[trigger] after[k] == records[if k < i {
            k
        } else {
            k + 1
        }]);
    assert forall|id: u64| #[trigger] record_under(after, id) == if id == records[i].mam_id {
        None
    } else {
        record_under(records, id)
    } by {
        if id != records[i].mam_id && (exists|k: int|
            0 <= k < records.len() && (#[trigger] records[k]).mam_id == id) {
            let k = choose|k: int| 0 <= k < records.len() && (#[trigger] records[k]).mam_id == id;
            let moved = if k < i {
                k
            } else {
                k - 1
            };
            assert(after[moved] == records[k]);
            lemma_record_under(records, k);
            lemma_record_under(after, moved);
        }
    }
}

fn find_record(records: &Vec<SelectedTorrent>, id: u64) -> (r: Option<usize>)
    ensures
        match r {
            Some(i) => i < records@.len() && records@[i as int].mam_id == id,
            None => forall|k: int| 0 <= k < records@.len() ==> (#[trigger] records@[k]).mam_id != id,
        },
{
    let mut i: usize = 0;
    while i < records.len()
        invariant
            i <= records@.len(),
            forall|k: int| 0 <= k < i ==> (#[trigger] records@[k]).mam_id != id,
        decreases records@.len() - i,
    {
        if records[i].mam_id == id {
            return Some(i);
        }
        i = i + 1;
    }
    None
}

/// Acts on the record under an id, if there is one.
fn act_on_record(
    action: SelectedBulkAction,
    records: &mut Vec<SelectedTorrent>,
    id: u64,
    unsats: Option<u64>,
    now: i64,
)
    requires
        has_distinct_ids(old(records)@),
    ensures
        has_distinct_ids(final(records)@),
        forall|k: u64|
            #[trigger] record_under(final(records)@, k) == record_after(
                action,
                seq![id],
                seq![now],
                unsats,
                k,
                record_under(old(records)@, k),
            ),
{
    let ghost before = records@;
    proof {
        reveal_with_fuel(record_after, 2);
        assert(seq![id].drop_last() == Seq::<u64>::empty());
    }
    match find_record(records, id) {
        None => {},
        Some(i) => {
            let t = records.remove(i);
            proof {
                lemma_record_under(before, i as int);
            }
            match apply_to_selected(action, Some(t), unsats, now) {
                SelectedChange::Save(s) => {
                    records.insert(i, s);
                    proof {
                        assert(records@ == before.update(i as int, s));
                        assert(s@.mam_id == id);
                        lemma_record_replaced(before, i as int, s);
                    }
                },
                _ => {
                    proof {
                        lemma_record_taken(before, i as int);
                    }
                },
            }
        },
    }
}

/// Acts on the records with the given ids, one after the other: an id that
/// comes twice is acted on twice. An action on none is an error. `records` are
/// the records that there are, and `now` the times at which the turns come.
pub fn apply_selected_action(
    action: SelectedBulkAction,
    mam_ids: &Vec<u64>,
    unsats: Option<u64>,
    now: &Vec<i64>,
    records: &mut Vec<SelectedTorrent>,
) -> (r: Result<(), String>)
    requires
        now@.len() == mam_ids@.len(),
        has_distinct_ids(old(records)@),
    ensures
        r is Err <==> mam_ids@.len() == 0,
        r matches Err(e) ==> e@ == "No torrents selected"@,
        has_distinct_ids(final(records)@),
        forall|id: u64|
            #[trigger] record_under(final(records)@, id) == record_after(
                action,
                mam_ids@,
                now@,
                unsats,
                id,
                record_under(old(records)@, id),
            ),
{
    if mam_ids.len() == 0 {
        return Err("No torrents selected".to_owned());
    }
    let ghost before = records@;
    let mut i: usize = 0;
    while i < mam_ids.len()
        invariant
            i <= mam_ids@.len(),
            now@.len() == mam_ids@.len(),
            has_distinct_ids(records@),
            forall|id: u64|
                #[trigger] record_under(records@, id) == record_after(
                    action,
                    mam_ids@.take(i as int),
                    now@.take(i as int),
                    unsats,
                    id,
                    record_under(before, id),
                ),
        decreases mam_ids@.len() - i,
    {
        let ghost ids = mam_ids@.take(i + 1);
        let ghost times = now@.take(i + 1);
        let ghost middle = records@;
        act_on_record(action, records, mam_ids[i], unsats, now[i]);
        proof {
            reveal_with_fuel(record_after, 2);
            assert(ids.drop_last() == mam_ids@.take(i as int));
            assert(times.drop_last() == now@.take(i as int));
            assert(seq![mam_ids@[i as int]].drop_last() == Seq::<u64>::empty());
            assert forall|id: u64| #[trigger] record_under(records@, id) == record_after(
                action,
                ids,
                times,
                unsats,
                id,
                record_under(before, id),
            ) by {
                let _ = record_under(middle, id);
            }
        }
        i = i + 1;
    }
    proof {
        assert(mam_ids@.take(i as int) == mam_ids@);
        assert(now@.take(i as int) == now@);
    }
    Ok(())
}

proof fn lemma_left_alone(
    action: SelectedBulkAction,
    ids: Seq<u64>,
    now: Seq<i64>,
    unsats: Option<u64>,
    id: u64,
    stored: Option<SelectedView>,
)
    requires
        stored is None || !ids.contains(id),
    ensures
        record_after(action, ids, now, unsats, id, stored) == stored,
    decreases ids.len(),
{
    if ids.len() > 0 {
        assert(ids.drop_last().contains(id) ==> ids.contains(id)) by {
            if ids.drop_last().contains(id) {
                let k = ids.drop_last().index_of(id);
                assert(ids[k] == id);
            }
        }
        assert(ids.contains(ids.last()));
        lemma_left_alone(action, ids.drop_last(), now.drop_last(), unsats, id, stored);
    }
}

/// An action changes no record but those with the given ids, and makes none.
pub proof fn action_is_confined(
    action: SelectedBulkAction,
    ids: Seq<u64>,
    now: Seq<i64>,
    unsats: Option<u64>,
    id: u64,
    stored: Option<SelectedView>,
)
    requires
        now.len() == ids.len(),
    ensures
        stored is None ==> record_after(action, ids, now, unsats, id, stored) is None,
        !ids.contains(id) ==> record_after(action, ids, now, unsats, id, stored) == stored,
{
    if stored is None || !ids.contains(id) {
        lemma_left_alone(action, ids, now, unsats, id, stored);
    }
}

/// Updating torrents again with the same number changes nothing.
pub proof fn update_settles_selected(unsats: Option<u64>, t: SelectedView, now: i64, later: i64)
    ensures
        changed_selected(SelectedBulkAction::Update, t, unsats, now) matches Some(after)
            && changed_selected(SelectedBulkAction::Update, after, unsats, later) == Some(after),
{
}

/// Removing a torrent twice deletes it.
pub proof fn second_removal_deletes(t: SelectedView, now: i64, later: i64)
    ensures
        record_after(
            SelectedBulkAction::Remove,
            seq![t.mam_id, t.mam_id],
            seq![now, later],
            None,
            t.mam_id,
            Some(t),
        ) is None,
{
    reveal_with_fuel(record_after, 3);
    let ids = seq![t.mam_id, t.mam_id];
    assert(ids.drop_last() == seq![t.mam_id]);
    assert(seq![now, later].drop_last() == seq![now]);
    assert(seq![t.mam_id].drop_last() == Seq::<u64>::empty());
}

/// What each condition asks for of a selected torrent.
pub proof fn selected_conditions_are_exact(t: SelectedView, f: SelectedFilterView)
    ensures
        ({
            let passes = selected_matches(t, f);
            let v = f.value;
            match f.field {
                SelectedPageFilter::Kind => passes <==> t.meta.media_type.1 == v,
                SelectedPageFilter::Category => {
                    &&& v.len() == 0 ==> (passes <==> t.meta.cat is None)
                    &&& v.len() > 0 && passes ==> t.meta.cat is Some
                    &&& v.len() > 0 ==> (t.meta.cat matches Some(c) && c.name == v ==> passes)
                },
                SelectedPageFilter::Flags => {
                    &&& v.len() == 0 ==> (passes <==> (t.meta.flags matches Some(x) ==> x.bits == 0))
                    &&& v.len() > 0 ==> (passes <==> (t.meta.flags matches Some(x) && flag_names(
                        Some(x),
                    ).contains(v)))
                },
                SelectedPageFilter::Title => passes <==> t.meta.title == v,
                SelectedPageFilter::Author => passes <==> t.meta.authors.contains(v),
                SelectedPageFilter::Narrator => passes <==> t.meta.narrators.contains(v),
                SelectedPageFilter::Series => passes <==> exists|i: int|
                    0 <= i < t.meta.series.len() && (#[trigger] t.meta.series[i]).name == v,
                SelectedPageFilter::Language => {
                    &&& v.len() == 0 || f.language is None ==> (passes <==> t.meta.language is None)
                    &&& v.len() > 0 ==> (f.language matches Some(named) ==> (passes <==> (
                    t.meta.language matches Some(l) && l.0 == named)))
                },
                SelectedPageFilter::Filetype => passes <==> t.meta.filetypes.contains(v),
                SelectedPageFilter::Cost => passes <==> t.cost.1 == v,
                SelectedPageFilter::Grabber => passes <==> t.grabber == (if v.len() == 0 {
                    None
                } else {
                    Some(v)
                }),
            }
        }),
{
    let v = f.value;
    match f.field {
        SelectedPageFilter::Flags => {
            if t.meta.flags is Some {
                shown_flags_can_be_filtered(t.meta.flags.unwrap(), v);
            }
        },
        SelectedPageFilter::Series => {
            let names = crate::web::filter::series_names(t.meta.series);
            if names.contains(v) {
                let i = choose|i: int| 0 <= i < names.len() && names[i] == v;
                assert(t.meta.series[i].name == v);
            }
            if exists|i: int| 0 <= i < t.meta.series.len() && (#[trigger] t.meta.series[i]).name
                == v {
                let i = choose|i: int|
                    0 <= i < t.meta.series.len() && (#[trigger] t.meta.series[i]).name == v;
                assert(names[i] == v);
            }
        },
        _ => {},
    }
}

proof fn lemma_selected_exact(
    rows: Seq<Option<StoredSelected>>,
    include_removed: bool,
    filters: Seq<SelectedFilterView>,
)
    ensures
        ({
            let all = selected_listed(rows, include_removed, filters);
            &&& forall|i: int|
                #![trigger all.contains(i)]
                all.contains(i) <==> 0 <= i < rows.len() && is_selected_listed(
                    rows[i],
                    include_removed,
                    filters,
                )
            &&& forall|k: int, l: int|
                0 <= k < l < all.len() ==> #[trigger] all[k] < #[trigger] all[l]
        }),
    decreases rows.len(),
{
    let all = selected_listed(rows, include_removed, filters);
    if rows.len() > 0 {
        let rest = rows.drop_last();
        let before = selected_listed(rest, include_removed, filters);
        let n = rows.len() - 1;
        lemma_selected_exact(rest, include_removed, filters);
        assert forall|k: int| 0 <= k < before.len() implies #[trigger] before[k] < n by {
            assert(before.contains(before[k]));
        }
        assert forall|i: int| #![trigger all.contains(i)] all.contains(i) <==> 0 <= i < rows.len()
            && is_selected_listed(rows[i], include_removed, filters) by {
            if all.contains(i) {
                let k = choose|k: int| 0 <= k < all.len() && all[k] == i;
                if k < before.len() {
                    assert(before[k] == i);
                    assert(before.contains(i));
                    assert(rest[i] == rows[i]);
                }
            }
            if 0 <= i < rows.len() && is_selected_listed(rows[i], include_removed, filters) {
                if i < n {
                    assert(rest[i] == rows[i]);
                    assert(before.contains(i));
                    let k = choose|k: int| 0 <= k < before.len() && before[k] == i;
                    assert(all[k] == i);
                } else {
                    assert(all[before.len() as int] == i);
                }
            }
        }
        assert forall|k: int, l: int| 0 <= k < l < all.len() implies #[trigger] all[k]
            < #[trigger] all[l] by {
            if l < before.len() {
                assert(all[k] == before[k] && all[l] == before[l]);
            } else {
                assert(all[k] == before[k]);
            }
        }
    }
}

/// A selected torrent is listed exactly when it could be read, meets every one
/// of the conditions and is not removed, unless removed ones are asked for; the
/// places that are listed ascend.
pub proof fn every_selected_condition_counts(
    rows: Seq<Option<StoredSelected>>,
    include_removed: bool,
    filters: Seq<SelectedFilterView>,
    i: int,
)
    requires
        0 <= i < rows.len(),
    ensures
        selected_listed(rows, include_removed, filters).contains(i) <==> {
            &&& rows[i] is Some
            &&& rows[i].unwrap().torrent.removed_at is Some ==> include_removed
            &&& forall|j: int|
                0 <= j < filters.len() ==> selected_matches(
                    rows[i].unwrap().torrent@,
                    #[trigger] filters[j],
                )
        },
        forall|k: int, l: int|
            0 <= k < l < selected_listed(rows, include_removed, filters).len()
                ==> #[trigger] selected_listed(rows, include_removed, filters)[k]
                < #[trigger] selected_listed(rows, include_removed, filters)[l],
{
    lemma_selected_exact(rows, include_removed, filters);
}

/// Where one of the conditions names a language of the list, every selected
/// torrent that is listed has exactly that language.
pub proof fn only_selected_in_the_language_are_listed(
    rows: Seq<Option<StoredSelected>>,
    include_removed: bool,
    filters: Seq<SelectedFilterView>,
    i: int,
    j: int,
    named: u64,
)
    requires
        0 <= i < rows.len(),
        0 <= j < filters.len(),
        filters[j].field == SelectedPageFilter::Language,
        filters[j].value.len() > 0,
        filters[j].language == Some(named),
        selected_listed(rows, include_removed, filters).contains(i),
    ensures
        rows[i] matches Some(s) && (s.torrent@.meta.language matches Some(l) && l.0 == named),
{
    every_selected_condition_counts(rows, include_removed, filters, i);
    let t = rows[i].unwrap().torrent@;
    assert(selected_matches(t, filters[j]));
    selected_conditions_are_exact(t, filters[j]);
}

/// A torrent counts as being downloaded exactly when its download was started.
pub proof fn started_torrents_are_counted(
    rows: Seq<Option<StoredSelected>>,
    places: Seq<int>,
    place: int,
)
    ensures
        started_count(rows, seq![]) == 0,
        rows[place].unwrap().torrent.started_at is Some ==> started_count(rows, places.push(place))
            == started_count(rows, places) + 1,
        rows[place].unwrap().torrent.started_at is None ==> started_count(rows, places.push(place))
            == started_count(rows, places),
{
    assert(places.push(place).drop_last() == places);
}

/// What a row shows is what its selected torrent holds; without a number of its
/// own for the unsatisfied torrents it shows the configured one.
pub proof fn row_shows_its_selected_torrent(
    t: SelectedView,
    texts: SelectedTexts,
    default_unsat: u64,
)
    ensures
        ({
            let r = selected_row(t, texts, default_unsat);
            &&& r.mam_id == t.mam_id
            &&& r.meta.title == t.meta.title
            &&& r.meta.media_type == t.meta.media_type.1
            &&& t.meta.cat matches Some(c) ==> r.meta.cat_name == c.name && r.meta.cat_id == Some(
                c.id,
            )
            &&& t.meta.cat is None ==> r.meta.cat_name == "N/A"@ && r.meta.cat_id is None
            &&& r.meta.authors == t.meta.authors
            &&& r.meta.narrators == t.meta.narrators
            &&& r.meta.series.len() == t.meta.series.len()
            &&& forall|i: int|
                0 <= i < t.meta.series.len() ==> #[trigger] r.meta.series[i] == (
                    t.meta.series[i].name,
                    t.meta.series[i].entries,
                )
            &&& t.meta.language matches Some(l) ==> r.meta.language == Some(l.1)
            &&& t.meta.language is None ==> r.meta.language is None
            &&& r.meta.size == texts.size@
            &&& r.meta.filetypes == t.meta.filetypes
            &&& r.cost == t.cost.1
            &&& t.unsat_buffer matches Some(n) ==> r.required_unsats == n
            &&& t.unsat_buffer is None ==> r.required_unsats == default_unsat
            &&& r.grabber == t.grabber
            &&& r.created_at == texts.created_at@
            &&& t.started_at is Some ==> r.started_at == Some(texts.started_at@)
            &&& t.started_at is None ==> r.started_at is None
            &&& t.removed_at is Some ==> r.removed_at == Some(texts.removed_at@)
            &&& t.removed_at is None ==> r.removed_at is None
        }),
        t.meta.flags is None ==> selected_row(t, texts, default_unsat).meta.flags.len() == 0,
        t.meta.flags matches Some(f) ==> {
            let shown = selected_row(t, texts, default_unsat).meta.flags;
            &&& shown.contains("language"@) <==> f.crude_language == Some(true)
            &&& shown.contains("violence"@) <==> f.violence == Some(true)
            &&& shown.contains("some_explicit"@) <==> f.some_explicit == Some(true)
            &&& shown.contains("explicit"@) <==> f.explicit == Some(true)
            &&& shown.contains("abridged"@) <==> f.abridged == Some(true)
            &&& shown.contains("lgbt"@) <==> f.lgbt == Some(true)
        },
{
    if t.meta.flags is Some {
        let f = t.meta.flags.unwrap();
        crate::web::filter::flag_filter_is_exact(f);
        reveal_strlit("violence");
        reveal_strlit("explicit");
        reveal_strlit("some_explicit");
        reveal_strlit("language");
        reveal_strlit("abridged");
        reveal_strlit("lgbt");
        shown_flags_can_be_filtered(f, "language"@);
        shown_flags_can_be_filtered(f, "violence"@);
        shown_flags_can_be_filtered(f, "some_explicit"@);
        shown_flags_can_be_filtered(f, "explicit"@);
        shown_flags_can_be_filtered(f, "abridged"@);
        shown_flags_can_be_filtered(f, "lgbt"@);
    }
}

/// By which of its fields a column orders the selected torrents: the smaller
/// number first, what is absent before what is there.
pub proof fn selected_column_goes_by_its_field(a: SelectedView, b: SelectedView, default_unsat: u64)
    ensures
        a.meta.media_type.0 < b.meta.media_type.0 ==> selected_order(
            SelectedPageSort::Kind,
            default_unsat,
            a,
            b,
        ) == Order::Less,
        selected_order(SelectedPageSort::Title, default_unsat, a, b) == crate::order::text_order(
            a.meta.title,
            b.meta.title,
        ),
        selected_order(SelectedPageSort::Authors, default_unsat, a, b) == crate::order::texts_order(
            a.meta.authors,
            b.meta.authors,
        ),
        selected_order(SelectedPageSort::Narrators, default_unsat, a, b)
            == crate::order::texts_order(a.meta.narrators, b.meta.narrators),
        a.meta.series.len() == 0 && b.meta.series.len() > 0 ==> selected_order(
            SelectedPageSort::Series,
            default_unsat,
            a,
            b,
        ) == Order::Less,
        a.meta.series.len() > 0 && b.meta.series.len() > 0 && a.meta.series[0].rank
            < b.meta.series[0].rank ==> selected_order(
            SelectedPageSort::Series,
            default_unsat,
            a,
            b,
        ) == Order::Less,
        (a.meta.language matches Some(x) && b.meta.language matches Some(y) && x.0 < y.0)
            ==> selected_order(SelectedPageSort::Language, default_unsat, a, b) == Order::Less,
        a.meta.size < b.meta.size ==> selected_order(SelectedPageSort::Size, default_unsat, a, b)
            == Order::Less,
        a.cost.0 < b.cost.0 ==> selected_order(SelectedPageSort::Cost, default_unsat, a, b)
            == Order::Less,
        (a.unsat_buffer matches Some(x) && b.unsat_buffer matches Some(y) && x < y)
            ==> selected_order(SelectedPageSort::Buffer, default_unsat, a, b) == Order::Less,
        (b.unsat_buffer matches Some(y) && a.unsat_buffer is None && default_unsat < y)
            ==> selected_order(SelectedPageSort::Buffer, default_unsat, a, b) == Order::Less,
        a.grabber is None && b.grabber is Some ==> selected_order(
            SelectedPageSort::Grabber,
            default_unsat,
            a,
            b,
        ) == Order::Less,
        (a.grabber is Some && b.grabber is Some) ==> selected_order(
            SelectedPageSort::Grabber,
            default_unsat,
            a,
            b,
        ) == crate::order::text_order(a.grabber.unwrap(), b.grabber.unwrap()),
        a.created_at < b.created_at ==> selected_order(
            SelectedPageSort::CreatedAt,
            default_unsat,
            a,
            b,
        ) == Order::Less,
        a.started_at is None && b.started_at is Some ==> selected_order(
            SelectedPageSort::StartedAt,
            default_unsat,
            a,
            b,
        ) == Order::Less,
        (a.started_at matches Some(x) && b.started_at matches Some(y) && x < y) ==> selected_order(
            SelectedPageSort::StartedAt,
            default_unsat,
            a,
            b,
        ) == Order::Less,
{
}

/// What an action does to one record: a removal marks it as removed now, and
/// deletes it if it was marked; an update takes over the number, 0 where none
/// is given, and takes the mark away. Nothing else of the record changes.
pub proof fn action_changes_only_its_fields(t: SelectedView, unsats: Option<u64>, now: i64)
    ensures
        t.removed_at is Some ==> changed_selected(SelectedBulkAction::Remove, t, unsats, now)
            is None,
        t.removed_at is None ==> (changed_selected(SelectedBulkAction::Remove, t, unsats, now)
            matches Some(r) && r.removed_at == Some(now) && r.unsat_buffer == t.unsat_buffer
            && r.mam_id == t.mam_id && r.meta == t.meta && r.cost == t.cost && r.grabber
            == t.grabber && r.created_at == t.created_at && r.started_at == t.started_at),
        changed_selected(SelectedBulkAction::Update, t, unsats, now) matches Some(r)
            && r.removed_at is None && (unsats matches Some(n) ==> r.unsat_buffer == Some(n)) && (
        unsats is None ==> r.unsat_buffer == Some(0u64)) && r.mam_id == t.mam_id && r.meta == t.meta
            && r.cost == t.cost && r.grabber == t.grabber && r.created_at == t.created_at
            && r.started_at == t.started_at,
{
}

proof fn lemma_record_after_rest(
    action: SelectedBulkAction,
    ids: Seq<u64>,
    now: Seq<i64>,
    unsats: Option<u64>,
    id: u64,
    stored: Option<SelectedView>,
    k: int,
)
    requires
        now.len() == ids.len(),
        0 <= k < ids.len(),
        forall|j: int| k < j < ids.len() ==> ids[j] != id,
    ensures
        record_after(action, ids, now, unsats, id, stored) == record_after(
            action,
            ids.take(k + 1),
            now.take(k + 1),
            unsats,
            id,
            stored,
        ),
    decreases ids.len(),
{
    if k < ids.len() - 1 {
        let rest = ids.drop_last();
        assert(ids[ids.len() - 1] != id);
        assert forall|j: int| k < j < rest.len() implies rest[j] != id by {
            assert(rest[j] == ids[j]);
        }
        lemma_record_after_rest(action, rest, now.drop_last(), unsats, id, stored, k);
        assert(rest.take(k + 1) == ids.take(k + 1));
        assert(now.drop_last().take(k + 1) == now.take(k + 1));
    } else {
        assert(ids.take(k + 1) == ids);
        assert(now.take(k + 1) == now);
    }
}

/// A record that is named once is changed once, at the time that goes with its
/// place. `k` is that place.
pub proof fn named_record_is_changed(
    action: SelectedBulkAction,
    ids: Seq<u64>,
    now: Seq<i64>,
    unsats: Option<u64>,
    t: SelectedView,
    k: int,
)
    requires
        now.len() == ids.len(),
        0 <= k < ids.len(),
        ids[k] == t.mam_id,
        forall|j: int| 0 <= j < ids.len() && j != k ==> ids[j] != t.mam_id,
    ensures
        record_after(action, ids, now, unsats, t.mam_id, Some(t)) == changed_selected(
            action,
            t,
            unsats,
            now[k],
        ),
{
    lemma_record_after_rest(action, ids, now, unsats, t.mam_id, Some(t), k);
    let a = ids.take(k + 1);
    let b = now.take(k + 1);
    assert(a.last() == t.mam_id);
    assert(b.last() == now[k]);
    assert(!a.drop_last().contains(t.mam_id)) by {
        if a.drop_last().contains(t.mam_id) {
            let j = choose|j: int| 0 <= j < a.drop_last().len() && a.drop_last()[j] == t.mam_id;
            assert(ids[j] == t.mam_id);
        }
    }
    action_is_confined(action, a.drop_last(), b.drop_last(), unsats, t.mam_id, Some(t));
}

/// Selected torrents are listed by the column, or the other way round; without a
/// column they stay in their order.
pub proof fn selected_rows_follow_column(
    rows: Seq<Option<StoredSelected>>,
    places: Seq<int>,
    sort: SelectedPageSort,
    default_unsat: u64,
    i: int,
    j: int,
)
    ensures
        ({
            let a = rows[places[i]].unwrap().torrent@;
            let b = rows[places[j]].unwrap().torrent@;
            let o = selected_order(sort, default_unsat, a, b);
            let up = selected_listing_order(rows, places, Some(sort), true, default_unsat)(i, j);
            let down = selected_listing_order(rows, places, Some(sort), false, default_unsat)(i, j);
            &&& up == o
            &&& o == Order::Less ==> down == Order::Greater
            &&& o == Order::Greater ==> down == Order::Less
            &&& o == Order::Equal ==> down == Order::Equal
        }),
        selected_listing_order(rows, places, None, true, default_unsat)(i, j) == Order::Equal,
        selected_listing_order(rows, places, None, false, default_unsat)(i, j) == Order::Equal,
{
}

/// The record under an id is the one that has the id, and there is none where no
/// record has it.
pub proof fn record_is_found_by_id(records: Seq<SelectedTorrent>, i: int, id: u64)
    requires
        has_distinct_ids(records),
    ensures
        0 <= i < records.len() && records[i].mam_id == id ==> record_under(records, id) == Some(
            records[i]@,
        ),
        (forall|k: int| 0 <= k < records.len() ==> (#[trigger] records[k]).mam_id != id)
            ==> record_under(records, id) is None,
{
    if 0 <= i < records.len() && records[i].mam_id == id {
        let j = choose|j: int| 0 <= j < records.len() && (#[trigger] records[j]).mam_id == id;
        if i < j {
            assert(records[i].mam_id != records[j].mam_id);
        } else if j < i {
            assert(records[j].mam_id != records[i].mam_id);
        }
    }
}

/// What contracts say of a selected torrent is what it holds, field by field.
pub proof fn selected_torrent_is_seen_whole(t: SelectedTorrent)
    ensures
        t@.mam_id == t.mam_id,
        t@.meta == t.meta@,
        t@.cost == (t.cost.rank, t.cost.name@),
        t@.unsat_buffer == t.unsat_buffer,
        t@.grabber is Some <==> t.grabber is Some,
        t.grabber matches Some(g) ==> t@.grabber == Some(g@),
        t@.created_at == t.created_at,
        t@.started_at == t.started_at,
        t@.removed_at == t.removed_at,
{
}

/// What contracts say of the conditions on selected torrents is what the
/// conditions hold, one for one.
pub proof fn selected_conditions_are_seen_whole(v: Seq<SelectedFilter>, i: int)
    ensures
        selected_filters_of(v).len() == v.len(),
        0 <= i < v.len() ==> selected_filters_of(v)[i].field == v[i].field && selected_filters_of(
            v,
        )[i].value == v[i].value@ && selected_filters_of(v)[i].language == v[i].language,
{
}

} // verus!
