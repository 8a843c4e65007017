//! The course of the torrents page: what a visitor does there, what the server
//! answers, and what the page shows and asks for next.
use vstd::prelude::*;
use vstd::string::*;

use crate::text::{same_text, trim};
use crate::web::components::{
    action_targets, failure_message, remove_filter, select_all, TorrentColumn,
};
use crate::web::types::{
    TorrentsBulkAction, TorrentsData, TorrentsPageColumns, TorrentsPageFilter, TorrentsPageSort,
};

verus! {

/// What the address of the page says.
pub struct RouteState {
    pub query: String,
    pub sort: Option<TorrentsPageSort>,
    pub asc: bool,
    pub filters: Vec<(TorrentsPageFilter, String)>,
    pub from: usize,
    pub page_size: usize,
    pub show: TorrentsPageColumns,
}

/// The page as it stands.
pub struct TorrentsPageState {
    /// The search as it is being typed.
    pub query_input: String,
    /// The search in force.
    pub submitted_query: String,
    pub sort: Option<TorrentsPageSort>,
    pub asc: bool,
    pub filters: Vec<(TorrentsPageFilter, String)>,
    pub from: usize,
    pub page_size: usize,
    pub show: TorrentsPageColumns,
    /// The ids of the selected torrents, in ascending order.
    pub selected: Vec<String>,
    /// What is said to the visitor, and whether it is an error.
    pub status: Option<(String, bool)>,
    /// An action is under way.
    pub loading: bool,
    /// The address of what was last asked for.
    pub request_key: String,
}

#[verifier::ext_equal]
pub struct PageView {
    pub query_input: Seq<char>,
    pub submitted_query: Seq<char>,
    pub sort: Option<TorrentsPageSort>,
    pub asc: bool,
    pub filters: Seq<(TorrentsPageFilter, Seq<char>)>,
    pub from: usize,
    pub page_size: usize,
    pub show: TorrentsPageColumns,
    pub selected: Seq<Seq<char>>,
    pub status: Option<(Seq<char>, bool)>,
    pub loading: bool,
    pub request_key: Seq<char>,
}

impl View for TorrentsPageState {
    type V = PageView;

    open spec fn view(&self) -> PageView {
        PageView {
            query_input: self.query_input@,
            submitted_query: self.submitted_query@,
            sort: self.sort,
            asc: self.asc,
            filters: crate::web::components::chosen_of(self.filters@),
            from: self.from,
            page_size: self.page_size,
            show: self.show,
            selected: crate::text::texts(self.selected@),
            status: match self.status {
                Some(s) => Some((s.0@, s.1)),
                None => None,
            },
            loading: self.loading,
            request_key: self.request_key@,
        }
    }
}

/// What happens on the page.
pub enum PageEvent {
    /// The visitor types a search.
    Type(String),
    /// The visitor searches for what was typed.
    Submit,
    /// The visitor takes the search away.
    ClearQuery,
    /// The visitor asks for pages of another length.
    PageSize(usize),
    /// The visitor turns to the page that begins at the given place.
    GoTo(usize),
    /// The visitor shows a column or leaves it out.
    Toggle(TorrentColumn, bool),
    /// The visitor takes a condition away.
    RemoveFilter(TorrentsPageFilter, String),
    /// The visitor takes all conditions and the search away.
    ClearAll,
    /// The visitor selects all rows of the page, or none of them.
    SelectAll { row_ids: Vec<String>, checked: bool },
    /// The visitor starts an action on the selected torrents.
    Act(TorrentsBulkAction),
    /// The action was carried out; the label says so.
    Acted { label: String },
    /// The action failed.
    ActFailed { action: TorrentsBulkAction, error: String },
    /// The address has changed; `key` is the address.
    Route { state: RouteState, key: String },
    /// The page has changed; `key` is its address now.
    Sync { key: String },
}

/// What the page does next.
pub enum PageEffect {
    Nothing,
    /// Asks the server to carry out an action.
    Run { action: TorrentsBulkAction, ids: Vec<String> },
    /// Asks the server for the torrents again.
    Reload,
    /// Goes to an address and asks the server for the torrents again.
    Navigate(String),
}

/// The page after a search is taken away.
pub open spec fn without_query(p: PageView) -> PageView {
    PageView { query_input: seq![], submitted_query: seq![], from: 0, ..p }
}

/// The page after an event. Selecting all rows, or none, changes the selection
/// besides.
pub open spec fn page_after(p: PageView, event: PageEvent) -> PageView {
    match event {
        PageEvent::Type(t) => PageView { query_input: t@, ..p },
        PageEvent::Submit => PageView {
            submitted_query: crate::text::trimmed(p.query_input),
            from: 0,
            ..p
        },
        PageEvent::ClearQuery => without_query(p),
        PageEvent::PageSize(n) => PageView { page_size: n, from: 0, ..p },
        PageEvent::GoTo(n) => PageView { from: n, ..p },
        PageEvent::Toggle(col, enabled) => PageView {
            show: p.show.with_column(col, enabled),
            ..p
        },
        PageEvent::RemoveFilter(field, value) => PageView {
            filters: crate::web::components::without_condition(p.filters, (field, value@)),
            from: 0,
            ..p
        },
        PageEvent::ClearAll => PageView { filters: seq![], ..without_query(p) },
        PageEvent::SelectAll { .. } => p,
        PageEvent::Act(_) => if p.selected.len() == 0 {
            PageView { status: Some(("Select at least one torrent"@, true)), ..p }
        } else {
            PageView { loading: true, status: None, ..p }
        },
        PageEvent::Acted { label } => PageView {
            status: Some((label@, false)),
            selected: seq![],
            loading: false,
            ..p
        },
        PageEvent::ActFailed { action, error } => PageView {
            status: Some((action.label_text() + " failed: "@ + error@, true)),
            loading: false,
            ..p
        },
        PageEvent::Route { state, key } => if key@ == p.request_key {
            p
        } else {
            PageView {
                query_input: state.query@,
                submitted_query: state.query@,
                sort: state.sort,
                asc: state.asc,
                filters: crate::web::components::chosen_of(state.filters@),
                from: state.from,
                page_size: state.page_size,
                show: state.show,
                request_key: key@,
                ..p
            }
        },
        PageEvent::Sync { key } => PageView { request_key: key@, ..p },
    }
}

/// The event leads from the page `p` to the page `q`.
pub open spec fn leads_to(p: PageView, event: PageEvent, q: PageView) -> bool {
    match event {
        PageEvent::SelectAll { row_ids, checked } => q == (PageView { selected: q.selected, ..p })
            && (forall|x: Seq<char>| #[trigger]
            q.selected.contains(x) <==> (if checked {
                p.selected.contains(x) || crate::text::texts(row_ids@).contains(x)
            } else {
                p.selected.contains(x) && !crate::text::texts(row_ids@).contains(x)
            })),
        _ => q == page_after(p, event),
    }
}

/// What the page does after an event.
pub open spec fn is_effect(p: PageView, event: PageEvent, r: PageEffect) -> bool {
    match event {
        PageEvent::Act(action) => if p.selected.len() == 0 {
            r is Nothing
        } else {
            r matches PageEffect::Run { action: a, ids } && a == action && crate::text::texts(ids@)
                == p.selected
        },
        PageEvent::Acted { .. } => r is Reload,
        PageEvent::Route { key, .. } => if key@ == p.request_key {
            r is Nothing
        } else {
            r is Reload
        },
        PageEvent::Sync { key } => if key@ == p.request_key {
            r is Nothing
        } else {
            r matches PageEffect::Navigate(k) && k@ == key@
        },
        _ => r is Nothing,
    }
}

fn toggle(page: &mut TorrentsPageState, col: TorrentColumn, enabled: bool)
    ensures
        final(page)@ == page_after(old(page)@, PageEvent::Toggle(col, enabled)),
{
    let mut show = page.show;
    show.set(col, enabled);
    page.show = show;
}

fn clear_query(page: &mut TorrentsPageState)
    ensures
        final(page)@ == page_after(old(page)@, PageEvent::ClearQuery),
{
    proof {
        reveal_strlit("");
    }
    page.query_input = "".to_owned();
    page.submitted_query = "".to_owned();
    page.from = 0;
    assert(page.query_input@ == Seq::<char>::empty());
}

fn start_action(page: &mut TorrentsPageState, action: TorrentsBulkAction) -> (r: PageEffect)
    ensures
        final(page)@ == page_after(old(page)@, PageEvent::Act(action)),
        is_effect(old(page)@, PageEvent::Act(action), r),
{
    match action_targets(&page.selected) {
        Err(message) => {
            page.status = Some((message, true));
            PageEffect::Nothing
        },
        Ok(ids) => {
            page.loading = true;
            page.status = None;
            PageEffect::Run { action, ids }
        },
    }
}

fn take_route(page: &mut TorrentsPageState, state: RouteState, key: String) -> (r: PageEffect)
    ensures
        final(page)@ == page_after(old(page)@, PageEvent::Route { state, key }),
        is_effect(old(page)@, PageEvent::Route { state, key }, r),
{
    if same_text(page.request_key.as_str(), key.as_str()) {
        return PageEffect::Nothing;
    }
    page.query_input = state.query.clone();
    page.submitted_query = state.query;
    page.sort = state.sort;
    page.asc = state.asc;
    page.filters = state.filters;
    page.from = state.from;
    page.page_size = state.page_size;
    page.show = state.show;
    page.request_key = key;
    PageEffect::Reload
}

fn sync(page: &mut TorrentsPageState, key: String) -> (r: PageEffect)
    ensures
        final(page)@ == page_after(old(page)@, PageEvent::Sync { key }),
        is_effect(old(page)@, PageEvent::Sync { key }, r),
{
    if same_text(page.request_key.as_str(), key.as_str()) {
        return PageEffect::Nothing;
    }
    page.request_key = key.clone();
    PageEffect::Navigate(key)
}

fn select_rows(page: &mut TorrentsPageState, row_ids: &Vec<String>, checked: bool)
    requires
        crate::order::is_ascending(old(page)@.selected),
    ensures
        crate::order::is_ascending(final(page)@.selected),
        final(page)@ == (PageView { selected: final(page)@.selected, ..old(page)@ }),
        forall|x: Seq<char>| #[trigger]
            final(page)@.selected.contains(x) <==> (if checked {
                old(page)@.selected.contains(x) || crate::text::texts(row_ids@).contains(x)
            } else {
                old(page)@.selected.contains(x) && !crate::text::texts(row_ids@).contains(x)
            }),
{
    let mut selected: Vec<String> = Vec::new();
    std::mem::swap(&mut selected, &mut page.selected);
    select_all(row_ids, &mut selected, checked);
    page.selected = selected;
}

fn type_query(page: &mut TorrentsPageState, text: String)
    ensures
        final(page)@ == page_after(old(page)@, PageEvent::Type(text)),
{
    page.query_input = text;
}

fn submit(page: &mut TorrentsPageState)
    ensures
        final(page)@ == page_after(old(page)@, PageEvent::Submit),
{
    page.submitted_query = trim(page.query_input.as_str());
    page.from = 0;
}

fn set_page_size(page: &mut TorrentsPageState, n: usize)
    ensures
        final(page)@ == page_after(old(page)@, PageEvent::PageSize(n)),
{
    page.page_size = n;
    page.from = 0;
}

fn go_to(page: &mut TorrentsPageState, n: usize)
    ensures
        final(page)@ == page_after(old(page)@, PageEvent::GoTo(n)),
{
    page.from = n;
}

fn drop_filter(page: &mut TorrentsPageState, field: TorrentsPageFilter, value: String)
    ensures
        final(page)@ == page_after(old(page)@, PageEvent::RemoveFilter(field, value)),
{
    page.filters = remove_filter(&page.filters, field, value.as_str());
    page.from = 0;
}

fn clear_all(page: &mut TorrentsPageState)
    ensures
        final(page)@ == page_after(old(page)@, PageEvent::ClearAll),
{
    clear_query(page);
    page.filters = Vec::new();
    assert(crate::web::components::chosen_of(page.filters@) == Seq::<
        (TorrentsPageFilter, Seq<char>),
    >::empty());
}

fn finish_action(page: &mut TorrentsPageState, label: String)
    ensures
        final(page)@ == page_after(old(page)@, PageEvent::Acted { label }),
{
    page.status = Some((label, false));
    page.selected = Vec::new();
    page.loading = false;
    assert(crate::text::texts(page.selected@) == Seq::<Seq<char>>::empty());
}

fn fail_action(page: &mut TorrentsPageState, action: TorrentsBulkAction, error: String)
    ensures
        final(page)@ == page_after(old(page)@, PageEvent::ActFailed { action, error }),
{
    page.status = Some((failure_message(action, error.as_str()), true));
    page.loading = false;
}

/// The page takes an event in: what it shows changes, and what it does next is
/// returned.
pub fn page_step(page: &mut TorrentsPageState, event: PageEvent) -> (r: PageEffect)
    requires
        crate::order::is_ascending(old(page)@.selected),
    ensures
        crate::order::is_ascending(final(page)@.selected),
        leads_to(old(page)@, event, final(page)@),
        is_effect(old(page)@, event, r),
{
    match event {
        PageEvent::Type(text) => {
            type_query(page, text);
            PageEffect::Nothing
        },
        PageEvent::Submit => {
            submit(page);
            PageEffect::Nothing
        },
        PageEvent::ClearQuery => {
            clear_query(page);
            PageEffect::Nothing
        },
        PageEvent::PageSize(n) => {
            set_page_size(page, n);
            PageEffect::Nothing
        },
        PageEvent::GoTo(n) => {
            go_to(page, n);
            PageEffect::Nothing
        },
        PageEvent::Toggle(col, enabled) => {
            toggle(page, col, enabled);
            PageEffect::Nothing
        },
        PageEvent::RemoveFilter(field, value) => {
            drop_filter(page, field, value);
            PageEffect::Nothing
        },
        PageEvent::ClearAll => {
            clear_all(page);
            PageEffect::Nothing
        },
        PageEvent::SelectAll { row_ids, checked } => {
            select_rows(page, &row_ids, checked);
            PageEffect::Nothing
        },
        PageEvent::Act(action) => start_action(page, action),
        PageEvent::Acted { label } => {
            finish_action(page, label);
            PageEffect::Reload
        },
        PageEvent::ActFailed { action, error } => {
            fail_action(page, action, error);
            PageEffect::Nothing
        },
        PageEvent::Route { state, key } => take_route(page, state, key),
        PageEvent::Sync { key } => sync(page, key),
    }
}

/// Whatever a visitor changes of what is searched for or how long pages are, the
/// list is shown from its beginning again.
pub proof fn new_conditions_start_over(p: PageView, event: PageEvent)
    requires
        event is Submit || event is ClearQuery || event is PageSize || event is RemoveFilter
            || event is ClearAll,
    ensures
        page_after(p, event).from == 0,
{
}

/// An action that failed keeps the selection, so that it can be tried again.
pub proof fn failure_keeps_selection(p: PageView, action: TorrentsBulkAction, error: String)
    ensures
        page_after(p, PageEvent::ActFailed { action, error }).selected == p.selected,
        !page_after(p, PageEvent::ActFailed { action, error }).loading,
{
}

/// An address that was taken in is not gone to again: the page settles.
pub proof fn address_settles(p: PageView, state: RouteState, key: String, r: PageEffect)
    requires
        is_effect(
            page_after(p, PageEvent::Route { state, key }),
            PageEvent::Sync { key },
            r,
        ),
    ensures
        r is Nothing,
        page_after(page_after(p, PageEvent::Route { state, key }), PageEvent::Sync { key })
            == page_after(p, PageEvent::Route { state, key }),
{
}

/// What the page shows: what the server answered last, else what it answered
/// before.
pub fn data_to_show<'a>(latest: Option<&'a TorrentsData>, cached: Option<&'a TorrentsData>) -> (r:
    Option<&'a TorrentsData>)
    ensures
        r == (if latest is Some {
            latest
        } else {
            cached
        }),
{
    match latest {
        Some(data) => Some(data),
        None => cached,
    }
}

/// Each event changes only what it is for.
pub proof fn event_changes_only_its_part(p: PageView, event: PageEvent)
    ensures
        ({
            let q = page_after(p, event);
            &&& q.query_input != p.query_input ==> event is Type || event is ClearQuery || event
                is ClearAll || event is Route
            &&& q.submitted_query != p.submitted_query ==> event is Submit || event is ClearQuery
                || event is ClearAll || event is Route
            &&& q.sort != p.sort || q.asc != p.asc ==> event is Route
            &&& q.filters != p.filters ==> event is RemoveFilter || event is ClearAll || event
                is Route
            &&& q.from != p.from ==> event is Submit || event is ClearQuery || event is PageSize
                || event is GoTo || event is RemoveFilter || event is ClearAll || event is Route
            &&& q.page_size != p.page_size ==> event is PageSize || event is Route
            &&& q.show != p.show ==> event is Toggle || event is Route
            &&& q.selected != p.selected ==> event is Acted
            &&& q.status != p.status ==> event is Act || event is Acted || event is ActFailed
            &&& q.loading != p.loading ==> event is Act || event is Acted || event is ActFailed
            &&& q.request_key != p.request_key ==> event is Route || event is Sync
        }),
{
}

/// What the events bring about.
#[verifier::spinoff_prover]
#[verifier::rlimit(60)]
pub proof fn event_brings_about_what_it_says(p: PageView, event: PageEvent)
    ensures
        ({
            let q = page_after(p, event);
            match event {
                PageEvent::Type(t) => q.query_input == t@,
                PageEvent::Submit => q.submitted_query == crate::text::trimmed(p.query_input)
                    && q.query_input == p.query_input,
                PageEvent::ClearQuery => q.query_input.len() == 0 && q.submitted_query.len() == 0
                    && q.filters == p.filters,
                PageEvent::PageSize(n) => q.page_size == n,
                PageEvent::GoTo(n) => q.from == n,
                PageEvent::Toggle(col, enabled) => q.show.shows(col) == enabled,
                PageEvent::RemoveFilter(field, value) => !q.filters.contains((field, value@)),
                PageEvent::ClearAll => q.query_input.len() == 0 && q.submitted_query.len() == 0
                    && q.filters.len() == 0,
                PageEvent::Act(_) => if p.selected.len() == 0 {
                    !q.loading == !p.loading && (q.status matches Some(s) && s.1)
                } else {
                    q.loading && q.status is None
                },
                PageEvent::Acted { label } => q.selected.len() == 0 && !q.loading && q.status
                    == Some((label@, false)),
                PageEvent::ActFailed { .. } => !q.loading && (q.status matches Some(s) && s.1),
                PageEvent::Route { state, key } => q.request_key == key@ && (key@ != p.request_key
                    ==> q.submitted_query == state.query@ && q.query_input == state.query@
                    && q.sort == state.sort && q.asc == state.asc && q.from == state.from
                    && q.page_size == state.page_size && q.show == state.show && q.filters
                    == crate::web::components::chosen_of(state.filters@)),
                PageEvent::Sync { key } => q.request_key == key@,
                PageEvent::SelectAll { .. } => true,
            }
        }),
{
    match event {
        PageEvent::RemoveFilter(field, value) => {
            crate::web::components::removed_condition_is_gone(p.filters, (field, value@));
        },
        PageEvent::Toggle(col, enabled) => {
            crate::web::components::column_is_switched_alone(p.show, col, enabled, col);
        },
        _ => {},
    }
}

/// An action runs on exactly the torrents that are selected, and on none where
/// none is; what was done makes the list load again, and so does a new address.
pub proof fn action_runs_on_selection(
    p: PageView,
    action: TorrentsBulkAction,
    label: String,
    error: String,
    run: PageEffect,
    done: PageEffect,
    failed: PageEffect,
)
    requires
        is_effect(p, PageEvent::Act(action), run),
        is_effect(p, PageEvent::Acted { label }, done),
        is_effect(p, PageEvent::ActFailed { action, error }, failed),
    ensures
        p.selected.len() == 0 ==> run is Nothing,
        p.selected.len() > 0 ==> (run matches PageEffect::Run { action: a, ids } && a == action
            && crate::text::texts(ids@) == p.selected),
        done is Reload,
        failed is Nothing,
{
}

/// Choosing all rows adds them to the selection, and giving them up takes them
/// out of it; torrents of other pages stay as they are, and nothing else
/// changes.
pub proof fn rows_are_chosen_together(
    p: PageView,
    row_ids: Vec<String>,
    checked: bool,
    q: PageView,
    id: Seq<char>,
)
    requires
        leads_to(p, PageEvent::SelectAll { row_ids, checked }, q),
    ensures
        crate::text::texts(row_ids@).contains(id) ==> (q.selected.contains(id) <==> checked),
        !crate::text::texts(row_ids@).contains(id) ==> (q.selected.contains(id)
            <==> p.selected.contains(id)),
        q.filters == p.filters,
        q.from == p.from,
        q.status == p.status,
        q.loading == p.loading,
{
}

} // verus!
