use mlm::ids::Ids;
use mlm::model::{
    ClientStatus, Flags, LibraryMismatch, MetadataSource, OldCategory, Series, Term, Torrent,
    TorrentMeta,
};
use mlm::path::PathBuf;
use mlm::web::action::{
    apply_torrents_action, ActionEvent, ActionRequest, ActionState, ActionStep,
};
use mlm::web::components::{
    action_targets, active_chips, all_selected, can_clear_all, column_options, failure_message,
    filter_name, header_cells, page_summary, remove_filter, row_cells, select_all, server_filters,
    CellPiece, TorrentColumn,
};
use mlm::web::error::{ok_or_server_err, server_err, server_err_ctx, ServerFnError};
use mlm::web::filter::{clamp_from, part_bounds};
use mlm::web::page::{
    data_to_show, page_step, PageEffect, PageEvent, RouteState, TorrentsPageState,
};
use mlm::web::query::{build_query_url, parse_query_state, PageQueryState, QueryNames};
use mlm::web::selected::{
    apply_selected_action, apply_to_selected, get_selected_data, is_downloading, matches_selected,
    SelectedBulkAction, SelectedChange, SelectedFilter, SelectedPageFilter, SelectedPageSort,
    SelectedTexts, SelectedTorrent, StoredSelected,
};
use mlm::web::torrents::{
    best_first, convert_torrent_row, fuzzy_score, get_torrents_data,
    is_found, matches_filter, order_by_column, score_of, search_score, RowTexts, StoredTorrent,
    TorrentsFilter,
};
use mlm::web::types::{
    torrent_count_label, TorrentLibraryMismatch, TorrentsBulkAction, TorrentsBulkActionFailure,
    TorrentsBulkActionResult, TorrentsPageColumns, TorrentsPageFilter, TorrentsPageSort,
};
use mlm::order::Order;

#[test]
fn bulk_action_result_formats_partial_success() {
    let result = TorrentsBulkActionResult {
        succeeded_count: 1,
        failed: vec![TorrentsBulkActionFailure {
            id: "torrent-032".to_string(),
            title: "Test Book 032".to_string(),
        }],
    };

    assert_eq!(
        result.status_message(TorrentsBulkAction::Relink),
        (
            "Relinked 1 torrent. 1 torrent failed: Test Book 032.".to_string(),
            false,
        )
    );
}

#[test]
fn bulk_action_result_marks_full_failure_as_error() {
    let result = TorrentsBulkActionResult {
        succeeded_count: 0,
        failed: vec![TorrentsBulkActionFailure {
            id: "torrent-033".to_string(),
            title: "Test Book 033".to_string(),
        }],
    };

    assert_eq!(
        result.status_message(TorrentsBulkAction::RefreshRelink),
        (
            "Refreshed metadata and relinked 0 torrents. 1 torrent failed: Test Book 033."
                .to_string(),
            true,
        )
    );
}

#[test]
fn bulk_actions_have_names() {
    let actions = [
        TorrentsBulkAction::Refresh,
        TorrentsBulkAction::Relink,
        TorrentsBulkAction::RefreshRelink,
        TorrentsBulkAction::Clean,
        TorrentsBulkAction::Remove,
    ];
    let labels: Vec<&str> = actions.iter().map(|a| a.label()).collect();
    assert_eq!(
        labels,
        vec![
            "refresh metadata",
            "relink",
            "refresh metadata and relink",
            "clean torrent",
            "remove torrent from MLM"
        ]
    );
    let done: Vec<&str> = actions.iter().map(|a| a.completed_label()).collect();
    assert_eq!(
        done,
        vec![
            "Refreshed metadata for",
            "Relinked",
            "Refreshed metadata and relinked",
            "Cleaned",
            "Removed"
        ]
    );
    assert_eq!(torrent_count_label(1), "1 torrent");
    assert_eq!(torrent_count_label(0), "0 torrents");
    assert_eq!(torrent_count_label(12), "12 torrents");
    let nothing = TorrentsBulkActionResult {
        succeeded_count: 0,
        failed: vec![],
    };
    assert!(!nothing.all_failed());
    assert_eq!(
        nothing.status_message(TorrentsBulkAction::Clean),
        ("Cleaned 0 torrents.".to_string(), false)
    );
}

#[test]
fn server_err_ctx_preserves_anyhow_chain() {
    let failure = Err::<(), _>(
        anyhow::Error::msg("root cause")
            .context("inner context")
            .context("outer context"),
    );
    let err = server_err_ctx(failure.map_err(|e| format!("{e:#}")), "top level").unwrap_err();

    let msg = err.message;
    assert!(msg.contains("top level"));
    assert!(msg.contains("outer context"));
    assert!(msg.contains("inner context"));
    assert!(msg.contains("root cause"));
}

#[test]
fn errors_reach_the_page() {
    assert_eq!(server_err(Ok::<u8, String>(3)), Ok(3));
    assert_eq!(
        server_err(Err::<u8, String>("no".to_string())),
        Err(ServerFnError {
            message: "no".to_string()
        })
    );
    assert_eq!(
        server_err_ctx(Err::<u8, String>("no".to_string()), "saving"),
        Err(ServerFnError {
            message: "saving: no".to_string()
        })
    );
    assert_eq!(ok_or_server_err(Some(3), "missing"), Ok(3));
    assert_eq!(
        ok_or_server_err(None::<u8>, "Context not found"),
        Err(ServerFnError {
            message: "Context not found".to_string()
        })
    );
}

fn term(rank: u64, name: &str) -> Term {
    Term {
        rank,
        name: name.to_string(),
    }
}

fn strings(v: &[&str]) -> Vec<String> {
    v.iter().map(|s| s.to_string()).collect()
}

fn meta(title: &str) -> TorrentMeta {
    TorrentMeta {
        ids: Ids::new(),
        vip_status: None,
        cat: None,
        media_type: term(0, "Audiobook"),
        main_cat: None,
        categories: vec![],
        tags: vec![],
        language: None,
        flags: None,
        filetypes: vec![],
        num_files: 0,
        size: 0,
        title: title.to_string(),
        edition: None,
        description: "".to_string(),
        authors: vec![],
        narrators: vec![],
        series: vec![],
        source: MetadataSource::Mam,
        uploaded_at: None,
    }
}

fn torrent(id: &str, title: &str) -> Torrent {
    Torrent {
        id: id.to_string(),
        id_is_hash: true,
        mam_id: None,
        library_path: None,
        library_files: vec![],
        linker: None,
        category: None,
        selected_audio_format: None,
        selected_ebook_format: None,
        title_search: "".to_string(),
        meta: meta(title),
        created_at: 0,
        replaced_with: None,
        library_mismatch: None,
        client_status: None,
    }
}

fn filter(field: TorrentsPageFilter, value: &str) -> TorrentsFilter {
    TorrentsFilter {
        field,
        value: value.to_string(),
        language: None,
    }
}

fn passes(t: &Torrent, field: TorrentsPageFilter, value: &str) -> bool {
    matches_filter(t, &filter(field, value), "abs")
}

#[test]
fn torrents_are_filtered_by_their_metadata() {
    let mut t = torrent("1", "Title");
    t.meta.authors = strings(&["A", "B"]);
    t.meta.filetypes = strings(&["m4b"]);
    t.meta.categories = strings(&["Fantasy", "Epic"]);
    t.meta.series = vec![Series {
        name: "Saga".to_string(),
        numbered: true,
        entries: "1".to_string(),
        rank: 0,
    }];
    t.meta.cat = Some(OldCategory {
        rank: 3,
        name: "Audiobooks - Fantasy".to_string(),
        id: "41".to_string(),
        one_ids: vec![41, 42],
    });
    assert!(passes(&t, TorrentsPageFilter::Kind, "Audiobook"));
    assert!(!passes(&t, TorrentsPageFilter::Kind, "Ebook"));
    assert!(passes(&t, TorrentsPageFilter::Category, "7,42"));
    assert!(passes(&t, TorrentsPageFilter::Category, "Audiobooks - Fantasy"));
    assert!(!passes(&t, TorrentsPageFilter::Category, "7"));
    assert!(!passes(&t, TorrentsPageFilter::Category, ""));
    assert!(passes(&t, TorrentsPageFilter::Categories, "Epic, Fantasy"));
    assert!(!passes(&t, TorrentsPageFilter::Categories, "Epic,Crime"));
    assert!(passes(&t, TorrentsPageFilter::Title, "Title"));
    assert!(passes(&t, TorrentsPageFilter::Author, "B"));
    assert!(!passes(&t, TorrentsPageFilter::Author, ""));
    assert!(passes(&t, TorrentsPageFilter::Narrator, ""));
    assert!(passes(&t, TorrentsPageFilter::Series, "Saga"));
    assert!(!passes(&t, TorrentsPageFilter::Series, "saga"));
    assert!(passes(&t, TorrentsPageFilter::Filetype, "m4b"));
    assert!(passes(&t, TorrentsPageFilter::Source, "mam"));
    assert!(!passes(&t, TorrentsPageFilter::Source, "file"));
    assert!(passes(&t, TorrentsPageFilter::Query, "anything"));
}

#[test]
fn torrents_are_filtered_by_flags_and_language() {
    let mut t = torrent("1", "Title");
    assert!(passes(&t, TorrentsPageFilter::Flags, ""));
    assert!(!passes(&t, TorrentsPageFilter::Flags, "violence"));
    t.meta.flags = Some(Flags {
        bits: 2,
        crude_language: Some(false),
        violence: Some(true),
        some_explicit: None,
        explicit: None,
        abridged: None,
        lgbt: None,
    });
    assert!(passes(&t, TorrentsPageFilter::Flags, "violence"));
    assert!(!passes(&t, TorrentsPageFilter::Flags, "language"));
    assert!(!passes(&t, TorrentsPageFilter::Flags, ""));
    assert!(passes(&t, TorrentsPageFilter::Language, ""));
    t.meta.language = Some(term(4, "German"));
    let german = TorrentsFilter {
        field: TorrentsPageFilter::Language,
        value: "German".to_string(),
        language: Some(4),
    };
    assert!(matches_filter(&t, &german, "abs"));
    assert!(!passes(&t, TorrentsPageFilter::Language, "Klingon"));
}

#[test]
fn torrents_are_filtered_by_their_state() {
    let mut t = torrent("1", "Title");
    assert!(passes(&t, TorrentsPageFilter::Linked, "false"));
    assert!(passes(&t, TorrentsPageFilter::Linker, ""));
    assert!(!passes(&t, TorrentsPageFilter::LibraryMismatch, ""));
    assert!(!passes(&t, TorrentsPageFilter::ClientStatus, "not_in_client"));
    assert!(passes(&t, TorrentsPageFilter::Abs, "false"));
    assert!(!passes(&t, TorrentsPageFilter::Metadata, ""));
    t.library_path = Some(PathBuf::new("/l/a"));
    t.linker = Some("books".to_string());
    t.category = Some("audio".to_string());
    t.library_mismatch = Some(LibraryMismatch::NewPath(PathBuf::new("/l/b")));
    t.client_status = Some(ClientStatus::RemovedFromTracker);
    t.meta.ids.insert("abs".to_string(), "x1".to_string());
    assert!(passes(&t, TorrentsPageFilter::Linked, "true"));
    assert!(passes(&t, TorrentsPageFilter::Linker, "books"));
    assert!(passes(&t, TorrentsPageFilter::QbitCategory, "audio"));
    assert!(passes(&t, TorrentsPageFilter::LibraryMismatch, ""));
    assert!(passes(&t, TorrentsPageFilter::LibraryMismatch, "new_path"));
    assert!(passes(&t, TorrentsPageFilter::LibraryMismatch, "/l/b"));
    assert!(!passes(&t, TorrentsPageFilter::LibraryMismatch, "no_library"));
    assert!(passes(
        &t,
        TorrentsPageFilter::ClientStatus,
        "removed_from_tracker"
    ));
    assert!(passes(&t, TorrentsPageFilter::Abs, "true"));
    assert!(passes(&t, TorrentsPageFilter::Metadata, "abs"));
    assert!(passes(&t, TorrentsPageFilter::Metadata, "x1"));
    assert!(!passes(&t, TorrentsPageFilter::Metadata, "y"));
}

#[test]
fn searches_fit_texts_more_or_less() {
    assert_eq!(fuzzy_score("dragon", ""), 0);
    assert_eq!(fuzzy_score("", "dragon"), 0);
    assert_eq!(fuzzy_score("xyz", "dragon"), 0);
    assert!(fuzzy_score("dragon", "dragon") > fuzzy_score("drgn", "dragon"));
    let mut t = torrent("1", "Nothing of it");
    t.meta.authors = strings(&["Dragon Author"]);
    let show = TorrentsPageColumns::default();
    let hidden = TorrentsPageColumns {
        authors: false,
        ..show
    };
    assert_eq!(
        search_score("dragon", &t, show),
        fuzzy_score("dragon", "Nothing of it") as i128
            + fuzzy_score("dragon", "Dragon Author") as i128
    );
    assert_eq!(
        search_score("dragon", &t, hidden),
        fuzzy_score("dragon", "Nothing of it") as i128
    );
}

fn stored(t: Torrent) -> Option<StoredTorrent> {
    Some(StoredTorrent {
        torrent: t,
        texts: RowTexts {
            flags: vec![],
            size: "1.00 MiB".to_string(),
            created_at: "2024-01-01".to_string(),
            uploaded_at: "".to_string(),
        },
    })
}

fn rows(titles: &[&str]) -> Vec<Option<StoredTorrent>> {
    titles
        .iter()
        .enumerate()
        .map(|(i, t)| stored(torrent(&i.to_string(), t)))
        .collect()
}

fn titles(data: &mlm::web::types::TorrentsData) -> Vec<String> {
    data.torrents.iter().map(|t| t.meta.title.clone()).collect()
}

fn page(
    rows: &Vec<Option<StoredTorrent>>,
    sort: Option<TorrentsPageSort>,
    asc: bool,
    filters: &Vec<TorrentsFilter>,
    from: Option<usize>,
    page_size: Option<usize>,
) -> mlm::web::types::TorrentsData {
    get_torrents_data(
        rows,
        rows.len(),
        sort,
        asc,
        filters,
        from,
        page_size,
        TorrentsPageColumns::default(),
        "abs",
        Some("http://abs".to_string()),
    )
}

#[test]
fn the_newest_torrents_come_first() {
    let rows = rows(&["C", "A", "B"]);
    let all = page(&rows, None, true, &vec![], None, None);
    assert_eq!(titles(&all), vec!["C", "A", "B"]);
    assert_eq!(all.total, 3);
    assert_eq!(all.page_size, 500);
    assert_eq!(all.abs_url, Some("http://abs".to_string()));
    let second = page(&rows, None, true, &vec![], Some(2), Some(2));
    assert_eq!(titles(&second), vec!["B"]);
    assert_eq!(second.from, 2);
    let beyond = page(&rows, None, true, &vec![], Some(9), Some(2));
    assert_eq!(beyond.from, 2);
    assert_eq!(titles(&beyond), vec!["B"]);
}

#[test]
fn torrents_are_sorted_and_filtered() {
    let rows = rows(&["C", "A", "B", "A"]);
    let by_title = page(&rows, Some(TorrentsPageSort::Title), true, &vec![], None, None);
    assert_eq!(titles(&by_title), vec!["A", "A", "B", "C"]);
    let ids: Vec<&str> = by_title.torrents.iter().map(|t| t.id.as_str()).collect();
    assert_eq!(ids, vec!["1", "3", "2", "0"]);
    let down = page(&rows, Some(TorrentsPageSort::Title), false, &vec![], None, None);
    assert_eq!(titles(&down), vec!["C", "B", "A", "A"]);
    let only_a = vec![filter(TorrentsPageFilter::Title, "A")];
    let filtered = page(&rows, None, false, &only_a, None, None);
    assert_eq!(filtered.total, 2);
    assert_eq!(titles(&filtered), vec!["A", "A"]);
}

#[test]
fn a_search_puts_the_best_first() {
    let rows = rows(&["Quiet", "Drag Open Nets", "Dragon Song"]);
    let query = vec![filter(TorrentsPageFilter::Query, "dragon")];
    let found = page(&rows, None, true, &query, None, None);
    assert_eq!(titles(&found)[0], "Dragon Song");
    assert!(!titles(&found).contains(&"Quiet".to_string()));
}

#[test]
fn columns_order_torrents() {
    let mut a = torrent("1", "B");
    let mut b = torrent("2", "A");
    assert_eq!(
        order_by_column(TorrentsPageSort::Title, &a, &b),
        Order::Greater
    );
    a.meta.language = Some(term(1, "English"));
    assert_eq!(
        order_by_column(TorrentsPageSort::Language, &a, &b),
        Order::Greater
    );
    b.meta.language = Some(term(2, "Swedish"));
    assert_eq!(
        order_by_column(TorrentsPageSort::Language, &a, &b),
        Order::Less
    );
    a.meta.size = 5;
    b.meta.size = 5;
    assert_eq!(
        order_by_column(TorrentsPageSort::Size, &a, &b),
        Order::Equal
    );
}

#[test]
fn rows_show_what_the_table_needs() {
    let mut t = torrent("1", "Title");
    t.library_path = Some(PathBuf::new("/l/a"));
    t.library_mismatch = Some(LibraryMismatch::NewPath(PathBuf::new("/l/b")));
    t.client_status = Some(ClientStatus::NotInClient);
    t.meta.ids.insert("abs".to_string(), "x1".to_string());
    let texts = stored(torrent("x", "x")).unwrap().texts;
    let row = convert_torrent_row(&t, &texts, "abs");
    assert_eq!(row.meta.cat_name, "N/A");
    assert_eq!(row.abs_id, Some("x1".to_string()));
    assert_eq!(row.client_status, Some("not_in_client".to_string()));
    assert!(row.linked);
    let mismatch = row.library_mismatch.as_ref().unwrap();
    assert_eq!(
        mismatch,
        &TorrentLibraryMismatch::NewPath("/l/b".to_string())
    );
    assert_eq!(mismatch.filter_value(), "new_path");
    let show = TorrentsPageColumns::default();
    let cells = row_cells(&row, show);
    assert_eq!(cells.len(), header_cells(show).len());
    assert!(cells.iter().any(|c| c.pieces.contains(&CellPiece::Title {
        id: "1".to_string(),
        title: "Title".to_string(),
    })));
}

#[test]
fn every_column_has_a_width_and_a_header() {
    let show = TorrentsPageColumns::default();
    let mut all = show;
    for option in column_options(show) {
        assert_eq!(option.checked, show.get(option.column));
        all.set(option.column, true);
    }
    for columns in [show, all] {
        assert_eq!(
            columns.table_grid_template().split(' ').count(),
            header_cells(columns).len() + 1
        );
    }
    assert_eq!(column_options(show).len(), 15);
    assert_eq!(header_cells(all).len(), 16);
    all.set(TorrentColumn::Path, false);
    assert!(!all.get(TorrentColumn::Path));
    assert!(all.get(TorrentColumn::Size));
}

#[test]
fn selecting_all_selects_the_rows_shown() {
    let ids = strings(&["b", "a"]);
    let mut selected = strings(&["z"]);
    assert!(!all_selected(&ids, &selected));
    select_all(&ids, &mut selected, true);
    assert_eq!(selected, strings(&["a", "b", "z"]));
    assert!(all_selected(&ids, &selected));
    select_all(&ids, &mut selected, false);
    assert_eq!(selected, strings(&["z"]));
    assert_eq!(action_targets(&selected), Ok(strings(&["z"])));
    assert!(action_targets(&vec![]).is_err());
}

#[test]
fn conditions_are_shown_and_taken_away() {
    let filters = vec![
        (TorrentsPageFilter::Author, "A".to_string()),
        (TorrentsPageFilter::Series, "S".to_string()),
    ];
    let chips = active_chips("dragon", &filters);
    let labels: Vec<&str> = chips.iter().map(|c| c.label.as_str()).collect();
    assert_eq!(labels, vec!["Query: dragon", "Authors: A", "Series: S"]);
    assert_eq!(
        remove_filter(&filters, TorrentsPageFilter::Author, "A"),
        vec![(TorrentsPageFilter::Series, "S".to_string())]
    );
    assert_eq!(
        server_filters(filters, " dragon ")[2],
        (TorrentsPageFilter::Query, "dragon".to_string())
    );
    assert_eq!(filter_name(TorrentsPageFilter::Kind), "Type");
    assert!(!can_clear_all("", &vec![]));
}

#[test]
fn messages_name_what_happened() {
    assert_eq!(page_summary(500, 2, 502), "Showing 500 to 502 of 502");
    assert_eq!(
        failure_message(TorrentsBulkAction::Relink, "no"),
        "relink failed: no"
    );
}

fn error(message: &str) -> ActionStep {
    ActionStep::Stop(Err(ServerFnError {
        message: message.to_string(),
    }))
}

/// Runs an action whose requests all go well, and lists the requests.
fn requests(action: TorrentsBulkAction, ids: &[&str]) -> Vec<ActionRequest> {
    let ids = strings(ids);
    let mut asked = vec![];
    let (mut state, mut step) =
        apply_torrents_action(action, &ids, ActionState::Start, ActionEvent::Begin);
    while let ActionStep::Ask(request) = step {
        asked.push(request);
        let event = match request {
            ActionRequest::Load(_) => ActionEvent::Found(true),
            _ => ActionEvent::Done,
        };
        (state, step) = apply_torrents_action(action, &ids, state, event);
    }
    assert_eq!(step, ActionStep::Stop(Ok(())));
    assert_eq!(state, ActionState::Finished);
    asked
}

#[test]
fn actions_take_the_torrents_in_turn() {
    assert_eq!(
        requests(TorrentsBulkAction::Relink, &["a", "b"]),
        vec![ActionRequest::Act(0), ActionRequest::Act(1)]
    );
    assert_eq!(
        requests(TorrentsBulkAction::Refresh, &["a"]),
        vec![ActionRequest::OpenTracker, ActionRequest::Act(0)]
    );
    assert_eq!(
        requests(TorrentsBulkAction::RefreshRelink, &["a"]),
        vec![ActionRequest::OpenTracker, ActionRequest::Act(0)]
    );
    assert_eq!(
        requests(TorrentsBulkAction::Clean, &["a", "b"]),
        vec![
            ActionRequest::OpenRead(0),
            ActionRequest::Load(0),
            ActionRequest::Act(0),
            ActionRequest::OpenRead(1),
            ActionRequest::Load(1),
            ActionRequest::Act(1),
        ]
    );
    assert_eq!(
        requests(TorrentsBulkAction::Remove, &["a", "b"]),
        vec![
            ActionRequest::OpenWrite,
            ActionRequest::Load(0),
            ActionRequest::Act(0),
            ActionRequest::Load(1),
            ActionRequest::Act(1),
            ActionRequest::Commit,
        ]
    );
}

#[test]
fn first_error_ends_an_action() {
    let begin = || (ActionState::Start, ActionEvent::Begin);
    let (state, event) = begin();
    assert_eq!(
        apply_torrents_action(TorrentsBulkAction::Relink, &vec![], state, event).1,
        error("No torrents selected")
    );
    let ids = strings(&["h"]);
    let fails = |action, request| {
        apply_torrents_action(
            action,
            &ids,
            ActionState::Waiting(request),
            ActionEvent::Failed("no".to_string()),
        )
        .1
    };
    assert_eq!(
        fails(TorrentsBulkAction::Relink, ActionRequest::Act(0)),
        error("relinking torrent h: no")
    );
    assert_eq!(
        fails(TorrentsBulkAction::RefreshRelink, ActionRequest::OpenTracker),
        error("creating MaM client for refresh+relink: no")
    );
    assert_eq!(
        fails(TorrentsBulkAction::Remove, ActionRequest::Load(0)),
        error("loading torrent for removal: no")
    );
    assert_eq!(
        fails(TorrentsBulkAction::Remove, ActionRequest::Commit),
        error("committing torrent removals: no")
    );
    assert_eq!(
        apply_torrents_action(
            TorrentsBulkAction::Clean,
            &ids,
            ActionState::Waiting(ActionRequest::Load(0)),
            ActionEvent::Found(false),
        ),
        (ActionState::Finished, error("Could not find torrent"))
    );
    assert_eq!(
        apply_torrents_action(
            TorrentsBulkAction::Clean,
            &ids,
            ActionState::Waiting(ActionRequest::Load(0)),
            ActionEvent::Done,
        ),
        (
            ActionState::Waiting(ActionRequest::Load(0)),
            ActionStep::Ignore
        )
    );
}

#[test]
fn pages_start_inside_the_list() {
    assert_eq!(clamp_from(7, 5, 10), 7);
    assert_eq!(clamp_from(10, 5, 10), 5);
    assert_eq!(clamp_from(99, 5, 11), 10);
    assert_eq!(clamp_from(99, 5, 0), 99);
    assert_eq!(clamp_from(99, 0, 10), 99);
    assert_eq!(part_bounds(10, 7, 5), (7, 10));
}

fn names() -> QueryNames {
    QueryNames {
        sorts: vec![
            (SelectedPageSort::Title, "title".to_string()),
            (SelectedPageSort::Size, "size".to_string()),
        ],
        filters: vec![
            (SelectedPageFilter::Author, "author".to_string()),
            (SelectedPageFilter::Cost, "cost".to_string()),
        ],
    }
}

fn pair(key: &str, value: &str) -> (String, String) {
    (key.to_string(), value.to_string())
}

#[test]
fn addresses_are_read() {
    let pairs = vec![
        pair("sort_by", "size"),
        pair("asc", "true"),
        pair("from", "500"),
        pair("show", "title,size"),
        pair("author", "A"),
        pair("unknown", "x"),
        pair("from", "x"),
    ];
    let state = parse_query_state(&pairs, &names());
    assert_eq!(state.sort, Some(SelectedPageSort::Size));
    assert!(state.asc);
    assert_eq!(state.from, 500);
    assert_eq!(state.show, Some("title,size".to_string()));
    assert_eq!(
        state.filters,
        vec![(SelectedPageFilter::Author, "A".to_string())]
    );
    assert_eq!(
        parse_query_state(&vec![], &names()),
        PageQueryState::default()
    );
}

#[test]
fn an_address_is_read_back() {
    let filters = vec![
        (SelectedPageFilter::Cost, "vip".to_string()),
        (SelectedPageFilter::Author, "A B".to_string()),
    ];
    let pairs = build_query_url(
        Some(SelectedPageSort::Title),
        true,
        &filters,
        20,
        Some("title".to_string()),
        &names(),
    );
    let state = parse_query_state(&pairs, &names());
    assert_eq!(state.sort, Some(SelectedPageSort::Title));
    assert!(state.asc);
    assert_eq!(state.filters, filters);
    assert_eq!(state.from, 20);
    assert_eq!(state.show, Some("title".to_string()));
    assert!(build_query_url(None, false, &vec![], 0, None, &names()).is_empty());
}

fn selected(mam_id: u64, title: &str, size: u64) -> SelectedTorrent {
    let mut meta = meta(title);
    meta.size = size;
    SelectedTorrent {
        mam_id,
        meta,
        cost: term(0, "GlobalFreeleech"),
        unsat_buffer: None,
        grabber: None,
        created_at: mam_id as i64,
        started_at: None,
        removed_at: None,
    }
}

fn stored_selected(torrent: SelectedTorrent) -> Option<StoredSelected> {
    Some(StoredSelected {
        torrent,
        texts: SelectedTexts {
            size: "s".to_string(),
            created_at: "c".to_string(),
            started_at: "st".to_string(),
            removed_at: "r".to_string(),
        },
    })
}

#[test]
fn selected_torrents_are_listed() {
    let mut downloading = selected(2, "B", 5);
    downloading.started_at = Some(9);
    let mut removed = selected(3, "C", 1);
    removed.removed_at = Some(4);
    let rows = vec![
        stored_selected(selected(1, "A", 7)),
        None,
        stored_selected(downloading),
        stored_selected(removed),
    ];
    let data = get_selected_data(
        &rows,
        Some(SelectedPageSort::Size),
        true,
        &vec![],
        false,
        None,
        None,
        10,
    );
    let ids: Vec<u64> = data.torrents.iter().map(|t| t.mam_id).collect();
    assert_eq!(ids, vec![2, 1]);
    assert_eq!((data.total, data.queued, data.downloading), (2, 1, 1));
    assert_eq!(data.torrents[0].required_unsats, 10);
    let all = get_selected_data(&rows, None, false, &vec![], true, None, None, 10);
    assert_eq!(all.total, 3);
}

#[test]
fn selected_torrents_are_filtered() {
    let mut t = selected(1, "A", 7);
    t.meta.authors = strings(&["X"]);
    let passes = |field: SelectedPageFilter, value: &str| {
        matches_selected(
            &t,
            &SelectedFilter {
                field,
                value: value.to_string(),
                language: None,
            },
        )
    };
    assert!(passes(SelectedPageFilter::Author, "X"));
    assert!(!passes(SelectedPageFilter::Author, ""));
    assert!(passes(SelectedPageFilter::Cost, "GlobalFreeleech"));
    assert!(passes(SelectedPageFilter::Grabber, ""));
    assert!(!is_downloading(&t));
}

#[test]
fn removing_twice_deletes() {
    let first = apply_to_selected(
        SelectedBulkAction::Remove,
        Some(selected(1, "A", 7)),
        None,
        5,
    );
    let marked = match first {
        SelectedChange::Save(t) => t,
        _ => panic!("Expected a mark"),
    };
    assert_eq!(marked.removed_at, Some(5));
    let second = apply_to_selected(SelectedBulkAction::Remove, Some(marked), None, 6);
    let deleted = match second {
        SelectedChange::Delete(t) => t,
        _ => panic!("Expected a deletion"),
    };
    let updated = apply_to_selected(SelectedBulkAction::Update, Some(deleted), Some(4), 7);
    match updated {
        SelectedChange::Save(t) => {
            assert_eq!(t.removed_at, None);
            assert_eq!(t.unsat_buffer, Some(4));
        }
        _ => panic!("Expected an update"),
    }
    assert!(matches!(
        apply_to_selected(SelectedBulkAction::Update, None, None, 7),
        SelectedChange::Keep
    ));
}

#[test]
fn action_on_selected_torrents_takes_ids_in_turn() {
    let mut records = vec![selected(1, "A", 7), selected(2, "B", 7), selected(3, "C", 7)];
    assert_eq!(
        apply_selected_action(
            SelectedBulkAction::Remove,
            &vec![3, 9, 1, 3],
            None,
            &vec![5, 6, 7, 8],
            &mut records,
        ),
        Ok(())
    );
    let left: Vec<(u64, Option<i64>)> = records.iter().map(|t| (t.mam_id, t.removed_at)).collect();
    assert_eq!(left, vec![(1, Some(7)), (2, None)]);
    assert_eq!(
        apply_selected_action(
            SelectedBulkAction::Update,
            &vec![1],
            None,
            &vec![9],
            &mut records,
        ),
        Ok(())
    );
    let left: Vec<(u64, Option<i64>, Option<u64>)> = records
        .iter()
        .map(|t| (t.mam_id, t.removed_at, t.unsat_buffer))
        .collect();
    assert_eq!(left[0], (1, None, Some(0)));
    assert_eq!(
        apply_selected_action(
            SelectedBulkAction::Remove,
            &vec![],
            None,
            &vec![],
            &mut records,
        ),
        Err("No torrents selected".to_string())
    );
    assert_eq!(records.len(), 2);
}

fn empty_page() -> TorrentsPageState {
    TorrentsPageState {
        query_input: "".to_string(),
        submitted_query: "".to_string(),
        sort: None,
        asc: false,
        filters: vec![(TorrentsPageFilter::Author, "A".to_string())],
        from: 500,
        page_size: 500,
        show: TorrentsPageColumns::default(),
        selected: vec![],
        status: None,
        loading: false,
        request_key: "?from=500".to_string(),
    }
}

#[test]
fn a_search_starts_at_the_beginning() {
    let mut page = empty_page();
    page_step(&mut page, PageEvent::Type(" dragon ".to_string()));
    assert_eq!((page.submitted_query.as_str(), page.from), ("", 500));
    page_step(&mut page, PageEvent::Submit);
    assert_eq!((page.submitted_query.as_str(), page.from), ("dragon", 0));
    page_step(&mut page, PageEvent::GoTo(500));
    page_step(&mut page, PageEvent::ClearQuery);
    assert_eq!((page.query_input.as_str(), page.from), ("", 0));
    page_step(&mut page, PageEvent::GoTo(500));
    page_step(&mut page, PageEvent::PageSize(100));
    assert_eq!((page.page_size, page.from), (100, 0));
    page_step(&mut page, PageEvent::GoTo(500));
    page_step(
        &mut page,
        PageEvent::RemoveFilter(TorrentsPageFilter::Author, "A".to_string()),
    );
    assert!(page.filters.is_empty());
    assert_eq!(page.from, 0);
    let mut other = empty_page();
    page_step(&mut other, PageEvent::ClearAll);
    assert!(other.filters.is_empty());
    assert_eq!(other.from, 0);
    page_step(&mut other, PageEvent::Toggle(TorrentColumn::Path, true));
    assert!(other.show.path);
}

#[test]
fn an_action_needs_a_selection_and_reports() {
    let mut page = empty_page();
    let effect = page_step(&mut page, PageEvent::Act(TorrentsBulkAction::Relink));
    assert!(matches!(effect, PageEffect::Nothing));
    assert_eq!(
        page.status,
        Some(("Select at least one torrent".to_string(), true))
    );
    page_step(
        &mut page,
        PageEvent::SelectAll {
            row_ids: strings(&["b", "a"]),
            checked: true,
        },
    );
    match page_step(&mut page, PageEvent::Act(TorrentsBulkAction::Relink)) {
        PageEffect::Run { action, ids } => {
            assert_eq!(action, TorrentsBulkAction::Relink);
            assert_eq!(ids, strings(&["a", "b"]));
        }
        _ => panic!("Expected an action"),
    }
    assert!(page.loading);
    assert_eq!(page.status, None);
    page_step(
        &mut page,
        PageEvent::ActFailed {
            action: TorrentsBulkAction::Relink,
            error: "no".to_string(),
        },
    );
    assert_eq!(page.status, Some(("relink failed: no".to_string(), true)));
    assert!(!page.loading);
    assert_eq!(page.selected.len(), 2);
    let effect = page_step(
        &mut page,
        PageEvent::Acted {
            label: "Done".to_string(),
        },
    );
    assert!(matches!(effect, PageEffect::Reload));
    assert!(page.selected.is_empty());
    assert_eq!(page.status, Some(("Done".to_string(), false)));
}

#[test]
fn the_page_follows_the_address() {
    let mut page = empty_page();
    let route = || RouteState {
        query: "q".to_string(),
        sort: Some(TorrentsPageSort::Size),
        asc: true,
        filters: vec![],
        from: 0,
        page_size: 100,
        show: TorrentsPageColumns::default(),
    };
    let same = PageEvent::Route {
        state: route(),
        key: "?from=500".to_string(),
    };
    assert!(matches!(page_step(&mut page, same), PageEffect::Nothing));
    assert_eq!(page.from, 500);
    let new = PageEvent::Route {
        state: route(),
        key: "?query=q".to_string(),
    };
    assert!(matches!(page_step(&mut page, new), PageEffect::Reload));
    assert_eq!(page.submitted_query, "q");
    assert_eq!(page.sort, Some(TorrentsPageSort::Size));
    let sync = |key: &str| PageEvent::Sync {
        key: key.to_string(),
    };
    assert!(matches!(
        page_step(&mut page, sync("?query=q")),
        PageEffect::Nothing
    ));
    match page_step(&mut page, sync("?query=r")) {
        PageEffect::Navigate(key) => assert_eq!(key, "?query=r"),
        _ => panic!("Expected a new address"),
    }
    assert_eq!(page.request_key, "?query=r");
    let rows = rows(&["A"]);
    let old = page_of(&rows);
    assert_eq!(
        data_to_show(None, Some(&old)).map(|d| d.total),
        Some(1)
    );
    assert!(data_to_show(None, None).is_none());
}

fn page_of(rows: &Vec<Option<StoredTorrent>>) -> mlm::web::types::TorrentsData {
    page(rows, None, true, &vec![], None, None)
}

#[test]
fn best_score_comes_first_and_equal_scores_keep_their_order() {
    assert_eq!(best_first(&vec![3, 9, -1, 9]), vec![1, 3, 0, 2]);
    assert_eq!(best_first(&vec![]), Vec::<usize>::new());
}

#[test]
fn scores_from_ten_are_found() {
    assert!(is_found(10));
    assert!(is_found(11));
    assert!(!is_found(9));
    assert!(!is_found(-5));
    assert_eq!(score_of(Some(-7)), -7);
    assert_eq!(score_of(None), 0);
}

#[test]
fn longest_search_text_is_scored() {
    let n = mlm::outside::MAX_QUERY;
    let text: String = (0..n)
        .map(|i| char::from_u32(0x4e00 + i as u32).unwrap())
        .collect();
    let mut expected: isize = 72;
    let mut counter: isize = n as isize - 1;
    for k in (1..=n as isize).rev() {
        if k < n as isize {
            counter += k;
            expected += 8 * counter;
        }
        expected += 8 * (k - 1) + 8;
    }
    assert_eq!(fuzzy_score(&text, &text), expected);
    assert!(expected < i32::MAX as isize);
}

#[test]
fn gaps_lower_the_score() {
    let far = format!("a{}b", " ".repeat(1000));
    assert_eq!(fuzzy_score("ab", &far), 2 * 80 - 4 * 1000);
}
