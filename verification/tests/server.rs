use mlm::ids::Ids;
use mlm::linker::common::map_path;
use mlm::linker::course::{RelinkAction, RelinkEvent, RelinkState};
use mlm::linker::progress::{
    LinkAction, LinkEvent, LinkState, MatchAction, MatchEvent, MatchState, MetaProblem,
};
use mlm::linker::relink::LinkError;
use mlm::model::{
    ClientStatus, Config, EventType, Library, LibraryByDownloadDir, LibraryLinkMethod,
    LibraryOptions, LibraryTagFilters, MetadataSource, QbitConfig, QbitTorrent, QbitUpdate, Term,
    Torrent, TorrentContent, TorrentMeta, Tracker,
};
use mlm::path::PathBuf;
use mlm::server::files::{
    first_missing_component, leading_paths, link_not_found_diagnostics, probe_path,
    windows_fs_path, PathKind, PathProbe,
};
use mlm::server::linker::{
    client_place, find_library, library_file_path, link_plans, linked_server_torrent, qbit_file_path,
    refresh_metadata, run_match_step, run_relink_step, run_step, ServerTorrent,
};
use mlm::server::mock::{
    mam_search, mock_mam_torrent_result, mock_qbit_torrent, mock_search_result, padded_text, parse_torrent_index,
    qbit_files, qbit_torrents_info, search_page, search_total, torrent_title, SearchReply,
    SearchRequest,
};
use mlm::server::qbittorrent::{
    category_to_ensure, ensure_category_exists, get_torrent, retry_delay, CategoryAction,
    CategoryCache, CategoryEvent, CategoryState, ClientAnswer, ClientSearch,
};

#[test]
fn linker_test_map_path() {
    let mappings = vec![
        (PathBuf::new("/downloads"), PathBuf::new("/books")),
        (
            PathBuf::new("/downloads/audiobooks"),
            PathBuf::new("/audiobooks"),
        ),
        (PathBuf::new("/audiobooks"), PathBuf::new("/audiobooks")),
    ];
    assert_eq!(
        map_path(&mappings, "/downloads/torrent"),
        PathBuf::new("/books/torrent")
    );
    assert_eq!(
        map_path(&mappings, "/downloads/audiobooks/torrent"),
        PathBuf::new("/audiobooks/torrent")
    );
    assert_eq!(
        map_path(&mappings, "/downloads/audiobooks/torrent/deep"),
        PathBuf::new("/audiobooks/torrent/deep")
    );
    assert_eq!(
        map_path(&mappings, "/audiobooks/torrent"),
        PathBuf::new("/audiobooks/torrent")
    );
    assert_eq!(
        map_path(&mappings, "/ebooks/torrent"),
        PathBuf::new("/ebooks/torrent")
    );
}

#[test]
fn test_qbit_file_path_mixed_separators() {
    assert_eq!(
        qbit_file_path(r"Isaac Asimov AudioBook Collection/Book 01\CD 07/Track01.mp3"),
        PathBuf::new("Isaac Asimov AudioBook Collection")
            .join("Book 01")
            .join("CD 07")
            .join("Track01.mp3")
    );
}

#[test]
fn test_qbit_file_path_ignores_empty_and_dot_segments() {
    assert_eq!(
        qbit_file_path(r"/Book 01//./CD 07\.\Track01.mp3"),
        PathBuf::new("Book 01").join("CD 07").join("Track01.mp3")
    );
}

#[test]
fn client_paths_are_relative() {
    assert_eq!(qbit_file_path("/etc/x").as_str(), "etc/x");
    assert_eq!(qbit_file_path(r"\\a\..\b").as_str(), "a/../b");
    assert_eq!(qbit_file_path("//./").as_str(), "");
}

#[test]
fn test_windows_fs_path_drive_prefix() {
    let path = PathBuf::new(r"F:\Sharon\Media\Audio\Hardlinks\file.m4b");
    assert_eq!(
        windows_fs_path(&path, true),
        PathBuf::new(r"\\?\F:\Sharon\Media\Audio\Hardlinks\file.m4b")
    );
}

#[test]
fn test_windows_fs_path_unc_prefix() {
    let path = PathBuf::new(r"\\server\share\Audio\file.m4b");
    assert_eq!(
        windows_fs_path(&path, true),
        PathBuf::new(r"\\?\UNC\server\share\Audio\file.m4b")
    );
}

#[test]
fn test_windows_fs_path_preserves_existing_extended_prefix() {
    let path = PathBuf::new(r"\\?\F:\Sharon\Media\Audio\Hardlinks\file.m4b");
    assert_eq!(windows_fs_path(&path, true), path);
}

#[test]
fn test_windows_fs_path_noop_on_non_windows() {
    let path = PathBuf::new("/tmp/test/file.m4b");
    assert_eq!(windows_fs_path(&path, false), path);
}

#[test]
fn the_long_form_stays() {
    for text in [r"F:\a", r"\\server\share\a", r"a\b", r"F:a", r"\\server", ""] {
        let once = windows_fs_path(&PathBuf::new(text), true);
        assert_eq!(windows_fs_path(&once, true).as_str(), once.as_str());
    }
    assert_eq!(windows_fs_path(&PathBuf::new(r"F:a"), true).as_str(), r"F:a");
    assert_eq!(
        windows_fs_path(&PathBuf::new(r"\\server"), true).as_str(),
        r"\\server"
    );
    assert_eq!(windows_fs_path(&PathBuf::new("c:/x"), true).as_str(), r"\\?\c:/x");
    assert_eq!(windows_fs_path(&PathBuf::new("c:/x"), false).as_str(), "c:/x");
    assert_eq!(windows_fs_path(&PathBuf::new("//tmp/x"), false).as_str(), "//tmp/x");
}

fn probe(path: &str, kind: PathKind, first_missing: Option<&str>) -> Option<PathProbe> {
    Some(PathProbe {
        path: path.to_string(),
        kind,
        first_missing: first_missing.map(|m| m.to_string()),
    })
}

#[test]
fn probes_tell_what_was_seen() {
    assert_eq!(probe_path("library_parent", &None), "library_parent=<none>");
    assert_eq!(
        probe_path("download_path", &probe("/a", PathKind::Dir, None)),
        "download_path=/a (exists=true, type=dir)"
    );
    assert_eq!(
        probe_path("p", &probe("/a", PathKind::File, None)),
        "p=/a (exists=true, type=file)"
    );
    assert_eq!(
        probe_path("p", &probe("/a", PathKind::Symlink, None)),
        "p=/a (exists=true, type=symlink)"
    );
    assert_eq!(
        probe_path("p", &probe("/a", PathKind::Other, None)),
        "p=/a (exists=true, type=other)"
    );
    assert_eq!(
        probe_path("p", &probe("/a/b", PathKind::Missing, Some("/a"))),
        "p=/a/b (exists=false, type=missing, first_missing=/a)"
    );
}

#[test]
fn a_missing_file_is_looked_into() {
    let message = |not_found: bool, raw: Option<i32>| {
        link_not_found_diagnostics(
            not_found,
            raw,
            "hardlink",
            "No such file",
            &probe("/d/a", PathKind::Missing, Some("/d")),
            &probe("/d", PathKind::Missing, Some("/d")),
            &probe("/l/a", PathKind::Missing, Some("/l/a")),
            &None,
        )
    };
    assert_eq!(
        message(true, None),
        Some(
            "hardlink failed with not-found error while linking files: No such file \
             | download_path=/d/a (exists=false, type=missing, first_missing=/d) \
             | download_parent=/d (exists=false, type=missing, first_missing=/d) \
             | library_path=/l/a (exists=false, type=missing, first_missing=/l/a) \
             | library_parent=<none>"
                .to_string()
        )
    );
    assert!(message(false, Some(2)).is_some());
    assert!(message(false, Some(3)).is_some());
    assert!(message(false, Some(17)).is_none());
    assert!(message(false, None).is_none());
}

#[test]
fn the_first_missing_directory_is_found() {
    let path = PathBuf::new("/a/b/c");
    let texts: Vec<String> = leading_paths(&path)
        .iter()
        .map(|p| p.as_str().to_string())
        .collect();
    assert_eq!(texts, vec!["/", "/a", "/a/b", "/a/b/c"]);
    assert_eq!(
        first_missing_component(&path, &vec![true, true, false, false]),
        Some(PathBuf::new("/a/b"))
    );
    assert_eq!(first_missing_component(&path, &vec![true; 4]), None);
}

fn config(tags: &[&str]) -> Config {
    Config {
        exclude_narrator_in_library_dir: false,
        audio_types: vec!["m4b".to_string()],
        ebook_types: vec![],
        qbittorrent: vec![],
        libraries: vec![library(tags)],
    }
}

fn library(tags: &[&str]) -> Library {
    Library::ByDownloadDir(LibraryByDownloadDir {
        download_dir: PathBuf::new("/downloads"),
        options: LibraryOptions {
            name: Some("books".to_string()),
            library_dir: PathBuf::new("/library"),
            method: LibraryLinkMethod::Hardlink,
            audio_types: None,
            ebook_types: None,
        },
        tag_filters: LibraryTagFilters {
            allow_tags: tags.iter().map(|t| t.to_string()).collect(),
            deny_tags: vec![],
        },
    })
}

fn client_torrent(tags: &str) -> QbitTorrent {
    QbitTorrent {
        hash: "hash".to_string(),
        name: "Name".to_string(),
        save_path: "/downloads".to_string(),
        category: "audio".to_string(),
        tags: tags.to_string(),
    }
}

fn client() -> QbitConfig {
    QbitConfig {
        url: "http://localhost:8080".to_string(),
        username: "".to_string(),
        password: "".to_string(),
        path_mapping: vec![(PathBuf::new("/downloads"), PathBuf::new("/data"))],
        on_invalid_torrent: Some(QbitUpdate {
            category: Some("invalid".to_string()),
            tags: vec![],
        }),
    }
}

fn meta() -> TorrentMeta {
    TorrentMeta {
        ids: Ids::new(),
        vip_status: None,
        cat: None,
        media_type: Term {
            rank: 0,
            name: "Audiobook".to_string(),
        },
        main_cat: None,
        categories: vec![],
        tags: vec![],
        language: None,
        flags: None,
        filetypes: vec![],
        num_files: 0,
        size: 0,
        title: "Title".to_string(),
        edition: None,
        description: "".to_string(),
        authors: vec!["Author".to_string()],
        narrators: vec![],
        series: vec![],
        source: MetadataSource::Mam,
        uploaded_at: None,
    }
}

fn record() -> Torrent {
    Torrent {
        id: "hash".to_string(),
        id_is_hash: true,
        mam_id: Some(7),
        library_path: None,
        library_files: vec![],
        linker: None,
        category: None,
        selected_audio_format: None,
        selected_ebook_format: None,
        title_search: "".to_string(),
        meta: meta(),
        created_at: 1,
        replaced_with: None,
        library_mismatch: None,
        client_status: None,
    }
}

#[test]
fn listed_tags_are_taken_as_they_stand() {
    let cfg = config(&["kids"]);
    assert!(find_library(&cfg, &client_torrent("new, kids")).is_some());
    assert!(find_library(&cfg, &client_torrent("new,kids")).is_none());
    assert!(find_library(&cfg, &client_torrent("new,  kids")).is_none());
}

#[test]
fn relinking_goes_by_listed_tags() {
    let cfg = config(&["kids"]);
    let taken = run_relink_step(
        &cfg,
        &client_torrent("new, kids"),
        RelinkState::Start,
        RelinkEvent::Found,
    );
    assert!(matches!(taken.action, RelinkAction::FetchFiles));
    let left = run_relink_step(
        &cfg,
        &client_torrent("new,kids"),
        RelinkState::Start,
        RelinkEvent::Found,
    );
    assert!(matches!(
        left.action,
        RelinkAction::Fail(LinkError::NoLibrary)
    ));
}

#[test]
fn only_the_directory_right_above_counts_as_a_disc() {
    assert_eq!(
        library_file_path(r"Book\CD 07/Track01.mp3").as_str(),
        "Disc 07/Track01.mp3"
    );
    assert_eq!(
        library_file_path("CD 07/Sub/Track01.mp3").as_str(),
        "Track01.mp3"
    );
    assert_eq!(library_file_path("Track01.mp3").as_str(), "Track01.mp3");
}

#[test]
fn client_files_are_planned() {
    let files = vec![
        TorrentContent {
            name: r"Book\Disc 1\a.m4b".to_string(),
        },
        TorrentContent {
            name: "Book/cover.jpg".to_string(),
        },
    ];
    let plans = link_plans(
        &client(),
        &client_torrent(""),
        &files,
        &Some(".m4b".to_string()),
        &None,
        &PathBuf::new("/library/A/T"),
    );
    assert_eq!(plans.len(), 1);
    assert_eq!(plans[0].download_path.as_str(), "/data/Book/Disc 1/a.m4b");
    assert_eq!(plans[0].library_path.as_str(), "/library/A/T/Disc 1/a.m4b");
    assert_eq!(plans[0].relative_library_path.as_str(), "Disc 1/a.m4b");
}

#[test]
fn a_run_writes_the_names_first() {
    let cfg = config(&[]);
    let torrent = client_torrent("");
    let step = run_step(
        &cfg,
        &torrent,
        LinkState::Loading,
        LinkEvent::Loaded {
            existing: Some(record()),
            selected: true,
        },
    );
    assert!(step.remove_selected);
    match step.action {
        LinkAction::Save {
            torrent: Some(t),
            events,
        } => {
            assert_eq!(t.linker, Some("books".to_string()));
            assert_eq!(t.category, Some("audio".to_string()));
            assert!(events.is_empty());
        }
        _ => panic!("Expected a record to save"),
    }
    let step = run_step(&cfg, &torrent, step.state, LinkEvent::Saved);
    assert!(matches!(step.action, LinkAction::FetchTrackers));
    let trackers = vec![Tracker {
        msg: "torrent not registered with this tracker".to_string(),
    }];
    let step = run_step(
        &cfg,
        &torrent,
        step.state,
        LinkEvent::Trackers(Some(trackers)),
    );
    match step.action {
        LinkAction::Save {
            torrent: Some(t),
            events,
        } => {
            assert_eq!(t.client_status, Some(ClientStatus::RemovedFromTracker));
            assert_eq!(events.len(), 1);
            assert_eq!(events[0].mam_id, Some(7));
            assert_eq!(events[0].event, EventType::RemovedFromTracker);
        }
        _ => panic!("Expected a record to save"),
    }
    let step = run_step(&cfg, &torrent, step.state, LinkEvent::Saved);
    assert!(matches!(step.action, LinkAction::Match { library: 0, .. }));
}

#[test]
fn a_run_ends_where_trackers_are_not_told() {
    let step = run_step(
        &config(&[]),
        &client_torrent(""),
        LinkState::Tracking(record()),
        LinkEvent::Trackers(None),
    );
    assert!(matches!(step.action, LinkAction::Abort));
    let step = run_step(
        &config(&[]),
        &client_torrent(""),
        LinkState::Listed,
        LinkEvent::Found { finished: false },
    );
    assert!(matches!(step.action, LinkAction::Skip));
}

fn run_match(state: MatchState, event: MatchEvent) -> mlm::linker::progress::MatchStep {
    run_match_step(&config(&[]), &client(), "hash", &library(&[]), state, event)
}

#[test]
fn a_run_leaves_unknown_torrents_as_they_are() {
    let step = run_match(
        MatchState::Mam {
            audio: None,
            ebook: None,
            existing: None,
        },
        MatchEvent::Mam(None),
    );
    match step.action {
        MatchAction::Fail { client, error } => {
            assert!(client.is_empty());
            assert_eq!(error, LinkError::NotOnMam);
        }
        _ => panic!("Expected a failure"),
    }
    let step = run_match(
        MatchState::Meta {
            audio: None,
            ebook: None,
            existing: None,
        },
        MatchEvent::Meta(Err(MetaProblem::UnknownMediaType("x".to_string()))),
    );
    match step.action {
        MatchAction::Fail { client, .. } => assert_eq!(client.len(), 2),
        _ => panic!("Expected a failure"),
    }
}

#[test]
fn a_run_takes_the_description_as_it_is() {
    let mut old = record();
    old.meta.ids.insert("abs".to_string(), "known".to_string());
    let step = run_match(
        MatchState::Meta {
            audio: None,
            ebook: None,
            existing: Some(old),
        },
        MatchEvent::Meta(Ok(meta())),
    );
    match step.action {
        MatchAction::Link { meta, .. } => assert!(meta.ids.is_empty()),
        _ => panic!("Expected a link"),
    }
    let mut known = record();
    known.meta.ids.insert("abs".to_string(), "known".to_string());
    assert!(refresh_metadata(&mut known, meta()));
    assert!(known.meta.ids.is_empty());
    assert!(!refresh_metadata(&mut known, meta()));
}

#[test]
fn the_servers_record_keeps_other_catalogues() {
    let existing = ServerTorrent {
        record: record(),
        abs_id: Some("abs".to_string()),
        goodreads_id: Some(3),
        request_metadata_update: true,
    };
    let files = vec![
        TorrentContent {
            name: "b.m4b".to_string(),
        },
        TorrentContent {
            name: r"x\a.m4b".to_string(),
        },
    ];
    let place = client_place(
        &config(&[]),
        &client(),
        &client_torrent(""),
        &library(&[]),
        &files,
        &Some(".m4b".to_string()),
        &None,
        &meta(),
        false,
    )
    .unwrap();
    let linked = |existing: Option<&ServerTorrent>| {
        linked_server_torrent(
            "hash",
            "audio",
            &library(&[]),
            &place,
            Some(".m4b".to_string()),
            None,
            existing,
            &meta(),
            8,
            "title".to_string(),
            99,
        )
    };
    let new = linked(Some(&existing));
    assert_eq!(new.abs_id, Some("abs".to_string()));
    assert_eq!(new.goodreads_id, Some(3));
    assert!(!new.request_metadata_update);
    assert_eq!(new.record.created_at, 1);
    assert_eq!(new.record.mam_id, Some(8));
    assert_eq!(
        new.record.library_files,
        vec![PathBuf::new("a.m4b"), PathBuf::new("b.m4b")]
    );
    assert_eq!(new.record.library_path, place.dir);
    let first = linked(None);
    assert_eq!(first.abs_id, None);
    assert_eq!(first.goodreads_id, None);
    assert_eq!(first.record.created_at, 99);
}

const SECOND: u128 = 1_000_000_000;

#[test]
fn categories_are_known_for_a_minute() {
    let mut cache = CategoryCache::default();
    assert_eq!(cache.get("u", 5), None);
    cache.store("u", &vec!["a".to_string()], 10 * SECOND);
    cache.store("v", &vec![], 10 * SECOND);
    assert_eq!(
        cache.get("u", 70 * SECOND - 1),
        Some(vec!["a".to_string()])
    );
    assert_eq!(cache.get("u", 70 * SECOND), None);
    assert_eq!(cache.get("u", 0), Some(vec!["a".to_string()]));
    cache.store("u", &vec!["b".to_string()], 100 * SECOND);
    assert_eq!(cache.get("u", 101 * SECOND), Some(vec!["b".to_string()]));
    cache.invalidate("u");
    assert_eq!(cache.get("u", 101 * SECOND), None);
    assert_eq!(cache.get("v", 11 * SECOND), Some(vec![]));
}

#[test]
fn a_missing_category_is_made() {
    let mut cache = CategoryCache::new();
    let step = ensure_category_exists(
        &mut cache,
        "u",
        "new",
        CategoryState::Asked,
        CategoryEvent::Begin { now: 5 },
    );
    assert!(matches!(step.action, CategoryAction::Fetch));
    let step = ensure_category_exists(
        &mut cache,
        "u",
        "new",
        step.state,
        CategoryEvent::Fetched(Ok(vec!["old".to_string()])),
    );
    assert!(matches!(step.action, CategoryAction::Create));
    assert_eq!(cache.get("u", 6), Some(vec!["old".to_string()]));
    let step = ensure_category_exists(
        &mut cache,
        "u",
        "new",
        step.state,
        CategoryEvent::Created(Ok(())),
    );
    assert!(matches!(step.action, CategoryAction::Done));
    assert_eq!(cache.get("u", 6), None);
}

#[test]
fn a_known_or_empty_category_needs_nothing() {
    let mut cache = CategoryCache::new();
    cache.store("u", &vec!["old".to_string()], 5);
    for category in ["", "old"] {
        let step = ensure_category_exists(
            &mut cache,
            "u",
            category,
            CategoryState::Asked,
            CategoryEvent::Begin { now: 6 },
        );
        assert!(matches!(step.action, CategoryAction::Done));
    }
    assert_eq!(
        category_to_ensure(&Some("x".to_string())),
        Some("x".to_string())
    );
    assert_eq!(category_to_ensure(&Some("".to_string())), None);
    assert_eq!(category_to_ensure(&None), None);
}

#[test]
fn the_first_error_is_reported() {
    let mut cache = CategoryCache::new();
    let failed = |e: &str| CategoryEvent::Created(Err(e.to_string()));
    let step = ensure_category_exists(
        &mut cache,
        "u",
        "new",
        CategoryState::Creating,
        failed("first"),
    );
    assert!(matches!(step.action, CategoryAction::Create));
    let step = ensure_category_exists(&mut cache, "u", "new", step.state, failed("second"));
    match step.action {
        CategoryAction::Fail(e) => assert_eq!(e, "first"),
        _ => panic!("Expected a failure"),
    }
    let step = ensure_category_exists(
        &mut cache,
        "u",
        "new",
        CategoryState::Fetching { at: 0 },
        CategoryEvent::Fetched(Err("no".to_string())),
    );
    match step.action {
        CategoryAction::Fail(e) => assert_eq!(e, "no"),
        _ => panic!("Expected a failure"),
    }
    let step = ensure_category_exists(
        &mut cache,
        "u",
        "new",
        CategoryState::Finished,
        CategoryEvent::Begin { now: 0 },
    );
    assert!(matches!(step.action, CategoryAction::Ignore));
}

#[test]
fn forbidden_requests_are_tried_three_times() {
    assert_eq!(retry_delay(1, "status 403 Forbidden"), Some(500));
    assert_eq!(retry_delay(2, "status 403 Forbidden"), Some(1000));
    assert_eq!(retry_delay(3, "status 403 Forbidden"), None);
    assert_eq!(retry_delay(1, "status 404"), None);
}

#[test]
fn the_first_listed_torrent_is_found() {
    match get_torrent(ClientAnswer::Torrents(vec![
        client_torrent("first"),
        client_torrent("second"),
    ])) {
        ClientSearch::Found(t) => assert_eq!(t.tags, "first"),
        _ => panic!("Expected a torrent"),
    }
    assert!(matches!(
        get_torrent(ClientAnswer::Torrents(vec![])),
        ClientSearch::Next
    ));
    assert!(matches!(
        get_torrent(ClientAnswer::NoLogin),
        ClientSearch::Next
    ));
    match get_torrent(ClientAnswer::Failed("no".to_string())) {
        ClientSearch::Fail(e) => assert_eq!(e, "no"),
        _ => panic!("Expected a failure"),
    }
}

#[test]
fn hashes_hold_numbers() {
    assert_eq!(parse_torrent_index("torrent-007"), Some(7));
    assert_eq!(parse_torrent_index("torrent-+7"), Some(7));
    assert_eq!(parse_torrent_index("torrent-"), None);
    assert_eq!(parse_torrent_index("torrent-x"), None);
    assert_eq!(parse_torrent_index("other-1"), None);
    assert_eq!(
        parse_torrent_index("torrent-99999999999999999999999"),
        None
    );
    assert_eq!(padded_text(7, 3), "007");
    assert_eq!(padded_text(1234, 3), "1234");
    assert_eq!(torrent_title(32), "Test Book 032");
}

#[test]
fn the_client_has_thirty_five_torrents() {
    assert!(mock_qbit_torrent("torrent-000").is_none());
    assert!(mock_qbit_torrent("torrent-036").is_none());
    let torrent = mock_qbit_torrent("torrent-35").unwrap();
    assert_eq!(torrent.hash, "torrent-35");
    assert_eq!(torrent.title, "Test Book 035");
    let hashes = |h: Option<&str>| {
        qbit_torrents_info(&h.map(|h| h.to_string()))
            .into_iter()
            .map(|t| t.hash)
            .collect::<Vec<_>>()
    };
    assert_eq!(hashes(None), vec!["torrent-001"]);
    assert_eq!(hashes(Some("")), vec!["torrent-001"]);
    assert_eq!(
        hashes(Some("torrent-002|x|torrent-003|torrent-99")),
        vec!["torrent-002", "torrent-003"]
    );
    assert_eq!(
        qbit_files(&Some("torrent-002".to_string())),
        Some("Test Book 002.m4b".to_string())
    );
    assert_eq!(qbit_files(&Some("torrent-99".to_string())), None);
    assert_eq!(qbit_files(&None), None);
}

#[test]
fn search_results_are_made_up() {
    let result = mock_search_result(99_010, 10);
    assert_eq!(result.id, 99_010);
    assert_eq!(result.added, "2024-11-11 10:00:00");
    assert_eq!(result.author_info, r#"{"10":"Test Author 010"}"#);
    assert_eq!(result.narrator_info, r#"{"10":"Test Narrator 010"}"#);
    assert_eq!(result.comments, 4);
    assert_eq!(result.leechers, 2);
    assert_eq!(result.seeders, 15);
    assert_eq!(result.times_completed, 110);
    assert_eq!(result.filetype, "m4b");
    assert!(result.free);
    assert_eq!(result.size, "310.00 MiB");
    assert_eq!(result.title, "Mock Search Result 010");
    let odd = mock_search_result(99_011, 11);
    assert_eq!(odd.filetype, "mp3");
    assert!(!odd.free);
    assert_eq!(odd.added, "2024-12-12 10:00:00");
}

fn request(text: &str, perpage: Option<usize>, start_number: usize) -> SearchRequest {
    SearchRequest {
        perpage,
        id: 0,
        text: text.to_string(),
        start_number,
    }
}

#[test]
fn queries_find_results() {
    assert_eq!(search_total(""), 0);
    assert_eq!(search_total("a test book"), 205);
    assert_eq!(search_total("mock search"), 205);
    assert_eq!(search_total("else"), 2);
    let total = |text: &str| match mam_search(&request(text, None, 0)) {
        SearchReply::Page(page) => page.total,
        SearchReply::Single(_) => panic!("Expected a page"),
    };
    assert_eq!(total("   "), 0);
    assert_eq!(total(" TEST Book 1 "), 205);
    assert_eq!(total("Dune"), 2);
    let single = SearchRequest {
        perpage: None,
        id: 5,
        text: "".to_string(),
        start_number: 0,
    };
    assert_eq!(
        mam_search(&single),
        SearchReply::Single(mock_mam_torrent_result(5))
    );
}

#[test]
fn single_result_has_its_own_metadata() {
    let result = mock_mam_torrent_result(7);
    assert_eq!(result.id, 7);
    assert_eq!(result.title, "Updated Mock Search Result Title");
    assert_eq!(result.author_info, r#"{"1":"Updated Author Name"}"#);
    assert_eq!(
        result.series_info,
        r#"{"1":{"name":"Updated Series","position":"3"}}"#
    );
    assert_eq!(result.size, "350.50 MiB");
    assert_eq!(result.tags, "updated fantasy epic");
    assert_ne!(result.title, torrent_title(7));
    let numbered = mock_search_result(99_007, 7);
    assert_eq!((numbered.series_info.as_str(), numbered.tags.as_str()), ("{}", "fantasy test"));
}

#[test]
fn pages_show_each_result_once() {
    let mut titles: Vec<String> = vec![];
    let mut start = 0;
    loop {
        let page = search_page(205, Some(60), start);
        assert_eq!(page.perpage, 60);
        if page.data.is_empty() {
            break;
        }
        titles.extend(page.data.into_iter().map(|r| r.title));
        start += 60;
    }
    assert_eq!(titles.len(), 205);
    assert_eq!(titles[0], "Mock Search Result 001");
    assert_eq!(titles[204], "Mock Search Result 205");
    titles.dedup();
    assert_eq!(titles.len(), 205);
    assert_eq!(search_page(205, Some(0), 0).data.len(), 1);
    assert_eq!(search_page(205, Some(500), 0).data.len(), 100);
    assert_eq!(search_page(2, None, 900).start, 2);
}
