use mlm::ids::Ids;
use mlm::linker::common::map_path;
use mlm::linker::progress::{
    handle_invalid_torrent, link_step, match_step, ClientStep, LinkAction, LinkEvent, LinkState,
    MatchAction, MatchEvent, MatchState, MetaProblem,
};
use mlm::linker::relink::{
    after_dir_removal, cleanup_partial_link_outputs, clear_torrent_link_state, hard_link_outcome,
    ignore_not_found, library_path_changed, link_operations, linked_event, linked_torrent,
    mam_id_to_fetch, merge_meta, next_dir_above, occupied_message, refresh_mam_metadata,
    relink_many, resolve_link_library_dir, resolved_mam_id, take_torrent,
    torrent_title_for_summary, wanted_formats, BookPlace, CleanupStep, ClientReply, HardLinkOutcome,
    InteractiveRelinkFailure, InteractiveRelinkSuccess, LinkError, LinkOperation, RelinkOutcome,
    RemovalOutcome, RemovalStep,
};
use mlm::linker::torrent::{
    calculate_library_file_path, calculate_link_plans, check_torrent_updates, disc_file_path,
    disc_number, find_library, has_dirs_to_update, FileLinkPlan,
};
use mlm::model::{
    ClientStatus, Config, Event, EventType, Library, LibraryByCategory, LibraryByDownloadDir,
    LibraryByRipDir, LibraryLinkMethod, LibraryMismatch, LibraryOptions, LibraryTagFilters,
    MetadataSource, QbitConfig, QbitTorrent, QbitUpdate, Term, Torrent, TorrentContent,
    TorrentMeta, Tracker,
};
use mlm::path::PathBuf;

fn mock_meta() -> TorrentMeta {
    TorrentMeta {
        ids: Ids::new(),
        vip_status: None,
        cat: None,
        media_type: Term {
            rank: 0,
            name: "Audiobook".to_string(),
        },
        main_cat: None,
        categories: vec![],
        tags: vec![],
        language: None,
        flags: None,
        filetypes: vec![],
        num_files: 0,
        size: 0,
        title: "".to_string(),
        edition: None,
        description: "".to_string(),
        authors: vec![],
        narrators: vec![],
        series: vec![],
        source: MetadataSource::Mam,
        uploaded_at: Some(1_700_000_000),
    }
}

fn mock_torrent() -> Torrent {
    Torrent {
        id: "1".to_string(),
        id_is_hash: true,
        mam_id: None,
        library_path: None,
        library_files: vec![],
        linker: None,
        category: None,
        selected_audio_format: None,
        selected_ebook_format: None,
        title_search: "".to_string(),
        meta: mock_meta(),
        created_at: 1_700_000_000,
        replaced_with: None,
        library_mismatch: None,
        client_status: None,
    }
}

fn mock_config(libraries: Vec<Library>) -> Config {
    Config {
        exclude_narrator_in_library_dir: false,
        audio_types: vec!["m4b".to_string(), "mp3".to_string()],
        ebook_types: vec!["epub".to_string()],
        qbittorrent: vec![],
        libraries,
    }
}

fn options(name: Option<&str>, dir: &str) -> LibraryOptions {
    LibraryOptions {
        name: name.map(|n| n.to_string()),
        library_dir: PathBuf::new(dir),
        method: LibraryLinkMethod::Hardlink,
        audio_types: None,
        ebook_types: None,
    }
}

fn by_download_dir(download_dir: &str, name: Option<&str>, dir: &str) -> Library {
    Library::ByDownloadDir(LibraryByDownloadDir {
        download_dir: PathBuf::new(download_dir),
        options: options(name, dir),
        tag_filters: LibraryTagFilters::default(),
    })
}

fn by_category(category: &str, name: Option<&str>, dir: &str) -> Library {
    Library::ByCategory(LibraryByCategory {
        category: category.to_string(),
        options: options(name, dir),
        tag_filters: LibraryTagFilters::default(),
    })
}

fn qbit_torrent(save_path: &str, category: &str) -> QbitTorrent {
    QbitTorrent {
        hash: "hash".to_string(),
        name: "Name".to_string(),
        save_path: save_path.to_string(),
        category: category.to_string(),
        tags: "".to_string(),
    }
}

fn qbit_config() -> QbitConfig {
    QbitConfig {
        url: "".to_string(),
        username: "".to_string(),
        password: "".to_string(),
        path_mapping: vec![],
        on_invalid_torrent: None,
    }
}

fn content(name: &str) -> TorrentContent {
    TorrentContent {
        name: name.to_string(),
    }
}

fn unregistered() -> Vec<Tracker> {
    vec![Tracker {
        msg: "torrent not registered with this tracker".to_string(),
    }]
}

#[test]
fn test_find_library_by_download_dir() {
    let cfg = mock_config(vec![by_download_dir("/downloads", None, "/library")]);
    let lib = find_library(&cfg, &qbit_torrent("/downloads/some/path", ""));
    assert!(lib.is_some());
    match lib.unwrap() {
        Library::ByDownloadDir(_) => {}
        _ => panic!("Expected ByDownloadDir"),
    }
}

#[test]
fn test_find_library_by_category() {
    let cfg = mock_config(vec![by_category("audiobooks", None, "/lib2")]);
    let lib = find_library(&cfg, &qbit_torrent("/other", "audiobooks"));
    assert!(lib.is_some());
    match lib.unwrap() {
        Library::ByCategory(l) => assert_eq!(l.category, "audiobooks"),
        _ => panic!("Expected ByCategory"),
    }
}

#[test]
fn test_find_library_skips_rip_dir() {
    let cfg = mock_config(vec![Library::ByRipDir(LibraryByRipDir {
        rip_dir: PathBuf::new("/rip"),
        options: options(None, "/lib"),
    })]);
    let lib = find_library(&cfg, &qbit_torrent("/rip/some", ""));
    assert!(lib.is_none());
}

fn tagged(allow: &[&str], deny: &[&str], name: &str) -> Library {
    Library::ByDownloadDir(LibraryByDownloadDir {
        download_dir: PathBuf::new("/downloads"),
        options: options(Some(name), "/library"),
        tag_filters: LibraryTagFilters {
            allow_tags: allow.iter().map(|t| t.to_string()).collect(),
            deny_tags: deny.iter().map(|t| t.to_string()).collect(),
        },
    })
}

#[test]
fn tags_decide_between_libraries() {
    let cfg = mock_config(vec![
        tagged(&["kids"], &[], "kids"),
        tagged(&[], &["skip"], "rest"),
    ]);
    let mut torrent = qbit_torrent("/downloads/x", "");
    let found = |t: &QbitTorrent| find_library(&cfg, t).and_then(|l| l.options().name.clone());
    assert_eq!(found(&torrent), Some("rest".to_string()));
    torrent.tags = "new,  kids ,old".to_string();
    assert_eq!(found(&torrent), Some("kids".to_string()));
    torrent.tags = "skip".to_string();
    assert_eq!(found(&torrent), None);
    torrent.tags = "kids, skip".to_string();
    assert_eq!(found(&torrent), Some("kids".to_string()));
}

#[test]
fn test_calculate_library_file_path() {
    assert_eq!(
        calculate_library_file_path("Book Title/audio.m4b"),
        PathBuf::new("audio.m4b")
    );
    assert_eq!(
        calculate_library_file_path("Book Title/CD 1/01.mp3"),
        PathBuf::new("Disc 1/01.mp3")
    );
    assert_eq!(
        calculate_library_file_path("Book Title/Disc 2/05.mp3"),
        PathBuf::new("Disc 2/05.mp3")
    );
    assert_eq!(
        calculate_library_file_path("Book Title/Disk 10/05.mp3"),
        PathBuf::new("Disc 10/05.mp3")
    );
    assert_eq!(
        calculate_library_file_path("Book Title/CD1/01.mp3"),
        PathBuf::new("Disc 1/01.mp3")
    );
    assert_eq!(
        calculate_library_file_path("audio.m4b"),
        PathBuf::new("audio.m4b")
    );
    assert_eq!(
        calculate_library_file_path("Book Title/Some Other Folder/audio.m4b"),
        PathBuf::new("audio.m4b")
    );
    assert_eq!(
        calculate_library_file_path("Book Title/Disc 1/Subfolder/01.mp3"),
        PathBuf::new("Disc 1/01.mp3")
    );
}

#[test]
fn test_calculate_library_file_path_filename_contains_disc() {
    assert_eq!(
        calculate_library_file_path("Book Title/Some Folder/Disc 1 - track.mp3"),
        PathBuf::new("Disc 1 - track.mp3")
    );
}

#[test]
fn the_nearest_disc_counts() {
    assert_eq!(
        calculate_library_file_path("CD 1/Disc 2/x.mp3").as_str(),
        "Disc 2/x.mp3"
    );
}

#[test]
fn test_calculate_link_plans() {
    let mut config = qbit_config();
    config.path_mapping = vec![(
        PathBuf::new("/downloads"),
        PathBuf::new("/data/downloads"),
    )];
    let torrent = qbit_torrent("/downloads", "");
    let files = vec![content("Audiobook/audio.m4b"), content("Audiobook/cover.jpg")];
    let library_dir = PathBuf::new("/library");

    let plans = calculate_link_plans(&config, &torrent, &files, Some(".m4b"), None, &library_dir);

    assert_eq!(plans.len(), 1);
    assert_eq!(
        plans[0].download_path,
        PathBuf::new("/data/downloads/Audiobook/audio.m4b")
    );
    assert_eq!(plans[0].library_path, PathBuf::new("/library/audio.m4b"));
    assert_eq!(plans[0].relative_library_path, PathBuf::new("audio.m4b"));
}

#[test]
fn files_of_both_formats_are_planned() {
    let files = vec![content("B/a.m4b"), content("B/b.epub"), content("B/c.jpg")];
    let plans = calculate_link_plans(
        &qbit_config(),
        &qbit_torrent("/d", ""),
        &files,
        Some(".m4b"),
        Some(".epub"),
        &PathBuf::new("/l"),
    );
    let names: Vec<&str> = plans
        .iter()
        .map(|p| p.relative_library_path.as_str())
        .collect();
    assert_eq!(names, vec!["a.m4b", "b.epub"]);
}

#[test]
fn test_check_torrent_updates_category_change() {
    let mut torrent = mock_torrent();
    torrent.category = Some("old".to_string());
    let cfg = mock_config(vec![]);

    let update =
        check_torrent_updates(&mut torrent, &qbit_torrent("", "new"), None, &cfg, &vec![]);
    assert!(update.changed);
    assert_eq!(torrent.category, Some("new".to_string()));
}

#[test]
fn test_check_torrent_updates_linker_change() {
    let mut torrent = Torrent {
        linker: Some("old_linker".to_string()),
        ..mock_torrent()
    };
    let library = by_category("audiobooks", Some("new_linker"), "/lib");
    let cfg = mock_config(vec![by_category("audiobooks", Some("new_linker"), "/lib")]);

    let update = check_torrent_updates(
        &mut torrent,
        &qbit_torrent("", ""),
        Some(&library),
        &cfg,
        &vec![],
    );
    assert!(update.changed);
    assert_eq!(torrent.linker, Some("new_linker".to_string()));
}

#[test]
fn test_check_torrent_updates_removed_from_tracker() {
    let mut torrent = mock_torrent();
    let cfg = mock_config(vec![]);

    let update = check_torrent_updates(
        &mut torrent,
        &qbit_torrent("", ""),
        None,
        &cfg,
        &unregistered(),
    );
    assert!(update.changed);
    assert_eq!(
        torrent.client_status,
        Some(ClientStatus::RemovedFromTracker)
    );
    assert_eq!(update.events.len(), 1);
    assert_eq!(update.events[0].event, EventType::RemovedFromTracker);
    assert_eq!(update.events[0].hash, Some("hash".to_string()));
    assert_eq!(update.events[0].mam_id, None);
}

#[test]
fn test_check_torrent_updates_library_mismatch() {
    let mut torrent = mock_torrent();
    torrent.library_path = Some(PathBuf::new("/old_library/Author/Title"));
    torrent.meta.authors = vec!["Author".to_string()];
    torrent.meta.title = "Title".to_string();

    let library = by_download_dir("/downloads", None, "/new_library");
    let cfg = mock_config(vec![by_download_dir("/downloads", None, "/new_library")]);
    let qbit_torrent = qbit_torrent("", "");

    let update =
        check_torrent_updates(&mut torrent, &qbit_torrent, Some(&library), &cfg, &vec![]);
    assert!(update.changed);
    assert_eq!(
        torrent.library_mismatch,
        Some(LibraryMismatch::NewLibraryDir(PathBuf::new("/new_library")))
    );

    torrent.library_mismatch = None;
    torrent.library_path = Some(PathBuf::new("/new_library/OldAuthor/Title"));
    let update =
        check_torrent_updates(&mut torrent, &qbit_torrent, Some(&library), &cfg, &vec![]);
    assert!(update.changed);
    if let Some(LibraryMismatch::NewPath(p)) = &torrent.library_mismatch {
        let components = p.components();
        assert_eq!(components[components.len() - 2..], ["Author", "Title"]);
    } else {
        panic!(
            "Expected NewPath mismatch, got {:?}",
            torrent.library_mismatch
        );
    }
}

#[test]
fn test_check_torrent_updates_exclude_narrator() {
    let mut torrent = mock_torrent();
    torrent.meta.authors = vec!["Author".to_string()];
    torrent.meta.narrators = vec!["Narrator".to_string()];
    torrent.meta.title = "Title".to_string();

    let path_with_narrator = PathBuf::new("/library/Author/Title {Narrator}");
    let path_without_narrator = PathBuf::new("/library/Author/Title");

    let library = by_download_dir("/downloads", None, "/library");
    let mut cfg = mock_config(vec![by_download_dir("/downloads", None, "/library")]);
    cfg.exclude_narrator_in_library_dir = true;
    let qbit_torrent = qbit_torrent("", "");

    torrent.library_path = Some(path_with_narrator.clone());
    let update =
        check_torrent_updates(&mut torrent, &qbit_torrent, Some(&library), &cfg, &vec![]);
    assert!(
        !update.changed,
        "Should accept existing path with narrator even if config says exclude"
    );

    torrent.library_path = Some(path_without_narrator.clone());
    let update =
        check_torrent_updates(&mut torrent, &qbit_torrent, Some(&library), &cfg, &vec![]);
    assert!(
        !update.changed,
        "Should accept existing path without narrator"
    );

    torrent.library_path = Some(PathBuf::new("/library/Wrong/Path"));
    let update =
        check_torrent_updates(&mut torrent, &qbit_torrent, Some(&library), &cfg, &vec![]);
    assert!(update.changed);
    assert!(matches!(
        torrent.library_mismatch,
        Some(LibraryMismatch::NewPath(_))
    ));
}

#[test]
fn a_second_update_changes_nothing() {
    let mut torrent = mock_torrent();
    torrent.library_path = Some(PathBuf::new("/gone/Author/Title"));
    let cfg = mock_config(vec![]);
    let client = qbit_torrent("/d", "books");
    assert!(check_torrent_updates(&mut torrent, &client, None, &cfg, &unregistered()).changed);
    assert_eq!(torrent.library_mismatch, Some(LibraryMismatch::NoLibrary));
    let again = check_torrent_updates(&mut torrent, &client, None, &cfg, &unregistered());
    assert!(!again.changed);
    assert!(again.events.is_empty());
}

#[test]
fn a_finding_is_withdrawn_once_the_book_is_in_place() {
    let mut torrent = mock_torrent();
    torrent.meta.authors = vec!["Author".to_string()];
    torrent.meta.title = "Title".to_string();
    torrent.library_path = Some(PathBuf::new("/library/Author/Title"));
    torrent.library_mismatch = Some(LibraryMismatch::NoLibrary);
    let library = by_download_dir("/downloads", None, "/library");
    let cfg = mock_config(vec![]);
    let update = check_torrent_updates(
        &mut torrent,
        &qbit_torrent("", ""),
        Some(&library),
        &cfg,
        &vec![],
    );
    assert!(update.changed);
    assert_eq!(torrent.library_mismatch, None);
}

#[test]
fn an_invalid_torrent_gets_its_category_and_tags() {
    let update = QbitUpdate {
        category: Some("invalid".to_string()),
        tags: vec!["tag1".to_string(), "tag2".to_string()],
    };
    assert_eq!(
        handle_invalid_torrent(&Some(update)),
        vec![
            ClientStep::EnsureCategory("invalid".to_string()),
            ClientStep::SetCategory("invalid".to_string()),
            ClientStep::AddTags(vec!["tag1".to_string(), "tag2".to_string()]),
        ]
    );
    assert_eq!(handle_invalid_torrent(&None), vec![]);
}

#[test]
fn an_unfinished_torrent_is_skipped() {
    let cfg = mock_config(vec![]);
    let step = link_step(
        &cfg,
        &qbit_torrent("", ""),
        LinkState::Listed,
        LinkEvent::Found { finished: false },
    );
    assert!(matches!(step.state, LinkState::Finished));
    assert!(matches!(step.action, LinkAction::Skip));
}

#[test]
fn a_finished_torrent_is_no_longer_selected() {
    let cfg = mock_config(vec![by_download_dir("/downloads", None, "/library")]);
    let client = qbit_torrent("/downloads", "");
    let step = link_step(
        &cfg,
        &client,
        LinkState::Listed,
        LinkEvent::Found { finished: true },
    );
    assert!(matches!(step.action, LinkAction::Load));
    let step = link_step(
        &cfg,
        &client,
        step.state,
        LinkEvent::Loaded {
            existing: None,
            selected: true,
        },
    );
    assert!(step.remove_selected);
    assert!(matches!(
        step.action,
        LinkAction::Match {
            library: 0,
            existing: None
        }
    ));
}

#[test]
fn a_known_torrent_is_brought_up_to_date_and_left_when_linked() {
    let cfg = mock_config(vec![by_download_dir("/downloads", Some("books"), "/library")]);
    let client = qbit_torrent("/downloads", "audio");
    let mut known = mock_torrent();
    known.library_path = Some(PathBuf::new("/elsewhere"));
    let step = link_step(
        &cfg,
        &client,
        LinkState::Loading,
        LinkEvent::Loaded {
            existing: Some(known),
            selected: false,
        },
    );
    assert!(matches!(step.action, LinkAction::FetchTrackers));
    let step = link_step(
        &cfg,
        &client,
        step.state,
        LinkEvent::Trackers(Some(unregistered())),
    );
    match step.action {
        LinkAction::Save {
            torrent: Some(t),
            events,
        } => {
            assert_eq!(t.linker, Some("books".to_string()));
            assert_eq!(t.category, Some("audio".to_string()));
            assert_eq!(t.client_status, Some(ClientStatus::RemovedFromTracker));
            assert_eq!(
                t.library_mismatch,
                Some(LibraryMismatch::NewLibraryDir(PathBuf::new("/library")))
            );
            assert_eq!(events.len(), 1);
        }
        _ => panic!("Expected a record to save"),
    }
    let step = link_step(&cfg, &client, step.state, LinkEvent::Saved);
    assert!(matches!(step.action, LinkAction::Skip));
}

#[test]
fn trackers_that_are_not_told_leave_the_torrent() {
    let cfg = mock_config(vec![]);
    let step = link_step(
        &cfg,
        &qbit_torrent("", ""),
        LinkState::Tracking(mock_torrent()),
        LinkEvent::Trackers(None),
    );
    assert!(matches!(step.action, LinkAction::Skip));
}

#[test]
fn a_known_torrent_is_not_linked_into_a_library_that_only_keeps_records() {
    let mut library_options = options(None, "/library");
    library_options.method = LibraryLinkMethod::NoLink;
    let cfg = mock_config(vec![Library::ByCategory(LibraryByCategory {
        category: "audio".to_string(),
        options: library_options,
        tag_filters: LibraryTagFilters::default(),
    })]);
    let client = qbit_torrent("/downloads", "audio");
    let step = link_step(
        &cfg,
        &client,
        LinkState::Saving(mock_torrent()),
        LinkEvent::Saved,
    );
    assert!(matches!(step.action, LinkAction::Skip));
    let step = link_step(
        &cfg,
        &client,
        LinkState::Loading,
        LinkEvent::Loaded {
            existing: None,
            selected: false,
        },
    );
    assert!(matches!(step.action, LinkAction::Match { library: 0, .. }));
}

fn run_match(state: MatchState, event: MatchEvent) -> mlm::linker::progress::MatchStep {
    let cfg = mock_config(vec![]);
    let mut client = qbit_config();
    client.on_invalid_torrent = Some(QbitUpdate {
        category: None,
        tags: vec!["invalid".to_string()],
    });
    match_step(
        &cfg,
        &client,
        "hash",
        &by_download_dir("/downloads", None, "/library"),
        state,
        event,
    )
}

#[test]
fn a_torrent_without_wanted_files_is_not_matched() {
    let step = run_match(
        MatchState::Files { existing: None },
        MatchEvent::Files(vec![content("cover.jpg")]),
    );
    match step.action {
        MatchAction::Fail { client, error } => {
            assert!(client.is_empty());
            assert_eq!(error, LinkError::NoWantedFormat);
        }
        _ => panic!("Expected a failure"),
    }
}

#[test]
fn a_torrent_that_the_tracker_does_not_know_is_marked() {
    let step = run_match(
        MatchState::Files { existing: None },
        MatchEvent::Files(vec![content("a.M4B")]),
    );
    assert!(matches!(step.action, MatchAction::AskMam));
    let step = run_match(step.state, MatchEvent::Mam(None));
    match step.action {
        MatchAction::Fail { client, error } => {
            assert_eq!(client, vec![ClientStep::AddTags(vec!["invalid".to_string()])]);
            assert_eq!(error, LinkError::NotOnMam);
        }
        _ => panic!("Expected a failure"),
    }
}

#[test]
fn a_record_under_another_hash_is_replaced() {
    let step = run_match(
        MatchState::Mam {
            audio: Some(".m4b".to_string()),
            ebook: None,
            existing: None,
        },
        MatchEvent::Mam(Some(7)),
    );
    assert!(matches!(step.action, MatchAction::LookUpMamId(7)));
    let mut old = mock_torrent();
    old.meta.ids.insert("abs".to_string(), "known".to_string());
    let step = run_match(step.state, MatchEvent::Old(Some(old)));
    assert_eq!(step.remove.map(|t| t.id), Some("1".to_string()));
    assert!(matches!(step.action, MatchAction::ReadMeta));
    let mut fetched = mock_meta();
    fetched.ids.insert("mam".to_string(), "7".to_string());
    let step = run_match(step.state, MatchEvent::Meta(Ok(fetched)));
    match step.action {
        MatchAction::Link { audio, meta, .. } => {
            assert_eq!(audio, Some(".m4b".to_string()));
            assert_eq!(meta.ids.get("abs"), Some(&"known".to_string()));
            assert_eq!(meta.ids.get("mam"), Some(&"7".to_string()));
        }
        _ => panic!("Expected a link"),
    }
}

#[test]
fn an_unknown_media_type_marks_the_torrent() {
    let state = || MatchState::Meta {
        audio: None,
        ebook: None,
        existing: None,
    };
    let step = run_match(
        state(),
        MatchEvent::Meta(Err(MetaProblem::UnknownMediaType("x".to_string()))),
    );
    match step.action {
        MatchAction::Fail { client, error } => {
            assert_eq!(client.len(), 1);
            assert_eq!(error, LinkError::UnknownMediaType("x".to_string()));
        }
        _ => panic!("Expected a failure"),
    }
    let step = run_match(
        state(),
        MatchEvent::Meta(Err(MetaProblem::Other("y".to_string()))),
    );
    match step.action {
        MatchAction::Fail { client, error } => {
            assert!(client.is_empty());
            assert_eq!(error, LinkError::BadMeta("y".to_string()));
        }
        _ => panic!("Expected a failure"),
    }
    let step = run_match(MatchState::Finished, MatchEvent::Mam(None));
    assert!(matches!(step.action, MatchAction::Ignore));
}

#[test]
fn errors_have_messages() {
    let texts: Vec<String> = vec![
        LinkError::NoAuthor,
        LinkError::NoWantedFormat,
        LinkError::NotOnMam,
        LinkError::TitleNotOnMam("T".to_string()),
        LinkError::NoLibrary,
        LinkError::NoTorrent,
        LinkError::NoTorrentId,
        LinkError::NoMamId,
        LinkError::NotInClient,
        LinkError::UnknownMediaType("x".to_string()),
        LinkError::BadMeta("y".to_string()),
    ]
    .iter()
    .map(|e| e.message())
    .collect();
    assert_eq!(
        texts,
        vec![
            "Torrent has no author",
            "Could not find any wanted formats in torrent",
            "Could not find torrent on mam",
            "Could not find torrent \"T\" on mam",
            "Could not find matching library for torrent",
            "Could not find torrent",
            "Could not find torrent id",
            "Could not find mam id",
            "Could not find torrent in qbit",
            "as_meta: x",
            "as_meta: y",
        ]
    );
}

#[test]
fn the_record_knows_the_trackers_id_where_the_metadata_does_not() {
    let mut torrent = mock_torrent();
    assert_eq!(resolved_mam_id(&torrent, None), None);
    assert_eq!(
        mam_id_to_fetch(Some(&torrent), None),
        Err(LinkError::NoMamId)
    );
    assert_eq!(mam_id_to_fetch(None, None), Err(LinkError::NoTorrentId));
    torrent.mam_id = Some(42);
    assert_eq!(mam_id_to_fetch(Some(&torrent), None), Ok(42));
}

#[test]
fn merging_keeps_identifiers() {
    let mut known = mock_meta();
    known.ids.insert("abs".to_string(), "a".to_string());
    known.ids.insert("mam".to_string(), "1".to_string());
    let mut fetched = mock_meta();
    fetched.title = "New".to_string();
    fetched.ids.insert("mam".to_string(), "2".to_string());
    let merged = merge_meta(&known, fetched);
    assert_eq!(merged.title, "New");
    assert_eq!(merged.ids.get("abs"), Some(&"a".to_string()));
    assert_eq!(merged.ids.get("mam"), Some(&"2".to_string()));
}

#[test]
fn refreshing_tells_whether_something_changed() {
    let mut torrent = mock_torrent();
    let mut fetched = mock_meta();
    fetched.authors = vec!["Refreshed Author".to_string()];
    assert!(refresh_mam_metadata(&mut torrent, fetched));
    assert_eq!(torrent.meta.authors, vec!["Refreshed Author".to_string()]);
    let same = torrent.meta.clone();
    assert!(!refresh_mam_metadata(&mut torrent, same));
}

#[test]
fn a_library_may_want_other_formats() {
    let cfg = mock_config(vec![]);
    let mut library_options = options(None, "/l");
    library_options.audio_types = Some(vec!["flac".to_string()]);
    let library = Library::ByRipDir(LibraryByRipDir {
        rip_dir: PathBuf::new("/rip"),
        options: library_options,
    });
    let files = vec![content("a.flac"), content("b.m4b"), content("c.epub")];
    assert_eq!(
        wanted_formats(&cfg, &library, &files),
        Ok((Some(".flac".to_string()), Some(".epub".to_string())))
    );
    assert_eq!(
        wanted_formats(&cfg, &library, &vec![content("b.m4b")]),
        Err(LinkError::NoWantedFormat)
    );
}

#[test]
fn a_taken_directory_gets_the_narrator_after_all() {
    let mut cfg = mock_config(vec![]);
    cfg.exclude_narrator_in_library_dir = true;
    let library = by_download_dir("/downloads", None, "/library");
    let mut meta = mock_meta();
    meta.title = "Title".to_string();
    assert_eq!(
        resolve_link_library_dir(&cfg, &library, &meta, false),
        Err(LinkError::NoAuthor)
    );
    meta.authors = vec!["Author".to_string()];
    meta.narrators = vec!["Narrator".to_string()];
    let dir = |exists: bool| {
        resolve_link_library_dir(&cfg, &library, &meta, exists)
            .unwrap()
            .unwrap()
            .as_str()
            .to_string()
    };
    assert_eq!(dir(false), "/library/Author/Title");
    assert_eq!(dir(true), "/library/Author/Title {Narrator}");
}

#[test]
fn a_library_that_only_keeps_records_has_no_directory() {
    let cfg = mock_config(vec![]);
    let mut library_options = options(None, "/library");
    library_options.method = LibraryLinkMethod::NoLink;
    let library = Library::ByRipDir(LibraryByRipDir {
        rip_dir: PathBuf::new("/rip"),
        options: library_options,
    });
    assert_eq!(
        resolve_link_library_dir(&cfg, &library, &mock_meta(), false),
        Ok(None)
    );
}

#[test]
fn link_methods_try_in_turn() {
    assert_eq!(
        link_operations(LibraryLinkMethod::Hardlink),
        vec![LinkOperation::Hardlink]
    );
    assert_eq!(
        link_operations(LibraryLinkMethod::HardlinkOrCopy),
        vec![LinkOperation::Hardlink, LinkOperation::Copy]
    );
    assert_eq!(
        link_operations(LibraryLinkMethod::Copy),
        vec![LinkOperation::Copy]
    );
    assert_eq!(
        link_operations(LibraryLinkMethod::HardlinkOrSymlink),
        vec![LinkOperation::Hardlink, LinkOperation::Symlink]
    );
    assert_eq!(
        link_operations(LibraryLinkMethod::Symlink),
        vec![LinkOperation::Symlink]
    );
    assert_eq!(link_operations(LibraryLinkMethod::NoLink), vec![]);
}

#[test]
fn a_file_that_is_there_counts_if_it_is_the_same() {
    assert_eq!(
        hard_link_outcome(true, false, None),
        HardLinkOutcome::Linked
    );
    assert_eq!(
        hard_link_outcome(false, true, Some(true)),
        HardLinkOutcome::Linked
    );
    assert_eq!(
        hard_link_outcome(false, true, Some(false)),
        HardLinkOutcome::Occupied
    );
    assert_eq!(
        hard_link_outcome(false, true, None),
        HardLinkOutcome::Failed
    );
    assert_eq!(
        hard_link_outcome(false, false, Some(true)),
        HardLinkOutcome::Failed
    );
    assert_eq!(
        occupied_message("\"a.m4b\"", &Some("1.00 MiB".to_string()), &None),
        "File \"\"a.m4b\"\" already exists, torrent file size: 1.00 MiB, library file size: ?"
    );
}

#[test]
fn a_linked_torrent_keeps_what_was_known() {
    let library = by_download_dir("/downloads", Some("books"), "/library");
    let mut old = mock_torrent();
    old.created_at = 5;
    old.replaced_with = Some(("other".to_string(), 6));
    old.client_status = Some(ClientStatus::NotInClient);
    old.library_mismatch = Some(LibraryMismatch::NoLibrary);
    let plan = |name: &str| FileLinkPlan {
        download_path: PathBuf::new("/downloads").join(name),
        library_path: PathBuf::new("/library/A/T").join(name),
        relative_library_path: PathBuf::new(name),
    };
    let place = BookPlace {
        dir: Some(PathBuf::new("/library/A/T")),
        plans: vec![plan("b.m4b"), plan("a.m4b")],
    };
    let record = linked_torrent(
        "hash",
        "",
        &library,
        &place,
        Some(".m4b".to_string()),
        None,
        Some(&old),
        &mock_meta(),
        Some(9),
        "t".to_string(),
        77,
    );
    assert_eq!(record.id, "hash");
    assert!(record.id_is_hash);
    assert_eq!(record.mam_id, Some(9));
    assert_eq!(record.created_at, 5);
    assert_eq!(record.replaced_with, Some(("other".to_string(), 6)));
    assert_eq!(record.client_status, Some(ClientStatus::NotInClient));
    assert_eq!(record.library_mismatch, None);
    assert_eq!(record.category, None);
    assert_eq!(record.linker, Some("books".to_string()));
    assert_eq!(
        record.library_files,
        vec![PathBuf::new("a.m4b"), PathBuf::new("b.m4b")]
    );
    let records_only = Library::ByDownloadDir(LibraryByDownloadDir {
        download_dir: PathBuf::new("/downloads"),
        options: LibraryOptions {
            method: LibraryLinkMethod::NoLink,
            ..options(Some("books"), "/library")
        },
        tag_filters: LibraryTagFilters::default(),
    });
    let fresh = linked_torrent(
        "hash",
        "cat",
        &records_only,
        &BookPlace {
            dir: None,
            plans: vec![],
        },
        None,
        None,
        None,
        &mock_meta(),
        None,
        "".to_string(),
        77,
    );
    assert_eq!(fresh.created_at, 77);
    assert_eq!(fresh.library_path, None);
    assert!(fresh.library_files.is_empty());
    assert_eq!(fresh.category, Some("cat".to_string()));
    assert_eq!(
        linked_event("hash", Some(9), &library, &record.library_path),
        Some(Event {
            hash: Some("hash".to_string()),
            mam_id: Some(9),
            event: EventType::Linked {
                linker: Some("books".to_string()),
                library_path: PathBuf::new("/library/A/T"),
            },
        })
    );
    assert_eq!(linked_event("hash", None, &library, &None), None);
}

#[test]
fn a_book_moves_when_its_directory_changes() {
    let cfg = mock_config(vec![]);
    let library = by_download_dir("/downloads", None, "/library");
    let mut torrent = mock_torrent();
    torrent.meta.title = "Title".to_string();
    assert!(!library_path_changed(&torrent, &library, &cfg));
    torrent.meta.authors = vec!["New Author".to_string()];
    assert!(library_path_changed(&torrent, &library, &cfg));
    torrent.library_path = Some(PathBuf::new("/library/New Author/Title"));
    assert!(!library_path_changed(&torrent, &library, &cfg));
    torrent.library_path = Some(PathBuf::new("/library/Old Author/Title"));
    assert!(library_path_changed(&torrent, &library, &cfg));
}

#[test]
fn every_relink_is_counted_once() {
    let result = relink_many(vec![
        RelinkOutcome {
            id: "a".to_string(),
            title: "A".to_string(),
            outcome: Ok(()),
        },
        RelinkOutcome {
            id: "b".to_string(),
            title: "B".to_string(),
            outcome: Err("no".to_string()),
        },
        RelinkOutcome {
            id: "c".to_string(),
            title: "C".to_string(),
            outcome: Ok(()),
        },
    ]);
    assert_eq!(
        result.succeeded,
        vec![
            InteractiveRelinkSuccess {
                id: "a".to_string(),
                title: "A".to_string(),
            },
            InteractiveRelinkSuccess {
                id: "c".to_string(),
                title: "C".to_string(),
            },
        ]
    );
    assert_eq!(
        result.failed,
        vec![InteractiveRelinkFailure {
            id: "b".to_string(),
            title: "B".to_string(),
            error: "no".to_string(),
        }]
    );
}

#[test]
fn a_summary_falls_back_to_the_hash() {
    let mut torrent = mock_torrent();
    torrent.meta.title = "Title".to_string();
    assert_eq!(torrent_title_for_summary(Some(&torrent), "h"), "Title");
    assert_eq!(torrent_title_for_summary(None, "h"), "h");
}

#[test]
fn the_last_listed_torrent_is_relinked() {
    let mut last = qbit_torrent("/d", "");
    last.hash = "last".to_string();
    let found = take_torrent(ClientReply::Torrents(vec![qbit_torrent("/d", ""), last]));
    assert_eq!(found.map(|t| t.hash), Some("last".to_string()));
    assert_eq!(take_torrent(ClientReply::Torrents(vec![])), None);
    assert_eq!(take_torrent(ClientReply::LoginFailed), None);
    assert_eq!(take_torrent(ClientReply::ListFailed), None);
}

#[test]
fn a_failed_link_is_cleaned_up() {
    let files = vec![content("B/CD 1/a.m4b")];
    let dir = PathBuf::new("/library/A/T");
    let plans = calculate_link_plans(
        &qbit_config(),
        &qbit_torrent("/d", ""),
        &files,
        Some(".m4b"),
        None,
        &dir,
    );
    let steps = cleanup_partial_link_outputs(&dir, &plans);
    assert_eq!(
        steps[0],
        CleanupStep::RemoveFile(PathBuf::new("/library/A/T/Disc 1/a.m4b"))
    );
    assert_eq!(
        steps[1],
        CleanupStep::RemoveEmptyParents {
            path: PathBuf::new("/library/A/T/Disc 1/a.m4b"),
            stop_at: PathBuf::new("/library/A/T"),
        }
    );
    assert!(steps.contains(&CleanupStep::RemoveFile(PathBuf::new(
        "/library/A/T/metadata.json"
    ))));
    assert_eq!(
        steps[steps.len() - 1],
        CleanupStep::RemoveDir(PathBuf::new("/library/A/T"))
    );
}

#[test]
fn empty_directories_are_removed_up_to_the_books() {
    let stop = PathBuf::new("/library/A/T");
    let first = next_dir_above(&PathBuf::new("/library/A/T/x/y/z.m4b"), &stop);
    assert_eq!(first, Some(PathBuf::new("/library/A/T/x/y")));
    let dir = first.unwrap();
    assert_eq!(
        after_dir_removal(RemovalOutcome::Removed, &dir, &stop),
        RemovalStep::Remove(PathBuf::new("/library/A/T/x"))
    );
    assert_eq!(
        after_dir_removal(RemovalOutcome::NotFound, &dir, &stop),
        RemovalStep::Remove(PathBuf::new("/library/A/T/x"))
    );
    assert_eq!(
        after_dir_removal(RemovalOutcome::NotEmpty, &dir, &stop),
        RemovalStep::Done
    );
    assert_eq!(
        after_dir_removal(RemovalOutcome::Failed, &dir, &stop),
        RemovalStep::Fail
    );
    assert_eq!(
        after_dir_removal(
            RemovalOutcome::Removed,
            &PathBuf::new("/library/A/T/x"),
            &stop
        ),
        RemovalStep::Done
    );
    assert!(ignore_not_found(RemovalOutcome::NotFound));
    assert!(ignore_not_found(RemovalOutcome::Removed));
    assert!(!ignore_not_found(RemovalOutcome::Failed));
}

#[test]
fn a_failed_relink_clears_the_record() {
    let mut torrent = mock_torrent();
    torrent.library_path = Some(PathBuf::new("/library/A/T"));
    torrent.library_files = vec![PathBuf::new("a.m4b")];
    torrent.linker = Some("books".to_string());
    torrent.selected_audio_format = Some(".m4b".to_string());
    torrent.library_mismatch = Some(LibraryMismatch::NoLibrary);
    clear_torrent_link_state(&mut torrent);
    assert_eq!(torrent.library_path, None);
    assert!(torrent.library_files.is_empty());
    assert_eq!(torrent.linker, None);
    assert_eq!(torrent.selected_audio_format, Some(".m4b".to_string()));
    assert_eq!(torrent.library_mismatch, None);
}

#[test]
fn mapped_paths_can_be_joined() {
    let mapping = vec![(PathBuf::new("/d"), PathBuf::new("/m"))];
    assert_eq!(
        map_path(&mapping, "/d/x").join("y/z.mp3").as_str(),
        "/m/x/y/z.mp3"
    );
}

#[test]
fn directories_named_after_a_disc_have_its_number() {
    assert_eq!(disc_number("CD 1"), Some("1".to_string()));
    assert_eq!(disc_number("Book - Disc12"), Some("12".to_string()));
    assert_eq!(disc_number("Disk  07 of 9"), Some("07".to_string()));
    assert_eq!(disc_number("disc 1"), None);
    assert_eq!(disc_number("Disc One"), None);
    assert_eq!(disc_number(""), None);
}

#[test]
fn nearest_disc_number_counts() {
    let some = |n: &str| Some(n.to_string());
    assert_eq!(
        disc_file_path("a.mp3", &vec![some("1"), some("2")]).as_str(),
        "Disc 2/a.mp3"
    );
    assert_eq!(
        disc_file_path("a.mp3", &vec![some("1"), None]).as_str(),
        "Disc 1/a.mp3"
    );
    assert_eq!(disc_file_path("a.mp3", &vec![None]).as_str(), "a.mp3");
    assert_eq!(disc_file_path("a.mp3", &vec![]).as_str(), "a.mp3");
}

#[test]
fn book_without_a_name_has_no_directories_to_compare() {
    let library = by_download_dir("/downloads", None, "/library");
    let config = mock_config(vec![]);
    let mut torrent = mock_torrent();
    torrent.library_path = Some(PathBuf::new("/library/x"));
    torrent.meta.authors = vec!["..".to_string()];
    torrent.meta.title = "..".to_string();
    torrent.meta.edition = Some(("2nd".to_string(), 2));
    assert!(!has_dirs_to_update(&torrent, Some(&library), &config));
    assert!(has_dirs_to_update(&torrent, None, &config));
    torrent.meta.title = "Title".to_string();
    assert!(has_dirs_to_update(&torrent, Some(&library), &config));
}
