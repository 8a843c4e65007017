//! Whole courses, with the disk, the client, the tracker and the database made
//! up.
use mlm::ids::Ids;
use mlm::linker::common::select_format;
use mlm::linker::course::{
    place_step, relink_step, replace_step, PlaceAction, PlaceEvent, PlaceState, RelinkAction,
    RelinkEvent, RelinkState, ReplaceAction, ReplaceEvent, ReplaceState, Replacement,
};
use mlm::linker::folder::{
    book_series, build_torrent, folder_file_stats, folder_files, folder_place, folder_step,
    folder_verdict, libation_torrent_meta, linked_folder_torrent, nextory_torrent_meta,
    storytel_torrent_meta, FolderAction, FolderEvent, FolderFile, FolderMeta, FolderState,
    FolderVerdict, Libation, Name, NextoryFormat, NextoryName, NextoryRaw, NextorySeries,
    StorytelFormat, StorytelName, StorytelRaw, StorytelSeriesInfo,
};
use mlm::linker::libation::{answer_title, ask_title, TitleQuestion};
use mlm::linker::progress::{
    handle_invalid_torrent, link_step, match_step, ClientStep, LinkAction, LinkEvent, LinkState,
    MatchAction, MatchEvent, MatchState,
};
use mlm::linker::relink::{
    after_dir_removal, book_place, linked_torrent, mam_id_to_fetch, next_dir_above,
    refresh_mam_metadata, BookPlace, CleanupStep, RemovalOutcome, RemovalStep,
};
use mlm::model::{
    Config, Flags, IdKeys, Library, LibraryByDownloadDir, LibraryByRipDir, LibraryLinkMethod,
    LibraryMismatch, LibraryOptions, LibraryTagFilters, MetadataSource, QbitConfig, QbitTorrent,
    QbitUpdate, Series, Term, Torrent, TorrentContent, TorrentMeta, Vocabulary,
};
use mlm::path::PathBuf;

/// The files and directories that there are.
struct Disk {
    entries: Vec<String>,
}

impl Disk {
    fn with(paths: &[&str]) -> Disk {
        let mut disk = Disk { entries: vec![] };
        for path in paths {
            disk.write(&PathBuf::new(path));
        }
        disk
    }

    fn has(&self, path: &str) -> bool {
        self.entries.iter().any(|e| e == path)
    }

    fn write(&mut self, path: &PathBuf) {
        if let Some(above) = path.parent() {
            self.make_dir(&above);
        }
        self.entries.push(path.as_str().to_string());
    }

    fn make_dir(&mut self, path: &PathBuf) {
        if !self.has(path.as_str()) {
            if let Some(above) = path.parent() {
                self.make_dir(&above);
            }
            self.entries.push(path.as_str().to_string());
        }
    }

    fn remove_below(&mut self, path: &str) {
        let below = format!("{path}/");
        self.entries
            .retain(|e| e != path && !e.starts_with(&below));
    }

    fn remove_dir(&mut self, path: &PathBuf) -> RemovalOutcome {
        let below = format!("{}/", path.as_str());
        if !self.has(path.as_str()) {
            RemovalOutcome::NotFound
        } else if self.entries.iter().any(|e| e.starts_with(&below)) {
            RemovalOutcome::NotEmpty
        } else {
            self.entries.retain(|e| e != path.as_str());
            RemovalOutcome::Removed
        }
    }

    fn clean_up(&mut self, steps: Vec<CleanupStep>) {
        for step in steps {
            match step {
                CleanupStep::RemoveFile(path) => self.entries.retain(|e| e != path.as_str()),
                CleanupStep::RemoveEmptyParents { path, stop_at } => {
                    let mut next = next_dir_above(&path, &stop_at);
                    while let Some(dir) = next {
                        let outcome = self.remove_dir(&dir);
                        next = match after_dir_removal(outcome, &dir, &stop_at) {
                            RemovalStep::Remove(dir) => Some(dir),
                            _ => None,
                        };
                    }
                }
                CleanupStep::RemoveDir(path) => {
                    self.remove_dir(&path);
                }
            }
        }
    }

    /// Places a book; a file can be linked where its source is there.
    fn place(&mut self, book: &BookPlace, method: LibraryLinkMethod) -> Result<(), String> {
        let mut state = PlaceState::Start;
        let mut event = PlaceEvent::Done;
        let mut error = "".to_string();
        loop {
            let (next, action) = place_step(&book.dir, &book.plans, method, state, event);
            state = next;
            event = PlaceEvent::Done;
            match action {
                PlaceAction::MakeDir(path) => self.make_dir(&path),
                PlaceAction::Link { file, .. } => {
                    let plan = &book.plans[file];
                    if self.has(plan.download_path.as_str()) {
                        self.write(&plan.library_path);
                    } else {
                        error = format!("linking file {}", plan.download_path.as_str());
                        event = PlaceEvent::Failed;
                    }
                }
                PlaceAction::WriteMetadata(path) => self.write(&path),
                PlaceAction::SaveRecord | PlaceAction::WriteEvent => {}
                PlaceAction::Stop => return Ok(()),
                PlaceAction::Fail => return Err(error),
            }
        }
    }
}

fn term(rank: u64, name: &str) -> Term {
    Term {
        rank,
        name: name.to_string(),
    }
}

fn meta(title: &str, author: &str, mam_id: Option<&str>) -> TorrentMeta {
    let mut ids = Ids::new();
    if let Some(id) = mam_id {
        ids.insert("mam".to_string(), id.to_string());
    }
    TorrentMeta {
        ids,
        vip_status: None,
        cat: None,
        media_type: term(0, "Audiobook"),
        main_cat: None,
        categories: vec![],
        tags: vec![],
        language: None,
        flags: None,
        filetypes: vec![],
        num_files: 0,
        size: 0,
        title: title.to_string(),
        edition: None,
        description: "".to_string(),
        authors: vec![author.to_string()],
        narrators: vec![],
        series: vec![],
        source: MetadataSource::Mam,
        uploaded_at: Some(1),
    }
}

fn record(id: &str, mam_id: u64, library_path: Option<&str>, meta: TorrentMeta) -> Torrent {
    let linked = library_path.is_some();
    Torrent {
        id: id.to_string(),
        id_is_hash: true,
        mam_id: Some(mam_id),
        library_path: library_path.map(PathBuf::new),
        library_files: if linked {
            vec![PathBuf::new("audio.m4b")]
        } else {
            vec![]
        },
        linker: if linked { Some("test".to_string()) } else { None },
        category: None,
        selected_audio_format: if linked { Some(".m4b".to_string()) } else { None },
        selected_ebook_format: None,
        title_search: "title".to_string(),
        meta,
        created_at: 1,
        replaced_with: None,
        library_mismatch: None,
        client_status: None,
    }
}

fn options(name: &str, method: LibraryLinkMethod) -> LibraryOptions {
    LibraryOptions {
        name: Some(name.to_string()),
        library_dir: PathBuf::new("/library"),
        method,
        audio_types: None,
        ebook_types: None,
    }
}

fn config(libraries: Vec<Library>) -> Config {
    Config {
        exclude_narrator_in_library_dir: false,
        audio_types: vec!["m4b".to_string(), "m4a".to_string(), "mp3".to_string()],
        ebook_types: vec!["epub".to_string()],
        qbittorrent: vec![],
        libraries,
    }
}

fn torrents_config(name: &str, method: LibraryLinkMethod) -> Config {
    config(vec![Library::ByDownloadDir(LibraryByDownloadDir {
        download_dir: PathBuf::new("/rip"),
        options: options(name, method),
        tag_filters: LibraryTagFilters::default(),
    })])
}

fn client() -> QbitConfig {
    QbitConfig {
        url: "http://localhost:8080".to_string(),
        username: "admin".to_string(),
        password: "adminadmin".to_string(),
        path_mapping: vec![],
        on_invalid_torrent: None,
    }
}

fn client_torrent(hash: &str, name: &str, save_path: &str) -> QbitTorrent {
    QbitTorrent {
        hash: hash.to_string(),
        name: name.to_string(),
        save_path: save_path.to_string(),
        category: "".to_string(),
        tags: "".to_string(),
    }
}

fn contents(names: &[String]) -> Vec<TorrentContent> {
    names
        .iter()
        .map(|name| TorrentContent { name: name.clone() })
        .collect()
}

/// Links a torrent that the library does not know.
fn link(
    disk: &mut Disk,
    cfg: &Config,
    torrent: &QbitTorrent,
    files: &[String],
    mam_id: u64,
    fetched: TorrentMeta,
) -> Torrent {
    let step = link_step(
        cfg,
        torrent,
        LinkState::Listed,
        LinkEvent::Found { finished: true },
    );
    assert!(matches!(step.action, LinkAction::Load));
    let step = link_step(
        cfg,
        torrent,
        step.state,
        LinkEvent::Loaded {
            existing: None,
            selected: false,
        },
    );
    let library = match step.action {
        LinkAction::Match { library, .. } => &cfg.libraries[library],
        _ => panic!("Expected a match"),
    };
    let client = client();
    let go = |state, event| match_step(cfg, &client, &torrent.hash, library, state, event);
    let step = go(
        MatchState::Files { existing: None },
        MatchEvent::Files(contents(files)),
    );
    assert!(matches!(step.action, MatchAction::AskMam));
    let step = go(step.state, MatchEvent::Mam(Some(mam_id)));
    assert!(matches!(step.action, MatchAction::LookUpMamId(id) if id == mam_id));
    let step = go(step.state, MatchEvent::Old(None));
    assert!(matches!(step.action, MatchAction::ReadMeta));
    let step = go(step.state, MatchEvent::Meta(Ok(fetched)));
    let (audio, ebook, meta) = match step.action {
        MatchAction::Link {
            audio, ebook, meta, ..
        } => (audio, ebook, meta),
        _ => panic!("Expected a link"),
    };
    let files = contents(files);
    let book = book_place(
        cfg, &client, torrent, library, &files, &audio, &ebook, &meta, false,
    )
    .unwrap();
    assert_eq!(disk.place(&book, library.options().method), Ok(()));
    linked_torrent(
        &torrent.hash,
        &torrent.category,
        library,
        &book,
        audio,
        ebook,
        None,
        &meta,
        Some(mam_id),
        meta.title.to_lowercase(),
        2,
    )
}

#[test]
fn test_link_torrent_audiobook() {
    let hash = "1234567890abcdef1234567890abcdef12345678";
    let mut disk = Disk::with(&["/rip/Test Audiobook/audio.m4b"]);
    let torrent = link(
        &mut disk,
        &torrents_config("test_library", LibraryLinkMethod::Hardlink),
        &client_torrent(hash, "Test Audiobook", "/rip"),
        &["Test Audiobook/audio.m4b".to_string()],
        1,
        meta("Test Title", "Test Author", None),
    );
    assert!(disk.has("/library/Test Author/Test Title"));
    assert!(disk.has("/library/Test Author/Test Title/audio.m4b"));
    assert!(disk.has("/library/Test Author/Test Title/metadata.json"));
    assert_eq!(torrent.id, hash);
    assert_eq!(torrent.meta.title, "Test Title");
    assert_eq!(torrent.meta.authors, vec!["Test Author"]);
    assert_eq!(torrent.library_files, vec![PathBuf::new("audio.m4b")]);
}

#[test]
fn test_link_torrent_ebook() {
    let mut disk = Disk::with(&["/rip/Test Ebook/book.epub"]);
    link(
        &mut disk,
        &torrents_config("test_library", LibraryLinkMethod::Hardlink),
        &client_torrent(
            "abcdef1234567890abcdef1234567890abcdef12",
            "Test Ebook",
            "/rip",
        ),
        &["Test Ebook/book.epub".to_string()],
        2,
        meta("Ebook Title", "Ebook Author", None),
    );
    assert!(disk.has("/library/Ebook Author/Ebook Title"));
    assert!(disk.has("/library/Ebook Author/Ebook Title/book.epub"));
    assert!(disk.has("/library/Ebook Author/Ebook Title/metadata.json"));
}

#[test]
fn test_skip_incomplete_torrent() {
    let step = link_step(
        &config(vec![]),
        &client_torrent("incomplete", "", ""),
        LinkState::Listed,
        LinkEvent::Found { finished: false },
    );
    assert!(matches!(step.action, LinkAction::Skip));
    assert!(matches!(step.state, LinkState::Finished));
    assert!(!step.remove_selected);
}

#[test]
fn test_remove_selected_torrent() {
    let hash = "1234567890abcdef1234567890abcdef12345678";
    let cfg = torrents_config("test", LibraryLinkMethod::NoLink);
    let torrent = client_torrent(hash, "", "/rip");
    let step = link_step(
        &cfg,
        &torrent,
        LinkState::Listed,
        LinkEvent::Found { finished: true },
    );
    let step = link_step(
        &cfg,
        &torrent,
        step.state,
        LinkEvent::Loaded {
            existing: None,
            selected: true,
        },
    );
    assert!(step.remove_selected);
}

#[test]
fn test_handle_invalid_torrent() {
    let update = QbitUpdate {
        category: Some("invalid".to_string()),
        tags: vec!["tag1".to_string(), "tag2".to_string()],
    };
    assert_eq!(
        handle_invalid_torrent(&Some(update)),
        vec![
            ClientStep::EnsureCategory("invalid".to_string()),
            ClientStep::SetCategory("invalid".to_string()),
            ClientStep::AddTags(vec!["tag1".to_string(), "tag2".to_string()]),
        ]
    );
}

/// Relinks a book, and tells what came of it and what record is kept.
fn relink(
    disk: &mut Disk,
    cfg: &Config,
    torrent: &QbitTorrent,
    files: &[String],
    stored: Torrent,
) -> (Result<(), String>, Torrent) {
    let mut stored = stored;
    let step = relink_step(cfg, torrent, RelinkState::Start, RelinkEvent::Found);
    assert!(matches!(step.action, RelinkAction::FetchFiles));
    let step = relink_step(
        cfg,
        torrent,
        step.state,
        RelinkEvent::Files(contents(files)),
    );
    assert!(matches!(step.action, RelinkAction::LoadRecord));
    let step = relink_step(
        cfg,
        torrent,
        step.state,
        RelinkEvent::Record(Some(stored.clone())),
    );
    let (library, audio, ebook, known) = match step.action {
        RelinkAction::Replace {
            library,
            audio,
            ebook,
            torrent,
            moves,
        } => {
            assert!(moves);
            (&cfg.libraries[library], audio, ebook, torrent)
        }
        _ => panic!("Expected a replacement"),
    };
    let client = client();
    let files = contents(files);
    let of = Replacement {
        config: cfg,
        qbit_config: &client,
        torrent,
        library,
        files: &files,
        audio: &audio,
        ebook: &ebook,
        meta: &known.meta,
    };
    let mut state = ReplaceState::Start;
    let mut event = ReplaceEvent::Begin;
    loop {
        let step = replace_step(&of, state, event);
        state = step.state;
        event = match step.action {
            ReplaceAction::Remove => {
                if let Some(path) = &known.library_path {
                    disk.remove_below(path.as_str());
                }
                ReplaceEvent::Removed { dir_exists: false }
            }
            ReplaceAction::Place(book) => match disk.place(&book, library.options().method) {
                Ok(()) => {
                    stored = linked_torrent(
                        &torrent.hash,
                        &torrent.category,
                        library,
                        &book,
                        audio.clone(),
                        ebook.clone(),
                        Some(&known),
                        &known.meta,
                        known.mam_id,
                        "title".to_string(),
                        2,
                    );
                    ReplaceEvent::Done
                }
                Err(error) => ReplaceEvent::Failed(error),
            },
            ReplaceAction::CleanUp(steps) => {
                disk.clean_up(steps);
                ReplaceEvent::Done
            }
            ReplaceAction::Load => ReplaceEvent::Loaded(Some(stored.clone())),
            ReplaceAction::Save(cleared) => {
                stored = cleared;
                ReplaceEvent::Done
            }
            ReplaceAction::Stop => return (Ok(()), stored),
            ReplaceAction::Fail(error) => return (Err(error), stored),
            ReplaceAction::Ignore => panic!("Expected a step"),
        };
    }
}

#[test]
fn test_relink() {
    let mut disk = Disk::with(&[
        "/rip/Relink Torrent/audio.m4b",
        "/library/Old Author/Title/audio.m4b",
    ]);
    let (result, torrent) = relink(
        &mut disk,
        &torrents_config("test", LibraryLinkMethod::Hardlink),
        &client_torrent("relink_hash", "", "/rip"),
        &["Relink Torrent/audio.m4b".to_string()],
        record(
            "relink_hash",
            1,
            Some("/library/Old Author/Title"),
            meta("Title", "New Author", Some("1")),
        ),
    );
    assert_eq!(result, Ok(()));
    assert!(!disk.has("/library/Old Author/Title"));
    assert!(disk.has("/library/New Author/Title"));
    assert!(disk.has("/library/New Author/Title/audio.m4b"));
    assert_eq!(
        torrent.library_path,
        Some(PathBuf::new("/library/New Author/Title"))
    );
}

#[test]
fn test_relink_failure_clears_link_state_and_partial_output() {
    let mut disk = Disk::with(&[
        "/rip/Relink Failure Torrent/disc-1.m4b",
        "/library/Old Author/Title/audio.m4b",
    ]);
    let mut known = record(
        "relink_failure_hash",
        10,
        Some("/library/Old Author/Title"),
        meta("Title", "New Author", Some("10")),
    );
    known.library_mismatch = Some(LibraryMismatch::NoLibrary);
    let (result, torrent) = relink(
        &mut disk,
        &torrents_config("test", LibraryLinkMethod::Copy),
        &client_torrent("relink_failure_hash", "", "/rip"),
        &[
            "Relink Failure Torrent/disc-1.m4b".to_string(),
            "Relink Failure Torrent/disc-2.m4b".to_string(),
        ],
        known,
    );
    assert!(result.unwrap_err().contains("disc-2.m4b"));
    assert!(!disk.has("/library/Old Author/Title"));
    assert!(!disk.has("/library/New Author/Title"));
    assert!(!disk.has("/library/New Author/Title/disc-1.m4b"));
    assert_eq!(torrent.library_path, None);
    assert!(torrent.library_files.is_empty());
    assert_eq!(torrent.linker, None);
    assert_eq!(torrent.library_mismatch, None);
    assert_eq!(torrent.id, "relink_failure_hash");
    assert_eq!(torrent.mam_id, Some(10));
}

#[test]
fn test_refresh_metadata_relink() {
    let mut disk = Disk::with(&["/rip/Refresh Relink Torrent/audio.m4b"]);
    let mut known = record(
        "refresh_relink_hash",
        2,
        Some("/library/Old Author/Title"),
        meta("Title", "Old Author", Some("2")),
    );
    assert!(refresh_mam_metadata(
        &mut known,
        meta("Title", "Refreshed Author", Some("2"))
    ));
    let (result, torrent) = relink(
        &mut disk,
        &torrents_config("test", LibraryLinkMethod::Hardlink),
        &client_torrent("refresh_relink_hash", "", "/rip"),
        &["Refresh Relink Torrent/audio.m4b".to_string()],
        known,
    );
    assert_eq!(result, Ok(()));
    assert!(disk.has("/library/Refreshed Author/Title"));
    assert!(disk.has("/library/Refreshed Author/Title/audio.m4b"));
    assert_eq!(torrent.meta.authors, vec!["Refreshed Author"]);
    assert_eq!(
        torrent.library_path,
        Some(PathBuf::new("/library/Refreshed Author/Title"))
    );
}

#[test]
fn test_refresh_mam_metadata_uses_torrent_mam_id_fallback() {
    let mut known = record(
        "refresh_mam_id_fallback",
        7,
        None,
        meta("Title", "Old Author", None),
    );
    assert_eq!(mam_id_to_fetch(Some(&known), None), Ok(7));
    let mut fetched = meta("Title", "Refreshed Author", Some("7"));
    fetched.description = "Fresh description".to_string();
    assert!(refresh_mam_metadata(&mut known, fetched));
    assert_eq!(known.meta.authors, vec!["Refreshed Author"]);
    assert_eq!(known.meta.description, "Fresh description");
    assert_eq!(known.meta.ids.get("mam"), Some(&"7".to_string()));
}

#[test]
fn a_removal_that_fails_undoes_nothing() {
    let cfg = torrents_config("test", LibraryLinkMethod::Copy);
    let known = meta("Title", "Author", None);
    let (torrent, client) = (client_torrent("h", "", "/rip"), client());
    let (files, none) = (vec![], None);
    let of = Replacement {
        config: &cfg,
        qbit_config: &client,
        torrent: &torrent,
        library: &cfg.libraries[0],
        files: &files,
        audio: &none,
        ebook: &none,
        meta: &known,
    };
    let step = replace_step(&of, ReplaceState::Start, ReplaceEvent::Begin);
    assert!(matches!(step.action, ReplaceAction::Remove));
    let step = replace_step(&of, step.state, ReplaceEvent::Failed("busy".to_string()));
    match step.action {
        ReplaceAction::Fail(error) => {
            assert_eq!(error, "removing previous library files: busy")
        }
        _ => panic!("Expected a failure"),
    }
    assert!(matches!(step.state, ReplaceState::Finished));
}

#[test]
fn the_placings_error_is_reported_whatever_follows() {
    let cfg = torrents_config("test", LibraryLinkMethod::Copy);
    let known = meta("Title", "Author", None);
    let (torrent, client) = (client_torrent("h", "", "/rip"), client());
    let (files, none) = (vec![], None);
    let of = Replacement {
        config: &cfg,
        qbit_config: &client,
        torrent: &torrent,
        library: &cfg.libraries[0],
        files: &files,
        audio: &none,
        ebook: &none,
        meta: &known,
    };
    let failed = |text: &str| ReplaceEvent::Failed(text.to_string());
    let step = replace_step(
        &of,
        ReplaceState::Removing,
        ReplaceEvent::Removed { dir_exists: false },
    );
    assert!(matches!(step.action, ReplaceAction::Place(_)));
    let step = replace_step(&of, step.state, failed("full"));
    assert!(matches!(step.action, ReplaceAction::CleanUp(_)));
    let step = replace_step(&of, step.state, failed("stuck"));
    assert!(matches!(step.action, ReplaceAction::Load));
    let step = replace_step(&of, step.state, failed("locked"));
    match step.action {
        ReplaceAction::Fail(error) => assert_eq!(error, "link_torrent: full"),
        _ => panic!("Expected a failure"),
    }
}

#[test]
fn a_book_without_an_author_has_no_place() {
    let cfg = torrents_config("test", LibraryLinkMethod::Copy);
    let mut book = meta("Title", "Author", None);
    book.authors.clear();
    let place = |cfg: &Config| {
        book_place(
            cfg,
            &client(),
            &client_torrent("h", "", "/rip"),
            &cfg.libraries[0],
            &vec![],
            &None,
            &None,
            &book,
            false,
        )
    };
    assert!(place(&cfg).is_err());
    let kept = place(&torrents_config("test", LibraryLinkMethod::NoLink)).unwrap();
    assert_eq!(kept.dir, None);
    assert!(kept.plans.is_empty());
}

fn words() -> Vocabulary {
    let flags = |bits: u8, abridged: Option<bool>| Flags {
        bits,
        crude_language: None,
        violence: None,
        some_explicit: None,
        explicit: None,
        abridged,
        lgbt: None,
    };
    Vocabulary {
        keys: IdKeys {
            abs: "abs".to_string(),
            asin: "asin".to_string(),
            isbn: "isbn".to_string(),
            nextory: "nextory".to_string(),
            storytel: "storytel".to_string(),
        },
        audiobook: term(0, "Audiobook"),
        swedish: term(2, "Swedish"),
        english: term(1, "English"),
        no_flags: flags(0, None),
        abridged_flags: flags(16, Some(true)),
    }
}

fn series(name: &str, entries: &str) -> Series {
    Series {
        name: name.to_string(),
        numbered: !entries.is_empty(),
        entries: entries.to_string(),
        rank: 0,
    }
}

fn rips() -> Config {
    config(vec![Library::ByRipDir(LibraryByRipDir {
        rip_dir: PathBuf::new("/rip"),
        options: options("test_library", LibraryLinkMethod::Hardlink),
    })])
}

/// What the catalogue and the database say of a folder's book.
struct Sayings {
    series: Option<Series>,
    categories: Vec<String>,
    tags: Vec<String>,
    best: Option<&'static str>,
    filter: Option<bool>,
}

fn nothing_said() -> Sayings {
    Sayings {
        series: None,
        categories: vec![],
        tags: vec![],
        best: None,
        filter: None,
    }
}

fn folder_meta(meta: &FolderMeta, audio: &Vec<FolderFile>, said: &Sayings) -> TorrentMeta {
    let words = words();
    let stats = folder_file_stats(audio, &vec![]);
    let listed = vec![said.series.clone()];
    match meta {
        FolderMeta::Libation(m) => {
            let question = ask_title(&m.title, &m.subtitle).unwrap();
            let (prefix, key) = match &question {
                TitleQuestion::Compare { prefix, key, .. } => {
                    (prefix.to_lowercase(), key.to_lowercase())
                }
                TitleQuestion::Settled(_) => ("".to_string(), "".to_string()),
            };
            let named = answer_title(&m.title, question, &prefix, &key);
            let inferred = named.series.map(|(name, number)| series(&name, &number));
            libation_torrent_meta(
                m,
                named.title,
                book_series(&vec![], inferred, None),
                said.categories.clone(),
                said.tags.clone(),
                Some(term(1, "English")),
                stats,
                audio.len(),
                &words,
            )
        }
        FolderMeta::Nextory(m) => nextory_torrent_meta(
            m,
            book_series(&listed, None, None),
            &None,
            stats,
            audio.len(),
            &words,
        ),
        FolderMeta::Storytel(m) => storytel_torrent_meta(
            m,
            book_series(&listed, None, None),
            &None,
            stats,
            audio.len(),
            &words,
        ),
    }
}

/// Links a folder whose metadata files, by name, hold what is given.
fn link_folder(
    disk: &mut Disk,
    cfg: &Config,
    names: &[&str],
    readings: Vec<Option<FolderMeta>>,
    said: Sayings,
) -> Option<Torrent> {
    let files: Vec<FolderFile> = names
        .iter()
        .map(|name| FolderFile {
            name: name.to_string(),
            path: PathBuf::new("/rip/book").join(name),
            size: 15,
        })
        .collect();
    for file in &files {
        disk.write(&file.path);
    }
    let found = folder_files(cfg, &files);
    assert_eq!(found.metadata.len(), readings.len());
    let mut readings: Vec<Option<Option<FolderMeta>>> = readings.into_iter().map(Some).collect();
    let mut state = FolderState::Listed;
    let mut event = FolderEvent::Begin;
    let meta = loop {
        let (next, action) = folder_step(found.metadata.len(), state, event);
        state = next;
        event = match action {
            FolderAction::Read(i) => FolderEvent::Read(readings[i].take().unwrap()),
            FolderAction::Link(meta) => break meta,
            _ => return None,
        };
    };
    let library = &cfg.libraries[0];
    let built = folder_meta(&meta, &found.audio, &said);
    let title = built.title.to_lowercase();
    let mut torrent = build_torrent(library, meta.id(), built, None, title, 3);
    if folder_verdict(&torrent.id, false, said.best, said.filter) != FolderVerdict::Link {
        return None;
    }
    let audio = select_format(&None, &cfg.audio_types, &found.audio);
    let ebook = select_format(&None, &cfg.ebook_types, &found.ebook);
    let book = folder_place(cfg, library, &found.audio, &torrent.meta, false).unwrap();
    assert_eq!(disk.place(&book, library.options().method), Ok(()));
    linked_folder_torrent(&mut torrent, library, &book, audio, ebook);
    Some(torrent)
}

fn libation(asin: &str, title: &str, subtitle: &str, author: &str, narrators: &[&str]) -> FolderMeta {
    let name = |n: &str| Name {
        name: n.to_string(),
    };
    FolderMeta::Libation(Libation {
        asin: asin.to_string(),
        title: title.to_string(),
        subtitle: subtitle.to_string(),
        authors: vec![name(author)],
        narrators: narrators.iter().map(|n| name(n)).collect(),
        language: "english".to_string(),
        format_type: "unabridged".to_string(),
        publisher_summary: "Test summary".to_string(),
        ..Libation::default()
    })
}

fn test_book() -> FolderMeta {
    libation("B00TEST1", "Test Book 1", "", "Author 1", &[])
}

const TEST_FILES: [&str; 2] = ["B00TEST1.json", "B00TEST1.m4b"];

#[test]
fn test_link_folders_to_library() {
    let mut disk = Disk::with(&[]);
    let torrent = link_folder(
        &mut disk,
        &rips(),
        &TEST_FILES,
        vec![Some(test_book())],
        nothing_said(),
    )
    .unwrap();
    assert_eq!(torrent.id, "B00TEST1");
    assert_eq!(torrent.meta.title, "Test Book 1");
    assert_eq!(torrent.meta.authors, vec!["Author 1"]);
    assert!(torrent.library_path.is_some());
    assert!(disk.has("/library/Author 1/Test Book 1"));
    assert!(disk.has("/library/Author 1/Test Book 1/B00TEST1.m4b"));
    assert!(disk.has("/library/Author 1/Test Book 1/metadata.json"));
}

#[test]
fn test_link_folders_to_library_duplicate_skipping() {
    let said = Sayings {
        best: Some("MAM123"),
        ..nothing_said()
    };
    let mut disk = Disk::with(&[]);
    let torrent = link_folder(&mut disk, &rips(), &TEST_FILES, vec![Some(test_book())], said);
    assert!(torrent.is_none());
    assert!(!disk.has("/library/Author 1/Test Book 1"));
}

/// A folder's book that the library's edition filter does not pass.
fn link_filtered_out() -> Option<Torrent> {
    let said = Sayings {
        filter: Some(false),
        ..nothing_said()
    };
    link_folder(
        &mut Disk::with(&[]),
        &rips(),
        &TEST_FILES,
        vec![Some(test_book())],
        said,
    )
}

#[test]
fn test_link_folders_to_library_filter_size_too_small() {
    assert!(link_filtered_out().is_none());
    let audio = vec![FolderFile {
        name: "B00TEST1.m4b".to_string(),
        path: PathBuf::new("/rip/B00TEST1/B00TEST1.m4b"),
        size: 15,
    }];
    assert_eq!(folder_meta(&test_book(), &audio, &nothing_said()).size, 15);
}

#[test]
fn test_link_folders_to_library_filter_media_type_mismatch() {
    assert!(link_filtered_out().is_none());
    let built = folder_meta(&test_book(), &vec![], &nothing_said());
    assert_eq!(built.media_type, term(0, "Audiobook"));
}

#[test]
fn test_link_folders_to_library_filter_language_mismatch() {
    assert!(link_filtered_out().is_none());
    let built = folder_meta(&test_book(), &vec![], &nothing_said());
    assert_eq!(built.language, Some(term(1, "English")));
}

#[test]
fn test_link_folders_to_library_libation_missing_subtitle() {
    let mut disk = Disk::with(&[]);
    let torrent = link_folder(
        &mut disk,
        &rips(),
        &[
            "The Blueprint [1977386733].metadata.json",
            "The Blueprint [1977386733].m4b",
        ],
        vec![Some(libation(
            "1977386733",
            "The Blueprint",
            "",
            "S.E. Harmon",
            &["Alexander Cendese"],
        ))],
        nothing_said(),
    )
    .unwrap();
    assert_eq!(torrent.id, "1977386733");
    assert_eq!(torrent.meta.title, "The Blueprint");
    let dir = torrent.library_path.unwrap();
    assert!(disk.has(dir.join("The Blueprint [1977386733].m4b").as_str()));
}

#[test]
fn test_link_folders_to_library_libation_missing_publication_name() {
    let torrent = link_folder(
        &mut Disk::with(&[]),
        &rips(),
        &[
            "Boraleashe [B0DZ3R4CCN].metadata.json",
            "Boraleashe [B0DZ3R4CCN].m4b",
        ],
        vec![Some(libation(
            "B0DZ3R4CCN",
            "Boraleashe",
            "Lord of the North Wind",
            "A.E. Via",
            &["Troy Duran"],
        ))],
        nothing_said(),
    )
    .unwrap();
    assert_eq!(torrent.id, "B0DZ3R4CCN");
    assert_eq!(torrent.meta.title, "Boraleashe: Lord of the North Wind");
}

#[test]
fn test_link_folders_to_library_libation_missing_narrators() {
    let torrent = link_folder(
        &mut Disk::with(&[]),
        &rips(),
        &["Fat Ham [B0CM7V5MSN].metadata.json", "Fat Ham [B0CM7V5MSN].m4b"],
        vec![Some(libation(
            "B0CM7V5MSN",
            "Fat Ham",
            "",
            "James Ijames",
            &[],
        ))],
        nothing_said(),
    )
    .unwrap();
    assert_eq!(torrent.id, "B0CM7V5MSN");
    assert_eq!(torrent.meta.title, "Fat Ham");
    assert_eq!(torrent.meta.narrators, Vec::<String>::new());
}

#[test]
fn test_link_folders_to_library_libation_maps_categories_and_tags() {
    let said = Sayings {
        categories: vec!["Coming of Age".to_string()],
        tags: vec!["Genre Fiction".to_string(), "Classics".to_string()],
        ..nothing_said()
    };
    let torrent = link_folder(
        &mut Disk::with(&[]),
        &rips(),
        &[
            "Test Categories [B00CATS1].metadata.json",
            "Test Categories [B00CATS1].m4b",
        ],
        vec![Some(libation(
            "B00CATS1",
            "Test Categories",
            "",
            "Author 1",
            &[],
        ))],
        said,
    )
    .unwrap();
    assert!(torrent
        .meta
        .categories
        .contains(&"Coming of Age".to_string()));
    assert!(torrent.meta.tags.contains(&"Genre Fiction".to_string()));
    assert!(torrent.meta.tags.contains(&"Classics".to_string()));
}

fn nextory() -> FolderMeta {
    let name = |n: &str| NextoryName {
        name: n.to_string(),
    };
    let format = |kind: &str, isbn: &str| NextoryFormat {
        format_type: kind.to_string(),
        isbn: Some(isbn.to_string()),
    };
    FolderMeta::Nextory(NextoryRaw {
        id: 424242,
        title: "Fake Dollar".to_string(),
        blurb: "Short fake blurb".to_string(),
        description_full: "Long fake description for integration testing".to_string(),
        language: "sv".to_string(),
        volume: Some("2".to_string()),
        series: Some(NextorySeries {
            name: "Fake Series".to_string(),
        }),
        formats: vec![
            format("hls", "9780000000001"),
            format("epub", "9780000000002"),
        ],
        authors: vec![name("Fake Author")],
        narrators: vec![name("Fake Narrator")],
    })
}

fn link_nextory(disk: &mut Disk, names: &[&str], readings: Vec<Option<FolderMeta>>) -> Torrent {
    let said = Sayings {
        series: Some(series("Fake", "2")),
        ..nothing_said()
    };
    link_folder(disk, &rips(), names, readings, said).unwrap()
}

#[test]
fn test_link_folders_to_library_nextory_wrapped_metadata() {
    let mut disk = Disk::with(&[]);
    let torrent = link_nextory(
        &mut disk,
        &[
            "metadata_raw.json",
            "metadata.json",
            "Fake Dollar - Fake Author.m4a",
        ],
        vec![Some(nextory()), None],
    );
    assert_eq!(torrent.id, "nextory_424242");
    assert_eq!(torrent.meta.title, "Fake Dollar");
    assert_eq!(torrent.meta.authors, vec!["Fake Author"]);
    assert_eq!(torrent.meta.narrators, vec!["Fake Narrator"]);
    assert_eq!(
        torrent.meta.ids.get("isbn"),
        Some(&"9780000000001".to_string())
    );
    assert_eq!(torrent.meta.language, Some(term(2, "Swedish")));
    assert_eq!(torrent.meta.series[0].name, "Fake");
    assert!(torrent.library_path.is_some());
    let dir = "/library/Fake Author/Fake/Fake #2 - Fake Dollar {Fake Narrator}";
    assert!(disk.has(dir));
    assert!(disk.has(&format!("{dir}/Fake Dollar - Fake Author.m4a")));
    assert!(disk.has(&format!("{dir}/metadata.json")));
}

#[test]
fn test_link_folders_to_library_nextory_raw_metadata() {
    let torrent = link_nextory(
        &mut Disk::with(&[]),
        &["metadata_raw.json", "Fake Dollar - Fake Author.m4a"],
        vec![Some(nextory())],
    );
    assert_eq!(torrent.id, "nextory_424242");
    assert_eq!(torrent.meta.title, "Fake Dollar");
    assert_eq!(torrent.meta.authors, vec!["Fake Author"]);
    assert_eq!(torrent.selected_audio_format, Some(".m4a".to_string()));
    assert!(torrent.library_path.is_some());
}

fn storytel() -> FolderMeta {
    let name = |n: &str| StorytelName {
        name: n.to_string(),
    };
    FolderMeta::Storytel(StorytelRaw {
        consumable_id: "137093".to_string(),
        title: "The Queen of Attolia".to_string(),
        description: "Storytel integration test description".to_string(),
        language: "en".to_string(),
        is_abridged: false,
        authors: vec![name("Megan Whalen Turner")],
        narrators: vec![name("Steve West")],
        series_info: Some(StorytelSeriesInfo {
            name: "The Queen's Thief".to_string(),
            order_in_series: Some("2".to_string()),
        }),
        formats: vec![StorytelFormat {
            format_type: "abook".to_string(),
            isbn: Some("9780062693839".to_string()),
        }],
    })
}

fn link_storytel(disk: &mut Disk, names: &[&str], readings: Vec<Option<FolderMeta>>) -> Torrent {
    let said = Sayings {
        series: Some(series("The Queen's Thief", "2")),
        ..nothing_said()
    };
    link_folder(disk, &rips(), names, readings, said).unwrap()
}

#[test]
fn test_link_folders_to_library_storytel_wrapped_metadata() {
    let mut disk = Disk::with(&[]);
    let torrent = link_storytel(
        &mut disk,
        &[
            "metadata_raw.json",
            "metadata.json",
            "The Queen of Attolia - Megan Whalen Turner.mp3",
        ],
        vec![Some(storytel()), None],
    );
    assert_eq!(torrent.id, "storytel_137093");
    assert_eq!(torrent.meta.title, "The Queen of Attolia");
    assert_eq!(torrent.meta.authors, vec!["Megan Whalen Turner"]);
    assert_eq!(torrent.meta.narrators, vec!["Steve West"]);
    assert_eq!(
        torrent.meta.ids.get("storytel"),
        Some(&"137093".to_string())
    );
    assert_eq!(
        torrent.meta.ids.get("isbn"),
        Some(&"9780062693839".to_string())
    );
    assert_eq!(torrent.meta.language, Some(term(1, "English")));
    assert_eq!(torrent.meta.series.len(), 1);
    assert_eq!(torrent.meta.series[0].name, "The Queen's Thief");
    assert_eq!(torrent.meta.series[0].entries, "2");
    assert!(torrent.library_path.is_some());
    let dir = "/library/Megan Whalen Turner/The Queen's Thief/\
               The Queen's Thief #2 - The Queen of Attolia {Steve West}";
    assert!(disk.has(dir));
    assert!(disk.has(&format!(
        "{dir}/The Queen of Attolia - Megan Whalen Turner.mp3"
    )));
    assert!(disk.has(&format!("{dir}/metadata.json")));
}

#[test]
fn test_link_folders_to_library_storytel_raw_metadata() {
    let torrent = link_storytel(
        &mut Disk::with(&[]),
        &[
            "metadata_raw.json",
            "The Queen of Attolia - Megan Whalen Turner.mp3",
        ],
        vec![Some(storytel())],
    );
    assert_eq!(torrent.id, "storytel_137093");
    assert_eq!(torrent.meta.title, "The Queen of Attolia");
    assert_eq!(torrent.meta.authors, vec!["Megan Whalen Turner"]);
    assert_eq!(torrent.selected_audio_format, Some(".mp3".to_string()));
    assert!(torrent.library_path.is_some());
}

#[test]
fn test_link_folders_to_library_libation_series_subtitle_does_not_overwrite_book_title() {
    let cases = [
        (
            "B0D8LFR3R2",
            "The Order: Kingdom of Fallen Ash",
            "The Order Series, Book 1",
            "Kingdom of Fallen Ash",
            "1",
        ),
        (
            "B0DSQW6S4W",
            "The Order: Labyrinth of Twisted Games",
            "The Order Series, Book 2",
            "Labyrinth of Twisted Games",
            "2",
        ),
        (
            "B0FNYKHDXG",
            "The Order: Rise of the New Empire",
            "The Order Series, Book 4",
            "Rise of the New Empire",
            "4",
        ),
    ];
    for (asin, title, subtitle, expected_title, expected_series_num) in cases {
        let torrent = link_folder(
            &mut Disk::with(&[]),
            &rips(),
            &[
                format!("The Order [{asin}].metadata.json").as_str(),
                format!("The Order [{asin}].m4b").as_str(),
            ],
            vec![Some(libation(
                asin,
                title,
                subtitle,
                "Katerina St Clair",
                &["Isabelle Turner"],
            ))],
            nothing_said(),
        )
        .unwrap();
        assert_eq!(torrent.id, asin);
        assert_eq!(torrent.meta.title, expected_title);
        assert_eq!(torrent.meta.series.len(), 1);
        assert_eq!(torrent.meta.series[0].name, "The Order");
        assert_eq!(torrent.meta.series[0].entries, expected_series_num);
    }
}
