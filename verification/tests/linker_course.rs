use mlm::ids::Ids;
use mlm::linker::course::{
    linked_files, place_step, relink_step, rollback_failed_relink, PlaceAction, PlaceEvent,
    PlaceState, RelinkAction, RelinkEvent, RelinkState,
};
use mlm::linker::relink::{CleanupStep, LinkError, LinkOperation};
use mlm::linker::torrent::FileLinkPlan;
use mlm::model::{
    Config, Library, LibraryByCategory, LibraryLinkMethod, LibraryOptions, LibraryTagFilters,
    MetadataSource, QbitTorrent, Term, Torrent, TorrentContent, TorrentMeta,
};
use mlm::path::PathBuf;

fn plan(name: &str) -> FileLinkPlan {
    FileLinkPlan {
        download_path: PathBuf::new("/downloads").join(name),
        library_path: PathBuf::new("/library/A/T").join(name),
        relative_library_path: PathBuf::new(name),
    }
}

fn dir() -> Option<PathBuf> {
    Some(PathBuf::new("/library/A/T"))
}

#[test]
fn a_book_is_placed_file_by_file() {
    let plans = vec![plan("a.m4b"), plan("Disc 1/b.m4b")];
    let mut state = PlaceState::Start;
    let mut actions = vec![];
    loop {
        let (next, action) = place_step(
            &dir(),
            &plans,
            LibraryLinkMethod::Hardlink,
            state,
            PlaceEvent::Done,
        );
        state = next;
        if action == PlaceAction::Stop {
            break;
        }
        actions.push(action);
    }
    assert_eq!(
        actions,
        vec![
            PlaceAction::MakeDir(PathBuf::new("/library/A/T")),
            PlaceAction::MakeDir(PathBuf::new("/library/A/T")),
            PlaceAction::Link {
                operation: LinkOperation::Hardlink,
                file: 0
            },
            PlaceAction::MakeDir(PathBuf::new("/library/A/T/Disc 1")),
            PlaceAction::Link {
                operation: LinkOperation::Hardlink,
                file: 1
            },
            PlaceAction::WriteMetadata(PathBuf::new("/library/A/T/metadata.json")),
            PlaceAction::SaveRecord,
            PlaceAction::WriteEvent,
        ]
    );
    assert_eq!(
        linked_files(&plans),
        vec![PathBuf::new("a.m4b"), PathBuf::new("Disc 1/b.m4b")]
    );
}

#[test]
fn a_second_operation_is_tried_once() {
    let plans = vec![plan("a.m4b")];
    let linking = PlaceState::Linking {
        file: 0,
        attempt: 0,
    };
    let (state, action) = place_step(
        &dir(),
        &plans,
        LibraryLinkMethod::HardlinkOrCopy,
        linking,
        PlaceEvent::Failed,
    );
    assert_eq!(
        action,
        PlaceAction::Link {
            operation: LinkOperation::Copy,
            file: 0
        }
    );
    let (state, action) = place_step(
        &dir(),
        &plans,
        LibraryLinkMethod::HardlinkOrCopy,
        state,
        PlaceEvent::Failed,
    );
    assert_eq!(action, PlaceAction::Fail);
    assert_eq!(state, PlaceState::Finished);
    let (_, action) = place_step(
        &dir(),
        &plans,
        LibraryLinkMethod::Hardlink,
        linking,
        PlaceEvent::Failed,
    );
    assert_eq!(action, PlaceAction::Fail);
    let (_, action) = place_step(
        &dir(),
        &plans,
        LibraryLinkMethod::Hardlink,
        PlaceState::Describing,
        PlaceEvent::Failed,
    );
    assert_eq!(action, PlaceAction::Fail);
}

#[test]
fn a_book_without_a_directory_is_only_recorded() {
    let plans = vec![];
    let method = LibraryLinkMethod::NoLink;
    let (state, action) = place_step(&None, &plans, method, PlaceState::Start, PlaceEvent::Done);
    assert_eq!(action, PlaceAction::SaveRecord);
    let (state, action) = place_step(&None, &plans, method, state, PlaceEvent::Done);
    assert_eq!((state, action), (PlaceState::Finished, PlaceAction::Stop));
}

fn config() -> Config {
    Config {
        exclude_narrator_in_library_dir: false,
        audio_types: vec!["m4b".to_string()],
        ebook_types: vec![],
        qbittorrent: vec![],
        libraries: vec![Library::ByCategory(LibraryByCategory {
            category: "audio".to_string(),
            options: LibraryOptions {
                name: None,
                library_dir: PathBuf::new("/library"),
                method: LibraryLinkMethod::Hardlink,
                audio_types: None,
                ebook_types: None,
            },
            tag_filters: LibraryTagFilters::default(),
        })],
    }
}

fn client_torrent(category: &str) -> QbitTorrent {
    QbitTorrent {
        hash: "relink_hash".to_string(),
        name: "Relink Torrent".to_string(),
        save_path: "/downloads".to_string(),
        category: category.to_string(),
        tags: "".to_string(),
    }
}

fn record(path: &str) -> Torrent {
    Torrent {
        id: "relink_hash".to_string(),
        id_is_hash: true,
        mam_id: None,
        library_path: Some(PathBuf::new(path)),
        library_files: vec![],
        linker: None,
        category: None,
        selected_audio_format: None,
        selected_ebook_format: None,
        title_search: "title".to_string(),
        meta: TorrentMeta {
            ids: Ids::new(),
            vip_status: None,
            cat: None,
            media_type: Term {
                rank: 0,
                name: "Audiobook".to_string(),
            },
            main_cat: None,
            categories: vec![],
            tags: vec![],
            language: None,
            flags: None,
            filetypes: vec![],
            num_files: 0,
            size: 0,
            title: "Title".to_string(),
            edition: None,
            description: "".to_string(),
            authors: vec!["New Author".to_string()],
            narrators: vec![],
            series: vec![],
            source: MetadataSource::Mam,
            uploaded_at: None,
        },
        created_at: 0,
        replaced_with: None,
        library_mismatch: None,
        client_status: None,
    }
}

#[test]
fn a_book_is_relinked() {
    let cfg = config();
    let torrent = client_torrent("audio");
    let step = relink_step(&cfg, &torrent, RelinkState::Start, RelinkEvent::Found);
    assert!(matches!(step.action, RelinkAction::FetchFiles));
    let files = vec![TorrentContent {
        name: "audio.m4b".to_string(),
    }];
    let step = relink_step(&cfg, &torrent, step.state, RelinkEvent::Files(files));
    assert!(matches!(step.action, RelinkAction::LoadRecord));
    let step = relink_step(
        &cfg,
        &torrent,
        step.state,
        RelinkEvent::Record(Some(record("/library/Old Author/Title"))),
    );
    match step.action {
        RelinkAction::Replace {
            library,
            audio,
            moves,
            ..
        } => {
            assert_eq!(library, 0);
            assert_eq!(audio, Some(".m4b".to_string()));
            assert!(moves);
        }
        _ => panic!("Expected a replacement"),
    }
}

#[test]
fn a_book_in_place_does_not_move() {
    let step = relink_step(
        &config(),
        &client_torrent("audio"),
        RelinkState::Record {
            library: 0,
            audio: None,
            ebook: None,
        },
        RelinkEvent::Record(Some(record("/library/New Author/Title"))),
    );
    assert!(matches!(
        step.action,
        RelinkAction::Replace { moves: false, .. }
    ));
}

#[test]
fn a_book_that_cannot_be_relinked_is_reported() {
    let cfg = config();
    let error = |torrent: &QbitTorrent, state: RelinkState, event: RelinkEvent| {
        match relink_step(&cfg, torrent, state, event).action {
            RelinkAction::Fail(e) => e,
            _ => panic!("Expected a failure"),
        }
    };
    assert_eq!(
        error(&client_torrent(""), RelinkState::Start, RelinkEvent::Found),
        LinkError::NoLibrary
    );
    assert_eq!(
        error(
            &client_torrent("audio"),
            RelinkState::Files { library: 0 },
            RelinkEvent::Files(vec![])
        ),
        LinkError::NoWantedFormat
    );
    assert_eq!(
        error(
            &client_torrent("audio"),
            RelinkState::Record {
                library: 0,
                audio: None,
                ebook: None
            },
            RelinkEvent::Record(None)
        ),
        LinkError::NoTorrent
    );
    let step = relink_step(
        &cfg,
        &client_torrent("audio"),
        RelinkState::Finished,
        RelinkEvent::Found,
    );
    assert!(matches!(step.action, RelinkAction::Ignore));
}

#[test]
fn a_failed_relink_is_rolled_back() {
    let plans = vec![plan("disc-1.m4b"), plan("disc-2.m4b")];
    let steps = rollback_failed_relink(&dir(), &plans);
    let removed: Vec<&str> = steps
        .iter()
        .filter_map(|s| match s {
            CleanupStep::RemoveFile(p) => Some(p.as_str()),
            _ => None,
        })
        .collect();
    assert_eq!(
        removed,
        vec![
            "/library/A/T/disc-1.m4b",
            "/library/A/T/disc-2.m4b",
            "/library/A/T/metadata.json",
            "/library/A/T/cover.jpg"
        ]
    );
    assert!(rollback_failed_relink(&None, &plans).is_empty());
}
