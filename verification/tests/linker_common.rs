use mlm::ids::Ids;
use mlm::linker::common::{has_dir_name, library_dir, map_path, select_format, HasFileName};
use mlm::model::{
    Library, LibraryByDownloadDir, LibraryLinkMethod, LibraryOptions, LibraryTagFilters,
    MetadataSource, Series, Term, TorrentContent, TorrentMeta,
};
use mlm::path::PathBuf;

fn mappings() -> Vec<(PathBuf, PathBuf)> {
    vec![
        (PathBuf::new("/downloads"), PathBuf::new("/books")),
        (
            PathBuf::new("/downloads/audiobooks"),
            PathBuf::new("/audiobooks"),
        ),
        (PathBuf::new("/audiobooks"), PathBuf::new("/audiobooks")),
    ]
}

#[test]
fn common_test_map_path() {
    let mappings = mappings();
    assert_eq!(
        map_path(&mappings, "/downloads/torrent"),
        PathBuf::new("/books/torrent")
    );
    assert_eq!(
        map_path(&mappings, "/downloads/audiobooks/torrent"),
        PathBuf::new("/audiobooks/torrent")
    );
    assert_eq!(
        map_path(&mappings, "/downloads/audiobooks/torrent/deep"),
        PathBuf::new("/audiobooks/torrent/deep")
    );
    assert_eq!(
        map_path(&mappings, "/audiobooks/torrent"),
        PathBuf::new("/audiobooks/torrent")
    );
    assert_eq!(
        map_path(&mappings, "/ebooks/torrent"),
        PathBuf::new("/ebooks/torrent")
    );
}

#[test]
fn mapping_does_not_depend_on_the_order_of_the_entries() {
    let mut reversed = mappings();
    reversed.reverse();
    assert_eq!(
        map_path(&reversed, "/downloads/audiobooks/torrent").as_str(),
        "/audiobooks/torrent"
    );
    assert_eq!(
        map_path(&reversed, "/downloads/torrent").as_str(),
        "/books/torrent"
    );
}

#[test]
fn mapping_goes_by_whole_components() {
    let mappings = mappings();
    assert_eq!(
        map_path(&mappings, "/downloads2/torrent").as_str(),
        "/downloads2/torrent"
    );
    assert_eq!(map_path(&mappings, "/downloads").as_str(), "/books/");
    assert_eq!(map_path(&vec![], "/downloads").as_str(), "/downloads");
}

#[test]
fn test_select_format() {
    struct F {
        name: String,
    }
    impl HasFileName for F {
        fn name_lower(&self) -> String {
            self.name.to_lowercase()
        }
    }
    let files = vec![
        F {
            name: "book.M4B".to_string(),
        },
        F {
            name: "cover.jpg".to_string(),
        },
    ];
    let wanted = vec!["m4b".to_string(), "mp3".to_string()];
    let sel = select_format(&Some(vec!["m4b".to_string()]), &wanted, &files);
    assert_eq!(sel.unwrap(), ".m4b".to_string());
    let sel2 = select_format(&None, &wanted, &files);
    assert_eq!(sel2.unwrap(), ".m4b".to_string());
}

#[test]
fn test_select_format_leading_dot_in_override() {
    struct F {
        name: String,
    }
    impl HasFileName for F {
        fn name_lower(&self) -> String {
            self.name.to_lowercase()
        }
    }
    let files = vec![F {
        name: "track.FLAC".to_string(),
    }];
    let wanted = vec!["mp3".to_string(), "flac".to_string()];
    let sel = select_format(&Some(vec![".flac".to_string()]), &wanted, &files);
    assert_eq!(sel.unwrap(), ".flac".to_string());
}

#[test]
fn test_select_format_uppercase_extension() {
    struct F {
        name: String,
    }
    impl HasFileName for F {
        fn name_lower(&self) -> String {
            self.name.to_lowercase()
        }
    }
    let files = vec![F {
        name: "ALBUM.MP3".to_string(),
    }];
    let wanted = vec!["mp3".to_string()];
    let sel = select_format(&None, &wanted, &files);
    assert_eq!(sel.unwrap(), ".mp3".to_string());
}

#[test]
fn test_select_format_missing_extension_returns_none() {
    struct F {
        name: String,
    }
    impl HasFileName for F {
        fn name_lower(&self) -> String {
            self.name.to_lowercase()
        }
    }
    let files = vec![F {
        name: "README".to_string(),
    }];
    let wanted = vec!["m4b".to_string()];
    let sel = select_format(&None, &wanted, &files);
    assert!(sel.is_none());
}

#[test]
fn test_select_format_overridden_empty_vector() {
    struct F {
        name: String,
    }
    impl HasFileName for F {
        fn name_lower(&self) -> String {
            self.name.to_lowercase()
        }
    }
    let files = vec![F {
        name: "song.mp3".to_string(),
    }];
    let wanted = vec!["mp3".to_string()];
    let sel = select_format(&Some(vec![]), &wanted, &files);
    assert!(sel.is_none());
}

#[test]
fn test_select_format_wanted_empty_then_none() {
    struct F {
        name: String,
    }
    impl HasFileName for F {
        fn name_lower(&self) -> String {
            self.name.to_lowercase()
        }
    }
    let files = vec![F {
        name: "file.mp3".to_string(),
    }];
    let wanted: Vec<String> = vec![];
    let sel = select_format(&None, &wanted, &files);
    assert!(sel.is_none());
}

fn content(name: &str) -> TorrentContent {
    TorrentContent {
        name: name.to_string(),
    }
}

#[test]
fn formats_are_taken_in_the_order_in_which_they_are_wanted() {
    let files = vec![content("a.mp3"), content("b.M4B")];
    let wanted = vec!["FLAC".to_string(), "M4B".to_string(), "mp3".to_string()];
    assert_eq!(
        select_format(&None, &wanted, &files),
        Some(".m4b".to_string())
    );
}

#[test]
fn letters_beyond_ascii_are_made_small_too() {
    let files = vec![content("Bok.ÅÄÖ")];
    let wanted = vec!["åäö".to_string()];
    assert_eq!(
        select_format(&None, &wanted, &files),
        Some(".åäö".to_string())
    );
}

fn library(dir: &str) -> Library {
    Library::ByDownloadDir(LibraryByDownloadDir {
        download_dir: PathBuf::new("/downloads"),
        options: LibraryOptions {
            name: None,
            library_dir: PathBuf::new(dir),
            method: LibraryLinkMethod::Hardlink,
            audio_types: None,
            ebook_types: None,
        },
        tag_filters: LibraryTagFilters::default(),
    })
}

fn meta(title: &str, author: Option<&str>) -> TorrentMeta {
    TorrentMeta {
        ids: Ids::new(),
        vip_status: None,
        cat: None,
        media_type: Term {
            rank: 0,
            name: "Audiobook".to_string(),
        },
        main_cat: None,
        categories: vec![],
        tags: vec![],
        language: None,
        flags: None,
        filetypes: vec![],
        num_files: 0,
        size: 0,
        title: title.to_string(),
        edition: None,
        description: "".to_string(),
        authors: author.into_iter().map(|a| a.to_string()).collect(),
        narrators: vec![],
        series: vec![],
        source: MetadataSource::Mam,
        uploaded_at: None,
    }
}

fn series(name: &str, entries: &str) -> Series {
    Series {
        name: name.to_string(),
        numbered: !entries.is_empty(),
        entries: entries.to_string(),
        rank: 0,
    }
}

fn dir_text(exclude: bool, meta: &TorrentMeta) -> Option<String> {
    library_dir(exclude, &library("/library"), meta).map(|p| p.as_str().to_string())
}

#[test]
fn a_book_lies_under_its_author_and_title() {
    assert_eq!(
        dir_text(false, &meta("Title", Some("Author"))),
        Some("/library/Author/Title".to_string())
    );
    assert_eq!(dir_text(false, &meta("Title", None)), None);
}

#[test]
fn a_book_of_a_series_lies_under_the_series() {
    let mut m = meta("Fake Dollar", Some("Fake Author"));
    m.series = vec![series("Unnumbered", ""), series("Fake", "2")];
    m.narrators = vec!["Fake Narrator".to_string()];
    assert_eq!(
        dir_text(false, &m),
        Some("/library/Fake Author/Fake/Fake #2 - Fake Dollar {Fake Narrator}".to_string())
    );
    assert_eq!(
        dir_text(true, &m),
        Some("/library/Fake Author/Fake/Fake #2 - Fake Dollar".to_string())
    );
    m.series = vec![series("Unnumbered", "")];
    assert_eq!(
        dir_text(true, &m),
        Some("/library/Fake Author/Unnumbered/Fake Dollar".to_string())
    );
}

#[test]
fn the_edition_comes_before_the_narrator() {
    let mut m = meta("Title", Some("Author"));
    m.edition = Some(("Second Edition".to_string(), 2));
    m.narrators = vec!["Narrator".to_string()];
    assert_eq!(
        dir_text(false, &m),
        Some("/library/Author/Title, Second Edition {Narrator}".to_string())
    );
}

#[test]
fn names_lose_what_a_file_name_cannot_hold() {
    let m = meta("What/If? \u{7}<Yes>", Some("A:B*C"));
    assert_eq!(
        dir_text(false, &m),
        Some("/library/ABC/WhatIf Yes".to_string())
    );
    let dots = meta("..", Some("Author"));
    assert_eq!(dir_text(false, &dots), Some("/library/Author/".to_string()));
}

#[test]
fn long_names_are_cut() {
    let m = meta(&"é".repeat(200), Some("Author"));
    let dir = dir_text(false, &m).unwrap();
    assert_eq!(dir, format!("/library/Author/{}", "é".repeat(127)));
}

#[test]
fn narrator_needs_a_directory_name_to_follow() {
    let mut book = meta("..", Some(".."));
    assert!(has_dir_name(false, &book));
    book.narrators = vec!["N".to_string()];
    assert!(!has_dir_name(false, &book));
    assert!(has_dir_name(true, &book));
    book.title = "Title".to_string();
    assert!(has_dir_name(false, &book));
    assert!(has_dir_name(false, &meta("..", None)));
}
