use mlm::linker::common::{library_dir, select_format};
use mlm::linker::folder::{
    book_series, build_torrent, extension, folder_file_stats, folder_files,
    folder_link_plans, folder_place, folder_step, folder_verdict, kind_of_file, libation_torrent_meta, linked_folder_torrent,
    nextory_isbn, nextory_series, nextory_torrent_id, nextory_torrent_meta, parse_folder_language,
    parse_nextory_meta, parse_storytel_meta, storytel_isbn, storytel_series, storytel_torrent_id,
    storytel_torrent_meta, FileKind, FolderAction, FolderEvent, FolderFile, FolderMeta, FolderState,
    FolderVerdict, Libation, Name,
    NextoryFormat, NextoryName, NextoryRaw, NextorySeries, NextoryWrapped, StorytelFormat,
    StorytelName, StorytelRaw, StorytelSeriesInfo, StorytelWrapped,
};
use mlm::linker::libation::{
    answer_title, ask_title, cut_subtitle, libation_series_key, libation_series_name_matches,
    parse_libation_series_subtitle, MisalignedSubtitle, SubtitleCut, TitleAndSeries, TitleQuestion,
};
use mlm::linker::storytel_cats::{map_storytel_categories, Category};
use mlm::model::{
    Config, Flags, IdKeys, Library, LibraryByRipDir, LibraryLinkMethod, LibraryOptions,
    MetadataSource, Series, Term, Vocabulary,
};
use mlm::path::PathBuf;

#[test]
fn test_map_storytel_categories() {
    let mapped = map_storytel_categories(
        Some("Teens & Young Adult"),
        &vec!["Audiobook".to_string(), "Teens & Young Adult".to_string()],
        false,
    );

    assert_eq!(mapped.categories, vec![Category::YoungAdult]);
    assert!(mapped.freeform_tags.is_empty());
}

#[test]
fn test_map_storytel_fiction_to_existing_tag() {
    let mapped = map_storytel_categories(
        Some("Fiction"),
        &vec!["Audiobook".to_string(), "Fiction".to_string()],
        false,
    );

    assert!(mapped.categories.is_empty());
    assert_eq!(mapped.freeform_tags, vec!["Literature & Fiction"]);
}

#[test]
fn test_map_storytel_kids_book() {
    let mapped = map_storytel_categories(None, &vec![], true);

    assert_eq!(mapped.categories, vec![Category::Children]);
    assert!(mapped.freeform_tags.is_empty());
}

#[test]
fn storytel_tags_are_sorted_and_stand_once() {
    let genres = vec![
        " Thrillers ".to_string(),
        "Crime".to_string(),
        "Biographies".to_string(),
        "Thrillers".to_string(),
        "".to_string(),
    ];
    let mapped = map_storytel_categories(Some("Fiction"), &genres, true);
    assert_eq!(mapped.categories, vec![Category::Children, Category::Crime]);
    assert_eq!(
        mapped.freeform_tags,
        vec!["Biographies", "Literature & Fiction", "Thrillers"]
    );
}

fn config() -> Config {
    Config {
        exclude_narrator_in_library_dir: false,
        audio_types: vec!["m4b".to_string(), "m4a".to_string(), "mp3".to_string()],
        ebook_types: vec!["epub".to_string()],
        qbittorrent: vec![],
        libraries: vec![],
    }
}

fn term(rank: u64, name: &str) -> Term {
    Term {
        rank,
        name: name.to_string(),
    }
}

fn flags(bits: u8, abridged: Option<bool>) -> Flags {
    Flags {
        bits,
        crude_language: None,
        violence: None,
        some_explicit: None,
        explicit: None,
        abridged,
        lgbt: None,
    }
}

fn words() -> Vocabulary {
    Vocabulary {
        keys: IdKeys {
            abs: "abs".to_string(),
            asin: "asin".to_string(),
            isbn: "isbn".to_string(),
            nextory: "nextory".to_string(),
            storytel: "storytel".to_string(),
        },
        audiobook: term(0, "Audiobook"),
        swedish: term(2, "Swedish"),
        english: term(1, "English"),
        no_flags: flags(0, None),
        abridged_flags: flags(16, Some(true)),
    }
}

fn file(name: &str, size: u64) -> FolderFile {
    FolderFile {
        name: name.to_string(),
        path: PathBuf::new("/rip/book").join(name),
        size,
    }
}

fn library() -> Library {
    Library::ByRipDir(LibraryByRipDir {
        rip_dir: PathBuf::new("/rip"),
        options: LibraryOptions {
            name: Some("rips".to_string()),
            library_dir: PathBuf::new("/library"),
            method: LibraryLinkMethod::Hardlink,
            audio_types: None,
            ebook_types: None,
        },
    })
}

fn series(name: &str, entries: &str) -> Series {
    Series {
        name: name.to_string(),
        numbered: !entries.is_empty(),
        entries: entries.to_string(),
        rank: 0,
    }
}

#[test]
fn extensions_follow_the_last_dot() {
    assert_eq!(extension("a.b.m4b"), Some("m4b".to_string()));
    assert_eq!(extension("a."), Some("".to_string()));
    assert_eq!(extension(".hidden"), None);
    assert_eq!(extension("README"), None);
    assert_eq!(extension(".."), None);
}

#[test]
fn files_are_sorted_by_what_they_are_for() {
    let cfg = config();
    assert_eq!(kind_of_file(&cfg, "a.json"), FileKind::Metadata);
    assert_eq!(kind_of_file(&cfg, "a.M4B"), FileKind::Other);
    let files = vec![
        file("b.m4b", 1),
        file("cover.jpg", 1),
        file("a.m4b", 1),
        file("x.epub", 1),
        file("n.json", 1),
        file("m.json", 1),
    ];
    let found = folder_files(&cfg, &files);
    let names = |v: &Vec<FolderFile>| v.iter().map(|f| f.name.clone()).collect::<Vec<_>>();
    assert_eq!(names(&found.audio), vec!["b.m4b", "a.m4b"]);
    assert_eq!(names(&found.ebook), vec!["x.epub"]);
    assert_eq!(names(&found.metadata), vec!["m.json", "n.json"]);
}

#[test]
fn stats_count_every_file_and_each_type_once() {
    let stats = folder_file_stats(
        &vec![file("a.MP3", 5), file("b.mp3", 6)],
        &vec![file("c.epub", 7)],
    );
    assert_eq!(stats.size, 18);
    assert_eq!(stats.filetypes, vec!["epub".to_string(), "mp3".to_string()]);
}

#[test]
fn subtitles_tell_of_series() {
    let read = |s: &str| parse_libation_series_subtitle(s);
    assert_eq!(
        read("The Order Series, Book 1"),
        Ok(Some(("The Order Series".to_string(), "1".to_string())))
    );
    assert_eq!(
        read("  Saga, VOL. 3 "),
        Ok(Some(("Saga".to_string(), "3".to_string())))
    );
    assert_eq!(
        read("Saga, Volume 12"),
        Ok(Some(("Saga".to_string(), "12".to_string())))
    );
    assert_eq!(read("Lord of the North Wind"), Ok(None));
    assert_eq!(read(", Book 1"), Ok(None));
    assert_eq!(read(""), Ok(None));
}

#[test]
fn subtitles_are_cut_at_the_bytes_of_their_lowercase_form() {
    assert_eq!(
        parse_libation_series_subtitle("ÅÄÖ Serie, Book 2"),
        Ok(Some(("ÅÄÖ Serie".to_string(), "2".to_string())))
    );
    assert_eq!(
        cut_subtitle("é, Book 1", "e, book 1"),
        SubtitleCut::Misaligned
    );
    assert_eq!(
        parse_libation_series_subtitle("\u{130}, Book \u{e9}"),
        Err(MisalignedSubtitle)
    );
}

#[test]
fn series_keys_lose_the_word_series() {
    assert_eq!(libation_series_key(" The Order Series "), "The Order");
    assert_eq!(libation_series_key("The Order series"), "The Order");
    assert_eq!(libation_series_key("Series"), "Series");
    assert!(libation_series_name_matches("order", "order"));
    assert!(!libation_series_name_matches("order", "orders"));
}

fn title_of(title: &str, subtitle: &str) -> TitleAndSeries {
    let question = ask_title(title, subtitle).unwrap();
    let (prefix, key) = match &question {
        TitleQuestion::Compare { prefix, key, .. } => {
            (prefix.to_lowercase(), key.to_lowercase())
        }
        TitleQuestion::Settled(_) => ("".to_string(), "".to_string()),
    };
    answer_title(title, question, &prefix, &key)
}

#[test]
fn a_series_subtitle_does_not_overwrite_the_title() {
    let cases = [
        (
            "The Order: Kingdom of Fallen Ash",
            "The Order Series, Book 1",
            "Kingdom of Fallen Ash",
            "1",
        ),
        (
            "The Order: Labyrinth of Twisted Games",
            "The Order Series, Book 2",
            "Labyrinth of Twisted Games",
            "2",
        ),
        (
            "The Order: Rise of the New Empire",
            "The Order Series, Book 4",
            "Rise of the New Empire",
            "4",
        ),
    ];
    for (title, subtitle, expected_title, expected_number) in cases {
        assert_eq!(
            title_of(title, subtitle),
            TitleAndSeries {
                title: expected_title.to_string(),
                series: Some(("The Order".to_string(), expected_number.to_string())),
            }
        );
    }
}

#[test]
fn other_subtitles_belong_to_the_title() {
    assert_eq!(
        title_of("Boraleashe", "Lord of the North Wind"),
        TitleAndSeries {
            title: "Boraleashe: Lord of the North Wind".to_string(),
            series: None,
        }
    );
    assert_eq!(
        title_of("The Blueprint", ""),
        TitleAndSeries {
            title: "The Blueprint".to_string(),
            series: None,
        }
    );
    assert_eq!(
        title_of("Alone", "Saga, Book 2"),
        TitleAndSeries {
            title: "Alone".to_string(),
            series: Some(("Saga".to_string(), "2".to_string())),
        }
    );
    assert_eq!(
        title_of("Other: Alone", "Saga, Book 2"),
        TitleAndSeries {
            title: "Other: Alone".to_string(),
            series: Some(("Saga".to_string(), "2".to_string())),
        }
    );
}

#[test]
fn a_libation_folder_becomes_a_book() {
    let words = words();
    let mut libation = Libation::default();
    libation.asin = "B0DZ3R4CCN".to_string();
    libation.title = "Boraleashe".to_string();
    libation.authors = vec![Name {
        name: "A.E. Via".to_string(),
    }];
    libation.narrators = vec![Name {
        name: "Troy Duran".to_string(),
    }];
    libation.format_type = "unabridged".to_string();
    libation.publisher_summary = "Test summary".to_string();
    let audio = vec![file("a.m4b", 15)];
    let meta = libation_torrent_meta(
        &libation,
        "Boraleashe: Lord of the North Wind".to_string(),
        vec![],
        vec!["Fantasy".to_string()],
        vec![],
        Some(term(1, "English")),
        folder_file_stats(&audio, &vec![]),
        1,
        &words,
    );
    assert_eq!(meta.title, "Boraleashe: Lord of the North Wind");
    assert_eq!(meta.authors, vec!["A.E. Via"]);
    assert_eq!(meta.narrators, vec!["Troy Duran"]);
    assert_eq!(meta.ids.get("asin"), Some(&"B0DZ3R4CCN".to_string()));
    assert_eq!(meta.flags, Some(flags(0, None)));
    assert_eq!(meta.size, 15);
    assert_eq!(meta.num_files, 1);
    assert_eq!(meta.source, MetadataSource::File);
    libation.format_type = "abridged".to_string();
    let abridged = libation_torrent_meta(
        &libation,
        "T".to_string(),
        vec![],
        vec![],
        vec![],
        None,
        folder_file_stats(&audio, &vec![]),
        1,
        &words,
    );
    assert_eq!(abridged.flags, Some(flags(16, Some(true))));
}

fn nextory() -> NextoryRaw {
    NextoryRaw {
        id: 424242,
        title: "Fake Dollar".to_string(),
        blurb: "Short fake blurb".to_string(),
        description_full: "Long fake description for integration testing".to_string(),
        language: "sv".to_string(),
        volume: Some("2".to_string()),
        series: Some(NextorySeries {
            name: "Fake Series".to_string(),
        }),
        formats: vec![
            NextoryFormat {
                format_type: "epub".to_string(),
                isbn: Some("9780000000002".to_string()),
            },
            NextoryFormat {
                format_type: "hls".to_string(),
                isbn: Some("9780000000001".to_string()),
            },
        ],
        authors: vec![NextoryName {
            name: "Fake Author".to_string(),
        }],
        narrators: vec![NextoryName {
            name: "Fake Narrator".to_string(),
        }],
    }
}

#[test]
fn a_nextory_folder_becomes_a_book() {
    let words = words();
    let raw = parse_nextory_meta(Some(NextoryWrapped { raw: nextory() }), None).unwrap();
    assert_eq!(
        nextory_series(&raw),
        Some(("Fake Series".to_string(), "2".to_string()))
    );
    let audio = vec![file("Fake Dollar - Fake Author.m4a", 23)];
    let listed = vec![Some(series("Fake", "2"))];
    let meta = nextory_torrent_meta(
        &raw,
        book_series(&listed, None, None),
        &None,
        folder_file_stats(&audio, &vec![]),
        1,
        &words,
    );
    assert_eq!(meta.title, "Fake Dollar");
    assert_eq!(meta.authors, vec!["Fake Author"]);
    assert_eq!(meta.narrators, vec!["Fake Narrator"]);
    assert_eq!(meta.ids.get("isbn"), Some(&"9780000000001".to_string()));
    assert_eq!(meta.ids.get("nextory"), Some(&"424242".to_string()));
    assert_eq!(meta.language, Some(term(2, "Swedish")));
    assert_eq!(meta.series[0].name, "Fake");
    let dir = library_dir(false, &library(), &meta).unwrap();
    assert_eq!(
        dir.as_str(),
        "/library/Fake Author/Fake/Fake #2 - Fake Dollar {Fake Narrator}"
    );
    let plans = folder_link_plans(&audio, &dir);
    assert_eq!(
        plans[0].library_path,
        dir.join("Fake Dollar - Fake Author.m4a")
    );
    assert_eq!(
        plans[0].download_path,
        PathBuf::new("/rip/book/Fake Dollar - Fake Author.m4a")
    );
    let cfg = config();
    let audio_format = select_format(&None, &cfg.audio_types, &audio);
    assert_eq!(audio_format, Some(".m4a".to_string()));
    let mut torrent = build_torrent(
        &library(),
        nextory_torrent_id(raw.id),
        meta,
        None,
        "fake dollar".to_string(),
        9,
    );
    assert_eq!(torrent.id, "nextory_424242");
    assert!(!torrent.id_is_hash);
    assert_eq!(torrent.linker, Some("rips".to_string()));
    let audio = vec![file("b.m4a", 1), file("a.m4a", 2)];
    let place = folder_place(&cfg, &library(), &audio, &torrent.meta, false).unwrap();
    assert_eq!(place.dir, Some(dir));
    linked_folder_torrent(&mut torrent, &library(), &place, audio_format, None);
    assert!(torrent.library_path.is_some());
    assert_eq!(torrent.selected_audio_format, Some(".m4a".to_string()));
    assert_eq!(
        torrent.library_files,
        vec![PathBuf::new("a.m4a"), PathBuf::new("b.m4a")]
    );
}

#[test]
fn raw_metadata_stands_in_for_wrapped() {
    assert_eq!(parse_nextory_meta(None, Some(nextory())), Some(nextory()));
    assert_eq!(parse_nextory_meta(None, None), None);
    assert_eq!(parse_storytel_meta(None, Some(storytel())), Some(storytel()));
    assert_eq!(
        parse_storytel_meta(Some(StorytelWrapped { raw: storytel() }), None),
        Some(storytel())
    );
    assert_eq!(parse_storytel_meta(None, None), None);
}

fn storytel() -> StorytelRaw {
    StorytelRaw {
        consumable_id: "137093".to_string(),
        title: "The Queen of Attolia".to_string(),
        description: "Storytel integration test description".to_string(),
        language: "en".to_string(),
        is_abridged: false,
        authors: vec![StorytelName {
            name: "Megan Whalen Turner".to_string(),
        }],
        narrators: vec![StorytelName {
            name: "Steve West".to_string(),
        }],
        series_info: Some(StorytelSeriesInfo {
            name: "The Queen's Thief".to_string(),
            order_in_series: Some("2".to_string()),
        }),
        formats: vec![StorytelFormat {
            format_type: "abook".to_string(),
            isbn: Some("9780062693839".to_string()),
        }],
    }
}

#[test]
fn a_storytel_folder_becomes_a_book() {
    let words = words();
    let raw = storytel();
    assert_eq!(
        storytel_series(&raw),
        Some(("The Queen's Thief".to_string(), "2".to_string()))
    );
    let audio = vec![file("The Queen of Attolia - Megan Whalen Turner.mp3", 24)];
    let meta = storytel_torrent_meta(
        &raw,
        vec![series("The Queen's Thief", "2")],
        &None,
        folder_file_stats(&audio, &vec![]),
        1,
        &words,
    );
    assert_eq!(meta.title, "The Queen of Attolia");
    assert_eq!(meta.authors, vec!["Megan Whalen Turner"]);
    assert_eq!(meta.narrators, vec!["Steve West"]);
    assert_eq!(meta.ids.get("storytel"), Some(&"137093".to_string()));
    assert_eq!(meta.ids.get("isbn"), Some(&"9780062693839".to_string()));
    assert_eq!(meta.language, Some(term(1, "English")));
    let dir = library_dir(false, &library(), &meta).unwrap();
    assert_eq!(
        dir.as_str(),
        "/library/Megan Whalen Turner/The Queen's Thief/The Queen's Thief #2 - The Queen of Attolia {Steve West}"
    );
    assert_eq!(storytel_torrent_id("137093"), "storytel_137093");
}

#[test]
fn the_audio_format_has_the_isbn() {
    assert_eq!(
        nextory_isbn(&nextory().formats),
        Some("9780000000001".to_string())
    );
    let other = vec![
        NextoryFormat {
            format_type: "epub".to_string(),
            isbn: Some("x".to_string()),
        },
        NextoryFormat {
            format_type: "pdf".to_string(),
            isbn: Some("y".to_string()),
        },
    ];
    assert_eq!(nextory_isbn(&other), Some("x".to_string()));
    assert_eq!(nextory_isbn(&vec![]), None);
    assert_eq!(storytel_isbn(&vec![]), None);
}

#[test]
fn languages_have_codes() {
    let words = words();
    assert_eq!(
        parse_folder_language("SWE", &None, &words),
        Some(term(2, "Swedish"))
    );
    assert_eq!(
        parse_folder_language("eng", &None, &words),
        Some(term(1, "English"))
    );
    assert_eq!(parse_folder_language("fi", &None, &words), None);
    assert_eq!(
        parse_folder_language("sv", &Some(term(5, "Finnish")), &words),
        Some(term(5, "Finnish"))
    );
}

#[test]
fn the_first_metadata_that_can_be_read_counts() {
    let libation = Libation {
        asin: "A".to_string(),
        title: "T".to_string(),
        ..Libation::default()
    };
    let meta = FolderMeta::first_read(Some(libation), Some(nextory()), Some(storytel())).unwrap();
    assert!(matches!(meta, FolderMeta::Libation(_)));
    assert_eq!(meta.id(), "A");
    assert_eq!(meta.title(), "T");
    let meta = FolderMeta::first_read(None, Some(nextory()), Some(storytel())).unwrap();
    assert_eq!(meta.id(), "nextory_424242");
    let meta = FolderMeta::first_read(None, None, Some(storytel())).unwrap();
    assert_eq!(meta.id(), "storytel_137093");
    assert_eq!(meta.title(), "The Queen of Attolia");
    assert!(FolderMeta::first_read(None, None, None).is_none());
}

#[test]
fn series_come_from_the_metadata_the_subtitle_or_the_title() {
    let listed = vec![None, Some(series("A", "1")), Some(series("B", ""))];
    let names = |v: Vec<Series>| v.into_iter().map(|s| s.name).collect::<Vec<_>>();
    assert_eq!(
        names(book_series(&listed, Some(series("C", "")), None)),
        vec!["A", "B"]
    );
    assert_eq!(
        names(book_series(
            &vec![None],
            Some(series("C", "")),
            Some(series("D", ""))
        )),
        vec!["C"]
    );
    assert_eq!(
        names(book_series(&vec![], None, Some(series("D", "")))),
        vec!["D"]
    );
    assert!(book_series(&vec![], None, None).is_empty());
}

#[test]
fn folders_are_linked_unless_known_worse_or_filtered_out() {
    assert_eq!(
        folder_verdict("a", true, None, None),
        FolderVerdict::Known
    );
    assert_eq!(
        folder_verdict("a", false, Some("MAM123"), Some(true)),
        FolderVerdict::Duplicate
    );
    assert_eq!(
        folder_verdict("a", false, Some("a"), Some(false)),
        FolderVerdict::FilteredOut
    );
    assert_eq!(
        folder_verdict("a", false, None, None),
        FolderVerdict::Link
    );
}

#[test]
fn subtitles_are_read_in_any_letter_case() {
    let read = |s: &str| parse_libation_series_subtitle(s);
    assert_eq!(
        read("THE ORDER, BOOK 1A"),
        Ok(Some(("THE ORDER".to_string(), "1A".to_string())))
    );
    assert_eq!(
        read("the order, book 1a"),
        Ok(Some(("the order".to_string(), "1a".to_string())))
    );
    assert_eq!(
        read(" \t The Order  , Vol.   2 \n"),
        Ok(Some(("The Order".to_string(), "2".to_string())))
    );
    assert_eq!(read("The Order, Part 2"), Ok(None));
    assert_eq!(read("   "), Ok(None));
}

fn reading(title: &str) -> FolderEvent {
    let meta = StorytelRaw {
        consumable_id: "1".to_string(),
        title: title.to_string(),
        description: "".to_string(),
        language: "".to_string(),
        is_abridged: false,
        authors: vec![],
        narrators: vec![],
        series_info: None,
        formats: vec![],
    };
    FolderEvent::Read(Some(FolderMeta::Storytel(meta)))
}

#[test]
fn first_readable_metadata_file_is_linked() {
    let (state, action) = folder_step(3, FolderState::Listed, FolderEvent::Begin);
    assert!(matches!(action, FolderAction::Read(0)));
    let (state, action) = folder_step(3, state, FolderEvent::Read(None));
    assert!(matches!(action, FolderAction::Read(1)));
    let (state, action) = folder_step(3, state, reading("Second"));
    match action {
        FolderAction::Link(meta) => assert_eq!(meta.title(), "Second"),
        _ => panic!("Expected a link"),
    }
    assert!(matches!(state, FolderState::Finished));
}

#[test]
fn folders_without_readable_metadata_are_left() {
    let (_, action) = folder_step(0, FolderState::Listed, FolderEvent::Begin);
    assert!(matches!(action, FolderAction::Missing));
    let (_, action) = folder_step(2, FolderState::Reading(1), FolderEvent::Read(None));
    assert!(matches!(action, FolderAction::Unsupported));
    let (_, action) = folder_step(2, FolderState::Reading(0), FolderEvent::Failed);
    assert!(matches!(action, FolderAction::Fail));
    let (_, action) = folder_step(2, FolderState::Finished, FolderEvent::Begin);
    assert!(matches!(action, FolderAction::Ignore));
}
