//! Linking torrents by the names that the client gives their files, on any
//! system, and telling what was missing where that fails.
use vstd::prelude::*;
use vstd::string::*;

use crate::linker::common::map_path;
use crate::linker::course::{relink_on, RelinkEvent, RelinkState, RelinkStep};
use crate::linker::progress::{
    decide, match_step, save, LinkAction, LinkEvent, LinkState, LinkStep, MatchAction, MatchEvent,
    MatchState, MatchStep,
};
use crate::linker::relink::{linked_torrent, resolve_link_library_dir, BookPlace, LinkError};
use crate::linker::torrent::{
    disc_file_path, disc_number, find_taker, FileLinkPlan, PlanView,
};
use crate::model::{
    Config, Event, EventType, EventView, Library, LibraryLinkMethod, QbitConfig, QbitTorrent,
    Torrent, TorrentContent, TorrentMeta, TorrentView,
};
use crate::path::PathBuf;
use crate::text::{
    chars_of, clone_option, ends_with, join, same_option, same_text, slice, split,
};

verus! {

/// The character separates directories in a client's file names.
pub open spec fn is_separator(c: char) -> bool {
    c == '/' || c == '\\'
}

/// The first separator at or after `i`, or the end of the text.
pub open spec fn segment_end(t: Seq<char>, i: int) -> int
    decreases t.len() - i,
{
    if i >= t.len() || is_separator(t[i]) {
        i
    } else {
        segment_end(t, i + 1)
    }
}

/// The segment counts: it is neither empty nor `.`.
pub open spec fn is_segment(s: Seq<char>) -> bool {
    s.len() > 0 && s != seq!['.']
}

/// The segments that count, of those that begin at or after `i`, the beginning
/// of the text or the place behind a separator.
pub open spec fn segments_from(t: Seq<char>, i: int) -> Seq<Seq<char>>
    decreases t.len() + 1 - i,
    via segments_shrink
{
    if i >= t.len() {
        seq![]
    } else {
        let e = segment_end(t, i);
        if is_segment(t.subrange(i, e)) {
            seq![t.subrange(i, e)] + segments_from(t, e + 1)
        } else {
            segments_from(t, e + 1)
        }
    }
}

#[via_fn]
proof fn segments_shrink(t: Seq<char>, i: int) {
    lemma_segment_end(t, i);
}

proof fn lemma_segment_end(t: Seq<char>, i: int)
    ensures
        i <= segment_end(t, i),
        i <= t.len() ==> segment_end(t, i) <= t.len(),
        segment_end(t, i) < t.len() ==> is_separator(t[segment_end(t, i)]),
        forall|k: int|
            i <= k < segment_end(t, i) && 0 <= k ==> !is_separator(#[trigger] t[k]),
    decreases t.len() - i,
{
    if i < t.len() && !is_separator(t[i]) {
        lemma_segment_end(t, i + 1);
    }
}

/// The segments of a client's file name that count.
pub open spec fn segments(t: Seq<char>) -> Seq<Seq<char>> {
    segments_from(t, 0)
}

/// The path that a client's file name stands for.
pub open spec fn client_path(name: Seq<char>) -> Seq<char> {
    crate::text::joined(segments(name), seq!['/'])
}

/// Every segment that counts is not empty, is not `.`, and holds no separator.
proof fn lemma_segments(t: Seq<char>, i: int)
    requires
        0 <= i,
    ensures
        forall|k: int|
            0 <= k < segments_from(t, i).len() ==> is_segment(#[trigger] segments_from(t, i)[k])
                && !segments_from(t, i)[k].contains('/') && !segments_from(t, i)[k].contains('\\'),
    decreases t.len() + 1 - i,
{
    if i < t.len() {
        let e = segment_end(t, i);
        lemma_segment_end(t, i);
        lemma_segments(t, e + 1);
        let s = t.subrange(i, e);
        assert forall|c: char| is_separator(c) implies !s.contains(c) by {
            if s.contains(c) {
                let k = choose|k: int| 0 <= k < s.len() && s[k] == c;
                assert(s[k] == t[i + k]);
            }
        }
        assert(is_separator('/') && is_separator('\\'));
        let rest = segments_from(t, e + 1);
        assert forall|k: int| 0 <= k < segments_from(t, i).len() implies is_segment(
            #[trigger] segments_from(t, i)[k],
        ) && !segments_from(t, i)[k].contains('/') && !segments_from(t, i)[k].contains('\\') by {
            if is_segment(s) {
                if k > 0 {
                    assert(segments_from(t, i)[k] == rest[k - 1]);
                }
            } else {
                assert(segments_from(t, i)[k] == rest[k]);
            }
        }
    }
}

/// Joining segments by `/` gives a path with those components.
proof fn lemma_joined_parts(s: Seq<Seq<char>>)
    requires
        forall|k: int|
            0 <= k < s.len() ==> is_segment(#[trigger] s[k]) && !s[k].contains('/'),
    ensures
        crate::path::parts(crate::text::joined(s, seq!['/'])) == s,
        s.len() > 0 ==> crate::text::joined(s, seq!['/']).len() > 0,
        s.len() > 0 ==> crate::text::joined(s, seq!['/']).last() != '/',
        s.len() > 0 ==> crate::text::joined(s, seq!['/'])[0] != '/',
    decreases s.len(),
{
    reveal_with_fuel(crate::text::joined, 2);
    let slash = seq!['/'];
    if s.len() == 0 {
        crate::path::lemma_no_parts();
    } else {
        let last = s.last();
        assert(is_segment(last) && !last.contains('/'));
        assert(last[0] != '/' && last[last.len() - 1] != '/');
        crate::path::lemma_single_name(last);
        if s.len() == 1 {
            assert(s == seq![last]);
            assert(crate::text::joined(s, slash) == last);
        } else {
            let front = s.drop_last();
            lemma_joined_parts(front);
            let a = crate::text::joined(front, slash);
            lemma_join_step(s);
            assert(a.push('/') + last == crate::path::path_join(a, last));
            crate::path::join_appends_parts(a, last);
            assert(front + seq![last] == s);
        }
    }
}

/// Joining one segment more.
proof fn lemma_join_step(s: Seq<Seq<char>>)
    requires
        s.len() > 1,
    ensures
        crate::text::joined(s, seq!['/']) == crate::text::joined(s.drop_last(), seq!['/']).push('/')
            + s.last(),
{
    reveal_with_fuel(crate::text::joined, 2);
    let a = crate::text::joined(s.drop_last(), seq!['/']);
    assert(a + seq!['/'] + s.last() == a.push('/') + s.last());
}

/// The path of a client's file name has the name's segments as its components,
/// so it is relative, and every component but `..` names a file or directory.
pub proof fn client_path_is_relative(name: Seq<char>)
    ensures
        crate::path::parts(client_path(name)) == segments(name),
        !crate::path::is_absolute(client_path(name)),
        forall|k: int|
            0 <= k < segments(name).len() && #[trigger] segments(name)[k] != seq!['.', '.']
                ==> crate::path::is_name(segments(name)[k]),
{
    lemma_segments(name, 0);
    lemma_joined_parts(segments(name));
    reveal_with_fuel(crate::text::joined, 2);
    assert forall|k: int|
        0 <= k < segments(name).len() && #[trigger] segments(name)[k] != seq![
            '.',
            '.',
        ] implies crate::path::is_name(segments(name)[k]) by {
        let s = segments(name)[k];
        assert(is_segment(s) && !s.contains('/'));
        if s == seq!['/'] {
            assert(s[0] == '/');
        }
    }
}

/// The path that a client's file name stands for: its segments between
/// separators of either kind, without those that are empty or `.`.
pub fn qbit_file_path(file_name: &str) -> (r: PathBuf)
    ensures
        r@ == client_path(file_name@),
{
    let chars = chars_of(file_name);
    let ghost t = file_name@;
    let mut kept: Vec<String> = Vec::new();
    let mut i: usize = 0;
    assert(crate::text::texts(kept@) + segments_from(t, 0) == segments(t));
    while i < chars.len()
        invariant
            i <= chars@.len(),
            chars@ == t,
            t == file_name@,
            crate::text::texts(kept@) + segments_from(t, i as int) == segments(t),
        decreases t.len() + 1 - i,
    {
        let mut e: usize = i;
        while e < chars.len() && chars[e] != '/' && chars[e] != '\\'
            invariant
                i <= e <= chars@.len(),
                chars@ == t,
                segment_end(t, e as int) == segment_end(t, i as int),
            decreases chars@.len() - e,
        {
            e = e + 1;
        }
        assert(e == segment_end(t, i as int));
        let part = slice(file_name, i, e);
        proof {
            reveal_strlit(".");
            assert("."@ == seq!['.']);
        }
        if i < e && !same_text(part.as_str(), ".") {
            let ghost before = crate::text::texts(kept@);
            kept.push(part);
            proof {
                assert(crate::text::texts(kept@) == before.push(part@));
                assert(before.push(part@) + segments_from(t, e + 1) == before + (seq![part@]
                    + segments_from(t, e + 1)));
            }
        }
        i = if e < chars.len() {
            e + 1
        } else {
            e
        };
    }
    assert(crate::text::texts(kept@) == segments(t));
    proof {
        reveal_strlit("/");
        assert("/"@ == seq!['/']);
    }
    PathBuf::new(join(&kept, "/").as_str())
}

/// The path of a client's file below the book's directory.
pub open spec fn book_file_path(name: Seq<char>) -> Seq<char> {
    let s = segments(name);
    crate::linker::torrent::disc_path(
        s.last(),
        if s.len() >= 2 {
            seq![crate::linker::torrent::disc_of(s[s.len() - 2])]
        } else {
            seq![]
        },
    )
}

/// The path of a client's file below the book's directory: its name, in a
/// directory `Disc N` where the directory right above it is named after the
/// disc `N`.
pub fn library_file_path(file_name: &str) -> (r: PathBuf)
    requires
        segments(file_name@).len() > 0,
    ensures
        r@ == book_file_path(file_name@),
{
    let path = qbit_file_path(file_name);
    let components = path.components();
    proof {
        client_path_is_relative(file_name@);
    }
    let ghost s = segments(file_name@);
    assert(crate::text::texts(components@) == s);
    let n: usize = components.len();
    assert(components@[n - 1]@ == s[n - 1]);
    let mut numbers: Vec<Option<String>> = Vec::new();
    if n >= 2 {
        assert(components@[n - 2]@ == s[n - 2]);
        numbers.push(disc_number(components[n - 2].as_str()));
    }
    proof {
        let want: Seq<Option<Seq<char>>> = if n >= 2 {
            seq![crate::linker::torrent::disc_of(s[n - 2])]
        } else {
            seq![]
        };
        assert(crate::linker::torrent::numbers_of(numbers@) == want);
    }
    disc_file_path(components[n - 1].as_str(), &numbers)
}

/// The plan for one of a client's files.
pub open spec fn client_plan(
    mapping: Seq<(PathBuf, PathBuf)>,
    save_path: Seq<char>,
    name: Seq<char>,
    dir: Seq<char>,
) -> PlanView {
    PlanView {
        download_path: crate::path::path_join(
            crate::linker::common::mapped_path(mapping, save_path),
            client_path(name),
        ),
        library_path: crate::path::path_join(dir, book_file_path(name)),
        relative_library_path: book_file_path(name),
    }
}

/// The plans for the selected files, in the order of the files.
pub open spec fn client_plans(
    mapping: Seq<(PathBuf, PathBuf)>,
    save_path: Seq<char>,
    files: Seq<TorrentContent>,
    audio: Option<Seq<char>>,
    ebook: Option<Seq<char>>,
    dir: Seq<char>,
) -> Seq<PlanView>
    decreases files.len(),
{
    if files.len() == 0 {
        seq![]
    } else {
        let before = client_plans(mapping, save_path, files.drop_last(), audio, ebook, dir);
        if crate::linker::torrent::is_selected(files.last().name@, audio, ebook) {
            before.push(client_plan(mapping, save_path, files.last().name@, dir))
        } else {
            before
        }
    }
}

fn has_ending(name: &str, ending: &Option<String>) -> (r: bool)
    ensures
        r == (crate::text::text_of(*ending) matches Some(e) && crate::text::has_suffix(name@, e)),
{
    match ending {
        Some(e) => ends_with(name, e.as_str()),
        None => false,
    }
}

/// The plans for linking a client's files of the selected formats into a book's
/// directory.
pub fn link_plans(
    qbit_config: &QbitConfig,
    torrent: &QbitTorrent,
    files: &Vec<TorrentContent>,
    selected_audio_format: &Option<String>,
    selected_ebook_format: &Option<String>,
    library_dir: &PathBuf,
) -> (r: Vec<FileLinkPlan>)
    requires
        forall|i: int|
            0 <= i < files@.len() && crate::linker::torrent::is_selected(
                (#[trigger] files@[i]).name@,
                crate::text::text_of(*selected_audio_format),
                crate::text::text_of(*selected_ebook_format),
            ) ==> segments(files@[i].name@).len() > 0,
    ensures
        crate::linker::torrent::plans_of(r@) == client_plans(
            qbit_config.path_mapping@,
            torrent.save_path@,
            files@,
            crate::text::text_of(*selected_audio_format),
            crate::text::text_of(*selected_ebook_format),
            library_dir@,
        ),
{
    let mut plans: Vec<FileLinkPlan> = Vec::new();
    let ghost audio = crate::text::text_of(*selected_audio_format);
    let ghost ebook = crate::text::text_of(*selected_ebook_format);
    let ghost mapping = qbit_config.path_mapping@;
    let mut i: usize = 0;
    while i < files.len()
        invariant
            i <= files@.len(),
            audio == crate::text::text_of(*selected_audio_format),
            ebook == crate::text::text_of(*selected_ebook_format),
            mapping == qbit_config.path_mapping@,
            forall|i: int|
                0 <= i < files@.len() && crate::linker::torrent::is_selected(
                    (#[trigger] files@[i]).name@,
                    audio,
                    ebook,
                ) ==> segments(files@[i].name@).len() > 0,
            crate::linker::torrent::plans_of(plans@) == client_plans(
                mapping,
                torrent.save_path@,
                files@.take(i as int),
                audio,
                ebook,
                library_dir@,
            ),
        decreases files@.len() - i,
    {
        let name = files[i].name.as_str();
        let ghost now = files@.take(i + 1);
        proof {
            assert(now.drop_last() == files@.take(i as int));
            assert(now.last() == files@[i as int]);
        }
        if has_ending(name, selected_audio_format) || has_ending(name, selected_ebook_format) {
            let file_path = library_file_path(name);
            let library_path = library_dir.join(file_path.as_str());
            let download_path = map_path(
                &qbit_config.path_mapping,
                torrent.save_path.as_str(),
            ).join(qbit_file_path(name).as_str());
            let ghost before = crate::linker::torrent::plans_of(plans@);
            let plan = FileLinkPlan {
                download_path,
                library_path,
                relative_library_path: file_path,
            };
            plans.push(plan);
            assert(crate::linker::torrent::plans_of(plans@) == before.push(plan@));
        }
        i = i + 1;
    }
    assert(files@.take(i as int) == files@);
    plans
}

/// The files of the selected formats have names in the client.
pub open spec fn has_client_names(
    files: Seq<TorrentContent>,
    audio: Option<Seq<char>>,
    ebook: Option<Seq<char>>,
) -> bool {
    forall|i: int|
        0 <= i < files.len() && crate::linker::torrent::is_selected(
            (#[trigger] files[i]).name@,
            audio,
            ebook,
        ) ==> segments(files[i].name@).len() > 0
}

/// Where the book of a client's torrent goes. A book without an author has no
/// place in a library that links files.
pub fn client_place(
    config: &Config,
    qbit_config: &QbitConfig,
    torrent: &QbitTorrent,
    library: &Library,
    files: &Vec<TorrentContent>,
    selected_audio_format: &Option<String>,
    selected_ebook_format: &Option<String>,
    meta: &TorrentMeta,
    dir_exists: bool,
) -> (r: Result<BookPlace, LinkError>)
    requires
        crate::linker::relink::has_place_dirs(*config, *library, meta@, dir_exists),
        library.opts().method != LibraryLinkMethod::NoLink ==> has_client_names(
            files@,
            crate::text::text_of(*selected_audio_format),
            crate::text::text_of(*selected_ebook_format),
        ),
    ensures
        r is Err <==> library.opts().method != LibraryLinkMethod::NoLink && meta@.authors.len()
            == 0,
        match r {
            Ok(place) => place.fits(*library) && (place.dir matches Some(dir) ==> {
                &&& crate::linker::relink::link_dir(
                    config.exclude_narrator_in_library_dir,
                    *library,
                    meta@,
                    dir_exists,
                ) == Some(dir@)
                &&& crate::linker::torrent::plans_of(place.plans@) == client_plans(
                    qbit_config.path_mapping@,
                    torrent.save_path@,
                    files@,
                    crate::text::text_of(*selected_audio_format),
                    crate::text::text_of(*selected_ebook_format),
                    dir@,
                )
            }),
            Err(e) => e == LinkError::NoAuthor,
        },
{
    match resolve_link_library_dir(config, library, meta, dir_exists) {
        Err(e) => Err(e),
        Ok(None) => Ok(BookPlace { dir: None, plans: Vec::new() }),
        Ok(Some(dir)) => {
            let plans = link_plans(
                qbit_config,
                torrent,
                files,
                selected_audio_format,
                selected_ebook_format,
                &dir,
            );
            Ok(BookPlace { dir: Some(dir), plans })
        },
    }
}

/// A planned file stays below the book's directory, unless the client's name
/// for it ends in `..`.
pub proof fn planned_file_stays_inside(
    mapping: Seq<(PathBuf, PathBuf)>,
    save_path: Seq<char>,
    name: Seq<char>,
    dir: Seq<char>,
)
    requires
        segments(name).len() > 0,
        segments(name).last() != seq!['.', '.'],
    ensures
        crate::path::lies_under(client_plan(mapping, save_path, name, dir).library_path, dir),
{
    client_path_is_relative(name);
    lemma_segments(name, 0);
    let s = segments(name);
    let file = s.last();
    assert(is_segment(s[s.len() - 1]) && !s[s.len() - 1].contains('/'));
    assert(file[0] != '/');
    reveal_strlit("Disc ");
    let p = book_file_path(name);
    reveal_with_fuel(crate::linker::torrent::last_number, 2);
    assert(p[0] == 'D' || p == file);
    crate::path::join_stays_under(dir, p);
}

proof fn lemma_segment_end_at(t: Seq<char>, i: int, e: int)
    requires
        0 <= i <= e <= t.len(),
        forall|k: int| i <= k < e ==> !is_separator(#[trigger] t[k]),
        e < t.len() ==> is_separator(t[e]),
    ensures
        segment_end(t, i) == e,
    decreases e - i,
{
    if i < e {
        assert(!is_separator(t[i]));
        lemma_segment_end_at(t, i + 1, e);
    }
}

proof fn lemma_segments_shift(t: Seq<char>, b: Seq<char>, n: int, i: int)
    requires
        0 <= n,
        0 <= i,
        t.len() == n + b.len(),
        t.skip(n) == b,
    ensures
        segments_from(t, n + i) == segments_from(b, i),
    decreases b.len() + 1 - i,
{
    if i < b.len() {
        lemma_segment_end(b, i);
        let e = segment_end(b, i);
        assert forall|k: int| n + i <= k < n + e implies !is_separator(#[trigger] t[k]) by {
            assert(t[k] == t.skip(n)[k - n]);
            assert(!is_separator(b[k - n]));
        }
        if e < b.len() {
            assert(t[n + e] == t.skip(n)[e]);
        }
        lemma_segment_end_at(t, n + i, n + e);
        assert(t.subrange(n + i, n + e) == b.subrange(i, e)) by {
            assert forall|k: int| i <= k < e implies t[n + k] == b[k] by {
                assert(t.skip(n)[k] == t[n + k]);
            }
        }
        lemma_segments_shift(t, b, n, e + 1);
    }
}

/// A client's file name is cut at slashes and at backslashes; what stands before
/// the first one is a segment, unless it is empty or `.`, and those of the rest
/// follow.
pub proof fn name_is_cut_at_separators(first: Seq<char>, separator: char, rest: Seq<char>)
    requires
        separator == '/' || separator == '\\',
        !first.contains('/'),
        !first.contains('\\'),
    ensures
        first.len() > 0 && first != seq!['.'] ==> segments(first.push(separator) + rest) == seq![
            first,
        ] + segments(rest) && segments(first) == seq![first],
        first.len() == 0 || first == seq!['.'] ==> segments(first.push(separator) + rest)
            == segments(rest) && segments(first).len() == 0,
{
    let t = first.push(separator) + rest;
    let n = first.len() as int;
    assert forall|k: int| 0 <= k < n implies !is_separator(#[trigger] t[k]) by {
        assert(t[k] == first[k]);
    }
    assert forall|k: int| 0 <= k < n implies !is_separator(#[trigger] first[k]) by {
        assert(first.contains(first[k]));
    }
    assert(t[n] == separator);
    lemma_segment_end_at(t, 0, n);
    lemma_segment_end_at(first, 0, n);
    assert(t.subrange(0, n) == first);
    assert(first.subrange(0, n) == first);
    assert(t.skip(n + 1) == rest);
    lemma_segments_shift(t, rest, n + 1, 0);
    assert(segments_from(first, n + 1) == Seq::<Seq<char>>::empty());
    assert(seq![first] + Seq::<Seq<char>>::empty() == seq![first]);
}

/// A client's file keeps the last segment of its name below the book's
/// directory, in a directory named after the disc where the directory right
/// above it is named after one.
pub proof fn client_file_goes_into_disc_above(name: Seq<char>)
    requires
        segments(name).len() > 0,
        segments(name).last() != seq!['.', '.'],
        segments(name).len() >= 2 ==> (crate::linker::torrent::disc_of(
            segments(name)[segments(name).len() - 2],
        ) matches Some(n) ==> !n.contains('/')),
    ensures
        ({
            let s = segments(name);
            let p = crate::path::parts(book_file_path(name));
            &&& s.len() == 1 ==> p == seq![s[0]]
            &&& s.len() >= 2 ==> (crate::linker::torrent::disc_of(s[s.len() - 2]) matches Some(n)
                ==> p == seq!["Disc "@ + n, s.last()])
            &&& s.len() >= 2 && crate::linker::torrent::disc_of(s[s.len() - 2]) is None ==> p
                == seq![s.last()]
        }),
{
    let s = segments(name);
    let file = s.last();
    lemma_segments(name, 0);
    assert(is_segment(s[s.len() - 1]));
    client_path_is_relative(name);
    assert(crate::path::is_name(s[s.len() - 1]));
    crate::path::lemma_single_name(file);
    reveal_with_fuel(crate::linker::torrent::last_number, 2);
    if s.len() >= 2 {
        let d = crate::linker::torrent::disc_of(s[s.len() - 2]);
        let numbers = seq![d];
        assert(numbers.last() == d);
        if d is Some {
            crate::linker::torrent::lemma_disc_file(d.unwrap(), file);
        } else {
            assert(numbers.drop_last() == Seq::<Option<Seq<char>>>::empty());
        }
    }
}

/// The plans for two lists of a client's files together are those for the first
/// list, then those for the second; a file whose name has neither of the
/// selected endings has none.
pub proof fn client_plans_follow_files(
    mapping: Seq<(PathBuf, PathBuf)>,
    save_path: Seq<char>,
    files: Seq<TorrentContent>,
    file: TorrentContent,
    audio: Option<Seq<char>>,
    ebook: Option<Seq<char>>,
    dir: Seq<char>,
    stem: Seq<char>,
    ending: Seq<char>,
)
    requires
        file.name@ == stem + ending,
    ensures
        ({
            let before = client_plans(mapping, save_path, files, audio, ebook, dir);
            let all = client_plans(mapping, save_path, files.push(file), audio, ebook, dir);
            &&& all.len() <= before.len() + 1
            &&& all.take(before.len() as int) == before
            &&& audio == Some(ending) || ebook == Some(ending) ==> all.len() == before.len() + 1
            &&& audio is None && ebook is None ==> all.len() == before.len()
            &&& all.len() == before.len() + 1 ==> {
                let p = all.last();
                &&& p.download_path == crate::path::path_join(
                    crate::linker::common::mapped_path(mapping, save_path),
                    client_path(file.name@),
                )
                &&& p.library_path == crate::path::path_join(dir, p.relative_library_path)
                &&& p.relative_library_path == book_file_path(file.name@)
            }
        }),
        client_plans(mapping, save_path, seq![], audio, ebook, dir).len() == 0,
{
    let before = client_plans(mapping, save_path, files, audio, ebook, dir);
    assert(files.push(file).drop_last() == files);
    assert(files.push(file).last() == file);
    assert(file.name@.skip(stem.len() as int) == ending);
    assert(before.take(before.len() as int) == before);
    let p = client_plan(mapping, save_path, file.name@, dir);
    assert(before.push(p).take(before.len() as int) == before);
}

/// The torrent's tags, as the client lists them: with `, ` between them.
pub open spec fn listed_tags(tags: Seq<char>) -> Seq<Seq<char>> {
    crate::text::pieces(tags, ", "@)
}

/// The first library that takes the torrent by its listed tags.
pub open spec fn listed_taker(config: Config, t: QbitTorrent) -> Option<int> {
    crate::linker::torrent::first_taker(config.libraries@, t, listed_tags(t.tags@), 0)
}

/// The place of the first library that takes the torrent: by where it is saved
/// or by its category, and by the tags that the client lists with `, ` between
/// them.
pub fn find_library_index(config: &Config, torrent: &QbitTorrent) -> (r: Option<usize>)
    ensures
        r is Some == listed_taker(*config, *torrent) is Some,
        r matches Some(i) ==> i < config.libraries@.len() && listed_taker(*config, *torrent)
            == Some(i as int),
{
    proof {
        reveal_strlit(", ");
    }
    find_taker(config, torrent, &split(torrent.tags.as_str(), ", "))
}

/// The first library that takes the torrent.
pub fn find_library<'a>(config: &'a Config, torrent: &QbitTorrent) -> (r: Option<&'a Library>)
    ensures
        match listed_taker(*config, *torrent) {
            Some(i) => r == Some(&config.libraries@[i]),
            None => r is None,
        },
{
    match find_library_index(config, torrent) {
        Some(i) => Some(&config.libraries[i]),
        None => None,
    }
}

/// The record with the library's name and the client's category in it.
pub open spec fn named_torrent(
    library: Option<crate::linker::torrent::LibraryView>,
    category: Seq<char>,
    t: TorrentView,
) -> TorrentView {
    TorrentView {
        linker: match library {
            Some(l) => l.name,
            None => None,
        },
        category: crate::linker::torrent::client_category(category),
        ..t
    }
}

/// The step that writes the library's name and the client's category.
pub open spec fn names(config: Config, t: QbitTorrent, existing: TorrentView, r: LinkStep) -> bool {
    let named = named_torrent(
        crate::linker::progress::taker_view(config, listed_taker(config, t)),
        t.category@,
        existing,
    );
    &&& r.state matches LinkState::Naming(s) && s@ == named
    &&& r.action matches LinkAction::Save { torrent, events }
        && crate::linker::progress::torrent_of(torrent) == (if named == existing {
        None
    } else {
        Some(named)
    }) && events@.len() == 0
}

/// The record that a step brings up to date has the directory names that the
/// update looks at.
pub open spec fn has_run_dirs(
    config: Config,
    t: QbitTorrent,
    state: LinkState,
    event: LinkEvent,
) -> bool {
    let exclude = config.exclude_narrator_in_library_dir;
    let library = crate::linker::progress::taker_view(config, listed_taker(config, t));
    match (state, event) {
        (LinkState::Naming(e), LinkEvent::Saved) => e.client_status is Some
            ==> crate::linker::torrent::has_update_dirs(exclude, library, e@),
        (
            LinkState::Tracking(e),
            LinkEvent::Trackers(Some(_)),
        ) => crate::linker::torrent::has_update_dirs(exclude, library, e@),
        _ => true,
    }
}

fn name_record(config: &Config, torrent: &QbitTorrent, library: Option<usize>, existing: Torrent)
    -> (r: LinkStep)
    requires
        library is Some == listed_taker(*config, *torrent) is Some,
        library matches Some(i) ==> i < config.libraries@.len() && listed_taker(*config, *torrent)
            == Some(i as int),
    ensures
        names(*config, *torrent, existing@, r),
        !r.remove_selected,
{
    let ghost start = existing@;
    let name: Option<String> = match library {
        Some(i) => clone_option(&config.libraries[i].options().name),
        None => None,
    };
    let category: Option<String> = if torrent.category.as_str().unicode_len() == 0 {
        None
    } else {
        Some(torrent.category.clone())
    };
    let mut named = existing;
    let mut changed = false;
    if !same_option(&named.linker, &name) {
        named.linker = name;
        changed = true;
    }
    if !same_option(&named.category, &category) {
        named.category = category;
        changed = true;
    }
    let ghost goal = named_torrent(
        crate::linker::progress::taker_view(*config, listed_taker(*config, *torrent)),
        torrent.category@,
        start,
    );
    assert(named@ == goal);
    assert(changed == (goal != start));
    let written = if changed {
        Some(named.clone())
    } else {
        None
    };
    LinkStep {
        state: LinkState::Naming(named),
        remove_selected: false,
        action: LinkAction::Save { torrent: written, events: Vec::new() },
    }
}

/// Brings the rest of a record up to date; the history tells the tracker's id
/// of a torrent that the tracker dropped.
fn save_record(
    config: &Config,
    torrent: &QbitTorrent,
    library: Option<usize>,
    existing: Torrent,
    trackers: &Vec<crate::model::Tracker>,
) -> (r: LinkStep)
    requires
        library matches Some(i) ==> i < config.libraries@.len(),
        crate::linker::torrent::has_update_dirs(
            config.exclude_narrator_in_library_dir,
            crate::linker::progress::taker_view(
                *config,
                crate::linker::progress::place_of(library),
            ),
            existing@,
        ),
    ensures
        crate::linker::progress::saves(
            *config,
            *torrent,
            crate::linker::progress::place_of(library),
            existing@,
            trackers@,
            existing.mam_id,
            r,
        ),
        !r.remove_selected,
{
    let mam_id = existing.mam_id;
    let step = save(config, torrent, library, existing, trackers);
    match step.action {
        LinkAction::Save { torrent: written, events } => {
            let mut told: Vec<Event> = Vec::new();
            if events.len() > 0 {
                told.push(
                    Event::new(
                        Some(torrent.hash.clone()),
                        mam_id,
                        EventType::RemovedFromTracker,
                    ),
                );
            }
            proof {
                let e = events@.map_values(|e: Event| e@);
                assert(e.len() == events@.len());
                if events@.len() > 0 {
                    assert(told@.map_values(|e: Event| e@) == seq![told@[0]@]);
                } else {
                    assert(told@.map_values(|e: Event| e@) == Seq::<EventView>::empty());
                }
            }
            LinkStep {
                state: step.state,
                remove_selected: false,
                action: LinkAction::Save { torrent: written, events: told },
            }
        },
        action => LinkStep { state: step.state, remove_selected: false, action },
    }
}

/// The next step of a run over the client's torrents. It goes as for a single
/// torrent, but for three things: the library's name and the category are
/// written before the trackers are asked for; a client that does not tell the
/// trackers ends the run; and the history tells the tracker's id of a torrent
/// that the tracker dropped.
pub fn run_step(config: &Config, torrent: &QbitTorrent, state: LinkState, event: LinkEvent) -> (r:
    LinkStep)
    requires
        has_run_dirs(*config, *torrent, state, event),
    ensures
        match (state, event) {
            (LinkState::Listed, LinkEvent::Found { finished }) => if finished {
                r.state is Loading && r.action is Load && !r.remove_selected
            } else {
                r.state is Finished && r.action is Skip && !r.remove_selected
            },
            (LinkState::Loading, LinkEvent::Loaded { existing, selected }) => r.remove_selected
                == selected && match existing {
                None => crate::linker::progress::decides(
                    *config,
                    listed_taker(*config, *torrent),
                    None,
                    r,
                ),
                Some(e) => names(*config, *torrent, e@, r),
            },
            (LinkState::Naming(e), LinkEvent::Saved) => !r.remove_selected && (
            if e.client_status is None {
                r.action is FetchTrackers && (r.state matches LinkState::Tracking(t) && t == e)
            } else {
                crate::linker::progress::saves(
                    *config,
                    *torrent,
                    listed_taker(*config, *torrent),
                    e@,
                    seq![],
                    e.mam_id,
                    r,
                )
            }),
            (LinkState::Tracking(e), LinkEvent::Trackers(trackers)) => !r.remove_selected
                && match trackers {
                None => r.state is Finished && r.action is Abort,
                Some(v) => crate::linker::progress::saves(
                    *config,
                    *torrent,
                    listed_taker(*config, *torrent),
                    e@,
                    v@,
                    e.mam_id,
                    r,
                ),
            },
            (LinkState::Saving(e), LinkEvent::Saved) => !r.remove_selected
                && crate::linker::progress::decides(
                *config,
                listed_taker(*config, *torrent),
                Some(e@),
                r,
            ),
            _ => r.state is Finished && r.action is Skip && !r.remove_selected,
        },
        state is Finished || crate::linker::progress::link_stage(r.state)
            > crate::linker::progress::link_stage(state),
{
    let library = find_library_index(config, torrent);
    match (state, event) {
        (LinkState::Listed, LinkEvent::Found { finished }) => {
            if finished {
                LinkStep {
                    state: LinkState::Loading,
                    remove_selected: false,
                    action: LinkAction::Load,
                }
            } else {
                LinkStep {
                    state: LinkState::Finished,
                    remove_selected: false,
                    action: LinkAction::Skip,
                }
            }
        },
        (LinkState::Loading, LinkEvent::Loaded { existing, selected }) => {
            let step = match existing {
                None => decide(config, library, None),
                Some(e) => name_record(config, torrent, library, e),
            };
            LinkStep { state: step.state, remove_selected: selected, action: step.action }
        },
        (LinkState::Naming(e), LinkEvent::Saved) => {
            if e.client_status.is_none() {
                LinkStep {
                    state: LinkState::Tracking(e),
                    remove_selected: false,
                    action: LinkAction::FetchTrackers,
                }
            } else {
                save_record(config, torrent, library, e, &Vec::new())
            }
        },
        (LinkState::Tracking(e), LinkEvent::Trackers(trackers)) => match trackers {
            None => LinkStep {
                state: LinkState::Finished,
                remove_selected: false,
                action: LinkAction::Abort,
            },
            Some(v) => save_record(config, torrent, library, e, &v),
        },
        (LinkState::Saving(e), LinkEvent::Saved) => decide(config, library, Some(e)),
        _ => LinkStep {
            state: LinkState::Finished,
            remove_selected: false,
            action: LinkAction::Skip,
        },
    }
}

/// Writing the library's name and the category first changes nothing in what
/// the record comes to.
pub proof fn naming_first_changes_nothing(
    exclude: bool,
    library: Option<crate::linker::torrent::LibraryView>,
    category: Seq<char>,
    trackers: Seq<crate::model::Tracker>,
    t: TorrentView,
)
    ensures
        crate::linker::torrent::updated_torrent(
            exclude,
            library,
            category,
            trackers,
            named_torrent(library, category, t),
        ) == crate::linker::torrent::updated_torrent(exclude, library, category, trackers, t),
{
}

/// The next step in matching a torrent of a run. It goes as for a single
/// torrent, but for two things: a torrent that the tracker does not know is left
/// as it is in the client, and the tracker's description stands alone, without
/// what was known before.
pub fn run_match_step(
    config: &Config,
    qbit_config: &QbitConfig,
    hash: &str,
    library: &Library,
    state: MatchState,
    event: MatchEvent,
) -> (r: MatchStep)
    ensures
        match (state, event) {
            (MatchState::Mam { .. }, MatchEvent::Mam(None)) => crate::linker::progress::match_fails(
                seq![],
                LinkError::NotOnMam,
                r,
            ),
            (MatchState::Meta { audio, ebook, existing }, MatchEvent::Meta(Ok(meta))) => r.state
                is Finished && r.remove is None && (r.action matches MatchAction::Link {
                audio: a,
                ebook: e,
                existing: x,
                meta: m,
            } && a == audio && e == ebook && x == existing && m@ == meta@),
            _ => crate::linker::progress::matches_on(
                *config,
                *qbit_config,
                hash@,
                *library,
                state,
                event,
                r,
            ),
        },
        state is Finished || crate::linker::progress::match_stage(r.state)
            > crate::linker::progress::match_stage(state),
{
    match (state, event) {
        (MatchState::Mam { .. }, MatchEvent::Mam(None)) => {
            let r = MatchStep {
                state: MatchState::Finished,
                remove: None,
                action: MatchAction::Fail { client: Vec::new(), error: LinkError::NotOnMam },
            };
            proof {
                let c: Seq<crate::linker::progress::ClientStep> = r.action->client@;
                assert(crate::linker::progress::client_steps_of(c) == Seq::<
                    crate::linker::progress::ClientStepView,
                >::empty());
            }
            r
        },
        (MatchState::Meta { audio, ebook, existing }, MatchEvent::Meta(Ok(meta))) => MatchStep {
            state: MatchState::Finished,
            remove: None,
            action: MatchAction::Link { audio, ebook, existing, meta },
        },
        (state, event) => match_step(config, qbit_config, hash, library, state, event),
    }
}

/// The next step in relinking a book of the server. It goes as for a single
/// torrent, but the library is chosen by the tags that the client lists.
pub fn run_relink_step(
    config: &Config,
    torrent: &QbitTorrent,
    state: RelinkState,
    event: RelinkEvent,
) -> (r: RelinkStep)
    requires
        crate::linker::course::has_library(*config, state),
        crate::linker::course::has_relink_dirs(*config, event),
    ensures
        crate::linker::course::has_library(*config, r.state),
        crate::linker::course::relinks_on(
            *config,
            listed_taker(*config, *torrent),
            state,
            event,
            r,
        ),
{
    relink_on(config, find_library_index(config, torrent), state, event)
}

/// Replaces a record's metadata by what was fetched. Tells whether that made a
/// difference.
pub fn refresh_metadata(torrent: &mut Torrent, fetched: TorrentMeta) -> (r: bool)
    ensures
        final(torrent)@ == (TorrentView { meta: fetched@, ..old(torrent)@ }),
        r == (old(torrent)@.meta != fetched@),
{
    if torrent.meta.is_same(&fetched) {
        return false;
    }
    torrent.meta = fetched;
    true
}

/// A torrent's record as the server keeps it.
pub struct ServerTorrent {
    pub record: Torrent,
    pub abs_id: Option<String>,
    pub goodreads_id: Option<u64>,
    pub request_metadata_update: bool,
}

/// The server's record of a torrent whose files were linked: what an earlier
/// record knew of other catalogues stays, and a request for new metadata is
/// settled. The other arguments are those of `linked_torrent`.
pub fn linked_server_torrent(
    hash: &str,
    qbit_category: &str,
    library: &Library,
    place: &BookPlace,
    selected_audio_format: Option<String>,
    selected_ebook_format: Option<String>,
    existing: Option<&ServerTorrent>,
    meta: &TorrentMeta,
    mam_id: u64,
    title_search: String,
    now: i64,
) -> (r: ServerTorrent)
    requires
        place.fits(*library),
    ensures
        r.record.library_path is None <==> library.opts().method == LibraryLinkMethod::NoLink,
        r.record.library_path is None ==> r.record@.library_files.len() == 0,
        crate::path::is_sorted_texts(place.file_texts(), r.record@.library_files),
        r.record@ == (TorrentView {
            id: hash@,
            id_is_hash: true,
            mam_id: Some(mam_id),
            library_path: crate::model::path_of(place.dir),
            library_files: r.record@.library_files,
            linker: crate::text::text_of(library.opts().name),
            category: crate::linker::torrent::client_category(qbit_category@),
            selected_audio_format: crate::text::text_of(selected_audio_format),
            selected_ebook_format: crate::text::text_of(selected_ebook_format),
            title_search: title_search@,
            meta: meta@,
            created_at: match existing {
                Some(t) => t.record.created_at,
                None => now,
            },
            replaced_with: match existing {
                Some(t) => t.record@.replaced_with,
                None => None,
            },
            library_mismatch: None,
            client_status: match existing {
                Some(t) => t.record.client_status,
                None => None,
            },
        }),
        match existing {
            Some(t) => crate::text::text_of(r.abs_id) == crate::text::text_of(t.abs_id)
                && r.goodreads_id == t.goodreads_id,
            None => r.abs_id is None && r.goodreads_id is None,
        },
        !r.request_metadata_update,
{
    let known: Option<&Torrent> = match existing {
        Some(t) => Some(&t.record),
        None => None,
    };
    let record = linked_torrent(
        hash,
        qbit_category,
        library,
        place,
        selected_audio_format,
        selected_ebook_format,
        known,
        meta,
        Some(mam_id),
        title_search,
        now,
    );
    let (abs_id, goodreads_id) = match existing {
        Some(t) => (clone_option(&t.abs_id), t.goodreads_id),
        None => (None, None),
    };
    ServerTorrent { record, abs_id, goodreads_id, request_metadata_update: false }
}

/// The tags that a client lists are what stands between the commas with a space
/// behind them.
pub proof fn listed_tags_make_up_text(tags: Seq<char>)
    ensures
        crate::text::joined(listed_tags(tags), ", "@) == tags,
        forall|i: int|
            0 <= i < listed_tags(tags).len() ==> !crate::text::contains_text(
                #[trigger] listed_tags(tags)[i],
                ", "@,
            ),
{
    reveal_strlit(", ");
    crate::text::pieces_make_up_text(tags, ", "@);
}

/// Naming a record gives it the library's name and the client's category, an
/// empty one as none, and changes nothing else of it.
pub proof fn naming_changes_only_names(
    library: Option<crate::linker::torrent::LibraryView>,
    category: Seq<char>,
    t: TorrentView,
)
    ensures
        ({
            let r = named_torrent(library, category, t);
            &&& library matches Some(l) ==> r.linker == l.name
            &&& library is None ==> r.linker is None
            &&& category.len() > 0 ==> r.category == Some(category)
            &&& category.len() == 0 ==> r.category is None
            &&& r == (TorrentView { linker: r.linker, category: r.category, ..t })
        }),
{
}

/// The step that names a record writes it exactly when that makes it another
/// one, and the course goes on with the named record.
pub proof fn named_record_is_saved(config: Config, t: QbitTorrent, existing: TorrentView, r: LinkStep)
    requires
        names(config, t, existing, r),
    ensures
        r.state matches LinkState::Naming(s) && {
            &&& s@.meta == existing.meta
            &&& s@.library_path == existing.library_path
            &&& t.category@.len() > 0 ==> s@.category == Some(t.category@)
            &&& r.action matches LinkAction::Save { torrent, events } && events@.len() == 0 && (
            torrent is Some <==> s@ != existing) && (torrent matches Some(x) ==> x@ == s@)
        },
        listed_taker(config, t) matches Some(i) ==> (r.state matches LinkState::Naming(s)
            && s@.linker == crate::text::text_of(config.libraries@[i].opts().name)),
        listed_taker(config, t) is None ==> (r.state matches LinkState::Naming(s) && s@.linker
            is None),
{
}

} // verus!
