//! Torrents: which library takes one, where its files go, and what has changed
//! since it was linked.
use vstd::prelude::*;
use vstd::string::*;

use crate::linker::common::{has_dir_name, library_dir, map_path};
use crate::model::{
    ClientStatus, Config, Event, EventType, EventTypeView, EventView, Library, LibraryMismatch,
    LibraryTagFilters, MismatchView, QbitConfig, QbitTorrent, Torrent, TorrentContent,
    TorrentView, Tracker,
};
use crate::outside::capture_first;
use crate::path::PathBuf;
use crate::text::{
    clone_option, concat, ends_with, has_entry, same_option, same_text, split, trim,
};

verus! {

/// The expression by which a directory name tells the number of a disc.
pub const DISK_PATTERN: &'static str = "(?:CD|Disc|Disk)\\s*(\\d+)";

/// The number of the disc that a directory is named after.
pub open spec fn disc_of(dir: Seq<char>) -> Option<Seq<char>> {
    if crate::path::is_name(dir) {
        crate::outside::first_group(DISK_PATTERN@, dir)
    } else {
        None
    }
}

/// The last of the numbers that is there.
pub open spec fn last_number(numbers: Seq<Option<Seq<char>>>) -> Option<Seq<char>>
    decreases numbers.len(),
{
    if numbers.len() == 0 {
        None
    } else if numbers.last() is Some {
        numbers.last()
    } else {
        last_number(numbers.drop_last())
    }
}

/// The path of a file below the book's directory, where the directories above it
/// are named after discs with the given numbers: its name, in a directory
/// `Disc N` where one of them has a number, `N` being that of the nearest.
pub open spec fn disc_path(file: Seq<char>, numbers: Seq<Option<Seq<char>>>) -> Seq<char> {
    match last_number(numbers) {
        Some(n) => crate::path::path_join("Disc "@ + n, file),
        None => file,
    }
}

/// The path of a torrent's file below the book's directory.
pub open spec fn library_file_path(file: Seq<char>) -> Seq<char> {
    let p = crate::path::parts(file);
    disc_path(p.last(), p.drop_last().map_values(|d: Seq<char>| disc_of(d)))
}

/// A path that is not empty has a component.
proof fn lemma_has_parts(t: Seq<char>)
    requires
        t.len() > 0,
    ensures
        crate::path::parts(t).len() > 0,
{
    crate::path::lemma_spans(t);
    if !crate::path::is_absolute(t) {
        let e = crate::path::name_end(t, 0);
        crate::path::lemma_first_name(t);
    }
}

pub proof fn lemma_disc_file(n: Seq<char>, file: Seq<char>)
    requires
        !n.contains('/'),
        !file.contains('/'),
        file.len() > 0,
        crate::path::is_name(file),
    ensures
        crate::path::parts(crate::path::path_join("Disc "@ + n, file)) == seq!["Disc "@ + n, file],
{
    let d = "Disc "@ + n;
    reveal_strlit("Disc ");
    assert(d[0] == 'D');
    assert forall|i: int| 0 <= i < d.len() implies d[i] != '/' by {
        if i >= 5 {
            assert(d[i] == n[i - 5]);
        }
    }
    crate::path::lemma_single_name(d);
    crate::path::lemma_single_name(file);
    assert(file[0] != '/');
    crate::path::join_appends_parts(d, file);
    assert(seq![d] + seq![file] == seq![d, file]);
}

pub open spec fn numbers_of(v: Seq<Option<String>>) -> Seq<Option<Seq<char>>> {
    v.map_values(|o: Option<String>| crate::text::text_of(o))
}

/// The path of a file below the book's directory: its name, in a directory
/// `Disc N` where one of the directories above it has a number, `N` being that
/// of the nearest. `numbers` are those of the directories, the nearest last.
pub fn disc_file_path(file: &str, numbers: &Vec<Option<String>>) -> (r: PathBuf)
    ensures
        r@ == disc_path(file@, numbers_of(numbers@)),
{
    let ghost all = numbers_of(numbers@);
    let mut i: usize = numbers.len();
    assert(all.take(i as int) == all);
    while i > 0
        invariant
            i <= numbers@.len(),
            all == numbers_of(numbers@),
            last_number(all) == last_number(all.take(i as int)),
        decreases i,
    {
        i = i - 1;
        proof {
            assert(all.take(i + 1).last() == all[i as int]);
            assert(all.take(i + 1).drop_last() == all.take(i as int));
        }
        match &numbers[i] {
            Some(number) => {
                return PathBuf::new(concat("Disc ", number.as_str()).as_str()).join(file);
            },
            None => {},
        }
    }
    PathBuf::new(file)
}

/// The number of the disc that a directory is named after.
pub fn disc_number(dir: &str) -> (r: Option<String>)
    ensures
        crate::text::text_of(r) == disc_of(dir@),
        r matches Some(n) ==> exists|a: int, b: int|
            0 <= a <= b <= dir@.len() && n@ == #[trigger] dir@.subrange(a, b),
{
    if crate::path::is_plain_name(dir) {
        capture_first(DISK_PATTERN, dir)
    } else {
        None
    }
}

/// Numbers that hold no separator.
spec fn are_plain(numbers: Seq<Option<Seq<char>>>) -> bool {
    forall|i: int| 0 <= i < numbers.len() ==> (#[trigger] numbers[i] matches Some(n)
        ==> !n.contains('/'))
}

proof fn lemma_disc_path(file: Seq<char>, numbers: Seq<Option<Seq<char>>>)
    requires
        are_plain(numbers),
        file.len() > 0,
        !file.contains('/'),
        crate::path::is_name(file),
    ensures
        ({
            let p = crate::path::parts(disc_path(file, numbers));
            p == seq![file] || (p.len() == 2 && p[1] == file && crate::text::has_prefix(
                p[0],
                "Disc "@,
            ))
        }),
    decreases numbers.len(),
{
    if numbers.len() == 0 {
        crate::path::lemma_single_name(file);
    } else if numbers.last() is Some {
        let n = numbers.last().unwrap();
        assert(numbers[numbers.len() - 1] == Some(n));
        lemma_disc_file(n, file);
        assert(("Disc "@ + n).take("Disc "@.len() as int) == "Disc "@);
    } else {
        let rest = numbers.drop_last();
        assert forall|i: int| 0 <= i < rest.len() implies (#[trigger] rest[i] matches Some(n)
            ==> !n.contains('/')) by {
            assert(rest[i] == numbers[i]);
        }
        lemma_disc_path(file, rest);
    }
}

/// The path of a torrent's file below the book's directory: its name, in a
/// directory `Disc N` where the nearest directory above it that is named after
/// a disc has the number `N`.
pub fn calculate_library_file_path(torrent_file_path: &str) -> (r: PathBuf)
    requires
        torrent_file_path@.len() > 0,
    ensures
        r@ == library_file_path(torrent_file_path@),
        crate::path::is_name(crate::path::parts(torrent_file_path@).last()) ==> {
            let file = crate::path::parts(torrent_file_path@).last();
            let p = crate::path::parts(r@);
            p == seq![file] || (p.len() == 2 && p[1] == file && crate::text::has_prefix(
                p[0],
                "Disc "@,
            ))
        },
{
    let path = PathBuf::new(torrent_file_path);
    let components = path.components();
    let ghost p = crate::path::parts(torrent_file_path@);
    proof {
        lemma_has_parts(torrent_file_path@);
        crate::path::lemma_parts_plain(torrent_file_path@);
    }
    let last: usize = components.len() - 1;
    let file = components[last].as_str();
    assert(file@ == p.last());
    let ghost want = p.drop_last().map_values(|d: Seq<char>| disc_of(d));
    let mut numbers: Vec<Option<String>> = Vec::new();
    let mut i: usize = 0;
    assert(numbers_of(numbers@) == want.take(0));
    while i < last
        invariant
            i <= last,
            last + 1 == components@.len() == p.len(),
            crate::text::texts(components@) == p,
            want == p.drop_last().map_values(|d: Seq<char>| disc_of(d)),
            numbers_of(numbers@) == want.take(i as int),
            are_plain(want.take(i as int)),
            forall|k: int|
                0 <= k < p.len() && crate::path::is_name(#[trigger] p[k]) ==> p[k].len() > 0
                    && !p[k].contains('/'),
        decreases last - i,
    {
        let dir = components[i].as_str();
        let ghost before = numbers_of(numbers@);
        assert(dir@ == p[i as int]);
        let number = disc_number(dir);
        proof {
            assert(want[i as int] == disc_of(dir@));
            assert(want.take(i + 1) == want.take(i as int).push(want[i as int]));
            if number is Some {
                let n = number->0;
                let (a, b) = choose|a: int, b: int|
                    0 <= a <= b <= dir@.len() && n@ == #[trigger] dir@.subrange(a, b);
                assert forall|k: int| 0 <= k < n@.len() implies n@[k] != '/' by {
                    assert(n@[k] == dir@[a + k]);
                }
            }
        }
        numbers.push(number);
        proof {
            assert(numbers_of(numbers@) == before.push(crate::text::text_of(number)));
            assert forall|k: int| 0 <= k < i + 1 implies (#[trigger] want.take(i + 1)[k] matches Some(
                n,
            ) ==> !n.contains('/')) by {
                if k < i {
                    assert(want.take(i + 1)[k] == want.take(i as int)[k]);
                }
            }
        }
        i = i + 1;
    }
    proof {
        assert(want.take(last as int) == want);
        if crate::path::is_name(file@) {
            lemma_disc_path(file@, want);
        }
    }
    disc_file_path(file, &numbers)
}

/// Where one file of a torrent is, and where it goes.
#[derive(Debug, PartialEq)]
pub struct FileLinkPlan {
    pub download_path: PathBuf,
    pub library_path: PathBuf,
    pub relative_library_path: PathBuf,
}

#[verifier::ext_equal]
pub struct PlanView {
    pub download_path: Seq<char>,
    pub library_path: Seq<char>,
    pub relative_library_path: Seq<char>,
}

impl View for FileLinkPlan {
    type V = PlanView;

    open spec fn view(&self) -> PlanView {
        PlanView {
            download_path: self.download_path@,
            library_path: self.library_path@,
            relative_library_path: self.relative_library_path@,
        }
    }
}

pub open spec fn plans_of(v: Seq<FileLinkPlan>) -> Seq<PlanView> {
    v.map_values(|p: FileLinkPlan| p@)
}

/// The file's name has the ending of one of the selected formats.
pub open spec fn is_selected(
    name: Seq<char>,
    audio: Option<Seq<char>>,
    ebook: Option<Seq<char>>,
) -> bool {
    (audio matches Some(e) && crate::text::has_suffix(name, e)) || (ebook matches Some(e)
        && crate::text::has_suffix(name, e))
}

/// The plan for one file.
pub open spec fn file_plan(
    mapping: Seq<(PathBuf, PathBuf)>,
    save_path: Seq<char>,
    name: Seq<char>,
    dir: Seq<char>,
) -> PlanView {
    PlanView {
        download_path: crate::path::path_join(
            crate::linker::common::mapped_path(mapping, save_path),
            name,
        ),
        library_path: crate::path::path_join(dir, library_file_path(name)),
        relative_library_path: library_file_path(name),
    }
}

/// The plans for the selected files, in the order of the files.
pub open spec fn link_plans(
    mapping: Seq<(PathBuf, PathBuf)>,
    save_path: Seq<char>,
    files: Seq<TorrentContent>,
    audio: Option<Seq<char>>,
    ebook: Option<Seq<char>>,
    dir: Seq<char>,
) -> Seq<PlanView>
    decreases files.len(),
{
    if files.len() == 0 {
        seq![]
    } else {
        let before = link_plans(mapping, save_path, files.drop_last(), audio, ebook, dir);
        if is_selected(files.last().name@, audio, ebook) {
            before.push(file_plan(mapping, save_path, files.last().name@, dir))
        } else {
            before
        }
    }
}

/// The plans for two lists of files together are those for the first list, then
/// those for the second.
pub proof fn plans_follow_files(
    mapping: Seq<(PathBuf, PathBuf)>,
    save_path: Seq<char>,
    a: Seq<TorrentContent>,
    b: Seq<TorrentContent>,
    audio: Option<Seq<char>>,
    ebook: Option<Seq<char>>,
    dir: Seq<char>,
)
    ensures
        link_plans(mapping, save_path, a + b, audio, ebook, dir) == link_plans(
            mapping,
            save_path,
            a,
            audio,
            ebook,
            dir,
        ) + link_plans(mapping, save_path, b, audio, ebook, dir),
    decreases b.len(),
{
    let x = link_plans(mapping, save_path, a, audio, ebook, dir);
    if b.len() == 0 {
        assert(a + b == a);
        assert(x + Seq::<PlanView>::empty() == x);
    } else {
        plans_follow_files(mapping, save_path, a, b.drop_last(), audio, ebook, dir);
        assert((a + b).drop_last() == a + b.drop_last());
        assert((a + b).last() == b.last());
        let y = link_plans(mapping, save_path, b.drop_last(), audio, ebook, dir);
        let p = file_plan(mapping, save_path, b.last().name@, dir);
        assert((x + y).push(p) == x + y.push(p));
    }
}

/// A file is planned once where its name ends in one of the selected endings,
/// and else not at all. It is taken from below the mapped save path, under its
/// own name, and goes below the book's directory, where it keeps the last
/// component of its name.
pub proof fn selected_file_is_planned(
    mapping: Seq<(PathBuf, PathBuf)>,
    save_path: Seq<char>,
    file: TorrentContent,
    audio: Option<Seq<char>>,
    ebook: Option<Seq<char>>,
    dir: Seq<char>,
    stem: Seq<char>,
    ending: Seq<char>,
)
    requires
        file.name@ == stem + ending,
    ensures
        ({
            let r = link_plans(mapping, save_path, seq![file], audio, ebook, dir);
            &&& audio == Some(ending) || ebook == Some(ending) ==> r.len() == 1
            &&& audio is None && ebook is None ==> r.len() == 0
            &&& r.len() <= 1
            &&& r.len() == 1 ==> {
                &&& crate::path::path_join(
                    crate::linker::common::mapped_path(mapping, save_path),
                    file.name@,
                ) == r[0].download_path
                &&& crate::path::path_join(dir, r[0].relative_library_path) == r[0].library_path
                &&& r[0].relative_library_path == library_file_path(file.name@)
            }
        }),
        ({
            let r = link_plans(mapping, save_path, seq![file], audio, ebook, dir);
            r.len() == 1 ==> (audio matches Some(e) && exists|s: Seq<char>|
                file.name@ == #[trigger] (s + e)) || (ebook matches Some(e) && exists|s: Seq<char>|
                file.name@ == #[trigger] (s + e))
        }),
{
    let files = seq![file];
    let none = Seq::<TorrentContent>::empty();
    assert(files.drop_last() == none);
    assert(link_plans(mapping, save_path, none, audio, ebook, dir).len() == 0);
    assert(file.name@.skip(stem.len() as int) == ending);
    let r = link_plans(mapping, save_path, files, audio, ebook, dir);
    if r.len() == 1 {
        assert(is_selected(file.name@, audio, ebook));
        if audio is Some && crate::text::has_suffix(file.name@, audio.unwrap()) {
            lemma_suffix(file.name@, audio.unwrap());
        } else {
            lemma_suffix(file.name@, ebook.unwrap());
        }
    }
}

proof fn lemma_suffix(name: Seq<char>, e: Seq<char>)
    requires
        crate::text::has_suffix(name, e),
    ensures
        exists|s: Seq<char>| name == #[trigger] (s + e),
{
    let s = name.take(name.len() - e.len());
    assert(name == s + e);
}

proof fn lemma_last_number(numbers: Seq<Option<Seq<char>>>, k: int)
    requires
        -1 <= k < numbers.len(),
        k >= 0 ==> numbers[k] is Some,
        forall|j: int| k < j < numbers.len() ==> (#[trigger] numbers[j]) is None,
    ensures
        last_number(numbers) == (if k >= 0 {
            numbers[k]
        } else {
            None
        }),
    decreases numbers.len(),
{
    if numbers.len() > 0 && k < numbers.len() - 1 {
        assert(numbers[numbers.len() - 1] is None);
        let rest = numbers.drop_last();
        assert forall|j: int| k < j < rest.len() implies (#[trigger] rest[j]) is None by {
            assert(rest[j] == numbers[j]);
        }
        lemma_last_number(rest, k);
    }
}

/// Below the book's directory a file keeps its name, the last component of its
/// path, and stands in a directory named after the disc of the nearest directory
/// above it that is named after one, or in none. `k` is the place of that
/// directory among the path's components, or -1.
pub proof fn file_goes_into_nearest_disc(file: Seq<char>, k: int)
    requires
        ({
            let p = crate::path::parts(file);
            &&& p.len() > 0
            &&& crate::path::is_name(p.last())
            &&& -1 <= k < p.len() - 1
            &&& k >= 0 ==> (disc_of(p[k]) matches Some(n) && !n.contains('/'))
            &&& forall|j: int| k < j < p.len() - 1 ==> disc_of(#[trigger] p[j]) is None
        }),
    ensures
        ({
            let p = crate::path::parts(file);
            crate::path::parts(library_file_path(file)) == (if k >= 0 {
                seq!["Disc "@ + disc_of(p[k]).unwrap(), p.last()]
            } else {
                seq![p.last()]
            })
        }),
{
    let p = crate::path::parts(file);
    let numbers = p.drop_last().map_values(|d: Seq<char>| disc_of(d));
    assert forall|j: int| 0 <= j < numbers.len() implies #[trigger] numbers[j] == disc_of(p[j]) by {
        assert(p.drop_last()[j] == p[j]);
    }
    lemma_last_number(numbers, k);
    crate::path::lemma_parts_plain(file);
    assert(p.last() == p[p.len() - 1]);
    if k >= 0 {
        lemma_disc_file(disc_of(p[k]).unwrap(), p.last());
    } else {
        crate::path::lemma_single_name(p.last());
    }
}

/// The view of an optional text.
pub open spec fn str_of(o: Option<&str>) -> Option<Seq<char>> {
    match o {
        Some(s) => Some(s@),
        None => None,
    }
}

fn has_ending(name: &str, ending: Option<&str>) -> (r: bool)
    ensures
        r == (str_of(ending) matches Some(e) && crate::text::has_suffix(name@, e)),
{
    match ending {
        Some(e) => ends_with(name, e),
        None => false,
    }
}

/// The plans for linking a torrent's files of the selected formats into a
/// book's directory.
pub fn calculate_link_plans(
    qbit_config: &QbitConfig,
    torrent: &QbitTorrent,
    files: &Vec<TorrentContent>,
    selected_audio_format: Option<&str>,
    selected_ebook_format: Option<&str>,
    library_dir: &PathBuf,
) -> (r: Vec<FileLinkPlan>)
    requires
        forall|i: int|
            0 <= i < files@.len() && is_selected(
                (#[trigger] files@[i]).name@,
                str_of(selected_audio_format),
                str_of(selected_ebook_format),
            ) ==> files@[i].name@.len() > 0,
    ensures
        plans_of(r@) == link_plans(
            qbit_config.path_mapping@,
            torrent.save_path@,
            files@,
            str_of(selected_audio_format),
            str_of(selected_ebook_format),
            library_dir@,
        ),
        (forall|i: int|
            0 <= i < files@.len() ==> crate::path::is_name(
                crate::path::parts((#[trigger] files@[i]).name@).last(),
            )) ==> (forall|k: int|
            0 <= k < r@.len() ==> crate::path::lies_under(
                (#[trigger] r@[k]).library_path@,
                library_dir@,
            )),
{
    let mut plans: Vec<FileLinkPlan> = Vec::new();
    let ghost audio = str_of(selected_audio_format);
    let ghost ebook = str_of(selected_ebook_format);
    let ghost mapping = qbit_config.path_mapping@;
    let mut i: usize = 0;
    while i < files.len()
        invariant
            i <= files@.len(),
            audio == str_of(selected_audio_format),
            ebook == str_of(selected_ebook_format),
            mapping == qbit_config.path_mapping@,
            forall|i: int|
                0 <= i < files@.len() && is_selected((#[trigger] files@[i]).name@, audio, ebook)
                    ==> files@[i].name@.len() > 0,
            plans_of(plans@) == link_plans(
                mapping,
                torrent.save_path@,
                files@.take(i as int),
                audio,
                ebook,
                library_dir@,
            ),
            (forall|i: int|
                0 <= i < files@.len() ==> crate::path::is_name(
                    crate::path::parts((#[trigger] files@[i]).name@).last(),
                )) ==> (forall|k: int|
                0 <= k < plans@.len() ==> crate::path::lies_under(
                    (#[trigger] plans@[k]).library_path@,
                    library_dir@,
                )),
        decreases files@.len() - i,
    {
        let name = files[i].name.as_str();
        let ghost now = files@.take(i + 1);
        proof {
            assert(now.drop_last() == files@.take(i as int));
            assert(now.last() == files@[i as int]);
        }
        if has_ending(name, selected_audio_format) || has_ending(name, selected_ebook_format) {
            let file_path = calculate_library_file_path(name);
            proof {
                if crate::path::is_name(crate::path::parts(name@).last()) {
                    reveal_strlit("Disc ");
                    let p = crate::path::parts(file_path@);
                    crate::path::lemma_spans(file_path@);
                    if crate::path::is_absolute(file_path@) {
                        assert(p[0] == seq!['/']);
                        assert(p[0].len() == 1);
                    }
                    crate::path::join_stays_under(library_dir@, file_path@);
                }
            }
            let library_path = library_dir.join(file_path.as_str());
            let download_path = map_path(
                &qbit_config.path_mapping,
                torrent.save_path.as_str(),
            ).join(name);
            let ghost before = plans_of(plans@);
            let plan = FileLinkPlan {
                download_path,
                library_path,
                relative_library_path: file_path,
            };
            plans.push(plan);
            assert(plans_of(plans@) == before.push(plan@));
        }
        i = i + 1;
    }
    assert(files@.take(i as int) == files@);
    plans
}

/// The comma-separated tags of a torrent, without the white space around them.
pub open spec fn tag_list(tags: Seq<char>) -> Seq<Seq<char>> {
    crate::text::pieces(tags, ","@).map_values(|t: Seq<char>| crate::text::trimmed(t))
}

/// One of the tags is among the torrent's.
pub open spec fn shares_tag(tags: Seq<Seq<char>>, own: Seq<Seq<char>>) -> bool {
    exists|i: int| 0 <= i < tags.len() && own.contains(#[trigger] tags[i])
}

/// The tags let the torrent pass: none is denied, and where some are asked for,
/// one of those is there.
pub open spec fn tags_pass(f: LibraryTagFilters, own: Seq<Seq<char>>) -> bool {
    !shares_tag(crate::text::texts(f.deny_tags@), own) && (f.allow_tags@.len() == 0 || shares_tag(
        crate::text::texts(f.allow_tags@),
        own,
    ))
}

/// The library takes a torrent that has the given tags.
pub open spec fn takes(l: Library, t: QbitTorrent, own: Seq<Seq<char>>) -> bool {
    match l {
        Library::ByRipDir(_) => false,
        Library::ByDownloadDir(l) => crate::path::lies_under(t.save_path@, l.download_dir@)
            && tags_pass(l.tag_filters, own),
        Library::ByCategory(l) => t.category@ == l.category@ && tags_pass(l.tag_filters, own),
    }
}

/// The first library, from `i` on, that takes a torrent with the given tags.
pub open spec fn first_taker(
    libraries: Seq<Library>,
    t: QbitTorrent,
    own: Seq<Seq<char>>,
    i: int,
) -> Option<int>
    decreases libraries.len() - i,
{
    if i < 0 || i >= libraries.len() {
        None
    } else if takes(libraries[i], t, own) {
        Some(i)
    } else {
        first_taker(libraries, t, own, i + 1)
    }
}

/// The first library that takes the torrent.
pub open spec fn library_index(libraries: Seq<Library>, t: QbitTorrent) -> Option<int> {
    first_taker(libraries, t, tag_list(t.tags@), 0)
}

fn own_tags(tags: &str) -> (r: Vec<String>)
    ensures
        crate::text::texts(r@) == tag_list(tags@),
{
    proof {
        reveal_strlit(",");
    }
    let pieces = split(tags, ",");
    let ghost p = crate::text::pieces(tags@, ","@);
    let mut r: Vec<String> = Vec::new();
    let mut i: usize = 0;
    while i < pieces.len()
        invariant
            i <= pieces@.len(),
            crate::text::texts(pieces@) == p,
            p == crate::text::pieces(tags@, ","@),
            crate::text::texts(r@) == tag_list(tags@).take(i as int),
        decreases pieces@.len() - i,
    {
        let t = trim(pieces[i].as_str());
        let ghost before = crate::text::texts(r@);
        r.push(t);
        proof {
            assert(pieces@[i as int]@ == p[i as int]);
            assert(crate::text::texts(r@) == before.push(t@));
            assert(tag_list(tags@).take(i + 1) == tag_list(tags@).take(i as int).push(
                tag_list(tags@)[i as int],
            ));
        }
        i = i + 1;
    }
    assert(tag_list(tags@).take(i as int) == tag_list(tags@));
    r
}

fn shares(tags: &Vec<String>, own: &Vec<String>) -> (r: bool)
    ensures
        r == shares_tag(crate::text::texts(tags@), crate::text::texts(own@)),
{
    let ghost t = crate::text::texts(tags@);
    let mut i: usize = 0;
    while i < tags.len()
        invariant
            i <= tags@.len(),
            t == crate::text::texts(tags@),
            forall|k: int| 0 <= k < i ==> !crate::text::texts(own@).contains(#[trigger] t[k]),
        decreases tags@.len() - i,
    {
        if has_entry(own, tags[i].as_str()) {
            assert(crate::text::texts(own@).contains(t[i as int]));
            return true;
        }
        i = i + 1;
    }
    false
}

fn pass(f: &LibraryTagFilters, own: &Vec<String>) -> (r: bool)
    ensures
        r == tags_pass(*f, crate::text::texts(own@)),
{
    if shares(&f.deny_tags, own) {
        return false;
    }
    f.allow_tags.len() == 0 || shares(&f.allow_tags, own)
}

/// The first library that takes the torrent: by where it is saved or by its
/// category, and by its tags. Libraries of ripped books take no torrents.
pub fn find_library<'a>(config: &'a Config, torrent: &QbitTorrent) -> (r: Option<&'a Library>)
    ensures
        match library_index(config.libraries@, *torrent) {
            Some(i) => r == Some(&config.libraries@[i]),
            None => r is None,
        },
{
    match find_library_index(config, torrent) {
        Some(i) => Some(&config.libraries[i]),
        None => None,
    }
}

/// The place of the library that takes the torrent.
pub fn find_library_index(config: &Config, torrent: &QbitTorrent) -> (r: Option<usize>)
    ensures
        r is Some == library_index(config.libraries@, *torrent) is Some,
        r matches Some(i) ==> i < config.libraries@.len() && library_index(
            config.libraries@,
            *torrent,
        ) == Some(i as int),
{
    find_taker(config, torrent, &own_tags(torrent.tags.as_str()))
}

/// The place of the first library that takes a torrent with the given tags.
pub fn find_taker(config: &Config, torrent: &QbitTorrent, own: &Vec<String>) -> (r: Option<usize>)
    ensures
        r is Some == first_taker(
            config.libraries@,
            *torrent,
            crate::text::texts(own@),
            0,
        ) is Some,
        r matches Some(i) ==> i < config.libraries@.len() && first_taker(
            config.libraries@,
            *torrent,
            crate::text::texts(own@),
            0,
        ) == Some(i as int),
{
    let ghost tags = crate::text::texts(own@);
    let save_path = PathBuf::new(torrent.save_path.as_str());
    let mut i: usize = 0;
    while i < config.libraries.len()
        invariant
            i <= config.libraries@.len(),
            tags == crate::text::texts(own@),
            save_path@ == torrent.save_path@,
            first_taker(config.libraries@, *torrent, tags, 0) == first_taker(
                config.libraries@,
                *torrent,
                tags,
                i as int,
            ),
        decreases config.libraries@.len() - i,
    {
        let takes = match &config.libraries[i] {
            Library::ByRipDir(_) => false,
            Library::ByDownloadDir(l) => save_path.starts_with(&l.download_dir) && pass(
                &l.tag_filters,
                own,
            ),
            Library::ByCategory(l) => same_text(torrent.category.as_str(), l.category.as_str())
                && pass(&l.tag_filters, own),
        };
        if takes {
            return Some(i);
        }
        i = i + 1;
    }
    None
}

/// The library that is found takes the torrent, and no library before it does;
/// where none is found, none takes it.
pub proof fn found_library_is_first(
    libraries: Seq<Library>,
    t: QbitTorrent,
    own: Seq<Seq<char>>,
    from: int,
)
    requires
        0 <= from,
    ensures
        match first_taker(libraries, t, own, from) {
            Some(i) => from <= i < libraries.len() && takes(libraries[i], t, own) && (forall|
                j: int,
            |
                from <= j < i ==> !takes(#[trigger] libraries[j], t, own)),
            None => forall|j: int|
                from <= j < libraries.len() ==> !takes(#[trigger] libraries[j], t, own),
        },
    decreases libraries.len() - from,
{
    if from < libraries.len() && !takes(libraries[from], t, own) {
        found_library_is_first(libraries, t, own, from + 1);
    }
}

/// The library that is found, of whatever kind, wants the torrent: it is saved
/// below the library's download directory or has its category, none of its tags
/// is denied, and where the library asks for tags the torrent has one of those.
pub proof fn found_library_wants_torrent(
    libraries: Seq<Library>,
    t: QbitTorrent,
    own: Seq<Seq<char>>,
    i: int,
)
    requires
        first_taker(libraries, t, own, 0) == Some(i),
    ensures
        0 <= i < libraries.len(),
        !(libraries[i] is ByRipDir),
        libraries[i] matches Library::ByDownloadDir(l) ==> {
            &&& crate::path::lies_under(t.save_path@, l.download_dir@)
            &&& forall|k: int|
                0 <= k < own.len() ==> !crate::text::texts(l.tag_filters.deny_tags@).contains(
                    #[trigger] own[k],
                )
            &&& l.tag_filters.allow_tags@.len() > 0 ==> exists|k: int|
                0 <= k < own.len() && crate::text::texts(l.tag_filters.allow_tags@).contains(
                    #[trigger] own[k],
                )
        },
        libraries[i] matches Library::ByCategory(l) ==> {
            &&& t.category@ == l.category@
            &&& forall|k: int|
                0 <= k < own.len() ==> !crate::text::texts(l.tag_filters.deny_tags@).contains(
                    #[trigger] own[k],
                )
            &&& l.tag_filters.allow_tags@.len() > 0 ==> exists|k: int|
                0 <= k < own.len() && crate::text::texts(l.tag_filters.allow_tags@).contains(
                    #[trigger] own[k],
                )
        },
{
    found_library_is_first(libraries, t, own, 0);
    match libraries[i] {
        Library::ByRipDir(_) => {},
        Library::ByDownloadDir(l) => {
            lemma_tags_pass(l.tag_filters, own);
        },
        Library::ByCategory(l) => {
            lemma_tags_pass(l.tag_filters, own);
        },
    }
}

proof fn lemma_shared(tags: Seq<Seq<char>>, own: Seq<Seq<char>>)
    ensures
        shares_tag(tags, own) <==> exists|k: int|
            0 <= k < own.len() && tags.contains(#[trigger] own[k]),
{
    if shares_tag(tags, own) {
        let i = choose|i: int| 0 <= i < tags.len() && own.contains(#[trigger] tags[i]);
        let k = choose|k: int| 0 <= k < own.len() && own[k] == tags[i];
        assert(tags.contains(own[k]));
    }
    if exists|k: int| 0 <= k < own.len() && tags.contains(#[trigger] own[k]) {
        let k = choose|k: int| 0 <= k < own.len() && tags.contains(#[trigger] own[k]);
        let i = choose|i: int| 0 <= i < tags.len() && tags[i] == own[k];
        assert(own.contains(tags[i]));
    }
}

proof fn lemma_tags_pass(f: LibraryTagFilters, own: Seq<Seq<char>>)
    ensures
        tags_pass(f, own) <==> {
            &&& forall|k: int|
                0 <= k < own.len() ==> !crate::text::texts(f.deny_tags@).contains(
                    #[trigger] own[k],
                )
            &&& f.allow_tags@.len() > 0 ==> exists|k: int|
                0 <= k < own.len() && crate::text::texts(f.allow_tags@).contains(#[trigger] own[k])
        },
{
    lemma_shared(crate::text::texts(f.deny_tags@), own);
    lemma_shared(crate::text::texts(f.allow_tags@), own);
}

/// A torrent that some library wants is taken by that library or by one before
/// it. `j` is the place of the library that wants it.
pub proof fn wanted_torrent_is_taken(
    libraries: Seq<Library>,
    t: QbitTorrent,
    own: Seq<Seq<char>>,
    j: int,
)
    requires
        0 <= j < libraries.len(),
        match libraries[j] {
            Library::ByRipDir(_) => false,
            Library::ByDownloadDir(l) => {
                &&& crate::path::lies_under(t.save_path@, l.download_dir@)
                &&& forall|k: int|
                    0 <= k < own.len() ==> !crate::text::texts(l.tag_filters.deny_tags@).contains(
                        #[trigger] own[k],
                    )
                &&& l.tag_filters.allow_tags@.len() > 0 ==> exists|k: int|
                    0 <= k < own.len() && crate::text::texts(l.tag_filters.allow_tags@).contains(
                        #[trigger] own[k],
                    )
            },
            Library::ByCategory(l) => {
                &&& t.category@ == l.category@
                &&& forall|k: int|
                    0 <= k < own.len() ==> !crate::text::texts(l.tag_filters.deny_tags@).contains(
                        #[trigger] own[k],
                    )
                &&& l.tag_filters.allow_tags@.len() > 0 ==> exists|k: int|
                    0 <= k < own.len() && crate::text::texts(l.tag_filters.allow_tags@).contains(
                        #[trigger] own[k],
                    )
            },
        },
    ensures
        first_taker(libraries, t, own, 0) matches Some(i) && 0 <= i <= j,
{
    match libraries[j] {
        Library::ByRipDir(_) => {},
        Library::ByDownloadDir(l) => {
            lemma_tags_pass(l.tag_filters, own);
        },
        Library::ByCategory(l) => {
            lemma_tags_pass(l.tag_filters, own);
        },
    }
    assert(takes(libraries[j], t, own));
    found_library_is_first(libraries, t, own, 0);
}

/// What is found goes by the libraries in their order alone: libraries added
/// behind the others change nothing for a torrent that was taken before.
pub proof fn later_libraries_change_nothing(
    libraries: Seq<Library>,
    more: Seq<Library>,
    t: QbitTorrent,
    own: Seq<Seq<char>>,
)
    requires
        first_taker(libraries, t, own, 0) is Some,
    ensures
        first_taker(libraries + more, t, own, 0) == first_taker(libraries, t, own, 0),
{
    found_library_is_first(libraries, t, own, 0);
    found_library_is_first(libraries + more, t, own, 0);
    let i = first_taker(libraries, t, own, 0).unwrap();
    assert((libraries + more)[i] == libraries[i]);
    let j = first_taker(libraries + more, t, own, 0);
    assert(j is Some);
    let k = j.unwrap();
    if k < i {
        assert((libraries + more)[k] == libraries[k]);
    }
}

/// The tags of a torrent are what stands between the commas, without the white
/// space around it. `between` is what stands between the commas.
pub proof fn tags_stand_between_commas(tags: Seq<char>, between: Seq<Seq<char>>)
    requires
        between == crate::text::pieces(tags, ","@),
    ensures
        crate::text::joined(between, ","@) == tags,
        tag_list(tags).len() == between.len(),
        forall|i: int|
            0 <= i < between.len() ==> !(#[trigger] between[i]).contains(',') && tag_list(tags)[i]
                == crate::text::trimmed(between[i]),
{
    reveal_strlit(",");
    crate::text::pieces_make_up_text(tags, ","@);
    assert forall|i: int| 0 <= i < between.len() implies !(#[trigger] between[i]).contains(',')
        && tag_list(tags)[i] == crate::text::trimmed(between[i]) by {
        let b = between[i];
        if b.contains(',') {
            let k = choose|k: int| 0 <= k < b.len() && b[k] == ',';
            assert(b.subrange(k, k + 1) == ","@);
            assert(crate::text::occurs_at(b, ","@, k));
        }
    }
}

/// What an update of a torrent's record did.
pub struct TorrentUpdate {
    pub changed: bool,
    pub events: Vec<Event>,
}

/// What an update reads of the library: its name and its directory.
pub struct LibraryView {
    pub name: Option<Seq<char>>,
    pub dir: Seq<char>,
}

pub open spec fn library_view(library: Option<&Library>) -> Option<LibraryView> {
    match library {
        Some(l) => Some(
            LibraryView { name: crate::text::text_of(l.opts().name), dir: l.opts().library_dir@ },
        ),
        None => None,
    }
}

/// The client's category, where it has one.
pub open spec fn client_category(category: Seq<char>) -> Option<Seq<char>> {
    if category.len() == 0 {
        None
    } else {
        Some(category)
    }
}

/// The torrent's last tracker does not know it any more.
pub open spec fn is_unregistered(trackers: Seq<Tracker>) -> bool {
    trackers.len() > 0 && trackers.last().msg@ == "torrent not registered with this tracker"@
}

/// Two findings on a book's place are the same, paths taken by their
/// components.
pub open spec fn same_mismatch(a: Option<MismatchView>, b: Option<MismatchView>) -> bool {
    match (a, b) {
        (
            Some(MismatchView::NewLibraryDir(p)),
            Some(MismatchView::NewLibraryDir(q)),
        ) => crate::path::same_path(p, q),
        (Some(MismatchView::NewPath(p)), Some(MismatchView::NewPath(q))) => crate::path::same_path(
            p,
            q,
        ),
        (Some(MismatchView::NoLibrary), Some(MismatchView::NoLibrary)) => true,
        (None, None) => true,
        _ => false,
    }
}

/// The book lies in the directory.
pub open spec fn lies_at(path: Seq<char>, dir: Option<Seq<char>>) -> bool {
    dir matches Some(d) && crate::path::same_path(path, d)
}

/// The finding on a book that does not lie where its library wants it.
pub open spec fn wanted_mismatch(dir: Option<Seq<char>>) -> MismatchView {
    match dir {
        Some(d) => MismatchView::NewPath(d),
        None => MismatchView::NoLibrary,
    }
}

/// The new finding on a book's place. A finding that still stands is kept; a
/// book that lies where it is wanted, with or without its narrator in the
/// directory's name, has none.
pub open spec fn updated_mismatch(
    exclude: bool,
    library: Option<LibraryView>,
    t: TorrentView,
) -> Option<MismatchView> {
    match (t.library_path, library) {
        (None, _) => t.library_mismatch,
        (Some(_), None) => if same_mismatch(t.library_mismatch, Some(MismatchView::NoLibrary)) {
            t.library_mismatch
        } else {
            Some(MismatchView::NoLibrary)
        },
        (Some(path), Some(l)) => {
            let dir = crate::linker::common::wanted_dir(exclude, l.dir, t.meta);
            let wanted = if crate::path::lies_under(path, l.dir) {
                Some(wanted_mismatch(dir))
            } else {
                Some(MismatchView::NewLibraryDir(l.dir))
            };
            if same_mismatch(t.library_mismatch, wanted) {
                t.library_mismatch
            } else if crate::path::lies_under(path, l.dir) && (lies_at(path, dir) || lies_at(
                path,
                crate::linker::common::wanted_dir(!exclude, l.dir, t.meta),
            )) {
                None
            } else {
                wanted
            }
        },
    }
}

/// The record of a torrent brought up to date.
pub open spec fn updated_torrent(
    exclude: bool,
    library: Option<LibraryView>,
    category: Seq<char>,
    trackers: Seq<Tracker>,
    t: TorrentView,
) -> TorrentView {
    TorrentView {
        linker: match library {
            Some(l) => l.name,
            None => None,
        },
        category: client_category(category),
        client_status: if t.client_status is None && is_unregistered(trackers) {
            Some(ClientStatus::RemovedFromTracker)
        } else {
            t.client_status
        },
        library_mismatch: updated_mismatch(exclude, library, t),
        ..t
    }
}

/// What is told of an update: the removal from the tracker, where it is noted.
pub open spec fn removal_events(
    status: Option<ClientStatus>,
    trackers: Seq<Tracker>,
    hash: Seq<char>,
    mam_id: Option<u64>,
) -> Seq<EventView> {
    if status is None && is_unregistered(trackers) {
        seq![
            EventView { hash: Some(hash), mam_id, event: EventTypeView::RemovedFromTracker },
        ]
    } else {
        Seq::<EventView>::empty()
    }
}

/// The update found something to change.
pub open spec fn is_changed(a: TorrentView, b: TorrentView) -> bool {
    a.linker != b.linker || a.category != b.category || a.client_status != b.client_status
        || !same_mismatch(a.library_mismatch, b.library_mismatch)
}

/// The update looks at the book's directory with the narrator setting turned
/// round.
pub open spec fn looks_twice(exclude: bool, library: LibraryView, t: TorrentView) -> bool {
    let dir = crate::linker::common::wanted_dir(exclude, library.dir, t.meta);
    !same_mismatch(t.library_mismatch, Some(wanted_mismatch(dir))) && !lies_at(
        t.library_path.unwrap(),
        dir,
    )
}

/// The book has the directory names that the update looks at.
pub open spec fn has_update_dirs(
    exclude: bool,
    library: Option<LibraryView>,
    t: TorrentView,
) -> bool {
    t.library_path matches Some(path) ==> library matches Some(l) ==> crate::path::lies_under(
        path,
        l.dir,
    ) ==> crate::linker::common::has_book_dir(exclude, t.meta) && (looks_twice(exclude, l, t)
        ==> crate::linker::common::has_book_dir(!exclude, t.meta))
}

fn same_finding(a: &Option<LibraryMismatch>, b: &LibraryMismatch) -> (r: bool)
    ensures
        r == same_mismatch(crate::model::mismatch_of(*a), Some(b@)),
{
    match (a, b) {
        (Some(LibraryMismatch::NewLibraryDir(p)), LibraryMismatch::NewLibraryDir(q)) => p.is_same(
            q,
        ),
        (Some(LibraryMismatch::NewPath(p)), LibraryMismatch::NewPath(q)) => p.is_same(q),
        (Some(LibraryMismatch::NoLibrary), LibraryMismatch::NoLibrary) => true,
        _ => false,
    }
}

fn is_at(path: &PathBuf, dir: &Option<PathBuf>) -> (r: bool)
    ensures
        r == lies_at(path@, crate::model::path_of(*dir)),
{
    match dir {
        Some(d) => path.is_same(d),
        None => false,
    }
}

/// Whether an update can name the directories that it looks at.
pub fn has_dirs_to_update(torrent: &Torrent, library: Option<&Library>, config: &Config) -> (r: bool)
    ensures
        r == has_update_dirs(
            config.exclude_narrator_in_library_dir,
            library_view(library),
            torrent@,
        ),
{
    let exclude = config.exclude_narrator_in_library_dir;
    match (&torrent.library_path, library) {
        (Some(path), Some(l)) => {
            if !path.starts_with(&l.options().library_dir) {
                return true;
            }
            if !has_dir_name(exclude, &torrent.meta) {
                return false;
            }
            let dir = library_dir(exclude, l, &torrent.meta);
            let right = is_at(path, &dir);
            let wanted = match dir {
                Some(d) => LibraryMismatch::NewPath(d),
                None => LibraryMismatch::NoLibrary,
            };
            same_finding(&torrent.library_mismatch, &wanted) || right || has_dir_name(
                !exclude,
                &torrent.meta,
            )
        },
        _ => true,
    }
}

/// The finding on a torrent's place: `None` leaves the finding as it is.
fn find_mismatch(torrent: &Torrent, library: Option<&Library>, config: &Config) -> (r: Option<
    Option<LibraryMismatch>,
>)
    requires
        has_update_dirs(
            config.exclude_narrator_in_library_dir,
            library_view(library),
            torrent@,
        ),
    ensures
        r is None ==> updated_mismatch(
            config.exclude_narrator_in_library_dir,
            library_view(library),
            torrent@,
        ) == torrent@.library_mismatch,
        r matches Some(m) ==> {
            &&& updated_mismatch(
                config.exclude_narrator_in_library_dir,
                library_view(library),
                torrent@,
            ) == crate::model::mismatch_of(m)
            &&& !same_mismatch(torrent@.library_mismatch, crate::model::mismatch_of(m))
        },
{
    let exclude = config.exclude_narrator_in_library_dir;
    let path = match &torrent.library_path {
        Some(p) => p,
        None => {
            return None;
        },
    };
    let library = match library {
        Some(l) => l,
        None => {
            if same_finding(&torrent.library_mismatch, &LibraryMismatch::NoLibrary) {
                return None;
            }
            return Some(Some(LibraryMismatch::NoLibrary));
        },
    };
    let library_path = &library.options().library_dir;
    if !path.starts_with(library_path) {
        let wanted = LibraryMismatch::NewLibraryDir(library_path.clone());
        if same_finding(&torrent.library_mismatch, &wanted) {
            return None;
        }
        return Some(Some(wanted));
    }
    let dir = library_dir(exclude, library, &torrent.meta);
    let right = is_at(path, &dir);
    let wanted = match dir {
        Some(d) => LibraryMismatch::NewPath(d),
        None => LibraryMismatch::NoLibrary,
    };
    if same_finding(&torrent.library_mismatch, &wanted) {
        return None;
    }
    if right || is_at(path, &library_dir(!exclude, library, &torrent.meta)) {
        if torrent.library_mismatch.is_some() {
            return Some(None);
        }
        return None;
    }
    Some(Some(wanted))
}

/// Brings the record of a torrent up to date with the client, the library that
/// takes it and its trackers.
pub fn check_torrent_updates(
    torrent: &mut Torrent,
    qbit_torrent: &QbitTorrent,
    library: Option<&Library>,
    config: &Config,
    trackers: &Vec<Tracker>,
) -> (r: TorrentUpdate)
    requires
        has_update_dirs(
            config.exclude_narrator_in_library_dir,
            library_view(library),
            old(torrent)@,
        ),
    ensures
        final(torrent)@ == updated_torrent(
            config.exclude_narrator_in_library_dir,
            library_view(library),
            qbit_torrent.category@,
            trackers@,
            old(torrent)@,
        ),
        r.changed == is_changed(old(torrent)@, final(torrent)@),
        r.events@.map_values(|e: Event| e@) == removal_events(
            old(torrent).client_status,
            trackers@,
            qbit_torrent.hash@,
            None,
        ),
{
    let ghost start = torrent@;
    let mut changed = false;
    let mut events: Vec<Event> = Vec::new();
    let name: Option<String> = match library {
        Some(l) => clone_option(&l.options().name),
        None => None,
    };
    if !same_option(&torrent.linker, &name) {
        torrent.linker = name;
        changed = true;
    }
    let category: Option<String> = if qbit_torrent.category.as_str().unicode_len() == 0 {
        None
    } else {
        Some(qbit_torrent.category.clone())
    };
    if !same_option(&torrent.category, &category) {
        torrent.category = category;
        changed = true;
    }
    let ghost removed = is_unregistered(trackers@);
    let unregistered = trackers.len() > 0 && same_text(
        trackers[trackers.len() - 1].msg.as_str(),
        "torrent not registered with this tracker",
    );
    if torrent.client_status.is_none() && unregistered {
        torrent.client_status = Some(ClientStatus::RemovedFromTracker);
        changed = true;
        events.push(
            Event::new(Some(qbit_torrent.hash.clone()), None, EventType::RemovedFromTracker),
        );
    }
    let ghost middle = torrent@;
    let exclude = config.exclude_narrator_in_library_dir;
    assert(updated_mismatch(exclude, library_view(library), middle) == updated_mismatch(
        exclude,
        library_view(library),
        start,
    ));
    match find_mismatch(torrent, library, config) {
        Some(m) => {
            torrent.library_mismatch = m;
            changed = true;
        },
        None => {},
    }
    TorrentUpdate { changed, events }
}

/// Bringing a record up to date a second time, with nothing changed outside,
/// changes nothing.
pub proof fn update_settles(
    exclude: bool,
    library: Option<LibraryView>,
    category: Seq<char>,
    trackers: Seq<Tracker>,
    t: TorrentView,
)
    ensures
        ({
            let once = updated_torrent(exclude, library, category, trackers, t);
            let twice = updated_torrent(exclude, library, category, trackers, once);
            twice == once && !is_changed(once, twice)
        }),
{
}

/// A record that lies where its library wants it, and has no finding, gets
/// none.
pub proof fn book_in_place_has_no_mismatch(exclude: bool, library: LibraryView, t: TorrentView)
    requires
        t.library_path matches Some(p) && lies_at(
            p,
            crate::linker::common::wanted_dir(exclude, library.dir, t.meta),
        ),
        crate::linker::common::has_book_dir(exclude, t.meta),
        t.library_mismatch is None,
    ensures
        updated_mismatch(exclude, Some(library), t) is None,
{
    let dir = crate::linker::common::wanted_dir(exclude, library.dir, t.meta).unwrap();
    crate::linker::common::book_dir_stays_in_library(exclude, library.dir, t.meta);
}

/// The last tracker decides, whatever the ones before it say: where its message
/// is that the torrent is not registered, a record without a client status gets
/// one, and where it is any other, or there is no tracker, the status is left.
/// A status that is there is never replaced.
pub proof fn last_tracker_decides(
    exclude: bool,
    library: Option<LibraryView>,
    category: Seq<char>,
    before: Seq<Tracker>,
    last: Tracker,
    t: TorrentView,
)
    ensures
        ({
            let u = updated_torrent(exclude, library, category, before.push(last), t);
            &&& t.client_status is None && last.msg@ == "torrent not registered with this tracker"@
                ==> u.client_status == Some(ClientStatus::RemovedFromTracker)
            &&& t.client_status is Some || last.msg@
                != "torrent not registered with this tracker"@ ==> u.client_status
                == t.client_status
        }),
        updated_torrent(exclude, library, category, seq![], t).client_status == t.client_status,
{
    assert(before.push(last).last() == last);
}

/// A removal is told once, under the torrent's hash, and exactly when the update
/// notes it.
pub proof fn noted_removal_is_told(
    exclude: bool,
    library: Option<LibraryView>,
    category: Seq<char>,
    trackers: Seq<Tracker>,
    t: TorrentView,
    hash: Seq<char>,
    mam_id: Option<u64>,
)
    ensures
        ({
            let u = updated_torrent(exclude, library, category, trackers, t);
            let told = removal_events(t.client_status, trackers, hash, mam_id);
            &&& u.client_status == t.client_status ==> told.len() == 0
            &&& u.client_status != t.client_status ==> told.len() == 1 && told[0].hash == Some(hash)
                && told[0].mam_id == mam_id && told[0].event is RemovedFromTracker
                && u.client_status == Some(ClientStatus::RemovedFromTracker)
        }),
{
}

/// An update takes over the library's name and the client's category, an empty
/// one as none, and changes nothing of the record besides these, the client
/// status and the finding on the book's place.
pub proof fn update_takes_over_library_and_category(
    exclude: bool,
    library: Option<LibraryView>,
    category: Seq<char>,
    trackers: Seq<Tracker>,
    t: TorrentView,
)
    ensures
        ({
            let u = updated_torrent(exclude, library, category, trackers, t);
            &&& library matches Some(l) ==> u.linker == l.name
            &&& library is None ==> u.linker is None
            &&& category.len() > 0 ==> u.category == Some(category)
            &&& category.len() == 0 ==> u.category is None
            &&& u.id == t.id
            &&& u.id_is_hash == t.id_is_hash
            &&& u.mam_id == t.mam_id
            &&& u.library_path == t.library_path
            &&& u.library_files == t.library_files
            &&& u.selected_audio_format == t.selected_audio_format
            &&& u.selected_ebook_format == t.selected_ebook_format
            &&& u.title_search == t.title_search
            &&& u.meta == t.meta
            &&& u.created_at == t.created_at
            &&& u.replaced_with == t.replaced_with
        }),
{
}

/// The finding after an update says where the book should be. A book that lies
/// outside its library's directory is wanted in that directory; one that lies
/// inside, but not in its own directory with or without the narrator, is wanted
/// in its own directory; and one that no library takes is wanted in none. Only
/// a book that lies in its own directory is without a finding, and it is unless
/// the finding that it had names the very directory.
pub proof fn finding_says_where_book_should_be(
    exclude: bool,
    library: Option<LibraryView>,
    category: Seq<char>,
    trackers: Seq<Tracker>,
    t: TorrentView,
    path: Seq<char>,
)
    requires
        t.library_path == Some(path),
    ensures
        ({
            let found = updated_torrent(
                exclude,
                library,
                category,
                trackers,
                t,
            ).library_mismatch;
            &&& library is None ==> found == Some(MismatchView::NoLibrary)
            &&& library matches Some(l) ==> {
                let own = crate::linker::common::wanted_dir(exclude, l.dir, t.meta);
                let other = crate::linker::common::wanted_dir(!exclude, l.dir, t.meta);
                let at_own = own matches Some(d) && crate::path::parts(d) == crate::path::parts(
                    path,
                );
                let at_other = other matches Some(d) && crate::path::parts(d)
                    == crate::path::parts(path);
                &&& !crate::path::lies_under(path, l.dir) ==> (found matches Some(
                    MismatchView::NewLibraryDir(d),
                ) && crate::path::parts(d) == crate::path::parts(l.dir))
                &&& crate::path::lies_under(path, l.dir) && !at_own && !at_other && t.meta.authors.len()
                    > 0 ==> (found matches Some(MismatchView::NewPath(d)) && crate::path::parts(d)
                    == crate::path::parts(own.unwrap()))
                &&& crate::path::lies_under(path, l.dir) && !at_own && !at_other && t.meta.authors.len()
                    == 0 ==> found == Some(MismatchView::NoLibrary)
                &&& found is None ==> crate::path::lies_under(path, l.dir) && (at_own || at_other)
                &&& crate::path::lies_under(path, l.dir) && (at_own || at_other) && !(
                t.library_mismatch matches Some(MismatchView::NewPath(d)) && crate::path::parts(d)
                    == crate::path::parts(own.unwrap())) ==> found is None
            }
        }),
{
    if library is Some {
        let l = library.unwrap();
        crate::linker::common::author_is_needed(exclude, l.dir, t.meta);
        crate::linker::common::author_is_needed(!exclude, l.dir, t.meta);
    }
}

/// A book that is linked nowhere keeps the finding that it has.
pub proof fn unlinked_book_keeps_finding(
    exclude: bool,
    library: Option<LibraryView>,
    category: Seq<char>,
    trackers: Seq<Tracker>,
    t: TorrentView,
)
    requires
        t.library_path is None,
    ensures
        updated_torrent(exclude, library, category, trackers, t).library_mismatch
            == t.library_mismatch,
{
}

/// An update is reported as a change exactly when the record is another one
/// after it.
pub proof fn changed_record_is_reported(
    exclude: bool,
    library: Option<LibraryView>,
    category: Seq<char>,
    trackers: Seq<Tracker>,
    t: TorrentView,
)
    ensures
        is_changed(t, updated_torrent(exclude, library, category, trackers, t)) <==> t
            != updated_torrent(exclude, library, category, trackers, t),
{
    let u = updated_torrent(exclude, library, category, trackers, t);
    if !is_changed(t, u) {
        assert(u.library_mismatch == t.library_mismatch);
        assert(u == t);
    }
}

/// The disc of a directory is told by its name alone: by the digits behind `CD`,
/// `Disc` or `Disk`.
pub proof fn disc_is_told_by_name(dir: Seq<char>)
    ensures
        crate::path::is_name(dir) ==> disc_of(dir) == crate::outside::first_group(
            "(?:CD|Disc|Disk)\\s*(\\d+)"@,
            dir,
        ),
        !crate::path::is_name(dir) ==> disc_of(dir) is None,
{
}

/// What an update reads of a library is the library's own name and directory.
pub proof fn update_reads_name_and_directory(library: &Library)
    ensures
        library_view(Some(library)) matches Some(l) && l.name == crate::text::text_of(
            library.opts().name,
        ) && l.dir == library.opts().library_dir@,
        library_view(None) is None,
{
}

} // verus!
