//! Linking a torrent's files, recording what was linked, and undoing what
//! failed half-way.
use vstd::prelude::*;
use vstd::string::*;

use crate::linker::common::{library_dir, select_format};
use crate::linker::course::linked_files;
use crate::linker::torrent::{calculate_link_plans, FileLinkPlan};
use crate::model::{
    clone_path, clone_replaced, Config, Event, EventType, EventTypeView, EventView, Library,
    LibraryLinkMethod, MetaView, QbitConfig, QbitTorrent, Torrent, TorrentContent, TorrentMeta, TorrentView,
};
use crate::path::{sort_paths, PathBuf};
use crate::text::{clone_option, concat, concat3};

verus! {

/// Why a torrent could not be linked.
#[derive(Debug, PartialEq)]
pub enum LinkError {
    NoAuthor,
    NoWantedFormat,
    NotOnMam,
    TitleNotOnMam(String),
    NoLibrary,
    NoTorrent,
    NoTorrentId,
    NoMamId,
    NotInClient,
    UnknownMediaType(String),
    BadMeta(String),
}

/// The message of an error.
pub open spec fn error_message(e: LinkError) -> Seq<char> {
    match e {
        LinkError::NoAuthor => "Torrent has no author"@,
        LinkError::NoWantedFormat => "Could not find any wanted formats in torrent"@,
        LinkError::NotOnMam => "Could not find torrent on mam"@,
        LinkError::TitleNotOnMam(title) => "Could not find torrent \""@ + title@ + "\" on mam"@,
        LinkError::NoLibrary => "Could not find matching library for torrent"@,
        LinkError::NoTorrent => "Could not find torrent"@,
        LinkError::NoTorrentId => "Could not find torrent id"@,
        LinkError::NoMamId => "Could not find mam id"@,
        LinkError::NotInClient => "Could not find torrent in qbit"@,
        LinkError::UnknownMediaType(text) => "as_meta: "@ + text@,
        LinkError::BadMeta(text) => "as_meta: "@ + text@,
    }
}

impl LinkError {
    /// The error as a message.
    pub fn message(&self) -> (r: String)
        ensures
            r@ == error_message(*self),
    {
        match self {
            LinkError::NoAuthor => "Torrent has no author".to_owned(),
            LinkError::NoWantedFormat => "Could not find any wanted formats in torrent".to_owned(),
            LinkError::NotOnMam => "Could not find torrent on mam".to_owned(),
            LinkError::TitleNotOnMam(title) => concat3(
                "Could not find torrent \"",
                title.as_str(),
                "\" on mam",
            ),
            LinkError::NoLibrary => "Could not find matching library for torrent".to_owned(),
            LinkError::NoTorrent => "Could not find torrent".to_owned(),
            LinkError::NoTorrentId => "Could not find torrent id".to_owned(),
            LinkError::NoMamId => "Could not find mam id".to_owned(),
            LinkError::NotInClient => "Could not find torrent in qbit".to_owned(),
            LinkError::UnknownMediaType(text) => concat("as_meta: ", text.as_str()),
            LinkError::BadMeta(text) => concat("as_meta: ", text.as_str()),
        }
    }
}

/// The tracker's id of a torrent: the record's own, else the one that its
/// metadata holds.
pub fn resolved_mam_id(torrent: &Torrent, meta_mam_id: Option<u64>) -> (r: Option<u64>)
    ensures
        r == (if torrent.mam_id is Some {
            torrent.mam_id
        } else {
            meta_mam_id
        }),
{
    match torrent.mam_id {
        Some(id) => Some(id),
        None => meta_mam_id,
    }
}

/// The tracker's id under which a record's metadata is fetched anew.
pub fn mam_id_to_fetch(stored: Option<&Torrent>, meta_mam_id: Option<u64>) -> (r: Result<
    u64,
    LinkError,
>)
    ensures
        match stored {
            None => r == Err::<u64, LinkError>(LinkError::NoTorrentId),
            Some(t) => match (t.mam_id, meta_mam_id) {
                (Some(id), _) => r == Ok::<u64, LinkError>(id),
                (None, Some(id)) => r == Ok::<u64, LinkError>(id),
                (None, None) => r == Err::<u64, LinkError>(LinkError::NoMamId),
            },
        },
{
    match stored {
        None => Err(LinkError::NoTorrentId),
        Some(t) => match resolved_mam_id(t, meta_mam_id) {
            Some(id) => Ok(id),
            None => Err(LinkError::NoMamId),
        },
    }
}

/// Freshly fetched metadata with the identifiers that were known before; a
/// fetched identifier replaces one of the same service.
pub open spec fn merged_meta(known: MetaView, fetched: MetaView) -> MetaView {
    MetaView { ids: known.ids.union_prefer_right(fetched.ids), ..fetched }
}

/// Adds the identifiers that were known before to freshly fetched metadata.
pub fn merge_meta(known: &TorrentMeta, fetched: TorrentMeta) -> (r: TorrentMeta)
    ensures
        r@ == merged_meta(known@, fetched@),
{
    let mut ids = known.ids.clone();
    ids.append(&fetched.ids);
    let mut meta = fetched;
    meta.ids = ids;
    meta
}

/// Replaces a record's metadata by what was fetched, with the identifiers that
/// were known before. Tells whether that made a difference.
pub fn refresh_mam_metadata(torrent: &mut Torrent, fetched: TorrentMeta) -> (r: bool)
    ensures
        final(torrent)@ == (TorrentView {
            meta: merged_meta(old(torrent)@.meta, fetched@),
            ..old(torrent)@
        }),
        r == (old(torrent)@.meta != merged_meta(old(torrent)@.meta, fetched@)),
{
    let meta = merge_meta(&torrent.meta, fetched);
    if torrent.meta.is_same(&meta) {
        return false;
    }
    torrent.meta = meta;
    true
}

/// No identifier is lost in a merge, and what was fetched stands as it was
/// fetched.
pub proof fn merge_keeps_ids(known: MetaView, fetched: MetaView)
    ensures
        forall|k: Seq<char>| known.ids.contains_key(k) ==> #[trigger] merged_meta(
            known,
            fetched,
        ).ids.contains_key(k),
        forall|k: Seq<char>| #[trigger]
            fetched.ids.contains_key(k) ==> merged_meta(known, fetched).ids.contains_key(k)
                && merged_meta(known, fetched).ids[k] == fetched.ids[k],
        forall|k: Seq<char>|
            known.ids.contains_key(k) && !fetched.ids.contains_key(k) ==> #[trigger] merged_meta(
                known,
                fetched,
            ).ids[k] == known.ids[k],
{
}

/// Merging the same metadata a second time makes no difference.
pub proof fn merge_settles(known: MetaView, fetched: MetaView)
    ensures
        merged_meta(merged_meta(known, fetched), fetched) == merged_meta(known, fetched),
{
    assert(merged_meta(merged_meta(known, fetched), fetched).ids =~= merged_meta(
        known,
        fetched,
    ).ids);
}

/// After a merge everything but the identifiers is as it was fetched, whatever
/// was known before.
pub proof fn merge_takes_over_what_was_fetched(known: MetaView, fetched: MetaView)
    ensures
        ({
            let m = merged_meta(known, fetched);
            &&& m.vip_status == fetched.vip_status
            &&& m.cat == fetched.cat
            &&& m.media_type == fetched.media_type
            &&& m.main_cat == fetched.main_cat
            &&& m.categories == fetched.categories
            &&& m.tags == fetched.tags
            &&& m.language == fetched.language
            &&& m.flags == fetched.flags
            &&& m.filetypes == fetched.filetypes
            &&& m.num_files == fetched.num_files
            &&& m.size == fetched.size
            &&& m.title == fetched.title
            &&& m.edition == fetched.edition
            &&& m.description == fetched.description
            &&& m.authors == fetched.authors
            &&& m.narrators == fetched.narrators
            &&& m.series == fetched.series
            &&& m.source == fetched.source
            &&& m.uploaded_at == fetched.uploaded_at
        }),
{
}

/// Nothing but the identifiers that were known before comes into a merge: what
/// was known makes no other difference, and no identifier appears that was
/// neither known nor fetched.
pub proof fn merge_reads_only_known_ids(known: MetaView, other: MetaView, fetched: MetaView)
    requires
        known.ids == other.ids,
    ensures
        merged_meta(known, fetched) == merged_meta(other, fetched),
        forall|k: Seq<char>| #[trigger]
            merged_meta(known, fetched).ids.contains_key(k) ==> known.ids.contains_key(k)
                || fetched.ids.contains_key(k),
{
}

/// The formats that are linked of a torrent or a folder: for audio and for
/// ebooks, the first wanted one that a file has.
pub fn wanted_formats(config: &Config, library: &Library, files: &Vec<TorrentContent>) -> (r: Result<
    (Option<String>, Option<String>),
    LinkError,
>)
    ensures
        ({
            let names = crate::linker::common::lower_names(files@);
            let audio = crate::linker::common::selected_format(
                crate::linker::common::formats_in_force(
                    library.opts().audio_types,
                    config.audio_types@,
                ),
                names,
            );
            let ebook = crate::linker::common::selected_format(
                crate::linker::common::formats_in_force(
                    library.opts().ebook_types,
                    config.ebook_types@,
                ),
                names,
            );
            match r {
                Ok((a, e)) => (audio is Some || ebook is Some) && crate::text::text_of(a) == audio
                    && crate::text::text_of(e) == ebook,
                Err(e) => audio is None && ebook is None && e == LinkError::NoWantedFormat,
            }
        }),
{
    let audio = select_format(
        &library.options().audio_types,
        config.audio_types.as_slice(),
        files.as_slice(),
    );
    let ebook = select_format(
        &library.options().ebook_types,
        config.ebook_types.as_slice(),
        files.as_slice(),
    );
    if audio.is_none() && ebook.is_none() {
        return Err(LinkError::NoWantedFormat);
    }
    Ok((audio, ebook))
}

/// The directory that a book is linked into.
pub open spec fn link_dir(
    exclude: bool,
    library: Library,
    meta: MetaView,
    dir_exists: bool,
) -> Option<Seq<char>> {
    let exclude = exclude && !(meta.narrators.len() > 0 && dir_exists);
    crate::linker::common::wanted_dir(exclude, library.opts().library_dir@, meta)
}

/// The directory that a book is linked into. Where narrators are left out of
/// directory names and that directory is there already, the narrator's name
/// keeps the book apart. `dir_exists` tells whether the directory that
/// `library_dir` gives is there.
pub fn resolve_link_library_dir(
    config: &Config,
    library: &Library,
    meta: &TorrentMeta,
    dir_exists: bool,
) -> (r: Result<Option<PathBuf>, LinkError>)
    requires
        library.opts().method != LibraryLinkMethod::NoLink ==> {
            &&& crate::linker::common::has_book_dir(config.exclude_narrator_in_library_dir, meta@)
            &&& dir_exists ==> crate::linker::common::has_book_dir(
                config.exclude_narrator_in_library_dir && meta@.narrators.len() == 0,
                meta@,
            )
        },
    ensures
        match r {
            Ok(None) => library.opts().method == LibraryLinkMethod::NoLink,
            Ok(Some(dir)) => library.opts().method != LibraryLinkMethod::NoLink && link_dir(
                config.exclude_narrator_in_library_dir,
                *library,
                meta@,
                dir_exists,
            ) == Some(dir@),
            Err(e) => library.opts().method != LibraryLinkMethod::NoLink && meta@.authors.len() == 0
                && e == LinkError::NoAuthor,
        },
        library.opts().method == LibraryLinkMethod::NoLink ==> r is Ok,
        meta@.authors.len() > 0 ==> r is Ok,
{
    if library.options().method == LibraryLinkMethod::NoLink {
        return Ok(None);
    }
    let exclude = config.exclude_narrator_in_library_dir && !(meta.narrators.len() > 0
        && dir_exists);
    match library_dir(exclude, library, meta) {
        Some(dir) => Ok(Some(dir)),
        None => Err(LinkError::NoAuthor),
    }
}

/// A book goes into the directory that its library wants it in; only where the
/// narrator is left out and that directory is there already does a book with a
/// narrator go into the one with the narrator's name.
pub proof fn narrator_keeps_book_apart(exclude: bool, library: Library, meta: MetaView)
    ensures
        link_dir(exclude, library, meta, false) == crate::linker::common::wanted_dir(
            exclude,
            library.opts().library_dir@,
            meta,
        ),
        link_dir(false, library, meta, true) == link_dir(false, library, meta, false),
        meta.narrators.len() > 0 ==> link_dir(exclude, library, meta, true)
            == crate::linker::common::wanted_dir(false, library.opts().library_dir@, meta),
        meta.narrators.len() == 0 ==> link_dir(exclude, library, meta, true) == link_dir(
            exclude,
            library,
            meta,
            false,
        ),
{
}

/// Where a book goes: its directory, if it has one, and the plans for its
/// files.
#[derive(Debug, PartialEq)]
pub struct BookPlace {
    pub dir: Option<PathBuf>,
    pub plans: Vec<FileLinkPlan>,
}

impl BookPlace {
    /// The book has a directory if its library links files, and no plans
    /// without one.
    pub open spec fn fits(self, library: Library) -> bool {
        &&& self.dir is None <==> library.opts().method == LibraryLinkMethod::NoLink
        &&& self.dir is None ==> self.plans@.len() == 0
    }

    /// The paths of the planned files below the book's directory.
    pub open spec fn file_texts(self) -> Seq<Seq<char>> {
        relative_paths(self.plans@)
    }
}

impl Clone for BookPlace {
    fn clone(&self) -> (r: Self)
        ensures
            r.dir == self.dir,
            r.plans@ == self.plans@,
    {
        let mut plans: Vec<FileLinkPlan> = Vec::new();
        let mut i: usize = 0;
        while i < self.plans.len()
            invariant
                i <= self.plans@.len(),
                plans@ == self.plans@.take(i as int),
            decreases self.plans@.len() - i,
        {
            let plan = &self.plans[i];
            plans.push(
                FileLinkPlan {
                    download_path: plan.download_path.clone(),
                    library_path: plan.library_path.clone(),
                    relative_library_path: plan.relative_library_path.clone(),
                },
            );
            assert(plans@ == self.plans@.take(i + 1));
            i = i + 1;
        }
        assert(plans@ == self.plans@);
        BookPlace { dir: clone_path(&self.dir), plans }
    }
}

/// The paths of planned files below the book's directory.
pub open spec fn relative_paths(plans: Seq<FileLinkPlan>) -> Seq<Seq<char>> {
    plans.map_values(|p: FileLinkPlan| p.relative_library_path@)
}

/// The names that a directory and the plans for a book take are there.
pub open spec fn has_place_dirs(
    config: Config,
    library: Library,
    meta: MetaView,
    dir_exists: bool,
) -> bool {
    library.opts().method != LibraryLinkMethod::NoLink ==> {
        &&& crate::linker::common::has_book_dir(config.exclude_narrator_in_library_dir, meta)
        &&& dir_exists ==> crate::linker::common::has_book_dir(
            config.exclude_narrator_in_library_dir && meta.narrators.len() == 0,
            meta,
        )
    }
}

/// The files of the selected formats have names.
pub open spec fn has_file_names(
    files: Seq<TorrentContent>,
    audio: Option<Seq<char>>,
    ebook: Option<Seq<char>>,
) -> bool {
    forall|i: int|
        0 <= i < files.len() && crate::linker::torrent::is_selected(
            (#[trigger] files[i]).name@,
            audio,
            ebook,
        ) ==> files[i].name@.len() > 0
}

/// Where a torrent's book goes: into the directory that
/// `resolve_link_library_dir` gives, with a plan for each file of the selected
/// formats.
pub open spec fn is_place_of(
    config: Config,
    qbit_config: QbitConfig,
    torrent: QbitTorrent,
    library: Library,
    files: Seq<TorrentContent>,
    audio: Option<Seq<char>>,
    ebook: Option<Seq<char>>,
    meta: MetaView,
    dir_exists: bool,
    place: BookPlace,
) -> bool {
    &&& place.fits(library)
    &&& place.dir matches Some(dir) ==> {
        &&& link_dir(config.exclude_narrator_in_library_dir, library, meta, dir_exists) == Some(
            dir@,
        )
        &&& crate::linker::torrent::plans_of(place.plans@) == crate::linker::torrent::link_plans(
            qbit_config.path_mapping@,
            torrent.save_path@,
            files,
            audio,
            ebook,
            dir@,
        )
    }
}

/// Where a torrent's book goes. A book without an author has no place in a
/// library that links files.
pub fn book_place(
    config: &Config,
    qbit_config: &QbitConfig,
    torrent: &QbitTorrent,
    library: &Library,
    files: &Vec<TorrentContent>,
    selected_audio_format: &Option<String>,
    selected_ebook_format: &Option<String>,
    meta: &TorrentMeta,
    dir_exists: bool,
) -> (r: Result<BookPlace, LinkError>)
    requires
        has_place_dirs(*config, *library, meta@, dir_exists),
        library.opts().method != LibraryLinkMethod::NoLink ==> has_file_names(
            files@,
            crate::text::text_of(*selected_audio_format),
            crate::text::text_of(*selected_ebook_format),
        ),
    ensures
        r is Err <==> library.opts().method != LibraryLinkMethod::NoLink && meta@.authors.len()
            == 0,
        match r {
            Ok(place) => is_place_of(
                *config,
                *qbit_config,
                *torrent,
                *library,
                files@,
                crate::text::text_of(*selected_audio_format),
                crate::text::text_of(*selected_ebook_format),
                meta@,
                dir_exists,
                place,
            ),
            Err(e) => e == LinkError::NoAuthor,
        },
{
    match resolve_link_library_dir(config, library, meta, dir_exists) {
        Err(e) => Err(e),
        Ok(None) => Ok(BookPlace { dir: None, plans: Vec::new() }),
        Ok(Some(dir)) => {
            let audio: Option<&str> = match selected_audio_format {
                Some(f) => Some(f.as_str()),
                None => None,
            };
            let ebook: Option<&str> = match selected_ebook_format {
                Some(f) => Some(f.as_str()),
                None => None,
            };
            let plans = calculate_link_plans(qbit_config, torrent, files, audio, ebook, &dir);
            Ok(BookPlace { dir: Some(dir), plans })
        },
    }
}

/// One way to bring a file into a library.
#[derive(Clone, Copy, Debug, PartialEq, Eq, Structural)]
pub enum LinkOperation {
    Hardlink,
    Copy,
    Symlink,
}

/// The operations that a link method tries, in order, until one succeeds.
pub open spec fn method_operations(method: LibraryLinkMethod) -> Seq<LinkOperation> {
    match method {
        LibraryLinkMethod::Hardlink => seq![LinkOperation::Hardlink],
        LibraryLinkMethod::HardlinkOrCopy => seq![LinkOperation::Hardlink, LinkOperation::Copy],
        LibraryLinkMethod::Copy => seq![LinkOperation::Copy],
        LibraryLinkMethod::HardlinkOrSymlink => seq![
            LinkOperation::Hardlink,
            LinkOperation::Symlink,
        ],
        LibraryLinkMethod::Symlink => seq![LinkOperation::Symlink],
        LibraryLinkMethod::NoLink => seq![],
    }
}

/// The operations that a link method tries, in order, until one succeeds.
pub fn link_operations(method: LibraryLinkMethod) -> (r: Vec<LinkOperation>)
    ensures
        r@ == method_operations(method),
{
    let mut r: Vec<LinkOperation> = Vec::new();
    match method {
        LibraryLinkMethod::Hardlink => {
            r.push(LinkOperation::Hardlink);
        },
        LibraryLinkMethod::HardlinkOrCopy => {
            r.push(LinkOperation::Hardlink);
            r.push(LinkOperation::Copy);
        },
        LibraryLinkMethod::Copy => {
            r.push(LinkOperation::Copy);
        },
        LibraryLinkMethod::HardlinkOrSymlink => {
            r.push(LinkOperation::Hardlink);
            r.push(LinkOperation::Symlink);
        },
        LibraryLinkMethod::Symlink => {
            r.push(LinkOperation::Symlink);
        },
        LibraryLinkMethod::NoLink => {},
    }
    r
}

/// A link method that names an operation tries that one first, and one that
/// names a second as well tries it next; no method tries an operation that it
/// does not name.
pub proof fn methods_try_what_they_name(method: LibraryLinkMethod)
    ensures
        method_operations(method).contains(LinkOperation::Hardlink) <==> (method
            == LibraryLinkMethod::Hardlink || method == LibraryLinkMethod::HardlinkOrCopy || method
            == LibraryLinkMethod::HardlinkOrSymlink),
        method_operations(method).contains(LinkOperation::Copy) <==> (method
            == LibraryLinkMethod::Copy || method == LibraryLinkMethod::HardlinkOrCopy),
        method_operations(method).contains(LinkOperation::Symlink) <==> (method
            == LibraryLinkMethod::Symlink || method == LibraryLinkMethod::HardlinkOrSymlink),
        method_operations(method).contains(LinkOperation::Hardlink) ==> method_operations(method)[0]
            == LinkOperation::Hardlink,
        forall|i: int, j: int|
            0 <= i < j < method_operations(method).len() ==> #[trigger] method_operations(method)[i]
                != #[trigger] method_operations(method)[j],
        method_operations(method).len() == 0 <==> method == LibraryLinkMethod::NoLink,
{
    let ops = method_operations(method);
    match method {
        LibraryLinkMethod::Hardlink => {
            assert(ops[0] == LinkOperation::Hardlink);
        },
        LibraryLinkMethod::HardlinkOrCopy => {
            assert(ops[0] == LinkOperation::Hardlink);
            assert(ops[1] == LinkOperation::Copy);
        },
        LibraryLinkMethod::Copy => {
            assert(ops[0] == LinkOperation::Copy);
        },
        LibraryLinkMethod::HardlinkOrSymlink => {
            assert(ops[0] == LinkOperation::Hardlink);
            assert(ops[1] == LinkOperation::Symlink);
        },
        LibraryLinkMethod::Symlink => {
            assert(ops[0] == LinkOperation::Symlink);
        },
        LibraryLinkMethod::NoLink => {},
    }
}

/// What came of hard linking a file.
#[derive(Clone, Copy, Debug, PartialEq, Eq, Structural)]
pub enum HardLinkOutcome {
    /// The file is linked, now or from before.
    Linked,
    /// Another file stands in the way.
    Occupied,
    /// The link failed.
    Failed,
}

/// What came of hard linking a file: a target that is there already is fine
/// where it is the same file. `same_file` is `None` where the identity of one
/// of the files is not known.
pub fn hard_link_outcome(linked: bool, already_exists: bool, same_file: Option<bool>) -> (r:
    HardLinkOutcome)
    ensures
        r == HardLinkOutcome::Linked <==> linked || (already_exists && same_file == Some(true)),
        r == HardLinkOutcome::Occupied <==> !linked && already_exists && same_file == Some(false),
{
    if linked {
        return HardLinkOutcome::Linked;
    }
    if already_exists {
        match same_file {
            Some(same) => {
                if same {
                    return HardLinkOutcome::Linked;
                }
                return HardLinkOutcome::Occupied;
            },
            None => {},
        }
    }
    HardLinkOutcome::Failed
}

fn size_text(size: &Option<String>) -> (r: String)
    ensures
        r@ == (match size {
            Some(s) => s@,
            None => "?"@,
        }),
{
    match size {
        Some(s) => s.clone(),
        None => "?".to_owned(),
    }
}

/// The message for a file that another file stands in the way of. `file` is the
/// file's path as it is shown; a size that is not known is shown as `?`.
pub fn occupied_message(
    file: &str,
    torrent_size: &Option<String>,
    library_size: &Option<String>,
) -> (r: String)
    ensures
        r@ == "File \""@ + file@ + "\" already exists, torrent file size: "@ + (match torrent_size {
            Some(s) => s@,
            None => "?"@,
        }) + ", library file size: "@ + (match library_size {
            Some(s) => s@,
            None => "?"@,
        }),
{
    let mut r = concat3("File \"", file, "\" already exists, torrent file size: ");
    r.append(size_text(torrent_size).as_str());
    r.append(", library file size: ");
    r.append(size_text(library_size).as_str());
    r
}

/// What a torrent's record takes over from an earlier record.
pub open spec fn kept_created_at(existing: Option<&Torrent>, now: i64) -> i64 {
    match existing {
        Some(t) => t.created_at,
        None => now,
    }
}

/// The record of a torrent whose files were linked: it lies in the book's
/// directory, if the library links files, with the planned files in order.
/// `title_search` is the title in the form that searches use, `mam_id` the
/// tracker's id in the metadata.
pub fn linked_torrent(
    hash: &str,
    qbit_category: &str,
    library: &Library,
    place: &BookPlace,
    selected_audio_format: Option<String>,
    selected_ebook_format: Option<String>,
    existing: Option<&Torrent>,
    meta: &TorrentMeta,
    mam_id: Option<u64>,
    title_search: String,
    now: i64,
) -> (r: Torrent)
    requires
        place.fits(*library),
    ensures
        r.library_path is None <==> library.opts().method == LibraryLinkMethod::NoLink,
        r.library_path is None ==> r@.library_files.len() == 0,
        crate::path::is_sorted_texts(place.file_texts(), r@.library_files),
        r@ == (TorrentView {
            id: hash@,
            id_is_hash: true,
            mam_id,
            library_path: crate::model::path_of(place.dir),
            library_files: r@.library_files,
            linker: crate::text::text_of(library.opts().name),
            category: crate::linker::torrent::client_category(qbit_category@),
            selected_audio_format: crate::text::text_of(selected_audio_format),
            selected_ebook_format: crate::text::text_of(selected_ebook_format),
            title_search: title_search@,
            meta: meta@,
            created_at: kept_created_at(existing, now),
            replaced_with: match existing {
                Some(t) => t@.replaced_with,
                None => None,
            },
            library_mismatch: None,
            client_status: match existing {
                Some(t) => t.client_status,
                None => None,
            },
        }),
{
    let files = linked_files(&place.plans);
    let library_files = sort_paths(&files);
    proof {
        crate::path::lemma_sorted_texts(files@, library_files@);
        assert(crate::path::path_texts(files@).len() == files@.len());
    }
    let category: Option<String> = if qbit_category.unicode_len() == 0 {
        None
    } else {
        Some(qbit_category.to_owned())
    };
    Torrent {
        id: hash.to_owned(),
        id_is_hash: true,
        mam_id,
        library_path: clone_path(&place.dir),
        library_files,
        linker: clone_option(&library.options().name),
        category,
        selected_audio_format,
        selected_ebook_format,
        title_search,
        meta: meta.clone(),
        created_at: match existing {
            Some(t) => t.created_at,
            None => now,
        },
        replaced_with: match existing {
            Some(t) => clone_replaced(&t.replaced_with),
            None => None,
        },
        library_mismatch: None,
        client_status: match existing {
            Some(t) => t.client_status,
            None => None,
        },
    }
}

/// The entry of the history for a book that was linked; a book that lies in no
/// library directory has none.
pub fn linked_event(
    id: &str,
    mam_id: Option<u64>,
    library: &Library,
    library_path: &Option<PathBuf>,
) -> (r: Option<Event>)
    ensures
        match (r, *library_path) {
            (Some(e), Some(p)) => e@ == (EventView {
                hash: Some(id@),
                mam_id,
                event: EventTypeView::Linked {
                    linker: crate::text::text_of(library.opts().name),
                    library_path: p@,
                },
            }),
            (None, None) => true,
            _ => false,
        },
{
    match clone_path(library_path) {
        Some(p) => Some(
            Event::new(
                Some(id.to_owned()),
                mam_id,
                EventType::Linked {
                    linker: clone_option(&library.options().name),
                    library_path: p,
                },
            ),
        ),
        None => None,
    }
}

/// Whether a book is to move: it does not lie in the directory that its library
/// wants it in.
pub fn library_path_changed(torrent: &Torrent, library: &Library, config: &Config) -> (r: bool)
    requires
        crate::linker::common::has_book_dir(
            config.exclude_narrator_in_library_dir,
            torrent@.meta,
        ),
    ensures
        r == !({
            let dir = crate::linker::common::wanted_dir(
                config.exclude_narrator_in_library_dir,
                library.opts().library_dir@,
                torrent@.meta,
            );
            match torrent@.library_path {
                Some(p) => crate::linker::torrent::lies_at(p, dir),
                None => dir is None,
            }
        }),
{
    let dir = library_dir(config.exclude_narrator_in_library_dir, library, &torrent.meta);
    match (&torrent.library_path, &dir) {
        (Some(a), Some(b)) => !a.is_same(b),
        (None, None) => false,
        _ => true,
    }
}

/// A torrent that was linked again.
#[derive(Debug, PartialEq, Eq)]
pub struct InteractiveRelinkSuccess {
    pub id: String,
    pub title: String,
}

/// A torrent that could not be linked again, and why.
#[derive(Debug, PartialEq, Eq)]
pub struct InteractiveRelinkFailure {
    pub id: String,
    pub title: String,
    pub error: String,
}

/// What came of linking several torrents again.
#[derive(Debug, PartialEq, Eq)]
pub struct InteractiveRelinkResult {
    pub succeeded: Vec<InteractiveRelinkSuccess>,
    pub failed: Vec<InteractiveRelinkFailure>,
}

impl Default for InteractiveRelinkResult {
    fn default() -> (r: Self)
        ensures
            r.succeeded@.len() == 0,
            r.failed@.len() == 0,
    {
        InteractiveRelinkResult { succeeded: Vec::new(), failed: Vec::new() }
    }
}

impl InteractiveRelinkResult {
    /// Adds what came of one torrent.
    pub fn record(&mut self, id: String, title: String, outcome: Result<(), String>)
        ensures
            outcome is Ok ==> final(self).succeeded@ == old(self).succeeded@.push(
                InteractiveRelinkSuccess { id, title },
            ) && final(self).failed@ == old(self).failed@,
            outcome matches Err(error) ==> final(self).failed@ == old(self).failed@.push(
                InteractiveRelinkFailure { id, title, error },
            ) && final(self).succeeded@ == old(self).succeeded@,
    {
        match outcome {
            Ok(()) => {
                self.succeeded.push(InteractiveRelinkSuccess { id, title });
            },
            Err(error) => {
                self.failed.push(InteractiveRelinkFailure { id, title, error });
            },
        }
    }
}

/// What came of linking one torrent again.
pub struct RelinkOutcome {
    pub id: String,
    pub title: String,
    pub outcome: Result<(), String>,
}

/// The torrents that were linked again, in order.
pub open spec fn relinked(outcomes: Seq<RelinkOutcome>) -> Seq<InteractiveRelinkSuccess>
    decreases outcomes.len(),
{
    if outcomes.len() == 0 {
        seq![]
    } else {
        let o = outcomes.last();
        let before = relinked(outcomes.drop_last());
        if o.outcome is Ok {
            before.push(InteractiveRelinkSuccess { id: o.id, title: o.title })
        } else {
            before
        }
    }
}

/// The torrents that could not be linked again, in order.
pub open spec fn not_relinked(outcomes: Seq<RelinkOutcome>) -> Seq<InteractiveRelinkFailure>
    decreases outcomes.len(),
{
    if outcomes.len() == 0 {
        seq![]
    } else {
        let o = outcomes.last();
        let before = not_relinked(outcomes.drop_last());
        match o.outcome {
            Err(error) => before.push(
                InteractiveRelinkFailure { id: o.id, title: o.title, error },
            ),
            Ok(_) => before,
        }
    }
}

/// Sums up what came of linking several torrents again.
pub fn relink_many(outcomes: Vec<RelinkOutcome>) -> (r: InteractiveRelinkResult)
    ensures
        r.succeeded@ == relinked(outcomes@),
        r.failed@ == not_relinked(outcomes@),
{
    let mut r = InteractiveRelinkResult { succeeded: Vec::new(), failed: Vec::new() };
    let mut i: usize = 0;
    while i < outcomes.len()
        invariant
            i <= outcomes@.len(),
            r.succeeded@ == relinked(outcomes@.take(i as int)),
            r.failed@ == not_relinked(outcomes@.take(i as int)),
        decreases outcomes@.len() - i,
    {
        let o = &outcomes[i];
        let ghost now = outcomes@.take(i + 1);
        proof {
            assert(now.drop_last() == outcomes@.take(i as int));
            assert(now.last() == outcomes@[i as int]);
        }
        let outcome: Result<(), String> = match &o.outcome {
            Ok(()) => Ok(()),
            Err(e) => Err(e.clone()),
        };
        assert(outcome is Ok == o.outcome is Ok);
        assert(outcome matches Err(e) ==> o.outcome->Err_0 == e);
        r.record(o.id.clone(), o.title.clone(), outcome);
        i = i + 1;
    }
    assert(outcomes@.take(i as int) == outcomes@);
    r
}

/// Every torrent that was to be linked again is accounted for once.
pub proof fn every_relink_is_counted(outcomes: Seq<RelinkOutcome>)
    ensures
        relinked(outcomes).len() + not_relinked(outcomes).len() == outcomes.len(),
    decreases outcomes.len(),
{
    if outcomes.len() > 0 {
        every_relink_is_counted(outcomes.drop_last());
    }
}

/// A torrent that was linked again is reported as such under its id and title,
/// and one that was not is reported as failed, with its error; each stands
/// behind those that came before it.
pub proof fn outcome_is_reported_where_it_belongs(outcomes: Seq<RelinkOutcome>, last: RelinkOutcome)
    ensures
        last.outcome is Ok ==> relinked(outcomes.push(last)) == relinked(outcomes).push(
            InteractiveRelinkSuccess { id: last.id, title: last.title },
        ) && not_relinked(outcomes.push(last)) == not_relinked(outcomes),
        last.outcome matches Err(error) ==> not_relinked(outcomes.push(last)) == not_relinked(
            outcomes,
        ).push(InteractiveRelinkFailure { id: last.id, title: last.title, error }) && relinked(
            outcomes.push(last),
        ) == relinked(outcomes),
        relinked(seq![]).len() == 0,
        not_relinked(seq![]).len() == 0,
{
    assert(outcomes.push(last).drop_last() == outcomes);
    assert(outcomes.push(last).last() == last);
}

/// The title under which a torrent is reported: that of its record, or its hash
/// where there is none.
pub fn torrent_title_for_summary(stored: Option<&Torrent>, hash: &str) -> (r: String)
    ensures
        r@ == (match stored {
            Some(t) => t.meta.title@,
            None => hash@,
        }),
{
    match stored {
        Some(t) => t.meta.title.clone(),
        None => hash.to_owned(),
    }
}

/// What a download client answered when it was asked for a torrent.
pub enum ClientReply {
    LoginFailed,
    ListFailed,
    Torrents(Vec<QbitTorrent>),
}

/// The torrent that a client has: the last of those it lists.
pub open spec fn reply_torrent(reply: ClientReply) -> Option<QbitTorrent> {
    match reply {
        ClientReply::Torrents(v) if v@.len() > 0 => Some(v@.last()),
        _ => None,
    }
}

/// The torrent that a client has. Where there is none, or the client did not
/// answer, the next client is asked.
pub fn take_torrent(reply: ClientReply) -> (r: Option<QbitTorrent>)
    ensures
        r == reply_torrent(reply),
{
    match reply {
        ClientReply::Torrents(v) => {
            let mut v = v;
            v.pop()
        },
        _ => None,
    }
}

/// One step of cleaning up after a link that failed. A file or directory that
/// is not there counts as removed.
#[derive(Debug, PartialEq)]
pub enum CleanupStep {
    RemoveFile(PathBuf),
    /// Remove the directories above `path` that are empty, up to `stop_at`.
    RemoveEmptyParents { path: PathBuf, stop_at: PathBuf },
    RemoveDir(PathBuf),
}

#[verifier::ext_equal]
pub enum CleanupView {
    RemoveFile(Seq<char>),
    RemoveEmptyParents { path: Seq<char>, stop_at: Seq<char> },
    RemoveDir(Seq<char>),
}

impl View for CleanupStep {
    type V = CleanupView;

    open spec fn view(&self) -> CleanupView {
        match self {
            CleanupStep::RemoveFile(p) => CleanupView::RemoveFile(p@),
            CleanupStep::RemoveEmptyParents { path, stop_at } => CleanupView::RemoveEmptyParents {
                path: path@,
                stop_at: stop_at@,
            },
            CleanupStep::RemoveDir(p) => CleanupView::RemoveDir(p@),
        }
    }
}

pub open spec fn cleanup_of(v: Seq<CleanupStep>) -> Seq<CleanupView> {
    v.map_values(|s: CleanupStep| s@)
}

/// The steps for the linked files.
pub open spec fn file_cleanup(plans: Seq<FileLinkPlan>, dir: Seq<char>) -> Seq<CleanupView>
    decreases plans.len(),
{
    if plans.len() == 0 {
        seq![]
    } else {
        let p = plans.last().library_path@;
        file_cleanup(plans.drop_last(), dir) + seq![
            CleanupView::RemoveFile(p),
            CleanupView::RemoveEmptyParents { path: p, stop_at: dir },
        ]
    }
}

/// What a failed link left: the linked files with the directories that they
/// leave empty, the metadata, the cover, and the book's directory.
pub open spec fn leftovers(plans: Seq<FileLinkPlan>, dir: Seq<char>) -> Seq<CleanupView> {
    file_cleanup(plans, dir) + seq![
        CleanupView::RemoveFile(crate::path::path_join(dir, "metadata.json"@)),
        CleanupView::RemoveFile(crate::path::path_join(dir, "cover.jpg"@)),
        CleanupView::RemoveDir(dir),
    ]
}

proof fn lemma_file_cleanup(plans: Seq<FileLinkPlan>, dir: Seq<char>, k: int)
    requires
        0 <= k < plans.len(),
    ensures
        file_cleanup(plans, dir).len() == 2 * plans.len(),
        file_cleanup(plans, dir)[2 * k] == CleanupView::RemoveFile(plans[k].library_path@),
    decreases plans.len(),
{
    let rest = plans.drop_last();
    let before = file_cleanup(rest, dir);
    let p = plans.last().library_path@;
    let last = seq![
        CleanupView::RemoveFile(p),
        CleanupView::RemoveEmptyParents { path: p, stop_at: dir },
    ];
    if k < rest.len() {
        lemma_file_cleanup(rest, dir, k);
    } else if rest.len() > 0 {
        lemma_file_cleanup(rest, dir, 0);
    }
    assert(file_cleanup(plans, dir) == before + last);
    assert(before.len() == 2 * rest.len());
    if k < rest.len() {
        assert((before + last)[2 * k] == before[2 * k]);
        assert(rest[k] == plans[k]);
    } else {
        assert((before + last)[2 * k] == last[0]);
        assert(plans[k] == plans.last());
    }
}

/// Whatever the placing of a book makes is removed after it failed: each planned
/// file, the metadata, and last the book's directory.
pub proof fn everything_placed_is_removed(plans: Seq<FileLinkPlan>, dir: Seq<char>)
    ensures
        forall|k: int|
            0 <= k < plans.len() ==> leftovers(plans, dir).contains(
                CleanupView::RemoveFile((#[trigger] plans[k]).library_path@),
            ),
        leftovers(plans, dir).contains(
            CleanupView::RemoveFile(crate::path::path_join(dir, "metadata.json"@)),
        ),
        leftovers(plans, dir).last() == CleanupView::RemoveDir(dir),
{
    let all = leftovers(plans, dir);
    let n = file_cleanup(plans, dir).len() as int;
    assert forall|k: int| 0 <= k < plans.len() implies all.contains(
        CleanupView::RemoveFile((#[trigger] plans[k]).library_path@),
    ) by {
        lemma_file_cleanup(plans, dir, k);
        assert(all[2 * k] == CleanupView::RemoveFile(plans[k].library_path@));
    }
    assert(all[n] == CleanupView::RemoveFile(crate::path::path_join(dir, "metadata.json"@)));
}

/// Cleaning up touches nothing but what the placing makes: the planned files,
/// the metadata and the cover in the book's directory, the directories between
/// a planned file and the book's directory, and that directory itself.
pub proof fn only_what_was_placed_is_removed(plans: Seq<FileLinkPlan>, dir: Seq<char>, k: int)
    requires
        0 <= k < leftovers(plans, dir).len(),
    ensures
        match leftovers(plans, dir)[k] {
            CleanupView::RemoveFile(p) => p == crate::path::path_join(dir, "metadata.json"@) || p
                == crate::path::path_join(dir, "cover.jpg"@) || (exists|i: int|
                0 <= i < plans.len() && (#[trigger] plans[i]).library_path@ == p),
            CleanupView::RemoveEmptyParents { path, stop_at } => stop_at == dir && (exists|i: int|
                0 <= i < plans.len() && (#[trigger] plans[i]).library_path@ == path),
            CleanupView::RemoveDir(p) => p == dir && k == leftovers(plans, dir).len() - 1,
        },
{
    let all = leftovers(plans, dir);
    let n = file_cleanup(plans, dir).len();
    if k < n {
        assert(all[k] == file_cleanup(plans, dir)[k]);
        lemma_file_steps(plans, dir, k);
    } else {
        assert(all[n as int] == CleanupView::RemoveFile(
            crate::path::path_join(dir, "metadata.json"@),
        ));
        assert(all[n as int + 1] == CleanupView::RemoveFile(crate::path::path_join(dir, "cover.jpg"@)));
        assert(all[n as int + 2] == CleanupView::RemoveDir(dir));
    }
}

proof fn lemma_file_steps(plans: Seq<FileLinkPlan>, dir: Seq<char>, k: int)
    requires
        0 <= k < file_cleanup(plans, dir).len(),
    ensures
        match file_cleanup(plans, dir)[k] {
            CleanupView::RemoveFile(p) => exists|i: int|
                0 <= i < plans.len() && (#[trigger] plans[i]).library_path@ == p,
            CleanupView::RemoveEmptyParents { path, stop_at } => stop_at == dir && (exists|i: int|
                0 <= i < plans.len() && (#[trigger] plans[i]).library_path@ == path),
            CleanupView::RemoveDir(_) => false,
        },
    decreases plans.len(),
{
    if plans.len() > 0 {
        let rest = plans.drop_last();
        let before = file_cleanup(rest, dir);
        if k < before.len() {
            assert(file_cleanup(plans, dir)[k] == before[k]);
            lemma_file_steps(rest, dir, k);
            let p = match before[k] {
                CleanupView::RemoveFile(p) => p,
                CleanupView::RemoveEmptyParents { path, .. } => path,
                CleanupView::RemoveDir(p) => p,
            };
            let i = choose|i: int|
                0 <= i < rest.len() && (#[trigger] rest[i]).library_path@ == p;
            assert(plans[i].library_path@ == p);
        } else {
            assert(plans[plans.len() - 1] == plans.last());
        }
    }
}

/// The steps that remove what a failed link left.
pub fn cleanup_partial_link_outputs(library_path: &PathBuf, plans: &Vec<FileLinkPlan>) -> (r: Vec<
    CleanupStep,
>)
    ensures
        cleanup_of(r@) == leftovers(plans@, library_path@),
{
    let mut r: Vec<CleanupStep> = Vec::new();
    let mut i: usize = 0;
    while i < plans.len()
        invariant
            i <= plans@.len(),
            cleanup_of(r@) == file_cleanup(plans@.take(i as int), library_path@),
        decreases plans@.len() - i,
    {
        let ghost now = plans@.take(i + 1);
        let ghost before = cleanup_of(r@);
        proof {
            assert(now.drop_last() == plans@.take(i as int));
            assert(now.last() == plans@[i as int]);
        }
        let path = &plans[i].library_path;
        r.push(CleanupStep::RemoveFile(path.clone()));
        r.push(
            CleanupStep::RemoveEmptyParents { path: path.clone(), stop_at: library_path.clone() },
        );
        assert(cleanup_of(r@) == before + seq![
            CleanupView::RemoveFile(path@),
            CleanupView::RemoveEmptyParents { path: path@, stop_at: library_path@ },
        ]);
        i = i + 1;
    }
    assert(plans@.take(i as int) == plans@);
    let ghost before = cleanup_of(r@);
    r.push(CleanupStep::RemoveFile(library_path.join("metadata.json")));
    r.push(CleanupStep::RemoveFile(library_path.join("cover.jpg")));
    r.push(CleanupStep::RemoveDir(library_path.clone()));
    assert(cleanup_of(r@) == before + seq![
        CleanupView::RemoveFile(crate::path::path_join(library_path@, "metadata.json"@)),
        CleanupView::RemoveFile(crate::path::path_join(library_path@, "cover.jpg"@)),
        CleanupView::RemoveDir(library_path@),
    ]);
    r
}

/// What came of removing a file or a directory.
#[derive(Clone, Copy, Debug, PartialEq, Eq, Structural)]
pub enum RemovalOutcome {
    Removed,
    NotFound,
    NotEmpty,
    Failed,
}

/// Whether a removal counts as done: what is not there needs no removing.
pub fn ignore_not_found(outcome: RemovalOutcome) -> (r: bool)
    ensures
        r == (outcome == RemovalOutcome::Removed || outcome == RemovalOutcome::NotFound),
{
    match outcome {
        RemovalOutcome::Removed => true,
        RemovalOutcome::NotFound => true,
        _ => false,
    }
}

/// The next directory to remove above `path`: its parent, unless that is where
/// to stop.
pub open spec fn dir_above(path: Seq<char>, stop_at: Seq<char>) -> Option<Seq<char>> {
    match crate::path::path_parent(path) {
        Some(p) if !crate::path::same_path(p, stop_at) => Some(p),
        _ => None,
    }
}

/// The next directory to remove above `path`: its parent, unless that is where
/// to stop.
pub fn next_dir_above(path: &PathBuf, stop_at: &PathBuf) -> (r: Option<PathBuf>)
    ensures
        crate::model::path_of(r) == dir_above(path@, stop_at@),
{
    match path.parent() {
        Some(p) => {
            if p.is_same(stop_at) {
                None
            } else {
                Some(p)
            }
        },
        None => None,
    }
}

/// What to do after an attempt to remove a directory.
#[derive(Debug, PartialEq)]
pub enum RemovalStep {
    Remove(PathBuf),
    Done,
    Fail,
}

/// Goes on to the directory above one that is gone; stops at one that is not
/// empty.
pub fn after_dir_removal(outcome: RemovalOutcome, dir: &PathBuf, stop_at: &PathBuf) -> (r:
    RemovalStep)
    ensures
        match outcome {
            RemovalOutcome::Removed | RemovalOutcome::NotFound => match dir_above(dir@, stop_at@) {
                Some(p) => r matches RemovalStep::Remove(q) && q@ == p,
                None => r is Done,
            },
            RemovalOutcome::NotEmpty => r is Done,
            RemovalOutcome::Failed => r is Fail,
        },
{
    match outcome {
        RemovalOutcome::NotEmpty => RemovalStep::Done,
        RemovalOutcome::Failed => RemovalStep::Fail,
        _ => match next_dir_above(dir, stop_at) {
            Some(p) => RemovalStep::Remove(p),
            None => RemovalStep::Done,
        },
    }
}

/// Cleaning up above a path inside a book's directory never leaves that
/// directory and never removes it: each directory it goes on to lies inside,
/// and is not the book's directory itself.
pub proof fn removal_stays_inside(path: Seq<char>, stop_at: Seq<char>)
    requires
        crate::path::lies_under(path, stop_at),
        !crate::path::same_path(path, stop_at),
    ensures
        dir_above(path, stop_at) matches Some(p) ==> crate::path::lies_under(p, stop_at)
            && !crate::path::same_path(p, stop_at),
{
    crate::path::parent_stays_under(path, stop_at);
}

/// The directory that follows in cleaning up is the one right above, until that
/// is where to stop.
pub proof fn removal_goes_up_one_by_one(path: Seq<char>, stop_at: Seq<char>)
    ensures
        dir_above(path, stop_at) matches Some(p) ==> crate::path::parts(p) == crate::path::parts(
            path,
        ).drop_last() && crate::path::parts(p) != crate::path::parts(stop_at),
        crate::path::path_parent(path) is Some && crate::path::parts(path).drop_last()
            != crate::path::parts(stop_at) ==> dir_above(path, stop_at) is Some,
{
    if crate::path::path_parent(path) is Some {
        crate::path::parent_drops_last_part(path);
    }
}

/// The record without where the book was.
pub open spec fn forgotten(t: TorrentView) -> TorrentView {
    TorrentView {
        library_path: None,
        library_files: seq![],
        linker: None,
        library_mismatch: None,
        ..t
    }
}

/// Forgets where a torrent was linked.
pub fn clear_torrent_link_state(torrent: &mut Torrent)
    ensures
        final(torrent)@ == forgotten(old(torrent)@),
{
    torrent.library_path = None;
    torrent.library_files = Vec::new();
    torrent.linker = None;
    torrent.library_mismatch = None;
}

/// Forgetting where a book was leaves no trace of the place, and nothing else is
/// forgotten.
pub proof fn only_place_is_forgotten(t: TorrentView)
    ensures
        ({
            let f = forgotten(t);
            &&& f.library_path is None
            &&& f.library_files.len() == 0
            &&& f.linker is None
            &&& f.library_mismatch is None
            &&& f.id == t.id
            &&& f.id_is_hash == t.id_is_hash
            &&& f.mam_id == t.mam_id
            &&& f.category == t.category
            &&& f.selected_audio_format == t.selected_audio_format
            &&& f.selected_ebook_format == t.selected_ebook_format
            &&& f.title_search == t.title_search
            &&& f.meta == t.meta
            &&& f.created_at == t.created_at
            &&& f.replaced_with == t.replaced_with
            &&& f.client_status == t.client_status
        }),
{
}

/// Where a book goes, file by file: in the book's directory every file whose
/// name has one of the selected endings has a plan, which takes it from below
/// the mapped save path, and there are no more plans than files.
pub proof fn place_holds_every_selected_file(
    config: Config,
    qbit_config: QbitConfig,
    torrent: QbitTorrent,
    library: Library,
    files: Seq<TorrentContent>,
    audio: Option<Seq<char>>,
    ebook: Option<Seq<char>>,
    meta: MetaView,
    dir_exists: bool,
    place: BookPlace,
    i: int,
    stem: Seq<char>,
    ending: Seq<char>,
)
    requires
        is_place_of(
            config,
            qbit_config,
            torrent,
            library,
            files,
            audio,
            ebook,
            meta,
            dir_exists,
            place,
        ),
        library.opts().method != LibraryLinkMethod::NoLink,
        0 <= i < files.len(),
        files[i].name@ == stem + ending,
        audio == Some(ending) || ebook == Some(ending),
    ensures
        place.dir matches Some(dir) && link_dir(
            config.exclude_narrator_in_library_dir,
            library,
            meta,
            dir_exists,
        ) == Some(dir@),
        place.plans@.len() <= files.len(),
        exists|k: int|
            0 <= k < place.plans@.len() && (#[trigger] place.plans@[k]).download_path@
                == crate::path::path_join(
                crate::linker::common::mapped_path(qbit_config.path_mapping@, torrent.save_path@),
                files[i].name@,
            ) && place.plans@[k].library_path@ == crate::path::path_join(
                place.dir.unwrap()@,
                place.plans@[k].relative_library_path@,
            ),
{
    let dir = place.dir.unwrap()@;
    let mapping = qbit_config.path_mapping@;
    let save = torrent.save_path@;
    let all = crate::linker::torrent::link_plans(mapping, save, files, audio, ebook, dir);
    let a = files.take(i);
    let one = seq![files[i]];
    let b = files.skip(i + 1);
    assert(files == a + one + b);
    crate::linker::torrent::plans_follow_files(mapping, save, a + one, b, audio, ebook, dir);
    crate::linker::torrent::plans_follow_files(mapping, save, a, one, audio, ebook, dir);
    crate::linker::torrent::selected_file_is_planned(
        mapping,
        save,
        files[i],
        audio,
        ebook,
        dir,
        stem,
        ending,
    );
    lemma_plan_count(mapping, save, files, audio, ebook, dir);
    let x = crate::linker::torrent::link_plans(mapping, save, a, audio, ebook, dir);
    let y = crate::linker::torrent::link_plans(mapping, save, one, audio, ebook, dir);
    let k = x.len() as int;
    assert(all[k] == y[0]);
    let plans = crate::linker::torrent::plans_of(place.plans@);
    assert(plans.len() == place.plans@.len());
    assert(plans[k] == place.plans@[k]@);
}

proof fn lemma_plan_count(
    mapping: Seq<(PathBuf, PathBuf)>,
    save: Seq<char>,
    files: Seq<TorrentContent>,
    audio: Option<Seq<char>>,
    ebook: Option<Seq<char>>,
    dir: Seq<char>,
)
    ensures
        crate::linker::torrent::link_plans(mapping, save, files, audio, ebook, dir).len()
            <= files.len(),
    decreases files.len(),
{
    if files.len() > 0 {
        lemma_plan_count(mapping, save, files.drop_last(), audio, ebook, dir);
    }
}

/// The directories that a file leaves empty are removed right behind the file.
pub proof fn empty_directories_follow_file(plans: Seq<FileLinkPlan>, dir: Seq<char>, k: int)
    requires
        0 <= k < plans.len(),
    ensures
        leftovers(plans, dir).len() == 2 * plans.len() + 3,
        leftovers(plans, dir)[2 * k] == CleanupView::RemoveFile(plans[k].library_path@),
        leftovers(plans, dir)[2 * k + 1] == (CleanupView::RemoveEmptyParents {
            path: plans[k].library_path@,
            stop_at: dir,
        }),
{
    lemma_file_cleanup(plans, dir, k);
    lemma_parent_steps(plans, dir, k);
    let files = file_cleanup(plans, dir);
    assert(leftovers(plans, dir)[2 * k] == files[2 * k]);
    assert(leftovers(plans, dir)[2 * k + 1] == files[2 * k + 1]);
}

proof fn lemma_parent_steps(plans: Seq<FileLinkPlan>, dir: Seq<char>, k: int)
    requires
        0 <= k < plans.len(),
    ensures
        file_cleanup(plans, dir)[2 * k + 1] == (CleanupView::RemoveEmptyParents {
            path: plans[k].library_path@,
            stop_at: dir,
        }),
    decreases plans.len(),
{
    let rest = plans.drop_last();
    let before = file_cleanup(rest, dir);
    let p = plans.last().library_path@;
    let last = seq![
        CleanupView::RemoveFile(p),
        CleanupView::RemoveEmptyParents { path: p, stop_at: dir },
    ];
    if rest.len() > 0 {
        lemma_file_cleanup(rest, dir, 0);
    }
    assert(file_cleanup(plans, dir) == before + last);
    assert(before.len() == 2 * rest.len());
    if k < rest.len() {
        lemma_parent_steps(rest, dir, k);
        assert((before + last)[2 * k + 1] == before[2 * k + 1]);
        assert(rest[k] == plans[k]);
    } else {
        assert((before + last)[2 * k + 1] == last[1]);
        assert(plans[k] == plans.last());
    }
}

/// A book that was known before keeps the time at which it was added.
pub proof fn known_book_keeps_its_time(known: &Torrent, now: i64)
    ensures
        kept_created_at(Some(known), now) == known.created_at,
        kept_created_at(None, now) == now,
{
}

/// The torrent that a client has is the last one that it lists; a client that
/// lists none, or did not answer, has none.
pub proof fn last_listed_torrent_is_taken(v: Vec<QbitTorrent>)
    ensures
        v@.len() > 0 ==> reply_torrent(ClientReply::Torrents(v)) == Some(v@[v@.len() - 1]),
        v@.len() == 0 ==> reply_torrent(ClientReply::Torrents(v)) is None,
        reply_torrent(ClientReply::LoginFailed) is None,
        reply_torrent(ClientReply::ListFailed) is None,
{
}

/// The files of a book's place are its plans' paths below the book's directory,
/// one for one.
pub proof fn place_names_its_files(place: BookPlace, k: int)
    ensures
        place.file_texts().len() == place.plans@.len(),
        0 <= k < place.plans@.len() ==> place.file_texts()[k]
            == place.plans@[k].relative_library_path@,
{
}

} // verus!
