//! Folders of ripped books: which of their files are which, what their metadata
//! says, and how a folder becomes a book of the library.
use vstd::prelude::*;
use vstd::string::*;

use crate::ids::Ids;
use crate::linker::common::HasFileName;
use crate::linker::course::linked_files;
use crate::linker::relink::{resolve_link_library_dir, BookPlace, LinkError};
use crate::linker::torrent::FileLinkPlan;
use crate::model::{
    clone_path, clone_term, Config, Library, LibraryLinkMethod, MetaView, MetadataSource, Series,
    SeriesView, Term, Torrent, TorrentMeta, TorrentView, Vocabulary,
};
use crate::order::{insert_text, order_text, stable_order, Order};
use crate::outside::to_lowercase;
use crate::path::{sort_paths, PathBuf};
use crate::text::{
    chars_of, clone_option, concat, has_entry, number_text, same_text, slice, starts_with,
};

verus! {

/// A file of a folder.
#[derive(Debug, PartialEq)]
pub struct FolderFile {
    pub name: String,
    pub path: PathBuf,
    pub size: u64,
}

impl HasFileName for FolderFile {
    open spec fn lower_name(&self) -> Seq<char> {
        crate::outside::lowercase(self.name@)
    }

    fn name_lower(&self) -> (r: String) {
        to_lowercase(self.name.as_str())
    }
}

impl Clone for FolderFile {
    fn clone(&self) -> (r: Self)
        ensures
            r == *self,
    {
        FolderFile { name: self.name.clone(), path: self.path.clone(), size: self.size }
    }
}

/// The place of the last dot before `k`.
pub open spec fn last_dot(name: Seq<char>, k: int) -> Option<int>
    decreases k,
{
    if k <= 0 || k > name.len() {
        None
    } else if name[k - 1] == '.' {
        Some(k - 1)
    } else {
        last_dot(name, k - 1)
    }
}

/// The extension of a file name: what follows the last dot, unless that is the
/// name's first character or the name is `..`.
pub open spec fn file_extension(name: Seq<char>) -> Option<Seq<char>> {
    match last_dot(name, name.len() as int) {
        Some(k) if k > 0 && name != seq!['.', '.'] => Some(name.skip(k + 1)),
        _ => None,
    }
}

proof fn lemma_last_dot(name: Seq<char>, d: int, k: int)
    requires
        -1 <= d < k <= name.len(),
        d >= 0 ==> name[d] == '.',
        forall|j: int| d < j < k ==> name[j] != '.',
    ensures
        last_dot(name, k) == (if d >= 0 {
            Some(d)
        } else {
            None
        }),
    decreases k,
{
    if d < k - 1 {
        assert(name[k - 1] != '.');
        lemma_last_dot(name, d, k - 1);
    }
}

/// A file's extension is what follows the last dot of its name, if something
/// stands before that dot; a name without a dot has none, nor has one whose only
/// dot comes first.
pub proof fn extension_follows_last_dot(stem: Seq<char>, ext: Seq<char>)
    requires
        !ext.contains('.'),
    ensures
        stem.len() > 0 && (stem != seq!['.'] || ext.len() > 0) ==> file_extension(stem.push('.') + ext)
            == Some(ext),
        file_extension(ext) is None,
        file_extension(seq!['.'] + ext) is None,
{
    let none = Seq::<char>::empty();
    let name = stem.push('.') + ext;
    let d = stem.len() as int;
    assert forall|j: int| d < j < name.len() implies name[j] != '.' by {
        assert(name[j] == ext[j - d - 1]);
    }
    assert(name[d] == '.');
    lemma_last_dot(name, d, name.len() as int);
    if stem.len() > 0 {
        assert(name.skip(d + 1) == ext);
        if name == seq!['.', '.'] {
            assert(stem.len() == 1);
            assert(stem[0] == name[0]);
            assert(stem == seq!['.']);
            assert(ext.len() == 0);
        }
    }
    if ext.len() > 0 {
        lemma_last_dot(ext, -1, ext.len() as int);
    }
    let hidden = seq!['.'] + ext;
    assert forall|j: int| 0 < j < hidden.len() implies hidden[j] != '.' by {
        assert(hidden[j] == ext[j - 1]);
    }
    assert(hidden[0] == '.');
    lemma_last_dot(hidden, 0, hidden.len() as int);
}

/// The extension of a file name.
pub fn extension(name: &str) -> (r: Option<String>)
    ensures
        crate::text::text_of(r) == file_extension(name@),
{
    let x = chars_of(name);
    let n: usize = x.len();
    let mut k: usize = n;
    while k > 0
        invariant
            k <= n,
            n == x@.len(),
            x@ == name@,
            last_dot(name@, n as int) == last_dot(name@, k as int),
        decreases k,
    {
        if x[k - 1] == '.' {
            let dots = n == 2 && x[0] == '.' && x[1] == '.';
            proof {
                if dots {
                    assert(name@ == seq!['.', '.']);
                } else if name@ == seq!['.', '.'] {
                    assert(x@[0] == '.' && x@[1] == '.');
                }
            }
            if k - 1 == 0 || dots {
                return None;
            }
            let r = slice(name, k, n);
            assert(r@ == name@.skip(k as int));
            return Some(r);
        }
        k = k - 1;
    }
    None
}

/// What a file of a folder is for.
#[derive(Clone, Copy, Debug, PartialEq, Eq, Structural)]
pub enum FileKind {
    Metadata,
    Audio,
    Ebook,
    Other,
}

/// What a file is for, by its extension.
pub open spec fn file_kind(config: Config, name: Seq<char>) -> FileKind {
    match file_extension(name) {
        None => FileKind::Other,
        Some(e) => if e == "json"@ {
            FileKind::Metadata
        } else if crate::text::texts(config.audio_types@).contains(e) {
            FileKind::Audio
        } else if crate::text::texts(config.ebook_types@).contains(e) {
            FileKind::Ebook
        } else {
            FileKind::Other
        },
    }
}

/// What a file is for, by its extension.
pub fn kind_of_file(config: &Config, name: &str) -> (r: FileKind)
    ensures
        r == file_kind(*config, name@),
{
    match extension(name) {
        None => FileKind::Other,
        Some(e) => {
            if same_text(e.as_str(), "json") {
                FileKind::Metadata
            } else if has_entry(&config.audio_types, e.as_str()) {
                FileKind::Audio
            } else if has_entry(&config.ebook_types, e.as_str()) {
                FileKind::Ebook
            } else {
                FileKind::Other
            }
        },
    }
}

/// The files of one kind, in their order.
pub open spec fn files_of_kind(config: Config, files: Seq<FolderFile>, kind: FileKind) -> Seq<
    FolderFile,
>
    decreases files.len(),
{
    if files.len() == 0 {
        seq![]
    } else {
        let before = files_of_kind(config, files.drop_last(), kind);
        if file_kind(config, files.last().name@) == kind {
            before.push(files.last())
        } else {
            before
        }
    }
}

/// A folder's files by what they are for.
pub struct FolderFiles {
    pub audio: Vec<FolderFile>,
    pub ebook: Vec<FolderFile>,
    pub metadata: Vec<FolderFile>,
}

/// What a file is goes by its extension: `json` is metadata, an audio type is
/// audio, an ebook type that is no audio type is an ebook, and everything else
/// is left out.
pub proof fn extension_tells_kind(config: Config, name: Seq<char>)
    ensures
        file_extension(name) is None ==> file_kind(config, name) == FileKind::Other,
        file_extension(name) matches Some(e) ==> {
            let kind = file_kind(config, name);
            let audio = crate::text::texts(config.audio_types@);
            let ebook = crate::text::texts(config.ebook_types@);
            &&& kind == FileKind::Metadata <==> e == "json"@
            &&& kind == FileKind::Audio <==> e != "json"@ && audio.contains(e)
            &&& kind == FileKind::Ebook <==> e != "json"@ && !audio.contains(e) && ebook.contains(e)
        },
{
}

/// The files of a kind are those of the folder that are of the kind, in the
/// folder's order.
pub proof fn files_are_sorted_out(
    config: Config,
    files: Seq<FolderFile>,
    file: FolderFile,
    kind: FileKind,
)
    ensures
        files_of_kind(config, seq![], kind).len() == 0,
        file_kind(config, file.name@) == kind ==> files_of_kind(config, files.push(file), kind)
            == files_of_kind(config, files, kind).push(file),
        file_kind(config, file.name@) != kind ==> files_of_kind(config, files.push(file), kind)
            == files_of_kind(config, files, kind),
{
    assert(files.push(file).drop_last() == files);
}

/// `s` holds the files of `v`, sorted by name.
pub open spec fn is_sorted_by_name(v: Seq<FolderFile>, s: Seq<FolderFile>) -> bool {
    exists|r: Seq<usize>|
        #![trigger r.len()]
        crate::order::is_stable_order(
            r,
            0,
            v.len() as int,
            |i: int, j: int| crate::order::text_order(v[i].name@, v[j].name@),
        ) && s == r.map_values(|i: usize| v[i as int])
}

fn sort_by_name(v: &Vec<FolderFile>) -> (s: Vec<FolderFile>)
    ensures
        is_sorted_by_name(v@, s@),
{
    let ghost c = |i: int, j: int| crate::order::text_order(v@[i].name@, v@[j].name@);
    proof {
        crate::order::lemma_text_ordering();
        let p = |a: Seq<char>, b: Seq<char>| crate::order::text_order(a, b);
        assert forall|x: int, y: int| #![trigger c(x, y)] c(x, y) == crate::order::reversed(
            c(y, x),
        ) by {
            assert(p(v@[x].name@, v@[y].name@) == crate::order::reversed(
                p(v@[y].name@, v@[x].name@),
            ));
        }
        assert forall|x: int, y: int, z: int|
            #![trigger c(x, y), c(y, z)]
            c(x, y) != Order::Greater && c(y, z) != Order::Greater implies c(x, z)
            != Order::Greater by {
            assert(p(v@[x].name@, v@[y].name@) != Order::Greater && p(v@[y].name@, v@[z].name@)
                != Order::Greater);
            assert(p(v@[x].name@, v@[z].name@) != Order::Greater);
        }
    }
    let f = |i: usize, j: usize| -> (o: Order)
        requires
            i < v@.len(),
            j < v@.len(),
        ensures
            o == crate::order::text_order(v@[i as int].name@, v@[j as int].name@),
        { order_text(v[i].name.as_str(), v[j].name.as_str()) };
    let r = stable_order(v.len(), f, Ghost(c));
    let mut s: Vec<FolderFile> = Vec::new();
    let ghost want = r@.map_values(|i: usize| v@[i as int]);
    let mut k: usize = 0;
    while k < r.len()
        invariant
            k <= r@.len(),
            want == r@.map_values(|i: usize| v@[i as int]),
            crate::order::is_stable_order(r@, 0, v@.len() as int, c),
            s@ == want.take(k as int),
        decreases r@.len() - k,
    {
        assert(r@[k as int] < v@.len());
        s.push(v[r[k]].clone());
        assert(want.take(k + 1) == want.take(k as int).push(want[k as int]));
        k = k + 1;
    }
    assert(want.take(k as int) == want);
    assert(r@.len() == v@.len());
    s
}

/// Sorts a folder's files by what they are for. The metadata files, which are
/// tried one after the other, come in the order of their names.
pub fn folder_files(config: &Config, files: &Vec<FolderFile>) -> (r: FolderFiles)
    ensures
        r.audio@ == files_of_kind(*config, files@, FileKind::Audio),
        r.ebook@ == files_of_kind(*config, files@, FileKind::Ebook),
        is_sorted_by_name(files_of_kind(*config, files@, FileKind::Metadata), r.metadata@),
{
    let mut audio: Vec<FolderFile> = Vec::new();
    let mut ebook: Vec<FolderFile> = Vec::new();
    let mut metadata: Vec<FolderFile> = Vec::new();
    let mut i: usize = 0;
    while i < files.len()
        invariant
            i <= files@.len(),
            audio@ == files_of_kind(*config, files@.take(i as int), FileKind::Audio),
            ebook@ == files_of_kind(*config, files@.take(i as int), FileKind::Ebook),
            metadata@ == files_of_kind(*config, files@.take(i as int), FileKind::Metadata),
        decreases files@.len() - i,
    {
        let ghost now = files@.take(i + 1);
        proof {
            assert(now.drop_last() == files@.take(i as int));
            assert(now.last() == files@[i as int]);
        }
        match kind_of_file(config, files[i].name.as_str()) {
            FileKind::Metadata => {
                metadata.push(files[i].clone());
            },
            FileKind::Audio => {
                audio.push(files[i].clone());
            },
            FileKind::Ebook => {
                ebook.push(files[i].clone());
            },
            FileKind::Other => {},
        }
        i = i + 1;
    }
    assert(files@.take(i as int) == files@);
    FolderFiles { audio, ebook, metadata: sort_by_name(&metadata) }
}

/// A person named in Libation's metadata.
#[derive(Default, Debug, Clone, PartialEq)]
pub struct Name {
    pub name: String,
}

/// A category of Libation's metadata.
#[derive(Default, Debug, Clone, PartialEq)]
pub struct Ladder {
    pub id: String,
    pub name: String,
}

/// A category of Libation's metadata with those above it.
#[derive(Default, Debug, Clone, PartialEq)]
pub struct CategoryLadder {
    pub ladder: Vec<Ladder>,
    pub root: String,
}

/// A series of Libation's metadata.
#[derive(Default, Debug, Clone, PartialEq)]
pub struct LibationSeries {
    pub sequence: String,
    pub title: String,
}

/// The metadata that Libation writes.
#[derive(Default, Debug, Clone, PartialEq)]
pub struct Libation {
    pub asin: String,
    pub authors: Vec<Name>,
    pub category_ladders: Vec<CategoryLadder>,
    pub format_type: String,
    pub is_adult_product: bool,
    pub issue_date: String,
    pub language: String,
    pub merchandising_summary: String,
    pub narrators: Vec<Name>,
    pub publication_datetime: String,
    pub publication_name: String,
    pub publisher_name: String,
    pub publisher_summary: String,
    pub release_date: String,
    pub runtime_length_min: u64,
    pub series: Vec<LibationSeries>,
    pub subtitle: String,
    pub title: String,
}

/// A series of Nextory's metadata.
#[derive(Default, Debug, Clone, PartialEq)]
pub struct NextorySeries {
    pub name: String,
}

/// A format of Nextory's metadata.
#[derive(Default, Debug, Clone, PartialEq)]
pub struct NextoryFormat {
    pub format_type: String,
    pub isbn: Option<String>,
}

/// A person named in Nextory's metadata.
#[derive(Default, Debug, Clone, PartialEq)]
pub struct NextoryName {
    pub name: String,
}

/// The metadata that Nextory gives. The volume is held as it is written.
#[derive(Default, Debug, Clone, PartialEq)]
pub struct NextoryRaw {
    pub id: u64,
    pub title: String,
    pub blurb: String,
    pub description_full: String,
    pub language: String,
    pub volume: Option<String>,
    pub series: Option<NextorySeries>,
    pub formats: Vec<NextoryFormat>,
    pub authors: Vec<NextoryName>,
    pub narrators: Vec<NextoryName>,
}

/// Nextory's metadata inside another record.
#[derive(Default, Debug, Clone, PartialEq)]
pub struct NextoryWrapped {
    pub raw: NextoryRaw,
}

/// A person named in Storytel's metadata.
#[derive(Default, Debug, Clone, PartialEq)]
pub struct StorytelName {
    pub name: String,
}

/// A series of Storytel's metadata. The book's place is held as it is written.
#[derive(Default, Debug, Clone, PartialEq)]
pub struct StorytelSeriesInfo {
    pub name: String,
    pub order_in_series: Option<String>,
}

/// A format of Storytel's metadata.
#[derive(Default, Debug, Clone, PartialEq)]
pub struct StorytelFormat {
    pub format_type: String,
    pub isbn: Option<String>,
}

/// The metadata that Storytel gives.
#[derive(Default, Debug, Clone, PartialEq)]
pub struct StorytelRaw {
    pub consumable_id: String,
    pub title: String,
    pub description: String,
    pub language: String,
    pub is_abridged: bool,
    pub authors: Vec<StorytelName>,
    pub narrators: Vec<StorytelName>,
    pub series_info: Option<StorytelSeriesInfo>,
    pub formats: Vec<StorytelFormat>,
}

/// Storytel's metadata inside another record.
#[derive(Default, Debug, Clone, PartialEq)]
pub struct StorytelWrapped {
    pub raw: StorytelRaw,
}

/// Nextory's metadata out of a file: inside another record, or else by itself.
pub fn parse_nextory_meta(wrapped: Option<NextoryWrapped>, raw: Option<NextoryRaw>) -> (r: Option<
    NextoryRaw,
>)
    ensures
        r == (match wrapped {
            Some(w) => Some(w.raw),
            None => raw,
        }),
{
    match wrapped {
        Some(w) => Some(w.raw),
        None => raw,
    }
}

/// Storytel's metadata out of a file: inside another record, or else by itself.
pub fn parse_storytel_meta(wrapped: Option<StorytelWrapped>, raw: Option<StorytelRaw>) -> (r: Option<
    StorytelRaw,
>)
    ensures
        r == (match wrapped {
            Some(w) => Some(w.raw),
            None => raw,
        }),
{
    match wrapped {
        Some(w) => Some(w.raw),
        None => raw,
    }
}

/// The id under which the library keeps a book of Nextory.
pub fn nextory_torrent_id(nextory_id: u64) -> (r: String)
    ensures
        r@ == "nextory_"@ + crate::text::decimal(nextory_id as nat),
{
    concat("nextory_", number_text(nextory_id).as_str())
}

/// The id under which the library keeps a book of Storytel.
pub fn storytel_torrent_id(storytel_id: &str) -> (r: String)
    ensures
        r@ == "storytel_"@ + storytel_id@,
{
    concat("storytel_", storytel_id)
}

/// What a metadata file of a folder holds.
pub enum FolderMeta {
    Libation(Libation),
    Nextory(NextoryRaw),
    Storytel(StorytelRaw),
}

impl FolderMeta {
    /// What a metadata file holds, of the readings of it that succeeded.
    pub fn first_read(
        libation: Option<Libation>,
        nextory: Option<NextoryRaw>,
        storytel: Option<StorytelRaw>,
    ) -> (r: Option<FolderMeta>)
        ensures
            match (libation, nextory, storytel) {
                (Some(m), _, _) => r == Some(FolderMeta::Libation(m)),
                (None, Some(m), _) => r == Some(FolderMeta::Nextory(m)),
                (None, None, Some(m)) => r == Some(FolderMeta::Storytel(m)),
                (None, None, None) => r is None,
            },
    {
        match libation {
            Some(m) => Some(FolderMeta::Libation(m)),
            None => match nextory {
                Some(m) => Some(FolderMeta::Nextory(m)),
                None => match storytel {
                    Some(m) => Some(FolderMeta::Storytel(m)),
                    None => None,
                },
            },
        }
    }

    /// The id under which the library keeps the book.
    pub fn id(&self) -> (r: String)
        ensures
            r@ == (match self {
                FolderMeta::Libation(m) => m.asin@,
                FolderMeta::Nextory(m) => "nextory_"@ + crate::text::decimal(m.id as nat),
                FolderMeta::Storytel(m) => "storytel_"@ + m.consumable_id@,
            }),
    {
        match self {
            FolderMeta::Libation(m) => m.asin.clone(),
            FolderMeta::Nextory(m) => nextory_torrent_id(m.id),
            FolderMeta::Storytel(m) => storytel_torrent_id(m.consumable_id.as_str()),
        }
    }

    /// The book's title.
    pub fn title(&self) -> (r: String)
        ensures
            r@ == (match self {
                FolderMeta::Libation(m) => m.title@,
                FolderMeta::Nextory(m) => m.title@,
                FolderMeta::Storytel(m) => m.title@,
            }),
    {
        match self {
            FolderMeta::Libation(m) => m.title.clone(),
            FolderMeta::Nextory(m) => m.title.clone(),
            FolderMeta::Storytel(m) => m.title.clone(),
        }
    }
}

/// How far the reading of a folder has come.
pub enum FolderState {
    /// The folder's files are known.
    Listed,
    /// The metadata file with the given number is being read.
    Reading(usize),
    Finished,
}

/// What was learned of a folder.
pub enum FolderEvent {
    Begin,
    /// What a metadata file holds, where it can be made out.
    Read(Option<FolderMeta>),
    /// A metadata file cannot be opened.
    Failed,
}

/// What to do next with a folder.
pub enum FolderAction {
    /// Read the metadata file with the given number.
    Read(usize),
    /// Link the book.
    Link(FolderMeta),
    /// Leave the folder: it has no metadata file.
    Missing,
    /// Leave the folder: none of its metadata files can be made out.
    Unsupported,
    /// Report the error.
    Fail,
    /// The event does not belong to the state.
    Ignore,
}

/// The step that follows in reading a folder with `count` metadata files.
pub open spec fn next_in_folder(count: nat, state: FolderState, event: FolderEvent) -> (
    FolderState,
    FolderAction,
) {
    match (state, event) {
        (FolderState::Listed, FolderEvent::Begin) => if count == 0 {
            (FolderState::Finished, FolderAction::Missing)
        } else {
            (FolderState::Reading(0), FolderAction::Read(0))
        },
        (FolderState::Reading(_), FolderEvent::Read(Some(meta))) => (
            FolderState::Finished,
            FolderAction::Link(meta),
        ),
        (FolderState::Reading(i), FolderEvent::Read(None)) => if i + 1 < count {
            (FolderState::Reading((i + 1) as usize), FolderAction::Read((i + 1) as usize))
        } else {
            (FolderState::Finished, FolderAction::Unsupported)
        },
        (FolderState::Reading(_), FolderEvent::Failed) => (
            FolderState::Finished,
            FolderAction::Fail,
        ),
        _ => (FolderState::Finished, FolderAction::Ignore),
    }
}

/// The next step in reading a folder: its metadata files are read in turn until
/// one can be made out, and that one's book is linked.
pub fn folder_step(count: usize, state: FolderState, event: FolderEvent) -> (r: (
    FolderState,
    FolderAction,
))
    requires
        state matches FolderState::Reading(i) ==> i < count,
    ensures
        r == next_in_folder(count as nat, state, event),
        r.0 matches FolderState::Reading(i) ==> i < count,
{
    match (state, event) {
        (FolderState::Listed, FolderEvent::Begin) => {
            if count == 0 {
                (FolderState::Finished, FolderAction::Missing)
            } else {
                (FolderState::Reading(0), FolderAction::Read(0))
            }
        },
        (FolderState::Reading(_), FolderEvent::Read(Some(meta))) => (
            FolderState::Finished,
            FolderAction::Link(meta),
        ),
        (FolderState::Reading(i), FolderEvent::Read(None)) => {
            if i + 1 < count {
                (FolderState::Reading(i + 1), FolderAction::Read(i + 1))
            } else {
                (FolderState::Finished, FolderAction::Unsupported)
            }
        },
        (FolderState::Reading(_), FolderEvent::Failed) => (
            FolderState::Finished,
            FolderAction::Fail,
        ),
        _ => (FolderState::Finished, FolderAction::Ignore),
    }
}

/// What becomes of a folder whose metadata files, from the one with number `i`
/// on, hold what is given.
pub open spec fn folder_outcome(readings: Seq<Option<FolderMeta>>, i: int) -> FolderAction
    decreases readings.len() - i,
    when 0 <= i < readings.len() <= usize::MAX
{
    match next_in_folder(
        readings.len(),
        FolderState::Reading(i as usize),
        FolderEvent::Read(readings[i]),
    ) {
        (FolderState::Reading(_), _) => folder_outcome(readings, i + 1),
        (_, action) => action,
    }
}

proof fn lemma_folder_outcome(readings: Seq<Option<FolderMeta>>, k: int, i: int)
    requires
        0 <= i <= k <= readings.len() <= usize::MAX,
        i < readings.len(),
        forall|j: int| 0 <= j < k ==> (#[trigger] readings[j]) is None,
        k < readings.len() ==> readings[k] is Some,
    ensures
        folder_outcome(readings, i) == (if k < readings.len() {
            FolderAction::Link(readings[k].unwrap())
        } else {
            FolderAction::Unsupported
        }),
    decreases k - i,
{
    if i < k {
        assert(readings[i] is None);
        if i + 1 < readings.len() {
            lemma_folder_outcome(readings, k, i + 1);
        }
    }
}

/// The first metadata file that can be made out is the one whose book is
/// linked; where there is none, nothing is linked. `k` is the number of that
/// file, or that of all files.
pub proof fn first_readable_file_is_linked(readings: Seq<Option<FolderMeta>>, k: int)
    requires
        0 < readings.len() <= usize::MAX,
        0 <= k <= readings.len(),
        forall|j: int| 0 <= j < k ==> (#[trigger] readings[j]) is None,
        k < readings.len() ==> readings[k] is Some,
    ensures
        folder_outcome(readings, 0) == (if k < readings.len() {
            FolderAction::Link(readings[k].unwrap())
        } else {
            FolderAction::Unsupported
        }),
{
    lemma_folder_outcome(readings, k, 0);
}

/// The ISBN of the first format of the type `hls`, else of the first format.
pub open spec fn nextory_isbn_from(formats: Seq<NextoryFormat>, i: int) -> Option<String>
    decreases formats.len() - i,
{
    if i < 0 || i >= formats.len() {
        if formats.len() > 0 {
            formats[0].isbn
        } else {
            None
        }
    } else if formats[i].format_type@ == "hls"@ {
        formats[i].isbn
    } else {
        nextory_isbn_from(formats, i + 1)
    }
}

/// The ISBN of the audio format, else of the first format.
pub fn nextory_isbn(formats: &Vec<NextoryFormat>) -> (r: Option<String>)
    ensures
        r == nextory_isbn_from(formats@, 0),
{
    let mut i: usize = 0;
    while i < formats.len()
        invariant
            i <= formats@.len(),
            nextory_isbn_from(formats@, 0) == nextory_isbn_from(formats@, i as int),
        decreases formats@.len() - i,
    {
        if same_text(formats[i].format_type.as_str(), "hls") {
            return clone_option(&formats[i].isbn);
        }
        i = i + 1;
    }
    if formats.len() > 0 {
        clone_option(&formats[0].isbn)
    } else {
        None
    }
}

/// The ISBN of the first format of the type `abook`, else of the first format.
pub open spec fn storytel_isbn_from(formats: Seq<StorytelFormat>, i: int) -> Option<String>
    decreases formats.len() - i,
{
    if i < 0 || i >= formats.len() {
        if formats.len() > 0 {
            formats[0].isbn
        } else {
            None
        }
    } else if formats[i].format_type@ == "abook"@ {
        formats[i].isbn
    } else {
        storytel_isbn_from(formats, i + 1)
    }
}

/// The ISBN of the audio format, else of the first format.
pub fn storytel_isbn(formats: &Vec<StorytelFormat>) -> (r: Option<String>)
    ensures
        r == storytel_isbn_from(formats@, 0),
{
    let mut i: usize = 0;
    while i < formats.len()
        invariant
            i <= formats@.len(),
            storytel_isbn_from(formats@, 0) == storytel_isbn_from(formats@, i as int),
        decreases formats@.len() - i,
    {
        if same_text(formats[i].format_type.as_str(), "abook") {
            return clone_option(&formats[i].isbn);
        }
        i = i + 1;
    }
    if formats.len() > 0 {
        clone_option(&formats[0].isbn)
    } else {
        None
    }
}

/// The language of a folder's book.
pub open spec fn folder_language(value: Seq<char>, parsed: Option<Term>, words: Vocabulary) -> Option<
    Term,
> {
    let l = crate::outside::lowercase(value);
    if parsed is Some {
        parsed
    } else if l == "sv"@ || l == "swe"@ {
        Some(words.swedish)
    } else if l == "en"@ || l == "eng"@ {
        Some(words.english)
    } else {
        None
    }
}

/// The language of a folder's book: what the catalogue makes of the text, given
/// as `parsed`, or one of the codes for Swedish and English.
pub fn parse_folder_language(value: &str, parsed: &Option<Term>, words: &Vocabulary) -> (r: Option<
    Term,
>)
    ensures
        r == folder_language(value@, *parsed, *words),
{
    if parsed.is_some() {
        return clone_term(parsed);
    }
    let l = to_lowercase(value);
    if same_text(l.as_str(), "sv") || same_text(l.as_str(), "swe") {
        Some(words.swedish.clone())
    } else if same_text(l.as_str(), "en") || same_text(l.as_str(), "eng") {
        Some(words.english.clone())
    } else {
        None
    }
}

/// The bytes of all files.
pub open spec fn total_size(files: Seq<FolderFile>) -> nat
    decreases files.len(),
{
    if files.len() == 0 {
        0
    } else {
        total_size(files.drop_last()) + files.last().size as nat
    }
}

/// Some file has the extension, in lowercase.
pub open spec fn has_filetype(files: Seq<FolderFile>, ext: Seq<char>) -> bool {
    exists|i: int|
        0 <= i < files.len() && (file_extension((#[trigger] files[i]).name@) matches Some(e)
            && crate::outside::lowercase(e) == ext)
}

/// The size of a folder's book, and its file types.
#[derive(Debug, PartialEq)]
pub struct FolderStats {
    pub size: u64,
    pub filetypes: Vec<String>,
}

proof fn lemma_total_size(files: Seq<FolderFile>, k: int)
    requires
        0 <= k <= files.len(),
    ensures
        total_size(files.take(k)) <= total_size(files),
    decreases files.len() - k,
{
    if k < files.len() {
        lemma_total_size(files, k + 1);
        assert(files.take(k + 1).drop_last() == files.take(k));
    } else {
        assert(files.take(k) == files);
    }
}

fn add_stats(files: &Vec<FolderFile>, stats: FolderStats) -> (r: FolderStats)
    requires
        stats.size + total_size(files@) <= u64::MAX,
        crate::order::is_ascending(crate::text::texts(stats.filetypes@)),
    ensures
        r.size == stats.size + total_size(files@),
        crate::order::is_ascending(crate::text::texts(r.filetypes@)),
        forall|x: Seq<char>| #[trigger]
            crate::text::texts(r.filetypes@).contains(x) <==> crate::text::texts(
                stats.filetypes@,
            ).contains(x) || has_filetype(files@, x),
{
    let ghost start = crate::text::texts(stats.filetypes@);
    let first: u64 = stats.size;
    let mut size: u64 = stats.size;
    let mut filetypes = stats.filetypes;
    let mut i: usize = 0;
    while i < files.len()
        invariant
            i <= files@.len(),
            first + total_size(files@) <= u64::MAX,
            size == first + total_size(files@.take(i as int)),
            crate::order::is_ascending(crate::text::texts(filetypes@)),
            forall|x: Seq<char>| #[trigger]
                crate::text::texts(filetypes@).contains(x) <==> start.contains(x) || has_filetype(
                    files@.take(i as int),
                    x,
                ),
        decreases files@.len() - i,
    {
        let ghost before = files@.take(i as int);
        let ghost now = files@.take(i + 1);
        proof {
            assert(now.drop_last() == before);
            assert(now.last() == files@[i as int]);
            lemma_total_size(files@, i + 1);
        }
        let ghost old_types = crate::text::texts(filetypes@);
        size = size + files[i].size;
        let ext = extension(files[i].name.as_str());
        let ghost e = crate::text::text_of(ext);
        match ext {
            Some(e) => {
                insert_text(&mut filetypes, to_lowercase(e.as_str()));
            },
            None => {},
        }
        proof {
            assert forall|x: Seq<char>| has_filetype(now, x) <==> has_filetype(before, x) || (e
                matches Some(y) && crate::outside::lowercase(y) == x) by {
                if has_filetype(now, x) {
                    let k = choose|k: int|
                        0 <= k < now.len() && (file_extension((#[trigger] now[k]).name@) matches Some(
                            y,
                        ) && crate::outside::lowercase(y) == x);
                    if k < i {
                        assert(before[k] == now[k]);
                    }
                }
                if has_filetype(before, x) {
                    let k = choose|k: int|
                        0 <= k < before.len() && (file_extension((#[trigger] before[k]).name@)
                            matches Some(y) && crate::outside::lowercase(y) == x);
                    assert(now[k] == before[k]);
                }
                if e matches Some(y) && crate::outside::lowercase(y) == x {
                    assert(file_extension(now[i as int].name@) == e);
                }
            }
        }
        i = i + 1;
    }
    assert(files@.take(i as int) == files@);
    FolderStats { size, filetypes }
}

/// The size of a folder's book in bytes, and the extensions of its files in
/// lowercase, in ascending order and each once.
pub fn folder_file_stats(audio_files: &Vec<FolderFile>, ebook_files: &Vec<FolderFile>) -> (r:
    FolderStats)
    requires
        total_size(audio_files@) + total_size(ebook_files@) <= u64::MAX,
    ensures
        r.size == total_size(audio_files@) + total_size(ebook_files@),
        crate::order::is_ascending(crate::text::texts(r.filetypes@)),
        forall|x: Seq<char>| #[trigger]
            crate::text::texts(r.filetypes@).contains(x) <==> has_filetype(audio_files@, x)
                || has_filetype(ebook_files@, x),
{
    let none = FolderStats { size: 0, filetypes: Vec::new() };
    assert(crate::text::texts(none.filetypes@) == Seq::<Seq<char>>::empty());
    let audio = add_stats(audio_files, none);
    add_stats(ebook_files, audio)
}

/// The series that were read, in order.
pub open spec fn series_read(listed: Seq<Option<Series>>) -> Seq<SeriesView>
    decreases listed.len(),
{
    if listed.len() == 0 {
        seq![]
    } else {
        let before = series_read(listed.drop_last());
        match listed.last() {
            Some(s) => before.push(s@),
            None => before,
        }
    }
}

/// The series of a book: those that its metadata lists, else the one that its
/// subtitle tells of, else the one that its title tells of.
pub open spec fn book_series_view(
    listed: Seq<Option<Series>>,
    inferred: Option<Series>,
    from_title: Option<Series>,
) -> Seq<SeriesView> {
    if series_read(listed).len() > 0 {
        series_read(listed)
    } else {
        match (inferred, from_title) {
            (Some(s), _) => seq![s@],
            (None, Some(s)) => seq![s@],
            (None, None) => seq![],
        }
    }
}

/// The series of a book. `listed` are the series of its metadata, as far as
/// they could be read.
pub fn book_series(
    listed: &Vec<Option<Series>>,
    inferred: Option<Series>,
    from_title: Option<Series>,
) -> (r: Vec<Series>)
    ensures
        crate::model::series_of(r@) == book_series_view(listed@, inferred, from_title),
{
    let mut r: Vec<Series> = Vec::new();
    let mut i: usize = 0;
    while i < listed.len()
        invariant
            i <= listed@.len(),
            crate::model::series_of(r@) == series_read(listed@.take(i as int)),
        decreases listed@.len() - i,
    {
        let ghost now = listed@.take(i + 1);
        let ghost before = crate::model::series_of(r@);
        proof {
            assert(now.drop_last() == listed@.take(i as int));
            assert(now.last() == listed@[i as int]);
        }
        match &listed[i] {
            Some(s) => {
                r.push(s.clone());
                assert(crate::model::series_of(r@) == before.push(s@));
            },
            None => {},
        }
        i = i + 1;
    }
    assert(listed@.take(i as int) == listed@);
    if r.len() == 0 {
        match (inferred, from_title) {
            (Some(s), _) => {
                r.push(s);
                assert(crate::model::series_of(r@) == seq![s@]);
            },
            (None, Some(s)) => {
                r.push(s);
                assert(crate::model::series_of(r@) == seq![s@]);
            },
            (None, None) => {
                assert(crate::model::series_of(r@) == Seq::<SeriesView>::empty());
            },
        }
    }
    r
}

/// The series' name and the book's number that Nextory's metadata gives.
pub fn nextory_series(meta: &NextoryRaw) -> (r: Option<(String, String)>)
    ensures
        crate::linker::libation::pair_of(r) == (match meta.series {
            Some(s) if s.name@.len() > 0 => Some(
                (
                    s.name@,
                    match meta.volume {
                        Some(v) => v@,
                        None => seq![],
                    },
                ),
            ),
            _ => None,
        }),
{
    match &meta.series {
        Some(s) => {
            if s.name.as_str().unicode_len() == 0 {
                return None;
            }
            let number = match &meta.volume {
                Some(v) => v.clone(),
                None => String::new(),
            };
            assert(meta.volume is None ==> number@ == Seq::<char>::empty());
            Some((s.name.clone(), number))
        },
        None => None,
    }
}

/// The series' name and the book's number that Storytel's metadata gives.
pub fn storytel_series(meta: &StorytelRaw) -> (r: Option<(String, String)>)
    ensures
        crate::linker::libation::pair_of(r) == (match meta.series_info {
            Some(s) if s.name@.len() > 0 => Some(
                (
                    s.name@,
                    match s.order_in_series {
                        Some(v) => v@,
                        None => seq![],
                    },
                ),
            ),
            _ => None,
        }),
{
    match &meta.series_info {
        Some(s) => {
            if s.name.as_str().unicode_len() == 0 {
                return None;
            }
            let number = match &s.order_in_series {
                Some(v) => v.clone(),
                None => String::new(),
            };
            assert(s.order_in_series is None ==> number@ == Seq::<char>::empty());
            Some((s.name.clone(), number))
        },
        None => None,
    }
}

fn libation_names(v: &Vec<Name>) -> (r: Vec<String>)
    ensures
        crate::text::texts(r@) == v@.map_values(|n: Name| n.name@),
{
    let mut r: Vec<String> = Vec::new();
    let ghost want = v@.map_values(|n: Name| n.name@);
    let mut i: usize = 0;
    while i < v.len()
        invariant
            i <= v@.len(),
            want == v@.map_values(|n: Name| n.name@),
            crate::text::texts(r@) == want.take(i as int),
        decreases v@.len() - i,
    {
        let ghost before = crate::text::texts(r@);
        r.push(v[i].name.clone());
        assert(crate::text::texts(r@) == before.push(want[i as int]));
        assert(want.take(i + 1) == want.take(i as int).push(want[i as int]));
        i = i + 1;
    }
    assert(want.take(i as int) == want);
    r
}

fn nextory_names(v: &Vec<NextoryName>) -> (r: Vec<String>)
    ensures
        crate::text::texts(r@) == v@.map_values(|n: NextoryName| n.name@),
{
    let mut r: Vec<String> = Vec::new();
    let ghost want = v@.map_values(|n: NextoryName| n.name@);
    let mut i: usize = 0;
    while i < v.len()
        invariant
            i <= v@.len(),
            want == v@.map_values(|n: NextoryName| n.name@),
            crate::text::texts(r@) == want.take(i as int),
        decreases v@.len() - i,
    {
        let ghost before = crate::text::texts(r@);
        r.push(v[i].name.clone());
        assert(crate::text::texts(r@) == before.push(want[i as int]));
        assert(want.take(i + 1) == want.take(i as int).push(want[i as int]));
        i = i + 1;
    }
    assert(want.take(i as int) == want);
    r
}

fn storytel_names(v: &Vec<StorytelName>) -> (r: Vec<String>)
    ensures
        crate::text::texts(r@) == v@.map_values(|n: StorytelName| n.name@),
{
    let mut r: Vec<String> = Vec::new();
    let ghost want = v@.map_values(|n: StorytelName| n.name@);
    let mut i: usize = 0;
    while i < v.len()
        invariant
            i <= v@.len(),
            want == v@.map_values(|n: StorytelName| n.name@),
            crate::text::texts(r@) == want.take(i as int),
        decreases v@.len() - i,
    {
        let ghost before = crate::text::texts(r@);
        r.push(v[i].name.clone());
        assert(crate::text::texts(r@) == before.push(want[i as int]));
        assert(want.take(i + 1) == want.take(i as int).push(want[i as int]));
        i = i + 1;
    }
    assert(want.take(i as int) == want);
    r
}

/// The metadata of a book out of a folder of Libation. `title` and `series` are
/// those that title, subtitle and series lists tell of; categories, tags and
/// language are what the catalogue makes of Libation's.
pub fn libation_torrent_meta(
    libation_meta: &Libation,
    title: String,
    series: Vec<Series>,
    categories: Vec<String>,
    tags: Vec<String>,
    language: Option<Term>,
    stats: FolderStats,
    audio_count: usize,
    words: &Vocabulary,
) -> (r: TorrentMeta)
    ensures
        r@ == (MetaView {
            ids: Map::<Seq<char>, Seq<char>>::empty().insert(
                words.keys.asin@,
                libation_meta.asin@,
            ),
            vip_status: None,
            cat: None,
            media_type: words.audiobook@,
            main_cat: None,
            categories: crate::text::texts(categories@),
            tags: crate::text::texts(tags@),
            language: crate::model::term_of(language),
            flags: Some(
                if crate::text::has_prefix(libation_meta.format_type@, "abridged"@) {
                    words.abridged_flags
                } else {
                    words.no_flags
                },
            ),
            filetypes: crate::text::texts(stats.filetypes@),
            num_files: audio_count as u64,
            size: stats.size,
            title: title@,
            edition: None,
            description: libation_meta.publisher_summary@,
            authors: libation_meta.authors@.map_values(|n: Name| n.name@),
            narrators: libation_meta.narrators@.map_values(|n: Name| n.name@),
            series: crate::model::series_of(series@),
            source: MetadataSource::File,
            uploaded_at: None,
        }),
{
    let mut ids = Ids::new();
    ids.insert(words.keys.asin.clone(), libation_meta.asin.clone());
    let flags = if starts_with(libation_meta.format_type.as_str(), "abridged") {
        words.abridged_flags
    } else {
        words.no_flags
    };
    TorrentMeta {
        ids,
        vip_status: None,
        cat: None,
        media_type: words.audiobook.clone(),
        main_cat: None,
        categories,
        tags,
        language,
        flags: Some(flags),
        filetypes: stats.filetypes,
        num_files: audio_count as u64,
        size: stats.size,
        title,
        edition: None,
        description: libation_meta.publisher_summary.clone(),
        authors: libation_names(&libation_meta.authors),
        narrators: libation_names(&libation_meta.narrators),
        series,
        source: MetadataSource::File,
        uploaded_at: None,
    }
}

/// Identifiers with the ISBN, where there is one.
pub open spec fn with_isbn(
    ids: Map<Seq<char>, Seq<char>>,
    key: Seq<char>,
    isbn: Option<String>,
) -> Map<Seq<char>, Seq<char>> {
    match isbn {
        Some(i) => ids.insert(key, i@),
        None => ids,
    }
}

/// The metadata of a book out of a folder of Nextory. `series` are those that
/// its series and title tell of, `parsed_language` is what the catalogue makes
/// of Nextory's language.
pub fn nextory_torrent_meta(
    nextory_meta: &NextoryRaw,
    series: Vec<Series>,
    parsed_language: &Option<Term>,
    stats: FolderStats,
    audio_count: usize,
    words: &Vocabulary,
) -> (r: TorrentMeta)
    ensures
        r@ == (MetaView {
            ids: with_isbn(
                Map::<Seq<char>, Seq<char>>::empty().insert(
                    words.keys.nextory@,
                    crate::text::decimal(nextory_meta.id as nat),
                ),
                words.keys.isbn@,
                nextory_isbn_from(nextory_meta.formats@, 0),
            ),
            vip_status: None,
            cat: None,
            media_type: words.audiobook@,
            main_cat: None,
            categories: seq![],
            tags: seq![],
            language: crate::model::term_of(
                folder_language(nextory_meta.language@, *parsed_language, *words),
            ),
            flags: None,
            filetypes: crate::text::texts(stats.filetypes@),
            num_files: audio_count as u64,
            size: stats.size,
            title: nextory_meta.title@,
            edition: None,
            description: if nextory_meta.description_full@.len() == 0 {
                nextory_meta.blurb@
            } else {
                nextory_meta.description_full@
            },
            authors: nextory_meta.authors@.map_values(|n: NextoryName| n.name@),
            narrators: nextory_meta.narrators@.map_values(|n: NextoryName| n.name@),
            series: crate::model::series_of(series@),
            source: MetadataSource::File,
            uploaded_at: None,
        }),
{
    let mut ids = Ids::new();
    ids.insert(words.keys.nextory.clone(), number_text(nextory_meta.id));
    match nextory_isbn(&nextory_meta.formats) {
        Some(isbn) => {
            ids.insert(words.keys.isbn.clone(), isbn);
        },
        None => {},
    }
    let description = if nextory_meta.description_full.as_str().unicode_len() == 0 {
        nextory_meta.blurb.clone()
    } else {
        nextory_meta.description_full.clone()
    };
    let categories: Vec<String> = Vec::new();
    let tags: Vec<String> = Vec::new();
    assert(crate::text::texts(categories@) == Seq::<Seq<char>>::empty());
    TorrentMeta {
        ids,
        vip_status: None,
        cat: None,
        media_type: words.audiobook.clone(),
        main_cat: None,
        categories,
        tags,
        language: parse_folder_language(nextory_meta.language.as_str(), parsed_language, words),
        flags: None,
        filetypes: stats.filetypes,
        num_files: audio_count as u64,
        size: stats.size,
        title: nextory_meta.title.clone(),
        edition: None,
        description,
        authors: nextory_names(&nextory_meta.authors),
        narrators: nextory_names(&nextory_meta.narrators),
        series,
        source: MetadataSource::File,
        uploaded_at: None,
    }
}

/// The metadata of a book out of a folder of Storytel. `series` are those that
/// its series and title tell of, `parsed_language` is what the catalogue makes
/// of Storytel's language.
pub fn storytel_torrent_meta(
    storytel_meta: &StorytelRaw,
    series: Vec<Series>,
    parsed_language: &Option<Term>,
    stats: FolderStats,
    audio_count: usize,
    words: &Vocabulary,
) -> (r: TorrentMeta)
    ensures
        r@ == (MetaView {
            ids: with_isbn(
                Map::<Seq<char>, Seq<char>>::empty().insert(
                    words.keys.storytel@,
                    storytel_meta.consumable_id@,
                ),
                words.keys.isbn@,
                storytel_isbn_from(storytel_meta.formats@, 0),
            ),
            vip_status: None,
            cat: None,
            media_type: words.audiobook@,
            main_cat: None,
            categories: seq![],
            tags: seq![],
            language: crate::model::term_of(
                folder_language(storytel_meta.language@, *parsed_language, *words),
            ),
            flags: Some(
                if storytel_meta.is_abridged {
                    words.abridged_flags
                } else {
                    words.no_flags
                },
            ),
            filetypes: crate::text::texts(stats.filetypes@),
            num_files: audio_count as u64,
            size: stats.size,
            title: storytel_meta.title@,
            edition: None,
            description: storytel_meta.description@,
            authors: storytel_meta.authors@.map_values(|n: StorytelName| n.name@),
            narrators: storytel_meta.narrators@.map_values(|n: StorytelName| n.name@),
            series: crate::model::series_of(series@),
            source: MetadataSource::File,
            uploaded_at: None,
        }),
{
    let mut ids = Ids::new();
    ids.insert(words.keys.storytel.clone(), storytel_meta.consumable_id.clone());
    match storytel_isbn(&storytel_meta.formats) {
        Some(isbn) => {
            ids.insert(words.keys.isbn.clone(), isbn);
        },
        None => {},
    }
    let flags = if storytel_meta.is_abridged {
        words.abridged_flags
    } else {
        words.no_flags
    };
    let categories: Vec<String> = Vec::new();
    let tags: Vec<String> = Vec::new();
    assert(crate::text::texts(categories@) == Seq::<Seq<char>>::empty());
    TorrentMeta {
        ids,
        vip_status: None,
        cat: None,
        media_type: words.audiobook.clone(),
        main_cat: None,
        categories,
        tags,
        language: parse_folder_language(storytel_meta.language.as_str(), parsed_language, words),
        flags: Some(flags),
        filetypes: stats.filetypes,
        num_files: audio_count as u64,
        size: stats.size,
        title: storytel_meta.title.clone(),
        edition: None,
        description: storytel_meta.description.clone(),
        authors: storytel_names(&storytel_meta.authors),
        narrators: storytel_names(&storytel_meta.narrators),
        series,
        source: MetadataSource::File,
        uploaded_at: None,
    }
}

/// The record of a folder's book that is not linked yet. `mam_id` is the
/// tracker's id in the metadata, `title_search` the title in the form that
/// searches use.
pub fn build_torrent(
    library: &Library,
    id: String,
    meta: TorrentMeta,
    mam_id: Option<u64>,
    title_search: String,
    now: i64,
) -> (r: Torrent)
    ensures
        r@ == (TorrentView {
            id: id@,
            id_is_hash: false,
            mam_id,
            library_path: None,
            library_files: seq![],
            linker: crate::text::text_of(library.opts().name),
            category: None,
            selected_audio_format: None,
            selected_ebook_format: None,
            title_search: title_search@,
            meta: meta@,
            created_at: now,
            replaced_with: None,
            library_mismatch: None,
            client_status: None,
        }),
{
    let library_files: Vec<PathBuf> = Vec::new();
    assert(crate::path::path_texts(library_files@) == Seq::<Seq<char>>::empty());
    Torrent {
        id,
        id_is_hash: false,
        mam_id,
        library_path: None,
        library_files,
        linker: clone_option(&library.options().name),
        category: None,
        selected_audio_format: None,
        selected_ebook_format: None,
        title_search,
        meta,
        created_at: now,
        replaced_with: None,
        library_mismatch: None,
        client_status: None,
    }
}

/// What becomes of a folder's book.
#[derive(Clone, Copy, Debug, PartialEq, Eq, Structural)]
pub enum FolderVerdict {
    /// The library has it.
    Known,
    /// The library has a better one of the same book.
    Duplicate,
    /// The library does not want this edition.
    FilteredOut,
    /// It is linked.
    Link,
}

/// What becomes of a folder's book. `best` is the id of the best of this book
/// and those of the library that match it, where some match; `filter` tells
/// whether the library's edition filter, where it has one, passes the book.
pub fn folder_verdict(id: &str, known: bool, best: Option<&str>, filter: Option<bool>) -> (r:
    FolderVerdict)
    ensures
        r == (if known {
            FolderVerdict::Known
        } else if best matches Some(b) && b@ != id@ {
            FolderVerdict::Duplicate
        } else if filter == Some(false) {
            FolderVerdict::FilteredOut
        } else {
            FolderVerdict::Link
        }),
{
    if known {
        return FolderVerdict::Known;
    }
    match best {
        Some(b) => {
            if !same_text(b, id) {
                return FolderVerdict::Duplicate;
            }
        },
        None => {},
    }
    match filter {
        Some(passes) => {
            if !passes {
                return FolderVerdict::FilteredOut;
            }
        },
        None => {},
    }
    FolderVerdict::Link
}

/// The plan for one file of a folder: it keeps its name.
pub open spec fn folder_plan(file: FolderFile, dir: Seq<char>) -> crate::linker::torrent::PlanView {
    crate::linker::torrent::PlanView {
        download_path: file.path@,
        library_path: crate::path::path_join(dir, file.name@),
        relative_library_path: file.name@,
    }
}

/// The plans for linking a folder's audio files into a book's directory.
pub fn folder_link_plans(audio_files: &Vec<FolderFile>, dir: &PathBuf) -> (r: Vec<FileLinkPlan>)
    ensures
        crate::linker::torrent::plans_of(r@) == audio_files@.map_values(
            |f: FolderFile| folder_plan(f, dir@),
        ),
{
    let mut r: Vec<FileLinkPlan> = Vec::new();
    let ghost want = audio_files@.map_values(|f: FolderFile| folder_plan(f, dir@));
    let mut i: usize = 0;
    while i < audio_files.len()
        invariant
            i <= audio_files@.len(),
            want == audio_files@.map_values(|f: FolderFile| folder_plan(f, dir@)),
            crate::linker::torrent::plans_of(r@) == want.take(i as int),
        decreases audio_files@.len() - i,
    {
        let file = &audio_files[i];
        let ghost before = crate::linker::torrent::plans_of(r@);
        let relative_library_path = PathBuf::new(file.name.as_str());
        let library_path = dir.join(file.name.as_str());
        r.push(
            FileLinkPlan { download_path: file.path.clone(), library_path, relative_library_path },
        );
        assert(crate::linker::torrent::plans_of(r@) == before.push(want[i as int]));
        assert(want.take(i + 1) == want.take(i as int).push(want[i as int]));
        i = i + 1;
    }
    assert(want.take(i as int) == want);
    r
}

/// Where a folder's book goes: into the directory that
/// `resolve_link_library_dir` gives, with a plan for each audio file. A book
/// without an author has no place in a library that links files.
pub fn folder_place(
    config: &Config,
    library: &Library,
    audio_files: &Vec<FolderFile>,
    meta: &TorrentMeta,
    dir_exists: bool,
) -> (r: Result<BookPlace, LinkError>)
    requires
        crate::linker::relink::has_place_dirs(*config, *library, meta@, dir_exists),
    ensures
        r is Err <==> library.opts().method != LibraryLinkMethod::NoLink && meta@.authors.len()
            == 0,
        match r {
            Ok(place) => place.fits(*library) && (place.dir matches Some(dir) ==> {
                &&& crate::linker::relink::link_dir(
                    config.exclude_narrator_in_library_dir,
                    *library,
                    meta@,
                    dir_exists,
                ) == Some(dir@)
                &&& crate::linker::torrent::plans_of(place.plans@) == audio_files@.map_values(
                    |f: FolderFile| folder_plan(f, dir@),
                )
            }),
            Err(e) => e == LinkError::NoAuthor,
        },
{
    match resolve_link_library_dir(config, library, meta, dir_exists) {
        Err(e) => Err(e),
        Ok(None) => Ok(BookPlace { dir: None, plans: Vec::new() }),
        Ok(Some(dir)) => {
            let plans = folder_link_plans(audio_files, &dir);
            Ok(BookPlace { dir: Some(dir), plans })
        },
    }
}

/// Enters into a folder's record where it was linked, with the planned files in
/// order, and which formats it has.
pub fn linked_folder_torrent(
    torrent: &mut Torrent,
    library: &Library,
    place: &BookPlace,
    selected_audio_format: Option<String>,
    selected_ebook_format: Option<String>,
)
    requires
        place.fits(*library),
    ensures
        final(torrent).library_path is None <==> library.opts().method
            == LibraryLinkMethod::NoLink,
        final(torrent).library_path is None ==> final(torrent)@.library_files.len() == 0,
        crate::path::is_sorted_texts(place.file_texts(), final(torrent)@.library_files),
        final(torrent)@ == (TorrentView {
            library_path: crate::model::path_of(place.dir),
            library_files: final(torrent)@.library_files,
            selected_audio_format: crate::text::text_of(selected_audio_format),
            selected_ebook_format: crate::text::text_of(selected_ebook_format),
            ..old(torrent)@
        }),
{
    let files = linked_files(&place.plans);
    let library_files = sort_paths(&files);
    proof {
        crate::path::lemma_sorted_texts(files@, library_files@);
        assert(crate::path::path_texts(files@).len() == files@.len());
    }
    torrent.library_path = clone_path(&place.dir);
    torrent.library_files = library_files;
    torrent.selected_audio_format = selected_audio_format;
    torrent.selected_ebook_format = selected_ebook_format;
}

/// The ISBN of a Nextory book is that of its first audio format, `hls`; without
/// one it is that of the first format. `k` is the place of that format, or how
/// many there are.
pub proof fn nextory_isbn_is_of_audio(formats: Seq<NextoryFormat>, k: int)
    requires
        0 <= k <= formats.len(),
        forall|j: int| 0 <= j < k ==> (#[trigger] formats[j]).format_type@ != "hls"@,
        k < formats.len() ==> formats[k].format_type@ == "hls"@,
    ensures
        k < formats.len() ==> nextory_isbn_from(formats, 0) == formats[k].isbn,
        k == formats.len() && k > 0 ==> nextory_isbn_from(formats, 0) == formats[0].isbn,
        formats.len() == 0 ==> nextory_isbn_from(formats, 0) is None,
{
    lemma_nextory_isbn(formats, 0, k);
}

proof fn lemma_nextory_isbn(formats: Seq<NextoryFormat>, from: int, k: int)
    requires
        0 <= from <= k <= formats.len(),
        forall|j: int| from <= j < k ==> (#[trigger] formats[j]).format_type@ != "hls"@,
        k < formats.len() ==> formats[k].format_type@ == "hls"@,
    ensures
        k < formats.len() ==> nextory_isbn_from(formats, from) == formats[k].isbn,
        k == formats.len() && k > 0 ==> nextory_isbn_from(formats, from) == formats[0].isbn,
        formats.len() == 0 ==> nextory_isbn_from(formats, from) is None,
    decreases k - from,
{
    if from < k {
        assert(formats[from].format_type@ != "hls"@);
        lemma_nextory_isbn(formats, from + 1, k);
    }
}

/// The ISBN of a Storytel book is that of its first audio format, `abook`;
/// without one it is that of the first format. `k` is the place of that format,
/// or how many there are.
pub proof fn storytel_isbn_is_of_audio(formats: Seq<StorytelFormat>, k: int)
    requires
        0 <= k <= formats.len(),
        forall|j: int| 0 <= j < k ==> (#[trigger] formats[j]).format_type@ != "abook"@,
        k < formats.len() ==> formats[k].format_type@ == "abook"@,
    ensures
        k < formats.len() ==> storytel_isbn_from(formats, 0) == formats[k].isbn,
        k == formats.len() && k > 0 ==> storytel_isbn_from(formats, 0) == formats[0].isbn,
        formats.len() == 0 ==> storytel_isbn_from(formats, 0) is None,
{
    lemma_storytel_isbn(formats, 0, k);
}

proof fn lemma_storytel_isbn(formats: Seq<StorytelFormat>, from: int, k: int)
    requires
        0 <= from <= k <= formats.len(),
        forall|j: int| from <= j < k ==> (#[trigger] formats[j]).format_type@ != "abook"@,
        k < formats.len() ==> formats[k].format_type@ == "abook"@,
    ensures
        k < formats.len() ==> storytel_isbn_from(formats, from) == formats[k].isbn,
        k == formats.len() && k > 0 ==> storytel_isbn_from(formats, from) == formats[0].isbn,
        formats.len() == 0 ==> storytel_isbn_from(formats, from) is None,
    decreases k - from,
{
    if from < k {
        assert(formats[from].format_type@ != "abook"@);
        lemma_storytel_isbn(formats, from + 1, k);
    }
}

/// A book's language is the one that the catalogue reads; where it reads none,
/// the codes of Swedish and English are known, and no others.
pub proof fn catalogue_reads_language_first(
    value: Seq<char>,
    parsed: Option<Term>,
    words: Vocabulary,
)
    ensures
        parsed is Some ==> folder_language(value, parsed, words) == parsed,
        ({
            let l = crate::outside::lowercase(value);
            let known = folder_language(value, None, words);
            &&& l == "sv"@ || l == "swe"@ ==> known == Some(words.swedish)
            &&& l == "en"@ || l == "eng"@ ==> known == Some(words.english)
            &&& known is Some ==> l == "sv"@ || l == "swe"@ || l == "en"@ || l == "eng"@
        }),
{
    reveal_strlit("sv");
    reveal_strlit("swe");
    reveal_strlit("en");
    reveal_strlit("eng");
    assert("sv"@[0] == 's' && "swe"@[0] == 's' && "en"@[0] == 'e' && "eng"@[0] == 'e');
}

/// Every file counts once in the size of a folder's book, and every file's
/// extension, in lowercase, is among its file types.
pub proof fn every_file_counts(files: Seq<FolderFile>, file: FolderFile)
    ensures
        total_size(seq![]) == 0,
        total_size(files.push(file)) == total_size(files) + file.size,
        forall|ext: Seq<char>| #[trigger]
            has_filetype(files.push(file), ext) <==> has_filetype(files, ext) || (file_extension(
                file.name@,
            ) matches Some(e) && crate::outside::lowercase(e) == ext),
{
    let all = files.push(file);
    assert(all.drop_last() == files);
    assert forall|ext: Seq<char>| #[trigger] has_filetype(all, ext) <==> has_filetype(files, ext)
        || (file_extension(file.name@) matches Some(e) && crate::outside::lowercase(e) == ext) by {
        if has_filetype(files, ext) {
            let i = choose|i: int|
                0 <= i < files.len() && (file_extension((#[trigger] files[i]).name@) matches Some(e)
                    && crate::outside::lowercase(e) == ext);
            assert(all[i] == files[i]);
        }
        if file_extension(file.name@) is Some {
            assert(all[files.len() as int] == file);
        }
        if has_filetype(all, ext) {
            let i = choose|i: int|
                0 <= i < all.len() && (file_extension((#[trigger] all[i]).name@) matches Some(e)
                    && crate::outside::lowercase(e) == ext);
            if i < files.len() {
                assert(files[i] == all[i]);
            }
        }
    }
}

/// The series of a book are the listed ones that could be read, in their order;
/// only where there is none does the one count that the subtitle tells, and only
/// without that the one that the title tells.
pub proof fn listed_series_come_first(
    listed: Seq<Option<Series>>,
    s: Series,
    inferred: Option<Series>,
    from_title: Option<Series>,
)
    ensures
        series_read(listed.push(Some(s))) == series_read(listed).push(s@),
        series_read(listed.push(None)) == series_read(listed),
        book_series_view(listed.push(Some(s)), inferred, from_title) == series_read(listed).push(s@),
        series_read(listed).len() == 0 ==> {
            &&& book_series_view(listed, Some(s), from_title) == seq![s@]
            &&& book_series_view(listed, None, Some(s)) == seq![s@]
            &&& book_series_view(listed, None, None).len() == 0
        },
        series_read(seq![]).len() == 0,
{
    assert(listed.push(Some(s)).drop_last() == listed);
    assert(listed.push(None::<Series>).drop_last() == listed);
    assert(listed.push(None::<Series>).last() is None);
}

/// An ISBN is added to the identifiers under its key, and the others are kept.
pub proof fn isbn_is_added(
    ids: Map<Seq<char>, Seq<char>>,
    key: Seq<char>,
    isbn: String,
    other: Seq<char>,
)
    ensures
        with_isbn(ids, key, None) == ids,
        with_isbn(ids, key, Some(isbn)).contains_key(key),
        with_isbn(ids, key, Some(isbn))[key] == isbn@,
        other != key && ids.contains_key(other) ==> with_isbn(ids, key, Some(isbn)).contains_key(
            other,
        ) && with_isbn(ids, key, Some(isbn))[other] == ids[other],
{
}

/// A folder's file is taken from where it is and keeps its name in the book's
/// directory.
pub proof fn folder_file_keeps_name(file: FolderFile, dir: Seq<char>)
    requires
        file.name@.len() > 0,
        !file.name@.contains('/'),
        crate::path::is_name(file.name@),
        dir.len() > 0,
    ensures
        folder_plan(file, dir).download_path == file.path@,
        folder_plan(file, dir).relative_library_path == file.name@,
        crate::path::parts(folder_plan(file, dir).library_path) == crate::path::parts(dir).push(
            file.name@,
        ),
{
    assert(file.name@[0] != '/');
    crate::path::lemma_single_name(file.name@);
    crate::path::join_appends_parts(dir, file.name@);
    assert(crate::path::parts(dir) + seq![file.name@] == crate::path::parts(dir).push(file.name@));
}

/// A folder without metadata files is reported as such, one whose metadata file
/// cannot be opened fails, and a file is only read behind one that could not be
/// made out.
pub proof fn folder_is_read_in_order(count: nat, i: usize)
    requires
        i < count <= usize::MAX,
    ensures
        next_in_folder(0, FolderState::Listed, FolderEvent::Begin).1 is Missing,
        next_in_folder(count, FolderState::Listed, FolderEvent::Begin) == (
            FolderState::Reading(0),
            FolderAction::Read(0),
        ),
        next_in_folder(count, FolderState::Reading(i), FolderEvent::Failed).1 is Fail,
        i + 1 < count ==> next_in_folder(count, FolderState::Reading(i), FolderEvent::Read(None)).1
            == FolderAction::Read((i + 1) as usize),
        i + 1 == count ==> next_in_folder(
            count,
            FolderState::Reading(i),
            FolderEvent::Read(None),
        ).1 is Unsupported,
{
}

/// The names of a folder's files are compared in lowercase.
pub proof fn folder_names_are_compared_in_lowercase(files: Seq<FolderFile>, i: int)
    requires
        0 <= i < files.len(),
    ensures
        crate::linker::common::lower_names(files)[i] == crate::outside::lowercase(files[i].name@),
{
}

/// The metadata files of a folder are read in the order of their names: none
/// stands behind one with a later name, and none is lost.
pub proof fn metadata_files_go_by_name(v: Seq<FolderFile>, s: Seq<FolderFile>)
    requires
        is_sorted_by_name(v, s),
        v.len() <= usize::MAX,
    ensures
        s.len() == v.len(),
        forall|i: int| 0 <= i < v.len() ==> s.contains(#[trigger] v[i]),
        forall|a: int, b: int|
            0 <= a < b < s.len() ==> crate::order::text_order(
                (#[trigger] s[a]).name@,
                (#[trigger] s[b]).name@,
            ) != crate::order::Order::Greater,
{
    let c = |i: int, j: int| crate::order::text_order(v[i].name@, v[j].name@);
    let r = choose|r: Seq<usize>|
        #![trigger r.len()]
        crate::order::is_stable_order(r, 0, v.len() as int, c) && s == r.map_values(
            |i: usize| v[i as int],
        );
    assert forall|i: int| 0 <= i < v.len() implies s.contains(#[trigger] v[i]) by {
        assert(r.contains(i as usize));
        let k = choose|k: int| 0 <= k < r.len() && r[k] == i as usize;
        assert(s[k] == v[i]);
    }
    assert forall|a: int, b: int| 0 <= a < b < s.len() implies crate::order::text_order(
        (#[trigger] s[a]).name@,
        (#[trigger] s[b]).name@,
    ) != crate::order::Order::Greater by {
        assert(crate::order::precedes(c, r[a] as int, r[b] as int));
        assert(s[a] == v[r[a] as int] && s[b] == v[r[b] as int]);
        assert(c(r[a] as int, r[b] as int) == crate::order::text_order(s[a].name@, s[b].name@));
    }
}

} // verus!
