//! The records that the library keeps and reads: books, torrents, libraries,
//! and what the download client reports.
use vstd::prelude::*;

use crate::ids::Ids;
use crate::path::PathBuf;
use crate::text::{clone_option, clone_texts, same_option, same_text, same_texts, text_of, texts};

verus! {

/// A value out of one of the catalogue's fixed lists, such as a media type or a
/// language: its name, and its place in the list, by which such values are told
/// apart and ordered.
#[derive(Debug, PartialEq, Eq)]
pub struct Term {
    pub rank: u64,
    pub name: String,
}

impl View for Term {
    type V = (u64, Seq<char>);

    open spec fn view(&self) -> (u64, Seq<char>) {
        (self.rank, self.name@)
    }
}

impl Clone for Term {
    fn clone(&self) -> (r: Self)
        ensures
            r == *self,
    {
        Term { rank: self.rank, name: self.name.clone() }
    }
}

/// The tracker's category of a torrent: its place in the category list, its
/// name, the text of its id, and the single ids that stand for it.
#[derive(Debug, PartialEq, Eq)]
pub struct OldCategory {
    pub rank: u64,
    pub name: String,
    pub id: String,
    pub one_ids: Vec<usize>,
}

#[verifier::ext_equal]
pub struct OldCategoryView {
    pub rank: u64,
    pub name: Seq<char>,
    pub id: Seq<char>,
    pub one_ids: Seq<usize>,
}

impl View for OldCategory {
    type V = OldCategoryView;

    open spec fn view(&self) -> OldCategoryView {
        OldCategoryView {
            rank: self.rank,
            name: self.name@,
            id: self.id@,
            one_ids: self.one_ids@,
        }
    }
}

impl Clone for OldCategory {
    fn clone(&self) -> (r: Self)
        ensures
            r@ == self@,
    {
        let mut one_ids: Vec<usize> = Vec::new();
        let mut i: usize = 0;
        while i < self.one_ids.len()
            invariant
                i <= self.one_ids@.len(),
                one_ids@ == self.one_ids@.take(i as int),
            decreases self.one_ids@.len() - i,
        {
            one_ids.push(self.one_ids[i]);
            assert(self.one_ids@.take(i + 1) == self.one_ids@.take(i as int).push(
                self.one_ids@[i as int],
            ));
            i = i + 1;
        }
        assert(one_ids@ == self.one_ids@);
        OldCategory { rank: self.rank, name: self.name.clone(), id: self.id.clone(), one_ids }
    }
}

/// A series that a book belongs to: its name, whether the book has a number in
/// it, the numbers as text, and the place of the series in the catalogue's
/// order of series.
#[derive(Debug, PartialEq, Eq)]
pub struct Series {
    pub name: String,
    pub numbered: bool,
    pub entries: String,
    pub rank: u64,
}

#[verifier::ext_equal]
pub struct SeriesView {
    pub name: Seq<char>,
    pub numbered: bool,
    pub entries: Seq<char>,
    pub rank: u64,
}

impl View for Series {
    type V = SeriesView;

    open spec fn view(&self) -> SeriesView {
        SeriesView {
            name: self.name@,
            numbered: self.numbered,
            entries: self.entries@,
            rank: self.rank,
        }
    }
}

impl Clone for Series {
    fn clone(&self) -> (r: Self)
        ensures
            r == *self,
    {
        Series {
            name: self.name.clone(),
            numbered: self.numbered,
            entries: self.entries.clone(),
            rank: self.rank,
        }
    }
}

/// The content flags of a book: the stored bits, and what they say of each
/// flag.
#[derive(Clone, Copy, Debug, PartialEq, Eq, Structural)]
pub struct Flags {
    pub bits: u8,
    pub crude_language: Option<bool>,
    pub violence: Option<bool>,
    pub some_explicit: Option<bool>,
    pub explicit: Option<bool>,
    pub abridged: Option<bool>,
    pub lgbt: Option<bool>,
}

/// Where a book's metadata comes from.
#[derive(Clone, Copy, Debug, PartialEq, Eq, Structural)]
pub enum MetadataSource {
    Mam,
    Manual,
    File,
    Match,
}

/// What is known of a book.
#[derive(Debug, PartialEq)]
pub struct TorrentMeta {
    pub ids: Ids,
    pub vip_status: Option<String>,
    pub cat: Option<OldCategory>,
    pub media_type: Term,
    pub main_cat: Option<String>,
    pub categories: Vec<String>,
    pub tags: Vec<String>,
    pub language: Option<Term>,
    pub flags: Option<Flags>,
    pub filetypes: Vec<String>,
    pub num_files: u64,
    pub size: u64,
    pub title: String,
    pub edition: Option<(String, u64)>,
    pub description: String,
    pub authors: Vec<String>,
    pub narrators: Vec<String>,
    pub series: Vec<Series>,
    pub source: MetadataSource,
    pub uploaded_at: Option<i64>,
}

#[verifier::ext_equal]
pub struct MetaView {
    pub ids: Map<Seq<char>, Seq<char>>,
    pub vip_status: Option<Seq<char>>,
    pub cat: Option<OldCategoryView>,
    pub media_type: (u64, Seq<char>),
    pub main_cat: Option<Seq<char>>,
    pub categories: Seq<Seq<char>>,
    pub tags: Seq<Seq<char>>,
    pub language: Option<(u64, Seq<char>)>,
    pub flags: Option<Flags>,
    pub filetypes: Seq<Seq<char>>,
    pub num_files: u64,
    pub size: u64,
    pub title: Seq<char>,
    pub edition: Option<(Seq<char>, u64)>,
    pub description: Seq<char>,
    pub authors: Seq<Seq<char>>,
    pub narrators: Seq<Seq<char>>,
    pub series: Seq<SeriesView>,
    pub source: MetadataSource,
    pub uploaded_at: Option<i64>,
}

pub open spec fn term_of(o: Option<Term>) -> Option<(u64, Seq<char>)> {
    match o {
        Some(t) => Some(t@),
        None => None,
    }
}

pub open spec fn category_of(o: Option<OldCategory>) -> Option<OldCategoryView> {
    match o {
        Some(t) => Some(t@),
        None => None,
    }
}

pub open spec fn edition_of(o: Option<(String, u64)>) -> Option<(Seq<char>, u64)> {
    match o {
        Some(e) => Some((e.0@, e.1)),
        None => None,
    }
}

pub open spec fn series_of(v: Seq<Series>) -> Seq<SeriesView> {
    v.map_values(|s: Series| s@)
}

impl View for TorrentMeta {
    type V = MetaView;

    open spec fn view(&self) -> MetaView {
        MetaView {
            ids: self.ids@,
            vip_status: text_of(self.vip_status),
            cat: category_of(self.cat),
            media_type: self.media_type@,
            main_cat: text_of(self.main_cat),
            categories: texts(self.categories@),
            tags: texts(self.tags@),
            language: term_of(self.language),
            flags: self.flags,
            filetypes: texts(self.filetypes@),
            num_files: self.num_files,
            size: self.size,
            title: self.title@,
            edition: edition_of(self.edition),
            description: self.description@,
            authors: texts(self.authors@),
            narrators: texts(self.narrators@),
            series: series_of(self.series@),
            source: self.source,
            uploaded_at: self.uploaded_at,
        }
    }
}

pub fn clone_series(v: &Vec<Series>) -> (r: Vec<Series>)
    ensures
        r@ == v@,
{
    let mut r: Vec<Series> = Vec::new();
    let mut i: usize = 0;
    while i < v.len()
        invariant
            i <= v@.len(),
            r@ == v@.take(i as int),
        decreases v@.len() - i,
    {
        r.push(v[i].clone());
        assert(v@.take(i + 1) == v@.take(i as int).push(v@[i as int]));
        i = i + 1;
    }
    assert(v@.take(i as int) == v@);
    r
}

pub fn clone_term(o: &Option<Term>) -> (r: Option<Term>)
    ensures
        r == *o,
{
    match o {
        Some(t) => Some(t.clone()),
        None => None,
    }
}

fn clone_category(o: &Option<OldCategory>) -> (r: Option<OldCategory>)
    ensures
        category_of(r) == category_of(*o),
{
    match o {
        Some(t) => Some(t.clone()),
        None => None,
    }
}

pub fn clone_edition(o: &Option<(String, u64)>) -> (r: Option<(String, u64)>)
    ensures
        r == *o,
{
    match o {
        Some(e) => Some((e.0.clone(), e.1)),
        None => None,
    }
}

impl Clone for TorrentMeta {
    fn clone(&self) -> (r: Self)
        ensures
            r@ == self@,
    {
        TorrentMeta {
            ids: self.ids.clone(),
            vip_status: clone_option(&self.vip_status),
            cat: clone_category(&self.cat),
            media_type: self.media_type.clone(),
            main_cat: clone_option(&self.main_cat),
            categories: clone_texts(&self.categories),
            tags: clone_texts(&self.tags),
            language: clone_term(&self.language),
            flags: self.flags,
            filetypes: clone_texts(&self.filetypes),
            num_files: self.num_files,
            size: self.size,
            title: self.title.clone(),
            edition: clone_edition(&self.edition),
            description: self.description.clone(),
            authors: clone_texts(&self.authors),
            narrators: clone_texts(&self.narrators),
            series: clone_series(&self.series),
            source: self.source,
            uploaded_at: self.uploaded_at,
        }
    }
}

pub fn same_term(a: &Term, b: &Term) -> (r: bool)
    ensures
        r == (a@ == b@),
{
    a.rank == b.rank && same_text(a.name.as_str(), b.name.as_str())
}

fn same_terms(a: &Option<Term>, b: &Option<Term>) -> (r: bool)
    ensures
        r == (term_of(*a) == term_of(*b)),
{
    match (a, b) {
        (Some(x), Some(y)) => same_term(x, y),
        (None, None) => true,
        _ => false,
    }
}

fn same_numbers(a: &Vec<usize>, b: &Vec<usize>) -> (r: bool)
    ensures
        r == (a@ == b@),
{
    if a.len() != b.len() {
        return false;
    }
    let mut i: usize = 0;
    while i < a.len()
        invariant
            i <= a@.len() == b@.len(),
            forall|k: int| 0 <= k < i ==> a@[k] == b@[k],
        decreases a@.len() - i,
    {
        if a[i] != b[i] {
            return false;
        }
        i = i + 1;
    }
    assert(a@ == b@);
    true
}

fn same_categories(a: &Option<OldCategory>, b: &Option<OldCategory>) -> (r: bool)
    ensures
        r == (category_of(*a) == category_of(*b)),
{
    match (a, b) {
        (Some(x), Some(y)) => x.rank == y.rank && same_text(x.name.as_str(), y.name.as_str())
            && same_text(x.id.as_str(), y.id.as_str()) && same_numbers(&x.one_ids, &y.one_ids),
        (None, None) => true,
        _ => false,
    }
}

fn same_edition(a: &Option<(String, u64)>, b: &Option<(String, u64)>) -> (r: bool)
    ensures
        r == (edition_of(*a) == edition_of(*b)),
{
    match (a, b) {
        (Some(x), Some(y)) => same_text(x.0.as_str(), y.0.as_str()) && x.1 == y.1,
        (None, None) => true,
        _ => false,
    }
}

fn same_series(a: &Vec<Series>, b: &Vec<Series>) -> (r: bool)
    ensures
        r == (series_of(a@) == series_of(b@)),
{
    let ghost x = series_of(a@);
    let ghost y = series_of(b@);
    if a.len() != b.len() {
        assert(x.len() != y.len());
        return false;
    }
    let mut i: usize = 0;
    while i < a.len()
        invariant
            x == series_of(a@),
            y == series_of(b@),
            i <= a@.len() == b@.len(),
            forall|k: int| 0 <= k < i ==> x[k] == y[k],
        decreases a@.len() - i,
    {
        let (s, t) = (&a[i], &b[i]);
        let same = same_text(s.name.as_str(), t.name.as_str()) && s.numbered == t.numbered
            && same_text(s.entries.as_str(), t.entries.as_str()) && s.rank == t.rank;
        assert(same == (x[i as int] == y[i as int]));
        if !same {
            return false;
        }
        i = i + 1;
    }
    assert(x == y);
    true
}

impl TorrentMeta {
    /// Whether the two say the same of a book.
    pub fn is_same(&self, other: &TorrentMeta) -> (r: bool)
        ensures
            r == (self@ == other@),
    {
        let r = self.ids.is_same(&other.ids) && same_option(&self.vip_status, &other.vip_status)
            && same_categories(&self.cat, &other.cat) && same_term(
            &self.media_type,
            &other.media_type,
        ) && same_option(&self.main_cat, &other.main_cat) && same_texts(
            &self.categories,
            &other.categories,
        ) && same_texts(&self.tags, &other.tags) && same_terms(&self.language, &other.language)
            && self.flags == other.flags && same_texts(&self.filetypes, &other.filetypes)
            && self.num_files == other.num_files && self.size == other.size && same_text(
            self.title.as_str(),
            other.title.as_str(),
        ) && same_edition(&self.edition, &other.edition) && same_text(
            self.description.as_str(),
            other.description.as_str(),
        ) && same_texts(&self.authors, &other.authors) && same_texts(
            &self.narrators,
            &other.narrators,
        ) && same_series(&self.series, &other.series) && self.source == other.source
            && self.uploaded_at == other.uploaded_at;
        r
    }
}

/// What the download client says of a torrent that the library knows.
#[derive(Clone, Copy, Debug, PartialEq, Eq, Structural)]
pub enum ClientStatus {
    NotInClient,
    RemovedFromTracker,
}

/// Why a book's place in the library is not the one that is wanted.
#[derive(Debug, PartialEq)]
pub enum LibraryMismatch {
    /// The book lies outside the library's directory, the one given.
    NewLibraryDir(PathBuf),
    /// The book's directory should be the one given.
    NewPath(PathBuf),
    /// No library wants the book.
    NoLibrary,
}

#[verifier::ext_equal]
pub enum MismatchView {
    NewLibraryDir(Seq<char>),
    NewPath(Seq<char>),
    NoLibrary,
}

impl View for LibraryMismatch {
    type V = MismatchView;

    open spec fn view(&self) -> MismatchView {
        match self {
            LibraryMismatch::NewLibraryDir(p) => MismatchView::NewLibraryDir(p@),
            LibraryMismatch::NewPath(p) => MismatchView::NewPath(p@),
            LibraryMismatch::NoLibrary => MismatchView::NoLibrary,
        }
    }
}

impl Clone for LibraryMismatch {
    fn clone(&self) -> (r: Self)
        ensures
            r == *self,
    {
        match self {
            LibraryMismatch::NewLibraryDir(p) => LibraryMismatch::NewLibraryDir(p.clone()),
            LibraryMismatch::NewPath(p) => LibraryMismatch::NewPath(p.clone()),
            LibraryMismatch::NoLibrary => LibraryMismatch::NoLibrary,
        }
    }
}

pub open spec fn mismatch_of(o: Option<LibraryMismatch>) -> Option<MismatchView> {
    match o {
        Some(m) => Some(m@),
        None => None,
    }
}

pub open spec fn path_of(o: Option<PathBuf>) -> Option<Seq<char>> {
    match o {
        Some(p) => Some(p@),
        None => None,
    }
}

/// A book that the library knows, from a torrent or from a folder.
#[derive(Debug, PartialEq)]
pub struct Torrent {
    pub id: String,
    pub id_is_hash: bool,
    pub mam_id: Option<u64>,
    pub library_path: Option<PathBuf>,
    pub library_files: Vec<PathBuf>,
    pub linker: Option<String>,
    pub category: Option<String>,
    pub selected_audio_format: Option<String>,
    pub selected_ebook_format: Option<String>,
    pub title_search: String,
    pub meta: TorrentMeta,
    pub created_at: i64,
    pub replaced_with: Option<(String, i64)>,
    pub library_mismatch: Option<LibraryMismatch>,
    pub client_status: Option<ClientStatus>,
}

#[verifier::ext_equal]
pub struct TorrentView {
    pub id: Seq<char>,
    pub id_is_hash: bool,
    pub mam_id: Option<u64>,
    pub library_path: Option<Seq<char>>,
    pub library_files: Seq<Seq<char>>,
    pub linker: Option<Seq<char>>,
    pub category: Option<Seq<char>>,
    pub selected_audio_format: Option<Seq<char>>,
    pub selected_ebook_format: Option<Seq<char>>,
    pub title_search: Seq<char>,
    pub meta: MetaView,
    pub created_at: i64,
    pub replaced_with: Option<(Seq<char>, i64)>,
    pub library_mismatch: Option<MismatchView>,
    pub client_status: Option<ClientStatus>,
}

pub open spec fn replaced_of(o: Option<(String, i64)>) -> Option<(Seq<char>, i64)> {
    match o {
        Some(e) => Some((e.0@, e.1)),
        None => None,
    }
}

impl View for Torrent {
    type V = TorrentView;

    open spec fn view(&self) -> TorrentView {
        TorrentView {
            id: self.id@,
            id_is_hash: self.id_is_hash,
            mam_id: self.mam_id,
            library_path: path_of(self.library_path),
            library_files: crate::path::path_texts(self.library_files@),
            linker: text_of(self.linker),
            category: text_of(self.category),
            selected_audio_format: text_of(self.selected_audio_format),
            selected_ebook_format: text_of(self.selected_ebook_format),
            title_search: self.title_search@,
            meta: self.meta@,
            created_at: self.created_at,
            replaced_with: replaced_of(self.replaced_with),
            library_mismatch: mismatch_of(self.library_mismatch),
            client_status: self.client_status,
        }
    }
}

pub fn clone_path(o: &Option<PathBuf>) -> (r: Option<PathBuf>)
    ensures
        r == *o,
{
    match o {
        Some(p) => Some(p.clone()),
        None => None,
    }
}

fn clone_paths(v: &Vec<PathBuf>) -> (r: Vec<PathBuf>)
    ensures
        r@ == v@,
{
    let mut r: Vec<PathBuf> = Vec::new();
    let mut i: usize = 0;
    while i < v.len()
        invariant
            i <= v@.len(),
            r@ == v@.take(i as int),
        decreases v@.len() - i,
    {
        r.push(v[i].clone());
        assert(v@.take(i + 1) == v@.take(i as int).push(v@[i as int]));
        i = i + 1;
    }
    assert(v@.take(i as int) == v@);
    r
}

pub fn clone_replaced(o: &Option<(String, i64)>) -> (r: Option<(String, i64)>)
    ensures
        r == *o,
{
    match o {
        Some(e) => Some((e.0.clone(), e.1)),
        None => None,
    }
}

fn clone_mismatch(o: &Option<LibraryMismatch>) -> (r: Option<LibraryMismatch>)
    ensures
        r == *o,
{
    match o {
        Some(m) => Some(m.clone()),
        None => None,
    }
}

impl Clone for Torrent {
    fn clone(&self) -> (r: Self)
        ensures
            r@ == self@,
    {
        Torrent {
            id: self.id.clone(),
            id_is_hash: self.id_is_hash,
            mam_id: self.mam_id,
            library_path: clone_path(&self.library_path),
            library_files: clone_paths(&self.library_files),
            linker: clone_option(&self.linker),
            category: clone_option(&self.category),
            selected_audio_format: clone_option(&self.selected_audio_format),
            selected_ebook_format: clone_option(&self.selected_ebook_format),
            title_search: self.title_search.clone(),
            meta: self.meta.clone(),
            created_at: self.created_at,
            replaced_with: clone_replaced(&self.replaced_with),
            library_mismatch: clone_mismatch(&self.library_mismatch),
            client_status: self.client_status,
        }
    }
}

/// What happened to a book.
#[derive(Debug, PartialEq)]
pub enum EventType {
    RemovedFromTracker,
    Linked { linker: Option<String>, library_path: PathBuf },
}

/// An entry of the history.
#[derive(Debug, PartialEq)]
pub struct Event {
    pub hash: Option<String>,
    pub mam_id: Option<u64>,
    pub event: EventType,
}

#[verifier::ext_equal]
pub enum EventTypeView {
    RemovedFromTracker,
    Linked { linker: Option<Seq<char>>, library_path: Seq<char> },
}

#[verifier::ext_equal]
pub struct EventView {
    pub hash: Option<Seq<char>>,
    pub mam_id: Option<u64>,
    pub event: EventTypeView,
}

impl View for Event {
    type V = EventView;

    open spec fn view(&self) -> EventView {
        EventView {
            hash: text_of(self.hash),
            mam_id: self.mam_id,
            event: match self.event {
                EventType::RemovedFromTracker => EventTypeView::RemovedFromTracker,
                EventType::Linked { linker, library_path } => EventTypeView::Linked {
                    linker: text_of(linker),
                    library_path: library_path@,
                },
            },
        }
    }
}

impl Event {
    /// A new entry of the history.
    pub fn new(hash: Option<String>, mam_id: Option<u64>, event: EventType) -> (r: Event)
        ensures
            r == (Event { hash, mam_id, event }),
    {
        Event { hash, mam_id, event }
    }
}

/// How files come into a library.
#[derive(Clone, Copy, Debug, PartialEq, Eq, Structural)]
pub enum LibraryLinkMethod {
    Hardlink,
    HardlinkOrCopy,
    Copy,
    HardlinkOrSymlink,
    Symlink,
    NoLink,
}

/// What every kind of library has.
#[derive(Debug, PartialEq)]
pub struct LibraryOptions {
    pub name: Option<String>,
    pub library_dir: PathBuf,
    pub method: LibraryLinkMethod,
    pub audio_types: Option<Vec<String>>,
    pub ebook_types: Option<Vec<String>>,
}

/// The tags by which a library takes or refuses torrents.
#[derive(Debug, PartialEq)]
pub struct LibraryTagFilters {
    pub allow_tags: Vec<String>,
    pub deny_tags: Vec<String>,
}

impl Default for LibraryTagFilters {
    fn default() -> (r: Self)
        ensures
            r.allow_tags@.len() == 0,
            r.deny_tags@.len() == 0,
    {
        LibraryTagFilters { allow_tags: Vec::new(), deny_tags: Vec::new() }
    }
}

/// A library of the books in a directory of ripped books.
#[derive(Debug, PartialEq)]
pub struct LibraryByRipDir {
    pub rip_dir: PathBuf,
    pub options: LibraryOptions,
}

/// A library of the torrents that are saved under a directory.
#[derive(Debug, PartialEq)]
pub struct LibraryByDownloadDir {
    pub download_dir: PathBuf,
    pub options: LibraryOptions,
    pub tag_filters: LibraryTagFilters,
}

/// A library of the torrents that have a category in the client.
#[derive(Debug, PartialEq)]
pub struct LibraryByCategory {
    pub category: String,
    pub options: LibraryOptions,
    pub tag_filters: LibraryTagFilters,
}

/// A library.
#[derive(Debug, PartialEq)]
pub enum Library {
    ByRipDir(LibraryByRipDir),
    ByDownloadDir(LibraryByDownloadDir),
    ByCategory(LibraryByCategory),
}

impl Library {
    pub open spec fn opts(&self) -> LibraryOptions {
        match self {
            Library::ByRipDir(l) => l.options,
            Library::ByDownloadDir(l) => l.options,
            Library::ByCategory(l) => l.options,
        }
    }

    /// What every kind of library has.
    pub fn options(&self) -> (r: &LibraryOptions)
        ensures
            *r == self.opts(),
    {
        match self {
            Library::ByRipDir(l) => &l.options,
            Library::ByDownloadDir(l) => &l.options,
            Library::ByCategory(l) => &l.options,
        }
    }
}

/// What is set on a torrent in the client.
#[derive(Debug, PartialEq)]
pub struct QbitUpdate {
    pub category: Option<String>,
    pub tags: Vec<String>,
}

/// A download client.
#[derive(Debug, PartialEq)]
pub struct QbitConfig {
    pub url: String,
    pub username: String,
    pub password: String,
    pub path_mapping: Vec<(PathBuf, PathBuf)>,
    pub on_invalid_torrent: Option<QbitUpdate>,
}

/// The settings that the linker reads.
#[derive(Debug, PartialEq)]
pub struct Config {
    pub exclude_narrator_in_library_dir: bool,
    pub audio_types: Vec<String>,
    pub ebook_types: Vec<String>,
    pub qbittorrent: Vec<QbitConfig>,
    pub libraries: Vec<Library>,
}

/// A torrent as the client reports it.
#[derive(Debug, PartialEq)]
pub struct QbitTorrent {
    pub hash: String,
    pub name: String,
    pub save_path: String,
    pub category: String,
    pub tags: String,
}

/// A file of a torrent as the client reports it.
#[derive(Debug, PartialEq)]
pub struct TorrentContent {
    pub name: String,
}

/// A tracker of a torrent as the client reports it.
#[derive(Debug, PartialEq)]
pub struct Tracker {
    pub msg: String,
}

/// The names under which identifiers are kept.
#[derive(Debug, PartialEq)]
pub struct IdKeys {
    pub abs: String,
    pub asin: String,
    pub isbn: String,
    pub nextory: String,
    pub storytel: String,
}

/// The catalogue's own words that the library uses.
#[derive(Debug, PartialEq)]
pub struct Vocabulary {
    pub keys: IdKeys,
    /// The media type of audiobooks.
    pub audiobook: Term,
    pub swedish: Term,
    pub english: Term,
    /// Flags of which none is set.
    pub no_flags: Flags,
    /// Flags of which only `abridged` is set.
    pub abridged_flags: Flags,
}

/// What contracts say of a book's metadata is what the metadata holds, field by
/// field.
pub proof fn meta_is_seen_whole(m: TorrentMeta)
    ensures
        m@.ids == m.ids@,
        m@.vip_status is Some <==> m.vip_status is Some,
        m.vip_status matches Some(s) ==> m@.vip_status == Some(s@),
        m@.cat is Some <==> m.cat is Some,
        m.cat matches Some(c) ==> (m@.cat matches Some(v) && v.rank == c.rank && v.name == c.name@
            && v.id == c.id@ && v.one_ids == c.one_ids@),
        m@.media_type == (m.media_type.rank, m.media_type.name@),
        m@.main_cat is Some <==> m.main_cat is Some,
        m.main_cat matches Some(s) ==> m@.main_cat == Some(s@),
        m@.language is Some <==> m.language is Some,
        m.language matches Some(l) ==> m@.language == Some((l.rank, l.name@)),
        m@.flags == m.flags,
        m@.num_files == m.num_files,
        m@.size == m.size,
        m@.title == m.title@,
        m@.edition is Some <==> m.edition is Some,
        m.edition matches Some(e) ==> m@.edition == Some((e.0@, e.1)),
        m@.description == m.description@,
        m@.source == m.source,
        m@.uploaded_at == m.uploaded_at,
{
}

/// What contracts say of a book's lists is what the lists hold, entry by entry.
pub proof fn lists_are_seen_whole(m: TorrentMeta, i: int)
    ensures
        m@.categories.len() == m.categories@.len(),
        0 <= i < m.categories@.len() ==> m@.categories[i] == m.categories@[i]@,
        m@.tags.len() == m.tags@.len(),
        0 <= i < m.tags@.len() ==> m@.tags[i] == m.tags@[i]@,
        m@.filetypes.len() == m.filetypes@.len(),
        0 <= i < m.filetypes@.len() ==> m@.filetypes[i] == m.filetypes@[i]@,
        m@.authors.len() == m.authors@.len(),
        0 <= i < m.authors@.len() ==> m@.authors[i] == m.authors@[i]@,
        m@.narrators.len() == m.narrators@.len(),
        0 <= i < m.narrators@.len() ==> m@.narrators[i] == m.narrators@[i]@,
        m@.series.len() == m.series@.len(),
        0 <= i < m.series@.len() ==> m@.series[i].name == m.series@[i].name@ && m@.series[i].entries
            == m.series@[i].entries@ && m@.series[i].numbered == m.series@[i].numbered
            && m@.series[i].rank == m.series@[i].rank,
{
}

/// What contracts say of a torrent's record is what the record holds, field by
/// field.
pub proof fn record_is_seen_whole(t: Torrent, i: int)
    ensures
        t@.id == t.id@,
        t@.id_is_hash == t.id_is_hash,
        t@.mam_id == t.mam_id,
        t@.library_path is Some <==> t.library_path is Some,
        t.library_path matches Some(p) ==> t@.library_path == Some(p@),
        t@.library_files.len() == t.library_files@.len(),
        0 <= i < t.library_files@.len() ==> t@.library_files[i] == t.library_files@[i]@,
        t@.linker is Some <==> t.linker is Some,
        t.linker matches Some(s) ==> t@.linker == Some(s@),
        t@.category is Some <==> t.category is Some,
        t.category matches Some(s) ==> t@.category == Some(s@),
        t@.selected_audio_format is Some <==> t.selected_audio_format is Some,
        t.selected_audio_format matches Some(s) ==> t@.selected_audio_format == Some(s@),
        t@.selected_ebook_format is Some <==> t.selected_ebook_format is Some,
        t.selected_ebook_format matches Some(s) ==> t@.selected_ebook_format == Some(s@),
        t@.title_search == t.title_search@,
        t@.meta == t.meta@,
        t@.created_at == t.created_at,
        t@.replaced_with is Some <==> t.replaced_with is Some,
        t.replaced_with matches Some(r) ==> t@.replaced_with == Some((r.0@, r.1)),
        t@.library_mismatch is Some <==> t.library_mismatch is Some,
        t.library_mismatch matches Some(LibraryMismatch::NewLibraryDir(p)) ==> t@.library_mismatch
            == Some(MismatchView::NewLibraryDir(p@)),
        t.library_mismatch matches Some(LibraryMismatch::NewPath(p)) ==> t@.library_mismatch == Some(
            MismatchView::NewPath(p@),
        ),
        t.library_mismatch matches Some(LibraryMismatch::NoLibrary) ==> t@.library_mismatch == Some(
            MismatchView::NoLibrary,
        ),
        t@.client_status == t.client_status,
{
}

} // verus!
