//! What the torrents page exchanges with the server.
use vstd::prelude::*;
use vstd::string::*;

use crate::text::{concat, concat3, join, number_text};

verus! {

/// What torrents are sorted by.
#[derive(Clone, Copy, Debug, PartialEq, Eq, Structural)]
pub enum TorrentsPageSort {
    Kind,
    Category,
    Title,
    Edition,
    Authors,
    Narrators,
    Series,
    Language,
    Size,
    Linker,
    QbitCategory,
    Linked,
    CreatedAt,
    UploadedAt,
}

/// What torrents are filtered by.
#[derive(Clone, Copy, Debug, PartialEq, Eq, Structural)]
pub enum TorrentsPageFilter {
    Kind,
    Category,
    Categories,
    Flags,
    Title,
    Author,
    Narrator,
    Series,
    Language,
    Filetype,
    Linker,
    QbitCategory,
    Linked,
    LibraryMismatch,
    ClientStatus,
    Abs,
    Query,
    Source,
    Metadata,
}

/// What can be done with several torrents at once.
#[derive(Clone, Copy, Debug, PartialEq, Eq, Structural)]
pub enum TorrentsBulkAction {
    Refresh,
    Relink,
    RefreshRelink,
    Clean,
    Remove,
}

impl TorrentsBulkAction {
    pub open spec fn label_text(self) -> Seq<char> {
        match self {
            TorrentsBulkAction::Refresh => "refresh metadata"@,
            TorrentsBulkAction::Relink => "relink"@,
            TorrentsBulkAction::RefreshRelink => "refresh metadata and relink"@,
            TorrentsBulkAction::Clean => "clean torrent"@,
            TorrentsBulkAction::Remove => "remove torrent from MLM"@,
        }
    }

    pub open spec fn completed_text(self) -> Seq<char> {
        match self {
            TorrentsBulkAction::Refresh => "Refreshed metadata for"@,
            TorrentsBulkAction::Relink => "Relinked"@,
            TorrentsBulkAction::RefreshRelink => "Refreshed metadata and relinked"@,
            TorrentsBulkAction::Clean => "Cleaned"@,
            TorrentsBulkAction::Remove => "Removed"@,
        }
    }

    /// The action's name.
    pub fn label(self) -> (r: &'static str)
        ensures
            r@ == self.label_text(),
    {
        match self {
            TorrentsBulkAction::Refresh => "refresh metadata",
            TorrentsBulkAction::Relink => "relink",
            TorrentsBulkAction::RefreshRelink => "refresh metadata and relink",
            TorrentsBulkAction::Clean => "clean torrent",
            TorrentsBulkAction::Remove => "remove torrent from MLM",
        }
    }

    /// What was done, as the beginning of a sentence.
    pub fn completed_label(self) -> (r: &'static str)
        ensures
            r@ == self.completed_text(),
    {
        match self {
            TorrentsBulkAction::Refresh => "Refreshed metadata for",
            TorrentsBulkAction::Relink => "Relinked",
            TorrentsBulkAction::RefreshRelink => "Refreshed metadata and relinked",
            TorrentsBulkAction::Clean => "Cleaned",
            TorrentsBulkAction::Remove => "Removed",
        }
    }
}

/// A torrent that an action failed for.
#[derive(Clone, Debug, PartialEq, Eq)]
pub struct TorrentsBulkActionFailure {
    pub id: String,
    pub title: String,
}

/// What came of an action on several torrents.
#[derive(Clone, Debug, PartialEq, Eq)]
pub struct TorrentsBulkActionResult {
    pub succeeded_count: usize,
    pub failed: Vec<TorrentsBulkActionFailure>,
}

impl Default for TorrentsBulkActionResult {
    fn default() -> (r: Self)
        ensures
            r.succeeded_count == 0,
            r.failed@.len() == 0,
    {
        TorrentsBulkActionResult { succeeded_count: 0, failed: Vec::new() }
    }
}

/// A number of torrents.
pub open spec fn count_label(count: nat) -> Seq<char> {
    if count == 1 {
        "1 torrent"@
    } else {
        crate::text::decimal(count) + " torrents"@
    }
}

/// A number of torrents.
pub fn torrent_count_label(count: usize) -> (r: String)
    ensures
        r@ == count_label(count as nat),
{
    if count == 1 {
        "1 torrent".to_owned()
    } else {
        concat(number_text(count as u64).as_str(), " torrents")
    }
}

/// The titles of the torrents that an action failed for.
pub open spec fn failed_titles(failed: Seq<TorrentsBulkActionFailure>) -> Seq<Seq<char>> {
    failed.map_values(|f: TorrentsBulkActionFailure| f.title@)
}

/// What is said of an action on several torrents.
pub open spec fn status_text(result: TorrentsBulkActionResult, action: TorrentsBulkAction) -> Seq<
    char,
> {
    action.completed_text() + " "@ + count_label(result.succeeded_count as nat) + "."@ + (
    if result.failed@.len() > 0 {
        " "@ + count_label(result.failed@.len()) + " failed: "@ + crate::text::joined(
            failed_titles(result.failed@),
            ", "@,
        ) + "."@
    } else {
        seq![]
    })
}

impl TorrentsBulkActionResult {
    /// Whether the action failed for every torrent.
    pub fn all_failed(&self) -> (r: bool)
        ensures
            r == (self.succeeded_count == 0 && self.failed@.len() > 0),
    {
        self.succeeded_count == 0 && self.failed.len() > 0
    }

    /// What is said of the action, and whether that is an error.
    pub fn status_message(&self, action: TorrentsBulkAction) -> (r: (String, bool))
        ensures
            r.0@ == status_text(*self, action),
            r.1 == (self.succeeded_count == 0 && self.failed@.len() > 0),
    {
        let mut message = concat3(
            action.completed_label(),
            " ",
            torrent_count_label(self.succeeded_count).as_str(),
        );
        message.append(".");
        if self.failed.len() > 0 {
            let mut titles: Vec<String> = Vec::new();
            let mut i: usize = 0;
            while i < self.failed.len()
                invariant
                    i <= self.failed@.len(),
                    crate::text::texts(titles@) == failed_titles(self.failed@).take(i as int),
                decreases self.failed@.len() - i,
            {
                let ghost before = crate::text::texts(titles@);
                titles.push(self.failed[i].title.clone());
                assert(crate::text::texts(titles@) == before.push(self.failed@[i as int].title@));
                assert(failed_titles(self.failed@).take(i + 1) == failed_titles(self.failed@).take(
                    i as int,
                ).push(failed_titles(self.failed@)[i as int]));
                i = i + 1;
            }
            assert(failed_titles(self.failed@).take(i as int) == failed_titles(self.failed@));
            let ghost start = message@;
            let mut tail = concat3(
                " ",
                torrent_count_label(self.failed.len()).as_str(),
                " failed: ",
            );
            tail.append(join(&titles, ", ").as_str());
            tail.append(".");
            message.append(tail.as_str());
        }
        assert(message@ == status_text(*self, action));
        (message, self.all_failed())
    }
}

/// The columns of the torrents page.
#[derive(Clone, Copy, Debug, PartialEq, Eq, Structural)]
pub struct TorrentsPageColumns {
    pub category: bool,
    pub categories: bool,
    pub flags: bool,
    pub edition: bool,
    pub authors: bool,
    pub narrators: bool,
    pub series: bool,
    pub language: bool,
    pub size: bool,
    pub filetypes: bool,
    pub linker: bool,
    pub qbit_category: bool,
    pub path: bool,
    pub created_at: bool,
    pub uploaded_at: bool,
}

impl Default for TorrentsPageColumns {
    fn default() -> (r: Self)
        ensures
            r == (TorrentsPageColumns {
                category: false,
                categories: false,
                flags: false,
                edition: false,
                authors: true,
                narrators: true,
                series: true,
                language: false,
                size: true,
                filetypes: true,
                linker: false,
                qbit_category: false,
                path: false,
                created_at: true,
                uploaded_at: false,
            }),
    {
        TorrentsPageColumns {
            category: false,
            categories: false,
            flags: false,
            edition: false,
            authors: true,
            narrators: true,
            series: true,
            language: false,
            size: true,
            filetypes: true,
            linker: false,
            qbit_category: false,
            path: false,
            created_at: true,
            uploaded_at: false,
        }
    }
}

/// The one item, where the condition holds.
#[verifier::opaque]
pub open spec fn only_if<T>(condition: bool, item: T) -> Seq<T> {
    if condition {
        seq![item]
    } else {
        seq![]
    }
}

/// A place for a column in the table, behind that of the check boxes.
#[derive(Clone, Copy, Debug, PartialEq, Eq, Structural)]
pub enum Slot {
    /// The kind of the book, with its category where that is shown.
    Kind,
    Categories,
    Flags,
    Title,
    Edition,
    Authors,
    Narrators,
    Series,
    Language,
    Size,
    Filetypes,
    Linker,
    QbitCategory,
    /// The book's path, or whether it is linked.
    Place,
    CreatedAt,
    UploadedAt,
}

/// The places of the table, in order.
pub open spec fn all_slots() -> Seq<Slot> {
    seq![
        Slot::Kind,
        Slot::Categories,
        Slot::Flags,
        Slot::Title,
        Slot::Edition,
        Slot::Authors,
        Slot::Narrators,
        Slot::Series,
        Slot::Language,
        Slot::Size,
        Slot::Filetypes,
        Slot::Linker,
        Slot::QbitCategory,
        Slot::Place,
        Slot::CreatedAt,
        Slot::UploadedAt,
    ]
}

/// The place is used.
pub open spec fn slot_shown(show: TorrentsPageColumns, slot: Slot) -> bool {
    match slot {
        Slot::Kind => true,
        Slot::Categories => show.categories,
        Slot::Flags => show.flags,
        Slot::Title => true,
        Slot::Edition => show.edition,
        Slot::Authors => show.authors,
        Slot::Narrators => show.narrators,
        Slot::Series => show.series,
        Slot::Language => show.language,
        Slot::Size => show.size,
        Slot::Filetypes => show.filetypes,
        Slot::Linker => show.linker,
        Slot::QbitCategory => show.qbit_category,
        Slot::Place => true,
        Slot::CreatedAt => show.created_at,
        Slot::UploadedAt => show.uploaded_at,
    }
}

/// The places that are used, of the given ones.
pub open spec fn used_slots(show: TorrentsPageColumns, slots: Seq<Slot>) -> Seq<Slot>
    decreases slots.len(),
{
    if slots.len() == 0 {
        seq![]
    } else if slot_shown(show, slots.last()) {
        used_slots(show, slots.drop_last()).push(slots.last())
    } else {
        used_slots(show, slots.drop_last())
    }
}

/// The places of the table that are used, in order.
pub open spec fn table_slots(show: TorrentsPageColumns) -> Seq<Slot> {
    used_slots(show, all_slots())
}

/// The width of the column at a place.
pub open spec fn slot_width(show: TorrentsPageColumns, slot: Slot) -> Seq<char> {
    match slot {
        Slot::Kind => if show.category {
            "130px"@
        } else {
            "89px"@
        },
        Slot::Place => if show.path {
            "2fr"@
        } else {
            "72px"@
        },
        Slot::Categories => "1fr"@,
        Slot::Flags => "60px"@,
        Slot::Title => "2fr"@,
        Slot::Edition => "80px"@,
        Slot::Authors => "1fr"@,
        Slot::Narrators => "1fr"@,
        Slot::Series => "1fr"@,
        Slot::Language => "100px"@,
        Slot::Size => "81px"@,
        Slot::Filetypes => "100px"@,
        Slot::Linker => "130px"@,
        Slot::QbitCategory => "100px"@,
        Slot::CreatedAt => "157px"@,
        Slot::UploadedAt => "157px"@,
    }
}

/// The widths of the table's columns, the one of the check boxes first.
pub open spec fn grid_widths(show: TorrentsPageColumns) -> Seq<Seq<char>> {
    seq!["30px"@] + table_slots(show).map_values(|s: Slot| slot_width(show, s))
}

fn list_slots() -> (r: Vec<Slot>)
    ensures
        r@ == all_slots(),
{
    let mut r: Vec<Slot> = Vec::new();
    r.push(Slot::Kind);
    r.push(Slot::Categories);
    r.push(Slot::Flags);
    r.push(Slot::Title);
    r.push(Slot::Edition);
    r.push(Slot::Authors);
    r.push(Slot::Narrators);
    r.push(Slot::Series);
    r.push(Slot::Language);
    r.push(Slot::Size);
    r.push(Slot::Filetypes);
    r.push(Slot::Linker);
    r.push(Slot::QbitCategory);
    r.push(Slot::Place);
    r.push(Slot::CreatedAt);
    r.push(Slot::UploadedAt);
    assert(r@ == all_slots());
    r
}

fn is_used(show: TorrentsPageColumns, slot: Slot) -> (r: bool)
    ensures
        r == slot_shown(show, slot),
{
    match slot {
        Slot::Kind => true,
        Slot::Categories => show.categories,
        Slot::Flags => show.flags,
        Slot::Title => true,
        Slot::Edition => show.edition,
        Slot::Authors => show.authors,
        Slot::Narrators => show.narrators,
        Slot::Series => show.series,
        Slot::Language => show.language,
        Slot::Size => show.size,
        Slot::Filetypes => show.filetypes,
        Slot::Linker => show.linker,
        Slot::QbitCategory => show.qbit_category,
        Slot::Place => true,
        Slot::CreatedAt => show.created_at,
        Slot::UploadedAt => show.uploaded_at,
    }
}

/// The places of the table that are used, in order.
pub fn slots_in_use(show: TorrentsPageColumns) -> (r: Vec<Slot>)
    ensures
        r@ == table_slots(show),
{
    let all = list_slots();
    let mut r: Vec<Slot> = Vec::new();
    let mut i: usize = 0;
    while i < all.len()
        invariant
            i <= all@.len(),
            r@ == used_slots(show, all@.take(i as int)),
        decreases all@.len() - i,
    {
        let ghost now = all@.take(i + 1);
        assert(now.drop_last() == all@.take(i as int));
        assert(now.last() == all@[i as int]);
        if is_used(show, all[i]) {
            r.push(all[i]);
        }
        i = i + 1;
    }
    assert(all@.take(i as int) == all@);
    r
}

fn width_of(show: TorrentsPageColumns, slot: Slot) -> (r: &'static str)
    ensures
        r@ == slot_width(show, slot),
{
    match slot {
        Slot::Kind => if show.category {
            "130px"
        } else {
            "89px"
        },
        Slot::Place => if show.path {
            "2fr"
        } else {
            "72px"
        },
        Slot::Categories => "1fr",
        Slot::Flags => "60px",
        Slot::Title => "2fr",
        Slot::Edition => "80px",
        Slot::Authors => "1fr",
        Slot::Narrators => "1fr",
        Slot::Series => "1fr",
        Slot::Language => "100px",
        Slot::Size => "81px",
        Slot::Filetypes => "100px",
        Slot::Linker => "130px",
        Slot::QbitCategory => "100px",
        Slot::CreatedAt => "157px",
        Slot::UploadedAt => "157px",
    }
}

impl TorrentsPageColumns {
    /// The table's columns as a grid template.
    pub fn table_grid_template(self) -> (r: String)
        ensures
            r@ == crate::text::joined(grid_widths(self), " "@),
    {
        let slots = slots_in_use(self);
        let ghost want = grid_widths(self);
        let mut cols: Vec<String> = Vec::new();
        cols.push("30px".to_owned());
        assert(crate::text::texts(cols@) == want.take(1));
        let mut i: usize = 0;
        while i < slots.len()
            invariant
                i <= slots@.len(),
                slots@ == table_slots(self),
                want == grid_widths(self),
                crate::text::texts(cols@) == want.take(i + 1),
            decreases slots@.len() - i,
        {
            let ghost before = crate::text::texts(cols@);
            let width = width_of(self, slots[i]);
            cols.push(width.to_owned());
            assert(crate::text::texts(cols@) == before.push(width@));
            assert(want[i + 1] == width@);
            assert(want.take(i + 2) == want.take(i + 1).push(want[i + 1]));
            i = i + 1;
        }
        assert(want.take(i + 1) == want);
        join(&cols, " ")
    }
}

/// Why a book's place is not the one that is wanted, as it is shown.
#[derive(Debug, PartialEq, Eq)]
pub enum TorrentLibraryMismatch {
    NewLibraryDir(String),
    NewPath(String),
    NoLibrary,
}

impl TorrentLibraryMismatch {
    pub open spec fn filter_text(&self) -> Seq<char> {
        match self {
            TorrentLibraryMismatch::NewLibraryDir(_) => "new_library"@,
            TorrentLibraryMismatch::NewPath(_) => "new_path"@,
            TorrentLibraryMismatch::NoLibrary => "no_library"@,
        }
    }

    pub open spec fn title_text(&self) -> Seq<char> {
        match self {
            TorrentLibraryMismatch::NewLibraryDir(path) => "Wanted library dir: "@ + path@,
            TorrentLibraryMismatch::NewPath(path) => "Wanted library path: "@ + path@,
            TorrentLibraryMismatch::NoLibrary => "No longer wanted in library"@,
        }
    }

    /// The value by which such torrents are filtered.
    pub fn filter_value(&self) -> (r: &'static str)
        ensures
            r@ == self.filter_text(),
    {
        match self {
            TorrentLibraryMismatch::NewLibraryDir(_) => "new_library",
            TorrentLibraryMismatch::NewPath(_) => "new_path",
            TorrentLibraryMismatch::NoLibrary => "no_library",
        }
    }

    /// The finding in words.
    pub fn title(&self) -> (r: String)
        ensures
            r@ == self.title_text(),
    {
        match self {
            TorrentLibraryMismatch::NewLibraryDir(path) => concat(
                "Wanted library dir: ",
                path.as_str(),
            ),
            TorrentLibraryMismatch::NewPath(path) => concat(
                "Wanted library path: ",
                path.as_str(),
            ),
            TorrentLibraryMismatch::NoLibrary => "No longer wanted in library".to_owned(),
        }
    }
}

/// A series as it is shown: its name, and the book's numbers in it.
#[derive(Debug, PartialEq, Eq)]
pub struct SeriesText {
    pub name: String,
    pub entries: String,
}

/// What is shown of a book.
#[derive(Debug, PartialEq, Eq)]
pub struct TorrentsMeta {
    pub title: String,
    pub media_type: String,
    pub cat_name: String,
    pub cat_id: Option<String>,
    pub categories: Vec<String>,
    pub flags: Vec<String>,
    pub edition: Option<String>,
    pub authors: Vec<String>,
    pub narrators: Vec<String>,
    pub series: Vec<SeriesText>,
    pub language: Option<String>,
    pub size: String,
    pub filetypes: Vec<String>,
}

/// What is shown of a torrent.
#[derive(Debug, PartialEq, Eq)]
pub struct TorrentsRow {
    pub id: String,
    pub mam_id: Option<u64>,
    pub meta: TorrentsMeta,
    pub linker: Option<String>,
    pub category: Option<String>,
    pub library_path: Option<String>,
    pub library_mismatch: Option<TorrentLibraryMismatch>,
    pub client_status: Option<String>,
    pub linked: bool,
    pub created_at: String,
    pub uploaded_at: String,
    pub abs_id: Option<String>,
}

/// A page of torrents.
#[derive(Debug, PartialEq, Eq)]
pub struct TorrentsData {
    pub torrents: Vec<TorrentsRow>,
    pub total: usize,
    pub from: usize,
    pub page_size: usize,
    pub abs_url: Option<String>,
}

impl Default for TorrentsData {
    fn default() -> (r: Self)
        ensures
            r.torrents@.len() == 0,
            r.total == 0,
            r.from == 0,
            r.page_size == 0,
            r.abs_url is None,
    {
        TorrentsData { torrents: Vec::new(), total: 0, from: 0, page_size: 0, abs_url: None }
    }
}

/// The view of a series that is shown.
pub open spec fn series_text(s: SeriesText) -> (Seq<char>, Seq<char>) {
    (s.name@, s.entries@)
}

#[verifier::ext_equal]
pub struct RowMetaView {
    pub title: Seq<char>,
    pub media_type: Seq<char>,
    pub cat_name: Seq<char>,
    pub cat_id: Option<Seq<char>>,
    pub categories: Seq<Seq<char>>,
    pub flags: Seq<Seq<char>>,
    pub edition: Option<Seq<char>>,
    pub authors: Seq<Seq<char>>,
    pub narrators: Seq<Seq<char>>,
    pub series: Seq<(Seq<char>, Seq<char>)>,
    pub language: Option<Seq<char>>,
    pub size: Seq<char>,
    pub filetypes: Seq<Seq<char>>,
}

impl View for TorrentsMeta {
    type V = RowMetaView;

    open spec fn view(&self) -> RowMetaView {
        RowMetaView {
            title: self.title@,
            media_type: self.media_type@,
            cat_name: self.cat_name@,
            cat_id: crate::text::text_of(self.cat_id),
            categories: crate::text::texts(self.categories@),
            flags: crate::text::texts(self.flags@),
            edition: crate::text::text_of(self.edition),
            authors: crate::text::texts(self.authors@),
            narrators: crate::text::texts(self.narrators@),
            series: self.series@.map_values(|s: SeriesText| series_text(s)),
            language: crate::text::text_of(self.language),
            size: self.size@,
            filetypes: crate::text::texts(self.filetypes@),
        }
    }
}

/// The view of a finding that is shown.
pub open spec fn shown_mismatch(o: Option<TorrentLibraryMismatch>) -> Option<
    crate::model::MismatchView,
> {
    match o {
        Some(TorrentLibraryMismatch::NewLibraryDir(p)) => Some(
            crate::model::MismatchView::NewLibraryDir(p@),
        ),
        Some(TorrentLibraryMismatch::NewPath(p)) => Some(crate::model::MismatchView::NewPath(p@)),
        Some(TorrentLibraryMismatch::NoLibrary) => Some(crate::model::MismatchView::NoLibrary),
        None => None,
    }
}

#[verifier::ext_equal]
pub struct RowView {
    pub id: Seq<char>,
    pub mam_id: Option<u64>,
    pub meta: RowMetaView,
    pub linker: Option<Seq<char>>,
    pub category: Option<Seq<char>>,
    pub library_path: Option<Seq<char>>,
    pub library_mismatch: Option<crate::model::MismatchView>,
    pub client_status: Option<Seq<char>>,
    pub linked: bool,
    pub created_at: Seq<char>,
    pub uploaded_at: Seq<char>,
    pub abs_id: Option<Seq<char>>,
}

impl View for TorrentsRow {
    type V = RowView;

    open spec fn view(&self) -> RowView {
        RowView {
            id: self.id@,
            mam_id: self.mam_id,
            meta: self.meta@,
            linker: crate::text::text_of(self.linker),
            category: crate::text::text_of(self.category),
            library_path: crate::text::text_of(self.library_path),
            library_mismatch: shown_mismatch(self.library_mismatch),
            client_status: crate::text::text_of(self.client_status),
            linked: self.linked,
            created_at: self.created_at@,
            uploaded_at: self.uploaded_at@,
            abs_id: crate::text::text_of(self.abs_id),
        }
    }
}

/// What is said of an action counts the torrents that it went well for and, only
/// where there are any, those that it failed for, with all their titles.
pub proof fn status_counts_and_names(result: TorrentsBulkActionResult, action: TorrentsBulkAction)
    ensures
        count_label(1) == "1 torrent"@,
        forall|n: nat| n != 1 ==> #[trigger] count_label(n) == crate::text::decimal(n)
            + " torrents"@,
        result.failed@.len() == 0 ==> status_text(result, action) == action.completed_text() + " "@
            + count_label(result.succeeded_count as nat) + "."@,
        result.failed@.len() > 0 ==> status_text(result, action) == action.completed_text() + " "@
            + count_label(result.succeeded_count as nat) + "."@ + (" "@ + count_label(
            result.failed@.len(),
        ) + " failed: "@ + crate::text::joined(
            result.failed@.map_values(|f: TorrentsBulkActionFailure| f.title@),
            ", "@,
        ) + "."@),
{
    if result.failed@.len() == 0 {
        let s = action.completed_text() + " "@ + count_label(result.succeeded_count as nat) + "."@;
        assert(s + Seq::<char>::empty() == s);
    }
    assert(failed_titles(result.failed@) == result.failed@.map_values(
        |f: TorrentsBulkActionFailure| f.title@,
    ));
}

} // verus!
