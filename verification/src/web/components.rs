//! The torrents page: its columns, its rows, the rows that are selected, and
//! the conditions that are in force.
use vstd::prelude::*;
use vstd::string::*;

use crate::order::{insert_text, remove_text};
use crate::text::{clone_option, concat, concat3, has_entry, number_text, same_text, trim};
use crate::web::types::{
    slots_in_use, RowView, SeriesText, Slot, TorrentsBulkAction, TorrentsPageColumns,
    TorrentsPageFilter, TorrentsPageSort, TorrentsRow,
};

verus! {

/// A column that can be shown or left out.
#[derive(Clone, Copy, Debug, PartialEq, Eq, Structural)]
pub enum TorrentColumn {
    Category,
    Categories,
    Flags,
    Edition,
    Authors,
    Narrators,
    Series,
    Language,
    Size,
    Filetypes,
    Linker,
    QbitCategory,
    Path,
    CreatedAt,
    UploadedAt,
}

impl TorrentsPageColumns {
    pub open spec fn shows(self, col: TorrentColumn) -> bool {
        match col {
            TorrentColumn::Category => self.category,
            TorrentColumn::Categories => self.categories,
            TorrentColumn::Flags => self.flags,
            TorrentColumn::Edition => self.edition,
            TorrentColumn::Authors => self.authors,
            TorrentColumn::Narrators => self.narrators,
            TorrentColumn::Series => self.series,
            TorrentColumn::Language => self.language,
            TorrentColumn::Size => self.size,
            TorrentColumn::Filetypes => self.filetypes,
            TorrentColumn::Linker => self.linker,
            TorrentColumn::QbitCategory => self.qbit_category,
            TorrentColumn::Path => self.path,
            TorrentColumn::CreatedAt => self.created_at,
            TorrentColumn::UploadedAt => self.uploaded_at,
        }
    }

    /// Whether a column is shown.
    pub fn get(self, col: TorrentColumn) -> (r: bool)
        ensures
            r == self.shows(col),
    {
        match col {
            TorrentColumn::Category => self.category,
            TorrentColumn::Categories => self.categories,
            TorrentColumn::Flags => self.flags,
            TorrentColumn::Edition => self.edition,
            TorrentColumn::Authors => self.authors,
            TorrentColumn::Narrators => self.narrators,
            TorrentColumn::Series => self.series,
            TorrentColumn::Language => self.language,
            TorrentColumn::Size => self.size,
            TorrentColumn::Filetypes => self.filetypes,
            TorrentColumn::Linker => self.linker,
            TorrentColumn::QbitCategory => self.qbit_category,
            TorrentColumn::Path => self.path,
            TorrentColumn::CreatedAt => self.created_at,
            TorrentColumn::UploadedAt => self.uploaded_at,
        }
    }

    /// The columns with one of them shown or left out.
    pub open spec fn with_column(self, col: TorrentColumn, enabled: bool) -> TorrentsPageColumns {
        match col {
            TorrentColumn::Category => TorrentsPageColumns { category: enabled, ..self },
            TorrentColumn::Categories => TorrentsPageColumns { categories: enabled, ..self },
            TorrentColumn::Flags => TorrentsPageColumns { flags: enabled, ..self },
            TorrentColumn::Edition => TorrentsPageColumns { edition: enabled, ..self },
            TorrentColumn::Authors => TorrentsPageColumns { authors: enabled, ..self },
            TorrentColumn::Narrators => TorrentsPageColumns { narrators: enabled, ..self },
            TorrentColumn::Series => TorrentsPageColumns { series: enabled, ..self },
            TorrentColumn::Language => TorrentsPageColumns { language: enabled, ..self },
            TorrentColumn::Size => TorrentsPageColumns { size: enabled, ..self },
            TorrentColumn::Filetypes => TorrentsPageColumns { filetypes: enabled, ..self },
            TorrentColumn::Linker => TorrentsPageColumns { linker: enabled, ..self },
            TorrentColumn::QbitCategory => TorrentsPageColumns { qbit_category: enabled, ..self },
            TorrentColumn::Path => TorrentsPageColumns { path: enabled, ..self },
            TorrentColumn::CreatedAt => TorrentsPageColumns { created_at: enabled, ..self },
            TorrentColumn::UploadedAt => TorrentsPageColumns { uploaded_at: enabled, ..self },
        }
    }

    /// Shows a column or leaves it out; the others stay as they are.
    pub fn set(&mut self, col: TorrentColumn, enabled: bool)
        ensures
            *final(self) == old(self).with_column(col, enabled),
    {
        let now = *self;
        *self = match col {
            TorrentColumn::Category => TorrentsPageColumns { category: enabled, ..now },
            TorrentColumn::Categories => TorrentsPageColumns { categories: enabled, ..now },
            TorrentColumn::Flags => TorrentsPageColumns { flags: enabled, ..now },
            TorrentColumn::Edition => TorrentsPageColumns { edition: enabled, ..now },
            TorrentColumn::Authors => TorrentsPageColumns { authors: enabled, ..now },
            TorrentColumn::Narrators => TorrentsPageColumns { narrators: enabled, ..now },
            TorrentColumn::Series => TorrentsPageColumns { series: enabled, ..now },
            TorrentColumn::Language => TorrentsPageColumns { language: enabled, ..now },
            TorrentColumn::Size => TorrentsPageColumns { size: enabled, ..now },
            TorrentColumn::Filetypes => TorrentsPageColumns { filetypes: enabled, ..now },
            TorrentColumn::Linker => TorrentsPageColumns { linker: enabled, ..now },
            TorrentColumn::QbitCategory => TorrentsPageColumns { qbit_category: enabled, ..now },
            TorrentColumn::Path => TorrentsPageColumns { path: enabled, ..now },
            TorrentColumn::CreatedAt => TorrentsPageColumns { created_at: enabled, ..now },
            TorrentColumn::UploadedAt => TorrentsPageColumns { uploaded_at: enabled, ..now },
        };
    }
}

/// A column in the list of those to choose from.
#[derive(Clone, Copy, Debug, PartialEq, Eq)]
pub struct ColumnOption {
    pub column: TorrentColumn,
    pub label: &'static str,
    pub checked: bool,
}

/// The columns to choose from, with their names.
pub open spec fn column_labels() -> Seq<(TorrentColumn, Seq<char>)> {
    seq![
        (TorrentColumn::Category, "Category"@),
        (TorrentColumn::Categories, "Categories"@),
        (TorrentColumn::Flags, "Flags"@),
        (TorrentColumn::Edition, "Edition"@),
        (TorrentColumn::Authors, "Authors"@),
        (TorrentColumn::Narrators, "Narrators"@),
        (TorrentColumn::Series, "Series"@),
        (TorrentColumn::Language, "Language"@),
        (TorrentColumn::Size, "Size"@),
        (TorrentColumn::Filetypes, "Filetypes"@),
        (TorrentColumn::Linker, "Linker"@),
        (TorrentColumn::QbitCategory, "Qbit Category"@),
        (TorrentColumn::Path, "Path"@),
        (TorrentColumn::CreatedAt, "Added At"@),
        (TorrentColumn::UploadedAt, "Uploaded At"@),
    ]
}

fn column_option(show: TorrentsPageColumns, column: TorrentColumn, label: &'static str) -> (r:
    ColumnOption)
    ensures
        r.column == column,
        r.label@ == label@,
        r.checked == show.shows(column),
{
    ColumnOption { column, label, checked: show.get(column) }
}

pub open spec fn options_of(v: Seq<ColumnOption>) -> Seq<(TorrentColumn, Seq<char>)> {
    v.map_values(|o: ColumnOption| (o.column, o.label@))
}

/// The columns to choose from, each with whether it is shown.
pub fn column_options(show: TorrentsPageColumns) -> (r: Vec<ColumnOption>)
    ensures
        options_of(r@) == column_labels(),
        forall|i: int| 0 <= i < r@.len() ==> (#[trigger] r@[i]).checked == show.shows(r@[i].column),
{
    let mut r: Vec<ColumnOption> = Vec::new();
    r.push(column_option(show, TorrentColumn::Category, "Category"));
    r.push(column_option(show, TorrentColumn::Categories, "Categories"));
    r.push(column_option(show, TorrentColumn::Flags, "Flags"));
    r.push(column_option(show, TorrentColumn::Edition, "Edition"));
    r.push(column_option(show, TorrentColumn::Authors, "Authors"));
    r.push(column_option(show, TorrentColumn::Narrators, "Narrators"));
    r.push(column_option(show, TorrentColumn::Series, "Series"));
    r.push(column_option(show, TorrentColumn::Language, "Language"));
    r.push(column_option(show, TorrentColumn::Size, "Size"));
    r.push(column_option(show, TorrentColumn::Filetypes, "Filetypes"));
    r.push(column_option(show, TorrentColumn::Linker, "Linker"));
    r.push(column_option(show, TorrentColumn::QbitCategory, "Qbit Category"));
    r.push(column_option(show, TorrentColumn::Path, "Path"));
    r.push(column_option(show, TorrentColumn::CreatedAt, "Added At"));
    r.push(column_option(show, TorrentColumn::UploadedAt, "Uploaded At"));
    assert(options_of(r@) == column_labels());
    r
}

/// The name of a condition.
pub open spec fn filter_label(filter: TorrentsPageFilter) -> Seq<char> {
    match filter {
        TorrentsPageFilter::Kind => "Type"@,
        TorrentsPageFilter::Category => "Category"@,
        TorrentsPageFilter::Categories => "Categories"@,
        TorrentsPageFilter::Flags => "Flags"@,
        TorrentsPageFilter::Title => "Title"@,
        TorrentsPageFilter::Author => "Authors"@,
        TorrentsPageFilter::Narrator => "Narrators"@,
        TorrentsPageFilter::Series => "Series"@,
        TorrentsPageFilter::Language => "Language"@,
        TorrentsPageFilter::Filetype => "Filetypes"@,
        TorrentsPageFilter::Linker => "Linker"@,
        TorrentsPageFilter::QbitCategory => "Qbit Category"@,
        TorrentsPageFilter::Linked => "Linked"@,
        TorrentsPageFilter::LibraryMismatch => "Library mismatch"@,
        TorrentsPageFilter::ClientStatus => "Client status"@,
        TorrentsPageFilter::Abs => "ABS"@,
        TorrentsPageFilter::Query => "Query"@,
        TorrentsPageFilter::Source => "Source"@,
        TorrentsPageFilter::Metadata => "Metadata"@,
    }
}

/// The name of a condition.
pub fn filter_name(filter: TorrentsPageFilter) -> (r: &'static str)
    ensures
        r@ == filter_label(filter),
{
    match filter {
        TorrentsPageFilter::Kind => "Type",
        TorrentsPageFilter::Category => "Category",
        TorrentsPageFilter::Categories => "Categories",
        TorrentsPageFilter::Flags => "Flags",
        TorrentsPageFilter::Title => "Title",
        TorrentsPageFilter::Author => "Authors",
        TorrentsPageFilter::Narrator => "Narrators",
        TorrentsPageFilter::Series => "Series",
        TorrentsPageFilter::Language => "Language",
        TorrentsPageFilter::Filetype => "Filetypes",
        TorrentsPageFilter::Linker => "Linker",
        TorrentsPageFilter::QbitCategory => "Qbit Category",
        TorrentsPageFilter::Linked => "Linked",
        TorrentsPageFilter::LibraryMismatch => "Library mismatch",
        TorrentsPageFilter::ClientStatus => "Client status",
        TorrentsPageFilter::Abs => "ABS",
        TorrentsPageFilter::Query => "Query",
        TorrentsPageFilter::Source => "Source",
        TorrentsPageFilter::Metadata => "Metadata",
    }
}

/// A header of the table: its label, and what a click on it sorts by.
#[derive(Clone, Copy, Debug, PartialEq, Eq)]
pub struct HeaderCell {
    pub label: &'static str,
    pub sort: Option<TorrentsPageSort>,
}

pub open spec fn headers_of(v: Seq<HeaderCell>) -> Seq<(Seq<char>, Option<TorrentsPageSort>)> {
    v.map_values(|h: HeaderCell| (h.label@, h.sort))
}

/// The header at a place of the table.
pub open spec fn slot_header(show: TorrentsPageColumns, slot: Slot) -> (
    Seq<char>,
    Option<TorrentsPageSort>,
) {
    match slot {
        Slot::Kind => ("Type"@, Some(TorrentsPageSort::Kind)),
        Slot::Categories => ("Categories"@, None),
        Slot::Flags => ("Flags"@, None),
        Slot::Title => ("Title"@, Some(TorrentsPageSort::Title)),
        Slot::Edition => ("Edition"@, Some(TorrentsPageSort::Edition)),
        Slot::Authors => ("Authors"@, Some(TorrentsPageSort::Authors)),
        Slot::Narrators => ("Narrators"@, Some(TorrentsPageSort::Narrators)),
        Slot::Series => ("Series"@, Some(TorrentsPageSort::Series)),
        Slot::Language => ("Language"@, Some(TorrentsPageSort::Language)),
        Slot::Size => ("Size"@, Some(TorrentsPageSort::Size)),
        Slot::Filetypes => ("Filetypes"@, None),
        Slot::Linker => ("Linker"@, Some(TorrentsPageSort::Linker)),
        Slot::QbitCategory => ("Qbit Category"@, Some(TorrentsPageSort::QbitCategory)),
        Slot::CreatedAt => ("Added At"@, Some(TorrentsPageSort::CreatedAt)),
        Slot::UploadedAt => ("Uploaded At"@, Some(TorrentsPageSort::UploadedAt)),
        Slot::Place => (
            if show.path {
                "Path"@
            } else {
                "Linked"@
            },
            Some(TorrentsPageSort::Linked),
        ),
    }
}

/// The headers of the table, behind the check box that selects all rows.
pub open spec fn table_headers(show: TorrentsPageColumns) -> Seq<
    (Seq<char>, Option<TorrentsPageSort>),
> {
    crate::web::types::table_slots(show).map_values(|s: Slot| slot_header(show, s))
}

fn header_at(show: TorrentsPageColumns, slot: Slot) -> (r: HeaderCell)
    ensures
        (r.label@, r.sort) == slot_header(show, slot),
{
    match slot {
        Slot::Kind => HeaderCell { label: "Type", sort: Some(TorrentsPageSort::Kind) },
        Slot::Categories => HeaderCell { label: "Categories", sort: None },
        Slot::Flags => HeaderCell { label: "Flags", sort: None },
        Slot::Title => HeaderCell { label: "Title", sort: Some(TorrentsPageSort::Title) },
        Slot::Edition => HeaderCell { label: "Edition", sort: Some(TorrentsPageSort::Edition) },
        Slot::Authors => HeaderCell { label: "Authors", sort: Some(TorrentsPageSort::Authors) },
        Slot::Narrators => HeaderCell { label: "Narrators", sort: Some(TorrentsPageSort::Narrators) },
        Slot::Series => HeaderCell { label: "Series", sort: Some(TorrentsPageSort::Series) },
        Slot::Language => HeaderCell { label: "Language", sort: Some(TorrentsPageSort::Language) },
        Slot::Size => HeaderCell { label: "Size", sort: Some(TorrentsPageSort::Size) },
        Slot::Filetypes => HeaderCell { label: "Filetypes", sort: None },
        Slot::Linker => HeaderCell { label: "Linker", sort: Some(TorrentsPageSort::Linker) },
        Slot::QbitCategory => HeaderCell { label: "Qbit Category", sort: Some(TorrentsPageSort::QbitCategory) },
        Slot::CreatedAt => HeaderCell { label: "Added At", sort: Some(TorrentsPageSort::CreatedAt) },
        Slot::UploadedAt => HeaderCell { label: "Uploaded At", sort: Some(TorrentsPageSort::UploadedAt) },
        Slot::Place => HeaderCell {
            label: if show.path {
                "Path"
            } else {
                "Linked"
            },
            sort: Some(TorrentsPageSort::Linked),
        },
    }
}

/// The headers of the table, behind the check box that selects all rows.
pub fn header_cells(show: TorrentsPageColumns) -> (r: Vec<HeaderCell>)
    ensures
        headers_of(r@) == table_headers(show),
{
    let slots = slots_in_use(show);
    let ghost want = table_headers(show);
    let mut r: Vec<HeaderCell> = Vec::new();
    let mut i: usize = 0;
    while i < slots.len()
        invariant
            i <= slots@.len(),
            slots@ == crate::web::types::table_slots(show),
            want == table_headers(show),
            headers_of(r@) == want.take(i as int),
        decreases slots@.len() - i,
    {
        let ghost before = headers_of(r@);
        let header = header_at(show, slots[i]);
        r.push(header);
        assert(headers_of(r@) == before.push((header.label@, header.sort)));
        assert(want[i as int] == (header.label@, header.sort));
        assert(want.take(i + 1) == want.take(i as int).push(want[i as int]));
        i = i + 1;
    }
    assert(want.take(i as int) == want);
    r
}

/// The table has as many headers as its grid has columns, the one of the check
/// boxes counted.
pub proof fn headers_fill_grid(show: TorrentsPageColumns)
    ensures
        table_headers(show).len() + 1 == crate::web::types::grid_widths(show).len(),
{
}

/// Something in a cell of the table.
#[derive(Debug, PartialEq, Eq)]
pub enum CellPiece {
    /// A text.
    Text(String),
    /// A text that leads to the torrents with the same value.
    Filter { field: TorrentsPageFilter, value: String, text: String, title: Option<String> },
    /// A flag, shown as its icon where it has one, that leads to the torrents
    /// with the same flag.
    Flag(String),
    /// The title, which leads to the torrent and to those with the same title.
    Title { id: String, title: String },
    /// A sign that leads to the torrents with the same trouble.
    Sign { warn: bool, field: TorrentsPageFilter, value: String, title: String },
}

#[verifier::ext_equal]
pub enum PieceView {
    Text(Seq<char>),
    Filter {
        field: TorrentsPageFilter,
        value: Seq<char>,
        text: Seq<char>,
        title: Option<Seq<char>>,
    },
    Flag(Seq<char>),
    Title { id: Seq<char>, title: Seq<char> },
    Sign { warn: bool, field: TorrentsPageFilter, value: Seq<char>, title: Seq<char> },
}

impl View for CellPiece {
    type V = PieceView;

    open spec fn view(&self) -> PieceView {
        match self {
            CellPiece::Text(t) => PieceView::Text(t@),
            CellPiece::Filter { field, value, text, title } => PieceView::Filter {
                field: *field,
                value: value@,
                text: text@,
                title: crate::text::text_of(*title),
            },
            CellPiece::Flag(f) => PieceView::Flag(f@),
            CellPiece::Title { id, title } => PieceView::Title { id: id@, title: title@ },
            CellPiece::Sign { warn, field, value, title } => PieceView::Sign {
                warn: *warn,
                field: *field,
                value: value@,
                title: title@,
            },
        }
    }
}

/// A cell of the table.
#[derive(Debug, PartialEq, Eq)]
pub struct RowCell {
    pub pieces: Vec<CellPiece>,
}

pub open spec fn pieces_of(v: Seq<CellPiece>) -> Seq<PieceView> {
    v.map_values(|p: CellPiece| p@)
}

impl View for RowCell {
    type V = Seq<PieceView>;

    open spec fn view(&self) -> Seq<PieceView> {
        pieces_of(self.pieces@)
    }
}

pub open spec fn cells_of(v: Seq<RowCell>) -> Seq<Seq<PieceView>> {
    v.map_values(|c: RowCell| c@)
}

/// A value that leads to the torrents with the same value.
pub open spec fn filter_piece(field: TorrentsPageFilter, value: Seq<char>) -> PieceView {
    PieceView::Filter { field, value, text: value, title: None }
}

/// The values with commas between them.
pub open spec fn list_cell(field: TorrentsPageFilter, values: Seq<Seq<char>>) -> Seq<PieceView>
    decreases values.len(),
{
    if values.len() == 0 {
        seq![]
    } else if values.len() == 1 {
        seq![filter_piece(field, values[0])]
    } else {
        list_cell(field, values.drop_last()) + seq![
            PieceView::Text(", "@),
            filter_piece(field, values.last()),
        ]
    }
}

/// A series as it is shown, with the book's number where it has one.
pub open spec fn series_label(s: (Seq<char>, Seq<char>)) -> Seq<char> {
    if s.1.len() == 0 {
        s.0
    } else {
        s.0 + " #"@ + s.1
    }
}

pub open spec fn series_piece(s: (Seq<char>, Seq<char>)) -> PieceView {
    PieceView::Filter {
        field: TorrentsPageFilter::Series,
        value: s.0,
        text: series_label(s),
        title: None,
    }
}

/// The series with commas between them.
pub open spec fn series_cell(series: Seq<(Seq<char>, Seq<char>)>) -> Seq<PieceView>
    decreases series.len(),
{
    if series.len() == 0 {
        seq![]
    } else if series.len() == 1 {
        seq![series_piece(series[0])]
    } else {
        series_cell(series.drop_last()) + seq![
            PieceView::Text(", "@),
            series_piece(series.last()),
        ]
    }
}

pub open spec fn or_empty(o: Option<Seq<char>>) -> Seq<char> {
    match o {
        Some(s) => s,
        None => seq![],
    }
}

/// The kind of the book and, where it is shown, its category.
pub open spec fn kind_cell(r: RowView, show: TorrentsPageColumns) -> Seq<PieceView> {
    let kind = PieceView::Filter {
        field: TorrentsPageFilter::Kind,
        value: r.meta.media_type,
        text: r.meta.media_type,
        title: Some(r.meta.cat_name),
    };
    match r.meta.cat_id {
        Some(id) if show.category => seq![
            kind,
            PieceView::Filter {
                field: TorrentsPageFilter::Category,
                value: id,
                text: r.meta.cat_name,
                title: None,
            },
        ],
        _ => seq![kind],
    }
}

/// The title, with a sign where the client does not seed the torrent properly.
pub open spec fn title_cell(r: RowView) -> Seq<PieceView> {
    let title = PieceView::Title { id: r.id, title: r.meta.title };
    if r.client_status == Some("removed_from_tracker"@) {
        seq![
            title,
            PieceView::Sign {
                warn: true,
                field: TorrentsPageFilter::ClientStatus,
                value: "removed_from_tracker"@,
                title: "Torrent is removed from tracker but still seeding"@,
            },
        ]
    } else if r.client_status == Some("not_in_client"@) {
        seq![
            title,
            PieceView::Sign {
                warn: false,
                field: TorrentsPageFilter::ClientStatus,
                value: "not_in_client"@,
                title: "Torrent is not seeding"@,
            },
        ]
    } else {
        seq![title]
    }
}

pub open spec fn bool_text(b: bool) -> Seq<char> {
    if b {
        "true"@
    } else {
        "false"@
    }
}

/// The book's path, or whether it is linked, with a sign where it does not lie
/// where it is wanted.
pub open spec fn path_cell(r: TorrentsRow, show: TorrentsPageColumns) -> Seq<PieceView> {
    let place = if show.path {
        PieceView::Text(or_empty(r@.library_path))
    } else {
        PieceView::Filter {
            field: TorrentsPageFilter::Linked,
            value: bool_text(r.linked),
            text: bool_text(r.linked),
            title: r@.library_path,
        }
    };
    match r.library_mismatch {
        Some(m) => seq![
            place,
            PieceView::Sign {
                warn: true,
                field: TorrentsPageFilter::LibraryMismatch,
                value: m.filter_text(),
                title: m.title_text(),
            },
        ],
        None => seq![place],
    }
}

/// The cell of a row at a place of the table.
pub open spec fn slot_cell(r: TorrentsRow, show: TorrentsPageColumns, slot: Slot) -> Seq<PieceView> {
    match slot {
        Slot::Kind => kind_cell(r@, show),
        Slot::Categories => list_cell(TorrentsPageFilter::Categories, r@.meta.categories),
        Slot::Flags => r@.meta.flags.map_values(|f: Seq<char>| PieceView::Flag(f)),
        Slot::Title => title_cell(r@),
        Slot::Edition => seq![PieceView::Text(or_empty(r@.meta.edition))],
        Slot::Authors => list_cell(TorrentsPageFilter::Author, r@.meta.authors),
        Slot::Narrators => list_cell(TorrentsPageFilter::Narrator, r@.meta.narrators),
        Slot::Series => series_cell(r@.meta.series),
        Slot::Language => seq![filter_piece(TorrentsPageFilter::Language, or_empty(r@.meta.language))],
        Slot::Size => seq![PieceView::Text(r@.meta.size)],
        Slot::Filetypes => list_cell(TorrentsPageFilter::Filetype, r@.meta.filetypes),
        Slot::Linker => seq![filter_piece(TorrentsPageFilter::Linker, or_empty(r@.linker))],
        Slot::QbitCategory => seq![filter_piece(TorrentsPageFilter::QbitCategory, or_empty(r@.category))],
        Slot::Place => path_cell(r, show),
        Slot::CreatedAt => seq![PieceView::Text(r@.created_at)],
        Slot::UploadedAt => seq![PieceView::Text(r@.uploaded_at)],
    }
}

/// The cells of a row, behind its check box.
pub open spec fn table_cells(r: TorrentsRow, show: TorrentsPageColumns) -> Seq<Seq<PieceView>> {
    crate::web::types::table_slots(show).map_values(|s: Slot| slot_cell(r, show, s))
}

/// Every row has as many cells as the table has headers.
pub proof fn cells_fill_headers(r: TorrentsRow, show: TorrentsPageColumns)
    ensures
        table_cells(r, show).len() == table_headers(show).len(),
{
}

fn one_piece(p: CellPiece) -> (r: RowCell)
    ensures
        r@ == seq![p@],
{
    let mut pieces: Vec<CellPiece> = Vec::new();
    pieces.push(p);
    let r = RowCell { pieces };
    assert(r@ =~= seq![p@]);
    r
}

fn two_pieces(p: CellPiece, q: CellPiece) -> (r: RowCell)
    ensures
        r@ == seq![p@, q@],
{
    let mut pieces: Vec<CellPiece> = Vec::new();
    pieces.push(p);
    pieces.push(q);
    let r = RowCell { pieces };
    assert(r@ =~= seq![p@, q@]);
    r
}

fn filter_of(field: TorrentsPageFilter, value: String) -> (r: CellPiece)
    ensures
        r@ == filter_piece(field, value@),
{
    let text = value.clone();
    CellPiece::Filter { field, value, text, title: None }
}

fn text_or_empty(o: &Option<String>) -> (r: String)
    ensures
        r@ == or_empty(crate::text::text_of(*o)),
{
    match o {
        Some(s) => s.clone(),
        None => {
            let r = String::new();
            assert(r@ == Seq::<char>::empty());
            r
        },
    }
}

fn list_pieces(field: TorrentsPageFilter, values: &Vec<String>) -> (r: RowCell)
    ensures
        r@ == list_cell(field, crate::text::texts(values@)),
{
    let ghost all = crate::text::texts(values@);
    let mut pieces: Vec<CellPiece> = Vec::new();
    let mut i: usize = 0;
    assert(pieces_of(pieces@) == Seq::<PieceView>::empty());
    while i < values.len()
        invariant
            i <= values@.len(),
            all == crate::text::texts(values@),
            pieces_of(pieces@) == list_cell(field, all.take(i as int)),
        decreases values@.len() - i,
    {
        let ghost before = pieces_of(pieces@);
        let ghost now = all.take(i + 1);
        proof {
            assert(now.drop_last() == all.take(i as int));
            assert(now.last() == values@[i as int]@);
        }
        if i > 0 {
            pieces.push(CellPiece::Text(", ".to_owned()));
        }
        pieces.push(filter_of(field, values[i].clone()));
        proof {
            if i > 0 {
                assert(pieces_of(pieces@) == before + seq![
                    PieceView::Text(", "@),
                    filter_piece(field, now.last()),
                ]);
            } else {
                assert(pieces_of(pieces@) == seq![filter_piece(field, now[0])]);
            }
        }
        i = i + 1;
    }
    assert(all.take(i as int) == all);
    RowCell { pieces }
}

fn series_pieces(series: &Vec<SeriesText>) -> (r: RowCell)
    ensures
        r@ == series_cell(series@.map_values(|s: SeriesText| crate::web::types::series_text(s))),
{
    let ghost all = series@.map_values(|s: SeriesText| crate::web::types::series_text(s));
    let mut pieces: Vec<CellPiece> = Vec::new();
    let mut i: usize = 0;
    assert(pieces_of(pieces@) == Seq::<PieceView>::empty());
    while i < series.len()
        invariant
            i <= series@.len(),
            all == series@.map_values(|s: SeriesText| crate::web::types::series_text(s)),
            pieces_of(pieces@) == series_cell(all.take(i as int)),
        decreases series@.len() - i,
    {
        let ghost before = pieces_of(pieces@);
        let ghost now = all.take(i + 1);
        let s = &series[i];
        proof {
            assert(now.drop_last() == all.take(i as int));
            assert(now.last() == (s.name@, s.entries@));
        }
        if i > 0 {
            pieces.push(CellPiece::Text(", ".to_owned()));
        }
        let text = if s.entries.as_str().unicode_len() == 0 {
            s.name.clone()
        } else {
            concat3(s.name.as_str(), " #", s.entries.as_str())
        };
        pieces.push(
            CellPiece::Filter {
                field: TorrentsPageFilter::Series,
                value: s.name.clone(),
                text,
                title: None,
            },
        );
        proof {
            if i > 0 {
                assert(pieces_of(pieces@) == before + seq![
                    PieceView::Text(", "@),
                    series_piece(now.last()),
                ]);
            } else {
                assert(pieces_of(pieces@) == seq![series_piece(now[0])]);
            }
        }
        i = i + 1;
    }
    assert(all.take(i as int) == all);
    RowCell { pieces }
}

fn flag_pieces(flags: &Vec<String>) -> (r: RowCell)
    ensures
        r@ == crate::text::texts(flags@).map_values(|f: Seq<char>| PieceView::Flag(f)),
{
    let ghost want = crate::text::texts(flags@).map_values(|f: Seq<char>| PieceView::Flag(f));
    let mut pieces: Vec<CellPiece> = Vec::new();
    let mut i: usize = 0;
    while i < flags.len()
        invariant
            i <= flags@.len(),
            want == crate::text::texts(flags@).map_values(|f: Seq<char>| PieceView::Flag(f)),
            pieces_of(pieces@) == want.take(i as int),
        decreases flags@.len() - i,
    {
        let ghost before = pieces_of(pieces@);
        pieces.push(CellPiece::Flag(flags[i].clone()));
        assert(pieces_of(pieces@) == before.push(want[i as int]));
        assert(want.take(i + 1) == want.take(i as int).push(want[i as int]));
        i = i + 1;
    }
    assert(want.take(i as int) == want);
    RowCell { pieces }
}

fn kind_pieces(r: &TorrentsRow, show: TorrentsPageColumns) -> (c: RowCell)
    ensures
        c@ == kind_cell(r@, show),
{
    let kind = CellPiece::Filter {
        field: TorrentsPageFilter::Kind,
        value: r.meta.media_type.clone(),
        text: r.meta.media_type.clone(),
        title: Some(r.meta.cat_name.clone()),
    };
    match &r.meta.cat_id {
        Some(id) => {
            if show.category {
                two_pieces(
                    kind,
                    CellPiece::Filter {
                        field: TorrentsPageFilter::Category,
                        value: id.clone(),
                        text: r.meta.cat_name.clone(),
                        title: None,
                    },
                )
            } else {
                one_piece(kind)
            }
        },
        None => one_piece(kind),
    }
}

fn title_pieces(r: &TorrentsRow) -> (c: RowCell)
    ensures
        c@ == title_cell(r@),
{
    let title = CellPiece::Title { id: r.id.clone(), title: r.meta.title.clone() };
    let (removed, absent) = match &r.client_status {
        Some(s) => (
            same_text(s.as_str(), "removed_from_tracker"),
            same_text(s.as_str(), "not_in_client"),
        ),
        None => (false, false),
    };
    if removed {
        two_pieces(
            title,
            CellPiece::Sign {
                warn: true,
                field: TorrentsPageFilter::ClientStatus,
                value: "removed_from_tracker".to_owned(),
                title: "Torrent is removed from tracker but still seeding".to_owned(),
            },
        )
    } else if absent {
        two_pieces(
            title,
            CellPiece::Sign {
                warn: false,
                field: TorrentsPageFilter::ClientStatus,
                value: "not_in_client".to_owned(),
                title: "Torrent is not seeding".to_owned(),
            },
        )
    } else {
        one_piece(title)
    }
}

fn text_of_bool(b: bool) -> (r: String)
    ensures
        r@ == bool_text(b),
{
    if b {
        "true".to_owned()
    } else {
        "false".to_owned()
    }
}

fn path_pieces(r: &TorrentsRow, show: TorrentsPageColumns) -> (c: RowCell)
    ensures
        c@ == path_cell(*r, show),
{
    let place = if show.path {
        CellPiece::Text(text_or_empty(&r.library_path))
    } else {
        CellPiece::Filter {
            field: TorrentsPageFilter::Linked,
            value: text_of_bool(r.linked),
            text: text_of_bool(r.linked),
            title: clone_option(&r.library_path),
        }
    };
    match &r.library_mismatch {
        Some(m) => two_pieces(
            place,
            CellPiece::Sign {
                warn: true,
                field: TorrentsPageFilter::LibraryMismatch,
                value: m.filter_value().to_owned(),
                title: m.title(),
            },
        ),
        None => one_piece(place),
    }
}

fn cell_at(r: &TorrentsRow, show: TorrentsPageColumns, slot: Slot) -> (c: RowCell)
    ensures
        c@ == slot_cell(*r, show, slot),
{
    let m = &r.meta;
    match slot {
        Slot::Kind => kind_pieces(r, show),
        Slot::Categories => list_pieces(TorrentsPageFilter::Categories, &m.categories),
        Slot::Flags => flag_pieces(&m.flags),
        Slot::Title => title_pieces(r),
        Slot::Edition => one_piece(CellPiece::Text(text_or_empty(&m.edition))),
        Slot::Authors => list_pieces(TorrentsPageFilter::Author, &m.authors),
        Slot::Narrators => list_pieces(TorrentsPageFilter::Narrator, &m.narrators),
        Slot::Series => series_pieces(&m.series),
        Slot::Language => one_piece(filter_of(TorrentsPageFilter::Language, text_or_empty(&m.language))),
        Slot::Size => one_piece(CellPiece::Text(m.size.clone())),
        Slot::Filetypes => list_pieces(TorrentsPageFilter::Filetype, &m.filetypes),
        Slot::Linker => one_piece(filter_of(TorrentsPageFilter::Linker, text_or_empty(&r.linker))),
        Slot::QbitCategory => one_piece(filter_of(TorrentsPageFilter::QbitCategory, text_or_empty(&r.category))),
        Slot::Place => path_pieces(r, show),
        Slot::CreatedAt => one_piece(CellPiece::Text(r.created_at.clone())),
        Slot::UploadedAt => one_piece(CellPiece::Text(r.uploaded_at.clone())),
    }
}

/// The cells of a row, behind its check box.
pub fn row_cells(torrent: &TorrentsRow, show: TorrentsPageColumns) -> (r: Vec<RowCell>)
    ensures
        cells_of(r@) == table_cells(*torrent, show),
{
    let slots = slots_in_use(show);
    let ghost want = table_cells(*torrent, show);
    let mut r: Vec<RowCell> = Vec::new();
    let mut i: usize = 0;
    while i < slots.len()
        invariant
            i <= slots@.len(),
            slots@ == crate::web::types::table_slots(show),
            want == table_cells(*torrent, show),
            cells_of(r@) == want.take(i as int),
        decreases slots@.len() - i,
    {
        let ghost before = cells_of(r@);
        let cell = cell_at(torrent, show, slots[i]);
        r.push(cell);
        assert(cells_of(r@) == before.push(cell@));
        assert(want[i as int] == cell@);
        assert(want.take(i + 1) == want.take(i as int).push(want[i as int]));
        i = i + 1;
    }
    assert(want.take(i as int) == want);
    r
}

/// Whether all rows are selected.
pub fn all_selected(row_ids: &Vec<String>, selected: &Vec<String>) -> (r: bool)
    ensures
        r == (forall|i: int|
            0 <= i < row_ids@.len() ==> crate::text::texts(selected@).contains(
                (#[trigger] row_ids@[i])@,
            )),
{
    let mut i: usize = 0;
    while i < row_ids.len()
        invariant
            i <= row_ids@.len(),
            forall|k: int|
                0 <= k < i ==> crate::text::texts(selected@).contains((#[trigger] row_ids@[k])@),
        decreases row_ids@.len() - i,
    {
        if !has_entry(selected, row_ids[i].as_str()) {
            assert(!crate::text::texts(selected@).contains(row_ids@[i as int]@));
            return false;
        }
        i = i + 1;
    }
    true
}

/// The selection after all rows of the page were selected, or none: the rows of
/// other pages stay as they are. The selection is an ascending list.
pub fn select_all(row_ids: &Vec<String>, selected: &mut Vec<String>, checked: bool)
    requires
        crate::order::is_ascending(crate::text::texts(old(selected)@)),
    ensures
        crate::order::is_ascending(crate::text::texts(final(selected)@)),
        forall|x: Seq<char>| #[trigger]
            crate::text::texts(final(selected)@).contains(x) <==> (if checked {
                crate::text::texts(old(selected)@).contains(x) || crate::text::texts(
                    row_ids@,
                ).contains(x)
            } else {
                crate::text::texts(old(selected)@).contains(x) && !crate::text::texts(
                    row_ids@,
                ).contains(x)
            }),
{
    let ghost start = crate::text::texts(selected@);
    let ghost ids = crate::text::texts(row_ids@);
    let mut i: usize = 0;
    while i < row_ids.len()
        invariant
            i <= row_ids@.len(),
            ids == crate::text::texts(row_ids@),
            crate::order::is_ascending(crate::text::texts(selected@)),
            forall|x: Seq<char>| #[trigger]
                crate::text::texts(selected@).contains(x) <==> (if checked {
                    start.contains(x) || ids.take(i as int).contains(x)
                } else {
                    start.contains(x) && !ids.take(i as int).contains(x)
                }),
        decreases row_ids@.len() - i,
    {
        let ghost before = ids.take(i as int);
        let ghost now = ids.take(i + 1);
        if checked {
            insert_text(selected, row_ids[i].clone());
        } else {
            remove_text(selected, row_ids[i].as_str());
        }
        proof {
            let id = row_ids@[i as int]@;
            assert(now == before.push(id));
            assert forall|x: Seq<char>| now.contains(x) <==> before.contains(x) || x == id by {
                if now.contains(x) {
                    let k = choose|k: int| 0 <= k < now.len() && now[k] == x;
                    if k < i {
                        assert(before[k] == x);
                    }
                }
                if before.contains(x) {
                    let k = choose|k: int| 0 <= k < before.len() && before[k] == x;
                    assert(now[k] == x);
                }
                assert(now[i as int] == id);
            }
        }
        i = i + 1;
    }
    assert(ids.take(i as int) == ids);
}

pub open spec fn chosen_of(v: Seq<(TorrentsPageFilter, String)>) -> Seq<
    (TorrentsPageFilter, Seq<char>),
> {
    v.map_values(|p: (TorrentsPageFilter, String)| (p.0, p.1@))
}

/// The conditions that are sent to the server: those in force, and the search
/// where it is not empty.
pub fn server_filters(filters: Vec<(TorrentsPageFilter, String)>, submitted_query: &str) -> (r: Vec<
    (TorrentsPageFilter, String),
>)
    ensures
        chosen_of(r@) == (if crate::text::trimmed(submitted_query@).len() > 0 {
            chosen_of(filters@).push(
                (TorrentsPageFilter::Query, crate::text::trimmed(submitted_query@)),
            )
        } else {
            chosen_of(filters@)
        }),
{
    let query = trim(submitted_query);
    let ghost before = chosen_of(filters@);
    let mut r = filters;
    if query.as_str().unicode_len() > 0 {
        r.push((TorrentsPageFilter::Query, query));
        assert(chosen_of(r@) == before.push((TorrentsPageFilter::Query, query@)));
    }
    r
}

/// A condition that is in force, as it is shown. What removes it is the
/// condition itself, or nothing for the search.
#[derive(Debug, PartialEq, Eq)]
pub struct ActiveFilterChip {
    pub label: String,
    pub filter: Option<(TorrentsPageFilter, String)>,
}

#[verifier::ext_equal]
pub struct ChipView {
    pub label: Seq<char>,
    pub filter: Option<(TorrentsPageFilter, Seq<char>)>,
}

impl View for ActiveFilterChip {
    type V = ChipView;

    open spec fn view(&self) -> ChipView {
        ChipView {
            label: self.label@,
            filter: match self.filter {
                Some(p) => Some((p.0, p.1@)),
                None => None,
            },
        }
    }
}

pub open spec fn chips_of(v: Seq<ActiveFilterChip>) -> Seq<ChipView> {
    v.map_values(|c: ActiveFilterChip| c@)
}

pub open spec fn condition_chip(p: (TorrentsPageFilter, Seq<char>)) -> ChipView {
    ChipView { label: filter_label(p.0) + ": "@ + p.1, filter: Some(p) }
}

/// The conditions in force, as they are shown: the search first.
pub open spec fn shown_chips(
    query: Seq<char>,
    filters: Seq<(TorrentsPageFilter, Seq<char>)>,
) -> Seq<ChipView> {
    crate::web::types::only_if(
        query.len() > 0,
        ChipView { label: "Query: "@ + query, filter: None },
    ) + filters.map_values(|p: (TorrentsPageFilter, Seq<char>)| condition_chip(p))
}

/// The conditions in force, as they are shown.
pub fn active_chips(submitted_query: &str, filters: &Vec<(TorrentsPageFilter, String)>) -> (r: Vec<
    ActiveFilterChip,
>)
    ensures
        chips_of(r@) == shown_chips(submitted_query@, chosen_of(filters@)),
{
    let mut r: Vec<ActiveFilterChip> = Vec::new();
    proof {
        reveal(crate::web::types::only_if);
    }
    if submitted_query.unicode_len() > 0 {
        r.push(
            ActiveFilterChip { label: concat("Query: ", submitted_query), filter: None },
        );
    }
    let ghost head = crate::web::types::only_if(
        submitted_query@.len() > 0,
        ChipView { label: "Query: "@ + submitted_query@, filter: None },
    );
    assert(chips_of(r@) == head);
    let ghost chosen = chosen_of(filters@);
    let ghost tail = chosen.map_values(|p: (TorrentsPageFilter, Seq<char>)| condition_chip(p));
    let mut i: usize = 0;
    assert(head + tail.take(0) == head);
    while i < filters.len()
        invariant
            i <= filters@.len(),
            chosen == chosen_of(filters@),
            tail == chosen.map_values(|p: (TorrentsPageFilter, Seq<char>)| condition_chip(p)),
            chips_of(r@) == head + tail.take(i as int),
        decreases filters@.len() - i,
    {
        let ghost before = chips_of(r@);
        let (field, value) = (filters[i].0, filters[i].1.clone());
        let label = concat3(filter_name(field), ": ", value.as_str());
        let chip = ActiveFilterChip { label, filter: Some((field, value)) };
        r.push(chip);
        proof {
            assert(chosen[i as int] == (filters@[i as int].0, filters@[i as int].1@));
            assert(chips_of(r@) == before.push(chip@));
            assert(chip@ == tail[i as int]);
            assert(tail.take(i + 1) == tail.take(i as int).push(tail[i as int]));
            assert((head + tail.take(i as int)).push(tail[i as int]) == head + tail.take(i + 1));
        }
        i = i + 1;
    }
    assert(tail.take(i as int) == tail);
    r
}

/// The conditions without the given one.
pub open spec fn without_condition(
    filters: Seq<(TorrentsPageFilter, Seq<char>)>,
    gone: (TorrentsPageFilter, Seq<char>),
) -> Seq<(TorrentsPageFilter, Seq<char>)>
    decreases filters.len(),
{
    if filters.len() == 0 {
        seq![]
    } else {
        let before = without_condition(filters.drop_last(), gone);
        if filters.last() == gone {
            before
        } else {
            before.push(filters.last())
        }
    }
}

/// Takes a condition out of those in force.
pub fn remove_filter(
    filters: &Vec<(TorrentsPageFilter, String)>,
    field: TorrentsPageFilter,
    value: &str,
) -> (r: Vec<(TorrentsPageFilter, String)>)
    ensures
        chosen_of(r@) == without_condition(chosen_of(filters@), (field, value@)),
{
    let ghost all = chosen_of(filters@);
    let mut r: Vec<(TorrentsPageFilter, String)> = Vec::new();
    let mut i: usize = 0;
    assert(chosen_of(r@) == Seq::<(TorrentsPageFilter, Seq<char>)>::empty());
    while i < filters.len()
        invariant
            i <= filters@.len(),
            all == chosen_of(filters@),
            chosen_of(r@) == without_condition(all.take(i as int), (field, value@)),
        decreases filters@.len() - i,
    {
        let ghost before = chosen_of(r@);
        let ghost now = all.take(i + 1);
        proof {
            assert(now.drop_last() == all.take(i as int));
            assert(now.last() == (filters@[i as int].0, filters@[i as int].1@));
        }
        if !(filters[i].0 == field && same_text(filters[i].1.as_str(), value)) {
            r.push((filters[i].0, filters[i].1.clone()));
            assert(chosen_of(r@) == before.push(now.last()));
        }
        i = i + 1;
    }
    assert(all.take(i as int) == all);
    r
}

/// A condition that was removed is not in force any more, and every other one
/// is as it was.
pub proof fn removed_condition_is_gone(
    filters: Seq<(TorrentsPageFilter, Seq<char>)>,
    gone: (TorrentsPageFilter, Seq<char>),
)
    ensures
        !without_condition(filters, gone).contains(gone),
        forall|p: (TorrentsPageFilter, Seq<char>)|
            p != gone ==> (#[trigger] without_condition(filters, gone).contains(p)
                <==> filters.contains(p)),
    decreases filters.len(),
{
    if filters.len() > 0 {
        let rest = filters.drop_last();
        let before = without_condition(rest, gone);
        let all = without_condition(filters, gone);
        removed_condition_is_gone(rest, gone);
        assert forall|p: (TorrentsPageFilter, Seq<char>)| all.contains(p) <==> before.contains(p)
            || (filters.last() != gone && p == filters.last()) by {
            if all.contains(p) {
                let k = choose|k: int| 0 <= k < all.len() && all[k] == p;
                if k < before.len() {
                    assert(before[k] == p);
                }
            }
            if before.contains(p) {
                let k = choose|k: int| 0 <= k < before.len() && before[k] == p;
                assert(all[k] == p);
            }
            if filters.last() != gone && p == filters.last() {
                assert(all[before.len() as int] == p);
            }
        }
        assert forall|p: (TorrentsPageFilter, Seq<char>)| filters.contains(p) <==> rest.contains(p)
            || p == filters.last() by {
            if filters.contains(p) {
                let k = choose|k: int| 0 <= k < filters.len() && filters[k] == p;
                if k < rest.len() {
                    assert(rest[k] == p);
                }
            }
            if rest.contains(p) {
                let k = choose|k: int| 0 <= k < rest.len() && rest[k] == p;
                assert(filters[k] == p);
            }
            assert(filters[filters.len() - 1] == filters.last());
        }
    }
}

/// The conditions that a page may be without: none, where nothing is searched
/// for and no condition is in force.
pub fn can_clear_all(submitted_query: &str, filters: &Vec<(TorrentsPageFilter, String)>) -> (r: bool)
    ensures
        r == (shown_chips(submitted_query@, chosen_of(filters@)).len() > 0),
{
    proof {
        reveal(crate::web::types::only_if);
    }
    submitted_query.unicode_len() > 0 || filters.len() > 0
}

/// Which of the torrents of the whole list are shown.
pub fn page_summary(from: usize, shown: usize, total: usize) -> (r: String)
    requires
        from + shown <= usize::MAX,
    ensures
        r@ == "Showing "@ + crate::text::decimal(from as nat) + " to "@ + crate::text::decimal(
            (from + shown) as nat,
        ) + " of "@ + crate::text::decimal(total as nat),
{
    let mut r = concat3("Showing ", number_text(from as u64).as_str(), " to ");
    r.append(number_text((from + shown) as u64).as_str());
    r.append(" of ");
    r.append(number_text(total as u64).as_str());
    r
}

/// What is said of an action that failed.
pub fn failure_message(action: TorrentsBulkAction, error: &str) -> (r: String)
    ensures
        r@ == action.label_text() + " failed: "@ + error@,
{
    concat3(action.label(), " failed: ", error)
}

/// The torrents that an action is for, or what is said where none is selected.
pub fn action_targets(selected: &Vec<String>) -> (r: Result<Vec<String>, String>)
    ensures
        r is Err <==> selected@.len() == 0,
        r matches Err(e) ==> e@ == "Select at least one torrent"@,
        r matches Ok(ids) ==> ids@ == selected@,
{
    if selected.len() == 0 {
        Err("Select at least one torrent".to_owned())
    } else {
        Ok(crate::text::clone_texts(selected))
    }
}

/// Switching a column on or off changes whether that column is shown, and no
/// other one.
#[verifier::spinoff_prover]
#[verifier::rlimit(60)]
pub proof fn column_is_switched_alone(
    show: TorrentsPageColumns,
    col: TorrentColumn,
    enabled: bool,
    other: TorrentColumn,
)
    ensures
        show.with_column(col, enabled).shows(col) == enabled,
        other != col ==> show.with_column(col, enabled).shows(other) == show.shows(other),
{
    match col {
        TorrentColumn::Category => {},
        TorrentColumn::Categories => {},
        TorrentColumn::Flags => {},
        TorrentColumn::Edition => {},
        TorrentColumn::Authors => {},
        TorrentColumn::Narrators => {},
        TorrentColumn::Series => {},
        TorrentColumn::Language => {},
        TorrentColumn::Size => {},
        TorrentColumn::Filetypes => {},
        TorrentColumn::Linker => {},
        TorrentColumn::QbitCategory => {},
        TorrentColumn::Path => {},
        TorrentColumn::CreatedAt => {},
        TorrentColumn::UploadedAt => {},
    }
}

/// Which columns of the table go by which setting; type, title and place are
/// always shown.
pub proof fn table_shows_chosen_columns(show: TorrentsPageColumns)
    ensures
        ({
            let slots = crate::web::types::table_slots(show);
            &&& slots.contains(Slot::Kind)
            &&& slots.contains(Slot::Title)
            &&& slots.contains(Slot::Place)
            &&& slots.contains(Slot::Categories) <==> show.shows(TorrentColumn::Categories)
            &&& slots.contains(Slot::Flags) <==> show.shows(TorrentColumn::Flags)
            &&& slots.contains(Slot::Edition) <==> show.shows(TorrentColumn::Edition)
            &&& slots.contains(Slot::Authors) <==> show.shows(TorrentColumn::Authors)
            &&& slots.contains(Slot::Narrators) <==> show.shows(TorrentColumn::Narrators)
            &&& slots.contains(Slot::Series) <==> show.shows(TorrentColumn::Series)
            &&& slots.contains(Slot::Language) <==> show.shows(TorrentColumn::Language)
            &&& slots.contains(Slot::Size) <==> show.shows(TorrentColumn::Size)
            &&& slots.contains(Slot::Filetypes) <==> show.shows(TorrentColumn::Filetypes)
            &&& slots.contains(Slot::Linker) <==> show.shows(TorrentColumn::Linker)
            &&& slots.contains(Slot::QbitCategory) <==> show.shows(TorrentColumn::QbitCategory)
            &&& slots.contains(Slot::CreatedAt) <==> show.shows(TorrentColumn::CreatedAt)
            &&& slots.contains(Slot::UploadedAt) <==> show.shows(TorrentColumn::UploadedAt)
        }),
{
    let all = crate::web::types::all_slots();
    lemma_used_slots(show, all);
    assert(all[0] == Slot::Kind);
    assert(all[1] == Slot::Categories);
    assert(all[2] == Slot::Flags);
    assert(all[3] == Slot::Title);
    assert(all[4] == Slot::Edition);
    assert(all[5] == Slot::Authors);
    assert(all[6] == Slot::Narrators);
    assert(all[7] == Slot::Series);
    assert(all[8] == Slot::Language);
    assert(all[9] == Slot::Size);
    assert(all[10] == Slot::Filetypes);
    assert(all[11] == Slot::Linker);
    assert(all[12] == Slot::QbitCategory);
    assert(all[13] == Slot::Place);
    assert(all[14] == Slot::CreatedAt);
    assert(all[15] == Slot::UploadedAt);
}

proof fn lemma_used_slots(show: TorrentsPageColumns, slots: Seq<Slot>)
    ensures
        forall|s: Slot| #[trigger]
            crate::web::types::used_slots(show, slots).contains(s) <==> slots.contains(s)
                && crate::web::types::slot_shown(show, s),
    decreases slots.len(),
{
    if slots.len() > 0 {
        let rest = slots.drop_last();
        let last = slots.last();
        lemma_used_slots(show, rest);
        let used = crate::web::types::used_slots(show, slots);
        let before = crate::web::types::used_slots(show, rest);
        assert forall|s: Slot| #[trigger] used.contains(s) <==> slots.contains(s)
            && crate::web::types::slot_shown(show, s) by {
            assert(slots.contains(s) <==> rest.contains(s) || s == last) by {
                if slots.contains(s) {
                    let k = choose|k: int| 0 <= k < slots.len() && slots[k] == s;
                    if k < rest.len() {
                        assert(rest[k] == s);
                    }
                }
                if rest.contains(s) {
                    let k = choose|k: int| 0 <= k < rest.len() && rest[k] == s;
                    assert(slots[k] == s);
                }
                assert(slots[slots.len() - 1] == last);
            }
            if crate::web::types::slot_shown(show, last) {
                assert(used == before.push(last));
                if used.contains(s) {
                    let k = choose|k: int| 0 <= k < used.len() && used[k] == s;
                    if k < before.len() {
                        assert(before[k] == s);
                    }
                }
                if before.contains(s) {
                    let k = choose|k: int| 0 <= k < before.len() && before[k] == s;
                    assert(used[k] == s);
                }
                assert(used[before.len() as int] == last);
            }
        }
    }
}

/// A cell with a list offers every value of the list as a condition on its
/// field, in the order of the list, with a comma between two of them.
pub proof fn list_cell_offers_every_value(field: TorrentsPageFilter, values: Seq<Seq<char>>)
    ensures
        values.len() > 0 ==> list_cell(field, values).len() == 2 * values.len() - 1,
        values.len() == 0 ==> list_cell(field, values).len() == 0,
        forall|i: int|
            0 <= i < values.len() ==> (#[trigger] list_cell(field, values)[2 * i] matches
                PieceView::Filter { field: f, value, text, title } && f == field && value
                == values[i] && text == values[i] && title is None),
    decreases values.len(),
{
    let all = list_cell(field, values);
    if values.len() > 1 {
        let rest = values.drop_last();
        let before = list_cell(field, rest);
        list_cell_offers_every_value(field, rest);
        let tail = seq![PieceView::Text(", "@), filter_piece(field, values.last())];
        assert(all == before + tail);
        assert forall|i: int| 0 <= i < values.len() implies (#[trigger] all[2 * i] matches
            PieceView::Filter { field: f, value, text, title } && f == field && value == values[i]
            && text == values[i] && title is None) by {
            if i < rest.len() {
                assert(all[2 * i] == before[2 * i]);
                assert(rest[i] == values[i]);
            } else {
                assert(all[2 * i] == tail[1]);
            }
        }
    }
}

/// A series is shown by its name, with its number where it has one, and asked
/// for by its name alone.
pub proof fn series_is_shown_with_number(name: Seq<char>, entries: Seq<char>)
    ensures
        series_piece((name, entries)) matches PieceView::Filter { field, value, text, title }
            && field == TorrentsPageFilter::Series && value == name && title is None && (
        entries.len() == 0 ==> text == name) && (entries.len() > 0 ==> text == name + " #"@
            + entries),
{
}

/// A row warns of a torrent that the tracker dropped and tells of one that the
/// client does not have, and of nothing else; a finding on the book's place is
/// shown as a warning beside the place.
pub proof fn row_tells_what_is_wrong(r: TorrentsRow, show: TorrentsPageColumns)
    ensures
        ({
            let title = title_cell(r@);
            &&& title.len() >= 1
            &&& title[0] == PieceView::Title { id: r@.id, title: r@.meta.title }
            &&& r@.client_status is None ==> title.len() == 1
            &&& r@.client_status == Some("removed_from_tracker"@) ==> title.len() == 2 && (title[1]
                matches PieceView::Sign { warn, .. } && warn)
            &&& r@.client_status == Some("not_in_client"@) ==> title.len() == 2 && (title[1] matches
                PieceView::Sign { warn, .. } && !warn)
        }),
        ({
            let place = path_cell(r, show);
            &&& r.library_mismatch is None ==> place.len() == 1
            &&& r.library_mismatch is Some ==> place.len() == 2 && (place[1] matches PieceView::Sign {
                warn,
                field,
                ..
            } && warn && field == TorrentsPageFilter::LibraryMismatch)
            &&& show.path ==> place[0] == PieceView::Text(or_empty(r@.library_path))
            &&& !show.path ==> (place[0] matches PieceView::Filter { field, value, .. } && field
                == TorrentsPageFilter::Linked && value == bool_text(r.linked))
        }),
{
    reveal_strlit("removed_from_tracker");
    reveal_strlit("not_in_client");
    assert("removed_from_tracker"@.len() != "not_in_client"@.len());
}

/// There is a chip for the search, where there is one, and one for each
/// condition, which removes that condition.
pub proof fn every_condition_has_a_chip(
    query: Seq<char>,
    filters: Seq<(TorrentsPageFilter, Seq<char>)>,
    i: int,
)
    requires
        0 <= i < filters.len(),
    ensures
        ({
            let chips = shown_chips(query, filters);
            let first = if query.len() > 0 {
                1int
            } else {
                0int
            };
            &&& chips.len() == first + filters.len()
            &&& query.len() > 0 ==> chips[0].filter is None && chips[0].label == "Query: "@ + query
            &&& chips[first + i].filter == Some(filters[i])
            &&& chips[first + i].label == filter_label(filters[i].0) + ": "@ + filters[i].1
        }),
{
    let chips = shown_chips(query, filters);
    let rest = filters.map_values(|p: (TorrentsPageFilter, Seq<char>)| condition_chip(p));
    let first = crate::web::types::only_if(
        query.len() > 0,
        ChipView { label: "Query: "@ + query, filter: None },
    );
    reveal(crate::web::types::only_if);
    assert(chips == first + rest);
    assert(rest[i] == condition_chip(filters[i]));
    assert(chips[first.len() + i] == rest[i]);
    if query.len() > 0 {
        assert(chips[0] == first[0]);
    }
}

/// Each list of a book stands in the cell of its own column, entry by entry, as
/// a condition on its own field.
pub proof fn cell_shows_its_own_list(r: TorrentsRow, show: TorrentsPageColumns, i: int)
    requires
        0 <= i,
    ensures
        i < r@.meta.authors.len() ==> slot_cell(r, show, Slot::Authors)[2 * i] == filter_piece(
            TorrentsPageFilter::Author,
            r@.meta.authors[i],
        ),
        i < r@.meta.narrators.len() ==> slot_cell(r, show, Slot::Narrators)[2 * i] == filter_piece(
            TorrentsPageFilter::Narrator,
            r@.meta.narrators[i],
        ),
        i < r@.meta.categories.len() ==> slot_cell(r, show, Slot::Categories)[2 * i]
            == filter_piece(TorrentsPageFilter::Categories, r@.meta.categories[i]),
        i < r@.meta.filetypes.len() ==> slot_cell(r, show, Slot::Filetypes)[2 * i] == filter_piece(
            TorrentsPageFilter::Filetype,
            r@.meta.filetypes[i],
        ),
        i < r@.meta.flags.len() ==> slot_cell(r, show, Slot::Flags)[i] == PieceView::Flag(
            r@.meta.flags[i],
        ),
{
    list_cell_offers_every_value(TorrentsPageFilter::Author, r@.meta.authors);
    list_cell_offers_every_value(TorrentsPageFilter::Narrator, r@.meta.narrators);
    list_cell_offers_every_value(TorrentsPageFilter::Categories, r@.meta.categories);
    list_cell_offers_every_value(TorrentsPageFilter::Filetype, r@.meta.filetypes);
}

/// Each text of a book stands in the cell of its own column; what is absent is
/// shown as nothing.
pub proof fn cell_shows_its_own_text(r: TorrentsRow, show: TorrentsPageColumns)
    ensures
        slot_cell(r, show, Slot::Size) == seq![PieceView::Text(r@.meta.size)],
        slot_cell(r, show, Slot::CreatedAt) == seq![PieceView::Text(r@.created_at)],
        slot_cell(r, show, Slot::UploadedAt) == seq![PieceView::Text(r@.uploaded_at)],
        r@.meta.edition matches Some(e) ==> slot_cell(r, show, Slot::Edition) == seq![
            PieceView::Text(e),
        ],
        r@.meta.language matches Some(l) ==> slot_cell(r, show, Slot::Language) == seq![
            filter_piece(TorrentsPageFilter::Language, l),
        ],
        r@.linker matches Some(l) ==> slot_cell(r, show, Slot::Linker) == seq![
            filter_piece(TorrentsPageFilter::Linker, l),
        ],
        r@.category matches Some(c) ==> slot_cell(r, show, Slot::QbitCategory) == seq![
            filter_piece(TorrentsPageFilter::QbitCategory, c),
        ],
        or_empty(None).len() == 0,
        slot_cell(r, show, Slot::Kind)[0] == (PieceView::Filter {
            field: TorrentsPageFilter::Kind,
            value: r@.meta.media_type,
            text: r@.meta.media_type,
            title: Some(r@.meta.cat_name),
        }),
        slot_cell(r, show, Slot::Kind).len() == 2 <==> show.category && r@.meta.cat_id is Some,
        (r@.meta.cat_id matches Some(id) && show.category) ==> slot_cell(r, show, Slot::Kind)[1] == (
        PieceView::Filter {
            field: TorrentsPageFilter::Category,
            value: r@.meta.cat_id.unwrap(),
            text: r@.meta.cat_name,
            title: None,
        }),
{
}

/// The header of a column sorts by what the column shows; categories, flags and
/// file types cannot be sorted by.
pub proof fn header_sorts_by_its_column(show: TorrentsPageColumns)
    ensures
        slot_header(show, Slot::Kind).1 == Some(TorrentsPageSort::Kind),
        slot_header(show, Slot::Title).1 == Some(TorrentsPageSort::Title),
        slot_header(show, Slot::Edition).1 == Some(TorrentsPageSort::Edition),
        slot_header(show, Slot::Authors).1 == Some(TorrentsPageSort::Authors),
        slot_header(show, Slot::Narrators).1 == Some(TorrentsPageSort::Narrators),
        slot_header(show, Slot::Series).1 == Some(TorrentsPageSort::Series),
        slot_header(show, Slot::Language).1 == Some(TorrentsPageSort::Language),
        slot_header(show, Slot::Size).1 == Some(TorrentsPageSort::Size),
        slot_header(show, Slot::Linker).1 == Some(TorrentsPageSort::Linker),
        slot_header(show, Slot::QbitCategory).1 == Some(TorrentsPageSort::QbitCategory),
        slot_header(show, Slot::CreatedAt).1 == Some(TorrentsPageSort::CreatedAt),
        slot_header(show, Slot::UploadedAt).1 == Some(TorrentsPageSort::UploadedAt),
        slot_header(show, Slot::Place).1 == Some(TorrentsPageSort::Linked),
        slot_header(show, Slot::Categories).1 is None,
        slot_header(show, Slot::Flags).1 is None,
        slot_header(show, Slot::Filetypes).1 is None,
{
}

} // verus!
