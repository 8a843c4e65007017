//! The course of bringing a book into a library, file by file, and of doing so
//! again for a book that is there.
use vstd::prelude::*;
use vstd::string::*;

use crate::linker::relink::{
    book_place, cleanup_partial_link_outputs, clear_torrent_link_state, library_path_changed,
    link_operations, wanted_formats, BookPlace, CleanupStep, LinkError, LinkOperation,
};
use crate::linker::torrent::{find_library_index, FileLinkPlan};
use crate::model::{
    Config, Library, LibraryLinkMethod, QbitConfig, QbitTorrent, Torrent, TorrentContent,
    TorrentMeta,
};
use crate::path::PathBuf;
use crate::text::concat;

verus! {

/// How far the placing of a book has come.
#[derive(Clone, Copy, Debug, PartialEq, Eq, Structural)]
pub enum PlaceState {
    Start,
    /// The book's directory is being made.
    MakingDir,
    /// The directory above a file is being made.
    MakingParent(usize),
    /// A file is being linked, by the operation with the given number.
    Linking { file: usize, attempt: usize },
    /// The book's description is being written.
    Describing,
    /// The book's record is being written.
    Saving,
    /// The history is being written.
    Telling,
    Finished,
}

/// What came of an action.
#[derive(Clone, Copy, Debug, PartialEq, Eq, Structural)]
pub enum PlaceEvent {
    Done,
    Failed,
}

/// What to do next with a book that is being placed.
#[derive(Debug, PartialEq)]
pub enum PlaceAction {
    /// Make a directory and those above it.
    MakeDir(PathBuf),
    /// Link the file with the given number.
    Link { operation: LinkOperation, file: usize },
    /// Write the book's description to the path.
    WriteMetadata(PathBuf),
    SaveRecord,
    WriteEvent,
    /// The book is placed.
    Stop,
    /// Report the error of what was tried last.
    Fail,
}

#[verifier::ext_equal]
pub enum PlaceView {
    MakeDir(Seq<char>),
    Link { operation: LinkOperation, file: int },
    WriteMetadata(Seq<char>),
    SaveRecord,
    WriteEvent,
    Stop,
    Fail,
}

impl View for PlaceAction {
    type V = PlaceView;

    open spec fn view(&self) -> PlaceView {
        match self {
            PlaceAction::MakeDir(p) => PlaceView::MakeDir(p@),
            PlaceAction::Link { operation, file } => PlaceView::Link {
                operation: *operation,
                file: *file as int,
            },
            PlaceAction::WriteMetadata(p) => PlaceView::WriteMetadata(p@),
            PlaceAction::SaveRecord => PlaceView::SaveRecord,
            PlaceAction::WriteEvent => PlaceView::WriteEvent,
            PlaceAction::Stop => PlaceView::Stop,
            PlaceAction::Fail => PlaceView::Fail,
        }
    }
}

/// The numbers in a state are those of a file and of an operation.
pub open spec fn is_place(files: nat, operations: nat, state: PlaceState) -> bool {
    match state {
        PlaceState::MakingParent(i) => i < files,
        PlaceState::Linking { file, attempt } => file < files && attempt < operations,
        _ => true,
    }
}

/// How many files are linked in a state.
pub open spec fn linked_count(files: nat, state: PlaceState) -> nat {
    match state {
        PlaceState::Start => 0,
        PlaceState::MakingDir => 0,
        PlaceState::MakingParent(i) => i as nat,
        PlaceState::Linking { file, .. } => file as nat,
        _ => files,
    }
}

/// How many steps are left at most.
pub open spec fn steps_left(files: int, operations: int, state: PlaceState) -> int {
    match state {
        PlaceState::Start => files * (operations + 2) + 5,
        PlaceState::MakingDir => files * (operations + 2) + 4,
        PlaceState::MakingParent(i) => (files - i) * (operations + 2) + 3,
        PlaceState::Linking { file, attempt } => (files - file) * (operations + 2) + 2 - attempt,
        PlaceState::Describing => 3,
        PlaceState::Saving => 2,
        PlaceState::Telling => 1,
        PlaceState::Finished => 0,
    }
}

/// The step that begins to link a file, or ends in describing the book where no
/// file is left.
pub open spec fn file_step(
    dir: Seq<char>,
    plans: Seq<FileLinkPlan>,
    operations: Seq<LinkOperation>,
    i: int,
) -> (PlaceState, PlaceView) {
    if i >= plans.len() {
        (
            PlaceState::Describing,
            PlaceView::WriteMetadata(crate::path::path_join(dir, "metadata.json"@)),
        )
    } else {
        match crate::path::path_parent(plans[i].library_path@) {
            Some(p) => (PlaceState::MakingParent(i as usize), PlaceView::MakeDir(p)),
            None => (
                PlaceState::Linking { file: i as usize, attempt: 0 },
                PlaceView::Link { operation: operations[0], file: i },
            ),
        }
    }
}

/// The step that follows in placing a book in a directory.
pub open spec fn next_in_dir(
    dir: Seq<char>,
    plans: Seq<FileLinkPlan>,
    operations: Seq<LinkOperation>,
    state: PlaceState,
    event: PlaceEvent,
) -> (PlaceState, PlaceView) {
    match (state, event) {
        (PlaceState::Start, PlaceEvent::Done) => (PlaceState::MakingDir, PlaceView::MakeDir(dir)),
        (PlaceState::MakingDir, PlaceEvent::Done) => file_step(dir, plans, operations, 0),
        (PlaceState::MakingParent(i), PlaceEvent::Done) => (
            PlaceState::Linking { file: i, attempt: 0 },
            PlaceView::Link { operation: operations[0], file: i as int },
        ),
        (PlaceState::Linking { file, .. }, PlaceEvent::Done) => file_step(
            dir,
            plans,
            operations,
            file + 1,
        ),
        (PlaceState::Linking { file, attempt }, PlaceEvent::Failed) => if attempt + 1
            < operations.len() {
            (
                PlaceState::Linking { file, attempt: (attempt + 1) as usize },
                PlaceView::Link { operation: operations[attempt + 1], file: file as int },
            )
        } else {
            (PlaceState::Finished, PlaceView::Fail)
        },
        (PlaceState::Describing, PlaceEvent::Done) => (PlaceState::Saving, PlaceView::SaveRecord),
        (PlaceState::Saving, PlaceEvent::Done) => (PlaceState::Telling, PlaceView::WriteEvent),
        (PlaceState::Telling, _) => (PlaceState::Finished, PlaceView::Stop),
        (PlaceState::Finished, _) => (PlaceState::Finished, PlaceView::Stop),
        (_, PlaceEvent::Failed) => (PlaceState::Finished, PlaceView::Fail),
    }
}

/// The step that follows for a book that has no directory: only its record is
/// written.
pub open spec fn next_without_dir(state: PlaceState, event: PlaceEvent) -> (PlaceState, PlaceView) {
    match (state, event) {
        (PlaceState::Start, PlaceEvent::Done) => (PlaceState::Saving, PlaceView::SaveRecord),
        (PlaceState::Start, PlaceEvent::Failed) => (PlaceState::Finished, PlaceView::Fail),
        (PlaceState::Saving, PlaceEvent::Failed) => (PlaceState::Finished, PlaceView::Fail),
        _ => (PlaceState::Finished, PlaceView::Stop),
    }
}

/// The step that follows in placing a book.
pub open spec fn next_place(
    dir: Option<Seq<char>>,
    plans: Seq<FileLinkPlan>,
    operations: Seq<LinkOperation>,
    state: PlaceState,
    event: PlaceEvent,
) -> (PlaceState, PlaceView) {
    match dir {
        Some(d) => next_in_dir(d, plans, operations, state, event),
        None => next_without_dir(state, event),
    }
}

fn begin_file(dir: &PathBuf, plans: &Vec<FileLinkPlan>, operations: &Vec<LinkOperation>, i: usize)
    -> (r: (PlaceState, PlaceAction))
    requires
        i <= plans@.len(),
        operations@.len() > 0,
    ensures
        (r.0, r.1@) == file_step(dir@, plans@, operations@, i as int),
{
    if i >= plans.len() {
        return (
            PlaceState::Describing,
            PlaceAction::WriteMetadata(dir.join("metadata.json")),
        );
    }
    match plans[i].library_path.parent() {
        Some(p) => (PlaceState::MakingParent(i), PlaceAction::MakeDir(p)),
        None => (
            PlaceState::Linking { file: i, attempt: 0 },
            PlaceAction::Link { operation: operations[0], file: i },
        ),
    }
}

/// The next step in placing a book: its directory is made; each planned file is
/// linked, by the first of the method's operations that succeeds; then its
/// description, its record and the history are written. Where every operation
/// fails for a file, or another step fails, the error is reported. A book
/// without a directory only has its record written.
pub fn place_step(
    dir: &Option<PathBuf>,
    plans: &Vec<FileLinkPlan>,
    method: LibraryLinkMethod,
    state: PlaceState,
    event: PlaceEvent,
) -> (r: (PlaceState, PlaceAction))
    requires
        dir is Some ==> method != LibraryLinkMethod::NoLink,
        is_place(plans@.len(), crate::linker::relink::method_operations(method).len(), state),
    ensures
        (r.0, r.1@) == next_place(
            crate::model::path_of(*dir),
            plans@,
            crate::linker::relink::method_operations(method),
            state,
            event,
        ),
        is_place(plans@.len(), crate::linker::relink::method_operations(method).len(), r.0),
{
    let dir = match dir {
        Some(d) => d,
        None => {
            return match (state, event) {
                (PlaceState::Start, PlaceEvent::Done) => (
                    PlaceState::Saving,
                    PlaceAction::SaveRecord,
                ),
                (PlaceState::Start, PlaceEvent::Failed) => (
                    PlaceState::Finished,
                    PlaceAction::Fail,
                ),
                (PlaceState::Saving, PlaceEvent::Failed) => (
                    PlaceState::Finished,
                    PlaceAction::Fail,
                ),
                _ => (PlaceState::Finished, PlaceAction::Stop),
            };
        },
    };
    let operations = link_operations(method);
    let count: usize = plans.len();
    assert(state matches PlaceState::Linking { file, .. } ==> file < count);
    match (state, event) {
        (PlaceState::Start, PlaceEvent::Done) => (
            PlaceState::MakingDir,
            PlaceAction::MakeDir(dir.clone()),
        ),
        (PlaceState::MakingDir, PlaceEvent::Done) => begin_file(dir, plans, &operations, 0),
        (PlaceState::MakingParent(i), PlaceEvent::Done) => (
            PlaceState::Linking { file: i, attempt: 0 },
            PlaceAction::Link { operation: operations[0], file: i },
        ),
        (PlaceState::Linking { file, .. }, PlaceEvent::Done) => begin_file(
            dir,
            plans,
            &operations,
            file + 1,
        ),
        (PlaceState::Linking { file, attempt }, PlaceEvent::Failed) => {
            if attempt + 1 < operations.len() {
                (
                    PlaceState::Linking { file, attempt: attempt + 1 },
                    PlaceAction::Link { operation: operations[attempt + 1], file },
                )
            } else {
                (PlaceState::Finished, PlaceAction::Fail)
            }
        },
        (PlaceState::Describing, PlaceEvent::Done) => (PlaceState::Saving, PlaceAction::SaveRecord),
        (PlaceState::Saving, PlaceEvent::Done) => (PlaceState::Telling, PlaceAction::WriteEvent),
        (PlaceState::Telling, _) => (PlaceState::Finished, PlaceAction::Stop),
        (PlaceState::Finished, _) => (PlaceState::Finished, PlaceAction::Stop),
        (_, PlaceEvent::Failed) => (PlaceState::Finished, PlaceAction::Fail),
    }
}

/// Every step of placing a book leads on, so the placing comes to an end.
pub proof fn placing_ends(
    dir: Option<Seq<char>>,
    plans: Seq<FileLinkPlan>,
    method: LibraryLinkMethod,
    state: PlaceState,
    event: PlaceEvent,
)
    requires
        plans.len() <= usize::MAX,
        dir is Some ==> method != LibraryLinkMethod::NoLink,
        is_place(plans.len(), crate::linker::relink::method_operations(method).len(), state),
        !(state is Finished),
    ensures
        ({
            let operations = crate::linker::relink::method_operations(method);
            let files = plans.len() as int;
            let tries = operations.len() as int;
            0 <= steps_left(files, tries, next_place(dir, plans, operations, state, event).0)
                < steps_left(files, tries, state)
        }),
{
    let operations = crate::linker::relink::method_operations(method);
    let n = plans.len() as int;
    let m = operations.len() + 2;
    let next = next_place(dir, plans, operations, state, event).0;
    assert forall|i: int| 0 <= i < n implies #[trigger] ((n - i) * m) == (n - i - 1) * m + m && 0
        <= (n - i - 1) * m by {
        assert((n - i) * m == (n - i - 1) * m + m && 0 <= (n - i - 1) * m) by (nonlinear_arith)
            requires
                0 <= i < n,
                m > 0,
        ;
    }
    assert(0 <= n * m) by (nonlinear_arith)
        requires
            0 <= n,
            m > 0,
    ;
    match (state, next) {
        (PlaceState::MakingDir, PlaceState::MakingParent(i)) => {
            assert((n - i) * m == n * m) by (nonlinear_arith)
                requires
                    i == 0,
            ;
        },
        (PlaceState::MakingDir, PlaceState::Linking { file, .. }) => {
            assert((n - file) * m == n * m) by (nonlinear_arith)
                requires
                    file == 0,
            ;
        },
        (PlaceState::MakingParent(i), _) => {
            assert((n - i) * m == (n - i - 1) * m + m);
        },
        (PlaceState::Linking { file, .. }, PlaceState::MakingParent(i)) => {
            assert((n - file) * m == (n - file - 1) * m + m);
            assert((n - i) * m == (n - file - 1) * m) by (nonlinear_arith)
                requires
                    i == file + 1,
            ;
        },
        (PlaceState::Linking { file, .. }, PlaceState::Linking { file: i, .. }) => {
            assert((n - file) * m == (n - file - 1) * m + m);
            if i != file {
                assert((n - i) * m == (n - file - 1) * m) by (nonlinear_arith)
                    requires
                        i == file + 1,
                ;
            }
        },
        (PlaceState::Linking { file, .. }, _) => {
            assert((n - file) * m == (n - file - 1) * m + m);
        },
        _ => {},
    }
}

/// The description of a book in a directory is written only when every planned
/// file is linked: the count of linked files grows by one with every file that
/// is linked, and by nothing else.
pub proof fn files_are_linked_in_turn(
    dir: Seq<char>,
    plans: Seq<FileLinkPlan>,
    operations: Seq<LinkOperation>,
    state: PlaceState,
    event: PlaceEvent,
)
    requires
        plans.len() <= usize::MAX,
        is_place(plans.len(), operations.len(), state),
    ensures
        ({
            let next = next_in_dir(dir, plans, operations, state, event).0;
            next is Finished || linked_count(plans.len(), next) == linked_count(plans.len(), state)
                + (if state is Linking && event is Done {
                1nat
            } else {
                0nat
            })
        }),
        linked_count(plans.len(), PlaceState::Start) == 0,
        linked_count(plans.len(), PlaceState::Describing) == plans.len(),
{
}

/// What each step of placing a book in a directory asks for. A file is linked by
/// the operation whose turn it is, below a directory that was made for it; the
/// metadata goes into the book's directory; the record is written once the
/// metadata is, and the history once the record is. Nothing but a failure
/// fails, and nothing but the end stops: where an operation fails and another one
/// is left, that one is tried.
pub proof fn placing_asks_in_order(
    dir: Seq<char>,
    plans: Seq<FileLinkPlan>,
    operations: Seq<LinkOperation>,
    state: PlaceState,
    event: PlaceEvent,
)
    requires
        0 < operations.len() <= usize::MAX,
        plans.len() <= usize::MAX,
        is_place(plans.len(), operations.len(), state),
    ensures
        ({
            let (next, action) = next_in_dir(dir, plans, operations, state, event);
            match action {
                PlaceView::MakeDir(p) => (state is Start && p == dir) || (next matches
                    PlaceState::MakingParent(i) && i < plans.len() && crate::path::path_parent(
                    plans[i as int].library_path@,
                ) == Some(p)),
                PlaceView::Link { operation, file } => {
                    &&& next matches PlaceState::Linking { file: f, attempt }
                    &&& f == file
                    &&& file < plans.len()
                    &&& attempt < operations.len()
                    &&& operation == operations[attempt as int]
                    &&& state is MakingParent || crate::path::path_parent(
                        plans[file].library_path@,
                    ) is None || (event is Failed && state == PlaceState::Linking {
                        file: f,
                        attempt: (attempt - 1) as usize,
                    })
                },
                PlaceView::WriteMetadata(p) => p == crate::path::path_join(dir, "metadata.json"@)
                    && next is Describing && event is Done,
                PlaceView::SaveRecord => state is Describing && event is Done,
                PlaceView::WriteEvent => state is Saving && event is Done,
                PlaceView::Stop => state is Telling || state is Finished,
                PlaceView::Fail => event is Failed && next is Finished,
            }
        }),
        event is Failed && !(state is Linking) && !(state is Telling) && !(state is Finished)
            ==> next_in_dir(dir, plans, operations, state, event).1 is Fail,
        ({
            let (_, action) = next_in_dir(dir, plans, operations, state, event);
            state matches PlaceState::Linking { attempt, .. } && event is Failed && attempt + 1
                == operations.len() ==> action is Fail
        }),
        ({
            let (_, action) = next_in_dir(dir, plans, operations, state, event);
            state matches PlaceState::Linking { file, attempt } ==> (event is Failed && attempt + 1
                < operations.len() ==> action == (PlaceView::Link {
                operation: operations[attempt + 1],
                file: file as int,
            }))
        }),
{
}

/// A book that goes into no directory is recorded, and nothing is made or linked
/// for it.
pub proof fn book_without_directory_is_recorded(state: PlaceState, event: PlaceEvent)
    ensures
        ({
            let (next, action) = next_without_dir(state, event);
            &&& action is SaveRecord || action is Stop || action is Fail
            &&& state is Start && event is Done ==> action is SaveRecord && next is Saving
            &&& state is Saving && event is Done ==> action is Stop
            &&& event is Failed && (state is Start || state is Saving) ==> action is Fail
        }),
{
}

/// The files of a book's record: those that were planned.
pub fn linked_files(plans: &Vec<FileLinkPlan>) -> (r: Vec<PathBuf>)
    ensures
        crate::path::path_texts(r@) == crate::linker::relink::relative_paths(plans@),
{
    let ghost want = crate::linker::relink::relative_paths(plans@);
    let mut r: Vec<PathBuf> = Vec::new();
    let mut i: usize = 0;
    while i < plans.len()
        invariant
            i <= plans@.len(),
            want == crate::linker::relink::relative_paths(plans@),
            crate::path::path_texts(r@) == want.take(i as int),
        decreases plans@.len() - i,
    {
        let ghost before = crate::path::path_texts(r@);
        let path = plans[i].relative_library_path.clone();
        r.push(path);
        assert(crate::path::path_texts(r@) == before.push(path@));
        assert(want[i as int] == path@);
        assert(want.take(i + 1) == want.take(i as int).push(want[i as int]));
        i = i + 1;
    }
    assert(want.take(i as int) == want);
    r
}

/// How far the relinking of a book has come.
pub enum RelinkState {
    Start,
    /// The torrent's files are being asked for.
    Files { library: usize },
    /// The torrent's record is being loaded, or refreshed.
    Record { library: usize, audio: Option<String>, ebook: Option<String> },
    Finished,
}

/// What was learned of a book that is being relinked.
pub enum RelinkEvent {
    /// The client has the torrent.
    Found,
    Files(Vec<TorrentContent>),
    Record(Option<Torrent>),
}

/// What to do next with a book that is being relinked.
pub enum RelinkAction {
    FetchFiles,
    LoadRecord,
    /// Remove the files of the book, and place it anew.
    Replace {
        library: usize,
        audio: Option<String>,
        ebook: Option<String>,
        torrent: Torrent,
        /// The book moves to another directory.
        moves: bool,
    },
    Fail(LinkError),
    /// The event does not belong to the state.
    Ignore,
}

/// A step in relinking a book.
pub struct RelinkStep {
    pub state: RelinkState,
    pub action: RelinkAction,
}

/// The library of a state is one of those of the settings.
pub open spec fn has_library(config: Config, state: RelinkState) -> bool {
    match state {
        RelinkState::Files { library } => library < config.libraries@.len(),
        RelinkState::Record { library, .. } => library < config.libraries@.len(),
        _ => true,
    }
}

fn relink_fails(error: LinkError) -> (r: RelinkStep)
    ensures
        r.state is Finished,
        r.action == RelinkAction::Fail(error),
{
    RelinkStep { state: RelinkState::Finished, action: RelinkAction::Fail(error) }
}

/// The book lies elsewhere than where its library wants it.
pub open spec fn has_moved(config: Config, library: int, t: crate::model::TorrentView) -> bool {
    let dir = crate::linker::common::wanted_dir(
        config.exclude_narrator_in_library_dir,
        config.libraries@[library].opts().library_dir@,
        t.meta,
    );
    match t.library_path {
        Some(p) => !crate::linker::torrent::lies_at(p, dir),
        None => dir is Some,
    }
}

/// The step in relinking a book that the library at the given place takes, if
/// any: a library has to take it, it has to have files of a wanted format, and
/// it has to be known.
pub open spec fn relinks_on(
    config: Config,
    taker: Option<int>,
    state: RelinkState,
    event: RelinkEvent,
    r: RelinkStep,
) -> bool {
    match (state, event) {
        (RelinkState::Start, RelinkEvent::Found) => match taker {
            Some(i) => r.action is FetchFiles && (r.state matches RelinkState::Files { library }
                && library == i),
            None => r.state is Finished && r.action == RelinkAction::Fail(LinkError::NoLibrary),
        },
        (RelinkState::Files { library }, RelinkEvent::Files(files)) => {
            let names = crate::linker::common::lower_names(files@);
            let opts = config.libraries@[library as int].opts();
            let audio = crate::linker::common::selected_format(
                crate::linker::common::formats_in_force(opts.audio_types, config.audio_types@),
                names,
            );
            let ebook = crate::linker::common::selected_format(
                crate::linker::common::formats_in_force(opts.ebook_types, config.ebook_types@),
                names,
            );
            if audio is None && ebook is None {
                r.state is Finished && r.action == RelinkAction::Fail(LinkError::NoWantedFormat)
            } else {
                r.action is LoadRecord && (r.state matches RelinkState::Record {
                    library: l,
                    audio: a,
                    ebook: e,
                } && l == library && crate::text::text_of(a) == audio && crate::text::text_of(e)
                    == ebook)
            }
        },
        (RelinkState::Record { library, audio, ebook }, RelinkEvent::Record(found)) => r.state
            is Finished && match found {
            None => r.action == RelinkAction::Fail(LinkError::NoTorrent),
            Some(t) => r.action matches RelinkAction::Replace {
                library: l,
                audio: a,
                ebook: e,
                torrent: x,
                moves,
            } && l == library && a == audio && e == ebook && x == t && moves == has_moved(
                config,
                library as int,
                t@,
            ),
        },
        _ => r.state is Finished && r.action is Ignore,
    }
}

/// The record that is relinked has the directory names that are looked at.
pub open spec fn has_relink_dirs(config: Config, event: RelinkEvent) -> bool {
    event matches RelinkEvent::Record(Some(t)) ==> crate::linker::common::has_book_dir(
        config.exclude_narrator_in_library_dir,
        t@.meta,
    )
}

/// The next step in relinking a book that the library at the given place takes,
/// if any.
pub(crate) fn relink_on(
    config: &Config,
    taker: Option<usize>,
    state: RelinkState,
    event: RelinkEvent,
) -> (r: RelinkStep)
    requires
        taker matches Some(i) ==> i < config.libraries@.len(),
        has_library(*config, state),
        has_relink_dirs(*config, event),
    ensures
        has_library(*config, r.state),
        relinks_on(*config, crate::linker::progress::place_of(taker), state, event, r),
{
    match (state, event) {
        (RelinkState::Start, RelinkEvent::Found) => match taker {
            Some(library) => RelinkStep {
                state: RelinkState::Files { library },
                action: RelinkAction::FetchFiles,
            },
            None => relink_fails(LinkError::NoLibrary),
        },
        (RelinkState::Files { library }, RelinkEvent::Files(files)) => match wanted_formats(
            config,
            &config.libraries[library],
            &files,
        ) {
            Ok((audio, ebook)) => RelinkStep {
                state: RelinkState::Record { library, audio, ebook },
                action: RelinkAction::LoadRecord,
            },
            Err(error) => relink_fails(error),
        },
        (RelinkState::Record { library, audio, ebook }, RelinkEvent::Record(found)) => match found {
            None => relink_fails(LinkError::NoTorrent),
            Some(t) => {
                let moves = library_path_changed(&t, &config.libraries[library], config);
                RelinkStep {
                    state: RelinkState::Finished,
                    action: RelinkAction::Replace { library, audio, ebook, torrent: t, moves },
                }
            },
        },
        _ => RelinkStep { state: RelinkState::Finished, action: RelinkAction::Ignore },
    }
}

/// The next step in relinking a book.
pub fn relink_step(config: &Config, torrent: &QbitTorrent, state: RelinkState, event: RelinkEvent)
    -> (r: RelinkStep)
    requires
        has_library(*config, state),
        has_relink_dirs(*config, event),
    ensures
        has_library(*config, r.state),
        relinks_on(
            *config,
            crate::linker::progress::taker(*config, *torrent),
            state,
            event,
            r,
        ),
{
    relink_on(config, find_library_index(config, torrent), state, event)
}

/// A book is to move exactly when it does not lie in the directory that its
/// library wants it in, by the components of the two paths.
pub proof fn book_moves_unless_in_place(
    config: Config,
    library: int,
    t: crate::model::TorrentView,
)
    ensures
        ({
            let dir = crate::linker::common::wanted_dir(
                config.exclude_narrator_in_library_dir,
                config.libraries@[library].opts().library_dir@,
                t.meta,
            );
            has_moved(config, library, t) <==> !match (t.library_path, dir) {
                (Some(p), Some(d)) => crate::path::parts(p) == crate::path::parts(d),
                (None, None) => true,
                _ => false,
            }
        }),
{
}

/// What a relink replaces, from the library that takes the torrent to the
/// record: the record that was found, in that library, with the most wanted
/// formats that the files have.
pub proof fn relink_replaces_what_was_found(
    config: Config,
    taker: int,
    files: Vec<TorrentContent>,
    record: Torrent,
    first: RelinkStep,
    second: RelinkStep,
    third: RelinkStep,
)
    requires
        relinks_on(config, Some(taker), RelinkState::Start, RelinkEvent::Found, first),
        relinks_on(config, Some(taker), first.state, RelinkEvent::Files(files), second),
        second.action is LoadRecord,
        relinks_on(config, Some(taker), second.state, RelinkEvent::Record(Some(record)), third),
    ensures
        first.action is FetchFiles,
        third.action matches RelinkAction::Replace { library, audio, ebook, torrent, moves } && {
            let names = crate::linker::common::lower_names(files@);
            let opts = config.libraries@[taker].opts();
            &&& library == taker
            &&& audio is Some || ebook is Some
            &&& crate::text::text_of(audio) == crate::linker::common::selected_format(
                crate::linker::common::formats_in_force(opts.audio_types, config.audio_types@),
                names,
            )
            &&& crate::text::text_of(ebook) == crate::linker::common::selected_format(
                crate::linker::common::formats_in_force(opts.ebook_types, config.ebook_types@),
                names,
            )
            &&& torrent == record
            &&& moves == has_moved(config, taker, record@)
        },
{
}

/// What is removed after a relink that failed, before the record forgets where
/// the book was: what the placing left in the book's directory, where it has
/// one.
pub fn rollback_failed_relink(library_path: &Option<PathBuf>, plans: &Vec<FileLinkPlan>) -> (r: Vec<
    CleanupStep,
>)
    ensures
        crate::linker::relink::cleanup_of(r@) == (match crate::model::path_of(*library_path) {
            Some(dir) => crate::linker::relink::leftovers(plans@, dir),
            None => seq![],
        }),
{
    match library_path {
        Some(dir) => cleanup_partial_link_outputs(dir, plans),
        None => {
            let r: Vec<CleanupStep> = Vec::new();
            assert(crate::linker::relink::cleanup_of(r@) == Seq::<
                crate::linker::relink::CleanupView,
            >::empty());
            r
        },
    }
}

/// How far the replacing of a relinked book's files has come.
pub enum ReplaceState {
    Start,
    /// The files that were linked before are being removed.
    Removing,
    /// The book is being placed anew.
    Placing(BookPlace),
    /// What a failed placing left is being removed; the text is its error.
    CleaningUp(String),
    /// The book's record is being loaded, to forget where the book was.
    Loading(String),
    /// The record that has forgotten it is being written.
    Clearing(String),
    Finished,
}

/// What came of an action on a relinked book.
pub enum ReplaceEvent {
    Begin,
    /// The files are removed. `dir_exists` tells whether the directory that
    /// `library_dir` gives is there.
    Removed { dir_exists: bool },
    Done,
    /// The record that is kept under the book's id.
    Loaded(Option<Torrent>),
    Failed(String),
}

/// What to do next with a relinked book.
pub enum ReplaceAction {
    /// Remove the files that were linked before.
    Remove,
    /// Place the book.
    Place(BookPlace),
    /// Remove what a failed placing left.
    CleanUp(Vec<CleanupStep>),
    /// Load the book's record.
    Load,
    /// Write the record.
    Save(Torrent),
    /// The book is relinked.
    Stop,
    /// Report the error.
    Fail(String),
    /// The event does not belong to the state.
    Ignore,
}

/// A step in replacing a relinked book's files.
pub struct ReplaceStep {
    pub state: ReplaceState,
    pub action: ReplaceAction,
}

/// What the replacing of a relinked book's files goes by.
pub struct Replacement<'a> {
    pub config: &'a Config,
    pub qbit_config: &'a QbitConfig,
    pub torrent: &'a QbitTorrent,
    pub library: &'a Library,
    pub files: &'a Vec<TorrentContent>,
    pub audio: &'a Option<String>,
    pub ebook: &'a Option<String>,
    pub meta: &'a TorrentMeta,
}

/// The names that the placing takes are there.
pub open spec fn has_replace_names(p: Replacement, event: ReplaceEvent) -> bool {
    event matches ReplaceEvent::Removed { dir_exists } ==> {
        &&& crate::linker::relink::has_place_dirs(*p.config, *p.library, p.meta@, dir_exists)
        &&& p.library.opts().method != LibraryLinkMethod::NoLink
            ==> crate::linker::relink::has_file_names(
            p.files@,
            crate::text::text_of(*p.audio),
            crate::text::text_of(*p.ebook),
        )
    }
}

/// The step ends in an error.
pub open spec fn replace_fails(r: ReplaceStep, message: Seq<char>) -> bool {
    r.state is Finished && (r.action matches ReplaceAction::Fail(e) && e@ == message)
}

/// The error with which a state will end, where the placing has failed.
pub open spec fn placing_error(state: ReplaceState) -> Option<Seq<char>> {
    match state {
        ReplaceState::CleaningUp(e) => Some(e@),
        ReplaceState::Loading(e) => Some(e@),
        ReplaceState::Clearing(e) => Some(e@),
        _ => None,
    }
}

/// The step that follows in replacing a relinked book's files. Where the files
/// cannot be removed, or the book has no place, the error is reported and
/// nothing is undone. Where the placing fails, what it left is removed, the
/// record forgets where the book was, and the placing's error is reported,
/// whatever came of undoing it.
pub open spec fn replaces_on(
    p: Replacement,
    state: ReplaceState,
    event: ReplaceEvent,
    r: ReplaceStep,
) -> bool {
    match (state, event) {
        (ReplaceState::Start, ReplaceEvent::Begin) => r.state is Removing && r.action is Remove,
        (ReplaceState::Removing, ReplaceEvent::Failed(e)) => replace_fails(
            r,
            "removing previous library files: "@ + e@,
        ),
        (ReplaceState::Removing, ReplaceEvent::Removed { dir_exists }) => if p.library.opts().method
            != LibraryLinkMethod::NoLink && p.meta@.authors.len() == 0 {
            replace_fails(r, crate::linker::relink::error_message(LinkError::NoAuthor))
        } else {
            &&& r.action matches ReplaceAction::Place(place)
            &&& r.state matches ReplaceState::Placing(kept)
            &&& kept.dir == place.dir
            &&& kept.plans@ == place.plans@
            &&& crate::linker::relink::is_place_of(
                *p.config,
                *p.qbit_config,
                *p.torrent,
                *p.library,
                p.files@,
                crate::text::text_of(*p.audio),
                crate::text::text_of(*p.ebook),
                p.meta@,
                dir_exists,
                place,
            )
        },
        (ReplaceState::Placing(_), ReplaceEvent::Done) => r.state is Finished && r.action is Stop,
        (ReplaceState::Placing(place), ReplaceEvent::Failed(e)) => {
            &&& r.state matches ReplaceState::CleaningUp(kept)
            &&& kept@ == "link_torrent: "@ + e@
            &&& r.action matches ReplaceAction::CleanUp(steps)
            &&& crate::linker::relink::cleanup_of(steps@) == (match crate::model::path_of(
                place.dir,
            ) {
                Some(dir) => crate::linker::relink::leftovers(place.plans@, dir),
                None => seq![],
            })
        },
        (ReplaceState::CleaningUp(e), ReplaceEvent::Done)
        | (ReplaceState::CleaningUp(e), ReplaceEvent::Failed(_)) => r.state
            == ReplaceState::Loading(e) && r.action is Load,
        (ReplaceState::Loading(e), ReplaceEvent::Loaded(Some(t))) => {
            &&& r.state == ReplaceState::Clearing(e)
            &&& r.action matches ReplaceAction::Save(cleared)
            &&& cleared@ == crate::linker::relink::forgotten(t@)
        },
        (ReplaceState::Loading(e), ReplaceEvent::Loaded(None)) => replace_fails(r, e@),
        (ReplaceState::Loading(e), ReplaceEvent::Failed(_)) => replace_fails(r, e@),
        (ReplaceState::Clearing(e), ReplaceEvent::Done)
        | (ReplaceState::Clearing(e), ReplaceEvent::Failed(_)) => replace_fails(r, e@),
        _ => r.state is Finished && r.action is Ignore,
    }
}

fn replace_error(message: String) -> (r: ReplaceStep)
    ensures
        replace_fails(r, message@),
{
    ReplaceStep { state: ReplaceState::Finished, action: ReplaceAction::Fail(message) }
}

/// The next step in replacing a relinked book's files.
pub fn replace_step(p: &Replacement, state: ReplaceState, event: ReplaceEvent) -> (r: ReplaceStep)
    requires
        has_replace_names(*p, event),
    ensures
        replaces_on(*p, state, event, r),
{
    match (state, event) {
        (ReplaceState::Start, ReplaceEvent::Begin) => ReplaceStep {
            state: ReplaceState::Removing,
            action: ReplaceAction::Remove,
        },
        (ReplaceState::Removing, ReplaceEvent::Failed(e)) => replace_error(
            concat("removing previous library files: ", e.as_str()),
        ),
        (ReplaceState::Removing, ReplaceEvent::Removed { dir_exists }) => match book_place(
            p.config,
            p.qbit_config,
            p.torrent,
            p.library,
            p.files,
            p.audio,
            p.ebook,
            p.meta,
            dir_exists,
        ) {
            Ok(place) => {
                let copy = place.clone();
                ReplaceStep {
                    state: ReplaceState::Placing(copy),
                    action: ReplaceAction::Place(place),
                }
            },
            Err(e) => replace_error(e.message()),
        },
        (ReplaceState::Placing(_), ReplaceEvent::Done) => ReplaceStep {
            state: ReplaceState::Finished,
            action: ReplaceAction::Stop,
        },
        (ReplaceState::Placing(place), ReplaceEvent::Failed(e)) => ReplaceStep {
            state: ReplaceState::CleaningUp(concat("link_torrent: ", e.as_str())),
            action: ReplaceAction::CleanUp(rollback_failed_relink(&place.dir, &place.plans)),
        },
        (ReplaceState::CleaningUp(e), ReplaceEvent::Done)
        | (ReplaceState::CleaningUp(e), ReplaceEvent::Failed(_)) => ReplaceStep {
            state: ReplaceState::Loading(e),
            action: ReplaceAction::Load,
        },
        (ReplaceState::Loading(e), ReplaceEvent::Loaded(Some(t))) => {
            let mut cleared = t;
            clear_torrent_link_state(&mut cleared);
            ReplaceStep { state: ReplaceState::Clearing(e), action: ReplaceAction::Save(cleared) }
        },
        (ReplaceState::Loading(e), ReplaceEvent::Loaded(None)) => replace_error(e),
        (ReplaceState::Loading(e), ReplaceEvent::Failed(_)) => replace_error(e),
        (ReplaceState::Clearing(e), ReplaceEvent::Done)
        | (ReplaceState::Clearing(e), ReplaceEvent::Failed(_)) => replace_error(e),
        _ => ReplaceStep { state: ReplaceState::Finished, action: ReplaceAction::Ignore },
    }
}

/// The event is one that a state waits for.
pub open spec fn is_awaited(state: ReplaceState, event: ReplaceEvent) -> bool {
    match state {
        ReplaceState::Start => event is Begin,
        ReplaceState::Removing => event is Removed || event is Failed,
        ReplaceState::Placing(_) => event is Done || event is Failed,
        ReplaceState::CleaningUp(_) => event is Done || event is Failed,
        ReplaceState::Loading(_) => event is Loaded || event is Failed,
        ReplaceState::Clearing(_) => event is Done || event is Failed,
        ReplaceState::Finished => false,
    }
}

/// How many steps are left at most.
pub open spec fn replace_steps_left(state: ReplaceState) -> int {
    match state {
        ReplaceState::Start => 6,
        ReplaceState::Removing => 5,
        ReplaceState::Placing(_) => 4,
        ReplaceState::CleaningUp(_) => 3,
        ReplaceState::Loading(_) => 2,
        ReplaceState::Clearing(_) => 1,
        ReplaceState::Finished => 0,
    }
}

/// A placing that failed is undone, and its error is the one that is reported:
/// each step keeps the error until the one that reports it, and none takes the
/// failure back. Every step leads on, so that one comes.
pub proof fn placing_error_is_reported(
    p: Replacement,
    state: ReplaceState,
    event: ReplaceEvent,
    r: ReplaceStep,
)
    requires
        is_awaited(state, event),
        replaces_on(p, state, event, r),
    ensures
        replace_steps_left(r.state) < replace_steps_left(state),
        state matches ReplaceState::Placing(_) ==> (event matches ReplaceEvent::Failed(e)
            ==> placing_error(r.state) == Some("link_torrent: "@ + e@)),
        placing_error(state) matches Some(e) ==> placing_error(r.state) == Some(e)
            || replace_fails(r, e),
{
}

/// Nothing is undone unless a placing failed.
pub proof fn only_a_failed_placing_is_undone(
    p: Replacement,
    state: ReplaceState,
    event: ReplaceEvent,
    r: ReplaceStep,
)
    requires
        replaces_on(p, state, event, r),
        r.action is CleanUp || r.action is Load || r.action is Save,
    ensures
        placing_error(state) is Some || (state is Placing && event is Failed),
{
}

/// A relink whose placing fails, and whose undoing goes well, in one: the steps
/// remove what the placing left, the record is the one that was there but for
/// where the book was, and the error is the placing's.
pub proof fn failed_relink_is_undone(
    p: Replacement,
    place: BookPlace,
    error: String,
    kept: Torrent,
    first: ReplaceStep,
    second: ReplaceStep,
    third: ReplaceStep,
    fourth: ReplaceStep,
)
    requires
        replaces_on(
            p,
            ReplaceState::Placing(place),
            ReplaceEvent::Failed(error),
            first,
        ),
        replaces_on(p, first.state, ReplaceEvent::Done, second),
        replaces_on(p, second.state, ReplaceEvent::Loaded(Some(kept)), third),
        replaces_on(p, third.state, ReplaceEvent::Done, fourth),
    ensures
        first.action matches ReplaceAction::CleanUp(steps) && (place.dir matches Some(dir)
            ==> crate::linker::relink::cleanup_of(steps@) == crate::linker::relink::leftovers(
            place.plans@,
            dir@,
        )),
        third.action matches ReplaceAction::Save(t) && t@ == crate::linker::relink::forgotten(kept@),
        replace_fails(fourth, "link_torrent: "@ + error@),
{
}

} // verus!
