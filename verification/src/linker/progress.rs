//! The course of linking one torrent: what to ask of the database, the client
//! and the tracker next, and what to do with the answers.
use vstd::prelude::*;

use crate::linker::relink::{merge_meta, wanted_formats, LinkError};
use crate::linker::torrent::{check_torrent_updates, find_library_index};
use crate::model::{
    Config, Event, Library, LibraryLinkMethod, QbitConfig, QbitTorrent, QbitUpdate, Torrent,
    TorrentContent, TorrentMeta, TorrentView, Tracker,
};
use crate::text::{clone_texts, same_text};

verus! {

/// How far the linking of a torrent has come.
pub enum LinkState {
    /// The client lists the torrent.
    Listed,
    /// The torrent's records are being loaded.
    Loading,
    /// The library and the category in the torrent's record are being written.
    Naming(Torrent),
    /// The torrent's trackers are being asked for.
    Tracking(Torrent),
    /// The torrent's record is being written.
    Saving(Torrent),
    /// Nothing is left to do here.
    Finished,
}

/// How many steps lie behind a torrent at least.
pub open spec fn link_stage(state: LinkState) -> int {
    match state {
        LinkState::Listed => 0,
        LinkState::Loading => 1,
        LinkState::Naming(_) => 2,
        LinkState::Tracking(_) => 3,
        LinkState::Saving(_) => 4,
        LinkState::Finished => 5,
    }
}

/// What was learned.
pub enum LinkEvent {
    /// The client lists the torrent, with its download finished or not.
    Found { finished: bool },
    /// The torrent's record, if there is one, and whether it is among the
    /// torrents selected for download.
    Loaded { existing: Option<Torrent>, selected: bool },
    /// The torrent's trackers; `None` where the client did not tell.
    Trackers(Option<Vec<Tracker>>),
    /// The record and the history were written.
    Saved,
}

/// What to do next.
pub enum LinkAction {
    /// Leave the torrent as it is.
    Skip,
    /// Leave this torrent and those that follow, and report the client's error.
    Abort,
    /// Load the torrent's records.
    Load,
    /// Ask the client for the torrent's trackers.
    FetchTrackers,
    /// Write the record, where it has changed, and the history.
    Save { torrent: Option<Torrent>, events: Vec<Event> },
    /// Match the torrent, and link it into the library at the given place.
    Match { library: usize, existing: Option<Torrent> },
}

/// A step in linking a torrent.
pub struct LinkStep {
    pub state: LinkState,
    /// The torrent is no longer one that waits for its download.
    pub remove_selected: bool,
    pub action: LinkAction,
}

pub open spec fn torrent_of(o: Option<Torrent>) -> Option<TorrentView> {
    match o {
        Some(t) => Some(t@),
        None => None,
    }
}

/// The library that takes the torrent.
pub open spec fn taker(config: Config, t: QbitTorrent) -> Option<int> {
    crate::linker::torrent::library_index(config.libraries@, t)
}

/// A library, given by its place, as an update sees it.
pub open spec fn taker_view(config: Config, library: Option<int>) -> Option<
    crate::linker::torrent::LibraryView,
> {
    match library {
        Some(i) => crate::linker::torrent::library_view(Some(&config.libraries@[i])),
        None => None,
    }
}

/// The library to link a torrent into: the one that takes it, unless the
/// torrent is linked or replaced already, or it is known and the library only
/// keeps records.
pub open spec fn library_to_link(
    config: Config,
    library: Option<int>,
    existing: Option<TorrentView>,
) -> Option<int> {
    if existing matches Some(e) && (e.library_path is Some || e.replaced_with is Some) {
        None
    } else {
        match library {
            Some(i) if config.libraries@[i].opts().method == LibraryLinkMethod::NoLink
                && existing is Some => None,
            o => o,
        }
    }
}

/// A torrent that is linked or replaced is not linked anew.
pub proof fn linked_torrent_is_left(config: Config, library: Option<int>, existing: TorrentView)
    requires
        existing.library_path is Some || existing.replaced_with is Some,
    ensures
        library_to_link(config, library, Some(existing)) is None,
{
}

/// A torrent that some library takes is linked into that library, unless it is
/// linked or replaced already, or it is known and the library only keeps
/// records; where no library takes it, it is linked nowhere.
pub proof fn unlinked_torrent_is_linked(config: Config, library: int, existing: Option<TorrentView>)
    requires
        existing matches Some(e) ==> e.library_path is None && e.replaced_with is None,
    ensures
        existing is None || config.libraries@[library].opts().method != LibraryLinkMethod::NoLink
            ==> library_to_link(config, Some(library), existing) == Some(library),
        existing is Some && config.libraries@[library].opts().method == LibraryLinkMethod::NoLink
            ==> library_to_link(config, Some(library), existing) is None,
        library_to_link(config, None, existing) is None,
{
}

/// The step that ends in linking the torrent, or in leaving it.
pub open spec fn decides(
    config: Config,
    library: Option<int>,
    existing: Option<TorrentView>,
    r: LinkStep,
) -> bool {
    r.state is Finished && match library_to_link(config, library, existing) {
        Some(i) => r.action matches LinkAction::Match { library: l, existing: e } && l == i
            && torrent_of(e) == existing,
        None => r.action is Skip,
    }
}

/// The step that brings the record up to date. `mam_id` is the tracker's id
/// that the history gives for a torrent that the tracker dropped.
pub open spec fn saves(
    config: Config,
    t: QbitTorrent,
    library: Option<int>,
    existing: TorrentView,
    trackers: Seq<Tracker>,
    mam_id: Option<u64>,
    r: LinkStep,
) -> bool {
    let updated = crate::linker::torrent::updated_torrent(
        config.exclude_narrator_in_library_dir,
        taker_view(config, library),
        t.category@,
        trackers,
        existing,
    );
    &&& r.state matches LinkState::Saving(s) && s@ == updated
    &&& r.action matches LinkAction::Save { torrent, events } && torrent_of(torrent) == (
    if crate::linker::torrent::is_changed(existing, updated) {
        Some(updated)
    } else {
        None
    }) && events@.map_values(|e: Event| e@)
        == crate::linker::torrent::removal_events(existing.client_status, trackers, t.hash@, mam_id)
}

/// The record that a step brings up to date has the directory names that the
/// update looks at.
pub open spec fn has_step_dirs(
    config: Config,
    t: QbitTorrent,
    state: LinkState,
    event: LinkEvent,
) -> bool {
    let exclude = config.exclude_narrator_in_library_dir;
    match (state, event) {
        (LinkState::Loading, LinkEvent::Loaded { existing: Some(e), .. }) => e.client_status is Some
            ==> crate::linker::torrent::has_update_dirs(
                exclude,
                taker_view(config, taker(config, t)),
                e@,
            ),
        (
            LinkState::Tracking(e),
            LinkEvent::Trackers(Some(_)),
        ) => crate::linker::torrent::has_update_dirs(
                exclude,
                taker_view(config, taker(config, t)),
                e@,
            ),
        _ => true,
    }
}

pub open spec fn place_of(o: Option<usize>) -> Option<int> {
    match o {
        Some(i) => Some(i as int),
        None => None,
    }
}

/// Links a torrent into the library at a place, or leaves it.
pub(crate) fn decide(config: &Config, library: Option<usize>, existing: Option<Torrent>) -> (r:
    LinkStep)
    requires
        library matches Some(i) ==> i < config.libraries@.len(),
    ensures
        decides(*config, place_of(library), torrent_of(existing), r),
        !r.remove_selected,
{
    let skip = match &existing {
        Some(t) => t.library_path.is_some() || t.replaced_with.is_some(),
        None => false,
    };
    if skip {
        return LinkStep {
            state: LinkState::Finished,
            remove_selected: false,
            action: LinkAction::Skip,
        };
    }
    match library {
        Some(i) => {
            if config.libraries[i].options().method == LibraryLinkMethod::NoLink
                && existing.is_some() {
                return LinkStep {
                    state: LinkState::Finished,
                    remove_selected: false,
                    action: LinkAction::Skip,
                };
            }
            LinkStep {
                state: LinkState::Finished,
                remove_selected: false,
                action: LinkAction::Match { library: i, existing },
            }
        },
        None => LinkStep {
            state: LinkState::Finished,
            remove_selected: false,
            action: LinkAction::Skip,
        },
    }
}

/// Brings the record of a torrent up to date.
pub(crate) fn save(
    config: &Config,
    torrent: &QbitTorrent,
    library: Option<usize>,
    existing: Torrent,
    trackers: &Vec<Tracker>,
) -> (r: LinkStep)
    requires
        library matches Some(i) ==> i < config.libraries@.len(),
        crate::linker::torrent::has_update_dirs(
            config.exclude_narrator_in_library_dir,
            taker_view(*config, place_of(library)),
            existing@,
        ),
    ensures
        saves(*config, *torrent, place_of(library), existing@, trackers@, None, r),
        !r.remove_selected,
{
    let taker: Option<&Library> = match library {
        Some(i) => Some(&config.libraries[i]),
        None => None,
    };
    let mut updated = existing;
    let update = check_torrent_updates(&mut updated, torrent, taker, config, trackers);
    let written = if update.changed {
        Some(updated.clone())
    } else {
        None
    };
    LinkStep {
        state: LinkState::Saving(updated),
        remove_selected: false,
        action: LinkAction::Save { torrent: written, events: update.events },
    }
}

/// The next step in linking a torrent. A torrent that is not finished is left;
/// one that is finished no longer waits for its download; the record of one
/// that is known is brought up to date first; and it is linked unless it is
/// linked or replaced already or no library takes it. Every step leads on, so
/// the linking of a torrent comes to an end.
pub fn link_step(config: &Config, torrent: &QbitTorrent, state: LinkState, event: LinkEvent) -> (r:
    LinkStep)
    requires
        has_step_dirs(*config, *torrent, state, event),
    ensures
        match (state, event) {
            (LinkState::Listed, LinkEvent::Found { finished }) => if finished {
                r.state is Loading && r.action is Load && !r.remove_selected
            } else {
                r.state is Finished && r.action is Skip && !r.remove_selected
            },
            (LinkState::Loading, LinkEvent::Loaded { existing, selected }) => r.remove_selected
                == selected && match existing {
                None => decides(*config, taker(*config, *torrent), None, r),
                Some(e) => if e.client_status is None {
                    r.action is FetchTrackers && (r.state matches LinkState::Tracking(t) && t == e)
                } else {
                    saves(*config, *torrent, taker(*config, *torrent), e@, seq![], None, r)
                },
            },
            (LinkState::Tracking(e), LinkEvent::Trackers(trackers)) => !r.remove_selected
                && match trackers {
                None => r.state is Finished && r.action is Skip,
                Some(v) => saves(*config, *torrent, taker(*config, *torrent), e@, v@, None, r),
            },
            (LinkState::Saving(e), LinkEvent::Saved) => !r.remove_selected && decides(
                *config,
                taker(*config, *torrent),
                Some(e@),
                r,
            ),
            _ => r.state is Finished && r.action is Skip && !r.remove_selected,
        },
        state is Finished || link_stage(r.state) > link_stage(state),
{
    let library = find_library_index(config, torrent);
    match (state, event) {
        (LinkState::Listed, LinkEvent::Found { finished }) => {
            if finished {
                LinkStep {
                    state: LinkState::Loading,
                    remove_selected: false,
                    action: LinkAction::Load,
                }
            } else {
                LinkStep {
                    state: LinkState::Finished,
                    remove_selected: false,
                    action: LinkAction::Skip,
                }
            }
        },
        (LinkState::Loading, LinkEvent::Loaded { existing, selected }) => {
            let step = match existing {
                None => decide(config, library, None),
                Some(e) => {
                    if e.client_status.is_none() {
                        LinkStep {
                            state: LinkState::Tracking(e),
                            remove_selected: false,
                            action: LinkAction::FetchTrackers,
                        }
                    } else {
                        save(config, torrent, library, e, &Vec::new())
                    }
                },
            };
            LinkStep { state: step.state, remove_selected: selected, action: step.action }
        },
        (LinkState::Tracking(e), LinkEvent::Trackers(trackers)) => match trackers {
            None => LinkStep {
                state: LinkState::Finished,
                remove_selected: false,
                action: LinkAction::Skip,
            },
            Some(v) => save(config, torrent, library, e, &v),
        },
        (LinkState::Saving(e), LinkEvent::Saved) => decide(config, library, Some(e)),
        _ => LinkStep {
            state: LinkState::Finished,
            remove_selected: false,
            action: LinkAction::Skip,
        },
    }
}

/// A change to a torrent in the client.
#[derive(Debug, PartialEq)]
pub enum ClientStep {
    EnsureCategory(String),
    SetCategory(String),
    AddTags(Vec<String>),
}

#[verifier::ext_equal]
pub enum ClientStepView {
    EnsureCategory(Seq<char>),
    SetCategory(Seq<char>),
    AddTags(Seq<Seq<char>>),
}

impl View for ClientStep {
    type V = ClientStepView;

    open spec fn view(&self) -> ClientStepView {
        match self {
            ClientStep::EnsureCategory(c) => ClientStepView::EnsureCategory(c@),
            ClientStep::SetCategory(c) => ClientStepView::SetCategory(c@),
            ClientStep::AddTags(t) => ClientStepView::AddTags(crate::text::texts(t@)),
        }
    }
}

pub open spec fn client_steps_of(v: Seq<ClientStep>) -> Seq<ClientStepView> {
    v.map_values(|s: ClientStep| s@)
}

/// The changes for a torrent that the tracker does not know: its category, once
/// that exists, and its tags.
pub open spec fn invalid_steps(update: Option<QbitUpdate>) -> Seq<ClientStepView> {
    match update {
        None => seq![],
        Some(u) => (match u.category {
            Some(c) => seq![
                ClientStepView::EnsureCategory(c@),
                ClientStepView::SetCategory(c@),
            ],
            None => seq![],
        }) + (if u.tags@.len() > 0 {
            seq![ClientStepView::AddTags(crate::text::texts(u.tags@))]
        } else {
            seq![]
        }),
    }
}

/// An invalid torrent gets the category and the tags that are configured for it
/// and nothing else; the category is made sure of before it is set.
pub proof fn invalid_torrent_is_marked(u: QbitUpdate)
    ensures
        invalid_steps(None).len() == 0,
        ({
            let steps = invalid_steps(Some(u));
            &&& u.category matches Some(c) ==> steps.len() >= 2 && steps[0]
                == ClientStepView::EnsureCategory(c@) && steps[1] == ClientStepView::SetCategory(
                c@,
            )
            &&& u.tags@.len() > 0 ==> steps.len() > 0 && steps.last() == ClientStepView::AddTags(
                crate::text::texts(u.tags@),
            )
            &&& steps.len() == (if u.category is Some {
                2int
            } else {
                0int
            }) + (if u.tags@.len() > 0 {
                1int
            } else {
                0int
            })
        }),
{
}

/// The changes for a torrent that the tracker does not know.
pub fn handle_invalid_torrent(on_invalid_torrent: &Option<QbitUpdate>) -> (r: Vec<ClientStep>)
    ensures
        client_steps_of(r@) == invalid_steps(*on_invalid_torrent),
{
    let mut r: Vec<ClientStep> = Vec::new();
    match on_invalid_torrent {
        Some(u) => {
            match &u.category {
                Some(c) => {
                    r.push(ClientStep::EnsureCategory(c.clone()));
                    r.push(ClientStep::SetCategory(c.clone()));
                },
                None => {},
            }
            if u.tags.len() > 0 {
                r.push(ClientStep::AddTags(clone_texts(&u.tags)));
            }
        },
        None => {},
    }
    assert(client_steps_of(r@) == invalid_steps(*on_invalid_torrent));
    r
}

/// Why the tracker's description of a torrent could not be read.
#[derive(Debug, PartialEq)]
pub enum MetaProblem {
    UnknownMediaType(String),
    Other(String),
}

/// How far the matching of a torrent has come.
pub enum MatchState {
    /// The torrent's files are being asked for.
    Files { existing: Option<Torrent> },
    /// The tracker is being asked for the torrent.
    Mam { audio: Option<String>, ebook: Option<String>, existing: Option<Torrent> },
    /// The record under the tracker's id is being looked up.
    Old { audio: Option<String>, ebook: Option<String> },
    /// The tracker's description is being read.
    Meta { audio: Option<String>, ebook: Option<String>, existing: Option<Torrent> },
    /// The torrent is matched, or cannot be.
    Finished,
}

/// How many steps lie behind a torrent at least.
pub open spec fn match_stage(state: MatchState) -> int {
    match state {
        MatchState::Files { .. } => 0,
        MatchState::Mam { .. } => 1,
        MatchState::Old { .. } => 2,
        MatchState::Meta { .. } => 3,
        MatchState::Finished => 4,
    }
}

/// What was learned of a torrent that is being matched.
pub enum MatchEvent {
    Files(Vec<TorrentContent>),
    /// The tracker's id of the torrent; `None` where it does not know it.
    Mam(Option<u64>),
    /// The record that has the tracker's id.
    Old(Option<Torrent>),
    Meta(Result<TorrentMeta, MetaProblem>),
}

/// What to do next with a torrent that is being matched.
pub enum MatchAction {
    /// Ask the tracker for the torrent.
    AskMam,
    /// Look up the record that has the tracker's id.
    LookUpMamId(u64),
    /// Read the tracker's description.
    ReadMeta,
    /// Link the files of the formats.
    Link {
        audio: Option<String>,
        ebook: Option<String>,
        existing: Option<Torrent>,
        meta: TorrentMeta,
    },
    /// Make the changes in the client, then report the error.
    Fail { client: Vec<ClientStep>, error: LinkError },
    /// The event does not belong to the state.
    Ignore,
}

/// A step in matching a torrent.
pub struct MatchStep {
    pub state: MatchState,
    /// A record under another id, which is to be removed.
    pub remove: Option<Torrent>,
    pub action: MatchAction,
}

pub open spec fn match_fails(
    client: Seq<ClientStepView>,
    error: LinkError,
    r: MatchStep,
) -> bool {
    r.state is Finished && r.remove is None && (r.action matches MatchAction::Fail {
        client: c,
        error: e,
    } && client_steps_of(c@) == client && e == error)
}

/// The metadata to link a torrent with: what the tracker says, with the
/// identifiers of the earlier record.
pub open spec fn meta_to_link(
    existing: Option<TorrentView>,
    meta: crate::model::MetaView,
) -> crate::model::MetaView {
    match existing {
        Some(t) => crate::linker::relink::merged_meta(t.meta, meta),
        None => meta,
    }
}

fn fail(client: Vec<ClientStep>, error: LinkError) -> (r: MatchStep)
    ensures
        match_fails(client_steps_of(client@), error, r),
{
    MatchStep {
        state: MatchState::Finished,
        remove: None,
        action: MatchAction::Fail { client, error },
    }
}

/// The step in matching a torrent with the tracker's description of it.
pub open spec fn matches_on(
    config: Config,
    qbit_config: QbitConfig,
    hash: Seq<char>,
    library: Library,
    state: MatchState,
    event: MatchEvent,
    r: MatchStep,
) -> bool {
    match (state, event) {
        (MatchState::Files { existing }, MatchEvent::Files(files)) => {
            let names = crate::linker::common::lower_names(files@);
            let audio = crate::linker::common::selected_format(
                crate::linker::common::formats_in_force(
                    library.opts().audio_types,
                    config.audio_types@,
                ),
                names,
            );
            let ebook = crate::linker::common::selected_format(
                crate::linker::common::formats_in_force(
                    library.opts().ebook_types,
                    config.ebook_types@,
                ),
                names,
            );
            if audio is None && ebook is None {
                match_fails(seq![], LinkError::NoWantedFormat, r)
            } else {
                r.action is AskMam && r.remove is None && (r.state matches MatchState::Mam {
                    audio: a,
                    ebook: e,
                    existing: x,
                } && crate::text::text_of(a) == audio && crate::text::text_of(e) == ebook && x
                    == existing)
            }
        },
        (MatchState::Mam { audio, ebook, existing }, MatchEvent::Mam(found)) => match found {
            None => match_fails(
                invalid_steps(qbit_config.on_invalid_torrent),
                LinkError::NotOnMam,
                r,
            ),
            Some(id) => r.remove is None && match existing {
                None => (r.action matches MatchAction::LookUpMamId(i) && i == id) && (r.state
                    matches MatchState::Old { audio: a, ebook: e } && a == audio && e == ebook),
                Some(_) => r.action is ReadMeta && (r.state matches MatchState::Meta {
                    audio: a,
                    ebook: e,
                    existing: x,
                } && a == audio && e == ebook && x == existing),
            },
        },
        (MatchState::Old { audio, ebook }, MatchEvent::Old(old)) => r.action is ReadMeta && (
        r.state matches MatchState::Meta { audio: a, ebook: e, existing: x } && a == audio && e
            == ebook && x == old) && torrent_of(r.remove) == (match old {
            Some(t) if t.id@ != hash => Some(t@),
            _ => None,
        }),
        (MatchState::Meta { audio, ebook, existing }, MatchEvent::Meta(Ok(meta))) => r.state
            is Finished && r.remove is None && (r.action matches MatchAction::Link {
            audio: a,
            ebook: e,
            existing: x,
            meta: m,
        } && a == audio && e == ebook && x == existing && m@ == meta_to_link(
            torrent_of(existing),
            meta@,
        )),
        (
            MatchState::Meta { .. },
            MatchEvent::Meta(Err(MetaProblem::UnknownMediaType(text))),
        ) => match_fails(
            invalid_steps(qbit_config.on_invalid_torrent),
            LinkError::UnknownMediaType(text),
            r,
        ),
        (MatchState::Meta { .. }, MatchEvent::Meta(Err(MetaProblem::Other(text)))) => match_fails(
            seq![],
            LinkError::BadMeta(text),
            r,
        ),
        _ => r.state is Finished && r.remove is None && r.action is Ignore,
    }
}

/// The next step in matching a torrent with the tracker's description of it.
/// Every step leads on, so the matching comes to an end.
pub fn match_step(
    config: &Config,
    qbit_config: &QbitConfig,
    hash: &str,
    library: &Library,
    state: MatchState,
    event: MatchEvent,
) -> (r: MatchStep)
    ensures
        matches_on(*config, *qbit_config, hash@, *library, state, event, r),
        state is Finished || match_stage(r.state) > match_stage(state),
{
    match (state, event) {
        (MatchState::Files { existing }, MatchEvent::Files(files)) => match wanted_formats(
            config,
            library,
            &files,
        ) {
            Ok((audio, ebook)) => MatchStep {
                state: MatchState::Mam { audio, ebook, existing },
                remove: None,
                action: MatchAction::AskMam,
            },
            Err(error) => {
                let none: Vec<ClientStep> = Vec::new();
                assert(client_steps_of(none@) == Seq::<ClientStepView>::empty());
                fail(none, error)
            },
        },
        (MatchState::Mam { audio, ebook, existing }, MatchEvent::Mam(found)) => match found {
            None => fail(
                handle_invalid_torrent(&qbit_config.on_invalid_torrent),
                LinkError::NotOnMam,
            ),
            Some(id) => {
                if existing.is_none() {
                    MatchStep {
                        state: MatchState::Old { audio, ebook },
                        remove: None,
                        action: MatchAction::LookUpMamId(id),
                    }
                } else {
                    MatchStep {
                        state: MatchState::Meta { audio, ebook, existing },
                        remove: None,
                        action: MatchAction::ReadMeta,
                    }
                }
            },
        },
        (MatchState::Old { audio, ebook }, MatchEvent::Old(old)) => {
            let remove = match &old {
                Some(t) => {
                    if same_text(t.id.as_str(), hash) {
                        None
                    } else {
                        Some(t.clone())
                    }
                },
                None => None,
            };
            MatchStep {
                state: MatchState::Meta { audio, ebook, existing: old },
                remove,
                action: MatchAction::ReadMeta,
            }
        },
        (MatchState::Meta { audio, ebook, existing }, MatchEvent::Meta(result)) => match result {
            Ok(meta) => {
                let merged = match &existing {
                    Some(t) => merge_meta(&t.meta, meta),
                    None => meta,
                };
                MatchStep {
                    state: MatchState::Finished,
                    remove: None,
                    action: MatchAction::Link { audio, ebook, existing, meta: merged },
                }
            },
            Err(MetaProblem::UnknownMediaType(text)) => fail(
                handle_invalid_torrent(&qbit_config.on_invalid_torrent),
                LinkError::UnknownMediaType(text),
            ),
            Err(MetaProblem::Other(text)) => {
                let none: Vec<ClientStep> = Vec::new();
                assert(client_steps_of(none@) == Seq::<ClientStepView>::empty());
                fail(none, LinkError::BadMeta(text))
            },
        },
        _ => MatchStep {
            state: MatchState::Finished,
            remove: None,
            action: MatchAction::Ignore,
        },
    }
}

/// What a known torrent is linked with, from the list of its files to the link:
/// the most wanted formats that its files have, of which there is at least one,
/// the record that was known, and the metadata that was read, with the
/// identifiers that the record held.
pub proof fn known_torrent_is_linked_with_what_was_found(
    config: Config,
    qbit_config: QbitConfig,
    hash: Seq<char>,
    library: Library,
    known: Torrent,
    files: Vec<TorrentContent>,
    id: u64,
    meta: crate::model::TorrentMeta,
    first: MatchStep,
    second: MatchStep,
    third: MatchStep,
)
    requires
        matches_on(
            config,
            qbit_config,
            hash,
            library,
            MatchState::Files { existing: Some(known) },
            MatchEvent::Files(files),
            first,
        ),
        first.action is AskMam,
        matches_on(
            config,
            qbit_config,
            hash,
            library,
            first.state,
            MatchEvent::Mam(Some(id)),
            second,
        ),
        matches_on(
            config,
            qbit_config,
            hash,
            library,
            second.state,
            MatchEvent::Meta(Ok(meta)),
            third,
        ),
    ensures
        third.action matches MatchAction::Link { audio, ebook, existing, meta: m } && {
            let names = crate::linker::common::lower_names(files@);
            &&& audio is Some || ebook is Some
            &&& crate::text::text_of(audio) == crate::linker::common::selected_format(
                crate::linker::common::formats_in_force(
                    library.opts().audio_types,
                    config.audio_types@,
                ),
                names,
            )
            &&& crate::text::text_of(ebook) == crate::linker::common::selected_format(
                crate::linker::common::formats_in_force(
                    library.opts().ebook_types,
                    config.ebook_types@,
                ),
                names,
            )
            &&& existing == Some(known)
            &&& m@.title == meta@.title
            &&& m@.authors == meta@.authors
            &&& m@.narrators == meta@.narrators
            &&& m@.series == meta@.series
            &&& m@.edition == meta@.edition
            &&& forall|k: Seq<char>| #[trigger]
                known@.meta.ids.contains_key(k) ==> m@.ids.contains_key(k)
            &&& forall|k: Seq<char>| #[trigger]
                meta@.ids.contains_key(k) ==> m@.ids.contains_key(k) && m@.ids[k] == meta@.ids[k]
        },
        first.remove is None,
        second.remove is None,
        third.remove is None,
{
    crate::linker::relink::merge_takes_over_what_was_fetched(known@.meta, meta@);
    crate::linker::relink::merge_keeps_ids(known@.meta, meta@);
}

/// What a torrent that is new is linked with: the metadata that was read, and,
/// where the tracker's id is known under another torrent, that torrent's record,
/// which is removed, with its identifiers.
pub proof fn new_torrent_takes_over_old_record(
    config: Config,
    qbit_config: QbitConfig,
    hash: Seq<char>,
    library: Library,
    audio: Option<String>,
    ebook: Option<String>,
    id: u64,
    old_record: Option<Torrent>,
    meta: crate::model::TorrentMeta,
    first: MatchStep,
    second: MatchStep,
    third: MatchStep,
)
    requires
        matches_on(
            config,
            qbit_config,
            hash,
            library,
            MatchState::Mam { audio, ebook, existing: None },
            MatchEvent::Mam(Some(id)),
            first,
        ),
        matches_on(
            config,
            qbit_config,
            hash,
            library,
            first.state,
            MatchEvent::Old(old_record),
            second,
        ),
        matches_on(
            config,
            qbit_config,
            hash,
            library,
            second.state,
            MatchEvent::Meta(Ok(meta)),
            third,
        ),
    ensures
        first.action == MatchAction::LookUpMamId(id),
        second.remove is Some <==> (old_record matches Some(t) && t.id@ != hash),
        second.remove matches Some(t) ==> t@ == old_record.unwrap()@,
        third.action matches MatchAction::Link { audio: a, ebook: e, existing, meta: m } && {
            &&& a == audio
            &&& e == ebook
            &&& existing == old_record
            &&& old_record is None ==> m@ == meta@
            &&& m@.title == meta@.title
            &&& old_record matches Some(t) ==> forall|k: Seq<char>| #[trigger]
                t@.meta.ids.contains_key(k) ==> m@.ids.contains_key(k)
        },
{
    match old_record {
        Some(t) => {
            crate::linker::relink::merge_keeps_ids(t@.meta, meta@);
        },
        None => {},
    }
}

/// A torrent that cannot be matched is not linked: without a wanted format, when
/// the tracker does not know it, and when its metadata cannot be read. The
/// client is told of one that the tracker does not know, and of one whose kind
/// of media is not known, and of no other.
pub proof fn unmatched_torrent_is_not_linked(
    config: Config,
    qbit_config: QbitConfig,
    hash: Seq<char>,
    library: Library,
    state: MatchState,
    event: MatchEvent,
    r: MatchStep,
)
    requires
        matches_on(config, qbit_config, hash, library, state, event, r),
        event == MatchEvent::Mam(None) || event is Meta && event->Meta_0 is Err || (event is Files
            && r.action is Fail),
    ensures
        !(r.action is Link),
        r.action matches MatchAction::Fail { client, error } ==> {
            &&& r.state is Finished
            &&& event is Files ==> client@.len() == 0 && error == LinkError::NoWantedFormat
            &&& event is Mam ==> client_steps_of(client@) == invalid_steps(
                qbit_config.on_invalid_torrent,
            ) && error == LinkError::NotOnMam
            &&& event is Meta ==> (event->Meta_0->Err_0 is UnknownMediaType ==> client_steps_of(
                client@,
            ) == invalid_steps(qbit_config.on_invalid_torrent)) && (event->Meta_0->Err_0 is Other
                ==> client@.len() == 0)
        },
{
    match r.action {
        MatchAction::Fail { client, error } => {
            assert(client_steps_of(client@).len() == client@.len());
        },
        _ => {},
    }
}

/// What is decided of a torrent: one that a library takes, and that is new or
/// not linked yet, is handed on with that library and with what is known of it;
/// one that no library takes, or that is linked already, is skipped.
pub proof fn torrent_is_matched_or_skipped(
    config: Config,
    library: Option<int>,
    existing: Option<TorrentView>,
    r: LinkStep,
)
    requires
        decides(config, library, existing, r),
    ensures
        r.state is Finished,
        (library matches Some(i) && existing is None) ==> (r.action matches LinkAction::Match {
            library: l,
            existing: e,
        } && l == library.unwrap() && e is None),
        (library matches Some(i) && existing matches Some(e) && e.library_path is None
            && e.replaced_with is None && config.libraries@[i].opts().method
            != LibraryLinkMethod::NoLink) ==> (r.action matches LinkAction::Match {
            library: l,
            existing: x,
        } && l == library.unwrap() && torrent_of(x) == existing),
        library is None ==> r.action is Skip,
        existing matches Some(e) && (e.library_path is Some || e.replaced_with is Some) ==> r.action
            is Skip,
{
}

/// What is saved of a known torrent: the record brought up to date, if that made
/// it another one, and nothing else; the course goes on with that record.
pub proof fn changed_record_is_saved(
    config: Config,
    t: QbitTorrent,
    library: Option<int>,
    existing: TorrentView,
    trackers: Seq<Tracker>,
    mam_id: Option<u64>,
    r: LinkStep,
)
    requires
        saves(config, t, library, existing, trackers, mam_id, r),
    ensures
        ({
            let updated = crate::linker::torrent::updated_torrent(
                config.exclude_narrator_in_library_dir,
                taker_view(config, library),
                t.category@,
                trackers,
                existing,
            );
            &&& r.state matches LinkState::Saving(s) && s@ == updated
            &&& r.action matches LinkAction::Save { torrent, events } && {
                &&& torrent is Some <==> updated != existing
                &&& torrent matches Some(s) ==> s@ == updated
                &&& events@.len() == (if updated.client_status != existing.client_status {
                    1int
                } else {
                    0int
                })
            }
        }),
        library is None ==> taker_view(config, library) is None,
        library matches Some(i) ==> (taker_view(config, library) matches Some(l) && l.name
            == crate::text::text_of(config.libraries@[i].opts().name) && l.dir
            == config.libraries@[i].opts().library_dir@),
{
    crate::linker::torrent::changed_record_is_reported(
        config.exclude_narrator_in_library_dir,
        taker_view(config, library),
        t.category@,
        trackers,
        existing,
    );
    crate::linker::torrent::noted_removal_is_told(
        config.exclude_narrator_in_library_dir,
        taker_view(config, library),
        t.category@,
        trackers,
        existing,
        t.hash@,
        mam_id,
    );
    match r.action {
        LinkAction::Save { torrent, events } => {
            assert(events@.map_values(|e: Event| e@).len() == events@.len());
        },
        _ => {},
    }
}

} // verus!
