//! Actions on the torrents that a visitor has selected.
use vstd::prelude::*;
use vstd::string::*;

use crate::text::concat;
use crate::web::error::{server_err_ctx, ServerFnError};
use crate::web::types::TorrentsBulkAction;

verus! {

/// What is asked for on the way. A number is the place of a torrent in the
/// selection.
#[derive(Clone, Copy, Debug, PartialEq, Eq, Structural)]
pub enum ActionRequest {
    /// Get ready to ask the tracker.
    OpenTracker,
    /// Get ready to read the torrent's record.
    OpenRead(usize),
    /// Get ready to change records, all together or none.
    OpenWrite,
    /// Load the torrent's record.
    Load(usize),
    /// Carry out the action on the torrent.
    Act(usize),
    /// Make the changes to the records.
    Commit,
}

/// How far an action has come.
#[derive(Clone, Copy, Debug, PartialEq, Eq, Structural)]
pub enum ActionState {
    Start,
    Waiting(ActionRequest),
    Finished,
}

/// What came of a request.
#[derive(Debug, PartialEq, Eq)]
pub enum ActionEvent {
    Begin,
    /// What was asked for is done.
    Done,
    /// Whether the torrent's record is there.
    Found(bool),
    /// What was asked for failed.
    Failed(String),
}

/// What is to be done next.
#[derive(Debug, PartialEq, Eq)]
pub enum ActionStep {
    Ask(ActionRequest),
    /// The action is over.
    Stop(Result<(), ServerFnError>),
    /// The event does not belong to the state.
    Ignore,
}

/// What an action asks for first.
pub open spec fn first_request(action: TorrentsBulkAction) -> ActionRequest {
    match action {
        TorrentsBulkAction::Clean => ActionRequest::OpenRead(0),
        TorrentsBulkAction::Refresh => ActionRequest::OpenTracker,
        TorrentsBulkAction::Relink => ActionRequest::Act(0),
        TorrentsBulkAction::RefreshRelink => ActionRequest::OpenTracker,
        TorrentsBulkAction::Remove => ActionRequest::OpenWrite,
    }
}

/// What an action on `n` torrents asks for after a request that went well. To
/// clean or remove a torrent its record is loaded first. Removals are made
/// together when all the records were found.
pub open spec fn next_request(action: TorrentsBulkAction, n: nat, request: ActionRequest) -> Option<
    ActionRequest,
> {
    match request {
        ActionRequest::OpenTracker => Some(ActionRequest::Act(0)),
        ActionRequest::OpenRead(i) => Some(ActionRequest::Load(i)),
        ActionRequest::OpenWrite => Some(ActionRequest::Load(0)),
        ActionRequest::Load(i) => Some(ActionRequest::Act(i)),
        ActionRequest::Act(i) => if i + 1 < n {
            let next = (i + 1) as usize;
            match action {
                TorrentsBulkAction::Clean => Some(ActionRequest::OpenRead(next)),
                TorrentsBulkAction::Remove => Some(ActionRequest::Load(next)),
                _ => Some(ActionRequest::Act(next)),
            }
        } else if action == TorrentsBulkAction::Remove {
            Some(ActionRequest::Commit)
        } else {
            None
        },
        ActionRequest::Commit => None,
    }
}

/// The torrent that is asked about is one of the selection.
pub open spec fn is_turn(n: nat, state: ActionState) -> bool {
    match state {
        ActionState::Waiting(request) => n > 0 && match request {
            ActionRequest::OpenRead(i) => i < n,
            ActionRequest::Load(i) => i < n,
            ActionRequest::Act(i) => i < n,
            _ => true,
        },
        _ => true,
    }
}

/// What an error in an action on a torrent is called.
pub open spec fn action_context(action: TorrentsBulkAction, id: Seq<char>) -> Seq<char> {
    match action {
        TorrentsBulkAction::Clean => "cleaning torrent "@ + id,
        TorrentsBulkAction::Refresh => "refreshing torrent metadata for "@ + id,
        TorrentsBulkAction::Relink => "relinking torrent "@ + id,
        TorrentsBulkAction::RefreshRelink => "refreshing torrent metadata and relinking "@ + id,
        TorrentsBulkAction::Remove => "removing torrent "@ + id,
    }
}

/// What an error in a request is called.
pub open spec fn request_context(
    action: TorrentsBulkAction,
    ids: Seq<Seq<char>>,
    request: ActionRequest,
) -> Seq<char> {
    match request {
        ActionRequest::OpenTracker => if action == TorrentsBulkAction::RefreshRelink {
            "creating MaM client for refresh+relink"@
        } else {
            "creating MaM client for refresh"@
        },
        ActionRequest::OpenRead(_) => "opening read transaction for clean action"@,
        ActionRequest::OpenWrite => "opening write transaction for torrent removal"@,
        ActionRequest::Load(_) => if action == TorrentsBulkAction::Remove {
            "loading torrent for removal"@
        } else {
            "loading torrent for clean action"@
        },
        ActionRequest::Act(i) => action_context(action, ids[i as int]),
        ActionRequest::Commit => "committing torrent removals"@,
    }
}

fn context_of(action: TorrentsBulkAction, torrent_ids: &Vec<String>, request: ActionRequest) -> (r:
    String)
    requires
        is_turn(torrent_ids@.len(), ActionState::Waiting(request)),
    ensures
        r@ == request_context(action, crate::text::texts(torrent_ids@), request),
{
    match request {
        ActionRequest::OpenTracker => match action {
            TorrentsBulkAction::RefreshRelink => "creating MaM client for refresh+relink".to_owned(),
            _ => "creating MaM client for refresh".to_owned(),
        },
        ActionRequest::OpenRead(_) => "opening read transaction for clean action".to_owned(),
        ActionRequest::OpenWrite => "opening write transaction for torrent removal".to_owned(),
        ActionRequest::Load(_) => match action {
            TorrentsBulkAction::Remove => "loading torrent for removal".to_owned(),
            _ => "loading torrent for clean action".to_owned(),
        },
        ActionRequest::Act(i) => {
            let id = torrent_ids[i].as_str();
            match action {
                TorrentsBulkAction::Clean => concat("cleaning torrent ", id),
                TorrentsBulkAction::Refresh => concat("refreshing torrent metadata for ", id),
                TorrentsBulkAction::Relink => concat("relinking torrent ", id),
                TorrentsBulkAction::RefreshRelink => concat(
                    "refreshing torrent metadata and relinking ",
                    id,
                ),
                TorrentsBulkAction::Remove => concat("removing torrent ", id),
            }
        },
        ActionRequest::Commit => "committing torrent removals".to_owned(),
    }
}

fn request_after(action: TorrentsBulkAction, n: usize, request: ActionRequest) -> (r: Option<
    ActionRequest,
>)
    requires
        is_turn(n as nat, ActionState::Waiting(request)),
    ensures
        r == next_request(action, n as nat, request),
        r matches Some(next) ==> is_turn(n as nat, ActionState::Waiting(next)),
{
    match request {
        ActionRequest::OpenTracker => Some(ActionRequest::Act(0)),
        ActionRequest::OpenRead(i) => Some(ActionRequest::Load(i)),
        ActionRequest::OpenWrite => Some(ActionRequest::Load(0)),
        ActionRequest::Load(i) => Some(ActionRequest::Act(i)),
        ActionRequest::Act(i) => if i + 1 < n {
            match action {
                TorrentsBulkAction::Clean => Some(ActionRequest::OpenRead(i + 1)),
                TorrentsBulkAction::Remove => Some(ActionRequest::Load(i + 1)),
                _ => Some(ActionRequest::Act(i + 1)),
            }
        } else if action == TorrentsBulkAction::Remove {
            Some(ActionRequest::Commit)
        } else {
            None
        },
        ActionRequest::Commit => None,
    }
}

/// The request went well: `Found` answers a request for a record, and `Done`
/// any other.
pub open spec fn goes_well(request: ActionRequest, event: ActionEvent) -> bool {
    match request {
        ActionRequest::Load(_) => event == ActionEvent::Found(true),
        _ => event is Done,
    }
}

/// The action stops with the given error.
pub open spec fn stops_with(state: ActionState, step: ActionStep, message: Seq<char>) -> bool {
    &&& state is Finished
    &&& step matches ActionStep::Stop(Err(e))
    &&& e.message@ == message
}

fn stop_with(message: &str) -> (r: (ActionState, ActionStep))
    ensures
        stops_with(r.0, r.1, message@),
{
    (ActionState::Finished, ActionStep::Stop(Err(ServerFnError { message: message.to_owned() })))
}

/// The next step of an action on several torrents. An action on none is an
/// error, and the first error ends the action.
pub fn apply_torrents_action(
    action: TorrentsBulkAction,
    torrent_ids: &Vec<String>,
    state: ActionState,
    event: ActionEvent,
) -> (r: (ActionState, ActionStep))
    requires
        is_turn(torrent_ids@.len(), state),
    ensures
        is_turn(torrent_ids@.len(), r.0),
        match (state, event) {
            (ActionState::Start, ActionEvent::Begin) => if torrent_ids@.len() == 0 {
                stops_with(r.0, r.1, "No torrents selected"@)
            } else {
                r == (
                    ActionState::Waiting(first_request(action)),
                    ActionStep::Ask(first_request(action)),
                )
            },
            (ActionState::Waiting(request), ActionEvent::Failed(e)) => stops_with(
                r.0,
                r.1,
                request_context(action, crate::text::texts(torrent_ids@), request) + ": "@ + e@,
            ),
            (
                ActionState::Waiting(ActionRequest::Load(_)),
                ActionEvent::Found(false),
            ) => stops_with(r.0, r.1, "Could not find torrent"@),
            (ActionState::Waiting(request), e) => if goes_well(request, e) {
                match next_request(action, torrent_ids@.len(), request) {
                    Some(next) => r == (ActionState::Waiting(next), ActionStep::Ask(next)),
                    None => r == (ActionState::Finished, ActionStep::Stop(Ok(()))),
                }
            } else {
                r == (state, ActionStep::Ignore)
            },
            _ => r == (state, ActionStep::Ignore),
        },
{
    match state {
        ActionState::Start => match event {
            ActionEvent::Begin => {
                if torrent_ids.len() == 0 {
                    return stop_with("No torrents selected");
                }
                let first = match action {
                    TorrentsBulkAction::Clean => ActionRequest::OpenRead(0),
                    TorrentsBulkAction::Refresh => ActionRequest::OpenTracker,
                    TorrentsBulkAction::Relink => ActionRequest::Act(0),
                    TorrentsBulkAction::RefreshRelink => ActionRequest::OpenTracker,
                    TorrentsBulkAction::Remove => ActionRequest::OpenWrite,
                };
                (ActionState::Waiting(first), ActionStep::Ask(first))
            },
            _ => (state, ActionStep::Ignore),
        },
        ActionState::Finished => (state, ActionStep::Ignore),
        ActionState::Waiting(request) => {
            let loads = matches!(request, ActionRequest::Load(_));
            let went_well = match event {
                ActionEvent::Begin => false,
                ActionEvent::Done => !loads,
                ActionEvent::Found(found) => {
                    if loads && !found {
                        return stop_with("Could not find torrent");
                    }
                    loads
                },
                ActionEvent::Failed(e) => {
                    let context = context_of(action, torrent_ids, request);
                    let failure: Result<(), String> = Err(e);
                    return (
                        ActionState::Finished,
                        ActionStep::Stop(server_err_ctx(failure, context.as_str())),
                    );
                },
            };
            if !went_well {
                return (state, ActionStep::Ignore);
            }
            match request_after(action, torrent_ids.len(), request) {
                Some(next) => (ActionState::Waiting(next), ActionStep::Ask(next)),
                None => (ActionState::Finished, ActionStep::Stop(Ok(()))),
            }
        },
    }
}

/// At most so many requests may still come, this one not counted.
pub open spec fn requests_left(n: nat, request: ActionRequest) -> int {
    match request {
        ActionRequest::OpenTracker => 3 * (n as int) + 2,
        ActionRequest::OpenRead(i) => 3 * (n - i) + 1,
        ActionRequest::OpenWrite => 3 * (n as int) + 2,
        ActionRequest::Load(i) => 3 * (n - i),
        ActionRequest::Act(i) => 3 * (n - i) - 1,
        ActionRequest::Commit => 0,
    }
}

/// An action comes to an end: fewer requests are left after each.
pub proof fn action_ends(action: TorrentsBulkAction, n: nat, request: ActionRequest)
    requires
        n <= usize::MAX,
        is_turn(n, ActionState::Waiting(request)),
    ensures
        requests_left(n, request) >= 0,
        next_request(action, n, request) matches Some(next) ==> requests_left(n, next)
            < requests_left(n, request),
{
}

/// The request for the action on a torrent that comes next, if any.
pub open spec fn next_act(action: TorrentsBulkAction, n: nat, request: ActionRequest) -> Option<
    ActionRequest,
>
    decreases requests_left(n, request),
    when n <= usize::MAX && is_turn(n, ActionState::Waiting(request))
{
    match next_request(action, n, request) {
        Some(next) => if next is Act {
            Some(next)
        } else {
            next_act(action, n, next)
        },
        None => None,
    }
}

/// The torrents of the selection are acted on in turn: the first one first, after
/// each the one that follows, and none after the last.
pub proof fn torrents_are_acted_on_in_turn(action: TorrentsBulkAction, n: nat, i: usize)
    requires
        i < n <= usize::MAX,
    ensures
        first_request(action) is Act ==> first_request(action) == ActionRequest::Act(0),
        first_request(action) !is Act ==> next_act(action, n, first_request(action)) == Some(
            ActionRequest::Act(0),
        ),
        next_act(action, n, ActionRequest::Act(i)) == if i + 1 < n {
            Some(ActionRequest::Act((i + 1) as usize))
        } else {
            None
        },
{
    reveal_with_fuel(next_act, 3);
}

/// Changes to records are made once, when the last torrent has been acted on.
pub proof fn removals_are_made_together(action: TorrentsBulkAction, n: nat, request: ActionRequest)
    requires
        n <= usize::MAX,
        is_turn(n, ActionState::Waiting(request)),
        next_request(action, n, request) == Some(ActionRequest::Commit),
    ensures
        action == TorrentsBulkAction::Remove,
        request == ActionRequest::Act((n - 1) as usize),
{
}

/// To clean or remove a torrent its record is loaded right before; a refresh
/// opens the tracker first, a relink alone needs nothing, and removals need a
/// write.
pub proof fn action_asks_for_what_it_needs(
    action: TorrentsBulkAction,
    n: nat,
    request: ActionRequest,
    i: usize,
)
    requires
        n <= usize::MAX,
        is_turn(n, ActionState::Waiting(request)),
    ensures
        first_request(TorrentsBulkAction::Refresh) is OpenTracker,
        first_request(TorrentsBulkAction::RefreshRelink) is OpenTracker,
        first_request(TorrentsBulkAction::Relink) is Act,
        first_request(TorrentsBulkAction::Remove) is OpenWrite,
        first_request(TorrentsBulkAction::Clean) == ActionRequest::OpenRead(0),
        next_request(action, n, ActionRequest::Load(i)) == Some(ActionRequest::Act(i)),
        next_request(action, n, ActionRequest::OpenRead(i)) == Some(ActionRequest::Load(i)),
        (action == TorrentsBulkAction::Clean || action == TorrentsBulkAction::Remove)
            && next_request(action, n, request) == Some(ActionRequest::Act(i)) ==> request
            == ActionRequest::Load(i) || request is OpenTracker,
        action == TorrentsBulkAction::Clean && i + 1 < n ==> next_request(
            action,
            n,
            ActionRequest::Act(i),
        ) == Some(ActionRequest::OpenRead((i + 1) as usize)),
        next_request(action, n, ActionRequest::Commit) is None,
        i < n && i + 1 == n ==> (next_request(action, n, ActionRequest::Act(i)) is Some <==> action
            == TorrentsBulkAction::Remove),
{
}

/// A request has gone well when it was done; one for a record only when the
/// record was found.
pub proof fn record_has_to_be_found(request: ActionRequest, event: ActionEvent)
    requires
        goes_well(request, event),
    ensures
        request is Load ==> event == ActionEvent::Found(true),
        !(request is Load) ==> event is Done,
{
}

/// An error in acting on a torrent names that torrent, at its end.
pub proof fn error_names_its_torrent(action: TorrentsBulkAction, ids: Seq<Seq<char>>, i: usize)
    requires
        i < ids.len(),
    ensures
        crate::text::has_suffix(
            request_context(action, ids, ActionRequest::Act(i)),
            ids[i as int],
        ),
{
    let id = ids[i as int];
    match action {
        TorrentsBulkAction::Clean => {
            crate::text::front_and_back_are_found("cleaning torrent "@, id, id);
        },
        TorrentsBulkAction::Refresh => {
            crate::text::front_and_back_are_found("refreshing torrent metadata for "@, id, id);
        },
        TorrentsBulkAction::Relink => {
            crate::text::front_and_back_are_found("relinking torrent "@, id, id);
        },
        TorrentsBulkAction::RefreshRelink => {
            crate::text::front_and_back_are_found(
                "refreshing torrent metadata and relinking "@,
                id,
                id,
            );
        },
        TorrentsBulkAction::Remove => {
            crate::text::front_and_back_are_found("removing torrent "@, id, id);
        },
    }
}

} // verus!
