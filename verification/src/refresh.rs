//! The decisions of a refresh: whether the local data is up to date,
//! whether to import, and how a refresh that cannot import ends.
//!
//! The caller does the work between the decisions. It hands each result
//! to [`refresh_state`] as an event and gets back the next state and what
//! to do next.

use vstd::prelude::*;
use crate::error::RefreshError;
use crate::manifest::{
    get_state_info,
    manifest_entry,
    StateInfo,
    StateInfoView,
    FIELD_DELIMITER,
};
use crate::models::{State, StateView};
use crate::outside::delimited_records;
use crate::utils::ExistsExtension;

verus! {

/// What is known before a refresh decides: the snapshot on offer, if the
/// status document could be fetched and names one, and the current state
/// of the local data, if there is one.
#[derive(Debug)]
pub struct DataStatus {
    pub state_info: Option<StateInfo>,
    pub current_state: Option<State>,
}

/// The snapshot that a fetched status document offers. A document that
/// could not be fetched (`None`) offers none, and neither does one that
/// cannot be read or does not name the dataset: a refresh takes each of
/// these as "nothing new".
pub open spec fn offered(response: Option<Seq<u8>>) -> Option<StateInfoView> {
    match response {
        Some(document) => match manifest_entry(delimited_records(document, FIELD_DELIMITER)) {
            Ok(entry) => entry,
            Err(_) => None,
        },
        None => None,
    }
}

/// What a [`DataStatus`] holds.
pub open spec fn status_view(status: DataStatus) -> (Option<StateInfoView>, Option<StateView>) {
    (
        match status.state_info {
            Some(info) => Some(info@),
            None => None,
        },
        match status.current_state {
            Some(state) => Some(state@),
            None => None,
        },
    )
}

/// Puts the data status together from the status document as it was
/// fetched, `None` where fetching failed, and from the current state of
/// the local data.
pub fn get_data_status(response: Option<&[u8]>, current_state: Option<State>) -> (status:
    DataStatus)
    ensures
        status_view(status) == (
            offered(
                match response {
                    Some(document) => Some(document@),
                    None => None,
                },
            ),
            match current_state {
                Some(state) => Some(state@),
                None => None,
            },
        ),
{
    let state_info = match response {
        Some(document) => match get_state_info(document) {
            Ok(entry) => entry,
            Err(_) => None,
        },
        None => None,
    };
    DataStatus { state_info, current_state }
}

/// Where a refresh stands.
#[derive(Clone, Copy, Debug, PartialEq, Eq, Structural)]
pub enum RefreshState {
    /// Not started.
    Idle,
    /// Waiting for the data status.
    Checking,
    /// The local data is of the version on offer. Final.
    UpToDate,
    /// Waiting for the import; `fallback` says whether local data exists.
    Importing { fallback: bool },
    /// The snapshot was imported and recorded. Final.
    Committed,
    /// Nothing was imported; the local data goes on being served. Final.
    Fallback,
    /// Nothing was imported and there is no local data. Final.
    Fatal,
}

/// What happened since the last decision.
#[derive(Debug)]
pub enum RefreshEvent {
    /// The refresh was asked for.
    Started,
    /// The data status is known.
    StatusKnown(DataStatus),
    /// The import came to its end and the snapshot is recorded.
    Imported,
    /// The import failed.
    ImportFailed(RefreshError),
}

/// What the caller is to do next.
#[derive(Debug)]
pub enum RefreshAction {
    /// Fetch the status document and read the current state.
    Check,
    /// Download the archive of this snapshot and import it.
    Import(StateInfo),
    /// Nothing more: serve the local data.
    Serve,
    /// Nothing can be served: fail.
    Abort,
    /// The event does not belong to the state: go on waiting.
    Wait,
}

/// Whether the local data is of the version on offer.
pub open spec fn up_to_date(status: DataStatus) -> bool {
    status.state_info matches Some(info) && status.current_state matches Some(state)
        && state.version@ == info.version@
}

/// The state after `event` in `state`.
pub open spec fn next_state(state: RefreshState, event: RefreshEvent) -> RefreshState {
    match (state, event) {
        (RefreshState::Idle, RefreshEvent::Started) => RefreshState::Checking,
        (RefreshState::Checking, RefreshEvent::StatusKnown(status)) => {
            if status.state_info is Some {
                if up_to_date(status) {
                    RefreshState::UpToDate
                } else {
                    RefreshState::Importing { fallback: status.current_state is Some }
                }
            } else if status.current_state is Some {
                RefreshState::Fallback
            } else {
                RefreshState::Fatal
            }
        },
        (RefreshState::Importing { fallback }, RefreshEvent::Imported) => RefreshState::Committed,
        (RefreshState::Importing { fallback }, RefreshEvent::ImportFailed(_)) => {
            if fallback {
                RefreshState::Fallback
            } else {
                RefreshState::Fatal
            }
        },
        _ => state,
    }
}

/// Whether `action` is what is to be done once `event` has led from
/// `state` to `next`.
pub open spec fn action_fits(
    action: RefreshAction,
    state: RefreshState,
    event: RefreshEvent,
    next: RefreshState,
) -> bool {
    if next == state {
        action is Wait
    } else {
        match next {
            RefreshState::Checking => action is Check,
            RefreshState::Importing { fallback } => action matches RefreshAction::Import(info)
                && event matches RefreshEvent::StatusKnown(status) && status.state_info matches Some(
                offered,
            ) && info@ == offered@,
            RefreshState::Fatal => action is Abort,
            _ => action is Serve,
        }
    }
}

/// The next state and what to do next, once `event` has happened in
/// `state`.
pub fn refresh_state(state: RefreshState, event: RefreshEvent) -> (decision: (
    RefreshState,
    RefreshAction,
))
    ensures
        decision.0 == next_state(state, event),
        action_fits(decision.1, state, event, decision.0),
{
    match (state, event) {
        (RefreshState::Idle, RefreshEvent::Started) => (RefreshState::Checking, RefreshAction::Check),
        (RefreshState::Checking, RefreshEvent::StatusKnown(status)) => {
            let DataStatus { state_info, current_state } = status;
            match state_info {
                Some(info) => {
                    let same_version = |local: &State| -> (same: bool)
                        ensures
                            same == (local.version@ == info.version@),
                        {
                            local.version == info.version
                        };
                    let same = current_state.exists_with(same_version);
                    if same {
                        (RefreshState::UpToDate, RefreshAction::Serve)
                    } else {
                        (
                            RefreshState::Importing { fallback: current_state.is_some() },
                            RefreshAction::Import(info),
                        )
                    }
                },
                None => {
                    if current_state.is_some() {
                        (RefreshState::Fallback, RefreshAction::Serve)
                    } else {
                        (RefreshState::Fatal, RefreshAction::Abort)
                    }
                },
            }
        },
        (RefreshState::Importing { fallback }, RefreshEvent::Imported) => (
            RefreshState::Committed,
            RefreshAction::Serve,
        ),
        (RefreshState::Importing { fallback }, RefreshEvent::ImportFailed(_)) => {
            if fallback {
                (RefreshState::Fallback, RefreshAction::Serve)
            } else {
                (RefreshState::Fatal, RefreshAction::Abort)
            }
        },
        (state, _) => (state, RefreshAction::Wait),
    }
}

/// Whether a state is final: no event leads out of it.
pub open spec fn is_final(state: RefreshState) -> bool {
    state is UpToDate || state is Committed || state is Fallback || state is Fatal
}

/// The state after each of `events` in turn.
pub open spec fn state_after(state: RefreshState, events: Seq<RefreshEvent>) -> RefreshState
    decreases events.len(),
{
    if events.len() == 0 {
        state
    } else {
        next_state(state_after(state, events.drop_last()), events.last())
    }
}

/// Whether the refresh knows of local data in this state: it has not
/// yet learnt the status, or learnt that local data exists.
pub open spec fn may_fall_back(state: RefreshState) -> bool {
    match state {
        RefreshState::Importing { fallback } => fallback,
        RefreshState::Fatal => false,
        _ => true,
    }
}

/// Whether every status among `events` reports local data.
pub open spec fn all_report_state(events: Seq<RefreshEvent>) -> bool {
    forall|i: int|
        0 <= i < events.len() ==> ((#[trigger] events[i]) matches RefreshEvent::StatusKnown(status)
            ==> status.current_state is Some)
}

/// Where local data exists, no refresh ends in `Fatal`, whatever else
/// happens: the local data is never given up for a refresh that failed.
pub proof fn lemma_never_fatal_with_state(events: Seq<RefreshEvent>)
    requires
        all_report_state(events),
    ensures
        may_fall_back(state_after(RefreshState::Idle, events)),
        !(state_after(RefreshState::Idle, events) is Fatal),
    decreases events.len(),
{
    if events.len() > 0 {
        let head = events.drop_last();
        assert(all_report_state(head)) by {
            assert forall|i: int| 0 <= i < head.len() implies ((#[trigger] head[i])
                matches RefreshEvent::StatusKnown(status) ==> status.current_state is Some) by {
                assert(head[i] == events[i]);
            }
        }
        lemma_never_fatal_with_state(head);
        assert(events[events.len() - 1] == events.last());
    }
}

/// Whether every status among `events` reports that there is no local
/// data.
pub open spec fn none_reports_state(events: Seq<RefreshEvent>) -> bool {
    forall|i: int|
        0 <= i < events.len() ==> ((#[trigger] events[i]) matches RefreshEvent::StatusKnown(status)
            ==> status.current_state is None)
}

/// Where no local data exists, a refresh never ends in serving what is
/// there: it imports, or it is `Fatal`.
pub proof fn lemma_no_service_without_data(events: Seq<RefreshEvent>)
    requires
        none_reports_state(events),
    ensures
        !(state_after(RefreshState::Idle, events) is UpToDate),
        !(state_after(RefreshState::Idle, events) is Fallback),
        state_after(RefreshState::Idle, events) matches RefreshState::Importing { fallback }
            ==> !fallback,
    decreases events.len(),
{
    if events.len() > 0 {
        let head = events.drop_last();
        assert(none_reports_state(head)) by {
            assert forall|i: int| 0 <= i < head.len() implies ((#[trigger] head[i])
                matches RefreshEvent::StatusKnown(status) ==> status.current_state is None) by {
                assert(head[i] == events[i]);
            }
        }
        lemma_no_service_without_data(head);
        assert(events[events.len() - 1] == events.last());
    }
}

/// A final state is kept: nothing is done after the refresh has ended,
/// and a refresh that found the local data up to date never imports.
pub proof fn lemma_final_is_kept(state: RefreshState, event: RefreshEvent)
    requires
        is_final(state),
    ensures
        next_state(state, event) == state,
{
}

/// An import is asked for in one case only: the status names a snapshot
/// whose version the local data does not have.
pub proof fn lemma_import_only_when_stale(state: RefreshState, event: RefreshEvent)
    requires
        next_state(state, event) is Importing,
        !(state is Importing),
    ensures
        state is Checking,
        event matches RefreshEvent::StatusKnown(status) && status.state_info is Some && !up_to_date(
            status,
        ),
{
}

} // verus!
