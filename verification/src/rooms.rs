//! Finding the id of a room by its name, creating the room on first use.
//!
//! Storage is asked from outside; this module decides what to ask next.

use vstd::prelude::*;
use vstd::string::*;
use crate::error::ChatError;

verus! {

/// Where the resolution of a room name stands.
#[derive(Debug, Clone, Copy, PartialEq, Eq)]
pub enum ResolverState {
    /// The room was looked up for the first time.
    FirstLookup,
    /// The room was not there and is being created.
    Creating,
    /// The room was created and is looked up again.
    SecondLookup,
    /// The resolution ended, with an id or a failure.
    Done,
}

/// What storage answered to the last thing it was asked.
#[derive(Debug, Clone, PartialEq, Eq)]
pub enum StorageReply {
    /// The lookup found the room under this id.
    Row(i64),
    /// The lookup found no room of that name.
    NoRow,
    /// The room was inserted.
    Inserted,
    /// Storage failed; the text says how.
    Failed(String),
}

/// What to do next.
#[derive(Debug, PartialEq, Eq)]
pub enum ResolverAction {
    /// Look the room up by its name.
    Lookup,
    /// Insert a room of that name.
    Insert,
    /// The room's id is known.
    Resolved(i64),
    /// The resolution failed.
    Fail(ChatError),
}

/// Whether `reply` answers what was asked in `state`.
pub open spec fn is_expected(state: ResolverState, reply: StorageReply) -> bool {
    match (state, reply) {
        (ResolverState::Done, _) => false,
        (_, StorageReply::Failed(_)) => true,
        (ResolverState::FirstLookup, StorageReply::Row(_)) => true,
        (ResolverState::FirstLookup, StorageReply::NoRow) => true,
        (ResolverState::Creating, StorageReply::Inserted) => true,
        (ResolverState::SecondLookup, StorageReply::Row(_)) => true,
        (ResolverState::SecondLookup, StorageReply::NoRow) => true,
        _ => false,
    }
}

/// The state that follows `state` on `reply`: a found room ends the
/// resolution, a missing room is created once and looked up once more, and
/// anything else ends it in failure.
pub open spec fn next_state(state: ResolverState, reply: StorageReply) -> ResolverState {
    match (state, reply) {
        (ResolverState::FirstLookup, StorageReply::NoRow) => ResolverState::Creating,
        (ResolverState::Creating, StorageReply::Inserted) => ResolverState::SecondLookup,
        _ => ResolverState::Done,
    }
}

/// How many more replies a resolution in `state` can take at most.
pub open spec fn steps_left(state: ResolverState) -> nat {
    match state {
        ResolverState::FirstLookup => 3,
        ResolverState::Creating => 2,
        ResolverState::SecondLookup => 1,
        ResolverState::Done => 0,
    }
}

/// Whether `action` is a failure of storage with `how` as its text.
pub open spec fn fails_with(action: ResolverAction, how: Seq<char>) -> bool {
    action matches ResolverAction::Fail(ChatError::StorageFailure(text)) && text@ == how
}

/// Whether `action` is what follows `state` on `reply`.
pub open spec fn is_next_action(state: ResolverState, reply: StorageReply, action: ResolverAction)
    -> bool {
    match (state, reply) {
        (ResolverState::Done, _) => fails_with(action, "resolution has ended"@),
        (_, StorageReply::Failed(how)) => fails_with(action, how@),
        (ResolverState::FirstLookup, StorageReply::Row(id)) => action == ResolverAction::Resolved(
            id,
        ),
        (ResolverState::FirstLookup, StorageReply::NoRow) => action == ResolverAction::Insert,
        (ResolverState::Creating, StorageReply::Inserted) => action == ResolverAction::Lookup,
        (ResolverState::SecondLookup, StorageReply::Row(id)) => action == ResolverAction::Resolved(
            id,
        ),
        (ResolverState::SecondLookup, StorageReply::NoRow) => fails_with(
            action,
            "QueryReturnedNoRows"@,
        ),
        _ => fails_with(action, "unexpected reply from storage"@),
    }
}

/// Starts a resolution: the room is looked up.
pub fn begin() -> (r: (ResolverState, ResolverAction))
    ensures
        r.0 == ResolverState::FirstLookup,
        r.1 == ResolverAction::Lookup,
{
    (ResolverState::FirstLookup, ResolverAction::Lookup)
}

/// A failure of storage with `how` as its text.
fn fail(how: &str) -> (r: ResolverAction)
    ensures
        fails_with(r, how@),
{
    ResolverAction::Fail(ChatError::StorageFailure(String::from_str(how)))
}

/// Takes storage's reply and decides what comes next.
pub fn step(state: ResolverState, reply: StorageReply) -> (r: (ResolverState, ResolverAction))
    ensures
        r.0 == next_state(state, reply),
        is_next_action(state, reply, r.1),
{
    match state {
        ResolverState::Done => (ResolverState::Done, fail("resolution has ended")),
        _ => match reply {
            StorageReply::Failed(how) => (
                ResolverState::Done,
                ResolverAction::Fail(ChatError::StorageFailure(how)),
            ),
            StorageReply::Row(id) => match state {
                ResolverState::Creating => (
                    ResolverState::Done,
                    fail("unexpected reply from storage"),
                ),
                _ => (ResolverState::Done, ResolverAction::Resolved(id)),
            },
            StorageReply::NoRow => match state {
                ResolverState::FirstLookup => (ResolverState::Creating, ResolverAction::Insert),
                ResolverState::SecondLookup => (ResolverState::Done, fail("QueryReturnedNoRows")),
                _ => (ResolverState::Done, fail("unexpected reply from storage")),
            },
            StorageReply::Inserted => match state {
                ResolverState::Creating => (ResolverState::SecondLookup, ResolverAction::Lookup),
                _ => (ResolverState::Done, fail("unexpected reply from storage")),
            },
        },
    }
}

/// Every reply brings a resolution closer to its end: it takes at most
/// three, so the room is looked up at most twice and created at most once.
pub proof fn lemma_resolution_ends(state: ResolverState, reply: StorageReply)
    requires
        state != ResolverState::Done,
    ensures
        steps_left(next_state(state, reply)) < steps_left(state),
{
}

/// An id is given out only when a lookup has just found it, and a room is
/// created only when the first lookup has just missed it.
pub proof fn lemma_actions_follow_storage(
    state: ResolverState,
    reply: StorageReply,
    action: ResolverAction,
)
    requires
        is_next_action(state, reply, action),
    ensures
        action matches ResolverAction::Resolved(id) ==> reply == StorageReply::Row(id),
        action == ResolverAction::Insert ==> state == ResolverState::FirstLookup && reply
            == StorageReply::NoRow,
        action == ResolverAction::Lookup ==> state == ResolverState::Creating && reply
            == StorageReply::Inserted,
        next_state(state, reply) == ResolverState::Done <==> action is Resolved || action is Fail,
        is_expected(state, reply) && !(reply is Failed) && !(state == ResolverState::SecondLookup
            && reply is NoRow) ==> !(action is Fail),
{
}

} // verus!
