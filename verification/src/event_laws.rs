//! What subscribers hear.

use vstd::prelude::*;
use crate::events::{
    announcements, changes, greetings, is_final_status, is_stream, unknown_stream, DetailView,
    ForwardView, Notice, RequestKind, StateRevision, Subscription,
};
use crate::operations::{accepted_record, accepting, cancelled_record, ending, is_stale, Active};
use crate::action::{operation_of, ApplicationAction, ExecuteParams, OperationView};
use crate::launch::LaunchBackend;
use crate::protocol::stream;

verus! {

proof fn lemma_stream_names()
    ensures
        stream::APPLICATIONS@ != stream::WINDOWS@,
        stream::APPLICATIONS@ != stream::OPERATION@,
        stream::WINDOWS@ != stream::OPERATION@,
{
    reveal_strlit("applications.changed");
    reveal_strlit("windows.changed");
    reveal_strlit("applications.operation");
    assert("applications.changed"@.len() == 20);
    assert("windows.changed"@.len() == 15);
    assert("applications.operation"@.len() == 22);
    assert("applications.changed"@[0] == 'a');
    assert("windows.changed"@[0] == 'w');
    assert("applications.operation"@[0] == 'a');
    assert("applications.changed"@[13] == 'c');
    assert("windows.changed"@[13] == 'e');
    assert("applications.operation"@[13] == 'o');
}

/// A subscription hears of a change on a stream exactly if it asked for the stream and
/// the revision is another one, and then it hears the new revision.
pub proof fn lemma_changes(
    selected: (bool, bool, bool),
    previous: StateRevision,
    current: StateRevision,
)
    ensures
        changes(selected, previous, current).contains((stream::APPLICATIONS@, current.catalog)) == (
        selected.0 && current.catalog != previous.catalog),
        changes(selected, previous, current).contains((stream::WINDOWS@, current.windows)) == (
        selected.1 && current.windows != previous.windows),
        changes(selected, previous, current).len() <= 2,
{
    lemma_stream_names();
    let list = changes(selected, previous, current);
    if selected.0 && current.catalog != previous.catalog {
        assert(list[0] == (stream::APPLICATIONS@, current.catalog));
    }
    if selected.1 && current.windows != previous.windows {
        assert(list[list.len() - 1] == (stream::WINDOWS@, current.windows));
    }
}

/// What was announced once is not announced again.
pub proof fn lemma_heard_once(subscription: Subscription, now: StateRevision)
    ensures
        ({
            let (after, forward) = subscription.next(Notice::State(now));
            let (again, second) = after.next(Notice::State(now));
            &&& after.previous == now
            &&& after.selected == subscription.selected
            &&& again == after
            &&& second == ForwardView::Emit(Seq::empty())
            &&& match forward {
                ForwardView::Emit(list) => list.len() == changes(
                    subscription.selected,
                    subscription.previous,
                    now,
                ).len() && forall|i: int|
                    0 <= i < list.len() ==> (#[trigger] list[i]).event == "changed"@
                        && list[i].stream == changes(
                        subscription.selected,
                        subscription.previous,
                        now,
                    )[i].0 && list[i].detail == DetailView::Changed(
                        changes(subscription.selected, subscription.previous, now)[i].1,
                    ),
                _ => false,
            }
        }),
{
    let (after, forward) = subscription.next(Notice::State(now));
    assert(changes(after.selected, now, now) =~= Seq::empty());
    assert(announcements(changes(after.selected, now, now)) =~= Seq::empty());
}

/// Changes that were missed are caught up with.
pub proof fn lemma_missed_changes(subscription: Subscription, now: StateRevision)
    ensures
        subscription.next(Notice::StateMissed(now)) == subscription.next(Notice::State(now)),
{
}

/// An operation is announced, with its status as the event, to those that asked for
/// operations and to nobody else.
pub proof fn lemma_operations_heard(
    subscription: Subscription,
    operation: crate::model::OperationResult,
)
    ensures
        ({
            let (after, forward) = subscription.next(Notice::Operation(operation));
            &&& after == subscription
            &&& match forward {
                ForwardView::Emit(list) => if subscription.selected.2 {
                    &&& list.len() == 1
                    &&& list[0].stream == stream::OPERATION@
                    &&& list[0].event == operation.status@
                    &&& list[0].detail == DetailView::Operation(operation@)
                } else {
                    list.len() == 0
                },
                _ => false,
            }
        }),
{
}

/// A subscription ends when there is nothing more to receive, and not before.
pub proof fn lemma_subscription_ends(subscription: Subscription, notice: Notice)
    ensures
        (subscription.next(notice).1 == ForwardView::Stop) == (notice is Closed),
        notice is OperationsMissed ==> subscription.next(notice).1 == ForwardView::Warn(
            notice->OperationsMissed_0,
        ),
{
}

/// A subscription begins with one event on each stream that was asked for.
pub proof fn lemma_greetings(selected: (bool, bool, bool), now: StateRevision, name: Seq<char>)
    requires
        is_stream(name),
    ensures
        (exists|i: int| 0 <= i < greetings(selected, now).len() && (#[trigger] greetings(
            selected,
            now,
        )[i]).stream == name) == ((name == stream::APPLICATIONS@ && selected.0) || (name
            == stream::WINDOWS@ && selected.1) || (name == stream::OPERATION@ && selected.2)),
        forall|i: int|
            0 <= i < greetings(selected, now).len() ==> (#[trigger] greetings(
                selected,
                now,
            )[i]).event == "subscribed"@ && greetings(selected, now)[i].detail
                == DetailView::Subscribed(now),
{
    lemma_stream_names();
    let list = greetings(selected, now);
    let n: int = if selected.0 {
        1
    } else {
        0
    };
    if name == stream::APPLICATIONS@ && selected.0 {
        assert(list[0].stream == name);
    }
    if name == stream::WINDOWS@ && selected.1 {
        assert(list[n].stream == name);
    }
    if name == stream::OPERATION@ && selected.2 {
        assert(list[list.len() - 1].stream == name);
    }
}

/// A list of names is refused for its first name that is no stream.
pub proof fn lemma_unknown_stream(names: Seq<Seq<char>>, i: int)
    requires
        0 <= i < names.len(),
        names[i] != stream::APPLICATIONS@,
        names[i] != stream::WINDOWS@,
        names[i] != stream::OPERATION@,
        forall|k: int|
            0 <= k < i ==> (#[trigger] names[k]) == stream::APPLICATIONS@ || names[k]
                == stream::WINDOWS@ || names[k] == stream::OPERATION@,
    ensures
        unknown_stream(names) == Some(names[i]),
    decreases names.len(),
{
    if i > 0 {
        let rest = names.skip(1);
        assert(names[0] == stream::APPLICATIONS@ || names[0] == stream::WINDOWS@ || names[0]
            == stream::OPERATION@);
        assert(rest[i - 1] == names[i]);
        assert forall|k: int| 0 <= k < i - 1 implies (#[trigger] rest[k]) == stream::APPLICATIONS@
            || rest[k] == stream::WINDOWS@ || rest[k] == stream::OPERATION@ by {
            assert(rest[k] == names[k + 1]);
        }
        lemma_unknown_stream(rest, i - 1);
    }
}

pub proof fn lemma_known_streams(names: Seq<Seq<char>>)
    requires
        forall|k: int|
            0 <= k < names.len() ==> (#[trigger] names[k]) == stream::APPLICATIONS@ || names[k]
                == stream::WINDOWS@ || names[k] == stream::OPERATION@,
    ensures
        unknown_stream(names) is None,
    decreases names.len(),
{
    if names.len() > 0 {
        let rest = names.skip(1);
        assert(names[0] == stream::APPLICATIONS@ || names[0] == stream::WINDOWS@ || names[0]
            == stream::OPERATION@);
        assert forall|k: int| 0 <= k < rest.len() implies (#[trigger] rest[k])
            == stream::APPLICATIONS@ || rest[k] == stream::WINDOWS@ || rest[k]
            == stream::OPERATION@ by {
            assert(rest[k] == names[k + 1]);
        }
        lemma_known_streams(rest);
    }
}

/// An operation is over when it completed, failed or was cancelled, and not while it
/// is accepted or running.
pub proof fn lemma_final_status(status: Seq<char>)
    ensures
        status == "completed"@ || status == "failed"@ || status == "cancelled"@ ==> is_final_status(
            status,
        ),
        status == "accepted"@ || status == "running"@ ==> !is_final_status(status),
{
    reveal_strlit("completed");
    reveal_strlit("failed");
    reveal_strlit("cancelled");
    reveal_strlit("accepted");
    reveal_strlit("running");
    assert("completed"@.len() == 9 && "failed"@.len() == 6 && "cancelled"@.len() == 9
        && "accepted"@.len() == 8 && "running"@.len() == 7);
}

// ---------------------------------------------------------------------
// Operations

/// A client that says which list it saw is refused exactly if that is not the list
/// there is now; one that says nothing is not.
pub proof fn lemma_stale(expected: Option<u64>, revision: u64)
    ensures
        expected is None ==> !is_stale(expected, revision),
        expected is Some ==> is_stale(expected, revision) == (expected->0 != revision),
{
}

/// An accepted operation is active under its name until it ends.
pub proof fn lemma_active(active: Active, record: OperationView, id: Seq<char>)
    ensures
        accepting(active, record).contains_key(record.id),
        accepting(active, record)[record.id] == record,
        !ending(active, id).0.contains_key(id),
        ending(active, id).1 == active.contains_key(id),
{
}

/// The record of an operation says what was asked for, and a cancelled one is
/// otherwise what was accepted.
pub proof fn lemma_records(id: Seq<char>, params: ExecuteParams)
    ensures
        ({
            let record = accepted_record(id, params);
            let cancelled = cancelled_record(record);
            &&& record.id == id
            &&& record.action == params.action.text()
            &&& record.target_id == params.target_id@
            &&& record.status == "accepted"@
            &&& record.launch_backend is None
            &&& cancelled.id == id
            &&& cancelled.action == record.action
            &&& cancelled.target_id == record.target_id
            &&& cancelled.status == "cancelled"@
            &&& is_final_status(cancelled.status)
        }),
{
}

/// The record of a launch tells what the application was started by.
pub proof fn lemma_launch_record(
    id: Seq<char>,
    action: ApplicationAction,
    target: Seq<char>,
    status: Seq<char>,
    message: Seq<char>,
    backend: LaunchBackend,
)
    ensures
        ({
            let record = operation_of(id, action, target, status, message, Some(backend));
            &&& record.id == id
            &&& record.action == action.text()
            &&& record.target_id == target
            &&& record.status == status
            &&& record.message == message
            &&& record.launch_backend == Some(
                if backend == LaunchBackend::Uwsm {
                    "uwsm-app"@
                } else {
                    "direct"@
                },
            )
            &&& record.launch_scope == Some(
                if backend == LaunchBackend::Uwsm {
                    "app-graphical.slice"@
                } else {
                    "inherited"@
                },
            )
        }),
{
}

/// Actions and requests have the names that clients use.
pub proof fn lemma_names(action: ApplicationAction, kind: RequestKind)
    ensures
        action.text() == match action {
            ApplicationAction::Activate => "activate"@,
            ApplicationAction::Launch => "launch"@,
            ApplicationAction::FocusWindow => "focus-window"@,
            ApplicationAction::Close => "close"@,
            ApplicationAction::CloseWindow => "close-window"@,
            ApplicationAction::MoveToWorkspace => "move-to-workspace"@,
            ApplicationAction::DesktopAction => "desktop-action"@,
        },
        kind.text() == match kind {
            RequestKind::Subscription => "subscription"@,
            RequestKind::Operation => "operation"@,
        },
{
}

} // verus!
