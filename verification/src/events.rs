//! What subscribers are told, and how clients tell answers and events apart.

use vstd::prelude::*;
use crate::action::OperationView;
use crate::model::OperationResult;
use crate::protocol::{ApiError, request_not_found, stream};
use crate::table::lemma_take_next;
use crate::text::{
    append, chars_of, decimal, decimal_chars, optional_text, same_text, string_of, texts,
};

verus! {

/// The revisions of what clients see.
#[derive(Debug, Clone, Copy, PartialEq, Eq, Structural)]
pub struct StateRevision {
    pub catalog: u64,
    pub windows: u64,
}

// ---------------------------------------------------------------------
// Streams

pub open spec fn is_stream(name: Seq<char>) -> bool {
    name == stream::APPLICATIONS@ || name == stream::WINDOWS@ || name == stream::OPERATION@
}

/// The first of the names that is no stream.
pub open spec fn unknown_stream(names: Seq<Seq<char>>) -> Option<Seq<char>>
    decreases names.len(),
{
    if names.len() == 0 {
        None
    } else if !is_stream(names[0]) {
        Some(names[0])
    } else {
        unknown_stream(names.skip(1))
    }
}

/// Which of the applications, windows and operation streams a client asked for;
/// or the first name that is no stream.
pub fn selected_streams(streams: &[String]) -> (selected: Result<(bool, bool, bool), String>)
    ensures
        match selected {
            Err(name) => unknown_stream(texts(streams@)) == Some(name@),
            Ok(selected) => {
                &&& unknown_stream(texts(streams@)) is None
                &&& selected.0 == texts(streams@).contains(stream::APPLICATIONS@)
                &&& selected.1 == texts(streams@).contains(stream::WINDOWS@)
                &&& selected.2 == texts(streams@).contains(stream::OPERATION@)
            },
        },
{
    let ghost all = texts(streams@);
    let mut applications = false;
    let mut windows = false;
    let mut operation = false;
    assert(all.skip(0) =~= all);
    for i in 0..streams.len()
        invariant
            all == texts(streams@),
            unknown_stream(all) == unknown_stream(all.skip(i as int)),
            applications == all.take(i as int).contains(stream::APPLICATIONS@),
            windows == all.take(i as int).contains(stream::WINDOWS@),
            operation == all.take(i as int).contains(stream::OPERATION@),
    {
        let name = streams[i].as_str();
        assert(all.skip(i as int)[0] == name@);
        assert(all.skip(i as int).skip(1) =~= all.skip(i + 1));
        proof {
            lemma_take_next(all, i as int);
        }
        let is_applications = same_text(name, stream::APPLICATIONS);
        let is_windows = same_text(name, stream::WINDOWS);
        let is_operation = same_text(name, stream::OPERATION);
        if !is_applications && !is_windows && !is_operation {
            return Err(streams[i].clone());
        }
        applications = applications || is_applications;
        windows = windows || is_windows;
        operation = operation || is_operation;
    }
    assert(all.take(all.len() as int) =~= all);
    assert(all.skip(all.len() as int).len() == 0);
    Ok((applications, windows, operation))
}

pub open spec fn change_view(change: (&'static str, u64)) -> (Seq<char>, u64) {
    (change.0@, change.1)
}

/// The streams on which a change is announced, with the new revisions.
pub open spec fn changes(
    selected: (bool, bool, bool),
    previous: StateRevision,
    current: StateRevision,
) -> Seq<(Seq<char>, u64)> {
    let first = if selected.0 && current.catalog != previous.catalog {
        seq![(stream::APPLICATIONS@, current.catalog)]
    } else {
        Seq::empty()
    };
    if selected.1 && current.windows != previous.windows {
        first.push((stream::WINDOWS@, current.windows))
    } else {
        first
    }
}

pub fn revision_changes(
    selected: (bool, bool, bool),
    previous: StateRevision,
    current: StateRevision,
) -> (list: Vec<(&'static str, u64)>)
    ensures
        list@.map_values(|change: (&'static str, u64)| change_view(change)) == changes(
            selected,
            previous,
            current,
        ),
{
    let mut list: Vec<(&'static str, u64)> = Vec::new();
    if selected.0 && current.catalog != previous.catalog {
        list.push((stream::APPLICATIONS, current.catalog));
    }
    if selected.1 && current.windows != previous.windows {
        list.push((stream::WINDOWS, current.windows));
    }
    assert(list@.map_values(|change: (&'static str, u64)| change_view(change)) =~= changes(
        selected,
        previous,
        current,
    ));
    list
}

/// Nothing is announced where nothing changed, and nothing on a stream that was
/// not asked for.
pub proof fn lemma_quiet(selected: (bool, bool, bool), previous: StateRevision, current: StateRevision)
    ensures
        changes(selected, previous, previous).len() == 0,
        !selected.0 && !selected.1 ==> changes(selected, previous, current).len() == 0,
        forall|i: int|
            0 <= i < changes(selected, previous, current).len() ==> {
                let change = #[trigger] changes(selected, previous, current)[i];
                ||| change == (stream::APPLICATIONS@, current.catalog) && selected.0
                ||| change == (stream::WINDOWS@, current.windows) && selected.1
            },
{
}

// ---------------------------------------------------------------------
// Forwarding

/// What an event tells.
#[derive(Debug)]
pub enum Detail {
    /// The subscription begins at these revisions.
    Subscribed(StateRevision),
    /// The new revision.
    Changed(u64),
    Operation(OperationResult),
}

/// An event on a stream.
#[derive(Debug)]
pub struct Emission {
    pub stream: &'static str,
    pub event: String,
    pub detail: Detail,
}

/// What a [`Detail`] stands for.
#[verifier::ext_equal]
pub enum DetailView {
    Subscribed(StateRevision),
    Changed(u64),
    Operation(OperationView),
}

/// What an [`Emission`] stands for.
#[verifier::ext_equal]
pub struct EmissionView {
    pub stream: Seq<char>,
    pub event: Seq<char>,
    pub detail: DetailView,
}

impl View for Detail {
    type V = DetailView;

    open spec fn view(&self) -> DetailView {
        match self {
            Detail::Subscribed(revision) => DetailView::Subscribed(*revision),
            Detail::Changed(revision) => DetailView::Changed(*revision),
            Detail::Operation(operation) => DetailView::Operation(operation@),
        }
    }
}

impl View for Emission {
    type V = EmissionView;

    open spec fn view(&self) -> EmissionView {
        EmissionView { stream: self.stream@, event: self.event@, detail: self.detail@ }
    }
}

pub open spec fn emission_views(list: Seq<Emission>) -> Seq<EmissionView> {
    list.map_values(|e: Emission| e@)
}

/// What a subscription receives.
#[derive(Debug)]
pub enum Notice {
    /// The state changed.
    State(StateRevision),
    /// Changes were missed; this is the state now.
    StateMissed(StateRevision),
    Operation(OperationResult),
    /// So many operations were missed.
    OperationsMissed(u64),
    /// There is nothing more to receive.
    Closed,
}

/// What a subscription does.
#[derive(Debug)]
pub enum Forward {
    Emit(Vec<Emission>),
    /// Notes that so many operations were missed.
    Warn(u64),
    Stop,
}

/// What a [`Forward`] stands for.
#[verifier::ext_equal]
pub enum ForwardView {
    Emit(Seq<EmissionView>),
    Warn(u64),
    Stop,
}

impl View for Forward {
    type V = ForwardView;

    open spec fn view(&self) -> ForwardView {
        match self {
            Forward::Emit(list) => ForwardView::Emit(emission_views(list@)),
            Forward::Warn(count) => ForwardView::Warn(*count),
            Forward::Stop => ForwardView::Stop,
        }
    }
}

/// A subscription to some of the streams.
#[derive(Debug, Clone, Copy)]
pub struct Subscription {
    pub selected: (bool, bool, bool),
    pub previous: StateRevision,
}

/// The first events of a subscription: one on each stream that was asked for.
pub open spec fn greetings(selected: (bool, bool, bool), now: StateRevision) -> Seq<EmissionView> {
    let greet = |name: Seq<char>|
        EmissionView { stream: name, event: "subscribed"@, detail: DetailView::Subscribed(now) };
    let first = if selected.0 {
        seq![greet(stream::APPLICATIONS@)]
    } else {
        Seq::empty()
    };
    let second = if selected.1 {
        first.push(greet(stream::WINDOWS@))
    } else {
        first
    };
    if selected.2 {
        second.push(greet(stream::OPERATION@))
    } else {
        second
    }
}

/// The events that announce changes.
pub open spec fn announcements(list: Seq<(Seq<char>, u64)>) -> Seq<EmissionView> {
    list.map_values(
        |change: (Seq<char>, u64)|
            EmissionView {
                stream: change.0,
                event: "changed"@,
                detail: DetailView::Changed(change.1),
            },
    )
}

impl Subscription {
    /// What follows from what was received.
    pub open spec fn next(self, notice: Notice) -> (Subscription, ForwardView) {
        match notice {
            Notice::State(now) | Notice::StateMissed(now) => (
                Subscription { previous: now, ..self },
                ForwardView::Emit(announcements(changes(self.selected, self.previous, now))),
            ),
            Notice::Operation(operation) => (
                self,
                ForwardView::Emit(
                    if self.selected.2 {
                        seq![
                            EmissionView {
                                stream: stream::OPERATION@,
                                event: operation.status@,
                                detail: DetailView::Operation(operation@),
                            },
                        ]
                    } else {
                        Seq::empty()
                    },
                ),
            ),
            Notice::OperationsMissed(count) => (self, ForwardView::Warn(count)),
            Notice::Closed => (self, ForwardView::Stop),
        }
    }

    /// Begins a subscription.
    pub fn begin(selected: (bool, bool, bool), now: StateRevision) -> (begun: (Self, Vec<Emission>))
        ensures
            begun.0 == (Subscription { selected, previous: now }),
            emission_views(begun.1@) == greetings(selected, now),
    {
        let mut list: Vec<Emission> = Vec::new();
        if selected.0 {
            list.push(greeting(stream::APPLICATIONS, now));
        }
        if selected.1 {
            list.push(greeting(stream::WINDOWS, now));
        }
        if selected.2 {
            list.push(greeting(stream::OPERATION, now));
        }
        assert(emission_views(list@) =~= greetings(selected, now));
        (Subscription { selected, previous: now }, list)
    }

    /// What to tell the subscriber.
    pub fn receive(&mut self, notice: Notice) -> (forward: Forward)
        ensures
            (*final(self), forward@) == old(self).next(notice),
    {
        match notice {
            Notice::State(now) | Notice::StateMissed(now) => {
                let found = revision_changes(self.selected, self.previous, now);
                let ghost f = |change: (&'static str, u64)| change_view(change);
                let ghost wanted = announcements(changes(self.selected, self.previous, now));
                let mut list: Vec<Emission> = Vec::new();
                for i in 0..found.len()
                    invariant
                        f == (|change: (&'static str, u64)| change_view(change)),
                        wanted == announcements(found@.map_values(f)),
                        emission_views(list@) == wanted.take(i as int),
                {
                    let ghost before = emission_views(list@);
                    let (name, revision) = found[i];
                    assert(found@.map_values(f)[i as int] == (name@, revision));
                    let emission = Emission {
                        stream: name,
                        event: "changed".to_owned(),
                        detail: Detail::Changed(revision),
                    };
                    list.push(emission);
                    assert(emission_views(list@) =~= before.push(emission@));
                    assert(wanted.take(i + 1) =~= wanted.take(i as int).push(wanted[i as int]));
                }
                assert(wanted.take(wanted.len() as int) =~= wanted);
                self.previous = now;
                Forward::Emit(list)
            },
            Notice::Operation(operation) => {
                let mut list: Vec<Emission> = Vec::new();
                assert(emission_views(list@) =~= Seq::empty());
                if self.selected.2 {
                    let emission = Emission {
                        stream: stream::OPERATION,
                        event: operation.status.clone(),
                        detail: Detail::Operation(operation),
                    };
                    list.push(emission);
                    assert(emission_views(list@) =~= seq![emission@]);
                }
                Forward::Emit(list)
            },
            Notice::OperationsMissed(count) => Forward::Warn(count),
            Notice::Closed => Forward::Stop,
        }
    }
}

fn greeting(name: &'static str, now: StateRevision) -> (emission: Emission)
    ensures
        emission@ == (EmissionView {
            stream: name@,
            event: "subscribed"@,
            detail: DetailView::Subscribed(now),
        }),
{
    Emission { stream: name, event: "subscribed".to_owned(), detail: Detail::Subscribed(now) }
}

// ---------------------------------------------------------------------
// Names of requests

/// Gives each subscription a name of its own.
#[derive(Debug, Clone, Copy)]
pub struct SubscriptionNames {
    pub next: u64,
}

impl SubscriptionNames {
    pub fn new() -> (names: Self)
        ensures
            names.next == 1,
    {
        SubscriptionNames { next: 1 }
    }

    pub fn take(&mut self) -> (name: String)
        ensures
            name@ == "subscription-"@ + decimal(old(self).next as nat),
            final(self).next == (if old(self).next == u64::MAX {
                0
            } else {
                old(self).next + 1
            }),
    {
        let mut chars = chars_of("subscription-");
        let digits = decimal_chars(self.next);
        append(&mut chars, digits.as_slice());
        self.next = if self.next == u64::MAX {
            0
        } else {
            self.next + 1
        };
        string_of(chars.as_slice())
    }
}

/// What a client cancelled.
#[derive(Debug, Clone, Copy, PartialEq, Eq, Structural)]
pub enum RequestKind {
    Subscription,
    Operation,
}

impl RequestKind {
    pub open spec fn text(self) -> Seq<char> {
        match self {
            RequestKind::Subscription => "subscription"@,
            RequestKind::Operation => "operation"@,
        }
    }

    pub fn as_str(self) -> (text: &'static str)
        ensures
            text@ == self.text(),
    {
        match self {
            RequestKind::Subscription => "subscription",
            RequestKind::Operation => "operation",
        }
    }
}

/// The answer to a client that cancels: a subscription goes before an operation
/// of the same name.
pub fn cancelled(id: &str, subscription: bool, operation: bool) -> (answer: Result<
    RequestKind,
    ApiError,
>)
    ensures
        match answer {
            Ok(kind) => (subscription || operation) && kind == (if subscription {
                RequestKind::Subscription
            } else {
                RequestKind::Operation
            }),
            Err(e) => !subscription && !operation && e.is(
                "request-not-found"@,
                "No active request named "@ + id@,
            ),
        },
{
    if subscription {
        Ok(RequestKind::Subscription)
    } else if operation {
        Ok(RequestKind::Operation)
    } else {
        Err(request_not_found(id))
    }
}

// ---------------------------------------------------------------------
// Correlation

/// A request that a client waits for.
#[derive(Debug)]
pub struct AwaitedRequest {
    pub id: String,
    pub kind: RequestKind,
}

/// The request that an answer begins: an operation, or else a subscription.
pub fn response_id(operation: Option<String>, subscription: Option<String>) -> (awaited: Option<
    AwaitedRequest,
>)
    ensures
        match awaited {
            Some(t) => match t.kind {
                RequestKind::Operation => optional_text(operation) == Some(t.id@),
                RequestKind::Subscription => operation is None && optional_text(subscription)
                    == Some(t.id@),
            },
            None => operation is None && subscription is None,
        },
{
    match operation {
        Some(id) => Some(AwaitedRequest { id, kind: RequestKind::Operation }),
        None => match subscription {
            Some(id) => Some(AwaitedRequest { id, kind: RequestKind::Subscription }),
            None => None,
        },
    }
}

/// The request that an event belongs to.
pub fn event_id(name: &str, operation: Option<String>, subscription: Option<String>) -> (id: Option<
    String,
>)
    ensures
        optional_text(id) == (if name@ == stream::OPERATION@ {
            optional_text(operation)
        } else {
            optional_text(subscription)
        }),
{
    if same_text(name, stream::OPERATION) {
        operation
    } else {
        subscription
    }
}

/// A status after which an operation has no other.
pub open spec fn is_final_status(status: Seq<char>) -> bool {
    status == "completed"@ || status == "failed"@ || status == "cancelled"@
}

/// An event after which a request is over.
pub fn is_terminal(name: &str, event: Option<&str>) -> (yes: bool)
    ensures
        yes == (name@ == stream::OPERATION@ && (match event {
            Some(e) => is_final_status(e@),
            None => false,
        })),
{
    match event {
        None => false,
        Some(event) => same_text(name, stream::OPERATION) && (same_text(event, "completed")
            || same_text(event, "failed") || same_text(event, "cancelled")),
    }
}

} // verus!
