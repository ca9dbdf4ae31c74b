//! Coordinated shutdown.
//!
//! Every long-lived task holds a handle. Any handle can ask for shutdown;
//! the request is a broadcast that every handle observes, now or later, and
//! asking again changes nothing. Shutdown is complete when the last handle
//! is gone. This module keeps the state that all handles of one server
//! share and decides what each operation does to it; the caller guards the
//! state against concurrent use, wakes waiting tasks and counts its handles
//! in and out.

use vstd::prelude::*;

verus! {

/// What the handles of one server share, as plain values.
pub struct ShutdownView {
    /// Whether shutdown has been asked for.
    pub requested: bool,
    /// How many handles exist.
    pub handles: nat,
}

/// Something that happens to the shared state.
pub enum ShutdownEvent {
    /// A handle asks for shutdown.
    Request,
    /// A handle is cloned.
    CloneHandle,
    /// A handle is dropped.
    DropHandle,
}

/// The state of a server that has just started: nobody has asked for
/// shutdown, and the root handle is the only one.
pub open spec fn initial_view() -> ShutdownView {
    ShutdownView { requested: false, handles: 1 }
}

/// Whether `event` can happen in `view`: each event takes a handle to act
/// through.
pub open spec fn can_happen(view: ShutdownView, event: ShutdownEvent) -> bool {
    view.handles >= 1
}

/// The state after `event`.
pub open spec fn after_event(view: ShutdownView, event: ShutdownEvent) -> ShutdownView {
    match event {
        ShutdownEvent::Request => ShutdownView { requested: true, handles: view.handles },
        ShutdownEvent::CloneHandle => ShutdownView {
            requested: view.requested,
            handles: view.handles + 1,
        },
        ShutdownEvent::DropHandle => ShutdownView {
            requested: view.requested,
            handles: if view.handles >= 1 {
                (view.handles - 1) as nat
            } else {
                0
            },
        },
    }
}

/// Whether shutdown is complete: no handle is left.
pub open spec fn is_complete(view: ShutdownView) -> bool {
    view.handles == 0
}

/// Whether `events` can happen one after the other, starting in `view`.
pub open spec fn can_run(view: ShutdownView, events: Seq<ShutdownEvent>) -> bool
    decreases events.len(),
{
    events.len() == 0 || (can_happen(view, events[0]) && can_run(
        after_event(view, events[0]),
        events.skip(1),
    ))
}

/// The state after all of `events`, starting in `view`.
pub open spec fn after_events(view: ShutdownView, events: Seq<ShutdownEvent>) -> ShutdownView
    decreases events.len(),
{
    if events.len() == 0 {
        view
    } else {
        after_events(after_event(view, events[0]), events.skip(1))
    }
}

/// How many of `events` clone a handle.
pub open spec fn clones_in(events: Seq<ShutdownEvent>) -> nat
    decreases events.len(),
{
    if events.len() == 0 {
        0
    } else {
        (if events[0] is CloneHandle {
            1nat
        } else {
            0nat
        }) + clones_in(events.skip(1))
    }
}

/// How many of `events` drop a handle.
pub open spec fn drops_in(events: Seq<ShutdownEvent>) -> nat
    decreases events.len(),
{
    if events.len() == 0 {
        0
    } else {
        (if events[0] is DropHandle {
            1nat
        } else {
            0nat
        }) + drops_in(events.skip(1))
    }
}

/// Whether one of `events` asks for shutdown.
pub open spec fn requests_in(events: Seq<ShutdownEvent>) -> bool
    decreases events.len(),
{
    events.len() > 0 && (events[0] is Request || requests_in(events.skip(1)))
}

/// What a call of [`ShutdownState::request_shutdown`] asks the caller to do.
#[derive(Clone, Copy, Debug, PartialEq, Eq, Structural)]
pub enum ShutdownSignal {
    /// This call was the first to ask: wake every task that waits for
    /// shutdown.
    WakeWaiters,
    /// Shutdown had been asked for already: there is nothing to do.
    AlreadyRequested,
}

/// What a call of [`ShutdownState::drop_handle`] asks the caller to do.
#[derive(Clone, Copy, Debug, PartialEq, Eq, Structural)]
pub enum Completion {
    /// The last handle is gone: tell the root that shutdown is complete.
    Complete,
    /// Other handles are left.
    Pending,
}

/// The state that all shutdown handles of one server share.
pub struct ShutdownState {
    requested: bool,
    handles: u64,
}

impl View for ShutdownState {
    type V = ShutdownView;

    closed spec fn view(&self) -> ShutdownView {
        ShutdownView { requested: self.requested, handles: self.handles as nat }
    }
}

impl ShutdownState {
    /// The state of a server that has just started, with its root handle.
    pub fn new() -> (state: ShutdownState)
        ensures
            state@ == initial_view(),
    {
        ShutdownState { requested: false, handles: 1 }
    }

    /// Whether shutdown has been asked for. Asking about it changes
    /// nothing, so every handle gets the same answer, however late it was
    /// made.
    pub fn is_requested(&self) -> (requested: bool)
        ensures
            requested == self@.requested,
    {
        self.requested
    }

    /// The number of handles that exist.
    pub fn handles(&self) -> (count: u64)
        ensures
            count == self@.handles,
    {
        self.handles
    }

    /// Whether shutdown is complete: no handle is left.
    pub fn is_complete(&self) -> (complete: bool)
        ensures
            complete == is_complete(self@),
    {
        self.handles == 0
    }

    /// Asks for shutdown. The first call says to wake the waiting tasks;
    /// every later call finds the request in place and changes nothing.
    pub fn request_shutdown(&mut self) -> (signal: ShutdownSignal)
        ensures
            final(self)@ == after_event(old(self)@, ShutdownEvent::Request),
            signal == if old(self)@.requested {
                ShutdownSignal::AlreadyRequested
            } else {
                ShutdownSignal::WakeWaiters
            },
    {
        if self.requested {
            ShutdownSignal::AlreadyRequested
        } else {
            self.requested = true;
            ShutdownSignal::WakeWaiters
        }
    }

    /// Counts a new handle in. The answer is what the new handle observes
    /// at once: whether shutdown has been asked for already.
    pub fn clone_handle(&mut self) -> (requested: bool)
        requires
            old(self)@.handles < u64::MAX,
        ensures
            final(self)@ == after_event(old(self)@, ShutdownEvent::CloneHandle),
            requested == old(self)@.requested,
    {
        self.handles = self.handles + 1;
        self.requested
    }

    /// Counts a new handle in, unless the count has no room for one more:
    /// in that case nothing changes and the answer is `None`.
    pub fn try_clone_handle(&mut self) -> (requested: Option<bool>)
        ensures
            old(self)@.handles < u64::MAX ==> requested == Some(old(self)@.requested)
                && final(self)@ == after_event(old(self)@, ShutdownEvent::CloneHandle),
            old(self)@.handles >= u64::MAX ==> requested is None && final(self)@ == old(self)@,
    {
        if self.handles < u64::MAX {
            Some(self.clone_handle())
        } else {
            None
        }
    }

    /// Counts a handle out. The answer says whether it was the last one.
    /// Where no handle is left to count out, nothing changes.
    pub fn drop_handle(&mut self) -> (completion: Completion)
        ensures
            final(self)@ == after_event(old(self)@, ShutdownEvent::DropHandle),
            completion == if is_complete(final(self)@) {
                Completion::Complete
            } else {
                Completion::Pending
            },
    {
        if self.handles > 0 {
            self.handles = self.handles - 1;
        }
        if self.handles == 0 {
            Completion::Complete
        } else {
            Completion::Pending
        }
    }
}

/// Asking for shutdown twice is the same as asking once.
pub proof fn lemma_request_is_idempotent(view: ShutdownView)
    ensures
        after_event(after_event(view, ShutdownEvent::Request), ShutdownEvent::Request)
            == after_event(view, ShutdownEvent::Request),
        after_event(view, ShutdownEvent::Request).requested,
{
}

/// A request is never taken back: once shutdown has been asked for, it
/// stays asked for whatever happens next, so a handle that is cloned after
/// the request finds it in place.
pub proof fn lemma_request_is_kept(view: ShutdownView, events: Seq<ShutdownEvent>)
    requires
        view.requested,
    ensures
        after_events(view, events).requested,
    decreases events.len(),
{
    if events.len() > 0 {
        lemma_request_is_kept(after_event(view, events[0]), events.skip(1));
    }
}

/// Shutdown has been asked for after a run of events exactly when it had
/// been asked for before or one of the events asks for it.
pub proof fn lemma_requested_iff_asked(view: ShutdownView, events: Seq<ShutdownEvent>)
    ensures
        after_events(view, events).requested <==> (view.requested || requests_in(events)),
    decreases events.len(),
{
    if events.len() > 0 {
        lemma_requested_iff_asked(after_event(view, events[0]), events.skip(1));
    }
}

/// The handles that are left after a run of events are those that were
/// there, plus the clones, minus the drops: the order in which they were
/// cloned and dropped plays no part.
pub proof fn lemma_handles_are_counted(view: ShutdownView, events: Seq<ShutdownEvent>)
    requires
        can_run(view, events),
    ensures
        after_events(view, events).handles + drops_in(events) == view.handles + clones_in(events),
    decreases events.len(),
{
    if events.len() > 0 {
        lemma_handles_are_counted(after_event(view, events[0]), events.skip(1));
    }
}

/// Shutdown of a server is complete exactly when every handle has been
/// dropped, the root handle and every clone: never before the last drop,
/// in whatever order the handles go.
pub proof fn lemma_complete_after_last_drop(events: Seq<ShutdownEvent>)
    requires
        can_run(initial_view(), events),
    ensures
        is_complete(after_events(initial_view(), events)) <==> drops_in(events) == clones_in(
            events,
        ) + 1,
{
    lemma_handles_are_counted(initial_view(), events);
}

/// A run of events can be cut at any point: its first part can happen, the
/// rest can happen after it, and both together end where the whole run ends.
pub proof fn lemma_run_can_be_cut(view: ShutdownView, events: Seq<ShutdownEvent>, cut: int)
    requires
        can_run(view, events),
        0 <= cut <= events.len(),
    ensures
        can_run(view, events.take(cut)),
        can_run(after_events(view, events.take(cut)), events.skip(cut)),
        after_events(after_events(view, events.take(cut)), events.skip(cut)) == after_events(
            view,
            events,
        ),
    decreases cut,
{
    if cut == 0 {
        assert(events.skip(0) =~= events);
    } else {
        let next = after_event(view, events[0]);
        lemma_run_can_be_cut(next, events.skip(1), cut - 1);
        assert(events.take(cut).skip(1) =~= events.skip(1).take(cut - 1));
        assert(events.skip(1).skip(cut - 1) =~= events.skip(cut));
        assert(events.take(cut)[0] == events[0]);
    }
}

/// Shutdown is not complete while anything is still to happen: in a run of
/// events that the handles of a server go through, no handle count reaches
/// zero before the last event.
pub proof fn lemma_not_complete_before_the_end(events: Seq<ShutdownEvent>, before: int)
    requires
        can_run(initial_view(), events),
        0 <= before < events.len(),
    ensures
        !is_complete(after_events(initial_view(), events.take(before))),
{
    lemma_run_can_be_cut(initial_view(), events, before);
    assert(events.skip(before).len() > 0);
}

/// Once shutdown is complete nothing can happen any more: no handle is
/// left to act through.
pub proof fn lemma_complete_is_final(view: ShutdownView, event: ShutdownEvent)
    requires
        is_complete(view),
    ensures
        !can_happen(view, event),
{
}

} // verus!
