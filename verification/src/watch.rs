//! When a watcher imports: once per burst of changes, after it has been quiet for a while.

use vstd::prelude::*;

verus! {

/// What a watcher remembers: whether something has changed since the last import.
#[derive(Debug, Clone, Copy, PartialEq, Eq, Structural)]
pub struct WatchState {
    pub changed: bool,
}

/// What a watcher is told.
#[derive(Debug, Clone, Copy, PartialEq, Eq, Structural)]
pub enum WatchEvent {
    /// Something has changed.
    Change,
    /// Nothing has changed for the quiet time.
    Quiet,
    /// No more changes will be told.
    Closed,
}

/// What a watcher does next.
#[derive(Debug, Clone, Copy, PartialEq, Eq, Structural)]
pub enum WatchAction {
    Wait,
    Import,
    Stop,
}

/// The watcher after an event, and what it does: it waits while changes come in, imports at the end
/// of a burst, and stops once no more changes will be told and none is left to import.
pub open spec fn watched(s: WatchState, e: WatchEvent) -> (WatchState, WatchAction) {
    match e {
        WatchEvent::Change => (WatchState { changed: true }, WatchAction::Wait),
        WatchEvent::Quiet => if s.changed {
            (WatchState { changed: false }, WatchAction::Import)
        } else {
            (s, WatchAction::Wait)
        },
        WatchEvent::Closed => if s.changed {
            (WatchState { changed: false }, WatchAction::Import)
        } else {
            (s, WatchAction::Stop)
        },
    }
}

/// The watcher before anything has happened.
pub fn watch_start() -> (r: WatchState)
    ensures
        r == (WatchState { changed: false }),
{
    WatchState { changed: false }
}

/// Takes in an event and tells what to do.
pub fn watch_step(s: WatchState, e: WatchEvent) -> (r: (WatchState, WatchAction))
    ensures
        r == watched(s, e),
{
    match e {
        WatchEvent::Change => (WatchState { changed: true }, WatchAction::Wait),
        WatchEvent::Quiet => if s.changed {
            (WatchState { changed: false }, WatchAction::Import)
        } else {
            (s, WatchAction::Wait)
        },
        WatchEvent::Closed => if s.changed {
            (WatchState { changed: false }, WatchAction::Import)
        } else {
            (s, WatchAction::Stop)
        },
    }
}

/// The watcher after a number of events.
pub open spec fn watched_all(events: Seq<WatchEvent>) -> WatchState
    decreases events.len(),
{
    if events.len() == 0 {
        WatchState { changed: false }
    } else {
        watched(watched_all(events.drop_last()), events.last()).0
    }
}

/// The action that an event of a list leads to.
pub open spec fn action_at(events: Seq<WatchEvent>, i: int) -> WatchAction {
    watched(watched_all(events.take(i)), events[i]).1
}

/// No change is lost: before a watcher stops, every change is followed by an import.
pub proof fn law_every_change_is_imported(events: Seq<WatchEvent>, change: int, stop: int)
    requires
        0 <= change < stop < events.len(),
        events[change] == WatchEvent::Change,
        action_at(events, stop) == WatchAction::Stop,
    ensures
        exists|i: int|
            change < i < stop && #[trigger] action_at(events, i) == WatchAction::Import,
{
    lemma_still_changed(events, change, stop);
}

proof fn lemma_still_changed(events: Seq<WatchEvent>, change: int, i: int)
    requires
        0 <= change < i <= events.len(),
        events[change] == WatchEvent::Change,
    ensures
        watched_all(events.take(i)).changed || exists|j: int|
            change < j < i && #[trigger] action_at(events, j) == WatchAction::Import,
    decreases i,
{
    assert(events.take(i).drop_last() =~= events.take(i - 1));
    assert(events.take(i).last() == events[i - 1]);
    if i > change + 1 {
        lemma_still_changed(events, change, i - 1);
        assert(action_at(events, i - 1) == watched(
            watched_all(events.take(i - 1)),
            events[i - 1],
        ).1);
    }
}

} // verus!
