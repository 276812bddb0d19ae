//! The decisions of the file watcher. Watching itself, and waiting, is the
//! caller's business: it tells the watcher what happened and is told what to
//! do about it.
use vstd::prelude::*;

verus! {

/// The kinds of change that a watched directory reports.
#[derive(Debug, Clone, Copy, PartialEq, Eq)]
pub enum EventKind {
    /// Files appeared.
    Create,
    /// Files changed.
    Modify,
    /// Files disappeared.
    Remove,
    /// Anything else.
    Other,
}

/// What the store did about a change, or wants done.
#[derive(Debug, Clone, Copy, PartialEq, Eq)]
pub enum WatchAction {
    /// The paths have to be scanned, and what is found there loaded.
    Scan,
    /// Streams left the index.
    Removed,
    /// Files disappeared that no indexed stream belonged to.
    NothingRemoved,
    /// The change is of no interest.
    Ignored,
}

/// What the loop of the watcher may learn while it waits.
#[derive(Debug, Clone, Copy, PartialEq, Eq)]
pub enum WatchSignal {
    /// A change was observed.
    Event(EventKind),
    /// Nothing happened for a while.
    Idle,
    /// The owner of the store asks the watcher to end.
    Shutdown,
    /// The channel to the store is closed.
    Closed,
}

/// What the loop of the watcher does next.
#[derive(Debug, Clone, Copy, PartialEq, Eq)]
pub enum WatchStep {
    /// Hand the change to the store and go on.
    Handle(EventKind),
    /// Go on waiting.
    Wait,
    /// Leave the loop.
    Exit,
}

/// The state of the loop of the watcher: running until it is asked to end or
/// loses its channel, and ended from then on.
#[derive(Debug, Clone, Copy, PartialEq, Eq)]
pub struct FileWatcher {
    exit: bool,
}

impl FileWatcher {
    /// Whether the loop has ended.
    pub closed spec fn ended(&self) -> bool {
        self.exit
    }

    /// A watcher whose loop is running.
    pub fn new() -> (watcher: FileWatcher)
        ensures
            !watcher.ended(),
    {
        FileWatcher { exit: false }
    }

    /// Whether the loop has ended.
    pub fn has_ended(&self) -> (ended: bool)
        ensures
            ended == self.ended(),
    {
        self.exit
    }

    /// Decides the next step of the loop. While the loop runs, a change is
    /// handed on, idle time is waited out, and a request to end or a closed
    /// channel ends the loop. Once the loop has ended it stays so, and no
    /// change is handed on any more.
    pub fn step(&mut self, signal: WatchSignal) -> (next: WatchStep)
        ensures
            old(self).ended() ==> final(self).ended() && next == WatchStep::Exit,
            !old(self).ended() ==> match signal {
                WatchSignal::Event(kind) => !final(self).ended() && next == WatchStep::Handle(kind),
                WatchSignal::Idle => !final(self).ended() && next == WatchStep::Wait,
                WatchSignal::Shutdown | WatchSignal::Closed => final(self).ended() && next
                    == WatchStep::Exit,
            },
    {
        if self.exit {
            return WatchStep::Exit;
        }
        match signal {
            WatchSignal::Event(kind) => WatchStep::Handle(kind),
            WatchSignal::Idle => WatchStep::Wait,
            WatchSignal::Shutdown | WatchSignal::Closed => {
                self.exit = true;
                WatchStep::Exit
            },
        }
    }
}

} // verus!
