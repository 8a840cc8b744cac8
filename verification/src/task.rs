//! The driver's background-task slot as an explicit state machine: at most
//! one task is watched at a time, each tick polls it without blocking, and
//! starting a new task while one runs is a visible replace-and-detach
//! decision rather than a silent overwrite. A download task additionally
//! exposes a progress fraction that only ever grows.

use vstd::prelude::*;

verus! {

/// What a background worker was dispatched for.
#[derive(Debug, Clone, Copy, PartialEq, Eq, Structural)]
pub enum TaskKind {
    LoadingData,
    LoadingReplay,
    Updating,
    PopulatePlayerInspectorFromReplays,
}

/// The driver's single task slot.
#[derive(Debug, Clone, Copy, PartialEq, Eq, Structural)]
pub enum TaskSlot {
    Idle,
    Running(TaskKind),
}

/// What one non-blocking poll of the worker's result channel yielded:
/// nothing yet, a result (with its success flag), or a worker gone without
/// one.
#[derive(Debug, Clone, Copy, PartialEq, Eq, Structural)]
pub enum TaskPoll {
    Pending,
    Delivered(bool),
    Vanished,
}

/// What the driver does after a tick's poll.
#[derive(Debug, Clone, Copy, PartialEq, Eq, Structural)]
pub enum TaskOutcome {
    /// Nothing was running; nothing to do.
    NothingRunning,
    /// The worker has not finished; keep waiting.
    StillRunning,
    /// The worker finished; consume its result, successful or not.
    Completed(TaskKind, bool),
    /// The worker vanished without a result; treated as a benign no-op,
    /// not an error.
    VanishedQuietly,
}

impl TaskSlot {
    /// A fresh slot with nothing running.
    pub fn new() -> (r: TaskSlot)
        ensures
            r == TaskSlot::Idle,
    {
        TaskSlot::Idle
    }

    /// Whether a task occupies the slot.
    pub fn is_running(&self) -> (r: bool)
        ensures
            r == (*self is Running),
    {
        match self {
            TaskSlot::Running(_) => true,
            TaskSlot::Idle => false,
        }
    }

    /// Install a newly dispatched task. A task already in the slot is
    /// detached — left running with nobody to consume its result — and the
    /// flag says so, making the replacement an explicit decision.
    pub fn start(&mut self, kind: TaskKind) -> (detached: bool)
        ensures
            *final(self) == TaskSlot::Running(kind),
            detached == (*old(self) is Running),
    {
        let was_running = self.is_running();
        *self = TaskSlot::Running(kind);
        was_running
    }

    /// Apply one tick's poll: a pending worker stays, a delivered result
    /// or a vanished worker empties the slot, and the outcome says which
    /// of the four cases held.
    pub fn on_poll(&mut self, poll: TaskPoll) -> (r: TaskOutcome)
        ensures
            *old(self) is Idle ==> *final(self) == TaskSlot::Idle && r == TaskOutcome::NothingRunning,
            forall|k: TaskKind|
                *old(self) == TaskSlot::Running(k) ==> match poll {
                    TaskPoll::Pending => *final(self) == TaskSlot::Running(k) && r
                        == TaskOutcome::StillRunning,
                    TaskPoll::Delivered(ok) => *final(self) == TaskSlot::Idle && r
                        == TaskOutcome::Completed(k, ok),
                    TaskPoll::Vanished => *final(self) == TaskSlot::Idle && r
                        == TaskOutcome::VanishedQuietly,
                },
    {
        match *self {
            TaskSlot::Idle => TaskOutcome::NothingRunning,
            TaskSlot::Running(kind) => {
                match poll {
                    TaskPoll::Pending => TaskOutcome::StillRunning,
                    TaskPoll::Delivered(ok) => {
                        *self = TaskSlot::Idle;
                        TaskOutcome::Completed(kind, ok)
                    },
                    TaskPoll::Vanished => {
                        *self = TaskSlot::Idle;
                        TaskOutcome::VanishedQuietly
                    },
                }
            },
        }
    }
}

/// Thousandths of a download, the whole at 1000.
pub const PROGRESS_WHOLE: u32 = 1000;

/// The progress surface of a download task: a fraction that only ever
/// grows, whatever order samples arrive in.
pub struct DownloadProgress {
    permille: u32,
}

impl DownloadProgress {
    /// Thousandths of the download reported so far.
    pub closed spec fn spec_permille(self) -> u32 {
        self.permille
    }

    /// The fraction shown never exceeds the whole.
    pub open spec fn wf(self) -> bool {
        self.spec_permille() <= PROGRESS_WHOLE
    }

    /// Progress starts at nothing.
    pub fn new() -> (r: DownloadProgress)
        ensures
            r.wf(),
            r.spec_permille() == 0,
    {
        DownloadProgress { permille: 0 }
    }

    /// Fold one observed sample in: clamped to the whole, and never moving
    /// backwards.
    pub fn observe(&mut self, sample: u32)
        requires
            old(self).wf(),
        ensures
            final(self).wf(),
            final(self).spec_permille() == if sample > PROGRESS_WHOLE {
                if old(self).spec_permille() > PROGRESS_WHOLE {
                    old(self).spec_permille()
                } else {
                    PROGRESS_WHOLE
                }
            } else if sample > old(self).spec_permille() {
                sample
            } else {
                old(self).spec_permille()
            },
            final(self).spec_permille() >= old(self).spec_permille(),
    {
        let clamped = if sample > PROGRESS_WHOLE {
            PROGRESS_WHOLE
        } else {
            sample
        };
        if clamped > self.permille {
            self.permille = clamped;
        }
    }

    /// Thousandths of the download reported so far.
    pub fn permille(&self) -> (r: u32)
        ensures
            r == self.spec_permille(),
    {
        self.permille
    }
}

} // verus!
