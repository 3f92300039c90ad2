//! The scheduler loop as a state machine: each event of the outside world
//! moves the loop one step and says what to do next.

use crate::actors::BufferMessage;
use crate::actors::DataLoadMessage;
use crate::actors::DataProcessMessage;
use crate::actors::DataSaveMessage;
use crate::report::report_body;
use crate::report::report_text;
use crate::report::Report;
use crate::types::Timestamp;
use vstd::prelude::*;

verus! {

/// What the loop is waiting for within an iteration.
#[derive(Clone, Copy, Debug, PartialEq, Eq, Structural)]
pub enum Phase {
    /// The next tick.
    Waiting,
    /// The contents of the symbol list.
    Loading,
    /// The report.
    Processing,
    /// The report to be buffered and its body appended to the file.
    Saving,
}

/// The state of the loop.
#[derive(Clone, Copy, Debug, PartialEq, Eq, Structural)]
pub enum LoopState {
    /// In iteration `iteration`, counted from one.
    Running { iteration: u64, phase: Phase },
    /// Ended at the iteration cap.
    Stopped,
    /// Ended by an I/O failure.
    Aborted,
}

/// What happened outside.
pub enum Event {
    /// A tick boundary was reached.
    Tick,
    /// The symbol list was read.
    Loaded(String),
    /// The symbol list could not be read.
    LoadFailed,
    /// The report was assembled.
    Processed(Report),
    /// The fetches could not be scheduled, so there is no report.
    ProcessFailed,
    /// The report was buffered and its body appended to the file.
    Saved,
    /// The report could not be buffered, or its body not appended to the
    /// file.
    SaveFailed,
}

/// What to do next.
pub enum Action {
    /// Read the symbol list.
    Load(DataLoadMessage),
    /// Fetch the symbols and assemble the report.
    Process(DataProcessMessage),
    /// Push the report into the buffer, then append its body to the file:
    /// the first message holds the whole report, the second its body.
    Store(BufferMessage, DataSaveMessage),
    /// Wait for the next tick.
    Wait,
    /// The loop has ended at its cap: leave.
    Stop,
    /// The loop has ended on a failure: surface it and leave.
    Abort,
    /// The event does not belong to the loop's state: nothing to do.
    Ignore,
}

/// An event by its contents; a report counts by its records.
pub enum EventView {
    Tick,
    Loaded(Seq<char>),
    LoadFailed,
    Processed(Seq<Seq<char>>),
    ProcessFailed,
    Saved,
    SaveFailed,
}

/// An action by its contents.
pub enum ActionView {
    Load { path: Seq<char> },
    Process { content: Seq<char>, from: (i64, u32), to: (i64, u32) },
    Store { buffered: Seq<char>, appended: Seq<char>, path: Seq<char> },
    Wait,
    Stop,
    Abort,
    Ignore,
}

impl View for Event {
    type V = EventView;

    open spec fn view(&self) -> EventView {
        match *self {
            Event::Tick => EventView::Tick,
            Event::Loaded(content) => EventView::Loaded(content@),
            Event::LoadFailed => EventView::LoadFailed,
            Event::Processed(report) => EventView::Processed(report.records()),
            Event::ProcessFailed => EventView::ProcessFailed,
            Event::Saved => EventView::Saved,
            Event::SaveFailed => EventView::SaveFailed,
        }
    }
}

impl View for Action {
    type V = ActionView;

    open spec fn view(&self) -> ActionView {
        match *self {
            Action::Load(msg) => ActionView::Load { path: msg.path@ },
            Action::Process(msg) => ActionView::Process {
                content: msg.content@,
                from: (msg.from.seconds(), msg.from.subsec_nanos()),
                to: (msg.to.seconds(), msg.to.subsec_nanos()),
            },
            Action::Store(buffer, save) => ActionView::Store {
                buffered: buffer.content@,
                appended: save.content@,
                path: save.path@,
            },
            Action::Wait => ActionView::Wait,
            Action::Stop => ActionView::Stop,
            Action::Abort => ActionView::Abort,
            Action::Ignore => ActionView::Ignore,
        }
    }
}

/// Whether iteration `iteration` lies beyond the cap. No cap, or a cap of
/// zero, lets the loop run forever.
pub open spec fn beyond_cap(max_iterations: Option<u64>, iteration: u64) -> bool {
    match max_iterations {
        Some(max) => max > 0 && iteration > max,
        None => false,
    }
}

/// The iteration that follows `iteration`; the count stays at its largest
/// value once it is reached.
pub open spec fn following(iteration: u64) -> u64 {
    if iteration < u64::MAX {
        (iteration + 1) as u64
    } else {
        iteration
    }
}

/// The state that follows `state` on `event`.
pub open spec fn next_state(max_iterations: Option<u64>, state: LoopState, event: EventView) -> LoopState {
    match (state, event) {
        (LoopState::Running { iteration, phase: Phase::Waiting }, EventView::Tick) => {
            if beyond_cap(max_iterations, iteration) {
                LoopState::Stopped
            } else {
                LoopState::Running { iteration, phase: Phase::Loading }
            }
        },
        (LoopState::Running { iteration, phase: Phase::Loading }, EventView::Loaded(_)) => {
            LoopState::Running { iteration, phase: Phase::Processing }
        },
        (LoopState::Running { iteration, phase: Phase::Loading }, EventView::LoadFailed) => {
            LoopState::Aborted
        },
        (LoopState::Running { iteration, phase: Phase::Processing }, EventView::Processed(_)) => {
            LoopState::Running { iteration, phase: Phase::Saving }
        },
        (LoopState::Running { iteration, phase: Phase::Processing }, EventView::ProcessFailed) => {
            LoopState::Aborted
        },
        (LoopState::Running { iteration, phase: Phase::Saving }, EventView::Saved) => {
            LoopState::Running { iteration: following(iteration), phase: Phase::Waiting }
        },
        (LoopState::Running { iteration, phase: Phase::Saving }, EventView::SaveFailed) => {
            LoopState::Aborted
        },
        _ => state,
    }
}

/// The configuration of a loop, by its contents.
pub struct SchedulerView {
    pub source: Seq<char>,
    pub target: Seq<char>,
    pub from: (i64, u32),
    pub to: (i64, u32),
    pub max_iterations: Option<u64>,
    pub state: LoopState,
}

/// The action that `event` calls for in the loop `scheduler`.
pub open spec fn next_action(scheduler: SchedulerView, event: EventView) -> ActionView {
    match (scheduler.state, event) {
        (LoopState::Running { iteration, phase: Phase::Waiting }, EventView::Tick) => {
            if beyond_cap(scheduler.max_iterations, iteration) {
                ActionView::Stop
            } else {
                ActionView::Load { path: scheduler.source }
            }
        },
        (LoopState::Running { iteration, phase: Phase::Loading }, EventView::Loaded(content)) => {
            ActionView::Process { content, from: scheduler.from, to: scheduler.to }
        },
        (LoopState::Running { iteration, phase: Phase::Loading }, EventView::LoadFailed) => {
            ActionView::Abort
        },
        (
            LoopState::Running { iteration, phase: Phase::Processing },
            EventView::Processed(records),
        ) => {
            ActionView::Store {
                buffered: report_text(records),
                appended: report_body(records),
                path: scheduler.target,
            }
        },
        (LoopState::Running { iteration, phase: Phase::Processing }, EventView::ProcessFailed) => {
            ActionView::Abort
        },
        (LoopState::Running { iteration, phase: Phase::Saving }, EventView::Saved) => {
            ActionView::Wait
        },
        (LoopState::Running { iteration, phase: Phase::Saving }, EventView::SaveFailed) => {
            ActionView::Abort
        },
        _ => ActionView::Ignore,
    }
}

/// The iteration of a running loop, counted from one.
pub open spec fn iteration_of(state: LoopState) -> Option<u64> {
    match state {
        LoopState::Running { iteration, phase } => Some(iteration),
        _ => None,
    }
}

/// A loop that has ended stays ended: no event moves it or calls for work.
pub proof fn ended_loop_stays_ended(scheduler: SchedulerView, event: EventView)
    requires
        scheduler.state == LoopState::Stopped || scheduler.state == LoopState::Aborted,
    ensures
        next_state(scheduler.max_iterations, scheduler.state, event) == scheduler.state,
        next_action(scheduler, event) == ActionView::Ignore,
{
}

/// No work beyond the cap: a tick that finds the iteration beyond the cap
/// stops the loop, and the symbol list is only ever read within the cap.
pub proof fn no_work_beyond_cap(scheduler: SchedulerView, event: EventView)
    ensures
        next_action(scheduler, event) is Load ==> iteration_of(scheduler.state) is Some
            && !beyond_cap(scheduler.max_iterations, iteration_of(scheduler.state).unwrap()),
        next_state(scheduler.max_iterations, scheduler.state, event) == LoopState::Stopped
            && scheduler.state != LoopState::Stopped ==> event == EventView::Tick
            && next_action(scheduler, event) == ActionView::Stop && iteration_of(
            scheduler.state,
        ) is Some && beyond_cap(
            scheduler.max_iterations,
            iteration_of(scheduler.state).unwrap(),
        ),
{
}

/// What a tick stores: once the report is in, the buffer is handed the
/// whole report, header first, and the writer its body alone, for the
/// output path.
pub proof fn report_is_buffered_whole_and_saved_by_body(
    scheduler: SchedulerView,
    records: Seq<Seq<char>>,
)
    requires
        scheduler.state matches LoopState::Running { phase: Phase::Processing, .. },
    ensures
        next_action(scheduler, EventView::Processed(records)) == (ActionView::Store {
            buffered: report_text(records),
            appended: report_body(records),
            path: scheduler.target,
        }),
{
}

/// The iteration count only moves forward, one at a time, and only when a
/// report has been saved.
pub proof fn iterations_advance_on_save(max_iterations: Option<u64>, state: LoopState, event: EventView)
    requires
        iteration_of(state) is Some,
        iteration_of(next_state(max_iterations, state, event)) is Some,
    ensures
        ({
            let before = iteration_of(state).unwrap();
            let after = iteration_of(next_state(max_iterations, state, event)).unwrap();
            &&& after == before || after == before + 1
            &&& after == before + 1 ==> event == EventView::Saved
        }),
{
}

/// The scheduler loop: where the symbols come from, where the reports go,
/// the period to report on, the iteration cap, and how far the loop has got.
pub struct Scheduler {
    source: String,
    target: String,
    from: Timestamp,
    to: Timestamp,
    max_iterations: Option<u64>,
    state: LoopState,
}

impl View for Scheduler {
    type V = SchedulerView;

    closed spec fn view(&self) -> SchedulerView {
        SchedulerView {
            source: self.source@,
            target: self.target@,
            from: (self.from.seconds(), self.from.subsec_nanos()),
            to: (self.to.seconds(), self.to.subsec_nanos()),
            max_iterations: self.max_iterations,
            state: self.state,
        }
    }
}

impl Scheduler {
    /// A loop about to start its first iteration.
    pub fn new(
        source: String,
        target: String,
        from: Timestamp,
        to: Timestamp,
        max_iterations: Option<u64>,
    ) -> (scheduler: Self)
        ensures
            scheduler@ == (SchedulerView {
                source: source@,
                target: target@,
                from: (from.seconds(), from.subsec_nanos()),
                to: (to.seconds(), to.subsec_nanos()),
                max_iterations,
                state: LoopState::Running { iteration: 1, phase: Phase::Waiting },
            }),
    {
        Scheduler {
            source,
            target,
            from,
            to,
            max_iterations,
            state: LoopState::Running { iteration: 1, phase: Phase::Waiting },
        }
    }

    /// The state of the loop.
    pub fn state(&self) -> (state: LoopState)
        ensures
            state == self@.state,
    {
        self.state
    }

    /// Takes `event` and returns what to do next.
    pub fn step(&mut self, event: Event) -> (action: Action)
        ensures
            action@ == next_action(old(self)@, event@),
            final(self)@ == (SchedulerView {
                state: next_state(old(self)@.max_iterations, old(self)@.state, event@),
                ..old(self)@
            }),
    {
        match self.state {
            LoopState::Running { iteration, phase } => match (phase, event) {
                (Phase::Waiting, Event::Tick) => {
                    let beyond = match self.max_iterations {
                        Some(max) => max > 0 && iteration > max,
                        None => false,
                    };
                    if beyond {
                        self.state = LoopState::Stopped;
                        Action::Stop
                    } else {
                        self.state = LoopState::Running { iteration, phase: Phase::Loading };
                        Action::Load(DataLoadMessage { path: self.source.clone() })
                    }
                },
                (Phase::Loading, Event::Loaded(content)) => {
                    self.state = LoopState::Running { iteration, phase: Phase::Processing };
                    Action::Process(
                        DataProcessMessage {
                            content,
                            from: self.from.clone(),
                            to: self.to.clone(),
                        },
                    )
                },
                (Phase::Loading, Event::LoadFailed) => {
                    self.state = LoopState::Aborted;
                    Action::Abort
                },
                (Phase::Processing, Event::Processed(report)) => {
                    self.state = LoopState::Running { iteration, phase: Phase::Saving };
                    Action::Store(
                        BufferMessage { content: report.text() },
                        DataSaveMessage { path: self.target.clone(), content: report.body() },
                    )
                },
                (Phase::Processing, Event::ProcessFailed) => {
                    self.state = LoopState::Aborted;
                    Action::Abort
                },
                (Phase::Saving, Event::Saved) => {
                    let next: u64 = if iteration < u64::MAX {
                        iteration + 1
                    } else {
                        iteration
                    };
                    self.state = LoopState::Running { iteration: next, phase: Phase::Waiting };
                    Action::Wait
                },
                (Phase::Saving, Event::SaveFailed) => {
                    self.state = LoopState::Aborted;
                    Action::Abort
                },
                _ => Action::Ignore,
            },
            LoopState::Stopped => Action::Ignore,
            LoopState::Aborted => Action::Ignore,
        }
    }
}

} // verus!
