//! The sweep task's life as a state machine. The library decides; whoever
//! schedules the task reports timer ticks and stop requests and acts on the
//! answer.

use vstd::prelude::*;
use crate::clock::Span;

verus! {

/// Whether a sweep task is still scheduled.
#[derive(Clone, Copy, Debug, PartialEq, Eq, Structural)]
pub enum CleanerState {
    Running,
    Stopped,
}

/// What happened to a sweep task: its timer fired, or it was asked to stop.
#[derive(Clone, Copy, Debug, PartialEq, Eq, Structural)]
pub enum CleanerEvent {
    Tick,
    Stop,
}

/// What a sweep task does next: sweep and wait for the next tick, or end.
#[derive(Clone, Copy, Debug, PartialEq, Eq, Structural)]
pub enum CleanerAction {
    Sweep,
    Terminate,
}

/// One scheduled sweep task: its state and the period of its timer.
#[derive(Clone, Copy, Debug, PartialEq, Eq, Structural)]
pub struct Cleaner {
    pub state: CleanerState,
    pub interval: Span,
}

impl Cleaner {
    /// The task after `event`. Only a tick leaves a running task running;
    /// a stopped task never runs again.
    pub open spec fn after(self, event: CleanerEvent) -> Cleaner {
        if self.state == CleanerState::Running && event == CleanerEvent::Tick {
            self
        } else {
            Cleaner { state: CleanerState::Stopped, interval: self.interval }
        }
    }

    /// What the task does on `event`: a running task sweeps on a tick, and
    /// in every other case the task ends.
    pub open spec fn action_on(self, event: CleanerEvent) -> CleanerAction {
        if self.state == CleanerState::Running && event == CleanerEvent::Tick {
            CleanerAction::Sweep
        } else {
            CleanerAction::Terminate
        }
    }

    /// A fresh task, running, with the given period.
    pub fn new(interval: Span) -> (c: Cleaner)
        ensures
            c == (Cleaner { state: CleanerState::Running, interval }),
    {
        Cleaner { state: CleanerState::Running, interval }
    }

    /// Whether the task is still scheduled.
    pub fn is_running(&self) -> (r: bool)
        ensures
            r == (self.state == CleanerState::Running),
    {
        self.state == CleanerState::Running
    }

    /// Takes one event and says what to do.
    pub fn step(&mut self, event: CleanerEvent) -> (action: CleanerAction)
        ensures
            *final(self) == old(self).after(event),
            action == old(self).action_on(event),
    {
        if self.state == CleanerState::Running && event == CleanerEvent::Tick {
            CleanerAction::Sweep
        } else {
            self.state = CleanerState::Stopped;
            CleanerAction::Terminate
        }
    }
}

/// All the sweep tasks that were ever started for one cache, by number.
pub struct CleanerSet {
    tasks: Vec<Cleaner>,
}

/// Every task of `tasks` after a stop request.
pub open spec fn all_stopped(tasks: Seq<Cleaner>) -> Seq<Cleaner> {
    Seq::new(tasks.len(), |i: int| tasks[i].after(CleanerEvent::Stop))
}

/// `tasks` after task `id` took `event`; an unknown number changes nothing.
pub open spec fn stepped(tasks: Seq<Cleaner>, id: int, event: CleanerEvent) -> Seq<Cleaner> {
    if 0 <= id < tasks.len() {
        tasks.update(id, tasks[id].after(event))
    } else {
        tasks
    }
}

/// Task `id` of `tasks`, if there is one.
pub open spec fn task_at(tasks: Seq<Cleaner>, id: int) -> Option<Cleaner> {
    if 0 <= id < tasks.len() {
        Some(tasks[id])
    } else {
        None
    }
}

/// What task `id` does on `event`; an unknown number ends.
pub open spec fn action_of(tasks: Seq<Cleaner>, id: int, event: CleanerEvent) -> CleanerAction {
    if 0 <= id < tasks.len() {
        tasks[id].action_on(event)
    } else {
        CleanerAction::Terminate
    }
}

/// A stopped task is at its end: whatever happens, it stays stopped and
/// only ever ends.
pub proof fn lemma_stopped_is_final(task: Cleaner, event: CleanerEvent)
    requires
        task.state == CleanerState::Stopped,
    ensures
        task.after(event) == task,
        task.action_on(event) == CleanerAction::Terminate,
{
}

/// Asking twice to stop is asking once, and a task started after the
/// request runs, untouched by it.
pub proof fn lemma_stop_then_start(tasks: Seq<Cleaner>, interval: Span)
    ensures
        all_stopped(all_stopped(tasks)) == all_stopped(tasks),
        forall|id: int|
            0 <= id < tasks.len() ==> (#[trigger] all_stopped(tasks)[id]).state
                == CleanerState::Stopped,
        action_of(
            all_stopped(tasks).push(Cleaner { state: CleanerState::Running, interval }),
            tasks.len() as int,
            CleanerEvent::Tick,
        ) == CleanerAction::Sweep,
{
    assert(all_stopped(all_stopped(tasks)) =~= all_stopped(tasks));
}

impl CleanerSet {
    /// The tasks in the order in which they were started.
    pub closed spec fn view(&self) -> Seq<Cleaner> {
        self.tasks@
    }

    /// No task yet.
    pub fn new() -> (s: CleanerSet)
        ensures
            s@ == Seq::<Cleaner>::empty(),
    {
        CleanerSet { tasks: Vec::new() }
    }

    /// How many tasks were started so far.
    pub fn count(&self) -> (n: usize)
        ensures
            n == self@.len(),
    {
        self.tasks.len()
    }

    /// Task `id`, if there is one.
    pub fn get(&self, id: usize) -> (c: Option<Cleaner>)
        ensures
            c == task_at(self@, id as int),
    {
        if id < self.tasks.len() {
            Some(self.tasks[id])
        } else {
            None
        }
    }

    /// Starts a fresh running task and gives its number.
    pub fn start(&mut self, interval: Span) -> (id: usize)
        ensures
            final(self)@ == old(self)@.push(Cleaner { state: CleanerState::Running, interval }),
            id == old(self)@.len(),
    {
        let id: usize = self.tasks.len();
        self.tasks.push(Cleaner::new(interval));
        id
    }

    /// Asks every task to stop.
    pub fn stop_all(&mut self)
        ensures
            final(self)@ == all_stopped(old(self)@),
    {
        let n: usize = self.tasks.len();
        let mut i: usize = 0;
        while i < n
            invariant
                i <= n,
                self.tasks@.len() == n,
                old(self).tasks@.len() == n,
                forall|j: int| 0 <= j < i ==> self.tasks@[j] == old(self).tasks@[j].after(CleanerEvent::Stop),
                forall|j: int| i <= j < n ==> self.tasks@[j] == old(self).tasks@[j],
            decreases n - i,
        {
            let mut task: Cleaner = self.tasks[i];
            task.step(CleanerEvent::Stop);
            self.tasks.set(i, task);
            i = i + 1;
        }
        assert(self.tasks@ =~= all_stopped(old(self).tasks@));
    }

    /// Reports `event` to task `id` and says what it does next.
    pub fn step(&mut self, id: usize, event: CleanerEvent) -> (action: CleanerAction)
        ensures
            final(self)@ == stepped(old(self)@, id as int, event),
            action == action_of(old(self)@, id as int, event),
    {
        if id < self.tasks.len() {
            let mut task: Cleaner = self.tasks[id];
            let action = task.step(event);
            self.tasks.set(id, task);
            action
        } else {
            CleanerAction::Terminate
        }
    }
}

} // verus!
