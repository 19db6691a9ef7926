//! The epoch schedule of a training run: which epoch comes next, and when the
//! run ends. The caller does the work of an epoch and asks again.

use vstd::prelude::*;

verus! {

/// How far a run has come.
#[derive(Debug, Clone, Copy, PartialEq, Eq, Structural)]
pub enum Phase {
    /// Epochs are still to be run.
    Running,
    /// The run was stopped between two epochs, before its last one.
    StoppedEarly,
    /// Every epoch has been run.
    Complete,
}

/// What the caller is to do next.
#[derive(Debug, Clone, Copy, PartialEq, Eq, Structural)]
pub enum Step {
    /// Run the epoch with this index, counted from 0, and ask again.
    Epoch(usize),
    /// The run has ended.
    Halt,
}

/// A run of `epochs` epochs of which `done` have been handed out.
#[derive(Debug, Clone, Copy, PartialEq, Eq, Structural)]
pub struct Schedule {
    pub epochs: usize,
    pub done: usize,
    pub phase: Phase,
}

impl Schedule {
    /// No more epochs are handed out than the run has, and a complete run has
    /// handed out all of them.
    pub open spec fn wf(self) -> bool {
        &&& self.done <= self.epochs
        &&& self.phase == Phase::Complete ==> self.done == self.epochs
    }

    /// A run of `epochs` epochs before its first.
    pub open spec fn fresh(epochs: usize) -> Schedule {
        Schedule { epochs, done: 0, phase: Phase::Running }
    }

    /// What the caller is told when it asks at an epoch boundary, `stop`
    /// saying whether the run has been asked to stop.
    ///
    /// A run that has ended stays ended. A run with all its epochs behind it
    /// completes, whether or not it was asked to stop. Otherwise a request to
    /// stop ends it early, and without one the next epoch is handed out.
    pub open spec fn step_at(self, stop: bool) -> Step {
        if self.phase == Phase::Running && self.done < self.epochs && !stop {
            Step::Epoch(self.done)
        } else {
            Step::Halt
        }
    }

    /// The schedule after the caller has asked at an epoch boundary.
    pub open spec fn after_poll(self, stop: bool) -> Schedule {
        if self.phase != Phase::Running {
            self
        } else if self.done >= self.epochs {
            Schedule { phase: Phase::Complete, ..self }
        } else if stop {
            Schedule { phase: Phase::StoppedEarly, ..self }
        } else {
            Schedule { done: (self.done + 1) as usize, ..self }
        }
    }

    /// The schedule after `polls` boundaries at none of which the run was
    /// asked to stop.
    pub open spec fn after_polls(self, polls: nat) -> Schedule
        decreases polls,
    {
        if polls == 0 {
            self
        } else {
            self.after_polls((polls - 1) as nat).after_poll(false)
        }
    }

    /// Starts a run of `epochs` epochs.
    pub fn new(epochs: usize) -> (schedule: Schedule)
        ensures
            schedule == Schedule::fresh(epochs),
            schedule.wf(),
    {
        Schedule { epochs, done: 0, phase: Phase::Running }
    }

    /// Asks at an epoch boundary what to do next: before the first epoch and
    /// after each one. `stop` says whether the run has been asked to stop.
    pub fn poll(&mut self, stop: bool) -> (step: Step)
        ensures
            step == old(self).step_at(stop),
            *final(self) == old(self).after_poll(stop),
            old(self).wf() ==> final(self).wf(),
    {
        match self.phase {
            Phase::Running => {
                if self.done >= self.epochs {
                    self.phase = Phase::Complete;
                    Step::Halt
                } else if stop {
                    self.phase = Phase::StoppedEarly;
                    Step::Halt
                } else {
                    let epoch: usize = self.done;
                    self.done = epoch + 1;
                    Step::Epoch(epoch)
                }
            },
            Phase::StoppedEarly | Phase::Complete => Step::Halt,
        }
    }

    /// Whether the run has ended.
    pub fn is_over(&self) -> (over: bool)
        ensures
            over == (self.phase != Phase::Running),
    {
        self.phase != Phase::Running
    }
}

/// A run that is never asked to stop is handed its epochs in order, each
/// once: at boundary `k`, for `k` below the number of epochs, epoch `k`.
pub proof fn lemma_epochs_in_order(epochs: usize, k: nat)
    requires
        k <= epochs,
    ensures
        Schedule::fresh(epochs).after_polls(k) == (Schedule {
            epochs,
            done: k as usize,
            phase: Phase::Running,
        }),
        k < epochs ==> Schedule::fresh(epochs).after_polls(k).step_at(false) == Step::Epoch(
            k as usize,
        ),
    decreases k,
{
    if k > 0 {
        lemma_epochs_in_order(epochs, (k - 1) as nat);
    }
}

/// A run that is never asked to stop completes right after its last epoch:
/// at the boundary after it the run is told to halt, and is complete.
pub proof fn lemma_run_completes(epochs: usize)
    ensures
        Schedule::fresh(epochs).after_polls(epochs as nat).step_at(false) == Step::Halt,
        Schedule::fresh(epochs).after_polls(epochs as nat + 1) == (Schedule {
            epochs,
            done: epochs,
            phase: Phase::Complete,
        }),
{
    lemma_epochs_in_order(epochs, epochs as nat);
    assert(Schedule::fresh(epochs).after_polls(epochs as nat + 1) == Schedule::fresh(
        epochs,
    ).after_polls(epochs as nat).after_poll(false));
}

/// A run of no epochs is handed none: its first boundary ends it, complete,
/// whether or not it was asked to stop.
pub proof fn lemma_no_epochs_no_work(stop: bool)
    ensures
        Schedule::fresh(0).step_at(stop) == Step::Halt,
        Schedule::fresh(0).after_poll(stop).phase == Phase::Complete,
{
}

/// A run that has ended stays as it is and hands out nothing more.
pub proof fn lemma_over_is_final(schedule: Schedule, stop: bool)
    requires
        schedule.phase != Phase::Running,
    ensures
        schedule.step_at(stop) == Step::Halt,
        schedule.after_poll(stop) == schedule,
{
}

/// A request to stop at a boundary before the last epoch ends the run there:
/// no epoch is handed out, and the epochs that were run stay counted.
pub proof fn lemma_stop_ends_early(schedule: Schedule)
    requires
        schedule.phase == Phase::Running,
        schedule.done < schedule.epochs,
    ensures
        schedule.step_at(true) == Step::Halt,
        schedule.after_poll(true) == (Schedule { phase: Phase::StoppedEarly, ..schedule }),
{
}

} // verus!
