//! What the surrounding program shows of a training run, and how the two
//! controls of a run change it.

use vstd::prelude::*;

verus! {

/// Where a training run stands, as the surrounding program shows it.
#[derive(Debug, Clone, Copy, PartialEq, Eq, Structural)]
pub enum TrainingState {
    Idle,
    Training,
    Stopped,
    Paused,
    Complete,
}

/// What the user can ask of a run.
#[derive(Debug, Clone, Copy, PartialEq, Eq, Structural)]
pub enum Command {
    Start,
    Stop,
}

impl TrainingState {
    /// Whether `command` has any effect in this state: a run can be started
    /// unless one is under way, and only a run under way can be stopped.
    pub open spec fn accepts_spec(self, command: Command) -> bool {
        match command {
            Command::Start => self != TrainingState::Training,
            Command::Stop => self == TrainingState::Training,
        }
    }

    /// The state after `command`: one that is accepted starts a run or asks
    /// the run under way to stop; one that is not changes nothing.
    pub open spec fn after(self, command: Command) -> TrainingState {
        if self.accepts_spec(command) {
            match command {
                Command::Start => TrainingState::Training,
                Command::Stop => TrainingState::Stopped,
            }
        } else {
            self
        }
    }

    /// Whether `command` has any effect in this state.
    pub fn accepts(self, command: Command) -> (accepted: bool)
        ensures
            accepted == self.accepts_spec(command),
    {
        match command {
            Command::Start => self != TrainingState::Training,
            Command::Stop => self == TrainingState::Training,
        }
    }

    /// The state after `command`.
    pub fn on_command(self, command: Command) -> (next: TrainingState)
        ensures
            next == self.after(command),
    {
        if self.accepts(command) {
            match command {
                Command::Start => TrainingState::Training,
                Command::Stop => TrainingState::Stopped,
            }
        } else {
            self
        }
    }

    /// Whether the run under way has been asked to stop. A run looks at this
    /// between two epochs.
    pub fn stop_requested(self) -> (requested: bool)
        ensures
            requested == (self == TrainingState::Stopped),
    {
        self == TrainingState::Stopped
    }
}

/// A command that is not accepted changes nothing and one that is accepted
/// changes the state; after `Start` a run is under way; and after `Stop` none
/// is, so that a run can be started.
pub proof fn lemma_commands(state: TrainingState, command: Command)
    ensures
        state.accepts_spec(command) <==> state.after(command) != state,
        state.after(Command::Start) == TrainingState::Training,
        state.after(Command::Stop) != TrainingState::Training,
        state.after(Command::Stop).accepts_spec(Command::Start),
{
}

} // verus!
