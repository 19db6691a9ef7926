use mlp_trainer::{Command, Phase, Schedule, Step, TrainingState};

#[test]
fn a_run_hands_out_its_epochs_in_order() {
    let mut schedule = Schedule::new(3);
    assert_eq!(schedule.poll(false), Step::Epoch(0));
    assert_eq!(schedule.poll(false), Step::Epoch(1));
    assert_eq!(schedule.poll(false), Step::Epoch(2));
    assert!(!schedule.is_over());
    assert_eq!(schedule.poll(false), Step::Halt);
    assert!(schedule.is_over());
    assert_eq!(schedule, Schedule { epochs: 3, done: 3, phase: Phase::Complete });
}

#[test]
fn a_run_of_no_epochs_does_no_work() {
    let mut schedule = Schedule::new(0);
    let weights = vec![3i64, -1, 4, 1, -5];
    let mut trained = weights.clone();
    loop {
        match schedule.poll(false) {
            Step::Epoch(_) => {
                for w in trained.iter_mut() {
                    *w += 1;
                }
            }
            Step::Halt => break,
        }
    }
    assert_eq!(trained, weights);
    assert_eq!(schedule, Schedule { epochs: 0, done: 0, phase: Phase::Complete });
}

#[test]
fn a_run_of_no_epochs_completes_even_when_stopped() {
    let mut schedule = Schedule::new(0);
    assert_eq!(schedule.poll(true), Step::Halt);
    assert_eq!(schedule.phase, Phase::Complete);
}

#[test]
fn a_stop_between_epochs_ends_the_run_early() {
    let mut schedule = Schedule::new(5);
    assert_eq!(schedule.poll(false), Step::Epoch(0));
    assert_eq!(schedule.poll(false), Step::Epoch(1));
    assert_eq!(schedule.poll(true), Step::Halt);
    assert_eq!(schedule, Schedule { epochs: 5, done: 2, phase: Phase::StoppedEarly });
    assert!(schedule.is_over());
}

#[test]
fn a_stop_before_the_first_epoch_runs_none() {
    let mut schedule = Schedule::new(4);
    assert_eq!(schedule.poll(true), Step::Halt);
    assert_eq!(schedule, Schedule { epochs: 4, done: 0, phase: Phase::StoppedEarly });
}

#[test]
fn a_stop_after_the_last_epoch_comes_too_late() {
    let mut schedule = Schedule::new(2);
    assert_eq!(schedule.poll(false), Step::Epoch(0));
    assert_eq!(schedule.poll(false), Step::Epoch(1));
    assert_eq!(schedule.poll(true), Step::Halt);
    assert_eq!(schedule.phase, Phase::Complete);
}

#[test]
fn a_run_that_is_over_stays_over() {
    let mut stopped = Schedule::new(3);
    stopped.poll(false);
    stopped.poll(true);
    let kept = stopped;
    assert_eq!(stopped.poll(false), Step::Halt);
    assert_eq!(stopped.poll(true), Step::Halt);
    assert_eq!(stopped, kept);
    let mut complete = Schedule::new(1);
    complete.poll(false);
    complete.poll(false);
    let kept = complete;
    assert_eq!(complete.poll(false), Step::Halt);
    assert_eq!(complete.poll(true), Step::Halt);
    assert_eq!(complete, kept);
}

#[test]
fn the_largest_run_does_not_overflow() {
    let mut schedule = Schedule { epochs: usize::MAX, done: usize::MAX - 1, phase: Phase::Running };
    assert_eq!(schedule.poll(false), Step::Epoch(usize::MAX - 1));
    assert_eq!(schedule.poll(false), Step::Halt);
    assert_eq!(schedule.phase, Phase::Complete);
}

#[test]
fn start_is_accepted_unless_a_run_is_under_way() {
    let states = [
        TrainingState::Idle,
        TrainingState::Stopped,
        TrainingState::Paused,
        TrainingState::Complete,
    ];
    for state in states {
        assert!(state.accepts(Command::Start));
        assert_eq!(state.on_command(Command::Start), TrainingState::Training);
    }
    assert!(!TrainingState::Training.accepts(Command::Start));
    assert_eq!(TrainingState::Training.on_command(Command::Start), TrainingState::Training);
}

#[test]
fn stop_is_accepted_only_while_a_run_is_under_way() {
    assert!(TrainingState::Training.accepts(Command::Stop));
    assert_eq!(TrainingState::Training.on_command(Command::Stop), TrainingState::Stopped);
    let states = [
        TrainingState::Idle,
        TrainingState::Stopped,
        TrainingState::Paused,
        TrainingState::Complete,
    ];
    for state in states {
        assert!(!state.accepts(Command::Stop));
        assert_eq!(state.on_command(Command::Stop), state);
    }
}

#[test]
fn only_a_stopped_run_asks_for_a_stop() {
    assert!(TrainingState::Stopped.stop_requested());
    assert!(!TrainingState::Idle.stop_requested());
    assert!(!TrainingState::Training.stop_requested());
    assert!(!TrainingState::Paused.stop_requested());
    assert!(!TrainingState::Complete.stop_requested());
}

#[test]
fn a_stop_command_ends_the_schedule_at_the_next_boundary() {
    let mut state = TrainingState::Idle.on_command(Command::Start);
    let mut schedule = Schedule::new(10);
    let mut run = Vec::new();
    loop {
        match schedule.poll(state.stop_requested()) {
            Step::Epoch(epoch) => {
                run.push(epoch);
                if epoch == 3 {
                    state = state.on_command(Command::Stop);
                }
            }
            Step::Halt => break,
        }
    }
    assert_eq!(run, vec![0, 1, 2, 3]);
    assert_eq!(schedule.phase, Phase::StoppedEarly);
}
