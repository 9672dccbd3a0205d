use vstd::prelude::*;

verus! {

/// Where the orchestrator stands within a cycle.
#[derive(Debug, Clone, Copy, PartialEq, Eq, Structural)]
pub enum CycleState {
    Idle,
    LoadingSnapshot,
    Searching,
    Ranking,
    Optimizing,
    Publishing,
    Stopped,
}

/// What happened since the last step.
#[derive(Debug, Clone, Copy, PartialEq, Eq, Structural)]
pub enum CycleEvent {
    Tick,
    SnapshotLoaded,
    SnapshotFailed,
    SearchDone,
    RankDone,
    OptimizeDone,
    Published,
    Stop,
}

/// What the runner must do next.
#[derive(Debug, Clone, Copy, PartialEq, Eq, Structural)]
pub enum CycleAction {
    Wait,
    LoadSnapshot,
    RunSearch,
    Rank,
    Optimize,
    Publish,
    LogFailure,
}

/// The transition of the cycle state machine: a stop signal ends it from
/// any state; a failed snapshot returns to idle (to retry on the next tick);
/// each stage hands over to the next; any other event leaves the state as it is.
pub open spec fn transition(s: CycleState, e: CycleEvent) -> (CycleState, CycleAction) {
    if s == CycleState::Stopped || e == CycleEvent::Stop {
        (CycleState::Stopped, CycleAction::Wait)
    } else {
        match (s, e) {
            (CycleState::Idle, CycleEvent::Tick) => (
                CycleState::LoadingSnapshot,
                CycleAction::LoadSnapshot,
            ),
            (CycleState::LoadingSnapshot, CycleEvent::SnapshotLoaded) => (
                CycleState::Searching,
                CycleAction::RunSearch,
            ),
            (CycleState::LoadingSnapshot, CycleEvent::SnapshotFailed) => (
                CycleState::Idle,
                CycleAction::LogFailure,
            ),
            (CycleState::Searching, CycleEvent::SearchDone) => (
                CycleState::Ranking,
                CycleAction::Rank,
            ),
            (CycleState::Ranking, CycleEvent::RankDone) => (
                CycleState::Optimizing,
                CycleAction::Optimize,
            ),
            (CycleState::Optimizing, CycleEvent::OptimizeDone) => (
                CycleState::Publishing,
                CycleAction::Publish,
            ),
            (CycleState::Publishing, CycleEvent::Published) => (
                CycleState::Idle,
                CycleAction::Wait,
            ),
            _ => (s, CycleAction::Wait),
        }
    }
}

/// One step of the cycle state machine.
pub fn next_state(s: CycleState, e: CycleEvent) -> (r: (CycleState, CycleAction))
    ensures
        r == transition(s, e),
{
    if s == CycleState::Stopped || e == CycleEvent::Stop {
        return (CycleState::Stopped, CycleAction::Wait);
    }
    match (s, e) {
        (CycleState::Idle, CycleEvent::Tick) => (CycleState::LoadingSnapshot, CycleAction::LoadSnapshot),
        (CycleState::LoadingSnapshot, CycleEvent::SnapshotLoaded) => (
            CycleState::Searching,
            CycleAction::RunSearch,
        ),
        (CycleState::LoadingSnapshot, CycleEvent::SnapshotFailed) => (
            CycleState::Idle,
            CycleAction::LogFailure,
        ),
        (CycleState::Searching, CycleEvent::SearchDone) => (CycleState::Ranking, CycleAction::Rank),
        (CycleState::Ranking, CycleEvent::RankDone) => (CycleState::Optimizing, CycleAction::Optimize),
        (CycleState::Optimizing, CycleEvent::OptimizeDone) => (
            CycleState::Publishing,
            CycleAction::Publish,
        ),
        (CycleState::Publishing, CycleEvent::Published) => (CycleState::Idle, CycleAction::Wait),
        _ => (s, CycleAction::Wait),
    }
}

/// The stop state is terminal, and a failure never ends the machine.
pub proof fn lemma_stop_is_terminal(e: CycleEvent, s: CycleState)
    ensures
        transition(CycleState::Stopped, e).0 == CycleState::Stopped,
        transition(s, CycleEvent::Stop).0 == CycleState::Stopped,
        transition(CycleState::LoadingSnapshot, CycleEvent::SnapshotFailed).0 == CycleState::Idle,
{
}

/// Whether the less frequent deep pass is due: `elapsed` seconds since the
/// last one reached the interval.
pub fn deep_pass_due(elapsed_secs: u64, interval_secs: u64) -> (r: bool)
    ensures
        r == (elapsed_secs >= interval_secs),
{
    elapsed_secs >= interval_secs
}

} // verus!
