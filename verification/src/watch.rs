//! Decisions of watch mode: which file-system events trigger a rebuild, how changes
//! are debounced, and the count of successful builds that the preview page polls.
use vstd::prelude::*;

verus! {

/// The kind of a file-system event, as the watcher reports it.
#[derive(PartialEq, Eq, Structural, Clone, Copy, Debug)]
pub enum FsEventKind {
    Any,
    Access,
    Create,
    Modify,
    Remove,
    Other,
}

/// Creating, modifying or removing a file triggers a rebuild; other events do not.
pub open spec fn is_change(kind: FsEventKind) -> bool {
    kind == FsEventKind::Create || kind == FsEventKind::Modify || kind == FsEventKind::Remove
}

/// Whether an event of this kind triggers a rebuild.
pub fn triggers_rebuild(kind: FsEventKind) -> (r: bool)
    ensures
        r == is_change(kind),
{
    match kind {
        FsEventKind::Create | FsEventKind::Modify | FsEventKind::Remove => true,
        _ => false,
    }
}

/// A change that arrives within the debounce window after the last build waits out
/// one whole window first.
pub fn pause_before_draining(since_last_build_nanos: u128, debounce_nanos: u128) -> (r: bool)
    ensures
        r == (since_last_build_nanos < debounce_nanos),
{
    since_last_build_nanos < debounce_nanos
}

/// What waiting for further changes within the debounce window gave.
#[derive(PartialEq, Eq, Structural, Clone, Copy, Debug)]
pub enum Receipt {
    /// Another change arrived.
    Change,
    /// The window passed quietly.
    Timeout,
    /// The watcher is gone.
    Disconnected,
}

/// Changes keep arriving: keep waiting; otherwise build.
pub fn keep_draining(receipt: Receipt) -> (r: bool)
    ensures
        r == (receipt == Receipt::Change),
{
    match receipt {
        Receipt::Change => true,
        _ => false,
    }
}

/// The build count after a build: one more after a success (wrapping at `u64::MAX`, as an
/// atomic `fetch_add` does), unchanged after a failure.
pub open spec fn count_after(count: u64, succeeded: bool) -> u64 {
    if succeeded {
        if count == u64::MAX {
            0
        } else {
            (count + 1) as u64
        }
    } else {
        count
    }
}

/// The build count after a build (see [`count_after`]).
pub fn record_build(count: u64, succeeded: bool) -> (r: u64)
    ensures
        r == count_after(count, succeeded),
{
    if succeeded {
        count.wrapping_add(1)
    } else {
        count
    }
}

// ---------------------------------------------------------------------------
// The watch loop

/// Where the watch loop is.
#[derive(PartialEq, Eq, Structural, Clone, Copy, Debug)]
pub enum Phase {
    /// The first build, before any change.
    InitialBuild,
    /// Waiting for a change.
    Waiting,
    /// A change came soon after the last build: sitting out one window.
    Pausing,
    /// Waiting for the changes to settle.
    Settling,
    /// Rebuilding after changes.
    Building,
}

/// The loop's state: its phase and the number of successful builds.
#[derive(PartialEq, Eq, Structural, Clone, Copy, Debug)]
pub struct WatchState {
    pub phase: Phase,
    pub builds: u64,
}

/// What happened.
#[derive(PartialEq, Eq, Structural, Clone, Copy, Debug)]
pub enum WatchEvent {
    /// A change arrived while waiting, this long after the last build started.
    Changed { since_last_build_nanos: u128 },
    /// Waiting for a change failed: the watcher is gone.
    Closed,
    /// The pause is over.
    Paused,
    /// What waiting within the debounce window gave.
    Window(Receipt),
    /// A build finished.
    Built { succeeded: bool },
}

/// What the loop does next.
#[derive(PartialEq, Eq, Structural, Clone, Copy, Debug)]
pub enum WatchAction {
    /// Build the site.
    Build,
    /// Wait for a change.
    AwaitChange,
    /// Sleep for one debounce window.
    Pause,
    /// Wait up to one debounce window for another change.
    AwaitQuiet,
}

/// The loop at start: the initial build comes first.
pub open spec fn start_state() -> WatchState {
    WatchState { phase: Phase::InitialBuild, builds: 0 }
}

/// What a phase does.
pub open spec fn action_of(phase: Phase) -> WatchAction {
    match phase {
        Phase::InitialBuild | Phase::Building => WatchAction::Build,
        Phase::Waiting => WatchAction::AwaitChange,
        Phase::Pausing => WatchAction::Pause,
        Phase::Settling => WatchAction::AwaitQuiet,
    }
}

/// The phase after an event; an event that the phase does not wait for changes nothing.
pub open spec fn next_phase(phase: Phase, event: WatchEvent, debounce_nanos: u128) -> Phase {
    match (phase, event) {
        (Phase::InitialBuild, WatchEvent::Built { .. }) => Phase::Waiting,
        (Phase::Building, WatchEvent::Built { .. }) => Phase::Waiting,
        (Phase::Waiting, WatchEvent::Changed { since_last_build_nanos }) => if since_last_build_nanos
            < debounce_nanos {
            Phase::Pausing
        } else {
            Phase::Settling
        },
        (Phase::Waiting, WatchEvent::Closed) => Phase::Waiting,
        (Phase::Pausing, WatchEvent::Paused) => Phase::Settling,
        (Phase::Settling, WatchEvent::Window(Receipt::Change)) => Phase::Settling,
        (Phase::Settling, WatchEvent::Window(_)) => Phase::Building,
        _ => phase,
    }
}

/// The state after an event: the next phase, and the build count after a finished build.
pub open spec fn next(state: WatchState, event: WatchEvent, debounce_nanos: u128) -> WatchState {
    WatchState {
        phase: next_phase(state.phase, event, debounce_nanos),
        builds: match (state.phase, event) {
            (Phase::InitialBuild, WatchEvent::Built { succeeded }) => count_after(
                state.builds,
                succeeded,
            ),
            (Phase::Building, WatchEvent::Built { succeeded }) => count_after(
                state.builds,
                succeeded,
            ),
            _ => state.builds,
        },
    }
}

/// The loop at start, and what it does first.
pub fn start() -> (r: (WatchState, WatchAction))
    ensures
        r.0 == start_state(),
        r.1 == action_of(start_state().phase),
{
    (WatchState { phase: Phase::InitialBuild, builds: 0 }, WatchAction::Build)
}

fn action_for(phase: Phase) -> (r: WatchAction)
    ensures
        r == action_of(phase),
{
    match phase {
        Phase::InitialBuild | Phase::Building => WatchAction::Build,
        Phase::Waiting => WatchAction::AwaitChange,
        Phase::Pausing => WatchAction::Pause,
        Phase::Settling => WatchAction::AwaitQuiet,
    }
}

/// One step of the watch loop: the next state and what to do in it.
pub fn step(state: WatchState, event: WatchEvent, debounce_nanos: u128) -> (r: (WatchState, WatchAction))
    ensures
        r.0 == next(state, event, debounce_nanos),
        r.1 == action_of(r.0.phase),
{
    let (phase, builds) = match (state.phase, event) {
        (Phase::InitialBuild, WatchEvent::Built { succeeded }) | (
            Phase::Building,
            WatchEvent::Built { succeeded },
        ) => (Phase::Waiting, record_build(state.builds, succeeded)),
        (Phase::Waiting, WatchEvent::Changed { since_last_build_nanos }) => {
            if pause_before_draining(since_last_build_nanos, debounce_nanos) {
                (Phase::Pausing, state.builds)
            } else {
                (Phase::Settling, state.builds)
            }
        },
        (Phase::Waiting, WatchEvent::Closed) => (Phase::Waiting, state.builds),
        (Phase::Pausing, WatchEvent::Paused) => (Phase::Settling, state.builds),
        (Phase::Settling, WatchEvent::Window(receipt)) => {
            if keep_draining(receipt) {
                (Phase::Settling, state.builds)
            } else {
                (Phase::Building, state.builds)
            }
        },
        _ => (state.phase, state.builds),
    };
    let next_state = WatchState { phase, builds };
    (next_state, action_for(phase))
}

/// A rebuild after changes starts only once they have settled: a whole debounce window
/// passed without another change (or the watcher went away).
pub proof fn law_build_only_after_quiet(state: WatchState, event: WatchEvent, debounce_nanos: u128)
    requires
        state.phase != Phase::Building,
        state.phase != Phase::InitialBuild,
        action_of(next(state, event, debounce_nanos).phase) == WatchAction::Build,
    ensures
        state.phase == Phase::Settling,
        event == WatchEvent::Window(Receipt::Timeout) || event == WatchEvent::Window(
            Receipt::Disconnected,
        ),
{
}

/// After a build finishes, the initial build included and whether it succeeded or
/// failed, the loop waits for a change: a failed build is not retried until the sources
/// change.
pub proof fn law_wait_after_any_build(state: WatchState, succeeded: bool, debounce_nanos: u128)
    requires
        state.phase == Phase::InitialBuild || state.phase == Phase::Building,
    ensures
        ({
            let after = next(state, (WatchEvent::Built { succeeded: succeeded }), debounce_nanos);
            &&& after.phase == Phase::Waiting
            &&& action_of(after.phase) == WatchAction::AwaitChange
        }),
{
}

/// The loop moves on only on the event its phase waits for: a build on its end (to wait
/// for a change), waiting on a change (to pause when the change came within one window of
/// the last build, else to settle), a pause on its end (to settle), settling on a quiet
/// window (to build); any other event leaves the phase as it is.
pub proof fn law_phase_moves_on_awaited_event(state: WatchState, event: WatchEvent, debounce_nanos: u128)
    ensures
        ({
            let to = next(state, event, debounce_nanos).phase;
            let from = state.phase;
            &&& (from == Phase::InitialBuild || from == Phase::Building) ==> (to != from <==> (
            event is Built)) && (to != from ==> to == Phase::Waiting)
            &&& from == Phase::Waiting ==> (to != from <==> (event is Changed)) && (event matches WatchEvent::Changed { since_last_build_nanos } ==> (to == Phase::Pausing <==> since_last_build_nanos < debounce_nanos) && (to == Phase::Settling <==> since_last_build_nanos >= debounce_nanos))
            &&& from == Phase::Pausing ==> (to != from <==> (event is Paused)) && (to != from ==> to == Phase::Settling)
            &&& from == Phase::Settling ==> (to != from <==> (event == WatchEvent::Window(Receipt::Timeout) || event == WatchEvent::Window(Receipt::Disconnected))) && (to != from ==> to == Phase::Building)
        }),
{
}

/// Whether a phase is a build.
pub open spec fn is_building(phase: Phase) -> bool {
    phase == Phase::Building || phase == Phase::InitialBuild
}

/// The event of a successful build.
pub open spec fn build_succeeded() -> WatchEvent {
    WatchEvent::Built { succeeded: true }
}

/// The build count changes only when a build finishes, and then grows by one exactly when
/// the build succeeded.
pub proof fn law_count_changes_only_on_success(
    state: WatchState,
    event: WatchEvent,
    debounce_nanos: u128,
)
    ensures
        next(state, event, debounce_nanos).builds != state.builds ==> is_building(state.phase)
            && event == build_succeeded(),
        is_building(state.phase) && event == build_succeeded() ==> next(
            state,
            event,
            debounce_nanos,
        ).builds == count_after(state.builds, true),
{
}

/// The build count after a run of builds, starting from `start`.
pub open spec fn count_after_all(start: u64, outcomes: Seq<bool>) -> u64
    decreases outcomes.len(),
{
    if outcomes.len() == 0 {
        start
    } else {
        count_after(count_after_all(start, outcomes.drop_last()), outcomes.last())
    }
}

/// The number of successes in a run of builds.
pub open spec fn successes(outcomes: Seq<bool>) -> nat
    decreases outcomes.len(),
{
    if outcomes.len() == 0 {
        0
    } else {
        successes(outcomes.drop_last()) + if outcomes.last() {
            1nat
        } else {
            0nat
        }
    }
}

/// Starting from zero, the build count is the number of successful builds, modulo 2^64.
pub proof fn law_count_is_successes(outcomes: Seq<bool>)
    ensures
        count_after_all(0, outcomes) as int == successes(outcomes) as int % 0x1_0000_0000_0000_0000,
    decreases outcomes.len(),
{
    if outcomes.len() > 0 {
        law_count_is_successes(outcomes.drop_last());
        let prev = successes(outcomes.drop_last()) as int;
        let m = 0x1_0000_0000_0000_0000int;
        assert((prev + 1) % m == if prev % m == m - 1 { 0 } else { prev % m + 1 }) by (nonlinear_arith)
            requires prev >= 0, m == 0x1_0000_0000_0000_0000int;
    }
}

} // verus!
