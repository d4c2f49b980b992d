use wiki_builder::cli::{parse_mode, Mode};
use wiki_builder::watch::{
    keep_draining, pause_before_draining, record_build, start, step, triggers_rebuild, FsEventKind,
    Phase, Receipt, WatchAction, WatchEvent, WatchState,
};

#[test]
fn rebuild_events() {
    assert!(triggers_rebuild(FsEventKind::Create));
    assert!(triggers_rebuild(FsEventKind::Modify));
    assert!(triggers_rebuild(FsEventKind::Remove));
    assert!(!triggers_rebuild(FsEventKind::Access));
    assert!(!triggers_rebuild(FsEventKind::Any));
    assert!(!triggers_rebuild(FsEventKind::Other));
}

#[test]
fn debounce_decisions() {
    assert!(pause_before_draining(100, 600));
    assert!(!pause_before_draining(600, 600));
    assert!(keep_draining(Receipt::Change));
    assert!(!keep_draining(Receipt::Timeout));
    assert!(!keep_draining(Receipt::Disconnected));
}

#[test]
fn build_count() {
    assert_eq!(record_build(0, true), 1);
    assert_eq!(record_build(7, false), 7);
    assert_eq!(record_build(u64::MAX, true), 0);
    let outcomes = [true, false, true, true, false];
    let count = outcomes.iter().fold(0, |c, ok| record_build(c, *ok));
    assert_eq!(count, 3);
}

#[test]
fn modes() {
    assert!(matches!(parse_mode(None), Mode::Build));
    assert!(matches!(parse_mode(Some("--build")), Mode::Build));
    assert!(matches!(parse_mode(Some("-b")), Mode::Build));
    assert!(matches!(parse_mode(Some("--watch")), Mode::Watch));
    assert!(matches!(parse_mode(Some("-w")), Mode::Watch));
    assert!(matches!(parse_mode(Some("--help")), Mode::Help));
    assert!(matches!(parse_mode(Some("-h")), Mode::Help));
    assert!(matches!(parse_mode(Some("--x")), Mode::Unknown(s) if s == "--x"));
}

#[test]
fn watch_loop_run() {
    let d: u128 = 600_000_000;
    let (s, a) = start();
    assert_eq!(s, WatchState { phase: Phase::InitialBuild, builds: 0 });
    assert_eq!(a, WatchAction::Build);
    let (s, a) = step(s, WatchEvent::Built { succeeded: true }, d);
    assert_eq!((s.phase, s.builds, a), (Phase::Waiting, 1, WatchAction::AwaitChange));
    // a change soon after the build: pause first
    let (s, a) = step(s, WatchEvent::Changed { since_last_build_nanos: 10 }, d);
    assert_eq!((s.phase, a), (Phase::Pausing, WatchAction::Pause));
    let (s, a) = step(s, WatchEvent::Paused, d);
    assert_eq!((s.phase, a), (Phase::Settling, WatchAction::AwaitQuiet));
    let (s, a) = step(s, WatchEvent::Window(Receipt::Change), d);
    assert_eq!((s.phase, a), (Phase::Settling, WatchAction::AwaitQuiet));
    let (s, a) = step(s, WatchEvent::Window(Receipt::Timeout), d);
    assert_eq!((s.phase, a), (Phase::Building, WatchAction::Build));
    let (s, a) = step(s, WatchEvent::Built { succeeded: false }, d);
    assert_eq!((s.phase, s.builds, a), (Phase::Waiting, 1, WatchAction::AwaitChange));
    // a change long after the build: settle at once
    let (s, a) = step(s, WatchEvent::Changed { since_last_build_nanos: d }, d);
    assert_eq!((s.phase, a), (Phase::Settling, WatchAction::AwaitQuiet));
    let (s, a) = step(s, WatchEvent::Window(Receipt::Disconnected), d);
    assert_eq!((s.phase, a), (Phase::Building, WatchAction::Build));
    let (s, _) = step(s, WatchEvent::Built { succeeded: true }, d);
    assert_eq!(s.builds, 2);
    // the watcher gone while waiting: keep waiting
    let (s2, a) = step(s, WatchEvent::Closed, d);
    assert_eq!((s2, a), (s, WatchAction::AwaitChange));
    // an event the phase does not wait for changes nothing
    let (s3, a) = step(s, WatchEvent::Paused, d);
    assert_eq!((s3, a), (s, WatchAction::AwaitChange));
}
