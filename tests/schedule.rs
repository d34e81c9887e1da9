use cddns::config::ConfigOpts;
use cddns::watch::{watch_options, WatchAction, WatchScheduler};

#[test]
fn slow_cycle_is_never_doubled() {
    let mut s = WatchScheduler::new(100, 0);
    assert_eq!(s.poll(0), WatchAction::RunCycle);
    // The cycle overruns two ticks: nothing else starts meanwhile.
    assert_eq!(s.poll(150), WatchAction::Wait);
    assert_eq!(s.poll(250), WatchAction::Wait);
    s.finish();
    // The late tick fires once, and the missed one is dropped.
    assert_eq!(s.poll(250), WatchAction::RunCycle);
    s.finish();
    assert_eq!(s.poll(260), WatchAction::SleepUntil(300));
    assert_eq!(s.poll(300), WatchAction::RunCycle);
}

#[test]
fn zero_interval_runs_back_to_back() {
    let mut s = WatchScheduler::new(0, 10);
    assert_eq!(s.poll(10), WatchAction::RunCycle);
    assert_eq!(s.poll(11), WatchAction::Wait);
    s.finish();
    assert_eq!(s.poll(11), WatchAction::RunCycle);
}

#[test]
fn on_time_cycle_waits_for_next_tick() {
    let mut s = WatchScheduler::new(1000, 0);
    assert_eq!(s.poll(0), WatchAction::RunCycle);
    s.finish();
    assert_eq!(s.poll(20), WatchAction::SleepUntil(1000));
}

#[test]
fn watch_forces_corrections() {
    let opts = ConfigOpts::defaults("i.yml".to_string());
    let (forced, interval) = watch_options(opts).ok().unwrap();
    assert_eq!(interval, 30000);
    assert_eq!(forced.inventory.force_update, Some(true));
    assert_eq!(forced.inventory.force_prune, Some(true));
    let none = ConfigOpts::builder().build();
    assert!(watch_options(none).is_err());
}

#[test]
fn cancel_stops_between_cycles_and_while_waiting() {
    let mut s = WatchScheduler::new(100, 0);
    assert_eq!(s.poll(0), WatchAction::RunCycle);
    s.cancel();
    // The running cycle is not interrupted; nothing new starts.
    assert_eq!(s.poll(50), WatchAction::Wait);
    s.finish();
    assert_eq!(s.poll(50), WatchAction::Stop);
    assert_eq!(s.poll(500), WatchAction::Stop);

    let mut w = WatchScheduler::new(100, 0);
    assert_eq!(w.poll(0), WatchAction::RunCycle);
    w.finish();
    assert_eq!(w.poll(10), WatchAction::SleepUntil(100));
    w.cancel();
    assert_eq!(w.poll(100), WatchAction::Stop);
}
