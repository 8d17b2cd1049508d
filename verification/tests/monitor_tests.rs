use peer_tracker::clock::Clock;
use peer_tracker::monitor::{
    is_due, judge_attempt, AttemptOutcome, Chore, Monitor, MonitorEvent, Plan, ProbePolicy,
    Request, Verdict,
};
use peer_tracker::record::PeerRecord;
use peer_tracker::registry::Registry;
use peer_tracker::wire::ProtocolMessage;

fn record(address: &str, changed: u64, stale: bool) -> PeerRecord {
    PeerRecord { onion_address: address.to_string(), last_state_change: changed, stale }
}

fn entry(address: &str, changed: u64, stale: bool) -> (String, PeerRecord) {
    (address.to_string(), record(address, changed, stale))
}

fn monitor() -> Monitor {
    Monitor::new(ProbePolicy::standard(), "tracker.onion".to_string(), 8080)
}

fn probe(address: &str) -> Request {
    Request::Probe {
        address: address.to_string(),
        ping: ProtocolMessage::Ping { address: "tracker.onion".to_string(), port: 8080 },
    }
}

fn pong(address: &str) -> MonitorEvent {
    MonitorEvent::Attempt(AttemptOutcome::Reply(ProtocolMessage::Pong {
        address: address.to_string(),
    }))
}

fn connect_failed() -> MonitorEvent {
    MonitorEvent::Attempt(AttemptOutcome::ConnectFailed)
}

fn update(address: &str, changed: u64, stale: bool) -> Chore {
    Chore::Update { address: address.to_string(), record: record(address, changed, stale) }
}

/// Sends the updates of a plan to the registry, as the caller of the monitor does.
fn deliver(plan: &Plan, registry: &mut Registry) -> usize {
    let mut sent = 0;
    for chore in &plan.chores {
        if let Chore::Update { address, record } = chore {
            registry.update(address.clone(), record.clone());
            sent += 1;
        }
    }
    sent
}

#[test]
fn standard_policy() {
    let policy = ProbePolicy::standard();
    assert_eq!(policy, ProbePolicy { cooldown_secs: 900, max_attempts: 3, backoff_secs: 1 });
    assert_eq!(ProbePolicy::default(), policy);
}

#[test]
fn may_retry_counts_the_attempts() {
    let policy = ProbePolicy::standard();
    assert!(policy.may_retry(0));
    assert!(policy.may_retry(1));
    assert!(!policy.may_retry(2));
    assert!(!policy.may_retry(3));
    assert!(!policy.may_retry(u32::MAX));
    let single = ProbePolicy { max_attempts: 1, ..policy };
    assert!(!single.may_retry(0));
    let none = ProbePolicy { max_attempts: 0, ..policy };
    assert!(!none.may_retry(0));
    let many = ProbePolicy { max_attempts: u32::MAX, ..policy };
    assert!(many.may_retry(u32::MAX - 2));
    assert!(!many.may_retry(u32::MAX - 1));
}

#[test]
fn peer_is_due_only_after_more_than_the_cooldown() {
    let peer = record("peerX", 1000, false);
    assert!(!is_due(&peer, 1000, 900));
    assert!(!is_due(&peer, 1899, 900));
    assert!(!is_due(&peer, 1900, 900));
    assert!(is_due(&peer, 1901, 900));
    assert!(is_due(&peer, u64::MAX, 900));
}

#[test]
fn peer_changed_in_the_future_is_not_due() {
    let peer = record("peerX", 1000, false);
    assert!(!is_due(&peer, 999, 900));
    assert!(!is_due(&peer, 0, 0));
    assert!(!is_due(&peer, 1000, 0));
    assert!(is_due(&peer, 1001, 0));
}

#[test]
fn is_due_at_the_limits_of_the_clock() {
    assert!(!is_due(&record("p", 0, false), u64::MAX, u64::MAX));
    assert!(is_due(&record("p", 0, false), u64::MAX, u64::MAX - 1));
    assert!(!is_due(&record("p", u64::MAX, false), u64::MAX, 0));
    assert!(!is_due(&record("p", u64::MAX, false), 0, 0));
}

#[test]
fn verdict_on_a_pong_files_the_declared_address() {
    let policy = ProbePolicy::standard();
    let verdict = judge_attempt(
        &policy,
        &"peerX".to_string(),
        &record("peerX", 5, true),
        2,
        AttemptOutcome::Reply(ProtocolMessage::Pong { address: "peerY".to_string() }),
        77,
    );
    assert_eq!(verdict, Verdict::Settled(Some(("peerY".to_string(), record("peerY", 77, false)))));
}

#[test]
fn verdict_on_a_ping_settles_without_update() {
    let policy = ProbePolicy::standard();
    let verdict = judge_attempt(
        &policy,
        &"peerX".to_string(),
        &record("peerX", 5, false),
        0,
        AttemptOutcome::Reply(ProtocolMessage::Ping { address: "x".to_string(), port: 1 }),
        77,
    );
    assert_eq!(verdict, Verdict::Settled(None));
}

#[test]
fn verdict_on_failures() {
    let policy = ProbePolicy::standard();
    let address = "peerX".to_string();
    let fresh = record("declared", 5, false);
    let stale = record("declared", 5, true);
    for outcome in [
        || AttemptOutcome::ConnectFailed,
        || AttemptOutcome::TransportFailed,
        || AttemptOutcome::DecodeFailed,
    ] {
        assert_eq!(judge_attempt(&policy, &address, &fresh, 0, outcome(), 77), Verdict::Retry);
        assert_eq!(judge_attempt(&policy, &address, &fresh, 1, outcome(), 77), Verdict::Retry);
        assert_eq!(
            judge_attempt(&policy, &address, &fresh, 2, outcome(), 77),
            Verdict::Settled(Some(("peerX".to_string(), record("declared", 77, true))))
        );
        assert_eq!(judge_attempt(&policy, &address, &stale, 1, outcome(), 77), Verdict::Retry);
        assert_eq!(judge_attempt(&policy, &address, &stale, 2, outcome(), 77), Verdict::Settled(None));
    }
}

#[test]
fn monitor_begins_by_asking_for_the_roster() {
    assert_eq!(monitor().begin(), Plan { chores: vec![], request: Request::FetchRoster });
}

#[test]
fn unavailable_roster_is_asked_for_again_at_once() {
    let mut monitor = monitor();
    assert_eq!(
        monitor.step(MonitorEvent::RosterUnavailable, 5),
        Plan { chores: vec![], request: Request::FetchRoster }
    );
    assert_eq!(
        monitor.step(MonitorEvent::RosterUnavailable, 6),
        Plan { chores: vec![], request: Request::FetchRoster }
    );
}

#[test]
fn empty_roster_ends_the_scan() {
    let mut monitor = monitor();
    assert_eq!(
        monitor.step(MonitorEvent::Roster(vec![]), 5),
        Plan { chores: vec![Chore::Pause { secs: 900 }], request: Request::FetchRoster }
    );
}

#[test]
fn monitor_skips_peers_in_cooldown() {
    let mut monitor = monitor();
    let roster = vec![entry("a", 100, false), entry("b", 1000, true), entry("c", 101, false)];
    assert_eq!(
        monitor.step(MonitorEvent::Roster(roster), 1000),
        Plan { chores: vec![Chore::Pause { secs: 900 }], request: Request::FetchRoster }
    );
}

#[test]
fn monitor_probes_only_the_due_peers_in_their_order() {
    let mut monitor = monitor();
    let roster = vec![
        entry("recent", 500, false),
        entry("old", 10, false),
        entry("future", 5000, false),
        entry("older", 0, true),
        entry("edge", 102, false),
    ];
    let plan = monitor.step(MonitorEvent::Roster(roster), 1000);
    assert_eq!(plan, Plan { chores: vec![], request: probe("old") });
    let plan = monitor.step(pong("old"), 1001);
    assert_eq!(plan, Plan { chores: vec![update("old", 1001, false)], request: probe("older") });
    let plan = monitor.step(pong("older"), 1002);
    assert_eq!(
        plan,
        Plan {
            chores: vec![update("older", 1002, false), Chore::Pause { secs: 900 }],
            request: Request::FetchRoster,
        }
    );
}

#[test]
fn cooldown_is_judged_at_the_time_a_peer_is_reached() {
    let mut monitor = monitor();
    let roster = vec![entry("a", 0, false), entry("b", 100, false)];
    assert_eq!(monitor.step(MonitorEvent::Roster(roster), 950).request, probe("a"));
    // At 950 the second peer was not yet due; at 1001 it is.
    assert_eq!(monitor.step(pong("a"), 1001).request, probe("b"));
}

#[test]
fn success_on_first_attempt() {
    let mut monitor = monitor();
    monitor.step(MonitorEvent::Roster(vec![entry("peerX", 0, false)]), 1000);
    assert_eq!(
        monitor.step(pong("peerX"), 1005),
        Plan {
            chores: vec![update("peerX", 1005, false), Chore::Pause { secs: 900 }],
            request: Request::FetchRoster,
        }
    );
}

#[test]
fn success_on_second_attempt() {
    let mut monitor = monitor();
    monitor.step(MonitorEvent::Roster(vec![entry("peerX", 0, false), entry("next", 0, false)]), 1000);
    assert_eq!(
        monitor.step(connect_failed(), 1001),
        Plan { chores: vec![Chore::Pause { secs: 1 }], request: probe("peerX") }
    );
    assert_eq!(
        monitor.step(pong("peerX"), 1003),
        Plan { chores: vec![update("peerX", 1003, false)], request: probe("next") }
    );
}

#[test]
fn success_on_third_attempt() {
    let mut monitor = monitor();
    monitor.step(MonitorEvent::Roster(vec![entry("peerX", 0, true), entry("next", 0, false)]), 1000);
    assert_eq!(
        monitor.step(MonitorEvent::Attempt(AttemptOutcome::DecodeFailed), 1001),
        Plan { chores: vec![Chore::Pause { secs: 1 }], request: probe("peerX") }
    );
    assert_eq!(
        monitor.step(MonitorEvent::Attempt(AttemptOutcome::TransportFailed), 1003),
        Plan { chores: vec![Chore::Pause { secs: 1 }], request: probe("peerX") }
    );
    assert_eq!(
        monitor.step(pong("peerX"), 1005),
        Plan { chores: vec![update("peerX", 1005, false)], request: probe("next") }
    );
}

#[test]
fn pong_files_the_update_under_the_declared_address() {
    let mut monitor = monitor();
    monitor.step(MonitorEvent::Roster(vec![entry("registered", 0, false)]), 1000);
    let plan = monitor.step(pong("declared"), 1001);
    assert_eq!(plan.chores[0], update("declared", 1001, false));
}

#[test]
fn three_failures_mark_a_peer_stale_once() {
    let mut monitor = monitor();
    let roster = vec![("peerX".to_string(), record("declared", 0, false)), entry("next", 0, false)];
    monitor.step(MonitorEvent::Roster(roster), 1000);
    assert_eq!(
        monitor.step(connect_failed(), 1001),
        Plan { chores: vec![Chore::Pause { secs: 1 }], request: probe("peerX") }
    );
    assert_eq!(
        monitor.step(connect_failed(), 1002),
        Plan { chores: vec![Chore::Pause { secs: 1 }], request: probe("peerX") }
    );
    assert_eq!(
        monitor.step(connect_failed(), 1003),
        Plan {
            chores: vec![
                Chore::Pause { secs: 1 },
                Chore::Update { address: "peerX".to_string(), record: record("declared", 1003, true) },
            ],
            request: probe("next"),
        }
    );
}

#[test]
fn three_failures_of_a_stale_peer_send_nothing() {
    let mut monitor = monitor();
    monitor.step(MonitorEvent::Roster(vec![entry("peerX", 0, true)]), 1000);
    let first = monitor.step(connect_failed(), 1001);
    let second = monitor.step(MonitorEvent::Attempt(AttemptOutcome::TransportFailed), 1002);
    let third = monitor.step(MonitorEvent::Attempt(AttemptOutcome::DecodeFailed), 1003);
    assert_eq!(first, Plan { chores: vec![Chore::Pause { secs: 1 }], request: probe("peerX") });
    assert_eq!(second, Plan { chores: vec![Chore::Pause { secs: 1 }], request: probe("peerX") });
    assert_eq!(
        third,
        Plan {
            chores: vec![Chore::Pause { secs: 1 }, Chore::Pause { secs: 900 }],
            request: Request::FetchRoster,
        }
    );
}

#[test]
fn answer_that_is_no_pong_settles_without_update() {
    let mut monitor = monitor();
    monitor.step(MonitorEvent::Roster(vec![entry("peerX", 0, false), entry("next", 0, false)]), 1000);
    let echoed = MonitorEvent::Attempt(AttemptOutcome::Reply(ProtocolMessage::Ping {
        address: "peerX".to_string(),
        port: 1,
    }));
    assert_eq!(monitor.step(echoed, 1001), Plan { chores: vec![], request: probe("next") });
}

#[test]
fn event_that_answers_nothing_repeats_the_request() {
    let mut monitor = monitor();
    assert_eq!(
        monitor.step(connect_failed(), 1),
        Plan { chores: vec![], request: Request::FetchRoster }
    );
    monitor.step(MonitorEvent::Roster(vec![entry("peerX", 0, false)]), 1000);
    assert_eq!(
        monitor.step(MonitorEvent::Roster(vec![entry("other", 0, false)]), 1001),
        Plan { chores: vec![], request: probe("peerX") }
    );
    assert_eq!(
        monitor.step(MonitorEvent::RosterUnavailable, 1002),
        Plan { chores: vec![], request: probe("peerX") }
    );
    // The stray events did not count as attempts.
    assert_eq!(monitor.step(connect_failed(), 1003).request, probe("peerX"));
    assert_eq!(monitor.step(connect_failed(), 1004).request, probe("peerX"));
    assert_eq!(monitor.step(connect_failed(), 1005).request, Request::FetchRoster);
}

#[test]
fn policy_sets_attempts_pauses_and_cooldown() {
    let policy = ProbePolicy { cooldown_secs: 60, max_attempts: 2, backoff_secs: 5 };
    let mut monitor = Monitor::new(policy, "me".to_string(), 1);
    let roster = vec![entry("peerX", 0, false), entry("young", 42, false)];
    let ping = ProtocolMessage::Ping { address: "me".to_string(), port: 1 };
    let plan = monitor.step(MonitorEvent::Roster(roster), 100);
    assert_eq!(plan.request, Request::Probe { address: "peerX".to_string(), ping: ping.clone() });
    assert_eq!(
        monitor.step(connect_failed(), 101),
        Plan {
            chores: vec![Chore::Pause { secs: 5 }],
            request: Request::Probe { address: "peerX".to_string(), ping },
        }
    );
    assert_eq!(
        monitor.step(connect_failed(), 102),
        Plan {
            chores: vec![
                Chore::Pause { secs: 5 },
                update("peerX", 102, true),
                Chore::Pause { secs: 60 },
            ],
            request: Request::FetchRoster,
        }
    );
}

#[test]
fn policy_without_attempts_still_tries_once() {
    let policy = ProbePolicy { cooldown_secs: 900, max_attempts: 0, backoff_secs: 1 };
    let mut monitor = Monitor::new(policy, "tracker.onion".to_string(), 8080);
    let plan = monitor.step(MonitorEvent::Roster(vec![entry("peerX", 0, false)]), 1000);
    assert_eq!(plan.request, probe("peerX"));
    assert_eq!(
        monitor.step(connect_failed(), 1001),
        Plan {
            chores: vec![
                Chore::Pause { secs: 1 },
                update("peerX", 1001, true),
                Chore::Pause { secs: 900 },
            ],
            request: Request::FetchRoster,
        }
    );
}

#[test]
fn next_scan_starts_afresh() {
    let mut monitor = monitor();
    monitor.step(MonitorEvent::Roster(vec![entry("peerX", 0, false)]), 1000);
    monitor.step(connect_failed(), 1001);
    monitor.step(connect_failed(), 1002);
    monitor.step(connect_failed(), 1003);
    // The peer was marked stale at 1003, so it is due again after 1903.
    let plan = monitor.step(MonitorEvent::Roster(vec![entry("peerX", 1003, true)]), 1903);
    assert_eq!(plan.request, Request::FetchRoster);
    let plan = monitor.step(MonitorEvent::Roster(vec![entry("peerX", 1003, true)]), 1904);
    assert_eq!(plan, Plan { chores: vec![], request: probe("peerX") });
    // The failures of the scan before are forgotten: three attempts again.
    assert_eq!(monitor.step(connect_failed(), 1905).request, probe("peerX"));
    assert_eq!(monitor.step(connect_failed(), 1906).request, probe("peerX"));
    assert_eq!(monitor.step(connect_failed(), 1907).request, Request::FetchRoster);
}

#[test]
fn unreachable_peer_leaves_the_active_list() {
    let start = 50;
    let mut registry = Registry::new();
    registry.add("peerX".to_string(), record("peerX", start, false));
    assert_eq!(registry.query_active(), vec!["peerX".to_string()]);

    let mut monitor = monitor();
    let now = start + 901;
    let mut plan = monitor.step(MonitorEvent::Roster(registry.query_all()), now);
    let mut updates = deliver(&plan, &mut registry);
    let mut attempts = 0;
    while plan.request != Request::FetchRoster {
        assert_eq!(plan.request, probe("peerX"));
        attempts += 1;
        plan = monitor.step(connect_failed(), now + attempts);
        updates += deliver(&plan, &mut registry);
    }
    assert_eq!(attempts, 3);
    assert_eq!(updates, 1);
    assert_eq!(registry.query_active(), Vec::<String>::new());
    assert_eq!(registry.query(&"peerX".to_string()), Some(record("peerX", now + 3, true)));

    // The same failures on the peer that is stale by now send nothing more.
    let later = now + 3 + 901;
    let mut plan = monitor.step(MonitorEvent::Roster(registry.query_all()), later);
    let mut updates = deliver(&plan, &mut registry);
    let mut attempts = 0;
    while plan.request != Request::FetchRoster {
        attempts += 1;
        plan = monitor.step(connect_failed(), later + attempts);
        updates += deliver(&plan, &mut registry);
    }
    assert_eq!(attempts, 3);
    assert_eq!(updates, 0);
    assert_eq!(registry.query(&"peerX".to_string()), Some(record("peerX", now + 3, true)));
}

#[test]
fn stale_peer_that_answers_is_active_again() {
    let mut registry = Registry::new();
    registry.add("peerY".to_string(), record("peerY", 10, true));
    assert_eq!(registry.query_active(), Vec::<String>::new());

    let mut monitor = monitor();
    let plan = monitor.step(MonitorEvent::Roster(registry.query_all()), 2000);
    assert_eq!(plan.request, probe("peerY"));
    let plan = monitor.step(pong("peerY"), 2001);
    assert_eq!(deliver(&plan, &mut registry), 1);
    assert_eq!(plan.request, Request::FetchRoster);

    assert_eq!(registry.query(&"peerY".to_string()), Some(record("peerY", 2001, false)));
    assert_eq!(registry.query_active(), vec!["peerY".to_string()]);
}

#[test]
fn clock_counts_from_its_start() {
    let clock = Clock::start();
    let first = clock.seconds();
    let second = clock.seconds();
    assert!(first <= second);
    assert!(second < 60);
}

#[test]
fn step_by_the_clock_skips_peers_in_cooldown() {
    let clock = Clock::start();
    let mut monitor = monitor();
    let roster = vec![entry("a", 0, false), entry("b", 5, true)];
    assert_eq!(
        monitor.step_by(&clock, MonitorEvent::Roster(roster)),
        Plan { chores: vec![Chore::Pause { secs: 900 }], request: Request::FetchRoster }
    );
}

#[test]
fn step_by_the_clock_times_the_update() {
    let clock = Clock::start();
    let policy = ProbePolicy { cooldown_secs: 0, max_attempts: 3, backoff_secs: 1 };
    let mut monitor = Monitor::new(policy, "tracker.onion".to_string(), 8080);
    // A fresh clock shows no second yet, so only a forced scan reaches the peer.
    let plan = monitor.step(MonitorEvent::Roster(vec![entry("peerX", 0, true)]), 1);
    assert_eq!(plan.request, probe("peerX"));
    let plan = monitor.step_by(&clock, pong("peerX"));
    match &plan.chores[0] {
        Chore::Update { address, record } => {
            assert_eq!(address, "peerX");
            assert_eq!(record.onion_address, "peerX");
            assert!(!record.stale);
            assert!(record.last_state_change < 60);
        }
        other => panic!("unexpected chore {:?}", other),
    }
    assert_eq!(plan.request, Request::FetchRoster);
}
