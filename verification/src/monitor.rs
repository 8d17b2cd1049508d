//! The health monitor: which peers to probe, how often to retry, and what to
//! report to the registry.
//!
//! The monitor itself performs no input or output. It is a state machine: the
//! caller performs the request of a [`Plan`], hands the result back as a
//! [`MonitorEvent`] together with the current time, and receives the next plan.

use vstd::prelude::*;
use crate::clock::Clock;
use crate::record::{PeerRecord, PeerRecordView};
use crate::wire::{ProtocolMessage, ProtocolMessageView};

verus! {

/// The timing of the monitor.
#[derive(Clone, Copy, Debug, PartialEq, Eq)]
pub struct ProbePolicy {
    /// Seconds that must have passed since a peer's last state change before
    /// it is probed again. Also the pause between two scans.
    pub cooldown_secs: u64,
    /// Contact attempts per peer and scan. A value below 1 counts as 1.
    pub max_attempts: u32,
    /// Seconds to pause after a failed attempt.
    pub backoff_secs: u64,
}

impl ProbePolicy {
    /// The number of attempts that a due peer gets: `max_attempts`, at least 1.
    pub open spec fn attempt_limit(self) -> nat {
        if self.max_attempts == 0 {
            1
        } else {
            self.max_attempts as nat
        }
    }

    /// Fifteen minutes of cooldown, three attempts, one second between them.
    pub fn standard() -> (policy: Self)
        ensures
            policy == (ProbePolicy { cooldown_secs: 900, max_attempts: 3, backoff_secs: 1 }),
    {
        ProbePolicy { cooldown_secs: 900, max_attempts: 3, backoff_secs: 1 }
    }

    /// Whether another attempt remains after `failures` failed ones and one more.
    pub fn may_retry(&self, failures: u32) -> (again: bool)
        ensures
            again == (failures + 1 < self.attempt_limit()),
    {
        let limit: u32 = if self.max_attempts == 0 {
            1
        } else {
            self.max_attempts
        };
        failures < limit - 1
    }
}

impl Default for ProbePolicy {
    fn default() -> (policy: Self)
        ensures
            policy == (ProbePolicy { cooldown_secs: 900, max_attempts: 3, backoff_secs: 1 }),
    {
        ProbePolicy::standard()
    }
}

/// A peer is due when more than `cooldown_secs` seconds have passed since its
/// last state change. A change that lies in the future of `now` is not due.
pub open spec fn due(record: PeerRecordView, now: u64, cooldown_secs: u64) -> bool {
    now - record.last_state_change > cooldown_secs
}

/// Whether `record` is due for a probe at `now`.
pub fn is_due(record: &PeerRecord, now: u64, cooldown_secs: u64) -> (d: bool)
    ensures
        d == due(record@, now, cooldown_secs),
{
    now > record.last_state_change && now - record.last_state_change > cooldown_secs
}

/// The first index at or after `from` whose peer is due at `now`, or the
/// length of the roster where there is none.
pub open spec fn next_due(
    roster: Seq<(Seq<char>, PeerRecordView)>,
    from: nat,
    now: u64,
    cooldown_secs: u64,
) -> nat
    decreases roster.len() - from,
{
    if from >= roster.len() {
        roster.len()
    } else if due(roster[from as int].1, now, cooldown_secs) {
        from
    } else {
        next_due(roster, from + 1, now, cooldown_secs)
    }
}

/// How one contact attempt ended.
#[derive(Debug, PartialEq, Eq)]
pub enum AttemptOutcome {
    /// No connection could be opened.
    ConnectFailed,
    /// The connection was opened, but writing the ping or reading the answer
    /// failed.
    TransportFailed,
    /// An answer was read, but it is not a protocol message.
    DecodeFailed,
    /// The peer answered with this message.
    Reply(ProtocolMessage),
}

/// The mathematical value of an [`AttemptOutcome`].
pub enum AttemptOutcomeView {
    ConnectFailed,
    TransportFailed,
    DecodeFailed,
    Reply(ProtocolMessageView),
}

impl AttemptOutcomeView {
    /// An attempt has failed unless the peer answered with a protocol message.
    pub open spec fn failed(self) -> bool {
        !(self is Reply)
    }
}

impl View for AttemptOutcome {
    type V = AttemptOutcomeView;

    open spec fn view(&self) -> AttemptOutcomeView {
        match *self {
            AttemptOutcome::ConnectFailed => AttemptOutcomeView::ConnectFailed,
            AttemptOutcome::TransportFailed => AttemptOutcomeView::TransportFailed,
            AttemptOutcome::DecodeFailed => AttemptOutcomeView::DecodeFailed,
            AttemptOutcome::Reply(message) => AttemptOutcomeView::Reply(message@),
        }
    }
}

/// What follows from one attempt.
#[derive(Debug, PartialEq, Eq)]
pub enum Verdict {
    /// The attempt failed and another one remains.
    Retry,
    /// The peer is done for this scan. The registry is sent the update, if any.
    Settled(Option<(String, PeerRecord)>),
}

/// The mathematical value of a [`Verdict`].
pub enum VerdictView {
    Retry,
    Settled(Option<(Seq<char>, PeerRecordView)>),
}

impl View for Verdict {
    type V = VerdictView;

    open spec fn view(&self) -> VerdictView {
        match *self {
            Verdict::Retry => VerdictView::Retry,
            Verdict::Settled(update) => VerdictView::Settled(update.deep_view()),
        }
    }
}

/// The verdict on an attempt to reach the peer registered under `address`
/// with `record`, after `failures` earlier failed attempts in this scan.
///
/// - A `Pong` settles the peer as reachable: the update is filed under the
///   address that the `Pong` declares, with that address as its payload.
/// - Any other protocol message settles the peer without an update.
/// - A failed attempt is retried while attempts remain. After the last one the
///   peer is marked stale, unless it is stale already: then nothing is sent.
pub open spec fn verdict(
    policy: ProbePolicy,
    address: Seq<char>,
    record: PeerRecordView,
    failures: nat,
    outcome: AttemptOutcomeView,
    now: u64,
) -> VerdictView {
    match outcome {
        AttemptOutcomeView::Reply(ProtocolMessageView::Pong { address: declared }) => {
            VerdictView::Settled(
                Some(
                    (
                        declared,
                        PeerRecordView {
                            onion_address: declared,
                            last_state_change: now,
                            stale: false,
                        },
                    ),
                ),
            )
        },
        AttemptOutcomeView::Reply(ProtocolMessageView::Ping { .. }) => VerdictView::Settled(None),
        _ => {
            if failures + 1 < policy.attempt_limit() {
                VerdictView::Retry
            } else if record.stale {
                VerdictView::Settled(None)
            } else {
                VerdictView::Settled(
                    Some((address, PeerRecordView { last_state_change: now, stale: true, ..record })),
                )
            }
        },
    }
}

/// Decides what follows from one attempt: see [`verdict`].
pub fn judge_attempt(
    policy: &ProbePolicy,
    address: &String,
    record: &PeerRecord,
    failures: u32,
    outcome: AttemptOutcome,
    now: u64,
) -> (v: Verdict)
    ensures
        v@ == verdict(*policy, address@, record@, failures as nat, outcome@, now),
{
    match outcome {
        AttemptOutcome::Reply(ProtocolMessage::Pong { address: declared }) => {
            let fresh = PeerRecord::reachable(declared.clone(), now);
            Verdict::Settled(Some((declared, fresh)))
        },
        AttemptOutcome::Reply(ProtocolMessage::Ping { .. }) => Verdict::Settled(None),
        _ => {
            if policy.may_retry(failures) {
                Verdict::Retry
            } else if record.stale {
                Verdict::Settled(None)
            } else {
                Verdict::Settled(Some((address.clone(), record.marked_stale(now))))
            }
        },
    }
}

/// Something to do before the request of a [`Plan`].
#[derive(Debug, PartialEq, Eq)]
pub enum Chore {
    /// Sleep for this many seconds.
    Pause { secs: u64 },
    /// Send this update to the registry. Nothing waits for an answer.
    Update { address: String, record: PeerRecord },
}

/// The mathematical value of a [`Chore`].
pub enum ChoreView {
    Pause { secs: u64 },
    Update { address: Seq<char>, record: PeerRecordView },
}

impl View for Chore {
    type V = ChoreView;

    open spec fn view(&self) -> ChoreView {
        match *self {
            Chore::Pause { secs } => ChoreView::Pause { secs },
            Chore::Update { address, record } => ChoreView::Update {
                address: address@,
                record: record@,
            },
        }
    }
}

impl DeepView for Chore {
    type V = ChoreView;

    open spec fn deep_view(&self) -> ChoreView {
        self@
    }
}

/// The operation whose result is the monitor's next event.
#[derive(Debug, PartialEq, Eq)]
pub enum Request {
    /// Ask the registry for every entry.
    FetchRoster,
    /// Connect to `address`, send `ping` in a frame and read one framed answer.
    Probe { address: String, ping: ProtocolMessage },
}

/// The mathematical value of a [`Request`].
pub enum RequestView {
    FetchRoster,
    Probe { address: Seq<char>, ping: ProtocolMessageView },
}

impl View for Request {
    type V = RequestView;

    open spec fn view(&self) -> RequestView {
        match *self {
            Request::FetchRoster => RequestView::FetchRoster,
            Request::Probe { address, ping } => RequestView::Probe { address: address@, ping: ping@ },
        }
    }
}

/// What the caller does next: the chores in their order, then the request.
#[derive(Debug, PartialEq, Eq)]
pub struct Plan {
    pub chores: Vec<Chore>,
    pub request: Request,
}

/// The mathematical value of a [`Plan`].
pub struct PlanView {
    pub chores: Seq<ChoreView>,
    pub request: RequestView,
}

impl View for Plan {
    type V = PlanView;

    open spec fn view(&self) -> PlanView {
        PlanView { chores: self.chores.deep_view(), request: self.request@ }
    }
}

/// The result of the request of the last plan.
#[derive(Debug, PartialEq, Eq)]
pub enum MonitorEvent {
    /// The registry answered with its entries.
    Roster(Vec<(String, PeerRecord)>),
    /// The registry could not be asked, or did not answer.
    RosterUnavailable,
    /// A probe ended.
    Attempt(AttemptOutcome),
}

/// The mathematical value of a [`MonitorEvent`].
pub enum MonitorEventView {
    Roster(Seq<(Seq<char>, PeerRecordView)>),
    RosterUnavailable,
    Attempt(AttemptOutcomeView),
}

impl View for MonitorEvent {
    type V = MonitorEventView;

    open spec fn view(&self) -> MonitorEventView {
        match *self {
            MonitorEvent::Roster(entries) => MonitorEventView::Roster(entries.deep_view()),
            MonitorEvent::RosterUnavailable => MonitorEventView::RosterUnavailable,
            MonitorEvent::Attempt(outcome) => MonitorEventView::Attempt(outcome@),
        }
    }
}

/// The monitor between two events.
///
/// While a scan is under way the roster of that scan is kept, `cursor` is the
/// index of the peer that is being probed and `failures` counts the failed
/// attempts on it. Between scans the roster is empty.
pub struct Monitor {
    policy: ProbePolicy,
    own_address: String,
    own_port: u16,
    roster: Vec<(String, PeerRecord)>,
    cursor: usize,
    failures: u32,
}

/// The mathematical value of a [`Monitor`].
pub struct MonitorView {
    pub policy: ProbePolicy,
    pub own_address: Seq<char>,
    pub own_port: u16,
    pub roster: Seq<(Seq<char>, PeerRecordView)>,
    pub cursor: nat,
    pub failures: nat,
}

/// What is sent before the scan moves on from a settled peer: the pause that
/// follows a failed attempt, then the update, if there is one.
pub open spec fn settling_chores(
    policy: ProbePolicy,
    outcome: AttemptOutcomeView,
    update: Option<(Seq<char>, PeerRecordView)>,
) -> Seq<ChoreView> {
    let pause = if outcome.failed() {
        seq![ChoreView::Pause { secs: policy.backoff_secs }]
    } else {
        Seq::empty()
    };
    match update {
        Some(entry) => pause.push(ChoreView::Update { address: entry.0, record: entry.1 }),
        None => pause,
    }
}

impl MonitorView {
    /// A probe is under way: its result is the next event.
    pub open spec fn probing(self) -> bool {
        self.cursor < self.roster.len()
    }

    /// The ping that announces the monitor's own endpoint.
    pub open spec fn ping(self) -> ProtocolMessageView {
        ProtocolMessageView::Ping { address: self.own_address, port: self.own_port }
    }

    /// The probe of the peer under the cursor.
    pub open spec fn probe(self) -> RequestView {
        RequestView::Probe { address: self.roster[self.cursor as int].0, ping: self.ping() }
    }

    /// The monitor between two scans.
    pub open spec fn idle(self) -> MonitorView {
        MonitorView { roster: Seq::empty(), cursor: 0, failures: 0, ..self }
    }

    /// Moves on to the first peer at or after `from` that is due at `now`, after
    /// `chores`. Where no peer is left the scan ends: the monitor pauses for the
    /// cooldown period and asks for a new roster.
    pub open spec fn resume(self, from: nat, now: u64, chores: Seq<ChoreView>) -> (
        MonitorView,
        PlanView,
    ) {
        let next = next_due(self.roster, from, now, self.policy.cooldown_secs);
        if next < self.roster.len() {
            let moved = MonitorView { cursor: next, failures: 0, ..self };
            (moved, PlanView { chores, request: moved.probe() })
        } else {
            (
                self.idle(),
                PlanView {
                    chores: chores.push(ChoreView::Pause { secs: self.policy.cooldown_secs }),
                    request: RequestView::FetchRoster,
                },
            )
        }
    }

    /// The monitor's reaction to `event` at `now`: its next state and the plan.
    ///
    /// - A roster starts a scan at its first due peer.
    /// - An attempt on the peer under the cursor is judged by [`verdict`]. A
    ///   retry pauses and probes the same peer again. A settled peer is left
    ///   behind for the rest of the scan, after the chores of
    ///   [`settling_chores`].
    /// - An unavailable roster is asked for again at once.
    /// - An event that does not answer the pending request changes nothing,
    ///   and the request is made again.
    pub open spec fn transition(self, event: MonitorEventView, now: u64) -> (MonitorView, PlanView) {
        if self.probing() {
            match event {
                MonitorEventView::Attempt(outcome) => {
                    let target = self.roster[self.cursor as int];
                    match verdict(self.policy, target.0, target.1, self.failures, outcome, now) {
                        VerdictView::Retry => (
                            MonitorView { failures: self.failures + 1, ..self },
                            PlanView {
                                chores: seq![ChoreView::Pause { secs: self.policy.backoff_secs }],
                                request: self.probe(),
                            },
                        ),
                        VerdictView::Settled(update) => self.resume(
                            self.cursor + 1,
                            now,
                            settling_chores(self.policy, outcome, update),
                        ),
                    }
                },
                _ => (self, PlanView { chores: Seq::empty(), request: self.probe() }),
            }
        } else {
            match event {
                MonitorEventView::Roster(entries) => (MonitorView {
                    roster: entries,
                    ..self
                }).resume(0, now, Seq::empty()),
                _ => (self, PlanView { chores: Seq::empty(), request: RequestView::FetchRoster }),
            }
        }
    }
}

impl View for Monitor {
    type V = MonitorView;

    closed spec fn view(&self) -> MonitorView {
        MonitorView {
            policy: self.policy,
            own_address: self.own_address@,
            own_port: self.own_port,
            roster: self.roster.deep_view(),
            cursor: self.cursor as nat,
            failures: self.failures as nat,
        }
    }
}

/// The index that [`next_due`] names.
fn find_due(roster: &Vec<(String, PeerRecord)>, from: usize, now: u64, cooldown_secs: u64) -> (next:
    usize)
    ensures
        next == next_due(roster.deep_view(), from as nat, now, cooldown_secs),
{
    let ghost entries = roster.deep_view();
    let mut index: usize = from;
    while index < roster.len() && !is_due(&roster[index].1, now, cooldown_secs)
        invariant
            entries == roster.deep_view(),
            next_due(entries, index as nat, now, cooldown_secs) == next_due(
                entries,
                from as nat,
                now,
                cooldown_secs,
            ),
        decreases roster.len() - index,
    {
        index = index + 1;
    }
    if index < roster.len() {
        index
    } else {
        roster.len()
    }
}

impl Monitor {
    /// A monitor that is between scans and announces `own_address` and
    /// `own_port` in its pings.
    pub fn new(policy: ProbePolicy, own_address: String, own_port: u16) -> (monitor: Self)
        ensures
            monitor@ == (MonitorView {
                policy,
                own_address: own_address@,
                own_port,
                roster: Seq::empty(),
                cursor: 0,
                failures: 0,
            }),
    {
        let monitor = Monitor {
            policy,
            own_address,
            own_port,
            roster: Vec::new(),
            cursor: 0,
            failures: 0,
        };
        assert(monitor.roster.deep_view() =~= Seq::empty());
        monitor
    }

    /// The plan that starts the monitor: ask for the roster.
    pub fn begin(&self) -> (plan: Plan)
        ensures
            plan@ == (PlanView { chores: Seq::empty(), request: RequestView::FetchRoster }),
    {
        let plan = Plan { chores: Vec::new(), request: Request::FetchRoster };
        assert(plan.chores.deep_view() =~= Seq::empty());
        plan
    }

    /// The probe of the peer under the cursor.
    fn probe_request(&self) -> (request: Request)
        requires
            self@.probing(),
        ensures
            request@ == self@.probe(),
    {
        Request::Probe {
            address: self.roster[self.cursor].0.clone(),
            ping: ProtocolMessage::Ping { address: self.own_address.clone(), port: self.own_port },
        }
    }

    /// Moves on to the first due peer at or after `from`: see
    /// [`MonitorView::resume`].
    fn resume(&mut self, from: usize, now: u64, chores: Vec<Chore>) -> (plan: Plan)
        ensures
            (final(self)@, plan@) == old(self)@.resume(from as nat, now, chores.deep_view()),
    {
        let next = find_due(&self.roster, from, now, self.policy.cooldown_secs);
        if next < self.roster.len() {
            self.cursor = next;
            self.failures = 0;
            let request = self.probe_request();
            Plan { chores, request }
        } else {
            let mut chores = chores;
            let ghost before = chores.deep_view();
            chores.push(Chore::Pause { secs: self.policy.cooldown_secs });
            assert(chores.deep_view() =~= before.push(
                ChoreView::Pause { secs: self.policy.cooldown_secs },
            ));
            self.roster = Vec::new();
            self.cursor = 0;
            self.failures = 0;
            assert(self.roster.deep_view() =~= Seq::empty());
            Plan { chores, request: Request::FetchRoster }
        }
    }

    /// Takes the result of the last plan's request at the time that `clock`
    /// shows, whatever that is, and says what to do next.
    pub fn step_by(&mut self, clock: &Clock, event: MonitorEvent) -> (plan: Plan)
        ensures
            exists|now: u64| (final(self)@, plan@) == old(self)@.transition(event@, now),
    {
        let now = clock.seconds();
        self.step(event, now)
    }

    /// Takes the result of the last plan's request and says what to do next:
    /// see [`MonitorView::transition`].
    pub fn step(&mut self, event: MonitorEvent, now: u64) -> (plan: Plan)
        ensures
            (final(self)@, plan@) == old(self)@.transition(event@, now),
    {
        if self.cursor < self.roster.len() {
            match event {
                MonitorEvent::Attempt(outcome) => {
                    let ghost seen = outcome@;
                    let failed = match &outcome {
                        AttemptOutcome::Reply(_) => false,
                        _ => true,
                    };
                    let verdict = judge_attempt(
                        &self.policy,
                        &self.roster[self.cursor].0,
                        &self.roster[self.cursor].1,
                        self.failures,
                        outcome,
                        now,
                    );
                    match verdict {
                        Verdict::Retry => {
                            self.failures = self.failures + 1;
                            let mut chores: Vec<Chore> = Vec::new();
                            chores.push(Chore::Pause { secs: self.policy.backoff_secs });
                            assert(chores.deep_view() =~= seq![
                                ChoreView::Pause { secs: self.policy.backoff_secs },
                            ]);
                            let request = self.probe_request();
                            Plan { chores, request }
                        },
                        Verdict::Settled(update) => {
                            let mut chores: Vec<Chore> = Vec::new();
                            if failed {
                                chores.push(Chore::Pause { secs: self.policy.backoff_secs });
                            }
                            match update {
                                Some((address, record)) => {
                                    chores.push(Chore::Update { address, record });
                                },
                                None => {},
                            }
                            assert(chores.deep_view() =~= settling_chores(
                                self.policy,
                                seen,
                                update.deep_view(),
                            ));
                            let from = self.cursor + 1;
                            self.resume(from, now, chores)
                        },
                    }
                },
                _ => {
                    let request = self.probe_request();
                    let plan = Plan { chores: Vec::new(), request };
                    assert(plan.chores.deep_view() =~= Seq::empty());
                    plan
                },
            }
        } else {
            match event {
                MonitorEvent::Roster(entries) => {
                    self.roster = entries;
                    let chores: Vec<Chore> = Vec::new();
                    assert(chores.deep_view() =~= Seq::empty());
                    self.resume(0, now, chores)
                },
                _ => {
                    let plan = Plan { chores: Vec::new(), request: Request::FetchRoster };
                    assert(plan.chores.deep_view() =~= Seq::empty());
                    plan
                },
            }
        }
    }
}

} // verus!
