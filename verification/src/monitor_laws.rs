//! What holds of every run of the monitor.
//!
//! The laws speak of [`MonitorView::transition`] and of whole histories of
//! events. They say which peers are contacted, how often, and which updates
//! come of it.

use vstd::prelude::*;
use crate::monitor::{
    due, next_due, settling_chores, verdict, AttemptOutcomeView, ChoreView, MonitorEventView,
    MonitorView, ProbePolicy,
};
use crate::record::PeerRecordView;
use crate::wire::ProtocolMessageView;

verus! {

/// The updates among `chores`, in their order.
pub open spec fn updates_in(chores: Seq<ChoreView>) -> Seq<(Seq<char>, PeerRecordView)>
    decreases chores.len(),
{
    if chores.len() == 0 {
        Seq::empty()
    } else {
        let rest = updates_in(chores.drop_first());
        match chores[0] {
            ChoreView::Update { address, record } => seq![(address, record)] + rest,
            ChoreView::Pause { .. } => rest,
        }
    }
}

impl MonitorView {
    /// The monitor after the events of `history`, each with its time, and all
    /// the chores that it asked for on the way.
    pub open spec fn run(self, history: Seq<(MonitorEventView, u64)>) -> (
        MonitorView,
        Seq<ChoreView>,
    )
        decreases history.len(),
    {
        if history.len() == 0 {
            (self, Seq::empty())
        } else {
            let (next, plan) = self.transition(history[0].0, history[0].1);
            let (last, chores) = next.run(history.drop_first());
            (last, plan.chores + chores)
        }
    }

    /// The peer under the cursor of `self` will not be probed again in this
    /// scan: `later` is further on in the same roster, or between scans.
    pub open spec fn left_behind_in(self, later: MonitorView) -> bool {
        ||| later == self.idle()
        ||| later.roster == self.roster && later.cursor > self.cursor && later.policy
            == self.policy
    }
}

impl MonitorEventView {
    /// The event reports an attempt that failed.
    pub open spec fn failed_attempt(self) -> bool {
        self matches MonitorEventView::Attempt(outcome) && outcome.failed()
    }
}

/// A history of failed attempts.
pub open spec fn all_failed(history: Seq<(MonitorEventView, u64)>) -> bool {
    forall|i: int| 0 <= i < history.len() ==> (#[trigger] history[i]).0.failed_attempt()
}

/// Where every attempt of a history failed, so did all but the first.
proof fn lemma_all_failed_rest(history: Seq<(MonitorEventView, u64)>)
    requires
        all_failed(history),
        history.len() > 0,
    ensures
        all_failed(history.drop_first()),
{
    assert forall|i: int| 0 <= i < history.drop_first().len() implies (
    #[trigger] history.drop_first()[i]).0.failed_attempt() by {
        assert(history.drop_first()[i] == history[i + 1]);
    }
}

proof fn lemma_updates_in_concat(first: Seq<ChoreView>, second: Seq<ChoreView>)
    ensures
        updates_in(first + second) == updates_in(first) + updates_in(second),
    decreases first.len(),
{
    if first.len() == 0 {
        assert(first + second =~= second);
        assert(updates_in(first) + updates_in(second) =~= updates_in(second));
    } else {
        lemma_updates_in_concat(first.drop_first(), second);
        assert((first + second).drop_first() =~= first.drop_first() + second);
        assert((first + second)[0] == first[0]);
        let rest = updates_in(first.drop_first());
        match first[0] {
            ChoreView::Update { address, record } => {
                assert((seq![(address, record)] + rest) + updates_in(second) =~= seq![
                    (address, record),
                ] + (rest + updates_in(second)));
            },
            ChoreView::Pause { .. } => {},
        }
    }
}

/// A pause carries no update.
proof fn lemma_updates_in_pause(secs: u64)
    ensures
        updates_in(Seq::empty()) == Seq::<(Seq<char>, PeerRecordView)>::empty(),
        updates_in(seq![ChoreView::Pause { secs }]) == Seq::<(Seq<char>, PeerRecordView)>::empty(),
{
    assert(updates_in(Seq::empty()) =~= Seq::empty());
    let pause = seq![ChoreView::Pause { secs }];
    assert(pause.drop_first() =~= Seq::empty());
    assert(updates_in(pause) =~= Seq::empty());
}

/// One update is one update.
proof fn lemma_updates_in_update(address: Seq<char>, record: PeerRecordView)
    ensures
        updates_in(seq![ChoreView::Update { address, record }]) == seq![(address, record)],
{
    assert(updates_in(Seq::empty()) =~= Seq::empty());
    let update = seq![ChoreView::Update { address, record }];
    assert(update.drop_first() =~= Seq::empty());
    assert(updates_in(update) =~= seq![(address, record)]);
}

/// The updates among the chores of [`settling_chores`] are the update itself.
proof fn lemma_updates_in_settling(
    policy: ProbePolicy,
    outcome: AttemptOutcomeView,
    update: Option<(Seq<char>, PeerRecordView)>,
)
    ensures
        updates_in(settling_chores(policy, outcome, update)) == match update {
            Some(entry) => seq![entry],
            None => Seq::empty(),
        },
{
    let pause = if outcome.failed() {
        seq![ChoreView::Pause { secs: policy.backoff_secs }]
    } else {
        Seq::empty()
    };
    lemma_updates_in_pause(policy.backoff_secs);
    match update {
        Some(entry) => {
            let one = seq![ChoreView::Update { address: entry.0, record: entry.1 }];
            lemma_updates_in_update(entry.0, entry.1);
            lemma_updates_in_concat(pause, one);
            assert(pause.push(ChoreView::Update { address: entry.0, record: entry.1 }) =~= pause
                + one);
            assert(updates_in(pause) + updates_in(one) =~= seq![entry]);
        },
        None => {},
    }
}

/// A pause at the end of some chores adds no update.
proof fn lemma_updates_in_then_pause(chores: Seq<ChoreView>, secs: u64)
    ensures
        updates_in(chores.push(ChoreView::Pause { secs })) == updates_in(chores),
{
    let pause = seq![ChoreView::Pause { secs }];
    lemma_updates_in_pause(secs);
    lemma_updates_in_concat(chores, pause);
    assert(chores.push(ChoreView::Pause { secs }) =~= chores + pause);
    assert(updates_in(chores) + updates_in(pause) =~= updates_in(chores));
}

/// A pause before some chores adds no update.
proof fn lemma_updates_in_after_pause(secs: u64, chores: Seq<ChoreView>)
    ensures
        updates_in(seq![ChoreView::Pause { secs }] + chores) == updates_in(chores),
{
    let pause = seq![ChoreView::Pause { secs }];
    lemma_updates_in_pause(secs);
    lemma_updates_in_concat(pause, chores);
    assert(updates_in(pause) + updates_in(chores) =~= updates_in(chores));
}

/// [`next_due`] passes over exactly the peers that are still in their
/// cooldown: no peer between `from` and the index it names is due at `now`,
/// and the peer at that index, if there is one, is due.
pub proof fn law_next_due_skips_cooldown(
    roster: Seq<(Seq<char>, PeerRecordView)>,
    from: nat,
    now: u64,
    cooldown_secs: u64,
)
    requires
        from <= roster.len(),
    ensures
        from <= next_due(roster, from, now, cooldown_secs) <= roster.len(),
        forall|i: int|
            from <= i < next_due(roster, from, now, cooldown_secs) ==> !due(
                (#[trigger] roster[i]).1,
                now,
                cooldown_secs,
            ),
        next_due(roster, from, now, cooldown_secs) < roster.len() ==> due(
            roster[next_due(roster, from, now, cooldown_secs) as int].1,
            now,
            cooldown_secs,
        ),
    decreases roster.len() - from,
{
    if from < roster.len() && !due(roster[from as int].1, now, cooldown_secs) {
        law_next_due_skips_cooldown(roster, from + 1, now, cooldown_secs);
    }
}

/// The monitor contacts no peer but the one under its cursor: the request of
/// a plan is a probe exactly when the monitor is then probing, and it is the
/// probe of that peer.
pub proof fn law_probe_is_of_cursor(m: MonitorView, event: MonitorEventView, now: u64)
    ensures
        ({
            let (next, plan) = m.transition(event, now);
            &&& (plan.request is Probe) == next.probing()
            &&& next.probing() ==> plan.request == next.probe()
        }),
{
    if m.probing() {
        law_next_due_skips_cooldown(m.roster, m.cursor + 1, now, m.policy.cooldown_secs);
    } else if event is Roster {
        law_next_due_skips_cooldown(event->Roster_0, 0, now, m.policy.cooldown_secs);
    }
}

/// A scan starts at the first peer of the roster that is due at `now`: every
/// peer before it is still in its cooldown and is not contacted. Where no
/// peer is due the scan is over at once.
pub proof fn law_scan_starts_at_due_peer(
    m: MonitorView,
    entries: Seq<(Seq<char>, PeerRecordView)>,
    now: u64,
)
    requires
        !m.probing(),
    ensures
        ({
            let next = m.transition(MonitorEventView::Roster(entries), now).0;
            if next.probing() {
                &&& next.roster == entries
                &&& due(entries[next.cursor as int].1, now, m.policy.cooldown_secs)
                &&& forall|i: int|
                    0 <= i < next.cursor ==> !due(
                        (#[trigger] entries[i]).1,
                        now,
                        m.policy.cooldown_secs,
                    )
            } else {
                forall|i: int|
                    0 <= i < entries.len() ==> !due(
                        (#[trigger] entries[i]).1,
                        now,
                        m.policy.cooldown_secs,
                    )
            }
        }),
{
    law_next_due_skips_cooldown(entries, 0, now, m.policy.cooldown_secs);
}

/// When a peer is settled at `now` the scan moves on to the next peer that is
/// due at `now`: every peer between the two is still in its cooldown and is
/// not contacted. Where no peer is due the scan is over.
pub proof fn law_scan_moves_to_due_peer(m: MonitorView, outcome: AttemptOutcomeView, now: u64)
    requires
        m.probing(),
        verdict(
            m.policy,
            m.roster[m.cursor as int].0,
            m.roster[m.cursor as int].1,
            m.failures,
            outcome,
            now,
        ) is Settled,
    ensures
        ({
            let next = m.transition(MonitorEventView::Attempt(outcome), now).0;
            if next.probing() {
                &&& next.roster == m.roster
                &&& m.cursor < next.cursor
                &&& due(m.roster[next.cursor as int].1, now, m.policy.cooldown_secs)
                &&& forall|i: int|
                    m.cursor < i < next.cursor ==> !due(
                        (#[trigger] m.roster[i]).1,
                        now,
                        m.policy.cooldown_secs,
                    )
            } else {
                forall|i: int|
                    m.cursor < i < m.roster.len() ==> !due(
                        (#[trigger] m.roster[i]).1,
                        now,
                        m.policy.cooldown_secs,
                    )
            }
        }),
{
    law_next_due_skips_cooldown(m.roster, m.cursor + 1, now, m.policy.cooldown_secs);
}

/// Within a scan the monitor only moves forward: after any event the roster
/// and the cursor are as before, or the cursor is further on in the same
/// roster, or the scan is over.
pub proof fn law_scan_moves_forward(m: MonitorView, event: MonitorEventView, now: u64)
    requires
        m.probing(),
    ensures
        ({
            let next = m.transition(event, now).0;
            ||| m.left_behind_in(next)
            ||| next.roster == m.roster && next.cursor == m.cursor
        }),
{
    law_next_due_skips_cooldown(m.roster, m.cursor + 1, now, m.policy.cooldown_secs);
}

/// A peer that answers with a `Pong` after any number of failed attempts,
/// within the attempts it is allowed, causes exactly one update in all: it is
/// filed under the address that the `Pong` declares, carries that address and
/// the time of the answer, and is not stale. The peer is then left behind for
/// the rest of the scan.
pub proof fn law_pong_sends_one_update(
    m: MonitorView,
    failures: Seq<(MonitorEventView, u64)>,
    declared: Seq<char>,
    now: u64,
)
    requires
        m.probing(),
        all_failed(failures),
        m.failures + failures.len() < m.policy.attempt_limit(),
    ensures
        ({
            let pong = MonitorEventView::Attempt(
                AttemptOutcomeView::Reply(ProtocolMessageView::Pong { address: declared }),
            );
            let (last, chores) = m.run(failures.push((pong, now)));
            &&& updates_in(chores) == seq![
                (
                    declared,
                    PeerRecordView { onion_address: declared, last_state_change: now, stale: false },
                ),
            ]
            &&& m.left_behind_in(last)
        }),
    decreases failures.len(),
{
    let pong = MonitorEventView::Attempt(
        AttemptOutcomeView::Reply(ProtocolMessageView::Pong { address: declared }),
    );
    let history = failures.push((pong, now));
    let (next, plan) = m.transition(history[0].0, history[0].1);
    let fresh = PeerRecordView { onion_address: declared, last_state_change: now, stale: false };
    if failures.len() == 0 {
        assert(history.drop_first() =~= Seq::empty());
        assert(next.run(history.drop_first()) == (next, Seq::<ChoreView>::empty()));
        assert(plan.chores + Seq::<ChoreView>::empty() =~= plan.chores);
        law_next_due_skips_cooldown(m.roster, m.cursor + 1, now, m.policy.cooldown_secs);
        let settled = settling_chores(
            m.policy,
            AttemptOutcomeView::Reply(ProtocolMessageView::Pong { address: declared }),
            Some((declared, fresh)),
        );
        lemma_updates_in_settling(
            m.policy,
            AttemptOutcomeView::Reply(ProtocolMessageView::Pong { address: declared }),
            Some((declared, fresh)),
        );
        lemma_updates_in_then_pause(settled, m.policy.cooldown_secs);
    } else {
        assert(history[0] == failures[0]);
        assert(history.drop_first() =~= failures.drop_first().push((pong, now)));
        lemma_all_failed_rest(failures);
        law_pong_sends_one_update(next, failures.drop_first(), declared, now);
        lemma_updates_in_after_pause(m.policy.backoff_secs, next.run(history.drop_first()).1);
    }
}

/// A peer that fails every attempt it is allowed causes one update if it was
/// not stale, and none if it was: the update is filed under the peer's own
/// address and marks it stale at the time of the last failure. The peer is
/// then left behind for the rest of the scan.
pub proof fn law_exhaustion_marks_stale_once(m: MonitorView, failures: Seq<(MonitorEventView, u64)>)
    requires
        m.probing(),
        all_failed(failures),
        m.failures + failures.len() == m.policy.attempt_limit(),
        failures.len() > 0,
    ensures
        ({
            let target = m.roster[m.cursor as int];
            let (last, chores) = m.run(failures);
            &&& updates_in(chores) == if target.1.stale {
                Seq::empty()
            } else {
                seq![
                    (
                        target.0,
                        PeerRecordView {
                            last_state_change: failures.last().1,
                            stale: true,
                            ..target.1
                        },
                    ),
                ]
            }
            &&& m.left_behind_in(last)
        }),
    decreases failures.len(),
{
    let target = m.roster[m.cursor as int];
    let (next, plan) = m.transition(failures[0].0, failures[0].1);
    let outcome = failures[0].0->Attempt_0;
    let now = failures[0].1;
    if failures.len() == 1 {
        assert(failures.drop_first() =~= Seq::empty());
        assert(next.run(failures.drop_first()) == (next, Seq::<ChoreView>::empty()));
        assert(plan.chores + Seq::<ChoreView>::empty() =~= plan.chores);
        law_next_due_skips_cooldown(m.roster, m.cursor + 1, now, m.policy.cooldown_secs);
        let update = verdict(m.policy, target.0, target.1, m.failures, outcome, now)->Settled_0;
        let settled = settling_chores(m.policy, outcome, update);
        lemma_updates_in_settling(m.policy, outcome, update);
        lemma_updates_in_then_pause(settled, m.policy.cooldown_secs);
    } else {
        lemma_all_failed_rest(failures);
        law_exhaustion_marks_stale_once(next, failures.drop_first());
        assert(failures.drop_first().last() == failures.last());
        lemma_updates_in_after_pause(m.policy.backoff_secs, next.run(failures.drop_first()).1);
    }
}

} // verus!
