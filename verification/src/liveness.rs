//! What the monitor's findings do to the registry's answers.
//!
//! The monitor never touches the registry. It asks for updates, and the
//! registry task applies them like any other command. The laws here follow
//! a peer through both: from the attempts to reach it to the list of active
//! peers.

use vstd::prelude::*;
use crate::commands::{peers_after, peers_after_all, CommandView};
use crate::monitor::{AttemptOutcomeView, ChoreView, MonitorEventView, MonitorView};
use crate::monitor_laws::{
    all_failed, law_exhaustion_marks_stale_once, law_pong_sends_one_update, updates_in,
};
use crate::record::PeerRecordView;
use crate::registry::active_addresses;
use crate::wire::ProtocolMessageView;

verus! {

/// The commands that carry `updates` to the registry, in their order.
pub open spec fn update_commands(updates: Seq<(Seq<char>, PeerRecordView)>) -> Seq<CommandView> {
    Seq::new(updates.len(), |i: int| CommandView::Update(updates[i].0, updates[i].1))
}

/// The peers once the registry has applied the updates among `chores`.
pub open spec fn peers_after_chores(
    peers: Map<Seq<char>, PeerRecordView>,
    chores: Seq<ChoreView>,
) -> Map<Seq<char>, PeerRecordView> {
    peers_after_all(peers, update_commands(updates_in(chores)))
}

proof fn lemma_no_update_changes_nothing(peers: Map<Seq<char>, PeerRecordView>)
    ensures
        peers_after_all(peers, update_commands(Seq::empty())) == peers,
{
}

proof fn lemma_one_update_is_an_insertion(
    peers: Map<Seq<char>, PeerRecordView>,
    address: Seq<char>,
    record: PeerRecordView,
)
    ensures
        peers_after_all(peers, update_commands(seq![(address, record)])) == peers.insert(
            address,
            record,
        ),
{
    let commands = update_commands(seq![(address, record)]);
    assert(commands.len() == 1);
    assert(commands.last() == CommandView::Update(address, record));
    assert(commands.drop_last() =~= Seq::empty());
    assert(peers_after_all(peers, commands.drop_last()) == peers);
    assert(peers_after_all(peers, commands) == peers_after(
        peers,
        CommandView::Update(address, record),
    ));
}

/// A peer that fails every attempt it is allowed is not among the active
/// peers afterwards: its record in the registry is stale, and every other
/// address is as it was. This holds where the registry knows the peer as
/// the roster of the scan shows it.
pub proof fn law_unreachable_peer_is_not_active(
    peers: Map<Seq<char>, PeerRecordView>,
    m: MonitorView,
    failures: Seq<(MonitorEventView, u64)>,
)
    requires
        m.probing(),
        all_failed(failures),
        failures.len() > 0,
        m.failures + failures.len() == m.policy.attempt_limit(),
        peers.contains_key(m.roster[m.cursor as int].0),
        peers[m.roster[m.cursor as int].0] == m.roster[m.cursor as int].1,
    ensures
        ({
            let address = m.roster[m.cursor as int].0;
            let after = peers_after_chores(peers, m.run(failures).1);
            &&& after.contains_key(address)
            &&& after[address].stale
            &&& !active_addresses(after).contains(address)
            &&& after.remove(address) == peers.remove(address)
        }),
{
    let target = m.roster[m.cursor as int];
    law_exhaustion_marks_stale_once(m, failures);
    if target.1.stale {
        lemma_no_update_changes_nothing(peers);
    } else {
        let marked = PeerRecordView {
            last_state_change: failures.last().1,
            stale: true,
            ..target.1
        };
        lemma_one_update_is_an_insertion(peers, target.0, marked);
        assert(peers.insert(target.0, marked).remove(target.0) =~= peers.remove(target.0));
    }
}

/// A peer that answers with a `Pong` within the attempts it is allowed is
/// among the active peers afterwards, under the address that it declared:
/// its record there is not stale and carries the time of the answer. Every
/// other address is as it was.
pub proof fn law_answering_peer_is_active(
    peers: Map<Seq<char>, PeerRecordView>,
    m: MonitorView,
    failures: Seq<(MonitorEventView, u64)>,
    declared: Seq<char>,
    now: u64,
)
    requires
        m.probing(),
        all_failed(failures),
        m.failures + failures.len() < m.policy.attempt_limit(),
    ensures
        ({
            let pong = MonitorEventView::Attempt(
                AttemptOutcomeView::Reply(ProtocolMessageView::Pong { address: declared }),
            );
            let after = peers_after_chores(peers, m.run(failures.push((pong, now))).1);
            &&& active_addresses(after).contains(declared)
            &&& after[declared] == PeerRecordView {
                onion_address: declared,
                last_state_change: now,
                stale: false,
            }
            &&& after.remove(declared) == peers.remove(declared)
        }),
{
    let fresh = PeerRecordView { onion_address: declared, last_state_change: now, stale: false };
    law_pong_sends_one_update(m, failures, declared, now);
    lemma_one_update_is_an_insertion(peers, declared, fresh);
    assert(peers.insert(declared, fresh).remove(declared) =~= peers.remove(declared));
}

} // verus!
