//! The registry's command interface.
//!
//! One task owns the registry. It takes one event at a time from its command
//! source, in the order of arrival, and each event yields one action. This
//! module decides the action; receiving commands and delivering replies is the
//! caller's part.

use vstd::prelude::*;
use crate::mempool::{WatchedOutpoint, WatchedOutpointView};
use crate::record::{PeerRecord, PeerRecordView};
use crate::registry::{
    active_addresses, distinct_addresses, lemma_roster_map_entry, lists, roster_map, Registry,
};

verus! {

/// A command to the registry.
#[derive(Debug, PartialEq, Eq)]
pub enum Command {
    /// File the record under the address. No reply.
    Add(String, PeerRecord),
    /// Replace the whole record at the address. No reply.
    Update(String, PeerRecord),
    /// Reply with a copy of the record at the address, if there is one.
    Query(String),
    /// Reply with every entry.
    QueryAll,
    /// Reply with the addresses of the peers that are not stale.
    QueryActive,
    /// Reply with the unconfirmed transactions that spend the output.
    WatchUtxo(WatchedOutpoint),
}

/// The mathematical value of a [`Command`].
pub enum CommandView {
    Add(Seq<char>, PeerRecordView),
    Update(Seq<char>, PeerRecordView),
    Query(Seq<char>),
    QueryAll,
    QueryActive,
    WatchUtxo(WatchedOutpointView),
}

impl View for Command {
    type V = CommandView;

    open spec fn view(&self) -> CommandView {
        match *self {
            Command::Add(address, record) => CommandView::Add(address@, record@),
            Command::Update(address, record) => CommandView::Update(address@, record@),
            Command::Query(address) => CommandView::Query(address@),
            Command::QueryAll => CommandView::QueryAll,
            Command::QueryActive => CommandView::QueryActive,
            Command::WatchUtxo(outpoint) => CommandView::WatchUtxo(outpoint@),
        }
    }
}

/// Why the registry task ended.
#[derive(Clone, Copy, Debug, PartialEq, Eq)]
pub enum ShutdownCause {
    /// Every sender of commands is gone: nothing is left to serve.
    DbManagerExited,
}

/// The signal that the registry task emits when it ends.
#[derive(Clone, Copy, Debug, PartialEq, Eq)]
pub struct ShutdownStatus {
    pub cause: ShutdownCause,
}

/// What the registry task takes from its command source.
#[derive(Debug, PartialEq, Eq)]
pub enum TaskEvent {
    /// The next command.
    Command(Command),
    /// The source is exhausted: every sender is gone.
    SourceClosed,
}

/// The mathematical value of a [`TaskEvent`].
pub enum TaskEventView {
    Command(CommandView),
    SourceClosed,
}

impl View for TaskEvent {
    type V = TaskEventView;

    open spec fn view(&self) -> TaskEventView {
        match *self {
            TaskEvent::Command(command) => TaskEventView::Command(command@),
            TaskEvent::SourceClosed => TaskEventView::SourceClosed,
        }
    }
}

/// What the caller does after an event.
#[derive(Debug, PartialEq, Eq)]
pub enum Action {
    /// Nothing: the command has no reply.
    NoReply,
    /// Reply with the record, or with nothing where the address is unknown.
    ReplyRecord(Option<PeerRecord>),
    /// Reply with these entries.
    ReplyRoster(Vec<(String, PeerRecord)>),
    /// Reply with these addresses.
    ReplyActive(Vec<String>),
    /// Ask the store which transactions spend the output, and reply with
    /// what [`crate::mempool::answer_watch`] makes of the store's answer.
    QuerySpenders(WatchedOutpoint),
    /// Emit the status and end the task.
    Shutdown(ShutdownStatus),
    /// Nothing: the task has ended before this event.
    Ended,
}

/// The mathematical value of an [`Action`].
pub enum ActionView {
    NoReply,
    ReplyRecord(Option<PeerRecordView>),
    ReplyRoster(Seq<(Seq<char>, PeerRecordView)>),
    ReplyActive(Seq<Seq<char>>),
    QuerySpenders(WatchedOutpointView),
    Shutdown(ShutdownStatus),
    Ended,
}

impl View for Action {
    type V = ActionView;

    open spec fn view(&self) -> ActionView {
        match *self {
            Action::NoReply => ActionView::NoReply,
            Action::ReplyRecord(found) => ActionView::ReplyRecord(found.deep_view()),
            Action::ReplyRoster(roster) => ActionView::ReplyRoster(roster.deep_view()),
            Action::ReplyActive(active) => ActionView::ReplyActive(active.deep_view()),
            Action::QuerySpenders(outpoint) => ActionView::QuerySpenders(outpoint@),
            Action::Shutdown(status) => ActionView::Shutdown(status),
            Action::Ended => ActionView::Ended,
        }
    }
}

/// The address and the record that a command files, if it files one.
pub open spec fn written_by(command: CommandView) -> Option<(Seq<char>, PeerRecordView)> {
    match command {
        CommandView::Add(address, record) => Some((address, record)),
        CommandView::Update(address, record) => Some((address, record)),
        _ => None,
    }
}

/// The command files a record under `address`.
pub open spec fn writes_to(command: CommandView, address: Seq<char>) -> bool {
    written_by(command) matches Some(entry) && entry.0 == address
}

/// The peers after a command.
pub open spec fn peers_after(
    peers: Map<Seq<char>, PeerRecordView>,
    command: CommandView,
) -> Map<Seq<char>, PeerRecordView> {
    match written_by(command) {
        Some(entry) => peers.insert(entry.0, entry.1),
        None => peers,
    }
}

/// The peers after a sequence of commands, taken in their order.
pub open spec fn peers_after_all(
    peers: Map<Seq<char>, PeerRecordView>,
    commands: Seq<CommandView>,
) -> Map<Seq<char>, PeerRecordView>
    decreases commands.len(),
{
    if commands.len() == 0 {
        peers
    } else {
        peers_after(peers_after_all(peers, commands.drop_last()), commands.last())
    }
}

/// `action` is a right answer to `command`, given the peers before it.
///
/// The order of the entries of a roster and of the active addresses is left
/// open, so more than one action can be right.
pub open spec fn answers(
    peers: Map<Seq<char>, PeerRecordView>,
    command: CommandView,
    action: ActionView,
) -> bool {
    match command {
        CommandView::Add(_, _) => action is NoReply,
        CommandView::Update(_, _) => action is NoReply,
        CommandView::Query(address) => action == ActionView::ReplyRecord(
            if peers.contains_key(address) {
                Some(peers[address])
            } else {
                None
            },
        ),
        CommandView::QueryAll => {
            &&& action is ReplyRoster
            &&& distinct_addresses(action->ReplyRoster_0)
            &&& roster_map(action->ReplyRoster_0) == peers
        },
        CommandView::QueryActive => {
            &&& action is ReplyActive
            &&& action->ReplyActive_0.no_duplicates()
            &&& action->ReplyActive_0.to_set() == active_addresses(peers)
        },
        CommandView::WatchUtxo(outpoint) => action == ActionView::QuerySpenders(outpoint),
    }
}

/// The mathematical value of a [`RegistryTask`].
pub struct RegistryTaskView {
    pub peers: Map<Seq<char>, PeerRecordView>,
    pub ended: bool,
}

impl RegistryTaskView {
    /// `event` may take the task from `self` to `next` with `action`.
    ///
    /// - A command changes the peers as [`peers_after`] says and is answered
    ///   as [`answers`] says.
    /// - The end of the command source ends the task, with the one shutdown
    ///   status.
    /// - A task that has ended stays as it is and does nothing.
    pub open spec fn steps_to(
        self,
        event: TaskEventView,
        next: RegistryTaskView,
        action: ActionView,
    ) -> bool {
        if self.ended {
            next == self && action is Ended
        } else {
            match event {
                TaskEventView::Command(command) => {
                    &&& next == (RegistryTaskView {
                        peers: peers_after(self.peers, command),
                        ended: false,
                    })
                    &&& answers(self.peers, command, action)
                },
                TaskEventView::SourceClosed => {
                    &&& next == (RegistryTaskView { peers: self.peers, ended: true })
                    &&& action == ActionView::Shutdown(
                        ShutdownStatus { cause: ShutdownCause::DbManagerExited },
                    )
                },
            }
        }
    }
}

/// The task that owns the registry.
pub struct RegistryTask {
    registry: Registry,
    ended: bool,
}

impl View for RegistryTask {
    type V = RegistryTaskView;

    closed spec fn view(&self) -> RegistryTaskView {
        RegistryTaskView { peers: self.registry@, ended: self.ended }
    }
}

impl RegistryTask {
    /// A task that has not ended, with a registry without peers.
    pub fn new() -> (task: Self)
        ensures
            task@ == (RegistryTaskView { peers: Map::empty(), ended: false }),
    {
        RegistryTask { registry: Registry::new(), ended: false }
    }

    /// Takes one event and says what to do: see
    /// [`RegistryTaskView::steps_to`].
    pub fn step(&mut self, event: TaskEvent) -> (action: Action)
        ensures
            old(self)@.steps_to(event@, final(self)@, action@),
    {
        if self.ended {
            return Action::Ended;
        }
        match event {
            TaskEvent::Command(Command::Add(address, record)) => {
                self.registry.add(address, record);
                Action::NoReply
            },
            TaskEvent::Command(Command::Update(address, record)) => {
                self.registry.update(address, record);
                Action::NoReply
            },
            TaskEvent::Command(Command::Query(address)) => Action::ReplyRecord(
                self.registry.query(&address),
            ),
            TaskEvent::Command(Command::QueryAll) => Action::ReplyRoster(self.registry.query_all()),
            TaskEvent::Command(Command::QueryActive) => Action::ReplyActive(
                self.registry.query_active(),
            ),
            TaskEvent::Command(Command::WatchUtxo(outpoint)) => Action::QuerySpenders(outpoint),
            TaskEvent::SourceClosed => {
                self.ended = true;
                Action::Shutdown(ShutdownStatus { cause: ShutdownCause::DbManagerExited })
            },
        }
    }
}

/// A record that was added is what a query of its address returns.
pub proof fn law_add_then_query(
    peers: Map<Seq<char>, PeerRecordView>,
    address: Seq<char>,
    record: PeerRecordView,
    action: ActionView,
)
    requires
        answers(
            peers_after(peers, CommandView::Add(address, record)),
            CommandView::Query(address),
            action,
        ),
    ensures
        action == ActionView::ReplyRecord(Some(record)),
{
}

/// An update replaces the whole record at its address, whatever was there,
/// and touches no other address.
pub proof fn law_update_replaces(
    peers: Map<Seq<char>, PeerRecordView>,
    address: Seq<char>,
    record: PeerRecordView,
)
    ensures
        peers_after(peers, CommandView::Update(address, record)).contains_key(address),
        peers_after(peers, CommandView::Update(address, record))[address] == record,
        peers_after(peers, CommandView::Update(address, record)).remove(address) == peers.remove(
            address,
        ),
{
    assert(peers.insert(address, record).remove(address) =~= peers.remove(address));
}

/// The active addresses are precisely those whose record is not stale: an
/// answer to `QueryActive` lists an address if and only if the address is
/// known and its record is not stale, and lists none twice.
pub proof fn law_query_active_is_exact(
    peers: Map<Seq<char>, PeerRecordView>,
    active: Seq<Seq<char>>,
)
    ensures
        answers(peers, CommandView::QueryActive, ActionView::ReplyActive(active)) <==> {
            &&& active.no_duplicates()
            &&& forall|address: Seq<char>|
                active.contains(address) <==> peers.contains_key(address) && !peers[address].stale
        },
{
    if active.to_set() == active_addresses(peers) {
        assert forall|address: Seq<char>|
            active.contains(address) <==> peers.contains_key(address)
                && !peers[address].stale by {
            assert(active.to_set().contains(address) == active.contains(address));
            assert(active_addresses(peers).contains(address) == (peers.contains_key(address)
                && !peers[address].stale));
        }
    }
    if forall|address: Seq<char>|
        active.contains(address) <==> peers.contains_key(address) && !peers[address].stale {
        assert forall|address: Seq<char>|
            active.to_set().contains(address) == active_addresses(peers).contains(address) by {
            assert(active.to_set().contains(address) == active.contains(address));
        }
        assert(active.to_set() =~= active_addresses(peers));
    }
}

/// After a sequence of commands an address holds the record of the last
/// command that wrote to it.
pub proof fn law_latest_write_wins(
    peers: Map<Seq<char>, PeerRecordView>,
    commands: Seq<CommandView>,
    last_write: int,
    address: Seq<char>,
)
    requires
        0 <= last_write < commands.len(),
        writes_to(commands[last_write], address),
        forall|later: int|
            last_write < later < commands.len() ==> !writes_to(#[trigger] commands[later], address),
    ensures
        peers_after_all(peers, commands).contains_key(address),
        peers_after_all(peers, commands)[address] == (written_by(commands[last_write])->0).1,
    decreases commands.len(),
{
    if last_write < commands.len() - 1 {
        assert(!writes_to(commands[commands.len() - 1], address));
        assert forall|later: int| last_write < later < commands.drop_last().len() implies !writes_to(
            #[trigger] commands.drop_last()[later],
            address,
        ) by {
            assert(commands.drop_last()[later] == commands[later]);
        }
        law_latest_write_wins(peers, commands.drop_last(), last_write, address);
    }
}

/// An address that no command of a sequence writes to is left as it was.
pub proof fn law_unwritten_address_is_kept(
    peers: Map<Seq<char>, PeerRecordView>,
    commands: Seq<CommandView>,
    address: Seq<char>,
)
    requires
        forall|i: int| 0 <= i < commands.len() ==> !writes_to(#[trigger] commands[i], address),
    ensures
        peers_after_all(peers, commands).contains_key(address) == peers.contains_key(address),
        peers.contains_key(address) ==> peers_after_all(peers, commands)[address] == peers[address],
    decreases commands.len(),
{
    if commands.len() > 0 {
        assert(!writes_to(commands[commands.len() - 1], address));
        assert forall|i: int| 0 <= i < commands.drop_last().len() implies !writes_to(
            #[trigger] commands.drop_last()[i],
            address,
        ) by {
            assert(commands.drop_last()[i] == commands[i]);
        }
        law_unwritten_address_is_kept(peers, commands.drop_last(), address);
    }
}

/// An answer to `QueryAll` after a sequence of commands on a registry
/// without peers lists exactly the addresses that were written to, each once
/// and with the record of the last write to it.
pub proof fn law_query_all_lists_latest(commands: Seq<CommandView>, roster: Seq<(Seq<char>, PeerRecordView)>)
    requires
        answers(
            peers_after_all(Map::empty(), commands),
            CommandView::QueryAll,
            ActionView::ReplyRoster(roster),
        ),
    ensures
        distinct_addresses(roster),
        forall|address: Seq<char>|
            lists(roster, address) <==> exists|i: int|
                0 <= i < commands.len() && writes_to(#[trigger] commands[i], address),
        forall|k: int, i: int|
            0 <= k < roster.len() && 0 <= i < commands.len() && writes_to(
                #[trigger] commands[i],
                (#[trigger] roster[k]).0,
            ) && (forall|later: int|
                i < later < commands.len() ==> !writes_to(
                    #[trigger] commands[later],
                    roster[k].0,
                )) ==> roster[k].1 == (written_by(commands[i])->0).1,
{
    let peers = peers_after_all(Map::empty(), commands);
    assert forall|address: Seq<char>|
        lists(roster, address) <==> exists|i: int|
            0 <= i < commands.len() && writes_to(#[trigger] commands[i], address) by {
        assert(roster_map(roster).contains_key(address) == lists(roster, address));
        if exists|i: int| 0 <= i < commands.len() && writes_to(#[trigger] commands[i], address) {
            let last_write = lemma_some_write_is_last(commands, address);
            law_latest_write_wins(Map::empty(), commands, last_write, address);
        } else {
            law_unwritten_address_is_kept(Map::empty(), commands, address);
        }
    }
    assert forall|k: int, i: int|
        0 <= k < roster.len() && 0 <= i < commands.len() && writes_to(
            #[trigger] commands[i],
            (#[trigger] roster[k]).0,
        ) && (forall|later: int|
            i < later < commands.len() ==> !writes_to(
                #[trigger] commands[later],
                roster[k].0,
            )) implies roster[k].1 == (written_by(commands[i])->0).1 by {
        lemma_roster_map_entry(roster, k);
        law_latest_write_wins(Map::empty(), commands, i, roster[k].0);
    }
}

/// Where some command writes to `address`, one of them is the last to do so.
proof fn lemma_some_write_is_last(commands: Seq<CommandView>, address: Seq<char>) -> (last_write:
    int)
    requires
        exists|i: int| 0 <= i < commands.len() && writes_to(#[trigger] commands[i], address),
    ensures
        0 <= last_write < commands.len(),
        writes_to(commands[last_write], address),
        forall|later: int|
            last_write < later < commands.len() ==> !writes_to(#[trigger] commands[later], address),
    decreases commands.len(),
{
    let end = commands.len() - 1;
    if writes_to(commands[end], address) {
        end
    } else {
        let i = choose|i: int| 0 <= i < commands.len() && writes_to(#[trigger] commands[i], address);
        assert(commands.drop_last()[i] == commands[i]);
        let found = lemma_some_write_is_last(commands.drop_last(), address);
        assert(commands.drop_last()[found] == commands[found]);
        assert forall|later: int| found < later < commands.len() implies !writes_to(
            #[trigger] commands[later],
            address,
        ) by {
            if later < end {
                assert(commands.drop_last()[later] == commands[later]);
            }
        }
        found
    }
}

/// The shutdown status is emitted when the command source closes and at no
/// other time, and the task has then ended for good: whatever comes after,
/// the task stays as it is and emits nothing.
pub proof fn law_shutdown_is_final(
    task: RegistryTaskView,
    event: TaskEventView,
    next: RegistryTaskView,
    action: ActionView,
    later_event: TaskEventView,
    later_next: RegistryTaskView,
    later_action: ActionView,
)
    requires
        task.steps_to(event, next, action),
        next.steps_to(later_event, later_next, later_action),
    ensures
        action is Shutdown <==> !task.ended && event is SourceClosed,
        action is Shutdown ==> next.ended,
        next.ended ==> later_next == next && later_action is Ended,
{
}

/// A run of the task on `commands`: `states` are the task before, between
/// and after the commands, and `actions` are what the commands yielded.
pub open spec fn is_run(
    states: Seq<RegistryTaskView>,
    commands: Seq<CommandView>,
    actions: Seq<ActionView>,
) -> bool {
    &&& states.len() == commands.len() + 1
    &&& actions.len() == commands.len()
    &&& !states[0].ended
    &&& forall|i: int|
        0 <= i < commands.len() ==> (#[trigger] states[i]).steps_to(
            TaskEventView::Command(commands[i]),
            states[i + 1],
            actions[i],
        )
}

/// Commands take effect in the order of their arrival: before the command at
/// `index` the task holds the peers that all commands before it have left,
/// and its action answers the command for exactly those peers. So whoever
/// waits for a reply before sending the next command reads what was written.
pub proof fn law_commands_take_effect_in_order(
    states: Seq<RegistryTaskView>,
    commands: Seq<CommandView>,
    actions: Seq<ActionView>,
    index: int,
)
    requires
        is_run(states, commands, actions),
        0 <= index <= commands.len(),
    ensures
        !states[index].ended,
        states[index].peers == peers_after_all(states[0].peers, commands.take(index)),
        index < commands.len() ==> answers(
            peers_after_all(states[0].peers, commands.take(index)),
            commands[index],
            actions[index],
        ),
    decreases index,
{
    if index > 0 {
        law_commands_take_effect_in_order(states, commands, actions, index - 1);
        assert(states[index - 1].steps_to(
            TaskEventView::Command(commands[index - 1]),
            states[index],
            actions[index - 1],
        ));
        assert(commands.take(index).drop_last() =~= commands.take(index - 1));
        assert(commands.take(index).last() == commands[index - 1]);
    }
    if index < commands.len() {
        assert(states[index].steps_to(
            TaskEventView::Command(commands[index]),
            states[index + 1],
            actions[index],
        ));
    }
}

} // verus!
