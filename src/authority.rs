//! The broadcast authority: the single owner of the client table and the ban
//! table of the chat service. It consumes connection events one at a time and
//! answers each with the action that the connection side must carry out.
use vstd::prelude::*;

use crate::net::{Ip, PeerAddr};

verus! {

/// How long a ban holds, in milliseconds (ten minutes).
pub const BAN_WINDOW_MS: u64 = 600_000;

/// One accepted connection as the authority sees it: an identifier chosen by
/// whoever accepted it, and the peer address, which stays valid after shutdown.
#[derive(Clone, Copy, Debug, PartialEq, Eq, Hash, Structural)]
pub struct Handle {
    pub id: u64,
    pub addr: PeerAddr,
}

/// The authority's bookkeeping for one admitted connection.
#[derive(Clone, Copy, Debug, PartialEq, Eq, Structural)]
pub struct ClientRecord {
    pub conn: u64,
    /// Milliseconds timestamp of the last accepted message.
    pub last_message: u64,
    /// Tracked, reserved for a future abuse policy.
    pub strike_count: u32,
}

/// What a connection's reader task reports to the authority.
#[derive(Clone, Debug)]
pub enum Event {
    Connected { handle: Handle },
    Disconnected { handle: Handle },
    MessageReceived { handle: Handle, bytes: Vec<u8> },
}

/// What the authority asks the connection side to do in answer to one event.
#[derive(Clone, Debug)]
pub enum Action {
    /// The connection was admitted; nothing to send.
    Admit,
    /// The peer is banned: send it the rejection notice and shut it down.
    Reject { handle: Handle },
    /// The record was dropped; nothing to send.
    Forget,
    /// Send `bytes` to each handle of `to`, each independently of the others.
    Deliver { to: Vec<Handle>, bytes: Vec<u8> },
}

/// The abstract state of the authority: the client table keyed by peer
/// address and the ban table keyed by IP, with the time each ban was confirmed.
pub struct ChatModel {
    pub clients: Map<PeerAddr, ClientRecord>,
    pub bans: Map<Ip, u64>,
}

/// A ban confirmed at `since` still holds at `now`.
pub open spec fn ban_holds(since: u64, now: u64) -> bool {
    (now as int) < since + BAN_WINDOW_MS
}

/// `ip` has a ban in `bans` that still holds at `now`.
pub open spec fn is_banned_at(bans: Map<Ip, u64>, ip: Ip, now: u64) -> bool {
    bans.contains_key(ip) && ban_holds(bans[ip], now)
}

/// The record a freshly admitted connection gets.
pub open spec fn fresh_record(handle: Handle, now: u64) -> ClientRecord {
    ClientRecord { conn: handle.id, last_message: now, strike_count: 0 }
}

/// `to` is a broadcast from `sender` over `clients`: exactly one handle for
/// each tracked client other than the sender, carrying that client's connection.
pub open spec fn is_broadcast(
    clients: Map<PeerAddr, ClientRecord>,
    sender: PeerAddr,
    to: Seq<Handle>,
) -> bool {
    &&& forall|i: int|
        0 <= i < to.len() ==> {
            &&& #[trigger] to[i].addr != sender
            &&& clients.contains_key(to[i].addr)
            &&& clients[to[i].addr].conn == to[i].id
        }
    &&& forall|a: PeerAddr|
        #![trigger clients.contains_key(a)]
        clients.contains_key(a) && a != sender ==> exists|i: int|
            0 <= i < to.len() && #[trigger] to[i].addr == a
    &&& forall|i: int, j: int| 0 <= i < j < to.len() ==> to[i].addr != to[j].addr
}

/// The state after the authority handles `ev` at time `now`.
pub open spec fn step(m: ChatModel, ev: Event, now: u64) -> ChatModel {
    match ev {
        Event::Connected { handle } => {
            if is_banned_at(m.bans, handle.addr.ip, now) {
                m
            } else {
                ChatModel {
                    clients: m.clients.insert(handle.addr, fresh_record(handle, now)),
                    bans: m.bans.remove(handle.addr.ip),
                }
            }
        },
        Event::Disconnected { handle } => ChatModel {
            clients: m.clients.remove(handle.addr),
            bans: m.bans,
        },
        Event::MessageReceived { .. } => m,
    }
}

/// `act` is the authority's answer to `ev` at time `now` in state `m`.
pub open spec fn answers(m: ChatModel, ev: Event, now: u64, act: Action) -> bool {
    match ev {
        Event::Connected { handle } => if is_banned_at(m.bans, handle.addr.ip, now) {
            act == (Action::Reject { handle })
        } else {
            act == Action::Admit
        },
        Event::Disconnected { .. } => act == Action::Forget,
        Event::MessageReceived { handle, bytes } => match act {
            Action::Deliver { to, bytes: sent } => sent@ == bytes@ && is_broadcast(
                m.clients,
                handle.addr,
                to@,
            ),
            _ => false,
        },
    }
}

/// The state after handling each `(event, time)` of `evs` in turn.
pub open spec fn run(m: ChatModel, evs: Seq<(Event, u64)>) -> ChatModel
    decreases evs.len(),
{
    if evs.len() == 0 {
        m
    } else {
        run(step(m, evs[0].0, evs[0].1), evs.drop_first())
    }
}

/// `entries` stores the map `m`: one entry per key, none twice.
pub closed spec fn table_wf<K, V>(entries: Seq<(K, V)>, m: Map<K, V>) -> bool {
    &&& forall|i: int, j: int| 0 <= i < j < entries.len() ==> entries[i].0 != entries[j].0
    &&& forall|i: int|
        0 <= i < entries.len() ==> {
            &&& m.contains_key(#[trigger] entries[i].0)
            &&& m[entries[i].0] == entries[i].1
        }
    &&& forall|k: K|
        #[trigger] m.contains_key(k) ==> exists|i: int|
            0 <= i < entries.len() && #[trigger] entries[i].0 == k
}

proof fn lemma_table_update<K, V>(entries: Seq<(K, V)>, m: Map<K, V>, at: int, v: V)
    requires
        table_wf(entries, m),
        0 <= at < entries.len(),
    ensures
        table_wf(entries.update(at, (entries[at].0, v)), m.insert(entries[at].0, v)),
{
    let k = entries[at].0;
    let e2 = entries.update(at, (k, v));
    let m2 = m.insert(k, v);
    assert forall|i: int| 0 <= i < e2.len() implies {
        &&& m2.contains_key(#[trigger] e2[i].0)
        &&& m2[e2[i].0] == e2[i].1
    } by {
        if i != at {
            assert(entries[i].0 != k);
        }
    }
    assert forall|k2: K| #[trigger] m2.contains_key(k2) implies exists|i: int|
        0 <= i < e2.len() && #[trigger] e2[i].0 == k2 by {
        if k2 == k {
            assert(e2[at].0 == k2);
        } else {
            let i = choose|i: int| 0 <= i < entries.len() && #[trigger] entries[i].0 == k2;
            assert(e2[i].0 == k2);
        }
    }
}

proof fn lemma_table_push<K, V>(entries: Seq<(K, V)>, m: Map<K, V>, k: K, v: V)
    requires
        table_wf(entries, m),
        !m.contains_key(k),
    ensures
        table_wf(entries.push((k, v)), m.insert(k, v)),
{
    let e2 = entries.push((k, v));
    let m2 = m.insert(k, v);
    assert forall|i: int, j: int| 0 <= i < j < e2.len() implies e2[i].0 != e2[j].0 by {
        if j == entries.len() {
            assert(m.contains_key(entries[i].0));
        }
    }
    assert forall|i: int| 0 <= i < e2.len() implies {
        &&& m2.contains_key(#[trigger] e2[i].0)
        &&& m2[e2[i].0] == e2[i].1
    } by {
        if i < entries.len() {
            assert(m.contains_key(entries[i].0));
        }
    }
    assert forall|k2: K| #[trigger] m2.contains_key(k2) implies exists|i: int|
        0 <= i < e2.len() && #[trigger] e2[i].0 == k2 by {
        if k2 == k {
            assert(e2[entries.len() as int].0 == k2);
        } else {
            let i = choose|i: int| 0 <= i < entries.len() && #[trigger] entries[i].0 == k2;
            assert(e2[i].0 == k2);
        }
    }
}

proof fn lemma_table_remove<K, V>(entries: Seq<(K, V)>, m: Map<K, V>, at: int)
    requires
        table_wf(entries, m),
        0 <= at < entries.len(),
    ensures
        table_wf(entries.remove(at), m.remove(entries[at].0)),
{
    let k = entries[at].0;
    let e2 = entries.remove(at);
    let m2 = m.remove(k);
    assert forall|i: int, j: int| 0 <= i < j < e2.len() implies e2[i].0 != e2[j].0 by {
        let oi = if i < at { i } else { i + 1 };
        let oj = if j < at { j } else { j + 1 };
        assert(entries[oi].0 != entries[oj].0);
    }
    assert forall|i: int| 0 <= i < e2.len() implies {
        &&& m2.contains_key(#[trigger] e2[i].0)
        &&& m2[e2[i].0] == e2[i].1
    } by {
        let oi = if i < at { i } else { i + 1 };
        assert(entries[oi].0 != k);
        assert(m.contains_key(entries[oi].0));
    }
    assert forall|k2: K| #[trigger] m2.contains_key(k2) implies exists|i: int|
        0 <= i < e2.len() && #[trigger] e2[i].0 == k2 by {
        let i = choose|i: int| 0 <= i < entries.len() && #[trigger] entries[i].0 == k2;
        if i < at {
            assert(e2[i].0 == k2);
        } else {
            assert(e2[i - 1].0 == k2);
        }
    }
}

/// The single owner of the client and ban tables.
pub struct Authority {
    clients: Vec<(PeerAddr, ClientRecord)>,
    bans: Vec<(Ip, u64)>,
    model: Ghost<ChatModel>,
}

impl View for Authority {
    type V = ChatModel;

    closed spec fn view(&self) -> ChatModel {
        self.model@
    }
}

impl Authority {
    /// The client records as stored, one entry per tracked address.
    pub closed spec fn records(&self) -> Seq<(PeerAddr, ClientRecord)> {
        self.clients@
    }

    /// The stored records and the ban entries agree with the model, and no
    /// address (or IP) is stored twice.
    pub closed spec fn wf(&self) -> bool {
        &&& table_wf(self.clients@, self.model@.clients)
        &&& table_wf(self.bans@, self.model@.bans)
    }

    /// An authority with no clients and no bans.
    pub fn new() -> (r: Authority)
        ensures
            r.wf(),
            r@.clients == Map::<PeerAddr, ClientRecord>::empty(),
            r@.bans == Map::<Ip, u64>::empty(),
    {
        Authority {
            clients: Vec::new(),
            bans: Vec::new(),
            model: Ghost(ChatModel { clients: Map::empty(), bans: Map::empty() }),
        }
    }

    /// Index of the record for `addr`, if one is stored.
    fn find_client(&self, addr: PeerAddr) -> (r: Option<usize>)
        requires
            self.wf(),
        ensures
            r is Some <==> self@.clients.contains_key(addr),
            r matches Some(i) ==> i < self.clients@.len() && self.clients@[i as int].0 == addr,
    {
        let mut i: usize = 0;
        while i < self.clients.len()
            invariant
                self.wf(),
                i <= self.clients@.len(),
                forall|j: int| 0 <= j < i ==> self.clients@[j].0 != addr,
            decreases self.clients@.len() - i,
        {
            if self.clients[i].0 == addr {
                return Some(i);
            }
            i = i + 1;
        }
        None
    }

    /// Index of the ban entry for `ip`, if one is stored.
    fn find_ban(&self, ip: Ip) -> (r: Option<usize>)
        requires
            self.wf(),
        ensures
            r is Some <==> self@.bans.contains_key(ip),
            r matches Some(i) ==> i < self.bans@.len() && self.bans@[i as int].0 == ip,
    {
        let mut i: usize = 0;
        while i < self.bans.len()
            invariant
                self.wf(),
                i <= self.bans@.len(),
                forall|j: int| 0 <= j < i ==> self.bans@[j].0 != ip,
            decreases self.bans@.len() - i,
        {
            if self.bans[i].0 == ip {
                return Some(i);
            }
            i = i + 1;
        }
        None
    }

    /// Records (or re-confirms) a ban of `ip` at time `now`.
    pub fn ban(&mut self, ip: Ip, now: u64)
        requires
            old(self).wf(),
        ensures
            final(self).wf(),
            final(self)@.bans == old(self)@.bans.insert(ip, now),
            final(self)@.clients == old(self)@.clients,
    {
        let pos = self.find_ban(ip);
        proof {
            match pos {
                Some(i) => lemma_table_update(self.bans@, self.model@.bans, i as int, now),
                None => lemma_table_push(self.bans@, self.model@.bans, ip, now),
            }
        }
        match pos {
            Some(i) => {
                self.bans[i] = (ip, now);
            },
            None => {
                self.bans.push((ip, now));
            },
        }
        self.model = Ghost(
            ChatModel { clients: self.model@.clients, bans: self.model@.bans.insert(ip, now) },
        );
    }

    /// Whether `ip` is under a ban that still holds at `now`.
    pub fn is_banned(&self, ip: Ip, now: u64) -> (r: bool)
        requires
            self.wf(),
        ensures
            r == is_banned_at(self@.bans, ip, now),
    {
        match self.find_ban(ip) {
            Some(i) => (now as u128) < self.bans[i].1 as u128 + BAN_WINDOW_MS as u128,
            None => false,
        }
    }

    /// Handles a new connection at time `now`. A peer whose IP is under a
    /// ban that still holds is refused, and the ban is kept as it was.
    /// Otherwise any stale ban of its IP is dropped and the peer gets a fresh
    /// record, replacing any earlier one for its address. Returns whether
    /// the peer was admitted.
    pub fn on_connected(&mut self, handle: Handle, now: u64) -> (admitted: bool)
        requires
            old(self).wf(),
        ensures
            final(self).wf(),
            admitted == !is_banned_at(old(self)@.bans, handle.addr.ip, now),
            final(self)@ == step(old(self)@, Event::Connected { handle }, now),
    {
        let ip = handle.addr.ip;
        if self.is_banned(ip, now) {
            return false;
        }
        if let Some(i) = self.find_ban(ip) {
            proof {
                lemma_table_remove(self.bans@, self.model@.bans, i as int);
            }
            self.bans.remove(i);
        }
        let ghost bans2 = self.model@.bans.remove(ip);
        proof {
            if !old(self)@.bans.contains_key(ip) {
                assert(bans2 =~= self.model@.bans);
            }
        }
        self.model = Ghost(ChatModel { clients: self.model@.clients, bans: bans2 });
        let rec = ClientRecord { conn: handle.id, last_message: now, strike_count: 0 };
        let pos = self.find_client(handle.addr);
        proof {
            match pos {
                Some(i) => lemma_table_update(self.clients@, self.model@.clients, i as int, rec),
                None => lemma_table_push(self.clients@, self.model@.clients, handle.addr, rec),
            }
        }
        match pos {
            Some(i) => {
                self.clients[i] = (handle.addr, rec);
            },
            None => {
                self.clients.push((handle.addr, rec));
            },
        }
        self.model = Ghost(
            ChatModel { clients: self.model@.clients.insert(handle.addr, rec), bans: bans2 },
        );
        true
    }

    /// Handles the end of a connection: drops the record for its address,
    /// if there is one.
    pub fn on_disconnected(&mut self, handle: Handle)
        requires
            old(self).wf(),
        ensures
            final(self).wf(),
            final(self)@.clients == old(self)@.clients.remove(handle.addr),
            final(self)@.bans == old(self)@.bans,
    {
        let ghost m0 = self.model@;
        match self.find_client(handle.addr) {
            Some(i) => {
                proof {
                    lemma_table_remove(self.clients@, self.model@.clients, i as int);
                }
                self.clients.remove(i);
            },
            None => {},
        }
        self.model = Ghost(
            ChatModel { clients: self.model@.clients.remove(handle.addr), bans: self.model@.bans },
        );
        assert(self.model@.clients =~= m0.clients.remove(handle.addr));
    }

    /// The handles that a message from `sender` goes to: every tracked
    /// client but the sender, each once.
    pub fn recipients(&self, sender: PeerAddr) -> (to: Vec<Handle>)
        requires
            self.wf(),
        ensures
            is_broadcast(self@.clients, sender, to@),
    {
        let mut to: Vec<Handle> = Vec::new();
        let mut i: usize = 0;
        while i < self.clients.len()
            invariant
                self.wf(),
                i <= self.clients@.len(),
                forall|k: int|
                    0 <= k < to@.len() ==> {
                        &&& #[trigger] to@[k].addr != sender
                        &&& self@.clients.contains_key(to@[k].addr)
                        &&& self@.clients[to@[k].addr].conn == to@[k].id
                    },
                forall|j: int|
                    0 <= j < i && self.clients@[j].0 != sender ==> exists|k: int|
                        0 <= k < to@.len() && #[trigger] to@[k].addr == self.clients@[j].0,
                forall|k: int|
                    #![trigger to@[k]]
                    0 <= k < to@.len() ==> exists|j: int|
                        0 <= j < i && #[trigger] self.clients@[j].0 == to@[k].addr,
                forall|k1: int, k2: int| 0 <= k1 < k2 < to@.len() ==> to@[k1].addr != to@[k2].addr,
            decreases self.clients@.len() - i,
        {
            let (addr, rec) = self.clients[i];
            if addr != sender {
                proof {
                    assert forall|k: int| 0 <= k < to@.len() implies to@[k].addr != addr by {
                        let j = choose|j: int| 0 <= j < i && #[trigger] self.clients@[j].0 == to@[k].addr;
                    }
                }
                let ghost old_to = to@;
                to.push(Handle { id: rec.conn, addr });
                proof {
                    assert forall|j: int|
                        0 <= j < i + 1 && self.clients@[j].0 != sender implies exists|k: int|
                        0 <= k < to@.len() && #[trigger] to@[k].addr == self.clients@[j].0 by {
                        if j == i {
                            assert(to@[old_to.len() as int].addr == self.clients@[j].0);
                        } else {
                            let k = choose|k: int| 0 <= k < old_to.len() && #[trigger] old_to[k].addr == self.clients@[j].0;
                            assert(to@[k].addr == self.clients@[j].0);
                        }
                    }
                    assert forall|k: int| #![trigger to@[k]] 0 <= k < to@.len() implies exists|j: int|
                        0 <= j < i + 1 && #[trigger] self.clients@[j].0 == to@[k].addr by {
                        if k == old_to.len() {
                            assert(self.clients@[i as int].0 == to@[k].addr);
                        } else {
                            assert(old_to[k] == to@[k]);
                        }
                    }
                }
            }
            i = i + 1;
        }
        proof {
            assert forall|a: PeerAddr| #[trigger] self@.clients.contains_key(a) && a != sender implies exists|k: int|
                0 <= k < to@.len() && #[trigger] to@[k].addr == a by {
                let j = choose|j: int| 0 <= j < self.clients@.len() && #[trigger] self.clients@[j].0 == a;
            }
        }
        to
    }


    /// Handles one event at time `now` and returns what the connection side
    /// must do about it. Only `Connected` and `Disconnected` change the tables.
    pub fn handle_event(&mut self, ev: Event, now: u64) -> (act: Action)
        requires
            old(self).wf(),
        ensures
            final(self).wf(),
            final(self)@ == step(old(self)@, ev, now),
            answers(old(self)@, ev, now, act),
    {
        match ev {
            Event::Connected { handle } => {
                if self.on_connected(handle, now) {
                    Action::Admit
                } else {
                    Action::Reject { handle }
                }
            },
            Event::Disconnected { handle } => {
                self.on_disconnected(handle);
                Action::Forget
            },
            Event::MessageReceived { handle, bytes } => {
                let to = self.recipients(handle.addr);
                Action::Deliver { to, bytes }
            },
        }
    }
}

/// No address is stored twice, and every stored record is the model's
/// record for its address.
pub proof fn lemma_one_record_per_address(a: &Authority)
    requires
        a.wf(),
    ensures
        forall|i: int, j: int|
            0 <= i < j < a.records().len() ==> a.records()[i].0 != a.records()[j].0,
        forall|i: int|
            0 <= i < a.records().len() ==> #[trigger] a@.clients[a.records()[i].0]
                == a.records()[i].1,
        a.records().len() == a@.clients.len(),
{
    lemma_table_len(a.clients@, a@.clients);
}

proof fn lemma_table_len<K, V>(entries: Seq<(K, V)>, m: Map<K, V>)
    requires
        table_wf(entries, m),
    ensures
        m.dom().finite(),
        entries.len() == m.len(),
    decreases entries.len(),
{
    if entries.len() == 0 {
        assert(m.dom() =~= Set::<K>::empty());
    } else {
        let last = entries.len() - 1;
        let k = entries[last].0;
        lemma_table_remove(entries, m, last);
        assert(entries.remove(last) =~= entries.drop_last());
        lemma_table_len(entries.drop_last(), m.remove(k));
        assert(m.dom() =~= m.remove(k).dom().insert(k));
    }
}

/// A peer whose IP was banned at `t` is refused by a connection before
/// `t` plus the ban window, with the tables left as they were, and
/// admitted with a fresh record from then on.
pub proof fn lemma_ban_enforcement(m: ChatModel, t: u64, handle: Handle, now: u64)
    ensures
        ({
            let banned = ChatModel { clients: m.clients, bans: m.bans.insert(handle.addr.ip, t) };
            let ev = Event::Connected { handle };
            let after = step(banned, ev, now);
            &&& (now as int) < t + BAN_WINDOW_MS ==> {
                &&& answers(banned, ev, now, Action::Reject { handle })
                &&& after == banned
            }
            &&& (now as int) >= t + BAN_WINDOW_MS ==> {
                &&& answers(banned, ev, now, Action::Admit)
                &&& after.clients.contains_key(handle.addr)
                &&& after.clients[handle.addr] == fresh_record(handle, now)
            }
        }),
{
}

/// A message is never delivered back to its sender's address, and it is
/// delivered unchanged.
pub proof fn lemma_no_self_delivery(m: ChatModel, handle: Handle, bytes: Vec<u8>, now: u64, act: Action)
    requires
        answers(m, Event::MessageReceived { handle, bytes }, now, act),
    ensures
        act matches Action::Deliver { to, bytes: sent } && sent@ == bytes@ && forall|i: int|
            0 <= i < to@.len() ==> #[trigger] to@[i].addr != handle.addr,
{
}

/// Delivery to one recipient failing takes nobody else out of a broadcast:
/// every other tracked client but the sender is still a recipient, and the
/// message leaves the client table as it was.
pub proof fn lemma_broadcast_despite_failure(
    m: ChatModel,
    handle: Handle,
    bytes: Vec<u8>,
    now: u64,
    act: Action,
    failed: PeerAddr,
)
    requires
        answers(m, Event::MessageReceived { handle, bytes }, now, act),
    ensures
        act matches Action::Deliver { to, .. } && forall|a: PeerAddr|
            #![trigger m.clients.contains_key(a)]
            m.clients.contains_key(a) && a != handle.addr && a != failed ==> exists|i: int|
                0 <= i < to@.len() && #[trigger] to@[i].addr == a,
        step(m, Event::MessageReceived { handle, bytes }, now) == m,
{
}

/// `ev` is a connection of a peer at `addr`.
pub open spec fn connects(ev: Event, addr: PeerAddr) -> bool {
    ev matches Event::Connected { handle } && handle.addr == addr
}

/// After a disconnection of `handle`, and as long as no new connection
/// from its address comes, its address has no record and no broadcast
/// goes to it.
pub proof fn lemma_disconnect_cleanup(m: ChatModel, handle: Handle, t: u64, evs: Seq<(Event, u64)>)
    requires
        forall|i: int| 0 <= i < evs.len() ==> !connects(#[trigger] evs[i].0, handle.addr),
    ensures
        ({
            let after = run(step(m, Event::Disconnected { handle }, t), evs);
            &&& !after.clients.contains_key(handle.addr)
            &&& forall|sender: PeerAddr, to: Seq<Handle>|
                is_broadcast(after.clients, sender, to) ==> forall|i: int|
                    0 <= i < to.len() ==> #[trigger] to[i].addr != handle.addr
        }),
{
    lemma_run_keeps_absent(step(m, Event::Disconnected { handle }, t), handle.addr, evs);
}

proof fn lemma_run_keeps_absent(m: ChatModel, addr: PeerAddr, evs: Seq<(Event, u64)>)
    requires
        !m.clients.contains_key(addr),
        forall|i: int| 0 <= i < evs.len() ==> !connects(#[trigger] evs[i].0, addr),
    ensures
        !run(m, evs).clients.contains_key(addr),
    decreases evs.len(),
{
    if evs.len() > 0 {
        assert(!connects(evs[0].0, addr));
        let rest = evs.drop_first();
        assert forall|i: int| 0 <= i < rest.len() implies !connects(#[trigger] rest[i].0, addr) by {
            assert(rest[i] == evs[i + 1]);
        }
        lemma_run_keeps_absent(step(m, evs[0].0, evs[0].1), addr, rest);
    }
}

} // verus!
