//! Event stream for RPM values.
//!
//! It runs on a port of its own, so that browsers can keep a connection open
//! without blocking the web interface. The program around it owns the sockets;
//! clients are known here by the numbers it gives them.

use crate::text::{decimal_text, from_utf8_lossy, push_number, starts_with, utf8_lossy};
use vstd::prelude::*;

verus! {

/// Port for the SSE server (separate from main HTTP server)
pub const SSE_PORT: u16 = 8081;

/// How often dead connections are looked for, in ns.
pub const HEARTBEAT_INTERVAL_NS: u64 = 15_000_000_000;

/// Message types for SSE server
#[derive(Debug, Clone, Copy, PartialEq, Eq, Structural)]
pub enum SseMessage {
    /// RPM update to broadcast
    RpmUpdate(u32),
}

/// The event that carries an RPM value.
pub open spec fn rpm_event_text(rpm: u32) -> Seq<char> {
    "data: {\"rpm\":"@ + decimal_text(rpm as nat) + "}\n\n"@
}

/// The event that carries an RPM value.
pub fn rpm_event(rpm: u32) -> (r: String)
    ensures
        r@ == rpm_event_text(rpm),
{
    let mut out: String = "data: {\"rpm\":".to_owned();
    push_number(&mut out, rpm as u64);
    out.push_str("}\n\n");
    out
}

/// The comment that keeps a connection alive.
pub fn heartbeat() -> (r: &'static str)
    ensures
        r@ == ": heartbeat\n\n"@,
{
    ": heartbeat\n\n"
}

/// What a new client gets: the response headers with CORS, and a first event
/// without a value.
pub open spec fn welcome_text() -> Seq<char> {
    "HTTP/1.1 200 OK\r\nContent-Type: text/event-stream\r\nCache-Control: no-cache\r\nConnection: keep-alive\r\nAccess-Control-Allow-Origin: *\r\n\r\ndata: {\"rpm\":null}\n\n"@
}

/// Answer a new connection by its request; None if it is not a GET request.
pub fn welcome(request: &[u8]) -> (r: Option<&'static str>)
    ensures
        match r {
            Some(text) => "GET "@.is_prefix_of(utf8_lossy(request@)) && text@ == welcome_text(),
            None => !"GET "@.is_prefix_of(utf8_lossy(request@)),
        },
{
    let text: String = from_utf8_lossy(request);
    if starts_with(text.as_str(), "GET ") {
        Some(
            "HTTP/1.1 200 OK\r\nContent-Type: text/event-stream\r\nCache-Control: no-cache\r\nConnection: keep-alive\r\nAccess-Control-Allow-Origin: *\r\n\r\ndata: {\"rpm\":null}\n\n",
        )
    } else {
        None
    }
}

/// Those of the clients that are still there.
pub open spec fn kept(clients: Seq<u64>, alive: Seq<bool>) -> Seq<u64>
    decreases clients.len(),
{
    if clients.len() == 0 {
        Seq::empty()
    } else {
        let before = kept(clients.drop_last(), alive);
        let i = clients.len() - 1;
        if alive[i] {
            before.push(clients.last())
        } else {
            before
        }
    }
}

/// The clients of the event stream.
#[derive(Debug)]
pub struct SseClients {
    pub clients: Vec<u64>,
    pub current_rpm: Option<u32>,
    /// When a heartbeat was last sent (ns)
    pub last_heartbeat_ns: u64,
}

impl SseClients {
    /// No client, and no RPM yet.
    pub fn new(now_ns: u64) -> (r: Self)
        ensures
            r.clients@ == Seq::<u64>::empty(),
            r.current_rpm is None,
            r.last_heartbeat_ns == now_ns,
    {
        SseClients { clients: Vec::new(), current_rpm: None, last_heartbeat_ns: now_ns }
    }

    /// What a new client gets behind the welcome: the current RPM, if any.
    pub fn first_event(&self) -> (r: Option<String>)
        ensures
            match self.current_rpm {
                Some(rpm) => r is Some && r->0@ == rpm_event_text(rpm),
                None => r is None,
            },
    {
        match self.current_rpm {
            Some(rpm) => Some(rpm_event(rpm)),
            None => None,
        }
    }

    /// A client has been welcomed.
    pub fn join(&mut self, client: u64)
        ensures
            final(self).clients@ == old(self).clients@.push(client),
            final(self).current_rpm == old(self).current_rpm,
            final(self).last_heartbeat_ns == old(self).last_heartbeat_ns,
    {
        self.clients.push(client);
    }

    /// Whether to send a heartbeat to all clients.
    pub fn heartbeat_due(&self, now_ns: u64) -> (r: bool)
        ensures
            r == (self.clients@.len() > 0 && now_ns >= self.last_heartbeat_ns
                + HEARTBEAT_INTERVAL_NS),
    {
        self.clients.len() > 0 && now_ns >= self.last_heartbeat_ns && now_ns
            - self.last_heartbeat_ns >= HEARTBEAT_INTERVAL_NS
    }

    /// A heartbeat was sent; `alive` says to which clients it could be sent.
    pub fn heartbeat_sent(&mut self, alive: &[bool], now_ns: u64)
        requires
            alive@.len() == old(self).clients@.len(),
        ensures
            final(self).clients@ == kept(old(self).clients@, alive@),
            final(self).current_rpm == old(self).current_rpm,
            final(self).last_heartbeat_ns == now_ns,
    {
        self.keep(alive);
        self.last_heartbeat_ns = now_ns;
    }

    /// Take in a message; returns what to send to all clients.
    pub fn publish(&mut self, message: SseMessage) -> (r: String)
        ensures
            match message {
                SseMessage::RpmUpdate(rpm) => r@ == rpm_event_text(rpm)
                    && final(self).current_rpm == Some(rpm),
            },
            final(self).clients@ == old(self).clients@,
            final(self).last_heartbeat_ns == old(self).last_heartbeat_ns,
    {
        match message {
            SseMessage::RpmUpdate(rpm) => {
                self.current_rpm = Some(rpm);
                rpm_event(rpm)
            },
        }
    }

    /// Drop the clients that nothing could be sent to.
    pub fn keep(&mut self, alive: &[bool])
        requires
            alive@.len() == old(self).clients@.len(),
        ensures
            final(self).clients@ == kept(old(self).clients@, alive@),
            final(self).current_rpm == old(self).current_rpm,
            final(self).last_heartbeat_ns == old(self).last_heartbeat_ns,
    {
        let mut left: Vec<u64> = Vec::new();
        let ghost all = self.clients@;
        let mut i: usize = 0;
        assert(all.take(0) =~= Seq::empty());
        while i < self.clients.len()
            invariant
                i <= all.len(),
                all == self.clients@,
                alive@.len() == all.len(),
                left@ == kept(all.take(i as int), alive@),
            decreases all.len() - i,
        {
            assert(all.take(i + 1).drop_last() =~= all.take(i as int));
            if alive[i] {
                left.push(self.clients[i]);
            }
            i = i + 1;
        }
        assert(all.take(i as int) =~= all);
        self.clients = left;
    }
}

/// A client to which everything could be sent stays, and one that is gone does
/// not come back.
pub proof fn law_live_clients_stay(clients: Seq<u64>, alive: Seq<bool>, i: int)
    requires
        clients.no_duplicates(),
        alive.len() == clients.len(),
        0 <= i < clients.len(),
    ensures
        kept(clients, alive).contains(clients[i]) == alive[i],
    decreases clients.len(),
{
    let front = clients.drop_last();
    let before = kept(front, alive.drop_last());
    lemma_kept_alike(front, alive, alive.drop_last());
    let all = kept(clients, alive);
    lemma_kept_within(front, alive);
    if i < front.len() {
        law_live_clients_stay(front, alive.drop_last(), i);
        assert(front[i] == clients[i]);
        assert(alive.drop_last()[i] == alive[i]);
        if alive[i] {
            let k = before.index_of(clients[i]);
            assert(all[k] == clients[i]);
        } else if all.contains(clients[i]) {
            let k = all.index_of(clients[i]);
            if k < before.len() {
                assert(before[k] == clients[i]);
            } else {
                assert(clients[i] == clients[clients.len() - 1]);
            }
        }
    } else {
        if alive[i] {
            assert(all[before.len() as int] == clients[i]);
        } else if all.contains(clients[i]) {
            let k = all.index_of(clients[i]);
            assert(front.contains(before[k]));
            let j = front.index_of(before[k]);
            assert(clients[j] == clients[i]);
        }
    }
}

proof fn lemma_kept_alike(clients: Seq<u64>, a: Seq<bool>, b: Seq<bool>)
    requires
        forall|i: int| 0 <= i < clients.len() ==> a[i] == b[i],
    ensures
        kept(clients, a) == kept(clients, b),
    decreases clients.len(),
{
    if clients.len() > 0 {
        lemma_kept_alike(clients.drop_last(), a, b);
    }
}

proof fn lemma_kept_within(clients: Seq<u64>, alive: Seq<bool>)
    ensures
        forall|k: int|
            0 <= k < kept(clients, alive).len() ==> clients.contains(
                #[trigger] kept(clients, alive)[k],
            ),
    decreases clients.len(),
{
    if clients.len() > 0 {
        let front = clients.drop_last();
        lemma_kept_within(front, alive);
        let before = kept(front, alive);
        assert forall|k: int| 0 <= k < kept(clients, alive).len() implies clients.contains(
            #[trigger] kept(clients, alive)[k],
        ) by {
            if k < before.len() {
                assert(front.contains(before[k]));
                let j = front.index_of(before[k]);
                assert(clients[j] == before[k]);
            } else {
                assert(clients[clients.len() - 1] == kept(clients, alive)[k]);
            }
        }
    }
}

/// An event is one line of data with the RPM in it, and an empty line behind it.
pub proof fn law_events_carry_the_rpm(rpm: u32)
    ensures
        rpm_event_text(rpm) =~= seq!['d', 'a', 't', 'a', ':', ' ', '{', '"', 'r', 'p', 'm', '"', ':']
            + decimal_text(rpm as nat) + seq!['}', '\n', '\n'],
{
    reveal_strlit("data: {\"rpm\":");
    reveal_strlit("}\n\n");
}

/// The clients that stay keep their order.
pub proof fn law_live_clients_keep_their_order(
    clients: Seq<u64>,
    alive: Seq<bool>,
    client: u64,
    lives: bool,
)
    requires
        alive.len() == clients.len(),
    ensures
        kept(clients.push(client), alive.push(lives)) =~= if lives {
            kept(clients, alive).push(client)
        } else {
            kept(clients, alive)
        },
{
    assert(clients.push(client).drop_last() =~= clients);
    lemma_kept_alike(clients, alive.push(lives), alive);
}

} // verus!
