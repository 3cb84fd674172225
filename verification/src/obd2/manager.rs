//! The cache manager: it hands the dongle's responses to the clients' caches and
//! decides which PIDs are polled, and how often.

use crate::leds::NANOS_PER_MS;
use crate::obd2::buffers::{CachedResponse, Pid};
use crate::obd2::cache::{
    fresh_data, handle_consumed_pid, handle_waiting_pid, info_when_waiting, initial_pid_infos,
    maintenance_done, others_unchanged, promoted_when_consumed, rpm_from_response, rpm_of_data,
    run_maintenance, stored, tracked_info, CacheEntry, CacheMetrics, ClientCache, ClientId, ClientIds, Maintenance,
    PidInfo, PidInfos, PriorityChange, Waker, MAINTENANCE_INTERVAL_MS,
};
use crate::obd2::polling::{DongleMessage, PidPriority, SlowPollMode, RPM_PID};
use std::collections::HashMap;
use vstd::prelude::*;

verus! {

broadcast use vstd::std_specs::hash::group_hash_axioms;

// ---------------------------------------------------------------------------
// The clients' caches
// ---------------------------------------------------------------------------

/// The caches of all connected clients.
pub struct ClientCaches {
    pub clients: Vec<(ClientId, ClientCache)>,
}

/// The identifiers of clients.
pub open spec fn ids_of(clients: Seq<(ClientId, ClientCache)>) -> Seq<ClientId> {
    clients.map_values(|client: (ClientId, ClientCache)| client.0)
}

/// The wakers of the clients that wait for a PID.
pub open spec fn wakers_of(clients: Seq<(ClientId, ClientCache)>, pid: Pid) -> Seq<Waker>
    decreases clients.len(),
{
    if clients.len() == 0 {
        Seq::empty()
    } else {
        let front = wakers_of(clients.drop_last(), pid);
        match clients.last().1.entry(pid) {
            CacheEntry::Waiting(waker) => front.push(waker),
            _ => front,
        }
    }
}

/// Every client has the value of a PID, and nothing else changed.
pub open spec fn all_stored(
    before: Seq<(ClientId, ClientCache)>,
    after: Seq<(ClientId, ClientCache)>,
    pid: Pid,
    data: Seq<Seq<u8>>,
) -> bool {
    &&& ids_of(after) == ids_of(before)
    &&& forall|i: int|
        0 <= i < before.len() ==> stored((#[trigger] before[i]).1, after[i].1, pid, data)
}

impl ClientCaches {
    /// No two clients have the same identifier.
    pub open spec fn well_formed(&self) -> bool {
        ids_of(self.clients@).no_duplicates()
    }

    /// No clients yet.
    pub fn new() -> (r: Self)
        ensures
            r.well_formed(),
            r.clients@ == Seq::<(ClientId, ClientCache)>::empty(),
    {
        let r = ClientCaches { clients: Vec::new() };
        assert(ids_of(r.clients@) =~= Seq::empty());
        r
    }

    /// Add a client, with an empty cache.
    pub fn register(&mut self, id: ClientId)
        requires
            old(self).well_formed(),
            !ids_of(old(self).clients@).contains(id),
        ensures
            final(self).well_formed(),
            final(self).clients@.len() == old(self).clients@.len() + 1,
            final(self).clients@.drop_last() == old(self).clients@,
            final(self).clients@.last().0 == id,
            forall|pid: Pid| #[trigger] final(self).clients@.last().1.entry(pid) is Empty,
    {
        let ghost before = self.clients@;
        self.clients.push((id, ClientCache::new()));
        proof {
            assert(self.clients@.drop_last() =~= before);
            assert(ids_of(self.clients@) =~= ids_of(before).push(id));
            let ids = ids_of(before);
            assert forall|i: int, j: int|
                0 <= i < ids.len() + 1 && 0 <= j < ids.len() + 1 && i != j implies ids.push(id)[i]
                != ids.push(id)[j] by {
                if i == ids.len() {
                    assert(ids.contains(ids[j]));
                }
                if j == ids.len() {
                    assert(ids.contains(ids[i]));
                }
            }
        }
    }

    /// Remove a client, if it is there.
    pub fn unregister(&mut self, id: ClientId)
        requires
            old(self).well_formed(),
        ensures
            final(self).well_formed(),
            !ids_of(final(self).clients@).contains(id),
            if ids_of(old(self).clients@).contains(id) {
                final(self).clients@ == old(self).clients@.remove(
                    ids_of(old(self).clients@).index_of(id),
                )
            } else {
                final(self).clients@ == old(self).clients@
            },
    {
        let ghost ids = ids_of(self.clients@);
        let mut i: usize = 0;
        while i < self.clients.len()
            invariant
                i <= self.clients@.len(),
                self.clients@ == old(self).clients@,
                ids == ids_of(self.clients@),
                ids.no_duplicates(),
                forall|k: int| 0 <= k < i ==> ids[k] != id,
            decreases self.clients@.len() - i,
        {
            if self.clients[i].0 == id {
                assert(ids[i as int] == id);
                assert(ids.index_of(id) == i);
                let _ = self.clients.remove(i);
                proof {
                    let left = ids_of(self.clients@);
                    assert(left =~= ids.remove(i as int));
                    assert forall|k: int| 0 <= k < left.len() implies left[k] != id by {
                        if k < i {
                            assert(left[k] == ids[k]);
                        } else {
                            assert(left[k] == ids[k + 1]);
                        }
                    }
                    assert forall|a: int, b: int|
                        0 <= a < left.len() && 0 <= b < left.len() && a != b implies left[a]
                        != left[b] by {
                        let x = if a < i {
                            a
                        } else {
                            a + 1
                        };
                        let y = if b < i {
                            b
                        } else {
                            b + 1
                        };
                        assert(left[a] == ids[x] && left[b] == ids[y]);
                    }
                }
                return;
            }
            assert(ids[i as int] == self.clients@[i as int].0);
            i = i + 1;
        }
        assert(!ids.contains(id));
    }

    /// Push fresh data to all client caches. Returns the wakers of the clients that
    /// were waiting for it.
    pub fn update_client_caches(&mut self, pid: Pid, data: &CachedResponse) -> (r: Vec<Waker>)
        ensures
            all_stored(old(self).clients@, final(self).clients@, pid, data@),
            r@ == wakers_of(old(self).clients@, pid),
    {
        let ghost before = self.clients@;
        let total: usize = self.clients.len();
        let mut wakers: Vec<Waker> = Vec::new();
        let mut i: usize = 0;
        assert(before.take(0) =~= Seq::empty());
        while i < total
            invariant
                i <= total,
                total == before.len(),
                before == old(self).clients@,
                self.clients@.len() == before.len(),
                forall|k: int| 0 <= k < total ==> (#[trigger] self.clients@[k]).0 == before[k].0,
                forall|k: int|
                    0 <= k < i ==> stored((#[trigger] before[k]).1, self.clients@[k].1, pid, data@),
                forall|k: int| i <= k < total ==> #[trigger] self.clients@[k] == before[k],
                wakers@ == wakers_of(before.take(i as int), pid),
            decreases total - i,
        {
            let ghost step = self.clients@;
            assert(step[i as int] == before[i as int]);
            let woken = self.clients[i].1.store(pid, data);
            proof {
                assert(before.take(i + 1).drop_last() =~= before.take(i as int));
                assert forall|k: int| 0 <= k < i implies stored(
                    (#[trigger] before[k]).1,
                    self.clients@[k].1,
                    pid,
                    data@,
                ) by {
                    assert(self.clients@[k] == step[k]);
                }
            }
            if let Some(waker) = woken {
                wakers.push(waker);
            }
            i = i + 1;
        }
        assert(before.take(i as int) =~= before);
        assert(ids_of(self.clients@) =~= ids_of(before));
        wakers
    }
}

// ---------------------------------------------------------------------------
// Messages
// ---------------------------------------------------------------------------

/// Messages for the cache manager.
pub enum CacheManagerMessage {
    /// The dongle answered.
    DongleResponse { responses: HashMap<Pid, CachedResponse> },
    /// A client waits for a PID.
    Waiting(Pid),
    /// A client took a value, after it waited for this long (ns), if at all.
    Consumed { pid: Pid, wait_ns: Option<u64> },
    /// A client connected.
    RegisterClient,
    /// A client disconnected.
    UnregisterClient(ClientId),
}

/// What the configuration says about priorities.
#[derive(Debug, Clone, Copy)]
pub struct PrioritySettings {
    pub slow_poll_mode: SlowPollMode,
    pub promotion_wait_threshold_ms: u64,
    pub fast_demotion_ms: u64,
    pub pid_inactive_removal_ms: u64,
}

/// What a message leads to.
pub struct Handled {
    /// Clients to wake
    pub wakers: Vec<Waker>,
    /// An RPM to pass on
    pub rpm: Option<u32>,
    /// The identifier of a new client
    pub registered: Option<ClientId>,
    /// What becomes of the PID's priority
    pub change: PriorityChange,
    /// What to tell the dongle task
    pub message: Option<DongleMessage>,
}

/// The cache manager's state.
pub struct CacheManager {
    pub caches: ClientCaches,
    pub pid_info: PidInfos,
    pub metrics: CacheMetrics,
    pub ids: ClientIds,
    /// When maintenance last ran (monotonic clock, ns)
    pub last_maintenance_ns: u64,
}

/// The wakers of the clients that wait for one of the PIDs below a bound that a
/// response holds.
pub open spec fn woken(
    clients: Seq<(ClientId, ClientCache)>,
    responses: Map<Pid, CachedResponse>,
    bound: nat,
) -> Seq<Waker>
    decreases bound,
{
    if bound == 0 {
        Seq::empty()
    } else {
        let pid = (bound - 1) as u8;
        let front = woken(clients, responses, (bound - 1) as nat);
        if responses.contains_key(pid) {
            front + wakers_of(clients, pid)
        } else {
            front
        }
    }
}

/// Every client has the values of a response for the PIDs below a bound, and all
/// else is as before.
pub open spec fn delivered(
    before: Seq<(ClientId, ClientCache)>,
    after: Seq<(ClientId, ClientCache)>,
    responses: Map<Pid, CachedResponse>,
    bound: int,
) -> bool {
    &&& ids_of(after) == ids_of(before)
    &&& forall|i: int, pid: Pid|
        0 <= i < before.len() ==> if pid < bound && responses.contains_key(pid) {
            fresh_data(#[trigger] after[i].1.entry(pid)) == Some(responses[pid]@)
        } else {
            after[i].1.entry(pid) == before[i].1.entry(pid)
        }
}

proof fn lemma_same_wakers(
    before: Seq<(ClientId, ClientCache)>,
    after: Seq<(ClientId, ClientCache)>,
    pid: Pid,
)
    requires
        before.len() == after.len(),
        forall|i: int|
            0 <= i < before.len() ==> (#[trigger] after[i]).1.entry(pid) == before[i].1.entry(pid),
    ensures
        wakers_of(after, pid) == wakers_of(before, pid),
    decreases before.len(),
{
    if before.len() > 0 {
        lemma_same_wakers(before.drop_last(), after.drop_last(), pid);
        assert(after[after.len() - 1].1.entry(pid) == before[before.len() - 1].1.entry(pid));
    }
}

fn deliver(caches: &mut ClientCaches, responses: &HashMap<Pid, CachedResponse>) -> (r: Vec<Waker>)
    requires
        old(caches).well_formed(),
    ensures
        final(caches).well_formed(),
        delivered(old(caches).clients@, final(caches).clients@, responses@, 256),
        r@ == woken(old(caches).clients@, responses@, 256),
{
    let ghost before = caches.clients@;
    let mut wakers: Vec<Waker> = Vec::new();
    let mut next: u16 = 0;
    while next < 256
        invariant
            next <= 256,
            before == old(caches).clients@,
            delivered(before, caches.clients@, responses@, next as int),
            wakers@ == woken(before, responses@, next as nat),
        decreases 256 - next,
    {
        let pid: Pid = next as u8;
        let ghost step = caches.clients@;
        assert(ids_of(step).len() == ids_of(before).len());
        match responses.get(&pid) {
            None => {},
            Some(data) => {
                proof {
                    assert forall|i: int| 0 <= i < before.len() implies (
                    #[trigger] step[i]).1.entry(pid) == before[i].1.entry(pid) by {}
                    lemma_same_wakers(before, step, pid);
                }
                let mut more: Vec<Waker> = caches.update_client_caches(pid, data);
                let ghost front = wakers@;
                let ghost added = more@;
                wakers.append(&mut more);
                assert(wakers@ =~= front + added);
                proof {
                    let now = caches.clients@;
                    assert(ids_of(now).len() == now.len());
                    assert forall|i: int, p: Pid| 0 <= i < before.len() implies if p < next + 1
                        && responses@.contains_key(p) {
                        fresh_data(#[trigger] now[i].1.entry(p)) == Some(responses@[p]@)
                    } else {
                        now[i].1.entry(p) == before[i].1.entry(p)
                    } by {
                        assert(stored(step[i].1, now[i].1, pid, data@));
                        if p != pid {
                            assert(now[i].1.entry(p) == step[i].1.entry(p));
                        }
                    }
                }
            },
        }
        next = next + 1;
    }
    wakers
}

/// The identifiers handed out so far are below the next one.
pub open spec fn ids_below(clients: Seq<(ClientId, ClientCache)>, bound: ClientId) -> bool {
    forall|i: int| 0 <= i < clients.len() ==> (#[trigger] clients[i]).0 < bound
}

/// Nothing but the PIDs' infos and the metrics changed.
pub open spec fn same_clients(before: CacheManager, after: CacheManager) -> bool {
    &&& after.caches == before.caches
    &&& after.ids == before.ids
    &&& after.last_maintenance_ns == before.last_maintenance_ns
}

impl CacheManager {
    /// Each client has an identifier of its own, below the next one, and the waits
    /// add up.
    pub open spec fn well_formed(&self) -> bool {
        &&& self.caches.well_formed()
        &&& ids_below(self.caches.clients@, self.ids.upcoming())
        &&& self.metrics.well_formed()
    }

    /// The counters have room for a message.
    pub open spec fn room_for(&self, message: CacheManagerMessage) -> bool {
        match message {
            CacheManagerMessage::Consumed { pid, wait_ns } => {
                &&& wait_ns is None ==> self.metrics.hits < u32::MAX
                &&& wait_ns is Some ==> self.metrics.misses < u32::MAX
                &&& tracked_info(self.pid_info@, pid) matches Some(info) ==> info.request_count
                    < u32::MAX
            },
            CacheManagerMessage::RegisterClient => self.ids.upcoming() < u32::MAX,
            _ => true,
        }
    }

    /// The manager at the start: no clients, and only RPM is tracked.
    pub fn new(now_ns: u64) -> (r: Self)
        ensures
            r.well_formed(),
            r.caches.clients@.len() == 0,
            r.pid_info@ == Map::<Pid, PidInfo>::empty().insert(
                RPM_PID,
                (PidInfo {
                    last_waiter_ns: None,
                    last_consumed_ns: Some(now_ns),
                    priority: PidPriority::Fast,
                    request_count: 0,
                }),
            ),
            r.metrics.is_zero(),
            r.ids.upcoming() == 1,
            r.last_maintenance_ns == now_ns,
    {
        CacheManager {
            caches: ClientCaches::new(),
            pid_info: initial_pid_infos(now_ns),
            metrics: CacheMetrics::default(),
            ids: ClientIds::new(),
            last_maintenance_ns: now_ns,
        }
    }

    /// Whether the counters have room for a message.
    pub fn has_room(&self, message: &CacheManagerMessage) -> (r: bool)
        ensures
            r == self.room_for(*message),
    {
        match message {
            CacheManagerMessage::Consumed { pid, wait_ns } => {
                let counted = match self.pid_info.get(pid) {
                    Some(info) => info.request_count < u32::MAX,
                    None => true,
                };
                let metered: bool = match wait_ns {
                    Some(_) => self.metrics.misses < u32::MAX,
                    None => self.metrics.hits < u32::MAX,
                };
                metered && counted
            },
            CacheManagerMessage::RegisterClient => self.ids.has_next(),
            _ => true,
        }
    }

    /// Handle a message.
    pub fn handle(
        &mut self,
        message: CacheManagerMessage,
        settings: &PrioritySettings,
        now_ns: u64,
    ) -> (r: Handled)
        requires
            old(self).well_formed(),
            old(self).room_for(message),
        ensures
            final(self).well_formed(),
            final(self).last_maintenance_ns == old(self).last_maintenance_ns,
            match message {
                CacheManagerMessage::DongleResponse { responses } => {
                    &&& delivered(
                        old(self).caches.clients@,
                        final(self).caches.clients@,
                        responses@,
                        256,
                    )
                    &&& final(self).ids == old(self).ids
                    &&& final(self).pid_info == old(self).pid_info
                    &&& final(self).metrics == old(self).metrics
                    &&& r.wakers@ == woken(old(self).caches.clients@, responses@, 256)
                    &&& match r.rpm {
                        Some(rpm) => responses@.contains_key(RPM_PID) && rpm_of_data(
                            responses@[RPM_PID]@,
                        ) == Some(rpm as nat),
                        None => !responses@.contains_key(RPM_PID) || rpm_of_data(
                            responses@[RPM_PID]@,
                        ) is None,
                    }
                },
                CacheManagerMessage::Waiting(pid) => {
                    &&& same_clients(*old(self), *final(self))
                    &&& final(self).metrics == old(self).metrics
                    &&& others_unchanged(old(self).pid_info@, final(self).pid_info@, pid)
                    &&& tracked_info(final(self).pid_info@, pid) == Some(
                        info_when_waiting(
                            tracked_info(old(self).pid_info@, pid),
                            settings.slow_poll_mode,
                            now_ns,
                        ),
                    )
                    &&& r.change == match tracked_info(old(self).pid_info@, pid) {
                        None => PriorityChange::Added,
                        Some(info) => if info.priority == PidPriority::Slow
                            && settings.slow_poll_mode == SlowPollMode::Interval {
                            PriorityChange::Promoted
                        } else {
                            PriorityChange::Unchanged
                        },
                    }
                    &&& r.rpm is None
                    &&& r.wakers@.len() == 0
                },
                CacheManagerMessage::Consumed { pid, wait_ns } => {
                    &&& same_clients(*old(self), *final(self))
                    &&& others_unchanged(old(self).pid_info@, final(self).pid_info@, pid)
                    &&& match tracked_info(old(self).pid_info@, pid) {
                        None => {
                            &&& tracked_info(final(self).pid_info@, pid) is None
                            &&& r.change == PriorityChange::Unchanged
                        },
                        Some(info) => {
                            let promoted = promoted_when_consumed(
                                info,
                                wait_ns,
                                settings.slow_poll_mode,
                                settings.promotion_wait_threshold_ms,
                            );
                            &&& tracked_info(final(self).pid_info@, pid) == Some(
                                PidInfo {
                                    last_consumed_ns: Some(now_ns),
                                    request_count: (info.request_count + 1) as u32,
                                    priority: if promoted {
                                        PidPriority::Fast
                                    } else {
                                        info.priority
                                    },
                                    ..info
                                },
                            )
                            &&& r.change == if promoted {
                                PriorityChange::Promoted
                            } else {
                                PriorityChange::Unchanged
                            }
                        },
                    }
                    &&& final(self).metrics.hits == old(self).metrics.hits + if wait_ns is None {
                        1int
                    } else {
                        0
                    }
                    &&& final(self).metrics.misses == old(self).metrics.misses
                        + if wait_ns is Some {
                        1int
                    } else {
                        0
                    }
                    &&& final(self).metrics.total_wait_ns == old(self).metrics.total_wait_ns
                        + match wait_ns {
                        Some(wait) => wait as int,
                        None => 0,
                    }
                    &&& r.rpm is None
                    &&& r.wakers@.len() == 0
                },
                CacheManagerMessage::RegisterClient => {
                    &&& r.registered == Some(old(self).ids.upcoming())
                    &&& final(self).ids.upcoming() == old(self).ids.upcoming() + 1
                    &&& final(self).caches.clients@.drop_last() == old(self).caches.clients@
                    &&& final(self).caches.clients@.len() == old(self).caches.clients@.len() + 1
                    &&& final(self).caches.clients@.last().0 == old(self).ids.upcoming()
                    &&& forall|pid: Pid| #[trigger]
                        final(self).caches.clients@.last().1.entry(pid) is Empty
                    &&& final(self).pid_info == old(self).pid_info
                    &&& final(self).metrics == old(self).metrics
                    &&& r.rpm is None
                    &&& r.wakers@.len() == 0
                },
                CacheManagerMessage::UnregisterClient(id) => {
                    &&& final(self).caches.clients@ == if ids_of(
                        old(self).caches.clients@,
                    ).contains(id) {
                        old(self).caches.clients@.remove(
                            ids_of(old(self).caches.clients@).index_of(id),
                        )
                    } else {
                        old(self).caches.clients@
                    }
                    &&& final(self).ids == old(self).ids
                    &&& final(self).pid_info == old(self).pid_info
                    &&& final(self).metrics == old(self).metrics
                    &&& r.rpm is None
                    &&& r.wakers@.len() == 0
                },
            },
            !(message is Waiting) && !(message is Consumed) ==> r.change
                == PriorityChange::Unchanged,
            !(message is RegisterClient) ==> r.registered is None,
            r.message == match message {
                CacheManagerMessage::Waiting(pid) if r.change != PriorityChange::Unchanged => Some(
                    DongleMessage::SetPidPriority(pid, PidPriority::Fast),
                ),
                CacheManagerMessage::Consumed { pid, wait_ns: _ } if r.change
                    != PriorityChange::Unchanged => Some(
                    DongleMessage::SetPidPriority(pid, PidPriority::Fast),
                ),
                _ => None,
            },
    {
        let mut handled = Handled {
            wakers: Vec::new(),
            rpm: None,
            registered: None,
            change: PriorityChange::Unchanged,
            message: None,
        };
        match message {
            CacheManagerMessage::DongleResponse { responses } => {
                let ghost before = self.caches.clients@;
                handled.wakers = deliver(&mut self.caches, &responses);
                proof {
                    let now = self.caches.clients@;
                    assert(ids_of(now).len() == ids_of(before).len());
                    assert forall|i: int| 0 <= i < now.len() implies (#[trigger] now[i]).0
                        < self.ids.upcoming() by {
                        assert(ids_of(now)[i] == ids_of(before)[i]);
                        assert(before[i].0 < self.ids.upcoming());
                    }
                }
                if let Some(data) = responses.get(&RPM_PID) {
                    handled.rpm = rpm_from_response(data);
                }
            },
            CacheManagerMessage::Waiting(pid) => {
                handled.change = handle_waiting_pid(
                    pid,
                    &mut self.pid_info,
                    settings.slow_poll_mode,
                    now_ns,
                );
                handled.message = handled.change.message(pid);
            },
            CacheManagerMessage::Consumed { pid, wait_ns } => {
                handled.change = handle_consumed_pid(
                    pid,
                    wait_ns,
                    &mut self.pid_info,
                    settings.slow_poll_mode,
                    settings.promotion_wait_threshold_ms,
                    now_ns,
                    &mut self.metrics,
                );
                handled.message = handled.change.message(pid);
            },
            CacheManagerMessage::RegisterClient => {
                proof {
                    let clients = self.caches.clients@;
                    let upcoming = self.ids.upcoming();
                    assert forall|i: int| 0 <= i < clients.len() implies ids_of(clients)[i]
                        != upcoming by {
                        assert(clients[i].0 < upcoming);
                    }
                }
                let ghost before = self.caches.clients@;
                let id: ClientId = self.ids.register();
                self.caches.register(id);
                proof {
                    let now = self.caches.clients@;
                    assert forall|i: int| 0 <= i < now.len() implies (#[trigger] now[i]).0
                        < self.ids.upcoming() by {
                        if i < before.len() {
                            assert(now.drop_last()[i] == before[i]);
                        }
                    }
                }
                handled.registered = Some(id);
            },
            CacheManagerMessage::UnregisterClient(id) => {
                let ghost before = self.caches.clients@;
                self.caches.unregister(id);
                proof {
                    let now = self.caches.clients@;
                    assert forall|i: int| 0 <= i < now.len() implies (#[trigger] now[i]).0
                        < self.ids.upcoming() by {
                        if now.len() < before.len() {
                            let gone = ids_of(before).index_of(id);
                            if i < gone {
                                assert(now[i] == before[i]);
                            } else {
                                assert(now[i] == before[i + 1]);
                            }
                        }
                    }
                }
            },
        }
        handled
    }

    /// Run maintenance, if it is due: it is, once the interval has passed since the
    /// last time.
    pub fn maintain(&mut self, settings: &PrioritySettings, now_ns: u64) -> (r: Option<Maintenance>)
        requires
            old(self).well_formed(),
        ensures
            final(self).well_formed(),
            final(self).caches == old(self).caches,
            final(self).ids == old(self).ids,
            ({
                let since = if now_ns >= old(self).last_maintenance_ns {
                    now_ns - old(self).last_maintenance_ns
                } else {
                    0
                };
                if since < MAINTENANCE_INTERVAL_MS * NANOS_PER_MS {
                    r is None && *final(self) == *old(self)
                } else {
                    &&& r is Some
                    &&& final(self).last_maintenance_ns == now_ns
                    &&& final(self).metrics.is_zero()
                    &&& r->0.metrics == old(self).metrics
                    &&& maintenance_done(
                        old(self).pid_info@,
                        final(self).pid_info@,
                        r->0,
                        now_ns,
                        settings.fast_demotion_ms,
                        settings.pid_inactive_removal_ms,
                    )
                }
            }),
    {
        let since: u64 = now_ns.saturating_sub(self.last_maintenance_ns);
        if (since as u128) < MAINTENANCE_INTERVAL_MS as u128 * NANOS_PER_MS {
            return None;
        }
        let done = run_maintenance(
            &mut self.pid_info,
            settings.fast_demotion_ms,
            settings.pid_inactive_removal_ms,
            now_ns,
            &mut self.metrics,
        );
        self.last_maintenance_ns = now_ns;
        Some(done)
    }
}

/// A response reaches every client: whoever asks for one of its PIDs next gets its
/// data, whatever else is in the response.
pub proof fn law_response_reaches_every_client(
    before: Seq<(ClientId, ClientCache)>,
    after: Seq<(ClientId, ClientCache)>,
    responses: Map<Pid, CachedResponse>,
    i: int,
    pid: Pid,
)
    requires
        delivered(before, after, responses, 256),
        0 <= i < before.len(),
        responses.contains_key(pid),
    ensures
        fresh_data(after[i].1.entry(pid)) == Some(responses[pid]@),
        after[i].0 == before[i].0,
{
    assert(ids_of(after)[i] == ids_of(before)[i]);
    assert(ids_of(after).len() == ids_of(before).len());
}

/// Nobody is left waiting for a PID that a response holds: each client that waits
/// for it is among those to wake.
pub proof fn law_waiting_clients_are_woken(
    clients: Seq<(ClientId, ClientCache)>,
    responses: Map<Pid, CachedResponse>,
    i: int,
    pid: Pid,
)
    requires
        0 <= i < clients.len(),
        clients[i].1.entry(pid) is Waiting,
        responses.contains_key(pid),
    ensures
        woken(clients, responses, 256).contains(clients[i].1.entry(pid)->Waiting_0),
{
    let waker = clients[i].1.entry(pid)->Waiting_0;
    lemma_waker_listed(clients, i, pid);
    assert(woken(clients, responses, pid as nat + 1).contains(waker)) by {
        let front = woken(clients, responses, pid as nat);
        let own = wakers_of(clients, pid);
        let k = choose|k: int| 0 <= k < own.len() && own[k] == waker;
        assert((front + own)[front.len() + k] == waker);
    }
    lemma_woken_grows(clients, responses, pid as nat + 1, 256, waker);
}

proof fn lemma_waker_listed(clients: Seq<(ClientId, ClientCache)>, i: int, pid: Pid)
    requires
        0 <= i < clients.len(),
        clients[i].1.entry(pid) is Waiting,
    ensures
        wakers_of(clients, pid).contains(clients[i].1.entry(pid)->Waiting_0),
    decreases clients.len(),
{
    let front = wakers_of(clients.drop_last(), pid);
    let all = wakers_of(clients, pid);
    if i == clients.len() - 1 {
        assert(all[front.len() as int] == clients[i].1.entry(pid)->Waiting_0);
    } else {
        lemma_waker_listed(clients.drop_last(), i, pid);
        let waker = clients[i].1.entry(pid)->Waiting_0;
        let k = choose|k: int| 0 <= k < front.len() && front[k] == waker;
        assert(all[k] == waker);
    }
}

proof fn lemma_woken_grows(
    clients: Seq<(ClientId, ClientCache)>,
    responses: Map<Pid, CachedResponse>,
    from: nat,
    to: nat,
    waker: Waker,
)
    requires
        from <= to,
        woken(clients, responses, from).contains(waker),
    ensures
        woken(clients, responses, to).contains(waker),
    decreases to,
{
    if from < to {
        lemma_woken_grows(clients, responses, from, (to - 1) as nat, waker);
        let front = woken(clients, responses, (to - 1) as nat);
        let all = woken(clients, responses, to);
        let k = choose|k: int| 0 <= k < front.len() && front[k] == waker;
        assert(all[k] == waker);
    }
}

/// A response changes nothing but what it holds: what a client has of another
/// PID, or waits for, stays.
pub proof fn law_response_leaves_other_pids(
    before: Seq<(ClientId, ClientCache)>,
    after: Seq<(ClientId, ClientCache)>,
    responses: Map<Pid, CachedResponse>,
    i: int,
    pid: Pid,
)
    requires
        delivered(before, after, responses, 256),
        0 <= i < before.len(),
        !responses.contains_key(pid),
    ensures
        after.len() == before.len(),
        after[i].1.entry(pid) == before[i].1.entry(pid),
{
    assert(ids_of(after).len() == ids_of(before).len());
}

/// Nobody is woken in vain: each waker belongs to a client that waits for a PID
/// that the response holds.
pub proof fn law_only_waiting_clients_are_woken(
    clients: Seq<(ClientId, ClientCache)>,
    responses: Map<Pid, CachedResponse>,
    waker: Waker,
)
    requires
        woken(clients, responses, 256).contains(waker),
    ensures
        exists|i: int, pid: Pid|
            0 <= i < clients.len() && responses.contains_key(pid) && #[trigger] clients[i].1.entry(
                pid,
            ) == CacheEntry::Waiting(waker),
{
    lemma_woken_waits(clients, responses, 256, waker);
}

proof fn lemma_woken_waits(
    clients: Seq<(ClientId, ClientCache)>,
    responses: Map<Pid, CachedResponse>,
    bound: nat,
    waker: Waker,
)
    requires
        bound <= 256,
        woken(clients, responses, bound).contains(waker),
    ensures
        exists|i: int, pid: Pid|
            0 <= i < clients.len() && responses.contains_key(pid) && #[trigger] clients[i].1.entry(
                pid,
            ) == CacheEntry::Waiting(waker),
    decreases bound,
{
    if bound > 0 {
        let pid = (bound - 1) as u8;
        let front = woken(clients, responses, (bound - 1) as nat);
        if front.contains(waker) {
            lemma_woken_waits(clients, responses, (bound - 1) as nat, waker);
        } else {
            let all = woken(clients, responses, bound);
            let k = choose|k: int| 0 <= k < all.len() && all[k] == waker;
            assert(responses.contains_key(pid)) by {
                if !responses.contains_key(pid) {
                    assert(front[k] == waker);
                }
            }
            let own = wakers_of(clients, pid);
            assert(k >= front.len()) by {
                if k < front.len() {
                    assert(front[k] == waker);
                }
            }
            assert(own[k - front.len()] == waker);
            lemma_waker_waits(clients, pid, waker);
        }
    }
}

proof fn lemma_waker_waits(clients: Seq<(ClientId, ClientCache)>, pid: Pid, waker: Waker)
    requires
        wakers_of(clients, pid).contains(waker),
    ensures
        exists|i: int|
            0 <= i < clients.len() && #[trigger] clients[i].1.entry(pid) == CacheEntry::Waiting(
                waker,
            ),
    decreases clients.len(),
{
    if clients.len() > 0 {
        let front = wakers_of(clients.drop_last(), pid);
        let all = wakers_of(clients, pid);
        let k = choose|k: int| 0 <= k < all.len() && all[k] == waker;
        if k < front.len() {
            assert(front[k] == waker);
            lemma_waker_waits(clients.drop_last(), pid, waker);
            let i = choose|i: int|
                0 <= i < clients.len() - 1 && #[trigger] clients.drop_last()[i].1.entry(pid)
                    == CacheEntry::Waiting(waker);
            assert(clients[i].1.entry(pid) == CacheEntry::Waiting(waker));
        } else {
            assert(clients[clients.len() - 1].1.entry(pid) == CacheEntry::Waiting(waker));
        }
    }
}

/// Each client that waits adds its waker, behind those of the clients in front
/// of it; one that does not wait adds none.
pub proof fn law_wakers_come_in_order(
    clients: Seq<(ClientId, ClientCache)>,
    client: (ClientId, ClientCache),
    pid: Pid,
)
    ensures
        wakers_of(clients.push(client), pid) =~= match client.1.entry(pid) {
            CacheEntry::Waiting(waker) => wakers_of(clients, pid).push(waker),
            CacheEntry::Fresh(_) => wakers_of(clients, pid),
            CacheEntry::Empty => wakers_of(clients, pid),
        },
        wakers_of(clients, pid).len() <= clients.len(),
    decreases clients.len(),
{
    assert(clients.push(client).drop_last() =~= clients);
    if clients.len() > 0 {
        law_wakers_come_in_order(clients.drop_last(), client, pid);
    }
}

/// Where clients are untouched, each has what it had, the next identifier is the same, and
/// so is the time of the last maintenance.
pub proof fn law_untouched_clients(before: CacheManager, after: CacheManager)
    requires
        same_clients(before, after),
    ensures
        after.caches.clients@ == before.caches.clients@,
        after.ids.upcoming() == before.ids.upcoming(),
        after.last_maintenance_ns == before.last_maintenance_ns,
{
}

/// Storing a value gives it to every client, under its PID alone, and no client comes or
/// goes.
pub proof fn law_stored_value_is_everywhere(
    before: Seq<(ClientId, ClientCache)>,
    after: Seq<(ClientId, ClientCache)>,
    pid: Pid,
    data: Seq<Seq<u8>>,
    i: int,
    other: Pid,
)
    requires
        all_stored(before, after, pid, data),
        0 <= i < before.len(),
        other != pid,
    ensures
        after.len() == before.len(),
        after[i].0 == before[i].0,
        fresh_data(after[i].1.entry(pid)) == Some(data),
        after[i].1.entry(other) == before[i].1.entry(other),
{
    assert(ids_of(after).len() == ids_of(before).len());
    assert(ids_of(after)[i] == ids_of(before)[i]);
    assert(stored(before[i].1, after[i].1, pid, data));
}

} // verus!
