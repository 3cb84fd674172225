//! The per-client caches, and the rules by which PIDs gain and lose priority.

use crate::leds::NANOS_PER_MS;
use crate::obd2::buffers::{CachedResponse, Pid};
use crate::obd2::dongle::DongleError;
use crate::obd2::polling::{
    applied, applied_all, elapsed_between, DongleMessage, PidPriority, SlowPollMode, RPM_PID,
};
use std::collections::HashMap;
use vstd::prelude::*;

verus! {

broadcast use vstd::std_specs::hash::group_hash_axioms;

/// How often maintenance is due.
pub const MAINTENANCE_INTERVAL_MS: u64 = 2000;

// ---------------------------------------------------------------------------
// Client caches
// ---------------------------------------------------------------------------

/// `oneshot::Sender`: the sending half of a channel for one message. Only
/// carried through here; the program around sends on it.
#[verifier::external_type_specification]
#[verifier::external_body]
#[verifier::reject_recursive_types(T)]
pub struct ExSender<T>(oneshot::Sender<T>);

/// Wakes the client that waits for a PID.
pub type Waker = oneshot::Sender<()>;

/// Entry in a per-client PID cache
pub enum CacheEntry {
    /// Fresh value ready to be consumed (one buffer per ECU response)
    Fresh(CachedResponse),
    /// No value available (consumed or not yet received)
    Empty,
    /// Client is waiting for this PID
    Waiting(Waker),
}

/// Per-client cache of PID values
pub struct ClientCache {
    /// What is cached for each PID.
    pub entries: HashMap<Pid, CacheEntry>,
}

/// The fresh value of an entry.
pub open spec fn fresh_data(entry: CacheEntry) -> Option<Seq<Seq<u8>>> {
    match entry {
        CacheEntry::Fresh(response) => Some(response@),
        _ => None,
    }
}

/// The data of an optional response.
pub open spec fn response_data(response: Option<CachedResponse>) -> Option<Seq<Seq<u8>>> {
    match response {
        Some(response) => Some(response@),
        None => None,
    }
}

/// A value was stored under a PID, and nothing else changed.
pub open spec fn stored(
    before: ClientCache,
    after: ClientCache,
    pid: Pid,
    data: Seq<Seq<u8>>,
) -> bool {
    after.same_but_for(&before, pid) && fresh_data(after.entry(pid)) == Some(data)
}

/// The fresh value of a PID, if any, was taken out, and nothing else changed.
pub open spec fn taken(
    before: ClientCache,
    after: ClientCache,
    pid: Pid,
    result: Option<Seq<Seq<u8>>>,
) -> bool {
    &&& after.same_but_for(&before, pid)
    &&& after.entry(pid) is Empty
    &&& result == fresh_data(before.entry(pid))
}

impl ClientCache {
    /// The entry of a PID; one that was never touched is empty.
    pub open spec fn entry(&self, pid: Pid) -> CacheEntry {
        if self.entries@.contains_key(pid) {
            self.entries@[pid]
        } else {
            CacheEntry::Empty
        }
    }

    /// The other PIDs' entries are as before.
    pub open spec fn same_but_for(&self, other: &ClientCache, pid: Pid) -> bool {
        forall|p: Pid| p != pid ==> #[trigger] self.entry(p) == other.entry(p)
    }

    /// A cache without any value.
    pub fn new() -> (r: Self)
        ensures
            forall|pid: Pid| #[trigger] r.entry(pid) is Empty,
    {
        ClientCache { entries: HashMap::new() }
    }

    /// Store a fresh value. Returns the waker of a client that was waiting for
    /// it.
    pub fn store(&mut self, pid: Pid, data: &CachedResponse) -> (r: Option<Waker>)
        ensures
            stored(*old(self), *final(self), pid, data@),
            match old(self).entry(pid) {
                CacheEntry::Waiting(waker) => r == Some(waker),
                _ => r is None,
            },
    {
        match self.entries.insert(pid, CacheEntry::Fresh(data.duplicate())) {
            Some(CacheEntry::Waiting(waker)) => Some(waker),
            _ => None,
        }
    }

    /// Take the value of a PID and leave its entry empty. Returns `None` on a
    /// cache miss.
    pub fn take(&mut self, pid: Pid) -> (r: Option<CachedResponse>)
        requires
            !(old(self).entry(pid) is Waiting),
        ensures
            taken(*old(self), *final(self), pid, response_data(r)),
    {
        match self.entries.insert(pid, CacheEntry::Empty) {
            Some(CacheEntry::Fresh(response)) => Some(response),
            _ => None,
        }
    }

    /// Wait for a PID.
    pub fn wait_for(&mut self, pid: Pid, waker: Waker)
        ensures
            final(self).same_but_for(old(self), pid),
            final(self).entry(pid) == CacheEntry::Waiting(waker),
    {
        self.entries.insert(pid, CacheEntry::Waiting(waker));
    }

    /// Stop waiting for a PID after a timeout. A value that came in the last
    /// moment stays.
    pub fn stop_waiting(&mut self, pid: Pid) -> (r: DongleError)
        ensures
            final(self).same_but_for(old(self), pid),
            final(self).entry(pid) == if old(self).entry(pid) is Waiting {
                CacheEntry::Empty
            } else {
                old(self).entry(pid)
            },
            r == DongleError::Timeout,
    {
        let waiting: bool = match self.entries.get(&pid) {
            Some(CacheEntry::Waiting(_)) => true,
            _ => false,
        };
        if waiting {
            self.entries.insert(pid, CacheEntry::Empty);
        }
        DongleError::Timeout
    }

    /// Take the value of a PID after the waker was used.
    pub fn take_after_wake(&mut self, pid: Pid) -> (r: Result<CachedResponse, DongleError>)
        ensures
            taken(*old(self), *final(self), pid, response_data(r.ok())),
            r is Err ==> r->Err_0 == DongleError::NotConnected,
    {
        match self.entries.insert(pid, CacheEntry::Empty) {
            Some(CacheEntry::Fresh(response)) => Ok(response),
            _ => Err(DongleError::NotConnected),
        }
    }
}

/// What the first ECU reports as RPM: a quarter of the number in its first two
/// data bytes.
pub open spec fn rpm_of_data(data: Seq<Seq<u8>>) -> Option<nat> {
    if data.len() > 0 && data[0].len() >= 2 {
        Some(((data[0][0] * 256 + data[0][1]) / 4) as nat)
    } else {
        None
    }
}

/// Extract RPM from the first ECU response
pub fn rpm_from_response(data: &CachedResponse) -> (r: Option<u32>)
    ensures
        match r {
            Some(rpm) => rpm_of_data(data@) == Some(rpm as nat),
            None => rpm_of_data(data@) is None,
        },
{
    let ecus = data.ecus();
    if ecus.len() == 0 {
        return None;
    }
    let first = ecus[0].bytes();
    assert(first@ == data@[0]);
    if first.len() < 2 {
        return None;
    }
    Some((first[0] as u32 * 256 + first[1] as u32) / 4)
}

/// Unique identifier for a client (monotonic counter; `u32` is sufficient for embedded use).
pub type ClientId = u32;

/// Hands out client identifiers.
pub struct ClientIds {
    next: ClientId,
}

impl ClientIds {
    /// The identifier that comes next.
    pub closed spec fn upcoming(&self) -> ClientId {
        self.next
    }

    /// Identifiers start at 1.
    pub fn new() -> (r: Self)
        ensures
            r.upcoming() == 1,
    {
        ClientIds { next: 1 }
    }

    /// There are identifiers left.
    pub fn has_next(&self) -> (r: bool)
        ensures
            r == (self.upcoming() < u32::MAX),
    {
        self.next < u32::MAX
    }

    /// The identifier of a new client: larger than all before.
    pub fn register(&mut self) -> (r: ClientId)
        requires
            old(self).upcoming() < u32::MAX,
        ensures
            r == old(self).upcoming(),
            final(self).upcoming() == r + 1,
    {
        let id: ClientId = self.next;
        self.next = id + 1;
        id
    }
}

// ---------------------------------------------------------------------------
// PID priorities
// ---------------------------------------------------------------------------

/// Tracking info for a PID
#[derive(Debug, Clone, Copy, PartialEq, Eq, Structural)]
pub struct PidInfo {
    /// Last time any client had to wait for this PID (monotonic clock, ns)
    pub last_waiter_ns: Option<u64>,
    /// Last time any client consumed this PID (monotonic clock, ns)
    pub last_consumed_ns: Option<u64>,
    /// Current priority
    pub priority: PidPriority,
    /// Request count since last maintenance (for rate logging)
    pub request_count: u32,
}

/// Cache hit/miss metrics, reset each maintenance interval.
#[derive(Debug, Clone, Copy, PartialEq, Eq, Structural)]
pub struct CacheMetrics {
    /// Values that were there when asked for.
    pub hits: u32,
    /// Values that had to be waited for.
    pub misses: u32,
    /// How long was waited in all (ns).
    pub total_wait_ns: u128,
}

impl CacheMetrics {
    /// Each miss waited for some time that fits 64 bits.
    pub open spec fn well_formed(&self) -> bool {
        self.total_wait_ns <= self.misses * u64::MAX
    }

    /// Metrics without any request.
    pub open spec fn is_zero(&self) -> bool {
        self.hits == 0 && self.misses == 0 && self.total_wait_ns == 0
    }
}

impl Default for CacheMetrics {
    fn default() -> (r: Self)
        ensures
            r.is_zero(),
            r.well_formed(),
    {
        CacheMetrics { hits: 0, misses: 0, total_wait_ns: 0 }
    }
}

/// What clients did with each PID.
pub type PidInfos = HashMap<Pid, PidInfo>;

/// The other PIDs' infos are as before.
pub open spec fn others_unchanged(
    before: Map<Pid, PidInfo>,
    after: Map<Pid, PidInfo>,
    pid: Pid,
) -> bool {
    after.remove(pid) == before.remove(pid)
}

/// At the start only RPM is known: fast, and consumed just now.
pub fn initial_pid_infos(now_ns: u64) -> (r: PidInfos)
    ensures
        r@ == Map::<Pid, PidInfo>::empty().insert(
            RPM_PID,
            (PidInfo {
                last_waiter_ns: None,
                last_consumed_ns: Some(now_ns),
                priority: PidPriority::Fast,
                request_count: 0,
            }),
        ),
{
    let mut infos: PidInfos = HashMap::new();
    infos.insert(
        RPM_PID,
        PidInfo {
            last_waiter_ns: None,
            last_consumed_ns: Some(now_ns),
            priority: PidPriority::Fast,
            request_count: 0,
        },
    );
    infos
}

/// The info of a PID that a client waits for.
pub open spec fn info_when_waiting(
    before: Option<PidInfo>,
    mode: SlowPollMode,
    now_ns: u64,
) -> PidInfo {
    match before {
        Some(info) => PidInfo {
            last_waiter_ns: Some(now_ns),
            priority: if mode == SlowPollMode::Interval {
                PidPriority::Fast
            } else {
                info.priority
            },
            ..info
        },
        None => PidInfo {
            last_waiter_ns: Some(now_ns),
            last_consumed_ns: None,
            priority: PidPriority::Fast,
            request_count: 0,
        },
    }
}

/// The info of a PID, if it is tracked.
pub open spec fn tracked_info(infos: Map<Pid, PidInfo>, pid: Pid) -> Option<PidInfo> {
    if infos.contains_key(pid) {
        Some(infos[pid])
    } else {
        None
    }
}

/// What a message to the cache manager asks of the dongle task.
#[derive(Debug, Clone, Copy, PartialEq, Eq, Structural)]
pub enum PriorityChange {
    /// Nothing.
    Unchanged,
    /// A new PID goes into the fast queue.
    Added,
    /// A slow PID becomes fast.
    Promoted,
}

impl PriorityChange {
    /// The message to the dongle task.
    pub fn message(self, pid: Pid) -> (r: Option<DongleMessage>)
        ensures
            r == if self == PriorityChange::Unchanged {
                None
            } else {
                Some(DongleMessage::SetPidPriority(pid, PidPriority::Fast))
            },
    {
        match self {
            PriorityChange::Unchanged => None,
            PriorityChange::Added => Some(DongleMessage::SetPidPriority(pid, PidPriority::Fast)),
            PriorityChange::Promoted => Some(
                DongleMessage::SetPidPriority(pid, PidPriority::Fast),
            ),
        }
    }
}

/// Handle a PID entering the Waiting state: create or promote PID info as appropriate.
///
/// In interval mode a slow PID is promoted at once. In ratio mode the wait time
/// decides, when the value is consumed.
pub fn handle_waiting_pid(
    pid: Pid,
    pid_info: &mut PidInfos,
    slow_poll_mode: SlowPollMode,
    now_ns: u64,
) -> (r: PriorityChange)
    ensures
        others_unchanged(old(pid_info)@, final(pid_info)@, pid),
        tracked_info(final(pid_info)@, pid) == Some(
            info_when_waiting(tracked_info(old(pid_info)@, pid), slow_poll_mode, now_ns),
        ),
        r == match tracked_info(old(pid_info)@, pid) {
            None => PriorityChange::Added,
            Some(info) => if info.priority == PidPriority::Slow && slow_poll_mode
                == SlowPollMode::Interval {
                PriorityChange::Promoted
            } else {
                PriorityChange::Unchanged
            },
        },
{
    let before: Option<PidInfo> = match pid_info.get(&pid) {
        Some(info) => Some(*info),
        None => None,
    };
    match before {
        None => {
            pid_info.insert(
                pid,
                PidInfo {
                    last_waiter_ns: Some(now_ns),
                    last_consumed_ns: None,
                    priority: PidPriority::Fast,
                    request_count: 0,
                },
            );
            assert(pid_info@.remove(pid) =~= old(pid_info)@.remove(pid));
            PriorityChange::Added
        },
        Some(info) => {
            let promoted: bool = info.priority == PidPriority::Slow && slow_poll_mode
                == SlowPollMode::Interval;
            pid_info.insert(
                pid,
                PidInfo {
                    last_waiter_ns: Some(now_ns),
                    last_consumed_ns: info.last_consumed_ns,
                    priority: if promoted {
                        PidPriority::Fast
                    } else {
                        info.priority
                    },
                    request_count: info.request_count,
                },
            );
            assert(pid_info@.remove(pid) =~= old(pid_info)@.remove(pid));
            if promoted {
                PriorityChange::Promoted
            } else {
                PriorityChange::Unchanged
            }
        },
    }
}

/// A slow PID that a client had to wait for too long, in ratio mode.
pub open spec fn promoted_when_consumed(
    info: PidInfo,
    wait_ns: Option<u64>,
    mode: SlowPollMode,
    threshold_ms: u64,
) -> bool {
    &&& mode == SlowPollMode::Ratio
    &&& info.priority == PidPriority::Slow
    &&& wait_ns matches Some(wait) && wait >= threshold_ms * NANOS_PER_MS
}

/// Handle a PID being consumed by a client: track metrics and promote slow PIDs if wait time
/// exceeds the configured threshold (in ratio mode).
pub fn handle_consumed_pid(
    pid: Pid,
    wait_ns: Option<u64>,
    pid_info: &mut PidInfos,
    slow_poll_mode: SlowPollMode,
    promotion_threshold_ms: u64,
    now_ns: u64,
    cache_metrics: &mut CacheMetrics,
) -> (r: PriorityChange)
    requires
        old(cache_metrics).well_formed(),
        wait_ns is None ==> old(cache_metrics).hits < u32::MAX,
        wait_ns is Some ==> old(cache_metrics).misses < u32::MAX,
        tracked_info(old(pid_info)@, pid) matches Some(info) ==> info.request_count < u32::MAX,
    ensures
        final(cache_metrics).well_formed(),
        others_unchanged(old(pid_info)@, final(pid_info)@, pid),
        match tracked_info(old(pid_info)@, pid) {
            None => {
                &&& tracked_info(final(pid_info)@, pid) is None
                &&& r == PriorityChange::Unchanged
            },
            Some(info) => {
                let promoted = promoted_when_consumed(
                    info,
                    wait_ns,
                    slow_poll_mode,
                    promotion_threshold_ms,
                );
                &&& tracked_info(final(pid_info)@, pid) == Some(
                    PidInfo {
                        last_consumed_ns: Some(now_ns),
                        request_count: (info.request_count + 1) as u32,
                        priority: if promoted {
                            PidPriority::Fast
                        } else {
                            info.priority
                        },
                        ..info
                    },
                )
                &&& r == if promoted {
                    PriorityChange::Promoted
                } else {
                    PriorityChange::Unchanged
                }
            },
        },
        match wait_ns {
            Some(wait) => {
                &&& final(cache_metrics).misses == old(cache_metrics).misses + 1
                &&& final(cache_metrics).hits == old(cache_metrics).hits
                &&& final(cache_metrics).total_wait_ns == old(cache_metrics).total_wait_ns + wait
            },
            None => {
                &&& final(cache_metrics).hits == old(cache_metrics).hits + 1
                &&& final(cache_metrics).misses == old(cache_metrics).misses
                &&& final(cache_metrics).total_wait_ns == old(cache_metrics).total_wait_ns
            },
        },
{
    match wait_ns {
        Some(wait) => {
            let misses: u32 = cache_metrics.misses;
            assert((misses + 1) * u64::MAX == misses * u64::MAX + u64::MAX) by (nonlinear_arith);
            assert(misses * u64::MAX <= u32::MAX * u64::MAX) by (nonlinear_arith)
                requires
                    misses <= u32::MAX,
            ;
            cache_metrics.misses = misses + 1;
            cache_metrics.total_wait_ns = cache_metrics.total_wait_ns + wait as u128;
        },
        None => {
            cache_metrics.hits = cache_metrics.hits + 1;
        },
    }
    let before: Option<PidInfo> = match pid_info.get(&pid) {
        Some(info) => Some(*info),
        None => None,
    };
    match before {
        None => PriorityChange::Unchanged,
        Some(info) => {
            let waited_long: bool = match wait_ns {
                Some(wait) => wait as u128 >= promotion_threshold_ms as u128 * NANOS_PER_MS,
                None => false,
            };
            let promoted: bool = slow_poll_mode == SlowPollMode::Ratio && info.priority
                == PidPriority::Slow && waited_long;
            pid_info.insert(
                pid,
                PidInfo {
                    last_waiter_ns: info.last_waiter_ns,
                    last_consumed_ns: Some(now_ns),
                    priority: if promoted {
                        PidPriority::Fast
                    } else {
                        info.priority
                    },
                    request_count: info.request_count + 1,
                },
            );
            assert(pid_info@.remove(pid) =~= old(pid_info)@.remove(pid));
            if promoted {
                PriorityChange::Promoted
            } else {
                PriorityChange::Unchanged
            }
        },
    }
}

// ---------------------------------------------------------------------------
// Maintenance
// ---------------------------------------------------------------------------

/// Something that never happened, or longer ago than a limit.
pub open spec fn longer_ago(time_ns: Option<u64>, now_ns: u64, limit_ms: u64) -> bool {
    match time_ns {
        Some(time) => elapsed_between(time, now_ns) > limit_ms * NANOS_PER_MS,
        None => true,
    }
}

/// A PID that is dropped: neither consumed nor waited for recently. RPM never
/// is.
pub open spec fn is_removed(pid: Pid, info: PidInfo, now_ns: u64, removal_ms: u64) -> bool {
    &&& pid != RPM_PID
    &&& longer_ago(info.last_consumed_ns, now_ns, removal_ms)
    &&& longer_ago(info.last_waiter_ns, now_ns, removal_ms)
}

/// A fast PID that becomes slow: not waited for recently, and not dropped. RPM
/// never does.
pub open spec fn is_demoted(
    pid: Pid,
    info: PidInfo,
    now_ns: u64,
    demotion_ms: u64,
    removal_ms: u64,
) -> bool {
    &&& pid != RPM_PID
    &&& !is_removed(pid, info, now_ns, removal_ms)
    &&& info.priority == PidPriority::Fast
    &&& longer_ago(info.last_waiter_ns, now_ns, demotion_ms)
}

/// The info of a PID after maintenance.
pub open spec fn info_after_maintenance(
    pid: Pid,
    info: PidInfo,
    now_ns: u64,
    demotion_ms: u64,
    removal_ms: u64,
) -> PidInfo {
    PidInfo {
        priority: if is_demoted(pid, info, now_ns, demotion_ms, removal_ms) {
            PidPriority::Slow
        } else {
            info.priority
        },
        request_count: 0,
        ..info
    }
}

/// What maintenance did.
pub struct Maintenance {
    /// PIDs that became slow.
    pub demoted: Vec<Pid>,
    /// PIDs that are no longer polled.
    pub removed: Vec<Pid>,
    /// How often each remaining PID was asked for, where it was.
    pub requests: Vec<(Pid, u32)>,
    /// The cache metrics since the last maintenance.
    pub metrics: CacheMetrics,
}

fn is_longer_ago(time_ns: Option<u64>, now_ns: u64, limit_ms: u64) -> (r: bool)
    ensures
        r == longer_ago(time_ns, now_ns, limit_ms),
{
    match time_ns {
        Some(time) => now_ns.saturating_sub(time) as u128 > limit_ms as u128 * NANOS_PER_MS,
        None => true,
    }
}

/// The PIDs below a bound that satisfy a condition, in a list without
/// repetition.
pub open spec fn lists_exactly(list: Seq<Pid>, bound: int, wanted: spec_fn(Pid) -> bool) -> bool {
    &&& list.no_duplicates()
    &&& forall|pid: Pid| #[trigger] list.contains(pid) <==> pid < bound && wanted(pid)
}

proof fn lemma_list_grows(list: Seq<Pid>, bound: int, wanted: spec_fn(Pid) -> bool)
    requires
        lists_exactly(list, bound, wanted),
        0 <= bound < 256,
    ensures
        wanted(bound as u8) ==> lists_exactly(list.push(bound as u8), bound + 1, wanted),
        !wanted(bound as u8) ==> lists_exactly(list, bound + 1, wanted),
{
    let next = bound as u8;
    assert(!list.contains(next));
    let longer = list.push(next);
    if wanted(next) {
        assert forall|pid: Pid| #[trigger] longer.contains(pid) <==> pid < bound + 1 && wanted(
            pid,
        ) by {
            if list.contains(pid) {
                let i = choose|i: int| 0 <= i < list.len() && list[i] == pid;
                assert(longer[i] == pid);
            }
            assert(longer[list.len() as int] == next);
            if longer.contains(pid) && pid != next {
                let i = choose|i: int| 0 <= i < longer.len() && longer[i] == pid;
                assert(list[i] == pid);
            }
        }
        assert forall|i: int, j: int|
            0 <= i < longer.len() && 0 <= j < longer.len() && i != j implies longer[i]
            != longer[j] by {
            if i == list.len() {
                assert(list.contains(list[j]));
            }
            if j == list.len() {
                assert(list.contains(list[i]));
            }
        }
    }
}

/// The outcome of maintenance for one PID.
pub open spec fn maintained(
    before: Map<Pid, PidInfo>,
    pid: Pid,
    now_ns: u64,
    demotion_ms: u64,
    removal_ms: u64,
) -> Option<PidInfo> {
    match tracked_info(before, pid) {
        None => None,
        Some(info) => if is_removed(pid, info, now_ns, removal_ms) {
            None
        } else {
            Some(info_after_maintenance(pid, info, now_ns, demotion_ms, removal_ms))
        },
    }
}

/// Maintenance was done: each PID's info is as it should be, and the lists hold
/// the PIDs that were demoted, removed, and asked for.
pub open spec fn maintenance_done(
    before: Map<Pid, PidInfo>,
    after: Map<Pid, PidInfo>,
    done: Maintenance,
    now_ns: u64,
    demotion_ms: u64,
    removal_ms: u64,
) -> bool {
    &&& forall|pid: Pid|
        #[trigger] tracked_info(after, pid) == maintained(
            before,
            pid,
            now_ns,
            demotion_ms,
            removal_ms,
        )
    &&& lists_exactly(
        done.removed@,
        256,
        |pid: Pid|
            tracked_info(before, pid) matches Some(info) && is_removed(
                pid,
                info,
                now_ns,
                removal_ms,
            ),
    )
    &&& lists_exactly(
        done.demoted@,
        256,
        |pid: Pid|
            tracked_info(before, pid) matches Some(info) && is_demoted(
                pid,
                info,
                now_ns,
                demotion_ms,
                removal_ms,
            ),
    )
    &&& lists_exactly(
        done.requests@.map_values(|entry: (Pid, u32)| entry.0),
        256,
        |pid: Pid|
            tracked_info(before, pid) matches Some(info) && !is_removed(
                pid,
                info,
                now_ns,
                removal_ms,
            ) && info.request_count > 0,
    )
    &&& forall|i: int|
        0 <= i < done.requests@.len() ==> (#[trigger] done.requests@[i]).1
            == before[done.requests@[i].0].request_count
}

/// Run periodic maintenance: demote/remove inactive PIDs, reset request counters
/// and metrics.
pub fn run_maintenance(
    pid_info: &mut PidInfos,
    fast_demotion_ms: u64,
    pid_inactive_removal_ms: u64,
    now_ns: u64,
    cache_metrics: &mut CacheMetrics,
) -> (r: Maintenance)
    ensures
        maintenance_done(
            old(pid_info)@,
            final(pid_info)@,
            r,
            now_ns,
            fast_demotion_ms,
            pid_inactive_removal_ms,
        ),
        r.metrics == *old(cache_metrics),
        final(cache_metrics).is_zero(),
        final(cache_metrics).well_formed(),
{
    let ghost before = pid_info@;
    let ghost removal = |pid: Pid|
        tracked_info(before, pid) matches Some(info) && is_removed(
            pid,
            info,
            now_ns,
            pid_inactive_removal_ms,
        );
    let ghost demotion = |pid: Pid|
        tracked_info(before, pid) matches Some(info) && is_demoted(
            pid,
            info,
            now_ns,
            fast_demotion_ms,
            pid_inactive_removal_ms,
        );
    let ghost busy = |pid: Pid|
        tracked_info(before, pid) matches Some(info) && !is_removed(
            pid,
            info,
            now_ns,
            pid_inactive_removal_ms,
        ) && info.request_count > 0;
    let mut demoted: Vec<Pid> = Vec::new();
    let mut removed: Vec<Pid> = Vec::new();
    let mut requests: Vec<(Pid, u32)> = Vec::new();
    let mut next: u16 = 0;
    assert(requests@.map_values(|entry: (Pid, u32)| entry.0) =~= Seq::<Pid>::empty());
    while next < 256
        invariant
            next <= 256,
            before == old(pid_info)@,
            removal == (|pid: Pid|
                tracked_info(before, pid) matches Some(info) && is_removed(
                    pid,
                    info,
                    now_ns,
                    pid_inactive_removal_ms,
                )),
            demotion == (|pid: Pid|
                tracked_info(before, pid) matches Some(info) && is_demoted(
                    pid,
                    info,
                    now_ns,
                    fast_demotion_ms,
                    pid_inactive_removal_ms,
                )),
            busy == (|pid: Pid|
                tracked_info(before, pid) matches Some(info) && !is_removed(
                    pid,
                    info,
                    now_ns,
                    pid_inactive_removal_ms,
                ) && info.request_count > 0),
            lists_exactly(removed@, next as int, removal),
            lists_exactly(demoted@, next as int, demotion),
            lists_exactly(
                requests@.map_values(|entry: (Pid, u32)| entry.0),
                next as int,
                busy,
            ),
            forall|i: int|
                0 <= i < requests@.len() ==> (#[trigger] requests@[i]).1
                    == before[requests@[i].0].request_count,
            forall|pid: Pid|
                #![trigger tracked_info(pid_info@, pid)]
                tracked_info(pid_info@, pid) == if pid >= next {
                    tracked_info(before, pid)
                } else {
                    match tracked_info(before, pid) {
                        None => None,
                        Some(info) => if is_removed(pid, info, now_ns, pid_inactive_removal_ms) {
                            None
                        } else {
                            Some(
                                info_after_maintenance(
                                    pid,
                                    info,
                                    now_ns,
                                    fast_demotion_ms,
                                    pid_inactive_removal_ms,
                                ),
                            )
                        },
                    }
                },
        decreases 256 - next,
    {
        let pid: Pid = next as u8;
        let ghost names = requests@.map_values(|entry: (Pid, u32)| entry.0);
        proof {
            lemma_list_grows(removed@, next as int, removal);
            lemma_list_grows(demoted@, next as int, demotion);
            lemma_list_grows(names, next as int, busy);
            assert(tracked_info(pid_info@, pid) == tracked_info(before, pid));
        }
        let ghost step = pid_info@;
        let current: Option<PidInfo> = match pid_info.get(&pid) {
            Some(info) => Some(*info),
            None => None,
        };
        match current {
            None => {},
            Some(info) => {
                let no_recent_consumption: bool = is_longer_ago(
                    info.last_consumed_ns,
                    now_ns,
                    pid_inactive_removal_ms,
                );
                let no_recent_waiters: bool = is_longer_ago(
                    info.last_waiter_ns,
                    now_ns,
                    pid_inactive_removal_ms,
                );
                if pid != RPM_PID && no_recent_consumption && no_recent_waiters {
                    pid_info.remove(&pid);
                    removed.push(pid);
                } else {
                    let demote: bool = pid != RPM_PID && info.priority == PidPriority::Fast
                        && is_longer_ago(info.last_waiter_ns, now_ns, fast_demotion_ms);
                    if demote {
                        demoted.push(pid);
                    }
                    if info.request_count > 0 {
                        requests.push((pid, info.request_count));
                        assert(requests@.map_values(|entry: (Pid, u32)| entry.0) =~= names.push(
                            pid,
                        ));
                    }
                    pid_info.insert(
                        pid,
                        PidInfo {
                            last_waiter_ns: info.last_waiter_ns,
                            last_consumed_ns: info.last_consumed_ns,
                            priority: if demote {
                                PidPriority::Slow
                            } else {
                                info.priority
                            },
                            request_count: 0,
                        },
                    );
                }
            },
        }
        assert forall|p: Pid| p != pid implies #[trigger] tracked_info(pid_info@, p)
            == tracked_info(step, p) by {}
        next = next + 1;
    }
    let metrics: CacheMetrics = *cache_metrics;
    *cache_metrics = CacheMetrics::default();
    Maintenance { demoted, removed, requests, metrics }
}

/// The messages that demote PIDs.
pub open spec fn demotions(pids: Seq<Pid>) -> Seq<DongleMessage> {
    pids.map_values(|pid: Pid| DongleMessage::SetPidPriority(pid, PidPriority::Slow))
}

/// The messages that remove PIDs.
pub open spec fn removals(pids: Seq<Pid>) -> Seq<DongleMessage> {
    pids.map_values(|pid: Pid| DongleMessage::RemovePid(pid))
}

impl Maintenance {
    /// The messages to the dongle task: demotions first, then removals.
    pub fn messages(&self) -> (r: Vec<DongleMessage>)
        ensures
            r@ == demotions(self.demoted@) + removals(self.removed@),
    {
        let mut messages: Vec<DongleMessage> = Vec::new();
        let mut i: usize = 0;
        while i < self.demoted.len()
            invariant
                i <= self.demoted@.len(),
                messages@ == demotions(self.demoted@).take(i as int),
            decreases self.demoted@.len() - i,
        {
            messages.push(DongleMessage::SetPidPriority(self.demoted[i], PidPriority::Slow));
            assert(messages@ =~= demotions(self.demoted@).take(i + 1));
            i = i + 1;
        }
        assert(demotions(self.demoted@).take(i as int) =~= demotions(self.demoted@));
        let ghost first = demotions(self.demoted@);
        let mut k: usize = 0;
        assert(messages@ =~= first + removals(self.removed@).take(0));
        while k < self.removed.len()
            invariant
                k <= self.removed@.len(),
                messages@ == first + removals(self.removed@).take(k as int),
            decreases self.removed@.len() - k,
        {
            messages.push(DongleMessage::RemovePid(self.removed[k]));
            assert(messages@ =~= first + removals(self.removed@).take(k + 1));
            k = k + 1;
        }
        assert(removals(self.removed@).take(k as int) =~= removals(self.removed@));
        messages
    }
}

// ---------------------------------------------------------------------------
// Laws
// ---------------------------------------------------------------------------

/// The priorities that the cache manager tracks.
pub open spec fn tracked_priorities(infos: Map<Pid, PidInfo>) -> Map<Pid, PidPriority> {
    Map::new(|pid: Pid| infos.contains_key(pid), |pid: Pid| infos[pid].priority)
}

/// A read gives back the last value that was written for the PID, once; a value
/// for another PID does not get in its way.
pub proof fn law_read_gives_back_write(
    start: ClientCache,
    written: ClientCache,
    mixed: ClientCache,
    read: ClientCache,
    again: ClientCache,
    pid: Pid,
    other: Pid,
    data: Seq<Seq<u8>>,
    other_data: Seq<Seq<u8>>,
    first: Option<Seq<Seq<u8>>>,
    second: Option<Seq<Seq<u8>>>,
)
    requires
        stored(start, written, pid, data),
        stored(written, mixed, other, other_data),
        taken(mixed, read, pid, first),
        taken(read, again, pid, second),
    ensures
        other != pid ==> first == Some(data),
        other == pid ==> first == Some(other_data),
        second is None,
{
}

/// Maintenance keeps RPM: it is neither dropped nor demoted, whatever the
/// limits.
pub proof fn law_rpm_is_kept(info: PidInfo, now_ns: u64, demotion_ms: u64, removal_ms: u64)
    ensures
        !is_removed(RPM_PID, info, now_ns, removal_ms),
        !is_demoted(RPM_PID, info, now_ns, demotion_ms, removal_ms),
{
}

/// When a client waits, the message that results brings the dongle task to the
/// priorities that the cache manager tracks.
pub proof fn law_waiting_keeps_tasks_in_step(
    before: Map<Pid, PidInfo>,
    after: Map<Pid, PidInfo>,
    pid: Pid,
    mode: SlowPollMode,
    now_ns: u64,
)
    requires
        others_unchanged(before, after, pid),
        tracked_info(after, pid) == Some(
            info_when_waiting(tracked_info(before, pid), mode, now_ns),
        ),
    ensures
        ({
            let sent = match tracked_info(before, pid) {
                None => true,
                Some(info) => info.priority == PidPriority::Slow && mode == SlowPollMode::Interval,
            };
            tracked_priorities(after) == if sent {
                applied(
                    tracked_priorities(before),
                    DongleMessage::SetPidPriority(pid, PidPriority::Fast),
                )
            } else {
                tracked_priorities(before)
            }
        }),
{
    lemma_only_one_changed(before, after, pid);
    let sent = match tracked_info(before, pid) {
        None => true,
        Some(info) => info.priority == PidPriority::Slow && mode == SlowPollMode::Interval,
    };
    if sent {
        assert(tracked_priorities(after) =~= applied(
            tracked_priorities(before),
            DongleMessage::SetPidPriority(pid, PidPriority::Fast),
        ));
    } else {
        assert(tracked_priorities(after) =~= tracked_priorities(before));
    }
}

proof fn lemma_only_one_changed(before: Map<Pid, PidInfo>, after: Map<Pid, PidInfo>, pid: Pid)
    requires
        others_unchanged(before, after, pid),
    ensures
        forall|p: Pid|
            p != pid ==> (#[trigger] after.contains_key(p) <==> before.contains_key(p)) && (
            after.contains_key(p) ==> after[p] == before[p]),
{
    assert forall|p: Pid| p != pid implies (#[trigger] after.contains_key(p)
        <==> before.contains_key(p)) && (after.contains_key(p) ==> after[p] == before[p]) by {
        assert(after.remove(pid).contains_key(p) <==> after.contains_key(p));
        assert(before.remove(pid).contains_key(p) <==> before.contains_key(p));
        if after.contains_key(p) {
            assert(after.remove(pid)[p] == after[p]);
            assert(before.remove(pid)[p] == before[p]);
        }
    }
}

/// When a client consumes a value, the message that results brings the dongle
/// task to the priorities that the cache manager tracks.
pub proof fn law_consuming_keeps_tasks_in_step(
    before: Map<Pid, PidInfo>,
    after: Map<Pid, PidInfo>,
    pid: Pid,
    info: PidInfo,
    promoted: bool,
)
    requires
        others_unchanged(before, after, pid),
        tracked_info(before, pid) == Some(info),
        tracked_info(after, pid) matches Some(now) && now.priority == if promoted {
            PidPriority::Fast
        } else {
            info.priority
        },
    ensures
        tracked_priorities(after) == if promoted {
            applied(
                tracked_priorities(before),
                DongleMessage::SetPidPriority(pid, PidPriority::Fast),
            )
        } else {
            tracked_priorities(before)
        },
{
    lemma_only_one_changed(before, after, pid);
    if promoted {
        assert(tracked_priorities(after) =~= applied(
            tracked_priorities(before),
            DongleMessage::SetPidPriority(pid, PidPriority::Fast),
        ));
    } else {
        assert(tracked_priorities(after) =~= tracked_priorities(before));
    }
}

/// The messages of maintenance bring the dongle task to the priorities that the
/// cache manager tracks.
pub proof fn law_maintenance_keeps_tasks_in_step(
    before: Map<Pid, PidInfo>,
    after: Map<Pid, PidInfo>,
    done: Maintenance,
    now_ns: u64,
    demotion_ms: u64,
    removal_ms: u64,
)
    requires
        maintenance_done(before, after, done, now_ns, demotion_ms, removal_ms),
    ensures
        tracked_priorities(after) == applied_all(
            tracked_priorities(before),
            demotions(done.demoted@) + removals(done.removed@),
        ),
{
    let demoted = done.demoted@;
    let removed = done.removed@;
    let start = tracked_priorities(before);
    lemma_demotions_applied(start, demoted);
    lemma_removals_applied(start, demotions(demoted), removed);
    let end = applied_all(start, demotions(demoted) + removals(removed));
    assert forall|pid: Pid| #[trigger] tracked_priorities(after).contains_key(pid)
        <==> end.contains_key(pid) by {
        assert(tracked_info(after, pid) == maintained(
            before,
            pid,
            now_ns,
            demotion_ms,
            removal_ms,
        ));
        assert(removed.contains(pid) || !removed.contains(pid));
        assert(demoted.contains(pid) || !demoted.contains(pid));
    }
    assert forall|pid: Pid| tracked_priorities(after).contains_key(pid) implies #[trigger]
        tracked_priorities(after)[pid] == end[pid] by {
        assert(tracked_info(after, pid) == maintained(
            before,
            pid,
            now_ns,
            demotion_ms,
            removal_ms,
        ));
        assert(removed.contains(pid) || !removed.contains(pid));
        assert(demoted.contains(pid) || !demoted.contains(pid));
    }
    assert(tracked_priorities(after) =~= end);
}

proof fn lemma_demotions_applied(start: Map<Pid, PidPriority>, demoted: Seq<Pid>)
    ensures
        forall|pid: Pid|
            #![trigger applied_all(start, demotions(demoted)).contains_key(pid)]
            #![trigger applied_all(start, demotions(demoted))[pid]]
            {
                let end = applied_all(start, demotions(demoted));
                &&& end.contains_key(pid) <==> start.contains_key(pid) || demoted.contains(pid)
                &&& end.contains_key(pid) ==> end[pid] == if demoted.contains(pid) {
                    PidPriority::Slow
                } else {
                    start[pid]
                }
            },
    decreases demoted.len(),
{
    if demoted.len() > 0 {
        let front = demoted.drop_last();
        lemma_demotions_applied(start, front);
        assert(demotions(demoted).drop_last() =~= demotions(front));
        assert forall|pid: Pid| demoted.contains(pid) <==> #[trigger] front.contains(pid) || pid
            == demoted.last() by {
            if demoted.contains(pid) && pid != demoted.last() {
                let i = choose|i: int| 0 <= i < demoted.len() && demoted[i] == pid;
                assert(front[i] == pid);
            }
            if front.contains(pid) {
                let i = choose|i: int| 0 <= i < front.len() && front[i] == pid;
                assert(demoted[i] == pid);
            }
        }
        let prior = applied_all(start, demotions(front));
        let end = applied_all(start, demotions(demoted));
        assert(end == prior.insert(demoted.last(), PidPriority::Slow));
        assert forall|pid: Pid|
            #![trigger end.contains_key(pid)]
            #![trigger end[pid]]
            {
                &&& end.contains_key(pid) <==> start.contains_key(pid) || demoted.contains(pid)
                &&& end.contains_key(pid) ==> end[pid] == if demoted.contains(pid) {
                    PidPriority::Slow
                } else {
                    start[pid]
                }
            } by {
            assert(prior.contains_key(pid) <==> start.contains_key(pid) || front.contains(pid));
        }
    } else {
        assert(demotions(demoted) =~= Seq::empty());
    }
}

proof fn lemma_removals_applied(
    start: Map<Pid, PidPriority>,
    first: Seq<DongleMessage>,
    removed: Seq<Pid>,
)
    ensures
        forall|pid: Pid|
            #![trigger applied_all(start, first + removals(removed)).contains_key(pid)]
            #![trigger applied_all(start, first + removals(removed))[pid]]
            {
                let middle = applied_all(start, first);
                let end = applied_all(start, first + removals(removed));
                &&& end.contains_key(pid) <==> middle.contains_key(pid) && !removed.contains(pid)
                &&& end.contains_key(pid) ==> end[pid] == middle[pid]
            },
    decreases removed.len(),
{
    let middle = applied_all(start, first);
    if removed.len() > 0 {
        let front = removed.drop_last();
        lemma_removals_applied(start, first, front);
        assert((first + removals(removed)).drop_last() =~= first + removals(front));
        assert forall|pid: Pid| removed.contains(pid) <==> #[trigger] front.contains(pid) || pid
            == removed.last() by {
            if removed.contains(pid) && pid != removed.last() {
                let i = choose|i: int| 0 <= i < removed.len() && removed[i] == pid;
                assert(front[i] == pid);
            }
            if front.contains(pid) {
                let i = choose|i: int| 0 <= i < front.len() && front[i] == pid;
                assert(removed[i] == pid);
            }
        }
        let prior = applied_all(start, first + removals(front));
        let end = applied_all(start, first + removals(removed));
        assert(end == prior.remove(removed.last()));
        assert forall|pid: Pid|
            #![trigger end.contains_key(pid)]
            #![trigger end[pid]]
            {
                &&& end.contains_key(pid) <==> middle.contains_key(pid) && !removed.contains(pid)
                &&& end.contains_key(pid) ==> end[pid] == middle[pid]
            } by {
            assert(prior.contains_key(pid) <==> middle.contains_key(pid) && !front.contains(pid));
        }
    } else {
        assert(first + removals(removed) =~= first);
    }
}

/// Maintenance drops exactly the PIDs, other than the RPM, that nobody consumed or
/// waited for within the removal time: one that was consumed lately survives
/// whenever it was last waited for, and the other way round.
pub proof fn law_maintenance_drops_what_is_not_used(
    before: Map<Pid, PidInfo>,
    after: Map<Pid, PidInfo>,
    done: Maintenance,
    now_ns: u64,
    demotion_ms: u64,
    removal_ms: u64,
    pid: Pid,
)
    requires
        maintenance_done(before, after, done, now_ns, demotion_ms, removal_ms),
    ensures
        !before.contains_key(pid) ==> !after.contains_key(pid) && !done.removed@.contains(pid),
        before.contains_key(pid) ==> ({
            let consumed = before[pid].last_consumed_ns;
            let waited = before[pid].last_waiter_ns;
            let used = (consumed is Some && now_ns - consumed->0 <= removal_ms * 1_000_000) || (
            waited is Some && now_ns - waited->0 <= removal_ms * 1_000_000);
            &&& after.contains_key(pid) <==> pid == 0x0C || used
            &&& done.removed@.contains(pid) <==> pid != 0x0C && !used
        }),
{
    assert(tracked_info(after, pid) == maintained(before, pid, now_ns, demotion_ms, removal_ms));
    assert(done.removed@.contains(pid) <==> (pid as int) < 256 && (tracked_info(before, pid) matches Some(
        info,
    ) && is_removed(pid, info, now_ns, removal_ms)));
}

/// Maintenance makes slow exactly the fast PIDs that it keeps and that nobody
/// waited for within the demotion time, the RPM excepted; it makes none fast, and
/// what it knows of their use stays.
pub proof fn law_maintenance_slows_what_nobody_waits_for(
    before: Map<Pid, PidInfo>,
    after: Map<Pid, PidInfo>,
    done: Maintenance,
    now_ns: u64,
    demotion_ms: u64,
    removal_ms: u64,
    pid: Pid,
)
    requires
        maintenance_done(before, after, done, now_ns, demotion_ms, removal_ms),
        after.contains_key(pid),
    ensures
        before.contains_key(pid),
        ({
            let waited = before[pid].last_waiter_ns;
            let waited_lately = waited is Some && now_ns - waited->0 <= demotion_ms * 1_000_000;
            let slowed = pid != 0x0C && before[pid].priority == PidPriority::Fast
                && !waited_lately;
            &&& done.demoted@.contains(pid) <==> slowed
            &&& slowed ==> after[pid].priority == PidPriority::Slow
            &&& !slowed ==> after[pid].priority == before[pid].priority
        }),
        after[pid].last_waiter_ns == before[pid].last_waiter_ns,
        after[pid].last_consumed_ns == before[pid].last_consumed_ns,
        after[pid].request_count == 0,
        before[pid].request_count > 0 <==> exists|i: int|
            0 <= i < done.requests@.len() && (#[trigger] done.requests@[i]).0 == pid
                && done.requests@[i].1 == before[pid].request_count,
{
    assert(tracked_info(after, pid) == maintained(before, pid, now_ns, demotion_ms, removal_ms));
    assert(done.demoted@.contains(pid) <==> (pid as int) < 256 && (tracked_info(before, pid) matches Some(
        info,
    ) && is_demoted(pid, info, now_ns, demotion_ms, removal_ms)));
    let asked = done.requests@.map_values(|entry: (Pid, u32)| entry.0);
    assert(asked.contains(pid) <==> (pid as int) < 256 && (tracked_info(before, pid) matches Some(info)
        && !is_removed(pid, info, now_ns, removal_ms) && info.request_count > 0));
    if before[pid].request_count > 0 {
        let i = choose|i: int| 0 <= i < asked.len() && asked[i] == pid;
        assert(done.requests@[i].0 == pid);
        assert(done.requests@[i].1 == before[done.requests@[i].0].request_count);
    } else if exists|i: int|
        0 <= i < done.requests@.len() && (#[trigger] done.requests@[i]).0 == pid
            && done.requests@[i].1 == before[pid].request_count {
        let i = choose|i: int|
            0 <= i < done.requests@.len() && (#[trigger] done.requests@[i]).0 == pid
                && done.requests@[i].1 == before[pid].request_count;
        assert(asked[i] == pid);
    }
}

/// A client that waits for a PID keeps it alive: maintenance within the removal
/// time keeps it, within the demotion time too it keeps its priority, and a PID
/// that is new starts fast.
pub proof fn law_waiting_keeps_a_pid_alive(
    before: Map<Pid, PidInfo>,
    waiting: Map<Pid, PidInfo>,
    after: Map<Pid, PidInfo>,
    done: Maintenance,
    pid: Pid,
    mode: SlowPollMode,
    waited_ns: u64,
    now_ns: u64,
    demotion_ms: u64,
    removal_ms: u64,
)
    requires
        tracked_info(waiting, pid) == Some(
            info_when_waiting(tracked_info(before, pid), mode, waited_ns),
        ),
        maintenance_done(waiting, after, done, now_ns, demotion_ms, removal_ms),
        now_ns - waited_ns <= removal_ms * 1_000_000,
    ensures
        after.contains_key(pid),
        !done.removed@.contains(pid),
        waiting[pid].last_waiter_ns == Some(waited_ns),
        !before.contains_key(pid) ==> waiting[pid].priority == PidPriority::Fast
            && waiting[pid].last_consumed_ns is None && waiting[pid].request_count == 0,
        before.contains_key(pid) ==> waiting[pid].last_consumed_ns == before[pid].last_consumed_ns
            && waiting[pid].request_count == before[pid].request_count,
        before.contains_key(pid) && mode == SlowPollMode::Ratio ==> waiting[pid].priority
            == before[pid].priority,
        mode == SlowPollMode::Interval ==> waiting[pid].priority == PidPriority::Fast,
        now_ns - waited_ns <= demotion_ms * 1_000_000 ==> after[pid].priority
            == waiting[pid].priority,
{
    law_maintenance_drops_what_is_not_used(
        waiting,
        after,
        done,
        now_ns,
        demotion_ms,
        removal_ms,
        pid,
    );
    law_maintenance_slows_what_nobody_waits_for(
        waiting,
        after,
        done,
        now_ns,
        demotion_ms,
        removal_ms,
        pid,
    );
}

/// A slow PID becomes fast on consumption exactly when the ratio decides and the
/// client had to wait for at least the threshold; a hit promotes nothing.
pub proof fn law_long_waits_promote(info: PidInfo, wait_ns: u64, threshold_ms: u64)
    ensures
        promoted_when_consumed(info, Some(wait_ns), SlowPollMode::Ratio, threshold_ms)
            <==> info.priority == PidPriority::Slow && wait_ns >= threshold_ms * 1_000_000,
        !promoted_when_consumed(info, None, SlowPollMode::Ratio, threshold_ms),
        !promoted_when_consumed(info, Some(wait_ns), SlowPollMode::Interval, threshold_ms),
{
}

/// The RPM reads back: two data bytes that hold four times an RPM, high byte
/// first, give that RPM, whatever follows them and whatever other ECUs say.
pub proof fn law_rpm_reads_back(rpm: nat, data: Seq<Seq<u8>>)
    requires
        rpm < 16384,
        data.len() > 0,
        data[0].len() >= 2,
        data[0][0] == (4 * rpm) / 256,
        data[0][1] == (4 * rpm) % 256,
    ensures
        rpm_of_data(data) == Some(rpm),
{
}

/// The RPM counts whole quarters of the number in the first ECU's first two
/// bytes: there is one exactly if there are two bytes, it grows with the number,
/// and numbers four apart give different ones.
pub proof fn law_rpm_grows_with_its_number(a: Seq<Seq<u8>>, b: Seq<Seq<u8>>)
    ensures
        rpm_of_data(a) is Some <==> a.len() > 0 && a[0].len() >= 2,
        rpm_of_data(a) is Some && rpm_of_data(b) is Some ==> ({
            let x = a[0][0] * 256 + a[0][1];
            let y = b[0][0] * 256 + b[0][1];
            &&& 4 * rpm_of_data(a)->0 <= x < 4 * rpm_of_data(a)->0 + 4
            &&& x <= y ==> rpm_of_data(a)->0 <= rpm_of_data(b)->0
            &&& x + 4 <= y ==> rpm_of_data(a)->0 < rpm_of_data(b)->0
        }),
{
}

/// The metrics start from nothing, and only then are they zero.
pub proof fn law_metrics_start_at_zero(m: CacheMetrics)
    ensures
        m.is_zero() <==> m.hits == 0 && m.misses == 0 && m.total_wait_ns == 0,
{
}

/// Taking a value out empties its place and touches no other PID, and so does storing one
/// but for the place itself.
pub proof fn law_values_are_kept_by_pid(
    before: ClientCache,
    after: ClientCache,
    pid: Pid,
    other: Pid,
    data: Seq<Seq<u8>>,
    result: Option<Seq<Seq<u8>>>,
)
    requires
        other != pid,
    ensures
        taken(before, after, pid, result) ==> {
            &&& after.entry(other) == before.entry(other)
            &&& after.entry(pid) == CacheEntry::Empty
            &&& before.entry(pid) matches CacheEntry::Fresh(response) ==> result == Some(response@)
            &&& !(before.entry(pid) is Fresh) ==> result is None
        },
        stored(before, after, pid, data) ==> {
            &&& after.entry(other) == before.entry(other)
            &&& after.entry(pid) is Fresh
            &&& after.entry(pid)->Fresh_0@ == data
        },
{
}

/// A PID that is removed is not slowed down as well.
pub proof fn law_removed_pids_are_not_demoted(
    pid: Pid,
    info: PidInfo,
    now_ns: u64,
    demotion_ms: u64,
    removal_ms: u64,
)
    ensures
        is_removed(pid, info, now_ns, removal_ms) ==> !is_demoted(
            pid,
            info,
            now_ns,
            demotion_ms,
            removal_ms,
        ),
{
}

} // verus!
