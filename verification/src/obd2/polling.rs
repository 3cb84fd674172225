//! Which PIDs are asked for, and in what order.

use crate::leds::NANOS_PER_MS;
use crate::obd2::buffers::{Obd2Buffer, Pid, PidGroup};
use crate::obd2::dongle::{DongleState, FeatureSupport};
use crate::obd2::parse::resolve_pid_data_length;
use crate::obd2::wire::{pid_command, pid_to_wire_command};
use indexmap::IndexSet;
use smallvec::SmallVec;
use vstd::prelude::*;

verus! {

broadcast use vstd::std_specs::hash::group_hash_axioms;

/// RPM PID (always polled).
pub const RPM_PID: Pid = 0x0C;

// ---------------------------------------------------------------------------
// Ordered sets of PIDs
// ---------------------------------------------------------------------------

/// `indexmap::IndexSet`: a hash set that also keeps its items in a sequence.
#[verifier::external_type_specification]
#[verifier::external_body]
#[verifier::reject_recursive_types(T)]
#[verifier::reject_recursive_types(S)]
pub struct ExIndexSet<T, S>(IndexSet<T, S>);

/// PIDs in polling order.
pub type PidSet = IndexSet<u8, std::hash::RandomState>;

/// The items of a set of PIDs, in the order of their indices.
pub uninterp spec fn pid_order(set: IndexSet<u8, std::hash::RandomState>) -> Seq<u8>;

/// A sequence without an item, the last one moved into its place.
pub open spec fn swap_removed(s: Seq<u8>, pid: u8) -> Seq<u8> {
    if s.contains(pid) {
        s.update(s.index_of(pid), s.last()).drop_last()
    } else {
        s
    }
}

/// `IndexSet::new`: a set without items.
#[verifier::external_body]
fn pid_set_new() -> (r: PidSet)
    ensures
        pid_order(r) == Seq::<u8>::empty(),
{
    IndexSet::new()
}

/// `IndexSet::insert` appends an item that is not there yet.
#[verifier::external_body]
fn pid_set_insert(set: &mut PidSet, pid: Pid) -> (r: bool)
    ensures
        r == !pid_order(*old(set)).contains(pid),
        pid_order(*final(set)) == if pid_order(*old(set)).contains(pid) {
            pid_order(*old(set))
        } else {
            pid_order(*old(set)).push(pid)
        },
{
    set.insert(pid)
}

/// `IndexSet::swap_remove` takes an item out, if it is there, and moves the last
/// one into its place.
#[verifier::external_body]
fn pid_set_swap_remove(set: &mut PidSet, pid: Pid) -> (r: bool)
    ensures
        r == pid_order(*old(set)).contains(pid),
        pid_order(*final(set)) == swap_removed(pid_order(*old(set)), pid),
{
    set.swap_remove(&pid)
}

/// `IndexSet::get_index`: the item at an index, if there is one.
#[verifier::external_body]
fn pid_set_get(set: &PidSet, index: usize) -> (r: Option<Pid>)
    ensures
        r == if index < pid_order(*set).len() {
            Some(pid_order(*set)[index as int])
        } else {
            None
        },
{
    set.get_index(index).copied()
}

/// `IndexSet::len`: the number of items.
#[verifier::external_body]
fn pid_set_len(set: &PidSet) -> (r: usize)
    ensures
        r == pid_order(*set).len(),
{
    set.len()
}

proof fn lemma_swap_removed(s: Seq<u8>, pid: u8)
    requires
        s.no_duplicates(),
    ensures
        swap_removed(s, pid).no_duplicates(),
        forall|p: u8| #[trigger] swap_removed(s, pid).contains(p) <==> s.contains(p) && p != pid,
        swap_removed(s, pid).len() == if s.contains(pid) {
            s.len() - 1
        } else {
            s.len() as int
        },
{
    if s.contains(pid) {
        let at = s.index_of(pid);
        let r = swap_removed(s, pid);
        assert(0 <= at < s.len() && s[at] == pid);
        let last = s.len() - 1;
        assert(forall|i: int|
            0 <= i < r.len() ==> #[trigger] r[i] == if i == at {
                s[last]
            } else {
                s[i]
            });
        assert forall|p: u8| #[trigger] r.contains(p) <==> s.contains(p) && p != pid by {
            if r.contains(p) {
                let i = choose|i: int| 0 <= i < r.len() && r[i] == p;
                if i == at {
                    assert(s[last] == p);
                } else {
                    assert(s[i] == p);
                }
            }
            if s.contains(p) && p != pid {
                let i = choose|i: int| 0 <= i < s.len() && s[i] == p;
                if i == last {
                    assert(at != last);
                    assert(r[at] == p);
                } else {
                    assert(r[i] == p);
                }
            }
        }
    }
}

proof fn lemma_push_new(s: Seq<u8>, pid: u8)
    requires
        s.no_duplicates(),
        !s.contains(pid),
    ensures
        s.push(pid).no_duplicates(),
        forall|p: u8| #[trigger] s.push(pid).contains(p) <==> s.contains(p) || p == pid,
{
    let r = s.push(pid);
    assert forall|i: int, j: int| 0 <= i < r.len() && 0 <= j < r.len() && i != j implies r[i]
        != r[j] by {
        if i == s.len() {
            assert(s.contains(s[j]));
        }
        if j == s.len() {
            assert(s.contains(s[i]));
        }
    }
    assert forall|p: u8| #[trigger] r.contains(p) <==> s.contains(p) || p == pid by {
        if s.contains(p) {
            let i = choose|i: int| 0 <= i < s.len() && s[i] == p;
            assert(r[i] == p);
        }
        assert(r[s.len() as int] == pid);
    }
}

// ---------------------------------------------------------------------------
// Polling state
// ---------------------------------------------------------------------------

/// Priority level for PID polling
#[derive(Debug, Clone, Copy, PartialEq, Eq, Structural)]
pub enum PidPriority {
    /// Asked for in turn with the other fast PIDs.
    Fast,
    /// Asked for now and then.
    Slow,
}

/// Slow poll mode: interval-based or ratio-based
#[derive(Debug, Clone, Copy, PartialEq, Eq, Structural)]
pub enum SlowPollMode {
    /// Poll slow PIDs at fixed interval (ms)
    Interval,
    /// Poll 1 slow PID per N fast requests
    Ratio,
}

impl Default for SlowPollMode {
    fn default() -> (r: Self)
        ensures
            r == SlowPollMode::Ratio,
    {
        SlowPollMode::Ratio
    }
}

/// Polling state for the dongle task
pub struct PollingState {
    fast_pids: PidSet,
    slow_pids: PidSet,
    fast_index: usize,
    slow_index: usize,
    /// When a slow PID was last due, on the monotonic clock (ns)
    last_slow_poll_ns: u64,
    fast_requests_since_slow: u32,
}

/// The next PID in a rotation.
pub open spec fn at_turn(order: Seq<u8>, index: int) -> Option<Pid> {
    if order.len() == 0 {
        None
    } else {
        Some(order[index])
    }
}

/// The index after the next PID was taken from a rotation.
pub open spec fn index_after_turn(order: Seq<u8>, index: int) -> int {
    if order.len() == 0 {
        index
    } else {
        (index + 1) % (order.len() as int)
    }
}

/// An index brought back into a rotation.
pub open spec fn index_within(order: Seq<u8>, index: int) -> int {
    if order.len() == 0 {
        0
    } else {
        index % (order.len() as int)
    }
}

/// An index that points into a rotation (or is 0 when that is empty).
pub open spec fn index_valid(order: Seq<u8>, index: int) -> bool {
    0 <= index && (index < order.len() || (order.len() == 0 && index == 0))
}

impl PollingState {
    /// The fast PIDs in polling order.
    pub closed spec fn fast(&self) -> Seq<u8> {
        pid_order(self.fast_pids)
    }

    /// The slow PIDs in polling order.
    pub closed spec fn slow(&self) -> Seq<u8> {
        pid_order(self.slow_pids)
    }

    /// Where the fast rotation stands.
    pub closed spec fn fast_at(&self) -> int {
        self.fast_index as int
    }

    /// Where the slow rotation stands.
    pub closed spec fn slow_at(&self) -> int {
        self.slow_index as int
    }

    /// When a slow PID was last due.
    pub closed spec fn last_slow(&self) -> u64 {
        self.last_slow_poll_ns
    }

    /// Fast requests since a slow PID was last due.
    pub closed spec fn fast_since_slow(&self) -> u32 {
        self.fast_requests_since_slow
    }

    /// No PID is listed twice, within a list or across the two, and both
    /// rotations stand on one of their PIDs.
    pub open spec fn well_formed(&self) -> bool {
        &&& self.fast().no_duplicates()
        &&& self.slow().no_duplicates()
        &&& forall|pid: u8| !(#[trigger] self.fast().contains(pid) && self.slow().contains(pid))
        &&& index_valid(self.fast(), self.fast_at())
        &&& index_valid(self.slow(), self.slow_at())
    }

    /// The priority of each PID that is polled.
    pub open spec fn priorities(&self) -> Map<Pid, PidPriority> {
        Map::new(
            |pid: Pid| self.fast().contains(pid) || self.slow().contains(pid),
            |pid: Pid|
                if self.fast().contains(pid) {
                    PidPriority::Fast
                } else {
                    PidPriority::Slow
                },
        )
    }

    /// Start with RPM in the fast queue.
    pub fn new(now_ns: u64) -> (r: Self)
        ensures
            r.well_formed(),
            r.fast() == seq![RPM_PID],
            r.slow() == Seq::<u8>::empty(),
            r.fast_at() == 0,
            r.slow_at() == 0,
            r.last_slow() == now_ns,
            r.fast_since_slow() == 0,
            r.priorities() == Map::<Pid, PidPriority>::empty().insert(RPM_PID, PidPriority::Fast),
    {
        let mut fast_pids = pid_set_new();
        let inserted: bool = pid_set_insert(&mut fast_pids, RPM_PID);
        assert(pid_order(fast_pids) =~= seq![RPM_PID]);
        let state = PollingState {
            fast_pids,
            slow_pids: pid_set_new(),
            fast_index: 0,
            slow_index: 0,
            last_slow_poll_ns: now_ns,
            fast_requests_since_slow: 0,
        };
        proof {
            assert(state.fast()[0] == RPM_PID);
            assert forall|pid: u8| #[trigger] state.fast().contains(pid) <==> pid == RPM_PID by {}
            assert(state.priorities() =~= Map::<Pid, PidPriority>::empty().insert(
                RPM_PID,
                PidPriority::Fast,
            ));
        }
        state
    }

    /// Take the next fast PID in turn.
    pub fn next_fast_pid(&mut self) -> (r: Option<Pid>)
        requires
            old(self).well_formed(),
        ensures
            final(self).well_formed(),
            r == at_turn(old(self).fast(), old(self).fast_at()),
            final(self).fast_at() == index_after_turn(old(self).fast(), old(self).fast_at()),
            final(self).fast() == old(self).fast(),
            final(self).slow() == old(self).slow(),
            final(self).slow_at() == old(self).slow_at(),
            final(self).last_slow() == old(self).last_slow(),
            final(self).fast_since_slow() == old(self).fast_since_slow(),
    {
        let n: usize = pid_set_len(&self.fast_pids);
        match pid_set_get(&self.fast_pids, self.fast_index) {
            Some(pid) => {
                self.fast_index = if self.fast_index + 1 == n {
                    0
                } else {
                    self.fast_index + 1
                };
                assert(self.fast_at() == index_after_turn(old(self).fast(), old(self).fast_at()))
                    by {
                    if old(self).fast_at() + 1 < n {
                        vstd::arithmetic::div_mod::lemma_small_mod(
                            (old(self).fast_at() + 1) as nat,
                            n as nat,
                        );
                    } else {
                        vstd::arithmetic::div_mod::lemma_mod_self_0(n as int);
                    }
                }
                Some(pid)
            },
            None => None,
        }
    }

    /// Take the next slow PID in turn.
    pub fn next_slow_pid(&mut self) -> (r: Option<Pid>)
        requires
            old(self).well_formed(),
        ensures
            final(self).well_formed(),
            r == at_turn(old(self).slow(), old(self).slow_at()),
            final(self).slow_at() == index_after_turn(old(self).slow(), old(self).slow_at()),
            final(self).fast() == old(self).fast(),
            final(self).slow() == old(self).slow(),
            final(self).fast_at() == old(self).fast_at(),
            final(self).last_slow() == old(self).last_slow(),
            final(self).fast_since_slow() == old(self).fast_since_slow(),
    {
        let n: usize = pid_set_len(&self.slow_pids);
        match pid_set_get(&self.slow_pids, self.slow_index) {
            Some(pid) => {
                self.slow_index = if self.slow_index + 1 == n {
                    0
                } else {
                    self.slow_index + 1
                };
                assert(self.slow_at() == index_after_turn(old(self).slow(), old(self).slow_at()))
                    by {
                    if old(self).slow_at() + 1 < n {
                        vstd::arithmetic::div_mod::lemma_small_mod(
                            (old(self).slow_at() + 1) as nat,
                            n as nat,
                        );
                    } else {
                        vstd::arithmetic::div_mod::lemma_mod_self_0(n as int);
                    }
                }
                Some(pid)
            },
            None => None,
        }
    }

    /// Bring both rotations back into their lists.
    fn fix_indices(&mut self)
        ensures
            final(self).fast() == old(self).fast(),
            final(self).slow() == old(self).slow(),
            final(self).fast_at() == index_within(old(self).fast(), old(self).fast_at()),
            final(self).slow_at() == index_within(old(self).slow(), old(self).slow_at()),
            index_valid(final(self).fast(), final(self).fast_at()),
            index_valid(final(self).slow(), final(self).slow_at()),
            final(self).last_slow() == old(self).last_slow(),
            final(self).fast_since_slow() == old(self).fast_since_slow(),
    {
        let fast_len: usize = pid_set_len(&self.fast_pids);
        self.fast_index = if fast_len == 0 {
            0
        } else {
            self.fast_index % fast_len
        };
        let slow_len: usize = pid_set_len(&self.slow_pids);
        self.slow_index = if slow_len == 0 {
            0
        } else {
            self.slow_index % slow_len
        };
    }

    /// Add a PID or change its priority.
    pub fn set_pid_priority(&mut self, pid: Pid, priority: PidPriority)
        requires
            old(self).well_formed(),
        ensures
            final(self).well_formed(),
            final(self).fast() == match priority {
                PidPriority::Fast => swap_removed(old(self).fast(), pid).push(pid),
                PidPriority::Slow => swap_removed(old(self).fast(), pid),
            },
            final(self).slow() == match priority {
                PidPriority::Fast => swap_removed(old(self).slow(), pid),
                PidPriority::Slow => swap_removed(old(self).slow(), pid).push(pid),
            },
            final(self).fast_at() == index_within(final(self).fast(), old(self).fast_at()),
            final(self).slow_at() == index_within(final(self).slow(), old(self).slow_at()),
            final(self).last_slow() == old(self).last_slow(),
            final(self).fast_since_slow() == old(self).fast_since_slow(),
    {
        proof {
            lemma_swap_removed(self.fast(), pid);
            lemma_swap_removed(self.slow(), pid);
        }
        let ghost fast = swap_removed(self.fast(), pid);
        let ghost slow = swap_removed(self.slow(), pid);
        assert forall|p: u8| !(#[trigger] fast.contains(p) && slow.contains(p)) by {
            assert(!(self.fast().contains(p) && self.slow().contains(p)));
        }
        let was_fast: bool = pid_set_swap_remove(&mut self.fast_pids, pid);
        let was_slow: bool = pid_set_swap_remove(&mut self.slow_pids, pid);
        proof {
            lemma_push_new(fast, pid);
            lemma_push_new(slow, pid);
        }
        match priority {
            PidPriority::Fast => {
                let inserted: bool = pid_set_insert(&mut self.fast_pids, pid);
            },
            PidPriority::Slow => {
                let inserted: bool = pid_set_insert(&mut self.slow_pids, pid);
            },
        }
        self.fix_indices();
        assert forall|p: u8| !(#[trigger] self.fast().contains(p) && self.slow().contains(p)) by {
            assert(!(fast.contains(p) && slow.contains(p)));
        }
    }

    /// Stop polling a PID.
    pub fn remove_pid(&mut self, pid: Pid)
        requires
            old(self).well_formed(),
        ensures
            final(self).well_formed(),
            final(self).fast() == swap_removed(old(self).fast(), pid),
            final(self).slow() == swap_removed(old(self).slow(), pid),
            final(self).fast_at() == index_within(final(self).fast(), old(self).fast_at()),
            final(self).slow_at() == index_within(final(self).slow(), old(self).slow_at()),
            final(self).last_slow() == old(self).last_slow(),
            final(self).fast_since_slow() == old(self).fast_since_slow(),
    {
        proof {
            lemma_swap_removed(self.fast(), pid);
            lemma_swap_removed(self.slow(), pid);
        }
        let ghost before = *self;
        let was_fast: bool = pid_set_swap_remove(&mut self.fast_pids, pid);
        let was_slow: bool = pid_set_swap_remove(&mut self.slow_pids, pid);
        self.fix_indices();
        assert forall|p: u8| !(#[trigger] self.fast().contains(p) && self.slow().contains(p)) by {
            assert(!(before.fast().contains(p) && before.slow().contains(p)));
        }
    }

    /// Follow a message from the cache manager.
    pub fn apply(&mut self, message: DongleMessage)
        requires
            old(self).well_formed(),
        ensures
            final(self).well_formed(),
            final(self).last_slow() == old(self).last_slow(),
            final(self).fast_since_slow() == old(self).fast_since_slow(),
            match message {
                DongleMessage::SetPidPriority(pid, PidPriority::Fast) => {
                    &&& final(self).fast() == swap_removed(old(self).fast(), pid).push(pid)
                    &&& final(self).slow() == swap_removed(old(self).slow(), pid)
                },
                DongleMessage::SetPidPriority(pid, PidPriority::Slow) => {
                    &&& final(self).fast() == swap_removed(old(self).fast(), pid)
                    &&& final(self).slow() == swap_removed(old(self).slow(), pid).push(pid)
                },
                DongleMessage::RemovePid(pid) => {
                    &&& final(self).fast() == swap_removed(old(self).fast(), pid)
                    &&& final(self).slow() == swap_removed(old(self).slow(), pid)
                },
            },
            final(self).fast_at() == index_within(final(self).fast(), old(self).fast_at()),
            final(self).slow_at() == index_within(final(self).slow(), old(self).slow_at()),
            final(self).priorities() == applied(old(self).priorities(), message),
    {
        proof {
            let pid = match message {
                DongleMessage::SetPidPriority(pid, _) => pid,
                DongleMessage::RemovePid(pid) => pid,
            };
            lemma_swap_removed(self.fast(), pid);
            lemma_swap_removed(self.slow(), pid);
            lemma_push_new(swap_removed(self.fast(), pid), pid);
            lemma_push_new(swap_removed(self.slow(), pid), pid);
        }
        match message {
            DongleMessage::SetPidPriority(pid, priority) => self.set_pid_priority(pid, priority),
            DongleMessage::RemovePid(pid) => self.remove_pid(pid),
        }
        assert(self.priorities() =~= applied(old(self).priorities(), message));
    }
}

/// Priorities after a message.
pub open spec fn applied(
    priorities: Map<Pid, PidPriority>,
    message: DongleMessage,
) -> Map<Pid, PidPriority> {
    match message {
        DongleMessage::SetPidPriority(pid, priority) => priorities.insert(pid, priority),
        DongleMessage::RemovePid(pid) => priorities.remove(pid),
    }
}

/// Priorities after several messages, one after the other.
pub open spec fn applied_all(
    priorities: Map<Pid, PidPriority>,
    messages: Seq<DongleMessage>,
) -> Map<Pid, PidPriority>
    decreases messages.len(),
{
    if messages.len() == 0 {
        priorities
    } else {
        applied(applied_all(priorities, messages.drop_last()), messages.last())
    }
}

/// Request to the dongle task (for polling control)
#[derive(Debug, Clone, Copy, PartialEq, Eq, Structural)]
pub enum DongleMessage {
    /// Add or update a PID's priority
    SetPidPriority(Pid, PidPriority),
    /// Remove a PID from polling
    RemovePid(Pid),
}

// ---------------------------------------------------------------------------
// One PID per query
// ---------------------------------------------------------------------------

/// Whether several PIDs go into one query: if that is wanted and the ECU is not
/// known to refuse it.
pub fn polls_in_batches(use_multi_pid: bool, supports_multi_pid: FeatureSupport) -> (r: bool)
    ensures
        r == (use_multi_pid && supports_multi_pid != FeatureSupport::No),
{
    use_multi_pid && supports_multi_pid != FeatureSupport::No
}

/// A slow PID is due: the interval is over, or enough fast requests were made.
pub open spec fn slow_due(
    mode: SlowPollMode,
    interval_ms: u64,
    ratio: u32,
    elapsed_ns: int,
    fast_requests: u32,
) -> bool {
    match mode {
        SlowPollMode::Interval => elapsed_ns >= interval_ms * NANOS_PER_MS,
        SlowPollMode::Ratio => fast_requests >= ratio,
    }
}

/// The time between two readings of the clock; none if it ran backwards.
pub open spec fn elapsed_between(from_ns: u64, to_ns: u64) -> int {
    if to_ns >= from_ns {
        to_ns - from_ns
    } else {
        0
    }
}

impl PollingState {
    /// The counter has room for the fast request of a round.
    pub open spec fn room_for_round(&self) -> bool {
        self.fast().len() > 0 ==> self.fast_since_slow() < u32::MAX
    }

    /// Whether the counter has room for the fast request of a round.
    pub fn has_room(&self) -> (r: bool)
        ensures
            r == self.room_for_round(),
    {
        pid_set_len(&self.fast_pids) == 0 || self.fast_requests_since_slow < u32::MAX
    }

    /// Start a round of single-PID polling: one fast PID, in turn.
    pub fn start_round(&mut self) -> (r: Option<Pid>)
        requires
            old(self).well_formed(),
            old(self).room_for_round(),
        ensures
            final(self).well_formed(),
            r == at_turn(old(self).fast(), old(self).fast_at()),
            final(self).fast_at() == index_after_turn(old(self).fast(), old(self).fast_at()),
            final(self).fast() == old(self).fast(),
            final(self).slow() == old(self).slow(),
            final(self).slow_at() == old(self).slow_at(),
            final(self).last_slow() == old(self).last_slow(),
            final(self).fast_since_slow() == if r is Some {
                old(self).fast_since_slow() + 1
            } else {
                old(self).fast_since_slow() as int
            },
    {
        let pid: Option<Pid> = self.next_fast_pid();
        if pid.is_some() {
            self.fast_requests_since_slow = self.fast_requests_since_slow + 1;
        }
        pid
    }

    /// End a round of single-PID polling: one slow PID, in turn, if one is due.
    ///
    /// The turn is used up even if the connection was lost meanwhile and the PID
    /// cannot be asked for.
    pub fn end_round(
        &mut self,
        mode: SlowPollMode,
        interval_ms: u64,
        ratio: u32,
        now_ns: u64,
        connected: bool,
    ) -> (r: Option<Pid>)
        requires
            old(self).well_formed(),
        ensures
            final(self).well_formed(),
            final(self).fast() == old(self).fast(),
            final(self).slow() == old(self).slow(),
            final(self).fast_at() == old(self).fast_at(),
            ({
                let due = slow_due(
                    mode,
                    interval_ms,
                    ratio,
                    elapsed_between(old(self).last_slow(), now_ns),
                    old(self).fast_since_slow(),
                );
                &&& r == if due && connected {
                    at_turn(old(self).slow(), old(self).slow_at())
                } else {
                    None
                }
                &&& final(self).slow_at() == if due {
                    index_after_turn(old(self).slow(), old(self).slow_at())
                } else {
                    old(self).slow_at()
                }
                &&& final(self).last_slow() == if due {
                    now_ns
                } else {
                    old(self).last_slow()
                }
                &&& final(self).fast_since_slow() == if due {
                    0
                } else {
                    old(self).fast_since_slow()
                }
            }),
    {
        let elapsed: u64 = now_ns.saturating_sub(self.last_slow_poll_ns);
        let due: bool = match mode {
            SlowPollMode::Interval => elapsed as u128 >= interval_ms as u128 * NANOS_PER_MS,
            SlowPollMode::Ratio => self.fast_requests_since_slow >= ratio,
        };
        if !due {
            return None;
        }
        let pid: Option<Pid> = self.next_slow_pid();
        self.last_slow_poll_ns = now_ns;
        self.fast_requests_since_slow = 0;
        if connected {
            pid
        } else {
            None
        }
    }
}

// ---------------------------------------------------------------------------
// Several PIDs per query
// ---------------------------------------------------------------------------

/// The number of ECUs that a PID can be batched by: known once both its data
/// length and its ECU count are.
pub open spec fn batch_key(
    pid: Pid,
    lengths: Seq<Option<u8>>,
    counts: Map<Pid, u8>,
) -> Option<u8> {
    if lengths[pid as int] is Some && counts.contains_key(pid) {
        Some(counts[pid])
    } else {
        None
    }
}

/// The PIDs with a given key, in order.
pub open spec fn pids_with_key(
    pids: Seq<Pid>,
    key: Option<u8>,
    lengths: Seq<Option<u8>>,
    counts: Map<Pid, u8>,
) -> Seq<Pid>
    decreases pids.len(),
{
    if pids.len() == 0 {
        Seq::empty()
    } else if batch_key(pids.last(), lengths, counts) == key {
        pids_with_key(pids.drop_last(), key, lengths, counts).push(pids.last())
    } else {
        pids_with_key(pids.drop_last(), key, lengths, counts)
    }
}

/// A key and the PIDs that share it.
pub struct KeyedGroup {
    /// The number of ECUs, where it is known.
    pub key: Option<u8>,
    /// The PIDs.
    pub pids: PidGroup,
}

impl View for KeyedGroup {
    type V = (Option<u8>, Seq<Pid>);

    open spec fn view(&self) -> (Option<u8>, Seq<Pid>) {
        (self.key, self.pids@)
    }
}

/// The views of groups.
pub open spec fn group_views(groups: Seq<KeyedGroup>) -> Seq<(Option<u8>, Seq<Pid>)> {
    groups.map_values(|group: KeyedGroup| group@)
}

/// The groups of a round of polling. Mostly there are no more than four.
#[verifier::external_body]
pub struct PidGroups {
    inner: SmallVec<[KeyedGroup; 4]>,
}

/// The key and the PIDs of each of the groups.
pub uninterp spec fn keyed_pids(groups: PidGroups) -> Seq<(Option<u8>, Seq<u8>)>;

impl View for PidGroups {
    type V = Seq<(Option<u8>, Seq<Pid>)>;

    open spec fn view(&self) -> Seq<(Option<u8>, Seq<Pid>)> {
        keyed_pids(*self)
    }
}

impl PidGroups {
    /// `SmallVec::from_vec` takes over the items of a vector, in order.
    #[verifier::external_body]
    fn from_vec(groups: Vec<KeyedGroup>) -> (r: Self)
        ensures
            keyed_pids(r) == group_views(groups@),
    {
        PidGroups { inner: SmallVec::from_vec(groups) }
    }

    /// `SmallVec::as_slice`: the groups, in order.
    #[verifier::external_body]
    fn as_slice(&self) -> (r: &[KeyedGroup])
        ensures
            group_views(r@) == keyed_pids(*self),
    {
        self.inner.as_slice()
    }

    /// The groups, in order.
    pub fn groups(&self) -> (r: &[KeyedGroup])
        ensures
            group_views(r@) == self@,
    {
        self.as_slice()
    }
}

/// The groups hold all PIDs, each under its key, in order; no key comes twice
/// and no group is empty.
pub open spec fn partitions(
    groups: Seq<(Option<u8>, Seq<Pid>)>,
    pids: Seq<Pid>,
    lengths: Seq<Option<u8>>,
    counts: Map<Pid, u8>,
) -> bool {
    &&& forall|i: int, j: int|
        0 <= i < groups.len() && 0 <= j < groups.len() && i != j ==> (#[trigger] groups[i]).0 != (
        #[trigger] groups[j]).0
    &&& forall|i: int|
        0 <= i < groups.len() ==> (#[trigger] groups[i]).1 == pids_with_key(
            pids,
            groups[i].0,
            lengths,
            counts,
        ) && groups[i].1.len() > 0
    &&& forall|k: int|
        0 <= k < pids.len() ==> has_key(
            groups,
            batch_key(#[trigger] pids[k], lengths, counts),
        )
}

/// One of the groups has the key.
pub open spec fn has_key(groups: Seq<(Option<u8>, Seq<Pid>)>, key: Option<u8>) -> bool {
    exists|i: int| 0 <= i < groups.len() && (#[trigger] groups[i]).0 == key
}

fn find_key(groups: &Vec<KeyedGroup>, key: Option<u8>) -> (r: Option<usize>)
    ensures
        match r {
            Some(i) => i < groups@.len() && groups@[i as int].key == key,
            None => !has_key(group_views(groups@), key),
        },
{
    let mut i: usize = 0;
    while i < groups.len()
        invariant
            i <= groups@.len(),
            forall|j: int| 0 <= j < i ==> (#[trigger] group_views(groups@)[j]).0 != key,
        decreases groups@.len() - i,
    {
        let same: bool = match (groups[i].key, key) {
            (Some(a), Some(b)) => a == b,
            (None, None) => true,
            _ => false,
        };
        if same {
            return Some(i);
        }
        i = i + 1;
    }
    None
}

impl PollingState {
    /// All PIDs that are polled, the fast ones first.
    pub open spec fn active(&self) -> Seq<Pid> {
        self.fast() + self.slow()
    }

    /// Partition active PIDs by learned ECU count for multi-PID batching.
    ///
    /// Returns groups keyed by `Option<u8>` ECU count:
    /// - `Some(count)`: PIDs with known data length and ECU count, batchable in multi-PID queries
    /// - `None`: PIDs needing individual queries to learn their ECU count or data length
    pub fn partition_pids_by_ecu_count(&self, dongle: &DongleState) -> (r: PidGroups)
        ensures
            partitions(r@, self.active(), dongle.pid_lengths@, dongle.response_counts@),
    {
        let ghost lengths = dongle.pid_lengths@;
        let ghost counts = dongle.response_counts@;
        let ghost all = self.active();
        let fast_len: usize = pid_set_len(&self.fast_pids);
        let slow_len: usize = pid_set_len(&self.slow_pids);
        let mut groups: Vec<KeyedGroup> = Vec::new();
        let mut i: usize = 0;
        assert(all.take(0) =~= Seq::empty());
        assert(group_views(groups@) =~= Seq::empty());
        while i < fast_len
            invariant
                i <= fast_len == self.fast().len(),
                all == self.fast() + self.slow(),
                lengths == dongle.pid_lengths@,
                counts == dongle.response_counts@,
                partitions(group_views(groups@), all.take(i as int), lengths, counts),
            decreases fast_len - i,
        {
            match pid_set_get(&self.fast_pids, i) {
                Some(pid) => {
                    assert(all.take(i + 1) =~= all.take(i as int).push(pid));
                    add_to_group(&mut groups, pid, dongle, Ghost(all.take(i as int)));
                },
                None => {},
            }
            i = i + 1;
        }
        let mut k: usize = 0;
        while k < slow_len
            invariant
                k <= slow_len == self.slow().len(),
                fast_len == self.fast().len(),
                all == self.fast() + self.slow(),
                lengths == dongle.pid_lengths@,
                counts == dongle.response_counts@,
                partitions(group_views(groups@), all.take(fast_len + k), lengths, counts),
            decreases slow_len - k,
        {
            match pid_set_get(&self.slow_pids, k) {
                Some(pid) => {
                    assert(all.take(fast_len + k + 1) =~= all.take(fast_len + k).push(pid));
                    add_to_group(&mut groups, pid, dongle, Ghost(all.take(fast_len + k)));
                },
                None => {},
            }
            k = k + 1;
        }
        assert(all.take(fast_len + k) =~= all);
        PidGroups::from_vec(groups)
    }

    /// The commands of the PIDs that are polled, for display: the fast ones and
    /// the slow ones, each in polling order.
    pub fn polled_commands(&self) -> (r: (Vec<Obd2Buffer>, Vec<Obd2Buffer>))
        ensures
            commands_of(r.0@, self.fast()),
            commands_of(r.1@, self.slow()),
    {
        (set_commands(&self.fast_pids), set_commands(&self.slow_pids))
    }
}

/// The commands for PIDs, in order.
pub open spec fn commands_of(commands: Seq<Obd2Buffer>, pids: Seq<Pid>) -> bool {
    &&& commands.len() == pids.len()
    &&& forall|i: int| 0 <= i < pids.len() ==> (#[trigger] commands[i])@ == pid_command(pids[i])
}

fn set_commands(set: &PidSet) -> (r: Vec<Obd2Buffer>)
    ensures
        commands_of(r@, pid_order(*set)),
{
    let n: usize = pid_set_len(set);
    let mut commands: Vec<Obd2Buffer> = Vec::new();
    let mut i: usize = 0;
    while i < n
        invariant
            i <= n == pid_order(*set).len(),
            commands@.len() == i,
            forall|j: int|
                0 <= j < i ==> (#[trigger] commands@[j])@ == pid_command(pid_order(*set)[j]),
        decreases n - i,
    {
        match pid_set_get(set, i) {
            Some(pid) => {
                commands.push(pid_to_wire_command(pid));
            },
            None => {},
        }
        i = i + 1;
    }
    commands
}

/// Put one more PID under its key.
fn add_to_group(
    groups: &mut Vec<KeyedGroup>,
    pid: Pid,
    dongle: &DongleState,
    Ghost(before): Ghost<Seq<Pid>>,
)
    requires
        partitions(
            group_views(old(groups)@),
            before,
            dongle.pid_lengths@,
            dongle.response_counts@,
        ),
    ensures
        partitions(
            group_views(final(groups)@),
            before.push(pid),
            dongle.pid_lengths@,
            dongle.response_counts@,
        ),
{
    let ghost lengths = dongle.pid_lengths@;
    let ghost counts = dongle.response_counts@;
    let ghost after = before.push(pid);
    let ghost were = group_views(groups@);
    let key: Option<u8> = if resolve_pid_data_length(pid, &dongle.pid_lengths).is_some() {
        match dongle.response_counts.get(&pid) {
            Some(count) => Some(*count),
            None => None,
        }
    } else {
        None
    };
    assert(key == batch_key(pid, lengths, counts));
    assert(after.drop_last() =~= before);
    match find_key(groups, key) {
        Some(i) => {
            let mut group = groups.swap_remove(i);
            assert(group@ == were[i as int]);
            group.pids.push(pid);
            groups.push(group);
            let ghost are = group_views(groups@);
            let ghost last = are.len() - 1;
            assert(are[last].1 == pids_with_key(after, key, lengths, counts));
            assert forall|j: int| 0 <= j < are.len() implies (#[trigger] are[j]).1
                == pids_with_key(after, are[j].0, lengths, counts) && are[j].1.len() > 0 by {
                if j != last {
                    let from = if j == i as int { last } else { j };
                    assert(are[j] == were[from]);
                    assert(were[from].0 != were[i as int].0);
                }
            }
            assert forall|k: int| 0 <= k < after.len() implies has_key(
                are,
                batch_key(#[trigger] after[k], lengths, counts),
            ) by {
                let wanted = batch_key(after[k], lengths, counts);
                if wanted == key {
                    assert(are[last].0 == wanted);
                } else {
                    assert(after[k] == before[k]);
                    assert(has_key(were, wanted));
                    let from = choose|j: int|
                        0 <= j < were.len() && (#[trigger] were[j]).0 == wanted;
                    let to = if from == last { i as int } else { from };
                    assert(are[to] == were[from]);
                }
            }
            assert forall|a: int, b: int|
                0 <= a < are.len() && 0 <= b < are.len() && a != b implies (#[trigger] are[a]).0
                != (#[trigger] are[b]).0 by {
                let fa = if a == last { i as int } else if a == i as int { last } else { a };
                let fb = if b == last { i as int } else if b == i as int { last } else { b };
                assert(are[a].0 == were[fa].0);
                assert(are[b].0 == were[fb].0);
                assert(fa != fb);
            }
        },
        None => {
            let mut pids = PidGroup::new();
            pids.push(pid);
            groups.push(KeyedGroup { key, pids });
            let ghost are = group_views(groups@);
            let ghost last = are.len() - 1;
            proof {
                lemma_no_pid_with_key(before, key, lengths, counts, were);
            }
            assert(are[last].1 =~= pids_with_key(after, key, lengths, counts));
            assert forall|j: int| 0 <= j < are.len() implies (#[trigger] are[j]).1
                == pids_with_key(after, are[j].0, lengths, counts) && are[j].1.len() > 0 by {
                if j != last {
                    assert(are[j] == were[j]);
                    assert(has_key(were, were[j].0));
                }
            }
            assert forall|k: int| 0 <= k < after.len() implies has_key(
                are,
                batch_key(#[trigger] after[k], lengths, counts),
            ) by {
                let wanted = batch_key(after[k], lengths, counts);
                if k == before.len() {
                    assert(are[last].0 == wanted);
                } else {
                    assert(after[k] == before[k]);
                    assert(has_key(were, wanted));
                    let from = choose|j: int|
                        0 <= j < were.len() && (#[trigger] were[j]).0 == wanted;
                    assert(are[from] == were[from]);
                }
            }
            assert forall|a: int, b: int|
                0 <= a < are.len() && 0 <= b < are.len() && a != b implies (#[trigger] are[a]).0
                != (#[trigger] are[b]).0 by {
                if a == last {
                    assert(are[b] == were[b]);
                    assert(has_key(were, were[b].0));
                } else if b == last {
                    assert(are[a] == were[a]);
                    assert(has_key(were, were[a].0));
                } else {
                    assert(are[a] == were[a] && are[b] == were[b]);
                }
            }
        },
    }
}

/// Without a group for a key there is no PID with it.
proof fn lemma_no_pid_with_key(
    pids: Seq<Pid>,
    key: Option<u8>,
    lengths: Seq<Option<u8>>,
    counts: Map<Pid, u8>,
    groups: Seq<(Option<u8>, Seq<Pid>)>,
)
    requires
        !has_key(groups, key),
        forall|k: int|
            0 <= k < pids.len() ==> has_key(groups, batch_key(#[trigger] pids[k], lengths, counts)),
    ensures
        pids_with_key(pids, key, lengths, counts) == Seq::<Pid>::empty(),
    decreases pids.len(),
{
    if pids.len() > 0 {
        assert(has_key(groups, batch_key(pids[pids.len() - 1], lengths, counts)));
        assert forall|k: int| 0 <= k < pids.drop_last().len() implies has_key(
            groups,
            batch_key(#[trigger] pids.drop_last()[k], lengths, counts),
        ) by {
            assert(pids.drop_last()[k] == pids[k]);
        }
        lemma_no_pid_with_key(pids.drop_last(), key, lengths, counts, groups);
    }
}

/// A query of a polling round.
pub enum PollQuery {
    /// Ask for one PID.
    Single(Pid),
    /// Ask for several PIDs at once, with the number of ECUs to wait for.
    Batch(PidGroup, u8),
}

impl View for PollQuery {
    /// The PIDs, and the number of ECUs where they are batched.
    type V = (Seq<Pid>, Option<u8>);

    open spec fn view(&self) -> (Seq<Pid>, Option<u8>) {
        match *self {
            PollQuery::Single(pid) => (seq![pid], None),
            PollQuery::Batch(pids, count) => (pids@, Some(count)),
        }
    }
}

/// The most PIDs that go into one query: the configured number, but 1 to 6.
pub open spec fn chunk_size(max_pids: u8) -> nat {
    if max_pids < 1 {
        1
    } else if max_pids > 6 {
        6
    } else {
        max_pids as nat
    }
}

/// The queries for the PIDs of one group: one each if their ECU count is not
/// known, or if a query holds no more than one, else in chunks, where a single PID
/// left over is asked for alone.
pub open spec fn group_queries(key: Option<u8>, pids: Seq<Pid>, chunk: nat) -> Seq<
    (Seq<Pid>, Option<u8>),
>
    decreases pids.len(),
{
    if pids.len() == 0 || chunk == 0 {
        Seq::empty()
    } else if key is None || pids.len() == 1 || chunk == 1 {
        seq![(seq![pids[0]], None)] + group_queries(key, pids.skip(1), chunk)
    } else if pids.len() <= chunk {
        seq![(pids, key)]
    } else {
        seq![(pids.take(chunk as int), key)] + group_queries(key, pids.skip(chunk as int), chunk)
    }
}

/// The queries for several groups, in order.
pub open spec fn groups_queries(groups: Seq<(Option<u8>, Seq<Pid>)>, chunk: nat) -> Seq<
    (Seq<Pid>, Option<u8>),
>
    decreases groups.len(),
{
    if groups.len() == 0 {
        Seq::empty()
    } else {
        groups_queries(groups.drop_last(), chunk) + group_queries(
            groups.last().0,
            groups.last().1,
            chunk,
        )
    }
}

/// The views of queries.
pub open spec fn query_views(queries: Seq<PollQuery>) -> Seq<(Seq<Pid>, Option<u8>)> {
    queries.map_values(|query: PollQuery| query@)
}

/// The queries of a round of multi-PID polling: each group in chunks of at most
/// `max_pids` PIDs, PIDs whose ECU count or data length is unknown one by one.
pub fn plan_queries(groups: &PidGroups, max_pids: u8) -> (r: Vec<PollQuery>)
    ensures
        query_views(r@) == groups_queries(groups@, chunk_size(max_pids)),
{
    let chunk: usize = if max_pids < 1 {
        1
    } else if max_pids > 6 {
        6
    } else {
        max_pids as usize
    };
    let all = groups.groups();
    let mut queries: Vec<PollQuery> = Vec::new();
    let mut i: usize = 0;
    assert(query_views(queries@) =~= Seq::empty());
    assert(groups@.take(0) =~= Seq::empty());
    while i < all.len()
        invariant
            i <= all@.len() == groups@.len(),
            groups@ == group_views(all@),
            chunk == chunk_size(max_pids),
            query_views(queries@) == groups_queries(groups@.take(i as int), chunk as nat),
        decreases groups@.len() - i,
    {
        plan_group(&mut queries, all[i].key, all[i].pids.bytes(), chunk);
        assert(groups@[i as int] == all@[i as int]@);
        assert(groups@.take(i + 1).drop_last() =~= groups@.take(i as int));
        i = i + 1;
    }
    assert(groups@.take(i as int) =~= groups@);
    queries
}

/// Append the queries of one group.
fn plan_group(queries: &mut Vec<PollQuery>, key: Option<u8>, pids: &[Pid], chunk: usize)
    requires
        1 <= chunk <= 6,
    ensures
        query_views(final(queries)@) == query_views(old(queries)@) + group_queries(
            key,
            pids@,
            chunk as nat,
        ),
{
    let n: usize = pids.len();
    let ghost before = query_views(queries@);
    let ghost all = group_queries(key, pids@, chunk as nat);
    let mut i: usize = 0;
    assert(pids@.skip(0) =~= pids@);
    while i < n
        invariant
            i <= n == pids@.len(),
            1 <= chunk <= 6,
            query_views(queries@) + group_queries(key, pids@.skip(i as int), chunk as nat)
                == before + all,
        decreases n - i,
    {
        let ghost rest = pids@.skip(i as int);
        let ghost done = query_views(queries@);
        match key {
            Some(count) => {
                let left: usize = n - i;
                if left == 1 || chunk == 1 {
                    let query = PollQuery::Single(pids[i]);
                    assert(rest.skip(1) =~= pids@.skip(i + 1));
                    queries.push(query);
                    assert(query_views(queries@) =~= done.push((seq![pids@[i as int]], None)));
                    assert(done + (seq![(seq![rest[0]], None)] + group_queries(
                        key,
                        rest.skip(1),
                        chunk as nat,
                    )) =~= query_views(queries@) + group_queries(
                        key,
                        pids@.skip(i + 1),
                        chunk as nat,
                    ));
                    i = i + 1;
                } else {
                    let take: usize = if left < chunk {
                        left
                    } else {
                        chunk
                    };
                    let batch = PidGroup::of(vstd::slice::slice_subrange(pids, i, i + take));
                    assert(batch@ =~= rest.take(take as int));
                    assert(rest.skip(take as int) =~= pids@.skip(i + take));
                    let ghost view = (batch@, Some(count));
                    queries.push(PollQuery::Batch(batch, count));
                    assert(query_views(queries@) =~= done.push(view));
                    proof {
                        if left <= chunk {
                            assert(batch@ =~= rest);
                            assert(group_queries(key, rest.skip(take as int), chunk as nat)
                                =~= Seq::empty());
                            assert(group_queries(key, rest, chunk as nat) =~= seq![view]);
                        }
                        assert(group_queries(key, rest, chunk as nat) =~= seq![view]
                            + group_queries(key, rest.skip(take as int), chunk as nat));
                        assert(done + (seq![view] + group_queries(
                            key,
                            pids@.skip(i + take),
                            chunk as nat,
                        )) =~= query_views(queries@) + group_queries(
                            key,
                            pids@.skip(i + take),
                            chunk as nat,
                        ));
                    }
                    i = i + take;
                }
            },
            None => {
                assert(rest.skip(1) =~= pids@.skip(i + 1));
                queries.push(PollQuery::Single(pids[i]));
                assert(query_views(queries@) =~= done.push((seq![pids@[i as int]], None)));
                assert(done + (seq![(seq![rest[0]], None)] + group_queries(
                    key,
                    rest.skip(1),
                    chunk as nat,
                )) =~= query_views(queries@) + group_queries(
                    key,
                    pids@.skip(i + 1),
                    chunk as nat,
                ));
                i = i + 1;
            },
        }
    }
    assert(query_views(queries@) + group_queries(key, pids@.skip(i as int), chunk as nat)
        =~= query_views(queries@));
}

/// Whether a round of multi-PID polling goes on after a query: not without a
/// connection, and not once a batch showed that the ECU refuses batches. The
/// next round then asks for one PID at a time.
pub fn round_goes_on(
    query: &PollQuery,
    connected: bool,
    supports_multi_pid: FeatureSupport,
) -> (r: bool)
    ensures
        r == (connected && !(query is Batch && supports_multi_pid == FeatureSupport::No)),
{
    let batch: bool = match query {
        PollQuery::Single(_) => false,
        PollQuery::Batch(_, _) => true,
    };
    connected && !(batch && supports_multi_pid == FeatureSupport::No)
}

// ---------------------------------------------------------------------------
// Laws
// ---------------------------------------------------------------------------

/// The PIDs of several groups, one after the other.
pub open spec fn grouped_pids(groups: Seq<(Option<u8>, Seq<Pid>)>) -> Seq<Pid>
    decreases groups.len(),
{
    if groups.len() == 0 {
        Seq::empty()
    } else {
        grouped_pids(groups.drop_last()) + groups.last().1
    }
}

/// The PIDs that queries ask for, one after the other.
pub open spec fn queried_pids(queries: Seq<(Seq<Pid>, Option<u8>)>) -> Seq<Pid>
    decreases queries.len(),
{
    if queries.len() == 0 {
        Seq::empty()
    } else {
        queried_pids(queries.drop_last()) + queries.last().0
    }
}

proof fn lemma_queried_pids_concat(
    a: Seq<(Seq<Pid>, Option<u8>)>,
    b: Seq<(Seq<Pid>, Option<u8>)>,
)
    ensures
        queried_pids(a + b) == queried_pids(a) + queried_pids(b),
    decreases b.len(),
{
    if b.len() == 0 {
        assert(a + b =~= a);
        assert(queried_pids(a) + queried_pids(b) =~= queried_pids(a));
    } else {
        lemma_queried_pids_concat(a, b.drop_last());
        assert((a + b).drop_last() =~= a + b.drop_last());
        assert(queried_pids(a) + queried_pids(b.drop_last()) + b.last().0 =~= queried_pids(a) + (
        queried_pids(b.drop_last()) + b.last().0));
    }
}

proof fn lemma_one_query(query: (Seq<Pid>, Option<u8>))
    ensures
        queried_pids(seq![query]) == query.0,
{
    assert(seq![query].drop_last() =~= Seq::empty());
    assert(queried_pids(seq![query].drop_last()) + query.0 =~= query.0);
}

proof fn lemma_group_asks_for_its_pids(key: Option<u8>, pids: Seq<Pid>, chunk: nat)
    requires
        chunk > 0,
    ensures
        queried_pids(group_queries(key, pids, chunk)) == pids,
        forall|i: int|
            0 <= i < group_queries(key, pids, chunk).len() ==> {
                &&& 1 <= (#[trigger] group_queries(key, pids, chunk)[i]).0.len() <= chunk
            },
    decreases pids.len(),
{
    if pids.len() == 0 {
        assert(queried_pids(Seq::<(Seq<Pid>, Option<u8>)>::empty()) =~= pids);
    } else if key is None || pids.len() == 1 || chunk == 1 {
        let head = (seq![pids[0]], None::<u8>);
        let tail = group_queries(key, pids.skip(1), chunk);
        lemma_group_asks_for_its_pids(key, pids.skip(1), chunk);
        lemma_queried_pids_concat(seq![head], tail);
        lemma_one_query(head);
        assert(seq![pids[0]] + pids.skip(1) =~= pids);
    } else if pids.len() <= chunk {
        lemma_one_query((pids, key));
    } else {
        let head = (pids.take(chunk as int), key);
        let tail = group_queries(key, pids.skip(chunk as int), chunk);
        lemma_group_asks_for_its_pids(key, pids.skip(chunk as int), chunk);
        lemma_queried_pids_concat(seq![head], tail);
        lemma_one_query(head);
        assert(pids.take(chunk as int) + pids.skip(chunk as int) =~= pids);
    }
}

/// A round of multi-PID polling asks for the PIDs of every group, in order and
/// once each, and never for more than `max_pids` in one query, nor for more than
/// six.
pub proof fn law_round_asks_for_every_pid(groups: Seq<(Option<u8>, Seq<Pid>)>, max_pids: u8)
    ensures
        queried_pids(groups_queries(groups, chunk_size(max_pids))) == grouped_pids(groups),
        forall|i: int|
            0 <= i < groups_queries(groups, chunk_size(max_pids)).len() ==> {
                let asked = (#[trigger] groups_queries(groups, chunk_size(max_pids))[i]).0.len();
                &&& 1 <= asked <= 6
                &&& 1 <= max_pids ==> asked <= max_pids
            },
    decreases groups.len(),
{
    let chunk = chunk_size(max_pids);
    if groups.len() > 0 {
        law_round_asks_for_every_pid(groups.drop_last(), max_pids);
        lemma_group_asks_for_its_pids(groups.last().0, groups.last().1, chunk);
        lemma_queried_pids_concat(
            groups_queries(groups.drop_last(), chunk),
            group_queries(groups.last().0, groups.last().1, chunk),
        );
    }
}

/// Each query is one that its PIDs can share: those of a batch all have a known
/// data length and the ECU count that the batch waits for, and any other PID is
/// asked for alone.
pub open spec fn fits_its_pids(
    query: (Seq<Pid>, Option<u8>),
    lengths: Seq<Option<u8>>,
    counts: Map<Pid, u8>,
) -> bool {
    match query.1 {
        Some(count) => forall|k: int|
            0 <= k < query.0.len() ==> {
                &&& lengths[(#[trigger] query.0[k]) as int] is Some
                &&& counts.contains_key(query.0[k])
                &&& counts[query.0[k]] == count
            },
        None => query.0.len() == 1,
    }
}

proof fn lemma_group_fits(
    key: Option<u8>,
    pids: Seq<Pid>,
    chunk: nat,
    lengths: Seq<Option<u8>>,
    counts: Map<Pid, u8>,
)
    requires
        forall|k: int| 0 <= k < pids.len() ==> batch_key(#[trigger] pids[k], lengths, counts) == key,
    ensures
        forall|i: int|
            0 <= i < group_queries(key, pids, chunk).len() ==> fits_its_pids(
                #[trigger] group_queries(key, pids, chunk)[i],
                lengths,
                counts,
            ),
    decreases pids.len(),
{
    let queries = group_queries(key, pids, chunk);
    if pids.len() == 0 || chunk == 0 {
    } else if key is None || pids.len() == 1 || chunk == 1 {
        let tail = group_queries(key, pids.skip(1), chunk);
        lemma_group_fits(key, pids.skip(1), chunk, lengths, counts);
        assert forall|i: int| 0 <= i < queries.len() implies fits_its_pids(
            #[trigger] queries[i],
            lengths,
            counts,
        ) by {
            if i > 0 {
                assert(queries[i] == tail[i - 1]);
            }
        }
    } else if pids.len() > chunk {
        let tail = group_queries(key, pids.skip(chunk as int), chunk);
        lemma_group_fits(key, pids.skip(chunk as int), chunk, lengths, counts);
        assert forall|i: int| 0 <= i < queries.len() implies fits_its_pids(
            #[trigger] queries[i],
            lengths,
            counts,
        ) by {
            if i > 0 {
                assert(queries[i] == tail[i - 1]);
            }
        }
    }
}

proof fn lemma_groups_fit(
    groups: Seq<(Option<u8>, Seq<Pid>)>,
    pids: Seq<Pid>,
    chunk: nat,
    lengths: Seq<Option<u8>>,
    counts: Map<Pid, u8>,
)
    requires
        forall|i: int|
            0 <= i < groups.len() ==> (#[trigger] groups[i]).1 == pids_with_key(
                pids,
                groups[i].0,
                lengths,
                counts,
            ),
    ensures
        forall|i: int|
            0 <= i < groups_queries(groups, chunk).len() ==> fits_its_pids(
                #[trigger] groups_queries(groups, chunk)[i],
                lengths,
                counts,
            ),
    decreases groups.len(),
{
    if groups.len() > 0 {
        let (key, last) = groups.last();
        lemma_groups_fit(groups.drop_last(), pids, chunk, lengths, counts);
        assert(groups[groups.len() - 1].1 == last);
        assert forall|k: int| 0 <= k < last.len() implies batch_key(
            #[trigger] last[k],
            lengths,
            counts,
        ) == key by {
            assert(last.contains(last[k]));
            lemma_pid_under_its_key(pids, last[k], key, lengths, counts);
        }
        lemma_group_fits(key, last, chunk, lengths, counts);
        let front = groups_queries(groups.drop_last(), chunk);
        let back = group_queries(key, last, chunk);
        let queries = groups_queries(groups, chunk);
        assert(queries == front + back);
        assert forall|i: int| 0 <= i < queries.len() implies fits_its_pids(
            #[trigger] queries[i],
            lengths,
            counts,
        ) by {
            if i < front.len() {
                assert(queries[i] == front[i]);
            } else {
                assert(queries[i] == back[i - front.len()]);
            }
        }
    }
}

/// PIDs that share a query all have known data lengths and one ECU count, which
/// the query waits for; a PID with an unknown length or count is asked for alone.
pub proof fn law_batches_share_ecu_count(
    groups: Seq<(Option<u8>, Seq<Pid>)>,
    pids: Seq<Pid>,
    lengths: Seq<Option<u8>>,
    counts: Map<Pid, u8>,
    max_pids: u8,
    i: int,
)
    requires
        partitions(groups, pids, lengths, counts),
        0 <= i < groups_queries(groups, chunk_size(max_pids)).len(),
    ensures
        fits_its_pids(groups_queries(groups, chunk_size(max_pids))[i], lengths, counts),
{
    lemma_groups_fit(groups, pids, chunk_size(max_pids), lengths, counts);
}

/// A PID is in a group if and only if it is polled.
pub proof fn law_groups_hold_the_active_pids(
    groups: Seq<(Option<u8>, Seq<Pid>)>,
    pids: Seq<Pid>,
    lengths: Seq<Option<u8>>,
    counts: Map<Pid, u8>,
    pid: Pid,
)
    requires
        partitions(groups, pids, lengths, counts),
    ensures
        grouped_pids(groups).contains(pid) <==> pids.contains(pid),
{
    if pids.contains(pid) {
        let k = choose|k: int| 0 <= k < pids.len() && pids[k] == pid;
        let key = batch_key(pid, lengths, counts);
        assert(has_key(groups, batch_key(pids[k], lengths, counts)));
        let i = choose|i: int| 0 <= i < groups.len() && (#[trigger] groups[i]).0 == key;
        lemma_pid_under_its_key(pids, pid, key, lengths, counts);
        assert(groups[i].1.contains(pid));
        lemma_group_is_part(groups, i, pid);
    }
    if grouped_pids(groups).contains(pid) {
        let i = lemma_grouped_pid_has_group(groups, pid);
        lemma_pid_under_its_key(pids, pid, groups[i].0, lengths, counts);
    }
}

proof fn lemma_pid_under_its_key(
    pids: Seq<Pid>,
    pid: Pid,
    key: Option<u8>,
    lengths: Seq<Option<u8>>,
    counts: Map<Pid, u8>,
)
    ensures
        pids_with_key(pids, key, lengths, counts).contains(pid) <==> pids.contains(pid)
            && batch_key(pid, lengths, counts) == key,
    decreases pids.len(),
{
    if pids.len() > 0 {
        let front = pids.drop_last();
        lemma_pid_under_its_key(front, pid, key, lengths, counts);
        let kept = pids_with_key(front, key, lengths, counts);
        assert(pids =~= front.push(pids.last()));
        lemma_push_contains(front, pids.last(), pid);
        lemma_push_contains(kept, pids.last(), pid);
    }
}

proof fn lemma_push_contains(s: Seq<Pid>, x: Pid, pid: Pid)
    ensures
        s.push(x).contains(pid) <==> s.contains(pid) || x == pid,
{
    if s.contains(pid) {
        let i = choose|i: int| 0 <= i < s.len() && s[i] == pid;
        assert(s.push(x)[i] == pid);
    }
    assert(s.push(x)[s.len() as int] == x);
}

proof fn lemma_group_is_part(groups: Seq<(Option<u8>, Seq<Pid>)>, i: int, pid: Pid)
    requires
        0 <= i < groups.len(),
        groups[i].1.contains(pid),
    ensures
        grouped_pids(groups).contains(pid),
    decreases groups.len(),
{
    let front = grouped_pids(groups.drop_last());
    let last = groups.last().1;
    if i == groups.len() - 1 {
        let k = choose|k: int| 0 <= k < last.len() && last[k] == pid;
        assert((front + last)[front.len() + k] == pid);
    } else {
        lemma_group_is_part(groups.drop_last(), i, pid);
        let k = choose|k: int| 0 <= k < front.len() && front[k] == pid;
        assert((front + last)[k] == pid);
    }
}

proof fn lemma_grouped_pid_has_group(groups: Seq<(Option<u8>, Seq<Pid>)>, pid: Pid) -> (i: int)
    requires
        grouped_pids(groups).contains(pid),
    ensures
        0 <= i < groups.len(),
        groups[i].1.contains(pid),
    decreases groups.len(),
{
    let front = grouped_pids(groups.drop_last());
    let last = groups.last().1;
    let k = choose|k: int| 0 <= k < (front + last).len() && (front + last)[k] == pid;
    if k < front.len() {
        assert(front[k] == pid);
        lemma_grouped_pid_has_group(groups.drop_last(), pid)
    } else {
        assert(last[k - front.len()] == pid);
        groups.len() - 1
    }
}

/// Where a rotation stands after several turns.
pub open spec fn index_after_turns(order: Seq<u8>, index: int, turns: nat) -> int
    decreases turns,
{
    if turns == 0 {
        index
    } else {
        index_after_turn(order, index_after_turns(order, index, (turns - 1) as nat))
    }
}

proof fn lemma_index_after_turns(order: Seq<u8>, index: int, turns: nat)
    requires
        index_valid(order, index),
        order.len() > 0,
    ensures
        index_after_turns(order, index, turns) == (index + turns) % (order.len() as int),
    decreases turns,
{
    let n = order.len() as int;
    if turns == 0 {
        vstd::arithmetic::div_mod::lemma_small_mod(index as nat, n as nat);
    } else {
        lemma_index_after_turns(order, index, (turns - 1) as nat);
        vstd::arithmetic::div_mod::lemma_add_mod_noop(index + turns - 1, 1, n);
        vstd::arithmetic::div_mod::lemma_add_mod_noop((index + turns - 1) % n, 1, n);
        vstd::arithmetic::div_mod::lemma_mod_twice(index + turns - 1, n);
    }
}

/// In as many turns as a rotation has PIDs, each of them is asked for.
pub proof fn law_rotation_reaches_every_pid(order: Seq<u8>, index: int, pid: Pid)
    requires
        index_valid(order, index),
        order.contains(pid),
    ensures
        exists|turn: nat|
            turn < order.len() && at_turn(
                order,
                #[trigger] index_after_turns(order, index, turn),
            ) == Some(pid),
{
    let n = order.len() as int;
    let k = order.index_of(pid);
    let turn = (k - index) % n;
    vstd::arithmetic::div_mod::lemma_mod_bound(k - index, n);
    if k >= index {
        vstd::arithmetic::div_mod::lemma_small_mod((k - index) as nat, n as nat);
        vstd::arithmetic::div_mod::lemma_small_mod(k as nat, n as nat);
    } else {
        assert(turn == k - index + n) by {
            vstd::arithmetic::div_mod::lemma_mod_add_multiples_vanish(k - index, n);
            vstd::arithmetic::div_mod::lemma_small_mod((k - index + n) as nat, n as nat);
        }
        assert((k + n) % n == k) by {
            vstd::arithmetic::div_mod::lemma_mod_add_multiples_vanish(k, n);
            vstd::arithmetic::div_mod::lemma_small_mod(k as nat, n as nat);
        }
    }
    lemma_index_after_turns(order, index, turn as nat);
    assert(index_after_turns(order, index, turn as nat) == k);
}

/// A message to the dongle task changes what it says of its PID, and nothing else.
pub proof fn law_messages_change_one_pid(
    priorities: Map<Pid, PidPriority>,
    pid: Pid,
    priority: PidPriority,
    other: Pid,
)
    requires
        other != pid,
    ensures
        ({
            let set = applied(priorities, DongleMessage::SetPidPriority(pid, priority));
            &&& set.contains_key(pid) && set[pid] == priority
            &&& set.contains_key(other) <==> priorities.contains_key(other)
            &&& set.contains_key(other) ==> set[other] == priorities[other]
        }),
        ({
            let less = applied(priorities, DongleMessage::RemovePid(pid));
            &&& !less.contains_key(pid)
            &&& less.contains_key(other) <==> priorities.contains_key(other)
            &&& less.contains_key(other) ==> less[other] == priorities[other]
        }),
{
}

/// A slow PID is due in interval mode once the interval has passed since the last
/// one, however many fast requests were made, and in ratio mode once that many
/// fast requests were made, however long it took.
pub proof fn law_slow_pids_come_due(
    interval_ms: u64,
    ratio: u32,
    last_ns: u64,
    now_ns: u64,
    fast_requests: u32,
)
    requires
        last_ns <= now_ns,
    ensures
        slow_due(
            SlowPollMode::Interval,
            interval_ms,
            ratio,
            elapsed_between(last_ns, now_ns),
            fast_requests,
        ) <==> now_ns >= last_ns + interval_ms * 1_000_000,
        slow_due(
            SlowPollMode::Ratio,
            interval_ms,
            ratio,
            elapsed_between(last_ns, now_ns),
            fast_requests,
        ) <==> ratio <= fast_requests,
{
}

/// A rotation keeps its place while that is in its list, and starts over where it
/// is not.
pub proof fn law_rotation_keeps_its_place(order: Seq<u8>, index: int)
    requires
        0 <= index,
    ensures
        index < order.len() ==> index_within(order, index) == index,
        index == order.len() ==> index_within(order, index) == 0,
        index_valid(order, index_within(order, index)),
{
    let n = order.len() as int;
    if n > 0 {
        vstd::arithmetic::div_mod::lemma_mod_bound(index, n);
        if index < n {
            vstd::arithmetic::div_mod::lemma_small_mod(index as nat, n as nat);
        } else if index == n {
            vstd::arithmetic::div_mod::lemma_mod_self_0(n);
        }
    }
}

/// PIDs with one known ECU count take as few queries as the chunk size allows, and
/// PIDs without one take a query each.
pub proof fn law_batches_are_full(key: Option<u8>, pids: Seq<Pid>, chunk: nat)
    requires
        1 <= chunk,
    ensures
        key is None ==> group_queries(key, pids, chunk).len() == pids.len(),
        key is Some ==> (group_queries(key, pids, chunk).len() - 1) * chunk < pids.len()
            || pids.len() == 0,
        key is Some ==> pids.len() <= group_queries(key, pids, chunk).len() * chunk,
    decreases pids.len(),
{
    if pids.len() == 0 {
        assert(0 * chunk == 0) by (nonlinear_arith);
    } else if key is None || pids.len() == 1 || chunk == 1 {
        law_batches_are_full(key, pids.skip(1), chunk);
        let n = group_queries(key, pids.skip(1), chunk).len() as int;
        assert(group_queries(key, pids, chunk).len() == n + 1);
        if key is Some {
            if pids.len() == 1 {
                assert(n == 0);
                assert(0 * chunk == 0 && 1 * chunk == chunk) by (nonlinear_arith);
            } else {
                assert((n - 1) * 1 == n - 1 && n * 1 == n && (n + 1) * 1 == n + 1)
                    by (nonlinear_arith);
            }
        }
    } else if pids.len() <= chunk {
        assert(0 * chunk == 0 && 1 * chunk == chunk) by (nonlinear_arith);
    } else {
        law_batches_are_full(key, pids.skip(chunk as int), chunk);
        let n = group_queries(key, pids.skip(chunk as int), chunk).len() as int;
        assert(n * chunk == (n - 1) * chunk + chunk && (n + 1) * chunk == n * chunk + chunk)
            by (nonlinear_arith);
    }
}

/// A query holds one to six PIDs; a limit outside that range is brought into it.
pub proof fn law_queries_hold_one_to_six(max_pids: u8)
    ensures
        1 <= chunk_size(max_pids) <= 6,
        1 <= max_pids <= 6 ==> chunk_size(max_pids) == max_pids,
        max_pids == 0 ==> chunk_size(max_pids) == 1,
        max_pids > 6 ==> chunk_size(max_pids) == 6,
{
}

/// Each query of a group holds as many PIDs as a query may, or fewer at the end; with
/// two or more it carries the group's count, and a single PID is asked for without one.
pub proof fn law_queries_of_a_group(key: Option<u8>, pids: Seq<Pid>, chunk: nat, i: int)
    requires
        1 <= chunk,
        0 <= i < group_queries(key, pids, chunk).len(),
    ensures
        ({
            let query = group_queries(key, pids, chunk)[i];
            &&& 1 <= query.0.len() <= chunk
            &&& query.1 is Some <==> query.0.len() >= 2
            &&& query.1 is Some ==> query.1 == key
            &&& key is Some && i < group_queries(key, pids, chunk).len() - 1 ==> query.0.len()
                == chunk
            &&& pids.contains(query.0[0])
        }),
    decreases pids.len(),
{
    let all = group_queries(key, pids, chunk);
    if key is None || pids.len() == 1 || chunk == 1 {
        let later = group_queries(key, pids.skip(1), chunk);
        assert(all =~= seq![(seq![pids[0]], None::<u8>)] + later);
        if i > 0 {
            law_queries_of_a_group(key, pids.skip(1), chunk, i - 1);
            let found = choose|k: int|
                0 <= k < pids.skip(1).len() && pids.skip(1)[k] == all[i].0[0];
            assert(pids[found + 1] == all[i].0[0]);
        }
    } else if pids.len() > chunk {
        let later = group_queries(key, pids.skip(chunk as int), chunk);
        assert(all =~= seq![(pids.take(chunk as int), key)] + later);
        if i > 0 {
            law_queries_of_a_group(key, pids.skip(chunk as int), chunk, i - 1);
            let found = choose|k: int|
                0 <= k < pids.skip(chunk as int).len() && pids.skip(chunk as int)[k] == all[i].0[0];
            assert(pids[found + chunk as int] == all[i].0[0]);
        } else {
            assert(all[0].0[0] == pids[0]);
        }
    } else {
        assert(all[i].0[0] == pids[0]);
    }
}

/// PIDs go into one batch if their data lengths are known and as many ECUs answer each
/// of them; a PID of which either is not known goes with none of these.
pub proof fn law_known_pids_share_a_batch(
    pid: Pid,
    other: Pid,
    lengths: Seq<Option<u8>>,
    counts: Map<Pid, u8>,
)
    ensures
        batch_key(pid, lengths, counts) is Some <==> lengths[pid as int] is Some
            && counts.contains_key(pid),
        batch_key(pid, lengths, counts) is Some ==> batch_key(pid, lengths, counts) == Some(
            counts[pid],
        ),
        batch_key(pid, lengths, counts) is Some && batch_key(other, lengths, counts) is Some ==> (
        batch_key(pid, lengths, counts) == batch_key(other, lengths, counts) <==> counts[pid]
            == counts[other]),
{
}

/// A turn goes to the next PID in the order, and from the last one to the first.
pub proof fn law_turns_go_round(order: Seq<u8>, index: int)
    requires
        0 <= index < order.len(),
    ensures
        at_turn(order, index) == Some(order[index]),
        index + 1 < order.len() ==> index_after_turn(order, index) == index + 1,
        index + 1 == order.len() ==> index_after_turn(order, index) == 0,
        at_turn(Seq::empty(), index) is None,
{
    if index + 1 < order.len() {
        vstd::arithmetic::div_mod::lemma_small_mod((index + 1) as nat, order.len());
    } else {
        vstd::arithmetic::div_mod::lemma_mod_self_0(order.len() as int);
    }
}

/// Removing a PID takes out it alone, and the last one takes its place.
pub proof fn law_removed_pid_is_replaced_by_the_last(s: Seq<u8>, i: int, other: u8)
    requires
        s.no_duplicates(),
        0 <= i < s.len(),
        other != s[i],
    ensures
        ({
            let after = swap_removed(s, s[i]);
            &&& after.len() == s.len() - 1
            &&& !after.contains(s[i])
            &&& after.contains(other) <==> s.contains(other)
            &&& i < s.len() - 1 ==> after[i] == s.last()
            &&& forall|k: int| 0 <= k < after.len() && k != i ==> after[k] == s[k]
        }),
        !s.contains(other) ==> swap_removed(s, other) == s,
{
    let after = swap_removed(s, s[i]);
    assert(s.contains(s[i]));
    assert(s.index_of(s[i]) == i);
    if s.contains(other) {
        let k = choose|k: int| 0 <= k < s.len() && s[k] == other;
        if k < after.len() {
            assert(after[k] == other);
        } else {
            assert(after[i] == other);
        }
    }
    if after.contains(other) {
        let k = choose|k: int| 0 <= k < after.len() && after[k] == other;
        if k == i {
            assert(s[s.len() - 1] == other);
        } else {
            assert(s[k] == other);
        }
    }
}

/// The PIDs that are polled are those of the two queues, each with the priority of its
/// queue.
pub proof fn law_queues_give_priorities(state: PollingState, pid: Pid)
    ensures
        state.priorities().contains_key(pid) <==> state.fast().contains(pid)
            || state.slow().contains(pid),
        state.fast().contains(pid) ==> state.priorities()[pid] == PidPriority::Fast,
        state.slow().contains(pid) && !state.fast().contains(pid) ==> state.priorities()[pid]
            == PidPriority::Slow,
{
}

} // verus!
