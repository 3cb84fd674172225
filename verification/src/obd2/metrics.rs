//! Numbers about polling, for display.

use crate::obd2::buffers::Pid;
use crate::obd2::cache::{Maintenance, PriorityChange};
use crate::obd2::polling::{elapsed_between, PollingState};
use crate::obd2::wire::pid_command;
use crate::text::{chars_of_bytes, decimal_text, push_number, texts_of};
use vstd::prelude::*;

verus! {

/// How often the request rate is taken.
pub const RATE_INTERVAL_NS: u64 = 1_000_000_000;

/// Metrics for PID polling
#[derive(Debug)]
pub struct PollingMetrics {
    /// Number of PIDs in the fast polling queue
    pub fast_pid_count: u32,
    /// Number of PIDs in the slow polling queue
    pub slow_pid_count: u32,
    /// Total promotions from slow to fast
    pub promotions: u32,
    /// Total demotions from fast to slow
    pub demotions: u32,
    /// Total PIDs removed from polling
    pub removals: u32,
    /// Total dongle requests sent (wraps at `u32::MAX`)
    pub dongle_requests_total: u32,
    /// Dongle requests in the last second
    pub dongle_requests_per_sec: u32,
    /// List of PIDs in the fast queue (for display)
    pub fast_pids: Vec<String>,
    /// List of PIDs in the slow queue (for display)
    pub slow_pids: Vec<String>,
}

/// The commands of PIDs, as text.
pub open spec fn pid_texts(pids: Seq<Pid>) -> Seq<Seq<char>> {
    pids.map_values(|pid: Pid| chars_of_bytes(pid_command(pid)))
}

/// Texts with commas between them.
pub open spec fn joined(list: Seq<Seq<char>>) -> Seq<char>
    decreases list.len(),
{
    if list.len() == 0 {
        Seq::empty()
    } else if list.len() == 1 {
        list[0]
    } else {
        joined(list.drop_last()) + ", "@ + list.last()
    }
}

/// A count that goes on from zero after the largest number.
pub open spec fn counted(count: u32, more: nat) -> u32 {
    ((count + more) % 0x1_0000_0000) as u32
}

fn count_on(count: u32, more: usize) -> (r: u32)
    ensures
        r == counted(count, more as nat),
{
    ((count as u128 + more as u128) % 0x1_0000_0000) as u32
}

impl Default for PollingMetrics {
    fn default() -> (r: Self)
        ensures
            r.fast_pid_count == 0 && r.slow_pid_count == 0,
            r.promotions == 0 && r.demotions == 0 && r.removals == 0,
            r.dongle_requests_total == 0 && r.dongle_requests_per_sec == 0,
            r.fast_pids@.len() == 0 && r.slow_pids@.len() == 0,
    {
        PollingMetrics {
            fast_pid_count: 0,
            slow_pid_count: 0,
            promotions: 0,
            demotions: 0,
            removals: 0,
            dongle_requests_total: 0,
            dongle_requests_per_sec: 0,
            fast_pids: Vec::new(),
            slow_pids: Vec::new(),
        }
    }
}

fn command_texts(commands: &[crate::obd2::buffers::Obd2Buffer]) -> (r: Vec<String>)
    ensures
        r@.len() == commands@.len(),
        forall|i: int|
            0 <= i < r@.len() ==> (#[trigger] r@[i])@ == chars_of_bytes(commands@[i]@),
{
    let mut texts: Vec<String> = Vec::new();
    let mut i: usize = 0;
    while i < commands.len()
        invariant
            i <= commands@.len(),
            texts@.len() == i,
            forall|k: int|
                0 <= k < i ==> (#[trigger] texts@[k])@ == chars_of_bytes(commands@[k]@),
        decreases commands@.len() - i,
    {
        let bytes: &[u8] = commands[i].bytes();
        let mut text: String = String::new();
        let mut j: usize = 0;
        assert(text@ =~= chars_of_bytes(bytes@.take(0)));
        while j < bytes.len()
            invariant
                j <= bytes@.len(),
                text@ == chars_of_bytes(bytes@.take(j as int)),
            decreases bytes@.len() - j,
        {
            text.push(bytes[j] as char);
            j = j + 1;
            assert(text@ =~= chars_of_bytes(bytes@.take(j as int)));
        }
        assert(bytes@.take(j as int) =~= bytes@);
        texts.push(text);
        i = i + 1;
    }
    texts
}

fn push_joined(out: &mut String, list: &Vec<String>)
    ensures
        final(out)@ == old(out)@ + joined(texts_of(list@)),
{
    let ghost texts = texts_of(list@);
    let mut i: usize = 0;
    assert(texts.take(0) =~= Seq::empty());
    assert(out@ =~= old(out)@ + joined(texts.take(0)));
    while i < list.len()
        invariant
            i <= list@.len(),
            texts == texts_of(list@),
            out@ == old(out)@ + joined(texts.take(i as int)),
        decreases list@.len() - i,
    {
        if i > 0 {
            out.push_str(", ");
        }
        out.push_str(list[i].as_str());
        proof {
            let upto = texts.take(i + 1);
            assert(upto.drop_last() =~= texts.take(i as int));
            assert(upto.last() == list@[i as int]@);
            if i == 0 {
                assert(texts.take(0) =~= Seq::empty());
                assert(upto[0] == list@[0]@);
            }
            assert(out@ =~= old(out)@ + joined(upto));
        }
        i = i + 1;
    }
    assert(texts.take(i as int) =~= texts);
}

/// The line of numbers.
pub open spec fn metrics_text(m: PollingMetrics) -> Seq<char> {
    "Polling: "@ + decimal_text(m.fast_pid_count as nat) + " fast, "@ + decimal_text(
        m.slow_pid_count as nat,
    ) + " slow PIDs | "@ + decimal_text(m.dongle_requests_per_sec as nat) + "/sec | +"@
        + decimal_text(m.promotions as nat) + " -"@ + decimal_text(m.demotions as nat) + " x"@
        + decimal_text(m.removals as nat)
}

/// The lines to show: the numbers, and each queue that is not empty.
pub open spec fn summary_text(m: PollingMetrics) -> Seq<Seq<char>> {
    seq![metrics_text(m)] + (if m.fast_pids@.len() > 0 {
        seq!["  Fast: "@ + joined(texts_of(m.fast_pids@))]
    } else {
        Seq::empty()
    }) + (if m.slow_pids@.len() > 0 {
        seq!["  Slow: "@ + joined(texts_of(m.slow_pids@))]
    } else {
        Seq::empty()
    })
}

/// All but the lists and counts of queued PIDs.
pub open spec fn same_totals(a: PollingMetrics, b: PollingMetrics) -> bool {
    &&& a.promotions == b.promotions
    &&& a.demotions == b.demotions
    &&& a.removals == b.removals
    &&& a.dongle_requests_total == b.dongle_requests_total
    &&& a.dongle_requests_per_sec == b.dongle_requests_per_sec
}

impl PollingMetrics {
    /// Count a promotion.
    pub fn record_change(&mut self, change: PriorityChange)
        ensures
            *final(self) == if change == PriorityChange::Promoted {
                PollingMetrics { promotions: counted(old(self).promotions, 1), ..*old(self) }
            } else {
                *old(self)
            },
    {
        if let PriorityChange::Promoted = change {
            self.promotions = count_on(self.promotions, 1);
        }
    }

    /// Count what maintenance did.
    pub fn record_maintenance(&mut self, done: &Maintenance)
        ensures
            *final(self) == (PollingMetrics {
                demotions: counted(old(self).demotions, done.demoted@.len()),
                removals: counted(old(self).removals, done.removed@.len()),
                ..*old(self)
            }),
    {
        self.demotions = count_on(self.demotions, done.demoted.len());
        self.removals = count_on(self.removals, done.removed.len());
    }

    /// Count requests to the dongle.
    pub fn record_requests(&mut self, requests: u32)
        ensures
            *final(self) == (PollingMetrics {
                dongle_requests_total: counted(old(self).dongle_requests_total, requests as nat),
                ..*old(self)
            }),
    {
        self.dongle_requests_total = self.dongle_requests_total.wrapping_add(requests);
        assert(self.dongle_requests_total == counted(
            old(self).dongle_requests_total,
            requests as nat,
        ));
    }

    /// Sync PID counts and lists with the polling state.
    pub fn sync_metrics(&mut self, polling: &PollingState)
        requires
            polling.well_formed(),
        ensures
            same_totals(*final(self), *old(self)),
            final(self).fast_pid_count == polling.fast().len(),
            final(self).slow_pid_count == polling.slow().len(),
            texts_of(final(self).fast_pids@) == pid_texts(polling.fast()),
            texts_of(final(self).slow_pids@) == pid_texts(polling.slow()),
    {
        let (fast, slow) = polling.polled_commands();
        proof {
            lemma_few_pids(polling.fast());
            lemma_few_pids(polling.slow());
        }
        self.fast_pid_count = fast.len() as u32;
        self.slow_pid_count = slow.len() as u32;
        self.fast_pids = command_texts(fast.as_slice());
        self.slow_pids = command_texts(slow.as_slice());
        assert(texts_of(self.fast_pids@) =~= pid_texts(polling.fast()));
        assert(texts_of(self.slow_pids@) =~= pid_texts(polling.slow()));
    }

    /// The lines to show.
    pub fn summary(&self) -> (r: Vec<String>)
        ensures
            texts_of(r@) == summary_text(*self),
    {
        let mut line: String = "Polling: ".to_owned();
        push_number(&mut line, self.fast_pid_count as u64);
        line.push_str(" fast, ");
        push_number(&mut line, self.slow_pid_count as u64);
        line.push_str(" slow PIDs | ");
        push_number(&mut line, self.dongle_requests_per_sec as u64);
        line.push_str("/sec | +");
        push_number(&mut line, self.promotions as u64);
        line.push_str(" -");
        push_number(&mut line, self.demotions as u64);
        line.push_str(" x");
        push_number(&mut line, self.removals as u64);
        assert(line@ == metrics_text(*self));
        let mut lines: Vec<String> = Vec::new();
        lines.push(line);
        if self.fast_pids.len() > 0 {
            let mut fast: String = "  Fast: ".to_owned();
            push_joined(&mut fast, &self.fast_pids);
            lines.push(fast);
        }
        if self.slow_pids.len() > 0 {
            let mut slow: String = "  Slow: ".to_owned();
            push_joined(&mut slow, &self.slow_pids);
            lines.push(slow);
        }
        assert(texts_of(lines@) =~= summary_text(*self));
        lines
    }
}

proof fn lemma_few_pids(pids: Seq<Pid>)
    requires
        pids.no_duplicates(),
    ensures
        pids.len() <= 256,
{
    let all = Set::<u8>::new(|b: u8| true);
    assert(all.finite() && all.len() == 256) by {
        lemma_bytes(256);
        assert(all =~= bytes_below(256));
    }
    pids.unique_seq_to_set();
    assert(pids.to_set().subset_of(all));
    vstd::set_lib::lemma_len_subset(pids.to_set(), all);
}

spec fn bytes_below(n: int) -> Set<u8> {
    Set::new(|b: u8| b < n)
}

proof fn lemma_bytes(n: int)
    requires
        0 <= n <= 256,
    ensures
        bytes_below(n).finite(),
        bytes_below(n).len() == n,
    decreases n,
{
    if n == 0 {
        assert(bytes_below(0) =~= Set::empty());
    } else {
        lemma_bytes(n - 1);
        let last = (n - 1) as u8;
        assert(bytes_below(n) =~= bytes_below(n - 1).insert(last));
    }
}

/// Counts the dongle requests of each second.
#[derive(Debug, Clone, Copy, PartialEq, Eq, Structural)]
pub struct RequestRate {
    /// Requests since the rate was last taken
    pub requests: u32,
    /// When that was (monotonic clock, ns)
    pub since_ns: u64,
}

impl RequestRate {
    /// Nothing counted yet.
    pub fn new(now_ns: u64) -> (r: Self)
        ensures
            r == (RequestRate { requests: 0, since_ns: now_ns }),
    {
        RequestRate { requests: 0, since_ns: now_ns }
    }

    /// Count requests, and take the rate once a second has passed.
    pub fn count(&mut self, requests: u32, now_ns: u64) -> (r: Option<u32>)
        requires
            old(self).requests + requests <= u32::MAX,
        ensures
            ({
                let all = (old(self).requests + requests) as u32;
                if elapsed_between(old(self).since_ns, now_ns) >= RATE_INTERVAL_NS {
                    r == Some(all) && *final(self) == (RequestRate {
                        requests: 0,
                        since_ns: now_ns,
                    })
                } else {
                    r is None && *final(self) == (RequestRate {
                        requests: all,
                        since_ns: old(self).since_ns,
                    })
                }
            }),
    {
        let all: u32 = self.requests + requests;
        if now_ns.saturating_sub(self.since_ns) >= RATE_INTERVAL_NS {
            self.requests = 0;
            self.since_ns = now_ns;
            Some(all)
        } else {
            self.requests = all;
            None
        }
    }
}

// ---------------------------------------------------------------------------
// Laws
// ---------------------------------------------------------------------------

/// A count grows by what is counted as long as it fits in 32 bits, and counting
/// in two steps is counting in one.
pub proof fn law_counts_add_up(count: u32, first: u32, second: u32)
    ensures
        count + first <= 0xffff_ffff ==> counted(count, first as nat) == count + first,
        count + first > 0xffff_ffff ==> counted(count, first as nat) == count + first - 0x1_0000_0000,
        counted(counted(count, first as nat), second as nat) == counted(
            count,
            (first + second) as nat,
        ),
{
}

/// A list of texts reads as its parts, in their order, with a comma and a space
/// between each two.
pub proof fn law_lists_read_in_order(list: Seq<Seq<char>>, text: Seq<char>)
    ensures
        joined(Seq::<Seq<char>>::empty()) =~= Seq::<char>::empty(),
        joined(seq![text]) =~= text,
        list.len() > 0 ==> joined(list.push(text)) =~= joined(list) + seq![',', ' '] + text,
{
    reveal_strlit(", ");
    assert(list.push(text).drop_last() =~= list);
}

/// A PID is shown as the command that asks for it.
pub proof fn law_pids_are_shown_as_commands(pids: Seq<Pid>, i: int)
    requires
        0 <= i < pids.len(),
    ensures
        pid_texts(pids).len() == pids.len(),
        pid_texts(pids)[i].len() == 4,
        pid_texts(pids)[i][0] == '0' && pid_texts(pids)[i][1] == '1',
        pid_texts(pids)[i] =~= chars_of_bytes(pid_command(pids[i])),
{
}

/// There is a line of numbers, and one more for each queue that holds a PID.
pub proof fn law_empty_queues_are_not_shown(m: PollingMetrics)
    ensures
        summary_text(m).len() == 1 + (if m.fast_pids@.len() > 0 {
            1int
        } else {
            0
        }) + (if m.slow_pids@.len() > 0 {
            1int
        } else {
            0
        }),
        summary_text(m)[0] == metrics_text(m),
        m.fast_pids@.len() > 0 ==> summary_text(m)[1] =~= seq![
            ' ',
            ' ',
            'F',
            'a',
            's',
            't',
            ':',
            ' ',
        ] + joined(texts_of(m.fast_pids@)),
        m.slow_pids@.len() > 0 ==> summary_text(m).last() =~= seq![
            ' ',
            ' ',
            'S',
            'l',
            'o',
            'w',
            ':',
            ' ',
        ] + joined(texts_of(m.slow_pids@)),
{
    reveal_strlit("  Fast: ");
    reveal_strlit("  Slow: ");
}

/// The line of numbers starts with how many PIDs are polled fast, and ends with
/// how many were removed.
pub proof fn law_numbers_are_shown(m: PollingMetrics)
    ensures
        (seq!['P', 'o', 'l', 'l', 'i', 'n', 'g', ':', ' '] + decimal_text(
            m.fast_pid_count as nat,
        )).is_prefix_of(metrics_text(m)),
        (seq![' ', 'x'] + decimal_text(m.removals as nat)).is_suffix_of(metrics_text(m)),
{
    reveal_strlit("Polling: ");
    reveal_strlit(" x");
    let head = "Polling: "@ + decimal_text(m.fast_pid_count as nat);
    let tail = " x"@ + decimal_text(m.removals as nat);
    let text = metrics_text(m);
    assert(head =~= seq!['P', 'o', 'l', 'l', 'i', 'n', 'g', ':', ' '] + decimal_text(
        m.fast_pid_count as nat,
    ));
    assert(tail =~= seq![' ', 'x'] + decimal_text(m.removals as nat));
    assert(text.subrange(0, head.len() as int) =~= head);
    assert(text.subrange(text.len() - tail.len(), text.len() as int) =~= tail);
}

/// Counting the queues leaves the totals as they are.
pub proof fn law_totals_are_kept(a: PollingMetrics, b: PollingMetrics)
    ensures
        same_totals(a, b) <==> a.promotions == b.promotions && a.demotions == b.demotions
            && a.removals == b.removals && a.dongle_requests_total == b.dongle_requests_total
            && a.dongle_requests_per_sec == b.dongle_requests_per_sec,
{
}

} // verus!
