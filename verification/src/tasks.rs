//! The background tasks and their stacks.

use crate::text::same_text;
use vstd::prelude::*;

verus! {

/// Where to allocate the thread's stack memory.
#[derive(Debug, Clone, Copy, PartialEq, Eq, Structural)]
pub enum StackMemory {
    /// Use internal SRAM (faster, but limited to ~300 KB shared with WiFi/DMA).
    Internal,
    /// Use PSRAM/SPIRAM (slower, but 8 MB available on N16R8).
    SpiRam,
}

/// Kinds of memory to allocate from.
#[derive(Debug, Clone, Copy, PartialEq, Eq, Structural)]
pub struct MemoryCaps {
    pub internal: bool,
    pub spiram: bool,
    pub byte_accessible: bool,
}

impl StackMemory {
    /// The kinds of memory for a stack: always byte-accessible.
    pub fn to_caps(self) -> (r: MemoryCaps)
        ensures
            r == (MemoryCaps {
                internal: self == StackMemory::Internal,
                spiram: self == StackMemory::SpiRam,
                byte_accessible: true,
            }),
    {
        match self {
            StackMemory::Internal => MemoryCaps {
                internal: true,
                spiram: false,
                byte_accessible: true,
            },
            StackMemory::SpiRam => MemoryCaps {
                internal: false,
                spiram: true,
                byte_accessible: true,
            },
        }
    }
}

/// Registry mapping task name to allocated stack size (bytes).
#[derive(Debug)]
pub struct StackRegistry {
    entries: Vec<(String, usize)>,
}

/// The sizes that entries hold: of two entries with one name the later counts.
pub closed spec fn sizes_of(entries: Seq<(String, usize)>) -> Map<Seq<char>, usize>
    decreases entries.len(),
{
    if entries.len() == 0 {
        Map::empty()
    } else {
        sizes_of(entries.drop_last()).insert(entries.last().0@, entries.last().1)
    }
}

/// An entry that is about to be overwritten does not count.
proof fn lemma_replaced(entries: Seq<(String, usize)>, i: int, stack_size: usize)
    requires
        0 <= i < entries.len(),
    ensures
        sizes_of(entries.remove(i)).insert(entries[i].0@, stack_size) == sizes_of(entries).insert(
            entries[i].0@,
            stack_size,
        ),
    decreases entries.len(),
{
    let name = entries[i].0@;
    if i == entries.len() - 1 {
        assert(entries.remove(i) =~= entries.drop_last());
        assert(sizes_of(entries.remove(i)).insert(name, stack_size) =~= sizes_of(entries).insert(
            name,
            stack_size,
        ));
    } else {
        let front = entries.drop_last();
        lemma_replaced(front, i, stack_size);
        assert(entries.remove(i).drop_last() =~= front.remove(i));
        assert(entries.remove(i).last() == entries.last());
        let last = entries.last();
        let a = sizes_of(front.remove(i));
        let b = sizes_of(front);
        assert forall|n: Seq<char>|
            a.insert(last.0@, last.1).insert(name, stack_size).contains_key(n) == b.insert(
                last.0@,
                last.1,
            ).insert(name, stack_size).contains_key(n) by {
            assert(a.insert(name, stack_size).contains_key(n) == b.insert(
                name,
                stack_size,
            ).contains_key(n));
        }
        assert forall|n: Seq<char>| n != name && b.contains_key(n) implies a[n] == b[n] by {
            assert(a.insert(name, stack_size)[n] == b.insert(name, stack_size)[n]);
        }
        assert(sizes_of(entries.remove(i)).insert(name, stack_size) =~= sizes_of(entries).insert(
            name,
            stack_size,
        ));
    }
}

impl View for StackRegistry {
    type V = Map<Seq<char>, usize>;

    closed spec fn view(&self) -> Map<Seq<char>, usize> {
        sizes_of(self.entries@)
    }
}

impl Default for StackRegistry {
    fn default() -> (r: Self)
        ensures
            r@ == Map::<Seq<char>, usize>::empty(),
    {
        StackRegistry { entries: Vec::new() }
    }
}

impl StackRegistry {
    /// Look up the allocated stack size for a task by name.
    pub fn get_stack_size(&self, name: &str) -> (r: Option<usize>)
        ensures
            r == if self@.contains_key(name@) {
                Some(self@[name@])
            } else {
                None
            },
    {
        let ghost all = self.entries@;
        let mut i: usize = self.entries.len();
        assert(all.take(i as int) =~= all);
        while i > 0
            invariant
                i <= all.len(),
                all == self.entries@,
                sizes_of(all.take(i as int)).contains_key(name@) == sizes_of(all).contains_key(
                    name@,
                ),
                sizes_of(all).contains_key(name@) ==> sizes_of(all.take(i as int))[name@]
                    == sizes_of(all)[name@],
            decreases i,
        {
            i = i - 1;
            proof {
                let upto = all.take(i + 1);
                assert(upto.drop_last() =~= all.take(i as int));
                assert(upto.last() == all[i as int]);
            }
            if same_text(self.entries[i].0.as_str(), name) {
                return Some(self.entries[i].1);
            }
        }
        assert(all.take(0) =~= Seq::empty());
        None
    }

    /// Record a task's stack size in the registry.
    pub fn register_stack_size(&mut self, name: &str, stack_size: usize)
        ensures
            final(self)@ == old(self)@.insert(name@, stack_size),
    {
        let ghost before = self.entries@;
        let mut i: usize = 0;
        while i < self.entries.len()
            invariant
                i <= self.entries@.len(),
                before == self.entries@,
                before == old(self).entries@,
            decreases self.entries@.len() - i,
        {
            if same_text(self.entries[i].0.as_str(), name) {
                proof {
                    lemma_replaced(before, i as int, stack_size);
                }
                let _ = self.entries.remove(i);
                self.entries.push((name.to_owned(), stack_size));
                assert(self.entries@.drop_last() =~= before.remove(i as int));
                return;
            }
            i = i + 1;
        }
        self.entries.push((name.to_owned(), stack_size));
        assert(self.entries@.drop_last() =~= before);
    }
}

/// A background task to start.
#[derive(Debug, Clone, Copy)]
pub struct TaskPlan {
    pub name: &'static str,
    /// Stack size in bytes
    pub stack_size: usize,
    pub memory: StackMemory,
    /// The core that it is bound to, if it is
    pub core: Option<u8>,
}

impl View for TaskPlan {
    type V = (Seq<char>, usize, StackMemory, Option<u8>);

    open spec fn view(&self) -> (Seq<char>, usize, StackMemory, Option<u8>) {
        (self.name@, self.stack_size, self.memory, self.core)
    }
}

/// The background tasks in the order in which they start. The LEDs have a core of
/// their own, away from the WiFi's; the controls need an encoder.
pub open spec fn planned_tasks(encoder: bool) -> Seq<
    (Seq<char>, usize, StackMemory, Option<u8>),
> {
    let always = seq![
        ("sse_srv"@, 6144usize, StackMemory::SpiRam, None::<u8>),
        ("dongle"@, 8192usize, StackMemory::Internal, None),
        ("cache_mgr"@, 6144usize, StackMemory::Internal, None),
        ("rpm_led"@, 4096usize, StackMemory::Internal, Some(1u8)),
        ("obd2_proxy"@, 4096usize, StackMemory::Internal, None),
        ("wifi_mgr"@, 4096usize, StackMemory::SpiRam, None),
        ("status_led"@, 3072usize, StackMemory::Internal, None),
    ];
    if encoder {
        always.push(("controls"@, 6144usize, StackMemory::Internal, None))
    } else {
        always
    }
}

fn plan(name: &'static str, stack_size: usize, memory: StackMemory, core: Option<u8>) -> (r: TaskPlan)
    ensures
        r@ == (name@, stack_size, memory, core),
{
    TaskPlan { name, stack_size, memory, core }
}

/// The background tasks in the order in which they start.
pub fn background_tasks(encoder: bool) -> (r: Vec<TaskPlan>)
    ensures
        r@.map_values(|task: TaskPlan| task@) == planned_tasks(encoder),
{
    let mut tasks: Vec<TaskPlan> = Vec::new();
    tasks.push(plan("sse_srv", 6144, StackMemory::SpiRam, None));
    tasks.push(plan("dongle", 8192, StackMemory::Internal, None));
    tasks.push(plan("cache_mgr", 6144, StackMemory::Internal, None));
    tasks.push(plan("rpm_led", 4096, StackMemory::Internal, Some(1)));
    tasks.push(plan("obd2_proxy", 4096, StackMemory::Internal, None));
    tasks.push(plan("wifi_mgr", 4096, StackMemory::SpiRam, None));
    tasks.push(plan("status_led", 3072, StackMemory::Internal, None));
    if encoder {
        tasks.push(plan("controls", 6144, StackMemory::Internal, None));
    }
    assert(tasks@.map_values(|task: TaskPlan| task@) =~= planned_tasks(encoder));
    tasks
}

/// Whether there is an encoder: both of its pins must be set.
pub fn encoder_enabled(pin_a: u8, pin_b: u8) -> (r: bool)
    ensures
        r == (pin_a != 0 && pin_b != 0),
{
    pin_a != 0 && pin_b != 0
}

// ---------------------------------------------------------------------------
// Laws
// ---------------------------------------------------------------------------

/// The controls start only with an encoder, after everything else, and nothing else
/// depends on it.
pub proof fn law_controls_need_an_encoder()
    ensures
        planned_tasks(false).len() == 7,
        planned_tasks(true).len() == 8,
        planned_tasks(true).take(7) =~= planned_tasks(false),
        planned_tasks(true).last().0 =~= seq!['c', 'o', 'n', 't', 'r', 'o', 'l', 's'],
{
    reveal_strlit("controls");
}

/// Of the tasks only the LEDs are bound to a core, and only the ones that serve the
/// network have their stacks in slow memory. Each stack has 3 KB to 8 KB.
pub proof fn law_leds_have_a_core(encoder: bool, i: int)
    requires
        0 <= i < planned_tasks(encoder).len(),
    ensures
        ({
            let task = planned_tasks(encoder)[i];
            &&& task.3 is Some <==> task.0 == "rpm_led"@
            &&& task.3 is Some ==> task.3 == Some(1u8)
            &&& task.2 == StackMemory::SpiRam <==> task.0 == "sse_srv"@ || task.0 == "wifi_mgr"@
            &&& 3 * 1024 <= task.1 <= 8 * 1024
            &&& task.1 as int % 1024 == 0
        }),
{
    reveal_strlit("sse_srv");
    reveal_strlit("dongle");
    reveal_strlit("cache_mgr");
    reveal_strlit("rpm_led");
    reveal_strlit("obd2_proxy");
    reveal_strlit("wifi_mgr");
    reveal_strlit("status_led");
    reveal_strlit("controls");
    assert("sse_srv"@.len() == 7 && "rpm_led"@.len() == 7 && "wifi_mgr"@.len() == 8);
    assert("dongle"@.len() == 6 && "cache_mgr"@.len() == 9 && "obd2_proxy"@.len() == 10);
    assert("status_led"@.len() == 10 && "controls"@.len() == 8);
    assert("sse_srv"@[0] == 's' && "rpm_led"@[0] == 'r');
    assert("wifi_mgr"@[0] == 'w' && "controls"@[0] == 'c');
}

} // verus!
