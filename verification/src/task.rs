//! Cooperative task scheduler stub: task identities packed into one machine
//! word, task status, and the queue the future scheduler will drive.

use vstd::prelude::*;

verus! {

/// Identity of a task: owning core, a reserved middle field, and the task's
/// index on that core, packed low-to-high into one 64-bit machine word.
#[derive(Clone, Copy, Debug, PartialEq, Eq, Structural)]
pub struct TaskId {
    pub core_id: u16,
    pub reserved: u32,
    pub index: u16,
}

/// How a task identity unpacks from its word form.
pub open spec fn task_id_unpack_spec(value: usize) -> TaskId {
    TaskId {
        core_id: (value as u64 & 0xFFFF) as u16,
        reserved: ((value as u64 >> 16) & 0xFFFF_FFFF) as u32,
        index: ((value as u64 >> 48) & 0xFFFF) as u16,
    }
}

/// How a task identity packs into its word form.
pub open spec fn task_id_pack_spec(id: TaskId) -> usize {
    ((id.core_id as u64) | ((id.reserved as u64) << 16) | ((id.index as u64) << 48)) as usize
}

impl From<usize> for TaskId {
    /// Unpacks a task identity from one machine word.
    fn from(value: usize) -> (r: Self) {
        let v = value as u64;
        TaskId {
            core_id: (v & 0xFFFF) as u16,
            reserved: ((v >> 16) & 0xFFFF_FFFF) as u32,
            index: ((v >> 48) & 0xFFFF) as u16,
        }
    }
}

impl vstd::std_specs::convert::FromSpecImpl<usize> for TaskId {
    open spec fn obeys_from_spec() -> bool {
        true
    }

    open spec fn from_spec(value: usize) -> Self {
        task_id_unpack_spec(value)
    }
}

impl From<TaskId> for usize {
    /// Packs a task identity into one machine word.
    fn from(value: TaskId) -> (r: Self) {
        let packed: u64 = (value.core_id as u64) | ((value.reserved as u64) << 16) | ((
        value.index as u64) << 48);
        proof {
            let c = value.core_id;
            let m = value.reserved;
            let i = value.index;
            assert(((c as u64) | ((m as u64) << 16) | ((i as u64) << 48)) <= 0xFFFF_FFFF_FFFF_FFFF)
                by (bit_vector);
        }
        packed as usize
    }
}

impl vstd::std_specs::convert::FromSpecImpl<TaskId> for usize {
    open spec fn obeys_from_spec() -> bool {
        true
    }

    open spec fn from_spec(value: TaskId) -> Self {
        task_id_pack_spec(value)
    }
}

/// Packing a task identity and unpacking the word gives the identity back:
/// the three fields occupy disjoint bits of the word.  (The round trip
/// needs the full 64-bit word, so it is stated for 64-bit machines.)
pub proof fn lemma_task_id_round_trip(id: TaskId, value: usize)
    ensures
        usize::MAX == 0xFFFF_FFFF_FFFF_FFFF ==> task_id_unpack_spec(task_id_pack_spec(id)) == id,
        usize::MAX == 0xFFFF_FFFF_FFFF_FFFF ==> task_id_pack_spec(task_id_unpack_spec(value))
            == value,
{
    let c = id.core_id;
    let m = id.reserved;
    let i = id.index;
    let packed = ((c as u64) | ((m as u64) << 16) | ((i as u64) << 48));
    assert((packed & 0xFFFF) as u16 == c && ((packed >> 16) & 0xFFFF_FFFF) as u32 == m && ((packed
        >> 48) & 0xFFFF) as u16 == i) by (bit_vector)
        requires
            packed == ((c as u64) | ((m as u64) << 16) | ((i as u64) << 48)),
    ;
    if usize::MAX == 0xFFFF_FFFF_FFFF_FFFF {
        assert(task_id_pack_spec(id) == packed as usize) by {
            assert(packed <= 0xFFFF_FFFF_FFFF_FFFF) by (bit_vector);
        }
        let v = value as u64;
        let cc = (v & 0xFFFF) as u16;
        let mm = ((v >> 16) & 0xFFFF_FFFF) as u32;
        let ii = ((v >> 48) & 0xFFFF) as u16;
        assert(((cc as u64) | ((mm as u64) << 16) | ((ii as u64) << 48)) == v) by (bit_vector)
            requires
                cc == (v & 0xFFFF) as u16,
                mm == ((v >> 16) & 0xFFFF_FFFF) as u32,
                ii == ((v >> 48) & 0xFFFF) as u16,
        ;
    }
}

/// Something a waiting task can block on.
pub trait Awaitable {
    /// Whether the awaited event has happened.
    fn finished(&self) -> bool;
}

/// Whether a task is runnable or parked behind an awaitable.
pub enum TaskStatus {
    Running,
    Waiting(Box<dyn Awaitable>),
}

/// One task: its packed identity and its status.
pub struct Task {
    pub id: TaskId,
    pub status: TaskStatus,
}

/// The (not yet driven) cooperative scheduler: a queue of tasks.
pub struct Scheduler {
    pub processes: Vec<Task>,
}

impl Scheduler {
    /// An empty scheduler.
    pub fn new() -> (r: Scheduler)
        ensures
            r.processes@.len() == 0,
    {
        Scheduler { processes: Vec::new() }
    }
}

} // verus!
