//! Virtual address-space allocator: a binary buddy scheme over one
//! contiguous range, kept as a flat list of power-of-two blocks in address
//! order.
//!
//! Nodes live in an arena of fixed-capacity slabs; the slabs (and the
//! registry that names them) are backed by frames taken from the physical
//! allocator, so the allocator bootstraps its own bookkeeping storage.
//! Oversized free blocks are split on demand; freeing merges address-
//! adjacent free blocks of equal size back together.

use vstd::prelude::*;

verus! {

use crate::FRAME_SIZE;
use crate::phys::PhysicalAllocator;
use crate::phys::count_free;

/// Smallest block the allocator produces: one granule of two page frames.
pub const GRANULE_SIZE: usize = 8192;

/// Node slots one backing frame provides.
pub const NODES_PER_SLAB: usize = 102;

/// Slots of the slab registry (which itself fills one frame).
pub const MAX_SLABS: usize = 512;

/// Largest node count the registry can back.
pub const MAX_NODES: usize = 52224;

/// One maximal free-or-used block of the managed range.
#[derive(Clone, Copy, Debug, PartialEq, Eq, Structural)]
pub struct BuddyNode {
    pub base: usize,
    pub size: usize,
    pub used: bool,
}

/// Whether `s` is a power of two.
pub open spec fn is_pow2(s: int) -> bool
    decreases s,
{
    if s <= 0 {
        false
    } else if s == 1 {
        true
    } else {
        s % 2 == 0 && is_pow2(s / 2)
    }
}

/// Every block size is a power of two no smaller than one granule.
pub open spec fn good_size(s: int) -> bool {
    s >= GRANULE_SIZE && is_pow2(s)
}

/// The node list partitions one contiguous range in address order: sizes
/// are powers of two of at least a granule, each block ends where the next
/// begins, and the range's end stays representable.
pub open spec fn nodes_wf(v: Seq<BuddyNode>) -> bool {
    &&& v.len() >= 1
    &&& forall|i: int| 0 <= i < v.len() ==> good_size((#[trigger] v[i]).size as int)
    &&& forall|i: int|
        0 <= i < v.len() - 1 ==> (#[trigger] v[i]).base + v[i].size == v[i + 1].base
    &&& v[v.len() - 1].base + v[v.len() - 1].size <= usize::MAX
}

/// The eager-merge shape: no two address-adjacent free blocks of equal
/// size remain.
pub open spec fn merged(v: Seq<BuddyNode>) -> bool {
    forall|i: int|
        0 <= i < v.len() - 1 ==> !(!(#[trigger] v[i]).used && !v[i + 1].used && v[i].size == v[i
            + 1].size)
}

/// Slabs needed to store `n` nodes (at least one slab is always kept).
pub open spec fn slabs_needed(n: int) -> int {
    if n <= NODES_PER_SLAB {
        1
    } else {
        (n + (NODES_PER_SLAB - 1)) / (NODES_PER_SLAB as int)
    }
}

/// Rounds `s` up to the next power of two of at least one granule, doubling
/// from the granule; -1 where no such size fits the machine word.
pub open spec fn round_rec(s: int, p: int) -> int
    decreases usize::MAX - p,
{
    if p <= 0 || p > usize::MAX {
        -1
    } else if p >= s {
        p
    } else if p > usize::MAX / 2 {
        -1
    } else {
        round_rec(s, 2 * p)
    }
}

/// The block size that serves a request of `s` bytes: the smallest power of
/// two that is at least `s` and at least one granule; -1 where `s` exceeds
/// every power of two a machine word holds.
pub open spec fn round_size(s: int) -> int {
    round_rec(s, GRANULE_SIZE as int)
}

/// Index of the first free node large enough for `need`, or -1.
pub open spec fn first_fit_from(v: Seq<BuddyNode>, need: int, i: int) -> int
    decreases v.len() - i,
{
    if i < 0 || i >= v.len() {
        -1
    } else if !v[i].used && v[i].size >= need {
        i
    } else {
        first_fit_from(v, need, i + 1)
    }
}

/// Index of the first free node large enough for `need`, or -1: the node
/// the allocator will carve the block out of.
pub open spec fn first_fit(v: Seq<BuddyNode>, need: int) -> int {
    first_fit_from(v, need, 0)
}

/// How many times a block of size `s` splits down to size `r`.
pub open spec fn split_count(s: int, r: int) -> int
    decreases s,
{
    if s <= r || s <= 0 {
        0
    } else {
        1 + split_count(s / 2, r)
    }
}

/// The blocks a node `(b, s)` becomes when the allocator carves a used
/// block of size `r` out of its front: the used block, then the freed
/// second halves in increasing size, ending with the original upper half.
pub open spec fn split_chain(b: int, s: int, r: int) -> Seq<BuddyNode>
    decreases s,
{
    if s <= r || s <= 0 {
        seq![BuddyNode { base: b as usize, size: r as usize, used: true }]
    } else {
        split_chain(b, s / 2, r).push(
            BuddyNode { base: (b + s / 2) as usize, size: (s / 2) as usize, used: false },
        )
    }
}

/// The node list after a successful allocation of `r` bytes: the first
/// fitting node, split down to size `r` with its front marked used.
pub open spec fn alloc_result(v: Seq<BuddyNode>, r: int) -> Seq<BuddyNode> {
    let j = first_fit(v, r);
    v.take(j) + split_chain(v[j].base as int, v[j].size as int, r) + v.skip(j + 1)
}

/// Whether an allocation of `size` bytes can succeed on node list `v` with
/// `pa_free` physical frames available for fresh node slabs.
pub open spec fn alloc_possible(v: Seq<BuddyNode>, pa_free: int, size: int) -> bool {
    let r = round_size(size);
    let j = first_fit(v, r);
    &&& r >= 0
    &&& j >= 0
    &&& v.len() + split_count(v[j].size as int, r) <= MAX_NODES
    &&& slabs_needed(v.len() + split_count(v[j].size as int, r)) - slabs_needed(v.len() as int)
        <= pa_free
}

/// Index of the node whose base is `addr`, or -1; bases are strictly
/// increasing, so it is unique.
pub open spec fn find_base_from(v: Seq<BuddyNode>, addr: int, i: int) -> int
    decreases v.len() - i,
{
    if i < 0 || i >= v.len() {
        -1
    } else if v[i].base == addr {
        i
    } else {
        find_base_from(v, addr, i + 1)
    }
}

/// Index of the node whose base is `addr`, or -1.
pub open spec fn find_base(v: Seq<BuddyNode>, addr: int) -> int {
    find_base_from(v, addr, 0)
}

/// Merges nodes `i` and `i + 1` into one free block.
pub open spec fn merge_at(v: Seq<BuddyNode>, i: int) -> Seq<BuddyNode> {
    v.update(
        i,
        BuddyNode { base: v[i].base, size: (v[i].size + v[i + 1].size) as usize, used: false },
    ).remove(i + 1)
}

/// Exhaustively merges around node `j`: equal-size free neighbours to the
/// right first, then to the left, until neither side can merge.
pub open spec fn coalesce(v: Seq<BuddyNode>, j: int) -> Seq<BuddyNode>
    decreases v.len(),
{
    if 0 <= j < v.len() && j + 1 < v.len() && !v[j].used && !v[j + 1].used && v[j].size == v[j
        + 1].size {
        coalesce(merge_at(v, j), j)
    } else if 0 <= j < v.len() && j - 1 >= 0 && !v[j - 1].used && !v[j].used && v[j - 1].size
        == v[j].size {
        coalesce(merge_at(v, j - 1), j - 1)
    } else {
        v
    }
}

/// The node list after node `j` is freed: its used flag clears and the
/// block merges with equal-size free neighbours until none is left.
pub open spec fn free_result(v: Seq<BuddyNode>, j: int) -> Seq<BuddyNode> {
    coalesce(v.update(j, BuddyNode { base: v[j].base, size: v[j].size, used: false }), j)
}

/// The bitmap after the listed slab frames beyond the first `keep` are
/// handed back, newest first.
pub open spec fn clear_frames(view: Seq<bool>, fs: Seq<usize>, keep: int) -> Seq<bool>
    decreases fs.len(),
{
    if fs.len() <= keep || fs.len() == 0 {
        view
    } else {
        clear_frames(view.update(fs.last() as int, false), fs.drop_last(), keep)
    }
}

/// The eager-merge shape everywhere except at the two pairs that touch
/// node `j`, which the merge loop is still working on.
spec fn merged_except(v: Seq<BuddyNode>, j: int) -> bool {
    forall|i: int|
        0 <= i < v.len() - 1 && i != j - 1 && i != j ==> !(!(#[trigger] v[i]).used && !v[i
            + 1].used && v[i].size == v[i + 1].size)
}

/// Manages one contiguous virtual range as a buddy tree flattened into an
/// address-ordered list.  Node storage comes in slabs of `NODES_PER_SLAB`
/// slots; the registry of slabs and each slab are backed by one physical
/// frame apiece, taken from (and returned to) the physical allocator.
pub struct VirtualAllocator {
    nodes: Vec<BuddyNode>,
    slab_frames: Vec<usize>,
    registry_frame: usize,
}

impl View for VirtualAllocator {
    type V = Seq<BuddyNode>;

    /// The node list in address order.
    closed spec fn view(&self) -> Seq<BuddyNode> {
        self.nodes@
    }
}

impl VirtualAllocator {
    /// The slab registry holds exactly the slabs the node count needs.
    pub closed spec fn slabs_ok(self) -> bool {
        &&& self.slab_frames@.len() == slabs_needed(self.nodes@.len() as int)
        &&& self.slab_frames@.len() <= MAX_SLABS
        &&& self.nodes@.len() <= MAX_NODES
    }

    /// Frames recorded for the node slabs, oldest first.
    pub closed spec fn slab_frames_view(self) -> Seq<usize> {
        self.slab_frames@
    }

    /// The frame backing the slab registry itself.
    pub closed spec fn registry_frame_spec(self) -> usize {
        self.registry_frame
    }

    /// Every recorded frame index lies inside a bitmap of `num_frames`
    /// frames, so it can be handed back to the physical allocator.
    pub closed spec fn frames_ok(self, num_frames: int) -> bool {
        &&& self.registry_frame < num_frames
        &&& forall|i: int|
            0 <= i < self.slab_frames@.len() ==> (#[trigger] self.slab_frames@[i]) < num_frames
    }

    /// Every recorded slab frame lies inside a bitmap of `num_frames`.
    pub proof fn lemma_frames_ok_bounds(&self, num_frames: int)
        requires
            self.frames_ok(num_frames),
        ensures
            forall|i: int|
                0 <= i < self.slab_frames_view().len() ==> (#[trigger] self.slab_frames_view()[i])
                    < num_frames,
    {
    }

    /// The registry holds exactly as many slabs as the node count needs.
    pub proof fn lemma_slab_accounting(&self)
        requires
            self.wf(),
        ensures
            self.slab_frames_view().len() == slabs_needed(self@.len() as int),
    {
    }

    /// Structural invariant: a well-formed node list with matching slab
    /// storage.
    pub open spec fn wf(self) -> bool {
        &&& nodes_wf(self@)
        &&& self.slabs_ok()
    }

    /// A fresh allocator owning the range `[base, base + size)` as one free
    /// block.  Two frames come from the physical allocator: one for the
    /// slab registry, one for the first node slab.  Fails exactly when the
    /// allocator cannot spare them.
    pub fn new(base: usize, size: usize, physical_allocator: &mut PhysicalAllocator) -> (r: Option<
        VirtualAllocator,
    >)
        requires
            old(physical_allocator).wf(),
            good_size(size as int),
            base + size <= usize::MAX,
        ensures
            final(physical_allocator).wf(),
            final(physical_allocator)@.len() == old(physical_allocator)@.len(),
            match r {
                Some(va) => {
                    &&& va.wf()
                    &&& va.frames_ok(final(physical_allocator).num_frames())
                    &&& va@ =~= seq![BuddyNode { base, size, used: false }]
                    &&& va.slab_frames_view().len() == 1
                    &&& va.registry_frame_spec() < old(physical_allocator).num_frames()
                    &&& va.slab_frames_view()[0] < old(physical_allocator).num_frames()
                    &&& va.registry_frame_spec() != va.slab_frames_view()[0]
                    &&& !old(physical_allocator)@[va.registry_frame_spec() as int]
                    &&& !old(physical_allocator)@[va.slab_frames_view()[0] as int]
                    &&& final(physical_allocator)@ == old(physical_allocator)@.update(
                        va.registry_frame_spec() as int,
                        true,
                    ).update(va.slab_frames_view()[0] as int, true)
                    &&& count_free(final(physical_allocator)@) == count_free(
                        old(physical_allocator)@,
                    ) - 2
                    &&& forall|i: int|
                        0 <= i < old(physical_allocator)@.len() && old(physical_allocator)@[i]
                            ==> final(physical_allocator)@[i]
                },
                None => count_free(old(physical_allocator)@) < 2,
            },
    {
        let registry_frame = match physical_allocator.allocate() {
            Some(f) => f,
            None => {
                return None;
            },
        };
        let slab_frame = match physical_allocator.allocate() {
            Some(f) => f,
            None => {
                proof {
                    crate::phys::lemma_count_free_update(
                        old(physical_allocator)@,
                        registry_frame as int,
                        true,
                    );
                }
                return None;
            },
        };
        let mut nodes: Vec<BuddyNode> = Vec::new();
        nodes.push(BuddyNode { base, size, used: false });
        let mut slab_frames: Vec<usize> = Vec::new();
        slab_frames.push(slab_frame);
        Some(VirtualAllocator { nodes, slab_frames, registry_frame })
    }
}

/// A larger power of two is at least the double of a smaller one, and its
/// half is still a power of two.
pub proof fn lemma_pow2_gt(p: int, q: int)
    requires
        is_pow2(p),
        is_pow2(q),
        p > q,
    ensures
        p % 2 == 0,
        p / 2 >= q,
        is_pow2(p / 2),
    decreases q,
{
    if q > 1 {
        lemma_pow2_gt(p / 2, q / 2);
    }
}

/// More nodes never need fewer slabs.
pub proof fn lemma_slabs_monotone(m: int, n: int)
    requires
        0 <= m <= n,
    ensures
        slabs_needed(m) <= slabs_needed(n),
{
    if m > NODES_PER_SLAB {
        vstd::arithmetic::div_mod::lemma_div_is_ordered(
            m + (NODES_PER_SLAB - 1),
            n + (NODES_PER_SLAB - 1),
            NODES_PER_SLAB as int,
        );
    }
}

/// The slab count stays within the registry while the node count does.
pub proof fn lemma_slabs_bounds(n: int)
    requires
        0 <= n <= MAX_NODES,
    ensures
        1 <= slabs_needed(n) <= MAX_SLABS,
{
    lemma_slabs_monotone(n, MAX_NODES as int);
}

/// A split chain has one node per split plus the used front block.
pub proof fn lemma_split_chain_len(b: int, s: int, r: int)
    ensures
        split_chain(b, s, r).len() == split_count(s, r) + 1,
    decreases s,
{
    if s > r && s > 0 {
        lemma_split_chain_len(b, s / 2, r);
    }
}

/// Every block of a well-formed list ends inside the machine word.
pub proof fn lemma_nodes_extent(v: Seq<BuddyNode>, i: int)
    requires
        nodes_wf(v),
        0 <= i < v.len(),
    ensures
        v[i].base + v[i].size <= usize::MAX,
    decreases v.len() - i,
{
    if i < v.len() - 1 {
        lemma_nodes_extent(v, i + 1);
    }
}

/// A block strictly larger than the target still has splits left.
pub proof fn lemma_split_count_pos(s: int, r: int)
    ensures
        split_count(s, r) >= 0,
    decreases s,
{
    if s > r && s > 0 {
        lemma_split_count_pos(s / 2, r);
    }
}

/// Shape of a split chain: good power-of-two sizes, contiguous from `b` to
/// `b + s`, the front block used with size `r`, everything after it free.
pub proof fn lemma_split_chain_props(b: int, s: int, r: int)
    requires
        good_size(r),
        good_size(s),
        r <= s,
        0 <= b,
        b + s <= usize::MAX,
    ensures
        ({
            let c = split_chain(b, s, r);
            &&& c.len() >= 1
            &&& forall|i: int| 0 <= i < c.len() ==> good_size((#[trigger] c[i]).size as int)
            &&& c[0].base == b
            &&& c[0].size == r
            &&& c[0].used
            &&& forall|i: int| 1 <= i < c.len() ==> !(#[trigger] c[i]).used
            &&& forall|i: int|
                0 <= i < c.len() - 1 ==> (#[trigger] c[i]).base + c[i].size == c[i + 1].base
            &&& c[c.len() - 1].base + c[c.len() - 1].size == b + s
            &&& forall|i: int| 1 <= i < c.len() - 1 ==> (#[trigger] c[i + 1]).size == 2 * c[i].size
            &&& (s > r ==> 2 * c[c.len() - 1].size == s)
        }),
    decreases s,
{
    if s <= r {
        assert(s == r) by {
            if s > r {
            }
        }
    } else {
        lemma_pow2_gt(s, r);
        lemma_split_chain_props(b, s / 2, r);
    }
}

/// A successful allocation keeps the node list well formed: splitting a
/// block refines the partition of the same range.
#[verifier::spinoff_prover]
#[verifier::rlimit(100)]
pub proof fn lemma_alloc_result_wf(v: Seq<BuddyNode>, r: int)
    requires
        nodes_wf(v),
        good_size(r),
        first_fit(v, r) >= 0,
        first_fit(v, r) < v.len(),
        !v[first_fit(v, r)].used,
        v[first_fit(v, r)].size >= r,
    ensures
        nodes_wf(alloc_result(v, r)),
        alloc_result(v, r).len() == v.len() + split_count(v[first_fit(v, r)].size as int, r),
        alloc_result(v, r)[first_fit(v, r)] == (BuddyNode {
            base: v[first_fit(v, r)].base,
            size: r as usize,
            used: true,
        }),
{
    let j = first_fit(v, r);
    lemma_nodes_extent(v, j);
    let c = split_chain(v[j].base as int, v[j].size as int, r);
    lemma_split_chain_props(v[j].base as int, v[j].size as int, r);
    lemma_split_chain_len(v[j].base as int, v[j].size as int, r);
    lemma_split_count_pos(v[j].size as int, r);
    let w = alloc_result(v, r);
    assert(w.len() == j + c.len() + (v.len() - j - 1));
    assert forall|i: int| 0 <= i < w.len() implies good_size((#[trigger] w[i]).size as int) by {
        if i < j {
            assert(w[i] == v[i]);
        } else if i < j + c.len() {
            assert(w[i] == c[i - j]);
        } else {
            assert(w[i] == v[i - c.len() + 1]);
        }
    }
    assert forall|i: int|
        0 <= i < w.len() - 1 implies (#[trigger] w[i]).base + w[i].size == w[i + 1].base by {
        if i < j - 1 {
            assert(w[i] == v[i] && w[i + 1] == v[i + 1]);
        } else if i == j - 1 {
            assert(w[i] == v[i] && w[i + 1] == c[0]);
        } else if i < j + c.len() - 1 {
            assert(w[i] == c[i - j] && w[i + 1] == c[i - j + 1]);
        } else if i == j + c.len() - 1 {
            assert(w[i] == c[c.len() - 1] && w[i + 1] == v[j + 1]);
        } else {
            assert(w[i] == v[i - c.len() + 1] && w[i + 1] == v[i - c.len() + 2]);
        }
    }
    assert(w[w.len() - 1].base + w[w.len() - 1].size <= usize::MAX) by {
        if j == v.len() - 1 {
            assert(w[w.len() - 1] == c[c.len() - 1]);
        } else {
            assert(w[w.len() - 1] == v[v.len() - 1]);
        }
    }
    assert(w[j] == c[0]);
}

/// The mappable span is itself a power of two.
pub proof fn reveal_pow48()
    ensures
        is_pow2(0x1_0000_0000_0000),
{
    reveal_with_fuel(is_pow2, 50);
}

/// The scan helper behind `lemma_first_fit_props`, walking from `i`.
pub proof fn lemma_first_fit_from_props(v: Seq<BuddyNode>, need: int, i: int)
    requires
        first_fit_from(v, need, i) >= 0,
    ensures
        first_fit_from(v, need, i) < v.len(),
        i <= first_fit_from(v, need, i),
        !v[first_fit_from(v, need, i)].used,
        v[first_fit_from(v, need, i)].size >= need,
    decreases v.len() - i,
{
    if !(i < 0 || i >= v.len()) && !(!v[i].used && v[i].size >= need) {
        lemma_first_fit_from_props(v, need, i + 1);
    }
}

/// A non-negative first-fit index names a free node large enough.
pub proof fn lemma_first_fit_props(v: Seq<BuddyNode>, need: int)
    requires
        first_fit(v, need) >= 0,
    ensures
        first_fit(v, need) < v.len(),
        !v[first_fit(v, need)].used,
        v[first_fit(v, need)].size >= need,
{
    lemma_first_fit_from_props(v, need, 0);
}

/// The scan helper behind `lemma_find_base_props`, walking from `i`.
pub proof fn lemma_find_base_from_props(v: Seq<BuddyNode>, addr: int, i: int)
    requires
        find_base_from(v, addr, i) >= 0,
    ensures
        find_base_from(v, addr, i) < v.len(),
        v[find_base_from(v, addr, i)].base == addr,
    decreases v.len() - i,
{
    if !(i < 0 || i >= v.len()) && v[i].base != addr {
        lemma_find_base_from_props(v, addr, i + 1);
    }
}

/// A non-negative find-base index names the node based at the address.
pub proof fn lemma_find_base_props(v: Seq<BuddyNode>, addr: int)
    requires
        find_base(v, addr) >= 0,
    ensures
        find_base(v, addr) < v.len(),
        v[find_base(v, addr)].base == addr,
{
    lemma_find_base_from_props(v, addr, 0);
}

/// Doubling from a power of two never overshoots a power of two that the
/// request fits in.
proof fn lemma_round_rec_le(s: int, p: int, q: int)
    requires
        is_pow2(p),
        is_pow2(q),
        p <= q,
        q >= s,
        q <= usize::MAX,
        0 < p <= usize::MAX,
    ensures
        0 <= round_rec(s, p) <= q,
    decreases usize::MAX - p,
{
    if p < s {
        lemma_pow2_gt(q, p);
        assert(2 * p <= q);
        assert(2 * p <= usize::MAX);
        assert(p <= usize::MAX / 2);
        assert(is_pow2(2 * p)) by {
            assert((2 * p) % 2 == 0 && (2 * p) / 2 == p);
        }
        lemma_round_rec_le(s, 2 * p, q);
    }
}

/// The rounded size is the smallest fitting block size: no smaller power
/// of two of at least a granule can hold the request.
pub proof fn lemma_round_size_smallest(s: int, q: int)
    requires
        is_pow2(q),
        q >= s,
        q >= GRANULE_SIZE,
        q <= usize::MAX,
    ensures
        0 <= round_size(s) <= q,
{
    reveal_with_fuel(is_pow2, 15);
    lemma_round_rec_le(s, GRANULE_SIZE as int, q);
}

/// Rounds a request up to the smallest power of two of at least a granule;
/// `None` where no such size fits the machine word.
pub fn round_request(size: usize) -> (r: Option<usize>)
    ensures
        match r {
            Some(p) => p == round_size(size as int) && good_size(p as int) && p >= size,
            None => round_size(size as int) == -1,
        },
{
    let mut p: usize = GRANULE_SIZE;
    proof {
        reveal_with_fuel(is_pow2, 15);
        assert(is_pow2(GRANULE_SIZE as int));
    }
    while p < size
        invariant
            good_size(p as int),
            round_rec(size as int, p as int) == round_size(size as int),
        decreases usize::MAX - p,
    {
        if p > usize::MAX / 2 {
            proof {
                assert(round_rec(size as int, p as int) == -1);
            }
            return None;
        }
        p = p * 2;
    }
    Some(p)
}

impl VirtualAllocator {
    /// Slabs needed for `n` nodes.
    fn needed_slabs(n: usize) -> (r: usize)
        requires
            n <= MAX_NODES,
        ensures
            r == slabs_needed(n as int),
    {
        if n <= NODES_PER_SLAB {
            1
        } else {
            (n + (NODES_PER_SLAB - 1)) / NODES_PER_SLAB
        }
    }

    /// Splits node `j` in place until its front block has size `rounded`,
    /// leaving the used flag clear; the freed upper halves follow it in
    /// increasing size.
    #[verifier::loop_isolation(false)]
    #[verifier::spinoff_prover]
    #[verifier::rlimit(100)]
    fn split_node(&mut self, j: usize, rounded: usize)
        requires
            nodes_wf(old(self)@),
            j < old(self)@.len(),
            !old(self)@[j as int].used,
            good_size(rounded as int),
            old(self)@[j as int].size >= rounded,
        ensures
            final(self)@ == old(self)@.take(j as int) + split_chain(
                old(self)@[j as int].base as int,
                old(self)@[j as int].size as int,
                rounded as int,
            ) + old(self)@.skip(j as int + 1),
            final(self).slab_frames_view() == old(self).slab_frames_view(),
            final(self).registry_frame_spec() == old(self).registry_frame_spec(),
    {
        let ghost v0 = self@;
        let ghost jj = j as int;
        let n0 = self.nodes.len();
        let node_base = self.nodes[j].base;
        let node_size = self.nodes[j].size;
        proof {
            lemma_nodes_extent(v0, jj);
            assert(j < n0);
        }
        let ghost chain_b = node_base as int;
        let ghost chain_s = node_size as int;
        let mut cur = node_size;
        let ghost mut suffix: Seq<BuddyNode> = Seq::empty();
        while cur > rounded
            invariant
                good_size(cur as int),
                cur >= rounded,
                cur <= node_size,
                self.nodes@.len() == v0.len() + suffix.len(),
                forall|i: int| 0 <= i < jj ==> self.nodes@[i] == v0[i],
                self.nodes@[jj] == (BuddyNode { base: node_base, size: cur, used: false }),
                forall|t: int| 0 <= t < suffix.len() ==> self.nodes@[jj + 1 + t] == suffix[t],
                forall|i: int|
                    jj + 1 + suffix.len() <= i < self.nodes@.len() ==> self.nodes@[i] == v0[i
                        - suffix.len()],
                split_chain(chain_b, chain_s, rounded as int) == split_chain(
                    chain_b,
                    cur as int,
                    rounded as int,
                ) + suffix,
                self.slab_frames@ == old(self).slab_frames@,
                self.registry_frame == old(self).registry_frame,
            decreases cur,
        {
            proof {
                lemma_pow2_gt(cur as int, rounded as int);
            }
            let half = cur / 2;
            let upper = BuddyNode { base: node_base + half, size: half, used: false };
            self.nodes.insert(j + 1, upper);
            self.nodes[j] = BuddyNode { base: node_base, size: half, used: false };
            proof {
                suffix = seq![upper] + suffix;
            }
            cur = half;
        }
        self.nodes[j] = BuddyNode { base: node_base, size: rounded, used: true };
        proof {
            let c = split_chain(chain_b, chain_s, rounded as int);
            let target = v0.take(jj) + c + v0.skip(jj + 1);
            assert(c == split_chain(chain_b, rounded as int, rounded as int) + suffix);
            assert(c.len() == suffix.len() + 1);
            assert(c[0] == (BuddyNode { base: node_base, size: rounded, used: true }));
            assert forall|t: int| 0 <= t < suffix.len() implies c[t + 1] == suffix[t] by {}
            assert forall|i: int| 0 <= i < target.len() implies self.nodes@[i] == target[i] by {
                if i < jj {
                    assert(target[i] == v0[i]);
                } else if i == jj {
                    assert(target[i] == c[0]);
                } else if i < jj + 1 + suffix.len() {
                    assert(target[i] == c[i - jj]);
                    assert(c[i - jj] == suffix[i - jj - 1]);
                } else {
                    assert(target[i] == v0[i - suffix.len()]);
                }
            }
            assert(self.nodes@ =~= target);
        }
    }

    /// Serves a request of `size` bytes: rounds it to a block size, takes
    /// the first free node at least that large, reserves node storage for
    /// the splits (taking fresh slab frames from the physical allocator
    /// where the arena is full), splits the node down to the block size and
    /// marks the front block used.  Returns the block's base address, or
    /// `None` -- leaving both allocators untouched -- exactly when no node
    /// fits, the arena cannot grow, or the physical allocator cannot back
    /// the growth.
    #[verifier::loop_isolation(false)]
    #[verifier::rlimit(100)]
    pub fn allocate(&mut self, size: usize, physical_allocator: &mut PhysicalAllocator) -> (r:
        Option<usize>)
        requires
            old(self).wf(),
            old(self).frames_ok(old(physical_allocator).num_frames()),
            old(physical_allocator).wf(),
        ensures
            final(self).wf(),
            final(physical_allocator).wf(),
            final(physical_allocator)@.len() == old(physical_allocator)@.len(),
            final(self).frames_ok(final(physical_allocator).num_frames()),
            final(self).registry_frame_spec() == old(self).registry_frame_spec(),
            match r {
                Some(addr) => {
                    &&& alloc_possible(
                        old(self)@,
                        count_free(old(physical_allocator)@),
                        size as int,
                    )
                    &&& addr == old(self)@[first_fit(old(self)@, round_size(size as int))].base
                    &&& final(self)@ == alloc_result(old(self)@, round_size(size as int))
                    &&& final(self).slab_frames_view().len() >= old(self).slab_frames_view().len()
                    &&& final(self).slab_frames_view().take(
                        old(self).slab_frames_view().len() as int,
                    ) == old(self).slab_frames_view()
                    &&& count_free(final(physical_allocator)@) == count_free(
                        old(physical_allocator)@,
                    ) - (final(self).slab_frames_view().len() - old(self).slab_frames_view().len())
                    &&& forall|i: int|
                        0 <= i < old(physical_allocator)@.len() && old(physical_allocator)@[i]
                            ==> final(physical_allocator)@[i]
                    &&& forall|m: int|
                        old(self).slab_frames_view().len() <= m && m < final(self).slab_frames_view().len() ==> !old(physical_allocator)@[#[trigger] final(self).slab_frames_view()[m] as int] && final(physical_allocator)@[final(self).slab_frames_view()[m] as int]
                    &&& forall|m1: int, m2: int|
                        old(self).slab_frames_view().len() <= m1 && m1 < m2 && m2 < final(self).slab_frames_view().len() ==> #[trigger] final(self).slab_frames_view()[m1]
                            != #[trigger] final(self).slab_frames_view()[m2]
                    &&& forall|x: int|
                        0 <= x < old(physical_allocator)@.len() ==> #[trigger] final(physical_allocator)@[x] == (old(physical_allocator)@[x] || exists|m: int|
                            old(self).slab_frames_view().len() <= m < final(self).slab_frames_view().len() && (#[trigger] final(self).slab_frames_view()[m]) as int == x)
                },
                None => {
                    &&& !alloc_possible(
                        old(self)@,
                        count_free(old(physical_allocator)@),
                        size as int,
                    )
                    &&& *final(self) == *old(self)
                    &&& final(physical_allocator)@ == old(physical_allocator)@
                },
            },
    {
        let ghost v0 = self@;
        let rounded = match round_request(size) {
            Some(p) => p,
            None => {
                return None;
            },
        };
        let ghost rr = round_size(size as int);
        // first free node that fits
        let n = self.nodes.len();
        let mut j: usize = 0;
        let mut found = false;
        while j < n && !found
            invariant
                j <= n,
                !found ==> first_fit(v0, rr) == first_fit_from(v0, rr, j as int),
                found ==> j < n && first_fit(v0, rr) == j as int && !v0[j as int].used && v0[
                    j as int
                ].size >= rounded,
            decreases n - j, (if found { 0int } else { 1int }),
        {
            let nd = self.nodes[j];
            if !nd.used && nd.size >= rounded {
                found = true;
            } else {
                j += 1;
            }
        }
        if !found {
            proof {
                assert(first_fit(v0, rr) == -1);
            }
            return None;
        }
        let ghost jj = j as int;
        // how many splits the node takes
        let node_size = self.nodes[j].size;
        let node_base = self.nodes[j].base;
        proof {
            lemma_nodes_extent(v0, jj);
        }
        let mut s = node_size;
        let mut k: usize = 0;
        while s > rounded
            invariant
                good_size(s as int),
                s >= rounded,
                split_count(node_size as int, rr) == k + split_count(s as int, rr),
                k <= MAX_NODES,
            decreases s,
        {
            proof {
                lemma_pow2_gt(s as int, rounded as int);
            }
            s = s / 2;
            if k >= MAX_NODES {
                proof {
                    lemma_split_count_pos(s as int, rr);
                }
                return None;
            }
            k += 1;
        }
        proof {
            assert(split_count(node_size as int, rr) == k);
        }
        let new_len = match self.nodes.len().checked_add(k) {
            Some(m) => m,
            None => {
                return None;
            },
        };
        if new_len > MAX_NODES {
            return None;
        }
        // reserve node storage for the splits
        let cur_slabs = self.slab_frames.len();
        let new_slabs = Self::needed_slabs(new_len);
        proof {
            lemma_slabs_monotone(self.nodes@.len() as int, new_len as int);
            lemma_slabs_bounds(new_len as int);
        }
        let needed = new_slabs - cur_slabs;
        if physical_allocator.get_free() < needed * FRAME_SIZE {
            proof {
                crate::phys::lemma_zeros_in_bounds(
                    physical_allocator@,
                    0,
                    physical_allocator@.len() as int,
                );
            }
            return None;
        }
        let ghost pa0 = physical_allocator@;
        let ghost slabs0 = self.slab_frames@;
        let mut done: usize = 0;
        while done < needed
            invariant
                done <= needed,
                physical_allocator.wf(),
                physical_allocator@.len() == pa0.len(),
                count_free(physical_allocator@) == count_free(pa0) - done,
                self.slab_frames@.len() == cur_slabs + done,
                self.slab_frames@.take(cur_slabs as int) == slabs0,
                forall|i: int| 0 <= i < pa0.len() && pa0[i] ==> #[trigger] physical_allocator@[i],
                forall|m: int|
                    cur_slabs <= m < cur_slabs + done ==> !pa0[#[trigger] self.slab_frames@[m] as int]
                        && physical_allocator@[self.slab_frames@[m] as int] && self.slab_frames@[m]
                        < pa0.len(),
                forall|m1: int, m2: int|
                    cur_slabs <= m1 && m1 < m2 && m2 < cur_slabs + done ==> #[trigger] self.slab_frames@[m1]
                        != #[trigger] self.slab_frames@[m2],
                forall|x: int|
                    0 <= x < pa0.len() ==> #[trigger] physical_allocator@[x] == (pa0[x] || exists|m: int|
                        cur_slabs <= m < cur_slabs + done && (#[trigger] self.slab_frames@[m]) as int
                            == x),
                self.nodes@ == v0,
                self.registry_frame == old(self).registry_frame,
            decreases needed - done,
        {
            let ghost pa_before = physical_allocator@;
            let ghost fs_before = self.slab_frames@;
            match physical_allocator.allocate() {
                Some(f) => {
                    self.slab_frames.push(f);
                    proof {
                        assert(self.slab_frames@.take(cur_slabs as int) =~= slabs0);
                        let fs = self.slab_frames@;
                        assert forall|x: int|
                            0 <= x < pa0.len() implies #[trigger] physical_allocator@[x] == (pa0[x]
                            || exists|m: int|
                            cur_slabs <= m < cur_slabs + (done + 1) && (#[trigger] fs[m]) as int
                                == x) by {
                            assert(physical_allocator@[x] == (pa_before[x] || x == f as int));
                            if physical_allocator@[x] {
                                if x == f as int {
                                    assert(fs[cur_slabs + done as int] as int == x);
                                } else {
                                    assert(pa_before[x]);
                                    if !pa0[x] {
                                        let m = choose|m: int|
                                            cur_slabs <= m < cur_slabs + done && (
                                            #[trigger] fs_before[m]) as int == x;
                                        assert(fs[m] == fs_before[m]);
                                    }
                                }
                            } else {
                                if exists|m: int|
                                    cur_slabs <= m < cur_slabs + (done + 1) && (
                                    #[trigger] fs[m]) as int == x {
                                    let m = choose|m: int|
                                        cur_slabs <= m < cur_slabs + (done + 1) && (
                                        #[trigger] fs[m]) as int == x;
                                    if m < cur_slabs + done {
                                        assert(fs_before[m] == fs[m]);
                                        assert(pa_before[x]);
                                    } else {
                                        assert(fs[m] == f);
                                    }
                                    assert(false);
                                }
                            }
                        }
                    }
                },
                None => {
                    proof {
                        assert(false);
                    }
                    return None;
                },
            }
            done += 1;
        }
        proof {
            assert(self@ == v0);
        }
        self.split_node(j, rounded);
        proof {
            lemma_split_chain_len(node_base as int, node_size as int, rr);
            assert(self.nodes@.len() == new_len);
            lemma_alloc_result_wf(v0, rr);
            assert(self.nodes@ == alloc_result(v0, rr));
            assert forall|i: int|
                0 <= i < self.slab_frames@.len() implies (#[trigger] self.slab_frames@[i])
                < physical_allocator@.len() by {
                if i < cur_slabs {
                    assert(self.slab_frames@.take(cur_slabs as int)[i] == slabs0[i]);
                    assert(self.slab_frames@[i] == slabs0[i]);
                }
            }
        }
        Some(node_base)
    }

    /// Merges node `j` (which must be free) with equal-size free
    /// neighbours, right side first, until neither side can merge; hands
    /// back the merged node's index.
    #[verifier::loop_isolation(false)]
    #[verifier::spinoff_prover]
    #[verifier::rlimit(100)]
    fn merge_around(&mut self, j: usize) -> (r: usize)
        requires
            nodes_wf(old(self)@),
            (j as int) < old(self)@.len(),
            !old(self)@[j as int].used,
        ensures
            final(self)@ == coalesce(old(self)@, j as int),
            nodes_wf(final(self)@),
            final(self)@.len() <= old(self)@.len(),
            merged_except(old(self)@, j as int) ==> merged(final(self)@),
            final(self).slab_frames_view() == old(self).slab_frames_view(),
            final(self).registry_frame_spec() == old(self).registry_frame_spec(),
    {
        let ghost w0 = self@;
        let ghost jj0 = j as int;
        let mut j = j;
        let mut again = true;
        while again
            invariant
                self.nodes@.len() >= 1,
                (j as int) < self.nodes@.len(),
                !self.nodes@[j as int].used,
                nodes_wf(self.nodes@),
                self.nodes@.len() <= w0.len(),
                coalesce(self.nodes@, j as int) == coalesce(w0, jj0),
                merged_except(w0, jj0) ==> merged_except(self.nodes@, j as int),
                !again ==> !(j as int + 1 < self.nodes@.len() && !self.nodes@[j as int + 1].used
                    && self.nodes@[j as int].size == self.nodes@[j as int + 1].size),
                !again ==> !(j as int - 1 >= 0 && !self.nodes@[j as int - 1].used && self.nodes@[
                    j as int - 1
                ].size == self.nodes@[j as int].size),
                self.slab_frames@ == old(self).slab_frames@,
                self.registry_frame == old(self).registry_frame,
            decreases self.nodes@.len(), (if again { 1int } else { 0int }),
        {
            let ghost pre = self.nodes@;
            let len = self.nodes.len();
            if j + 1 < len && !self.nodes[j + 1].used && self.nodes[j].size == self.nodes[j
                + 1].size {
                proof {
                    lemma_nodes_extent(pre, j as int + 1);
                }
                let merged_node = BuddyNode {
                    base: self.nodes[j].base,
                    size: self.nodes[j].size + self.nodes[j + 1].size,
                    used: false,
                };
                self.nodes[j] = merged_node;
                self.nodes.remove(j + 1);
                proof {
                    assert(self.nodes@ =~= merge_at(pre, j as int));
                    lemma_merge_at_wf(pre, j as int);
                    assert(coalesce(pre, j as int) == coalesce(merge_at(pre, j as int), j as int));
                    if merged_except(w0, jj0) {
                        lemma_merge_at_except(pre, j as int);
                    }
                }
            } else if j > 0 && !self.nodes[j - 1].used && self.nodes[j - 1].size
                == self.nodes[j].size {
                proof {
                    lemma_nodes_extent(pre, j as int);
                }
                let merged_node = BuddyNode {
                    base: self.nodes[j - 1].base,
                    size: self.nodes[j - 1].size + self.nodes[j].size,
                    used: false,
                };
                self.nodes[j - 1] = merged_node;
                self.nodes.remove(j);
                proof {
                    assert(self.nodes@ =~= merge_at(pre, j as int - 1));
                    lemma_merge_at_wf(pre, j as int - 1);
                    assert(coalesce(pre, j as int) == coalesce(
                        merge_at(pre, j as int - 1),
                        j as int - 1,
                    ));
                    if merged_except(w0, jj0) {
                        lemma_merge_at_except(pre, j as int - 1);
                    }
                }
                j -= 1;
            } else {
                again = false;
            }
        }
        proof {
            assert(coalesce(self.nodes@, j as int) == self.nodes@);
        }
        j
    }

    /// Pops slab frames the shrunken node list no longer needs and hands
    /// them back to the physical allocator, newest first.
    #[verifier::loop_isolation(false)]
    #[verifier::spinoff_prover]
    #[verifier::rlimit(100)]
    fn shrink_slabs(&mut self, physical_allocator: &mut PhysicalAllocator)
        requires
            old(self)@.len() <= MAX_NODES,
            slabs_needed(old(self)@.len() as int) <= old(self).slab_frames_view().len(),
            old(self).frames_ok(old(physical_allocator).num_frames()),
            old(physical_allocator).wf(),
        ensures
            final(self)@ == old(self)@,
            final(self).slab_frames_view() == old(self).slab_frames_view().take(
                slabs_needed(old(self)@.len() as int),
            ),
            final(self).registry_frame_spec() == old(self).registry_frame_spec(),
            final(physical_allocator).wf(),
            final(physical_allocator)@.len() == old(physical_allocator)@.len(),
            final(physical_allocator)@ == clear_frames(
                old(physical_allocator)@,
                old(self).slab_frames_view(),
                slabs_needed(old(self)@.len() as int),
            ),
            count_free(final(physical_allocator)@) >= count_free(old(physical_allocator)@),
            final(self).frames_ok(final(physical_allocator).num_frames()),
    {
        let target = Self::needed_slabs(self.nodes.len());
        let ghost pa0 = physical_allocator@;
        let ghost slabs0 = self.slab_frames@;
        let ghost nodes_fixed = self.nodes@;
        proof {
            assert(self.slab_frames@ =~= slabs0.take(self.slab_frames@.len() as int));
        }
        while self.slab_frames.len() > target
            invariant
                target <= self.slab_frames@.len(),
                self.slab_frames@.len() <= slabs0.len(),
                self.slab_frames@ == slabs0.take(self.slab_frames@.len() as int),
                physical_allocator.wf(),
                physical_allocator@.len() == pa0.len(),
                clear_frames(physical_allocator@, self.slab_frames@, target as int) == clear_frames(
                    pa0,
                    slabs0,
                    target as int,
                ),
                count_free(physical_allocator@) >= count_free(pa0),
                forall|i: int|
                    0 <= i < self.slab_frames@.len() ==> (#[trigger] self.slab_frames@[i])
                        < physical_allocator@.len(),
                self.nodes@ == nodes_fixed,
                self.registry_frame == old(self).registry_frame,
            decreases self.slab_frames@.len(),
        {
            let ghost fs_pre = self.slab_frames@;
            let ghost pa_pre = physical_allocator@;
            let f = match self.slab_frames.pop() {
                Some(f) => f,
                None => {
                    proof {
                        assert(false);
                    }
                    0
                },
            };
            physical_allocator.free(f);
            proof {
                assert(self.slab_frames@ =~= slabs0.take(self.slab_frames@.len() as int));
                crate::phys::lemma_count_free_update(pa_pre, f as int, false);
                assert(clear_frames(pa_pre, fs_pre, target as int) == clear_frames(
                    physical_allocator@,
                    self.slab_frames@,
                    target as int,
                ));
            }
        }
        proof {
            assert(self.slab_frames@.len() == target);
            assert(clear_frames(physical_allocator@, self.slab_frames@, target as int)
                == physical_allocator@);
        }
    }

    /// Returns the block at address `ptr` -- which must have been handed out
    /// by `allocate` -- to the allocator: clears its used flag, then merges
    /// address-adjacent free blocks of equal size until none remain around
    /// it, returning emptied node slabs to the physical allocator.
    #[verifier::loop_isolation(false)]
    #[verifier::rlimit(100)]
    pub fn free(&mut self, ptr: usize, physical_allocator: &mut PhysicalAllocator)
        requires
            old(self).wf(),
            old(self).frames_ok(old(physical_allocator).num_frames()),
            old(physical_allocator).wf(),
            find_base(old(self)@, ptr as int) >= 0,
            old(self)@[find_base(old(self)@, ptr as int)].used,
        ensures
            final(self).wf(),
            final(physical_allocator).wf(),
            final(physical_allocator)@.len() == old(physical_allocator)@.len(),
            final(self).frames_ok(final(physical_allocator).num_frames()),
            final(self).registry_frame_spec() == old(self).registry_frame_spec(),
            final(self)@ == free_result(old(self)@, find_base(old(self)@, ptr as int)),
            merged(old(self)@) ==> merged(final(self)@),
            final(self).slab_frames_view() == old(self).slab_frames_view().take(
                slabs_needed(final(self)@.len() as int),
            ),
            final(physical_allocator)@ == clear_frames(
                old(physical_allocator)@,
                old(self).slab_frames_view(),
                slabs_needed(final(self)@.len() as int),
            ),
            count_free(final(physical_allocator)@) >= count_free(old(physical_allocator)@),
    {
        let ghost v0 = self@;
        let ghost jj0 = find_base(v0, ptr as int);
        // locate the node by its base address
        let n = self.nodes.len();
        let mut j: usize = 0;
        let mut found = false;
        while j < n && !found
            invariant
                j <= n,
                !found ==> find_base(v0, ptr as int) == find_base_from(v0, ptr as int, j as int),
                found ==> j < n && j as int == jj0 && v0[j as int].base == ptr,
            decreases n - j, (if found { 0int } else { 1int }),
        {
            if self.nodes[j].base == ptr {
                found = true;
            } else {
                j += 1;
            }
        }
        proof {
            assert(found);
        }
        let freed_size = self.nodes[j].size;
        self.nodes[j] = BuddyNode { base: ptr, size: freed_size, used: false };
        let ghost w0 = v0.update(
            jj0,
            BuddyNode { base: v0[jj0].base, size: v0[jj0].size, used: false },
        );
        proof {
            assert(self.nodes@ =~= w0);
            assert(nodes_wf(w0)) by {
                assert forall|i: int| 0 <= i < w0.len() implies good_size(
                    (#[trigger] w0[i]).size as int,
                ) by {
                    assert(w0[i].size == v0[i].size);
                }
                assert forall|i: int|
                    0 <= i < w0.len() - 1 implies (#[trigger] w0[i]).base + w0[i].size == w0[i
                    + 1].base by {
                    assert(w0[i].base == v0[i].base && w0[i].size == v0[i].size);
                    assert(w0[i + 1].base == v0[i + 1].base);
                }
            }
            if merged(v0) {
                assert forall|i: int|
                    0 <= i < w0.len() - 1 && i != jj0 - 1 && i != jj0 implies !(!(
                #[trigger] w0[i]).used && !w0[i + 1].used && w0[i].size == w0[i + 1].size) by {
                    assert(w0[i] == v0[i] && w0[i + 1] == v0[i + 1]);
                }
                assert(merged_except(w0, jj0));
            }
        }
        let _merged_at = self.merge_around(j);
        proof {
            assert(self.nodes@ == free_result(v0, jj0));
        }
        // hand emptied slabs back
        proof {
            lemma_coalesce_len(w0, jj0);
        }
        self.shrink_slabs(physical_allocator);
    }
}

/// Merging two adjacent equal-size free blocks keeps the list well formed.
proof fn lemma_merge_at_wf(v: Seq<BuddyNode>, i: int)
    requires
        nodes_wf(v),
        0 <= i < v.len() - 1,
        !v[i].used,
        !v[i + 1].used,
        v[i].size == v[i + 1].size,
    ensures
        nodes_wf(merge_at(v, i)),
        merge_at(v, i).len() == v.len() - 1,
 
{
    let w = merge_at(v, i);
    assert forall|k: int| 0 <= k < w.len() implies good_size((#[trigger] w[k]).size as int) by {
        if k < i {
            assert(w[k] == v[k]);
        } else if k == i {
            lemma_nodes_extent(v, i + 1);
            assert(w[k].size == v[i].size + v[i + 1].size);
            assert(is_pow2(2 * v[i].size as int));
        } else {
            assert(w[k] == v[k + 1]);
        }
    }
    assert forall|k: int|
        0 <= k < w.len() - 1 implies (#[trigger] w[k]).base + w[k].size == w[k + 1].base by {
        if k < i - 1 {
            assert(w[k] == v[k] && w[k + 1] == v[k + 1]);
        } else if k == i - 1 {
            assert(w[k] == v[k] && w[k + 1].base == v[i].base);
        } else if k == i {
            assert(w[k].base == v[i].base && w[k].size == v[i].size + v[i + 1].size);
            assert(w[k + 1] == v[i + 2]);
        } else {
            assert(w[k] == v[k + 1] && w[k + 1] == v[k + 2]);
        }
    }
    assert(w[w.len() - 1].base + w[w.len() - 1].size <= usize::MAX) by {
        if i == v.len() - 2 {
            assert(w[w.len() - 1].base == v[i].base);
        } else {
            assert(w[w.len() - 1] == v[v.len() - 1]);
        }
    }
}

/// Merging at `i` keeps every pair away from `i` merged.
proof fn lemma_merge_at_except(v: Seq<BuddyNode>, i: int)
    requires
        0 <= i < v.len() - 1,
        merged_except(v, i) || merged_except(v, i + 1),
    ensures
        merged_except(merge_at(v, i), i),
 
{
    let w = merge_at(v, i);
    assert forall|k: int|
        0 <= k < w.len() - 1 && k != i - 1 && k != i implies !(!(#[trigger] w[k]).used && !w[k
        + 1].used && w[k].size == w[k + 1].size) by {
        if k < i - 1 {
            assert(w[k] == v[k] && w[k + 1] == v[k + 1]);
        } else {
            assert(w[k] == v[k + 1] && w[k + 1] == v[k + 2]);
        }
    }
}

/// Coalescing never grows the list.
proof fn lemma_coalesce_len(v: Seq<BuddyNode>, j: int)
    ensures
        coalesce(v, j).len() <= v.len(),
    decreases v.len(),
{
    if 0 <= j < v.len() && j + 1 < v.len() && !v[j].used && !v[j + 1].used && v[j].size == v[j
        + 1].size {
        lemma_coalesce_len(merge_at(v, j), j);
    } else if 0 <= j < v.len() && j - 1 >= 0 && !v[j - 1].used && !v[j].used && v[j - 1].size
        == v[j].size {
        lemma_coalesce_len(merge_at(v, j - 1), j - 1);
    }
}


/// The doubling helper behind `lemma_round_size_props`.
pub proof fn lemma_round_rec_props(s: int, p: int)
    requires
        is_pow2(p),
        p >= GRANULE_SIZE,
        round_rec(s, p) >= 0,
    ensures
        good_size(round_rec(s, p)),
        round_rec(s, p) >= s,
        round_rec(s, p) <= usize::MAX,
    decreases usize::MAX - p,
{
    if p < s && p <= usize::MAX / 2 {
        assert(is_pow2(2 * p)) by {
            assert((2 * p) % 2 == 0 && (2 * p) / 2 == p);
        }
        lemma_round_rec_props(s, 2 * p);
    }
}

/// Properties of a successful rounding: a power of two, at least a granule,
/// at least the request.
pub proof fn lemma_round_size_props(s: int)
    requires
        round_size(s) >= 0,
    ensures
        good_size(round_size(s)),
        round_size(s) >= s,
        round_size(s) <= usize::MAX,
{
    reveal_with_fuel(is_pow2, 15);
    lemma_round_rec_props(s, GRANULE_SIZE as int);
}

/// Bases are strictly increasing along a well-formed node list.
proof fn lemma_bases_increasing(v: Seq<BuddyNode>, i: int, j: int)
    requires
        nodes_wf(v),
        0 <= i < j < v.len(),
    ensures
        v[i].base < v[j].base,
    decreases j - i,
{
    if i + 1 < j {
        lemma_bases_increasing(v, i + 1, j);
    }
}

/// The split chain's head and its immediate successor are the two
/// request-sized blocks; everything after them is the chain for the
/// doubled size.
proof fn lemma_chain_step(b: int, s: int, r: int)
    requires
        good_size(r),
        good_size(s),
        r < s,
    ensures
        split_chain(b, s, r) =~= seq![
            BuddyNode { base: b as usize, size: r as usize, used: true },
            BuddyNode { base: (b + r) as usize, size: r as usize, used: false },
        ] + split_chain(b, s, 2 * r).skip(1),
        split_chain(b, s, 2 * r).len() >= 1,
        split_chain(b, s, 2 * r)[0] == (BuddyNode {
            base: b as usize,
            size: (2 * r) as usize,
            used: true,
        }),
    decreases s,
{
    lemma_pow2_gt(s, r);
    assert(is_pow2(2 * r)) by {
        assert((2 * r) % 2 == 0 && (2 * r) / 2 == r);
    }
    if s == 2 * r {
        assert(split_chain(b, s, r) =~= split_chain(b, r, r).push(
            BuddyNode { base: (b + r) as usize, size: r as usize, used: false },
        ));
    } else {
        assert(s / 2 >= 2 * r) by {
            lemma_pow2_gt(s, 2 * r);
        }
        lemma_chain_step(b, s / 2, r);
        assert(split_chain(b, s, r) =~= split_chain(b, s / 2, r).push(
            BuddyNode { base: (b + s / 2) as usize, size: (s / 2) as usize, used: false },
        ));
        assert(split_chain(b, s, 2 * r) =~= split_chain(b, s / 2, 2 * r).push(
            BuddyNode { base: (b + s / 2) as usize, size: (s / 2) as usize, used: false },
        ));
        assert(split_chain(b, s, r) =~= seq![
            BuddyNode { base: b as usize, size: r as usize, used: true },
            BuddyNode { base: (b + r) as usize, size: r as usize, used: false },
        ] + split_chain(b, s, 2 * r).skip(1));
    }
}

/// The split chain with its head freed.
spec fn free_chain(b: int, s: int, r: int) -> Seq<BuddyNode> {
    split_chain(b, s, r).update(0, BuddyNode { base: b as usize, size: r as usize, used: false })
}

/// Freeing the head of a split chain and merging to the right collapses
/// the whole chain back into the original block.
#[verifier::spinoff_prover]
#[verifier::rlimit(100)]
proof fn lemma_coalesce_chain(prefix: Seq<BuddyNode>, suffix: Seq<BuddyNode>, b: int, s: int, r: int)
    requires
        good_size(r),
        good_size(s),
        r <= s,
        s <= usize::MAX,
    ensures
        coalesce(prefix + free_chain(b, s, r) + suffix, prefix.len() as int) == coalesce(
            prefix + seq![BuddyNode { base: b as usize, size: s as usize, used: false }] + suffix,
            prefix.len() as int,
        ),
    decreases s - r,
{
    let j = prefix.len() as int;
    if s == r {
        assert(free_chain(b, s, r) =~= seq![
            BuddyNode { base: b as usize, size: s as usize, used: false },
        ]);
    } else {
        lemma_chain_step(b, s, r);
        let v = prefix + free_chain(b, s, r) + suffix;
        assert(v[j] == (BuddyNode { base: b as usize, size: r as usize, used: false }));
        assert(v[j + 1] == (BuddyNode { base: (b + r) as usize, size: r as usize, used: false }));
        assert(coalesce(v, j) == coalesce(merge_at(v, j), j));
        assert(merge_at(v, j) =~= prefix + free_chain(b, s, 2 * r) + suffix) by {
            assert(free_chain(b, s, 2 * r) =~= seq![
                BuddyNode { base: b as usize, size: (2 * r) as usize, used: false },
            ] + split_chain(b, s, 2 * r).skip(1));
        }
        assert(is_pow2(2 * r)) by {
            assert((2 * r) % 2 == 0 && (2 * r) / 2 == r);
        }
        assert(2 * r <= s) by {
            lemma_pow2_gt(s, r);
        }
        lemma_coalesce_chain(prefix, suffix, b, s, 2 * r);
    }
}

/// The block an allocation hands out is the node `free` will find: its
/// base address scans to the split chain's head, which is the used block
/// of the rounded size, ending inside the machine word.
pub proof fn lemma_alloc_result_find_base(v: Seq<BuddyNode>, r: int)
    requires
        nodes_wf(v),
        good_size(r),
        first_fit(v, r) >= 0,
    ensures
        ({
            let j = first_fit(v, r);
            let w = alloc_result(v, r);
            &&& find_base(w, v[j].base as int) == j
            &&& w[j].used
            &&& w[j].base == v[j].base
            &&& w[j].size == r
            &&& v[j].base + r <= usize::MAX
        }),
{
    let j = first_fit(v, r);
    let w = alloc_result(v, r);
    lemma_first_fit_props(v, r);
    lemma_alloc_result_wf(v, r);
    lemma_nodes_extent(v, j);
    assert forall|i: int| 0 <= i < j implies w[i].base != v[j].base as int by {
        assert(w[i] == v[i]);
        lemma_bases_increasing(v, i, j);
    }
    lemma_find_base_prefix(w, v[j].base as int, j);
}

/// Allocating a block and immediately freeing it restores the node list
/// exactly: the split chain merges back into the node it was carved from,
/// and nothing else moves.  (The slab frames the allocation took are the
/// ones the free hands back, so the physical allocator's bitmap is restored
/// too; see `lemma_set_then_clear_frames`.)
#[verifier::spinoff_prover]
#[verifier::rlimit(100)]
pub proof fn lemma_alloc_free_round_trip(v: Seq<BuddyNode>, size: int)
    requires
        nodes_wf(v),
        merged(v),
        round_size(size) >= 0,
        first_fit(v, round_size(size)) >= 0,
    ensures
        ({
            let r = round_size(size);
            let j = first_fit(v, r);
            let w = alloc_result(v, r);
            &&& find_base(w, v[j].base as int) == j
            &&& free_result(w, j) == v
        }),
{
    let r = round_size(size);
    let j = first_fit(v, r);
    let w = alloc_result(v, r);
    lemma_round_size_props(size);
    lemma_first_fit_props(v, r);
    lemma_nodes_extent(v, j);
    let b = v[j].base as int;
    let s = v[j].size as int;
    let c = split_chain(b, s, r);
    lemma_split_chain_props(b, s, r);
    // the freed head turns the chain into the all-free chain
    assert(w[j] == c[0]);
    assert(w.update(j, BuddyNode { base: w[j].base, size: w[j].size, used: false }) =~= v.take(j)
        + free_chain(b, s, r) + v.skip(j + 1));
    lemma_coalesce_chain(v.take(j), v.skip(j + 1), b, s, r);
    assert(v.take(j) + seq![BuddyNode { base: b as usize, size: s as usize, used: false }] + v.skip(
        j + 1,
    ) =~= v);
    // a merged list does not coalesce around a node it already holds
    assert(coalesce(v, j) == v);
    assert(free_result(w, j) == v);
    // the freed address finds exactly the chain head
    assert forall|i: int| 0 <= i < j implies w[i].base != b by {
        assert(w[i] == v[i]);
        lemma_bases_increasing(v, i, j);
    }
    lemma_find_base_prefix(w, b, j);
}

/// Scanning for a base address skips every earlier node whose base
/// differs.
proof fn lemma_find_base_prefix(w: Seq<BuddyNode>, addr: int, j: int)
    requires
        0 <= j < w.len(),
        w[j].base == addr,
        forall|i: int| 0 <= i < j ==> (#[trigger] w[i]).base != addr,
    ensures
        find_base(w, addr) == j,
{
    lemma_find_base_scan(w, addr, 0, j);
}

/// The scan helper behind `lemma_find_base_prefix`, walking from `i`.
proof fn lemma_find_base_scan(w: Seq<BuddyNode>, addr: int, i: int, j: int)
    requires
        0 <= i <= j < w.len(),
        w[j].base == addr,
        forall|k: int| i <= k < j ==> (#[trigger] w[k]).base != addr,
    ensures
        find_base_from(w, addr, i) == j,
    decreases j - i,
{
    if i < j {
        lemma_find_base_scan(w, addr, i + 1, j);
    }
}

/// Handing slab frames back only clears bits: no frame becomes used.
pub proof fn lemma_clear_frames_le(view: Seq<bool>, fs: Seq<usize>, keep: int)
    requires
        0 <= keep,
        forall|i: int| keep <= i < fs.len() ==> (#[trigger] fs[i]) < view.len(),
    ensures
        clear_frames(view, fs, keep).len() == view.len(),
        forall|x: int|
            0 <= x < view.len() && #[trigger] clear_frames(view, fs, keep)[x] ==> view[x],
    decreases fs.len(),
{
    if !(fs.len() <= keep || fs.len() == 0) {
        let fsb = fs.drop_last();
        let viewb = view.update(fs.last() as int, false);
        assert forall|i: int| keep <= i < fsb.len() implies (#[trigger] fsb[i]) < viewb.len() by {
            assert(fsb[i] == fs[i]);
        }
        lemma_clear_frames_le(viewb, fsb, keep);
    }
}

/// Setting a batch of distinct, previously free frames and then clearing
/// the same batch restores the bitmap exactly.
pub proof fn lemma_set_then_clear_frames(view1: Seq<bool>, view2: Seq<bool>, fs: Seq<usize>, keep: int)
    requires
        0 <= keep <= fs.len(),
        view2.len() == view1.len(),
        forall|i: int| keep <= i < fs.len() ==> (#[trigger] fs[i]) < view1.len() && !view1[fs[i] as int],
        forall|i: int, k: int| keep <= i < fs.len() && keep <= k < fs.len() && i != k ==> (#[trigger] fs[i]) != (#[trigger] fs[k]),
        forall|x: int|
            0 <= x < view1.len() ==> #[trigger] view2[x] == (view1[x] || exists|i: int|
                keep <= i < fs.len() && (#[trigger] fs[i]) as int == x),
    ensures
        clear_frames(view2, fs, keep) == view1,
    decreases fs.len(),
{
    if fs.len() <= keep || fs.len() == 0 {
        assert(view2 =~= view1);
    } else {
        let last = fs.last();
        let view2b = view2.update(last as int, false);
        let fsb = fs.drop_last();
        assert forall|x: int|
            0 <= x < view1.len() implies #[trigger] view2b[x] == (view1[x] || exists|i: int|
            keep <= i < fsb.len() && (#[trigger] fsb[i]) as int == x) by {
            if x == last as int {
                assert(!view1[x]);
                assert forall|i: int| keep <= i < fsb.len() implies (#[trigger] fsb[i]) as int
                    != x by {
                    assert(fsb[i] == fs[i]);
                    assert(fs[i] != fs[fs.len() - 1]);
                }
            } else {
                if view2[x] && !view1[x] {
                    let i = choose|i: int|
                        keep <= i < fs.len() && (#[trigger] fs[i]) as int == x;
                    assert(i < fs.len() - 1);
                    assert(fsb[i] == fs[i]);
                }
                if exists|i: int| keep <= i < fsb.len() && (#[trigger] fsb[i]) as int == x {
                    let i = choose|i: int|
                        keep <= i < fsb.len() && (#[trigger] fsb[i]) as int == x;
                    assert(fs[i] == fsb[i]);
                }
            }
        }
        lemma_set_then_clear_frames(view1, view2b, fsb, keep);
    }
}

/// Eager merge survives an allocation on every input but one: splitting
/// leaves no equal-size adjacent free pair unless the carved node's upper
/// half comes to rest beside a free block of exactly half the node's size,
/// which the last premise leaves out.
#[verifier::spinoff_prover]
#[verifier::rlimit(100)]
pub proof fn lemma_allocate_keeps_merge(v: Seq<BuddyNode>, size: int)
    requires
        nodes_wf(v),
        merged(v),
        round_size(size) >= 0,
        first_fit(v, round_size(size)) >= 0,
        ({
            let r = round_size(size);
            let j = first_fit(v, r);
            v[j].size > r && j + 1 < v.len() ==> !(!v[j + 1].used && 2 * v[j + 1].size
                == v[j].size)
        }),
    ensures
        merged(alloc_result(v, round_size(size))),
{
    let r = round_size(size);
    let j = first_fit(v, r);
    let w = alloc_result(v, r);
    lemma_round_size_props(size);
    lemma_first_fit_props(v, r);
    lemma_nodes_extent(v, j);
    let b = v[j].base as int;
    let s = v[j].size as int;
    let c = split_chain(b, s, r);
    lemma_split_chain_props(b, s, r);
    assert forall|i: int|
        0 <= i < w.len() - 1 implies !(!(#[trigger] w[i]).used && !w[i + 1].used && w[i].size
        == w[i + 1].size) by {
        if i < j - 1 {
            assert(w[i] == v[i] && w[i + 1] == v[i + 1]);
        } else if i == j - 1 {
            assert(w[i] == v[i] && w[i + 1] == c[0]);
            assert(c[0].used);
        } else if i < j + c.len() - 1 {
            assert(w[i] == c[i - j] && w[i + 1] == c[i - j + 1]);
            if i == j {
                assert(c[0].used);
            } else {
                assert(c[i - j + 1].size == 2 * c[i - j].size);
            }
        } else if i == j + c.len() - 1 {
            assert(w[i] == c[c.len() - 1] && w[i + 1] == v[j + 1]);
            if s == r {
                assert(c.len() == 1);
                assert(c[0].used);
            } else {
                assert(2 * c[c.len() - 1].size == s);
            }
        } else {
            assert(w[i] == v[i - c.len() + 1] && w[i + 1] == v[i - c.len() + 2]);
        }
    }
}

} // verus!