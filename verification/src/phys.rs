//! Physical frame allocator: one bit per 4096-byte frame, 1 = in use.
//!
//! The allocator owns a bitmap over every physical page frame and keeps a
//! running count of the free ones, so that `get_free` is constant-time while
//! `get_free_actual` rescans the bitmap.

use vstd::prelude::*;

verus! {

use crate::FRAME_SIZE;

/// Reports whether bit `i` of `byte` is set.
pub open spec fn byte_bit(byte: u8, i: u8) -> bool {
    (byte >> i) & 1 == 1
}

/// Number of clear (free) bits among positions `lo..hi` of `s`.
pub open spec fn zeros_in(s: Seq<bool>, lo: int, hi: int) -> int
    decreases hi - lo,
{
    if lo >= hi {
        0
    } else {
        zeros_in(s, lo, hi - 1) + if s[hi - 1] { 0int } else { 1int }
    }
}

/// Number of frames whose bit is clear (free) in `s`.
pub open spec fn count_free(s: Seq<bool>) -> int {
    zeros_in(s, 0, s.len() as int)
}

/// Counting zero bits over adjacent ranges adds up.
pub proof fn lemma_zeros_in_split(s: Seq<bool>, a: int, b: int, c: int)
    requires
        a <= b <= c,
    ensures
        zeros_in(s, a, c) == zeros_in(s, a, b) + zeros_in(s, b, c),
    decreases c - b,
{
    if b < c {
        lemma_zeros_in_split(s, a, b, c - 1);
    }
}

/// `zeros_in` only reads the entries of the range it counts.
pub proof fn lemma_zeros_in_agree(s: Seq<bool>, t: Seq<bool>, lo: int, hi: int)
    requires
        forall|k: int| lo <= k < hi ==> #[trigger] s[k] == t[k],
    ensures
        zeros_in(s, lo, hi) == zeros_in(t, lo, hi),
    decreases hi - lo,
{
    if lo < hi {
        lemma_zeros_in_agree(s, t, lo, hi - 1);
    }
}

/// The count of a range is between 0 and the range's width.
pub proof fn lemma_zeros_in_bounds(s: Seq<bool>, lo: int, hi: int)
    ensures
        0 <= zeros_in(s, lo, hi),
        lo <= hi ==> zeros_in(s, lo, hi) <= hi - lo,
    decreases hi - lo,
{
    if lo < hi {
        lemma_zeros_in_bounds(s, lo, hi - 1);
    }
}

/// A range of set bits counts no free frame.
pub proof fn lemma_zeros_in_all_true(s: Seq<bool>, lo: int, hi: int)
    requires
        forall|k: int| lo <= k < hi ==> #[trigger] s[k],
    ensures
        zeros_in(s, lo, hi) == 0,
    decreases hi - lo,
{
    if lo < hi {
        lemma_zeros_in_all_true(s, lo, hi - 1);
    }
}

/// A range of clear bits counts one free frame per entry.
pub proof fn lemma_zeros_in_all_false(s: Seq<bool>, lo: int, hi: int)
    requires
        lo <= hi,
        forall|k: int| lo <= k < hi ==> !#[trigger] s[k],
    ensures
        zeros_in(s, lo, hi) == hi - lo,
    decreases hi - lo,
{
    if lo < hi {
        lemma_zeros_in_all_false(s, lo, hi - 1);
    }
}

/// One-entry ranges count exactly the one bit.
pub proof fn lemma_zeros_in_one(s: Seq<bool>, i: int)
    ensures
        zeros_in(s, i, i + 1) == if s[i] { 0int } else { 1int },
{
    reveal_with_fuel(zeros_in, 2);
}

/// A clear bit witnesses at least one free frame.
pub proof fn lemma_count_free_pos(s: Seq<bool>, i: int)
    requires
        0 <= i < s.len(),
        !s[i],
    ensures
        count_free(s) >= 1,
{
    lemma_zeros_in_split(s, 0, i, s.len() as int);
    lemma_zeros_in_split(s, i, i + 1, s.len() as int);
    lemma_zeros_in_one(s, i);
    lemma_zeros_in_bounds(s, 0, i);
    lemma_zeros_in_bounds(s, i + 1, s.len() as int);
}

/// A set bit keeps the free count strictly below the frame count.
pub proof fn lemma_count_free_lt(s: Seq<bool>, i: int)
    requires
        0 <= i < s.len(),
        s[i],
    ensures
        count_free(s) <= s.len() - 1,
{
    lemma_zeros_in_split(s, 0, i, s.len() as int);
    lemma_zeros_in_split(s, i, i + 1, s.len() as int);
    lemma_zeros_in_one(s, i);
    lemma_zeros_in_bounds(s, 0, i);
    lemma_zeros_in_bounds(s, i + 1, s.len() as int);
}

/// How the free count changes when one bit changes.
pub proof fn lemma_count_free_update(s: Seq<bool>, i: int, v: bool)
    requires
        0 <= i < s.len(),
    ensures
        count_free(s.update(i, v)) == count_free(s) - (if s[i] { 0int } else { 1int }) + (
        if v {
            0int
        } else {
            1int
        }),
{
    let t = s.update(i, v);
    lemma_zeros_in_split(s, 0, i, s.len() as int);
    lemma_zeros_in_split(s, i, i + 1, s.len() as int);
    lemma_zeros_in_split(t, 0, i, t.len() as int);
    lemma_zeros_in_split(t, i, i + 1, t.len() as int);
    lemma_zeros_in_agree(s, t, 0, i);
    lemma_zeros_in_agree(s, t, i + 1, s.len() as int);
    lemma_zeros_in_one(s, i);
    lemma_zeros_in_one(t, i);
}

/// Owns the bitmap over all physical page frames and a running count of the
/// free ones, so that `get_free` is constant-time.
pub struct PhysicalAllocator {
    bitmap: Vec<u8>,
    free_frames: usize,
}

impl View for PhysicalAllocator {
    type V = Seq<bool>;

    /// One entry per frame; true means the frame is in use.
    closed spec fn view(&self) -> Seq<bool> {
        Seq::new(self.bitmap@.len() * 8, |i: int| byte_bit(self.bitmap@[i / 8], (i % 8) as u8))
    }
}

/// All eight bits of `b | (1 << i)`, in terms of the bits of `b`.
proof fn lemma_byte_bit_set(b: u8, i: u8)
    by (bit_vector)
    requires
        i < 8,
    ensures
        forall|j: u8| j < 8 ==> #[trigger] byte_bit(b | (1u8 << i), j) == (j == i || byte_bit(
            b,
            j,
        )),
{
}

/// All eight bits of `b & !(1 << i)`, in terms of the bits of `b`.
proof fn lemma_byte_bit_clear(b: u8, i: u8)
    by (bit_vector)
    requires
        i < 8,
    ensures
        forall|j: u8| j < 8 ==> #[trigger] byte_bit(b & !(1u8 << i), j) == (j != i && byte_bit(
            b,
            j,
        )),
{
}

/// A shifted-out bit masked with 1 is either 0 or 1, so testing it against
/// 0 or against 1 are complementary.
proof fn lemma_bit_is_bool(b: u8, j: u8)
    by (bit_vector)
    ensures
        (b >> j) & 1 == 0 || (b >> j) & 1 == 1,
{
}

/// A byte with all eight bits set is 0xFF, and 0xFF has every bit set.
proof fn lemma_byte_full(b: u8)
    by (bit_vector)
    ensures
        (byte_bit(b, 0) && byte_bit(b, 1) && byte_bit(b, 2) && byte_bit(b, 3) && byte_bit(b, 4)
            && byte_bit(b, 5) && byte_bit(b, 6) && byte_bit(b, 7)) <==> b == 0xFF,
{
}

impl PhysicalAllocator {
    /// The running free count matches the bitmap, and the bitmap is small
    /// enough that counts in frames and in bytes stay inside `usize`.
    pub closed spec fn wf(self) -> bool {
        &&& self.free_frames == count_free(self@)
        &&& self.bitmap@.len() * 8 * FRAME_SIZE <= usize::MAX
    }

    /// Number of frames the bitmap covers.
    pub open spec fn num_frames(self) -> int {
        self@.len() as int
    }

    /// Frame indices scaled to byte addresses stay inside `usize`.
    pub proof fn lemma_num_frames_bound(&self)
        requires
            self.wf(),
        ensures
            self.num_frames() * FRAME_SIZE <= usize::MAX,
    {
    }

    /// A fresh allocator over `len` bitmap bytes, every frame free.
    pub fn new(len: usize) -> (r: PhysicalAllocator)
        requires
            len * 8 * FRAME_SIZE <= usize::MAX,
        ensures
            r.wf(),
            r.num_frames() == len * 8,
            forall|i: int| 0 <= i < r.num_frames() ==> !r@[i],
    {
        let mut bitmap: Vec<u8> = Vec::new();
        let mut k: usize = 0;
        while k < len
            invariant
                k <= len,
                bitmap@.len() == k,
                forall|b: int| 0 <= b < k ==> bitmap@[b] == 0u8,
            decreases len - k,
        {
            bitmap.push(0u8);
            k += 1;
        }
        let r = PhysicalAllocator { bitmap, free_frames: len * 8 };
        proof {
            assert forall|i: int| 0 <= i < r@.len() implies !r@[i] by {
                let j = (i % 8) as u8;
                assert((0u8 >> j) & 1 == 0) by (bit_vector);
            }
            lemma_zeros_in_all_false(r@, 0, r@.len() as int);
        }
        r
    }

    /// Allocatable bytes, tracked incrementally; constant-time.
    pub fn get_free(&self) -> (r: usize)
        requires
            self.wf(),
        ensures
            r == count_free(self@) * FRAME_SIZE,
    {
        proof {
            lemma_zeros_in_bounds(self@, 0, self@.len() as int);
            assert(count_free(self@) * FRAME_SIZE <= self@.len() * FRAME_SIZE <= self@.len() * 8
                * FRAME_SIZE) by (nonlinear_arith)
                requires
                    0 <= count_free(self@) <= self@.len(),
                    FRAME_SIZE == 4096,
            ;
        }
        self.free_frames * FRAME_SIZE
    }

    /// Allocatable bytes found by a full bitmap scan; diagnostic counterpart
    /// of `get_free`, and provably equal to it.
    pub fn get_free_actual(&self) -> (r: usize)
        requires
            self.wf(),
        ensures
            r == count_free(self@) * FRAME_SIZE,
    {
        let n = self.bitmap.len();
        let mut free: usize = 0;
        let mut i: usize = 0;
        while i < n * 8
            invariant
                self.wf(),
                n == self.bitmap@.len(),
                0 <= i <= n * 8,
                free == zeros_in(self@, 0, i as int),
                0 <= free <= i,
            decreases n * 8 - i,
        {
            proof {
                lemma_zeros_in_bounds(self@, 0, i as int);
            }
            let byte = self.bitmap[i / 8];
            let bit: u8 = (i % 8) as u8;
            proof {
                lemma_bit_is_bool(byte, bit);
                assert(self@[i as int] == byte_bit(byte, bit));
            }
            if (byte >> bit) & 1 == 0 {
                free += 1;
            }
            i += 1;
        }
        proof {
            lemma_zeros_in_bounds(self@, 0, self@.len() as int);
            assert(free * FRAME_SIZE <= self@.len() * 8 * FRAME_SIZE) by (nonlinear_arith)
                requires
                    0 <= free <= self@.len() * 8,
                    FRAME_SIZE == 4096,
            ;
        }
        free * FRAME_SIZE
    }

    /// Scans for the first free frame, marks it used and returns its index;
    /// `None` exactly when every frame is in use.
    pub fn allocate(&mut self) -> (r: Option<usize>)
        requires
            old(self).wf(),
        ensures
            final(self).wf(),
            final(self)@.len() == old(self)@.len(),
            match r {
                Some(f) => {
                    &&& 0 <= f < old(self).num_frames()
                    &&& !old(self)@[f as int]
                    &&& forall|j: int| 0 <= j < f ==> old(self)@[j]
                    &&& final(self)@ == old(self)@.update(f as int, true)
                    &&& count_free(final(self)@) == count_free(old(self)@) - 1
                },
                None => {
                    &&& final(self)@ == old(self)@
                    &&& forall|j: int| 0 <= j < old(self).num_frames() ==> old(self)@[j]
                    &&& count_free(old(self)@) == 0
                },
            },
    {
        let n = self.bitmap.len();
        let mut bi: usize = 0;
        while bi < n
            invariant
                self == old(self),
                self.wf(),
                n == self.bitmap@.len(),
                0 <= bi <= n,
                forall|j: int| 0 <= j < bi * 8 ==> self@[j],
            decreases n - bi,
        {
            let byte = self.bitmap[bi];
            if byte != 0xFF {
                let mut bit: u8 = 0;
                while bit < 8
                    invariant
                        self == old(self),
                        self.wf(),
                        n == self.bitmap@.len(),
                        0 <= bi < n,
                        byte == self.bitmap@[bi as int],
                        byte != 0xFF,
                        bit <= 8,
                        forall|j: int| 0 <= j < bi * 8 ==> self@[j],
                        forall|j: u8| j < bit ==> byte_bit(byte, j),
                    decreases 8 - bit,
                {
                    proof {
                        lemma_bit_is_bool(byte, bit);
                    }
                    if (byte >> bit) & 1 == 0 {
                        let f = bi * 8 + bit as usize;
                        let ghost pre = self@;
                        proof {
                            assert(!byte_bit(byte, bit));
                            assert(pre[f as int] == byte_bit(byte, bit));
                            lemma_count_free_pos(pre, f as int);
                        }
                        self.bitmap[bi] = byte | (1u8 << bit);
                        proof {
                            lemma_byte_bit_set(byte, bit);
                            assert forall|k: int| 0 <= k < pre.len() implies self@[k] == pre.update(
                                f as int,
                                true,
                            )[k] by {
                                if k / 8 == bi as int {
                                    assert(k == 8 * (k / 8) + (k % 8));
                                    assert(byte_bit(byte | (1u8 << bit), (k % 8) as u8) == ((k % 8)
                                        as u8 == bit || byte_bit(byte, (k % 8) as u8)));
                                }
                            }
                            assert(self@ =~= pre.update(f as int, true));
                            lemma_count_free_update(pre, f as int, true);
                        }
                        self.free_frames = self.free_frames - 1;
                        return Some(f);
                    }
                    bit += 1;
                }
                proof {
                    lemma_byte_full(byte);
                    assert(false);
                }
            }
            proof {
                lemma_byte_full(byte);
                assert forall|j: int| 0 <= j < (bi + 1) * 8 implies self@[j] by {
                    if j >= bi * 8 {
                        assert(j / 8 == bi as int);
                        assert(self@[j] == byte_bit(byte, (j % 8) as u8));
                        assert(byte_bit(byte, (j % 8) as u8));
                    }
                }
            }
            bi += 1;
        }
        proof {
            lemma_zeros_in_all_true(self@, 0, self@.len() as int);
        }
        None
    }

    /// Marks frame `ptr` used; a no-op on a frame already in use.
    pub fn set_used(&mut self, ptr: usize)
        requires
            old(self).wf(),
            ptr < old(self).num_frames(),
        ensures
            final(self).wf(),
            final(self)@ == old(self)@.update(ptr as int, true),
    {
        let byte = ptr / 8;
        let bit: u8 = (ptr % 8) as u8;
        let b = self.bitmap[byte];
        let ghost pre = self@;
        proof {
            lemma_bit_is_bool(b, bit);
            assert(ptr as int == 8 * (ptr as int / 8) + (ptr as int % 8));
            assert(pre[ptr as int] == byte_bit(b, bit));
        }
        if (b >> bit) & 1 == 0 {
            proof {
                lemma_count_free_pos(pre, ptr as int);
            }
            self.bitmap[byte] = b | (1u8 << bit);
            proof {
                lemma_byte_bit_set(b, bit);
                assert forall|k: int| 0 <= k < pre.len() implies self@[k] == pre.update(
                    ptr as int,
                    true,
                )[k] by {
                    if k / 8 == byte as int {
                        assert(k == 8 * (k / 8) + (k % 8));
                        assert(byte_bit(b | (1u8 << bit), (k % 8) as u8) == ((k % 8) as u8 == bit
                            || byte_bit(b, (k % 8) as u8)));
                    }
                }
                assert(self@ =~= pre.update(ptr as int, true));
                lemma_count_free_update(pre, ptr as int, true);
            }
            self.free_frames = self.free_frames - 1;
        } else {
            proof {
                assert(pre[ptr as int]);
                assert(self@ =~= pre.update(ptr as int, true));
                lemma_count_free_update(pre, ptr as int, true);
            }
        }
    }

    /// Marks frame `ptr` free; freeing an already-free frame is ignored.
    pub fn free(&mut self, ptr: usize)
        requires
            old(self).wf(),
            ptr < old(self).num_frames(),
        ensures
            final(self).wf(),
            final(self)@ == old(self)@.update(ptr as int, false),
            old(self)@[ptr as int] ==> count_free(final(self)@) == count_free(old(self)@) + 1,
    {
        let byte = ptr / 8;
        let bit: u8 = (ptr % 8) as u8;
        let b = self.bitmap[byte];
        let ghost pre = self@;
        proof {
            lemma_bit_is_bool(b, bit);
            assert(ptr as int == 8 * (ptr as int / 8) + (ptr as int % 8));
            assert(pre[ptr as int] == byte_bit(b, bit));
        }
        if (b >> bit) & 1 == 1 {
            proof {
                lemma_count_free_lt(pre, ptr as int);
                assert(pre.len() * 8 * FRAME_SIZE <= usize::MAX ==> pre.len() <= usize::MAX)
                    by (nonlinear_arith);
            }
            self.bitmap[byte] = b & !(1u8 << bit);
            proof {
                lemma_byte_bit_clear(b, bit);
                assert forall|k: int| 0 <= k < pre.len() implies self@[k] == pre.update(
                    ptr as int,
                    false,
                )[k] by {
                    if k / 8 == byte as int {
                        assert(k == 8 * (k / 8) + (k % 8));
                        assert(byte_bit(b & !(1u8 << bit), (k % 8) as u8) == ((k % 8) as u8 != bit
                            && byte_bit(b, (k % 8) as u8)));
                    }
                }
                assert(self@ =~= pre.update(ptr as int, false));
                lemma_count_free_update(pre, ptr as int, false);
            }
            self.free_frames = self.free_frames + 1;
        } else {
            proof {
                assert(!pre[ptr as int]);
                assert(self@ =~= pre.update(ptr as int, false));
                lemma_count_free_update(pre, ptr as int, false);
            }
        }
    }

    /// Sets all eight frames of bitmap byte `b` used with a single whole-byte
    /// store, adjusting the free count by the bits that were still clear.
    fn set_byte_used(&mut self, b: usize)
        requires
            old(self).wf(),
            b * 8 + 8 <= old(self).num_frames(),
        ensures
            final(self).wf(),
            final(self)@.len() == old(self)@.len(),
            forall|k: int|
                0 <= k < old(self)@.len() ==> final(self)@[k] == (old(self)@[k] || (b * 8 <= k < b
                    * 8 + 8)),
    {
        let old_b = self.bitmap[b];
        let ghost pre = self@;
        let ghost lo = b as int * 8;
        let ghost hi = lo + 8;
        proof {
            assert forall|k: int| lo <= k < hi implies pre[k] == byte_bit(old_b, (k % 8) as u8) by {
                assert(k / 8 == b as int);
            }
        }
        let mut zeros: usize = 0;
        let mut j: u8 = 0;
        while j < 8
            invariant
                self == old(self),
                j <= 8,
                old_b == self.bitmap@[b as int],
                lo == b as int * 8,
                hi == lo + 8,
                hi <= pre.len(),
                pre == self@,
                forall|k: int| lo <= k < hi ==> pre[k] == byte_bit(old_b, (k % 8) as u8),
                zeros == zeros_in(pre, lo, lo + j as int),
                zeros <= j,
            decreases 8 - j,
        {
            proof {
                lemma_bit_is_bool(old_b, j);
                let k = lo + j as int;
                assert(k % 8 == j as int);
                assert(pre[k] == byte_bit(old_b, j));
            }
            if (old_b >> j) & 1 == 0 {
                zeros += 1;
            }
            j += 1;
        }
        proof {
            lemma_zeros_in_split(pre, 0, lo, pre.len() as int);
            lemma_zeros_in_split(pre, lo, hi, pre.len() as int);
            lemma_zeros_in_bounds(pre, 0, lo);
            lemma_zeros_in_bounds(pre, hi, pre.len() as int);
        }
        self.bitmap[b] = 0xFF;
        proof {
            assert forall|k: int| 0 <= k < pre.len() implies #[trigger] self@[k] == (pre[k] || (lo <= k
                < hi)) by {
                if k / 8 == b as int {
                    assert(k == 8 * (k / 8) + (k % 8));
                    let m = (k % 8) as u8;
                    assert(byte_bit(0xFFu8, m)) by (bit_vector)
                        requires
                            m < 8,
                    ;
                } else {
                    assert(!(lo <= k < hi));
                }
            }
            let post = self@;
            lemma_zeros_in_split(post, 0, lo, post.len() as int);
            lemma_zeros_in_split(post, lo, hi, post.len() as int);
            lemma_zeros_in_agree(pre, post, 0, lo);
            lemma_zeros_in_agree(pre, post, hi, pre.len() as int);
            lemma_zeros_in_all_true(post, lo, hi);
        }
        self.free_frames = self.free_frames - zeros;
    }

    /// Marks used every frame that overlaps the byte-address span
    /// `[start, end)`, filling whole bitmap bytes in the interior and
    /// touching only the boundary bits at the edges, so no frame outside the
    /// span is affected; an empty span reserves nothing.
    pub fn set_span_used(&mut self, start: usize, end: usize)
        requires
            old(self).wf(),
            start <= end,
            end <= old(self).num_frames() * FRAME_SIZE,
        ensures
            final(self).wf(),
            final(self)@.len() == old(self)@.len(),
            forall|k: int|
                0 <= k < old(self)@.len() ==> #[trigger] final(self)@[k] == (old(self)@[k] || (
                start < end && start as int / FRAME_SIZE as int <= k && k * FRAME_SIZE < end)),
    {
        if start >= end {
            return ;
        }

        let ghost pre = old(self)@;
        let f0 = start / FRAME_SIZE;
        let f1 = end / FRAME_SIZE + if end % FRAME_SIZE != 0 {
            1usize
        } else {
            0usize
        };
        proof {
            assert((f1 as int) <= pre.len()) by (nonlinear_arith)
                requires
                    FRAME_SIZE == 4096,
                    end <= pre.len() * 4096,
                    f1 == end as int / 4096 + if end as int % 4096 != 0 {
                        1int
                    } else {
                        0int
                    },
            ;
            assert forall|k: int| 0 <= k < pre.len() implies ((f0 as int <= k < f1 as int) == (
            start as int / FRAME_SIZE as int <= k && #[trigger] (k * FRAME_SIZE)
                < end)) by {
                assert((k < f1 as int) == (k * 4096 < end)) by (nonlinear_arith)
                    requires
                        f1 == end as int / 4096 + if end as int % 4096 != 0 {
                            1int
                        } else {
                            0int
                        },
                ;
            }
        }
        // partial bits before the first whole bitmap byte
        let b_start = f0 / 8 + if f0 % 8 != 0 {
            1usize
        } else {
            0usize
        };
        let lead_end = if f1 < b_start * 8 {
            f1
        } else {
            b_start * 8
        };
        let mut i = f0;
        while i < lead_end
            invariant
                self.wf(),
                self@.len() == pre.len(),
                f0 <= i <= lead_end,
                lead_end <= f1,
                f1 <= self@.len(),
                f0 <= f1,
                forall|k: int| 0 <= k < pre.len() ==> #[trigger] self@[k] == (pre[k] || (f0 <= k < i)),
            decreases lead_end - i,
        {
            let ghost before = self@;
            self.set_used(i);
            proof {
                assert forall|k: int| 0 <= k < pre.len() implies self@[k] == (pre[k] || (f0 <= k < i
                    + 1)) by {
                    assert(self@[k] == before.update(i as int, true)[k]);
                }
            }
            i += 1;
        }
        if lead_end < f1 {
            // whole bitmap bytes in the interior
            let b_end = f1 / 8;
            let mut b = b_start;
            proof {
                assert(lead_end == b_start * 8);
                assert(b_start as int * 8 <= b_end as int * 8);
            }
            while b < b_end
                invariant
                    self.wf(),
                    self@.len() == pre.len(),
                    b_start <= b <= b_end,
                    b_end as int * 8 <= f1,
                    f1 <= self@.len(),
                    f0 <= b_start * 8,
                    f0 <= f1,
                    forall|k: int| 0 <= k < pre.len() ==> #[trigger] self@[k] == (pre[k] || (f0 <= k < b * 8)),
                decreases b_end - b,
            {
                let ghost before = self@;
                self.set_byte_used(b);
                proof {
                    assert forall|k: int| 0 <= k < pre.len() implies self@[k] == (pre[k] || (f0 <= k
                        < (b + 1) * 8)) by {
                        assert(self@[k] == (before[k] || (b * 8 <= k < b * 8 + 8)));
                    }
                }
                b += 1;
            }
            // partial bits after the last whole bitmap byte
            let mut i = b_end * 8;
            while i < f1
                invariant
                    self.wf(),
                    self@.len() == pre.len(),
                    b_end * 8 <= i <= f1,
                    f1 <= self@.len(),
                    f0 <= b_end * 8,
                    forall|k: int| 0 <= k < pre.len() ==> #[trigger] self@[k] == (pre[k] || (f0 <= k < i)),
                decreases f1 - i,
            {
                let ghost before = self@;
                self.set_used(i);
                proof {
                    assert forall|k: int| 0 <= k < pre.len() implies self@[k] == (pre[k] || (f0 <= k
                        < i + 1)) by {
                        assert(self@[k] == before.update(i as int, true)[k]);
                    }
                }
                i += 1;
            }
        }
    }

    /// Marks used every frame that overlaps the byte-address range, as
    /// `set_span_used` does over the range's bounds.
    pub fn set_range_used(&mut self, range: core::ops::Range<usize>)
        requires
            old(self).wf(),
            range.start <= range.end,
            range.end <= old(self).num_frames() * FRAME_SIZE,
        ensures
            final(self).wf(),
            final(self)@.len() == old(self)@.len(),
            forall|k: int|
                0 <= k < old(self)@.len() ==> #[trigger] final(self)@[k] == (old(self)@[k] || (
                range.start < range.end && range.start as int / FRAME_SIZE as int <= k && k
                    * FRAME_SIZE < range.end)),
    {
        let start = range.start;
        let end = range.end;
        self.set_span_used(start, end);
    }
}

} // verus!
