//! An early-boot allocator that serves byte and page allocations from one
//! contiguous address range before a full allocator subsystem is online.
//!
//! The range is split into a byte region growing forward from `start` and a
//! page region growing backward from `end`, with the free gap between them:
//!
//! ```text
//! [ bytes-used | free gap | pages-used ]
//! start       next      page_next    end
//! ```
//!
//! Byte memory is reclaimed only in bulk: once every byte allocation has been
//! freed, the byte cursor snaps back to `start`. Page memory is never
//! reclaimed within this allocator's lifetime, so there is no page
//! deallocation operation at all.

use vstd::prelude::*;
use vstd::arithmetic::div_mod::lemma_div_is_ordered;
use vstd::arithmetic::div_mod::lemma_fundamental_div_mod;
use vstd::arithmetic::div_mod::lemma_mod_bound;
use vstd::arithmetic::mul::lemma_mul_is_commutative;

use crate::arith::is_pow2;
use crate::arith::lemma_div_mul_compare;
use crate::arith::lemma_pow2_pos;
use crate::arith::lemma_round_down_props;
use crate::arith::lemma_round_up_props;
use crate::arith::round_down;
use crate::arith::round_up;

verus! {

/// Errors returned by the fallible allocation operations.
#[derive(Clone, Copy, Debug, PartialEq, Eq, Structural)]
pub enum AllocError {
    /// The request cannot be satisfied within the current bounds.
    NoMemory,
    /// An alignment argument violates its contract.
    InvalidParam,
}

/// The mathematical state of an [`EarlyAllocator`]: the fixed bounds of the
/// managed range, the two region cursors, and the running byte total.
pub ghost struct AllocView {
    pub start: int,
    pub end: int,
    pub next: int,
    pub page_next: int,
    pub used: int,
}

/// Well-formedness of an allocator state: the two regions stay inside the
/// managed range and never cross, and the byte total never exceeds the byte
/// region's extent.
pub open spec fn wf_view(v: AllocView) -> bool {
    &&& 0 <= v.start <= v.next <= v.page_next <= v.end <= usize::MAX
    &&& 0 <= v.used <= v.next - v.start
}

/// The byte cursor a successful `alloc_bytes(size, align)` would commit:
/// the cursor advanced by `size`, rounded up to a multiple of `align`.
pub open spec fn bytes_candidate(v: AllocView, size: int, align: int) -> int {
    round_up(v.next + size, align)
}

/// Whether `align` is a valid page-allocation alignment for `page_size`:
/// a multiple of the page size that is a power of two once normalized to
/// page units.
pub open spec fn pages_param_ok(page_size: int, align: int) -> bool {
    &&& align % page_size == 0
    &&& is_pow2(align / page_size)
}

/// The page cursor a successful `alloc_pages(num_pages, align)` would commit:
/// the cursor moved down by the requested extent, rounded down to a multiple
/// of `align`. May fall below zero mathematically; such a request fails.
pub open spec fn pages_candidate(v: AllocView, page_size: int, num_pages: int, align: int) -> int {
    round_down(v.page_next - num_pages * page_size, align)
}

/// The state after `dealloc_bytes(_, size)`: the byte total shrinks by
/// `size`, and the byte cursor snaps back to `start` exactly when the total
/// reaches zero.
pub open spec fn bytes_freed(v: AllocView, size: int) -> AllocView {
    AllocView {
        used: v.used - size,
        next: if v.used - size == 0 {
            v.start
        } else {
            v.next
        },
        ..v
    }
}

/// The early-boot dual-region allocator. `PAGE_SIZE` is the page granularity
/// of the page region; it must be a power of two.
///
/// Page memory handed out by this allocator is never reclaimed, by design:
/// the allocator is meant to be superseded once a full page allocator
/// initializes, so no page deallocation operation exists.
pub struct EarlyAllocator<const PAGE_SIZE: usize> {
    start: usize,
    end: usize,
    byte_used: usize,
    next: usize,
    page_next: usize,
}

impl<const PAGE_SIZE: usize> View for EarlyAllocator<PAGE_SIZE> {
    type V = AllocView;

    closed spec fn view(&self) -> AllocView {
        AllocView {
            start: self.start as int,
            end: self.end as int,
            next: self.next as int,
            page_next: self.page_next as int,
            used: self.byte_used as int,
        }
    }
}

impl<const PAGE_SIZE: usize> EarlyAllocator<PAGE_SIZE> {
    /// The structural invariant of the allocator: `start <= next <=
    /// page_next <= end`, with the byte total bounded by the byte region.
    /// Every operation requires it and preserves it.
    pub open spec fn wf(self) -> bool {
        wf_view(self@)
    }

    /// An allocator over the empty range at address zero. `init` must bind
    /// the real range before any allocation.
    pub fn new() -> (r: Self)
        ensures
            r@ == (AllocView { start: 0, end: 0, next: 0, page_next: 0, used: 0 }),
            r.wf(),
    {
        Self { start: 0, end: 0, byte_used: 0, next: 0, page_next: 0 }
    }

    /// Binds the managed range to `[start, start + size)`, resetting the byte
    /// cursor to its low end and the page cursor to its high end. Must be
    /// called exactly once, before any allocation.
    pub fn init(&mut self, start: usize, size: usize)
        requires
            start + size <= usize::MAX,
            old(self)@.used == 0,
        ensures
            final(self)@ == (AllocView {
                start: start as int,
                end: start + size,
                next: start as int,
                page_next: start + size,
                used: 0,
            }),
            final(self).wf(),
    {
        self.start = start;
        self.end = start + size;
        self.next = start;
        self.page_next = self.end;
    }

    /// Extending the managed range with a second extent is unsupported: this
    /// allocator is single-region only, so the call always fails with
    /// `NoMemory` and changes nothing.
    pub fn add_memory(&mut self, start: usize, size: usize) -> (r: Result<(), AllocError>)
        ensures
            r == Err::<(), AllocError>(AllocError::NoMemory),
            final(self)@ == old(self)@,
    {
        let _ = start;
        let _ = size;
        Err(AllocError::NoMemory)
    }

    /// Allocates `size` bytes from the byte region. The byte cursor advances
    /// by `size` and is then rounded up to a multiple of `align` (which must
    /// be a power of two); the address returned is the cursor's pre-advance
    /// position. If the rounded cursor would cross into the page region the
    /// call fails with `NoMemory` and the state is unchanged.
    pub fn alloc_bytes(&mut self, size: usize, align: usize) -> (r: Result<usize, AllocError>)
        requires
            old(self).wf(),
            is_pow2(align as int),
            old(self)@.next + size + align - 1 <= usize::MAX,
        ensures
            final(self).wf(),
            final(self)@.start == old(self)@.start,
            final(self)@.end == old(self)@.end,
            final(self)@.page_next == old(self)@.page_next,
            bytes_candidate(old(self)@, size as int, align as int) > old(self)@.page_next
                ==> r == Err::<usize, AllocError>(AllocError::NoMemory) && final(self)@
                == old(self)@,
            bytes_candidate(old(self)@, size as int, align as int) <= old(self)@.page_next ==> r
                == Ok::<usize, AllocError>(old(self)@.next as usize),
            bytes_candidate(old(self)@, size as int, align as int) <= old(self)@.page_next ==>
                final(self)@.next == bytes_candidate(old(self)@, size as int, align as int),
            bytes_candidate(old(self)@, size as int, align as int) <= old(self)@.page_next ==>
                final(self)@.used == old(self)@.used + size,
    {
        proof {
            lemma_pow2_pos(align as int);
            lemma_round_up_props(old(self)@.next + size, align as int);
        }
        let p: usize = self.next;
        let base: usize = self.next + size;
        let cand: usize = ((base + (align - 1)) / align) * align;
        if cand > self.page_next {
            return Err(AllocError::NoMemory);
        }
        self.next = cand;
        self.byte_used = self.byte_used + size;
        Ok(p)
    }

    /// Returns `size` bytes at `ptr` to the byte region. The address must lie
    /// in the allocated part of the byte region and the running byte total
    /// must cover `size`: a violation is a caller bug, fatal by design in
    /// this layer, and is excluded here rather than checked. When the byte
    /// total reaches zero the whole byte region is reclaimed in one step;
    /// a partial free never moves the cursor.
    pub fn dealloc_bytes(&mut self, ptr: usize, size: usize)
        requires
            old(self).wf(),
            old(self)@.start <= ptr < old(self)@.next,
            old(self)@.used >= size,
        ensures
            final(self).wf(),
            final(self)@ == bytes_freed(old(self)@, size as int),
    {
        let _ = ptr;
        self.byte_used = self.byte_used - size;
        if self.byte_used == 0 {
            self.next = self.start;
        }
    }

    /// The byte region's current extent: everything below the page region.
    pub fn total_bytes(&self) -> (r: usize)
        requires
            self.wf(),
        ensures
            r == self@.page_next - self@.start,
    {
        self.page_next - self.start
    }

    /// The running total of bytes currently allocated from the byte region.
    pub fn used_bytes(&self) -> (r: usize)
        ensures
            r == self@.used,
    {
        self.byte_used
    }

    /// Bytes still available to the byte region.
    pub fn available_bytes(&self) -> (r: usize)
        requires
            self.wf(),
        ensures
            r == self@.page_next - self@.start - self@.used,
    {
        let total: usize = self.total_bytes();
        let used: usize = self.used_bytes();
        total - used
    }

    /// Allocates `num_pages` pages from the page region. `align_pow2` must be
    /// a multiple of `PAGE_SIZE` and, in page units, a power of two;
    /// otherwise the call fails with `InvalidParam`. The page cursor moves
    /// down by the requested extent and is rounded down to a multiple of
    /// `align_pow2`; if it would fall below the byte region the call fails
    /// with `NoMemory` and the cursor is unchanged. On success the new cursor
    /// is returned as the base address of the page run.
    pub fn alloc_pages(&mut self, num_pages: usize, align_pow2: usize) -> (r: Result<
        usize,
        AllocError,
    >)
        requires
            old(self).wf(),
            is_pow2(PAGE_SIZE as int),
        ensures
            final(self).wf(),
            final(self)@.start == old(self)@.start,
            final(self)@.end == old(self)@.end,
            final(self)@.next == old(self)@.next,
            final(self)@.used == old(self)@.used,
            !pages_param_ok(PAGE_SIZE as int, align_pow2 as int) ==> r == Err::<usize, AllocError>(
                AllocError::InvalidParam,
            ) && final(self)@ == old(self)@,
            pages_param_ok(PAGE_SIZE as int, align_pow2 as int) && pages_candidate(
                old(self)@,
                PAGE_SIZE as int,
                num_pages as int,
                align_pow2 as int,
            ) < old(self)@.next ==> r == Err::<usize, AllocError>(AllocError::NoMemory)
                && final(self)@ == old(self)@,
            pages_param_ok(PAGE_SIZE as int, align_pow2 as int) && pages_candidate(
                old(self)@,
                PAGE_SIZE as int,
                num_pages as int,
                align_pow2 as int,
            ) >= old(self)@.next ==> r == Ok::<usize, AllocError>(
                pages_candidate(
                    old(self)@,
                    PAGE_SIZE as int,
                    num_pages as int,
                    align_pow2 as int,
                ) as usize,
            ) && final(self)@.page_next == pages_candidate(
                old(self)@,
                PAGE_SIZE as int,
                num_pages as int,
                align_pow2 as int,
            ),
    {
        proof {
            lemma_pow2_pos(PAGE_SIZE as int);
        }
        if align_pow2 % PAGE_SIZE != 0 {
            return Err(AllocError::InvalidParam);
        }
        let align_pages: usize = align_pow2 / PAGE_SIZE;
        if !pow2_check(align_pages) {
            return Err(AllocError::InvalidParam);
        }
        proof {
            lemma_pow2_pos(align_pages as int);
            lemma_fundamental_div_mod(align_pow2 as int, PAGE_SIZE as int);
            assert(align_pow2 >= 1) by (nonlinear_arith)
                requires
                    align_pow2 as int == (PAGE_SIZE as int) * (align_pages as int),
                    align_pages >= 1,
                    PAGE_SIZE >= 1,
            ;
            lemma_div_mul_compare(num_pages as int, PAGE_SIZE as int, self@.page_next);
        }
        if num_pages > self.page_next / PAGE_SIZE {
            // The requested extent alone exceeds the page cursor, so the
            // aligned candidate falls below every possible byte cursor.
            proof {
                let cand = pages_candidate(
                    old(self)@,
                    PAGE_SIZE as int,
                    num_pages as int,
                    align_pow2 as int,
                );
                let x = old(self)@.page_next - (num_pages as int) * (PAGE_SIZE as int);
                lemma_fundamental_div_mod(x, align_pow2 as int);
                lemma_mod_bound(x, align_pow2 as int);
                lemma_mul_is_commutative(align_pow2 as int, x / align_pow2 as int);
                assert(cand <= x);
            }
            return Err(AllocError::NoMemory);
        }
        let moved: usize = num_pages * PAGE_SIZE;
        let base: usize = self.page_next - moved;
        proof {
            lemma_round_down_props(base as int, align_pow2 as int);
        }
        let cand: usize = (base / align_pow2) * align_pow2;
        if cand < self.next {
            return Err(AllocError::NoMemory);
        }
        self.page_next = cand;
        Ok(cand)
    }

    /// The page region's total capacity in pages, measured from the byte
    /// cursor to the top of the range.
    pub fn total_pages(&self) -> (r: usize)
        requires
            self.wf(),
            PAGE_SIZE >= 1,
        ensures
            r == (self@.end - self@.next) / PAGE_SIZE as int,
    {
        (self.end - self.next) / PAGE_SIZE
    }

    /// Pages currently handed out from the page region.
    pub fn used_pages(&self) -> (r: usize)
        requires
            self.wf(),
            PAGE_SIZE >= 1,
        ensures
            r == (self@.end - self@.page_next) / PAGE_SIZE as int,
    {
        (self.end - self.page_next) / PAGE_SIZE
    }

    /// Pages still available to the page region.
    pub fn available_pages(&self) -> (r: usize)
        requires
            self.wf(),
            PAGE_SIZE >= 1,
        ensures
            r == (self@.end - self@.next) / PAGE_SIZE as int - (self@.end - self@.page_next)
                / PAGE_SIZE as int,
    {
        proof {
            lemma_div_is_ordered(
                self@.end - self@.page_next,
                self@.end - self@.next,
                PAGE_SIZE as int,
            );
        }
        let total: usize = self.total_pages();
        let used: usize = self.used_pages();
        total - used
    }
}

/// The total of a sequence of allocation sizes.
pub open spec fn sum_sizes(sizes: Seq<usize>) -> int
    decreases sizes.len(),
{
    if sizes.len() == 0 {
        0
    } else {
        sum_sizes(sizes.drop_last()) + sizes.last()
    }
}

/// The state after freeing the listed sizes, in order.
pub open spec fn bytes_freed_all(v: AllocView, sizes: Seq<usize>) -> AllocView
    decreases sizes.len(),
{
    if sizes.len() == 0 {
        v
    } else {
        bytes_freed(bytes_freed_all(v, sizes.drop_last()), sizes.last() as int)
    }
}

/// Freeing fewer bytes than are live never moves the byte cursor: after any
/// run of `dealloc_bytes` calls whose sizes total less than the live byte
/// count, the cursor stands where it stood, and the live count has shrunk by
/// exactly that total.
pub proof fn law_byte_free_partial(v: AllocView, sizes: Seq<usize>)
    requires
        sum_sizes(sizes) < v.used,
    ensures
        bytes_freed_all(v, sizes) == (AllocView {
            used: v.used - sum_sizes(sizes),
            ..v
        }),
    decreases sizes.len(),
{
    if sizes.len() > 0 {
        law_byte_free_partial(v, sizes.drop_last());
    }
}

/// The byte-region round trip: after allocations recorded a live total of
/// `v.used`, freeing sizes that add back up to that total — in any order,
/// since only the total matters — brings the live count to zero and resets
/// the byte cursor to `start`, reclaiming the whole byte region in one step.
pub proof fn law_byte_free_round_trip(v: AllocView, sizes: Seq<usize>)
    requires
        sizes.len() >= 1,
        sum_sizes(sizes) == v.used,
    ensures
        bytes_freed_all(v, sizes).used == 0,
        bytes_freed_all(v, sizes).next == v.start,
        bytes_freed_all(v, sizes).start == v.start,
        bytes_freed_all(v, sizes).end == v.end,
        bytes_freed_all(v, sizes).page_next == v.page_next,
    decreases sizes.len(),
{
    let prefix = sizes.drop_last();
    assert(sum_sizes(sizes) == sum_sizes(prefix) + sizes.last());
    assert(bytes_freed_all(v, sizes) == bytes_freed(bytes_freed_all(v, prefix), sizes.last() as int));
    if sum_sizes(prefix) < v.used {
        law_byte_free_partial(v, prefix);
    } else {
        if prefix.len() == 0 {
        } else {
            law_byte_free_round_trip(v, prefix);
        }
    }
}

/// Every successful byte allocation leaves the byte cursor on a multiple of
/// the requested alignment. A byte allocation returns the cursor's
/// pre-advance position, so every pointer handed out by a run of
/// `alloc_bytes` calls that all use one alignment, starting from a cursor
/// already aligned to it, is itself a multiple of that alignment. (A run
/// that mixes alignments can leave the cursor aligned only to the latest
/// one.)
pub proof fn law_alloc_bytes_alignment(v: AllocView, size: usize, align: usize)
    requires
        is_pow2(align as int),
        v.next >= 0,
    ensures
        bytes_candidate(v, size as int, align as int) % (align as int) == 0,
        bytes_candidate(v, size as int, align as int) >= v.next + size,
{
    lemma_pow2_pos(align as int);
    lemma_round_up_props(v.next + size, align as int);
}

/// Whether `n` is a power of two, decided by stripping factors of two.
fn pow2_check(n: usize) -> (b: bool)
    ensures
        b == is_pow2(n as int),
{
    if n == 0 {
        return false;
    }
    let mut m: usize = n;
    while m % 2 == 0
        invariant
            m >= 1,
            is_pow2(n as int) == is_pow2(m as int),
        decreases m,
    {
        m = m / 2;
    }
    m == 1
}

} // verus!
