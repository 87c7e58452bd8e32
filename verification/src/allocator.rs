//! Bump allocator for the kernel heap: allocations move a cursor forward,
//! and the whole heap is reclaimed once every allocation has been freed.
use vstd::prelude::*;
use vstd::arithmetic::power2::pow2;
use vstd::bits::low_bits_mask;

verus! {

/// Whether `align` is a power of two (what a memory layout's alignment is).
pub open spec fn is_power_of_two(align: usize) -> bool {
    exists|n: nat| n < usize::BITS && align as int == pow2(n)
}

/// The smallest multiple of `align` that is at least `addr`.
pub open spec fn spec_align_up(addr: int, align: int) -> int {
    ((addr + align - 1) / align) * align
}

proof fn lemma_power_of_two_positive(a: usize)
    requires
        is_power_of_two(a),
    ensures
        a > 0,
{
    let n = choose|n: nat| n < usize::BITS && a as int == pow2(n);
    vstd::arithmetic::power2::lemma_pow2_pos(n);
}

proof fn lemma_clear_low_bits(x: usize, m: usize)
    ensures
        x & !m == x - (x & m),
        x & m <= m,
{
    assert(x & !m == x - (x & m)) by (bit_vector);
    assert(x & m <= m) by (bit_vector);
}

/// For a power of two `a`, clearing the bits of `a - 1` rounds down to a
/// multiple of `a`.
proof fn lemma_mask_is_round_down(x: usize, a: usize)
    requires
        is_power_of_two(a),
    ensures
        a > 0,
        x & !((a - 1) as usize) == x - x % a,
{
    let n = choose|n: nat| n < usize::BITS && a as int == pow2(n);
    vstd::arithmetic::power2::lemma_pow2_pos(n);
    vstd::bits::lemma_usize_low_bits_mask_is_mod(x, n);
    vstd::bits::lemma_usize_pow2_no_overflow(n);
    assert(low_bits_mask(n) == pow2(n) - 1);
    lemma_clear_low_bits(x, (a - 1) as usize);
}

/// Rounds `addr` up to a multiple of the power of two `align`.
fn align_up(addr: usize, align: usize) -> (r: usize)
    requires
        is_power_of_two(align),
        addr + align <= usize::MAX,
    ensures
        r == spec_align_up(addr as int, align as int),
        r % align == 0,
        addr <= r < addr + align,
{
    proof {
        lemma_power_of_two_positive(align);
    }
    let x = addr + align - 1;
    proof {
        lemma_mask_is_round_down(x, align);
        let q = x as int / align as int;
        vstd::arithmetic::div_mod::lemma_fundamental_div_mod(x as int, align as int);
        assert(x - x % align == q * align);
        vstd::arithmetic::div_mod::lemma_mod_multiples_basic(q, align as int);
        assert((q * align) % (align as int) == 0);
    }
    x & !(align - 1)
}

/// The heap bookkeeping: `[heap_start, heap_end)` is the heap, `next` the
/// first free byte, `allocations` the number of live allocations.
pub struct BumpAllocator {
    heap_start: usize,
    heap_end: usize,
    next: usize,
    allocations: usize,
}

impl BumpAllocator {
    pub closed spec fn heap_start(&self) -> usize {
        self.heap_start
    }

    pub closed spec fn heap_end(&self) -> usize {
        self.heap_end
    }

    pub closed spec fn next(&self) -> usize {
        self.next
    }

    pub closed spec fn allocations(&self) -> usize {
        self.allocations
    }

    /// The cursor stays inside the heap.
    pub closed spec fn wf(&self) -> bool {
        self.heap_start <= self.next <= self.heap_end
    }

    /// Where an allocation of `size` bytes aligned to `align` would start,
    /// if it fits.
    pub open spec fn alloc_result(&self, size: usize, align: usize) -> Option<usize> {
        let start = spec_align_up(self.next() as int, align as int);
        if start + size > usize::MAX || start + size > self.heap_end() {
            None
        } else {
            Some(start as usize)
        }
    }

    /// The first free byte.
    pub fn next_free(&self) -> (r: usize)
        ensures
            r == self.next(),
    {
        self.next
    }

    /// The number of live allocations.
    pub fn live_allocations(&self) -> (r: usize)
        ensures
            r == self.allocations(),
    {
        self.allocations
    }

    /// An allocator with an empty heap.
    pub fn new() -> (a: Self)
        ensures
            a.wf(),
            a.heap_start() == 0,
            a.heap_end() == 0,
            a.next() == 0,
            a.allocations() == 0,
    {
        BumpAllocator { heap_start: 0, heap_end: 0, next: 0, allocations: 0 }
    }

    /// Hands the region `[heap_start, heap_start + heap_size)` to the allocator.
    pub fn init(&mut self, heap_start: usize, heap_size: usize)
        requires
            heap_start + heap_size <= usize::MAX,
        ensures
            final(self).wf(),
            final(self).heap_start() == heap_start,
            final(self).heap_end() == heap_start + heap_size,
            final(self).next() == heap_start,
            final(self).allocations() == old(self).allocations(),
    {
        self.heap_start = heap_start;
        self.heap_end = heap_start + heap_size;
        self.next = heap_start;
    }

    /// Allocates `size` bytes aligned to `align`; `None` when the heap is
    /// exhausted (the null pointer of the allocator interface).
    pub fn allocate(&mut self, size: usize, align: usize) -> (r: Option<usize>)
        requires
            old(self).wf(),
            is_power_of_two(align),
            old(self).next() + align <= usize::MAX,
            old(self).allocations() < usize::MAX,
        ensures
            final(self).wf(),
            r == old(self).alloc_result(size, align),
            final(self).heap_start() == old(self).heap_start(),
            final(self).heap_end() == old(self).heap_end(),
            match r {
                Some(start) => {
                    &&& final(self).next() == start + size
                    &&& final(self).allocations() == old(self).allocations() + 1
                    &&& start % align == 0
                    &&& old(self).next() <= start
                    &&& start + size <= old(self).heap_end()
                },
                None => {
                    &&& final(self).next() == old(self).next()
                    &&& final(self).allocations() == old(self).allocations()
                },
            },
    {
        let alloc_start = align_up(self.next, align);
        let alloc_end = match alloc_start.checked_add(size) {
            Some(end) => end,
            None => return None,
        };
        if alloc_end > self.heap_end {
            None
        } else {
            self.next = alloc_end;
            self.allocations = self.allocations + 1;
            Some(alloc_start)
        }
    }

    /// Records that one allocation was freed; when none is left, the whole
    /// heap becomes free again.
    pub fn deallocate(&mut self)
        requires
            old(self).wf(),
            old(self).allocations() > 0,
        ensures
            final(self).wf(),
            final(self).heap_start() == old(self).heap_start(),
            final(self).heap_end() == old(self).heap_end(),
            final(self).allocations() == old(self).allocations() - 1,
            final(self).next() == (if old(self).allocations() == 1 {
                old(self).heap_start()
            } else {
                old(self).next()
            }),
    {
        self.allocations = self.allocations - 1;
        if self.allocations == 0 {
            self.next = self.heap_start;
        }
    }
}

/// Two allocations made one after the other, with no free in between, do not
/// overlap, are each aligned, and both lie inside the heap.
pub proof fn law_successive_allocations_disjoint(
    a0: BumpAllocator,
    a1: BumpAllocator,
    size1: usize,
    align1: usize,
    size2: usize,
    align2: usize,
)
    requires
        a0.wf(),
        is_power_of_two(align1),
        is_power_of_two(align2),
        a0.alloc_result(size1, align1) is Some,
        a1.heap_start() == a0.heap_start(),
        a1.heap_end() == a0.heap_end(),
        a1.next() == a0.alloc_result(size1, align1)->0 + size1,
        a1.alloc_result(size2, align2) is Some,
    ensures
        ({
            let p = a0.alloc_result(size1, align1)->0;
            let q = a1.alloc_result(size2, align2)->0;
            &&& a0.heap_start() <= p
            &&& p + size1 <= q
            &&& q + size2 <= a0.heap_end()
            &&& p % align1 == 0
            &&& q % align2 == 0
        }),
{
    lemma_power_of_two_positive(align1);
    lemma_power_of_two_positive(align2);
    lemma_align_up_props(a0.next() as int, align1 as int);
    lemma_align_up_props(a1.next() as int, align2 as int);
}

proof fn lemma_align_up_props(addr: int, align: int)
    requires
        addr >= 0,
        align > 0,
    ensures
        addr <= spec_align_up(addr, align) < addr + align,
        spec_align_up(addr, align) % align == 0,
{
    let x = addr + align - 1;
    let q = x / align;
    vstd::arithmetic::div_mod::lemma_fundamental_div_mod(x, align);
    vstd::arithmetic::div_mod::lemma_mod_multiples_basic(q, align);
    vstd::arithmetic::div_mod::lemma_mod_pos_bound(x, align);
    assert(q * align == align * q) by (nonlinear_arith);
}

} // verus!
