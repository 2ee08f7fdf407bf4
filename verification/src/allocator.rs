//! Bump allocator with managed-object headers.
//!
//! Every object in linear memory is preceded by a 20-byte header at negative
//! offsets from the payload pointer `p`:
//!
//! ```text
//! p - 20  mm_info   allocator bookkeeping, always 0
//! p - 16  gc_info   collector bookkeeping, always 0
//! p - 12  gc_info2  collector bookkeeping, always 0
//! p -  8  rt_id     runtime class identifier
//! p -  4  rt_size   payload length in bytes
//! p       payload
//! ```
//!
//! Nothing is ever freed: the heap cursor only moves forward, so the hooks
//! the host uses to coordinate with a collector have nothing to do.

use crate::memory::{
    as_unsigned32, lemma_same_u32, same_below, to_signed32, to_unsigned32, u32_at, Memory,
};
use vstd::prelude::*;

verus! {

/// Size of the managed object header in bytes.
pub const HEADER_SIZE: u32 = 20;

/// Class identifier of a generic object.
pub const OBJECT: u32 = 0;

/// Class identifier of a raw byte buffer.
pub const ARRAY_BUFFER: u32 = 1;

/// Class identifier of a UTF-16LE string.
pub const STRING: u32 = 2;

/// Class identifier of an array of pointers.
pub const ARRAY_PTR: u32 = 1000;

/// Class identifier of a typed map.
pub const TYPED_MAP: u32 = 1001;

/// Class identifier of a typed-map entry.
pub const TYPED_MAP_ENTRY: u32 = 1002;

/// Class identifier of a store value (a tagged variant).
pub const STORE_VALUE: u32 = 1003;

/// Class identifier of an array of store values.
pub const ARRAY_STORE_VALUE: u32 = 1004;

/// Class identifier of a chain value (a tagged variant).
pub const ETHEREUM_VALUE: u32 = 1005;

/// Class identifier of an array of chain values.
pub const ARRAY_ETHEREUM_VALUE: u32 = 1006;

/// Class identifier of a contract call record.
pub const SMART_CONTRACT_CALL: u32 = 1007;

/// The bytes an object with a payload of `size` bytes takes from the heap:
/// header plus payload, rounded up to a multiple of 8.
pub open spec fn alloc_span(size: int) -> int {
    ((size + 20 + 7) / 8) * 8
}

/// The pages needed to hold every address below `end`.
pub open spec fn pages_for(end: int) -> int {
    (end + 65535) / 65536
}

/// The runtime class identifier in the header of the object at `p`.
pub open spec fn rt_id(m: Seq<u8>, p: int) -> u32 {
    u32_at(m, p - 8)
}

/// The payload length in the header of the object at `p`.
pub open spec fn rt_size(m: Seq<u8>, p: int) -> u32 {
    u32_at(m, p - 4)
}

/// The object at `p` carries a complete header: three zero words, then the
/// class identifier `class_id` and the payload length `size`; header and
/// payload lie inside `m`.
pub open spec fn managed(m: Seq<u8>, p: int, class_id: u32, size: u32) -> bool {
    &&& 20 <= p
    &&& p + size <= m.len()
    &&& u32_at(m, p - 20) == 0
    &&& u32_at(m, p - 16) == 0
    &&& u32_at(m, p - 12) == 0
    &&& rt_id(m, p) == class_id
    &&& rt_size(m, p) == size
}

/// Whether an object with a payload of `size` bytes can be allocated: the
/// memory can reach the pages that hold its last byte.
pub open spec fn fits(mem: &Memory, size: int) -> bool {
    mem.cursor() + alloc_span(size) <= mem.page_limit() * 65536
}

/// `after` is `before` with `span` more bytes of heap in use: the cursor has
/// moved by `span`, the memory has grown to the pages the cursor needs and no
/// further, no byte below the old cursor has changed, and the bytes from the
/// new cursor on are as they were, or zero in fresh pages.
#[verifier::opaque]
pub open spec fn extends(before: &Memory, after: &Memory, span: int) -> bool {
    &&& after.wf()
    &&& after.heap_started()
    &&& after.base() == before.base()
    &&& after.page_limit() == before.page_limit()
    &&& after.cursor() == before.cursor() + span
    &&& after.pages() == if pages_for(after.cursor()) > before.pages() {
        pages_for(after.cursor())
    } else {
        before.pages()
    }
    &&& same_below(before@, after@, before.cursor())
    &&& forall|i: int|
        after.cursor() <= i < after@.len() ==> after@[i] == if i < before@.len() {
            before@[i]
        } else {
            0u8
        }
}

/// What `extends` says, but for the size in pages.
pub proof fn lemma_extends(before: &Memory, after: &Memory, span: int)
    requires
        extends(before, after, span),
    ensures
        after.wf(),
        after.heap_started(),
        after.base() == before.base(),
        after.page_limit() == before.page_limit(),
        after.cursor() == before.cursor() + span,
        same_below(before@, after@, before.cursor()),
{
    reveal(extends);
}

/// Allocations compose: the spans add up.
pub proof fn lemma_extends_trans(a: &Memory, b: &Memory, c: &Memory, s1: int, s2: int)
    requires
        a.wf(),
        extends(a, b, s1),
        extends(b, c, s2),
        0 <= s1,
        0 <= s2,
    ensures
        extends(a, c, s1 + s2),
{
    reveal(extends);
    a.lemma_bounds();
    b.lemma_bounds();
    c.lemma_bounds();
}

/// The heap cursor after allocating, from cursor `c` and in order, objects
/// with the payload sizes `sizes`.
pub open spec fn cursor_after(c: int, sizes: Seq<u32>) -> int
    decreases sizes.len(),
{
    if sizes.len() == 0 {
        c
    } else {
        cursor_after(c, sizes.drop_last()) + alloc_span(sizes.last() as int)
    }
}

/// The address that the allocation number `i` of `sizes` returns, when the
/// first of them finds the cursor at `c`.
pub open spec fn nth_address(c: int, sizes: Seq<u32>, i: int) -> int {
    cursor_after(c, sizes.take(i)) + 20
}

/// Every allocation moves the cursor forward by at least a header.
pub proof fn lemma_span_positive(size: u32)
    ensures
        alloc_span(size as int) >= 24,
        alloc_span(size as int) >= size + 20,
        alloc_span(size as int) < size + 28,
        alloc_span(size as int) % 8 == 0,
{
}

/// Heap monotonicity: over any sequence of allocations the cursor never
/// moves back, each allocation moves it forward, and no address is returned
/// twice, a later allocation returning a higher address than an earlier one.
pub proof fn lemma_heap_monotonic(c: int, sizes: Seq<u32>, i: int, j: int)
    requires
        0 <= i < j <= sizes.len(),
    ensures
        cursor_after(c, sizes.take(i)) < cursor_after(c, sizes.take(j)),
        nth_address(c, sizes, i) < nth_address(c, sizes, j),
        c <= cursor_after(c, sizes.take(i)),
    decreases j,
{
    let a = sizes.take(j);
    assert(a.drop_last() =~= sizes.take(j - 1));
    lemma_span_positive(a.last());
    if i < j - 1 {
        lemma_heap_monotonic(c, sizes, i, j - 1);
    } else {
        lemma_cursor_after_lower(c, sizes.take(i));
    }
}

/// The cursor never ends below where it started.
pub proof fn lemma_cursor_after_lower(c: int, sizes: Seq<u32>)
    ensures
        c <= cursor_after(c, sizes),
    decreases sizes.len(),
{
    if sizes.len() > 0 {
        lemma_span_positive(sizes.last());
        lemma_cursor_after_lower(c, sizes.drop_last());
    }
}

/// What is left of a budget of heap bytes after `cost` of them are used;
/// nothing when the budget does not cover the cost.
pub open spec fn spend(budget: int, cost: int) -> Option<u32> {
    if 0 <= cost <= budget {
        Some((budget - cost) as u32)
    } else {
        None
    }
}

/// What is left of `budget` after an object with a payload of `size` bytes.
pub fn spend_object(size: usize, budget: u32) -> (r: Option<u32>)
    ensures
        r == spend(budget as int, alloc_span(size as int)),
{
    if size > 0xFFFF_FFFF {
        return None;
    }
    let span: u64 = (size as u64 + 27) / 8 * 8;
    if span > budget as u64 {
        None
    } else {
        Some((budget as u64 - span) as u32)
    }
}

/// Starts the heap on the first call; later calls change nothing.
pub fn ensure_heap_initialised(mem: &mut Memory)
    requires
        old(mem).wf(),
    ensures
        extends(old(mem), final(mem), 0),
        final(mem)@ == old(mem)@,
{
    proof {
        reveal(extends);
        mem.lemma_bounds();
    }
    mem.start_heap();
}

/// Whether `asc_alloc(mem, size, _)` may be called.
pub fn can_alloc(mem: &Memory, size: u32) -> (ok: bool)
    requires
        mem.wf(),
    ensures
        ok == fits(mem, size as int),
{
    proof {
        mem.lemma_bounds();
    }
    let cursor: u64 = mem.heap_cursor() as u64;
    let span: u64 = (size as u64 + 27) / 8 * 8;
    let limit: u64 = mem.max_size_pages() as u64 * 65536;
    cursor + span <= limit
}

/// Writes the header of an object whose header starts at `base`.
fn write_header(mem: &mut Memory, base: u32, class_id: u32, size: u32)
    requires
        old(mem).wf(),
        base + 20 <= old(mem)@.len(),
    ensures
        final(mem).wf(),
        final(mem).same_heap(old(mem)),
        final(mem)@.len() == old(mem)@.len(),
        u32_at(final(mem)@, base as int) == 0,
        u32_at(final(mem)@, base + 4) == 0,
        u32_at(final(mem)@, base + 8) == 0,
        u32_at(final(mem)@, base + 12) == class_id,
        u32_at(final(mem)@, base + 16) == size,
        forall|i: int|
            0 <= i < old(mem)@.len() && !(base <= i < base + 20) ==> final(mem)@[i] == old(mem)@[i],
{
    proof {
        mem.lemma_bounds();
    }
    mem.write_u32(base, 0);
    let ghost m1 = mem@;
    mem.write_u32(base + 4, 0);
    let ghost m2 = mem@;
    mem.write_u32(base + 8, 0);
    let ghost m3 = mem@;
    mem.write_u32(base + 12, class_id);
    let ghost m4 = mem@;
    mem.write_u32(base + 16, size);
    let ghost m5 = mem@;
    proof {
        lemma_same_u32(m1, m5, base as int);
        lemma_same_u32(m2, m5, base + 4);
        lemma_same_u32(m3, m5, base + 8);
        lemma_same_u32(m4, m5, base + 12);
    }
}

/// Allocates an object with a payload of `size` bytes and the class
/// identifier `class_id`, and returns the address of its payload.
///
/// The header is placed at the heap cursor, which then moves past header and
/// payload, rounded up to 8 bytes. The memory grows by as many pages as the
/// object needs. The payload holds whatever the memory held there before
/// (zero in fresh pages).
///
/// The payload is aligned to 8 bytes: headers are multiples of 8 apart from
/// the heap base, which is 4 more than a multiple of 8, and the payload
/// follows its header by 20 bytes.
#[verifier::rlimit(100)]
pub fn asc_alloc(mem: &mut Memory, size: u32, class_id: u32) -> (p: u32)
    requires
        old(mem).wf(),
        fits(old(mem), size as int),
    ensures
        p == old(mem).cursor() + 20,
        p % 8 == 0,
        extends(old(mem), final(mem), alloc_span(size as int)),
        managed(final(mem)@, p as int, class_id, size),
        forall|i: int|
            p <= i < final(mem)@.len() ==> final(mem)@[i] == if i < old(mem)@.len() {
                old(mem)@[i]
            } else {
                0u8
            },
{
    proof {
        reveal(extends);
        mem.lemma_bounds();
    }
    ensure_heap_initialised(mem);
    let total_size: u32 = HEADER_SIZE + size;
    let aligned_size: u32 = (total_size + 7) / 8 * 8;
    let base: u32 = mem.heap_cursor();
    assert(base % 8 == 4 && (base + 20) % 8 == 0) by {
        mem.lemma_bounds();
    }
    let end: u32 = base + aligned_size;
    let pages_needed: u32 = (end + 65535) / 65536;
    let current_pages: u32 = mem.size_pages();
    if pages_needed > current_pages {
        let grown = mem.grow(pages_needed - current_pages);
        assert(grown);
    }
    proof {
        mem.lemma_bounds();
    }
    mem.advance(aligned_size);
    write_header(mem, base, class_id, size);
    proof {
        mem.lemma_bounds();
    }
    base + HEADER_SIZE
}

/// The allocation entry point the host calls to materialise values inside
/// the module: both arguments and the result are 32-bit patterns.
pub fn __new(mem: &mut Memory, size: i32, class_id: i32) -> (p: i32)
    requires
        old(mem).wf(),
        fits(old(mem), as_unsigned32(size) as int),
    ensures
        as_unsigned32(p) == old(mem).cursor() + 20,
        as_unsigned32(p) % 8 == 0,
        extends(old(mem), final(mem), alloc_span(as_unsigned32(size) as int)),
        managed(final(mem)@, as_unsigned32(p) as int, as_unsigned32(class_id), as_unsigned32(size)),
{
    let p = asc_alloc(mem, to_unsigned32(size), to_unsigned32(class_id));
    proof {
        crate::memory::lemma_signed32_round_trip(0, p);
    }
    to_signed32(p)
}

/// The host's pin hook: the pointer is handed back unchanged.
pub fn __pin(ptr: u32) -> (r: u32)
    ensures
        r == ptr,
{
    ptr
}

/// The host's unpin hook: nothing to do.
pub fn __unpin(ptr: u32) {
}

/// The host's collect hook: nothing to do.
pub fn __collect() {
}

/// Reads the runtime class identifier from the header of the object at `ptr`.
pub fn read_rt_id(mem: &Memory, ptr: u32) -> (id: u32)
    requires
        mem.wf(),
        8 <= ptr <= mem@.len(),
    ensures
        id == rt_id(mem@, ptr as int),
{
    mem.read_u32(ptr - 8)
}

/// Reads the payload length from the header of the object at `ptr`.
pub fn read_rt_size(mem: &Memory, ptr: u32) -> (size: u32)
    requires
        mem.wf(),
        4 <= ptr <= mem@.len(),
    ensures
        size == rt_size(mem@, ptr as int),
{
    mem.read_u32(ptr - 4)
}

} // verus!
