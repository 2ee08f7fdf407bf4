//! Linear memory: a growable array of bytes addressed by 32-bit offsets,
//! together with the heap cursor of the bump allocator.
//!
//! All multi-byte accesses are little-endian and unaligned.

use vstd::prelude::*;

verus! {

/// Size of one page of linear memory in bytes.
pub const PAGE_SIZE: u32 = 65536;

/// Largest number of pages a memory may be allowed to reach. One page short
/// of the full 32-bit address space, so that every address and every
/// end-of-object offset fits a `u32`.
pub const MAX_PAGES: u32 = 65535;

/// The 16-bit little-endian value stored at `a`.
pub open spec fn u16_at(m: Seq<u8>, a: int) -> u16 {
    (m[a] as int + 256 * (m[a + 1] as int)) as u16
}

/// The 32-bit little-endian value stored at `a`.
pub open spec fn u32_at(m: Seq<u8>, a: int) -> u32 {
    (m[a] as int + 256 * (m[a + 1] as int) + 65536 * (m[a + 2] as int) + 16777216 * (m[a
        + 3] as int)) as u32
}

/// The 64-bit little-endian value stored at `a`.
pub open spec fn u64_at(m: Seq<u8>, a: int) -> u64 {
    (u32_at(m, a) as int + 4294967296 * (u32_at(m, a + 4) as int)) as u64
}

/// The signed reading of a 32-bit pattern (two's complement).
pub open spec fn as_signed32(x: u32) -> i32 {
    if x < 0x8000_0000 {
        x as i32
    } else {
        (x as int - 0x1_0000_0000) as i32
    }
}

/// The 32-bit pattern of a signed value (two's complement).
pub open spec fn as_unsigned32(x: i32) -> u32 {
    if x >= 0 {
        x as u32
    } else {
        (x as int + 0x1_0000_0000) as u32
    }
}

/// The signed 32-bit little-endian value stored at `a`.
pub open spec fn i32_at(m: Seq<u8>, a: int) -> i32 {
    as_signed32(u32_at(m, a))
}

/// `m` with the 16-bit value `v` stored at `a`.
#[verifier::opaque]
pub open spec fn put_u16(m: Seq<u8>, a: int, v: u16) -> Seq<u8> {
    m.update(a, (v % 256) as u8).update(a + 1, (v / 256) as u8)
}

/// `m` with the 32-bit value `v` stored at `a`.
#[verifier::opaque]
pub open spec fn put_u32(m: Seq<u8>, a: int, v: u32) -> Seq<u8> {
    m.update(a, (v % 256) as u8).update(a + 1, ((v / 256) % 256) as u8).update(
        a + 2,
        ((v / 65536) % 256) as u8,
    ).update(a + 3, (v / 16777216) as u8)
}

/// `m` with the 64-bit value `v` stored at `a`.
#[verifier::opaque]
pub open spec fn put_u64(m: Seq<u8>, a: int, v: u64) -> Seq<u8> {
    put_u32(put_u32(m, a, (v % 4294967296) as u32), a + 4, (v / 4294967296) as u32)
}

/// `a` and `b` hold the same bytes at every address below `hi`.
pub open spec fn same_below(a: Seq<u8>, b: Seq<u8>, hi: int) -> bool {
    &&& hi <= a.len()
    &&& hi <= b.len()
    &&& forall|i: int| 0 <= i < hi ==> a[i] == b[i]
}

/// A 16-bit store is read back unchanged.
pub proof fn lemma_put_get_u16(m: Seq<u8>, a: int, v: u16)
    requires
        0 <= a,
        a + 2 <= m.len(),
    ensures
        u16_at(put_u16(m, a, v), a) == v,
        put_u16(m, a, v).len() == m.len(),
        forall|i: int| 0 <= i < m.len() && !(a <= i < a + 2) ==> put_u16(m, a, v)[i] == m[i],
{
    reveal(put_u16);
}

/// A 32-bit store is read back unchanged and touches only its four bytes.
pub proof fn lemma_put_get_u32(m: Seq<u8>, a: int, v: u32)
    requires
        0 <= a,
        a + 4 <= m.len(),
    ensures
        u32_at(put_u32(m, a, v), a) == v,
        put_u32(m, a, v).len() == m.len(),
        forall|i: int| 0 <= i < m.len() && !(a <= i < a + 4) ==> put_u32(m, a, v)[i] == m[i],
{
    reveal(put_u32);
}

/// A 64-bit store is read back unchanged and touches only its eight bytes.
pub proof fn lemma_put_get_u64(m: Seq<u8>, a: int, v: u64)
    requires
        0 <= a,
        a + 8 <= m.len(),
    ensures
        u64_at(put_u64(m, a, v), a) == v,
        put_u64(m, a, v).len() == m.len(),
        forall|i: int| 0 <= i < m.len() && !(a <= i < a + 8) ==> put_u64(m, a, v)[i] == m[i],
{
    reveal(put_u64);
    let lo = (v % 4294967296) as u32;
    let hi = (v / 4294967296) as u32;
    let m1 = put_u32(m, a, lo);
    lemma_put_get_u32(m, a, lo);
    lemma_put_get_u32(m1, a + 4, hi);
    assert(u32_at(put_u32(m1, a + 4, hi), a) == u32_at(m1, a));
}

/// Reading a word depends only on the bytes it covers.
pub proof fn lemma_same_u32(m1: Seq<u8>, m2: Seq<u8>, a: int)
    requires
        0 <= a,
        a + 4 <= m1.len(),
        a + 4 <= m2.len(),
        forall|i: int| a <= i < a + 4 ==> m1[i] == m2[i],
    ensures
        u32_at(m1, a) == u32_at(m2, a),
{
}

/// Reading a double word depends only on the bytes it covers.
pub proof fn lemma_same_u64(m1: Seq<u8>, m2: Seq<u8>, a: int)
    requires
        0 <= a,
        a + 8 <= m1.len(),
        a + 8 <= m2.len(),
        forall|i: int| a <= i < a + 8 ==> m1[i] == m2[i],
    ensures
        u64_at(m1, a) == u64_at(m2, a),
{
}

/// The signed and unsigned readings of a 32-bit pattern determine each other.
pub proof fn lemma_signed32_round_trip(x: i32, y: u32)
    ensures
        as_signed32(as_unsigned32(x)) == x,
        as_unsigned32(as_signed32(y)) == y,
{
}

/// The 32-bit pattern of a signed value.
pub fn to_unsigned32(x: i32) -> (r: u32)
    ensures
        r == as_unsigned32(x),
{
    if x >= 0 {
        x as u32
    } else {
        ((x as i64) + 0x1_0000_0000i64) as u32
    }
}

/// The signed reading of a 32-bit pattern.
pub fn to_signed32(x: u32) -> (r: i32)
    ensures
        r == as_signed32(x),
{
    if x < 0x8000_0000u32 {
        x as i32
    } else {
        ((x as i64) - 0x1_0000_0000i64) as i32
    }
}

/// The module's linear memory and the state of its bump heap.
///
/// The heap starts at the address the linker reserved for it (`link_base`),
/// which is 4 more than a multiple of 8. Until the first allocation both
/// `heap_base` and `heap_ptr` are zero.
pub struct Memory {
    bytes: Vec<u8>,
    link_base: u32,
    heap_base: u32,
    heap_ptr: u32,
    max_pages: u32,
}

impl View for Memory {
    type V = Seq<u8>;

    closed spec fn view(&self) -> Seq<u8> {
        self.bytes@
    }
}

impl Memory {
    /// The invariant of a memory: whole pages, within the growth limit, the
    /// heap cursor between the heap base and the end of memory.
    pub closed spec fn wf(&self) -> bool {
        &&& self.bytes@.len() % (PAGE_SIZE as nat) == 0
        &&& self.bytes@.len() <= self.max_pages * PAGE_SIZE
        &&& self.max_pages <= MAX_PAGES
        &&& 0 < self.link_base <= self.bytes@.len()
        &&& self.link_base % 8 == 4
        &&& (self.heap_base == 0 ==> self.heap_ptr == 0)
        &&& (self.heap_base != 0 ==> self.heap_base == self.link_base && self.heap_base
            <= self.heap_ptr <= self.bytes@.len() && (self.heap_ptr - self.heap_base) % 8 == 0)
    }

    /// Current size in pages.
    pub closed spec fn pages(&self) -> int {
        self.bytes@.len() as int / (PAGE_SIZE as int)
    }

    /// The most pages this memory may grow to.
    pub closed spec fn page_limit(&self) -> int {
        self.max_pages as int
    }

    /// The first address of the heap, as reserved by the linker.
    pub closed spec fn base(&self) -> int {
        self.link_base as int
    }

    /// Whether the first allocation has taken place.
    pub closed spec fn heap_started(&self) -> bool {
        self.heap_base != 0
    }

    /// The address at which the next object's header will be placed.
    pub closed spec fn cursor(&self) -> int {
        if self.heap_base == 0 {
            self.link_base as int
        } else {
            self.heap_ptr as int
        }
    }

    /// What the invariant says about the sizes involved.
    pub proof fn lemma_bounds(&self)
        requires
            self.wf(),
        ensures
            0 < self.base() <= self.cursor() <= self@.len(),
            self@.len() == self.pages() * 65536,
            self.pages() <= self.page_limit() <= 65535,
            self@.len() <= 0xFFFF_0000,
            (self.cursor() - self.base()) % 8 == 0,
            self.base() % 8 == 4,
            self.cursor() % 8 == 4,
    {
    }

    /// A zero-filled memory of `initial_pages` pages that may grow to
    /// `max_pages`, with the heap placed at `heap_base`. `None` when the
    /// numbers do not describe a memory: a heap base beyond the initial size
    /// or not 4 more than a multiple of 8, or a limit below the initial size
    /// or above `MAX_PAGES`.
    ///
    /// Headers are placed at the heap base and at multiples of 8 from it, and
    /// a payload follows its header by 20 bytes. With a heap base that is 4
    /// more than a multiple of 8, every payload is aligned to 8 bytes.
    pub fn new(heap_base: u32, initial_pages: u32, max_pages: u32) -> (res: Option<Memory>)
        ensures
            res is Some <==> (heap_base <= initial_pages * 65536 && heap_base % 8 == 4
                && initial_pages <= max_pages <= 65535),
            res matches Some(mem) ==> {
                &&& mem.wf()
                &&& mem.base() == heap_base
                &&& mem.cursor() == heap_base
                &&& !mem.heap_started()
                &&& mem.pages() == initial_pages
                &&& mem.page_limit() == max_pages
                &&& mem@ == Seq::new((initial_pages * 65536) as nat, |i: int| 0u8)
            },
    {
        if heap_base % 8 != 4 || initial_pages > max_pages || max_pages > MAX_PAGES {
            return None;
        }
        let len: u32 = initial_pages * PAGE_SIZE;
        if heap_base > len {
            return None;
        }
        let bytes: Vec<u8> = vec![0u8; len as usize];
        assert(bytes@ =~= Seq::new((initial_pages * 65536) as nat, |i: int| 0u8));
        Some(Memory { bytes, link_base: heap_base, heap_base: 0, heap_ptr: 0, max_pages })
    }

    /// Current size in pages.
    pub fn size_pages(&self) -> (n: u32)
        requires
            self.wf(),
        ensures
            n == self.pages(),
    {
        (self.bytes.len() / (PAGE_SIZE as usize)) as u32
    }

    /// The bytes that the heap can still take: from the cursor to the end of
    /// the memory at its page limit.
    pub fn free_bytes(&self) -> (n: u32)
        requires
            self.wf(),
        ensures
            n == self.page_limit() * 65536 - self.cursor(),
    {
        let cursor = if self.heap_base == 0 {
            self.link_base
        } else {
            self.heap_ptr
        };
        self.max_pages * PAGE_SIZE - cursor
    }

    /// The most pages this memory may grow to.
    pub fn max_size_pages(&self) -> (n: u32)
        ensures
            n == self.page_limit(),
    {
        self.max_pages
    }

    /// Current size in bytes.
    pub fn size_bytes(&self) -> (n: u32)
        requires
            self.wf(),
        ensures
            n == self@.len(),
    {
        self.bytes.len() as u32
    }

    /// The address at which the next object's header will be placed.
    pub fn heap_cursor(&self) -> (c: u32)
        requires
            self.wf(),
        ensures
            c == self.cursor(),
    {
        if self.heap_base == 0 {
            self.link_base
        } else {
            self.heap_ptr
        }
    }

    /// The first address of the heap.
    pub fn heap_start(&self) -> (b: u32)
        ensures
            b == self.base(),
    {
        self.link_base
    }

    /// Reads the byte at `addr`.
    pub fn read_u8(&self, addr: u32) -> (v: u8)
        requires
            self.wf(),
            addr < self@.len(),
        ensures
            v == self@[addr as int],
    {
        self.bytes[addr as usize]
    }

    /// Reads the little-endian 16-bit value at `addr`.
    pub fn read_u16(&self, addr: u32) -> (v: u16)
        requires
            self.wf(),
            addr + 2 <= self@.len(),
        ensures
            v == u16_at(self@, addr as int),
    {
        let a = addr as usize;
        let b0 = self.bytes[a] as u16;
        let b1 = self.bytes[a + 1] as u16;
        b0 + 256 * b1
    }

    /// Reads the little-endian 32-bit value at `addr`.
    pub fn read_u32(&self, addr: u32) -> (v: u32)
        requires
            self.wf(),
            addr + 4 <= self@.len(),
        ensures
            v == u32_at(self@, addr as int),
    {
        let a = addr as usize;
        let b0 = self.bytes[a] as u32;
        let b1 = self.bytes[a + 1] as u32;
        let b2 = self.bytes[a + 2] as u32;
        let b3 = self.bytes[a + 3] as u32;
        b0 + 256 * b1 + 65536 * b2 + 16777216 * b3
    }

    /// Reads the little-endian 64-bit value at `addr`.
    pub fn read_u64(&self, addr: u32) -> (v: u64)
        requires
            self.wf(),
            addr + 8 <= self@.len(),
        ensures
            v == u64_at(self@, addr as int),
    {
        let lo = self.read_u32(addr) as u64;
        let hi = self.read_u32(addr + 4) as u64;
        lo + 4294967296 * hi
    }

    /// Stores one byte at `addr`.
    pub fn write_u8(&mut self, addr: u32, v: u8)
        requires
            old(self).wf(),
            addr < old(self)@.len(),
        ensures
            final(self).wf(),
            final(self)@ == old(self)@.update(addr as int, v),
            final(self).same_heap(old(self)),
    {
        self.bytes[addr as usize] = v;
    }

    /// Stores a 16-bit value at `addr`, little-endian.
    pub fn write_u16(&mut self, addr: u32, v: u16)
        requires
            old(self).wf(),
            addr + 2 <= old(self)@.len(),
        ensures
            final(self).wf(),
            final(self)@ == put_u16(old(self)@, addr as int, v),
            final(self)@.len() == old(self)@.len(),
            u16_at(final(self)@, addr as int) == v,
            forall|i: int|
                0 <= i < old(self)@.len() && !(addr <= i < addr + 2) ==> final(self)@[i] == old(
                    self,
                )@[i],
            final(self).same_heap(old(self)),
    {
        proof {
            reveal(put_u16);
            lemma_put_get_u16(old(self)@, addr as int, v);
        }
        let a = addr as usize;
        self.bytes[a] = (v % 256) as u8;
        self.bytes[a + 1] = (v / 256) as u8;
    }

    /// Stores a 32-bit value at `addr`, little-endian.
    pub fn write_u32(&mut self, addr: u32, v: u32)
        requires
            old(self).wf(),
            addr + 4 <= old(self)@.len(),
        ensures
            final(self).wf(),
            final(self)@ == put_u32(old(self)@, addr as int, v),
            final(self)@.len() == old(self)@.len(),
            u32_at(final(self)@, addr as int) == v,
            forall|i: int|
                0 <= i < old(self)@.len() && !(addr <= i < addr + 4) ==> final(self)@[i] == old(
                    self,
                )@[i],
            final(self).same_heap(old(self)),
    {
        proof {
            reveal(put_u32);
            lemma_put_get_u32(old(self)@, addr as int, v);
        }
        let a = addr as usize;
        self.bytes[a] = (v % 256) as u8;
        self.bytes[a + 1] = ((v / 256) % 256) as u8;
        self.bytes[a + 2] = ((v / 65536) % 256) as u8;
        self.bytes[a + 3] = (v / 16777216) as u8;
    }

    /// Stores a 64-bit value at `addr`, little-endian.
    pub fn write_u64(&mut self, addr: u32, v: u64)
        requires
            old(self).wf(),
            addr + 8 <= old(self)@.len(),
        ensures
            final(self).wf(),
            final(self)@ == put_u64(old(self)@, addr as int, v),
            final(self)@.len() == old(self)@.len(),
            u64_at(final(self)@, addr as int) == v,
            forall|i: int|
                0 <= i < old(self)@.len() && !(addr <= i < addr + 8) ==> final(self)@[i] == old(
                    self,
                )@[i],
            final(self).same_heap(old(self)),
    {
        proof {
            reveal(put_u64);
            lemma_put_get_u64(old(self)@, addr as int, v);
        }
        self.write_u32(addr, (v % 4294967296) as u32);
        self.write_u32(addr + 4, (v / 4294967296) as u32);
    }

    /// Starts the heap at the address the linker reserved, unless it has
    /// been started already. The cursor, as `cursor` reads it, stays where it
    /// is.
    pub(crate) fn start_heap(&mut self)
        requires
            old(self).wf(),
        ensures
            final(self).wf(),
            final(self).heap_started(),
            final(self)@ == old(self)@,
            final(self).cursor() == old(self).cursor(),
            final(self).base() == old(self).base(),
            final(self).page_limit() == old(self).page_limit(),
            final(self).pages() == old(self).pages(),
    {
        if self.heap_base == 0 {
            self.heap_base = self.link_base;
            self.heap_ptr = self.link_base;
        }
    }

    /// Grows the memory by `delta` zero-filled pages. Fails, leaving the
    /// memory as it was, when that would exceed the page limit.
    pub fn grow(&mut self, delta: u32) -> (ok: bool)
        requires
            old(self).wf(),
        ensures
            final(self).wf(),
            ok == (old(self).pages() + delta <= old(self).page_limit()),
            ok ==> final(self)@ == old(self)@ + Seq::new((delta * 65536) as nat, |i: int| 0u8),
            ok ==> final(self).pages() == old(self).pages() + delta,
            !ok ==> final(self)@ == old(self)@,
            final(self).same_heap(old(self)),
    {
        let pages: u32 = (self.bytes.len() / (PAGE_SIZE as usize)) as u32;
        if delta > self.max_pages - pages {
            return false;
        }
        let new_len: u32 = (pages + delta) * PAGE_SIZE;
        let ghost before = self.bytes@;
        self.bytes.resize(new_len as usize, 0u8);
        assert(self.bytes@ =~= before + Seq::new((delta * 65536) as nat, |i: int| 0u8));
        true
    }

    /// Moves the cursor of a started heap forward by `span` bytes and returns
    /// where it stood.
    pub(crate) fn advance(&mut self, span: u32) -> (at: u32)
        requires
            old(self).wf(),
            old(self).heap_started(),
            span % 8 == 0,
            old(self).cursor() + span <= old(self)@.len(),
        ensures
            final(self).wf(),
            final(self).heap_started(),
            at == old(self).cursor(),
            final(self).cursor() == old(self).cursor() + span,
            final(self)@ == old(self)@,
            final(self).base() == old(self).base(),
            final(self).page_limit() == old(self).page_limit(),
            final(self).pages() == old(self).pages(),
    {
        let at = self.heap_ptr;
        self.heap_ptr = at + span;
        at
    }

    /// The heap state (base, cursor, limit) is that of `other`.
    pub open spec fn same_heap(&self, other: &Memory) -> bool {
        &&& self.cursor() == other.cursor()
        &&& self.base() == other.base()
        &&& self.page_limit() == other.page_limit()
        &&& self.heap_started() == other.heap_started()
        &&& (self@.len() == other@.len() ==> self.pages() == other.pages())
    }
}

} // verus!
