//! The two composite shapes that all codecs share: arrays and tagged
//! variants.
//!
//! An array of `n` references is two objects. A byte buffer of `4n` bytes
//! holds the element pointers; the array object proper holds four fields:
//! the pointer to the buffer, the offset of the data in it (always 0), the
//! length of the data in bytes (`4n`) and the number of elements.
//!
//! A tagged variant holds a discriminant, four bytes of padding and a 64-bit
//! payload: a pointer, or an inlined primitive.
//!
//! Children are written before the object that refers to them, so a pointer
//! field always holds a lower address than the object it is a field of.

use crate::allocator::{
    alloc_span, asc_alloc, extends, lemma_extends, lemma_extends_trans, managed, spend,
    spend_object, ARRAY_BUFFER,
};
use crate::asc::{
    lemma_header_frame, AscArrayHeader, AscEnumHeader, AscTypedMapEntryHeader, AscTypedMapHeader,
};
use crate::memory::{
    i32_at, lemma_same_u32, lemma_same_u64, same_below, to_signed32, to_unsigned32, u32_at, u64_at,
    Memory,
};
use vstd::prelude::*;

verus! {

/// The low half of a 64-bit payload, where a pointer is kept.
pub open spec fn low32(x: u64) -> u32 {
    (x % 0x1_0000_0000) as u32
}

/// The signed reading of a 64-bit pattern (two's complement).
pub open spec fn as_signed64(x: u64) -> i64 {
    if x < 0x8000_0000_0000_0000 {
        x as i64
    } else {
        (x as int - 0x1_0000_0000_0000_0000) as i64
    }
}

/// The 64-bit pattern of a signed value (two's complement).
pub open spec fn as_unsigned64(x: i64) -> u64 {
    if x >= 0 {
        x as u64
    } else {
        (x as int + 0x1_0000_0000_0000_0000) as u64
    }
}

/// The 64-bit pattern of a signed value.
pub fn to_unsigned64(x: i64) -> (r: u64)
    ensures
        r == as_unsigned64(x),
{
    if x >= 0 {
        x as u64
    } else {
        ((x as i128) + 0x1_0000_0000_0000_0000i128) as u64
    }
}

/// The signed reading of a 64-bit pattern.
pub fn to_signed64(x: u64) -> (r: i64)
    ensures
        r == as_signed64(x),
{
    if x < 0x8000_0000_0000_0000u64 {
        x as i64
    } else {
        ((x as i128) - 0x1_0000_0000_0000_0000i128) as i64
    }
}

/// The low half of a 64-bit payload.
pub fn payload_ptr(payload: u64) -> (r: u32)
    ensures
        r == low32(payload),
{
    (payload % 0x1_0000_0000) as u32
}

/// The buffer field of the array object at `a`.
pub open spec fn array_buffer(m: Seq<u8>, a: int) -> u32 {
    u32_at(m, a)
}

/// The length field of the array object at `a`.
pub open spec fn array_length(m: Seq<u8>, a: int) -> i32 {
    i32_at(m, a + 12)
}

/// Whether the array at `a` reads as empty: a null pointer, a null buffer
/// or a length that is not positive.
pub open spec fn array_is_empty(m: Seq<u8>, a: int) -> bool {
    a == 0 || array_buffer(m, a) == 0 || array_length(m, a) <= 0
}

/// What an array must satisfy to be read: null, or the four fields inside
/// the first `hi` bytes of memory and, unless the array reads as empty, the
/// element pointers in a buffer that lies before the array object.
pub open spec fn array_ok(m: Seq<u8>, hi: int, a: int) -> bool {
    a == 0 || {
        &&& 20 <= a
        &&& a + 16 <= hi <= m.len()
        &&& (array_is_empty(m, a) || (20 <= array_buffer(m, a) && array_buffer(m, a) + 4
            * array_length(m, a) <= a - 20))
    }
}

/// The element pointers of the array at `a`.
pub open spec fn array_elems(m: Seq<u8>, a: int) -> Seq<u32> {
    if array_is_empty(m, a) {
        Seq::empty()
    } else {
        Seq::new(array_length(m, a) as nat, |i: int| u32_at(m, array_buffer(m, a) + 4 * i))
    }
}

/// The memory holds at `a` an array of class `class_id` with the element
/// pointers `elems`: first the buffer with the pointers, directly followed
/// by the array object with its four fields.
pub open spec fn is_array(m: Seq<u8>, a: int, class_id: u32, elems: Seq<u32>) -> bool {
    let n = elems.len() as int;
    let b = array_buffer(m, a) as int;
    &&& 4 * n <= u32::MAX
    &&& managed(m, a, class_id, 16)
    &&& managed(m, b, ARRAY_BUFFER, (4 * n) as u32)
    &&& a == b + alloc_span(4 * n)
    &&& u32_at(m, a + 4) == 0
    &&& u32_at(m, a + 8) == 4 * n
    &&& array_length(m, a) == n
    &&& forall|i: int| 0 <= i < n ==> u32_at(m, b + 4 * i) == elems[i]
}

/// An array that was written is read back with the same elements, in the
/// same number.
pub proof fn lemma_array_round_trip(m: Seq<u8>, a: int, class_id: u32, elems: Seq<u32>)
    requires
        is_array(m, a, class_id, elems),
    ensures
        a != 0,
        array_ok(m, a + 16, a),
        array_ok(m, m.len() as int, a),
        array_elems(m, a) == elems,
        array_elems(m, a).len() == elems.len(),
        20 <= array_buffer(m, a),
        array_buffer(m, a) + 4 * elems.len() <= a - 20,
{
    if elems.len() == 0 {
        assert(array_elems(m, a) =~= elems);
    } else {
        assert(array_elems(m, a) =~= elems);
    }
}

/// An array is not affected by changes above it.
pub proof fn lemma_array_frame(
    x: Seq<u8>,
    y: Seq<u8>,
    hi: int,
    a: int,
    class_id: u32,
    elems: Seq<u32>,
)
    requires
        is_array(x, a, class_id, elems),
        same_below(x, y, hi),
        a + 16 <= hi,
    ensures
        is_array(y, a, class_id, elems),
{
    let n = elems.len() as int;
    let b = array_buffer(x, a) as int;
    lemma_same_u32(x, y, a);
    lemma_same_u32(x, y, a + 4);
    lemma_same_u32(x, y, a + 8);
    lemma_same_u32(x, y, a + 12);
    lemma_header_frame(x, y, a, class_id, 16);
    lemma_header_frame(x, y, b, ARRAY_BUFFER, (4 * n) as u32);
    assert forall|i: int| 0 <= i < n implies u32_at(y, b + 4 * i) == elems[i] by {
        lemma_same_u32(x, y, b + 4 * i);
    }
}

/// The heap bytes that an array of `n` element pointers takes, its elements
/// not counted.
pub open spec fn array_span(n: int) -> int {
    alloc_span(4 * n) + 40
}

/// What is left of `budget` heap bytes after the array object and the
/// buffer of an array of `n` elements.
pub fn spend_array(n: usize, budget: u32) -> (r: Option<u32>)
    ensures
        r == spend(budget as int, array_span(n as int)),
{
    if n > 0x3FFF_FFFF {
        return None;
    }
    match spend_object(4 * n, budget) {
        Some(left) => spend_object(16, left),
        None => None,
    }
}

/// Reads the four fields of the array object at `a`.
pub fn read_array_header(mem: &Memory, a: u32) -> (h: AscArrayHeader)
    requires
        mem.wf(),
        a + 16 <= mem@.len(),
    ensures
        h.buffer == array_buffer(mem@, a as int),
        h.buffer_data_start == u32_at(mem@, a + 4),
        h.buffer_data_length == u32_at(mem@, a + 8),
        h.length == array_length(mem@, a as int),
{
    proof {
        mem.lemma_bounds();
    }
    AscArrayHeader {
        buffer: mem.read_u32(a),
        buffer_data_start: mem.read_u32(a + 4),
        buffer_data_length: mem.read_u32(a + 8),
        length: to_signed32(mem.read_u32(a + 12)),
    }
}

/// Reads the field of the typed-map object at `p`.
pub fn read_map_header(mem: &Memory, p: u32) -> (h: AscTypedMapHeader)
    requires
        mem.wf(),
        p + 4 <= mem@.len(),
    ensures
        h.entries == u32_at(mem@, p as int),
{
    AscTypedMapHeader { entries: mem.read_u32(p) }
}

/// Reads the two fields of the typed-map entry at `q`.
pub fn read_entry_header(mem: &Memory, q: u32) -> (h: AscTypedMapEntryHeader)
    requires
        mem.wf(),
        q + 8 <= mem@.len(),
    ensures
        h.key == u32_at(mem@, q as int),
        h.value == u32_at(mem@, q + 4),
{
    proof {
        mem.lemma_bounds();
    }
    AscTypedMapEntryHeader { key: mem.read_u32(q), value: mem.read_u32(q + 4) }
}

/// Reads the fields of the tagged variant at `p`.
pub fn read_enum_header(mem: &Memory, p: u32) -> (h: AscEnumHeader)
    requires
        mem.wf(),
        p + 16 <= mem@.len(),
    ensures
        h.kind == enum_kind(mem@, p as int),
        h._padding == u32_at(mem@, p + 4),
        h.payload == enum_payload(mem@, p as int),
{
    proof {
        mem.lemma_bounds();
    }
    AscEnumHeader {
        kind: to_signed32(mem.read_u32(p)),
        _padding: mem.read_u32(p + 4),
        payload: mem.read_u64(p + 8),
    }
}

/// Whether the array at `a` can be read within the first `hi` bytes of
/// memory.
pub fn array_readable(mem: &Memory, hi: u32, a: u32) -> (ok: bool)
    requires
        mem.wf(),
        hi <= mem@.len(),
    ensures
        ok == array_ok(mem@, hi as int, a as int),
{
    if a == 0 {
        return true;
    }
    if a < 20 || hi < 16 || a > hi - 16 {
        return false;
    }
    let header = read_array_header(mem, a);
    if header.buffer == 0 || header.length <= 0 {
        return true;
    }
    header.buffer >= 20 && header.buffer as u64 + 4 * (header.length as u64) <= (a - 20) as u64
}

/// Reads the element pointers of the array at `a`. A null pointer, a null
/// buffer and a length that is not positive all read as no elements.
pub fn read_array(mem: &Memory, a: u32) -> (elems: Vec<u32>)
    requires
        mem.wf(),
        array_ok(mem@, mem@.len() as int, a as int),
    ensures
        elems@ == array_elems(mem@, a as int),
{
    let mut elems: Vec<u32> = Vec::new();
    if a == 0 {
        return elems;
    }
    proof {
        mem.lemma_bounds();
    }
    let header = read_array_header(mem, a);
    let buffer = header.buffer;
    if buffer == 0 || header.length <= 0 {
        return elems;
    }
    let n: u32 = header.length as u32;
    let mut i: u32 = 0;
    while i < n
        invariant
            0 <= i <= n,
            n == array_length(mem@, a as int),
            buffer == array_buffer(mem@, a as int),
            mem.wf(),
            20 <= buffer,
            buffer + 4 * n <= a - 20,
            a + 16 <= mem@.len(),
            mem@.len() <= 0xFFFF_0000,
            elems@.len() == i,
            forall|j: int| 0 <= j < i ==> elems@[j] == u32_at(mem@, buffer + 4 * j),
        decreases n - i,
    {
        elems.push(mem.read_u32(buffer + 4 * i));
        i = i + 1;
    }
    assert(elems@ =~= array_elems(mem@, a as int));
    elems
}

/// The memory holds at `p` an object of class `class_id` whose payload is
/// the 32-bit fields `fields`, in order.
pub open spec fn is_object(m: Seq<u8>, p: int, class_id: u32, fields: Seq<u32>) -> bool {
    &&& 4 * fields.len() <= u32::MAX
    &&& managed(m, p, class_id, (4 * fields.len()) as u32)
    &&& forall|j: int| 0 <= j < fields.len() ==> u32_at(m, p + 4 * j) == fields[j]
}

/// Writes an object of class `class_id` whose payload is the 32-bit fields
/// `fields` into fresh heap and returns the pointer to it.
#[verifier::rlimit(100)]
pub fn write_object(mem: &mut Memory, class_id: u32, fields: &Vec<u32>) -> (p: u32)
    requires
        old(mem).wf(),
        old(mem).cursor() + alloc_span(4 * fields@.len() as int) <= old(mem).page_limit() * 65536,
    ensures
        p == old(mem).cursor() + 20,
        extends(old(mem), final(mem), alloc_span(4 * fields@.len() as int)),
        is_object(final(mem)@, p as int, class_id, fields@),
{
    proof {
        reveal(extends);
        mem.lemma_bounds();
    }
    let n: usize = fields.len();
    let size: u32 = (n * 4) as u32;
    let p = asc_alloc(mem, size, class_id);
    let ghost snap = *mem;
    proof {
        mem.lemma_bounds();
    }
    let mut i: usize = 0;
    while i < n
        invariant
            0 <= i <= n,
            n == fields@.len(),
            size == 4 * n,
            mem.wf(),
            mem.same_heap(&snap),
            mem@.len() == snap@.len(),
            20 <= p,
            p + size <= mem@.len(),
            mem@.len() <= 0xFFFF_0000,
            forall|k: int| 0 <= k < p ==> mem@[k] == snap@[k],
            forall|k: int| p + size <= k < mem@.len() ==> mem@[k] == snap@[k],
            forall|j: int| 0 <= j < i ==> u32_at(mem@, p + 4 * j) == fields@[j],
        decreases n - i,
    {
        let ghost before = mem@;
        mem.write_u32(p + 4 * (i as u32), fields[i]);
        assert forall|j: int| 0 <= j < i + 1 implies u32_at(mem@, p + 4 * j) == fields@[j] by {
            if j < i {
                lemma_same_u32(before, mem@, p + 4 * j);
            }
        }
        i = i + 1;
    }
    proof {
        lemma_header_frame(snap@, mem@, p as int, class_id, size);
        crate::allocator::lemma_span_positive(size);
        assert forall|i: int| mem.cursor() <= i < mem@.len() implies mem@[i] == if i < old(
            mem,
        )@.len() {
            old(mem)@[i]
        } else {
            0u8
        } by {
            assert(mem@[i] == snap@[i]);
        }
    }
    p
}

/// Writes an object of four 32-bit fields into fresh heap.
fn write_quad(mem: &mut Memory, class_id: u32, f0: u32, f1: u32, f2: u32, f3: u32) -> (p: u32)
    requires
        old(mem).wf(),
        old(mem).cursor() + 40 <= old(mem).page_limit() * 65536,
    ensures
        p == old(mem).cursor() + 20,
        extends(old(mem), final(mem), 40),
        managed(final(mem)@, p as int, class_id, 16),
        u32_at(final(mem)@, p as int) == f0,
        u32_at(final(mem)@, p + 4) == f1,
        u32_at(final(mem)@, p + 8) == f2,
        u32_at(final(mem)@, p + 12) == f3,
{
    proof {
        reveal(extends);
        mem.lemma_bounds();
    }
    let p = asc_alloc(mem, 16, class_id);
    let ghost fresh = mem@;
    proof {
        mem.lemma_bounds();
    }
    mem.write_u32(p, f0);
    let ghost m1 = mem@;
    mem.write_u32(p + 4, f1);
    let ghost m2 = mem@;
    mem.write_u32(p + 8, f2);
    let ghost m3 = mem@;
    mem.write_u32(p + 12, f3);
    proof {
        let m4 = mem@;
        lemma_same_u32(m1, m4, p as int);
        lemma_same_u32(m2, m4, p + 4);
        lemma_same_u32(m3, m4, p + 8);
        lemma_header_frame(fresh, m4, p as int, class_id, 16);
    }
    p
}

/// Writes an array of class `class_id` with the element pointers `elems`
/// into fresh heap: the buffer with the pointers, then the array object.
/// Returns the pointer to the array object.
#[verifier::rlimit(100)]
pub fn write_array(mem: &mut Memory, elems: &Vec<u32>, class_id: u32) -> (a: u32)
    requires
        old(mem).wf(),
        old(mem).cursor() + array_span(elems@.len() as int) <= old(mem).page_limit() * 65536,
    ensures
        a == old(mem).cursor() + alloc_span(4 * elems@.len() as int) + 20,
        extends(old(mem), final(mem), array_span(elems@.len() as int)),
        is_array(final(mem)@, a as int, class_id, elems@),
{
    proof {
        mem.lemma_bounds();
    }
    let n: usize = elems.len();
    let buffer = write_object(mem, ARRAY_BUFFER, elems);
    let ghost filled = *mem;
    proof {
        lemma_extends(old(mem), &filled, alloc_span(4 * n));
        filled.lemma_bounds();
    }
    let a = write_quad(mem, class_id, buffer, 0, (n * 4) as u32, n as u32);
    proof {
        let m = mem@;
        lemma_extends(&filled, mem, 40);
        lemma_extends_trans(old(mem), &filled, mem, alloc_span(4 * n), 40);
        lemma_header_frame(filled@, m, buffer as int, ARRAY_BUFFER, (4 * n) as u32);
        assert forall|j: int| 0 <= j < n implies u32_at(m, buffer + 4 * j) == elems@[j] by {
            lemma_same_u32(filled@, m, buffer + 4 * j);
        }
        assert(array_length(m, a as int) == n);
    }
    a
}

/// The discriminant of the tagged variant at `p`.
pub open spec fn enum_kind(m: Seq<u8>, p: int) -> i32 {
    i32_at(m, p)
}

/// The payload of the tagged variant at `p`.
pub open spec fn enum_payload(m: Seq<u8>, p: int) -> u64 {
    u64_at(m, p + 8)
}

/// The memory holds at `p` a tagged variant of class `class_id` with the
/// discriminant `kind`, zero padding and the payload `payload`.
pub open spec fn is_enum(m: Seq<u8>, p: int, class_id: u32, kind: i32, payload: u64) -> bool {
    &&& managed(m, p, class_id, 16)
    &&& enum_kind(m, p) == kind
    &&& u32_at(m, p + 4) == 0
    &&& enum_payload(m, p) == payload
}

/// A tagged variant is not affected by changes above it.
pub proof fn lemma_enum_frame(
    x: Seq<u8>,
    y: Seq<u8>,
    hi: int,
    p: int,
    class_id: u32,
    kind: i32,
    payload: u64,
)
    requires
        is_enum(x, p, class_id, kind, payload),
        same_below(x, y, hi),
        p + 16 <= hi,
    ensures
        is_enum(y, p, class_id, kind, payload),
{
    lemma_same_u32(x, y, p);
    lemma_same_u32(x, y, p + 4);
    lemma_same_u64(x, y, p + 8);
    lemma_header_frame(x, y, p, class_id, 16);
}

/// Writes a tagged variant of class `class_id` into fresh heap and returns
/// the pointer to it.
#[verifier::rlimit(100)]
pub fn write_enum(mem: &mut Memory, class_id: u32, kind: i32, payload: u64) -> (p: u32)
    requires
        old(mem).wf(),
        old(mem).cursor() + 40 <= old(mem).page_limit() * 65536,
    ensures
        p == old(mem).cursor() + 20,
        extends(old(mem), final(mem), 40),
        is_enum(final(mem)@, p as int, class_id, kind, payload),
{
    proof {
        reveal(extends);
        mem.lemma_bounds();
    }
    let p = asc_alloc(mem, 16, class_id);
    let ghost fresh = mem@;
    proof {
        mem.lemma_bounds();
    }
    mem.write_u32(p, to_unsigned32(kind));
    let ghost m1 = mem@;
    mem.write_u32(p + 4, 0);
    let ghost m2 = mem@;
    mem.write_u64(p + 8, payload);
    proof {
        let m3 = mem@;
        lemma_same_u32(m1, m3, p as int);
        lemma_same_u32(m2, m3, p + 4);
        lemma_header_frame(fresh, m3, p as int, class_id, 16);
    }
    p
}

} // verus!
