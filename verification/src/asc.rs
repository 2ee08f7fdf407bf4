//! Wire pointers and the scalar codecs: strings and byte buffers.
//!
//! The host passes and receives data as 32-bit offsets into linear memory.
//! Strings are UTF-16LE code units without a terminator; byte buffers are raw
//! bytes. Both take their length from the `rt_size` field of their header.

use crate::allocator::{
    alloc_span, asc_alloc, extends, managed, read_rt_size, rt_size, spend, ARRAY_BUFFER, STRING,
};
use crate::memory::{
    as_signed32, as_unsigned32, i32_at, lemma_same_u32, same_below, to_signed32, to_unsigned32,
    u16_at, u32_at, u64_at, Memory,
};
use core::marker::PhantomData;
use vstd::prelude::*;

verus! {

/// An offset into linear memory that refers to the payload of a managed
/// object. The type parameter records what the object is meant to be; it has
/// no effect on the value.
#[derive(Debug)]
pub struct AscPtr<T> {
    offset: u32,
    _phantom: PhantomData<T>,
}

impl<T> View for AscPtr<T> {
    type V = u32;

    closed spec fn view(&self) -> u32 {
        self.offset
    }
}

impl<T> Clone for AscPtr<T> {
    fn clone(&self) -> (r: Self)
        ensures
            r == *self,
    {
        *self
    }
}

impl<T> Copy for AscPtr<T> {

}

impl<T> PartialEq for AscPtr<T> {
    fn eq(&self, other: &Self) -> (r: bool) {
        self.offset == other.offset
    }
}

impl<T> Eq for AscPtr<T> {

}

impl<T> vstd::std_specs::cmp::PartialEqSpecImpl for AscPtr<T> {
    open spec fn obeys_eq_spec() -> bool {
        true
    }

    open spec fn eq_spec(&self, other: &Self) -> bool {
        self@ == other@
    }
}

impl<T> AscPtr<T> {
    /// The pointer to the offset `offset`.
    pub fn new(offset: u32) -> (r: Self)
        ensures
            r@ == offset,
    {
        Self { offset, _phantom: PhantomData }
    }

    /// The null pointer.
    pub fn null() -> (r: Self)
        ensures
            r@ == 0,
    {
        Self::new(0)
    }

    /// Whether the pointer is null.
    pub fn is_null(&self) -> (b: bool)
        ensures
            b == (self@ == 0),
    {
        self.offset == 0
    }

    /// The offset.
    pub fn as_raw(&self) -> (r: u32)
        ensures
            r == self@,
    {
        self.offset
    }

    /// The offset as the signed 32-bit pattern that host functions take.
    pub fn as_i32(&self) -> (r: i32)
        ensures
            r == as_signed32(self@),
    {
        to_signed32(self.offset)
    }
}

/// Marks a pointer to a string.
#[derive(Debug)]
pub struct AscString;

/// Marks a pointer to a byte buffer.
#[derive(Debug)]
pub struct AscBytes;

/// Marks a pointer to a typed array.
#[derive(Debug)]
pub struct AscTypedArray<T>(PhantomData<T>);

/// Marks a pointer to an array.
#[derive(Debug)]
pub struct AscArray<T>(PhantomData<T>);

/// Marks a pointer to an entity: a typed map from strings to store values.
#[derive(Debug)]
pub struct AscEntity;

/// Marks a pointer to a typed-map entry.
#[derive(Debug)]
pub struct AscTypedMapEntry<K, V>(PhantomData<(K, V)>);

/// Marks a pointer to a store value.
#[derive(Debug)]
pub struct AscStoreValue;

/// The four fields of an array object, in payload order.
pub struct AscArrayHeader {
    pub buffer: u32,
    pub buffer_data_start: u32,
    pub buffer_data_length: u32,
    pub length: i32,
}

/// The single field of a typed-map object.
pub struct AscTypedMapHeader {
    pub entries: u32,
}

/// The two fields of a typed-map entry, in payload order.
pub struct AscTypedMapEntryHeader {
    pub key: u32,
    pub value: u32,
}

/// The fields of a tagged variant, in payload order: the discriminant, four
/// bytes of padding, and the payload, which is a pointer or an inlined
/// primitive.
pub struct AscEnumHeader {
    pub kind: i32,
    pub _padding: u32,
    pub payload: u64,
}

/// The discriminants of a store value.
#[derive(Clone, Copy, Debug, PartialEq, Eq, Structural)]
pub enum StoreValueKind {
    String,
    Int,
    BigDecimal,
    Bool,
    Array,
    Null,
    Bytes,
    BigInt,
    Int8,
    Timestamp,
}

impl StoreValueKind {
    /// The number the host knows the kind by.
    pub open spec fn spec_code(self) -> i32 {
        match self {
            StoreValueKind::String => 0,
            StoreValueKind::Int => 1,
            StoreValueKind::BigDecimal => 2,
            StoreValueKind::Bool => 3,
            StoreValueKind::Array => 4,
            StoreValueKind::Null => 5,
            StoreValueKind::Bytes => 6,
            StoreValueKind::BigInt => 7,
            StoreValueKind::Int8 => 8,
            StoreValueKind::Timestamp => 9,
        }
    }

    /// The number the host knows the kind by.
    pub fn code(self) -> (c: i32)
        ensures
            c == self.spec_code(),
    {
        match self {
            StoreValueKind::String => 0,
            StoreValueKind::Int => 1,
            StoreValueKind::BigDecimal => 2,
            StoreValueKind::Bool => 3,
            StoreValueKind::Array => 4,
            StoreValueKind::Null => 5,
            StoreValueKind::Bytes => 6,
            StoreValueKind::BigInt => 7,
            StoreValueKind::Int8 => 8,
            StoreValueKind::Timestamp => 9,
        }
    }

    /// The kind with the number `code`, if there is one.
    pub fn from_code(code: i32) -> (k: Option<StoreValueKind>)
        ensures
            k is Some <==> 0 <= code <= 9,
            k matches Some(kind) ==> kind.spec_code() == code,
    {
        match code {
            0 => Some(StoreValueKind::String),
            1 => Some(StoreValueKind::Int),
            2 => Some(StoreValueKind::BigDecimal),
            3 => Some(StoreValueKind::Bool),
            4 => Some(StoreValueKind::Array),
            5 => Some(StoreValueKind::Null),
            6 => Some(StoreValueKind::Bytes),
            7 => Some(StoreValueKind::BigInt),
            8 => Some(StoreValueKind::Int8),
            9 => Some(StoreValueKind::Timestamp),
            _ => None,
        }
    }
}

/// A type whose values can be read out of linear memory.
///
/// `readable` says what the memory must hold at the pointer for the read to
/// stay inside it; `decoded` says what is read.
pub trait FromAscPtr: Sized + View {
    /// What the memory must hold at `ptr`.
    spec fn readable(m: Seq<u8>, ptr: u32) -> bool;

    /// The value that the memory holds at `ptr`.
    spec fn decoded(m: Seq<u8>, ptr: u32) -> Self::V;

    /// Whether the value at `ptr` can be read.
    fn check(mem: &Memory, ptr: u32) -> (ok: bool)
        requires
            mem.wf(),
        ensures
            ok == Self::readable(mem@, ptr),
    ;

    /// Reads the value at `ptr`.
    fn from_asc_ptr(mem: &Memory, ptr: u32) -> (r: Self)
        requires
            mem.wf(),
            Self::readable(mem@, ptr),
        ensures
            r@ == Self::decoded(mem@, ptr),
    ;
}

/// Reads the value at `ptr` if it can be read.
pub fn decode<T: FromAscPtr>(mem: &Memory, ptr: u32) -> (r: Option<T>)
    requires
        mem.wf(),
    ensures
        r is Some <==> T::readable(mem@, ptr),
        r matches Some(v) ==> v@ == T::decoded(mem@, ptr),
{
    if T::check(mem, ptr) {
        Some(T::from_asc_ptr(mem, ptr))
    } else {
        None
    }
}

/// A type whose values can be written into linear memory.
///
/// `footprint` is the number of heap bytes the value takes; `encoded` says
/// what the memory holds at the returned pointer.
pub trait ToAscPtr: View {
    /// The heap bytes that writing `v` uses.
    spec fn footprint(v: Self::V) -> int;

    /// The memory `m` holds `v` at `ptr`.
    spec fn encoded(m: Seq<u8>, ptr: u32, v: Self::V) -> bool;

    /// Writes the value into fresh heap and returns the pointer to it.
    fn to_asc_ptr(&self, mem: &mut Memory) -> (ptr: u32)
        requires
            old(mem).wf(),
            old(mem).cursor() + Self::footprint(self@) <= old(mem).page_limit() * 65536,
        ensures
            extends(old(mem), final(mem), Self::footprint(self@)),
            Self::encoded(final(mem)@, ptr, self@),
    ;
}

impl FromAscPtr for String {
    open spec fn readable(m: Seq<u8>, ptr: u32) -> bool {
        string_ok(m, m.len() as int, ptr as int)
    }

    open spec fn decoded(m: Seq<u8>, ptr: u32) -> Seq<char> {
        string_dec(m, ptr as int)
    }

    fn check(mem: &Memory, ptr: u32) -> (ok: bool) {
        string_readable(mem, mem.size_bytes(), ptr)
    }

    /// Reads the string behind `ptr`.
    fn from_asc_ptr(mem: &Memory, ptr: u32) -> (r: Self) {
        asc_to_string(mem, AscPtr::new(ptr))
    }
}

impl FromAscPtr for Vec<u8> {
    open spec fn readable(m: Seq<u8>, ptr: u32) -> bool {
        bytes_ok(m, m.len() as int, ptr as int)
    }

    open spec fn decoded(m: Seq<u8>, ptr: u32) -> Seq<u8> {
        bytes_dec(m, ptr as int)
    }

    fn check(mem: &Memory, ptr: u32) -> (ok: bool) {
        bytes_readable(mem, mem.size_bytes(), ptr)
    }

    /// Reads the bytes behind `ptr`.
    fn from_asc_ptr(mem: &Memory, ptr: u32) -> (r: Self) {
        asc_to_bytes(mem, AscPtr::new(ptr))
    }
}

impl FromAscPtr for bool {
    open spec fn readable(m: Seq<u8>, ptr: u32) -> bool {
        true
    }

    open spec fn decoded(m: Seq<u8>, ptr: u32) -> bool {
        ptr != 0
    }

    fn check(mem: &Memory, ptr: u32) -> (ok: bool) {
        true
    }

    /// The boolean passed inline in the pointer slot: true unless zero.
    fn from_asc_ptr(mem: &Memory, ptr: u32) -> (r: Self) {
        ptr != 0
    }
}

impl FromAscPtr for i32 {
    open spec fn readable(m: Seq<u8>, ptr: u32) -> bool {
        true
    }

    open spec fn decoded(m: Seq<u8>, ptr: u32) -> i32 {
        as_signed32(ptr)
    }

    fn check(mem: &Memory, ptr: u32) -> (ok: bool) {
        true
    }

    /// The signed integer passed inline in the pointer slot.
    fn from_asc_ptr(mem: &Memory, ptr: u32) -> (r: Self) {
        to_signed32(ptr)
    }
}

impl FromAscPtr for u32 {
    open spec fn readable(m: Seq<u8>, ptr: u32) -> bool {
        true
    }

    open spec fn decoded(m: Seq<u8>, ptr: u32) -> u32 {
        ptr
    }

    fn check(mem: &Memory, ptr: u32) -> (ok: bool) {
        true
    }

    /// The unsigned integer passed inline in the pointer slot.
    fn from_asc_ptr(mem: &Memory, ptr: u32) -> (r: Self) {
        ptr
    }
}

impl ToAscPtr for String {
    open spec fn footprint(v: Seq<char>) -> int {
        string_footprint(v)
    }

    open spec fn encoded(m: Seq<u8>, ptr: u32, v: Seq<char>) -> bool {
        is_string(m, ptr as int, v)
    }

    /// Writes the string into fresh heap.
    fn to_asc_ptr(&self, mem: &mut Memory) -> (ptr: u32) {
        str_to_asc(mem, self.as_str()).as_raw()
    }
}

impl ToAscPtr for Vec<u8> {
    open spec fn footprint(v: Seq<u8>) -> int {
        bytes_footprint(v.len() as int)
    }

    open spec fn encoded(m: Seq<u8>, ptr: u32, v: Seq<u8>) -> bool {
        is_bytes(m, ptr as int, v)
    }

    /// Writes the bytes into fresh heap.
    fn to_asc_ptr(&self, mem: &mut Memory) -> (ptr: u32) {
        bytes_to_asc(mem, self.as_slice()).as_raw()
    }
}

/// The UTF-16 code units of one character: itself below U+10000, a
/// surrogate pair otherwise.
pub open spec fn utf16_char(c: char) -> Seq<u16> {
    if (c as u32) < 0x10000 {
        seq![c as u16]
    } else {
        seq![
            (0xD800 + ((c as u32) - 0x10000) / 1024) as u16,
            (0xDC00 + ((c as u32) - 0x10000) % 1024) as u16,
        ]
    }
}

/// The UTF-16 encoding of a string.
pub open spec fn utf16_encode(s: Seq<char>) -> Seq<u16>
    decreases s.len(),
{
    if s.len() == 0 {
        Seq::empty()
    } else {
        utf16_char(s[0]) + utf16_encode(s.drop_first())
    }
}

/// Whether `u` is a surrogate code unit.
pub open spec fn is_surrogate(u: u16) -> bool {
    0xD800 <= u <= 0xDFFF
}

/// Whether `u` opens a surrogate pair.
pub open spec fn is_high_surrogate(u: u16) -> bool {
    0xD800 <= u <= 0xDBFF
}

/// Whether `u` closes a surrogate pair.
pub open spec fn is_low_surrogate(u: u16) -> bool {
    0xDC00 <= u <= 0xDFFF
}

/// The string that a sequence of UTF-16 code units stands for, with U+FFFD
/// in place of every surrogate that is not part of a pair.
pub open spec fn utf16_decode_lossy(u: Seq<u16>) -> Seq<char>
    decreases u.len(),
{
    if u.len() == 0 {
        Seq::empty()
    } else if !is_surrogate(u[0]) {
        seq![u[0] as char] + utf16_decode_lossy(u.skip(1))
    } else if is_high_surrogate(u[0]) && u.len() >= 2 && is_low_surrogate(u[1]) {
        seq![(0x10000 + (u[0] - 0xD800) * 1024 + (u[1] - 0xDC00)) as char] + utf16_decode_lossy(
            u.skip(2),
        )
    } else {
        seq!['\u{FFFD}'] + utf16_decode_lossy(u.skip(1))
    }
}

/// Encoding a string with one more character appends that character's code
/// units.
pub proof fn lemma_utf16_encode_push(s: Seq<char>, c: char)
    ensures
        utf16_encode(s.push(c)) == utf16_encode(s) + utf16_char(c),
    decreases s.len(),
{
    if s.len() == 0 {
        assert(s.push(c).drop_first() =~= Seq::<char>::empty());
        assert(utf16_encode(s.push(c).drop_first()) =~= Seq::<u16>::empty());
        assert(utf16_encode(s.push(c)) =~= utf16_char(c));
        assert(utf16_encode(s) + utf16_char(c) =~= utf16_char(c));
    } else {
        assert(s.push(c).drop_first() =~= s.drop_first().push(c));
        lemma_utf16_encode_push(s.drop_first(), c);
        assert(utf16_encode(s.push(c)) =~= utf16_encode(s) + utf16_char(c));
    }
}

/// Decoding the code units of a character followed by `rest` gives the
/// character followed by what `rest` decodes to.
pub proof fn lemma_utf16_decode_char(c: char, rest: Seq<u16>)
    ensures
        utf16_decode_lossy(utf16_char(c) + rest) == seq![c] + utf16_decode_lossy(rest),
{
    let u = utf16_char(c) + rest;
    if (c as u32) < 0x10000 {
        assert(u.skip(1) =~= rest);
        assert(u[0] == c as u16);
        assert(u[0] as char == c);
    } else {
        assert(u.skip(2) =~= rest);
        let v = (c as u32) - 0x10000;
        assert(u[0] == (0xD800 + v / 1024) as u16);
        assert(u[1] == (0xDC00 + v % 1024) as u16);
        assert(0x10000 + (u[0] - 0xD800) * 1024 + (u[1] - 0xDC00) == c as u32);
    }
}

/// Every string survives encoding to UTF-16 and decoding again. (A string
/// holds no surrogate code points, so nothing is ever replaced.)
pub proof fn lemma_utf16_round_trip(s: Seq<char>)
    ensures
        utf16_decode_lossy(utf16_encode(s)) == s,
    decreases s.len(),
{
    if s.len() == 0 {
        assert(utf16_decode_lossy(utf16_encode(s)) =~= s);
    } else {
        lemma_utf16_decode_char(s[0], utf16_encode(s.drop_first()));
        lemma_utf16_round_trip(s.drop_first());
        assert(seq![s[0]] + s.drop_first() =~= s);
    }
}

/// What a string object must satisfy to be read: null, or header and
/// payload inside the first `hi` bytes of memory.
pub open spec fn string_ok(m: Seq<u8>, hi: int, p: int) -> bool {
    p == 0 || (20 <= p && p + rt_size(m, p) <= hi <= m.len())
}

/// The code units of the string object at `p`; none for the null pointer.
pub open spec fn string_units(m: Seq<u8>, p: int) -> Seq<u16> {
    if p == 0 {
        Seq::empty()
    } else {
        Seq::new((rt_size(m, p) / 2) as nat, |i: int| u16_at(m, p + 2 * i))
    }
}

/// The string that the object at `p` decodes to.
pub open spec fn string_dec(m: Seq<u8>, p: int) -> Seq<char> {
    utf16_decode_lossy(string_units(m, p))
}

/// The memory holds at `p` the string `s`: a complete header with the string
/// class and twice the number of code units as size, then the code units.
pub open spec fn is_string(m: Seq<u8>, p: int, s: Seq<char>) -> bool {
    &&& 2 * utf16_encode(s).len() <= u32::MAX
    &&& managed(m, p, STRING, (2 * utf16_encode(s).len()) as u32)
    &&& forall|i: int| 0 <= i < utf16_encode(s).len() ==> u16_at(m, p + 2 * i) == utf16_encode(s)[i]
}

/// What a byte buffer must satisfy to be read: null, or header and payload
/// inside the first `hi` bytes of memory.
pub open spec fn bytes_ok(m: Seq<u8>, hi: int, p: int) -> bool {
    p == 0 || (20 <= p && p + rt_size(m, p) <= hi <= m.len())
}

/// The bytes of the buffer at `p`; none for the null pointer.
pub open spec fn bytes_dec(m: Seq<u8>, p: int) -> Seq<u8> {
    if p == 0 {
        Seq::empty()
    } else {
        m.subrange(p, p + rt_size(m, p))
    }
}

/// The memory holds at `p` the byte buffer `b`: a complete header with the
/// buffer class and the length as size, then the bytes.
pub open spec fn is_bytes(m: Seq<u8>, p: int, b: Seq<u8>) -> bool {
    &&& b.len() <= u32::MAX
    &&& managed(m, p, ARRAY_BUFFER, b.len() as u32)
    &&& m.subrange(p, p + b.len()) == b
}

/// Whether the string object at `p` can be read within the first `hi`
/// bytes of memory.
pub fn string_readable(mem: &Memory, hi: u32, p: u32) -> (ok: bool)
    requires
        mem.wf(),
        hi <= mem@.len(),
    ensures
        ok == string_ok(mem@, hi as int, p as int),
        ok == bytes_ok(mem@, hi as int, p as int),
{
    if p == 0 {
        return true;
    }
    if p < 20 || p > hi {
        return false;
    }
    read_rt_size(mem, p) <= hi - p
}

/// Whether the byte buffer at `p` can be read within the first `hi` bytes of
/// memory.
pub fn bytes_readable(mem: &Memory, hi: u32, p: u32) -> (ok: bool)
    requires
        mem.wf(),
        hi <= mem@.len(),
    ensures
        ok == bytes_ok(mem@, hi as int, p as int),
{
    string_readable(mem, hi, p)
}

/// A complete header survives any change that leaves its twenty bytes alone.
pub proof fn lemma_header_frame(a: Seq<u8>, b: Seq<u8>, p: int, class_id: u32, size: u32)
    requires
        managed(a, p, class_id, size),
        p + size <= b.len(),
        forall|i: int| p - 20 <= i < p ==> a[i] == b[i],
    ensures
        managed(b, p, class_id, size),
{
    lemma_same_u32(a, b, p - 20);
    lemma_same_u32(a, b, p - 16);
    lemma_same_u32(a, b, p - 12);
    lemma_same_u32(a, b, p - 8);
    lemma_same_u32(a, b, p - 4);
}

/// A string object is not affected by changes above it.
pub proof fn lemma_string_frame(a: Seq<u8>, b: Seq<u8>, hi: int, p: int, s: Seq<char>)
    requires
        is_string(a, p, s),
        same_below(a, b, hi),
        p + 2 * utf16_encode(s).len() <= hi,
    ensures
        is_string(b, p, s),
{
    lemma_header_frame(a, b, p, STRING, (2 * utf16_encode(s).len()) as u32);
}

/// A byte buffer is not affected by changes above it.
pub proof fn lemma_bytes_frame(a: Seq<u8>, b: Seq<u8>, hi: int, p: int, v: Seq<u8>)
    requires
        is_bytes(a, p, v),
        same_below(a, b, hi),
        p + v.len() <= hi,
    ensures
        is_bytes(b, p, v),
{
    lemma_header_frame(a, b, p, ARRAY_BUFFER, v.len() as u32);
    assert(b.subrange(p, p + v.len()) =~= a.subrange(p, p + v.len()));
}

/// String round trip: a string that was written is read back unchanged.
pub proof fn lemma_string_round_trip(m: Seq<u8>, p: int, s: Seq<char>)
    requires
        is_string(m, p, s),
    ensures
        p != 0,
        string_ok(m, m.len() as int, p),
        string_ok(m, p + 2 * utf16_encode(s).len(), p),
        string_dec(m, p) == s,
{
    assert(string_units(m, p) =~= utf16_encode(s));
    lemma_utf16_round_trip(s);
}

/// Bytes round trip: a byte buffer that was written is read back unchanged.
pub proof fn lemma_bytes_round_trip(m: Seq<u8>, p: int, b: Seq<u8>)
    requires
        is_bytes(m, p, b),
    ensures
        p != 0,
        bytes_ok(m, m.len() as int, p),
        bytes_ok(m, p + b.len(), p),
        bytes_dec(m, p) == b,
{
}

/// Appends the UTF-16 code units of `c` to `out`.
fn push_utf16(out: &mut Vec<u16>, c: char)
    ensures
        final(out)@ == old(out)@ + utf16_char(c),
{
    let cp: u32 = c as u32;
    if cp < 0x10000 {
        out.push(cp as u16);
        assert(out@ =~= old(out)@ + utf16_char(c));
    } else {
        let v: u32 = cp - 0x10000;
        out.push((0xD800 + v / 1024) as u16);
        out.push((0xDC00 + v % 1024) as u16);
        assert(out@ =~= old(out)@ + utf16_char(c));
    }
}

/// The UTF-16 code units of `s`.
pub fn encode_utf16(s: &str) -> (units: Vec<u16>)
    ensures
        units@ == utf16_encode(s@),
{
    let mut out: Vec<u16> = Vec::new();
    for c in it: s.chars()
        invariant
            it.seq() == s@,
            out@ == utf16_encode(s@.take(it.index())),
    {
        proof {
            assert(c == s@[it.index()]);
            lemma_utf16_encode_push(s@.take(it.index()), c);
            assert(s@.take(it.index() + 1) =~= s@.take(it.index()).push(c));
        }
        push_utf16(&mut out, c);
    }
    proof {
        assert(s@.take(s@.len() as int) =~= s@);
    }
    out
}

/// `char::from_u32`: the character with the code point `i`, if `i` is a
/// code point that is no surrogate.
pub assume_specification[ char::from_u32 ](i: u32) -> (r: Option<char>)
    ensures
        r is Some <==> (i <= 0xD7FF || 0xE000 <= i <= 0x10FFFF),
        r matches Some(c) ==> c as u32 == i,
;

/// The character with the code point `i`.
fn char_of(i: u32) -> (c: char)
    requires
        i <= 0xD7FF || 0xE000 <= i <= 0x10FFFF,
    ensures
        c as u32 == i,
{
    match char::from_u32(i) {
        Some(c) => c,
        None => '\u{FFFD}',
    }
}

/// Decoding goes unit by unit: what the first units of `u` stand for,
/// followed by what the rest stands for.
proof fn lemma_utf16_decode_step(u: Seq<u16>, i: int)
    requires
        0 <= i < u.len(),
    ensures
        !is_surrogate(u[i]) ==> utf16_decode_lossy(u.skip(i)) == seq![u[i] as char]
            + utf16_decode_lossy(u.skip(i + 1)),
        is_high_surrogate(u[i]) && i + 1 < u.len() && is_low_surrogate(u[i + 1])
            ==> utf16_decode_lossy(u.skip(i)) == seq![
            (0x10000 + (u[i] - 0xD800) * 1024 + (u[i + 1] - 0xDC00)) as char,
        ] + utf16_decode_lossy(u.skip(i + 2)),
        is_surrogate(u[i]) && !(is_high_surrogate(u[i]) && i + 1 < u.len() && is_low_surrogate(
            u[i + 1],
        )) ==> utf16_decode_lossy(u.skip(i)) == seq!['\u{FFFD}'] + utf16_decode_lossy(
            u.skip(i + 1),
        ),
{
    let rest = u.skip(i);
    assert(rest[0] == u[i]);
    assert(rest.skip(1) =~= u.skip(i + 1));
    if i + 1 < u.len() {
        assert(rest[1] == u[i + 1]);
        assert(rest.skip(2) =~= u.skip(i + 2));
    }
}

/// The string that the UTF-16 code units `units` stand for, with U+FFFD in
/// place of every surrogate that is not part of a pair.
pub fn decode_utf16_lossy(units: &Vec<u16>) -> (s: String)
    ensures
        s@ == utf16_decode_lossy(units@),
{
    let n = units.len();
    let mut s = String::new();
    let mut i: usize = 0;
    assert(units@.skip(0) =~= units@);
    while i < n
        invariant
            0 <= i <= n,
            n == units@.len(),
            s@ + utf16_decode_lossy(units@.skip(i as int)) == utf16_decode_lossy(units@),
        decreases n - i,
    {
        let u = units[i];
        let ghost before = s@;
        proof {
            lemma_utf16_decode_step(units@, i as int);
        }
        if u < 0xD800 || u > 0xDFFF {
            s.push(char_of(u as u32));
            assert(s@ =~= before + seq![u as char]);
            i = i + 1;
        } else if u <= 0xDBFF && n - i > 1 && 0xDC00 <= units[i + 1] && units[i + 1] <= 0xDFFF {
            let v = units[i + 1];
            let c: u32 = 0x10000 + ((u - 0xD800) as u32) * 1024 + ((v - 0xDC00) as u32);
            s.push(char_of(c));
            assert(s@ =~= before + seq![c as char]);
            i = i + 2;
        } else {
            s.push('\u{FFFD}');
            assert(s@ =~= before + seq!['\u{FFFD}']);
            i = i + 1;
        }
        assert(s@ + utf16_decode_lossy(units@.skip(i as int)) =~= utf16_decode_lossy(units@));
    }
    assert(utf16_decode_lossy(units@.skip(n as int)) =~= Seq::<char>::empty());
    s
}

/// The heap bytes that the string `s` takes.
pub open spec fn string_footprint(s: Seq<char>) -> int {
    alloc_span(2 * utf16_encode(s).len() as int)
}

/// The heap bytes that a buffer of `len` bytes takes.
pub open spec fn bytes_footprint(len: int) -> int {
    alloc_span(len)
}

/// The number of UTF-16 code units of the first `n` characters of `s`.
pub open spec fn utf16_len(s: Seq<char>, n: nat) -> nat
    decreases n,
{
    if n == 0 || n > s.len() {
        0
    } else {
        utf16_len(s, (n - 1) as nat) + utf16_char(s[n - 1]).len()
    }
}

/// The encoding of a string has as many code units as its characters have.
pub proof fn lemma_utf16_len(s: Seq<char>, n: nat)
    requires
        n <= s.len(),
    ensures
        utf16_len(s, n) == utf16_encode(s.take(n as int)).len(),
        n <= utf16_len(s, n) <= 2 * n,
    decreases n,
{
    if n == 0 {
        assert(s.take(0) =~= Seq::<char>::empty());
    } else {
        lemma_utf16_len(s, (n - 1) as nat);
        lemma_utf16_encode_push(s.take(n - 1), s[n - 1]);
        assert(s.take(n as int) =~= s.take(n - 1).push(s[n - 1]));
    }
}

/// What is left of `budget` heap bytes after the string `s`; nothing when
/// the string takes more.
pub fn spend_string(s: &str, budget: u32) -> (r: Option<u32>)
    ensures
        r == spend(budget as int, string_footprint(s@)),
{
    let mut units: u64 = 0;
    for c in it: s.chars()
        invariant
            it.seq() == s@,
            units == utf16_len(s@, it.index() as nat),
            units <= 0x1_0000_0000,
    {
        proof {
            assert(c == s@[it.index()]);
            lemma_utf16_len(s@, s@.len());
            lemma_utf16_len(s@, (it.index() + 1) as nat);
            lemma_utf16_above(s@, (it.index() + 1) as nat);
            assert(s@.take(s@.len() as int) =~= s@);
        }
        units = units + if (c as u32) < 0x10000 {
            1
        } else {
            2
        };
        if units > 0x8000_0000 {
            return None;
        }
    }
    proof {
        lemma_utf16_len(s@, s@.len());
        assert(s@.take(s@.len() as int) =~= s@);
    }
    let span: u64 = (2 * units + 27) / 8 * 8;
    if span > budget as u64 {
        None
    } else {
        Some((budget as u64 - span) as u32)
    }
}

/// A string has at least as many code units as any of its prefixes.
pub proof fn lemma_utf16_above(s: Seq<char>, n: nat)
    requires
        n <= s.len(),
    ensures
        utf16_len(s, n) <= utf16_len(s, s.len()),
    decreases s.len() - n,
{
    if n < s.len() {
        lemma_utf16_above(s, n + 1);
    }
}

/// Writes `s` into fresh heap as a string object and returns the pointer to
/// its payload.
#[verifier::rlimit(100)]
pub fn str_to_asc(mem: &mut Memory, s: &str) -> (ptr: AscPtr<AscString>)
    requires
        old(mem).wf(),
        old(mem).cursor() + string_footprint(s@) <= old(mem).page_limit() * 65536,
    ensures
        ptr@ == old(mem).cursor() + 20,
        extends(old(mem), final(mem), string_footprint(s@)),
        is_string(final(mem)@, ptr@ as int, s@),
{
    let utf16 = encode_utf16(s);
    proof {
        reveal(extends);
        mem.lemma_bounds();
    }
    let n: usize = utf16.len();
    let byte_len: u32 = (n * 2) as u32;
    let ptr = asc_alloc(mem, byte_len, STRING);
    let ghost snap = *mem;
    proof {
        mem.lemma_bounds();
    }
    let mut i: usize = 0;
    while i < n
        invariant
            0 <= i <= n,
            n == utf16@.len(),
            byte_len == 2 * n,
            mem.wf(),
            mem.same_heap(&snap),
            mem@.len() == snap@.len(),
            20 <= ptr,
            ptr + byte_len <= mem@.len(),
            mem@.len() <= 0xFFFF_0000,
            forall|k: int| 0 <= k < ptr ==> mem@[k] == snap@[k],
            forall|k: int| ptr + byte_len <= k < mem@.len() ==> mem@[k] == snap@[k],
            forall|j: int| 0 <= j < i ==> u16_at(mem@, ptr + 2 * j) == utf16@[j],
        decreases n - i,
    {
        let ghost before = mem@;
        mem.write_u16(ptr + 2 * (i as u32), utf16[i]);
        assert forall|j: int| 0 <= j < i + 1 implies u16_at(mem@, ptr + 2 * j) == utf16@[j] by {
            if j < i {
                assert(u16_at(before, ptr + 2 * j) == utf16@[j]);
            }
        }
        i = i + 1;
    }
    proof {
        lemma_header_frame(snap@, mem@, ptr as int, STRING, byte_len);
        crate::allocator::lemma_span_positive(byte_len);
        assert forall|i: int| mem.cursor() <= i < mem@.len() implies mem@[i] == if i < old(
            mem,
        )@.len() {
            old(mem)@[i]
        } else {
            0u8
        } by {
            assert(mem@[i] == snap@[i]);
        }
    }
    AscPtr::new(ptr)
}

/// Reads the string object at `ptr`. The null pointer reads as the empty
/// string; a surrogate that is not part of a pair reads as U+FFFD.
pub fn asc_to_string(mem: &Memory, ptr: AscPtr<AscString>) -> (s: String)
    requires
        mem.wf(),
        string_ok(mem@, mem@.len() as int, ptr@ as int),
    ensures
        s@ == string_dec(mem@, ptr@ as int),
{
    if ptr.is_null() {
        let s = String::new();
        assert(utf16_decode_lossy(Seq::<u16>::empty()) =~= Seq::<char>::empty());
        return s;
    }
    proof {
        mem.lemma_bounds();
    }
    let raw = ptr.as_raw();
    let size = read_rt_size(mem, raw);
    let len: u32 = size / 2;
    let mut units: Vec<u16> = Vec::new();
    let mut i: u32 = 0;
    while i < len
        invariant
            0 <= i <= len,
            mem.wf(),
            len == size / 2,
            raw + size <= mem@.len(),
            mem@.len() <= 0xFFFF_0000,
            units@.len() == i,
            forall|j: int| 0 <= j < i ==> units@[j] == u16_at(mem@, raw + 2 * j),
        decreases len - i,
    {
        units.push(mem.read_u16(raw + 2 * i));
        i = i + 1;
    }
    assert(units@ =~= string_units(mem@, raw as int));
    decode_utf16_lossy(&units)
}

/// Writes `data` into fresh heap as a byte buffer and returns the pointer to
/// its payload.
#[verifier::rlimit(100)]
pub fn bytes_to_asc(mem: &mut Memory, data: &[u8]) -> (ptr: AscPtr<AscBytes>)
    requires
        old(mem).wf(),
        old(mem).cursor() + bytes_footprint(data@.len() as int) <= old(mem).page_limit() * 65536,
    ensures
        ptr@ == old(mem).cursor() + 20,
        extends(old(mem), final(mem), bytes_footprint(data@.len() as int)),
        is_bytes(final(mem)@, ptr@ as int, data@),
{
    proof {
        reveal(extends);
        mem.lemma_bounds();
    }
    let n: usize = data.len();
    let len: u32 = n as u32;
    let ptr = asc_alloc(mem, len, ARRAY_BUFFER);
    let ghost snap = *mem;
    proof {
        mem.lemma_bounds();
    }
    let mut i: usize = 0;
    while i < n
        invariant
            0 <= i <= n,
            n == data@.len(),
            len == n,
            mem.wf(),
            mem.same_heap(&snap),
            mem@.len() == snap@.len(),
            20 <= ptr,
            ptr + len <= mem@.len(),
            mem@.len() <= 0xFFFF_0000,
            forall|k: int| 0 <= k < ptr ==> mem@[k] == snap@[k],
            forall|k: int| ptr + len <= k < mem@.len() ==> mem@[k] == snap@[k],
            forall|j: int| 0 <= j < i ==> mem@[ptr + j] == data@[j],
        decreases n - i,
    {
        mem.write_u8(ptr + (i as u32), data[i]);
        i = i + 1;
    }
    proof {
        lemma_header_frame(snap@, mem@, ptr as int, ARRAY_BUFFER, len);
        crate::allocator::lemma_span_positive(len);
        assert forall|i: int| mem.cursor() <= i < mem@.len() implies mem@[i] == if i < old(
            mem,
        )@.len() {
            old(mem)@[i]
        } else {
            0u8
        } by {
            assert(mem@[i] == snap@[i]);
        }
        assert(mem@.subrange(ptr as int, ptr + data@.len()) =~= data@);
    }
    AscPtr::new(ptr)
}

/// Reads the byte buffer at `ptr`. The null pointer reads as no bytes.
pub fn asc_to_bytes(mem: &Memory, ptr: AscPtr<AscBytes>) -> (bytes: Vec<u8>)
    requires
        mem.wf(),
        bytes_ok(mem@, mem@.len() as int, ptr@ as int),
    ensures
        bytes@ == bytes_dec(mem@, ptr@ as int),
{
    if ptr.is_null() {
        return Vec::new();
    }
    proof {
        mem.lemma_bounds();
    }
    let raw = ptr.as_raw();
    let len = read_rt_size(mem, raw);
    let mut bytes: Vec<u8> = Vec::new();
    let mut i: u32 = 0;
    while i < len
        invariant
            0 <= i <= len,
            mem.wf(),
            raw + len <= mem@.len(),
            mem@.len() <= 0xFFFF_0000,
            bytes@.len() == i,
            forall|j: int| 0 <= j < i ==> bytes@[j] == mem@[raw + j],
        decreases len - i,
    {
        bytes.push(mem.read_u8(raw + i));
        i = i + 1;
    }
    assert(bytes@ =~= bytes_dec(mem@, raw as int));
    bytes
}

/// The pointer in a host function's reply. Zero stands for absence.
pub fn ptr_from_reply(reply: i32) -> (ptr: u32)
    ensures
        ptr == as_unsigned32(reply),
{
    to_unsigned32(reply)
}

/// Reads the string that a host function replied with.
pub fn string_from_reply(mem: &Memory, reply: i32) -> (s: String)
    requires
        mem.wf(),
        string_ok(mem@, mem@.len() as int, as_unsigned32(reply) as int),
    ensures
        s@ == string_dec(mem@, as_unsigned32(reply) as int),
{
    asc_to_string(mem, AscPtr::new(to_unsigned32(reply)))
}

/// Reads the bytes that a host function replied with.
pub fn bytes_from_reply(mem: &Memory, reply: i32) -> (bytes: Vec<u8>)
    requires
        mem.wf(),
        bytes_ok(mem@, mem@.len() as int, as_unsigned32(reply) as int),
    ensures
        bytes@ == bytes_dec(mem@, as_unsigned32(reply) as int),
{
    asc_to_bytes(mem, AscPtr::new(to_unsigned32(reply)))
}

/// Reads the unsigned 32-bit field at `offset` bytes from `base`.
pub fn read_u32_at(mem: &Memory, base: u32, offset: usize) -> (v: u32)
    requires
        mem.wf(),
        base + offset + 4 <= mem@.len(),
    ensures
        v == u32_at(mem@, base + offset),
{
    proof {
        mem.lemma_bounds();
    }
    mem.read_u32(base + (offset as u32))
}

/// Reads the unsigned 64-bit field at `offset` bytes from `base`.
pub fn read_u64_at(mem: &Memory, base: u32, offset: usize) -> (v: u64)
    requires
        mem.wf(),
        base + offset + 8 <= mem@.len(),
    ensures
        v == u64_at(mem@, base + offset),
{
    proof {
        mem.lemma_bounds();
    }
    mem.read_u64(base + (offset as u32))
}

/// Reads the signed 32-bit field at `offset` bytes from `base`.
pub fn read_i32_at(mem: &Memory, base: u32, offset: usize) -> (v: i32)
    requires
        mem.wf(),
        base + offset + 4 <= mem@.len(),
    ensures
        v == i32_at(mem@, base + offset),
{
    proof {
        mem.lemma_bounds();
    }
    to_signed32(mem.read_u32(base + (offset as u32)))
}

/// Stores the unsigned 32-bit field at `offset` bytes from `base`.
pub fn write_u32_at(mem: &mut Memory, base: u32, offset: usize, v: u32)
    requires
        old(mem).wf(),
        base + offset + 4 <= old(mem)@.len(),
    ensures
        final(mem).wf(),
        final(mem).same_heap(old(mem)),
        final(mem)@.len() == old(mem)@.len(),
        u32_at(final(mem)@, base + offset) == v,
        forall|i: int|
            0 <= i < old(mem)@.len() && !(base + offset <= i < base + offset + 4) ==> final(mem)@[i]
                == old(mem)@[i],
{
    proof {
        mem.lemma_bounds();
    }
    mem.write_u32(base + (offset as u32), v);
}

} // verus!
