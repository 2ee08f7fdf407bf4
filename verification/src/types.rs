//! The native values that mappings work with: addresses, byte strings,
//! handles of arbitrary-precision numbers, store values and entities.
//!
//! Arbitrary-precision numbers are never decoded. A `BigInt` or `BigDecimal`
//! is the pointer to a number that the host owns; arithmetic on them is a
//! call to the host (see `host`).

use crate::allocator::extends;
use crate::asc::{
    asc_to_string, bytes_to_asc, is_bytes, is_string, str_to_asc, string_dec, string_footprint,
    string_ok, AscBytes, AscPtr,
};
use crate::host::{
    big_decimal_divided_by, big_decimal_equals, big_decimal_from_string, big_decimal_minus,
    big_decimal_plus, big_decimal_times, big_decimal_to_string, big_int_bit_and, big_int_bit_or,
    big_int_divided_by, big_int_left_shift, big_int_minus, big_int_mod, big_int_plus, big_int_pow,
    big_int_right_shift, big_int_times, big_int_to_hex, big_int_to_string, HostCall, Import,
};
use crate::memory::{as_signed32, as_unsigned32, to_unsigned32, Memory};
use vstd::prelude::*;

verus! {

/// `String::push`: appends one character to the string.
pub assume_specification[ std::string::String::push ](s: &mut std::string::String, ch: char)
    ensures
        final(s)@ == old(s)@.push(ch),
;

/// The lower-case hexadecimal digit for `n`, where `n` is below 16.
pub open spec fn hex_digit(n: int) -> char {
    if n < 10 {
        (48 + n) as char
    } else {
        (87 + n) as char
    }
}

/// The hexadecimal digits of `bytes`, two for each byte, high nibble first.
pub open spec fn hex_digits(bytes: Seq<u8>) -> Seq<char>
    decreases bytes.len(),
{
    if bytes.len() == 0 {
        Seq::empty()
    } else {
        hex_digits(bytes.drop_last()).push(hex_digit(bytes.last() as int / 16)).push(
            hex_digit(bytes.last() as int % 16),
        )
    }
}

/// The hexadecimal form of `bytes` with the prefix `0x`.
pub open spec fn hex_string(bytes: Seq<u8>) -> Seq<char> {
    seq!['0', 'x'] + hex_digits(bytes)
}

/// The hexadecimal digit for a nibble.
fn hex_char(n: u8) -> (c: char)
    requires
        n < 16,
    ensures
        c == hex_digit(n as int),
{
    if n < 10 {
        (48 + n) as char
    } else {
        (87 + n) as char
    }
}

/// The hexadecimal form of `bytes` with the prefix `0x`.
fn to_hex_string(bytes: &[u8]) -> (s: String)
    ensures
        s@ == hex_string(bytes@),
{
    let mut s = String::new();
    s.push('0');
    s.push('x');
    let n = bytes.len();
    let mut i: usize = 0;
    assert(bytes@.take(0) =~= Seq::<u8>::empty());
    while i < n
        invariant
            0 <= i <= n,
            n == bytes@.len(),
            s@ == hex_string(bytes@.take(i as int)),
        decreases n - i,
    {
        let byte = bytes[i];
        proof {
            let t = bytes@.take(i + 1);
            assert(t.drop_last() =~= bytes@.take(i as int));
            assert(t.last() == byte);
            assert(hex_string(t) =~= hex_string(bytes@.take(i as int)).push(
                hex_digit(byte as int / 16),
            ).push(hex_digit(byte as int % 16)));
        }
        s.push(hex_char(byte / 16));
        s.push(hex_char(byte % 16));
        i = i + 1;
    }
    assert(bytes@.take(n as int) =~= bytes@);
    s
}

/// A 20-byte chain address.
#[derive(PartialEq, Eq, Hash, Debug)]
pub struct Address(pub [u8; 20]);

impl View for Address {
    type V = Seq<u8>;

    open spec fn view(&self) -> Seq<u8> {
        self.0@
    }
}

/// The address that a byte string stands for: its first twenty bytes,
/// padded with zeros on the left when there are fewer.
pub open spec fn address_of(bytes: Seq<u8>) -> Seq<u8> {
    let len = if bytes.len() < 20 {
        bytes.len() as int
    } else {
        20
    };
    Seq::new(
        20,
        |i: int|
            if i < 20 - len {
                0u8
            } else {
                bytes[i - (20 - len)]
            },
    )
}

impl Clone for Address {
    fn clone(&self) -> (r: Self)
        ensures
            r@ == self@,
    {
        Address(self.0)
    }
}

impl Address {
    /// The address with the bytes `bytes`.
    pub fn new(bytes: [u8; 20]) -> (r: Self)
        ensures
            r@ == bytes@,
    {
        Address(bytes)
    }

    /// The address of twenty zero bytes.
    pub fn zero() -> (r: Self)
        ensures
            r@ == Seq::new(20, |i: int| 0u8),
    {
        let a = Address([0u8;20]);
        assert(a@ =~= Seq::new(20, |i: int| 0u8));
        a
    }

    /// The bytes of the address.
    pub fn as_bytes(&self) -> (r: &[u8])
        ensures
            r@ == self@,
            r@.len() == 20,
    {
        vstd::array::array_as_slice(&self.0)
    }

    /// The address in hexadecimal with the prefix `0x`.
    pub fn to_hex(&self) -> (s: String)
        ensures
            s@ == hex_string(self@),
    {
        to_hex_string(self.as_bytes())
    }

    /// The address that `bytes` stands for: its first twenty bytes, padded
    /// with zeros on the left when there are fewer.
    pub fn from_slice(bytes: &[u8]) -> (r: Self)
        ensures
            r@ == address_of(bytes@),
    {
        let mut arr = [0u8;20];
        let len: usize = if bytes.len() < 20 {
            bytes.len()
        } else {
            20
        };
        let mut i: usize = 0;
        while i < len
            invariant
                0 <= i <= len <= 20,
                len <= bytes@.len(),
                forall|j: int| 0 <= j < 20 - len ==> arr@[j] == 0u8,
                forall|j: int| 20 - len <= j < 20 - len + i ==> arr@[j] == bytes@[j - (20 - len)],
            decreases len - i,
        {
            arr[20 - len + i] = bytes[i];
            i = i + 1;
        }
        assert(arr@ =~= address_of(bytes@));
        Address(arr)
    }
}

/// A byte string of any length.
#[derive(PartialEq, Eq, Hash, Debug)]
pub struct Bytes(pub Vec<u8>);

impl View for Bytes {
    type V = Seq<u8>;

    open spec fn view(&self) -> Seq<u8> {
        self.0@
    }
}

impl Clone for Bytes {
    fn clone(&self) -> (r: Self)
        ensures
            r@ == self@,
    {
        Bytes(self.0.clone())
    }
}

impl Default for Bytes {
    fn default() -> (r: Self)
        ensures
            r@ == Seq::<u8>::empty(),
    {
        Bytes(Vec::new())
    }
}

impl From<Vec<u8>> for Bytes {
    fn from(v: Vec<u8>) -> (r: Self) {
        Bytes(v)
    }
}

impl vstd::std_specs::convert::FromSpecImpl<Vec<u8>> for Bytes {
    open spec fn obeys_from_spec() -> bool {
        true
    }

    open spec fn from_spec(v: Vec<u8>) -> Self {
        Bytes(v)
    }
}

impl From<[u8; 20]> for Address {
    fn from(bytes: [u8; 20]) -> (r: Self) {
        Address(bytes)
    }
}

impl vstd::std_specs::convert::FromSpecImpl<[u8; 20]> for Address {
    open spec fn obeys_from_spec() -> bool {
        true
    }

    open spec fn from_spec(bytes: [u8; 20]) -> Self {
        Address(bytes)
    }
}

impl Bytes {
    /// The empty byte string.
    pub fn new() -> (r: Self)
        ensures
            r@ == Seq::<u8>::empty(),
    {
        Bytes(Vec::new())
    }

    /// The byte string with the bytes of `v`.
    pub fn from_vec(v: Vec<u8>) -> (r: Self)
        ensures
            r@ == v@,
    {
        Bytes(v)
    }

    /// The bytes.
    pub fn as_slice(&self) -> (r: &[u8])
        ensures
            r@ == self@,
    {
        self.0.as_slice()
    }

    /// The bytes in hexadecimal with the prefix `0x`.
    pub fn to_hex(&self) -> (s: String)
        ensures
            s@ == hex_string(self@),
    {
        to_hex_string(self.0.as_slice())
    }

    /// The number of bytes.
    pub fn len(&self) -> (n: usize)
        ensures
            n == self@.len(),
    {
        self.0.len()
    }

    /// Whether there are no bytes.
    pub fn is_empty(&self) -> (b: bool)
        ensures
            b == (self@.len() == 0),
    {
        self.0.len() == 0
    }
}


/// The four bytes of `v`, least significant first.
pub open spec fn le_bytes_u32(v: u32) -> Seq<u8> {
    seq![
        (v % 256) as u8,
        ((v / 256) % 256) as u8,
        ((v / 65536) % 256) as u8,
        (v / 16777216) as u8,
    ]
}

/// The eight bytes of `v`, least significant first.
pub open spec fn le_bytes_u64(v: u64) -> Seq<u8> {
    le_bytes_u32((v % 4294967296) as u32) + le_bytes_u32((v / 4294967296) as u32)
}

/// Appends the four bytes of `v`, least significant first.
fn push_le_u32(out: &mut Vec<u8>, v: u32)
    ensures
        final(out)@ == old(out)@ + le_bytes_u32(v),
{
    out.push((v % 256) as u8);
    out.push(((v / 256) % 256) as u8);
    out.push(((v / 65536) % 256) as u8);
    out.push((v / 16777216) as u8);
    assert(out@ =~= old(out)@ + le_bytes_u32(v));
}

/// The handle of an arbitrary-precision integer that the host owns.
#[derive(Debug)]
pub struct BigInt {
    ptr: AscPtr<AscBytes>,
}

impl View for BigInt {
    type V = u32;

    closed spec fn view(&self) -> u32 {
        self.ptr@
    }
}

impl Clone for BigInt {
    fn clone(&self) -> (r: Self)
        ensures
            r@ == self@,
    {
        BigInt { ptr: self.ptr }
    }
}

impl BigInt {
    /// The number behind the pointer `ptr`.
    pub fn from_ptr(ptr: AscPtr<AscBytes>) -> (r: Self)
        ensures
            r@ == ptr@,
    {
        BigInt { ptr }
    }

    /// The number a host function replied with.
    pub fn from_reply(reply: i32) -> (r: Self)
        ensures
            r@ == as_unsigned32(reply),
    {
        BigInt { ptr: AscPtr::new(to_unsigned32(reply)) }
    }

    /// The pointer to the number.
    pub fn as_ptr(&self) -> (p: AscPtr<AscBytes>)
        ensures
            p@ == self@,
    {
        self.ptr
    }

    /// Writes the number zero into fresh heap.
    pub fn zero(mem: &mut Memory) -> (r: Self)
        requires
            old(mem).wf(),
            old(mem).cursor() + 24 <= old(mem).page_limit() * 65536,
        ensures
            r@ == old(mem).cursor() + 20,
            extends(old(mem), final(mem), 24),
            is_bytes(final(mem)@, r@ as int, le_bytes_u32(0)),
    {
        Self::from_i32(mem, 0)
    }

    /// Writes the number one into fresh heap.
    pub fn one(mem: &mut Memory) -> (r: Self)
        requires
            old(mem).wf(),
            old(mem).cursor() + 24 <= old(mem).page_limit() * 65536,
        ensures
            r@ == old(mem).cursor() + 20,
            extends(old(mem), final(mem), 24),
            is_bytes(final(mem)@, r@ as int, le_bytes_u32(1)),
    {
        Self::from_i32(mem, 1)
    }

    /// Writes `value` into fresh heap as a number of four bytes, two's
    /// complement, least significant byte first.
    pub fn from_i32(mem: &mut Memory, value: i32) -> (r: Self)
        requires
            old(mem).wf(),
            old(mem).cursor() + 24 <= old(mem).page_limit() * 65536,
        ensures
            r@ == old(mem).cursor() + 20,
            extends(old(mem), final(mem), 24),
            is_bytes(final(mem)@, r@ as int, le_bytes_u32(as_unsigned32(value))),
    {
        let mut bytes: Vec<u8> = Vec::new();
        push_le_u32(&mut bytes, to_unsigned32(value));
        assert(bytes@ =~= le_bytes_u32(as_unsigned32(value)));
        let ptr = bytes_to_asc(mem, bytes.as_slice());
        BigInt { ptr }
    }

    /// Writes `value` into fresh heap as a number of eight bytes, least
    /// significant byte first.
    pub fn from_u64(mem: &mut Memory, value: u64) -> (r: Self)
        requires
            old(mem).wf(),
            old(mem).cursor() + 32 <= old(mem).page_limit() * 65536,
        ensures
            r@ == old(mem).cursor() + 20,
            extends(old(mem), final(mem), 32),
            is_bytes(final(mem)@, r@ as int, le_bytes_u64(value)),
    {
        let mut bytes: Vec<u8> = Vec::new();
        push_le_u32(&mut bytes, (value % 4294967296) as u32);
        push_le_u32(&mut bytes, (value / 4294967296) as u32);
        assert(bytes@ =~= le_bytes_u64(value));
        let ptr = bytes_to_asc(mem, bytes.as_slice());
        BigInt { ptr }
    }

    /// Asks the host for the decimal form. The reply is a string.
    pub fn to_string(&self) -> (request: HostCall)
        ensures
            request.is(Import::BigIntToString, seq![as_signed32(self@)]),
    {
        big_int_to_string(self.ptr.as_i32())
    }

    /// Asks the host for the sum. The reply is a number.
    pub fn plus(&self, other: &BigInt) -> (request: HostCall)
        ensures
            request.is(Import::BigIntPlus, seq![as_signed32(self@), as_signed32(other@)]),
    {
        big_int_plus(self.ptr.as_i32(), other.ptr.as_i32())
    }

    /// Asks the host for the difference. The reply is a number.
    pub fn minus(&self, other: &BigInt) -> (request: HostCall)
        ensures
            request.is(Import::BigIntMinus, seq![as_signed32(self@), as_signed32(other@)]),
    {
        big_int_minus(self.ptr.as_i32(), other.ptr.as_i32())
    }

    /// Asks the host for the product. The reply is a number.
    pub fn times(&self, other: &BigInt) -> (request: HostCall)
        ensures
            request.is(Import::BigIntTimes, seq![as_signed32(self@), as_signed32(other@)]),
    {
        big_int_times(self.ptr.as_i32(), other.ptr.as_i32())
    }

    /// Asks the host for the integer quotient. The reply is a number.
    pub fn divided_by(&self, other: &BigInt) -> (request: HostCall)
        ensures
            request.is(Import::BigIntDividedBy, seq![as_signed32(self@), as_signed32(other@)]),
    {
        big_int_divided_by(self.ptr.as_i32(), other.ptr.as_i32())
    }

    /// Asks the host for the remainder. The reply is a number.
    pub fn modulo(&self, other: &BigInt) -> (request: HostCall)
        ensures
            request.is(Import::BigIntMod, seq![as_signed32(self@), as_signed32(other@)]),
    {
        big_int_mod(self.ptr.as_i32(), other.ptr.as_i32())
    }

    /// Asks the host for the power; the exponent is passed inline. The
    /// reply is a number.
    pub fn pow(&self, exp: u8) -> (request: HostCall)
        ensures
            request.is(Import::BigIntPow, seq![as_signed32(self@), exp as i32]),
    {
        big_int_pow(self.ptr.as_i32(), exp as i32)
    }

    /// Asks the host for the bitwise or. The reply is a number.
    pub fn bit_or(&self, other: &BigInt) -> (request: HostCall)
        ensures
            request.is(Import::BigIntBitOr, seq![as_signed32(self@), as_signed32(other@)]),
    {
        big_int_bit_or(self.ptr.as_i32(), other.ptr.as_i32())
    }

    /// Asks the host for the bitwise and. The reply is a number.
    pub fn bit_and(&self, other: &BigInt) -> (request: HostCall)
        ensures
            request.is(Import::BigIntBitAnd, seq![as_signed32(self@), as_signed32(other@)]),
    {
        big_int_bit_and(self.ptr.as_i32(), other.ptr.as_i32())
    }

    /// Asks the host to shift left; the count is passed inline. The reply is
    /// a number.
    pub fn left_shift(&self, bits: u8) -> (request: HostCall)
        ensures
            request.is(Import::BigIntLeftShift, seq![as_signed32(self@), bits as i32]),
    {
        big_int_left_shift(self.ptr.as_i32(), bits as i32)
    }

    /// Asks the host to shift right; the count is passed inline. The reply
    /// is a number.
    pub fn right_shift(&self, bits: u8) -> (request: HostCall)
        ensures
            request.is(Import::BigIntRightShift, seq![as_signed32(self@), bits as i32]),
    {
        big_int_right_shift(self.ptr.as_i32(), bits as i32)
    }

    /// Asks the host for the hexadecimal form. The reply is a string.
    pub fn to_hex(&self) -> (request: HostCall)
        ensures
            request.is(Import::BigIntToHex, seq![as_signed32(self@)]),
    {
        big_int_to_hex(self.ptr.as_i32())
    }

    /// Whether the number is zero, told from the decimal form that the host
    /// replied with to `to_string`.
    pub fn is_zero(&self, mem: &Memory, decimal_reply: i32) -> (b: bool)
        requires
            mem.wf(),
            string_ok(mem@, mem@.len() as int, as_unsigned32(decimal_reply) as int),
        ensures
            b == (string_dec(mem@, as_unsigned32(decimal_reply) as int) == seq!['0']),
    {
        let s = asc_to_string(mem, AscPtr::new(to_unsigned32(decimal_reply)));
        let zero = "0".to_owned();
        proof {
            reveal_strlit("0");
            assert("0"@ =~= seq!['0']);
        }
        s == zero
    }
}

/// The handle of an arbitrary-precision decimal number that the host owns.
#[derive(Debug)]
pub struct BigDecimal {
    ptr: AscPtr<AscBytes>,
}

impl View for BigDecimal {
    type V = u32;

    closed spec fn view(&self) -> u32 {
        self.ptr@
    }
}

impl Clone for BigDecimal {
    fn clone(&self) -> (r: Self)
        ensures
            r@ == self@,
    {
        BigDecimal { ptr: self.ptr }
    }
}

impl BigDecimal {
    /// The number behind the pointer `ptr`.
    pub fn from_ptr(ptr: AscPtr<AscBytes>) -> (r: Self)
        ensures
            r@ == ptr@,
    {
        BigDecimal { ptr }
    }

    /// The number a host function replied with.
    pub fn from_reply(reply: i32) -> (r: Self)
        ensures
            r@ == as_unsigned32(reply),
    {
        BigDecimal { ptr: AscPtr::new(to_unsigned32(reply)) }
    }

    /// The pointer to the number.
    pub fn as_ptr(&self) -> (p: AscPtr<AscBytes>)
        ensures
            p@ == self@,
    {
        self.ptr
    }

    /// Writes the string `0` and asks the host to parse it. The reply is a
    /// number.
    pub fn zero(mem: &mut Memory) -> (request: HostCall)
        requires
            old(mem).wf(),
            old(mem).cursor() + 24 <= old(mem).page_limit() * 65536,
        ensures
            extends(old(mem), final(mem), 24),
            is_string(final(mem)@, old(mem).cursor() + 20, seq!['0']),
            request.is(
                Import::BigDecimalFromString,
                seq![as_signed32((old(mem).cursor() + 20) as u32)],
            ),
    {
        proof {
            reveal_strlit("0");
            assert("0"@ =~= seq!['0']);
            lemma_one_char_footprint('0');
            mem.lemma_bounds();
        }
        Self::from_string(mem, "0")
    }

    /// Writes the string `1` and asks the host to parse it. The reply is a
    /// number.
    pub fn one(mem: &mut Memory) -> (request: HostCall)
        requires
            old(mem).wf(),
            old(mem).cursor() + 24 <= old(mem).page_limit() * 65536,
        ensures
            extends(old(mem), final(mem), 24),
            is_string(final(mem)@, old(mem).cursor() + 20, seq!['1']),
            request.is(
                Import::BigDecimalFromString,
                seq![as_signed32((old(mem).cursor() + 20) as u32)],
            ),
    {
        proof {
            reveal_strlit("1");
            assert("1"@ =~= seq!['1']);
            lemma_one_char_footprint('1');
            mem.lemma_bounds();
        }
        Self::from_string(mem, "1")
    }

    /// Writes `s` into fresh heap and asks the host to parse it. The reply
    /// is a number.
    pub fn from_string(mem: &mut Memory, s: &str) -> (request: HostCall)
        requires
            old(mem).wf(),
            old(mem).cursor() + string_footprint(s@) <= old(mem).page_limit() * 65536,
        ensures
            extends(old(mem), final(mem), string_footprint(s@)),
            is_string(final(mem)@, old(mem).cursor() + 20, s@),
            request.is(
                Import::BigDecimalFromString,
                seq![as_signed32((old(mem).cursor() + 20) as u32)],
            ),
    {
        let str_ptr = str_to_asc(mem, s);
        big_decimal_from_string(str_ptr.as_i32())
    }

    /// Asks the host for the decimal form. The reply is a string.
    pub fn to_string(&self) -> (request: HostCall)
        ensures
            request.is(Import::BigDecimalToString, seq![as_signed32(self@)]),
    {
        big_decimal_to_string(self.ptr.as_i32())
    }

    /// Asks the host for the sum. The reply is a number.
    pub fn plus(&self, other: &BigDecimal) -> (request: HostCall)
        ensures
            request.is(Import::BigDecimalPlus, seq![as_signed32(self@), as_signed32(other@)]),
    {
        big_decimal_plus(self.ptr.as_i32(), other.ptr.as_i32())
    }

    /// Asks the host for the difference. The reply is a number.
    pub fn minus(&self, other: &BigDecimal) -> (request: HostCall)
        ensures
            request.is(Import::BigDecimalMinus, seq![as_signed32(self@), as_signed32(other@)]),
    {
        big_decimal_minus(self.ptr.as_i32(), other.ptr.as_i32())
    }

    /// Asks the host for the product. The reply is a number.
    pub fn times(&self, other: &BigDecimal) -> (request: HostCall)
        ensures
            request.is(Import::BigDecimalTimes, seq![as_signed32(self@), as_signed32(other@)]),
    {
        big_decimal_times(self.ptr.as_i32(), other.ptr.as_i32())
    }

    /// Asks the host for the quotient. The reply is a number.
    pub fn divided_by(&self, other: &BigDecimal) -> (request: HostCall)
        ensures
            request.is(Import::BigDecimalDividedBy, seq![as_signed32(self@), as_signed32(other@)]),
    {
        big_decimal_divided_by(self.ptr.as_i32(), other.ptr.as_i32())
    }

    /// Asks the host whether the number equals `zero`, a number that stands
    /// for zero. The reply is non-zero when it does (see `equals_reply`).
    pub fn is_zero(&self, zero: &BigDecimal) -> (request: HostCall)
        ensures
            request.is(Import::BigDecimalEquals, seq![as_signed32(self@), as_signed32(zero@)]),
    {
        big_decimal_equals(self.ptr.as_i32(), zero.ptr.as_i32())
    }

    /// What the host's reply to a comparison means.
    pub fn equals_reply(reply: i32) -> (b: bool)
        ensures
            b == (reply != 0),
    {
        reply != 0
    }

    /// Asks the host for the decimal form of `value`, the first step of
    /// turning it into a decimal number. The reply goes to
    /// `from_big_int_reply`.
    pub fn from_big_int(value: &BigInt) -> (request: HostCall)
        ensures
            request.is(Import::BigIntToString, seq![as_signed32(value@)]),
    {
        value.to_string()
    }

    /// The second step of turning a big integer into a decimal number: reads
    /// the decimal form that the host replied with, writes it into fresh heap
    /// and asks the host to parse it. The reply is a number.
    pub fn from_big_int_reply(mem: &mut Memory, reply: i32) -> (request: HostCall)
        requires
            old(mem).wf(),
            string_ok(old(mem)@, old(mem)@.len() as int, as_unsigned32(reply) as int),
            old(mem).cursor() + string_footprint(
                string_dec(old(mem)@, as_unsigned32(reply) as int),
            ) <= old(mem).page_limit() * 65536,
        ensures
            extends(
                old(mem),
                final(mem),
                string_footprint(string_dec(old(mem)@, as_unsigned32(reply) as int)),
            ),
            is_string(
                final(mem)@,
                old(mem).cursor() + 20,
                string_dec(old(mem)@, as_unsigned32(reply) as int),
            ),
            request.is(
                Import::BigDecimalFromString,
                seq![as_signed32((old(mem).cursor() + 20) as u32)],
            ),
    {
        let s = asc_to_string(mem, AscPtr::new(to_unsigned32(reply)));
        Self::from_string(mem, s.as_str())
    }
}

/// A string of one character below U+10000 takes 24 bytes of heap.
proof fn lemma_one_char_footprint(c: char)
    requires
        (c as u32) < 0x10000,
    ensures
        string_footprint(seq![c]) == 24,
{
    let s = seq![c];
    assert(s.drop_first() =~= Seq::<char>::empty());
    assert(crate::asc::utf16_encode(s.drop_first()) =~= Seq::<u16>::empty());
    assert(crate::asc::utf16_encode(s) =~= crate::asc::utf16_char(c));
}

} // verus!
