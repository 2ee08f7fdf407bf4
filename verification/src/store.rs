//! The store: entities on the wire.
//!
//! An entity travels as a typed map from strings to store values:
//!
//! * the typed map is an object with one field, the pointer to an array;
//! * the elements of that array point to entries;
//! * an entry holds a pointer to the key, a string, and a pointer to the
//!   value;
//! * a value is a tagged variant.
//!
//! Everything is written bottom-up: a pointer field always refers to an
//! object that was completed before.

use crate::allocator::{
    ensure_heap_initialised, extends, lemma_extends, lemma_extends_trans, managed, spend,
    spend_object, ARRAY_PTR, ARRAY_STORE_VALUE, STORE_VALUE, TYPED_MAP, TYPED_MAP_ENTRY,
};
use crate::asc::{
    asc_to_bytes, asc_to_string, bytes_dec, bytes_footprint, bytes_ok, bytes_readable, bytes_to_asc,
    is_bytes, is_string, lemma_bytes_frame, lemma_bytes_round_trip, lemma_string_frame,
    lemma_string_round_trip, spend_string, str_to_asc, string_dec, string_footprint, string_ok,
    string_readable, utf16_encode, AscArray, AscEntity, AscPtr, AscStoreValue, AscString,
    AscTypedMapEntry, FromAscPtr, ToAscPtr,
};
use crate::host::{store_get, store_remove, store_set, HostCall, Import};
use crate::memory::{
    as_signed32, as_unsigned32, same_below, to_signed32, to_unsigned32, u32_at, Memory,
};
use crate::shapes::{
    array_buffer, array_elems, array_ok, array_readable, array_span, as_signed64, as_unsigned64,
    enum_kind, enum_payload, is_array, is_enum, lemma_array_frame, lemma_array_round_trip,
    lemma_enum_frame, low32, payload_ptr, read_array, read_entry_header, read_enum_header,
    read_map_header, spend_array, to_signed64, to_unsigned64, write_array, write_enum, write_object,
};
use crate::types::{BigDecimal, BigInt, Bytes};
use crate::value::{
    ascending_keys, fields_set, key_less, lemma_array_view, lemma_fields_set,
    lemma_fields_set_last, views_of, EntityData, Fields,
    Value, ValueView,
};
use vstd::prelude::*;

verus! {

/// The payload that stands for the 32-bit integer `i`: sign-extended to 64
/// bits.
pub open spec fn int_payload(i: i32) -> u64 {
    as_unsigned64(i as i64)
}

/// What a store value must satisfy to be read: null, or a tagged variant
/// inside the first `hi` bytes of memory whose payload, where it is a
/// pointer that is followed, refers to a readable object that lies before
/// the variant.
pub open spec fn value_ok(m: Seq<u8>, hi: int, p: int) -> bool
    decreases p,
{
    p == 0 || {
        &&& 20 <= p
        &&& p + 16 <= hi <= m.len()
        &&& (enum_kind(m, p) == 0 ==> string_ok(m, p - 20, low32(enum_payload(m, p)) as int))
        &&& (enum_kind(m, p) == 6 ==> bytes_ok(m, p - 20, low32(enum_payload(m, p)) as int))
        &&& (enum_kind(m, p) == 4 ==> low32(enum_payload(m, p)) < p && value_array_ok(
            m,
            p - 20,
            low32(enum_payload(m, p)) as int,
        ))
    }
}

/// What an array of store values must satisfy to be read: a readable array
/// whose elements are readable values that lie before the array object.
pub open spec fn value_array_ok(m: Seq<u8>, hi: int, a: int) -> bool
    decreases a,
{
    &&& 0 <= a
    &&& array_ok(m, hi, a)
    &&& forall|i: int|
        0 <= i < array_elems(m, a).len() ==> (#[trigger] array_elems(m, a)[i]) < a && value_ok(
            m,
            a - 20,
            array_elems(m, a)[i] as int,
        )
}

/// The store value that the memory holds at `p`. The null pointer and any
/// unknown discriminant read as the null value.
pub open spec fn value_dec(m: Seq<u8>, p: int) -> ValueView
    decreases p,
{
    if p <= 0 {
        ValueView::Null
    } else {
        let kind = enum_kind(m, p);
        let payload = enum_payload(m, p);
        let q = low32(payload);
        if kind == 0 {
            ValueView::String(string_dec(m, q as int))
        } else if kind == 1 {
            ValueView::Int(as_signed32(q))
        } else if kind == 2 {
            ValueView::BigDecimal(q)
        } else if kind == 3 {
            ValueView::Bool(payload != 0)
        } else if kind == 4 {
            ValueView::Array(
                if q < p {
                    value_array_dec(m, q as int)
                } else {
                    Seq::empty()
                },
            )
        } else if kind == 6 {
            ValueView::Bytes(bytes_dec(m, q as int))
        } else if kind == 7 {
            ValueView::BigInt(q)
        } else if kind == 8 {
            ValueView::Int8(as_signed64(payload))
        } else {
            ValueView::Null
        }
    }
}

/// The store values that the array at `a` holds.
pub open spec fn value_array_dec(m: Seq<u8>, a: int) -> Seq<ValueView>
    decreases a,
{
    Seq::new(
        array_elems(m, a).len(),
        |i: int|
            if 0 <= i < array_elems(m, a).len() && 0 <= array_elems(m, a)[i] < a {
                value_dec(m, array_elems(m, a)[i] as int)
            } else {
                ValueView::Null
            },
    )
}

/// The memory holds at `p` the store value `v`: a tagged variant of the
/// store-value class with the kind of `v`, and as payload the inlined
/// primitive, the handle of the number, or the pointer to the string, the
/// bytes or the array, each written before the variant.
pub open spec fn is_value(m: Seq<u8>, p: int, v: ValueView) -> bool
    decreases v,
{
    let payload = enum_payload(m, p);
    match v {
        ValueView::String(s) => {
            &&& is_enum(m, p, STORE_VALUE, 0, payload)
            &&& payload <= u32::MAX
            &&& is_string(m, payload as int, s)
            &&& payload + 2 * utf16_encode(s).len() <= p - 20
        },
        ValueView::Int(i) => is_enum(m, p, STORE_VALUE, 1, int_payload(i)),
        ValueView::Int8(i) => is_enum(m, p, STORE_VALUE, 8, as_unsigned64(i)),
        ValueView::BigInt(h) => is_enum(m, p, STORE_VALUE, 7, h as u64),
        ValueView::BigDecimal(h) => is_enum(m, p, STORE_VALUE, 2, h as u64),
        ValueView::Bool(b) => is_enum(
            m,
            p,
            STORE_VALUE,
            3,
            if b {
                1u64
            } else {
                0u64
            },
        ),
        ValueView::Bytes(b) => {
            &&& is_enum(m, p, STORE_VALUE, 6, payload)
            &&& payload <= u32::MAX
            &&& is_bytes(m, payload as int, b)
            &&& payload + b.len() <= p - 20
        },
        ValueView::Array(a) => {
            &&& is_enum(m, p, STORE_VALUE, 4, payload)
            &&& payload <= u32::MAX
            &&& is_value_array(m, payload as int, a)
            &&& payload + 16 <= p - 20
        },
        ValueView::Null => is_enum(m, p, STORE_VALUE, 5, 0),
    }
}

/// The memory holds at `a` an array of the store values `vs`: an array of
/// the store-value-array class whose elements point to the values, each
/// written before the buffer of the array.
pub open spec fn is_value_array(m: Seq<u8>, a: int, vs: Seq<ValueView>) -> bool
    decreases vs,
{
    &&& is_array(m, a, ARRAY_STORE_VALUE, array_elems(m, a))
    &&& array_elems(m, a).len() == vs.len()
    &&& forall|i: int|
        0 <= i < vs.len() ==> is_value(m, (#[trigger] array_elems(m, a)[i]) as int, vs[i])
            && array_elems(m, a)[i] + 16 <= array_buffer(m, a) - 20
}

/// The heap bytes that the store value `v` takes.
pub open spec fn value_footprint(v: ValueView) -> int
    decreases v, 0nat,
{
    match v {
        ValueView::String(s) => string_footprint(s) + 40,
        ValueView::Bytes(b) => bytes_footprint(b.len() as int) + 40,
        ValueView::Array(a) => values_footprint(a, a.len()) + array_span(a.len() as int) + 40,
        _ => 40,
    }
}

/// The heap bytes that the first `n` values of `vs` take.
pub open spec fn values_footprint(vs: Seq<ValueView>, n: nat) -> int
    decreases vs, n,
{
    if n == 0 || n > vs.len() {
        0
    } else {
        values_footprint(vs, (n - 1) as nat) + value_footprint(vs[n - 1])
    }
}

/// Footprints are positive and add up.
pub proof fn lemma_footprint_positive(v: ValueView)
    ensures
        value_footprint(v) >= 40,
    decreases v, 0nat,
{
    match v {
        ValueView::String(s) => {},
        ValueView::Bytes(b) => {},
        ValueView::Array(a) => {
            lemma_footprints_monotonic(a, 0, a.len());
        },
        _ => {},
    }
}

/// The footprint of a prefix is at most that of a longer prefix.
pub proof fn lemma_footprints_monotonic(vs: Seq<ValueView>, i: nat, j: nat)
    requires
        i <= j <= vs.len(),
    ensures
        0 <= values_footprint(vs, i) <= values_footprint(vs, j),
        i < j ==> values_footprint(vs, i) + value_footprint(vs[i as int]) <= values_footprint(
            vs,
            j,
        ),
    decreases vs, j,
{
    if j == 0 {
    } else if i == j {
        lemma_footprints_monotonic(vs, 0, (j - 1) as nat);
        lemma_footprint_positive(vs[j - 1]);
    } else {
        lemma_footprints_monotonic(vs, i, (j - 1) as nat);
        lemma_footprint_positive(vs[j - 1]);
    }
}

/// A store value is not affected by changes above it.
pub proof fn lemma_value_frame(x: Seq<u8>, y: Seq<u8>, hi: int, p: int, v: ValueView)
    requires
        is_value(x, p, v),
        same_below(x, y, hi),
        p + 16 <= hi,
    ensures
        is_value(y, p, v),
    decreases v,
{
    let payload = enum_payload(x, p);
    let kind = enum_kind(x, p);
    lemma_enum_frame(x, y, hi, p, STORE_VALUE, kind, payload);
    match v {
        ValueView::String(s) => {
            lemma_string_frame(x, y, hi, payload as int, s);
        },
        ValueView::Bytes(b) => {
            lemma_bytes_frame(x, y, hi, payload as int, b);
        },
        ValueView::Array(a) => {
            lemma_value_array_frame(x, y, hi, payload as int, a);
        },
        _ => {},
    }
}

/// An array of store values is not affected by changes above it.
pub proof fn lemma_value_array_frame(x: Seq<u8>, y: Seq<u8>, hi: int, a: int, vs: Seq<ValueView>)
    requires
        is_value_array(x, a, vs),
        same_below(x, y, hi),
        a + 16 <= hi,
    ensures
        is_value_array(y, a, vs),
        array_elems(y, a) == array_elems(x, a),
    decreases vs,
{
    let e = array_elems(x, a);
    lemma_array_frame(x, y, hi, a, ARRAY_STORE_VALUE, e);
    lemma_array_round_trip(x, a, ARRAY_STORE_VALUE, e);
    lemma_array_round_trip(y, a, ARRAY_STORE_VALUE, e);
    assert(array_buffer(y, a) == array_buffer(x, a)) by {
        crate::memory::lemma_same_u32(x, y, a);
    }
    assert forall|i: int| 0 <= i < vs.len() implies is_value(
        y,
        (#[trigger] array_elems(y, a)[i]) as int,
        vs[i],
    ) && array_elems(y, a)[i] + 16 <= array_buffer(y, a) - 20 by {
        assert(is_value(x, e[i] as int, vs[i]));
        lemma_value_frame(x, y, hi, e[i] as int, vs[i]);
    }
}

/// The payloads of the inlined primitives and of the pointers are read back
/// as what was put into them.
pub proof fn lemma_payloads(i: i32, l: i64, h: u32)
    ensures
        as_signed32(low32(int_payload(i))) == i,
        as_signed64(as_unsigned64(l)) == l,
        low32(h as u64) == h,
{
}

/// Value round trip: a store value that was written is read back unchanged.
#[verifier::rlimit(100)]
pub proof fn lemma_value_round_trip(m: Seq<u8>, p: int, v: ValueView)
    requires
        is_value(m, p, v),
    ensures
        p != 0,
        value_ok(m, p + 16, p),
        value_ok(m, m.len() as int, p),
        value_dec(m, p) == v,
    decreases v,
{
    let payload = enum_payload(m, p);
    let kind = enum_kind(m, p);
    assert(20 <= p && p + 16 <= m.len());
    match v {
        ValueView::String(s) => {
            assert(kind == 0);
            lemma_payloads(0, 0, payload as u32);
            lemma_string_round_trip(m, payload as int, s);
        },
        ValueView::Int(i) => {
            assert(kind == 1);
            lemma_payloads(i, 0, 0);
        },
        ValueView::Int8(l) => {
            assert(kind == 8);
            lemma_payloads(0, l, 0);
        },
        ValueView::BigInt(h) => {
            assert(kind == 7);
            lemma_payloads(0, 0, h);
        },
        ValueView::BigDecimal(h) => {
            assert(kind == 2);
            lemma_payloads(0, 0, h);
        },
        ValueView::Bool(b) => {
            assert(kind == 3);
        },
        ValueView::Bytes(b) => {
            assert(kind == 6);
            lemma_payloads(0, 0, payload as u32);
            lemma_bytes_round_trip(m, payload as int, b);
        },
        ValueView::Array(a) => {
            assert(kind == 4);
            lemma_payloads(0, 0, payload as u32);
            lemma_value_array_round_trip(m, payload as int, a);
            lemma_value_array_ok_widen(m, payload + 16, p - 20, payload as int);
        },
        ValueView::Null => {
            assert(kind == 5);
        },
    }
}

/// Array round trip: an array of store values that was written is read back
/// with the same values, in the same number.
pub proof fn lemma_value_array_round_trip(m: Seq<u8>, a: int, vs: Seq<ValueView>)
    requires
        is_value_array(m, a, vs),
    ensures
        a != 0,
        value_array_ok(m, a + 16, a),
        value_array_ok(m, m.len() as int, a),
        value_array_dec(m, a) == vs,
        value_array_dec(m, a).len() == vs.len(),
    decreases vs,
{
    let e = array_elems(m, a);
    lemma_array_round_trip(m, a, ARRAY_STORE_VALUE, e);
    assert forall|i: int| 0 <= i < e.len() implies (#[trigger] e[i]) < a && value_ok(
        m,
        a - 20,
        e[i] as int,
    ) && value_dec(m, e[i] as int) == vs[i] by {
        assert(is_value(m, e[i] as int, vs[i]));
        lemma_value_round_trip(m, e[i] as int, vs[i]);
    }
    assert(value_array_dec(m, a) =~= vs);
}

/// A readable value stays readable when more of the memory is considered.
pub proof fn lemma_value_ok_widen(m: Seq<u8>, hi: int, hi2: int, p: int)
    requires
        value_ok(m, hi, p),
        hi <= hi2 <= m.len(),
    ensures
        value_ok(m, hi2, p),
{
}

/// A readable array of values stays readable when more of the memory is
/// considered.
pub proof fn lemma_value_array_ok_widen(m: Seq<u8>, hi: int, hi2: int, a: int)
    requires
        value_array_ok(m, hi, a),
        hi <= hi2 <= m.len(),
    ensures
        value_array_ok(m, hi2, a),
{
}

/// Null tolerance: the null pointer can always be read, and reads as the
/// empty string, no bytes, no elements, the null value and an entity
/// without fields.
pub proof fn lemma_null_reads(m: Seq<u8>, hi: int)
    ensures
        string_ok(m, hi, 0),
        string_dec(m, 0) == Seq::<char>::empty(),
        bytes_ok(m, hi, 0),
        bytes_dec(m, 0) == Seq::<u8>::empty(),
        array_ok(m, hi, 0),
        array_elems(m, 0) == Seq::<u32>::empty(),
        value_ok(m, hi, 0),
        value_dec(m, 0) == ValueView::Null,
        value_array_ok(m, hi, 0),
        value_array_dec(m, 0) == Seq::<ValueView>::empty(),
        entity_ok(m, hi, 0),
        entity_dec(m, 0) == Seq::<(Seq<char>, ValueView)>::empty(),
{
    assert(crate::asc::utf16_decode_lossy(Seq::<u16>::empty()) =~= Seq::<char>::empty());
    assert(value_array_dec(m, 0) =~= Seq::<ValueView>::empty());
}

/// Writes `value` into fresh heap as a tagged variant and returns the
/// pointer to it. What the value refers to is written first.
#[verifier::rlimit(100)]
pub fn serialize_value(mem: &mut Memory, value: &Value) -> (ptr: AscPtr<AscStoreValue>)
    requires
        old(mem).wf(),
        old(mem).cursor() + value_footprint(value@) <= old(mem).page_limit() * 65536,
    ensures
        extends(old(mem), final(mem), value_footprint(value@)),
        is_value(final(mem)@, ptr@ as int, value@),
        ptr@ + 20 == final(mem).cursor(),
    decreases value,
{
    proof {
        mem.lemma_bounds();
    }
    match value {
        Value::String(s) => {
            let child = str_to_asc(mem, s.as_str());
            let ghost mid = *mem;
            proof {
                lemma_extends(old(mem), &mid, string_footprint(s@));
                mid.lemma_bounds();
            }
            let p = write_enum(mem, STORE_VALUE, 0, child.as_raw() as u64);
            proof {
                lemma_extends(&mid, mem, 40);
                lemma_extends_trans(old(mem), &mid, mem, string_footprint(s@), 40);
                lemma_string_frame(mid@, mem@, mid.cursor(), child@ as int, s@);
            }
            AscPtr::new(p)
        },
        Value::Int(i) => {
            let p = write_enum(mem, STORE_VALUE, 1, to_unsigned64(*i as i64));
            proof {
                lemma_extends(old(mem), mem, 40);
            }
            AscPtr::new(p)
        },
        Value::Int8(i) => {
            let p = write_enum(mem, STORE_VALUE, 8, to_unsigned64(*i));
            proof {
                lemma_extends(old(mem), mem, 40);
            }
            AscPtr::new(p)
        },
        Value::BigInt(b) => {
            let p = write_enum(mem, STORE_VALUE, 7, b.as_ptr().as_raw() as u64);
            proof {
                lemma_extends(old(mem), mem, 40);
            }
            AscPtr::new(p)
        },
        Value::BigDecimal(b) => {
            let p = write_enum(mem, STORE_VALUE, 2, b.as_ptr().as_raw() as u64);
            proof {
                lemma_extends(old(mem), mem, 40);
            }
            AscPtr::new(p)
        },
        Value::Bool(b) => {
            let p = write_enum(
                mem,
                STORE_VALUE,
                3,
                if *b {
                    1
                } else {
                    0
                },
            );
            proof {
                lemma_extends(old(mem), mem, 40);
            }
            AscPtr::new(p)
        },
        Value::Bytes(b) => {
            let child = bytes_to_asc(mem, b.as_slice());
            let ghost mid = *mem;
            proof {
                lemma_extends(old(mem), &mid, bytes_footprint(b@.len() as int));
                mid.lemma_bounds();
            }
            let p = write_enum(mem, STORE_VALUE, 6, child.as_raw() as u64);
            proof {
                lemma_extends(&mid, mem, 40);
                lemma_extends_trans(old(mem), &mid, mem, bytes_footprint(b@.len() as int), 40);
                lemma_bytes_frame(mid@, mem@, mid.cursor(), child@ as int, b@);
            }
            AscPtr::new(p)
        },
        Value::Array(arr) => {
            proof {
                lemma_array_view(*arr);
            }
            let child = serialize_value_array(mem, arr);
            let ghost mid = *mem;
            let ghost span = values_footprint(views_of(arr@), arr@.len()) + array_span(
                arr@.len() as int,
            );
            proof {
                lemma_extends(old(mem), &mid, span);
                mid.lemma_bounds();
            }
            let p = write_enum(mem, STORE_VALUE, 4, child.as_raw() as u64);
            proof {
                lemma_extends(&mid, mem, 40);
                lemma_footprints_monotonic(views_of(arr@), 0, arr@.len());
                lemma_extends_trans(old(mem), &mid, mem, span, 40);
                lemma_value_array_frame(mid@, mem@, mid.cursor(), child@ as int, views_of(arr@));
            }
            AscPtr::new(p)
        },
        Value::Null => {
            let p = write_enum(mem, STORE_VALUE, 5, 0);
            proof {
                lemma_extends(old(mem), mem, 40);
            }
            AscPtr::new(p)
        },
    }
}

/// Writes `values` into fresh heap as an array of store values: the values
/// first, in order, then the buffer with the pointers to them, then the
/// array object. Returns the pointer to the array object.
#[verifier::rlimit(100)]
pub fn serialize_value_array(mem: &mut Memory, values: &Vec<Value>) -> (ptr: AscPtr<
    AscArray<AscStoreValue>,
>)
    requires
        old(mem).wf(),
        old(mem).cursor() + values_footprint(views_of(values@), values@.len()) + array_span(
            values@.len() as int,
        ) <= old(mem).page_limit() * 65536,
    ensures
        extends(
            old(mem),
            final(mem),
            values_footprint(views_of(values@), values@.len()) + array_span(values@.len() as int),
        ),
        is_value_array(final(mem)@, ptr@ as int, views_of(values@)),
        ptr@ + 20 == final(mem).cursor(),
    decreases values,
{
    let ghost vs = views_of(values@);
    let n = values.len();
    let mut ptrs: Vec<u32> = Vec::new();
    let mut i: usize = 0;
    ensure_heap_initialised(mem);
    proof {
        lemma_extends(old(mem), mem, 0);
    }
    while i < n
        invariant
            0 <= i <= n,
            n == values@.len(),
            vs == views_of(values@),
            old(mem).wf(),
            mem.wf(),
            extends(old(mem), mem, values_footprint(vs, i as nat)),
            old(mem).cursor() + values_footprint(vs, n as nat) + array_span(n as int) <= old(
                mem,
            ).page_limit() * 65536,
            ptrs@.len() == i,
            forall|j: int|
                0 <= j < i ==> is_value(mem@, (#[trigger] ptrs@[j]) as int, vs[j]) && ptrs@[j] + 20
                    <= mem.cursor(),
        decreases n - i,
    {
        let ghost before = *mem;
        proof {
            lemma_extends(old(mem), mem, values_footprint(vs, i as nat));
            lemma_footprints_monotonic(vs, i as nat, n as nat);
            mem.lemma_bounds();
            assert(vs[i as int] == values@[i as int]@);
        }
        let p = serialize_value(mem, &values[i]);
        proof {
            lemma_extends(&before, mem, value_footprint(vs[i as int]));
            lemma_footprint_positive(vs[i as int]);
            lemma_footprints_monotonic(vs, 0, i as nat);
            lemma_extends_trans(
                old(mem),
                &before,
                mem,
                values_footprint(vs, i as nat),
                value_footprint(vs[i as int]),
            );
            assert forall|j: int| 0 <= j < i implies is_value(
                mem@,
                (#[trigger] ptrs@[j]) as int,
                vs[j],
            ) && ptrs@[j] + 20 <= mem.cursor() by {
                lemma_value_frame(before@, mem@, before.cursor(), ptrs@[j] as int, vs[j]);
            }
        }
        ptrs.push(p.as_raw());
        i = i + 1;
    }
    let ghost filled = *mem;
    proof {
        lemma_extends(old(mem), mem, values_footprint(vs, n as nat));
        lemma_footprints_monotonic(vs, 0, n as nat);
        mem.lemma_bounds();
    }
    let a = write_array(mem, &ptrs, ARRAY_STORE_VALUE);
    proof {
        lemma_extends(&filled, mem, array_span(n as int));
        lemma_extends_trans(
            old(mem),
            &filled,
            mem,
            values_footprint(vs, n as nat),
            array_span(n as int),
        );
        lemma_array_round_trip(mem@, a as int, ARRAY_STORE_VALUE, ptrs@);
        assert forall|j: int| 0 <= j < vs.len() implies is_value(
            mem@,
            (#[trigger] array_elems(mem@, a as int)[j]) as int,
            vs[j],
        ) && array_elems(mem@, a as int)[j] + 16 <= array_buffer(mem@, a as int) - 20 by {
            assert(is_value(filled@, ptrs@[j] as int, vs[j]));
            lemma_value_frame(filled@, mem@, filled.cursor(), ptrs@[j] as int, vs[j]);
        }
    }
    AscPtr::new(a)
}

/// Reads the store value at `ptr`. The null pointer and any unknown kind
/// read as the null value.
pub fn deserialize_value(mem: &Memory, ptr: AscPtr<AscStoreValue>) -> (v: Value)
    requires
        mem.wf(),
        value_ok(mem@, mem@.len() as int, ptr@ as int),
    ensures
        v@ == value_dec(mem@, ptr@ as int),
    decreases ptr@,
{
    if ptr.is_null() {
        return Value::Null;
    }
    proof {
        mem.lemma_bounds();
    }
    let p = ptr.as_raw();
    let header = read_enum_header(mem, p);
    let payload = header.payload;
    let q = payload_ptr(payload);
    match header.kind {
        0 => Value::String(asc_to_string(mem, AscPtr::new(q))),
        1 => Value::Int(to_signed32(q)),
        2 => Value::BigDecimal(BigDecimal::from_ptr(AscPtr::new(q))),
        3 => Value::Bool(payload != 0),
        4 => {
            let arr = deserialize_value_array(mem, AscPtr::new(q));
            proof {
                lemma_array_view(arr);
            }
            Value::Array(arr)
        },
        5 => Value::Null,
        6 => Value::Bytes(Bytes::from_vec(asc_to_bytes(mem, AscPtr::new(q)))),
        7 => Value::BigInt(BigInt::from_ptr(AscPtr::new(q))),
        8 => Value::Int8(to_signed64(payload)),
        _ => Value::Null,
    }
}

/// Reads the array of store values at `ptr`. The null pointer reads as no
/// values.
pub fn deserialize_value_array(mem: &Memory, ptr: AscPtr<AscArray<AscStoreValue>>) -> (values: Vec<
    Value,
>)
    requires
        mem.wf(),
        value_array_ok(mem@, mem@.len() as int, ptr@ as int),
    ensures
        views_of(values@) == value_array_dec(mem@, ptr@ as int),
    decreases ptr@,
{
    let a = ptr.as_raw();
    let elems = read_array(mem, a);
    let mut values: Vec<Value> = Vec::new();
    let mut i: usize = 0;
    while i < elems.len()
        invariant
            0 <= i <= elems@.len(),
            mem.wf(),
            a == ptr@,
            elems@ == array_elems(mem@, a as int),
            value_array_ok(mem@, mem@.len() as int, a as int),
            values@.len() == i,
            forall|j: int|
                0 <= j < i ==> (#[trigger] values@[j])@ == value_dec(mem@, elems@[j] as int),
        decreases elems@.len() - i,
    {
        let e = elems[i];
        proof {
            assert(e == array_elems(mem@, a as int)[i as int]);
            assert(value_ok(mem@, a - 20, e as int));
            mem.lemma_bounds();
        }
        let v = deserialize_value(mem, AscPtr::new(e));
        values.push(v);
        i = i + 1;
    }
    assert(views_of(values@) =~= value_array_dec(mem@, a as int));
    values
}


/// The memory holds at `q` the entry with the key `key` and the value `v`:
/// an object of the entry class with two fields, the pointer to the key and
/// the pointer to the value, both written before the entry.
pub open spec fn is_entry(m: Seq<u8>, q: int, key: Seq<char>, v: ValueView) -> bool {
    let k = u32_at(m, q) as int;
    let w = u32_at(m, q + 4) as int;
    &&& managed(m, q, TYPED_MAP_ENTRY, 8)
    &&& is_string(m, k, key)
    &&& k + 2 * utf16_encode(key).len() <= q - 20
    &&& is_value(m, w, v)
    &&& w + 16 <= q - 20
}

/// What an entry must satisfy to be read: two fields inside the first `hi`
/// bytes of memory that point to a readable string and a readable value,
/// both before the entry.
pub open spec fn entry_ok(m: Seq<u8>, hi: int, q: int) -> bool {
    &&& 20 <= q
    &&& q + 8 <= hi <= m.len()
    &&& string_ok(m, q - 20, u32_at(m, q) as int)
    &&& value_ok(m, q - 20, u32_at(m, q + 4) as int)
}

/// The key and the value of the entry at `q`.
pub open spec fn entry_dec(m: Seq<u8>, q: int) -> (Seq<char>, ValueView) {
    (string_dec(m, u32_at(m, q) as int), value_dec(m, u32_at(m, q + 4) as int))
}

/// The fields that result from setting, in order, the entries that the first
/// `n` pointers of `elems` refer to. Null pointers are passed over.
pub open spec fn entries_dec(m: Seq<u8>, elems: Seq<u32>, n: nat) -> Fields
    decreases n,
{
    if n == 0 || n > elems.len() {
        Seq::empty()
    } else if elems[n - 1] == 0 {
        entries_dec(m, elems, (n - 1) as nat)
    } else {
        fields_set(
            entries_dec(m, elems, (n - 1) as nat),
            entry_dec(m, elems[n - 1] as int).0,
            entry_dec(m, elems[n - 1] as int).1,
        )
    }
}

/// What an entity must satisfy to be read: null, or a typed map inside the
/// first `hi` bytes of memory whose array is readable and lies before the
/// map, and whose entries, where not null, are readable and lie before the
/// array.
pub open spec fn entity_ok(m: Seq<u8>, hi: int, p: int) -> bool {
    p == 0 || {
        &&& 20 <= p
        &&& p + 4 <= hi <= m.len()
        &&& array_ok(m, p - 20, u32_at(m, p) as int)
        &&& forall|i: int|
            0 <= i < array_elems(m, u32_at(m, p) as int).len() ==> (#[trigger] array_elems(
                m,
                u32_at(m, p) as int,
            )[i]) == 0 || entry_ok(
                m,
                u32_at(m, p) - 20,
                array_elems(m, u32_at(m, p) as int)[i] as int,
            )
    }
}

/// The fields of the entity at `p`, in the order of their names; none for
/// the null pointer. Where a key occurs in several entries, the field has
/// the value of the last.
pub open spec fn entity_dec(m: Seq<u8>, p: int) -> Fields {
    if p == 0 {
        Seq::empty()
    } else {
        entries_dec(
            m,
            array_elems(m, u32_at(m, p) as int),
            array_elems(m, u32_at(m, p) as int).len(),
        )
    }
}

/// The memory holds at `p` the entity with the fields `e`: a typed map whose
/// single field points to an array of the pointer-array class; the elements
/// of the array point to the entries, one for each field, in order, each
/// written before the buffer of the array.
pub open spec fn is_entity(m: Seq<u8>, p: int, e: Fields) -> bool {
    let a = u32_at(m, p) as int;
    &&& managed(m, p, TYPED_MAP, 4)
    &&& is_array(m, a, ARRAY_PTR, array_elems(m, a))
    &&& a + 16 <= p - 20
    &&& array_elems(m, a).len() == e.len()
    &&& forall|i: int|
        0 <= i < e.len() ==> is_entry(m, (#[trigger] array_elems(m, a)[i]) as int, e[i].0, e[i].1)
            && array_elems(m, a)[i] + 8 <= array_buffer(m, a) - 20
}

/// The heap bytes that an entry with the key `key` and the value `v` takes.
pub open spec fn entry_footprint(key: Seq<char>, v: ValueView) -> int {
    string_footprint(key) + value_footprint(v) + 32
}

/// The heap bytes that the entries of the first `n` fields of `e` take.
pub open spec fn entries_footprint(e: Fields, n: nat) -> int
    decreases n,
{
    if n == 0 || n > e.len() {
        0
    } else {
        entries_footprint(e, (n - 1) as nat) + entry_footprint(e[n - 1].0, e[n - 1].1)
    }
}

/// The heap bytes that the entity with the fields `e` takes.
pub open spec fn entity_footprint(e: Fields) -> int {
    entries_footprint(e, e.len()) + array_span(e.len() as int) + 24
}

/// The footprint of the entries of a prefix is at most that of a longer
/// prefix.
pub proof fn lemma_entries_monotonic(e: Fields, i: nat, j: nat)
    requires
        i <= j <= e.len(),
    ensures
        0 <= entries_footprint(e, i) <= entries_footprint(e, j),
        i < j ==> entries_footprint(e, i) + entry_footprint(e[i as int].0, e[i as int].1)
            <= entries_footprint(e, j),
    decreases j,
{
    if j > 0 {
        lemma_footprint_positive(e[j - 1].1);
        if i == j {
            lemma_entries_monotonic(e, 0, (j - 1) as nat);
        } else {
            lemma_entries_monotonic(e, i, (j - 1) as nat);
        }
    }
}

/// An entry is not affected by changes above it.
pub proof fn lemma_entry_frame(
    x: Seq<u8>,
    y: Seq<u8>,
    hi: int,
    q: int,
    key: Seq<char>,
    v: ValueView,
)
    requires
        is_entry(x, q, key, v),
        same_below(x, y, hi),
        q + 8 <= hi,
    ensures
        is_entry(y, q, key, v),
{
    let k = u32_at(x, q);
    let w = u32_at(x, q + 4);
    crate::asc::lemma_header_frame(x, y, q, TYPED_MAP_ENTRY, 8);
    crate::memory::lemma_same_u32(x, y, q);
    crate::memory::lemma_same_u32(x, y, q + 4);
    lemma_string_frame(x, y, hi, k as int, key);
    lemma_value_frame(x, y, hi, w as int, v);
}

/// Entry round trip: an entry that was written is read back unchanged.
pub proof fn lemma_entry_round_trip(m: Seq<u8>, q: int, key: Seq<char>, v: ValueView)
    requires
        is_entry(m, q, key, v),
    ensures
        q != 0,
        entry_ok(m, q + 8, q),
        entry_dec(m, q) == (key, v),
{
    let k = u32_at(m, q) as int;
    let w = u32_at(m, q + 4) as int;
    lemma_string_round_trip(m, k, key);
    lemma_value_round_trip(m, w, v);
    lemma_value_ok_widen(m, w + 16, q - 20, w);
}

/// Entries with ascending keys that were written are read back as the same
/// fields.
proof fn lemma_entries_round_trip(m: Seq<u8>, elems: Seq<u32>, e: Fields, n: nat)
    requires
        elems.len() == e.len(),
        n <= e.len(),
        ascending_keys(e),
        forall|i: int|
            0 <= i < e.len() ==> is_entry(m, (#[trigger] elems[i]) as int, e[i].0, e[i].1),
    ensures
        entries_dec(m, elems, n) == e.take(n as int),
    decreases n,
{
    if n == 0 {
        assert(e.take(0) =~= Seq::empty());
    } else {
        lemma_entries_round_trip(m, elems, e, (n - 1) as nat);
        let prev = e.take(n - 1);
        let q = elems[n - 1];
        assert(is_entry(m, q as int, e[n - 1].0, e[n - 1].1));
        lemma_entry_round_trip(m, q as int, e[n - 1].0, e[n - 1].1);
        assert(q != 0);
        assert(ascending_keys(prev)) by {
            assert forall|a: int, b: int| 0 <= a < b < prev.len() implies key_less(
                (#[trigger] prev[a]).0,
                (#[trigger] prev[b]).0,
            ) by {
                assert(key_less(e[a].0, e[b].0));
            }
        }
        assert forall|k: int| 0 <= k < prev.len() implies key_less(
            (#[trigger] prev[k]).0,
            e[n - 1].0,
        ) by {
            assert(key_less(e[k].0, e[n - 1].0));
        }
        lemma_fields_set_last(prev, e[n - 1].0, e[n - 1].1);
        assert(prev.push(e[n - 1]) =~= e.take(n as int));
    }
}

/// Entity round trip: an entity that was written is read back with the same
/// fields in the same order.
#[verifier::rlimit(100)]
pub proof fn lemma_entity_round_trip(m: Seq<u8>, p: int, e: Fields)
    requires
        is_entity(m, p, e),
        ascending_keys(e),
    ensures
        p != 0,
        entity_ok(m, p + 4, p),
        entity_ok(m, m.len() as int, p),
        entity_dec(m, p) == e,
{
    let a = u32_at(m, p) as int;
    let elems = array_elems(m, a);
    lemma_array_round_trip(m, a, ARRAY_PTR, elems);
    assert forall|i: int| 0 <= i < elems.len() implies (#[trigger] elems[i]) == 0 || entry_ok(
        m,
        a - 20,
        elems[i] as int,
    ) by {
        assert(is_entry(m, elems[i] as int, e[i].0, e[i].1));
        lemma_entry_round_trip(m, elems[i] as int, e[i].0, e[i].1);
    }
    lemma_entries_round_trip(m, elems, e, e.len());
    assert(e.take(e.len() as int) =~= e);
}

/// Writes an entry with the key `key` and the value `value` into fresh heap:
/// the key, the value, then the entry. Returns the pointer to the entry.
#[verifier::rlimit(100)]
pub fn serialize_entry(mem: &mut Memory, key: &String, value: &Value) -> (ptr: AscPtr<
    AscTypedMapEntry<AscString, AscStoreValue>,
>)
    requires
        old(mem).wf(),
        old(mem).cursor() + entry_footprint(key@, value@) <= old(mem).page_limit() * 65536,
    ensures
        extends(old(mem), final(mem), entry_footprint(key@, value@)),
        is_entry(final(mem)@, ptr@ as int, key@, value@),
        ptr@ + 12 == final(mem).cursor(),
{
    proof {
        mem.lemma_bounds();
        lemma_footprint_positive(value@);
    }
    let key_ptr = str_to_asc(mem, key.as_str());
    let ghost m1 = *mem;
    proof {
        lemma_extends(old(mem), &m1, string_footprint(key@));
        m1.lemma_bounds();
    }
    let value_ptr = serialize_value(mem, value);
    let ghost m2 = *mem;
    proof {
        lemma_extends(&m1, &m2, value_footprint(value@));
        lemma_extends_trans(old(mem), &m1, &m2, string_footprint(key@), value_footprint(value@));
        m2.lemma_bounds();
        lemma_string_frame(m1@, m2@, m1.cursor(), key_ptr@ as int, key@);
    }
    let mut fields: Vec<u32> = Vec::new();
    fields.push(key_ptr.as_raw());
    fields.push(value_ptr.as_raw());
    assert(fields@ =~= seq![key_ptr@, value_ptr@]);
    let q = write_object(mem, TYPED_MAP_ENTRY, &fields);
    proof {
        lemma_extends(&m2, mem, 32);
        lemma_extends_trans(
            old(mem),
            &m2,
            mem,
            string_footprint(key@) + value_footprint(value@),
            32,
        );
        lemma_string_frame(m2@, mem@, m2.cursor(), key_ptr@ as int, key@);
        lemma_value_frame(m2@, mem@, m2.cursor(), value_ptr@ as int, value@);
        assert(u32_at(mem@, q + 4 * 0) == fields@[0]);
        assert(u32_at(mem@, q + 4 * 1) == fields@[1]);
    }
    AscPtr::new(q)
}

/// Writes the entity `data` into fresh heap as a typed map: the entries in
/// the order of the fields, then the array of pointers to them, then the
/// map. Returns the pointer to the map.
#[verifier::rlimit(100)]
pub fn serialize_entity(mem: &mut Memory, data: &EntityData) -> (ptr: AscPtr<AscEntity>)
    requires
        old(mem).wf(),
        old(mem).cursor() + entity_footprint(data@) <= old(mem).page_limit() * 65536,
    ensures
        extends(old(mem), final(mem), entity_footprint(data@)),
        is_entity(final(mem)@, ptr@ as int, data@),
        ptr@ + 4 == final(mem).cursor(),
{
    let ghost e = data@;
    let entries = data.iter();
    let n = entries.len();
    let mut ptrs: Vec<u32> = Vec::new();
    let mut i: usize = 0;
    ensure_heap_initialised(mem);
    proof {
        lemma_extends(old(mem), mem, 0);
    }
    while i < n
        invariant
            0 <= i <= n,
            n == e.len(),
            entries@.len() == n,
            forall|j: int| 0 <= j < n ==> (entries@[j].0@, entries@[j].1@) == e[j],
            old(mem).wf(),
            mem.wf(),
            extends(old(mem), mem, entries_footprint(e, i as nat)),
            old(mem).cursor() + entity_footprint(e) <= old(mem).page_limit() * 65536,
            ptrs@.len() == i,
            forall|j: int|
                0 <= j < i ==> is_entry(mem@, (#[trigger] ptrs@[j]) as int, e[j].0, e[j].1)
                    && ptrs@[j] + 12 <= mem.cursor(),
        decreases n - i,
    {
        let ghost before = *mem;
        proof {
            lemma_extends(old(mem), mem, entries_footprint(e, i as nat));
            lemma_entries_monotonic(e, i as nat, n as nat);
            mem.lemma_bounds();
            assert((entries@[i as int].0@, entries@[i as int].1@) == e[i as int]);
        }
        let q = serialize_entry(mem, &entries[i].0, &entries[i].1);
        proof {
            let span = entry_footprint(e[i as int].0, e[i as int].1);
            lemma_extends(&before, mem, span);
            lemma_entries_monotonic(e, 0, i as nat);
            lemma_footprint_positive(e[i as int].1);
            lemma_extends_trans(old(mem), &before, mem, entries_footprint(e, i as nat), span);
            assert forall|j: int| 0 <= j < i implies is_entry(
                mem@,
                (#[trigger] ptrs@[j]) as int,
                e[j].0,
                e[j].1,
            ) && ptrs@[j] + 12 <= mem.cursor() by {
                lemma_entry_frame(before@, mem@, before.cursor(), ptrs@[j] as int, e[j].0, e[j].1);
            }
        }
        ptrs.push(q.as_raw());
        i = i + 1;
    }
    let ghost m1 = *mem;
    proof {
        lemma_extends(old(mem), mem, entries_footprint(e, n as nat));
        lemma_entries_monotonic(e, 0, n as nat);
        mem.lemma_bounds();
    }
    let a = write_array(mem, &ptrs, ARRAY_PTR);
    let ghost m2 = *mem;
    proof {
        lemma_extends(&m1, &m2, array_span(n as int));
        lemma_extends_trans(
            old(mem),
            &m1,
            &m2,
            entries_footprint(e, n as nat),
            array_span(n as int),
        );
        m2.lemma_bounds();
    }
    let mut fields: Vec<u32> = Vec::new();
    fields.push(a);
    assert(fields@ =~= seq![a]);
    let p = write_object(mem, TYPED_MAP, &fields);
    proof {
        lemma_extends(&m2, mem, 24);
        lemma_extends_trans(
            old(mem),
            &m2,
            mem,
            entries_footprint(e, n as nat) + array_span(n as int),
            24,
        );
        assert(u32_at(mem@, p + 4 * 0) == fields@[0]);
        lemma_array_frame(m2@, mem@, m2.cursor(), a as int, ARRAY_PTR, ptrs@);
        lemma_array_round_trip(mem@, a as int, ARRAY_PTR, ptrs@);
        lemma_array_round_trip(m2@, a as int, ARRAY_PTR, ptrs@);
        assert forall|j: int| 0 <= j < e.len() implies is_entry(
            mem@,
            (#[trigger] array_elems(mem@, a as int)[j]) as int,
            e[j].0,
            e[j].1,
        ) && array_elems(mem@, a as int)[j] + 8 <= array_buffer(mem@, a as int) - 20 by {
            assert(is_entry(m1@, ptrs@[j] as int, e[j].0, e[j].1));
            lemma_entry_frame(m1@, m2@, m1.cursor(), ptrs@[j] as int, e[j].0, e[j].1);
            lemma_entry_frame(m2@, mem@, m2.cursor(), ptrs@[j] as int, e[j].0, e[j].1);
        }
    }
    AscPtr::new(p)
}

/// Reads the entity at `ptr`. The null pointer reads as an entity without
/// fields, and so does a map without an array; null entries are passed over.
#[verifier::rlimit(100)]
pub fn deserialize_entity(mem: &Memory, ptr: AscPtr<AscEntity>) -> (data: EntityData)
    requires
        mem.wf(),
        entity_ok(mem@, mem@.len() as int, ptr@ as int),
    ensures
        data.wf(),
        data@ == entity_dec(mem@, ptr@ as int),
{
    let mut data = EntityData::new();
    if ptr.is_null() {
        return data;
    }
    proof {
        mem.lemma_bounds();
    }
    let p = ptr.as_raw();
    let a = read_map_header(mem, p).entries;
    let elems = read_array(mem, a);
    let mut i: usize = 0;
    while i < elems.len()
        invariant
            0 <= i <= elems@.len(),
            mem.wf(),
            p == ptr@,
            p != 0,
            a == u32_at(mem@, p as int),
            elems@ == array_elems(mem@, a as int),
            entity_ok(mem@, mem@.len() as int, p as int),
            data.wf(),
            data@ == entries_dec(mem@, elems@, i as nat),
        decreases elems@.len() - i,
    {
        let q = elems[i];
        if q != 0 {
            proof {
                assert(q == array_elems(mem@, a as int)[i as int]);
                assert(entry_ok(mem@, a - 20, q as int));
                mem.lemma_bounds();
                lemma_value_ok_widen(
                    mem@,
                    q - 20,
                    mem@.len() as int,
                    u32_at(mem@, q + 4) as int,
                );
            }
            let entry = read_entry_header(mem, q);
            let key = asc_to_string(mem, AscPtr::new(entry.key));
            let value = deserialize_value(mem, AscPtr::new(entry.value));
            data.set(key.as_str(), value);
        }
        i = i + 1;
    }
    data
}

/// The heap bytes that the two strings of a store request take.
pub open spec fn request_footprint(entity_type: Seq<char>, id: Seq<char>) -> int {
    string_footprint(entity_type) + string_footprint(id)
}

/// Writes the type name and the identifier into fresh heap and asks the
/// host for the entity. The reply goes to `get_reply`.
pub fn get(mem: &mut Memory, entity_type: &str, id: &str) -> (request: HostCall)
    requires
        old(mem).wf(),
        old(mem).cursor() + request_footprint(entity_type@, id@) <= old(mem).page_limit() * 65536,
    ensures
        extends(old(mem), final(mem), request_footprint(entity_type@, id@)),
        request.import == Import::StoreGet,
        request.args@.len() == 2,
        is_string(final(mem)@, as_unsigned32(request.args@[0]) as int, entity_type@),
        is_string(final(mem)@, as_unsigned32(request.args@[1]) as int, id@),
{
    let (type_ptr, id_ptr) = write_request(mem, entity_type, id);
    store_get(type_ptr.as_i32(), id_ptr.as_i32())
}

/// What the host's reply to `get` means: no entity for zero, else the entity
/// that the reply points to.
pub fn get_reply(mem: &Memory, reply: i32) -> (r: Option<EntityData>)
    requires
        mem.wf(),
        entity_ok(mem@, mem@.len() as int, as_unsigned32(reply) as int),
    ensures
        r is Some <==> reply != 0,
        r matches Some(data) ==> data.wf() && data@ == entity_dec(
            mem@,
            as_unsigned32(reply) as int,
        ),
{
    if reply == 0 {
        None
    } else {
        Some(deserialize_entity(mem, AscPtr::new(to_unsigned32(reply))))
    }
}

/// Writes the type name, the identifier and the entity into fresh heap and
/// asks the host to store the entity.
#[verifier::rlimit(100)]
pub fn set(mem: &mut Memory, entity_type: &str, id: &str, data: &EntityData) -> (request: HostCall)
    requires
        old(mem).wf(),
        old(mem).cursor() + request_footprint(entity_type@, id@) + entity_footprint(data@) <= old(
            mem,
        ).page_limit() * 65536,
    ensures
        extends(
            old(mem),
            final(mem),
            request_footprint(entity_type@, id@) + entity_footprint(data@),
        ),
        request.import == Import::StoreSet,
        request.args@.len() == 3,
        is_string(final(mem)@, as_unsigned32(request.args@[0]) as int, entity_type@),
        is_string(final(mem)@, as_unsigned32(request.args@[1]) as int, id@),
        is_entity(final(mem)@, as_unsigned32(request.args@[2]) as int, data@),
{
    proof {
        mem.lemma_bounds();
        lemma_entries_monotonic(data@, 0, data@.len());
    }
    let (type_ptr, id_ptr) = write_request(mem, entity_type, id);
    let ghost m1 = *mem;
    proof {
        lemma_extends(old(mem), &m1, request_footprint(entity_type@, id@));
        m1.lemma_bounds();
    }
    let data_ptr = serialize_entity(mem, data);
    proof {
        lemma_extends(&m1, mem, entity_footprint(data@));
        lemma_extends_trans(
            old(mem),
            &m1,
            mem,
            request_footprint(entity_type@, id@),
            entity_footprint(data@),
        );
        lemma_string_frame(m1@, mem@, m1.cursor(), type_ptr@ as int, entity_type@);
        lemma_string_frame(m1@, mem@, m1.cursor(), id_ptr@ as int, id@);
        crate::memory::lemma_signed32_round_trip(0, type_ptr@);
        crate::memory::lemma_signed32_round_trip(0, id_ptr@);
        crate::memory::lemma_signed32_round_trip(0, data_ptr@);
    }
    store_set(type_ptr.as_i32(), id_ptr.as_i32(), data_ptr.as_i32())
}

/// Writes the type name and the identifier into fresh heap and asks the
/// host to remove the entity.
pub fn remove(mem: &mut Memory, entity_type: &str, id: &str) -> (request: HostCall)
    requires
        old(mem).wf(),
        old(mem).cursor() + request_footprint(entity_type@, id@) <= old(mem).page_limit() * 65536,
    ensures
        extends(old(mem), final(mem), request_footprint(entity_type@, id@)),
        request.import == Import::StoreRemove,
        request.args@.len() == 2,
        is_string(final(mem)@, as_unsigned32(request.args@[0]) as int, entity_type@),
        is_string(final(mem)@, as_unsigned32(request.args@[1]) as int, id@),
{
    let (type_ptr, id_ptr) = write_request(mem, entity_type, id);
    store_remove(type_ptr.as_i32(), id_ptr.as_i32())
}

/// Writes the two strings that every store request starts with.
fn write_request(mem: &mut Memory, entity_type: &str, id: &str) -> (r: (
    AscPtr<AscString>,
    AscPtr<AscString>,
))
    requires
        old(mem).wf(),
        old(mem).cursor() + request_footprint(entity_type@, id@) <= old(mem).page_limit() * 65536,
    ensures
        extends(old(mem), final(mem), request_footprint(entity_type@, id@)),
        is_string(final(mem)@, r.0@ as int, entity_type@),
        is_string(final(mem)@, r.1@ as int, id@),
        r.0@ + 2 * utf16_encode(entity_type@).len() <= final(mem).cursor(),
        r.1@ + 2 * utf16_encode(id@).len() <= final(mem).cursor(),
        as_unsigned32(as_signed32(r.0@)) == r.0@,
        as_unsigned32(as_signed32(r.1@)) == r.1@,
{
    proof {
        mem.lemma_bounds();
    }
    let type_ptr = str_to_asc(mem, entity_type);
    let ghost m1 = *mem;
    proof {
        lemma_extends(old(mem), &m1, string_footprint(entity_type@));
        m1.lemma_bounds();
    }
    let id_ptr = str_to_asc(mem, id);
    proof {
        lemma_extends(&m1, mem, string_footprint(id@));
        lemma_extends_trans(
            old(mem),
            &m1,
            mem,
            string_footprint(entity_type@),
            string_footprint(id@),
        );
        lemma_string_frame(m1@, mem@, m1.cursor(), type_ptr@ as int, entity_type@);
        crate::memory::lemma_signed32_round_trip(0, type_ptr@);
        crate::memory::lemma_signed32_round_trip(0, id_ptr@);
    }
    (type_ptr, id_ptr)
}


/// What is left of `budget` heap bytes after the store value `value`;
/// nothing when the value takes more.
pub fn spend_value(value: &Value, budget: u32) -> (r: Option<u32>)
    ensures
        r == spend(budget as int, value_footprint(value@)),
    decreases value,
{
    match value {
        Value::String(s) => match spend_string(s.as_str(), budget) {
            Some(left) => spend_object(16, left),
            None => None,
        },
        Value::Bytes(b) => match spend_object(b.len(), budget) {
            Some(left) => spend_object(16, left),
            None => None,
        },
        Value::Array(arr) => {
            proof {
                lemma_array_view(*arr);
                lemma_footprints_monotonic(views_of(arr@), 0, arr@.len());
            }
            match spend_values(arr, budget) {
                Some(left) => spend_object(16, left),
                None => None,
            }
        },
        _ => spend_object(16, budget),
    }
}

/// What is left of `budget` heap bytes after the array of the store values
/// `values`; nothing when the array takes more.
pub fn spend_values(values: &Vec<Value>, budget: u32) -> (r: Option<u32>)
    ensures
        r == spend(
            budget as int,
            values_footprint(views_of(values@), values@.len()) + array_span(values@.len() as int),
        ),
    decreases values,
{
    let ghost vs = views_of(values@);
    let n = values.len();
    let mut left = budget;
    let mut i: usize = 0;
    while i < n
        invariant
            0 <= i <= n,
            n == values@.len(),
            vs == views_of(values@),
            left as int == budget - values_footprint(vs, i as nat),
        decreases n - i,
    {
        proof {
            lemma_footprints_monotonic(vs, i as nat, n as nat);
            lemma_footprints_monotonic(vs, 0, i as nat);
            lemma_footprint_positive(vs[i as int]);
            assert(vs[i as int] == values@[i as int]@);
        }
        match spend_value(&values[i], left) {
            Some(rest) => {
                left = rest;
            },
            None => {
                return None;
            },
        }
        i = i + 1;
    }
    proof {
        lemma_footprints_monotonic(vs, 0, n as nat);
    }
    spend_array(n, left)
}

/// What is left of `budget` heap bytes after the entity `data`; nothing when
/// the entity takes more.
pub fn spend_entity(data: &EntityData, budget: u32) -> (r: Option<u32>)
    ensures
        r == spend(budget as int, entity_footprint(data@)),
{
    let ghost e = data@;
    let entries = data.iter();
    let n = entries.len();
    let mut left = budget;
    let mut i: usize = 0;
    while i < n
        invariant
            0 <= i <= n,
            n == e.len(),
            e == data@,
            entries@.len() == n,
            forall|j: int| 0 <= j < n ==> (entries@[j].0@, entries@[j].1@) == e[j],
            left as int == budget - entries_footprint(e, i as nat),
        decreases n - i,
    {
        proof {
            lemma_entries_monotonic(e, i as nat, n as nat);
            lemma_entries_monotonic(e, 0, i as nat);
            lemma_footprint_positive(e[i as int].1);
            assert((entries@[i as int].0@, entries@[i as int].1@) == e[i as int]);
            assert(string_footprint(e[i as int].0) >= 0);
            assert(array_span(n as int) >= 0);
        }
        let after_key = match spend_string(entries[i].0.as_str(), left) {
            Some(rest) => rest,
            None => {
                return None;
            },
        };
        let after_value = match spend_value(&entries[i].1, after_key) {
            Some(rest) => rest,
            None => {
                return None;
            },
        };
        match spend_object(8, after_value) {
            Some(rest) => {
                left = rest;
            },
            None => {
                return None;
            },
        }
        i = i + 1;
    }
    proof {
        lemma_entries_monotonic(e, 0, n as nat);
    }
    match spend_array(n, left) {
        Some(rest) => spend_object(4, rest),
        None => None,
    }
}


/// Whether the store value at `p` can be read within the first `hi` bytes
/// of memory.
pub fn value_readable(mem: &Memory, hi: u32, p: u32) -> (ok: bool)
    requires
        mem.wf(),
        hi <= mem@.len(),
    ensures
        ok == value_ok(mem@, hi as int, p as int),
    decreases p,
{
    if p == 0 {
        return true;
    }
    if p < 20 || hi < 16 || p > hi - 16 {
        return false;
    }
    proof {
        mem.lemma_bounds();
    }
    let header = read_enum_header(mem, p);
    let kind = header.kind;
    let q = payload_ptr(header.payload);
    if kind == 0 {
        string_readable(mem, p - 20, q)
    } else if kind == 6 {
        bytes_readable(mem, p - 20, q)
    } else if kind == 4 {
        q < p && value_array_readable(mem, p - 20, q)
    } else {
        true
    }
}

/// Whether the array of store values at `a` can be read within the first
/// `hi` bytes of memory.
pub fn value_array_readable(mem: &Memory, hi: u32, a: u32) -> (ok: bool)
    requires
        mem.wf(),
        hi <= mem@.len(),
    ensures
        ok == value_array_ok(mem@, hi as int, a as int),
    decreases a,
{
    if !array_readable(mem, hi, a) {
        return false;
    }
    let elems = read_array(mem, a);
    let mut i: usize = 0;
    while i < elems.len()
        invariant
            0 <= i <= elems@.len(),
            mem.wf(),
            hi <= mem@.len(),
            array_ok(mem@, hi as int, a as int),
            elems@ == array_elems(mem@, a as int),
            forall|j: int|
                0 <= j < i ==> (#[trigger] array_elems(mem@, a as int)[j]) < a && value_ok(
                    mem@,
                    a - 20,
                    array_elems(mem@, a as int)[j] as int,
                ),
        decreases elems@.len() - i,
    {
        let e = elems[i];
        assert(e == array_elems(mem@, a as int)[i as int]);
        if e >= a || !value_readable(mem, a - 20, e) {
            return false;
        }
        i = i + 1;
    }
    true
}

/// Whether the entity at `p` can be read within the first `hi` bytes of
/// memory.
pub fn entity_readable(mem: &Memory, hi: u32, p: u32) -> (ok: bool)
    requires
        mem.wf(),
        hi <= mem@.len(),
    ensures
        ok == entity_ok(mem@, hi as int, p as int),
{
    if p == 0 {
        return true;
    }
    if p < 20 || hi < 4 || p > hi - 4 {
        return false;
    }
    proof {
        mem.lemma_bounds();
    }
    let a = mem.read_u32(p);
    if !array_readable(mem, p - 20, a) {
        return false;
    }
    let elems = read_array(mem, a);
    let mut i: usize = 0;
    while i < elems.len()
        invariant
            0 <= i <= elems@.len(),
            mem.wf(),
            a == u32_at(mem@, p as int),
            array_ok(mem@, p - 20, a as int),
            elems@ == array_elems(mem@, a as int),
            forall|j: int|
                0 <= j < i ==> (#[trigger] array_elems(mem@, a as int)[j]) == 0 || entry_ok(
                    mem@,
                    a - 20,
                    array_elems(mem@, a as int)[j] as int,
                ),
        decreases elems@.len() - i,
    {
        let q = elems[i];
        assert(q == array_elems(mem@, a as int)[i as int]);
        if q != 0 {
            proof {
                mem.lemma_bounds();
            }
            if q < 20 || a < 28 || q > a - 28 {
                return false;
            }
            if !string_readable(mem, q - 20, mem.read_u32(q)) || !value_readable(
                mem,
                q - 20,
                mem.read_u32(q + 4),
            ) {
                return false;
            }
        }
        i = i + 1;
    }
    true
}

impl FromAscPtr for Value {
    open spec fn readable(m: Seq<u8>, ptr: u32) -> bool {
        value_ok(m, m.len() as int, ptr as int)
    }

    open spec fn decoded(m: Seq<u8>, ptr: u32) -> ValueView {
        value_dec(m, ptr as int)
    }

    fn check(mem: &Memory, ptr: u32) -> (ok: bool) {
        value_readable(mem, mem.size_bytes(), ptr)
    }

    /// Reads the store value at `ptr`.
    fn from_asc_ptr(mem: &Memory, ptr: u32) -> (r: Self) {
        deserialize_value(mem, AscPtr::new(ptr))
    }
}

impl ToAscPtr for Value {
    open spec fn footprint(v: ValueView) -> int {
        value_footprint(v)
    }

    open spec fn encoded(m: Seq<u8>, ptr: u32, v: ValueView) -> bool {
        is_value(m, ptr as int, v)
    }

    /// Writes the store value into fresh heap.
    fn to_asc_ptr(&self, mem: &mut Memory) -> (ptr: u32) {
        serialize_value(mem, self).as_raw()
    }
}

impl FromAscPtr for EntityData {
    open spec fn readable(m: Seq<u8>, ptr: u32) -> bool {
        entity_ok(m, m.len() as int, ptr as int)
    }

    open spec fn decoded(m: Seq<u8>, ptr: u32) -> Fields {
        entity_dec(m, ptr as int)
    }

    fn check(mem: &Memory, ptr: u32) -> (ok: bool) {
        entity_readable(mem, mem.size_bytes(), ptr)
    }

    /// Reads the entity at `ptr`.
    fn from_asc_ptr(mem: &Memory, ptr: u32) -> (r: Self) {
        deserialize_entity(mem, AscPtr::new(ptr))
    }
}

impl ToAscPtr for EntityData {
    open spec fn footprint(v: Fields) -> int {
        entity_footprint(v)
    }

    open spec fn encoded(m: Seq<u8>, ptr: u32, v: Fields) -> bool {
        is_entity(m, ptr as int, v)
    }

    /// Writes the entity into fresh heap.
    fn to_asc_ptr(&self, mem: &mut Memory) -> (ptr: u32) {
        serialize_entity(mem, self).as_raw()
    }
}

} // verus!
