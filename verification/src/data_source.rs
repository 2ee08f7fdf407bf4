//! Data sources: the one a handler runs for, and new ones made from
//! templates.

use crate::allocator::{
    ensure_heap_initialised, extends, lemma_extends, lemma_extends_trans, spend, ARRAY_PTR,
};
use crate::asc::{
    bytes_dec, bytes_from_reply, bytes_ok, is_string, lemma_string_frame, spend_string, str_to_asc,
    string_dec, string_footprint, string_from_reply, string_ok, utf16_encode,
};
use crate::host::{
    data_source_address, data_source_context, data_source_create, data_source_network, HostCall,
    Import,
};
use crate::memory::{as_unsigned32, to_signed32, Memory};
use crate::shapes::{
    array_buffer, array_elems, array_span, is_array, lemma_array_round_trip, write_array,
};
use crate::types::{address_of, Address};
use crate::value::{EntityData, ValueView};
use vstd::prelude::*;

verus! {

/// The contents of `strings`, in order.
pub open spec fn texts_of(strings: Seq<String>) -> Seq<Seq<char>> {
    Seq::new(strings.len(), |i: int| strings[i]@)
}

/// The memory holds at `a` an array of the strings `texts`: an array of the
/// pointer-array class whose elements point to the strings, each written
/// before the buffer of the array.
pub open spec fn is_string_array(m: Seq<u8>, a: int, texts: Seq<Seq<char>>) -> bool {
    &&& is_array(m, a, ARRAY_PTR, array_elems(m, a))
    &&& array_elems(m, a).len() == texts.len()
    &&& forall|i: int|
        0 <= i < texts.len() ==> is_string(m, (#[trigger] array_elems(m, a)[i]) as int, texts[i])
            && array_elems(m, a)[i] + 2 * utf16_encode(texts[i]).len() <= array_buffer(m, a) - 20
}

/// The heap bytes that the first `n` strings of `texts` take.
pub open spec fn strings_footprint(texts: Seq<Seq<char>>, n: nat) -> int
    decreases n,
{
    if n == 0 || n > texts.len() {
        0
    } else {
        strings_footprint(texts, (n - 1) as nat) + string_footprint(texts[n - 1])
    }
}

/// The footprint of a prefix is at most that of a longer prefix.
pub proof fn lemma_strings_monotonic(texts: Seq<Seq<char>>, i: nat, j: nat)
    requires
        i <= j <= texts.len(),
    ensures
        0 <= strings_footprint(texts, i) <= strings_footprint(texts, j),
        i < j ==> strings_footprint(texts, i) + string_footprint(texts[i as int])
            <= strings_footprint(texts, j),
    decreases j,
{
    if j > 0 {
        if i == j {
            lemma_strings_monotonic(texts, 0, (j - 1) as nat);
        } else {
            lemma_strings_monotonic(texts, i, (j - 1) as nat);
        }
    }
}

/// Writes `strings` into fresh heap as an array of strings: the strings
/// first, in order, then the buffer with the pointers to them, then the
/// array object. Returns the pointer to the array object.
#[verifier::rlimit(100)]
pub fn strings_to_asc_array(mem: &mut Memory, strings: &Vec<String>) -> (a: u32)
    requires
        old(mem).wf(),
        old(mem).cursor() + strings_footprint(texts_of(strings@), strings@.len()) + array_span(
            strings@.len() as int,
        ) <= old(mem).page_limit() * 65536,
    ensures
        extends(
            old(mem),
            final(mem),
            strings_footprint(texts_of(strings@), strings@.len()) + array_span(
                strings@.len() as int,
            ),
        ),
        is_string_array(final(mem)@, a as int, texts_of(strings@)),
        a + 20 == final(mem).cursor(),
{
    let ghost ts = texts_of(strings@);
    let n = strings.len();
    let mut ptrs: Vec<u32> = Vec::new();
    let mut i: usize = 0;
    ensure_heap_initialised(mem);
    proof {
        lemma_extends(old(mem), mem, 0);
    }
    while i < n
        invariant
            0 <= i <= n,
            n == strings@.len(),
            ts == texts_of(strings@),
            old(mem).wf(),
            mem.wf(),
            extends(old(mem), mem, strings_footprint(ts, i as nat)),
            old(mem).cursor() + strings_footprint(ts, n as nat) + array_span(n as int) <= old(
                mem,
            ).page_limit() * 65536,
            ptrs@.len() == i,
            forall|j: int|
                0 <= j < i ==> is_string(mem@, (#[trigger] ptrs@[j]) as int, ts[j]) && ptrs@[j] + 2
                    * utf16_encode(ts[j]).len() <= mem.cursor(),
        decreases n - i,
    {
        let ghost before = *mem;
        proof {
            lemma_extends(old(mem), mem, strings_footprint(ts, i as nat));
            lemma_strings_monotonic(ts, i as nat, n as nat);
            mem.lemma_bounds();
            assert(ts[i as int] == strings@[i as int]@);
        }
        let p = str_to_asc(mem, strings[i].as_str());
        proof {
            lemma_extends(&before, mem, string_footprint(ts[i as int]));
            lemma_strings_monotonic(ts, 0, i as nat);
            lemma_extends_trans(
                old(mem),
                &before,
                mem,
                strings_footprint(ts, i as nat),
                string_footprint(ts[i as int]),
            );
            assert forall|j: int| 0 <= j < i implies is_string(
                mem@,
                (#[trigger] ptrs@[j]) as int,
                ts[j],
            ) && ptrs@[j] + 2 * utf16_encode(ts[j]).len() <= mem.cursor() by {
                lemma_string_frame(before@, mem@, before.cursor(), ptrs@[j] as int, ts[j]);
            }
        }
        ptrs.push(p.as_raw());
        i = i + 1;
    }
    let ghost filled = *mem;
    proof {
        lemma_extends(old(mem), mem, strings_footprint(ts, n as nat));
        lemma_strings_monotonic(ts, 0, n as nat);
        mem.lemma_bounds();
    }
    let a = write_array(mem, &ptrs, ARRAY_PTR);
    proof {
        lemma_extends(&filled, mem, array_span(n as int));
        lemma_extends_trans(
            old(mem),
            &filled,
            mem,
            strings_footprint(ts, n as nat),
            array_span(n as int),
        );
        lemma_array_round_trip(mem@, a as int, ARRAY_PTR, ptrs@);
        assert forall|j: int| 0 <= j < ts.len() implies is_string(
            mem@,
            (#[trigger] array_elems(mem@, a as int)[j]) as int,
            ts[j],
        ) && array_elems(mem@, a as int)[j] + 2 * utf16_encode(ts[j]).len() <= array_buffer(
            mem@,
            a as int,
        ) - 20 by {
            assert(is_string(filled@, ptrs@[j] as int, ts[j]));
            lemma_string_frame(filled@, mem@, filled.cursor(), ptrs@[j] as int, ts[j]);
        }
    }
    a
}

/// The heap bytes that a request to create a data source takes.
pub open spec fn create_footprint(name: Seq<char>, params: Seq<String>) -> int {
    string_footprint(name) + strings_footprint(texts_of(params), params.len()) + array_span(
        params.len() as int,
    )
}

/// Writes the template name and the parameters into fresh heap and asks the
/// host to create a data source from the template.
pub fn create(mem: &mut Memory, name: &str, params: &Vec<String>) -> (request: HostCall)
    requires
        old(mem).wf(),
        old(mem).cursor() + create_footprint(name@, params@) <= old(mem).page_limit() * 65536,
    ensures
        extends(old(mem), final(mem), create_footprint(name@, params@)),
        request.import == Import::DataSourceCreate,
        request.args@.len() == 2,
        is_string(final(mem)@, as_unsigned32(request.args@[0]) as int, name@),
        is_string_array(final(mem)@, as_unsigned32(request.args@[1]) as int, texts_of(params@)),
{
    let ghost f1 = string_footprint(name@);
    let ghost f2 = strings_footprint(texts_of(params@), params@.len()) + array_span(
        params@.len() as int,
    );
    proof {
        mem.lemma_bounds();
        lemma_strings_monotonic(texts_of(params@), 0, params@.len());
    }
    let name_ptr = str_to_asc(mem, name);
    let ghost m1 = *mem;
    proof {
        lemma_extends(old(mem), &m1, f1);
        m1.lemma_bounds();
    }
    let params_ptr = strings_to_asc_array(mem, params);
    proof {
        lemma_extends(&m1, mem, f2);
        lemma_extends_trans(old(mem), &m1, mem, f1, f2);
        lemma_string_frame(m1@, mem@, m1.cursor(), name_ptr@ as int, name@);
        crate::memory::lemma_signed32_round_trip(0, name_ptr@);
        crate::memory::lemma_signed32_round_trip(0, params_ptr);
    }
    data_source_create(name_ptr.as_i32(), to_signed32(params_ptr))
}

/// Creates a data source from a template with a context. The context is not
/// passed on as yet: nothing is written and the host is not asked.
pub fn create_with_context(name: &str, params: &Vec<String>, context: EntityData) {
}

/// Asks the host for the address of the current data source. The reply goes
/// to `address_reply`.
pub fn address() -> (request: HostCall)
    ensures
        request.is(Import::DataSourceAddress, Seq::empty()),
{
    data_source_address()
}

/// The address that the host replied with: the first twenty bytes of the
/// buffer, padded with zeros on the left when there are fewer.
pub fn address_reply(mem: &Memory, reply: i32) -> (a: Address)
    requires
        mem.wf(),
        bytes_ok(mem@, mem@.len() as int, as_unsigned32(reply) as int),
    ensures
        a@ == address_of(bytes_dec(mem@, as_unsigned32(reply) as int)),
{
    let bytes = bytes_from_reply(mem, reply);
    Address::from_slice(bytes.as_slice())
}

/// Asks the host for the name of the network of the current data source.
/// The reply goes to `network_reply`.
pub fn network() -> (request: HostCall)
    ensures
        request.is(Import::DataSourceNetwork, Seq::empty()),
{
    data_source_network()
}

/// The network name that the host replied with.
pub fn network_reply(mem: &Memory, reply: i32) -> (name: String)
    requires
        mem.wf(),
        string_ok(mem@, mem@.len() as int, as_unsigned32(reply) as int),
    ensures
        name@ == string_dec(mem@, as_unsigned32(reply) as int),
{
    string_from_reply(mem, reply)
}

/// Asks the host for the context of the current data source. The reply
/// goes to `context_reply`.
pub fn context() -> (request: HostCall)
    ensures
        request.is(Import::DataSourceContext, Seq::empty()),
{
    data_source_context()
}

/// The context that the host replied with. The reply is not read as yet:
/// the context has no fields.
pub fn context_reply(reply: i32) -> (data: EntityData)
    ensures
        data.wf(),
        data@ == Seq::<(Seq<char>, ValueView)>::empty(),
{
    EntityData::new()
}

/// The string that a sequence of bytes stands for when read as UTF-8, with
/// U+FFFD in place of what is not UTF-8.
pub uninterp spec fn utf8_lossy(bytes: Seq<u8>) -> Seq<char>;

/// `String::from_utf8_lossy`: reads bytes as UTF-8, putting U+FFFD in place
/// of invalid sequences. The result is named, not spelled out.
#[verifier::external_body]
fn from_utf8_lossy(bytes: &[u8]) -> (s: String)
    ensures
        s@ == utf8_lossy(bytes@),
{
    String::from_utf8_lossy(bytes).into_owned()
}

/// Asks the host for the parameter of a file data source, which the host
/// keeps where other data sources have their address. The reply goes to
/// `string_param_reply`.
pub fn string_param() -> (request: HostCall)
    ensures
        request.is(Import::DataSourceAddress, Seq::empty()),
{
    address()
}

/// The parameter of a file data source that the host replied with: the
/// address that the reply stands for, read as UTF-8.
pub fn string_param_reply(mem: &Memory, reply: i32) -> (param: String)
    requires
        mem.wf(),
        bytes_ok(mem@, mem@.len() as int, as_unsigned32(reply) as int),
    ensures
        param@ == utf8_lossy(address_of(bytes_dec(mem@, as_unsigned32(reply) as int))),
{
    let addr = address_reply(mem, reply);
    from_utf8_lossy(addr.as_bytes())
}


/// What is left of `budget` heap bytes after a request to create a data
/// source from the template `name` with the parameters `params`; nothing
/// when the request takes more.
pub fn spend_create(name: &str, params: &Vec<String>, budget: u32) -> (r: Option<u32>)
    ensures
        r == spend(budget as int, create_footprint(name@, params@)),
{
    let ghost ts = texts_of(params@);
    proof {
        lemma_strings_monotonic(ts, 0, params@.len());
    }
    let n = params.len();
    let mut left = match spend_string(name, budget) {
        Some(rest) => rest,
        None => {
            return None;
        },
    };
    let mut i: usize = 0;
    while i < n
        invariant
            0 <= i <= n,
            n == params@.len(),
            ts == texts_of(params@),
            left as int == budget - string_footprint(name@) - strings_footprint(ts, i as nat),
        decreases n - i,
    {
        proof {
            lemma_strings_monotonic(ts, i as nat, n as nat);
            lemma_strings_monotonic(ts, 0, i as nat);
            assert(ts[i as int] == params@[i as int]@);
        }
        match spend_string(params[i].as_str(), left) {
            Some(rest) => {
                left = rest;
            },
            None => {
                return None;
            },
        }
        i = i + 1;
    }
    crate::shapes::spend_array(n, left)
}

} // verus!
