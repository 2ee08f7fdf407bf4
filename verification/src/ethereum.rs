//! Chain records and chain values.
//!
//! Blocks, transactions, receipts and events arrive as records of 4-byte
//! fields at fixed offsets. A field is a pointer to bytes or to a string, or
//! the handle of a number; a null pointer in an optional field stands for
//! absence, and anywhere else for the zero value of the field.
//!
//! Chain values (`Token`) are tagged variants like store values and travel
//! both ways.

use crate::allocator::{
    ensure_heap_initialised, extends, lemma_extends, lemma_extends_trans, managed, spend,
    spend_object, ARRAY_ETHEREUM_VALUE, ETHEREUM_VALUE, SMART_CONTRACT_CALL,
};
use crate::asc::{
    asc_to_bytes, asc_to_string, bytes_dec, bytes_footprint, bytes_ok, bytes_to_asc, is_bytes,
    is_string, lemma_bytes_frame, lemma_bytes_round_trip, lemma_string_frame,
    lemma_string_round_trip, read_u32_at, spend_string, str_to_asc, string_dec, string_footprint,
    string_ok, utf16_encode, AscPtr, FromAscPtr, ToAscPtr,
};
use crate::host::{ethereum_call, HostCall, Import};
use crate::memory::{as_unsigned32, same_below, to_unsigned32, u32_at, Memory};
use crate::shapes::{
    array_buffer, array_elems, array_ok, array_span, enum_kind, enum_payload, is_array, is_enum,
    is_object, lemma_array_frame, lemma_array_round_trip, lemma_enum_frame, low32, payload_ptr,
    read_array, write_array, write_enum, write_object,
};
use crate::types::{address_of, Address, BigInt, Bytes};
use vstd::prelude::*;

verus! {

/// The pointer in the field at `offset` of the record at `p`; null when the
/// record itself is null.
pub open spec fn field_ptr(m: Seq<u8>, p: int, offset: int) -> u32 {
    if p == 0 {
        0
    } else {
        u32_at(m, p + offset)
    }
}

/// The handle in an optional field: absent for the null pointer.
pub open spec fn opt_handle(ptr: u32) -> Option<u32> {
    if ptr == 0 {
        None
    } else {
        Some(ptr)
    }
}

/// The address in an optional field: absent for the null pointer.
pub open spec fn opt_address(m: Seq<u8>, ptr: u32) -> Option<Seq<u8>> {
    if ptr == 0 {
        None
    } else {
        Some(address_of(bytes_dec(m, ptr as int)))
    }
}

/// The string in an optional field: absent for the null pointer.
pub open spec fn opt_string(m: Seq<u8>, ptr: u32) -> Option<Seq<char>> {
    if ptr == 0 {
        None
    } else {
        Some(string_dec(m, ptr as int))
    }
}

impl FromAscPtr for Address {
    open spec fn readable(m: Seq<u8>, ptr: u32) -> bool {
        bytes_ok(m, m.len() as int, ptr as int)
    }

    open spec fn decoded(m: Seq<u8>, ptr: u32) -> Seq<u8> {
        address_of(bytes_dec(m, ptr as int))
    }

    fn check(mem: &Memory, ptr: u32) -> (ok: bool) {
        crate::asc::bytes_readable(mem, mem.size_bytes(), ptr)
    }

    /// Reads the address behind `ptr`: the first twenty bytes of the buffer,
    /// padded with zeros on the left when there are fewer. The null pointer
    /// reads as the zero address.
    fn from_asc_ptr(mem: &Memory, ptr: u32) -> (r: Self) {
        if ptr == 0 {
            let z = Address::zero();
            assert(z@ =~= address_of(bytes_dec(mem@, 0)));
            return z;
        }
        let bytes = asc_to_bytes(mem, AscPtr::new(ptr));
        Address::from_slice(bytes.as_slice())
    }
}

impl FromAscPtr for Bytes {
    open spec fn readable(m: Seq<u8>, ptr: u32) -> bool {
        bytes_ok(m, m.len() as int, ptr as int)
    }

    open spec fn decoded(m: Seq<u8>, ptr: u32) -> Seq<u8> {
        bytes_dec(m, ptr as int)
    }

    fn check(mem: &Memory, ptr: u32) -> (ok: bool) {
        crate::asc::bytes_readable(mem, mem.size_bytes(), ptr)
    }

    /// Reads the bytes behind `ptr`. The null pointer reads as no bytes.
    fn from_asc_ptr(mem: &Memory, ptr: u32) -> (r: Self) {
        if ptr == 0 {
            return Bytes::new();
        }
        Bytes::from_vec(asc_to_bytes(mem, AscPtr::new(ptr)))
    }
}

impl FromAscPtr for BigInt {
    open spec fn readable(m: Seq<u8>, ptr: u32) -> bool {
        true
    }

    open spec fn decoded(m: Seq<u8>, ptr: u32) -> u32 {
        ptr
    }

    fn check(mem: &Memory, ptr: u32) -> (ok: bool) {
        true
    }

    /// The number behind `ptr`. Nothing is read: the pointer is the handle.
    fn from_asc_ptr(mem: &Memory, ptr: u32) -> (r: Self) {
        BigInt::from_ptr(AscPtr::new(ptr))
    }
}

/// Reads an optional number: absent for the null pointer.
fn read_opt_big_int(ptr: u32) -> (r: Option<BigInt>)
    ensures
        r is Some <==> ptr != 0,
        r matches Some(b) ==> b@ == ptr,
{
    if ptr == 0 {
        None
    } else {
        Some(BigInt::from_ptr(AscPtr::new(ptr)))
    }
}

/// Reads an optional address: absent for the null pointer.
fn read_opt_address(mem: &Memory, ptr: u32) -> (r: Option<Address>)
    requires
        mem.wf(),
        bytes_ok(mem@, mem@.len() as int, ptr as int),
    ensures
        r is Some <==> ptr != 0,
        r matches Some(a) ==> a@ == address_of(bytes_dec(mem@, ptr as int)),
{
    if ptr == 0 {
        None
    } else {
        Some(Address::from_asc_ptr(mem, ptr))
    }
}

/// An Ethereum block.
#[derive(Debug)]
pub struct Block {
    pub hash: Bytes,
    pub parent_hash: Bytes,
    pub uncles_hash: Bytes,
    pub author: Address,
    pub state_root: Bytes,
    pub transactions_root: Bytes,
    pub receipts_root: Bytes,
    pub number: BigInt,
    pub gas_used: BigInt,
    pub gas_limit: BigInt,
    pub timestamp: BigInt,
    pub difficulty: BigInt,
    pub total_difficulty: BigInt,
    pub size: Option<BigInt>,
    pub base_fee_per_gas: Option<BigInt>,
}

/// What a `Block` stands for: bytes by their contents, numbers by their
/// handle.
pub struct BlockView {
    pub hash: Seq<u8>,
    pub parent_hash: Seq<u8>,
    pub uncles_hash: Seq<u8>,
    pub author: Seq<u8>,
    pub state_root: Seq<u8>,
    pub transactions_root: Seq<u8>,
    pub receipts_root: Seq<u8>,
    pub number: u32,
    pub gas_used: u32,
    pub gas_limit: u32,
    pub timestamp: u32,
    pub difficulty: u32,
    pub total_difficulty: u32,
    pub size: Option<u32>,
    pub base_fee_per_gas: Option<u32>,
}

impl View for Block {
    type V = BlockView;

    open spec fn view(&self) -> BlockView {
        BlockView {
            hash: self.hash@,
            parent_hash: self.parent_hash@,
            uncles_hash: self.uncles_hash@,
            author: self.author@,
            state_root: self.state_root@,
            transactions_root: self.transactions_root@,
            receipts_root: self.receipts_root@,
            number: self.number@,
            gas_used: self.gas_used@,
            gas_limit: self.gas_limit@,
            timestamp: self.timestamp@,
            difficulty: self.difficulty@,
            total_difficulty: self.total_difficulty@,
            size: match self.size {
                Some(x) => Some(x@),
                None => None,
            },
            base_fee_per_gas: match self.base_fee_per_gas {
                Some(x) => Some(x@),
                None => None,
            },
        }
    }
}

impl Clone for Block {
    fn clone(&self) -> (r: Self)
        ensures
            r@ == self@,
    {
        Block {
            hash: self.hash.clone(),
            parent_hash: self.parent_hash.clone(),
            uncles_hash: self.uncles_hash.clone(),
            author: self.author.clone(),
            state_root: self.state_root.clone(),
            transactions_root: self.transactions_root.clone(),
            receipts_root: self.receipts_root.clone(),
            number: self.number.clone(),
            gas_used: self.gas_used.clone(),
            gas_limit: self.gas_limit.clone(),
            timestamp: self.timestamp.clone(),
            difficulty: self.difficulty.clone(),
            total_difficulty: self.total_difficulty.clone(),
            size: match &self.size {
                Some(x) => Some(x.clone()),
                None => None,
            },
            base_fee_per_gas: match &self.base_fee_per_gas {
                Some(x) => Some(x.clone()),
                None => None,
            },
        }
    }
}

/// What a block record must satisfy to be read: null, or 60 bytes of
/// fields inside the memory, with readable buffers behind the fields that
/// hold bytes.
pub open spec fn block_ok(m: Seq<u8>, p: int) -> bool {
    p == 0 || {
        &&& 0 < p
        &&& p + 60 <= m.len()
        &&& bytes_ok(m, m.len() as int, u32_at(m, p + 0) as int)
        &&& bytes_ok(m, m.len() as int, u32_at(m, p + 4) as int)
        &&& bytes_ok(m, m.len() as int, u32_at(m, p + 8) as int)
        &&& bytes_ok(m, m.len() as int, u32_at(m, p + 12) as int)
        &&& bytes_ok(m, m.len() as int, u32_at(m, p + 16) as int)
        &&& bytes_ok(m, m.len() as int, u32_at(m, p + 20) as int)
        &&& bytes_ok(m, m.len() as int, u32_at(m, p + 24) as int)
    }
}

/// The block that the memory holds at `p`. A null field reads as absent
/// where the field is optional, and as no bytes, the zero address or the
/// null handle elsewhere; a null record reads as a record of null fields.
pub open spec fn block_dec(m: Seq<u8>, p: int) -> BlockView {
    BlockView {
        hash: bytes_dec(m, field_ptr(m, p, 0) as int),
        parent_hash: bytes_dec(m, field_ptr(m, p, 4) as int),
        uncles_hash: bytes_dec(m, field_ptr(m, p, 8) as int),
        author: address_of(bytes_dec(m, field_ptr(m, p, 12) as int)),
        state_root: bytes_dec(m, field_ptr(m, p, 16) as int),
        transactions_root: bytes_dec(m, field_ptr(m, p, 20) as int),
        receipts_root: bytes_dec(m, field_ptr(m, p, 24) as int),
        number: field_ptr(m, p, 28),
        gas_used: field_ptr(m, p, 32),
        gas_limit: field_ptr(m, p, 36),
        timestamp: field_ptr(m, p, 40),
        difficulty: field_ptr(m, p, 44),
        total_difficulty: field_ptr(m, p, 48),
        size: opt_handle(field_ptr(m, p, 52)),
        base_fee_per_gas: opt_handle(field_ptr(m, p, 56)),
    }
}

impl Default for Block {
    /// The record of null fields.
    fn default() -> (r: Self)
        ensures
            r@ == block_dec(Seq::empty(), 0),
    {
        let r = Block {
            hash: Bytes::new(),
            parent_hash: Bytes::new(),
            uncles_hash: Bytes::new(),
            author: Address::zero(),
            state_root: Bytes::new(),
            transactions_root: Bytes::new(),
            receipts_root: Bytes::new(),
            number: BigInt::from_ptr(AscPtr::null()),
            gas_used: BigInt::from_ptr(AscPtr::null()),
            gas_limit: BigInt::from_ptr(AscPtr::null()),
            timestamp: BigInt::from_ptr(AscPtr::null()),
            difficulty: BigInt::from_ptr(AscPtr::null()),
            total_difficulty: BigInt::from_ptr(AscPtr::null()),
            size: None,
            base_fee_per_gas: None,
        };
        proof {
            let m = Seq::<u8>::empty();
            assert(address_of(bytes_dec(m, 0)) =~= Seq::new(20, |i: int| 0u8));
        }
        r
    }
}

impl FromAscPtr for Block {
    open spec fn readable(m: Seq<u8>, ptr: u32) -> bool {
        block_ok(m, ptr as int)
    }

    open spec fn decoded(m: Seq<u8>, ptr: u32) -> BlockView {
        block_dec(m, ptr as int)
    }

    fn check(mem: &Memory, ptr: u32) -> (ok: bool) {
        if ptr == 0 {
            return true;
        }
        let len = mem.size_bytes();
        if len < 60 || ptr > len - 60 {
            return false;
        }
        if !crate::asc::bytes_readable(mem, len, read_u32_at(mem, ptr, 0)) {
            return false;
        }
        if !crate::asc::bytes_readable(mem, len, read_u32_at(mem, ptr, 4)) {
            return false;
        }
        if !crate::asc::bytes_readable(mem, len, read_u32_at(mem, ptr, 8)) {
            return false;
        }
        if !crate::asc::bytes_readable(mem, len, read_u32_at(mem, ptr, 12)) {
            return false;
        }
        if !crate::asc::bytes_readable(mem, len, read_u32_at(mem, ptr, 16)) {
            return false;
        }
        if !crate::asc::bytes_readable(mem, len, read_u32_at(mem, ptr, 20)) {
            return false;
        }
        if !crate::asc::bytes_readable(mem, len, read_u32_at(mem, ptr, 24)) {
            return false;
        }
        true
    }

    /// Reads the block at `ptr`, field by field.
    fn from_asc_ptr(mem: &Memory, ptr: u32) -> (r: Self) {
        if ptr == 0 {
            let r = Block::default();
            assert(r@ == block_dec(mem@, 0));
            return r;
        }
        Block {
            hash: Bytes::from_asc_ptr(mem, read_u32_at(mem, ptr, 0)),
            parent_hash: Bytes::from_asc_ptr(mem, read_u32_at(mem, ptr, 4)),
            uncles_hash: Bytes::from_asc_ptr(mem, read_u32_at(mem, ptr, 8)),
            author: Address::from_asc_ptr(mem, read_u32_at(mem, ptr, 12)),
            state_root: Bytes::from_asc_ptr(mem, read_u32_at(mem, ptr, 16)),
            transactions_root: Bytes::from_asc_ptr(mem, read_u32_at(mem, ptr, 20)),
            receipts_root: Bytes::from_asc_ptr(mem, read_u32_at(mem, ptr, 24)),
            number: BigInt::from_asc_ptr(mem, read_u32_at(mem, ptr, 28)),
            gas_used: BigInt::from_asc_ptr(mem, read_u32_at(mem, ptr, 32)),
            gas_limit: BigInt::from_asc_ptr(mem, read_u32_at(mem, ptr, 36)),
            timestamp: BigInt::from_asc_ptr(mem, read_u32_at(mem, ptr, 40)),
            difficulty: BigInt::from_asc_ptr(mem, read_u32_at(mem, ptr, 44)),
            total_difficulty: BigInt::from_asc_ptr(mem, read_u32_at(mem, ptr, 48)),
            size: read_opt_big_int(read_u32_at(mem, ptr, 52)),
            base_fee_per_gas: read_opt_big_int(read_u32_at(mem, ptr, 56)),
        }
    }
}

/// An Ethereum transaction.
#[derive(Debug)]
pub struct Transaction {
    pub hash: Bytes,
    pub index: BigInt,
    pub from: Address,
    pub to: Option<Address>,
    pub value: BigInt,
    pub gas_limit: BigInt,
    pub gas_price: BigInt,
    pub input: Bytes,
    pub nonce: BigInt,
}

/// What a `Transaction` stands for: bytes by their contents, numbers by their
/// handle.
pub struct TransactionView {
    pub hash: Seq<u8>,
    pub index: u32,
    pub from: Seq<u8>,
    pub to: Option<Seq<u8>>,
    pub value: u32,
    pub gas_limit: u32,
    pub gas_price: u32,
    pub input: Seq<u8>,
    pub nonce: u32,
}

impl View for Transaction {
    type V = TransactionView;

    open spec fn view(&self) -> TransactionView {
        TransactionView {
            hash: self.hash@,
            index: self.index@,
            from: self.from@,
            to: match self.to {
                Some(x) => Some(x@),
                None => None,
            },
            value: self.value@,
            gas_limit: self.gas_limit@,
            gas_price: self.gas_price@,
            input: self.input@,
            nonce: self.nonce@,
        }
    }
}

impl Clone for Transaction {
    fn clone(&self) -> (r: Self)
        ensures
            r@ == self@,
    {
        Transaction {
            hash: self.hash.clone(),
            index: self.index.clone(),
            from: self.from.clone(),
            to: match &self.to {
                Some(x) => Some(x.clone()),
                None => None,
            },
            value: self.value.clone(),
            gas_limit: self.gas_limit.clone(),
            gas_price: self.gas_price.clone(),
            input: self.input.clone(),
            nonce: self.nonce.clone(),
        }
    }
}

/// What a transaction record must satisfy to be read: null, or 36 bytes of
/// fields inside the memory, with readable buffers behind the fields that
/// hold bytes.
pub open spec fn transaction_ok(m: Seq<u8>, p: int) -> bool {
    p == 0 || {
        &&& 0 < p
        &&& p + 36 <= m.len()
        &&& bytes_ok(m, m.len() as int, u32_at(m, p + 0) as int)
        &&& bytes_ok(m, m.len() as int, u32_at(m, p + 8) as int)
        &&& bytes_ok(m, m.len() as int, u32_at(m, p + 12) as int)
        &&& bytes_ok(m, m.len() as int, u32_at(m, p + 28) as int)
    }
}

/// The transaction that the memory holds at `p`. A null field reads as absent
/// where the field is optional, and as no bytes, the zero address or the
/// null handle elsewhere; a null record reads as a record of null fields.
pub open spec fn transaction_dec(m: Seq<u8>, p: int) -> TransactionView {
    TransactionView {
        hash: bytes_dec(m, field_ptr(m, p, 0) as int),
        index: field_ptr(m, p, 4),
        from: address_of(bytes_dec(m, field_ptr(m, p, 8) as int)),
        to: opt_address(m, field_ptr(m, p, 12)),
        value: field_ptr(m, p, 16),
        gas_limit: field_ptr(m, p, 20),
        gas_price: field_ptr(m, p, 24),
        input: bytes_dec(m, field_ptr(m, p, 28) as int),
        nonce: field_ptr(m, p, 32),
    }
}

impl Default for Transaction {
    /// The record of null fields.
    fn default() -> (r: Self)
        ensures
            r@ == transaction_dec(Seq::empty(), 0),
    {
        let r = Transaction {
            hash: Bytes::new(),
            index: BigInt::from_ptr(AscPtr::null()),
            from: Address::zero(),
            to: None,
            value: BigInt::from_ptr(AscPtr::null()),
            gas_limit: BigInt::from_ptr(AscPtr::null()),
            gas_price: BigInt::from_ptr(AscPtr::null()),
            input: Bytes::new(),
            nonce: BigInt::from_ptr(AscPtr::null()),
        };
        proof {
            let m = Seq::<u8>::empty();
            assert(address_of(bytes_dec(m, 0)) =~= Seq::new(20, |i: int| 0u8));
        }
        r
    }
}

impl FromAscPtr for Transaction {
    open spec fn readable(m: Seq<u8>, ptr: u32) -> bool {
        transaction_ok(m, ptr as int)
    }

    open spec fn decoded(m: Seq<u8>, ptr: u32) -> TransactionView {
        transaction_dec(m, ptr as int)
    }

    fn check(mem: &Memory, ptr: u32) -> (ok: bool) {
        if ptr == 0 {
            return true;
        }
        let len = mem.size_bytes();
        if len < 36 || ptr > len - 36 {
            return false;
        }
        if !crate::asc::bytes_readable(mem, len, read_u32_at(mem, ptr, 0)) {
            return false;
        }
        if !crate::asc::bytes_readable(mem, len, read_u32_at(mem, ptr, 8)) {
            return false;
        }
        if !crate::asc::bytes_readable(mem, len, read_u32_at(mem, ptr, 12)) {
            return false;
        }
        if !crate::asc::bytes_readable(mem, len, read_u32_at(mem, ptr, 28)) {
            return false;
        }
        true
    }

    /// Reads the transaction at `ptr`, field by field.
    fn from_asc_ptr(mem: &Memory, ptr: u32) -> (r: Self) {
        if ptr == 0 {
            let r = Transaction::default();
            assert(r@ == transaction_dec(mem@, 0));
            return r;
        }
        Transaction {
            hash: Bytes::from_asc_ptr(mem, read_u32_at(mem, ptr, 0)),
            index: BigInt::from_asc_ptr(mem, read_u32_at(mem, ptr, 4)),
            from: Address::from_asc_ptr(mem, read_u32_at(mem, ptr, 8)),
            to: read_opt_address(mem, read_u32_at(mem, ptr, 12)),
            value: BigInt::from_asc_ptr(mem, read_u32_at(mem, ptr, 16)),
            gas_limit: BigInt::from_asc_ptr(mem, read_u32_at(mem, ptr, 20)),
            gas_price: BigInt::from_asc_ptr(mem, read_u32_at(mem, ptr, 24)),
            input: Bytes::from_asc_ptr(mem, read_u32_at(mem, ptr, 28)),
            nonce: BigInt::from_asc_ptr(mem, read_u32_at(mem, ptr, 32)),
        }
    }
}

/// An Ethereum transaction receipt.
#[derive(Debug)]
pub struct TransactionReceipt {
    pub transaction_hash: Bytes,
    pub transaction_index: BigInt,
    pub block_hash: Bytes,
    pub block_number: BigInt,
    pub cumulative_gas_used: BigInt,
    pub gas_used: BigInt,
    pub contract_address: Option<Address>,
    pub status: BigInt,
    pub root: Bytes,
    pub logs_bloom: Bytes,
}

/// What a `TransactionReceipt` stands for: bytes by their contents, numbers by their
/// handle.
pub struct TransactionReceiptView {
    pub transaction_hash: Seq<u8>,
    pub transaction_index: u32,
    pub block_hash: Seq<u8>,
    pub block_number: u32,
    pub cumulative_gas_used: u32,
    pub gas_used: u32,
    pub contract_address: Option<Seq<u8>>,
    pub status: u32,
    pub root: Seq<u8>,
    pub logs_bloom: Seq<u8>,
}

impl View for TransactionReceipt {
    type V = TransactionReceiptView;

    open spec fn view(&self) -> TransactionReceiptView {
        TransactionReceiptView {
            transaction_hash: self.transaction_hash@,
            transaction_index: self.transaction_index@,
            block_hash: self.block_hash@,
            block_number: self.block_number@,
            cumulative_gas_used: self.cumulative_gas_used@,
            gas_used: self.gas_used@,
            contract_address: match self.contract_address {
                Some(x) => Some(x@),
                None => None,
            },
            status: self.status@,
            root: self.root@,
            logs_bloom: self.logs_bloom@,
        }
    }
}

impl Clone for TransactionReceipt {
    fn clone(&self) -> (r: Self)
        ensures
            r@ == self@,
    {
        TransactionReceipt {
            transaction_hash: self.transaction_hash.clone(),
            transaction_index: self.transaction_index.clone(),
            block_hash: self.block_hash.clone(),
            block_number: self.block_number.clone(),
            cumulative_gas_used: self.cumulative_gas_used.clone(),
            gas_used: self.gas_used.clone(),
            contract_address: match &self.contract_address {
                Some(x) => Some(x.clone()),
                None => None,
            },
            status: self.status.clone(),
            root: self.root.clone(),
            logs_bloom: self.logs_bloom.clone(),
        }
    }
}

/// What a receipt record must satisfy to be read: null, or 40 bytes of
/// fields inside the memory, with readable buffers behind the fields that
/// hold bytes.
pub open spec fn receipt_ok(m: Seq<u8>, p: int) -> bool {
    p == 0 || {
        &&& 0 < p
        &&& p + 40 <= m.len()
        &&& bytes_ok(m, m.len() as int, u32_at(m, p + 0) as int)
        &&& bytes_ok(m, m.len() as int, u32_at(m, p + 8) as int)
        &&& bytes_ok(m, m.len() as int, u32_at(m, p + 24) as int)
        &&& bytes_ok(m, m.len() as int, u32_at(m, p + 32) as int)
        &&& bytes_ok(m, m.len() as int, u32_at(m, p + 36) as int)
    }
}

/// The receipt that the memory holds at `p`. A null field reads as absent
/// where the field is optional, and as no bytes, the zero address or the
/// null handle elsewhere; a null record reads as a record of null fields.
pub open spec fn receipt_dec(m: Seq<u8>, p: int) -> TransactionReceiptView {
    TransactionReceiptView {
        transaction_hash: bytes_dec(m, field_ptr(m, p, 0) as int),
        transaction_index: field_ptr(m, p, 4),
        block_hash: bytes_dec(m, field_ptr(m, p, 8) as int),
        block_number: field_ptr(m, p, 12),
        cumulative_gas_used: field_ptr(m, p, 16),
        gas_used: field_ptr(m, p, 20),
        contract_address: opt_address(m, field_ptr(m, p, 24)),
        status: field_ptr(m, p, 28),
        root: bytes_dec(m, field_ptr(m, p, 32) as int),
        logs_bloom: bytes_dec(m, field_ptr(m, p, 36) as int),
    }
}

impl Default for TransactionReceipt {
    /// The record of null fields.
    fn default() -> (r: Self)
        ensures
            r@ == receipt_dec(Seq::empty(), 0),
    {
        let r = TransactionReceipt {
            transaction_hash: Bytes::new(),
            transaction_index: BigInt::from_ptr(AscPtr::null()),
            block_hash: Bytes::new(),
            block_number: BigInt::from_ptr(AscPtr::null()),
            cumulative_gas_used: BigInt::from_ptr(AscPtr::null()),
            gas_used: BigInt::from_ptr(AscPtr::null()),
            contract_address: None,
            status: BigInt::from_ptr(AscPtr::null()),
            root: Bytes::new(),
            logs_bloom: Bytes::new(),
        };
        proof {
            let m = Seq::<u8>::empty();
            assert(address_of(bytes_dec(m, 0)) =~= Seq::new(20, |i: int| 0u8));
        }
        r
    }
}

impl FromAscPtr for TransactionReceipt {
    open spec fn readable(m: Seq<u8>, ptr: u32) -> bool {
        receipt_ok(m, ptr as int)
    }

    open spec fn decoded(m: Seq<u8>, ptr: u32) -> TransactionReceiptView {
        receipt_dec(m, ptr as int)
    }

    fn check(mem: &Memory, ptr: u32) -> (ok: bool) {
        if ptr == 0 {
            return true;
        }
        let len = mem.size_bytes();
        if len < 40 || ptr > len - 40 {
            return false;
        }
        if !crate::asc::bytes_readable(mem, len, read_u32_at(mem, ptr, 0)) {
            return false;
        }
        if !crate::asc::bytes_readable(mem, len, read_u32_at(mem, ptr, 8)) {
            return false;
        }
        if !crate::asc::bytes_readable(mem, len, read_u32_at(mem, ptr, 24)) {
            return false;
        }
        if !crate::asc::bytes_readable(mem, len, read_u32_at(mem, ptr, 32)) {
            return false;
        }
        if !crate::asc::bytes_readable(mem, len, read_u32_at(mem, ptr, 36)) {
            return false;
        }
        true
    }

    /// Reads the receipt at `ptr`, field by field.
    fn from_asc_ptr(mem: &Memory, ptr: u32) -> (r: Self) {
        if ptr == 0 {
            let r = TransactionReceipt::default();
            assert(r@ == receipt_dec(mem@, 0));
            return r;
        }
        TransactionReceipt {
            transaction_hash: Bytes::from_asc_ptr(mem, read_u32_at(mem, ptr, 0)),
            transaction_index: BigInt::from_asc_ptr(mem, read_u32_at(mem, ptr, 4)),
            block_hash: Bytes::from_asc_ptr(mem, read_u32_at(mem, ptr, 8)),
            block_number: BigInt::from_asc_ptr(mem, read_u32_at(mem, ptr, 12)),
            cumulative_gas_used: BigInt::from_asc_ptr(mem, read_u32_at(mem, ptr, 16)),
            gas_used: BigInt::from_asc_ptr(mem, read_u32_at(mem, ptr, 20)),
            contract_address: read_opt_address(mem, read_u32_at(mem, ptr, 24)),
            status: BigInt::from_asc_ptr(mem, read_u32_at(mem, ptr, 28)),
            root: Bytes::from_asc_ptr(mem, read_u32_at(mem, ptr, 32)),
            logs_bloom: Bytes::from_asc_ptr(mem, read_u32_at(mem, ptr, 36)),
        }
    }
}

/// An Ethereum event (a log entry) with its decoded parameters.
#[derive(Debug)]
pub struct Event<P> {
    pub address: Address,
    pub log_index: BigInt,
    pub transaction_log_index: BigInt,
    pub log_type: Option<String>,
    pub block: Block,
    pub transaction: Transaction,
    pub params: P,
    pub receipt: Option<TransactionReceipt>,
}

/// What an `Event` stands for.
pub struct EventView<PV> {
    pub address: Seq<u8>,
    pub log_index: u32,
    pub transaction_log_index: u32,
    pub log_type: Option<Seq<char>>,
    pub block: BlockView,
    pub transaction: TransactionView,
    pub params: PV,
    pub receipt: Option<TransactionReceiptView>,
}

impl<P: View> View for Event<P> {
    type V = EventView<P::V>;

    open spec fn view(&self) -> EventView<P::V> {
        EventView {
            address: self.address@,
            log_index: self.log_index@,
            transaction_log_index: self.transaction_log_index@,
            log_type: match self.log_type {
                Some(s) => Some(s@),
                None => None,
            },
            block: self.block@,
            transaction: self.transaction@,
            params: self.params@,
            receipt: match self.receipt {
                Some(r) => Some(r@),
                None => None,
            },
        }
    }
}

/// The receipt in an optional field: absent for the null pointer.
pub open spec fn opt_receipt(m: Seq<u8>, ptr: u32) -> Option<TransactionReceiptView> {
    if ptr == 0 {
        None
    } else {
        Some(receipt_dec(m, ptr as int))
    }
}

impl<P: FromAscPtr> FromAscPtr for Event<P> {
    /// An event is never null. Its eight fields lie inside the memory; the
    /// address, the log type, the block, the transaction, the parameters and
    /// the receipt behind them are readable.
    open spec fn readable(m: Seq<u8>, ptr: u32) -> bool {
        &&& ptr != 0
        &&& ptr + 32 <= m.len()
        &&& bytes_ok(m, m.len() as int, u32_at(m, ptr as int) as int)
        &&& string_ok(m, m.len() as int, u32_at(m, ptr + 12) as int)
        &&& block_ok(m, u32_at(m, ptr + 16) as int)
        &&& transaction_ok(m, u32_at(m, ptr + 20) as int)
        &&& P::readable(m, u32_at(m, ptr + 24))
        &&& receipt_ok(m, u32_at(m, ptr + 28) as int)
    }

    open spec fn decoded(m: Seq<u8>, ptr: u32) -> EventView<P::V> {
        EventView {
            address: address_of(bytes_dec(m, u32_at(m, ptr as int) as int)),
            log_index: u32_at(m, ptr + 4),
            transaction_log_index: u32_at(m, ptr + 8),
            log_type: opt_string(m, u32_at(m, ptr + 12)),
            block: block_dec(m, u32_at(m, ptr + 16) as int),
            transaction: transaction_dec(m, u32_at(m, ptr + 20) as int),
            params: P::decoded(m, u32_at(m, ptr + 24)),
            receipt: opt_receipt(m, u32_at(m, ptr + 28)),
        }
    }

    fn check(mem: &Memory, ptr: u32) -> (ok: bool) {
        let len = mem.size_bytes();
        if ptr == 0 || len < 32 || ptr > len - 32 {
            return false;
        }
        crate::asc::bytes_readable(mem, len, read_u32_at(mem, ptr, 0))
            && crate::asc::string_readable(mem, len, read_u32_at(mem, ptr, 12)) && Block::check(
            mem,
            read_u32_at(mem, ptr, 16),
        ) && Transaction::check(mem, read_u32_at(mem, ptr, 20)) && P::check(
            mem,
            read_u32_at(mem, ptr, 24),
        ) && TransactionReceipt::check(mem, read_u32_at(mem, ptr, 28))
    }

    /// Reads the event at `ptr`. The parameters are read by their own type.
    fn from_asc_ptr(mem: &Memory, ptr: u32) -> (r: Self) {
        let log_type_ptr = read_u32_at(mem, ptr, 12);
        let log_type = if log_type_ptr == 0 {
            None
        } else {
            Some(asc_to_string(mem, AscPtr::new(log_type_ptr)))
        };
        let receipt_ptr = read_u32_at(mem, ptr, 28);
        let receipt = if receipt_ptr == 0 {
            None
        } else {
            Some(TransactionReceipt::from_asc_ptr(mem, receipt_ptr))
        };
        Event {
            address: Address::from_asc_ptr(mem, read_u32_at(mem, ptr, 0)),
            log_index: BigInt::from_asc_ptr(mem, read_u32_at(mem, ptr, 4)),
            transaction_log_index: BigInt::from_asc_ptr(mem, read_u32_at(mem, ptr, 8)),
            log_type,
            block: Block::from_asc_ptr(mem, read_u32_at(mem, ptr, 16)),
            transaction: Transaction::from_asc_ptr(mem, read_u32_at(mem, ptr, 20)),
            params: P::from_asc_ptr(mem, read_u32_at(mem, ptr, 24)),
            receipt,
        }
    }
}


/// A chain value: an argument or a result of a contract function.
#[derive(Debug)]
pub enum Token {
    Address(Address),
    FixedBytes(Vec<u8>),
    Bytes(Bytes),
    Int(BigInt),
    Uint(BigInt),
    Bool(bool),
    String(String),
    Array(Vec<Token>),
    FixedArray(Vec<Token>),
    Tuple(Vec<Token>),
}

/// What a `Token` stands for: bytes and strings by their contents, numbers
/// by their handle.
pub enum TokenView {
    Address(Seq<u8>),
    FixedBytes(Seq<u8>),
    Bytes(Seq<u8>),
    Int(u32),
    Uint(u32),
    Bool(bool),
    String(Seq<char>),
    Array(Seq<TokenView>),
    FixedArray(Seq<TokenView>),
    Tuple(Seq<TokenView>),
}

/// The views of the tokens of `a`, in order.
pub open spec fn token_views(a: Seq<Token>) -> Seq<TokenView> {
    Seq::new(a.len(), |i: int| a[i]@)
}

/// What `t` stands for.
pub open spec fn token_view(t: Token) -> TokenView
    decreases t,
{
    match t {
        Token::Address(a) => TokenView::Address(a@),
        Token::FixedBytes(b) => TokenView::FixedBytes(b@),
        Token::Bytes(b) => TokenView::Bytes(b@),
        Token::Int(b) => TokenView::Int(b@),
        Token::Uint(b) => TokenView::Uint(b@),
        Token::Bool(b) => TokenView::Bool(b),
        Token::String(s) => TokenView::String(s@),
        Token::Array(a) => TokenView::Array(
            Seq::new(
                a@.len(),
                |i: int|
                    if 0 <= i < a@.len() {
                        token_view(a@[i])
                    } else {
                        TokenView::Bool(false)
                    },
            ),
        ),
        Token::FixedArray(a) => TokenView::FixedArray(
            Seq::new(
                a@.len(),
                |i: int|
                    if 0 <= i < a@.len() {
                        token_view(a@[i])
                    } else {
                        TokenView::Bool(false)
                    },
            ),
        ),
        Token::Tuple(a) => TokenView::Tuple(
            Seq::new(
                a@.len(),
                |i: int|
                    if 0 <= i < a@.len() {
                        token_view(a@[i])
                    } else {
                        TokenView::Bool(false)
                    },
            ),
        ),
    }
}

impl View for Token {
    type V = TokenView;

    open spec fn view(&self) -> TokenView {
        token_view(*self)
    }
}

/// The view of a token that holds tokens is the views of those tokens.
pub proof fn lemma_token_list_view(a: Vec<Token>)
    ensures
        Token::Array(a)@ == TokenView::Array(token_views(a@)),
        Token::FixedArray(a)@ == TokenView::FixedArray(token_views(a@)),
        Token::Tuple(a)@ == TokenView::Tuple(token_views(a@)),
{
    let t1 = Token::Array(a);
    assert(t1@ is Array);
    assert(t1@->Array_0 =~= token_views(a@));
    let t2 = Token::FixedArray(a);
    assert(t2@ is FixedArray);
    assert(t2@->FixedArray_0 =~= token_views(a@));
    let t3 = Token::Tuple(a);
    assert(t3@ is Tuple);
    assert(t3@->Tuple_0 =~= token_views(a@));
}

/// Copies of the tokens of `a`, in order.
fn clone_tokens(a: &Vec<Token>) -> (out: Vec<Token>)
    ensures
        token_views(out@) == token_views(a@),
    decreases a,
{
    let mut out: Vec<Token> = Vec::new();
    let mut i: usize = 0;
    while i < a.len()
        invariant
            0 <= i <= a.len(),
            out@.len() == i,
            forall|j: int| 0 <= j < i ==> out@[j]@ == a@[j]@,
        decreases a.len() - i,
    {
        out.push(a[i].clone());
        i = i + 1;
    }
    assert(token_views(out@) =~= token_views(a@));
    out
}

impl Clone for Token {
    fn clone(&self) -> (r: Self)
        ensures
            r@ == self@,
        decreases self,
    {
        match self {
            Token::Address(a) => Token::Address(a.clone()),
            Token::FixedBytes(b) => Token::FixedBytes(b.clone()),
            Token::Bytes(b) => Token::Bytes(b.clone()),
            Token::Int(b) => Token::Int(b.clone()),
            Token::Uint(b) => Token::Uint(b.clone()),
            Token::Bool(b) => Token::Bool(*b),
            Token::String(s) => Token::String(s.clone()),
            Token::Array(a) => {
                let out = clone_tokens(a);
                proof {
                    lemma_token_list_view(out);
                    lemma_token_list_view(*a);
                }
                Token::Array(out)
            },
            Token::FixedArray(a) => {
                let out = clone_tokens(a);
                proof {
                    lemma_token_list_view(out);
                    lemma_token_list_view(*a);
                }
                Token::FixedArray(out)
            },
            Token::Tuple(a) => {
                let out = clone_tokens(a);
                proof {
                    lemma_token_list_view(out);
                    lemma_token_list_view(*a);
                }
                Token::Tuple(out)
            },
        }
    }
}

/// The discriminant of the chain value `v`.
pub open spec fn token_kind(v: TokenView) -> i32 {
    match v {
        TokenView::Address(_) => 0,
        TokenView::FixedBytes(_) => 1,
        TokenView::Bytes(_) => 2,
        TokenView::Int(_) => 3,
        TokenView::Uint(_) => 4,
        TokenView::Bool(_) => 5,
        TokenView::String(_) => 6,
        TokenView::FixedArray(_) => 7,
        TokenView::Array(_) => 8,
        TokenView::Tuple(_) => 9,
    }
}

/// What a chain value must satisfy to be read: null, or a tagged variant
/// inside the first `hi` bytes of memory whose payload, where it is a
/// pointer that is followed, refers to a readable object that lies before
/// the variant.
pub open spec fn token_ok(m: Seq<u8>, hi: int, p: int) -> bool
    decreases p,
{
    p == 0 || {
        &&& 20 <= p
        &&& p + 16 <= hi <= m.len()
        &&& (0 <= enum_kind(m, p) <= 2 ==> bytes_ok(m, p - 20, low32(enum_payload(m, p)) as int))
        &&& (enum_kind(m, p) == 6 ==> string_ok(m, p - 20, low32(enum_payload(m, p)) as int))
        &&& (7 <= enum_kind(m, p) <= 9 ==> low32(enum_payload(m, p)) < p && token_array_ok(
            m,
            p - 20,
            low32(enum_payload(m, p)) as int,
        ))
    }
}

/// What an array of chain values must satisfy to be read: a readable array
/// whose elements are readable values that lie before the array object.
pub open spec fn token_array_ok(m: Seq<u8>, hi: int, a: int) -> bool
    decreases a,
{
    &&& 0 <= a
    &&& array_ok(m, hi, a)
    &&& forall|i: int|
        0 <= i < array_elems(m, a).len() ==> (#[trigger] array_elems(m, a)[i]) < a && token_ok(
            m,
            a - 20,
            array_elems(m, a)[i] as int,
        )
}

/// The chain value that the memory holds at `p`. The null pointer and any
/// unknown discriminant read as the boolean false.
pub open spec fn token_dec(m: Seq<u8>, p: int) -> TokenView
    decreases p,
{
    if p <= 0 {
        TokenView::Bool(false)
    } else {
        let kind = enum_kind(m, p);
        let payload = enum_payload(m, p);
        let q = low32(payload);
        if kind == 0 {
            TokenView::Address(address_of(bytes_dec(m, q as int)))
        } else if kind == 1 {
            TokenView::FixedBytes(bytes_dec(m, q as int))
        } else if kind == 2 {
            TokenView::Bytes(bytes_dec(m, q as int))
        } else if kind == 3 {
            TokenView::Int(q)
        } else if kind == 4 {
            TokenView::Uint(q)
        } else if kind == 5 {
            TokenView::Bool(payload != 0)
        } else if kind == 6 {
            TokenView::String(string_dec(m, q as int))
        } else if kind == 7 {
            TokenView::FixedArray(token_list_dec(m, p, q))
        } else if kind == 8 {
            TokenView::Array(token_list_dec(m, p, q))
        } else if kind == 9 {
            TokenView::Tuple(token_list_dec(m, p, q))
        } else {
            TokenView::Bool(false)
        }
    }
}

/// The chain values of the array at `q`, which the variant at `p` refers to.
pub open spec fn token_list_dec(m: Seq<u8>, p: int, q: u32) -> Seq<TokenView>
    decreases p, 0nat,
{
    if 0 < p && q < p {
        token_array_dec(m, q as int)
    } else {
        Seq::empty()
    }
}

/// The chain values that the array at `a` holds.
pub open spec fn token_array_dec(m: Seq<u8>, a: int) -> Seq<TokenView>
    decreases a, 1nat,
{
    Seq::new(
        array_elems(m, a).len(),
        |i: int|
            if 0 <= i < array_elems(m, a).len() && 0 <= array_elems(m, a)[i] < a {
                token_dec(m, array_elems(m, a)[i] as int)
            } else {
                TokenView::Bool(false)
            },
    )
}

/// The memory holds at `p` the chain value `v`: a tagged variant of the
/// chain-value class with the kind of `v`, and as payload the inlined
/// boolean, the handle of the number, or the pointer to the bytes, the
/// string or the array, each written before the variant. An address is
/// twenty bytes.
pub open spec fn is_token(m: Seq<u8>, p: int, v: TokenView) -> bool
    decreases v,
{
    let payload = enum_payload(m, p);
    &&& is_enum(m, p, ETHEREUM_VALUE, token_kind(v), payload)
    &&& payload <= u32::MAX
    &&& match v {
        TokenView::Address(b) => b.len() == 20 && is_bytes(m, payload as int, b) && payload
            + b.len() <= p - 20,
        TokenView::FixedBytes(b) => is_bytes(m, payload as int, b) && payload + b.len() <= p - 20,
        TokenView::Bytes(b) => is_bytes(m, payload as int, b) && payload + b.len() <= p - 20,
        TokenView::Int(h) => payload == h,
        TokenView::Uint(h) => payload == h,
        TokenView::Bool(b) => payload == if b {
            1u64
        } else {
            0u64
        },
        TokenView::String(s) => is_string(m, payload as int, s) && payload + 2 * utf16_encode(
            s,
        ).len() <= p - 20,
        TokenView::FixedArray(a) => is_token_array(m, payload as int, a) && payload + 16 <= p - 20,
        TokenView::Array(a) => is_token_array(m, payload as int, a) && payload + 16 <= p - 20,
        TokenView::Tuple(a) => is_token_array(m, payload as int, a) && payload + 16 <= p - 20,
    }
}

/// The memory holds at `a` an array of the chain values `vs`: an array of
/// the chain-value-array class whose elements point to the values, each
/// written before the buffer of the array.
pub open spec fn is_token_array(m: Seq<u8>, a: int, vs: Seq<TokenView>) -> bool
    decreases vs,
{
    &&& is_array(m, a, ARRAY_ETHEREUM_VALUE, array_elems(m, a))
    &&& array_elems(m, a).len() == vs.len()
    &&& forall|i: int|
        0 <= i < vs.len() ==> is_token(m, (#[trigger] array_elems(m, a)[i]) as int, vs[i])
            && array_elems(m, a)[i] + 16 <= array_buffer(m, a) - 20
}

/// The heap bytes that the chain value `v` takes.
pub open spec fn token_footprint(v: TokenView) -> int
    decreases v, 0nat,
{
    match v {
        TokenView::Address(b) => bytes_footprint(b.len() as int) + 40,
        TokenView::FixedBytes(b) => bytes_footprint(b.len() as int) + 40,
        TokenView::Bytes(b) => bytes_footprint(b.len() as int) + 40,
        TokenView::String(s) => string_footprint(s) + 40,
        TokenView::FixedArray(a) => token_array_footprint(a) + 40,
        TokenView::Array(a) => token_array_footprint(a) + 40,
        TokenView::Tuple(a) => token_array_footprint(a) + 40,
        _ => 40,
    }
}

/// The heap bytes that an array of the chain values `vs` takes.
pub open spec fn token_array_footprint(vs: Seq<TokenView>) -> int
    decreases vs, vs.len() + 1,
{
    tokens_footprint(vs, vs.len()) + array_span(vs.len() as int)
}

/// The heap bytes that the first `n` values of `vs` take.
pub open spec fn tokens_footprint(vs: Seq<TokenView>, n: nat) -> int
    decreases vs, n,
{
    if n == 0 || n > vs.len() {
        0
    } else {
        tokens_footprint(vs, (n - 1) as nat) + token_footprint(vs[n - 1])
    }
}

/// The footprint of a chain value is at least that of its variant.
pub proof fn lemma_token_footprint_positive(v: TokenView)
    ensures
        token_footprint(v) >= 40,
    decreases v, 0nat,
{
    match v {
        TokenView::FixedArray(a) => {
            lemma_tokens_monotonic(a, 0, a.len());
        },
        TokenView::Array(a) => {
            lemma_tokens_monotonic(a, 0, a.len());
        },
        TokenView::Tuple(a) => {
            lemma_tokens_monotonic(a, 0, a.len());
        },
        _ => {},
    }
}

/// The footprint of a prefix is at most that of a longer prefix.
pub proof fn lemma_tokens_monotonic(vs: Seq<TokenView>, i: nat, j: nat)
    requires
        i <= j <= vs.len(),
    ensures
        0 <= tokens_footprint(vs, i) <= tokens_footprint(vs, j),
        i < j ==> tokens_footprint(vs, i) + token_footprint(vs[i as int]) <= tokens_footprint(
            vs,
            j,
        ),
    decreases vs, j,
{
    if j == 0 {
    } else if i == j {
        lemma_tokens_monotonic(vs, 0, (j - 1) as nat);
        lemma_token_footprint_positive(vs[j - 1]);
    } else {
        lemma_tokens_monotonic(vs, i, (j - 1) as nat);
        lemma_token_footprint_positive(vs[j - 1]);
    }
}

/// A chain value is not affected by changes above it.
pub proof fn lemma_token_frame(x: Seq<u8>, y: Seq<u8>, hi: int, p: int, v: TokenView)
    requires
        is_token(x, p, v),
        same_below(x, y, hi),
        p + 16 <= hi,
    ensures
        is_token(y, p, v),
    decreases v,
{
    let payload = enum_payload(x, p);
    lemma_enum_frame(x, y, hi, p, ETHEREUM_VALUE, token_kind(v), payload);
    match v {
        TokenView::Address(b) => {
            lemma_bytes_frame(x, y, hi, payload as int, b);
        },
        TokenView::FixedBytes(b) => {
            lemma_bytes_frame(x, y, hi, payload as int, b);
        },
        TokenView::Bytes(b) => {
            lemma_bytes_frame(x, y, hi, payload as int, b);
        },
        TokenView::String(s) => {
            lemma_string_frame(x, y, hi, payload as int, s);
        },
        TokenView::FixedArray(a) => {
            lemma_token_array_frame(x, y, hi, payload as int, a);
        },
        TokenView::Array(a) => {
            lemma_token_array_frame(x, y, hi, payload as int, a);
        },
        TokenView::Tuple(a) => {
            lemma_token_array_frame(x, y, hi, payload as int, a);
        },
        _ => {},
    }
}

/// An array of chain values is not affected by changes above it.
pub proof fn lemma_token_array_frame(x: Seq<u8>, y: Seq<u8>, hi: int, a: int, vs: Seq<TokenView>)
    requires
        is_token_array(x, a, vs),
        same_below(x, y, hi),
        a + 16 <= hi,
    ensures
        is_token_array(y, a, vs),
        array_elems(y, a) == array_elems(x, a),
    decreases vs,
{
    let e = array_elems(x, a);
    lemma_array_frame(x, y, hi, a, ARRAY_ETHEREUM_VALUE, e);
    lemma_array_round_trip(x, a, ARRAY_ETHEREUM_VALUE, e);
    lemma_array_round_trip(y, a, ARRAY_ETHEREUM_VALUE, e);
    assert(array_buffer(y, a) == array_buffer(x, a)) by {
        crate::memory::lemma_same_u32(x, y, a);
    }
    assert forall|i: int| 0 <= i < vs.len() implies is_token(
        y,
        (#[trigger] array_elems(y, a)[i]) as int,
        vs[i],
    ) && array_elems(y, a)[i] + 16 <= array_buffer(y, a) - 20 by {
        assert(is_token(x, e[i] as int, vs[i]));
        lemma_token_frame(x, y, hi, e[i] as int, vs[i]);
    }
}

/// A pointer kept in a payload is read back from its low half.
proof fn lemma_low32(h: u32)
    ensures
        low32(h as u64) == h,
{
}

/// An address of twenty bytes is the address of its bytes.
proof fn lemma_address_of_20(b: Seq<u8>)
    requires
        b.len() == 20,
    ensures
        address_of(b) == b,
{
    assert(address_of(b) =~= b);
}

/// Chain value round trip: a chain value that was written is read back
/// unchanged.
#[verifier::rlimit(100)]
pub proof fn lemma_token_round_trip(m: Seq<u8>, p: int, v: TokenView)
    requires
        is_token(m, p, v),
    ensures
        p != 0,
        token_ok(m, p + 16, p),
        token_ok(m, m.len() as int, p),
        token_dec(m, p) == v,
    decreases v,
{
    let payload = enum_payload(m, p);
    let kind = enum_kind(m, p);
    assert(20 <= p && p + 16 <= m.len());
    assert(kind == token_kind(v));
    lemma_low32(payload as u32);
    match v {
        TokenView::Address(b) => {
            lemma_bytes_round_trip(m, payload as int, b);
            lemma_address_of_20(b);
        },
        TokenView::FixedBytes(b) => {
            lemma_bytes_round_trip(m, payload as int, b);
        },
        TokenView::Bytes(b) => {
            lemma_bytes_round_trip(m, payload as int, b);
        },
        TokenView::Int(h) => {},
        TokenView::Uint(h) => {},
        TokenView::Bool(b) => {},
        TokenView::String(s) => {
            lemma_string_round_trip(m, payload as int, s);
        },
        TokenView::FixedArray(a) => {
            lemma_token_array_round_trip(m, payload as int, a);
            lemma_token_array_ok_widen(m, payload + 16, p - 20, payload as int);
        },
        TokenView::Array(a) => {
            lemma_token_array_round_trip(m, payload as int, a);
            lemma_token_array_ok_widen(m, payload + 16, p - 20, payload as int);
        },
        TokenView::Tuple(a) => {
            lemma_token_array_round_trip(m, payload as int, a);
            lemma_token_array_ok_widen(m, payload + 16, p - 20, payload as int);
        },
    }
}

/// Array round trip: an array of chain values that was written is read back
/// with the same values, in the same number.
pub proof fn lemma_token_array_round_trip(m: Seq<u8>, a: int, vs: Seq<TokenView>)
    requires
        is_token_array(m, a, vs),
    ensures
        a != 0,
        token_array_ok(m, a + 16, a),
        token_array_ok(m, m.len() as int, a),
        token_array_dec(m, a) == vs,
        token_array_dec(m, a).len() == vs.len(),
    decreases vs,
{
    let e = array_elems(m, a);
    lemma_array_round_trip(m, a, ARRAY_ETHEREUM_VALUE, e);
    assert forall|i: int| 0 <= i < e.len() implies (#[trigger] e[i]) < a && token_ok(
        m,
        a - 20,
        e[i] as int,
    ) && token_dec(m, e[i] as int) == vs[i] by {
        assert(is_token(m, e[i] as int, vs[i]));
        lemma_token_round_trip(m, e[i] as int, vs[i]);
    }
    assert(token_array_dec(m, a) =~= vs);
}

/// A readable array of chain values stays readable when more of the memory
/// is considered.
pub proof fn lemma_token_array_ok_widen(m: Seq<u8>, hi: int, hi2: int, a: int)
    requires
        token_array_ok(m, hi, a),
        hi <= hi2 <= m.len(),
    ensures
        token_array_ok(m, hi2, a),
{
}

/// Null tolerance: the null pointer can always be read. A null chain value
/// reads as the boolean false, a null array as no values, a null record as
/// a record of null fields, and a null optional field as absent.
pub proof fn lemma_null_chain_reads(m: Seq<u8>, hi: int)
    ensures
        token_ok(m, hi, 0),
        token_dec(m, 0) == TokenView::Bool(false),
        token_array_ok(m, hi, 0),
        token_array_dec(m, 0) == Seq::<TokenView>::empty(),
        block_ok(m, 0),
        block_dec(m, 0).size is None,
        block_dec(m, 0).base_fee_per_gas is None,
        block_dec(m, 0).hash == Seq::<u8>::empty(),
        block_dec(m, 0).number == 0,
        transaction_ok(m, 0),
        transaction_dec(m, 0).to is None,
        receipt_ok(m, 0),
        receipt_dec(m, 0).contract_address is None,
        opt_handle(0) is None,
        opt_address(m, 0) is None,
        opt_string(m, 0) is None,
        opt_receipt(m, 0) is None,
{
    assert(token_array_dec(m, 0) =~= Seq::<TokenView>::empty());
}

/// Writes a chain value that refers to a byte buffer.
#[verifier::rlimit(100)]
fn serialize_bytes_token(mem: &mut Memory, kind: i32, data: &[u8]) -> (p: u32)
    requires
        old(mem).wf(),
        0 <= kind <= 2,
        old(mem).cursor() + bytes_footprint(data@.len() as int) + 40 <= old(mem).page_limit()
            * 65536,
    ensures
        extends(old(mem), final(mem), bytes_footprint(data@.len() as int) + 40),
        is_enum(final(mem)@, p as int, ETHEREUM_VALUE, kind, enum_payload(final(mem)@, p as int)),
        enum_payload(final(mem)@, p as int) <= u32::MAX,
        is_bytes(final(mem)@, enum_payload(final(mem)@, p as int) as int, data@),
        enum_payload(final(mem)@, p as int) + data@.len() <= p - 20,
        p + 20 == final(mem).cursor(),
{
    proof {
        mem.lemma_bounds();
    }
    let child = bytes_to_asc(mem, data);
    let ghost mid = *mem;
    proof {
        lemma_extends(old(mem), &mid, bytes_footprint(data@.len() as int));
        mid.lemma_bounds();
    }
    let p = write_enum(mem, ETHEREUM_VALUE, kind, child.as_raw() as u64);
    proof {
        lemma_extends(&mid, mem, 40);
        lemma_extends_trans(old(mem), &mid, mem, bytes_footprint(data@.len() as int), 40);
        lemma_bytes_frame(mid@, mem@, mid.cursor(), child@ as int, data@);
    }
    p
}

/// Writes a chain value that refers to an array of chain values.
#[verifier::rlimit(100)]
fn serialize_list_token(mem: &mut Memory, kind: i32, tokens: &Vec<Token>) -> (p: u32)
    requires
        old(mem).wf(),
        7 <= kind <= 9,
        old(mem).cursor() + token_array_footprint(token_views(tokens@)) + 40 <= old(
            mem,
        ).page_limit() * 65536,
    ensures
        extends(old(mem), final(mem), token_array_footprint(token_views(tokens@)) + 40),
        is_enum(final(mem)@, p as int, ETHEREUM_VALUE, kind, enum_payload(final(mem)@, p as int)),
        enum_payload(final(mem)@, p as int) <= u32::MAX,
        is_token_array(
            final(mem)@,
            enum_payload(final(mem)@, p as int) as int,
            token_views(tokens@),
        ),
        enum_payload(final(mem)@, p as int) + 16 <= p - 20,
        p + 20 == final(mem).cursor(),
    decreases tokens, 1nat,
{
    proof {
        mem.lemma_bounds();
    }
    let child = serialize_token_array(mem, tokens);
    let ghost mid = *mem;
    let ghost span = token_array_footprint(token_views(tokens@));
    proof {
        lemma_extends(old(mem), &mid, span);
        mid.lemma_bounds();
    }
    let p = write_enum(mem, ETHEREUM_VALUE, kind, child as u64);
    proof {
        lemma_extends(&mid, mem, 40);
        lemma_tokens_monotonic(token_views(tokens@), 0, tokens@.len());
        lemma_extends_trans(old(mem), &mid, mem, span, 40);
        lemma_token_array_frame(mid@, mem@, mid.cursor(), child as int, token_views(tokens@));
    }
    p
}

/// Writes `token` into fresh heap as a tagged variant and returns the
/// pointer to it. What the token refers to is written first.
#[verifier::rlimit(100)]
pub fn serialize_token(mem: &mut Memory, token: &Token) -> (p: u32)
    requires
        old(mem).wf(),
        old(mem).cursor() + token_footprint(token@) <= old(mem).page_limit() * 65536,
    ensures
        extends(old(mem), final(mem), token_footprint(token@)),
        is_token(final(mem)@, p as int, token@),
        p + 20 == final(mem).cursor(),
    decreases token,
{
    proof {
        mem.lemma_bounds();
    }
    match token {
        Token::Address(addr) => serialize_bytes_token(mem, 0, addr.as_bytes()),
        Token::FixedBytes(bytes) => serialize_bytes_token(mem, 1, bytes.as_slice()),
        Token::Bytes(bytes) => serialize_bytes_token(mem, 2, bytes.as_slice()),
        Token::Int(bigint) => {
            let p = write_enum(mem, ETHEREUM_VALUE, 3, bigint.as_ptr().as_raw() as u64);
            proof {
                lemma_extends(old(mem), mem, 40);
            }
            p
        },
        Token::Uint(bigint) => {
            let p = write_enum(mem, ETHEREUM_VALUE, 4, bigint.as_ptr().as_raw() as u64);
            proof {
                lemma_extends(old(mem), mem, 40);
            }
            p
        },
        Token::Bool(b) => {
            let p = write_enum(
                mem,
                ETHEREUM_VALUE,
                5,
                if *b {
                    1
                } else {
                    0
                },
            );
            proof {
                lemma_extends(old(mem), mem, 40);
            }
            p
        },
        Token::String(s) => {
            let child = str_to_asc(mem, s.as_str());
            let ghost mid = *mem;
            proof {
                lemma_extends(old(mem), &mid, string_footprint(s@));
                mid.lemma_bounds();
            }
            let p = write_enum(mem, ETHEREUM_VALUE, 6, child.as_raw() as u64);
            proof {
                lemma_extends(&mid, mem, 40);
                lemma_extends_trans(old(mem), &mid, mem, string_footprint(s@), 40);
                lemma_string_frame(mid@, mem@, mid.cursor(), child@ as int, s@);
            }
            p
        },
        Token::FixedArray(arr) => {
            proof {
                lemma_token_list_view(*arr);
            }
            serialize_list_token(mem, 7, arr)
        },
        Token::Array(arr) => {
            proof {
                lemma_token_list_view(*arr);
            }
            serialize_list_token(mem, 8, arr)
        },
        Token::Tuple(arr) => {
            proof {
                lemma_token_list_view(*arr);
            }
            serialize_list_token(mem, 9, arr)
        },
    }
}

/// Writes `tokens` into fresh heap as an array of chain values: the values
/// first, in order, then the buffer with the pointers to them, then the
/// array object. Returns the pointer to the array object.
#[verifier::rlimit(100)]
pub fn serialize_token_array(mem: &mut Memory, tokens: &Vec<Token>) -> (a: u32)
    requires
        old(mem).wf(),
        old(mem).cursor() + token_array_footprint(token_views(tokens@)) <= old(mem).page_limit()
            * 65536,
    ensures
        extends(old(mem), final(mem), token_array_footprint(token_views(tokens@))),
        is_token_array(final(mem)@, a as int, token_views(tokens@)),
        a + 20 == final(mem).cursor(),
    decreases tokens, 0nat,
{
    let ghost vs = token_views(tokens@);
    let n = tokens.len();
    let mut ptrs: Vec<u32> = Vec::new();
    let mut i: usize = 0;
    ensure_heap_initialised(mem);
    proof {
        lemma_extends(old(mem), mem, 0);
    }
    while i < n
        invariant
            0 <= i <= n,
            n == tokens@.len(),
            vs == token_views(tokens@),
            old(mem).wf(),
            mem.wf(),
            extends(old(mem), mem, tokens_footprint(vs, i as nat)),
            old(mem).cursor() + tokens_footprint(vs, n as nat) + array_span(n as int) <= old(
                mem,
            ).page_limit() * 65536,
            ptrs@.len() == i,
            forall|j: int|
                0 <= j < i ==> is_token(mem@, (#[trigger] ptrs@[j]) as int, vs[j]) && ptrs@[j] + 20
                    <= mem.cursor(),
        decreases n - i,
    {
        let ghost before = *mem;
        proof {
            lemma_extends(old(mem), mem, tokens_footprint(vs, i as nat));
            lemma_tokens_monotonic(vs, i as nat, n as nat);
            mem.lemma_bounds();
            assert(vs[i as int] == tokens@[i as int]@);
        }
        let p = serialize_token(mem, &tokens[i]);
        proof {
            lemma_extends(&before, mem, token_footprint(vs[i as int]));
            lemma_token_footprint_positive(vs[i as int]);
            lemma_tokens_monotonic(vs, 0, i as nat);
            lemma_extends_trans(
                old(mem),
                &before,
                mem,
                tokens_footprint(vs, i as nat),
                token_footprint(vs[i as int]),
            );
            assert forall|j: int| 0 <= j < i implies is_token(
                mem@,
                (#[trigger] ptrs@[j]) as int,
                vs[j],
            ) && ptrs@[j] + 20 <= mem.cursor() by {
                lemma_token_frame(before@, mem@, before.cursor(), ptrs@[j] as int, vs[j]);
            }
        }
        ptrs.push(p);
        i = i + 1;
    }
    let ghost filled = *mem;
    proof {
        lemma_extends(old(mem), mem, tokens_footprint(vs, n as nat));
        lemma_tokens_monotonic(vs, 0, n as nat);
        mem.lemma_bounds();
    }
    let a = write_array(mem, &ptrs, ARRAY_ETHEREUM_VALUE);
    proof {
        lemma_extends(&filled, mem, array_span(n as int));
        lemma_extends_trans(
            old(mem),
            &filled,
            mem,
            tokens_footprint(vs, n as nat),
            array_span(n as int),
        );
        lemma_array_round_trip(mem@, a as int, ARRAY_ETHEREUM_VALUE, ptrs@);
        assert forall|j: int| 0 <= j < vs.len() implies is_token(
            mem@,
            (#[trigger] array_elems(mem@, a as int)[j]) as int,
            vs[j],
        ) && array_elems(mem@, a as int)[j] + 16 <= array_buffer(mem@, a as int) - 20 by {
            assert(is_token(filled@, ptrs@[j] as int, vs[j]));
            lemma_token_frame(filled@, mem@, filled.cursor(), ptrs@[j] as int, vs[j]);
        }
    }
    a
}

/// Reads the chain value at `ptr`. The null pointer and any unknown kind
/// read as the boolean false.
pub fn deserialize_token(mem: &Memory, ptr: u32) -> (t: Token)
    requires
        mem.wf(),
        token_ok(mem@, mem@.len() as int, ptr as int),
    ensures
        t@ == token_dec(mem@, ptr as int),
    decreases ptr,
{
    if ptr == 0 {
        return Token::Bool(false);
    }
    proof {
        mem.lemma_bounds();
    }
    let header = crate::shapes::read_enum_header(mem, ptr);
    let payload = header.payload;
    let q = payload_ptr(payload);
    match header.kind {
        0 => Token::Address(Address::from_slice(asc_to_bytes(mem, AscPtr::new(q)).as_slice())),
        1 => Token::FixedBytes(asc_to_bytes(mem, AscPtr::new(q))),
        2 => Token::Bytes(Bytes::from_vec(asc_to_bytes(mem, AscPtr::new(q)))),
        3 => Token::Int(BigInt::from_ptr(AscPtr::new(q))),
        4 => Token::Uint(BigInt::from_ptr(AscPtr::new(q))),
        5 => Token::Bool(payload != 0),
        6 => Token::String(asc_to_string(mem, AscPtr::new(q))),
        7 => {
            let arr = deserialize_token_array(mem, q);
            proof {
                lemma_token_list_view(arr);
            }
            Token::FixedArray(arr)
        },
        8 => {
            let arr = deserialize_token_array(mem, q);
            proof {
                lemma_token_list_view(arr);
            }
            Token::Array(arr)
        },
        9 => {
            let arr = deserialize_token_array(mem, q);
            proof {
                lemma_token_list_view(arr);
            }
            Token::Tuple(arr)
        },
        _ => Token::Bool(false),
    }
}

/// Reads the array of chain values at `ptr`. The null pointer reads as no
/// values.
pub fn deserialize_token_array(mem: &Memory, ptr: u32) -> (tokens: Vec<Token>)
    requires
        mem.wf(),
        token_array_ok(mem@, mem@.len() as int, ptr as int),
    ensures
        token_views(tokens@) == token_array_dec(mem@, ptr as int),
    decreases ptr,
{
    let elems = read_array(mem, ptr);
    let mut tokens: Vec<Token> = Vec::new();
    let mut i: usize = 0;
    while i < elems.len()
        invariant
            0 <= i <= elems@.len(),
            mem.wf(),
            elems@ == array_elems(mem@, ptr as int),
            token_array_ok(mem@, mem@.len() as int, ptr as int),
            tokens@.len() == i,
            forall|j: int|
                0 <= j < i ==> (#[trigger] tokens@[j])@ == token_dec(mem@, elems@[j] as int),
        decreases elems@.len() - i,
    {
        let e = elems[i];
        proof {
            assert(e == array_elems(mem@, ptr as int)[i as int]);
            assert(token_ok(mem@, ptr - 20, e as int));
            mem.lemma_bounds();
        }
        let t = deserialize_token(mem, e);
        tokens.push(t);
        i = i + 1;
    }
    assert(token_views(tokens@) =~= token_array_dec(mem@, ptr as int));
    tokens
}

/// A call of a contract function.
#[derive(Debug)]
pub struct SmartContractCall {
    pub contract_name: String,
    pub contract_address: Address,
    pub function_name: String,
    pub function_signature: String,
    pub function_params: Vec<Token>,
}

/// The heap bytes that the record of `call` and what it refers to take.
pub open spec fn call_footprint(call: &SmartContractCall) -> int {
    string_footprint(call.contract_name@) + 40 + string_footprint(call.function_name@)
        + string_footprint(call.function_signature@) + token_array_footprint(
        token_views(call.function_params@),
    ) + 40
}

/// The memory holds at `p` the record of `call`: an object of the call
/// class with five fields that point to the contract name, the twenty bytes
/// of the contract address, the function name, the function signature and
/// the array of the arguments.
pub open spec fn is_call(m: Seq<u8>, p: int, call: &SmartContractCall) -> bool {
    &&& managed(m, p, SMART_CONTRACT_CALL, 20)
    &&& is_string(m, u32_at(m, p) as int, call.contract_name@)
    &&& is_bytes(m, u32_at(m, p + 4) as int, call.contract_address@)
    &&& is_string(m, u32_at(m, p + 8) as int, call.function_name@)
    &&& is_string(m, u32_at(m, p + 12) as int, call.function_signature@)
    &&& is_token_array(m, u32_at(m, p + 16) as int, token_views(call.function_params@))
}

/// The memory holds, below `hi`, the contract name of `call` at `n`, its
/// contract address at `a`, its function name at `f` and its function
/// signature at `s`.
#[verifier::opaque]
pub open spec fn call_parts(
    m: Seq<u8>,
    hi: int,
    n: u32,
    a: u32,
    f: u32,
    s: u32,
    call: &SmartContractCall,
) -> bool {
    &&& is_string(m, n as int, call.contract_name@)
    &&& n + 2 * utf16_encode(call.contract_name@).len() <= hi
    &&& is_bytes(m, a as int, call.contract_address@)
    &&& a + 20 <= hi
    &&& is_string(m, f as int, call.function_name@)
    &&& f + 2 * utf16_encode(call.function_name@).len() <= hi
    &&& is_string(m, s as int, call.function_signature@)
    &&& s + 2 * utf16_encode(call.function_signature@).len() <= hi
}

/// The parts of a call are not affected by changes above them.
proof fn lemma_call_parts_frame(
    x: Seq<u8>,
    y: Seq<u8>,
    hi: int,
    n: u32,
    a: u32,
    f: u32,
    s: u32,
    call: &SmartContractCall,
)
    requires
        call_parts(x, hi, n, a, f, s, call),
        same_below(x, y, hi),
    ensures
        call_parts(y, hi, n, a, f, s, call),
{
    reveal(call_parts);
    lemma_string_frame(x, y, hi, n as int, call.contract_name@);
    lemma_bytes_frame(x, y, hi, a as int, call.contract_address@);
    lemma_string_frame(x, y, hi, f as int, call.function_name@);
    lemma_string_frame(x, y, hi, s as int, call.function_signature@);
}

/// The heap bytes that the strings and the address of `call` take.
pub open spec fn call_parts_footprint(call: &SmartContractCall) -> int {
    string_footprint(call.contract_name@) + 40 + string_footprint(call.function_name@)
        + string_footprint(call.function_signature@)
}

/// Writes the contract name and the contract address of a call.
fn write_call_target(mem: &mut Memory, call_data: &SmartContractCall) -> (r: (u32, u32))
    requires
        old(mem).wf(),
        old(mem).cursor() + string_footprint(call_data.contract_name@) + 40 <= old(
            mem,
        ).page_limit() * 65536,
    ensures
        extends(old(mem), final(mem), string_footprint(call_data.contract_name@) + 40),
        is_string(final(mem)@, r.0 as int, call_data.contract_name@),
        r.0 + 2 * utf16_encode(call_data.contract_name@).len() <= final(mem).cursor(),
        is_bytes(final(mem)@, r.1 as int, call_data.contract_address@),
        r.1 + 20 <= final(mem).cursor(),
{
    let ghost f1 = string_footprint(call_data.contract_name@);
    proof {
        mem.lemma_bounds();
    }
    let name_ptr = str_to_asc(mem, call_data.contract_name.as_str());
    let ghost m1 = *mem;
    proof {
        lemma_extends(old(mem), &m1, f1);
        m1.lemma_bounds();
    }
    let address_ptr = bytes_to_asc(mem, call_data.contract_address.as_bytes());
    proof {
        lemma_extends(&m1, mem, 40);
        lemma_extends_trans(old(mem), &m1, mem, f1, 40);
        lemma_string_frame(m1@, mem@, m1.cursor(), name_ptr@ as int, call_data.contract_name@);
    }
    (name_ptr.as_raw(), address_ptr.as_raw())
}

/// Writes the function name and the function signature of a call.
fn write_call_function(mem: &mut Memory, call_data: &SmartContractCall) -> (r: (u32, u32))
    requires
        old(mem).wf(),
        old(mem).cursor() + string_footprint(call_data.function_name@) + string_footprint(
            call_data.function_signature@,
        ) <= old(mem).page_limit() * 65536,
    ensures
        extends(
            old(mem),
            final(mem),
            string_footprint(call_data.function_name@) + string_footprint(
                call_data.function_signature@,
            ),
        ),
        is_string(final(mem)@, r.0 as int, call_data.function_name@),
        r.0 + 2 * utf16_encode(call_data.function_name@).len() <= final(mem).cursor(),
        is_string(final(mem)@, r.1 as int, call_data.function_signature@),
        r.1 + 2 * utf16_encode(call_data.function_signature@).len() <= final(mem).cursor(),
{
    let ghost f3 = string_footprint(call_data.function_name@);
    let ghost f4 = string_footprint(call_data.function_signature@);
    proof {
        mem.lemma_bounds();
    }
    let function_ptr = str_to_asc(mem, call_data.function_name.as_str());
    let ghost m1 = *mem;
    proof {
        lemma_extends(old(mem), &m1, f3);
        m1.lemma_bounds();
    }
    let signature_ptr = str_to_asc(mem, call_data.function_signature.as_str());
    proof {
        lemma_extends(&m1, mem, f4);
        lemma_extends_trans(old(mem), &m1, mem, f3, f4);
        lemma_string_frame(m1@, mem@, m1.cursor(), function_ptr@ as int, call_data.function_name@);
    }
    (function_ptr.as_raw(), signature_ptr.as_raw())
}

/// Writes the strings and the address of a call.
fn write_call_parts(mem: &mut Memory, call_data: &SmartContractCall) -> (r: (u32, u32, u32, u32))
    requires
        old(mem).wf(),
        old(mem).cursor() + call_parts_footprint(call_data) <= old(mem).page_limit() * 65536,
    ensures
        extends(old(mem), final(mem), call_parts_footprint(call_data)),
        call_parts(final(mem)@, final(mem).cursor(), r.0, r.1, r.2, r.3, call_data),
{
    let ghost f12 = string_footprint(call_data.contract_name@) + 40;
    let ghost f34 = string_footprint(call_data.function_name@) + string_footprint(
        call_data.function_signature@,
    );
    proof {
        mem.lemma_bounds();
    }
    let target = write_call_target(mem, call_data);
    let ghost m1 = *mem;
    proof {
        lemma_extends(old(mem), &m1, f12);
        m1.lemma_bounds();
    }
    let function = write_call_function(mem, call_data);
    proof {
        lemma_extends(&m1, mem, f34);
        lemma_extends_trans(old(mem), &m1, mem, f12, f34);
        lemma_string_frame(m1@, mem@, m1.cursor(), target.0 as int, call_data.contract_name@);
        lemma_bytes_frame(m1@, mem@, m1.cursor(), target.1 as int, call_data.contract_address@);
        reveal(call_parts);
    }
    (target.0, target.1, function.0, function.1)
}

/// Writes what the record of a call refers to: the strings, the address
/// and the array of the arguments.
fn write_call_children(mem: &mut Memory, call_data: &SmartContractCall) -> (r: (
    u32,
    u32,
    u32,
    u32,
    u32,
))
    requires
        old(mem).wf(),
        old(mem).cursor() + call_footprint(call_data) <= old(mem).page_limit() * 65536,
    ensures
        extends(old(mem), final(mem), call_footprint(call_data) - 40),
        call_parts(final(mem)@, final(mem).cursor(), r.0, r.1, r.2, r.3, call_data),
        is_token_array(final(mem)@, r.4 as int, token_views(call_data.function_params@)),
        r.4 + 20 == final(mem).cursor(),
{
    let ghost f14 = call_parts_footprint(call_data);
    let ghost vs = token_views(call_data.function_params@);
    let ghost f5 = token_array_footprint(vs);
    proof {
        mem.lemma_bounds();
        lemma_tokens_monotonic(vs, 0, vs.len());
    }
    let parts = write_call_parts(mem, call_data);
    let ghost m4 = *mem;
    proof {
        lemma_extends(old(mem), &m4, f14);
        m4.lemma_bounds();
    }
    let params_ptr = serialize_token_array(mem, &call_data.function_params);
    proof {
        lemma_extends(&m4, mem, f5);
        lemma_extends_trans(old(mem), &m4, mem, f14, f5);
        let (n, a, f, s) = parts;
        lemma_call_parts_frame(m4@, mem@, m4.cursor(), n, a, f, s, call_data);
        lemma_call_parts_widen(mem@, m4.cursor(), mem.cursor(), n, a, f, s, call_data);
    }
    (parts.0, parts.1, parts.2, parts.3, params_ptr)
}

/// Parts that lie below `hi` lie below any higher bound.
proof fn lemma_call_parts_widen(
    m: Seq<u8>,
    hi: int,
    hi2: int,
    n: u32,
    a: u32,
    f: u32,
    s: u32,
    call: &SmartContractCall,
)
    requires
        call_parts(m, hi, n, a, f, s, call),
        hi <= hi2,
    ensures
        call_parts(m, hi2, n, a, f, s, call),
{
    reveal(call_parts);
}

/// A record written above the parts of a call, with five fields that point
/// to them, is the record of that call.
proof fn lemma_is_call(
    before: Seq<u8>,
    m: Seq<u8>,
    hi: int,
    p: int,
    n: u32,
    a: u32,
    f: u32,
    s: u32,
    t: u32,
    call: &SmartContractCall,
)
    requires
        call_parts(before, hi, n, a, f, s, call),
        is_token_array(before, t as int, token_views(call.function_params@)),
        t + 16 <= hi,
        same_below(before, m, hi),
        is_object(m, p, SMART_CONTRACT_CALL, seq![n, a, f, s, t]),
    ensures
        is_call(m, p, call),
{
    lemma_call_parts_frame(before, m, hi, n, a, f, s, call);
    lemma_token_array_frame(before, m, hi, t as int, token_views(call.function_params@));
    reveal(call_parts);
    let fields = seq![n, a, f, s, t];
    assert(u32_at(m, p + 4 * 0) == fields[0]);
    assert(u32_at(m, p + 4 * 1) == fields[1]);
    assert(u32_at(m, p + 4 * 2) == fields[2]);
    assert(u32_at(m, p + 4 * 3) == fields[3]);
    assert(u32_at(m, p + 4 * 4) == fields[4]);
}

/// Writes the record of `call_data` and what it refers to into fresh heap
/// and returns the pointer to the record.
#[verifier::rlimit(100)]
fn write_call(mem: &mut Memory, call_data: &SmartContractCall) -> (p: u32)
    requires
        old(mem).wf(),
        old(mem).cursor() + call_footprint(call_data) <= old(mem).page_limit() * 65536,
    ensures
        extends(old(mem), final(mem), call_footprint(call_data)),
        is_call(final(mem)@, p as int, call_data),
{
    let ghost span = call_footprint(call_data) - 40;
    let r = write_call_children(mem, call_data);
    let ghost m5 = *mem;
    proof {
        lemma_extends(old(mem), &m5, span);
        lemma_tokens_monotonic(
            token_views(call_data.function_params@),
            0,
            call_data.function_params@.len(),
        );
        m5.lemma_bounds();
    }
    let mut fields: Vec<u32> = Vec::new();
    fields.push(r.0);
    fields.push(r.1);
    fields.push(r.2);
    fields.push(r.3);
    fields.push(r.4);
    assert(fields@ =~= seq![r.0, r.1, r.2, r.3, r.4]);
    let p = write_object(mem, SMART_CONTRACT_CALL, &fields);
    proof {
        lemma_extends(&m5, mem, 40);
        lemma_extends_trans(old(mem), &m5, mem, span, 40);
        lemma_is_call(m5@, mem@, m5.cursor(), p as int, r.0, r.1, r.2, r.3, r.4, call_data);
    }
    p
}

/// Writes the record of `call_data` and what it refers to into fresh heap
/// and asks the host to make the call. The reply goes to `call_reply`.
pub fn call(mem: &mut Memory, call_data: &SmartContractCall) -> (request: HostCall)
    requires
        old(mem).wf(),
        old(mem).cursor() + call_footprint(call_data) <= old(mem).page_limit() * 65536,
    ensures
        extends(old(mem), final(mem), call_footprint(call_data)),
        request.import == Import::EthereumCall,
        request.args@.len() == 1,
        is_call(final(mem)@, as_unsigned32(request.args@[0]) as int, call_data),
{
    let p = write_call(mem, call_data);
    proof {
        crate::memory::lemma_signed32_round_trip(0, p);
    }
    ethereum_call(crate::memory::to_signed32(p))
}

/// What the host's reply to `call` means: nothing when the call reverted
/// (zero), else the chain values in the array that the reply points to.
pub fn call_reply(mem: &Memory, reply: i32) -> (r: Option<Vec<Token>>)
    requires
        mem.wf(),
        token_array_ok(mem@, mem@.len() as int, as_unsigned32(reply) as int),
    ensures
        r is Some <==> reply != 0,
        r matches Some(tokens) ==> token_views(tokens@) == token_array_dec(
            mem@,
            as_unsigned32(reply) as int,
        ),
{
    if reply == 0 {
        None
    } else {
        Some(deserialize_token_array(mem, to_unsigned32(reply)))
    }
}

/// The encoding of `params` for a contract call. Nothing is encoded as yet:
/// the result has no bytes.
pub fn encode(params: &[Token]) -> (r: Bytes)
    ensures
        r@ == Seq::<u8>::empty(),
{
    Bytes::new()
}

/// The chain values that `data` holds, read as the types `types`. Nothing
/// is decoded as yet: the result is always absent.
pub fn decode(types: &str, data: &Bytes) -> (r: Option<Vec<Token>>)
    ensures
        r is None,
{
    None
}


/// What is left of `budget` heap bytes after the chain value `token`;
/// nothing when the value takes more.
pub fn spend_token(token: &Token, budget: u32) -> (r: Option<u32>)
    ensures
        r == spend(budget as int, token_footprint(token@)),
    decreases token, 1nat,
{
    match token {
        Token::Address(a) => match spend_object(a.as_bytes().len(), budget) {
            Some(left) => spend_object(16, left),
            None => None,
        },
        Token::FixedBytes(b) => match spend_object(b.len(), budget) {
            Some(left) => spend_object(16, left),
            None => None,
        },
        Token::Bytes(b) => match spend_object(b.len(), budget) {
            Some(left) => spend_object(16, left),
            None => None,
        },
        Token::String(s) => match spend_string(s.as_str(), budget) {
            Some(left) => spend_object(16, left),
            None => None,
        },
        Token::FixedArray(arr) => {
            proof {
                lemma_token_list_view(*arr);
            }
            spend_token_list(arr, budget)
        },
        Token::Array(arr) => {
            proof {
                lemma_token_list_view(*arr);
            }
            spend_token_list(arr, budget)
        },
        Token::Tuple(arr) => {
            proof {
                lemma_token_list_view(*arr);
            }
            spend_token_list(arr, budget)
        },
        _ => spend_object(16, budget),
    }
}

/// What is left of `budget` heap bytes after a chain value that holds the
/// chain values `tokens`.
fn spend_token_list(tokens: &Vec<Token>, budget: u32) -> (r: Option<u32>)
    ensures
        r == spend(budget as int, token_array_footprint(token_views(tokens@)) + 40),
    decreases tokens, 1nat,
{
    proof {
        lemma_tokens_monotonic(token_views(tokens@), 0, tokens@.len());
    }
    match spend_tokens(tokens, budget) {
        Some(left) => spend_object(16, left),
        None => None,
    }
}

/// What is left of `budget` heap bytes after the array of the chain values
/// `tokens`; nothing when the array takes more.
pub fn spend_tokens(tokens: &Vec<Token>, budget: u32) -> (r: Option<u32>)
    ensures
        r == spend(budget as int, token_array_footprint(token_views(tokens@))),
    decreases tokens, 0nat,
{
    let ghost vs = token_views(tokens@);
    let n = tokens.len();
    let mut left = budget;
    let mut i: usize = 0;
    while i < n
        invariant
            0 <= i <= n,
            n == tokens@.len(),
            vs == token_views(tokens@),
            left as int == budget - tokens_footprint(vs, i as nat),
        decreases n - i,
    {
        proof {
            lemma_tokens_monotonic(vs, i as nat, n as nat);
            lemma_tokens_monotonic(vs, 0, i as nat);
            lemma_token_footprint_positive(vs[i as int]);
            assert(vs[i as int] == tokens@[i as int]@);
        }
        match spend_token(&tokens[i], left) {
            Some(rest) => {
                left = rest;
            },
            None => {
                return None;
            },
        }
        i = i + 1;
    }
    proof {
        lemma_tokens_monotonic(vs, 0, n as nat);
    }
    crate::shapes::spend_array(n, left)
}

/// What is left of `budget` heap bytes after the record of the call `call`
/// and what it refers to; nothing when they take more.
pub fn spend_call(call: &SmartContractCall, budget: u32) -> (r: Option<u32>)
    ensures
        r == spend(budget as int, call_footprint(call)),
{
    proof {
        lemma_tokens_monotonic(
            token_views(call.function_params@),
            0,
            call.function_params@.len(),
        );
    }
    let a = match spend_string(call.contract_name.as_str(), budget) {
        Some(rest) => rest,
        None => {
            return None;
        },
    };
    let b = match spend_object(20, a) {
        Some(rest) => rest,
        None => {
            return None;
        },
    };
    let c = match spend_string(call.function_name.as_str(), b) {
        Some(rest) => rest,
        None => {
            return None;
        },
    };
    let d = match spend_string(call.function_signature.as_str(), c) {
        Some(rest) => rest,
        None => {
            return None;
        },
    };
    match spend_tokens(&call.function_params, d) {
        Some(rest) => spend_object(20, rest),
        None => None,
    }
}


/// Whether the chain value at `p` can be read within the first `hi` bytes
/// of memory.
pub fn token_readable(mem: &Memory, hi: u32, p: u32) -> (ok: bool)
    requires
        mem.wf(),
        hi <= mem@.len(),
    ensures
        ok == token_ok(mem@, hi as int, p as int),
    decreases p,
{
    if p == 0 {
        return true;
    }
    if p < 20 || hi < 16 || p > hi - 16 {
        return false;
    }
    proof {
        mem.lemma_bounds();
    }
    let header = crate::shapes::read_enum_header(mem, p);
    let kind = header.kind;
    let q = payload_ptr(header.payload);
    if 0 <= kind && kind <= 2 {
        crate::asc::bytes_readable(mem, p - 20, q)
    } else if kind == 6 {
        crate::asc::string_readable(mem, p - 20, q)
    } else if 7 <= kind && kind <= 9 {
        q < p && token_array_readable(mem, p - 20, q)
    } else {
        true
    }
}

/// Whether the array of chain values at `a` can be read within the first
/// `hi` bytes of memory.
pub fn token_array_readable(mem: &Memory, hi: u32, a: u32) -> (ok: bool)
    requires
        mem.wf(),
        hi <= mem@.len(),
    ensures
        ok == token_array_ok(mem@, hi as int, a as int),
    decreases a,
{
    if !crate::shapes::array_readable(mem, hi, a) {
        return false;
    }
    let elems = read_array(mem, a);
    let mut i: usize = 0;
    while i < elems.len()
        invariant
            0 <= i <= elems@.len(),
            mem.wf(),
            hi <= mem@.len(),
            array_ok(mem@, hi as int, a as int),
            elems@ == array_elems(mem@, a as int),
            forall|j: int|
                0 <= j < i ==> (#[trigger] array_elems(mem@, a as int)[j]) < a && token_ok(
                    mem@,
                    a - 20,
                    array_elems(mem@, a as int)[j] as int,
                ),
        decreases elems@.len() - i,
    {
        let e = elems[i];
        assert(e == array_elems(mem@, a as int)[i as int]);
        if e >= a || !token_readable(mem, a - 20, e) {
            return false;
        }
        i = i + 1;
    }
    true
}

impl FromAscPtr for Token {
    open spec fn readable(m: Seq<u8>, ptr: u32) -> bool {
        token_ok(m, m.len() as int, ptr as int)
    }

    open spec fn decoded(m: Seq<u8>, ptr: u32) -> TokenView {
        token_dec(m, ptr as int)
    }

    fn check(mem: &Memory, ptr: u32) -> (ok: bool) {
        token_readable(mem, mem.size_bytes(), ptr)
    }

    /// Reads the chain value at `ptr`.
    fn from_asc_ptr(mem: &Memory, ptr: u32) -> (r: Self) {
        deserialize_token(mem, ptr)
    }
}

impl ToAscPtr for Token {
    open spec fn footprint(v: TokenView) -> int {
        token_footprint(v)
    }

    open spec fn encoded(m: Seq<u8>, ptr: u32, v: TokenView) -> bool {
        is_token(m, ptr as int, v)
    }

    /// Writes the chain value into fresh heap.
    fn to_asc_ptr(&self, mem: &mut Memory) -> (ptr: u32) {
        serialize_token(mem, self)
    }
}

impl ToAscPtr for Bytes {
    open spec fn footprint(v: Seq<u8>) -> int {
        bytes_footprint(v.len() as int)
    }

    open spec fn encoded(m: Seq<u8>, ptr: u32, v: Seq<u8>) -> bool {
        is_bytes(m, ptr as int, v)
    }

    /// Writes the bytes into fresh heap.
    fn to_asc_ptr(&self, mem: &mut Memory) -> (ptr: u32) {
        bytes_to_asc(mem, self.as_slice()).as_raw()
    }
}

} // verus!
