//! Helpers for testing handlers: a store that lives outside the host, and
//! chain records with plausible contents.

use crate::allocator::{ensure_heap_initialised, extends, lemma_extends, lemma_extends_trans};
use crate::asc::{is_bytes, lemma_bytes_frame};
use crate::ethereum::{Block, Transaction, TransactionReceipt};
use crate::memory::{as_unsigned32, Memory};
use crate::types::{le_bytes_u32, le_bytes_u64, Address, BigInt, Bytes};
use crate::value::{Entity, EntityData};
use vstd::prelude::*;

verus! {

/// One stored entity: the name of its type, its identifier and its fields.
#[derive(Debug)]
struct Stored {
    kind_name: String,
    id: String,
    data: EntityData,
}

/// A store for testing handlers without a host.
#[derive(Debug)]
pub struct MockContext {
    store: Vec<Stored>,
}

impl View for MockContext {
    type V = Set<(Seq<char>, Seq<char>)>;

    /// The type names and identifiers of the stored entities.
    closed spec fn view(&self) -> Set<(Seq<char>, Seq<char>)> {
        Set::new(
            |k: (Seq<char>, Seq<char>)|
                exists|i: int|
                    0 <= i < self.store@.len() && (#[trigger] self.store@[i]).kind_name@ == k.0
                        && self.store@[i].id@ == k.1,
        )
    }
}

impl MockContext {
    /// The store without entities.
    pub fn new() -> (r: Self)
        ensures
            r@ == Set::<(Seq<char>, Seq<char>)>::empty(),
    {
        let r = MockContext { store: Vec::new() };
        assert(r@ =~= Set::<(Seq<char>, Seq<char>)>::empty());
        r
    }

    /// The position of the entity with the type name `kind_name` and the
    /// identifier `id`, if it is stored.
    fn position(&self, kind_name: &String, id: &String) -> (r: Option<usize>)
        ensures
            r is Some <==> self@.contains((kind_name@, id@)),
            r matches Some(i) ==> i < self.store@.len() && self.store@[i as int].kind_name@
                == kind_name@ && self.store@[i as int].id@ == id@,
    {
        let mut i: usize = 0;
        while i < self.store.len()
            invariant
                0 <= i <= self.store.len(),
                forall|j: int|
                    0 <= j < i ==> !((#[trigger] self.store@[j]).kind_name@ == kind_name@
                        && self.store@[j].id@ == id@),
            decreases self.store.len() - i,
        {
            if self.store[i].kind_name == *kind_name && self.store[i].id == *id {
                assert(self.store@[i as int].kind_name@ == kind_name@);
                return Some(i);
            }
            i = i + 1;
        }
        None
    }

    /// Stores `entity` under its type and identifier. The fields of the
    /// entity are not kept as yet: what is stored has no fields.
    pub fn store<E: Entity>(&mut self, entity: &E)
        ensures
            final(self)@ == old(self)@.insert((E::spec_entity_type(), entity.spec_id())),
    {
        let kind_name = E::entity_type().to_owned();
        let id = entity.id().to_owned();
        let data = EntityData::new();
        match self.position(&kind_name, &id) {
            Some(i) => {
                let ghost before = self.store@;
                self.store[i] = Stored { kind_name, id, data };
                assert(self@ =~= old(self)@.insert((E::spec_entity_type(), entity.spec_id()))) by {
                    assert forall|k: (Seq<char>, Seq<char>)| self@.contains(k) implies old(
                        self,
                    )@.insert((E::spec_entity_type(), entity.spec_id())).contains(k) by {
                        let j = choose|j: int|
                            0 <= j < self.store@.len() && (#[trigger] self.store@[j]).kind_name@
                                == k.0 && self.store@[j].id@ == k.1;
                        if j != i {
                            assert(before[j].kind_name@ == k.0);
                        }
                    }
                    assert forall|k: (Seq<char>, Seq<char>)|
                        old(self)@.insert((E::spec_entity_type(), entity.spec_id())).contains(
                            k,
                        ) implies self@.contains(k) by {
                        if k == (E::spec_entity_type(), entity.spec_id()) {
                            assert(self.store@[i as int].kind_name@ == k.0);
                        } else {
                            let j = choose|j: int|
                                0 <= j < before.len() && (#[trigger] before[j]).kind_name@ == k.0
                                    && before[j].id@ == k.1;
                            assert(self.store@[j].kind_name@ == k.0);
                        }
                    }
                }
            },
            None => {
                let ghost before = self.store@;
                self.store.push(Stored { kind_name, id, data });
                assert(self@ =~= old(self)@.insert((E::spec_entity_type(), entity.spec_id()))) by {
                    assert forall|k: (Seq<char>, Seq<char>)| self@.contains(k) implies old(
                        self,
                    )@.insert((E::spec_entity_type(), entity.spec_id())).contains(k) by {
                        let j = choose|j: int|
                            0 <= j < self.store@.len() && (#[trigger] self.store@[j]).kind_name@
                                == k.0 && self.store@[j].id@ == k.1;
                        if j < before.len() {
                            assert(before[j].kind_name@ == k.0);
                        }
                    }
                    assert forall|k: (Seq<char>, Seq<char>)|
                        old(self)@.insert((E::spec_entity_type(), entity.spec_id())).contains(
                            k,
                        ) implies self@.contains(k) by {
                        if k == (E::spec_entity_type(), entity.spec_id()) {
                            assert(self.store@[before.len() as int].kind_name@ == k.0);
                        } else {
                            let j = choose|j: int|
                                0 <= j < before.len() && (#[trigger] before[j]).kind_name@ == k.0
                                    && before[j].id@ == k.1;
                            assert(self.store@[j].kind_name@ == k.0);
                        }
                    }
                }
            },
        }
    }

    /// Loads the entity of type `E` with the identifier `id`. Entities are
    /// not rebuilt from what is stored as yet: nothing is ever loaded.
    pub fn load<E: Entity>(&self, id: &str) -> (r: Option<E>)
        ensures
            r is None,
    {
        None
    }

    /// Whether an entity of type `E` with the identifier `id` is stored.
    pub fn contains<E: Entity>(&self, id: &str) -> (r: bool)
        ensures
            r == self@.contains((E::spec_entity_type(), id@)),
    {
        let kind_name = E::entity_type().to_owned();
        let wanted = id.to_owned();
        self.position(&kind_name, &wanted).is_some()
    }

    /// Removes all entities of type `E`.
    pub fn clear<E: Entity>(&mut self)
        ensures
            final(self)@ == old(self)@.filter(
                |k: (Seq<char>, Seq<char>)| k.0 != E::spec_entity_type(),
            ),
    {
        let kind_name = E::entity_type().to_owned();
        let mut kept: Vec<Stored> = Vec::new();
        let ghost before = self.store@;
        let mut rest: Vec<Stored> = Vec::new();
        core::mem::swap(&mut self.store, &mut rest);
        let n = rest.len();
        let mut i: usize = 0;
        while i < n
            invariant
                0 <= i <= n,
                rest@.len() + i == n,
                n == before.len(),
                kind_name@ == E::spec_entity_type(),
                forall|j: int| 0 <= j < rest@.len() ==> (#[trigger] rest@[j]) == before[j],
                forall|j: int|
                    0 <= j < kept@.len() ==> (#[trigger] kept@[j]).kind_name@ != kind_name@,
                forall|j: int|
                    0 <= j < kept@.len() ==> exists|o: int|
                        n - i <= o < n && before[o] == #[trigger] kept@[j],
                forall|o: int|
                    n - i <= o < n && (#[trigger] before[o]).kind_name@ != kind_name@
                        ==> exists|j: int| 0 <= j < kept@.len() && kept@[j] == before[o],
            decreases n - i,
        {
            let ghost kept_before = kept@;
            let item = rest.pop().unwrap();
            assert(item == before[n - 1 - i]);
            if item.kind_name != kind_name {
                kept.push(item);
                assert(kept@[kept_before.len() as int] == before[n - 1 - i]);
                assert forall|j: int| 0 <= j < kept@.len() implies exists|o: int|
                    n - (i + 1) <= o < n && before[o] == #[trigger] kept@[j] by {
                    if j < kept_before.len() {
                        let o = choose|o: int| n - i <= o < n && before[o] == kept_before[j];
                        assert(before[o] == kept@[j]);
                    } else {
                        assert(before[n - 1 - i] == kept@[j]);
                    }
                }
                assert forall|o: int|
                    n - (i + 1) <= o < n && (#[trigger] before[o]).kind_name@
                        != kind_name@ implies exists|j: int|
                    0 <= j < kept@.len() && kept@[j] == before[o] by {
                    if o == n - 1 - i {
                        assert(kept@[kept_before.len() as int] == before[o]);
                    } else {
                        let j = choose|j: int|
                            0 <= j < kept_before.len() && kept_before[j] == before[o];
                        assert(kept@[j] == before[o]);
                    }
                }
            }
            i = i + 1;
        }
        self.store = kept;
        assert(self@ =~= old(self)@.filter(
            |k: (Seq<char>, Seq<char>)| k.0 != E::spec_entity_type(),
        )) by {
            assert forall|k: (Seq<char>, Seq<char>)| self@.contains(k) implies old(self)@.filter(
                |k: (Seq<char>, Seq<char>)| k.0 != E::spec_entity_type(),
            ).contains(k) by {
                let j = choose|j: int|
                    0 <= j < self.store@.len() && (#[trigger] self.store@[j]).kind_name@ == k.0
                        && self.store@[j].id@ == k.1;
                let o = choose|o: int| 0 <= o < n && before[o] == self.store@[j];
                assert(before[o].kind_name@ == k.0);
            }
            assert forall|k: (Seq<char>, Seq<char>)|
                old(self)@.filter(
                    |k: (Seq<char>, Seq<char>)| k.0 != E::spec_entity_type(),
                ).contains(k) implies self@.contains(k) by {
                let o = choose|o: int|
                    0 <= o < before.len() && (#[trigger] before[o]).kind_name@ == k.0
                        && before[o].id@ == k.1;
                let j = choose|j: int| 0 <= j < self.store@.len() && self.store@[j] == before[o];
                assert(self.store@[j].kind_name@ == k.0);
            }
        }
    }

    /// Removes all entities.
    pub fn clear_all(&mut self)
        ensures
            final(self)@ == Set::<(Seq<char>, Seq<char>)>::empty(),
    {
        self.store = Vec::new();
        assert(self@ =~= Set::<(Seq<char>, Seq<char>)>::empty());
    }
}

impl Default for MockContext {
    fn default() -> (r: Self)
        ensures
            r@ == Set::<(Seq<char>, Seq<char>)>::empty(),
    {
        Self::new()
    }
}

/// A byte string of `n` zero bytes.
fn zero_bytes(n: usize) -> (b: Bytes)
    ensures
        b@ == Seq::new(n as nat, |i: int| 0u8),
{
    let v: Vec<u8> = vec![0u8; n];
    assert(v@ =~= Seq::new(n as nat, |i: int| 0u8));
    Bytes::from_vec(v)
}

/// The byte string with the 32 bytes of `hash`.
fn hash_bytes(hash: &[u8; 32]) -> (b: Bytes)
    ensures
        b@ == hash@,
{
    let mut v: Vec<u8> = Vec::new();
    let mut i: usize = 0;
    while i < 32
        invariant
            0 <= i <= 32,
            v@.len() == i,
            forall|j: int| 0 <= j < i ==> v@[j] == hash@[j],
        decreases 32 - i,
    {
        v.push(hash[i]);
        i = i + 1;
    }
    assert(v@ =~= hash@);
    Bytes::from_vec(v)
}

/// A number to be written into the heap: of four bytes or of eight.
#[derive(Clone, Copy, Debug)]
pub enum Number {
    Small(i32),
    Wide(u64),
}

impl Number {
    /// The bytes of the number, least significant first.
    pub open spec fn bytes(self) -> Seq<u8> {
        match self {
            Number::Small(v) => le_bytes_u32(as_unsigned32(v)),
            Number::Wide(v) => le_bytes_u64(v),
        }
    }

    /// The heap bytes that the number takes.
    pub open spec fn span(self) -> int {
        match self {
            Number::Small(_) => 24,
            Number::Wide(_) => 32,
        }
    }
}

/// The heap bytes that the first `n` numbers of `numbers` take.
pub open spec fn numbers_span(numbers: Seq<Number>, n: nat) -> int
    decreases n,
{
    if n == 0 || n > numbers.len() {
        0
    } else {
        numbers_span(numbers, (n - 1) as nat) + numbers[n - 1].span()
    }
}

/// The span of a prefix is at most that of a longer prefix.
proof fn lemma_numbers_span(numbers: Seq<Number>, i: nat, j: nat)
    requires
        i <= j <= numbers.len(),
    ensures
        0 <= numbers_span(numbers, i) <= numbers_span(numbers, j),
        i < j ==> numbers_span(numbers, i) + numbers[i as int].span() <= numbers_span(numbers, j),
    decreases j,
{
    if j > 0 {
        if i == j {
            lemma_numbers_span(numbers, 0, (j - 1) as nat);
        } else {
            lemma_numbers_span(numbers, i, (j - 1) as nat);
        }
    }
}

/// The memory holds each of `numbers` at the handle with the same position
/// in `handles`.
pub open spec fn holds_numbers(m: Seq<u8>, handles: Seq<BigInt>, numbers: Seq<Number>) -> bool {
    &&& handles.len() == numbers.len()
    &&& forall|i: int|
        0 <= i < numbers.len() ==> is_bytes(m, (#[trigger] handles[i])@ as int, numbers[i].bytes())
}

/// Writes `numbers` into fresh heap, in order, and returns their handles.
#[verifier::rlimit(100)]
fn write_numbers(mem: &mut Memory, numbers: &Vec<Number>) -> (handles: Vec<BigInt>)
    requires
        old(mem).wf(),
        old(mem).cursor() + numbers_span(numbers@, numbers@.len()) <= old(mem).page_limit() * 65536,
    ensures
        extends(old(mem), final(mem), numbers_span(numbers@, numbers@.len())),
        holds_numbers(final(mem)@, handles@, numbers@),
{
    let n = numbers.len();
    let mut handles: Vec<BigInt> = Vec::new();
    let mut i: usize = 0;
    ensure_heap_initialised(mem);
    proof {
        lemma_extends(old(mem), mem, 0);
    }
    while i < n
        invariant
            0 <= i <= n,
            n == numbers@.len(),
            old(mem).wf(),
            mem.wf(),
            extends(old(mem), mem, numbers_span(numbers@, i as nat)),
            old(mem).cursor() + numbers_span(numbers@, n as nat) <= old(mem).page_limit() * 65536,
            handles@.len() == i,
            forall|j: int|
                0 <= j < i ==> is_bytes(
                    mem@,
                    (#[trigger] handles@[j])@ as int,
                    numbers@[j].bytes(),
                ) && handles@[j]@ + numbers@[j].bytes().len() <= mem.cursor(),
        decreases n - i,
    {
        let ghost before = *mem;
        proof {
            lemma_extends(old(mem), mem, numbers_span(numbers@, i as nat));
            lemma_numbers_span(numbers@, i as nat, n as nat);
            mem.lemma_bounds();
        }
        let handle = match numbers[i] {
            Number::Small(v) => BigInt::from_i32(mem, v),
            Number::Wide(v) => BigInt::from_u64(mem, v),
        };
        proof {
            lemma_extends(&before, mem, numbers@[i as int].span());
            lemma_numbers_span(numbers@, 0, i as nat);
            lemma_extends_trans(
                old(mem),
                &before,
                mem,
                numbers_span(numbers@, i as nat),
                numbers@[i as int].span(),
            );
            assert forall|j: int| 0 <= j < i implies is_bytes(
                mem@,
                (#[trigger] handles@[j])@ as int,
                numbers@[j].bytes(),
            ) && handles@[j]@ + numbers@[j].bytes().len() <= mem.cursor() by {
                lemma_bytes_frame(
                    before@,
                    mem@,
                    before.cursor(),
                    handles@[j]@ as int,
                    numbers@[j].bytes(),
                );
            }
        }
        handles.push(handle);
        i = i + 1;
    }
    handles
}

/// A block for testing: number `number`, no gas used, a gas limit of thirty
/// million, time `timestamp`, no difficulty and no total difficulty, written
/// into fresh heap in this order; hashes of 32 zero bytes; the zero address
/// as author; neither size nor base fee.
pub fn mock_block(mem: &mut Memory, number: u64, timestamp: u64) -> (block: Block)
    requires
        old(mem).wf(),
        old(mem).cursor() + 168 <= old(mem).page_limit() * 65536,
    ensures
        extends(old(mem), final(mem), 168),
        holds_numbers(
            final(mem)@,
            seq![
                block.number,
                block.gas_used,
                block.gas_limit,
                block.timestamp,
                block.difficulty,
                block.total_difficulty,
            ],
            seq![
                Number::Wide(number),
                Number::Small(0),
                Number::Wide(30_000_000),
                Number::Wide(timestamp),
                Number::Small(0),
                Number::Small(0),
            ],
        ),
        block.hash@ == Seq::new(32, |i: int| 0u8),
        block.parent_hash@ == block.hash@,
        block.uncles_hash@ == block.hash@,
        block.state_root@ == block.hash@,
        block.transactions_root@ == block.hash@,
        block.receipts_root@ == block.hash@,
        block.author@ == Seq::new(20, |i: int| 0u8),
        block.size is None,
        block.base_fee_per_gas is None,
{
    let mut numbers: Vec<Number> = Vec::new();
    numbers.push(Number::Wide(number));
    numbers.push(Number::Small(0));
    numbers.push(Number::Wide(30_000_000));
    numbers.push(Number::Wide(timestamp));
    numbers.push(Number::Small(0));
    numbers.push(Number::Small(0));
    proof {
        let s = numbers@;
        assert(numbers_span(s, 0) == 0);
        assert(numbers_span(s, 1) == 32);
        assert(numbers_span(s, 2) == 56);
        assert(numbers_span(s, 3) == 88);
        assert(numbers_span(s, 4) == 120);
        assert(numbers_span(s, 5) == 144);
        assert(numbers_span(s, 6) == 168);
    }
    let handles = write_numbers(mem, &numbers);
    let block = Block {
        hash: zero_bytes(32),
        parent_hash: zero_bytes(32),
        uncles_hash: zero_bytes(32),
        author: Address::zero(),
        state_root: zero_bytes(32),
        transactions_root: zero_bytes(32),
        receipts_root: zero_bytes(32),
        number: handles[0].clone(),
        gas_used: handles[1].clone(),
        gas_limit: handles[2].clone(),
        timestamp: handles[3].clone(),
        difficulty: handles[4].clone(),
        total_difficulty: handles[5].clone(),
        size: None,
        base_fee_per_gas: None,
    };
    proof {
        let listed = seq![
            block.number,
            block.gas_used,
            block.gas_limit,
            block.timestamp,
            block.difficulty,
            block.total_difficulty,
        ];
        assert forall|i: int| 0 <= i < 6 implies is_bytes(
            mem@,
            (#[trigger] listed[i])@ as int,
            numbers@[i].bytes(),
        ) by {
            assert(listed[i]@ == handles@[i]@);
        }
        assert(numbers@ =~= seq![
            Number::Wide(number),
            Number::Small(0),
            Number::Wide(30_000_000),
            Number::Wide(timestamp),
            Number::Small(0),
            Number::Small(0),
        ]);
    }
    block
}

/// A transaction for testing: the hash `hash`, from `from` to `to`; index
/// and value zero, a gas limit of 21000, a gas price of one billion and
/// nonce zero, written into fresh heap in this order; no input.
pub fn mock_transaction(
    mem: &mut Memory,
    hash: [u8; 32],
    from: Address,
    to: Option<Address>,
) -> (tx: Transaction)
    requires
        old(mem).wf(),
        old(mem).cursor() + 136 <= old(mem).page_limit() * 65536,
    ensures
        extends(old(mem), final(mem), 136),
        holds_numbers(
            final(mem)@,
            seq![tx.index, tx.value, tx.gas_limit, tx.gas_price, tx.nonce],
            seq![
                Number::Small(0),
                Number::Small(0),
                Number::Wide(21_000),
                Number::Wide(1_000_000_000),
                Number::Small(0),
            ],
        ),
        tx.hash@ == hash@,
        tx.from == from,
        tx.to == to,
        tx.input@ == Seq::<u8>::empty(),
{
    let mut numbers: Vec<Number> = Vec::new();
    numbers.push(Number::Small(0));
    numbers.push(Number::Small(0));
    numbers.push(Number::Wide(21_000));
    numbers.push(Number::Wide(1_000_000_000));
    numbers.push(Number::Small(0));
    proof {
        let s = numbers@;
        assert(numbers_span(s, 0) == 0);
        assert(numbers_span(s, 1) == 24);
        assert(numbers_span(s, 2) == 48);
        assert(numbers_span(s, 3) == 80);
        assert(numbers_span(s, 4) == 112);
        assert(numbers_span(s, 5) == 136);
    }
    let handles = write_numbers(mem, &numbers);
    let tx = Transaction {
        hash: hash_bytes(&hash),
        index: handles[0].clone(),
        from,
        to,
        value: handles[1].clone(),
        gas_limit: handles[2].clone(),
        gas_price: handles[3].clone(),
        input: Bytes::new(),
        nonce: handles[4].clone(),
    };
    proof {
        let listed = seq![tx.index, tx.value, tx.gas_limit, tx.gas_price, tx.nonce];
        assert forall|i: int| 0 <= i < 5 implies is_bytes(
            mem@,
            (#[trigger] listed[i])@ as int,
            numbers@[i].bytes(),
        ) by {
            assert(listed[i]@ == handles@[i]@);
        }
        assert(numbers@ =~= seq![
            Number::Small(0),
            Number::Small(0),
            Number::Wide(21_000),
            Number::Wide(1_000_000_000),
            Number::Small(0),
        ]);
    }
    tx
}

/// A receipt for testing: the transaction hash `tx_hash`; transaction index
/// zero, the block number `block_number`, 21000 gas used in all and by this
/// transaction, and the status one, written into fresh heap in this order; a
/// block hash of 32 and a bloom filter of 256 zero bytes; no contract
/// address and no root.
pub fn mock_receipt(mem: &mut Memory, tx_hash: [u8; 32], block_number: u64) -> (receipt:
    TransactionReceipt)
    requires
        old(mem).wf(),
        old(mem).cursor() + 144 <= old(mem).page_limit() * 65536,
    ensures
        extends(old(mem), final(mem), 144),
        holds_numbers(
            final(mem)@,
            seq![
                receipt.transaction_index,
                receipt.block_number,
                receipt.cumulative_gas_used,
                receipt.gas_used,
                receipt.status,
            ],
            seq![
                Number::Small(0),
                Number::Wide(block_number),
                Number::Wide(21_000),
                Number::Wide(21_000),
                Number::Small(1),
            ],
        ),
        receipt.transaction_hash@ == tx_hash@,
        receipt.block_hash@ == Seq::new(32, |i: int| 0u8),
        receipt.contract_address is None,
        receipt.root@ == Seq::<u8>::empty(),
        receipt.logs_bloom@ == Seq::new(256, |i: int| 0u8),
{
    let mut numbers: Vec<Number> = Vec::new();
    numbers.push(Number::Small(0));
    numbers.push(Number::Wide(block_number));
    numbers.push(Number::Wide(21_000));
    numbers.push(Number::Wide(21_000));
    numbers.push(Number::Small(1));
    proof {
        let s = numbers@;
        assert(numbers_span(s, 0) == 0);
        assert(numbers_span(s, 1) == 24);
        assert(numbers_span(s, 2) == 56);
        assert(numbers_span(s, 3) == 88);
        assert(numbers_span(s, 4) == 120);
        assert(numbers_span(s, 5) == 144);
    }
    let handles = write_numbers(mem, &numbers);
    let receipt = TransactionReceipt {
        transaction_hash: hash_bytes(&tx_hash),
        transaction_index: handles[0].clone(),
        block_hash: zero_bytes(32),
        block_number: handles[1].clone(),
        cumulative_gas_used: handles[2].clone(),
        gas_used: handles[3].clone(),
        contract_address: None,
        status: handles[4].clone(),
        root: Bytes::new(),
        logs_bloom: zero_bytes(256),
    };
    proof {
        let listed = seq![
            receipt.transaction_index,
            receipt.block_number,
            receipt.cumulative_gas_used,
            receipt.gas_used,
            receipt.status,
        ];
        assert forall|i: int| 0 <= i < 5 implies is_bytes(
            mem@,
            (#[trigger] listed[i])@ as int,
            numbers@[i].bytes(),
        ) by {
            assert(listed[i]@ == handles@[i]@);
        }
        assert(numbers@ =~= seq![
            Number::Small(0),
            Number::Wide(block_number),
            Number::Wide(21_000),
            Number::Wide(21_000),
            Number::Small(1),
        ]);
    }
    receipt
}

} // verus!
