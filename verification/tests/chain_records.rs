use yogurt::asc::{asc_to_string, bytes_to_asc, decode as decode_at, str_to_asc, AscPtr, FromAscPtr};
use yogurt::ethereum::{
    call, call_reply, decode, deserialize_token, deserialize_token_array, encode, serialize_token,
    serialize_token_array, spend_call, spend_token, spend_tokens, token_array_readable,
    token_readable, Block, Event, SmartContractCall, Token, Transaction, TransactionReceipt,
};
use yogurt::contract::handler_argument;
use yogurt::host::Import;
use yogurt::memory::Memory;
use yogurt::shapes::{read_array, write_array, write_enum, write_object};
use yogurt::types::{Address, BigInt, Bytes};

struct TransferParams {
    from: Address,
    to: Address,
    value: BigInt,
}

impl vstd::view::View for TransferParams {
    type V = ();

    fn view(&self) {}
}

impl FromAscPtr for TransferParams {
    fn readable(_m: vstd::seq::Seq<u8>, _ptr: u32) -> bool {
        unreachable!()
    }

    fn decoded(_m: vstd::seq::Seq<u8>, _ptr: u32) {}

    fn check(mem: &Memory, ptr: u32) -> bool {
        yogurt::shapes::array_readable(mem, mem.size_bytes(), ptr)
            && read_array(mem, ptr).len() == 3
    }

    fn from_asc_ptr(mem: &Memory, ptr: u32) -> Self {
        let params = read_array(mem, ptr);
        let value_of = |i: usize| mem.read_u32(params[i] + 4);
        let token = |i: usize| mem.read_u64(value_of(i) + 8) as u32;
        TransferParams {
            from: Address::from_asc_ptr(mem, token(0)),
            to: Address::from_asc_ptr(mem, token(1)),
            value: BigInt::from_asc_ptr(mem, token(2)),
        }
    }
}

fn header(mem: &Memory, p: u32) -> (u32, u32, u32, u32, u32) {
    (
        mem.read_u32(p - 20),
        mem.read_u32(p - 16),
        mem.read_u32(p - 12),
        mem.read_u32(p - 8),
        mem.read_u32(p - 4),
    )
}

fn bytes(mem: &mut Memory, data: &[u8]) -> u32 {
    bytes_to_asc(mem, data).as_raw()
}

fn same(a: &Token, b: &Token) -> bool {
    let all = |x: &Vec<Token>, y: &Vec<Token>| {
        x.len() == y.len() && x.iter().zip(y.iter()).all(|(p, q)| same(p, q))
    };
    match (a, b) {
        (Token::Address(x), Token::Address(y)) => x.as_bytes() == y.as_bytes(),
        (Token::FixedBytes(x), Token::FixedBytes(y)) => x == y,
        (Token::Bytes(x), Token::Bytes(y)) => x.as_slice() == y.as_slice(),
        (Token::Int(x), Token::Int(y)) => x.as_ptr().as_raw() == y.as_ptr().as_raw(),
        (Token::Uint(x), Token::Uint(y)) => x.as_ptr().as_raw() == y.as_ptr().as_raw(),
        (Token::Bool(x), Token::Bool(y)) => x == y,
        (Token::String(x), Token::String(y)) => x == y,
        (Token::Array(x), Token::Array(y)) => all(x, y),
        (Token::FixedArray(x), Token::FixedArray(y)) => all(x, y),
        (Token::Tuple(x), Token::Tuple(y)) => all(x, y),
        _ => false,
    }
}

#[test]
fn block_fields_by_offset() {
    let mut mem = Memory::new(1028, 1, 16).unwrap();
    let mut fields = Vec::new();
    for i in 0..7u8 {
        let len = if i == 3 { 20 } else { 32 };
        fields.push(bytes(&mut mem, &vec![i + 1; len]));
    }
    for handle in [0x1000u32, 0x1008, 0x1010, 0x1018, 0x1020, 0x1028, 0, 0x1038] {
        fields.push(handle);
    }
    let p = write_object(&mut mem, 0, &fields);
    assert_eq!(header(&mem, p), (0, 0, 0, 0, 60));
    let block = Block::from_asc_ptr(&mem, p);
    assert_eq!(block.hash.as_slice(), &[1u8; 32]);
    assert_eq!(block.parent_hash.as_slice(), &[2u8; 32]);
    assert_eq!(block.uncles_hash.as_slice(), &[3u8; 32]);
    assert_eq!(block.author.as_bytes(), &[4u8; 20]);
    assert_eq!(block.state_root.as_slice(), &[5u8; 32]);
    assert_eq!(block.transactions_root.as_slice(), &[6u8; 32]);
    assert_eq!(block.receipts_root.as_slice(), &[7u8; 32]);
    assert_eq!(block.number.as_ptr().as_raw(), 0x1000);
    assert_eq!(block.gas_used.as_ptr().as_raw(), 0x1008);
    assert_eq!(block.gas_limit.as_ptr().as_raw(), 0x1010);
    assert_eq!(block.timestamp.as_ptr().as_raw(), 0x1018);
    assert_eq!(block.difficulty.as_ptr().as_raw(), 0x1020);
    assert_eq!(block.total_difficulty.as_ptr().as_raw(), 0x1028);
    assert!(block.size.is_none());
    assert_eq!(block.base_fee_per_gas.unwrap().as_ptr().as_raw(), 0x1038);
}

#[test]
fn null_records_read_as_defaults() {
    let mem = Memory::new(1028, 1, 16).unwrap();
    let block = Block::from_asc_ptr(&mem, 0);
    assert!(block.hash.is_empty());
    assert_eq!(block.author.as_bytes(), &[0u8; 20]);
    assert!(block.number.as_ptr().is_null());
    assert!(block.size.is_none());
    assert!(block.base_fee_per_gas.is_none());
    let tx = Transaction::from_asc_ptr(&mem, 0);
    assert!(tx.hash.is_empty());
    assert!(tx.to.is_none());
    assert_eq!(tx.from.as_bytes(), &[0u8; 20]);
    assert!(tx.nonce.as_ptr().is_null());
    let receipt = TransactionReceipt::from_asc_ptr(&mem, 0);
    assert!(receipt.contract_address.is_none());
    assert!(receipt.logs_bloom.is_empty());
    assert!(receipt.status.as_ptr().is_null());
    assert_eq!(Address::from_asc_ptr(&mem, 0).as_bytes(), &[0u8; 20]);
    assert!(Bytes::from_asc_ptr(&mem, 0).is_empty());
    assert!(BigInt::from_asc_ptr(&mem, 0).as_ptr().is_null());
    let d = Block::default();
    assert!(d.receipts_root.is_empty());
    assert!(Transaction::default().input.is_empty());
    assert!(TransactionReceipt::default().root.is_empty());
}

#[test]
fn null_fields_inside_records() {
    let mut mem = Memory::new(1028, 1, 16).unwrap();
    let p = write_object(&mut mem, 0, &vec![0u32; 15]);
    let block = Block::from_asc_ptr(&mem, p);
    assert!(block.hash.is_empty());
    assert_eq!(block.author.as_bytes(), &[0u8; 20]);
    assert!(block.size.is_none());
    let t = write_object(&mut mem, 0, &vec![0u32; 9]);
    let tx = Transaction::from_asc_ptr(&mem, t);
    assert!(tx.to.is_none());
    let r = write_object(&mut mem, 0, &vec![0u32; 10]);
    let receipt = TransactionReceipt::from_asc_ptr(&mem, r);
    assert!(receipt.contract_address.is_none());
}

#[test]
fn transaction_and_receipt_fields_by_offset() {
    let mut mem = Memory::new(1028, 1, 16).unwrap();
    let hash = bytes(&mut mem, &[9u8; 32]);
    let from = bytes(&mut mem, &[1u8; 20]);
    let to = bytes(&mut mem, &[2u8; 20]);
    let input = bytes(&mut mem, &[0xde, 0xad]);
    let t = write_object(&mut mem, 0, &vec![hash, 11, from, to, 12, 13, 14, input, 15]);
    let tx = Transaction::from_asc_ptr(&mem, t);
    assert_eq!(tx.hash.as_slice(), &[9u8; 32]);
    assert_eq!(tx.index.as_ptr().as_raw(), 11);
    assert_eq!(tx.from.as_bytes(), &[1u8; 20]);
    assert_eq!(tx.to.unwrap().as_bytes(), &[2u8; 20]);
    assert_eq!(tx.value.as_ptr().as_raw(), 12);
    assert_eq!(tx.gas_limit.as_ptr().as_raw(), 13);
    assert_eq!(tx.gas_price.as_ptr().as_raw(), 14);
    assert_eq!(tx.input.as_slice(), &[0xde, 0xad]);
    assert_eq!(tx.nonce.as_ptr().as_raw(), 15);

    let block_hash = bytes(&mut mem, &[8u8; 32]);
    let root = bytes(&mut mem, &[7u8; 4]);
    let bloom = bytes(&mut mem, &[6u8; 256]);
    let r = write_object(&mut mem, 0, &vec![hash, 21, block_hash, 22, 23, 24, to, 25, root, bloom]);
    let receipt = TransactionReceipt::from_asc_ptr(&mem, r);
    assert_eq!(receipt.transaction_hash.as_slice(), &[9u8; 32]);
    assert_eq!(receipt.transaction_index.as_ptr().as_raw(), 21);
    assert_eq!(receipt.block_hash.as_slice(), &[8u8; 32]);
    assert_eq!(receipt.block_number.as_ptr().as_raw(), 22);
    assert_eq!(receipt.cumulative_gas_used.as_ptr().as_raw(), 23);
    assert_eq!(receipt.gas_used.as_ptr().as_raw(), 24);
    assert_eq!(receipt.contract_address.unwrap().as_bytes(), &[2u8; 20]);
    assert_eq!(receipt.status.as_ptr().as_raw(), 25);
    assert_eq!(receipt.root.as_slice(), &[7u8; 4]);
    assert_eq!(receipt.logs_bloom.as_slice(), &[6u8; 256]);
}

#[test]
fn short_address_is_padded_on_the_left() {
    let mut mem = Memory::new(1028, 1, 16).unwrap();
    let short = bytes(&mut mem, &[0xAA, 0xBB]);
    let a = Address::from_asc_ptr(&mem, short);
    let mut expected = [0u8; 20];
    expected[18] = 0xAA;
    expected[19] = 0xBB;
    assert_eq!(a.as_bytes(), &expected);
    let long: Vec<u8> = (1..=25).collect();
    let p = bytes(&mut mem, &long);
    let a = Address::from_asc_ptr(&mem, p);
    assert_eq!(a.as_bytes(), &long[..20]);
}

#[test]
fn event_dispatch_decodes_transfer() {
    let mut mem = Memory::new(1028, 1, 16).unwrap();
    let from = [0x11u8; 20];
    let to = [0x22u8; 20];
    let mut params = Vec::new();
    for (name, kind, payload) in [
        ("from", 0, bytes(&mut mem, &from) as u64),
        ("to", 0, bytes(&mut mem, &to) as u64),
        ("value", 4, 0x4000u64),
    ] {
        let name_ptr = str_to_asc(&mut mem, name).as_raw();
        let value_ptr = write_enum(&mut mem, 1005, kind, payload);
        params.push(write_object(&mut mem, 0, &vec![name_ptr, value_ptr]));
    }
    let params_ptr = write_array(&mut mem, &params, 1000);
    let address = bytes(&mut mem, &[0x33u8; 20]);
    let log_type = str_to_asc(&mut mem, "mined").as_raw();
    let block = write_object(&mut mem, 0, &vec![0u32; 15]);
    let e = write_object(
        &mut mem,
        0,
        &vec![address, 0x5000, 0x5008, log_type, block, 0, params_ptr, 0],
    );
    assert_eq!(mem.read_u32(e + 24), params_ptr);
    let event: Event<TransferParams> = Event::from_asc_ptr(&mem, e);
    assert_eq!(event.address.as_bytes(), &[0x33u8; 20]);
    assert_eq!(event.log_index.as_ptr().as_raw(), 0x5000);
    assert_eq!(event.transaction_log_index.as_ptr().as_raw(), 0x5008);
    assert_eq!(event.log_type.as_deref(), Some("mined"));
    assert!(event.block.hash.is_empty());
    assert!(event.transaction.to.is_none());
    assert!(event.receipt.is_none());
    assert_eq!(event.params.from.as_bytes(), &from);
    assert_eq!(event.params.to.as_bytes(), &to);
    assert_eq!(event.params.value.as_ptr().as_raw(), 0x4000);

    let receipt = write_object(&mut mem, 0, &vec![0u32; 10]);
    let e2 = write_object(&mut mem, 0, &vec![address, 1, 2, 0, block, 0, params_ptr, receipt]);
    let event: Event<TransferParams> = Event::from_asc_ptr(&mem, e2);
    assert!(event.log_type.is_none());
    assert!(event.receipt.is_some());

    let argument: Option<Event<TransferParams>> = handler_argument(&mem, e as i32);
    assert_eq!(argument.unwrap().params.value.as_ptr().as_raw(), 0x4000);
    assert!(handler_argument::<Event<TransferParams>>(&mem, 0).is_none());
    assert!(handler_argument::<Event<TransferParams>>(&mem, -4).is_none());
    assert_eq!(handler_argument::<bool>(&mem, -1), Some(true));
    assert_eq!(handler_argument::<i32>(&mem, -1), Some(-1));
    assert_eq!(handler_argument::<u32>(&mem, -1), Some(u32::MAX));
}

#[test]
fn scalars_in_the_pointer_slot() {
    let mut mem = Memory::new(1028, 1, 16).unwrap();
    assert!(!bool::from_asc_ptr(&mem, 0));
    assert!(bool::from_asc_ptr(&mem, 1));
    assert!(bool::from_asc_ptr(&mem, 0xFFFF_FFFF));
    assert_eq!(i32::from_asc_ptr(&mem, 0xFFFF_FFFF), -1);
    assert_eq!(i32::from_asc_ptr(&mem, 5), 5);
    assert_eq!(u32::from_asc_ptr(&mem, 0xFFFF_FFFF), 0xFFFF_FFFF);
    let s = str_to_asc(&mut mem, "text").as_raw();
    assert_eq!(String::from_asc_ptr(&mem, s), "text");
    assert_eq!(String::from_asc_ptr(&mem, 0), "");
    let b = bytes(&mut mem, &[1, 2]);
    assert_eq!(Vec::<u8>::from_asc_ptr(&mem, b), vec![1, 2]);
    assert_eq!(Vec::<u8>::from_asc_ptr(&mem, 0), Vec::<u8>::new());
}

#[test]
fn token_layouts() {
    let mut mem = Memory::new(1028, 1, 16).unwrap();
    let cases: Vec<(Token, u32)> = vec![
        (Token::Address(Address::new([1u8; 20])), 0),
        (Token::FixedBytes(vec![1, 2, 3, 4]), 1),
        (Token::Bytes(Bytes::from_vec(vec![5])), 2),
        (Token::Int(BigInt::from_ptr(AscPtr::new(0x90))), 3),
        (Token::Uint(BigInt::from_ptr(AscPtr::new(0x98))), 4),
        (Token::Bool(true), 5),
        (Token::String("s".to_string()), 6),
        (Token::FixedArray(vec![Token::Bool(false)]), 7),
        (Token::Array(vec![]), 8),
        (Token::Tuple(vec![Token::Bool(true), Token::String("t".to_string())]), 9),
    ];
    for (token, kind) in cases.iter() {
        let p = serialize_token(&mut mem, token);
        assert_eq!(header(&mem, p), (0, 0, 0, 1005, 16));
        assert_eq!(mem.read_u32(p), *kind);
        assert_eq!(mem.read_u32(p + 4), 0);
        let payload = mem.read_u64(p + 8);
        match kind {
            3 => assert_eq!(payload, 0x90),
            4 => assert_eq!(payload, 0x98),
            5 => assert_eq!(payload, 1),
            7 | 8 | 9 => assert_eq!(header(&mem, payload as u32), (0, 0, 0, 1006, 16)),
            6 => assert_eq!(header(&mem, payload as u32), (0, 0, 0, 2, 2)),
            _ => assert_eq!(mem.read_u32(payload as u32 - 8), 1),
        }
        assert!((payload as u32) < p);
        assert!(same(&deserialize_token(&mem, p), token));
    }
    let tokens: Vec<Token> = cases.into_iter().map(|(t, _)| t).collect();
    let a = serialize_token_array(&mut mem, &tokens);
    let back = deserialize_token_array(&mem, a);
    assert_eq!(back.len(), tokens.len());
    for (x, y) in back.iter().zip(tokens.iter()) {
        assert!(same(x, y));
    }
}

#[test]
fn token_null_and_unknown_read_as_false() {
    let mut mem = Memory::new(1028, 1, 16).unwrap();
    assert!(same(&deserialize_token(&mem, 0), &Token::Bool(false)));
    for kind in [10, 99, -1] {
        let p = write_enum(&mut mem, 1005, kind, 1);
        assert!(same(&deserialize_token(&mem, p), &Token::Bool(false)));
    }
    assert_eq!(deserialize_token_array(&mem, 0).len(), 0);
    let p = write_enum(&mut mem, 1005, 8, 0);
    assert!(same(&deserialize_token(&mem, p), &Token::Array(vec![])));
    let p = write_enum(&mut mem, 1005, 0, 0);
    assert!(same(&deserialize_token(&mem, p), &Token::Address(Address::zero())));
    let p = write_enum(&mut mem, 1005, 5, 7);
    assert!(same(&deserialize_token(&mem, p), &Token::Bool(true)));
}

#[test]
fn contract_call_record() {
    let mut mem = Memory::new(1028, 1, 16).unwrap();
    let data = SmartContractCall {
        contract_name: "ERC20".to_string(),
        contract_address: Address::new([7u8; 20]),
        function_name: "balanceOf".to_string(),
        function_signature: "balanceOf(address):(uint256)".to_string(),
        function_params: vec![Token::Address(Address::new([8u8; 20]))],
    };
    let request = call(&mut mem, &data);
    assert_eq!(request.import, Import::EthereumCall);
    assert_eq!(request.args.len(), 1);
    let p = request.args[0] as u32;
    assert_eq!(header(&mem, p), (0, 0, 0, 1007, 20));
    assert_eq!(asc_to_string(&mem, AscPtr::new(mem.read_u32(p))), "ERC20");
    assert_eq!(Address::from_asc_ptr(&mem, mem.read_u32(p + 4)).as_bytes(), &[7u8; 20]);
    assert_eq!(asc_to_string(&mem, AscPtr::new(mem.read_u32(p + 8))), "balanceOf");
    assert_eq!(
        asc_to_string(&mem, AscPtr::new(mem.read_u32(p + 12))),
        "balanceOf(address):(uint256)"
    );
    let params = deserialize_token_array(&mem, mem.read_u32(p + 16));
    assert_eq!(params.len(), 1);
    assert!(same(&params[0], &data.function_params[0]));
    assert!(call_reply(&mem, 0).is_none());
    let reply = call_reply(&mem, mem.read_u32(p + 16) as i32).unwrap();
    assert_eq!(reply.len(), 1);
    assert!(encode(&data.function_params).is_empty());
    assert!(decode("(uint256)", &Bytes::new()).is_none());
}

#[test]
fn checked_decoding() {
    let mut mem = Memory::new(1028, 1, 16).unwrap();
    let len = mem.size_bytes();
    let text = str_to_asc(&mut mem, "ok").as_raw();
    assert_eq!(decode_at::<String>(&mem, text), Some("ok".to_string()));
    assert_eq!(decode_at::<String>(&mem, 0), Some(String::new()));
    assert_eq!(decode_at::<String>(&mem, 8), None);
    assert_eq!(decode_at::<String>(&mem, len + 4), None);
    assert_eq!(decode_at::<Vec<u8>>(&mem, len), Some(vec![]));
    mem.write_u32(text - 4, 0x7FFF_FFFF);
    assert_eq!(decode_at::<String>(&mem, text), None);
    mem.write_u32(text - 4, len - text);
    assert!(decode_at::<String>(&mem, text).is_some());
    mem.write_u32(text - 4, len - text + 1);
    assert!(decode_at::<String>(&mem, text).is_none());
    assert_eq!(decode_at::<bool>(&mem, 3), Some(true));
    assert_eq!(decode_at::<i32>(&mem, 0xFFFF_FFFE), Some(-2));
    assert_eq!(decode_at::<u32>(&mem, 9), Some(9));
    assert!(decode_at::<BigInt>(&mem, 0xFFFF_FFFF).is_some());

    let block = write_object(&mut mem, 0, &vec![0u32; 15]);
    assert!(Block::check(&mem, block));
    assert!(Block::check(&mem, 0));
    assert!(!Block::check(&mem, len - 59));
    assert!(Block::check(&mem, len - 60));
    mem.write_u32(block + 12, 4);
    assert!(!Block::check(&mem, block));
    assert!(decode_at::<Block>(&mem, block).is_none());
    mem.write_u32(block + 12, 0);
    mem.write_u32(block + 28, 4);
    assert!(Block::check(&mem, block));
    assert!(Transaction::check(&mem, 0));
    assert!(!Transaction::check(&mem, len - 35));
    assert!(TransactionReceipt::check(&mem, 0));
    assert!(!TransactionReceipt::check(&mem, len - 39));

    let params = write_array(&mut mem, &vec![block, block, block], 1000);
    let event = write_object(&mut mem, 0, &vec![0, 1, 2, 0, block, 0, params, 0]);
    assert!(Event::<TransferParams>::check(&mem, event));
    assert!(!Event::<TransferParams>::check(&mem, 0));
    assert!(decode_at::<Event<TransferParams>>(&mem, 0).is_none());
    let two = write_array(&mut mem, &vec![block, block], 1000);
    let short = write_object(&mut mem, 0, &vec![0, 1, 2, 0, block, 0, two, 0]);
    assert!(!Event::<TransferParams>::check(&mem, short));
    let bad_receipt = write_object(&mut mem, 0, &vec![0, 1, 2, 0, block, 0, params, len - 8]);
    assert!(!Event::<TransferParams>::check(&mem, bad_receipt));
}

#[test]
fn token_readability() {
    let mut mem = Memory::new(1028, 1, 16).unwrap();
    let len = mem.size_bytes();
    let t = serialize_token(
        &mut mem,
        &Token::Tuple(vec![Token::String("a".to_string()), Token::Bytes(Bytes::from_vec(vec![1]))]),
    );
    assert!(token_readable(&mem, len, t));
    assert!(token_readable(&mem, t + 16, t));
    assert!(!token_readable(&mem, t + 15, t));
    assert!(token_readable(&mem, len, 0));
    assert!(!token_readable(&mem, len, 12));
    let array = mem.read_u64(t + 8) as u32;
    assert!(token_array_readable(&mem, len, array));
    assert!(token_array_readable(&mem, len, 0));
    let cyclic = write_enum(&mut mem, 1005, 8, 0);
    mem.write_u64(cyclic + 8, cyclic as u64);
    assert!(!token_readable(&mem, len, cyclic));
    let forward = write_enum(&mut mem, 1005, 6, (len - 2) as u64);
    assert!(!token_readable(&mem, len, forward));
    let unknown = write_enum(&mut mem, 1005, 42, 0xFFFF_FFFF);
    assert!(token_readable(&mem, len, unknown));
    let first = mem.read_u32(mem.read_u32(array));
    mem.write_u32(mem.read_u32(array), array + 40);
    assert!(!token_array_readable(&mem, len, array));
    assert!(!token_readable(&mem, len, t));
    mem.write_u32(mem.read_u32(array), first);
    assert!(token_readable(&mem, len, t));
}

#[test]
fn token_budgets() {
    let mut mem = Memory::new(1028, 1, 16).unwrap();
    let tokens = vec![
        Token::Address(Address::zero()),
        Token::Uint(BigInt::from_ptr(AscPtr::new(8))),
        Token::Array(vec![Token::Bool(true), Token::String("xyz".to_string())]),
    ];
    for token in tokens.iter() {
        let before = mem.heap_cursor();
        let left = spend_token(token, 10_000).unwrap();
        serialize_token(&mut mem, token);
        assert_eq!(mem.heap_cursor() - before, 10_000 - left);
        assert_eq!(spend_token(token, 10_000 - left), Some(0));
        assert_eq!(spend_token(token, 10_000 - left - 1), None);
    }
    let before = mem.heap_cursor();
    let left = spend_tokens(&tokens, 10_000).unwrap();
    serialize_token_array(&mut mem, &tokens);
    assert_eq!(mem.heap_cursor() - before, 10_000 - left);
    assert_eq!(spend_tokens(&tokens, 10_000 - left - 8), None);
    let data = SmartContractCall {
        contract_name: "C".to_string(),
        contract_address: Address::zero(),
        function_name: "f".to_string(),
        function_signature: "f()".to_string(),
        function_params: tokens,
    };
    let before = mem.heap_cursor();
    let left = spend_call(&data, mem.free_bytes()).unwrap();
    let free = mem.free_bytes();
    call(&mut mem, &data);
    assert_eq!(mem.heap_cursor() - before, free - left);
    assert_eq!(spend_call(&data, 100), None);
}
