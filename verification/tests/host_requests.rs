use yogurt::allocator::{__collect, __new, __pin, __unpin};
use yogurt::asc::{asc_to_bytes, asc_to_string, bytes_to_asc, ptr_from_reply, str_to_asc, AscPtr};
use yogurt::crypto::{keccak256, keccak256_reply};
use yogurt::data_source::{
    address, address_reply, context, context_reply, create, create_with_context, network,
    network_reply, spend_create, string_param, string_param_reply, strings_to_asc_array,
};
use yogurt::host::{
    big_int_plus, bytes_to_base58, bytes_to_hex, bytes_to_string, ens_name_by_hash, ethereum_decode,
    ethereum_encode, ipfs_map, json_from_bytes, json_to_big_int, json_to_f64, json_to_i64,
    json_to_u64, string_to_h160, HostCall, Import,
};
use yogurt::ipfs::{cat, cat_reply};
use yogurt::log::{critical, debug, error, info, log, warning, Level};
use yogurt::memory::Memory;
use yogurt::shapes::read_array;
use yogurt::types::{Address, BigDecimal, BigInt, Bytes};
use yogurt::value::EntityData;

fn text(mem: &Memory, arg: i32) -> String {
    asc_to_string(mem, AscPtr::new(arg as u32))
}

fn is(request: &HostCall, import: Import, args: &[i32]) -> bool {
    request.import == import && request.args == args
}

#[test]
fn runtime_hooks() {
    let mut mem = Memory::new(1028, 1, 16).unwrap();
    let p = __new(&mut mem, 6, 2);
    assert_eq!(p, 1048);
    assert_eq!(mem.read_u32(1048 - 8), 2);
    assert_eq!(mem.read_u32(1048 - 4), 6);
    assert_eq!(__pin(p as u32), p as u32);
    assert_eq!(__pin(0), 0);
    let before = mem.heap_cursor();
    __unpin(p as u32);
    __collect();
    assert_eq!(mem.heap_cursor(), before);
    assert_eq!(mem.read_u32(1048 - 4), 6);
}

#[test]
fn log_levels() {
    let mut mem = Memory::new(1028, 1, 16).unwrap();
    let cases: Vec<(HostCall, i32)> = vec![
        (critical(&mut mem, "c"), 0),
        (error(&mut mem, "e"), 1),
        (warning(&mut mem, "w"), 2),
        (info(&mut mem, "i"), 3),
        (debug(&mut mem, "d"), 4),
        (log(&mut mem, Level::Warning, "x"), 2),
    ];
    let texts = ["c", "e", "w", "i", "d", "x"];
    for ((request, level), t) in cases.iter().zip(texts.iter()) {
        assert_eq!(request.import, Import::LogLog);
        assert_eq!(request.args.len(), 2);
        assert_eq!(request.args[0], *level);
        assert_eq!(text(&mem, request.args[1]), *t);
    }
    assert_eq!(Level::Critical.code(), 0);
    assert_eq!(Level::Debug.code(), 4);
}

#[test]
fn keccak_request_and_reply() {
    let mut mem = Memory::new(1028, 1, 16).unwrap();
    let request = keccak256(&mut mem, &[1, 2, 3]);
    assert_eq!(request.import, Import::CryptoKeccak256);
    assert_eq!(request.args.len(), 1);
    assert_eq!(asc_to_bytes(&mem, AscPtr::new(request.args[0] as u32)), vec![1, 2, 3]);
    let hash = bytes_to_asc(&mut mem, &[0xAB; 32]);
    assert_eq!(keccak256_reply(&mem, hash.as_i32()).as_slice(), &[0xAB; 32]);
    assert!(keccak256_reply(&mem, 0).is_empty());
}

#[test]
fn ipfs_request_and_reply() {
    let mut mem = Memory::new(1028, 1, 16).unwrap();
    let request = cat(&mut mem, "QmHash");
    assert_eq!(request.import, Import::IpfsCat);
    assert_eq!(text(&mem, request.args[0]), "QmHash");
    assert!(cat_reply(&mem, 0).is_none());
    let file = bytes_to_asc(&mut mem, b"content");
    assert_eq!(cat_reply(&mem, file.as_i32()).unwrap().as_slice(), b"content");
}

#[test]
fn data_source_requests() {
    let mut mem = Memory::new(1028, 1, 16).unwrap();
    let params = vec!["0xabc".to_string(), String::new(), "third".to_string()];
    let a = strings_to_asc_array(&mut mem, &params);
    assert_eq!(mem.read_u32(a - 8), 1000);
    let elems = read_array(&mem, a);
    assert_eq!(elems.len(), 3);
    for (e, p) in elems.iter().zip(params.iter()) {
        assert_eq!(&asc_to_string(&mem, AscPtr::new(*e)), p);
    }
    let request = create(&mut mem, "Pool", &params);
    assert_eq!(request.import, Import::DataSourceCreate);
    assert_eq!(request.args.len(), 2);
    assert_eq!(text(&mem, request.args[0]), "Pool");
    let elems = read_array(&mem, request.args[1] as u32);
    assert_eq!(elems.len(), 3);
    assert_eq!(asc_to_string(&mem, AscPtr::new(elems[2])), "third");
    let before = mem.heap_cursor();
    create_with_context("Pool", &params, EntityData::new());
    assert_eq!(mem.heap_cursor(), before);

    assert!(is(&address(), Import::DataSourceAddress, &[]));
    assert!(is(&network(), Import::DataSourceNetwork, &[]));
    assert!(is(&context(), Import::DataSourceContext, &[]));
    assert!(is(&string_param(), Import::DataSourceAddress, &[]));
    let addr = bytes_to_asc(&mut mem, &[5u8; 20]);
    assert_eq!(address_reply(&mem, addr.as_i32()).as_bytes(), &[5u8; 20]);
    assert_eq!(address_reply(&mem, 0).as_bytes(), &[0u8; 20]);
    let net = str_to_asc(&mut mem, "mainnet");
    assert_eq!(network_reply(&mem, net.as_i32()), "mainnet");
    assert_eq!(context_reply(1234).len(), 0);
    let cid = bytes_to_asc(&mut mem, b"QmYwAPJzv5CZsnA625s3");
    assert_eq!(string_param_reply(&mem, cid.as_i32()), "QmYwAPJzv5CZsnA625s3");
    let broken = bytes_to_asc(&mut mem, &[b'a', 0xFF, b'b']);
    let mut expected = "\0".repeat(17);
    expected.push_str("a\u{FFFD}b");
    assert_eq!(string_param_reply(&mem, broken.as_i32()), expected);
}

#[test]
fn big_int_requests() {
    let mut mem = Memory::new(1028, 1, 16).unwrap();
    let a = BigInt::from_ptr(AscPtr::new(0x100));
    let b = BigInt::from_ptr(AscPtr::new(0xFFFF_FFF0));
    assert!(is(&a.plus(&b), Import::BigIntPlus, &[0x100, -16]));
    assert!(is(&a.minus(&b), Import::BigIntMinus, &[0x100, -16]));
    assert!(is(&a.times(&b), Import::BigIntTimes, &[0x100, -16]));
    assert!(is(&a.divided_by(&b), Import::BigIntDividedBy, &[0x100, -16]));
    assert!(is(&a.modulo(&b), Import::BigIntMod, &[0x100, -16]));
    assert!(is(&a.pow(255), Import::BigIntPow, &[0x100, 255]));
    assert!(is(&a.bit_or(&b), Import::BigIntBitOr, &[0x100, -16]));
    assert!(is(&a.bit_and(&b), Import::BigIntBitAnd, &[0x100, -16]));
    assert!(is(&a.left_shift(3), Import::BigIntLeftShift, &[0x100, 3]));
    assert!(is(&a.right_shift(4), Import::BigIntRightShift, &[0x100, 4]));
    assert!(is(&a.to_string(), Import::BigIntToString, &[0x100]));
    assert!(is(&a.to_hex(), Import::BigIntToHex, &[0x100]));
    assert!(is(&big_int_plus(1, 2), Import::BigIntPlus, &[1, 2]));
    assert!(is(&ipfs_map(1, 2, 3, 4), Import::IpfsMap, &[1, 2, 3, 4]));
    assert_eq!(BigInt::from_reply(-16).as_ptr().as_raw(), 0xFFFF_FFF0);
    assert_eq!(ptr_from_reply(-1), 0xFFFF_FFFF);
    assert_eq!(a.clone().as_ptr().as_raw(), 0x100);

    let zero = BigInt::zero(&mut mem);
    assert_eq!(asc_to_bytes(&mem, zero.as_ptr()), vec![0, 0, 0, 0]);
    let one = BigInt::one(&mut mem);
    assert_eq!(asc_to_bytes(&mem, one.as_ptr()), vec![1, 0, 0, 0]);
    let neg = BigInt::from_i32(&mut mem, -2);
    assert_eq!(asc_to_bytes(&mem, neg.as_ptr()), vec![0xFE, 0xFF, 0xFF, 0xFF]);
    let n = BigInt::from_i32(&mut mem, 0x0102_0304);
    assert_eq!(asc_to_bytes(&mem, n.as_ptr()), vec![4, 3, 2, 1]);
    let big = BigInt::from_u64(&mut mem, 0x0102_0304_0506_0708);
    assert_eq!(asc_to_bytes(&mem, big.as_ptr()), vec![8, 7, 6, 5, 4, 3, 2, 1]);
    assert_eq!(mem.read_u32(big.as_ptr().as_raw() - 8), 1);
    let zero_text = str_to_asc(&mut mem, "0");
    let other_text = str_to_asc(&mut mem, "00");
    assert!(zero.is_zero(&mem, zero_text.as_i32()));
    assert!(!zero.is_zero(&mem, other_text.as_i32()));
    assert!(!zero.is_zero(&mem, 0));
}

#[test]
fn big_decimal_requests() {
    let mut mem = Memory::new(1028, 1, 16).unwrap();
    let a = BigDecimal::from_ptr(AscPtr::new(0x200));
    let b = BigDecimal::from_ptr(AscPtr::new(0x300));
    assert!(is(&a.plus(&b), Import::BigDecimalPlus, &[0x200, 0x300]));
    assert!(is(&a.minus(&b), Import::BigDecimalMinus, &[0x200, 0x300]));
    assert!(is(&a.times(&b), Import::BigDecimalTimes, &[0x200, 0x300]));
    assert!(is(&a.divided_by(&b), Import::BigDecimalDividedBy, &[0x200, 0x300]));
    assert!(is(&a.to_string(), Import::BigDecimalToString, &[0x200]));
    assert!(is(&a.is_zero(&b), Import::BigDecimalEquals, &[0x200, 0x300]));
    assert!(BigDecimal::equals_reply(1));
    assert!(BigDecimal::equals_reply(-1));
    assert!(!BigDecimal::equals_reply(0));
    assert_eq!(BigDecimal::from_reply(0x400).as_ptr().as_raw(), 0x400);
    assert_eq!(a.clone().as_ptr().as_raw(), 0x200);

    let request = BigDecimal::from_string(&mut mem, "1.5");
    assert_eq!(request.import, Import::BigDecimalFromString);
    assert_eq!(text(&mem, request.args[0]), "1.5");
    let request = BigDecimal::zero(&mut mem);
    assert_eq!(text(&mem, request.args[0]), "0");
    let request = BigDecimal::one(&mut mem);
    assert_eq!(text(&mem, request.args[0]), "1");
    let n = BigInt::from_ptr(AscPtr::new(0x500));
    assert!(is(&BigDecimal::from_big_int(&n), Import::BigIntToString, &[0x500]));
    let decimal = str_to_asc(&mut mem, "12345");
    let request = BigDecimal::from_big_int_reply(&mut mem, decimal.as_i32());
    assert_eq!(request.import, Import::BigDecimalFromString);
    assert_ne!(request.args[0], decimal.as_i32());
    assert_eq!(text(&mem, request.args[0]), "12345");
}

#[test]
fn addresses_and_bytes() {
    let a = Address::new([0xAB; 20]);
    assert_eq!(a.to_hex(), format!("0x{}", "ab".repeat(20)));
    assert_eq!(Address::zero().to_hex(), format!("0x{}", "00".repeat(20)));
    assert_eq!(a.clone().as_bytes(), &[0xAB; 20]);
    assert_eq!(Address::from_slice(&[1, 2]).to_hex(), format!("0x{}0102", "00".repeat(18)));
    let b = Bytes::from_vec(vec![0x00, 0x0f, 0xf0, 0x9a]);
    assert_eq!(b.to_hex(), "0x000ff09a");
    assert_eq!(Bytes::new().to_hex(), "0x");
    assert_eq!(b.len(), 4);
    assert!(!b.is_empty());
    assert!(Bytes::new().is_empty());
    assert_eq!(b.clone().as_slice(), &[0x00, 0x0f, 0xf0, 0x9a]);
}

#[test]
fn remaining_requests() {
    assert!(is(&ethereum_encode(5), Import::EthereumEncode, &[5]));
    assert!(is(&ethereum_decode(5, 6), Import::EthereumDecode, &[5, 6]));
    assert!(is(&bytes_to_string(1), Import::BytesToString, &[1]));
    assert!(is(&bytes_to_hex(2), Import::BytesToHex, &[2]));
    assert!(is(&string_to_h160(3), Import::StringToH160, &[3]));
    assert!(is(&bytes_to_base58(4), Import::BytesToBase58, &[4]));
    assert!(is(&json_from_bytes(7), Import::JsonFromBytes, &[7]));
    assert!(is(&json_to_i64(8), Import::JsonToI64, &[8]));
    assert!(is(&json_to_u64(9), Import::JsonToU64, &[9]));
    assert!(is(&json_to_f64(10), Import::JsonToF64, &[10]));
    assert!(is(&json_to_big_int(11), Import::JsonToBigInt, &[11]));
    assert!(is(&ens_name_by_hash(-1), Import::EnsNameByHash, &[-1]));
    for import in Import::all() {
        assert!(import.param_count() <= 4);
    }
}

#[test]
fn create_budget_matches_the_heap() {
    let mut mem = Memory::new(1028, 1, 16).unwrap();
    let params = vec!["0xabc".to_string(), String::new()];
    let free = mem.free_bytes();
    let left = spend_create("Pool", &params, free).unwrap();
    create(&mut mem, "Pool", &params);
    assert_eq!(mem.free_bytes(), left);
    assert_eq!(spend_create("Pool", &params, free - left), Some(0));
    assert_eq!(spend_create("Pool", &params, free - left - 1), None);
    assert_eq!(spend_create("Pool", &Vec::new(), 32 + 24 + 40), Some(0));
    assert_eq!(spend_create("Pool", &Vec::new(), 32 + 24 + 39), None);
}
