use yogurt::asc::{
    asc_to_bytes, asc_to_string, decode, AscBytes, AscPtr, AscString, StoreValueKind, ToAscPtr,
};
use yogurt::ethereum::{Block, Token, Transaction, TransactionReceipt};
use yogurt::host::{HostCall, Import};
use yogurt::prelude::{Address, BigInt, Bytes, FromAscPtr, Memory, Value};
use yogurt::value::EntityData;

#[test]
fn pointer_equality_is_by_offset() {
    let a: AscPtr<AscString> = AscPtr::new(8);
    let b: AscPtr<AscString> = AscPtr::new(8);
    let c: AscPtr<AscString> = AscPtr::new(16);
    assert!(a == b);
    assert!(a != c);
    assert!(AscPtr::<AscBytes>::null() == AscPtr::new(0));
    let copy = a;
    assert!(copy == a.clone());
}

#[test]
fn conversions_and_defaults() {
    assert_eq!(Bytes::from(vec![1, 2]), Bytes::from_vec(vec![1, 2]));
    assert_eq!(Bytes::default(), Bytes::new());
    assert_ne!(Bytes::from(vec![1]), Bytes::new());
    assert_eq!(Address::from([3u8; 20]), Address::new([3u8; 20]));
    assert_ne!(Address::zero(), Address::new([3u8; 20]));
}

#[test]
fn writers_by_trait() {
    let mut mem = Memory::new(1028, 1, 16).unwrap();
    let s = "by trait".to_string().to_asc_ptr(&mut mem);
    assert_eq!(asc_to_string(&mem, AscPtr::new(s)), "by trait");
    assert_eq!(String::from_asc_ptr(&mem, s), "by trait");
    let b = vec![9u8, 8, 7].to_asc_ptr(&mut mem);
    assert_eq!(asc_to_bytes(&mem, AscPtr::new(b)), vec![9, 8, 7]);
    assert!(String::check(&mem, s));
}

#[test]
fn store_value_kinds() {
    let kinds = [
        (StoreValueKind::String, 0),
        (StoreValueKind::Int, 1),
        (StoreValueKind::BigDecimal, 2),
        (StoreValueKind::Bool, 3),
        (StoreValueKind::Array, 4),
        (StoreValueKind::Null, 5),
        (StoreValueKind::Bytes, 6),
        (StoreValueKind::BigInt, 7),
        (StoreValueKind::Int8, 8),
        (StoreValueKind::Timestamp, 9),
    ];
    for (kind, code) in kinds {
        assert_eq!(kind.code(), code);
        assert_eq!(StoreValueKind::from_code(code), Some(kind));
    }
    assert_eq!(StoreValueKind::from_code(10), None);
    assert_eq!(StoreValueKind::from_code(-1), None);
}

#[test]
fn copies_are_deep() {
    let mut block = Block::default();
    block.hash = Bytes::from_vec(vec![1, 2, 3]);
    block.size = Some(BigInt::from_ptr(AscPtr::new(64)));
    let copy = block.clone();
    block.hash = Bytes::new();
    assert_eq!(copy.hash.as_slice(), &[1, 2, 3]);
    assert_eq!(copy.size.unwrap().as_ptr().as_raw(), 64);
    assert!(copy.base_fee_per_gas.is_none());
    let mut tx = Transaction::default();
    tx.to = Some(Address::new([5u8; 20]));
    assert_eq!(tx.clone().to, Some(Address::new([5u8; 20])));
    let mut receipt = TransactionReceipt::default();
    receipt.root = Bytes::from_vec(vec![4]);
    assert_eq!(receipt.clone().root, Bytes::from_vec(vec![4]));
    let token = Token::Tuple(vec![
        Token::String("s".to_string()),
        Token::Array(vec![Token::Bool(true)]),
        Token::FixedBytes(vec![1]),
    ]);
    match token.clone() {
        Token::Tuple(items) => {
            assert_eq!(items.len(), 3);
            assert!(matches!(&items[0], Token::String(s) if s == "s"));
            assert!(matches!(&items[1], Token::Array(a) if a.len() == 1));
            assert!(matches!(&items[2], Token::FixedBytes(b) if b == &vec![1]));
        }
        other => panic!("unexpected copy {:?}", other),
    }
    let value = Value::Array(vec![Value::String("v".to_string()), Value::Null]);
    match value.clone() {
        Value::Array(items) => {
            assert_eq!(items.len(), 2);
            assert_eq!(items[0].as_string(), Some("v"));
            assert!(items[1].is_null());
        }
        other => panic!("unexpected copy {:?}", other),
    }
}

#[test]
fn composite_codecs_by_trait() {
    let mut mem = Memory::new(1028, 1, 16).unwrap();
    let value = Value::Array(vec![Value::Int(-3), Value::String("x".to_string())]);
    let p = value.to_asc_ptr(&mut mem);
    match decode::<Value>(&mem, p) {
        Some(Value::Array(items)) => {
            assert_eq!(items.len(), 2);
            assert!(matches!(items[0], Value::Int(-3)));
            assert_eq!(items[1].as_string(), Some("x"));
        }
        other => panic!("unexpected value {:?}", other),
    }
    assert!(decode::<Value>(&mem, mem.size_bytes() - 8).is_none());
    assert!(matches!(decode::<Value>(&mem, 0), Some(Value::Null)));
    let mut data = EntityData::new();
    data.set("id", Value::String("e".to_string()));
    let e = data.to_asc_ptr(&mut mem);
    assert_eq!(decode::<EntityData>(&mem, e).unwrap().get_string("id"), "e");
    assert_eq!(decode::<EntityData>(&mem, 0).unwrap().len(), 0);
    assert!(decode::<EntityData>(&mem, mem.size_bytes()).is_none());
    let token = Token::Tuple(vec![Token::Bool(true)]);
    let t = token.to_asc_ptr(&mut mem);
    assert!(matches!(decode::<Token>(&mem, t), Some(Token::Tuple(items)) if items.len() == 1));
    assert!(matches!(decode::<Token>(&mem, 0), Some(Token::Bool(false))));
    let b = Bytes::from_vec(vec![1, 2]).to_asc_ptr(&mut mem);
    assert_eq!(decode::<Bytes>(&mem, b), Some(Bytes::from_vec(vec![1, 2])));
    assert_eq!(decode::<Address>(&mem, 0), Some(Address::zero()));
}

struct OneEntityHost {
    stored: Option<(String, String, u32)>,
}

impl OneEntityHost {
    fn perform(&mut self, mem: &Memory, call: &HostCall) -> i32 {
        let text = |arg: i32| asc_to_string(mem, AscPtr::new(arg as u32));
        match call.import {
            Import::StoreSet => {
                self.stored = Some((text(call.args[0]), text(call.args[1]), call.args[2] as u32));
                0
            }
            Import::StoreGet => match &self.stored {
                Some((kind, id, data)) if *kind == text(call.args[0]) && *id == text(call.args[1]) => {
                    *data as i32
                }
                _ => 0,
            },
            Import::StoreRemove => {
                self.stored = None;
                0
            }
            _ => 0,
        }
    }
}

#[test]
fn requests_and_replies_meet_in_a_host() {
    let mut mem = Memory::new(1028, 1, 16).unwrap();
    let mut host = OneEntityHost { stored: None };
    let mut data = EntityData::new();
    data.set("id", Value::String("a-0".to_string()));
    data.set("flag", Value::Bool(true));

    let request = yogurt::store::get(&mut mem, "Token", "a-0");
    let reply = host.perform(&mem, &request);
    assert!(yogurt::store::get_reply(&mem, reply).is_none());

    let request = yogurt::store::set(&mut mem, "Token", "a-0", &data);
    host.perform(&mem, &request);

    let request = yogurt::store::get(&mut mem, "Token", "a-0");
    let reply = host.perform(&mem, &request);
    let loaded = yogurt::store::get_reply(&mem, reply).unwrap();
    assert_eq!(loaded.len(), 2);
    assert_eq!(loaded.get_string("id"), "a-0");
    assert!(matches!(loaded.get("flag"), Some(Value::Bool(true))));

    let request = yogurt::store::get(&mut mem, "Token", "a-1");
    assert_eq!(host.perform(&mem, &request), 0);
    let request = yogurt::store::remove(&mut mem, "Token", "a-0");
    host.perform(&mem, &request);
    let request = yogurt::store::get(&mut mem, "Token", "a-0");
    assert_eq!(host.perform(&mem, &request), 0);
}
