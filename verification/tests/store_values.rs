use yogurt::allocator::{asc_alloc, spend_object, ARRAY_BUFFER};
use yogurt::asc::{asc_to_string, spend_string, str_to_asc, AscPtr};
use yogurt::host::Import;
use yogurt::memory::Memory;
use yogurt::shapes::{
    read_array, read_array_header, read_entry_header, read_enum_header, read_map_header,
    spend_array, write_array, write_enum, write_object,
};
use yogurt::store::{
    deserialize_entity, deserialize_value, deserialize_value_array, entity_readable, get, get_reply,
    remove, serialize_entity, serialize_entry, serialize_value, serialize_value_array, spend_entity,
    spend_value, spend_values, value_array_readable, value_readable,
};
use yogurt::types::{BigDecimal, BigInt, Bytes};
use yogurt::value::{EntityData, Value};

fn header(mem: &Memory, p: u32) -> (u32, u32, u32, u32, u32) {
    (
        mem.read_u32(p - 20),
        mem.read_u32(p - 16),
        mem.read_u32(p - 12),
        mem.read_u32(p - 8),
        mem.read_u32(p - 4),
    )
}

fn same(a: &Value, b: &Value) -> bool {
    match (a, b) {
        (Value::String(x), Value::String(y)) => x == y,
        (Value::Int(x), Value::Int(y)) => x == y,
        (Value::Int8(x), Value::Int8(y)) => x == y,
        (Value::BigInt(x), Value::BigInt(y)) => x.as_ptr().as_raw() == y.as_ptr().as_raw(),
        (Value::BigDecimal(x), Value::BigDecimal(y)) => x.as_ptr().as_raw() == y.as_ptr().as_raw(),
        (Value::Bool(x), Value::Bool(y)) => x == y,
        (Value::Bytes(x), Value::Bytes(y)) => x.as_slice() == y.as_slice(),
        (Value::Array(x), Value::Array(y)) => {
            x.len() == y.len() && x.iter().zip(y.iter()).all(|(p, q)| same(p, q))
        }
        (Value::Null, Value::Null) => true,
        _ => false,
    }
}

fn big_int(handle: u32) -> BigInt {
    BigInt::from_ptr(AscPtr::new(handle))
}

#[test]
fn empty_array_has_header_and_empty_buffer() {
    let mut mem = Memory::new(1028, 1, 16).unwrap();
    let a = write_array(&mut mem, &Vec::new(), 1000);
    assert_eq!(header(&mem, a), (0, 0, 0, 1000, 16));
    let buffer = mem.read_u32(a);
    assert_ne!(buffer, 0);
    assert_eq!(mem.read_u32(a + 4), 0);
    assert_eq!(mem.read_u32(a + 8), 0);
    assert_eq!(mem.read_u32(a + 12), 0);
    assert_eq!(header(&mem, buffer), (0, 0, 0, ARRAY_BUFFER, 0));
    assert_eq!(read_array(&mem, a), Vec::<u32>::new());
}

#[test]
fn array_round_trip_keeps_children() {
    let mut mem = Memory::new(1028, 1, 16).unwrap();
    let words = ["alpha", "", "gamma"];
    let ptrs: Vec<u32> = words.iter().map(|w| str_to_asc(&mut mem, w).as_raw()).collect();
    let a = write_array(&mut mem, &ptrs, 1000);
    assert_eq!(mem.read_u32(a + 4), 0);
    assert_eq!(mem.read_u32(a + 8), 12);
    assert_eq!(mem.read_u32(a + 12), 3);
    let buffer = mem.read_u32(a);
    assert_eq!(header(&mem, buffer), (0, 0, 0, 1, 12));
    assert!(buffer < a);
    let back = read_array(&mem, a);
    assert_eq!(back, ptrs);
    for (p, w) in back.iter().zip(words.iter()) {
        assert!(*p < buffer);
        assert_eq!(asc_to_string(&mem, AscPtr::new(*p)), *w);
    }
}

#[test]
fn array_reads_as_empty() {
    let mut mem = Memory::new(1028, 1, 16).unwrap();
    assert_eq!(read_array(&mem, 0), Vec::<u32>::new());
    let mut fields = vec![0u32, 0, 8, 2];
    let null_buffer = write_object(&mut mem, 1000, &fields);
    assert_eq!(read_array(&mem, null_buffer), Vec::<u32>::new());
    let buffer = write_object(&mut mem, 1, &vec![7, 9]);
    fields[0] = buffer;
    fields[3] = 0xFFFF_FFFF;
    let negative = write_object(&mut mem, 1000, &fields);
    assert_eq!(read_array(&mem, negative), Vec::<u32>::new());
    fields[3] = 2;
    let two = write_object(&mut mem, 1000, &fields);
    assert_eq!(read_array(&mem, two), vec![7, 9]);
}

#[test]
fn value_layouts() {
    let mut mem = Memory::new(1028, 1, 16).unwrap();
    let p = serialize_value(&mut mem, &Value::Bool(true)).as_raw();
    assert_eq!(header(&mem, p), (0, 0, 0, 1003, 16));
    assert_eq!((mem.read_u32(p), mem.read_u32(p + 4), mem.read_u64(p + 8)), (3, 0, 1));
    let p = serialize_value(&mut mem, &Value::Bool(false)).as_raw();
    assert_eq!((mem.read_u32(p), mem.read_u64(p + 8)), (3, 0));
    let p = serialize_value(&mut mem, &Value::Int(-2)).as_raw();
    assert_eq!((mem.read_u32(p), mem.read_u64(p + 8)), (1, 0xFFFF_FFFF_FFFF_FFFE));
    let p = serialize_value(&mut mem, &Value::Int(7)).as_raw();
    assert_eq!((mem.read_u32(p), mem.read_u64(p + 8)), (1, 7));
    let p = serialize_value(&mut mem, &Value::Int8(-1)).as_raw();
    assert_eq!((mem.read_u32(p), mem.read_u64(p + 8)), (8, u64::MAX));
    let p = serialize_value(&mut mem, &Value::BigInt(big_int(0x100))).as_raw();
    assert_eq!((mem.read_u32(p), mem.read_u64(p + 8)), (7, 0x100));
    let p = serialize_value(
        &mut mem,
        &Value::BigDecimal(BigDecimal::from_ptr(AscPtr::new(0x200))),
    )
    .as_raw();
    assert_eq!((mem.read_u32(p), mem.read_u64(p + 8)), (2, 0x200));
    let p = serialize_value(&mut mem, &Value::Null).as_raw();
    assert_eq!((mem.read_u32(p), mem.read_u64(p + 8)), (5, 0));
    let p = serialize_value(&mut mem, &Value::String("Hi".to_string())).as_raw();
    assert_eq!(mem.read_u32(p), 0);
    let s = mem.read_u64(p + 8) as u32;
    assert!(s < p);
    assert_eq!(header(&mem, s), (0, 0, 0, 2, 4));
    let p = serialize_value(&mut mem, &Value::Bytes(Bytes::from_vec(vec![1, 2, 3]))).as_raw();
    assert_eq!(mem.read_u32(p), 6);
    let b = mem.read_u64(p + 8) as u32;
    assert_eq!(header(&mem, b), (0, 0, 0, 1, 3));
    let p = serialize_value(&mut mem, &Value::Array(vec![Value::Null])).as_raw();
    assert_eq!(mem.read_u32(p), 4);
    let a = mem.read_u64(p + 8) as u32;
    assert_eq!(header(&mem, a), (0, 0, 0, 1004, 16));
    assert_eq!(mem.read_u32(a + 12), 1);
}

#[test]
fn values_round_trip() {
    let mut mem = Memory::new(1028, 1, 16).unwrap();
    let values = vec![
        Value::String("héllo \u{1F600}".to_string()),
        Value::String(String::new()),
        Value::Int(0),
        Value::Int(i32::MIN),
        Value::Int(i32::MAX),
        Value::Int8(i64::MIN),
        Value::Int8(i64::MAX),
        Value::BigInt(big_int(0xFFFF_FFF8)),
        Value::BigDecimal(BigDecimal::from_ptr(AscPtr::new(24))),
        Value::Bool(true),
        Value::Bool(false),
        Value::Bytes(Bytes::from_vec(vec![0, 255, 7])),
        Value::Bytes(Bytes::new()),
        Value::Array(vec![]),
        Value::Array(vec![
            Value::Int(1),
            Value::Array(vec![Value::String("deep".to_string()), Value::Null]),
            Value::Bool(true),
        ]),
        Value::Null,
    ];
    let ptrs: Vec<_> = values.iter().map(|v| serialize_value(&mut mem, v)).collect();
    for (p, v) in ptrs.iter().zip(values.iter()) {
        assert!(same(&deserialize_value(&mem, *p), v));
    }
    let a = serialize_value_array(&mut mem, &values);
    let back = deserialize_value_array(&mem, a);
    assert_eq!(back.len(), values.len());
    for (x, y) in back.iter().zip(values.iter()) {
        assert!(same(x, y));
    }
}

#[test]
fn value_unknown_kind_and_null_read_as_null() {
    let mut mem = Memory::new(1028, 1, 16).unwrap();
    assert!(deserialize_value(&mem, AscPtr::null()).is_null());
    for kind in [9, 10, 77, -1] {
        let p = write_enum(&mut mem, 1003, kind, 12345);
        assert!(deserialize_value(&mem, AscPtr::new(p)).is_null());
    }
    assert_eq!(deserialize_value_array(&mem, AscPtr::null()).len(), 0);
    let p = write_enum(&mut mem, 1003, 4, 0);
    assert!(same(&deserialize_value(&mem, AscPtr::new(p)), &Value::Array(vec![])));
    let p = write_enum(&mut mem, 1003, 0, 0);
    assert!(same(&deserialize_value(&mem, AscPtr::new(p)), &Value::String(String::new())));
    let p = write_enum(&mut mem, 1003, 6, 0);
    assert!(same(&deserialize_value(&mem, AscPtr::new(p)), &Value::Bytes(Bytes::new())));
    let p = write_enum(&mut mem, 1003, 3, 2);
    assert!(same(&deserialize_value(&mem, AscPtr::new(p)), &Value::Bool(true)));
    let p = write_enum(&mut mem, 1003, 1, 0x1_0000_0005);
    assert!(same(&deserialize_value(&mem, AscPtr::new(p)), &Value::Int(5)));
}

#[test]
fn value_footprints_are_exact() {
    let mut mem = Memory::new(1028, 1, 16).unwrap();
    let c0 = mem.heap_cursor();
    serialize_value(&mut mem, &Value::Int(1));
    assert_eq!(mem.heap_cursor() - c0, 40);
    let c1 = mem.heap_cursor();
    serialize_value(&mut mem, &Value::String("Hi".to_string()));
    assert_eq!(mem.heap_cursor() - c1, 24 + 40);
    let c2 = mem.heap_cursor();
    serialize_value(&mut mem, &Value::Array(vec![Value::Null, Value::Bytes(Bytes::from_vec(vec![1]))]));
    assert_eq!(mem.heap_cursor() - c2, 40 + (24 + 40) + 32 + 40 + 40);
}

#[test]
fn entity_set_scenario() {
    let mut mem = Memory::new(1028, 1, 16).unwrap();
    let mut data = EntityData::new();
    data.set("id", Value::String("a-0".to_string()));
    data.set("value", Value::BigInt(big_int(0x100)));
    data.set("bool_flag", Value::Bool(true));
    let p = serialize_entity(&mut mem, &data).as_raw();
    assert_eq!(header(&mem, p), (0, 0, 0, 1001, 4));
    let entries = mem.read_u32(p);
    assert_eq!(header(&mem, entries), (0, 0, 0, 1000, 16));
    assert_eq!(mem.read_u32(entries + 12), 3);
    let elems = read_array(&mem, entries);
    assert_eq!(elems.len(), 3);
    let mut seen = Vec::new();
    for e in elems {
        assert_eq!(header(&mem, e), (0, 0, 0, 1002, 8));
        let key = asc_to_string(&mem, AscPtr::new(mem.read_u32(e)));
        let value = mem.read_u32(e + 4);
        assert_eq!(header(&mem, value), (0, 0, 0, 1003, 16));
        let kind = mem.read_u32(value);
        let payload = mem.read_u64(value + 8);
        match key.as_str() {
            "id" => {
                assert_eq!(kind, 0);
                assert_eq!(asc_to_string(&mem, AscPtr::new(payload as u32)), "a-0");
            }
            "value" => assert_eq!((kind, payload), (7, 0x100)),
            "bool_flag" => assert_eq!((kind, payload), (3, 1)),
            other => panic!("unexpected key {}", other),
        }
        seen.push(key);
    }
    seen.sort();
    assert_eq!(seen, vec!["bool_flag", "id", "value"]);
    let back = deserialize_entity(&mem, AscPtr::new(p));
    assert_eq!(back.len(), 3);
    assert_eq!(back.get_string("id"), "a-0");
    assert_eq!(back.get_bigint("value").as_ptr().as_raw(), 0x100);
    assert!(same(back.get("bool_flag").unwrap(), &Value::Bool(true)));
    assert!(back.get("missing").is_none());
    let names: Vec<&str> = back.iter().iter().map(|(k, _)| k.as_str()).collect();
    assert_eq!(names, vec!["bool_flag", "id", "value"]);
    let written: Vec<&str> = data.iter().iter().map(|(k, _)| k.as_str()).collect();
    assert_eq!(written, vec!["bool_flag", "id", "value"]);
}

#[test]
fn entity_null_and_duplicates() {
    let mut mem = Memory::new(1028, 1, 16).unwrap();
    assert_eq!(deserialize_entity(&mem, AscPtr::null()).len(), 0);
    let no_array = write_object(&mut mem, 1001, &vec![0]);
    assert_eq!(deserialize_entity(&mem, AscPtr::new(no_array)).len(), 0);
    let e1 = serialize_entry(&mut mem, &"k".to_string(), &Value::Int(1)).as_raw();
    let e2 = serialize_entry(&mut mem, &"j".to_string(), &Value::Int(2)).as_raw();
    let e3 = serialize_entry(&mut mem, &"k".to_string(), &Value::Int(3)).as_raw();
    let a = write_array(&mut mem, &vec![e1, 0, e2, e3], 1000);
    let p = write_object(&mut mem, 1001, &vec![a]);
    let back = deserialize_entity(&mem, AscPtr::new(p));
    assert_eq!(back.len(), 2);
    let names: Vec<&str> = back.iter().iter().map(|(k, _)| k.as_str()).collect();
    assert_eq!(names, vec!["j", "k"]);
    assert!(same(back.get("k").unwrap(), &Value::Int(3)));
    assert!(same(back.get("j").unwrap(), &Value::Int(2)));
}

#[test]
fn entity_data_accessors() {
    let mut data = EntityData::new();
    assert_eq!(data.len(), 0);
    data.set("s", Value::String("x".to_string()));
    data.set("b", Value::Bytes(Bytes::from_vec(vec![9])));
    data.set("d", Value::BigDecimal(BigDecimal::from_ptr(AscPtr::new(8))));
    data.set("n", Value::Null);
    data.set("s", Value::String("y".to_string()));
    assert_eq!(data.len(), 4);
    assert_eq!(data.get_string("s"), "y");
    assert_eq!(data.get_string_opt("s"), Some("y"));
    assert_eq!(data.get_string_opt("b"), None);
    assert_eq!(data.get_string_opt("zz"), None);
    assert_eq!(data.get_bytes("b").as_slice(), &[9]);
    assert_eq!(data.get_big_decimal("d").as_ptr().as_raw(), 8);
    assert!(data.get("n").unwrap().is_null());
    let copy = data.clone();
    assert_eq!(copy.len(), 4);
    assert_eq!(copy.get_string("s"), "y");
    let v = Value::String("q".to_string());
    assert_eq!(v.as_string(), Some("q"));
    assert!(v.as_bytes().is_none());
    assert!(v.as_big_int().is_none());
    assert!(v.as_big_decimal().is_none());
    assert!(!v.is_null());
    assert!(Value::Bytes(Bytes::new()).as_bytes().is_some());
    assert!(Value::BigInt(big_int(4)).as_big_int().is_some());
}

#[test]
fn store_requests() {
    let mut mem = Memory::new(1028, 1, 16).unwrap();
    let request = get(&mut mem, "Token", "a-0");
    assert_eq!(request.import, Import::StoreGet);
    assert_eq!(request.args.len(), 2);
    assert_eq!(asc_to_string(&mem, AscPtr::new(request.args[0] as u32)), "Token");
    assert_eq!(asc_to_string(&mem, AscPtr::new(request.args[1] as u32)), "a-0");
    assert!(get_reply(&mem, 0).is_none());

    let mut data = EntityData::new();
    data.set("id", Value::String("a-0".to_string()));
    let request = yogurt::store::set(&mut mem, "Token", "a-0", &data);
    assert_eq!(request.import, Import::StoreSet);
    assert_eq!(request.args.len(), 3);
    assert_eq!(asc_to_string(&mem, AscPtr::new(request.args[0] as u32)), "Token");
    let loaded = get_reply(&mem, request.args[2]).unwrap();
    assert_eq!(loaded.get_string("id"), "a-0");

    let request = remove(&mut mem, "Token", "a-1");
    assert_eq!(request.import, Import::StoreRemove);
    assert_eq!(asc_to_string(&mem, AscPtr::new(request.args[1] as u32)), "a-1");
    let _ = asc_alloc(&mut mem, 0, 0);
}

#[test]
fn value_budgets_match_the_heap() {
    let mut mem = Memory::new(1028, 1, 16).unwrap();
    assert_eq!(spend_object(0, 24), Some(0));
    assert_eq!(spend_object(0, 23), None);
    assert_eq!(spend_object(4, 24), Some(0));
    assert_eq!(spend_object(5, 31), None);
    assert_eq!(spend_object(5, 32), Some(0));
    assert_eq!(spend_object(usize::MAX, u32::MAX), None);
    assert_eq!(spend_string("", 24), Some(0));
    assert_eq!(spend_string("ab", 24), Some(0));
    assert_eq!(spend_string("abc", 24), None);
    assert_eq!(spend_string("abc", 100), Some(68));
    assert_eq!(spend_string("\u{1F600}", 24), Some(0));
    assert_eq!(spend_string("\u{1F600}x", 24), None);
    assert_eq!(spend_array(0, 64), Some(0));
    assert_eq!(spend_array(1, 64), Some(0));
    assert_eq!(spend_array(2, 64), None);
    assert_eq!(spend_array(usize::MAX, u32::MAX), None);
    let values = vec![
        Value::Null,
        Value::String("hello".to_string()),
        Value::Bytes(Bytes::from_vec(vec![1; 9])),
        Value::Array(vec![Value::Int(1), Value::Array(vec![Value::Bool(true)])]),
    ];
    for v in values.iter() {
        let before = mem.heap_cursor();
        let left = spend_value(v, 5_000).unwrap();
        serialize_value(&mut mem, v);
        assert_eq!(mem.heap_cursor() - before, 5_000 - left);
        assert_eq!(spend_value(v, 5_000 - left), Some(0));
        assert_eq!(spend_value(v, 5_000 - left - 1), None);
    }
    let before = mem.heap_cursor();
    let left = spend_values(&values, 5_000).unwrap();
    serialize_value_array(&mut mem, &values);
    assert_eq!(mem.heap_cursor() - before, 5_000 - left);
    let mut data = EntityData::new();
    data.set("id", Value::String("a-0".to_string()));
    data.set("list", Value::Array(values));
    let before = mem.heap_cursor();
    let free = mem.free_bytes();
    let left = spend_entity(&data, free).unwrap();
    serialize_entity(&mut mem, &data);
    assert_eq!(mem.heap_cursor() - before, free - left);
    assert_eq!(mem.free_bytes(), left);
    assert_eq!(spend_entity(&data, free - left - 1), None);
    assert_eq!(spend_entity(&EntityData::new(), 64 + 24), Some(0));
}

#[test]
fn value_readability() {
    let mut mem = Memory::new(1028, 1, 16).unwrap();
    let len = mem.size_bytes();
    let v = serialize_value(
        &mut mem,
        &Value::Array(vec![Value::String("x".to_string()), Value::Bytes(Bytes::from_vec(vec![2]))]),
    )
    .as_raw();
    assert!(value_readable(&mem, len, v));
    assert!(value_readable(&mem, v + 16, v));
    assert!(!value_readable(&mem, v + 15, v));
    assert!(value_readable(&mem, len, 0));
    assert!(!value_readable(&mem, len, 16));
    assert!(!value_readable(&mem, len, len - 15));
    let array = mem.read_u64(v + 8) as u32;
    assert!(value_array_readable(&mem, len, array));
    let own = write_enum(&mut mem, 1003, 4, 0);
    mem.write_u64(own + 8, own as u64);
    assert!(!value_readable(&mem, len, own));
    let dangling = write_enum(&mut mem, 1003, 0, (len - 2) as u64);
    assert!(!value_readable(&mem, len, dangling));
    let inline = write_enum(&mut mem, 1003, 1, u64::MAX);
    assert!(value_readable(&mem, len, inline));
    let unknown = write_enum(&mut mem, 1003, 99, u64::MAX);
    assert!(value_readable(&mem, len, unknown));

    let mut data = EntityData::new();
    data.set("k", Value::Int(1));
    let e = serialize_entity(&mut mem, &data).as_raw();
    assert!(entity_readable(&mem, len, e));
    assert!(entity_readable(&mem, len, 0));
    assert!(!entity_readable(&mem, e + 3, e));
    let entries = mem.read_u32(e);
    let entry = read_array(&mem, entries)[0];
    let key = mem.read_u32(entry);
    mem.write_u32(entry, entry + 8);
    assert!(!entity_readable(&mem, len, e));
    mem.write_u32(entry, key);
    assert!(entity_readable(&mem, len, e));
    assert!(get_reply(&mem, e as i32).is_some());
    mem.write_u32(e, e);
    assert!(!entity_readable(&mem, len, e));
}

#[test]
fn header_records_are_read_field_by_field() {
    let mut mem = Memory::new(1028, 1, 16).unwrap();
    let a = write_array(&mut mem, &vec![11, 22, 33], 1000);
    let header = read_array_header(&mem, a);
    assert_eq!(header.buffer, a - 40 + 8);
    assert_eq!(header.buffer_data_start, 0);
    assert_eq!(header.buffer_data_length, 12);
    assert_eq!(header.length, 3);
    let e = write_enum(&mut mem, 1003, -7, 0x1122_3344_5566_7788);
    let variant = read_enum_header(&mem, e);
    assert_eq!(variant.kind, -7);
    assert_eq!(variant._padding, 0);
    assert_eq!(variant.payload, 0x1122_3344_5566_7788);
    let entry = write_object(&mut mem, 1002, &vec![5, 6]);
    let fields = read_entry_header(&mem, entry);
    assert_eq!((fields.key, fields.value), (5, 6));
    let map = write_object(&mut mem, 1001, &vec![a]);
    assert_eq!(read_map_header(&mem, map).entries, a);
}

#[test]
fn fields_come_in_the_order_of_their_names() {
    let keys = [
        "b", "a", "", "ab", "aa", "B", "é", "z", "a\u{10000}", "a\u{FFFF}", "aaa", "_", "10", "9",
        "b", "a",
    ];
    let mut data = EntityData::new();
    let mut sorted = std::collections::BTreeMap::new();
    for (i, key) in keys.iter().enumerate() {
        data.set(key, Value::Int(i as i32));
        sorted.insert(key.to_string(), i as i32);
        let names: Vec<&String> = data.iter().iter().map(|(k, _)| k).collect();
        let expected: Vec<&String> = sorted.keys().collect();
        assert_eq!(names, expected);
    }
    assert_eq!(data.len(), 14);
    for ((k, v), (name, value)) in sorted.iter().zip(data.iter().iter()) {
        assert_eq!(k, name);
        assert!(same(value, &Value::Int(*v)));
    }
    let mut two = EntityData::new();
    two.set("b", Value::Null);
    two.set("a", Value::Null);
    let names: Vec<&str> = two.iter().iter().map(|(k, _)| k.as_str()).collect();
    assert_eq!(names, vec!["a", "b"]);
    let mut mem = Memory::new(1028, 1, 16).unwrap();
    let p = serialize_entity(&mut mem, &data);
    let back = deserialize_entity(&mem, p);
    let names: Vec<&String> = back.iter().iter().map(|(k, _)| k).collect();
    let expected: Vec<&String> = sorted.keys().collect();
    assert_eq!(names, expected);
}
