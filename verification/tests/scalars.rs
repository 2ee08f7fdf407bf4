use yogurt::allocator::{asc_alloc, can_alloc, read_rt_id, read_rt_size, ARRAY_PTR, STRING};
use yogurt::asc::{
    asc_to_bytes, asc_to_string, bytes_to_asc, read_i32_at, read_u32_at, read_u64_at, str_to_asc,
    write_u32_at, AscPtr,
};
use yogurt::memory::Memory;

fn header(mem: &Memory, p: u32) -> (u32, u32, u32, u32, u32) {
    (
        mem.read_u32(p - 20),
        mem.read_u32(p - 16),
        mem.read_u32(p - 12),
        mem.read_u32(p - 8),
        mem.read_u32(p - 4),
    )
}

#[test]
fn alloc_writes_header_and_advances() {
    let mut mem = Memory::new(1028, 1, 16).unwrap();
    assert!(can_alloc(&mem, 10));
    let p = asc_alloc(&mut mem, 10, 7);
    assert_eq!(p, 1048);
    assert_eq!(p % 8, 0);
    assert_eq!(header(&mem, p), (0, 0, 0, 7, 10));
    assert_eq!(read_rt_id(&mem, p), 7);
    assert_eq!(read_rt_size(&mem, p), 10);
    assert_eq!(mem.heap_cursor(), 1028 + 32);
    let q = asc_alloc(&mut mem, 0, ARRAY_PTR);
    assert_eq!(q, 1028 + 32 + 20);
    assert_eq!(header(&mem, q), (0, 0, 0, 1000, 0));
    assert_eq!(mem.heap_cursor(), 1028 + 32 + 24);
}

#[test]
fn payloads_are_aligned_to_eight() {
    for base in [4u32, 12, 1028, 65532] {
        let mut mem = Memory::new(base, 1, 16).unwrap();
        for size in [0u32, 1, 4, 7, 8, 9, 200_000] {
            let p = asc_alloc(&mut mem, size, STRING);
            assert_eq!(p % 8, 0);
        }
    }
    for base in [0u32, 1, 8, 16, 1024, 1027, 1029, 1032] {
        assert!(Memory::new(base, 1, 16).is_none());
    }
}

#[test]
fn alloc_grows_memory() {
    let mut mem = Memory::new(1028, 1, 16).unwrap();
    assert_eq!(mem.size_pages(), 1);
    let before = mem.heap_cursor();
    let p = asc_alloc(&mut mem, 200_000, 0);
    assert_eq!(p, 1048);
    let needed = (1028 + 200_020 + 65535) / 65536;
    assert!(mem.size_pages() >= needed);
    assert_eq!(mem.size_pages(), 4);
    assert!(mem.heap_cursor() - before >= 200_024);
    assert_eq!(mem.heap_cursor() - before, 200_024);
    assert_eq!(header(&mem, p), (0, 0, 0, 0, 200_000));
}

#[test]
fn alloc_refused_beyond_limit() {
    let mem = Memory::new(1028, 1, 1).unwrap();
    assert!(can_alloc(&mem, 64_000));
    assert!(!can_alloc(&mem, 65_000));
    assert!(Memory::new(0, 1, 1).is_none());
    assert!(Memory::new(70_000, 1, 1).is_none());
    assert!(Memory::new(12, 2, 1).is_none());
    assert!(Memory::new(12, 1, 65_536).is_none());
    assert!(Memory::new(65_540, 1, 2).is_none());
    assert!(Memory::new(65_532, 1, 2).is_some());
}

#[test]
fn addresses_never_repeat() {
    let mut mem = Memory::new(1028, 1, 16).unwrap();
    let mut last = 0;
    let mut cursor = mem.heap_cursor();
    for size in [0u32, 1, 7, 8, 9, 100, 0, 4096] {
        let p = asc_alloc(&mut mem, size, 0);
        assert!(p > last);
        assert!(mem.heap_cursor() > cursor);
        assert_eq!(mem.heap_cursor() % 8, 4);
        last = p;
        cursor = mem.heap_cursor();
    }
}

#[test]
fn string_hi_is_utf16le() {
    let mut mem = Memory::new(1028, 1, 16).unwrap();
    let p = str_to_asc(&mut mem, "Hi");
    let raw = p.as_raw();
    assert_eq!(header(&mem, raw), (0, 0, 0, 2, 4));
    assert_eq!(mem.read_u8(raw), 0x48);
    assert_eq!(mem.read_u8(raw + 1), 0x00);
    assert_eq!(mem.read_u8(raw + 2), 0x69);
    assert_eq!(mem.read_u8(raw + 3), 0x00);
    assert_eq!(asc_to_string(&mem, p), "Hi");
}

#[test]
fn string_round_trips() {
    let mut mem = Memory::new(1028, 1, 16).unwrap();
    for s in ["", "a", "héllo wörld", "日本語", "emoji \u{1F600} pair", "\u{FFFF}\u{10000}\u{10FFFF}"] {
        let p = str_to_asc(&mut mem, s);
        assert_eq!(asc_to_string(&mem, p), s);
        let units: Vec<u16> = s.encode_utf16().collect();
        assert_eq!(read_rt_size(&mem, p.as_raw()) as usize, 2 * units.len());
    }
}

#[test]
fn empty_string_is_an_object() {
    let mut mem = Memory::new(1028, 1, 16).unwrap();
    let p = str_to_asc(&mut mem, "");
    assert!(!p.is_null());
    assert_eq!(header(&mem, p.as_raw()), (0, 0, 0, 2, 0));
}

#[test]
fn unpaired_surrogates_are_replaced() {
    let mut mem = Memory::new(1028, 1, 16).unwrap();
    let p = asc_alloc(&mut mem, 8, STRING);
    mem.write_u16(p, 0x0041);
    mem.write_u16(p + 2, 0xD800);
    mem.write_u16(p + 4, 0x0042);
    mem.write_u16(p + 6, 0xDC00);
    assert_eq!(asc_to_string(&mem, AscPtr::new(p)), "A\u{FFFD}B\u{FFFD}");
    let q = asc_alloc(&mut mem, 6, STRING);
    mem.write_u16(q, 0xD83D);
    mem.write_u16(q + 2, 0xDE00);
    mem.write_u16(q + 4, 0xDBFF);
    assert_eq!(asc_to_string(&mem, AscPtr::new(q)), "\u{1F600}\u{FFFD}");
}

#[test]
fn null_decodes_to_empty() {
    let mem = Memory::new(1028, 1, 16).unwrap();
    assert_eq!(asc_to_string(&mem, AscPtr::null()), "");
    assert_eq!(asc_to_bytes(&mem, AscPtr::null()), Vec::<u8>::new());
}

#[test]
fn bytes_round_trip() {
    let mut mem = Memory::new(1028, 1, 16).unwrap();
    let data: Vec<u8> = (0..=255u8).collect();
    let p = bytes_to_asc(&mut mem, &data);
    assert_eq!(header(&mem, p.as_raw()), (0, 0, 0, 1, 256));
    assert_eq!(asc_to_bytes(&mem, p), data);
    let e = bytes_to_asc(&mut mem, &[]);
    assert_eq!(header(&mem, e.as_raw()), (0, 0, 0, 1, 0));
    assert_eq!(asc_to_bytes(&mem, e), Vec::<u8>::new());
    assert_eq!(asc_to_bytes(&mem, p), data);
}

#[test]
fn pointer_forms() {
    let p: AscPtr<u8> = AscPtr::new(0x8000_0001);
    assert!(!p.is_null());
    assert_eq!(p.as_raw(), 0x8000_0001);
    assert_eq!(p.as_i32(), -2147483647);
    let n: AscPtr<u8> = AscPtr::null();
    assert!(n.is_null());
    assert_eq!(n.as_raw(), 0);
    assert_eq!(n.as_i32(), 0);
}

#[test]
fn field_reads_are_little_endian_and_unaligned() {
    let mut mem = Memory::new(1028, 1, 16).unwrap();
    assert_eq!(mem.heap_start(), 1028);
    for (i, b) in [0x01u8, 0x02, 0x03, 0x04, 0x05, 0x06, 0x07, 0x88, 0xFF].iter().enumerate() {
        mem.write_u8(101 + i as u32, *b);
    }
    assert_eq!(read_u32_at(&mem, 100, 1), 0x0403_0201);
    assert_eq!(read_u32_at(&mem, 101, 4), 0x8807_0605);
    assert_eq!(read_i32_at(&mem, 101, 4), 0x8807_0605u32 as i32);
    assert_eq!(read_i32_at(&mem, 101, 0), 0x0403_0201);
    assert_eq!(read_u64_at(&mem, 99, 2), 0x8807_0605_0403_0201);
    assert_eq!(read_u64_at(&mem, 101, 1), 0xFF88_0706_0504_0302);
    assert_eq!(mem.read_u16(103), 0x0403);
    write_u32_at(&mut mem, 200, 3, 0xDEAD_BEEF);
    assert_eq!(mem.read_u8(203), 0xEF);
    assert_eq!(mem.read_u8(204), 0xBE);
    assert_eq!(mem.read_u8(205), 0xAD);
    assert_eq!(mem.read_u8(206), 0xDE);
    assert_eq!(mem.read_u8(207), 0);
    assert_eq!(read_u32_at(&mem, 203, 0), 0xDEAD_BEEF);
    mem.write_u64(301, 0x0102_0304_0506_0708);
    assert_eq!(mem.read_u8(301), 8);
    assert_eq!(mem.read_u8(308), 1);
    assert_eq!(mem.read_u64(301), 0x0102_0304_0506_0708);
    mem.write_u16(401, 0xABCD);
    assert_eq!((mem.read_u8(401), mem.read_u8(402)), (0xCD, 0xAB));
    assert_eq!(read_u32_at(&mem, 0, 0), 0);
}

#[test]
fn memory_grows_by_pages() {
    let mut mem = Memory::new(12, 1, 3).unwrap();
    assert_eq!(mem.size_bytes(), 65536);
    assert_eq!(mem.max_size_pages(), 3);
    assert_eq!(mem.free_bytes(), 3 * 65536 - 12);
    mem.write_u8(65535, 7);
    assert!(mem.grow(2));
    assert_eq!(mem.size_pages(), 3);
    assert_eq!(mem.read_u8(65535), 7);
    assert_eq!(mem.read_u8(65536), 0);
    assert_eq!(mem.read_u8(3 * 65536 - 1), 0);
    assert!(!mem.grow(1));
    assert!(mem.grow(0));
    assert_eq!(mem.size_pages(), 3);
    assert_eq!(mem.heap_cursor(), 12);
}
