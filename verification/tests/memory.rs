use schema_dumper::fetch::{pending_reads, record_answer, should_retry, widen, ReadRequest,
    MAX_READ_ATTEMPTS, PAGE_SIZE};
use schema_dumper::image::{AccessError, Export, MemoryImage, ModuleRecord, Region};
use schema_dumper::model::IntWidth;
use schema_dumper::resolver::{follow, offset_address, read_cstring, read_int, read_ptr,
    read_text_behind, read_u16, read_u32, read_u32_behind, read_u64, read_u8};
use schema_dumper::walker::{GapCause, GapScope, ResolutionGap};

fn image_with(base: u64, bytes: &[u8]) -> MemoryImage {
    let mut image = MemoryImage::new();
    image.record_bytes(base, bytes.to_vec());
    image
}

#[test]
fn a_new_image_knows_nothing() {
    let image = MemoryImage::new();
    assert!(image.available);
    assert!(image.modules.is_empty());
    assert!(image.regions.is_empty());
    assert_eq!(image.read(0x1000, 4), Err(AccessError::OutOfRange { addr: 0x1000, len: 4 }));
    assert!(!image.knows(0x1000, 4));
    assert!(image.find_module(b"client.dll").is_none());
}

#[test]
fn a_read_inside_a_region_gives_its_bytes() {
    let image = image_with(0x1000, &[1, 2, 3, 4, 5, 6, 7, 8]);
    assert_eq!(image.read(0x1000, 8), Ok(vec![1, 2, 3, 4, 5, 6, 7, 8]));
    assert_eq!(image.read(0x1002, 3), Ok(vec![3, 4, 5]));
    assert_eq!(image.read(0x1007, 1), Ok(vec![8]));
    assert_eq!(image.read(0x1008, 0), Ok(vec![]));
    assert!(image.knows(0x1002, 3));
}

#[test]
fn a_read_that_leaves_the_region_is_out_of_range() {
    let image = image_with(0x1000, &[1, 2, 3, 4]);
    assert_eq!(image.read(0x0fff, 2), Err(AccessError::OutOfRange { addr: 0x0fff, len: 2 }));
    assert_eq!(image.read(0x1003, 2), Err(AccessError::OutOfRange { addr: 0x1003, len: 2 }));
    assert_eq!(image.read(0x2000, 1), Err(AccessError::OutOfRange { addr: 0x2000, len: 1 }));
    assert_eq!(
        image.read(u64::MAX, 2),
        Err(AccessError::OutOfRange { addr: u64::MAX, len: 2 })
    );
    assert!(!image.knows(0x1003, 2));
}

#[test]
fn the_first_region_that_covers_a_read_answers_it() {
    let mut image = image_with(0x1000, &[1, 1, 1, 1]);
    image.record_bytes(0x1000, vec![2, 2, 2, 2, 2, 2, 2, 2]);
    assert_eq!(image.read(0x1000, 4), Ok(vec![1, 1, 1, 1]));
    assert_eq!(image.read(0x1002, 4), Ok(vec![2, 2, 2, 2]));
}

#[test]
fn an_unreadable_region_answers_with_its_failure() {
    let mut image = MemoryImage::new();
    image.record_fault(0x3000, 0x100, true);
    image.record_fault(0x5000, 0x100, false);
    assert_eq!(image.read(0x3010, 8), Err(AccessError::Denied { addr: 0x3010, len: 8 }));
    assert_eq!(image.read(0x5010, 8), Err(AccessError::OutOfRange { addr: 0x5010, len: 8 }));
    assert!(image.knows(0x3010, 8));
    assert!(image.knows(0x5010, 8));
    assert!(!image.knows(0x30ff, 8));
    assert!(matches!(image.regions[0], Region::Unreadable { base: 0x3000, len: 0x100, denied: true }));
}

#[test]
fn a_region_holds_the_spans_inside_it() {
    let mapped = Region::Mapped { base: 0x1000, bytes: vec![0; 16] };
    assert!(mapped.holds(0x1000, 16));
    assert!(mapped.holds(0x1008, 8));
    assert!(mapped.holds(0x1010, 0));
    assert!(!mapped.holds(0x1008, 9));
    assert!(!mapped.holds(0x0fff, 1));
    assert!(!mapped.holds(0x1011, 0));
    let last = Region::Unreadable { base: u64::MAX - 3, len: 8, denied: false };
    assert!(last.holds(u64::MAX, 1));
    assert!(last.holds(u64::MAX - 3, 8));
    assert!(!last.holds(u64::MAX - 3, 9));
}

#[test]
fn modules_and_exports_are_found_by_name() {
    let mut image = MemoryImage::new();
    image.record_module(ModuleRecord {
        name: b"client.dll".to_vec(),
        base: 0x7000_0000,
        size: 0x1000,
        exports: vec![
            Export { name: b"CreateInterface".to_vec(), address: 0x7000_0100 },
            Export { name: b"Root".to_vec(), address: 0x7000_0200 },
            Export { name: b"Root".to_vec(), address: 0x7000_0300 },
        ],
    });
    image.record_module(ModuleRecord {
        name: b"client.dll".to_vec(),
        base: 0x9000_0000,
        size: 0x1000,
        exports: Vec::new(),
    });
    let record = image.find_module(b"client.dll");
    assert_eq!(record.map(|r| r.base), Some(0x7000_0000));
    let record = record.unwrap();
    assert_eq!(record.export(b"CreateInterface"), Some(0x7000_0100));
    assert_eq!(record.export(b"Root"), Some(0x7000_0200));
    assert_eq!(record.export(b"Missing"), None);
    assert!(image.find_module(b"engine2.dll").is_none());
}

#[test]
fn integers_are_read_lowest_byte_first() {
    let image = image_with(0x100, &[0x78, 0x56, 0x34, 0x12, 0xef, 0xcd, 0xab, 0x90]);
    assert_eq!(read_u8(&image, 0x100), Ok(0x78));
    assert_eq!(read_u16(&image, 0x100), Ok(0x5678));
    assert_eq!(read_u32(&image, 0x100), Ok(0x1234_5678));
    assert_eq!(read_u64(&image, 0x100), Ok(0x90ab_cdef_1234_5678));
    assert_eq!(read_ptr(&image, 0x100), Ok(0x90ab_cdef_1234_5678));
    assert_eq!(read_u32(&image, 0x104), Ok(0x90ab_cdef));
}

#[test]
fn a_typed_read_fails_with_the_span_it_asked_for() {
    let image = image_with(0x100, &[0; 8]);
    assert_eq!(read_u64(&image, 0x101), Err(AccessError::OutOfRange { addr: 0x101, len: 8 }));
    assert_eq!(read_u32(&image, 0x105), Err(AccessError::OutOfRange { addr: 0x105, len: 4 }));
    assert_eq!(read_u16(&image, 0x107), Err(AccessError::OutOfRange { addr: 0x107, len: 2 }));
    assert_eq!(read_u8(&image, 0x108), Err(AccessError::OutOfRange { addr: 0x108, len: 1 }));
    let mut denied = MemoryImage::new();
    denied.record_fault(0x100, 8, true);
    assert_eq!(read_u32(&denied, 0x100), Err(AccessError::Denied { addr: 0x100, len: 4 }));
}

#[test]
fn signed_integers_are_sign_extended_from_their_width() {
    let image = image_with(0x100, &[0xff, 0xff, 0xff, 0xff, 0xff, 0xff, 0xff, 0xff]);
    assert_eq!(read_int(&image, 0x100, IntWidth::One), Ok(-1));
    assert_eq!(read_int(&image, 0x100, IntWidth::Two), Ok(-1));
    assert_eq!(read_int(&image, 0x100, IntWidth::Four), Ok(-1));
    assert_eq!(read_int(&image, 0x100, IntWidth::Eight), Ok(-1));
    let mixed = image_with(0x100, &[0x80, 0x7f, 0x00, 0x80, 0, 0, 0, 0x80]);
    assert_eq!(read_int(&mixed, 0x100, IntWidth::One), Ok(-128));
    assert_eq!(read_int(&mixed, 0x101, IntWidth::One), Ok(127));
    assert_eq!(read_int(&mixed, 0x100, IntWidth::Two), Ok(0x7f80));
    assert_eq!(read_int(&mixed, 0x102, IntWidth::Two), Ok(-32768));
    assert_eq!(read_int(&mixed, 0x100, IntWidth::Four), Ok(-2147451008));
    assert_eq!(read_int(&mixed, 0x100, IntWidth::Eight), Ok(i64::MIN + 0x8000_7f80));
}

#[test]
fn an_address_sum_that_overflows_is_out_of_range() {
    assert_eq!(offset_address(0x1000, 0x20), Ok(0x1020));
    assert_eq!(offset_address(u64::MAX, 0), Ok(u64::MAX));
    assert_eq!(
        offset_address(u64::MAX, 1),
        Err(AccessError::OutOfRange { addr: u64::MAX, len: 0 })
    );
    let image = MemoryImage::new();
    assert_eq!(
        read_u32_behind(&image, u64::MAX - 1, 8),
        Err(AccessError::OutOfRange { addr: u64::MAX - 1, len: 0 })
    );
}

fn chain_image() -> MemoryImage {
    // 0x1000: pointer to 0x2000; 0x2008: pointer to 0x3000; 0x3010: null pointer.
    let mut image = MemoryImage::new();
    image.record_bytes(0x1000, 0x2000u64.to_le_bytes().to_vec());
    let mut second = vec![0u8; 16];
    second[8..16].copy_from_slice(&0x3000u64.to_le_bytes());
    image.record_bytes(0x2000, second);
    image.record_bytes(0x3000, vec![0u8; 0x20]);
    image
}

#[test]
fn following_no_offsets_gives_the_base() {
    let image = chain_image();
    assert_eq!(follow(&image, 0x1234, &[]), Ok(0x1234));
    assert_eq!(follow(&image, 0, &[]), Ok(0));
}

#[test]
fn following_offsets_reads_a_pointer_at_each_hop() {
    let image = chain_image();
    assert_eq!(follow(&image, 0x1000, &[0]), Ok(0x2000));
    assert_eq!(follow(&image, 0x1000, &[0, 8]), Ok(0x3000));
    assert_eq!(follow(&image, 0x0ff8, &[8, 8]), Ok(0x3000));
}

#[test]
fn a_null_pointer_may_end_a_chain_but_not_continue_it() {
    let image = chain_image();
    assert_eq!(follow(&image, 0x1000, &[0, 8, 0x10]), Ok(0));
    assert_eq!(
        follow(&image, 0x1000, &[0, 8, 0x10, 0]),
        Err(AccessError::OutOfRange { addr: 0, len: 0 })
    );
    assert_eq!(follow(&image, 0, &[0]), Err(AccessError::OutOfRange { addr: 0, len: 0 }));
}

#[test]
fn a_chain_ends_at_the_first_hop_that_cannot_be_read() {
    let image = chain_image();
    assert_eq!(
        follow(&image, 0x1000, &[0, 0x100, 8]),
        Err(AccessError::OutOfRange { addr: 0x2100, len: 8 })
    );
    assert_eq!(
        follow(&image, 0x1000, &[u64::MAX]),
        Err(AccessError::OutOfRange { addr: 0x1000, len: 0 })
    );
}

#[test]
fn a_string_ends_at_its_zero_byte() {
    let image = image_with(0x100, b"Foo\0bar\0");
    assert_eq!(read_cstring(&image, 0x100, 256), Ok(b"Foo".to_vec()));
    assert_eq!(read_cstring(&image, 0x104, 256), Ok(b"bar".to_vec()));
    assert_eq!(read_cstring(&image, 0x103, 256), Ok(Vec::new()));
}

#[test]
fn a_string_is_cut_off_at_the_bound() {
    let image = image_with(0x100, b"abcdefgh\0");
    assert_eq!(read_cstring(&image, 0x100, 3), Ok(b"abc".to_vec()));
    assert_eq!(read_cstring(&image, 0x100, 8), Ok(b"abcdefgh".to_vec()));
    assert_eq!(read_cstring(&image, 0x100, 0), Ok(Vec::new()));
    let endless = image_with(0x100, &[b'x'; 300]);
    assert_eq!(read_cstring(&endless, 0x100, 256), Ok(vec![b'x'; 256]));
}

#[test]
fn a_string_that_runs_out_of_memory_fails() {
    let image = image_with(0x100, b"abc");
    assert_eq!(
        read_cstring(&image, 0x100, 256),
        Err(AccessError::OutOfRange { addr: 0x103, len: 1 })
    );
    assert_eq!(
        read_cstring(&image, 0x200, 256),
        Err(AccessError::OutOfRange { addr: 0x200, len: 1 })
    );
}

#[test]
fn a_text_is_read_through_its_pointer() {
    let mut image = image_with(0x100, b"name\0");
    let mut record = vec![0u8; 16];
    record[8..16].copy_from_slice(&0x100u64.to_le_bytes());
    image.record_bytes(0x200, record);
    assert_eq!(read_text_behind(&image, 0x200, 8, 256), Ok(b"name".to_vec()));
    assert_eq!(
        read_text_behind(&image, 0x200, 0, 256),
        Err(AccessError::OutOfRange { addr: 0, len: 0 })
    );
    assert_eq!(
        read_text_behind(&image, 0x200, 12, 256),
        Err(AccessError::OutOfRange { addr: 0x20c, len: 8 })
    );
}

fn gap_of(cause: GapCause) -> ResolutionGap {
    ResolutionGap { module: 0, scope: GapScope::Field, cause }
}

#[test]
fn only_reads_that_the_image_cannot_place_are_pending() {
    let mut image = image_with(0x1000, &[0; 16]);
    image.record_fault(0x4000, 0x10, false);
    let gaps = vec![
        gap_of(GapCause::Access(AccessError::OutOfRange { addr: 0x2000, len: 8 })),
        gap_of(GapCause::ModuleMissing),
        gap_of(GapCause::Access(AccessError::Denied { addr: 0x3000, len: 8 })),
        gap_of(GapCause::Access(AccessError::OutOfRange { addr: 0, len: 0 })),
        gap_of(GapCause::Access(AccessError::OutOfRange { addr: 0x4000, len: 8 })),
        gap_of(GapCause::Access(AccessError::OutOfRange { addr: u64::MAX, len: 2 })),
        gap_of(GapCause::Access(AccessError::OutOfRange { addr: u64::MAX, len: 1 })),
        gap_of(GapCause::DuplicateName),
        gap_of(GapCause::Access(AccessError::OutOfRange { addr: 0x1008, len: 16 })),
    ];
    assert_eq!(
        pending_reads(&image, &gaps),
        vec![
            ReadRequest { addr: 0x2000, len: 8 },
            ReadRequest { addr: u64::MAX, len: 1 },
            ReadRequest { addr: 0x1008, len: 16 },
        ]
    );
    assert!(pending_reads(&image, &Vec::new()).is_empty());
}

#[test]
fn a_request_is_widened_to_whole_pages() {
    assert_eq!(PAGE_SIZE, 0x1000);
    assert_eq!(
        widen(ReadRequest { addr: 0x1234, len: 8 }),
        ReadRequest { addr: 0x1000, len: 0x1000 }
    );
    assert_eq!(
        widen(ReadRequest { addr: 0x1ffc, len: 8 }),
        ReadRequest { addr: 0x1000, len: 0x2000 }
    );
    assert_eq!(
        widen(ReadRequest { addr: 0x2000, len: 0x1000 }),
        ReadRequest { addr: 0x2000, len: 0x1000 }
    );
    assert_eq!(
        widen(ReadRequest { addr: u64::MAX, len: 1 }),
        ReadRequest { addr: 0xffff_ffff_ffff_f000, len: 0x1000 }
    );
}

#[test]
fn a_request_that_cannot_be_widened_stays_as_it_is() {
    let beyond = ReadRequest { addr: u64::MAX, len: 2 };
    assert_eq!(widen(beyond), beyond);
    let everything = ReadRequest { addr: 1, len: u64::MAX };
    assert_eq!(widen(everything), everything);
}

#[test]
fn only_a_refusal_is_tried_again_and_not_for_ever() {
    let denied = AccessError::Denied { addr: 0x1000, len: 8 };
    let absent = AccessError::OutOfRange { addr: 0x1000, len: 8 };
    assert_eq!(MAX_READ_ATTEMPTS, 3);
    assert!(should_retry(denied, 0));
    assert!(should_retry(denied, 2));
    assert!(!should_retry(denied, 3));
    assert!(!should_retry(denied, u32::MAX));
    assert!(!should_retry(absent, 0));
}

#[test]
fn a_recorded_answer_settles_its_request() {
    let mut image = MemoryImage::new();
    let gaps = vec![
        gap_of(GapCause::Access(AccessError::OutOfRange { addr: 0x2000, len: 4 })),
        gap_of(GapCause::Access(AccessError::OutOfRange { addr: 0x6000, len: 4 })),
        gap_of(GapCause::Access(AccessError::OutOfRange { addr: 0x8000, len: 4 })),
    ];
    let requests = pending_reads(&image, &gaps);
    assert_eq!(requests.len(), 3);
    record_answer(&mut image, requests[0], Ok(vec![9, 8, 7, 6]));
    record_answer(
        &mut image,
        requests[1],
        Err(AccessError::Denied { addr: 0x6000, len: 4 }),
    );
    record_answer(
        &mut image,
        requests[2],
        Err(AccessError::OutOfRange { addr: 0x8000, len: 4 }),
    );
    assert!(pending_reads(&image, &gaps).is_empty());
    assert_eq!(image.read(0x2000, 4), Ok(vec![9, 8, 7, 6]));
    assert_eq!(image.read(0x6000, 4), Err(AccessError::Denied { addr: 0x6000, len: 4 }));
    assert_eq!(image.read(0x8000, 4), Err(AccessError::OutOfRange { addr: 0x8000, len: 4 }));
}

#[test]
fn a_new_region_does_not_change_an_old_answer() {
    let mut image = image_with(0x1000, &[1, 2, 3, 4]);
    let before = image.read(0x1000, 4);
    image.record_bytes(0x1000, vec![9, 9, 9, 9]);
    image.record_fault(0x1000, 4, true);
    assert_eq!(image.read(0x1000, 4), before);
}
