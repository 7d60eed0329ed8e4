use kernel_loader::error::BootError;
use kernel_loader::header::{ElfClass, FileHeader};
use kernel_loader::align::is_power_of_two;
use kernel_loader::segment::{parse_segment_table, SegmentDescriptor, SegmentKind};

fn entry64(kind: u32, offset: u64, vaddr: u64, file_size: u64, mem_size: u64, align: u64) -> Vec<u8> {
    let mut bytes = Vec::new();
    bytes.extend_from_slice(&kind.to_ne_bytes());
    bytes.extend_from_slice(&5u32.to_ne_bytes());
    bytes.extend_from_slice(&offset.to_ne_bytes());
    bytes.extend_from_slice(&vaddr.to_ne_bytes());
    bytes.extend_from_slice(&0x5555_0000u64.to_ne_bytes());
    bytes.extend_from_slice(&file_size.to_ne_bytes());
    bytes.extend_from_slice(&mem_size.to_ne_bytes());
    bytes.extend_from_slice(&align.to_ne_bytes());
    assert_eq!(bytes.len(), 56);
    bytes
}

fn entry32(kind: u32, offset: u32, vaddr: u32, file_size: u32, mem_size: u32, align: u32) -> Vec<u8> {
    let mut bytes = Vec::new();
    bytes.extend_from_slice(&kind.to_ne_bytes());
    bytes.extend_from_slice(&offset.to_ne_bytes());
    bytes.extend_from_slice(&vaddr.to_ne_bytes());
    bytes.extend_from_slice(&0x5555_0000u32.to_ne_bytes());
    bytes.extend_from_slice(&file_size.to_ne_bytes());
    bytes.extend_from_slice(&mem_size.to_ne_bytes());
    bytes.extend_from_slice(&6u32.to_ne_bytes());
    bytes.extend_from_slice(&align.to_ne_bytes());
    assert_eq!(bytes.len(), 32);
    bytes
}

fn table_header(class: ElfClass, count: u16) -> FileHeader {
    FileHeader {
        class,
        entry_point: 0x1000,
        segment_table_offset: 64,
        segment_entry_size: class.segment_entry_size(),
        segment_count: count,
    }
}

#[test]
fn table_of_a_64_bit_image_is_parsed_in_order() {
    let mut table = entry64(1, 0x1000, 0x40_0000, 0x500, 0x800, 0x1000);
    table.extend(entry64(4, 0x2000, 0, 0x20, 0x20, 4));
    table.extend(entry64(1, 0x3000, 0x60_0000, 0x300, 0x300, 0x20_0000));
    let segments = parse_segment_table(&table_header(ElfClass::Elf64, 3), &table).unwrap();
    assert_eq!(
        segments,
        vec![
            SegmentDescriptor {
                kind: SegmentKind::Loadable,
                virtual_addr: 0x40_0000,
                file_offset: 0x1000,
                file_size: 0x500,
                mem_size: 0x800,
                align: 0x1000,
            },
            SegmentDescriptor {
                kind: SegmentKind::Other,
                virtual_addr: 0,
                file_offset: 0x2000,
                file_size: 0x20,
                mem_size: 0x20,
                align: 4,
            },
            SegmentDescriptor {
                kind: SegmentKind::Loadable,
                virtual_addr: 0x60_0000,
                file_offset: 0x3000,
                file_size: 0x300,
                mem_size: 0x300,
                align: 0x20_0000,
            },
        ]
    );
}

#[test]
fn table_of_a_32_bit_image_is_parsed_in_order() {
    let mut table = entry32(6, 52, 0x8034, 0x40, 0x40, 4);
    table.extend(entry32(1, 0, 0x8000, 0x1234, 0x2000, 0x1000));
    let segments = parse_segment_table(&table_header(ElfClass::Elf32, 2), &table).unwrap();
    assert_eq!(
        segments,
        vec![
            SegmentDescriptor {
                kind: SegmentKind::Other,
                virtual_addr: 0x8034,
                file_offset: 52,
                file_size: 0x40,
                mem_size: 0x40,
                align: 4,
            },
            SegmentDescriptor {
                kind: SegmentKind::Loadable,
                virtual_addr: 0x8000,
                file_offset: 0,
                file_size: 0x1234,
                mem_size: 0x2000,
                align: 0x1000,
            },
        ]
    );
}

#[test]
fn wide_fields_keep_all_their_bits() {
    let table = entry64(
        1,
        0x0102_0304_0506_0708,
        0xffff_ffff_8000_0000,
        0x1112_1314_1516_1718,
        0x2122_2324_2526_2728,
        0x8000_0000_0000_0000,
    );
    let segments = parse_segment_table(&table_header(ElfClass::Elf64, 1), &table).unwrap();
    assert_eq!(segments.len(), 1);
    assert_eq!(segments[0].file_offset, 0x0102_0304_0506_0708);
    assert_eq!(segments[0].virtual_addr, 0xffff_ffff_8000_0000);
    assert_eq!(segments[0].file_size, 0x1112_1314_1516_1718);
    assert_eq!(segments[0].mem_size, 0x2122_2324_2526_2728);
    assert_eq!(segments[0].align, 0x8000_0000_0000_0000);
}

#[test]
fn only_the_load_type_is_loadable() {
    let kinds = [
        0u32, 2, 3, 4, 5, 6, 7, 8, 0x6474_e552, 0x6000_0000, 0x6fff_ffff, 0x7000_0000, 0x7fff_ffff,
        0x8000_0000, 0x1234_5678, 0xffff_ffff,
    ];
    for kind in kinds {
        let table = entry64(kind, 0, 0x1000, 1, 1, 1);
        let segments = parse_segment_table(&table_header(ElfClass::Elf64, 1), &table).unwrap();
        assert_eq!(segments[0].kind, SegmentKind::Other);
        assert!(!segments[0].is_loadable());
        let table = entry32(kind, 0, 0x1000, 1, 1, 1);
        let segments = parse_segment_table(&table_header(ElfClass::Elf32, 1), &table).unwrap();
        assert_eq!(segments[0].kind, SegmentKind::Other);
    }
    let table = entry64(1, 0, 0x1000, 1, 1, 1);
    let segments = parse_segment_table(&table_header(ElfClass::Elf64, 1), &table).unwrap();
    assert_eq!(segments[0].kind, SegmentKind::Loadable);
    assert!(segments[0].is_loadable());
}

#[test]
fn empty_table_gives_no_segments() {
    assert_eq!(parse_segment_table(&table_header(ElfClass::Elf64, 0), &[]), Ok(vec![]));
    assert_eq!(parse_segment_table(&table_header(ElfClass::Elf32, 0), &[1, 2, 3]), Ok(vec![]));
}

#[test]
fn bytes_after_the_table_are_ignored() {
    let mut table = entry64(1, 0x1000, 0x40_0000, 0x500, 0x800, 0x1000);
    table.extend_from_slice(&[0xee; 30]);
    let segments = parse_segment_table(&table_header(ElfClass::Elf64, 1), &table).unwrap();
    assert_eq!(segments.len(), 1);
    assert_eq!(segments[0].virtual_addr, 0x40_0000);
}

#[test]
fn table_cut_short_is_a_truncated_read() {
    let mut table = entry64(1, 0x1000, 0x40_0000, 0x500, 0x800, 0x1000);
    table.extend(entry64(1, 0x3000, 0x60_0000, 0x300, 0x300, 0x1000));
    let header = table_header(ElfClass::Elf64, 2);
    for len in [0usize, 1, 55, 56, 57, 111] {
        assert_eq!(parse_segment_table(&header, &table[..len]), Err(BootError::TruncatedRead));
    }
    assert!(parse_segment_table(&header, &table[..112]).is_ok());
}

#[test]
fn table_under_a_wrong_entry_size_is_a_header_mismatch() {
    let table = entry64(1, 0x1000, 0x40_0000, 0x500, 0x800, 0x1000);
    let mut header = table_header(ElfClass::Elf64, 1);
    header.segment_entry_size = 32;
    assert_eq!(parse_segment_table(&header, &table), Err(BootError::HeaderMismatch));
    header.segment_entry_size = 57;
    assert_eq!(parse_segment_table(&header, &table), Err(BootError::HeaderMismatch));
    let mut header = table_header(ElfClass::Elf32, 1);
    header.segment_entry_size = 56;
    assert_eq!(parse_segment_table(&header, &table), Err(BootError::HeaderMismatch));
}

#[test]
fn table_is_parsed_wherever_the_bytes_lie() {
    let mut table = entry64(1, 0x1000, 0x40_0000, 0x500, 0x800, 0x1000);
    table.extend(entry64(1, 0x3000, 0x60_0000, 0x300, 0x300, 0x1000));
    let header = table_header(ElfClass::Elf64, 2);
    for shift in 0..9usize {
        let mut padded = vec![0u8; shift];
        padded.extend_from_slice(&table);
        let segments = parse_segment_table(&header, &padded[shift..]).unwrap();
        assert_eq!(segments[0].virtual_addr, 0x40_0000);
        assert_eq!(segments[1].virtual_addr, 0x60_0000);
        assert_eq!(segments[1].file_size, 0x300);
    }
    let narrow = entry32(1, 0, 0x8000, 0x1234, 0x2000, 0x1000);
    let header = table_header(ElfClass::Elf32, 1);
    for shift in 0..5usize {
        let mut padded = vec![0u8; shift];
        padded.extend_from_slice(&narrow);
        let segments = parse_segment_table(&header, &padded[shift..]).unwrap();
        assert_eq!(segments[0].mem_size, 0x2000);
    }
}

#[test]
fn large_table_is_parsed_entry_by_entry() {
    let mut table = Vec::new();
    for i in 0..1000u64 {
        table.extend(entry64((i % 3) as u32, i * 16, i * 0x1000, i, i + 1, 0x1000));
    }
    let segments = parse_segment_table(&table_header(ElfClass::Elf64, 1000), &table).unwrap();
    assert_eq!(segments.len(), 1000);
    for i in 0..1000u64 {
        let segment = segments[i as usize];
        assert_eq!(segment.is_loadable(), i % 3 == 1);
        assert_eq!(segment.file_offset, i * 16);
        assert_eq!(segment.virtual_addr, i * 0x1000);
        assert_eq!(segment.file_size, i);
        assert_eq!(segment.mem_size, i + 1);
    }
}

#[test]
fn powers_of_two_are_told_apart() {
    assert!(!is_power_of_two(0));
    for shift in 0..64 {
        assert!(is_power_of_two(1u64 << shift));
    }
    for n in [3u64, 5, 6, 7, 9, 12, 0x1001, 0xffff, 0x8000_0000_0000_0001, u64::MAX] {
        assert!(!is_power_of_two(n));
    }
}

#[test]
fn well_formed_segment_has_room_for_its_file_bytes() {
    let mut segment = SegmentDescriptor {
        kind: SegmentKind::Loadable,
        virtual_addr: 0x1000,
        file_offset: 0,
        file_size: 0x500,
        mem_size: 0x800,
        align: 0x1000,
    };
    assert!(segment.is_well_formed());
    segment.mem_size = 0x500;
    assert!(segment.is_well_formed());
    segment.mem_size = 0x4ff;
    assert!(!segment.is_well_formed());
    segment.mem_size = 0x800;
    segment.align = 0;
    assert!(segment.is_well_formed());
    segment.align = 1;
    assert!(segment.is_well_formed());
    segment.align = 3;
    assert!(!segment.is_well_formed());
    segment.align = 0x3000;
    assert!(!segment.is_well_formed());
}
