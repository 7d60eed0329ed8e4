use kernel_loader::error::BootError;
use kernel_loader::handoff::{Action, BootStage, Event, Handoff};
use kernel_loader::header::{parse_file_header, FileHeader};
use kernel_loader::layout::{fits_address_space, plan_layout, ImageLayout, PAGE_SIZE};
use kernel_loader::loader::{can_place, load_segments, place_segment, LoadedImage};
use kernel_loader::segment::{parse_segment_table, SegmentDescriptor};

/// A 64-bit image: the file header, a table of three entries, and the bytes
/// of two loadable segments.
fn kernel_file(entry_point: u64, first_type: u32) -> Vec<u8> {
    let mut file = vec![0x7f, b'E', b'L', b'F', 2, 1, 1, 0];
    file.extend_from_slice(&[0u8; 8]);
    file.extend_from_slice(&2u16.to_ne_bytes());
    file.extend_from_slice(&0xb7u16.to_ne_bytes());
    file.extend_from_slice(&1u32.to_ne_bytes());
    file.extend_from_slice(&entry_point.to_ne_bytes());
    file.extend_from_slice(&64u64.to_ne_bytes());
    file.extend_from_slice(&0u64.to_ne_bytes());
    file.extend_from_slice(&0u32.to_ne_bytes());
    file.extend_from_slice(&64u16.to_ne_bytes());
    file.extend_from_slice(&56u16.to_ne_bytes());
    file.extend_from_slice(&3u16.to_ne_bytes());
    file.extend_from_slice(&[0u8; 6]);
    let entries: [(u32, u64, u64, u64, u64, u64); 3] = [
        (first_type, 0x400, 0x1000, 0x500, 0x800, 0x1000),
        (4, 0x300, 0, 0x10, 0x10, 4),
        (1, 0x900, 0x2000, 0x300, 0x300, 0x1000),
    ];
    for (kind, offset, vaddr, file_size, mem_size, align) in entries {
        file.extend_from_slice(&kind.to_ne_bytes());
        file.extend_from_slice(&7u32.to_ne_bytes());
        file.extend_from_slice(&offset.to_ne_bytes());
        file.extend_from_slice(&vaddr.to_ne_bytes());
        file.extend_from_slice(&vaddr.to_ne_bytes());
        file.extend_from_slice(&file_size.to_ne_bytes());
        file.extend_from_slice(&mem_size.to_ne_bytes());
        file.extend_from_slice(&align.to_ne_bytes());
    }
    assert_eq!(file.len(), 64 + 3 * 56);
    while file.len() < 0xc00 {
        file.push((file.len() % 253) as u8 + 1);
    }
    file
}

fn read_at(file: &[u8], offset: u64, len: usize) -> Vec<u8> {
    let from = (offset as usize).min(file.len());
    let to = from.saturating_add(len).min(file.len());
    file[from..to].to_vec()
}

/// Runs a boot against a file in memory and a firmware that refuses the exit
/// `refusals` times. Gives every action in order and the memory of the image.
fn run_boot(file: &[u8], attempts: u32, refusals: u32, base: u64) -> (Vec<Action>, Vec<u8>, Handoff) {
    let mut header: Option<FileHeader> = None;
    let mut segments: Vec<SegmentDescriptor> = Vec::new();
    let mut layout: Option<ImageLayout> = None;
    let mut region: Vec<u8> = Vec::new();
    let mut refused = 0;
    let mut actions = Vec::new();
    let mut boot = Handoff::new(attempts);
    let mut action = boot.step(Event::Started);
    loop {
        actions.push(action);
        let event = match action {
            Action::ReadHeader { len } => match parse_file_header(&read_at(file, 0, len)) {
                Ok(parsed) => {
                    header = Some(parsed);
                    Event::HeaderParsed { header: parsed }
                },
                Err(error) => Event::LoadFailed { error },
            },
            Action::ReadSegmentTable { offset, len } => {
                match parse_segment_table(&header.unwrap(), &read_at(file, offset, len)) {
                    Ok(parsed) => {
                        assert!(fits_address_space(&parsed, PAGE_SIZE));
                        let planned = plan_layout(&parsed, PAGE_SIZE);
                        segments = parsed;
                        match planned {
                            Ok(planned) => {
                                layout = Some(planned);
                                Event::Planned { layout: planned }
                            },
                            Err(error) => Event::LoadFailed { error },
                        }
                    },
                    Err(error) => Event::LoadFailed { error },
                }
            },
            Action::AcquireMemory { size, alignment } => {
                assert_eq!(base % alignment, 0);
                region = vec![0u8; size as usize];
                Event::MemoryAcquired
            },
            Action::LoadSegments => {
                let layout = layout.unwrap();
                let mut failed = None;
                for segment in segments.iter().filter(|s| s.is_loadable()) {
                    assert!(can_place(&layout, segment, region.len()));
                    let data = read_at(file, segment.file_offset, segment.file_size as usize);
                    if let Err(error) = place_segment(&mut region, &layout, segment, &data) {
                        failed = Some(error);
                        break;
                    }
                }
                match failed {
                    Some(error) => Event::LoadFailed { error },
                    None => {
                        let loaded =
                            LoadedImage::new(base, &layout, header.unwrap().entry_point).unwrap();
                        Event::ImageReady { entry_address: loaded.entry_address }
                    },
                }
            },
            Action::QueryMemoryMapSize => Event::MemoryMapSize { size: 4096 + 48 * refused as usize },
            Action::ExitBootServices { .. } => {
                if refused < refusals {
                    refused += 1;
                    Event::ExitRejected
                } else {
                    Event::ExitAccepted
                }
            },
            Action::EnterKernel { .. } => Event::KernelEntered,
            Action::Halt { .. } | Action::Nothing => return (actions, region, boot),
        };
        action = boot.step(event);
    }
}

#[test]
fn kernel_is_loaded_and_entered() {
    let file = kernel_file(0x1200, 1);
    let (actions, region, boot) = run_boot(&file, 3, 0, 0x4000_0000);
    assert_eq!(
        actions,
        vec![
            Action::ReadHeader { len: 64 },
            Action::ReadSegmentTable { offset: 64, len: 168 },
            Action::AcquireMemory { size: 0x2000, alignment: 0x1000 },
            Action::LoadSegments,
            Action::QueryMemoryMapSize,
            Action::ExitBootServices { buffer_size: 4096 },
            Action::EnterKernel { entry_address: 0x4000_0200 },
            Action::Nothing,
        ]
    );
    assert_eq!(boot.stage(), BootStage::KernelRunning);
    assert_eq!(boot.failure, None);
    assert_eq!(region.len(), 0x2000);
    assert_eq!(region[..0x500], file[0x400..0x900]);
    assert!(region[0x500..0x1000].iter().all(|b| *b == 0));
    assert_eq!(region[0x1000..0x1300], file[0x900..0xc00]);
    assert!(region[0x1300..].iter().all(|b| *b == 0));
}

#[test]
fn whole_file_in_memory_loads_to_the_same_image() {
    let file = kernel_file(0x1200, 1);
    let (_, region, _) = run_boot(&file, 3, 0, 0x4000_0000);
    let header = parse_file_header(&file).unwrap();
    let table = &file[header.segment_table_offset as usize..];
    let segments = parse_segment_table(&header, table).unwrap();
    assert!(fits_address_space(&segments, PAGE_SIZE));
    let layout = plan_layout(&segments, PAGE_SIZE).unwrap();
    let mut at_once = vec![0u8; layout.size() as usize];
    for segment in segments.iter().filter(|s| s.is_loadable()) {
        assert!(segment.is_well_formed());
        assert!(can_place(&layout, segment, at_once.len()));
    }
    assert_eq!(load_segments(&mut at_once, &layout, &segments, &file), Ok(()));
    assert_eq!(at_once, region);
}

#[test]
fn refused_exit_is_retried_with_a_new_map_size() {
    let file = kernel_file(0x2100, 1);
    let (actions, _, boot) = run_boot(&file, 3, 2, 0x10_0000);
    assert_eq!(
        actions[4..],
        [
            Action::QueryMemoryMapSize,
            Action::ExitBootServices { buffer_size: 4096 },
            Action::QueryMemoryMapSize,
            Action::ExitBootServices { buffer_size: 4144 },
            Action::QueryMemoryMapSize,
            Action::ExitBootServices { buffer_size: 4192 },
            Action::EnterKernel { entry_address: 0x10_1100 },
            Action::Nothing,
        ]
    );
    assert_eq!(boot.stage(), BootStage::KernelRunning);
}

#[test]
fn firmware_that_keeps_refusing_stops_the_boot() {
    let file = kernel_file(0x1200, 1);
    let (actions, _, boot) = run_boot(&file, 2, 5, 0x10_0000);
    assert_eq!(
        actions[4..],
        [
            Action::QueryMemoryMapSize,
            Action::ExitBootServices { buffer_size: 4096 },
            Action::QueryMemoryMapSize,
            Action::ExitBootServices { buffer_size: 4144 },
            Action::Halt { error: BootError::ExitBootServicesFailure, diagnosable: true },
        ]
    );
    assert_eq!(boot.stage(), BootStage::ImageLoaded);
    assert_eq!(boot.failure, Some(BootError::ExitBootServicesFailure));
}

#[test]
fn file_without_loadable_segment_stops_before_memory_is_acquired() {
    let mut file = kernel_file(0x1200, 2);
    let third = 64 + 2 * 56;
    file[third..third + 4].copy_from_slice(&6u32.to_ne_bytes());
    let (actions, region, boot) = run_boot(&file, 3, 0, 0x10_0000);
    assert_eq!(
        actions,
        vec![
            Action::ReadHeader { len: 64 },
            Action::ReadSegmentTable { offset: 64, len: 168 },
            Action::Halt { error: BootError::EmptyImage, diagnosable: true },
        ]
    );
    assert!(region.is_empty());
    assert_eq!(boot.stage(), BootStage::FirmwareOwned);
}

#[test]
fn file_cut_short_stops_with_a_truncated_read() {
    let file = kernel_file(0x1200, 1);
    let halt = Action::Halt { error: BootError::TruncatedRead, diagnosable: true };
    for len in [0usize, 15, 63, 64, 231, 232, 0x8ff, 0xbff] {
        let (actions, _, boot) = run_boot(&file[..len], 3, 0, 0x10_0000);
        assert_eq!(actions.last(), Some(&halt));
        assert_eq!(boot.stage(), BootStage::FirmwareOwned);
        assert!(!actions.iter().any(|a| matches!(a, Action::EnterKernel { .. })));
    }
    let (actions, _, _) = run_boot(&file[..0xc00], 3, 0, 0x10_0000);
    assert!(actions.iter().any(|a| matches!(a, Action::EnterKernel { .. })));
}

#[test]
fn file_of_another_format_stops_with_a_header_mismatch() {
    let mut file = kernel_file(0x1200, 1);
    file[1] = b'F';
    let (actions, _, _) = run_boot(&file, 3, 0, 0x10_0000);
    assert_eq!(
        actions,
        vec![
            Action::ReadHeader { len: 64 },
            Action::Halt { error: BootError::HeaderMismatch, diagnosable: true },
        ]
    );
    let mut file = kernel_file(0x1200, 1);
    file[54..56].copy_from_slice(&32u16.to_ne_bytes());
    let (actions, _, _) = run_boot(&file, 3, 0, 0x10_0000);
    assert_eq!(
        actions.last(),
        Some(&Action::Halt { error: BootError::HeaderMismatch, diagnosable: true })
    );
}

#[test]
fn file_of_an_unknown_class_stops_as_unsupported() {
    let mut file = kernel_file(0x1200, 1);
    file[4] = 3;
    let (actions, _, _) = run_boot(&file, 3, 0, 0x10_0000);
    assert_eq!(
        actions,
        vec![
            Action::ReadHeader { len: 64 },
            Action::Halt { error: BootError::UnsupportedClass, diagnosable: true },
        ]
    );
}
