use tinykernel::ata::{
    data_ready, not_busy, poll_step, sector_to_words, select_sector, words_to_sector, Poll, SectorSelect,
    POLL_LIMIT,
};
use tinykernel::frame_allocator::{FrameAllocator, MemmapEntry, MEMMAP_USABLE};
use tinykernel::gdt::{kernel_stack_top, set_tss, Gdt, GdtEntry, Tss, TssDescriptor, TSS_SIZE};

fn entry(base: u64, length: u64, entry_type: u64) -> MemmapEntry {
    MemmapEntry { base, length, entry_type }
}

#[test]
fn frames_come_from_usable_regions_in_order() {
    let map = [
        entry(0x0, 0x1000, 1),
        entry(0x10000, 0x2000, MEMMAP_USABLE),
        entry(0x20000, 0x1000, 2),
        entry(0x40000, 0x1000, MEMMAP_USABLE),
    ];
    let mut a = FrameAllocator::new(&map);
    assert_eq!(a.region_count, 2);
    assert_eq!(a.allocate_frame(), Some(0x10000));
    assert_eq!(a.allocate_frame(), Some(0x11000));
    assert_eq!(a.allocate_frame(), Some(0x40000));
    assert_eq!(a.allocate_frame(), None);
    assert_eq!(a.allocate_frame(), None);
}

#[test]
fn frames_distinct_over_unordered_regions() {
    let map = [
        entry(0x50000, 0x2000, MEMMAP_USABLE),
        entry(0x10000, 0x1000, MEMMAP_USABLE),
        entry(0x30000, 0x1800, MEMMAP_USABLE),
    ];
    let mut a = FrameAllocator::new(&map);
    let mut seen = Vec::new();
    while let Some(f) = a.allocate_frame() {
        assert!(!seen.contains(&f));
        seen.push(f);
    }
    assert_eq!(seen, vec![0x50000, 0x51000, 0x10000, 0x30000, 0x31000]);
    for _ in 0..3 {
        assert_eq!(a.allocate_frame(), None);
    }
}

#[test]
fn no_usable_memory_no_frames() {
    let map = [entry(0x1000, 0x1000, 3)];
    let mut a = FrameAllocator::new(&map);
    assert_eq!(a.region_count, 0);
    assert_eq!(a.cursor_addr, 0);
    assert_eq!(a.allocate_frame(), None);
}

#[test]
fn only_first_32_regions_are_kept() {
    let map: Vec<MemmapEntry> = (0..40u64).map(|i| entry(i * 0x10000, 0x1000, MEMMAP_USABLE)).collect();
    let mut a = FrameAllocator::new(&map);
    assert_eq!(a.region_count, 32);
    for i in 0..32u64 {
        assert_eq!(a.allocate_frame(), Some(i * 0x10000));
    }
    assert_eq!(a.allocate_frame(), None);
}

#[test]
fn gdt_of_the_kernel() {
    let g = Gdt::new();
    assert_eq!(g.null, GdtEntry::new(0, 0, 0));
    assert_eq!(g.kernel_code, GdtEntry::new(0xFFFF, 0x9A, 0xAF));
    assert_eq!(g.kernel_data, GdtEntry::new(0xFFFF, 0x92, 0x00));
    assert_eq!(g.user_data, GdtEntry::new(0xFFFF, 0xF2, 0x00));
    assert_eq!(g.user_code, GdtEntry::new(0xFFFF, 0xFA, 0xAF));
    assert_eq!(g.tss.access, 0x89);
    let e = GdtEntry::new(0x1234, 0x9A, 0xAF);
    assert_eq!((e.limit_low, e.base_low, e.base_middle, e.base_high), (0x1234, 0, 0, 0));
}

#[test]
fn tss_descriptor_records_its_address() {
    let mut g = Gdt::new();
    let addr: u64 = 0xFFFF_8000_1234_5678;
    set_tss(&mut g, addr);
    assert_eq!(
        g.tss,
        TssDescriptor {
            limit_low: 103,
            base_low: 0x5678,
            base_middle: 0x34,
            access: 0x89,
            granularity: 0,
            base_high: 0x12,
            base_upper: 0xFFFF_8000,
            reserved: 0,
        }
    );
    let back = g.tss.base_low as u64
        | (g.tss.base_middle as u64) << 16
        | (g.tss.base_high as u64) << 24
        | (g.tss.base_upper as u64) << 32;
    assert_eq!(back, addr);
    assert_eq!(g.kernel_code, Gdt::new().kernel_code);
}

#[test]
fn tss_starts_empty() {
    let t = Tss::new();
    assert_eq!((t.rsp0, t.rsp1, t.rsp2), (0, 0, 0));
    assert_eq!(t.ist, [0; 7]);
    assert_eq!(t.iomap_base, TSS_SIZE);
    assert_eq!(TSS_SIZE, 104);
    assert_eq!(kernel_stack_top(0x1000), 0x1000 + 16384);
}

#[test]
fn sector_select_registers() {
    assert_eq!(
        select_sector(0x0A12_3456),
        SectorSelect { drive_head: 0xEA, count: 1, lba_low: 0x56, lba_mid: 0x34, lba_high: 0x12 }
    );
    assert_eq!(select_sector(0).drive_head, 0xE0);
}

#[test]
fn sector_words_round_trip() {
    let mut buf = [0u8; 512];
    for (i, b) in buf.iter_mut().enumerate() {
        *b = (i * 7 % 256) as u8;
    }
    let words = sector_to_words(&buf);
    assert_eq!(words[0], u16::from_le_bytes([buf[0], buf[1]]));
    assert_eq!(words[255], u16::from_le_bytes([buf[510], buf[511]]));
    assert_eq!(words_to_sector(&words), buf);
}

#[test]
fn waits_are_bounded() {
    assert_eq!(poll_step(0, true), Poll::Ready);
    assert_eq!(poll_step(0, false), Poll::Again(1));
    assert_eq!(poll_step(POLL_LIMIT - 1, false), Poll::Again(POLL_LIMIT));
    assert_eq!(poll_step(POLL_LIMIT, false), Poll::GaveUp);
    assert!(data_ready(0x58));
    assert!(!data_ready(0x50));
    assert!(not_busy(0x50));
    assert!(!not_busy(0xD0));
}
