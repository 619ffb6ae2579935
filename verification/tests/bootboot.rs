use parawasm::bootboot::{Aarch64, Arch, Bootboot, MemoryMapping, X86_64};

fn block(size: u32, mmap: Vec<MemoryMapping>) -> Bootboot {
    Bootboot {
        magic: *b"BOOT",
        size,
        protocol: 1,
        framebuffer_type: 0,
        numcores: 4,
        bspid: 0,
        timezone: 0,
        datetime: [0; 8],
        initrd_ptr: 0,
        initrd_size: 0,
        fb_ptr: 0,
        fb_size: 0,
        fb_width: 0,
        fb_height: 0,
        fb_scanline: 0,
        arch: Arch::X86_64(X86_64 {
            acpi_ptr: 1,
            smbi_ptr: 2,
            efi_ptr: 3,
            mp_ptr: 4,
            unused0: 0,
            unused1: 0,
            unused2: 0,
            unused3: 0,
        }),
        mmap,
    }
}

#[test]
fn mapping_splits_the_size_word() {
    let m = MemoryMapping::new(0x10_0000, 0x2000 | 1);
    assert_eq!(m.addr(), 0x10_0000);
    assert_eq!(m.size(), 0x2000);
    assert!(m.is_free());
    let used = MemoryMapping::new(0x20_0000, 0x3000 | 2);
    assert_eq!(used.size(), 0x3000);
    assert!(!used.is_free());
    let odd = MemoryMapping::new(7, 0xffff_ffff_ffff_ffff);
    assert_eq!(odd.size() as u64, 0xffff_ffff_ffff_fff0);
    assert!(!odd.is_free());
}

#[test]
fn memory_map_has_as_many_entries_as_the_size_announces() {
    let maps: Vec<MemoryMapping> =
        (0..5).map(|i| MemoryMapping::new(i * 0x1000, 0x1000 | 1)).collect();
    assert_eq!(block(128, maps.clone()).memory_mappings().len(), 0);
    assert_eq!(block(128 + 15, maps.clone()).memory_mappings().len(), 0);
    assert_eq!(block(128 + 16, maps.clone()).memory_mappings().len(), 1);
    let b = block(128 + 3 * 16 + 7, maps);
    let entries = b.memory_mappings();
    assert_eq!(entries.len(), 3);
    assert_eq!(entries[2].addr(), 0x2000);
}

#[test]
fn heap_takes_free_regions_but_the_first_and_those_at_zero() {
    let maps = vec![
        MemoryMapping::new(0x1000, 0x1000 | 1), // first: never taken
        MemoryMapping::new(0, 0x8000 | 1),      // at zero
        MemoryMapping::new(0x10000, 0x4000 | 1),
        MemoryMapping::new(0x20000, 0x4000 | 2), // not free
        MemoryMapping::new(0x30000, 0x10 | 1),
        MemoryMapping::new(0x40000, 0x1000 | 1), // not announced
    ];
    let b = block(128 + 5 * 16, maps);
    assert_eq!(b.heap_regions(), vec![(0x10000, 0x4000), (0x30000, 0x10)]);
    assert_eq!(block(128, vec![]).heap_regions(), vec![]);
    assert_eq!(block(128 + 16, vec![MemoryMapping::new(0x1000, 0x1001)]).heap_regions(), vec![]);
}

#[test]
fn platform_blocks_hold_their_pointers() {
    let a = Aarch64 {
        acpi_ptr: 1,
        mmio_ptr: 2,
        efi_ptr: 3,
        unused0: 0,
        unused1: 0,
        unused2: 0,
        unused3: 0,
        unused4: 0,
    };
    let arch = Arch::Aarch64(a);
    match arch {
        Arch::Aarch64(inner) => assert_eq!(inner.mmio_ptr, 2),
        Arch::X86_64(_) => panic!("wrong platform"),
    }
}
