//! The boot information block handed over by the loader: the memory map and
//! the description of the machine the kernel was started on.

use vstd::prelude::*;

verus! {

/// Platform pointers on x86-64.
#[derive(Debug, Copy, Clone)]
pub struct X86_64 {
    pub acpi_ptr: u64,
    pub smbi_ptr: u64,
    pub efi_ptr: u64,
    pub mp_ptr: u64,
    pub unused0: u64,
    pub unused1: u64,
    pub unused2: u64,
    pub unused3: u64,
}

/// Platform pointers on AArch64.
#[derive(Debug, Copy, Clone)]
pub struct Aarch64 {
    pub acpi_ptr: u64,
    pub mmio_ptr: u64,
    pub efi_ptr: u64,
    pub unused0: u64,
    pub unused1: u64,
    pub unused2: u64,
    pub unused3: u64,
    pub unused4: u64,
}

/// The platform block: the same eight words, read according to the machine.
#[derive(Debug, Copy, Clone)]
pub enum Arch {
    X86_64(X86_64),
    Aarch64(Aarch64),
}

/// One entry of the memory map. The low four bits of the size word hold the
/// kind of the region, the remaining bits its length in bytes.
#[derive(Debug, Copy, Clone)]
pub struct MemoryMapping {
    ptr: u64,
    size: u64,
}

/// Mask that keeps the length bits of a size word.
pub const SIZE_MASK: u64 = 0xFFFF_FFFF_FFFF_FFF0;

/// Mask that keeps the kind bits of a size word.
pub const KIND_MASK: u64 = 0xF;

/// Kind of a region that is free for use.
pub const KIND_FREE: u64 = 1;

/// Bytes of the block that precede the memory map.
pub const HEADER_BYTES: u32 = 128;

/// Bytes of one memory map entry.
pub const ENTRY_BYTES: u32 = 16;

impl MemoryMapping {
    pub closed spec fn ptr_word(self) -> u64 {
        self.ptr
    }

    pub closed spec fn size_word(self) -> u64 {
        self.size
    }

    /// Start address of the region, as a machine word.
    pub open spec fn addr_spec(self) -> usize {
        self.ptr_word() as usize
    }

    /// Length of the region in bytes, as a machine word.
    pub open spec fn len_spec(self) -> usize {
        (self.size_word() & SIZE_MASK) as usize
    }

    /// Whether the region is free for use.
    pub open spec fn free_spec(self) -> bool {
        self.size_word() & KIND_MASK == KIND_FREE
    }

    /// Whether the kernel may hand the region to its heap: it is free and does
    /// not start at address zero.
    pub open spec fn usable(self) -> bool {
        self.free_spec() && self.addr_spec() != 0
    }

    /// An entry from its two raw words.
    pub fn new(ptr: u64, size: u64) -> (m: MemoryMapping)
        ensures
            m.ptr_word() == ptr,
            m.size_word() == size,
    {
        MemoryMapping { ptr, size }
    }

    pub fn addr(&self) -> (a: usize)
        ensures
            a == self.addr_spec(),
    {
        #[verifier::truncate]
        (self.ptr as usize)
    }

    pub fn size(&self) -> (n: usize)
        ensures
            n == self.len_spec(),
    {
        #[verifier::truncate]
        ((self.size & SIZE_MASK) as usize)
    }

    pub fn is_free(&self) -> (b: bool)
        ensures
            b == self.free_spec(),
    {
        (self.size & KIND_MASK) == KIND_FREE
    }
}

/// The boot information block.
pub struct Bootboot {
    pub magic: [u8; 4],
    pub size: u32,
    pub protocol: u8,
    pub framebuffer_type: u8,
    pub numcores: u16,
    pub bspid: u16,
    pub timezone: i16,
    pub datetime: [u8; 8],
    pub initrd_ptr: u64,
    pub initrd_size: u64,
    pub fb_ptr: u64,
    pub fb_size: u32,
    pub fb_width: u32,
    pub fb_height: u32,
    pub fb_scanline: u32,
    pub arch: Arch,
    pub mmap: Vec<MemoryMapping>,
}

/// The `(start, length)` pairs of the usable regions of `entries`, in order.
pub open spec fn usable_regions(entries: Seq<MemoryMapping>) -> Seq<(usize, usize)>
    decreases entries.len(),
{
    if entries.len() == 0 {
        Seq::empty()
    } else {
        let rest = usable_regions(entries.drop_last());
        let e = entries.last();
        if e.usable() {
            rest.push((e.addr_spec(), e.len_spec()))
        } else {
            rest
        }
    }
}

impl Bootboot {
    /// Number of memory map entries that the block's size announces.
    pub open spec fn entry_count(&self) -> int {
        (self.size - HEADER_BYTES) / (ENTRY_BYTES as int)
    }

    /// The block is large enough for its header and the map it announces is
    /// held in full.
    pub open spec fn wf(&self) -> bool {
        &&& self.size >= HEADER_BYTES
        &&& self.entry_count() <= self.mmap@.len()
    }

    /// The entries of the memory map that the block announces.
    pub fn memory_mappings(&self) -> (entries: &[MemoryMapping])
        requires
            self.wf(),
        ensures
            entries@ == self.mmap@.subrange(0, self.entry_count()),
    {
        let count: usize = ((self.size - HEADER_BYTES) / ENTRY_BYTES) as usize;
        vstd::slice::slice_subrange(self.mmap.as_slice(), 0, count)
    }

    /// The entries the kernel considers for its heap: all that the block
    /// announces but the first.
    pub open spec fn heap_candidates(&self) -> Seq<MemoryMapping> {
        if self.entry_count() >= 1 {
            self.mmap@.subrange(1, self.entry_count())
        } else {
            Seq::empty()
        }
    }

    /// The regions the kernel adds to its heap: every usable entry among the
    /// candidates, as `(start, length)`, in the order of the map.
    pub fn heap_regions(&self) -> (regions: Vec<(usize, usize)>)
        requires
            self.wf(),
        ensures
            regions@ == usable_regions(self.heap_candidates()),
    {
        let entries = self.memory_mappings();
        let mut regions: Vec<(usize, usize)> = Vec::new();
        if entries.len() == 0 {
            return regions;
        }
        let ghost tail = self.heap_candidates();
        let mut i: usize = 1;
        assert(tail.subrange(0, 0) =~= Seq::empty());
        while i < entries.len()
            invariant
                1 <= i <= entries.len(),
                tail.len() == entries@.len() - 1,
                forall|j: int| 0 <= j < tail.len() ==> tail[j] == entries@[j + 1],
                regions@ == usable_regions(tail.subrange(0, i - 1)),
            decreases entries.len() - i,
        {
            let e = &entries[i];
            assert(tail.subrange(0, i as int).drop_last() =~= tail.subrange(0, i - 1));
            assert(tail.subrange(0, i as int).last() == entries@[i as int]);
            if e.is_free() && e.addr() != 0 {
                regions.push((e.addr(), e.size()));
            }
            i = i + 1;
        }
        assert(tail.subrange(0, i - 1) =~= tail);
        regions
    }
}

} // verus!
