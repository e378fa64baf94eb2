//! The global descriptor table and the task state segment.
//!
//! The structures mirror the hardware layouts field by field; the sizes below are those of
//! the packed hardware layouts.

use vstd::prelude::*;

verus! {

/// Bytes in the hardware task state segment.
pub const TSS_SIZE: u16 = 104;

/// Bytes in the table: five 8-byte segment descriptors and one 16-byte TSS descriptor.
pub const GDT_SIZE: u16 = 56;

/// Selector of the kernel code segment.
pub const KERNEL_CODE_SELECTOR: u16 = 0x08;

/// Selector of the kernel data segment.
pub const KERNEL_DATA_SELECTOR: u16 = 0x10;

/// Selector of the TSS descriptor (entry 5).
pub const TSS_SELECTOR: u16 = 0x28;

/// Bytes in the stack the processor switches to when user code is interrupted.
pub const KERNEL_STACK_SIZE: u64 = 4096 * 4;

/// A segment descriptor.
#[derive(Clone, Copy, PartialEq, Eq, Debug)]
pub struct GdtEntry {
    pub limit_low: u16,
    pub base_low: u16,
    pub base_middle: u8,
    pub access: u8,
    pub granularity: u8,
    pub base_high: u8,
}

impl GdtEntry {
    /// A descriptor with base 0, the low 16 bits of the limit, and the given access and
    /// granularity bytes.
    pub fn new(limit: u16, access: u8, granularity: u8) -> (e: Self)
        ensures
            e.limit_low == limit && e.access == access && e.granularity == granularity,
            e.base_low == 0 && e.base_middle == 0 && e.base_high == 0,
    {
        GdtEntry { limit_low: limit, base_low: 0, base_middle: 0, access, granularity, base_high: 0 }
    }
}

/// The 16-byte descriptor of a task state segment.
#[derive(Clone, Copy, PartialEq, Eq, Debug)]
pub struct TssDescriptor {
    pub limit_low: u16,
    pub base_low: u16,
    pub base_middle: u8,
    pub access: u8,
    pub granularity: u8,
    pub base_high: u8,
    pub base_upper: u32,
    pub reserved: u32,
}

/// The task state segment: the stacks the processor switches to.
#[derive(Clone, Copy, PartialEq, Eq, Debug)]
pub struct Tss {
    pub reserved0: u32,
    pub rsp0: u64,
    pub rsp1: u64,
    pub rsp2: u64,
    pub reserved1: u64,
    pub ist: [u64; 7],
    pub reserved2: u64,
    pub reserved3: u16,
    pub iomap_base: u16,
}

impl Tss {
    /// A task state segment with every stack pointer zero and no I/O permission map (its
    /// offset is the segment's size).
    pub fn new() -> (t: Self)
        ensures
            t.reserved0 == 0 && t.rsp0 == 0 && t.rsp1 == 0 && t.rsp2 == 0 && t.reserved1 == 0,
            t.ist@ == Seq::new(7, |i: int| 0u64),
            t.reserved2 == 0 && t.reserved3 == 0,
            t.iomap_base == TSS_SIZE,
    {
        let t = Tss {
            reserved0: 0,
            rsp0: 0,
            rsp1: 0,
            rsp2: 0,
            reserved1: 0,
            ist: [0; 7],
            reserved2: 0,
            reserved3: 0,
            iomap_base: TSS_SIZE,
        };
        assert(t.ist@ =~= Seq::new(7, |i: int| 0u64));
        t
    }
}

/// The table: a null descriptor, kernel code and data, user data and code, and the TSS.
#[derive(Clone, Copy, PartialEq, Eq, Debug)]
pub struct Gdt {
    pub null: GdtEntry,
    pub kernel_code: GdtEntry,
    pub kernel_data: GdtEntry,
    pub user_data: GdtEntry,
    pub user_code: GdtEntry,
    pub tss: TssDescriptor,
}

/// The TSS descriptor of a task state segment at `tss_addr`: the base split over its four
/// fields, limit `TSS_SIZE - 1`, present 64-bit available TSS (access 0x89).
pub open spec fn spec_tss_descriptor(tss_addr: u64) -> TssDescriptor {
    TssDescriptor {
        limit_low: (TSS_SIZE - 1) as u16,
        base_low: (tss_addr % 0x1_0000) as u16,
        base_middle: ((tss_addr / 0x1_0000) % 0x100) as u8,
        access: 0x89,
        granularity: 0,
        base_high: ((tss_addr / 0x100_0000) % 0x100) as u8,
        base_upper: (tss_addr / 0x1_0000_0000) as u32,
        reserved: 0,
    }
}

/// The descriptor `d` with its base set to `tss_addr` and its limit to `TSS_SIZE - 1`.
pub open spec fn with_base(d: TssDescriptor, tss_addr: u64) -> TssDescriptor {
    let t = spec_tss_descriptor(tss_addr);
    TssDescriptor {
        limit_low: t.limit_low,
        base_low: t.base_low,
        base_middle: t.base_middle,
        base_high: t.base_high,
        base_upper: t.base_upper,
        ..d
    }
}

/// A flat descriptor with the low 16 bits of the limit all set.
pub open spec fn flat(access: u8, granularity: u8) -> GdtEntry {
    GdtEntry { limit_low: 0xFFFF, base_low: 0, base_middle: 0, access, granularity, base_high: 0 }
}

/// The kernel's table before the TSS address is known.
pub open spec fn kernel_gdt() -> Gdt {
    Gdt {
        null: GdtEntry { limit_low: 0, base_low: 0, base_middle: 0, access: 0, granularity: 0, base_high: 0 },
        kernel_code: flat(0x9A, 0xAF),
        kernel_data: flat(0x92, 0x00),
        user_data: flat(0xF2, 0x00),
        user_code: flat(0xFA, 0xAF),
        tss: TssDescriptor {
            limit_low: 0,
            base_low: 0,
            base_middle: 0,
            access: 0x89,
            granularity: 0,
            base_high: 0,
            base_upper: 0,
            reserved: 0,
        },
    }
}

impl Gdt {
    /// The kernel's table before the TSS address is known: flat 64-bit kernel code (access
    /// 0x9A, granularity 0xAF), kernel data (0x92), user data (0xF2, privilege 3) and user code
    /// (0xFA, privilege 3), and a TSS descriptor with no base yet.
    pub fn new() -> (g: Self)
        ensures
            g == kernel_gdt(),
    {
        Gdt {
            null: GdtEntry::new(0, 0, 0),
            kernel_code: GdtEntry::new(0xFFFF, 0x9A, 0xAF),
            kernel_data: GdtEntry::new(0xFFFF, 0x92, 0x00),
            user_data: GdtEntry::new(0xFFFF, 0xF2, 0x00),
            user_code: GdtEntry::new(0xFFFF, 0xFA, 0xAF),
            tss: TssDescriptor {
                limit_low: 0,
                base_low: 0,
                base_middle: 0,
                access: 0x89,
                granularity: 0,
                base_high: 0,
                base_upper: 0,
                reserved: 0,
            },
        }
    }
}

/// Fills the TSS descriptor of the table with the address of the task state segment, as
/// `init` does before loading the table.
pub fn set_tss(gdt: &mut Gdt, tss_addr: u64)
    ensures
        final(gdt).tss == with_base(old(gdt).tss, tss_addr),
        final(gdt).null == old(gdt).null && final(gdt).kernel_code == old(gdt).kernel_code,
        final(gdt).kernel_data == old(gdt).kernel_data && final(gdt).user_data == old(gdt).user_data,
        final(gdt).user_code == old(gdt).user_code,
{
    let low = (tss_addr & 0xFFFF) as u16;
    let middle = ((tss_addr >> 16u64) & 0xFF) as u8;
    let high = ((tss_addr >> 24u64) & 0xFF) as u8;
    let upper = (tss_addr >> 32u64) as u32;
    assert(low == (tss_addr % 0x1_0000) as u16) by (bit_vector)
        requires low == (tss_addr & 0xFFFF) as u16;
    assert(middle == ((tss_addr / 0x1_0000) % 0x100) as u8) by (bit_vector)
        requires middle == ((tss_addr >> 16u64) & 0xFF) as u8;
    assert(high == ((tss_addr / 0x100_0000) % 0x100) as u8) by (bit_vector)
        requires high == ((tss_addr >> 24u64) & 0xFF) as u8;
    assert(upper == (tss_addr / 0x1_0000_0000) as u32) by (bit_vector)
        requires upper == (tss_addr >> 32u64) as u32;
    gdt.tss.limit_low = TSS_SIZE - 1;
    gdt.tss.base_low = low;
    gdt.tss.base_middle = middle;
    gdt.tss.base_high = high;
    gdt.tss.base_upper = upper;
}

/// The address of the base that a TSS descriptor records.
pub open spec fn descriptor_base(d: TssDescriptor) -> int {
    d.base_low + d.base_middle * 0x1_0000 + d.base_high * 0x100_0000 + d.base_upper * 0x1_0000_0000
}

/// The descriptor that `set_tss` fills records the address it was given, whole.
pub proof fn lemma_tss_base_roundtrip(d: TssDescriptor, tss_addr: u64)
    ensures
        descriptor_base(with_base(d, tss_addr)) == tss_addr,
{
    let a = tss_addr as int;
    assert(a == a % 0x1_0000 + ((a / 0x1_0000) % 0x100) * 0x1_0000 + ((a / 0x100_0000) % 0x100)
        * 0x100_0000 + (a / 0x1_0000_0000) * 0x1_0000_0000) by (nonlinear_arith)
        requires 0 <= a;
}

/// The top of the kernel stack whose lowest byte is at `stack_base`: the address the
/// processor loads into `rsp` on entering ring 0.
pub fn kernel_stack_top(stack_base: u64) -> (top: u64)
    requires
        stack_base + KERNEL_STACK_SIZE <= u64::MAX,
    ensures
        top == stack_base + KERNEL_STACK_SIZE,
{
    stack_base + KERNEL_STACK_SIZE
}

} // verus!
