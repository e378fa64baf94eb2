//! Where the parts of the file store lie on the disk.

use vstd::prelude::*;

verus! {

/// Bytes in a disk sector.
pub const SECTOR_SIZE: usize = 512;

/// A disk sector.
pub type Sector = [u8; 512];

/// The unsigned 16-bit little-endian number stored at `bytes[i]` and `bytes[i + 1]`.
pub open spec fn le16(bytes: Seq<u8>, i: int) -> int {
    bytes[i] + 256 * bytes[i + 1]
}

/// `u16::from_le_bytes([lo, hi])`.
pub fn u16_from_le(lo: u8, hi: u8) -> (r: u16)
    ensures
        r == lo + 256 * hi,
{
    let r = (lo as u16) | ((hi as u16) << 8u16);
    assert(r == lo + 256 * hi) by (bit_vector)
        requires
            r == (lo as u16) | ((hi as u16) << 8u16),
    ;
    r
}

/// The sector numbers of the FAT, the root directory and the first data cluster, and the
/// size of a cluster in sectors.
#[derive(Clone, Copy, PartialEq, Eq, Debug)]
pub struct Layout {
    pub fat_start: u32,
    pub root_start: u32,
    pub data_start: u32,
    pub sectors_per_cluster: u32,
}

impl Layout {
    /// The bounds that every layout read from a boot sector keeps.
    pub open spec fn wf(&self) -> bool {
        &&& self.data_start <= 0x4_0000
        &&& self.sectors_per_cluster <= 0xFF
    }
}

/// The layout that a boot sector describes: the FAT starts after the reserved sectors
/// (offset 14), two FAT copies of the size at offset 22 follow, then the root directory
/// whose entry count is at offset 17; sectors per cluster is at offset 13.
pub open spec fn spec_layout(boot: Seq<u8>) -> Layout {
    let reserved = le16(boot, 14);
    let fat_size = le16(boot, 22);
    let root_count = le16(boot, 17);
    let root_start = reserved + 2 * fat_size;
    Layout {
        fat_start: reserved as u32,
        root_start: root_start as u32,
        data_start: (root_start + root_count * 32 / 512) as u32,
        sectors_per_cluster: boot[13] as u32,
    }
}

/// Reads the layout of the file store from its boot sector.
pub fn get_layout(boot: &Sector) -> (l: Layout)
    ensures
        l == spec_layout(boot@),
        l.wf(),
{
    let reserved = u16_from_le(boot[14], boot[15]) as u32;
    let fat_size = u16_from_le(boot[22], boot[23]) as u32;
    let root_count = u16_from_le(boot[17], boot[18]) as u32;
    let spc = boot[13] as u32;
    let fat_start = reserved;
    let root_start = fat_start + 2 * fat_size;
    let data_start = root_start + (root_count * 32 / 512);
    Layout { fat_start, root_start, data_start, sectors_per_cluster: spc }
}

/// The first sector of data cluster `cluster`: clusters are numbered from 2 at the start of
/// the data area. `None` for a cluster number below 2, which names no data cluster (the
/// subtraction that turns it into a sector number would underflow).
pub open spec fn spec_cluster_sector(l: Layout, cluster: int) -> Option<u32> {
    if cluster < 2 {
        None
    } else {
        Some((l.data_start + (cluster - 2) * l.sectors_per_cluster) as u32)
    }
}

/// The first sector of data cluster `cluster`, or `None` when `cluster` is below 2.
pub fn cluster_sector(l: Layout, cluster: u16) -> (r: Option<u32>)
    requires
        l.wf(),
    ensures
        r == spec_cluster_sector(l, cluster as int),
        r matches Some(s) ==> s == l.data_start + (cluster - 2) * l.sectors_per_cluster,
{
    if cluster < 2 {
        return None;
    }
    let c = cluster as u32 - 2;
    proof {
        assert(c * l.sectors_per_cluster <= 0xFFFF * 0xFF) by (nonlinear_arith)
            requires
                c <= 0xFFFF,
                l.sectors_per_cluster <= 0xFF,
        ;
    }
    Some(l.data_start + c * l.sectors_per_cluster)
}

/// What a file's data sector holds: the first 512 bytes of `content`, then zeros.
pub open spec fn spec_file_data(content: Seq<u8>) -> Seq<u8> {
    Seq::new(512, |k: int| if k < content.len() { content[k] } else { 0u8 })
}

/// How many bytes of `content` a file keeps: at most one sector.
pub open spec fn stored_len(content: Seq<u8>) -> int {
    if content.len() < 512 {
        content.len() as int
    } else {
        512
    }
}

/// The data sector written for a file with this `content`.
pub fn file_data(content: &[u8]) -> (d: Sector)
    ensures
        d@ == spec_file_data(content@),
{
    let mut data = [0u8; 512];
    let len = if content.len() < 512 {
        content.len()
    } else {
        512
    };
    let mut i: usize = 0;
    while i < len
        invariant
            len == stored_len(content@),
            i <= len,
            forall|k: int| 0 <= k < i ==> data@[k] == content@[k],
            forall|k: int| i <= k < 512 ==> data@[k] == 0u8,
        decreases len - i,
    {
        data[i] = content[i];
        i = i + 1;
    }
    assert(data@ =~= spec_file_data(content@));
    data
}

} // verus!
