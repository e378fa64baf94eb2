//! The file allocation table: one sector of 256 little-endian 16-bit entries, one per
//! cluster, where 0 marks a free cluster.

use vstd::prelude::*;
use crate::fat::layout::{le16, u16_from_le, Sector};

verus! {

/// Number of clusters that the FAT sector describes.
pub const FAT_ENTRIES: usize = 256;

/// First cluster number that may hold data; entries 0 and 1 are reserved.
pub const FIRST_DATA_CLUSTER: usize = 2;

/// The FAT entry of `cluster`.
pub open spec fn fat_entry(fat: Seq<u8>, cluster: int) -> int {
    le16(fat, 2 * cluster)
}

/// Whether `cluster` is a data cluster that the FAT marks free.
pub open spec fn is_free(fat: Seq<u8>, cluster: int) -> bool {
    FIRST_DATA_CLUSTER <= cluster < FAT_ENTRIES && fat_entry(fat, cluster) == 0
}

/// The lowest free data cluster, if any.
pub open spec fn first_free(fat: Seq<u8>, r: Option<u16>) -> bool {
    match r {
        Some(c) => is_free(fat, c as int) && forall|j: int|
            FIRST_DATA_CLUSTER <= j < c ==> !#[trigger] is_free(fat, j),
        None => forall|j: int| !#[trigger] is_free(fat, j),
    }
}

/// The lowest free data cluster of the FAT, if there is one.
pub open spec fn lowest_free(fat: Seq<u8>) -> Option<u16> {
    if exists|c: u16| first_free(fat, Some(c)) {
        Some(choose|c: u16| first_free(fat, Some(c)))
    } else {
        None
    }
}

/// The lowest free cluster is the only cluster that `first_free` describes.
pub proof fn lemma_lowest_free(fat: Seq<u8>, r: Option<u16>)
    requires
        first_free(fat, r),
    ensures
        lowest_free(fat) == r,
{
    match r {
        Some(c) => {
            let k = choose|k: u16| first_free(fat, Some(k));
            assert(first_free(fat, Some(k)));
            if k < c {
                assert(!is_free(fat, k as int));
            } else if c < k {
                assert(!is_free(fat, c as int));
            }
        },
        None => {
            if exists|k: u16| first_free(fat, Some(k)) {
                let k = choose|k: u16| first_free(fat, Some(k));
                assert(is_free(fat, k as int));
            }
        },
    }
}

/// The FAT with `cluster` marked as the last cluster of a file (entry 0xFFFF).
pub open spec fn spec_mark_used(fat: Seq<u8>, cluster: int) -> Seq<u8> {
    fat.update(2 * cluster, 0xFFu8).update(2 * cluster + 1, 0xFFu8)
}

/// Finds the lowest free data cluster in the FAT sector.
pub fn find_free_cluster(fat: &Sector) -> (r: Option<u16>)
    ensures
        first_free(fat@, r),
        r == lowest_free(fat@),
        r matches Some(c) ==> FIRST_DATA_CLUSTER <= c < FAT_ENTRIES,
{
    let mut i: usize = 2;
    while i < FAT_ENTRIES
        invariant
            2 <= i <= FAT_ENTRIES,
            forall|j: int| FIRST_DATA_CLUSTER <= j < i ==> !#[trigger] is_free(fat@, j),
        decreases FAT_ENTRIES - i,
    {
        let entry = u16_from_le(fat[i * 2], fat[i * 2 + 1]);
        if entry == 0 {
            proof {
                lemma_lowest_free(fat@, Some(i as u16));
            }
            return Some(i as u16);
        }
        i = i + 1;
    }
    proof {
        lemma_lowest_free(fat@, None);
    }
    None
}

/// Marks `cluster` in the FAT sector as the last cluster of a file.
pub fn mark_cluster_used(fat: &mut Sector, cluster: u16)
    requires
        cluster < FAT_ENTRIES,
    ensures
        final(fat)@ == spec_mark_used(old(fat)@, cluster as int),
{
    fat[cluster as usize * 2] = 0xFF;
    fat[cluster as usize * 2 + 1] = 0xFF;
}

/// A cluster that has been marked used is no longer free, and the other clusters keep their
/// state: so the next free cluster found after taking the lowest one lies above it.
pub proof fn lemma_mark_then_find(fat: Seq<u8>, c: u16, next: Option<u16>)
    requires
        fat.len() == 512,
        first_free(fat, Some(c)),
        first_free(spec_mark_used(fat, c as int), next),
    ensures
        !is_free(spec_mark_used(fat, c as int), c as int),
        forall|j: int| j != c ==> (#[trigger] is_free(spec_mark_used(fat, c as int), j) == is_free(fat, j)),
        next matches Some(n) ==> n > c,
{
    let m = spec_mark_used(fat, c as int);
    assert forall|j: int| j != c implies (#[trigger] is_free(m, j) == is_free(fat, j)) by {
        if FIRST_DATA_CLUSTER <= j < FAT_ENTRIES {
            assert(m[2 * j] == fat[2 * j]);
            assert(m[2 * j + 1] == fat[2 * j + 1]);
        }
    }
    match next {
        Some(n) => {
            if n <= c {
                assert(is_free(m, n as int));
                if n < c {
                    assert(!is_free(fat, n as int));
                }
            }
        },
        None => {},
    }
}

} // verus!
