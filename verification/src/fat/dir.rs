//! Directory sectors: sixteen 32-byte entries. An entry holds an 8-byte name and a 3-byte
//! extension padded with spaces, an attribute byte at offset 11 (bit 0x10 marks a
//! directory), the first cluster at offset 26 and the size at offset 28, both little-endian.
//! An entry whose first byte is 0x00 ends the directory; one whose first byte is 0xE5 is
//! deleted.

use vstd::prelude::*;
use vstd::slice::slice_subrange;
use vstd::string::StringSliceAdditionalSpecFns;
use crate::fat::layout::{le16, u16_from_le, Sector};
use vstd::utf8::{
    encode_utf8, encode_utf8_decode_utf8, encode_utf8_valid_utf8, is_ascii_chars,
    is_ascii_chars_encode_utf8,
};
use crate::text::{
    ascii_lower, eq_ignore_ascii_case_chars, str_eq_ignore_ascii_case, str_trim, str_trim_end, text_or_empty,
    trim_chars, trim_end_chars, utf8_text_or_empty,
};

verus! {

/// Entries in a directory sector.
pub const DIR_ENTRIES: usize = 16;

/// Bytes in a directory entry.
pub const ENTRY_SIZE: usize = 32;

/// First byte of the entry that ends a directory.
pub const END_MARK: u8 = 0x00;

/// First byte of a deleted entry.
pub const DELETED_MARK: u8 = 0xE5;

/// Attribute bit of a directory.
pub const ATTR_DIRECTORY: u8 = 0x10;

/// Byte with which name fields, and the entry bytes that nothing sets, are filled.
pub const PAD: u8 = 0x20;

/// Entry `i` of a directory sector.
pub open spec fn slot(dir: Seq<u8>, i: int) -> Seq<u8> {
    dir.subrange(32 * i, 32 * i + 32)
}

/// Whether an entry is in use: neither the end of the directory nor deleted.
pub open spec fn is_live(e: Seq<u8>) -> bool {
    e[0] != END_MARK && e[0] != DELETED_MARK
}

/// Whether an entry's attribute marks a directory.
pub open spec fn is_dir_entry(e: Seq<u8>) -> bool {
    e[11] & ATTR_DIRECTORY != 0
}

/// The name of an entry as text, trailing white space removed (empty if not UTF-8).
pub open spec fn entry_name(e: Seq<u8>) -> Seq<char> {
    trim_end_chars(utf8_text_or_empty(e.subrange(0, 8)))
}

/// The extension of an entry as text, trailing white space removed (empty if not UTF-8).
pub open spec fn entry_ext(e: Seq<u8>) -> Seq<char> {
    trim_end_chars(utf8_text_or_empty(e.subrange(8, 11)))
}

/// Whether an entry carries this name and extension, ASCII letters compared without case.
pub open spec fn names_match(e: Seq<u8>, name: Seq<char>, ext: Seq<char>) -> bool {
    eq_ignore_ascii_case_chars(entry_name(e), name) && eq_ignore_ascii_case_chars(entry_ext(e), ext)
}

/// Whether an entry is a live file or directory of this name and extension.
pub open spec fn is_named(e: Seq<u8>, name: Seq<char>, ext: Seq<char>) -> bool {
    is_live(e) && names_match(e, name, ext)
}

/// Whether an entry is a live entry of this name, extension and kind.
pub open spec fn is_named_kind(e: Seq<u8>, name: Seq<char>, ext: Seq<char>, is_dir: bool) -> bool {
    is_live(e) && is_dir_entry(e) == is_dir && names_match(e, name, ext)
}

/// Whether no entry before entry `i` ends the directory.
pub open spec fn open_through(dir: Seq<u8>, i: int) -> bool {
    forall|j: int| 0 <= j < i ==> #[trigger] dir[32 * j] != END_MARK
}

/// Whether entry `i` is the first entry, among those before the end of the directory, for
/// which `hit` holds.
pub open spec fn first_hit_at(dir: Seq<u8>, hit: spec_fn(Seq<u8>) -> bool, i: int) -> bool {
    &&& 0 <= i < DIR_ENTRIES
    &&& open_through(dir, i)
    &&& hit(slot(dir, i))
    &&& forall|j: int| 0 <= j < i ==> !hit(#[trigger] slot(dir, j))
}

/// The directory scan: the first entry before the end of the directory for which `hit`
/// holds, if there is one.
pub open spec fn first_hit(dir: Seq<u8>, hit: spec_fn(Seq<u8>) -> bool) -> Option<int> {
    if exists|i: int| first_hit_at(dir, hit, i) {
        Some(choose|i: int| first_hit_at(dir, hit, i))
    } else {
        None
    }
}

/// At most one entry is the first hit.
pub proof fn lemma_first_hit_unique(dir: Seq<u8>, hit: spec_fn(Seq<u8>) -> bool, i: int)
    requires
        first_hit_at(dir, hit, i),
    ensures
        first_hit(dir, hit) == Some(i),
{
    let k = choose|k: int| first_hit_at(dir, hit, k);
    assert(first_hit_at(dir, hit, k));
    if k < i {
        assert(!hit(slot(dir, k)));
    } else if i < k {
        assert(!hit(slot(dir, i)));
    }
}

/// `i` as a mathematical integer, if present.
pub open spec fn opt_int(r: Option<usize>) -> Option<int> {
    match r {
        Some(i) => Some(i as int),
        None => None,
    }
}

/// The test of the scan for a live entry of this name and extension, whatever its kind.
pub open spec fn file_hit(name: Seq<char>, ext: Seq<char>) -> spec_fn(Seq<u8>) -> bool {
    |e: Seq<u8>| is_named(e, name, ext)
}

/// The test of the scan for a live entry of this name, extension and kind.
pub open spec fn kind_hit(name: Seq<char>, ext: Seq<char>, is_dir: bool) -> spec_fn(Seq<u8>) -> bool {
    |e: Seq<u8>| is_named_kind(e, name, ext, is_dir)
}

/// The scan for a live entry of this name and extension, whatever its kind.
pub open spec fn spec_find_file(dir: Seq<u8>, name: Seq<char>, ext: Seq<char>) -> Option<int> {
    first_hit(dir, file_hit(name, ext))
}

/// The first cluster of the first live entry of this name, extension and kind.
pub open spec fn spec_find_entry(dir: Seq<u8>, name: Seq<char>, ext: Seq<char>, is_dir: bool) -> Option<u16> {
    match first_hit(dir, kind_hit(name, ext, is_dir)) {
        Some(i) => Some(entry_cluster(slot(dir, i)) as u16),
        None => None,
    }
}

/// The first cluster recorded in an entry.
pub open spec fn entry_cluster(e: Seq<u8>) -> int {
    le16(e, 26)
}

/// The size recorded in an entry.
pub open spec fn entry_size(e: Seq<u8>) -> int {
    e[28] + 256 * e[29] + 65536 * e[30] + 16777216 * e[31]
}

/// The first entry slot that ends the directory, where a new entry goes.
pub open spec fn free_slot(dir: Seq<u8>, r: Option<int>) -> bool {
    match r {
        Some(i) => 0 <= i < DIR_ENTRIES && open_through(dir, i) && dir[32 * i] == END_MARK,
        None => open_through(dir, DIR_ENTRIES as int),
    }
}

/// The slot where a new entry goes, if any.
pub open spec fn first_free_slot(dir: Seq<u8>) -> Option<int> {
    if exists|i: int| free_slot(dir, Some(i)) {
        Some(choose|i: int| free_slot(dir, Some(i)))
    } else {
        None
    }
}

/// `first_free_slot` is the slot that `free_slot` describes.
pub proof fn lemma_first_free_slot(dir: Seq<u8>, r: Option<int>)
    requires
        free_slot(dir, r),
    ensures
        first_free_slot(dir) == r,
{
    match r {
        Some(i) => {
            let k = choose|k: int| free_slot(dir, Some(k));
            assert(free_slot(dir, Some(k)));
            if k < i {
                assert(dir[32 * k] != END_MARK);
            } else if i < k {
                assert(dir[32 * i] != END_MARK);
            }
        },
        None => {
            if exists|k: int| free_slot(dir, Some(k)) {
                let k = choose|k: int| free_slot(dir, Some(k));
                assert(dir[32 * k] != END_MARK);
            }
        },
    }
}

/// The directory after inserting `e`, or `None` when every slot is taken.
pub open spec fn inserted(dir: Seq<u8>, e: Seq<u8>) -> Option<Seq<u8>> {
    match first_free_slot(dir) {
        Some(i) => Some(put_slot(dir, i, e)),
        None => None,
    }
}

/// The directory with entry `i` replaced by `e`.
pub open spec fn put_slot(dir: Seq<u8>, i: int, e: Seq<u8>) -> Seq<u8> {
    Seq::new(dir.len(), |k: int| if 32 * i <= k < 32 * i + 32 { e[k - 32 * i] } else { dir[k] })
}

/// What inserting `e` into the directory gives: the directory with the entry stored in the
/// first slot that ends the directory, or `None` when every slot is taken.
pub open spec fn spec_insert(dir: Seq<u8>, e: Seq<u8>, r: Option<Seq<u8>>) -> bool {
    match r {
        Some(d) => exists|i: int| free_slot(dir, Some(i)) && d == put_slot(dir, i, e),
        None => free_slot(dir, None),
    }
}

/// The 32 bytes of an entry: `name` and `ext` truncated to 8 and 3 bytes and padded with
/// spaces, attribute `attr`, first cluster `cluster`, the four bytes `tail` at offset 28,
/// and spaces everywhere else.
pub open spec fn entry_bytes(name: Seq<u8>, ext: Seq<u8>, attr: u8, cluster: u16, tail: Seq<u8>) -> Seq<u8> {
    Seq::new(
        32,
        |k: int|
            if k < 8 {
                if k < name.len() {
                    name[k]
                } else {
                    PAD
                }
            } else if k < 11 {
                if k - 8 < ext.len() {
                    ext[k - 8]
                } else {
                    PAD
                }
            } else if k == 11 {
                attr
            } else if k < 26 {
                PAD
            } else if k == 26 {
                cluster as u8
            } else if k == 27 {
                (cluster >> 8u16) as u8
            } else {
                tail[k - 28]
            },
    )
}

/// The entry that `create_file` puts in the root directory: its attribute byte stays a
/// space and its 32-bit size is `len`.
pub open spec fn root_file_entry(name: Seq<u8>, ext: Seq<u8>, cluster: u16, len: usize) -> Seq<u8> {
    entry_bytes(name, ext, PAD, cluster, seq![len as u8, (len >> 8usize) as u8, 0u8, 0u8])
}

/// The entry that `write_file_entry` writes: a plain file whose size field holds the low
/// 16 bits of `size`, its two high bytes left as spaces.
pub open spec fn file_entry(name: Seq<u8>, ext: Seq<u8>, cluster: u16, size: usize) -> Seq<u8> {
    entry_bytes(name, ext, 0u8, cluster, seq![size as u8, (size >> 8usize) as u8, PAD, PAD])
}

/// The entry that `write_dir_entry` writes: no extension, the directory bit as asked.
pub open spec fn dir_entry(name: Seq<u8>, cluster: u16, is_dir: bool) -> Seq<u8> {
    entry_bytes(name, Seq::empty(), if is_dir { ATTR_DIRECTORY } else { 0u8 }, cluster, seq![PAD, PAD, PAD, PAD])
}

/// Whether the name and extension of entry `i` are `name` and `ext`.
fn slot_names_match(dir: &Sector, i: usize, name: &str, ext: &str) -> (r: bool)
    requires
        i < DIR_ENTRIES,
    ensures
        r == names_match(slot(dir@, i as int), name@, ext@),
{
    let s = dir.as_slice();
    let base = i * ENTRY_SIZE;
    let ename = str_trim_end(text_or_empty(slice_subrange(s, base, base + 8)));
    let eext = str_trim_end(text_or_empty(slice_subrange(s, base + 8, base + 11)));
    proof {
        assert(slot(dir@, i as int).subrange(0, 8) =~= dir@.subrange(base as int, base + 8));
        assert(slot(dir@, i as int).subrange(8, 11) =~= dir@.subrange(base + 8, base + 11));
    }
    str_eq_ignore_ascii_case(ename, name) && str_eq_ignore_ascii_case(eext, ext)
}

/// Finds the first live entry of this name and extension, whatever its kind: the search that
/// `read_file` and `delete_file` make. Returns the entry's index.
pub fn find_file(dir: &Sector, name: &str, ext: &str) -> (r: Option<usize>)
    ensures
        opt_int(r) == spec_find_file(dir@, name@, ext@),
{
    let ghost hit = file_hit(name@, ext@);
    let mut i: usize = 0;
    while i < DIR_ENTRIES
        invariant
            i <= DIR_ENTRIES,
            open_through(dir@, i as int),
            hit == file_hit(name@, ext@),
            forall|j: int| 0 <= j < i ==> !hit(#[trigger] slot(dir@, j)),
        decreases DIR_ENTRIES - i,
    {
        let first = dir[i * ENTRY_SIZE];
        proof {
            assert(slot(dir@, i as int)[0] == dir@[32 * i]);
        }
        if first == END_MARK {
            proof {
                assert(!exists|k: int| first_hit_at(dir@, hit, k)) by {
                    assert forall|k: int| !first_hit_at(dir@, hit, k) by {
                        if first_hit_at(dir@, hit, k) {
                            if k > i {
                                assert(dir@[32 * i] != END_MARK);
                            } else if k < i {
                                assert(!hit(slot(dir@, k)));
                            } else {
                                assert(slot(dir@, k)[0] == END_MARK);
                            }
                        }
                    }
                }
            }
            return None;
        }
        if first != DELETED_MARK && slot_names_match(dir, i, name, ext) {
            proof {
                lemma_first_hit_unique(dir@, hit, i as int);
            }
            return Some(i);
        }
        i = i + 1;
    }
    proof {
        assert(!exists|k: int| first_hit_at(dir@, hit, k));
    }
    None
}

/// Finds the first live entry of this name, extension and kind, and returns its first
/// cluster.
pub fn find_entry(dir: &Sector, name: &str, ext: &str, is_dir: bool) -> (r: Option<u16>)
    ensures
        r == spec_find_entry(dir@, name@, ext@, is_dir),
{
    let ghost hit = kind_hit(name@, ext@, is_dir);
    let mut i: usize = 0;
    while i < DIR_ENTRIES
        invariant
            i <= DIR_ENTRIES,
            open_through(dir@, i as int),
            hit == kind_hit(name@, ext@, is_dir),
            forall|j: int| 0 <= j < i ==> !hit(#[trigger] slot(dir@, j)),
        decreases DIR_ENTRIES - i,
    {
        let base = i * ENTRY_SIZE;
        let first = dir[base];
        proof {
            assert(slot(dir@, i as int)[0] == dir@[32 * i]);
            assert(slot(dir@, i as int)[11] == dir@[32 * i + 11]);
            assert(slot(dir@, i as int)[26] == dir@[32 * i + 26]);
            assert(slot(dir@, i as int)[27] == dir@[32 * i + 27]);
        }
        if first == END_MARK {
            proof {
                assert(!exists|k: int| first_hit_at(dir@, hit, k)) by {
                    assert forall|k: int| !first_hit_at(dir@, hit, k) by {
                        if first_hit_at(dir@, hit, k) {
                            if k > i {
                                assert(dir@[32 * i] != END_MARK);
                            } else if k < i {
                                assert(!hit(slot(dir@, k)));
                            } else {
                                assert(slot(dir@, k)[0] == END_MARK);
                            }
                        }
                    }
                }
            }
            return None;
        }
        if first != DELETED_MARK {
            let attr = dir[base + 11];
            let entry_is_dir = attr & ATTR_DIRECTORY != 0;
            if entry_is_dir == is_dir && slot_names_match(dir, i, name, ext) {
                let c = u16_from_le(dir[base + 26], dir[base + 27]);
                proof {
                    lemma_first_hit_unique(dir@, hit, i as int);
                }
                return Some(c);
            }
        }
        i = i + 1;
    }
    proof {
        assert(!exists|k: int| first_hit_at(dir@, hit, k));
    }
    None
}

/// The first cluster recorded in entry `i`.
pub fn slot_cluster(dir: &Sector, i: usize) -> (c: u16)
    requires
        i < DIR_ENTRIES,
    ensures
        c == entry_cluster(slot(dir@, i as int)),
{
    u16_from_le(dir[i * ENTRY_SIZE + 26], dir[i * ENTRY_SIZE + 27])
}

/// The size recorded in entry `i`.
pub fn slot_size(dir: &Sector, i: usize) -> (s: u32)
    requires
        i < DIR_ENTRIES,
    ensures
        s == entry_size(slot(dir@, i as int)),
{
    let base = i * ENTRY_SIZE;
    let b0 = dir[base + 28];
    let b1 = dir[base + 29];
    let b2 = dir[base + 30];
    let b3 = dir[base + 31];
    let s = (b0 as u32) | ((b1 as u32) << 8u32) | ((b2 as u32) << 16u32) | ((b3 as u32) << 24u32);
    assert(s == b0 + 256 * b1 + 65536 * b2 + 16777216 * b3) by (bit_vector)
        requires
            s == (b0 as u32) | ((b1 as u32) << 8u32) | ((b2 as u32) << 16u32) | ((b3 as u32) << 24u32),
    ;
    s
}

/// Stores `e` in the first slot that ends the directory; `false` when every slot is taken.
pub fn insert_entry(dir: &mut Sector, e: &[u8; 32]) -> (ok: bool)
    ensures
        spec_insert(old(dir)@, e@, if ok { Some(final(dir)@) } else { None }),
        inserted(old(dir)@, e@) == if ok { Some(final(dir)@) } else { None },
        !ok ==> final(dir)@ == old(dir)@,
{
    let mut i: usize = 0;
    while i < DIR_ENTRIES
        invariant
            i <= DIR_ENTRIES,
            open_through(dir@, i as int),
            dir@ == old(dir)@,
        decreases DIR_ENTRIES - i,
    {
        if dir[i * ENTRY_SIZE] == END_MARK {
            let ghost before = dir@;
            let base = i * ENTRY_SIZE;
            let mut k: usize = 0;
            while k < ENTRY_SIZE
                invariant
                    k <= ENTRY_SIZE,
                    base == 32 * i,
                    i < DIR_ENTRIES,
                    before.len() == 512,
                    forall|m: int| 0 <= m < base ==> dir@[m] == before[m],
                    forall|m: int| base + k <= m < 512 ==> dir@[m] == before[m],
                    forall|m: int| base <= m < base + k ==> dir@[m] == e@[m - base],
                decreases ENTRY_SIZE - k,
            {
                dir[base + k] = e[k];
                k = k + 1;
            }
            proof {
                assert(dir@ =~= put_slot(before, i as int, e@));
                assert(free_slot(before, Some(i as int)) && dir@ == put_slot(before, i as int, e@));
                lemma_first_free_slot(before, Some(i as int));
            }
            return true;
        }
        i = i + 1;
    }
    proof {
        lemma_first_free_slot(dir@, None);
    }
    false
}

/// `bytes` cut to at most `n` bytes and padded with spaces to `n`, copied into `field` at
/// `offset`.
fn put_field(field: &mut [u8; 32], offset: usize, bytes: &[u8], n: usize)
    requires
        offset + n <= 32,
    ensures
        forall|k: int|
            0 <= k < 32 ==> #[trigger] final(field)@[k] == if offset <= k < offset + n {
                if k - offset < bytes@.len() {
                    bytes@[k - offset]
                } else {
                    old(field)@[k]
                }
            } else {
                old(field)@[k]
            },
{
    let len = if bytes.len() < n {
        bytes.len()
    } else {
        n
    };
    let mut k: usize = 0;
    while k < len
        invariant
            len <= n,
            offset + n <= 32,
            len == (if bytes@.len() < n { bytes@.len() as int } else { n as int }),
            k <= len,
            forall|m: int|
                0 <= m < 32 ==> #[trigger] field@[m] == if offset <= m < offset + k {
                    bytes@[m - offset]
                } else {
                    old(field)@[m]
                },
        decreases len - k,
    {
        field[offset + k] = bytes[k];
        k = k + 1;
    }
}

/// Builds an entry as [`entry_bytes`] describes it.
fn make_entry(name: &[u8], ext: &[u8], attr: u8, cluster: u16, tail: [u8; 4]) -> (e: [u8; 32])
    ensures
        e@ == entry_bytes(name@, ext@, attr, cluster, tail@),
{
    let mut e = [PAD; 32];
    put_field(&mut e, 0, name, 8);
    put_field(&mut e, 8, ext, 3);
    e[11] = attr;
    e[26] = cluster as u8;
    e[27] = (cluster >> 8u16) as u8;
    e[28] = tail[0];
    e[29] = tail[1];
    e[30] = tail[2];
    e[31] = tail[3];
    assert(e@ =~= entry_bytes(name@, ext@, attr, cluster, tail@));
    e
}

/// Adds the entry that `create_file` makes for a root-directory file of `len` bytes.
pub fn write_root_file_entry(dir: &mut Sector, name: &str, ext: &str, cluster: u16, len: usize) -> (ok: bool)
    ensures
        spec_insert(
            old(dir)@,
            root_file_entry(name.spec_bytes(), ext.spec_bytes(), cluster, len),
            if ok { Some(final(dir)@) } else { None },
        ),
        inserted(old(dir)@, root_file_entry(name.spec_bytes(), ext.spec_bytes(), cluster, len)) == if ok { Some(final(dir)@) } else { None },
        !ok ==> final(dir)@ == old(dir)@,
{
    let tail = [len as u8, (len >> 8usize) as u8, 0u8, 0u8];
    let e = make_entry(name.as_bytes(), ext.as_bytes(), PAD, cluster, tail);
    proof {
        assert(tail@ =~= seq![len as u8, (len >> 8usize) as u8, 0u8, 0u8]);
    }
    insert_entry(dir, &e)
}

/// Adds a directory entry (or, with `is_dir` false, an entry with no attribute bits) named
/// `name` whose first cluster is `cluster`.
pub fn write_dir_entry(dir: &mut Sector, name: &str, cluster: u16, is_dir: bool) -> (ok: bool)
    ensures
        spec_insert(
            old(dir)@,
            dir_entry(name.spec_bytes(), cluster, is_dir),
            if ok { Some(final(dir)@) } else { None },
        ),
        inserted(old(dir)@, dir_entry(name.spec_bytes(), cluster, is_dir)) == if ok { Some(final(dir)@) } else { None },
        !ok ==> final(dir)@ == old(dir)@,
{
    let attr = if is_dir {
        ATTR_DIRECTORY
    } else {
        0u8
    };
    let tail = [PAD; 4];
    let no_ext: [u8; 0] = [];
    let e = make_entry(name.as_bytes(), no_ext.as_slice(), attr, cluster, tail);
    proof {
        assert(tail@ =~= seq![PAD, PAD, PAD, PAD]);
        assert(no_ext@ =~= Seq::<u8>::empty());
    }
    insert_entry(dir, &e)
}

/// Adds a file entry named `name`.`ext` whose first cluster is `cluster` and whose size
/// field holds the low 16 bits of `size`.
pub fn write_file_entry(dir: &mut Sector, name: &str, ext: &str, cluster: u16, size: usize) -> (ok: bool)
    ensures
        spec_insert(
            old(dir)@,
            file_entry(name.spec_bytes(), ext.spec_bytes(), cluster, size),
            if ok { Some(final(dir)@) } else { None },
        ),
        inserted(old(dir)@, file_entry(name.spec_bytes(), ext.spec_bytes(), cluster, size)) == if ok { Some(final(dir)@) } else { None },
        !ok ==> final(dir)@ == old(dir)@,
{
    let tail = [size as u8, (size >> 8usize) as u8, PAD, PAD];
    let e = make_entry(name.as_bytes(), ext.as_bytes(), 0u8, cluster, tail);
    proof {
        assert(tail@ =~= seq![size as u8, (size >> 8usize) as u8, PAD, PAD]);
    }
    insert_entry(dir, &e)
}

/// Marks entry `i` deleted.
pub fn mark_deleted(dir: &mut Sector, i: usize)
    requires
        i < DIR_ENTRIES,
    ensures
        final(dir)@ == old(dir)@.update(32 * i, DELETED_MARK),
{
    dir[i * ENTRY_SIZE] = DELETED_MARK;
}

/// Bytes in the listing that `list_files` returns.
pub const LISTING_SIZE: usize = 64;

/// How an entry shows in a listing: its name and extension, each trimmed of white space at
/// both ends, joined by a dot and followed by a comma.
pub open spec fn listed_item(e: Seq<u8>) -> Seq<u8> {
    encode_utf8(trim_chars(utf8_text_or_empty(e.subrange(0, 8)))) + seq![0x2Eu8]
        + encode_utf8(trim_chars(utf8_text_or_empty(e.subrange(8, 11)))) + seq![0x2Cu8]
}

/// The listing of the live entries from entry `i` to the end of the directory.
pub open spec fn listing_from(dir: Seq<u8>, i: int) -> Seq<u8>
    decreases DIR_ENTRIES - i,
{
    if i < 0 || i >= DIR_ENTRIES || dir[32 * i] == END_MARK {
        Seq::empty()
    } else if dir[32 * i] == DELETED_MARK {
        listing_from(dir, i + 1)
    } else {
        listed_item(slot(dir, i)) + listing_from(dir, i + 1)
    }
}

/// `s` cut to the size of a listing and padded with zero bytes.
pub open spec fn fit_listing(s: Seq<u8>) -> Seq<u8> {
    Seq::new(LISTING_SIZE as nat, |k: int| if k < s.len() { s[k] } else { 0u8 })
}

/// What `list_files` returns for a directory.
pub open spec fn spec_list_files(dir: Seq<u8>) -> Seq<u8> {
    fit_listing(listing_from(dir, 0))
}

fn push_listed(buf: &mut [u8; 64], len: &mut usize, b: u8, Ghost(acc): Ghost<Seq<u8>>)
    requires
        old(buf)@ == fit_listing(acc),
        *old(len) == if acc.len() < LISTING_SIZE { acc.len() as int } else { LISTING_SIZE as int },
    ensures
        final(buf)@ == fit_listing(acc.push(b)),
        *final(len) == if acc.len() + 1 < LISTING_SIZE { acc.len() + 1 as int } else { LISTING_SIZE as int },
{
    if *len < LISTING_SIZE {
        buf[*len] = b;
        *len = *len + 1;
    }
    assert(buf@ =~= fit_listing(acc.push(b)));
}

fn push_listed_bytes(buf: &mut [u8; 64], len: &mut usize, bytes: &[u8], Ghost(acc): Ghost<Seq<u8>>)
    requires
        old(buf)@ == fit_listing(acc),
        *old(len) == if acc.len() < LISTING_SIZE { acc.len() as int } else { LISTING_SIZE as int },
    ensures
        final(buf)@ == fit_listing(acc + bytes@),
        *final(len) == if acc.len() + bytes@.len() < LISTING_SIZE {
            (acc.len() + bytes@.len()) as int
        } else {
            LISTING_SIZE as int
        },
{
    let mut k: usize = 0;
    while k < bytes.len()
        invariant
            k <= bytes@.len(),
            buf@ == fit_listing(acc + bytes@.subrange(0, k as int)),
            *len == if acc.len() + k < LISTING_SIZE { acc.len() + k as int } else { LISTING_SIZE as int },
        decreases bytes@.len() - k,
    {
        push_listed(buf, len, bytes[k], Ghost(acc + bytes@.subrange(0, k as int)));
        proof {
            assert((acc + bytes@.subrange(0, k as int)).push(bytes@[k as int]) =~= acc + bytes@.subrange(0, k + 1));
        }
        k = k + 1;
    }
    proof {
        assert(bytes@.subrange(0, bytes@.len() as int) =~= bytes@);
    }
}

/// The names of the live entries of a directory, in order, as `NAME.EXT,` each, cut to 64
/// bytes and padded with zero bytes.
pub fn list_files(dir: &Sector) -> (listing: [u8; 64])
    ensures
        listing@ == spec_list_files(dir@),
{
    let mut buf = [0u8; 64];
    let mut len: usize = 0;
    let ghost mut acc: Seq<u8> = Seq::empty();
    let s = dir.as_slice();
    proof {
        assert(buf@ =~= fit_listing(acc));
    }
    let mut i: usize = 0;
    while i < DIR_ENTRIES
        invariant_except_break
            i <= DIR_ENTRIES,
            acc + listing_from(dir@, i as int) == listing_from(dir@, 0),
        invariant
            s@ == dir@,
            buf@ == fit_listing(acc),
            len == if acc.len() < LISTING_SIZE { acc.len() as int } else { LISTING_SIZE as int },
        ensures
            acc == listing_from(dir@, 0),
        decreases DIR_ENTRIES - i,
    {
        let base = i * ENTRY_SIZE;
        let first = dir[base];
        if first == END_MARK {
            proof {
                assert(acc + Seq::<u8>::empty() =~= acc);
            }
            break;
        }
        if first == DELETED_MARK {
            i = i + 1;
            continue;
        }
        let name = str_trim(text_or_empty(slice_subrange(s, base, base + 8)));
        let ext = str_trim(text_or_empty(slice_subrange(s, base + 8, base + 11)));
        proof {
            assert(slot(dir@, i as int).subrange(0, 8) =~= dir@.subrange(base as int, base + 8));
            assert(slot(dir@, i as int).subrange(8, 11) =~= dir@.subrange(base + 8, base + 11));
        }
        let ghost a0 = acc;
        push_listed_bytes(&mut buf, &mut len, name.as_bytes(), Ghost(acc));
        proof {
            acc = acc + name.spec_bytes();
        }
        push_listed(&mut buf, &mut len, 0x2E, Ghost(acc));
        proof {
            acc = acc.push(0x2Eu8);
        }
        push_listed_bytes(&mut buf, &mut len, ext.as_bytes(), Ghost(acc));
        proof {
            acc = acc + ext.spec_bytes();
        }
        push_listed(&mut buf, &mut len, 0x2C, Ghost(acc));
        proof {
            acc = acc.push(0x2Cu8);
            assert(acc =~= a0 + listed_item(slot(dir@, i as int)));
            assert(acc + listing_from(dir@, i + 1) =~= a0 + listing_from(dir@, i as int));
        }
        i = i + 1;
    }
    buf
}

/// Whether `item` stands in `s` as a run of consecutive bytes.
pub open spec fn occurs_in(item: Seq<u8>, s: Seq<u8>) -> bool {
    exists|p: int| 0 <= p && p + item.len() <= s.len() && #[trigger] s.subrange(p, p + item.len()) == item
}

proof fn lemma_live_entry_listed_from(dir: Seq<u8>, i: int, j: int)
    requires
        dir.len() == 512,
        0 <= i <= j < DIR_ENTRIES,
        open_through(dir, j),
        is_live(slot(dir, j)),
    ensures
        occurs_in(listed_item(slot(dir, j)), listing_from(dir, i)),
    decreases j - i,
{
    let item = listed_item(slot(dir, j));
    assert(slot(dir, j)[0] == dir[32 * j]);
    if i == j {
        let l = listing_from(dir, i);
        assert(l == item + listing_from(dir, i + 1));
        assert(l.subrange(0int, 0int + item.len()) =~= item);
        assert(occurs_in(item, l));
    } else {
        lemma_live_entry_listed_from(dir, i + 1, j);
        let rest = listing_from(dir, i + 1);
        let p = choose|p: int| 0 <= p && p + item.len() <= rest.len() && #[trigger] rest.subrange(p, p + item.len()) == item;
        assert(dir[32 * i] != END_MARK);
        if dir[32 * i] == DELETED_MARK {
            assert(listing_from(dir, i) == rest);
            assert(occurs_in(item, listing_from(dir, i)));
        } else {
            let head = listed_item(slot(dir, i));
            let l = listing_from(dir, i);
            assert(l == head + rest);
            let q = p + head.len();
            assert(l.subrange(q, q + item.len()) =~= rest.subrange(p, p + item.len()));
            assert(occurs_in(item, l));
        }
    }
}

/// A deleted entry does not end a listing: every live entry before the first entry that
/// marks the end of the directory shows in the listing as `NAME.EXT,`, and in what
/// `list_files` returns wherever it falls within the 64 bytes.
pub proof fn lemma_live_entries_listed(dir: Seq<u8>, j: int)
    requires
        dir.len() == 512,
        0 <= j < DIR_ENTRIES,
        open_through(dir, j),
        is_live(slot(dir, j)),
    ensures
        ({
            let item = listed_item(slot(dir, j));
            let l = listing_from(dir, 0);
            exists|p: int|
                0 <= p && p + item.len() <= l.len() && #[trigger] l.subrange(p, p + item.len()) == item && (p
                    + item.len() <= LISTING_SIZE ==> spec_list_files(dir).subrange(p, p + item.len()) == item)
        }),
{
    lemma_live_entry_listed_from(dir, 0, j);
    let item = listed_item(slot(dir, j));
    let l = listing_from(dir, 0);
    let p = choose|p: int| 0 <= p && p + item.len() <= l.len() && #[trigger] l.subrange(p, p + item.len()) == item;
    if p + item.len() <= LISTING_SIZE {
        assert(spec_list_files(dir).subrange(p, p + item.len()) =~= l.subrange(p, p + item.len()));
    }
}

/// Whether `name` can be stored in a name field of `width` bytes and found again: at most
/// `width` ASCII characters, the last of them not white space (white space at the end is
/// what the padding turns into, and what the scan trims).
pub open spec fn storable_name(name: Seq<char>, width: int) -> bool {
    &&& name.len() <= width
    &&& is_ascii_chars(name)
    &&& name.len() > 0 ==> !crate::text::is_unicode_whitespace(name.last())
}

/// Whether an entry that starts with `name` is live: a name that starts with NUL would mark
/// the end of the directory instead.
pub open spec fn live_name(name: Seq<char>) -> bool {
    name.len() == 0 || name[0] != '\0'
}

/// Names that are equal once ASCII letters are compared without regard to case are found
/// alike: the scans for a file, or an entry of a kind, are the same test.
pub proof fn lemma_case_variants_scan_alike(name: Seq<char>, ext: Seq<char>, name2: Seq<char>, ext2: Seq<char>)
    requires
        eq_ignore_ascii_case_chars(name, name2),
        eq_ignore_ascii_case_chars(ext, ext2),
    ensures
        file_hit(name, ext) == file_hit(name2, ext2),
        kind_hit(name, ext, true) == kind_hit(name2, ext2, true),
        kind_hit(name, ext, false) == kind_hit(name2, ext2, false),
{
    assert forall|e: Seq<u8>| #[trigger] names_match(e, name, ext) == names_match(e, name2, ext2) by {
        let a = entry_name(e);
        let b = entry_ext(e);
        if eq_ignore_ascii_case_chars(a, name) {
            assert forall|i: int| 0 <= i < a.len() implies #[trigger] ascii_lower(a[i]) == ascii_lower(name2[i]) by {
                assert(ascii_lower(a[i]) == ascii_lower(name[i]));
                assert(ascii_lower(name[i]) == ascii_lower(name2[i]));
            }
        }
        if eq_ignore_ascii_case_chars(a, name2) {
            assert forall|i: int| 0 <= i < a.len() implies #[trigger] ascii_lower(a[i]) == ascii_lower(name[i]) by {
                assert(ascii_lower(a[i]) == ascii_lower(name2[i]));
                assert(ascii_lower(name[i]) == ascii_lower(name2[i]));
            }
        }
        if eq_ignore_ascii_case_chars(b, ext) {
            assert forall|i: int| 0 <= i < b.len() implies #[trigger] ascii_lower(b[i]) == ascii_lower(ext2[i]) by {
                assert(ascii_lower(b[i]) == ascii_lower(ext[i]));
                assert(ascii_lower(ext[i]) == ascii_lower(ext2[i]));
            }
        }
        if eq_ignore_ascii_case_chars(b, ext2) {
            assert forall|i: int| 0 <= i < b.len() implies #[trigger] ascii_lower(b[i]) == ascii_lower(ext[i]) by {
                assert(ascii_lower(b[i]) == ascii_lower(ext2[i]));
                assert(ascii_lower(ext[i]) == ascii_lower(ext2[i]));
            }
        }
    }
    assert(file_hit(name, ext) =~= file_hit(name2, ext2));
    assert(kind_hit(name, ext, true) =~= kind_hit(name2, ext2, true));
    assert(kind_hit(name, ext, false) =~= kind_hit(name2, ext2, false));
}

/// A name field of `width` bytes holding `bytes`, padded with spaces.
pub open spec fn name_field(bytes: Seq<u8>, width: int) -> Seq<u8> {
    Seq::new(width as nat, |k: int| if k < bytes.len() { bytes[k] } else { PAD })
}

proof fn lemma_trim_end_padding(name: Seq<char>, n: nat)
    requires
        name.len() == 0 || !crate::text::is_unicode_whitespace(name.last()),
    ensures
        trim_end_chars(name + Seq::new(n, |k: int| ' ')) == name,
    decreases n,
{
    let pad = Seq::new(n, |k: int| ' ');
    if n == 0 {
        assert(name + pad =~= name);
    } else {
        let shorter = Seq::new((n - 1) as nat, |k: int| ' ');
        assert((name + pad).drop_last() =~= name + shorter);
        lemma_trim_end_padding(name, (n - 1) as nat);
    }
}

/// A storable name written into a name field reads back as that name.
proof fn lemma_name_field_reads_back(name: Seq<char>, width: int)
    requires
        storable_name(name, width),
        width >= 0,
    ensures
        trim_end_chars(utf8_text_or_empty(name_field(encode_utf8(name), width))) == name,
{
    assert(is_ascii_chars(name));
    is_ascii_chars_encode_utf8(name);
    let chars = name + Seq::new((width - name.len()) as nat, |k: int| ' ');
    assert(is_ascii_chars(chars));
    is_ascii_chars_encode_utf8(chars);
    assert(name_field(encode_utf8(name), width) =~= encode_utf8(chars));
    encode_utf8_valid_utf8(chars);
    encode_utf8_decode_utf8(chars);
    lemma_trim_end_padding(name, (width - name.len()) as nat);
}

/// The 16-bit number stored little-endian as `c as u8` and `(c >> 8) as u8` is `c`.
proof fn lemma_le16_roundtrip(c: u16)
    ensures
        (c as u8) + 256 * ((c >> 8u16) as u8) == c,
{
    assert((c as u8) + 256 * ((c >> 8u16) as u8) == c) by (bit_vector);
}

/// An entry built from storable names carries those names.
proof fn lemma_entry_names(name: Seq<char>, ext: Seq<char>, attr: u8, cluster: u16, tail: Seq<u8>)
    requires
        storable_name(name, 8),
        live_name(name),
        storable_name(ext, 3),
    ensures
        names_match(entry_bytes(encode_utf8(name), encode_utf8(ext), attr, cluster, tail), name, ext),
        entry_cluster(entry_bytes(encode_utf8(name), encode_utf8(ext), attr, cluster, tail)) == cluster,
{
    let e = entry_bytes(encode_utf8(name), encode_utf8(ext), attr, cluster, tail);
    assert(is_ascii_chars(name));
    assert(is_ascii_chars(ext));
    is_ascii_chars_encode_utf8(name);
    is_ascii_chars_encode_utf8(ext);
    assert(e.subrange(0, 8) =~= name_field(encode_utf8(name), 8));
    assert(e.subrange(8, 11) =~= name_field(encode_utf8(ext), 3));
    lemma_name_field_reads_back(name, 8);
    lemma_name_field_reads_back(ext, 3);
    lemma_le16_roundtrip(cluster);
}

/// When no entry before `i` stops the scan and none is a first hit, none of them is a hit.
proof fn lemma_no_first_hit_no_hit(dir: Seq<u8>, hit: spec_fn(Seq<u8>) -> bool, i: int)
    requires
        0 <= i <= DIR_ENTRIES,
        open_through(dir, i),
        forall|k: int| !first_hit_at(dir, hit, k),
    ensures
        forall|j: int| 0 <= j < i ==> !hit(#[trigger] slot(dir, j)),
    decreases i,
{
    if i > 0 {
        lemma_no_first_hit_no_hit(dir, hit, i - 1);
        assert(!first_hit_at(dir, hit, i - 1));
    }
}

/// A hit inserted into a directory where the scan found nothing is what the scan finds next.
pub proof fn lemma_scan_finds_inserted(dir: Seq<u8>, e: Seq<u8>, d: Seq<u8>, hit: spec_fn(Seq<u8>) -> bool)
    requires
        dir.len() == 512,
        e.len() == 32,
        hit(e),
        first_hit(dir, hit) is None,
        spec_insert(dir, e, Some(d)),
    ensures
        first_hit(d, hit) matches Some(i) && free_slot(dir, Some(i)) && d == put_slot(dir, i, e),
{
    let i = choose|i: int| free_slot(dir, Some(i)) && d == put_slot(dir, i, e);
    assert(!exists|k: int| first_hit_at(dir, hit, k));
    lemma_no_first_hit_no_hit(dir, hit, i);
    assert forall|j: int| 0 <= j < i implies #[trigger] slot(d, j) == slot(dir, j) by {
        assert(slot(d, j) =~= slot(dir, j));
    }
    assert(slot(d, i) =~= e);
    assert forall|j: int| 0 <= j < i implies #[trigger] d[32 * j] != END_MARK by {
        assert(d[32 * j] == dir[32 * j]);
    }
    assert(first_hit_at(d, hit, i));
    lemma_first_hit_unique(d, hit, i);
}

/// Read after write, for files in a directory: once `write_file_entry` has added a file of
/// a storable name where none of that name was found, `find_entry` finds that file's first
/// cluster.
pub proof fn lemma_file_entry_found(
    dir: Seq<u8>,
    d: Seq<u8>,
    name: Seq<char>,
    ext: Seq<char>,
    cluster: u16,
    size: usize,
)
    requires
        dir.len() == 512,
        storable_name(name, 8),
        live_name(name),
        storable_name(ext, 3),
        spec_find_entry(dir, name, ext, false) is None,
        spec_insert(dir, file_entry(encode_utf8(name), encode_utf8(ext), cluster, size), Some(d)),
    ensures
        spec_find_entry(d, name, ext, false) == Some(cluster),
{
    let e = file_entry(encode_utf8(name), encode_utf8(ext), cluster, size);
    lemma_entry_names(name, ext, 0u8, cluster, seq![size as u8, (size >> 8usize) as u8, PAD, PAD]);
    assert(is_ascii_chars(name));
    is_ascii_chars_encode_utf8(name);
    if name.len() > 0 {
        assert(e[0] == name[0] as u8);
    }
    let attr = e[11];
    assert(attr & ATTR_DIRECTORY == 0) by (bit_vector)
        requires attr == 0u8;
    assert(kind_hit(name, ext, false)(e));
    lemma_scan_finds_inserted(dir, e, d, kind_hit(name, ext, false));
    let i = first_hit(d, kind_hit(name, ext, false))->0;
    assert(slot(d, i) =~= e);
}

/// Read after write, for directories: once `write_dir_entry` has added a directory of a
/// storable name where none of that name was found, `find_entry` finds its first cluster
/// under that name with an empty extension.
pub proof fn lemma_dir_entry_found(dir: Seq<u8>, d: Seq<u8>, name: Seq<char>, cluster: u16)
    requires
        dir.len() == 512,
        storable_name(name, 8),
        live_name(name),
        spec_find_entry(dir, name, Seq::empty(), true) is None,
        spec_insert(dir, dir_entry(encode_utf8(name), cluster, true), Some(d)),
    ensures
        spec_find_entry(d, name, Seq::empty(), true) == Some(cluster),
{
    let e = dir_entry(encode_utf8(name), cluster, true);
    let empty = Seq::<char>::empty();
    assert(encode_utf8(empty) =~= Seq::<u8>::empty());
    lemma_entry_names(name, empty, ATTR_DIRECTORY, cluster, seq![PAD, PAD, PAD, PAD]);
    assert(e =~= entry_bytes(encode_utf8(name), encode_utf8(empty), ATTR_DIRECTORY, cluster, seq![PAD, PAD, PAD, PAD]));
    assert(is_ascii_chars(name));
    is_ascii_chars_encode_utf8(name);
    if name.len() > 0 {
        assert(e[0] == name[0] as u8);
    }
    let attr = e[11];
    assert(attr & ATTR_DIRECTORY != 0) by (bit_vector)
        requires attr == ATTR_DIRECTORY;
    assert(kind_hit(name, empty, true)(e));
    lemma_scan_finds_inserted(dir, e, d, kind_hit(name, empty, true));
    let i = first_hit(d, kind_hit(name, empty, true))->0;
    assert(slot(d, i) =~= e);
}

/// Read after write, for root files: once `write_root_file_entry` has added a file of a
/// storable name where none of that name was found, `find_file` finds its entry, which
/// records the file's first cluster and, for a file of at most one sector, its length.
pub proof fn lemma_root_file_found(
    dir: Seq<u8>,
    d: Seq<u8>,
    name: Seq<char>,
    ext: Seq<char>,
    cluster: u16,
    len: usize,
)
    requires
        dir.len() == 512,
        storable_name(name, 8),
        live_name(name),
        storable_name(ext, 3),
        len <= 512,
        spec_find_file(dir, name, ext) is None,
        spec_insert(dir, root_file_entry(encode_utf8(name), encode_utf8(ext), cluster, len), Some(d)),
    ensures
        spec_find_file(d, name, ext) matches Some(i) && entry_cluster(slot(d, i)) == cluster
            && entry_size(slot(d, i)) == len,
        spec_find_entry(d, name, ext, false) == Some(cluster),
{
    let e = root_file_entry(encode_utf8(name), encode_utf8(ext), cluster, len);
    lemma_no_file_no_entry(dir, name, ext);
    lemma_entry_names(name, ext, PAD, cluster, seq![len as u8, (len >> 8usize) as u8, 0u8, 0u8]);
    assert(is_ascii_chars(name));
    is_ascii_chars_encode_utf8(name);
    if name.len() > 0 {
        assert(e[0] == name[0] as u8);
    }
    assert(file_hit(name, ext)(e));
    lemma_scan_finds_inserted(dir, e, d, file_hit(name, ext));
    let i = first_hit(d, file_hit(name, ext))->0;
    assert(slot(d, i) =~= e);
    assert((len as u8) + 256 * ((len >> 8usize) as u8) == len) by (bit_vector)
        requires len <= 512usize;
    let attr = e[11];
    assert(attr & ATTR_DIRECTORY == 0) by (bit_vector)
        requires attr == PAD;
    assert(kind_hit(name, ext, false)(e));
    lemma_scan_finds_inserted(dir, e, d, kind_hit(name, ext, false));
    let j = first_hit(d, kind_hit(name, ext, false))->0;
    assert(slot(d, j) =~= e);
}

/// Where the scan for a file of a name finds nothing, the scan for a plain file of that name
/// finds nothing either.
proof fn lemma_no_file_no_entry(dir: Seq<u8>, name: Seq<char>, ext: Seq<char>)
    requires
        dir.len() == 512,
        spec_find_file(dir, name, ext) is None,
    ensures
        first_hit(dir, kind_hit(name, ext, false)) is None,
{
    let hit = file_hit(name, ext);
    if exists|j: int| first_hit_at(dir, kind_hit(name, ext, false), j) {
        let j = choose|j: int| first_hit_at(dir, kind_hit(name, ext, false), j);
        assert(first_hit_at(dir, kind_hit(name, ext, false), j));
        assert(slot(dir, j)[0] == dir[32 * j]);
        assert(open_through(dir, j + 1));
        assert(forall|k: int| !first_hit_at(dir, hit, k));
        lemma_no_first_hit_no_hit(dir, hit, j + 1);
        assert(hit(slot(dir, j)));
        assert(false);
    }
}

/// A deleted entry is found no more: after `mark_deleted` on the entry that `find_file`
/// found, the scan finds another entry or none.
pub proof fn lemma_deleted_not_found(dir: Seq<u8>, name: Seq<char>, ext: Seq<char>, i: int)
    requires
        dir.len() == 512,
        spec_find_file(dir, name, ext) == Some(i),
    ensures
        spec_find_file(dir.update(32 * i, DELETED_MARK), name, ext) != Some(i),
{
    let d = dir.update(32 * i, DELETED_MARK);
    if spec_find_file(d, name, ext) == Some(i) {
        let k = choose|k: int| first_hit_at(d, file_hit(name, ext), k);
        assert(first_hit_at(d, file_hit(name, ext), k));
        assert(slot(d, i)[0] == DELETED_MARK);
    }
}

} // verus!
