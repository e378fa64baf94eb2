//! The file store's operations driven against a disk.
//!
//! A disk is modelled as the contents of each sector. Driving an operation hands each step
//! the sector that the step before asked to read, and applies each write to the disk; what
//! comes out of a whole drive can then be stated, such as what a read gives back of a write.

use vstd::prelude::*;
use vstd::string::StringSliceAdditionalSpecFns;
use crate::fat::layout::{spec_cluster_sector, spec_layout, Layout};
use crate::text::eq_ignore_ascii_case_chars;
use crate::fat::table::{first_free, is_free, lowest_free, spec_mark_used};
use crate::fat::dir::{
    dir_entry, file_entry, file_hit, first_free_slot, first_hit, first_hit_at, free_slot, inserted, is_named,
    kind_hit, lemma_dir_entry_found, lemma_file_entry_found, lemma_first_hit_unique, lemma_root_file_found, open_through,
    put_slot, root_file_entry, slot, spec_find_entry, spec_find_file, spec_insert, storable_name, live_name, lemma_case_variants_scan_alike,
    DELETED_MARK, DIR_ENTRIES, END_MARK,
};
use crate::fat::ops::{
    CreateDir, CreateDirStage, CreateDirAt, CreateDirAtStage, CreateFile, CreateFileAt, CreateFileAtStage, CreateFileIn,
    CreateFileInStage, CreateFileStage, DeleteFile, DeleteFileStage, FileRead, ReadFile, ReadFileAt,
    ReadFileAtStage, ReadFileIn, ReadFileInStage, ReadFileStage, Resolve, ResolveStage, Step,
    reads_file, zero_sector,
};

verus! {

/// A disk: the contents of each sector.
pub type Disk = spec_fn(u32) -> Seq<u8>;

/// The disk after a step: a write replaces the sector it names, any other step leaves the
/// disk as it is.
pub open spec fn disk_after<R>(disk: Disk, step: Step<R>) -> Disk {
    match step {
        Step::Write(s, d) => |k: u32| if k == s { d@ } else { disk(k) },
        _ => disk,
    }
}

/// Whether `states`, `inputs`, `steps` and `disks` record a drive of an operation whose
/// single step is `next`: step `k` takes the operation from `states[k]` to `states[k + 1]`
/// on input `inputs[k]` and answers `steps[k]`; the disk goes from `disks[k]` to
/// `disks[k + 1]` by that answer; and after a step that asked to read a sector, the next step
/// is handed that sector of the disk.
pub open spec fn drives<S, R>(
    next: spec_fn(S, Seq<u8>, S, Step<R>) -> bool,
    states: Seq<S>,
    inputs: Seq<Seq<u8>>,
    steps: Seq<Step<R>>,
    disks: Seq<Disk>,
) -> bool {
    &&& states.len() == steps.len() + 1
    &&& inputs.len() == steps.len()
    &&& disks.len() == steps.len() + 1
    &&& forall|k: int|
        #![trigger steps[k]]
        0 <= k < steps.len() ==> {
            &&& next(states[k], inputs[k], states[k + 1], steps[k])
            &&& disks[k + 1] == disk_after(disks[k], steps[k])
            &&& k + 1 < steps.len() ==> (steps[k] matches Step::Read(s) ==> inputs[k + 1] == disks[k + 1](s))
        }
}

/// The single step of `create_file`.
pub open spec fn create_file_next<'a>() -> spec_fn(CreateFile<'a>, Seq<u8>, CreateFile<'a>, Step<bool>) -> bool {
    |a: CreateFile<'a>, input: Seq<u8>, b: CreateFile<'a>, r: Step<bool>| a.next_step(input, b, r)
}

/// The single step of `delete_file`.
pub open spec fn delete_file_next<'a>() -> spec_fn(DeleteFile<'a>, Seq<u8>, DeleteFile<'a>, Step<bool>) -> bool {
    |a: DeleteFile<'a>, input: Seq<u8>, b: DeleteFile<'a>, r: Step<bool>| a.next_step(input, b, r)
}

/// The single step of `create_dir`.
pub open spec fn create_dir_next<'a>() -> spec_fn(CreateDir<'a>, Seq<u8>, CreateDir<'a>, Step<bool>) -> bool {
    |a: CreateDir<'a>, input: Seq<u8>, b: CreateDir<'a>, r: Step<bool>| a.next_step(input, b, r)
}

/// The single step of `create_dir_at`.
pub open spec fn create_dir_at_next<'a>() -> spec_fn(CreateDirAt<'a>, Seq<u8>, CreateDirAt<'a>, Step<bool>) -> bool {
    |a: CreateDirAt<'a>, input: Seq<u8>, b: CreateDirAt<'a>, r: Step<bool>| a.next_step(input, b, r)
}

/// The single step of `read_file`.
pub open spec fn read_file_next<'a>() -> spec_fn(ReadFile<'a>, Seq<u8>, ReadFile<'a>, Step<FileRead>) -> bool {
    |a: ReadFile<'a>, input: Seq<u8>, b: ReadFile<'a>, r: Step<FileRead>| a.next_step(input, b, r)
}

/// The single step of `create_file_at`.
pub open spec fn create_file_at_next<'a>() -> spec_fn(CreateFileAt<'a>, Seq<u8>, CreateFileAt<'a>, Step<bool>) -> bool {
    |a: CreateFileAt<'a>, input: Seq<u8>, b: CreateFileAt<'a>, r: Step<bool>| a.next_step(input, b, r)
}

/// The single step of `read_file_at`.
pub open spec fn read_file_at_next<'a>() -> spec_fn(ReadFileAt<'a>, Seq<u8>, ReadFileAt<'a>, Step<FileRead>) -> bool {
    |a: ReadFileAt<'a>, input: Seq<u8>, b: ReadFileAt<'a>, r: Step<FileRead>| a.next_step(input, b, r)
}

/// The single step of `create_file_in`.
pub open spec fn create_file_in_next<'a>() -> spec_fn(CreateFileIn<'a>, Seq<u8>, CreateFileIn<'a>, Step<bool>) -> bool {
    |a: CreateFileIn<'a>, input: Seq<u8>, b: CreateFileIn<'a>, r: Step<bool>| a.next_step(input, b, r)
}

/// The single step of `read_file_in`.
pub open spec fn read_file_in_next<'a>() -> spec_fn(ReadFileIn<'a>, Seq<u8>, ReadFileIn<'a>, Step<FileRead>) -> bool {
    |a: ReadFileIn<'a>, input: Seq<u8>, b: ReadFileIn<'a>, r: Step<FileRead>| a.next_step(input, b, r)
}

/// The first cluster of the directory `dir` of the root directory of `disk`, if there is one.
pub open spec fn root_dir_cluster(disk: Disk, dir: Seq<char>) -> Option<u16> {
    let l = spec_layout(disk(0));
    spec_find_entry(disk(l.root_start), dir, Seq::empty(), true)
}

/// Whether the FAT of `disk` marks the cluster of the directory `dir` of the root directory
/// as taken (when there is such a directory), as a directory made by the file store is.
pub open spec fn root_dir_cluster_taken(disk: Disk, dir: Seq<char>) -> bool {
    match root_dir_cluster(disk, dir) {
        Some(dc) => !is_free(disk(spec_layout(disk(0)).fat_start), dc as int),
        None => true,
    }
}

/// Whether the directory `dir` of the root directory of `disk`, if there is one, holds no
/// file named `name`.`ext`.
pub open spec fn no_file_in_root_dir(disk: Disk, dir: Seq<char>, name: Seq<char>, ext: Seq<char>) -> bool {
    match root_dir_cluster(disk, dir) {
        Some(dc) => match spec_cluster_sector(spec_layout(disk(0)), dc as int) {
            Some(ds) => spec_find_entry(disk(ds), name, ext, false) is None,
            None => true,
        },
        None => true,
    }
}

/// Whether the regions that a layout describes follow each other without overlapping: the
/// boot sector, then the FAT, then the root directory, then the data clusters.
pub open spec fn regions_apart(l: Layout) -> bool {
    0 < l.fat_start < l.root_start < l.data_start
}

/// Whether every sector of a disk holds 512 bytes.
pub open spec fn sectors_whole(disk: Disk) -> bool {
    forall|s: u32| #[trigger] disk(s).len() == 512
}

/// The sector that a data cluster starts at lies in the data area, past the root directory.
proof fn lemma_data_sector_in_data_area(boot: Seq<u8>, c: int)
    requires
        2 <= c < 256,
    ensures
        spec_cluster_sector(spec_layout(boot), c) matches Some(s) && s >= spec_layout(boot).data_start,
{
    let l = spec_layout(boot);
    let reserved = boot[14] + 256 * boot[15];
    let fat_size = boot[22] + 256 * boot[23];
    let root_count = boot[17] + 256 * boot[18];
    assert(0 <= reserved + 2 * fat_size + root_count * 32 / 512 <= 0x4_0000) by (nonlinear_arith)
        requires
            0 <= reserved <= 0xFFFF,
            0 <= fat_size <= 0xFFFF,
            0 <= root_count <= 0xFFFF,
    ;
    let spc = boot[13] as int;
    assert(0 <= (c - 2) * spc <= 253 * 255) by (nonlinear_arith)
        requires
            2 <= c < 256,
            0 <= spc <= 255,
    ;
}

/// The first sectors of two different data clusters differ, when clusters are at least a
/// sector long.
proof fn lemma_data_sectors_differ(boot: Seq<u8>, a: int, b: int)
    requires
        2 <= a <= 0xFFFF,
        2 <= b <= 0xFFFF,
        a != b,
        spec_layout(boot).sectors_per_cluster > 0,
    ensures
        spec_cluster_sector(spec_layout(boot), a) != spec_cluster_sector(spec_layout(boot), b),
        spec_cluster_sector(spec_layout(boot), a) matches Some(s) && s >= spec_layout(boot).data_start,
{
    let l = spec_layout(boot);
    let reserved = boot[14] + 256 * boot[15];
    let fat_size = boot[22] + 256 * boot[23];
    let root_count = boot[17] + 256 * boot[18];
    assert(0 <= reserved + 2 * fat_size + root_count * 32 / 512 <= 0x4_0000) by (nonlinear_arith)
        requires
            0 <= reserved <= 0xFFFF,
            0 <= fat_size <= 0xFFFF,
            0 <= root_count <= 0xFFFF,
    ;
    let spc = boot[13] as int;
    assert(0 <= (a - 2) * spc <= 0xFFFF * 255 && 0 <= (b - 2) * spc <= 0xFFFF * 255 && (a - 2) * spc != (b - 2)
        * spc) by (nonlinear_arith)
        requires
            2 <= a <= 0xFFFF,
            2 <= b <= 0xFFFF,
            a != b,
            0 < spc <= 255,
    ;
}

/// Read after write, through the disk: a file that `create_file` reports written, under a
/// storable name that no file of the root directory had, is what `read_file` of that name
/// reads next: its length, and the sector of its data. This holds on a disk whose boot
/// sector lays out the FAT, the root directory and the data area one after another.
pub proof fn lemma_create_then_read<'a>(
    cs: Seq<CreateFile<'a>>,
    c_inputs: Seq<Seq<u8>>,
    c_steps: Seq<Step<bool>>,
    c_disks: Seq<Disk>,
    rs: Seq<ReadFile<'a>>,
    r_inputs: Seq<Seq<u8>>,
    r_steps: Seq<Step<FileRead>>,
    r_disks: Seq<Disk>,
)
    requires
        drives(create_file_next(), cs, c_inputs, c_steps, c_disks),
        cs[0].stage == CreateFileStage::Start,
        cs[0].len <= 512,
        storable_name(cs[0].name@, 8),
        live_name(cs[0].name@),
        storable_name(cs[0].ext@, 3),
        sectors_whole(c_disks[0]),
        regions_apart(spec_layout(c_disks[0](0))),
        spec_find_file(c_disks[0](spec_layout(c_disks[0](0)).root_start), cs[0].name@, cs[0].ext@) is None,
        c_steps.len() > 0,
        c_steps.last() == Step::<bool>::Done(true),
        forall|k: int| 0 <= k < c_steps.len() - 1 ==> !(#[trigger] c_steps[k] is Done),
        drives(read_file_next(), rs, r_inputs, r_steps, r_disks),
        rs[0].stage == ReadFileStage::Start,
        eq_ignore_ascii_case_chars(rs[0].name@, cs[0].name@),
        eq_ignore_ascii_case_chars(rs[0].ext@, cs[0].ext@),
        r_disks[0] == c_disks.last(),
        r_steps.len() >= 4,
    ensures
        r_steps[3] matches Step::Done(fr) && reads_file(fr, cs[0].len as u32, cs[0].data@),
{
    lemma_case_variants_scan_alike(rs[0].name@, rs[0].ext@, cs[0].name@, cs[0].ext@);
    let n = c_steps.len();
    let c0 = cs[0];
    let d0 = c_disks[0];
    let boot = d0(0);
    let l = spec_layout(boot);
    let fat = d0(l.fat_start);
    let root = d0(l.root_start);

    // The eight steps of the write.
    assert(c0.next_step(c_inputs[0], cs[1], c_steps[0]));
    assert(c_steps[0] == Step::<bool>::Read(0));
    assert(n > 1);
    assert(c_disks[1] == d0);
    assert(c_inputs[1] == boot);
    assert(c0.at(CreateFileStage::AwaitBoot).next_step(c_inputs[1], cs[2], c_steps[1]));
    assert(cs[2] == c0.at(CreateFileStage::AwaitFat { layout: l }));
    assert(c_steps[1] == Step::<bool>::Read(l.fat_start));
    assert(n > 2);
    assert(c_disks[2] == d0);
    assert(c_inputs[2] == fat);
    assert(cs[2].next_step(c_inputs[2], cs[3], c_steps[2]));
    if lowest_free(fat) is None {
        assert(c_steps[2] == Step::<bool>::Done(false));
        assert(false);
    }
    let c = lowest_free(fat)->0;
    assert(first_free(fat, Some(c)));
    assert(is_free(fat, c as int));
    lemma_data_sector_in_data_area(boot, c as int);
    let s = spec_cluster_sector(l, c as int)->0;
    assert(cs[3] == c0.at(CreateFileStage::DataWritten { layout: l, cluster: c }));
    assert(n > 3);
    let data_step = c_steps[2];
    assert(data_step matches Step::Write(t, d) && t == s && d@ == c0.data@);
    let d3 = c_disks[3];
    assert(d3 == disk_after(d0, data_step));
    assert(cs[3].next_step(c_inputs[3], cs[4], c_steps[3]));
    assert(c_steps[3] == Step::<bool>::Read(l.fat_start));
    assert(n > 4);
    assert(c_disks[4] == d3);
    assert(c_inputs[4] == d3(l.fat_start));
    assert(c_inputs[4] == fat);
    assert(cs[4].next_step(c_inputs[4], cs[5], c_steps[4]));
    assert(cs[5] == c0.at(CreateFileStage::FatWritten { layout: l, cluster: c }));
    assert(n > 5);
    let fat_step = c_steps[4];
    let d5 = c_disks[5];
    assert(fat_step matches Step::Write(t, _) && t == l.fat_start);
    assert(d5 == disk_after(d3, fat_step));
    assert(cs[5].next_step(c_inputs[5], cs[6], c_steps[5]));
    assert(c_steps[5] == Step::<bool>::Read(l.root_start));
    assert(n > 6);
    assert(c_disks[6] == d5);
    assert(c_inputs[6] == d5(l.root_start));
    assert(c_inputs[6] == root);
    assert(cs[6] == c0.at(CreateFileStage::AwaitRoot { layout: l, cluster: c }));
    assert(cs[6].next_step(c_inputs[6], cs[7], c_steps[6]));
    let e = root_file_entry(c0.name.spec_bytes(), c0.ext.spec_bytes(), c, c0.len);
    if inserted(root, e) is None {
        assert(c_steps[6] == Step::<bool>::Done(false));
        assert(false);
    }
    let new_root = inserted(root, e)->0;
    let root_step = c_steps[6];
    assert(root_step matches Step::Write(t, d) && t == l.root_start && d@ == new_root);
    assert(cs[7] == c0.at(CreateFileStage::Finished { ok: true }));
    assert(n > 7);
    let d7 = c_disks[7];
    assert(d7 == disk_after(d5, root_step));
    assert(cs[7].next_step(c_inputs[7], cs[8], c_steps[7]));
    assert(c_steps[7] is Done);
    assert(n == 8);
    assert(c_disks[8] == d7);

    // What the disk holds after the write.
    assert(d7(0) == boot);
    assert(d7(l.root_start) == new_root);
    assert(d7(s) == c0.data@);

    // The new entry is found.
    let i = first_free_slot(root)->0;
    assert(free_slot(root, Some(i)));
    assert(spec_insert(root, e, Some(new_root)));
    lemma_root_file_found(root, new_root, c0.name@, c0.ext@, c, c0.len);

    // The four steps of the read.
    let r0 = rs[0];
    assert(r0.next_step(r_inputs[0], rs[1], r_steps[0]));
    assert(r_steps[0] == Step::<FileRead>::Read(0));
    assert(r_disks[1] == d7);
    assert(r_inputs[1] == boot);
    assert(rs[1].next_step(r_inputs[1], rs[2], r_steps[1]));
    assert(r_steps[1] == Step::<FileRead>::Read(l.root_start));
    assert(r_disks[2] == d7);
    assert(r_inputs[2] == new_root);
    assert(rs[2] == r0.at(ReadFileStage::AwaitRoot { layout: l }));
    assert(rs[2].next_step(r_inputs[2], rs[3], r_steps[2]));
    assert(r_steps[2] == Step::<FileRead>::Read(s));
    assert(r_disks[3] == d7);
    assert(r_inputs[3] == c0.data@);
    assert(rs[3].next_step(r_inputs[3], rs[4], r_steps[3]));
}

/// Read after write through the disk, for the paths of the root directory (such as `/`, the
/// shell's starting directory): a file that `create_file_at` reports written, under a
/// storable name that no file of the root directory had, is what `read_file_at` of that name
/// reads next: a whole sector, the sector of its data. This holds on a disk whose boot sector
/// lays out the FAT, the root directory and the data area one after another.
proof fn lemma_create_at_then_read_at_root<'a>(
    cs: Seq<CreateFileAt<'a>>,
    c_inputs: Seq<Seq<u8>>,
    c_steps: Seq<Step<bool>>,
    c_disks: Seq<Disk>,
    rs: Seq<ReadFileAt<'a>>,
    r_inputs: Seq<Seq<u8>>,
    r_steps: Seq<Step<FileRead>>,
    r_disks: Seq<Disk>,
)
    requires
        drives(create_file_at_next(), cs, c_inputs, c_steps, c_disks),
        cs[0].stage == CreateFileAtStage::Start,
        cs[0].resolve.stage == ResolveStage::Start,
        cs[0].resolve.parts@.len() == 0,
        storable_name(cs[0].name@, 8),
        live_name(cs[0].name@),
        storable_name(cs[0].ext@, 3),
        sectors_whole(c_disks[0]),
        regions_apart(spec_layout(c_disks[0](0))),
        spec_find_entry(c_disks[0](spec_layout(c_disks[0](0)).root_start), cs[0].name@, cs[0].ext@, false)
            is None,
        c_steps.len() > 0,
        c_steps.last() == Step::<bool>::Done(true),
        forall|k: int| 0 <= k < c_steps.len() - 1 ==> !(#[trigger] c_steps[k] is Done),
        drives(read_file_at_next(), rs, r_inputs, r_steps, r_disks),
        rs[0].stage == ReadFileAtStage::Start,
        rs[0].resolve.stage == ResolveStage::Start,
        rs[0].resolve.parts@.len() == 0,
        eq_ignore_ascii_case_chars(rs[0].name@, cs[0].name@),
        eq_ignore_ascii_case_chars(rs[0].ext@, cs[0].ext@),
        r_disks[0] == c_disks.last(),
        r_steps.len() >= 5,
    ensures
        r_steps[4] matches Step::Done(fr) && reads_file(fr, 512, cs[0].data@),
{
    lemma_case_variants_scan_alike(rs[0].name@, rs[0].ext@, cs[0].name@, cs[0].ext@);
    let n = c_steps.len();
    let c0 = cs[0];
    let d0 = c_disks[0];
    let boot = d0(0);
    let l = spec_layout(boot);
    let fat = d0(l.fat_start);
    let root = d0(l.root_start);

    // The nine steps of the write: the boot sector twice (for the layout, then for the walk
    // down the path), the FAT, the data, the FAT again, then the root directory.
    assert(c0.next_step(c_inputs[0], cs[1], c_steps[0]));
    assert(c_steps[0] == Step::<bool>::Read(0));
    assert(n > 1);
    assert(c_inputs[1] == boot);
    assert(cs[1].next_step(c_inputs[1], cs[2], c_steps[1]));
    assert(c_steps[1] == Step::<bool>::Read(0));
    assert(cs[2].stage == CreateFileAtStage::Resolving { layout: l });
    assert(cs[2].resolve.stage == ResolveStage::AwaitBoot);
    assert(cs[2].resolve.parts@.len() == 0);
    assert(n > 2);
    assert(c_disks[2] == d0);
    assert(c_inputs[2] == boot);
    assert(cs[2].next_step(c_inputs[2], cs[3], c_steps[2]));
    assert(c_steps[2] == Step::<bool>::Read(l.fat_start));
    assert(cs[3].stage == CreateFileAtStage::AwaitFat { layout: l, parent: l.root_start });
    assert(n > 3);
    assert(c_disks[3] == d0);
    assert(c_inputs[3] == fat);
    assert(cs[3].next_step(c_inputs[3], cs[4], c_steps[3]));
    if lowest_free(fat) is None {
        assert(c_steps[3] == Step::<bool>::Done(false));
        assert(false);
    }
    let c = lowest_free(fat)->0;
    assert(first_free(fat, Some(c)));
    assert(is_free(fat, c as int));
    lemma_data_sector_in_data_area(boot, c as int);
    let s = spec_cluster_sector(l, c as int)->0;
    assert(cs[4] == cs[3].at(CreateFileAtStage::DataWritten { layout: l, parent: l.root_start, cluster: c }));
    assert(n > 4);
    let data_step = c_steps[3];
    assert(data_step matches Step::Write(t, d) && t == s && d@ == c0.data@);
    let d4 = c_disks[4];
    assert(d4 == disk_after(d0, data_step));
    assert(cs[4].next_step(c_inputs[4], cs[5], c_steps[4]));
    assert(c_steps[4] == Step::<bool>::Read(l.fat_start));
    assert(n > 5);
    assert(c_disks[5] == d4);
    assert(c_inputs[5] == fat);
    assert(cs[5].next_step(c_inputs[5], cs[6], c_steps[5]));
    assert(n > 6);
    let fat_step = c_steps[5];
    let d6 = c_disks[6];
    assert(fat_step matches Step::Write(t, _) && t == l.fat_start);
    assert(d6 == disk_after(d4, fat_step));
    assert(cs[6].next_step(c_inputs[6], cs[7], c_steps[6]));
    assert(c_steps[6] == Step::<bool>::Read(l.root_start));
    assert(n > 7);
    assert(c_disks[7] == d6);
    assert(c_inputs[7] == root);
    assert(cs[7].next_step(c_inputs[7], cs[8], c_steps[7]));
    let e = file_entry(c0.name.spec_bytes(), c0.ext.spec_bytes(), c, c0.len);
    if inserted(root, e) is None {
        assert(c_steps[7] == Step::<bool>::Done(false));
        assert(false);
    }
    let new_root = inserted(root, e)->0;
    let root_step = c_steps[7];
    assert(root_step matches Step::Write(t, d) && t == l.root_start && d@ == new_root);
    assert(n > 8);
    let d8 = c_disks[8];
    assert(d8 == disk_after(d6, root_step));
    assert(cs[8].next_step(c_inputs[8], cs[9], c_steps[8]));
    assert(c_steps[8] is Done);
    assert(n == 9);
    assert(c_disks[9] == d8);

    // What the disk holds after the write.
    assert(d8(0) == boot);
    assert(d8(l.root_start) == new_root);
    assert(d8(s) == c0.data@);

    // The new entry is found.
    let i = first_free_slot(root)->0;
    assert(free_slot(root, Some(i)));
    assert(spec_insert(root, e, Some(new_root)));
    lemma_file_entry_found(root, new_root, c0.name@, c0.ext@, c, c0.len);

    // The five steps of the read.
    assert(rs[0].next_step(r_inputs[0], rs[1], r_steps[0]));
    assert(r_steps[0] == Step::<FileRead>::Read(0));
    assert(r_disks[1] == d8);
    assert(r_inputs[1] == boot);
    assert(rs[1].next_step(r_inputs[1], rs[2], r_steps[1]));
    assert(r_steps[1] == Step::<FileRead>::Read(0));
    assert(rs[2].stage == ReadFileAtStage::Resolving { layout: l });
    assert(rs[2].resolve.stage == ResolveStage::AwaitBoot);
    assert(rs[2].resolve.parts@.len() == 0);
    assert(r_disks[2] == d8);
    assert(r_inputs[2] == boot);
    assert(rs[2].next_step(r_inputs[2], rs[3], r_steps[2]));
    assert(r_steps[2] == Step::<FileRead>::Read(l.root_start));
    assert(rs[3].stage == ReadFileAtStage::AwaitParent { layout: l });
    assert(r_disks[3] == d8);
    assert(r_inputs[3] == new_root);
    assert(rs[3].next_step(r_inputs[3], rs[4], r_steps[3]));
    assert(r_steps[3] == Step::<FileRead>::Read(s));
    assert(rs[4].stage == ReadFileAtStage::AwaitData);
    assert(r_disks[4] == d8);
    assert(r_inputs[4] == c0.data@);
    assert(rs[4].next_step(r_inputs[4], rs[5], r_steps[4]));
}

/// A drive of `create_file_in` that has failed answers `Corrupt` to the end.
proof fn lemma_create_in_failed_stays<'a>(
    cs: Seq<CreateFileIn<'a>>,
    inputs: Seq<Seq<u8>>,
    steps: Seq<Step<bool>>,
    disks: Seq<Disk>,
    k: int,
)
    requires
        drives(create_file_in_next(), cs, inputs, steps, disks),
        0 <= k < steps.len(),
        cs[k].stage == CreateFileInStage::Failed,
    ensures
        steps.last() == Step::<bool>::Corrupt,
    decreases steps.len() - k,
{
    assert(cs[k].next_step(inputs[k], cs[k + 1], steps[k]));
    if k + 1 < steps.len() {
        lemma_create_in_failed_stays(cs, inputs, steps, disks, k + 1);
    }
}

/// What a drive of `create_file_in` that reports the file written leaves on the disk: the
/// boot sector and the root directory as they were, the file's entry in the directory's
/// sector `ds`, and its data in sector `s`.
proof fn lemma_create_in_effect<'a>(
    cs: Seq<CreateFileIn<'a>>,
    c_inputs: Seq<Seq<u8>>,
    c_steps: Seq<Step<bool>>,
    c_disks: Seq<Disk>,
) -> (r: (u32, u32))
    requires
        drives(create_file_in_next(), cs, c_inputs, c_steps, c_disks),
        cs[0].stage == CreateFileInStage::Start,
        storable_name(cs[0].name@, 8),
        live_name(cs[0].name@),
        storable_name(cs[0].ext@, 3),
        sectors_whole(c_disks[0]),
        regions_apart(spec_layout(c_disks[0](0))),
        spec_layout(c_disks[0](0)).sectors_per_cluster > 0,
        root_dir_cluster_taken(c_disks[0], cs[0].dir@),
        no_file_in_root_dir(c_disks[0], cs[0].dir@, cs[0].name@, cs[0].ext@),
        c_steps.len() > 0,
        c_steps.last() == Step::<bool>::Done(true),
        forall|k: int| 0 <= k < c_steps.len() - 1 ==> !(#[trigger] c_steps[k] is Done),
    ensures
        ({
            let (ds, s) = r;
            let d0 = c_disks[0];
            let l = spec_layout(d0(0));
            let last = c_disks.last();
            &&& root_dir_cluster(d0, cs[0].dir@) matches Some(dc) && spec_cluster_sector(l, dc as int) == Some(ds)
            &&& last(0) == d0(0)
            &&& last(l.root_start) == d0(l.root_start)
            &&& spec_find_entry(last(ds), cs[0].name@, cs[0].ext@, false) matches Some(c)
                && spec_cluster_sector(l, c as int) == Some(s)
            &&& last(s) == cs[0].data@
        }),
{
    let n = c_steps.len();
    let c0 = cs[0];
    let d0 = c_disks[0];
    let boot = d0(0);
    let l = spec_layout(boot);
    let fat = d0(l.fat_start);
    let root = d0(l.root_start);

    assert(c0.next_step(c_inputs[0], cs[1], c_steps[0]));
    assert(c_steps[0] == Step::<bool>::Read(0));
    assert(n > 1);
    assert(c_inputs[1] == boot);
    assert(cs[1].next_step(c_inputs[1], cs[2], c_steps[1]));
    assert(c_steps[1] == Step::<bool>::Read(l.root_start));
    assert(n > 2);
    assert(c_disks[2] == d0);
    assert(c_inputs[2] == root);
    assert(cs[2].next_step(c_inputs[2], cs[3], c_steps[2]));
    if root_dir_cluster(d0, c0.dir@) is None {
        assert(c_steps[2] == Step::<bool>::Done(false));
        assert(false);
    }
    let dc = root_dir_cluster(d0, c0.dir@)->0;
    assert(cs[3] == c0.at(CreateFileInStage::AwaitFat { layout: l, dir_cluster: dc }));
    assert(c_steps[2] == Step::<bool>::Read(l.fat_start));
    assert(n > 3);
    assert(c_disks[3] == d0);
    assert(c_inputs[3] == fat);
    assert(cs[3].next_step(c_inputs[3], cs[4], c_steps[3]));
    if lowest_free(fat) is None {
        assert(c_steps[3] == Step::<bool>::Done(false));
        assert(false);
    }
    let c = lowest_free(fat)->0;
    assert(first_free(fat, Some(c)));
    assert(is_free(fat, c as int));
    lemma_data_sector_in_data_area(boot, c as int);
    let s = spec_cluster_sector(l, c as int)->0;
    assert(cs[4] == c0.at(CreateFileInStage::DataWritten { layout: l, dir_cluster: dc, cluster: c }));
    assert(n > 4);
    let data_step = c_steps[3];
    assert(data_step matches Step::Write(t, d) && t == s && d@ == c0.data@);
    let d4 = c_disks[4];
    assert(d4 == disk_after(d0, data_step));
    assert(cs[4].next_step(c_inputs[4], cs[5], c_steps[4]));
    assert(c_steps[4] == Step::<bool>::Read(l.fat_start));
    assert(n > 5);
    assert(c_disks[5] == d4);
    assert(cs[5].next_step(c_inputs[5], cs[6], c_steps[5]));
    assert(n > 6);
    let fat_step = c_steps[5];
    let d6 = c_disks[6];
    assert(fat_step matches Step::Write(t, _) && t == l.fat_start);
    assert(d6 == disk_after(d4, fat_step));
    assert(cs[6] == c0.at(CreateFileInStage::FatWritten { layout: l, dir_cluster: dc, cluster: c }));
    assert(cs[6].next_step(c_inputs[6], cs[7], c_steps[6]));
    if spec_cluster_sector(l, dc as int) is None {
        assert(cs[7].stage == CreateFileInStage::Failed);
        lemma_create_in_failed_stays(cs, c_inputs, c_steps, c_disks, 7);
        assert(false);
    }
    let ds = spec_cluster_sector(l, dc as int)->0;
    assert(dc != c) by {
        assert(!is_free(fat, dc as int));
    }
    lemma_data_sectors_differ(boot, dc as int, c as int);
    let old_dir = d0(ds);
    assert(c_steps[6] == Step::<bool>::Read(ds));
    assert(n > 7);
    assert(c_disks[7] == d6);
    assert(c_inputs[7] == old_dir);
    assert(cs[7] == c0.at(CreateFileInStage::AwaitDir { layout: l, dir_sector: ds, cluster: c }));
    assert(cs[7].next_step(c_inputs[7], cs[8], c_steps[7]));
    let e = file_entry(c0.name.spec_bytes(), c0.ext.spec_bytes(), c, c0.len);
    if inserted(old_dir, e) is None {
        assert(c_steps[7] == Step::<bool>::Done(false));
        assert(false);
    }
    let new_dir = inserted(old_dir, e)->0;
    let dir_step = c_steps[7];
    assert(dir_step matches Step::Write(t, d) && t == ds && d@ == new_dir);
    assert(n > 8);
    let d8 = c_disks[8];
    assert(d8 == disk_after(d6, dir_step));
    assert(cs[8].next_step(c_inputs[8], cs[9], c_steps[8]));
    assert(c_steps[8] is Done);
    assert(n == 9);
    assert(c_disks[9] == d8);
    assert(d8(0) == boot);
    assert(d8(l.root_start) == root);
    assert(d8(ds) == new_dir);
    assert(d8(s) == c0.data@);
    let i = first_free_slot(old_dir)->0;
    assert(free_slot(old_dir, Some(i)));
    assert(spec_insert(old_dir, e, Some(new_dir)));
    lemma_file_entry_found(old_dir, new_dir, c0.name@, c0.ext@, c, c0.len);
    (ds, s)
}

/// Read after write through the disk, for files inside a directory of the root directory: a
/// file that `create_file_in` reports written into `dir`, under a storable name that no file
/// of that directory had, is what `read_file_in` of that directory and name reads next: a
/// whole sector, the sector of its data. This holds on a disk whose boot sector lays out the
/// FAT, the root directory and the data area one after another with clusters of at least a
/// sector, and whose FAT marks the directory's cluster taken.
pub proof fn lemma_create_in_then_read_in<'a>(
    cs: Seq<CreateFileIn<'a>>,
    c_inputs: Seq<Seq<u8>>,
    c_steps: Seq<Step<bool>>,
    c_disks: Seq<Disk>,
    rs: Seq<ReadFileIn<'a>>,
    r_inputs: Seq<Seq<u8>>,
    r_steps: Seq<Step<FileRead>>,
    r_disks: Seq<Disk>,
)
    requires
        drives(create_file_in_next(), cs, c_inputs, c_steps, c_disks),
        cs[0].stage == CreateFileInStage::Start,
        storable_name(cs[0].name@, 8),
        live_name(cs[0].name@),
        storable_name(cs[0].ext@, 3),
        sectors_whole(c_disks[0]),
        regions_apart(spec_layout(c_disks[0](0))),
        spec_layout(c_disks[0](0)).sectors_per_cluster > 0,
        root_dir_cluster_taken(c_disks[0], cs[0].dir@),
        no_file_in_root_dir(c_disks[0], cs[0].dir@, cs[0].name@, cs[0].ext@),
        c_steps.len() > 0,
        c_steps.last() == Step::<bool>::Done(true),
        forall|k: int| 0 <= k < c_steps.len() - 1 ==> !(#[trigger] c_steps[k] is Done),
        drives(read_file_in_next(), rs, r_inputs, r_steps, r_disks),
        rs[0].stage == ReadFileInStage::Start,
        eq_ignore_ascii_case_chars(rs[0].dir@, cs[0].dir@),
        eq_ignore_ascii_case_chars(rs[0].name@, cs[0].name@),
        eq_ignore_ascii_case_chars(rs[0].ext@, cs[0].ext@),
        r_disks[0] == c_disks.last(),
        r_steps.len() >= 5,
    ensures
        r_steps[4] matches Step::Done(fr) && reads_file(fr, 512, cs[0].data@),
{
    lemma_case_variants_scan_alike(rs[0].name@, rs[0].ext@, cs[0].name@, cs[0].ext@);
    lemma_case_variants_scan_alike(rs[0].dir@, Seq::empty(), cs[0].dir@, Seq::empty());
    let (ds, s) = lemma_create_in_effect(cs, c_inputs, c_steps, c_disks);
    let d0 = c_disks[0];
    let boot = d0(0);
    let l = spec_layout(boot);
    let root = d0(l.root_start);
    let f = c_disks.last();

    assert(rs[0].next_step(r_inputs[0], rs[1], r_steps[0]));
    assert(r_steps[0] == Step::<FileRead>::Read(0));
    assert(r_disks[1] == f);
    assert(r_inputs[1] == boot);
    assert(rs[1].next_step(r_inputs[1], rs[2], r_steps[1]));
    assert(r_steps[1] == Step::<FileRead>::Read(l.root_start));
    assert(r_disks[2] == f);
    assert(r_inputs[2] == root);
    assert(rs[2].next_step(r_inputs[2], rs[3], r_steps[2]));
    assert(r_steps[2] == Step::<FileRead>::Read(ds));
    assert(r_disks[3] == f);
    assert(r_inputs[3] == f(ds));
    assert(rs[3].next_step(r_inputs[3], rs[4], r_steps[3]));
    assert(r_steps[3] == Step::<FileRead>::Read(s));
    assert(r_disks[4] == f);
    assert(r_inputs[4] == cs[0].data@);
    assert(rs[4].next_step(r_inputs[4], rs[5], r_steps[4]));
}

/// The components of the path that a walk goes down.
pub open spec fn components_of<'a>(r: Resolve<'a>) -> Seq<Seq<char>> {
    Seq::new(r.parts@.len(), |k: int| r.part(k))
}

/// The walk down `parts` from component `k` on, starting in the directory sector `cur` of
/// `disk`: the sectors of the directories it passes through, `cur` first and the directory
/// it reaches last; `None` when a component is missing or names no data cluster.
pub open spec fn walk_from(disk: Disk, l: Layout, parts: Seq<Seq<char>>, k: nat, cur: u32) -> Option<Seq<u32>>
    decreases parts.len() - k,
{
    if k >= parts.len() {
        Some(seq![cur])
    } else {
        match spec_find_entry(disk(cur), parts[k as int], Seq::empty(), true) {
            None => None,
            Some(dc) => match spec_cluster_sector(l, dc as int) {
                None => None,
                Some(next) => match walk_from(disk, l, parts, k + 1, next) {
                    Some(rest) => Some(seq![cur] + rest),
                    None => None,
                },
            },
        }
    }
}

/// Whether the FAT `fat` marks taken the cluster of every directory that the walk down
/// `parts` (from component `k` on, in directory sector `cur`) passes into, as it does for the
/// directories that the file store makes.
pub open spec fn walk_taken(disk: Disk, l: Layout, fat: Seq<u8>, parts: Seq<Seq<char>>, k: nat, cur: u32) -> bool
    decreases parts.len() - k,
{
    if k >= parts.len() {
        true
    } else {
        match spec_find_entry(disk(cur), parts[k as int], Seq::empty(), true) {
            None => true,
            Some(dc) => !is_free(fat, dc as int) && match spec_cluster_sector(l, dc as int) {
                None => true,
                Some(next) => walk_taken(disk, l, fat, parts, k + 1, next),
            },
        }
    }
}

/// An entry put in the first free slot of a directory leaves the entries that a scan finds
/// where they were: the scan stops before that slot.
proof fn lemma_insert_keeps_hit(dir: Seq<u8>, e: Seq<u8>, d: Seq<u8>, hit: spec_fn(Seq<u8>) -> bool, j: int)
    requires
        dir.len() == 512,
        e.len() == 32,
        first_hit(dir, hit) == Some(j),
        forall|x: Seq<u8>| #[trigger] hit(x) ==> x[0] != END_MARK,
        spec_insert(dir, e, Some(d)),
    ensures
        first_hit(d, hit) == Some(j),
        slot(d, j) == slot(dir, j),
{
    assert(first_hit_at(dir, hit, j)) by {
        assert(exists|i: int| first_hit_at(dir, hit, i));
    }
    let i = choose|i: int| free_slot(dir, Some(i)) && d == put_slot(dir, i, e);
    assert(hit(slot(dir, j)));
    assert(slot(dir, j)[0] == dir[32 * j]);
    assert(j < i) by {
        if j > i {
            assert(dir[32 * i] != END_MARK);
        }
    }
    assert forall|k: int| 0 <= k <= j implies #[trigger] slot(d, k) == slot(dir, k) by {
        assert(slot(d, k) =~= slot(dir, k));
    }
    assert forall|k: int| 0 <= k < j implies #[trigger] d[32 * k] != END_MARK by {
        assert(d[32 * k] == dir[32 * k]);
    }
    assert(first_hit_at(d, hit, j));
    lemma_first_hit_unique(d, hit, j);
}

/// The walk down a path reads the same on a disk that differs only in the sector of the
/// directory it reaches, where an entry was put in the first free slot.
proof fn lemma_walk_kept(d: Disk, f: Disk, l: Layout, parts: Seq<Seq<char>>, k: nat, cur: u32, path: Seq<u32>, e: Seq<u8>)
    requires
        walk_from(d, l, parts, k, cur) == Some(path),
        forall|x: u32| path.contains(x) && x != path.last() ==> f(x) == d(x),
        d(path.last()).len() == 512,
        e.len() == 32,
        spec_insert(d(path.last()), e, Some(f(path.last()))),
    ensures
        walk_from(f, l, parts, k, cur) == Some(path),
    decreases parts.len() - k,
{
    if k < parts.len() {
        let part = parts[k as int];
        let hit = kind_hit(part, Seq::empty(), true);
        let dc = spec_find_entry(d(cur), part, Seq::empty(), true)->0;
        let next = spec_cluster_sector(l, dc as int)->0;
        let rest = walk_from(d, l, parts, k + 1, next)->0;
        assert(path == seq![cur] + rest);
        assert(path[0] == cur);
        assert(path.contains(cur));
        assert(rest.len() > 0) by {
            lemma_walk_nonempty(d, l, parts, k + 1, next);
        }
        assert(path.last() == rest.last());
        if cur == path.last() {
            let j = first_hit(d(cur), hit)->0;
            assert forall|x: Seq<u8>| #[trigger] hit(x) implies x[0] != END_MARK by {}
            lemma_insert_keeps_hit(d(cur), e, f(cur), hit, j);
        }
        assert(spec_find_entry(f(cur), part, Seq::empty(), true) == Some(dc));
        assert forall|x: u32| rest.contains(x) && x != rest.last() implies f(x) == d(x) by {
            let i = choose|i: int| 0 <= i < rest.len() && rest[i] == x;
            assert(path[i + 1] == x);
            assert(path.contains(x));
        }
        lemma_walk_kept(d, f, l, parts, k + 1, next, rest, e);
    }
}

/// A walk that succeeds passes through at least the directory it starts in.
proof fn lemma_walk_nonempty(d: Disk, l: Layout, parts: Seq<Seq<char>>, k: nat, cur: u32)
    requires
        walk_from(d, l, parts, k, cur) is Some,
    ensures
        walk_from(d, l, parts, k, cur)->0.len() > 0,
        walk_from(d, l, parts, k, cur)->0[0] == cur,
    decreases parts.len() - k,
{
}

/// The directories that a walk passes into lie in the data area, and, when the FAT marks
/// their clusters taken, none of them starts at the sector of the free cluster `c`.
proof fn lemma_walk_avoids(d: Disk, boot: Seq<u8>, fat: Seq<u8>, parts: Seq<Seq<char>>, k: nat, cur: u32, c: int)
    requires
        walk_from(d, spec_layout(boot), parts, k, cur) is Some,
        walk_taken(d, spec_layout(boot), fat, parts, k, cur),
        is_free(fat, c),
        spec_layout(boot).sectors_per_cluster > 0,
    ensures
        ({
            let path = walk_from(d, spec_layout(boot), parts, k, cur)->0;
            &&& path.len() > 0
            &&& path[0] == cur
            &&& forall|i: int|
                1 <= i < path.len() ==> path[i] >= spec_layout(boot).data_start && Some(path[i])
                    != #[trigger] spec_cluster_sector(spec_layout(boot), c)
        }),
    decreases parts.len() - k,
{
    let l = spec_layout(boot);
    let path = walk_from(d, l, parts, k, cur)->0;
    if k < parts.len() {
        let dc = spec_find_entry(d(cur), parts[k as int], Seq::empty(), true)->0;
        let next = spec_cluster_sector(l, dc as int)->0;
        let rest = walk_from(d, l, parts, k + 1, next)->0;
        lemma_walk_avoids(d, boot, fat, parts, k + 1, next, c);
        assert(dc != c) by {
            assert(!is_free(fat, dc as int));
        }
        lemma_data_sectors_differ(boot, dc as int, c);
        assert(path == seq![cur] + rest);
        assert forall|i: int| 1 <= i < path.len() implies path[i] >= l.data_start && Some(path[i])
            != #[trigger] spec_cluster_sector(l, c) by {
            assert(path[i] == rest[i - 1]);
        }
    }
}

/// A drive of `create_file_at` that has failed answers `Corrupt` to the end.
proof fn lemma_create_at_failed_stays<'a>(
    cs: Seq<CreateFileAt<'a>>,
    inputs: Seq<Seq<u8>>,
    steps: Seq<Step<bool>>,
    disks: Seq<Disk>,
    k: int,
)
    requires
        drives(create_file_at_next(), cs, inputs, steps, disks),
        0 <= k < steps.len(),
        cs[k].stage == CreateFileAtStage::Failed,
    ensures
        steps.last() == Step::<bool>::Corrupt,
    decreases steps.len() - k,
{
    assert(cs[k].next_step(inputs[k], cs[k + 1], steps[k]));
    if k + 1 < steps.len() {
        lemma_create_at_failed_stays(cs, inputs, steps, disks, k + 1);
    }
}

/// The walk inside a drive of `create_file_at` that reports the file written: from step `j`,
/// where it looks up component `next` in directory sector `cur`, it goes down the rest of the
/// path without touching the disk, and asks for the FAT once it has found the directory.
proof fn lemma_create_at_walk<'a>(
    cs: Seq<CreateFileAt<'a>>,
    inputs: Seq<Seq<u8>>,
    steps: Seq<Step<bool>>,
    disks: Seq<Disk>,
    j: int,
    l: Layout,
    cur: u32,
    d: Disk,
)
    requires
        drives(create_file_at_next(), cs, inputs, steps, disks),
        0 <= j < steps.len(),
        cs[j].stage == (CreateFileAtStage::Resolving { layout: l }),
        cs[j].resolve.stage == (ResolveStage::AwaitDir { layout: l, current: cur }),
        cs[j].resolve.next < cs[j].resolve.parts@.len(),
        inputs[j] == d(cur),
        disks[j] == d,
        steps.last() == Step::<bool>::Done(true),
        forall|k: int| 0 <= k < steps.len() - 1 ==> !(#[trigger] steps[k] is Done),
    ensures
        ({
            let parts = components_of(cs[j].resolve);
            let e = j + parts.len() - cs[j].resolve.next - 1;
            &&& walk_from(d, l, parts, cs[j].resolve.next as nat, cur) is Some
            &&& e + 1 < steps.len()
            &&& steps[e] == Step::<bool>::Read(l.fat_start)
            &&& cs[e + 1].stage == (CreateFileAtStage::AwaitFat {
                layout: l,
                parent: walk_from(d, l, parts, cs[j].resolve.next as nat, cur)->0.last(),
            })
            &&& disks[e + 1] == d
        }),
    decreases cs[j].resolve.parts@.len() - cs[j].resolve.next,
{
    let r = cs[j].resolve;
    let parts = components_of(r);
    let k = r.next;
    assert(cs[j].next_step(inputs[j], cs[j + 1], steps[j]));
    assert(parts[k as int] == r.part(k as int));
    let found = spec_find_entry(d(cur), parts[k as int], Seq::empty(), true);
    if found is None {
        assert(steps[j] == Step::<bool>::Done(false));
        assert(false);
    }
    let dc = found->0;
    if spec_cluster_sector(l, dc as int) is None {
        assert(cs[j + 1].stage == CreateFileAtStage::Failed);
        if j + 1 < steps.len() {
            lemma_create_at_failed_stays(cs, inputs, steps, disks, j + 1);
        }
        assert(false);
    }
    let next = spec_cluster_sector(l, dc as int)->0;
    assert(steps[j] !is Done);
    assert(j + 1 < steps.len());
    assert(disks[j + 1] == d);
    assert(cs[j + 1].resolve.parts == r.parts);
    assert(components_of(cs[j + 1].resolve) =~= parts);
    if k + 1 == r.parts@.len() {
        assert(walk_from(d, l, parts, (k + 1) as nat, next) == Some(seq![next]));
        assert(walk_from(d, l, parts, k as nat, cur) == Some(seq![cur] + seq![next]));
        assert((seq![cur] + seq![next]).last() == next);
    } else {
        assert(steps[j] == Step::<bool>::Read(next));
        assert(inputs[j + 1] == d(next));
        vstd::std_specs::vec::axiom_spec_len(&r.parts);
        assert(cs[j + 1].resolve.next == k + 1);
        assert(cs[j + 1].resolve.stage == (ResolveStage::AwaitDir { layout: l, current: next }));
        lemma_create_at_walk(cs, inputs, steps, disks, j + 1, l, next, d);
        let rest = walk_from(d, l, parts, (k + 1) as nat, next)->0;
        lemma_walk_nonempty(d, l, parts, (k + 1) as nat, next);
        assert((seq![cur] + rest).last() == rest.last());
    }
}

/// The walk inside a drive of `read_file_at`: from step `j`, where it looks up component
/// `next` in directory sector `cur`, it goes down a path that exists on the disk without
/// touching it, and asks for the sector of the directory it reaches.
proof fn lemma_read_at_walk<'a>(
    rs: Seq<ReadFileAt<'a>>,
    inputs: Seq<Seq<u8>>,
    steps: Seq<Step<FileRead>>,
    disks: Seq<Disk>,
    j: int,
    l: Layout,
    cur: u32,
    d: Disk,
)
    requires
        drives(read_file_at_next(), rs, inputs, steps, disks),
        0 <= j,
        rs[j].stage == (ReadFileAtStage::Resolving { layout: l }),
        rs[j].resolve.stage == (ResolveStage::AwaitDir { layout: l, current: cur }),
        rs[j].resolve.next < rs[j].resolve.parts@.len(),
        inputs[j] == d(cur),
        disks[j] == d,
        walk_from(d, l, components_of(rs[j].resolve), rs[j].resolve.next as nat, cur) is Some,
        j + components_of(rs[j].resolve).len() - rs[j].resolve.next < steps.len(),
    ensures
        ({
            let parts = components_of(rs[j].resolve);
            let e = j + parts.len() - rs[j].resolve.next - 1;
            &&& steps[e] == Step::<FileRead>::Read(
                walk_from(d, l, parts, rs[j].resolve.next as nat, cur)->0.last(),
            )
            &&& rs[e + 1].stage == (ReadFileAtStage::AwaitParent { layout: l })
            &&& disks[e + 1] == d
        }),
    decreases rs[j].resolve.parts@.len() - rs[j].resolve.next,
{
    let r = rs[j].resolve;
    let parts = components_of(r);
    let k = r.next;
    assert(rs[j].next_step(inputs[j], rs[j + 1], steps[j]));
    assert(parts[k as int] == r.part(k as int));
    let dc = spec_find_entry(d(cur), parts[k as int], Seq::empty(), true)->0;
    let next = spec_cluster_sector(l, dc as int)->0;
    assert(disks[j + 1] == d);
    assert(rs[j + 1].resolve.parts == r.parts);
    assert(components_of(rs[j + 1].resolve) =~= parts);
    if k + 1 == r.parts@.len() {
        assert(walk_from(d, l, parts, (k + 1) as nat, next) == Some(seq![next]));
        assert((seq![cur] + seq![next]).last() == next);
    } else {
        assert(steps[j] == Step::<FileRead>::Read(next));
        assert(inputs[j + 1] == d(next));
        vstd::std_specs::vec::axiom_spec_len(&r.parts);
        assert(rs[j + 1].resolve.next == k + 1);
        assert(rs[j + 1].resolve.stage == (ResolveStage::AwaitDir { layout: l, current: next }));
        assert(walk_from(d, l, parts, (k + 1) as nat, next) is Some);
        lemma_read_at_walk(rs, inputs, steps, disks, j + 1, l, next, d);
        let rest = walk_from(d, l, parts, (k + 1) as nat, next)->0;
        lemma_walk_nonempty(d, l, parts, (k + 1) as nat, next);
        assert((seq![cur] + rest).last() == rest.last());
    }
}

/// What a drive of `create_file_at` down a path of at least one component leaves on the
/// disk, when it reports the file written: the walk reaches directory sector `p`; the boot
/// sector and every other directory of the walk are as they were; `p` holds the new entry,
/// which names cluster `c`, whose sector `s` holds the data.
proof fn lemma_create_at_effect<'a>(
    cs: Seq<CreateFileAt<'a>>,
    c_inputs: Seq<Seq<u8>>,
    c_steps: Seq<Step<bool>>,
    c_disks: Seq<Disk>,
) -> (r: (u32, u32, u16))
    requires
        drives(create_file_at_next(), cs, c_inputs, c_steps, c_disks),
        cs[0].stage == CreateFileAtStage::Start,
        cs[0].resolve.stage == ResolveStage::Start,
        cs[0].resolve.parts@.len() > 0,
        storable_name(cs[0].name@, 8),
        live_name(cs[0].name@),
        storable_name(cs[0].ext@, 3),
        sectors_whole(c_disks[0]),
        regions_apart(spec_layout(c_disks[0](0))),
        spec_layout(c_disks[0](0)).sectors_per_cluster > 0,
        walk_taken(
            c_disks[0],
            spec_layout(c_disks[0](0)),
            c_disks[0](spec_layout(c_disks[0](0)).fat_start),
            components_of(cs[0].resolve),
            0,
            spec_layout(c_disks[0](0)).root_start,
        ),
        walk_from(
            c_disks[0],
            spec_layout(c_disks[0](0)),
            components_of(cs[0].resolve),
            0,
            spec_layout(c_disks[0](0)).root_start,
        ) matches Some(path) ==> spec_find_entry(c_disks[0](path.last()), cs[0].name@, cs[0].ext@, false)
            is None,
        c_steps.len() > 0,
        c_steps.last() == Step::<bool>::Done(true),
        forall|k: int| 0 <= k < c_steps.len() - 1 ==> !(#[trigger] c_steps[k] is Done),
    ensures
        ({
            let (p, s, c) = r;
            let d0 = c_disks[0];
            let l = spec_layout(d0(0));
            let last = c_disks.last();
            let e = file_entry(cs[0].name.spec_bytes(), cs[0].ext.spec_bytes(), c, cs[0].len);
            &&& walk_from(d0, l, components_of(cs[0].resolve), 0, l.root_start) matches Some(path)
                && path.last() == p && forall|x: u32| path.contains(x) && x != p ==> last(x) == d0(x)
            &&& d0(p).len() == 512
            &&& spec_insert(d0(p), e, Some(last(p)))
            &&& last(0) == d0(0)
            &&& spec_find_entry(last(p), cs[0].name@, cs[0].ext@, false) == Some(c)
            &&& spec_cluster_sector(l, c as int) == Some(s)
            &&& last(s) == cs[0].data@
        }),
{
    let n = c_steps.len();
    let c0 = cs[0];
    let d0 = c_disks[0];
    let boot = d0(0);
    let l = spec_layout(boot);
    let fat = d0(l.fat_start);
    let parts = components_of(c0.resolve);
    let m = parts.len();

    // The boot sector, twice, then the root directory.
    assert(c0.next_step(c_inputs[0], cs[1], c_steps[0]));
    assert(c_steps[0] == Step::<bool>::Read(0));
    assert(n > 1);
    assert(c_inputs[1] == boot);
    assert(cs[1].next_step(c_inputs[1], cs[2], c_steps[1]));
    assert(c_steps[1] == Step::<bool>::Read(0));
    assert(cs[2].stage == (CreateFileAtStage::Resolving { layout: l }));
    assert(cs[2].resolve.stage == ResolveStage::AwaitBoot);
    assert(cs[2].resolve.parts == c0.resolve.parts);
    assert(n > 2);
    assert(c_disks[2] == d0);
    assert(c_inputs[2] == boot);
    assert(cs[2].next_step(c_inputs[2], cs[3], c_steps[2]));
    assert(c_steps[2] == Step::<bool>::Read(l.root_start));
    assert(n > 3);
    assert(c_disks[3] == d0);
    assert(c_inputs[3] == d0(l.root_start));
    assert(cs[3].resolve.parts == c0.resolve.parts);
    assert(components_of(cs[3].resolve) =~= parts);
    assert(cs[3].resolve.next == 0);

    // Down the path.
    lemma_create_at_walk(cs, c_inputs, c_steps, c_disks, 3, l, l.root_start, d0);
    let path = walk_from(d0, l, parts, 0, l.root_start)->0;
    let p = path.last();
    let b: int = m as int + 3;
    assert(c_steps[b - 1] == Step::<bool>::Read(l.fat_start));
    lemma_create_at_fields(cs, c_inputs, c_steps, c_disks, b);
    lemma_create_at_fields(cs, c_inputs, c_steps, c_disks, b + 4);
    assert(cs[b].stage == (CreateFileAtStage::AwaitFat { layout: l, parent: p }));
    assert(c_disks[b] == d0);
    assert(c_inputs[b] == fat);

    // The FAT, the data, the FAT again, then the directory reached.
    assert(cs[b].next_step(c_inputs[b], cs[b + 1], c_steps[b]));
    if lowest_free(fat) is None {
        assert(c_steps[b] == Step::<bool>::Done(false));
        assert(false);
    }
    let c = lowest_free(fat)->0;
    assert(first_free(fat, Some(c)));
    assert(is_free(fat, c as int));
    lemma_data_sector_in_data_area(boot, c as int);
    let s = spec_cluster_sector(l, c as int)->0;
    lemma_walk_avoids(d0, boot, fat, parts, 0, l.root_start, c as int);
    lemma_walk_nonempty(d0, l, parts, 0, l.root_start);
    assert(path.len() == m + 1) by {
        lemma_walk_len(d0, l, parts, 0, l.root_start);
    }
    assert(p == path[path.len() - 1]);
    assert(p >= l.data_start && p != s);
    let data_step = c_steps[b];
    assert(data_step matches Step::Write(t, d) && t == s && d@ == c0.data@);
    assert(n > b + 1);
    let d1 = c_disks[b + 1];
    assert(d1 == disk_after(d0, data_step));
    assert(cs[b + 1].next_step(c_inputs[b + 1], cs[b + 2], c_steps[b + 1]));
    assert(c_steps[b + 1] == Step::<bool>::Read(l.fat_start));
    assert(n > b + 2);
    assert(c_disks[b + 2] == d1);
    assert(cs[b + 2].next_step(c_inputs[b + 2], cs[b + 3], c_steps[b + 2]));
    assert(n > b + 3);
    let fat_step = c_steps[b + 2];
    assert(fat_step matches Step::Write(t, _) && t == l.fat_start);
    let d3 = c_disks[b + 3];
    assert(d3 == disk_after(d1, fat_step));
    assert(cs[b + 3].next_step(c_inputs[b + 3], cs[b + 4], c_steps[b + 3]));
    assert(c_steps[b + 3] == Step::<bool>::Read(p));
    assert(n > b + 4);
    assert(c_disks[b + 4] == d3);
    assert(c_inputs[b + 4] == d0(p));
    assert(cs[b + 4].next_step(c_inputs[b + 4], cs[b + 5], c_steps[b + 4]));
    let e = file_entry(c0.name.spec_bytes(), c0.ext.spec_bytes(), c, c0.len);
    if inserted(d0(p), e) is None {
        assert(c_steps[b + 4] == Step::<bool>::Done(false));
        assert(false);
    }
    let new_dir = inserted(d0(p), e)->0;
    let dir_step = c_steps[b + 4];
    assert(dir_step matches Step::Write(t, d) && t == p && d@ == new_dir);
    assert(n > b + 5);
    let d5 = c_disks[b + 5];
    assert(d5 == disk_after(d3, dir_step));
    assert(cs[b + 5].next_step(c_inputs[b + 5], cs[b + 6], c_steps[b + 5]));
    assert(c_steps[b + 5] is Done);
    assert(n == b + 6);
    assert(c_disks.last() == d5);

    // What the disk holds after the write.
    assert(d5(0) == boot);
    assert(d5(p) == new_dir);
    assert(d5(s) == c0.data@);
    assert forall|x: u32| path.contains(x) && x != p implies d5(x) == d0(x) by {
        let i = choose|i: int| 0 <= i < path.len() && path[i] == x;
        if i >= 1 {
            assert(Some(path[i]) != spec_cluster_sector(l, c as int));
        }
    }
    let i = first_free_slot(d0(p))->0;
    assert(free_slot(d0(p), Some(i)));
    assert(spec_insert(d0(p), e, Some(new_dir)));
    lemma_file_entry_found(d0(p), new_dir, c0.name@, c0.ext@, c, c0.len);
    (p, s, c)
}

/// A walk that succeeds passes through one directory more than the components it goes down.
proof fn lemma_walk_len(d: Disk, l: Layout, parts: Seq<Seq<char>>, k: nat, cur: u32)
    requires
        walk_from(d, l, parts, k, cur) is Some,
        k <= parts.len(),
    ensures
        walk_from(d, l, parts, k, cur)->0.len() == parts.len() - k + 1,
    decreases parts.len() - k,
{
    if k < parts.len() {
        let dc = spec_find_entry(d(cur), parts[k as int], Seq::empty(), true)->0;
        let next = spec_cluster_sector(l, dc as int)->0;
        lemma_walk_len(d, l, parts, k + 1, next);
    }
}

/// Every state of a drive of `create_file_at` writes the same file, and walks the same path.
proof fn lemma_create_at_fields<'a>(
    cs: Seq<CreateFileAt<'a>>,
    inputs: Seq<Seq<u8>>,
    steps: Seq<Step<bool>>,
    disks: Seq<Disk>,
    k: int,
)
    requires
        drives(create_file_at_next(), cs, inputs, steps, disks),
        0 <= k <= steps.len(),
    ensures
        cs[k].name == cs[0].name,
        cs[k].ext == cs[0].ext,
        cs[k].data == cs[0].data,
        cs[k].len == cs[0].len,
        cs[k].resolve.parts == cs[0].resolve.parts,
    decreases k,
{
    if k > 0 {
        lemma_create_at_fields(cs, inputs, steps, disks, k - 1);
        assert(cs[k - 1].next_step(inputs[k - 1], cs[k], steps[k - 1]));
    }
}

/// Every state of a drive of `read_file_at` reads the same file, and walks the same path.
proof fn lemma_read_at_fields<'a>(
    rs: Seq<ReadFileAt<'a>>,
    inputs: Seq<Seq<u8>>,
    steps: Seq<Step<FileRead>>,
    disks: Seq<Disk>,
    k: int,
)
    requires
        drives(read_file_at_next(), rs, inputs, steps, disks),
        0 <= k <= steps.len(),
    ensures
        rs[k].name == rs[0].name,
        rs[k].ext == rs[0].ext,
        rs[k].resolve.parts == rs[0].resolve.parts,
    decreases k,
{
    if k > 0 {
        lemma_read_at_fields(rs, inputs, steps, disks, k - 1);
        assert(rs[k - 1].next_step(inputs[k - 1], rs[k], steps[k - 1]));
    }
}

/// Read after write through the disk, for files under any path (the shell's `WRITE` and
/// `READ` in its working directory): a file that `create_file_at` reports written into the
/// directory that a path names, under a storable name that no file of that directory had, is
/// what `read_file_at` of that path and name reads next: a whole sector, the sector of its
/// data. This holds on a disk whose boot sector lays out the FAT, the root directory and the
/// data area one after another, with clusters of at least a sector once the path goes below
/// the root, and whose FAT marks taken the cluster of every directory that the path passes
/// into.
pub proof fn lemma_create_at_then_read_at<'a>(
    cs: Seq<CreateFileAt<'a>>,
    c_inputs: Seq<Seq<u8>>,
    c_steps: Seq<Step<bool>>,
    c_disks: Seq<Disk>,
    rs: Seq<ReadFileAt<'a>>,
    r_inputs: Seq<Seq<u8>>,
    r_steps: Seq<Step<FileRead>>,
    r_disks: Seq<Disk>,
)
    requires
        drives(create_file_at_next(), cs, c_inputs, c_steps, c_disks),
        cs[0].stage == CreateFileAtStage::Start,
        cs[0].resolve.stage == ResolveStage::Start,
        storable_name(cs[0].name@, 8),
        live_name(cs[0].name@),
        storable_name(cs[0].ext@, 3),
        sectors_whole(c_disks[0]),
        regions_apart(spec_layout(c_disks[0](0))),
        cs[0].resolve.parts@.len() > 0 ==> spec_layout(c_disks[0](0)).sectors_per_cluster > 0,
        walk_taken(
            c_disks[0],
            spec_layout(c_disks[0](0)),
            c_disks[0](spec_layout(c_disks[0](0)).fat_start),
            components_of(cs[0].resolve),
            0,
            spec_layout(c_disks[0](0)).root_start,
        ),
        walk_from(
            c_disks[0],
            spec_layout(c_disks[0](0)),
            components_of(cs[0].resolve),
            0,
            spec_layout(c_disks[0](0)).root_start,
        ) matches Some(path) ==> spec_find_entry(c_disks[0](path.last()), cs[0].name@, cs[0].ext@, false)
            is None,
        c_steps.len() > 0,
        c_steps.last() == Step::<bool>::Done(true),
        forall|k: int| 0 <= k < c_steps.len() - 1 ==> !(#[trigger] c_steps[k] is Done),
        drives(read_file_at_next(), rs, r_inputs, r_steps, r_disks),
        rs[0].stage == ReadFileAtStage::Start,
        rs[0].resolve.stage == ResolveStage::Start,
        components_of(rs[0].resolve) == components_of(cs[0].resolve),
        eq_ignore_ascii_case_chars(rs[0].name@, cs[0].name@),
        eq_ignore_ascii_case_chars(rs[0].ext@, cs[0].ext@),
        r_disks[0] == c_disks.last(),
        r_steps.len() >= cs[0].resolve.parts@.len() + 5,
    ensures
        r_steps[cs[0].resolve.parts@.len() as int + 4] matches Step::Done(fr) && reads_file(fr, 512, cs[0].data@),
{
    lemma_case_variants_scan_alike(rs[0].name@, rs[0].ext@, cs[0].name@, cs[0].ext@);
    let d0 = c_disks[0];
    let boot = d0(0);
    let l = spec_layout(boot);
    let parts = components_of(cs[0].resolve);
    let m = parts.len();
    assert(rs[0].resolve.parts@.len() == m) by {
        assert(components_of(rs[0].resolve).len() == m);
    }
    if m == 0 {
        assert(walk_from(d0, l, parts, 0, l.root_start) == Some(seq![l.root_start]));
        lemma_create_at_then_read_at_root(cs, c_inputs, c_steps, c_disks, rs, r_inputs, r_steps, r_disks);
    } else {
        let (p, s, c) = lemma_create_at_effect(cs, c_inputs, c_steps, c_disks);
        let f = c_disks.last();
        let path = walk_from(d0, l, parts, 0, l.root_start)->0;
        let e = file_entry(cs[0].name.spec_bytes(), cs[0].ext.spec_bytes(), c, cs[0].len);
        lemma_walk_kept(d0, f, l, parts, 0, l.root_start, path, e);

        // The boot sector, twice, then the root directory.
        assert(rs[0].next_step(r_inputs[0], rs[1], r_steps[0]));
        assert(r_steps[0] == Step::<FileRead>::Read(0));
        assert(r_disks[1] == f);
        assert(r_inputs[1] == boot);
        assert(rs[1].next_step(r_inputs[1], rs[2], r_steps[1]));
        assert(r_steps[1] == Step::<FileRead>::Read(0));
        assert(rs[2].stage == (ReadFileAtStage::Resolving { layout: l }));
        assert(rs[2].resolve.stage == ResolveStage::AwaitBoot);
        assert(rs[2].resolve.parts == rs[0].resolve.parts);
        assert(r_disks[2] == f);
        assert(r_inputs[2] == boot);
        assert(rs[2].next_step(r_inputs[2], rs[3], r_steps[2]));
        assert(r_steps[2] == Step::<FileRead>::Read(l.root_start));
        assert(r_disks[3] == f);
        assert(r_inputs[3] == f(l.root_start));
        assert(rs[3].resolve.parts == rs[0].resolve.parts);
        assert(components_of(rs[3].resolve) =~= parts);
        assert(rs[3].resolve.next == 0);

        // Down the path, to the directory, then the data.
        lemma_read_at_walk(rs, r_inputs, r_steps, r_disks, 3, l, l.root_start, f);
        let b: int = m as int + 3;
        assert(r_steps[b - 1] == Step::<FileRead>::Read(p));
        assert(rs[b].stage == (ReadFileAtStage::AwaitParent { layout: l }));
        assert(r_disks[b] == f);
        assert(r_inputs[b] == f(p));
        lemma_read_at_fields(rs, r_inputs, r_steps, r_disks, b);
        assert(rs[b].next_step(r_inputs[b], rs[b + 1], r_steps[b]));
        assert(r_steps[b] == Step::<FileRead>::Read(s));
        assert(r_disks[b + 1] == f);
        assert(r_inputs[b + 1] == cs[0].data@);
        assert(rs[b + 1].next_step(r_inputs[b + 1], rs[b + 2], r_steps[b + 1]));
    }
}

/// Whether at most one entry before the end of a directory is a live file or directory
/// named `name`.`ext`.
pub open spec fn named_once(dir: Seq<u8>, name: Seq<char>, ext: Seq<char>) -> bool {
    forall|j: int, k: int|
        0 <= j < DIR_ENTRIES && 0 <= k < DIR_ENTRIES && open_through(dir, j) && open_through(dir, k)
            && #[trigger] is_named(slot(dir, j), name, ext) && #[trigger] is_named(slot(dir, k), name, ext) ==> j
            == k
}

/// The entry that a scan found, once marked deleted, is the only one of its name no more:
/// when it was the only one, the scan finds nothing.
proof fn lemma_deleted_gone(dir: Seq<u8>, name: Seq<char>, ext: Seq<char>, i: int)
    requires
        dir.len() == 512,
        spec_find_file(dir, name, ext) == Some(i),
        named_once(dir, name, ext),
    ensures
        spec_find_file(dir.update(32 * i, DELETED_MARK), name, ext) is None,
{
    let d = dir.update(32 * i, DELETED_MARK);
    let hit = file_hit(name, ext);
    assert(first_hit_at(dir, hit, i)) by {
        assert(exists|x: int| first_hit_at(dir, hit, x));
    }
    if spec_find_file(d, name, ext) is Some {
        let k = choose|k: int| first_hit_at(d, hit, k);
        assert(first_hit_at(d, hit, k));
        assert(slot(d, i)[0] == DELETED_MARK);
        assert(k != i);
        assert(slot(d, k) =~= slot(dir, k));
        assert(slot(dir, i)[0] == dir[32 * i]);
        assert forall|j: int| 0 <= j < k implies #[trigger] dir[32 * j] != END_MARK by {
            assert(d[32 * j] != END_MARK);
            if j == i {
                assert(is_named(slot(dir, i), name, ext));
            }
        }
        assert(open_through(dir, k));
        assert(is_named(slot(dir, k), name, ext));
        assert(is_named(slot(dir, i), name, ext));
        assert(false);
    }
}

/// A file deleted is found no more: once `delete_file` of a name has finished, `read_file`
/// of that name reads nothing, when the root directory held at most one file of that name.
/// This holds on a disk whose root directory does not lie in the boot sector.
pub proof fn lemma_delete_then_read<'a>(
    ds: Seq<DeleteFile<'a>>,
    d_inputs: Seq<Seq<u8>>,
    d_steps: Seq<Step<bool>>,
    d_disks: Seq<Disk>,
    rs: Seq<ReadFile<'a>>,
    r_inputs: Seq<Seq<u8>>,
    r_steps: Seq<Step<FileRead>>,
    r_disks: Seq<Disk>,
)
    requires
        drives(delete_file_next(), ds, d_inputs, d_steps, d_disks),
        ds[0].stage == DeleteFileStage::Start,
        sectors_whole(d_disks[0]),
        spec_layout(d_disks[0](0)).root_start != 0,
        named_once(d_disks[0](spec_layout(d_disks[0](0)).root_start), ds[0].name@, ds[0].ext@),
        d_steps.len() > 0,
        d_steps.last() is Done,
        forall|k: int| 0 <= k < d_steps.len() - 1 ==> !(#[trigger] d_steps[k] is Done),
        drives(read_file_next(), rs, r_inputs, r_steps, r_disks),
        rs[0].stage == ReadFileStage::Start,
        eq_ignore_ascii_case_chars(rs[0].name@, ds[0].name@),
        eq_ignore_ascii_case_chars(rs[0].ext@, ds[0].ext@),
        r_disks[0] == d_disks.last(),
        r_steps.len() >= 3,
    ensures
        r_steps[2] == Step::Done(FileRead { size: 0, contents: None }),
{
    lemma_case_variants_scan_alike(rs[0].name@, rs[0].ext@, ds[0].name@, ds[0].ext@);
    let n = d_steps.len();
    let d0 = d_disks[0];
    let boot = d0(0);
    let l = spec_layout(boot);
    let root = d0(l.root_start);
    let x0 = ds[0];
    assert(x0.next_step(d_inputs[0], ds[1], d_steps[0]));
    assert(n > 1);
    assert(d_inputs[1] == boot);
    assert(ds[1].next_step(d_inputs[1], ds[2], d_steps[1]));
    assert(n > 2);
    assert(d_disks[2] == d0);
    assert(d_inputs[2] == root);
    assert(ds[2].next_step(d_inputs[2], ds[3], d_steps[2]));
    let new_root = match spec_find_file(root, x0.name@, x0.ext@) {
        Some(i) => root.update(32 * i, DELETED_MARK),
        None => root,
    };
    match spec_find_file(root, x0.name@, x0.ext@) {
        Some(i) => {
            assert(d_steps[2] matches Step::Write(t, d) && t == l.root_start && d@ == new_root);
            assert(n > 3);
            assert(d_disks[3] == disk_after(d0, d_steps[2]));
            assert(ds[3].next_step(d_inputs[3], ds[4], d_steps[3]));
            assert(n == 4);
            lemma_deleted_gone(root, x0.name@, x0.ext@, i);
        },
        None => {
            assert(n == 3);
        },
    }
    let f = d_disks.last();
    assert(f(0) == boot);
    assert(f(l.root_start) == new_root);
    assert(spec_find_file(new_root, x0.name@, x0.ext@) is None);
    assert(rs[0].next_step(r_inputs[0], rs[1], r_steps[0]));
    assert(r_disks[1] == f);
    assert(r_inputs[1] == boot);
    assert(rs[1].next_step(r_inputs[1], rs[2], r_steps[1]));
    assert(r_disks[2] == f);
    assert(r_inputs[2] == new_root);
    assert(rs[2].next_step(r_inputs[2], rs[3], r_steps[2]));
}

/// A drive of `create_dir_at` that has failed answers `Corrupt` to the end.
proof fn lemma_create_dir_at_failed_stays<'a>(
    cs: Seq<CreateDirAt<'a>>,
    inputs: Seq<Seq<u8>>,
    steps: Seq<Step<bool>>,
    disks: Seq<Disk>,
    k: int,
)
    requires
        drives(create_dir_at_next(), cs, inputs, steps, disks),
        0 <= k < steps.len(),
        cs[k].stage == CreateDirAtStage::Failed,
    ensures
        steps.last() == Step::<bool>::Corrupt,
    decreases steps.len() - k,
{
    assert(cs[k].next_step(inputs[k], cs[k + 1], steps[k]));
    if k + 1 < steps.len() {
        lemma_create_dir_at_failed_stays(cs, inputs, steps, disks, k + 1);
    }
}

/// Every state of a drive of `create_dir_at` makes the same directory, under the same path.
proof fn lemma_create_dir_at_fields<'a>(
    cs: Seq<CreateDirAt<'a>>,
    inputs: Seq<Seq<u8>>,
    steps: Seq<Step<bool>>,
    disks: Seq<Disk>,
    k: int,
)
    requires
        drives(create_dir_at_next(), cs, inputs, steps, disks),
        0 <= k <= steps.len(),
    ensures
        cs[k].name == cs[0].name,
        cs[k].resolve.parts == cs[0].resolve.parts,
    decreases k,
{
    if k > 0 {
        lemma_create_dir_at_fields(cs, inputs, steps, disks, k - 1);
        assert(cs[k - 1].next_step(inputs[k - 1], cs[k], steps[k - 1]));
    }
}

/// The walk inside a drive of `create_dir_at` that reports the directory made: from step
/// `j`, where it looks up component `next` in directory sector `cur`, it goes down the rest of
/// the path without touching the disk, and asks for the FAT once it has found the directory.
proof fn lemma_create_dir_at_walk<'a>(
    cs: Seq<CreateDirAt<'a>>,
    inputs: Seq<Seq<u8>>,
    steps: Seq<Step<bool>>,
    disks: Seq<Disk>,
    j: int,
    l: Layout,
    cur: u32,
    d: Disk,
)
    requires
        drives(create_dir_at_next(), cs, inputs, steps, disks),
        0 <= j < steps.len(),
        cs[j].stage == (CreateDirAtStage::Resolving { layout: l }),
        cs[j].resolve.stage == (ResolveStage::AwaitDir { layout: l, current: cur }),
        cs[j].resolve.next < cs[j].resolve.parts@.len(),
        inputs[j] == d(cur),
        disks[j] == d,
        steps.last() == Step::<bool>::Done(true),
        forall|k: int| 0 <= k < steps.len() - 1 ==> !(#[trigger] steps[k] is Done),
    ensures
        ({
            let parts = components_of(cs[j].resolve);
            let e = j + parts.len() - cs[j].resolve.next - 1;
            &&& walk_from(d, l, parts, cs[j].resolve.next as nat, cur) is Some
            &&& e + 1 < steps.len()
            &&& steps[e] == Step::<bool>::Read(l.fat_start)
            &&& cs[e + 1].stage == (CreateDirAtStage::AwaitFat {
                layout: l,
                parent: walk_from(d, l, parts, cs[j].resolve.next as nat, cur)->0.last(),
            })
            &&& disks[e + 1] == d
        }),
    decreases cs[j].resolve.parts@.len() - cs[j].resolve.next,
{
    let r = cs[j].resolve;
    let parts = components_of(r);
    let k = r.next;
    assert(cs[j].next_step(inputs[j], cs[j + 1], steps[j]));
    assert(parts[k as int] == r.part(k as int));
    let found = spec_find_entry(d(cur), parts[k as int], Seq::empty(), true);
    if found is None {
        assert(steps[j] == Step::<bool>::Done(false));
        assert(false);
    }
    let dc = found->0;
    if spec_cluster_sector(l, dc as int) is None {
        assert(cs[j + 1].stage == CreateDirAtStage::Failed);
        if j + 1 < steps.len() {
            lemma_create_dir_at_failed_stays(cs, inputs, steps, disks, j + 1);
        }
        assert(false);
    }
    let next = spec_cluster_sector(l, dc as int)->0;
    assert(steps[j] !is Done);
    assert(j + 1 < steps.len());
    assert(disks[j + 1] == d);
    assert(cs[j + 1].resolve.parts == r.parts);
    assert(components_of(cs[j + 1].resolve) =~= parts);
    if k + 1 == r.parts@.len() {
        assert(walk_from(d, l, parts, (k + 1) as nat, next) == Some(seq![next]));
        assert(walk_from(d, l, parts, k as nat, cur) == Some(seq![cur] + seq![next]));
        assert((seq![cur] + seq![next]).last() == next);
    } else {
        assert(steps[j] == Step::<bool>::Read(next));
        assert(inputs[j + 1] == d(next));
        vstd::std_specs::vec::axiom_spec_len(&r.parts);
        assert(cs[j + 1].resolve.next == k + 1);
        assert(cs[j + 1].resolve.stage == (ResolveStage::AwaitDir { layout: l, current: next }));
        lemma_create_dir_at_walk(cs, inputs, steps, disks, j + 1, l, next, d);
        let rest = walk_from(d, l, parts, (k + 1) as nat, next)->0;
        lemma_walk_nonempty(d, l, parts, (k + 1) as nat, next);
        assert((seq![cur] + rest).last() == rest.last());
    }
}

/// Going one component further: the walk down `parts` followed by `x` passes through the
/// directories of the walk down `parts`, then into `x` looked up in the directory reached.
proof fn lemma_walk_push(d: Disk, l: Layout, parts: Seq<Seq<char>>, x: Seq<char>, k: nat, cur: u32)
    requires
        walk_from(d, l, parts, k, cur) is Some,
        k <= parts.len(),
    ensures
        walk_from(d, l, parts.push(x), k, cur) == ({
            let path = walk_from(d, l, parts, k, cur)->0;
            match spec_find_entry(d(path.last()), x, Seq::empty(), true) {
                None => None,
                Some(dc) => match spec_cluster_sector(l, dc as int) {
                    None => None,
                    Some(s) => Some(path.push(s)),
                },
            }
        }),
    decreases parts.len() - k,
{
    let p2 = parts.push(x);
    let path = walk_from(d, l, parts, k, cur)->0;
    if k == parts.len() {
        assert(p2[k as int] == x);
        assert(path == seq![cur]);
        match spec_find_entry(d(cur), x, Seq::empty(), true) {
            None => {},
            Some(dc) => match spec_cluster_sector(l, dc as int) {
                None => {},
                Some(s) => {
                    assert(walk_from(d, l, p2, k + 1, s) == Some(seq![s]));
                    assert(seq![cur] + seq![s] =~= seq![cur].push(s));
                },
            },
        }
    } else {
        assert(p2[k as int] == parts[k as int]);
        let dc = spec_find_entry(d(cur), parts[k as int], Seq::empty(), true)->0;
        let next = spec_cluster_sector(l, dc as int)->0;
        lemma_walk_push(d, l, parts, x, k + 1, next);
        let rest = walk_from(d, l, parts, k + 1, next)->0;
        lemma_walk_nonempty(d, l, parts, k + 1, next);
        assert(path == seq![cur] + rest);
        assert(path.last() == rest.last());
        match spec_find_entry(d(rest.last()), x, Seq::empty(), true) {
            None => {},
            Some(dc2) => match spec_cluster_sector(l, dc2 as int) {
                None => {},
                Some(s) => {
                    assert(seq![cur] + rest.push(s) =~= (seq![cur] + rest).push(s));
                },
            },
        }
    }
}

/// Going one component further keeps the FAT marking taken every directory that the walk
/// passes into, when the FAT marks taken the one it goes into last.
proof fn lemma_walk_taken_push(
    d: Disk,
    l: Layout,
    fat: Seq<u8>,
    parts: Seq<Seq<char>>,
    x: Seq<char>,
    k: nat,
    cur: u32,
)
    requires
        walk_from(d, l, parts, k, cur) is Some,
        walk_taken(d, l, fat, parts, k, cur),
        k <= parts.len(),
        spec_find_entry(d(walk_from(d, l, parts, k, cur)->0.last()), x, Seq::empty(), true) matches Some(dc)
            ==> !is_free(fat, dc as int),
    ensures
        walk_taken(d, l, fat, parts.push(x), k, cur),
    decreases parts.len() - k,
{
    let p2 = parts.push(x);
    if k == parts.len() {
        assert(p2[k as int] == x);
        match spec_find_entry(d(cur), x, Seq::empty(), true) {
            None => {},
            Some(dc) => match spec_cluster_sector(l, dc as int) {
                None => {},
                Some(s) => {
                    assert(walk_taken(d, l, fat, p2, k + 1, s));
                },
            },
        }
    } else {
        assert(p2[k as int] == parts[k as int]);
        let dc = spec_find_entry(d(cur), parts[k as int], Seq::empty(), true)->0;
        let next = spec_cluster_sector(l, dc as int)->0;
        let rest = walk_from(d, l, parts, k + 1, next)->0;
        lemma_walk_nonempty(d, l, parts, k + 1, next);
        assert(walk_from(d, l, parts, k, cur)->0.last() == rest.last());
        lemma_walk_taken_push(d, l, fat, parts, x, k + 1, next);
    }
}

/// The FAT marking taken the directories of a walk carries over to a disk that differs only
/// in the sector of the directory the walk reaches, where an entry was put in the first free
/// slot, and to a FAT that marks taken at least what the first one did.
proof fn lemma_walk_taken_kept(
    d: Disk,
    f: Disk,
    l: Layout,
    fat: Seq<u8>,
    fat2: Seq<u8>,
    parts: Seq<Seq<char>>,
    k: nat,
    cur: u32,
    path: Seq<u32>,
    e: Seq<u8>,
)
    requires
        walk_from(d, l, parts, k, cur) == Some(path),
        walk_taken(d, l, fat, parts, k, cur),
        forall|c: int| !is_free(fat, c) ==> !#[trigger] is_free(fat2, c),
        forall|x: u32| path.contains(x) && x != path.last() ==> f(x) == d(x),
        d(path.last()).len() == 512,
        e.len() == 32,
        spec_insert(d(path.last()), e, Some(f(path.last()))),
    ensures
        walk_taken(f, l, fat2, parts, k, cur),
    decreases parts.len() - k,
{
    if k < parts.len() {
        let part = parts[k as int];
        let hit = kind_hit(part, Seq::empty(), true);
        let dc = spec_find_entry(d(cur), part, Seq::empty(), true)->0;
        let next = spec_cluster_sector(l, dc as int)->0;
        let rest = walk_from(d, l, parts, k + 1, next)->0;
        assert(path == seq![cur] + rest);
        assert(path[0] == cur);
        assert(path.contains(cur));
        lemma_walk_nonempty(d, l, parts, k + 1, next);
        assert(path.last() == rest.last());
        if cur == path.last() {
            let j = first_hit(d(cur), hit)->0;
            assert forall|x: Seq<u8>| #[trigger] hit(x) implies x[0] != END_MARK by {}
            lemma_insert_keeps_hit(d(cur), e, f(cur), hit, j);
        }
        assert(spec_find_entry(f(cur), part, Seq::empty(), true) == Some(dc));
        assert(!is_free(fat2, dc as int));
        assert forall|x: u32| rest.contains(x) && x != rest.last() implies f(x) == d(x) by {
            let i = choose|i: int| 0 <= i < rest.len() && rest[i] == x;
            assert(path[i + 1] == x);
            assert(path.contains(x));
        }
        lemma_walk_taken_kept(d, f, l, fat, fat2, parts, k + 1, next, rest, e);
    }
}

/// A directory made is found, empty and taken: once `create_dir_at` reports the directory
/// `name` made under a path, where the directory of the path had no directory of that
/// (storable) name, the walk down the path followed by `name` reaches a sector of zeros,
/// and the FAT marks taken every directory on the way. So the new directory is one that
/// `lemma_create_at_then_read_at` applies to. This holds on a disk whose boot sector lays
/// out the FAT, the root directory and the data area one after another, with clusters of at
/// least a sector once the path goes below the root, and whose FAT marks taken the cluster of
/// every directory that the path passes into.
pub proof fn lemma_create_dir_at_found<'a>(
    cs: Seq<CreateDirAt<'a>>,
    inputs: Seq<Seq<u8>>,
    steps: Seq<Step<bool>>,
    disks: Seq<Disk>,
)
    requires
        drives(create_dir_at_next(), cs, inputs, steps, disks),
        cs[0].stage == CreateDirAtStage::Start,
        cs[0].resolve.stage == ResolveStage::Start,
        storable_name(cs[0].name@, 8),
        live_name(cs[0].name@),
        sectors_whole(disks[0]),
        regions_apart(spec_layout(disks[0](0))),
        cs[0].resolve.parts@.len() > 0 ==> spec_layout(disks[0](0)).sectors_per_cluster > 0,
        walk_taken(
            disks[0],
            spec_layout(disks[0](0)),
            disks[0](spec_layout(disks[0](0)).fat_start),
            components_of(cs[0].resolve),
            0,
            spec_layout(disks[0](0)).root_start,
        ),
        walk_from(
            disks[0],
            spec_layout(disks[0](0)),
            components_of(cs[0].resolve),
            0,
            spec_layout(disks[0](0)).root_start,
        ) matches Some(path) ==> spec_find_entry(disks[0](path.last()), cs[0].name@, Seq::empty(), true)
            is None,
        steps.len() > 0,
        steps.last() == Step::<bool>::Done(true),
        forall|k: int| 0 <= k < steps.len() - 1 ==> !(#[trigger] steps[k] is Done),
    ensures
        ({
            let f = disks.last();
            let l = spec_layout(disks[0](0));
            let parts2 = components_of(cs[0].resolve).push(cs[0].name@);
            &&& f(0) == disks[0](0)
            &&& sectors_whole(f)
            &&& walk_from(f, l, parts2, 0, l.root_start) matches Some(path2) && f(path2.last())
                == zero_sector()
            &&& walk_taken(f, l, f(l.fat_start), parts2, 0, l.root_start)
        }),
{
    let n = steps.len();
    let c0 = cs[0];
    let d0 = disks[0];
    let boot = d0(0);
    let l = spec_layout(boot);
    let fat = d0(l.fat_start);
    let root = l.root_start;
    let parts = components_of(c0.resolve);
    let m = parts.len();

    // The boot sector twice, then the root directory and the rest of the path.
    assert(c0.next_step(inputs[0], cs[1], steps[0]));
    assert(n > 1);
    assert(inputs[1] == boot);
    assert(cs[1].next_step(inputs[1], cs[2], steps[1]));
    assert(steps[1] == Step::<bool>::Read(0));
    assert(cs[2].stage == (CreateDirAtStage::Resolving { layout: l }));
    assert(cs[2].resolve.stage == ResolveStage::AwaitBoot);
    assert(cs[2].resolve.parts == c0.resolve.parts);
    assert(n > 2);
    assert(disks[2] == d0);
    assert(inputs[2] == boot);
    assert(cs[2].next_step(inputs[2], cs[3], steps[2]));
    let b: int = m as int + 3;
    if m == 0 {
        assert(walk_from(d0, l, parts, 0, root) == Some(seq![root]));
        assert(steps[2] == Step::<bool>::Read(l.fat_start));
        assert(cs[3].stage == (CreateDirAtStage::AwaitFat { layout: l, parent: root }));
        assert(n > 3);
        assert(disks[3] == d0);
    } else {
        assert(steps[2] == Step::<bool>::Read(root));
        assert(n > 3);
        assert(disks[3] == d0);
        assert(inputs[3] == d0(root));
        assert(cs[3].resolve.parts == c0.resolve.parts);
        assert(components_of(cs[3].resolve) =~= parts);
        assert(cs[3].resolve.next == 0);
        lemma_create_dir_at_walk(cs, inputs, steps, disks, 3, l, root, d0);
    }
    let path = walk_from(d0, l, parts, 0, root)->0;
    let p = path.last();
    assert(steps[b - 1] == Step::<bool>::Read(l.fat_start));
    assert(cs[b].stage == (CreateDirAtStage::AwaitFat { layout: l, parent: p }));
    assert(disks[b] == d0);
    assert(inputs[b] == fat);
    lemma_create_dir_at_fields(cs, inputs, steps, disks, b);

    // The FAT, the FAT again, the new directory's sector, then the directory reached.
    assert(cs[b].next_step(inputs[b], cs[b + 1], steps[b]));
    if lowest_free(fat) is None {
        assert(steps[b] == Step::<bool>::Done(false));
        assert(false);
    }
    let c = lowest_free(fat)->0;
    assert(first_free(fat, Some(c)));
    assert(is_free(fat, c as int));
    lemma_data_sector_in_data_area(boot, c as int);
    let s = spec_cluster_sector(l, c as int)->0;
    lemma_walk_nonempty(d0, l, parts, 0, root);
    lemma_walk_len(d0, l, parts, 0, root);
    if m > 0 {
        lemma_walk_avoids(d0, boot, fat, parts, 0, root, c as int);
        assert(p == path[path.len() - 1]);
    }
    assert(p != s && p != l.fat_start && p != 0);
    assert(steps[b] == Step::<bool>::Read(l.fat_start));
    assert(n > b + 1);
    assert(disks[b + 1] == d0);
    assert(inputs[b + 1] == fat);
    assert(cs[b + 1].next_step(inputs[b + 1], cs[b + 2], steps[b + 1]));
    let marked = spec_mark_used(fat, c as int);
    let fat_step = steps[b + 1];
    assert(fat_step matches Step::Write(t, d) && t == l.fat_start && d@ == marked);
    assert(n > b + 2);
    let d2 = disks[b + 2];
    assert(d2 == disk_after(d0, fat_step));
    assert(cs[b + 2].next_step(inputs[b + 2], cs[b + 3], steps[b + 2]));
    let zero_step = steps[b + 2];
    assert(zero_step matches Step::Write(t, d) && t == s && d@ == zero_sector());
    assert(n > b + 3);
    let d3 = disks[b + 3];
    assert(d3 == disk_after(d2, zero_step));
    assert(cs[b + 3].next_step(inputs[b + 3], cs[b + 4], steps[b + 3]));
    assert(steps[b + 3] == Step::<bool>::Read(p));
    assert(n > b + 4);
    assert(disks[b + 4] == d3);
    assert(inputs[b + 4] == d0(p));
    lemma_create_dir_at_fields(cs, inputs, steps, disks, b + 4);
    assert(cs[b + 4].next_step(inputs[b + 4], cs[b + 5], steps[b + 4]));
    let e = dir_entry(c0.name.spec_bytes(), c, true);
    if inserted(d0(p), e) is None {
        assert(steps[b + 4] == Step::<bool>::Done(false));
        assert(false);
    }
    let new_dir = inserted(d0(p), e)->0;
    let dir_step = steps[b + 4];
    assert(dir_step matches Step::Write(t, d) && t == p && d@ == new_dir);
    assert(n > b + 5);
    let d5 = disks[b + 5];
    assert(d5 == disk_after(d3, dir_step));
    assert(cs[b + 5].next_step(inputs[b + 5], cs[b + 6], steps[b + 5]));
    assert(steps[b + 5] is Done);
    assert(n == b + 6);
    assert(disks.last() == d5);

    // What the disk holds after it.
    assert(d5(0) == boot);
    assert(d5(l.fat_start) == marked);
    assert(d5(s) == zero_sector());
    assert(d5(p) == new_dir);
    assert(sectors_whole(d5)) by {
        assert forall|x: u32| #[trigger] d5(x).len() == 512 by {
            assert(d0(x).len() == 512);
        }
    }
    assert forall|x: u32| path.contains(x) && x != p implies d5(x) == d0(x) by {
        let i = choose|i: int| 0 <= i < path.len() && path[i] == x;
        if i >= 1 {
            assert(Some(path[i]) != spec_cluster_sector(l, c as int));
        }
    }
    let i = first_free_slot(d0(p))->0;
    assert(free_slot(d0(p), Some(i)));
    assert(spec_insert(d0(p), e, Some(new_dir)));
    lemma_dir_entry_found(d0(p), new_dir, c0.name@, c);

    // The walk down the path, then into the new directory.
    lemma_walk_kept(d0, d5, l, parts, 0, root, path, e);
    lemma_walk_push(d5, l, parts, c0.name@, 0, root);
    assert(fat.len() == 512);
    assert forall|k: int| !is_free(fat, k) implies !#[trigger] is_free(marked, k) by {
        if 2 <= k < 256 && k != c {
            assert(marked[2 * k] == fat[2 * k]);
            assert(marked[2 * k + 1] == fat[2 * k + 1]);
        }
    }
    lemma_walk_taken_kept(d0, d5, l, fat, marked, parts, 0, root, path, e);
    lemma_walk_taken_push(d5, l, marked, parts, c0.name@, 0, root);
}

/// A directory sector of zeros holds no entry: its first entry ends the directory.
proof fn lemma_zero_dir_empty(name: Seq<char>, ext: Seq<char>, is_dir: bool)
    ensures
        spec_find_entry(zero_sector(), name, ext, is_dir) is None,
{
    let z = zero_sector();
    let hit = kind_hit(name, ext, is_dir);
    if exists|i: int| first_hit_at(z, hit, i) {
        let i = choose|i: int| first_hit_at(z, hit, i);
        assert(z[32 * i] == 0u8);
        if i > 0 {
            assert(z[32 * 0int] != END_MARK);
        }
        assert(slot(z, i)[0] == z[32 * i]);
        assert(false);
    }
}

/// A file written into a directory just made reads back: after `create_dir_at` makes
/// `name` under a path, `create_file_at` under that path followed by `name` reports the file
/// written, and `read_file_at` of the same path and file name reads a whole sector, the
/// sector of the file's data. This holds on a disk as `lemma_create_dir_at_found` asks for.
pub proof fn lemma_mkdir_then_write_then_read<'a>(
    ms: Seq<CreateDirAt<'a>>,
    m_inputs: Seq<Seq<u8>>,
    m_steps: Seq<Step<bool>>,
    m_disks: Seq<Disk>,
    cs: Seq<CreateFileAt<'a>>,
    c_inputs: Seq<Seq<u8>>,
    c_steps: Seq<Step<bool>>,
    c_disks: Seq<Disk>,
    rs: Seq<ReadFileAt<'a>>,
    r_inputs: Seq<Seq<u8>>,
    r_steps: Seq<Step<FileRead>>,
    r_disks: Seq<Disk>,
)
    requires
        drives(create_dir_at_next(), ms, m_inputs, m_steps, m_disks),
        ms[0].stage == CreateDirAtStage::Start,
        ms[0].resolve.stage == ResolveStage::Start,
        storable_name(ms[0].name@, 8),
        live_name(ms[0].name@),
        sectors_whole(m_disks[0]),
        regions_apart(spec_layout(m_disks[0](0))),
        spec_layout(m_disks[0](0)).sectors_per_cluster > 0,
        walk_taken(
            m_disks[0],
            spec_layout(m_disks[0](0)),
            m_disks[0](spec_layout(m_disks[0](0)).fat_start),
            components_of(ms[0].resolve),
            0,
            spec_layout(m_disks[0](0)).root_start,
        ),
        walk_from(
            m_disks[0],
            spec_layout(m_disks[0](0)),
            components_of(ms[0].resolve),
            0,
            spec_layout(m_disks[0](0)).root_start,
        ) matches Some(path) ==> spec_find_entry(m_disks[0](path.last()), ms[0].name@, Seq::empty(), true)
            is None,
        m_steps.len() > 0,
        m_steps.last() == Step::<bool>::Done(true),
        forall|k: int| 0 <= k < m_steps.len() - 1 ==> !(#[trigger] m_steps[k] is Done),
        drives(create_file_at_next(), cs, c_inputs, c_steps, c_disks),
        cs[0].stage == CreateFileAtStage::Start,
        cs[0].resolve.stage == ResolveStage::Start,
        components_of(cs[0].resolve) == components_of(ms[0].resolve).push(ms[0].name@),
        storable_name(cs[0].name@, 8),
        live_name(cs[0].name@),
        storable_name(cs[0].ext@, 3),
        c_disks[0] == m_disks.last(),
        c_steps.len() > 0,
        c_steps.last() == Step::<bool>::Done(true),
        forall|k: int| 0 <= k < c_steps.len() - 1 ==> !(#[trigger] c_steps[k] is Done),
        drives(read_file_at_next(), rs, r_inputs, r_steps, r_disks),
        rs[0].stage == ReadFileAtStage::Start,
        rs[0].resolve.stage == ResolveStage::Start,
        components_of(rs[0].resolve) == components_of(cs[0].resolve),
        eq_ignore_ascii_case_chars(rs[0].name@, cs[0].name@),
        eq_ignore_ascii_case_chars(rs[0].ext@, cs[0].ext@),
        r_disks[0] == c_disks.last(),
        r_steps.len() >= cs[0].resolve.parts@.len() + 5,
    ensures
        r_steps[cs[0].resolve.parts@.len() as int + 4] matches Step::Done(fr) && reads_file(fr, 512, cs[0].data@),
{
    lemma_create_dir_at_found(ms, m_inputs, m_steps, m_disks);
    lemma_zero_dir_empty(cs[0].name@, cs[0].ext@, false);
    assert(cs[0].resolve.parts@.len() > 0) by {
        assert(components_of(cs[0].resolve).len() > 0);
    }
    lemma_create_at_then_read_at(cs, c_inputs, c_steps, c_disks, rs, r_inputs, r_steps, r_disks);
}

/// What a drive of `create_dir` that reports the directory made leaves on the disk: the boot
/// sector as it was, every sector whole, the directory found in the root directory under its
/// name with its cluster marked taken, and that cluster's sector all zeros.
proof fn lemma_create_dir_effect<'a>(
    ms: Seq<CreateDir<'a>>,
    inputs: Seq<Seq<u8>>,
    steps: Seq<Step<bool>>,
    disks: Seq<Disk>,
)
    requires
        drives(create_dir_next(), ms, inputs, steps, disks),
        ms[0].stage == CreateDirStage::Start,
        storable_name(ms[0].name@, 8),
        live_name(ms[0].name@),
        sectors_whole(disks[0]),
        regions_apart(spec_layout(disks[0](0))),
        root_dir_cluster(disks[0], ms[0].name@) is None,
        steps.len() > 0,
        steps.last() == Step::<bool>::Done(true),
        forall|k: int| 0 <= k < steps.len() - 1 ==> !(#[trigger] steps[k] is Done),
    ensures
        ({
            let f = disks.last();
            let l = spec_layout(disks[0](0));
            &&& f(0) == disks[0](0)
            &&& sectors_whole(f)
            &&& root_dir_cluster_taken(f, ms[0].name@)
            &&& root_dir_cluster(f, ms[0].name@) matches Some(dc) && spec_cluster_sector(l, dc as int) matches Some(
                ds,
            ) && f(ds) == zero_sector()
        }),
{
    let n = steps.len();
    let m0 = ms[0];
    let d0 = disks[0];
    let boot = d0(0);
    let l = spec_layout(boot);
    let fat = d0(l.fat_start);
    let root = d0(l.root_start);
    assert(m0.next_step(inputs[0], ms[1], steps[0]));
    assert(n > 1);
    assert(inputs[1] == boot);
    assert(ms[1].next_step(inputs[1], ms[2], steps[1]));
    assert(steps[1] == Step::<bool>::Read(l.fat_start));
    assert(n > 2);
    assert(disks[2] == d0);
    assert(inputs[2] == fat);
    assert(ms[2].next_step(inputs[2], ms[3], steps[2]));
    if lowest_free(fat) is None {
        assert(steps[2] == Step::<bool>::Done(false));
        assert(false);
    }
    let c = lowest_free(fat)->0;
    assert(first_free(fat, Some(c)));
    assert(is_free(fat, c as int));
    lemma_data_sector_in_data_area(boot, c as int);
    let s = spec_cluster_sector(l, c as int)->0;
    assert(steps[2] == Step::<bool>::Read(l.fat_start));
    assert(n > 3);
    assert(disks[3] == d0);
    assert(inputs[3] == fat);
    assert(ms[3].next_step(inputs[3], ms[4], steps[3]));
    let marked = spec_mark_used(fat, c as int);
    let fat_step = steps[3];
    assert(fat_step matches Step::Write(t, d) && t == l.fat_start && d@ == marked);
    assert(n > 4);
    let d4 = disks[4];
    assert(d4 == disk_after(d0, fat_step));
    assert(ms[4].next_step(inputs[4], ms[5], steps[4]));
    let zero_step = steps[4];
    assert(zero_step matches Step::Write(t, d) && t == s && d@ == zero_sector());
    assert(n > 5);
    let d5 = disks[5];
    assert(d5 == disk_after(d4, zero_step));
    assert(ms[5].next_step(inputs[5], ms[6], steps[5]));
    assert(steps[5] == Step::<bool>::Read(l.root_start));
    assert(n > 6);
    assert(disks[6] == d5);
    assert(inputs[6] == root);
    assert(ms[6].next_step(inputs[6], ms[7], steps[6]));
    let e = dir_entry(m0.name.spec_bytes(), c, true);
    if inserted(root, e) is None {
        assert(steps[6] == Step::<bool>::Done(false));
        assert(false);
    }
    let new_root = inserted(root, e)->0;
    let root_step = steps[6];
    assert(root_step matches Step::Write(t, d) && t == l.root_start && d@ == new_root);
    assert(n > 7);
    let d7 = disks[7];
    assert(d7 == disk_after(d5, root_step));
    assert(ms[7].next_step(inputs[7], ms[8], steps[7]));
    assert(steps[7] is Done);
    assert(n == 8);
    assert(disks.last() == d7);
    assert(d7(0) == boot);
    assert(d7(l.fat_start) == marked);
    assert(d7(l.root_start) == new_root);
    assert(d7(s) == zero_sector());
    assert(sectors_whole(d7)) by {
        assert forall|x: u32| #[trigger] d7(x).len() == 512 by {
            assert(d0(x).len() == 512);
        }
    }
    let i = first_free_slot(root)->0;
    assert(free_slot(root, Some(i)));
    assert(spec_insert(root, e, Some(new_root)));
    lemma_dir_entry_found(root, new_root, m0.name@, c);
    assert(root_dir_cluster(d7, m0.name@) == Some(c));
    assert(fat.len() == 512);
    assert(!is_free(marked, c as int));
}

/// A file written into a directory just made in the root reads back: after `create_dir`
/// makes `dir`, where the root directory had no directory of that name, `create_file_in`
/// of `dir` reports the file written, and `read_file_in` of `dir` (or a name equal to it
/// without regard to ASCII case) and the file's name reads a whole sector, the sector of
/// the file's data. This holds on a disk whose boot sector lays out the FAT, the root
/// directory and the data area one after another, with clusters of at least a sector.
pub proof fn lemma_create_dir_then_write_in_then_read_in<'a>(
    ms: Seq<CreateDir<'a>>,
    m_inputs: Seq<Seq<u8>>,
    m_steps: Seq<Step<bool>>,
    m_disks: Seq<Disk>,
    cs: Seq<CreateFileIn<'a>>,
    c_inputs: Seq<Seq<u8>>,
    c_steps: Seq<Step<bool>>,
    c_disks: Seq<Disk>,
    rs: Seq<ReadFileIn<'a>>,
    r_inputs: Seq<Seq<u8>>,
    r_steps: Seq<Step<FileRead>>,
    r_disks: Seq<Disk>,
)
    requires
        drives(create_dir_next(), ms, m_inputs, m_steps, m_disks),
        ms[0].stage == CreateDirStage::Start,
        storable_name(ms[0].name@, 8),
        live_name(ms[0].name@),
        sectors_whole(m_disks[0]),
        regions_apart(spec_layout(m_disks[0](0))),
        spec_layout(m_disks[0](0)).sectors_per_cluster > 0,
        root_dir_cluster(m_disks[0], ms[0].name@) is None,
        m_steps.len() > 0,
        m_steps.last() == Step::<bool>::Done(true),
        forall|k: int| 0 <= k < m_steps.len() - 1 ==> !(#[trigger] m_steps[k] is Done),
        drives(create_file_in_next(), cs, c_inputs, c_steps, c_disks),
        cs[0].stage == CreateFileInStage::Start,
        cs[0].dir@ == ms[0].name@,
        storable_name(cs[0].name@, 8),
        live_name(cs[0].name@),
        storable_name(cs[0].ext@, 3),
        c_disks[0] == m_disks.last(),
        c_steps.len() > 0,
        c_steps.last() == Step::<bool>::Done(true),
        forall|k: int| 0 <= k < c_steps.len() - 1 ==> !(#[trigger] c_steps[k] is Done),
        drives(read_file_in_next(), rs, r_inputs, r_steps, r_disks),
        rs[0].stage == ReadFileInStage::Start,
        eq_ignore_ascii_case_chars(rs[0].dir@, cs[0].dir@),
        eq_ignore_ascii_case_chars(rs[0].name@, cs[0].name@),
        eq_ignore_ascii_case_chars(rs[0].ext@, cs[0].ext@),
        r_disks[0] == c_disks.last(),
        r_steps.len() >= 5,
    ensures
        r_steps[4] matches Step::Done(fr) && reads_file(fr, 512, cs[0].data@),
{
    lemma_create_dir_effect(ms, m_inputs, m_steps, m_disks);
    lemma_zero_dir_empty(cs[0].name@, cs[0].ext@, false);
    lemma_create_in_then_read_in(cs, c_inputs, c_steps, c_disks, rs, r_inputs, r_steps, r_disks);
}

/// Making a directory under a path with no components (such as `/` or the empty path) is
/// making it in the root directory: when `create_dir_at` and `create_dir` of the same name
/// are driven to their end against the same disk, they report the same result and leave the
/// same disk.
pub proof fn lemma_create_dir_at_root_is_create_dir<'a>(
    ms: Seq<CreateDir<'a>>,
    m_inputs: Seq<Seq<u8>>,
    m_steps: Seq<Step<bool>>,
    m_disks: Seq<Disk>,
    ps: Seq<CreateDirAt<'a>>,
    p_inputs: Seq<Seq<u8>>,
    p_steps: Seq<Step<bool>>,
    p_disks: Seq<Disk>,
)
    requires
        drives(create_dir_next(), ms, m_inputs, m_steps, m_disks),
        ms[0].stage == CreateDirStage::Start,
        m_steps.len() > 0,
        m_steps.last() is Done,
        forall|k: int| 0 <= k < m_steps.len() - 1 ==> !(#[trigger] m_steps[k] is Done),
        drives(create_dir_at_next(), ps, p_inputs, p_steps, p_disks),
        ps[0].stage == CreateDirAtStage::Start,
        ps[0].resolve.stage == ResolveStage::Start,
        ps[0].resolve.parts@.len() == 0,
        ps[0].name@ == ms[0].name@,
        p_disks[0] == m_disks[0],
        p_steps.len() > 0,
        p_steps.last() is Done,
        forall|k: int| 0 <= k < p_steps.len() - 1 ==> !(#[trigger] p_steps[k] is Done),
    ensures
        p_steps.last() == m_steps.last(),
        p_disks.last() == m_disks.last(),
{
    let n = m_steps.len();
    let q = p_steps.len();
    let d0 = m_disks[0];
    let boot = d0(0);
    let l = spec_layout(boot);
    let fat = d0(l.fat_start);
    // The first steps of each: the boot sector (twice for the path form), then the FAT.
    assert(ms[0].next_step(m_inputs[0], ms[1], m_steps[0]));
    assert(n > 1);
    assert(m_inputs[1] == boot);
    assert(ms[1].next_step(m_inputs[1], ms[2], m_steps[1]));
    assert(n > 2);
    assert(m_disks[2] == d0);
    assert(m_inputs[2] == fat);
    assert(ms[2].next_step(m_inputs[2], ms[3], m_steps[2]));
    assert(ps[0].next_step(p_inputs[0], ps[1], p_steps[0]));
    assert(q > 1);
    assert(p_inputs[1] == boot);
    assert(ps[1].next_step(p_inputs[1], ps[2], p_steps[1]));
    assert(q > 2);
    assert(p_disks[2] == d0);
    assert(p_inputs[2] == boot);
    assert(ps[2].next_step(p_inputs[2], ps[3], p_steps[2]));
    assert(p_steps[2] == Step::<bool>::Read(l.fat_start));
    assert(q > 3);
    assert(p_disks[3] == d0);
    assert(p_inputs[3] == fat);
    assert(ps[3].next_step(p_inputs[3], ps[4], p_steps[3]));
    if lowest_free(fat) is None {
        assert(m_steps[2] == Step::<bool>::Done(false));
        assert(n == 3);
        assert(p_steps[3] == Step::<bool>::Done(false));
        assert(q == 4);
    } else {
        let c = lowest_free(fat)->0;
        assert(first_free(fat, Some(c)));
        lemma_data_sector_in_data_area(boot, c as int);
        let s = spec_cluster_sector(l, c as int)->0;
        let marked = spec_mark_used(fat, c as int);
        // The FAT again, then the marked FAT and the zeroed cluster.
        assert(n > 3 && q > 4);
        assert(m_inputs[3] == fat && p_inputs[4] == fat);
        assert(ms[3].next_step(m_inputs[3], ms[4], m_steps[3]));
        assert(ps[4].next_step(p_inputs[4], ps[5], p_steps[4]));
        assert(n > 4 && q > 5);
        assert(ms[4].next_step(m_inputs[4], ms[5], m_steps[4]));
        assert(ps[5].next_step(p_inputs[5], ps[6], p_steps[5]));
        assert(n > 5 && q > 6);
        let fa = m_steps[3];
        let fb = p_steps[4];
        let za = m_steps[4];
        let zb = p_steps[5];
        assert(fa matches Step::Write(t, d) && t == l.fat_start && d@ == marked);
        assert(fb matches Step::Write(t, d) && t == l.fat_start && d@ == marked);
        assert(za matches Step::Write(t, d) && t == s && d@ == zero_sector());
        assert(zb matches Step::Write(t, d) && t == s && d@ == zero_sector());
        let a5 = m_disks[5];
        let b6 = p_disks[6];
        assert(a5 == disk_after(disk_after(d0, fa), za));
        assert(b6 == disk_after(disk_after(d0, fb), zb));
        assert forall|x: u32| #[trigger] a5(x) == b6(x) by {}
        assert(a5 =~= b6);
        // The root directory, then the entry.
        assert(ms[5].next_step(m_inputs[5], ms[6], m_steps[5]));
        assert(ps[6].next_step(p_inputs[6], ps[7], p_steps[6]));
        assert(n > 6 && q > 7);
        assert(m_disks[6] == a5 && p_disks[7] == b6);
        let root = a5(l.root_start);
        assert(m_inputs[6] == root && p_inputs[7] == root);
        lemma_create_dir_at_fields(ps, p_inputs, p_steps, p_disks, 7);
        assert(ms[6].next_step(m_inputs[6], ms[7], m_steps[6]));
        assert(ps[7].next_step(p_inputs[7], ps[8], p_steps[7]));
        let e = dir_entry(ms[0].name.spec_bytes(), c, true);
        if inserted(root, e) is None {
            assert(n == 7 && q == 8);
        } else {
            let new_root = inserted(root, e)->0;
            let ra = m_steps[6];
            let rb = p_steps[7];
            assert(ra matches Step::Write(t, d) && t == l.root_start && d@ == new_root);
            assert(rb matches Step::Write(t, d) && t == l.root_start && d@ == new_root);
            assert(n > 7 && q > 8);
            assert(ms[7].next_step(m_inputs[7], ms[8], m_steps[7]));
            assert(ps[8].next_step(p_inputs[8], ps[9], p_steps[8]));
            assert(n == 8 && q == 9);
            let a7 = m_disks[7];
            let b8 = p_disks[8];
            assert(a7 == disk_after(a5, ra));
            assert(b8 == disk_after(b6, rb));
            assert forall|x: u32| #[trigger] a7(x) == b8(x) by {}
            assert(a7 =~= b8);
        }
    }
}

/// Writing a file under a path of one component is writing it into that directory of the
/// root directory: when `create_file_at` and `create_file_in` of the same directory, name,
/// extension and contents are driven to their end against the same disk, they report the same
/// result and leave the same disk.
pub proof fn lemma_create_file_at_one_is_create_file_in<'a>(
    cs: Seq<CreateFileIn<'a>>,
    c_inputs: Seq<Seq<u8>>,
    c_steps: Seq<Step<bool>>,
    c_disks: Seq<Disk>,
    ps: Seq<CreateFileAt<'a>>,
    p_inputs: Seq<Seq<u8>>,
    p_steps: Seq<Step<bool>>,
    p_disks: Seq<Disk>,
)
    requires
        drives(create_file_in_next(), cs, c_inputs, c_steps, c_disks),
        cs[0].stage == CreateFileInStage::Start,
        c_steps.len() > 0,
        c_steps.last() is Done,
        forall|k: int| 0 <= k < c_steps.len() - 1 ==> !(#[trigger] c_steps[k] is Done),
        drives(create_file_at_next(), ps, p_inputs, p_steps, p_disks),
        ps[0].stage == CreateFileAtStage::Start,
        ps[0].resolve.stage == ResolveStage::Start,
        components_of(ps[0].resolve) == seq![cs[0].dir@],
        ps[0].name@ == cs[0].name@,
        ps[0].ext@ == cs[0].ext@,
        ps[0].data == cs[0].data,
        ps[0].len == cs[0].len,
        p_disks[0] == c_disks[0],
        p_steps.len() > 0,
        p_steps.last() is Done,
        forall|k: int| 0 <= k < p_steps.len() - 1 ==> !(#[trigger] p_steps[k] is Done),
    ensures
        p_steps.last() == c_steps.last(),
        p_disks.last() == c_disks.last(),
{
    let n = c_steps.len();
    let q = p_steps.len();
    let d0 = c_disks[0];
    let boot = d0(0);
    let l = spec_layout(boot);
    let root = d0(l.root_start);
    let fat = d0(l.fat_start);
    let c0 = cs[0];
    assert(ps[0].resolve.parts@.len() == 1) by {
        assert(components_of(ps[0].resolve).len() == 1);
    }
    assert(ps[0].resolve.part(0) == c0.dir@) by {
        assert(components_of(ps[0].resolve)[0] == c0.dir@);
    }
    // The boot sector, then the root directory.
    assert(cs[0].next_step(c_inputs[0], cs[1], c_steps[0]));
    assert(n > 1);
    assert(c_inputs[1] == boot);
    assert(cs[1].next_step(c_inputs[1], cs[2], c_steps[1]));
    assert(n > 2);
    assert(c_disks[2] == d0);
    assert(c_inputs[2] == root);
    assert(cs[2].next_step(c_inputs[2], cs[3], c_steps[2]));
    assert(ps[0].next_step(p_inputs[0], ps[1], p_steps[0]));
    assert(q > 1);
    assert(p_inputs[1] == boot);
    assert(ps[1].next_step(p_inputs[1], ps[2], p_steps[1]));
    assert(q > 2);
    assert(p_disks[2] == d0);
    assert(p_inputs[2] == boot);
    assert(ps[2].next_step(p_inputs[2], ps[3], p_steps[2]));
    assert(p_steps[2] == Step::<bool>::Read(l.root_start));
    assert(q > 3);
    assert(p_disks[3] == d0);
    assert(p_inputs[3] == root);
    assert(ps[3].resolve.parts == ps[0].resolve.parts);
    assert(ps[3].resolve.next == 0);
    assert(ps[3].next_step(p_inputs[3], ps[4], p_steps[3]));
    let found = spec_find_entry(root, c0.dir@, Seq::empty(), true);
    if found is None {
        assert(c_steps[2] == Step::<bool>::Done(false));
        assert(n == 3);
        assert(p_steps[3] == Step::<bool>::Done(false));
        assert(q == 4);
        return;
    }
    let dc = found->0;
    if spec_cluster_sector(l, dc as int) is None {
        assert(ps[4].stage == CreateFileAtStage::Failed);
        lemma_create_at_failed_stays(ps, p_inputs, p_steps, p_disks, 4);
        assert(false);
    }
    let ds = spec_cluster_sector(l, dc as int)->0;
    // The FAT.
    assert(p_steps[3] == Step::<bool>::Read(l.fat_start));
    assert(c_steps[2] == Step::<bool>::Read(l.fat_start));
    assert(n > 3 && q > 4);
    assert(c_inputs[3] == fat && p_inputs[4] == fat);
    lemma_create_at_fields(ps, p_inputs, p_steps, p_disks, 4);
    assert(cs[3].next_step(c_inputs[3], cs[4], c_steps[3]));
    assert(ps[4].next_step(p_inputs[4], ps[5], p_steps[4]));
    if lowest_free(fat) is None {
        assert(n == 4 && q == 5);
        return;
    }
    let c = lowest_free(fat)->0;
    assert(first_free(fat, Some(c)));
    lemma_data_sector_in_data_area(boot, c as int);
    let s = spec_cluster_sector(l, c as int)->0;
    // The data, the FAT again, the marked FAT.
    let wa = c_steps[3];
    let wb = p_steps[4];
    assert(wa matches Step::Write(t, d) && t == s && d@ == c0.data@);
    assert(wb matches Step::Write(t, d) && t == s && d@ == c0.data@);
    assert(n > 4 && q > 5);
    let a4 = c_disks[4];
    let b5 = p_disks[5];
    assert(a4 == disk_after(d0, wa) && b5 == disk_after(d0, wb));
    assert forall|x: u32| #[trigger] a4(x) == b5(x) by {}
    assert(a4 =~= b5);
    assert(cs[4].next_step(c_inputs[4], cs[5], c_steps[4]));
    assert(ps[5].next_step(p_inputs[5], ps[6], p_steps[5]));
    assert(n > 5 && q > 6);
    let fat2 = a4(l.fat_start);
    assert(c_inputs[5] == fat2 && p_inputs[6] == fat2);
    assert(cs[5].next_step(c_inputs[5], cs[6], c_steps[5]));
    assert(ps[6].next_step(p_inputs[6], ps[7], p_steps[6]));
    let ma = c_steps[5];
    let mb = p_steps[6];
    assert(ma matches Step::Write(t, d) && t == l.fat_start && d@ == spec_mark_used(fat2, c as int));
    assert(mb matches Step::Write(t, d) && t == l.fat_start && d@ == spec_mark_used(fat2, c as int));
    assert(n > 6 && q > 7);
    let a6 = c_disks[6];
    let b7 = p_disks[7];
    assert(a6 == disk_after(a4, ma) && b7 == disk_after(b5, mb));
    assert forall|x: u32| #[trigger] a6(x) == b7(x) by {}
    assert(a6 =~= b7);
    // The directory, then the entry.
    assert(cs[6].next_step(c_inputs[6], cs[7], c_steps[6]));
    assert(c_steps[6] == Step::<bool>::Read(ds));
    assert(ps[7].next_step(p_inputs[7], ps[8], p_steps[7]));
    assert(p_steps[7] == Step::<bool>::Read(ds));
    assert(n > 7 && q > 8);
    let dir = a6(ds);
    assert(c_inputs[7] == dir && p_inputs[8] == dir);
    lemma_create_at_fields(ps, p_inputs, p_steps, p_disks, 8);
    assert(cs[7].next_step(c_inputs[7], cs[8], c_steps[7]));
    assert(ps[8].next_step(p_inputs[8], ps[9], p_steps[8]));
    let e = file_entry(c0.name.spec_bytes(), c0.ext.spec_bytes(), c, c0.len);
    if inserted(dir, e) is None {
        assert(n == 8 && q == 9);
        return;
    }
    let new_dir = inserted(dir, e)->0;
    let ra = c_steps[7];
    let rb = p_steps[8];
    assert(ra matches Step::Write(t, d) && t == ds && d@ == new_dir);
    assert(rb matches Step::Write(t, d) && t == ds && d@ == new_dir);
    assert(n > 8 && q > 9);
    assert(cs[8].next_step(c_inputs[8], cs[9], c_steps[8]));
    assert(ps[9].next_step(p_inputs[9], ps[10], p_steps[9]));
    assert(n == 9 && q == 10);
    let a8 = c_disks[8];
    let b9 = p_disks[9];
    assert(a8 == disk_after(a6, ra) && b9 == disk_after(b7, rb));
    assert forall|x: u32| #[trigger] a8(x) == b9(x) by {}
    assert(a8 =~= b9);
}

/// The walk inside a drive of `create_dir_at` that ends with a result: from step `j`, where
/// it looks up component `next` in directory sector `cur`, either the walk down the rest of
/// the path fails for want of a component, and the drive ends there reporting failure with
/// the disk untouched, or it goes down the path and asks for the FAT.
proof fn lemma_create_dir_at_walk_ends<'a>(
    cs: Seq<CreateDirAt<'a>>,
    inputs: Seq<Seq<u8>>,
    steps: Seq<Step<bool>>,
    disks: Seq<Disk>,
    j: int,
    l: Layout,
    cur: u32,
    d: Disk,
)
    requires
        drives(create_dir_at_next(), cs, inputs, steps, disks),
        0 <= j < steps.len(),
        cs[j].stage == (CreateDirAtStage::Resolving { layout: l }),
        cs[j].resolve.stage == (ResolveStage::AwaitDir { layout: l, current: cur }),
        cs[j].resolve.next < cs[j].resolve.parts@.len(),
        inputs[j] == d(cur),
        disks[j] == d,
        steps.last() is Done,
        forall|k: int| 0 <= k < steps.len() - 1 ==> !(#[trigger] steps[k] is Done),
    ensures
        ({
            let parts = components_of(cs[j].resolve);
            let e = j + parts.len() - cs[j].resolve.next - 1;
            match walk_from(d, l, parts, cs[j].resolve.next as nat, cur) {
                None => steps.last() == Step::<bool>::Done(false) && disks.last() == d,
                Some(path) => {
                    &&& e + 1 < steps.len()
                    &&& steps[e] == Step::<bool>::Read(l.fat_start)
                    &&& cs[e + 1].stage == (CreateDirAtStage::AwaitFat { layout: l, parent: path.last() })
                    &&& disks[e + 1] == d
                },
            }
        }),
    decreases cs[j].resolve.parts@.len() - cs[j].resolve.next,
{
    let r = cs[j].resolve;
    let parts = components_of(r);
    let k = r.next;
    assert(cs[j].next_step(inputs[j], cs[j + 1], steps[j]));
    assert(parts[k as int] == r.part(k as int));
    let found = spec_find_entry(d(cur), parts[k as int], Seq::empty(), true);
    if found is None {
        assert(steps[j] == Step::<bool>::Done(false));
        assert(j == steps.len() - 1);
        assert(disks[j + 1] == d);
        return;
    }
    let dc = found->0;
    if spec_cluster_sector(l, dc as int) is None {
        assert(cs[j + 1].stage == CreateDirAtStage::Failed);
        if j + 1 < steps.len() {
            lemma_create_dir_at_failed_stays(cs, inputs, steps, disks, j + 1);
        }
        assert(false);
    }
    let next = spec_cluster_sector(l, dc as int)->0;
    assert(steps[j] !is Done);
    assert(j + 1 < steps.len());
    assert(disks[j + 1] == d);
    assert(cs[j + 1].resolve.parts == r.parts);
    assert(components_of(cs[j + 1].resolve) =~= parts);
    if k + 1 == r.parts@.len() {
        assert(walk_from(d, l, parts, (k + 1) as nat, next) == Some(seq![next]));
        assert(walk_from(d, l, parts, k as nat, cur) == Some(seq![cur] + seq![next]));
        assert((seq![cur] + seq![next]).last() == next);
    } else {
        assert(steps[j] == Step::<bool>::Read(next));
        assert(inputs[j + 1] == d(next));
        vstd::std_specs::vec::axiom_spec_len(&r.parts);
        assert(cs[j + 1].resolve.next == k + 1);
        assert(cs[j + 1].resolve.stage == (ResolveStage::AwaitDir { layout: l, current: next }));
        lemma_create_dir_at_walk_ends(cs, inputs, steps, disks, j + 1, l, next, d);
        if walk_from(d, l, parts, (k + 1) as nat, next) is Some {
            let rest = walk_from(d, l, parts, (k + 1) as nat, next)->0;
            lemma_walk_nonempty(d, l, parts, (k + 1) as nat, next);
            assert((seq![cur] + rest).last() == rest.last());
        }
    }
}

/// A directory that cannot be made leaves the disk alone: when the path names a directory
/// that is missing, or the FAT has no free cluster, a drive of `create_dir_at` that ends with a
/// result reports failure and leaves the disk as it was.
pub proof fn lemma_create_dir_at_refused<'a>(
    cs: Seq<CreateDirAt<'a>>,
    inputs: Seq<Seq<u8>>,
    steps: Seq<Step<bool>>,
    disks: Seq<Disk>,
)
    requires
        drives(create_dir_at_next(), cs, inputs, steps, disks),
        cs[0].stage == CreateDirAtStage::Start,
        cs[0].resolve.stage == ResolveStage::Start,
        walk_from(
            disks[0],
            spec_layout(disks[0](0)),
            components_of(cs[0].resolve),
            0,
            spec_layout(disks[0](0)).root_start,
        ) is None || lowest_free(disks[0](spec_layout(disks[0](0)).fat_start)) is None,
        steps.len() > 0,
        steps.last() is Done,
        forall|k: int| 0 <= k < steps.len() - 1 ==> !(#[trigger] steps[k] is Done),
    ensures
        steps.last() == Step::<bool>::Done(false),
        disks.last() == disks[0],
{
    let n = steps.len();
    let d0 = disks[0];
    let boot = d0(0);
    let l = spec_layout(boot);
    let fat = d0(l.fat_start);
    let root = l.root_start;
    let parts = components_of(cs[0].resolve);
    let m = parts.len();
    assert(cs[0].next_step(inputs[0], cs[1], steps[0]));
    assert(n > 1);
    assert(inputs[1] == boot);
    assert(cs[1].next_step(inputs[1], cs[2], steps[1]));
    assert(n > 2);
    assert(disks[2] == d0);
    assert(inputs[2] == boot);
    assert(cs[2].resolve.parts == cs[0].resolve.parts);
    assert(cs[2].next_step(inputs[2], cs[3], steps[2]));
    let b: int = m as int + 3;
    if m == 0 {
        assert(walk_from(d0, l, parts, 0, root) == Some(seq![root]));
        assert(steps[2] == Step::<bool>::Read(l.fat_start));
        assert(n > 3);
        assert(disks[3] == d0);
    } else {
        assert(steps[2] == Step::<bool>::Read(root));
        assert(n > 3);
        assert(disks[3] == d0);
        assert(inputs[3] == d0(root));
        assert(cs[3].resolve.parts == cs[0].resolve.parts);
        assert(components_of(cs[3].resolve) =~= parts);
        assert(cs[3].resolve.next == 0);
        lemma_create_dir_at_walk_ends(cs, inputs, steps, disks, 3, l, root, d0);
        if walk_from(d0, l, parts, 0, root) is None {
            return;
        }
    }
    assert(steps[b - 1] == Step::<bool>::Read(l.fat_start));
    assert(disks[b] == d0);
    assert(inputs[b] == fat);
    assert(cs[b].next_step(inputs[b], cs[b + 1], steps[b]));
    assert(steps[b] == Step::<bool>::Done(false));
    assert(b == n - 1);
    assert(disks[b + 1] == d0);
}

} // verus!
