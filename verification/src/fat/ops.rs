//! The operations of the file store.
//!
//! Each operation is a value that is driven one step at a time: every call of `step` is
//! handed the sector that the previous step asked to read (any sector when the previous step
//! asked for none) and answers what to do next, until it answers [`Step::Done`] with the
//! operation's result. Driving it against a disk performs the same reads and writes, in the
//! same order, as the operation does on that disk.

use vstd::prelude::*;
use vstd::string::StringSliceAdditionalSpecFns;
use crate::fat::layout::{
    cluster_sector, file_data, get_layout, spec_cluster_sector, spec_file_data, spec_layout,
    stored_len, Layout, Sector,
};
use crate::fat::table::{find_free_cluster, lowest_free, mark_cluster_used, spec_mark_used};
use crate::fat::dir::{
    dir_entry, entry_cluster, entry_size, file_entry, find_entry, find_file, inserted,
    list_files, mark_deleted, root_file_entry, slot, slot_cluster, slot_size,
    spec_find_entry, spec_find_file, spec_list_files, write_dir_entry, write_file_entry,
    write_root_file_entry, DELETED_MARK,
};
use crate::fat::path::{components, path_components};

verus! {

/// What an operation of the file store asks for next.
#[derive(PartialEq, Eq, Debug)]
pub enum Step<R> {
    /// Read this sector and hand its contents to the next step.
    Read(u32),
    /// Write these contents to this sector.
    Write(u32, Sector),
    /// The operation has finished with this result.
    Done(R),
    /// An entry on the disk names a cluster below 2, the first data cluster: turning it into
    /// a sector number underflows, and the operation cannot go on.
    Corrupt,
}

/// Whether `step` writes `data` to sector `sector`.
pub open spec fn writes<R>(step: Step<R>, sector: u32, data: Seq<u8>) -> bool {
    step matches Step::Write(s, d) && s == sector && d@ == data
}

/// The result of reading a file: its size, and the contents of its data sector when the file
/// was found (the caller's buffer is left alone otherwise).
#[derive(Clone, Copy, PartialEq, Eq, Debug)]
pub struct FileRead {
    pub size: u32,
    pub contents: Option<Sector>,
}

/// Whether `r` reports a file of `size` bytes whose data sector holds `contents`.
pub open spec fn reads_file(r: FileRead, size: u32, contents: Seq<u8>) -> bool {
    &&& r.size == size
    &&& r.contents matches Some(c) && c@ == contents
}

/// The sector that zeroes a directory's cluster.
pub open spec fn zero_sector() -> Seq<u8> {
    Seq::new(512, |k: int| 0u8)
}

// ---------------------------------------------------------------------------------------
// Finding a directory from its path.

/// Where the walk down a path stands.
#[derive(Clone, Copy, PartialEq, Eq, Debug)]
pub enum ResolveStage {
    Start,
    AwaitBoot,
    AwaitDir { layout: Layout, current: u32 },
    Found { sector: Option<u32> },
    Failed,
}

/// What the walk down a path asks for, or what it found.
#[derive(Clone, Copy, PartialEq, Eq, Debug)]
pub enum Resolved {
    /// Read this sector and hand its contents to the next step.
    Read(u32),
    /// The walk has ended: the sector of the directory, or `None` when a component was
    /// missing.
    Found(Option<u32>),
    /// A directory entry on the way names a cluster below 2.
    Corrupt,
}

/// The walk from the root directory down the components of a path: reading the boot
/// sector for the layout, then, for each component, looking it up as a directory in the
/// directory reached so far.
pub struct Resolve<'a> {
    pub parts: Vec<&'a str>,
    pub next: usize,
    pub stage: ResolveStage,
}

impl<'a> Resolve<'a> {
    /// The components of the path, as text.
    pub open spec fn part(&self, k: int) -> Seq<char> {
        self.parts@[k]@
    }

    /// What one step of the walk does: the walk after it, and what it asks or found.
    pub open spec fn spec_step(self, input: Seq<u8>) -> (Self, Resolved) {
        match self.stage {
            ResolveStage::Start => (Resolve { stage: ResolveStage::AwaitBoot, ..self }, Resolved::Read(0)),
            ResolveStage::AwaitBoot => {
                let l = spec_layout(input);
                if self.parts@.len() == 0 {
                    (
                        Resolve { stage: ResolveStage::Found { sector: Some(l.root_start) }, ..self },
                        Resolved::Found(Some(l.root_start)),
                    )
                } else {
                    (
                        Resolve {
                            next: 0,
                            stage: ResolveStage::AwaitDir { layout: l, current: l.root_start },
                            ..self
                        },
                        Resolved::Read(l.root_start),
                    )
                }
            },
            ResolveStage::AwaitDir { layout, current } => {
                match spec_find_entry(input, self.part(self.next as int), Seq::empty(), true) {
                    None => (
                        Resolve { stage: ResolveStage::Found { sector: None }, ..self },
                        Resolved::Found(None),
                    ),
                    Some(c) => match spec_cluster_sector(layout, c as int) {
                        None => (Resolve { stage: ResolveStage::Failed, ..self }, Resolved::Corrupt),
                        Some(s) => if self.next + 1 == self.parts@.len() {
                            (
                                Resolve { stage: ResolveStage::Found { sector: Some(s) }, ..self },
                                Resolved::Found(Some(s)),
                            )
                        } else {
                            (
                                Resolve {
                                    next: (self.next + 1) as usize,
                                    stage: ResolveStage::AwaitDir { layout, current: s },
                                    ..self
                                },
                                Resolved::Read(s),
                            )
                        },
                    },
                }
            },
            ResolveStage::Found { sector } => (self, Resolved::Found(sector)),
            ResolveStage::Failed => (self, Resolved::Corrupt),
        }
    }

    /// The walk down the directories of `path`.
    pub fn new(path: &'a str) -> (r: Self)
        ensures
            r.parts@.len() == path_components(path@).len(),
            forall|k: int| 0 <= k < r.parts@.len() ==> #[trigger] r.part(k) == path_components(path@)[k],
            r.next == 0,
            r.stage == ResolveStage::Start,
    {
        Resolve { parts: components(path), next: 0, stage: ResolveStage::Start }
    }

    /// The component being looked up exists, and the layout is one read from a boot sector.
    pub open spec fn wf(&self) -> bool {
        match self.stage {
            ResolveStage::AwaitDir { layout, .. } => self.next < self.parts@.len() && layout.wf(),
            _ => true,
        }
    }

    /// Takes one step of the walk.
    pub fn step(&mut self, input: &Sector) -> (r: Resolved)
        requires
            old(self).wf(),
        ensures
            (*final(self), r) == old(self).spec_step(input@),
            final(self).wf(),
    {
        match self.stage {
            ResolveStage::Start => {
                self.stage = ResolveStage::AwaitBoot;
                Resolved::Read(0)
            },
            ResolveStage::AwaitBoot => {
                let l = get_layout(input);
                if self.parts.len() == 0 {
                    self.stage = ResolveStage::Found { sector: Some(l.root_start) };
                    Resolved::Found(Some(l.root_start))
                } else {
                    self.next = 0;
                    self.stage = ResolveStage::AwaitDir { layout: l, current: l.root_start };
                    Resolved::Read(l.root_start)
                }
            },
            ResolveStage::AwaitDir { layout, current } => {
                let n = self.parts.len();
                proof {
                    reveal_strlit("");
                    assert(""@ =~= Seq::<char>::empty());
                }
                match find_entry(input, self.parts[self.next], "", true) {
                    None => {
                        self.stage = ResolveStage::Found { sector: None };
                        Resolved::Found(None)
                    },
                    Some(c) => match cluster_sector(layout, c) {
                        None => {
                            self.stage = ResolveStage::Failed;
                            Resolved::Corrupt
                        },
                        Some(s) => {
                            if self.next + 1 == n {
                                self.stage = ResolveStage::Found { sector: Some(s) };
                                Resolved::Found(Some(s))
                            } else {
                                self.next = self.next + 1;
                                self.stage = ResolveStage::AwaitDir { layout, current: s };
                                Resolved::Read(s)
                            }
                        },
                    },
                }
            },
            ResolveStage::Found { sector } => Resolved::Found(sector),
            ResolveStage::Failed => Resolved::Corrupt,
        }
    }
}

// ---------------------------------------------------------------------------------------
// Creating a file in the root directory.

/// Where `create_file` stands.
#[derive(Clone, Copy, PartialEq, Eq, Debug)]
pub enum CreateFileStage {
    Start,
    AwaitBoot,
    AwaitFat { layout: Layout },
    DataWritten { layout: Layout, cluster: u16 },
    AwaitFatAgain { layout: Layout, cluster: u16 },
    FatWritten { layout: Layout, cluster: u16 },
    AwaitRoot { layout: Layout, cluster: u16 },
    Finished { ok: bool },
}

/// Writing a new file to the root directory: take the lowest free cluster, write the data
/// there, mark the cluster used in the FAT, and add an entry to the root directory.
pub struct CreateFile<'a> {
    pub name: &'a str,
    pub ext: &'a str,
    pub data: Sector,
    pub len: usize,
    pub stage: CreateFileStage,
}

/// Starts writing a file named `name`.`ext` to the root directory. The name keeps at most 8
/// bytes, the extension at most 3, the contents at most 512 bytes.
pub fn create_file<'a>(name: &'a str, ext: &'a str, content: &[u8]) -> (op: CreateFile<'a>)
    ensures
        op.name == name,
        op.ext == ext,
        op.data@ == spec_file_data(content@),
        op.len == stored_len(content@),
        op.stage == CreateFileStage::Start,
{
    let len = if content.len() < 512 {
        content.len()
    } else {
        512
    };
    CreateFile { name, ext, data: file_data(content), len, stage: CreateFileStage::Start }
}

impl<'a> CreateFile<'a> {
    /// The operation at another stage.
    pub open spec fn at(self, stage: CreateFileStage) -> Self {
        CreateFile { stage, ..self }
    }

    /// What one step of `create_file` does.
    pub open spec fn next_step(self, input: Seq<u8>, after: Self, r: Step<bool>) -> bool {
        match self.stage {
            CreateFileStage::Start => after == self.at(CreateFileStage::AwaitBoot) && r == Step::<bool>::Read(0),
            CreateFileStage::AwaitBoot => {
                let l = spec_layout(input);
                after == self.at(CreateFileStage::AwaitFat { layout: l }) && r == Step::<bool>::Read(l.fat_start)
            },
            CreateFileStage::AwaitFat { layout } => match lowest_free(input) {
                None => after == self.at(CreateFileStage::Finished { ok: false }) && r == Step::Done(false),
                Some(c) => {
                    &&& after == self.at(CreateFileStage::DataWritten { layout, cluster: c })
                    &&& spec_cluster_sector(layout, c as int) matches Some(s) && writes(r, s, self.data@)
                },
            },
            CreateFileStage::DataWritten { layout, cluster } => after == self.at(
                CreateFileStage::AwaitFatAgain { layout, cluster },
            ) && r == Step::<bool>::Read(layout.fat_start),
            CreateFileStage::AwaitFatAgain { layout, cluster } => after == self.at(
                CreateFileStage::FatWritten { layout, cluster },
            ) && writes(r, layout.fat_start, spec_mark_used(input, cluster as int)),
            CreateFileStage::FatWritten { layout, cluster } => after == self.at(
                CreateFileStage::AwaitRoot { layout, cluster },
            ) && r == Step::<bool>::Read(layout.root_start),
            CreateFileStage::AwaitRoot { layout, cluster } => match inserted(
                input,
                root_file_entry(self.name.spec_bytes(), self.ext.spec_bytes(), cluster, self.len),
            ) {
                Some(d) => after == self.at(CreateFileStage::Finished { ok: true }) && writes(
                    r,
                    layout.root_start,
                    d,
                ),
                None => after == self.at(CreateFileStage::Finished { ok: false }) && r == Step::Done(false),
            },
            CreateFileStage::Finished { ok } => after == self && r == Step::Done(ok),
        }
    }

    /// The layout that the stage holds is one read from a boot sector, and its cluster is a
    /// data cluster.
    pub open spec fn wf(&self) -> bool {
        match self.stage {
            CreateFileStage::AwaitFat { layout } => layout.wf(),
            CreateFileStage::DataWritten { layout, cluster } => layout.wf() && 2 <= cluster < 256,
            CreateFileStage::AwaitFatAgain { layout, cluster } => layout.wf() && 2 <= cluster < 256,
            CreateFileStage::FatWritten { layout, cluster } => layout.wf() && 2 <= cluster < 256,
            CreateFileStage::AwaitRoot { layout, cluster } => layout.wf() && 2 <= cluster < 256,
            _ => true,
        }
    }

    /// Takes one step of `create_file`.
    pub fn step(&mut self, input: &Sector) -> (r: Step<bool>)
        requires
            old(self).wf(),
        ensures
            final(self).wf(),
            old(self).next_step(input@, *final(self), r),
    {
        match self.stage {
            CreateFileStage::Start => {
                self.stage = CreateFileStage::AwaitBoot;
                Step::Read(0)
            },
            CreateFileStage::AwaitBoot => {
                let layout = get_layout(input);
                self.stage = CreateFileStage::AwaitFat { layout };
                Step::Read(layout.fat_start)
            },
            CreateFileStage::AwaitFat { layout } => match find_free_cluster(input) {
                None => {
                    self.stage = CreateFileStage::Finished { ok: false };
                    Step::Done(false)
                },
                Some(cluster) => {
                    let sector = match cluster_sector(layout, cluster) {
                        Some(s) => s,
                        None => 0,
                    };
                    self.stage = CreateFileStage::DataWritten { layout, cluster };
                    Step::Write(sector, self.data)
                },
            },
            CreateFileStage::DataWritten { layout, cluster } => {
                self.stage = CreateFileStage::AwaitFatAgain { layout, cluster };
                Step::Read(layout.fat_start)
            },
            CreateFileStage::AwaitFatAgain { layout, cluster } => {
                let mut fat = *input;
                mark_cluster_used(&mut fat, cluster);
                self.stage = CreateFileStage::FatWritten { layout, cluster };
                Step::Write(layout.fat_start, fat)
            },
            CreateFileStage::FatWritten { layout, cluster } => {
                self.stage = CreateFileStage::AwaitRoot { layout, cluster };
                Step::Read(layout.root_start)
            },
            CreateFileStage::AwaitRoot { layout, cluster } => {
                let mut root = *input;
                if write_root_file_entry(&mut root, self.name, self.ext, cluster, self.len) {
                    self.stage = CreateFileStage::Finished { ok: true };
                    Step::Write(layout.root_start, root)
                } else {
                    self.stage = CreateFileStage::Finished { ok: false };
                    Step::Done(false)
                }
            },
            CreateFileStage::Finished { ok } => Step::Done(ok),
        }
    }
}

// ---------------------------------------------------------------------------------------
// Reading, deleting and listing files of the root directory.

/// Where `read_file` stands.
#[derive(Clone, Copy, PartialEq, Eq, Debug)]
pub enum ReadFileStage {
    Start,
    AwaitBoot,
    AwaitRoot { layout: Layout },
    AwaitData { size: u32 },
    Finished { result: FileRead },
    Failed,
}

/// Reading a file of the root directory: find its entry, then read its data sector.
pub struct ReadFile<'a> {
    pub name: &'a str,
    pub ext: &'a str,
    pub stage: ReadFileStage,
}

/// Starts reading the file `name`.`ext` of the root directory; names are compared without
/// regard to ASCII case. The result's size is 0 when there is no such file.
pub fn read_file<'a>(name: &'a str, ext: &'a str) -> (op: ReadFile<'a>)
    ensures
        op == (ReadFile { name, ext, stage: ReadFileStage::Start }),
{
    ReadFile { name, ext, stage: ReadFileStage::Start }
}

impl<'a> ReadFile<'a> {
    pub open spec fn at(self, stage: ReadFileStage) -> Self {
        ReadFile { stage, ..self }
    }

    /// What one step of `read_file` does.
    pub open spec fn next_step(self, input: Seq<u8>, after: Self, r: Step<FileRead>) -> bool {
        match self.stage {
            ReadFileStage::Start => after == self.at(ReadFileStage::AwaitBoot) && r == Step::<FileRead>::Read(0),
            ReadFileStage::AwaitBoot => {
                let l = spec_layout(input);
                after == self.at(ReadFileStage::AwaitRoot { layout: l }) && r == Step::<FileRead>::Read(l.root_start)
            },
            ReadFileStage::AwaitRoot { layout } => match spec_find_file(input, self.name@, self.ext@) {
                None => {
                    let nothing = FileRead { size: 0, contents: None };
                    after == self.at(ReadFileStage::Finished { result: nothing }) && r == Step::Done(nothing)
                },
                Some(i) => match spec_cluster_sector(layout, entry_cluster(slot(input, i))) {
                    None => after == self.at(ReadFileStage::Failed) && r == Step::<FileRead>::Corrupt,
                    Some(s) => after == self.at(
                        ReadFileStage::AwaitData { size: entry_size(slot(input, i)) as u32 },
                    ) && r == Step::<FileRead>::Read(s),
                },
            },
            ReadFileStage::AwaitData { size } => {
                &&& r matches Step::Done(fr) && reads_file(fr, size, input)
                    && after == self.at(ReadFileStage::Finished { result: fr })
            },
            ReadFileStage::Finished { result } => after == self && r == Step::Done(result),
            ReadFileStage::Failed => after == self && r == Step::<FileRead>::Corrupt,
        }
    }

    pub open spec fn wf(&self) -> bool {
        match self.stage {
            ReadFileStage::AwaitRoot { layout } => layout.wf(),
            _ => true,
        }
    }

    /// Takes one step of `read_file`.
    pub fn step(&mut self, input: &Sector) -> (r: Step<FileRead>)
        requires
            old(self).wf(),
        ensures
            final(self).wf(),
            old(self).next_step(input@, *final(self), r),
    {
        match self.stage {
            ReadFileStage::Start => {
                self.stage = ReadFileStage::AwaitBoot;
                Step::Read(0)
            },
            ReadFileStage::AwaitBoot => {
                let layout = get_layout(input);
                self.stage = ReadFileStage::AwaitRoot { layout };
                Step::Read(layout.root_start)
            },
            ReadFileStage::AwaitRoot { layout } => match find_file(input, self.name, self.ext) {
                None => {
                    let nothing = FileRead { size: 0, contents: None };
                    self.stage = ReadFileStage::Finished { result: nothing };
                    Step::Done(nothing)
                },
                Some(i) => {
                    let cluster = slot_cluster(input, i);
                    let size = slot_size(input, i);
                    match cluster_sector(layout, cluster) {
                        None => {
                            self.stage = ReadFileStage::Failed;
                            Step::Corrupt
                        },
                        Some(s) => {
                            self.stage = ReadFileStage::AwaitData { size };
                            Step::Read(s)
                        },
                    }
                },
            },
            ReadFileStage::AwaitData { size } => {
                let result = FileRead { size, contents: Some(*input) };
                self.stage = ReadFileStage::Finished { result };
                Step::Done(result)
            },
            ReadFileStage::Finished { result } => Step::Done(result),
            ReadFileStage::Failed => Step::Corrupt,
        }
    }
}

/// Where `delete_file` stands.
#[derive(Clone, Copy, PartialEq, Eq, Debug)]
pub enum DeleteFileStage {
    Start,
    AwaitBoot,
    AwaitRoot { layout: Layout },
    Finished { ok: bool },
}

/// Deleting a file of the root directory: its entry is marked deleted.
pub struct DeleteFile<'a> {
    pub name: &'a str,
    pub ext: &'a str,
    pub stage: DeleteFileStage,
}

/// Starts deleting the file `name`.`ext` of the root directory; the result tells whether it
/// was there.
pub fn delete_file<'a>(name: &'a str, ext: &'a str) -> (op: DeleteFile<'a>)
    ensures
        op == (DeleteFile { name, ext, stage: DeleteFileStage::Start }),
{
    DeleteFile { name, ext, stage: DeleteFileStage::Start }
}

impl<'a> DeleteFile<'a> {
    pub open spec fn at(self, stage: DeleteFileStage) -> Self {
        DeleteFile { stage, ..self }
    }

    /// What one step of `delete_file` does.
    pub open spec fn next_step(self, input: Seq<u8>, after: Self, r: Step<bool>) -> bool {
        match self.stage {
            DeleteFileStage::Start => after == self.at(DeleteFileStage::AwaitBoot) && r == Step::<bool>::Read(0),
            DeleteFileStage::AwaitBoot => {
                let l = spec_layout(input);
                after == self.at(DeleteFileStage::AwaitRoot { layout: l }) && r == Step::<bool>::Read(l.root_start)
            },
            DeleteFileStage::AwaitRoot { layout } => match spec_find_file(input, self.name@, self.ext@) {
                None => after == self.at(DeleteFileStage::Finished { ok: false }) && r == Step::Done(false),
                Some(i) => after == self.at(DeleteFileStage::Finished { ok: true }) && writes(
                    r,
                    layout.root_start,
                    input.update(32 * i, DELETED_MARK),
                ),
            },
            DeleteFileStage::Finished { ok } => after == self && r == Step::Done(ok),
        }
    }

    /// Takes one step of `delete_file`.
    pub fn step(&mut self, input: &Sector) -> (r: Step<bool>)
        ensures
            old(self).next_step(input@, *final(self), r),
    {
        match self.stage {
            DeleteFileStage::Start => {
                self.stage = DeleteFileStage::AwaitBoot;
                Step::Read(0)
            },
            DeleteFileStage::AwaitBoot => {
                let layout = get_layout(input);
                self.stage = DeleteFileStage::AwaitRoot { layout };
                Step::Read(layout.root_start)
            },
            DeleteFileStage::AwaitRoot { layout } => match find_file(input, self.name, self.ext) {
                None => {
                    self.stage = DeleteFileStage::Finished { ok: false };
                    Step::Done(false)
                },
                Some(i) => {
                    let mut root = *input;
                    mark_deleted(&mut root, i);
                    self.stage = DeleteFileStage::Finished { ok: true };
                    Step::Write(layout.root_start, root)
                },
            },
            DeleteFileStage::Finished { ok } => Step::Done(ok),
        }
    }
}

/// Where the listing stands.
#[derive(Clone, Copy, PartialEq, Eq, Debug)]
pub enum ListStage {
    Start,
    AwaitBoot,
    AwaitRoot,
    Finished { listing: [u8; 64] },
}

/// Listing the root directory.
pub struct ListRoot {
    pub stage: ListStage,
}

/// Starts listing the files of the root directory, as [`list_files`] shows them.
pub fn list_root() -> (op: ListRoot)
    ensures
        op == (ListRoot { stage: ListStage::Start }),
{
    ListRoot { stage: ListStage::Start }
}

impl ListRoot {
    /// What one step of the listing does.
    pub open spec fn next_step(self, input: Seq<u8>, after: Self, r: Step<[u8; 64]>) -> bool {
        match self.stage {
            ListStage::Start => after == (ListRoot { stage: ListStage::AwaitBoot }) && r == Step::<[u8; 64]>::Read(0),
            ListStage::AwaitBoot => after == (ListRoot { stage: ListStage::AwaitRoot }) && r
                == Step::<[u8; 64]>::Read(spec_layout(input).root_start),
            ListStage::AwaitRoot => {
                &&& r matches Step::Done(listing) && listing@ == spec_list_files(input) && after
                    == (ListRoot { stage: ListStage::Finished { listing } })
            },
            ListStage::Finished { listing } => after == self && r == Step::Done(listing),
        }
    }

    /// Takes one step of the listing.
    pub fn step(&mut self, input: &Sector) -> (r: Step<[u8; 64]>)
        ensures
            old(self).next_step(input@, *final(self), r),
    {
        match self.stage {
            ListStage::Start => {
                self.stage = ListStage::AwaitBoot;
                Step::Read(0)
            },
            ListStage::AwaitBoot => {
                let layout = get_layout(input);
                self.stage = ListStage::AwaitRoot;
                Step::Read(layout.root_start)
            },
            ListStage::AwaitRoot => {
                let listing = list_files(input);
                self.stage = ListStage::Finished { listing };
                Step::Done(listing)
            },
            ListStage::Finished { listing } => Step::Done(listing),
        }
    }
}

// ---------------------------------------------------------------------------------------
// Creating a directory in the root directory.

/// Where `create_dir` stands.
#[derive(Clone, Copy, PartialEq, Eq, Debug)]
pub enum CreateDirStage {
    Start,
    AwaitBoot,
    AwaitFat { layout: Layout },
    AwaitFatAgain { layout: Layout, cluster: u16 },
    FatWritten { layout: Layout, cluster: u16 },
    ZeroWritten { layout: Layout, cluster: u16 },
    AwaitRoot { layout: Layout, cluster: u16 },
    Finished { ok: bool },
}

/// Making a directory in the root directory: take the lowest free cluster, mark it used,
/// zero it, and add a directory entry to the root directory.
pub struct CreateDir<'a> {
    pub name: &'a str,
    pub stage: CreateDirStage,
}

/// Starts making the directory `name` in the root directory.
pub fn create_dir<'a>(name: &'a str) -> (op: CreateDir<'a>)
    ensures
        op == (CreateDir { name, stage: CreateDirStage::Start }),
{
    CreateDir { name, stage: CreateDirStage::Start }
}

impl<'a> CreateDir<'a> {
    pub open spec fn at(self, stage: CreateDirStage) -> Self {
        CreateDir { stage, ..self }
    }

    /// What one step of `create_dir` does.
    pub open spec fn next_step(self, input: Seq<u8>, after: Self, r: Step<bool>) -> bool {
        match self.stage {
            CreateDirStage::Start => after == self.at(CreateDirStage::AwaitBoot) && r == Step::<bool>::Read(0),
            CreateDirStage::AwaitBoot => {
                let l = spec_layout(input);
                after == self.at(CreateDirStage::AwaitFat { layout: l }) && r == Step::<bool>::Read(l.fat_start)
            },
            CreateDirStage::AwaitFat { layout } => match lowest_free(input) {
                None => after == self.at(CreateDirStage::Finished { ok: false }) && r == Step::Done(false),
                Some(c) => after == self.at(CreateDirStage::AwaitFatAgain { layout, cluster: c }) && r
                    == Step::<bool>::Read(layout.fat_start),
            },
            CreateDirStage::AwaitFatAgain { layout, cluster } => after == self.at(
                CreateDirStage::FatWritten { layout, cluster },
            ) && writes(r, layout.fat_start, spec_mark_used(input, cluster as int)),
            CreateDirStage::FatWritten { layout, cluster } => {
                &&& after == self.at(CreateDirStage::ZeroWritten { layout, cluster })
                &&& spec_cluster_sector(layout, cluster as int) matches Some(s) && writes(r, s, zero_sector())
            },
            CreateDirStage::ZeroWritten { layout, cluster } => after == self.at(
                CreateDirStage::AwaitRoot { layout, cluster },
            ) && r == Step::<bool>::Read(layout.root_start),
            CreateDirStage::AwaitRoot { layout, cluster } => match inserted(
                input,
                dir_entry(self.name.spec_bytes(), cluster, true),
            ) {
                Some(d) => after == self.at(CreateDirStage::Finished { ok: true }) && writes(
                    r,
                    layout.root_start,
                    d,
                ),
                None => after == self.at(CreateDirStage::Finished { ok: false }) && r == Step::Done(false),
            },
            CreateDirStage::Finished { ok } => after == self && r == Step::Done(ok),
        }
    }

    pub open spec fn wf(&self) -> bool {
        match self.stage {
            CreateDirStage::AwaitFat { layout } => layout.wf(),
            CreateDirStage::AwaitFatAgain { layout, cluster } => layout.wf() && 2 <= cluster < 256,
            CreateDirStage::FatWritten { layout, cluster } => layout.wf() && 2 <= cluster < 256,
            CreateDirStage::ZeroWritten { layout, cluster } => layout.wf() && 2 <= cluster < 256,
            CreateDirStage::AwaitRoot { layout, cluster } => layout.wf() && 2 <= cluster < 256,
            _ => true,
        }
    }

    /// Takes one step of `create_dir`.
    pub fn step(&mut self, input: &Sector) -> (r: Step<bool>)
        requires
            old(self).wf(),
        ensures
            final(self).wf(),
            old(self).next_step(input@, *final(self), r),
    {
        match self.stage {
            CreateDirStage::Start => {
                self.stage = CreateDirStage::AwaitBoot;
                Step::Read(0)
            },
            CreateDirStage::AwaitBoot => {
                let layout = get_layout(input);
                self.stage = CreateDirStage::AwaitFat { layout };
                Step::Read(layout.fat_start)
            },
            CreateDirStage::AwaitFat { layout } => match find_free_cluster(input) {
                None => {
                    self.stage = CreateDirStage::Finished { ok: false };
                    Step::Done(false)
                },
                Some(cluster) => {
                    self.stage = CreateDirStage::AwaitFatAgain { layout, cluster };
                    Step::Read(layout.fat_start)
                },
            },
            CreateDirStage::AwaitFatAgain { layout, cluster } => {
                let mut fat = *input;
                mark_cluster_used(&mut fat, cluster);
                self.stage = CreateDirStage::FatWritten { layout, cluster };
                Step::Write(layout.fat_start, fat)
            },
            CreateDirStage::FatWritten { layout, cluster } => {
                let sector = match cluster_sector(layout, cluster) {
                    Some(s) => s,
                    None => 0,
                };
                let empty = [0u8; 512];
                proof {
                    assert(empty@ =~= zero_sector());
                }
                self.stage = CreateDirStage::ZeroWritten { layout, cluster };
                Step::Write(sector, empty)
            },
            CreateDirStage::ZeroWritten { layout, cluster } => {
                self.stage = CreateDirStage::AwaitRoot { layout, cluster };
                Step::Read(layout.root_start)
            },
            CreateDirStage::AwaitRoot { layout, cluster } => {
                let mut root = *input;
                if write_dir_entry(&mut root, self.name, cluster, true) {
                    self.stage = CreateDirStage::Finished { ok: true };
                    Step::Write(layout.root_start, root)
                } else {
                    self.stage = CreateDirStage::Finished { ok: false };
                    Step::Done(false)
                }
            },
            CreateDirStage::Finished { ok } => Step::Done(ok),
        }
    }
}

// ---------------------------------------------------------------------------------------
// Files inside a directory of the root directory.

/// Where `create_file_in` stands.
#[derive(Clone, Copy, PartialEq, Eq, Debug)]
pub enum CreateFileInStage {
    Start,
    AwaitBoot,
    AwaitRoot { layout: Layout },
    AwaitFat { layout: Layout, dir_cluster: u16 },
    DataWritten { layout: Layout, dir_cluster: u16, cluster: u16 },
    AwaitFatAgain { layout: Layout, dir_cluster: u16, cluster: u16 },
    FatWritten { layout: Layout, dir_cluster: u16, cluster: u16 },
    AwaitDir { layout: Layout, dir_sector: u32, cluster: u16 },
    Finished { ok: bool },
    Failed,
}

/// Writing a new file into a directory of the root directory: find the directory, take the
/// lowest free cluster, write the data there, mark the cluster used, and add a file entry to
/// the directory.
pub struct CreateFileIn<'a> {
    pub dir: &'a str,
    pub name: &'a str,
    pub ext: &'a str,
    pub data: Sector,
    pub len: usize,
    pub stage: CreateFileInStage,
}

/// Starts writing the file `name`.`ext` into the directory `dir` of the root directory.
pub fn create_file_in<'a>(dir: &'a str, name: &'a str, ext: &'a str, content: &[u8]) -> (op: CreateFileIn<'a>)
    ensures
        op.dir == dir,
        op.name == name,
        op.ext == ext,
        op.data@ == spec_file_data(content@),
        op.len == stored_len(content@),
        op.stage == CreateFileInStage::Start,
{
    let len = if content.len() < 512 {
        content.len()
    } else {
        512
    };
    CreateFileIn { dir, name, ext, data: file_data(content), len, stage: CreateFileInStage::Start }
}

impl<'a> CreateFileIn<'a> {
    pub open spec fn at(self, stage: CreateFileInStage) -> Self {
        CreateFileIn { stage, ..self }
    }

    /// What one step of `create_file_in` does.
    pub open spec fn next_step(self, input: Seq<u8>, after: Self, r: Step<bool>) -> bool {
        match self.stage {
            CreateFileInStage::Start => after == self.at(CreateFileInStage::AwaitBoot) && r == Step::<bool>::Read(0),
            CreateFileInStage::AwaitBoot => {
                let l = spec_layout(input);
                after == self.at(CreateFileInStage::AwaitRoot { layout: l }) && r == Step::<bool>::Read(l.root_start)
            },
            CreateFileInStage::AwaitRoot { layout } => match spec_find_entry(input, self.dir@, Seq::empty(), true) {
                None => after == self.at(CreateFileInStage::Finished { ok: false }) && r == Step::Done(false),
                Some(dc) => after == self.at(CreateFileInStage::AwaitFat { layout, dir_cluster: dc }) && r
                    == Step::<bool>::Read(layout.fat_start),
            },
            CreateFileInStage::AwaitFat { layout, dir_cluster } => match lowest_free(input) {
                None => after == self.at(CreateFileInStage::Finished { ok: false }) && r == Step::Done(false),
                Some(c) => {
                    &&& after == self.at(CreateFileInStage::DataWritten { layout, dir_cluster, cluster: c })
                    &&& spec_cluster_sector(layout, c as int) matches Some(s) && writes(r, s, self.data@)
                },
            },
            CreateFileInStage::DataWritten { layout, dir_cluster, cluster } => after == self.at(
                CreateFileInStage::AwaitFatAgain { layout, dir_cluster, cluster },
            ) && r == Step::<bool>::Read(layout.fat_start),
            CreateFileInStage::AwaitFatAgain { layout, dir_cluster, cluster } => after == self.at(
                CreateFileInStage::FatWritten { layout, dir_cluster, cluster },
            ) && writes(r, layout.fat_start, spec_mark_used(input, cluster as int)),
            CreateFileInStage::FatWritten { layout, dir_cluster, cluster } => match spec_cluster_sector(
                layout,
                dir_cluster as int,
            ) {
                None => after == self.at(CreateFileInStage::Failed) && r == Step::<bool>::Corrupt,
                Some(ds) => after == self.at(CreateFileInStage::AwaitDir { layout, dir_sector: ds, cluster })
                    && r == Step::<bool>::Read(ds),
            },
            CreateFileInStage::AwaitDir { layout, dir_sector, cluster } => match inserted(
                input,
                file_entry(self.name.spec_bytes(), self.ext.spec_bytes(), cluster, self.len),
            ) {
                Some(d) => after == self.at(CreateFileInStage::Finished { ok: true }) && writes(r, dir_sector, d),
                None => after == self.at(CreateFileInStage::Finished { ok: false }) && r == Step::Done(false),
            },
            CreateFileInStage::Finished { ok } => after == self && r == Step::Done(ok),
            CreateFileInStage::Failed => after == self && r == Step::<bool>::Corrupt,
        }
    }

    pub open spec fn wf(&self) -> bool {
        match self.stage {
            CreateFileInStage::AwaitRoot { layout } => layout.wf(),
            CreateFileInStage::AwaitFat { layout, .. } => layout.wf(),
            CreateFileInStage::DataWritten { layout, cluster, .. } => layout.wf() && 2 <= cluster < 256,
            CreateFileInStage::AwaitFatAgain { layout, cluster, .. } => layout.wf() && 2 <= cluster < 256,
            CreateFileInStage::FatWritten { layout, cluster, .. } => layout.wf() && 2 <= cluster < 256,
            _ => true,
        }
    }

    /// Takes one step of `create_file_in`.
    pub fn step(&mut self, input: &Sector) -> (r: Step<bool>)
        requires
            old(self).wf(),
        ensures
            final(self).wf(),
            old(self).next_step(input@, *final(self), r),
    {
        match self.stage {
            CreateFileInStage::Start => {
                self.stage = CreateFileInStage::AwaitBoot;
                Step::Read(0)
            },
            CreateFileInStage::AwaitBoot => {
                let layout = get_layout(input);
                self.stage = CreateFileInStage::AwaitRoot { layout };
                Step::Read(layout.root_start)
            },
            CreateFileInStage::AwaitRoot { layout } => {
                proof {
                    reveal_strlit("");
                    assert(""@ =~= Seq::<char>::empty());
                }
                match find_entry(input, self.dir, "", true) {
                    None => {
                        self.stage = CreateFileInStage::Finished { ok: false };
                        Step::Done(false)
                    },
                    Some(dir_cluster) => {
                        self.stage = CreateFileInStage::AwaitFat { layout, dir_cluster };
                        Step::Read(layout.fat_start)
                    },
                }
            },
            CreateFileInStage::AwaitFat { layout, dir_cluster } => match find_free_cluster(input) {
                None => {
                    self.stage = CreateFileInStage::Finished { ok: false };
                    Step::Done(false)
                },
                Some(cluster) => {
                    let sector = match cluster_sector(layout, cluster) {
                        Some(s) => s,
                        None => 0,
                    };
                    self.stage = CreateFileInStage::DataWritten { layout, dir_cluster, cluster };
                    Step::Write(sector, self.data)
                },
            },
            CreateFileInStage::DataWritten { layout, dir_cluster, cluster } => {
                self.stage = CreateFileInStage::AwaitFatAgain { layout, dir_cluster, cluster };
                Step::Read(layout.fat_start)
            },
            CreateFileInStage::AwaitFatAgain { layout, dir_cluster, cluster } => {
                let mut fat = *input;
                mark_cluster_used(&mut fat, cluster);
                self.stage = CreateFileInStage::FatWritten { layout, dir_cluster, cluster };
                Step::Write(layout.fat_start, fat)
            },
            CreateFileInStage::FatWritten { layout, dir_cluster, cluster } => match cluster_sector(
                layout,
                dir_cluster,
            ) {
                None => {
                    self.stage = CreateFileInStage::Failed;
                    Step::Corrupt
                },
                Some(dir_sector) => {
                    self.stage = CreateFileInStage::AwaitDir { layout, dir_sector, cluster };
                    Step::Read(dir_sector)
                },
            },
            CreateFileInStage::AwaitDir { layout, dir_sector, cluster } => {
                let mut d = *input;
                if write_file_entry(&mut d, self.name, self.ext, cluster, self.len) {
                    self.stage = CreateFileInStage::Finished { ok: true };
                    Step::Write(dir_sector, d)
                } else {
                    self.stage = CreateFileInStage::Finished { ok: false };
                    Step::Done(false)
                }
            },
            CreateFileInStage::Finished { ok } => Step::Done(ok),
            CreateFileInStage::Failed => Step::Corrupt,
        }
    }
}

/// Where a read of a file inside a directory stands.
#[derive(Clone, Copy, PartialEq, Eq, Debug)]
pub enum ReadFileInStage {
    Start,
    AwaitBoot,
    AwaitRoot { layout: Layout },
    AwaitDir { layout: Layout },
    AwaitData,
    Finished { result: FileRead },
    Failed,
}

/// Reading a file inside a directory of the root directory: find the directory, find the
/// file in it, read the file's data sector. The size reported for a file found is always
/// 512, a whole sector.
pub struct ReadFileIn<'a> {
    pub dir: &'a str,
    pub name: &'a str,
    pub ext: &'a str,
    pub stage: ReadFileInStage,
}

/// Starts reading the file `name`.`ext` inside the directory `dir` of the root directory.
pub fn read_file_in<'a>(dir: &'a str, name: &'a str, ext: &'a str) -> (op: ReadFileIn<'a>)
    ensures
        op == (ReadFileIn { dir, name, ext, stage: ReadFileInStage::Start }),
{
    ReadFileIn { dir, name, ext, stage: ReadFileInStage::Start }
}

/// The step that reads a file found in a directory sector, or reports it missing: shared by
/// the reads inside directories.
pub open spec fn find_then_read(input: Seq<u8>, layout: Layout, name: Seq<char>, ext: Seq<char>) -> Option<Option<u32>> {
    match spec_find_entry(input, name, ext, false) {
        None => None,
        Some(c) => Some(spec_cluster_sector(layout, c as int)),
    }
}

impl<'a> ReadFileIn<'a> {
    pub open spec fn at(self, stage: ReadFileInStage) -> Self {
        ReadFileIn { stage, ..self }
    }

    /// What one step of `read_file_in` does.
    pub open spec fn next_step(self, input: Seq<u8>, after: Self, r: Step<FileRead>) -> bool {
        let nothing = FileRead { size: 0, contents: None };
        match self.stage {
            ReadFileInStage::Start => after == self.at(ReadFileInStage::AwaitBoot) && r == Step::<FileRead>::Read(0),
            ReadFileInStage::AwaitBoot => {
                let l = spec_layout(input);
                after == self.at(ReadFileInStage::AwaitRoot { layout: l }) && r == Step::<FileRead>::Read(l.root_start)
            },
            ReadFileInStage::AwaitRoot { layout } => match spec_find_entry(input, self.dir@, Seq::empty(), true) {
                None => after == self.at(ReadFileInStage::Finished { result: nothing }) && r == Step::Done(nothing),
                Some(dc) => match spec_cluster_sector(layout, dc as int) {
                    None => after == self.at(ReadFileInStage::Failed) && r == Step::<FileRead>::Corrupt,
                    Some(ds) => after == self.at(ReadFileInStage::AwaitDir { layout }) && r
                        == Step::<FileRead>::Read(ds),
                },
            },
            ReadFileInStage::AwaitDir { layout } => match find_then_read(input, layout, self.name@, self.ext@) {
                None => after == self.at(ReadFileInStage::Finished { result: nothing }) && r == Step::Done(nothing),
                Some(None) => after == self.at(ReadFileInStage::Failed) && r == Step::<FileRead>::Corrupt,
                Some(Some(s)) => after == self.at(ReadFileInStage::AwaitData) && r == Step::<FileRead>::Read(s),
            },
            ReadFileInStage::AwaitData => {
                &&& r matches Step::Done(fr) && reads_file(fr, 512, input)
                    && after == self.at(ReadFileInStage::Finished { result: fr })
            },
            ReadFileInStage::Finished { result } => after == self && r == Step::Done(result),
            ReadFileInStage::Failed => after == self && r == Step::<FileRead>::Corrupt,
        }
    }

    pub open spec fn wf(&self) -> bool {
        match self.stage {
            ReadFileInStage::AwaitRoot { layout } => layout.wf(),
            ReadFileInStage::AwaitDir { layout } => layout.wf(),
            _ => true,
        }
    }

    /// Takes one step of `read_file_in`.
    pub fn step(&mut self, input: &Sector) -> (r: Step<FileRead>)
        requires
            old(self).wf(),
        ensures
            final(self).wf(),
            old(self).next_step(input@, *final(self), r),
    {
        let nothing = FileRead { size: 0, contents: None };
        match self.stage {
            ReadFileInStage::Start => {
                self.stage = ReadFileInStage::AwaitBoot;
                Step::Read(0)
            },
            ReadFileInStage::AwaitBoot => {
                let layout = get_layout(input);
                self.stage = ReadFileInStage::AwaitRoot { layout };
                Step::Read(layout.root_start)
            },
            ReadFileInStage::AwaitRoot { layout } => {
                proof {
                    reveal_strlit("");
                    assert(""@ =~= Seq::<char>::empty());
                }
                match find_entry(input, self.dir, "", true) {
                    None => {
                        self.stage = ReadFileInStage::Finished { result: nothing };
                        Step::Done(nothing)
                    },
                    Some(dc) => match cluster_sector(layout, dc) {
                        None => {
                            self.stage = ReadFileInStage::Failed;
                            Step::Corrupt
                        },
                        Some(ds) => {
                            self.stage = ReadFileInStage::AwaitDir { layout };
                            Step::Read(ds)
                        },
                    },
                }
            },
            ReadFileInStage::AwaitDir { layout } => match find_entry(input, self.name, self.ext, false) {
                None => {
                    self.stage = ReadFileInStage::Finished { result: nothing };
                    Step::Done(nothing)
                },
                Some(c) => match cluster_sector(layout, c) {
                    None => {
                        self.stage = ReadFileInStage::Failed;
                        Step::Corrupt
                    },
                    Some(s) => {
                        self.stage = ReadFileInStage::AwaitData;
                        Step::Read(s)
                    },
                },
            },
            ReadFileInStage::AwaitData => {
                let result = FileRead { size: 512, contents: Some(*input) };
                self.stage = ReadFileInStage::Finished { result };
                Step::Done(result)
            },
            ReadFileInStage::Finished { result } => Step::Done(result),
            ReadFileInStage::Failed => Step::Corrupt,
        }
    }
}

// ---------------------------------------------------------------------------------------
// Directories and files under a path.

/// Where `create_dir_at` stands.
#[derive(Clone, Copy, PartialEq, Eq, Debug)]
pub enum CreateDirAtStage {
    Start,
    AwaitBoot,
    Resolving { layout: Layout },
    AwaitFat { layout: Layout, parent: u32 },
    AwaitFatAgain { layout: Layout, parent: u32, cluster: u16 },
    FatWritten { layout: Layout, parent: u32, cluster: u16 },
    ZeroWritten { layout: Layout, parent: u32, cluster: u16 },
    AwaitParent { layout: Layout, parent: u32, cluster: u16 },
    Finished { ok: bool },
    Failed,
}

/// Making a directory under a path: find the directory of the path, take the lowest free
/// cluster, mark it used, zero it, and add a directory entry to the path's directory.
pub struct CreateDirAt<'a> {
    pub name: &'a str,
    pub resolve: Resolve<'a>,
    pub stage: CreateDirAtStage,
}

/// Starts making the directory `name` in the directory that `path` names (components
/// separated by `/`, empty components ignored, the root for an empty path).
pub fn create_dir_at<'a>(path: &'a str, name: &'a str) -> (op: CreateDirAt<'a>)
    ensures
        op.name == name,
        op.resolve.parts@.len() == path_components(path@).len(),
        forall|k: int| 0 <= k < op.resolve.parts@.len() ==> #[trigger] op.resolve.part(k) == path_components(path@)[k],
        op.resolve.next == 0,
        op.resolve.stage == ResolveStage::Start,
        op.stage == CreateDirAtStage::Start,
{
    CreateDirAt { name, resolve: Resolve::new(path), stage: CreateDirAtStage::Start }
}

impl<'a> CreateDirAt<'a> {
    pub open spec fn at(self, stage: CreateDirAtStage) -> Self {
        CreateDirAt { stage, ..self }
    }

    /// Advancing the walk down the path, and going on once it has found the directory.
    pub open spec fn walk(self, layout: Layout, input: Seq<u8>, after: Self, r: Step<bool>) -> bool {
        let (res, found) = self.resolve.spec_step(input);
        let moved = CreateDirAt { resolve: res, ..self };
        match found {
            Resolved::Read(s) => after == moved.at(CreateDirAtStage::Resolving { layout }) && r == Step::<bool>::Read(s),
            Resolved::Corrupt => after == moved.at(CreateDirAtStage::Failed) && r == Step::<bool>::Corrupt,
            Resolved::Found(None) => after == moved.at(CreateDirAtStage::Finished { ok: false }) && r == Step::Done(false),
            Resolved::Found(Some(p)) => after == moved.at(CreateDirAtStage::AwaitFat { layout, parent: p }) && r
                == Step::<bool>::Read(layout.fat_start),
        }
    }

    /// What one step of `create_dir_at` does.
    pub open spec fn next_step(self, input: Seq<u8>, after: Self, r: Step<bool>) -> bool {
        match self.stage {
            CreateDirAtStage::Start => after == self.at(CreateDirAtStage::AwaitBoot) && r == Step::<bool>::Read(0),
            CreateDirAtStage::AwaitBoot => self.walk(spec_layout(input), input, after, r),
            CreateDirAtStage::Resolving { layout } => self.walk(layout, input, after, r),
            CreateDirAtStage::AwaitFat { layout, parent } => match lowest_free(input) {
                None => after == self.at(CreateDirAtStage::Finished { ok: false }) && r == Step::Done(false),
                Some(c) => after == self.at(CreateDirAtStage::AwaitFatAgain { layout, parent, cluster: c }) && r
                    == Step::<bool>::Read(layout.fat_start),
            },
            CreateDirAtStage::AwaitFatAgain { layout, parent, cluster } => after == self.at(
                CreateDirAtStage::FatWritten { layout, parent, cluster },
            ) && writes(r, layout.fat_start, spec_mark_used(input, cluster as int)),
            CreateDirAtStage::FatWritten { layout, parent, cluster } => {
                &&& after == self.at(CreateDirAtStage::ZeroWritten { layout, parent, cluster })
                &&& spec_cluster_sector(layout, cluster as int) matches Some(s) && writes(r, s, zero_sector())
            },
            CreateDirAtStage::ZeroWritten { layout, parent, cluster } => after == self.at(
                CreateDirAtStage::AwaitParent { layout, parent, cluster },
            ) && r == Step::<bool>::Read(parent),
            CreateDirAtStage::AwaitParent { layout, parent, cluster } => match inserted(
                input,
                dir_entry(self.name.spec_bytes(), cluster, true),
            ) {
                Some(d) => after == self.at(CreateDirAtStage::Finished { ok: true }) && writes(r, parent, d),
                None => after == self.at(CreateDirAtStage::Finished { ok: false }) && r == Step::Done(false),
            },
            CreateDirAtStage::Finished { ok } => after == self && r == Step::Done(ok),
            CreateDirAtStage::Failed => after == self && r == Step::<bool>::Corrupt,
        }
    }

    pub open spec fn wf(&self) -> bool {
        &&& self.resolve.wf()
        &&& match self.stage {
            CreateDirAtStage::Resolving { layout } => layout.wf(),
            CreateDirAtStage::AwaitFat { layout, .. } => layout.wf(),
            CreateDirAtStage::AwaitFatAgain { layout, cluster, .. } => layout.wf() && 2 <= cluster < 256,
            CreateDirAtStage::FatWritten { layout, cluster, .. } => layout.wf() && 2 <= cluster < 256,
            CreateDirAtStage::ZeroWritten { layout, cluster, .. } => layout.wf() && 2 <= cluster < 256,
            CreateDirAtStage::AwaitParent { layout, cluster, .. } => layout.wf() && 2 <= cluster < 256,
            _ => true,
        }
    }

    fn walk_step(&mut self, layout: Layout, input: &Sector) -> (r: Step<bool>)
        requires
            old(self).wf(),
            layout.wf(),
        ensures
            final(self).wf(),
            old(self).walk(layout, input@, *final(self), r),
    {
        match self.resolve.step(input) {
            Resolved::Read(s) => {
                self.stage = CreateDirAtStage::Resolving { layout };
                Step::Read(s)
            },
            Resolved::Corrupt => {
                self.stage = CreateDirAtStage::Failed;
                Step::Corrupt
            },
            Resolved::Found(None) => {
                self.stage = CreateDirAtStage::Finished { ok: false };
                Step::Done(false)
            },
            Resolved::Found(Some(parent)) => {
                self.stage = CreateDirAtStage::AwaitFat { layout, parent };
                Step::Read(layout.fat_start)
            },
        }
    }

    /// Takes one step of `create_dir_at`.
    pub fn step(&mut self, input: &Sector) -> (r: Step<bool>)
        requires
            old(self).wf(),
        ensures
            final(self).wf(),
            old(self).next_step(input@, *final(self), r),
    {
        match self.stage {
            CreateDirAtStage::Start => {
                self.stage = CreateDirAtStage::AwaitBoot;
                Step::Read(0)
            },
            CreateDirAtStage::AwaitBoot => {
                let layout = get_layout(input);
                self.walk_step(layout, input)
            },
            CreateDirAtStage::Resolving { layout } => self.walk_step(layout, input),
            CreateDirAtStage::AwaitFat { layout, parent } => match find_free_cluster(input) {
                None => {
                    self.stage = CreateDirAtStage::Finished { ok: false };
                    Step::Done(false)
                },
                Some(cluster) => {
                    self.stage = CreateDirAtStage::AwaitFatAgain { layout, parent, cluster };
                    Step::Read(layout.fat_start)
                },
            },
            CreateDirAtStage::AwaitFatAgain { layout, parent, cluster } => {
                let mut fat = *input;
                mark_cluster_used(&mut fat, cluster);
                self.stage = CreateDirAtStage::FatWritten { layout, parent, cluster };
                Step::Write(layout.fat_start, fat)
            },
            CreateDirAtStage::FatWritten { layout, parent, cluster } => {
                let sector = match cluster_sector(layout, cluster) {
                    Some(s) => s,
                    None => 0,
                };
                let empty = [0u8; 512];
                proof {
                    assert(empty@ =~= zero_sector());
                }
                self.stage = CreateDirAtStage::ZeroWritten { layout, parent, cluster };
                Step::Write(sector, empty)
            },
            CreateDirAtStage::ZeroWritten { layout, parent, cluster } => {
                self.stage = CreateDirAtStage::AwaitParent { layout, parent, cluster };
                Step::Read(parent)
            },
            CreateDirAtStage::AwaitParent { layout, parent, cluster } => {
                let mut d = *input;
                if write_dir_entry(&mut d, self.name, cluster, true) {
                    self.stage = CreateDirAtStage::Finished { ok: true };
                    Step::Write(parent, d)
                } else {
                    self.stage = CreateDirAtStage::Finished { ok: false };
                    Step::Done(false)
                }
            },
            CreateDirAtStage::Finished { ok } => Step::Done(ok),
            CreateDirAtStage::Failed => Step::Corrupt,
        }
    }
}

/// Where `create_file_at` stands.
#[derive(Clone, Copy, PartialEq, Eq, Debug)]
pub enum CreateFileAtStage {
    Start,
    AwaitBoot,
    Resolving { layout: Layout },
    AwaitFat { layout: Layout, parent: u32 },
    DataWritten { layout: Layout, parent: u32, cluster: u16 },
    AwaitFatAgain { layout: Layout, parent: u32, cluster: u16 },
    FatWritten { layout: Layout, parent: u32, cluster: u16 },
    AwaitParent { layout: Layout, parent: u32, cluster: u16 },
    Finished { ok: bool },
    Failed,
}

/// Writing a new file under a path: find the directory of the path, take the lowest free
/// cluster, write the data there, mark the cluster used, and add a file entry to the path's
/// directory.
pub struct CreateFileAt<'a> {
    pub name: &'a str,
    pub ext: &'a str,
    pub data: Sector,
    pub len: usize,
    pub resolve: Resolve<'a>,
    pub stage: CreateFileAtStage,
}

/// Starts writing the file `name`.`ext` into the directory that `path` names.
pub fn create_file_at<'a>(path: &'a str, name: &'a str, ext: &'a str, content: &[u8]) -> (op: CreateFileAt<'a>)
    ensures
        op.name == name,
        op.ext == ext,
        op.data@ == spec_file_data(content@),
        op.len == stored_len(content@),
        op.resolve.parts@.len() == path_components(path@).len(),
        forall|k: int| 0 <= k < op.resolve.parts@.len() ==> #[trigger] op.resolve.part(k) == path_components(path@)[k],
        op.resolve.next == 0,
        op.resolve.stage == ResolveStage::Start,
        op.stage == CreateFileAtStage::Start,
{
    let len = if content.len() < 512 {
        content.len()
    } else {
        512
    };
    CreateFileAt {
        name,
        ext,
        data: file_data(content),
        len,
        resolve: Resolve::new(path),
        stage: CreateFileAtStage::Start,
    }
}

impl<'a> CreateFileAt<'a> {
    pub open spec fn at(self, stage: CreateFileAtStage) -> Self {
        CreateFileAt { stage, ..self }
    }

    /// Advancing the walk down the path, and going on once it has found the directory.
    pub open spec fn walk(self, layout: Layout, input: Seq<u8>, after: Self, r: Step<bool>) -> bool {
        let (res, found) = self.resolve.spec_step(input);
        let moved = CreateFileAt { resolve: res, ..self };
        match found {
            Resolved::Read(s) => after == moved.at(CreateFileAtStage::Resolving { layout }) && r == Step::<bool>::Read(s),
            Resolved::Corrupt => after == moved.at(CreateFileAtStage::Failed) && r == Step::<bool>::Corrupt,
            Resolved::Found(None) => after == moved.at(CreateFileAtStage::Finished { ok: false }) && r == Step::Done(false),
            Resolved::Found(Some(p)) => after == moved.at(CreateFileAtStage::AwaitFat { layout, parent: p }) && r
                == Step::<bool>::Read(layout.fat_start),
        }
    }

    /// What one step of `create_file_at` does.
    pub open spec fn next_step(self, input: Seq<u8>, after: Self, r: Step<bool>) -> bool {
        match self.stage {
            CreateFileAtStage::Start => after == self.at(CreateFileAtStage::AwaitBoot) && r == Step::<bool>::Read(0),
            CreateFileAtStage::AwaitBoot => self.walk(spec_layout(input), input, after, r),
            CreateFileAtStage::Resolving { layout } => self.walk(layout, input, after, r),
            CreateFileAtStage::AwaitFat { layout, parent } => match lowest_free(input) {
                None => after == self.at(CreateFileAtStage::Finished { ok: false }) && r == Step::Done(false),
                Some(c) => {
                    &&& after == self.at(CreateFileAtStage::DataWritten { layout, parent, cluster: c })
                    &&& spec_cluster_sector(layout, c as int) matches Some(s) && writes(r, s, self.data@)
                },
            },
            CreateFileAtStage::DataWritten { layout, parent, cluster } => after == self.at(
                CreateFileAtStage::AwaitFatAgain { layout, parent, cluster },
            ) && r == Step::<bool>::Read(layout.fat_start),
            CreateFileAtStage::AwaitFatAgain { layout, parent, cluster } => after == self.at(
                CreateFileAtStage::FatWritten { layout, parent, cluster },
            ) && writes(r, layout.fat_start, spec_mark_used(input, cluster as int)),
            CreateFileAtStage::FatWritten { layout, parent, cluster } => after == self.at(
                CreateFileAtStage::AwaitParent { layout, parent, cluster },
            ) && r == Step::<bool>::Read(parent),
            CreateFileAtStage::AwaitParent { layout, parent, cluster } => match inserted(
                input,
                file_entry(self.name.spec_bytes(), self.ext.spec_bytes(), cluster, self.len),
            ) {
                Some(d) => after == self.at(CreateFileAtStage::Finished { ok: true }) && writes(r, parent, d),
                None => after == self.at(CreateFileAtStage::Finished { ok: false }) && r == Step::Done(false),
            },
            CreateFileAtStage::Finished { ok } => after == self && r == Step::Done(ok),
            CreateFileAtStage::Failed => after == self && r == Step::<bool>::Corrupt,
        }
    }

    pub open spec fn wf(&self) -> bool {
        &&& self.resolve.wf()
        &&& match self.stage {
            CreateFileAtStage::Resolving { layout } => layout.wf(),
            CreateFileAtStage::AwaitFat { layout, .. } => layout.wf(),
            CreateFileAtStage::DataWritten { layout, cluster, .. } => layout.wf() && 2 <= cluster < 256,
            CreateFileAtStage::AwaitFatAgain { layout, cluster, .. } => layout.wf() && 2 <= cluster < 256,
            CreateFileAtStage::FatWritten { layout, cluster, .. } => layout.wf() && 2 <= cluster < 256,
            CreateFileAtStage::AwaitParent { layout, cluster, .. } => layout.wf() && 2 <= cluster < 256,
            _ => true,
        }
    }

    fn walk_step(&mut self, layout: Layout, input: &Sector) -> (r: Step<bool>)
        requires
            old(self).wf(),
            layout.wf(),
        ensures
            final(self).wf(),
            old(self).walk(layout, input@, *final(self), r),
    {
        match self.resolve.step(input) {
            Resolved::Read(s) => {
                self.stage = CreateFileAtStage::Resolving { layout };
                Step::Read(s)
            },
            Resolved::Corrupt => {
                self.stage = CreateFileAtStage::Failed;
                Step::Corrupt
            },
            Resolved::Found(None) => {
                self.stage = CreateFileAtStage::Finished { ok: false };
                Step::Done(false)
            },
            Resolved::Found(Some(parent)) => {
                self.stage = CreateFileAtStage::AwaitFat { layout, parent };
                Step::Read(layout.fat_start)
            },
        }
    }

    /// Takes one step of `create_file_at`.
    pub fn step(&mut self, input: &Sector) -> (r: Step<bool>)
        requires
            old(self).wf(),
        ensures
            final(self).wf(),
            old(self).next_step(input@, *final(self), r),
    {
        match self.stage {
            CreateFileAtStage::Start => {
                self.stage = CreateFileAtStage::AwaitBoot;
                Step::Read(0)
            },
            CreateFileAtStage::AwaitBoot => {
                let layout = get_layout(input);
                self.walk_step(layout, input)
            },
            CreateFileAtStage::Resolving { layout } => self.walk_step(layout, input),
            CreateFileAtStage::AwaitFat { layout, parent } => match find_free_cluster(input) {
                None => {
                    self.stage = CreateFileAtStage::Finished { ok: false };
                    Step::Done(false)
                },
                Some(cluster) => {
                    let sector = match cluster_sector(layout, cluster) {
                        Some(s) => s,
                        None => 0,
                    };
                    self.stage = CreateFileAtStage::DataWritten { layout, parent, cluster };
                    Step::Write(sector, self.data)
                },
            },
            CreateFileAtStage::DataWritten { layout, parent, cluster } => {
                self.stage = CreateFileAtStage::AwaitFatAgain { layout, parent, cluster };
                Step::Read(layout.fat_start)
            },
            CreateFileAtStage::AwaitFatAgain { layout, parent, cluster } => {
                let mut fat = *input;
                mark_cluster_used(&mut fat, cluster);
                self.stage = CreateFileAtStage::FatWritten { layout, parent, cluster };
                Step::Write(layout.fat_start, fat)
            },
            CreateFileAtStage::FatWritten { layout, parent, cluster } => {
                self.stage = CreateFileAtStage::AwaitParent { layout, parent, cluster };
                Step::Read(parent)
            },
            CreateFileAtStage::AwaitParent { layout, parent, cluster } => {
                let mut d = *input;
                if write_file_entry(&mut d, self.name, self.ext, cluster, self.len) {
                    self.stage = CreateFileAtStage::Finished { ok: true };
                    Step::Write(parent, d)
                } else {
                    self.stage = CreateFileAtStage::Finished { ok: false };
                    Step::Done(false)
                }
            },
            CreateFileAtStage::Finished { ok } => Step::Done(ok),
            CreateFileAtStage::Failed => Step::Corrupt,
        }
    }
}

/// Where `read_file_at` stands.
#[derive(Clone, Copy, PartialEq, Eq, Debug)]
pub enum ReadFileAtStage {
    Start,
    AwaitBoot,
    Resolving { layout: Layout },
    AwaitParent { layout: Layout },
    AwaitData,
    Finished { result: FileRead },
    Failed,
}

/// Reading a file under a path: find the directory of the path, find the file in it, read
/// the file's data sector. The size reported for a file found is always 512, a whole sector.
pub struct ReadFileAt<'a> {
    pub name: &'a str,
    pub ext: &'a str,
    pub resolve: Resolve<'a>,
    pub stage: ReadFileAtStage,
}

/// Starts reading the file `name`.`ext` in the directory that `path` names.
pub fn read_file_at<'a>(path: &'a str, name: &'a str, ext: &'a str) -> (op: ReadFileAt<'a>)
    ensures
        op.name == name,
        op.ext == ext,
        op.resolve.parts@.len() == path_components(path@).len(),
        forall|k: int| 0 <= k < op.resolve.parts@.len() ==> #[trigger] op.resolve.part(k) == path_components(path@)[k],
        op.resolve.next == 0,
        op.resolve.stage == ResolveStage::Start,
        op.stage == ReadFileAtStage::Start,
{
    ReadFileAt { name, ext, resolve: Resolve::new(path), stage: ReadFileAtStage::Start }
}

impl<'a> ReadFileAt<'a> {
    pub open spec fn at(self, stage: ReadFileAtStage) -> Self {
        ReadFileAt { stage, ..self }
    }

    /// Advancing the walk down the path, and going on once it has found the directory.
    pub open spec fn walk(self, layout: Layout, input: Seq<u8>, after: Self, r: Step<FileRead>) -> bool {
        let (res, found) = self.resolve.spec_step(input);
        let moved = ReadFileAt { resolve: res, ..self };
        let nothing = FileRead { size: 0, contents: None };
        match found {
            Resolved::Read(s) => after == moved.at(ReadFileAtStage::Resolving { layout }) && r
                == Step::<FileRead>::Read(s),
            Resolved::Corrupt => after == moved.at(ReadFileAtStage::Failed) && r == Step::<FileRead>::Corrupt,
            Resolved::Found(None) => after == moved.at(ReadFileAtStage::Finished { result: nothing }) && r
                == Step::Done(nothing),
            Resolved::Found(Some(p)) => after == moved.at(ReadFileAtStage::AwaitParent { layout }) && r
                == Step::<FileRead>::Read(p),
        }
    }

    /// What one step of `read_file_at` does.
    pub open spec fn next_step(self, input: Seq<u8>, after: Self, r: Step<FileRead>) -> bool {
        let nothing = FileRead { size: 0, contents: None };
        match self.stage {
            ReadFileAtStage::Start => after == self.at(ReadFileAtStage::AwaitBoot) && r == Step::<FileRead>::Read(0),
            ReadFileAtStage::AwaitBoot => self.walk(spec_layout(input), input, after, r),
            ReadFileAtStage::Resolving { layout } => self.walk(layout, input, after, r),
            ReadFileAtStage::AwaitParent { layout } => match find_then_read(input, layout, self.name@, self.ext@) {
                None => after == self.at(ReadFileAtStage::Finished { result: nothing }) && r == Step::Done(nothing),
                Some(None) => after == self.at(ReadFileAtStage::Failed) && r == Step::<FileRead>::Corrupt,
                Some(Some(s)) => after == self.at(ReadFileAtStage::AwaitData) && r == Step::<FileRead>::Read(s),
            },
            ReadFileAtStage::AwaitData => {
                &&& r matches Step::Done(fr) && reads_file(fr, 512, input)
                    && after == self.at(ReadFileAtStage::Finished { result: fr })
            },
            ReadFileAtStage::Finished { result } => after == self && r == Step::Done(result),
            ReadFileAtStage::Failed => after == self && r == Step::<FileRead>::Corrupt,
        }
    }

    pub open spec fn wf(&self) -> bool {
        &&& self.resolve.wf()
        &&& match self.stage {
            ReadFileAtStage::Resolving { layout } => layout.wf(),
            ReadFileAtStage::AwaitParent { layout } => layout.wf(),
            _ => true,
        }
    }

    fn walk_step(&mut self, layout: Layout, input: &Sector) -> (r: Step<FileRead>)
        requires
            old(self).wf(),
            layout.wf(),
        ensures
            final(self).wf(),
            old(self).walk(layout, input@, *final(self), r),
    {
        let nothing = FileRead { size: 0, contents: None };
        match self.resolve.step(input) {
            Resolved::Read(s) => {
                self.stage = ReadFileAtStage::Resolving { layout };
                Step::Read(s)
            },
            Resolved::Corrupt => {
                self.stage = ReadFileAtStage::Failed;
                Step::Corrupt
            },
            Resolved::Found(None) => {
                self.stage = ReadFileAtStage::Finished { result: nothing };
                Step::Done(nothing)
            },
            Resolved::Found(Some(parent)) => {
                self.stage = ReadFileAtStage::AwaitParent { layout };
                Step::Read(parent)
            },
        }
    }

    /// Takes one step of `read_file_at`.
    pub fn step(&mut self, input: &Sector) -> (r: Step<FileRead>)
        requires
            old(self).wf(),
        ensures
            final(self).wf(),
            old(self).next_step(input@, *final(self), r),
    {
        let nothing = FileRead { size: 0, contents: None };
        match self.stage {
            ReadFileAtStage::Start => {
                self.stage = ReadFileAtStage::AwaitBoot;
                Step::Read(0)
            },
            ReadFileAtStage::AwaitBoot => {
                let layout = get_layout(input);
                self.walk_step(layout, input)
            },
            ReadFileAtStage::Resolving { layout } => self.walk_step(layout, input),
            ReadFileAtStage::AwaitParent { layout } => match find_entry(input, self.name, self.ext, false) {
                None => {
                    self.stage = ReadFileAtStage::Finished { result: nothing };
                    Step::Done(nothing)
                },
                Some(c) => match cluster_sector(layout, c) {
                    None => {
                        self.stage = ReadFileAtStage::Failed;
                        Step::Corrupt
                    },
                    Some(s) => {
                        self.stage = ReadFileAtStage::AwaitData;
                        Step::Read(s)
                    },
                },
            },
            ReadFileAtStage::AwaitData => {
                let result = FileRead { size: 512, contents: Some(*input) };
                self.stage = ReadFileAtStage::Finished { result };
                Step::Done(result)
            },
            ReadFileAtStage::Finished { result } => Step::Done(result),
            ReadFileAtStage::Failed => Step::Corrupt,
        }
    }
}

} // verus!
