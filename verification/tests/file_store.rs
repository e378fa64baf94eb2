use tinykernel::fat::dir::{find_entry, find_file, list_files, write_file_entry};
use tinykernel::fat::layout::{cluster_sector, file_data, get_layout, u16_from_le, Layout};
use tinykernel::fat::ops::{
    create_dir, create_dir_at, create_file, create_file_at, create_file_in, delete_file, list_root,
    read_file, read_file_at, read_file_in, FileRead, Step,
};
use tinykernel::fat::path::components;
use tinykernel::fat::table::{find_free_cluster, mark_cluster_used};

type Disk = Vec<[u8; 512]>;

/// A formatted disk of 128 sectors: one reserved sector, two FAT copies of one sector, a
/// root directory of 512 entries (32 sectors), one sector per cluster. So the FAT is at
/// sector 1, the root directory at sector 3 and cluster 2 at sector 35.
fn formatted_disk() -> Disk {
    let mut disk = vec![[0u8; 512]; 128];
    let boot = &mut disk[0];
    boot[13] = 1;
    boot[14] = 1;
    boot[17] = 0x00;
    boot[18] = 0x02;
    boot[22] = 1;
    boot[510] = 0x55;
    boot[511] = 0xAA;
    let fat = &mut disk[1];
    fat[0] = 0xF8;
    fat[1] = 0xFF;
    fat[2] = 0xFF;
    fat[3] = 0xFF;
    disk
}

/// Drives an operation against `disk` until it finishes, as the kernel does with the
/// ATA driver.
fn drive<R>(disk: &mut Disk, mut step: impl FnMut(&[u8; 512]) -> Step<R>) -> R {
    let mut input = [0u8; 512];
    for _ in 0..100 {
        match step(&input) {
            Step::Read(s) => input = disk[s as usize],
            Step::Write(s, d) => disk[s as usize] = d,
            Step::Done(r) => return r,
            Step::Corrupt => panic!("corrupt file store"),
        }
    }
    panic!("operation did not finish");
}

fn new_file(disk: &mut Disk, name: &str, ext: &str, content: &[u8]) -> bool {
    let mut op = create_file(name, ext, content);
    drive(disk, |s| op.step(s))
}

fn get_file(disk: &mut Disk, name: &str, ext: &str) -> FileRead {
    let mut op = read_file(name, ext);
    drive(disk, |s| op.step(s))
}

#[test]
fn layout_of_formatted_disk() {
    let disk = formatted_disk();
    let l = get_layout(&disk[0]);
    assert_eq!(l, Layout { fat_start: 1, root_start: 3, data_start: 35, sectors_per_cluster: 1 });
    assert_eq!(cluster_sector(l, 2), Some(35));
    assert_eq!(cluster_sector(l, 7), Some(40));
    assert_eq!(cluster_sector(l, 1), None);
    assert_eq!(cluster_sector(l, 0), None);
}

#[test]
fn little_endian_u16() {
    assert_eq!(u16_from_le(0x34, 0x12), 0x1234);
    assert_eq!(u16_from_le(0xFF, 0xFF), 0xFFFF);
    assert_eq!(u16_from_le(0, 0), 0);
}

#[test]
fn file_data_pads_and_cuts() {
    let d = file_data(b"abc");
    assert_eq!(&d[..3], b"abc");
    assert!(d[3..].iter().all(|&b| b == 0));
    let long = vec![7u8; 600];
    let d = file_data(&long);
    assert!(d.iter().all(|&b| b == 7));
}

#[test]
fn fat_lowest_free_and_mark() {
    let disk = formatted_disk();
    let mut fat = disk[1];
    assert_eq!(find_free_cluster(&fat), Some(2));
    mark_cluster_used(&mut fat, 2);
    assert_eq!(fat[4], 0xFF);
    assert_eq!(fat[5], 0xFF);
    assert_eq!(find_free_cluster(&fat), Some(3));
    let full = [0xFFu8; 512];
    assert_eq!(find_free_cluster(&full), None);
}

#[test]
fn create_then_read_root_file() {
    let mut disk = formatted_disk();
    assert!(new_file(&mut disk, "HELLO", "TXT", b"hi there"));
    // the data went to cluster 2, the FAT marks it, the root has the entry
    assert_eq!(&disk[35][..8], b"hi there");
    assert_eq!(&disk[1][4..6], &[0xFF, 0xFF]);
    assert_eq!(&disk[3][..11], b"HELLO   TXT");
    assert_eq!(disk[3][26], 2);
    assert_eq!(disk[3][28], 8);
    let r = get_file(&mut disk, "hello", "txt");
    assert_eq!(r.size, 8);
    let contents = r.contents.unwrap();
    assert_eq!(&contents[..8], b"hi there");
}

#[test]
fn second_file_takes_next_cluster() {
    let mut disk = formatted_disk();
    assert!(new_file(&mut disk, "A", "TXT", b"one"));
    assert!(new_file(&mut disk, "B", "BIN", b"two"));
    assert_eq!(disk[3][32 + 26], 3);
    assert_eq!(&disk[36][..3], b"two");
    let r = get_file(&mut disk, "B", "BIN");
    assert_eq!(r.size, 3);
    assert_eq!(&r.contents.unwrap()[..3], b"two");
}

#[test]
fn missing_file_reads_nothing() {
    let mut disk = formatted_disk();
    let r = get_file(&mut disk, "NOPE", "TXT");
    assert_eq!(r, FileRead { size: 0, contents: None });
}

#[test]
fn long_names_are_cut() {
    let mut disk = formatted_disk();
    assert!(new_file(&mut disk, "VERYLONGNAME", "TEXT", b"x"));
    assert_eq!(&disk[3][..11], b"VERYLONGTEX");
}

#[test]
fn content_longer_than_a_sector_is_cut() {
    let mut disk = formatted_disk();
    let big = vec![b'z'; 700];
    assert!(new_file(&mut disk, "BIG", "DAT", &big));
    let r = get_file(&mut disk, "BIG", "DAT");
    assert_eq!(r.size, 512);
}

#[test]
fn full_fat_refuses_a_file() {
    let mut disk = formatted_disk();
    disk[1] = [0xFFu8; 512];
    assert!(!new_file(&mut disk, "A", "TXT", b"a"));
    assert_eq!(disk[3], [0u8; 512]);
}

#[test]
fn full_root_refuses_a_file() {
    let mut disk = formatted_disk();
    for i in 0..16 {
        disk[3][i * 32] = b'Q';
    }
    assert!(!new_file(&mut disk, "A", "TXT", b"a"));
}

#[test]
fn delete_then_read_finds_nothing() {
    let mut disk = formatted_disk();
    assert!(new_file(&mut disk, "GONE", "TXT", b"bye"));
    let mut op = delete_file("GONE", "TXT");
    assert!(drive(&mut disk, |s| op.step(s)));
    assert_eq!(disk[3][0], 0xE5);
    assert_eq!(get_file(&mut disk, "GONE", "TXT").size, 0);
    let mut again = delete_file("GONE", "TXT");
    assert!(!drive(&mut disk, |s| again.step(s)));
}

#[test]
fn listing_of_root() {
    let mut disk = formatted_disk();
    assert!(new_file(&mut disk, "A", "TXT", b"1"));
    assert!(new_file(&mut disk, "NOTES", "MD", b"2"));
    let mut op = list_root();
    let listing = drive(&mut disk, |s| op.step(s));
    let expected = b"A.TXT,NOTES.MD,";
    assert_eq!(&listing[..expected.len()], expected);
    assert!(listing[expected.len()..].iter().all(|&b| b == 0));
    assert_eq!(list_files(&disk[3]), listing);
}

#[test]
fn listing_stops_at_64_bytes() {
    let mut disk = formatted_disk();
    for n in ["AAAAAAAA", "BBBBBBBB", "CCCCCCCC", "DDDDDDDD", "EEEEEEEE"] {
        assert!(new_file(&mut disk, n, "TXT", b"."));
    }
    let listing = list_files(&disk[3]);
    let expected = b"AAAAAAAA.TXT,BBBBBBBB.TXT,CCCCCCCC.TXT,DDDDDDDD.TXT,EEEEEEEE.TXT";
    assert_eq!(&listing[..], &expected[..64]);
}

#[test]
fn directory_entries_and_lookup() {
    let mut dir = [0u8; 512];
    assert!(write_file_entry(&mut dir, "DATA", "BIN", 9, 300));
    assert_eq!(&dir[..11], b"DATA    BIN");
    assert_eq!(dir[11], 0);
    assert_eq!(dir[26], 9);
    assert_eq!(dir[28], 44);
    assert_eq!(dir[29], 1);
    assert_eq!(find_entry(&dir, "data", "bin", false), Some(9));
    assert_eq!(find_entry(&dir, "DATA", "BIN", true), None);
    assert_eq!(find_file(&dir, "DATA", "BIN"), Some(0));
    assert_eq!(find_file(&dir, "DATA", "TXT"), None);
}

#[test]
fn create_dir_in_root() {
    let mut disk = formatted_disk();
    disk[35] = [0xAAu8; 512];
    let mut op = create_dir("DOCS");
    assert!(drive(&mut disk, |s| op.step(s)));
    assert_eq!(disk[35], [0u8; 512]);
    assert_eq!(&disk[3][..8], b"DOCS    ");
    assert_eq!(disk[3][11], 0x10);
    assert_eq!(find_entry(&disk[3], "DOCS", "", true), Some(2));
}

#[test]
fn file_in_a_directory() {
    let mut disk = formatted_disk();
    let mut mk = create_dir("DOCS");
    assert!(drive(&mut disk, |s| mk.step(s)));
    let mut op = create_file_in("DOCS", "A", "TXT", b"inside");
    assert!(drive(&mut disk, |s| op.step(s)));
    // DOCS is cluster 2 (sector 35), the file cluster 3 (sector 36)
    assert_eq!(find_entry(&disk[35], "A", "TXT", false), Some(3));
    let mut rd = read_file_in("DOCS", "A", "TXT");
    let r = drive(&mut disk, |s| rd.step(s));
    assert_eq!(r.size, 512);
    assert_eq!(&r.contents.unwrap()[..6], b"inside");
    let mut none = read_file_in("NODIR", "A", "TXT");
    assert_eq!(drive(&mut disk, |s| none.step(s)).size, 0);
    let mut nodir = create_file_in("NODIR", "A", "TXT", b"x");
    assert!(!drive(&mut disk, |s| nodir.step(s)));
}

#[test]
fn path_components_skip_empty_pieces() {
    assert_eq!(components("/DOCS//SRC/"), vec!["DOCS", "SRC"]);
    assert_eq!(components("/"), Vec::<&str>::new());
    assert_eq!(components(""), Vec::<&str>::new());
    assert_eq!(components("A"), vec!["A"]);
}

#[test]
fn nested_directories_by_path() {
    let mut disk = formatted_disk();
    let mut a = create_dir_at("/", "DOCS");
    assert!(drive(&mut disk, |s| a.step(s)));
    let mut b = create_dir_at("/DOCS", "SRC");
    assert!(drive(&mut disk, |s| b.step(s)));
    let mut w = create_file_at("/DOCS/SRC", "MAIN", "RS", b"fn main");
    assert!(drive(&mut disk, |s| w.step(s)));
    let mut r = read_file_at("DOCS/SRC", "main", "rs");
    let got = drive(&mut disk, |s| r.step(s));
    assert_eq!(got.size, 512);
    assert_eq!(&got.contents.unwrap()[..7], b"fn main");
    let mut missing = read_file_at("/DOCS/NOPE", "MAIN", "RS");
    assert_eq!(drive(&mut disk, |s| missing.step(s)).size, 0);
    let mut bad = create_file_at("/NOPE", "X", "Y", b"z");
    assert!(!drive(&mut disk, |s| bad.step(s)));
}

#[test]
fn corrupt_cluster_is_reported() {
    let mut disk = formatted_disk();
    let mut dir = disk[3];
    assert!(write_file_entry(&mut dir, "BAD", "TXT", 1, 3));
    disk[3] = dir;
    let mut op = read_file("BAD", "TXT");
    let mut input = [0u8; 512];
    let mut corrupt = false;
    for _ in 0..10 {
        match op.step(&input) {
            Step::Read(s) => input = disk[s as usize],
            Step::Write(_, _) => panic!("reading writes nothing"),
            Step::Done(_) => break,
            Step::Corrupt => {
                corrupt = true;
                break;
            }
        }
    }
    assert!(corrupt);
}
