use tinykernel::fat::ops::Step;
use tinykernel::screen::Writer;
use tinykernel::shell::{
    cd, clear, command_delete, command_delete_reply, command_disktest, command_echo, command_help,
    command_read, command_read_reply, command_write, command_write_reply, commeand_list, dispatch_command,
    mkdir, mkdir_reply, pop_directory, rmdir, rmdir_reply, split_once, Command, ShellDir, CD_UNKNOWN,
    DISK_NO_SIGNATURE, DISK_OK, HELP_TEXT, NOT_FOUND_REPLY,
};

type Disk = Vec<[u8; 512]>;

fn screen() -> Writer {
    Writer::new(0, 640, 480, 2560, 0xFFFFFF)
}

fn formatted_disk() -> Disk {
    let mut disk = vec![[0u8; 512]; 64];
    disk[0][13] = 1;
    disk[0][14] = 1;
    disk[0][18] = 0x02;
    disk[0][22] = 1;
    disk[0][510] = 0x55;
    disk[0][511] = 0xAA;
    disk[1][..4].copy_from_slice(&[0xF8, 0xFF, 0xFF, 0xFF]);
    disk
}

fn drive<R>(disk: &mut Disk, mut step: impl FnMut(&[u8; 512]) -> Step<R>) -> R {
    let mut input = [0u8; 512];
    for _ in 0..100 {
        match step(&input) {
            Step::Read(s) => input = disk[s as usize],
            Step::Write(s, d) => disk[s as usize] = d,
            Step::Done(r) => return r,
            Step::Corrupt => panic!("corrupt file store"),
        }
    }
    panic!("operation did not finish");
}

fn listing_of(text: &str) -> [u8; 64] {
    let mut l = [0u8; 64];
    l[..text.len()].copy_from_slice(text.as_bytes());
    l
}

#[test]
fn split_at_first_separator() {
    assert_eq!(split_once("WRITE A.TXT hello world", ' '), ("WRITE", Some("A.TXT hello world")));
    assert_eq!(split_once("LS", ' '), ("LS", None));
    assert_eq!(split_once("", ' '), ("", None));
    assert_eq!(split_once("A.B.C", '.'), ("A", Some("B.C")));
    assert_eq!(split_once("X ", ' '), ("X", Some("")));
}

#[test]
fn dispatch_names_commands() {
    assert_eq!(dispatch_command("ECHO hi there"), (Command::Echo, "hi there"));
    assert_eq!(dispatch_command("HELP"), (Command::Help, ""));
    assert_eq!(dispatch_command("CLEAR"), (Command::Clear, ""));
    assert_eq!(dispatch_command("DISKTEST"), (Command::DiskTest, ""));
    assert_eq!(dispatch_command("WRITE A.TXT x"), (Command::Write, "A.TXT x"));
    assert_eq!(dispatch_command("READ A.TXT"), (Command::Read, "A.TXT"));
    assert_eq!(dispatch_command("DELETE A.TXT"), (Command::Delete, "A.TXT"));
    assert_eq!(dispatch_command("LS"), (Command::List, ""));
    assert_eq!(dispatch_command("MKDIR D"), (Command::Mkdir, "D"));
    assert_eq!(dispatch_command("RMDIR D"), (Command::Rmdir, "D"));
    assert_eq!(dispatch_command("CD D"), (Command::Cd, "D"));
    assert_eq!(dispatch_command("SWITCH"), (Command::Switch, ""));
    assert_eq!(dispatch_command(""), (Command::Empty, ""));
    assert_eq!(dispatch_command("echo hi"), (Command::NotFound, "hi"));
    assert_eq!(dispatch_command("FOO"), (Command::NotFound, ""));
    assert_eq!(NOT_FOUND_REPLY, "errore commend not found");
}

#[test]
fn echo_help_and_clear_print() {
    let mut w = screen();
    let mut v = screen();
    assert_eq!(command_echo(&mut w, "HI"), v.println("HI"));
    assert_eq!(command_help(&mut w, "ignored"), v.println(HELP_TEXT));
    assert_eq!(HELP_TEXT, "Available commands: echo, clear, help");
    assert_eq!(clear(&mut w, ""), v.clear_screen());
    assert_eq!((w.x, w.y), (20, 20));
}

#[test]
fn disktest_checks_boot_signature() {
    let disk = formatted_disk();
    let mut w = screen();
    let mut v = screen();
    assert_eq!(command_disktest(&mut w, &disk[0]), v.println(DISK_OK));
    let blank = [0u8; 512];
    assert_eq!(command_disktest(&mut w, &blank), v.println(DISK_NO_SIGNATURE));
}

#[test]
fn write_then_read_in_working_directory() {
    let mut disk = formatted_disk();
    let dir = ShellDir::root();
    let mut op = command_write("NOTE.TXT hello world", dir.path());
    assert_eq!((op.name, op.ext, op.len), ("NOTE", "TXT", 11));
    let ok = drive(&mut disk, |s| op.step(s));
    assert!(ok);
    assert_eq!(command_write_reply(ok), "File created!");
    assert_eq!(command_write_reply(false), "Error: disk full or dir full");
    let mut rd = command_read("note.txt", dir.path());
    let r = drive(&mut disk, |s| rd.step(s));
    assert_eq!(r.size, 512);
    let buf = r.contents.unwrap();
    assert_eq!(&buf[..11], b"hello world");
    let mut w = screen();
    let mut v = screen();
    let text = core::str::from_utf8(&buf).unwrap();
    assert_eq!(command_read_reply(&mut w, r.size, &buf), v.println(text));
}

#[test]
fn write_without_dot_uses_txt() {
    let op = command_write("PLAIN data", "/");
    assert_eq!((op.name, op.ext), ("PLAIN", "TXT"));
    let empty = command_write("EMPTY.MD", "/");
    assert_eq!(empty.len, 0);
}

#[test]
fn read_reply_cases() {
    let mut w = screen();
    let mut v = screen();
    let buf = [0u8; 512];
    assert_eq!(command_read_reply(&mut w, 0, &buf), v.println("File not found"));
    let mut bad = [0u8; 512];
    bad[0] = 0xFF;
    assert_eq!(command_read_reply(&mut w, 3, &bad), v.println("???"));
    let mut good = [0u8; 512];
    good[..2].copy_from_slice(b"OK");
    assert_eq!(command_read_reply(&mut w, 2, &good), v.println("OK"));
}

#[test]
fn delete_rmdir_and_list() {
    assert_eq!(command_delete("A.TXT"), ("A", "TXT"));
    assert_eq!(command_delete("NOEXT"), ("NOEXT", ""));
    assert_eq!(command_delete_reply(true), "deleted successfully");
    assert_eq!(command_delete_reply(false), "deleting file failed");
    assert_eq!(rmdir("OLD extra"), "OLD");
    assert_eq!(rmdir_reply(true), "deleted successfully");
    assert_eq!(rmdir_reply(false), "deleting failed");
    let mut w = screen();
    let mut v = screen();
    let l = listing_of("A.TXT,");
    assert_eq!(commeand_list(&mut w, &l), v.println(core::str::from_utf8(&l).unwrap()));
}

#[test]
fn mkdir_then_cd_then_write() {
    let mut disk = formatted_disk();
    let mut dir = ShellDir::root();
    let mut mk = mkdir("DOCS more", dir.path());
    assert_eq!(mk.name, "DOCS");
    let ok = drive(&mut disk, |s| mk.step(s));
    assert!(ok);
    assert_eq!(mkdir_reply(ok), "crated successfully");
    assert_eq!(mkdir_reply(false), "failed");
    let mut w = screen();
    let ops = cd(&mut w, "DOCS", &mut dir, &listing_of("DOCS.,"));
    assert!(ops.is_empty());
    assert_eq!(dir.path(), "/DOCS");
    let mut op = command_write("IN.TXT deep", dir.path());
    assert!(drive(&mut disk, |s| op.step(s)));
    let mut rd = command_read("IN.TXT", dir.path());
    let r = drive(&mut disk, |s| rd.step(s));
    assert_eq!(&r.contents.unwrap()[..4], b"deep");
}

#[test]
fn cd_moves_through_directories() {
    let mut dir = ShellDir::root();
    let mut w = screen();
    let l = listing_of("A.,B.,");
    cd(&mut w, "A", &mut dir, &l);
    assert_eq!(dir.path(), "/A");
    cd(&mut w, "B", &mut dir, &l);
    assert_eq!(dir.path(), "/A/B");
    cd(&mut w, "..", &mut dir, &l);
    assert_eq!(dir.path(), "/A");
    cd(&mut w, "..", &mut dir, &l);
    assert_eq!(dir.path(), "/");
    cd(&mut w, "..", &mut dir, &l);
    assert_eq!(dir.path(), "/");
    cd(&mut w, "A", &mut dir, &l);
    cd(&mut w, "/", &mut dir, &l);
    assert_eq!(dir.path(), "/");
}

#[test]
fn cd_to_unknown_directory_complains() {
    let mut dir = ShellDir::root();
    let mut w = screen();
    let mut v = screen();
    let ops = cd(&mut w, "NOWHERE", &mut dir, &listing_of("A.,"));
    assert_eq!(ops, v.println(CD_UNKNOWN));
    assert_eq!(CD_UNKNOWN, "dir doesn't exists");
    assert_eq!(dir.path(), "/");
}

#[test]
fn cd_path_stops_at_64_bytes() {
    let mut dir = ShellDir::root();
    let mut w = screen();
    let name = "ABCDEFGHIJKLMNOPQRSTUVWXYZ";
    let l = listing_of(name);
    cd(&mut w, name, &mut dir, &l);
    cd(&mut w, name, &mut dir, &l);
    assert_eq!(dir.path().len(), 54);
    cd(&mut w, name, &mut dir, &l);
    // the slash still fits, the name does not
    assert_eq!(dir.path().len(), 55);
    assert!(dir.path().ends_with('/'));
}

#[test]
fn pop_directory_cuts_at_last_slash() {
    let mut dir = ShellDir::root();
    let mut w = screen();
    let l = listing_of("X.,Y.,");
    cd(&mut w, "X", &mut dir, &l);
    cd(&mut w, "Y", &mut dir, &l);
    pop_directory(&mut dir);
    assert_eq!(dir.path(), "/X");
    pop_directory(&mut dir);
    assert_eq!(dir.path(), "/");
    pop_directory(&mut dir);
    assert_eq!(dir.path(), "/");
}
