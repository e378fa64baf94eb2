//! The shell: splitting a command line, the commands' replies, and the working directory.
//!
//! Commands that touch the disk hand back the file-store operation to drive (see
//! [`crate::fat::ops`]); commands that print hand back what to draw.

use vstd::prelude::*;
use vstd::string::{StrSliceExecFns, StringSliceAdditionalSpecFns};
use vstd::utf8::{encode_scalar, encode_utf8, encode_utf8_valid_utf8, is_char_boundary, valid_utf8};
use crate::fat::layout::Sector;
use crate::fat::ops::{create_dir_at, create_file_at, read_file_at, CreateDirAt, CreateFileAt, ReadFileAt};
use crate::screen::{DrawOp, Writer};
use crate::text::{contains_chars, str_contains, str_equal, str_from_utf8, text_or_empty, utf8_text_or_empty};

verus! {

/// Bytes the working directory holds at most.
pub const DIR_CAPACITY: usize = 64;

/// The shell's working directory, a string of at most 64 bytes such as `/DOCS/SRC`.
#[verifier::external_body]
pub struct ShellDir {
    inner: heapless::String<64>,
}

/// The bytes that a working directory holds.
pub uninterp spec fn shell_dir_bytes(d: ShellDir) -> Seq<u8>;

impl ShellDir {
    /// Calls `heapless::String::<64>::new`: an empty string.
    #[verifier::external_body]
    fn empty() -> (d: ShellDir)
        ensures
            shell_dir_bytes(d) == Seq::<u8>::empty(),
    {
        ShellDir { inner: heapless::String::new() }
    }

    /// Calls `heapless::String::as_str`: the string's bytes, as a string slice.
    #[verifier::external_body]
    fn as_str(&self) -> (s: &str)
        ensures
            s.spec_bytes() == shell_dir_bytes(*self),
    {
        self.inner.as_str()
    }

    /// Calls `heapless::String::push_str`: appends `s` when the result fits in 64 bytes,
    /// and otherwise leaves the string as it is and fails.
    #[verifier::external_body]
    fn push_str(&mut self, s: &str) -> (ok: bool)
        ensures
            ok == (shell_dir_bytes(*old(self)).len() + s.spec_bytes().len() <= DIR_CAPACITY),
            shell_dir_bytes(*final(self)) == push_bytes(shell_dir_bytes(*old(self)), s.spec_bytes()),
    {
        match self.inner.push_str(s) {
            Ok(()) => true,
            Err(_) => false,
        }
    }

    /// Calls `heapless::String::clear`: the string becomes empty.
    #[verifier::external_body]
    fn clear(&mut self)
        ensures
            shell_dir_bytes(*final(self)) == Seq::<u8>::empty(),
    {
        self.inner.clear()
    }

    /// Calls `heapless::String::truncate`: keeps the first `new_len` bytes, or all when there
    /// are fewer. It panics when `new_len` splits a character, which `requires` rules out.
    #[verifier::external_body]
    fn truncate(&mut self, new_len: usize)
        requires
            new_len > shell_dir_bytes(*old(self)).len() || is_char_boundary(shell_dir_bytes(*old(self)), new_len as int),
        ensures
            shell_dir_bytes(*final(self)) == if new_len <= shell_dir_bytes(*old(self)).len() {
                shell_dir_bytes(*old(self)).subrange(0, new_len as int)
            } else {
                shell_dir_bytes(*old(self))
            },
    {
        self.inner.truncate(new_len)
    }

    /// The root directory, `/`.
    pub fn root() -> (d: ShellDir)
        ensures
            shell_dir_bytes(d) == seq![0x2Fu8],
    {
        let mut d = ShellDir::empty();
        proof {
            lemma_slash();
        }
        d.push_str("/");
        d
    }

    /// The working directory as text.
    pub fn path(&self) -> (s: &str)
        ensures
            s.spec_bytes() == shell_dir_bytes(*self),
    {
        self.as_str()
    }
}

/// The literal `"/"` is the one character `/`, the one byte 0x2F.
proof fn lemma_slash()
    ensures
        "/"@ == seq!['/'],
        "/".spec_bytes() == seq![0x2Fu8],
        encode_utf8(seq!['/']) == seq![0x2Fu8],
{
    reveal_strlit("/");
    assert("/"@ =~= seq!['/']);
    let slash = seq!['/'];
    assert(vstd::utf8::is_ascii_chars(slash));
    vstd::utf8::is_ascii_chars_encode_utf8(slash);
    assert(encode_utf8(slash) =~= seq![0x2Fu8]);
}

/// `d` with `s` appended when the result fits in 64 bytes, `d` otherwise.
pub open spec fn push_bytes(d: Seq<u8>, s: Seq<u8>) -> Seq<u8> {
    if d.len() + s.len() <= DIR_CAPACITY {
        d + s
    } else {
        d
    }
}

/// Calls `str::rfind` with an ASCII character: the byte index where the last occurrence of
/// the character starts, which, as every match found, lies on a character boundary.
#[verifier::external_body]
fn str_rfind_ascii(s: &str, c: u8) -> (r: Option<usize>)
    requires
        c < 0x80,
    ensures
        match r {
            Some(i) => s.spec_bytes().index_of_last(c) == Some(i as int) && is_char_boundary(s.spec_bytes(), i as int),
            None => s.spec_bytes().index_of_last(c) is None,
        },
{
    s.rfind(c as char)
}

/// Calls `str::trim_end_matches` with the character `'\0'`: the string without its trailing
/// NUL characters.
#[verifier::external_body]
fn str_trim_end_nul(s: &str) -> (r: &str)
    ensures
        r@ == trim_end_nul(s@),
{
    s.trim_end_matches('\0')
}

/// `s` without its trailing NUL characters.
pub open spec fn trim_end_nul(s: Seq<char>) -> Seq<char>
    decreases s.len(),
{
    if s.len() > 0 && s.last() == '\0' {
        trim_end_nul(s.drop_last())
    } else {
        s
    }
}

/// `s` split at the first `sep`: what `s.splitn(2, sep)` yields, the second piece absent
/// when `s` holds no `sep`.
pub open spec fn split_once_spec(s: Seq<char>, sep: char) -> (Seq<char>, Option<Seq<char>>) {
    match s.index_of_first(sep) {
        Some(i) => (s.subrange(0, i), Some(s.subrange(i + 1, s.len() as int))),
        None => (s, None),
    }
}

/// Splits `s` at the first `sep`.
pub fn split_once(s: &str, sep: char) -> (r: (&str, Option<&str>))
    ensures
        r.0@ == split_once_spec(s@, sep).0,
        match (r.1, split_once_spec(s@, sep).1) {
            (Some(a), Some(b)) => a@ == b,
            (None, None) => true,
            _ => false,
        },
{
    let n = s.unicode_len();
    let mut i: usize = 0;
    while i < n
        invariant
            n == s@.len(),
            i <= n,
            forall|j: int| 0 <= j < i ==> s@[j] != sep,
        decreases n - i,
    {
        if s.get_char(i) == sep {
            proof {
                s@.index_of_first_ensures(sep);
                assert(s@.contains(sep));
                let k = s@.index_of_first(sep)->0;
                assert(k == i) by {
                    if k < i {
                        assert(s@[k] != sep);
                    } else if k > i {
                        assert(s@[i as int] == sep);
                    }
                }
            }
            return (s.substring_char(0, i), Some(s.substring_char(i + 1, n)));
        }
        i = i + 1;
    }
    proof {
        s@.index_of_first_ensures(sep);
        if s@.contains(sep) {
            let k = choose|k: int| 0 <= k < s@.len() && s@[k] == sep;
            assert(s@[k] != sep);
        }
    }
    (s, None)
}

/// The commands of the shell.
#[derive(Clone, Copy, PartialEq, Eq, Debug)]
pub enum Command {
    Echo,
    Help,
    Clear,
    DiskTest,
    Write,
    Read,
    Delete,
    List,
    Mkdir,
    Rmdir,
    Cd,
    Switch,
    /// An empty line: nothing to do.
    Empty,
    /// A word that names no command.
    NotFound,
}

/// The command that a word names; command words are upper case.
pub open spec fn command_named(word: Seq<char>) -> Command {
    if word == "ECHO"@ {
        Command::Echo
    } else if word == "HELP"@ {
        Command::Help
    } else if word == "CLEAR"@ {
        Command::Clear
    } else if word == "DISKTEST"@ {
        Command::DiskTest
    } else if word == "WRITE"@ {
        Command::Write
    } else if word == "READ"@ {
        Command::Read
    } else if word == "DELETE"@ {
        Command::Delete
    } else if word == "LS"@ {
        Command::List
    } else if word == "MKDIR"@ {
        Command::Mkdir
    } else if word == "RMDIR"@ {
        Command::Rmdir
    } else if word == "CD"@ {
        Command::Cd
    } else if word == "SWITCH"@ {
        Command::Switch
    } else if word.len() == 0 {
        Command::Empty
    } else {
        Command::NotFound
    }
}

/// The arguments of a command line: what follows its first space, or nothing.
pub open spec fn command_args(line: Seq<char>) -> Seq<char> {
    match split_once_spec(line, ' ').1 {
        Some(a) => a,
        None => Seq::empty(),
    }
}

/// The command that a word names.
fn command_of(cmd: &str) -> (c: Command)
    ensures
        c == command_named(cmd@),
{
    if str_equal(cmd, "ECHO") {
        Command::Echo
    } else if str_equal(cmd, "HELP") {
        Command::Help
    } else if str_equal(cmd, "CLEAR") {
        Command::Clear
    } else if str_equal(cmd, "DISKTEST") {
        Command::DiskTest
    } else if str_equal(cmd, "WRITE") {
        Command::Write
    } else if str_equal(cmd, "READ") {
        Command::Read
    } else if str_equal(cmd, "DELETE") {
        Command::Delete
    } else if str_equal(cmd, "LS") {
        Command::List
    } else if str_equal(cmd, "MKDIR") {
        Command::Mkdir
    } else if str_equal(cmd, "RMDIR") {
        Command::Rmdir
    } else if str_equal(cmd, "CD") {
        Command::Cd
    } else if str_equal(cmd, "SWITCH") {
        Command::Switch
    } else if cmd.unicode_len() == 0 {
        Command::Empty
    } else {
        Command::NotFound
    }
}

/// Splits a command line into the command that its first word names and the arguments that
/// follow the first space.
pub fn dispatch_command(input: &str) -> (r: (Command, &str))
    ensures
        r.0 == command_named(split_once_spec(input@, ' ').0),
        r.1@ == command_args(input@),
{
    let (cmd, rest) = split_once(input, ' ');
    let args = match rest {
        Some(a) => a,
        None => {
            proof {
                reveal_strlit("");
            }
            ""
        },
    };
    let command = command_of(cmd);
    (command, args)
}

/// What the shell prints for a word that names no command.
pub const NOT_FOUND_REPLY: &'static str = "errore commend not found";

/// What `HELP` prints.
pub const HELP_TEXT: &'static str = "Available commands: echo, clear, help";

/// What `DISKTEST` prints when the boot sector ends with the signature 55 AA.
pub const DISK_OK: &'static str = "Disk OK! FAT16 signature found: 55 AA";

/// What `DISKTEST` prints otherwise.
pub const DISK_NO_SIGNATURE: &'static str = "No valid disk signature";

/// `ECHO`: prints its arguments on a line.
pub fn command_echo(writer: &mut Writer, args: &str) -> (ops: Vec<DrawOp>)
    requires
        old(writer).wf(),
    ensures
        final(writer).wf(),
        (*final(writer), ops@) == old(writer).spec_println(args@),
{
    writer.println(args)
}

/// `HELP`: prints the list of commands.
pub fn command_help(writer: &mut Writer, _args: &str) -> (ops: Vec<DrawOp>)
    requires
        old(writer).wf(),
    ensures
        final(writer).wf(),
        (*final(writer), ops@) == old(writer).spec_println(HELP_TEXT@),
{
    writer.println(HELP_TEXT)
}

/// `CLEAR`: clears the screen.
pub fn clear(writer: &mut Writer, _args: &str) -> (ops: Vec<DrawOp>)
    requires
        old(writer).wf(),
    ensures
        final(writer).wf(),
        *final(writer) == old(writer).at(crate::screen::MARGIN, crate::screen::MARGIN),
        ops@ == seq![
            DrawOp::Rect { x: 0, y: 0, w: old(writer).width, h: old(writer).height, color: 0 },
        ],
{
    writer.clear_screen()
}

/// Whether a boot sector ends with the signature 55 AA.
pub open spec fn has_boot_signature(boot: Seq<u8>) -> bool {
    boot[510] == 0x55 && boot[511] == 0xAA
}

/// `DISKTEST`: given the boot sector read from the disk, prints whether it carries the
/// boot signature.
pub fn command_disktest(writer: &mut Writer, boot: &Sector) -> (ops: Vec<DrawOp>)
    requires
        old(writer).wf(),
    ensures
        final(writer).wf(),
        (*final(writer), ops@) == old(writer).spec_println(
            if has_boot_signature(boot@) {
                DISK_OK@
            } else {
                DISK_NO_SIGNATURE@
            },
        ),
{
    if boot[510] == 0x55 && boot[511] == 0xAA {
        writer.println(DISK_OK)
    } else {
        writer.println(DISK_NO_SIGNATURE)
    }
}

/// The pieces of `WRITE`'s arguments: the file name before the first dot, the extension
/// after it (`TXT` when there is no dot), and the contents after the first space.
pub open spec fn write_args(args: Seq<char>) -> (Seq<char>, Seq<char>, Seq<char>) {
    let (filename, rest) = split_once_spec(args, ' ');
    let content = match rest {
        Some(c) => c,
        None => Seq::empty(),
    };
    let (name, ext) = split_once_spec(filename, '.');
    (name, match ext {
        Some(e) => e,
        None => seq!['T', 'X', 'T'],
    }, content)
}

/// `WRITE name.ext contents`: the operation that writes the file into the working directory.
pub fn command_write<'a>(args: &'a str, dir: &'a str) -> (op: CreateFileAt<'a>)
    ensures
        op.name@ == write_args(args@).0,
        op.ext@ == write_args(args@).1,
        op.data@ == crate::fat::layout::spec_file_data(encode_utf8(write_args(args@).2)),
        op.len == crate::fat::layout::stored_len(encode_utf8(write_args(args@).2)),
        op.resolve.parts@.len() == crate::fat::path::path_components(dir@).len(),
        forall|k: int| 0 <= k < op.resolve.parts@.len() ==> #[trigger] op.resolve.part(k)
            == crate::fat::path::path_components(dir@)[k],
        op.resolve.next == 0,
        op.resolve.stage == crate::fat::ops::ResolveStage::Start,
        op.stage == crate::fat::ops::CreateFileAtStage::Start,
{
    let (filename, rest) = split_once(args, ' ');
    let content = match rest {
        Some(c) => c,
        None => {
            proof {
                reveal_strlit("");
            }
            ""
        },
    };
    let (name, ext) = split_once(filename, '.');
    let ext = match ext {
        Some(e) => e,
        None => {
            proof {
                reveal_strlit("TXT");
                assert("TXT"@ =~= seq!['T', 'X', 'T']);
            }
            "TXT"
        },
    };
    create_file_at(dir, name, ext, content.as_bytes())
}

/// What `WRITE` prints when the file was written, and when it was not.
pub fn command_write_reply(ok: bool) -> (reply: &'static str)
    ensures
        reply == if ok { "File created!" } else { "Error: disk full or dir full" },
{
    if ok {
        "File created!"
    } else {
        "Error: disk full or dir full"
    }
}

/// The name and extension that `READ` and `DELETE` take: split at the first dot, the
/// extension empty when there is no dot.
pub open spec fn name_ext_args(args: Seq<char>) -> (Seq<char>, Seq<char>) {
    let (name, ext) = split_once_spec(args, '.');
    (name, match ext {
        Some(e) => e,
        None => Seq::empty(),
    })
}

/// `READ name.ext`: the operation that reads the file from the working directory.
pub fn command_read<'a>(args: &'a str, dir: &'a str) -> (op: ReadFileAt<'a>)
    ensures
        op.name@ == name_ext_args(args@).0,
        op.ext@ == name_ext_args(args@).1,
        op.resolve.parts@.len() == crate::fat::path::path_components(dir@).len(),
        forall|k: int| 0 <= k < op.resolve.parts@.len() ==> #[trigger] op.resolve.part(k)
            == crate::fat::path::path_components(dir@)[k],
        op.resolve.next == 0,
        op.resolve.stage == crate::fat::ops::ResolveStage::Start,
        op.stage == crate::fat::ops::ReadFileAtStage::Start,
{
    let (name, ext) = split_once(args, '.');
    let ext = match ext {
        Some(e) => e,
        None => {
            proof {
                reveal_strlit("");
            }
            ""
        },
    };
    read_file_at(dir, name, ext)
}

/// What `READ` prints for a read that found `size` bytes in `buf`: "File not found" for
/// nothing, else the first `size` bytes as text ("???" when they are not UTF-8).
pub open spec fn read_reply(size: u32, buf: Seq<u8>) -> Seq<char> {
    if size == 0 {
        "File not found"@
    } else if valid_utf8(buf.subrange(0, size as int)) {
        vstd::utf8::decode_utf8(buf.subrange(0, size as int))
    } else {
        "???"@
    }
}

/// Prints the outcome of `READ`.
pub fn command_read_reply(writer: &mut Writer, size: u32, buf: &Sector) -> (ops: Vec<DrawOp>)
    requires
        old(writer).wf(),
        size <= 512,
    ensures
        final(writer).wf(),
        (*final(writer), ops@) == old(writer).spec_println(read_reply(size, buf@)),
{
    if size == 0 {
        return writer.println("File not found");
    }
    let bytes = vstd::slice::slice_subrange(buf.as_slice(), 0, size as usize);
    match str_from_utf8(bytes) {
        Some(text) => {
            proof {
                vstd::utf8::encode_utf8_decode_utf8(text@);
            }
            writer.println(text)
        },
        None => writer.println("???"),
    }
}

/// `DELETE name.ext`: the name and extension of the file to delete from the working
/// directory.
pub fn command_delete<'a>(args: &'a str) -> (r: (&'a str, &'a str))
    ensures
        r.0@ == name_ext_args(args@).0,
        r.1@ == name_ext_args(args@).1,
{
    let (name, ext) = split_once(args, '.');
    let ext = match ext {
        Some(e) => e,
        None => {
            proof {
                reveal_strlit("");
            }
            ""
        },
    };
    (name, ext)
}

/// What `DELETE` prints when the file was deleted, and when it was not.
pub fn command_delete_reply(ok: bool) -> (reply: &'static str)
    ensures
        reply == if ok { "deleted successfully" } else { "deleting file failed" },
{
    if ok {
        "deleted successfully"
    } else {
        "deleting file failed"
    }
}

/// `LS`: prints the directory listing `listing` (nothing when it is not UTF-8).
pub fn commeand_list(writer: &mut Writer, listing: &[u8; 64]) -> (ops: Vec<DrawOp>)
    requires
        old(writer).wf(),
    ensures
        final(writer).wf(),
        (*final(writer), ops@) == old(writer).spec_println(utf8_text_or_empty(listing@)),
{
    writer.println(text_or_empty(listing.as_slice()))
}

/// The name that `MKDIR` and `RMDIR` take: their arguments up to the first space.
pub open spec fn first_word(args: Seq<char>) -> Seq<char> {
    split_once_spec(args, ' ').0
}

/// `MKDIR name`: the operation that makes the directory in the working directory.
pub fn mkdir<'a>(args: &'a str, dir: &'a str) -> (op: CreateDirAt<'a>)
    ensures
        op.name@ == first_word(args@),
        op.resolve.parts@.len() == crate::fat::path::path_components(dir@).len(),
        forall|k: int| 0 <= k < op.resolve.parts@.len() ==> #[trigger] op.resolve.part(k)
            == crate::fat::path::path_components(dir@)[k],
        op.resolve.next == 0,
        op.resolve.stage == crate::fat::ops::ResolveStage::Start,
        op.stage == crate::fat::ops::CreateDirAtStage::Start,
{
    let (name, _) = split_once(args, ' ');
    create_dir_at(dir, name)
}

/// What `MKDIR` prints when the directory was made, and when it was not.
pub fn mkdir_reply(ok: bool) -> (reply: &'static str)
    ensures
        reply == if ok { "crated successfully" } else { "failed" },
{
    if ok {
        "crated successfully"
    } else {
        "failed"
    }
}

/// `RMDIR name`: the name of the directory to remove from the working directory.
pub fn rmdir(args: &str) -> (name: &str)
    ensures
        name@ == first_word(args@),
{
    let (name, _) = split_once(args, ' ');
    name
}

/// What `RMDIR` prints when the directory was removed, and when it was not.
pub fn rmdir_reply(ok: bool) -> (reply: &'static str)
    ensures
        reply == if ok { "deleted successfully" } else { "deleting failed" },
{
    if ok {
        "deleted successfully"
    } else {
        "deleting failed"
    }
}

/// The working directory after going up one level: cut at its last `/`, keeping the `/`
/// when it is the first byte; unchanged when it holds no `/`.
pub open spec fn popped_dir(d: Seq<u8>) -> Seq<u8> {
    match d.index_of_last(0x2Fu8) {
        Some(i) => d.subrange(0, if i == 0 { 1 } else { i }),
        None => d,
    }
}

/// Goes up one level in the working directory.
pub fn pop_directory(directory: &mut ShellDir)
    ensures
        shell_dir_bytes(*final(directory)) == popped_dir(shell_dir_bytes(*old(directory))),
{
    let s = directory.as_str();
    proof {
        encode_utf8_valid_utf8(s@);
    }
    match str_rfind_ascii(s, 0x2F) {
        Some(last_slash) => {
            let ghost b = shell_dir_bytes(*directory);
            proof {
                b.index_of_last_ensures(0x2Fu8);
            }
            if last_slash == 0 {
                proof {
                    assert(b[0] == 0x2Fu8);
                    assert(is_char_boundary(b, 1)) by {
                        reveal_with_fuel(is_char_boundary, 2);
                    }
                }
                directory.truncate(1);
            } else {
                directory.truncate(last_slash);
            }
        },
        None => {},
    }
}

/// The working directory after `CD name` accepted `name`: `..` goes up, `/` returns to the
/// root, any other name is appended after a `/` (no `/` when at the root); an append that
/// would pass 64 bytes is left out.
pub open spec fn changed_dir(d: Seq<u8>, new_dir: Seq<char>) -> Seq<u8> {
    if new_dir == seq!['.', '.'] {
        popped_dir(d)
    } else if new_dir == seq!['/'] {
        seq![0x2Fu8]
    } else {
        let d1 = if d != seq![0x2Fu8] { push_bytes(d, seq![0x2Fu8]) } else { d };
        push_bytes(d1, encode_utf8(new_dir))
    }
}

/// No byte of the UTF-8 encoding of characters other than `/` is the byte 0x2F of `/`: ASCII
/// characters encode as themselves, and every byte of a longer encoding has its top bit set.
proof fn lemma_no_slash_byte(s: Seq<char>)
    requires
        forall|i: int| 0 <= i < s.len() ==> s[i] != '/',
    ensures
        forall|j: int| 0 <= j < encode_utf8(s).len() ==> encode_utf8(s)[j] != 0x2Fu8,
    decreases s.len(),
{
    if s.len() > 0 {
        let rest = s.drop_first();
        lemma_no_slash_byte(rest);
        let c = s[0] as u32;
        vstd::utf8::char_u32_cast(s[0], c);
        vstd::utf8::char_is_scalar(s[0]);
        assert(c != 0x2F) by {
            if c == 0x2F {
                assert((0x2Fu32 as char) == '/');
                assert(s[0] == '/');
            }
        }
        let head = encode_scalar(c);
        assert forall|j: int| 0 <= j < head.len() implies head[j] != 0x2Fu8 by {
            let lead1 = (c & 0x7F) as u8;
            let lead2 = 0xC0u8 | ((c >> 6u32) & 0x1F) as u8;
            let lead3 = 0xE0u8 | ((c >> 12u32) & 0x0F) as u8;
            let lead4 = 0xF0u8 | ((c >> 18u32) & 0x7) as u8;
            let cont1 = 0x80u8 | (c & 0x3F) as u8;
            let cont2 = 0x80u8 | ((c >> 6u32) & 0x3F) as u8;
            let cont3 = 0x80u8 | ((c >> 12u32) & 0x3F) as u8;
            assert(c <= 0x7F && c != 0x2F ==> lead1 != 0x2Fu8) by (bit_vector)
                requires lead1 == (c & 0x7F) as u8;
            assert(lead2 != 0x2Fu8) by (bit_vector)
                requires lead2 == 0xC0u8 | ((c >> 6u32) & 0x1F) as u8;
            assert(lead3 != 0x2Fu8) by (bit_vector)
                requires lead3 == 0xE0u8 | ((c >> 12u32) & 0x0F) as u8;
            assert(lead4 != 0x2Fu8) by (bit_vector)
                requires lead4 == 0xF0u8 | ((c >> 18u32) & 0x7) as u8;
            assert(cont1 != 0x2Fu8) by (bit_vector)
                requires cont1 == 0x80u8 | (c & 0x3F) as u8;
            assert(cont2 != 0x2Fu8) by (bit_vector)
                requires cont2 == 0x80u8 | ((c >> 6u32) & 0x3F) as u8;
            assert(cont3 != 0x2Fu8) by (bit_vector)
                requires cont3 == 0x80u8 | ((c >> 12u32) & 0x3F) as u8;
        }
        assert(encode_utf8(s) == head + encode_utf8(rest));
    }
}

/// Going into a directory and back up returns to where one was: `CD name` followed by
/// `CD ..` leaves the working directory as it was, for a name without `/` (other than `..`)
/// whose path still fits in the 64 bytes.
pub proof fn lemma_cd_then_up(d: Seq<u8>, name: Seq<char>)
    requires
        d.len() > 0,
        name != seq!['.', '.'],
        forall|i: int| 0 <= i < name.len() ==> name[i] != '/',
        if d == seq![0x2Fu8] {
            1 + encode_utf8(name).len() <= DIR_CAPACITY
        } else {
            d.len() + 1 + encode_utf8(name).len() <= DIR_CAPACITY
        },
    ensures
        changed_dir(changed_dir(d, name), seq!['.', '.']) == d,
{
    let x = encode_utf8(name);
    lemma_no_slash_byte(name);
    assert(name != seq!['/']) by {
        if name == seq!['/'] {
            assert(name[0] == '/');
        }
    }
    let d1 = if d != seq![0x2Fu8] { d + seq![0x2Fu8] } else { d };
    assert(push_bytes(if d != seq![0x2Fu8] { push_bytes(d, seq![0x2Fu8]) } else { d }, x) == d1 + x);
    let up = d1 + x;
    assert(changed_dir(d, name) == up);
    let p = d1.len() - 1;
    assert(up[p] == 0x2Fu8);
    assert forall|j: int| p < j < up.len() implies up[j] != 0x2Fu8 by {
        assert(up[j] == x[j - d1.len()]);
    }
    up.index_of_last_ensures(0x2Fu8);
    let k = up.index_of_last(0x2Fu8)->0;
    assert(k == p);
    if d == seq![0x2Fu8] {
        assert(up.subrange(0, 1) =~= d);
    } else {
        assert(up.subrange(0, p) =~= d);
    }
}

/// Whether `CD` accepts a name: it is `..` or `/`, or occurs in the directory listing.
pub open spec fn cd_accepts(listing: Seq<u8>, new_dir: Seq<char>) -> bool {
    contains_chars(trim_end_nul(utf8_text_or_empty(listing)), new_dir) || new_dir == seq!['.', '.'] || new_dir
        == seq!['/']
}

/// What `CD` prints for a name it does not accept.
pub const CD_UNKNOWN: &'static str = "dir doesn't exists";

/// `CD name`: changes the working directory when `name` is `..`, `/`, or occurs in the
/// directory listing `listing`; otherwise prints that the directory does not exist.
pub fn cd(writer: &mut Writer, args: &str, dir: &mut ShellDir, listing: &[u8; 64]) -> (ops: Vec<DrawOp>)
    requires
        old(writer).wf(),
    ensures
        final(writer).wf(),
        cd_accepts(listing@, first_word(args@)) ==> shell_dir_bytes(*final(dir)) == changed_dir(
            shell_dir_bytes(*old(dir)),
            first_word(args@),
        ) && *final(writer) == *old(writer) && ops@ == Seq::<DrawOp>::empty(),
        !cd_accepts(listing@, first_word(args@)) ==> shell_dir_bytes(*final(dir)) == shell_dir_bytes(*old(dir))
            && (*final(writer), ops@) == old(writer).spec_println(CD_UNKNOWN@),
{
    let (new_dir, _) = split_once(args, ' ');
    let listed = str_trim_end_nul(text_or_empty(listing.as_slice()));
    proof {
        reveal_strlit("..");
        assert(".."@ =~= seq!['.', '.']);
        lemma_slash();
    }
    if !str_contains(listed, new_dir) && !str_equal(new_dir, "..") && !str_equal(new_dir, "/") {
        return writer.println(CD_UNKNOWN);
    }
    if str_equal(new_dir, "..") {
        pop_directory(dir);
    } else if str_equal(new_dir, "/") {
        dir.clear();
        let _ = dir.push_str("/");
    } else {
        let cur = dir.as_str();
        let at_root = str_equal(cur, "/");
        proof {
            let b = shell_dir_bytes(*dir);
            let slash = seq!['/'];
            assert(cur.spec_bytes() == encode_utf8(cur@));
            if b == seq![0x2Fu8] {
                vstd::utf8::encode_utf8_decode_utf8(cur@);
                vstd::utf8::encode_utf8_decode_utf8(slash);
            }
            assert(at_root == (b == seq![0x2Fu8]));
        }
        if !at_root {
            let _ = dir.push_str("/");
        }
        let _ = dir.push_str(new_dir);
    }
    Vec::new()
}

} // verus!
