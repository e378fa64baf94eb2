//! The keyboard line buffer behind the system calls, and the decoding of system calls.
//!
//! Keys typed are gathered into a buffer of 64 characters; the Enter key publishes the
//! characters gathered so far as the finished line, which the read-line system call takes.

use vstd::prelude::*;
use crate::screen::{DrawOp, Writer};

verus! {

/// Characters the line buffer holds.
pub const KEY_BUFFER_SIZE: usize = 64;

/// What `push_to_buffer` reports when the buffer is full.
pub const BUFFER_OVERFLOW: &'static str = "Buffer overflow!";

/// The line buffer: the keys typed, how many of them count, and the finished line, which is
/// the first `line_len` keys of the buffer once `line_ready` is set.
pub struct KeyBuffer {
    pub keys: [char; 64],
    pub len: usize,
    pub line_len: usize,
    pub line_ready: bool,
}

impl KeyBuffer {
    /// The counts stay within the buffer.
    pub open spec fn wf(&self) -> bool {
        self.len <= KEY_BUFFER_SIZE && self.line_len <= KEY_BUFFER_SIZE
    }

    /// The keys that count, in the order typed.
    pub open spec fn typed(&self) -> Seq<char> {
        self.keys@.subrange(0, self.len as int)
    }

    /// An empty buffer, every slot holding `'\0'`.
    pub fn new() -> (b: Self)
        ensures
            b.wf(),
            b.len == 0,
            b.line_len == 0,
            !b.line_ready,
            b.keys@ == Seq::new(64, |i: int| '\0'),
    {
        let b = KeyBuffer { keys: ['\0'; 64], len: 0, line_len: 0, line_ready: false };
        assert(b.keys@ =~= Seq::new(64, |i: int| '\0'));
        b
    }
}

/// The characters of a line as the system call hands them to the user: each character's low
/// byte.
pub open spec fn line_bytes(keys: Seq<char>) -> Seq<u8> {
    keys.map_values(|c: char| c as u8)
}

/// Appends a key to the buffer; `Err` when the buffer is full, the buffer then unchanged.
pub fn push_to_buffer(buf: &mut KeyBuffer, item: char) -> (r: Result<(), &'static str>)
    requires
        old(buf).wf(),
    ensures
        final(buf).wf(),
        old(buf).len < KEY_BUFFER_SIZE ==> r is Ok && final(buf).keys@ == old(buf).keys@.update(
            old(buf).len as int,
            item,
        ) && final(buf).len == old(buf).len + 1 && final(buf).line_len == old(buf).line_len
            && final(buf).line_ready == old(buf).line_ready,
        old(buf).len >= KEY_BUFFER_SIZE ==> r == Err::<(), &'static str>(BUFFER_OVERFLOW) && *final(buf) == *old(buf),
{
    if buf.len < KEY_BUFFER_SIZE {
        buf.keys[buf.len] = item;
        buf.len = buf.len + 1;
        Ok(())
    } else {
        Err(BUFFER_OVERFLOW)
    }
}

/// Removes the last key typed and returns it, clearing its slot; `None` when no key counts.
pub fn pop_from_buffer(buf: &mut KeyBuffer) -> (r: Option<char>)
    requires
        old(buf).wf(),
    ensures
        final(buf).wf(),
        old(buf).len > 0 ==> r == Some(old(buf).keys@[old(buf).len - 1]) && final(buf).keys@
            == old(buf).keys@.update(old(buf).len - 1, '\0') && final(buf).len == old(buf).len - 1
            && final(buf).line_len == old(buf).line_len && final(buf).line_ready == old(buf).line_ready,
        old(buf).len == 0 ==> r is None && *final(buf) == *old(buf),
{
    if buf.len > 0 {
        buf.len = buf.len - 1;
        let removed = buf.keys[buf.len];
        buf.keys[buf.len] = '\0';
        Some(removed)
    } else {
        None
    }
}

/// What `set_key` does to the buffer, apart from drawing.
pub open spec fn key_effect(old_buf: KeyBuffer, key: char, new_buf: KeyBuffer) -> bool {
    if key == '\n' {
        new_buf == KeyBuffer { line_len: old_buf.len, line_ready: true, ..old_buf }
    } else if key == '\x08' {
        if old_buf.len > 0 {
            new_buf.keys@ == old_buf.keys@.update(old_buf.len - 1, '\0') && new_buf.len == old_buf.len - 1
                && new_buf.line_len == old_buf.line_len && new_buf.line_ready == old_buf.line_ready
        } else {
            new_buf == old_buf
        }
    } else {
        if old_buf.len < KEY_BUFFER_SIZE {
            new_buf.keys@ == old_buf.keys@.update(old_buf.len as int, key) && new_buf.len == old_buf.len + 1
                && new_buf.line_len == old_buf.line_len && new_buf.line_ready == old_buf.line_ready
        } else {
            new_buf == old_buf
        }
    }
}

/// Handles a key from the keyboard: Enter finishes the line; backspace erases the last
/// character on screen and drops the last key; any other key is kept (when the buffer has
/// room) and echoed on screen.
pub fn set_key(buf: &mut KeyBuffer, writer: &mut Writer, key: char) -> (ops: Vec<DrawOp>)
    requires
        old(buf).wf(),
        old(writer).wf(),
    ensures
        final(buf).wf(),
        final(writer).wf(),
        key_effect(*old(buf), key, *final(buf)),
        key == '\n' ==> *final(writer) == *old(writer) && ops@ == Seq::<DrawOp>::empty(),
        key == '\x08' ==> (*final(writer), ops@) == old(writer).spec_backspace(),
        key != '\n' && key != '\x08' ==> (*final(writer), ops@) == old(writer).spec_print_char(key),
{
    if key == '\n' {
        buf.line_len = buf.len;
        buf.line_ready = true;
        return Vec::new();
    }
    if key == '\x08' {
        let ops = writer.backspace();
        pop_from_buffer(buf);
        return ops;
    }
    let _ = push_to_buffer(buf, key);
    writer.print_char(key)
}

/// Takes the finished line, if there is one and it is not empty: returns its characters'
/// low bytes and empties the buffer for the next line.
pub fn take_line(buf: &mut KeyBuffer) -> (line: Option<Vec<u8>>)
    requires
        old(buf).wf(),
    ensures
        final(buf).wf(),
        old(buf).line_ready && old(buf).line_len > 0 ==> (line matches Some(bytes) && bytes@ == line_bytes(
            old(buf).keys@.subrange(0, old(buf).line_len as int),
        )) && *final(buf) == (KeyBuffer { len: 0, line_len: 0, line_ready: false, ..*old(buf) }),
        !(old(buf).line_ready && old(buf).line_len > 0) ==> line is None && *final(buf) == *old(buf),
{
    if buf.line_ready && buf.line_len > 0 {
        let mut bytes: Vec<u8> = Vec::new();
        let mut i: usize = 0;
        while i < buf.line_len
            invariant
                buf.wf(),
                i <= buf.line_len,
                bytes@ == line_bytes(buf.keys@.subrange(0, i as int)),
            decreases buf.line_len - i,
        {
            let c = buf.keys[i];
            bytes.push(c as u8);
            proof {
                assert(line_bytes(buf.keys@.subrange(0, i + 1)) =~= line_bytes(buf.keys@.subrange(0, i as int)).push(c as u8));
            }
            i = i + 1;
        }
        buf.len = 0;
        buf.line_len = 0;
        buf.line_ready = false;
        Some(bytes)
    } else {
        None
    }
}

/// How a key changes the keys that count: backspace drops the last one, a key other than
/// Enter is added while the buffer has room.
pub open spec fn edit_line(typed: Seq<char>, key: char) -> Seq<char> {
    if key == '\x08' {
        if typed.len() > 0 {
            typed.drop_last()
        } else {
            typed
        }
    } else if typed.len() < KEY_BUFFER_SIZE {
        typed.push(key)
    } else {
        typed
    }
}

/// Typing edits the line: every key other than Enter changes the keys that count as
/// `edit_line` says, backspace removing the key typed last.
pub proof fn lemma_key_edits_line(old_buf: KeyBuffer, key: char, new_buf: KeyBuffer)
    requires
        old_buf.wf(),
        key != '\n',
        key_effect(old_buf, key, new_buf),
    ensures
        new_buf.typed() == edit_line(old_buf.typed(), key),
{
    assert(new_buf.typed() =~= edit_line(old_buf.typed(), key));
}

/// A key pushed and then popped comes back out, and the keys that count are as before.
pub proof fn lemma_push_then_pop(b: KeyBuffer, item: char, pushed: KeyBuffer, popped: KeyBuffer)
    requires
        b.wf(),
        b.len < KEY_BUFFER_SIZE,
        pushed.keys@ == b.keys@.update(b.len as int, item),
        pushed.len == b.len + 1,
        popped.keys@ == pushed.keys@.update(pushed.len - 1, '\0'),
        popped.len == pushed.len - 1,
    ensures
        pushed.keys@[pushed.len - 1] == item,
        popped.typed() == b.typed(),
        popped.len == b.len,
{
    assert(popped.typed() =~= b.typed());
}

/// Enter publishes the line typed: the read-line call that follows takes exactly the keys
/// that counted when Enter was pressed (as bytes), and starts a new line.
pub proof fn lemma_enter_then_take(b: KeyBuffer, entered: KeyBuffer)
    requires
        b.wf(),
        b.len > 0,
        key_effect(b, '\n', entered),
    ensures
        entered.line_ready,
        entered.keys@.subrange(0, entered.line_len as int) == b.typed(),
        line_bytes(entered.keys@.subrange(0, entered.line_len as int)) == line_bytes(b.typed()),
{
}

/// The system calls of the kernel, by their number in `rax`.
#[derive(Clone, Copy, PartialEq, Eq, Debug)]
pub enum Syscall {
    /// 0: print the string at the address in the first argument, of the length in the second.
    Print,
    /// 1: wait for the line typed up to Enter and copy it to the buffer in the first argument.
    ReadLine,
    /// Any other number: nothing happens, the call returns 0.
    Unknown,
}

/// The system call that a number selects.
pub fn decode_syscall(number: u64) -> (s: Syscall)
    ensures
        s == if number == 0 {
            Syscall::Print
        } else if number == 1 {
            Syscall::ReadLine
        } else {
            Syscall::Unknown
        },
{
    if number == 0 {
        Syscall::Print
    } else if number == 1 {
        Syscall::ReadLine
    } else {
        Syscall::Unknown
    }
}

/// Kernel code segment selector.
pub const KERNEL_CS: u64 = 0x08;

/// Base selector from which `sysret` derives the user segments.
pub const USER_CS_BASE: u64 = 0x1B;

/// Model-specific register that holds the system call entry point.
pub const MSR_LSTAR: u32 = 0xC000_0082;

/// Model-specific register that holds the system call segment selectors.
pub const MSR_STAR: u32 = 0xC000_0081;

/// The value of the STAR register: the user selector base in bits 48..64, the kernel code
/// selector in bits 32..48.
pub fn star_value(kernel_cs: u64, user_cs_base: u64) -> (v: u64)
    requires
        kernel_cs < 0x1_0000,
        user_cs_base < 0x1_0000,
    ensures
        v == user_cs_base * 0x1_0000_0000_0000 + kernel_cs * 0x1_0000_0000,
{
    let v = (user_cs_base << 48u64) | (kernel_cs << 32u64);
    assert(v == user_cs_base * 0x1_0000_0000_0000 + kernel_cs * 0x1_0000_0000) by (bit_vector)
        requires
            v == (user_cs_base << 48u64) | (kernel_cs << 32u64),
            kernel_cs < 0x1_0000,
            user_cs_base < 0x1_0000,
    ;
    v
}

} // verus!
