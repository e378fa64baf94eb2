//! Verified core of a small x86_64 hobby kernel: keyboard decoding,
//! the text console, a FAT16-style file store on an ATA disk, the GDT/TSS
//! layout, the physical frame allocator and the shell's command logic.

use vstd::prelude::*;

pub mod interrupts;
pub mod screen;
pub mod text;
pub mod fat;
pub mod frame_allocator;
pub mod syscall;
pub mod program;
pub mod gdt;
pub mod ata;
pub mod shell;
pub mod process;

verus! {

/// Handles a key decoded from the keyboard: it goes to the key buffer, which echoes it on
/// the screen (see [`syscall::set_key`]).
pub fn handle_key(buf: &mut syscall::KeyBuffer, writer: &mut screen::Writer, key: char) -> (ops: Vec<
    screen::DrawOp,
>)
    requires
        old(buf).wf(),
        old(writer).wf(),
    ensures
        final(buf).wf(),
        final(writer).wf(),
        syscall::key_effect(*old(buf), key, *final(buf)),
        key == '\n' ==> *final(writer) == *old(writer) && ops@ == Seq::<screen::DrawOp>::empty(),
        key == '\x08' ==> (*final(writer), ops@) == old(writer).spec_backspace(),
        key != '\n' && key != '\x08' ==> (*final(writer), ops@) == old(writer).spec_print_char(key),
{
    syscall::set_key(buf, writer, key)
}

} // verus!
