//! Keyboard scancode decoding and the programmable interrupt controller layout.

use vstd::prelude::*;

verus! {

/// Interrupt vector of the first line of the primary PIC.
pub const PIC_1_OFFSET: u8 = 32;

/// Interrupt vector of the first line of the secondary PIC.
pub const PIC_2_OFFSET: u8 = 40;

/// Interrupt vector on which the keyboard (IRQ 1) arrives.
pub const KEYBOARD_VECTOR: u8 = 33;

/// Mask written to the primary PIC: only IRQ 1 (keyboard) is unmasked.
pub const MASTER_PIC_MASK: u8 = 0b1111_1101;

/// Mask written to the secondary PIC: every line stays masked.
pub const SLAVE_PIC_MASK: u8 = 0b1111_1111;

/// The character that a set-1 make code stands for, if the keyboard driver knows it.
pub open spec fn scancode_char(scancode: u8) -> Option<char> {
    match scancode {
        0x1E => Some('A'),
        0x30 => Some('B'),
        0x2E => Some('C'),
        0x20 => Some('D'),
        0x12 => Some('E'),
        0x21 => Some('F'),
        0x22 => Some('G'),
        0x23 => Some('H'),
        0x17 => Some('I'),
        0x24 => Some('J'),
        0x25 => Some('K'),
        0x26 => Some('L'),
        0x32 => Some('M'),
        0x31 => Some('N'),
        0x18 => Some('O'),
        0x19 => Some('P'),
        0x10 => Some('Q'),
        0x13 => Some('R'),
        0x1F => Some('S'),
        0x14 => Some('T'),
        0x16 => Some('U'),
        0x2F => Some('V'),
        0x11 => Some('W'),
        0x2D => Some('X'),
        0x15 => Some('Y'),
        0x2C => Some('Z'),
        0x1C => Some('\n'),
        0x39 => Some(' '),
        0x0E => Some('\x08'),
        0x34 => Some('.'),
        _ => None,
    }
}

/// Decodes a make code of scancode set 1 into the character it types.
pub fn translate_scancode(scancode: u8) -> (c: Option<char>)
    ensures
        c == scancode_char(scancode),
{
    match scancode {
        0x1E => Some('A'),
        0x30 => Some('B'),
        0x2E => Some('C'),
        0x20 => Some('D'),
        0x12 => Some('E'),
        0x21 => Some('F'),
        0x22 => Some('G'),
        0x23 => Some('H'),
        0x17 => Some('I'),
        0x24 => Some('J'),
        0x25 => Some('K'),
        0x26 => Some('L'),
        0x32 => Some('M'),
        0x31 => Some('N'),
        0x18 => Some('O'),
        0x19 => Some('P'),
        0x10 => Some('Q'),
        0x13 => Some('R'),
        0x1F => Some('S'),
        0x14 => Some('T'),
        0x16 => Some('U'),
        0x2F => Some('V'),
        0x11 => Some('W'),
        0x2D => Some('X'),
        0x15 => Some('Y'),
        0x2C => Some('Z'),
        0x1C => Some('\n'),
        0x39 => Some(' '),
        0x0E => Some('\x08'),
        0x34 => Some('.'),
        _ => None,
    }
}

/// No two scancodes decode to the same character: the key table is one to one.
pub proof fn lemma_scancode_table_injective(a: u8, b: u8)
    requires
        scancode_char(a) is Some,
        scancode_char(a) == scancode_char(b),
    ensures
        a == b,
{
}

/// The keys of scancode set 1 that the keyboard driver knows: the make code of each letter key
/// types that capital letter (0x1E the A key, 0x30 B, 0x2E C, 0x20 D, ... 0x1F S, ... 0x2C Z),
/// Enter types a line feed, the space bar a space, Backspace the backspace character and the
/// full-stop key a full stop; every other code (break codes among them) types nothing.
pub proof fn lemma_scancode_set_one(code: u8)
    ensures
        scancode_char(0x1Eu8) == Some('A'),
        scancode_char(0x30u8) == Some('B'),
        scancode_char(0x2Eu8) == Some('C'),
        scancode_char(0x20u8) == Some('D'),
        scancode_char(0x12u8) == Some('E'),
        scancode_char(0x21u8) == Some('F'),
        scancode_char(0x22u8) == Some('G'),
        scancode_char(0x23u8) == Some('H'),
        scancode_char(0x17u8) == Some('I'),
        scancode_char(0x24u8) == Some('J'),
        scancode_char(0x25u8) == Some('K'),
        scancode_char(0x26u8) == Some('L'),
        scancode_char(0x32u8) == Some('M'),
        scancode_char(0x31u8) == Some('N'),
        scancode_char(0x18u8) == Some('O'),
        scancode_char(0x19u8) == Some('P'),
        scancode_char(0x10u8) == Some('Q'),
        scancode_char(0x13u8) == Some('R'),
        scancode_char(0x1Fu8) == Some('S'),
        scancode_char(0x14u8) == Some('T'),
        scancode_char(0x16u8) == Some('U'),
        scancode_char(0x2Fu8) == Some('V'),
        scancode_char(0x11u8) == Some('W'),
        scancode_char(0x2Du8) == Some('X'),
        scancode_char(0x15u8) == Some('Y'),
        scancode_char(0x2Cu8) == Some('Z'),
        scancode_char(0x1Cu8) == Some('\n'),
        scancode_char(0x39u8) == Some(' '),
        scancode_char(0x0Eu8) == Some('\x08'),
        scancode_char(0x34u8) == Some('.'),
        code != 0x1Eu8 && code != 0x30u8 && code != 0x2Eu8 && code != 0x20u8 && code != 0x12u8 && code != 0x21u8 && code != 0x22u8 && code != 0x23u8 && code != 0x17u8 && code != 0x24u8 && code != 0x25u8 && code != 0x26u8 && code != 0x32u8 && code != 0x31u8 && code != 0x18u8 && code != 0x19u8 && code != 0x10u8 && code != 0x13u8 && code != 0x1Fu8 && code != 0x14u8 && code != 0x16u8 && code != 0x2Fu8 && code != 0x11u8 && code != 0x2Du8 && code != 0x15u8 && code != 0x2Cu8 && code != 0x1Cu8 && code != 0x39u8 && code != 0x0Eu8 && code != 0x34u8 ==> scancode_char(code) is None,
{
}

} // verus!
