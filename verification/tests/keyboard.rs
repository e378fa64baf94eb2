use tinykernel::handle_key;
use tinykernel::interrupts::{translate_scancode, PIC_1_OFFSET, PIC_2_OFFSET};
use tinykernel::program::{new_key_slot, set_key as deliver_key, take_key};
use tinykernel::screen::{DrawOp, Writer};
use tinykernel::syscall::{
    decode_syscall, pop_from_buffer, push_to_buffer, set_key, star_value, take_line, KeyBuffer, Syscall,
    BUFFER_OVERFLOW, KERNEL_CS, USER_CS_BASE,
};

fn screen() -> Writer {
    Writer::new(0, 640, 480, 2560, 0xFFFFFF)
}

#[test]
fn pic_offsets() {
    assert_eq!(PIC_1_OFFSET, 32);
    assert_eq!(PIC_2_OFFSET, 40);
}

#[test]
fn scancodes_of_set_one() {
    assert_eq!(translate_scancode(0x1E), Some('A'));
    assert_eq!(translate_scancode(0x30), Some('B'));
    assert_eq!(translate_scancode(0x2C), Some('Z'));
    assert_eq!(translate_scancode(0x10), Some('Q'));
    assert_eq!(translate_scancode(0x1C), Some('\n'));
    assert_eq!(translate_scancode(0x39), Some(' '));
    assert_eq!(translate_scancode(0x0E), Some('\x08'));
    assert_eq!(translate_scancode(0x34), Some('.'));
    assert_eq!(translate_scancode(0x9E), None);
    assert_eq!(translate_scancode(0x00), None);
}

#[test]
fn scancode_table_is_one_to_one() {
    let mut seen = Vec::new();
    for code in 0..=255u8 {
        if let Some(c) = translate_scancode(code) {
            assert!(!seen.contains(&c));
            seen.push(c);
        }
    }
    assert_eq!(seen.len(), 30);
}

#[test]
fn push_and_pop_keys() {
    let mut b = KeyBuffer::new();
    assert_eq!(push_to_buffer(&mut b, 'H'), Ok(()));
    assert_eq!(push_to_buffer(&mut b, 'I'), Ok(()));
    assert_eq!(b.len, 2);
    assert_eq!(pop_from_buffer(&mut b), Some('I'));
    assert_eq!(b.keys[1], '\0');
    assert_eq!(pop_from_buffer(&mut b), Some('H'));
    assert_eq!(pop_from_buffer(&mut b), None);
}

#[test]
fn full_buffer_overflows() {
    let mut b = KeyBuffer::new();
    for _ in 0..64 {
        assert_eq!(push_to_buffer(&mut b, 'X'), Ok(()));
    }
    assert_eq!(push_to_buffer(&mut b, 'Y'), Err(BUFFER_OVERFLOW));
    assert_eq!(BUFFER_OVERFLOW, "Buffer overflow!");
    assert_eq!(b.len, 64);
}

#[test]
fn typed_line_is_taken_after_enter() {
    let mut b = KeyBuffer::new();
    let mut w = screen();
    for k in ['E', 'C', 'H', 'O', 'X', '\x08', ' ', 'A'] {
        set_key(&mut b, &mut w, k);
    }
    assert_eq!(take_line(&mut b), None);
    assert!(set_key(&mut b, &mut w, '\n').is_empty());
    assert_eq!(take_line(&mut b), Some(b"ECHO A".to_vec()));
    assert_eq!((b.len, b.line_len, b.line_ready), (0, 0, false));
    assert_eq!(take_line(&mut b), None);
}

#[test]
fn enter_on_empty_line_gives_nothing() {
    let mut b = KeyBuffer::new();
    let mut w = screen();
    set_key(&mut b, &mut w, '\n');
    assert!(b.line_ready);
    assert_eq!(take_line(&mut b), None);
}

#[test]
fn keys_are_echoed() {
    let mut b = KeyBuffer::new();
    let mut w = screen();
    let mut v = screen();
    assert_eq!(set_key(&mut b, &mut w, 'K'), v.print_char('K'));
    let erase = set_key(&mut b, &mut w, '\x08');
    assert_eq!(erase, vec![DrawOp::Rect { x: 20, y: 20, w: 8, h: 8, color: 0 }]);
    assert_eq!(b.len, 0);
}

#[test]
fn handle_key_goes_to_buffer() {
    let mut b = KeyBuffer::new();
    let mut w = screen();
    handle_key(&mut b, &mut w, 'L');
    handle_key(&mut b, &mut w, 'S');
    handle_key(&mut b, &mut w, '\n');
    assert_eq!(take_line(&mut b), Some(b"LS".to_vec()));
    assert_eq!(w.x, 40);
}

#[test]
fn syscall_numbers() {
    assert_eq!(decode_syscall(0), Syscall::Print);
    assert_eq!(decode_syscall(1), Syscall::ReadLine);
    assert_eq!(decode_syscall(2), Syscall::Unknown);
    assert_eq!(decode_syscall(u64::MAX), Syscall::Unknown);
}

#[test]
fn star_register_value() {
    assert_eq!(star_value(KERNEL_CS, USER_CS_BASE), 0x001B_0008_0000_0000);
    assert_eq!(star_value(0, 0), 0);
}

#[test]
fn key_slot_hands_over_once() {
    let mut slot = new_key_slot();
    assert_eq!(take_key(&mut slot), None);
    deliver_key(&mut slot, 'A');
    deliver_key(&mut slot, 'B');
    assert_eq!(take_key(&mut slot), Some('B'));
    assert_eq!(take_key(&mut slot), None);
}
