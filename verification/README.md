# tinykernel

The verified core of a small x86_64 hobby kernel, written in Verus.

`src/` is the library. Its functions are verified, except thirteen small trusted wrappers
(marked `#[verifier::external_body]`) that call `core`'s string functions and
`heapless::String` (held in the trusted type `shell::ShellDir`), whose contracts state what those functions' sources and documentation
say:

- `interrupts` — keyboard scancode decoding and the interrupt-controller layout;
- `screen` — the framebuffer text console, which answers each operation with the list of
  pixels and rectangles to draw;
- `syscall`, `program` — the keyboard line buffer behind the read-line system call, the
  decoding of system calls, and the key slot of a waiting program;
- `fat` — a FAT16-style file store on 512-byte sectors: the layout, the FAT, directory
  sectors, paths, and each operation as a step function that says which sector to read or
  write next (`fat::disk` states what a whole drive of them does to a disk);
- `ata` — the sector transfer protocol of the ATA drive;
- `gdt` — the global descriptor table and task state segment;
- `frame_allocator` — the physical frame allocator;
- `shell` — command lines, the commands' replies and the working directory;
- `text` — the `core` string operations that the above rely on, with their contracts.

`app/` holds the kernel's boot glue: port and memory I/O, interrupt and system call
entry points, page tables, and `kmain`. It needs a nightly toolchain and a bare-metal
target.

`tests/` drives the library on concrete values, including the file-store operations
against an in-memory disk.
