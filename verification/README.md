# AgnostOS core

The logic of a small x86_64 UEFI kernel, written in Verus and proved
against its contracts, and the kernel image that runs it.

`src/` is the verified library:

- `memory`: the kernel-owned physical memory map, with reservations that
  split a range and keep what lies around the reserved window;
- `frame`: the physical frame allocator over the usable ranges;
- `allocator`: heap-region selection and the heap's free list (first fit,
  split, ordered release with merging), kept sorted, merged and
  header-aligned, in a table taken from the heap region with a slot for
  every 16 bytes of heap, so that no released block is ever lost;
- `paging`: the virtual-address layout and the checks every mapping passes;
- `task`: the cooperative round-robin scheduler, task stacks and contexts;
- `timer`: tick and millisecond arithmetic, and the uptime text;
- `graphics`: the framebuffer, rectangles, lines, discs, scrolling, text;
- `keyboard`, `mouse`, `platform`: the scancode queue and the polling that
  feeds it through the `pc_keyboard` decoder and decides what each key
  means to the shell, mouse packet decoding and the pointer, and the byte
  queue the mouse interrupt fills;
- `interrupts`, `input_smoke`: the PIC, PIT and PS/2 register values, and
  the debug-port trace lines;
- `commands`, `shell`, `text`: command-line parsing and completion, what
  each command does, and what each key does.

Laws that span several functions are public proof functions beside the
functions they speak of (for example `release_undoes_allocation` in
`frame`, `erasing_restores_what_drawing_covered` in `mouse::cursor`).

`tests/` runs the library on concrete values.  `app/` is the kernel image:
firmware services, page tables, interrupt entry, port I/O and the shell
loop, all carrying out the library's decisions.
