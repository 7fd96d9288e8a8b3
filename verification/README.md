# lib — a small x86-64 kernel's logic, verified with Verus

`src/` holds the kernel's logic with contracts proved by Verus:

- `memory/`: the buddy heap, the physical page allocator driven by the EFI
  memory map, bitmaps, layouts, page-table entries, addresses.
- `fs/`: FAT32 volumes on an in-memory disk (mounting, the FAT, directory
  entries with long names, creating, writing, reading and deleting files),
  the virtual file system's mount table and path handling.
- `cpu/`, `gdt.rs`, `interrupts/`, `hardware/`: descriptor tables, segment
  selectors, interrupt gates, the task state segment, the real-time clock.
- `drivers/`: the VGA text writer, the framebuffer console, the keyboard.
- `acpi/`, `apic/`, `io/`: ACPI tables, the local and I/O APIC, the writes
  sent to the interrupt controllers.

Hardware access itself (port and memory-mapped I/O) is not in the library:
functions that would touch hardware return the writes to perform, and
`app/` performs them. `tests/` exercises the library on concrete values.
