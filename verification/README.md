# ilo-lawa

The logic of a small UEFI operating system kernel, verified with Verus.

`src/` is the verified library:

- `allocator` – the bump allocator behind the kernel heap.
- `drivers` – the block device interface with an in-memory device, the
  checks of the VirtIO block device, and the decisions and report lines of
  the VirtIO MMIO and PCI probes.
- `fs` – the filesystem interface, the in-memory filesystem with paths and
  a current directory, and a FAT32 volume image; `ramfs` is a simpler RAM
  filesystem addressed relative to the current directory.
- `kernel`, `terminal` – framebuffer drawing into a shadow buffer, and the
  text terminal on top of it.
- `keyboard` – scancode decoding and the scancode ring buffer.
- `shell` – the line editor and the commands, returning what is to be
  shown or done as a list of actions.
- `interrupts`, `pic`, `serial` – interrupt vectors and acknowledgement
  decisions, the 8259 setup sequence, and the UART setup and output bytes.
- `text` – string helpers shared by the above.

`app/` is the kernel binary around the library: the UEFI entry point, the
global instances behind locks, port and memory-mapped I/O, the interrupt
handlers, the VirtIO HAL, and the console font.

`tests/` runs the library on concrete inputs.
