//! The verified core of the ilo-lawa kernel: memory allocation, drawing and
//! the text terminal, keyboard decoding, the shell, the filesystems, and the
//! decisions of the device and interrupt code.
pub mod allocator;
pub mod drivers;
pub mod fs;
pub mod interrupts;
pub mod kernel;
pub mod keyboard;
pub mod pic;
pub mod ramfs;
pub mod serial;
pub mod shell;
pub mod terminal;
pub mod text;
