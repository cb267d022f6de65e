//! Decision logic of the kernel, kept apart from the port I/O, interrupts
//! and context switches that feed it: clock register decoding, PS/2 byte
//! decoding, PCI configuration words and virtio capabilities, ATA identify
//! data, the NE2000 receive ring, serial line endings, frame metrics and
//! colour blending, drawing into a framebuffer image, the desktop's window
//! manager and the launcher's layouts, the display lists the desktop draws,
//! the shell's file commands, the page fetcher's mailbox, the scheduler's
//! bookkeeping, and the host side of WebAssembly guests.

pub mod ata;
pub mod canvas;
pub mod desktop;
pub mod fb;
pub mod fetch;
pub mod files;
pub mod ne2000;
pub mod panels;
pub mod pci;
pub mod perf;
pub mod ps2;
pub mod rtc;
pub mod scene;
pub mod sched;
pub mod serial;
pub mod virtio;
pub mod wasi;
