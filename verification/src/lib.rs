//! Core logic of the OSjeff operating system: input translation, text
//! editing, the shell, the flat filesystem, networking replies, window
//! geometry and the browser model. Every function here is pure over its
//! arguments, so the same code serves the kernel and the host.

pub mod anim;
pub mod apps;
pub mod browser;
pub mod bytes;
pub mod calc;
pub mod clipboard;
pub mod editor;
pub mod fs;
pub mod heap;
pub mod kernel;
pub mod keymap;
pub mod net;
pub mod process;
pub mod terminal;
pub mod web;
pub mod window;

pub use browser::Browser;
pub use clipboard::Clipboard;
pub use editor::Editor;
pub use keymap::{Key, Keymap};
pub use process::{ProcKind, ProcState, Process, ProcessTable};
pub use terminal::{Action, FileName, Terminal, Time};
pub use window::Rect;
