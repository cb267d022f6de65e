//! The logic of the WebAssembly apps that ship with the system: each app's
//! state and what a frame or an input does to it. The apps reach the screen
//! through the host's drawing calls with the values computed here.

pub mod plasma;
