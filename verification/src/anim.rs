//! Window transition phases. The easing itself is floating-point and runs in
//! the kernel; the window manager only needs to know which way a window is
//! moving.
use vstd::prelude::*;

verus! {

#[derive(Clone, Copy, PartialEq, Eq, Debug, Structural)]
pub enum Phase {
    /// Window appearing: visibility goes 0 -> 1.
    Opening,
    /// Window disappearing: visibility goes 1 -> 0.
    Closing,
}

} // verus!
