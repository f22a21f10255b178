use vstd::prelude::*;

verus! {

/// What a Windows console reports about its capabilities.
#[derive(Debug, Clone, Copy, PartialEq, Eq, Structural)]
pub struct WindowsTerminalSupports {
    pub virtual_terminal_processing: bool,
    pub truecolor: bool,
}

/// How fast the host may redraw: capped at a number of frames per second,
/// or as fast as it can.
#[derive(Debug, Clone, Copy, PartialEq, Eq, Structural)]
pub enum FrameRate {
    Max(u16),
    Unlimited,
}

} // verus!
