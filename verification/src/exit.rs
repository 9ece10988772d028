//! Exit codes for the emulator's debug-exit device.

use vstd::prelude::*;

verus! {

/// How a run under the emulator ended.
#[derive(Clone, Copy, Debug, PartialEq, Eq)]
pub enum QemuExitCode {
    Success,
    Failed,
}

impl QemuExitCode {
    /// The byte that the debug-exit device takes for this outcome.
    pub open spec fn spec_code(self) -> u8 {
        match self {
            QemuExitCode::Success => 0x10,
            QemuExitCode::Failed => 0x11,
        }
    }

    /// The byte that the debug-exit device takes for this outcome.
    pub fn code(self) -> (value: u8)
        ensures
            value == self.spec_code(),
    {
        match self {
            QemuExitCode::Success => 0x10,
            QemuExitCode::Failed => 0x11,
        }
    }
}

} // verus!
