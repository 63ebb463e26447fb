//! The flag the global hot key raises for the window to poll.
use vstd::prelude::*;

verus! {

/// Whether the global hot key was pressed since the window last looked.
#[derive(Debug)]
pub struct HotkeyFlag {
    pub raised: bool,
}

impl HotkeyFlag {
    /// A flag not yet raised.
    pub fn new() -> (f: HotkeyFlag)
        ensures
            !f.raised,
    {
        HotkeyFlag { raised: false }
    }

    /// The hot key was pressed: the flag is raised (again, if it was).
    pub fn raise(&mut self)
        ensures
            final(self).raised,
    {
        self.raised = true;
    }
}

/// Called as the main window renders, to poll the flag: whether the hot
/// key was pressed since the last call; the flag is cleared, so a second
/// call right after answers no.
pub fn consume_hotkey_flag(flag: &mut HotkeyFlag) -> (pressed: bool)
    ensures
        pressed == old(flag).raised,
        !final(flag).raised,
{
    let pressed = flag.raised;
    flag.raised = false;
    pressed
}

} // verus!
