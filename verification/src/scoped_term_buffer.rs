//! The terminal's alternate screen, used while the log is watched.
use vstd::prelude::*;

verus! {

/// Whether the alternate screen is in use (only on a terminal).
pub struct ScopedTermBuffer {
    enabled: bool,
}

/// What switches to the alternate screen, clears it and homes the cursor.
pub open spec fn enter_bytes() -> Seq<u8> {
    seq![0x1bu8, 0x5b, 0x3f, 0x31, 0x30, 0x34, 0x39, 0x68, 0x1b, 0x5b, 0x32, 0x4a, 0x1b, 0x5b, 0x48]
}

/// What switches back to the main screen.
pub open spec fn leave_bytes() -> Seq<u8> {
    seq![0x1bu8, 0x5b, 0x3f, 0x31, 0x30, 0x34, 0x39, 0x6c]
}

impl ScopedTermBuffer {
    /// The buffer for an output that is (or is not) a terminal.
    pub fn for_output(is_terminal: bool) -> (res: ScopedTermBuffer)
        ensures
            res.is_enabled_spec() == is_terminal,
    {
        ScopedTermBuffer { enabled: is_terminal }
    }

    pub closed spec fn is_enabled_spec(&self) -> bool {
        self.enabled
    }

    pub fn is_enabled(&self) -> (res: bool)
        ensures
            res == self.is_enabled_spec(),
    {
        self.enabled
    }

    /// The bytes to write on entering: none unless enabled.
    pub fn enter_sequence(&self) -> (res: Vec<u8>)
        ensures
            res@ == (if self.is_enabled_spec() {
                enter_bytes()
            } else {
                Seq::<u8>::empty()
            }),
    {
        if self.enabled {
            let v: Vec<u8> = vec![0x1b, 0x5b, 0x3f, 0x31, 0x30, 0x34, 0x39, 0x68, 0x1b, 0x5b, 0x32, 0x4a, 0x1b, 0x5b, 0x48];
            assert(v@ =~= enter_bytes());
            v
        } else {
            Vec::new()
        }
    }

    /// The bytes to write on leaving: none unless enabled.
    pub fn leave_sequence(&self) -> (res: Vec<u8>)
        ensures
            res@ == (if self.is_enabled_spec() {
                leave_bytes()
            } else {
                Seq::<u8>::empty()
            }),
    {
        if self.enabled {
            let v: Vec<u8> = vec![0x1b, 0x5b, 0x3f, 0x31, 0x30, 0x34, 0x39, 0x6c];
            assert(v@ =~= leave_bytes());
            v
        } else {
            Vec::new()
        }
    }
}

} // verus!
