//! Running the game: what it is started with, and when the run is over.
use vstd::prelude::*;

verus! {

/// The game's executable and the arguments it is started with.
pub struct GameWrapper {
    exe_path: std::path::PathBuf,
    args: Vec<String>,
}

impl GameWrapper {
    pub closed spec fn exe(&self) -> std::path::PathBuf {
        self.exe_path
    }

    pub closed spec fn arguments(&self) -> Seq<String> {
        self.args@
    }

    pub fn new(exe_path: std::path::PathBuf, args: Vec<String>) -> (res: GameWrapper)
        ensures
            res.exe() == exe_path,
            res.arguments() == args@,
    {
        GameWrapper { exe_path, args }
    }

    pub fn exe_path(&self) -> (res: &std::path::PathBuf)
        ensures
            *res == self.exe(),
    {
        &self.exe_path
    }

    pub fn args(&self) -> (res: &Vec<String>)
        ensures
            res@ == self.arguments(),
    {
        &self.args
    }
}

/// The state of a running game: whether it was told to stop, whether its
/// output streams are still open, and whether it has exited.
pub struct RunLoop {
    sent_stop: bool,
    streams_open: bool,
    exited: bool,
}

impl View for RunLoop {
    type V = (bool, bool, bool);

    closed spec fn view(&self) -> (bool, bool, bool) {
        (self.sent_stop, self.streams_open, self.exited)
    }
}

impl RunLoop {
    /// A game just started: not told to stop, streams open, still running.
    pub fn new() -> (res: RunLoop)
        ensures
            res@ == (false, true, false),
    {
        RunLoop { sent_stop: false, streams_open: true, exited: false }
    }

    /// Whether to stop the game now: on Ctrl+C, once.
    pub fn should_stop(&mut self, ctrl_c: bool) -> (res: bool)
        ensures
            res == (ctrl_c && !old(self)@.0),
            final(self)@ == (old(self)@.0 || ctrl_c, old(self)@.1, old(self)@.2),
    {
        if ctrl_c && !self.sent_stop {
            self.sent_stop = true;
            true
        } else {
            false
        }
    }

    /// Whether to wait for output.
    pub fn wants_output(&self) -> (res: bool)
        ensures
            res == self@.1,
    {
        self.streams_open
    }

    /// Both output streams have closed.
    pub fn on_streams_closed(&mut self)
        ensures
            final(self)@ == (old(self)@.0, false, old(self)@.2),
    {
        self.streams_open = false;
    }

    /// Whether to ask if the game has exited.
    pub fn wants_status(&self) -> (res: bool)
        ensures
            res == !self@.2,
    {
        !self.exited
    }

    /// The game has exited.
    pub fn on_exited(&mut self)
        ensures
            final(self)@ == (old(self)@.0, old(self)@.1, true),
    {
        self.exited = true;
    }

    /// The run is over once the game has exited and its output is drained.
    pub fn finished(&self) -> (res: bool)
        ensures
            res == (self@.2 && !self@.1),
    {
        self.exited && !self.streams_open
    }
}

} // verus!
