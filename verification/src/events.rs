//! Events exchanged with the host each frame, and the display surfaces the
//! console keeps in sync.

use vstd::prelude::*;

verus! {

/// Whether a key event is a press (or repeat) or a release.
#[derive(Clone, Copy, PartialEq, Eq, Structural, Debug)]
pub enum ButtonState {
    Pressed,
    Released,
}

/// The logical key of a keyboard event. Text input arrives as a
/// `Character` fragment, possibly several characters at once for
/// composed input; keys the console does not react to are `Other`.
#[derive(Clone, Debug)]
pub enum Key {
    Enter,
    Backspace,
    Character(String),
    Other,
}

/// One keyboard event delivered by the host.
#[derive(Clone, Debug)]
pub struct KeyboardInput {
    pub key: Key,
    pub state: ButtonState,
}

/// A text event bound for the standard-output log.
#[derive(Clone, Debug)]
pub struct StdOutEvent {
    pub value: String,
}

/// A text event bound for the error log.
#[derive(Clone, Debug)]
pub struct StdErrEvent {
    pub value: String,
}

/// The unit a mouse-wheel event's delta is reported in.
#[derive(Clone, Copy, PartialEq, Eq, Structural, Debug)]
pub enum MouseScrollUnit {
    Line,
    Pixel,
}

/// One mouse-wheel event delivered by the host.
#[derive(Clone, Copy, PartialEq, Eq, Structural, Debug)]
pub struct MouseWheel {
    pub unit: MouseScrollUnit,
    pub y: i32,
}

/// A read-only snapshot of host system information, as the host's
/// system-information provider reports it.
#[derive(Clone, Debug)]
pub struct SystemInfo {
    pub os: String,
    pub kernel: String,
    pub cpu: String,
    pub core_count: String,
    pub memory: String,
}

/// The input display: a fixed prompt, the visible input line, and the
/// cursor glyph. The console resynchronizes it from its own state.
#[derive(Clone, Debug)]
pub struct StdIn {
    pub prompt: String,
    pub value: String,
    pub cursor: String,
}

/// The standard-output log: an append-only sequence of text fragments.
#[derive(Clone, Debug)]
pub struct StdOut {
    pub sections: Vec<String>,
}

/// The error log: an append-only sequence of text fragments.
#[derive(Clone, Debug)]
pub struct StdErr {
    pub sections: Vec<String>,
}

/// What one frame of event processing hands back to the host: the
/// standard-output events emitted, and how many times orderly process
/// termination was requested.
pub struct FrameOutput {
    pub stdout: Vec<StdOutEvent>,
    pub exit_requests: usize,
}

impl FrameOutput {
    /// An output with no events and no termination request.
    pub fn new() -> (r: FrameOutput)
        ensures
            r.stdout@ == Seq::<StdOutEvent>::empty(),
            r.exit_requests == 0,
    {
        FrameOutput { stdout: Vec::new(), exit_requests: 0 }
    }
}

} // verus!
