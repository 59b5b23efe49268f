//! Plain configuration and driver-state vocabulary: which keyboard layout
//! maps physical keys to the 16-key pad, and what state the driver loop is
//! in after polling input.
use vstd::prelude::*;

verus! {

/// Which physical keyboard layout the key mapping assumes.
#[derive(Clone, Copy, PartialEq, Eq, Structural, Debug)]
pub enum KeyboardType {
    Qwerty,
    Azerty,
}

/// What the driver observed when polling input: a running frame with the
/// current pressed-key vector, a paused frame, or a request to quit.
pub enum GameState {
    Running([bool; 16]),
    Paused,
    Exited,
}

/// Start-up configuration handed in by the surrounding application.
pub struct Args {
    /// Path of the program image to load.
    pub filename: String,
    /// Physical keyboard layout of the key mapping.
    pub keyboard_type: KeyboardType,
}

} // verus!
