use vstd::prelude::*;

verus! {

/// Sound cues that the game asks the audio backend to play.
#[derive(Debug, Clone, Copy, PartialEq, Eq, Structural)]
pub enum SoundTrigger {
    Move,
    Select,
    InvalidMove,
    Win,
    Loss,
    ButtonClick,
    Train,
}

} // verus!
