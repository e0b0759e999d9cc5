//! The sound cues that the engine asks for.

use vstd::prelude::*;
use vstd::string::*;

verus! {

/// A sound cue that the engine asks for. Playing it is up to the caller.
#[derive(Clone, Copy, Debug, PartialEq, Eq, Structural)]
pub enum Sound {
    /// The player ran into something immovable.
    Wall,
    /// A box came onto a spot of its own colour.
    Correct,
    /// A box came onto a spot of the other colour.
    Incorrect,
}

impl Sound {
    /// The name under which the cue is known to the audio store.
    pub open spec fn name(self) -> Seq<char> {
        match self {
            Sound::Wall => "wall"@,
            Sound::Correct => "correct"@,
            Sound::Incorrect => "incorrect"@,
        }
    }

    /// The cue's name.
    pub fn as_str(&self) -> (name: &'static str)
        ensures
            name@ == self.name(),
    {
        match self {
            Sound::Wall => "wall",
            Sound::Correct => "correct",
            Sound::Incorrect => "incorrect",
        }
    }

    /// Where the cue's sample lies among the game's resources.
    pub fn path(&self) -> (path: String)
        ensures
            path@ == "/sounds/"@ + self.name() + ".wav"@,
    {
        String::from_str("/sounds/").concat(self.as_str()).concat(".wav")
    }

    /// Every cue, in the order in which the samples are loaded.
    pub fn all() -> (cues: Vec<Sound>)
        ensures
            cues@ == seq![Sound::Correct, Sound::Incorrect, Sound::Wall],
    {
        vec![Sound::Correct, Sound::Incorrect, Sound::Wall]
    }
}

} // verus!
