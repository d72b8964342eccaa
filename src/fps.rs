//! Target frame rates.
use vstd::prelude::*;

verus! {

/// How many frames per second the output has.
#[derive(Debug, Clone, Copy, PartialEq, Eq, Structural, Default)]
pub enum FPS {
    /// 60 fps
    #[default]
    Sixty,
}

impl FPS {
    /// Frames per second, never zero.
    pub fn non_zero_usize(self) -> (r: usize)
        ensures
            r == 60,
    {
        match self {
            FPS::Sixty => 60,
        }
    }
}

} // verus!
