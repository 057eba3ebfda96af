use vstd::prelude::*;

verus! {

/// Whether a scene goes on or hands over to the next one.
#[derive(Debug, Clone, Copy, PartialEq, Eq, Structural)]
pub enum SceneResult {
    Continue,
    Next,
}

/// When the intro's exit slide ends, in milliseconds from the start.
pub const INTRO_END_MS: u64 = 4200;

/// Whether the intro is over after `elapsed` milliseconds.
pub fn intro_is_done(elapsed: u64) -> (res: bool)
    ensures
        res == (elapsed >= INTRO_END_MS),
{
    elapsed >= INTRO_END_MS
}

/// What the intro scene says after `elapsed` milliseconds.
pub fn intro_update(elapsed: u64) -> (res: SceneResult)
    ensures
        res == (if elapsed >= INTRO_END_MS { SceneResult::Next } else { SceneResult::Continue }),
{
    if intro_is_done(elapsed) {
        SceneResult::Next
    } else {
        SceneResult::Continue
    }
}

} // verus!
