//! What the game consumes from the outside world each tick: the time that
//! has passed and the logical actions that are held or were just pressed.

use vstd::prelude::*;

verus! {

/// A logical action, independent of the device that triggers it.
#[derive(Clone, Copy, Debug, PartialEq, Eq, Structural)]
pub enum Action {
    /// Steer the given player to the left.
    TurnLeft(u8),
    /// Steer the given player to the right.
    TurnRight(u8),
    /// Go on to the next phase.
    Confirm,
    /// Go back to the main menu.
    Cancel,
    /// One more player in the next round.
    IncreasePlayerCount,
    /// One player fewer in the next round.
    DecreasePlayerCount,
}

/// The input of one tick.
pub struct Input {
    /// Microseconds since the previous tick.
    pub elapsed: u64,
    /// The actions that are held down.
    pub held: Vec<Action>,
    /// The actions that went down since the previous tick.
    pub just_pressed: Vec<Action>,
}

/// Whether `action` occurs in `actions`.
fn has_action(actions: &Vec<Action>, action: Action) -> (found: bool)
    ensures
        found == actions@.contains(action),
{
    let mut i: usize = 0;
    while i < actions.len()
        invariant
            i <= actions@.len(),
            forall|k: int| 0 <= k < i ==> actions@[k] != action,
        decreases actions@.len() - i,
    {
        if actions[i] == action {
            return true;
        }
        i += 1;
    }
    false
}

impl Input {
    /// A tick of `elapsed` microseconds in which nothing is held or pressed.
    pub fn idle(elapsed: u64) -> (input: Input)
        ensures
            input.elapsed == elapsed,
            input.held@ == Seq::<Action>::empty(),
            input.just_pressed@ == Seq::<Action>::empty(),
    {
        Input { elapsed, held: Vec::new(), just_pressed: Vec::new() }
    }

    /// Whether `action` is held down.
    pub fn is_action_held(&self, action: Action) -> (held: bool)
        ensures
            held == self.held@.contains(action),
    {
        has_action(&self.held, action)
    }

    /// Whether `action` went down since the previous tick.
    pub fn is_action_just_pressed(&self, action: Action) -> (pressed: bool)
        ensures
            pressed == self.just_pressed@.contains(action),
    {
        has_action(&self.just_pressed, action)
    }
}

} // verus!
