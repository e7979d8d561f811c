//! The two vocabularies of the library: raw input symbols and player actions.

use vstd::prelude::*;

verus! {

/// A physical input unit: one key of the keyboard or one button of the mouse,
/// each identified by the number the host gives it.
#[derive(Clone, Copy, Debug, PartialEq, Eq, Structural, Hash)]
pub enum Input {
    Keyboard(u64),
    Mouse(u64),
}

/// Whether a key or button went down or came up.
#[derive(Clone, Copy, Debug, PartialEq, Eq, Structural, Hash)]
pub enum ButtonState {
    Pressed,
    Released,
}

/// One press or release of one raw input symbol, as the host reports it.
#[derive(Clone, Copy, Debug, PartialEq, Eq, Structural, Hash)]
pub struct InputEvent {
    pub input: Input,
    pub state: ButtonState,
}

/// Everything the player can ask the character to do.
#[derive(Clone, Copy, Debug, PartialEq, Eq, Structural, Hash)]
pub enum Action {
    MoveForward,
    MoveBackward,
    MoveLeft,
    MoveRight,
    Jump,
}

/// How many actions there are.
pub const ACTION_COUNT: u64 = 5;

impl Action {
    /// The position of the action in declaration order.
    pub open spec fn spec_index(self) -> u64 {
        match self {
            Action::MoveForward => 0,
            Action::MoveBackward => 1,
            Action::MoveLeft => 2,
            Action::MoveRight => 3,
            Action::Jump => 4,
        }
    }

    /// The action at a position, if the position names one.
    pub open spec fn spec_from_index(index: u64) -> Option<Action> {
        if index == 0 {
            Some(Action::MoveForward)
        } else if index == 1 {
            Some(Action::MoveBackward)
        } else if index == 2 {
            Some(Action::MoveLeft)
        } else if index == 3 {
            Some(Action::MoveRight)
        } else if index == 4 {
            Some(Action::Jump)
        } else {
            None
        }
    }

    /// Two actions at the same position are the same action.
    pub proof fn lemma_index_injective(first: Action, second: Action)
        ensures
            first.spec_index() == second.spec_index() <==> first == second,
    {
    }

    /// Every position is below `ACTION_COUNT` and leads back to its action.
    pub proof fn lemma_index_bound(self)
        ensures
            self.spec_index() < ACTION_COUNT,
            Action::spec_from_index(self.spec_index()) == Some(self),
    {
    }

    /// The position of the action in declaration order.
    pub fn index(self) -> (index: u64)
        ensures
            index == self.spec_index(),
            index < ACTION_COUNT,
            Action::spec_from_index(index) == Some(self),
    {
        match self {
            Action::MoveForward => 0,
            Action::MoveBackward => 1,
            Action::MoveLeft => 2,
            Action::MoveRight => 3,
            Action::Jump => 4,
        }
    }

    /// The action at a position: `Some` exactly for positions below
    /// `ACTION_COUNT`, and then the action whose `index` is that position.
    pub fn from_index(index: u64) -> (action: Option<Action>)
        ensures
            action == Action::spec_from_index(index),
            action.is_some() == (index < ACTION_COUNT),
            action matches Some(a) ==> a.spec_index() == index,
    {
        if index == 0 {
            Some(Action::MoveForward)
        } else if index == 1 {
            Some(Action::MoveBackward)
        } else if index == 2 {
            Some(Action::MoveLeft)
        } else if index == 3 {
            Some(Action::MoveRight)
        } else if index == 4 {
            Some(Action::Jump)
        } else {
            None
        }
    }
}

} // verus!
