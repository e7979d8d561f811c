//! A play session: the three records and the binding table under one owner,
//! with the phases of a frame and of a fixed tick in their fixed order.

use vstd::prelude::*;
use crate::actions::{
    accumulate, cleanup_actions, clear_fixed_actions, convert_inputs_to_actions, resolve_frame,
    Actions, FixedActions,
};
use crate::bindings::KeyBindings;
use crate::input::{
    after_focus_lost, apply_events, cleanup_inputs, detect_keyboard_focus_lost,
    read_input_events, Inputs,
};
use crate::sets::StateView;
use crate::symbols::{Action, Input, InputEvent};

verus! {

/// The three records that a session carries from frame to frame.
pub struct SessionView {
    pub inputs: StateView<Input>,
    pub actions: StateView<Action>,
    pub fixed: StateView<Action>,
}

impl SessionView {
    /// Both frame records are coherent. The fixed-tick record need not be:
    /// it keeps a press after the release that followed it.
    pub open spec fn coherent(self) -> bool {
        self.inputs.coherent() && self.actions.coherent()
    }
}

/// The start of a frame: the frame's events are recorded, then the actions
/// are resolved from what is held.
pub open spec fn begin_frame(
    bindings: Map<Action, Seq<Input>>,
    before: SessionView,
    events: Seq<InputEvent>,
) -> SessionView {
    let inputs = apply_events(before.inputs, events);
    let actions = resolve_frame(bindings, inputs.holding, before.actions.holding);
    SessionView { inputs, actions, fixed: accumulate(before.fixed, actions) }
}

/// The end of a frame: a loss of focus lets go of every held symbol, and
/// the transitions of the frame, raw and resolved, are forgotten.
pub open spec fn end_frame(before: SessionView, focus_lost: bool) -> SessionView {
    let inputs = if focus_lost {
        after_focus_lost(before.inputs)
    } else {
        before.inputs
    };
    SessionView {
        inputs: inputs.without_transitions(),
        actions: before.actions.without_transitions(),
        fixed: before.fixed,
    }
}

/// The end of a fixed tick: the gathered action transitions are forgotten.
pub open spec fn end_fixed_tick(before: SessionView) -> SessionView {
    SessionView {
        inputs: before.inputs,
        actions: before.actions,
        fixed: before.fixed.without_transitions(),
    }
}

/// One frame that follows another without a loss of focus, seen at the
/// point where the frame's actions are resolved.
pub open spec fn frame(
    bindings: Map<Action, Seq<Input>>,
    before: SessionView,
    events: Seq<InputEvent>,
) -> SessionView {
    begin_frame(bindings, end_frame(before, false), events)
}

/// A run of frames without a fixed tick in between, one event queue per
/// frame.
pub open spec fn frames(
    bindings: Map<Action, Seq<Input>>,
    start: SessionView,
    queues: Seq<Seq<InputEvent>>,
) -> SessionView
    decreases queues.len(),
{
    if queues.len() == 0 {
        start
    } else {
        frame(bindings, frames(bindings, start, queues.drop_last()), queues.last())
    }
}

/// The records of raw input and of actions together with the table that
/// leads from one to the other.
pub struct Session {
    pub inputs: Inputs,
    pub actions: Actions,
    pub fixed_actions: FixedActions,
    pub key_bindings: KeyBindings,
}

impl View for Session {
    type V = SessionView;

    open spec fn view(&self) -> SessionView {
        SessionView { inputs: self.inputs@, actions: self.actions@, fixed: self.fixed_actions@ }
    }
}

impl Session {
    /// A session under the given bindings in which nothing has happened yet.
    pub fn new(key_bindings: KeyBindings) -> (session: Session)
        ensures
            session.key_bindings@ == key_bindings@,
            session@.inputs == StateView::<Input>::nothing(),
            session@.actions == StateView::<Action>::nothing(),
            session@.fixed == StateView::<Action>::nothing(),
            session@.coherent(),
    {
        Session {
            inputs: Inputs::new(),
            actions: Actions::new(),
            fixed_actions: FixedActions::new(),
            key_bindings,
        }
    }

    /// Starts a frame: records its events, then resolves its actions. What
    /// the frame and the fixed step may read is ready afterwards.
    pub fn begin_frame(&mut self, events: &Vec<InputEvent>)
        ensures
            final(self)@ == begin_frame(old(self).key_bindings@, old(self)@, events@),
            final(self).key_bindings@ == old(self).key_bindings@,
            old(self)@.coherent() ==> final(self)@.coherent(),
    {
        read_input_events(&mut self.inputs, events);
        convert_inputs_to_actions(
            &self.inputs,
            &mut self.actions,
            &mut self.fixed_actions,
            &self.key_bindings,
        );
    }

    /// Ends a frame, after everything that reads the frame's input has run.
    pub fn end_frame(&mut self, focus_lost: bool)
        ensures
            final(self)@ == end_frame(old(self)@, focus_lost),
            final(self).key_bindings@ == old(self).key_bindings@,
            final(self)@.coherent(),
    {
        detect_keyboard_focus_lost(&mut self.inputs, focus_lost);
        cleanup_inputs(&mut self.inputs);
        cleanup_actions(&mut self.actions);
    }

    /// Ends a fixed tick, after the fixed step has read its actions.
    pub fn end_fixed_tick(&mut self)
        ensures
            final(self)@ == end_fixed_tick(old(self)@),
            final(self).key_bindings@ == old(self).key_bindings@,
            old(self)@.coherent() ==> final(self)@.coherent(),
    {
        clear_fixed_actions(&mut self.fixed_actions);
    }
}

} // verus!
