//! The raw input collector: which keys and buttons went down, came up, and
//! are down, frame by frame.

use vstd::prelude::*;
use crate::sets::{InputSet, StateView};
use crate::symbols::{ButtonState, Input, InputEvent};

verus! {

/// The record of raw input: symbols pressed and released since the last
/// cleanup, and symbols held right now.
pub struct Inputs {
    pub pressed: InputSet,
    pub released: InputSet,
    pub holding: InputSet,
}

impl View for Inputs {
    type V = StateView<Input>;

    open spec fn view(&self) -> StateView<Input> {
        StateView { pressed: self.pressed@, released: self.released@, holding: self.holding@ }
    }
}

/// The record after a press. The symbol is held and no longer counts as
/// released. It counts as pressed only if it was not held before: a repeat
/// on a held symbol is no transition.
pub open spec fn press(state: StateView<Input>, input: Input) -> StateView<Input> {
    StateView {
        pressed: if state.holding.contains(input) {
            state.pressed
        } else {
            state.pressed.insert(input)
        },
        released: state.released.remove(input),
        holding: state.holding.insert(input),
    }
}

/// The record after a release. The symbol is neither held nor pressed any
/// more. It counts as released only if it was held before: a release of a
/// symbol that is not held is no transition.
pub open spec fn release(state: StateView<Input>, input: Input) -> StateView<Input> {
    StateView {
        pressed: state.pressed.remove(input),
        released: if state.holding.contains(input) {
            state.released.insert(input)
        } else {
            state.released
        },
        holding: state.holding.remove(input),
    }
}

/// The record after one event.
pub open spec fn apply_event(state: StateView<Input>, event: InputEvent) -> StateView<Input> {
    match event.state {
        ButtonState::Pressed => press(state, event.input),
        ButtonState::Released => release(state, event.input),
    }
}

/// The record after a queue of events, taken front to back.
pub open spec fn apply_events(state: StateView<Input>, events: Seq<InputEvent>) -> StateView<
    Input,
>
    decreases events.len(),
{
    if events.len() == 0 {
        state
    } else {
        apply_event(apply_events(state, events.drop_last()), events.last())
    }
}

/// What a loss of keyboard focus leaves of a record: nothing. The host
/// will not report the release of a key that was down when focus went
/// away, so every held symbol is let go, and the presses and releases
/// of the frame are dropped with it.
pub open spec fn after_focus_lost(state: StateView<Input>) -> StateView<Input> {
    StateView::nothing()
}

impl Inputs {
    /// A record in which nothing is pressed, released or held.
    pub fn new() -> (inputs: Inputs)
        ensures
            inputs@ == StateView::<Input>::nothing(),
            inputs@.coherent(),
    {
        Inputs { pressed: InputSet::new(), released: InputSet::new(), holding: InputSet::new() }
    }

    /// Records one event.
    pub fn record(&mut self, event: InputEvent)
        ensures
            final(self)@ == apply_event(old(self)@, event),
            old(self)@.coherent() ==> final(self)@.coherent(),
    {
        match event.state {
            ButtonState::Pressed => {
                let went_down = self.holding.insert(event.input);
                if went_down {
                    self.pressed.insert(event.input);
                }
                self.released.remove(event.input);
            },
            ButtonState::Released => {
                let came_up = self.holding.remove(event.input);
                if came_up {
                    self.released.insert(event.input);
                }
                self.pressed.remove(event.input);
            },
        }
    }
}

/// Records the frame's key and button events, front to back.
///
/// A press of a symbol that is not held puts it into `pressed` and
/// `holding`; a release of a held symbol puts it into `released` and takes
/// it out of `holding`. A press of a held symbol, as a key repeat sends it,
/// and a release of a symbol that is not held are no transitions: neither
/// adds to `pressed` or `released`. Each event also undoes the opposite
/// transition of its symbol, so that whatever is in `pressed` is held and
/// nothing in `released` is.
pub fn read_input_events(inputs: &mut Inputs, events: &Vec<InputEvent>)
    ensures
        final(inputs)@ == apply_events(old(inputs)@, events@),
        old(inputs)@.coherent() ==> final(inputs)@.coherent(),
{
    let ghost start = inputs@;
    let mut i: usize = 0;
    while i < events.len()
        invariant
            i <= events.len(),
            inputs@ == apply_events(start, events@.take(i as int)),
        decreases events.len() - i,
    {
        inputs.record(events[i]);
        proof {
            let next = events@.take(i + 1);
            assert(next.drop_last() =~= events@.take(i as int));
            assert(next.last() == events@[i as int]);
        }
        i = i + 1;
    }
    proof {
        assert(events@.take(events@.len() as int) =~= events@);
        if start.coherent() {
            lemma_events_keep_coherence(start, events@);
        }
    }
}

/// Lets go of everything when keyboard focus was lost during the frame, and
/// changes nothing otherwise.
pub fn detect_keyboard_focus_lost(inputs: &mut Inputs, focus_lost: bool)
    ensures
        focus_lost ==> final(inputs)@ == after_focus_lost(old(inputs)@),
        !focus_lost ==> final(inputs)@ == old(inputs)@,
        focus_lost || old(inputs)@.coherent() ==> final(inputs)@.coherent(),
{
    if focus_lost {
        inputs.pressed.clear();
        inputs.released.clear();
        inputs.holding.clear();
    }
}

/// Ends the frame: forgets what was pressed and released, keeps what is
/// held.
pub fn cleanup_inputs(inputs: &mut Inputs)
    ensures
        final(inputs)@ == old(inputs)@.without_transitions(),
        final(inputs)@.coherent(),
{
    inputs.pressed.clear();
    inputs.released.clear();
}

/// One event keeps a coherent record coherent.
pub proof fn lemma_event_keeps_coherence(state: StateView<Input>, event: InputEvent)
    requires
        state.coherent(),
    ensures
        apply_event(state, event).coherent(),
{
}

/// A queue of events keeps a coherent record coherent.
pub proof fn lemma_events_keep_coherence(state: StateView<Input>, events: Seq<InputEvent>)
    requires
        state.coherent(),
    ensures
        apply_events(state, events).coherent(),
    decreases events.len(),
{
    if events.len() > 0 {
        lemma_events_keep_coherence(state, events.drop_last());
        lemma_event_keeps_coherence(apply_events(state, events.drop_last()), events.last());
    }
}

} // verus!
