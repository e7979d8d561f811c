//! What holds of the collector and the resolver over whole runs of frames.

use vstd::prelude::*;
use crate::actions::{
    candidates, every_symbol_held, is_candidate, is_suppressed, overrides, resolve_frame,
    resolved_holding, shares_symbol,
};
use crate::input::{apply_event, apply_events, press, release};
use crate::session::{begin_frame, end_fixed_tick, end_frame, frames, SessionView};
use crate::sets::StateView;
use crate::symbols::{Action, ButtonState, Input, InputEvent};

verus! {

/// The session after the first `count` frames of a run.
pub open spec fn after_frames(
    bindings: Map<Action, Seq<Input>>,
    start: SessionView,
    queues: Seq<Seq<InputEvent>>,
    count: int,
) -> SessionView {
    frames(bindings, start, queues.take(count))
}

/// Some frame of the run reported the action as pressed.
pub open spec fn pressed_in_some_frame(
    bindings: Map<Action, Seq<Input>>,
    start: SessionView,
    queues: Seq<Seq<InputEvent>>,
    action: Action,
) -> bool {
    exists|count: int|
        0 < count <= queues.len() && (#[trigger] after_frames(
            bindings,
            start,
            queues,
            count,
        )).actions.pressed.contains(action)
}

/// Some frame of the run reported the action as released.
pub open spec fn released_in_some_frame(
    bindings: Map<Action, Seq<Input>>,
    start: SessionView,
    queues: Seq<Seq<InputEvent>>,
    action: Action,
) -> bool {
    exists|count: int|
        0 < count <= queues.len() && (#[trigger] after_frames(
            bindings,
            start,
            queues,
            count,
        )).actions.released.contains(action)
}

/// The action is bound to the one symbol, and no other binding uses that
/// symbol.
pub open spec fn sole_binding(
    bindings: Map<Action, Seq<Input>>,
    action: Action,
    symbol: Input,
) -> bool {
    &&& bindings.contains_key(action)
    &&& bindings[action] == seq![symbol]
    &&& forall|other: Action|
        other != action && #[trigger] bindings.contains_key(other) ==> !bindings[other].contains(
            symbol,
        )
}

/// A press of a held symbol is no transition: it leaves the holding set and
/// the pressed set as they are, and a coherent record whole. The same holds
/// of a release of a symbol that is not held, and the released set.
pub proof fn lemma_repeated_event_is_no_transition(state: StateView<Input>, input: Input)
    ensures
        state.holding.contains(input) ==> press(state, input).holding == state.holding
            && press(state, input).pressed == state.pressed,
        state.holding.contains(input) && state.coherent() ==> press(state, input) == state,
        !state.holding.contains(input) ==> release(state, input).holding == state.holding
            && release(state, input).released == state.released,
        !state.holding.contains(input) && state.coherent() ==> release(state, input) == state,
{
    if state.holding.contains(input) {
        assert(press(state, input).holding =~= state.holding);
        if state.coherent() {
            assert(press(state, input).released =~= state.released);
        }
    } else {
        assert(release(state, input).holding =~= state.holding);
        if state.coherent() {
            assert(release(state, input).pressed =~= state.pressed);
        }
    }
}

/// A press puts its symbol into the pressed set exactly if the symbol was
/// not held, and a release puts its symbol into the released set exactly if
/// it was.
pub proof fn lemma_transition_needs_a_change(state: StateView<Input>, input: Input)
    ensures
        press(state, input).pressed.contains(input) <==> !state.holding.contains(input)
            || state.pressed.contains(input),
        release(state, input).released.contains(input) <==> state.holding.contains(input)
            || state.released.contains(input),
{
}

/// After an event its symbol is held exactly if the event was a press, and
/// every other symbol is held as before.
pub proof fn lemma_event_decides_its_symbol(
    state: StateView<Input>,
    event: InputEvent,
    other: Input,
)
    ensures
        apply_event(state, event).holding.contains(event.input) <==> event.state
            == ButtonState::Pressed,
        other != event.input ==> (apply_event(state, event).holding.contains(other)
            <==> state.holding.contains(other)),
{
}

/// An action that alone is bound to one symbol is held exactly while the
/// symbol is held; it is pressed only in a frame in which it was not held
/// before, and released only in one in which it was.
pub proof fn lemma_sole_binding_follows_symbol(
    bindings: Map<Action, Seq<Input>>,
    holding: Set<Input>,
    previous: Set<Action>,
    action: Action,
    symbol: Input,
)
    requires
        sole_binding(bindings, action, symbol),
    ensures
        resolve_frame(bindings, holding, previous).holding.contains(action) <==> holding.contains(
            symbol,
        ),
        resolve_frame(bindings, holding, previous).pressed.contains(action) <==> holding.contains(
            symbol,
        ) && !previous.contains(action),
        resolve_frame(bindings, holding, previous).released.contains(action) <==> !holding.contains(
            symbol,
        ) && previous.contains(action),
{
    let own = bindings[action];
    assert(own[0] == symbol);
    assert(own.contains(symbol));
    assert forall|input: Input| own.contains(input) implies input == symbol by {
        let i = choose|i: int| 0 <= i < own.len() && own[i] == input;
        assert(i == 0);
    }
    assert(is_candidate(bindings, holding, action) <==> holding.contains(symbol));
    let among = candidates(bindings, holding);
    assert forall|winner: Action| among.contains(winner) implies !#[trigger] overrides(
        bindings,
        winner,
        action,
    ) by {
        if overrides(bindings, winner, action) {
            let shared = choose|input: Input|
                own.contains(input) && bindings[winner].contains(input);
            assert(shared == symbol);
            assert(winner == action);
        }
    }
    assert(!is_suppressed(bindings, among, action));
}

/// Over any run of frames, whatever their events, an action that alone is
/// bound to one symbol is held in the last frame exactly if the symbol is.
/// It counts as pressed only if it was not held in the frame before, and as
/// released only if it was.
pub proof fn lemma_sole_binding_follows_symbol_over_frames(
    bindings: Map<Action, Seq<Input>>,
    start: SessionView,
    queues: Seq<Seq<InputEvent>>,
    action: Action,
    symbol: Input,
)
    requires
        sole_binding(bindings, action, symbol),
        queues.len() > 0,
    ensures
        ({
            let before = frames(bindings, start, queues.drop_last());
            let after = frames(bindings, start, queues);
            &&& after.actions.holding.contains(action) <==> after.inputs.holding.contains(symbol)
            &&& after.actions.pressed.contains(action) <==> after.inputs.holding.contains(symbol)
                && !before.actions.holding.contains(action)
            &&& after.actions.released.contains(action) <==> !after.inputs.holding.contains(symbol)
                && before.actions.holding.contains(action)
        }),
{
    let before = frames(bindings, start, queues.drop_last());
    let after = frames(bindings, start, queues);
    lemma_sole_binding_follows_symbol(
        bindings,
        after.inputs.holding,
        before.actions.holding,
        action,
        symbol,
    );
}

/// With nothing held, no action is held or pressed, and every action that
/// was held is released.
pub proof fn lemma_nothing_held_releases_all(
    bindings: Map<Action, Seq<Input>>,
    previous: Set<Action>,
)
    ensures
        resolve_frame(bindings, Set::empty(), previous) == (StateView {
            pressed: Set::empty(),
            released: previous,
            holding: Set::empty(),
        }),
{
    let none = Set::<Input>::empty();
    assert forall|action: Action| !is_candidate(bindings, none, action) by {
        if bindings.contains_key(action) && bindings[action].len() > 0 {
            let first = bindings[action][0];
            assert(bindings[action].contains(first));
        }
    }
    let frame = resolve_frame(bindings, none, previous);
    assert(frame.holding =~= Set::<Action>::empty());
    assert(frame.pressed =~= Set::<Action>::empty());
    assert(frame.released =~= previous);
}

/// No event of the queue is a press.
pub open spec fn only_releases(events: Seq<InputEvent>) -> bool {
    forall|i: int| 0 <= i < events.len() ==> (#[trigger] events[i]).state == ButtonState::Released
}

/// A queue without a press adds nothing to what is held.
pub proof fn lemma_releases_hold_nothing_new(state: StateView<Input>, events: Seq<InputEvent>)
    requires
        only_releases(events),
    ensures
        apply_events(state, events).holding.subset_of(state.holding),
    decreases events.len(),
{
    if events.len() > 0 {
        let rest = events.drop_last();
        assert forall|i: int| 0 <= i < rest.len() implies (#[trigger] rest[i]).state
            == ButtonState::Released by {
            assert(rest[i] == events[i]);
        }
        lemma_releases_hold_nothing_new(state, rest);
        assert(events.last() == events[events.len() - 1]);
    }
}

/// In the frame after keyboard focus was lost, as long as no new press has
/// arrived, every action that was held is released and none is held or
/// pressed.
pub proof fn lemma_focus_lost_releases_all(
    bindings: Map<Action, Seq<Input>>,
    before: SessionView,
    events: Seq<InputEvent>,
)
    requires
        only_releases(events),
    ensures
        ({
            let lost = end_frame(before, true);
            let after = begin_frame(bindings, lost, events);
            &&& lost.inputs.holding == Set::<Input>::empty()
            &&& after.inputs.holding == Set::<Input>::empty()
            &&& after.actions.holding == Set::<Action>::empty()
            &&& after.actions.pressed == Set::<Action>::empty()
            &&& after.actions.released == before.actions.holding
        }),
{
    let lost = end_frame(before, true);
    lemma_releases_hold_nothing_new(lost.inputs, events);
    assert(apply_events(lost.inputs, events).holding =~= Set::<Input>::empty());
    lemma_nothing_held_releases_all(bindings, before.actions.holding);
}

/// Of two candidates of which one overrides the other, the overridden one
/// is not held.
pub proof fn lemma_overridden_candidate_is_dropped(
    bindings: Map<Action, Seq<Input>>,
    holding: Set<Input>,
    winner: Action,
    loser: Action,
)
    requires
        is_candidate(bindings, holding, winner),
        overrides(bindings, winner, loser),
    ensures
        !resolved_holding(bindings, holding).contains(loser),
{
    assert(candidates(bindings, holding).contains(winner));
}

/// With one action bound to a single symbol and another to that symbol
/// plus a second one, and nothing else bound, holding both symbols holds
/// the second action and not the first.
pub proof fn lemma_longer_combination_wins(
    bindings: Map<Action, Seq<Input>>,
    holding: Set<Input>,
    plain: Action,
    combined: Action,
    symbol: Input,
    modifier: Input,
)
    requires
        plain != combined,
        bindings == Map::<Action, Seq<Input>>::empty().insert(plain, seq![symbol]).insert(
            combined,
            seq![symbol, modifier],
        ),
        holding.contains(symbol),
        holding.contains(modifier),
    ensures
        resolved_holding(bindings, holding).contains(combined),
        !resolved_holding(bindings, holding).contains(plain),
{
    let short = bindings[plain];
    let long = bindings[combined];
    assert(short == seq![symbol]);
    assert(long == seq![symbol, modifier]);
    assert(short[0] == symbol && long[0] == symbol && long[1] == modifier);
    assert(short.contains(symbol) && long.contains(symbol));
    assert(shares_symbol(short, long));
    assert forall|input: Input| long.contains(input) implies holding.contains(input) by {
        let i = choose|i: int| 0 <= i < long.len() && long[i] == input;
        assert(i == 0 || i == 1);
    }
    assert(every_symbol_held(long, holding));
    assert(is_candidate(bindings, holding, combined));
    assert(overrides(bindings, combined, plain));
    lemma_overridden_candidate_is_dropped(bindings, holding, combined, plain);
    assert forall|winner: Action|
        candidates(bindings, holding).contains(winner) implies !#[trigger] overrides(
        bindings,
        winner,
        combined,
    ) by {
        assert(winner == plain || winner == combined);
    }
}

/// Resolving a second time from the same holding set changes nothing that
/// is held and reports no transition.
pub proof fn lemma_resolving_again_is_quiet(
    bindings: Map<Action, Seq<Input>>,
    holding: Set<Input>,
    previous: Set<Action>,
)
    ensures
        ({
            let first = resolve_frame(bindings, holding, previous);
            let second = resolve_frame(bindings, holding, first.holding);
            &&& second.holding == first.holding
            &&& second.pressed == Set::<Action>::empty()
            &&& second.released == Set::<Action>::empty()
        }),
{
    let first = resolve_frame(bindings, holding, previous);
    let second = resolve_frame(bindings, holding, first.holding);
    assert(second.pressed =~= Set::<Action>::empty());
    assert(second.released =~= Set::<Action>::empty());
}

/// Starting a frame a second time, with no new event, leaves the raw input,
/// the held actions and the fixed-tick record as they are and reports no
/// transition.
pub proof fn lemma_begin_frame_again_is_quiet(
    bindings: Map<Action, Seq<Input>>,
    before: SessionView,
    events: Seq<InputEvent>,
)
    ensures
        ({
            let once = begin_frame(bindings, before, events);
            let twice = begin_frame(bindings, once, Seq::empty());
            &&& twice.inputs == once.inputs
            &&& twice.actions.holding == once.actions.holding
            &&& twice.actions.pressed == Set::<Action>::empty()
            &&& twice.actions.released == Set::<Action>::empty()
            &&& twice.fixed == once.fixed
        }),
{
    let once = begin_frame(bindings, before, events);
    let twice = begin_frame(bindings, once, Seq::empty());
    lemma_resolving_again_is_quiet(bindings, once.inputs.holding, before.actions.holding);
    assert(twice.fixed.pressed =~= once.fixed.pressed);
    assert(twice.fixed.released =~= once.fixed.released);
}

/// The resolver leaves a coherent frame record: what is pressed is held,
/// and what is released is not.
pub proof fn lemma_frame_record_is_coherent(
    bindings: Map<Action, Seq<Input>>,
    holding: Set<Input>,
    previous: Set<Action>,
)
    ensures
        resolve_frame(bindings, holding, previous).coherent(),
{
}

/// Over a run of frames between two fixed ticks, the fixed-tick record
/// reports an action as pressed exactly if it had it so at the start or
/// some frame of the run pressed it, the same for released, and it holds
/// what the last frame holds.
pub proof fn lemma_fixed_record_gathers_transitions(
    bindings: Map<Action, Seq<Input>>,
    start: SessionView,
    queues: Seq<Seq<InputEvent>>,
    action: Action,
)
    ensures
        frames(bindings, start, queues).fixed.pressed.contains(action)
            <==> start.fixed.pressed.contains(action) || pressed_in_some_frame(
            bindings,
            start,
            queues,
            action,
        ),
        frames(bindings, start, queues).fixed.released.contains(action)
            <==> start.fixed.released.contains(action) || released_in_some_frame(
            bindings,
            start,
            queues,
            action,
        ),
        queues.len() > 0 ==> frames(bindings, start, queues).fixed.holding == frames(
            bindings,
            start,
            queues,
        ).actions.holding,
    decreases queues.len(),
{
    if queues.len() > 0 {
        let rest = queues.drop_last();
        let last = queues.len() as int;
        lemma_fixed_record_gathers_transitions(bindings, start, rest, action);
        assert(queues.take(last) =~= queues);
        assert forall|count: int| 0 < count <= rest.len() implies #[trigger] after_frames(
            bindings,
            start,
            rest,
            count,
        ) == after_frames(bindings, start, queues, count) by {
            assert(rest.take(count) =~= queues.take(count));
        }
        let before = frames(bindings, start, rest);
        let after = frames(bindings, start, queues);
        assert(after == after_frames(bindings, start, queues, last));
        assert(after.fixed.pressed == before.fixed.pressed.union(after.actions.pressed));
        assert(after.fixed.released == before.fixed.released.union(after.actions.released));
        if pressed_in_some_frame(bindings, start, rest, action) {
            let count = choose|count: int|
                0 < count <= rest.len() && (#[trigger] after_frames(
                    bindings,
                    start,
                    rest,
                    count,
                )).actions.pressed.contains(action);
            assert(after_frames(bindings, start, queues, count).actions.pressed.contains(action));
        }
        if released_in_some_frame(bindings, start, rest, action) {
            let count = choose|count: int|
                0 < count <= rest.len() && (#[trigger] after_frames(
                    bindings,
                    start,
                    rest,
                    count,
                )).actions.released.contains(action);
            assert(after_frames(bindings, start, queues, count).actions.released.contains(action));
        }
        if pressed_in_some_frame(bindings, start, queues, action) {
            let count = choose|count: int|
                0 < count <= queues.len() && (#[trigger] after_frames(
                    bindings,
                    start,
                    queues,
                    count,
                )).actions.pressed.contains(action);
            if count < last {
                assert(after_frames(bindings, start, rest, count).actions.pressed.contains(
                    action,
                ));
            }
        }
        if released_in_some_frame(bindings, start, queues, action) {
            let count = choose|count: int|
                0 < count <= queues.len() && (#[trigger] after_frames(
                    bindings,
                    start,
                    queues,
                    count,
                )).actions.released.contains(action);
            if count < last {
                assert(after_frames(bindings, start, rest, count).actions.released.contains(
                    action,
                ));
            }
        }
    }
}

/// Between two fixed ticks, the second tick finds an action reported as
/// pressed exactly if some frame in between pressed it, as released exactly
/// if some frame in between released it, and as held exactly if the last
/// frame holds it.
pub proof fn lemma_fixed_record_between_ticks(
    bindings: Map<Action, Seq<Input>>,
    before: SessionView,
    queues: Seq<Seq<InputEvent>>,
    action: Action,
)
    ensures
        ({
            let start = end_fixed_tick(before);
            let after = frames(bindings, start, queues);
            &&& after.fixed.pressed.contains(action) <==> pressed_in_some_frame(
                bindings,
                start,
                queues,
                action,
            )
            &&& after.fixed.released.contains(action) <==> released_in_some_frame(
                bindings,
                start,
                queues,
                action,
            )
            &&& queues.len() > 0 ==> after.fixed.holding == after.actions.holding
        }),
{
    lemma_fixed_record_gathers_transitions(bindings, end_fixed_tick(before), queues, action);
}

} // verus!
