//! The action resolver: from the symbols held and the binding table to the
//! actions held, pressed and released, for the frame and for the fixed tick.

use vstd::prelude::*;
use crate::bindings::KeyBindings;
use crate::input::Inputs;
use crate::sets::{ActionSet, InputSet, StateView};
use crate::symbols::{Action, Input, ACTION_COUNT};

verus! {

/// The actions of the current frame. `pressed` and `released` are the
/// transitions of this frame alone.
pub struct Actions {
    pub pressed: ActionSet,
    pub released: ActionSet,
    pub holding: ActionSet,
}

/// The actions as the fixed-rate step sees them. `pressed` and `released`
/// gather every transition since the step last ran; `holding` is that of
/// the latest frame.
pub struct FixedActions {
    pub pressed: ActionSet,
    pub released: ActionSet,
    pub holding: ActionSet,
}

impl View for Actions {
    type V = StateView<Action>;

    open spec fn view(&self) -> StateView<Action> {
        StateView { pressed: self.pressed@, released: self.released@, holding: self.holding@ }
    }
}

impl View for FixedActions {
    type V = StateView<Action>;

    open spec fn view(&self) -> StateView<Action> {
        StateView { pressed: self.pressed@, released: self.released@, holding: self.holding@ }
    }
}

/// Every symbol of the combination is held.
pub open spec fn every_symbol_held(symbols: Seq<Input>, holding: Set<Input>) -> bool {
    forall|input: Input| symbols.contains(input) ==> holding.contains(input)
}

/// The two combinations have a symbol in common.
pub open spec fn shares_symbol(first: Seq<Input>, second: Seq<Input>) -> bool {
    exists|input: Input| first.contains(input) && second.contains(input)
}

/// The action is bound to at least one symbol and all its symbols are held.
pub open spec fn is_candidate(
    bindings: Map<Action, Seq<Input>>,
    holding: Set<Input>,
    action: Action,
) -> bool {
    &&& bindings.contains_key(action)
    &&& bindings[action].len() > 0
    &&& every_symbol_held(bindings[action], holding)
}

/// All candidates: the actions whose whole combination is held.
pub open spec fn candidates(bindings: Map<Action, Seq<Input>>, holding: Set<Input>) -> Set<
    Action,
> {
    Set::new(|action: Action| is_candidate(bindings, holding, action))
}

/// The combination of `winner` is longer than that of `loser` and has a
/// symbol in common with it. Only the length counts: no symbol ranks above
/// another, modifier keys included. Combinations of equal length never
/// override each other: such actions are held side by side.
pub open spec fn overrides(
    bindings: Map<Action, Seq<Input>>,
    winner: Action,
    loser: Action,
) -> bool {
    &&& bindings.contains_key(winner)
    &&& bindings.contains_key(loser)
    &&& bindings[loser].len() < bindings[winner].len()
    &&& shares_symbol(bindings[loser], bindings[winner])
}

/// Some action of `among` overrides the action.
pub open spec fn is_suppressed(
    bindings: Map<Action, Seq<Input>>,
    among: Set<Action>,
    action: Action,
) -> bool {
    exists|winner: Action| among.contains(winner) && #[trigger] overrides(bindings, winner, action)
}

/// The actions held: the candidates that no other candidate overrides.
pub open spec fn resolved_holding(bindings: Map<Action, Seq<Input>>, holding: Set<Input>) -> Set<
    Action,
> {
    Set::new(
        |action: Action|
            candidates(bindings, holding).contains(action) && !is_suppressed(
                bindings,
                candidates(bindings, holding),
                action,
            ),
    )
}

/// The frame's record: what is held now, what is held now and was not
/// before, and what was held before and is not now.
pub open spec fn resolve_frame(
    bindings: Map<Action, Seq<Input>>,
    holding: Set<Input>,
    previous: Set<Action>,
) -> StateView<Action> {
    let now = resolved_holding(bindings, holding);
    StateView {
        pressed: now.difference(previous),
        released: previous.difference(now),
        holding: now,
    }
}

/// The fixed-tick record after one more frame: transitions add up, the
/// holding set is replaced.
pub open spec fn accumulate(fixed: StateView<Action>, frame: StateView<Action>) -> StateView<
    Action,
> {
    StateView {
        pressed: fixed.pressed.union(frame.pressed),
        released: fixed.released.union(frame.released),
        holding: frame.holding,
    }
}

impl Actions {
    /// A record in which no action is pressed, released or held.
    pub fn new() -> (actions: Actions)
        ensures
            actions@ == StateView::<Action>::nothing(),
    {
        Actions { pressed: ActionSet::new(), released: ActionSet::new(), holding: ActionSet::new() }
    }
}

impl FixedActions {
    /// A record in which no action is pressed, released or held.
    pub fn new() -> (actions: FixedActions)
        ensures
            actions@ == StateView::<Action>::nothing(),
    {
        FixedActions {
            pressed: ActionSet::new(),
            released: ActionSet::new(),
            holding: ActionSet::new(),
        }
    }
}

/// Whether every symbol of the combination is in the holding set.
pub fn all_held(symbols: &Vec<Input>, holding: &InputSet) -> (held: bool)
    ensures
        held == every_symbol_held(symbols@, holding@),
{
    let mut i: usize = 0;
    while i < symbols.len()
        invariant
            i <= symbols.len(),
            forall|k: int| 0 <= k < i ==> holding@.contains(#[trigger] symbols@[k]),
        decreases symbols.len() - i,
    {
        if !holding.contains(symbols[i]) {
            assert(symbols@.contains(symbols@[i as int]));
            return false;
        }
        i = i + 1;
    }
    true
}

/// Whether the symbol occurs in the combination.
pub fn has_symbol(symbols: &Vec<Input>, input: Input) -> (found: bool)
    ensures
        found == symbols@.contains(input),
{
    let mut i: usize = 0;
    while i < symbols.len()
        invariant
            i <= symbols.len(),
            forall|k: int| 0 <= k < i ==> #[trigger] symbols@[k] != input,
        decreases symbols.len() - i,
    {
        if symbols[i] == input {
            return true;
        }
        i = i + 1;
    }
    false
}

/// Whether the two combinations have a symbol in common.
pub fn share_symbol(first: &Vec<Input>, second: &Vec<Input>) -> (shared: bool)
    ensures
        shared == shares_symbol(first@, second@),
{
    let mut i: usize = 0;
    while i < first.len()
        invariant
            i <= first.len(),
            forall|k: int| 0 <= k < i ==> !second@.contains(#[trigger] first@[k]),
        decreases first.len() - i,
    {
        if has_symbol(second, first[i]) {
            assert(first@.contains(first@[i as int]));
            return true;
        }
        i = i + 1;
    }
    false
}

/// Whether the action is a candidate under the holding set.
pub fn is_candidate_action(
    key_bindings: &KeyBindings,
    holding: &InputSet,
    action: Action,
) -> (yes: bool)
    ensures
        yes == is_candidate(key_bindings@, holding@, action),
{
    match key_bindings.get(action) {
        Some(symbols) => symbols.len() > 0 && all_held(symbols, holding),
        None => false,
    }
}

/// Whether `winner` overrides `loser`.
pub fn overrides_action(key_bindings: &KeyBindings, winner: Action, loser: Action) -> (yes: bool)
    ensures
        yes == overrides(key_bindings@, winner, loser),
{
    match key_bindings.get(winner) {
        Some(longer) => match key_bindings.get(loser) {
            Some(shorter) => shorter.len() < longer.len() && share_symbol(shorter, longer),
            None => false,
        },
        None => false,
    }
}

/// Whether some action of `among` overrides the action.
pub fn is_suppressed_action(
    key_bindings: &KeyBindings,
    among: &ActionSet,
    action: Action,
) -> (yes: bool)
    ensures
        yes == is_suppressed(key_bindings@, among@, action),
{
    let mut found = false;
    let mut index: u64 = 0;
    while index < ACTION_COUNT
        invariant
            index <= ACTION_COUNT,
            found ==> is_suppressed(key_bindings@, among@, action),
            !found ==> forall|winner: Action|
                winner.spec_index() < index && among@.contains(winner) ==> !#[trigger] overrides(
                    key_bindings@,
                    winner,
                    action,
                ),
        decreases ACTION_COUNT - index,
    {
        if let Some(winner) = Action::from_index(index) {
            if among.contains(winner) && overrides_action(key_bindings, winner, action) {
                found = true;
            }
            assert forall|other: Action|
                !found && other.spec_index() < index + 1 && among@.contains(
                    other,
                ) implies !#[trigger] overrides(key_bindings@, other, action) by {
                Action::lemma_index_injective(winner, other);
            }
        }
        index = index + 1;
    }
    proof {
        if !found {
            assert forall|winner: Action| among@.contains(winner) implies !#[trigger] overrides(
                key_bindings@,
                winner,
                action,
            ) by {
                winner.lemma_index_bound();
            }
        }
    }
    found
}

/// The actions held under the holding set: every action whose whole
/// combination is held, except those that a longer held combination with a
/// common symbol overrides. Held combinations of equal length do not
/// override each other, whatever they have in common.
pub fn resolve_holding(key_bindings: &KeyBindings, holding: &InputSet) -> (resolved: ActionSet)
    ensures
        resolved@ == resolved_holding(key_bindings@, holding@),
{
    let mut found = ActionSet::new();
    let mut index: u64 = 0;
    while index < ACTION_COUNT
        invariant
            index <= ACTION_COUNT,
            forall|action: Action|
                #![trigger found@.contains(action)]
                found@.contains(action) <==> action.spec_index() < index && is_candidate(
                    key_bindings@,
                    holding@,
                    action,
                ),
        decreases ACTION_COUNT - index,
    {
        let ghost before = found@;
        if let Some(action) = Action::from_index(index) {
            if is_candidate_action(key_bindings, holding, action) {
                found.insert(action);
            }
            assert forall|other: Action|
                #![trigger found@.contains(other)]
                found@.contains(other) <==> other.spec_index() < index + 1 && is_candidate(
                    key_bindings@,
                    holding@,
                    other,
                ) by {
                Action::lemma_index_injective(action, other);
                assert(before.contains(other) <==> other.spec_index() < index && is_candidate(
                    key_bindings@,
                    holding@,
                    other,
                ));
            }
        }
        index = index + 1;
    }
    proof {
        assert forall|action: Action|
            found@.contains(action) == candidates(key_bindings@, holding@).contains(action) by {
            action.lemma_index_bound();
        }
        assert(found@ =~= candidates(key_bindings@, holding@));
    }
    let mut resolved = ActionSet::new();
    let mut index: u64 = 0;
    while index < ACTION_COUNT
        invariant
            index <= ACTION_COUNT,
            found@ == candidates(key_bindings@, holding@),
            forall|action: Action|
                #![trigger resolved@.contains(action)]
                resolved@.contains(action) <==> action.spec_index() < index
                    && resolved_holding(key_bindings@, holding@).contains(action),
        decreases ACTION_COUNT - index,
    {
        let ghost before = resolved@;
        if let Some(action) = Action::from_index(index) {
            if found.contains(action) && !is_suppressed_action(key_bindings, &found, action) {
                resolved.insert(action);
            }
            assert forall|other: Action|
                #![trigger resolved@.contains(other)]
                resolved@.contains(other) <==> other.spec_index() < index + 1
                    && resolved_holding(key_bindings@, holding@).contains(other) by {
                Action::lemma_index_injective(action, other);
                assert(before.contains(other) <==> other.spec_index() < index
                    && resolved_holding(key_bindings@, holding@).contains(other));
            }
        }
        index = index + 1;
    }
    proof {
        assert forall|action: Action|
            resolved@.contains(action) == resolved_holding(key_bindings@, holding@).contains(
                action,
            ) by {
            action.lemma_index_bound();
        }
        assert(resolved@ =~= resolved_holding(key_bindings@, holding@));
    }
    resolved
}

/// Resolves the frame's actions from the symbols held.
///
/// The frame record is replaced: `holding` by the actions now held,
/// `pressed` and `released` by the difference to what was held in the frame
/// before. The fixed-tick record takes over `holding` and adds the frame's
/// transitions to those it has gathered.
pub fn convert_inputs_to_actions(
    inputs: &Inputs,
    actions: &mut Actions,
    fixed_actions: &mut FixedActions,
    key_bindings: &KeyBindings,
)
    ensures
        final(actions)@ == resolve_frame(key_bindings@, inputs@.holding, old(actions)@.holding),
        final(fixed_actions)@ == accumulate(old(fixed_actions)@, final(actions)@),
        final(actions)@.coherent(),
{
    let holding = resolve_holding(key_bindings, &inputs.holding);
    let released = ActionSet::difference(&actions.holding, &holding);
    let pressed = ActionSet::difference(&holding, &actions.holding);
    actions.holding.copy_from(&holding);
    actions.pressed.copy_from(&pressed);
    actions.released.copy_from(&released);
    fixed_actions.holding.copy_from(&holding);
    fixed_actions.pressed.extend_from(&pressed);
    fixed_actions.released.extend_from(&released);
}

/// Ends the frame: forgets the frame's transitions, keeps what is held.
pub fn cleanup_actions(actions: &mut Actions)
    ensures
        final(actions)@ == old(actions)@.without_transitions(),
        final(actions)@.coherent(),
{
    actions.pressed.clear();
    actions.released.clear();
}

/// Ends the fixed tick: forgets the gathered transitions, keeps what is
/// held.
pub fn clear_fixed_actions(fixed_actions: &mut FixedActions)
    ensures
        final(fixed_actions)@ == old(fixed_actions)@.without_transitions(),
{
    fixed_actions.pressed.clear();
    fixed_actions.released.clear();
}

} // verus!
