//! Sets of raw input symbols and sets of actions.

use vstd::prelude::*;
use crate::store::CodeSet;
use crate::symbols::{Action, Input, ACTION_COUNT};

verus! {

/// The mathematical content of a press/release/hold record: what went down
/// since the record was last cleaned, what came up, and what is down now.
#[verifier::reject_recursive_types(T)]
pub struct StateView<T> {
    pub pressed: Set<T>,
    pub released: Set<T>,
    pub holding: Set<T>,
}

impl<T> StateView<T> {
    /// Everything newly pressed is still down, and nothing newly released is.
    pub open spec fn coherent(self) -> bool {
        &&& self.pressed.subset_of(self.holding)
        &&& self.released.disjoint(self.holding)
    }

    /// The record in which nothing is pressed, released or held.
    pub open spec fn nothing() -> StateView<T> {
        StateView { pressed: Set::empty(), released: Set::empty(), holding: Set::empty() }
    }

    /// The same record with both transition sets emptied.
    pub open spec fn without_transitions(self) -> StateView<T> {
        StateView { pressed: Set::empty(), released: Set::empty(), holding: self.holding }
    }
}

/// A set of raw input symbols.
pub struct InputSet {
    keys: CodeSet,
    buttons: CodeSet,
}

impl View for InputSet {
    type V = Set<Input>;

    closed spec fn view(&self) -> Set<Input> {
        Set::new(
            |input: Input|
                match input {
                    Input::Keyboard(code) => self.keys@.contains(code),
                    Input::Mouse(code) => self.buttons@.contains(code),
                },
        )
    }
}

impl InputSet {
    /// A set with no symbol in it.
    pub fn new() -> (set: InputSet)
        ensures
            set@ == Set::<Input>::empty(),
    {
        let set = InputSet { keys: CodeSet::new(), buttons: CodeSet::new() };
        assert(set@ =~= Set::<Input>::empty());
        set
    }

    /// Adds a symbol; tells whether it was absent before.
    pub fn insert(&mut self, input: Input) -> (fresh: bool)
        ensures
            final(self)@ == old(self)@.insert(input),
            fresh == !old(self)@.contains(input),
    {
        let fresh = match input {
            Input::Keyboard(code) => self.keys.insert(code),
            Input::Mouse(code) => self.buttons.insert(code),
        };
        assert(self@ =~= old(self)@.insert(input));
        fresh
    }

    /// Takes a symbol out; tells whether it was present before.
    pub fn remove(&mut self, input: Input) -> (present: bool)
        ensures
            final(self)@ == old(self)@.remove(input),
            present == old(self)@.contains(input),
    {
        let present = match input {
            Input::Keyboard(code) => self.keys.remove(code),
            Input::Mouse(code) => self.buttons.remove(code),
        };
        assert(self@ =~= old(self)@.remove(input));
        present
    }

    /// Whether the symbol is in the set.
    pub fn contains(&self, input: Input) -> (present: bool)
        ensures
            present == self@.contains(input),
    {
        match input {
            Input::Keyboard(code) => self.keys.contains(code),
            Input::Mouse(code) => self.buttons.contains(code),
        }
    }

    /// Empties the set.
    pub fn clear(&mut self)
        ensures
            final(self)@ == Set::<Input>::empty(),
    {
        self.keys.clear();
        self.buttons.clear();
        assert(self@ =~= Set::<Input>::empty());
    }

    /// Whether the set holds no symbol at all.
    pub fn is_empty(&self) -> (empty: bool)
        ensures
            empty == (self@ == Set::<Input>::empty()),
    {
        let empty = self.keys.is_empty() && self.buttons.is_empty();
        proof {
            if empty {
                assert(self@ =~= Set::<Input>::empty());
            } else if !(self.keys@ =~= Set::<u64>::empty()) {
                let code = choose|code: u64| self.keys@.contains(code);
                assert(self@.contains(Input::Keyboard(code)));
            } else {
                let code = choose|code: u64| self.buttons@.contains(code);
                assert(self@.contains(Input::Mouse(code)));
            }
        }
        empty
    }
}

/// A set of actions.
pub struct ActionSet {
    codes: CodeSet,
}

impl View for ActionSet {
    type V = Set<Action>;

    closed spec fn view(&self) -> Set<Action> {
        Set::new(|action: Action| self.codes@.contains(action.spec_index()))
    }
}

impl ActionSet {
    /// A set with no action in it.
    pub fn new() -> (set: ActionSet)
        ensures
            set@ == Set::<Action>::empty(),
    {
        let set = ActionSet { codes: CodeSet::new() };
        assert(set@ =~= Set::<Action>::empty());
        set
    }

    /// Adds an action; tells whether it was absent before.
    pub fn insert(&mut self, action: Action) -> (fresh: bool)
        ensures
            final(self)@ == old(self)@.insert(action),
            fresh == !old(self)@.contains(action),
    {
        let fresh = self.codes.insert(action.index());
        assert forall|other: Action| #[trigger]
            self@.contains(other) == old(self)@.insert(action).contains(other) by {
            Action::lemma_index_injective(action, other);
        }
        assert(self@ =~= old(self)@.insert(action));
        fresh
    }

    /// Takes an action out; tells whether it was present before.
    pub fn remove(&mut self, action: Action) -> (present: bool)
        ensures
            final(self)@ == old(self)@.remove(action),
            present == old(self)@.contains(action),
    {
        let present = self.codes.remove(action.index());
        assert forall|other: Action| #[trigger]
            self@.contains(other) == old(self)@.remove(action).contains(other) by {
            Action::lemma_index_injective(action, other);
        }
        assert(self@ =~= old(self)@.remove(action));
        present
    }

    /// Whether the action is in the set.
    pub fn contains(&self, action: Action) -> (present: bool)
        ensures
            present == self@.contains(action),
    {
        self.codes.contains(action.index())
    }

    /// Empties the set.
    pub fn clear(&mut self)
        ensures
            final(self)@ == Set::<Action>::empty(),
    {
        self.codes.clear();
        assert(self@ =~= Set::<Action>::empty());
    }

    /// Makes the set hold exactly what `source` holds.
    pub fn copy_from(&mut self, source: &ActionSet)
        ensures
            final(self)@ == source@,
    {
        self.codes.copy_from(&source.codes);
        assert(self@ =~= source@);
    }

    /// The actions of the set in declaration order, each once.
    pub fn to_vec(&self) -> (list: Vec<Action>)
        ensures
            forall|action: Action|
                #![trigger list@.contains(action)]
                #![trigger self@.contains(action)]
                list@.contains(action) <==> self@.contains(action),
            forall|i: int, j: int|
                #![trigger list[i], list[j]]
                0 <= i < j < list.len() ==> list[i].spec_index() < list[j].spec_index(),
    {
        let mut list: Vec<Action> = Vec::new();
        let mut index: u64 = 0;
        while index < ACTION_COUNT
            invariant
                index <= ACTION_COUNT,
                forall|action: Action|
                    #![trigger list@.contains(action)]
                    #![trigger self@.contains(action)]
                    list@.contains(action) <==> self@.contains(action) && action.spec_index()
                        < index,
                forall|i: int| 0 <= i < list.len() ==> (#[trigger] list[i]).spec_index() < index,
                forall|i: int, j: int|
                    #![trigger list[i], list[j]]
                    0 <= i < j < list.len() ==> list[i].spec_index() < list[j].spec_index(),
            decreases ACTION_COUNT - index,
        {
            let ghost before = list@;
            if let Some(action) = Action::from_index(index) {
                if self.contains(action) {
                    list.push(action);
                    assert(list@ == before.push(action));
                    assert(list@[before.len() as int] == action);
                    assert forall|other: Action|
                        #![trigger list@.contains(other)]
                        #![trigger self@.contains(other)]
                        list@.contains(other) <==> self@.contains(other) && other.spec_index()
                            < index + 1 by {
                        Action::lemma_index_injective(action, other);
                        if before.contains(other) {
                            let i = choose|i: int| 0 <= i < before.len() && before[i] == other;
                            assert(list@[i] == other);
                        }
                        if list@.contains(other) {
                            let i = choose|i: int| 0 <= i < list@.len() && list@[i] == other;
                            if i < before.len() {
                                assert(before[i] == other);
                            }
                        }
                    }
                } else {
                    assert forall|other: Action|
                        #![trigger list@.contains(other)]
                        #![trigger self@.contains(other)]
                        list@.contains(other) <==> self@.contains(other) && other.spec_index()
                            < index + 1 by {
                        Action::lemma_index_injective(action, other);
                    }
                }
            }
            index = index + 1;
        }
        list
    }

    /// Whether the set holds no action at all.
    pub fn is_empty(&self) -> (empty: bool)
        ensures
            empty == (self@ == Set::<Action>::empty()),
    {
        let list = self.to_vec();
        let empty = list.len() == 0;
        proof {
            if empty {
                assert forall|action: Action| !self@.contains(action) by {
                    assert(!list@.contains(action));
                }
                assert(self@ =~= Set::<Action>::empty());
            } else {
                assert(list@.contains(list@[0]));
                assert(self@.contains(list@[0]));
            }
        }
        empty
    }

    /// Adds every action of `other`.
    pub fn extend_from(&mut self, other: &ActionSet)
        ensures
            final(self)@ == old(self)@.union(other@),
    {
        let ghost start = self@;
        let mut index: u64 = 0;
        while index < ACTION_COUNT
            invariant
                index <= ACTION_COUNT,
                forall|action: Action|
                    #![trigger self@.contains(action)]
                    self@.contains(action) <==> start.contains(action) || (other@.contains(action)
                        && action.spec_index() < index),
            decreases ACTION_COUNT - index,
        {
            let ghost before = self@;
            if let Some(action) = Action::from_index(index) {
                if other.contains(action) {
                    self.insert(action);
                }
                assert forall|a: Action|
                    #![trigger self@.contains(a)]
                    self@.contains(a) <==> start.contains(a) || (other@.contains(a)
                        && a.spec_index() < index + 1) by {
                    Action::lemma_index_injective(action, a);
                    assert(before.contains(a) <==> start.contains(a) || (other@.contains(a)
                        && a.spec_index() < index));
                }
            }
            index = index + 1;
        }
        assert forall|action: Action|
            self@.contains(action) == start.union(other@).contains(action) by {
            action.lemma_index_bound();
        }
        assert(self@ =~= start.union(other@));
    }

    /// The actions of `left` that are not in `right`.
    pub fn difference(left: &ActionSet, right: &ActionSet) -> (set: ActionSet)
        ensures
            set@ == left@.difference(right@),
    {
        let mut set = ActionSet::new();
        let mut index: u64 = 0;
        while index < ACTION_COUNT
            invariant
                index <= ACTION_COUNT,
                forall|action: Action|
                    #![trigger set@.contains(action)]
                    set@.contains(action) <==> left@.contains(action) && !right@.contains(action)
                        && action.spec_index() < index,
            decreases ACTION_COUNT - index,
        {
            if let Some(action) = Action::from_index(index) {
                if left.contains(action) && !right.contains(action) {
                    set.insert(action);
                }
                assert forall|a: Action|
                    #![trigger set@.contains(a)]
                    set@.contains(a) <==> left@.contains(a) && !right@.contains(a)
                        && a.spec_index() < index + 1 by {
                    Action::lemma_index_injective(action, a);
                }
            }
            index = index + 1;
        }
        assert forall|action: Action|
            set@.contains(action) == left@.difference(right@).contains(action) by {
            action.lemma_index_bound();
        }
        assert(set@ =~= left@.difference(right@));
        set
    }
}

} // verus!
