//! The binding table: which raw input symbols, held together, mean which
//! action.

use vstd::prelude::*;
use crate::store::BindingMap;
use crate::symbols::{Action, Input};

verus! {

/// Why a binding was turned down.
#[derive(Clone, Copy, Debug, PartialEq, Eq, Structural)]
pub enum BindingError {
    /// The binding names no symbol, so nothing could ever trigger it.
    NoSymbols,
}

/// The table from each bound action to the symbols that must all be held
/// for it. An action without an entry is unbound.
pub struct KeyBindings {
    table: BindingMap,
}

impl View for KeyBindings {
    type V = Map<Action, Seq<Input>>;

    closed spec fn view(&self) -> Map<Action, Seq<Input>> {
        Map::new(
            |action: Action| self.table@.contains_key(action.spec_index()),
            |action: Action| self.table@[action.spec_index()],
        )
    }
}

/// The table that a list of entries describes: later entries replace earlier
/// ones for the same action, and entries without symbols are left out.
pub open spec fn table_of(entries: Seq<(Action, Seq<Input>)>) -> Map<Action, Seq<Input>>
    decreases entries.len(),
{
    if entries.len() == 0 {
        Map::empty()
    } else {
        let rest = table_of(entries.drop_last());
        let entry = entries.last();
        if entry.1.len() > 0 {
            rest.insert(entry.0, entry.1)
        } else {
            rest
        }
    }
}

/// An entry list as plain sequences.
pub open spec fn entries_view(entries: Seq<(Action, Vec<Input>)>) -> Seq<(Action, Seq<Input>)> {
    entries.map_values(|entry: (Action, Vec<Input>)| (entry.0, entry.1@))
}

/// A copy of a symbol list.
pub fn copy_symbols(symbols: &Vec<Input>) -> (copy: Vec<Input>)
    ensures
        copy@ == symbols@,
{
    let mut copy: Vec<Input> = Vec::new();
    let mut i: usize = 0;
    while i < symbols.len()
        invariant
            i <= symbols.len(),
            copy@ == symbols@.take(i as int),
        decreases symbols.len() - i,
    {
        copy.push(symbols[i]);
        assert(copy@ =~= symbols@.take(i + 1));
        i = i + 1;
    }
    assert(symbols@.take(symbols@.len() as int) =~= symbols@);
    copy
}

impl KeyBindings {
    /// Every entry of the table names at least one symbol.
    pub open spec fn wf(&self) -> bool {
        forall|action: Action| #[trigger]
            self@.contains_key(action) ==> self@[action].len() > 0
    }

    /// A table in which no action is bound.
    pub fn new() -> (bindings: KeyBindings)
        ensures
            bindings@ == Map::<Action, Seq<Input>>::empty(),
            bindings.wf(),
    {
        let bindings = KeyBindings { table: BindingMap::new() };
        assert(bindings@ =~= Map::<Action, Seq<Input>>::empty());
        bindings
    }

    /// Binds an action to a combination of symbols, in place of any earlier
    /// binding of that action, which is handed back. A combination without
    /// symbols is refused and the table stays as it was.
    pub fn bind(&mut self, action: Action, symbols: Vec<Input>) -> (outcome: Result<
        Option<Vec<Input>>,
        BindingError,
    >)
        ensures
            symbols@.len() == 0 ==> outcome == Err::<Option<Vec<Input>>, BindingError>(
                BindingError::NoSymbols,
            ) && final(self)@ == old(self)@,
            symbols@.len() > 0 ==> outcome.is_ok() && final(self)@ == old(self)@.insert(
                action,
                symbols@,
            ),
            outcome matches Ok(previous) ==> previous.is_some() == old(self)@.contains_key(action),
            outcome matches Ok(Some(earlier)) ==> earlier@ == old(self)@[action],
            old(self).wf() ==> final(self).wf(),
    {
        if symbols.len() == 0 {
            return Err(BindingError::NoSymbols);
        }
        let ghost list = symbols@;
        let previous = self.table.insert(action.index(), symbols);
        proof {
            assert forall|other: Action| #[trigger]
                self@.dom().contains(other) == old(self)@.insert(action, list).dom().contains(
                    other,
                ) by {
                Action::lemma_index_injective(action, other);
            }
            assert forall|other: Action| #[trigger] self@.dom().contains(other) implies self@[other]
                == old(self)@.insert(action, list)[other] by {
                Action::lemma_index_injective(action, other);
            }
            assert(self@ =~= old(self)@.insert(action, list));
        }
        Ok(previous)
    }

    /// Takes the binding of an action out of the table and hands it back, if
    /// the action had one.
    pub fn unbind(&mut self, action: Action) -> (previous: Option<Vec<Input>>)
        ensures
            final(self)@ == old(self)@.remove(action),
            previous.is_some() == old(self)@.contains_key(action),
            previous matches Some(earlier) ==> earlier@ == old(self)@[action],
            old(self).wf() ==> final(self).wf(),
    {
        let previous = self.table.remove(action.index());
        proof {
            assert forall|other: Action| #[trigger]
                self@.dom().contains(other) == old(self)@.remove(action).dom().contains(
                    other,
                ) by {
                Action::lemma_index_injective(action, other);
            }
            assert forall|other: Action| #[trigger] self@.dom().contains(other) implies self@[other]
                == old(self)@.remove(action)[other] by {
                Action::lemma_index_injective(action, other);
            }
            assert(self@ =~= old(self)@.remove(action));
        }
        previous
    }

    /// The combination that an action is bound to, if it is bound.
    pub fn get(&self, action: Action) -> (found: Option<&Vec<Input>>)
        ensures
            found.is_some() == self@.contains_key(action),
            found matches Some(symbols) ==> symbols@ == self@[action],
    {
        self.table.get(action.index())
    }

    /// The table that a list of entries describes, read front to back.
    pub fn from_entries(entries: &Vec<(Action, Vec<Input>)>) -> (bindings: KeyBindings)
        ensures
            bindings@ == table_of(entries_view(entries@)),
            bindings.wf(),
    {
        let mut bindings = KeyBindings::new();
        let ghost all = entries_view(entries@);
        let mut i: usize = 0;
        while i < entries.len()
            invariant
                i <= entries.len(),
                all == entries_view(entries@),
                bindings@ == table_of(all.take(i as int)),
                bindings.wf(),
            decreases entries.len() - i,
        {
            let symbols = copy_symbols(&entries[i].1);
            let _ = bindings.bind(entries[i].0, symbols);
            proof {
                let next = all.take(i + 1);
                assert(next.drop_last() =~= all.take(i as int));
                assert(next.last() == (entries@[i as int].0, entries@[i as int].1@));
            }
            i = i + 1;
        }
        assert(all.take(all.len() as int) =~= all);
        bindings
    }
}

} // verus!
