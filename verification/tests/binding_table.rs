use input_actions::bindings::{copy_symbols, BindingError, KeyBindings};
use input_actions::symbols::{Action, Input};

#[test]
fn new_table_binds_nothing() {
    let bindings = KeyBindings::new();
    assert_eq!(bindings.get(Action::MoveForward), None);
    assert_eq!(bindings.get(Action::Jump), None);
}

#[test]
fn bind_stores_the_combination() {
    let mut bindings = KeyBindings::new();
    let combination = vec![Input::Keyboard(17), Input::Mouse(1)];
    assert_eq!(bindings.bind(Action::Jump, combination.clone()), Ok(None));
    assert_eq!(bindings.get(Action::Jump), Some(&combination));
    assert_eq!(bindings.get(Action::MoveLeft), None);
}

#[test]
fn bind_replaces_an_earlier_binding() {
    let mut bindings = KeyBindings::new();
    assert_eq!(bindings.bind(Action::Jump, vec![Input::Keyboard(1)]), Ok(None));
    assert_eq!(
        bindings.bind(Action::Jump, vec![Input::Keyboard(2), Input::Keyboard(3)]),
        Ok(Some(vec![Input::Keyboard(1)]))
    );
    assert_eq!(bindings.get(Action::Jump), Some(&vec![Input::Keyboard(2), Input::Keyboard(3)]));
}

#[test]
fn bind_refuses_an_empty_combination() {
    let mut bindings = KeyBindings::new();
    assert_eq!(bindings.bind(Action::Jump, vec![Input::Keyboard(1)]), Ok(None));
    assert_eq!(bindings.bind(Action::Jump, vec![]), Err(BindingError::NoSymbols));
    assert_eq!(bindings.bind(Action::MoveLeft, vec![]), Err(BindingError::NoSymbols));
    assert_eq!(bindings.get(Action::Jump), Some(&vec![Input::Keyboard(1)]));
    assert_eq!(bindings.get(Action::MoveLeft), None);
}

#[test]
fn unbind_removes_the_binding() {
    let mut bindings = KeyBindings::new();
    assert_eq!(bindings.bind(Action::MoveRight, vec![Input::Keyboard(32)]), Ok(None));
    assert_eq!(bindings.bind(Action::MoveLeft, vec![Input::Keyboard(30)]), Ok(None));
    assert_eq!(bindings.unbind(Action::MoveRight), Some(vec![Input::Keyboard(32)]));
    assert_eq!(bindings.unbind(Action::MoveRight), None);
    assert_eq!(bindings.unbind(Action::Jump), None);
    assert_eq!(bindings.get(Action::MoveRight), None);
    assert_eq!(bindings.get(Action::MoveLeft), Some(&vec![Input::Keyboard(30)]));
}

#[test]
fn from_entries_reads_front_to_back_and_skips_empty_combinations() {
    let bindings = KeyBindings::from_entries(&vec![
        (Action::MoveForward, vec![Input::Keyboard(17)]),
        (Action::Jump, vec![]),
        (Action::MoveLeft, vec![Input::Keyboard(30)]),
        (Action::MoveForward, vec![Input::Keyboard(200), Input::Keyboard(42)]),
        (Action::MoveLeft, vec![]),
    ]);
    assert_eq!(
        bindings.get(Action::MoveForward),
        Some(&vec![Input::Keyboard(200), Input::Keyboard(42)])
    );
    assert_eq!(bindings.get(Action::MoveLeft), Some(&vec![Input::Keyboard(30)]));
    assert_eq!(bindings.get(Action::Jump), None);
    assert_eq!(bindings.get(Action::MoveBackward), None);
    assert_eq!(bindings.get(Action::MoveRight), None);
}

#[test]
fn from_no_entries_binds_nothing() {
    let bindings = KeyBindings::from_entries(&vec![]);
    assert_eq!(bindings.get(Action::MoveForward), None);
}

#[test]
fn copy_symbols_keeps_order_and_repeats() {
    let symbols = vec![Input::Mouse(2), Input::Keyboard(1), Input::Mouse(2)];
    assert_eq!(copy_symbols(&symbols), symbols);
    assert_eq!(copy_symbols(&vec![]), vec![]);
}
