use input_actions::actions::{
    all_held, cleanup_actions, clear_fixed_actions, convert_inputs_to_actions, has_symbol, is_candidate_action,
    is_suppressed_action, overrides_action, resolve_holding, share_symbol,
};
use input_actions::bindings::KeyBindings;
use input_actions::input::{
    cleanup_inputs, detect_keyboard_focus_lost, read_input_events, Inputs,
};
use input_actions::session::Session;
use input_actions::sets::{ActionSet, InputSet};
use input_actions::symbols::{Action, ButtonState, Input, InputEvent};

const W: Input = Input::Keyboard(17);
const A: Input = Input::Keyboard(30);
const SHIFT: Input = Input::Keyboard(42);
const CONTROL: Input = Input::Keyboard(29);
const SPACE: Input = Input::Keyboard(57);
const LEFT_BUTTON: Input = Input::Mouse(0);

fn down(input: Input) -> InputEvent {
    InputEvent { input, state: ButtonState::Pressed }
}

fn up(input: Input) -> InputEvent {
    InputEvent { input, state: ButtonState::Released }
}

fn walk_and_jump() -> KeyBindings {
    KeyBindings::from_entries(&vec![(Action::MoveForward, vec![W]), (Action::Jump, vec![SPACE])])
}

fn plain_and_combined() -> KeyBindings {
    KeyBindings::from_entries(&vec![
        (Action::MoveForward, vec![W]),
        (Action::Jump, vec![W, SHIFT]),
    ])
}

fn held(symbols: &[Input]) -> InputSet {
    let mut set = InputSet::new();
    for symbol in symbols {
        set.insert(*symbol);
    }
    set
}

#[test]
fn walk_then_jump_over_three_frames() {
    let mut session = Session::new(walk_and_jump());

    session.begin_frame(&vec![down(W)]);
    assert_eq!(session.actions.pressed.to_vec(), vec![Action::MoveForward]);
    assert_eq!(session.actions.released.to_vec(), vec![]);
    assert_eq!(session.actions.holding.to_vec(), vec![Action::MoveForward]);
    session.end_frame(false);

    session.begin_frame(&vec![]);
    assert_eq!(session.actions.pressed.to_vec(), vec![]);
    assert_eq!(session.actions.released.to_vec(), vec![]);
    assert_eq!(session.actions.holding.to_vec(), vec![Action::MoveForward]);
    session.end_frame(false);

    session.begin_frame(&vec![up(W), down(SPACE)]);
    assert_eq!(session.actions.pressed.to_vec(), vec![Action::Jump]);
    assert_eq!(session.actions.released.to_vec(), vec![Action::MoveForward]);
    assert_eq!(session.actions.holding.to_vec(), vec![Action::Jump]);
}

#[test]
fn longer_combination_suppresses_the_shorter() {
    let bindings = plain_and_combined();
    let resolved = resolve_holding(&bindings, &held(&[W, SHIFT]));
    assert_eq!(resolved.to_vec(), vec![Action::Jump]);
    assert!(resolved.contains(Action::Jump));
    assert!(!resolved.contains(Action::MoveForward));
}

#[test]
fn shorter_combination_alone_is_held() {
    let bindings = plain_and_combined();
    assert_eq!(resolve_holding(&bindings, &held(&[W])).to_vec(), vec![Action::MoveForward]);
    assert_eq!(resolve_holding(&bindings, &held(&[SHIFT])).to_vec(), vec![]);
    assert_eq!(resolve_holding(&bindings, &held(&[])).to_vec(), vec![]);
}

#[test]
fn combinations_without_a_common_symbol_do_not_clash() {
    let bindings = KeyBindings::from_entries(&vec![
        (Action::MoveForward, vec![W]),
        (Action::Jump, vec![SHIFT, SPACE]),
    ]);
    let resolved = resolve_holding(&bindings, &held(&[W, SHIFT, SPACE]));
    assert_eq!(resolved.to_vec(), vec![Action::MoveForward, Action::Jump]);
}

#[test]
fn equal_length_combinations_are_held_side_by_side() {
    let bindings = KeyBindings::from_entries(&vec![
        (Action::MoveLeft, vec![W, SHIFT]),
        (Action::MoveRight, vec![W, CONTROL]),
    ]);
    let resolved = resolve_holding(&bindings, &held(&[W, SHIFT, CONTROL]));
    assert_eq!(resolved.to_vec(), vec![Action::MoveLeft, Action::MoveRight]);
}

#[test]
fn three_symbol_combination_suppresses_both_shorter_ones() {
    let bindings = KeyBindings::from_entries(&vec![
        (Action::MoveForward, vec![W]),
        (Action::MoveBackward, vec![W, SHIFT]),
        (Action::Jump, vec![W, SHIFT, CONTROL]),
    ]);
    assert_eq!(
        resolve_holding(&bindings, &held(&[W, SHIFT, CONTROL])).to_vec(),
        vec![Action::Jump]
    );
    assert_eq!(
        resolve_holding(&bindings, &held(&[W, SHIFT])).to_vec(),
        vec![Action::MoveBackward]
    );
}

#[test]
fn a_suppressed_candidate_still_suppresses() {
    let bindings = KeyBindings::from_entries(&vec![
        (Action::MoveForward, vec![A]),
        (Action::MoveBackward, vec![A, W]),
        (Action::Jump, vec![W, SHIFT, CONTROL]),
    ]);
    let resolved = resolve_holding(&bindings, &held(&[A, W, SHIFT, CONTROL]));
    assert_eq!(resolved.to_vec(), vec![Action::Jump]);
}

#[test]
fn mouse_buttons_and_keys_with_the_same_number_differ() {
    let bindings = KeyBindings::from_entries(&vec![(Action::Jump, vec![Input::Mouse(17)])]);
    assert_eq!(resolve_holding(&bindings, &held(&[W])).to_vec(), vec![]);
    assert_eq!(resolve_holding(&bindings, &held(&[Input::Mouse(17)])).to_vec(), vec![Action::Jump]);
}

#[test]
fn key_repeat_does_not_press_again() {
    let mut session = Session::new(walk_and_jump());
    session.begin_frame(&vec![down(W)]);
    assert_eq!(session.actions.pressed.to_vec(), vec![Action::MoveForward]);
    session.end_frame(false);
    for _ in 0..4 {
        session.begin_frame(&vec![down(W)]);
        assert!(session.inputs.holding.contains(W));
        assert_eq!(session.actions.pressed.to_vec(), vec![]);
        assert_eq!(session.actions.released.to_vec(), vec![]);
        assert_eq!(session.actions.holding.to_vec(), vec![Action::MoveForward]);
        session.end_frame(false);
    }
    session.begin_frame(&vec![up(W)]);
    assert_eq!(session.actions.released.to_vec(), vec![Action::MoveForward]);
    assert_eq!(session.actions.holding.to_vec(), vec![]);
    session.end_frame(false);
    session.begin_frame(&vec![up(W)]);
    assert_eq!(session.actions.released.to_vec(), vec![]);
    assert_eq!(session.actions.holding.to_vec(), vec![]);
}

#[test]
fn focus_loss_releases_every_held_action() {
    let mut session = Session::new(walk_and_jump());
    session.begin_frame(&vec![down(W), down(SPACE)]);
    assert_eq!(session.actions.holding.to_vec(), vec![Action::MoveForward, Action::Jump]);
    detect_keyboard_focus_lost(&mut session.inputs, true);
    assert!(session.inputs.holding.is_empty());
    assert!(session.inputs.pressed.is_empty());
    assert!(session.inputs.released.is_empty());
    session.end_frame(false);

    session.begin_frame(&vec![]);
    assert_eq!(session.actions.released.to_vec(), vec![Action::MoveForward, Action::Jump]);
    assert_eq!(session.actions.pressed.to_vec(), vec![]);
    assert_eq!(session.actions.holding.to_vec(), vec![]);
}

#[test]
fn kept_focus_changes_nothing() {
    let mut inputs = Inputs::new();
    read_input_events(&mut inputs, &vec![down(A)]);
    cleanup_inputs(&mut inputs);
    read_input_events(&mut inputs, &vec![down(W), up(A)]);
    detect_keyboard_focus_lost(&mut inputs, false);
    assert!(inputs.holding.contains(W));
    assert!(!inputs.holding.contains(A));
    assert!(inputs.pressed.contains(W));
    assert!(!inputs.pressed.contains(A));
    assert!(inputs.released.contains(A));
    assert!(!inputs.released.contains(W));
}

#[test]
fn fixed_record_gathers_press_and_release_between_ticks() {
    let mut session = Session::new(walk_and_jump());
    session.begin_frame(&vec![down(SPACE)]);
    session.end_frame(false);
    session.begin_frame(&vec![up(SPACE)]);
    session.end_frame(false);
    session.begin_frame(&vec![down(W)]);
    assert_eq!(session.actions.pressed.to_vec(), vec![Action::MoveForward]);
    assert_eq!(session.actions.released.to_vec(), vec![]);
    session.end_frame(false);

    assert_eq!(session.fixed_actions.pressed.to_vec(), vec![Action::MoveForward, Action::Jump]);
    assert_eq!(session.fixed_actions.released.to_vec(), vec![Action::Jump]);
    assert_eq!(session.fixed_actions.holding.to_vec(), vec![Action::MoveForward]);
}

#[test]
fn fixed_record_reports_no_transition_that_did_not_happen() {
    let mut session = Session::new(walk_and_jump());
    session.begin_frame(&vec![down(W)]);
    session.end_frame(false);
    clear_fixed_actions(&mut session.fixed_actions);
    for _ in 0..3 {
        session.begin_frame(&vec![]);
        session.end_frame(false);
    }
    assert_eq!(session.fixed_actions.pressed.to_vec(), vec![]);
    assert_eq!(session.fixed_actions.released.to_vec(), vec![]);
    assert_eq!(session.fixed_actions.holding.to_vec(), vec![Action::MoveForward]);
}

#[test]
fn fixed_cleanup_keeps_holding() {
    let mut session = Session::new(walk_and_jump());
    session.begin_frame(&vec![down(W)]);
    session.end_frame(false);
    session.begin_frame(&vec![up(W), down(SPACE)]);
    clear_fixed_actions(&mut session.fixed_actions);
    assert!(session.fixed_actions.pressed.is_empty());
    assert!(session.fixed_actions.released.is_empty());
    assert_eq!(session.fixed_actions.holding.to_vec(), vec![Action::Jump]);
}

#[test]
fn frame_cleanup_keeps_holding() {
    let mut inputs = Inputs::new();
    read_input_events(&mut inputs, &vec![down(W), down(LEFT_BUTTON), down(A), up(A)]);
    assert!(!inputs.pressed.is_empty());
    assert!(!inputs.released.is_empty());
    cleanup_inputs(&mut inputs);
    assert!(inputs.pressed.is_empty());
    assert!(inputs.released.is_empty());
    assert!(inputs.holding.contains(W));
    assert!(inputs.holding.contains(LEFT_BUTTON));
    assert!(!inputs.holding.contains(A));
}

#[test]
fn resolving_twice_in_one_frame_is_quiet() {
    let mut session = Session::new(plain_and_combined());
    session.begin_frame(&vec![down(W), down(SHIFT)]);
    assert_eq!(session.actions.pressed.to_vec(), vec![Action::Jump]);
    convert_inputs_to_actions(&session.inputs, &mut session.actions, &mut session.fixed_actions, &session.key_bindings);
    assert_eq!(session.actions.pressed.to_vec(), vec![]);
    assert_eq!(session.actions.released.to_vec(), vec![]);
    assert_eq!(session.actions.holding.to_vec(), vec![Action::Jump]);
}

#[test]
fn switching_from_plain_to_combined_swaps_the_actions() {
    let mut session = Session::new(plain_and_combined());
    session.begin_frame(&vec![down(W)]);
    session.end_frame(false);
    session.begin_frame(&vec![down(SHIFT)]);
    assert_eq!(session.actions.pressed.to_vec(), vec![Action::Jump]);
    assert_eq!(session.actions.released.to_vec(), vec![Action::MoveForward]);
    assert_eq!(session.actions.holding.to_vec(), vec![Action::Jump]);
}

#[test]
fn unbound_actions_are_never_held() {
    let bindings = KeyBindings::new();
    assert_eq!(resolve_holding(&bindings, &held(&[W, SPACE, SHIFT])).to_vec(), vec![]);
}

#[test]
fn helper_predicates_on_combinations() {
    let holding = held(&[W, SHIFT]);
    assert!(all_held(&vec![W], &holding));
    assert!(all_held(&vec![SHIFT, W], &holding));
    assert!(all_held(&vec![], &holding));
    assert!(!all_held(&vec![W, SPACE], &holding));

    assert!(has_symbol(&vec![W, SHIFT], SHIFT));
    assert!(!has_symbol(&vec![W, SHIFT], SPACE));
    assert!(!has_symbol(&vec![], W));

    assert!(share_symbol(&vec![W, SHIFT], &vec![SPACE, SHIFT]));
    assert!(!share_symbol(&vec![W, SHIFT], &vec![SPACE, CONTROL]));
    assert!(!share_symbol(&vec![], &vec![W]));
}

#[test]
fn candidate_and_override_checks() {
    let bindings = plain_and_combined();
    let holding = held(&[W]);
    assert!(is_candidate_action(&bindings, &holding, Action::MoveForward));
    assert!(!is_candidate_action(&bindings, &holding, Action::Jump));
    assert!(!is_candidate_action(&bindings, &holding, Action::MoveLeft));

    assert!(overrides_action(&bindings, Action::Jump, Action::MoveForward));
    assert!(!overrides_action(&bindings, Action::MoveForward, Action::Jump));
    assert!(!overrides_action(&bindings, Action::Jump, Action::Jump));
    assert!(!overrides_action(&bindings, Action::Jump, Action::MoveLeft));

    let mut among = ActionSet::new();
    assert!(!is_suppressed_action(&bindings, &among, Action::MoveForward));
    among.insert(Action::MoveForward);
    assert!(!is_suppressed_action(&bindings, &among, Action::MoveForward));
    among.insert(Action::Jump);
    assert!(is_suppressed_action(&bindings, &among, Action::MoveForward));
    assert!(!is_suppressed_action(&bindings, &among, Action::Jump));
}

#[test]
fn new_session_is_empty() {
    let session = Session::new(walk_and_jump());
    assert!(session.inputs.holding.is_empty());
    assert!(session.inputs.pressed.is_empty());
    assert!(session.inputs.released.is_empty());
    assert!(session.actions.holding.is_empty());
    assert!(session.fixed_actions.holding.is_empty());
    assert_eq!(session.key_bindings.get(Action::Jump), Some(&vec![SPACE]));
}

#[test]
fn session_phases_follow_the_frame_order() {
    let mut session = Session::new(walk_and_jump());
    session.begin_frame(&vec![down(W)]);
    assert!(session.inputs.pressed.contains(W));
    assert_eq!(session.actions.pressed.to_vec(), vec![Action::MoveForward]);
    session.end_frame(false);
    assert!(session.inputs.pressed.is_empty());
    assert!(session.inputs.holding.contains(W));
    assert_eq!(session.actions.pressed.to_vec(), vec![]);
    assert_eq!(session.actions.holding.to_vec(), vec![Action::MoveForward]);
    assert_eq!(session.fixed_actions.pressed.to_vec(), vec![Action::MoveForward]);

    session.begin_frame(&vec![down(SPACE)]);
    assert_eq!(session.fixed_actions.pressed.to_vec(), vec![Action::MoveForward, Action::Jump]);
    session.end_frame(true);
    assert!(session.inputs.holding.is_empty());
    assert_eq!(session.actions.holding.to_vec(), vec![Action::MoveForward, Action::Jump]);

    session.end_fixed_tick();
    assert_eq!(session.fixed_actions.pressed.to_vec(), vec![]);
    assert_eq!(session.fixed_actions.holding.to_vec(), vec![Action::MoveForward, Action::Jump]);

    session.begin_frame(&vec![up(W)]);
    assert_eq!(session.actions.released.to_vec(), vec![Action::MoveForward, Action::Jump]);
    assert_eq!(session.fixed_actions.released.to_vec(), vec![Action::MoveForward, Action::Jump]);
    assert_eq!(session.fixed_actions.holding.to_vec(), vec![]);
}

#[test]
fn a_fixed_tick_without_frames_sees_no_transition() {
    let mut session = Session::new(walk_and_jump());
    session.begin_frame(&vec![down(W)]);
    session.end_frame(false);
    session.end_fixed_tick();
    session.end_fixed_tick();
    assert_eq!(session.fixed_actions.pressed.to_vec(), vec![]);
    assert_eq!(session.fixed_actions.released.to_vec(), vec![]);
    assert_eq!(session.fixed_actions.holding.to_vec(), vec![Action::MoveForward]);
}

#[test]
fn action_cleanup_keeps_holding() {
    let mut session = Session::new(walk_and_jump());
    session.begin_frame(&vec![down(W)]);
    session.end_frame(false);
    session.begin_frame(&vec![up(W), down(SPACE)]);
    assert_eq!(session.actions.pressed.to_vec(), vec![Action::Jump]);
    assert_eq!(session.actions.released.to_vec(), vec![Action::MoveForward]);
    cleanup_actions(&mut session.actions);
    assert!(session.actions.pressed.is_empty());
    assert!(session.actions.released.is_empty());
    assert_eq!(session.actions.holding.to_vec(), vec![Action::Jump]);
    assert_eq!(session.fixed_actions.released.to_vec(), vec![Action::MoveForward]);
}
