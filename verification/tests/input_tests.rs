use lightcycle::input::{Action, Input};

#[test]
fn idle_input_holds_nothing() {
    let input = Input::idle(16_000);
    assert_eq!(input.elapsed, 16_000);
    assert!(input.held.is_empty());
    assert!(input.just_pressed.is_empty());
    assert!(!input.is_action_held(Action::Confirm));
    assert!(!input.is_action_just_pressed(Action::Confirm));
}

#[test]
fn held_and_pressed_are_told_apart() {
    let input = Input {
        elapsed: 1,
        held: vec![Action::TurnLeft(0), Action::TurnRight(3)],
        just_pressed: vec![Action::Confirm, Action::TurnLeft(0)],
    };
    assert!(input.is_action_held(Action::TurnLeft(0)));
    assert!(input.is_action_held(Action::TurnRight(3)));
    assert!(!input.is_action_held(Action::TurnLeft(3)));
    assert!(!input.is_action_held(Action::TurnRight(0)));
    assert!(!input.is_action_held(Action::Confirm));
    assert!(input.is_action_just_pressed(Action::Confirm));
    assert!(input.is_action_just_pressed(Action::TurnLeft(0)));
    assert!(!input.is_action_just_pressed(Action::TurnRight(3)));
    assert!(!input.is_action_just_pressed(Action::Cancel));
    assert!(!input.is_action_just_pressed(Action::IncreasePlayerCount));
    assert!(!input.is_action_just_pressed(Action::DecreasePlayerCount));
}
