use puzzle_up::animation::{AnimationInfo, AnimationTable, AnimationType, ContactEvent};
use puzzle_up::motion::{Contact, NormalVertical, Velocity};

fn player_table() -> AnimationTable {
    AnimationTable {
        idle: Some(vec![0]),
        run: Some(vec![9, 10]),
        jump: Some(vec![1]),
        fall: Some(vec![2]),
    }
}

fn resting_contact() -> Contact {
    Contact {
        ground: true,
        first_is_player: true,
        vertical: NormalVertical::Up,
    }
}

fn side_contact() -> Contact {
    Contact {
        ground: true,
        first_is_player: true,
        vertical: NormalVertical::Level,
    }
}

fn separation() -> ContactEvent {
    ContactEvent::Stopped { flags_empty: true }
}

#[test]
fn new_starts_on_the_first_frame() {
    let info = AnimationInfo::new(player_table(), AnimationType::Idle);
    assert_eq!(info.current, AnimationType::Idle);
    assert_eq!(info.index, 0);
    assert!(!info.timer_primed);
}

#[test]
fn run_trigger_needs_motion_and_support() {
    let mut info = AnimationInfo::new(player_table(), AnimationType::Idle);
    let contacts = vec![resting_contact()];

    info.run_animation_trigger(&Velocity { x: 0, y: 0 }, &contacts);
    assert_eq!(info.current, AnimationType::Idle);

    info.run_animation_trigger(&Velocity { x: 100, y: 0 }, &Vec::new());
    assert_eq!(info.current, AnimationType::Idle);

    info.run_animation_trigger(&Velocity { x: 100, y: 0 }, &contacts);
    assert_eq!(info.current, AnimationType::Run);
    assert_eq!(info.index, 0);
    assert!(info.timer_primed);
}

#[test]
fn idle_trigger_needs_stillness_and_support() {
    let mut info = AnimationInfo::new(player_table(), AnimationType::Run);
    let contacts = vec![resting_contact()];

    info.idle_animation_trigger(&Velocity { x: 100, y: 0 }, &contacts);
    assert_eq!(info.current, AnimationType::Run);

    info.idle_animation_trigger(&Velocity { x: 0, y: 0 }, &vec![side_contact()]);
    assert_eq!(info.current, AnimationType::Run);

    info.idle_animation_trigger(&Velocity { x: 0, y: 0 }, &contacts);
    assert_eq!(info.current, AnimationType::Idle);
}

#[test]
fn jump_trigger_needs_a_true_separation_and_upward_motion() {
    let mut info = AnimationInfo::new(player_table(), AnimationType::Run);

    info.jump_animation_trigger(&Velocity { x: 0, y: 250 }, &Vec::new());
    assert_eq!(info.current, AnimationType::Run);

    let flagged = vec![ContactEvent::Stopped { flags_empty: false }];
    info.jump_animation_trigger(&Velocity { x: 0, y: 250 }, &flagged);
    assert_eq!(info.current, AnimationType::Run);

    let events = vec![ContactEvent::Started, separation()];
    info.jump_animation_trigger(&Velocity { x: 0, y: 0 }, &events);
    assert_eq!(info.current, AnimationType::Run);

    info.jump_animation_trigger(&Velocity { x: 0, y: 250 }, &events);
    assert_eq!(info.current, AnimationType::Jump);
}

/// Once the Jump animation plays, Idle and Run triggers do not override it,
/// whatever velocity and contacts the frame reports.
#[test]
fn jump_is_not_overridden_by_idle_or_run() {
    let mut info = AnimationInfo::new(player_table(), AnimationType::Jump);
    let contacts = vec![resting_contact()];

    info.idle_animation_trigger(&Velocity { x: 0, y: 0 }, &contacts);
    assert_eq!(info.current, AnimationType::Jump);

    info.run_animation_trigger(&Velocity { x: 100, y: 0 }, &contacts);
    assert_eq!(info.current, AnimationType::Jump);
}

#[test]
fn fall_trigger_fires_without_support_on_descent() {
    let mut info = AnimationInfo::new(player_table(), AnimationType::Jump);

    info.fall_animation_trigger(&Velocity { x: 0, y: 10 }, &Vec::new());
    assert_eq!(info.current, AnimationType::Jump);

    info.fall_animation_trigger(&Velocity { x: 0, y: -10 }, &vec![resting_contact()]);
    assert_eq!(info.current, AnimationType::Jump);

    info.fall_animation_trigger(&Velocity { x: 0, y: -10 }, &vec![side_contact()]);
    assert_eq!(info.current, AnimationType::Fall);
}

/// A fall ends in an idle or run state again: the Jump guard does not stop
/// the Idle trigger once Fall plays.
#[test]
fn landing_returns_from_fall_to_idle() {
    let mut info = AnimationInfo::new(player_table(), AnimationType::Fall);
    info.idle_animation_trigger(&Velocity { x: 0, y: 0 }, &vec![resting_contact()]);
    assert_eq!(info.current, AnimationType::Idle);
}

#[test]
fn animate_advances_on_the_timer_and_wraps() {
    let mut info = AnimationInfo::new(player_table(), AnimationType::Run);

    assert_eq!(info.animate_player(false), None);
    assert_eq!(info.index, 0);

    assert_eq!(info.animate_player(true), Some(10));
    assert_eq!(info.index, 1);

    assert_eq!(info.animate_player(true), Some(9));
    assert_eq!(info.index, 0);
}

#[test]
fn a_switch_primes_the_timer_for_an_immediate_frame() {
    let mut info = AnimationInfo::new(player_table(), AnimationType::Idle);
    info.run_animation_trigger(&Velocity { x: 100, y: 0 }, &vec![resting_contact()]);
    assert!(info.timer_primed);

    // The tick has not elapsed, but the switch shows a frame at once.
    assert_eq!(info.animate_player(false), Some(10));
    assert!(!info.timer_primed);
    assert_eq!(info.animate_player(false), None);
}

#[test]
fn set_animation_ignores_a_type_the_table_lacks() {
    let table = AnimationTable {
        idle: Some(vec![0]),
        run: Some(vec![9, 10]),
        jump: None,
        fall: Some(vec![2]),
    };
    let mut info = AnimationInfo::new(table, AnimationType::Run);
    info.set_animation(AnimationType::Jump);
    assert_eq!(info.current, AnimationType::Run);
    assert!(!info.timer_primed);
}
