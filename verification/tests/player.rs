use puzzle_up::motion::{player_movement, Contact, NormalVertical, Velocity, JUMP_POWER, RUN_POWER};

#[test]
fn test_running_changes_velocity_horizontally() {
    // Given
    let mut velocity = Velocity { x: 0, y: 0 };
    let mut flip_x = false;
    let contacts: Vec<Contact> = Vec::new();

    // When: the right key is held
    player_movement(false, true, false, &contacts, &mut velocity, &mut flip_x);

    // Then
    assert_eq!(velocity.x, RUN_POWER);
    assert_eq!(velocity.y, 0);
}

#[test]
fn test_not_running_nullifies_velocity() {
    // Given
    let mut velocity = Velocity { x: RUN_POWER, y: 0 };
    let mut flip_x = false;
    let contacts: Vec<Contact> = Vec::new();

    // When: no key is held
    player_movement(false, false, false, &contacts, &mut velocity, &mut flip_x);

    // Then
    assert_eq!(velocity.x, 0);
    assert_eq!(velocity.y, 0);
}

#[test]
fn test_running_left_flips_sprite_correctly() {
    // Given
    let mut velocity = Velocity { x: 0, y: 0 };
    let mut flip_x = false;
    let contacts: Vec<Contact> = Vec::new();

    // When: the left key is held
    player_movement(true, false, false, &contacts, &mut velocity, &mut flip_x);

    // Then
    assert!(flip_x);
}

#[test]
fn test_running_right_flips_sprite_correctly() {
    // Given
    let mut velocity = Velocity { x: 0, y: 0 };
    let mut flip_x = true;
    let contacts: Vec<Contact> = Vec::new();

    // When: the right key is held
    player_movement(false, true, false, &contacts, &mut velocity, &mut flip_x);

    // Then
    assert!(!flip_x);
}

#[test]
fn test_not_running_does_not_change_sprite_flip() {
    // Given
    let mut velocity = Velocity { x: 0, y: 0 };
    let mut flip_x = true;
    let contacts: Vec<Contact> = Vec::new();

    // When: no key is held
    player_movement(false, false, false, &contacts, &mut velocity, &mut flip_x);

    // Then
    assert!(flip_x);
}

#[test]
fn test_jumping_on_ground_changes_velocity_vertically() {
    // Given: the player rests on a ground tile below; the physics engine
    // lists the player first in the pair, so the normal points down.
    let mut velocity = Velocity { x: 0, y: 0 };
    let mut flip_x = false;
    let contacts = vec![Contact {
        ground: true,
        first_is_player: true,
        vertical: NormalVertical::Down,
    }];

    // When: the up key is held
    player_movement(false, false, true, &contacts, &mut velocity, &mut flip_x);

    // Then
    assert_eq!(velocity.x, 0);
    assert_eq!(velocity.y, JUMP_POWER);
}

#[test]
fn test_jumping_on_nonground_does_not_change_velocity_vertically() {
    // Given: the player rests on a tile that carries no ground tag.
    let mut velocity = Velocity { x: 0, y: 0 };
    let mut flip_x = false;
    let contacts = vec![Contact {
        ground: false,
        first_is_player: true,
        vertical: NormalVertical::Down,
    }];

    // When: the up key is held
    player_movement(false, false, true, &contacts, &mut velocity, &mut flip_x);

    // Then
    assert_eq!(velocity.x, 0);
    assert_eq!(velocity.y, 0);
}

#[test]
fn test_jumping_from_the_side_of_ground_does_not_change_velocity_vertically() {
    // Given: the player touches a ground tile beside it; the contact normal
    // is purely horizontal.
    let mut velocity = Velocity { x: 0, y: 0 };
    let mut flip_x = false;
    let contacts = vec![Contact {
        ground: true,
        first_is_player: true,
        vertical: NormalVertical::Level,
    }];

    // When: the up key is held
    player_movement(false, false, true, &contacts, &mut velocity, &mut flip_x);

    // Then
    assert_eq!(velocity.x, 0);
    assert_eq!(velocity.y, 0);
}

#[test]
fn test_jump_accepts_upward_normal_whatever_body_is_first() {
    let mut velocity = Velocity { x: 0, y: 0 };
    let mut flip_x = false;
    let contacts = vec![Contact {
        ground: true,
        first_is_player: false,
        vertical: NormalVertical::Up,
    }];
    player_movement(false, false, true, &contacts, &mut velocity, &mut flip_x);
    assert_eq!(velocity.y, JUMP_POWER);
}

#[test]
fn test_jump_rejects_downward_normal_when_player_is_not_first() {
    let mut velocity = Velocity { x: 0, y: 0 };
    let mut flip_x = false;
    let contacts = vec![Contact {
        ground: true,
        first_is_player: false,
        vertical: NormalVertical::Down,
    }];
    player_movement(false, false, true, &contacts, &mut velocity, &mut flip_x);
    assert_eq!(velocity.y, 0);
}

#[test]
fn test_jump_needs_the_up_key() {
    let mut velocity = Velocity { x: 0, y: 0 };
    let mut flip_x = false;
    let contacts = vec![Contact {
        ground: true,
        first_is_player: true,
        vertical: NormalVertical::Down,
    }];
    player_movement(false, false, false, &contacts, &mut velocity, &mut flip_x);
    assert_eq!(velocity.y, 0);
}

#[test]
fn test_right_takes_priority_when_both_run_keys_are_held() {
    let mut velocity = Velocity { x: 0, y: 0 };
    let mut flip_x = true;
    let contacts: Vec<Contact> = Vec::new();
    player_movement(true, true, false, &contacts, &mut velocity, &mut flip_x);
    assert_eq!(velocity.x, RUN_POWER);
    assert!(!flip_x);
}

#[test]
fn test_running_left_sets_negative_run_power() {
    let mut velocity = Velocity { x: 0, y: 7 };
    let mut flip_x = false;
    let contacts: Vec<Contact> = Vec::new();
    player_movement(true, false, false, &contacts, &mut velocity, &mut flip_x);
    assert_eq!(velocity.x, -RUN_POWER);
    assert_eq!(velocity.y, 7);
}
