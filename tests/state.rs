use bevy_sprite_animation::attributes::Attribute;
use bevy_sprite_animation::error::StateError;
use bevy_sprite_animation::state::AnimationState;
use bevy_sprite_animation::value::{Value, ValueKind};

#[test]
fn new_state_seeds_core_slots() {
    let state = AnimationState::new();
    assert_eq!(state.get_micros(&Attribute::Delta), Ok(0));
    assert_eq!(state.get_usize(&Attribute::Frames), Ok(0));
    assert_eq!(state.get_bool(&Attribute::FlipX), Ok(false));
    assert_eq!(state.get_bool(&Attribute::FlipY), Ok(false));
    assert_eq!(state.get_micros(&Attribute::LastFPS), Err(StateError::NotFound));
    assert!(!state.changed(&Attribute::Delta));
}

#[test]
fn get_tells_missing_from_wrong_type() {
    let mut state = AnimationState::new();
    let key = Attribute::new_attribute("Speed");
    assert_eq!(state.get_attribute(&key), Err(StateError::NotFound));
    state.set_attribute(key.deep_clone(), Value::Permille(500));
    assert_eq!(state.get_usize(&key), Err(StateError::WrongType));
    assert_eq!(state.get_typed(&key, ValueKind::Permille), Ok(Value::Permille(500)));
    // the hash-only form reads the same slot
    assert_eq!(state.get_permille(&key.clone()), Ok(500));
    // a set replaces value and kind alike
    state.set_attribute(key.clone(), Value::Bool(true));
    assert_eq!(state.get_bool(&key), Ok(true));
    assert_eq!(state.get_permille(&key), Err(StateError::WrongType));
    state.clear_attribute(&key);
    assert_eq!(state.get_bool(&key), Err(StateError::NotFound));
}

#[test]
fn index_reads_default_to_zero() {
    let mut state = AnimationState::new();
    let idx = Attribute::new_index("Stand");
    assert_eq!(state.index(&idx), 0);
    assert_eq!(state.get_index(&idx), Some(0));
    assert_eq!(state.get_index(&Attribute::new_attribute("Stand")), None);
    state.set_attribute(idx.deep_clone(), Value::Usize(6));
    assert_eq!(state.index(&idx), 6);
    state.set_attribute(idx.deep_clone(), Value::Bool(false));
    assert_eq!(state.get_index(&idx), Some(0));
}

#[test]
fn temporary_key_expires_after_a_tick_without_a_set() {
    let mut state = AnimationState::new();
    let key = Attribute::new_index("Fall");
    assert!(state.set_temporary(key.deep_clone()));
    assert!(!state.set_temporary(key.deep_clone()));
    // tick N: set
    state.begin_tick(16_000);
    state.set_attribute(key.deep_clone(), Value::Usize(3));
    state.end_tick();
    assert_eq!(state.index(&key), 3);
    // tick N+1: not set
    state.begin_tick(16_000);
    assert!(!state.changed(&key));
    state.end_tick();
    // start of tick N+2: gone
    state.begin_tick(16_000);
    assert_eq!(state.get_usize(&key), Err(StateError::NotFound));
}

#[test]
fn temporary_key_set_every_tick_stays() {
    let mut state = AnimationState::new();
    let key = Attribute::new_index("Fall");
    state.set_temporary(key.deep_clone());
    for tick in 0..5 {
        state.begin_tick(16_000);
        state.set_attribute(key.deep_clone(), Value::Usize(tick));
        state.end_tick();
        assert_eq!(state.index(&key), tick);
    }
    // a persistent key stays without being set
    assert!(state.set_persistent(&key));
    assert!(!state.set_persistent(&key));
    state.begin_tick(16_000);
    state.end_tick();
    assert_eq!(state.index(&key), 4);
}

#[test]
fn begin_tick_stamps_delta_and_clears_changes() {
    let mut state = AnimationState::new();
    let key = Attribute::new_attribute("X");
    state.set_attribute(key.deep_clone(), Value::Usize(1));
    assert!(state.changed(&key));
    state.begin_tick(33_000);
    assert!(!state.changed(&key));
    assert!(state.changed(&Attribute::Delta));
    assert_eq!(state.get_micros(&Attribute::Delta), Ok(33_000));
}
