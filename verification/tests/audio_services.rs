use taphle::audio_toolbox::audio_services::{
    State, INITIAL_SYSTEM_SOUND_ID, K_AUDIO_SERVICES_SYSTEM_SOUND_UNSPECIFIED_ERROR,
    K_SYSTEM_SOUND_ID_VIBRATE,
};

#[test]
fn sounds_get_increasing_ids_and_can_be_disposed() {
    let mut state = State::new();
    let a = state.create_sound(100, 200);
    let b = state.create_sound(101, 201);
    assert_eq!(a, INITIAL_SYSTEM_SOUND_ID);
    assert_eq!(b, INITIAL_SYSTEM_SOUND_ID + 1);
    assert_eq!(state.source_of(a), Some(100));
    assert_eq!(state.dispose(a), Ok((100, 200)));
    assert_eq!(state.source_of(a), None);
    assert_eq!(
        state.dispose(a),
        Err(K_AUDIO_SERVICES_SYSTEM_SOUND_UNSPECIFIED_ERROR)
    );
    assert_eq!(state.source_of(b), Some(101));
}

#[test]
fn completions_fire_on_the_playing_to_stopped_edge() {
    let mut state = State::new();
    let a = state.create_sound(100, 200);
    let b = state.create_sound(101, 201);
    assert_eq!(state.add_completion(a, 0x5000, 0x6000), 0);
    assert_eq!(
        state.add_completion(K_SYSTEM_SOUND_ID_VIBRATE, 1, 2),
        K_AUDIO_SERVICES_SYSTEM_SOUND_UNSPECIFIED_ERROR
    );
    // Never started: nothing is due.
    assert!(state.take_due_completions(|_| false).is_empty());
    // Playing now.
    assert!(state.take_due_completions(|_| true).is_empty());
    // Stopped: the completion is due, once.
    assert_eq!(state.take_due_completions(|_| false), vec![(a, 0x5000, 0x6000)]);
    assert!(state.take_due_completions(|_| false).is_empty());
    // A sound without a completion never fires.
    let _ = b;
    state.remove_completion(a);
    assert!(state.take_due_completions(|_| true).is_empty());
    assert!(state.take_due_completions(|_| false).is_empty());
}
