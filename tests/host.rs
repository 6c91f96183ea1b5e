use impulse::{track_noun, Action, Message, Sender, State};

#[test]
fn new_state_is_idle_and_empty() {
    let s: State<f32> = State::new();
    assert!(!s.audio_playing);
    assert_eq!(s.registry.len(), 0);
    assert_eq!(s.title(), "Impulse");
    assert_eq!(s.audio_status(), "No audio playing");
}

#[test]
fn play_and_pause_toggle_status() {
    let mut s: State<f32> = State::new();
    assert_eq!(s.update(Message::PlayButtonPressed), Action::Nothing);
    assert!(s.audio_playing);
    assert_eq!(s.audio_status(), "Currently playing audio");
    assert_eq!(s.update(Message::PauseButtonPressed), Action::Nothing);
    assert!(!s.audio_playing);
    assert_eq!(s.registry.len(), 0);
}

#[test]
fn add_channel_adds_a_track() {
    let mut s: State<f32> = State::new();
    assert_eq!(
        s.update(Message::AddNewChannelButtonPressed),
        Action::TrackAdded(0, Sender { id: 0 })
    );
    assert_eq!(
        s.update(Message::AddNewChannelButtonPressed),
        Action::TrackAdded(1, Sender { id: 1 })
    );
    assert_eq!(s.registry.len(), 2);
}

#[test]
fn import_asks_for_a_file_first() {
    let mut s: State<i16> = State::new();
    assert_eq!(s.update(Message::ImportAudioButtonPressed), Action::OpenFileDialog);
    assert_eq!(s.registry.len(), 0);
    assert_eq!(
        s.update(Message::AudioFileSelected),
        Action::TrackAdded(0, Sender { id: 0 })
    );
    assert_eq!(s.registry.len(), 1);
}

#[test]
fn track_noun_agrees_with_count() {
    assert_eq!(track_noun(0), "tracks");
    assert_eq!(track_noun(1), "track");
    assert_eq!(track_noun(2), "tracks");
}
