use vstd::prelude::*;
use crate::channel::Sender;
use crate::registry::{Registry, RegistryView};
use crate::selector::BufferSize;

verus! {

/// What the user asked the host for.
#[derive(Clone, Copy, Debug, PartialEq, Eq, Structural)]
pub enum Message {
    PlayButtonPressed,
    PauseButtonPressed,
    AddNewChannelButtonPressed,
    ImportAudioButtonPressed,
    /// The file prompt opened for an import came back with a file.
    AudioFileSelected,
}

/// What the host must do after a message has been handled.
#[derive(Clone, Copy, Debug, PartialEq, Eq, Structural)]
pub enum Action {
    Nothing,
    /// Show a prompt for one audio file; report a choice with
    /// `Message::AudioFileSelected`.
    OpenFileDialog,
    /// A track was appended at this index; its producer handle is given so
    /// that a producer can be attached.
    TrackAdded(usize, Sender),
}

/// The host's state: whether audio is playing, and the tracks.
pub struct State<T> {
    pub audio_playing: bool,
    pub registry: Registry<T>,
}

/// The registry after a request for a new track: one more track, unless
/// track identifiers have run out.
pub open spec fn after_add_request<T>(reg: RegistryView<T>) -> RegistryView<T> {
    if reg.next_id < u64::MAX {
        reg.added()
    } else {
        reg
    }
}

/// The action that answers a request for a new track.
pub open spec fn add_request_action<T>(reg: RegistryView<T>) -> Action {
    if reg.next_id < u64::MAX {
        Action::TrackAdded(reg.tracks.len() as usize, Sender { id: reg.next_id as u64 })
    } else {
        Action::Nothing
    }
}

impl<T: Copy> State<T> {
    pub open spec fn wf(&self) -> bool {
        self.registry.wf() && self.registry@.wf()
    }

    /// No audio playing, no tracks, and the whole buffer selected on refresh.
    pub fn new() -> (r: Self)
        ensures
            r.wf(),
            !r.audio_playing,
            r.registry@.tracks.len() == 0,
            r.registry@.next_id == 0,
            r.registry@.policy == BufferSize::All,
    {
        State { audio_playing: false, registry: Registry::new(BufferSize::All) }
    }

    pub fn title(&self) -> (r: &'static str)
        ensures
            r@ == "Impulse"@,
    {
        "Impulse"
    }

    /// The line that tells whether audio is playing.
    pub fn audio_status(&self) -> (r: &'static str)
        ensures
            self.audio_playing ==> r@ == "Currently playing audio"@,
            !self.audio_playing ==> r@ == "No audio playing"@,
    {
        if self.audio_playing {
            "Currently playing audio"
        } else {
            "No audio playing"
        }
    }

    /// Handles one message and says what the host must do next.
    pub fn update(&mut self, message: Message) -> (r: Action)
        requires
            old(self).wf(),
        ensures
            final(self).wf(),
            message == Message::PlayButtonPressed ==> final(self).audio_playing
                && final(self).registry@ == old(self).registry@ && r == Action::Nothing,
            message == Message::PauseButtonPressed ==> !final(self).audio_playing
                && final(self).registry@ == old(self).registry@ && r == Action::Nothing,
            message == Message::ImportAudioButtonPressed ==> final(self).audio_playing
                == old(self).audio_playing && final(self).registry@ == old(self).registry@
                && r == Action::OpenFileDialog,
            message == Message::AddNewChannelButtonPressed || message == Message::AudioFileSelected
                ==> final(self).audio_playing == old(self).audio_playing
                && final(self).registry@ == after_add_request(old(self).registry@)
                && r == add_request_action(old(self).registry@),
    {
        match message {
            Message::PlayButtonPressed => {
                self.audio_playing = true;
                Action::Nothing
            },
            Message::PauseButtonPressed => {
                self.audio_playing = false;
                Action::Nothing
            },
            Message::ImportAudioButtonPressed => Action::OpenFileDialog,
            Message::AddNewChannelButtonPressed | Message::AudioFileSelected => {
                if self.registry.can_add_track() {
                    let (index, sender) = self.registry.add_track();
                    Action::TrackAdded(index, sender)
                } else {
                    Action::Nothing
                }
            },
        }
    }
}

/// The noun for a count of tracks: "track" for one, "tracks" otherwise.
pub fn track_noun(n: usize) -> (r: &'static str)
    ensures
        n == 1 ==> r@ == "track"@,
        n != 1 ==> r@ == "tracks"@,
{
    if n == 1 {
        "track"
    } else {
        "tracks"
    }
}

} // verus!
