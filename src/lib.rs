//! Per-track sample ingestion and buffering for a spectrogram display.
//!
//! A [`Registry`] owns an ordered list of tracks. Each track pairs a
//! [`Channel`] (a FIFO transport queue plus an append-only buffer of the
//! samples drained so far) with a [`Spectrogram`] engine. On each refresh the
//! registry drains every channel, selects part of its buffer with a
//! [`BufferSize`] policy, and loads the selection into the engine. [`State`]
//! holds the decisions of a host that drives the registry from user requests.
pub mod channel;
pub mod engine;
pub mod host;
pub mod registry;
pub mod selector;

pub use channel::{Channel, ChannelView, Sender};
pub use engine::Spectrogram;
pub use host::{track_noun, Action, Message, State};
pub use registry::{ChannelClosed, Registry, RegistryView, TrackView};
pub use selector::{select, BufferSize};
