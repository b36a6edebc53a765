//! The logic of the SlicePlayer loop slicer, with contracts checked by Verus:
//! the slice layout and its editing operations, playback decisions (which
//! slice a note plays, which voices it cuts off, what the preview and the
//! audition play), zero-crossing search, and the exported files: sliced WAV,
//! Bitwig Studio multisample archive and MIDI clip. It also holds the file
//! browser's listing rules, the favourite-folder settings and the data of
//! the REX2 decoder.

pub mod params;
pub mod layout;
pub mod midi;
pub mod text;
pub mod export;
pub mod wav;
pub mod archive;
pub mod browser;
pub mod settings;
pub mod rex;
pub mod voices;
pub mod signal;
pub mod frames;
pub mod transport;
