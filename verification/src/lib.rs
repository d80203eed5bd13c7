use vstd::prelude::*;

pub mod synth;
pub mod pattern;
pub mod text;
pub mod song;
pub mod midi_file;
pub mod editor;
pub mod paths;
pub mod config;
pub mod sample;
pub mod playback;
pub mod edit;
pub mod midi_out;
pub mod dialog;
pub mod keys;
pub mod browser;
pub mod clock;
pub mod midi_readback;

verus! {
} // verus!
