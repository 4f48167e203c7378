//! The parts of AudioToolbox whose logic stands apart from the audio
//! library that plays the sounds.

pub mod audio_services;
