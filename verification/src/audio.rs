//! Decoding of the audio containers that iPhone OS games ship.

pub mod aifc;
pub mod caf;
pub mod ima4;
pub mod mp3_stream;
pub mod pcm;
pub mod symphonia_decode;
