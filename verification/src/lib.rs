//! Bitstream model, parser and decoding logic for IAMF (Immersive Audio
//! Model and Formats).

pub mod error;
pub mod leb128;
pub mod reader;

pub use error::Error;
pub use reader::ByteReader;
pub mod obu;

pub use obu::{Obu, ObuHeader, ObuIter, ObuType};
pub mod frames;

pub use frames::AudioFrame;
pub mod descriptors;
pub mod params;
pub mod channels;
pub mod element;
pub mod profile;
pub mod layout;
pub mod decode_error;

pub use decode_error::DecodeError;
pub mod stream;
pub mod presentation;
pub mod reconstruct;
pub mod binaural;
pub mod codecs;
pub mod mp4;
pub mod demo;
pub mod player;
pub mod capi;
pub mod frame_queue;
pub mod filters;
pub mod channel_budget;
pub mod selection;
