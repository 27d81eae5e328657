//! Decoding of the SCALE encoded events of a Substrate block.
//!
//! A block's events come as one run of bytes whose layout only the chain's metadata knows. The
//! library walks that metadata over the bytes: [`events::EventsDecoder`] splits them into event
//! records and [`segmenter::EventBytesSegmenter`] cuts out the argument bytes of each event, by a
//! table of the argument types that it has been told of.

pub mod bytes;
pub mod codec;
pub mod error;
pub mod event_laws;
pub mod events;
pub mod laws;
pub mod lookup_laws;
pub mod metadata;
pub mod missing;
pub mod registry_laws;
pub mod run;
pub mod segment;
pub mod segmenter;
pub mod step_laws;
pub mod text;
pub mod type_laws;
pub mod value_laws;

