//! A codec for asynchronous, spatially addressed intensity-event video:
//! block prediction, adaptive symbol models, and the framing of independently
//! decodable access units.

pub mod adu;
pub mod arith;
pub mod coder;
pub mod event_adu;
pub mod fenwick;
pub mod framing;
pub mod layout;
pub mod options;
pub mod pixel;
pub mod prediction;
pub mod residual_models;
pub mod stream;
pub mod tracker;
pub mod types;
