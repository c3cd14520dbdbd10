//! Extraction of conversation threads from exported chat archives, and the
//! batching rules by which they are written to a graph store.

pub mod bolt;
pub mod clock;
pub mod dom;
pub mod labels;
pub mod markup;
pub mod model;
pub mod payload;
pub mod pipeline;
pub mod resolve;
pub mod survey;
pub mod text;
pub mod transcript;
