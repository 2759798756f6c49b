//! Recording runs in batches and reading them back.

pub mod adjacent_index_prediction;
pub mod batch_deserializer;
pub mod batch_names;
pub mod batch_serializer;
pub mod preload_cache;
pub mod ranges;
