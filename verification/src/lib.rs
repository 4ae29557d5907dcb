//! Streaming of an unbounded voxel world around a moving viewpoint.
//!
//! The world is cut into chunks: columns of `CHUNK_SIZE` by `CHUNK_SIZE` cells
//! that span the whole height range. A chunk's cells are filled from noise
//! samples, turned into a triangle surface with hidden faces left out, and
//! kept resident only while the chunk is near the viewpoint.

pub mod chunk_manager;
pub mod config;
pub mod constants;
pub mod face;
pub mod keys;
pub mod loaded;
pub mod mesher;
pub mod registry;
pub mod seq_facts;
pub mod stream_laws;
pub mod stream_view;
pub mod surface_laws;
pub mod terrain;
pub mod voxel;
