//! Streaming voxel terrain: per-cell pipeline state machine, sliding window of
//! cell columns around a viewpoint, and the dispatcher that hands out work.
pub mod block;
pub mod chunk;
pub mod chunkedterrain;
