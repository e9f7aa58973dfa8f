//! Streamed level-of-detail terrain and the two full-screen passes that
//! composite sky and water into the frame.
//!
//! - `lod`: the six-level mesh cache and its distance brackets.
//! - `stream`: the tile set around a moving observer.
//! - `observer`: travel speed and movement keys of the viewpoint.
//! - `pipeline`: specialization and caching of the effects' pipelines.
//! - `binding`: the resources each effect binds.
//! - `graph`: render stages and their execution order.
//! - `frame`: the frame's stage graph and its post-processing buffers.
pub mod binding;
pub mod frame;
pub mod graph;
pub mod lod;
pub mod observer;
pub mod pipeline;
pub mod stream;
