//! A GPU draw-submission compiler: turns a per-frame list of draw requests
//! (geometry, shader, textures, uniform payloads) into a minimal ordered set
//! of pipeline / bind-group / draw-call configurations, plus a shelf-packing
//! glyph atlas builder.
//!
//! Everything here is pure bookkeeping over plain values; the actual GPU
//! backend (buffer writes, pipeline compilation, render passes) is driven by
//! a thin unverified shell that executes the decisions this crate makes.

pub mod arena;
pub mod atlas;
pub mod batch;
pub mod cache;
pub mod command;
pub mod error;
pub mod event;
pub mod frame;
pub mod handle;
pub mod mesh;
pub mod order;
pub mod pipeline;
pub mod sums;
pub mod uniform;
