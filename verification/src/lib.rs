//! Incremental build pipeline for audio tracks and albums.
//!
//! The heart of the library is the staged cache-invalidation engine: per-stage
//! fingerprint records with a canonical text form, freshness policies for the
//! acquired sources, a cascading update tracker, and the orchestrator's
//! decision model.  Everything that spawns processes or touches the file
//! system lives outside the library and is handed plain values.

pub mod album;
pub mod clip;
pub mod config;
pub mod freshness;
pub mod pipeline;
pub mod record;
pub mod scan;
pub mod sox_args;
pub mod text;
pub mod track;
pub mod updates;
