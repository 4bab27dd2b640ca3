//! Verified core of the SedonaDB raster, aggregation and spill components.
pub mod array_info;
pub mod array_laws;
pub mod chunk_grid;
pub mod credentials;
pub mod decimal;
pub mod error;
pub mod geometry_laws;
pub mod geometry_types;
pub mod json;
pub mod loader;
pub mod message_laws;
pub mod object_store_backends;
pub mod raster_laws;
pub mod runtime;
pub mod source_uri;
pub mod spill;
pub mod spill_laws;
pub mod spill_writeback;
pub mod st_collect_agg;
pub mod st_collect_laws;
pub mod st_collect_merging;
pub mod st_collect_steps;
pub mod store_laws;
pub mod text;
pub mod text_laws;
pub mod uri_laws;
pub mod view_laws;
pub mod wkb;
