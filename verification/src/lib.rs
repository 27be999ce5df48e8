//! Ingestion pipeline for celestial-object catalogs: line-oriented parsing of
//! a plaintext object listing, schema validation of an asteroid-survey
//! response, and row-oriented persistence of accepted records.

pub mod csv_store;
pub mod digits;
pub mod horizon;
pub mod nasa_data;
pub mod validation;
pub mod path_manager;
pub mod split;
