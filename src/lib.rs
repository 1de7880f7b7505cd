//! Metadata resolution and library ingestion for a personal photo library:
//! capture-date resolution, media discovery rules, collision-safe import
//! naming, and the relational model of photos, albums and memberships.

pub mod civil;
pub mod text;
pub mod capture;
pub mod media;
pub mod ingest;
pub mod order;
pub mod store;
pub mod laws;
