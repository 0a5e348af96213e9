//! A local document indexer: page splitting, chunking, deterministic chunk
//! identity, rank fusion, change detection and the decisions of the ingestion
//! pipeline, each stated and proved.
pub mod bus;
pub mod chunk;
pub mod chunking;
pub mod config;
pub mod embed;
pub mod events;
pub mod extract;
pub mod fusion;
pub mod identity;
pub mod metadata;
pub mod mirror;
pub mod pages;
pub mod reconcile;
pub mod retention;
pub mod scan;
pub mod search;
pub mod text;
