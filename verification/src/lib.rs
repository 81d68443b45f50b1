//! A local-first memory engine: conversational turns are distilled into typed
//! memories, filed under a four-level hierarchy, linked into a relation graph
//! with versioned history, and composed into token-budgeted context capsules.

pub mod agentic;
pub mod atomicity;
pub mod clock;
pub mod composer;
pub mod convergence;
pub mod dup;
pub mod entities;
pub mod extraction;
pub mod extractor;
pub mod graph;
pub mod heuristic;
pub mod hierarchy;
pub mod ids;
pub mod importance;
pub mod keywords;
pub mod laws;
pub mod lifecycle;
pub mod links;
pub mod listings;
pub mod memories;
pub mod migration;
pub mod narrative;
pub mod notes;
pub mod order;
pub mod organizer;
pub mod patterns;
pub mod pieces;
pub mod projects;
pub mod query;
pub mod rankings;
pub mod relations;
pub mod relocation;
pub mod review;
pub mod revisions;
pub mod schemas;
pub mod sidecar;
pub mod sorting;
pub mod statistics;
pub mod store;
pub mod symmetry;
pub mod templates;
pub mod temporal;
pub mod text;
pub mod versions;
pub mod wordsets;
pub mod worker;
