//! A first-order logic front end for Bayesian belief networks: propositions
//! over typed entities, implications between predicate patterns, the
//! proposition graph grown backward from a target, and the key/value layout
//! under which a namespace keeps its facts in the store.

pub mod text;
pub mod error;
pub mod objects;
pub mod creators;
pub mod ops;
pub mod search;
pub mod proposition_graph;
pub mod reach_bound;
pub mod store;
pub mod graph;
pub mod train;
pub mod proposition_db;
pub mod storage;
pub mod weights;
pub mod scenarios;
pub mod diagram;
pub mod render_utils;
pub mod render;
pub mod inference;
pub mod setup;
