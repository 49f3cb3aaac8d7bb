//! Strength-training records: logged sets, personal-record evaluation,
//! workout sessions and per-exercise analytics, with every rule stated as a
//! contract and proved.
//!
//! - `metrics`, `records`, `evaluation`: a set's marks and what it improves.
//! - `model`, `store`, `engine`: the store as contracts see it, the
//!   in-memory store, and the evaluation of one set against it.
//! - `flow`, `session`: the saving of a workout as a sequence of commands
//!   that any store can serve, and its run on the in-memory store.
//! - `analytics`, `queries`: volume, heaviest weight and record history of
//!   an exercise over time.
//! - `laws`: what holds of every sequence of requests.
//! - `markers`, `routines`, `routine`, `grouping`, `dates`, `text`: the
//!   rules of the endpoints around the engine.

pub mod analytics;
pub mod dates;
pub mod engine;
pub mod errors;
pub mod evaluation;
pub mod flow;
pub mod grouping;
pub mod laws;
pub mod markers;
pub mod metrics;
pub mod model;
pub mod queries;
pub mod records;
pub mod routine;
pub mod routines;
pub mod sequences;
pub mod session;
pub mod store;
pub mod text;
