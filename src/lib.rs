//! Retrieval-augmentation core.
//!
//! A query's candidates come from three sources (notes, chat messages and
//! conversation summaries), each answering a vector query and a text query.
//! The pipeline, stage by stage:
//!
//! - `fusion`: one bounded score from a vector distance and a text relevance;
//! - `merge`: one entry per id from a source's two hit lists;
//! - `search`: the source rows and the adapters that score them;
//! - `rank`: a stable descending sort, and the combination of the sources a
//!   scope reaches;
//! - `dedupe`: repeated ids, blank bodies and near-duplicate bodies removed;
//! - `packing`: greedy selection under chunk and token budgets, with
//!   citation numbers;
//! - `render`: the context block placed in a prompt.
//!
//! `text` and `scan` model text as character sequences; `payload` cleans
//! model-generated JSON; `pipeline` holds the decisions made around the
//! collaborator calls; `model` the closed vocabularies of the knowledge base.

pub mod dedupe;
pub mod digits;
pub mod fusion;
pub mod merge;
pub mod model;
pub mod packing;
pub mod payload;
pub mod pipeline;
pub mod rank;
pub mod render;
pub mod scan;
pub mod search;
pub mod text;
