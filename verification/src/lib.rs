//! Semantic search over files, images and videos that lie in a graph database.
//!
//! The library decides: which requests the database is sent, what its answers mean, which embeddings
//! count as hits, which results are shown and in what order. Talking to the database and to the
//! embedding service, and looking at the disk, are left to the caller, who hands the outcomes in.

use vstd::prelude::*;

pub mod assets;
pub mod consistency;
pub mod errors;
pub mod float_bits;
pub mod flows;
pub mod helix;
pub mod hits;
pub mod json;
pub mod pacing;
pub mod parse;
pub mod percent;
pub mod query;
pub mod results;
pub mod search;
pub mod sorting;
pub mod text;
pub mod thumbnails;

verus! {

} // verus!
