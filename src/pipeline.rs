//! The decisions around retrieval that do not touch a collaborator: how many
//! candidates to fetch, which survive the entity filter, the recency cutoff,
//! and the embedding check.
use vstd::prelude::*;
use crate::scan::{trim_chars, trimmed};
use crate::search::{ScopedSearchResult, SearchHitType};
use crate::text::{chars_of, lower_of, lowercase, string_of};

verus! {

/// Dimension of the vectors stored in the indexes.
pub const EMBEDDING_DIMENSION: usize = 1024;

/// Most candidates fetched for one packed context.
pub const MAX_FETCH: usize = 200;

pub const SECONDS_PER_DAY: i64 = 86400;

/// Why a retrieval failed.
#[derive(Debug)]
pub enum RetrievalError {
    /// The embedder could not be reached or answered malformed data.
    EmbeddingUnavailable(String),
    /// The embedder returned a vector of the wrong length.
    DimensionMismatch { found: usize, expected: usize },
    /// A vector or text query of one source failed.
    SourceQuery { source: SearchHitType, message: String },
    /// A requested record does not exist.
    NotFound(String),
}

/// Accepts an embedding of exactly `EMBEDDING_DIMENSION` values.
pub fn validate_embedding_dim(len: usize) -> (r: Result<(), RetrievalError>)
    ensures
        r is Ok <==> len == EMBEDDING_DIMENSION,
        r matches Err(e) ==> e == (RetrievalError::DimensionMismatch {
            found: len,
            expected: EMBEDDING_DIMENSION,
        }),
{
    if len != EMBEDDING_DIMENSION {
        return Err(RetrievalError::DimensionMismatch { found: len, expected: EMBEDDING_DIMENSION });
    }
    Ok(())
}

/// Four candidates per chunk, capped at `MAX_FETCH`, but never fewer than
/// one per chunk.
pub open spec fn fetch_limit(max_chunks: usize) -> int {
    if max_chunks >= MAX_FETCH {
        max_chunks as int
    } else if 4 * max_chunks <= MAX_FETCH {
        4 * max_chunks
    } else {
        MAX_FETCH as int
    }
}

/// How many candidates to retrieve for a context of `max_chunks` chunks.
pub fn augment_fetch_limit(max_chunks: usize) -> (r: usize)
    ensures
        r == fetch_limit(max_chunks),
        max_chunks <= r,
{
    if max_chunks >= MAX_FETCH {
        max_chunks
    } else if max_chunks * 4 <= MAX_FETCH {
        max_chunks * 4
    } else {
        MAX_FETCH
    }
}

/// `days` days before `now`, in seconds since the epoch, or the earliest
/// representable instant when that lies further back.
pub open spec fn cutoff_of(now: i64, days: u32) -> int {
    let c = now - days * SECONDS_PER_DAY;
    if c < i64::MIN {
        i64::MIN as int
    } else {
        c
    }
}

/// The earliest instant that a search limited to the last `days` days
/// still reaches.
pub fn since_cutoff(now: i64, days: u32) -> (r: i64)
    ensures
        r == cutoff_of(now, days),
{
    let span = (days as i64) * SECONDS_PER_DAY;
    if now < i64::MIN + span {
        i64::MIN
    } else {
        now - span
    }
}

/// An entity filter after trimming and lower-casing; a filter that leaves
/// nothing matches every note and so filters nothing.
pub open spec fn entity_query(q: Seq<char>) -> Option<Seq<char>> {
    let l = lower_of(trimmed(q));
    if l.len() == 0 {
        None
    } else {
        Some(l)
    }
}

/// The entity filter to apply, or `None` when it is blank.
pub fn normalize_entity_query(q: &str) -> (r: Option<String>)
    ensures
        r is None <==> entity_query(q@) is None,
        r matches Some(x) ==> entity_query(q@) == Some(x@),
{
    let t = string_of(&trim_chars(&chars_of(q)));
    let lowered = lowercase(t.as_str());
    if lowered.as_str().unicode_len() == 0 {
        None
    } else {
        Some(lowered)
    }
}

/// A note without the filtered entity is dropped; every other hit stays.
pub open spec fn entity_dropped(h: ScopedSearchResult, has_entity: bool) -> bool {
    h.hit_type == SearchHitType::Note && !has_entity
}

/// The hits of `hits[0..n]` that pass the entity filter, and how many failed.
pub open spec fn entity_filtered(hits: Seq<ScopedSearchResult>, has_entity: Seq<bool>, n: nat) -> (Seq<ScopedSearchResult>, nat)
    decreases n,
{
    if n == 0 {
        (Seq::empty(), 0)
    } else {
        let (kept, dropped) = entity_filtered(hits, has_entity, (n - 1) as nat);
        if entity_dropped(hits[n - 1], has_entity[n - 1]) {
            (kept, dropped + 1)
        } else {
            (kept.push(hits[n - 1]), dropped)
        }
    }
}

/// Applies the entity filter, where `has_entity[i]` tells whether the note
/// `hits[i]` mentions the entity; returns the kept hits in order and the
/// number dropped.
pub fn retain_entity_matches(hits: Vec<ScopedSearchResult>, has_entity: &Vec<bool>) -> (r: (Vec<ScopedSearchResult>, usize))
    requires
        has_entity.len() == hits.len(),
    ensures
        (r.0@, r.1 as nat) == entity_filtered(hits@, has_entity@, hits@.len()),
{
    let ghost c = hits@;
    let len = hits.len();
    let mut kept: Vec<ScopedSearchResult> = Vec::new();
    let mut dropped: usize = 0;
    let mut i: usize = 0;
    for h in it: hits.into_iter()
        invariant
            it.seq() == c,
            len == c.len(),
            has_entity@.len() == c.len(),
            (kept@, dropped as nat) == entity_filtered(c, has_entity@, it.index() as nat),
            dropped <= it.index(),
            i == it.index(),
    {
        if matches!(h.hit_type, SearchHitType::Note) && !has_entity[i] {
            dropped = dropped + 1;
        } else {
            kept.push(h);
        }
        i = i + 1;
    }
    (kept, dropped)
}

} // verus!
