//! Greedy, token-bounded packing of ranked candidates into citation-numbered
//! chunks, and the rendered context block.
use vstd::prelude::*;
use crate::dedupe::{dedupe, deduped, lemma_dedupe_drops_lower_duplicate};
use crate::rank::{rank_results, sort_desc};
use crate::search::{ScopedSearchResult, SearchHitType, SearchScope};
use crate::text::{normalized, token_limited, truncate_to_token_limit};

verus! {

/// Bounds on the packed context: the number of chunks, the tokens of all
/// chunks together, and the tokens of one chunk.
#[derive(Clone, Copy, Debug)]
pub struct AugmentOptions {
    pub max_chunks: usize,
    pub max_total_tokens: usize,
    pub max_chunk_tokens: usize,
}

impl AugmentOptions {
    /// Eight chunks of at most 180 tokens, 1200 tokens in all.
    pub fn standard() -> (r: AugmentOptions)
        ensures
            r.max_chunks == 8,
            r.max_total_tokens == 1200,
            r.max_chunk_tokens == 180,
    {
        AugmentOptions { max_chunks: 8, max_total_tokens: 1200, max_chunk_tokens: 180 }
    }

    /// Whether some bound is zero, which leaves nothing to pack.
    pub open spec fn is_empty_budget(&self) -> bool {
        self.max_chunks == 0 || self.max_total_tokens == 0 || self.max_chunk_tokens == 0
    }
}

impl Default for AugmentOptions {
    fn default() -> (r: AugmentOptions)
        ensures
            r.max_chunks == 8,
            r.max_total_tokens == 1200,
            r.max_chunk_tokens == 180,
    {
        AugmentOptions::standard()
    }
}

/// One packed candidate with its citation number and token-limited snippet.
#[derive(Debug)]
pub struct AugmentChunk {
    pub citation: usize,
    pub hit_type: SearchHitType,
    pub id: String,
    pub title: Option<String>,
    pub snippet: String,
    pub created_at: Option<i64>,
    pub score: u64,
    pub conversation_uuid: Option<String>,
    pub message_index: Option<i64>,
    pub role: Option<String>,
    pub approx_tokens: usize,
    pub truncated: bool,
}

/// The packed context for one query, with diagnostic counters.
#[derive(Debug)]
pub struct AugmentContext {
    pub query: String,
    pub scope: SearchScope,
    pub entity_filter: Option<String>,
    pub chunks: Vec<AugmentChunk>,
    pub total_tokens: usize,
    pub dropped_duplicates: usize,
    pub dropped_for_budget: usize,
    pub dropped_for_entity_filter: usize,
}

/// The token count of a candidate once limited to `max_chunk_tokens` words.
pub open spec fn chunk_tokens(h: ScopedSearchResult, max_chunk_tokens: nat) -> nat {
    token_limited(h.content@, max_chunk_tokens).1
}

/// Packing of `c[0..n]`: the positions of the accepted candidates, their
/// total tokens, and the number dropped for the total budget.
pub open spec fn pack_prefix(c: Seq<ScopedSearchResult>, n: nat, o: AugmentOptions) -> (Seq<int>, nat, nat)
    decreases n,
{
    if n == 0 {
        (Seq::empty(), 0, 0)
    } else {
        let (acc, total, dropped) = pack_prefix(c, (n - 1) as nat, o);
        let t = chunk_tokens(c[n - 1], o.max_chunk_tokens as nat);
        if acc.len() >= o.max_chunks || t == 0 {
            (acc, total, dropped)
        } else if total + t > o.max_total_tokens {
            (acc, total, dropped + 1)
        } else {
            (acc.push(n - 1), total + t, dropped)
        }
    }
}

/// Single forward pass: stop once `max_chunks` are taken, skip a candidate
/// whose tokens would overrun the total budget and go on with the next.
/// A zero bound packs nothing.
pub open spec fn packed(c: Seq<ScopedSearchResult>, o: AugmentOptions) -> (Seq<int>, nat, nat) {
    if o.is_empty_budget() {
        (Seq::empty(), 0, 0)
    } else {
        pack_prefix(c, c.len(), o)
    }
}

/// `ch` is the candidate `h` packed under citation `citation`.
pub open spec fn chunk_of(h: ScopedSearchResult, ch: AugmentChunk, citation: int, max_chunk_tokens: nat) -> bool {
    &&& ch.citation == citation
    &&& ch.hit_type == h.hit_type
    &&& ch.id == h.id
    &&& ch.title == h.title
    &&& ch.created_at == h.created_at
    &&& ch.score == h.score
    &&& ch.conversation_uuid == h.conversation_uuid
    &&& ch.message_index == h.message_index
    &&& ch.role == h.role
    &&& (ch.snippet@, ch.approx_tokens as nat, ch.truncated) == token_limited(h.content@, max_chunk_tokens)
}

/// The chunks are the accepted candidates `c[acc[k]]`, cited `k + 1`.
pub open spec fn chunks_match(
    chunks: Seq<AugmentChunk>,
    c: Seq<ScopedSearchResult>,
    acc: Seq<int>,
    max_chunk_tokens: nat,
) -> bool {
    &&& chunks.len() == acc.len()
    &&& forall|k: int|
        0 <= k < acc.len() ==> 0 <= acc[k] < c.len() && chunk_of(
            c[acc[k]],
            #[trigger] chunks[k],
            k + 1,
            max_chunk_tokens,
        )
}

/// The sum of the chunks' token counts.
pub open spec fn token_sum(chunks: Seq<AugmentChunk>) -> nat
    decreases chunks.len(),
{
    if chunks.len() == 0 {
        0
    } else {
        token_sum(chunks.drop_last()) + chunks.last().approx_tokens as nat
    }
}

proof fn lemma_pack_prefix_bounds(c: Seq<ScopedSearchResult>, n: nat, o: AugmentOptions)
    requires
        n <= c.len(),
    ensures
        pack_prefix(c, n, o).1 <= o.max_total_tokens,
        pack_prefix(c, n, o).0.len() <= o.max_chunks,
        pack_prefix(c, n, o).0.len() + pack_prefix(c, n, o).2 <= n,
        forall|k: int|
            0 <= k < pack_prefix(c, n, o).0.len() ==> 0 <= #[trigger] pack_prefix(c, n, o).0[k] < n,
    decreases n,
{
    if n > 0 {
        lemma_pack_prefix_bounds(c, (n - 1) as nat, o);
    }
}

/// Packs `hits` in order under `options`; returns the chunks, their total
/// tokens and the number of candidates dropped for the total budget.
pub fn pack(hits: Vec<ScopedSearchResult>, options: &AugmentOptions) -> (r: (Vec<AugmentChunk>, usize, usize))
    ensures
        chunks_match(r.0@, hits@, packed(hits@, *options).0, options.max_chunk_tokens as nat),
        r.1 == packed(hits@, *options).1,
        r.2 == packed(hits@, *options).2,
        r.1 == token_sum(r.0@),
        r.1 <= options.max_total_tokens,
        r.0@.len() <= options.max_chunks,
{
    let ghost c = hits@;
    let ghost o = *options;
    let mut chunks: Vec<AugmentChunk> = Vec::new();
    if options.max_chunks == 0 || options.max_total_tokens == 0 || options.max_chunk_tokens == 0 {
        return (chunks, 0, 0);
    }
    let mut total_tokens: usize = 0;
    let mut dropped: usize = 0;
    let len = hits.len();
    for h in it: hits.into_iter()
        invariant
            it.seq() == c,
            len == c.len(),
            o == *options,
            !o.is_empty_budget(),
            chunks_match(chunks@, c, pack_prefix(c, it.index() as nat, o).0, o.max_chunk_tokens as nat),
            total_tokens == pack_prefix(c, it.index() as nat, o).1,
            dropped == pack_prefix(c, it.index() as nat, o).2,
            total_tokens == token_sum(chunks@),
    {
        let ghost n = it.index() as int;
        proof {
            lemma_pack_prefix_bounds(c, n as nat, o);
        }
        if chunks.len() < options.max_chunks {
            let (snippet, approx_tokens, truncated) = truncate_to_token_limit(
                h.content.as_str(),
                options.max_chunk_tokens,
            );
            if approx_tokens > 0 {
                if approx_tokens > options.max_total_tokens - total_tokens {
                    dropped = dropped + 1;
                } else {
                    total_tokens = total_tokens + approx_tokens;
                    let citation = chunks.len() + 1;
                    let ghost before = chunks@;
                    let ghost acc = pack_prefix(c, n as nat, o).0;
                    chunks.push(
                        AugmentChunk {
                            citation,
                            hit_type: h.hit_type,
                            id: h.id,
                            title: h.title,
                            snippet,
                            created_at: h.created_at,
                            score: h.score,
                            conversation_uuid: h.conversation_uuid,
                            message_index: h.message_index,
                            role: h.role,
                            approx_tokens,
                            truncated,
                        },
                    );
                    proof {
                        assert(chunks@.drop_last() =~= before);
                        let acc2 = acc.push(n);
                        assert forall|k: int| 0 <= k < acc2.len() implies 0 <= acc2[k] < c.len()
                            && chunk_of(c[acc2[k]], #[trigger] chunks@[k], k + 1, o.max_chunk_tokens as nat) by {
                            if k < acc.len() {
                                assert(chunks@[k] == before[k]);
                            }
                        }
                    }
                }
            }
        }
    }
    proof {
        assert(c.take(c.len() as int) =~= c);
        lemma_pack_prefix_bounds(c, c.len(), o);
    }
    (chunks, total_tokens, dropped)
}

/// The context built from `hits`: sorted by descending score, deduplicated,
/// then packed under `options`; a zero bound yields an empty context with
/// every counter at zero.
pub open spec fn context_of(
    r: AugmentContext,
    query: String,
    scope: SearchScope,
    entity_filter: Option<String>,
    hits: Seq<ScopedSearchResult>,
    options: AugmentOptions,
    dropped_for_entity_filter: usize,
) -> bool {
    &&& r.query == query
    &&& r.scope == scope
    &&& r.entity_filter == entity_filter
    &&& r.dropped_for_entity_filter == dropped_for_entity_filter
    &&& if options.is_empty_budget() {
        &&& r.chunks@.len() == 0
        &&& r.total_tokens == 0
        &&& r.dropped_duplicates == 0
        &&& r.dropped_for_budget == 0
    } else {
        let (kept, duplicates) = deduped(sort_desc(hits));
        let (acc, total, budget) = packed(kept, options);
        &&& chunks_match(r.chunks@, kept, acc, options.max_chunk_tokens as nat)
        &&& r.total_tokens == total
        &&& r.dropped_duplicates == duplicates
        &&& r.dropped_for_budget == budget
    }
}

/// Builds the packed context for `query` from retrieved `hits`.
pub fn build_augment_context_from_hits(
    query: String,
    scope: SearchScope,
    entity_filter: Option<String>,
    hits: Vec<ScopedSearchResult>,
    options: AugmentOptions,
    dropped_for_entity_filter: usize,
) -> (r: AugmentContext)
    ensures
        context_of(r, query, scope, entity_filter, hits@, options, dropped_for_entity_filter),
        r.total_tokens == token_sum(r.chunks@),
        r.total_tokens <= options.max_total_tokens,
        r.chunks@.len() <= options.max_chunks,
        forall|k: int| 0 <= k < r.chunks@.len() ==> #[trigger] r.chunks@[k].citation == k + 1,
{
    if options.max_chunks == 0 || options.max_total_tokens == 0 || options.max_chunk_tokens == 0 {
        return AugmentContext {
            query,
            scope,
            entity_filter,
            chunks: Vec::new(),
            total_tokens: 0,
            dropped_duplicates: 0,
            dropped_for_budget: 0,
            dropped_for_entity_filter,
        };
    }
    let n = hits.len();
    let ghost input = hits@;
    let sorted = rank_results(hits, n);
    proof {
        crate::rank::lemma_sort_desc_sorted(input);
        assert(sorted@ =~= sort_desc(input));
    }
    let (kept, dropped_duplicates) = dedupe(sorted);
    let (chunks, total_tokens, dropped_for_budget) = pack(kept, &options);
    AugmentContext {
        query,
        scope,
        entity_filter,
        chunks,
        total_tokens,
        dropped_duplicates,
        dropped_for_budget,
        dropped_for_entity_filter,
    }
}

/// In a context built from candidates with distinct ids, a candidate whose
/// body normalises to the same non-empty text as a higher-scored candidate
/// appears in no chunk.
pub proof fn lemma_context_drops_lower_duplicate(
    r: AugmentContext,
    query: String,
    scope: SearchScope,
    entity_filter: Option<String>,
    hits: Seq<ScopedSearchResult>,
    options: AugmentOptions,
    dropped_for_entity_filter: usize,
    a: int,
    b: int,
)
    requires
        context_of(r, query, scope, entity_filter, hits, options, dropped_for_entity_filter),
        0 <= a < hits.len(),
        0 <= b < hits.len(),
        hits[a].score > hits[b].score,
        normalized(hits[a].content@) == normalized(hits[b].content@),
        normalized(hits[a].content@).len() > 0,
        forall|i: int, j: int|
            0 <= i < hits.len() && 0 <= j < hits.len() && i != j ==> #[trigger] hits[i].id@
                != #[trigger] hits[j].id@,
    ensures
        forall|k: int| 0 <= k < r.chunks@.len() ==> (#[trigger] r.chunks@[k]).id@ != hits[b].id@,
{
    if !options.is_empty_budget() {
        lemma_dedupe_drops_lower_duplicate(hits, a, b);
        let kept = deduped(sort_desc(hits)).0;
        let acc = packed(kept, options).0;
        assert forall|k: int| 0 <= k < r.chunks@.len() implies (#[trigger] r.chunks@[k]).id@ != hits[b].id@ by {
            assert(chunk_of(kept[acc[k]], r.chunks@[k], k + 1, options.max_chunk_tokens as nat));
        }
    }
}

} // verus!
