use graphrag_search::packing::{build_augment_context_from_hits, pack, AugmentOptions};
use graphrag_search::search::{ScopedSearchResult, SearchHitType, SearchScope};

fn make_hit(id: &str, score: u64, content: &str) -> ScopedSearchResult {
    ScopedSearchResult {
        hit_type: SearchHitType::Note,
        id: id.to_string(),
        title: Some("title".to_string()),
        content: content.to_string(),
        created_at: None,
        score,
        conversation_uuid: None,
        message_index: None,
        role: None,
    }
}

fn options(max_chunks: usize, max_total_tokens: usize, max_chunk_tokens: usize) -> AugmentOptions {
    AugmentOptions { max_chunks, max_total_tokens, max_chunk_tokens }
}

#[test]
fn deduplicates_similar_content() {
    let hits = vec![
        make_hit("note:a", 900_000, "Alpha beta gamma"),
        make_hit("note:b", 800_000, "alpha beta gamma"),
        make_hit("note:c", 700_000, "delta epsilon"),
    ];

    let ctx = build_augment_context_from_hits(
        "query".to_string(),
        SearchScope::Notes,
        None,
        hits,
        options(5, 200, 30),
        0,
    );

    assert_eq!(ctx.chunks.len(), 2);
    assert_eq!(ctx.dropped_duplicates, 1);
    assert_eq!(ctx.chunks[0].id, "note:a");
    assert_eq!(ctx.chunks[1].id, "note:c");
}

#[test]
fn enforces_total_token_budget() {
    let hits = vec![
        make_hit("note:a", 900_000, "one two three four five six"),
        make_hit("note:b", 800_000, "seven eight nine ten eleven"),
    ];

    let ctx = build_augment_context_from_hits(
        "query".to_string(),
        SearchScope::Notes,
        None,
        hits,
        options(5, 8, 30),
        0,
    );

    assert_eq!(ctx.chunks.len(), 1);
    assert_eq!(ctx.total_tokens, 6);
    assert_eq!(ctx.dropped_for_budget, 1);
}

#[test]
fn truncates_each_chunk_to_token_limit() {
    let hits = vec![make_hit("note:a", 900_000, "one two three four five six")];

    let ctx = build_augment_context_from_hits(
        "query".to_string(),
        SearchScope::Notes,
        None,
        hits,
        options(2, 100, 4),
        0,
    );

    assert_eq!(ctx.chunks.len(), 1);
    assert_eq!(ctx.chunks[0].approx_tokens, 4);
    assert!(ctx.chunks[0].truncated);
    assert_eq!(ctx.chunks[0].snippet, "one two three four ...");
}

#[test]
fn exact_duplicates_keep_first_and_count_drop() {
    let hits = vec![
        make_hit("a", 900_000, "alpha beta gamma"),
        make_hit("b", 800_000, "alpha beta gamma"),
        make_hit("c", 700_000, "delta epsilon"),
    ];
    let ctx = build_augment_context_from_hits("q".to_string(), SearchScope::All, None, hits, options(5, 200, 30), 0);
    let ids: Vec<&str> = ctx.chunks.iter().map(|c| c.id.as_str()).collect();
    assert_eq!(ids, vec!["a", "c"]);
    assert_eq!(ctx.dropped_duplicates, 1);
    assert_eq!(ctx.dropped_for_budget, 0);
    assert_eq!(ctx.total_tokens, 5);
}

#[test]
fn lower_scored_duplicate_given_first_is_dropped() {
    let hits = vec![
        make_hit("low", 100_000, "Same text!"),
        make_hit("high", 900_000, "same   TEXT"),
    ];
    let ctx = build_augment_context_from_hits("q".to_string(), SearchScope::Notes, None, hits, options(5, 200, 30), 0);
    assert_eq!(ctx.chunks.len(), 1);
    assert_eq!(ctx.chunks[0].id, "high");
    assert_eq!(ctx.dropped_duplicates, 1);
}

#[test]
fn repeated_id_and_blank_body_are_duplicates() {
    let hits = vec![
        make_hit("a", 900_000, "first body"),
        make_hit("a", 800_000, "other body"),
        make_hit("b", 700_000, "   \n\t "),
    ];
    let ctx = build_augment_context_from_hits("q".to_string(), SearchScope::Notes, None, hits, options(5, 200, 30), 0);
    assert_eq!(ctx.chunks.len(), 1);
    assert_eq!(ctx.dropped_duplicates, 2);
}

#[test]
fn punctuation_only_bodies_are_not_merged() {
    let hits = vec![make_hit("a", 900_000, "!!!"), make_hit("b", 800_000, "???")];
    let ctx = build_augment_context_from_hits("q".to_string(), SearchScope::Notes, None, hits, options(5, 200, 30), 0);
    assert_eq!(ctx.chunks.len(), 2);
    assert_eq!(ctx.dropped_duplicates, 0);
}

#[test]
fn budget_skips_large_candidate_but_takes_later_small_one() {
    let hits = vec![
        make_hit("a", 900_000, "one two three"),
        make_hit("b", 800_000, "four five six seven"),
        make_hit("c", 700_000, "eight"),
    ];
    let ctx = build_augment_context_from_hits("q".to_string(), SearchScope::Notes, None, hits, options(5, 4, 30), 0);
    let ids: Vec<&str> = ctx.chunks.iter().map(|c| c.id.as_str()).collect();
    assert_eq!(ids, vec!["a", "c"]);
    assert_eq!(ctx.total_tokens, 4);
    assert_eq!(ctx.dropped_for_budget, 1);
}

#[test]
fn budget_never_exceeded_and_citations_dense() {
    let mut hits = Vec::new();
    for i in 0..12u64 {
        let body = "w ".repeat((i % 5 + 1) as usize);
        hits.push(make_hit(&format!("n{}", i), 1_000_000 - i * 1000, &format!("{} {}", body, i)));
    }
    let ctx = build_augment_context_from_hits("q".to_string(), SearchScope::Notes, None, hits, options(6, 15, 3), 0);
    let sum: usize = ctx.chunks.iter().map(|c| c.approx_tokens).sum();
    assert_eq!(sum, ctx.total_tokens);
    assert!(ctx.total_tokens <= 15);
    assert!(ctx.chunks.len() <= 6);
    for (k, c) in ctx.chunks.iter().enumerate() {
        assert_eq!(c.citation, k + 1);
    }
}

#[test]
fn max_chunks_stops_the_scan() {
    let hits = vec![
        make_hit("a", 900_000, "one"),
        make_hit("b", 800_000, "two"),
        make_hit("c", 700_000, "three four five six seven eight nine ten"),
    ];
    let ctx = build_augment_context_from_hits("q".to_string(), SearchScope::Notes, None, hits, options(2, 3, 30), 0);
    assert_eq!(ctx.chunks.len(), 2);
    assert_eq!(ctx.dropped_for_budget, 0);
}

#[test]
fn zero_bound_yields_empty_context() {
    for opts in [options(0, 10, 10), options(10, 0, 10), options(10, 10, 0)] {
        let hits = vec![make_hit("a", 900_000, "body"), make_hit("b", 800_000, "body")];
        let ctx = build_augment_context_from_hits("q".to_string(), SearchScope::Messages, Some("rust".to_string()), hits, opts, 3);
        assert!(ctx.chunks.is_empty());
        assert_eq!(ctx.total_tokens, 0);
        assert_eq!(ctx.dropped_duplicates, 0);
        assert_eq!(ctx.dropped_for_budget, 0);
        assert_eq!(ctx.dropped_for_entity_filter, 3);
        assert_eq!(ctx.entity_filter.as_deref(), Some("rust"));
        assert_eq!(ctx.scope, SearchScope::Messages);
        assert_eq!(ctx.query, "q");
    }
}

#[test]
fn empty_candidate_list_gives_empty_context() {
    let ctx = build_augment_context_from_hits("q".to_string(), SearchScope::All, None, Vec::new(), AugmentOptions::default(), 0);
    assert!(ctx.chunks.is_empty());
    assert_eq!(ctx.total_tokens, 0);
    assert_eq!(ctx.dropped_duplicates, 0);
    assert_eq!(ctx.dropped_for_budget, 0);
}

#[test]
fn hits_are_sorted_by_score_before_packing() {
    let hits = vec![
        make_hit("low", 100_000, "low body"),
        make_hit("high", 900_000, "high body"),
        make_hit("mid", 500_000, "mid body"),
    ];
    let ctx = build_augment_context_from_hits("q".to_string(), SearchScope::Notes, None, hits, options(5, 200, 30), 0);
    let ids: Vec<&str> = ctx.chunks.iter().map(|c| c.id.as_str()).collect();
    assert_eq!(ids, vec!["high", "mid", "low"]);
}

#[test]
fn pack_keeps_chunk_fields() {
    let mut hit = make_hit("m", 420_000, "hello there world");
    hit.hit_type = SearchHitType::Message;
    hit.conversation_uuid = Some("conv".to_string());
    hit.message_index = Some(3);
    hit.role = Some("human".to_string());
    hit.created_at = Some(1_700_000_000);
    let (chunks, total, dropped) = pack(vec![hit], &options(1, 10, 2));
    assert_eq!(total, 2);
    assert_eq!(dropped, 0);
    let c = &chunks[0];
    assert_eq!(c.citation, 1);
    assert_eq!(c.hit_type, SearchHitType::Message);
    assert_eq!(c.snippet, "hello there ...");
    assert!(c.truncated);
    assert_eq!(c.score, 420_000);
    assert_eq!(c.conversation_uuid.as_deref(), Some("conv"));
    assert_eq!(c.message_index, Some(3));
    assert_eq!(c.role.as_deref(), Some("human"));
    assert_eq!(c.created_at, Some(1_700_000_000));
    assert_eq!(c.title.as_deref(), Some("title"));
}

#[test]
fn default_options_match_calibration() {
    let o = AugmentOptions::default();
    assert_eq!((o.max_chunks, o.max_total_tokens, o.max_chunk_tokens), (8, 1200, 180));
}

#[test]
fn lower_scored_duplicate_absent_from_longer_list() {
    let hits = vec![
        make_hit("x", 300_000, "Shared, body"),
        make_hit("y", 950_000, "unrelated text"),
        make_hit("z", 600_000, "shared body"),
        make_hit("w", 100_000, "more words here"),
    ];
    let ctx = build_augment_context_from_hits("q".to_string(), SearchScope::Notes, None, hits, options(10, 200, 30), 0);
    let ids: Vec<&str> = ctx.chunks.iter().map(|c| c.id.as_str()).collect();
    assert_eq!(ids, vec!["y", "z", "w"]);
    assert!(!ids.contains(&"x"));
}

#[test]
fn more_than_two_hundred_chunks_are_packed() {
    let hits: Vec<ScopedSearchResult> = (0..250u64)
        .map(|i| make_hit(&format!("n{}", i), 1_000_000 - i, &format!("word{}", i)))
        .collect();
    let ctx = build_augment_context_from_hits("q".to_string(), SearchScope::Notes, None, hits, options(300, 10_000, 5), 0);
    assert_eq!(ctx.chunks.len(), 250);
    assert_eq!(ctx.total_tokens, 250);
    assert_eq!(ctx.chunks[249].citation, 250);
}
