use graphrag_search::packing::{build_augment_context_from_hits, AugmentOptions};
use graphrag_search::pipeline::{augment_fetch_limit, normalize_entity_query, retain_entity_matches, since_cutoff, validate_embedding_dim, RetrievalError};
use graphrag_search::search::{ScopedSearchResult, SearchHitType, SearchScope};

fn hit(kind: SearchHitType, id: &str, score: u64, title: Option<&str>, content: &str) -> ScopedSearchResult {
    ScopedSearchResult {
        hit_type: kind,
        id: id.to_string(),
        title: title.map(|t| t.to_string()),
        content: content.to_string(),
        created_at: None,
        score,
        conversation_uuid: None,
        message_index: None,
        role: None,
    }
}

#[test]
fn renders_citations_labels_and_titles() {
    let hits = vec![
        hit(SearchHitType::Note, "n", 900_000, Some("First"), "alpha  beta"),
        hit(SearchHitType::Message, "m", 800_000, None, "gamma"),
        hit(SearchHitType::ConversationSummary, "c", 700_000, Some("Talk"), "delta"),
    ];
    let ctx = build_augment_context_from_hits("q".to_string(), SearchScope::All, None, hits, AugmentOptions::default(), 0);
    assert_eq!(
        ctx.render_prompt_block(),
        "<context>\n[C1] [note] First\nalpha beta\n\n[C2] [message] (untitled)\ngamma\n\n[C3] [conversation-summary] Talk\ndelta\n\n</context>"
    );
}

#[test]
fn renders_empty_context() {
    let ctx = build_augment_context_from_hits("q".to_string(), SearchScope::All, None, Vec::new(), AugmentOptions::default(), 0);
    assert_eq!(ctx.render_prompt_block(), "<context>\n</context>");
}

#[test]
fn renders_two_digit_citations() {
    let hits: Vec<ScopedSearchResult> = (0..11u64)
        .map(|i| hit(SearchHitType::Note, &format!("n{}", i), 1000 - i, Some("t"), &format!("body {}", i)))
        .collect();
    let options = AugmentOptions { max_chunks: 11, max_total_tokens: 100, max_chunk_tokens: 5 };
    let ctx = build_augment_context_from_hits("q".to_string(), SearchScope::Notes, None, hits, options, 0);
    assert!(ctx.render_prompt_block().contains("[C11] [note] t\nbody 10\n\n</context>"));
}

#[test]
fn entity_filter_drops_only_unmatched_notes() {
    let hits = vec![
        hit(SearchHitType::Note, "a", 3, None, "a"),
        hit(SearchHitType::Message, "b", 2, None, "b"),
        hit(SearchHitType::Note, "c", 1, None, "c"),
    ];
    let (kept, dropped) = retain_entity_matches(hits, &vec![false, false, true]);
    let ids: Vec<&str> = kept.iter().map(|h| h.id.as_str()).collect();
    assert_eq!(ids, vec!["b", "c"]);
    assert_eq!(dropped, 1);
}

#[test]
fn fetch_limit_values() {
    assert_eq!(augment_fetch_limit(8), 32);
    assert_eq!(augment_fetch_limit(0), 0);
    assert_eq!(augment_fetch_limit(50), 200);
    assert_eq!(augment_fetch_limit(120), 200);
    assert_eq!(augment_fetch_limit(200), 200);
    assert_eq!(augment_fetch_limit(250), 250);
    assert_eq!(augment_fetch_limit(usize::MAX), usize::MAX);
}

#[test]
fn cutoff_is_days_before_now() {
    assert_eq!(since_cutoff(1_000_000, 2), 1_000_000 - 2 * 86_400);
    assert_eq!(since_cutoff(5, 0), 5);
    assert_eq!(since_cutoff(i64::MIN + 5, 1), i64::MIN);
}

#[test]
fn entity_query_is_trimmed_and_lowered() {
    assert_eq!(normalize_entity_query("  Rust Lang ").as_deref(), Some("rust lang"));
    assert_eq!(normalize_entity_query("ÉCOLE").as_deref(), Some("école"));
    assert_eq!(normalize_entity_query("   "), None);
    assert_eq!(normalize_entity_query(""), None);
}

#[test]
fn embedding_dimension_check() {
    assert!(validate_embedding_dim(1024).is_ok());
    match validate_embedding_dim(384) {
        Err(RetrievalError::DimensionMismatch { found, expected }) => {
            assert_eq!(found, 384);
            assert_eq!(expected, 1024);
        }
        _ => panic!("expected a dimension mismatch"),
    }
}
