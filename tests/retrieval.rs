use graphrag_search::merge::merge_hits;
use graphrag_search::rank::{combine_scoped_results, rank_results, SourceHits};
use graphrag_search::search::{
    from_conversation_result, from_message_result, from_note_result, scope_includes,
    ConversationSearchResult, MessageSearchResult, ScopedSearchResult, SearchHitType,
    SearchResult, SearchScope,
};

fn note(id: &str, d: Option<i64>, t: Option<u64>) -> SearchResult {
    SearchResult {
        id: id.to_string(),
        title: Some(format!("title {}", id)),
        content: format!("content {}", id),
        note_type: "raw".to_string(),
        tags: vec![],
        created_at: 100,
        vec_distance: d,
        fts_score: t,
    }
}

fn message(id: &str, index: i64, d: Option<i64>, t: Option<u64>) -> MessageSearchResult {
    MessageSearchResult {
        id: id.to_string(),
        conversation_id: "conversation:x".to_string(),
        conversation_uuid: "uuid-x".to_string(),
        message_index: index,
        role: "assistant".to_string(),
        content: format!("message {}", id),
        created_at: Some(5),
        vec_distance: d,
        fts_score: t,
    }
}

fn conversation(id: &str, title: Option<&str>, summary: Option<&str>, d: Option<i64>) -> ConversationSearchResult {
    ConversationSearchResult {
        id: id.to_string(),
        uuid: format!("uuid-{}", id),
        title: title.map(|s| s.to_string()),
        summary: summary.map(|s| s.to_string()),
        source_uri: None,
        updated_at: 77,
        vec_distance: d,
        fts_score: None,
    }
}

fn candidate(id: &str, score: u64) -> ScopedSearchResult {
    ScopedSearchResult {
        hit_type: SearchHitType::Note,
        id: id.to_string(),
        title: None,
        content: id.to_string(),
        created_at: None,
        score,
        conversation_uuid: None,
        message_index: None,
        role: None,
    }
}

#[test]
fn merge_overlays_text_relevance_without_clearing_distance() {
    let vector = vec![note("a", Some(1), None), note("b", Some(2), None)];
    let text = vec![note("b", None, Some(5)), note("c", None, Some(3)), note("a", None, None)];
    let merged = merge_hits(vector, text);
    let view: Vec<(&str, Option<i64>, Option<u64>)> =
        merged.iter().map(|r| (r.id.as_str(), r.vec_distance, r.fts_score)).collect();
    assert_eq!(view, vec![("a", Some(1), None), ("b", Some(2), Some(5)), ("c", None, Some(3))]);
}

#[test]
fn merge_same_id_in_both_lists_yields_one_entry() {
    let merged = merge_hits(vec![note("x", Some(10), None)], vec![note("x", None, Some(20))]);
    assert_eq!(merged.len(), 1);
    assert_eq!(merged[0].vec_distance, Some(10));
    assert_eq!(merged[0].fts_score, Some(20));
}

#[test]
fn merge_text_only_hit_has_no_distance() {
    let merged = merge_hits(Vec::new(), vec![note("y", Some(99), Some(4))]);
    assert_eq!(merged.len(), 1);
    assert_eq!(merged[0].vec_distance, None);
    assert_eq!(merged[0].fts_score, Some(4));
}

#[test]
fn merge_repeated_vector_hit_keeps_first_position_and_last_value() {
    let merged = merge_hits(
        vec![note("a", Some(1), None), note("b", Some(2), None), note("a", Some(3), None)],
        Vec::new(),
    );
    let view: Vec<(&str, Option<i64>)> = merged.iter().map(|r| (r.id.as_str(), r.vec_distance)).collect();
    assert_eq!(view, vec![("a", Some(3)), ("b", Some(2))]);
}

#[test]
fn message_adapter_titles_by_role_and_position() {
    let c = from_message_result(message("message:1", 0, Some(0), None));
    assert_eq!(c.title.as_deref(), Some("assistant message #1"));
    assert_eq!(c.hit_type, SearchHitType::Message);
    assert_eq!(c.score, 700_000);
    assert_eq!(c.message_index, Some(0));
    assert_eq!(c.role.as_deref(), Some("assistant"));
    assert_eq!(c.conversation_uuid.as_deref(), Some("uuid-x"));
    let c = from_message_result(message("message:2", 41, None, None));
    assert_eq!(c.title.as_deref(), Some("assistant message #42"));
    let c = from_message_result(message("message:3", -3, None, None));
    assert_eq!(c.title.as_deref(), Some("assistant message #-2"));
}

#[test]
fn conversation_adapter_falls_back_to_uuid_and_empty_summary() {
    let c = from_conversation_result(conversation("conversation:1", None, None, None));
    assert_eq!(c.title.as_deref(), Some("Conversation uuid-conversation:1"));
    assert_eq!(c.content, "");
    assert_eq!(c.created_at, Some(77));
    assert_eq!(c.hit_type, SearchHitType::ConversationSummary);
    let c = from_conversation_result(conversation("conversation:2", Some("Named"), Some("summary text"), Some(1_000_000)));
    assert_eq!(c.title.as_deref(), Some("Named"));
    assert_eq!(c.content, "summary text");
    assert_eq!(c.score, 350_000);
}

#[test]
fn note_adapter_keeps_fields() {
    let c = from_note_result(note("note:1", None, Some(5_000_000)));
    assert_eq!(c.id, "note:1");
    assert_eq!(c.title.as_deref(), Some("title note:1"));
    assert_eq!(c.content, "content note:1");
    assert_eq!(c.created_at, Some(100));
    assert_eq!(c.score, 150_000);
    assert!(c.role.is_none());
}

#[test]
fn rank_sorts_descending_stably_and_truncates() {
    let ranked = rank_results(
        vec![candidate("a", 1), candidate("b", 5), candidate("c", 5), candidate("d", 3)],
        3,
    );
    let ids: Vec<&str> = ranked.iter().map(|c| c.id.as_str()).collect();
    assert_eq!(ids, vec!["b", "c", "d"]);
    let all = rank_results(vec![candidate("a", 1), candidate("b", 2)], 10);
    assert_eq!(all.len(), 2);
    assert!(rank_results(vec![candidate("a", 1)], 0).is_empty());
}

#[test]
fn scope_selects_sources() {
    assert!(scope_includes(SearchScope::Notes, SearchHitType::Note));
    assert!(!scope_includes(SearchScope::Notes, SearchHitType::Message));
    assert!(!scope_includes(SearchScope::Notes, SearchHitType::ConversationSummary));
    assert!(scope_includes(SearchScope::Messages, SearchHitType::Message));
    assert!(!scope_includes(SearchScope::Messages, SearchHitType::ConversationSummary));
    assert!(scope_includes(SearchScope::All, SearchHitType::ConversationSummary));
}

fn sources() -> (SourceHits<SearchResult>, SourceHits<MessageSearchResult>, SourceHits<ConversationSearchResult>) {
    (
        SourceHits { vector_hits: vec![note("note:1", Some(0), None)], text_hits: vec![note("note:1", None, Some(10_000_000))] },
        SourceHits { vector_hits: vec![message("message:1", 0, Some(1_000_000), None)], text_hits: vec![] },
        SourceHits { vector_hits: vec![conversation("conversation:1", None, Some("s"), Some(0))], text_hits: vec![] },
    )
}

#[test]
fn combine_ranks_across_sources_within_scope() {
    let (n, m, c) = sources();
    let all = combine_scoped_results(SearchScope::All, n, m, c, 10);
    let view: Vec<(&str, u64)> = all.iter().map(|r| (r.id.as_str(), r.score)).collect();
    assert_eq!(view, vec![("note:1", 1_000_000), ("conversation:1", 700_000), ("message:1", 350_000)]);

    let (n, m, c) = sources();
    let notes_only = combine_scoped_results(SearchScope::Notes, n, m, c, 10);
    assert_eq!(notes_only.len(), 1);
    assert_eq!(notes_only[0].hit_type, SearchHitType::Note);

    let (n, m, c) = sources();
    let messages_only = combine_scoped_results(SearchScope::Messages, n, m, c, 10);
    assert_eq!(messages_only.len(), 1);
    assert_eq!(messages_only[0].hit_type, SearchHitType::Message);

    let (n, m, c) = sources();
    let limited = combine_scoped_results(SearchScope::All, n, m, c, 2);
    assert_eq!(limited.len(), 2);
}

#[test]
fn merged_entry_keeps_vector_fields_and_text_relevance() {
    let mut v = note("x", Some(7), Some(1));
    v.title = Some("vector title".to_string());
    let mut t = note("x", None, None);
    t.title = Some("text title".to_string());
    let merged = merge_hits(vec![v], vec![t]);
    assert_eq!(merged.len(), 1);
    assert_eq!(merged[0].title.as_deref(), Some("vector title"));
    assert_eq!(merged[0].vec_distance, Some(7));
    assert_eq!(merged[0].fts_score, Some(1));
    let merged = merge_hits(vec![note("x", Some(7), Some(1))], vec![note("x", None, Some(9))]);
    assert_eq!(merged[0].fts_score, Some(9));
}
