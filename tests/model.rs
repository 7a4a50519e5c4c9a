use graphrag_search::model::{ChatImportMode, EdgeType, EntityType, MessageRole, NoteType, SourceType};
use graphrag_search::search::{hit_type_label, SearchHitType};

#[test]
fn test_edge_type_display() {
    assert_eq!(EdgeType::Supports.as_str(), "supports");
    assert_eq!(EdgeType::Contradicts.as_str(), "contradicts");
}

#[test]
fn edge_names_are_snake_case() {
    assert_eq!(EdgeType::DerivedFrom.as_str(), "derived_from");
    assert_eq!(EdgeType::RelatedTo.as_str(), "related_to");
    assert_eq!(EdgeType::TaggedWith.as_str(), "tagged_with");
}

#[test]
fn defaults() {
    assert_eq!(EntityType::default(), EntityType::Other);
    assert_eq!(NoteType::default(), NoteType::Raw);
    assert_eq!(SourceType::default(), SourceType::Manual);
    assert_eq!(SourceType::ChatExport.as_str(), "chat_export");
    assert_eq!(MessageRole::Assistant.as_str(), "assistant");
    assert_eq!(ChatImportMode::Hybrid.as_str(), "hybrid");
    assert_eq!(EntityType::Technology.as_str(), "technology");
    assert_eq!(NoteType::Synthesis.as_str(), "synthesis");
}

#[test]
fn source_kind_labels() {
    assert_eq!(hit_type_label(SearchHitType::Note), "note");
    assert_eq!(hit_type_label(SearchHitType::Message), "message");
    assert_eq!(hit_type_label(SearchHitType::ConversationSummary), "conversation-summary");
}
