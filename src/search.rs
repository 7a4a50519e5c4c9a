//! Candidates of the three sources, the raw rows they come from, and the
//! adapters that turn a row into a scored candidate.
use vstd::prelude::*;
use crate::digits::{decimal_text, int_text};
use crate::fusion::{fuse, fused_score, FusionConfig, DEFAULT_TEXT_DIVISOR, DEFAULT_TEXT_WEIGHT, DEFAULT_VECTOR_WEIGHT};
use crate::merge::RankedHit;

verus! {

/// Which sources a retrieval may query.
#[derive(Clone, Copy, Debug, PartialEq, Eq, Structural)]
pub enum SearchScope {
    Notes,
    Messages,
    All,
}

/// The source a candidate comes from.
#[derive(Clone, Copy, Debug, PartialEq, Eq, Structural)]
pub enum SearchHitType {
    Note,
    Message,
    ConversationSummary,
}

/// `All` also reaches conversation summaries, which neither `Notes` nor
/// `Messages` reach.
pub open spec fn scope_covers(scope: SearchScope, kind: SearchHitType) -> bool {
    match scope {
        SearchScope::Notes => kind == SearchHitType::Note,
        SearchScope::Messages => kind == SearchHitType::Message,
        SearchScope::All => true,
    }
}

/// Whether a retrieval under `scope` queries the source `kind`.
pub fn scope_includes(scope: SearchScope, kind: SearchHitType) -> (r: bool)
    ensures
        r == scope_covers(scope, kind),
{
    match scope {
        SearchScope::Notes => matches!(kind, SearchHitType::Note),
        SearchScope::Messages => matches!(kind, SearchHitType::Message),
        SearchScope::All => true,
    }
}

pub open spec fn hit_label(kind: SearchHitType) -> Seq<char> {
    match kind {
        SearchHitType::Note => "note"@,
        SearchHitType::Message => "message"@,
        SearchHitType::ConversationSummary => "conversation-summary"@,
    }
}

/// The fixed label of a source kind in rendered context.
pub fn hit_type_label(hit_type: SearchHitType) -> (r: &'static str)
    ensures
        r@ == hit_label(hit_type),
{
    match hit_type {
        SearchHitType::Note => "note",
        SearchHitType::Message => "message",
        SearchHitType::ConversationSummary => "conversation-summary",
    }
}

/// A retrieved unit of text with its fused score (fixed point, at most
/// `SCORE_SCALE`). Instants are seconds since the Unix epoch.
#[derive(Debug)]
pub struct ScopedSearchResult {
    pub hit_type: SearchHitType,
    pub id: String,
    pub title: Option<String>,
    pub content: String,
    pub created_at: Option<i64>,
    pub score: u64,
    pub conversation_uuid: Option<String>,
    pub message_index: Option<i64>,
    pub role: Option<String>,
}

/// A note row of the vector or text index.
#[derive(Debug)]
pub struct SearchResult {
    pub id: String,
    pub title: Option<String>,
    pub content: String,
    pub note_type: String,
    pub tags: Vec<String>,
    pub created_at: i64,
    pub vec_distance: Option<i64>,
    pub fts_score: Option<u64>,
}

/// A chat-message row of the vector or text index.
#[derive(Debug)]
pub struct MessageSearchResult {
    pub id: String,
    pub conversation_id: String,
    pub conversation_uuid: String,
    pub message_index: i64,
    pub role: String,
    pub content: String,
    pub created_at: Option<i64>,
    pub vec_distance: Option<i64>,
    pub fts_score: Option<u64>,
}

/// A conversation-summary row of the vector or text index.
#[derive(Debug)]
pub struct ConversationSearchResult {
    pub id: String,
    pub uuid: String,
    pub title: Option<String>,
    pub summary: Option<String>,
    pub source_uri: Option<String>,
    pub updated_at: i64,
    pub vec_distance: Option<i64>,
    pub fts_score: Option<u64>,
}

impl RankedHit for SearchResult {
    open spec fn hit_key(&self) -> Seq<char> {
        self.id@
    }

    open spec fn hit_distance(&self) -> Option<i64> {
        self.vec_distance
    }

    open spec fn hit_relevance(&self) -> Option<u64> {
        self.fts_score
    }

    open spec fn with_distance(&self, d: Option<i64>) -> Self {
        SearchResult { vec_distance: d, ..*self }
    }

    open spec fn with_relevance(&self, t: Option<u64>) -> Self {
        SearchResult { fts_score: t, ..*self }
    }

    proof fn lemma_signals(&self, d: Option<i64>, t: Option<u64>) {
    }

    fn key(&self) -> (r: &String) {
        &self.id
    }

    fn relevance(&self) -> (r: Option<u64>) {
        self.fts_score
    }

    fn replace_distance(self, d: Option<i64>) -> (r: Self) {
        SearchResult { vec_distance: d, ..self }
    }

    fn replace_relevance(self, t: Option<u64>) -> (r: Self) {
        SearchResult { fts_score: t, ..self }
    }
}

impl RankedHit for MessageSearchResult {
    open spec fn hit_key(&self) -> Seq<char> {
        self.id@
    }

    open spec fn hit_distance(&self) -> Option<i64> {
        self.vec_distance
    }

    open spec fn hit_relevance(&self) -> Option<u64> {
        self.fts_score
    }

    open spec fn with_distance(&self, d: Option<i64>) -> Self {
        MessageSearchResult { vec_distance: d, ..*self }
    }

    open spec fn with_relevance(&self, t: Option<u64>) -> Self {
        MessageSearchResult { fts_score: t, ..*self }
    }

    proof fn lemma_signals(&self, d: Option<i64>, t: Option<u64>) {
    }

    fn key(&self) -> (r: &String) {
        &self.id
    }

    fn relevance(&self) -> (r: Option<u64>) {
        self.fts_score
    }

    fn replace_distance(self, d: Option<i64>) -> (r: Self) {
        MessageSearchResult { vec_distance: d, ..self }
    }

    fn replace_relevance(self, t: Option<u64>) -> (r: Self) {
        MessageSearchResult { fts_score: t, ..self }
    }
}

impl RankedHit for ConversationSearchResult {
    open spec fn hit_key(&self) -> Seq<char> {
        self.id@
    }

    open spec fn hit_distance(&self) -> Option<i64> {
        self.vec_distance
    }

    open spec fn hit_relevance(&self) -> Option<u64> {
        self.fts_score
    }

    open spec fn with_distance(&self, d: Option<i64>) -> Self {
        ConversationSearchResult { vec_distance: d, ..*self }
    }

    open spec fn with_relevance(&self, t: Option<u64>) -> Self {
        ConversationSearchResult { fts_score: t, ..*self }
    }

    proof fn lemma_signals(&self, d: Option<i64>, t: Option<u64>) {
    }

    fn key(&self) -> (r: &String) {
        &self.id
    }

    fn relevance(&self) -> (r: Option<u64>) {
        self.fts_score
    }

    fn replace_distance(self, d: Option<i64>) -> (r: Self) {
        ConversationSearchResult { vec_distance: d, ..self }
    }

    fn replace_relevance(self, t: Option<u64>) -> (r: Self) {
        ConversationSearchResult { fts_score: t, ..self }
    }
}

/// The fused score under the calibrated default weights.
pub open spec fn default_score(distance: Option<i64>, text_score: Option<u64>) -> int {
    fused_score(
        FusionConfig {
            vector_weight: DEFAULT_VECTOR_WEIGHT,
            text_weight: DEFAULT_TEXT_WEIGHT,
            text_divisor: DEFAULT_TEXT_DIVISOR,
        },
        distance,
        text_score,
    )
}

/// Fuses a vector distance and a text relevance with the default weights.
pub fn rank_score(vec_distance: Option<i64>, fts_score: Option<u64>) -> (r: u64)
    ensures
        r == default_score(vec_distance, fts_score),
        r <= crate::fusion::SCORE_SCALE,
{
    let config = FusionConfig::standard();
    fuse(&config, vec_distance, fts_score)
}

pub open spec fn adapts_note(r: SearchResult, c: ScopedSearchResult) -> bool {
    &&& c.hit_type == SearchHitType::Note
    &&& c.id == r.id
    &&& c.title == r.title
    &&& c.content == r.content
    &&& c.created_at == Some(r.created_at)
    &&& c.score == default_score(r.vec_distance, r.fts_score)
    &&& c.conversation_uuid is None
    &&& c.message_index is None
    &&& c.role is None
}

/// `"<role> message #<index + 1>"`.
pub open spec fn message_title(role: Seq<char>, index: i64) -> Seq<char> {
    role + " message #"@ + int_text(index + 1)
}

pub open spec fn adapts_message(r: MessageSearchResult, c: ScopedSearchResult) -> bool {
    &&& c.hit_type == SearchHitType::Message
    &&& c.id == r.id
    &&& c.title is Some
    &&& c.title->0@ == message_title(r.role@, r.message_index)
    &&& c.content == r.content
    &&& c.created_at == r.created_at
    &&& c.score == default_score(r.vec_distance, r.fts_score)
    &&& c.conversation_uuid == Some(r.conversation_uuid)
    &&& c.message_index == Some(r.message_index)
    &&& c.role == Some(r.role)
}

/// `"Conversation <uuid>"`.
pub open spec fn conversation_title(uuid: Seq<char>) -> Seq<char> {
    "Conversation "@ + uuid
}

pub open spec fn adapts_conversation(r: ConversationSearchResult, c: ScopedSearchResult) -> bool {
    &&& c.hit_type == SearchHitType::ConversationSummary
    &&& c.id == r.id
    &&& c.title is Some
    &&& c.title->0@ == (match r.title {
        Some(t) => t@,
        None => conversation_title(r.uuid@),
    })
    &&& c.content@ == (match r.summary {
        Some(s) => s@,
        None => Seq::<char>::empty(),
    })
    &&& c.created_at == Some(r.updated_at)
    &&& c.score == default_score(r.vec_distance, r.fts_score)
    &&& c.conversation_uuid == Some(r.uuid)
    &&& c.message_index is None
    &&& c.role is None
}

/// The candidate of a note row.
pub fn from_note_result(result: SearchResult) -> (c: ScopedSearchResult)
    ensures
        adapts_note(result, c),
{
    let score = rank_score(result.vec_distance, result.fts_score);
    ScopedSearchResult {
        hit_type: SearchHitType::Note,
        id: result.id,
        title: result.title,
        content: result.content,
        created_at: Some(result.created_at),
        score,
        conversation_uuid: None,
        message_index: None,
        role: None,
    }
}

/// The candidate of a message row, titled after its role and 1-based position.
pub fn from_message_result(result: MessageSearchResult) -> (c: ScopedSearchResult)
    ensures
        adapts_message(result, c),
{
    let score = rank_score(result.vec_distance, result.fts_score);
    let number = decimal_text(result.message_index as i128 + 1);
    let title = result.role.clone().concat(" message #").concat(number.as_str());
    ScopedSearchResult {
        hit_type: SearchHitType::Message,
        id: result.id,
        title: Some(title),
        content: result.content,
        created_at: result.created_at,
        score,
        conversation_uuid: Some(result.conversation_uuid),
        message_index: Some(result.message_index),
        role: Some(result.role),
    }
}

/// The candidate of a conversation summary; an untitled conversation is
/// named after its uuid and a missing summary reads as empty text.
pub fn from_conversation_result(result: ConversationSearchResult) -> (c: ScopedSearchResult)
    ensures
        adapts_conversation(result, c),
{
    let score = rank_score(result.vec_distance, result.fts_score);
    let title = match result.title {
        Some(t) => t,
        None => String::from_str("Conversation ").concat(result.uuid.as_str()),
    };
    let content = match result.summary {
        Some(s) => s,
        None => String::new(),
    };
    ScopedSearchResult {
        hit_type: SearchHitType::ConversationSummary,
        id: result.id,
        title: Some(title),
        content,
        created_at: Some(result.updated_at),
        score,
        conversation_uuid: Some(result.uuid),
        message_index: None,
        role: None,
    }
}

} // verus!
