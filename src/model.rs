//! Closed vocabularies of the knowledge base and their stored names.
use vstd::prelude::*;

verus! {

/// The kind of a relationship between two notes.
#[derive(Clone, Copy, Debug, PartialEq, Eq, Structural)]
pub enum EdgeType {
    Supports,
    Contradicts,
    DerivedFrom,
    References,
    RelatedTo,
    Mentions,
    TaggedWith,
}

pub open spec fn label_of_edge_type(t: EdgeType) -> Seq<char> {
    match t {
        EdgeType::Supports => "supports"@,
        EdgeType::Contradicts => "contradicts"@,
        EdgeType::DerivedFrom => "derived_from"@,
        EdgeType::References => "references"@,
        EdgeType::RelatedTo => "related_to"@,
        EdgeType::Mentions => "mentions"@,
        EdgeType::TaggedWith => "tagged_with"@,
    }
}

impl EdgeType {
    /// The stored name of this value.
    pub fn as_str(&self) -> (r: &'static str)
        ensures
            r@ == label_of_edge_type(*self),
    {
        match self {
            EdgeType::Supports => "supports",
            EdgeType::Contradicts => "contradicts",
            EdgeType::DerivedFrom => "derived_from",
            EdgeType::References => "references",
            EdgeType::RelatedTo => "related_to",
            EdgeType::Mentions => "mentions",
            EdgeType::TaggedWith => "tagged_with",
        }
    }
}

/// The classification of an extracted entity.
#[derive(Clone, Copy, Debug, PartialEq, Eq, Structural)]
pub enum EntityType {
    Person,
    Organization,
    Concept,
    Project,
    Technology,
    Location,
    Date,
    Other,
}

pub open spec fn label_of_entity_type(t: EntityType) -> Seq<char> {
    match t {
        EntityType::Person => "person"@,
        EntityType::Organization => "organization"@,
        EntityType::Concept => "concept"@,
        EntityType::Project => "project"@,
        EntityType::Technology => "technology"@,
        EntityType::Location => "location"@,
        EntityType::Date => "date"@,
        EntityType::Other => "other"@,
    }
}

impl EntityType {
    /// The stored name of this value.
    pub fn as_str(&self) -> (r: &'static str)
        ensures
            r@ == label_of_entity_type(*self),
    {
        match self {
            EntityType::Person => "person",
            EntityType::Organization => "organization",
            EntityType::Concept => "concept",
            EntityType::Project => "project",
            EntityType::Technology => "technology",
            EntityType::Location => "location",
            EntityType::Date => "date",
            EntityType::Other => "other",
        }
    }
}

impl Default for EntityType {
    fn default() -> (r: EntityType)
        ensures
            r == EntityType::Other,
    {
        EntityType::Other
    }
}

/// The classification of a note.
#[derive(Clone, Copy, Debug, PartialEq, Eq, Structural)]
pub enum NoteType {
    Claim,
    Definition,
    Observation,
    Question,
    Synthesis,
    Raw,
}

pub open spec fn label_of_note_type(t: NoteType) -> Seq<char> {
    match t {
        NoteType::Claim => "claim"@,
        NoteType::Definition => "definition"@,
        NoteType::Observation => "observation"@,
        NoteType::Question => "question"@,
        NoteType::Synthesis => "synthesis"@,
        NoteType::Raw => "raw"@,
    }
}

impl NoteType {
    /// The stored name of this value.
    pub fn as_str(&self) -> (r: &'static str)
        ensures
            r@ == label_of_note_type(*self),
    {
        match self {
            NoteType::Claim => "claim",
            NoteType::Definition => "definition",
            NoteType::Observation => "observation",
            NoteType::Question => "question",
            NoteType::Synthesis => "synthesis",
            NoteType::Raw => "raw",
        }
    }
}

impl Default for NoteType {
    fn default() -> (r: NoteType)
        ensures
            r == NoteType::Raw,
    {
        NoteType::Raw
    }
}

/// Where the content of a note came from.
#[derive(Clone, Copy, Debug, PartialEq, Eq, Structural)]
pub enum SourceType {
    Manual,
    Markdown,
    Text,
    Url,
    Pdf,
    Voice,
    ChatExport,
}

pub open spec fn label_of_source_type(t: SourceType) -> Seq<char> {
    match t {
        SourceType::Manual => "manual"@,
        SourceType::Markdown => "markdown"@,
        SourceType::Text => "text"@,
        SourceType::Url => "url"@,
        SourceType::Pdf => "pdf"@,
        SourceType::Voice => "voice"@,
        SourceType::ChatExport => "chat_export"@,
    }
}

impl SourceType {
    /// The stored name of this value.
    pub fn as_str(&self) -> (r: &'static str)
        ensures
            r@ == label_of_source_type(*self),
    {
        match self {
            SourceType::Manual => "manual",
            SourceType::Markdown => "markdown",
            SourceType::Text => "text",
            SourceType::Url => "url",
            SourceType::Pdf => "pdf",
            SourceType::Voice => "voice",
            SourceType::ChatExport => "chat_export",
        }
    }
}

impl Default for SourceType {
    fn default() -> (r: SourceType)
        ensures
            r == SourceType::Manual,
    {
        SourceType::Manual
    }
}

/// Who wrote a chat message.
#[derive(Clone, Copy, Debug, PartialEq, Eq, Structural)]
pub enum MessageRole {
    Human,
    Assistant,
    System,
}

pub open spec fn label_of_message_role(t: MessageRole) -> Seq<char> {
    match t {
        MessageRole::Human => "human"@,
        MessageRole::Assistant => "assistant"@,
        MessageRole::System => "system"@,
    }
}

impl MessageRole {
    /// The stored name of this value.
    pub fn as_str(&self) -> (r: &'static str)
        ensures
            r@ == label_of_message_role(*self),
    {
        match self {
            MessageRole::Human => "human",
            MessageRole::Assistant => "assistant",
            MessageRole::System => "system",
        }
    }
}

/// How imported conversations become notes.
#[derive(Clone, Copy, Debug, PartialEq, Eq, Structural)]
pub enum ChatImportMode {
    Qa,
    Message,
    Hybrid,
}

pub open spec fn label_of_chat_import_mode(t: ChatImportMode) -> Seq<char> {
    match t {
        ChatImportMode::Qa => "qa"@,
        ChatImportMode::Message => "message"@,
        ChatImportMode::Hybrid => "hybrid"@,
    }
}

impl ChatImportMode {
    /// The stored name of this value.
    pub fn as_str(&self) -> (r: &'static str)
        ensures
            r@ == label_of_chat_import_mode(*self),
    {
        match self {
            ChatImportMode::Qa => "qa",
            ChatImportMode::Message => "message",
            ChatImportMode::Hybrid => "hybrid",
        }
    }
}

} // verus!
