//! The data model: turns, memories, the four-level hierarchy, relations,
//! versions, sidecar records and context capsules, each with its view as
//! plain mathematical values.

use crate::dup::{dup_opt, dup_opt_vec, dup_vec, opt_seq_view, opt_view, seq_view, Dup};
use crate::ids::{
    AreaId, CapsuleId, MemoryId, ProjectId, RelationId, ThreadId, TopicId, TurnId, VersionId,
    WorkspaceId,
};
use vstd::prelude::*;

verus! {

/// The weight of a link, in millionths: a value between 0 and 1 inclusive.
#[derive(Debug, Clone, Copy, PartialEq, Eq, Structural)]
pub struct Strength {
    pub millionths: u32,
}

/// One whole, in millionths.
pub const STRENGTH_ONE: u32 = 1_000_000;

impl Strength {
    /// The weight lies between 0 and 1.
    pub open spec fn valid(self) -> bool {
        self.millionths <= STRENGTH_ONE
    }
}

impl View for Strength {
    type V = Strength;

    open spec fn view(&self) -> Strength {
        *self
    }
}

/// The application a turn came from.
#[derive(Debug, Clone, Copy, PartialEq, Eq, Structural)]
pub enum SourceApp {
    Claude,
    ChatGPT,
    VSCode,
    Mail,
    Notes,
    Terminal,
    Other,
}

impl SourceApp {
    /// The application's tag.
    pub open spec fn label(self) -> Seq<char> {
        match self {
            SourceApp::Claude => "chat-A"@,
            SourceApp::ChatGPT => "chat-B"@,
            SourceApp::VSCode => "editor"@,
            SourceApp::Mail => "mail"@,
            SourceApp::Notes => "notes"@,
            SourceApp::Terminal => "terminal"@,
            SourceApp::Other => "other"@,
        }
    }

    /// The application's tag.
    pub fn name(&self) -> (r: &'static str)
        ensures
            r@ == self.label(),
    {
        match self {
            SourceApp::Claude => "chat-A",
            SourceApp::ChatGPT => "chat-B",
            SourceApp::VSCode => "editor",
            SourceApp::Mail => "mail",
            SourceApp::Notes => "notes",
            SourceApp::Terminal => "terminal",
            SourceApp::Other => "other",
        }
    }
}

/// What sort of knowledge a memory holds.
#[derive(Debug, Clone, Copy, PartialEq, Eq, Structural)]
pub enum MemoryKind {
    Decision,
    Fact,
    Snippet,
    Task,
}

impl MemoryKind {
    /// The kind's wire name.
    pub open spec fn label(self) -> Seq<char> {
        match self {
            MemoryKind::Decision => "decision"@,
            MemoryKind::Fact => "fact"@,
            MemoryKind::Snippet => "snippet"@,
            MemoryKind::Task => "task"@,
        }
    }

    /// The kind's wire name.
    pub fn as_str(&self) -> (r: &'static str)
        ensures
            r@ == self.label(),
    {
        match self {
            MemoryKind::Decision => "decision",
            MemoryKind::Fact => "fact",
            MemoryKind::Snippet => "snippet",
            MemoryKind::Task => "task",
        }
    }
}

/// Who speaks in a capsule message.
#[derive(Debug, Clone, Copy, PartialEq, Eq, Structural)]
pub enum MessageRole {
    System,
    User,
    Assistant,
}

impl MessageRole {
    /// The role's wire name.
    pub open spec fn label(self) -> Seq<char> {
        match self {
            MessageRole::System => "system"@,
            MessageRole::User => "user"@,
            MessageRole::Assistant => "assistant"@,
        }
    }

    /// The role's wire name.
    pub fn as_str(&self) -> (r: &'static str)
        ensures
            r@ == self.label(),
    {
        match self {
            MessageRole::System => "system",
            MessageRole::User => "user",
            MessageRole::Assistant => "assistant",
        }
    }
}

/// What a provenance entry points at.
#[derive(Debug, Clone, Copy, PartialEq, Eq, Structural)]
pub enum ProvenanceType {
    Assistant,
    File,
    Page,
    Terminal,
    Memory,
}

impl ProvenanceType {
    /// The type's wire name.
    pub open spec fn label(self) -> Seq<char> {
        match self {
            ProvenanceType::Assistant => "assistant"@,
            ProvenanceType::File => "file"@,
            ProvenanceType::Page => "page"@,
            ProvenanceType::Terminal => "terminal"@,
            ProvenanceType::Memory => "memory"@,
        }
    }

    /// The type's wire name.
    pub fn as_str(&self) -> (r: &'static str)
        ensures
            r@ == self.label(),
    {
        match self {
            ProvenanceType::Assistant => "assistant",
            ProvenanceType::File => "file",
            ProvenanceType::Page => "page",
            ProvenanceType::Terminal => "terminal",
            ProvenanceType::Memory => "memory",
        }
    }
}

/// How much a capsule's preamble spells out.
#[derive(Debug, Clone, Copy, PartialEq, Eq, Structural)]
pub enum ContextStyle {
    Short,
    Standard,
    Detailed,
}

impl ContextStyle {
    /// The style's wire name.
    pub open spec fn label(self) -> Seq<char> {
        match self {
            ContextStyle::Short => "short"@,
            ContextStyle::Standard => "standard"@,
            ContextStyle::Detailed => "detailed"@,
        }
    }

    /// The style's wire name.
    pub fn as_str(&self) -> (r: &'static str)
        ensures
            r@ == self.label(),
    {
        match self {
            ContextStyle::Short => "short",
            ContextStyle::Standard => "standard",
            ContextStyle::Detailed => "detailed",
        }
    }
}

/// Where a project stands.
#[derive(Debug, Clone, Copy, PartialEq, Eq, Structural)]
pub enum ProjectStatus {
    Active,
    Archived,
    Planned,
}

impl ProjectStatus {
    /// The status's wire name.
    pub open spec fn label(self) -> Seq<char> {
        match self {
            ProjectStatus::Active => "active"@,
            ProjectStatus::Archived => "archived"@,
            ProjectStatus::Planned => "planned"@,
        }
    }

    /// The status's wire name.
    pub fn as_str(&self) -> (r: &'static str)
        ensures
            r@ == self.label(),
    {
        match self {
            ProjectStatus::Active => "active",
            ProjectStatus::Archived => "archived",
            ProjectStatus::Planned => "planned",
        }
    }
}

/// Where a memory stands in its lifecycle.
#[derive(Debug, Clone, Copy, PartialEq, Eq, Structural)]
pub enum MemoryStatus {
    Fleeting,
    Permanent,
    Archived,
    Deprecated,
}

impl MemoryStatus {
    /// The status's wire name.
    pub open spec fn label(self) -> Seq<char> {
        match self {
            MemoryStatus::Fleeting => "fleeting"@,
            MemoryStatus::Permanent => "permanent"@,
            MemoryStatus::Archived => "archived"@,
            MemoryStatus::Deprecated => "deprecated"@,
        }
    }

    /// The status's wire name.
    pub fn as_str(&self) -> (r: &'static str)
        ensures
            r@ == self.label(),
    {
        match self {
            MemoryStatus::Fleeting => "fleeting",
            MemoryStatus::Permanent => "permanent",
            MemoryStatus::Archived => "archived",
            MemoryStatus::Deprecated => "deprecated",
        }
    }
}

/// A coarse importance class.
#[derive(Debug, Clone, Copy, PartialEq, Eq, Structural)]
pub enum ImportanceLevel {
    Critical,
    High,
    Normal,
    Low,
}

impl ImportanceLevel {
    /// The level's wire name.
    pub open spec fn label(self) -> Seq<char> {
        match self {
            ImportanceLevel::Critical => "critical"@,
            ImportanceLevel::High => "high"@,
            ImportanceLevel::Normal => "normal"@,
            ImportanceLevel::Low => "low"@,
        }
    }

    /// The level's wire name.
    pub fn as_str(&self) -> (r: &'static str)
        ensures
            r@ == self.label(),
    {
        match self {
            ImportanceLevel::Critical => "critical",
            ImportanceLevel::High => "high",
            ImportanceLevel::Normal => "normal",
            ImportanceLevel::Low => "low",
        }
    }
}

/// The meaning of a directed relation between two memories.
#[derive(Debug, Clone, Copy, PartialEq, Eq, Structural)]
pub enum RelationType {
    Supersedes,
    Implements,
    Questions,
    RelatesTo,
    Contradicts,
    Exemplifies,
}

impl RelationType {
    /// The type's wire name.
    pub open spec fn label(self) -> Seq<char> {
        match self {
            RelationType::Supersedes => "supersedes"@,
            RelationType::Implements => "implements"@,
            RelationType::Questions => "questions"@,
            RelationType::RelatesTo => "relates_to"@,
            RelationType::Contradicts => "contradicts"@,
            RelationType::Exemplifies => "exemplifies"@,
        }
    }

    /// The type's wire name.
    pub fn as_str(&self) -> (r: &'static str)
        ensures
            r@ == self.label(),
    {
        match self {
            RelationType::Supersedes => "supersedes",
            RelationType::Implements => "implements",
            RelationType::Questions => "questions",
            RelationType::RelatesTo => "relates_to",
            RelationType::Contradicts => "contradicts",
            RelationType::Exemplifies => "exemplifies",
        }
    }
}

/// Where a turn was captured.
#[derive(Debug)]
pub struct TurnSource {
    pub app: SourceApp,
    pub url: Option<String>,
    pub path: Option<String>,
}

/// The value of a [`TurnSource`].
pub struct TurnSourceView {
    pub app: SourceApp,
    pub url: Option<Seq<char>>,
    pub path: Option<Seq<char>>,
}

impl View for TurnSource {
    type V = TurnSourceView;

    open spec fn view(&self) -> TurnSourceView {
        TurnSourceView {
            app: self.app,
            url: opt_view(self.url),
            path: opt_view(self.path),
        }
    }
}

impl Dup for TurnSource {
    fn dup(&self) -> (r: Self) {
        TurnSource {
            app: self.app,
            url: dup_opt(&self.url),
            path: dup_opt(&self.path),
        }
    }
}

impl Clone for TurnSource {
    fn clone(&self) -> (r: Self)
        ensures
            r@ == self@,
    {
        self.dup()
    }
}

/// One conversational event, immutable once stored.
#[derive(Debug)]
pub struct Turn {
    pub id: TurnId,
    pub thread_id: ThreadId,
    pub ts_user: String,
    pub user_text: String,
    pub ts_ai: Option<String>,
    pub ai_text: Option<String>,
    pub source: TurnSource,
}

/// The value of a [`Turn`].
pub struct TurnView {
    pub id: Seq<char>,
    pub thread_id: Seq<char>,
    pub ts_user: Seq<char>,
    pub user_text: Seq<char>,
    pub ts_ai: Option<Seq<char>>,
    pub ai_text: Option<Seq<char>>,
    pub source: TurnSourceView,
}

impl View for Turn {
    type V = TurnView;

    open spec fn view(&self) -> TurnView {
        TurnView {
            id: self.id@,
            thread_id: self.thread_id@,
            ts_user: self.ts_user@,
            user_text: self.user_text@,
            ts_ai: opt_view(self.ts_ai),
            ai_text: opt_view(self.ai_text),
            source: self.source@,
        }
    }
}

impl Dup for Turn {
    fn dup(&self) -> (r: Self) {
        Turn {
            id: self.id.dup(),
            thread_id: self.thread_id.dup(),
            ts_user: self.ts_user.dup(),
            user_text: self.user_text.dup(),
            ts_ai: dup_opt(&self.ts_ai),
            ai_text: dup_opt(&self.ai_text),
            source: self.source.dup(),
        }
    }
}

impl Clone for Turn {
    fn clone(&self) -> (r: Self)
        ensures
            r@ == self@,
    {
        self.dup()
    }
}

/// A piece of code carried by a memory.
#[derive(Debug)]
pub struct Snippet {
    pub title: String,
    pub text: String,
    pub loc: Option<String>,
    pub language: Option<String>,
}

/// The value of a [`Snippet`].
pub struct SnippetView {
    pub title: Seq<char>,
    pub text: Seq<char>,
    pub loc: Option<Seq<char>>,
    pub language: Option<Seq<char>>,
}

impl View for Snippet {
    type V = SnippetView;

    open spec fn view(&self) -> SnippetView {
        SnippetView {
            title: self.title@,
            text: self.text@,
            loc: opt_view(self.loc),
            language: opt_view(self.language),
        }
    }
}

impl Dup for Snippet {
    fn dup(&self) -> (r: Self) {
        Snippet {
            title: self.title.dup(),
            text: self.text.dup(),
            loc: dup_opt(&self.loc),
            language: dup_opt(&self.language),
        }
    }
}

impl Clone for Snippet {
    fn clone(&self) -> (r: Self)
        ensures
            r@ == self@,
    {
        self.dup()
    }
}

/// A distilled piece of knowledge.
#[derive(Debug)]
pub struct Memory {
    pub id: MemoryId,
    pub kind: MemoryKind,
    pub topic: String,
    pub text: String,
    pub snippet: Option<Snippet>,
    pub entities: Vec<String>,
    pub provenance: Vec<TurnId>,
    pub created_at: String,
    pub ttl: Option<u64>,
    pub topic_id: Option<TopicId>,
}

/// The value of a [`Memory`].
pub struct MemoryView {
    pub id: Seq<char>,
    pub kind: MemoryKind,
    pub topic: Seq<char>,
    pub text: Seq<char>,
    pub snippet: Option<SnippetView>,
    pub entities: Seq<Seq<char>>,
    pub provenance: Seq<Seq<char>>,
    pub created_at: Seq<char>,
    pub ttl: Option<u64>,
    pub topic_id: Option<Seq<char>>,
}

impl View for Memory {
    type V = MemoryView;

    open spec fn view(&self) -> MemoryView {
        MemoryView {
            id: self.id@,
            kind: self.kind,
            topic: self.topic@,
            text: self.text@,
            snippet: opt_view(self.snippet),
            entities: seq_view(self.entities@),
            provenance: seq_view(self.provenance@),
            created_at: self.created_at@,
            ttl: self.ttl,
            topic_id: opt_view(self.topic_id),
        }
    }
}

impl Dup for Memory {
    fn dup(&self) -> (r: Self) {
        Memory {
            id: self.id.dup(),
            kind: self.kind,
            topic: self.topic.dup(),
            text: self.text.dup(),
            snippet: dup_opt(&self.snippet),
            entities: dup_vec(&self.entities),
            provenance: dup_vec(&self.provenance),
            created_at: self.created_at.dup(),
            ttl: self.ttl,
            topic_id: dup_opt(&self.topic_id),
        }
    }
}

impl Clone for Memory {
    fn clone(&self) -> (r: Self)
        ensures
            r@ == self@,
    {
        self.dup()
    }
}

/// A weighted link from one memory's sidecar record to another memory.
#[derive(Debug)]
pub struct AgenticLink {
    pub target: MemoryId,
    pub strength: Strength,
    pub rationale: Option<String>,
}

/// The value of a [`AgenticLink`].
pub struct AgenticLinkView {
    pub target: Seq<char>,
    pub strength: Strength,
    pub rationale: Option<Seq<char>>,
}

impl View for AgenticLink {
    type V = AgenticLinkView;

    open spec fn view(&self) -> AgenticLinkView {
        AgenticLinkView {
            target: self.target@,
            strength: self.strength,
            rationale: opt_view(self.rationale),
        }
    }
}

impl Dup for AgenticLink {
    fn dup(&self) -> (r: Self) {
        AgenticLink {
            target: self.target.dup(),
            strength: self.strength,
            rationale: dup_opt(&self.rationale),
        }
    }
}

impl Clone for AgenticLink {
    fn clone(&self) -> (r: Self)
        ensures
            r@ == self@,
    {
        self.dup()
    }
}

/// One entry of a sidecar record's history.
#[derive(Debug)]
pub struct AgenticEvolution {
    pub timestamp: String,
    pub summary: String,
    pub changes: Option<Vec<String>>,
}

/// The value of a [`AgenticEvolution`].
pub struct AgenticEvolutionView {
    pub timestamp: Seq<char>,
    pub summary: Seq<char>,
    pub changes: Option<Seq<Seq<char>>>,
}

impl View for AgenticEvolution {
    type V = AgenticEvolutionView;

    open spec fn view(&self) -> AgenticEvolutionView {
        AgenticEvolutionView {
            timestamp: self.timestamp@,
            summary: self.summary@,
            changes: opt_seq_view(self.changes),
        }
    }
}

impl Dup for AgenticEvolution {
    fn dup(&self) -> (r: Self) {
        AgenticEvolution {
            timestamp: self.timestamp.dup(),
            summary: self.summary.dup(),
            changes: dup_opt_vec(&self.changes),
        }
    }
}

impl Clone for AgenticEvolution {
    fn clone(&self) -> (r: Self)
        ensures
            r@ == self@,
    {
        self.dup()
    }
}

/// The sidecar record of derived metadata kept for a memory.
#[derive(Debug)]
pub struct AgenticMemory {
    pub id: MemoryId,
    pub content: String,
    pub context: String,
    pub keywords: Vec<String>,
    pub tags: Vec<String>,
    pub category: Option<String>,
    pub links: Vec<AgenticLink>,
    pub retrieval_count: u32,
    pub last_accessed: String,
    pub created_at: String,
    pub evolution_history: Vec<AgenticEvolution>,
}

/// The value of a [`AgenticMemory`].
pub struct AgenticMemoryView {
    pub id: Seq<char>,
    pub content: Seq<char>,
    pub context: Seq<char>,
    pub keywords: Seq<Seq<char>>,
    pub tags: Seq<Seq<char>>,
    pub category: Option<Seq<char>>,
    pub links: Seq<AgenticLinkView>,
    pub retrieval_count: u32,
    pub last_accessed: Seq<char>,
    pub created_at: Seq<char>,
    pub evolution_history: Seq<AgenticEvolutionView>,
}

impl View for AgenticMemory {
    type V = AgenticMemoryView;

    open spec fn view(&self) -> AgenticMemoryView {
        AgenticMemoryView {
            id: self.id@,
            content: self.content@,
            context: self.context@,
            keywords: seq_view(self.keywords@),
            tags: seq_view(self.tags@),
            category: opt_view(self.category),
            links: seq_view(self.links@),
            retrieval_count: self.retrieval_count,
            last_accessed: self.last_accessed@,
            created_at: self.created_at@,
            evolution_history: seq_view(self.evolution_history@),
        }
    }
}

impl Dup for AgenticMemory {
    fn dup(&self) -> (r: Self) {
        AgenticMemory {
            id: self.id.dup(),
            content: self.content.dup(),
            context: self.context.dup(),
            keywords: dup_vec(&self.keywords),
            tags: dup_vec(&self.tags),
            category: dup_opt(&self.category),
            links: dup_vec(&self.links),
            retrieval_count: self.retrieval_count,
            last_accessed: self.last_accessed.dup(),
            created_at: self.created_at.dup(),
            evolution_history: dup_vec(&self.evolution_history),
        }
    }
}

impl Clone for AgenticMemory {
    fn clone(&self) -> (r: Self)
        ensures
            r@ == self@,
    {
        self.dup()
    }
}

/// One message of a capsule.
#[derive(Debug)]
pub struct Message {
    pub role: MessageRole,
    pub content: String,
}

/// The value of a [`Message`].
pub struct MessageView {
    pub role: MessageRole,
    pub content: Seq<char>,
}

impl View for Message {
    type V = MessageView;

    open spec fn view(&self) -> MessageView {
        MessageView {
            role: self.role,
            content: self.content@,
        }
    }
}

impl Dup for Message {
    fn dup(&self) -> (r: Self) {
        Message {
            role: self.role,
            content: self.content.dup(),
        }
    }
}

impl Clone for Message {
    fn clone(&self) -> (r: Self)
        ensures
            r@ == self@,
    {
        self.dup()
    }
}

/// Where a capsule's content came from.
#[derive(Debug)]
pub struct ProvenanceItem {
    pub kind: ProvenanceType,
    pub reference: String,
    pub when: Option<String>,
}

/// The value of a [`ProvenanceItem`].
pub struct ProvenanceItemView {
    pub kind: ProvenanceType,
    pub reference: Seq<char>,
    pub when: Option<Seq<char>>,
}

impl View for ProvenanceItem {
    type V = ProvenanceItemView;

    open spec fn view(&self) -> ProvenanceItemView {
        ProvenanceItemView {
            kind: self.kind,
            reference: self.reference@,
            when: opt_view(self.when),
        }
    }
}

impl Dup for ProvenanceItem {
    fn dup(&self) -> (r: Self) {
        ProvenanceItem {
            kind: self.kind,
            reference: self.reference.dup(),
            when: dup_opt(&self.when),
        }
    }
}

impl Clone for ProvenanceItem {
    fn clone(&self) -> (r: Self)
        ensures
            r@ == self@,
    {
        self.dup()
    }
}

/// A token-budgeted preamble with its bookkeeping.
#[derive(Debug)]
pub struct ContextCapsule {
    pub capsule_id: CapsuleId,
    pub preamble_text: String,
    pub messages: Vec<Message>,
    pub provenance: Vec<ProvenanceItem>,
    pub delta_of: Option<CapsuleId>,
    pub ttl_sec: u64,
    pub token_count: Option<u64>,
    pub style: Option<ContextStyle>,
}

/// The value of a [`ContextCapsule`].
pub struct ContextCapsuleView {
    pub capsule_id: Seq<char>,
    pub preamble_text: Seq<char>,
    pub messages: Seq<MessageView>,
    pub provenance: Seq<ProvenanceItemView>,
    pub delta_of: Option<Seq<char>>,
    pub ttl_sec: u64,
    pub token_count: Option<u64>,
    pub style: Option<ContextStyle>,
}

impl View for ContextCapsule {
    type V = ContextCapsuleView;

    open spec fn view(&self) -> ContextCapsuleView {
        ContextCapsuleView {
            capsule_id: self.capsule_id@,
            preamble_text: self.preamble_text@,
            messages: seq_view(self.messages@),
            provenance: seq_view(self.provenance@),
            delta_of: opt_view(self.delta_of),
            ttl_sec: self.ttl_sec,
            token_count: self.token_count,
            style: self.style,
        }
    }
}

impl Dup for ContextCapsule {
    fn dup(&self) -> (r: Self) {
        ContextCapsule {
            capsule_id: self.capsule_id.dup(),
            preamble_text: self.preamble_text.dup(),
            messages: dup_vec(&self.messages),
            provenance: dup_vec(&self.provenance),
            delta_of: dup_opt(&self.delta_of),
            ttl_sec: self.ttl_sec,
            token_count: self.token_count,
            style: self.style,
        }
    }
}

impl Clone for ContextCapsule {
    fn clone(&self) -> (r: Self)
        ensures
            r@ == self@,
    {
        self.dup()
    }
}

/// A request for a context capsule.
#[derive(Debug)]
pub struct ContextRequest {
    pub topic_hint: Option<String>,
    pub intent: Option<String>,
    pub budget_tokens: u64,
    pub scopes: Vec<String>,
    pub thread_key: Option<String>,
    pub last_capsule_id: Option<CapsuleId>,
}

/// The value of a [`ContextRequest`].
pub struct ContextRequestView {
    pub topic_hint: Option<Seq<char>>,
    pub intent: Option<Seq<char>>,
    pub budget_tokens: u64,
    pub scopes: Seq<Seq<char>>,
    pub thread_key: Option<Seq<char>>,
    pub last_capsule_id: Option<Seq<char>>,
}

impl View for ContextRequest {
    type V = ContextRequestView;

    open spec fn view(&self) -> ContextRequestView {
        ContextRequestView {
            topic_hint: opt_view(self.topic_hint),
            intent: opt_view(self.intent),
            budget_tokens: self.budget_tokens,
            scopes: seq_view(self.scopes@),
            thread_key: opt_view(self.thread_key),
            last_capsule_id: opt_view(self.last_capsule_id),
        }
    }
}

impl Dup for ContextRequest {
    fn dup(&self) -> (r: Self) {
        ContextRequest {
            topic_hint: dup_opt(&self.topic_hint),
            intent: dup_opt(&self.intent),
            budget_tokens: self.budget_tokens,
            scopes: dup_vec(&self.scopes),
            thread_key: dup_opt(&self.thread_key),
            last_capsule_id: dup_opt(&self.last_capsule_id),
        }
    }
}

impl Clone for ContextRequest {
    fn clone(&self) -> (r: Self)
        ensures
            r@ == self@,
    {
        self.dup()
    }
}

/// A request to withdraw a capsule.
#[derive(Debug)]
pub struct UndoRequest {
    pub capsule_id: CapsuleId,
    pub thread_key: String,
}

/// The value of a [`UndoRequest`].
pub struct UndoRequestView {
    pub capsule_id: Seq<char>,
    pub thread_key: Seq<char>,
}

impl View for UndoRequest {
    type V = UndoRequestView;

    open spec fn view(&self) -> UndoRequestView {
        UndoRequestView {
            capsule_id: self.capsule_id@,
            thread_key: self.thread_key@,
        }
    }
}

impl Dup for UndoRequest {
    fn dup(&self) -> (r: Self) {
        UndoRequest {
            capsule_id: self.capsule_id.dup(),
            thread_key: self.thread_key.dup(),
        }
    }
}

impl Clone for UndoRequest {
    fn clone(&self) -> (r: Self)
        ensures
            r@ == self@,
    {
        self.dup()
    }
}

/// The answer to an undo request.
#[derive(Debug)]
pub struct UndoResponse {
    pub success: bool,
    pub message: Option<String>,
}

/// The value of a [`UndoResponse`].
pub struct UndoResponseView {
    pub success: bool,
    pub message: Option<Seq<char>>,
}

impl View for UndoResponse {
    type V = UndoResponseView;

    open spec fn view(&self) -> UndoResponseView {
        UndoResponseView {
            success: self.success,
            message: opt_view(self.message),
        }
    }
}

impl Dup for UndoResponse {
    fn dup(&self) -> (r: Self) {
        UndoResponse {
            success: self.success,
            message: dup_opt(&self.message),
        }
    }
}

impl Clone for UndoResponse {
    fn clone(&self) -> (r: Self)
        ensures
            r@ == self@,
    {
        self.dup()
    }
}

/// Top level of the hierarchy.
#[derive(Debug)]
pub struct Workspace {
    pub id: WorkspaceId,
    pub name: String,
    pub description: Option<String>,
    pub created_at: String,
    pub updated_at: String,
}

/// The value of a [`Workspace`].
pub struct WorkspaceView {
    pub id: Seq<char>,
    pub name: Seq<char>,
    pub description: Option<Seq<char>>,
    pub created_at: Seq<char>,
    pub updated_at: Seq<char>,
}

impl View for Workspace {
    type V = WorkspaceView;

    open spec fn view(&self) -> WorkspaceView {
        WorkspaceView {
            id: self.id@,
            name: self.name@,
            description: opt_view(self.description),
            created_at: self.created_at@,
            updated_at: self.updated_at@,
        }
    }
}

impl Dup for Workspace {
    fn dup(&self) -> (r: Self) {
        Workspace {
            id: self.id.dup(),
            name: self.name.dup(),
            description: dup_opt(&self.description),
            created_at: self.created_at.dup(),
            updated_at: self.updated_at.dup(),
        }
    }
}

impl Clone for Workspace {
    fn clone(&self) -> (r: Self)
        ensures
            r@ == self@,
    {
        self.dup()
    }
}

/// Second level of the hierarchy, inside a workspace.
#[derive(Debug)]
pub struct Project {
    pub id: ProjectId,
    pub workspace_id: WorkspaceId,
    pub name: String,
    pub description: Option<String>,
    pub status: ProjectStatus,
    pub created_at: String,
    pub updated_at: String,
}

/// The value of a [`Project`].
pub struct ProjectView {
    pub id: Seq<char>,
    pub workspace_id: Seq<char>,
    pub name: Seq<char>,
    pub description: Option<Seq<char>>,
    pub status: ProjectStatus,
    pub created_at: Seq<char>,
    pub updated_at: Seq<char>,
}

impl View for Project {
    type V = ProjectView;

    open spec fn view(&self) -> ProjectView {
        ProjectView {
            id: self.id@,
            workspace_id: self.workspace_id@,
            name: self.name@,
            description: opt_view(self.description),
            status: self.status,
            created_at: self.created_at@,
            updated_at: self.updated_at@,
        }
    }
}

impl Dup for Project {
    fn dup(&self) -> (r: Self) {
        Project {
            id: self.id.dup(),
            workspace_id: self.workspace_id.dup(),
            name: self.name.dup(),
            description: dup_opt(&self.description),
            status: self.status,
            created_at: self.created_at.dup(),
            updated_at: self.updated_at.dup(),
        }
    }
}

impl Clone for Project {
    fn clone(&self) -> (r: Self)
        ensures
            r@ == self@,
    {
        self.dup()
    }
}

/// Third level of the hierarchy, inside a project.
#[derive(Debug)]
pub struct Area {
    pub id: AreaId,
    pub project_id: ProjectId,
    pub name: String,
    pub description: Option<String>,
    pub created_at: String,
    pub updated_at: String,
}

/// The value of a [`Area`].
pub struct AreaView {
    pub id: Seq<char>,
    pub project_id: Seq<char>,
    pub name: Seq<char>,
    pub description: Option<Seq<char>>,
    pub created_at: Seq<char>,
    pub updated_at: Seq<char>,
}

impl View for Area {
    type V = AreaView;

    open spec fn view(&self) -> AreaView {
        AreaView {
            id: self.id@,
            project_id: self.project_id@,
            name: self.name@,
            description: opt_view(self.description),
            created_at: self.created_at@,
            updated_at: self.updated_at@,
        }
    }
}

impl Dup for Area {
    fn dup(&self) -> (r: Self) {
        Area {
            id: self.id.dup(),
            project_id: self.project_id.dup(),
            name: self.name.dup(),
            description: dup_opt(&self.description),
            created_at: self.created_at.dup(),
            updated_at: self.updated_at.dup(),
        }
    }
}

impl Clone for Area {
    fn clone(&self) -> (r: Self)
        ensures
            r@ == self@,
    {
        self.dup()
    }
}

/// Fourth level of the hierarchy, inside an area.
#[derive(Debug)]
pub struct Topic {
    pub id: TopicId,
    pub area_id: AreaId,
    pub name: String,
    pub description: Option<String>,
    pub is_index_note: bool,
    pub summary: Option<String>,
    pub created_at: String,
    pub updated_at: String,
}

/// The value of a [`Topic`].
pub struct TopicView {
    pub id: Seq<char>,
    pub area_id: Seq<char>,
    pub name: Seq<char>,
    pub description: Option<Seq<char>>,
    pub is_index_note: bool,
    pub summary: Option<Seq<char>>,
    pub created_at: Seq<char>,
    pub updated_at: Seq<char>,
}

impl View for Topic {
    type V = TopicView;

    open spec fn view(&self) -> TopicView {
        TopicView {
            id: self.id@,
            area_id: self.area_id@,
            name: self.name@,
            description: opt_view(self.description),
            is_index_note: self.is_index_note,
            summary: opt_view(self.summary),
            created_at: self.created_at@,
            updated_at: self.updated_at@,
        }
    }
}

impl Dup for Topic {
    fn dup(&self) -> (r: Self) {
        Topic {
            id: self.id.dup(),
            area_id: self.area_id.dup(),
            name: self.name.dup(),
            description: dup_opt(&self.description),
            is_index_note: self.is_index_note,
            summary: dup_opt(&self.summary),
            created_at: self.created_at.dup(),
            updated_at: self.updated_at.dup(),
        }
    }
}

impl Clone for Topic {
    fn clone(&self) -> (r: Self)
        ensures
            r@ == self@,
    {
        self.dup()
    }
}

/// A typed directed edge between two memories.
#[derive(Debug)]
pub struct MemoryRelation {
    pub id: RelationId,
    pub source_id: MemoryId,
    pub target_id: MemoryId,
    pub relation_type: RelationType,
    pub rationale: Option<String>,
    pub created_at: String,
}

/// The value of a [`MemoryRelation`].
pub struct MemoryRelationView {
    pub id: Seq<char>,
    pub source_id: Seq<char>,
    pub target_id: Seq<char>,
    pub relation_type: RelationType,
    pub rationale: Option<Seq<char>>,
    pub created_at: Seq<char>,
}

impl View for MemoryRelation {
    type V = MemoryRelationView;

    open spec fn view(&self) -> MemoryRelationView {
        MemoryRelationView {
            id: self.id@,
            source_id: self.source_id@,
            target_id: self.target_id@,
            relation_type: self.relation_type,
            rationale: opt_view(self.rationale),
            created_at: self.created_at@,
        }
    }
}

impl Dup for MemoryRelation {
    fn dup(&self) -> (r: Self) {
        MemoryRelation {
            id: self.id.dup(),
            source_id: self.source_id.dup(),
            target_id: self.target_id.dup(),
            relation_type: self.relation_type,
            rationale: dup_opt(&self.rationale),
            created_at: self.created_at.dup(),
        }
    }
}

impl Clone for MemoryRelation {
    fn clone(&self) -> (r: Self)
        ensures
            r@ == self@,
    {
        self.dup()
    }
}

/// A snapshot of a memory's earlier content.
#[derive(Debug)]
pub struct MemoryVersion {
    pub id: VersionId,
    pub memory_id: MemoryId,
    pub content: String,
    pub version_number: u32,
    pub change_summary: Option<String>,
    pub created_at: String,
}

/// The value of a [`MemoryVersion`].
pub struct MemoryVersionView {
    pub id: Seq<char>,
    pub memory_id: Seq<char>,
    pub content: Seq<char>,
    pub version_number: u32,
    pub change_summary: Option<Seq<char>>,
    pub created_at: Seq<char>,
}

impl View for MemoryVersion {
    type V = MemoryVersionView;

    open spec fn view(&self) -> MemoryVersionView {
        MemoryVersionView {
            id: self.id@,
            memory_id: self.memory_id@,
            content: self.content@,
            version_number: self.version_number,
            change_summary: opt_view(self.change_summary),
            created_at: self.created_at@,
        }
    }
}

impl Dup for MemoryVersion {
    fn dup(&self) -> (r: Self) {
        MemoryVersion {
            id: self.id.dup(),
            memory_id: self.memory_id.dup(),
            content: self.content.dup(),
            version_number: self.version_number,
            change_summary: dup_opt(&self.change_summary),
            created_at: self.created_at.dup(),
        }
    }
}

impl Clone for MemoryVersion {
    fn clone(&self) -> (r: Self)
        ensures
            r@ == self@,
    {
        self.dup()
    }
}

} // verus!
