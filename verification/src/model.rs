//! The data model: entity and relation tag sets, documents, extraction
//! results, agent status records, and the request/response envelopes.
//!
//! Three representation choices run through the whole crate:
//! identifiers are the 128-bit value of a UUID, timestamps are milliseconds
//! since the Unix epoch, and confidence scores are thousandths of the
//! interval [0, 1].

use vstd::prelude::*;

use crate::text::{eq_bytes, str_bytes};

verus! {

/// Confidence scores live in the closed interval [0, 1]; the library carries
/// them as thousandths, so a score of 0.85 is stored as 850.
pub const CONFIDENCE_UNIT: u32 = 1000;

/// The clamp of a raw thousandths value into [0, 1000].
pub open spec fn spec_clamp(raw: int) -> int {
    if raw < 0 {
        0
    } else if raw > CONFIDENCE_UNIT {
        CONFIDENCE_UNIT as int
    } else {
        raw
    }
}

/// Clamp a raw thousandths value into the valid confidence range [0, 1000].
pub fn clamp_confidence(raw: i64) -> (c: u32)
    ensures
        c == spec_clamp(raw as int),
        c <= CONFIDENCE_UNIT,
        raw < 0 ==> c == 0,
        raw > CONFIDENCE_UNIT ==> c == CONFIDENCE_UNIT,
        0 <= raw <= CONFIDENCE_UNIT ==> c == raw,
{
    if raw < 0 {
        0
    } else if raw > CONFIDENCE_UNIT as i64 {
        CONFIDENCE_UNIT
    } else {
        raw as u32
    }
}

/// The confidence given to an entity or relationship when none is stated.
pub fn default_confidence() -> (c: u32)
    ensures
        c == CONFIDENCE_UNIT,
{
    CONFIDENCE_UNIT
}

/// The page size used by search and timeline requests when none is given.
pub fn default_limit() -> (n: usize)
    ensures
        n == 20,
{
    20
}

// ── Errors ─────────────────────────────────────────────────────────────────

/// The error taxonomy.  Outside error values are carried as their display
/// text; the boundary code turns them into these variants.
#[derive(Debug, Clone)]
pub enum ArgusError {
    Http(String),
    Json(String),
    Graph(String),
    Extraction(String),
    Reasoning(String),
    Config(String),
    Agent { agent: String, message: String },
    NotFound(String),
    Internal(String),
}

// ── Tag sets ───────────────────────────────────────────────────────────────

#[derive(Debug, Clone, Copy, PartialEq, Eq, Hash, Structural)]
pub enum EntityType {
    Person,
    Organization,
    Vessel,
    Aircraft,
    Location,
    Event,
    Document,
    Transaction,
    Sanction,
}

#[derive(Debug, Clone, Copy, PartialEq, Eq, Hash, Structural)]
pub enum RelationType {
    OwnerOf,
    DirectorOf,
    EmployeeOf,
    RelatedTo,
    LocatedAt,
    TransactedWith,
    SanctionedBy,
    RegisteredIn,
    FlaggedAs,
    MeetingWith,
    TraveledTo,
    PartOf,
}

// ── Core records ───────────────────────────────────────────────────────────

/// The neutral hand-off between collection and extraction: one record per
/// upstream item, identified by (source, source_id).
#[derive(Debug, Clone)]
pub struct RawDocument {
    pub source: String,
    pub source_id: String,
    pub title: Option<String>,
    pub content: String,
    pub url: Option<String>,
    pub collected_at: i64,
    pub metadata: serde_json::Value,
}

/// A typed node of the knowledge graph.
#[derive(Debug, Clone)]
pub struct Entity {
    pub id: u128,
    pub entity_type: EntityType,
    pub name: String,
    pub aliases: Vec<String>,
    pub properties: serde_json::Value,
    pub source: String,
    pub source_id: Option<String>,
    pub confidence: u32,
    pub first_seen: i64,
    pub last_seen: i64,
}

impl Entity {
    /// Basic well-formedness: confidence in range, seen-interval ordered.
    pub open spec fn wf(self) -> bool {
        self.confidence <= CONFIDENCE_UNIT && self.first_seen <= self.last_seen
    }

    /// A fresh entity with full confidence, no aliases and empty properties,
    /// first and last seen now.
    pub fn new(entity_type: EntityType, name: String, source: String) -> (e: Entity)
        ensures
            e.entity_type == entity_type,
            e.name == name,
            e.source == source,
            e.aliases@.len() == 0,
            forall|k: Seq<char>| #[trigger] crate::jsonval::spec_member(e.properties, k) is None,
            e.source_id is None,
            e.confidence == CONFIDENCE_UNIT,
            e.first_seen == e.last_seen,
            e.wf(),
    {
        let now = crate::mint::now_millis();
        Entity {
            id: crate::mint::fresh_id(),
            entity_type,
            name,
            aliases: Vec::new(),
            properties: crate::jsonval::json_object_new(),
            source,
            source_id: None,
            confidence: CONFIDENCE_UNIT,
            first_seen: now,
            last_seen: now,
        }
    }
}

/// A typed edge between two entities.
#[derive(Debug, Clone)]
pub struct Relationship {
    pub id: u128,
    pub source_entity_id: u128,
    pub target_entity_id: u128,
    pub relation_type: RelationType,
    pub properties: serde_json::Value,
    pub confidence: u32,
    pub source: String,
    pub timestamp: Option<i64>,
}

impl Relationship {
    pub open spec fn wf(self) -> bool {
        self.confidence <= CONFIDENCE_UNIT
    }

    /// A fresh relationship with full confidence, empty properties and no
    /// timestamp.
    pub fn new(
        source_entity_id: u128,
        target_entity_id: u128,
        relation_type: RelationType,
        source: String,
    ) -> (r: Relationship)
        ensures
            r.source_entity_id == source_entity_id,
            r.target_entity_id == target_entity_id,
            r.relation_type == relation_type,
            r.source == source,
            forall|k: Seq<char>| #[trigger] crate::jsonval::spec_member(r.properties, k) is None,
            r.confidence == CONFIDENCE_UNIT,
            r.timestamp is None,
            r.wf(),
    {
        Relationship {
            id: crate::mint::fresh_id(),
            source_entity_id,
            target_entity_id,
            relation_type,
            properties: crate::jsonval::json_object_new(),
            confidence: CONFIDENCE_UNIT,
            source,
            timestamp: None,
        }
    }
}

/// What one document's extraction produced.  Well-formed when every
/// relationship's endpoints are ids of entities in the same result.
#[derive(Debug, Clone)]
pub struct ExtractionResult {
    pub entities: Vec<Entity>,
    pub relationships: Vec<Relationship>,
    pub raw_source: String,
    pub extracted_at: i64,
}

/// Whether some entity of the list carries this id.
pub open spec fn id_among(entities: Seq<Entity>, id: u128) -> bool {
    exists|e: int| 0 <= e < entities.len() && (#[trigger] entities[e]).id == id
}

impl ExtractionResult {
    /// Every relationship endpoint names an entity of this result.
    pub open spec fn endpoints_resolved(self) -> bool {
        forall|i: int|
            0 <= i < self.relationships@.len() ==> {
                let r = #[trigger] self.relationships@[i];
                id_among(self.entities@, r.source_entity_id) && id_among(
                    self.entities@,
                    r.target_entity_id,
                )
            }
    }
}

// ── Agent status records ───────────────────────────────────────────────────

#[derive(Debug, Clone)]
pub struct AgentStatus {
    pub name: String,
    pub enabled: bool,
    pub last_run: Option<i64>,
    pub documents_collected: u64,
    pub error: Option<String>,
}

#[derive(Debug, Clone, Copy, PartialEq, Eq, Structural)]
pub enum AgentRunState {
    Running,
    Completed,
    Failed,
}

#[derive(Debug, Clone)]
pub struct AgentRunStatus {
    pub run_id: String,
    pub agent_name: String,
    pub status: AgentRunState,
    pub started_at: i64,
    pub finished_at: Option<i64>,
    pub documents_collected: u64,
    pub entities_extracted: u64,
    pub error: Option<String>,
}

// ── Request / response envelopes ───────────────────────────────────────────

#[derive(Debug, Clone)]
pub struct HealthResponse {
    pub status: String,
    pub version: String,
    pub neo4j_connected: bool,
    pub qdrant_connected: bool,
    pub entity_count: u64,
    pub relationship_count: u64,
}

#[derive(Debug, Clone)]
pub struct AgentTriggerRequest {
    pub agent_name: String,
}

#[derive(Debug, Clone)]
pub struct AgentTriggerResponse {
    pub run_id: String,
    pub agent_name: String,
    pub status: String,
    pub message: String,
}

#[derive(Debug, Clone)]
pub struct EntitySearchRequest {
    pub query: String,
    pub limit: usize,
    pub entity_type: Option<EntityType>,
}

#[derive(Debug, Clone)]
pub struct GraphStatsResponse {
    pub entity_count: u64,
    pub relationship_count: u64,
    pub entity_types: Vec<EntityTypeStat>,
}

#[derive(Debug, Clone)]
pub struct EntityTypeStat {
    pub entity_type: EntityType,
    pub count: u64,
}

#[derive(Debug, Clone)]
pub struct ReasoningRequest {
    pub question: String,
    pub context: Option<String>,
    pub max_hops: Option<u32>,
}

#[derive(Debug, Clone)]
pub struct ReasoningQuery {
    pub question: String,
    pub context: Option<String>,
    pub max_hops: Option<u32>,
}

#[derive(Debug, Clone)]
pub struct ReasoningStep {
    pub description: String,
    pub cypher: Option<String>,
    pub result_summary: String,
}

#[derive(Debug, Clone)]
pub struct ReasoningResponse {
    pub answer: String,
    pub confidence: u32,
    pub steps: Vec<ReasoningStep>,
    pub entities_referenced: Vec<Entity>,
    pub sources: Vec<String>,
}

/// The reasoning answer as the service hands it out: the same fields,
/// under the wire names.
#[derive(Debug, Clone)]
pub struct ReasoningApiResponse {
    pub answer: String,
    pub confidence: u32,
    pub steps: Vec<ReasoningStep>,
    pub entities_referenced: Vec<Entity>,
    pub sources: Vec<String>,
}

impl From<ReasoningResponse> for ReasoningApiResponse {
    /// Carries every field over unchanged.
    fn from(r: ReasoningResponse) -> (out: ReasoningApiResponse) {
        ReasoningApiResponse {
            answer: r.answer,
            confidence: r.confidence,
            steps: r.steps,
            entities_referenced: r.entities_referenced,
            sources: r.sources,
        }
    }
}

impl vstd::std_specs::convert::FromSpecImpl<ReasoningResponse> for ReasoningApiResponse {
    open spec fn obeys_from_spec() -> bool {
        true
    }

    open spec fn from_spec(r: ReasoningResponse) -> ReasoningApiResponse {
        ReasoningApiResponse {
            answer: r.answer,
            confidence: r.confidence,
            steps: r.steps,
            entities_referenced: r.entities_referenced,
            sources: r.sources,
        }
    }
}

// ── Graph label names ──────────────────────────────────────────────────────

/// The node label stored for each entity type.
pub open spec fn spec_entity_label(et: EntityType) -> Seq<char> {
    match et {
        EntityType::Person => "Person"@,
        EntityType::Organization => "Organization"@,
        EntityType::Vessel => "Vessel"@,
        EntityType::Aircraft => "Aircraft"@,
        EntityType::Location => "Location"@,
        EntityType::Event => "Event"@,
        EntityType::Document => "Document"@,
        EntityType::Transaction => "Transaction"@,
        EntityType::Sanction => "Sanction"@,
    }
}

pub fn entity_type_to_label(et: &EntityType) -> (r: &'static str)
    ensures
        r@ == spec_entity_label(*et),
{
    match et {
        EntityType::Person => "Person",
        EntityType::Organization => "Organization",
        EntityType::Vessel => "Vessel",
        EntityType::Aircraft => "Aircraft",
        EntityType::Location => "Location",
        EntityType::Event => "Event",
        EntityType::Document => "Document",
        EntityType::Transaction => "Transaction",
        EntityType::Sanction => "Sanction",
    }
}

/// The entity type read back from a node label; unknown labels fall back to
/// Event, matching the extraction default.
pub open spec fn spec_label_to_entity_type(b: Seq<u8>) -> EntityType {
    if b == str_bytes("Person") {
        EntityType::Person
    } else if b == str_bytes("Organization") {
        EntityType::Organization
    } else if b == str_bytes("Vessel") {
        EntityType::Vessel
    } else if b == str_bytes("Aircraft") {
        EntityType::Aircraft
    } else if b == str_bytes("Location") {
        EntityType::Location
    } else if b == str_bytes("Event") {
        EntityType::Event
    } else if b == str_bytes("Document") {
        EntityType::Document
    } else if b == str_bytes("Transaction") {
        EntityType::Transaction
    } else if b == str_bytes("Sanction") {
        EntityType::Sanction
    } else {
        EntityType::Event
    }
}

pub fn label_to_entity_type(label: &str) -> (r: EntityType)
    ensures
        r == spec_label_to_entity_type(str_bytes(label)),
{
    let b = label.as_bytes();
    if eq_bytes(b, "Person".as_bytes()) {
        EntityType::Person
    } else if eq_bytes(b, "Organization".as_bytes()) {
        EntityType::Organization
    } else if eq_bytes(b, "Vessel".as_bytes()) {
        EntityType::Vessel
    } else if eq_bytes(b, "Aircraft".as_bytes()) {
        EntityType::Aircraft
    } else if eq_bytes(b, "Location".as_bytes()) {
        EntityType::Location
    } else if eq_bytes(b, "Event".as_bytes()) {
        EntityType::Event
    } else if eq_bytes(b, "Document".as_bytes()) {
        EntityType::Document
    } else if eq_bytes(b, "Transaction".as_bytes()) {
        EntityType::Transaction
    } else if eq_bytes(b, "Sanction".as_bytes()) {
        EntityType::Sanction
    } else {
        EntityType::Event
    }
}

/// The edge label stored for each relation type.
pub open spec fn spec_relation_label(rt: RelationType) -> Seq<char> {
    match rt {
        RelationType::OwnerOf => "OWNER_OF"@,
        RelationType::DirectorOf => "DIRECTOR_OF"@,
        RelationType::EmployeeOf => "EMPLOYEE_OF"@,
        RelationType::RelatedTo => "RELATED_TO"@,
        RelationType::LocatedAt => "LOCATED_AT"@,
        RelationType::TransactedWith => "TRANSACTED_WITH"@,
        RelationType::SanctionedBy => "SANCTIONED_BY"@,
        RelationType::RegisteredIn => "REGISTERED_IN"@,
        RelationType::FlaggedAs => "FLAGGED_AS"@,
        RelationType::MeetingWith => "MEETING_WITH"@,
        RelationType::TraveledTo => "TRAVELED_TO"@,
        RelationType::PartOf => "PART_OF"@,
    }
}

pub fn relation_type_to_label(rt: &RelationType) -> (r: &'static str)
    ensures
        r@ == spec_relation_label(*rt),
{
    match rt {
        RelationType::OwnerOf => "OWNER_OF",
        RelationType::DirectorOf => "DIRECTOR_OF",
        RelationType::EmployeeOf => "EMPLOYEE_OF",
        RelationType::RelatedTo => "RELATED_TO",
        RelationType::LocatedAt => "LOCATED_AT",
        RelationType::TransactedWith => "TRANSACTED_WITH",
        RelationType::SanctionedBy => "SANCTIONED_BY",
        RelationType::RegisteredIn => "REGISTERED_IN",
        RelationType::FlaggedAs => "FLAGGED_AS",
        RelationType::MeetingWith => "MEETING_WITH",
        RelationType::TraveledTo => "TRAVELED_TO",
        RelationType::PartOf => "PART_OF",
    }
}

/// The relation type read back from an edge label; unknown labels fall back
/// to RelatedTo, matching the extraction default.
pub open spec fn spec_label_to_relation_type(b: Seq<u8>) -> RelationType {
    if b == str_bytes("OWNER_OF") {
        RelationType::OwnerOf
    } else if b == str_bytes("DIRECTOR_OF") {
        RelationType::DirectorOf
    } else if b == str_bytes("EMPLOYEE_OF") {
        RelationType::EmployeeOf
    } else if b == str_bytes("RELATED_TO") {
        RelationType::RelatedTo
    } else if b == str_bytes("LOCATED_AT") {
        RelationType::LocatedAt
    } else if b == str_bytes("TRANSACTED_WITH") {
        RelationType::TransactedWith
    } else if b == str_bytes("SANCTIONED_BY") {
        RelationType::SanctionedBy
    } else if b == str_bytes("REGISTERED_IN") {
        RelationType::RegisteredIn
    } else if b == str_bytes("FLAGGED_AS") {
        RelationType::FlaggedAs
    } else if b == str_bytes("MEETING_WITH") {
        RelationType::MeetingWith
    } else if b == str_bytes("TRAVELED_TO") {
        RelationType::TraveledTo
    } else if b == str_bytes("PART_OF") {
        RelationType::PartOf
    } else {
        RelationType::RelatedTo
    }
}

pub fn label_to_relation_type(label: &str) -> (r: RelationType)
    ensures
        r == spec_label_to_relation_type(str_bytes(label)),
{
    let b = label.as_bytes();
    if eq_bytes(b, "OWNER_OF".as_bytes()) {
        RelationType::OwnerOf
    } else if eq_bytes(b, "DIRECTOR_OF".as_bytes()) {
        RelationType::DirectorOf
    } else if eq_bytes(b, "EMPLOYEE_OF".as_bytes()) {
        RelationType::EmployeeOf
    } else if eq_bytes(b, "RELATED_TO".as_bytes()) {
        RelationType::RelatedTo
    } else if eq_bytes(b, "LOCATED_AT".as_bytes()) {
        RelationType::LocatedAt
    } else if eq_bytes(b, "TRANSACTED_WITH".as_bytes()) {
        RelationType::TransactedWith
    } else if eq_bytes(b, "SANCTIONED_BY".as_bytes()) {
        RelationType::SanctionedBy
    } else if eq_bytes(b, "REGISTERED_IN".as_bytes()) {
        RelationType::RegisteredIn
    } else if eq_bytes(b, "FLAGGED_AS".as_bytes()) {
        RelationType::FlaggedAs
    } else if eq_bytes(b, "MEETING_WITH".as_bytes()) {
        RelationType::MeetingWith
    } else if eq_bytes(b, "TRAVELED_TO".as_bytes()) {
        RelationType::TraveledTo
    } else if eq_bytes(b, "PART_OF".as_bytes()) {
        RelationType::PartOf
    } else {
        RelationType::RelatedTo
    }
}

} // verus!
