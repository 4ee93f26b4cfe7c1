use argus::model::{
    clamp_confidence, AgentStatus, Entity, EntityType, ReasoningApiResponse, ReasoningResponse,
    ReasoningStep, RelationType, Relationship,
};

#[test]
fn entity_type_hash_eq() {
    let mut set = std::collections::HashSet::new();
    set.insert(EntityType::Person);
    set.insert(EntityType::Person); // duplicate
    set.insert(EntityType::Organization);
    assert_eq!(set.len(), 2);
}

#[test]
fn relation_type_hash_eq() {
    let mut set = std::collections::HashSet::new();
    set.insert(RelationType::OwnerOf);
    set.insert(RelationType::OwnerOf); // duplicate
    set.insert(RelationType::DirectorOf);
    assert_eq!(set.len(), 2);
}

#[test]
fn agent_status_fields_properly_initialized() {
    let status = AgentStatus {
        name: "test_agent".to_string(),
        enabled: true,
        last_run: None,
        documents_collected: 0,
        error: None,
    };

    assert_eq!(status.name, "test_agent");
    assert!(status.enabled);
    assert!(status.last_run.is_none());
    assert_eq!(status.documents_collected, 0);
    assert!(status.error.is_none());
}

#[test]
fn agent_status_with_last_run_and_error() {
    let now: i64 = 1767225600000;
    let status = AgentStatus {
        name: "failing_agent".to_string(),
        enabled: false,
        last_run: Some(now),
        documents_collected: 42,
        error: Some("connection timeout".to_string()),
    };

    assert_eq!(status.name, "failing_agent");
    assert!(!status.enabled);
    assert_eq!(status.last_run, Some(now));
    assert_eq!(status.documents_collected, 42);
    assert_eq!(status.error.as_deref(), Some("connection timeout"));
}

#[test]
fn entity_new_sets_defaults() {
    let entity = Entity::new(
        EntityType::Person,
        "John Doe".to_string(),
        "test".to_string(),
    );

    assert_eq!(entity.entity_type, EntityType::Person);
    assert_eq!(entity.name, "John Doe");
    assert_eq!(entity.source, "test");
    assert!(entity.aliases.is_empty());
    assert_eq!(
        entity.properties,
        serde_json::Value::Object(serde_json::Map::new())
    );
    assert!(entity.source_id.is_none());
    assert_eq!(entity.confidence, 1000);
    // first_seen and last_seen should be equal (both set to now)
    assert_eq!(entity.first_seen, entity.last_seen);
    // id should be a freshly drawn identifier
    assert!(entity.id != 0);
}

#[test]
fn entity_new_generates_unique_ids() {
    let e1 = Entity::new(EntityType::Person, "A".to_string(), "src".to_string());
    let e2 = Entity::new(EntityType::Person, "B".to_string(), "src".to_string());
    assert_ne!(e1.id, e2.id);
}

#[test]
fn entity_new_with_different_types() {
    let types_and_names = vec![
        (EntityType::Person, "Alice"),
        (EntityType::Organization, "ACME Corp"),
        (EntityType::Vessel, "SS Enterprise"),
        (EntityType::Aircraft, "Boeing 747"),
        (EntityType::Location, "New York"),
        (EntityType::Event, "Summit 2026"),
        (EntityType::Document, "Report #42"),
        (EntityType::Transaction, "TX-001"),
        (EntityType::Sanction, "OFAC-12345"),
    ];

    for (entity_type, name) in types_and_names {
        let entity = Entity::new(entity_type.clone(), name.to_string(), "test".to_string());
        assert_eq!(entity.entity_type, entity_type);
        assert_eq!(entity.name, name);
    }
}

#[test]
fn relationship_new_sets_defaults() {
    let source_id = uuid::Uuid::new_v4().as_u128();
    let target_id = uuid::Uuid::new_v4().as_u128();

    let rel = Relationship::new(
        source_id,
        target_id,
        RelationType::OwnerOf,
        "test".to_string(),
    );

    assert_eq!(rel.source_entity_id, source_id);
    assert_eq!(rel.target_entity_id, target_id);
    assert_eq!(rel.relation_type, RelationType::OwnerOf);
    assert_eq!(rel.source, "test");
    assert_eq!(
        rel.properties,
        serde_json::Value::Object(serde_json::Map::new())
    );
    assert_eq!(rel.confidence, 1000);
    assert!(rel.timestamp.is_none());
    assert!(rel.id != 0);
}

#[test]
fn relationship_new_generates_unique_ids() {
    let src = uuid::Uuid::new_v4().as_u128();
    let tgt = uuid::Uuid::new_v4().as_u128();
    let r1 = Relationship::new(src, tgt, RelationType::RelatedTo, "a".to_string());
    let r2 = Relationship::new(src, tgt, RelationType::RelatedTo, "b".to_string());
    assert_ne!(r1.id, r2.id);
}

#[test]
fn relationship_new_with_all_relation_types() {
    let src = uuid::Uuid::new_v4().as_u128();
    let tgt = uuid::Uuid::new_v4().as_u128();

    let types = vec![
        RelationType::OwnerOf,
        RelationType::DirectorOf,
        RelationType::EmployeeOf,
        RelationType::RelatedTo,
        RelationType::LocatedAt,
        RelationType::TransactedWith,
        RelationType::SanctionedBy,
        RelationType::RegisteredIn,
        RelationType::FlaggedAs,
        RelationType::MeetingWith,
        RelationType::TraveledTo,
        RelationType::PartOf,
    ];

    for rt in types {
        let rel = Relationship::new(src, tgt, rt.clone(), "test".to_string());
        assert_eq!(rel.relation_type, rt);
    }
}

#[test]
fn reasoning_api_response_from_reasoning_response() {
    let entity = Entity::new(
        EntityType::Organization,
        "Shell Corp".to_string(),
        "test".to_string(),
    );
    let entity_id = entity.id;

    let reasoning_response = ReasoningResponse {
        answer: "Shell Corp is sanctioned.".to_string(),
        confidence: 950,
        steps: vec![ReasoningStep {
            description: "Lookup sanctions database".to_string(),
            cypher: Some("MATCH (e)-[:SANCTIONED_BY]->(s) RETURN e, s".to_string()),
            result_summary: "Found in OFAC SDN list".to_string(),
        }],
        entities_referenced: vec![entity],
        sources: vec!["opensanctions".to_string()],
    };

    let api_response: ReasoningApiResponse = reasoning_response.into();

    assert_eq!(api_response.answer, "Shell Corp is sanctioned.");
    assert_eq!(api_response.confidence, 950);
    assert_eq!(api_response.steps.len(), 1);
    assert_eq!(
        api_response.steps[0].description,
        "Lookup sanctions database"
    );
    assert_eq!(api_response.entities_referenced.len(), 1);
    assert_eq!(api_response.entities_referenced[0].id, entity_id);
    assert_eq!(api_response.entities_referenced[0].name, "Shell Corp");
    assert_eq!(api_response.sources, vec!["opensanctions"]);
}

#[test]
fn reasoning_api_response_from_empty_reasoning_response() {
    let reasoning_response = ReasoningResponse {
        answer: "No relevant information found.".to_string(),
        confidence: 0,
        steps: vec![],
        entities_referenced: vec![],
        sources: vec![],
    };

    let api_response: ReasoningApiResponse = reasoning_response.into();

    assert_eq!(api_response.answer, "No relevant information found.");
    assert_eq!(api_response.confidence, 0);
    assert!(api_response.steps.is_empty());
    assert!(api_response.entities_referenced.is_empty());
    assert!(api_response.sources.is_empty());
}

#[test]
fn confidence_is_clamped_into_range() {
    assert_eq!(clamp_confidence(-5), 0);
    assert_eq!(clamp_confidence(0), 0);
    assert_eq!(clamp_confidence(850), 850);
    assert_eq!(clamp_confidence(1000), 1000);
    assert_eq!(clamp_confidence(1700), 1000);
}
