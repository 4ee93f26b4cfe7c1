use argus::model::{Entity, EntityType, ExtractionResult, RelationType, Relationship};
use argus::store::GraphStore;

fn entity(entity_type: EntityType, name: &str, source: &str, confidence: u32) -> Entity {
    let mut e = Entity::new(entity_type, name.to_string(), source.to_string());
    e.confidence = confidence;
    e
}

fn result_with(entities: Vec<Entity>, relationships: Vec<Relationship>) -> ExtractionResult {
    ExtractionResult {
        entities,
        relationships,
        raw_source: "test".to_string(),
        extracted_at: 0,
    }
}

#[test]
fn cross_source_merge_keeps_one_node_and_the_best_confidence() {
    let mut store = GraphStore::new();

    let a = entity(EntityType::Organization, "Acme Corp", "A", 600);
    let a_id = a.id;
    store
        .store_extraction(result_with(vec![a], vec![]))
        .unwrap();

    let b = entity(EntityType::Organization, "acme corp", "B", 900);
    store
        .store_extraction(result_with(vec![b], vec![]))
        .unwrap();

    assert_eq!(store.entity_count(), 1);
    let merged = store.get_entity(a_id).unwrap();
    assert_eq!(merged.confidence, 900);

    let sources = store.get_entity_sources(a_id).unwrap();
    assert!(sources.iter().any(|s| s == "A"));
    assert!(sources.iter().any(|s| s == "B"));
}

#[test]
fn merge_confidence_is_monotone() {
    let mut store = GraphStore::new();

    let a = entity(EntityType::Organization, "Acme Corp", "A", 900);
    let a_id = a.id;
    store
        .store_extraction(result_with(vec![a], vec![]))
        .unwrap();

    // A weaker observation from another source must not lower it.
    let b = entity(EntityType::Organization, "ACME CORP", "B", 300);
    store
        .store_extraction(result_with(vec![b], vec![]))
        .unwrap();

    assert_eq!(store.entity_count(), 1);
    assert_eq!(store.get_entity(a_id).unwrap().confidence, 900);
}

#[test]
fn same_source_same_name_stays_separate_by_identity() {
    let mut store = GraphStore::new();

    let mut a = entity(EntityType::Organization, "Acme Corp", "A", 600);
    a.source_id = Some("r-1".to_string());
    let mut b = entity(EntityType::Organization, "Acme Corp", "A", 700);
    b.source_id = Some("r-2".to_string());

    store
        .store_extraction(result_with(vec![a], vec![]))
        .unwrap();
    store
        .store_extraction(result_with(vec![b], vec![]))
        .unwrap();

    // Same source: the cross-source merge does not apply; distinct records
    // keep distinct nodes.
    assert_eq!(store.entity_count(), 2);
}

#[test]
fn relationship_idempotence() {
    let mut store = GraphStore::new();

    let a = entity(EntityType::Person, "John Smith", "A", 900);
    let b = entity(EntityType::Organization, "Acme Corp", "A", 900);
    let a_id = a.id;
    let b_id = b.id;
    store
        .store_extraction(result_with(vec![a, b], vec![]))
        .unwrap();

    let mut r1 = Relationship::new(a_id, b_id, RelationType::DirectorOf, "A".to_string());
    r1.confidence = 500;
    store
        .store_extraction(result_with(vec![], vec![r1]))
        .unwrap();

    let mut r2 = Relationship::new(a_id, b_id, RelationType::DirectorOf, "A".to_string());
    r2.confidence = 900;
    store
        .store_extraction(result_with(vec![], vec![r2]))
        .unwrap();

    assert_eq!(store.relationship_count(), 1);

    // A later weaker observation keeps the stronger confidence.
    let mut r3 = Relationship::new(a_id, b_id, RelationType::DirectorOf, "A".to_string());
    r3.confidence = 300;
    store
        .store_extraction(result_with(vec![], vec![r3]))
        .unwrap();

    assert_eq!(store.relationship_count(), 1);
    let hood = store.get_neighbors(a_id, 1).unwrap();
    assert_eq!(hood.relationships.len(), 1);
    assert_eq!(hood.relationships[0].confidence, 900);
}

#[test]
fn relationship_with_missing_endpoint_writes_nothing() {
    let mut store = GraphStore::new();
    let a = entity(EntityType::Person, "Alpha", "A", 900);
    let a_id = a.id;
    store
        .store_extraction(result_with(vec![a], vec![]))
        .unwrap();

    let ghost_target = uuid::Uuid::new_v4().as_u128();
    let r = Relationship::new(a_id, ghost_target, RelationType::RelatedTo, "A".to_string());
    store
        .store_extraction(result_with(vec![], vec![r]))
        .unwrap();

    assert_eq!(store.relationship_count(), 0);
}

#[test]
fn search_matches_substrings_and_honours_the_limit() {
    let mut store = GraphStore::new();
    let a = entity(EntityType::Organization, "Acme Corp", "A", 900);
    let b = entity(EntityType::Organization, "Acme Holdings", "A", 900);
    let c = entity(EntityType::Person, "Bob", "A", 900);
    store
        .store_extraction(result_with(vec![a, b, c], vec![]))
        .unwrap();

    let hits = store.search_entities("Acme", 10);
    assert_eq!(hits.len(), 2);
    let capped = store.search_entities("Acme", 1);
    assert_eq!(capped.len(), 1);
    let none = store.search_entities("acme", 10);
    assert!(none.is_empty(), "the name match is case-sensitive");
}

#[test]
fn neighbors_walks_both_directions_and_deduplicates() {
    let mut store = GraphStore::new();
    let a = entity(EntityType::Person, "Alice", "A", 900);
    let b = entity(EntityType::Organization, "Acme", "A", 900);
    let c = entity(EntityType::Location, "Berlin", "A", 900);
    let (a_id, b_id, c_id) = (a.id, b.id, c.id);
    let r1 = Relationship::new(a_id, b_id, RelationType::DirectorOf, "A".to_string());
    let r2 = Relationship::new(b_id, c_id, RelationType::LocatedAt, "A".to_string());
    store
        .store_extraction(result_with(vec![a, b, c], vec![r1, r2]))
        .unwrap();

    let one_hop = store.get_neighbors(a_id, 1).unwrap();
    assert_eq!(one_hop.entity.id, a_id);
    assert_eq!(one_hop.neighbors.len(), 1);
    assert_eq!(one_hop.neighbors[0].id, b_id);

    let two_hops = store.get_neighbors(a_id, 2).unwrap();
    assert_eq!(two_hops.neighbors.len(), 2);
    assert_eq!(two_hops.relationships.len(), 2);

    assert!(store.get_neighbors(uuid::Uuid::new_v4().as_u128(), 1).is_err());
}

#[test]
fn counts_track_the_stored_graph() {
    let mut store = GraphStore::new();
    assert_eq!(store.entity_count(), 0);
    assert_eq!(store.relationship_count(), 0);

    let a = entity(EntityType::Person, "Alice", "A", 900);
    let b = entity(EntityType::Organization, "Acme", "A", 900);
    let r = Relationship::new(a.id, b.id, RelationType::EmployeeOf, "A".to_string());
    store
        .store_extraction(result_with(vec![a, b], vec![r]))
        .unwrap();
    assert_eq!(store.entity_count(), 2);
    assert_eq!(store.relationship_count(), 1);
}
