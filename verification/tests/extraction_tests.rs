use argus::extraction::{
    collect_batch_outcomes, parse_entity_type, parse_llm_response, parse_relation_type,
};
use argus::model::{ArgusError, EntityType, ExtractionResult, RelationType};

#[test]
fn test_parse_entity_types() {
    assert_eq!(
        std::mem::discriminant(&parse_entity_type("person")),
        std::mem::discriminant(&EntityType::Person)
    );
    assert_eq!(
        std::mem::discriminant(&parse_entity_type("Organization")),
        std::mem::discriminant(&EntityType::Organization)
    );
    assert_eq!(
        std::mem::discriminant(&parse_entity_type("VESSEL")),
        std::mem::discriminant(&EntityType::Vessel)
    );
    assert_eq!(
        std::mem::discriminant(&parse_entity_type("unknown_thing")),
        std::mem::discriminant(&EntityType::Event)
    );
}

#[test]
fn test_parse_relation_types() {
    assert_eq!(
        std::mem::discriminant(&parse_relation_type("owner_of")),
        std::mem::discriminant(&RelationType::OwnerOf)
    );
    assert_eq!(
        std::mem::discriminant(&parse_relation_type("located_in")),
        std::mem::discriminant(&RelationType::LocatedAt)
    );
    assert_eq!(
        std::mem::discriminant(&parse_relation_type("something_else")),
        std::mem::discriminant(&RelationType::RelatedTo)
    );
}

#[test]
fn test_parse_llm_response_valid() {
    let json = r#"{
        "entities": [
            {
                "name": "Acme Corp",
                "type": "organization",
                "aliases": ["ACME"],
                "properties": {"industry": "defense"},
                "confidence": 0.95
            },
            {
                "name": "John Smith",
                "type": "person",
                "aliases": [],
                "properties": {},
                "confidence": 0.9
            }
        ],
        "relationships": [
            {
                "source": "John Smith",
                "target": "Acme Corp",
                "type": "director_of",
                "properties": {"since": "2020"},
                "confidence": 0.85
            }
        ]
    }"#;

    let (entities, relationships) = parse_llm_response(json, "test").unwrap();

    assert_eq!(entities.len(), 2);
    assert_eq!(relationships.len(), 1);

    assert_eq!(entities[0].name, "Acme Corp");
    assert_eq!(entities[0].entity_type, EntityType::Organization);
    assert_eq!(entities[0].confidence, 950);
    assert_eq!(entities[0].aliases, vec!["ACME"]);

    assert_eq!(entities[1].name, "John Smith");
    assert_eq!(entities[1].entity_type, EntityType::Person);

    assert_eq!(relationships[0].source_entity_id, entities[1].id);
    assert_eq!(relationships[0].target_entity_id, entities[0].id);
    assert_eq!(relationships[0].relation_type, RelationType::DirectorOf);
    assert_eq!(relationships[0].confidence, 850);
}

#[test]
fn test_parse_llm_response_with_code_fences() {
    let json = r#"```json
{
    "entities": [
        {"name": "TestEntity", "type": "location", "properties": {}, "confidence": 1.0}
    ],
    "relationships": []
}
```"#;

    let (entities, relationships) = parse_llm_response(json, "test").unwrap();

    assert_eq!(entities.len(), 1);
    assert_eq!(entities[0].name, "TestEntity");
    assert_eq!(entities[0].entity_type, EntityType::Location);
    assert_eq!(relationships.len(), 0);
}

#[test]
fn test_parse_llm_response_empty() {
    let json = r#"{"entities": [], "relationships": []}"#;
    let (entities, relationships) = parse_llm_response(json, "test").unwrap();

    assert_eq!(entities.len(), 0);
    assert_eq!(relationships.len(), 0);
}

#[test]
fn test_parse_llm_response_missing_relationship_entity() {
    let json = r#"{
        "entities": [
            {"name": "Alpha", "type": "organization", "properties": {}, "confidence": 1.0}
        ],
        "relationships": [
            {
                "source": "Alpha",
                "target": "NonExistent",
                "type": "related_to",
                "properties": {},
                "confidence": 0.5
            }
        ]
    }"#;

    let (entities, relationships) = parse_llm_response(json, "test").unwrap();

    assert_eq!(entities.len(), 1);
    // Relationship should be skipped because "NonExistent" is not in entities
    assert_eq!(relationships.len(), 0);
}

#[test]
fn test_parse_llm_response_invalid_json() {
    let result = parse_llm_response("not json at all", "test");
    assert!(result.is_err());
}

#[test]
fn test_parse_llm_response_alias_lookup() {
    let json = r#"{
        "entities": [
            {
                "name": "United States of America",
                "type": "location",
                "aliases": ["USA", "US"],
                "properties": {},
                "confidence": 1.0
            },
            {
                "name": "Acme Corp",
                "type": "organization",
                "aliases": [],
                "properties": {},
                "confidence": 0.9
            }
        ],
        "relationships": [
            {
                "source": "Acme Corp",
                "target": "USA",
                "type": "registered_in",
                "properties": {},
                "confidence": 0.8
            }
        ]
    }"#;

    let (entities, relationships) = parse_llm_response(json, "test").unwrap();

    assert_eq!(entities.len(), 2);
    // Relationship should resolve "USA" alias to the "United States of America" entity
    assert_eq!(relationships.len(), 1);
    assert_eq!(relationships[0].target_entity_id, entities[0].id);
}

fn empty_result(tag: &str) -> ExtractionResult {
    ExtractionResult {
        entities: Vec::new(),
        relationships: Vec::new(),
        raw_source: tag.to_string(),
        extracted_at: 0,
    }
}

#[test]
fn batch_with_all_failures_is_one_aggregated_error() {
    let outcomes: Vec<Result<ExtractionResult, String>> =
        vec![Err("boom".to_string()), Err("bust".to_string())];
    let r = collect_batch_outcomes(outcomes);
    match r {
        Err(ArgusError::Extraction(msg)) => {
            assert!(msg.contains("All documents failed extraction"));
            assert!(msg.contains("boom"));
            assert!(msg.contains("bust"));
        }
        _ => panic!("expected an aggregated extraction error"),
    }
}

#[test]
fn batch_with_partial_failures_keeps_the_successes() {
    let outcomes: Vec<Result<ExtractionResult, String>> = vec![
        Err("boom".to_string()),
        Ok(empty_result("a")),
        Ok(empty_result("b")),
    ];
    let r = collect_batch_outcomes(outcomes).unwrap();
    assert_eq!(r.len(), 2);
    assert_eq!(r[0].raw_source, "a");
    assert_eq!(r[1].raw_source, "b");
}

#[test]
fn batch_with_no_documents_succeeds_empty() {
    let outcomes: Vec<Result<ExtractionResult, String>> = Vec::new();
    let r = collect_batch_outcomes(outcomes).unwrap();
    assert!(r.is_empty());
}
