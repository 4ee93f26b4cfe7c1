use argus::agents::{
    build_url, pagination_should_stop, parse_entry, parse_sanctions_page,
    sanction_entity_to_document,
};

#[test]
fn test_build_url() {
    let url = build_url("test_key_123");
    assert!(url.starts_with("https://data.aishub.net/ws.php"));
    assert!(url.contains("username=test_key_123"));
    assert!(url.contains("format=1"));
    assert!(url.contains("output=json"));
}

#[test]
fn test_entity_to_document() {
    let entity: serde_json::Value = serde_json::from_str(
        r#"{
            "id": "Q123456",
            "caption": "John Doe",
            "schema": "Person",
            "properties": {"name": ["John Doe"], "nationality": ["us"]},
            "datasets": ["us_ofac_sdn"],
            "first_seen": "2023-01-01",
            "last_seen": "2024-06-15",
            "target": true
        }"#,
    )
    .unwrap();

    let doc = sanction_entity_to_document(&entity, 0).unwrap();

    assert_eq!(doc.source, "opensanctions");
    assert_eq!(doc.source_id, "Q123456");
    assert_eq!(doc.title, Some("John Doe".to_string()));
    assert!(doc.content.contains("John Doe"));
    assert!(doc.content.contains("Person"));
    assert_eq!(
        doc.url,
        Some("https://api.opensanctions.org/entities/Q123456".to_string())
    );
    assert_eq!(doc.metadata["schema"], "Person");
    assert!(doc.metadata["datasets"].is_array());
    // Present members are copied verbatim; absent ones become null.
    assert_eq!(doc.metadata["properties"]["name"][0], "John Doe");
    assert_eq!(doc.metadata["first_seen"], "2023-01-01");
    assert_eq!(doc.metadata["target"], true);
    assert!(doc.metadata["referents"].is_null());
    assert!(doc.metadata["last_change"].is_null());
    assert_eq!(doc.metadata["caption"], "John Doe");
}

#[test]
fn test_entity_to_document_minimal() {
    let entity: serde_json::Value = serde_json::from_str(r#"{"id": "NK-001"}"#).unwrap();

    let doc = sanction_entity_to_document(&entity, 0).unwrap();

    assert_eq!(doc.source_id, "NK-001");
    // With no caption or properties, the title falls back to entity id
    assert_eq!(doc.title, Some("NK-001".to_string()));
    assert!(doc.content.contains("NK-001"));
    assert!(doc.content.contains("Unknown"));
}

#[test]
fn test_entity_to_document_name_from_properties() {
    let entity: serde_json::Value = serde_json::from_str(
        r#"{
            "id": "entity-789",
            "schema_": "LegalEntity",
            "properties": {"name": ["ACME Corp"]},
            "target": false
        }"#,
    )
    .unwrap();

    let doc = sanction_entity_to_document(&entity, 0).unwrap();

    assert_eq!(doc.title, Some("ACME Corp".to_string()));
    assert!(doc.content.contains("ACME Corp"));
    // schema_ is used as fallback when schema is absent
    assert!(doc.content.contains("LegalEntity"));
}

#[test]
fn pagination_stops_on_a_short_page() {
    assert!(pagination_should_stop(42, 100, None));
    assert!(!pagination_should_stop(100, 100, None));
}

#[test]
fn pagination_stops_when_the_total_is_reached() {
    assert!(pagination_should_stop(100, 200, Some(150)));
    assert!(!pagination_should_stop(100, 200, Some(500)));
}

#[test]
fn pagination_stops_at_the_safety_cap() {
    assert!(pagination_should_stop(100, 10100, None));
    assert!(!pagination_should_stop(100, 10000, None));
}

#[test]
fn sanctions_pages_parse_into_documents() {
    let body = r#"{
        "results": [
            {"id": "A-1", "caption": "One"},
            {"id": "A-2", "caption": "Two"},
            {"caption": "No id, skipped"}
        ],
        "total": 250,
        "limit": 100,
        "offset": 0
    }"#;
    let (docs, total, count) = parse_sanctions_page(body, 0).unwrap();
    assert_eq!(docs.len(), 2);
    assert_eq!(total, Some(250));
    assert_eq!(count, 3);
    assert!(parse_sanctions_page("not json", 0).is_err());
}

#[test]
fn lobby_entries_become_documents() {
    let entry: serde_json::Value = serde_json::from_str(
        r#"{
            "registrationId": "REG-42",
            "name": "Example Alliance",
            "category": "Trade associations",
            "countryOfHeadOffice": "Belgium",
            "activities": "Advocacy",
            "costs": "100000-199999",
            "registrationDate": "2020-05-01"
        }"#,
    )
    .unwrap();

    let doc = parse_entry(&entry, 0).unwrap();
    assert_eq!(doc.source, "eu_transparency");
    assert_eq!(doc.source_id, "REG-42");
    assert_eq!(doc.title, Some("Example Alliance".to_string()));
    assert!(doc.content.contains("Example Alliance"));
    assert!(doc.content.contains("Trade associations"));
    assert!(doc.content.contains("Belgium"));
    assert_eq!(doc.metadata["registration_id"], "REG-42");
}

#[test]
fn lobby_entries_without_identifier_are_skipped() {
    let entry: serde_json::Value =
        serde_json::from_str(r#"{"name": "Nameless"}"#).unwrap();
    assert!(parse_entry(&entry, 0).is_none());
    let blank: serde_json::Value =
        serde_json::from_str(r#"{"registrationId": "  "}"#).unwrap();
    assert!(parse_entry(&blank, 0).is_none());
}
