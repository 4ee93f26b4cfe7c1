use argus::model::ArgusError;
use argus::reasoning::{
    build_summary_block, emit_interpretation, extract_cypher_queries, parse_interpretation,
    queries_or_reasoning_error, truncate_result_text,
};

#[test]
fn test_extract_cypher_queries_fenced() {
    let response = r#"
Here are the queries:

```cypher
MATCH (p:Person)-[:OWNER_OF]->(o:Organization) RETURN p, o LIMIT 10
```

```cypher
MATCH (e:Event) WHERE e.name CONTAINS 'summit' RETURN e
```
"#;
    let queries = extract_cypher_queries(response);
    assert_eq!(queries.len(), 2);
    assert!(queries[0].contains("MATCH (p:Person)"));
    assert!(queries[1].contains("summit"));
}

#[test]
fn test_extract_cypher_queries_fallback() {
    let response = "MATCH (n:Person) WHERE n.name = 'Alice' RETURN n LIMIT 5";
    let queries = extract_cypher_queries(response);
    assert_eq!(queries.len(), 1);
    assert!(queries[0].contains("MATCH"));
}

#[test]
fn test_extract_cypher_queries_empty() {
    let response = "I'm sorry, I cannot generate a query for that.";
    let queries = extract_cypher_queries(response);
    assert!(queries.is_empty());
}

#[test]
fn test_parse_interpretation_full() {
    let response = r#"ANSWER: The entity John Doe is connected to Acme Corp through a directorship.
CONFIDENCE: 0.85
ENTITIES: John Doe, Acme Corp
SOURCES: ofac_sdn, un_sanctions"#;

    let (answer, confidence, entities, sources) = parse_interpretation(response);

    assert!(answer.contains("John Doe"));
    assert_eq!(confidence, 850);
    assert_eq!(entities.len(), 2);
    assert_eq!(sources.len(), 2);
}

#[test]
fn test_parse_interpretation_fallback() {
    let response = "Some unstructured response without markers.";

    let (answer, confidence, entities, sources) = parse_interpretation(response);

    assert_eq!(answer, "Some unstructured response without markers.");
    assert_eq!(confidence, 500);
    assert!(entities.is_empty());
    assert!(sources.is_empty());
}

#[test]
fn test_parse_interpretation_clamps_confidence() {
    let response = "ANSWER: test\nCONFIDENCE: 1.5\nENTITIES: NONE\nSOURCES: NONE";

    let (_, confidence, _, _) = parse_interpretation(response);
    assert_eq!(confidence, 1000);
}

#[test]
fn test_parse_interpretation_multiline_answer() {
    let response = "ANSWER: Line one.\nLine two continues the answer.\nLine three as well.\nCONFIDENCE: 0.7\nENTITIES: NONE\nSOURCES: NONE";

    let (answer, confidence, _, _) = parse_interpretation(response);
    assert!(answer.contains("Line one."));
    assert!(answer.contains("Line two"));
    assert!(answer.contains("Line three"));
    assert_eq!(confidence, 700);
}

#[test]
fn interpretation_of_the_overrange_multiline_reply() {
    let response = "ANSWER: Line 1\nLine 2\nCONFIDENCE: 1.7\nENTITIES: X, Y\nSOURCES: NONE";
    let (answer, confidence, entities, sources) = parse_interpretation(response);
    assert_eq!(answer, "Line 1\nLine 2");
    assert_eq!(confidence, 1000);
    assert_eq!(entities, vec!["X".to_string(), "Y".to_string()]);
    assert!(sources.is_empty());
}

#[test]
fn emitted_interpretation_parses_back() {
    let entities = vec!["John Doe".to_string(), "Acme Corp".to_string()];
    let sources = vec!["ofac_sdn".to_string()];
    let text = emit_interpretation("All fields accounted for.", 850, &entities, &sources);

    let (answer, confidence, parsed_entities, parsed_sources) = parse_interpretation(&text);
    assert_eq!(answer, "All fields accounted for.");
    assert_eq!(confidence, 850);
    assert_eq!(parsed_entities, entities);
    assert_eq!(parsed_sources, sources);
}

#[test]
fn emitted_empty_lists_parse_back_empty() {
    let text = emit_interpretation("Nothing found.", 0, &Vec::new(), &Vec::new());
    let (answer, confidence, entities, sources) = parse_interpretation(&text);
    assert_eq!(answer, "Nothing found.");
    assert_eq!(confidence, 0);
    assert!(entities.is_empty());
    assert!(sources.is_empty());
}

#[test]
fn no_queries_is_a_reasoning_error() {
    match queries_or_reasoning_error(Vec::new()) {
        Err(ArgusError::Reasoning(_)) => {}
        _ => panic!("expected a reasoning error"),
    }
    let qs = vec!["MATCH (n) RETURN n".to_string()];
    assert_eq!(queries_or_reasoning_error(qs.clone()).unwrap(), qs);
}

#[test]
fn short_results_pass_through_untruncated() {
    let s = "[{\"n\": 1}]";
    assert_eq!(truncate_result_text(s), s);
}

#[test]
fn long_results_are_annotated_with_their_length() {
    let s = "x".repeat(5000);
    let t = truncate_result_text(&s);
    assert!(t.len() < 4100);
    assert!(t.contains("truncated"));
    assert!(t.contains("5000"));
}

#[test]
fn summary_blocks_carry_the_query_and_result() {
    let block = build_summary_block(1, "MATCH (n) RETURN n", "[]");
    assert_eq!(block, "--- Query 1 ---\nCypher: MATCH (n) RETURN n\nResult:\n[]\n\n");
}
