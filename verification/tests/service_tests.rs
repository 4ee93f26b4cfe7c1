use argus::model::{Entity, EntityType};
use argus::model::default_limit;
use argus::service::{filter_by_type, health_response, trigger_accepted};

#[test]
fn health_is_ok_exactly_when_the_graph_answers() {
    let up = health_response(true, 10, 4);
    assert_eq!(up.status, "ok");
    assert!(up.neo4j_connected);
    assert_eq!(up.entity_count, 10);
    assert_eq!(up.relationship_count, 4);

    let down = health_response(false, 0, 0);
    assert_eq!(down.status, "degraded");
    assert!(!down.neo4j_connected);
}

#[test]
fn triggers_answer_with_a_running_run() {
    let r = trigger_accepted("run-7".to_string(), "gdelt".to_string());
    assert_eq!(r.run_id, "run-7");
    assert_eq!(r.agent_name, "gdelt");
    assert_eq!(r.status, "running");
    assert!(!r.message.is_empty());
}

#[test]
fn search_results_filter_by_type_after_the_query() {
    let a = Entity::new(EntityType::Person, "Alice".to_string(), "t".to_string());
    let b = Entity::new(
        EntityType::Organization,
        "Acme".to_string(),
        "t".to_string(),
    );
    let c = Entity::new(EntityType::Person, "Bob".to_string(), "t".to_string());

    let filtered = filter_by_type(vec![a, b, c], &Some(EntityType::Person));
    assert_eq!(filtered.len(), 2);
    assert!(filtered.iter().all(|e| e.entity_type == EntityType::Person));

    let d = Entity::new(EntityType::Vessel, "Boat".to_string(), "t".to_string());
    let unfiltered = filter_by_type(vec![d], &None);
    assert_eq!(unfiltered.len(), 1);
}

#[test]
fn the_default_page_limit_is_twenty() {
    assert_eq!(default_limit(), 20);
}
