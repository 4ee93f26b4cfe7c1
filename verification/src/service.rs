//! Service-boundary decisions: the health summary, the trigger reply, run
//! records, and the post-query type filter of entity search.

use vstd::prelude::*;
use vstd::string::StringExecFns;

use crate::model::{
    AgentRunState, AgentRunStatus, AgentTriggerResponse, Entity, EntityType, HealthResponse,
};

verus! {

/// The health summary: ok with a connected graph, degraded without one.
pub fn health_response(
    neo4j_connected: bool,
    entity_count: u64,
    relationship_count: u64,
) -> (r: HealthResponse)
    ensures
        neo4j_connected ==> r.status@ == "ok"@,
        !neo4j_connected ==> r.status@ == "degraded"@,
        r.version@ == "0.1.0"@,
        r.neo4j_connected == neo4j_connected,
        r.qdrant_connected == neo4j_connected,
        r.entity_count == entity_count,
        r.relationship_count == relationship_count,
{
    let status = if neo4j_connected {
        "ok".to_owned()
    } else {
        "degraded".to_owned()
    };
    HealthResponse {
        status,
        version: "0.1.0".to_owned(),
        neo4j_connected,
        qdrant_connected: neo4j_connected,
        entity_count,
        relationship_count,
    }
}

/// The record a freshly started run begins with.
pub fn new_run_record(run_id: String, agent_name: String, started_at: i64) -> (r: AgentRunStatus)
    ensures
        r.run_id == run_id,
        r.agent_name == agent_name,
        r.status == AgentRunState::Running,
        r.started_at == started_at,
        r.finished_at is None,
        r.documents_collected == 0,
        r.entities_extracted == 0,
        r.error is None,
{
    AgentRunStatus {
        run_id,
        agent_name,
        status: AgentRunState::Running,
        started_at,
        finished_at: None,
        documents_collected: 0,
        entities_extracted: 0,
        error: None,
    }
}

/// The accepted-trigger reply: the run is reported running in the
/// background.
pub fn trigger_accepted(run_id: String, agent_name: String) -> (r: AgentTriggerResponse)
    ensures
        r.run_id == run_id,
        r.agent_name == agent_name,
        r.status@ == "running"@,
{
    AgentTriggerResponse {
        run_id,
        agent_name,
        status: "running".to_owned(),
        message: "Agent triggered, pipeline running in background".to_owned(),
    }
}

/// The subsequence of the given type, order kept.
pub open spec fn spec_of_type(s: Seq<Entity>, t: EntityType) -> Seq<Entity>
    decreases s.len(),
{
    if s.len() == 0 {
        Seq::empty()
    } else {
        let rest = spec_of_type(s.drop_last(), t);
        if s.last().entity_type == t {
            rest.push(s.last())
        } else {
            rest
        }
    }
}

/// Keep exactly the entities of the requested type, order kept; no filter
/// keeps them all.
pub fn filter_by_type(entities: Vec<Entity>, entity_type: &Option<EntityType>) -> (r: Vec<Entity>)
    ensures
        match entity_type {
            Some(t) => r@ == spec_of_type(entities@, *t),
            None => r@ == entities@,
        },
{
    match entity_type {
        Some(t) => {
            let mut out: Vec<Entity> = Vec::new();
            let ghost all = entities@;
            let mut entities = entities;
            while entities.len() > 0
                invariant
                    entities@.len() <= all.len(),
                    entities@ == all.skip(all.len() - entities@.len()),
                    out@ == spec_of_type(all.take(all.len() - entities@.len()), *t),
                decreases entities@.len(),
            {
                let ghost k = all.len() - entities@.len();
                let e = entities.remove(0);
                proof {
                    assert(all.skip(k)[0] == all[k]);
                    assert(e == all[k]);
                    assert(entities@ =~= all.skip(k + 1));
                    assert(all.take(k + 1).drop_last() =~= all.take(k));
                    assert(all.take(k + 1).last() == all[k]);
                }
                if e.entity_type == *t {
                    out.push(e);
                }
            }
            proof {
                assert(all.take(all.len() as int) =~= all);
            }
            out
        },
        None => entities,
    }
}

} // verus!
