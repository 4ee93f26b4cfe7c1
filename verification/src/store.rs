//! The graph store: transactional upsert of extraction results with
//! cross-source entity resolution, search, neighbourhood traversal and
//! counts, over an in-memory labelled property graph.
//!
//! The merge protocol is the heart: an incoming entity first looks for a
//! node of the same type whose name matches case-insensitively but whose
//! original source differs — that node is enriched and its source list
//! extended.  Otherwise the entity upserts by its (source, source id) key,
//! or by id.  Edges are unique per (source, target, type, source-name)
//! and merge monotonically.

use vstd::prelude::*;

use crate::model::{ArgusError, Entity, ExtractionResult, Relationship, CONFIDENCE_UNIT};
use crate::text::{contains_bytes, eq_str, fold_name, has_sub, str_bytes};

verus! {

/// A stored node: the entity and the set of source agents that have
/// observed it.
pub struct StoredEntity {
    pub entity: Entity,
    pub sources: Vec<String>,
}

/// The source list is a set containing the entity's original source.
pub open spec fn sources_wf(se: StoredEntity) -> bool {
    &&& exists|k: int| 0 <= k < se.sources@.len() && (#[trigger] se.sources@[k])@ == se.entity.source@
    &&& forall|k1: int, k2: int|
        0 <= k1 < k2 < se.sources@.len() ==> (#[trigger] se.sources@[k1])@ != (
        #[trigger] se.sources@[k2])@
}

/// Two edges collide when they share endpoints, type and source.
pub open spec fn edge_key_eq(a: Relationship, b: Relationship) -> bool {
    &&& a.source_entity_id == b.source_entity_id
    &&& a.target_entity_id == b.target_entity_id
    &&& a.relation_type == b.relation_type
    &&& a.source@ == b.source@
}

/// At most one edge per (source, target, type, source-name) key.
pub open spec fn edges_unique(rels: Seq<Relationship>) -> bool {
    forall|i: int, j: int|
        0 <= i < j < rels.len() ==> !edge_key_eq(#[trigger] rels[i], #[trigger] rels[j])
}

/// A stored node accounts for an incoming entity: it is at least as
/// confident and the incoming source is among its sources.
pub open spec fn absorbs(se: StoredEntity, e: Entity) -> bool {
    &&& se.entity.confidence >= e.confidence
    &&& exists|k: int| 0 <= k < se.sources@.len() && (#[trigger] se.sources@[k])@ == e.source@
}

/// Some stored node accounts for the incoming entity.
pub open spec fn absorbed(entities: Seq<StoredEntity>, e: Entity) -> bool {
    exists|i: int| 0 <= i < entities.len() && absorbs(#[trigger] entities[i], e)
}

/// Whether some stored node carries this id.
pub open spec fn spec_has_id(entities: Seq<StoredEntity>, id: u128) -> bool {
    exists|i: int| 0 <= i < entities.len() && (#[trigger] entities[i]).entity.id == id
}

/// What merging one relationship into the stored edges yields: when an
/// edge with the incoming key already stands at some position, it stays
/// there under its original id with the larger confidence, the incoming
/// properties, and the incoming timestamp only when one came, every other
/// edge untouched; otherwise the relationship is appended as it is.
pub open spec fn edge_merge_outcome(
    before: Seq<Relationship>,
    rel: Relationship,
    after: Seq<Relationship>,
) -> bool {
    if exists|i: int| 0 <= i < before.len() && edge_key_eq(#[trigger] before[i], rel) {
        exists|i: int|
            0 <= i < before.len() && edge_key_eq(#[trigger] before[i], rel) && {
                &&& after.len() == before.len()
                &&& after[i].id == before[i].id
                &&& after[i].confidence == if rel.confidence > before[i].confidence {
                    rel.confidence
                } else {
                    before[i].confidence
                }
                &&& after[i].timestamp == (match rel.timestamp {
                    Some(t) => Some(t),
                    None => before[i].timestamp,
                })
                &&& after[i].properties == rel.properties
                &&& forall|j: int| 0 <= j < before.len() && j != i ==> after[j] == #[trigger] before[j]
            }
    } else {
        after == before.push(rel)
    }
}

/// An edge with this key stands in the store, at least as confident.
pub open spec fn edge_absorbed(rels: Seq<Relationship>, r: Relationship) -> bool {
    exists|i: int|
        0 <= i < rels.len() && edge_key_eq(#[trigger] rels[i], r) && rels[i].confidence
            >= r.confidence
}

/// How one store state extends another: nodes are never dropped, keep
/// their ids, never lose confidence, and only gain sources.
pub open spec fn nodes_extended(before: Seq<StoredEntity>, after: Seq<StoredEntity>) -> bool {
    &&& after.len() >= before.len()
    &&& forall|i: int|
        0 <= i < before.len() ==> (#[trigger] before[i]).sources@.is_prefix_of(
            after[i].sources@,
        )
    &&& forall|i: int|
        0 <= i < before.len() ==> (#[trigger] after[i]).entity.confidence
            >= before[i].entity.confidence
    &&& forall|i: int|
        0 <= i < before.len() ==> (#[trigger] after[i]).entity.id == before[i].entity.id
}

/// Extension composes.
proof fn lemma_nodes_extended_trans(
    a: Seq<StoredEntity>,
    b: Seq<StoredEntity>,
    c: Seq<StoredEntity>,
)
    requires
        nodes_extended(a, b),
        nodes_extended(b, c),
    ensures
        nodes_extended(a, c),
{
    assert forall|i: int| 0 <= i < a.len() implies (#[trigger] a[i]).sources@.is_prefix_of(
        c[i].sources@,
    ) by {
        assert(a[i].sources@.is_prefix_of(b[i].sources@));
        assert(b[i].sources@.is_prefix_of(c[i].sources@));
        assert(a[i].sources@ =~= c[i].sources@.subrange(0, a[i].sources@.len() as int));
    }
}

/// An absorbed entity stays absorbed when the store extends.
proof fn lemma_absorbed_preserved(
    before: Seq<StoredEntity>,
    after: Seq<StoredEntity>,
    e: Entity,
)
    requires
        nodes_extended(before, after),
        absorbed(before, e),
    ensures
        absorbed(after, e),
{
    let i = choose|i: int| 0 <= i < before.len() && absorbs(#[trigger] before[i], e);
    let k = choose|k: int|
        0 <= k < before[i].sources@.len() && (#[trigger] before[i].sources@[k])@ == e.source@;
    assert(before[i].sources@ =~= after[i].sources@.subrange(
        0,
        before[i].sources@.len() as int,
    ));
    assert(after[i].sources@[k]@ == e.source@);
    assert(absorbs(after[i], e));
}

/// An absorbed edge stays absorbed when edges keep their keys, never lose
/// confidence, and are only added.
proof fn lemma_edge_absorbed_preserved(
    before: Seq<Relationship>,
    after: Seq<Relationship>,
    r: Relationship,
)
    requires
        after.len() >= before.len(),
        forall|i: int|
            0 <= i < before.len() ==> edge_key_eq(#[trigger] after[i], before[i]) && after[i].confidence
                >= before[i].confidence,
        edge_absorbed(before, r),
    ensures
        edge_absorbed(after, r),
{
    let i = choose|i: int|
        0 <= i < before.len() && edge_key_eq(#[trigger] before[i], r) && before[i].confidence
            >= r.confidence;
    assert(edge_key_eq(after[i], r));
}

/// Field-by-field agreement of two entity values, over their views.
pub open spec fn entity_like(a: Entity, b: Entity) -> bool {
    &&& a.id == b.id
    &&& a.entity_type == b.entity_type
    &&& a.name == b.name
    &&& a.aliases@ == b.aliases@
    &&& a.properties == b.properties
    &&& a.source == b.source
    &&& a.source_id == b.source_id
    &&& a.confidence == b.confidence
    &&& a.first_seen == b.first_seen
    &&& a.last_seen == b.last_seen
}

/// Element-wise agreement of two entity sequences.
pub open spec fn entities_like(a: Seq<Entity>, b: Seq<Entity>) -> bool {
    a.len() == b.len() && forall|i: int| 0 <= i < a.len() ==> entity_like(#[trigger] a[i], b[i])
}

/// The first index holding this id, if any.
pub open spec fn spec_find_id(entities: Seq<StoredEntity>, id: u128) -> Option<int>
    decreases entities.len(),
{
    if entities.len() == 0 {
        None
    } else if entities[0].entity.id == id {
        Some(0int)
    } else {
        match spec_find_id(entities.drop_first(), id) {
            Some(i) => Some(i + 1),
            None => None,
        }
    }
}

/// A forward scan that saw no hit before `i` pins down the first index.
proof fn lemma_find_id(entities: Seq<StoredEntity>, id: u128, i: int)
    requires
        0 <= i <= entities.len(),
        forall|k: int| 0 <= k < i ==> (#[trigger] entities[k]).entity.id != id,
        i == entities.len() || entities[i].entity.id == id,
    ensures
        i < entities.len() ==> spec_find_id(entities, id) == Some(i),
        i == entities.len() ==> spec_find_id(entities, id) is None,
    decreases i,
{
    if i == 0 {
        if entities.len() > 0 {
        }
    } else {
        lemma_find_id(entities.drop_first(), id, i - 1);
    }
}

/// The first index exists exactly when some node has the id.
proof fn lemma_find_id_has(entities: Seq<StoredEntity>, id: u128)
    ensures
        spec_find_id(entities, id) is Some <==> spec_has_id(entities, id),
        spec_find_id(entities, id) matches Some(i) ==> 0 <= i < entities.len()
            && entities[i].entity.id == id,
    decreases entities.len(),
{
    if entities.len() > 0 {
        lemma_find_id_has(entities.drop_first(), id);
        if entities[0].entity.id == id {
        } else {
            assert forall|k: int|
                0 <= k < entities.drop_first().len() implies #[trigger] entities.drop_first()[k]
                == entities[k + 1] by {}
            if spec_has_id(entities, id) {
                let w = choose|w: int|
                    0 <= w < entities.len() && (#[trigger] entities[w]).entity.id == id;
                assert(entities.drop_first()[w - 1].entity.id == id);
                assert(spec_has_id(entities.drop_first(), id));
            }
        }
    }
}

/// The stored entities whose name contains the query, in store order.
pub open spec fn spec_matches(entities: Seq<StoredEntity>, q: Seq<u8>) -> Seq<Entity>
    decreases entities.len(),
{
    if entities.len() == 0 {
        Seq::empty()
    } else {
        let rest = spec_matches(entities.drop_last(), q);
        if has_sub(vstd::utf8::encode_utf8(entities.last().entity.name@), q) {
            rest.push(entities.last().entity)
        } else {
            rest
        }
    }
}

/// Matches over a prefix are a prefix of the matches.
proof fn lemma_matches_prefix(entities: Seq<StoredEntity>, q: Seq<u8>, i: int)
    requires
        0 <= i <= entities.len(),
    ensures
        spec_matches(entities.take(i), q).is_prefix_of(spec_matches(entities, q)),
    decreases entities.len() - i,
{
    if i == entities.len() {
        assert(entities.take(i) =~= entities);
        assert(spec_matches(entities, q) =~= spec_matches(entities, q).subrange(
            0,
            spec_matches(entities, q).len() as int,
        ));
    } else {
        lemma_matches_prefix(entities, q, i + 1);
        assert(entities.take(i + 1).drop_last() =~= entities.take(i));
        assert(entities.take(i + 1).last() == entities[i]);
        let a = spec_matches(entities.take(i), q);
        let b = spec_matches(entities.take(i + 1), q);
        let c = spec_matches(entities, q);
        assert(a.is_prefix_of(b));
        assert(b =~= c.subrange(0, b.len() as int));
        assert(a =~= c.subrange(0, a.len() as int));
    }
}

/// Whether a stored node is a cross-source merge target for an incoming
/// entity: same type, case-folded name equal, original source different.
pub open spec fn is_merge_target(se: StoredEntity, e: Entity) -> bool {
    &&& se.entity.entity_type == e.entity_type
    &&& crate::text::lower_of(vstd::utf8::encode_utf8(se.entity.name@)) == crate::text::lower_of(
        vstd::utf8::encode_utf8(e.name@),
    )
    &&& se.entity.source@ != e.source@
}

/// The first cross-source merge target, if any.
pub open spec fn spec_merge_target(entities: Seq<StoredEntity>, e: Entity) -> Option<int>
    decreases entities.len(),
{
    if entities.len() == 0 {
        None
    } else if is_merge_target(entities[0], e) {
        Some(0int)
    } else {
        match spec_merge_target(entities.drop_first(), e) {
            Some(i) => Some(i + 1),
            None => None,
        }
    }
}

/// A forward scan with no target before `i` pins down the first target.
proof fn lemma_merge_target(entities: Seq<StoredEntity>, e: Entity, i: int)
    requires
        0 <= i <= entities.len(),
        forall|k: int| 0 <= k < i ==> !is_merge_target(#[trigger] entities[k], e),
        i == entities.len() || is_merge_target(entities[i], e),
    ensures
        i < entities.len() ==> spec_merge_target(entities, e) == Some(i),
        i == entities.len() ==> spec_merge_target(entities, e) is None,
    decreases i,
{
    if i > 0 {
        lemma_merge_target(entities.drop_first(), e, i - 1);
    }
}

/// A merge target lies in range and satisfies the rule.
proof fn lemma_merge_target_bounds(entities: Seq<StoredEntity>, e: Entity)
    ensures
        spec_merge_target(entities, e) matches Some(i) ==> 0 <= i < entities.len()
            && is_merge_target(entities[i], e),
    decreases entities.len(),
{
    if entities.len() > 0 && !is_merge_target(entities[0], e) {
        lemma_merge_target_bounds(entities.drop_first(), e);
    }
}

/// How the merge target changes when an entity merges into it: aliases,
/// properties and last-seen refreshed, confidence the maximum of old and
/// incoming, identity and first-seen kept.
pub open spec fn merged_into(before: StoredEntity, e: Entity, after: StoredEntity) -> bool {
    &&& after.entity.id == before.entity.id
    &&& after.entity.entity_type == before.entity.entity_type
    &&& after.entity.name == before.entity.name
    &&& after.entity.source == before.entity.source
    &&& after.entity.source_id == before.entity.source_id
    &&& after.entity.first_seen == before.entity.first_seen
    &&& after.entity.aliases@ == e.aliases@
    &&& after.entity.properties == e.properties
    &&& after.entity.last_seen == e.last_seen
    &&& after.entity.confidence == if e.confidence > before.entity.confidence {
        e.confidence as int
    } else {
        before.entity.confidence as int
    }
}

/// The outcome of one cross-source merge into the node at `t`: the target
/// reflects the incoming entity, everything else is untouched.
pub open spec fn merge_outcome(
    before: Seq<StoredEntity>,
    e: Entity,
    t: int,
    after: Seq<StoredEntity>,
) -> bool {
    &&& after.len() == before.len()
    &&& merged_into(before[t], e, after[t])
    &&& forall|j: int| 0 <= j < before.len() && j != t ==> after[j] == before[j]
}

/// The in-memory labelled property graph.
pub struct GraphStore {
    pub entities: Vec<StoredEntity>,
    pub relationships: Vec<Relationship>,
}

impl GraphStore {
    /// The store's invariant: confidences in range, source lists proper
    /// sets holding the original source, and edge keys unique.
    pub open spec fn wf(self) -> bool {
        &&& forall|i: int|
            0 <= i < self.entities@.len() ==> (#[trigger] self.entities@[i]).entity.confidence
                <= CONFIDENCE_UNIT
        &&& forall|i: int| 0 <= i < self.entities@.len() ==> sources_wf(#[trigger] self.entities@[i])
        &&& forall|i: int|
            0 <= i < self.relationships@.len() ==> (#[trigger] self.relationships@[i]).confidence
                <= CONFIDENCE_UNIT
        &&& edges_unique(self.relationships@)
    }

    pub fn new() -> (r: GraphStore)
        ensures
            r.wf(),
            r.entities@.len() == 0,
            r.relationships@.len() == 0,
    {
        GraphStore { entities: Vec::new(), relationships: Vec::new() }
    }

    /// The index of the first node of the same type whose name matches
    /// case-insensitively and whose original source differs.
    fn find_merge_target(&self, e: &Entity) -> (r: Option<usize>)
        ensures
            r == match spec_merge_target(self.entities@, *e) {
                Some(i) => Some(i as usize),
                None => None::<usize>,
            },
            r matches Some(i) ==> i < self.entities@.len(),
    {
        let key = fold_name(e.name.as_str());
        let n = self.entities.len();
        let mut i: usize = 0;
        while i < n
            invariant
                i <= n,
                n == self.entities@.len(),
                crate::text::string_bytes(&key) == crate::text::lower_of(
                    vstd::utf8::encode_utf8(e.name@),
                ),
                forall|k: int| 0 <= k < i ==> !is_merge_target(#[trigger] self.entities@[k], *e),
            decreases n - i,
        {
            let cand = &self.entities[i];
            if cand.entity.entity_type == e.entity_type {
                let cand_key = fold_name(cand.entity.name.as_str());
                if eq_str(cand_key.as_str(), key.as_str()) && !eq_str(
                    cand.entity.source.as_str(),
                    e.source.as_str(),
                ) {
                    proof {
                        vstd::utf8::encode_utf8_decode_utf8(cand_key@);
                        vstd::utf8::encode_utf8_decode_utf8(key@);
                        assert(is_merge_target(self.entities@[i as int], *e));
                        lemma_merge_target(self.entities@, *e, i as int);
                    }
                    return Some(i);
                }
                proof {
                    if crate::text::lower_of(vstd::utf8::encode_utf8(
                        cand.entity.name@,
                    )) == crate::text::lower_of(vstd::utf8::encode_utf8(e.name@)) {
                        vstd::utf8::encode_utf8_decode_utf8(cand_key@);
                        vstd::utf8::encode_utf8_decode_utf8(key@);
                        assert(cand_key@ =~= key@);
                    }
                }
            }
            i += 1;
        }
        proof {
            lemma_merge_target(self.entities@, *e, n as int);
        }
        None
    }

    /// The index of the node this entity identifies: by (source, source id)
    /// when a source id is present, else by id.
    fn find_identity_target(&self, e: &Entity) -> (r: Option<usize>)
        ensures
            r matches Some(i) ==> i < self.entities@.len(),
    {
        let n = self.entities.len();
        let mut i: usize = 0;
        while i < n
            invariant
                i <= n,
                n == self.entities@.len(),
            decreases n - i,
        {
            let cand = &self.entities[i];
            match (&e.source_id, &cand.entity.source_id) {
                (Some(esid), Some(csid)) => {
                    if eq_str(cand.entity.source.as_str(), e.source.as_str()) && eq_str(
                        csid.as_str(),
                        esid.as_str(),
                    ) {
                        return Some(i);
                    }
                },
                (None, _) => {
                    if cand.entity.id == e.id {
                        return Some(i);
                    }
                },
                _ => {},
            }
            i += 1;
        }
        None
    }

    /// Whether some stored node carries this id.
    fn has_entity_id(&self, id: u128) -> (r: bool)
        ensures
            r == spec_has_id(self.entities@, id),
    {
        let n = self.entities.len();
        let mut i: usize = 0;
        while i < n
            invariant
                i <= n,
                n == self.entities@.len(),
                forall|k: int| 0 <= k < i ==> (#[trigger] self.entities@[k]).entity.id != id,
            decreases n - i,
        {
            if self.entities[i].entity.id == id {
                return true;
            }
            i += 1;
        }
        false
    }

    /// Add a source name to the list when it is not yet there.
    fn extend_sources(sources: &mut Vec<String>, src: &String)
        ensures
            old(sources)@.len() <= final(sources)@.len(),
            forall|k: int|
                0 <= k < old(sources)@.len() ==> (#[trigger] final(sources)@[k]) == old(
                    sources,
                )@[k],
            exists|k: int|
                0 <= k < final(sources)@.len() && (#[trigger] final(sources)@[k])@ == src@,
            (forall|k1: int, k2: int|
                0 <= k1 < k2 < old(sources)@.len() ==> (#[trigger] old(sources)@[k1])@ != (
                #[trigger] old(sources)@[k2])@) ==> (forall|k1: int, k2: int|
                0 <= k1 < k2 < final(sources)@.len() ==> (#[trigger] final(sources)@[k1])@ != (
                #[trigger] final(sources)@[k2])@),
    {
        let n = sources.len();
        let mut i: usize = 0;
        while i < n
            invariant
                i <= n,
                n == sources@.len(),
                forall|k: int| 0 <= k < i ==> (#[trigger] sources@[k])@ != src@,
            decreases n - i,
        {
            if eq_str(sources[i].as_str(), src.as_str()) {
                proof {
                    assert(sources@[i as int]@ == src@);
                }
                return ;
            }
            i += 1;
        }
        sources.push(src.clone());
        proof {
            assert(sources@[sources@.len() - 1]@ == src@);
        }
    }

    /// Merge one entity into the store, as the upsert algorithm says.
    fn upsert_entity(&mut self, e: Entity)
        requires
            old(self).wf(),
            e.confidence <= CONFIDENCE_UNIT,
        ensures
            final(self).wf(),
            final(self).relationships@ == old(self).relationships@,
            nodes_extended(old(self).entities@, final(self).entities@),
            absorbed(final(self).entities@, e),
            spec_merge_target(old(self).entities@, e) matches Some(i) ==> {
                &&& final(self).entities@.len() == old(self).entities@.len()
                &&& merged_into(old(self).entities@[i], e, final(self).entities@[i])
                &&& forall|j: int|
                    0 <= j < old(self).entities@.len() && j != i
                        ==> final(self).entities@[j] == old(self).entities@[j]
            },
    {
        let node_count = self.entities.len();
        proof {
            lemma_merge_target_bounds(self.entities@, e);
            assert(self.entities@.len() == node_count);
        }
        let merge = self.find_merge_target(&e);
        match merge {
            Some(i) => {
                let ghost before = self.entities@;
                let old_se = self.entities.remove(i);
                let Entity {
                    id,
                    entity_type,
                    name,
                    aliases: _,
                    properties: _,
                    source,
                    source_id,
                    confidence,
                    first_seen,
                    last_seen: _,
                } = old_se.entity;
                let mut sources = old_se.sources;
                let ghost old_sources = sources@;
                Self::extend_sources(&mut sources, &e.source);
                let new_conf = if e.confidence > confidence {
                    e.confidence
                } else {
                    confidence
                };
                let new_se = StoredEntity {
                    entity: Entity {
                        id,
                        entity_type,
                        name,
                        aliases: e.aliases,
                        properties: e.properties,
                        source,
                        source_id,
                        confidence: new_conf,
                        first_seen,
                        last_seen: e.last_seen,
                    },
                    sources,
                };
                let ghost ns = new_se.sources@;
                let ghost nsrc = new_se.entity.source@;
                let ghost nconf = new_se.entity.confidence;
                self.entities.insert(i, new_se);
                proof {
                    assert(self.entities@ =~= before.update(i as int, self.entities@[i as int]));
                    assert(sources_wf(before[i as int]));
                    let k0 = choose|k: int|
                        0 <= k < old_sources.len() && (#[trigger] old_sources[k])@ == nsrc;
                    assert(ns[k0]@ == nsrc);
                    assert(sources_wf(self.entities@[i as int]));
                    assert(old_sources.is_prefix_of(ns)) by {
                        assert(old_sources =~= ns.subrange(0, old_sources.len() as int));
                    }
                    assert forall|x: int| 0 <= x < before.len() implies (
                    #[trigger] before[x]).sources@.is_prefix_of(self.entities@[x].sources@) by {
                        if x != i {
                            assert(before[x].sources@ =~= self.entities@[x].sources@.subrange(
                                0,
                                before[x].sources@.len() as int,
                            ));
                        }
                    }
                    assert(nodes_extended(before, self.entities@));
                    assert(absorbs(self.entities@[i as int], e));
                    assert(merged_into(before[i as int], e, self.entities@[i as int]));
                    assert(before == old(self).entities@);
                    assert(match spec_merge_target(before, e) {
                        Some(x) => x == i as int,
                        None => false,
                    });
                }
            },
            None => {
                let ident = self.find_identity_target(&e);
                match ident {
                    Some(i) => {
                        let ghost before = self.entities@;
                        let old_se = self.entities.remove(i);
                        let Entity {
                            id,
                            entity_type,
                            name: _,
                            aliases: _,
                            properties: _,
                            source,
                            source_id,
                            confidence,
                            first_seen,
                            last_seen: _,
                        } = old_se.entity;
                        let mut sources = old_se.sources;
                        let ghost old_sources = sources@;
                        Self::extend_sources(&mut sources, &e.source);
                        let new_conf = if e.confidence > confidence {
                            e.confidence
                        } else {
                            confidence
                        };
                        let new_se = StoredEntity {
                            entity: Entity {
                                id,
                                entity_type,
                                name: e.name,
                                aliases: e.aliases,
                                properties: e.properties,
                                source,
                                source_id,
                                confidence: new_conf,
                                first_seen,
                                last_seen: e.last_seen,
                            },
                            sources,
                        };
                        let ghost ns = new_se.sources@;
                        let ghost nsrc = new_se.entity.source@;
                        self.entities.insert(i, new_se);
                        proof {
                            assert(self.entities@ =~= before.update(
                                i as int,
                                self.entities@[i as int],
                            ));
                            assert(sources_wf(before[i as int]));
                            let k0 = choose|k: int|
                                0 <= k < old_sources.len() && (#[trigger] old_sources[k])@
                                    == nsrc;
                            assert(ns[k0]@ == nsrc);
                            assert(sources_wf(self.entities@[i as int]));
                            assert(old_sources.is_prefix_of(ns)) by {
                                assert(old_sources =~= ns.subrange(
                                    0,
                                    old_sources.len() as int,
                                ));
                            }
                            assert forall|x: int| 0 <= x < before.len() implies (
                            #[trigger] before[x]).sources@.is_prefix_of(
                                self.entities@[x].sources@,
                            ) by {
                                if x != i {
                                    assert(before[x].sources@
                                        =~= self.entities@[x].sources@.subrange(
                                        0,
                                        before[x].sources@.len() as int,
                                    ));
                                }
                            }
                            assert(nodes_extended(before, self.entities@));
                            assert(absorbs(self.entities@[i as int], e));
                        }
                    },
                    None => {
                        let ghost before = self.entities@;
                        let src = e.source.clone();
                        let se = StoredEntity { entity: e, sources: vec![src] };
                        proof {
                            assert(se.sources@[0]@ == se.entity.source@);
                            assert(sources_wf(se));
                        }
                        self.entities.push(se);
                        proof {
                            assert forall|x: int| 0 <= x < before.len() implies (
                            #[trigger] before[x]).sources@.is_prefix_of(
                                self.entities@[x].sources@,
                            ) by {
                                assert(before[x].sources@
                                    =~= self.entities@[x].sources@.subrange(
                                    0,
                                    before[x].sources@.len() as int,
                                ));
                            }
                            assert(nodes_extended(before, self.entities@));
                            assert(absorbs(self.entities@[self.entities@.len() - 1], e));
                        }
                    },
                }
            },
        }
    }

    /// Merge one relationship into the store: endpoints must exist; the
    /// edge merges on its key, keeping confidence monotone and the earlier
    /// timestamp when the incoming one is absent.
    fn upsert_relationship(&mut self, rel: Relationship)
        requires
            old(self).wf(),
            rel.confidence <= CONFIDENCE_UNIT,
        ensures
            final(self).wf(),
            final(self).entities@ == old(self).entities@,
            final(self).relationships@.len() >= old(self).relationships@.len(),
            forall|i: int|
                0 <= i < old(self).relationships@.len() ==> edge_key_eq(
                    #[trigger] final(self).relationships@[i],
                    old(self).relationships@[i],
                ) && final(self).relationships@[i].confidence >= old(
                    self,
                ).relationships@[i].confidence,
            spec_has_id(old(self).entities@, rel.source_entity_id) && spec_has_id(
                old(self).entities@,
                rel.target_entity_id,
            ) ==> edge_absorbed(final(self).relationships@, rel),
            spec_has_id(old(self).entities@, rel.source_entity_id) && spec_has_id(
                old(self).entities@,
                rel.target_entity_id,
            ) ==> edge_merge_outcome(old(self).relationships@, rel, final(self).relationships@),
    {
        if !self.has_entity_id(rel.source_entity_id) || !self.has_entity_id(
            rel.target_entity_id,
        ) {
            // An endpoint is missing from the graph: nothing is written.
            return ;
        }
        let n = self.relationships.len();
        let mut i: usize = 0;
        while i < n
            invariant
                i <= n,
                self.wf(),
                self == old(self),
                n == self.relationships@.len(),
                rel.confidence <= CONFIDENCE_UNIT,
                forall|k: int|
                    0 <= k < i ==> !edge_key_eq(#[trigger] self.relationships@[k], rel),
            decreases n - i,
        {
            let cand = &self.relationships[i];
            if cand.source_entity_id == rel.source_entity_id && cand.target_entity_id
                == rel.target_entity_id && cand.relation_type == rel.relation_type && eq_str(
                cand.source.as_str(),
                rel.source.as_str(),
            ) {
                // Merge onto the existing edge.
                let ghost before = self.relationships@;
                let old_rel = self.relationships.remove(i);
                let new_conf = if rel.confidence > old_rel.confidence {
                    rel.confidence
                } else {
                    old_rel.confidence
                };
                let new_ts = match rel.timestamp {
                    Some(t) => Some(t),
                    None => old_rel.timestamp,
                };
                let new_rel = Relationship {
                    id: old_rel.id,
                    source_entity_id: old_rel.source_entity_id,
                    target_entity_id: old_rel.target_entity_id,
                    relation_type: old_rel.relation_type,
                    properties: rel.properties,
                    confidence: new_conf,
                    source: old_rel.source,
                    timestamp: new_ts,
                };
                self.relationships.insert(i, new_rel);
                proof {
                    let now = self.relationships@;
                    assert(now =~= before.update(i as int, now[i as int]));
                    assert(edge_key_eq(now[i as int], before[i as int]));
                    assert forall|a: int, b: int| 0 <= a < b < now.len() implies !edge_key_eq(
                        #[trigger] now[a],
                        #[trigger] now[b],
                    ) by {
                        assert(!edge_key_eq(before[a], before[b]));
                    }
                    assert(edge_key_eq(now[i as int], rel));
                    assert(now[i as int].confidence >= rel.confidence);
                    assert(edge_absorbed(now, rel));
                    assert(edge_key_eq(before[i as int], rel));
                    assert(now[i as int].id == before[i as int].id);
                    assert(forall|j: int|
                        0 <= j < before.len() && j != i as int ==> now[j] == #[trigger] before[j]);
                    assert(edge_merge_outcome(before, rel, now));
                }
                return ;
            }
            i += 1;
        }
        self.relationships.push(rel);
        proof {
            let now = self.relationships@;
            assert forall|a: int, b: int| 0 <= a < b < now.len() implies !edge_key_eq(
                #[trigger] now[a],
                #[trigger] now[b],
            ) by {
                if b < now.len() - 1 {
                    assert(!edge_key_eq(old(self).relationships@[a], old(self).relationships@[b]));
                } else {
                    assert(!edge_key_eq(old(self).relationships@[a], rel));
                }
            }
            assert(edge_key_eq(now[now.len() - 1], rel));
            assert(edge_absorbed(now, rel));
            assert(!(exists|x: int|
                0 <= x < old(self).relationships@.len() && edge_key_eq(
                    #[trigger] old(self).relationships@[x],
                    rel,
                )));
            assert(now =~= old(self).relationships@.push(rel));
            assert(edge_merge_outcome(old(self).relationships@, rel, now));
        }
    }

    /// Store one extraction result: every entity is merged, then every
    /// relationship.  Everything already stored keeps its id, loses no
    /// source and no confidence; every incoming entity ends up accounted
    /// for by some node at least as confident that lists its source; and
    /// every incoming relationship whose endpoints exist ends up as an
    /// edge with its key, at least as confident.
    pub fn store_extraction(&mut self, result: ExtractionResult) -> (r: Result<(), ArgusError>)
        requires
            old(self).wf(),
            forall|i: int|
                0 <= i < result.entities@.len() ==> (#[trigger] result.entities@[i]).confidence
                    <= CONFIDENCE_UNIT,
            forall|i: int|
                0 <= i < result.relationships@.len() ==> (
                #[trigger] result.relationships@[i]).confidence <= CONFIDENCE_UNIT,
        ensures
            final(self).wf(),
            r is Ok,
            nodes_extended(old(self).entities@, final(self).entities@),
            forall|j: int|
                0 <= j < result.entities@.len() ==> absorbed(
                    final(self).entities@,
                    #[trigger] result.entities@[j],
                ),
            forall|i: int|
                0 <= i < old(self).relationships@.len() ==> edge_key_eq(
                    #[trigger] final(self).relationships@[i],
                    old(self).relationships@[i],
                ) && final(self).relationships@[i].confidence >= old(
                    self,
                ).relationships@[i].confidence,
            forall|j: int|
                0 <= j < result.relationships@.len() ==> (spec_has_id(
                    final(self).entities@,
                    (#[trigger] result.relationships@[j]).source_entity_id,
                ) && spec_has_id(
                    final(self).entities@,
                    result.relationships@[j].target_entity_id,
                )) ==> edge_absorbed(
                    final(self).relationships@,
                    result.relationships@[j],
                ),
            final(self).relationships@.len() >= old(self).relationships@.len(),
            result.entities@.len() == 1 && result.relationships@.len() == 0
                ==> (spec_merge_target(old(self).entities@, result.entities@[0]) matches Some(
                t,
            ) ==> merge_outcome(
                old(self).entities@,
                result.entities@[0],
                t,
                final(self).entities@,
            ) && final(self).relationships@ == old(self).relationships@),
            result.entities@.len() == 0 && result.relationships@.len() == 1 ==> ((spec_has_id(
                final(self).entities@,
                result.relationships@[0].source_entity_id,
            ) && spec_has_id(
                final(self).entities@,
                result.relationships@[0].target_entity_id,
            )) ==> edge_merge_outcome(
                old(self).relationships@,
                result.relationships@[0],
                final(self).relationships@,
            )),
    {
        let ExtractionResult { entities, relationships, raw_source: _, extracted_at: _ } = result;
        let mut entities = entities;
        let ghost all_e = entities@;
        let ghost base = self.entities@;
        while entities.len() > 0
            invariant
                self.wf(),
                entities@.len() <= all_e.len(),
                entities@ == all_e.skip(all_e.len() - entities@.len()),
                nodes_extended(base, self.entities@),
                forall|j: int|
                    0 <= j < all_e.len() - entities@.len() ==> absorbed(
                        self.entities@,
                        #[trigger] all_e[j],
                    ),
                self.relationships@ == old(self).relationships@,
                all_e.len() == 1 ==> (spec_merge_target(base, all_e[0]) matches Some(t) ==> {
                    &&& (entities@.len() == 1 ==> self.entities@ == base)
                    &&& (entities@.len() == 0 ==> merge_outcome(
                        base,
                        all_e[0],
                        t,
                        self.entities@,
                    ))
                }),
                forall|i: int|
                    0 <= i < entities@.len() ==> (#[trigger] entities@[i]).confidence
                        <= CONFIDENCE_UNIT,
            decreases entities@.len(),
        {
            let ghost k = all_e.len() - entities@.len();
            let ghost pre = self.entities@;
            let e = entities.remove(0);
            proof {
                assert(all_e.skip(k)[0] == all_e[k]);
                assert(e == all_e[k]);
                assert(entities@ =~= all_e.skip(k + 1));
            }
            self.upsert_entity(e);
            proof {
                lemma_nodes_extended_trans(base, pre, self.entities@);
                assert forall|j: int| 0 <= j < k + 1 implies absorbed(
                    self.entities@,
                    #[trigger] all_e[j],
                ) by {
                    if j < k {
                        lemma_absorbed_preserved(pre, self.entities@, all_e[j]);
                    }
                }
            }
        }
        proof {
            assert(all_e.skip(0) =~= all_e);
        }
        let ghost ents1 = self.entities@;
        let mut relationships = relationships;
        let ghost all_r = relationships@;
        while relationships.len() > 0
            invariant
                self.wf(),
                self.entities@ == ents1,
                nodes_extended(base, ents1),
                forall|j: int| 0 <= j < all_e.len() ==> absorbed(ents1, #[trigger] all_e[j]),
                relationships@.len() <= all_r.len(),
                relationships@ == all_r.skip(all_r.len() - relationships@.len()),
                self.relationships@.len() >= old(self).relationships@.len(),
                forall|i: int|
                    0 <= i < old(self).relationships@.len() ==> edge_key_eq(
                        #[trigger] self.relationships@[i],
                        old(self).relationships@[i],
                    ) && self.relationships@[i].confidence >= old(
                        self,
                    ).relationships@[i].confidence,
                forall|j: int|
                    0 <= j < all_r.len() - relationships@.len() ==> (spec_has_id(
                        ents1,
                        (#[trigger] all_r[j]).source_entity_id,
                    ) && spec_has_id(ents1, all_r[j].target_entity_id)) ==> edge_absorbed(
                        self.relationships@,
                        all_r[j],
                    ),
                all_e.len() == 1 && all_r.len() == 0 ==> (spec_merge_target(
                    base,
                    all_e[0],
                ) matches Some(t) ==> merge_outcome(base, all_e[0], t, self.entities@)
                    && self.relationships@ == old(self).relationships@),
                all_e.len() == 0 && all_r.len() == 1 ==> {
                    &&& (relationships@.len() == 1 ==> self.relationships@ == old(
                        self,
                    ).relationships@)
                    &&& (relationships@.len() == 0 ==> ((spec_has_id(
                        ents1,
                        all_r[0].source_entity_id,
                    ) && spec_has_id(ents1, all_r[0].target_entity_id)) ==> edge_merge_outcome(
                        old(self).relationships@,
                        all_r[0],
                        self.relationships@,
                    )))
                },
                forall|i: int|
                    0 <= i < relationships@.len() ==> (#[trigger] relationships@[i]).confidence
                        <= CONFIDENCE_UNIT,
            decreases relationships@.len(),
        {
            let ghost k = all_r.len() - relationships@.len();
            let ghost pre = self.relationships@;
            let rel = relationships.remove(0);
            proof {
                assert(all_r.skip(k)[0] == all_r[k]);
                assert(rel == all_r[k]);
                assert(relationships@ =~= all_r.skip(k + 1));
            }
            self.upsert_relationship(rel);
            proof {
                assert forall|j: int| 0 <= j < k + 1 implies (spec_has_id(
                    ents1,
                    (#[trigger] all_r[j]).source_entity_id,
                ) && spec_has_id(ents1, all_r[j].target_entity_id)) ==> edge_absorbed(
                    self.relationships@,
                    all_r[j],
                ) by {
                    if j < k {
                        if spec_has_id(ents1, all_r[j].source_entity_id) && spec_has_id(
                            ents1,
                            all_r[j].target_entity_id,
                        ) {
                            lemma_edge_absorbed_preserved(pre, self.relationships@, all_r[j]);
                        }
                    }
                }
            }
        }
        proof {
            assert(all_r.skip(0) =~= all_r);
        }
        Ok(())
    }

    /// The stored entity with this id, rehydrated into a standalone value.
    pub fn get_entity(&self, id: u128) -> (r: Option<Entity>)
        ensures
            r is Some <==> spec_has_id(self.entities@, id),
            r matches Some(e) ==> spec_find_id(self.entities@, id) matches Some(i)
                && entity_like(e, self.entities@[i].entity),
            r matches Some(e) ==> e.id == id,
    {
        let n = self.entities.len();
        let mut i: usize = 0;
        while i < n
            invariant
                i <= n,
                n == self.entities@.len(),
                forall|k: int| 0 <= k < i ==> (#[trigger] self.entities@[k]).entity.id != id,
            decreases n - i,
        {
            if self.entities[i].entity.id == id {
                proof {
                    lemma_find_id(self.entities@, id, i as int);
                    lemma_find_id_has(self.entities@, id);
                }
                return Some(clone_entity(&self.entities[i].entity));
            }
            i += 1;
        }
        proof {
            lemma_find_id(self.entities@, id, n as int);
            lemma_find_id_has(self.entities@, id);
        }
        None
    }

    /// The source agents that have observed the entity with this id.
    pub fn get_entity_sources(&self, id: u128) -> (r: Option<Vec<String>>)
        ensures
            r is Some <==> spec_has_id(self.entities@, id),
            r matches Some(v) ==> spec_find_id(self.entities@, id) matches Some(i) && v@
                == self.entities@[i].sources@,
    {
        let n = self.entities.len();
        let mut i: usize = 0;
        while i < n
            invariant
                i <= n,
                n == self.entities@.len(),
                forall|k: int| 0 <= k < i ==> (#[trigger] self.entities@[k]).entity.id != id,
            decreases n - i,
        {
            if self.entities[i].entity.id == id {
                proof {
                    lemma_find_id(self.entities@, id, i as int);
                    lemma_find_id_has(self.entities@, id);
                }
                return Some(clone_strings(&self.entities[i].sources));
            }
            i += 1;
        }
        proof {
            lemma_find_id(self.entities@, id, n as int);
            lemma_find_id_has(self.entities@, id);
        }
        None
    }

    /// Case-sensitive substring search on entity names: the first stored
    /// entities, in store order, whose name contains the query, capped at
    /// `limit`.
    pub fn search_entities(&self, query: &str, limit: usize) -> (r: Vec<Entity>)
        ensures
            r@.len() <= limit,
            spec_matches(self.entities@, str_bytes(query)).len() <= limit ==> entities_like(
                r@,
                spec_matches(self.entities@, str_bytes(query)),
            ),
            spec_matches(self.entities@, str_bytes(query)).len() > limit ==> entities_like(
                r@,
                spec_matches(self.entities@, str_bytes(query)).take(limit as int),
            ),
            forall|i: int|
                0 <= i < r@.len() ==> has_sub(
                    vstd::utf8::encode_utf8((#[trigger] r@[i]).name@),
                    str_bytes(query),
                ),
    {
        let qb = query.as_bytes();
        let mut out: Vec<Entity> = Vec::new();
        let n = self.entities.len();
        let mut i: usize = 0;
        proof {
            assert(self.entities@.take(0) =~= Seq::<StoredEntity>::empty());
        }
        while i < n
            invariant
                i <= n,
                n == self.entities@.len(),
                qb@ == str_bytes(query),
                out@.len() <= limit,
                entities_like(
                    out@,
                    spec_matches(self.entities@.take(i as int), str_bytes(query)),
                ),
                forall|k: int|
                    0 <= k < out@.len() ==> has_sub(
                        vstd::utf8::encode_utf8((#[trigger] out@[k]).name@),
                        str_bytes(query),
                    ),
            decreases n - i,
        {
            let ghost q = str_bytes(query);
            let ghost whole = self.entities@;
            if out.len() >= limit {
                proof {
                    lemma_matches_prefix(whole, q, i as int);
                    let m = spec_matches(whole.take(i as int), q);
                    assert(m =~= spec_matches(whole, q).subrange(0, m.len() as int));
                    assert(m.len() == limit);
                    assert(spec_matches(whole, q).len() >= limit);
                    if spec_matches(whole, q).len() <= limit {
                        assert(m =~= spec_matches(whole, q));
                    } else {
                        assert(m =~= spec_matches(whole, q).take(limit as int));
                    }
                }
                return out;
            }
            let cand = &self.entities[i];
            let nb = cand.entity.name.as_str().as_bytes();
            let hit = contains_bytes(nb, qb);
            proof {
                assert(nb@ == vstd::utf8::encode_utf8(cand.entity.name@));
                assert(whole.take(i + 1).drop_last() =~= whole.take(i as int));
                assert(whole.take(i + 1).last() == whole[i as int]);
            }
            if hit {
                let copy = clone_entity(&cand.entity);
                proof {
                    assert(copy.name@ == cand.entity.name@);
                    assert(has_sub(vstd::utf8::encode_utf8(copy.name@), q));
                }
                let ghost prev = out@;
                out.push(copy);
                proof {
                    let m1 = spec_matches(whole.take(i + 1), q);
                    assert(m1 == spec_matches(whole.take(i as int), q).push(
                        whole[i as int].entity,
                    ));
                    assert forall|k: int| 0 <= k < out@.len() implies entity_like(
                        #[trigger] out@[k],
                        m1[k],
                    ) by {
                        if k < prev.len() {
                            assert(entity_like(prev[k], spec_matches(whole.take(i as int), q)[k]));
                        }
                    }
                    assert(entities_like(out@, m1));
                }
            } else {
                proof {
                    assert(spec_matches(whole.take(i + 1), q) == spec_matches(
                        whole.take(i as int),
                        q,
                    ));
                }
            }
            i += 1;
        }
        proof {
            assert(self.entities@.take(n as int) =~= self.entities@);
        }
        out
    }

    /// The number of stored entities.
    pub fn entity_count(&self) -> (r: u64)
        ensures
            r == self.entities@.len(),
    {
        let n = self.entities.len();
        n as u64
    }

    /// The number of stored relationships.
    pub fn relationship_count(&self) -> (r: u64)
        ensures
            r == self.relationships@.len(),
    {
        let n = self.relationships.len();
        n as u64
    }
}

/// Whether an edge touches the root on either side.
pub open spec fn incident_to(r: Relationship, root: u128) -> bool {
    r.source_entity_id == root || r.target_entity_id == root
}

/// Every stored edge before `upto` touching the root has its id among the
/// found edges.
pub open spec fn covers_incident_upto(
    found: Seq<Relationship>,
    stored: Seq<Relationship>,
    root: u128,
    upto: int,
) -> bool {
    forall|e: int|
        0 <= e < upto && incident_to(#[trigger] stored[e], root) ==> exists|x: int|
            0 <= x < found.len() && (#[trigger] found[x]).id == stored[e].id
}

/// Every stored edge touching the root has its id among the found edges.
pub open spec fn covers_incident(
    found: Seq<Relationship>,
    stored: Seq<Relationship>,
    root: u128,
) -> bool {
    covers_incident_upto(found, stored, root, stored.len() as int)
}

/// Coverage survives when the found list only grows.
proof fn lemma_covers_grow(
    f1: Seq<Relationship>,
    f2: Seq<Relationship>,
    stored: Seq<Relationship>,
    root: u128,
    upto: int,
)
    requires
        f1.is_prefix_of(f2),
        covers_incident_upto(f1, stored, root, upto),
    ensures
        covers_incident_upto(f2, stored, root, upto),
{
    assert forall|e: int|
        0 <= e < upto && incident_to(#[trigger] stored[e], root) implies exists|x: int|
        0 <= x < f2.len() && (#[trigger] f2[x]).id == stored[e].id by {
        let x = choose|x: int| 0 <= x < f1.len() && (#[trigger] f1[x]).id == stored[e].id;
        assert(f1 =~= f2.subrange(0, f1.len() as int));
        assert(f2[x].id == stored[e].id);
    }
}

/// The neighbourhood of a root entity: the distinct entities within reach
/// and the distinct relationships among the paths.
pub struct GraphNeighbors {
    pub entity: Entity,
    pub relationships: Vec<Relationship>,
    pub neighbors: Vec<Entity>,
}

impl GraphStore {
    /// Traverse up to `depth` hops from the root in either edge direction,
    /// returning distinct neighbours and relationships deduplicated by id.
    pub fn get_neighbors(&self, entity_id: u128, depth: u32) -> (r: Result<
        GraphNeighbors,
        ArgusError,
    >)
        ensures
            r is Ok <==> spec_has_id(self.entities@, entity_id),
            r matches Err(e) ==> e is NotFound,
            r matches Ok(g) ==> {
                &&& g.entity.id == entity_id
                &&& forall|a: int, b: int|
                    0 <= a < b < g.neighbors@.len() ==> (#[trigger] g.neighbors@[a]).id != (
                    #[trigger] g.neighbors@[b]).id
                &&& forall|a: int, b: int|
                    0 <= a < b < g.relationships@.len() ==> (#[trigger] g.relationships@[a]).id
                        != (#[trigger] g.relationships@[b]).id
                &&& depth >= 1 ==> covers_incident(
                    g.relationships@,
                    self.relationships@,
                    entity_id,
                )
            },
    {
        let root = match self.get_entity(entity_id) {
            Some(e) => e,
            None => {
                return Err(ArgusError::NotFound("entity not found".to_owned()));
            },
        };
        let mut visited: Vec<u128> = Vec::new();
        visited.push(entity_id);
        let mut frontier: Vec<u128> = Vec::new();
        frontier.push(entity_id);
        let mut rels: Vec<Relationship> = Vec::new();
        let mut rel_ids: Vec<u128> = Vec::new();
        let mut neighbors: Vec<Entity> = Vec::new();
        let mut hop: u32 = 0;
        proof {
            assert(frontier@ =~= seq![entity_id]);
        }
        while hop < depth
            invariant
                hop <= depth,
                hop == 0 ==> frontier@ == seq![entity_id],
                hop >= 1 ==> covers_incident(rels@, self.relationships@, entity_id),
                rel_ids@.len() == rels@.len(),
                forall|k: int| 0 <= k < rels@.len() ==> (#[trigger] rels@[k]).id == rel_ids@[k],
                forall|a: int, b: int|
                    0 <= a < b < rel_ids@.len() ==> (#[trigger] rel_ids@[a]) != (
                    #[trigger] rel_ids@[b]),
                forall|k: int|
                    0 <= k < neighbors@.len() ==> visited@.contains(
                        (#[trigger] neighbors@[k]).id,
                    ),
                forall|a: int, b: int|
                    0 <= a < b < neighbors@.len() ==> (#[trigger] neighbors@[a]).id != (
                    #[trigger] neighbors@[b]).id,
            decreases depth - hop,
        {
            let mut next: Vec<u128> = Vec::new();
            let m = self.relationships.len();
            let mut j: usize = 0;
            while j < m
                invariant
                    j <= m,
                    m == self.relationships@.len(),
                    hop == 0 ==> frontier@ == seq![entity_id],
                    hop == 0 ==> covers_incident_upto(
                        rels@,
                        self.relationships@,
                        entity_id,
                        j as int,
                    ),
                    hop >= 1 ==> covers_incident(rels@, self.relationships@, entity_id),
                    rel_ids@.len() == rels@.len(),
                    forall|k: int|
                        0 <= k < rels@.len() ==> (#[trigger] rels@[k]).id == rel_ids@[k],
                    forall|a: int, b: int|
                        0 <= a < b < rel_ids@.len() ==> (#[trigger] rel_ids@[a]) != (
                        #[trigger] rel_ids@[b]),
                    forall|k: int|
                        0 <= k < neighbors@.len() ==> visited@.contains(
                            (#[trigger] neighbors@[k]).id,
                        ),
                    forall|a: int, b: int|
                        0 <= a < b < neighbors@.len() ==> (#[trigger] neighbors@[a]).id != (
                        #[trigger] neighbors@[b]).id,
                decreases m - j,
            {
                let ghost rels_at_j = rels@;
                let edge = &self.relationships[j];
                let from_src = contains_id(&frontier, edge.source_entity_id);
                let from_tgt = contains_id(&frontier, edge.target_entity_id);
                if from_src || from_tgt {
                    let other = if from_src {
                        edge.target_entity_id
                    } else {
                        edge.source_entity_id
                    };
                    let seen = contains_id(&rel_ids, edge.id);
                    if !seen {
                        rel_ids.push(edge.id);
                        rels.push(clone_relationship(edge));
                    }
                    proof {
                        if seen {
                            let w = choose|w: int|
                                0 <= w < rel_ids@.len() && rel_ids@[w] == edge.id;
                            assert(rels@[w].id == edge.id);
                        } else {
                            assert(rels@.last().id == edge.id);
                        }
                        assert(exists|x: int|
                            0 <= x < rels@.len() && (#[trigger] rels@[x]).id
                                == self.relationships@[j as int].id);
                    }
                    if !contains_id(&visited, other) {
                        let ghost prev_visited = visited@;
                        visited.push(other);
                        proof {
                            assert forall|k: int| 0 <= k < neighbors@.len() implies visited@.contains(
                                (#[trigger] neighbors@[k]).id,
                            ) by {
                                let idk = neighbors@[k].id;
                                assert(prev_visited.contains(idk));
                                let w = choose|w: int|
                                    0 <= w < prev_visited.len() && prev_visited[w] == idk;
                                assert(visited@[w] == idk);
                            }
                        }
                        next.push(other);
                        match self.get_entity(other) {
                            Some(ent) => {
                                proof {
                                    assert(ent.id == other);
                                    assert(visited@.last() == other);
                                    assert(visited@.contains(other));
                                    assert(forall|k: int|
                                        0 <= k < neighbors@.len() ==> (
                                        #[trigger] neighbors@[k]).id != other);
                                }
                                neighbors.push(ent);
                            },
                            None => {
                                // A dangling endpoint: logged and skipped.
                            },
                        }
                    }
                }
                proof {
                    assert(rels_at_j.is_prefix_of(rels@)) by {
                        assert(rels_at_j =~= rels@.subrange(0, rels_at_j.len() as int));
                    }
                    if hop == 0 {
                        lemma_covers_grow(
                            rels_at_j,
                            rels@,
                            self.relationships@,
                            entity_id,
                            j as int,
                        );
                        assert forall|e: int|
                            0 <= e < j + 1 && incident_to(
                                #[trigger] self.relationships@[e],
                                entity_id,
                            ) implies exists|x: int|
                            0 <= x < rels@.len() && (#[trigger] rels@[x]).id
                                == self.relationships@[e].id by {
                            if e == j {
                                let fr = seq![entity_id];
                                assert(fr.len() == 1 && fr[0] == entity_id);
                                if self.relationships@[e].source_entity_id == entity_id {
                                    assert(fr[0] == self.relationships@[e].source_entity_id);
                                    assert(fr.contains(self.relationships@[e].source_entity_id));
                                } else {
                                    assert(fr[0] == entity_id);
                                    assert(self.relationships@[e].target_entity_id == entity_id);
                                    assert(fr.contains(self.relationships@[e].target_entity_id));
                                }
                            }
                        }
                    } else {
                        lemma_covers_grow(
                            rels_at_j,
                            rels@,
                            self.relationships@,
                            entity_id,
                            self.relationships@.len() as int,
                        );
                    }
                }
                j += 1;
            }
            frontier = next;
            hop += 1;
        }
        Ok(GraphNeighbors { entity: root, relationships: rels, neighbors })
    }
}

/// Whether the list holds this id.
fn contains_id(v: &Vec<u128>, x: u128) -> (r: bool)
    ensures
        r == v@.contains(x),
{
    let n = v.len();
    let mut i: usize = 0;
    while i < n
        invariant
            i <= n,
            n == v@.len(),
            forall|j: int| 0 <= j < i ==> v@[j] != x,
        decreases n - i,
    {
        if v[i] == x {
            assert(v@.contains(x));
            return true;
        }
        i += 1;
    }
    proof {
        assert(!v@.contains(x));
    }
    false
}

/// A field-by-field copy of a relationship, equal in every observable
/// part.
pub fn clone_relationship(r0: &Relationship) -> (r: Relationship)
    ensures
        r.id == r0.id,
        r.source_entity_id == r0.source_entity_id,
        r.target_entity_id == r0.target_entity_id,
        r.relation_type == r0.relation_type,
        r.properties == r0.properties,
        r.confidence == r0.confidence,
        r.source == r0.source,
        r.timestamp == r0.timestamp,
{
    Relationship {
        id: r0.id,
        source_entity_id: r0.source_entity_id,
        target_entity_id: r0.target_entity_id,
        relation_type: r0.relation_type,
        properties: r0.properties.clone(),
        confidence: r0.confidence,
        source: r0.source.clone(),
        timestamp: r0.timestamp,
    }
}

/// A field-by-field copy of an entity, equal in every observable part.
pub fn clone_entity(e: &Entity) -> (r: Entity)
    ensures
        entity_like(r, *e),
{
    let source_id = match &e.source_id {
        Some(s) => Some(s.clone()),
        None => None,
    };
    Entity {
        id: e.id,
        entity_type: e.entity_type,
        name: e.name.clone(),
        aliases: clone_strings(&e.aliases),
        properties: e.properties.clone(),
        source: e.source.clone(),
        source_id,
        confidence: e.confidence,
        first_seen: e.first_seen,
        last_seen: e.last_seen,
    }
}

/// A copy of a list of strings, equal element by element.
pub fn clone_strings(v: &Vec<String>) -> (r: Vec<String>)
    ensures
        r@ == v@,
{
    let n = v.len();
    let mut r: Vec<String> = Vec::new();
    let mut i: usize = 0;
    while i < n
        invariant
            i <= n,
            n == v@.len(),
            r@ =~= v@.take(i as int),
        decreases n - i,
    {
        r.push(v[i].clone());
        proof {
            assert(r@ =~= v@.take(i + 1 as int));
        }
        i += 1;
    }
    proof {
        assert(v@.take(n as int) =~= v@);
    }
    r
}

} // verus!
