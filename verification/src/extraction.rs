//! Entity and relationship extraction from a model's JSON reply.
//!
//! The reply text is cleaned of code fences, parsed as JSON, and dissected
//! into plain records; the verified wiring then mints entities, resolves
//! relationship endpoints through a case-folded name index, and drops any
//! relationship whose endpoints are not entities of the same reply.

use vstd::prelude::*;
use vstd::string::StringExecFns;
use vstd::string::StrSliceExecFns;

use crate::jsonval::{
    json_as_array, json_as_str, json_get, json_is_null, json_number_text, json_object_new,
    parse_json, spec_elements, spec_field_text, spec_json_of, spec_member, spec_null,
    spec_number_text, spec_text,
};
use crate::model::{id_among, ArgusError, Entity, EntityType, ExtractionResult, RawDocument, RelationType, Relationship, CONFIDENCE_UNIT};
use crate::text::{
    after_last_byte, eq_bytes, first_byte, fold_name, lower8, lower_bytes, lower_of, spec_trim,
    str_bytes, string_bytes, trim_bytes,
};

verus! {

/// ASCII lower-casing of a byte string, the key form of the name index.
pub open spec fn spec_lower(b: Seq<u8>) -> Seq<u8> {
    Seq::new(b.len(), |i: int| lower8(b[i]))
}

// ── Tag synonym tables ─────────────────────────────────────────────────────

/// The entity type a (lower-cased) type word names; unknown words default
/// to Event.
pub open spec fn spec_parse_entity_type(lb: Seq<u8>) -> EntityType {
    if lb == str_bytes("person") {
        EntityType::Person
    } else if lb == str_bytes("organization") || lb == str_bytes("org") || lb == str_bytes(
        "company",
    ) {
        EntityType::Organization
    } else if lb == str_bytes("vessel") || lb == str_bytes("ship") || lb == str_bytes("boat") {
        EntityType::Vessel
    } else if lb == str_bytes("aircraft") || lb == str_bytes("plane") || lb == str_bytes(
        "helicopter",
    ) {
        EntityType::Aircraft
    } else if lb == str_bytes("location") || lb == str_bytes("place") || lb == str_bytes("country")
        || lb == str_bytes("city") {
        EntityType::Location
    } else if lb == str_bytes("event") || lb == str_bytes("incident") {
        EntityType::Event
    } else if lb == str_bytes("document") || lb == str_bytes("report") || lb == str_bytes(
        "filing",
    ) {
        EntityType::Document
    } else if lb == str_bytes("transaction") || lb == str_bytes("payment") || lb == str_bytes(
        "transfer",
    ) {
        EntityType::Transaction
    } else if lb == str_bytes("sanction") || lb == str_bytes("sanctions") {
        EntityType::Sanction
    } else {
        EntityType::Event
    }
}

/// Map a type word to its entity type, case-insensitively.
pub fn parse_entity_type(s: &str) -> (r: EntityType)
    ensures
        r == spec_parse_entity_type(spec_lower(str_bytes(s))),
{
    let lb = lower_bytes(s.as_bytes());
    let b = lb.as_slice();
    if eq_bytes(b, "person".as_bytes()) {
        EntityType::Person
    } else if eq_bytes(b, "organization".as_bytes()) || eq_bytes(b, "org".as_bytes()) || eq_bytes(
        b,
        "company".as_bytes(),
    ) {
        EntityType::Organization
    } else if eq_bytes(b, "vessel".as_bytes()) || eq_bytes(b, "ship".as_bytes()) || eq_bytes(
        b,
        "boat".as_bytes(),
    ) {
        EntityType::Vessel
    } else if eq_bytes(b, "aircraft".as_bytes()) || eq_bytes(b, "plane".as_bytes()) || eq_bytes(
        b,
        "helicopter".as_bytes(),
    ) {
        EntityType::Aircraft
    } else if eq_bytes(b, "location".as_bytes()) || eq_bytes(b, "place".as_bytes()) || eq_bytes(
        b,
        "country".as_bytes(),
    ) || eq_bytes(b, "city".as_bytes()) {
        EntityType::Location
    } else if eq_bytes(b, "event".as_bytes()) || eq_bytes(b, "incident".as_bytes()) {
        EntityType::Event
    } else if eq_bytes(b, "document".as_bytes()) || eq_bytes(b, "report".as_bytes()) || eq_bytes(
        b,
        "filing".as_bytes(),
    ) {
        EntityType::Document
    } else if eq_bytes(b, "transaction".as_bytes()) || eq_bytes(b, "payment".as_bytes())
        || eq_bytes(b, "transfer".as_bytes()) {
        EntityType::Transaction
    } else if eq_bytes(b, "sanction".as_bytes()) || eq_bytes(b, "sanctions".as_bytes()) {
        EntityType::Sanction
    } else {
        EntityType::Event
    }
}

/// The relation type a (lower-cased) verb names; unknown verbs default to
/// RelatedTo.
pub open spec fn spec_parse_relation_type(lb: Seq<u8>) -> RelationType {
    if lb == str_bytes("owner_of") || lb == str_bytes("owns") {
        RelationType::OwnerOf
    } else if lb == str_bytes("director_of") || lb == str_bytes("directs") {
        RelationType::DirectorOf
    } else if lb == str_bytes("employee_of") || lb == str_bytes("works_for") || lb == str_bytes(
        "employed_by",
    ) {
        RelationType::EmployeeOf
    } else if lb == str_bytes("related_to") || lb == str_bytes("associated_with") {
        RelationType::RelatedTo
    } else if lb == str_bytes("located_at") || lb == str_bytes("located_in") || lb == str_bytes(
        "based_in",
    ) {
        RelationType::LocatedAt
    } else if lb == str_bytes("transacted_with") || lb == str_bytes("traded_with") || lb
        == str_bytes("paid") {
        RelationType::TransactedWith
    } else if lb == str_bytes("sanctioned_by") || lb == str_bytes("sanctioned") {
        RelationType::SanctionedBy
    } else if lb == str_bytes("registered_in") || lb == str_bytes("incorporated_in") {
        RelationType::RegisteredIn
    } else if lb == str_bytes("flagged_as") || lb == str_bytes("flagged") {
        RelationType::FlaggedAs
    } else if lb == str_bytes("meeting_with") || lb == str_bytes("met_with") {
        RelationType::MeetingWith
    } else if lb == str_bytes("traveled_to") || lb == str_bytes("visited") {
        RelationType::TraveledTo
    } else if lb == str_bytes("part_of") || lb == str_bytes("member_of") || lb == str_bytes(
        "subsidiary_of",
    ) {
        RelationType::PartOf
    } else {
        RelationType::RelatedTo
    }
}

/// Map a relation verb to its relation type, case-insensitively.
pub fn parse_relation_type(s: &str) -> (r: RelationType)
    ensures
        r == spec_parse_relation_type(spec_lower(str_bytes(s))),
{
    let lb = lower_bytes(s.as_bytes());
    let b = lb.as_slice();
    if eq_bytes(b, "owner_of".as_bytes()) || eq_bytes(b, "owns".as_bytes()) {
        RelationType::OwnerOf
    } else if eq_bytes(b, "director_of".as_bytes()) || eq_bytes(b, "directs".as_bytes()) {
        RelationType::DirectorOf
    } else if eq_bytes(b, "employee_of".as_bytes()) || eq_bytes(b, "works_for".as_bytes())
        || eq_bytes(b, "employed_by".as_bytes()) {
        RelationType::EmployeeOf
    } else if eq_bytes(b, "related_to".as_bytes()) || eq_bytes(b, "associated_with".as_bytes()) {
        RelationType::RelatedTo
    } else if eq_bytes(b, "located_at".as_bytes()) || eq_bytes(b, "located_in".as_bytes())
        || eq_bytes(b, "based_in".as_bytes()) {
        RelationType::LocatedAt
    } else if eq_bytes(b, "transacted_with".as_bytes()) || eq_bytes(b, "traded_with".as_bytes())
        || eq_bytes(b, "paid".as_bytes()) {
        RelationType::TransactedWith
    } else if eq_bytes(b, "sanctioned_by".as_bytes()) || eq_bytes(b, "sanctioned".as_bytes()) {
        RelationType::SanctionedBy
    } else if eq_bytes(b, "registered_in".as_bytes()) || eq_bytes(b, "incorporated_in".as_bytes()) {
        RelationType::RegisteredIn
    } else if eq_bytes(b, "flagged_as".as_bytes()) || eq_bytes(b, "flagged".as_bytes()) {
        RelationType::FlaggedAs
    } else if eq_bytes(b, "meeting_with".as_bytes()) || eq_bytes(b, "met_with".as_bytes()) {
        RelationType::MeetingWith
    } else if eq_bytes(b, "traveled_to".as_bytes()) || eq_bytes(b, "visited".as_bytes()) {
        RelationType::TraveledTo
    } else if eq_bytes(b, "part_of".as_bytes()) || eq_bytes(b, "member_of".as_bytes()) || eq_bytes(
        b,
        "subsidiary_of".as_bytes(),
    ) {
        RelationType::PartOf
    } else {
        RelationType::RelatedTo
    }
}

// ── Name index ─────────────────────────────────────────────────────────────

/// Every id the name index stores belongs to an entity of the list.
pub open spec fn ids_cover(entities: Seq<Entity>, map: Seq<(Vec<u8>, u128)>) -> bool {
    forall|k: int| 0 <= k < map.len() ==> id_among(entities, (#[trigger] map[k]).1)
}

/// The key/id pairs a concrete index vector holds, key views taken.
pub open spec fn index_views(m: Seq<(Vec<u8>, u128)>) -> Seq<(Seq<u8>, u128)> {
    Seq::new(m.len(), |i: int| ((m[i].0)@, m[i].1))
}

/// What the name index answers for a key: the value stored under the
/// matching key, last insertion winning, as later entries overwrite
/// earlier ones.
pub open spec fn spec_assoc(m: Seq<(Seq<u8>, u128)>, key: Seq<u8>) -> Option<u128>
    decreases m.len(),
{
    if m.len() == 0 {
        None
    } else if m.last().0 == key {
        Some(m.last().1)
    } else {
        spec_assoc(m.drop_last(), key)
    }
}

/// Look a key up in the name index: exactly `spec_assoc`, and any hit is a
/// value stored in the index.
fn assoc_get(map: &Vec<(Vec<u8>, u128)>, key: &[u8]) -> (r: Option<u128>)
    ensures
        r == spec_assoc(index_views(map@), key@),
        r matches Some(v) ==> exists|k: int| 0 <= k < map@.len() && (#[trigger] map@[k]).1 == v,
{
    let n = map.len();
    proof {
        assert(index_views(map@).take(n as int) =~= index_views(map@));
    }
    let mut i: usize = n;
    while i > 0
        invariant
            i <= n,
            n == map@.len(),
            spec_assoc(index_views(map@), key@) == spec_assoc(
                index_views(map@).take(i as int),
                key@,
            ),
        decreases i,
    {
        i -= 1;
        proof {
            assert(index_views(map@).take(i + 1 as int).last() == index_views(map@)[i as int]);
            assert(index_views(map@).take(i + 1 as int).drop_last() =~= index_views(map@).take(
                i as int,
            ));
        }
        if eq_bytes(map[i].0.as_slice(), key) {
            return Some(map[i].1);
        }
    }
    proof {
        assert(index_views(map@).take(0) =~= Seq::<(Seq<u8>, u128)>::empty());
    }
    None
}

// ── Response cleaning ──────────────────────────────────────────────────────

/// The reply with surrounding code fences stripped: the trimmed text, and
/// when it starts with a fence, the span from the first opening brace to
/// past the last closing brace.
pub open spec fn spec_clean(b: Seq<u8>) -> Seq<u8> {
    let t = spec_trim(b);
    if !str_bytes("```").is_prefix_of(t) {
        t
    } else {
        let f = first_byte(t, 123);
        let start = if f < t.len() {
            f
        } else {
            0
        };
        let a = after_last_byte(t, 125);
        let end = if a > 0 {
            a
        } else {
            t.len() as int
        };
        if start <= end {
            t.subrange(start, end)
        } else {
            t
        }
    }
}

/// Strip surrounding code fences, exactly as `spec_clean` says.
fn clean_response(raw: &str) -> (r: String)
    ensures
        vstd::utf8::valid_utf8(spec_clean(str_bytes(raw))) ==> string_bytes(&r) == spec_clean(
            str_bytes(raw),
        ),
{
    let trimmed = trim_bytes(raw.as_bytes());
    let tb = trimmed.as_slice();
    let fenced = crate::text::starts_with_bytes(tb, "```".as_bytes());
    if !fenced {
        return crate::text::bytes_to_string_lossy(tb);
    }
    let n = tb.len();
    let mut i: usize = 0;
    while i < n && tb[i] != 123
        invariant
            i <= n,
            n == tb@.len(),
            forall|k: int| 0 <= k < i ==> tb@[k] != 123,
        decreases n - i,
    {
        i += 1;
    }
    proof {
        crate::text::lemma_first_byte(tb@, 123, i as int);
    }
    let start: usize = if i < n {
        i
    } else {
        0
    };
    let mut j: usize = n;
    while j > 0 && tb[j - 1] != 125
        invariant
            j <= n,
            n == tb@.len(),
            forall|k: int| j <= k < n ==> tb@[k] != 125,
        decreases j,
    {
        j -= 1;
    }
    proof {
        crate::text::lemma_after_last_byte(tb@, 125, j as int);
    }
    let end: usize = if j > 0 {
        j
    } else {
        n
    };
    if start <= end && end <= n {
        let cut = crate::text::sub_bytes(tb, start, end);
        crate::text::bytes_to_string_lossy(cut.as_slice())
    } else {
        crate::text::bytes_to_string_lossy(tb)
    }
}

// ── Field readers ──────────────────────────────────────────────────────────

/// A required string member of an object.
fn get_string_field(v: &serde_json::Value, key: &str) -> (r: Option<String>)
    ensures
        match spec_field_text(*v, key@) {
            Some(t) => r matches Some(s) && s@ == t,
            None => r is None,
        },
{
    let field = json_get(v, key)?;
    let s = json_as_str(field)?;
    Some(s.to_owned())
}

/// The texts of a list of JSON strings; a non-string element reads as the
/// empty text (the readers reject it separately).
pub open spec fn spec_list_texts(es: Seq<serde_json::Value>) -> Seq<Seq<char>> {
    Seq::new(
        es.len(),
        |i: int|
            match spec_text(es[i]) {
                Some(t) => t,
                None => Seq::<char>::empty(),
            },
    )
}

/// Whether every element of a list is a JSON string.
pub open spec fn all_texts(es: Seq<serde_json::Value>) -> bool {
    forall|i: int| 0 <= i < es.len() ==> (#[trigger] spec_text(es[i])) is Some
}

/// The string texts a list-of-strings member holds: absent or null means
/// none.
pub open spec fn spec_member_texts(v: serde_json::Value, key: Seq<char>) -> Seq<Seq<char>> {
    match spec_member(v, key) {
        None => Seq::<Seq<char>>::empty(),
        Some(m) => if spec_null(m) {
            Seq::<Seq<char>>::empty()
        } else {
            match spec_elements(m) {
                Some(es) => spec_list_texts(es),
                None => Seq::<Seq<char>>::empty(),
            }
        },
    }
}

/// Whether a list-of-strings member is well formed: absent, null, or a
/// list whose every element is a string.
pub open spec fn member_texts_ok(v: serde_json::Value, key: Seq<char>) -> bool {
    match spec_member(v, key) {
        None => true,
        Some(m) => spec_null(m) || (match spec_elements(m) {
            Some(es) => all_texts(es),
            None => false,
        }),
    }
}

/// An optional list-of-strings member; absent means empty, a non-list or a
/// non-string element means ill-formed.
fn get_string_list_field(v: &serde_json::Value, key: &str) -> (r: Option<Vec<String>>)
    ensures
        r is Some <==> member_texts_ok(*v, key@),
        r matches Some(a) ==> a@.len() == spec_member_texts(*v, key@).len() && forall|j: int|
            0 <= j < a@.len() ==> (#[trigger] a@[j])@ == spec_member_texts(*v, key@)[j],
{
    let mut out: Vec<String> = Vec::new();
    let field = match json_get(v, key) {
        Some(f) => f,
        None => {
            return Some(out);
        },
    };
    if json_is_null(field) {
        return Some(out);
    }
    let arr = match json_as_array(field) {
        Some(a) => a,
        None => {
            assert(spec_elements(*field) is None);
            assert(!member_texts_ok(*v, key@));
            return None;
        },
    };
    let n = arr.len();
    let mut i: usize = 0;
    while i < n
        invariant
            i <= n,
            n == arr@.len(),
            spec_member(*v, key@) == Some(*field),
            !spec_null(*field),
            spec_elements(*field) == Some(arr@),
            out@.len() == i,
            forall|j: int| 0 <= j < i ==> (#[trigger] spec_text(arr@[j])) is Some,
            forall|j: int| 0 <= j < i ==> (#[trigger] out@[j])@ == spec_list_texts(arr@)[j],
        decreases n - i,
    {
        let s = match json_as_str(&arr[i]) {
            Some(s) => s,
            None => {
                assert(spec_text(arr@[i as int]) is None);
                return None;
            },
        };
        out.push(s.to_owned());
        i += 1;
    }
    Some(out)
}

/// An optional object member for free-form properties; absent or null means
/// the empty object.
fn get_properties_field(v: &serde_json::Value, key: &str) -> serde_json::Value {
    match json_get(v, key) {
        Some(f) => {
            if json_is_null(f) {
                json_object_new()
            } else {
                f.clone()
            }
        },
        None => json_object_new(),
    }
}

/// Whether a confidence member is well formed: absent, or a JSON number
/// whose decimal text reads as a numeral.
pub open spec fn conf_field_ok(v: serde_json::Value, key: Seq<char>) -> bool {
    match spec_member(v, key) {
        None => true,
        Some(f) => match spec_number_text(f) {
            Some(t) => crate::numtext::spec_parse_millis(vstd::utf8::encode_utf8(t)) is Some,
            None => false,
        },
    }
}

/// An optional confidence member, read from the number's decimal text and
/// clamped into [0, 1]; absent means full confidence.
fn get_confidence_field(v: &serde_json::Value, key: &str) -> (r: Option<u32>)
    ensures
        r matches Some(c) ==> c <= CONFIDENCE_UNIT,
        r is Some <==> conf_field_ok(*v, key@),
{
    let field = match json_get(v, key) {
        Some(f) => f,
        None => {
            return Some(crate::model::default_confidence());
        },
    };
    let text = json_number_text(field)?;
    let millis = crate::numtext::parse_decimal_millis(text.as_str().as_bytes())?;
    Some(crate::model::clamp_confidence(millis))
}

// ── Parsing a model reply ──────────────────────────────────────────────────

fn extraction_err(m: &str) -> ArgusError {
    ArgusError::Extraction(m.to_owned())
}

/// How a minted entity reflects its record: the record's name and aliases
/// verbatim, and its type word mapped through the case-insensitive synonym
/// table.
pub open spec fn entity_record_matches(rec: serde_json::Value, e: Entity) -> bool {
    &&& (match spec_field_text(rec, "name"@) {
        Some(nm) => e.name@ == nm,
        None => false,
    })
    &&& (match spec_field_text(rec, "type"@) {
        Some(tw) => e.entity_type == spec_parse_entity_type(
            spec_lower(vstd::utf8::encode_utf8(tw)),
        ),
        None => false,
    })
    &&& e.aliases@.len() == spec_member_texts(rec, "aliases"@).len()
    &&& forall|j: int|
        0 <= j < e.aliases@.len() ==> (#[trigger] e.aliases@[j])@ == spec_member_texts(
            rec,
            "aliases"@,
        )[j]
}

// ── The name index and relationship resolution, abstractly ────────────────

/// The index keys one entity record contributes: the case-folded name,
/// then each case-folded alias.
pub open spec fn spec_record_keys(rec: serde_json::Value) -> Seq<Seq<u8>> {
    let name_key = match spec_field_text(rec, "name"@) {
        Some(nm) => lower_of(vstd::utf8::encode_utf8(nm)),
        None => Seq::<u8>::empty(),
    };
    seq![name_key] + Seq::new(
        spec_member_texts(rec, "aliases"@).len(),
        |i: int| lower_of(vstd::utf8::encode_utf8(spec_member_texts(rec, "aliases"@)[i])),
    )
}

/// Those keys bound to the id of the entity minted for the record.
pub open spec fn spec_record_entries(rec: serde_json::Value, id: u128) -> Seq<(Seq<u8>, u128)> {
    Seq::new(spec_record_keys(rec).len(), |i: int| (spec_record_keys(rec)[i], id))
}

/// The whole name index of a reply: each record's keys bound to the id of
/// the entity minted for it, in record order.
pub open spec fn spec_name_index(recs: Seq<serde_json::Value>, ents: Seq<Entity>) -> Seq<
    (Seq<u8>, u128),
>
    decreases recs.len(),
{
    if recs.len() == 0 || ents.len() == 0 {
        Seq::<(Seq<u8>, u128)>::empty()
    } else {
        spec_name_index(recs.drop_last(), ents.drop_last()) + spec_record_entries(
            recs.last(),
            ents.last().id,
        )
    }
}

/// The entity records of a parsed reply; absent or ill-formed means none.
pub open spec fn spec_entity_records(root: serde_json::Value) -> Seq<serde_json::Value> {
    match spec_member(root, "entities"@) {
        Some(el) => match spec_elements(el) {
            Some(es) => es,
            None => Seq::<serde_json::Value>::empty(),
        },
        None => Seq::<serde_json::Value>::empty(),
    }
}

/// Whether a relationship record's two endpoint names both resolve in the
/// name index, under case folding.
pub open spec fn rel_resolves(rec: serde_json::Value, m: Seq<(Seq<u8>, u128)>) -> bool {
    &&& (match spec_field_text(rec, "source"@) {
        Some(sn) => spec_assoc(m, lower_of(vstd::utf8::encode_utf8(sn))) is Some,
        None => false,
    })
    &&& (match spec_field_text(rec, "target"@) {
        Some(tn) => spec_assoc(m, lower_of(vstd::utf8::encode_utf8(tn))) is Some,
        None => false,
    })
}

/// The relationship records whose endpoints both resolve, in order:
/// exactly the records the parser keeps.
pub open spec fn spec_resolving(recs: Seq<serde_json::Value>, m: Seq<(Seq<u8>, u128)>) -> Seq<
    serde_json::Value,
>
    decreases recs.len(),
{
    if recs.len() == 0 {
        Seq::<serde_json::Value>::empty()
    } else if rel_resolves(recs.last(), m) {
        spec_resolving(recs.drop_last(), m).push(recs.last())
    } else {
        spec_resolving(recs.drop_last(), m)
    }
}

/// How a kept relationship reflects its record: each endpoint id is what
/// the index answers for the case-folded endpoint name, and the verb maps
/// through the case-insensitive synonym table.
pub open spec fn rel_record_matches(
    rec: serde_json::Value,
    m: Seq<(Seq<u8>, u128)>,
    r: Relationship,
) -> bool {
    &&& (match spec_field_text(rec, "source"@) {
        Some(sn) => spec_assoc(m, lower_of(vstd::utf8::encode_utf8(sn))) == Some(
            r.source_entity_id,
        ),
        None => false,
    })
    &&& (match spec_field_text(rec, "target"@) {
        Some(tn) => spec_assoc(m, lower_of(vstd::utf8::encode_utf8(tn))) == Some(
            r.target_entity_id,
        ),
        None => false,
    })
    &&& (match spec_field_text(rec, "type"@) {
        Some(vb) => r.relation_type == spec_parse_relation_type(
            spec_lower(vstd::utf8::encode_utf8(vb)),
        ),
        None => false,
    })
}

/// Whether an entity record carries everything the parser requires.
pub open spec fn entity_record_ok(rec: serde_json::Value) -> bool {
    &&& spec_field_text(rec, "name"@) is Some
    &&& spec_field_text(rec, "type"@) is Some
    &&& member_texts_ok(rec, "aliases"@)
    &&& conf_field_ok(rec, "confidence"@)
}

/// Whether a relationship record carries everything the parser requires.
pub open spec fn rel_record_ok(rec: serde_json::Value) -> bool {
    &&& spec_field_text(rec, "source"@) is Some
    &&& spec_field_text(rec, "target"@) is Some
    &&& spec_field_text(rec, "type"@) is Some
    &&& conf_field_ok(rec, "confidence"@)
}

/// Whether a parsed reply is well formed throughout: each section absent,
/// or a list of well-formed records.
pub open spec fn spec_reply_ok(root: serde_json::Value) -> bool {
    &&& (match spec_member(root, "entities"@) {
        None => true,
        Some(el) => spec_elements(el) matches Some(es) && forall|k: int|
            0 <= k < es.len() ==> entity_record_ok(#[trigger] es[k]),
    })
    &&& (match spec_member(root, "relationships"@) {
        None => true,
        Some(rl) => spec_elements(rl) matches Some(rs) && forall|k: int|
            0 <= k < rs.len() ==> rel_record_ok(#[trigger] rs[k]),
    })
}

/// A reply holding an ill-formed entity record is not well formed.
proof fn lemma_reply_bad_entity(
    root: serde_json::Value,
    el: serde_json::Value,
    es: Seq<serde_json::Value>,
    i: int,
)
    requires
        spec_member(root, "entities"@) == Some(el),
        spec_elements(el) == Some(es),
        0 <= i < es.len(),
        !entity_record_ok(es[i]),
    ensures
        !spec_reply_ok(root),
{
    if spec_reply_ok(root) {
        assert(spec_elements(el) matches Some(es2) && forall|k: int|
            0 <= k < es2.len() ==> entity_record_ok(#[trigger] es2[k]));
        assert(entity_record_ok(es[i]));
    }
}

/// A reply holding an ill-formed relationship record is not well formed.
proof fn lemma_reply_bad_rel(
    root: serde_json::Value,
    rl: serde_json::Value,
    rs: Seq<serde_json::Value>,
    i: int,
)
    requires
        spec_member(root, "relationships"@) == Some(rl),
        spec_elements(rl) == Some(rs),
        0 <= i < rs.len(),
        !rel_record_ok(rs[i]),
    ensures
        !spec_reply_ok(root),
{
    if spec_reply_ok(root) {
        assert(spec_elements(rl) matches Some(rs2) && forall|k: int|
            0 <= k < rs2.len() ==> rel_record_ok(#[trigger] rs2[k]));
        assert(rel_record_ok(rs[i]));
    }
}

/// Parse a model reply into entities and endpoint-resolved relationships.
/// Every relationship's endpoints are ids of entities from the same reply,
/// answered by the case-folded name index over names and aliases; a
/// relationship naming an unknown endpoint is dropped, never invented, and
/// a reply of well-formed records is never rejected.
#[verifier::rlimit(60)]
pub fn parse_llm_response(raw_json: &str, source: &str) -> (r: Result<
    (Vec<Entity>, Vec<Relationship>),
    ArgusError,
>)
    ensures
        r matches Ok(p) ==> {
            &&& forall|j: int|
                0 <= j < p.1@.len() ==> id_among(p.0@, (#[trigger] p.1@[j]).source_entity_id)
            &&& forall|j: int|
                0 <= j < p.1@.len() ==> id_among(p.0@, (#[trigger] p.1@[j]).target_entity_id)
            &&& forall|i: int| 0 <= i < p.0@.len() ==> (#[trigger] p.0@[i]).wf()
            &&& forall|i: int| 0 <= i < p.0@.len() ==> (#[trigger] p.0@[i]).source@ == source@
            &&& forall|j: int| 0 <= j < p.1@.len() ==> (#[trigger] p.1@[j]).wf()
            &&& forall|j: int| 0 <= j < p.1@.len() ==> (#[trigger] p.1@[j]).source@ == source@
        },
        vstd::utf8::valid_utf8(spec_clean(str_bytes(raw_json))) ==> {
            let parsed = spec_json_of(
                vstd::utf8::decode_utf8(spec_clean(str_bytes(raw_json))),
            );
            &&& (r is Ok ==> parsed is Some)
            &&& (parsed is None ==> r is Err)
            &&& (parsed matches Some(root) ==> (spec_reply_ok(root) ==> r is Ok))
            &&& (r matches Ok(p) ==> parsed matches Some(root) && (match spec_member(
                root,
                "entities"@,
            ) {
                None => p.0@.len() == 0,
                Some(el) => spec_elements(el) matches Some(es) && p.0@.len() == es.len()
                    && forall|k: int|
                    0 <= k < es.len() ==> entity_record_matches(
                        #[trigger] es[k],
                        p.0@[k],
                    ),
            }))
            &&& (r matches Ok(p) ==> parsed matches Some(root) && (match spec_member(
                root,
                "relationships"@,
            ) {
                None => p.1@.len() == 0,
                Some(rl) => spec_elements(rl) matches Some(rs) && {
                    let m = spec_name_index(spec_entity_records(root), p.0@);
                    &&& p.1@.len() == spec_resolving(rs, m).len()
                    &&& forall|j: int|
                        0 <= j < p.1@.len() ==> rel_record_matches(
                            spec_resolving(rs, m)[j],
                            m,
                            #[trigger] p.1@[j],
                        )
                },
            }))
        },
{
    let cleaned = clean_response(raw_json);
    proof {
        if vstd::utf8::valid_utf8(spec_clean(str_bytes(raw_json))) {
            vstd::utf8::encode_utf8_decode_utf8(cleaned@);
        }
    }
    let root = match parse_json(cleaned.as_str()) {
        Ok(v) => v,
        Err(e) => {
            let mut msg = String::new();
            msg.append("Failed to parse LLM JSON output: ");
            msg.append(e.as_str());
            return Err(ArgusError::Extraction(msg));
        },
    };
    let ghost valid = vstd::utf8::valid_utf8(spec_clean(str_bytes(raw_json)));
    let ghost parsed = spec_json_of(vstd::utf8::decode_utf8(spec_clean(str_bytes(raw_json))));
    proof {
        if valid {
            assert(parsed == Some(root));
        }
    }
    let now = crate::mint::now_millis();

    let mut entities: Vec<Entity> = Vec::new();
    let mut name_to_id: Vec<(Vec<u8>, u128)> = Vec::new();

    match json_get(&root, "entities") {
        Some(elist) => {
            let earr = match json_as_array(elist) {
                Some(a) => a,
                None => {
                    return Err(extraction_err("Failed to parse LLM JSON output: entities"));
                },
            };
            let n = earr.len();
            let mut i: usize = 0;
            while i < n
                invariant
                    i <= n,
                    n == earr@.len(),
                    spec_member(root, "entities"@) == Some(*elist),
                    spec_elements(*elist) == Some(earr@),
                    valid ==> parsed == Some(root),
                    valid == vstd::utf8::valid_utf8(spec_clean(str_bytes(raw_json))),
                    parsed == spec_json_of(
                        vstd::utf8::decode_utf8(spec_clean(str_bytes(raw_json))),
                    ),
                    entities@.len() == i,
                    forall|k: int|
                        0 <= k < i ==> entity_record_matches(#[trigger] earr@[k], entities@[k]),
                    forall|k: int| 0 <= k < entities@.len() ==> (#[trigger] entities@[k]).wf(),
                    forall|k: int|
                        0 <= k < entities@.len() ==> (#[trigger] entities@[k]).source@ == source@,
                    ids_cover(entities@, name_to_id@),
                    index_views(name_to_id@) == spec_name_index(
                        earr@.take(i as int),
                        entities@,
                    ),
                decreases n - i,
            {
                let ev = &earr[i];
                let ghost rec = earr@[i as int];
                let name = match get_string_field(ev, "name") {
                    Some(s) => s,
                    None => {
                        proof {
                            lemma_reply_bad_entity(root, *elist, earr@, i as int);
                        }
                        return Err(extraction_err("Failed to parse LLM JSON output: entity name"));
                    },
                };
                let type_word = match get_string_field(ev, "type") {
                    Some(s) => s,
                    None => {
                        proof {
                            lemma_reply_bad_entity(root, *elist, earr@, i as int);
                        }
                        return Err(extraction_err("Failed to parse LLM JSON output: entity type"));
                    },
                };
                let aliases = match get_string_list_field(ev, "aliases") {
                    Some(a) => a,
                    None => {
                        proof {
                            lemma_reply_bad_entity(root, *elist, earr@, i as int);
                        }
                        return Err(
                            extraction_err("Failed to parse LLM JSON output: entity aliases"),
                        );
                    },
                };
                let confidence = match get_confidence_field(ev, "confidence") {
                    Some(c) => c,
                    None => {
                        proof {
                            lemma_reply_bad_entity(root, *elist, earr@, i as int);
                        }
                        return Err(
                            extraction_err("Failed to parse LLM JSON output: entity confidence"),
                        );
                    },
                };
                let properties = get_properties_field(ev, "properties");
                let id = crate::mint::fresh_id();

                let ghost base = spec_name_index(earr@.take(i as int), entities@);
                name_to_id.push((fold_name(name.as_str()).as_str().as_bytes_vec(), id));
                proof {
                    assert(name_to_id@.last().0@ == lower_of(vstd::utf8::encode_utf8(name@)));
                    assert(spec_record_keys(rec)[0] == lower_of(vstd::utf8::encode_utf8(name@)));
                    assert(index_views(name_to_id@) =~= base + spec_record_entries(
                        rec,
                        id,
                    ).take(1));
                }
                let an = aliases.len();
                let mut ai: usize = 0;
                while ai < an
                    invariant
                        ai <= an,
                        an == aliases@.len(),
                        an == spec_member_texts(rec, "aliases"@).len(),
                        forall|j: int|
                            0 <= j < an ==> (#[trigger] aliases@[j])@ == spec_member_texts(
                                rec,
                                "aliases"@,
                            )[j],
                        forall|k: int|
                            0 <= k < name_to_id@.len() ==> id_among(entities@, (
                            #[trigger] name_to_id@[k]).1) || (#[trigger] name_to_id@[k]).1 == id,
                        index_views(name_to_id@) == base + spec_record_entries(rec, id).take(
                            1 + ai as int,
                        ),
                    decreases an - ai,
                {
                    let ghost prior = name_to_id@;
                    name_to_id.push((fold_name(aliases[ai].as_str()).as_str().as_bytes_vec(), id));
                    proof {
                        assert(name_to_id@.last().0@ == lower_of(
                            vstd::utf8::encode_utf8(aliases@[ai as int]@),
                        ));
                        assert(spec_record_keys(rec).len() == 1 + spec_member_texts(
                            rec,
                            "aliases"@,
                        ).len());
                        assert(spec_record_keys(rec)[1 + ai as int] == lower_of(
                            vstd::utf8::encode_utf8(spec_member_texts(rec, "aliases"@)[ai as int]),
                        ));
                        assert(spec_member_texts(rec, "aliases"@)[ai as int] == aliases@[
                            ai as int
                        ]@);
                        assert(name_to_id@.len() == prior.len() + 1);
                        assert(forall|k: int|
                            0 <= k < prior.len() ==> #[trigger] index_views(name_to_id@)[k]
                                == index_views(prior)[k]);
                        assert(index_views(name_to_id@)[prior.len() as int] == (
                            spec_record_keys(rec)[1 + ai as int],
                            id,
                        ));
                        assert(spec_record_entries(rec, id).take(1 + (ai + 1) as int)
                            =~= spec_record_entries(rec, id).take(1 + ai as int).push(
                            (spec_record_keys(rec)[1 + ai as int], id),
                        ));
                        assert(1 + (ai + 1) <= spec_record_entries(rec, id).len());
                        let fuller = base + spec_record_entries(rec, id).take(1 + (ai + 1) as int);
                        assert(spec_record_entries(rec, id).take(1 + (ai + 1) as int).len() == 1 + (
                        ai + 1) as int);
                        assert(index_views(prior).len() == prior.len());
                        assert(index_views(prior).len() == base.len() + 1 + ai as int);
                        assert(fuller.len() == name_to_id@.len());
                        assert forall|k: int| 0 <= k < name_to_id@.len() implies #[trigger] index_views(
                            name_to_id@,
                        )[k] == fuller[k] by {
                            if k < prior.len() {
                                assert(index_views(name_to_id@)[k] == index_views(prior)[k]);
                                assert(index_views(prior)[k] == (base + spec_record_entries(
                                    rec,
                                    id,
                                ).take(1 + ai as int))[k]);
                                if k < base.len() {
                                    assert(fuller[k] == base[k]);
                                } else {
                                    assert(fuller[k] == spec_record_entries(rec, id)[k - base.len()]);
                                }
                            } else {
                                assert(k == prior.len());
                                assert(fuller[k] == spec_record_entries(rec, id)[1 + ai as int]);
                            }
                        }
                        assert(index_views(name_to_id@) =~= fuller);
                    }
                    ai += 1;
                }
                proof {
                    assert(spec_record_entries(rec, id).take(1 + an as int)
                        =~= spec_record_entries(rec, id));
                }

                let entity = Entity {
                    id,
                    entity_type: parse_entity_type(type_word.as_str()),
                    name,
                    aliases,
                    properties,
                    source: source.to_owned(),
                    source_id: None,
                    confidence,
                    first_seen: now,
                    last_seen: now,
                };
                let ghost before = entities@;
                entities.push(entity);
                proof {
                    let last = entities@.len() - 1;
                    assert(entities@[last].id == id);
                    assert(entity_record_matches(earr@[i as int], entities@[last]));
                    assert forall|k: int| 0 <= k < i + 1 implies entity_record_matches(
                        #[trigger] earr@[k],
                        entities@[k],
                    ) by {
                        if k < i {
                            assert(entities@[k] == before[k]);
                        }
                    }
                    assert forall|k: int| 0 <= k < name_to_id@.len() implies id_among(
                        entities@,
                        (#[trigger] name_to_id@[k]).1,
                    ) by {
                        if name_to_id@[k].1 == id {
                            assert(entities@[last].id == name_to_id@[k].1);
                        } else {
                            let e = choose|e: int|
                                0 <= e < before.len() && (#[trigger] before[e]).id
                                    == name_to_id@[k].1;
                            assert(entities@[e].id == name_to_id@[k].1);
                        }
                    }
                    assert(earr@.take(i + 1 as int).drop_last() =~= earr@.take(i as int));
                    assert(earr@.take(i + 1 as int).last() == rec);
                    assert(entities@.drop_last() =~= before);
                    assert(spec_name_index(earr@.take(i + 1 as int), entities@) == base
                        + spec_record_entries(rec, id));
                }
                i += 1;
            }
            proof {
                assert(earr@.take(n as int) =~= earr@);
                assert(spec_entity_records(root) == earr@);
            }
        },
        None => {
            proof {
                assert(spec_member(root, "entities"@) is None);
                assert(index_views(name_to_id@) =~= Seq::<(Seq<u8>, u128)>::empty());
                assert(spec_name_index(spec_entity_records(root), entities@) =~= Seq::<
                    (Seq<u8>, u128),
                >::empty());
            }
        },
    }
    let ghost m_idx = spec_name_index(spec_entity_records(root), entities@);
    proof {
        assert(index_views(name_to_id@) == m_idx);
    }

    let mut relationships: Vec<Relationship> = Vec::new();
    match json_get(&root, "relationships") {
        Some(rlist) => {
            let rarr = match json_as_array(rlist) {
                Some(a) => a,
                None => {
                    return Err(extraction_err("Failed to parse LLM JSON output: relationships"));
                },
            };
            let n = rarr.len();
            let mut i: usize = 0;
            while i < n
                invariant
                    i <= n,
                    n == rarr@.len(),
                    spec_member(root, "relationships"@) == Some(*rlist),
                    spec_elements(*rlist) == Some(rarr@),
                    valid ==> parsed == Some(root),
                    valid == vstd::utf8::valid_utf8(spec_clean(str_bytes(raw_json))),
                    parsed == spec_json_of(
                        vstd::utf8::decode_utf8(spec_clean(str_bytes(raw_json))),
                    ),
                    index_views(name_to_id@) == m_idx,
                    forall|k: int| 0 <= k < entities@.len() ==> (#[trigger] entities@[k]).wf(),
                    forall|k: int|
                        0 <= k < entities@.len() ==> (#[trigger] entities@[k]).source@ == source@,
                    ids_cover(entities@, name_to_id@),
                    forall|j: int|
                        0 <= j < relationships@.len() ==> id_among(
                            entities@,
                            (#[trigger] relationships@[j]).source_entity_id,
                        ),
                    forall|j: int|
                        0 <= j < relationships@.len() ==> id_among(
                            entities@,
                            (#[trigger] relationships@[j]).target_entity_id,
                        ),
                    forall|j: int|
                        0 <= j < relationships@.len() ==> (#[trigger] relationships@[j]).wf(),
                    forall|j: int|
                        0 <= j < relationships@.len() ==> (#[trigger] relationships@[j]).source@
                            == source@,
                    relationships@.len() == spec_resolving(rarr@.take(i as int), m_idx).len(),
                    forall|j: int|
                        0 <= j < relationships@.len() ==> rel_record_matches(
                            spec_resolving(rarr@.take(i as int), m_idx)[j],
                            m_idx,
                            #[trigger] relationships@[j],
                        ),
                decreases n - i,
            {
                let rv = &rarr[i];
                let ghost rec = rarr@[i as int];
                let src_name = match get_string_field(rv, "source") {
                    Some(s) => s,
                    None => {
                        proof {
                            lemma_reply_bad_rel(root, *rlist, rarr@, i as int);
                        }
                        return Err(
                            extraction_err("Failed to parse LLM JSON output: relationship source"),
                        );
                    },
                };
                let tgt_name = match get_string_field(rv, "target") {
                    Some(s) => s,
                    None => {
                        proof {
                            lemma_reply_bad_rel(root, *rlist, rarr@, i as int);
                        }
                        return Err(
                            extraction_err("Failed to parse LLM JSON output: relationship target"),
                        );
                    },
                };
                let verb = match get_string_field(rv, "type") {
                    Some(s) => s,
                    None => {
                        proof {
                            lemma_reply_bad_rel(root, *rlist, rarr@, i as int);
                        }
                        return Err(
                            extraction_err("Failed to parse LLM JSON output: relationship type"),
                        );
                    },
                };
                let confidence = match get_confidence_field(rv, "confidence") {
                    Some(c) => c,
                    None => {
                        proof {
                            lemma_reply_bad_rel(root, *rlist, rarr@, i as int);
                        }
                        return Err(
                            extraction_err(
                                "Failed to parse LLM JSON output: relationship confidence",
                            ),
                        );
                    },
                };
                let properties = get_properties_field(rv, "properties");

                let src_key = fold_name(src_name.as_str());
                let tgt_key = fold_name(tgt_name.as_str());
                let src_id = assoc_get(&name_to_id, src_key.as_str().as_bytes());
                let tgt_id = assoc_get(&name_to_id, tgt_key.as_str().as_bytes());
                proof {
                    assert(src_id == spec_assoc(
                        m_idx,
                        lower_of(vstd::utf8::encode_utf8(src_name@)),
                    ));
                    assert(tgt_id == spec_assoc(
                        m_idx,
                        lower_of(vstd::utf8::encode_utf8(tgt_name@)),
                    ));
                    assert(rarr@.take(i + 1 as int).drop_last() =~= rarr@.take(i as int));
                    assert(rarr@.take(i + 1 as int).last() == rec);
                }
                let ghost kept = spec_resolving(rarr@.take(i as int), m_idx);
                match (src_id, tgt_id) {
                    (Some(sid), Some(tid)) => {
                        let rel = Relationship {
                            id: crate::mint::fresh_id(),
                            source_entity_id: sid,
                            target_entity_id: tid,
                            relation_type: parse_relation_type(verb.as_str()),
                            properties,
                            confidence,
                            source: source.to_owned(),
                            timestamp: Some(now),
                        };
                        let ghost before = relationships@;
                        relationships.push(rel);
                        proof {
                            assert(rel_resolves(rec, m_idx));
                            assert(spec_resolving(rarr@.take(i + 1 as int), m_idx) == kept.push(
                                rec,
                            ));
                            assert(rel_record_matches(rec, m_idx, relationships@.last()));
                            assert forall|j: int| 0 <= j < relationships@.len() implies
                                rel_record_matches(
                                spec_resolving(rarr@.take(i + 1 as int), m_idx)[j],
                                m_idx,
                                #[trigger] relationships@[j],
                            ) by {
                                if j < before.len() {
                                    assert(relationships@[j] == before[j]);
                                    assert(kept.push(rec)[j] == kept[j]);
                                }
                            }
                        }
                    },
                    _ => {
                        // The reply names an endpoint it never defined: drop the
                        // relationship rather than invent an entity.
                        proof {
                            assert(!rel_resolves(rec, m_idx));
                            assert(spec_resolving(rarr@.take(i + 1 as int), m_idx) == kept);
                        }
                    },
                }
                i += 1;
            }
            proof {
                assert(rarr@.take(n as int) =~= rarr@);
            }
        },
        None => {
            proof {
                assert(spec_member(root, "relationships"@) is None);
            }
        },
    }

    Ok((entities, relationships))
}

/// Run the response parser and package the outcome of one document.
pub fn extract_from_response(raw_json: &str, doc_source: &str, raw_source: String) -> (r: Result<
    ExtractionResult,
    ArgusError,
>)
    ensures
        r matches Ok(res) ==> {
            &&& res.endpoints_resolved()
            &&& res.raw_source == raw_source
            &&& forall|i: int| 0 <= i < res.entities@.len() ==> (#[trigger] res.entities@[i]).wf()
            &&& forall|i: int|
                0 <= i < res.entities@.len() ==> (#[trigger] res.entities@[i]).source@
                    == doc_source@
            &&& forall|j: int|
                0 <= j < res.relationships@.len() ==> (#[trigger] res.relationships@[j]).wf()
            &&& forall|j: int|
                0 <= j < res.relationships@.len() ==> (#[trigger] res.relationships@[j]).source@
                    == doc_source@
        },
        vstd::utf8::valid_utf8(spec_clean(str_bytes(raw_json))) ==> {
            let parsed = spec_json_of(
                vstd::utf8::decode_utf8(spec_clean(str_bytes(raw_json))),
            );
            &&& (r is Ok ==> parsed is Some)
            &&& (parsed is None ==> r is Err)
            &&& (parsed matches Some(root) ==> (spec_reply_ok(root) ==> r is Ok))
            &&& (r matches Ok(res) ==> parsed matches Some(root) && (match spec_member(
                root,
                "entities"@,
            ) {
                None => res.entities@.len() == 0,
                Some(el) => spec_elements(el) matches Some(es) && res.entities@.len() == es.len()
                    && forall|k: int|
                    0 <= k < es.len() ==> entity_record_matches(
                        #[trigger] es[k],
                        res.entities@[k],
                    ),
            }))
            &&& (r matches Ok(res) ==> parsed matches Some(root) && (match spec_member(
                root,
                "relationships"@,
            ) {
                None => res.relationships@.len() == 0,
                Some(rl) => spec_elements(rl) matches Some(rs) && {
                    let m = spec_name_index(spec_entity_records(root), res.entities@);
                    &&& res.relationships@.len() == spec_resolving(rs, m).len()
                    &&& forall|j: int|
                        0 <= j < res.relationships@.len() ==> rel_record_matches(
                            spec_resolving(rs, m)[j],
                            m,
                            #[trigger] res.relationships@[j],
                        )
                },
            }))
        },
{
    let parsed = parse_llm_response(raw_json, doc_source);
    match parsed {
        Ok((entities, relationships)) => {
            let res = ExtractionResult {
                entities,
                relationships,
                raw_source,
                extracted_at: crate::mint::now_millis(),
            };
            Ok(res)
        },
        Err(e) => Err(e),
    }
}

// ── Batch outcome policy ───────────────────────────────────────────────────

/// The successful results among a batch's outcomes, in order.
pub open spec fn spec_oks(s: Seq<Result<ExtractionResult, String>>) -> Seq<ExtractionResult>
    decreases s.len(),
{
    if s.len() == 0 {
        Seq::empty()
    } else {
        match s.last() {
            Ok(e) => spec_oks(s.drop_last()).push(e),
            Err(_) => spec_oks(s.drop_last()),
        }
    }
}

/// A batch with no successful outcome has an empty success list.
proof fn lemma_oks_empty(s: Seq<Result<ExtractionResult, String>>)
    ensures
        (spec_oks(s).len() == 0) <==> (forall|i: int| 0 <= i < s.len() ==> (#[trigger] s[i]) is Err),
    decreases s.len(),
{
    if s.len() > 0 {
        lemma_oks_empty(s.drop_last());
        if spec_oks(s).len() == 0 {
            assert(forall|i: int|
                0 <= i < s.len() - 1 ==> s.drop_last()[i] == #[trigger] s[i]);
        } else {
            if forall|i: int| 0 <= i < s.len() ==> (#[trigger] s[i]) is Err {
                assert(s.last() is Err);
                assert(forall|i: int|
                    0 <= i < s.len() - 1 ==> (#[trigger] s.drop_last()[i]) == s[i]);
            }
        }
    }
}

/// Fold the per-document outcomes of a batch: when every document failed
/// the batch fails with one aggregated error, otherwise the successes are
/// returned and the failures are left behind.
pub fn collect_batch_outcomes(outcomes: Vec<Result<ExtractionResult, String>>) -> (r: Result<
    Vec<ExtractionResult>,
    ArgusError,
>)
    ensures
        r is Err <==> (outcomes@.len() > 0 && forall|i: int|
            0 <= i < outcomes@.len() ==> (#[trigger] outcomes@[i]) is Err),
        r matches Ok(v) ==> v@ == spec_oks(outcomes@),
        r matches Err(e) ==> e is Extraction,
{
    let ghost all = outcomes@;
    let total = outcomes.len();
    let mut outcomes = outcomes;
    let mut oks: Vec<ExtractionResult> = Vec::new();
    let mut errors: Vec<String> = Vec::new();
    while outcomes.len() > 0
        invariant
            outcomes@.len() <= all.len() == total,
            outcomes@ == all.skip(all.len() - outcomes@.len()),
            oks@ == spec_oks(all.take(all.len() - outcomes@.len())),
            (errors@.len() == 0) <==> (forall|i: int|
                0 <= i < all.len() - outcomes@.len() ==> (#[trigger] all[i]) is Ok),
        decreases outcomes@.len(),
    {
        let ghost k = all.len() - outcomes@.len();
        let next = outcomes.remove(0);
        proof {
            assert(all.skip(k)[0] == all[k]);
            assert(next == all[k]);
            assert(outcomes@ =~= all.skip(k + 1));
            assert(all.take(k + 1).drop_last() =~= all.take(k));
            assert(all.take(k + 1).last() == all[k]);
        }
        match next {
            Ok(res) => {
                oks.push(res);
            },
            Err(msg) => {
                errors.push(msg);
            },
        }
    }
    proof {
        assert(all.take(all.len() as int) =~= all);
    }
    if oks.len() == 0 && errors.len() > 0 {
        proof {
            lemma_oks_empty(all);
        }
        let mut msg = String::new();
        msg.append("All documents failed extraction: ");
        let n = errors.len();
        let mut i: usize = 0;
        while i < n
            invariant
                i <= n,
                n == errors@.len(),
            decreases n - i,
        {
            if i > 0 {
                msg.append("; ");
            }
            msg.append(errors[i].as_str());
            i += 1;
        }
        return Err(ArgusError::Extraction(msg));
    }
    proof {
        if !(outcomes@.len() == 0) {
        }
        lemma_oks_empty(all);
    }
    Ok(oks)
}

// ── Prompts ────────────────────────────────────────────────────────────────

/// The instruction sent with every extraction request: return strict JSON
/// with `entities` and `relationships` arrays over the closed tag sets.
pub fn build_system_prompt() -> String {
    let mut p = String::new();
    p.append(
        "You are an entity and relationship extraction system for an intelligence analysis platform.\n\nGiven a document, extract all notable entities and the relationships between them.\n\nReturn ONLY valid JSON (no markdown fences, no commentary) matching this exact schema:\n\n",
    );
    p.append(
        "{\n  \"entities\": [\n    {\n      \"name\": \"Entity Name\",\n      \"type\": \"person | organization | vessel | aircraft | location | event | document | transaction | sanction\",\n      \"aliases\": [\"optional alternate names\"],\n      \"properties\": { \"arbitrary\": \"key-value pairs with extra info\" },\n      \"confidence\": 0.0 to 1.0\n    }\n  ],\n",
    );
    p.append(
        "  \"relationships\": [\n    {\n      \"source\": \"Source Entity Name\",\n      \"target\": \"Target Entity Name\",\n      \"type\": \"owner_of | director_of | employee_of | related_to | located_at | transacted_with | sanctioned_by | registered_in | flagged_as | meeting_with | traveled_to | part_of\",\n      \"properties\": { \"arbitrary\": \"key-value pairs\" },\n      \"confidence\": 0.0 to 1.0\n    }\n  ]\n}\n\n",
    );
    p.append(
        "Rules:\n- Entity names in relationships MUST exactly match an entity in the entities list.\n- Choose the most specific entity type and relationship type that applies.\n- Only extract entities and relationships that are clearly supported by the text.\n- If no entities or relationships can be extracted, return {\"entities\": [], \"relationships\": []}.\n- Output ONLY the JSON object. No additional text.",
    );
    p
}

/// The user message for one document: title and address when present, the
/// source name, and the document content.
pub fn build_user_prompt(document: &RawDocument) -> (r: String)
    ensures
        r@ == (match document.title {
            Some(t) => "Title: "@ + t@ + "\n"@,
            None => Seq::<char>::empty(),
        }) + (match document.url {
            Some(u) => "URL: "@ + u@ + "\n"@,
            None => Seq::<char>::empty(),
        }) + "Source: "@ + document.source@ + "\n"@ + "\nDocument content:\n"@
            + document.content@,
{
    let mut p = String::new();
    match &document.title {
        Some(t) => {
            p.append("Title: ");
            p.append(t.as_str());
            p.append("\n");
        },
        None => {},
    }
    match &document.url {
        Some(u) => {
            p.append("URL: ");
            p.append(u.as_str());
            p.append("\n");
        },
        None => {},
    }
    p.append("Source: ");
    p.append(document.source.as_str());
    p.append("\n");
    p.append("\nDocument content:\n");
    p.append(document.content.as_str());
    proof {
        assert(p@ =~= (match document.title {
            Some(t) => "Title: "@ + t@ + "\n"@,
            None => Seq::<char>::empty(),
        }) + (match document.url {
            Some(u) => "URL: "@ + u@ + "\n"@,
            None => Seq::<char>::empty(),
        }) + "Source: "@ + document.source@ + "\n"@ + "\nDocument content:\n"@
            + document.content@);
    }
    p
}

} // verus!
