//! Per-source document shaping: the sanctions feed's page handling and the
//! lobby-register entries.  Position feeds carry floating-point telemetry
//! and stay outside the verified core; their shaping lives with the
//! collectors.

use vstd::prelude::*;
use vstd::string::StringExecFns;

use crate::jsonval::{
    json_as_array, json_as_str, json_get, json_number_text, json_object_insert, json_object_new,
    json_string, parse_json, spec_elements, spec_field_text, spec_is_obj, spec_json_of,
    spec_member, spec_null, spec_number_text, spec_text,
};
use crate::model::{ArgusError, RawDocument};
use crate::numtext::{all_digits, int_value, spec_all_digits, spec_int_val};
use crate::text::{spec_trim, string_bytes, trim_bytes};

verus! {

/// The sanctions page size asked for on every request.
pub const SANCTIONS_PAGE_LIMIT: u32 = 100;

/// The sanctions pagination safety cap on the offset.
pub const SANCTIONS_MAX_OFFSET: u32 = 10000;

/// Whether pagination stops after a page: a short page ends the feed, a
/// reported total that has been reached ends it, and the safety cap on the
/// next offset ends it.
pub fn pagination_should_stop(result_count: usize, next_offset: u32, total: Option<u64>) -> (r:
    bool)
    ensures
        r <==> {
            ||| result_count < SANCTIONS_PAGE_LIMIT as usize
            ||| (total matches Some(t) && next_offset as u64 >= t)
            ||| next_offset > SANCTIONS_MAX_OFFSET
        },
{
    if result_count < SANCTIONS_PAGE_LIMIT as usize {
        return true;
    }
    match total {
        Some(t) => {
            if next_offset as u64 >= t {
                return true;
            }
        },
        None => {},
    }
    next_offset > SANCTIONS_MAX_OFFSET
}

/// A whole number read from a JSON value's decimal text; fractions are
/// refused.
pub fn json_u64(v: &serde_json::Value) -> (r: Option<u64>)
    ensures
        r is Some <==> (spec_number_text(*v) matches Some(t) && {
            let b = vstd::utf8::encode_utf8(t);
            0 < b.len() <= 12 && spec_all_digits(b)
        }),
        r matches Some(u) ==> spec_number_text(*v) matches Some(t) && u == spec_int_val(
            vstd::utf8::encode_utf8(t),
        ),
{
    let text = match json_number_text(v) {
        Some(t) => t,
        None => {
            return None;
        },
    };
    let b = text.as_str().as_bytes();
    if b.len() == 0 || b.len() > 12 || !all_digits(b) {
        return None;
    }
    Some(int_value(b) as u64)
}

// ── Sanctions documents ────────────────────────────────────────────────────

/// The first listed name property of a sanctioned-entity record.
pub open spec fn spec_props_name(v: serde_json::Value) -> Option<Seq<char>> {
    match spec_member(v, "properties"@) {
        Some(p) => match spec_member(p, "name"@) {
            Some(n) => match spec_elements(n) {
                Some(es) => if es.len() > 0 {
                    spec_text(es[0])
                } else {
                    None
                },
                None => None,
            },
            None => None,
        },
        None => None,
    }
}

/// The display name of a sanctioned-entity record: the caption, else the
/// first listed name property, else the record id.
pub open spec fn spec_sanction_name(v: serde_json::Value) -> Seq<char> {
    match spec_field_text(v, "caption"@) {
        Some(c) => c,
        None => match spec_props_name(v) {
            Some(p) => p,
            None => match spec_field_text(v, "id"@) {
                Some(i) => i,
                None => Seq::empty(),
            },
        },
    }
}

/// The schema label of a sanctioned-entity record: `schema`, else
/// `schema_`, else Unknown; a present non-string value also reads Unknown.
pub open spec fn spec_sanction_schema(v: serde_json::Value) -> Seq<char> {
    match spec_member(v, "schema"@) {
        Some(s) => match spec_text(s) {
            Some(t) => t,
            None => "Unknown"@,
        },
        None => match spec_member(v, "schema_"@) {
            Some(s) => match spec_text(s) {
                Some(t) => t,
                None => "Unknown"@,
            },
            None => "Unknown"@,
        },
    }
}

/// How a sanctions document reflects its record: identity, name, address
/// and collection time, as the shaper's contract states them.
pub open spec fn sanction_doc_matches(rec: serde_json::Value, d: RawDocument, now: i64) -> bool {
    spec_field_text(rec, "id"@) matches Some(idt) && {
        &&& d.source@ == "opensanctions"@
        &&& d.source_id@ == idt
        &&& d.collected_at == now
        &&& d.title matches Some(t) && t@ == spec_sanction_name(rec)
        &&& d.url matches Some(u) && u@ == "https://api.opensanctions.org/entities/"@ + idt
    }
}

/// Shape one sanctioned-entity record into a document: yields one exactly
/// when the record has a string id; the name is the caption, else the
/// first listed name property, else the record id; the schema falls back
/// from `schema` to `schema_` to Unknown, and the metadata carries the
/// schema and verbatim copies of the record's bookkeeping members.
pub fn sanction_entity_to_document(entity: &serde_json::Value, now: i64) -> (r: Option<
    RawDocument,
>)
    ensures
        r is Some <==> spec_field_text(*entity, "id"@) is Some,
        r matches Some(d) ==> sanction_doc_matches(*entity, d, now),
        r matches Some(d) ==> {
            &&& spec_member(d.metadata, "schema"@) matches Some(sv) && spec_text(sv) == Some(
                spec_sanction_schema(*entity),
            )
            &&& member_copied(d.metadata, *entity, "properties"@)
            &&& member_copied(d.metadata, *entity, "datasets"@)
            &&& member_copied(d.metadata, *entity, "referents"@)
            &&& member_copied(d.metadata, *entity, "first_seen"@)
            &&& member_copied(d.metadata, *entity, "last_seen"@)
            &&& member_copied(d.metadata, *entity, "last_change"@)
            &&& member_copied(d.metadata, *entity, "target"@)
            &&& member_copied(d.metadata, *entity, "caption"@)
        },
{
    let id_val = json_get(entity, "id")?;
    let id = json_as_str(id_val)?;

    let caption = match json_get(entity, "caption") {
        Some(c) => json_as_str(c),
        None => None,
    };
    let name: String = match caption {
        Some(c) => c.to_owned(),
        None => {
            let from_props = match json_get(entity, "properties") {
                Some(p) => match json_get(p, "name") {
                    Some(n) => match json_as_array(n) {
                        Some(arr) => if arr.len() > 0 {
                            json_as_str(&arr[0])
                        } else {
                            None
                        },
                        None => None,
                    },
                    None => None,
                },
                None => None,
            };
            match from_props {
                Some(s) => s.to_owned(),
                None => id.to_owned(),
            }
        },
    };

    let schema: String = match json_get(entity, "schema") {
        Some(s) => {
            match json_as_str(s) {
                Some(t) => t.to_owned(),
                None => "Unknown".to_owned(),
            }
        },
        None => {
            match json_get(entity, "schema_") {
                Some(s) => {
                    match json_as_str(s) {
                        Some(t) => t.to_owned(),
                        None => "Unknown".to_owned(),
                    }
                },
                None => "Unknown".to_owned(),
            }
        },
    };

    let mut content = String::new();
    content.append("Sanctioned entity: ");
    content.append(name.as_str());
    content.append(" (Schema: ");
    content.append(schema.as_str());
    content.append("). ID: ");
    content.append(id);

    let mut metadata = json_object_new();
    json_object_insert(&mut metadata, "schema", json_string(schema.as_str()));
    copy_member(&mut metadata, entity, "properties");
    proof {
        reveal_strlit("schema");
        reveal_strlit("properties");
        assert("schema"@.len() == 6);
        assert("properties"@.len() == 10);
        assert("schema"@ != "properties"@);
        assert(spec_member(metadata, "schema"@) matches Some(sv) && spec_text(sv) == Some(
            schema@,
        ));
    }
    copy_member(&mut metadata, entity, "datasets");
    proof {
        reveal_strlit("schema");
        reveal_strlit("datasets");
        assert("schema"@.len() == 6);
        assert("datasets"@.len() == 8);
        assert("schema"@ != "datasets"@);
        assert(spec_member(metadata, "schema"@) matches Some(sv) && spec_text(sv) == Some(
            schema@,
        ));
    }
    copy_member(&mut metadata, entity, "referents");
    proof {
        reveal_strlit("schema");
        reveal_strlit("referents");
        assert("schema"@.len() == 6);
        assert("referents"@.len() == 9);
        assert("schema"@ != "referents"@);
        assert(spec_member(metadata, "schema"@) matches Some(sv) && spec_text(sv) == Some(
            schema@,
        ));
    }
    copy_member(&mut metadata, entity, "first_seen");
    proof {
        reveal_strlit("schema");
        reveal_strlit("first_seen");
        assert("schema"@.len() == 6);
        assert("first_seen"@.len() == 10);
        assert("schema"@ != "first_seen"@);
        assert(spec_member(metadata, "schema"@) matches Some(sv) && spec_text(sv) == Some(
            schema@,
        ));
    }
    copy_member(&mut metadata, entity, "last_seen");
    proof {
        reveal_strlit("schema");
        reveal_strlit("last_seen");
        assert("schema"@.len() == 6);
        assert("last_seen"@.len() == 9);
        assert("schema"@ != "last_seen"@);
        assert(spec_member(metadata, "schema"@) matches Some(sv) && spec_text(sv) == Some(
            schema@,
        ));
    }
    copy_member(&mut metadata, entity, "last_change");
    proof {
        reveal_strlit("schema");
        reveal_strlit("last_change");
        assert("schema"@.len() == 6);
        assert("last_change"@.len() == 11);
        assert("schema"@ != "last_change"@);
        assert(spec_member(metadata, "schema"@) matches Some(sv) && spec_text(sv) == Some(
            schema@,
        ));
    }
    copy_member(&mut metadata, entity, "target");
    proof {
        reveal_strlit("schema");
        reveal_strlit("target");
        assert("schema"@[0] == 's' && "target"@[0] == 't');
        assert("schema"@ != "target"@);
        assert(spec_member(metadata, "schema"@) matches Some(sv) && spec_text(sv) == Some(
            schema@,
        ));
    }
    copy_member(&mut metadata, entity, "caption");
    proof {
        reveal_strlit("schema");
        reveal_strlit("caption");
        assert("schema"@.len() == 6);
        assert("caption"@.len() == 7);
        assert("schema"@ != "caption"@);
        assert(spec_member(metadata, "schema"@) matches Some(sv) && spec_text(sv) == Some(
            schema@,
        ));
    }

    let mut url = String::new();
    url.append("https://api.opensanctions.org/entities/");
    url.append(id);
    proof {
        assert(url@ =~= "https://api.opensanctions.org/entities/"@ + id@);
        reveal_strlit("schema");
        reveal_strlit("properties");
        reveal_strlit("datasets");
        reveal_strlit("referents");
        reveal_strlit("first_seen");
        reveal_strlit("last_seen");
        reveal_strlit("last_change");
        reveal_strlit("target");
        reveal_strlit("caption");
        assert(schema@ == spec_sanction_schema(*entity));
        assert(spec_member(metadata, "schema"@) matches Some(sv) && spec_text(sv) == Some(
            spec_sanction_schema(*entity),
        ));
    }

    Some(
        RawDocument {
            source: "opensanctions".to_owned(),
            source_id: id.to_owned(),
            title: Some(name),
            content,
            url: Some(url),
            collected_at: now,
            metadata,
        },
    )
}

/// How a copied member sits in the metadata: the record's value verbatim,
/// or null when the record lacks the key.
pub open spec fn member_copied(
    meta: serde_json::Value,
    rec: serde_json::Value,
    key: Seq<char>,
) -> bool {
    match spec_member(rec, key) {
        Some(m) => spec_member(meta, key) == Some(m),
        None => spec_member(meta, key) matches Some(x) && spec_null(x),
    }
}

/// Copy one member of a record into the metadata, null when absent; every
/// other member is left as it was.
fn copy_member(metadata: &mut serde_json::Value, record: &serde_json::Value, key: &str)
    ensures
        spec_is_obj(*old(metadata)) ==> {
            &&& spec_is_obj(*final(metadata))
            &&& member_copied(*final(metadata), *record, key@)
            &&& forall|k: Seq<char>|
                k != key@ ==> #[trigger] spec_member(*final(metadata), k) == spec_member(
                    *old(metadata),
                    k,
                )
        },
{
    match json_get(record, key) {
        Some(v) => json_object_insert(metadata, key, v.clone()),
        None => json_object_insert(metadata, key, crate::jsonval::json_null()),
    }
}

/// Whether a page body carries a results list, and which.
pub open spec fn spec_results(root: serde_json::Value) -> Option<Seq<serde_json::Value>> {
    match spec_member(root, "results"@) {
        Some(rs) => spec_elements(rs),
        None => None,
    }
}

/// The records of a results list that carry a string id, in order: exactly
/// the ones a page yields documents for.
pub open spec fn spec_with_id(es: Seq<serde_json::Value>) -> Seq<serde_json::Value>
    decreases es.len(),
{
    if es.len() == 0 {
        Seq::<serde_json::Value>::empty()
    } else if spec_field_text(es.last(), "id"@) is Some {
        spec_with_id(es.drop_last()).push(es.last())
    } else {
        spec_with_id(es.drop_last())
    }
}

/// Parse one sanctions page: succeeds exactly when the body is JSON with a
/// results list, yielding one document per id-carrying record, in record
/// order, along with the reported total and the page's result count.
pub fn parse_sanctions_page(body: &str, now: i64) -> (r: Result<
    (Vec<RawDocument>, Option<u64>, usize),
    ArgusError,
>)
    ensures
        r is Ok <==> (spec_json_of(body@) matches Some(root) && spec_results(root) is Some),
        r matches Ok(p) ==> spec_json_of(body@) matches Some(root) && spec_results(
            root,
        ) matches Some(es) && {
            &&& p.2 == es.len()
            &&& p.0@.len() == spec_with_id(es).len()
            &&& forall|i: int|
                0 <= i < p.0@.len() ==> sanction_doc_matches(
                    spec_with_id(es)[i],
                    #[trigger] p.0@[i],
                    now,
                )
            &&& forall|i: int|
                0 <= i < p.0@.len() ==> (#[trigger] p.0@[i]).source@ == "opensanctions"@
            &&& forall|i: int| 0 <= i < p.0@.len() ==> (#[trigger] p.0@[i]).collected_at == now
        },
{
    let root = match parse_json(body) {
        Ok(v) => v,
        Err(e) => {
            let mut msg = String::new();
            msg.append("Failed to parse response JSON: ");
            msg.append(e.as_str());
            return Err(ArgusError::Agent { agent: "opensanctions".to_owned(), message: msg });
        },
    };
    let results = match json_get(&root, "results") {
        Some(v) => v,
        None => {
            return Err(
                ArgusError::Agent {
                    agent: "opensanctions".to_owned(),
                    message: "response held no results list".to_owned(),
                },
            );
        },
    };
    let arr = match json_as_array(results) {
        Some(a) => a,
        None => {
            return Err(
                ArgusError::Agent {
                    agent: "opensanctions".to_owned(),
                    message: "results was not a list".to_owned(),
                },
            );
        },
    };
    let mut docs: Vec<RawDocument> = Vec::new();
    let n = arr.len();
    let mut i: usize = 0;
    while i < n
        invariant
            i <= n,
            n == arr@.len(),
            docs@.len() == spec_with_id(arr@.take(i as int)).len(),
            forall|k: int|
                0 <= k < docs@.len() ==> sanction_doc_matches(
                    spec_with_id(arr@.take(i as int))[k],
                    #[trigger] docs@[k],
                    now,
                ),
            forall|k: int| 0 <= k < docs@.len() ==> (#[trigger] docs@[k]).source@
                == "opensanctions"@,
            forall|k: int| 0 <= k < docs@.len() ==> (#[trigger] docs@[k]).collected_at == now,
        decreases n - i,
    {
        let ghost rec = arr@[i as int];
        let ghost kept = spec_with_id(arr@.take(i as int));
        proof {
            assert(arr@.take(i + 1 as int).drop_last() =~= arr@.take(i as int));
            assert(arr@.take(i + 1 as int).last() == rec);
        }
        match sanction_entity_to_document(&arr[i], now) {
            Some(d) => {
                let ghost before = docs@;
                docs.push(d);
                proof {
                    assert(spec_with_id(arr@.take(i + 1 as int)) == kept.push(rec));
                    assert forall|k: int| 0 <= k < docs@.len() implies sanction_doc_matches(
                        spec_with_id(arr@.take(i + 1 as int))[k],
                        #[trigger] docs@[k],
                        now,
                    ) by {
                        if k < before.len() {
                            assert(docs@[k] == before[k]);
                            assert(kept.push(rec)[k] == kept[k]);
                        }
                    }
                }
            },
            None => {
                // A record without an id is skipped.
                proof {
                    assert(spec_with_id(arr@.take(i + 1 as int)) == kept);
                }
            },
        }
        i += 1;
    }
    proof {
        assert(arr@.take(n as int) =~= arr@);
    }
    let total = match json_get(&root, "total") {
        Some(t) => json_u64(t),
        None => None,
    };
    Ok((docs, total, n))
}

// ── Lobby-register documents ───────────────────────────────────────────────

/// The first present string member among the given keys.
fn first_string<'a>(entry: &'a serde_json::Value, k1: &str, k2: &str) -> (r: Option<&'a str>)
    ensures
        match spec_first_text(*entry, k1@, k2@) {
            Some(t) => r matches Some(s) && s@ == t,
            None => r is None,
        },
{
    match json_get(entry, k1) {
        Some(v) => {
            match json_as_str(v) {
                Some(s) => Some(s),
                None => {
                    match json_get(entry, k2) {
                        Some(w) => json_as_str(w),
                        None => None,
                    }
                },
            }
        },
        None => {
            match json_get(entry, k2) {
                Some(w) => json_as_str(w),
                None => None,
            }
        },
    }
}

/// The bytes of an optional field's trimmed text, or of the fallback when
/// the field is absent or trims to nothing.
pub open spec fn spec_trimmed_or(t: Option<Seq<char>>, fallback: Seq<char>) -> Seq<u8> {
    match t {
        Some(s) => if spec_trim(vstd::utf8::encode_utf8(s)).len() == 0 {
            vstd::utf8::encode_utf8(fallback)
        } else {
            spec_trim(vstd::utf8::encode_utf8(s))
        },
        None => vstd::utf8::encode_utf8(fallback),
    }
}

/// The trimmed text of an optional field, or the fallback when absent or
/// blank.
fn trimmed_or(s: Option<&str>, fallback: &str) -> (r: String)
    ensures
        ({
            let sel = spec_trimmed_or(
                match s {
                    Some(t) => Some(t@),
                    None => None,
                },
                fallback@,
            );
            vstd::utf8::valid_utf8(sel) ==> string_bytes(&r) == sel
        }),
{
    match s {
        Some(t) => {
            let tb = trim_bytes(t.as_bytes());
            if tb.len() == 0 {
                fallback.to_owned()
            } else {
                crate::text::bytes_to_string_lossy(tb.as_slice())
            }
        },
        None => fallback.to_owned(),
    }
}

/// The first present string member among two keys.
pub open spec fn spec_first_text(v: serde_json::Value, k1: Seq<char>, k2: Seq<char>) -> Option<
    Seq<char>,
> {
    match spec_field_text(v, k1) {
        Some(t) => Some(t),
        None => spec_field_text(v, k2),
    }
}

/// Shape one lobby-register entry into a document: yields one exactly when
/// the entry carries a non-blank registration identifier (under either of
/// its two key spellings).
pub fn parse_entry(entry: &serde_json::Value, now: i64) -> (r: Option<RawDocument>)
    ensures
        r is Some <==> (spec_first_text(*entry, "registrationId"@, "id"@) matches Some(t)
            && crate::text::spec_trim(vstd::utf8::encode_utf8(t)).len() > 0),
        r matches Some(d) ==> spec_first_text(*entry, "registrationId"@, "id"@) matches Some(t)
            && {
            &&& d.source@ == "eu_transparency"@
            &&& d.collected_at == now
            &&& (d.title matches Some(tt) && ({
                let sel = spec_trimmed_or(
                    spec_first_text(*entry, "name"@, "organisationName"@),
                    "Unknown Organisation"@,
                );
                vstd::utf8::valid_utf8(sel) ==> string_bytes(&tt) == sel
            }))
            &&& (d.url matches Some(u) && u@
                == "https://ec.europa.eu/transparencyregister/public/consultation/displaylobbyist.do?id="@
                + d.source_id@)
            &&& (vstd::utf8::valid_utf8(crate::text::spec_trim(vstd::utf8::encode_utf8(t)))
                ==> string_bytes(&d.source_id) == crate::text::spec_trim(
                vstd::utf8::encode_utf8(t),
            ))
        },
{
    let reg_raw = first_string(entry, "registrationId", "id")?;
    let reg_trim = trim_bytes(reg_raw.as_bytes());
    if reg_trim.len() == 0 {
        return None;
    }
    let registration_id = crate::text::bytes_to_string_lossy(reg_trim.as_slice());

    let name = trimmed_or(first_string(entry, "name", "organisationName"), "Unknown Organisation");
    let category = trimmed_or(first_string(entry, "category", "section"), "Uncategorised");
    let sub_category = trimmed_or(first_string(entry, "subCategory", "subCategory"), "");
    let country = trimmed_or(first_string(entry, "countryOfHeadOffice", "country"), "unknown");
    let activities = trimmed_or(first_string(entry, "activities", "goals"), "");
    let lobbying_costs = trimmed_or(first_string(entry, "costs", "lobbyingCosts"), "");
    let registration_date = trimmed_or(first_string(entry, "registrationDate", "registrationDate"), "");

    let mut content = String::new();
    content.append("Lobbyist organisation: ");
    content.append(name.as_str());
    content.append(" (ID: ");
    content.append(registration_id.as_str());
    content.append("). Category: ");
    content.append(category.as_str());
    content.append(".");
    if sub_category.as_str().as_bytes().len() > 0 {
        content.append(" Sub-category: ");
        content.append(sub_category.as_str());
        content.append(".");
    }
    content.append(" Country: ");
    content.append(country.as_str());
    content.append(".");
    if activities.as_str().as_bytes().len() > 0 {
        content.append(" Activities: ");
        content.append(activities.as_str());
        content.append(".");
    }
    if lobbying_costs.as_str().as_bytes().len() > 0 {
        content.append(" Lobbying costs: ");
        content.append(lobbying_costs.as_str());
        content.append(".");
    }
    if registration_date.as_str().as_bytes().len() > 0 {
        content.append(" Registered: ");
        content.append(registration_date.as_str());
        content.append(".");
    }

    let mut metadata = json_object_new();
    json_object_insert(&mut metadata, "registration_id", json_string(registration_id.as_str()));
    json_object_insert(&mut metadata, "name", json_string(name.as_str()));
    json_object_insert(&mut metadata, "category", json_string(category.as_str()));
    json_object_insert(&mut metadata, "sub_category", json_string(sub_category.as_str()));
    json_object_insert(&mut metadata, "country", json_string(country.as_str()));
    json_object_insert(&mut metadata, "activities", json_string(activities.as_str()));
    json_object_insert(&mut metadata, "lobbying_costs", json_string(lobbying_costs.as_str()));
    copy_member(&mut metadata, entry, "numberOfAccreditedPersons");
    json_object_insert(
        &mut metadata,
        "registration_date",
        json_string(registration_date.as_str()),
    );
    copy_member(&mut metadata, entry, "webSiteUrl");

    let mut url = String::new();
    url.append(
        "https://ec.europa.eu/transparencyregister/public/consultation/displaylobbyist.do?id=",
    );
    url.append(registration_id.as_str());
    proof {
        assert(url@
            =~= "https://ec.europa.eu/transparencyregister/public/consultation/displaylobbyist.do?id="@
            + registration_id@);
    }

    Some(
        RawDocument {
            source: "eu_transparency".to_owned(),
            source_id: registration_id,
            title: Some(name),
            content,
            url: Some(url),
            collected_at: now,
            metadata,
        },
    )
}

/// The address the maritime positions are fetched from, with the account
/// key and the fixed format parameters.
pub fn build_url(api_key: &str) -> (r: String)
    ensures
        r@ == "https://data.aishub.net/ws.php?username="@ + api_key@
            + "&format=1&output=json&compress=0"@,
{
    let mut u = String::new();
    u.append("https://data.aishub.net/ws.php?username=");
    u.append(api_key);
    u.append("&format=1&output=json&compress=0");
    proof {
        assert(u@ =~= "https://data.aishub.net/ws.php?username="@ + api_key@
            + "&format=1&output=json&compress=0"@);
    }
    u
}

} // verus!
