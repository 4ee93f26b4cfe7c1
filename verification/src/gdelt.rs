//! The news-events feed: selecting the latest export from the manifest,
//! and turning the tab-delimited event table into raw documents.

use vstd::prelude::*;
use vstd::string::StringExecFns;
use vstd::string::StrSliceExecFns;

use crate::jsonval::{json_null, json_number_from_str, json_object_insert, json_object_new, json_string};
use crate::model::{ArgusError, RawDocument};
use crate::text::{
    bytes_to_string_lossy, ends_with_bytes, eq_str, is_ws_byte, lines_bytes, spec_lines,
    spec_split, spec_trim, split_bytes, str_bytes, string_bytes, trim_bytes, views_of,
};

verus! {

/// Safety cap on events parsed from one export.
pub const MAX_EVENTS: usize = 5000;

/// Column count of the events export.
pub const GDELT_EVENT_COLUMNS: usize = 58;

// Column indices of the fields this crate reads (0-indexed).
pub const COL_GLOBAL_EVENT_ID: usize = 0;

pub const COL_DAY: usize = 1;

pub const COL_ACTOR1_NAME: usize = 5;

pub const COL_ACTOR1_COUNTRY_CODE: usize = 7;

pub const COL_ACTOR2_NAME: usize = 15;

pub const COL_ACTOR2_COUNTRY_CODE: usize = 17;

pub const COL_EVENT_CODE: usize = 26;

pub const COL_EVENT_BASE_CODE: usize = 27;

pub const COL_EVENT_ROOT_CODE: usize = 28;

pub const COL_QUAD_CLASS: usize = 29;

pub const COL_GOLDSTEIN_SCALE: usize = 30;

pub const COL_NUM_MENTIONS: usize = 31;

pub const COL_NUM_SOURCES: usize = 32;

pub const COL_NUM_ARTICLES: usize = 33;

pub const COL_AVG_TONE: usize = 34;

pub const COL_ACTOR1_GEO_LAT: usize = 39;

pub const COL_ACTOR1_GEO_LONG: usize = 40;

pub const COL_ACTOR2_GEO_LAT: usize = 44;

pub const COL_ACTOR2_GEO_LONG: usize = 45;

pub const COL_ACTION_GEO_FULL_NAME: usize = 50;

pub const COL_ACTION_GEO_COUNTRY_CODE: usize = 51;

pub const COL_ACTION_GEO_LAT: usize = 53;

pub const COL_ACTION_GEO_LONG: usize = 54;

pub const COL_SOURCE_URL: usize = 57;

// ── Event descriptions ─────────────────────────────────────────────────────

/// The human-readable description of a top-level event code.
pub open spec fn spec_cameo(c: Seq<char>) -> Seq<char> {
    if c == "01"@ {
        "Make Public Statement"@
    } else if c == "02"@ {
        "Appeal"@
    } else if c == "03"@ {
        "Express Intent to Cooperate"@
    } else if c == "04"@ {
        "Consult"@
    } else if c == "05"@ {
        "Engage in Diplomatic Cooperation"@
    } else if c == "06"@ {
        "Engage in Material Cooperation"@
    } else if c == "07"@ {
        "Provide Aid"@
    } else if c == "08"@ {
        "Yield"@
    } else if c == "09"@ {
        "Investigate"@
    } else if c == "10"@ {
        "Demand"@
    } else if c == "11"@ {
        "Disapprove"@
    } else if c == "12"@ {
        "Reject"@
    } else if c == "13"@ {
        "Threaten"@
    } else if c == "14"@ {
        "Protest"@
    } else if c == "15"@ {
        "Exhibit Military Posture"@
    } else if c == "16"@ {
        "Reduce Relations"@
    } else if c == "17"@ {
        "Coerce"@
    } else if c == "18"@ {
        "Assault"@
    } else if c == "19"@ {
        "Fight"@
    } else if c == "20"@ {
        "Engage in Unconventional Mass Violence"@
    } else {
        "Interact With"@
    }
}

/// Map a top-level event code to its description; unknown codes read
/// "Interact With".
pub fn cameo_event_description(code: &str) -> (r: &'static str)
    ensures
        r@ == spec_cameo(code@),
{
    if eq_str(code, "01") {
        "Make Public Statement"
    } else if eq_str(code, "02") {
        "Appeal"
    } else if eq_str(code, "03") {
        "Express Intent to Cooperate"
    } else if eq_str(code, "04") {
        "Consult"
    } else if eq_str(code, "05") {
        "Engage in Diplomatic Cooperation"
    } else if eq_str(code, "06") {
        "Engage in Material Cooperation"
    } else if eq_str(code, "07") {
        "Provide Aid"
    } else if eq_str(code, "08") {
        "Yield"
    } else if eq_str(code, "09") {
        "Investigate"
    } else if eq_str(code, "10") {
        "Demand"
    } else if eq_str(code, "11") {
        "Disapprove"
    } else if eq_str(code, "12") {
        "Reject"
    } else if eq_str(code, "13") {
        "Threaten"
    } else if eq_str(code, "14") {
        "Protest"
    } else if eq_str(code, "15") {
        "Exhibit Military Posture"
    } else if eq_str(code, "16") {
        "Reduce Relations"
    } else if eq_str(code, "17") {
        "Coerce"
    } else if eq_str(code, "18") {
        "Assault"
    } else if eq_str(code, "19") {
        "Fight"
    } else if eq_str(code, "20") {
        "Engage in Unconventional Mass Violence"
    } else {
        "Interact With"
    }
}

// ── Title ──────────────────────────────────────────────────────────────────

/// The title: actor 1 (or "Unknown"), the event description, actor 2 when
/// present, and "in <place>" when present, separated by spaces.
pub open spec fn spec_event_title(a1: Seq<char>, a2: Seq<char>, code: Seq<char>, geo: Seq<
    char,
>) -> Seq<char> {
    (if a1.len() == 0 {
        "Unknown"@
    } else {
        a1
    }) + " "@ + spec_cameo(code) + (if a2.len() == 0 {
        Seq::<char>::empty()
    } else {
        " "@ + a2
    }) + (if geo.len() == 0 {
        Seq::<char>::empty()
    } else {
        " in "@ + geo
    })
}

/// Build a concise event title from key fields.
pub fn build_event_title(actor1: &str, actor2: &str, event_code: &str, geo: &str) -> (r: String)
    ensures
        r@ == spec_event_title(actor1@, actor2@, event_code@, geo@),
{
    let mut out = String::new();
    if actor1.unicode_len() == 0 {
        out.append("Unknown");
    } else {
        out.append(actor1);
    }
    out.append(" ");
    out.append(cameo_event_description(event_code));
    if actor2.unicode_len() > 0 {
        out.append(" ");
        out.append(actor2);
    }
    if geo.unicode_len() > 0 {
        out.append(" in ");
        out.append(geo);
    }
    proof {
        assert(out@ =~= spec_event_title(actor1@, actor2@, event_code@, geo@));
    }
    out
}

// ── Content ────────────────────────────────────────────────────────────────

/// The text when a field is present, else "N/A".
pub open spec fn spec_or_na(c: Seq<char>) -> Seq<char> {
    if c.len() == 0 {
        "N/A"@
    } else {
        c
    }
}

/// The quad-class label: codes 1 to 4 are named, anything else is kept.
pub open spec fn spec_quad_label(c: Seq<char>) -> Seq<char> {
    if c == "1"@ {
        "Verbal Cooperation"@
    } else if c == "2"@ {
        "Material Cooperation"@
    } else if c == "3"@ {
        "Verbal Conflict"@
    } else if c == "4"@ {
        "Material Conflict"@
    } else {
        c
    }
}

/// The structured content text of an event record: one line per field
/// group, the location and source lines only when present.
pub open spec fn spec_event_content(
    id: Seq<char>,
    day: Seq<char>,
    a1: Seq<char>,
    a1cc: Seq<char>,
    a2: Seq<char>,
    a2cc: Seq<char>,
    code: Seq<char>,
    root: Seq<char>,
    quad: Seq<char>,
    goldstein: Seq<char>,
    tone: Seq<char>,
    geo: Seq<char>,
    geocc: Seq<char>,
    url: Seq<char>,
) -> Seq<char> {
    "GDELT Event "@ + id + " on "@ + day + "\nActor 1: "@ + spec_or_na(a1) + " ("@ + spec_or_na(
        a1cc,
    ) + ")"@ + "\nActor 2: "@ + spec_or_na(a2) + " ("@ + spec_or_na(a2cc) + ")"@ + "\nEvent: "@
        + spec_cameo(code) + " (root: "@ + spec_cameo(root) + ")"@ + "\nQuad Class: "@
        + spec_quad_label(quad) + "\nGoldstein Scale: "@ + goldstein + "\nAverage Tone: "@ + tone
        + (if geo.len() == 0 {
        Seq::<char>::empty()
    } else {
        "\nLocation: "@ + geo + " ("@ + geocc + ")"@
    }) + (if url.len() == 0 {
        Seq::<char>::empty()
    } else {
        "\nSource: "@ + url
    })
}

/// Build the structured content text for an event record.
#[verifier::rlimit(60)]
pub fn build_event_content(
    id: &str,
    day: &str,
    actor1: &str,
    actor1_cc: &str,
    actor2: &str,
    actor2_cc: &str,
    event_code: &str,
    event_root_code: &str,
    quad_class: &str,
    goldstein: &str,
    avg_tone: &str,
    geo: &str,
    geo_cc: &str,
    source_url: &str,
) -> (r: String)
    ensures
        r@ == spec_event_content(
            id@,
            day@,
            actor1@,
            actor1_cc@,
            actor2@,
            actor2_cc@,
            event_code@,
            event_root_code@,
            quad_class@,
            goldstein@,
            avg_tone@,
            geo@,
            geo_cc@,
            source_url@,
        ),
{
    let mut out = String::new();
    out.append("GDELT Event ");
    out.append(id);
    out.append(" on ");
    out.append(day);
    out.append("\nActor 1: ");
    append_or_na(&mut out, actor1);
    out.append(" (");
    append_or_na(&mut out, actor1_cc);
    out.append(")");
    out.append("\nActor 2: ");
    append_or_na(&mut out, actor2);
    out.append(" (");
    append_or_na(&mut out, actor2_cc);
    out.append(")");
    out.append("\nEvent: ");
    out.append(cameo_event_description(event_code));
    out.append(" (root: ");
    out.append(cameo_event_description(event_root_code));
    out.append(")");
    out.append("\nQuad Class: ");
    if eq_str(quad_class, "1") {
        out.append("Verbal Cooperation");
    } else if eq_str(quad_class, "2") {
        out.append("Material Cooperation");
    } else if eq_str(quad_class, "3") {
        out.append("Verbal Conflict");
    } else if eq_str(quad_class, "4") {
        out.append("Material Conflict");
    } else {
        out.append(quad_class);
    }
    out.append("\nGoldstein Scale: ");
    out.append(goldstein);
    out.append("\nAverage Tone: ");
    out.append(avg_tone);
    if geo.unicode_len() > 0 {
        out.append("\nLocation: ");
        out.append(geo);
        out.append(" (");
        out.append(geo_cc);
        out.append(")");
    }
    if source_url.unicode_len() > 0 {
        out.append("\nSource: ");
        out.append(source_url);
    }
    proof {
        assert(out@ =~= spec_event_content(
            id@,
            day@,
            actor1@,
            actor1_cc@,
            actor2@,
            actor2_cc@,
            event_code@,
            event_root_code@,
            quad_class@,
            goldstein@,
            avg_tone@,
            geo@,
            geo_cc@,
            source_url@,
        ));
    }
    out
}

/// Append the field, or "N/A" when it is empty.
fn append_or_na(out: &mut String, field: &str)
    ensures
        final(out)@ == old(out)@ + spec_or_na(field@),
{
    if field.unicode_len() == 0 {
        out.append("N/A");
    } else {
        out.append(field);
    }
}

// ── Manifest selection ─────────────────────────────────────────────────────

/// Pick the line of the last-update manifest that names the events export:
/// the first non-empty line ending in the export suffix, else the first
/// non-empty line.
/// Whether a manifest line, once trimmed, names an export archive.
pub open spec fn line_is_export(l: Seq<u8>) -> bool {
    spec_trim(l).len() > 0 && str_bytes(".export.CSV.zip").is_suffix_of(spec_trim(l))
}

/// The trimmed text of the first line naming an export archive.
pub open spec fn spec_first_export(lines: Seq<Seq<u8>>) -> Option<Seq<u8>>
    decreases lines.len(),
{
    if lines.len() == 0 {
        None
    } else if line_is_export(lines[0]) {
        Some(spec_trim(lines[0]))
    } else {
        spec_first_export(lines.drop_first())
    }
}

/// The trimmed text of the first non-blank line.
pub open spec fn spec_first_nonblank(lines: Seq<Seq<u8>>) -> Option<Seq<u8>>
    decreases lines.len(),
{
    if lines.len() == 0 {
        None
    } else if spec_trim(lines[0]).len() > 0 {
        Some(spec_trim(lines[0]))
    } else {
        spec_first_nonblank(lines.drop_first())
    }
}

/// The manifest line the resolver works from: the first export line, else
/// the first non-blank line.
pub open spec fn spec_selected_line(lines: Seq<Seq<u8>>) -> Option<Seq<u8>> {
    match spec_first_export(lines) {
        Some(l) => Some(l),
        None => spec_first_nonblank(lines),
    }
}

pub fn select_export_line(body: &str) -> (r: Option<Vec<u8>>)
    ensures
        match spec_selected_line(spec_lines(str_bytes(body))) {
            Some(l) => r matches Some(v) && v@ == l,
            None => r is None,
        },
{
    let lines = lines_bytes(body.as_bytes());
    let ghost lv = spec_lines(str_bytes(body));
    let n = lines.len();
    proof {
        assert(lv.skip(0) =~= lv);
    }
    let mut i: usize = 0;
    while i < n
        invariant
            i <= n,
            n == lines@.len(),
            lv == spec_lines(str_bytes(body)),
            views_of(lines@) == lv,
            spec_first_export(lv) == spec_first_export(lv.skip(i as int)),
        decreases n - i,
    {
        let t = trim_bytes(lines[i].as_slice());
        proof {
            assert(lv.skip(i as int)[0] == lv[i as int]);
            assert(lv.skip(i as int).drop_first() =~= lv.skip(i + 1));
        }
        if t.len() > 0 && ends_with_bytes(t.as_slice(), ".export.CSV.zip".as_bytes()) {
            proof {
                assert(lines@[i as int]@ == lv[i as int]);
                assert(t@ == spec_trim(lv[i as int]));
                assert(line_is_export(lv[i as int]));
                assert(spec_first_export(lv.skip(i as int)) == Some(spec_trim(lv[i as int])));
                assert(spec_first_export(lv) == Some(t@));
                assert(spec_selected_line(spec_lines(str_bytes(body))) == Some(t@));
            }
            return Some(t);
        }
        i += 1;
    }
    proof {
        assert(lv.skip(n as int) =~= Seq::<Seq<u8>>::empty());
        assert(lv.skip(0) =~= lv);
    }
    let mut i: usize = 0;
    while i < n
        invariant
            i <= n,
            n == lines@.len(),
            lv == spec_lines(str_bytes(body)),
            views_of(lines@) == lv,
            spec_first_export(lv) is None,
            spec_first_nonblank(lv) == spec_first_nonblank(lv.skip(i as int)),
        decreases n - i,
    {
        let t = trim_bytes(lines[i].as_slice());
        proof {
            assert(lv.skip(i as int)[0] == lv[i as int]);
            assert(lv.skip(i as int).drop_first() =~= lv.skip(i + 1));
        }
        if t.len() > 0 {
            proof {
                assert(lines@[i as int]@ == lv[i as int]);
                assert(t@ == spec_trim(lv[i as int]));
                assert(spec_first_nonblank(lv.skip(i as int)) == Some(spec_trim(lv[i as int])));
                assert(spec_first_nonblank(lv) == Some(t@));
                assert(spec_selected_line(spec_lines(str_bytes(body))) == Some(t@));
            }
            return Some(t);
        }
        i += 1;
    }
    proof {
        assert(lv.skip(n as int) =~= Seq::<Seq<u8>>::empty());
    }
    None
}

/// The token-building fold over a prefix of the line: the finished tokens
/// and the run being built.
pub open spec fn spec_tokens_state(b: Seq<u8>) -> (Seq<Seq<u8>>, Seq<u8>)
    decreases b.len(),
{
    if b.len() == 0 {
        (Seq::<Seq<u8>>::empty(), Seq::<u8>::empty())
    } else {
        let st = spec_tokens_state(b.drop_last());
        if crate::text::is_ws(b.last()) {
            if st.1.len() > 0 {
                (st.0.push(st.1), Seq::<u8>::empty())
            } else {
                st
            }
        } else {
            (st.0, st.1.push(b.last()))
        }
    }
}

/// The whitespace-separated tokens of a line: its maximal non-whitespace
/// runs, in order.
pub open spec fn spec_ws_tokens(b: Seq<u8>) -> Seq<Seq<u8>> {
    let st = spec_tokens_state(b);
    if st.1.len() > 0 {
        st.0.push(st.1)
    } else {
        st.0
    }
}

/// The whitespace-separated tokens of a line, exactly as `spec_ws_tokens`
/// says.
pub fn ws_tokens(line: &[u8]) -> (r: Vec<Vec<u8>>)
    ensures
        views_of(r@) == spec_ws_tokens(line@),
{
    let mut r: Vec<Vec<u8>> = Vec::new();
    let mut cur: Vec<u8> = Vec::new();
    let n = line.len();
    proof {
        assert(line@.take(0) =~= Seq::<u8>::empty());
        assert(views_of(r@) =~= Seq::<Seq<u8>>::empty());
    }
    let mut i: usize = 0;
    while i < n
        invariant
            i <= n,
            n == line@.len(),
            (views_of(r@), cur@) == spec_tokens_state(line@.take(i as int)),
        decreases n - i,
    {
        let b = line[i];
        proof {
            assert(line@.take(i + 1).drop_last() =~= line@.take(i as int));
            assert(line@.take(i + 1).last() == line@[i as int]);
        }
        if is_ws_byte(b) {
            if cur.len() > 0 {
                let ghost rv = views_of(r@);
                r.push(cur);
                cur = Vec::new();
                proof {
                    assert(views_of(r@) =~= rv.push(r@[r@.len() - 1]@));
                }
            }
        } else {
            cur.push(b);
        }
        i += 1;
    }
    proof {
        assert(line@.take(n as int) =~= line@);
    }
    if cur.len() > 0 {
        let ghost rv = views_of(r@);
        r.push(cur);
        proof {
            assert(views_of(r@) =~= rv.push(r@[r@.len() - 1]@));
        }
    }
    r
}

/// The pure part of resolving the latest export: select the manifest line,
/// then take its third whitespace-separated token as the archive address.
/// Fails exactly when no line can be selected or the selected line has
/// fewer than three tokens.
pub fn latest_export_url(body: &str) -> (r: Result<String, ArgusError>)
    ensures
        r is Ok <==> (spec_selected_line(spec_lines(str_bytes(body))) matches Some(l)
            && spec_ws_tokens(l).len() >= 3),
        r matches Ok(u) ==> spec_selected_line(spec_lines(str_bytes(body))) matches Some(l) && {
            let tok = spec_ws_tokens(l)[2];
            vstd::utf8::valid_utf8(tok) ==> string_bytes(&u) == tok
        },
        r matches Err(e) ==> e is Agent,
{
    let line = match select_export_line(body) {
        Some(l) => l,
        None => {
            return Err(
                ArgusError::Agent {
                    agent: "gdelt".to_owned(),
                    message: "last-update manifest was empty".to_owned(),
                },
            );
        },
    };
    let tokens = ws_tokens(line.as_slice());
    if tokens.len() < 3 {
        return Err(
            ArgusError::Agent {
                agent: "gdelt".to_owned(),
                message: "unexpected manifest line format".to_owned(),
            },
        );
    }
    Ok(bytes_to_string_lossy(tokens[2].as_slice()))
}

// ── Event parsing ──────────────────────────────────────────────────────────

/// Whether a row of the table yields a document: at least the full column
/// count, and a non-blank event key in the first column.
pub open spec fn row_qualifies(line: Seq<u8>) -> bool {
    &&& spec_split(line, 9).len() >= GDELT_EVENT_COLUMNS
    &&& spec_trim(spec_split(line, 9)[0]).len() > 0
}

/// How many of the given rows qualify.
pub open spec fn spec_qualifying_count(lines: Seq<Seq<u8>>) -> int
    decreases lines.len(),
{
    if lines.len() == 0 {
        0
    } else {
        spec_qualifying_count(lines.drop_last()) + if row_qualifies(lines.last()) {
            1int
        } else {
            0int
        }
    }
}

/// No more rows qualify than there are rows.
proof fn lemma_qualifying_count_bound(lines: Seq<Seq<u8>>)
    ensures
        0 <= spec_qualifying_count(lines) <= lines.len(),
    decreases lines.len(),
{
    if lines.len() > 0 {
        lemma_qualifying_count_bound(lines.drop_last());
    }
}

/// The qualifying rows among the given lines, in order: exactly the rows
/// the parser keeps.
pub open spec fn spec_qualifying_rows(lines: Seq<Seq<u8>>) -> Seq<Seq<u8>>
    decreases lines.len(),
{
    if lines.len() == 0 {
        Seq::<Seq<u8>>::empty()
    } else if row_qualifies(lines.last()) {
        spec_qualifying_rows(lines.drop_last()).push(lines.last())
    } else {
        spec_qualifying_rows(lines.drop_last())
    }
}

/// How an event document reflects its row: the fixed source, an identity
/// of the form `gdelt-event-` plus the trimmed event key, and an address
/// exactly when the source column is non-blank, verbatim then.
pub open spec fn event_doc_matches(line: Seq<u8>, d: RawDocument) -> bool {
    let f = spec_split(line, 9);
    &&& d.source@ == "gdelt"@
    &&& (vstd::utf8::valid_utf8(spec_trim(f[0])) ==> string_bytes(&d.source_id) == str_bytes(
        "gdelt-event-",
    ) + spec_trim(f[0]))
    &&& (d.url is Some <==> spec_trim(f[COL_SOURCE_URL as int]).len() > 0)
    &&& (d.url matches Some(u) ==> (vstd::utf8::valid_utf8(
        spec_trim(f[COL_SOURCE_URL as int]),
    ) ==> string_bytes(&u) == spec_trim(f[COL_SOURCE_URL as int])))
}

/// Parse the tab-separated events table into raw documents: only the first
/// `MAX_EVENTS` lines are examined, and each yields one document exactly
/// when it qualifies — a row with too few columns or a blank event key is
/// skipped.
pub fn parse_events(csv: &str) -> (r: Vec<RawDocument>)
    ensures
        r@.len() <= MAX_EVENTS,
        ({
            let ls = spec_lines(str_bytes(csv));
            let lim = if ls.len() < MAX_EVENTS {
                ls.len() as int
            } else {
                MAX_EVENTS as int
            };
            &&& r@.len() == spec_qualifying_count(ls.take(lim))
            &&& r@.len() == spec_qualifying_rows(ls.take(lim)).len()
            &&& forall|i: int|
                0 <= i < r@.len() ==> event_doc_matches(
                    spec_qualifying_rows(ls.take(lim))[i],
                    #[trigger] r@[i],
                )
        }),
        forall|i: int| 0 <= i < r@.len() ==> (#[trigger] r@[i]).source@ == "gdelt"@,
{
    let now = crate::mint::now_millis();
    let lines = lines_bytes(csv.as_bytes());
    let ghost lv = spec_lines(str_bytes(csv));
    let mut docs: Vec<RawDocument> = Vec::new();
    let n = if lines.len() < MAX_EVENTS {
        lines.len()
    } else {
        MAX_EVENTS
    };
    proof {
        assert(lv.take(0) =~= Seq::<Seq<u8>>::empty());
    }
    let mut li: usize = 0;
    while li < n
        invariant
            li <= n <= MAX_EVENTS,
            n <= lines@.len(),
            lv == spec_lines(str_bytes(csv)),
            views_of(lines@) == lv,
            n == if lv.len() < MAX_EVENTS {
                lv.len() as int
            } else {
                MAX_EVENTS as int
            },
            docs@.len() == spec_qualifying_count(lv.take(li as int)),
            docs@.len() == spec_qualifying_rows(lv.take(li as int)).len(),
            forall|i: int|
                0 <= i < docs@.len() ==> event_doc_matches(
                    spec_qualifying_rows(lv.take(li as int))[i],
                    #[trigger] docs@[i],
                ),
            forall|i: int| 0 <= i < docs@.len() ==> (#[trigger] docs@[i]).source@ == "gdelt"@,
        decreases n - li,
    {
        let ghost line = lv[li as int];
        let ghost kept = spec_qualifying_rows(lv.take(li as int));
        let fields = split_bytes(lines[li].as_slice(), 9);
        proof {
            crate::text::lemma_split_unique(views_of(fields@), line, 9);
            assert(lv.take(li + 1).drop_last() =~= lv.take(li as int));
            assert(lv.take(li + 1).last() == lv[li as int]);
        }
        if fields.len() >= GDELT_EVENT_COLUMNS {
            let id = trim_field(&fields, COL_GLOBAL_EVENT_ID);
            proof {
                assert(fields@[0]@ == spec_split(line, 9)[0]);
            }
            if id.as_str().as_bytes().len() > 0 {
                proof {
                    assert(row_qualifies(line));
                }
                let day = trim_field(&fields, COL_DAY);
                let actor1 = trim_field(&fields, COL_ACTOR1_NAME);
                let actor1_cc = trim_field(&fields, COL_ACTOR1_COUNTRY_CODE);
                let actor2 = trim_field(&fields, COL_ACTOR2_NAME);
                let actor2_cc = trim_field(&fields, COL_ACTOR2_COUNTRY_CODE);
                let event_code = trim_field(&fields, COL_EVENT_CODE);
                let event_base_code = trim_field(&fields, COL_EVENT_BASE_CODE);
                let event_root_code = trim_field(&fields, COL_EVENT_ROOT_CODE);
                let quad_class = trim_field(&fields, COL_QUAD_CLASS);
                let goldstein = trim_field(&fields, COL_GOLDSTEIN_SCALE);
                let num_mentions = trim_field(&fields, COL_NUM_MENTIONS);
                let num_sources = trim_field(&fields, COL_NUM_SOURCES);
                let num_articles = trim_field(&fields, COL_NUM_ARTICLES);
                let avg_tone = trim_field(&fields, COL_AVG_TONE);
                let geo = trim_field(&fields, COL_ACTION_GEO_FULL_NAME);
                let geo_cc = trim_field(&fields, COL_ACTION_GEO_COUNTRY_CODE);
                let source_url = trim_field(&fields, COL_SOURCE_URL);

                let title = build_event_title(
                    actor1.as_str(),
                    actor2.as_str(),
                    event_code.as_str(),
                    geo.as_str(),
                );
                let content = build_event_content(
                    id.as_str(),
                    day.as_str(),
                    actor1.as_str(),
                    actor1_cc.as_str(),
                    actor2.as_str(),
                    actor2_cc.as_str(),
                    event_code.as_str(),
                    event_root_code.as_str(),
                    quad_class.as_str(),
                    goldstein.as_str(),
                    avg_tone.as_str(),
                    geo.as_str(),
                    geo_cc.as_str(),
                    source_url.as_str(),
                );

                let mut metadata = json_object_new();
                json_object_insert(&mut metadata, "global_event_id", json_string(id.as_str()));
                json_object_insert(&mut metadata, "day", json_string(day.as_str()));
                json_object_insert(&mut metadata, "actor1_name", json_string(actor1.as_str()));
                json_object_insert(
                    &mut metadata,
                    "actor1_country_code",
                    json_string(actor1_cc.as_str()),
                );
                json_object_insert(&mut metadata, "actor2_name", json_string(actor2.as_str()));
                json_object_insert(
                    &mut metadata,
                    "actor2_country_code",
                    json_string(actor2_cc.as_str()),
                );
                json_object_insert(&mut metadata, "event_code", json_string(event_code.as_str()));
                json_object_insert(
                    &mut metadata,
                    "event_base_code",
                    json_string(event_base_code.as_str()),
                );
                json_object_insert(
                    &mut metadata,
                    "event_root_code",
                    json_string(event_root_code.as_str()),
                );
                json_object_insert(&mut metadata, "quad_class", json_string(quad_class.as_str()));
                json_object_insert(
                    &mut metadata,
                    "goldstein_scale",
                    json_string(goldstein.as_str()),
                );
                json_object_insert(&mut metadata, "avg_tone", json_string(avg_tone.as_str()));
                json_object_insert(
                    &mut metadata,
                    "num_mentions",
                    json_string(num_mentions.as_str()),
                );
                json_object_insert(&mut metadata, "num_sources", json_string(num_sources.as_str()));
                json_object_insert(
                    &mut metadata,
                    "num_articles",
                    json_string(num_articles.as_str()),
                );
                json_object_insert(&mut metadata, "action_geo_full_name", json_string(geo.as_str()));
                json_object_insert(
                    &mut metadata,
                    "action_geo_country_code",
                    json_string(geo_cc.as_str()),
                );
                insert_coord(&mut metadata, "action_geo_lat", &fields, COL_ACTION_GEO_LAT);
                insert_coord(&mut metadata, "action_geo_long", &fields, COL_ACTION_GEO_LONG);
                insert_coord(&mut metadata, "actor1_geo_lat", &fields, COL_ACTOR1_GEO_LAT);
                insert_coord(&mut metadata, "actor1_geo_long", &fields, COL_ACTOR1_GEO_LONG);
                insert_coord(&mut metadata, "actor2_geo_lat", &fields, COL_ACTOR2_GEO_LAT);
                insert_coord(&mut metadata, "actor2_geo_long", &fields, COL_ACTOR2_GEO_LONG);

                let mut source_id = String::new();
                source_id.append("gdelt-event-");
                source_id.append(id.as_str());
                proof {
                    assert(source_id@ =~= "gdelt-event-"@ + id@);
                    crate::text::lemma_encode_concat("gdelt-event-"@, id@);
                    assert(fields@[COL_SOURCE_URL as int]@ == spec_split(line, 9)[
                        COL_SOURCE_URL as int
                    ]);
                }

                let doc = RawDocument {
                    source: str_to_string("gdelt"),
                    source_id,
                    title: if title.as_str().as_bytes().len() == 0 {
                        None
                    } else {
                        Some(title)
                    },
                    content,
                    url: if source_url.as_str().as_bytes().len() == 0 {
                        None
                    } else {
                        Some(source_url)
                    },
                    collected_at: now,
                    metadata,
                };
                let ghost dv = doc;
                proof {
                    assert(event_doc_matches(line, dv));
                }
                docs.push(doc);
                proof {
                    assert(spec_qualifying_rows(lv.take(li + 1)) == kept.push(line));
                    assert forall|k: int| 0 <= k < docs@.len() implies event_doc_matches(
                        spec_qualifying_rows(lv.take(li + 1))[k],
                        #[trigger] docs@[k],
                    ) by {
                        if k < docs@.len() - 1 {
                            assert(kept.push(line)[k] == kept[k]);
                        } else {
                            assert(docs@[k] == dv);
                        }
                    }
                }
            } else {
                proof {
                    assert(!row_qualifies(line));
                    assert(spec_qualifying_rows(lv.take(li + 1)) == kept);
                }
            }
        } else {
            proof {
                assert(views_of(fields@).len() == spec_split(line, 9).len());
                assert(!row_qualifies(line));
                assert(spec_qualifying_rows(lv.take(li + 1)) == kept);
            }
        }
        li += 1;
    }
    proof {
        assert(lv.take(n as int) =~= lv.take(
            if lv.len() < MAX_EVENTS {
                lv.len() as int
            } else {
                MAX_EVENTS as int
            },
        ));
        lemma_qualifying_count_bound(lv.take(n as int));
    }
    docs
}

/// The trimmed text of one column.
fn trim_field(fields: &Vec<Vec<u8>>, idx: usize) -> (r: String)
    requires
        idx < fields@.len(),
    ensures
        vstd::utf8::valid_utf8(spec_trim(fields@[idx as int]@)) ==> string_bytes(&r) == spec_trim(
            fields@[idx as int]@,
        ),
        string_bytes(&r).len() == 0 <==> spec_trim(fields@[idx as int]@).len() == 0,
{
    let t = trim_bytes(fields[idx].as_slice());
    bytes_to_string_lossy(t.as_slice())
}

/// Store a geographic coordinate: a JSON number when the column parses as
/// one, else null, as optional fields are kept null-safe.
fn insert_coord(metadata: &mut serde_json::Value, key: &str, fields: &Vec<Vec<u8>>, idx: usize)
    requires
        idx < fields@.len(),
{
    let t = trim_bytes(fields[idx].as_slice());
    let s = bytes_to_string_lossy(t.as_slice());
    match json_number_from_str(s.as_str()) {
        Some(v) => json_object_insert(metadata, key, v),
        None => json_object_insert(metadata, key, json_null()),
    }
}

/// An owned copy of a literal.
fn str_to_string(s: &str) -> (r: String)
    ensures
        r@ == s@,
{
    s.to_owned()
}

} // verus!
