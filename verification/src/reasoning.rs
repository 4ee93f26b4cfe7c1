//! The reasoning engine's text work: pulling graph queries out of a model
//! reply, summarising query results, and parsing the structured four-field
//! answer.  The model calls themselves happen outside; everything the
//! engine decides on its own is here.

use vstd::prelude::*;
use vstd::string::StringExecFns;
use vstd::string::StrSliceExecFns;

use crate::jsonval::{json_as_array, json_is_null};
use crate::model::{clamp_confidence, spec_clamp, ArgusError, CONFIDENCE_UNIT};
use crate::numtext::{parse_decimal_millis, u64_to_string};
use crate::numtext::{int_digits_len, spec_parse_millis};
use crate::text::{
    bytes_to_string_lossy, lines_bytes, lower_bytes, spec_lines, spec_split, spec_trim,
    split_bytes, starts_with_bytes, str_bytes, sub_bytes, trim_bytes,
};

verus! {

/// The graph schema described to the model: node labels, their properties,
/// and the relationship verbs.
pub fn graph_schema() -> &'static str {
    "\nNode labels and properties:\n  - Person { id, name, aliases, confidence, source, first_seen, last_seen, properties }\n  - Organization { id, name, aliases, confidence, source, first_seen, last_seen, properties }\n  - Vessel { id, name, aliases, confidence, source, first_seen, last_seen, properties }\n  - Aircraft { id, name, aliases, confidence, source, first_seen, last_seen, properties }\n  - Location { id, name, aliases, confidence, source, first_seen, last_seen, properties }\n  - Event { id, name, aliases, confidence, source, first_seen, last_seen, properties }\n  - Document { id, name, aliases, confidence, source, first_seen, last_seen, properties }\n  - Transaction { id, name, aliases, confidence, source, first_seen, last_seen, properties }\n  - Sanction { id, name, aliases, confidence, source, first_seen, last_seen, properties }\n\nRelationship types:\n  OWNER_OF, DIRECTOR_OF, EMPLOYEE_OF, RELATED_TO, LOCATED_AT,\n  TRANSACTED_WITH, SANCTIONED_BY, REGISTERED_IN, FLAGGED_AS,\n  MEETING_WITH, TRAVELED_TO, PART_OF\n\nAll relationships carry: { confidence, source, timestamp, properties }\n"
}

// ── Query extraction ───────────────────────────────────────────────────────

/// Whether a trimmed line closes a fenced block: exactly three backtick
/// bytes.
pub open spec fn is_fence_close(t: Seq<u8>) -> bool {
    t.len() == 3 && t[0] == 96 && t[1] == 96 && t[2] == 96
}

/// What one line does to the fenced-block scan: an opening fence starts a
/// block, a closing fence keeps the block's trimmed content when it is
/// non-blank, and lines inside a block accumulate with their newline.
pub open spec fn spec_fence_step(st: (bool, Seq<u8>, Seq<Seq<u8>>), line: Seq<u8>) -> (
    bool,
    Seq<u8>,
    Seq<Seq<u8>>,
) {
    let t = spec_trim(line);
    if str_bytes("```cypher").is_prefix_of(t) || str_bytes("```CYPHER").is_prefix_of(t) {
        (true, Seq::empty(), st.2)
    } else if is_fence_close(t) && st.0 {
        let q = spec_trim(st.1);
        (
            false,
            Seq::empty(),
            if q.len() > 0 {
                st.2.push(q)
            } else {
                st.2
            },
        )
    } else if st.0 {
        (true, st.1 + line + seq![10u8], st.2)
    } else {
        st
    }
}

/// The fenced queries of a reply's lines.
pub open spec fn spec_fenced_queries(lines: Seq<Seq<u8>>) -> (bool, Seq<u8>, Seq<Seq<u8>>)
    decreases lines.len(),
{
    if lines.len() == 0 {
        (false, Seq::empty(), Seq::empty())
    } else {
        spec_fence_step(spec_fenced_queries(lines.drop_last()), lines.last())
    }
}

/// Whether a trimmed line opens with a common query keyword.
pub open spec fn spec_keyword_line(t: Seq<u8>) -> bool {
    let u = Seq::new(t.len(), |i: int| upper8(t[i]));
    ||| str_bytes("MATCH").is_prefix_of(u)
    ||| str_bytes("OPTIONAL").is_prefix_of(u)
    ||| str_bytes("WITH").is_prefix_of(u)
    ||| str_bytes("RETURN").is_prefix_of(u)
    ||| str_bytes("WHERE").is_prefix_of(u)
    ||| str_bytes("ORDER").is_prefix_of(u)
    ||| str_bytes("LIMIT").is_prefix_of(u)
    ||| str_bytes("CALL").is_prefix_of(u)
}

/// The keyword lines of a reply, gathered into one newline-joined text.
pub open spec fn spec_keyword_text(lines: Seq<Seq<u8>>) -> Seq<u8>
    decreases lines.len(),
{
    if lines.len() == 0 {
        Seq::empty()
    } else {
        let acc = spec_keyword_text(lines.drop_last());
        let t = spec_trim(lines.last());
        if spec_keyword_line(t) {
            acc + t + seq![10u8]
        } else {
            acc
        }
    }
}

/// The queries a reply carries: its fenced blocks, or — when it has none —
/// the gathered keyword lines as one query, or nothing at all.
pub open spec fn spec_cypher_queries(lines: Seq<Seq<u8>>) -> Seq<Seq<u8>> {
    let fenced = spec_fenced_queries(lines).2;
    if fenced.len() > 0 {
        fenced
    } else {
        let q = spec_trim(spec_keyword_text(lines));
        if q.len() > 0 {
            seq![q]
        } else {
            Seq::empty()
        }
    }
}

/// Pull the queries out of a model reply: exactly the trimmed contents of
/// its fenced query blocks, or — when there are none — the lines that
/// begin with common query keywords, gathered into one query.  Every
/// returned query is non-empty text.
pub fn extract_cypher_queries(response: &str) -> (r: Vec<String>)
    ensures
        names_match(r@, spec_cypher_queries(spec_lines(str_bytes(response)))),
        forall|i: int| 0 <= i < r@.len() ==> (#[trigger] r@[i])@.len() > 0,
{
    let lines = lines_bytes(response.as_bytes());
    let ghost lv = spec_lines(str_bytes(response));
    let mut queries: Vec<String> = Vec::new();
    let mut in_block = false;
    let mut current: Vec<u8> = Vec::new();
    let n = lines.len();
    proof {
        assert(lv.take(0) =~= Seq::<Seq<u8>>::empty());
    }
    let mut i: usize = 0;
    while i < n
        invariant
            i <= n,
            n == lines@.len(),
            lv == spec_lines(str_bytes(response)),
            crate::text::views_of(lines@) == lv,
            in_block == spec_fenced_queries(lv.take(i as int)).0,
            current@ == spec_fenced_queries(lv.take(i as int)).1,
            names_match(queries@, spec_fenced_queries(lv.take(i as int)).2),
            forall|k: int| 0 <= k < queries@.len() ==> (#[trigger] queries@[k])@.len() > 0,
        decreases n - i,
    {
        proof {
            assert(lv.take(i + 1).drop_last() =~= lv.take(i as int));
            assert(lv.take(i + 1).last() == lv[i as int]);
            assert(lines@[i as int]@ == lv[i as int]);
        }
        let trimmed = trim_bytes(lines[i].as_slice());
        if starts_with_bytes(trimmed.as_slice(), "```cypher".as_bytes()) || starts_with_bytes(
            trimmed.as_slice(),
            "```CYPHER".as_bytes(),
        ) {
            in_block = true;
            current = Vec::new();
        } else if trimmed.len() == 3 && trimmed[0] == 96 && trimmed[1] == 96 && trimmed[2] == 96
            && in_block {
            in_block = false;
            let q = trim_bytes(current.as_slice());
            if q.len() > 0 {
                push_nonempty(&mut queries, q);
            }
            current = Vec::new();
        } else if in_block {
            let mut line_copy: Vec<u8> = Vec::new();
            line_copy.extend_from_slice(lines[i].as_slice());
            current.append(&mut line_copy);
            current.push(10);
            proof {
                assert(current@ =~= spec_fenced_queries(lv.take(i as int)).1 + lv[i as int]
                    + seq![10u8]);
            }
        } else {
            proof {
                assert(!is_fence_close(spec_trim(lv[i as int])) || !spec_fenced_queries(
                    lv.take(i as int),
                ).0);
            }
        }
        i += 1;
    }
    proof {
        assert(lv.take(n as int) =~= lv);
    }

    if queries.len() == 0 {
        // Fallback: gather raw query-keyword lines.
        let mut raw: Vec<u8> = Vec::new();
        let mut i: usize = 0;
        while i < n
            invariant
                i <= n,
                n == lines@.len(),
                lv == spec_lines(str_bytes(response)),
                crate::text::views_of(lines@) == lv,
                raw@ == spec_keyword_text(lv.take(i as int)),
            decreases n - i,
        {
            proof {
                assert(lv.take(i + 1).drop_last() =~= lv.take(i as int));
                assert(lv.take(i + 1).last() == lv[i as int]);
                assert(lines@[i as int]@ == lv[i as int]);
            }
            let trimmed = trim_bytes(lines[i].as_slice());
            let upper = upper_bytes(trimmed.as_slice());
            if starts_with_bytes(upper.as_slice(), "MATCH".as_bytes()) || starts_with_bytes(
                upper.as_slice(),
                "OPTIONAL".as_bytes(),
            ) || starts_with_bytes(upper.as_slice(), "WITH".as_bytes()) || starts_with_bytes(
                upper.as_slice(),
                "RETURN".as_bytes(),
            ) || starts_with_bytes(upper.as_slice(), "WHERE".as_bytes()) || starts_with_bytes(
                upper.as_slice(),
                "ORDER".as_bytes(),
            ) || starts_with_bytes(upper.as_slice(), "LIMIT".as_bytes()) || starts_with_bytes(
                upper.as_slice(),
                "CALL".as_bytes(),
            ) {
                let mut t = trimmed;
                raw.append(&mut t);
                raw.push(10);
                proof {
                    assert(raw@ =~= spec_keyword_text(lv.take(i as int)) + spec_trim(
                        lv[i as int],
                    ) + seq![10u8]);
                }
            }
            i += 1;
        }
        proof {
            assert(lv.take(n as int) =~= lv);
        }
        let q = trim_bytes(raw.as_slice());
        if q.len() > 0 {
            push_nonempty(&mut queries, q);
            proof {
                assert(spec_cypher_queries(lv) =~= seq![spec_trim(spec_keyword_text(lv))]);
            }
        }
    }

    queries
}

/// Append a non-empty byte string to the query list as text.
fn push_nonempty(queries: &mut Vec<String>, q: Vec<u8>)
    requires
        q@.len() > 0,
        forall|k: int| 0 <= k < old(queries)@.len() ==> (#[trigger] old(queries)@[k])@.len() > 0,
    ensures
        final(queries)@.len() == old(queries)@.len() + 1,
        forall|k: int| 0 <= k < old(queries)@.len() ==> final(queries)@[k] == old(queries)@[k],
        vstd::utf8::valid_utf8(q@) ==> crate::text::string_bytes(&final(queries)@[old(
            queries,
        )@.len() as int]) == q@,
        forall|k: int| 0 <= k < final(queries)@.len() ==> (#[trigger] final(queries)@[k])@.len()
            > 0,
{
    let s = bytes_to_string_lossy_nonempty(q);
    queries.push(s);
}

/// Relies on std's String::from_utf8_lossy: the result of a non-empty
/// input is non-empty (invalid sequences become replacement characters,
/// never nothing).
#[verifier::external_body]
fn bytes_to_string_lossy_nonempty(v: Vec<u8>) -> (r: String)
    requires
        v@.len() > 0,
    ensures
        r@.len() > 0,
        vstd::utf8::valid_utf8(v@) ==> crate::text::string_bytes(&r) == v@,
{
    String::from_utf8_lossy(v.as_slice()).into_owned()
}

/// ASCII upper-casing of one byte.
pub open spec fn upper8(b: u8) -> u8 {
    if 97 <= b <= 122 {
        (b - 32) as u8
    } else {
        b
    }
}

/// ASCII upper-casing of a byte string.
fn upper_bytes(s: &[u8]) -> (r: Vec<u8>)
    ensures
        r@ == Seq::new(s@.len(), |i: int| upper8(s@[i])),
{
    let mut r: Vec<u8> = Vec::new();
    let n = s.len();
    let mut i: usize = 0;
    while i < n
        invariant
            i <= n,
            n == s@.len(),
            r@ =~= Seq::new(i as nat, |j: int| upper8(s@[j])),
        decreases n - i,
    {
        let b = s[i];
        if 97 <= b && b <= 122 {
            r.push(b - 32);
        } else {
            r.push(b);
        }
        proof {
            assert(r@ =~= Seq::new((i + 1) as nat, |j: int| upper8(s@[j])));
        }
        i += 1;
    }
    r
}

/// The engine refuses to continue without queries: the error comes exactly
/// when the model produced none.
pub fn queries_or_reasoning_error(queries: Vec<String>) -> (r: Result<Vec<String>, ArgusError>)
    ensures
        r is Err <==> queries@.len() == 0,
        r matches Err(e) ==> e is Reasoning,
        r matches Ok(v) ==> v == queries,
{
    if queries.len() == 0 {
        Err(
            ArgusError::Reasoning(
                "LLM did not produce any Cypher queries for the given question".to_owned(),
            ),
        )
    } else {
        Ok(queries)
    }
}

// ── Result summarising ─────────────────────────────────────────────────────

/// What counts as an empty query outcome: an error, a null value, or an
/// empty list.
pub open spec fn spec_outcome_empty(outcome: Result<serde_json::Value, String>) -> bool {
    match outcome {
        Ok(v) => crate::jsonval::spec_null(v) || (match crate::jsonval::spec_elements(v) {
            Some(es) => es.len() == 0,
            None => false,
        }),
        Err(_) => true,
    }
}

/// Whether a query outcome counts as empty: an error, a null value, or an
/// empty list.
pub fn result_is_empty_or_failed(outcome: &Result<serde_json::Value, String>) -> (r: bool)
    ensures
        r == spec_outcome_empty(*outcome),
{
    match outcome {
        Ok(v) => {
            if json_is_null(v) {
                return true;
            }
            match json_as_array(v) {
                Some(arr) => arr.len() == 0,
                None => false,
            }
        },
        Err(_) => true,
    }
}

/// Whether every outcome of the first round was empty or failed — the
/// refinement trigger.
pub fn all_results_empty_or_failed(outcomes: &Vec<Result<serde_json::Value, String>>) -> (r: bool)
    ensures
        r == forall|i: int|
            0 <= i < outcomes@.len() ==> spec_outcome_empty(#[trigger] outcomes@[i]),
{
    let n = outcomes.len();
    let mut i: usize = 0;
    while i < n
        invariant
            i <= n,
            n == outcomes@.len(),
            forall|j: int| 0 <= j < i ==> spec_outcome_empty(#[trigger] outcomes@[j]),
        decreases n - i,
    {
        if !result_is_empty_or_failed(&outcomes[i]) {
            return false;
        }
        i += 1;
    }
    true
}

/// The last character boundary at or before the limit: walk back over
/// continuation bytes.
pub open spec fn spec_cut_point(b: Seq<u8>, limit: int) -> int
    decreases limit,
{
    if limit <= 0 {
        0
    } else if !vstd::utf8::is_continuation_byte(b[limit]) {
        limit
    } else {
        spec_cut_point(b, limit - 1)
    }
}

/// A backward scan over continuation bytes pins down the cut point.
proof fn lemma_cut_point(b: Seq<u8>, limit: int, cut: int)
    requires
        0 <= cut <= limit,
        forall|k: int| cut < k <= limit ==> vstd::utf8::is_continuation_byte(b[k]),
        cut == 0 || !vstd::utf8::is_continuation_byte(b[cut]),
    ensures
        spec_cut_point(b, limit) == cut,
    decreases limit - cut,
{
    if limit > cut {
        lemma_cut_point(b, limit - 1, cut);
    }
}

/// Cap a rendered result at the token budget: text at most 4000 bytes
/// long is kept whole; longer text is cut at the last character boundary
/// at or before the limit and annotated with its original byte length.
pub fn truncate_result_text(s: &str) -> (r: String)
    ensures
        crate::text::str_bytes(s).len() <= 4000 ==> r@ == s@,
        crate::text::str_bytes(s).len() > 4000 ==> crate::text::string_bytes(&r)
            == crate::text::str_bytes(s).take(spec_cut_point(crate::text::str_bytes(s), 4000))
            + crate::text::str_bytes("... [truncated, ") + crate::numtext::spec_u64_dec(
            crate::text::str_bytes(s).len(),
        ) + crate::text::str_bytes(" total chars]"),
{
    let b = s.as_bytes();
    if b.len() <= 4000 {
        return s.to_owned();
    }
    // Cut at the last character boundary at or before the limit.
    let mut cut: usize = 4000;
    while cut > 0 && 128 <= b[cut] && b[cut] < 192
        invariant
            cut <= 4000 < b@.len(),
            forall|k: int|
                cut < k <= 4000 ==> vstd::utf8::is_continuation_byte(b@[k]),
        decreases cut,
    {
        cut -= 1;
    }
    proof {
        lemma_cut_point(b@, 4000, cut as int);
    }
    let head = sub_bytes(b, 0, cut);
    proof {
        vstd::utf8::encode_utf8_valid_utf8(s@);
        if cut > 0 {
            vstd::utf8::is_char_boundary_iff_not_is_continuation_byte(b@, cut as int);
        } else {
            vstd::utf8::is_char_boundary_start_end_of_seq(b@);
        }
        vstd::utf8::valid_utf8_split(b@, cut as int);
        assert(head@ =~= b@.subrange(0, cut as int));
        assert(vstd::utf8::valid_utf8(head@));
    }
    let mut out = bytes_to_string_lossy(head.as_slice());
    let ghost h = out@;
    out.append("... [truncated, ");
    let total = u64_to_string(b.len() as u64);
    out.append(total.as_str());
    out.append(" total chars]");
    proof {
        assert(out@ =~= h + "... [truncated, "@ + total@ + " total chars]"@);
        crate::text::lemma_encode_concat(h, "... [truncated, "@);
        crate::text::lemma_encode_concat(h + "... [truncated, "@, total@);
        crate::text::lemma_encode_concat(h + "... [truncated, "@ + total@, " total chars]"@);
        assert(out@ =~= (h + "... [truncated, "@ + total@) + " total chars]"@);
        assert((h + "... [truncated, "@ + total@) =~= (h + "... [truncated, "@) + total@);
        assert((h + "... [truncated, "@) =~= h + "... [truncated, "@);
        assert(vstd::utf8::encode_utf8(h) == head@);
        assert(vstd::utf8::encode_utf8(total@) == crate::numtext::spec_u64_dec(b@.len()));
        assert(crate::text::string_bytes(&out) =~= head@ + crate::text::str_bytes(
            "... [truncated, ",
        ) + crate::numtext::spec_u64_dec(b@.len()) + crate::text::str_bytes(" total chars]"));
    }
    out
}

/// One block of the evidence summary handed to the interpretation call.
pub fn build_summary_block(index: u64, cypher: &str, result_text: &str) -> (r: String) {
    let mut out = String::new();
    out.append("--- Query ");
    let num = u64_to_string(index);
    out.append(num.as_str());
    out.append(" ---\nCypher: ");
    out.append(cypher);
    out.append("\nResult:\n");
    out.append(result_text);
    out.append("\n\n");
    out
}

// ── Prompts ────────────────────────────────────────────────────────────────

/// The query-generation prompt: the schema, the instructions, and the
/// question, with optional analyst context.
pub fn build_cypher_generation_prompt(question: &str, context: Option<&str>) -> String {
    let mut p = String::new();
    p.append(
        "You are an expert Neo4j Cypher query writer for the ARGUS intelligence knowledge graph.\n\n",
    );
    p.append(graph_schema());
    p.append(
        "\n\nGiven the following question, generate one or more Cypher queries to retrieve the relevant data from the graph. Return ONLY valid Cypher enclosed in ```cypher ... ``` code blocks. Each query should be in its own code block.\nIf the question cannot be answered from the graph, return a single code block with a broad search query that might find relevant entities.\n\nQuestion: ",
    );
    p.append(question);
    match context {
        Some(ctx) => {
            p.append("\n\nAdditional context: ");
            p.append(ctx);
        },
        None => {},
    }
    p
}

/// The refinement prompt, asked for once when the first round found
/// nothing.
pub fn build_refinement_prompt(steps_summary: &str, question: &str) -> String {
    let mut p = String::new();
    p.append(
        "The following Cypher queries were executed but returned empty or errored results:\n\n",
    );
    p.append(steps_summary);
    p.append("\n\nThe original question was: \"");
    p.append(question);
    p.append(
        "\"\n\nPlease generate alternative, broader Cypher queries that might find relevant data. Return ONLY valid Cypher enclosed in ```cypher ... ``` code blocks.",
    );
    p
}

/// The interpretation prompt: the question, the evidence, and the strict
/// four-line reply format.
pub fn build_interpretation_prompt(
    question: &str,
    steps_summary: &str,
    context: Option<&str>,
) -> String {
    let mut p = String::new();
    p.append(
        "You are an intelligence analyst using the ARGUS knowledge graph.\n\nA user asked the following question:\n\"",
    );
    p.append(question);
    p.append(
        "\"\n\nThe following Cypher queries were executed against the graph and their results are shown below:\n\n",
    );
    p.append(steps_summary);
    p.append(
        "\n\nBased on these results, provide a comprehensive answer to the user's question.\n\nYour response MUST follow this exact format:\n\nANSWER: <your detailed answer>\nCONFIDENCE: <a number between 0.0 and 1.0 reflecting how confident you are>\nENTITIES: <comma-separated list of entity names mentioned in the answer, or NONE>\nSOURCES: <comma-separated list of data source identifiers referenced, or NONE>",
    );
    match context {
        Some(ctx) => {
            p.append("\n\nAdditional context: ");
            p.append(ctx);
        },
        None => {},
    }
    p
}

// ── Interpretation parsing ─────────────────────────────────────────────────

/// What one line does to the parsed confidence: a CONFIDENCE marker whose
/// remainder is a decimal numeral sets it (clamped into [0, 1]; numerals
/// with more than twelve integer digits saturate by their sign before the
/// clamp); every other line leaves it.  The ANSWER marker is checked
/// first, as the parser checks it first.
pub open spec fn spec_conf_step(c: int, line: Seq<u8>) -> int {
    let t = spec_trim(line);
    if str_bytes("ANSWER:").is_prefix_of(t) {
        c
    } else if str_bytes("CONFIDENCE:").is_prefix_of(t) {
        let rest = spec_trim(t.skip(str_bytes("CONFIDENCE:").len() as int));
        match spec_parse_millis(rest) {
            Some(m) => if int_digits_len(rest) <= 12 {
                spec_clamp(m)
            } else if rest.len() > 0 && rest[0] == 45 {
                0
            } else {
                CONFIDENCE_UNIT as int
            },
            None => c,
        }
    } else {
        c
    }
}

/// The confidence the structured answer's lines carry, starting from the
/// default of one half.
pub open spec fn spec_conf_of_lines(lines: Seq<Seq<u8>>) -> int
    decreases lines.len(),
{
    if lines.len() == 0 {
        500
    } else {
        spec_conf_step(spec_conf_of_lines(lines.drop_last()), lines.last())
    }
}

/// Whether a field is blank or the literal token NONE, case-insensitively.
pub open spec fn spec_is_none_token(rest: Seq<u8>) -> bool {
    rest.len() == 0 || Seq::new(rest.len(), |i: int| crate::text::lower8(rest[i])) == str_bytes(
        "none",
    )
}

/// The trimmed, non-blank names of a comma-separated field.
pub open spec fn spec_clean_names(pieces: Seq<Seq<u8>>) -> Seq<Seq<u8>>
    decreases pieces.len(),
{
    if pieces.len() == 0 {
        Seq::empty()
    } else {
        let rest = spec_clean_names(pieces.drop_last());
        let t = spec_trim(pieces.last());
        if t.len() > 0 {
            rest.push(t)
        } else {
            rest
        }
    }
}

/// What one line does to a name list stored under the given marker, with
/// the earlier markers taking precedence as the parser checks them.
pub open spec fn spec_names_step(
    names: Seq<Seq<u8>>,
    line: Seq<u8>,
    marker: Seq<char>,
    earlier: Seq<Seq<char>>,
) -> Seq<Seq<u8>>
    decreases earlier.len(),
{
    let t = spec_trim(line);
    if earlier.len() > 0 {
        if vstd::utf8::encode_utf8(earlier[0]).is_prefix_of(t) {
            names
        } else {
            spec_names_step(names, line, marker, earlier.drop_first())
        }
    } else if vstd::utf8::encode_utf8(marker).is_prefix_of(t) {
        let rest = spec_trim(t.skip(vstd::utf8::encode_utf8(marker).len() as int));
        if !spec_is_none_token(rest) {
            spec_clean_names(spec_split(rest, 44))
        } else {
            names
        }
    } else {
        names
    }
}

/// The entity names the structured answer's lines carry.
pub open spec fn spec_entities_of_lines(lines: Seq<Seq<u8>>) -> Seq<Seq<u8>>
    decreases lines.len(),
{
    if lines.len() == 0 {
        Seq::empty()
    } else {
        spec_names_step(
            spec_entities_of_lines(lines.drop_last()),
            lines.last(),
            "ENTITIES:"@,
            seq!["ANSWER:"@, "CONFIDENCE:"@],
        )
    }
}

/// The source tokens the structured answer's lines carry.
pub open spec fn spec_sources_of_lines(lines: Seq<Seq<u8>>) -> Seq<Seq<u8>>
    decreases lines.len(),
{
    if lines.len() == 0 {
        Seq::empty()
    } else {
        spec_names_step(
            spec_sources_of_lines(lines.drop_last()),
            lines.last(),
            "SOURCES:"@,
            seq!["ANSWER:"@, "CONFIDENCE:"@, "ENTITIES:"@],
        )
    }
}

/// What one line does to the accumulating answer: an ANSWER marker opens
/// the section and keeps its non-blank remainder; the other markers close
/// it; unmarked lines accumulate, trimmed, while the section is open.
pub open spec fn spec_answer_step(st: (Seq<Seq<u8>>, bool), line: Seq<u8>) -> (Seq<Seq<u8>>, bool) {
    let t = spec_trim(line);
    if str_bytes("ANSWER:").is_prefix_of(t) {
        let rest = spec_trim(t.skip(str_bytes("ANSWER:").len() as int));
        if rest.len() > 0 {
            (st.0.push(rest), true)
        } else {
            (st.0, true)
        }
    } else if str_bytes("CONFIDENCE:").is_prefix_of(t) || str_bytes("ENTITIES:").is_prefix_of(t)
        || str_bytes("SOURCES:").is_prefix_of(t) {
        (st.0, false)
    } else if st.1 {
        (st.0.push(t), true)
    } else {
        st
    }
}

/// The answer lines the structured answer's lines carry, and whether the
/// answer section is open at the end.
pub open spec fn spec_answer_fold(lines: Seq<Seq<u8>>) -> (Seq<Seq<u8>>, bool)
    decreases lines.len(),
{
    if lines.len() == 0 {
        (Seq::empty(), false)
    } else {
        spec_answer_step(spec_answer_fold(lines.drop_last()), lines.last())
    }
}

/// The answer text of a reply: the accumulated answer lines joined with
/// newlines and trimmed, or the whole trimmed reply when nothing
/// accumulated.
pub open spec fn spec_answer_bytes(s: Seq<u8>) -> Seq<u8> {
    let j = spec_trim(crate::text::join_with(spec_answer_fold(spec_lines(s)).0, 10));
    if j.len() > 0 {
        j
    } else {
        spec_trim(s)
    }
}

/// Element-wise agreement with a byte-level name list, exact wherever the
/// bytes are valid text.
pub open spec fn names_match(out: Seq<String>, names: Seq<Seq<u8>>) -> bool {
    &&& out.len() == names.len()
    &&& forall|i: int|
        0 <= i < out.len() ==> (vstd::utf8::valid_utf8(names[i])
            ==> crate::text::string_bytes(&(#[trigger] out[i])) == names[i])
}

/// Parse the model's structured answer: marker lines open sections, answer
/// lines accumulate until the next marker, the confidence is exactly what
/// the lines carry — clamped into [0, 1], one half when absent — and the
/// entity and source lists are exactly what the lines carry, the literal
/// token NONE meaning an empty list.  When no answer could be parsed at
/// all, the whole reply text becomes the answer.
pub fn parse_interpretation(response: &str) -> (r: (String, u32, Vec<String>, Vec<String>))
    ensures
        r.1 <= CONFIDENCE_UNIT,
        r.1 == spec_conf_of_lines(spec_lines(str_bytes(response))),
        names_match(r.2@, spec_entities_of_lines(spec_lines(str_bytes(response)))),
        names_match(r.3@, spec_sources_of_lines(spec_lines(str_bytes(response)))),
        vstd::utf8::valid_utf8(spec_answer_bytes(str_bytes(response)))
            ==> crate::text::string_bytes(&r.0) == spec_answer_bytes(str_bytes(response)),
{
    let lines = lines_bytes(response.as_bytes());
    let ghost lv = spec_lines(str_bytes(response));
    let mut answer_lines: Vec<Vec<u8>> = Vec::new();
    let mut confidence: u32 = 500;
    let mut entities: Vec<String> = Vec::new();
    let mut sources: Vec<String> = Vec::new();
    // 0 outside any section; 1 inside the answer.
    let mut section: u8 = 0;

    let n = lines.len();
    proof {
        assert(lv.take(0) =~= Seq::<Seq<u8>>::empty());
    }
    let mut i: usize = 0;
    while i < n
        invariant
            i <= n,
            n == lines@.len(),
            lv == spec_lines(str_bytes(response)),
            crate::text::views_of(lines@) == lv,
            confidence <= CONFIDENCE_UNIT,
            confidence == spec_conf_of_lines(lv.take(i as int)),
            names_match(entities@, spec_entities_of_lines(lv.take(i as int))),
            names_match(sources@, spec_sources_of_lines(lv.take(i as int))),
            crate::text::views_of(answer_lines@) == spec_answer_fold(lv.take(i as int)).0,
            (section == 1) == spec_answer_fold(lv.take(i as int)).1,
            section == 0 || section == 1,
        decreases n - i,
    {
        proof {
            assert(lv.take(i + 1).drop_last() =~= lv.take(i as int));
            assert(lv.take(i + 1).last() == lv[i as int]);
            assert(lines@[i as int]@ == lv[i as int]);
            reveal_with_fuel(spec_names_step, 5);
            assert(seq!["ANSWER:"@, "CONFIDENCE:"@].drop_first() =~= seq!["CONFIDENCE:"@]);
            assert(seq!["CONFIDENCE:"@].drop_first() =~= Seq::<Seq<char>>::empty());
            assert(seq!["ANSWER:"@, "CONFIDENCE:"@, "ENTITIES:"@].drop_first() =~= seq![
                "CONFIDENCE:"@,
                "ENTITIES:"@,
            ]);
            assert(seq!["CONFIDENCE:"@, "ENTITIES:"@].drop_first() =~= seq!["ENTITIES:"@]);
            assert(seq!["ENTITIES:"@].drop_first() =~= Seq::<Seq<char>>::empty());
        }
        let trimmed = trim_bytes(lines[i].as_slice());
        let t = trimmed.as_slice();
        let answer_marker = "ANSWER:".as_bytes();
        let confidence_marker = "CONFIDENCE:".as_bytes();
        let entities_marker = "ENTITIES:".as_bytes();
        let sources_marker = "SOURCES:".as_bytes();
        if starts_with_bytes(t, answer_marker) {
            section = 1;
            let cut = sub_bytes(t, answer_marker.len(), trimmed.len());
            proof {
                assert(cut@ =~= spec_trim(lv[i as int]).skip(str_bytes("ANSWER:").len() as int));
            }
            let rest = trim_bytes(cut.as_slice());
            let ghost before = answer_lines@;
            if rest.len() > 0 {
                answer_lines.push(rest);
                proof {
                    assert(crate::text::views_of(answer_lines@) =~= crate::text::views_of(
                        before,
                    ).push(rest@));
                }
            }
        } else if starts_with_bytes(t, confidence_marker) {
            section = 0;
            let cut = sub_bytes(t, confidence_marker.len(), trimmed.len());
            proof {
                assert(cut@ =~= spec_trim(lv[i as int]).skip(
                    str_bytes("CONFIDENCE:").len() as int,
                ));
            }
            let rest = trim_bytes(cut.as_slice());
            match parse_decimal_millis(rest.as_slice()) {
                Some(m) => {
                    confidence = clamp_confidence(m);
                },
                None => {},
            }
        } else if starts_with_bytes(t, entities_marker) {
            section = 0;
            let cut = sub_bytes(t, entities_marker.len(), trimmed.len());
            proof {
                assert(cut@ =~= spec_trim(lv[i as int]).skip(
                    vstd::utf8::encode_utf8("ENTITIES:"@).len() as int,
                ));
            }
            let rest = trim_bytes(cut.as_slice());
            if !is_none_token(rest.as_slice()) {
                entities = csv_names(rest.as_slice());
            }
        } else if starts_with_bytes(t, sources_marker) {
            section = 0;
            let cut = sub_bytes(t, sources_marker.len(), trimmed.len());
            proof {
                assert(cut@ =~= spec_trim(lv[i as int]).skip(
                    vstd::utf8::encode_utf8("SOURCES:"@).len() as int,
                ));
            }
            let rest = trim_bytes(cut.as_slice());
            if !is_none_token(rest.as_slice()) {
                sources = csv_names(rest.as_slice());
            }
        } else if section == 1 {
            let ghost before = answer_lines@;
            answer_lines.push(trimmed);
            proof {
                assert(crate::text::views_of(answer_lines@) =~= crate::text::views_of(
                    before,
                ).push(trimmed@));
            }
        }
        i += 1;
    }

    proof {
        assert(lv.take(n as int) =~= lv);
    }
    let joined = crate::text::join_bytes(&answer_lines, 10);
    let answer_trimmed = trim_bytes(joined.as_slice());
    let answer = if answer_trimmed.len() == 0 {
        // Nothing parsed: fall back to the whole reply.
        bytes_to_string_lossy(trim_bytes(response.as_bytes()).as_slice())
    } else {
        bytes_to_string_lossy(answer_trimmed.as_slice())
    };
    (answer, confidence, entities, sources)
}

/// Whether the field is empty or the literal token NONE, case-insensitively.
fn is_none_token(rest: &[u8]) -> (r: bool)
    ensures
        r == spec_is_none_token(rest@),
{
    if rest.len() == 0 {
        return true;
    }
    let lowered = lower_bytes(rest);
    crate::text::eq_bytes(lowered.as_slice(), "none".as_bytes())
}

/// Split a comma-separated field into trimmed, non-empty names, exactly
/// as `spec_clean_names` of the comma split says.
fn csv_names(rest: &[u8]) -> (r: Vec<String>)
    ensures
        names_match(r@, spec_clean_names(spec_split(rest@, 44))),
{
    let pieces = split_bytes(rest, 44);
    proof {
        crate::text::lemma_split_unique(crate::text::views_of(pieces@), rest@, 44);
    }
    let ghost pv = crate::text::views_of(pieces@);
    let mut out: Vec<String> = Vec::new();
    let n = pieces.len();
    proof {
        assert(pv.take(0) =~= Seq::<Seq<u8>>::empty());
    }
    let mut i: usize = 0;
    while i < n
        invariant
            i <= n,
            n == pieces@.len(),
            pv == crate::text::views_of(pieces@),
            pv == spec_split(rest@, 44),
            names_match(out@, spec_clean_names(pv.take(i as int))),
        decreases n - i,
    {
        proof {
            assert(pv.take(i + 1).drop_last() =~= pv.take(i as int));
            assert(pv.take(i + 1).last() == pv[i as int]);
            assert(pieces@[i as int]@ == pv[i as int]);
        }
        let t = trim_bytes(pieces[i].as_slice());
        if t.len() > 0 {
            out.push(bytes_to_string_lossy(t.as_slice()));
        }
        i += 1;
    }
    proof {
        assert(pv.take(n as int) =~= pv);
    }
    out
}

/// The character sequences of a list of names.
pub open spec fn name_views(names: Seq<String>) -> Seq<Seq<char>> {
    Seq::new(names.len(), |i: int| names[i]@)
}

/// The canonical rendering of a name list: names joined with a comma and a
/// space, or the NONE token when there are no names.
pub open spec fn spec_name_list(names: Seq<Seq<char>>) -> Seq<char>
    decreases names.len(),
{
    if names.len() == 0 {
        "NONE"@
    } else if names.len() == 1 {
        names[0]
    } else {
        spec_name_list(names.drop_last()) + ", "@ + names.last()
    }
}

/// Render the four-field structured answer in its canonical form: the four
/// marker lines in order, the confidence in its canonical decimal text,
/// and each list rendered as `spec_name_list` says.
pub fn emit_interpretation(
    answer: &str,
    confidence: u32,
    entities: &Vec<String>,
    sources: &Vec<String>,
) -> (r: String)
    requires
        confidence <= CONFIDENCE_UNIT,
    ensures
        exists|c: Seq<char>|
            vstd::utf8::encode_utf8(c) == crate::numtext::spec_render_conf(confidence as int)
                && r@ == "ANSWER: "@ + answer@ + "\nCONFIDENCE: "@ + c + "\nENTITIES: "@
                + spec_name_list(name_views(entities@)) + "\nSOURCES: "@ + spec_name_list(
                name_views(sources@),
            ),
{
    let mut out = String::new();
    out.append("ANSWER: ");
    out.append(answer);
    out.append("\nCONFIDENCE: ");
    let conf = crate::numtext::render_confidence(confidence);
    out.append(conf.as_str());
    out.append("\nENTITIES: ");
    append_name_list(&mut out, entities);
    out.append("\nSOURCES: ");
    append_name_list(&mut out, sources);
    proof {
        assert(vstd::utf8::encode_utf8(conf@) == crate::numtext::spec_render_conf(
            confidence as int,
        ));
        assert(out@ =~= "ANSWER: "@ + answer@ + "\nCONFIDENCE: "@ + conf@ + "\nENTITIES: "@
            + spec_name_list(name_views(entities@)) + "\nSOURCES: "@ + spec_name_list(
            name_views(sources@),
        ));
    }
    out
}

/// Append names joined with a comma and a space, or NONE when there are
/// none.
fn append_name_list(out: &mut String, names: &Vec<String>)
    ensures
        final(out)@ == old(out)@ + spec_name_list(name_views(names@)),
{
    let n = names.len();
    if n == 0 {
        out.append("NONE");
        return ;
    }
    let ghost base = out@;
    let ghost nv = name_views(names@);
    let mut i: usize = 0;
    while i < n
        invariant
            i <= n,
            n == names@.len(),
            nv == name_views(names@),
            base == old(out)@,
            i == 0 ==> out@ == base,
            i >= 1 ==> out@ == base + spec_name_list(nv.take(i as int)),
        decreases n - i,
    {
        if i > 0 {
            out.append(", ");
        }
        out.append(names[i].as_str());
        proof {
            assert(nv.take(i + 1).drop_last() =~= nv.take(i as int));
            assert(nv.take(i + 1).last() == nv[i as int]);
            assert(nv[i as int] == names@[i as int]@);
            if i == 0 {
                assert(nv.take(1) =~= seq![nv[0]]);
                assert(spec_name_list(nv.take(1)) == nv[0]);
                assert(out@ =~= base + spec_name_list(nv.take(1)));
            } else {
                assert(out@ =~= base + (spec_name_list(nv.take(i as int)) + ", "@
                    + nv[i as int]));
            }
        }
        i += 1;
    }
    proof {
        assert(nv.take(n as int) =~= nv);
    }
}

} // verus!
