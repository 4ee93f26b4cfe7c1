use argus::gdelt::{
    build_event_title, cameo_event_description, latest_export_url, parse_events,
    GDELT_EVENT_COLUMNS, MAX_EVENTS,
};

const COL_GLOBAL_EVENT_ID: usize = 0;
const COL_DAY: usize = 1;
const COL_ACTOR1_NAME: usize = 5;
const COL_ACTOR1_COUNTRY_CODE: usize = 7;
const COL_ACTOR2_NAME: usize = 15;
const COL_ACTOR2_COUNTRY_CODE: usize = 17;
const COL_EVENT_CODE: usize = 26;
const COL_EVENT_BASE_CODE: usize = 27;
const COL_EVENT_ROOT_CODE: usize = 28;
const COL_QUAD_CLASS: usize = 29;
const COL_GOLDSTEIN_SCALE: usize = 30;
const COL_NUM_MENTIONS: usize = 31;
const COL_NUM_SOURCES: usize = 32;
const COL_NUM_ARTICLES: usize = 33;
const COL_AVG_TONE: usize = 34;
const COL_ACTION_GEO_FULL_NAME: usize = 50;
const COL_ACTION_GEO_COUNTRY_CODE: usize = 51;
const COL_ACTION_GEO_LAT: usize = 53;
const COL_ACTION_GEO_LONG: usize = 54;
const COL_SOURCE_URL: usize = 57;

#[test]
fn test_cameo_event_description() {
    assert_eq!(cameo_event_description("01"), "Make Public Statement");
    assert_eq!(cameo_event_description("14"), "Protest");
    assert_eq!(
        cameo_event_description("20"),
        "Engage in Unconventional Mass Violence"
    );
    assert_eq!(cameo_event_description("99"), "Interact With");
}

#[test]
fn test_build_event_title() {
    let title = build_event_title("UNITED STATES", "RUSSIA", "01", "Washington, DC");
    assert_eq!(
        title,
        "UNITED STATES Make Public Statement RUSSIA in Washington, DC"
    );

    let title_no_actor2 = build_event_title("FRANCE", "", "14", "Paris");
    assert_eq!(title_no_actor2, "FRANCE Protest in Paris");

    let title_unknown = build_event_title("", "", "99", "");
    assert_eq!(title_unknown, "Unknown Interact With");
}

#[test]
fn test_parse_events_skips_short_lines() {
    let csv = "too\tfew\tcolumns\n";
    let docs = parse_events(csv);
    assert!(docs.is_empty());
}

#[test]
fn test_parse_events_valid_line() {
    // Build a line with exactly 58 tab-separated fields.
    let mut fields = vec![""; GDELT_EVENT_COLUMNS];
    fields[COL_GLOBAL_EVENT_ID] = "1234567890";
    fields[COL_DAY] = "20260226";
    fields[COL_ACTOR1_NAME] = "UNITED STATES";
    fields[COL_ACTOR1_COUNTRY_CODE] = "USA";
    fields[COL_ACTOR2_NAME] = "CHINA";
    fields[COL_ACTOR2_COUNTRY_CODE] = "CHN";
    fields[COL_EVENT_CODE] = "04";
    fields[COL_EVENT_BASE_CODE] = "040";
    fields[COL_EVENT_ROOT_CODE] = "04";
    fields[COL_QUAD_CLASS] = "1";
    fields[COL_GOLDSTEIN_SCALE] = "1.0";
    fields[COL_NUM_MENTIONS] = "5";
    fields[COL_NUM_SOURCES] = "3";
    fields[COL_NUM_ARTICLES] = "5";
    fields[COL_AVG_TONE] = "-2.5";
    fields[COL_ACTION_GEO_FULL_NAME] = "Beijing, China";
    fields[COL_ACTION_GEO_COUNTRY_CODE] = "CH";
    fields[COL_ACTION_GEO_LAT] = "39.9042";
    fields[COL_ACTION_GEO_LONG] = "116.4074";
    fields[COL_SOURCE_URL] = "https://example.com/article";

    let line = fields.join("\t");
    let docs = parse_events(&line);

    assert_eq!(docs.len(), 1);
    let doc = &docs[0];
    assert_eq!(doc.source, "gdelt");
    assert_eq!(doc.source_id, "gdelt-event-1234567890");
    assert!(doc.title.as_ref().unwrap().contains("UNITED STATES"));
    assert!(doc.title.as_ref().unwrap().contains("CHINA"));
    assert!(doc.content.contains("Consult"));
    assert_eq!(doc.url.as_deref(), Some("https://example.com/article"));
    assert_eq!(doc.metadata["quad_class"], "1");
    assert_eq!(doc.metadata["action_geo_lat"], 39.9042);
}

#[test]
fn test_parse_events_empty_event_id_skipped() {
    let mut fields = vec![""; GDELT_EVENT_COLUMNS];
    fields[COL_GLOBAL_EVENT_ID] = "";
    let line = fields.join("\t");
    let docs = parse_events(&line);
    assert!(docs.is_empty());
}

#[test]
fn test_parse_events_respects_max_events() {
    let mut fields = vec!["x"; GDELT_EVENT_COLUMNS];
    fields[COL_GLOBAL_EVENT_ID] = "1";
    let line = fields.join("\t");
    // Create more lines than MAX_EVENTS.
    let csv: String = std::iter::repeat(line.as_str())
        .take(MAX_EVENTS + 100)
        .collect::<Vec<_>>()
        .join("\n");
    let docs = parse_events(&csv);
    assert_eq!(docs.len(), MAX_EVENTS);
}

#[test]
fn export_url_comes_from_the_export_line() {
    let body = "120000 0123abcd http://example.org/20260101.export.CSV.zip\n\
                90000 5678ef01 http://example.org/20260101.mentions.CSV.zip\n";
    let url = latest_export_url(body).unwrap();
    assert_eq!(url, "http://example.org/20260101.export.CSV.zip");
}

#[test]
fn export_url_fails_on_empty_manifest() {
    assert!(latest_export_url("\n\n").is_err());
}
