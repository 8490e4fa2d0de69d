use geoshapes::cors::CORS;
use geoshapes::extract::{plan_locations, shard_dataset, shard_fields, ExtractError, FeatureFields};
use geoshapes::record::select_record;
use geoshapes::store::{cascade_locations, record_location, shape_field, Level};
use geoshapes::text::{contains_text, remove_all, sanitize_name, stem_of, text_before};

#[test]
fn level_directory_names() {
    assert_eq!(Level::Adm0.dir_name(), "ADM0");
    assert_eq!(Level::Adm3.dir_name(), "ADM3");
}

#[test]
fn country_location_folds_group_into_name() {
    assert_eq!(record_location(Level::Adm0, "USA", "United States"), "ADM0/USA - United States.geojson");
}

#[test]
fn region_location_nests_and_sanitizes() {
    assert_eq!(record_location(Level::Adm1, "USA", "A/B"), "ADM1/USA/A_B.geojson");
    assert_eq!(record_location(Level::Adm2, "FRA", "Paris"), "ADM2/FRA/Paris.geojson");
}

#[test]
fn missing_field_is_unknown() {
    assert_eq!(shape_field(None), "unknown");
    assert_eq!(shape_field(Some("X".to_string())), "X");
}

#[test]
fn plan_gives_one_location_per_feature() {
    let groups = vec![Some("USA".to_string()), None, Some("USA".to_string())];
    let names = vec![Some("Texas".to_string()), Some("Nowhere".to_string()), Some("Texas".to_string())];
    let r = plan_locations(Level::Adm1, &groups, &names);
    assert_eq!(r, vec!["ADM1/USA/Texas.geojson", "ADM1/unknown/Nowhere.geojson", "ADM1/USA/Texas.geojson"]);
}

#[test]
fn cascade_probes_every_level_in_order() {
    let r = cascade_locations("usa", "California.geojson");
    assert_eq!(
        r,
        vec![
            "ADM0/USA/California.geojson",
            "ADM1/USA/California.geojson",
            "ADM2/USA/California.geojson",
            "ADM3/USA/California.geojson",
        ]
    );
}

#[test]
fn cascade_without_candidate_probes_group_file() {
    let r = cascade_locations("USA - United States.geojson", "");
    assert_eq!(r[0], "ADM0/USA - United States.geojson");
    assert_eq!(r[3], "ADM3/USA - United States.geojson");
}

#[test]
fn select_record_stops_at_first_readable_level() {
    let contents = vec![None, Some("{\"a\":1}".to_string()), None, None];
    let (k, v) = select_record(&contents).unwrap();
    assert_eq!(k, 1);
    assert_eq!(v["a"], 1);
}

#[test]
fn select_record_skips_malformed() {
    let contents = vec![Some("not json".to_string()), Some("{}".to_string())];
    assert_eq!(select_record(&contents).unwrap().0, 1);
}

#[test]
fn select_record_of_nothing_is_none() {
    assert!(select_record(&vec![None, None, None, None]).is_none());
    assert!(select_record(&vec![Some("{".to_string())]).is_none());
}

const DATASET: &str = r#"{"type":"FeatureCollection","features":[
 {"type":"Feature","geometry":{"type":"Point","coordinates":[1.0,2.0]},"properties":{"shapeGroup":"USA","shapeName":"Texas","extra":7}},
 {"type":"Feature","geometry":null,"properties":{"shapeName":"A/B"}},
 {"type":"Feature","geometry":null,"properties":null}
]}"#;

#[test]
fn shard_dataset_writes_one_record_per_feature() {
    let r = shard_dataset(Level::Adm1, DATASET).unwrap();
    assert_eq!(r.len(), 3);
    assert_eq!(r[0].location, "ADM1/USA/Texas.geojson");
    assert_eq!(r[1].location, "ADM1/unknown/A_B.geojson");
    assert_eq!(r[2].location, "ADM1/unknown/unknown.geojson");
    let first: serde_json::Value = serde_json::from_str(&r[0].content).unwrap();
    assert_eq!(first["properties"]["extra"], 7);
    assert_eq!(first["geometry"]["coordinates"][1], 2.0);
}

#[test]
fn shard_dataset_country_level() {
    let r = shard_dataset(Level::Adm0, DATASET).unwrap();
    assert_eq!(r[0].location, "ADM0/USA - Texas.geojson");
}

#[test]
fn shard_dataset_is_deterministic() {
    let a = shard_dataset(Level::Adm1, DATASET).unwrap();
    let b = shard_dataset(Level::Adm1, DATASET).unwrap();
    let la: Vec<&String> = a.iter().map(|r| &r.location).collect();
    let lb: Vec<&String> = b.iter().map(|r| &r.location).collect();
    assert_eq!(la, lb);
}

#[test]
fn shard_dataset_rejects_bad_text() {
    assert!(matches!(shard_dataset(Level::Adm1, "nonsense"), Err(ExtractError::Parse(_))));
}

#[test]
fn shard_dataset_of_lone_feature_is_empty() {
    let doc = r#"{"type":"Feature","geometry":null,"properties":{"shapeName":"X"}}"#;
    assert!(shard_dataset(Level::Adm1, doc).unwrap().is_empty());
}

#[test]
fn text_helpers() {
    assert!(contains_text("UNITED STATES", "STATES"));
    assert!(contains_text("ABC", ""));
    assert!(!contains_text("ABC", "ABCD"));
    assert_eq!(sanitize_name("a/b/c"), "a_b_c");
    assert_eq!(remove_all("x.geojson.geojson", ".geojson"), "x");
    assert_eq!(text_before("a - b - c", " - "), "a");
    assert_eq!(text_before("abc", " - "), "abc");
    assert_eq!(stem_of("a.b.geojson"), "a.b");
    assert_eq!(stem_of(".hidden"), ".hidden");
    assert_eq!(stem_of("plain"), "plain");
}

#[test]
fn cors_headers_allow_everything() {
    let h = CORS.headers();
    assert_eq!(h.len(), 4);
    assert_eq!(h[0], ("Access-Control-Allow-Origin".to_string(), "*".to_string()));
    assert_eq!(h[1].1, "POST, GET, PATCH, OPTIONS");
    assert_eq!(h[3], ("Access-Control-Allow-Credentials".to_string(), "true".to_string()));
    assert_eq!(CORS.name(), "Add CORS headers to responses");
}

fn fields(group: Option<&str>, name: Option<&str>, json: &str) -> FeatureFields {
    FeatureFields { group: group.map(String::from), name: name.map(String::from), json: json.to_string() }
}

#[test]
fn shard_fields_keeps_order_and_content() {
    let fs = vec![
        fields(Some("FRA"), Some("A/B"), "{\"x\":1}"),
        fields(None, None, "{}"),
        fields(Some("FRA"), Some("A/B"), "{\"x\":2}"),
    ];
    let r = shard_fields(Level::Adm1, &fs);
    assert_eq!(r.len(), 3);
    assert_eq!(r[0].location, "ADM1/FRA/A_B.geojson");
    assert_eq!(r[0].content, "{\"x\":1}");
    assert_eq!(r[1].location, "ADM1/unknown/unknown.geojson");
    assert_eq!(r[2].location, "ADM1/FRA/A_B.geojson");
    assert_eq!(r[2].content, "{\"x\":2}");
}

#[test]
fn shard_fields_country_level_without_properties() {
    let r = shard_fields(Level::Adm0, &vec![fields(None, None, "{}")]);
    assert_eq!(r[0].location, "ADM0/unknown - unknown.geojson");
}

#[test]
fn shard_dataset_sanitizes_name_with_separator() {
    let doc = r#"{"type":"FeatureCollection","features":[{"type":"Feature","geometry":null,"properties":{"shapeGroup":"FRA","shapeName":"A/B"}}]}"#;
    let r = shard_dataset(Level::Adm1, doc).unwrap();
    assert_eq!(r.len(), 1);
    assert_eq!(r[0].location, "ADM1/FRA/A_B.geojson");
}

#[test]
fn shard_dataset_keeps_duplicates_in_order() {
    let doc = r#"{"type":"FeatureCollection","features":[
 {"type":"Feature","geometry":null,"properties":{"shapeGroup":"USA","shapeName":"X","n":1}},
 {"type":"Feature","geometry":null,"properties":{"shapeGroup":"USA","shapeName":"X","n":2}}]}"#;
    let r = shard_dataset(Level::Adm0, doc).unwrap();
    assert_eq!(r.len(), 2);
    assert_eq!(r[0].location, r[1].location);
    let last: serde_json::Value = serde_json::from_str(&r[1].content).unwrap();
    assert_eq!(last["properties"]["n"], 2);
}
