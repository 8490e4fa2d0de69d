use geoshapes::resolve::{
    autocomplete, country_code, find_best_match, lookup_target, pick_best, resolve_country, suggest,
};
use geoshapes::similarity::decode_or_keep;

fn strings(v: &[&str]) -> Vec<String> {
    v.iter().map(|s| s.to_string()).collect()
}

#[test]
fn autocomplete_puts_substring_match_first() {
    let candidates = strings(&[
        "CAN - Canada.geojson",
        "USA - United States.geojson",
        "MEX - Mexico.geojson",
    ]);
    let r = autocomplete("usa", &candidates);
    assert!(!r.is_empty());
    assert_eq!(r[0], "USA - United States.geojson");
}

#[test]
fn autocomplete_empty_query_lists_first_five() {
    let candidates = strings(&["a", "b", "c", "d", "e", "f", "g"]);
    let r = autocomplete("", &candidates);
    assert_eq!(r, strings(&["a", "b", "c", "d", "e"]));
}

#[test]
fn autocomplete_nonexistent_country_gives_nothing() {
    assert!(autocomplete("ZZZZZZZ", &Vec::new()).is_empty());
    let candidates = strings(&["USA - United States.geojson"]);
    assert!(autocomplete("ZZZZZZZ", &candidates).is_empty());
}

#[test]
fn autocomplete_returns_at_most_five() {
    let candidates = strings(&["AA", "AB", "AC", "AD", "AE", "AF", "AG", "AH"]);
    let r = autocomplete("a", &candidates);
    assert_eq!(r, strings(&["AA", "AB", "AC", "AD", "AE"]));
}

#[test]
fn autocomplete_substring_ahead_of_similar() {
    let candidates = strings(&["UNITE.geojson", "ARE - United Arab Emirates.geojson"]);
    let r = autocomplete("united", &candidates);
    assert_eq!(r, strings(&["ARE - United Arab Emirates.geojson", "UNITE.geojson"]));
}

#[test]
fn autocomplete_ignores_case_of_candidates() {
    let candidates = strings(&["fra - france.geojson"]);
    assert_eq!(autocomplete("FRANCE", &candidates), candidates);
}

#[test]
fn suggest_ranks_by_score_then_order() {
    let names = strings(&["p", "q", "r", "s"]);
    let ups = strings(&["P", "Q", "R", "S"]);
    let half = 0.5f64.to_bits();
    let scores = vec![0.6f64.to_bits(), half, 0.9f64.to_bits(), 0.6f64.to_bits()];
    let r = suggest("X", &names, &ups, &scores);
    assert_eq!(r, strings(&["r", "p", "s"]));
    assert!(scores[1] == half);
}

#[test]
fn suggest_keeps_substring_hits_in_listing_order() {
    let names = strings(&["one", "two", "three"]);
    let ups = strings(&["ONE", "TWO", "THREE"]);
    let scores = vec![0.0f64.to_bits(), 0.99f64.to_bits(), 0.0f64.to_bits()];
    let r = suggest("E", &names, &ups, &scores);
    assert_eq!(r, strings(&["one", "three", "two"]));
}

#[test]
fn best_match_picks_most_similar() {
    let candidates = strings(&["Texas.geojson", "California.geojson", "Nevada.geojson"]);
    assert_eq!(find_best_match("California", &candidates), Some("California.geojson".to_string()));
}

#[test]
fn best_match_has_no_floor() {
    let candidates = strings(&["Texas.geojson"]);
    assert_eq!(find_best_match("zzz", &candidates), Some("Texas.geojson".to_string()));
}

#[test]
fn best_match_of_nothing_is_none() {
    assert_eq!(find_best_match("California", &Vec::new()), None);
}

#[test]
fn best_match_tie_goes_to_first() {
    let candidates = strings(&["AB", "BA"]);
    assert_eq!(find_best_match("zzz", &candidates), Some("AB".to_string()));
}

#[test]
fn best_match_grows_with_pool() {
    let small = strings(&["Texas.geojson"]);
    let large = strings(&["Texas.geojson", "California.geojson"]);
    let s = find_best_match("California", &small).unwrap();
    let l = find_best_match("California", &large).unwrap();
    let score = |c: &str| strsim::jaro_winkler("CALIFORNIA", &c.to_uppercase());
    assert!(score(&l) >= score(&s));
}

#[test]
fn pick_best_takes_first_maximum() {
    let candidates = strings(&["a", "b", "c"]);
    assert_eq!(pick_best(&candidates, &vec![1, 3, 3]), Some("b".to_string()));
    assert_eq!(pick_best(&Vec::new(), &Vec::new()), None);
}

#[test]
fn country_code_strips_extension_and_name() {
    assert_eq!(country_code("USA - United States.geojson"), "USA");
    assert_eq!(country_code("FRA.geojson"), "FRA");
    assert_eq!(country_code("GBR - United Kingdom - Extra"), "GBR");
}

#[test]
fn resolve_country_takes_first_suggestion() {
    assert_eq!(resolve_country(&strings(&["USA - United States.geojson", "x"])), Some("USA - United States.geojson".to_string()));
    assert_eq!(resolve_country(&Vec::new()), None);
}

#[test]
fn decode_or_keep_decodes_percent_escapes() {
    assert_eq!(decode_or_keep("United%20States"), "United States");
    assert_eq!(decode_or_keep("plain"), "plain");
    assert_eq!(decode_or_keep("%FF"), "%FF");
}

#[test]
fn end_to_end_country_then_region() {
    let level0 = strings(&["CAN - Canada.geojson", "USA - United States.geojson"]);
    let suggestions = autocomplete("usa", &level0);
    let country = resolve_country(&suggestions).unwrap();
    assert_eq!(country, "USA - United States.geojson");
    let code = country_code(&country);
    assert_eq!(code, "USA");
    let regions = strings(&["Texas.geojson", "California.geojson", "Los Angeles.geojson"]);
    assert_eq!(find_best_match("California", &regions), Some("California.geojson".to_string()));
}

#[test]
fn lookup_target_uses_group_code_with_a_match() {
    let (g, c) = lookup_target("USA - United States.geojson", Some("California.geojson".to_string()));
    assert_eq!(g, "USA");
    assert_eq!(c, "California.geojson");
    let (g, c) = lookup_target("USA - United States.geojson", None);
    assert_eq!(g, "USA - United States.geojson");
    assert_eq!(c, "");
}
