use calibre_updatr::config::ScoringConfig;
use calibre_updatr::json::{Json, json_to_string, json_get};
use calibre_updatr::metadata::{
    metadata_snapshot, score_good_enough, is_good_enough, is_english_or_missing, has_any_format,
    normalize_identifiers_for_fetch, normalize_languages_for_filter,
};

fn s(text: &str) -> String {
    text.to_string()
}

fn obj(pairs: Vec<(&str, Json)>) -> Json {
    Json::Obj(pairs.into_iter().map(|(k, v)| (k.to_string(), v)).collect())
}

#[test]
fn snapshot_trims_and_defaults_fields() {
    let book = obj(vec![
        ("title", Json::Str(s("  Spaced Title  "))),
        ("authors", Json::Str(s("  Single Author "))),
        ("tags", Json::Str(s("one, two , ,three"))),
        ("comments", Json::Str(s("   "))),
    ]);
    let snap = metadata_snapshot(&book);
    assert_eq!(snap.title, "Spaced Title");
    assert_eq!(snap.authors, vec![s("Single Author")]);
    assert_eq!(snap.tags, vec![s("one"), s("two"), s("three")]);
    assert_eq!(snap.publisher, "");
    assert_eq!(snap.pubdate, "");
    assert!(!snap.comments_present);
    assert!(!snap.cover_present);
    assert!(snap.identifiers.is_empty());
    assert!(snap.languages.is_empty());
}

#[test]
fn snapshot_normalizes_identifiers_last_value_wins() {
    let book = obj(vec![(
        "identifiers",
        Json::Obj(vec![
            (s(" ISBN "), Json::Str(s(" 111 "))),
            (s("amazon"), Json::Str(s("A1"))),
            (s("isbn"), Json::Str(s("222"))),
        ]),
    )]);
    let snap = metadata_snapshot(&book);
    assert_eq!(snap.identifiers, vec![(s("isbn"), s("222")), (s("amazon"), s("A1"))]);
}

#[test]
fn identifiers_of_non_string_values_use_their_text() {
    let ids = Json::Obj(vec![(s("calibre"), Json::Num(s("12")))]);
    let out = normalize_identifiers_for_fetch(Some(&ids));
    assert_eq!(out, vec![(s("calibre"), s("12"))]);
}

#[test]
fn languages_scalar_and_array_forms_agree() {
    let arr = Json::Arr(vec![Json::Str(s(" EN "))]);
    let scalar = Json::Str(s(" EN "));
    assert_eq!(normalize_languages_for_filter(Some(&arr)), vec![s("en")]);
    assert_eq!(normalize_languages_for_filter(Some(&scalar)), vec![s("en")]);
    assert!(normalize_languages_for_filter(Some(&Json::Null)).is_empty());
    assert!(normalize_languages_for_filter(None).is_empty());
}

#[test]
fn default_score_counts_present_fields() {
    let book = obj(vec![
        ("title", Json::Str(s("T"))),
        ("authors", Json::Arr(vec![Json::Str(s("A"))])),
        ("isbn", Json::Str(s("978"))),
        ("tags", Json::Arr(vec![Json::Str(s("x"))])),
        ("comments", Json::Str(s("desc"))),
        ("cover", Json::Str(s("/c.jpg"))),
    ]);
    let snap = metadata_snapshot(&book);
    let sc = ScoringConfig::default();
    let (score, reasons) = score_good_enough(&snap, &sc);
    // title 1 + authors 1 + isbn 2 + tags 1 + comments 1 + cover 1
    assert_eq!(score, 7);
    assert_eq!(reasons, vec![s("missing publisher"), s("missing pubdate")]);
    assert!(is_good_enough(score, &snap, &sc));
}

#[test]
fn empty_snapshot_scores_zero() {
    let snap = metadata_snapshot(&obj(vec![]));
    let sc = ScoringConfig::default();
    let (score, reasons) = score_good_enough(&snap, &sc);
    assert_eq!(score, 0);
    assert_eq!(reasons.len(), 8);
    assert!(!is_good_enough(score, &snap, &sc));
}

#[test]
fn adding_a_missing_field_never_lowers_the_score() {
    let sc = ScoringConfig::default();
    let poor = metadata_snapshot(&obj(vec![("title", Json::Str(s("T")))]));
    let richer = metadata_snapshot(&obj(vec![
        ("title", Json::Str(s("T"))),
        ("publisher", Json::Str(s("P"))),
    ]));
    let (a, _) = score_good_enough(&poor, &sc);
    let (b, _) = score_good_enough(&richer, &sc);
    assert!(b >= a);
}

#[test]
fn english_filter_accepts_codes_prefix_and_word() {
    let codes = vec![s("en"), s("eng"), s("en-us"), s("en-gb")];
    assert!(is_english_or_missing(&vec![s("en")], false, &codes));
    assert!(is_english_or_missing(&vec![s("en-au")], false, &codes));
    assert!(is_english_or_missing(&vec![s("en_us")], false, &codes));
    assert!(is_english_or_missing(&vec![s("English")], false, &codes));
    assert!(!is_english_or_missing(&vec![s("fr")], false, &codes));
    assert!(is_english_or_missing(&vec![], true, &codes));
    assert!(!is_english_or_missing(&vec![], false, &codes));
}

#[test]
fn format_filter_handles_arrays_and_delimited_text() {
    let targets = vec![s("epub"), s("pdf")];
    let arr = Json::Arr(vec![Json::Str(s(" EPUB "))]);
    assert!(has_any_format(Some(&arr), &targets));
    let scalar = Json::Str(s("MOBI; PDF"));
    assert!(has_any_format(Some(&scalar), &targets));
    let none = Json::Str(s("mobi, azw3"));
    assert!(!has_any_format(Some(&none), &targets));
    assert!(!has_any_format(None, &targets));
}

#[test]
fn canonical_json_text_escapes_and_orders_nothing() {
    let j = Json::Obj(vec![
        (s("b"), Json::Str(s("say \"hi\"\n"))),
        (s("a"), Json::Arr(vec![Json::Num(s("1")), Json::Bool(true), Json::Null])),
    ]);
    let text = json_to_string(&j);
    assert_eq!(text, "{\"b\":\"say \\\"hi\\\"\\n\",\"a\":[1,true,null]}");
    assert!(json_get(&j, "a").is_some());
    assert!(json_get(&j, "missing").is_none());
}
