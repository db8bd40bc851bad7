use calibre_updatr::json::Json;
use calibre_updatr::metadata::metadata_snapshot;
use calibre_updatr::fingerprint::{snapshot_hash, snapshot_canonical, sort_identifier_pairs};

fn s(text: &str) -> String {
    text.to_string()
}

fn obj(pairs: Vec<(&str, Json)>) -> Json {
    Json::Obj(pairs.into_iter().map(|(k, v)| (k.to_string(), v)).collect())
}

fn sample_book(id_pairs: Vec<(&str, &str)>) -> Json {
    obj(vec![
        ("id", Json::Num(s("7"))),
        ("title", Json::Str(s("A Book"))),
        ("authors", Json::Arr(vec![Json::Str(s("Ann Author")), Json::Str(s("Bo Writer"))])),
        ("publisher", Json::Str(s("House"))),
        ("pubdate", Json::Str(s("2001-01-01"))),
        ("languages", Json::Arr(vec![Json::Str(s("eng"))])),
        ("isbn", Json::Str(s("9780000000000"))),
        (
            "identifiers",
            Json::Obj(
                id_pairs.into_iter().map(|(k, v)| (k.to_string(), Json::Str(v.to_string()))).collect(),
            ),
        ),
        ("tags", Json::Arr(vec![Json::Str(s("novel"))])),
        ("comments", Json::Str(s("A description."))),
        ("cover", Json::Str(s("/covers/7.jpg"))),
    ])
}

#[test]
fn fingerprint_same_for_reordered_identifiers() {
    let a = sample_book(vec![("isbn", "978"), ("goodreads", "42"), ("amazon", "B00")]);
    let b = sample_book(vec![("amazon", "B00"), ("isbn", "978"), ("goodreads", "42")]);
    let ha = snapshot_hash(&metadata_snapshot(&a));
    let hb = snapshot_hash(&metadata_snapshot(&b));
    assert_eq!(ha, hb);
}

#[test]
fn fingerprint_same_for_recased_identifier_keys() {
    let a = sample_book(vec![("ISBN", "978"), ("Goodreads", "42")]);
    let b = sample_book(vec![("isbn", "978"), ("goodreads", "42")]);
    let ha = snapshot_hash(&metadata_snapshot(&a));
    let hb = snapshot_hash(&metadata_snapshot(&b));
    assert_eq!(ha, hb);
}

#[test]
fn fingerprint_same_for_recased_languages() {
    let mut a = sample_book(vec![("isbn", "978")]);
    let mut b = sample_book(vec![("isbn", "978")]);
    if let Json::Obj(pairs) = &mut a {
        pairs.retain(|(k, _)| k != "languages");
        pairs.push(("languages".to_string(), Json::Arr(vec![Json::Str(s("ENG "))])));
    }
    if let Json::Obj(pairs) = &mut b {
        pairs.retain(|(k, _)| k != "languages");
        pairs.push(("languages".to_string(), Json::Arr(vec![Json::Str(s("eng"))])));
    }
    assert_eq!(
        snapshot_hash(&metadata_snapshot(&a)),
        snapshot_hash(&metadata_snapshot(&b))
    );
}

#[test]
fn fingerprint_changes_when_metadata_changes() {
    let a = sample_book(vec![("isbn", "978")]);
    let mut b = sample_book(vec![("isbn", "978")]);
    if let Json::Obj(pairs) = &mut b {
        pairs.retain(|(k, _)| k != "title");
        pairs.push(("title".to_string(), Json::Str(s("Another Book"))));
    }
    assert_ne!(
        snapshot_hash(&metadata_snapshot(&a)),
        snapshot_hash(&metadata_snapshot(&b))
    );
}

#[test]
fn fingerprint_is_sixty_four_hex_digits() {
    let h = snapshot_hash(&metadata_snapshot(&sample_book(vec![("isbn", "978")])));
    assert_eq!(h.len(), 64);
    assert!(h.chars().all(|c| c.is_ascii_hexdigit() && !c.is_ascii_uppercase()));
}

#[test]
fn canonical_text_orders_identifier_pairs() {
    let snap = metadata_snapshot(&sample_book(vec![("zzz", "1"), ("aaa", "2")]));
    let text = snapshot_canonical(&snap);
    let za = text.find("\"aaa\"").unwrap();
    let zz = text.find("\"zzz\"").unwrap();
    assert!(za < zz);
}

#[test]
fn sort_identifier_pairs_orders_by_key() {
    let v = vec![
        (s("isbn"), s("1")),
        (s("amazon"), s("2")),
        (s("doi"), s("3")),
    ];
    let sorted = sort_identifier_pairs(&v);
    let keys: Vec<&str> = sorted.iter().map(|p| p.0.as_str()).collect();
    assert_eq!(keys, vec!["amazon", "doi", "isbn"]);
}

#[test]
fn canonical_text_of_an_empty_item_is_pinned() {
    let snap = metadata_snapshot(&obj(vec![]));
    let text = snapshot_canonical(&snap);
    assert_eq!(
        text,
        "{\"authors\":[],\"comments_present\":false,\"cover_present\":false,\
         \"identifiers\":{},\"isbn\":\"\",\"languages\":[],\"pubdate\":\"\",\
         \"publisher\":\"\",\"tags\":[],\"title\":\"\"}"
    );
}

#[test]
fn array_order_of_authors_is_preserved_not_sorted() {
    let a = sample_book(vec![("isbn", "978")]);
    let snap = metadata_snapshot(&a);
    assert_eq!(snap.authors, vec![s("Ann Author"), s("Bo Writer")]);
}
