use calibre_updatr::calibre::{
    append_calibre_auth, list_candidates_cmd, classify_list_result, ListOutcome,
    filter_candidate_books, fetch_metadata_cmd, fetch_metadata_outcome, apply_opf_to_calibre_db,
    apply_cover_to_calibre_db, embed_metadata_into_formats, refresh_one_book_cmd, pick_refreshed,
    failure_message,
};
use calibre_updatr::json::Json;
use calibre_updatr::runner::CmdResult;

fn s(text: &str) -> String {
    text.to_string()
}

fn obj(pairs: Vec<(&str, Json)>) -> Json {
    Json::Obj(pairs.into_iter().map(|(k, v)| (k.to_string(), v)).collect())
}

fn failed(stderr: &str) -> CmdResult {
    CmdResult { status_code: 1, stdout: s(""), stderr: s(stderr), timed_out: false }
}

#[test]
fn auth_flags_only_for_remote_catalogs() {
    let mut cmd = vec![s("calibredb")];
    append_calibre_auth(&mut cmd, "/books", &Some(s("u")), &Some(s("pw")));
    assert_eq!(cmd, vec![s("calibredb")]);

    let mut cmd = vec![s("calibredb")];
    append_calibre_auth(&mut cmd, "http://host:8081/#lib", &Some(s("u")), &Some(s("pw")));
    assert_eq!(
        cmd,
        vec![s("calibredb"), s("--username"), s("u"), s("--password"), s("pw")]
    );

    // No username means no credentials at all.
    let mut cmd = vec![s("calibredb")];
    append_calibre_auth(&mut cmd, "https://host", &None, &Some(s("pw")));
    assert_eq!(cmd, vec![s("calibredb")]);
}

#[test]
fn candidate_query_lists_formats_and_fields() {
    let cmd = list_candidates_cmd("/books", &None, &None, &vec![s("epub"), s("pdf")]).unwrap();
    assert_eq!(
        cmd,
        vec![
            s("calibredb"),
            s("--with-library"),
            s("/books"),
            s("list"),
            s("--for-machine"),
            s("--fields"),
            s("id,title,authors,publisher,pubdate,languages,formats,isbn,identifiers,tags,comments,cover,last_modified"),
            s("--search"),
            s("formats:epub or formats:pdf"),
        ]
    );
    let err = list_candidates_cmd("/books", &None, &None, &vec![]).unwrap_err();
    assert_eq!(err, "No target formats provided.");
}

#[test]
fn no_matching_items_is_an_empty_result_not_an_error() {
    let r = failed("calibredb: No books matching the search expression");
    assert!(matches!(classify_list_result(&r, "/books"), ListOutcome::NoMatches));
}

#[test]
fn busy_and_missing_endpoints_are_special_cased() {
    let busy = failed("Another calibre program such as calibre-server is running");
    assert!(matches!(classify_list_result(&busy, "/books"), ListOutcome::CatalogBusy));
    let nf = failed("Error: Not Found");
    assert!(matches!(classify_list_result(&nf, "http://host"), ListOutcome::EndpointNotFound));
    // The same text against a local catalog is an ordinary failure.
    assert!(matches!(classify_list_result(&nf, "/books"), ListOutcome::OtherFailure));
    let ok = CmdResult { status_code: 0, stdout: s("[]"), stderr: s(""), timed_out: false };
    assert!(matches!(classify_list_result(&ok, "/books"), ListOutcome::Success));
}

#[test]
fn candidate_filter_keeps_matching_objects_in_order() {
    let keep1 = obj(vec![
        ("id", Json::Num(s("1"))),
        ("formats", Json::Arr(vec![Json::Str(s("EPUB"))])),
        ("languages", Json::Arr(vec![Json::Str(s("eng"))])),
    ]);
    let wrong_format = obj(vec![
        ("id", Json::Num(s("2"))),
        ("formats", Json::Arr(vec![Json::Str(s("mobi"))])),
    ]);
    let wrong_language = obj(vec![
        ("id", Json::Num(s("3"))),
        ("formats", Json::Arr(vec![Json::Str(s("epub"))])),
        ("languages", Json::Arr(vec![Json::Str(s("fra"))])),
    ]);
    let keep2 = obj(vec![
        ("id", Json::Num(s("4"))),
        ("formats", Json::Str(s("pdf"))),
    ]);
    let codes = vec![s("en"), s("eng")];
    let targets = vec![s("epub"), s("pdf")];
    let out = filter_candidate_books(
        vec![keep1, wrong_format, wrong_language, keep2, Json::Null],
        true,
        &codes,
        &targets,
    );
    assert_eq!(out.len(), 2);
    match (&out[0], &out[1]) {
        (Json::Obj(a), Json::Obj(b)) => {
            assert!(matches!(&a[0].1, Json::Num(n) if n == "1"));
            assert!(matches!(&b[0].1, Json::Num(n) if n == "4"));
        },
        _ => panic!("expected objects"),
    }
}

#[test]
fn fetch_command_prefers_isbn() {
    let book = obj(vec![
        ("title", Json::Str(s("T"))),
        ("authors", Json::Arr(vec![Json::Str(s("A"))])),
        ("isbn", Json::Str(s("978"))),
        ("identifiers", Json::Obj(vec![(s("amazon"), Json::Str(s("B00")))])),
    ]);
    let cmd = fetch_metadata_cmd(&book, "/tmp/x.opf", "/tmp/x.jpg");
    assert_eq!(
        cmd,
        vec![
            s("fetch-ebook-metadata"),
            s("--opf"),
            s("/tmp/x.opf"),
            s("--cover"),
            s("/tmp/x.jpg"),
            s("--isbn"),
            s("978"),
        ]
    );
}

#[test]
fn fetch_command_falls_back_to_identifiers_title_authors() {
    let book = obj(vec![
        ("title", Json::Str(s("T"))),
        ("authors", Json::Arr(vec![Json::Str(s("A")), Json::Str(s("B"))])),
        ("identifiers", Json::Obj(vec![(s("amazon"), Json::Str(s("B00")))])),
    ]);
    let cmd = fetch_metadata_cmd(&book, "o", "c");
    assert_eq!(
        cmd,
        vec![
            s("fetch-ebook-metadata"),
            s("--opf"),
            s("o"),
            s("--cover"),
            s("c"),
            s("--identifier"),
            s("amazon:B00"),
            s("--title"),
            s("T"),
            s("--authors"),
            s("A, B"),
        ]
    );
}

#[test]
fn fetch_outcome_reports_each_failure_kind() {
    let r = failed("network down");
    let out = fetch_metadata_outcome(&r, 45, None);
    assert!(!out.ok);
    assert_eq!(out.message, "fetch-ebook-metadata failed rc=1 stderr=network down");

    let ok_but_empty = CmdResult { status_code: 0, stdout: s(""), stderr: s(""), timed_out: false };
    let out = fetch_metadata_outcome(&ok_but_empty, 45, Some(0));
    assert!(!out.ok);
    assert_eq!(out.message, "fetch-ebook-metadata produced no OPF");

    let out = fetch_metadata_outcome(&ok_but_empty, 45, Some(812));
    assert!(out.ok);
    assert_eq!(out.message, "fetched");
}

#[test]
fn apply_and_embed_commands_are_exact() {
    let cmd = apply_opf_to_calibre_db("/books", &None, &None, 42, "/tmp/42.opf");
    assert_eq!(
        cmd,
        vec![
            s("calibredb"),
            s("--with-library"),
            s("/books"),
            s("set_metadata"),
            s("42"),
            s("/tmp/42.opf"),
        ]
    );

    assert!(apply_cover_to_calibre_db("/books", &None, &None, 42, "/tmp/c.jpg", None).is_none());
    assert!(apply_cover_to_calibre_db("/books", &None, &None, 42, "/tmp/c.jpg", Some(0)).is_none());
    let cover = apply_cover_to_calibre_db("/books", &None, &None, 42, "/tmp/c.jpg", Some(9)).unwrap();
    assert_eq!(
        cover,
        vec![
            s("calibredb"),
            s("--with-library"),
            s("/books"),
            s("set_metadata"),
            s("42"),
            s("--field"),
            s("cover:/tmp/c.jpg"),
        ]
    );

    let embed = embed_metadata_into_formats("/books", &None, &None, 42, &vec![s("epub"), s("pdf")])
        .unwrap();
    assert_eq!(
        embed,
        vec![
            s("calibredb"),
            s("--with-library"),
            s("/books"),
            s("embed_metadata"),
            s("--only-formats"),
            s("EPUB,PDF"),
            s("42"),
        ]
    );
    let err = embed_metadata_into_formats("/books", &None, &None, 42, &vec![]).unwrap_err();
    assert_eq!(err, "no target formats");
}

#[test]
fn refresh_query_targets_one_item() {
    let cmd = refresh_one_book_cmd("/books", &None, &None, 7);
    assert_eq!(cmd[cmd.len() - 1], "id:7");
    assert_eq!(cmd[3], "list");
    let picked = pick_refreshed(vec![obj(vec![("id", Json::Num(s("7")))])]);
    assert!(picked.is_some());
    assert!(pick_refreshed(vec![]).is_none());
    assert!(pick_refreshed(vec![Json::Null]).is_none());
}

#[test]
fn failure_messages_carry_status_and_capped_stderr() {
    let msg = failure_message("set_metadata", &failed("  boom  "));
    assert_eq!(msg, "set_metadata failed rc=1 stderr=boom");
    let quiet = CmdResult { status_code: 3, stdout: s(""), stderr: s("   "), timed_out: false };
    assert_eq!(failure_message("embed_metadata", &quiet), "embed_metadata failed rc=3");
    let long = CmdResult {
        status_code: -9,
        stdout: s(""),
        stderr: "x".repeat(900),
        timed_out: false,
    };
    let msg = failure_message("cover set", &long);
    assert!(msg.starts_with("cover set failed rc=-9 stderr="));
    assert_eq!(msg.len(), "cover set failed rc=-9 stderr=".len() + 500);
}
