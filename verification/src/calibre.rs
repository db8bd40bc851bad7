//! Invocations of the two external tools: how each command line is built
//! from plain values, and how each result is read.  The library plans the
//! invocation and classifies what came back; running the process is the
//! caller's part.

use vstd::prelude::*;
use vstd::string::StringExecFns;
use vstd::string::StrSliceExecFns;
use crate::json::{Json, json_get_spec, json_get};
use crate::metadata::{
    str_field_spec, str_field, authors_spec, normalize_authors, norm_identifiers_spec,
    normalize_identifiers_for_fetch, norm_languages_spec, normalize_languages_for_filter,
    has_any_format_spec, has_any_format, english_or_missing_spec, is_english_or_missing,
};
use crate::runner::CmdResult;
use crate::strutil::{
    contains_spec, str_contains, joined, join_with, lower_of, lower_str, starts_with_spec,
    str_starts_with, trim_of, trim_str, upper_of, upper_str, dec_rep_signed, i64_to_string,
    dec_rep, u64_to_string,
};

verus! {

pub open spec fn opt_text(o: Option<String>) -> Option<Seq<char>> {
    match o {
        Some(s) => Some(s@),
        None => None,
    }
}

/// The credential arguments a remote catalog location needs.
pub open spec fn auth_args(
    lib: Seq<char>,
    username: Option<Seq<char>>,
    password: Option<Seq<char>>,
) -> Seq<Seq<char>> {
    if !(starts_with_spec(lib, "http://"@) || starts_with_spec(lib, "https://"@)) {
        Seq::<Seq<char>>::empty()
    } else {
        match username {
            None => Seq::<Seq<char>>::empty(),
            Some(u) => seq!["--username"@, u] + (match password {
                None => Seq::<Seq<char>>::empty(),
                Some(p) => seq!["--password"@, p],
            }),
        }
    }
}

/// Appends the credential flags when the catalog location is remote and a
/// username is configured; a password is only sent along with one.
pub fn append_calibre_auth(
    cmd: &mut Vec<String>,
    lib: &str,
    username: &Option<String>,
    password: &Option<String>,
)
    ensures
        final(cmd).deep_view() == old(cmd).deep_view() + auth_args(
            lib@,
            opt_text(*username),
            opt_text(*password),
        ),
{
    let ghost cmd0 = cmd.deep_view();
    if !(str_starts_with(lib, "http://") || str_starts_with(lib, "https://")) {
        proof {
            assert(cmd.deep_view() =~= cmd0 + auth_args(lib@, opt_text(*username), opt_text(*password)));
        }
        return ;
    }
    match username {
        Some(user) => {
            cmd.push("--username".to_owned());
            cmd.push(user.clone());
            match password {
                Some(pass) => {
                    cmd.push("--password".to_owned());
                    cmd.push(pass.clone());
                    proof {
                        assert(cmd.deep_view() =~= cmd0 + auth_args(
                            lib@,
                            opt_text(*username),
                            opt_text(*password),
                        ));
                    }
                },
                None => {
                    proof {
                        assert(cmd.deep_view() =~= cmd0 + auth_args(
                            lib@,
                            opt_text(*username),
                            opt_text(*password),
                        ));
                    }
                },
            }
        },
        None => {
            proof {
                assert(cmd.deep_view() =~= cmd0 + auth_args(
                    lib@,
                    opt_text(*username),
                    opt_text(*password),
                ));
            }
        },
    }
}

/// The opening of every catalog-tool command.
pub open spec fn with_library_cmd(
    lib: Seq<char>,
    username: Option<Seq<char>>,
    password: Option<Seq<char>>,
) -> Seq<Seq<char>> {
    seq!["calibredb"@, "--with-library"@, lib] + auth_args(lib, username, password)
}

fn base_calibredb_cmd(lib: &str, username: &Option<String>, password: &Option<String>) -> (r: Vec<
    String,
>)
    ensures
        r.deep_view() == with_library_cmd(lib@, opt_text(*username), opt_text(*password)),
{
    let mut cmd: Vec<String> = Vec::new();
    cmd.push("calibredb".to_owned());
    cmd.push("--with-library".to_owned());
    cmd.push(lib.to_owned());
    proof {
        assert(cmd.deep_view() =~= seq!["calibredb"@, "--with-library"@, lib@]);
    }
    append_calibre_auth(&mut cmd, lib, username, password);
    cmd
}

/// The fields every item query asks for.
pub open spec fn query_fields() -> Seq<char> {
    "id,title,authors,publisher,pubdate,languages,formats,isbn,identifiers,tags,comments,cover,last_modified"@
}

/// The format clauses of the candidate search, one per target format.
pub open spec fn format_clauses(fmts: Seq<Seq<char>>) -> Seq<Seq<char>>
    decreases fmts.len(),
{
    if fmts.len() == 0 {
        Seq::<Seq<char>>::empty()
    } else {
        format_clauses(fmts.drop_last()).push("formats:"@ + fmts.last())
    }
}

fn format_clauses_exec(fmts: &Vec<String>) -> (r: Vec<String>)
    ensures
        r.deep_view() == format_clauses(fmts.deep_view()),
{
    let ghost deep = fmts.deep_view();
    let mut r: Vec<String> = Vec::new();
    let mut i: usize = 0;
    while i < fmts.len()
        invariant
            i <= fmts@.len(),
            deep == fmts.deep_view(),
            deep.len() == fmts@.len(),
            r.deep_view() =~= format_clauses(deep.subrange(0, i as int)),
        decreases fmts@.len() - i,
    {
        let ghost pre1 = deep.subrange(0, i + 1);
        proof {
            assert(pre1.drop_last() =~= deep.subrange(0, i as int));
            assert(pre1.last() == deep[i as int]);
            assert(deep[i as int] == fmts@[i as int]@);
        }
        let mut clause = String::from_str("formats:");
        clause.append(fmts[i].as_str());
        let ghost before = r.deep_view();
        r.push(clause);
        proof {
            assert(r.deep_view() =~= before.push("formats:"@ + deep[i as int]));
        }
        i += 1;
    }
    proof {
        assert(deep.subrange(0, deep.len() as int) =~= deep);
    }
    r
}

/// The candidate query: items holding at least one target format.
pub open spec fn list_candidates_cmd_spec(
    lib: Seq<char>,
    username: Option<Seq<char>>,
    password: Option<Seq<char>>,
    fmts: Seq<Seq<char>>,
) -> Seq<Seq<char>> {
    with_library_cmd(lib, username, password) + seq![
        "list"@,
        "--for-machine"@,
        "--fields"@,
        query_fields(),
        "--search"@,
        joined(format_clauses(fmts), " or "@),
    ]
}

/// Builds the candidate query, or reports that no target formats are
/// configured.
pub fn list_candidates_cmd(
    lib: &str,
    username: &Option<String>,
    password: &Option<String>,
    target_formats: &Vec<String>,
) -> (r: Result<Vec<String>, String>)
    ensures
        match r {
            Ok(cmd) => target_formats@.len() > 0 && cmd.deep_view() == list_candidates_cmd_spec(
                lib@,
                opt_text(*username),
                opt_text(*password),
                target_formats.deep_view(),
            ),
            Err(e) => target_formats@.len() == 0 && e@ == "No target formats provided."@,
        },
{
    if target_formats.len() == 0 {
        return Err("No target formats provided.".to_owned());
    }
    let mut cmd = base_calibredb_cmd(lib, username, password);
    let ghost base = cmd.deep_view();
    let clauses = format_clauses_exec(target_formats);
    let search = join_with(&clauses, " or ");
    cmd.push("list".to_owned());
    cmd.push("--for-machine".to_owned());
    cmd.push("--fields".to_owned());
    cmd.push(
        "id,title,authors,publisher,pubdate,languages,formats,isbn,identifiers,tags,comments,cover,last_modified".to_owned(),
    );
    cmd.push("--search".to_owned());
    cmd.push(search);
    proof {
        assert(cmd.deep_view() =~= base + seq![
            "list"@,
            "--for-machine"@,
            "--fields"@,
            query_fields(),
            "--search"@,
            joined(format_clauses(target_formats.deep_view()), " or "@),
        ]);
    }
    Ok(cmd)
}

/// How a candidate query's result reads.
#[derive(Clone, Copy, Debug, PartialEq, Eq, Structural)]
pub enum ListOutcome {
    /// The query succeeded; the output holds the item records.
    Success,
    /// No item matches the search; an empty candidate set, not an error.
    NoMatches,
    /// Another program holds the catalog open.
    CatalogBusy,
    /// A remote catalog endpoint was not found.
    EndpointNotFound,
    /// Any other failure; fatal for the run.
    OtherFailure,
}

/// The classification of a candidate query result, read off the lowered
/// stderr text.
pub open spec fn classify_list_spec(status: int, stderr_lower: Seq<char>, lib: Seq<char>) -> ListOutcome {
    if status == 0 {
        ListOutcome::Success
    } else if contains_spec(stderr_lower, "another calibre program such as calibre-server"@)
        || contains_spec(stderr_lower, "another calibre program such as calibre server"@) {
        ListOutcome::CatalogBusy
    } else if contains_spec(stderr_lower, "not found"@) && starts_with_spec(lib, "http"@) {
        ListOutcome::EndpointNotFound
    } else if contains_spec(stderr_lower, "no books matching the search expression"@) {
        ListOutcome::NoMatches
    } else {
        ListOutcome::OtherFailure
    }
}

/// Reads a candidate query's result; "no items match" is an empty result,
/// not an error.
pub fn classify_list_result(r: &CmdResult, lib: &str) -> (outcome: ListOutcome)
    ensures
        outcome == classify_list_spec(r.status_code as int, lower_of(r.stderr@), lib@),
{
    if r.status_code == 0 {
        return ListOutcome::Success;
    }
    let sl = lower_str(r.stderr.as_str());
    if str_contains(sl.as_str(), "another calibre program such as calibre-server")
        || str_contains(sl.as_str(), "another calibre program such as calibre server") {
        ListOutcome::CatalogBusy
    } else if str_contains(sl.as_str(), "not found") && str_starts_with(lib, "http") {
        ListOutcome::EndpointNotFound
    } else if str_contains(sl.as_str(), "no books matching the search expression") {
        ListOutcome::NoMatches
    } else {
        ListOutcome::OtherFailure
    }
}

/// Whether one reported record belongs in the working set: an object
/// holding a target format whose languages pass the filter.
pub open spec fn keep_candidate(
    b: Json,
    include_missing_language: bool,
    codes: Seq<Seq<char>>,
    targets: Seq<Seq<char>>,
) -> bool {
    &&& b matches Json::Obj(_)
    &&& has_any_format_spec(json_get_spec(b, "formats"@), targets)
    &&& english_or_missing_spec(
        norm_languages_spec(json_get_spec(b, "languages"@)),
        include_missing_language,
        codes,
    )
}

/// The records that belong in the working set, in reported order.
pub open spec fn filtered_candidates(
    books: Seq<Json>,
    include_missing_language: bool,
    codes: Seq<Seq<char>>,
    targets: Seq<Seq<char>>,
) -> Seq<Json>
    decreases books.len(),
{
    if books.len() == 0 {
        Seq::<Json>::empty()
    } else {
        let prev = filtered_candidates(books.drop_last(), include_missing_language, codes, targets);
        if keep_candidate(books.last(), include_missing_language, codes, targets) {
            prev.push(books.last())
        } else {
            prev
        }
    }
}

/// Filters the reported records to the working set.
pub fn filter_candidate_books(
    books: Vec<Json>,
    include_missing_language: bool,
    english_codes: &Vec<String>,
    target_formats: &Vec<String>,
) -> (r: Vec<Json>)
    ensures
        r@ == filtered_candidates(
            books@,
            include_missing_language,
            english_codes.deep_view(),
            target_formats.deep_view(),
        ),
{
    let ghost orig = books@;
    let mut rest = books;
    let mut out: Vec<Json> = Vec::new();
    while rest.len() > 0
        invariant
            rest@.len() <= orig.len(),
            rest@ =~= orig.skip(orig.len() - rest@.len()),
            out@ =~= filtered_candidates(
                orig.subrange(0, orig.len() - rest@.len()),
                include_missing_language,
                english_codes.deep_view(),
                target_formats.deep_view(),
            ),
        decreases rest@.len(),
    {
        let ghost i = orig.len() - rest@.len();
        let b = rest.remove(0);
        proof {
            assert(orig.skip(i as int)[0] == orig[i as int]);
            assert(b == orig[i as int]);
            assert(rest@ =~= orig.skip(i + 1));
            assert(orig.subrange(0, i + 1).drop_last() =~= orig.subrange(0, i as int));
            assert(orig.subrange(0, i + 1).last() == orig[i as int]);
        }
        let is_obj = crate::json::json_is_object(&b);
        let keep = if is_obj {
            let fmts_ok = has_any_format(json_get(&b, "formats"), target_formats);
            if fmts_ok {
                let langs = normalize_languages_for_filter(json_get(&b, "languages"));
                is_english_or_missing(&langs, include_missing_language, english_codes)
            } else {
                false
            }
        } else {
            false
        };
        if keep {
            out.push(b);
        }
    }
    proof {
        assert(orig.subrange(0, orig.len() as int) =~= orig);
    }
    out
}

// ---------------------------------------------------------------------------
// The fetch tool.
// ---------------------------------------------------------------------------

/// The identifier arguments handed to the fetch tool, one `scheme:value`
/// per pair.
pub open spec fn identifier_args(ids: Seq<(Seq<char>, Seq<char>)>) -> Seq<Seq<char>>
    decreases ids.len(),
{
    if ids.len() == 0 {
        Seq::<Seq<char>>::empty()
    } else {
        identifier_args(ids.drop_last()) + seq![
            "--identifier"@,
            ids.last().0 + ":"@ + ids.last().1,
        ]
    }
}

/// The fetch-tool invocation: by ISBN when one is present, else by the
/// identifier map plus title and authors.
pub open spec fn fetch_cmd_spec(
    title: Seq<char>,
    authors_joined: Seq<char>,
    isbn: Seq<char>,
    ids: Seq<(Seq<char>, Seq<char>)>,
    opf_path: Seq<char>,
    cover_path: Seq<char>,
) -> Seq<Seq<char>> {
    seq!["fetch-ebook-metadata"@, "--opf"@, opf_path, "--cover"@, cover_path] + (if isbn.len()
        > 0 {
        seq!["--isbn"@, isbn]
    } else {
        identifier_args(ids) + (if title.len() > 0 {
            seq!["--title"@, title]
        } else {
            Seq::<Seq<char>>::empty()
        }) + (if authors_joined.len() > 0 {
            seq!["--authors"@, authors_joined]
        } else {
            Seq::<Seq<char>>::empty()
        })
    })
}

fn identifier_args_exec(ids: &Vec<(String, String)>) -> (r: Vec<String>)
    ensures
        r.deep_view() == identifier_args(ids.deep_view()),
{
    let ghost deep = ids.deep_view();
    let mut r: Vec<String> = Vec::new();
    let mut i: usize = 0;
    while i < ids.len()
        invariant
            i <= ids@.len(),
            deep == ids.deep_view(),
            deep.len() == ids@.len(),
            r.deep_view() =~= identifier_args(deep.subrange(0, i as int)),
        decreases ids@.len() - i,
    {
        let ghost pre1 = deep.subrange(0, i + 1);
        proof {
            assert(pre1.drop_last() =~= deep.subrange(0, i as int));
            assert(pre1.last() == deep[i as int]);
            assert(deep[i as int] == (ids@[i as int].0@, ids@[i as int].1@));
        }
        let mut pair = ids[i].0.clone();
        pair.append(":");
        pair.append(ids[i].1.as_str());
        let ghost before = r.deep_view();
        r.push("--identifier".to_owned());
        r.push(pair);
        proof {
            assert(r.deep_view() =~= before + seq![
                "--identifier"@,
                deep[i as int].0 + ":"@ + deep[i as int].1,
            ]);
        }
        i += 1;
    }
    proof {
        assert(deep.subrange(0, deep.len() as int) =~= deep);
    }
    r
}

/// Builds the fetch-tool invocation for one item record.
pub fn fetch_metadata_cmd(book: &Json, opf_path: &str, cover_path: &str) -> (r: Vec<String>)
    ensures
        r.deep_view() == fetch_cmd_spec(
            str_field_spec(*book, "title"@),
            joined(authors_spec(json_get_spec(*book, "authors"@)), ", "@),
            str_field_spec(*book, "isbn"@),
            norm_identifiers_spec(json_get_spec(*book, "identifiers"@)),
            opf_path@,
            cover_path@,
        ),
{
    let title = str_field(book, "title");
    let authors = normalize_authors(json_get(book, "authors"));
    let authors_joined = join_with(&authors, ", ");
    let isbn = str_field(book, "isbn");
    let ids = normalize_identifiers_for_fetch(json_get(book, "identifiers"));

    let mut cmd: Vec<String> = Vec::new();
    cmd.push("fetch-ebook-metadata".to_owned());
    cmd.push("--opf".to_owned());
    cmd.push(opf_path.to_owned());
    cmd.push("--cover".to_owned());
    cmd.push(cover_path.to_owned());
    proof {
        assert(cmd.deep_view() =~= seq![
            "fetch-ebook-metadata"@,
            "--opf"@,
            opf_path@,
            "--cover"@,
            cover_path@,
        ]);
    }
    let ghost head = cmd.deep_view();
    if isbn.as_str().unicode_len() > 0 {
        let ghost iv = isbn@;
        cmd.push("--isbn".to_owned());
        cmd.push(isbn);
        proof {
            assert(cmd.deep_view() =~= head + seq!["--isbn"@, iv]);
        }
    } else {
        let id_args = identifier_args_exec(&ids);
        let ghost mid0 = cmd.deep_view();
        let mut k: usize = 0;
        let ghost iddeep = id_args.deep_view();
        while k < id_args.len()
            invariant
                k <= id_args@.len(),
                iddeep == id_args.deep_view(),
                iddeep.len() == id_args@.len(),
                cmd.deep_view() =~= mid0 + iddeep.subrange(0, k as int),
            decreases id_args@.len() - k,
        {
            proof {
                assert(iddeep[k as int] == id_args@[k as int]@);
            }
            let ghost before = cmd.deep_view();
            cmd.push(id_args[k].clone());
            proof {
                assert(cmd.deep_view() =~= before.push(iddeep[k as int]));
                assert(iddeep.subrange(0, k + 1) =~= iddeep.subrange(0, k as int).push(
                    iddeep[k as int],
                ));
            }
            k += 1;
        }
        proof {
            assert(iddeep.subrange(0, iddeep.len() as int) =~= iddeep);
            assert(cmd.deep_view() =~= mid0 + iddeep);
        }
        let ghost mid1 = cmd.deep_view();
        let ghost tv = title@;
        let ghost av = authors_joined@;
        if title.as_str().unicode_len() > 0 {
            cmd.push("--title".to_owned());
            cmd.push(title);
            proof {
                assert(cmd.deep_view() =~= mid1 + seq!["--title"@, tv]);
            }
        }
        let ghost mid2 = cmd.deep_view();
        if authors_joined.as_str().unicode_len() > 0 {
            cmd.push("--authors".to_owned());
            cmd.push(authors_joined);
            proof {
                assert(cmd.deep_view() =~= mid2 + seq!["--authors"@, av]);
            }
        }
        proof {
            let tpart: Seq<Seq<char>> = if tv.len() > 0 {
                seq!["--title"@, tv]
            } else {
                Seq::<Seq<char>>::empty()
            };
            let apart: Seq<Seq<char>> = if av.len() > 0 {
                seq!["--authors"@, av]
            } else {
                Seq::<Seq<char>>::empty()
            };
            assert(cmd.deep_view() =~= head + (iddeep + tpart + apart));
        }
    }
    cmd
}

/// How long outputs are cut for diagnostics.
pub open spec fn capped(s: Seq<char>, max: int) -> Seq<char> {
    if s.len() <= max {
        s
    } else {
        s.take(max)
    }
}

/// The diagnostic line of a failed tool step: the step's name, the exit
/// status, and the trimmed, capped stderr when there is any.
pub open spec fn failure_message_spec(prefix: Seq<char>, status: int, stderr: Seq<char>) -> Seq<
    char,
> {
    let head = prefix + " failed rc="@ + dec_rep_signed(status);
    if trim_of(stderr).len() > 0 {
        head + " stderr="@ + capped(trim_of(stderr), 500)
    } else {
        head
    }
}

/// Builds the diagnostic line of a failed tool step.
pub fn failure_message(prefix: &str, r: &CmdResult) -> (msg: String)
    ensures
        msg@ == failure_message_spec(prefix@, r.status_code as int, r.stderr@),
{
    let mut msg = prefix.to_owned();
    msg.append(" failed rc=");
    let code = i64_to_string(r.status_code as i64);
    msg.append(code.as_str());
    let trimmed = trim_str(r.stderr.as_str());
    if trimmed.as_str().unicode_len() > 0 {
        msg.append(" stderr=");
        let cut = crate::runner::truncate_chars(trimmed.as_str(), 500);
        msg.append(cut.as_str());
        proof {
            assert(capped(trim_of(r.stderr@), 500) =~= cut@);
        }
    }
    msg
}

/// How one fetch attempt reads.
pub struct FetchOutcome {
    pub ok: bool,
    pub timed_out: bool,
    pub message: String,
}

/// Reads a fetch attempt's result: a timeout, a failure status, a missing
/// or empty metadata document, or success.  `opf_len` is the size of the
/// document the tool wrote, if any.
pub fn fetch_metadata_outcome(r: &CmdResult, timeout_seconds: u64, opf_len: Option<u64>) -> (out:
    FetchOutcome)
    ensures
        out.timed_out == r.timed_out,
        r.timed_out ==> !out.ok && out.message@ == "fetch-ebook-metadata timed out after "@
            + dec_rep(timeout_seconds as nat) + "s"@,
        !r.timed_out && r.status_code != 0 ==> !out.ok && out.message@ == failure_message_spec(
            "fetch-ebook-metadata"@,
            r.status_code as int,
            r.stderr@,
        ),
        (!r.timed_out && r.status_code == 0 && (opf_len is None || opf_len == Some(0u64)))
            ==> !out.ok && out.message@ == "fetch-ebook-metadata produced no OPF"@,
        (!r.timed_out && r.status_code == 0 && opf_len is Some && opf_len != Some(0u64))
            ==> out.ok && out.message@ == "fetched"@,
{
    if r.timed_out {
        let mut msg = "fetch-ebook-metadata timed out after ".to_owned();
        let secs = u64_to_string(timeout_seconds);
        msg.append(secs.as_str());
        msg.append("s");
        return FetchOutcome { ok: false, timed_out: true, message: msg };
    }
    if r.status_code != 0 {
        return FetchOutcome {
            ok: false,
            timed_out: false,
            message: failure_message("fetch-ebook-metadata", r),
        };
    }
    match opf_len {
        Some(n) => {
            if n == 0 {
                FetchOutcome {
                    ok: false,
                    timed_out: false,
                    message: "fetch-ebook-metadata produced no OPF".to_owned(),
                }
            } else {
                FetchOutcome { ok: true, timed_out: false, message: "fetched".to_owned() }
            }
        },
        None => FetchOutcome {
            ok: false,
            timed_out: false,
            message: "fetch-ebook-metadata produced no OPF".to_owned(),
        },
    }
}

// ---------------------------------------------------------------------------
// Applying, embedding, refreshing.
// ---------------------------------------------------------------------------

/// The invocation that applies a fetched metadata document to an item.
pub fn apply_opf_to_calibre_db(
    lib: &str,
    username: &Option<String>,
    password: &Option<String>,
    book_id: i64,
    opf_path: &str,
) -> (cmd: Vec<String>)
    ensures
        cmd.deep_view() == with_library_cmd(lib@, opt_text(*username), opt_text(*password))
            + seq!["set_metadata"@, dec_rep_signed(book_id as int), opf_path@],
{
    let mut cmd = base_calibredb_cmd(lib, username, password);
    let ghost base = cmd.deep_view();
    cmd.push("set_metadata".to_owned());
    cmd.push(i64_to_string(book_id));
    cmd.push(opf_path.to_owned());
    proof {
        assert(cmd.deep_view() =~= base + seq![
            "set_metadata"@,
            dec_rep_signed(book_id as int),
            opf_path@,
        ]);
    }
    cmd
}

/// The invocation that sets a downloaded cover on an item, or nothing when
/// no cover was downloaded: a missing or empty cover file is "nothing to
/// apply", not an error.
pub fn apply_cover_to_calibre_db(
    lib: &str,
    username: &Option<String>,
    password: &Option<String>,
    book_id: i64,
    cover_path: &str,
    cover_len: Option<u64>,
) -> (r: Option<Vec<String>>)
    ensures
        (cover_len is None || cover_len == Some(0u64)) <==> r is None,
        match r {
            Some(cmd) => cmd.deep_view() == with_library_cmd(
                lib@,
                opt_text(*username),
                opt_text(*password),
            ) + seq![
                "set_metadata"@,
                dec_rep_signed(book_id as int),
                "--field"@,
                "cover:"@ + cover_path@,
            ],
            None => true,
        },
{
    let present = match cover_len {
        Some(n) => n > 0,
        None => false,
    };
    if !present {
        return None;
    }
    let mut cmd = base_calibredb_cmd(lib, username, password);
    let ghost base = cmd.deep_view();
    cmd.push("set_metadata".to_owned());
    cmd.push(i64_to_string(book_id));
    cmd.push("--field".to_owned());
    let mut field = "cover:".to_owned();
    field.append(cover_path);
    cmd.push(field);
    proof {
        assert(cmd.deep_view() =~= base + seq![
            "set_metadata"@,
            dec_rep_signed(book_id as int),
            "--field"@,
            "cover:"@ + cover_path@,
        ]);
    }
    Some(cmd)
}

/// The format names of the embed restriction, upper-cased.
pub open spec fn upper_clauses(fmts: Seq<Seq<char>>) -> Seq<Seq<char>>
    decreases fmts.len(),
{
    if fmts.len() == 0 {
        Seq::<Seq<char>>::empty()
    } else {
        upper_clauses(fmts.drop_last()).push(upper_of(fmts.last()))
    }
}

/// The invocation that embeds current metadata into the target formats, or
/// the reported failure when no formats are configured.
pub fn embed_metadata_into_formats(
    lib: &str,
    username: &Option<String>,
    password: &Option<String>,
    book_id: i64,
    target_formats: &Vec<String>,
) -> (r: Result<Vec<String>, String>)
    ensures
        match r {
            Ok(cmd) => target_formats@.len() > 0 && cmd.deep_view() == with_library_cmd(
                lib@,
                opt_text(*username),
                opt_text(*password),
            ) + seq![
                "embed_metadata"@,
                "--only-formats"@,
                joined(upper_clauses(target_formats.deep_view()), ","@),
                dec_rep_signed(book_id as int),
            ],
            Err(e) => target_formats@.len() == 0 && e@ == "no target formats"@,
        },
{
    if target_formats.len() == 0 {
        return Err("no target formats".to_owned());
    }
    let ghost deep = target_formats.deep_view();
    let mut uppers: Vec<String> = Vec::new();
    let mut i: usize = 0;
    while i < target_formats.len()
        invariant
            i <= target_formats@.len(),
            deep == target_formats.deep_view(),
            deep.len() == target_formats@.len(),
            uppers.deep_view() =~= upper_clauses(deep.subrange(0, i as int)),
        decreases target_formats@.len() - i,
    {
        let ghost pre1 = deep.subrange(0, i + 1);
        proof {
            assert(pre1.drop_last() =~= deep.subrange(0, i as int));
            assert(pre1.last() == deep[i as int]);
            assert(deep[i as int] == target_formats@[i as int]@);
        }
        let u = upper_str(target_formats[i].as_str());
        let ghost before = uppers.deep_view();
        let ghost uv = u@;
        uppers.push(u);
        proof {
            assert(uppers.deep_view() =~= before.push(uv));
        }
        i += 1;
    }
    proof {
        assert(deep.subrange(0, deep.len() as int) =~= deep);
    }
    let fmt_arg = join_with(&uppers, ",");
    let mut cmd = base_calibredb_cmd(lib, username, password);
    let ghost base = cmd.deep_view();
    cmd.push("embed_metadata".to_owned());
    cmd.push("--only-formats".to_owned());
    cmd.push(fmt_arg);
    cmd.push(i64_to_string(book_id));
    proof {
        assert(cmd.deep_view() =~= base + seq![
            "embed_metadata"@,
            "--only-formats"@,
            joined(upper_clauses(deep), ","@),
            dec_rep_signed(book_id as int),
        ]);
    }
    Ok(cmd)
}

/// The invocation that re-queries one item to capture its refreshed
/// metadata.
pub fn refresh_one_book_cmd(
    lib: &str,
    username: &Option<String>,
    password: &Option<String>,
    book_id: i64,
) -> (cmd: Vec<String>)
    ensures
        cmd.deep_view() == with_library_cmd(lib@, opt_text(*username), opt_text(*password))
            + seq![
            "list"@,
            "--for-machine"@,
            "--fields"@,
            query_fields(),
            "--search"@,
            "id:"@ + dec_rep_signed(book_id as int),
        ],
{
    let mut cmd = base_calibredb_cmd(lib, username, password);
    let ghost base = cmd.deep_view();
    cmd.push("list".to_owned());
    cmd.push("--for-machine".to_owned());
    cmd.push("--fields".to_owned());
    cmd.push(
        "id,title,authors,publisher,pubdate,languages,formats,isbn,identifiers,tags,comments,cover,last_modified".to_owned(),
    );
    cmd.push("--search".to_owned());
    let mut search = "id:".to_owned();
    let id_text = i64_to_string(book_id);
    search.append(id_text.as_str());
    cmd.push(search);
    proof {
        assert(cmd.deep_view() =~= base + seq![
            "list"@,
            "--for-machine"@,
            "--fields"@,
            query_fields(),
            "--search"@,
            "id:"@ + dec_rep_signed(book_id as int),
        ]);
    }
    cmd
}

/// The refreshed record, when the re-query reported one: the first
/// reported record, and only when it is an object.
pub fn pick_refreshed(books: Vec<Json>) -> (r: Option<Json>)
    ensures
        match r {
            Some(b) => books@.len() > 0 && b == books@[0] && (b matches Json::Obj(_)),
            None => books@.len() == 0 || !(books@[0] matches Json::Obj(_)),
        },
{
    let mut books = books;
    if books.len() == 0 {
        return None;
    }
    let first = books.remove(0);
    if crate::json::json_is_object(&first) {
        Some(first)
    } else {
        None
    }
}

} // verus!
