//! The normalized projection of a catalog item: which fields are present,
//! in what normalized form, and the weighted completeness score over them.

use vstd::prelude::*;
use crate::json::{Json, json_text, json_get_spec, json_get};
use crate::strutil::{
    lower_of, trim_of, lower_str, trim_str, replaced, replace_char, split_on, split_char,
    str_eq, starts_with_spec, str_starts_with,
};
use vstd::string::StrSliceExecFns;
use vstd::string::StringExecFns;

verus! {

// ---------------------------------------------------------------------------
// Reading one value as text.
// ---------------------------------------------------------------------------

/// The text a value reads as in a scalar position: a string reads as its
/// characters, anything else as its canonical text.
pub open spec fn as_text_spec(j: Json) -> Seq<char> {
    match j {
        Json::Str(s) => s@,
        _ => json_text(j),
    }
}

pub fn json_as_text(j: &Json) -> (r: String)
    ensures
        r@ == as_text_spec(*j),
{
    match j {
        Json::Str(s) => s.clone(),
        _ => crate::json::json_to_string(j),
    }
}

/// The field's text when it is a string, empty otherwise; trimmed.
pub open spec fn str_field_spec(book: Json, key: Seq<char>) -> Seq<char> {
    match json_get_spec(book, key) {
        Some(Json::Str(s)) => trim_of(s@),
        _ => Seq::<char>::empty(),
    }
}

/// The trimmed text of a string field, or the empty string where the field
/// is absent or not a string.
pub fn str_field(book: &Json, key: &str) -> (r: String)
    ensures
        r@ == str_field_spec(*book, key@),
{
    match json_get(book, key) {
        Some(v) => match v {
            Json::Str(s) => trim_str(s.as_str()),
            _ => String::new(),
        },
        None => String::new(),
    }
}

// ---------------------------------------------------------------------------
// List-valued fields: arrays of strings, defensively normalized.
// ---------------------------------------------------------------------------

/// The string elements, trimmed and lower-cased, empties dropped; order kept.
pub open spec fn norm_str_list(els: Seq<Json>) -> Seq<Seq<char>>
    decreases els.len(),
{
    if els.len() == 0 {
        Seq::<Seq<char>>::empty()
    } else {
        let prev = norm_str_list(els.drop_last());
        match els.last() {
            Json::Str(s) => {
                let n = lower_of(trim_of(s@));
                if n.len() == 0 {
                    prev
                } else {
                    prev.push(n)
                }
            },
            _ => prev,
        }
    }
}

/// The string elements, trimmed, empties dropped; order and case kept.
pub open spec fn trim_str_list(els: Seq<Json>) -> Seq<Seq<char>>
    decreases els.len(),
{
    if els.len() == 0 {
        Seq::<Seq<char>>::empty()
    } else {
        let prev = trim_str_list(els.drop_last());
        match els.last() {
            Json::Str(s) => {
                let n = trim_of(s@);
                if n.len() == 0 {
                    prev
                } else {
                    prev.push(n)
                }
            },
            _ => prev,
        }
    }
}

fn norm_str_list_exec(els: &Vec<Json>, lower: bool) -> (r: Vec<String>)
    ensures
        lower ==> r.deep_view() == norm_str_list(els@),
        !lower ==> r.deep_view() == trim_str_list(els@),
{
    let mut r: Vec<String> = Vec::new();
    let mut i: usize = 0;
    while i < els.len()
        invariant
            i <= els@.len(),
            lower ==> r.deep_view() =~= norm_str_list(els@.subrange(0, i as int)),
            !lower ==> r.deep_view() =~= trim_str_list(els@.subrange(0, i as int)),
        decreases els@.len() - i,
    {
        let ghost pre0 = els@.subrange(0, i as int);
        let ghost pre1 = els@.subrange(0, i + 1);
        proof {
            assert(pre1.drop_last() =~= pre0);
            assert(pre1.last() == els@[i as int]);
        }
        match &els[i] {
            Json::Str(s) => {
                let t = trim_str(s.as_str());
                let n = if lower {
                    lower_str(t.as_str())
                } else {
                    t
                };
                if n.as_str().unicode_len() > 0 {
                    let ghost before = r.deep_view();
                    r.push(n);
                    proof {
                        assert(r.deep_view() =~= before.push(n@));
                    }
                }
            },
            _ => {},
        }
        i += 1;
    }
    proof {
        assert(els@.subrange(0, els@.len() as int) =~= els@);
    }
    r
}

/// Trims each part and drops the empty ones.
pub open spec fn trimmed_nonempty(parts: Seq<Seq<char>>) -> Seq<Seq<char>>
    decreases parts.len(),
{
    if parts.len() == 0 {
        Seq::<Seq<char>>::empty()
    } else {
        let prev = trimmed_nonempty(parts.drop_last());
        let t = trim_of(parts.last());
        if t.len() == 0 {
            prev
        } else {
            prev.push(t)
        }
    }
}

fn trimmed_nonempty_exec(parts: &Vec<String>) -> (r: Vec<String>)
    ensures
        r.deep_view() == trimmed_nonempty(parts.deep_view()),
{
    let mut r: Vec<String> = Vec::new();
    let mut i: usize = 0;
    while i < parts.len()
        invariant
            i <= parts@.len(),
            parts.deep_view().len() == parts@.len(),
            r.deep_view() =~= trimmed_nonempty(parts.deep_view().subrange(0, i as int)),
        decreases parts@.len() - i,
    {
        let ghost deep = parts.deep_view();
        let ghost pre0 = deep.subrange(0, i as int);
        let ghost pre1 = deep.subrange(0, i + 1);
        proof {
            assert(pre1.drop_last() =~= pre0);
            assert(pre1.last() == deep[i as int]);
            assert(deep[i as int] == parts@[i as int]@);
        }
        let t = trim_str(parts[i].as_str());
        if t.as_str().unicode_len() > 0 {
            let ghost before = r.deep_view();
            r.push(t);
            proof {
                assert(r.deep_view() =~= before.push(t@));
            }
        }
        i += 1;
    }
    proof {
        assert(parts.deep_view().subrange(0, parts.deep_view().len() as int) =~= parts.deep_view());
    }
    r
}

// ---------------------------------------------------------------------------
// The multi-representation fields.
// ---------------------------------------------------------------------------

/// The language list of a value that may be absent, an array of strings, or
/// a single scalar.
pub open spec fn norm_languages_spec(v: Option<Json>) -> Seq<Seq<char>> {
    match v {
        None => Seq::<Seq<char>>::empty(),
        Some(Json::Null) => Seq::<Seq<char>>::empty(),
        Some(Json::Arr(els)) => norm_str_list(els@),
        Some(j) => {
            let s = lower_of(trim_of(as_text_spec(j)));
            if s.len() == 0 {
                Seq::<Seq<char>>::empty()
            } else {
                seq![s]
            }
        },
    }
}

/// Normalizes a `languages` value: an absent or null field gives no
/// languages, an array keeps its string entries, a scalar stands alone;
/// every entry trimmed and lower-cased, empties dropped.
pub fn normalize_languages_for_filter(v: Option<&Json>) -> (r: Vec<String>)
    ensures
        r.deep_view() == norm_languages_spec(match v {
            Some(j) => Some(*j),
            None => None,
        }),
{
    match v {
        None => Vec::new(),
        Some(j) => match j {
            Json::Null => Vec::new(),
            Json::Arr(els) => norm_str_list_exec(els, true),
            _ => {
                let t = trim_str(json_as_text(j).as_str());
                let s = lower_str(t.as_str());
                let mut r: Vec<String> = Vec::new();
                if s.as_str().unicode_len() > 0 {
                    let ghost sv = s@;
                    r.push(s);
                    proof {
                        assert(r.deep_view() =~= seq![sv]);
                    }
                } else {
                    proof {
                        assert(r.deep_view() =~= Seq::<Seq<char>>::empty());
                    }
                }
                r
            },
        },
    }
}

/// The format list of a value that may be absent, an array of strings, or a
/// scalar holding a delimited list.
pub open spec fn norm_formats_spec(v: Option<Json>) -> Seq<Seq<char>> {
    match v {
        None => Seq::<Seq<char>>::empty(),
        Some(Json::Null) => Seq::<Seq<char>>::empty(),
        Some(Json::Arr(els)) => norm_str_list(els@),
        Some(j) => trimmed_nonempty(
            split_on(replaced(lower_of(as_text_spec(j)), ';', ','), ','),
        ),
    }
}

/// Normalizes a `formats` value: arrays keep their string entries trimmed
/// and lower-cased; a scalar is lower-cased and split on `,` or `;`.
pub fn normalize_formats_value(v: Option<&Json>) -> (r: Vec<String>)
    ensures
        r.deep_view() == norm_formats_spec(match v {
            Some(j) => Some(*j),
            None => None,
        }),
{
    match v {
        None => Vec::new(),
        Some(j) => match j {
            Json::Null => Vec::new(),
            Json::Arr(els) => norm_str_list_exec(els, true),
            _ => {
                let s = lower_str(json_as_text(j).as_str());
                let joined = replace_char(s.as_str(), ';', ',');
                let parts = split_char(joined.as_str(), ',');
                trimmed_nonempty_exec(&parts)
            },
        },
    }
}

// ---------------------------------------------------------------------------
// Identifier maps: normalized keys, later value wins.
// ---------------------------------------------------------------------------

/// The first position holding key `k`, or -1.
pub open spec fn find_key(m: Seq<(Seq<char>, Seq<char>)>, k: Seq<char>) -> int
    decreases m.len(),
{
    if m.len() == 0 {
        -1
    } else if m[0].0 == k {
        0
    } else {
        let r = find_key(m.drop_first(), k);
        if r == -1 {
            -1
        } else {
            r + 1
        }
    }
}

/// Replaces the value under `k`, or appends the pair when `k` is new.
pub open spec fn upsert(m: Seq<(Seq<char>, Seq<char>)>, k: Seq<char>, v: Seq<char>) -> Seq<
    (Seq<char>, Seq<char>),
> {
    let i = find_key(m, k);
    if i >= 0 {
        m.update(i, (k, v))
    } else {
        m.push((k, v))
    }
}

pub proof fn lemma_find_key_found(m: Seq<(Seq<char>, Seq<char>)>, k: Seq<char>, i: int)
    requires
        0 <= i < m.len(),
        m[i].0 == k,
        forall|j: int| 0 <= j < i ==> m[j].0 != k,
    ensures
        find_key(m, k) == i,
    decreases m.len(),
{
    if i > 0 {
        assert(m[0].0 != k);
        lemma_find_key_found(m.drop_first(), k, i - 1);
    }
}

pub proof fn lemma_find_key_none(m: Seq<(Seq<char>, Seq<char>)>, k: Seq<char>)
    requires
        forall|j: int| 0 <= j < m.len() ==> m[j].0 != k,
    ensures
        find_key(m, k) == -1,
    decreases m.len(),
{
    if m.len() > 0 {
        lemma_find_key_none(m.drop_first(), k);
    }
}

fn upsert_exec(m: &mut Vec<(String, String)>, k: String, v: String)
    ensures
        final(m).deep_view() == upsert(old(m).deep_view(), k@, v@),
{
    let ghost deep = old(m).deep_view();
    let ghost kk = k@;
    let ghost vv = v@;
    let mut i: usize = 0;
    while i < m.len()
        invariant
            i <= m@.len(),
            m@ == old(m)@,
            deep == old(m).deep_view(),
            kk == k@,
            vv == v@,
            deep.len() == m@.len(),
            forall|j: int| 0 <= j < i ==> #[trigger] deep[j].0 != kk,
        decreases m@.len() - i,
    {
        proof {
            assert(m.deep_view() =~= deep);
        }
        if str_eq(m[i].0.as_str(), k.as_str()) {
            proof {
                assert(deep[i as int].0 == m@[i as int].0@);
                lemma_find_key_found(deep, kk, i as int);
            }
            m[i] = (k, v);
            proof {
                assert(m.deep_view() =~= deep.update(i as int, (kk, vv)));
            }
            return ;
        }
        proof {
            assert(deep[i as int].0 == m@[i as int].0@);
        }
        i += 1;
    }
    proof {
        assert(m.deep_view() =~= deep);
        lemma_find_key_none(deep, kk);
    }
    m.push((k, v));
    proof {
        assert(m.deep_view() =~= deep.push((kk, vv)));
    }
}

/// The normalized identifier pairs of the given object pairs, processed in
/// order: keys trimmed and lower-cased, values read as trimmed text, blank
/// keys or values dropped, and a repeated key keeping its last value.
pub open spec fn norm_ids(pairs: Seq<(String, Json)>) -> Seq<(Seq<char>, Seq<char>)>
    decreases pairs.len(),
{
    if pairs.len() == 0 {
        Seq::<(Seq<char>, Seq<char>)>::empty()
    } else {
        let prev = norm_ids(pairs.drop_last());
        let k = lower_of(trim_of(pairs.last().0@));
        let v = trim_of(as_text_spec(pairs.last().1));
        if k.len() == 0 || v.len() == 0 {
            prev
        } else {
            upsert(prev, k, v)
        }
    }
}

pub open spec fn norm_identifiers_spec(v: Option<Json>) -> Seq<(Seq<char>, Seq<char>)> {
    match v {
        Some(Json::Obj(ps)) => norm_ids(ps@),
        _ => Seq::<(Seq<char>, Seq<char>)>::empty(),
    }
}

/// Normalizes an `identifiers` value into scheme/value pairs.
pub fn normalize_identifiers_for_fetch(v: Option<&Json>) -> (r: Vec<(String, String)>)
    ensures
        r.deep_view() == norm_identifiers_spec(match v {
            Some(j) => Some(*j),
            None => None,
        }),
{
    match v {
        Some(j) => match j {
            Json::Obj(ps) => {
                let mut r: Vec<(String, String)> = Vec::new();
                let mut i: usize = 0;
                while i < ps.len()
                    invariant
                        i <= ps@.len(),
                        r.deep_view() == norm_ids(ps@.subrange(0, i as int)),
                    decreases ps@.len() - i,
                {
                    let ghost pre0 = ps@.subrange(0, i as int);
                    let ghost pre1 = ps@.subrange(0, i + 1);
                    proof {
                        assert(pre1.drop_last() =~= pre0);
                        assert(pre1.last() == ps@[i as int]);
                    }
                    let kt = trim_str(ps[i].0.as_str());
                    let k = lower_str(kt.as_str());
                    let val = trim_str(json_as_text(&ps[i].1).as_str());
                    if k.as_str().unicode_len() > 0 && val.as_str().unicode_len() > 0 {
                        upsert_exec(&mut r, k, val);
                    }
                    i += 1;
                }
                proof {
                    assert(ps@.subrange(0, ps@.len() as int) =~= ps@);
                }
                r
            },
            _ => Vec::new(),
        },
        None => Vec::new(),
    }
}

// ---------------------------------------------------------------------------
// Authors and tags.
// ---------------------------------------------------------------------------

/// The author list: array entries trimmed with empties dropped, or a single
/// trimmed scalar string; anything else reads as no authors.
pub open spec fn authors_spec(v: Option<Json>) -> Seq<Seq<char>> {
    match v {
        Some(Json::Arr(els)) => trim_str_list(els@),
        Some(Json::Str(s)) => {
            let t = trim_of(s@);
            if t.len() == 0 {
                Seq::<Seq<char>>::empty()
            } else {
                seq![t]
            }
        },
        _ => Seq::<Seq<char>>::empty(),
    }
}

pub fn normalize_authors(v: Option<&Json>) -> (r: Vec<String>)
    ensures
        r.deep_view() == authors_spec(match v {
            Some(j) => Some(*j),
            None => None,
        }),
{
    match v {
        Some(j) => match j {
            Json::Arr(els) => norm_str_list_exec(els, false),
            Json::Str(s) => {
                let t = trim_str(s.as_str());
                let mut r: Vec<String> = Vec::new();
                if t.as_str().unicode_len() > 0 {
                    let ghost tv = t@;
                    r.push(t);
                    proof {
                        assert(r.deep_view() =~= seq![tv]);
                    }
                } else {
                    proof {
                        assert(r.deep_view() =~= Seq::<Seq<char>>::empty());
                    }
                }
                r
            },
            _ => Vec::new(),
        },
        None => Vec::new(),
    }
}

/// The tag list: array entries trimmed with empties dropped, or a scalar
/// string split on commas.
pub open spec fn tags_spec(v: Option<Json>) -> Seq<Seq<char>> {
    match v {
        Some(Json::Arr(els)) => trim_str_list(els@),
        Some(Json::Str(s)) => {
            let t = trim_of(s@);
            if t.len() == 0 {
                Seq::<Seq<char>>::empty()
            } else {
                trimmed_nonempty(split_on(t, ','))
            }
        },
        _ => Seq::<Seq<char>>::empty(),
    }
}

pub fn normalize_tags(v: Option<&Json>) -> (r: Vec<String>)
    ensures
        r.deep_view() == tags_spec(match v {
            Some(j) => Some(*j),
            None => None,
        }),
{
    match v {
        Some(j) => match j {
            Json::Arr(els) => norm_str_list_exec(els, false),
            Json::Str(s) => {
                let t = trim_str(s.as_str());
                if t.as_str().unicode_len() > 0 {
                    let parts = split_char(t.as_str(), ',');
                    trimmed_nonempty_exec(&parts)
                } else {
                    Vec::new()
                }
            },
            _ => Vec::new(),
        },
        None => Vec::new(),
    }
}

// ---------------------------------------------------------------------------
// The snapshot.
// ---------------------------------------------------------------------------

/// The normalized projection of one item's metadata-relevant fields.
pub struct Snapshot {
    pub title: String,
    pub authors: Vec<String>,
    pub publisher: String,
    pub pubdate: String,
    pub languages: Vec<String>,
    pub isbn: String,
    pub identifiers: Vec<(String, String)>,
    pub tags: Vec<String>,
    pub comments_present: bool,
    pub cover_present: bool,
}

/// A description field counts as present when its trimmed text is
/// non-empty.
pub open spec fn comments_present_spec(v: Option<Json>) -> bool {
    match v {
        Some(Json::Str(s)) => trim_of(s@).len() > 0,
        _ => false,
    }
}

/// A cover counts as present when the field exists and is not null.
pub open spec fn cover_present_spec(v: Option<Json>) -> bool {
    match v {
        Some(Json::Null) => false,
        Some(_) => true,
        None => false,
    }
}

/// Builds the normalized snapshot of one item record.
pub fn metadata_snapshot(book: &Json) -> (r: Snapshot)
    ensures
        r.title@ == str_field_spec(*book, "title"@),
        r.authors.deep_view() == authors_spec(json_get_spec(*book, "authors"@)),
        r.publisher@ == str_field_spec(*book, "publisher"@),
        r.pubdate@ == str_field_spec(*book, "pubdate"@),
        r.languages.deep_view() == norm_languages_spec(json_get_spec(*book, "languages"@)),
        r.isbn@ == str_field_spec(*book, "isbn"@),
        r.identifiers.deep_view() == norm_identifiers_spec(json_get_spec(*book, "identifiers"@)),
        r.tags.deep_view() == tags_spec(json_get_spec(*book, "tags"@)),
        r.comments_present == comments_present_spec(json_get_spec(*book, "comments"@)),
        r.cover_present == cover_present_spec(json_get_spec(*book, "cover"@)),
{
    let comments_present = match json_get(book, "comments") {
        Some(v) => match v {
            Json::Str(s) => trim_str(s.as_str()).as_str().unicode_len() > 0,
            _ => false,
        },
        None => false,
    };
    let cover_present = match json_get(book, "cover") {
        Some(v) => match v {
            Json::Null => false,
            _ => true,
        },
        None => false,
    };
    Snapshot {
        title: str_field(book, "title"),
        authors: normalize_authors(json_get(book, "authors")),
        publisher: str_field(book, "publisher"),
        pubdate: str_field(book, "pubdate"),
        languages: normalize_languages_for_filter(json_get(book, "languages")),
        isbn: str_field(book, "isbn"),
        identifiers: normalize_identifiers_for_fetch(json_get(book, "identifiers")),
        tags: normalize_tags(json_get(book, "tags")),
        comments_present,
        cover_present,
    }
}

// ---------------------------------------------------------------------------
// The good-enough score.
// ---------------------------------------------------------------------------

/// A weight small enough that the eight contributions cannot overflow the
/// score.
pub open spec fn weight_in_range(w: int) -> bool {
    -0x8000000 <= w <= 0x8000000
}

pub open spec fn scoring_wf(sc: crate::config::ScoringConfig) -> bool {
    &&& weight_in_range(sc.title_weight as int)
    &&& weight_in_range(sc.authors_weight as int)
    &&& weight_in_range(sc.publisher_weight as int)
    &&& weight_in_range(sc.pubdate_weight as int)
    &&& weight_in_range(sc.isbn_weight as int)
    &&& weight_in_range(sc.identifiers_weight as int)
    &&& weight_in_range(sc.tags_weight as int)
    &&& weight_in_range(sc.comments_weight as int)
    &&& weight_in_range(sc.cover_weight as int)
}

/// The weighted completeness score of a snapshot.
pub open spec fn score_spec(snap: Snapshot, sc: crate::config::ScoringConfig) -> int {
    (if snap.title@.len() > 0 {
        sc.title_weight as int
    } else {
        0
    }) + (if snap.authors@.len() > 0 {
        sc.authors_weight as int
    } else {
        0
    }) + (if snap.publisher@.len() > 0 {
        sc.publisher_weight as int
    } else {
        0
    }) + (if snap.pubdate@.len() > 0 {
        sc.pubdate_weight as int
    } else {
        0
    }) + (if snap.isbn@.len() > 0 {
        sc.isbn_weight as int
    } else if snap.identifiers@.len() > 0 {
        sc.identifiers_weight as int
    } else {
        0
    }) + (if snap.tags@.len() > 0 {
        sc.tags_weight as int
    } else {
        0
    }) + (if snap.comments_present {
        sc.comments_weight as int
    } else {
        0
    }) + (if snap.cover_present {
        sc.cover_weight as int
    } else {
        0
    })
}

/// The reasons reported for missing fields, in a fixed order.
pub open spec fn missing_reasons(snap: Snapshot) -> Seq<Seq<char>> {
    (if snap.title@.len() > 0 {
        Seq::<Seq<char>>::empty()
    } else {
        seq!["missing title"@]
    }) + (if snap.authors@.len() > 0 {
        Seq::<Seq<char>>::empty()
    } else {
        seq!["missing authors"@]
    }) + (if snap.publisher@.len() > 0 {
        Seq::<Seq<char>>::empty()
    } else {
        seq!["missing publisher"@]
    }) + (if snap.pubdate@.len() > 0 {
        Seq::<Seq<char>>::empty()
    } else {
        seq!["missing pubdate"@]
    }) + (if snap.isbn@.len() > 0 || snap.identifiers@.len() > 0 {
        Seq::<Seq<char>>::empty()
    } else {
        seq!["missing identifiers/isbn"@]
    }) + (if snap.tags@.len() > 0 {
        Seq::<Seq<char>>::empty()
    } else {
        seq!["missing tags"@]
    }) + (if snap.comments_present {
        Seq::<Seq<char>>::empty()
    } else {
        seq!["missing description/comments"@]
    }) + (if snap.cover_present {
        Seq::<Seq<char>>::empty()
    } else {
        seq!["missing cover"@]
    })
}

#[verifier::rlimit(100)]
fn compute_score(snap: &Snapshot, scoring: &crate::config::ScoringConfig) -> (score: i32)
    requires
        scoring_wf(*scoring),
    ensures
        score as int == score_spec(*snap, *scoring),
{
    let c1: i32 = if snap.title.as_str().unicode_len() > 0 {
        scoring.title_weight
    } else {
        0
    };
    let c2: i32 = if snap.authors.len() > 0 {
        scoring.authors_weight
    } else {
        0
    };
    let c3: i32 = if snap.publisher.as_str().unicode_len() > 0 {
        scoring.publisher_weight
    } else {
        0
    };
    let c4: i32 = if snap.pubdate.as_str().unicode_len() > 0 {
        scoring.pubdate_weight
    } else {
        0
    };
    let c5: i32 = if snap.isbn.as_str().unicode_len() > 0 {
        scoring.isbn_weight
    } else if snap.identifiers.len() > 0 {
        scoring.identifiers_weight
    } else {
        0
    };
    let c6: i32 = if snap.tags.len() > 0 {
        scoring.tags_weight
    } else {
        0
    };
    let c7: i32 = if snap.comments_present {
        scoring.comments_weight
    } else {
        0
    };
    let c8: i32 = if snap.cover_present {
        scoring.cover_weight
    } else {
        0
    };
    c1 + c2 + c3 + c4 + c5 + c6 + c7 + c8
}

#[verifier::rlimit(100)]
fn compute_reasons(snap: &Snapshot) -> (reasons: Vec<String>)
    ensures
        reasons.deep_view() == missing_reasons(*snap),
{
    let ghost p1: Seq<Seq<char>> = if snap.title@.len() > 0 {
        Seq::<Seq<char>>::empty()
    } else {
        seq!["missing title"@]
    };
    let ghost p2: Seq<Seq<char>> = if snap.authors@.len() > 0 {
        Seq::<Seq<char>>::empty()
    } else {
        seq!["missing authors"@]
    };
    let ghost p3: Seq<Seq<char>> = if snap.publisher@.len() > 0 {
        Seq::<Seq<char>>::empty()
    } else {
        seq!["missing publisher"@]
    };
    let ghost p4: Seq<Seq<char>> = if snap.pubdate@.len() > 0 {
        Seq::<Seq<char>>::empty()
    } else {
        seq!["missing pubdate"@]
    };
    let ghost p5: Seq<Seq<char>> = if snap.isbn@.len() > 0 || snap.identifiers@.len() > 0 {
        Seq::<Seq<char>>::empty()
    } else {
        seq!["missing identifiers/isbn"@]
    };
    let ghost p6: Seq<Seq<char>> = if snap.tags@.len() > 0 {
        Seq::<Seq<char>>::empty()
    } else {
        seq!["missing tags"@]
    };
    let ghost p7: Seq<Seq<char>> = if snap.comments_present {
        Seq::<Seq<char>>::empty()
    } else {
        seq!["missing description/comments"@]
    };
    let ghost p8: Seq<Seq<char>> = if snap.cover_present {
        Seq::<Seq<char>>::empty()
    } else {
        seq!["missing cover"@]
    };
    let mut reasons: Vec<String> = Vec::new();
    if snap.title.as_str().unicode_len() == 0 {
        reasons.push(String::from_str("missing title"));
    }
    proof {
        assert(reasons.deep_view() =~= p1);
    }
    if snap.authors.len() == 0 {
        reasons.push(String::from_str("missing authors"));
    }
    proof {
        assert(reasons.deep_view() =~= p1 + p2);
    }
    if snap.publisher.as_str().unicode_len() == 0 {
        reasons.push(String::from_str("missing publisher"));
    }
    proof {
        assert(reasons.deep_view() =~= p1 + p2 + p3);
    }
    if snap.pubdate.as_str().unicode_len() == 0 {
        reasons.push(String::from_str("missing pubdate"));
    }
    proof {
        assert(reasons.deep_view() =~= p1 + p2 + p3 + p4);
    }
    if snap.isbn.as_str().unicode_len() == 0 && snap.identifiers.len() == 0 {
        reasons.push(String::from_str("missing identifiers/isbn"));
    }
    proof {
        assert(reasons.deep_view() =~= p1 + p2 + p3 + p4 + p5);
    }
    if snap.tags.len() == 0 {
        reasons.push(String::from_str("missing tags"));
    }
    proof {
        assert(reasons.deep_view() =~= p1 + p2 + p3 + p4 + p5 + p6);
    }
    if !snap.comments_present {
        reasons.push(String::from_str("missing description/comments"));
    }
    proof {
        assert(reasons.deep_view() =~= p1 + p2 + p3 + p4 + p5 + p6 + p7);
    }
    if !snap.cover_present {
        reasons.push(String::from_str("missing cover"));
    }
    proof {
        assert(reasons.deep_view() =~= p1 + p2 + p3 + p4 + p5 + p6 + p7 + p8);
        assert(missing_reasons(*snap) == p1 + p2 + p3 + p4 + p5 + p6 + p7 + p8);
    }
    reasons
}

/// Scores the snapshot and reports which tracked fields are missing.
pub fn score_good_enough(snap: &Snapshot, scoring: &crate::config::ScoringConfig) -> (r: (
    i32,
    Vec<String>,
))
    requires
        scoring_wf(*scoring),
    ensures
        r.0 as int == score_spec(*snap, *scoring),
        r.1.deep_view() == missing_reasons(*snap),
{
    (compute_score(snap, scoring), compute_reasons(snap))
}

/// Whether the score and the required fields allow skipping the fetch.
pub open spec fn good_enough_spec(
    score: int,
    snap: Snapshot,
    sc: crate::config::ScoringConfig,
) -> bool {
    &&& score >= sc.min_score_to_skip_fetch as int
    &&& (!sc.require_title || snap.title@.len() > 0)
    &&& (!sc.require_authors || snap.authors@.len() > 0)
}

pub fn is_good_enough(score: i32, snap: &Snapshot, scoring: &crate::config::ScoringConfig) -> (r:
    bool)
    ensures
        r == good_enough_spec(score as int, *snap, *scoring),
{
    score >= scoring.min_score_to_skip_fetch && (!scoring.require_title || snap.title.as_str().unicode_len()
        > 0) && (!scoring.require_authors || snap.authors.len() > 0)
}

/// One snapshot extends another when every tracked field present in the
/// first is present in the second.
pub open spec fn snapshot_extends(a: Snapshot, b: Snapshot) -> bool {
    &&& (a.title@.len() > 0 ==> b.title@.len() > 0)
    &&& (a.authors@.len() > 0 ==> b.authors@.len() > 0)
    &&& (a.publisher@.len() > 0 ==> b.publisher@.len() > 0)
    &&& (a.pubdate@.len() > 0 ==> b.pubdate@.len() > 0)
    &&& (a.isbn@.len() > 0 ==> b.isbn@.len() > 0)
    &&& (a.identifiers@.len() > 0 ==> b.identifiers@.len() > 0)
    &&& (a.tags@.len() > 0 ==> b.tags@.len() > 0)
    &&& (a.comments_present ==> b.comments_present)
    &&& (a.cover_present ==> b.cover_present)
}

/// Law: with non-negative weights, and the ISBN bonus at least the
/// identifier-map bonus, filling in tracked fields never lowers the score.
pub proof fn lemma_score_monotone(
    a: Snapshot,
    b: Snapshot,
    sc: crate::config::ScoringConfig,
)
    requires
        snapshot_extends(a, b),
        sc.title_weight >= 0,
        sc.authors_weight >= 0,
        sc.publisher_weight >= 0,
        sc.pubdate_weight >= 0,
        sc.isbn_weight >= 0,
        sc.identifiers_weight >= 0,
        sc.tags_weight >= 0,
        sc.comments_weight >= 0,
        sc.cover_weight >= 0,
        sc.isbn_weight >= sc.identifiers_weight,
    ensures
        score_spec(a, sc) <= score_spec(b, sc),
{
}

// ---------------------------------------------------------------------------
// Language and format filters.
// ---------------------------------------------------------------------------

/// One language entry, separator- and case-normalized, counts as English
/// when it is a configured code, has the `en-` prefix, or reads `english`.
pub open spec fn lang_matches(x: Seq<char>, codes: Seq<Seq<char>>) -> bool {
    let x2 = lower_of(replaced(x, '_', '-'));
    ||| codes.contains(x2)
    ||| starts_with_spec(x2, "en-"@)
    ||| x2 == "english"@
}

pub open spec fn english_or_missing_spec(
    langs: Seq<Seq<char>>,
    include_missing_language: bool,
    codes: Seq<Seq<char>>,
) -> bool {
    if langs.len() == 0 {
        include_missing_language
    } else {
        exists|i: int| 0 <= i < langs.len() && #[trigger] lang_matches(langs[i], codes)
    }
}

fn vec_contains_str(codes: &Vec<String>, x: &str) -> (r: bool)
    ensures
        r == codes.deep_view().contains(x@),
{
    let mut i: usize = 0;
    while i < codes.len()
        invariant
            i <= codes@.len(),
            codes.deep_view().len() == codes@.len(),
            forall|j: int| 0 <= j < i ==> codes.deep_view()[j] != x@,
        decreases codes@.len() - i,
    {
        proof {
            assert(codes.deep_view()[i as int] == codes@[i as int]@);
        }
        if str_eq(codes[i].as_str(), x) {
            proof {
                assert(codes.deep_view()[i as int] == x@);
            }
            return true;
        }
        i += 1;
    }
    false
}

/// Whether the item's languages pass the filter: an empty set passes when
/// missing languages are included; otherwise some entry must count as
/// English.
pub fn is_english_or_missing(
    langs: &Vec<String>,
    include_missing_language: bool,
    english_codes: &Vec<String>,
) -> (r: bool)
    ensures
        r == english_or_missing_spec(
            langs.deep_view(),
            include_missing_language,
            english_codes.deep_view(),
        ),
{
    if langs.len() == 0 {
        proof {
            assert(langs.deep_view().len() == langs@.len());
        }
        return include_missing_language;
    }
    let mut i: usize = 0;
    while i < langs.len()
        invariant
            i <= langs@.len(),
            langs.deep_view().len() == langs@.len(),
            forall|j: int| 0 <= j < i ==> !#[trigger] lang_matches(
                langs.deep_view()[j],
                english_codes.deep_view(),
            ),
        decreases langs@.len() - i,
    {
        proof {
            assert(langs.deep_view()[i as int] == langs@[i as int]@);
        }
        let x2 = lower_str(replace_char(langs[i].as_str(), '_', '-').as_str());
        if vec_contains_str(english_codes, x2.as_str()) || str_starts_with(x2.as_str(), "en-")
            || str_eq(x2.as_str(), "english") {
            proof {
                assert(lang_matches(langs.deep_view()[i as int], english_codes.deep_view()));
            }
            return true;
        }
        i += 1;
    }
    proof {
        assert(langs.deep_view().len() > 0);
    }
    false
}

/// Whether the item's `formats` value holds at least one target format.
pub open spec fn has_any_format_spec(v: Option<Json>, targets: Seq<Seq<char>>) -> bool {
    let fmts = norm_formats_spec(v);
    fmts.len() > 0 && exists|i: int|
        0 <= i < fmts.len() && targets.contains(#[trigger] fmts[i])
}

pub fn has_any_format(formats_val: Option<&Json>, targets: &Vec<String>) -> (r: bool)
    ensures
        r == has_any_format_spec(
            match formats_val {
                Some(j) => Some(*j),
                None => None,
            },
            targets.deep_view(),
        ),
{
    let fmts = normalize_formats_value(formats_val);
    let ghost fv = fmts.deep_view();
    if fmts.len() == 0 {
        proof {
            assert(fv.len() == fmts@.len());
        }
        return false;
    }
    let mut i: usize = 0;
    while i < fmts.len()
        invariant
            i <= fmts@.len(),
            fv == fmts.deep_view(),
            fv == norm_formats_spec(
                match formats_val {
                    Some(j) => Some(*j),
                    None => None,
                },
            ),
            fv.len() == fmts@.len(),
            forall|j: int| 0 <= j < i ==> !targets.deep_view().contains(#[trigger] fv[j]),
        decreases fmts@.len() - i,
    {
        proof {
            assert(fv[i as int] == fmts@[i as int]@);
        }
        if vec_contains_str(targets, fmts[i].as_str()) {
            proof {
                assert(targets.deep_view().contains(fv[i as int]));
            }
            return true;
        }
        i += 1;
    }
    proof {
        assert(fv.len() > 0);
    }
    false
}

} // verus!
