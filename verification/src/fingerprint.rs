//! The content fingerprint: a snapshot is rendered in a canonical text
//! form — keys in a fixed order, identifier pairs sorted — and hashed.
//! Equal snapshots therefore always produce the same fingerprint, and the
//! order in which identifier pairs arrived never changes it.

use vstd::prelude::*;
use vstd::relations::{total_ordering, sorted_by};
use vstd::seq_lib::lemma_sorted_unique;
use vstd::string::StrSliceExecFns;
use crate::strutil::{lex_leq, lemma_lex_refl, lemma_lex_antisym, lemma_lex_trans,
    lemma_lex_connected, str_eq, str_leq, push_char};
use crate::json::{quoted, escaped};
use crate::metadata::Snapshot;
use sha2::Digest;

verus! {

// ---------------------------------------------------------------------------
// Ordering of identifier pairs.
// ---------------------------------------------------------------------------

/// Pairs ordered by key, ties broken by value.
pub open spec fn id_pair_leq(a: (Seq<char>, Seq<char>), b: (Seq<char>, Seq<char>)) -> bool {
    if a.0 != b.0 {
        lex_leq(a.0, b.0)
    } else {
        lex_leq(a.1, b.1)
    }
}

pub open spec fn id_leq_f() -> spec_fn((Seq<char>, Seq<char>), (Seq<char>, Seq<char>)) -> bool {
    |a: (Seq<char>, Seq<char>), b: (Seq<char>, Seq<char>)| id_pair_leq(a, b)
}

pub proof fn lemma_id_leq_total()
    ensures
        total_ordering(id_leq_f()),
{
    let leq = id_leq_f();
    assert forall|x: (Seq<char>, Seq<char>)| #[trigger] leq(x, x) by {
        lemma_lex_refl(x.1);
    }
    assert forall|x: (Seq<char>, Seq<char>), y: (Seq<char>, Seq<char>)|
        #[trigger] leq(x, y) && #[trigger] leq(y, x) implies x == y by {
        if x.0 != y.0 {
            lemma_lex_antisym(x.0, y.0);
        } else {
            lemma_lex_antisym(x.1, y.1);
        }
    }
    assert forall|x: (Seq<char>, Seq<char>), y: (Seq<char>, Seq<char>), z: (Seq<char>, Seq<char>)|
        #[trigger] leq(x, y) && #[trigger] leq(y, z) implies leq(x, z) by {
        if x.0 != y.0 && y.0 != z.0 {
            lemma_lex_trans(x.0, y.0, z.0);
            if x.0 == z.0 {
                lemma_lex_antisym(y.0, z.0);
            }
        } else if x.0 == y.0 && y.0 == z.0 {
            lemma_lex_trans(x.1, y.1, z.1);
        }
    }
    assert forall|x: (Seq<char>, Seq<char>), y: (Seq<char>, Seq<char>)|
        #[trigger] leq(x, y) || #[trigger] leq(y, x) by {
        if x.0 != y.0 {
            lemma_lex_connected(x.0, y.0);
        } else {
            lemma_lex_connected(x.1, y.1);
        }
    }
}

fn pair_leq_exec(a: &(String, String), b: &(String, String)) -> (r: bool)
    ensures
        r == id_pair_leq((a.0@, a.1@), (b.0@, b.1@)),
{
    if str_eq(a.0.as_str(), b.0.as_str()) {
        str_leq(a.1.as_str(), b.1.as_str())
    } else {
        str_leq(a.0.as_str(), b.0.as_str())
    }
}

/// Sorts identifier pairs into the canonical order.
pub fn sort_identifier_pairs(v: &Vec<(String, String)>) -> (r: Vec<(String, String)>)
    ensures
        r.deep_view() == v.deep_view().sort_by(id_leq_f()),
{
    let ghost leq = id_leq_f();
    let ghost dv = v.deep_view();
    proof {
        lemma_id_leq_total();
        broadcast use vstd::seq_lib::to_multiset_build;
        broadcast use vstd::seq_lib::to_multiset_insert;
    }
    let mut out: Vec<(String, String)> = Vec::new();
    let mut i: usize = 0;
    proof {
        assert(dv.subrange(0, 0) =~= Seq::<(Seq<char>, Seq<char>)>::empty());
        assert(out.deep_view() =~= Seq::<(Seq<char>, Seq<char>)>::empty());
        assert(Seq::<(Seq<char>, Seq<char>)>::empty().to_multiset() =~= dv.subrange(
            0,
            0,
        ).to_multiset());
    }
    while i < v.len()
        invariant
            i <= v@.len(),
            dv == v.deep_view(),
            dv.len() == v@.len(),
            total_ordering(leq),
            leq == id_leq_f(),
            sorted_by(out.deep_view(), leq),
            out.deep_view().to_multiset() == dv.subrange(0, i as int).to_multiset(),
        decreases v@.len() - i,
    {
        let x: (String, String) = (v[i].0.clone(), v[i].1.clone());
        let ghost dx = (x.0@, x.1@);
        proof {
            assert(dv[i as int] == (v@[i as int].0@, v@[i as int].1@));
            assert(dx == dv[i as int]);
        }
        let ghost outdeep = out.deep_view();
        let mut j: usize = 0;
        let mut searching = true;
        while searching && j < out.len()
            invariant
                j <= out@.len(),
                dx == (x.0@, x.1@),
                outdeep == out.deep_view(),
                outdeep.len() == out@.len(),
                leq == id_leq_f(),
                forall|k: int| 0 <= k < j ==> #[trigger] leq(outdeep[k], dx),
                !searching ==> j < out@.len() && !leq(outdeep[j as int], dx),
            decreases out@.len() - j + (if searching {
                1int
            } else {
                0int
            }),
        {
            proof {
                assert(outdeep[j as int] == (out@[j as int].0@, out@[j as int].1@));
            }
            if pair_leq_exec(&out[j], &x) {
                j += 1;
            } else {
                searching = false;
            }
        }
        let ghost jj = j as int;
        proof {
            assert(jj == out@.len() || !leq(outdeep[jj], dx));
        }
        out.insert(j, x);
        proof {
            broadcast use vstd::seq_lib::to_multiset_build;
            broadcast use vstd::seq_lib::to_multiset_insert;

            let newdeep = out.deep_view();
            assert(newdeep =~= outdeep.insert(jj, dx));
            outdeep.insert_ensures(jj, dx);
            if jj < outdeep.len() {
                assert(leq(dx, outdeep[jj]));
            }
            assert forall|p: int, q: int| 0 <= p < q < newdeep.len() implies #[trigger] leq(
                newdeep[p],
                newdeep[q],
            ) by {
                if q < jj {
                    assert(newdeep[p] == outdeep[p] && newdeep[q] == outdeep[q]);
                } else if p < jj && q == jj {
                    assert(newdeep[p] == outdeep[p] && newdeep[q] == dx);
                } else if p < jj && q > jj {
                    assert(newdeep[p] == outdeep[p] && newdeep[q] == outdeep[q - 1]);
                } else if p == jj {
                    assert(newdeep[p] == dx && newdeep[q] == outdeep[q - 1]);
                    assert(leq(dx, outdeep[jj]));
                    if q - 1 > jj {
                        assert(leq(outdeep[jj], outdeep[q - 1]));
                    }
                } else {
                    assert(newdeep[p] == outdeep[p - 1] && newdeep[q] == outdeep[q - 1]);
                }
            }
            assert(sorted_by(newdeep, leq));
            assert(newdeep.to_multiset() =~= outdeep.to_multiset().insert(dx));
            assert(dv.subrange(0, i + 1) =~= dv.subrange(0, i as int).push(dx));
            assert(dv.subrange(0, i + 1).to_multiset() =~= dv.subrange(
                0,
                i as int,
            ).to_multiset().insert(dx));
        }
        i += 1;
    }
    proof {
        assert(dv.subrange(0, dv.len() as int) =~= dv);
        dv.lemma_sort_by_ensures(leq);
        lemma_sorted_unique(out.deep_view(), dv.sort_by(leq), leq);
    }
    out
}

/// Law: identifier maps holding the same pairs sort to the same sequence,
/// whatever order they arrived in.
pub proof fn lemma_sort_order_independent(
    a: Seq<(Seq<char>, Seq<char>)>,
    b: Seq<(Seq<char>, Seq<char>)>,
)
    requires
        a.to_multiset() == b.to_multiset(),
    ensures
        a.sort_by(id_leq_f()) == b.sort_by(id_leq_f()),
{
    let leq = id_leq_f();
    lemma_id_leq_total();
    a.lemma_sort_by_ensures(leq);
    b.lemma_sort_by_ensures(leq);
    lemma_sorted_unique(a.sort_by(leq), b.sort_by(leq), leq);
}

// ---------------------------------------------------------------------------
// Hashing.
// ---------------------------------------------------------------------------

pub open spec fn hex_digit(d: int) -> char {
    if d == 0 {
        '0'
    } else if d == 1 {
        '1'
    } else if d == 2 {
        '2'
    } else if d == 3 {
        '3'
    } else if d == 4 {
        '4'
    } else if d == 5 {
        '5'
    } else if d == 6 {
        '6'
    } else if d == 7 {
        '7'
    } else if d == 8 {
        '8'
    } else if d == 9 {
        '9'
    } else if d == 10 {
        'a'
    } else if d == 11 {
        'b'
    } else if d == 12 {
        'c'
    } else if d == 13 {
        'd'
    } else if d == 14 {
        'e'
    } else {
        'f'
    }
}

fn hex_digit_exec(d: u8) -> (c: char)
    requires
        d < 16,
    ensures
        c == hex_digit(d as int),
{
    if d == 0 {
        '0'
    } else if d == 1 {
        '1'
    } else if d == 2 {
        '2'
    } else if d == 3 {
        '3'
    } else if d == 4 {
        '4'
    } else if d == 5 {
        '5'
    } else if d == 6 {
        '6'
    } else if d == 7 {
        '7'
    } else if d == 8 {
        '8'
    } else if d == 9 {
        '9'
    } else if d == 10 {
        'a'
    } else if d == 11 {
        'b'
    } else if d == 12 {
        'c'
    } else if d == 13 {
        'd'
    } else if d == 14 {
        'e'
    } else {
        'f'
    }
}

/// The lower-case hex text of the bytes.
pub open spec fn hex_of(bytes: Seq<u8>) -> Seq<char>
    decreases bytes.len(),
{
    if bytes.len() == 0 {
        Seq::<char>::empty()
    } else {
        hex_of(bytes.drop_last()) + seq![
            hex_digit(bytes.last() as int / 16),
            hex_digit(bytes.last() as int % 16),
        ]
    }
}

/// The hex text is two characters per byte.
pub proof fn lemma_hex_len(bytes: Seq<u8>)
    ensures
        hex_of(bytes).len() == 2 * bytes.len(),
    decreases bytes.len(),
{
    if bytes.len() > 0 {
        lemma_hex_len(bytes.drop_last());
    }
}

fn to_hex(bytes: &Vec<u8>) -> (r: String)
    ensures
        r@ == hex_of(bytes@),
{
    let mut r = String::new();
    let mut i: usize = 0;
    proof {
        assert(bytes@.subrange(0, 0) =~= Seq::<u8>::empty());
        assert(r@ =~= hex_of(bytes@.subrange(0, 0)));
    }
    while i < bytes.len()
        invariant
            i <= bytes@.len(),
            r@ == hex_of(bytes@.subrange(0, i as int)),
        decreases bytes@.len() - i,
    {
        let b = bytes[i];
        push_char(&mut r, hex_digit_exec(b / 16));
        push_char(&mut r, hex_digit_exec(b % 16));
        i += 1;
        proof {
            let pre = bytes@.subrange(0, i as int);
            assert(pre.drop_last() =~= bytes@.subrange(0, i - 1 as int));
            assert(pre.last() == bytes@[i - 1]);
            assert(r@ =~= hex_of(pre));
        }
    }
    proof {
        assert(bytes@.subrange(0, bytes@.len() as int) =~= bytes@);
    }
    r
}

/// The digest of the given bytes; the same bytes always give the same
/// digest.
pub uninterp spec fn sha256_of(data: Seq<u8>) -> Seq<u8>;

/// Relies on sha2's Sha256: a 32-byte digest computed from the input bytes
/// alone.
#[verifier::external_body]
fn sha256_digest(data: &[u8]) -> (r: Vec<u8>)
    ensures
        r@ == sha256_of(data@),
        r@.len() == 32,
{
    sha2::Sha256::digest(data).to_vec()
}

// ---------------------------------------------------------------------------
// The canonical snapshot text.
// ---------------------------------------------------------------------------

pub open spec fn bool_text(b: bool) -> Seq<char> {
    if b {
        seq!['t', 'r', 'u', 'e']
    } else {
        seq!['f', 'a', 'l', 's', 'e']
    }
}

pub open spec fn quoted_list_from(l: Seq<Seq<char>>, i: int) -> Seq<char>
    decreases l.len() - i,
{
    if 0 <= i < l.len() {
        (if i > 0 {
            seq![',']
        } else {
            Seq::<char>::empty()
        }) + quoted(l[i]) + quoted_list_from(l, i + 1)
    } else {
        Seq::<char>::empty()
    }
}

/// A list of strings as a canonical array.
pub open spec fn strlist_text(l: Seq<Seq<char>>) -> Seq<char> {
    seq!['['] + quoted_list_from(l, 0) + seq![']']
}

pub open spec fn idpairs_from(m: Seq<(Seq<char>, Seq<char>)>, i: int) -> Seq<char>
    decreases m.len() - i,
{
    if 0 <= i < m.len() {
        (if i > 0 {
            seq![',']
        } else {
            Seq::<char>::empty()
        }) + quoted(m[i].0) + seq![':'] + quoted(m[i].1) + idpairs_from(m, i + 1)
    } else {
        Seq::<char>::empty()
    }
}

/// An identifier map as a canonical object, pairs in sorted order.
pub open spec fn idmap_text(ids: Seq<(Seq<char>, Seq<char>)>) -> Seq<char> {
    seq!['{'] + idpairs_from(ids.sort_by(id_leq_f()), 0) + seq!['}']
}

/// The canonical text of a snapshot: one object whose keys stand in a
/// fixed alphabetical order.
pub open spec fn snapshot_text(snap: Snapshot) -> Seq<char> {
    seq!['{'] + quoted("authors"@) + seq![':'] + strlist_text(snap.authors.deep_view()) + seq![',']
        + quoted("comments_present"@) + seq![':'] + bool_text(snap.comments_present) + seq![',']
        + quoted("cover_present"@) + seq![':'] + bool_text(snap.cover_present) + seq![','] + quoted(
        "identifiers"@,
    ) + seq![':'] + idmap_text(snap.identifiers.deep_view()) + seq![','] + quoted("isbn"@)
        + seq![':'] + quoted(snap.isbn@) + seq![','] + quoted("languages"@) + seq![':']
        + strlist_text(snap.languages.deep_view()) + seq![','] + quoted("pubdate"@) + seq![':']
        + quoted(snap.pubdate@) + seq![','] + quoted("publisher"@) + seq![':'] + quoted(
        snap.publisher@,
    ) + seq![','] + quoted("tags"@) + seq![':'] + strlist_text(snap.tags.deep_view()) + seq![',']
        + quoted("title"@) + seq![':'] + quoted(snap.title@) + seq!['}']
}

fn write_quoted(s: &str, out: &mut String)
    ensures
        final(out)@ == old(out)@ + quoted(s@),
{
    push_char(out, '"');
    crate::json::write_escaped(s, out);
    push_char(out, '"');
    proof {
        assert((old(out)@.push('"') + escaped(s@)).push('"') =~= old(out)@ + quoted(s@));
    }
}

fn write_bool(b: bool, out: &mut String)
    ensures
        final(out)@ == old(out)@ + bool_text(b),
{
    if b {
        push_char(out, 't');
        push_char(out, 'r');
        push_char(out, 'u');
        push_char(out, 'e');
        proof {
            assert(old(out)@.push('t').push('r').push('u').push('e') =~= old(out)@ + bool_text(b));
        }
    } else {
        push_char(out, 'f');
        push_char(out, 'a');
        push_char(out, 'l');
        push_char(out, 's');
        push_char(out, 'e');
        proof {
            assert(old(out)@.push('f').push('a').push('l').push('s').push('e') =~= old(out)@
                + bool_text(b));
        }
    }
}

fn write_strlist(l: &Vec<String>, out: &mut String)
    ensures
        final(out)@ == old(out)@ + strlist_text(l.deep_view()),
{
    let ghost deep = l.deep_view();
    push_char(out, '[');
    let ghost start = out@;
    proof {
        assert(start =~= old(out)@ + seq!['[']);
    }
    let mut i: usize = 0;
    while i < l.len()
        invariant
            i <= l@.len(),
            deep == l.deep_view(),
            deep.len() == l@.len(),
            out@ + quoted_list_from(deep, i as int) == start + quoted_list_from(deep, 0),
            start == old(out)@ + seq!['['],
        decreases l@.len() - i,
    {
        let ghost before = out@;
        if i > 0 {
            push_char(out, ',');
        }
        write_quoted(l[i].as_str(), out);
        proof {
            assert(deep[i as int] == l@[i as int]@);
            let lead: Seq<char> = if i > 0 {
                seq![',']
            } else {
                Seq::<char>::empty()
            };
            assert(out@ =~= before + lead + quoted(deep[i as int]));
            assert(quoted_list_from(deep, i as int) =~= lead + quoted(deep[i as int])
                + quoted_list_from(deep, i + 1));
            assert(out@ + quoted_list_from(deep, i + 1) =~= before + quoted_list_from(
                deep,
                i as int,
            ));
        }
        i += 1;
    }
    push_char(out, ']');
    proof {
        assert(quoted_list_from(deep, deep.len() as int) =~= Seq::<char>::empty());
        assert(out@ =~= old(out)@ + strlist_text(deep));
    }
}

fn write_idpairs(pairs: &Vec<(String, String)>, out: &mut String)
    ensures
        final(out)@ == old(out)@ + seq!['{'] + idpairs_from(pairs.deep_view(), 0) + seq!['}'],
{
    let ghost deep = pairs.deep_view();
    push_char(out, '{');
    let ghost start = out@;
    proof {
        assert(start =~= old(out)@ + seq!['{']);
    }
    let mut i: usize = 0;
    while i < pairs.len()
        invariant
            i <= pairs@.len(),
            deep == pairs.deep_view(),
            deep.len() == pairs@.len(),
            out@ + idpairs_from(deep, i as int) == start + idpairs_from(deep, 0),
            start == old(out)@ + seq!['{'],
        decreases pairs@.len() - i,
    {
        let ghost before = out@;
        if i > 0 {
            push_char(out, ',');
        }
        write_quoted(pairs[i].0.as_str(), out);
        push_char(out, ':');
        write_quoted(pairs[i].1.as_str(), out);
        proof {
            assert(deep[i as int] == (pairs@[i as int].0@, pairs@[i as int].1@));
            let lead: Seq<char> = if i > 0 {
                seq![',']
            } else {
                Seq::<char>::empty()
            };
            assert(out@ =~= before + lead + quoted(deep[i as int].0) + seq![':'] + quoted(
                deep[i as int].1,
            ));
            assert(idpairs_from(deep, i as int) =~= lead + quoted(deep[i as int].0) + seq![':']
                + quoted(deep[i as int].1) + idpairs_from(deep, i + 1));
            assert(out@ + idpairs_from(deep, i + 1) =~= before + idpairs_from(deep, i as int));
        }
        i += 1;
    }
    push_char(out, '}');
    proof {
        assert(idpairs_from(deep, deep.len() as int) =~= Seq::<char>::empty());
        assert(out@ =~= old(out)@ + seq!['{'] + idpairs_from(deep, 0) + seq!['}']);
    }
}

/// The canonical text of the snapshot.
#[verifier::rlimit(100)]
pub fn snapshot_canonical(snap: &Snapshot) -> (r: String)
    ensures
        r@ == snapshot_text(*snap),
{
    let mut out = String::new();
    push_char(&mut out, '{');
    write_quoted("authors", &mut out);
    push_char(&mut out, ':');
    write_strlist(&snap.authors, &mut out);
    push_char(&mut out, ',');
    proof {
        assert(out@ =~= seq!['{'] + quoted("authors"@) + seq![':'] + strlist_text(
            snap.authors.deep_view(),
        ) + seq![',']);
    }
    let ghost part1 = out@;
    write_quoted("comments_present", &mut out);
    push_char(&mut out, ':');
    write_bool(snap.comments_present, &mut out);
    push_char(&mut out, ',');
    write_quoted("cover_present", &mut out);
    push_char(&mut out, ':');
    write_bool(snap.cover_present, &mut out);
    push_char(&mut out, ',');
    proof {
        assert(out@ =~= part1 + quoted("comments_present"@) + seq![':'] + bool_text(
            snap.comments_present,
        ) + seq![','] + quoted("cover_present"@) + seq![':'] + bool_text(snap.cover_present)
            + seq![',']);
    }
    let ghost part2 = out@;
    write_quoted("identifiers", &mut out);
    push_char(&mut out, ':');
    let sorted = sort_identifier_pairs(&snap.identifiers);
    write_idpairs(&sorted, &mut out);
    push_char(&mut out, ',');
    write_quoted("isbn", &mut out);
    push_char(&mut out, ':');
    write_quoted(snap.isbn.as_str(), &mut out);
    push_char(&mut out, ',');
    proof {
        assert(seq!['{'] + idpairs_from(sorted.deep_view(), 0) + seq!['}'] =~= idmap_text(
            snap.identifiers.deep_view(),
        ));
        assert(out@ =~= part2 + quoted("identifiers"@) + seq![':'] + idmap_text(
            snap.identifiers.deep_view(),
        ) + seq![','] + quoted("isbn"@) + seq![':'] + quoted(snap.isbn@) + seq![',']);
    }
    let ghost part3 = out@;
    write_quoted("languages", &mut out);
    push_char(&mut out, ':');
    write_strlist(&snap.languages, &mut out);
    push_char(&mut out, ',');
    write_quoted("pubdate", &mut out);
    push_char(&mut out, ':');
    write_quoted(snap.pubdate.as_str(), &mut out);
    push_char(&mut out, ',');
    proof {
        assert(out@ =~= part3 + quoted("languages"@) + seq![':'] + strlist_text(
            snap.languages.deep_view(),
        ) + seq![','] + quoted("pubdate"@) + seq![':'] + quoted(snap.pubdate@) + seq![',']);
    }
    let ghost part4 = out@;
    write_quoted("publisher", &mut out);
    push_char(&mut out, ':');
    write_quoted(snap.publisher.as_str(), &mut out);
    push_char(&mut out, ',');
    write_quoted("tags", &mut out);
    push_char(&mut out, ':');
    write_strlist(&snap.tags, &mut out);
    push_char(&mut out, ',');
    write_quoted("title", &mut out);
    push_char(&mut out, ':');
    write_quoted(snap.title.as_str(), &mut out);
    push_char(&mut out, '}');
    proof {
        assert(out@ =~= part4 + quoted("publisher"@) + seq![':'] + quoted(snap.publisher@)
            + seq![','] + quoted("tags"@) + seq![':'] + strlist_text(snap.tags.deep_view())
            + seq![','] + quoted("title"@) + seq![':'] + quoted(snap.title@) + seq!['}']);
        assert(out@ =~= snapshot_text(*snap));
    }
    out
}

/// The fingerprint of a snapshot: the digest of its canonical text, in
/// hex.
pub open spec fn fingerprint_spec(snap: Snapshot) -> Seq<char> {
    hex_of(sha256_of(vstd::utf8::encode_utf8(snapshot_text(snap))))
}

/// Hashes the canonical text of the snapshot; the fingerprint is always
/// sixty-four hex characters.
pub fn snapshot_hash(snap: &Snapshot) -> (r: String)
    ensures
        r@ == fingerprint_spec(*snap),
        r@.len() == 64,
{
    let text = snapshot_canonical(snap);
    let digest = sha256_digest(text.as_str().as_bytes());
    proof {
        lemma_hex_len(digest@);
    }
    to_hex(&digest)
}

/// Law: the fingerprint depends only on the snapshot's normalized
/// content; in particular the order in which identifier pairs were
/// collected never changes it.
pub proof fn lemma_fingerprint_deterministic(a: Snapshot, b: Snapshot)
    requires
        a.title@ == b.title@,
        a.authors.deep_view() == b.authors.deep_view(),
        a.publisher@ == b.publisher@,
        a.pubdate@ == b.pubdate@,
        a.languages.deep_view() == b.languages.deep_view(),
        a.isbn@ == b.isbn@,
        a.identifiers.deep_view().to_multiset() == b.identifiers.deep_view().to_multiset(),
        a.tags.deep_view() == b.tags.deep_view(),
        a.comments_present == b.comments_present,
        a.cover_present == b.cover_present,
    ensures
        fingerprint_spec(a) == fingerprint_spec(b),
{
    lemma_sort_order_independent(a.identifiers.deep_view(), b.identifiers.deep_view());
}

} // verus!
