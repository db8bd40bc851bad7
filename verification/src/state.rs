//! The durable per-item state store: one record per catalog item, plus
//! the container that is loaded once, mutated per item, and persisted
//! after every transition.  Reading and writing the file itself happens
//! outside the library; the records arrive and leave as plain values.

use vstd::prelude::*;
use vstd::string::StringExecFns;

verus! {

/// The processing status of one item.
#[derive(Clone, Copy, Debug, PartialEq, Eq, Structural)]
pub enum Status {
    Started,
    Done,
    EmbeddedOnly,
    Skipped,
    Failed,
    FailedPermanent,
}

/// A resting status is one a future run may treat as already handled.
pub open spec fn is_resting(s: Status) -> bool {
    s == Status::Done || s == Status::Skipped || s == Status::EmbeddedOnly || s
        == Status::FailedPermanent
}

pub fn status_is_resting(s: Status) -> (r: bool)
    ensures
        r == is_resting(s),
{
    match s {
        Status::Done => true,
        Status::Skipped => true,
        Status::EmbeddedOnly => true,
        Status::FailedPermanent => true,
        _ => false,
    }
}

/// The text under which each status is stored.
pub open spec fn status_text_spec(s: Status) -> Seq<char> {
    match s {
        Status::Started => "started"@,
        Status::Done => "done"@,
        Status::EmbeddedOnly => "embedded_only"@,
        Status::Skipped => "skipped_good_enough"@,
        Status::Failed => "failed"@,
        Status::FailedPermanent => "failed_permanent"@,
    }
}

pub fn status_text(s: Status) -> (r: String)
    ensures
        r@ == status_text_spec(s),
{
    match s {
        Status::Started => String::from_str("started"),
        Status::Done => String::from_str("done"),
        Status::EmbeddedOnly => String::from_str("embedded_only"),
        Status::Skipped => String::from_str("skipped_good_enough"),
        Status::Failed => String::from_str("failed"),
        Status::FailedPermanent => String::from_str("failed_permanent"),
    }
}

/// What a stored status text reads back as: any unknown text reads as
/// `Started`, so it is never mistaken for a resting state.
pub open spec fn parse_status_spec(s: Seq<char>) -> Status {
    if s == status_text_spec(Status::Done) {
        Status::Done
    } else if s == status_text_spec(Status::EmbeddedOnly) {
        Status::EmbeddedOnly
    } else if s == status_text_spec(Status::Skipped) {
        Status::Skipped
    } else if s == status_text_spec(Status::Failed) {
        Status::Failed
    } else if s == status_text_spec(Status::FailedPermanent) {
        Status::FailedPermanent
    } else {
        Status::Started
    }
}

/// Law: a stored status text always reads back as the status it was
/// written for.
pub proof fn lemma_status_text_roundtrip(st: Status)
    ensures
        parse_status_spec(status_text_spec(st)) == st,
{
    reveal_strlit("started");
    reveal_strlit("done");
    reveal_strlit("embedded_only");
    reveal_strlit("skipped_good_enough");
    reveal_strlit("failed");
    reveal_strlit("failed_permanent");
    match st {
        Status::Started => {
            assert(status_text_spec(st).len() == 7);
        },
        Status::Done => {
            assert(status_text_spec(st).len() == 4);
        },
        Status::EmbeddedOnly => {
            assert(status_text_spec(st).len() == 13);
        },
        Status::Skipped => {
            assert(status_text_spec(st).len() == 19);
        },
        Status::Failed => {
            assert(status_text_spec(st).len() == 6);
        },
        Status::FailedPermanent => {
            assert(status_text_spec(st).len() == 16);
        },
    }
}

/// Reads a stored status text back.
pub fn parse_status(s: &str) -> (r: Status)
    ensures
        r == parse_status_spec(s@),
{
    proof {
        reveal_strlit("started");
        reveal_strlit("done");
        reveal_strlit("embedded_only");
        reveal_strlit("skipped_good_enough");
        reveal_strlit("failed");
        reveal_strlit("failed_permanent");
    }
    if crate::strutil::str_eq(s, "done") {
        Status::Done
    } else if crate::strutil::str_eq(s, "embedded_only") {
        Status::EmbeddedOnly
    } else if crate::strutil::str_eq(s, "skipped_good_enough") {
        Status::Skipped
    } else if crate::strutil::str_eq(s, "failed") {
        Status::Failed
    } else if crate::strutil::str_eq(s, "failed_permanent") {
        Status::FailedPermanent
    } else {
        Status::Started
    }
}

/// One item's last-known processing record.
pub struct BookState {
    pub status: Status,
    pub last_hash: String,
    pub last_attempt_utc: String,
    pub last_ok_utc: Option<String>,
    pub message: Option<String>,
    pub fail_count: i32,
}

fn clone_opt_string(s: &Option<String>) -> (r: Option<String>)
    ensures
        r == *s,
{
    match s {
        Some(x) => Some(x.clone()),
        None => None,
    }
}

/// A field-for-field copy of a record.
pub fn copy_book_state(bs: &BookState) -> (r: BookState)
    ensures
        r == *bs,
{
    BookState {
        status: bs.status,
        last_hash: bs.last_hash.clone(),
        last_attempt_utc: bs.last_attempt_utc.clone(),
        last_ok_utc: clone_opt_string(&bs.last_ok_utc),
        message: clone_opt_string(&bs.message),
        fail_count: bs.fail_count,
    }
}

/// The durable container: a format version, a last-updated stamp, and the
/// records keyed by item id.
pub struct StateFile {
    pub version: i32,
    pub updated_at_utc: Option<String>,
    pub books: Vec<(i64, BookState)>,
}

/// The record under the first entry with the given id.
pub open spec fn book_lookup(books: Seq<(i64, BookState)>, id: int) -> Option<BookState>
    decreases books.len(),
{
    if books.len() == 0 {
        None
    } else if books[0].0 == id {
        Some(books[0].1)
    } else {
        book_lookup(books.drop_first(), id)
    }
}

/// An empty, version-1 store.
pub fn empty_state() -> (r: StateFile)
    ensures
        r.version == 1,
        r.updated_at_utc is None,
        r.books@.len() == 0,
{
    StateFile { version: 1, updated_at_utc: None, books: Vec::new() }
}

/// A pre-versioning store reads as version 1; nothing else changes.
pub fn upgrade_state_version(state: &mut StateFile)
    ensures
        final(state).version == (if old(state).version == 0 {
            1int
        } else {
            old(state).version as int
        }),
        final(state).updated_at_utc == old(state).updated_at_utc,
        final(state).books == old(state).books,
{
    if state.version == 0 {
        state.version = 1;
    }
}

/// The record last stored for the item, if any.
pub fn get_book_state(state: &StateFile, book_id: i64) -> (r: Option<BookState>)
    ensures
        r == book_lookup(state.books@, book_id as int),
{
    let mut i: usize = 0;
    proof {
        assert(state.books@.skip(0) =~= state.books@);
    }
    while i < state.books.len()
        invariant
            i <= state.books@.len(),
            book_lookup(state.books@, book_id as int) == book_lookup(
                state.books@.skip(i as int),
                book_id as int,
            ),
        decreases state.books@.len() - i,
    {
        proof {
            assert(state.books@.skip(i as int)[0] == state.books@[i as int]);
            assert(state.books@.skip(i as int).drop_first() =~= state.books@.skip(i + 1));
        }
        if state.books[i].0 == book_id {
            return Some(copy_book_state(&state.books[i].1));
        }
        i += 1;
    }
    proof {
        assert(state.books@.skip(state.books@.len() as int)
            =~= Seq::<(i64, BookState)>::empty());
    }
    None
}

proof fn lemma_book_lookup_found(books: Seq<(i64, BookState)>, id: int, i: int)
    requires
        0 <= i < books.len(),
        books[i].0 == id,
        forall|j: int| 0 <= j < i ==> (#[trigger] books[j]).0 != id,
    ensures
        book_lookup(books, id) == Some(books[i].1),
    decreases books.len(),
{
    if i > 0 {
        lemma_book_lookup_found(books.drop_first(), id, i - 1);
    }
}

proof fn lemma_book_lookup_none(books: Seq<(i64, BookState)>, id: int)
    requires
        forall|j: int| 0 <= j < books.len() ==> (#[trigger] books[j]).0 != id,
    ensures
        book_lookup(books, id) is None,
    decreases books.len(),
{
    if books.len() > 0 {
        lemma_book_lookup_none(books.drop_first(), id);
    }
}

proof fn lemma_book_lookup_update(books: Seq<(i64, BookState)>, i: int, id: i64, bs: BookState)
    requires
        0 <= i < books.len(),
        books[i].0 == id,
        forall|j: int| 0 <= j < i ==> (#[trigger] books[j]).0 != id,
    ensures
        book_lookup(books.update(i, (id, bs)), id as int) == Some(bs),
        forall|id2: int|
            id2 != id as int ==> book_lookup(books.update(i, (id, bs)), id2) == book_lookup(
                books,
                id2,
            ),
    decreases books.len(),
{
    let upd = books.update(i, (id, bs));
    if i == 0 {
        assert(upd[0] == (id, bs));
        assert(upd.drop_first() =~= books.drop_first());
        assert forall|id2: int| id2 != id as int implies book_lookup(upd, id2) == book_lookup(
            books,
            id2,
        ) by {
            assert(book_lookup(upd, id2) == book_lookup(upd.drop_first(), id2));
        }
    } else {
        assert((books[0]).0 != id);
        assert forall|j: int| 0 <= j < i - 1 implies (#[trigger] books.drop_first()[j]).0
            != id by {
            assert(books.drop_first()[j] == books[j + 1]);
        }
        lemma_book_lookup_update(books.drop_first(), i - 1, id, bs);
        assert(upd.drop_first() =~= books.drop_first().update(i - 1, (id, bs)));
        assert(upd[0] == books[0]);
        assert(book_lookup(upd, id as int) == book_lookup(upd.drop_first(), id as int));
        assert forall|id2: int| id2 != id as int implies book_lookup(upd, id2) == book_lookup(
            books,
            id2,
        ) by {
            if books[0].0 == id2 {
            } else {
                assert(book_lookup(upd, id2) == book_lookup(upd.drop_first(), id2));
                assert(book_lookup(books, id2) == book_lookup(books.drop_first(), id2));
            }
        }
    }
}

proof fn lemma_book_lookup_push(books: Seq<(i64, BookState)>, id: i64, bs: BookState)
    requires
        forall|j: int| 0 <= j < books.len() ==> (#[trigger] books[j]).0 != id,
    ensures
        book_lookup(books.push((id, bs)), id as int) == Some(bs),
        forall|id2: int|
            id2 != id as int ==> book_lookup(books.push((id, bs)), id2) == book_lookup(
                books,
                id2,
            ),
    decreases books.len(),
{
    let p = books.push((id, bs));
    if books.len() == 0 {
        assert(p[0] == (id, bs));
        assert(p.drop_first() =~= Seq::<(i64, BookState)>::empty());
        assert forall|id2: int| id2 != id as int implies book_lookup(p, id2) == book_lookup(
            books,
            id2,
        ) by {
            assert(book_lookup(p, id2) == book_lookup(p.drop_first(), id2));
        }
    } else {
        assert forall|j: int| 0 <= j < books.len() - 1 implies (#[trigger] books.drop_first()[j]).0
            != id by {
            assert(books.drop_first()[j] == books[j + 1]);
        }
        lemma_book_lookup_push(books.drop_first(), id, bs);
        assert(p[0] == books[0]);
        assert(p.drop_first() =~= books.drop_first().push((id, bs)));
        assert((books[0]).0 != id);
        assert(book_lookup(p, id as int) == book_lookup(p.drop_first(), id as int));
        assert forall|id2: int| id2 != id as int implies book_lookup(p, id2) == book_lookup(
            books,
            id2,
        ) by {
            if books[0].0 == id2 {
            } else {
                assert(book_lookup(p, id2) == book_lookup(p.drop_first(), id2));
                assert(book_lookup(books, id2) == book_lookup(books.drop_first(), id2));
            }
        }
    }
}

/// Stores the record under the item id, replacing any earlier one; every
/// other item's record is untouched.
pub fn put_book_state(state: &mut StateFile, book_id: i64, bs: BookState)
    ensures
        book_lookup(final(state).books@, book_id as int) == Some(bs),
        forall|id2: int|
            id2 != book_id as int ==> book_lookup(final(state).books@, id2) == book_lookup(
                old(state).books@,
                id2,
            ),
        final(state).version == old(state).version,
        final(state).updated_at_utc == old(state).updated_at_utc,
{
    let ghost books0 = state.books@;
    let mut i: usize = 0;
    while i < state.books.len()
        invariant
            i <= state.books@.len(),
            state.books@ == books0,
            state.version == old(state).version,
            state.updated_at_utc == old(state).updated_at_utc,
            books0 == old(state).books@,
            forall|j: int| 0 <= j < i ==> (#[trigger] books0[j]).0 != book_id,
        decreases state.books@.len() - i,
    {
        if state.books[i].0 == book_id {
            proof {
                lemma_book_lookup_update(books0, i as int, book_id, bs);
            }
            state.books[i] = (book_id, bs);
            return ;
        }
        i += 1;
    }
    proof {
        lemma_book_lookup_push(books0, book_id, bs);
    }
    state.books.push((book_id, bs));
}

// ---------------------------------------------------------------------------
// The clock.
// ---------------------------------------------------------------------------

/// Relies on chrono's Utc::now and to_rfc3339: the wall-clock time as an
/// RFC 3339 stamp.  Nothing is promised of the value; callers treat it as
/// an arbitrary stamp.
#[verifier::external_body]
pub fn now_iso() -> (r: String) {
    chrono::Utc::now().to_rfc3339()
}

} // verus!
