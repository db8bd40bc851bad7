//! The duplicate-file scanner's verified core: which directory entries are
//! candidates, and how hashed files are grouped and ordered.  Walking the
//! tree, reading files and hashing their contents happen outside the
//! library; the results arrive here as plain records.

use vstd::prelude::*;
use vstd::relations::{sorted_by, total_ordering, transitive, strongly_connected};
use vstd::seq_lib::lemma_sorted_unique;
use crate::strutil::{
    lex_leq, lemma_lex_refl, lemma_lex_antisym, lemma_lex_trans, lemma_lex_connected, str_eq,
    str_leq,
};

verus! {

/// How the duplicate report is rendered.
#[derive(Clone, Copy, Debug, PartialEq, Eq, Structural)]
pub enum OutputFormat {
    Text,
    Json,
}

/// Arguments of the duplicate scan, as plain values.
pub struct DupsArgs {
    pub library: Option<String>,
    pub output: Option<OutputFormat>,
    pub out: Option<String>,
    pub ext: Vec<String>,
    pub follow_symlinks: bool,
    pub threads: usize,
    pub min_size: u64,
    pub include_sidecars: bool,
}

/// The resolved settings of one scan.
pub struct DupsSettings {
    pub output: OutputFormat,
    pub out: Option<String>,
    pub ext: Vec<String>,
    pub follow_symlinks: bool,
    pub threads: usize,
    pub min_size: u64,
    pub include_sidecars: bool,
}

// ---------------------------------------------------------------------------
// Candidate selection.
// ---------------------------------------------------------------------------

/// The sidecar files the scan may include.
pub open spec fn is_sidecar_spec(name: Seq<char>) -> bool {
    name == "metadata.opf"@ || name == "cover.jpg"@ || name == "cover.jpeg"@ || name
        == "cover.png"@
}

pub fn is_sidecar(name: &str) -> (r: bool)
    ensures
        r == is_sidecar_spec(name@),
{
    str_eq(name, "metadata.opf") || str_eq(name, "cover.jpg") || str_eq(name, "cover.jpeg")
        || str_eq(name, "cover.png")
}

/// The position of the last dot of a file name, ignoring one leading dot.
pub open spec fn last_dot_at(name: Seq<char>, i: int) -> bool {
    0 < i < name.len() && name[i] == '.' && (forall|j: int| i < j < name.len() ==> name[j] != '.')
}

/// The file name's extension: the text after the last dot, where that dot
/// is not the leading character.
pub open spec fn ext_of(name: Seq<char>) -> Option<Seq<char>> {
    if exists|i: int| last_dot_at(name, i) {
        Some(name.skip((choose|i: int| last_dot_at(name, i)) + 1))
    } else {
        None
    }
}

/// One character as ASCII case folding maps it: each upper-case letter
/// moves to its lower-case form, every other character is unchanged.
#[verifier::opaque]
pub open spec fn ascii_lower_char(c: char) -> char {
    if c == 'A' {
        'a'
    } else if c == 'B' {
        'b'
    } else if c == 'C' {
        'c'
    } else if c == 'D' {
        'd'
    } else if c == 'E' {
        'e'
    } else if c == 'F' {
        'f'
    } else if c == 'G' {
        'g'
    } else if c == 'H' {
        'h'
    } else if c == 'I' {
        'i'
    } else if c == 'J' {
        'j'
    } else if c == 'K' {
        'k'
    } else if c == 'L' {
        'l'
    } else if c == 'M' {
        'm'
    } else if c == 'N' {
        'n'
    } else if c == 'O' {
        'o'
    } else if c == 'P' {
        'p'
    } else if c == 'Q' {
        'q'
    } else if c == 'R' {
        'r'
    } else if c == 'S' {
        's'
    } else if c == 'T' {
        't'
    } else if c == 'U' {
        'u'
    } else if c == 'V' {
        'v'
    } else if c == 'W' {
        'w'
    } else if c == 'X' {
        'x'
    } else if c == 'Y' {
        'y'
    } else if c == 'Z' {
        'z'
    } else {
        c
    }
}

/// The text with every ASCII upper-case letter lowered.
#[verifier::opaque]
pub open spec fn ascii_lower_of(s: Seq<char>) -> Seq<char> {
    Seq::new(s.len(), |i: int| ascii_lower_char(s[i]))
}

/// Relies on str::to_ascii_lowercase: maps exactly the ASCII upper-case
/// letters to their lower-case forms and leaves every other character as
/// it is.
#[verifier::external_body]
fn ascii_lower_str(s: &str) -> (r: String)
    ensures
        r@ == ascii_lower_of(s@),
{
    s.to_ascii_lowercase()
}

/// The file name's extension, if any.
pub fn file_ext(name: &str) -> (r: Option<String>)
    ensures
        match r {
            Some(e) => ext_of(name@) == Some(e@),
            None => ext_of(name@) is None,
        },
{
    let n = name.unicode_len();
    let mut j: usize = n;
    while j > 0 && name.get_char(j - 1) != '.'
        invariant
            j <= n,
            n == name@.len(),
            forall|k: int| j <= k < n ==> name@[k] != '.',
        decreases j,
    {
        j -= 1;
    }
    if j <= 1 {
        proof {
            if exists|i: int| last_dot_at(name@, i) {
                let i = choose|i: int| last_dot_at(name@, i);
                assert(name@[i] == '.');
                assert(false);
            }
        }
        return None;
    }
    proof {
        assert(name@[j - 1] == '.');
        assert(last_dot_at(name@, j - 1));
        let w = choose|i: int| last_dot_at(name@, i);
        if w != j - 1 {
            if w < j - 1 {
                assert(name@[j - 1] == '.');
                assert(false);
            } else {
                assert(name@[w] != '.');
                assert(false);
            }
        }
    }
    let e = name.substring_char(j, n).to_owned();
    proof {
        assert(name@.subrange(j as int, n as int) =~= name@.skip(j as int));
    }
    Some(e)
}

use vstd::string::StrSliceExecFns;
use vstd::string::StringExecFns;

/// Whether one directory entry joins the scan: a plain file, at least the
/// minimum size, that is either a wanted sidecar or carries one of the
/// scanned extensions (compared case-folded).
pub open spec fn want_entry_spec(
    is_file: bool,
    name: Seq<char>,
    size: int,
    min_size: int,
    exts: Seq<Seq<char>>,
    include_sidecars: bool,
) -> bool {
    &&& is_file
    &&& (min_size > 0 ==> size >= min_size)
    &&& (if include_sidecars && is_sidecar_spec(name) {
        true
    } else {
        match ext_of(name) {
            Some(e) => exts.contains(ascii_lower_of(e)),
            None => false,
        }
    })
}

pub fn want_entry(
    is_file: bool,
    name: &str,
    size: u64,
    min_size: u64,
    exts: &Vec<String>,
    include_sidecars: bool,
) -> (r: bool)
    ensures
        r == want_entry_spec(
            is_file,
            name@,
            size as int,
            min_size as int,
            exts.deep_view(),
            include_sidecars,
        ),
{
    if !is_file {
        return false;
    }
    if min_size > 0 && size < min_size {
        return false;
    }
    if include_sidecars && is_sidecar(name) {
        return true;
    }
    match file_ext(name) {
        Some(e) => {
            let low = ascii_lower_str(e.as_str());
            let ghost deep = exts.deep_view();
            let mut i: usize = 0;
            while i < exts.len()
                invariant
                    i <= exts@.len(),
                    deep == exts.deep_view(),
                    deep.len() == exts@.len(),
                    forall|k: int| 0 <= k < i ==> deep[k] != low@,
                    low@ == ascii_lower_of(e@),
                    ext_of(name@) == Some(e@),
                    is_file,
                    min_size > 0 ==> size >= min_size,
                decreases exts@.len() - i,
            {
                proof {
                    assert(deep[i as int] == exts@[i as int]@);
                }
                if str_eq(exts[i].as_str(), low.as_str()) {
                    proof {
                        assert(deep.contains(low@));
                    }
                    return true;
                }
                i += 1;
            }
            false
        },
        None => false,
    }
}

/// The extensions scanned when none are named.
pub open spec fn default_exts_spec() -> Seq<Seq<char>> {
    seq![
        "epub"@,
        "pdf"@,
        "mobi"@,
        "azw"@,
        "azw3"@,
        "djvu"@,
        "fb2"@,
        "rtf"@,
        "txt"@,
        "doc"@,
        "docx"@,
        "cbz"@,
        "cbr"@,
    ]
}

pub fn default_exts() -> (r: Vec<String>)
    ensures
        r.deep_view() == default_exts_spec(),
{
    let mut v: Vec<String> = Vec::new();
    v.push(String::from_str("epub"));
    v.push(String::from_str("pdf"));
    v.push(String::from_str("mobi"));
    v.push(String::from_str("azw"));
    v.push(String::from_str("azw3"));
    v.push(String::from_str("djvu"));
    v.push(String::from_str("fb2"));
    v.push(String::from_str("rtf"));
    v.push(String::from_str("txt"));
    v.push(String::from_str("doc"));
    v.push(String::from_str("docx"));
    v.push(String::from_str("cbz"));
    v.push(String::from_str("cbr"));
    proof {
        assert(v.deep_view() =~= default_exts_spec());
    }
    v
}

// ---------------------------------------------------------------------------
// Grouping hashed files.
// ---------------------------------------------------------------------------

/// One hashed file.
pub struct FileInfo {
    pub path: String,
    pub bytes: u64,
    pub hash: String,
}

/// One group of files sharing a size and digest.
pub struct DuplicateGroup {
    pub bytes: u64,
    pub hash: String,
    pub files: Vec<String>,
}

/// The plain view of the hashed files: path, size, digest.
pub open spec fn file_views(files: Seq<FileInfo>) -> Seq<(Seq<char>, int, Seq<char>)> {
    Seq::new(files.len(), |i: int| (files[i].path@, files[i].bytes as int, files[i].hash@))
}

/// The paths of the files carrying the given size and digest, in input
/// order.
pub open spec fn matching_paths(
    files: Seq<(Seq<char>, int, Seq<char>)>,
    bytes: int,
    hash: Seq<char>,
) -> Seq<Seq<char>>
    decreases files.len(),
{
    if files.len() == 0 {
        Seq::<Seq<char>>::empty()
    } else {
        let prev = matching_paths(files.drop_last(), bytes, hash);
        if files.last().1 == bytes && files.last().2 == hash {
            prev.push(files.last().0)
        } else {
            prev
        }
    }
}

proof fn lemma_matching_paths_empty(
    files: Seq<(Seq<char>, int, Seq<char>)>,
    bytes: int,
    hash: Seq<char>,
)
    requires
        forall|j: int|
            0 <= j < files.len() ==> !((#[trigger] files[j]).1 == bytes && files[j].2 == hash),
    ensures
        matching_paths(files, bytes, hash).len() == 0,
    decreases files.len(),
{
    if files.len() > 0 {
        lemma_matching_paths_empty(files.drop_last(), bytes, hash);
    }
}

/// The lexicographic order as a closure, for sorting paths.
pub open spec fn lex_leq_f() -> spec_fn(Seq<char>, Seq<char>) -> bool {
    |a: Seq<char>, b: Seq<char>| lex_leq(a, b)
}

pub proof fn lemma_lex_leq_total()
    ensures
        total_ordering(lex_leq_f()),
{
    let leq = lex_leq_f();
    assert forall|x: Seq<char>| #[trigger] leq(x, x) by {
        lemma_lex_refl(x);
    }
    assert forall|x: Seq<char>, y: Seq<char>| #[trigger] leq(x, y) && #[trigger] leq(y, x)
        implies x == y by {
        lemma_lex_antisym(x, y);
    }
    assert forall|x: Seq<char>, y: Seq<char>, z: Seq<char>|
        #[trigger] leq(x, y) && #[trigger] leq(y, z) implies leq(x, z) by {
        lemma_lex_trans(x, y, z);
    }
    assert forall|x: Seq<char>, y: Seq<char>| #[trigger] leq(x, y) || #[trigger] leq(y, x) by {
        lemma_lex_connected(x, y);
    }
}

/// Sorts paths lexicographically.
pub fn sort_strings(v: &Vec<String>) -> (r: Vec<String>)
    ensures
        r.deep_view() == v.deep_view().sort_by(lex_leq_f()),
{
    let ghost leq = lex_leq_f();
    let ghost dv = v.deep_view();
    proof {
        lemma_lex_leq_total();
        broadcast use vstd::seq_lib::to_multiset_build;
        broadcast use vstd::seq_lib::to_multiset_insert;
    }
    let mut out: Vec<String> = Vec::new();
    let mut i: usize = 0;
    proof {
        assert(dv.subrange(0, 0) =~= Seq::<Seq<char>>::empty());
        assert(out.deep_view() =~= Seq::<Seq<char>>::empty());
        assert(Seq::<Seq<char>>::empty().to_multiset() =~= dv.subrange(0, 0).to_multiset());
    }
    while i < v.len()
        invariant
            i <= v@.len(),
            dv == v.deep_view(),
            dv.len() == v@.len(),
            total_ordering(leq),
            leq == lex_leq_f(),
            sorted_by(out.deep_view(), leq),
            out.deep_view().to_multiset() == dv.subrange(0, i as int).to_multiset(),
        decreases v@.len() - i,
    {
        let x = v[i].clone();
        let ghost dx = x@;
        proof {
            assert(dv[i as int] == v@[i as int]@);
            assert(dx == dv[i as int]);
        }
        let ghost outdeep = out.deep_view();
        let mut j: usize = 0;
        let mut searching = true;
        while searching && j < out.len()
            invariant
                j <= out@.len(),
                dx == x@,
                outdeep == out.deep_view(),
                outdeep.len() == out@.len(),
                leq == lex_leq_f(),
                forall|k: int| 0 <= k < j ==> #[trigger] leq(outdeep[k], dx),
                !searching ==> j < out@.len() && !leq(outdeep[j as int], dx),
            decreases out@.len() - j + (if searching {
                1int
            } else {
                0int
            }),
        {
            proof {
                assert(outdeep[j as int] == out@[j as int]@);
            }
            if str_leq(out[j].as_str(), x.as_str()) {
                j += 1;
            } else {
                searching = false;
            }
        }
        let ghost jj = j as int;
        proof {
            assert(jj == out@.len() || !leq(outdeep[jj], dx));
        }
        out.insert(j, x);
        proof {
            broadcast use vstd::seq_lib::to_multiset_build;
            broadcast use vstd::seq_lib::to_multiset_insert;

            let newdeep = out.deep_view();
            assert(newdeep =~= outdeep.insert(jj, dx));
            outdeep.insert_ensures(jj, dx);
            if jj < outdeep.len() {
                assert(leq(dx, outdeep[jj]));
            }
            assert forall|p: int, q: int| 0 <= p < q < newdeep.len() implies #[trigger] leq(
                newdeep[p],
                newdeep[q],
            ) by {
                if q < jj {
                    assert(newdeep[p] == outdeep[p] && newdeep[q] == outdeep[q]);
                } else if p < jj && q == jj {
                    assert(newdeep[p] == outdeep[p] && newdeep[q] == dx);
                } else if p < jj && q > jj {
                    assert(newdeep[p] == outdeep[p] && newdeep[q] == outdeep[q - 1]);
                } else if p == jj {
                    assert(newdeep[p] == dx && newdeep[q] == outdeep[q - 1]);
                    assert(leq(dx, outdeep[jj]));
                    if q - 1 > jj {
                        assert(leq(outdeep[jj], outdeep[q - 1]));
                    }
                } else {
                    assert(newdeep[p] == outdeep[p - 1] && newdeep[q] == outdeep[q - 1]);
                }
            }
            assert(sorted_by(newdeep, leq));
            assert(newdeep.to_multiset() =~= outdeep.to_multiset().insert(dx));
            assert(dv.subrange(0, i + 1) =~= dv.subrange(0, i as int).push(dx));
            assert(dv.subrange(0, i + 1).to_multiset() =~= dv.subrange(
                0,
                i as int,
            ).to_multiset().insert(dx));
        }
        i += 1;
    }
    proof {
        assert(dv.subrange(0, dv.len() as int) =~= dv);
        dv.lemma_sort_by_ensures(leq);
        lemma_sorted_unique(out.deep_view(), dv.sort_by(leq), leq);
    }
    out
}

/// The report order of groups: most files first, then largest size, then
/// digest text.
pub open spec fn group_leq(a: DuplicateGroup, b: DuplicateGroup) -> bool {
    if a.files@.len() != b.files@.len() {
        a.files@.len() > b.files@.len()
    } else if a.bytes != b.bytes {
        a.bytes > b.bytes
    } else {
        lex_leq(a.hash@, b.hash@)
    }
}

pub open spec fn group_leq_f() -> spec_fn(DuplicateGroup, DuplicateGroup) -> bool {
    |a: DuplicateGroup, b: DuplicateGroup| group_leq(a, b)
}

proof fn lemma_group_leq_props()
    ensures
        transitive(group_leq_f()),
        strongly_connected(group_leq_f()),
{
    let leq = group_leq_f();
    assert forall|x: DuplicateGroup, y: DuplicateGroup, z: DuplicateGroup|
        #[trigger] leq(x, y) && #[trigger] leq(y, z) implies leq(x, z) by {
        if x.files@.len() == y.files@.len() && y.files@.len() == z.files@.len() && x.bytes
            == y.bytes && y.bytes == z.bytes {
            lemma_lex_trans(x.hash@, y.hash@, z.hash@);
        }
    }
    assert forall|x: DuplicateGroup, y: DuplicateGroup| #[trigger] leq(x, y) || #[trigger] leq(
        y,
        x,
    ) by {
        if x.files@.len() == y.files@.len() && x.bytes == y.bytes {
            lemma_lex_connected(x.hash@, y.hash@);
        }
    }
}

/// A reported group is exact: its files are the lexicographically sorted
/// paths of every input file carrying its size and digest, and there are
/// at least two of them.
pub open spec fn group_exact(g: DuplicateGroup, views: Seq<(Seq<char>, int, Seq<char>)>) -> bool {
    &&& g.files.deep_view() == matching_paths(views, g.bytes as int, g.hash@).sort_by(lex_leq_f())
    &&& matching_paths(views, g.bytes as int, g.hash@).len() >= 2
}

/// Groups the hashed files by size and digest, keeps the groups with at
/// least two files, sorts each group's paths, and orders the groups for
/// the report.
#[verifier::rlimit(100)]
pub fn find_duplicates(files: &Vec<FileInfo>) -> (r: Vec<DuplicateGroup>)
    ensures
        sorted_by(r@, group_leq_f()),
        forall|i: int| 0 <= i < r@.len() ==> group_exact(#[trigger] r@[i], file_views(files@)),
        forall|bytes: int, hash: Seq<char>|
            matching_paths(file_views(files@), bytes, hash).len() >= 2 ==> exists|i: int|
                0 <= i < r@.len() && (#[trigger] r@[i]).bytes as int == bytes && r@[i].hash@
                    == hash,
        forall|i: int, j: int|
            0 <= i < j < r@.len() ==> !((#[trigger] r@[i]).bytes == (#[trigger] r@[j]).bytes
                && r@[i].hash@ == r@[j].hash@),
{
    let ghost views = file_views(files@);
    let mut acc: Vec<DuplicateGroup> = Vec::new();
    let mut i: usize = 0;
    while i < files.len()
        invariant
            i <= files@.len(),
            views == file_views(files@),
            views.len() == files@.len(),
            forall|g: int|
                0 <= g < acc@.len() ==> (#[trigger] acc@[g]).files.deep_view() == matching_paths(
                    views.subrange(0, i as int),
                    acc@[g].bytes as int,
                    acc@[g].hash@,
                ),
            forall|g: int| 0 <= g < acc@.len() ==> (#[trigger] acc@[g]).files@.len() >= 1,
            forall|j: int|
                #![trigger views[j]]
                0 <= j < i ==> exists|g: int|
                    0 <= g < acc@.len() && (#[trigger] acc@[g]).bytes as int == views[j].1
                        && acc@[g].hash@ == views[j].2,
            forall|g1: int, g2: int|
                0 <= g1 < g2 < acc@.len() ==> !((#[trigger] acc@[g1]).bytes
                    == (#[trigger] acc@[g2]).bytes && acc@[g1].hash@ == acc@[g2].hash@),
        decreases files@.len() - i,
    {
        let ghost pre0 = views.subrange(0, i as int);
        let ghost pre1 = views.subrange(0, i + 1);
        proof {
            assert(pre1.drop_last() =~= pre0);
            assert(pre1.last() == views[i as int]);
            assert(views[i as int] == (files@[i as int].path@, files@[i as int].bytes as int,
            files@[i as int].hash@));
        }
        let bytes = files[i].bytes;
        let mut gi: usize = 0;
        let mut found = false;
        while !found && gi < acc.len()
            invariant
                gi <= acc@.len(),
                !found ==> forall|g: int|
                    0 <= g < gi ==> !((#[trigger] acc@[g]).bytes == bytes && acc@[g].hash@
                        == files@[i as int].hash@),
                found ==> gi < acc@.len() && acc@[gi as int].bytes == bytes
                    && acc@[gi as int].hash@ == files@[i as int].hash@,
                i < files@.len(),
                bytes == files@[i as int].bytes,
            decreases acc@.len() - gi + (if found {
                0int
            } else {
                1int
            }),
        {
            if acc[gi].bytes == bytes && str_eq(acc[gi].hash.as_str(), files[i].hash.as_str()) {
                found = true;
            } else {
                gi += 1;
            }
        }
        if found {
            let ghost acc0 = acc@;
            let mut g = acc.remove(gi);
            let ghost gfiles0 = g.files.deep_view();
            g.files.push(files[i].path.clone());
            proof {
                assert(g.files.deep_view() =~= gfiles0.push(files@[i as int].path@));
            }
            let ghost gg = g;
            acc.push(g);
            proof {
                assert(acc@ =~= acc0.remove(gi as int).push(gg));
                acc0.remove_ensures(gi as int);
                assert forall|g1: int, g2: int| 0 <= g1 < g2 < acc@.len() implies !((
                #[trigger] acc@[g1]).bytes == (#[trigger] acc@[g2]).bytes && acc@[g1].hash@
                    == acc@[g2].hash@) by {
                    let o1: int = if g1 < gi {
                        g1
                    } else {
                        g1 + 1
                    };
                    assert(g1 < acc@.len() - 1 ==> acc@[g1] == acc0[o1]);
                    if g2 == acc@.len() - 1 {
                        assert(acc@[g2].bytes == acc0[gi as int].bytes && acc@[g2].hash@
                            == acc0[gi as int].hash@);
                        assert(o1 != gi);
                    } else {
                        let o2: int = if g2 < gi {
                            g2
                        } else {
                            g2 + 1
                        };
                        assert(acc@[g2] == acc0[o2]);
                    }
                }
                assert forall|g2: int| 0 <= g2 < acc@.len() implies (#[trigger] acc@[g2]).files.deep_view()
                    == matching_paths(pre1, acc@[g2].bytes as int, acc@[g2].hash@) by {
                    if g2 == acc@.len() - 1 {
                        assert(acc@[g2] == gg);
                        assert(matching_paths(pre1, bytes as int, files@[i as int].hash@)
                            =~= matching_paths(pre0, bytes as int, files@[i as int].hash@).push(
                            files@[i as int].path@,
                        ));
                    } else {
                        let orig_idx: int = if g2 < gi {
                            g2
                        } else {
                            g2 + 1
                        };
                        assert(acc@[g2] == acc0[orig_idx]);
                        if acc@[g2].bytes as int == bytes as int && acc@[g2].hash@
                            == files@[i as int].hash@ {
                            assert(acc0[gi as int].bytes == bytes && acc0[gi as int].hash@
                                == files@[i as int].hash@);
                            if orig_idx < gi {
                                assert(!(acc0[orig_idx].bytes == acc0[gi as int].bytes
                                    && acc0[orig_idx].hash@ == acc0[gi as int].hash@));
                            } else {
                                assert(!(acc0[gi as int].bytes == acc0[orig_idx].bytes
                                    && acc0[gi as int].hash@ == acc0[orig_idx].hash@));
                            }
                            assert(false);
                        }
                        assert(matching_paths(pre1, acc@[g2].bytes as int, acc@[g2].hash@)
                            =~= matching_paths(pre0, acc@[g2].bytes as int, acc@[g2].hash@));
                    }
                }
                assert forall|j: int| #![trigger views[j]] 0 <= j < i + 1 implies exists|g2: int|
                    0 <= g2 < acc@.len() && (#[trigger] acc@[g2]).bytes as int == views[j].1
                        && acc@[g2].hash@ == views[j].2 by {
                    if j == i {
                        assert(acc@[acc@.len() - 1].bytes as int == views[j].1 && acc@[acc@.len()
                            - 1].hash@ == views[j].2);
                    } else {
                        let g0 = choose|g0: int|
                            0 <= g0 < acc0.len() && (#[trigger] acc0[g0]).bytes as int
                                == views[j].1 && acc0[g0].hash@ == views[j].2;
                        if g0 == gi {
                            assert(acc@[acc@.len() - 1].bytes as int == views[j].1 && acc@[
                                acc@.len() - 1].hash@ == views[j].2);
                        } else {
                            let g2: int = if g0 < gi {
                                g0
                            } else {
                                g0 - 1
                            };
                            assert(acc@[g2] == acc0[g0]);
                            assert(acc@[g2].bytes as int == views[j].1 && acc@[g2].hash@
                                == views[j].2);
                        }
                    }
                }
            }
        } else {
            let ghost acc0 = acc@;
            let mut paths: Vec<String> = Vec::new();
            paths.push(files[i].path.clone());
            let g = DuplicateGroup { bytes, hash: files[i].hash.clone(), files: paths };
            let ghost gg = g;
            acc.push(g);
            proof {
                assert(acc@ =~= acc0.push(gg));
                assert forall|g1: int, g2: int| 0 <= g1 < g2 < acc@.len() implies !((
                #[trigger] acc@[g1]).bytes == (#[trigger] acc@[g2]).bytes && acc@[g1].hash@
                    == acc@[g2].hash@) by {
                    if g2 == acc@.len() - 1 {
                        assert(acc@[g1] == acc0[g1]);
                        assert(!(acc0[g1].bytes == bytes && acc0[g1].hash@
                            == files@[i as int].hash@));
                    } else {
                        assert(acc@[g1] == acc0[g1] && acc@[g2] == acc0[g2]);
                    }
                }
                assert forall|j2: int| 0 <= j2 < i implies !((#[trigger] views[j2]).1
                    == bytes as int && views[j2].2 == files@[i as int].hash@) by {
                    if views[j2].1 == bytes as int && views[j2].2 == files@[i as int].hash@ {
                        let g0 = choose|g0: int|
                            0 <= g0 < acc0.len() && (#[trigger] acc0[g0]).bytes as int
                                == views[j2].1 && acc0[g0].hash@ == views[j2].2;
                        assert(false);
                    }
                }
                assert forall|j2: int| 0 <= j2 < pre0.len() implies !((#[trigger] pre0[j2]).1
                    == bytes as int && pre0[j2].2 == files@[i as int].hash@) by {
                    assert(pre0[j2] == views[j2]);
                }
                lemma_matching_paths_empty(pre0, bytes as int, files@[i as int].hash@);
                assert(gg.files.deep_view() =~= Seq::<Seq<char>>::empty().push(
                    files@[i as int].path@,
                ));
                assert forall|g2: int| 0 <= g2 < acc@.len() implies (#[trigger] acc@[g2]).files.deep_view()
                    == matching_paths(pre1, acc@[g2].bytes as int, acc@[g2].hash@) by {
                    if g2 == acc@.len() - 1 {
                        assert(matching_paths(pre1, bytes as int, files@[i as int].hash@)
                            =~= matching_paths(pre0, bytes as int, files@[i as int].hash@).push(
                            files@[i as int].path@,
                        ));
                    } else {
                        assert(acc@[g2] == acc0[g2]);
                        if acc@[g2].bytes as int == bytes as int && acc@[g2].hash@
                            == files@[i as int].hash@ {
                            assert(false);
                        }
                        assert(matching_paths(pre1, acc@[g2].bytes as int, acc@[g2].hash@)
                            =~= matching_paths(pre0, acc@[g2].bytes as int, acc@[g2].hash@));
                    }
                }
                assert forall|j: int| #![trigger views[j]] 0 <= j < i + 1 implies exists|g2: int|
                    0 <= g2 < acc@.len() && (#[trigger] acc@[g2]).bytes as int == views[j].1
                        && acc@[g2].hash@ == views[j].2 by {
                    if j == i {
                        assert(acc@[acc@.len() - 1].bytes as int == views[j].1 && acc@[acc@.len()
                            - 1].hash@ == views[j].2);
                    } else {
                        let g0 = choose|g0: int|
                            0 <= g0 < acc0.len() && (#[trigger] acc0[g0]).bytes as int
                                == views[j].1 && acc0[g0].hash@ == views[j].2;
                        assert(acc@[g0] == acc0[g0]);
                        assert(acc@[g0].bytes as int == views[j].1 && acc@[g0].hash@
                            == views[j].2);
                    }
                }
            }
        }
        i += 1;
    }
    proof {
        assert(views.subrange(0, views.len() as int) =~= views);
    }
    // Keep the groups of two or more, with sorted paths.
    let mut dups: Vec<DuplicateGroup> = Vec::new();
    let mut k: usize = 0;
    proof {
        assert forall|j: int| #![trigger views[j]] 0 <= j < views.len() implies exists|g: int|
            0 <= g < acc@.len() && (#[trigger] acc@[g]).bytes as int == views[j].1
                && acc@[g].hash@ == views[j].2 by {
            // Naming views[j] here lets the grouping loop's fact instantiate.
            let ghost vj = (views[j].1, views[j].2);
            assert(exists|g0: int|
                0 <= g0 < acc@.len() && (#[trigger] acc@[g0]).bytes as int == views[j].1
                    && acc@[g0].hash@ == views[j].2);
        }
    }
    while k < acc.len()
        invariant
            k <= acc@.len(),
            views == file_views(files@),
            forall|g: int|
                0 <= g < acc@.len() ==> (#[trigger] acc@[g]).files.deep_view() == matching_paths(
                    views,
                    acc@[g].bytes as int,
                    acc@[g].hash@,
                ),
            forall|d: int| 0 <= d < dups@.len() ==> group_exact(#[trigger] dups@[d], views),
            forall|g: int|
                0 <= g < k && (#[trigger] acc@[g]).files@.len() >= 2 ==> exists|d: int|
                    0 <= d < dups@.len() && (#[trigger] dups@[d]).bytes == acc@[g].bytes
                        && dups@[d].hash@ == acc@[g].hash@,
            forall|d: int|
                #![trigger dups@[d]]
                0 <= d < dups@.len() ==> exists|g: int|
                    0 <= g < k && (#[trigger] acc@[g]).bytes == dups@[d].bytes && acc@[g].hash@
                        == dups@[d].hash@,
            forall|d1: int, d2: int|
                0 <= d1 < d2 < dups@.len() ==> !((#[trigger] dups@[d1]).bytes
                    == (#[trigger] dups@[d2]).bytes && dups@[d1].hash@ == dups@[d2].hash@),
            forall|g1: int, g2: int|
                0 <= g1 < g2 < acc@.len() ==> !((#[trigger] acc@[g1]).bytes
                    == (#[trigger] acc@[g2]).bytes && acc@[g1].hash@ == acc@[g2].hash@),
        decreases acc@.len() - k,
    {
        if acc[k].files.len() >= 2 {
            let sorted = sort_strings(&acc[k].files);
            let g = DuplicateGroup {
                bytes: acc[k].bytes,
                hash: acc[k].hash.clone(),
                files: sorted,
            };
            let ghost gg = g;
            proof {
                assert(acc@[k as int].files.deep_view().len() == acc@[k as int].files@.len());
                assert(group_exact(gg, views));
            }
            let ghost dups0 = dups@;
            dups.push(g);
            proof {
                assert(dups@.last() == gg);
                assert forall|g2: int|
                    0 <= g2 < k + 1 && (#[trigger] acc@[g2]).files@.len() >= 2 implies exists|
                    d: int,
                |
                    0 <= d < dups@.len() && (#[trigger] dups@[d]).bytes == acc@[g2].bytes
                        && dups@[d].hash@ == acc@[g2].hash@ by {
                    if g2 == k {
                        assert(dups@[dups@.len() - 1].bytes == acc@[g2].bytes && dups@[dups@.len()
                            - 1].hash@ == acc@[g2].hash@);
                    } else {
                        let d0 = choose|d0: int|
                            0 <= d0 < dups0.len() && (#[trigger] dups0[d0]).bytes
                                == acc@[g2].bytes && dups0[d0].hash@ == acc@[g2].hash@;
                        assert(dups@[d0] == dups0[d0]);
                        assert(dups@[d0].bytes == acc@[g2].bytes && dups@[d0].hash@
                            == acc@[g2].hash@);
                    }
                }
                assert(dups@[dups@.len() - 1].bytes == acc@[k as int].bytes && dups@[dups@.len()
                    - 1].hash@ == acc@[k as int].hash@);
                assert forall|d: int|
                    #![trigger dups@[d]]
                    0 <= d < dups@.len() implies exists|g3: int|
                    0 <= g3 < k + 1 && (#[trigger] acc@[g3]).bytes == dups@[d].bytes
                        && acc@[g3].hash@ == dups@[d].hash@ by {
                    if d == dups@.len() - 1 {
                        assert(acc@[k as int].bytes == dups@[d].bytes && acc@[k as int].hash@
                            == dups@[d].hash@);
                    } else {
                        assert(dups@[d] == dups0[d]);
                        let g0 = choose|g0: int|
                            0 <= g0 < k && (#[trigger] acc@[g0]).bytes == dups0[d].bytes
                                && acc@[g0].hash@ == dups0[d].hash@;
                        assert(acc@[g0].bytes == dups@[d].bytes && acc@[g0].hash@
                            == dups@[d].hash@);
                    }
                }
                assert forall|d1: int, d2: int| 0 <= d1 < d2 < dups@.len() implies !((
                #[trigger] dups@[d1]).bytes == (#[trigger] dups@[d2]).bytes && dups@[d1].hash@
                    == dups@[d2].hash@) by {
                    if d2 == dups@.len() - 1 {
                        assert(dups@[d1] == dups0[d1]);
                        let g0 = choose|g0: int|
                            0 <= g0 < k && (#[trigger] acc@[g0]).bytes == dups0[d1].bytes
                                && acc@[g0].hash@ == dups0[d1].hash@;
                        assert(!(acc@[g0].bytes == acc@[k as int].bytes && acc@[g0].hash@
                            == acc@[k as int].hash@));
                    } else {
                        assert(dups@[d1] == dups0[d1] && dups@[d2] == dups0[d2]);
                    }
                }
            }
        }
        k += 1;
    }
    // Order the groups for the report.
    let ghost dupsv = dups@;
    proof {
        lemma_group_leq_props();
        broadcast use vstd::seq_lib::to_multiset_build;
        broadcast use vstd::seq_lib::to_multiset_insert;

        assert(dupsv.subrange(0, 0) =~= Seq::<DuplicateGroup>::empty());
        assert(dupsv.skip(0) =~= dupsv);
        assert forall|d1: int, d2: int| 0 <= d1 < d2 < dupsv.len() implies !((
        #[trigger] dupsv[d1]).bytes == (#[trigger] dupsv[d2]).bytes && dupsv[d1].hash@
            == dupsv[d2].hash@) by {
            assert(dupsv[d1] == dups@[d1] && dupsv[d2] == dups@[d2]);
        }
    }
    let mut rest = dups;
    let mut out: Vec<DuplicateGroup> = Vec::new();
    proof {
        assert(out@ =~= Seq::<DuplicateGroup>::empty());
        assert(out@.to_multiset() =~= dupsv.subrange(0, 0).to_multiset());
    }
    while rest.len() > 0
        invariant
            rest@.len() <= dupsv.len(),
            rest@ =~= dupsv.skip(dupsv.len() - rest@.len()),
            transitive(group_leq_f()),
            strongly_connected(group_leq_f()),
            sorted_by(out@, group_leq_f()),
            out@.to_multiset() == dupsv.subrange(0, dupsv.len() - rest@.len()).to_multiset(),
            forall|d1: int, d2: int|
                0 <= d1 < d2 < dupsv.len() ==> !((#[trigger] dupsv[d1]).bytes
                    == (#[trigger] dupsv[d2]).bytes && dupsv[d1].hash@ == dupsv[d2].hash@),
            forall|i2: int, j2: int|
                0 <= i2 < j2 < out@.len() ==> !((#[trigger] out@[i2]).bytes
                    == (#[trigger] out@[j2]).bytes && out@[i2].hash@ == out@[j2].hash@),
        decreases rest@.len(),
    {
        let ghost leq = group_leq_f();
        let ghost m = dupsv.len() - rest@.len();
        let x = rest.remove(0);
        let ghost dx = x;
        proof {
            assert(dupsv.skip(m as int)[0] == dupsv[m as int]);
            assert(dx == dupsv[m as int]);
            assert(rest@ =~= dupsv.skip(m + 1));
        }
        let ghost outdeep = out@;
        let mut j: usize = 0;
        let mut searching = true;
        while searching && j < out.len()
            invariant
                j <= out@.len(),
                dx == x,
                outdeep == out@,
                leq == group_leq_f(),
                forall|q: int| 0 <= q < j ==> #[trigger] leq(outdeep[q], dx),
                !searching ==> j < out@.len() && !leq(outdeep[j as int], dx),
            decreases out@.len() - j + (if searching {
                1int
            } else {
                0int
            }),
        {
            if group_leq_exec(&out[j], &x) {
                j += 1;
            } else {
                searching = false;
            }
        }
        let ghost jj = j as int;
        proof {
            assert(jj == out@.len() || !leq(outdeep[jj], dx));
        }
        out.insert(j, x);
        proof {
            broadcast use vstd::seq_lib::to_multiset_build;
            broadcast use vstd::seq_lib::to_multiset_insert;

            let newdeep = out@;
            assert(newdeep =~= outdeep.insert(jj, dx));
            outdeep.insert_ensures(jj, dx);
            if jj < outdeep.len() {
                assert(leq(dx, outdeep[jj]));
            }
            assert forall|p: int, q: int| 0 <= p < q < newdeep.len() implies #[trigger] leq(
                newdeep[p],
                newdeep[q],
            ) by {
                if q < jj {
                    assert(newdeep[p] == outdeep[p] && newdeep[q] == outdeep[q]);
                } else if p < jj && q == jj {
                    assert(newdeep[p] == outdeep[p] && newdeep[q] == dx);
                } else if p < jj && q > jj {
                    assert(newdeep[p] == outdeep[p] && newdeep[q] == outdeep[q - 1]);
                } else if p == jj {
                    assert(newdeep[p] == dx && newdeep[q] == outdeep[q - 1]);
                    assert(leq(dx, outdeep[jj]));
                    if q - 1 > jj {
                        assert(leq(outdeep[jj], outdeep[q - 1]));
                    }
                } else {
                    assert(newdeep[p] == outdeep[p - 1] && newdeep[q] == outdeep[q - 1]);
                }
            }
            assert(sorted_by(newdeep, leq));
            broadcast use vstd::seq_lib::to_multiset_contains;
            broadcast use vstd::seq_lib::lemma_seq_contains;

            assert forall|q: int| 0 <= q < outdeep.len() implies !((#[trigger] outdeep[q]).bytes
                == dx.bytes && outdeep[q].hash@ == dx.hash@) by {
                assert(outdeep.contains(outdeep[q]));
                assert(outdeep.to_multiset().count(outdeep[q]) > 0);
                assert(dupsv.subrange(0, m as int).contains(outdeep[q]));
                let p = choose|p: int|
                    0 <= p < dupsv.subrange(0, m as int).len() && dupsv.subrange(0, m as int)[p]
                        == outdeep[q];
                assert(dupsv[p] == outdeep[q]);
                assert(!(dupsv[p].bytes == dupsv[m as int].bytes && dupsv[p].hash@
                    == dupsv[m as int].hash@));
            }
            assert forall|p: int, q: int| 0 <= p < q < newdeep.len() implies !((
            #[trigger] newdeep[p]).bytes == (#[trigger] newdeep[q]).bytes && newdeep[p].hash@
                == newdeep[q].hash@) by {
                if q < jj {
                    assert(newdeep[p] == outdeep[p] && newdeep[q] == outdeep[q]);
                } else if p < jj && q == jj {
                    assert(newdeep[p] == outdeep[p] && newdeep[q] == dx);
                } else if p < jj && q > jj {
                    assert(newdeep[p] == outdeep[p] && newdeep[q] == outdeep[q - 1]);
                } else if p == jj {
                    assert(newdeep[p] == dx && newdeep[q] == outdeep[q - 1]);
                } else {
                    assert(newdeep[p] == outdeep[p - 1] && newdeep[q] == outdeep[q - 1]);
                }
            }
            assert(newdeep.to_multiset() =~= outdeep.to_multiset().insert(dx));
            assert(dupsv.subrange(0, m + 1) =~= dupsv.subrange(0, m as int).push(
                dupsv[m as int],
            ));
            assert(dupsv.subrange(0, m + 1).to_multiset() =~= dupsv.subrange(
                0,
                m as int,
            ).to_multiset().insert(dx));
        }
    }
    proof {
        broadcast use vstd::seq_lib::to_multiset_contains;
        broadcast use vstd::seq_lib::lemma_seq_contains;

        assert(dupsv.subrange(0, dupsv.len() as int) =~= dupsv);
        assert(out@.to_multiset() == dupsv.to_multiset());
        assert forall|i: int| 0 <= i < out@.len() implies group_exact(
            #[trigger] out@[i],
            file_views(files@),
        ) by {
            assert(out@.contains(out@[i]));
            assert(out@.to_multiset().count(out@[i]) > 0);
            assert(dupsv.contains(out@[i]));
            let j = choose|j: int| 0 <= j < dupsv.len() && dupsv[j] == out@[i];
            assert(group_exact(dupsv[j], views));
        }
        assert forall|bytes: int, hash: Seq<char>|
            matching_paths(file_views(files@), bytes, hash).len() >= 2 implies exists|i: int|
            0 <= i < out@.len() && (#[trigger] out@[i]).bytes as int == bytes && out@[i].hash@
                == hash by {
            lemma_matching_nonempty(views, bytes, hash);
            let j = choose|j: int|
                0 <= j < views.len() && (#[trigger] views[j]).1 == bytes && views[j].2 == hash;
            let g = choose|g: int|
                0 <= g < acc@.len() && (#[trigger] acc@[g]).bytes as int == views[j].1
                    && acc@[g].hash@ == views[j].2;
            assert(acc@[g].files.deep_view() == matching_paths(views, bytes, hash));
            assert(acc@[g].files@.len() >= 2);
            let d = choose|d: int|
                0 <= d < dupsv.len() && (#[trigger] dupsv[d]).bytes == acc@[g].bytes
                    && dupsv[d].hash@ == acc@[g].hash@;
            assert(dupsv.contains(dupsv[d]));
            assert(dupsv.to_multiset().count(dupsv[d]) > 0);
            assert(out@.contains(dupsv[d]));
            let i = choose|i: int| 0 <= i < out@.len() && out@[i] == dupsv[d];
            assert(out@[i].bytes as int == bytes && out@[i].hash@ == hash);
        }
    }
    out
}

proof fn lemma_matching_nonempty(
    files: Seq<(Seq<char>, int, Seq<char>)>,
    bytes: int,
    hash: Seq<char>,
)
    requires
        matching_paths(files, bytes, hash).len() > 0,
    ensures
        exists|j: int| 0 <= j < files.len() && (#[trigger] files[j]).1 == bytes && files[j].2 == hash,
    decreases files.len(),
{
    if files.len() > 0 {
        if files.last().1 == bytes && files.last().2 == hash {
            assert(files[files.len() - 1].1 == bytes && files[files.len() - 1].2 == hash);
        } else {
            lemma_matching_nonempty(files.drop_last(), bytes, hash);
            let j = choose|j: int|
                0 <= j < files.drop_last().len() && (#[trigger] files.drop_last()[j]).1 == bytes
                    && files.drop_last()[j].2 == hash;
            assert(files[j].1 == bytes && files[j].2 == hash);
        }
    }
}

fn group_leq_exec(a: &DuplicateGroup, b: &DuplicateGroup) -> (r: bool)
    ensures
        r == group_leq(*a, *b),
{
    if a.files.len() != b.files.len() {
        a.files.len() > b.files.len()
    } else if a.bytes != b.bytes {
        a.bytes > b.bytes
    } else {
        str_leq(a.hash.as_str(), b.hash.as_str())
    }
}

} // verus!
