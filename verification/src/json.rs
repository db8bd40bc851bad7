//! The library's own model of the structured records the catalog tool
//! prints: a JSON-like value held as plain data, with a verified canonical
//! text form.  The canonical text serializes strings with a fixed escape
//! set and keeps object pairs and array elements in stored order, so equal
//! values always produce equal text.

use vstd::prelude::*;
use crate::strutil::push_char;
use vstd::string::StrSliceExecFns;

verus! {

/// A structured value as the catalog tool reports it.  Numbers keep their
/// token text; objects keep their pairs in the order they were handed over.
pub enum Json {
    Null,
    Bool(bool),
    Num(String),
    Str(String),
    Arr(Vec<Json>),
    Obj(Vec<(String, Json)>),
}

// ---------------------------------------------------------------------------
// Field lookup.
// ---------------------------------------------------------------------------

/// The value under the first pair whose key reads `key`.
pub open spec fn obj_lookup(pairs: Seq<(String, Json)>, key: Seq<char>) -> Option<Json>
    decreases pairs.len(),
{
    if pairs.len() == 0 {
        None
    } else if pairs[0].0@ == key {
        Some(pairs[0].1)
    } else {
        obj_lookup(pairs.drop_first(), key)
    }
}

/// The field of an object value; anything else has no fields.
pub open spec fn json_get_spec(j: Json, key: Seq<char>) -> Option<Json> {
    match j {
        Json::Obj(pairs) => obj_lookup(pairs@, key),
        _ => None,
    }
}

pub fn json_get<'a>(j: &'a Json, key: &str) -> (r: Option<&'a Json>)
    ensures
        match r {
            Some(v) => json_get_spec(*j, key@) == Some(*v),
            None => json_get_spec(*j, key@) is None,
        },
{
    match j {
        Json::Obj(pairs) => {
            let mut i: usize = 0;
            proof {
                assert(pairs@.skip(0) =~= pairs@);
            }
            while i < pairs.len()
                invariant
                    *j == Json::Obj(*pairs),
                    i <= pairs@.len(),
                    obj_lookup(pairs@, key@) == obj_lookup(pairs@.skip(i as int), key@),
                decreases pairs@.len() - i,
            {
                proof {
                    assert(pairs@.skip(i as int).len() > 0);
                    assert(pairs@.skip(i as int)[0] == pairs@[i as int]);
                    assert(pairs@.skip(i as int).drop_first() =~= pairs@.skip(i + 1));
                }
                if crate::strutil::str_eq(pairs[i].0.as_str(), key) {
                    proof {
                        assert(obj_lookup(pairs@.skip(i as int), key@) == Some(
                            pairs@[i as int].1,
                        ));
                        assert(*j == Json::Obj(*pairs));
                        assert(json_get_spec(*j, key@) == obj_lookup(pairs@, key@));
                    }
                    return Some(&pairs[i].1);
                }
                i += 1;
            }
            proof {
                assert(pairs@.skip(pairs@.len() as int) =~= Seq::<(String, Json)>::empty());
            }
            None
        },
        _ => None,
    }
}

/// Whether the value is an object.
pub fn json_is_object(j: &Json) -> (r: bool)
    ensures
        r == (*j matches Json::Obj(_)),
{
    match j {
        Json::Obj(_) => true,
        _ => false,
    }
}

// ---------------------------------------------------------------------------
// Canonical text.
// ---------------------------------------------------------------------------

/// How one character is written inside a canonical string literal.
pub open spec fn escaped_char(c: char) -> Seq<char> {
    if c == '"' {
        seq!['\\', '"']
    } else if c == '\\' {
        seq!['\\', '\\']
    } else if c == '\n' {
        seq!['\\', 'n']
    } else if c == '\r' {
        seq!['\\', 'r']
    } else if c == '\t' {
        seq!['\\', 't']
    } else {
        seq![c]
    }
}

pub open spec fn escaped(s: Seq<char>) -> Seq<char>
    decreases s.len(),
{
    if s.len() == 0 {
        Seq::<char>::empty()
    } else {
        escaped(s.drop_last()) + escaped_char(s.last())
    }
}

/// The canonical text of a string literal, quotes included.
pub open spec fn quoted(s: Seq<char>) -> Seq<char> {
    seq!['"'] + escaped(s) + seq!['"']
}

/// The canonical text of a value.
pub open spec fn json_text(j: Json) -> Seq<char>
    decreases j, 0int,
{
    match j {
        Json::Null => seq!['n', 'u', 'l', 'l'],
        Json::Bool(b) => if b {
            seq!['t', 'r', 'u', 'e']
        } else {
            seq!['f', 'a', 'l', 's', 'e']
        },
        Json::Num(s) => s@,
        Json::Str(s) => quoted(s@),
        Json::Arr(els) => seq!['['] + arr_text_from(els@, 0) + seq![']'],
        Json::Obj(ps) => seq!['{'] + obj_text_from(ps@, 0) + seq!['}'],
    }
}

/// The elements from index `i` on, each preceded by a comma except the
/// first of the whole array.
pub open spec fn arr_text_from(els: Seq<Json>, i: int) -> Seq<char>
    decreases els, els.len() - i, 1int,
{
    if 0 <= i < els.len() {
        (if i > 0 {
            seq![',']
        } else {
            Seq::<char>::empty()
        }) + json_text(els[i]) + arr_text_from(els, i + 1)
    } else {
        Seq::<char>::empty()
    }
}

/// The pairs from index `i` on, written `"key":value`.
pub open spec fn obj_text_from(ps: Seq<(String, Json)>, i: int) -> Seq<char>
    decreases ps, ps.len() - i, 1int,
{
    if 0 <= i < ps.len() {
        (if i > 0 {
            seq![',']
        } else {
            Seq::<char>::empty()
        }) + quoted(ps[i].0@) + seq![':'] + json_text(ps[i].1) + obj_text_from(ps, i + 1)
    } else {
        Seq::<char>::empty()
    }
}

/// Appends the canonical escape of `s` to `out`.
pub(crate) fn write_escaped(s: &str, out: &mut String)
    ensures
        final(out)@ == old(out)@ + escaped(s@),
{
    let n = s.unicode_len();
    let mut i: usize = 0;
    proof {
        assert(escaped(s@.subrange(0, 0)) =~= Seq::<char>::empty());
        assert(old(out)@ + Seq::<char>::empty() =~= old(out)@);
    }
    while i < n
        invariant
            i <= n,
            n == s@.len(),
            out@ == old(out)@ + escaped(s@.subrange(0, i as int)),
        decreases n - i,
    {
        let c = s.get_char(i);
        if c == '"' {
            push_char(out, '\\');
            push_char(out, '"');
        } else if c == '\\' {
            push_char(out, '\\');
            push_char(out, '\\');
        } else if c == '\n' {
            push_char(out, '\\');
            push_char(out, 'n');
        } else if c == '\r' {
            push_char(out, '\\');
            push_char(out, 'r');
        } else if c == '\t' {
            push_char(out, '\\');
            push_char(out, 't');
        } else {
            push_char(out, c);
        }
        i += 1;
        proof {
            let pre = s@.subrange(0, i as int);
            assert(pre.drop_last() =~= s@.subrange(0, i - 1 as int));
            assert(pre.last() == s@[i - 1]);
            assert(out@ =~= old(out)@ + escaped(pre));
        }
    }
    proof {
        assert(s@.subrange(0, n as int) =~= s@);
    }
}

/// Appends the canonical text of `j` to `out`.
pub fn write_json(j: &Json, out: &mut String)
    ensures
        final(out)@ == old(out)@ + json_text(*j),
    decreases *j,
{
    match j {
        Json::Null => {
            push_char(out, 'n');
            push_char(out, 'u');
            push_char(out, 'l');
            push_char(out, 'l');
            proof {
                assert(old(out)@.push('n').push('u').push('l').push('l') =~= old(out)@
                    + json_text(*j));
            }
        },
        Json::Bool(b) => {
            if *b {
                push_char(out, 't');
                push_char(out, 'r');
                push_char(out, 'u');
                push_char(out, 'e');
                proof {
                    assert(old(out)@.push('t').push('r').push('u').push('e') =~= old(out)@
                        + json_text(*j));
                }
            } else {
                push_char(out, 'f');
                push_char(out, 'a');
                push_char(out, 'l');
                push_char(out, 's');
                push_char(out, 'e');
                proof {
                    assert(old(out)@.push('f').push('a').push('l').push('s').push('e') =~= old(
                        out,
                    )@ + json_text(*j));
                }
            }
        },
        Json::Num(s) => {
            out.append(s.as_str());
        },
        Json::Str(s) => {
            push_char(out, '"');
            write_escaped(s.as_str(), out);
            push_char(out, '"');
            proof {
                assert((old(out)@.push('"') + escaped(s@)).push('"') =~= old(out)@ + quoted(s@));
            }
        },
        Json::Arr(els) => {
            push_char(out, '[');
            let mut i: usize = 0;
            proof {
                assert(old(out)@.push('[') =~= old(out)@ + seq!['[']);
            }
            while i < els.len()
                invariant
                    *j == Json::Arr(*els),
                    i <= els@.len(),
                    out@ + arr_text_from(els@, i as int) == old(out)@ + seq!['[']
                        + arr_text_from(els@, 0),
                    forall|k: int| 0 <= k < els@.len() ==> #[trigger] els@[k] == els@[k],
                decreases els@.len() - i,
            {
                let ghost before = out@;
                if i > 0 {
                    push_char(out, ',');
                }
                proof {
                    assert(*j == Json::Arr(*els));
                    assert(decreases_to!(*j => j->Arr_0));
                    assert(decreases_to!(j->Arr_0 => els@));
                    assert(decreases_to!(els@ => els@[i as int]));
                }
                write_json(&els[i], out);
                proof {
                    if i > 0 {
                        assert(out@ =~= before + seq![','] + json_text(els@[i as int]));
                        assert(arr_text_from(els@, i as int) =~= seq![','] + json_text(
                            els@[i as int],
                        ) + arr_text_from(els@, i + 1));
                    } else {
                        assert(out@ =~= before + Seq::<char>::empty() + json_text(
                            els@[i as int],
                        ));
                        assert(arr_text_from(els@, i as int) =~= Seq::<char>::empty() + json_text(
                            els@[i as int],
                        ) + arr_text_from(els@, i + 1));
                    }
                    assert(out@ + arr_text_from(els@, i + 1) =~= before + arr_text_from(
                        els@,
                        i as int,
                    ));
                }
                i += 1;
            }
            push_char(out, ']');
            proof {
                assert(arr_text_from(els@, els@.len() as int) =~= Seq::<char>::empty());
                assert(out@ =~= old(out)@ + json_text(*j));
            }
        },
        Json::Obj(ps) => {
            push_char(out, '{');
            let mut i: usize = 0;
            proof {
                assert(old(out)@.push('{') =~= old(out)@ + seq!['{']);
            }
            while i < ps.len()
                invariant
                    *j == Json::Obj(*ps),
                    i <= ps@.len(),
                    out@ + obj_text_from(ps@, i as int) == old(out)@ + seq!['{']
                        + obj_text_from(ps@, 0),
                decreases ps@.len() - i,
            {
                let ghost before = out@;
                if i > 0 {
                    push_char(out, ',');
                }
                push_char(out, '"');
                write_escaped(ps[i].0.as_str(), out);
                push_char(out, '"');
                push_char(out, ':');
                proof {
                    assert(*j == Json::Obj(*ps));
                    assert(decreases_to!(*j => j->Obj_0));
                    assert(decreases_to!(j->Obj_0 => ps@));
                    assert(decreases_to!(ps@ => ps@[i as int]));
                    assert(decreases_to!(ps@[i as int] => ps@[i as int].1));
                }
                write_json(&ps[i].1, out);
                proof {
                    let lead: Seq<char> = if i > 0 {
                        seq![',']
                    } else {
                        Seq::<char>::empty()
                    };
                    assert(out@ =~= before + lead + quoted(ps@[i as int].0@) + seq![':']
                        + json_text(ps@[i as int].1));
                    assert(obj_text_from(ps@, i as int) =~= lead + quoted(ps@[i as int].0@)
                        + seq![':'] + json_text(ps@[i as int].1) + obj_text_from(ps@, i + 1));
                    assert(out@ + obj_text_from(ps@, i + 1) =~= before + obj_text_from(
                        ps@,
                        i as int,
                    ));
                }
                i += 1;
            }
            push_char(out, '}');
            proof {
                assert(obj_text_from(ps@, ps@.len() as int) =~= Seq::<char>::empty());
                assert(out@ =~= old(out)@ + json_text(*j));
            }
        },
    }
}

/// The canonical text of `j` as a fresh string.
pub fn json_to_string(j: &Json) -> (r: String)
    ensures
        r@ == json_text(*j),
{
    let mut out = String::new();
    write_json(j, &mut out);
    proof {
        assert(Seq::<char>::empty() + json_text(*j) =~= json_text(*j));
    }
    out
}

} // verus!
