//! A small JSON document model: a tree of values, a renderer that emits
//! JSON text, and the lemmas the rest of the library needs about both.

use vstd::prelude::*;
use vstd::string::StrSliceExecFns;

verus! {

/// A JSON value. Numbers are carried as their raw literal text, so the
/// model stays exact for any numeric payload.
#[derive(Debug, PartialEq)]
pub enum Json {
    Null,
    Bool(bool),
    Num(String),
    Str(String),
    Arr(Vec<Json>),
    Obj(Vec<(String, Json)>),
}

/// The mathematical value of a [`Json`] tree.
#[verifier::ext_equal]
pub ghost enum JsonV {
    Null,
    Bool(bool),
    Num(Seq<char>),
    Str(Seq<char>),
    Arr(Seq<JsonV>),
    Obj(Seq<(Seq<char>, JsonV)>),
}

/// The value of a JSON tree, element by element.
pub open spec fn jv(j: Json) -> JsonV
    decreases j,
{
    match j {
        Json::Null => JsonV::Null,
        Json::Bool(b) => JsonV::Bool(b),
        Json::Num(t) => JsonV::Num(t@),
        Json::Str(s) => JsonV::Str(s@),
        Json::Arr(items) => JsonV::Arr(jv_seq(items@)),
        Json::Obj(pairs) => JsonV::Obj(jv_pairs(pairs@)),
    }
}

/// The values of a sequence of JSON trees, in order.
pub open spec fn jv_seq(s: Seq<Json>) -> Seq<JsonV>
    decreases s,
{
    if s.len() == 0 {
        Seq::<JsonV>::empty()
    } else {
        jv_seq(s.drop_last()).push(jv(s.last()))
    }
}

/// The values of a sequence of key/value pairs, in order.
pub open spec fn jv_pairs(s: Seq<(String, Json)>) -> Seq<(Seq<char>, JsonV)>
    decreases s,
{
    if s.len() == 0 {
        Seq::<(Seq<char>, JsonV)>::empty()
    } else {
        jv_pairs(s.drop_last()).push((s.last().0@, jv(s.last().1)))
    }
}

impl View for Json {
    type V = JsonV;

    open spec fn view(&self) -> JsonV {
        jv(*self)
    }
}

pub proof fn lemma_jv_seq_push(s: Seq<Json>, x: Json)
    ensures
        jv_seq(s.push(x)) == jv_seq(s).push(jv(x)),
{
    assert(s.push(x).drop_last() =~= s);
    assert(s.push(x).last() == x);
}

pub proof fn lemma_jv_pairs_push(s: Seq<(String, Json)>, p: (String, Json))
    ensures
        jv_pairs(s.push(p)) == jv_pairs(s).push((p.0@, jv(p.1))),
{
    assert(s.push(p).drop_last() =~= s);
    assert(s.push(p).last() == p);
}

pub proof fn lemma_jv_seq_index(s: Seq<Json>)
    ensures
        jv_seq(s).len() == s.len(),
        forall|i: int| 0 <= i < s.len() ==> jv_seq(s)[i] == jv(s[i]),
    decreases s,
{
    if s.len() > 0 {
        lemma_jv_seq_index(s.drop_last());
    }
}

pub proof fn lemma_jv_pairs_index(s: Seq<(String, Json)>)
    ensures
        jv_pairs(s).len() == s.len(),
        forall|i: int| 0 <= i < s.len() ==> jv_pairs(s)[i] == (s[i].0@, jv(s[i].1)),
    decreases s,
{
    if s.len() > 0 {
        lemma_jv_pairs_index(s.drop_last());
    }
}

/// The value mapped to `key` by the first pair that carries it, if any.
pub open spec fn jv_lookup(ps: Seq<(Seq<char>, JsonV)>, key: Seq<char>) -> Option<JsonV>
    decreases ps,
{
    if ps.len() == 0 {
        None
    } else if ps[0].0 == key {
        Some(ps[0].1)
    } else {
        jv_lookup(ps.drop_first(), key)
    }
}

pub proof fn lemma_jv_lookup_skip(ps: Seq<(Seq<char>, JsonV)>, key: Seq<char>, i: int)
    requires
        0 <= i <= ps.len(),
        forall|k: int| 0 <= k < i ==> ps[k].0 != key,
    ensures
        jv_lookup(ps, key) == jv_lookup(ps.skip(i), key),
    decreases i,
{
    if i > 0 {
        assert(ps[0].0 != key);
        lemma_jv_lookup_skip(ps.drop_first(), key, i - 1);
        assert(ps.drop_first().skip(i - 1) =~= ps.skip(i));
    } else {
        assert(ps.skip(0) =~= ps);
    }
}

pub proof fn lemma_jv_lookup_append(
    a: Seq<(Seq<char>, JsonV)>,
    b: Seq<(Seq<char>, JsonV)>,
    key: Seq<char>,
)
    requires
        forall|i: int| 0 <= i < a.len() ==> a[i].0 != key,
    ensures
        jv_lookup(a + b, key) == jv_lookup(b, key),
    decreases a,
{
    if a.len() == 0 {
        assert(a + b =~= b);
    } else {
        assert((a + b)[0] == a[0]);
        assert((a + b).drop_first() =~= a.drop_first() + b);
        lemma_jv_lookup_append(a.drop_first(), b, key);
    }
}

pub proof fn lemma_jv_lookup_none(ps: Seq<(Seq<char>, JsonV)>, key: Seq<char>)
    requires
        forall|k: int| 0 <= k < ps.len() ==> ps[k].0 != key,
    ensures
        jv_lookup(ps, key) is None,
{
    lemma_jv_lookup_skip(ps, key, ps.len() as int);
    assert(ps.skip(ps.len() as int) =~= Seq::<(Seq<char>, JsonV)>::empty());
}

pub proof fn lemma_jv_lookup_at(ps: Seq<(Seq<char>, JsonV)>, i: int, key: Seq<char>)
    requires
        0 <= i < ps.len(),
        ps[i].0 == key,
        forall|k: int| 0 <= k < i ==> ps[k].0 != key,
    ensures
        jv_lookup(ps, key) == Some(ps[i].1),
{
    lemma_jv_lookup_skip(ps, key, i);
    assert(ps.skip(i)[0] == ps[i]);
}

pub proof fn lemma_jv_lookup_update_other(
    ps: Seq<(Seq<char>, JsonV)>,
    i: int,
    p: (Seq<char>, JsonV),
    key: Seq<char>,
)
    requires
        0 <= i < ps.len(),
        ps[i].0 != key,
        p.0 != key,
    ensures
        jv_lookup(ps.update(i, p), key) == jv_lookup(ps, key),
    decreases ps,
{
    let qs = ps.update(i, p);
    if i == 0 {
        assert(qs[0] == p);
        assert(qs.drop_first() =~= ps.drop_first());
    } else {
        assert(qs[0] == ps[0]);
        if ps[0].0 != key {
            assert(qs.drop_first() =~= ps.drop_first().update(i - 1, p));
            lemma_jv_lookup_update_other(ps.drop_first(), i - 1, p, key);
        }
    }
}

pub proof fn lemma_keys_ne_append(
    a: Seq<(Seq<char>, JsonV)>,
    b: Seq<(Seq<char>, JsonV)>,
    key: Seq<char>,
)
    requires
        forall|i: int| 0 <= i < a.len() ==> a[i].0 != key,
        forall|i: int| 0 <= i < b.len() ==> b[i].0 != key,
    ensures
        forall|i: int| 0 <= i < (a + b).len() ==> (a + b)[i].0 != key,
{
    assert forall|i: int| 0 <= i < (a + b).len() implies (a + b)[i].0 != key by {
        if i < a.len() {
            assert((a + b)[i] == a[i]);
        } else {
            assert((a + b)[i] == b[i - a.len()]);
        }
    }
}

/// The hexadecimal digit for a value below sixteen.
pub open spec fn hex_char(n: int) -> char {
    seq!['0', '1', '2', '3', '4', '5', '6', '7', '8', '9', 'a', 'b', 'c', 'd', 'e', 'f'][n]
}

/// How one character appears inside a JSON string literal: quotes and
/// backslashes carry a backslash escape, control characters a `\u00..`
/// escape, and every other character stands for itself.
pub open spec fn escape_char(c: char) -> Seq<char> {
    if c == '"' {
        seq!['\\', '"']
    } else if c == '\\' {
        seq!['\\', '\\']
    } else if (c as u32) < 32 {
        seq!['\\', 'u', '0', '0', hex_char((c as u32) as int / 16), hex_char((c as u32) as int % 16)]
    } else {
        seq![c]
    }
}

/// A text, escaped character by character for a JSON string literal.
pub open spec fn escape_str(s: Seq<char>) -> Seq<char>
    decreases s,
{
    if s.len() == 0 {
        Seq::<char>::empty()
    } else {
        escape_str(s.drop_last()) + escape_char(s.last())
    }
}

/// The JSON text of a value: objects and arrays wrap their comma-separated
/// members in braces and brackets, strings are quoted and escaped, numbers
/// stand as their raw text.
pub open spec fn render(j: JsonV) -> Seq<char>
    decreases j,
{
    match j {
        JsonV::Null => seq!['n', 'u', 'l', 'l'],
        JsonV::Bool(b) => if b {
            seq!['t', 'r', 'u', 'e']
        } else {
            seq!['f', 'a', 'l', 's', 'e']
        },
        JsonV::Num(t) => t,
        JsonV::Str(s) => seq!['"'] + escape_str(s) + seq!['"'],
        JsonV::Arr(items) => seq!['['] + render_items(items) + seq![']'],
        JsonV::Obj(pairs) => seq!['{'] + render_pairs(pairs) + seq!['}'],
    }
}

/// The comma-separated texts of an array's items, in order.
pub open spec fn render_items(items: Seq<JsonV>) -> Seq<char>
    decreases items,
{
    if items.len() == 0 {
        Seq::<char>::empty()
    } else if items.len() == 1 {
        render(items[0])
    } else {
        render_items(items.drop_last()) + seq![','] + render(items.last())
    }
}

/// The text of one `"key":value` entry.
pub open spec fn render_entry(p: (Seq<char>, JsonV)) -> Seq<char>
    decreases p,
{
    seq!['"'] + escape_str(p.0) + seq!['"', ':'] + render(p.1)
}

/// The comma-separated texts of an object's entries, in order.
pub open spec fn render_pairs(ps: Seq<(Seq<char>, JsonV)>) -> Seq<char>
    decreases ps,
{
    if ps.len() == 0 {
        Seq::<char>::empty()
    } else if ps.len() == 1 {
        render_entry(ps[0])
    } else {
        render_pairs(ps.drop_last()) + seq![','] + render_entry(ps.last())
    }
}

/// Relies on `String`'s `FromIterator` impl: collecting characters yields
/// the string of exactly those characters, in order.
#[verifier::external_body]
pub(crate) fn chars_to_string(v: Vec<char>) -> (s: String)
    ensures
        s@ == v@,
{
    v.into_iter().collect()
}

fn hex_digit(n: u32) -> (c: char)
    requires
        n < 16,
    ensures
        c == hex_char(n as int),
{
    match n {
        0 => '0',
        1 => '1',
        2 => '2',
        3 => '3',
        4 => '4',
        5 => '5',
        6 => '6',
        7 => '7',
        8 => '8',
        9 => '9',
        10 => 'a',
        11 => 'b',
        12 => 'c',
        13 => 'd',
        14 => 'e',
        _ => 'f',
    }
}

/// Append the characters of `s` to `out`, unchanged.
fn append_str_chars(s: &str, out: &mut Vec<char>)
    ensures
        final(out)@ == old(out)@ + s@,
{
    let n = s.unicode_len();
    let mut i: usize = 0;
    while i < n
        invariant
            n == s@.len(),
            i <= n,
            out@ == old(out)@ + s@.take(i as int),
        decreases n - i,
    {
        let c = s.get_char(i);
        out.push(c);
        proof {
            assert(s@.take(i + 1).drop_last() =~= s@.take(i as int));
            assert(out@ =~= old(out)@ + s@.take(i + 1));
        }
        i = i + 1;
    }
    proof {
        assert(s@.take(n as int) =~= s@);
    }
}

/// Append the escaped form of `s` to `out`.
fn append_escaped(s: &str, out: &mut Vec<char>)
    ensures
        final(out)@ == old(out)@ + escape_str(s@),
{
    let n = s.unicode_len();
    let mut i: usize = 0;
    while i < n
        invariant
            n == s@.len(),
            i <= n,
            out@ == old(out)@ + escape_str(s@.take(i as int)),
        decreases n - i,
    {
        let c = s.get_char(i);
        if c == '"' {
            out.push('\\');
            out.push('"');
        } else if c == '\\' {
            out.push('\\');
            out.push('\\');
        } else if (c as u32) < 32 {
            out.push('\\');
            out.push('u');
            out.push('0');
            out.push('0');
            let h = hex_digit((c as u32) / 16);
            let l = hex_digit((c as u32) % 16);
            out.push(h);
            out.push(l);
        } else {
            out.push(c);
        }
        proof {
            assert(s@.take(i + 1).drop_last() =~= s@.take(i as int));
            assert(s@.take(i + 1).last() == s@[i as int]);
            assert(out@ =~= old(out)@ + escape_str(s@.take(i + 1)));
        }
        i = i + 1;
    }
    proof {
        assert(s@.take(n as int) =~= s@);
    }
}

/// Append the JSON text of `j` to `out`.
fn write_json(j: &Json, out: &mut Vec<char>)
    ensures
        final(out)@ == old(out)@ + render(jv(*j)),
    decreases *j,
{
    match j {
        Json::Null => {
            out.push('n');
            out.push('u');
            out.push('l');
            out.push('l');
            proof {
                assert(out@ =~= old(out)@ + render(jv(*j)));
            }
        },
        Json::Bool(b) => {
            if *b {
                out.push('t');
                out.push('r');
                out.push('u');
                out.push('e');
            } else {
                out.push('f');
                out.push('a');
                out.push('l');
                out.push('s');
                out.push('e');
            }
            proof {
                assert(out@ =~= old(out)@ + render(jv(*j)));
            }
        },
        Json::Num(t) => {
            append_str_chars(t.as_str(), out);
        },
        Json::Str(s) => {
            out.push('"');
            append_escaped(s.as_str(), out);
            out.push('"');
            proof {
                assert(out@ =~= old(out)@ + render(jv(*j)));
            }
        },
        Json::Arr(items) => {
            out.push('[');
            proof {
                assert(out@ =~= old(out)@ + seq!['['] + render_items(jv_seq(items@.take(0))));
            }
            let n = items.len();
            let mut k: usize = 0;
            while k < n
                invariant
                    n == items@.len(),
                    k <= n,
                    out@ == old(out)@ + seq!['['] + render_items(jv_seq(items@.take(k as int))),
                    *j == Json::Arr(*items),
                decreases n - k,
            {
                if k > 0 {
                    out.push(',');
                }
                proof {
                    assert(decreases_to!(*j => (*j)->Arr_0));
                    assert((*j)->Arr_0 == *items);
                    assert(decreases_to!(*items => items@));
                    assert(decreases_to!(items@ => items@[k as int]));
                    assert(decreases_to!(*j => items@[k as int]));
                }
                write_json(&items[k], out);
                proof {
                    assert(items@.take(k + 1).drop_last() =~= items@.take(k as int));
                    assert(items@.take(k + 1).last() == items@[k as int]);
                    lemma_jv_seq_index(items@.take(k + 1));
                    lemma_jv_seq_index(items@.take(k as int));
                    if k == 0 {
                        assert(out@ =~= old(out)@ + seq!['['] + render_items(jv_seq(items@.take(k + 1))));
                    } else {
                        assert(jv_seq(items@.take(k + 1)).drop_last() =~= jv_seq(items@.take(k as int)));
                        assert(out@ =~= old(out)@ + seq!['['] + render_items(jv_seq(items@.take(k + 1))));
                    }
                }
                k = k + 1;
            }
            out.push(']');
            proof {
                assert(items@.take(n as int) =~= items@);
                assert(out@ =~= old(out)@ + render(jv(*j)));
            }
        },
        Json::Obj(pairs) => {
            out.push('{');
            proof {
                assert(out@ =~= old(out)@ + seq!['{'] + render_pairs(jv_pairs(pairs@.take(0))));
            }
            let n = pairs.len();
            let mut k: usize = 0;
            while k < n
                invariant
                    n == pairs@.len(),
                    k <= n,
                    out@ == old(out)@ + seq!['{'] + render_pairs(jv_pairs(pairs@.take(k as int))),
                    *j == Json::Obj(*pairs),
                decreases n - k,
            {
                if k > 0 {
                    out.push(',');
                }
                let ghost out1 = out@;
                out.push('"');
                append_escaped(pairs[k].0.as_str(), out);
                out.push('"');
                out.push(':');
                proof {
                    assert(decreases_to!(*j => (*j)->Obj_0));
                    assert((*j)->Obj_0 == *pairs);
                    assert(decreases_to!(*pairs => pairs@));
                    assert(decreases_to!(pairs@ => pairs@[k as int]));
                    assert(decreases_to!(pairs@[k as int] => pairs@[k as int].1));
                    assert(decreases_to!(*j => pairs@[k as int].1));
                }
                write_json(&pairs[k].1, out);
                proof {
                    let entry = (pairs@[k as int].0@, jv(pairs@[k as int].1));
                    assert(out@ =~= out1 + render_entry(entry));
                    assert(pairs@.take(k + 1).drop_last() =~= pairs@.take(k as int));
                    assert(pairs@.take(k + 1).last() == pairs@[k as int]);
                    lemma_jv_pairs_index(pairs@.take(k + 1));
                    lemma_jv_pairs_index(pairs@.take(k as int));
                    let x = jv_pairs(pairs@.take(k + 1));
                    assert(x.len() == k + 1);
                    assert(x.last() == entry);
                    if k == 0 {
                        assert(render_pairs(x) == render_entry(entry));
                        assert(out@ =~= old(out)@ + seq!['{'] + render_pairs(jv_pairs(pairs@.take(k + 1))));
                    } else {
                        assert(x.drop_last() =~= jv_pairs(pairs@.take(k as int)));
                        assert(render_pairs(x) == render_pairs(jv_pairs(pairs@.take(k as int))) + seq![','] + render_entry(entry));
                        assert(out@ =~= old(out)@ + seq!['{'] + render_pairs(jv_pairs(pairs@.take(k + 1))));
                    }
                }
                k = k + 1;
            }
            out.push('}');
            proof {
                assert(pairs@.take(n as int) =~= pairs@);
                assert(out@ =~= old(out)@ + render(jv(*j)));
            }
        },
    }
}

/// The JSON text of a value, as a string.
pub fn render_json(j: &Json) -> (s: String)
    ensures
        s@ == render(jv(*j)),
{
    let mut out: Vec<char> = Vec::new();
    write_json(j, &mut out);
    proof {
        assert(Seq::<char>::empty() + render(jv(*j)) =~= render(jv(*j)));
    }
    chars_to_string(out)
}

} // verus!
