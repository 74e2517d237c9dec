//! A recursive-descent reader of JSON text, used to take the webhook's
//! reply apart. It is tolerant where tolerance is safe — any run of
//! sign, digit, dot and exponent characters is taken as a number's raw
//! text — and strict about structure: braces, brackets, quotes, colons,
//! commas and string escapes must be well formed, and nothing may follow
//! the document but whitespace.
//!
//! The reader's behavior is pinned exactly: each function returns what
//! its specification-level mirror (`sp_parse_json` and company) says for
//! every input, and [`lemma_parse_render`] proves the mirror inverts the
//! renderer of [`crate::json`] on every document the library can emit.

use vstd::prelude::*;
use vstd::string::StrSliceExecFns;

use crate::json::{
    chars_to_string, escape_char, escape_str, hex_char, jv, jv_pairs, jv_seq,
    lemma_jv_pairs_push, lemma_jv_seq_push, render, render_entry, render_items, render_pairs,
    Json, JsonV,
};
use crate::response::DecodeError;

verus! {

/// JSON whitespace.
pub open spec fn sp_is_ws(c: char) -> bool {
    c == ' ' || c == '\t' || c == '\n' || c == '\r'
}

/// The index of the first character at or after `i` that is not JSON
/// whitespace.
pub open spec fn sp_skip_ws(s: Seq<char>, i: int) -> int
    decreases s.len() - i,
{
    if i < 0 || i >= s.len() {
        i
    } else if sp_is_ws(s[i]) {
        sp_skip_ws(s, i + 1)
    } else {
        i
    }
}

/// The value of one hexadecimal digit, if the character is one.
pub open spec fn sp_hex_val(c: char) -> Option<u32> {
    if 48 <= c as u32 && c as u32 <= 57 {
        Some((c as u32 - 48) as u32)
    } else if 97 <= c as u32 && c as u32 <= 102 {
        Some((c as u32 - 97 + 10) as u32)
    } else if 65 <= c as u32 && c as u32 <= 70 {
        Some((c as u32 - 65 + 10) as u32)
    } else {
        None
    }
}

/// The value of the four hexadecimal digits starting at `i`, if they are
/// all there and all digits.
pub open spec fn sp_hex4(s: Seq<char>, i: int) -> Option<u32> {
    if i < 0 || s.len() - i < 4 {
        None
    } else {
        match (sp_hex_val(s[i]), sp_hex_val(s[i + 1]), sp_hex_val(s[i + 2]), sp_hex_val(s[i + 3])) {
            (Some(d0), Some(d1), Some(d2), Some(d3)) => Some(
                (((d0 * 16 + d1) * 16 + d2) * 16 + d3) as u32,
            ),
            _ => None,
        }
    }
}

/// A value that Unicode assigns a character: not a surrogate, not beyond
/// the maximum.
pub open spec fn sp_valid_scalar(v: u32) -> bool {
    v < 0xD800 || (0xE000 <= v && v < 0x110000)
}

/// The character with the given scalar value.
pub open spec fn sp_char_of(v: u32) -> char {
    v as char
}

/// Prepend one character to a string body still being read.
pub open spec fn sp_str_cons(c: char, rest: Option<(Seq<char>, int)>) -> Option<(Seq<char>, int)> {
    match rest {
        None => None,
        Some((t, e)) => Some((seq![c] + t, e)),
    }
}

/// Prepend an already-read prefix to a string body still being read.
pub open spec fn sp_str_app(b: Seq<char>, rest: Option<(Seq<char>, int)>) -> Option<
    (Seq<char>, int),
> {
    match rest {
        None => None,
        Some((t, e)) => Some((b + t, e)),
    }
}

proof fn lemma_str_app_cons(b: Seq<char>, c: char, x: Option<(Seq<char>, int)>)
    ensures
        sp_str_app(b, sp_str_cons(c, x)) == sp_str_app(b.push(c), x),
{
    match x {
        Some((t, e)) => {
            assert(b + (seq![c] + t) =~= b.push(c) + t);
        },
        None => {},
    }
}

/// The content and end of a string body starting at `i`, just after its
/// opening quote: the text up to the closing quote, with every escape
/// replaced by the character it names.
pub open spec fn sp_parse_string(s: Seq<char>, i: int) -> Option<(Seq<char>, int)>
    decreases s.len() - i,
{
    if i < 0 || i >= s.len() {
        None
    } else if s[i] == '"' {
        Some((Seq::<char>::empty(), i + 1))
    } else if s[i] == '\\' {
        if s.len() - i < 2 {
            None
        } else {
            let e = s[i + 1];
            if e == '"' || e == '\\' || e == '/' {
                sp_str_cons(e, sp_parse_string(s, i + 2))
            } else if e == 'b' {
                sp_str_cons('\u{8}', sp_parse_string(s, i + 2))
            } else if e == 'f' {
                sp_str_cons('\u{c}', sp_parse_string(s, i + 2))
            } else if e == 'n' {
                sp_str_cons('\n', sp_parse_string(s, i + 2))
            } else if e == 'r' {
                sp_str_cons('\r', sp_parse_string(s, i + 2))
            } else if e == 't' {
                sp_str_cons('\t', sp_parse_string(s, i + 2))
            } else if e == 'u' {
                match sp_hex4(s, i + 2) {
                    None => None,
                    Some(code) => if 0xD800 <= code && code < 0xDC00 {
                        if s.len() - (i + 6) < 2 || !(s[i + 6] == '\\' && s[i + 7] == 'u') {
                            None
                        } else {
                            match sp_hex4(s, i + 8) {
                                None => None,
                                Some(lo) => if !(0xDC00 <= lo && lo < 0xE000) {
                                    None
                                } else {
                                    let comb = (0x10000 + (code - 0xD800) * 0x400 + (lo
                                        - 0xDC00)) as u32;
                                    sp_str_cons(sp_char_of(comb), sp_parse_string(s, i + 12))
                                },
                            }
                        }
                    } else if sp_valid_scalar(code) {
                        sp_str_cons(sp_char_of(code), sp_parse_string(s, i + 6))
                    } else {
                        None
                    },
                }
            } else {
                None
            }
        }
    } else {
        sp_str_cons(s[i], sp_parse_string(s, i + 1))
    }
}

/// A character that may stand in a number's raw text.
pub open spec fn sp_is_num_char(c: char) -> bool {
    c == '-' || c == '+' || c == '.' || c == 'e' || c == 'E' || ('0' <= c && c <= '9')
}

/// The index of the first character at or after `i` that may not stand in
/// a number's raw text.
pub open spec fn sp_num_end(s: Seq<char>, i: int) -> int
    decreases s.len() - i,
{
    if i < 0 || i >= s.len() {
        i
    } else if sp_is_num_char(s[i]) {
        sp_num_end(s, i + 1)
    } else {
        i
    }
}

/// The raw text and end of a number starting at `i`: the non-empty
/// greedy run of sign, digit, dot and exponent characters.
pub open spec fn sp_parse_number(s: Seq<char>, i: int) -> Option<(Seq<char>, int)> {
    if i < 0 || sp_num_end(s, i) == i {
        None
    } else {
        Some((s.subrange(i, sp_num_end(s, i)), sp_num_end(s, i)))
    }
}

/// The value starting exactly at `i`, and the index just after it.
pub open spec fn sp_parse_value(s: Seq<char>, i: int) -> Option<(JsonV, int)>
    decreases s.len() - i, 0int,
{
    if i < 0 || i >= s.len() {
        None
    } else if s[i] == '{' {
        sp_parse_object(s, i + 1)
    } else if s[i] == '[' {
        sp_parse_array(s, i + 1)
    } else if s[i] == '"' {
        match sp_parse_string(s, i + 1) {
            None => None,
            Some((t, j)) => Some((JsonV::Str(t), j)),
        }
    } else if s[i] == 't' {
        if s.len() - i >= 4 && s[i + 1] == 'r' && s[i + 2] == 'u' && s[i + 3] == 'e' {
            Some((JsonV::Bool(true), i + 4))
        } else {
            None
        }
    } else if s[i] == 'f' {
        if s.len() - i >= 5 && s[i + 1] == 'a' && s[i + 2] == 'l' && s[i + 3] == 's' && s[i + 4]
            == 'e' {
            Some((JsonV::Bool(false), i + 5))
        } else {
            None
        }
    } else if s[i] == 'n' {
        if s.len() - i >= 4 && s[i + 1] == 'u' && s[i + 2] == 'l' && s[i + 3] == 'l' {
            Some((JsonV::Null, i + 4))
        } else {
            None
        }
    } else if s[i] == '-' || ('0' <= s[i] && s[i] <= '9') {
        match sp_parse_number(s, i) {
            None => None,
            Some((t, j)) => Some((JsonV::Num(t), j)),
        }
    } else {
        None
    }
}

/// The items of an array whose opening bracket stood at `i - 1`, and the
/// index just after its closing bracket.
pub open spec fn sp_parse_array(s: Seq<char>, i: int) -> Option<(JsonV, int)>
    decreases s.len() - i, 2int,
{
    if i < 0 || i > s.len() {
        None
    } else {
        let idx = sp_skip_ws(s, i);
        if !(i <= idx <= s.len()) {
            None
        } else if idx < s.len() && s[idx] == ']' {
            Some((JsonV::Arr(Seq::<JsonV>::empty()), idx + 1))
        } else {
            match sp_arr_items(s, idx) {
                None => None,
                Some((items, end)) => Some((JsonV::Arr(items), end)),
            }
        }
    }
}

/// One or more comma-separated items, read until a closing bracket.
pub open spec fn sp_arr_items(s: Seq<char>, i: int) -> Option<(Seq<JsonV>, int)>
    decreases s.len() - i, 1int,
{
    match sp_parse_value(s, i) {
        None => None,
        Some((v, j)) => if !(i < j <= s.len()) {
            None
        } else {
            let k = sp_skip_ws(s, j);
            if !(j <= k <= s.len()) {
                None
            } else if k >= s.len() {
                None
            } else if s[k] == ']' {
                Some((seq![v], k + 1))
            } else if s[k] != ',' {
                None
            } else {
                let m = sp_skip_ws(s, k + 1);
                if !(k + 1 <= m <= s.len()) {
                    None
                } else {
                    match sp_arr_items(s, m) {
                        None => None,
                        Some((rest, end)) => Some((seq![v] + rest, end)),
                    }
                }
            }
        },
    }
}

/// The entries of an object whose opening brace stood at `i - 1`, and the
/// index just after its closing brace.
pub open spec fn sp_parse_object(s: Seq<char>, i: int) -> Option<(JsonV, int)>
    decreases s.len() - i, 2int,
{
    if i < 0 || i > s.len() {
        None
    } else {
        let idx = sp_skip_ws(s, i);
        if !(i <= idx <= s.len()) {
            None
        } else if idx < s.len() && s[idx] == '}' {
            Some((JsonV::Obj(Seq::<(Seq<char>, JsonV)>::empty()), idx + 1))
        } else {
            match sp_obj_items(s, idx) {
                None => None,
                Some((pairs, end)) => Some((JsonV::Obj(pairs), end)),
            }
        }
    }
}

/// One or more comma-separated `"key":value` entries, read until a
/// closing brace.
pub open spec fn sp_obj_items(s: Seq<char>, i: int) -> Option<(Seq<(Seq<char>, JsonV)>, int)>
    decreases s.len() - i, 1int,
{
    if i < 0 || i >= s.len() || s[i] != '"' {
        None
    } else {
        match sp_parse_string(s, i + 1) {
            None => None,
            Some((key, j1)) => if !(i < j1 <= s.len()) {
                None
            } else {
                let j2 = sp_skip_ws(s, j1);
                if !(j1 <= j2 <= s.len()) {
                    None
                } else if j2 >= s.len() || s[j2] != ':' {
                    None
                } else {
                    let j3 = sp_skip_ws(s, j2 + 1);
                    if !(j2 + 1 <= j3 <= s.len()) {
                        None
                    } else {
                        match sp_parse_value(s, j3) {
                            None => None,
                            Some((v, j4)) => if !(j3 < j4 <= s.len()) {
                                None
                            } else {
                                let k = sp_skip_ws(s, j4);
                                if !(j4 <= k <= s.len()) {
                                    None
                                } else if k >= s.len() {
                                    None
                                } else if s[k] == '}' {
                                    Some((seq![(key, v)], k + 1))
                                } else if s[k] != ',' {
                                    None
                                } else {
                                    let m = sp_skip_ws(s, k + 1);
                                    if !(k + 1 <= m <= s.len()) {
                                        None
                                    } else {
                                        match sp_obj_items(s, m) {
                                            None => None,
                                            Some((rest, end)) => Some((seq![(key, v)] + rest, end)),
                                        }
                                    }
                                }
                            },
                        }
                    }
                }
            },
        }
    }
}

/// Wrap items still to be read behind those already read, as one array.
pub open spec fn sp_arr_wrap(pre: Seq<JsonV>, x: Option<(Seq<JsonV>, int)>) -> Option<
    (JsonV, int),
> {
    match x {
        None => None,
        Some((rest, end)) => Some((JsonV::Arr(pre + rest), end)),
    }
}

/// Wrap entries still to be read behind those already read, as one
/// object.
pub open spec fn sp_obj_wrap(
    pre: Seq<(Seq<char>, JsonV)>,
    x: Option<(Seq<(Seq<char>, JsonV)>, int)>,
) -> Option<(JsonV, int)> {
    match x {
        None => None,
        Some((rest, end)) => Some((JsonV::Obj(pre + rest), end)),
    }
}

/// One JSON document: one value with nothing but whitespace around it.
pub open spec fn sp_parse_json(s: Seq<char>) -> Option<JsonV> {
    let start = sp_skip_ws(s, 0);
    match sp_parse_value(s, start) {
        None => None,
        Some((j, end)) => if sp_skip_ws(s, end) == s.len() {
            Some(j)
        } else {
            None
        },
    }
}

/// A document the renderer can write and the reader is proven to read
/// back: everything but raw number literals, which the library never
/// emits.
pub open spec fn sp_wf(j: JsonV) -> bool
    decreases j,
{
    match j {
        JsonV::Null => true,
        JsonV::Bool(_) => true,
        JsonV::Num(_) => false,
        JsonV::Str(_) => true,
        JsonV::Arr(items) => sp_wf_seq(items),
        JsonV::Obj(pairs) => sp_wf_pairs(pairs),
    }
}

/// Every item of the sequence is well formed.
pub open spec fn sp_wf_seq(s: Seq<JsonV>) -> bool
    decreases s,
{
    s.len() == 0 || (sp_wf(s[0]) && sp_wf_seq(s.drop_first()))
}

/// Every value of the sequence of entries is well formed.
pub open spec fn sp_wf_pairs(s: Seq<(Seq<char>, JsonV)>) -> bool
    decreases s,
{
    s.len() == 0 || (sp_wf(s[0].1) && sp_wf_pairs(s.drop_first()))
}

/// The escaped text read from the front: the first character's escape,
/// then the rest.
proof fn lemma_escape_cons(t: Seq<char>)
    requires
        t.len() > 0,
    ensures
        escape_str(t) == escape_char(t[0]) + escape_str(
            t.drop_first(),
        ),
    decreases t,
{
    if t.len() == 1 {
        assert(t.drop_last() =~= Seq::<char>::empty());
        assert(t.drop_first() =~= Seq::<char>::empty());
        assert(escape_char(t[0]) + Seq::<char>::empty() =~= escape_char(
            t[0],
        ));
    } else {
        lemma_escape_cons(t.drop_last());
        assert(t.drop_last()[0] == t[0]);
        assert(t.drop_last().drop_first() =~= t.drop_first().drop_last());
        assert(t.drop_first().last() == t.last());
        assert((escape_char(t[0]) + escape_str(
            t.drop_first().drop_last(),
        )) + escape_char(t.last()) =~= escape_char(t[0])
            + (escape_str(t.drop_first().drop_last()) + escape_char(
            t.last(),
        )));
    }
}

/// The rendered items read from the front: the first item's text, then a
/// comma and the rest where any remain.
proof fn lemma_render_items_cons(items: Seq<JsonV>)
    requires
        items.len() > 0,
    ensures
        render_items(items) == render(items[0]) + (if items.len() == 1 {
            Seq::<char>::empty()
        } else {
            seq![','] + render_items(items.drop_first())
        }),
    decreases items,
{
    if items.len() == 1 {
        assert(render(items[0]) + Seq::<char>::empty() =~= render(
            items[0],
        ));
    } else if items.len() == 2 {
        assert(items.drop_last()[0] == items[0]);
        assert(items.drop_first().len() == 1);
        assert(items.drop_first()[0] == items.last());
        assert(render_items(items.drop_last()) == render(items[0]));
        assert(render(items[0]) + seq![','] + render(items.last())
            =~= render(items[0]) + (seq![','] + render_items(
            items.drop_first(),
        )));
    } else {
        lemma_render_items_cons(items.drop_last());
        assert(items.drop_last()[0] == items[0]);
        assert(items.drop_last().drop_first() =~= items.drop_first().drop_last());
        assert(items.drop_first().last() == items.last());
        lemma_render_items_cons(items.drop_first());
        assert(items.drop_first().len() >= 2);
        assert((render(items[0]) + (seq![','] + render_items(
            items.drop_first().drop_last(),
        ))) + seq![','] + render(items.last()) =~= render(items[0]) + (
        seq![','] + (render_items(items.drop_first().drop_last()) + seq![',']
            + render(items.drop_first().last()))));
    }
}

/// The rendered entries read from the front, symmetrically.
proof fn lemma_render_pairs_cons(ps: Seq<(Seq<char>, JsonV)>)
    requires
        ps.len() > 0,
    ensures
        render_pairs(ps) == render_entry(ps[0]) + (if ps.len() == 1 {
            Seq::<char>::empty()
        } else {
            seq![','] + render_pairs(ps.drop_first())
        }),
    decreases ps,
{
    if ps.len() == 1 {
        assert(render_entry(ps[0]) + Seq::<char>::empty() =~= render_entry(
            ps[0],
        ));
    } else if ps.len() == 2 {
        assert(ps.drop_last()[0] == ps[0]);
        assert(ps.drop_first().len() == 1);
        assert(ps.drop_first()[0] == ps.last());
        assert(render_pairs(ps.drop_last()) == render_entry(ps[0]));
        assert(render_entry(ps[0]) + seq![','] + render_entry(ps.last())
            =~= render_entry(ps[0]) + (seq![','] + render_pairs(
            ps.drop_first(),
        )));
    } else {
        lemma_render_pairs_cons(ps.drop_last());
        assert(ps.drop_last()[0] == ps[0]);
        assert(ps.drop_last().drop_first() =~= ps.drop_first().drop_last());
        assert(ps.drop_first().last() == ps.last());
        lemma_render_pairs_cons(ps.drop_first());
        assert(ps.drop_first().len() >= 2);
        assert((render_entry(ps[0]) + (seq![','] + render_pairs(
            ps.drop_first().drop_last(),
        ))) + seq![','] + render_entry(ps.last()) =~= render_entry(ps[0])
            + (seq![','] + (render_pairs(ps.drop_first().drop_last()) + seq![',']
            + render_entry(ps.drop_first().last()))));
    }
}

/// Each hexadecimal digit character reads back as its value.
proof fn lemma_hex_digit_back(n: int)
    requires
        0 <= n < 16,
    ensures
        sp_hex_val(hex_char(n)) == Some(n as u32),
{
    if n == 0 {
        assert(hex_char(0) == '0');
    } else if n == 1 {
        assert(hex_char(1) == '1');
    } else if n == 2 {
        assert(hex_char(2) == '2');
    } else if n == 3 {
        assert(hex_char(3) == '3');
    } else if n == 4 {
        assert(hex_char(4) == '4');
    } else if n == 5 {
        assert(hex_char(5) == '5');
    } else if n == 6 {
        assert(hex_char(6) == '6');
    } else if n == 7 {
        assert(hex_char(7) == '7');
    } else if n == 8 {
        assert(hex_char(8) == '8');
    } else if n == 9 {
        assert(hex_char(9) == '9');
    } else if n == 10 {
        assert(hex_char(10) == 'a');
    } else if n == 11 {
        assert(hex_char(11) == 'b');
    } else if n == 12 {
        assert(hex_char(12) == 'c');
    } else if n == 13 {
        assert(hex_char(13) == 'd');
    } else if n == 14 {
        assert(hex_char(14) == 'e');
    } else {
        assert(hex_char(15) == 'f');
    }
}

/// A string body, escaped by the renderer and followed by its closing
/// quote, reads back as exactly the text it came from.
#[verifier::rlimit(100)]
proof fn lemma_parse_render_string(t: Seq<char>, s: Seq<char>, i: int, rest: Seq<char>)
    requires
        0 <= i <= s.len(),
        s.subrange(i, s.len() as int) == escape_str(t) + seq!['"'] + rest,
    ensures
        sp_parse_string(s, i) == Some((t, i + escape_str(t).len() + 1)),
    decreases t.len(),
{
    let esc = escape_str(t);
    let suf = s.subrange(i, s.len() as int);
    if t.len() == 0 {
        assert(suf[0] == '"');
        assert(s[i] == suf[0]);
        assert(t =~= Seq::<char>::empty());
    } else {
        lemma_escape_cons(t);
        let c = t[0];
        let ec = escape_char(c);
        let t1 = t.drop_first();
        let esc1 = escape_str(t1);
        let d = ec.len();
        assert(esc == ec + esc1);
        assert(suf =~= ec + (esc1 + seq!['"'] + rest));
        assert(suf.len() == esc.len() + 1 + rest.len());
        assert forall|k: int| 0 <= k < ec.len() implies suf[k] == ec[k] by {
            assert(suf[k] == (ec + (esc1 + seq!['"'] + rest))[k]);
        }
        assert(s.subrange(i + d, s.len() as int) =~= esc1 + seq!['"'] + rest) by {
            assert forall|k: int| 0 <= k < s.len() - (i + d) implies s.subrange(
                i + d,
                s.len() as int,
            )[k] == (esc1 + seq!['"'] + rest)[k] by {
                assert(s.subrange(i + d, s.len() as int)[k] == s[i + d + k]);
                assert(suf[d + k] == s[i + d + k]);
                assert(suf[d + k] == (ec + (esc1 + seq!['"'] + rest))[d + k]);
            }
        }
        lemma_parse_render_string(t1, s, i + d, rest);
        if c == '"' {
            assert(ec == seq!['\\', '"']);
            assert(s[i] == suf[0] && s[i + 1] == suf[1]);
            assert(sp_parse_string(s, i) == sp_str_cons(c, sp_parse_string(s, i + 2)));
        } else if c == '\\' {
            assert(ec == seq!['\\', '\\']);
            assert(s[i] == suf[0] && s[i + 1] == suf[1]);
            assert(sp_parse_string(s, i) == sp_str_cons(c, sp_parse_string(s, i + 2)));
        } else if (c as u32) < 32 {
            let hi = (c as u32) as int / 16;
            let lo = (c as u32) as int % 16;
            assert(ec == seq!['\\', 'u', '0', '0', hex_char(hi), hex_char(lo)]);
            assert(s[i] == suf[0] && s[i + 1] == suf[1]);
            assert(s[i + 2] == suf[2] && s[i + 3] == suf[3]);
            assert(s[i + 4] == suf[4] && s[i + 5] == suf[5]);
            assert(sp_hex_val('0') == Some(0u32));
            lemma_hex_digit_back(hi);
            lemma_hex_digit_back(lo);
            assert(s.len() - (i + 2) >= 4);
            let code = sp_hex4(s, i + 2);
            assert(code == Some((((0 * 16 + 0) * 16 + hi) * 16 + lo) as u32));
            assert(hi * 16 + lo == c as u32);
            assert(code == Some(c as u32));
            assert(sp_valid_scalar(c as u32));
            vstd::utf8::char_u32_cast(c, c as u32);
            assert(sp_char_of(c as u32) == c);
            assert(sp_parse_string(s, i) == sp_str_cons(c, sp_parse_string(s, i + 6)));
        } else {
            assert(ec == seq![c]);
            assert(s[i] == suf[0]);
            assert(s[i] == c);
            assert(sp_parse_string(s, i) == sp_str_cons(c, sp_parse_string(s, i + 1)));
        }
        assert(seq![c] + t1 =~= t);
    }
}

/// What stands at `i` after a known prefix of the suffix is read.
proof fn lemma_suffix_shift(s: Seq<char>, i: int, a: Seq<char>, b: Seq<char>)
    requires
        0 <= i <= s.len(),
        s.subrange(i, s.len() as int) == a + b,
    ensures
        i + a.len() <= s.len(),
        s.subrange(i + a.len(), s.len() as int) == b,
{
    let suf = s.subrange(i, s.len() as int);
    let d: int = a.len() as int;
    assert(suf.len() == s.len() - i);
    assert(suf.len() == a.len() + b.len());
    assert(s.subrange(i + d, s.len() as int) =~= b) by {
        assert forall|k: int|
            0 <= k < b.len() implies s.subrange(i + d, s.len() as int)[k] == b[k] by {
            assert(s.subrange(i + d, s.len() as int)[k] == s[i + d + k]);
            assert(suf[d + k] == s[i + d + k]);
            assert(suf[d + k] == (a + b)[d + k]);
            assert((a + b)[d + k] == b[k]);
        }
    }
}

/// The first character of a suffix that is a known concatenation.
proof fn lemma_suffix_first(s: Seq<char>, i: int, a: Seq<char>, b: Seq<char>)
    requires
        0 <= i <= s.len(),
        s.subrange(i, s.len() as int) == a + b,
        a.len() > 0,
    ensures
        i < s.len(),
        s[i] == a[0],
{
    let suf = s.subrange(i, s.len() as int);
    assert(suf.len() == a.len() + b.len());
    assert(suf[0] == (a + b)[0]);
    assert((a + b)[0] == a[0]);
    assert(suf[0] == s[i]);
}

/// A well-formed document's text is never empty, and opens with a
/// character that is neither whitespace nor a closing delimiter.
proof fn lemma_render_starts(j: JsonV)
    requires
        sp_wf(j),
    ensures
        render(j).len() > 0,
        !sp_is_ws(render(j)[0]),
        render(j)[0] != ']',
        render(j)[0] != '}',
        render(j)[0] != ',',
{
    match j {
        JsonV::Null => {},
        JsonV::Bool(b) => {},
        JsonV::Num(t) => {},
        JsonV::Str(t) => {
            assert(render(j)[0] == '"');
        },
        JsonV::Arr(items) => {
            assert(render(j)[0] == '[');
        },
        JsonV::Obj(pairs) => {
            assert(render(j)[0] == '{');
        },
    }
}

/// A well-formed document's text, followed by anything, reads back as
/// exactly that document.
#[verifier::rlimit(100)]
proof fn lemma_parse_render_value(j: JsonV, s: Seq<char>, i: int, rest: Seq<char>)
    requires
        sp_wf(j),
        0 <= i <= s.len(),
        s.subrange(i, s.len() as int) == render(j) + rest,
    ensures
        sp_parse_value(s, i) == Some((j, i + render(j).len())),
    decreases j, 1int,
{
    let suf = s.subrange(i, s.len() as int);
    match j {
        JsonV::Null => {
            assert(render(j).len() == 4);
            assert(suf.len() >= 4);
            assert(suf[0] == 'n' && suf[1] == 'u' && suf[2] == 'l' && suf[3] == 'l');
            assert(s[i] == suf[0] && s[i + 1] == suf[1] && s[i + 2] == suf[2] && s[i + 3]
                == suf[3]);
        },
        JsonV::Bool(b) => {
            if b {
                assert(render(j).len() == 4);
                assert(suf.len() >= 4);
                assert(suf[0] == 't' && suf[1] == 'r' && suf[2] == 'u' && suf[3] == 'e');
                assert(s[i] == suf[0] && s[i + 1] == suf[1] && s[i + 2] == suf[2] && s[i + 3]
                    == suf[3]);
            } else {
                assert(render(j).len() == 5);
                assert(suf.len() >= 5);
                assert(suf[0] == 'f' && suf[1] == 'a' && suf[2] == 'l' && suf[3] == 's' && suf[4]
                    == 'e');
                assert(s[i] == suf[0] && s[i + 1] == suf[1] && s[i + 2] == suf[2] && s[i + 3]
                    == suf[3] && s[i + 4] == suf[4]);
            }
        },
        JsonV::Num(t) => {},
        JsonV::Str(t) => {
            assert(suf =~= seq!['"'] + (escape_str(t) + seq!['"'] + rest));
            lemma_suffix_first(s, i, seq!['"'], escape_str(t) + seq!['"'] + rest);
            assert(s[i] == '"');
            lemma_suffix_shift(s, i, seq!['"'], escape_str(t) + seq!['"'] + rest);
            lemma_parse_render_string(t, s, i + 1, rest);
        },
        JsonV::Arr(items) => {
            lemma_parse_render_value_arr(items, s, i, rest);
        },
        JsonV::Obj(pairs) => {
            lemma_parse_render_value_obj(pairs, s, i, rest);
        },
    }
}

/// The array case of [`lemma_parse_render_value`].
#[verifier::rlimit(100)]
proof fn lemma_parse_render_value_arr(items: Seq<JsonV>, s: Seq<char>, i: int, rest: Seq<char>)
    requires
        sp_wf_seq(items),
        0 <= i <= s.len(),
        s.subrange(i, s.len() as int) == render(JsonV::Arr(items)) + rest,
    ensures
        sp_parse_value(s, i) == Some((JsonV::Arr(items), i + render(JsonV::Arr(items)).len())),
    decreases items, 2int,
{
    let suf = s.subrange(i, s.len() as int);
    assert(suf =~= seq!['['] + (render_items(items) + seq![']'] + rest));
    lemma_suffix_first(s, i, seq!['['], render_items(items) + seq![']'] + rest);
    assert(s[i] == '[');
    lemma_suffix_shift(s, i, seq!['['], render_items(items) + seq![']'] + rest);
    if items.len() == 0 {
        assert(render_items(items) + seq![']'] + rest =~= seq![']'] + rest);
        lemma_suffix_first(s, i + 1, seq![']'], rest);
        assert(s[i + 1] == ']');
        assert(sp_skip_ws(s, i + 1) == i + 1);
        assert(sp_parse_array(s, i + 1) == Some((JsonV::Arr(Seq::<JsonV>::empty()), i + 2)));
        assert(items =~= Seq::<JsonV>::empty());
    } else {
        assert(sp_wf(items[0]));
        lemma_render_starts(items[0]);
        lemma_render_items_cons(items);
        let r0 = render(items[0]);
        let x: Seq<char> = if items.len() == 1 {
            Seq::<char>::empty()
        } else {
            seq![','] + render_items(items.drop_first())
        };
        assert(render_items(items) + seq![']'] + rest =~= r0 + (x + seq![']'] + rest));
        lemma_suffix_first(s, i + 1, r0, x + seq![']'] + rest);
        assert(s[i + 1] == r0[0]);
        assert(!sp_is_ws(s[i + 1]));
        assert(sp_skip_ws(s, i + 1) == i + 1);
        assert(s[i + 1] != ']');
        lemma_parse_render_arr_items(items, s, i + 1, rest);
    }
}

/// The object case of [`lemma_parse_render_value`].
#[verifier::rlimit(100)]
proof fn lemma_parse_render_value_obj(
    pairs: Seq<(Seq<char>, JsonV)>,
    s: Seq<char>,
    i: int,
    rest: Seq<char>,
)
    requires
        sp_wf_pairs(pairs),
        0 <= i <= s.len(),
        s.subrange(i, s.len() as int) == render(JsonV::Obj(pairs)) + rest,
    ensures
        sp_parse_value(s, i) == Some((JsonV::Obj(pairs), i + render(JsonV::Obj(pairs)).len())),
    decreases pairs, 2int,
{
    let suf = s.subrange(i, s.len() as int);
    assert(suf =~= seq!['{'] + (render_pairs(pairs) + seq!['}'] + rest));
    lemma_suffix_first(s, i, seq!['{'], render_pairs(pairs) + seq!['}'] + rest);
    assert(s[i] == '{');
    lemma_suffix_shift(s, i, seq!['{'], render_pairs(pairs) + seq!['}'] + rest);
    if pairs.len() == 0 {
        assert(render_pairs(pairs) + seq!['}'] + rest =~= seq!['}'] + rest);
        lemma_suffix_first(s, i + 1, seq!['}'], rest);
        assert(s[i + 1] == '}');
        assert(sp_skip_ws(s, i + 1) == i + 1);
        assert(sp_parse_object(s, i + 1) == Some(
            (JsonV::Obj(Seq::<(Seq<char>, JsonV)>::empty()), i + 2),
        ));
        assert(pairs =~= Seq::<(Seq<char>, JsonV)>::empty());
    } else {
        lemma_render_pairs_cons(pairs);
        let e0rest = escape_str(pairs[0].0) + seq!['"', ':'] + render(pairs[0].1);
        let x: Seq<char> = if pairs.len() == 1 {
            Seq::<char>::empty()
        } else {
            seq![','] + render_pairs(pairs.drop_first())
        };
        assert(render_entry(pairs[0]) =~= seq!['"'] + e0rest);
        assert(render_pairs(pairs) + seq!['}'] + rest =~= seq!['"'] + (e0rest + (x + seq!['}']
            + rest)));
        lemma_suffix_first(s, i + 1, seq!['"'], e0rest + (x + seq!['}'] + rest));
        assert(s[i + 1] == '"');
        assert(sp_skip_ws(s, i + 1) == i + 1);
        lemma_parse_render_obj_items(pairs, s, i + 1, rest);
    }
}

/// Well-formed items, rendered comma-separated and followed by the
/// closing bracket, read back as exactly those items.
#[verifier::rlimit(100)]
proof fn lemma_parse_render_arr_items(items: Seq<JsonV>, s: Seq<char>, i: int, rest: Seq<char>)
    requires
        sp_wf_seq(items),
        items.len() > 0,
        0 <= i <= s.len(),
        s.subrange(i, s.len() as int) == render_items(items) + seq![']'] + rest,
    ensures
        sp_arr_items(s, i) == Some((items, i + render_items(items).len() + 1)),
    decreases items, 0int,
{
    lemma_render_items_cons(items);
    lemma_render_starts(items[0]);
    let r0 = render(items[0]);
    let suf = s.subrange(i, s.len() as int);
    if items.len() == 1 {
        assert(suf =~= r0 + (seq![']'] + rest));
        lemma_parse_render_value(items[0], s, i, seq![']'] + rest);
        let j = i + r0.len();
        lemma_suffix_shift(s, i, r0, seq![']'] + rest);
        lemma_suffix_first(s, j, seq![']'], rest);
        assert(s[j] == ']');
        assert(sp_skip_ws(s, j) == j);
        assert(seq![items[0]] =~= items);
    } else {
        let ri1 = render_items(items.drop_first());
        assert(suf =~= r0 + (seq![','] + (ri1 + seq![']'] + rest)));
        lemma_parse_render_value(items[0], s, i, seq![','] + (ri1 + seq![']'] + rest));
        let j = i + r0.len();
        lemma_suffix_shift(s, i, r0, seq![','] + (ri1 + seq![']'] + rest));
        lemma_suffix_first(s, j, seq![','], ri1 + seq![']'] + rest);
        assert(s[j] == ',');
        assert(sp_skip_ws(s, j) == j);
        lemma_suffix_shift(s, j, seq![','], ri1 + seq![']'] + rest);
        assert(sp_wf_seq(items.drop_first()));
        assert(items.drop_first().len() > 0);
        assert(sp_wf(items.drop_first()[0]));
        lemma_render_starts(items.drop_first()[0]);
        lemma_render_items_cons(items.drop_first());
        let r1 = render(items.drop_first()[0]);
        let x: Seq<char> = if items.drop_first().len() == 1 {
            Seq::<char>::empty()
        } else {
            seq![','] + render_items(items.drop_first().drop_first())
        };
        assert(ri1 + seq![']'] + rest =~= r1 + (x + seq![']'] + rest));
        lemma_suffix_first(s, j + 1, r1, x + seq![']'] + rest);
        assert(s[j + 1] == r1[0]);
        assert(!sp_is_ws(s[j + 1]));
        assert(sp_skip_ws(s, j + 1) == j + 1);
        lemma_parse_render_arr_items(items.drop_first(), s, j + 1, rest);
        assert(seq![items[0]] + items.drop_first() =~= items);
    }
}

/// Well-formed entries, rendered comma-separated and followed by the
/// closing brace, read back as exactly those entries.
#[verifier::rlimit(100)]
proof fn lemma_parse_render_obj_items(
    ps: Seq<(Seq<char>, JsonV)>,
    s: Seq<char>,
    i: int,
    rest: Seq<char>,
)
    requires
        sp_wf_pairs(ps),
        ps.len() > 0,
        0 <= i <= s.len(),
        s.subrange(i, s.len() as int) == render_pairs(ps) + seq!['}'] + rest,
    ensures
        sp_obj_items(s, i) == Some((ps, i + render_pairs(ps).len() + 1)),
    decreases ps, 0int,
{
    lemma_render_pairs_cons(ps);
    let key = ps[0].0;
    let v0 = ps[0].1;
    let e0 = render_entry(ps[0]);
    let esc = escape_str(key);
    let r0 = render(v0);
    let suf = s.subrange(i, s.len() as int);
    let tail: Seq<char> = if ps.len() == 1 {
        seq!['}'] + rest
    } else {
        seq![','] + render_pairs(ps.drop_first()) + seq!['}'] + rest
    };
    // the entry itself: a quoted escaped key, a colon, and the value
    assert(e0 =~= seq!['"'] + (esc + seq!['"'] + (seq![':'] + r0)));
    assert(suf =~= seq!['"'] + (esc + seq!['"'] + (seq![':'] + (r0 + tail))));
    lemma_suffix_first(s, i, seq!['"'], esc + seq!['"'] + (seq![':'] + (r0 + tail)));
    assert(s[i] == '"');
    lemma_suffix_shift(s, i, seq!['"'], esc + seq!['"'] + (seq![':'] + (r0 + tail)));
    lemma_parse_render_string(key, s, i + 1, seq![':'] + (r0 + tail));
    let j1 = i + 1 + esc.len() + 1;
    assert(s.subrange(i + 1, s.len() as int) =~= (esc + seq!['"']) + (seq![':'] + (r0 + tail)));
    lemma_suffix_shift(s, i + 1, esc + seq!['"'], seq![':'] + (r0 + tail));
    lemma_suffix_first(s, j1, seq![':'], r0 + tail);
    assert(s[j1] == ':');
    assert(sp_skip_ws(s, j1) == j1);
    lemma_suffix_shift(s, j1, seq![':'], r0 + tail);
    assert(sp_wf(v0));
    lemma_render_starts(v0);
    lemma_suffix_first(s, j1 + 1, r0, tail);
    assert(s[j1 + 1] == r0[0]);
    assert(sp_skip_ws(s, j1 + 1) == j1 + 1);
    lemma_parse_render_value(v0, s, j1 + 1, tail);
    let j4 = j1 + 1 + r0.len();
    lemma_suffix_shift(s, j1 + 1, r0, tail);
    if ps.len() == 1 {
        lemma_suffix_first(s, j4, seq!['}'], rest);
        assert(s[j4] == '}');
        assert(sp_skip_ws(s, j4) == j4);
        assert(seq![(key, v0)] =~= ps);
        assert(e0.len() == 1 + esc.len() + 1 + 1 + r0.len());
    } else {
        let rp1 = render_pairs(ps.drop_first());
        assert(tail =~= seq![','] + (rp1 + seq!['}'] + rest));
        lemma_suffix_first(s, j4, seq![','], rp1 + seq!['}'] + rest);
        assert(s[j4] == ',');
        assert(sp_skip_ws(s, j4) == j4);
        lemma_suffix_shift(s, j4, seq![','], rp1 + seq!['}'] + rest);
        assert(sp_wf_pairs(ps.drop_first()));
        assert(ps.drop_first().len() > 0);
        lemma_render_pairs_cons(ps.drop_first());
        let k1 = ps.drop_first()[0].0;
        let w1 = ps.drop_first()[0].1;
        let e1rest = escape_str(k1) + seq!['"', ':'] + render(w1);
        let x1: Seq<char> = if ps.drop_first().len() == 1 {
            Seq::<char>::empty()
        } else {
            seq![','] + render_pairs(ps.drop_first().drop_first())
        };
        assert(render_entry(ps.drop_first()[0]) =~= seq!['"'] + e1rest);
        assert(rp1 + seq!['}'] + rest =~= seq!['"'] + (e1rest + (x1 + seq!['}'] + rest)));
        lemma_suffix_first(s, j4 + 1, seq!['"'], e1rest + (x1 + seq!['}'] + rest));
        assert(s[j4 + 1] == '"');
        assert(sp_skip_ws(s, j4 + 1) == j4 + 1);
        lemma_parse_render_obj_items(ps.drop_first(), s, j4 + 1, rest);
        assert(seq![(key, v0)] + ps.drop_first() =~= ps);
        assert(e0.len() == 1 + esc.len() + 1 + 1 + r0.len());
    }
}

/// Round trip: the text the renderer writes for a well-formed document
/// reads back as exactly that document.
pub proof fn lemma_parse_render(j: JsonV)
    requires
        sp_wf(j),
    ensures
        sp_parse_json(render(j)) == Some(j),
{
    let s = render(j);
    lemma_render_starts(j);
    assert(sp_skip_ws(s, 0) == 0);
    assert(s.subrange(0, s.len() as int) =~= render(j) + Seq::<char>::empty());
    lemma_parse_render_value(j, s, 0, Seq::<char>::empty());
    assert(sp_skip_ws(s, s.len() as int) == s.len());
}

/// Relies on `char::from_u32`: `Some` exactly for values that are not
/// surrogates and not beyond the Unicode maximum, holding that value.
#[verifier::external_body]
fn char_from_u32(v: u32) -> (r: Option<char>)
    ensures
        r is Some <==> (v < 0xD800 || (0xE000 <= v && v < 0x110000)),
        match r {
            Some(c) => c as u32 == v,
            None => true,
        },
{
    char::from_u32(v)
}

/// The characters of `s`, in order.
fn str_to_chars(s: &str) -> (v: Vec<char>)
    ensures
        v@ == s@,
{
    let n = s.unicode_len();
    let mut v: Vec<char> = Vec::new();
    let mut i: usize = 0;
    while i < n
        invariant
            n == s@.len(),
            i <= n,
            v@ == s@.take(i as int),
        decreases n - i,
    {
        v.push(s.get_char(i));
        proof {
            assert(v@ =~= s@.take(i + 1));
        }
        i = i + 1;
    }
    proof {
        assert(s@.take(n as int) =~= s@);
    }
    v
}

/// The value of one hexadecimal digit.
fn hex_val(c: char) -> (r: Option<u32>)
    ensures
        r == sp_hex_val(c),
        match r {
            Some(n) => n < 16,
            None => true,
        },
{
    let u = c as u32;
    if u >= 48 && u <= 57 {
        Some(u - 48)
    } else if u >= 97 && u <= 102 {
        Some(u - 97 + 10)
    } else if u >= 65 && u <= 70 {
        Some(u - 65 + 10)
    } else {
        None
    }
}

/// The index of the first character at or after `i` that is not JSON
/// whitespace.
fn skip_ws(v: &Vec<char>, i: usize) -> (r: usize)
    requires
        i <= v@.len(),
    ensures
        i <= r <= v@.len(),
        r as int == sp_skip_ws(v@, i as int),
{
    let n = v.len();
    let mut k = i;
    while k < n && (v[k] == ' ' || v[k] == '\t' || v[k] == '\n' || v[k] == '\r')
        invariant
            i <= k <= n,
            n == v@.len(),
            sp_skip_ws(v@, i as int) == sp_skip_ws(v@, k as int),
        decreases n - k,
    {
        k = k + 1;
    }
    k
}

/// Read the four hexadecimal digits of a `\u` escape starting at `i`.
fn read_hex4(v: &Vec<char>, i: usize) -> (r: Result<(u32, usize), DecodeError>)
    requires
        i <= v@.len(),
    ensures
        match r {
            Ok((code, j)) => code < 0x10000 && j == i + 4 && j <= v@.len() && sp_hex4(
                v@,
                i as int,
            ) == Some(code),
            Err(e) => e == DecodeError::Syntax && sp_hex4(v@, i as int) is None,
        },
{
    if v.len() - i < 4 {
        return Err(DecodeError::Syntax);
    }
    let d0 = match hex_val(v[i]) {
        Some(d) => d,
        None => {
            return Err(DecodeError::Syntax);
        },
    };
    let d1 = match hex_val(v[i + 1]) {
        Some(d) => d,
        None => {
            return Err(DecodeError::Syntax);
        },
    };
    let d2 = match hex_val(v[i + 2]) {
        Some(d) => d,
        None => {
            return Err(DecodeError::Syntax);
        },
    };
    let d3 = match hex_val(v[i + 3]) {
        Some(d) => d,
        None => {
            return Err(DecodeError::Syntax);
        },
    };
    let code: u32 = ((d0 * 16 + d1) * 16 + d2) * 16 + d3;
    Ok((code, i + 4))
}

/// Read one escape sequence whose backslash stands at `idx`, and give
/// back the character it names and the index just after it.
fn read_escape(v: &Vec<char>, idx: usize) -> (r: Result<(char, usize), DecodeError>)
    requires
        idx < v@.len(),
        v@[idx as int] == '\\',
    ensures
        match r {
            Ok((c, j)) => idx < j <= v@.len() && sp_parse_string(v@, idx as int) == sp_str_cons(
                c,
                sp_parse_string(v@, j as int),
            ),
            Err(e) => e == DecodeError::Syntax && sp_parse_string(v@, idx as int) is None,
        },
{
    let n = v.len();
    if n - idx < 2 {
        return Err(DecodeError::Syntax);
    }
    let e = v[idx + 1];
    if e == '"' || e == '\\' || e == '/' {
        Ok((e, idx + 2))
    } else if e == 'b' {
        Ok(('\u{8}', idx + 2))
    } else if e == 'f' {
        Ok(('\u{c}', idx + 2))
    } else if e == 'n' {
        Ok(('\n', idx + 2))
    } else if e == 'r' {
        Ok(('\r', idx + 2))
    } else if e == 't' {
        Ok(('\t', idx + 2))
    } else if e == 'u' {
        let (code, j) = match read_hex4(v, idx + 2) {
            Ok(p) => p,
            Err(e) => {
                return Err(e);
            },
        };
        if code >= 0xD800 && code < 0xDC00 {
            // a high surrogate must be followed by an escaped low
            // surrogate; together they name one character
            if n - j < 2 {
                return Err(DecodeError::Syntax);
            }
            if !(v[j] == '\\' && v[j + 1] == 'u') {
                return Err(DecodeError::Syntax);
            }
            let (lo, j2) = match read_hex4(v, j + 2) {
                Ok(p) => p,
                Err(e) => {
                    return Err(e);
                },
            };
            if !(lo >= 0xDC00 && lo < 0xE000) {
                return Err(DecodeError::Syntax);
            }
            let combined: u32 = 0x10000 + (code - 0xD800) * 0x400 + (lo - 0xDC00);
            match char_from_u32(combined) {
                Some(ch) => {
                    proof {
                        vstd::utf8::char_u32_cast(ch, combined);
                    }
                    Ok((ch, j2))
                },
                None => Err(DecodeError::Syntax),
            }
        } else {
            match char_from_u32(code) {
                Some(ch) => {
                    proof {
                        vstd::utf8::char_u32_cast(ch, code);
                    }
                    Ok((ch, j))
                },
                None => Err(DecodeError::Syntax),
            }
        }
    } else {
        Err(DecodeError::Syntax)
    }
}

/// Read a string body starting at `i`, just after the opening quote, and
/// give back its unescaped content and the index after the closing quote.
#[verifier::rlimit(100)]
fn parse_string(v: &Vec<char>, i: usize) -> (r: Result<(String, usize), DecodeError>)
    requires
        i <= v@.len(),
    ensures
        match r {
            Ok((t, j)) => i < j <= v@.len() && sp_parse_string(v@, i as int) == Some(
                (t@, j as int),
            ),
            Err(e) => e == DecodeError::Syntax && sp_parse_string(v@, i as int) is None,
        },
{
    let n = v.len();
    let mut buf: Vec<char> = Vec::new();
    let mut idx = i;
    proof {
        match sp_parse_string(v@, i as int) {
            Some((t, e)) => {
                assert(Seq::<char>::empty() + t =~= t);
            },
            None => {},
        }
    }
    while idx < n
        invariant
            i <= idx <= n,
            n == v@.len(),
            sp_parse_string(v@, i as int) == sp_str_app(buf@, sp_parse_string(v@, idx as int)),
        decreases n - idx,
    {
        let c = v[idx];
        if c == '"' {
            proof {
                assert(buf@ + Seq::<char>::empty() =~= buf@);
            }
            return Ok((chars_to_string(buf), idx + 1));
        } else if c == '\\' {
            match read_escape(v, idx) {
                Ok((dc, j)) => {
                    let ghost before = buf@;
                    buf.push(dc);
                    proof {
                        lemma_str_app_cons(before, dc, sp_parse_string(v@, j as int));
                    }
                    idx = j;
                },
                Err(e) => {
                    return Err(e);
                },
            }
        } else {
            let ghost before = buf@;
            buf.push(c);
            proof {
                lemma_str_app_cons(before, v@[idx as int], sp_parse_string(v@, idx + 1));
            }
            idx = idx + 1;
        }
    }
    Err(DecodeError::Syntax)
}

/// Whether a character may stand in a number's raw text.
fn is_number_char(c: char) -> (r: bool)
    ensures
        r == (c == '-' || c == '+' || c == '.' || c == 'e' || c == 'E' || ('0' <= c && c <= '9')),
{
    c == '-' || c == '+' || c == '.' || c == 'e' || c == 'E' || (c >= '0' && c <= '9')
}

/// Read a number's raw text starting at `i`: a permissive greedy scan of
/// sign, digit, dot and exponent characters.
fn parse_number(v: &Vec<char>, i: usize) -> (r: Result<(String, usize), DecodeError>)
    requires
        i <= v@.len(),
    ensures
        match r {
            Ok((t, j)) => i < j <= v@.len() && sp_parse_number(v@, i as int) == Some(
                (t@, j as int),
            ),
            Err(e) => e == DecodeError::Syntax && sp_parse_number(v@, i as int) is None,
        },
{
    let n = v.len();
    let mut buf: Vec<char> = Vec::new();
    let mut idx = i;
    while idx < n && is_number_char(v[idx])
        invariant
            i <= idx <= n,
            n == v@.len(),
            buf@ == v@.subrange(i as int, idx as int),
            sp_num_end(v@, i as int) == sp_num_end(v@, idx as int),
        decreases n - idx,
    {
        buf.push(v[idx]);
        proof {
            assert(v@.subrange(i as int, idx + 1) =~= v@.subrange(i as int, idx as int).push(
                v@[idx as int],
            ));
        }
        idx = idx + 1;
    }
    proof {
        assert(sp_num_end(v@, idx as int) == idx);
    }
    if idx == i {
        return Err(DecodeError::Syntax);
    }
    Ok((chars_to_string(buf), idx))
}

/// Read the JSON value starting exactly at `i`, and give back the value
/// and the index just after it.
fn parse_value(v: &Vec<char>, i: usize) -> (r: Result<(Json, usize), DecodeError>)
    requires
        i <= v@.len(),
    ensures
        match r {
            Ok((json, j)) => i < j <= v@.len() && sp_parse_value(v@, i as int) == Some(
                (jv(json), j as int),
            ),
            Err(e) => e == DecodeError::Syntax && sp_parse_value(v@, i as int) is None,
        },
    decreases v@.len() - i, 0int,
{
    let n = v.len();
    if i >= n {
        return Err(DecodeError::Syntax);
    }
    let c = v[i];
    if c == '{' {
        parse_object(v, i + 1)
    } else if c == '[' {
        parse_array(v, i + 1)
    } else if c == '"' {
        match parse_string(v, i + 1) {
            Ok((s, j)) => Ok((Json::Str(s), j)),
            Err(e) => Err(e),
        }
    } else if c == 't' {
        if n - i >= 4 && v[i + 1] == 'r' && v[i + 2] == 'u' && v[i + 3] == 'e' {
            Ok((Json::Bool(true), i + 4))
        } else {
            Err(DecodeError::Syntax)
        }
    } else if c == 'f' {
        if n - i >= 5 && v[i + 1] == 'a' && v[i + 2] == 'l' && v[i + 3] == 's' && v[i + 4] == 'e' {
            Ok((Json::Bool(false), i + 5))
        } else {
            Err(DecodeError::Syntax)
        }
    } else if c == 'n' {
        if n - i >= 4 && v[i + 1] == 'u' && v[i + 2] == 'l' && v[i + 3] == 'l' {
            Ok((Json::Null, i + 4))
        } else {
            Err(DecodeError::Syntax)
        }
    } else if c == '-' || (c >= '0' && c <= '9') {
        match parse_number(v, i) {
            Ok((t, j)) => Ok((Json::Num(t), j)),
            Err(e) => Err(e),
        }
    } else {
        Err(DecodeError::Syntax)
    }
}

/// Read the items of an array whose opening bracket stood at `i - 1`.
fn parse_array(v: &Vec<char>, i: usize) -> (r: Result<(Json, usize), DecodeError>)
    requires
        0 < i <= v@.len(),
    ensures
        match r {
            Ok((json, j)) => i < j <= v@.len() && sp_parse_array(v@, i as int) == Some(
                (jv(json), j as int),
            ),
            Err(e) => e == DecodeError::Syntax && sp_parse_array(v@, i as int) is None,
        },
    decreases v@.len() - i, 1int,
{
    let n = v.len();
    let mut items: Vec<Json> = Vec::new();
    let mut idx = skip_ws(v, i);
    if idx < n && v[idx] == ']' {
        proof {
            assert(jv_seq(items@) =~= Seq::<JsonV>::empty());
        }
        return Ok((Json::Arr(items), idx + 1));
    }
    proof {
        assert(jv_seq(items@) =~= Seq::<JsonV>::empty());
        match sp_arr_items(v@, idx as int) {
            Some((rest, end)) => {
                assert(Seq::<JsonV>::empty() + rest =~= rest);
            },
            None => {},
        }
    }
    while idx < n
        invariant
            i <= idx <= n,
            n == v@.len(),
            sp_parse_array(v@, i as int) == sp_arr_wrap(
                jv_seq(items@),
                sp_arr_items(v@, idx as int),
            ),
        decreases n - idx,
    {
        let (val, j) = match parse_value(v, idx) {
            Ok(p) => p,
            Err(e) => {
                return Err(e);
            },
        };
        let ghost gval = val;
        let ghost old_items = items@;
        items.push(val);
        proof {
            lemma_jv_seq_push(old_items, gval);
        }
        idx = skip_ws(v, j);
        if idx >= n {
            return Err(DecodeError::Syntax);
        }
        if v[idx] == ']' {
            proof {
                assert(jv_seq(old_items) + seq![jv(gval)] =~= jv_seq(items@));
            }
            return Ok((Json::Arr(items), idx + 1));
        }
        if v[idx] != ',' {
            return Err(DecodeError::Syntax);
        }
        idx = skip_ws(v, idx + 1);
        proof {
            match sp_arr_items(v@, idx as int) {
                Some((rest, end)) => {
                    assert(jv_seq(old_items) + (seq![jv(gval)] + rest) =~= jv_seq(items@) + rest);
                },
                None => {},
            }
        }
    }
    Err(DecodeError::Syntax)
}

/// Read the entries of an object whose opening brace stood at `i - 1`.
fn parse_object(v: &Vec<char>, i: usize) -> (r: Result<(Json, usize), DecodeError>)
    requires
        0 < i <= v@.len(),
    ensures
        match r {
            Ok((json, j)) => i < j <= v@.len() && sp_parse_object(v@, i as int) == Some(
                (jv(json), j as int),
            ),
            Err(e) => e == DecodeError::Syntax && sp_parse_object(v@, i as int) is None,
        },
    decreases v@.len() - i, 1int,
{
    let n = v.len();
    let mut pairs: Vec<(String, Json)> = Vec::new();
    let mut idx = skip_ws(v, i);
    if idx < n && v[idx] == '}' {
        proof {
            assert(jv_pairs(pairs@) =~= Seq::<(Seq<char>, JsonV)>::empty());
        }
        return Ok((Json::Obj(pairs), idx + 1));
    }
    proof {
        assert(jv_pairs(pairs@) =~= Seq::<(Seq<char>, JsonV)>::empty());
        match sp_obj_items(v@, idx as int) {
            Some((rest, end)) => {
                assert(Seq::<(Seq<char>, JsonV)>::empty() + rest =~= rest);
            },
            None => {},
        }
    }
    while idx < n
        invariant
            i <= idx <= n,
            n == v@.len(),
            sp_parse_object(v@, i as int) == sp_obj_wrap(
                jv_pairs(pairs@),
                sp_obj_items(v@, idx as int),
            ),
        decreases n - idx,
    {
        if v[idx] != '"' {
            return Err(DecodeError::Syntax);
        }
        let (key, j1) = match parse_string(v, idx + 1) {
            Ok(p) => p,
            Err(e) => {
                return Err(e);
            },
        };
        let j2 = skip_ws(v, j1);
        if j2 >= n || v[j2] != ':' {
            return Err(DecodeError::Syntax);
        }
        let j3 = skip_ws(v, j2 + 1);
        let (val, j4) = match parse_value(v, j3) {
            Ok(p) => p,
            Err(e) => {
                return Err(e);
            },
        };
        let ghost gpair = (key@, jv(val));
        let ghost old_pairs = pairs@;
        pairs.push((key, val));
        proof {
            lemma_jv_pairs_push(old_pairs, pairs@.last());
        }
        idx = skip_ws(v, j4);
        if idx >= n {
            return Err(DecodeError::Syntax);
        }
        if v[idx] == '}' {
            proof {
                assert(jv_pairs(old_pairs) + seq![gpair] =~= jv_pairs(pairs@));
            }
            return Ok((Json::Obj(pairs), idx + 1));
        }
        if v[idx] != ',' {
            return Err(DecodeError::Syntax);
        }
        idx = skip_ws(v, idx + 1);
        proof {
            match sp_obj_items(v@, idx as int) {
                Some((rest, end)) => {
                    assert(jv_pairs(old_pairs) + (seq![gpair] + rest) =~= jv_pairs(pairs@) + rest);
                },
                None => {},
            }
        }
    }
    Err(DecodeError::Syntax)
}

/// Read one JSON document from `s`: one value, with nothing but
/// whitespace around it.
pub fn parse_json(s: &str) -> (r: Result<Json, DecodeError>)
    ensures
        match r {
            Ok(j) => sp_parse_json(s@) == Some(jv(j)),
            Err(e) => e == DecodeError::Syntax && sp_parse_json(s@) is None,
        },
{
    let v = str_to_chars(s);
    let start = skip_ws(&v, 0);
    match parse_value(&v, start) {
        Ok((j, end)) => {
            let rest = skip_ws(&v, end);
            if rest == v.len() {
                Ok(j)
            } else {
                Err(DecodeError::Syntax)
            }
        },
        Err(e) => Err(e),
    }
}

} // verus!
