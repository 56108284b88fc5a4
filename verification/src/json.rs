use vstd::prelude::*;

use crate::arma_value::{exp_end, frac_end, is_num_char, is_number_lexeme, wf_value, ArmaValue, ValueV};
use crate::error::DecodeError;
use crate::text::{digit_char, is_digit};

verus! {

// ---------------------------------------------------------------------------
// Rendering: a value tree to compact structured text, exactly as the remote
// peer writes it (no whitespace, object keys in order).
// ---------------------------------------------------------------------------

/// The hex digit character for `d` (`d < 16`), lower case.
pub open spec fn hex_char(d: nat) -> char {
    if d < 10 {
        digit_char(d)
    } else {
        ((87 + d) as u8) as char
    }
}

/// How a single character is written inside a quoted string: quote and
/// backslash get a backslash, control characters become `\u00xx`, everything
/// else stands for itself.
pub open spec fn esc_char(c: char) -> Seq<char> {
    if c == '"' {
        seq!['\\', '"']
    } else if c == '\\' {
        seq!['\\', '\\']
    } else if (c as u32) < 32 {
        seq!['\\', 'u', '0', '0', hex_char((c as u32 / 16) as nat), hex_char((c as u32 % 16) as nat)]
    } else {
        seq![c]
    }
}

/// The escaped rendering of a string body from position `i` on.
pub open spec fn esc_from(s: Seq<char>, i: int) -> Seq<char>
    decreases s.len() - i,
{
    if 0 <= i < s.len() {
        esc_char(s[i]) + esc_from(s, i + 1)
    } else {
        Seq::empty()
    }
}

pub open spec fn quoted(s: Seq<char>) -> Seq<char> {
    seq!['"'] + esc_from(s, 0) + seq!['"']
}

/// Structured-text rendering of a value.
pub open spec fn render_value(v: ValueV) -> Seq<char>
    decreases v, 0int,
{
    match v {
        ValueV::Nil => seq!['n', 'u', 'l', 'l'],
        ValueV::Num(s) => s,
        ValueV::Bool(b) => if b {
            seq!['t', 'r', 'u', 'e']
        } else {
            seq!['f', 'a', 'l', 's', 'e']
        },
        ValueV::Str(s) => quoted(s),
        ValueV::Arr(items) => seq!['['] + render_items(items, 0) + seq![']'],
        ValueV::Object(pairs) => seq!['{'] + render_members(pairs, 0) + seq!['}'],
    }
}

pub open spec fn render_items(items: Seq<ValueV>, i: int) -> Seq<char>
    decreases items, items.len() - i + 1,
{
    if 0 <= i < items.len() {
        if i + 1 == items.len() {
            render_value(items[i])
        } else {
            render_value(items[i]) + seq![','] + render_items(items, i + 1)
        }
    } else {
        Seq::empty()
    }
}

pub open spec fn render_members(pairs: Seq<(Seq<char>, ValueV)>, i: int) -> Seq<char>
    decreases pairs, pairs.len() - i + 1,
{
    if 0 <= i < pairs.len() {
        let entry = quoted(pairs[i].0) + seq![':'] + render_value(pairs[i].1);
        if i + 1 == pairs.len() {
            entry
        } else {
            entry + seq![','] + render_members(pairs, i + 1)
        }
    } else {
        Seq::empty()
    }
}

// ---------------------------------------------------------------------------
// Parsing: structured text to a value tree.  The spec parser below is the
// definition; the executable parser returns exactly what it describes.
// ---------------------------------------------------------------------------

pub open spec fn is_ws(c: char) -> bool {
    c == ' ' || c == '\t' || c == '\n' || c == '\r'
}

/// The first position at or after `i` holding a non-whitespace character.
pub open spec fn skip_ws(s: Seq<char>, i: int) -> int
    decreases s.len() - i,
{
    if 0 <= i < s.len() && is_ws(s[i]) {
        skip_ws(s, i + 1)
    } else {
        i
    }
}

pub proof fn lemma_skip_ws_bounds(s: Seq<char>, i: int)
    requires
        0 <= i <= s.len(),
    ensures
        i <= skip_ws(s, i) <= s.len(),
        skip_ws(s, i) < s.len() ==> !is_ws(s[skip_ws(s, i)]),
    decreases s.len() - i,
{
    if i < s.len() && is_ws(s[i]) {
        lemma_skip_ws_bounds(s, i + 1);
    }
}

/// The first position at or after `i` that does not hold a number character.
pub open spec fn scan_num(s: Seq<char>, i: int) -> int
    decreases s.len() - i,
{
    if 0 <= i < s.len() && is_num_char(s[i]) {
        scan_num(s, i + 1)
    } else {
        i
    }
}

pub proof fn lemma_scan_num_bounds(s: Seq<char>, i: int)
    requires
        0 <= i <= s.len(),
    ensures
        i <= scan_num(s, i) <= s.len(),
        forall|k: int| i <= k < scan_num(s, i) ==> is_num_char(s[k]),
        scan_num(s, i) < s.len() ==> !is_num_char(s[scan_num(s, i)]),
    decreases s.len() - i,
{
    if i < s.len() && is_num_char(s[i]) {
        lemma_scan_num_bounds(s, i + 1);
    }
}

pub open spec fn is_hex(c: char) -> bool {
    is_digit(c) || ('a' <= c && c <= 'f') || ('A' <= c && c <= 'F')
}

pub open spec fn hex_val(c: char) -> nat {
    if is_digit(c) {
        (c as u32 - 48) as nat
    } else if 'a' <= c && c <= 'f' {
        (c as u32 - 87) as nat
    } else {
        (c as u32 - 55) as nat
    }
}

/// The short escapes: what follows a backslash, other than `u`.
pub open spec fn unesc_char(c: char) -> Option<char> {
    if c == '"' {
        Some('"')
    } else if c == '\\' {
        Some('\\')
    } else if c == '/' {
        Some('/')
    } else if c == 'n' {
        Some('\n')
    } else if c == 't' {
        Some('\t')
    } else if c == 'r' {
        Some('\r')
    } else if c == 'b' {
        Some(8u32 as char)
    } else if c == 'f' {
        Some(12u32 as char)
    } else {
        None
    }
}

/// A string body, read from just after the opening quote; yields the content
/// and the position after the closing quote.  Unicode escapes cover the
/// basic plane; surrogate code units are refused.
pub open spec fn parse_string_body(s: Seq<char>, i: int) -> Option<(Seq<char>, int)>
    decreases s.len() - i,
{
    if i < 0 || i >= s.len() {
        None
    } else if s[i] == '"' {
        Some((Seq::empty(), i + 1))
    } else if s[i] == '\\' {
        if i + 1 >= s.len() {
            None
        } else if s[i + 1] == 'u' {
            if i + 6 > s.len() {
                None
            } else if is_hex(s[i + 2]) && is_hex(s[i + 3]) && is_hex(s[i + 4]) && is_hex(
                s[i + 5],
            ) {
                let n = hex_val(s[i + 2]) * 4096 + hex_val(s[i + 3]) * 256 + hex_val(s[i + 4])
                    * 16 + hex_val(s[i + 5]);
                if 0xD800 <= n < 0xE000 {
                    None
                } else {
                    match parse_string_body(s, i + 6) {
                        Some((rest, k)) => Some((seq![n as u32 as char] + rest, k)),
                        None => None,
                    }
                }
            } else {
                None
            }
        } else {
            match unesc_char(s[i + 1]) {
                Some(c) => match parse_string_body(s, i + 2) {
                    Some((rest, k)) => Some((seq![c] + rest, k)),
                    None => None,
                },
                None => None,
            }
        }
    } else if (s[i] as u32) < 32 {
        None
    } else {
        match parse_string_body(s, i + 1) {
            Some((rest, k)) => Some((seq![s[i]] + rest, k)),
            None => None,
        }
    }
}

/// A number token starting at `i`: the maximal run of number characters,
/// accepted when it matches the number grammar.
pub open spec fn parse_number(s: Seq<char>, i: int) -> Option<(ValueV, int)> {
    let j = scan_num(s, i);
    let lex = s.subrange(i, j);
    if 0 <= i <= j <= s.len() && is_number_lexeme(lex) {
        Some((ValueV::Num(lex), j))
    } else {
        None
    }
}

/// A value starting at or after `i` (leading whitespace skipped).
pub open spec fn parse_value(s: Seq<char>, i: int) -> Option<(ValueV, int)>
    decreases s.len() - i, 0int,
{
    let j = skip_ws(s, i);
    if j < i || j >= s.len() {
        None
    } else if s[j] == '"' {
        match parse_string_body(s, j + 1) {
            Some((content, k)) => Some((ValueV::Str(content), k)),
            None => None,
        }
    } else if s[j] == '[' {
        parse_array(s, j + 1)
    } else if s[j] == '{' {
        parse_object(s, j + 1)
    } else if s[j] == 'n' {
        if s.len() - j >= 4 && s[j + 1] == 'u' && s[j + 2] == 'l' && s[j + 3] == 'l' {
            Some((ValueV::Nil, j + 4))
        } else {
            None
        }
    } else if s[j] == 't' {
        if s.len() - j >= 4 && s[j + 1] == 'r' && s[j + 2] == 'u' && s[j + 3] == 'e' {
            Some((ValueV::Bool(true), j + 4))
        } else {
            None
        }
    } else if s[j] == 'f' {
        if s.len() - j >= 5 && s[j + 1] == 'a' && s[j + 2] == 'l' && s[j + 3] == 's' && s[j + 4]
            == 'e' {
            Some((ValueV::Bool(false), j + 5))
        } else {
            None
        }
    } else if s[j] == '-' || is_digit(s[j]) {
        parse_number(s, j)
    } else {
        None
    }
}

/// The inside of an array, read from just after the opening bracket.
pub open spec fn parse_array(s: Seq<char>, i: int) -> Option<(ValueV, int)>
    decreases s.len() - i, 1int,
{
    let j = skip_ws(s, i);
    if j < i || j >= s.len() {
        None
    } else if s[j] == ']' {
        Some((ValueV::Arr(Seq::empty()), j + 1))
    } else {
        match parse_value(s, j) {
            Some((v, k)) => if j < k <= s.len() {
                parse_array_rest(s, k, seq![v])
            } else {
                None
            },
            None => None,
        }
    }
}

/// The rest of an array after at least one element: either a closing
/// bracket, or a comma and a further element.
pub open spec fn parse_array_rest(s: Seq<char>, i: int, acc: Seq<ValueV>) -> Option<
    (ValueV, int),
>
    decreases s.len() - i, 1int,
{
    let j = skip_ws(s, i);
    if j < i || j >= s.len() {
        None
    } else if s[j] == ']' {
        Some((ValueV::Arr(acc), j + 1))
    } else if s[j] == ',' {
        match parse_value(s, j + 1) {
            Some((v, k)) => if j + 1 < k <= s.len() {
                parse_array_rest(s, k, acc.push(v))
            } else {
                None
            },
            None => None,
        }
    } else {
        None
    }
}

/// One `"key":value` member, read with `i` at or before the opening quote.
/// Yields the pair and the position after the value.
pub open spec fn parse_member(s: Seq<char>, i: int) -> Option<((Seq<char>, ValueV), int)>
    decreases s.len() - i, 0int,
{
    let j = skip_ws(s, i);
    if j < i || j >= s.len() {
        None
    } else if s[j] != '"' {
        None
    } else {
        match parse_string_body(s, j + 1) {
            Some((key, k)) => if k > j + 1 {
                let j2 = skip_ws(s, k);
                if j2 < k || j2 >= s.len() {
                    None
                } else if s[j2] != ':' {
                    None
                } else {
                    match parse_value(s, j2 + 1) {
                        Some((v, k2)) => Some(((key, v), k2)),
                        None => None,
                    }
                }
            } else {
                None
            },
            None => None,
        }
    }
}

/// The inside of an object, read from just after the opening brace.
pub open spec fn parse_object(s: Seq<char>, i: int) -> Option<(ValueV, int)>
    decreases s.len() - i, 1int,
{
    let j = skip_ws(s, i);
    if j < i || j >= s.len() {
        None
    } else if s[j] == '}' {
        Some((ValueV::Object(Seq::empty()), j + 1))
    } else {
        match parse_member(s, j) {
            Some((kv, k)) => if j < k <= s.len() {
                parse_object_rest(s, k, seq![kv])
            } else {
                None
            },
            None => None,
        }
    }
}

/// The rest of an object after at least one member.
pub open spec fn parse_object_rest(
    s: Seq<char>,
    i: int,
    acc: Seq<(Seq<char>, ValueV)>,
) -> Option<(ValueV, int)>
    decreases s.len() - i, 1int,
{
    let j = skip_ws(s, i);
    if j < i || j >= s.len() {
        None
    } else if s[j] == '}' {
        Some((ValueV::Object(acc), j + 1))
    } else if s[j] == ',' {
        match parse_member(s, j + 1) {
            Some((kv, k)) => if j + 1 < k <= s.len() {
                parse_object_rest(s, k, acc.push(kv))
            } else {
                None
            },
            None => None,
        }
    } else {
        None
    }
}

/// A whole document: one value, with nothing but whitespace after it.
pub open spec fn parse_json(s: Seq<char>) -> Option<ValueV> {
    match parse_value(s, 0) {
        Some((v, k)) => if 0 <= k <= s.len() && skip_ws(s, k) == s.len() {
            Some(v)
        } else {
            None
        },
        None => None,
    }
}

// ---------------------------------------------------------------------------
// Round trip: parsing a rendered value yields that value back.
// ---------------------------------------------------------------------------

/// `t` occurs in `s` at position `i`.
pub open spec fn text_at(s: Seq<char>, i: int, t: Seq<char>) -> bool {
    &&& 0 <= i
    &&& i + t.len() <= s.len()
    &&& forall|k: int| 0 <= k < t.len() ==> #[trigger] s[i + k] == t[k]
}

pub proof fn lemma_text_at_index(s: Seq<char>, i: int, t: Seq<char>, k: int)
    requires
        text_at(s, i, t),
        0 <= k < t.len(),
    ensures
        s[i + k] == t[k],
{
}

/// Position `j` does not continue a number token.
pub open spec fn num_boundary(s: Seq<char>, j: int) -> bool {
    j == s.len() || !is_num_char(s[j])
}

pub proof fn lemma_text_at_concat(s: Seq<char>, i: int, a: Seq<char>, b: Seq<char>)
    requires
        text_at(s, i, a + b),
    ensures
        text_at(s, i, a),
        text_at(s, i + a.len(), b),
{
    assert forall|k: int| 0 <= k < a.len() implies s[i + k] == a[k] by {
        assert(s[i + k] == (a + b)[k]);
    }
    assert forall|k: int| 0 <= k < b.len() implies s[i + a.len() + k] == b[k] by {
        assert(s[i + (a.len() + k)] == (a + b)[a.len() + k]);
    }
}

/// A rendered value is never empty, and its first character is a value
/// opener: never whitespace nor a structural closer or separator.
pub proof fn lemma_render_head(v: ValueV)
    requires
        wf_value(v),
    ensures
        render_value(v).len() >= 1,
        !is_ws(render_value(v)[0]),
        render_value(v)[0] != ']',
        render_value(v)[0] != '}',
        render_value(v)[0] != ',',
        render_value(v)[0] != ':',
{
    match v {
        ValueV::Num(lex) => {
            crate::arma_value::lemma_number_lexeme_chars(lex);
            assert(is_num_char(lex[0]));
        },
        _ => {},
    }
}

/// `hex_char` writes a digit that `hex_val` reads back.
pub proof fn lemma_hex_char_val(d: nat)
    requires
        d < 16,
    ensures
        is_hex(hex_char(d)),
        hex_val(hex_char(d)) == d,
{
}

/// Parsing a string body over the escaped rendering of `content` (from
/// `idx` on) recovers the remaining content and stops after the closing
/// quote.
proof fn lemma_parse_esc(s: Seq<char>, i: int, content: Seq<char>, idx: int)
    requires
        0 <= idx <= content.len(),
        text_at(s, i, esc_from(content, idx) + seq!['"']),
    ensures
        parse_string_body(s, i) == Some(
            (content.subrange(idx, content.len() as int), i + esc_from(content, idx).len() + 1),
        ),
    decreases content.len() - idx,
{
    let tail = esc_from(content, idx);
    if idx == content.len() {
        assert(tail =~= Seq::<char>::empty());
        lemma_text_at_index(s, i, tail + seq!['"'], 0);
        assert((tail + seq!['"'])[0] == '"');
        assert(s[i] == '"');
        assert(content.subrange(idx, content.len() as int) =~= Seq::<char>::empty());
    } else {
        let c = content[idx];
        let e = esc_char(c);
        let rest = esc_from(content, idx + 1);
        assert(tail == e + rest);
        assert(tail + seq!['"'] =~= e + (rest + seq!['"']));
        lemma_text_at_concat(s, i, e, rest + seq!['"']);
        lemma_parse_esc(s, i + e.len(), content, idx + 1);
        let inner = content.subrange(idx + 1, content.len() as int);
        assert(seq![c] + inner =~= content.subrange(idx, content.len() as int));
        if c == '"' {
            lemma_text_at_index(s, i, e, 0);
            lemma_text_at_index(s, i, e, 1);
            assert(s[i] == '\\' && s[i + 1] == '"');
        } else if c == '\\' {
            lemma_text_at_index(s, i, e, 0);
            lemma_text_at_index(s, i, e, 1);
            assert(s[i] == '\\' && s[i + 1] == '\\');
        } else if (c as u32) < 32 {
            let hi = (c as u32 / 16) as nat;
            let lo = (c as u32 % 16) as nat;
            lemma_hex_char_val(hi);
            lemma_hex_char_val(lo);
            lemma_text_at_index(s, i, e, 0);
            lemma_text_at_index(s, i, e, 1);
            lemma_text_at_index(s, i, e, 2);
            lemma_text_at_index(s, i, e, 3);
            lemma_text_at_index(s, i, e, 4);
            lemma_text_at_index(s, i, e, 5);
            assert(s[i] == '\\');
            assert(s[i + 1] == 'u');
            assert(s[i + 2] == '0');
            assert(s[i + 3] == '0');
            assert(s[i + 4] == hex_char(hi));
            assert(s[i + 5] == hex_char(lo));
            assert(is_hex('0') && hex_val('0') == 0);
            let n = hex_val(s[i + 2]) * 4096 + hex_val(s[i + 3]) * 256 + hex_val(s[i + 4]) * 16
                + hex_val(s[i + 5]);
            assert(n == hi * 16 + lo);
            assert(n == c as u32) by {
                assert(c as u32 == 16 * (c as u32 / 16) + c as u32 % 16);
            }
            assert(n as u32 as char == c) by {
                vstd::utf8::char_u32_cast(c, c as u32);
            }
        } else {
            lemma_text_at_index(s, i, e, 0);
            assert(s[i] == c);
        }
    }
}

/// Over the rendering of a valid number lexeme, the scanner stops exactly
/// at its end.
proof fn lemma_scan_over(s: Seq<char>, i: int, j: int)
    requires
        0 <= i <= j <= s.len(),
        forall|k: int| i <= k < j ==> is_num_char(#[trigger] s[k]),
        num_boundary(s, j),
    ensures
        scan_num(s, i) == j,
    decreases j - i,
{
    if i < j {
        lemma_scan_over(s, i + 1, j);
    }
}

/// The tail of an array rendering after element `idx - 1`: either the
/// closing bracket alone, or a comma, the remaining elements, and the
/// closing bracket.
pub open spec fn items_tail(items: Seq<ValueV>, idx: int) -> Seq<char> {
    if idx >= items.len() {
        seq![']']
    } else {
        seq![','] + render_items(items, idx) + seq![']']
    }
}

pub open spec fn members_tail(pairs: Seq<(Seq<char>, ValueV)>, idx: int) -> Seq<char> {
    if idx >= pairs.len() {
        seq!['}']
    } else {
        seq![','] + render_members(pairs, idx) + seq!['}']
    }
}

/// Parsing the rendering of a well-formed value starting at `i` yields
/// exactly that value and consumes exactly its rendering.
#[verifier::rlimit(100)]
pub proof fn lemma_parse_render(s: Seq<char>, i: int, v: ValueV)
    requires
        wf_value(v),
        text_at(s, i, render_value(v)),
        num_boundary(s, i + render_value(v).len()),
    ensures
        parse_value(s, i) == Some((v, i + render_value(v).len())),
    decreases v, 0int,
{
    let r = render_value(v);
    lemma_render_head(v);
    lemma_text_at_index(s, i, r, 0);
    assert(s[i] == r[0]);
    assert(skip_ws(s, i) == i);
    match v {
        ValueV::Nil => {
            lemma_text_at_index(s, i, r, 1);
            lemma_text_at_index(s, i, r, 2);
            lemma_text_at_index(s, i, r, 3);
            assert(s[i + 1] == 'u' && s[i + 2] == 'l' && s[i + 3] == 'l');
        },
        ValueV::Bool(b) => {
            lemma_text_at_index(s, i, r, 1);
            lemma_text_at_index(s, i, r, 2);
            lemma_text_at_index(s, i, r, 3);
            if b {
                assert(s[i + 1] == 'r' && s[i + 2] == 'u' && s[i + 3] == 'e');
            } else {
                lemma_text_at_index(s, i, r, 4);
                assert(s[i + 1] == 'a' && s[i + 2] == 'l' && s[i + 3] == 's' && s[i + 4] == 'e');
            }
        },
        ValueV::Num(lex) => {
            crate::arma_value::lemma_number_lexeme_chars(lex);
            assert forall|k: int| i <= k < i + lex.len() implies is_num_char(#[trigger] s[k]) by {
                lemma_text_at_index(s, i, lex, k - i);
            }
            lemma_scan_over(s, i, i + lex.len());
            assert forall|k: int| 0 <= k < lex.len() implies s.subrange(i, i + lex.len())[k]
                == lex[k] by {
                lemma_text_at_index(s, i, lex, k);
            }
            assert(s.subrange(i, i + lex.len()) =~= lex);
        },
        ValueV::Str(content) => {
            assert(r =~= seq!['"'] + (esc_from(content, 0) + seq!['"']));
            lemma_text_at_concat(s, i, seq!['"'], esc_from(content, 0) + seq!['"']);
            lemma_parse_esc(s, i + 1, content, 0);
            assert(content.subrange(0, content.len() as int) =~= content);
        },
        ValueV::Arr(items) => {
            if items.len() == 0 {
                assert(render_items(items, 0) =~= Seq::<char>::empty());
                lemma_text_at_index(s, i, r, 1);
                assert(r[1] == ']');
                assert(s[i + 1] == ']');
                assert(skip_ws(s, i + 1) == i + 1);
                assert(parse_array(s, i + 1) == Some((ValueV::Arr(Seq::<ValueV>::empty()), i + 2)));
                assert(items =~= Seq::<ValueV>::empty());
                assert(v == ValueV::Arr(Seq::<ValueV>::empty()));
            } else {
                let e0 = render_value(items[0]);
                assert(render_items(items, 0) == if items.len() == 1 {
                    e0
                } else {
                    e0 + seq![','] + render_items(items, 1)
                });
                assert(r =~= seq!['['] + (e0 + items_tail(items, 1)));
                lemma_text_at_concat(s, i, seq!['['], e0 + items_tail(items, 1));
                lemma_text_at_concat(s, i + 1, e0, items_tail(items, 1));
                assert(wf_value(items[0]));
                lemma_render_head(items[0]);
                assert(s[i + 1 + e0.len()] == items_tail(items, 1)[0]);
                lemma_parse_render(s, i + 1, items[0]);
                assert(skip_ws(s, i + 1) == i + 1);
                lemma_parse_items(s, i + 1 + e0.len(), items, 1, seq![items[0]]);
                assert(items.subrange(0, 1) =~= seq![items[0]]);
                assert(parse_array(s, i + 1) == Some(
                    (ValueV::Arr(items), i + 1 + e0.len() + items_tail(items, 1).len()),
                ));
            }
        },
        ValueV::Object(pairs) => {
            if pairs.len() == 0 {
                assert(render_members(pairs, 0) =~= Seq::<char>::empty());
                lemma_text_at_index(s, i, r, 1);
                assert(r[1] == '}');
                assert(s[i + 1] == '}');
                assert(skip_ws(s, i + 1) == i + 1);
                assert(parse_object(s, i + 1) == Some(
                    (ValueV::Object(Seq::<(Seq<char>, ValueV)>::empty()), i + 2),
                ));
                assert(pairs =~= Seq::<(Seq<char>, ValueV)>::empty());
                assert(v == ValueV::Object(Seq::<(Seq<char>, ValueV)>::empty()));
            } else {
                let m0 = quoted(pairs[0].0) + seq![':'] + render_value(pairs[0].1);
                assert(render_members(pairs, 0) == if pairs.len() == 1 {
                    m0
                } else {
                    m0 + seq![','] + render_members(pairs, 1)
                });
                assert(r =~= seq!['{'] + (m0 + members_tail(pairs, 1)));
                lemma_text_at_concat(s, i, seq!['{'], m0 + members_tail(pairs, 1));
                lemma_text_at_concat(s, i + 1, m0, members_tail(pairs, 1));
                assert(s[i + 1 + m0.len()] == members_tail(pairs, 1)[0]);
                lemma_parse_member_render(s, i + 1, pairs[0].0, pairs[0].1);
                assert(skip_ws(s, i + 1) == i + 1) by {
                    assert(s[i + 1] == m0[0]);
                    assert(m0[0] == '"');
                }
                lemma_parse_members(s, i + 1 + m0.len(), pairs, 1, seq![pairs[0]]);
                assert(pairs.subrange(0, 1) =~= seq![pairs[0]]);
                assert(parse_object(s, i + 1) == Some(
                    (ValueV::Object(pairs), i + 1 + m0.len() + members_tail(pairs, 1).len()),
                ));
            }
        },
    }
}

/// One member of an object rendering parses to its key/value pair.
proof fn lemma_parse_member_render(s: Seq<char>, i: int, key: Seq<char>, val: ValueV)
    requires
        wf_value(val),
        text_at(s, i, quoted(key) + seq![':'] + render_value(val)),
        num_boundary(s, i + quoted(key).len() + 1 + render_value(val).len()),
    ensures
        parse_member(s, i) == Some(
            ((key, val), i + quoted(key).len() + 1 + render_value(val).len()),
        ),
    decreases val, 1int,
{
    let q = quoted(key);
    assert(q + seq![':'] + render_value(val) =~= q + (seq![':'] + render_value(val)));
    lemma_text_at_concat(s, i, q, seq![':'] + render_value(val));
    lemma_text_at_concat(s, i + q.len(), seq![':'], render_value(val));
    lemma_text_at_index(s, i, q, 0);
    assert(s[i] == q[0]);
    assert(q[0] == '"');
    assert(skip_ws(s, i) == i);
    assert(q =~= seq!['"'] + (esc_from(key, 0) + seq!['"']));
    lemma_text_at_concat(s, i, seq!['"'], esc_from(key, 0) + seq!['"']);
    lemma_parse_esc(s, i + 1, key, 0);
    assert(key.subrange(0, key.len() as int) =~= key);
    let k = i + q.len();
    lemma_text_at_index(s, k, seq![':'], 0);
    assert(s[k] == ':');
    assert(skip_ws(s, k) == k);
    lemma_parse_render(s, k + 1, val);
}

/// After `idx` elements have been read, the rest of an array rendering
/// parses to the whole array.
proof fn lemma_parse_items(s: Seq<char>, i: int, items: Seq<ValueV>, idx: int, acc: Seq<ValueV>)
    requires
        1 <= idx <= items.len(),
        forall|k: int| 0 <= k < items.len() ==> wf_value(#[trigger] items[k]),
        acc =~= items.subrange(0, idx),
        text_at(s, i, items_tail(items, idx)),
        num_boundary(s, i + items_tail(items, idx).len()),
    ensures
        parse_array_rest(s, i, acc) == Some((ValueV::Arr(items), i + items_tail(items, idx).len())),
    decreases items, items.len() - idx,
{
    if idx == items.len() {
        lemma_text_at_index(s, i, items_tail(items, idx), 0);
        assert(s[i] == ']');
        assert(skip_ws(s, i) == i);
        assert(acc =~= items);
    } else {
        let e = render_value(items[idx]);
        assert(render_items(items, idx) == if idx + 1 == items.len() {
            e
        } else {
            e + seq![','] + render_items(items, idx + 1)
        });
        assert(items_tail(items, idx) =~= seq![','] + (e + items_tail(items, idx + 1)));
        lemma_text_at_concat(s, i, seq![','], e + items_tail(items, idx + 1));
        lemma_text_at_concat(s, i + 1, e, items_tail(items, idx + 1));
        lemma_text_at_index(s, i, seq![','], 0);
        assert(s[i] == ',');
        assert(skip_ws(s, i) == i);
        lemma_render_head(items[idx]);
        assert(s[i + 1 + e.len()] == items_tail(items, idx + 1)[0]);
        lemma_parse_render(s, i + 1, items[idx]);
        lemma_parse_items(s, i + 1 + e.len(), items, idx + 1, acc.push(items[idx]));
        assert(acc.push(items[idx]) =~= items.subrange(0, idx + 1));
    }
}

/// After `idx` members have been read, the rest of an object rendering
/// parses to the whole object.
proof fn lemma_parse_members(
    s: Seq<char>,
    i: int,
    pairs: Seq<(Seq<char>, ValueV)>,
    idx: int,
    acc: Seq<(Seq<char>, ValueV)>,
)
    requires
        1 <= idx <= pairs.len(),
        forall|k: int| 0 <= k < pairs.len() ==> wf_value(#[trigger] pairs[k].1),
        acc =~= pairs.subrange(0, idx),
        text_at(s, i, members_tail(pairs, idx)),
        num_boundary(s, i + members_tail(pairs, idx).len()),
    ensures
        parse_object_rest(s, i, acc) == Some(
            (ValueV::Object(pairs), i + members_tail(pairs, idx).len()),
        ),
    decreases pairs, pairs.len() - idx,
{
    if idx == pairs.len() {
        lemma_text_at_index(s, i, members_tail(pairs, idx), 0);
        assert(s[i] == '}');
        assert(skip_ws(s, i) == i);
        assert(acc =~= pairs);
    } else {
        let m = quoted(pairs[idx].0) + seq![':'] + render_value(pairs[idx].1);
        assert(render_members(pairs, idx) == if idx + 1 == pairs.len() {
            m
        } else {
            m + seq![','] + render_members(pairs, idx + 1)
        });
        assert(members_tail(pairs, idx) =~= seq![','] + (m + members_tail(pairs, idx + 1)));
        lemma_text_at_concat(s, i, seq![','], m + members_tail(pairs, idx + 1));
        lemma_text_at_concat(s, i + 1, m, members_tail(pairs, idx + 1));
        lemma_text_at_index(s, i, seq![','], 0);
        assert(s[i] == ',');
        assert(skip_ws(s, i) == i);
        assert(s[i + 1 + m.len()] == members_tail(pairs, idx + 1)[0]);
        lemma_parse_member_render(s, i + 1, pairs[idx].0, pairs[idx].1);
        lemma_parse_members(s, i + 1 + m.len(), pairs, idx + 1, acc.push(pairs[idx]));
        assert(acc.push(pairs[idx]) =~= pairs.subrange(0, idx + 1));
    }
}

/// The round trip at the document level: rendering a well-formed value and
/// parsing the text back yields the same value.
pub proof fn lemma_parse_render_json(v: ValueV)
    requires
        wf_value(v),
    ensures
        parse_json(render_value(v)) == Some(v),
{
    let s = render_value(v);
    assert(text_at(s, 0, s));
    lemma_parse_render(s, 0, v);
}


// ---------------------------------------------------------------------------
// Executable rendering.
// ---------------------------------------------------------------------------

/// The hex digit character for `d`, lower case.
fn hex_digit_char(d: u32) -> (r: char)
    requires
        d < 16,
    ensures
        r == hex_char(d as nat),
{
    if d < 10 {
        (48 + d as u8) as char
    } else {
        (87 + d as u8) as char
    }
}

/// The escaped renderings from later positions are suffixes of earlier ones.
proof fn lemma_esc_suffix(s: Seq<char>, i: int, j: int)
    requires
        0 <= i <= j <= s.len(),
    ensures
        esc_from(s, j).len() <= esc_from(s, i).len(),
        exists|p: Seq<char>| esc_from(s, i) == p + esc_from(s, j),
    decreases j - i,
{
    if i < j {
        lemma_esc_suffix(s, i + 1, j);
        let p0 = choose|p: Seq<char>| esc_from(s, i + 1) == p + esc_from(s, j);
        let here = esc_char(s[i]);
        assert(esc_from(s, i) == here + esc_from(s, i + 1));
        assert(esc_from(s, i) == (here + p0) + esc_from(s, j)) by {
            assert(here + (p0 + esc_from(s, j)) =~= (here + p0) + esc_from(s, j));
        }
    } else {
        assert(esc_from(s, i) == Seq::<char>::empty() + esc_from(s, j)) by {
            assert(Seq::<char>::empty() + esc_from(s, j) =~= esc_from(s, j));
        }
    }
}

/// Stepping one source character appends its escape to the rendered prefix.
proof fn lemma_esc_step(s: Seq<char>, i: int)
    requires
        0 <= i <= s.len(),
    ensures
        forall|j: int| i <= j <= s.len() ==> #[trigger] esc_from(s, j).len() <= esc_from(
            s,
            i,
        ).len(),
        i < s.len() ==> esc_from(s, 0).subrange(
            0,
            esc_from(s, 0).len() - esc_from(s, i + 1).len(),
        ) == esc_from(s, 0).subrange(0, esc_from(s, 0).len() - esc_from(s, i).len()) + esc_char(
            s[i],
        ),
    decreases s.len() - i,
{
    assert forall|j: int| i <= j <= s.len() implies #[trigger] esc_from(s, j).len() <= esc_from(
        s,
        i,
    ).len() by {
        lemma_esc_suffix(s, i, j);
    }
    lemma_esc_suffix(s, 0, i);
    if i < s.len() {
        lemma_esc_suffix(s, 0, i + 1);
        let whole = esc_from(s, 0);
        let here = esc_char(s[i]);
        assert(esc_from(s, i) == here + esc_from(s, i + 1));
        assert(whole.subrange(0, whole.len() - esc_from(s, i + 1).len()) =~= whole.subrange(
            0,
            whole.len() - esc_from(s, i).len(),
        ) + here);
    }
}

/// Appends the quoted, escaped rendering of `s` to `out`.
fn push_quoted(s: &String, out: &mut Vec<char>)
    ensures
        final(out)@ == old(out)@ + quoted(s@),
{
    out.push('"');
    let cs = crate::text::str_to_chars(s.as_str());
    let mut k: usize = 0;
    while k < cs.len()
        invariant
            0 <= k <= cs.len(),
            cs@ == s@,
            out@ == old(out)@ + seq!['"'] + esc_from(s@, 0).subrange(
                0,
                esc_from(s@, 0).len() - esc_from(s@, k as int).len(),
            ),
            esc_from(s@, k as int).len() <= esc_from(s@, 0).len(),
        decreases cs.len() - k,
    {
        proof {
            lemma_esc_step(s@, k as int);
        }
        let c = cs[k];
        if c == '"' {
            out.push('\\');
            out.push('"');
        } else if c == '\\' {
            out.push('\\');
            out.push('\\');
        } else if (c as u32) < 32 {
            let n = c as u32;
            out.push('\\');
            out.push('u');
            out.push('0');
            out.push('0');
            out.push(hex_digit_char(n / 16));
            out.push(hex_digit_char(n % 16));
        } else {
            out.push(c);
        }
        proof {
            lemma_esc_step(s@, k as int);
            assert(out@ =~= old(out)@ + seq!['"'] + esc_from(s@, 0).subrange(
                0,
                esc_from(s@, 0).len() - esc_from(s@, k + 1int).len(),
            ));
        }
        k = k + 1;
    }
    out.push('"');
    proof {
        assert(esc_from(s@, s@.len() as int).len() == 0);
        assert(esc_from(s@, 0).subrange(0, esc_from(s@, 0).len() as int) =~= esc_from(s@, 0));
        assert(out@ =~= old(out)@ + quoted(s@));
    }
}

fn push_render(v: &ArmaValue, out: &mut Vec<char>)
    ensures
        final(out)@ == old(out)@ + render_value(v@),
    decreases v, 0int,
{
    match v {
        ArmaValue::Nil => {
            out.push('n');
            out.push('u');
            out.push('l');
            out.push('l');
            proof {
                assert(out@ =~= old(out)@ + render_value(v@));
            }
        },
        ArmaValue::Number(s) => {
            crate::arma_value::push_str_chars(s, out);
        },
        ArmaValue::Boolean(b) => {
            if *b {
                out.push('t');
                out.push('r');
                out.push('u');
                out.push('e');
            } else {
                out.push('f');
                out.push('a');
                out.push('l');
                out.push('s');
                out.push('e');
            }
            proof {
                assert(out@ =~= old(out)@ + render_value(v@));
            }
        },
        ArmaValue::String(s) => {
            push_quoted(s, out);
        },
        ArmaValue::Array(items) => {
            out.push('[');
            push_render_items(items, 0, out);
            out.push(']');
            proof {
                assert(out@ =~= old(out)@ + render_value(v@));
            }
        },
        ArmaValue::HashMap(pairs) => {
            out.push('{');
            push_render_members(pairs, 0, out);
            out.push('}');
            proof {
                assert(out@ =~= old(out)@ + render_value(v@));
            }
        },
    }
}

fn push_render_items(items: &Vec<ArmaValue>, idx: usize, out: &mut Vec<char>)
    requires
        idx <= items@.len(),
    ensures
        final(out)@ == old(out)@ + render_items(crate::arma_value::seq_view(items@), idx as int),
    decreases items, items@.len() - idx + 1,
{
    let ghost vs = crate::arma_value::seq_view(items@);
    if idx < items.len() {
        push_render(&items[idx], out);
        proof {
            assert(items@[idx as int]@ == vs[idx as int]);
        }
        if idx + 1 < items.len() {
            out.push(',');
            push_render_items(items, idx + 1, out);
            proof {
                assert(out@ =~= old(out)@ + render_items(vs, idx as int));
            }
        } else {
            proof {
                assert(out@ =~= old(out)@ + render_items(vs, idx as int));
            }
        }
    } else {
        proof {
            assert(out@ =~= old(out)@ + render_items(vs, idx as int));
        }
    }
}

fn push_render_members(pairs: &Vec<(String, ArmaValue)>, idx: usize, out: &mut Vec<char>)
    requires
        idx <= pairs@.len(),
    ensures
        final(out)@ == old(out)@ + render_members(
            crate::arma_value::pairs_view(pairs@),
            idx as int,
        ),
    decreases pairs, pairs@.len() - idx + 1,
{
    let ghost vs = crate::arma_value::pairs_view(pairs@);
    if idx < pairs.len() {
        push_quoted(&pairs[idx].0, out);
        out.push(':');
        push_render(&pairs[idx].1, out);
        proof {
            assert(pairs@[idx as int].0@ == vs[idx as int].0);
            assert(pairs@[idx as int].1@ == vs[idx as int].1);
        }
        if idx + 1 < pairs.len() {
            out.push(',');
            push_render_members(pairs, idx + 1, out);
            proof {
                assert(out@ =~= old(out)@ + render_members(vs, idx as int));
            }
        } else {
            proof {
                assert(out@ =~= old(out)@ + render_members(vs, idx as int));
            }
        }
    } else {
        proof {
            assert(out@ =~= old(out)@ + render_members(vs, idx as int));
        }
    }
}

/// Renders a value as compact structured text.
pub fn render_json(v: &ArmaValue) -> (r: String)
    ensures
        r@ == render_value(v@),
{
    let mut out: Vec<char> = Vec::new();
    push_render(v, &mut out);
    crate::text::chars_to_string(&out)
}

// ---------------------------------------------------------------------------
// Executable parsing.
// ---------------------------------------------------------------------------

fn e_skip_ws(s: &Vec<char>, i: usize) -> (j: usize)
    requires
        i <= s@.len(),
    ensures
        j as int == skip_ws(s@, i as int),
        i <= j <= s@.len(),
{
    let mut k: usize = i;
    while k < s.len() && (s[k] == ' ' || s[k] == '\t' || s[k] == '\n' || s[k] == '\r')
        invariant
            i <= k <= s@.len(),
            skip_ws(s@, i as int) == skip_ws(s@, k as int),
        decreases s@.len() - k,
    {
        k = k + 1;
    }
    k
}

fn e_scan_num(s: &Vec<char>, i: usize) -> (j: usize)
    requires
        i <= s@.len(),
    ensures
        j as int == scan_num(s@, i as int),
        i <= j <= s@.len(),
{
    let mut k: usize = i;
    while k < s.len() && (('0' <= s[k] && s[k] <= '9') || s[k] == '-' || s[k] == '+' || s[k] == '.'
        || s[k] == 'e' || s[k] == 'E')
        invariant
            i <= k <= s@.len(),
            scan_num(s@, i as int) == scan_num(s@, k as int),
        decreases s@.len() - k,
    {
        k = k + 1;
    }
    k
}

fn e_digits_end(s: &Vec<char>, i: usize) -> (j: usize)
    requires
        i <= s@.len(),
    ensures
        j as int == crate::arma_value::digits_end(s@, i as int),
        i <= j <= s@.len(),
{
    let mut k: usize = i;
    while k < s.len() && '0' <= s[k] && s[k] <= '9'
        invariant
            i <= k <= s@.len(),
            crate::arma_value::digits_end(s@, i as int) == crate::arma_value::digits_end(
                s@,
                k as int,
            ),
        decreases s@.len() - k,
    {
        k = k + 1;
    }
    k
}

/// Whether `v` holds a valid number lexeme.
fn check_number_lexeme(v: &Vec<char>) -> (b: bool)
    ensures
        b == is_number_lexeme(v@),
{
    let n = v.len();
    let i0: usize = if n > 0 && v[0] == '-' {
        1
    } else {
        0
    };
    if i0 >= n {
        return false;
    }
    if !('0' <= v[i0] && v[i0] <= '9') {
        return false;
    }
    let i1 = e_digits_end(v, i0);
    if v[i0] == '0' && i1 != i0 + 1 {
        return false;
    }
    let i2: usize = if i1 < n && v[i1] == '.' {
        if i1 + 1 < n && '0' <= v[i1 + 1] && v[i1 + 1] <= '9' {
            e_digits_end(v, i1 + 1)
        } else {
            return false;
        }
    } else {
        i1
    };
    proof {
        assert(frac_end(v@, i1 as int) == Some(i2 as int));
    }
    let i3: usize = if i2 < n && (v[i2] == 'e' || v[i2] == 'E') {
        let j: usize = if i2 + 1 < n && (v[i2 + 1] == '+' || v[i2 + 1] == '-') {
            i2 + 2
        } else {
            i2 + 1
        };
        if j < n && '0' <= v[j] && v[j] <= '9' {
            e_digits_end(v, j)
        } else {
            return false;
        }
    } else {
        i2
    };
    proof {
        assert(exp_end(v@, i2 as int) == Some(i3 as int));
    }
    i3 == n
}

/// Relies on `char::from_u32`: yields the character for exactly the valid
/// scalar values, and nothing otherwise.
#[verifier::external_body]
fn char_from_u32(n: u32) -> (r: Option<char>)
    ensures
        r matches Some(c) ==> c as u32 == n,
        (n < 0xD800 || (0xE000 <= n && n <= 0x10FFFF)) <==> r is Some,
{
    char::from_u32(n)
}

fn is_hex_exec(c: char) -> (b: bool)
    ensures
        b == is_hex(c),
{
    ('0' <= c && c <= '9') || ('a' <= c && c <= 'f') || ('A' <= c && c <= 'F')
}

fn hex_value(c: char) -> (r: u32)
    requires
        is_hex(c),
    ensures
        r == hex_val(c),
        r < 16,
{
    let n = c as u32;
    if n >= 97 {
        n - 87
    } else if n >= 65 {
        n - 55
    } else {
        n - 48
    }
}

fn p_string_body(s: &Vec<char>, i: usize) -> (r: Option<(Vec<char>, usize)>)
    requires
        i <= s@.len(),
    ensures
        match r {
            Some(p) => parse_string_body(s@, i as int) == Some((p.0@, p.1 as int)) && i < p.1
                <= s@.len(),
            None => parse_string_body(s@, i as int) is None,
        },
    decreases s@.len() - i,
{
    if i >= s.len() {
        return None;
    }
    let c = s[i];
    if c == '"' {
        let content: Vec<char> = Vec::new();
        proof {
            assert(content@ =~= Seq::<char>::empty());
        }
        return Some((content, i + 1));
    }
    if c == '\\' {
        if i + 1 >= s.len() {
            return None;
        }
        let e = s[i + 1];
        if e == 'u' {
            if s.len() - i < 6 {
                return None;
            }
            if !(is_hex_exec(s[i + 2]) && is_hex_exec(s[i + 3]) && is_hex_exec(s[i + 4])
                && is_hex_exec(s[i + 5])) {
                return None;
            }
            let n = hex_value(s[i + 2]) * 4096 + hex_value(s[i + 3]) * 256 + hex_value(s[i + 4])
                * 16 + hex_value(s[i + 5]);
            if 0xD800 <= n && n < 0xE000 {
                return None;
            }
            let ch = match char_from_u32(n) {
                Some(ch) => ch,
                None => {
                    proof {
                        assert(false);
                    }
                    return None;
                },
            };
            match p_string_body(s, i + 6) {
                Some((mut rest, k)) => {
                    rest.insert(0, ch);
                    proof {
                        vstd::utf8::char_u32_cast(ch, n);
                        assert(rest@ =~= seq![ch] + rest@.subrange(1, rest@.len() as int));
                    }
                    Some((rest, k))
                },
                None => None,
            }
        } else {
            let unescaped: char = if e == '"' {
                '"'
            } else if e == '\\' {
                '\\'
            } else if e == '/' {
                '/'
            } else if e == 'n' {
                '\n'
            } else if e == 't' {
                '\t'
            } else if e == 'r' {
                '\r'
            } else if e == 'b' {
                match char_from_u32(8) {
                    Some(ch) => ch,
                    None => {
                        return None;
                    },
                }
            } else if e == 'f' {
                match char_from_u32(12) {
                    Some(ch) => ch,
                    None => {
                        return None;
                    },
                }
            } else {
                return None;
            };
            proof {
                if e == 'b' || e == 'f' {
                    vstd::utf8::char_u32_cast(unescaped, unescaped as u32);
                }
                assert(unesc_char(e) == Some(unescaped));
            }
            match p_string_body(s, i + 2) {
                Some((mut rest, k)) => {
                    rest.insert(0, unescaped);
                    proof {
                        assert(rest@ =~= seq![unescaped] + rest@.subrange(1, rest@.len() as int));
                    }
                    Some((rest, k))
                },
                None => None,
            }
        }
    } else if (c as u32) < 32 {
        None
    } else {
        match p_string_body(s, i + 1) {
            Some((mut rest, k)) => {
                rest.insert(0, c);
                proof {
                    assert(rest@ =~= seq![c] + rest@.subrange(1, rest@.len() as int));
                }
                Some((rest, k))
            },
            None => None,
        }
    }
}

fn p_number(s: &Vec<char>, i: usize) -> (r: Option<(ArmaValue, usize)>)
    requires
        i <= s@.len(),
    ensures
        match r {
            Some(p) => parse_number(s@, i as int) == Some((p.0@, p.1 as int)) && i <= p.1
                <= s@.len(),
            None => parse_number(s@, i as int) is None,
        },
{
    let j = e_scan_num(s, i);
    let mut lex: Vec<char> = Vec::new();
    let mut k: usize = i;
    proof {
        assert(lex@ =~= s@.subrange(i as int, i as int));
    }
    while k < j
        invariant
            i <= k <= j <= s@.len(),
            lex@ == s@.subrange(i as int, k as int),
        decreases j - k,
    {
        lex.push(s[k]);
        proof {
            assert(lex@ =~= s@.subrange(i as int, k + 1int));
        }
        k = k + 1;
    }
    if check_number_lexeme(&lex) {
        Some((ArmaValue::Number(crate::text::chars_to_string(&lex)), j))
    } else {
        None
    }
}

fn p_value(s: &Vec<char>, i: usize) -> (r: Option<(ArmaValue, usize)>)
    requires
        i <= s@.len(),
    ensures
        match r {
            Some(p) => parse_value(s@, i as int) == Some((p.0@, p.1 as int)) && i <= p.1
                <= s@.len(),
            None => parse_value(s@, i as int) is None,
        },
    decreases s@.len() - i, 0int,
{
    let j = e_skip_ws(s, i);
    if j >= s.len() {
        return None;
    }
    let c = s[j];
    if c == '"' {
        match p_string_body(s, j + 1) {
            Some((content, k)) => Some(
                (ArmaValue::String(crate::text::chars_to_string(&content)), k),
            ),
            None => None,
        }
    } else if c == '[' {
        p_array(s, j + 1)
    } else if c == '{' {
        p_object(s, j + 1)
    } else if c == 'n' {
        if s.len() - j >= 4 && s[j + 1] == 'u' && s[j + 2] == 'l' && s[j + 3] == 'l' {
            Some((ArmaValue::Nil, j + 4))
        } else {
            None
        }
    } else if c == 't' {
        if s.len() - j >= 4 && s[j + 1] == 'r' && s[j + 2] == 'u' && s[j + 3] == 'e' {
            Some((ArmaValue::Boolean(true), j + 4))
        } else {
            None
        }
    } else if c == 'f' {
        if s.len() - j >= 5 && s[j + 1] == 'a' && s[j + 2] == 'l' && s[j + 3] == 's' && s[j + 4]
            == 'e' {
            Some((ArmaValue::Boolean(false), j + 5))
        } else {
            None
        }
    } else if c == '-' || ('0' <= c && c <= '9') {
        p_number(s, j)
    } else {
        None
    }
}

fn p_array(s: &Vec<char>, i: usize) -> (r: Option<(ArmaValue, usize)>)
    requires
        i <= s@.len(),
    ensures
        match r {
            Some(p) => parse_array(s@, i as int) == Some((p.0@, p.1 as int)) && i <= p.1
                <= s@.len(),
            None => parse_array(s@, i as int) is None,
        },
    decreases s@.len() - i, 1int,
{
    let j = e_skip_ws(s, i);
    if j >= s.len() {
        return None;
    }
    if s[j] == ']' {
        let items: Vec<ArmaValue> = Vec::new();
        proof {
            assert(crate::arma_value::seq_view(items@) =~= Seq::<ValueV>::empty());
        }
        return Some((ArmaValue::Array(items), j + 1));
    }
    match p_value(s, j) {
        Some((v, k)) => {
            if j < k && k <= s.len() {
                let ghost vv = v@;
                let mut acc: Vec<ArmaValue> = Vec::new();
                acc.push(v);
                proof {
                    assert(crate::arma_value::seq_view(acc@) =~= seq![vv]);
                }
                p_array_rest(s, k, acc)
            } else {
                None
            }
        },
        None => None,
    }
}

fn p_array_rest(s: &Vec<char>, i: usize, acc: Vec<ArmaValue>) -> (r: Option<(ArmaValue, usize)>)
    requires
        i <= s@.len(),
    ensures
        match r {
            Some(p) => parse_array_rest(s@, i as int, crate::arma_value::seq_view(acc@)) == Some(
                (p.0@, p.1 as int),
            ) && i <= p.1 <= s@.len(),
            None => parse_array_rest(s@, i as int, crate::arma_value::seq_view(acc@)) is None,
        },
    decreases s@.len() - i, 1int,
{
    let ghost accv = crate::arma_value::seq_view(acc@);
    let j = e_skip_ws(s, i);
    if j >= s.len() {
        return None;
    }
    if s[j] == ']' {
        return Some((ArmaValue::Array(acc), j + 1));
    }
    if s[j] == ',' {
        match p_value(s, j + 1) {
            Some((v, k)) => {
                if j + 1 < k && k <= s.len() {
                    let ghost vv = v@;
                    let mut acc2 = acc;
                    acc2.push(v);
                    proof {
                        assert(crate::arma_value::seq_view(acc2@) =~= accv.push(vv));
                    }
                    p_array_rest(s, k, acc2)
                } else {
                    None
                }
            },
            None => None,
        }
    } else {
        None
    }
}

fn p_member(s: &Vec<char>, i: usize) -> (r: Option<((String, ArmaValue), usize)>)
    requires
        i <= s@.len(),
    ensures
        match r {
            Some(p) => parse_member(s@, i as int) == Some(((p.0.0@, p.0.1@), p.1 as int)) && i
                < p.1 <= s@.len(),
            None => parse_member(s@, i as int) is None,
        },
    decreases s@.len() - i, 0int,
{
    let j = e_skip_ws(s, i);
    if j >= s.len() {
        return None;
    }
    if s[j] != '"' {
        return None;
    }
    match p_string_body(s, j + 1) {
        Some((key, k)) => {
            if !(j + 1 < k) {
                return None;
            }
            let j2 = e_skip_ws(s, k);
            if j2 >= s.len() {
                return None;
            }
            if s[j2] != ':' {
                return None;
            }
            match p_value(s, j2 + 1) {
                Some((v, k2)) => Some(((crate::text::chars_to_string(&key), v), k2)),
                None => None,
            }
        },
        None => None,
    }
}

fn p_object(s: &Vec<char>, i: usize) -> (r: Option<(ArmaValue, usize)>)
    requires
        i <= s@.len(),
    ensures
        match r {
            Some(p) => parse_object(s@, i as int) == Some((p.0@, p.1 as int)) && i <= p.1
                <= s@.len(),
            None => parse_object(s@, i as int) is None,
        },
    decreases s@.len() - i, 1int,
{
    let j = e_skip_ws(s, i);
    if j >= s.len() {
        return None;
    }
    if s[j] == '}' {
        let pairs: Vec<(String, ArmaValue)> = Vec::new();
        proof {
            assert(crate::arma_value::pairs_view(pairs@) =~= Seq::<(Seq<char>, ValueV)>::empty());
        }
        return Some((ArmaValue::HashMap(pairs), j + 1));
    }
    match p_member(s, j) {
        Some((kv, k)) => {
            if j < k && k <= s.len() {
                let ghost kv0 = (kv.0@, kv.1@);
                let mut acc: Vec<(String, ArmaValue)> = Vec::new();
                acc.push(kv);
                proof {
                    assert(crate::arma_value::pairs_view(acc@) =~= seq![kv0]);
                }
                p_object_rest(s, k, acc)
            } else {
                None
            }
        },
        None => None,
    }
}

fn p_object_rest(s: &Vec<char>, i: usize, acc: Vec<(String, ArmaValue)>) -> (r: Option<
    (ArmaValue, usize),
>)
    requires
        i <= s@.len(),
    ensures
        match r {
            Some(p) => parse_object_rest(s@, i as int, crate::arma_value::pairs_view(acc@))
                == Some((p.0@, p.1 as int)) && i <= p.1 <= s@.len(),
            None => parse_object_rest(s@, i as int, crate::arma_value::pairs_view(acc@)) is None,
        },
    decreases s@.len() - i, 1int,
{
    let ghost accv = crate::arma_value::pairs_view(acc@);
    let j = e_skip_ws(s, i);
    if j >= s.len() {
        return None;
    }
    if s[j] == '}' {
        return Some((ArmaValue::HashMap(acc), j + 1));
    }
    if s[j] == ',' {
        match p_member(s, j + 1) {
            Some((kv, k)) => {
                if j + 1 < k && k <= s.len() {
                    let ghost kv0 = (kv.0@, kv.1@);
                    let mut acc2 = acc;
                    acc2.push(kv);
                    proof {
                        assert(crate::arma_value::pairs_view(acc2@) =~= accv.push(kv0));
                    }
                    p_object_rest(s, k, acc2)
                } else {
                    None
                }
            },
            None => None,
        }
    } else {
        None
    }
}

/// Parses one structured-text document: a single value with nothing but
/// whitespace around it.
pub fn parse_json_text(s: &Vec<char>) -> (r: Result<ArmaValue, DecodeError>)
    ensures
        match r {
            Ok(v) => parse_json(s@) == Some(v@),
            Err(e) => parse_json(s@) is None && e == DecodeError::StructureParse,
        },
{
    match p_value(s, 0) {
        Some((v, k)) => {
            let j = e_skip_ws(s, k);
            if j == s.len() {
                Ok(v)
            } else {
                Err(DecodeError::StructureParse)
            }
        },
        None => Err(DecodeError::StructureParse),
    }
}

} // verus!
