use vstd::prelude::*;

use crate::text::{chars_to_string, dec_digits, is_digit, u64_to_dec_string};

verus! {

/// The canonical recursive value tree: the intermediate representation
/// between raw host text and typed payloads, and also the shape of the
/// structured text that messages are serialized to.
///
/// Numbers are carried as their decimal lexeme, never as a binary float, so
/// that no digit is ever lost to rounding.  Maps are ordered lists of
/// string-keyed pairs; insertion order is kept.
#[derive(Debug, PartialEq)]
pub enum ArmaValue {
    Nil,
    Number(String),
    Boolean(bool),
    String(String),
    Array(Vec<ArmaValue>),
    HashMap(Vec<(String, ArmaValue)>),
}

/// Mathematical model of an [`ArmaValue`].
pub enum ValueV {
    Nil,
    Num(Seq<char>),
    Bool(bool),
    Str(Seq<char>),
    Arr(Seq<ValueV>),
    Object(Seq<(Seq<char>, ValueV)>),
}

/// The models of a sequence of values.
pub open spec fn seq_view(items: Seq<ArmaValue>) -> Seq<ValueV>
    decreases items,
{
    Seq::new(
        items.len(),
        |i: int|
            if 0 <= i < items.len() {
                items[i]@
            } else {
                ValueV::Nil
            },
    )
}

/// The models of a sequence of key/value pairs.
pub open spec fn pairs_view(pairs: Seq<(String, ArmaValue)>) -> Seq<(Seq<char>, ValueV)>
    decreases pairs,
{
    Seq::new(
        pairs.len(),
        |i: int|
            if 0 <= i < pairs.len() {
                (pairs[i].0@, pairs[i].1@)
            } else {
                (Seq::empty(), ValueV::Nil)
            },
    )
}

impl View for ArmaValue {
    type V = ValueV;

    open spec fn view(&self) -> ValueV
        decreases self,
    {
        match self {
            ArmaValue::Nil => ValueV::Nil,
            ArmaValue::Number(s) => ValueV::Num(s@),
            ArmaValue::Boolean(b) => ValueV::Bool(*b),
            ArmaValue::String(s) => ValueV::Str(s@),
            ArmaValue::Array(items) => ValueV::Arr(seq_view(items@)),
            ArmaValue::HashMap(pairs) => ValueV::Object(pairs_view(pairs@)),
        }
    }
}

/// Characters that may occur in a structured-text number.
pub open spec fn is_num_char(c: char) -> bool {
    is_digit(c) || c == '-' || c == '+' || c == '.' || c == 'e' || c == 'E'
}

/// The first position at or after `i` that does not hold a digit.
pub open spec fn digits_end(s: Seq<char>, i: int) -> int
    decreases s.len() - i,
{
    if 0 <= i < s.len() && is_digit(s[i]) {
        digits_end(s, i + 1)
    } else {
        i
    }
}

/// Where the fraction part starting at `i` ends, or `None` if a dot is not
/// followed by a digit.
pub open spec fn frac_end(s: Seq<char>, i: int) -> Option<int> {
    if 0 <= i < s.len() && s[i] == '.' {
        if i + 1 < s.len() && is_digit(s[i + 1]) {
            Some(digits_end(s, i + 1))
        } else {
            None
        }
    } else {
        Some(i)
    }
}

/// Where the exponent part starting at `i` ends, or `None` if it is malformed.
pub open spec fn exp_end(s: Seq<char>, i: int) -> Option<int> {
    if 0 <= i < s.len() && (s[i] == 'e' || s[i] == 'E') {
        let j: int = if i + 1 < s.len() && (s[i + 1] == '+' || s[i + 1] == '-') {
            i + 2
        } else {
            i + 1
        };
        if j < s.len() && is_digit(s[j]) {
            Some(digits_end(s, j))
        } else {
            None
        }
    } else {
        Some(i)
    }
}

/// The structured-text number grammar: an optional minus sign, an integer
/// part without redundant leading zeros, an optional fraction, an optional
/// exponent.
pub open spec fn is_number_lexeme(s: Seq<char>) -> bool {
    let i0: int = if s.len() > 0 && s[0] == '-' {
        1
    } else {
        0
    };
    &&& i0 < s.len()
    &&& is_digit(s[i0])
    &&& (s[i0] == '0' ==> digits_end(s, i0) == i0 + 1)
    &&& match frac_end(s, digits_end(s, i0)) {
        Some(i2) => match exp_end(s, i2) {
            Some(i3) => i3 == s.len(),
            None => false,
        },
        None => false,
    }
}

pub proof fn lemma_digits_end_bounds(s: Seq<char>, i: int)
    requires
        0 <= i <= s.len(),
    ensures
        i <= digits_end(s, i) <= s.len(),
        forall|k: int| i <= k < digits_end(s, i) ==> is_digit(s[k]),
        digits_end(s, i) < s.len() ==> !is_digit(s[digits_end(s, i)]),
    decreases s.len() - i,
{
    if i < s.len() && is_digit(s[i]) {
        lemma_digits_end_bounds(s, i + 1);
    }
}

/// Every character of a valid number lexeme is a number character, and the
/// lexeme is not empty.
pub proof fn lemma_number_lexeme_chars(s: Seq<char>)
    requires
        is_number_lexeme(s),
    ensures
        s.len() >= 1,
        forall|k: int| 0 <= k < s.len() ==> is_num_char(#[trigger] s[k]),
{
    let i0: int = if s.len() > 0 && s[0] == '-' {
        1
    } else {
        0
    };
    let i1 = digits_end(s, i0);
    lemma_digits_end_bounds(s, i0);
    let i2 = frac_end(s, i1)->Some_0;
    if i1 < s.len() && s[i1] == '.' {
        lemma_digits_end_bounds(s, i1 + 1);
    }
    let i3 = exp_end(s, i2)->Some_0;
    if i2 < s.len() && (s[i2] == 'e' || s[i2] == 'E') {
        let j: int = if i2 + 1 < s.len() && (s[i2 + 1] == '+' || s[i2 + 1] == '-') {
            i2 + 2
        } else {
            i2 + 1
        };
        lemma_digits_end_bounds(s, j);
    }
    assert forall|k: int| 0 <= k < s.len() implies is_num_char(#[trigger] s[k]) by {
        if k < i0 {
        } else if k < i1 {
        } else if k < i2 {
            if k > i1 {
                assert(is_digit(s[k]));
            }
        } else {
        }
    }
}

/// The decimal rendering of an unsigned value is a valid number lexeme.
pub proof fn lemma_dec_digits_lexeme(n: nat)
    ensures
        is_number_lexeme(dec_digits(n)),
{
    let s = dec_digits(n);
    crate::text::lemma_dec_digits_are_digits(n);
    lemma_all_digits_end(s, 0);
    if s[0] == '0' {
        assert(n == 0);
        assert(dec_digits(0) == seq![crate::text::digit_char(0)]);
    }
}

/// If everything from `i` on is a digit, the digit run ends at the end.
pub proof fn lemma_all_digits_end(s: Seq<char>, i: int)
    requires
        0 <= i <= s.len(),
        forall|k: int| i <= k < s.len() ==> is_digit(#[trigger] s[k]),
    ensures
        digits_end(s, i) == s.len(),
    decreases s.len() - i,
{
    if i < s.len() {
        lemma_all_digits_end(s, i + 1);
    }
}

/// A value is well formed when every number in it carries a valid lexeme.
pub open spec fn wf_value(v: ValueV) -> bool
    decreases v,
{
    match v {
        ValueV::Nil => true,
        ValueV::Num(s) => is_number_lexeme(s),
        ValueV::Bool(_) => true,
        ValueV::Str(_) => true,
        ValueV::Arr(items) => forall|i: int|
            0 <= i < items.len() ==> wf_value(#[trigger] items[i]),
        ValueV::Object(pairs) => forall|i: int|
            0 <= i < pairs.len() ==> wf_value(#[trigger] pairs[i].1),
    }
}

/// Host-text rendering of a string body: the embedded double-quote
/// convention doubles every quote character.
pub open spec fn doubled_quotes(s: Seq<char>, i: int) -> Seq<char>
    decreases s.len() - i,
{
    if 0 <= i < s.len() {
        if s[i] == '"' {
            seq!['"', '"'] + doubled_quotes(s, i + 1)
        } else {
            seq![s[i]] + doubled_quotes(s, i + 1)
        }
    } else {
        Seq::empty()
    }
}

pub open spec fn str_text(s: Seq<char>) -> Seq<char> {
    seq!['"', '"'] + doubled_quotes(s, 0) + seq!['"', '"']
}

/// Host-text rendering of a value, as the game environment prints one: `nil`
/// for the empty value, strings quoted twice over with embedded quotes
/// doubled, arrays and maps bracketed with `", "` separators.
pub open spec fn text_of(v: ValueV) -> Seq<char>
    decreases v, 0int,
{
    match v {
        ValueV::Nil => seq!['n', 'i', 'l'],
        ValueV::Num(s) => s,
        ValueV::Bool(b) => if b {
            seq!['t', 'r', 'u', 'e']
        } else {
            seq!['f', 'a', 'l', 's', 'e']
        },
        ValueV::Str(s) => str_text(s),
        ValueV::Arr(items) => seq!['['] + text_items(items, 0) + seq![']'],
        ValueV::Object(pairs) => seq!['['] + text_pairs(pairs, 0) + seq![']'],
    }
}

pub open spec fn text_items(items: Seq<ValueV>, i: int) -> Seq<char>
    decreases items, items.len() - i + 1,
{
    if 0 <= i < items.len() {
        if i + 1 == items.len() {
            text_of(items[i])
        } else {
            text_of(items[i]) + seq![',', ' '] + text_items(items, i + 1)
        }
    } else {
        Seq::empty()
    }
}

pub open spec fn text_pairs(pairs: Seq<(Seq<char>, ValueV)>, i: int) -> Seq<char>
    decreases pairs, pairs.len() - i + 1,
{
    if 0 <= i < pairs.len() {
        let entry = seq!['['] + str_text(pairs[i].0) + seq![',', ' '] + text_of(pairs[i].1)
            + seq![']'];
        if i + 1 == pairs.len() {
            entry
        } else {
            entry + seq![',', ' '] + text_pairs(pairs, i + 1)
        }
    } else {
        Seq::empty()
    }
}

impl ArmaValue {
    /// A number value holding the decimal rendering of `n`.
    pub fn from_u64(n: u64) -> (r: ArmaValue)
        ensures
            r@ == ValueV::Num(dec_digits(n as nat)),
    {
        ArmaValue::Number(u64_to_dec_string(n))
    }

    /// Renders this value as host text.
    pub fn to_text(&self) -> (r: String)
        ensures
            r@ == text_of(self@),
    {
        let mut out: Vec<char> = Vec::new();
        self.push_text(&mut out);
        chars_to_string(&out)
    }

    fn push_text(&self, out: &mut Vec<char>)
        ensures
            final(out)@ == old(out)@ + text_of(self@),
        decreases self, 0int,
    {
        match self {
            ArmaValue::Nil => {
                out.push('n');
                out.push('i');
                out.push('l');
                proof {
                    assert(out@ =~= old(out)@ + text_of(self@));
                }
            },
            ArmaValue::Number(s) => {
                push_str_chars(s, out);
            },
            ArmaValue::Boolean(b) => {
                if *b {
                    out.push('t');
                    out.push('r');
                    out.push('u');
                    out.push('e');
                } else {
                    out.push('f');
                    out.push('a');
                    out.push('l');
                    out.push('s');
                    out.push('e');
                }
                proof {
                    assert(out@ =~= old(out)@ + text_of(self@));
                }
            },
            ArmaValue::String(s) => {
                push_doubled_string(s, out);
            },
            ArmaValue::Array(items) => {
                out.push('[');
                push_text_items(items, 0, out);
                out.push(']');
                proof {
                    assert(out@ =~= old(out)@ + text_of(self@));
                }
            },
            ArmaValue::HashMap(pairs) => {
                out.push('[');
                push_text_pairs(pairs, 0, out);
                out.push(']');
                proof {
                    assert(out@ =~= old(out)@ + text_of(self@));
                }
            },
        }
    }
}

/// Appends the chars of `s` to `out`.
pub fn push_str_chars(s: &String, out: &mut Vec<char>)
    ensures
        final(out)@ == old(out)@ + s@,
{
    let cs = crate::text::str_to_chars(s.as_str());
    let mut k: usize = 0;
    while k < cs.len()
        invariant
            0 <= k <= cs.len(),
            cs@ == s@,
            out@ == old(out)@ + s@.subrange(0, k as int),
        decreases cs.len() - k,
    {
        out.push(cs[k]);
        proof {
            assert(out@ =~= old(out)@ + s@.subrange(0, k + 1int));
        }
        k = k + 1;
    }
    proof {
        assert(s@.subrange(0, s@.len() as int) =~= s@);
    }
}

/// Appends the host rendering of a string: `""` fences with quotes doubled.
fn push_doubled_string(s: &String, out: &mut Vec<char>)
    ensures
        final(out)@ == old(out)@ + str_text(s@),
{
    out.push('"');
    out.push('"');
    let cs = crate::text::str_to_chars(s.as_str());
    let mut k: usize = 0;
    while k < cs.len()
        invariant
            0 <= k <= cs.len(),
            cs@ == s@,
            out@ == old(out)@ + seq!['"', '"'] + doubled_quotes(s@, 0).subrange(
                0,
                doubled_quotes(s@, 0).len() - doubled_quotes(s@, k as int).len(),
            ),
            doubled_quotes(s@, k as int).len() <= doubled_quotes(s@, 0).len(),
        decreases cs.len() - k,
    {
        proof {
            lemma_doubled_quotes_step(s@, k as int);
        }
        let c = cs[k];
        if c == '"' {
            out.push('"');
            out.push('"');
        } else {
            out.push(c);
        }
        proof {
            lemma_doubled_quotes_step(s@, k as int);
            assert(out@ =~= old(out)@ + seq!['"', '"'] + doubled_quotes(s@, 0).subrange(
                0,
                doubled_quotes(s@, 0).len() - doubled_quotes(s@, k + 1int).len(),
            ));
        }
        k = k + 1;
    }
    out.push('"');
    out.push('"');
    proof {
        assert(doubled_quotes(s@, s@.len() as int).len() == 0);
        assert(doubled_quotes(s@, 0).subrange(0, doubled_quotes(s@, 0).len() as int) =~= doubled_quotes(s@, 0));
        assert(out@ =~= old(out)@ + str_text(s@));
    }
}

/// The rendering from position `i` is a suffix of the rendering from 0:
/// stepping one source char appends its rendering.
proof fn lemma_doubled_quotes_step(s: Seq<char>, i: int)
    requires
        0 <= i <= s.len(),
    ensures
        forall|j: int| i <= j <= s.len() ==> #[trigger] doubled_quotes(s, j).len()
            <= doubled_quotes(s, i).len(),
        i < s.len() ==> doubled_quotes(s, 0).subrange(
            0,
            doubled_quotes(s, 0).len() - doubled_quotes(s, i + 1).len(),
        ) == doubled_quotes(s, 0).subrange(
            0,
            doubled_quotes(s, 0).len() - doubled_quotes(s, i).len(),
        ) + (if s[i] == '"' {
            seq!['"', '"']
        } else {
            seq![s[i]]
        }),
    decreases s.len() - i,
{
    assert forall|j: int| i <= j <= s.len() implies #[trigger] doubled_quotes(s, j).len()
        <= doubled_quotes(s, i).len() by {
        lemma_doubled_suffix(s, i, j);
    }
    lemma_doubled_suffix(s, 0, i);
    if i < s.len() {
        lemma_doubled_suffix(s, 0, i + 1);
        lemma_doubled_suffix(s, i, i + 1);
        let whole = doubled_quotes(s, 0);
        let here = if s[i] == '"' {
            seq!['"', '"']
        } else {
            seq![s[i]]
        };
        assert(doubled_quotes(s, i) == here + doubled_quotes(s, i + 1));
        assert(whole.subrange(
            0,
            whole.len() - doubled_quotes(s, i + 1).len(),
        ) =~= whole.subrange(0, whole.len() - doubled_quotes(s, i).len()) + here);
    }
}

/// The full rendering splits as prefix-to-`i` plus rendering-from-`i`, and
/// suffix lengths are monotone.
proof fn lemma_doubled_suffix(s: Seq<char>, i: int, j: int)
    requires
        0 <= i <= j <= s.len(),
    ensures
        doubled_quotes(s, j).len() <= doubled_quotes(s, i).len(),
        exists|p: Seq<char>| doubled_quotes(s, i) == p + doubled_quotes(s, j),
    decreases j - i,
{
    if i < j {
        lemma_doubled_suffix(s, i + 1, j);
        let p0 = choose|p: Seq<char>| doubled_quotes(s, i + 1) == p + doubled_quotes(s, j);
        let here = if s[i] == '"' {
            seq!['"', '"']
        } else {
            seq![s[i]]
        };
        assert(doubled_quotes(s, i) == here + doubled_quotes(s, i + 1));
        assert(doubled_quotes(s, i) == (here + p0) + doubled_quotes(s, j)) by {
            assert(here + (p0 + doubled_quotes(s, j)) =~= (here + p0) + doubled_quotes(s, j));
        }
    } else {
        assert(doubled_quotes(s, i) == Seq::<char>::empty() + doubled_quotes(s, j)) by {
            assert(Seq::<char>::empty() + doubled_quotes(s, j) =~= doubled_quotes(s, j));
        }
    }
}

fn push_text_items(items: &Vec<ArmaValue>, idx: usize, out: &mut Vec<char>)
    requires
        idx <= items@.len(),
    ensures
        final(out)@ == old(out)@ + text_items(seq_view(items@), idx as int),
    decreases items, items@.len() - idx, 1int,
{
    let ghost vs = seq_view(items@);
    if idx < items.len() {
        let item = &items[idx];
        item.push_text(out);
        proof {
            assert(item@ == vs[idx as int]);
        }
        if idx + 1 < items.len() {
            out.push(',');
            out.push(' ');
            let ghost mid = out@;
            push_text_items(items, idx + 1, out);
            proof {
                assert(out@ =~= old(out)@ + text_items(vs, idx as int));
            }
        } else {
            proof {
                assert(out@ =~= old(out)@ + text_items(vs, idx as int));
            }
        }
    } else {
        proof {
            assert(out@ =~= old(out)@ + text_items(vs, idx as int));
        }
    }
}

fn push_text_pairs(pairs: &Vec<(String, ArmaValue)>, idx: usize, out: &mut Vec<char>)
    requires
        idx <= pairs@.len(),
    ensures
        final(out)@ == old(out)@ + text_pairs(pairs_view(pairs@), idx as int),
    decreases pairs, pairs@.len() - idx, 1int,
{
    let ghost vs = pairs_view(pairs@);
    if idx < pairs.len() {
        out.push('[');
        push_doubled_string(&pairs[idx].0, out);
        out.push(',');
        out.push(' ');
        pairs[idx].1.push_text(out);
        out.push(']');
        proof {
            assert(pairs@[idx as int].1@ == vs[idx as int].1);
            assert(pairs@[idx as int].0@ == vs[idx as int].0);
        }
        if idx + 1 < pairs.len() {
            out.push(',');
            out.push(' ');
            push_text_pairs(pairs, idx + 1, out);
            proof {
                assert(out@ =~= old(out)@ + text_pairs(vs, idx as int));
            }
        } else {
            proof {
                assert(out@ =~= old(out)@ + text_pairs(vs, idx as int));
            }
        }
    } else {
        proof {
            assert(out@ =~= old(out)@ + text_pairs(vs, idx as int));
        }
    }
}


impl ArmaValue {
    /// A structurally equal copy of this value.
    pub fn duplicate(&self) -> (r: ArmaValue)
        ensures
            r@ == self@,
        decreases self, 0int,
    {
        match self {
            ArmaValue::Nil => ArmaValue::Nil,
            ArmaValue::Number(s) => ArmaValue::Number(s.clone()),
            ArmaValue::Boolean(b) => ArmaValue::Boolean(*b),
            ArmaValue::String(s) => ArmaValue::String(s.clone()),
            ArmaValue::Array(items) => {
                let out = dup_items(items, 0);
                proof {
                    assert(seq_view(out@) =~= seq_view(items@));
                }
                ArmaValue::Array(out)
            },
            ArmaValue::HashMap(pairs) => {
                let out = dup_pairs(pairs, 0);
                proof {
                    assert(pairs_view(out@) =~= pairs_view(pairs@));
                }
                ArmaValue::HashMap(out)
            },
        }
    }
}

fn dup_items(items: &Vec<ArmaValue>, idx: usize) -> (r: Vec<ArmaValue>)
    requires
        idx <= items@.len(),
    ensures
        r@.len() == items@.len() - idx,
        forall|i: int| 0 <= i < r@.len() ==> (#[trigger] r@[i])@ == seq_view(items@)[idx + i],
    decreases items, items@.len() - idx, 1int,
{
    if idx < items.len() {
        let c = items[idx].duplicate();
        let mut rest = dup_items(items, idx + 1);
        let ghost rest0 = rest@;
        rest.insert(0, c);
        proof {
            rest0.insert_ensures(0, c);
            assert(seq_view(items@)[idx as int] == items@[idx as int]@);
            assert forall|i: int| 0 <= i < rest@.len() implies (#[trigger] rest@[i])@
                == seq_view(items@)[idx + i] by {
                if i > 0 {
                    assert(rest@[i] == rest0[i - 1]);
                }
            }
        }
        rest
    } else {
        Vec::new()
    }
}

fn dup_pairs(pairs: &Vec<(String, ArmaValue)>, idx: usize) -> (r: Vec<(String, ArmaValue)>)
    requires
        idx <= pairs@.len(),
    ensures
        r@.len() == pairs@.len() - idx,
        forall|i: int|
            0 <= i < r@.len() ==> (#[trigger] r@[i]).0@ == pairs_view(pairs@)[idx + i].0
                && r@[i].1@ == pairs_view(pairs@)[idx + i].1,
    decreases pairs, pairs@.len() - idx, 1int,
{
    if idx < pairs.len() {
        let c = pairs[idx].1.duplicate();
        let entry = (pairs[idx].0.clone(), c);
        let ghost entryg = entry;
        let mut rest = dup_pairs(pairs, idx + 1);
        let ghost rest0 = rest@;
        rest.insert(0, entry);
        proof {
            rest0.insert_ensures(0, entryg);
            assert(pairs_view(pairs@)[idx as int] == (pairs@[idx as int].0@, pairs@[idx as int].1@));
            assert forall|i: int| 0 <= i < rest@.len() implies (#[trigger] rest@[i]).0@
                == pairs_view(pairs@)[idx + i].0 && rest@[i].1@ == pairs_view(pairs@)[idx + i].1 by {
                if i > 0 {
                    assert(rest@[i] == rest0[i - 1]);
                }
            }
        }
        rest
    } else {
        Vec::new()
    }
}

} // verus!
