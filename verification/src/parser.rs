use vstd::prelude::*;

use crate::arma_value::ArmaValue;
use crate::error::DecodeError;

verus! {

/// Structural boundaries of the host grammar: a string literal may only
/// open right after one of these, and only close right before one.
pub open spec fn is_terminator(c: char) -> bool {
    c == '[' || c == ']' || c == ','
}

/// The number of consecutive quote characters starting at `i`.
pub open spec fn quote_run(s: Seq<char>, i: int) -> int
    decreases s.len() - i,
{
    if 0 <= i < s.len() && s[i] == '"' {
        1 + quote_run(s, i + 1)
    } else {
        0
    }
}

/// A run of `n` singly escaped quotes: `n` backslash-quote pairs.
pub open spec fn escaped_quotes(n: int) -> Seq<char>
    decreases n,
{
    if n <= 0 {
        Seq::empty()
    } else {
        seq!['\\', '"'] + escaped_quotes(n - 1)
    }
}

pub proof fn lemma_escaped_quotes(n: int)
    requires
        n >= 0,
    ensures
        escaped_quotes(n).len() == 2 * n,
        forall|k: int|
            0 <= k < 2 * n ==> escaped_quotes(n)[k] == (if k % 2 == 0 {
                '\\'
            } else {
                '"'
            }),
    decreases n,
{
    if n > 0 {
        lemma_escaped_quotes(n - 1);
    }
}

/// The escape-normalizing rewrite, from position `i` with the given
/// inside-string state: a quote enters a string only right after a
/// terminator and leaves it only right before one; an interior run of
/// doubled quotes folds to half as many singly escaped quotes, an odd run
/// folding down by one so its trailing quote is left to serve as the
/// closing delimiter; a lone backslash is doubled.
///
/// The scan is per character.  Grapheme clusters can differ from characters
/// only where a combining mark follows one of the structural characters
/// (quote, bracket, comma, backslash), which the host grammar never
/// produces.
pub open spec fn lex_from(s: Seq<char>, i: int, in_string: bool) -> Seq<char>
    decreases s.len() - i, 0int,
{
    if i < 0 || i >= s.len() {
        Seq::empty()
    } else {
        let c = s[i];
        if c == '"' {
            if !in_string && (i == 0 || is_terminator(s[i - 1])) {
                seq!['"'] + lex_from(s, i + 1, true)
            } else if in_string && (i + 1 >= s.len() || is_terminator(s[i + 1])) {
                seq!['"'] + lex_from(s, i + 1, false)
            } else if in_string {
                let run = 1 + quote_run(s, i + 1);
                let even = if run % 2 == 0 {
                    run
                } else {
                    run - 1
                };
                if even == 0 {
                    seq!['"'] + lex_from(s, i + 1, in_string)
                } else if 0 <= even - 1 <= quote_run(s, i + 1) && i + even <= s.len() {
                    escaped_quotes(even / 2) + lex_from(s, i + even, in_string)
                } else {
                    Seq::empty()
                }
            } else {
                seq!['"'] + lex_from(s, i + 1, in_string)
            }
        } else if c == '\\' && !(i + 1 < s.len() && s[i + 1] == '\\') {
            seq!['\\', '\\'] + lex_from(s, i + 1, in_string)
        } else {
            seq![c] + lex_from(s, i + 1, in_string)
        }
    }
}

/// The escape-normalized form of raw host text: afterwards, strings are
/// singly escaped per the structured-text rules.
pub open spec fn normalized_text(s: Seq<char>) -> Seq<char> {
    lex_from(s, 0, false)
}

/// Counts the consecutive quotes starting at `i`.
fn quote_run_exec(s: &Vec<char>, i: usize) -> (r: usize)
    requires
        i <= s@.len(),
    ensures
        r as int == quote_run(s@, i as int),
        i + r <= s@.len(),
{
    let mut k: usize = i;
    while k < s.len() && s[k] == '"'
        invariant
            i <= k <= s@.len(),
            quote_run(s@, i as int) == k - i + quote_run(s@, k as int),
        decreases s@.len() - k,
    {
        k = k + 1;
    }
    proof {
        assert(quote_run(s@, k as int) == 0);
    }
    k - i
}

/// Rewrites raw host text — where a string embeds its own quoting by
/// doubling the quote character — into text whose quotes are singly
/// escaped, so that it becomes valid structured-text input: an interior run
/// of quotes stands for half as many literal quotes, each needing one
/// backslash.  No bracket balance is checked here; malformed input surfaces
/// downstream as a parse failure.
pub fn replace_arma_escape_characters(input: &str) -> (r: String)
    ensures
        r@ == normalized_text(input@),
{
    let s = crate::text::str_to_chars(input);
    let mut out: Vec<char> = Vec::new();
    let mut i: usize = 0;
    let mut in_string: bool = false;
    while i < s.len()
        invariant
            0 <= i <= s@.len(),
            s@ == input@,
            normalized_text(input@) == out@ + lex_from(s@, i as int, in_string),
        decreases s@.len() - i,
    {
        let ghost out0 = out@;
        let ghost i0 = i as int;
        let ghost st0 = in_string;
        let c = s[i];
        if c == '"' {
            if !in_string && (i == 0 || {
                let p = s[i - 1];
                p == '[' || p == ']' || p == ','
            }) {
                out.push('"');
                in_string = true;
                i = i + 1;
            } else if in_string && (i + 1 >= s.len() || {
                let nx = s[i + 1];
                nx == '[' || nx == ']' || nx == ','
            }) {
                out.push('"');
                in_string = false;
                i = i + 1;
            } else if in_string {
                let following = quote_run_exec(&s, i + 1);
                let run = 1 + following;
                let even = if run % 2 == 0 {
                    run
                } else {
                    run - 1
                };
                if even == 0 {
                    out.push('"');
                    i = i + 1;
                } else {
                    let pairs = even / 2;
                    let mut j: usize = 0;
                    while j < pairs
                        invariant
                            0 <= j <= pairs,
                            2 * pairs <= s@.len() + 2,
                            out@ == out0 + escaped_quotes(j as int),
                        decreases pairs - j,
                    {
                        out.push('\\');
                        out.push('"');
                        proof {
                            lemma_escaped_quotes(j as int);
                            lemma_escaped_quotes(j + 1int);
                            assert(out@ =~= out0 + escaped_quotes(j + 1int));
                        }
                        j = j + 1;
                    }
                    i = i + even;
                }
            } else {
                out.push('"');
                i = i + 1;
            }
        } else if c == '\\' && !(i + 1 < s.len() && s[i + 1] == '\\') {
            out.push('\\');
            out.push('\\');
            i = i + 1;
        } else {
            out.push(c);
            i = i + 1;
        }
        proof {
            assert(normalized_text(input@) =~= out@ + lex_from(s@, i as int, in_string));
        }
    }
    proof {
        assert(lex_from(s@, i as int, in_string) =~= Seq::<char>::empty());
        assert(out@ =~= normalized_text(input@));
    }
    crate::text::chars_to_string(&out)
}

/// What decoding raw host text yields: the text is escape-normalized,
/// parsed as structured text, and the value decoded as a typed payload.
pub open spec fn spec_decode_payload(s: Seq<char>) -> Result<
    crate::data::DataV,
    DecodeError,
> {
    match crate::json::parse_json(normalized_text(s)) {
        None => Err(DecodeError::StructureParse),
        Some(v) => crate::codec::decode_data_value(v),
    }
}

pub open spec fn spec_decode_metadata_payload(s: Seq<char>) -> Result<
    crate::metadata::MetadataV,
    DecodeError,
> {
    match crate::json::parse_json(normalized_text(s)) {
        None => Err(DecodeError::StructureParse),
        Some(v) => crate::codec::decode_metadata_value(v),
    }
}

/// The escape-normalizing front end: raw host text to a parsed value tree.
pub struct Parser {}

impl Parser {
    /// Normalizes and parses raw host text into a value tree.
    pub fn from_arma(input: &str) -> (r: Result<ArmaValue, DecodeError>)
        ensures
            match r {
                Ok(v) => crate::json::parse_json(normalized_text(input@)) == Some(v@),
                Err(e) => crate::json::parse_json(normalized_text(input@)) is None && e
                    == DecodeError::StructureParse,
            },
    {
        let text = replace_arma_escape_characters(input);
        let chars = crate::text::str_to_chars(text.as_str());
        crate::json::parse_json_text(&chars)
    }
}

/// Decodes raw host text into a typed payload.
pub fn decode_payload(input: &str) -> (r: Result<crate::data::Data, DecodeError>)
    ensures
        match r {
            Ok(d) => spec_decode_payload(input@) == Ok::<crate::data::DataV, DecodeError>(d@),
            Err(e) => spec_decode_payload(input@) == Err::<crate::data::DataV, DecodeError>(e),
        },
{
    match Parser::from_arma(input) {
        Ok(v) => crate::codec::data_from_value(&v),
        Err(e) => Err(e),
    }
}

/// Decodes raw host text into a typed context.
pub fn decode_metadata_payload(input: &str) -> (r: Result<
    crate::metadata::Metadata,
    DecodeError,
>)
    ensures
        match r {
            Ok(m) => spec_decode_metadata_payload(input@) == Ok::<
                crate::metadata::MetadataV,
                DecodeError,
            >(m@),
            Err(e) => spec_decode_metadata_payload(input@) == Err::<
                crate::metadata::MetadataV,
                DecodeError,
            >(e),
        },
{
    match Parser::from_arma(input) {
        Ok(v) => crate::codec::metadata_from_value(&v),
        Err(e) => Err(e),
    }
}

impl crate::data::Data {
    /// Decodes raw host text into a payload.
    pub fn from_arma(input: &str) -> (r: Result<crate::data::Data, DecodeError>)
        ensures
            match r {
                Ok(d) => spec_decode_payload(input@) == Ok::<crate::data::DataV, DecodeError>(
                    d@,
                ),
                Err(e) => spec_decode_payload(input@) == Err::<crate::data::DataV, DecodeError>(
                    e,
                ),
            },
    {
        decode_payload(input)
    }
}

impl crate::metadata::Metadata {
    /// Decodes raw host text into a context.
    pub fn from_arma(input: &str) -> (r: Result<crate::metadata::Metadata, DecodeError>)
        ensures
            match r {
                Ok(m) => spec_decode_metadata_payload(input@) == Ok::<
                    crate::metadata::MetadataV,
                    DecodeError,
                >(m@),
                Err(e) => spec_decode_metadata_payload(input@) == Err::<
                    crate::metadata::MetadataV,
                    DecodeError,
                >(e),
            },
    {
        decode_metadata_payload(input)
    }
}


/// The value paired with a key in the parallel convention: the matching
/// slot of the value array, or the empty value when the arrays are uneven.
pub open spec fn parallel_value(values: Seq<crate::arma_value::ValueV>, idx: int) -> crate::arma_value::ValueV {
    if 0 <= idx < values.len() {
        values[idx]
    } else {
        crate::arma_value::ValueV::Nil
    }
}

/// The field list read from parallel key and value arrays: every key must
/// be a string.
pub open spec fn parallel_fields(
    keys: Seq<crate::arma_value::ValueV>,
    values: Seq<crate::arma_value::ValueV>,
    idx: int,
) -> Result<Seq<(Seq<char>, crate::arma_value::ValueV)>, DecodeError>
    decreases keys.len() - idx,
{
    if idx < 0 || idx >= keys.len() {
        Ok(Seq::empty())
    } else {
        match keys[idx] {
            crate::arma_value::ValueV::Str(k) => match parallel_fields(keys, values, idx + 1) {
                Ok(rest) => Ok(seq![(k, parallel_value(values, idx))] + rest),
                Err(e) => Err(e),
            },
            _ => Err(DecodeError::Shape),
        }
    }
}

/// What the legacy parallel-array payload convention decodes to: a
/// two-element array `[tag, content]` whose content is either empty or a
/// pair of a key array and a value array, read positionally.
pub open spec fn spec_data_from_arma_value(v: crate::arma_value::ValueV) -> Result<
    crate::data::DataV,
    DecodeError,
> {
    match v {
        crate::arma_value::ValueV::Arr(items) => if items.len() < 2 {
            Err(DecodeError::Shape)
        } else {
            match items[0] {
                crate::arma_value::ValueV::Str(tag) => match items[1] {
                    crate::arma_value::ValueV::Arr(content) => if content.len() == 0 {
                        crate::codec::decode_data_tagged(tag, crate::arma_value::ValueV::Nil)
                    } else if content.len() < 2 {
                        Err(DecodeError::Shape)
                    } else {
                        match (content[0], content[1]) {
                            (
                                crate::arma_value::ValueV::Arr(keys),
                                crate::arma_value::ValueV::Arr(values),
                            ) => match parallel_fields(keys, values, 0) {
                                Ok(fs) => crate::codec::decode_data_tagged(
                                    tag,
                                    crate::arma_value::ValueV::Object(fs),
                                ),
                                Err(e) => Err(e),
                            },
                            _ => Err(DecodeError::Shape),
                        }
                    },
                    _ => Err(DecodeError::Shape),
                },
                _ => Err(DecodeError::Shape),
            }
        },
        _ => Err(DecodeError::Shape),
    }
}

/// Decodes a payload in the superseded parallel-array convention, kept as a
/// compatibility shim beside the canonical pair convention: content is
/// `[[key, ...], [value, ...]]` rather than an array of pairs.  The original
/// schema revision aborted when the value array was missing; this form
/// reports a shape error instead.
pub fn data_from_arma_value(input: &ArmaValue) -> (r: Result<crate::data::Data, DecodeError>)
    ensures
        match r {
            Ok(d) => spec_data_from_arma_value(input@) == Ok::<
                crate::data::DataV,
                DecodeError,
            >(d@),
            Err(e) => spec_data_from_arma_value(input@) == Err::<
                crate::data::DataV,
                DecodeError,
            >(e),
        },
{
    let items = match input {
        ArmaValue::Array(items) => items,
        _ => {
            return Err(DecodeError::Shape);
        },
    };
    if items.len() < 2 {
        return Err(DecodeError::Shape);
    }
    proof {
        assert(crate::arma_value::seq_view(items@)[0] == items@[0]@);
        assert(crate::arma_value::seq_view(items@)[1] == items@[1]@);
    }
    let tag = match &items[0] {
        ArmaValue::String(t) => t,
        _ => {
            return Err(DecodeError::Shape);
        },
    };
    let content = match &items[1] {
        ArmaValue::Array(c) => c,
        _ => {
            return Err(DecodeError::Shape);
        },
    };
    if content.len() == 0 {
        let wrapped = ArmaValue::Array(
            vec![ArmaValue::String(tag.clone()), ArmaValue::Nil],
        );
        proof {
            assert(crate::arma_value::seq_view(wrapped->Array_0@) =~= seq![
                crate::arma_value::ValueV::Str(tag@),
                crate::arma_value::ValueV::Nil,
            ]);
        }
        return crate::codec::data_from_value(&wrapped);
    }
    if content.len() < 2 {
        return Err(DecodeError::Shape);
    }
    proof {
        assert(crate::arma_value::seq_view(content@)[0] == content@[0]@);
        assert(crate::arma_value::seq_view(content@)[1] == content@[1]@);
    }
    let keys = match &content[0] {
        ArmaValue::Array(ks) => ks,
        _ => {
            return Err(DecodeError::Shape);
        },
    };
    let values = match &content[1] {
        ArmaValue::Array(vs) => vs,
        _ => {
            return Err(DecodeError::Shape);
        },
    };
    let ghost kv = crate::arma_value::seq_view(keys@);
    let ghost vv = crate::arma_value::seq_view(values@);
    let mut fields: Vec<(String, ArmaValue)> = Vec::new();
    let mut k: usize = 0;
    while k < keys.len()
        invariant
            0 <= k <= keys@.len(),
            kv == crate::arma_value::seq_view(keys@),
            vv == crate::arma_value::seq_view(values@),
            kv.len() == keys@.len(),
            vv.len() == values@.len(),
            input@ == crate::arma_value::ValueV::Arr(crate::arma_value::seq_view(items@)),
            crate::arma_value::seq_view(items@).len() == items@.len(),
            items@.len() >= 2,
            crate::arma_value::seq_view(items@)[0] == crate::arma_value::ValueV::Str(tag@),
            crate::arma_value::seq_view(items@)[1] == crate::arma_value::ValueV::Arr(
                crate::arma_value::seq_view(content@),
            ),
            crate::arma_value::seq_view(content@).len() == content@.len(),
            content@.len() >= 2,
            crate::arma_value::seq_view(content@)[0] == crate::arma_value::ValueV::Arr(kv),
            crate::arma_value::seq_view(content@)[1] == crate::arma_value::ValueV::Arr(vv),
            fields@.len() == k,
            forall|i: int| 0 <= i < k ==> (#[trigger] kv[i]) is Str,
            forall|i: int| 0 <= i < k ==> (#[trigger] fields@[i]).0@ == kv[i]->Str_0,
            forall|i: int| 0 <= i < k ==> (#[trigger] fields@[i]).1@ == parallel_value(vv, i),
        decreases keys@.len() - k,
    {
        proof {
            assert(kv[k as int] == keys@[k as int]@);
        }
        let key = match &keys[k] {
            ArmaValue::String(s) => s.clone(),
            _ => {
                proof {
                    lemma_parallel_fields_err(kv, vv, 0, k as int);
                }
                return Err(DecodeError::Shape);
            },
        };
        let value = if k < values.len() {
            proof {
                assert(vv[k as int] == values@[k as int]@);
            }
            values[k].duplicate()
        } else {
            ArmaValue::Nil
        };
        fields.push((key, value));
        k = k + 1;
    }
    let wrapped = ArmaValue::Array(
        vec![ArmaValue::String(tag.clone()), ArmaValue::HashMap(fields)],
    );
    proof {
        lemma_parallel_fields_all(kv, vv, 0);
        assert(crate::arma_value::pairs_view(wrapped->Array_0@[1]->HashMap_0@)
            =~= parallel_fields(kv, vv, 0)->Ok_0);
        assert(crate::arma_value::seq_view(wrapped->Array_0@) =~= seq![
            crate::arma_value::ValueV::Str(tag@),
            crate::arma_value::ValueV::Object(parallel_fields(kv, vv, 0)->Ok_0),
        ]);
    }
    crate::codec::data_from_value(&wrapped)
}

/// What the legacy parallel-array payload convention decodes to: a
/// two-element array `[tag, content]` whose content is either empty or a
/// pair of a key array and a value array, read positionally.
pub open spec fn spec_metadata_from_arma_value(v: crate::arma_value::ValueV) -> Result<
    crate::metadata::MetadataV,
    DecodeError,
> {
    match v {
        crate::arma_value::ValueV::Arr(items) => if items.len() < 2 {
            Err(DecodeError::Shape)
        } else {
            match items[0] {
                crate::arma_value::ValueV::Str(tag) => match items[1] {
                    crate::arma_value::ValueV::Arr(content) => if content.len() == 0 {
                        crate::codec::decode_metadata_tagged(tag, crate::arma_value::ValueV::Nil)
                    } else if content.len() < 2 {
                        Err(DecodeError::Shape)
                    } else {
                        match (content[0], content[1]) {
                            (
                                crate::arma_value::ValueV::Arr(keys),
                                crate::arma_value::ValueV::Arr(values),
                            ) => match parallel_fields(keys, values, 0) {
                                Ok(fs) => crate::codec::decode_metadata_tagged(
                                    tag,
                                    crate::arma_value::ValueV::Object(fs),
                                ),
                                Err(e) => Err(e),
                            },
                            _ => Err(DecodeError::Shape),
                        }
                    },
                    _ => Err(DecodeError::Shape),
                },
                _ => Err(DecodeError::Shape),
            }
        },
        _ => Err(DecodeError::Shape),
    }
}

/// Decodes a context in the superseded parallel-array convention, kept as a
/// compatibility shim beside the canonical pair convention: content is
/// `[[key, ...], [value, ...]]` rather than an array of pairs.  The original
/// schema revision aborted when the value array was missing; this form
/// reports a shape error instead.
pub fn metadata_from_arma_value(input: &ArmaValue) -> (r: Result<crate::metadata::Metadata, DecodeError>)
    ensures
        match r {
            Ok(d) => spec_metadata_from_arma_value(input@) == Ok::<
                crate::metadata::MetadataV,
                DecodeError,
            >(d@),
            Err(e) => spec_metadata_from_arma_value(input@) == Err::<
                crate::metadata::MetadataV,
                DecodeError,
            >(e),
        },
{
    let items = match input {
        ArmaValue::Array(items) => items,
        _ => {
            return Err(DecodeError::Shape);
        },
    };
    if items.len() < 2 {
        return Err(DecodeError::Shape);
    }
    proof {
        assert(crate::arma_value::seq_view(items@)[0] == items@[0]@);
        assert(crate::arma_value::seq_view(items@)[1] == items@[1]@);
    }
    let tag = match &items[0] {
        ArmaValue::String(t) => t,
        _ => {
            return Err(DecodeError::Shape);
        },
    };
    let content = match &items[1] {
        ArmaValue::Array(c) => c,
        _ => {
            return Err(DecodeError::Shape);
        },
    };
    if content.len() == 0 {
        let wrapped = ArmaValue::Array(
            vec![ArmaValue::String(tag.clone()), ArmaValue::Nil],
        );
        proof {
            assert(crate::arma_value::seq_view(wrapped->Array_0@) =~= seq![
                crate::arma_value::ValueV::Str(tag@),
                crate::arma_value::ValueV::Nil,
            ]);
        }
        return crate::codec::metadata_from_value(&wrapped);
    }
    if content.len() < 2 {
        return Err(DecodeError::Shape);
    }
    proof {
        assert(crate::arma_value::seq_view(content@)[0] == content@[0]@);
        assert(crate::arma_value::seq_view(content@)[1] == content@[1]@);
    }
    let keys = match &content[0] {
        ArmaValue::Array(ks) => ks,
        _ => {
            return Err(DecodeError::Shape);
        },
    };
    let values = match &content[1] {
        ArmaValue::Array(vs) => vs,
        _ => {
            return Err(DecodeError::Shape);
        },
    };
    let ghost kv = crate::arma_value::seq_view(keys@);
    let ghost vv = crate::arma_value::seq_view(values@);
    let mut fields: Vec<(String, ArmaValue)> = Vec::new();
    let mut k: usize = 0;
    while k < keys.len()
        invariant
            0 <= k <= keys@.len(),
            kv == crate::arma_value::seq_view(keys@),
            vv == crate::arma_value::seq_view(values@),
            kv.len() == keys@.len(),
            vv.len() == values@.len(),
            input@ == crate::arma_value::ValueV::Arr(crate::arma_value::seq_view(items@)),
            crate::arma_value::seq_view(items@).len() == items@.len(),
            items@.len() >= 2,
            crate::arma_value::seq_view(items@)[0] == crate::arma_value::ValueV::Str(tag@),
            crate::arma_value::seq_view(items@)[1] == crate::arma_value::ValueV::Arr(
                crate::arma_value::seq_view(content@),
            ),
            crate::arma_value::seq_view(content@).len() == content@.len(),
            content@.len() >= 2,
            crate::arma_value::seq_view(content@)[0] == crate::arma_value::ValueV::Arr(kv),
            crate::arma_value::seq_view(content@)[1] == crate::arma_value::ValueV::Arr(vv),
            fields@.len() == k,
            forall|i: int| 0 <= i < k ==> (#[trigger] kv[i]) is Str,
            forall|i: int| 0 <= i < k ==> (#[trigger] fields@[i]).0@ == kv[i]->Str_0,
            forall|i: int| 0 <= i < k ==> (#[trigger] fields@[i]).1@ == parallel_value(vv, i),
        decreases keys@.len() - k,
    {
        proof {
            assert(kv[k as int] == keys@[k as int]@);
        }
        let key = match &keys[k] {
            ArmaValue::String(s) => s.clone(),
            _ => {
                proof {
                    lemma_parallel_fields_err(kv, vv, 0, k as int);
                }
                return Err(DecodeError::Shape);
            },
        };
        let value = if k < values.len() {
            proof {
                assert(vv[k as int] == values@[k as int]@);
            }
            values[k].duplicate()
        } else {
            ArmaValue::Nil
        };
        fields.push((key, value));
        k = k + 1;
    }
    let wrapped = ArmaValue::Array(
        vec![ArmaValue::String(tag.clone()), ArmaValue::HashMap(fields)],
    );
    proof {
        lemma_parallel_fields_all(kv, vv, 0);
        assert(crate::arma_value::pairs_view(wrapped->Array_0@[1]->HashMap_0@)
            =~= parallel_fields(kv, vv, 0)->Ok_0);
        assert(crate::arma_value::seq_view(wrapped->Array_0@) =~= seq![
            crate::arma_value::ValueV::Str(tag@),
            crate::arma_value::ValueV::Object(parallel_fields(kv, vv, 0)->Ok_0),
        ]);
    }
    crate::codec::metadata_from_value(&wrapped)
}

proof fn lemma_parallel_fields_all(
    keys: Seq<crate::arma_value::ValueV>,
    values: Seq<crate::arma_value::ValueV>,
    idx: int,
)
    requires
        0 <= idx <= keys.len(),
        forall|i: int| 0 <= i < keys.len() ==> (#[trigger] keys[i]) is Str,
    ensures
        parallel_fields(keys, values, idx) is Ok,
        parallel_fields(keys, values, idx)->Ok_0 =~= Seq::new(
            (keys.len() - idx) as nat,
            |i: int|
                if 0 <= idx + i < keys.len() {
                    (keys[idx + i]->Str_0, parallel_value(values, idx + i))
                } else {
                    (Seq::empty(), crate::arma_value::ValueV::Nil)
                },
        ),
    decreases keys.len() - idx,
{
    if idx < keys.len() {
        lemma_parallel_fields_all(keys, values, idx + 1);
        assert(parallel_fields(keys, values, idx)->Ok_0 =~= seq![
            (keys[idx]->Str_0, parallel_value(values, idx)),
        ] + parallel_fields(keys, values, idx + 1)->Ok_0);
    }
}

proof fn lemma_parallel_fields_err(
    keys: Seq<crate::arma_value::ValueV>,
    values: Seq<crate::arma_value::ValueV>,
    idx: int,
    bad: int,
)
    requires
        0 <= idx <= bad < keys.len(),
        !(keys[bad] is Str),
    ensures
        parallel_fields(keys, values, idx) == Err::<
            Seq<(Seq<char>, crate::arma_value::ValueV)>,
            DecodeError,
        >(DecodeError::Shape),
    decreases keys.len() - idx,
{
    if idx < bad {
        lemma_parallel_fields_err(keys, values, idx + 1, bad);
    }
}

} // verus!
