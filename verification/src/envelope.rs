use vstd::prelude::*;

use crate::arma_value::{ArmaValue, ValueV};
use crate::codec::{
    content_pairs, data_content, decode_data_value, decode_metadata_value, metadata_content,
    pairs_get, req_str,
};
use crate::data::DataV;
use crate::error::{DecodeError, Error, ErrorType, ErrorV};
use crate::json::is_hex;
use crate::metadata::MetadataV;
use crate::text::dec_digits;
use crate::{Message, MessageV, Type};

verus! {

/// The canonical textual form of a message id: hyphenated, hex digits in
/// either case.
pub open spec fn is_uuid_text(s: Seq<char>) -> bool {
    &&& s.len() == 36
    &&& forall|i: int|
        0 <= i < 36 && (i == 8 || i == 13 || i == 18 || i == 23) ==> #[trigger] s[i] == '-'
    &&& forall|i: int|
        0 <= i < 36 && !(i == 8 || i == 13 || i == 18 || i == 23) ==> is_hex(#[trigger] s[i])
}

/// Checks the canonical textual form of a message id.
pub fn is_uuid_text_exec(s: &str) -> (r: bool)
    ensures
        r == is_uuid_text(s@),
{
    let cs = crate::text::str_to_chars(s);
    if cs.len() != 36 {
        return false;
    }
    let mut k: usize = 0;
    while k < 36
        invariant
            0 <= k <= 36,
            cs@ == s@,
            cs@.len() == 36,
            forall|i: int|
                0 <= i < k && (i == 8 || i == 13 || i == 18 || i == 23) ==> #[trigger] s@[i]
                    == '-',
            forall|i: int|
                0 <= i < k && !(i == 8 || i == 13 || i == 18 || i == 23) ==> is_hex(
                    #[trigger] s@[i],
                ),
        decreases 36 - k,
    {
        let c = cs[k];
        if k == 8 || k == 13 || k == 18 || k == 23 {
            if c != '-' {
                return false;
            }
        } else {
            if !(('0' <= c && c <= '9') || ('a' <= c && c <= 'f') || ('A' <= c && c <= 'F')) {
                return false;
            }
        }
        k = k + 1;
    }
    true
}


/// An upper-case ASCII letter lowered; everything else unchanged.
pub open spec fn lower_ascii(c: char) -> char {
    if 'A' <= c && c <= 'Z' {
        ((c as u32 + 32) as u8) as char
    } else {
        c
    }
}

/// A string with its upper-case ASCII letters lowered.
pub open spec fn lowered(s: Seq<char>) -> Seq<char> {
    Seq::new(
        s.len(),
        |i: int|
            if 0 <= i < s.len() {
                lower_ascii(s[i])
            } else {
                ' '
            },
    )
}

/// The source position of output position `i` when hyphens are inserted at
/// 8, 13, 18 and 23.
pub open spec fn unhyphenated_index(i: int) -> int {
    if i < 8 {
        i
    } else if i < 13 {
        i - 1
    } else if i < 18 {
        i - 2
    } else if i < 23 {
        i - 3
    } else {
        i - 4
    }
}

/// The hyphenated form of a 32-digit id.
pub open spec fn hyphenate(s: Seq<char>) -> Seq<char> {
    Seq::new(
        36,
        |i: int|
            if i == 8 || i == 13 || i == 18 || i == 23 {
                '-'
            } else if 0 <= unhyphenated_index(i) < s.len() {
                s[unhyphenated_index(i)]
            } else {
                ' '
            },
    )
}

/// The canonical lowercase hyphenated text of an id written in any of the
/// accepted shapes: hyphenated, 32 plain digits, braced, or an RFC 4122 URN.
pub open spec fn canonical_uuid_text(s: Seq<char>) -> Option<Seq<char>> {
    if is_uuid_text(s) {
        Some(lowered(s))
    } else if s.len() == 32 && (forall|i: int| 0 <= i < 32 ==> is_hex(#[trigger] s[i])) {
        Some(lowered(hyphenate(s)))
    } else if s.len() == 38 && s[0] == '{' && s[37] == '}' && is_uuid_text(s.subrange(1, 37)) {
        Some(lowered(s.subrange(1, 37)))
    } else if s.len() == 45 && (forall|k: int|
        0 <= k < 9 ==> lower_ascii(#[trigger] s[k]) == "urn:uuid:"@[k]) && is_uuid_text(
        s.subrange(9, 45),
    ) {
        Some(lowered(s.subrange(9, 45)))
    } else {
        None
    }
}

/// Lowering keeps the canonical id shape.
pub proof fn lemma_lowered_uuid_text(s: Seq<char>)
    requires
        is_uuid_text(s),
    ensures
        is_uuid_text(lowered(s)),
{
    assert forall|i: int|
        0 <= i < 36 && !(i == 8 || i == 13 || i == 18 || i == 23) implies is_hex(
        #[trigger] lowered(s)[i],
    ) by {
        assert(is_hex(s[i]));
    }
    assert forall|i: int|
        0 <= i < 36 && (i == 8 || i == 13 || i == 18 || i == 23) implies #[trigger] lowered(
        s,
    )[i] == '-' by {
        assert(s[i] == '-');
    }
}

fn lower_ascii_exec(c: char) -> (r: char)
    ensures
        r == lower_ascii(c),
{
    if 'A' <= c && c <= 'Z' {
        ((c as u32 + 32) as u8) as char
    } else {
        c
    }
}

/// Whether a 36-character canonical id sits at `off`.
fn uuid_text_at(cs: &Vec<char>, off: usize) -> (r: bool)
    requires
        off + 36 <= cs@.len(),
    ensures
        r == is_uuid_text(cs@.subrange(off as int, off as int + 36)),
{
    let ghost inner = cs@.subrange(off as int, off as int + 36);
    let n = cs.len();
    let mut k: usize = 0;
    while k < 36
        invariant
            0 <= k <= 36,
            off + 36 <= cs@.len(),
            n == cs@.len(),
            inner == cs@.subrange(off as int, off as int + 36),
            forall|i: int|
                0 <= i < k && (i == 8 || i == 13 || i == 18 || i == 23) ==> #[trigger] inner[i]
                    == '-',
            forall|i: int|
                0 <= i < k && !(i == 8 || i == 13 || i == 18 || i == 23) ==> is_hex(
                    #[trigger] inner[i],
                ),
        decreases 36 - k,
    {
        let c = cs[off + k];
        proof {
            assert(inner[k as int] == cs@[off + k as int]);
        }
        if k == 8 || k == 13 || k == 18 || k == 23 {
            if c != '-' {
                return false;
            }
        } else {
            if !(('0' <= c && c <= '9') || ('a' <= c && c <= 'f') || ('A' <= c && c <= 'F')) {
                return false;
            }
        }
        k = k + 1;
    }
    true
}

/// Copies 36 characters starting at `off`, lowered, into a fresh id string.
fn lowered_uuid_from(cs: &Vec<char>, off: usize) -> (r: String)
    requires
        off + 36 <= cs@.len(),
    ensures
        r@ == lowered(cs@.subrange(off as int, off as int + 36)),
{
    let ghost inner = cs@.subrange(off as int, off as int + 36);
    let n = cs.len();
    let mut out: Vec<char> = Vec::new();
    let mut k: usize = 0;
    while k < 36
        invariant
            0 <= k <= 36,
            off + 36 <= cs@.len(),
            n == cs@.len(),
            inner == cs@.subrange(off as int, off as int + 36),
            out@.len() == k,
            forall|i: int| 0 <= i < k ==> #[trigger] out@[i] == lower_ascii(inner[i]),
        decreases 36 - k,
    {
        out.push(lower_ascii_exec(cs[off + k]));
        proof {
            assert(inner[k as int] == cs@[off + k as int]);
        }
        k = k + 1;
    }
    proof {
        assert(out@ =~= lowered(inner));
    }
    crate::text::chars_to_string(&out)
}

/// Reads an id in any of the shapes the protocol has ever carried —
/// hyphenated, 32 plain digits, braced, or an RFC 4122 URN — and yields its
/// canonical lowercase hyphenated text.
pub fn parse_uuid_text(s: &str) -> (r: Option<String>)
    ensures
        match r {
            Some(t) => canonical_uuid_text(s@) == Some(t@) && is_uuid_text(t@),
            None => canonical_uuid_text(s@) is None,
        },
{
    let cs = crate::text::str_to_chars(s);
    if cs.len() == 36 {
        proof {
            assert(cs@.subrange(0, 36) =~= s@);
        }
        if uuid_text_at(&cs, 0) {
            let t = lowered_uuid_from(&cs, 0);
            proof {
                lemma_lowered_uuid_text(s@);
            }
            return Some(t);
        }
        return None;
    }
    if cs.len() == 32 {
        let mut k: usize = 0;
        while k < 32
            invariant
                0 <= k <= 32,
                cs@ == s@,
                cs@.len() == 32,
                forall|i: int| 0 <= i < k ==> is_hex(#[trigger] s@[i]),
            decreases 32 - k,
        {
            let c = cs[k];
            if !(('0' <= c && c <= '9') || ('a' <= c && c <= 'f') || ('A' <= c && c <= 'F')) {
                return None;
            }
            k = k + 1;
        }
        let mut hy: Vec<char> = Vec::new();
        let mut i: usize = 0;
        while i < 36
            invariant
                0 <= i <= 36,
                cs@ == s@,
                cs@.len() == 32,
                hy@.len() == i,
                forall|j: int| 0 <= j < i ==> #[trigger] hy@[j] == hyphenate(s@)[j],
            decreases 36 - i,
        {
            if i == 8 || i == 13 || i == 18 || i == 23 {
                hy.push('-');
            } else {
                let src: usize = if i < 8 {
                    i
                } else if i < 13 {
                    i - 1
                } else if i < 18 {
                    i - 2
                } else if i < 23 {
                    i - 3
                } else {
                    i - 4
                };
                hy.push(cs[src]);
            }
            i = i + 1;
        }
        proof {
            assert(hy@ =~= hyphenate(s@));
            assert(hy@.subrange(0, 36) =~= hyphenate(s@));
            assert forall|j: int|
                0 <= j < 36 && !(j == 8 || j == 13 || j == 18 || j == 23) implies is_hex(
                #[trigger] hyphenate(s@)[j],
            ) by {
                assert(is_hex(s@[unhyphenated_index(j)]));
            }
            assert(is_uuid_text(hyphenate(s@)));
            lemma_lowered_uuid_text(hyphenate(s@));
        }
        let t = lowered_uuid_from(&hy, 0);
        return Some(t);
    }
    if cs.len() == 38 {
        if cs[0] != '{' || cs[37] != '}' {
            return None;
        }
        if uuid_text_at(&cs, 1) {
            let t = lowered_uuid_from(&cs, 1);
            proof {
                lemma_lowered_uuid_text(s@.subrange(1, 37));
            }
            return Some(t);
        }
        return None;
    }
    if cs.len() == 45 {
        proof {
            reveal_strlit("urn:uuid:");
        }
        let ok = lower_ascii_exec(cs[0]) == 'u' && lower_ascii_exec(cs[1]) == 'r'
            && lower_ascii_exec(cs[2]) == 'n' && cs[3] == ':' && lower_ascii_exec(cs[4]) == 'u'
            && lower_ascii_exec(cs[5]) == 'u' && lower_ascii_exec(cs[6]) == 'i'
            && lower_ascii_exec(cs[7]) == 'd' && cs[8] == ':';
        if !ok {
            proof {
                lemma_urn_prefix_chars();
            }
            return None;
        }
        proof {
            lemma_urn_prefix_chars();
            assert forall|k: int|
                0 <= k < 9 implies lower_ascii(#[trigger] s@[k]) == "urn:uuid:"@[k] by {}
        }
        if uuid_text_at(&cs, 9) {
            let t = lowered_uuid_from(&cs, 9);
            proof {
                lemma_lowered_uuid_text(s@.subrange(9, 45));
            }
            return Some(t);
        }
        return None;
    }
    None
}

/// The characters of the URN prefix.
proof fn lemma_urn_prefix_chars()
    ensures
        "urn:uuid:"@.len() == 9,
        "urn:uuid:"@[0] == 'u',
        "urn:uuid:"@[1] == 'r',
        "urn:uuid:"@[2] == 'n',
        "urn:uuid:"@[3] == ':',
        "urn:uuid:"@[4] == 'u',
        "urn:uuid:"@[5] == 'u',
        "urn:uuid:"@[6] == 'i',
        "urn:uuid:"@[7] == 'd',
        "urn:uuid:"@[8] == ':',
{
    broadcast use vstd::string::group_string_axioms;

    reveal_strlit("urn:uuid:");
}

/// The snake_case tag of a message type.
pub open spec fn type_tag(t: Type) -> Seq<char> {
    match t {
        Type::Connect => "connect"@,
        Type::Disconnect => "disconnect"@,
        Type::Ping => "ping"@,
        Type::Pong => "pong"@,
        Type::Test => "test"@,
        Type::Error => "error"@,
        Type::Resume => "resume"@,
        Type::Pause => "pause"@,
        Type::Init => "init"@,
        Type::Event => "event"@,
        Type::Query => "query"@,
        Type::Arma => "arma"@,
    }
}

pub fn type_tag_exec(t: &Type) -> (r: &'static str)
    ensures
        r@ == type_tag(*t),
{
    match t {
        Type::Connect => "connect",
        Type::Disconnect => "disconnect",
        Type::Ping => "ping",
        Type::Pong => "pong",
        Type::Test => "test",
        Type::Error => "error",
        Type::Resume => "resume",
        Type::Pause => "pause",
        Type::Init => "init",
        Type::Event => "event",
        Type::Query => "query",
        Type::Arma => "arma",
    }
}

/// The message type named by a tag, if any.
pub open spec fn type_of_tag(s: Seq<char>) -> Option<Type> {
    if s == "connect"@ {
        Some(Type::Connect)
    } else if s == "disconnect"@ {
        Some(Type::Disconnect)
    } else if s == "ping"@ {
        Some(Type::Ping)
    } else if s == "pong"@ {
        Some(Type::Pong)
    } else if s == "test"@ {
        Some(Type::Test)
    } else if s == "error"@ {
        Some(Type::Error)
    } else if s == "resume"@ {
        Some(Type::Resume)
    } else if s == "pause"@ {
        Some(Type::Pause)
    } else if s == "init"@ {
        Some(Type::Init)
    } else if s == "event"@ {
        Some(Type::Event)
    } else if s == "query"@ {
        Some(Type::Query)
    } else if s == "arma"@ {
        Some(Type::Arma)
    } else {
        None
    }
}

pub fn type_of_tag_exec(s: &str) -> (r: Option<Type>)
    ensures
        r == type_of_tag(s@),
{
    if crate::text::str_eq(s, "connect") {
        Some(Type::Connect)
    } else if crate::text::str_eq(s, "disconnect") {
        Some(Type::Disconnect)
    } else if crate::text::str_eq(s, "ping") {
        Some(Type::Ping)
    } else if crate::text::str_eq(s, "pong") {
        Some(Type::Pong)
    } else if crate::text::str_eq(s, "test") {
        Some(Type::Test)
    } else if crate::text::str_eq(s, "error") {
        Some(Type::Error)
    } else if crate::text::str_eq(s, "resume") {
        Some(Type::Resume)
    } else if crate::text::str_eq(s, "pause") {
        Some(Type::Pause)
    } else if crate::text::str_eq(s, "init") {
        Some(Type::Init)
    } else if crate::text::str_eq(s, "event") {
        Some(Type::Event)
    } else if crate::text::str_eq(s, "query") {
        Some(Type::Query)
    } else if crate::text::str_eq(s, "arma") {
        Some(Type::Arma)
    } else {
        None
    }
}

/// The tag of a wire error kind, as written on the wire.
pub open spec fn error_tag(t: ErrorType) -> Seq<char> {
    match t {
        ErrorType::Code => "Code"@,
        ErrorType::Message => "Message"@,
    }
}

pub open spec fn error_json(e: ErrorV) -> ValueV {
    ValueV::Object(
        seq![
            ("type"@, ValueV::Str(error_tag(e.error_type))),
            ("content"@, ValueV::Str(e.error_content)),
        ],
    )
}

pub open spec fn errors_json(es: Seq<ErrorV>) -> ValueV {
    ValueV::Arr(
        Seq::new(
            es.len(),
            |i: int|
                if 0 <= i < es.len() {
                    error_json(es[i])
                } else {
                    ValueV::Nil
                },
        ),
    )
}

/// The structured form of a peer id: its bytes as numbers.
pub open spec fn bytes_json(sid: Seq<u8>) -> ValueV {
    ValueV::Arr(
        Seq::new(
            sid.len(),
            |i: int|
                if 0 <= i < sid.len() {
                    ValueV::Num(dec_digits(sid[i] as nat))
                } else {
                    ValueV::Nil
                },
        ),
    )
}

pub open spec fn opt_member(present: bool, key: Seq<char>, val: ValueV) -> Seq<
    (Seq<char>, ValueV),
> {
    if present {
        seq![(key, val)]
    } else {
        Seq::empty()
    }
}

pub open spec fn data_json(d: DataV) -> ValueV {
    ValueV::Object(
        seq![
            ("type"@, ValueV::Str(crate::codec::data_tag(d))),
            ("content"@, data_content(d)),
        ],
    )
}

pub open spec fn metadata_json(m: MetadataV) -> ValueV {
    ValueV::Object(
        seq![
            ("type"@, ValueV::Str(crate::codec::metadata_tag(m))),
            ("content"@, metadata_content(m)),
        ],
    )
}

/// The ordered members of a message's structured-text form.  `id` and `type`
/// are always present; the peer id only when set; payload, context and
/// errors only when not empty.
pub open spec fn message_members(m: MessageV) -> Seq<(Seq<char>, ValueV)> {
    seq![("id"@, ValueV::Str(m.id)), ("type"@, ValueV::Str(type_tag(m.message_type)))]
        + opt_member(
        m.server_id is Some,
        "server_id"@,
        bytes_json(
            match m.server_id {
                Some(sid) => sid,
                None => Seq::empty(),
            },
        ),
    ) + opt_member(!(m.data is Empty), "data"@, data_json(m.data)) + opt_member(
        !(m.metadata is Empty),
        "metadata"@,
        metadata_json(m.metadata),
    ) + opt_member(m.errors.len() > 0, "errors"@, errors_json(m.errors))
}

/// The structured-text form of a message.
pub open spec fn message_json(m: MessageV) -> ValueV {
    ValueV::Object(message_members(m))
}

// -- decoding ---------------------------------------------------------------

/// One wire error: either a bare string (a plain message), or a record with
/// an error kind tag and content.
pub open spec fn decode_error_value(v: ValueV) -> Result<ErrorV, DecodeError> {
    match v {
        ValueV::Str(s) => Ok(ErrorV { error_type: ErrorType::Message, error_content: s }),
        _ => match content_pairs(v) {
            Ok(ps) => if req_str(ps, "type"@) is Err || req_str(ps, "content"@) is Err {
                Err(DecodeError::Shape)
            } else {
                let t = req_str(ps, "type"@)->Ok_0;
                if t == "Code"@ || t == "code"@ {
                    Ok(
                        ErrorV {
                            error_type: ErrorType::Code,
                            error_content: req_str(ps, "content"@)->Ok_0,
                        },
                    )
                } else if t == "Message"@ || t == "message"@ {
                    Ok(
                        ErrorV {
                            error_type: ErrorType::Message,
                            error_content: req_str(ps, "content"@)->Ok_0,
                        },
                    )
                } else {
                    Err(DecodeError::Shape)
                }
            },
            Err(e) => Err(e),
        },
    }
}

pub open spec fn decode_errors(items: Seq<ValueV>, idx: int) -> Result<Seq<ErrorV>, DecodeError>
    decreases items.len() - idx,
{
    if idx < 0 || idx >= items.len() {
        Ok(Seq::empty())
    } else {
        match decode_error_value(items[idx]) {
            Ok(e) => match decode_errors(items, idx + 1) {
                Ok(rest) => Ok(seq![e] + rest),
                Err(err) => Err(err),
            },
            Err(err) => Err(err),
        }
    }
}

/// A byte read back from its decimal rendering.
pub open spec fn decode_byte(v: ValueV) -> Result<u8, DecodeError> {
    match v {
        ValueV::Num(lex) => if exists|b: u8| lex == dec_digits(b as nat) {
            Ok(choose|b: u8| lex == dec_digits(b as nat))
        } else {
            Err(DecodeError::Shape)
        },
        _ => Err(DecodeError::Shape),
    }
}

pub open spec fn decode_bytes(items: Seq<ValueV>, idx: int) -> Result<Seq<u8>, DecodeError>
    decreases items.len() - idx,
{
    if idx < 0 || idx >= items.len() {
        Ok(Seq::empty())
    } else {
        match decode_byte(items[idx]) {
            Ok(b) => match decode_bytes(items, idx + 1) {
                Ok(rest) => Ok(seq![b] + rest),
                Err(err) => Err(err),
            },
            Err(err) => Err(err),
        }
    }
}

pub open spec fn decode_id(ps: Seq<(Seq<char>, ValueV)>) -> Result<Seq<char>, DecodeError> {
    match req_str(ps, "id"@) {
        Ok(s) => if is_uuid_text(s) {
            Ok(s)
        } else {
            Err(DecodeError::Shape)
        },
        Err(e) => Err(e),
    }
}

pub open spec fn decode_type(ps: Seq<(Seq<char>, ValueV)>) -> Result<Type, DecodeError> {
    match req_str(ps, "type"@) {
        Ok(s) => match type_of_tag(s) {
            Some(t) => Ok(t),
            None => Err(DecodeError::Shape),
        },
        Err(e) => Err(e),
    }
}

pub open spec fn decode_server_id(ps: Seq<(Seq<char>, ValueV)>) -> Result<
    Option<Seq<u8>>,
    DecodeError,
> {
    match pairs_get(ps, "server_id"@) {
        None => Ok(None),
        Some(ValueV::Arr(items)) => match decode_bytes(items, 0) {
            Ok(bs) => Ok(Some(bs)),
            Err(e) => Err(e),
        },
        Some(_) => Err(DecodeError::Shape),
    }
}

pub open spec fn decode_data_field(ps: Seq<(Seq<char>, ValueV)>) -> Result<DataV, DecodeError> {
    match pairs_get(ps, "data"@) {
        None => Ok(DataV::Empty),
        Some(v) => decode_data_value(v),
    }
}

pub open spec fn decode_metadata_field(ps: Seq<(Seq<char>, ValueV)>) -> Result<
    MetadataV,
    DecodeError,
> {
    match pairs_get(ps, "metadata"@) {
        None => Ok(MetadataV::Empty),
        Some(v) => decode_metadata_value(v),
    }
}

pub open spec fn decode_errors_field(ps: Seq<(Seq<char>, ValueV)>) -> Result<
    Seq<ErrorV>,
    DecodeError,
> {
    match pairs_get(ps, "errors"@) {
        None => Ok(Seq::empty()),
        Some(ValueV::Arr(items)) => decode_errors(items, 0),
        Some(_) => Err(DecodeError::Shape),
    }
}

/// What a structured-text message decodes to.  The transient session handle
/// is never serialized, so it comes back unset.
pub open spec fn json_to_message(v: ValueV) -> Result<MessageV, DecodeError> {
    match v {
        ValueV::Object(_) => match content_pairs(v) {
            Err(e) => Err(e),
            Ok(ps) => match decode_id(ps) {
                Err(e) => Err(e),
                Ok(id) => match decode_type(ps) {
                    Err(e) => Err(e),
                    Ok(t) => match decode_server_id(ps) {
                        Err(e) => Err(e),
                        Ok(sid) => match decode_data_field(ps) {
                            Err(e) => Err(e),
                            Ok(d) => match decode_metadata_field(ps) {
                                Err(e) => Err(e),
                                Ok(md) => match decode_errors_field(ps) {
                                    Err(e) => Err(e),
                                    Ok(es) => Ok(
                                        MessageV {
                                            id: id,
                                            message_type: t,
                                            server_id: sid,
                                            resource_id: None,
                                            data: d,
                                            metadata: md,
                                            errors: es,
                                        },
                                    ),
                                },
                            },
                        },
                    },
                },
            },
        },
        _ => Err(DecodeError::Shape),
    }
}

// -- executable forms -------------------------------------------------------

/// Builds the structured-text form of a message.
pub fn message_to_json(m: &Message) -> (r: ArmaValue)
    ensures
        r@ == message_json(m@),
{
    let ghost members = message_members(m@);
    let mut pairs: Vec<(String, ArmaValue)> = Vec::new();
    pairs.push(("id".to_owned(), ArmaValue::String(m.id.clone())));
    pairs.push(("type".to_owned(), ArmaValue::String(type_tag_exec(&m.message_type).to_owned())));
    match &m.server_id {
        Some(sid) => {
            let ghost sidv = sid@;
            let mut items: Vec<ArmaValue> = Vec::new();
            let mut k: usize = 0;
            while k < sid.len()
                invariant
                    0 <= k <= sid@.len(),
                    items@.len() == k,
                    forall|i: int| 0 <= i < k ==> (#[trigger] items@[i])@ == ValueV::Num(
                        dec_digits(sid@[i] as nat),
                    ),
                decreases sid@.len() - k,
            {
                items.push(ArmaValue::Number(crate::text::u64_to_dec_string(sid[k] as u64)));
                k = k + 1;
            }
            proof {
                assert(crate::arma_value::seq_view(items@) =~= bytes_json(sidv)->Arr_0);
            }
            pairs.push(("server_id".to_owned(), ArmaValue::Array(items)));
        },
        None => {},
    }
    if !matches!(m.data, crate::data::Data::Empty) {
        let mut dp: Vec<(String, ArmaValue)> = Vec::new();
        dp.push(("type".to_owned(), ArmaValue::String(data_tag_str(&m.data).to_owned())));
        dp.push(("content".to_owned(), m.data.to_arma()));
        proof {
            assert(crate::arma_value::pairs_view(dp@) =~= data_json(m@.data)->Object_0);
        }
        pairs.push(("data".to_owned(), ArmaValue::HashMap(dp)));
    }
    if !matches!(m.metadata, crate::metadata::Metadata::Empty) {
        let mut mp: Vec<(String, ArmaValue)> = Vec::new();
        mp.push(("type".to_owned(), ArmaValue::String(metadata_tag_str(&m.metadata).to_owned())));
        mp.push(("content".to_owned(), m.metadata.to_arma()));
        proof {
            assert(crate::arma_value::pairs_view(mp@) =~= metadata_json(m@.metadata)->Object_0);
        }
        pairs.push(("metadata".to_owned(), ArmaValue::HashMap(mp)));
    }
    if m.errors.len() > 0 {
        let ghost esv = m@.errors;
        let mut items: Vec<ArmaValue> = Vec::new();
        let mut k: usize = 0;
        while k < m.errors.len()
            invariant
                0 <= k <= m.errors@.len(),
                esv == crate::error_seq_view(m.errors@),
                esv.len() == m.errors@.len(),
                items@.len() == k,
                forall|i: int| 0 <= i < k ==> (#[trigger] items@[i])@ == error_json(esv[i]),
            decreases m.errors@.len() - k,
        {
            let e = &m.errors[k];
            let tag: &'static str = match e.error_type {
                ErrorType::Code => "Code",
                ErrorType::Message => "Message",
            };
            let mut ep: Vec<(String, ArmaValue)> = Vec::new();
            ep.push(("type".to_owned(), ArmaValue::String(tag.to_owned())));
            ep.push(("content".to_owned(), ArmaValue::String(e.error_content.clone())));
            proof {
                assert(esv[k as int] == m.errors@[k as int]@);
                assert(crate::arma_value::pairs_view(ep@) =~= error_json(esv[k as int])->Object_0);
            }
            items.push(ArmaValue::HashMap(ep));
            k = k + 1;
        }
        proof {
            assert(crate::arma_value::seq_view(items@) =~= errors_json(esv)->Arr_0);
        }
        pairs.push(("errors".to_owned(), ArmaValue::Array(items)));
    }
    proof {
        assert(crate::arma_value::pairs_view(pairs@) =~= members);
    }
    ArmaValue::HashMap(pairs)
}

fn data_tag_str(d: &crate::data::Data) -> (r: &'static str)
    ensures
        r@ == crate::codec::data_tag(d@),
{
    match d {
        crate::data::Data::Empty => "empty",
        crate::data::Data::Test(_) => "test",
        crate::data::Data::Init(_) => "init",
        crate::data::Data::PostInit(_) => "post_init",
        crate::data::Data::Query(_) => "query",
        crate::data::Data::QueryResult(_) => "query_result",
        crate::data::Data::SendToChannel(_) => "send_to_channel",
        crate::data::Data::Reward(_) => "reward",
        crate::data::Data::Sqf(_) => "sqf",
        crate::data::Data::SqfResult(_) => "sqf_result",
    }
}

fn metadata_tag_str(m: &crate::metadata::Metadata) -> (r: &'static str)
    ensures
        r@ == crate::codec::metadata_tag(m@),
{
    match m {
        crate::metadata::Metadata::Empty => "empty",
        crate::metadata::Metadata::Test(_) => "test",
        crate::metadata::Metadata::Command(_) => "command",
    }
}

/// The bytes of an array value holding decimal byte renderings.
fn bytes_list_exec(v: &ArmaValue) -> (r: Result<Vec<u8>, DecodeError>)
    ensures
        match r {
            Ok(bs) => v@ matches ValueV::Arr(items) && decode_bytes(items, 0) == Ok::<
                Seq<u8>,
                DecodeError,
            >(bs@),
            Err(e) => e == DecodeError::Shape && match v@ {
                ValueV::Arr(items) => decode_bytes(items, 0) == Err::<Seq<u8>, DecodeError>(e),
                _ => true,
            },
        },
{
    match v {
        ArmaValue::Array(items) => {
            let ghost iv = crate::arma_value::seq_view(items@);
            let mut out: Vec<u8> = Vec::new();
            let mut k: usize = 0;
            while k < items.len()
                invariant
                    0 <= k <= items@.len(),
                    iv == crate::arma_value::seq_view(items@),
                    iv.len() == items@.len(),
                    v@ == ValueV::Arr(iv),
                    out@.len() == k,
                    forall|i: int| 0 <= i < k ==> decode_byte(#[trigger] iv[i]) is Ok,
                    forall|i: int| 0 <= i < k ==> decode_byte(#[trigger] iv[i])->Ok_0 == out@[i],
                decreases items@.len() - k,
            {
                proof {
                    assert(iv[k as int] == items@[k as int]@);
                }
                match &items[k] {
                    ArmaValue::Number(lex) => {
                        let cs = crate::text::str_to_chars(lex.as_str());
                        match crate::text::parse_dec_u8(&cs) {
                            Some(b) => {
                                proof {
                                    crate::text::lemma_dec_value_of_digits(b as nat);
                                    assert(decode_byte(iv[k as int]) == Ok::<u8, DecodeError>(
                                        b,
                                    )) by {
                                        let c = choose|bb: u8| lex@ == dec_digits(bb as nat);
                                        crate::text::lemma_dec_value_of_digits(c as nat);
                                    }
                                }
                                out.push(b);
                            },
                            None => {
                                proof {
                                    lemma_decode_bytes_err(iv, 0, k as int);
                                }
                                return Err(DecodeError::Shape);
                            },
                        }
                    },
                    _ => {
                        proof {
                            lemma_decode_bytes_err(iv, 0, k as int);
                        }
                        return Err(DecodeError::Shape);
                    },
                }
                k = k + 1;
            }
            proof {
                lemma_decode_bytes_all(iv, 0);
                assert(out@ =~= decode_bytes(iv, 0)->Ok_0);
            }
            Ok(out)
        },
        _ => Err(DecodeError::Shape),
    }
}

/// The errors of an array value.
pub(crate) fn errors_list_exec(v: &ArmaValue) -> (r: Result<Vec<Error>, DecodeError>)
    ensures
        match r {
            Ok(es) => v@ matches ValueV::Arr(items) && decode_errors(items, 0) == Ok::<
                Seq<ErrorV>,
                DecodeError,
            >(crate::error_seq_view(es@)),
            Err(e) => e == DecodeError::Shape && match v@ {
                ValueV::Arr(items) => decode_errors(items, 0) == Err::<Seq<ErrorV>, DecodeError>(
                    e,
                ),
                _ => true,
            },
        },
{
    match v {
        ArmaValue::Array(items) => {
            let ghost iv = crate::arma_value::seq_view(items@);
            let mut out: Vec<Error> = Vec::new();
            let mut k: usize = 0;
            while k < items.len()
                invariant
                    0 <= k <= items@.len(),
                    iv == crate::arma_value::seq_view(items@),
                    iv.len() == items@.len(),
                    v@ == ValueV::Arr(iv),
                    out@.len() == k,
                    forall|i: int| 0 <= i < k ==> decode_error_value(#[trigger] iv[i]) is Ok,
                    forall|i: int| 0 <= i < k ==> decode_error_value(#[trigger] iv[i])->Ok_0
                        == out@[i]@,
                decreases items@.len() - k,
            {
                proof {
                    assert(iv[k as int] == items@[k as int]@);
                }
                match decode_error_exec(&items[k]) {
                    Ok(e) => {
                        out.push(e);
                    },
                    Err(e) => {
                        proof {
                            lemma_decode_errors_err(iv, 0, k as int);
                        }
                        return Err(e);
                    },
                }
                k = k + 1;
            }
            proof {
                lemma_decode_errors_all(iv, 0);
                assert(crate::error_seq_view(out@) =~= decode_errors(iv, 0)->Ok_0);
            }
            Ok(out)
        },
        _ => Err(DecodeError::Shape),
    }
}

/// Reads a message out of its structured-text form.
pub fn message_from_json(v: &ArmaValue) -> (r: Result<Message, DecodeError>)
    ensures
        match r {
            Ok(m) => json_to_message(v@) == Ok::<MessageV, DecodeError>(m@),
            Err(e) => json_to_message(v@) == Err::<MessageV, DecodeError>(e),
        },
{
    match v {
        ArmaValue::HashMap(_) => {},
        _ => {
            return Err(DecodeError::Shape);
        },
    }
    let ps = match crate::codec::content_pairs_exec(v) {
        Ok(ps) => ps,
        Err(e) => {
            return Err(e);
        },
    };
    let id = match crate::codec::req_str_exec(&ps, "id") {
        Ok(s) => s,
        Err(e) => {
            return Err(e);
        },
    };
    if !is_uuid_text_exec(id.as_str()) {
        return Err(DecodeError::Shape);
    }
    let type_text = match crate::codec::req_str_exec(&ps, "type") {
        Ok(s) => s,
        Err(e) => {
            return Err(e);
        },
    };
    let message_type = match type_of_tag_exec(type_text.as_str()) {
        Some(t) => t,
        None => {
            return Err(DecodeError::Shape);
        },
    };
    let server_id: Option<Vec<u8>> = match crate::codec::rp_get(&ps, "server_id") {
        None => None,
        Some(sv) => match bytes_list_exec(sv) {
            Ok(bs) => Some(bs),
            Err(e) => {
                return Err(e);
            },
        },
    };
    let data = match crate::codec::rp_get(&ps, "data") {
        None => crate::data::Data::Empty,
        Some(dv) => match crate::codec::data_from_value(dv) {
            Ok(d) => d,
            Err(e) => {
                return Err(e);
            },
        },
    };
    let metadata = match crate::codec::rp_get(&ps, "metadata") {
        None => crate::metadata::Metadata::Empty,
        Some(mv) => match crate::codec::metadata_from_value(mv) {
            Ok(m) => m,
            Err(e) => {
                return Err(e);
            },
        },
    };
    let errors: Vec<Error> = match crate::codec::rp_get(&ps, "errors") {
        None => {
            let es: Vec<Error> = Vec::new();
            proof {
                assert(crate::error_seq_view(es@) =~= Seq::<ErrorV>::empty());
            }
            es
        },
        Some(ev) => match errors_list_exec(ev) {
            Ok(es) => es,
            Err(e) => {
                return Err(e);
            },
        },
    };
    proof {
        let msv = crate::codec::rp_view(ps@);
        let ghost sidv: Option<Seq<u8>> = match server_id {
            Some(ref sv) => Some(sv@),
            None => None,
        };
        assert(content_pairs(v@) == Ok::<Seq<(Seq<char>, ValueV)>, DecodeError>(msv));
        assert(decode_id(msv) == Ok::<Seq<char>, DecodeError>(id@));
        assert(decode_type(msv) == Ok::<Type, DecodeError>(message_type));
        assert(decode_server_id(msv) == Ok::<Option<Seq<u8>>, DecodeError>(sidv));
        assert(decode_data_field(msv) == Ok::<DataV, DecodeError>(data@));
        assert(decode_metadata_field(msv) == Ok::<MetadataV, DecodeError>(metadata@));
        assert(decode_errors_field(msv) == Ok::<Seq<ErrorV>, DecodeError>(
            crate::error_seq_view(errors@),
        ));
        assert(json_to_message(v@) == Ok::<MessageV, DecodeError>(
            MessageV {
                id: id@,
                message_type,
                server_id: sidv,
                resource_id: None,
                data: data@,
                metadata: metadata@,
                errors: crate::error_seq_view(errors@),
            },
        ));
    }
    Ok(
        Message {
            id,
            message_type,
            server_id,
            resource_id: None,
            data,
            metadata,
            errors,
        },
    )
}

/// One wire error.
fn decode_error_exec(v: &ArmaValue) -> (r: Result<Error, DecodeError>)
    ensures
        match r {
            Ok(e) => decode_error_value(v@) == Ok::<ErrorV, DecodeError>(e@),
            Err(err) => decode_error_value(v@) == Err::<ErrorV, DecodeError>(err) && err
                == DecodeError::Shape,
        },
{
    if let ArmaValue::String(s) = v {
        return Ok(Error { error_type: ErrorType::Message, error_content: s.clone() });
    }
    let ps = match crate::codec::content_pairs_exec(v) {
        Ok(ps) => ps,
        Err(e) => {
            return Err(e);
        },
    };
    let t = match crate::codec::req_str_exec(&ps, "type") {
        Ok(s) => s,
        Err(e) => {
            return Err(e);
        },
    };
    let content = match crate::codec::req_str_exec(&ps, "content") {
        Ok(s) => s,
        Err(e) => {
            return Err(e);
        },
    };
    if crate::text::str_eq(t.as_str(), "Code") || crate::text::str_eq(t.as_str(), "code") {
        Ok(Error { error_type: ErrorType::Code, error_content: content })
    } else if crate::text::str_eq(t.as_str(), "Message") || crate::text::str_eq(
        t.as_str(),
        "message",
    ) {
        Ok(Error { error_type: ErrorType::Message, error_content: content })
    } else {
        Err(DecodeError::Shape)
    }
}

proof fn lemma_decode_bytes_all(items: Seq<ValueV>, idx: int)
    requires
        0 <= idx <= items.len(),
        forall|i: int| 0 <= i < items.len() ==> decode_byte(#[trigger] items[i]) is Ok,
    ensures
        decode_bytes(items, idx) is Ok,
        decode_bytes(items, idx)->Ok_0 =~= Seq::new(
            (items.len() - idx) as nat,
            |i: int|
                if 0 <= idx + i < items.len() {
                    decode_byte(items[idx + i])->Ok_0
                } else {
                    0u8
                },
        ),
    decreases items.len() - idx,
{
    if idx < items.len() {
        lemma_decode_bytes_all(items, idx + 1);
        assert(decode_bytes(items, idx)->Ok_0 =~= seq![decode_byte(items[idx])->Ok_0]
            + decode_bytes(items, idx + 1)->Ok_0);
    }
}

proof fn lemma_decode_bytes_err(items: Seq<ValueV>, idx: int, bad: int)
    requires
        0 <= idx <= bad < items.len(),
        decode_byte(items[bad]) is Err,
    ensures
        decode_bytes(items, idx) == Err::<Seq<u8>, DecodeError>(DecodeError::Shape),
    decreases items.len() - idx,
{
    if idx < bad {
        lemma_decode_bytes_err(items, idx + 1, bad);
    }
}

proof fn lemma_decode_errors_all(items: Seq<ValueV>, idx: int)
    requires
        0 <= idx <= items.len(),
        forall|i: int| 0 <= i < items.len() ==> decode_error_value(#[trigger] items[i]) is Ok,
    ensures
        decode_errors(items, idx) is Ok,
        decode_errors(items, idx)->Ok_0 =~= Seq::new(
            (items.len() - idx) as nat,
            |i: int|
                if 0 <= idx + i < items.len() {
                    decode_error_value(items[idx + i])->Ok_0
                } else {
                    ErrorV { error_type: ErrorType::Message, error_content: Seq::empty() }
                },
        ),
    decreases items.len() - idx,
{
    if idx < items.len() {
        lemma_decode_errors_all(items, idx + 1);
        assert(decode_errors(items, idx)->Ok_0 =~= seq![decode_error_value(items[idx])->Ok_0]
            + decode_errors(items, idx + 1)->Ok_0);
    }
}

proof fn lemma_decode_errors_err(items: Seq<ValueV>, idx: int, bad: int)
    requires
        0 <= idx <= bad < items.len(),
        decode_error_value(items[bad]) is Err,
        forall|i: int| 0 <= i < bad ==> decode_error_value(#[trigger] items[i]) is Ok,
    ensures
        decode_errors(items, idx) == Err::<Seq<ErrorV>, DecodeError>(
            decode_error_value(items[bad])->Err_0,
        ),
    decreases items.len() - idx,
{
    if idx < bad {
        lemma_decode_errors_err(items, idx + 1, bad);
    }
}


// ---------------------------------------------------------------------------
// Round trip: reading back the structured-text form of a message yields the
// message, with the transient session handle cleared.
// ---------------------------------------------------------------------------

/// Folding a distinct-keyed member list reproduces the list.
proof fn lemma_fold_members_id(
    fs: Seq<(Seq<char>, ValueV)>,
    idx: int,
    acc: Seq<(Seq<char>, ValueV)>,
)
    requires
        crate::codec::keys_distinct(fs),
        0 <= idx <= fs.len(),
        acc == fs.subrange(0, idx),
    ensures
        crate::codec::fold_members(fs, idx, acc) == fs,
    decreases fs.len() - idx,
{
    if idx == fs.len() {
        assert(acc =~= fs);
    } else {
        crate::codec::lemma_pairs_find_bounds(acc, fs[idx].0);
        if crate::codec::pairs_find(acc, fs[idx].0) != -1 {
            let r = crate::codec::pairs_find(acc, fs[idx].0);
            assert(acc[r] == fs[r]);
            assert(false);
        }
        assert(crate::codec::pairs_insert(acc, fs[idx].0, fs[idx].1) =~= fs.subrange(
            0,
            idx + 1,
        ));
        lemma_fold_members_id(fs, idx + 1, fs.subrange(0, idx + 1));
    }
}

/// The member keys of the envelope are pairwise distinct, and each member
/// is read back by its key.
#[verifier::rlimit(100)]
#[verifier::spinoff_prover]
proof fn lemma_members_get(m: MessageV)
    ensures
        crate::codec::keys_distinct(message_members(m)),
        pairs_get(message_members(m), "id"@) == Some(ValueV::Str(m.id)),
        pairs_get(message_members(m), "type"@) == Some(ValueV::Str(type_tag(m.message_type))),
        m.server_id matches Some(sid) ==> pairs_get(message_members(m), "server_id"@) == Some(
            bytes_json(sid),
        ),
        m.server_id is None ==> pairs_get(message_members(m), "server_id"@) is None,
        !(m.data is Empty) ==> pairs_get(message_members(m), "data"@) == Some(data_json(m.data)),
        m.data is Empty ==> pairs_get(message_members(m), "data"@) is None,
        !(m.metadata is Empty) ==> pairs_get(message_members(m), "metadata"@) == Some(
            metadata_json(m.metadata),
        ),
        m.metadata is Empty ==> pairs_get(message_members(m), "metadata"@) is None,
        m.errors.len() > 0 ==> pairs_get(message_members(m), "errors"@) == Some(
            errors_json(m.errors),
        ),
        m.errors.len() == 0 ==> pairs_get(message_members(m), "errors"@) is None,
{
    broadcast use vstd::string::group_string_axioms;

    reveal_strlit("id");
    reveal_strlit("type");
    reveal_strlit("server_id");
    reveal_strlit("data");
    reveal_strlit("metadata");
    reveal_strlit("errors");
    assert("id"@.len() == 2);
    assert("type"@.len() == 4);
    assert("server_id"@.len() == 9);
    assert("data"@.len() == 4);
    assert("metadata"@.len() == 8);
    assert("errors"@.len() == 6);
    assert("type"@[0] != "data"@[0]);
    let ms = message_members(m);
    let b1: int = if m.server_id is Some {
        1
    } else {
        0
    };
    let b2: int = if !(m.data is Empty) {
        1
    } else {
        0
    };
    let b3: int = if !(m.metadata is Empty) {
        1
    } else {
        0
    };
    let b4: int = if m.errors.len() > 0 {
        1
    } else {
        0
    };
    assert(ms.len() == 2 + b1 + b2 + b3 + b4);
    assert(ms[0] == ("id"@, ValueV::Str(m.id)));
    assert(ms[1] == ("type"@, ValueV::Str(type_tag(m.message_type))));
    assert(m.server_id matches Some(sid) ==> ms[2] == ("server_id"@, bytes_json(sid)));
    assert(!(m.data is Empty) ==> ms[2 + b1] == ("data"@, data_json(m.data)));
    assert(!(m.metadata is Empty) ==> ms[2 + b1 + b2] == (
        "metadata"@,
        metadata_json(m.metadata),
    ));
    assert(m.errors.len() > 0 ==> ms[2 + b1 + b2 + b3] == ("errors"@, errors_json(m.errors)));
    assert forall|i: int| 0 <= i < ms.len() implies (#[trigger] ms[i]).0 == (if i == 0 {
        "id"@
    } else if i == 1 {
        "type"@
    } else if b1 == 1 && i == 2 {
        "server_id"@
    } else if b2 == 1 && i == 2 + b1 {
        "data"@
    } else if b3 == 1 && i == 2 + b1 + b2 {
        "metadata"@
    } else {
        "errors"@
    }) by {}
    assert(crate::codec::keys_distinct(ms));
    crate::codec::lemma_pairs_get_at(ms, 0);
    crate::codec::lemma_pairs_get_at(ms, 1);
    if m.server_id is Some {
        crate::codec::lemma_pairs_get_at(ms, 2);
    } else {
        crate::codec::lemma_pairs_find_bounds(ms, "server_id"@);
    }
    if !(m.data is Empty) {
        crate::codec::lemma_pairs_get_at(ms, 2 + b1);
    } else {
        crate::codec::lemma_pairs_find_bounds(ms, "data"@);
    }
    if !(m.metadata is Empty) {
        crate::codec::lemma_pairs_get_at(ms, 2 + b1 + b2);
    } else {
        crate::codec::lemma_pairs_find_bounds(ms, "metadata"@);
    }
    if m.errors.len() > 0 {
        crate::codec::lemma_pairs_get_at(ms, 2 + b1 + b2 + b3);
    } else {
        crate::codec::lemma_pairs_find_bounds(ms, "errors"@);
    }
}

/// A type tag names the type it was written from.
proof fn lemma_type_tag_round(t: Type)
    ensures
        type_of_tag(type_tag(t)) == Some(t),
{
    broadcast use vstd::string::group_string_axioms;

    reveal_strlit("connect");
    reveal_strlit("disconnect");
    reveal_strlit("ping");
    reveal_strlit("pong");
    reveal_strlit("test");
    reveal_strlit("error");
    reveal_strlit("resume");
    reveal_strlit("pause");
    reveal_strlit("init");
    reveal_strlit("event");
    reveal_strlit("query");
    reveal_strlit("arma");
    assert("connect"@.len() == 7);
    assert("disconnect"@.len() == 10);
    assert("ping"@.len() == 4);
    assert("pong"@.len() == 4);
    assert("test"@.len() == 4);
    assert("error"@.len() == 5);
    assert("resume"@.len() == 6);
    assert("pause"@.len() == 5);
    assert("init"@.len() == 4);
    assert("event"@.len() == 5);
    assert("query"@.len() == 5);
    assert("arma"@.len() == 4);
    assert("ping"@[1] != "pong"@[1]);
    assert("ping"@[0] != "test"@[0]);
    assert("ping"@[0] != "init"@[0]);
    assert("ping"@[0] != "arma"@[0]);
    assert("pong"@[0] != "test"@[0]);
    assert("pong"@[0] != "init"@[0]);
    assert("pong"@[0] != "arma"@[0]);
    assert("test"@[0] != "init"@[0]);
    assert("test"@[0] != "arma"@[0]);
    assert("init"@[0] != "arma"@[0]);
    assert("error"@[1] != "event"@[1]);
    assert("error"@[0] != "pause"@[0]);
    assert("error"@[0] != "query"@[0]);
    assert("pause"@[0] != "event"@[0]);
    assert("pause"@[0] != "query"@[0]);
    assert("event"@[0] != "query"@[0]);
}

/// The byte list of a peer id reads back to the same bytes.
proof fn lemma_decode_bytes_json(sid: Seq<u8>, idx: int)
    requires
        0 <= idx <= sid.len(),
    ensures
        decode_bytes(bytes_json(sid)->Arr_0, idx) == Ok::<Seq<u8>, DecodeError>(
            sid.subrange(idx, sid.len() as int),
        ),
    decreases sid.len() - idx,
{
    let items = bytes_json(sid)->Arr_0;
    if idx == sid.len() {
        assert(sid.subrange(idx, sid.len() as int) =~= Seq::<u8>::empty());
    } else {
        assert(items[idx] == ValueV::Num(dec_digits(sid[idx] as nat)));
        let lex = dec_digits(sid[idx] as nat);
        assert(exists|b: u8| lex == dec_digits(b as nat));
        let c = choose|b: u8| lex == dec_digits(b as nat);
        crate::text::lemma_dec_value_of_digits(c as nat);
        crate::text::lemma_dec_value_of_digits(sid[idx] as nat);
        assert(c == sid[idx]);
        lemma_decode_bytes_json(sid, idx + 1);
        assert(seq![sid[idx]] + sid.subrange(idx + 1, sid.len() as int) =~= sid.subrange(
            idx,
            sid.len() as int,
        ));
    }
}

/// A wire error reads back to the error it was written from.
proof fn lemma_error_round_trip(e: ErrorV)
    ensures
        decode_error_value(error_json(e)) == Ok::<ErrorV, DecodeError>(e),
{
    broadcast use vstd::string::group_string_axioms;

    reveal_strlit("type");
    reveal_strlit("content");
    reveal_strlit("code");
    reveal_strlit("message");
    reveal_strlit("Code");
    reveal_strlit("Message");
    assert("type"@.len() == 4);
    assert("content"@.len() == 7);
    assert("code"@.len() == 4);
    assert("message"@.len() == 7);
    assert("Code"@.len() == 4);
    assert("Message"@.len() == 7);
    assert("Code"@[0] != "code"@[0]);
    assert("Message"@[0] != "message"@[0]);
    let fs = error_json(e)->Object_0;
    assert(crate::codec::keys_distinct(fs));
    assert(fs.subrange(0, 0) =~= Seq::<(Seq<char>, ValueV)>::empty());
    lemma_fold_members_id(fs, 0, Seq::empty());
    crate::codec::lemma_pairs_get_at(fs, 0);
    crate::codec::lemma_pairs_get_at(fs, 1);
    assert((ErrorV { error_type: e.error_type, error_content: e.error_content }) == e);
}

/// The error list reads back to the same errors.
proof fn lemma_decode_errors_json(es: Seq<ErrorV>, idx: int)
    requires
        0 <= idx <= es.len(),
    ensures
        decode_errors(errors_json(es)->Arr_0, idx) == Ok::<Seq<ErrorV>, DecodeError>(
            es.subrange(idx, es.len() as int),
        ),
    decreases es.len() - idx,
{
    let items = errors_json(es)->Arr_0;
    if idx == es.len() {
        assert(es.subrange(idx, es.len() as int) =~= Seq::<ErrorV>::empty());
    } else {
        assert(items[idx] == error_json(es[idx]));
        lemma_error_round_trip(es[idx]);
        lemma_decode_errors_json(es, idx + 1);
        assert(seq![es[idx]] + es.subrange(idx + 1, es.len() as int) =~= es.subrange(
            idx,
            es.len() as int,
        ));
    }
}

/// The envelope form of a payload decodes to the payload.
proof fn lemma_decode_data_json(d: DataV)
    requires
        crate::data::wf_data(d),
    ensures
        decode_data_value(data_json(d)) == Ok::<DataV, DecodeError>(d),
{
    broadcast use vstd::string::group_string_axioms;

    reveal_strlit("type");
    reveal_strlit("content");
    assert("type"@.len() == 4);
    assert("content"@.len() == 7);
    let fs = data_json(d)->Object_0;
    assert(crate::codec::keys_distinct(fs));
    assert(fs.subrange(0, 0) =~= Seq::<(Seq<char>, ValueV)>::empty());
    lemma_fold_members_id(fs, 0, Seq::empty());
    crate::codec::lemma_pairs_get_at(fs, 0);
    crate::codec::lemma_pairs_get_at(fs, 1);
    assert(crate::codec::tag_and_content(data_json(d)) == Ok::<
        (Seq<char>, ValueV),
        DecodeError,
    >((crate::codec::data_tag(d), data_content(d))));
    crate::codec::lemma_data_tagged_round_trip(d);
}

/// The envelope form of a context decodes to the context.
proof fn lemma_decode_metadata_json(m: MetadataV)
    ensures
        decode_metadata_value(metadata_json(m)) == Ok::<MetadataV, DecodeError>(m),
{
    broadcast use vstd::string::group_string_axioms;

    reveal_strlit("type");
    reveal_strlit("content");
    assert("type"@.len() == 4);
    assert("content"@.len() == 7);
    let fs = metadata_json(m)->Object_0;
    assert(crate::codec::keys_distinct(fs));
    assert(fs.subrange(0, 0) =~= Seq::<(Seq<char>, ValueV)>::empty());
    lemma_fold_members_id(fs, 0, Seq::empty());
    crate::codec::lemma_pairs_get_at(fs, 0);
    crate::codec::lemma_pairs_get_at(fs, 1);
    assert(crate::codec::tag_and_content(metadata_json(m)) == Ok::<
        (Seq<char>, ValueV),
        DecodeError,
    >((crate::codec::metadata_tag(m), metadata_content(m))));
    crate::codec::lemma_metadata_tagged_round_trip(m);
}

/// The structured-text form of a message is a well-formed value: every
/// number in it is a valid decimal lexeme.
pub proof fn lemma_message_wf_value(m: MessageV)
    ensures
        crate::arma_value::wf_value(message_json(m)),
{
    let ms = message_members(m);
    assert forall|i: int| 0 <= i < ms.len() implies crate::arma_value::wf_value(
        (#[trigger] ms[i]).1,
    ) by {
        lemma_wf_member_values(m);
        let b1: int = if m.server_id is Some {
            1
        } else {
            0
        };
        let b2: int = if !(m.data is Empty) {
            1
        } else {
            0
        };
        let b3: int = if !(m.metadata is Empty) {
            1
        } else {
            0
        };
    }
}

/// Each possible member value of the envelope is well formed.
proof fn lemma_wf_member_values(m: MessageV)
    ensures
        crate::arma_value::wf_value(ValueV::Str(m.id)),
        crate::arma_value::wf_value(ValueV::Str(type_tag(m.message_type))),
        m.server_id matches Some(sid) ==> crate::arma_value::wf_value(bytes_json(sid)),
        crate::arma_value::wf_value(data_json(m.data)),
        crate::arma_value::wf_value(metadata_json(m.metadata)),
        crate::arma_value::wf_value(errors_json(m.errors)),
{
    match m.server_id {
        Some(sid) => {
            let items = bytes_json(sid)->Arr_0;
            assert forall|i: int| 0 <= i < items.len() implies crate::arma_value::wf_value(
                #[trigger] items[i],
            ) by {
                assert(items[i] == ValueV::Num(dec_digits(sid[i] as nat)));
                crate::arma_value::lemma_dec_digits_lexeme(sid[i] as nat);
            }
        },
        None => {},
    }
    crate::codec::lemma_wf_data_content(m.data);
    let dfs = data_json(m.data)->Object_0;
    assert(dfs[0].1 == ValueV::Str(crate::codec::data_tag(m.data)));
    assert(dfs[1].1 == data_content(m.data));
    assert(forall|i: int| 0 <= i < dfs.len() ==> crate::arma_value::wf_value(
        (#[trigger] dfs[i]).1,
    ));
    crate::codec::lemma_wf_metadata_content(m.metadata);
    let mfs = metadata_json(m.metadata)->Object_0;
    assert(mfs[0].1 == ValueV::Str(crate::codec::metadata_tag(m.metadata)));
    assert(mfs[1].1 == metadata_content(m.metadata));
    assert(forall|i: int| 0 <= i < mfs.len() ==> crate::arma_value::wf_value(
        (#[trigger] mfs[i]).1,
    ));
    let eitems = errors_json(m.errors)->Arr_0;
    assert forall|i: int| 0 <= i < eitems.len() implies crate::arma_value::wf_value(
        #[trigger] eitems[i],
    ) by {
        assert(eitems[i] == error_json(m.errors[i]));
        let efs = error_json(m.errors[i])->Object_0;
        assert(efs[0].1 == ValueV::Str(error_tag(m.errors[i].error_type)));
        assert(efs[1].1 == ValueV::Str(m.errors[i].error_content));
        assert(forall|j: int| 0 <= j < efs.len() ==> crate::arma_value::wf_value(
            (#[trigger] efs[j]).1,
        ));
    }
}

/// Reading back the structured-text form of a well-formed message yields the
/// message with the session handle cleared: the envelope round trip.
pub proof fn lemma_message_round_trip(m: MessageV)
    requires
        crate::wf_message(m),
    ensures
        json_to_message(message_json(m)) == Ok::<MessageV, DecodeError>(crate::received_view(m)),
{
    let ms = message_members(m);
    lemma_members_get(m);
    assert(ms.subrange(0, 0) =~= Seq::<(Seq<char>, ValueV)>::empty());
    lemma_fold_members_id(ms, 0, Seq::empty());
    assert(content_pairs(message_json(m)) == Ok::<Seq<(Seq<char>, ValueV)>, DecodeError>(ms));
    assert(decode_id(ms) == Ok::<Seq<char>, DecodeError>(m.id));
    lemma_type_tag_round(m.message_type);
    assert(decode_type(ms) == Ok::<Type, DecodeError>(m.message_type));
    match m.server_id {
        Some(sid) => {
            lemma_decode_bytes_json(sid, 0);
            assert(sid.subrange(0, sid.len() as int) =~= sid);
            assert(decode_server_id(ms) == Ok::<Option<Seq<u8>>, DecodeError>(Some(sid)));
        },
        None => {
            assert(decode_server_id(ms) == Ok::<Option<Seq<u8>>, DecodeError>(None));
        },
    }
    if m.data is Empty {
        assert(decode_data_field(ms) == Ok::<DataV, DecodeError>(m.data));
    } else {
        lemma_decode_data_json(m.data);
        assert(decode_data_field(ms) == Ok::<DataV, DecodeError>(m.data));
    }
    if m.metadata is Empty {
        assert(decode_metadata_field(ms) == Ok::<MetadataV, DecodeError>(m.metadata));
    } else {
        lemma_decode_metadata_json(m.metadata);
        assert(decode_metadata_field(ms) == Ok::<MetadataV, DecodeError>(m.metadata));
    }
    if m.errors.len() == 0 {
        assert(m.errors =~= Seq::<ErrorV>::empty());
        assert(decode_errors_field(ms) == Ok::<Seq<ErrorV>, DecodeError>(m.errors));
    } else {
        lemma_decode_errors_json(m.errors, 0);
        assert(m.errors.subrange(0, m.errors.len() as int) =~= m.errors);
        assert(decode_errors_field(ms) == Ok::<Seq<ErrorV>, DecodeError>(m.errors));
    }
    assert(json_to_message(message_json(m)) == Ok::<MessageV, DecodeError>(
        crate::received_view(m),
    ));
}


/// The omission rule: a message with the empty payload, the empty context,
/// no errors and no peer id serializes with only its `id` and `type`
/// members.
pub proof fn lemma_empty_message_members(m: MessageV)
    requires
        m.data is Empty,
        m.metadata is Empty,
        m.errors.len() == 0,
        m.server_id is None,
    ensures
        message_members(m) =~= seq![
            ("id"@, ValueV::Str(m.id)),
            ("type"@, ValueV::Str(type_tag(m.message_type))),
        ],
{
}

} // verus!
