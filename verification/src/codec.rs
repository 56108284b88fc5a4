use vstd::prelude::*;

use crate::arma_value::{ArmaValue, ValueV};
use crate::data::{
    DataV, InitV, PostInitV, QueryResultV, QueryV, RewardV, SendToChannelV, SqfResultV, SqfV,
    TestV,
};
use crate::error::DecodeError;
use crate::metadata::{CommandV, MetaTestV, MetadataV, PlayerV};

verus! {

// ---------------------------------------------------------------------------
// Field lists: the normalized key/value form that every record travels in.
// The host writes a record as an array of two-element arrays; the remote peer
// writes it as an object.  Both collapse to the same ordered field list with
// unique keys (a later binding for a key replaces the earlier value in
// place), and the typed codec reads fields from that list.
// ---------------------------------------------------------------------------

/// The first index holding `key`, or -1.
pub open spec fn pairs_find(ps: Seq<(Seq<char>, ValueV)>, key: Seq<char>) -> int
    decreases ps.len(),
{
    if ps.len() == 0 {
        -1
    } else if ps[0].0 == key {
        0
    } else {
        let r = pairs_find(ps.drop_first(), key);
        if r == -1 {
            -1
        } else {
            r + 1
        }
    }
}

pub open spec fn pairs_get(ps: Seq<(Seq<char>, ValueV)>, key: Seq<char>) -> Option<ValueV> {
    let i = pairs_find(ps, key);
    if i == -1 {
        None
    } else {
        Some(ps[i].1)
    }
}

pub open spec fn pairs_insert(
    ps: Seq<(Seq<char>, ValueV)>,
    key: Seq<char>,
    value: ValueV,
) -> Seq<(Seq<char>, ValueV)> {
    let i = pairs_find(ps, key);
    if i == -1 {
        ps.push((key, value))
    } else {
        ps.update(i, (key, value))
    }
}

/// Folds the elements of a host array into a field list: every element must
/// be a two-element array whose first slot is a string.
pub open spec fn fold_pair_items(
    items: Seq<ValueV>,
    idx: int,
    acc: Seq<(Seq<char>, ValueV)>,
) -> Result<Seq<(Seq<char>, ValueV)>, DecodeError>
    decreases items.len() - idx,
{
    if idx < 0 || idx >= items.len() {
        Ok(acc)
    } else {
        match items[idx] {
            ValueV::Arr(kv) => if kv.len() == 2 {
                match kv[0] {
                    ValueV::Str(k) => fold_pair_items(items, idx + 1, pairs_insert(acc, k, kv[1])),
                    _ => Err(DecodeError::Shape),
                }
            } else {
                Err(DecodeError::Shape)
            },
            _ => Err(DecodeError::Shape),
        }
    }
}

/// Folds object members into a field list, later bindings replacing earlier
/// ones.
pub open spec fn fold_members(
    pairs: Seq<(Seq<char>, ValueV)>,
    idx: int,
    acc: Seq<(Seq<char>, ValueV)>,
) -> Seq<(Seq<char>, ValueV)>
    decreases pairs.len() - idx,
{
    if idx < 0 || idx >= pairs.len() {
        acc
    } else {
        fold_members(pairs, idx + 1, pairs_insert(acc, pairs[idx].0, pairs[idx].1))
    }
}

/// The field list carried by a record-shaped value: the empty value has no
/// fields, an object gives its members, an array is read as key/value pairs.
pub open spec fn content_pairs(v: ValueV) -> Result<Seq<(Seq<char>, ValueV)>, DecodeError> {
    match v {
        ValueV::Nil => Ok(Seq::empty()),
        ValueV::Object(pairs) => Ok(fold_members(pairs, 0, Seq::empty())),
        ValueV::Arr(items) => fold_pair_items(items, 0, Seq::empty()),
        _ => Err(DecodeError::Shape),
    }
}

// -- field readers ----------------------------------------------------------

/// A required string field.
pub open spec fn req_str(ps: Seq<(Seq<char>, ValueV)>, key: Seq<char>) -> Result<
    Seq<char>,
    DecodeError,
> {
    match pairs_get(ps, key) {
        Some(ValueV::Str(s)) => Ok(s),
        _ => Err(DecodeError::Shape),
    }
}

/// A required boolean field.
pub open spec fn req_bool(ps: Seq<(Seq<char>, ValueV)>, key: Seq<char>) -> Result<
    bool,
    DecodeError,
> {
    match pairs_get(ps, key) {
        Some(ValueV::Bool(b)) => Ok(b),
        _ => Err(DecodeError::Shape),
    }
}

/// An optional string field: absent or empty means no value.
pub open spec fn opt_str(ps: Seq<(Seq<char>, ValueV)>, key: Seq<char>) -> Result<
    Option<Seq<char>>,
    DecodeError,
> {
    match pairs_get(ps, key) {
        None => Ok(None),
        Some(ValueV::Nil) => Ok(None),
        Some(ValueV::Str(s)) => Ok(Some(s)),
        _ => Err(DecodeError::Shape),
    }
}

/// Converts a field list whose values must all be strings into map entries.
pub open spec fn string_entries(ps: Seq<(Seq<char>, ValueV)>, idx: int) -> Result<
    Seq<(Seq<char>, Seq<char>)>,
    DecodeError,
>
    decreases ps.len() - idx,
{
    if idx < 0 || idx >= ps.len() {
        Ok(Seq::empty())
    } else {
        match ps[idx].1 {
            ValueV::Str(s) => match string_entries(ps, idx + 1) {
                Ok(rest) => Ok(seq![(ps[idx].0, s)] + rest),
                Err(e) => Err(e),
            },
            _ => Err(DecodeError::Shape),
        }
    }
}

/// A string-to-string map read from a record-shaped value.
pub open spec fn value_to_map(v: ValueV) -> Result<Seq<(Seq<char>, Seq<char>)>, DecodeError> {
    if v is Nil {
        Err(DecodeError::Shape)
    } else {
        match content_pairs(v) {
            Ok(ps) => string_entries(ps, 0),
            Err(e) => Err(e),
        }
    }
}

/// A required map field.
pub open spec fn req_map(ps: Seq<(Seq<char>, ValueV)>, key: Seq<char>) -> Result<
    Seq<(Seq<char>, Seq<char>)>,
    DecodeError,
> {
    match pairs_get(ps, key) {
        Some(v) => value_to_map(v),
        None => Err(DecodeError::Shape),
    }
}

/// An optional map field.
pub open spec fn opt_map(ps: Seq<(Seq<char>, ValueV)>, key: Seq<char>) -> Result<
    Option<Seq<(Seq<char>, Seq<char>)>>,
    DecodeError,
> {
    match pairs_get(ps, key) {
        None => Ok(None),
        Some(ValueV::Nil) => Ok(None),
        Some(v) => match value_to_map(v) {
            Ok(m) => Ok(Some(m)),
            Err(e) => Err(e),
        },
    }
}

/// The strings of an array that must hold only strings.
pub open spec fn strings_of(items: Seq<ValueV>, idx: int) -> Result<Seq<Seq<char>>, DecodeError>
    decreases items.len() - idx,
{
    if idx < 0 || idx >= items.len() {
        Ok(Seq::empty())
    } else {
        match items[idx] {
            ValueV::Str(s) => match strings_of(items, idx + 1) {
                Ok(rest) => Ok(seq![s] + rest),
                Err(e) => Err(e),
            },
            _ => Err(DecodeError::Shape),
        }
    }
}

/// A required list-of-strings field.
pub open spec fn req_str_list(ps: Seq<(Seq<char>, ValueV)>, key: Seq<char>) -> Result<
    Seq<Seq<char>>,
    DecodeError,
> {
    match pairs_get(ps, key) {
        Some(ValueV::Arr(items)) => strings_of(items, 0),
        _ => Err(DecodeError::Shape),
    }
}

/// The maps of an array that must hold only record-shaped values.
pub open spec fn maps_of(items: Seq<ValueV>, idx: int) -> Result<
    Seq<Seq<(Seq<char>, Seq<char>)>>,
    DecodeError,
>
    decreases items.len() - idx,
{
    if idx < 0 || idx >= items.len() {
        Ok(Seq::empty())
    } else {
        match value_to_map(items[idx]) {
            Ok(m) => match maps_of(items, idx + 1) {
                Ok(rest) => Ok(seq![m] + rest),
                Err(e) => Err(e),
            },
            Err(e) => Err(e),
        }
    }
}

/// An optional list-of-maps field.
pub open spec fn opt_map_list(ps: Seq<(Seq<char>, ValueV)>, key: Seq<char>) -> Result<
    Option<Seq<Seq<(Seq<char>, Seq<char>)>>>,
    DecodeError,
> {
    match pairs_get(ps, key) {
        None => Ok(None),
        Some(ValueV::Nil) => Ok(None),
        Some(ValueV::Arr(items)) => match maps_of(items, 0) {
            Ok(ms) => Ok(Some(ms)),
            Err(e) => Err(e),
        },
        _ => Err(DecodeError::Shape),
    }
}

/// A player record read from a record-shaped value.
pub open spec fn player_of(v: ValueV) -> Result<PlayerV, DecodeError> {
    if v is Nil {
        Err(DecodeError::Shape)
    } else {
        match content_pairs(v) {
            Ok(ps) => if req_str(ps, "steam_uid"@) is Err || opt_str(ps, "discord_id"@) is Err
                || opt_str(ps, "discord_mention"@) is Err || opt_str(ps, "discord_name"@)
                is Err {
                Err(DecodeError::Shape)
            } else {
                Ok(
                    PlayerV {
                        discord_id: opt_str(ps, "discord_id"@)->Ok_0,
                        discord_mention: opt_str(ps, "discord_mention"@)->Ok_0,
                        discord_name: opt_str(ps, "discord_name"@)->Ok_0,
                        steam_uid: req_str(ps, "steam_uid"@)->Ok_0,
                    },
                )
            },
            Err(e) => Err(e),
        }
    }
}

/// A required player field.
pub open spec fn req_player(ps: Seq<(Seq<char>, ValueV)>, key: Seq<char>) -> Result<
    PlayerV,
    DecodeError,
> {
    match pairs_get(ps, key) {
        Some(v) => player_of(v),
        None => Err(DecodeError::Shape),
    }
}

/// An optional player field.
pub open spec fn opt_player(ps: Seq<(Seq<char>, ValueV)>, key: Seq<char>) -> Result<
    Option<PlayerV>,
    DecodeError,
> {
    match pairs_get(ps, key) {
        None => Ok(None),
        Some(ValueV::Nil) => Ok(None),
        Some(v) => match player_of(v) {
            Ok(p) => Ok(Some(p)),
            Err(e) => Err(e),
        },
    }
}

// ---------------------------------------------------------------------------
// Decoding payloads: dispatch on the type tag, then read the variant's
// fields.  Unknown extra keys are ignored; a missing required key, a wrong
// field type, or an unknown tag is a shape error, never a crash.
// ---------------------------------------------------------------------------

pub open spec fn decode_empty(content: ValueV) -> Result<Seq<(Seq<char>, ValueV)>, DecodeError> {
    match content_pairs(content) {
        Ok(ps) => if ps.len() == 0 {
            Ok(ps)
        } else {
            Err(DecodeError::Shape)
        },
        Err(e) => Err(e),
    }
}

pub open spec fn decode_test(ps: Seq<(Seq<char>, ValueV)>) -> Result<TestV, DecodeError> {
    if req_str(ps, "foo"@) is Err {
        Err(DecodeError::Shape)
    } else {
        Ok(TestV { foo: req_str(ps, "foo"@)->Ok_0 })
    }
}

pub open spec fn decode_init(ps: Seq<(Seq<char>, ValueV)>) -> Result<InitV, DecodeError> {
    if req_str(ps, "extension_version"@) is Err || req_str(ps, "price_per_object"@) is Err
        || req_str(ps, "server_name"@) is Err || req_str(ps, "server_start_time"@) is Err
        || req_str(ps, "territory_data"@) is Err || req_str(ps, "territory_lifetime"@) is Err
        || req_bool(ps, "vg_enabled"@) is Err || req_str(ps, "vg_max_sizes"@) is Err {
        Err(DecodeError::Shape)
    } else {
        Ok(
            InitV {
                extension_version: req_str(ps, "extension_version"@)->Ok_0,
                price_per_object: req_str(ps, "price_per_object"@)->Ok_0,
                server_name: req_str(ps, "server_name"@)->Ok_0,
                server_start_time: req_str(ps, "server_start_time"@)->Ok_0,
                territory_data: req_str(ps, "territory_data"@)->Ok_0,
                territory_lifetime: req_str(ps, "territory_lifetime"@)->Ok_0,
                vg_enabled: req_bool(ps, "vg_enabled"@)->Ok_0,
                vg_max_sizes: req_str(ps, "vg_max_sizes"@)->Ok_0,
            },
        )
    }
}

pub open spec fn decode_post_init(ps: Seq<(Seq<char>, ValueV)>) -> Result<
    PostInitV,
    DecodeError,
> {
    if req_str(ps, "extdb_path"@) is Err || req_str(ps, "gambling_modifier"@) is Err || req_str(
        ps,
        "gambling_payout"@,
    ) is Err || req_str(ps, "gambling_randomizer_max"@) is Err || req_str(
        ps,
        "gambling_randomizer_mid"@,
    ) is Err || req_str(ps, "gambling_randomizer_min"@) is Err || req_str(
        ps,
        "gambling_win_chance"@,
    ) is Err || req_bool(ps, "logging_add_player_to_territory"@) is Err || req_str(
        ps,
        "logging_channel_id"@,
    ) is Err || req_bool(ps, "logging_demote_player"@) is Err || req_bool(ps, "logging_exec"@)
        is Err || req_bool(ps, "logging_gamble"@) is Err || req_bool(ps, "logging_modify_player"@)
        is Err || req_bool(ps, "logging_pay_territory"@) is Err || req_bool(
        ps,
        "logging_promote_player"@,
    ) is Err || req_bool(ps, "logging_remove_player_from_territory"@) is Err || req_bool(
        ps,
        "logging_reward"@,
    ) is Err || req_bool(ps, "logging_transfer"@) is Err || req_bool(
        ps,
        "logging_upgrade_territory"@,
    ) is Err || req_str(ps, "max_payment_count"@) is Err || req_str_list(ps, "territory_admins"@)
        is Err || req_str(ps, "territory_payment_tax"@) is Err || req_str(
        ps,
        "territory_upgrade_tax"@,
    ) is Err {
        Err(DecodeError::Shape)
    } else {
        Ok(
            PostInitV {
                extdb_path: req_str(ps, "extdb_path"@)->Ok_0,
                gambling_modifier: req_str(ps, "gambling_modifier"@)->Ok_0,
                gambling_payout: req_str(ps, "gambling_payout"@)->Ok_0,
                gambling_randomizer_max: req_str(ps, "gambling_randomizer_max"@)->Ok_0,
                gambling_randomizer_mid: req_str(ps, "gambling_randomizer_mid"@)->Ok_0,
                gambling_randomizer_min: req_str(ps, "gambling_randomizer_min"@)->Ok_0,
                gambling_win_chance: req_str(ps, "gambling_win_chance"@)->Ok_0,
                logging_add_player_to_territory: req_bool(
                    ps,
                    "logging_add_player_to_territory"@,
                )->Ok_0,
                logging_channel_id: req_str(ps, "logging_channel_id"@)->Ok_0,
                logging_demote_player: req_bool(ps, "logging_demote_player"@)->Ok_0,
                logging_exec: req_bool(ps, "logging_exec"@)->Ok_0,
                logging_gamble: req_bool(ps, "logging_gamble"@)->Ok_0,
                logging_modify_player: req_bool(ps, "logging_modify_player"@)->Ok_0,
                logging_pay_territory: req_bool(ps, "logging_pay_territory"@)->Ok_0,
                logging_promote_player: req_bool(ps, "logging_promote_player"@)->Ok_0,
                logging_remove_player_from_territory: req_bool(
                    ps,
                    "logging_remove_player_from_territory"@,
                )->Ok_0,
                logging_reward: req_bool(ps, "logging_reward"@)->Ok_0,
                logging_transfer: req_bool(ps, "logging_transfer"@)->Ok_0,
                logging_upgrade_territory: req_bool(ps, "logging_upgrade_territory"@)->Ok_0,
                max_payment_count: req_str(ps, "max_payment_count"@)->Ok_0,
                territory_admins: req_str_list(ps, "territory_admins"@)->Ok_0,
                territory_payment_tax: req_str(ps, "territory_payment_tax"@)->Ok_0,
                territory_upgrade_tax: req_str(ps, "territory_upgrade_tax"@)->Ok_0,
            },
        )
    }
}

pub open spec fn decode_query(ps: Seq<(Seq<char>, ValueV)>) -> Result<QueryV, DecodeError> {
    if req_map(ps, "arguments"@) is Err || req_str(ps, "name"@) is Err {
        Err(DecodeError::Shape)
    } else {
        Ok(QueryV { arguments: req_map(ps, "arguments"@)->Ok_0, name: req_str(ps, "name"@)->Ok_0 })
    }
}

pub open spec fn decode_query_result(ps: Seq<(Seq<char>, ValueV)>) -> Result<
    QueryResultV,
    DecodeError,
> {
    if req_str_list(ps, "results"@) is Err {
        Err(DecodeError::Shape)
    } else {
        Ok(QueryResultV { results: req_str_list(ps, "results"@)->Ok_0 })
    }
}

pub open spec fn decode_send_to_channel(ps: Seq<(Seq<char>, ValueV)>) -> Result<
    SendToChannelV,
    DecodeError,
> {
    if req_str(ps, "id"@) is Err || req_str(ps, "content"@) is Err {
        Err(DecodeError::Shape)
    } else {
        Ok(SendToChannelV { id: req_str(ps, "id"@)->Ok_0, content: req_str(ps, "content"@)->Ok_0 })
    }
}

pub open spec fn decode_reward(ps: Seq<(Seq<char>, ValueV)>) -> Result<RewardV, DecodeError> {
    if opt_map(ps, "items"@) is Err || opt_str(ps, "locker_poptabs"@) is Err || opt_str(
        ps,
        "player_poptabs"@,
    ) is Err || opt_str(ps, "respect"@) is Err || opt_map_list(ps, "vehicles"@) is Err {
        Err(DecodeError::Shape)
    } else {
        Ok(
            RewardV {
                items: opt_map(ps, "items"@)->Ok_0,
                locker_poptabs: opt_str(ps, "locker_poptabs"@)->Ok_0,
                player_poptabs: opt_str(ps, "player_poptabs"@)->Ok_0,
                respect: opt_str(ps, "respect"@)->Ok_0,
                vehicles: opt_map_list(ps, "vehicles"@)->Ok_0,
            },
        )
    }
}

pub open spec fn decode_sqf(ps: Seq<(Seq<char>, ValueV)>) -> Result<SqfV, DecodeError> {
    if req_str(ps, "execute_on"@) is Err || req_str(ps, "code"@) is Err {
        Err(DecodeError::Shape)
    } else {
        Ok(SqfV { execute_on: req_str(ps, "execute_on"@)->Ok_0, code: req_str(ps, "code"@)->Ok_0 })
    }
}

pub open spec fn decode_sqf_result(ps: Seq<(Seq<char>, ValueV)>) -> Result<
    SqfResultV,
    DecodeError,
> {
    if opt_str(ps, "result"@) is Err {
        Err(DecodeError::Shape)
    } else {
        Ok(SqfResultV { result: opt_str(ps, "result"@)->Ok_0 })
    }
}

/// Wraps `Ok` results of a field-set decode into the payload union.
pub open spec fn decode_data_tagged(tag: Seq<char>, content: ValueV) -> Result<
    DataV,
    DecodeError,
> {
    if tag == "empty"@ {
        match decode_empty(content) {
            Ok(_) => Ok(DataV::Empty),
            Err(e) => Err(e),
        }
    } else {
        match content_pairs(content) {
            Ok(ps) => if tag == "test"@ {
                match decode_test(ps) {
                    Ok(x) => Ok(DataV::Test(x)),
                    Err(e) => Err(e),
                }
            } else if tag == "init"@ {
                match decode_init(ps) {
                    Ok(x) => Ok(DataV::Init(x)),
                    Err(e) => Err(e),
                }
            } else if tag == "post_init"@ {
                match decode_post_init(ps) {
                    Ok(x) => Ok(DataV::PostInit(x)),
                    Err(e) => Err(e),
                }
            } else if tag == "query"@ {
                match decode_query(ps) {
                    Ok(x) => Ok(DataV::Query(x)),
                    Err(e) => Err(e),
                }
            } else if tag == "query_result"@ {
                match decode_query_result(ps) {
                    Ok(x) => Ok(DataV::QueryResult(x)),
                    Err(e) => Err(e),
                }
            } else if tag == "send_to_channel"@ {
                match decode_send_to_channel(ps) {
                    Ok(x) => Ok(DataV::SendToChannel(x)),
                    Err(e) => Err(e),
                }
            } else if tag == "reward"@ {
                match decode_reward(ps) {
                    Ok(x) => Ok(DataV::Reward(x)),
                    Err(e) => Err(e),
                }
            } else if tag == "sqf"@ {
                match decode_sqf(ps) {
                    Ok(x) => Ok(DataV::Sqf(x)),
                    Err(e) => Err(e),
                }
            } else if tag == "sqf_result"@ {
                match decode_sqf_result(ps) {
                    Ok(x) => Ok(DataV::SqfResult(x)),
                    Err(e) => Err(e),
                }
            } else {
                Err(DecodeError::Shape)
            },
            Err(e) => Err(e),
        }
    }
}

pub open spec fn decode_metadata_tagged(tag: Seq<char>, content: ValueV) -> Result<
    MetadataV,
    DecodeError,
> {
    if tag == "empty"@ {
        match decode_empty(content) {
            Ok(_) => Ok(MetadataV::Empty),
            Err(e) => Err(e),
        }
    } else {
        match content_pairs(content) {
            Ok(ps) => if tag == "test"@ {
                if req_str(ps, "foo"@) is Err {
                    Err(DecodeError::Shape)
                } else {
                    Ok(MetadataV::Test(MetaTestV { foo: req_str(ps, "foo"@)->Ok_0 }))
                }
            } else if tag == "command"@ {
                if req_player(ps, "player"@) is Err || opt_player(ps, "target"@) is Err {
                    Err(DecodeError::Shape)
                } else {
                    Ok(
                        MetadataV::Command(
                            CommandV {
                                player: req_player(ps, "player"@)->Ok_0,
                                target: opt_player(ps, "target"@)->Ok_0,
                            },
                        ),
                    )
                }
            } else {
                Err(DecodeError::Shape)
            },
            Err(e) => Err(e),
        }
    }
}

/// Extracts the `(type, content)` of a payload value: either the two-element
/// array of the host grammar, or a record with `type` and `content` fields
/// (`content` absent meaning the empty value).
pub open spec fn tag_and_content(v: ValueV) -> Result<(Seq<char>, ValueV), DecodeError> {
    match v {
        ValueV::Arr(items) => if items.len() == 2 && items[0] is Str {
            Ok((items[0]->Str_0, items[1]))
        } else {
            match content_pairs(v) {
                Ok(ps) => match pairs_get(ps, "type"@) {
                    Some(ValueV::Str(tag)) => Ok(
                        (
                            tag,
                            match pairs_get(ps, "content"@) {
                                Some(c) => c,
                                None => ValueV::Nil,
                            },
                        ),
                    ),
                    _ => Err(DecodeError::Shape),
                },
                Err(e) => Err(e),
            }
        },
        ValueV::Object(_) => match content_pairs(v) {
            Ok(ps) => match pairs_get(ps, "type"@) {
                Some(ValueV::Str(tag)) => Ok(
                    (
                        tag,
                        match pairs_get(ps, "content"@) {
                            Some(c) => c,
                            None => ValueV::Nil,
                        },
                    ),
                ),
                _ => Err(DecodeError::Shape),
            },
            Err(e) => Err(e),
        },
        _ => Err(DecodeError::Shape),
    }
}

/// What a payload value decodes to.
pub open spec fn decode_data_value(v: ValueV) -> Result<DataV, DecodeError> {
    match tag_and_content(v) {
        Ok((tag, content)) => decode_data_tagged(tag, content),
        Err(e) => Err(e),
    }
}

pub open spec fn decode_metadata_value(v: ValueV) -> Result<MetadataV, DecodeError> {
    match tag_and_content(v) {
        Ok((tag, content)) => decode_metadata_tagged(tag, content),
        Err(e) => Err(e),
    }
}

// ---------------------------------------------------------------------------
// Encoding payloads: each variant writes its fields, in declaration order,
// as an array of `[name, value]` pairs, tagged with the variant's name.
// ---------------------------------------------------------------------------

pub open spec fn str_v(s: Seq<char>) -> ValueV {
    ValueV::Str(s)
}

pub open spec fn opt_str_v(o: Option<Seq<char>>) -> ValueV {
    match o {
        Some(s) => ValueV::Str(s),
        None => ValueV::Nil,
    }
}

/// A map value in the host grammar: an array of `[key, value]` pairs.
pub open spec fn map_v(m: Seq<(Seq<char>, Seq<char>)>) -> ValueV {
    ValueV::Arr(
        Seq::new(
            m.len(),
            |i: int|
                if 0 <= i < m.len() {
                    ValueV::Arr(seq![ValueV::Str(m[i].0), ValueV::Str(m[i].1)])
                } else {
                    ValueV::Nil
                },
        ),
    )
}

pub open spec fn opt_map_v(o: Option<Seq<(Seq<char>, Seq<char>)>>) -> ValueV {
    match o {
        Some(m) => map_v(m),
        None => ValueV::Nil,
    }
}

pub open spec fn strings_v(ss: Seq<Seq<char>>) -> ValueV {
    ValueV::Arr(
        Seq::new(
            ss.len(),
            |i: int|
                if 0 <= i < ss.len() {
                    ValueV::Str(ss[i])
                } else {
                    ValueV::Nil
                },
        ),
    )
}

pub open spec fn maps_v(ms: Seq<Seq<(Seq<char>, Seq<char>)>>) -> ValueV {
    ValueV::Arr(
        Seq::new(
            ms.len(),
            |i: int|
                if 0 <= i < ms.len() {
                    map_v(ms[i])
                } else {
                    ValueV::Nil
                },
        ),
    )
}

pub open spec fn opt_maps_v(o: Option<Seq<Seq<(Seq<char>, Seq<char>)>>>) -> ValueV {
    match o {
        Some(ms) => maps_v(ms),
        None => ValueV::Nil,
    }
}

pub open spec fn player_fields(p: PlayerV) -> Seq<(Seq<char>, ValueV)> {
    seq![
        ("discord_id"@, opt_str_v(p.discord_id)),
        ("discord_mention"@, opt_str_v(p.discord_mention)),
        ("discord_name"@, opt_str_v(p.discord_name)),
        ("steam_uid"@, str_v(p.steam_uid)),
    ]
}

pub open spec fn opt_player_v(o: Option<PlayerV>) -> ValueV {
    match o {
        Some(p) => fields_value(player_fields(p)),
        None => ValueV::Nil,
    }
}

/// A field list in the host grammar: an array of `[name, value]` pairs.
pub open spec fn fields_value(fs: Seq<(Seq<char>, ValueV)>) -> ValueV {
    ValueV::Arr(
        Seq::new(
            fs.len(),
            |i: int|
                if 0 <= i < fs.len() {
                    ValueV::Arr(seq![ValueV::Str(fs[i].0), fs[i].1])
                } else {
                    ValueV::Nil
                },
        ),
    )
}

/// The tag of a payload variant, as written on the wire.
pub open spec fn data_tag(d: DataV) -> Seq<char> {
    match d {
        DataV::Empty => "empty"@,
        DataV::Test(_) => "test"@,
        DataV::Init(_) => "init"@,
        DataV::PostInit(_) => "post_init"@,
        DataV::Query(_) => "query"@,
        DataV::QueryResult(_) => "query_result"@,
        DataV::SendToChannel(_) => "send_to_channel"@,
        DataV::Reward(_) => "reward"@,
        DataV::Sqf(_) => "sqf"@,
        DataV::SqfResult(_) => "sqf_result"@,
    }
}

/// The ordered field list of a payload variant; the empty variant has none.
pub open spec fn data_fields(d: DataV) -> Seq<(Seq<char>, ValueV)> {
    match d {
        DataV::Empty => Seq::empty(),
        DataV::Test(x) => seq![("foo"@, str_v(x.foo))],
        DataV::Init(x) => seq![
            ("extension_version"@, str_v(x.extension_version)),
            ("price_per_object"@, str_v(x.price_per_object)),
            ("server_name"@, str_v(x.server_name)),
            ("server_start_time"@, str_v(x.server_start_time)),
            ("territory_data"@, str_v(x.territory_data)),
            ("territory_lifetime"@, str_v(x.territory_lifetime)),
            ("vg_enabled"@, ValueV::Bool(x.vg_enabled)),
            ("vg_max_sizes"@, str_v(x.vg_max_sizes)),
        ],
        DataV::PostInit(x) => seq![
            ("extdb_path"@, str_v(x.extdb_path)),
            ("gambling_modifier"@, str_v(x.gambling_modifier)),
            ("gambling_payout"@, str_v(x.gambling_payout)),
            ("gambling_randomizer_max"@, str_v(x.gambling_randomizer_max)),
            ("gambling_randomizer_mid"@, str_v(x.gambling_randomizer_mid)),
            ("gambling_randomizer_min"@, str_v(x.gambling_randomizer_min)),
            ("gambling_win_chance"@, str_v(x.gambling_win_chance)),
            ("logging_add_player_to_territory"@, ValueV::Bool(x.logging_add_player_to_territory)),
            ("logging_channel_id"@, str_v(x.logging_channel_id)),
            ("logging_demote_player"@, ValueV::Bool(x.logging_demote_player)),
            ("logging_exec"@, ValueV::Bool(x.logging_exec)),
            ("logging_gamble"@, ValueV::Bool(x.logging_gamble)),
            ("logging_modify_player"@, ValueV::Bool(x.logging_modify_player)),
            ("logging_pay_territory"@, ValueV::Bool(x.logging_pay_territory)),
            ("logging_promote_player"@, ValueV::Bool(x.logging_promote_player)),
            (
                "logging_remove_player_from_territory"@,
                ValueV::Bool(x.logging_remove_player_from_territory),
            ),
            ("logging_reward"@, ValueV::Bool(x.logging_reward)),
            ("logging_transfer"@, ValueV::Bool(x.logging_transfer)),
            ("logging_upgrade_territory"@, ValueV::Bool(x.logging_upgrade_territory)),
            ("max_payment_count"@, str_v(x.max_payment_count)),
            ("territory_admins"@, strings_v(x.territory_admins)),
            ("territory_payment_tax"@, str_v(x.territory_payment_tax)),
            ("territory_upgrade_tax"@, str_v(x.territory_upgrade_tax)),
        ],
        DataV::Query(x) => seq![
            ("arguments"@, map_v(x.arguments)),
            ("name"@, str_v(x.name)),
        ],
        DataV::QueryResult(x) => seq![("results"@, strings_v(x.results))],
        DataV::SendToChannel(x) => seq![
            ("id"@, str_v(x.id)),
            ("content"@, str_v(x.content)),
        ],
        DataV::Reward(x) => seq![
            ("items"@, opt_map_v(x.items)),
            ("locker_poptabs"@, opt_str_v(x.locker_poptabs)),
            ("player_poptabs"@, opt_str_v(x.player_poptabs)),
            ("respect"@, opt_str_v(x.respect)),
            ("vehicles"@, opt_maps_v(x.vehicles)),
        ],
        DataV::Sqf(x) => seq![
            ("execute_on"@, str_v(x.execute_on)),
            ("code"@, str_v(x.code)),
        ],
        DataV::SqfResult(x) => seq![("result"@, opt_str_v(x.result))],
    }
}

/// The content value of a payload: the empty variant writes the empty value.
pub open spec fn data_content(d: DataV) -> ValueV {
    if d is Empty {
        ValueV::Nil
    } else {
        fields_value(data_fields(d))
    }
}

/// The host-grammar encoding of a payload: `[tag, content]`.
pub open spec fn encode_data(d: DataV) -> ValueV {
    ValueV::Arr(seq![ValueV::Str(data_tag(d)), data_content(d)])
}

pub open spec fn metadata_tag(m: MetadataV) -> Seq<char> {
    match m {
        MetadataV::Empty => "empty"@,
        MetadataV::Test(_) => "test"@,
        MetadataV::Command(_) => "command"@,
    }
}

pub open spec fn metadata_fields(m: MetadataV) -> Seq<(Seq<char>, ValueV)> {
    match m {
        MetadataV::Empty => Seq::empty(),
        MetadataV::Test(x) => seq![("foo"@, str_v(x.foo))],
        MetadataV::Command(x) => seq![
            ("player"@, fields_value(player_fields(x.player))),
            ("target"@, opt_player_v(x.target)),
        ],
    }
}

pub open spec fn metadata_content(m: MetadataV) -> ValueV {
    if m is Empty {
        ValueV::Nil
    } else {
        fields_value(metadata_fields(m))
    }
}

pub open spec fn encode_metadata(m: MetadataV) -> ValueV {
    ValueV::Arr(seq![ValueV::Str(metadata_tag(m)), metadata_content(m)])
}


// ---------------------------------------------------------------------------
// Round trip: decoding an encoded payload yields the payload back.
// ---------------------------------------------------------------------------

pub open spec fn keys_distinct(fs: Seq<(Seq<char>, ValueV)>) -> bool {
    forall|i: int, j: int|
        0 <= i < j < fs.len() ==> (#[trigger] fs[i]).0 != (#[trigger] fs[j]).0
}

pub proof fn lemma_pairs_find_bounds(ps: Seq<(Seq<char>, ValueV)>, key: Seq<char>)
    ensures
        pairs_find(ps, key) == -1 || (0 <= pairs_find(ps, key) < ps.len() && ps[pairs_find(
            ps,
            key,
        )].0 == key),
        pairs_find(ps, key) == -1 ==> forall|i: int|
            0 <= i < ps.len() ==> (#[trigger] ps[i]).0 != key,
    decreases ps.len(),
{
    if ps.len() > 0 && ps[0].0 != key {
        let rest = ps.drop_first();
        lemma_pairs_find_bounds(rest, key);
        assert(forall|i: int| 0 <= i < rest.len() ==> #[trigger] rest[i] == ps[i + 1]);
        if pairs_find(ps, key) == -1 {
            assert forall|i: int| 0 <= i < ps.len() implies (#[trigger] ps[i]).0 != key by {
                if i > 0 {
                    assert(rest[i - 1] == ps[i]);
                }
            }
        } else {
            let r = pairs_find(rest, key);
            assert(rest[r] == ps[r + 1]);
        }
    }
}

/// A first match at `k` is what `pairs_find` yields.
pub proof fn lemma_pairs_find_first(ps: Seq<(Seq<char>, ValueV)>, key: Seq<char>, k: int)
    requires
        0 <= k < ps.len(),
        ps[k].0 == key,
        forall|i: int| 0 <= i < k ==> (#[trigger] ps[i]).0 != key,
    ensures
        pairs_find(ps, key) == k,
    decreases k,
{
    if k > 0 {
        assert(ps[0].0 != key);
        lemma_pairs_find_first(ps.drop_first(), key, k - 1);
        assert(forall|i: int|
            0 <= i < ps.drop_first().len() ==> #[trigger] ps.drop_first()[i] == ps[i + 1]);
    }
}

/// Reading the key at position `k` of a list with no earlier binding yields
/// that position's value.
pub proof fn lemma_pairs_get_at(fs: Seq<(Seq<char>, ValueV)>, k: int)
    requires
        0 <= k < fs.len(),
        forall|i: int| 0 <= i < k ==> (#[trigger] fs[i]).0 != fs[k].0,
    ensures
        pairs_get(fs, fs[k].0) == Some(fs[k].1),
{
    lemma_pairs_find_first(fs, fs[k].0, k);
}

/// Folding the host encoding of a distinct-keyed field list recovers the
/// list itself.
proof fn lemma_fold_fields(fs: Seq<(Seq<char>, ValueV)>, idx: int, acc: Seq<(Seq<char>, ValueV)>)
    requires
        keys_distinct(fs),
        0 <= idx <= fs.len(),
        acc == fs.subrange(0, idx),
        fields_value(fs) is Arr,
    ensures
        fold_pair_items(fields_value(fs)->Arr_0, idx, acc) == Ok::<
            Seq<(Seq<char>, ValueV)>,
            DecodeError,
        >(fs),
    decreases fs.len() - idx,
{
    let items = fields_value(fs)->Arr_0;
    if idx == fs.len() {
        assert(acc =~= fs);
    } else {
        assert(items[idx] == ValueV::Arr(seq![ValueV::Str(fs[idx].0), fs[idx].1]));
        lemma_pairs_find_bounds(acc, fs[idx].0);
        if pairs_find(acc, fs[idx].0) != -1 {
            let r = pairs_find(acc, fs[idx].0);
            assert(acc[r] == fs[r]);
            assert(fs[r].0 == fs[idx].0);
            assert(false);
        }
        assert(pairs_insert(acc, fs[idx].0, fs[idx].1) =~= fs.subrange(0, idx + 1));
        lemma_fold_fields(fs, idx + 1, fs.subrange(0, idx + 1));
    }
}

/// The host form of a field list parses back to that list.
proof fn lemma_content_pairs_fields(fs: Seq<(Seq<char>, ValueV)>)
    requires
        keys_distinct(fs),
    ensures
        content_pairs(fields_value(fs)) == Ok::<Seq<(Seq<char>, ValueV)>, DecodeError>(fs),
{
    assert(fields_value(fs)->Arr_0.len() == fs.len());
    assert(fs.subrange(0, 0) =~= Seq::<(Seq<char>, ValueV)>::empty());
    lemma_fold_fields(fs, 0, Seq::empty());
}

/// The entries of a map value, read back, are the map's entries.
proof fn lemma_value_to_map(m: Seq<(Seq<char>, Seq<char>)>)
    requires
        crate::data::map_wf(m),
    ensures
        value_to_map(map_v(m)) == Ok::<Seq<(Seq<char>, Seq<char>)>, DecodeError>(m),
{
    let fs = Seq::new(m.len(), |i: int| (m[i].0, str_v(m[i].1)));
    assert(fields_value(fs)->Arr_0 =~= map_v(m)->Arr_0);
    assert(fields_value(fs) == map_v(m));
    assert(keys_distinct(fs)) by {
        assert forall|i: int, j: int| 0 <= i < j < fs.len() implies (#[trigger] fs[i]).0 != (
        #[trigger] fs[j]).0 by {
            assert(m[i].0 != m[j].0);
        }
    }
    lemma_content_pairs_fields(fs);
    lemma_string_entries(m, fs, 0);
    assert(m.subrange(0, m.len() as int) =~= m);
}

proof fn lemma_string_entries(
    m: Seq<(Seq<char>, Seq<char>)>,
    fs: Seq<(Seq<char>, ValueV)>,
    idx: int,
)
    requires
        fs == Seq::new(m.len(), |i: int| (m[i].0, str_v(m[i].1))),
        0 <= idx <= m.len(),
    ensures
        string_entries(fs, idx) == Ok::<Seq<(Seq<char>, Seq<char>)>, DecodeError>(
            m.subrange(idx, m.len() as int),
        ),
    decreases m.len() - idx,
{
    if idx == m.len() {
        assert(m.subrange(idx, m.len() as int) =~= Seq::<(Seq<char>, Seq<char>)>::empty());
    } else {
        lemma_string_entries(m, fs, idx + 1);
        assert(seq![(m[idx].0, m[idx].1)] + m.subrange(idx + 1, m.len() as int) =~= m.subrange(
            idx,
            m.len() as int,
        ));
        assert(m[idx] == (m[idx].0, m[idx].1));
    }
}

proof fn lemma_strings_of(ss: Seq<Seq<char>>, idx: int)
    requires
        0 <= idx <= ss.len(),
    ensures
        strings_of(strings_v(ss)->Arr_0, idx) == Ok::<Seq<Seq<char>>, DecodeError>(
            ss.subrange(idx, ss.len() as int),
        ),
    decreases ss.len() - idx,
{
    let items = strings_v(ss)->Arr_0;
    if idx == ss.len() {
        assert(ss.subrange(idx, ss.len() as int) =~= Seq::<Seq<char>>::empty());
    } else {
        lemma_strings_of(ss, idx + 1);
        assert(seq![ss[idx]] + ss.subrange(idx + 1, ss.len() as int) =~= ss.subrange(
            idx,
            ss.len() as int,
        ));
    }
}

proof fn lemma_maps_of(ms: Seq<Seq<(Seq<char>, Seq<char>)>>, idx: int)
    requires
        0 <= idx <= ms.len(),
        forall|i: int| 0 <= i < ms.len() ==> crate::data::map_wf(#[trigger] ms[i]),
    ensures
        maps_of(maps_v(ms)->Arr_0, idx) == Ok::<Seq<Seq<(Seq<char>, Seq<char>)>>, DecodeError>(
            ms.subrange(idx, ms.len() as int),
        ),
    decreases ms.len() - idx,
{
    let items = maps_v(ms)->Arr_0;
    if idx == ms.len() {
        assert(ms.subrange(idx, ms.len() as int) =~= Seq::<Seq<(Seq<char>, Seq<char>)>>::empty());
    } else {
        assert(items[idx] == map_v(ms[idx]));
        lemma_value_to_map(ms[idx]);
        lemma_maps_of(ms, idx + 1);
        assert(seq![ms[idx]] + ms.subrange(idx + 1, ms.len() as int) =~= ms.subrange(
            idx,
            ms.len() as int,
        ));
    }
}

/// A player record round-trips through its field encoding.
proof fn lemma_player_round_trip(p: PlayerV)
    ensures
        player_of(fields_value(player_fields(p))) == Ok::<PlayerV, DecodeError>(p),
{
    broadcast use vstd::string::group_string_axioms;
    let fs = player_fields(p);
    proof_keys_player();
    assert(keys_distinct(fs)) by {
        broadcast use vstd::string::group_string_axioms;
        reveal_strlit("discord_id");
        assert("discord_id"@.len() == 10);
        reveal_strlit("discord_mention");
        assert("discord_mention"@.len() == 15);
        reveal_strlit("discord_name");
        assert("discord_name"@.len() == 12);
        reveal_strlit("steam_uid");
    assert("steam_uid"@.len() == 9);
    }
    lemma_content_pairs_fields(fs);
    reveal_strlit("discord_id");
    assert("discord_id"@.len() == 10);
    reveal_strlit("discord_mention");
    assert("discord_mention"@.len() == 15);
    reveal_strlit("discord_name");
    assert("discord_name"@.len() == 12);
    reveal_strlit("steam_uid");
    assert("steam_uid"@.len() == 9);
    lemma_pairs_get_at(fs, 0);
    lemma_pairs_get_at(fs, 1);
    lemma_pairs_get_at(fs, 2);
    lemma_pairs_get_at(fs, 3);
}

/// The player field names are pairwise distinct.
proof fn proof_keys_player()
    ensures
        "discord_id"@ != "discord_mention"@,
        "discord_id"@ != "discord_name"@,
        "discord_id"@ != "steam_uid"@,
        "discord_mention"@ != "discord_name"@,
        "discord_mention"@ != "steam_uid"@,
        "discord_name"@ != "steam_uid"@,
{
    broadcast use vstd::string::group_string_axioms;
    reveal_strlit("discord_id");
    assert("discord_id"@.len() == 10);
    reveal_strlit("discord_mention");
    assert("discord_mention"@.len() == 15);
    reveal_strlit("discord_name");
    assert("discord_name"@.len() == 12);
    reveal_strlit("steam_uid");
assert("steam_uid"@.len() == 9);
}

/// The wire tags are pairwise distinct.
proof fn proof_tags_distinct()
    ensures
        "empty"@ != "test"@,
        "empty"@ != "init"@,
        "empty"@ != "post_init"@,
        "empty"@ != "query"@,
        "empty"@ != "query_result"@,
        "empty"@ != "send_to_channel"@,
        "empty"@ != "reward"@,
        "empty"@ != "sqf"@,
        "empty"@ != "sqf_result"@,
        "empty"@ != "command"@,
        "test"@ != "init"@,
        "test"@ != "post_init"@,
        "test"@ != "query"@,
        "test"@ != "query_result"@,
        "test"@ != "send_to_channel"@,
        "test"@ != "reward"@,
        "test"@ != "sqf"@,
        "test"@ != "sqf_result"@,
        "test"@ != "command"@,
        "init"@ != "post_init"@,
        "init"@ != "query"@,
        "init"@ != "query_result"@,
        "init"@ != "send_to_channel"@,
        "init"@ != "reward"@,
        "init"@ != "sqf"@,
        "init"@ != "sqf_result"@,
        "init"@ != "command"@,
        "post_init"@ != "query"@,
        "post_init"@ != "query_result"@,
        "post_init"@ != "send_to_channel"@,
        "post_init"@ != "reward"@,
        "post_init"@ != "sqf"@,
        "post_init"@ != "sqf_result"@,
        "post_init"@ != "command"@,
        "query"@ != "query_result"@,
        "query"@ != "send_to_channel"@,
        "query"@ != "reward"@,
        "query"@ != "sqf"@,
        "query"@ != "sqf_result"@,
        "query"@ != "command"@,
        "query_result"@ != "send_to_channel"@,
        "query_result"@ != "reward"@,
        "query_result"@ != "sqf"@,
        "query_result"@ != "sqf_result"@,
        "query_result"@ != "command"@,
        "send_to_channel"@ != "reward"@,
        "send_to_channel"@ != "sqf"@,
        "send_to_channel"@ != "sqf_result"@,
        "send_to_channel"@ != "command"@,
        "reward"@ != "sqf"@,
        "reward"@ != "sqf_result"@,
        "reward"@ != "command"@,
        "sqf"@ != "sqf_result"@,
        "sqf"@ != "command"@,
        "sqf_result"@ != "command"@,
{
    broadcast use vstd::string::group_string_axioms;
    reveal_strlit("empty");
    assert("empty"@.len() == 5);
    reveal_strlit("test");
    assert("test"@.len() == 4);
    reveal_strlit("init");
    assert("init"@.len() == 4);
    reveal_strlit("post_init");
    assert("post_init"@.len() == 9);
    reveal_strlit("query");
    assert("query"@.len() == 5);
    reveal_strlit("query_result");
    assert("query_result"@.len() == 12);
    reveal_strlit("send_to_channel");
    assert("send_to_channel"@.len() == 15);
    reveal_strlit("reward");
    assert("reward"@.len() == 6);
    reveal_strlit("sqf");
    assert("sqf"@.len() == 3);
    reveal_strlit("sqf_result");
    assert("sqf_result"@.len() == 10);
    reveal_strlit("command");
    assert("command"@.len() == 7);
    assert("empty"@[0] != "query"@[0]);
    assert("test"@[0] != "init"@[0]);
}

/// Connects the dispatch on an encoded payload to the tagged decode.
proof fn lemma_decode_of_encode(d: DataV, r: Result<DataV, DecodeError>)
    requires
        decode_data_tagged(data_tag(d), data_content(d)) == r,
    ensures
        decode_data_value(encode_data(d)) == r,
{
    assert(tag_and_content(encode_data(d)) == Ok::<(Seq<char>, ValueV), DecodeError>(
        (data_tag(d), data_content(d)),
    ));
}

/// Connects the dispatch on an encoded context to the tagged decode.
proof fn lemma_decode_of_encode_meta(m: MetadataV, r: Result<MetadataV, DecodeError>)
    requires
        decode_metadata_tagged(metadata_tag(m), metadata_content(m)) == r,
    ensures
        decode_metadata_value(encode_metadata(m)) == r,
{
    assert(tag_and_content(encode_metadata(m)) == Ok::<(Seq<char>, ValueV), DecodeError>(
        (metadata_tag(m), metadata_content(m)),
    ));
}

proof fn lemma_rt_empty()
    ensures
        decode_data_value(encode_data(DataV::Empty)) == Ok::<DataV, DecodeError>(DataV::Empty),
        decode_data_tagged(data_tag(DataV::Empty), data_content(DataV::Empty)) == Ok::<
            DataV,
            DecodeError,
        >(DataV::Empty),
{
    proof_tags_distinct();
    assert(content_pairs(ValueV::Nil) == Ok::<Seq<(Seq<char>, ValueV)>, DecodeError>(
        Seq::empty(),
    ));
    lemma_decode_of_encode(DataV::Empty, Ok(DataV::Empty));
}

proof fn lemma_rt_test(x: TestV)
    ensures
        decode_data_value(encode_data(DataV::Test(x))) == Ok::<DataV, DecodeError>(
            DataV::Test(x),
        ),
        decode_data_tagged(data_tag(DataV::Test(x)), data_content(DataV::Test(x))) == Ok::<DataV, DecodeError>(
            DataV::Test(x),
        ),
{
    let d = DataV::Test(x);
    let fs = data_fields(d);
    proof_tags_distinct();
    assert(keys_distinct(fs));
    lemma_content_pairs_fields(fs);
    lemma_pairs_get_at(fs, 0);
    let tg = data_tag(d);
    let ct = data_content(d);
    assert(tg == "test"@);
    assert(tg != "empty"@);
    assert(content_pairs(ct) == Ok::<Seq<(Seq<char>, ValueV)>, DecodeError>(fs));
    assert(req_str(fs, "foo"@) == Ok::<Seq<char>, DecodeError>(x.foo));
    assert(decode_test(fs) == Ok::<TestV, DecodeError>(TestV { foo: x.foo }));
    assert((TestV { foo: x.foo }) == x);
    assert(decode_data_tagged(tg, ct) == Ok::<DataV, DecodeError>(DataV::Test(TestV { foo: x.foo })));
    assert(decode_data_tagged(data_tag(d), data_content(d)) == Ok::<DataV, DecodeError>(d));
    lemma_decode_of_encode(d, Ok(d));
}

proof fn lemma_rt_init(x: InitV)
    ensures
        decode_data_value(encode_data(DataV::Init(x))) == Ok::<DataV, DecodeError>(
            DataV::Init(x),
        ),
        decode_data_tagged(data_tag(DataV::Init(x)), data_content(DataV::Init(x))) == Ok::<DataV, DecodeError>(
            DataV::Init(x),
        ),
{
    broadcast use vstd::string::group_string_axioms;

    let d = DataV::Init(x);
    let fs = data_fields(d);
    proof_tags_distinct();
    reveal_strlit("extension_version");
    reveal_strlit("price_per_object");
    reveal_strlit("server_name");
    reveal_strlit("server_start_time");
    reveal_strlit("territory_data");
    reveal_strlit("territory_lifetime");
    reveal_strlit("vg_enabled");
    reveal_strlit("vg_max_sizes");
    assert("extension_version"@.len() == 17);
    assert("price_per_object"@.len() == 16);
    assert("server_name"@.len() == 11);
    assert("server_start_time"@.len() == 17);
    assert("territory_data"@.len() == 14);
    assert("territory_lifetime"@.len() == 18);
    assert("vg_enabled"@.len() == 10);
    assert("vg_max_sizes"@.len() == 12);
    assert("extension_version"@[0] != "server_start_time"@[0]);
    assert(keys_distinct(fs));
    lemma_content_pairs_fields(fs);
    lemma_pairs_get_at(fs, 0);
    lemma_pairs_get_at(fs, 1);
    lemma_pairs_get_at(fs, 2);
    lemma_pairs_get_at(fs, 3);
    lemma_pairs_get_at(fs, 4);
    lemma_pairs_get_at(fs, 5);
    lemma_pairs_get_at(fs, 6);
    lemma_pairs_get_at(fs, 7);
    let tg = data_tag(d);
    let ct = data_content(d);
    assert(tg == "init"@);
    assert(tg != "empty"@);
    assert(content_pairs(ct) == Ok::<Seq<(Seq<char>, ValueV)>, DecodeError>(fs));
    assert(req_str(fs, "extension_version"@) == Ok::<Seq<char>, DecodeError>(x.extension_version));
    assert(req_str(fs, "price_per_object"@) == Ok::<Seq<char>, DecodeError>(x.price_per_object));
    assert(req_str(fs, "server_name"@) == Ok::<Seq<char>, DecodeError>(x.server_name));
    assert(req_str(fs, "server_start_time"@) == Ok::<Seq<char>, DecodeError>(x.server_start_time));
    assert(req_str(fs, "territory_data"@) == Ok::<Seq<char>, DecodeError>(x.territory_data));
    assert(req_str(fs, "territory_lifetime"@) == Ok::<Seq<char>, DecodeError>(x.territory_lifetime));
    assert(req_bool(fs, "vg_enabled"@) == Ok::<bool, DecodeError>(x.vg_enabled));
    assert(req_str(fs, "vg_max_sizes"@) == Ok::<Seq<char>, DecodeError>(x.vg_max_sizes));
    assert(decode_init(fs) == Ok::<InitV, DecodeError>(InitV { extension_version: x.extension_version, price_per_object: x.price_per_object, server_name: x.server_name, server_start_time: x.server_start_time, territory_data: x.territory_data, territory_lifetime: x.territory_lifetime, vg_enabled: x.vg_enabled, vg_max_sizes: x.vg_max_sizes }));
    assert((InitV { extension_version: x.extension_version, price_per_object: x.price_per_object, server_name: x.server_name, server_start_time: x.server_start_time, territory_data: x.territory_data, territory_lifetime: x.territory_lifetime, vg_enabled: x.vg_enabled, vg_max_sizes: x.vg_max_sizes }) == x);
    assert(decode_data_tagged(tg, ct) == Ok::<DataV, DecodeError>(DataV::Init(x)));
    assert(decode_data_tagged(data_tag(d), data_content(d)) == Ok::<DataV, DecodeError>(d));
    lemma_decode_of_encode(d, Ok(d));
}

#[verifier::rlimit(100)]
#[verifier::spinoff_prover]
proof fn lemma_rt_post_init(x: PostInitV)
    ensures
        decode_data_value(encode_data(DataV::PostInit(x))) == Ok::<DataV, DecodeError>(
            DataV::PostInit(x),
        ),
        decode_data_tagged(data_tag(DataV::PostInit(x)), data_content(DataV::PostInit(x))) == Ok::<DataV, DecodeError>(
            DataV::PostInit(x),
        ),
{
    broadcast use vstd::string::group_string_axioms;

    let d = DataV::PostInit(x);
    let fs = data_fields(d);
    proof_tags_distinct();
    reveal_strlit("extdb_path");
    reveal_strlit("gambling_modifier");
    reveal_strlit("gambling_payout");
    reveal_strlit("gambling_randomizer_max");
    reveal_strlit("gambling_randomizer_mid");
    reveal_strlit("gambling_randomizer_min");
    reveal_strlit("gambling_win_chance");
    reveal_strlit("logging_add_player_to_territory");
    reveal_strlit("logging_channel_id");
    reveal_strlit("logging_demote_player");
    reveal_strlit("logging_exec");
    reveal_strlit("logging_gamble");
    reveal_strlit("logging_modify_player");
    reveal_strlit("logging_pay_territory");
    reveal_strlit("logging_promote_player");
    reveal_strlit("logging_remove_player_from_territory");
    reveal_strlit("logging_reward");
    reveal_strlit("logging_transfer");
    reveal_strlit("logging_upgrade_territory");
    reveal_strlit("max_payment_count");
    reveal_strlit("territory_admins");
    reveal_strlit("territory_payment_tax");
    reveal_strlit("territory_upgrade_tax");
    assert("extdb_path"@.len() == 10);
    assert("gambling_modifier"@.len() == 17);
    assert("gambling_payout"@.len() == 15);
    assert("gambling_randomizer_max"@.len() == 23);
    assert("gambling_randomizer_mid"@.len() == 23);
    assert("gambling_randomizer_min"@.len() == 23);
    assert("gambling_win_chance"@.len() == 19);
    assert("logging_add_player_to_territory"@.len() == 31);
    assert("logging_channel_id"@.len() == 18);
    assert("logging_demote_player"@.len() == 21);
    assert("logging_exec"@.len() == 12);
    assert("logging_gamble"@.len() == 14);
    assert("logging_modify_player"@.len() == 21);
    assert("logging_pay_territory"@.len() == 21);
    assert("logging_promote_player"@.len() == 22);
    assert("logging_remove_player_from_territory"@.len() == 36);
    assert("logging_reward"@.len() == 14);
    assert("logging_transfer"@.len() == 16);
    assert("logging_upgrade_territory"@.len() == 25);
    assert("max_payment_count"@.len() == 17);
    assert("territory_admins"@.len() == 16);
    assert("territory_payment_tax"@.len() == 21);
    assert("territory_upgrade_tax"@.len() == 21);
    assert("gambling_modifier"@[0] != "max_payment_count"@[0]);
    assert("gambling_randomizer_max"@[21] != "gambling_randomizer_mid"@[21]);
    assert("gambling_randomizer_max"@[21] != "gambling_randomizer_min"@[21]);
    assert("gambling_randomizer_mid"@[22] != "gambling_randomizer_min"@[22]);
    assert("logging_gamble"@[8] != "logging_reward"@[8]);
    assert("logging_demote_player"@[8] != "logging_modify_player"@[8]);
    assert("logging_demote_player"@[8] != "logging_pay_territory"@[8]);
    assert("logging_modify_player"@[8] != "logging_pay_territory"@[8]);
    assert("logging_demote_player"@[0] != "territory_payment_tax"@[0]);
    assert("logging_demote_player"@[0] != "territory_upgrade_tax"@[0]);
    assert("logging_modify_player"@[0] != "territory_payment_tax"@[0]);
    assert("logging_modify_player"@[0] != "territory_upgrade_tax"@[0]);
    assert("logging_pay_territory"@[0] != "territory_payment_tax"@[0]);
    assert("logging_pay_territory"@[0] != "territory_upgrade_tax"@[0]);
    assert("territory_payment_tax"@[10] != "territory_upgrade_tax"@[10]);
    assert("logging_transfer"@[0] != "territory_admins"@[0]);
    assert(keys_distinct(fs));
    lemma_content_pairs_fields(fs);
    lemma_pairs_get_at(fs, 0);
    lemma_pairs_get_at(fs, 1);
    lemma_pairs_get_at(fs, 2);
    lemma_pairs_get_at(fs, 3);
    lemma_pairs_get_at(fs, 4);
    lemma_pairs_get_at(fs, 5);
    lemma_pairs_get_at(fs, 6);
    lemma_pairs_get_at(fs, 7);
    lemma_pairs_get_at(fs, 8);
    lemma_pairs_get_at(fs, 9);
    lemma_pairs_get_at(fs, 10);
    lemma_pairs_get_at(fs, 11);
    lemma_pairs_get_at(fs, 12);
    lemma_pairs_get_at(fs, 13);
    lemma_pairs_get_at(fs, 14);
    lemma_pairs_get_at(fs, 15);
    lemma_pairs_get_at(fs, 16);
    lemma_pairs_get_at(fs, 17);
    lemma_pairs_get_at(fs, 18);
    lemma_pairs_get_at(fs, 19);
    lemma_pairs_get_at(fs, 20);
    lemma_pairs_get_at(fs, 21);
    lemma_pairs_get_at(fs, 22);
    lemma_strings_of(x.territory_admins, 0);
    assert(x.territory_admins.subrange(0, x.territory_admins.len() as int)
        =~= x.territory_admins);
    let tg = data_tag(d);
    let ct = data_content(d);
    assert(tg == "post_init"@);
    assert(tg != "empty"@);
    assert(content_pairs(ct) == Ok::<Seq<(Seq<char>, ValueV)>, DecodeError>(fs));
    assert(req_str(fs, "extdb_path"@) == Ok::<Seq<char>, DecodeError>(x.extdb_path));
    assert(req_str(fs, "gambling_modifier"@) == Ok::<Seq<char>, DecodeError>(x.gambling_modifier));
    assert(req_str(fs, "gambling_payout"@) == Ok::<Seq<char>, DecodeError>(x.gambling_payout));
    assert(req_str(fs, "gambling_randomizer_max"@) == Ok::<Seq<char>, DecodeError>(x.gambling_randomizer_max));
    assert(req_str(fs, "gambling_randomizer_mid"@) == Ok::<Seq<char>, DecodeError>(x.gambling_randomizer_mid));
    assert(req_str(fs, "gambling_randomizer_min"@) == Ok::<Seq<char>, DecodeError>(x.gambling_randomizer_min));
    assert(req_str(fs, "gambling_win_chance"@) == Ok::<Seq<char>, DecodeError>(x.gambling_win_chance));
    assert(req_bool(fs, "logging_add_player_to_territory"@) == Ok::<bool, DecodeError>(x.logging_add_player_to_territory));
    assert(req_str(fs, "logging_channel_id"@) == Ok::<Seq<char>, DecodeError>(x.logging_channel_id));
    assert(req_bool(fs, "logging_demote_player"@) == Ok::<bool, DecodeError>(x.logging_demote_player));
    assert(req_bool(fs, "logging_exec"@) == Ok::<bool, DecodeError>(x.logging_exec));
    assert(req_bool(fs, "logging_gamble"@) == Ok::<bool, DecodeError>(x.logging_gamble));
    assert(req_bool(fs, "logging_modify_player"@) == Ok::<bool, DecodeError>(x.logging_modify_player));
    assert(req_bool(fs, "logging_pay_territory"@) == Ok::<bool, DecodeError>(x.logging_pay_territory));
    assert(req_bool(fs, "logging_promote_player"@) == Ok::<bool, DecodeError>(x.logging_promote_player));
    assert(req_bool(fs, "logging_remove_player_from_territory"@) == Ok::<bool, DecodeError>(x.logging_remove_player_from_territory));
    assert(req_bool(fs, "logging_reward"@) == Ok::<bool, DecodeError>(x.logging_reward));
    assert(req_bool(fs, "logging_transfer"@) == Ok::<bool, DecodeError>(x.logging_transfer));
    assert(req_bool(fs, "logging_upgrade_territory"@) == Ok::<bool, DecodeError>(x.logging_upgrade_territory));
    assert(req_str(fs, "max_payment_count"@) == Ok::<Seq<char>, DecodeError>(x.max_payment_count));
    assert(req_str_list(fs, "territory_admins"@) == Ok::<Seq<Seq<char>>, DecodeError>(x.territory_admins));
    assert(req_str(fs, "territory_payment_tax"@) == Ok::<Seq<char>, DecodeError>(x.territory_payment_tax));
    assert(req_str(fs, "territory_upgrade_tax"@) == Ok::<Seq<char>, DecodeError>(x.territory_upgrade_tax));
    assert(decode_post_init(fs) == Ok::<PostInitV, DecodeError>(PostInitV { extdb_path: x.extdb_path, gambling_modifier: x.gambling_modifier, gambling_payout: x.gambling_payout, gambling_randomizer_max: x.gambling_randomizer_max, gambling_randomizer_mid: x.gambling_randomizer_mid, gambling_randomizer_min: x.gambling_randomizer_min, gambling_win_chance: x.gambling_win_chance, logging_add_player_to_territory: x.logging_add_player_to_territory, logging_channel_id: x.logging_channel_id, logging_demote_player: x.logging_demote_player, logging_exec: x.logging_exec, logging_gamble: x.logging_gamble, logging_modify_player: x.logging_modify_player, logging_pay_territory: x.logging_pay_territory, logging_promote_player: x.logging_promote_player, logging_remove_player_from_territory: x.logging_remove_player_from_territory, logging_reward: x.logging_reward, logging_transfer: x.logging_transfer, logging_upgrade_territory: x.logging_upgrade_territory, max_payment_count: x.max_payment_count, territory_admins: x.territory_admins, territory_payment_tax: x.territory_payment_tax, territory_upgrade_tax: x.territory_upgrade_tax }));
    assert((PostInitV { extdb_path: x.extdb_path, gambling_modifier: x.gambling_modifier, gambling_payout: x.gambling_payout, gambling_randomizer_max: x.gambling_randomizer_max, gambling_randomizer_mid: x.gambling_randomizer_mid, gambling_randomizer_min: x.gambling_randomizer_min, gambling_win_chance: x.gambling_win_chance, logging_add_player_to_territory: x.logging_add_player_to_territory, logging_channel_id: x.logging_channel_id, logging_demote_player: x.logging_demote_player, logging_exec: x.logging_exec, logging_gamble: x.logging_gamble, logging_modify_player: x.logging_modify_player, logging_pay_territory: x.logging_pay_territory, logging_promote_player: x.logging_promote_player, logging_remove_player_from_territory: x.logging_remove_player_from_territory, logging_reward: x.logging_reward, logging_transfer: x.logging_transfer, logging_upgrade_territory: x.logging_upgrade_territory, max_payment_count: x.max_payment_count, territory_admins: x.territory_admins, territory_payment_tax: x.territory_payment_tax, territory_upgrade_tax: x.territory_upgrade_tax }) == x);
    assert(decode_data_tagged(tg, ct) == Ok::<DataV, DecodeError>(DataV::PostInit(x)));
    assert(decode_data_tagged(data_tag(d), data_content(d)) == Ok::<DataV, DecodeError>(d));
    lemma_decode_of_encode(d, Ok(d));
}

proof fn lemma_rt_query(x: QueryV)
    requires
        crate::data::map_wf(x.arguments),
    ensures
        decode_data_value(encode_data(DataV::Query(x))) == Ok::<DataV, DecodeError>(
            DataV::Query(x),
        ),
        decode_data_tagged(data_tag(DataV::Query(x)), data_content(DataV::Query(x))) == Ok::<DataV, DecodeError>(
            DataV::Query(x),
        ),
{
    broadcast use vstd::string::group_string_axioms;

    let d = DataV::Query(x);
    let fs = data_fields(d);
    proof_tags_distinct();
    reveal_strlit("arguments");
    reveal_strlit("name");
    assert("arguments"@.len() == 9);
    assert("name"@.len() == 4);
    assert(keys_distinct(fs));
    lemma_content_pairs_fields(fs);
    lemma_pairs_get_at(fs, 0);
    lemma_pairs_get_at(fs, 1);
    lemma_value_to_map(x.arguments);
    let tg = data_tag(d);
    let ct = data_content(d);
    assert(tg == "query"@);
    assert(tg != "empty"@);
    assert(content_pairs(ct) == Ok::<Seq<(Seq<char>, ValueV)>, DecodeError>(fs));
    assert(req_map(fs, "arguments"@) == Ok::<Seq<(Seq<char>, Seq<char>)>, DecodeError>(x.arguments));
    assert(req_str(fs, "name"@) == Ok::<Seq<char>, DecodeError>(x.name));
    assert(decode_query(fs) == Ok::<QueryV, DecodeError>(QueryV { arguments: x.arguments, name: x.name }));
    assert((QueryV { arguments: x.arguments, name: x.name }) == x);
    assert(decode_data_tagged(tg, ct) == Ok::<DataV, DecodeError>(DataV::Query(x)));
    assert(decode_data_tagged(data_tag(d), data_content(d)) == Ok::<DataV, DecodeError>(d));
    lemma_decode_of_encode(d, Ok(d));
}

proof fn lemma_rt_query_result(x: QueryResultV)
    ensures
        decode_data_value(encode_data(DataV::QueryResult(x))) == Ok::<DataV, DecodeError>(
            DataV::QueryResult(x),
        ),
        decode_data_tagged(data_tag(DataV::QueryResult(x)), data_content(DataV::QueryResult(x))) == Ok::<DataV, DecodeError>(
            DataV::QueryResult(x),
        ),
{
    let d = DataV::QueryResult(x);
    let fs = data_fields(d);
    proof_tags_distinct();
    assert(keys_distinct(fs));
    lemma_content_pairs_fields(fs);
    lemma_pairs_get_at(fs, 0);
    lemma_strings_of(x.results, 0);
    assert(x.results.subrange(0, x.results.len() as int) =~= x.results);
    let tg = data_tag(d);
    let ct = data_content(d);
    assert(tg == "query_result"@);
    assert(tg != "empty"@);
    assert(content_pairs(ct) == Ok::<Seq<(Seq<char>, ValueV)>, DecodeError>(fs));
    assert(req_str_list(fs, "results"@) == Ok::<Seq<Seq<char>>, DecodeError>(x.results));
    assert(decode_query_result(fs) == Ok::<QueryResultV, DecodeError>(QueryResultV { results: x.results }));
    assert((QueryResultV { results: x.results }) == x);
    assert(decode_data_tagged(tg, ct) == Ok::<DataV, DecodeError>(DataV::QueryResult(x)));
    assert(decode_data_tagged(data_tag(d), data_content(d)) == Ok::<DataV, DecodeError>(d));
    lemma_decode_of_encode(d, Ok(d));
}

proof fn lemma_rt_send_to_channel(x: SendToChannelV)
    ensures
        decode_data_value(encode_data(DataV::SendToChannel(x))) == Ok::<DataV, DecodeError>(
            DataV::SendToChannel(x),
        ),
        decode_data_tagged(data_tag(DataV::SendToChannel(x)), data_content(DataV::SendToChannel(x))) == Ok::<DataV, DecodeError>(
            DataV::SendToChannel(x),
        ),
{
    broadcast use vstd::string::group_string_axioms;

    let d = DataV::SendToChannel(x);
    let fs = data_fields(d);
    proof_tags_distinct();
    reveal_strlit("id");
    reveal_strlit("content");
    assert("id"@.len() == 2);
    assert("content"@.len() == 7);
    assert(keys_distinct(fs));
    lemma_content_pairs_fields(fs);
    lemma_pairs_get_at(fs, 0);
    lemma_pairs_get_at(fs, 1);
    let tg = data_tag(d);
    let ct = data_content(d);
    assert(tg == "send_to_channel"@);
    assert(tg != "empty"@);
    assert(content_pairs(ct) == Ok::<Seq<(Seq<char>, ValueV)>, DecodeError>(fs));
    assert(req_str(fs, "id"@) == Ok::<Seq<char>, DecodeError>(x.id));
    assert(req_str(fs, "content"@) == Ok::<Seq<char>, DecodeError>(x.content));
    assert(decode_send_to_channel(fs) == Ok::<SendToChannelV, DecodeError>(SendToChannelV { id: x.id, content: x.content }));
    assert((SendToChannelV { id: x.id, content: x.content }) == x);
    assert(decode_data_tagged(tg, ct) == Ok::<DataV, DecodeError>(DataV::SendToChannel(x)));
    assert(decode_data_tagged(data_tag(d), data_content(d)) == Ok::<DataV, DecodeError>(d));
    lemma_decode_of_encode(d, Ok(d));
}

proof fn lemma_rt_reward(x: RewardV)
    requires
        crate::data::wf_data(DataV::Reward(x)),
    ensures
        decode_data_value(encode_data(DataV::Reward(x))) == Ok::<DataV, DecodeError>(
            DataV::Reward(x),
        ),
        decode_data_tagged(data_tag(DataV::Reward(x)), data_content(DataV::Reward(x))) == Ok::<DataV, DecodeError>(
            DataV::Reward(x),
        ),
{
    broadcast use vstd::string::group_string_axioms;

    let d = DataV::Reward(x);
    let fs = data_fields(d);
    proof_tags_distinct();
    reveal_strlit("items");
    reveal_strlit("locker_poptabs");
    reveal_strlit("player_poptabs");
    reveal_strlit("respect");
    reveal_strlit("vehicles");
    assert("items"@.len() == 5);
    assert("locker_poptabs"@.len() == 14);
    assert("player_poptabs"@.len() == 14);
    assert("respect"@.len() == 7);
    assert("vehicles"@.len() == 8);
    assert("locker_poptabs"@[0] != "player_poptabs"@[0]);
    assert(keys_distinct(fs));
    lemma_content_pairs_fields(fs);
    lemma_pairs_get_at(fs, 0);
    lemma_pairs_get_at(fs, 1);
    lemma_pairs_get_at(fs, 2);
    lemma_pairs_get_at(fs, 3);
    lemma_pairs_get_at(fs, 4);
    match x.items {
        Some(m) => {
            lemma_value_to_map(m);
        },
        None => {},
    }
    match x.vehicles {
        Some(ms) => {
            lemma_maps_of(ms, 0);
            assert(ms.subrange(0, ms.len() as int) =~= ms);
        },
        None => {},
    }
    let tg = data_tag(d);
    let ct = data_content(d);
    assert(tg == "reward"@);
    assert(tg != "empty"@);
    assert(content_pairs(ct) == Ok::<Seq<(Seq<char>, ValueV)>, DecodeError>(fs));
    assert(opt_map(fs, "items"@) == Ok::<Option<Seq<(Seq<char>, Seq<char>)>>, DecodeError>(x.items));
    assert(opt_str(fs, "locker_poptabs"@) == Ok::<Option<Seq<char>>, DecodeError>(x.locker_poptabs));
    assert(opt_str(fs, "player_poptabs"@) == Ok::<Option<Seq<char>>, DecodeError>(x.player_poptabs));
    assert(opt_str(fs, "respect"@) == Ok::<Option<Seq<char>>, DecodeError>(x.respect));
    assert(opt_map_list(fs, "vehicles"@) == Ok::<Option<Seq<Seq<(Seq<char>, Seq<char>)>>>, DecodeError>(x.vehicles));
    assert(decode_reward(fs) == Ok::<RewardV, DecodeError>(RewardV { items: x.items, locker_poptabs: x.locker_poptabs, player_poptabs: x.player_poptabs, respect: x.respect, vehicles: x.vehicles }));
    assert((RewardV { items: x.items, locker_poptabs: x.locker_poptabs, player_poptabs: x.player_poptabs, respect: x.respect, vehicles: x.vehicles }) == x);
    assert(decode_data_tagged(tg, ct) == Ok::<DataV, DecodeError>(DataV::Reward(x)));
    assert(decode_data_tagged(data_tag(d), data_content(d)) == Ok::<DataV, DecodeError>(d));
    lemma_decode_of_encode(d, Ok(d));
}

proof fn lemma_rt_sqf(x: SqfV)
    ensures
        decode_data_value(encode_data(DataV::Sqf(x))) == Ok::<DataV, DecodeError>(DataV::Sqf(x)),
        decode_data_tagged(data_tag(DataV::Sqf(x)), data_content(DataV::Sqf(x))) == Ok::<DataV, DecodeError>(
            DataV::Sqf(x),
        ),
{
    broadcast use vstd::string::group_string_axioms;

    let d = DataV::Sqf(x);
    let fs = data_fields(d);
    proof_tags_distinct();
    reveal_strlit("execute_on");
    reveal_strlit("code");
    assert("execute_on"@.len() == 10);
    assert("code"@.len() == 4);
    assert(keys_distinct(fs));
    lemma_content_pairs_fields(fs);
    lemma_pairs_get_at(fs, 0);
    lemma_pairs_get_at(fs, 1);
    let tg = data_tag(d);
    let ct = data_content(d);
    assert(tg == "sqf"@);
    assert(tg != "empty"@);
    assert(content_pairs(ct) == Ok::<Seq<(Seq<char>, ValueV)>, DecodeError>(fs));
    assert(req_str(fs, "execute_on"@) == Ok::<Seq<char>, DecodeError>(x.execute_on));
    assert(req_str(fs, "code"@) == Ok::<Seq<char>, DecodeError>(x.code));
    assert(decode_sqf(fs) == Ok::<SqfV, DecodeError>(SqfV { execute_on: x.execute_on, code: x.code }));
    assert((SqfV { execute_on: x.execute_on, code: x.code }) == x);
    assert(decode_data_tagged(tg, ct) == Ok::<DataV, DecodeError>(DataV::Sqf(x)));
    assert(decode_data_tagged(data_tag(d), data_content(d)) == Ok::<DataV, DecodeError>(d));
    lemma_decode_of_encode(d, Ok(d));
}

proof fn lemma_rt_sqf_result(x: SqfResultV)
    ensures
        decode_data_value(encode_data(DataV::SqfResult(x))) == Ok::<DataV, DecodeError>(
            DataV::SqfResult(x),
        ),
        decode_data_tagged(data_tag(DataV::SqfResult(x)), data_content(DataV::SqfResult(x))) == Ok::<DataV, DecodeError>(
            DataV::SqfResult(x),
        ),
{
    let d = DataV::SqfResult(x);
    let fs = data_fields(d);
    proof_tags_distinct();
    assert(keys_distinct(fs));
    lemma_content_pairs_fields(fs);
    lemma_pairs_get_at(fs, 0);
    let tg = data_tag(d);
    let ct = data_content(d);
    assert(tg == "sqf_result"@);
    assert(tg != "empty"@);
    assert(content_pairs(ct) == Ok::<Seq<(Seq<char>, ValueV)>, DecodeError>(fs));
    assert(opt_str(fs, "result"@) == Ok::<Option<Seq<char>>, DecodeError>(x.result));
    assert(decode_sqf_result(fs) == Ok::<SqfResultV, DecodeError>(SqfResultV { result: x.result }));
    assert((SqfResultV { result: x.result }) == x);
    assert(decode_data_tagged(tg, ct) == Ok::<DataV, DecodeError>(DataV::SqfResult(x)));
    assert(decode_data_tagged(data_tag(d), data_content(d)) == Ok::<DataV, DecodeError>(d));
    lemma_decode_of_encode(d, Ok(d));
}

/// Decoding an encoded payload yields the payload back: the round trip of
/// the typed codec, for every variant.
pub proof fn lemma_data_round_trip(d: DataV)
    requires
        crate::data::wf_data(d),
    ensures
        decode_data_value(encode_data(d)) == Ok::<DataV, DecodeError>(d),
{
    match d {
        DataV::Empty => lemma_rt_empty(),
        DataV::Test(x) => lemma_rt_test(x),
        DataV::Init(x) => lemma_rt_init(x),
        DataV::PostInit(x) => lemma_rt_post_init(x),
        DataV::Query(x) => lemma_rt_query(x),
        DataV::QueryResult(x) => lemma_rt_query_result(x),
        DataV::SendToChannel(x) => lemma_rt_send_to_channel(x),
        DataV::Reward(x) => lemma_rt_reward(x),
        DataV::Sqf(x) => lemma_rt_sqf(x),
        DataV::SqfResult(x) => lemma_rt_sqf_result(x),
    }
}

proof fn lemma_rt_meta_test(x: MetaTestV)
    ensures
        decode_metadata_value(encode_metadata(MetadataV::Test(x))) == Ok::<
            MetadataV,
            DecodeError,
        >(MetadataV::Test(x)),
{
    let m = MetadataV::Test(x);
    let fs = metadata_fields(m);
    proof_tags_distinct();
    assert(keys_distinct(fs));
    lemma_content_pairs_fields(fs);
    lemma_pairs_get_at(fs, 0);
    assert(decode_metadata_tagged(metadata_tag(m), metadata_content(m)) == Ok::<
        MetadataV,
        DecodeError,
    >(m));
    lemma_decode_of_encode_meta(m, Ok(m));
}

proof fn lemma_rt_command(x: CommandV)
    ensures
        decode_metadata_value(encode_metadata(MetadataV::Command(x))) == Ok::<
            MetadataV,
            DecodeError,
        >(MetadataV::Command(x)),
{
    broadcast use vstd::string::group_string_axioms;

    let m = MetadataV::Command(x);
    let fs = metadata_fields(m);
    proof_tags_distinct();
    reveal_strlit("player");
    reveal_strlit("target");
    assert("player"@.len() == 6);
    assert("target"@.len() == 6);
    assert("player"@[0] != "target"@[0]);
    assert(keys_distinct(fs));
    lemma_content_pairs_fields(fs);
    lemma_pairs_get_at(fs, 0);
    lemma_pairs_get_at(fs, 1);
    lemma_player_round_trip(x.player);
    match x.target {
        Some(p) => {
            lemma_player_round_trip(p);
        },
        None => {},
    }
    assert(decode_metadata_tagged(metadata_tag(m), metadata_content(m)) == Ok::<
        MetadataV,
        DecodeError,
    >(m));
    lemma_decode_of_encode_meta(m, Ok(m));
}

/// Decoding an encoded context yields the context back, for every variant.
pub proof fn lemma_metadata_round_trip(m: MetadataV)
    ensures
        decode_metadata_value(encode_metadata(m)) == Ok::<MetadataV, DecodeError>(m),
{
    match m {
        MetadataV::Empty => {
            proof_tags_distinct();
            assert(content_pairs(ValueV::Nil) == Ok::<Seq<(Seq<char>, ValueV)>, DecodeError>(
                Seq::empty(),
            ));
            assert(decode_metadata_tagged(metadata_tag(m), metadata_content(m)) == Ok::<
                MetadataV,
                DecodeError,
            >(m));
            lemma_decode_of_encode_meta(m, Ok(m));
        },
        MetadataV::Test(x) => lemma_rt_meta_test(x),
        MetadataV::Command(x) => lemma_rt_command(x),
    }
}


/// Decoding the tagged form of an encoded payload yields the payload back.
pub proof fn lemma_data_tagged_round_trip(d: DataV)
    requires
        crate::data::wf_data(d),
    ensures
        decode_data_tagged(data_tag(d), data_content(d)) == Ok::<DataV, DecodeError>(d),
{
    match d {
        DataV::Empty => lemma_rt_empty(),
        DataV::Test(x) => lemma_rt_test(x),
        DataV::Init(x) => lemma_rt_init(x),
        DataV::PostInit(x) => lemma_rt_post_init(x),
        DataV::Query(x) => lemma_rt_query(x),
        DataV::QueryResult(x) => lemma_rt_query_result(x),
        DataV::SendToChannel(x) => lemma_rt_send_to_channel(x),
        DataV::Reward(x) => lemma_rt_reward(x),
        DataV::Sqf(x) => lemma_rt_sqf(x),
        DataV::SqfResult(x) => lemma_rt_sqf_result(x),
    }
}

/// Decoding the tagged form of an encoded context yields the context back.
pub proof fn lemma_metadata_tagged_round_trip(m: MetadataV)
    ensures
        decode_metadata_tagged(metadata_tag(m), metadata_content(m)) == Ok::<
            MetadataV,
            DecodeError,
        >(m),
{
    match m {
        MetadataV::Empty => {
            proof_tags_distinct();
            assert(content_pairs(ValueV::Nil) == Ok::<Seq<(Seq<char>, ValueV)>, DecodeError>(
                Seq::empty(),
            ));
        },
        MetadataV::Test(x) => {
            let fs = metadata_fields(m);
            proof_tags_distinct();
            assert(keys_distinct(fs));
            lemma_content_pairs_fields(fs);
            lemma_pairs_get_at(fs, 0);
        },
        MetadataV::Command(x) => {
            broadcast use vstd::string::group_string_axioms;

            let fs = metadata_fields(m);
            proof_tags_distinct();
            reveal_strlit("player");
            reveal_strlit("target");
            assert("player"@.len() == 6);
            assert("target"@.len() == 6);
            assert("player"@[0] != "target"@[0]);
            assert(keys_distinct(fs));
            lemma_content_pairs_fields(fs);
            lemma_pairs_get_at(fs, 0);
            lemma_pairs_get_at(fs, 1);
            lemma_player_round_trip(x.player);
            match x.target {
                Some(p) => {
                    lemma_player_round_trip(p);
                },
                None => {},
            }
        },
    }
}

/// The encoded content of a payload is a well-formed value: the only
/// numbers anywhere in it would be number lexemes, and it carries none.
pub proof fn lemma_wf_data_content(d: DataV)
    ensures
        crate::arma_value::wf_value(data_content(d)),
{
    if !(d is Empty) {
        let fs = data_fields(d);
        match d {
            DataV::Query(x) => {
                lemma_wf_map_v(x.arguments);
            },
            DataV::PostInit(x) => {
                lemma_wf_strings_v(x.territory_admins);
            },
            DataV::QueryResult(x) => {
                lemma_wf_strings_v(x.results);
            },
            DataV::Reward(x) => {
                match x.items {
                    Some(m) => lemma_wf_map_v(m),
                    None => {},
                }
                match x.vehicles {
                    Some(ms) => lemma_wf_maps_v(ms),
                    None => {},
                }
            },
            _ => {},
        }
        assert forall|i: int| 0 <= i < fs.len() implies crate::arma_value::wf_value(
            (#[trigger] fs[i]).1,
        ) by {}
        lemma_wf_fields_value(fs);
    }
}

pub proof fn lemma_wf_metadata_content(m: MetadataV)
    ensures
        crate::arma_value::wf_value(metadata_content(m)),
{
    if !(m is Empty) {
        let fs = metadata_fields(m);
        match m {
            MetadataV::Command(x) => {
                lemma_wf_player_value(x.player);
                match x.target {
                    Some(p) => lemma_wf_player_value(p),
                    None => {},
                }
            },
            _ => {},
        }
        assert forall|i: int| 0 <= i < fs.len() implies crate::arma_value::wf_value(
            (#[trigger] fs[i]).1,
        ) by {}
        lemma_wf_fields_value(fs);
    }
}

/// A field-list value is well formed when every field value is.
proof fn lemma_wf_fields_value(fs: Seq<(Seq<char>, ValueV)>)
    requires
        forall|i: int| 0 <= i < fs.len() ==> crate::arma_value::wf_value((#[trigger] fs[i]).1),
    ensures
        crate::arma_value::wf_value(fields_value(fs)),
{
    let items = fields_value(fs)->Arr_0;
    assert forall|i: int| 0 <= i < items.len() implies crate::arma_value::wf_value(
        #[trigger] items[i],
    ) by {
        assert(items[i] == ValueV::Arr(seq![ValueV::Str(fs[i].0), fs[i].1]));
        let kv = seq![ValueV::Str(fs[i].0), fs[i].1];
        assert(kv[0] == ValueV::Str(fs[i].0) && kv[1] == fs[i].1);
        assert(forall|j: int| 0 <= j < kv.len() ==> crate::arma_value::wf_value(
            #[trigger] kv[j],
        ));
    }
}

proof fn lemma_wf_map_v(m: Seq<(Seq<char>, Seq<char>)>)
    ensures
        crate::arma_value::wf_value(map_v(m)),
{
    let items = map_v(m)->Arr_0;
    assert forall|i: int| 0 <= i < items.len() implies crate::arma_value::wf_value(
        #[trigger] items[i],
    ) by {
        lemma_map_v_index(m, i);
        let kv = seq![ValueV::Str(m[i].0), ValueV::Str(m[i].1)];
        assert(kv[0] == ValueV::Str(m[i].0) && kv[1] == ValueV::Str(m[i].1));
        assert(forall|j: int| 0 <= j < kv.len() ==> crate::arma_value::wf_value(
            #[trigger] kv[j],
        ));
    }
}

proof fn lemma_wf_strings_v(ss: Seq<Seq<char>>)
    ensures
        crate::arma_value::wf_value(strings_v(ss)),
{
    let items = strings_v(ss)->Arr_0;
    assert forall|i: int| 0 <= i < items.len() implies crate::arma_value::wf_value(
        #[trigger] items[i],
    ) by {
        lemma_strings_v_index(ss, i);
    }
}

proof fn lemma_wf_maps_v(ms: Seq<Seq<(Seq<char>, Seq<char>)>>)
    ensures
        crate::arma_value::wf_value(maps_v(ms)),
{
    let items = maps_v(ms)->Arr_0;
    assert forall|i: int| 0 <= i < items.len() implies crate::arma_value::wf_value(
        #[trigger] items[i],
    ) by {
        lemma_maps_v_index(ms, i);
        lemma_wf_map_v(ms[i]);
    }
}

proof fn lemma_wf_player_value(p: PlayerV)
    ensures
        crate::arma_value::wf_value(fields_value(player_fields(p))),
        crate::arma_value::wf_value(opt_player_v(Some(p))),
{
    let fs = player_fields(p);
    assert(forall|i: int| 0 <= i < fs.len() ==> crate::arma_value::wf_value(
        (#[trigger] fs[i]).1,
    ));
    lemma_wf_fields_value(fs);
}

// ---------------------------------------------------------------------------
// Executable decoding.
// ---------------------------------------------------------------------------

/// The model of a borrowed field list.
pub open spec fn rp_view(ps: Seq<(&String, &ArmaValue)>) -> Seq<(Seq<char>, ValueV)> {
    Seq::new(
        ps.len(),
        |i: int|
            if 0 <= i < ps.len() {
                (ps[i].0@, ps[i].1@)
            } else {
                (Seq::empty(), ValueV::Nil)
            },
    )
}

/// Stores a binding, replacing an earlier one for the same key in place.
fn rp_insert<'a>(acc: &mut Vec<(&'a String, &'a ArmaValue)>, key: &'a String, value: &'a ArmaValue)
    ensures
        rp_view(final(acc)@) == pairs_insert(rp_view(old(acc)@), key@, value@),
{
    let ghost ps0 = rp_view(acc@);
    let n = acc.len();
    let mut k: usize = 0;
    while k < n
        invariant
            0 <= k <= n == ps0.len(),
            rp_view(acc@) == ps0,
            rp_view(old(acc)@) == ps0,
            acc@.len() == n,
            forall|i: int| 0 <= i < k ==> (#[trigger] ps0[i]).0 != key@,
        decreases n - k,
    {
        if crate::text::str_eq(acc[k].0.as_str(), key.as_str()) {
            proof {
                assert(ps0[k as int].0 == acc@[k as int].0@);
                lemma_pairs_find_first(ps0, key@, k as int);
            }
            let ghost raw0 = acc@;
            acc.remove(k);
            let ghost raw1 = acc@;
            acc.insert(k, (key, value));
            proof {
                raw0.remove_ensures(k as int);
                raw1.insert_ensures(k as int, (key, value));
                assert forall|i: int| 0 <= i < ps0.len() implies #[trigger] rp_view(acc@)[i]
                    == ps0.update(k as int, (key@, value@))[i] by {
                    if i < k {
                        assert(raw1[i] == raw0[i]);
                        assert(acc@[i] == raw1[i]);
                    } else if i == k {
                        assert(acc@[i] == (key, value));
                    } else {
                        assert(raw1[i - 1] == raw0[i]);
                        assert(acc@[i] == raw1[i - 1]);
                    }
                }
                assert(rp_view(acc@) =~= ps0.update(k as int, (key@, value@)));
            }
            return ;
        }
        proof {
            assert(ps0[k as int].0 == acc@[k as int].0@);
        }
        k = k + 1;
    }
    proof {
        lemma_pairs_find_bounds(ps0, key@);
    }
    acc.push((key, value));
    proof {
        assert(rp_view(acc@) =~= ps0.push((key@, value@)));
    }
}

/// The field list of a record-shaped value.
pub fn content_pairs_exec<'a>(v: &'a ArmaValue) -> (r: Result<
    Vec<(&'a String, &'a ArmaValue)>,
    DecodeError,
>)
    ensures
        match r {
            Ok(ps) => content_pairs(v@) == Ok::<Seq<(Seq<char>, ValueV)>, DecodeError>(
                rp_view(ps@),
            ),
            Err(e) => content_pairs(v@) == Err::<Seq<(Seq<char>, ValueV)>, DecodeError>(e) && e
                == DecodeError::Shape,
        },
{
    match v {
        ArmaValue::Nil => {
            let ps: Vec<(&'a String, &'a ArmaValue)> = Vec::new();
            proof {
                assert(rp_view(ps@) =~= Seq::<(Seq<char>, ValueV)>::empty());
            }
            Ok(ps)
        },
        ArmaValue::HashMap(pairs) => {
            let ghost pv = crate::arma_value::pairs_view(pairs@);
            let mut acc: Vec<(&'a String, &'a ArmaValue)> = Vec::new();
            let mut k: usize = 0;
            proof {
                assert(rp_view(acc@) =~= Seq::<(Seq<char>, ValueV)>::empty());
            }
            while k < pairs.len()
                invariant
                    0 <= k <= pairs@.len(),
                    pv == crate::arma_value::pairs_view(pairs@),
                    pv.len() == pairs@.len(),
                    v@ == ValueV::Object(pv),
                    fold_members(pv, 0, Seq::empty()) == fold_members(pv, k as int, rp_view(acc@)),
                decreases pairs@.len() - k,
            {
                let entry = &pairs[k];
                proof {
                    assert(pv[k as int] == (pairs@[k as int].0@, pairs@[k as int].1@));
                }
                rp_insert(&mut acc, &entry.0, &entry.1);
                k = k + 1;
            }
            proof {
                assert(fold_members(pv, pairs@.len() as int, rp_view(acc@)) == rp_view(acc@));
            }
            Ok(acc)
        },
        ArmaValue::Array(items) => {
            let ghost iv = crate::arma_value::seq_view(items@);
            let mut acc: Vec<(&'a String, &'a ArmaValue)> = Vec::new();
            let mut k: usize = 0;
            proof {
                assert(rp_view(acc@) =~= Seq::<(Seq<char>, ValueV)>::empty());
            }
            while k < items.len()
                invariant
                    0 <= k <= items@.len(),
                    iv == crate::arma_value::seq_view(items@),
                    iv.len() == items@.len(),
                    v@ == ValueV::Arr(iv),
                    fold_pair_items(iv, 0, Seq::empty()) == fold_pair_items(
                        iv,
                        k as int,
                        rp_view(acc@),
                    ),
                decreases items@.len() - k,
            {
                proof {
                    assert(iv[k as int] == items@[k as int]@);
                }
                match &items[k] {
                    ArmaValue::Array(kv) => {
                        if kv.len() != 2 {
                            return Err(DecodeError::Shape);
                        }
                        proof {
                            assert(items@[k as int]@ == ValueV::Arr(
                                crate::arma_value::seq_view(kv@),
                            ));
                            assert(crate::arma_value::seq_view(kv@)[0] == kv@[0]@);
                            assert(crate::arma_value::seq_view(kv@)[1] == kv@[1]@);
                        }
                        match &kv[0] {
                            ArmaValue::String(ks) => {
                                rp_insert(&mut acc, ks, &kv[1]);
                            },
                            _ => {
                                return Err(DecodeError::Shape);
                            },
                        }
                    },
                    _ => {
                        return Err(DecodeError::Shape);
                    },
                }
                k = k + 1;
            }
            proof {
                assert(fold_pair_items(iv, items@.len() as int, rp_view(acc@)) == Ok::<
                    Seq<(Seq<char>, ValueV)>,
                    DecodeError,
                >(rp_view(acc@)));
            }
            Ok(acc)
        },
        _ => Err(DecodeError::Shape),
    }
}

/// The value bound to `key`, if any.
pub fn rp_get<'a, 'b>(ps: &'b Vec<(&'a String, &'a ArmaValue)>, key: &str) -> (r: Option<
    &'a ArmaValue,
>)
    ensures
        match r {
            Some(v) => pairs_get(rp_view(ps@), key@) == Some(v@),
            None => pairs_get(rp_view(ps@), key@) is None,
        },
{
    let ghost psv = rp_view(ps@);
    let n = ps.len();
    let mut k: usize = 0;
    while k < n
        invariant
            0 <= k <= n == psv.len(),
            psv == rp_view(ps@),
            forall|i: int| 0 <= i < k ==> (#[trigger] psv[i]).0 != key@,
        decreases n - k,
    {
        if crate::text::str_eq(ps[k].0.as_str(), key) {
            proof {
                assert(psv[k as int].0 == ps@[k as int].0@);
                lemma_pairs_find_first(psv, key@, k as int);
            }
            return Some(ps[k].1);
        }
        proof {
            assert(psv[k as int].0 == ps@[k as int].0@);
        }
        k = k + 1;
    }
    proof {
        lemma_pairs_find_bounds(psv, key@);
    }
    None
}

pub fn req_str_exec(ps: &Vec<(&String, &ArmaValue)>, key: &str) -> (r: Result<String, DecodeError>)
    ensures
        match r {
            Ok(s) => req_str(rp_view(ps@), key@) == Ok::<Seq<char>, DecodeError>(s@),
            Err(e) => req_str(rp_view(ps@), key@) == Err::<Seq<char>, DecodeError>(e),
        },
{
    match rp_get(ps, key) {
        Some(ArmaValue::String(s)) => Ok(s.clone()),
        _ => Err(DecodeError::Shape),
    }
}

fn req_bool_exec(ps: &Vec<(&String, &ArmaValue)>, key: &str) -> (r: Result<bool, DecodeError>)
    ensures
        match r {
            Ok(b) => req_bool(rp_view(ps@), key@) == Ok::<bool, DecodeError>(b),
            Err(e) => req_bool(rp_view(ps@), key@) == Err::<bool, DecodeError>(e),
        },
{
    match rp_get(ps, key) {
        Some(ArmaValue::Boolean(b)) => Ok(*b),
        _ => Err(DecodeError::Shape),
    }
}

fn opt_str_exec(ps: &Vec<(&String, &ArmaValue)>, key: &str) -> (r: Result<
    Option<String>,
    DecodeError,
>)
    ensures
        match r {
            Ok(s) => req_opt_view(s) == opt_str(rp_view(ps@), key@),
            Err(e) => opt_str(rp_view(ps@), key@) == Err::<Option<Seq<char>>, DecodeError>(e),
        },
{
    match rp_get(ps, key) {
        None => Ok(None),
        Some(ArmaValue::Nil) => Ok(None),
        Some(ArmaValue::String(s)) => Ok(Some(s.clone())),
        _ => Err(DecodeError::Shape),
    }
}

pub open spec fn req_opt_view(s: Option<String>) -> Result<Option<Seq<char>>, DecodeError> {
    Ok(crate::data::opt_string_view(s))
}

/// The map entries of a record-shaped value whose fields are all strings.
fn value_to_map_exec(v: &ArmaValue) -> (r: Result<crate::data::StringMap, DecodeError>)
    ensures
        match r {
            Ok(m) => value_to_map(v@) == Ok::<Seq<(Seq<char>, Seq<char>)>, DecodeError>(m@),
            Err(e) => value_to_map(v@) == Err::<Seq<(Seq<char>, Seq<char>)>, DecodeError>(e) && e
                == DecodeError::Shape,
        },
{
    if let ArmaValue::Nil = v {
        return Err(DecodeError::Shape);
    }
    let ps = match content_pairs_exec(v) {
        Ok(ps) => ps,
        Err(e) => {
            return Err(e);
        },
    };
    let ghost psv = rp_view(ps@);
    let mut entries: Vec<(String, String)> = Vec::new();
    let mut k: usize = 0;
    while k < ps.len()
        invariant
            0 <= k <= ps@.len(),
            psv == rp_view(ps@),
            psv.len() == ps@.len(),
            !(v@ is Nil),
            content_pairs(v@) == Ok::<Seq<(Seq<char>, ValueV)>, DecodeError>(psv),
            entries@.len() == k,
            forall|i: int| 0 <= i < k ==> (#[trigger] psv[i]).1 is Str,
            forall|i: int| 0 <= i < k ==> (#[trigger] entries@[i]).0@ == psv[i].0,
            forall|i: int| 0 <= i < k ==> (#[trigger] entries@[i]).1@ == psv[i].1->Str_0,
        decreases ps@.len() - k,
    {
        proof {
            assert(psv[k as int] == (ps@[k as int].0@, ps@[k as int].1@));
        }
        match ps[k].1 {
            ArmaValue::String(s) => {
                entries.push((ps[k].0.clone(), s.clone()));
            },
            _ => {
                proof {
                    lemma_string_entries_err(psv, 0, k as int);
                }
                return Err(DecodeError::Shape);
            },
        }
        k = k + 1;
    }
    proof {
        lemma_string_entries_all(psv, 0);
        assert(crate::data::entries_view(entries@) =~= string_entries(psv, 0)->Ok_0);
    }
    Ok(crate::data::StringMap::from_entries(entries))
}

/// When every field value is a string, the entries are the index mapping.
proof fn lemma_string_entries_all(ps: Seq<(Seq<char>, ValueV)>, idx: int)
    requires
        0 <= idx <= ps.len(),
        forall|i: int| 0 <= i < ps.len() ==> (#[trigger] ps[i]).1 is Str,
    ensures
        string_entries(ps, idx) is Ok,
        string_entries(ps, idx)->Ok_0 =~= Seq::new(
            (ps.len() - idx) as nat,
            |i: int|
                if 0 <= idx + i < ps.len() {
                    (ps[idx + i].0, ps[idx + i].1->Str_0)
                } else {
                    (Seq::empty(), Seq::empty())
                },
        ),
    decreases ps.len() - idx,
{
    if idx < ps.len() {
        lemma_string_entries_all(ps, idx + 1);
        assert(string_entries(ps, idx)->Ok_0 =~= seq![(ps[idx].0, ps[idx].1->Str_0)]
            + string_entries(ps, idx + 1)->Ok_0);
    }
}

/// A non-string value anywhere makes the conversion fail.
proof fn lemma_string_entries_err(ps: Seq<(Seq<char>, ValueV)>, idx: int, bad: int)
    requires
        0 <= idx <= bad < ps.len(),
        !(ps[bad].1 is Str),
    ensures
        string_entries(ps, idx) == Err::<Seq<(Seq<char>, Seq<char>)>, DecodeError>(
            DecodeError::Shape,
        ),
    decreases ps.len() - idx,
{
    if idx < bad {
        lemma_string_entries_err(ps, idx + 1, bad);
    }
}

/// The strings of an array value that must hold only strings.
fn str_list_exec(v: &ArmaValue) -> (r: Result<Vec<String>, DecodeError>)
    ensures
        match r {
            Ok(ss) => v@ matches ValueV::Arr(items) && strings_of(items, 0) == Ok::<
                Seq<Seq<char>>,
                DecodeError,
            >(crate::data::strings_view(ss@)),
            Err(e) => e == DecodeError::Shape && match v@ {
                ValueV::Arr(items) => strings_of(items, 0) == Err::<Seq<Seq<char>>, DecodeError>(
                    e,
                ),
                _ => true,
            },
        },
{
    match v {
        ArmaValue::Array(items) => {
            let ghost iv = crate::arma_value::seq_view(items@);
            let mut out: Vec<String> = Vec::new();
            let mut k: usize = 0;
            while k < items.len()
                invariant
                    0 <= k <= items@.len(),
                    iv == crate::arma_value::seq_view(items@),
                    iv.len() == items@.len(),
                    v@ == ValueV::Arr(iv),
                    out@.len() == k,
                    forall|i: int| 0 <= i < k ==> (#[trigger] iv[i]) is Str,
                    forall|i: int| 0 <= i < k ==> (#[trigger] out@[i])@ == iv[i]->Str_0,
                decreases items@.len() - k,
            {
                match &items[k] {
                    ArmaValue::String(s) => {
                        out.push(s.clone());
                        proof {
                            assert(iv[k as int] == items@[k as int]@);
                        }
                    },
                    _ => {
                        proof {
                            assert(iv[k as int] == items@[k as int]@);
                            lemma_strings_of_err(iv, 0, k as int);
                        }
                        return Err(DecodeError::Shape);
                    },
                }
                k = k + 1;
            }
            proof {
                lemma_strings_of_all(iv, 0);
                assert(crate::data::strings_view(out@) =~= strings_of(iv, 0)->Ok_0);
            }
            Ok(out)
        },
        _ => Err(DecodeError::Shape),
    }
}

proof fn lemma_strings_of_all(items: Seq<ValueV>, idx: int)
    requires
        0 <= idx <= items.len(),
        forall|i: int| 0 <= i < items.len() ==> (#[trigger] items[i]) is Str,
    ensures
        strings_of(items, idx) is Ok,
        strings_of(items, idx)->Ok_0 =~= Seq::new(
            (items.len() - idx) as nat,
            |i: int|
                if 0 <= idx + i < items.len() {
                    items[idx + i]->Str_0
                } else {
                    Seq::empty()
                },
        ),
    decreases items.len() - idx,
{
    if idx < items.len() {
        lemma_strings_of_all(items, idx + 1);
        assert(strings_of(items, idx)->Ok_0 =~= seq![items[idx]->Str_0] + strings_of(
            items,
            idx + 1,
        )->Ok_0);
    }
}

proof fn lemma_strings_of_err(items: Seq<ValueV>, idx: int, bad: int)
    requires
        0 <= idx <= bad < items.len(),
        !(items[bad] is Str),
    ensures
        strings_of(items, idx) == Err::<Seq<Seq<char>>, DecodeError>(DecodeError::Shape),
    decreases items.len() - idx,
{
    if idx < bad {
        lemma_strings_of_err(items, idx + 1, bad);
    }
}

/// The maps of an array value that must hold only record-shaped values.
fn map_list_exec(v: &ArmaValue) -> (r: Result<Vec<crate::data::StringMap>, DecodeError>)
    ensures
        match r {
            Ok(ms) => v@ matches ValueV::Arr(items) && maps_of(items, 0) == Ok::<
                Seq<Seq<(Seq<char>, Seq<char>)>>,
                DecodeError,
            >(crate::data::maps_view(ms@)),
            Err(e) => e == DecodeError::Shape && match v@ {
                ValueV::Arr(items) => maps_of(items, 0) == Err::<
                    Seq<Seq<(Seq<char>, Seq<char>)>>,
                    DecodeError,
                >(e),
                _ => true,
            },
        },
{
    match v {
        ArmaValue::Array(items) => {
            let ghost iv = crate::arma_value::seq_view(items@);
            let mut out: Vec<crate::data::StringMap> = Vec::new();
            let mut k: usize = 0;
            while k < items.len()
                invariant
                    0 <= k <= items@.len(),
                    iv == crate::arma_value::seq_view(items@),
                    iv.len() == items@.len(),
                    v@ == ValueV::Arr(iv),
                    out@.len() == k,
                    forall|i: int| 0 <= i < k ==> value_to_map(#[trigger] iv[i]) is Ok,
                    forall|i: int| 0 <= i < k ==> value_to_map(#[trigger] iv[i])->Ok_0 == (
                    #[trigger] out@[i])@,
                decreases items@.len() - k,
            {
                proof {
                    assert(iv[k as int] == items@[k as int]@);
                }
                match value_to_map_exec(&items[k]) {
                    Ok(m) => {
                        out.push(m);
                    },
                    Err(e) => {
                        proof {
                            lemma_maps_of_err(iv, 0, k as int);
                        }
                        return Err(e);
                    },
                }
                k = k + 1;
            }
            proof {
                lemma_maps_of_all(iv, 0);
                assert(crate::data::maps_view(out@) =~= maps_of(iv, 0)->Ok_0);
            }
            Ok(out)
        },
        _ => Err(DecodeError::Shape),
    }
}

proof fn lemma_maps_of_all(items: Seq<ValueV>, idx: int)
    requires
        0 <= idx <= items.len(),
        forall|i: int| 0 <= i < items.len() ==> value_to_map(#[trigger] items[i]) is Ok,
    ensures
        maps_of(items, idx) is Ok,
        maps_of(items, idx)->Ok_0 =~= Seq::new(
            (items.len() - idx) as nat,
            |i: int|
                if 0 <= idx + i < items.len() {
                    value_to_map(items[idx + i])->Ok_0
                } else {
                    Seq::empty()
                },
        ),
    decreases items.len() - idx,
{
    if idx < items.len() {
        lemma_maps_of_all(items, idx + 1);
        assert(maps_of(items, idx)->Ok_0 =~= seq![value_to_map(items[idx])->Ok_0] + maps_of(
            items,
            idx + 1,
        )->Ok_0);
    }
}

proof fn lemma_maps_of_err(items: Seq<ValueV>, idx: int, bad: int)
    requires
        0 <= idx <= bad < items.len(),
        value_to_map(items[bad]) is Err,
        forall|i: int| 0 <= i < bad ==> value_to_map(#[trigger] items[i]) is Ok,
    ensures
        maps_of(items, idx) == Err::<Seq<Seq<(Seq<char>, Seq<char>)>>, DecodeError>(
            value_to_map(items[bad])->Err_0,
        ),
    decreases items.len() - idx,
{
    if idx < bad {
        lemma_maps_of_err(items, idx + 1, bad);
    }
}

/// A player read from a record-shaped value.
fn player_exec(v: &ArmaValue) -> (r: Result<crate::metadata::Player, DecodeError>)
    ensures
        match r {
            Ok(p) => player_of(v@) == Ok::<PlayerV, DecodeError>(p@),
            Err(e) => player_of(v@) == Err::<PlayerV, DecodeError>(e) && e == DecodeError::Shape,
        },
{
    if let ArmaValue::Nil = v {
        return Err(DecodeError::Shape);
    }
    let ps = match content_pairs_exec(v) {
        Ok(ps) => ps,
        Err(e) => {
            return Err(e);
        },
    };
    let discord_id = match opt_str_exec(&ps, "discord_id") {
        Ok(x) => x,
        Err(e) => {
            return Err(e);
        },
    };
    let discord_mention = match opt_str_exec(&ps, "discord_mention") {
        Ok(x) => x,
        Err(e) => {
            return Err(e);
        },
    };
    let discord_name = match opt_str_exec(&ps, "discord_name") {
        Ok(x) => x,
        Err(e) => {
            return Err(e);
        },
    };
    let steam_uid = match req_str_exec(&ps, "steam_uid") {
        Ok(x) => x,
        Err(e) => {
            return Err(e);
        },
    };
    Ok(crate::metadata::Player { discord_id, discord_mention, discord_name, steam_uid })
}


type RefPairs<'a> = Vec<(&'a String, &'a ArmaValue)>;

fn dec_test(ps: &RefPairs) -> (r: Result<crate::data::Test, DecodeError>)
    ensures
        match r {
            Ok(x) => decode_test(rp_view(ps@)) == Ok::<TestV, DecodeError>(x@),
            Err(e) => decode_test(rp_view(ps@)) == Err::<TestV, DecodeError>(e),
        },
{
    let foo = match req_str_exec(ps, "foo") {
        Ok(x) => x,
        Err(e) => {
            return Err(e);
        },
    };
    Ok(crate::data::Test { foo })
}

fn dec_init(ps: &RefPairs) -> (r: Result<crate::data::Init, DecodeError>)
    ensures
        match r {
            Ok(x) => decode_init(rp_view(ps@)) == Ok::<InitV, DecodeError>(x@),
            Err(e) => decode_init(rp_view(ps@)) == Err::<InitV, DecodeError>(e),
        },
{
    let extension_version = match req_str_exec(ps, "extension_version") {
        Ok(x) => x,
        Err(e) => {
            return Err(e);
        },
    };
    let price_per_object = match req_str_exec(ps, "price_per_object") {
        Ok(x) => x,
        Err(e) => {
            return Err(e);
        },
    };
    let server_name = match req_str_exec(ps, "server_name") {
        Ok(x) => x,
        Err(e) => {
            return Err(e);
        },
    };
    let server_start_time = match req_str_exec(ps, "server_start_time") {
        Ok(x) => x,
        Err(e) => {
            return Err(e);
        },
    };
    let territory_data = match req_str_exec(ps, "territory_data") {
        Ok(x) => x,
        Err(e) => {
            return Err(e);
        },
    };
    let territory_lifetime = match req_str_exec(ps, "territory_lifetime") {
        Ok(x) => x,
        Err(e) => {
            return Err(e);
        },
    };
    let vg_enabled = match req_bool_exec(ps, "vg_enabled") {
        Ok(x) => x,
        Err(e) => {
            return Err(e);
        },
    };
    let vg_max_sizes = match req_str_exec(ps, "vg_max_sizes") {
        Ok(x) => x,
        Err(e) => {
            return Err(e);
        },
    };
    Ok(
        crate::data::Init {
            extension_version,
            price_per_object,
            server_name,
            server_start_time,
            territory_data,
            territory_lifetime,
            vg_enabled,
            vg_max_sizes,
        },
    )
}

#[verifier::rlimit(100)]
#[verifier::spinoff_prover]
fn dec_post_init(ps: &RefPairs) -> (r: Result<crate::data::PostInit, DecodeError>)
    ensures
        match r {
            Ok(x) => decode_post_init(rp_view(ps@)) == Ok::<PostInitV, DecodeError>(x@),
            Err(e) => decode_post_init(rp_view(ps@)) == Err::<PostInitV, DecodeError>(e),
        },
{
    let extdb_path = match req_str_exec(ps, "extdb_path") {
        Ok(x) => x,
        Err(e) => {
            return Err(e);
        },
    };
    let gambling_modifier = match req_str_exec(ps, "gambling_modifier") {
        Ok(x) => x,
        Err(e) => {
            return Err(e);
        },
    };
    let gambling_payout = match req_str_exec(ps, "gambling_payout") {
        Ok(x) => x,
        Err(e) => {
            return Err(e);
        },
    };
    let gambling_randomizer_max = match req_str_exec(ps, "gambling_randomizer_max") {
        Ok(x) => x,
        Err(e) => {
            return Err(e);
        },
    };
    let gambling_randomizer_mid = match req_str_exec(ps, "gambling_randomizer_mid") {
        Ok(x) => x,
        Err(e) => {
            return Err(e);
        },
    };
    let gambling_randomizer_min = match req_str_exec(ps, "gambling_randomizer_min") {
        Ok(x) => x,
        Err(e) => {
            return Err(e);
        },
    };
    let gambling_win_chance = match req_str_exec(ps, "gambling_win_chance") {
        Ok(x) => x,
        Err(e) => {
            return Err(e);
        },
    };
    let logging_add_player_to_territory = match req_bool_exec(
        ps,
        "logging_add_player_to_territory",
    ) {
        Ok(x) => x,
        Err(e) => {
            return Err(e);
        },
    };
    let logging_channel_id = match req_str_exec(ps, "logging_channel_id") {
        Ok(x) => x,
        Err(e) => {
            return Err(e);
        },
    };
    let logging_demote_player = match req_bool_exec(ps, "logging_demote_player") {
        Ok(x) => x,
        Err(e) => {
            return Err(e);
        },
    };
    let logging_exec = match req_bool_exec(ps, "logging_exec") {
        Ok(x) => x,
        Err(e) => {
            return Err(e);
        },
    };
    let logging_gamble = match req_bool_exec(ps, "logging_gamble") {
        Ok(x) => x,
        Err(e) => {
            return Err(e);
        },
    };
    let logging_modify_player = match req_bool_exec(ps, "logging_modify_player") {
        Ok(x) => x,
        Err(e) => {
            return Err(e);
        },
    };
    let logging_pay_territory = match req_bool_exec(ps, "logging_pay_territory") {
        Ok(x) => x,
        Err(e) => {
            return Err(e);
        },
    };
    let logging_promote_player = match req_bool_exec(ps, "logging_promote_player") {
        Ok(x) => x,
        Err(e) => {
            return Err(e);
        },
    };
    let logging_remove_player_from_territory = match req_bool_exec(
        ps,
        "logging_remove_player_from_territory",
    ) {
        Ok(x) => x,
        Err(e) => {
            return Err(e);
        },
    };
    let logging_reward = match req_bool_exec(ps, "logging_reward") {
        Ok(x) => x,
        Err(e) => {
            return Err(e);
        },
    };
    let logging_transfer = match req_bool_exec(ps, "logging_transfer") {
        Ok(x) => x,
        Err(e) => {
            return Err(e);
        },
    };
    let logging_upgrade_territory = match req_bool_exec(ps, "logging_upgrade_territory") {
        Ok(x) => x,
        Err(e) => {
            return Err(e);
        },
    };
    let max_payment_count = match req_str_exec(ps, "max_payment_count") {
        Ok(x) => x,
        Err(e) => {
            return Err(e);
        },
    };
    let territory_admins = match rp_get(ps, "territory_admins") {
        Some(v) => match str_list_exec(v) {
            Ok(x) => x,
            Err(e) => {
                return Err(e);
            },
        },
        None => {
            return Err(DecodeError::Shape);
        },
    };
    let territory_payment_tax = match req_str_exec(ps, "territory_payment_tax") {
        Ok(x) => x,
        Err(e) => {
            return Err(e);
        },
    };
    let territory_upgrade_tax = match req_str_exec(ps, "territory_upgrade_tax") {
        Ok(x) => x,
        Err(e) => {
            return Err(e);
        },
    };
    Ok(
        crate::data::PostInit {
            extdb_path,
            gambling_modifier,
            gambling_payout,
            gambling_randomizer_max,
            gambling_randomizer_mid,
            gambling_randomizer_min,
            gambling_win_chance,
            logging_add_player_to_territory,
            logging_channel_id,
            logging_demote_player,
            logging_exec,
            logging_gamble,
            logging_modify_player,
            logging_pay_territory,
            logging_promote_player,
            logging_remove_player_from_territory,
            logging_reward,
            logging_transfer,
            logging_upgrade_territory,
            max_payment_count,
            territory_admins,
            territory_payment_tax,
            territory_upgrade_tax,
        },
    )
}

fn dec_query(ps: &RefPairs) -> (r: Result<crate::data::Query, DecodeError>)
    ensures
        match r {
            Ok(x) => decode_query(rp_view(ps@)) == Ok::<QueryV, DecodeError>(x@),
            Err(e) => decode_query(rp_view(ps@)) == Err::<QueryV, DecodeError>(e),
        },
{
    let arguments = match rp_get(ps, "arguments") {
        Some(v) => match value_to_map_exec(v) {
            Ok(x) => x,
            Err(e) => {
                return Err(e);
            },
        },
        None => {
            return Err(DecodeError::Shape);
        },
    };
    let name = match req_str_exec(ps, "name") {
        Ok(x) => x,
        Err(e) => {
            return Err(e);
        },
    };
    Ok(crate::data::Query { arguments, name })
}

fn dec_query_result(ps: &RefPairs) -> (r: Result<crate::data::QueryResult, DecodeError>)
    ensures
        match r {
            Ok(x) => decode_query_result(rp_view(ps@)) == Ok::<QueryResultV, DecodeError>(x@),
            Err(e) => decode_query_result(rp_view(ps@)) == Err::<QueryResultV, DecodeError>(e),
        },
{
    let results = match rp_get(ps, "results") {
        Some(v) => match str_list_exec(v) {
            Ok(x) => x,
            Err(e) => {
                return Err(e);
            },
        },
        None => {
            return Err(DecodeError::Shape);
        },
    };
    Ok(crate::data::QueryResult { results })
}

fn dec_send_to_channel(ps: &RefPairs) -> (r: Result<crate::data::SendToChannel, DecodeError>)
    ensures
        match r {
            Ok(x) => decode_send_to_channel(rp_view(ps@)) == Ok::<SendToChannelV, DecodeError>(
                x@,
            ),
            Err(e) => decode_send_to_channel(rp_view(ps@)) == Err::<SendToChannelV, DecodeError>(
                e,
            ),
        },
{
    let id = match req_str_exec(ps, "id") {
        Ok(x) => x,
        Err(e) => {
            return Err(e);
        },
    };
    let content = match req_str_exec(ps, "content") {
        Ok(x) => x,
        Err(e) => {
            return Err(e);
        },
    };
    Ok(crate::data::SendToChannel { id, content })
}

fn dec_reward(ps: &RefPairs) -> (r: Result<crate::data::Reward, DecodeError>)
    ensures
        match r {
            Ok(x) => decode_reward(rp_view(ps@)) == Ok::<RewardV, DecodeError>(x@),
            Err(e) => decode_reward(rp_view(ps@)) == Err::<RewardV, DecodeError>(e),
        },
{
    let items = match rp_get(ps, "items") {
        None => None,
        Some(ArmaValue::Nil) => None,
        Some(v) => match value_to_map_exec(v) {
            Ok(x) => Some(x),
            Err(e) => {
                return Err(e);
            },
        },
    };
    let locker_poptabs = match opt_str_exec(ps, "locker_poptabs") {
        Ok(x) => x,
        Err(e) => {
            return Err(e);
        },
    };
    let player_poptabs = match opt_str_exec(ps, "player_poptabs") {
        Ok(x) => x,
        Err(e) => {
            return Err(e);
        },
    };
    let respect = match opt_str_exec(ps, "respect") {
        Ok(x) => x,
        Err(e) => {
            return Err(e);
        },
    };
    let vehicles = match rp_get(ps, "vehicles") {
        None => None,
        Some(ArmaValue::Nil) => None,
        Some(v) => match v {
            ArmaValue::Array(_) => match map_list_exec(v) {
                Ok(x) => Some(x),
                Err(e) => {
                    return Err(e);
                },
            },
            _ => {
                return Err(DecodeError::Shape);
            },
        },
    };
    Ok(crate::data::Reward { items, locker_poptabs, player_poptabs, respect, vehicles })
}

fn dec_sqf(ps: &RefPairs) -> (r: Result<crate::data::Sqf, DecodeError>)
    ensures
        match r {
            Ok(x) => decode_sqf(rp_view(ps@)) == Ok::<SqfV, DecodeError>(x@),
            Err(e) => decode_sqf(rp_view(ps@)) == Err::<SqfV, DecodeError>(e),
        },
{
    let execute_on = match req_str_exec(ps, "execute_on") {
        Ok(x) => x,
        Err(e) => {
            return Err(e);
        },
    };
    let code = match req_str_exec(ps, "code") {
        Ok(x) => x,
        Err(e) => {
            return Err(e);
        },
    };
    Ok(crate::data::Sqf { execute_on, code })
}

fn dec_sqf_result(ps: &RefPairs) -> (r: Result<crate::data::SqfResult, DecodeError>)
    ensures
        match r {
            Ok(x) => decode_sqf_result(rp_view(ps@)) == Ok::<SqfResultV, DecodeError>(x@),
            Err(e) => decode_sqf_result(rp_view(ps@)) == Err::<SqfResultV, DecodeError>(e),
        },
{
    let result = match opt_str_exec(ps, "result") {
        Ok(x) => x,
        Err(e) => {
            return Err(e);
        },
    };
    Ok(crate::data::SqfResult { result })
}

/// Extracts the type tag and content of a payload value.
fn extract_tag_content<'a>(v: &'a ArmaValue, nil: &'a ArmaValue) -> (r: Result<
    (String, &'a ArmaValue),
    DecodeError,
>)
    requires
        nil@ == ValueV::Nil,
    ensures
        match r {
            Ok(tc) => tag_and_content(v@) == Ok::<(Seq<char>, ValueV), DecodeError>(
                (tc.0@, tc.1@),
            ),
            Err(e) => tag_and_content(v@) == Err::<(Seq<char>, ValueV), DecodeError>(e),
        },
{
    match v {
        ArmaValue::Array(items) => {
            if items.len() == 2 {
                proof {
                    assert(crate::arma_value::seq_view(items@)[0] == items@[0]@);
                    assert(crate::arma_value::seq_view(items@)[1] == items@[1]@);
                }
                if let ArmaValue::String(tag) = &items[0] {
                    return Ok((tag.clone(), &items[1]));
                }
            }
            extract_from_pairs(v, nil)
        },
        ArmaValue::HashMap(_) => extract_from_pairs(v, nil),
        _ => Err(DecodeError::Shape),
    }
}

/// Reads `type` and `content` fields out of a record-shaped payload value.
fn extract_from_pairs<'a>(v: &'a ArmaValue, nil: &'a ArmaValue) -> (r: Result<
    (String, &'a ArmaValue),
    DecodeError,
>)
    requires
        nil@ == ValueV::Nil,
        !(v@ is Nil),
        v@ is Arr ==> !(v@->Arr_0.len() == 2 && v@->Arr_0[0] is Str),
        v@ is Arr || v@ is Object,
    ensures
        match r {
            Ok(tc) => tag_and_content(v@) == Ok::<(Seq<char>, ValueV), DecodeError>(
                (tc.0@, tc.1@),
            ),
            Err(e) => tag_and_content(v@) == Err::<(Seq<char>, ValueV), DecodeError>(e),
        },
{
    let ps = match content_pairs_exec(v) {
        Ok(ps) => ps,
        Err(e) => {
            return Err(e);
        },
    };
    let tag = match rp_get(&ps, "type") {
        Some(ArmaValue::String(t)) => t.clone(),
        _ => {
            return Err(DecodeError::Shape);
        },
    };
    let content = match rp_get(&ps, "content") {
        Some(c) => c,
        None => nil,
    };
    Ok((tag, content))
}

/// Decodes a payload value into the typed payload union.  An unrecognized
/// type tag, a missing required field, or a wrongly typed field is a shape
/// error; nothing panics on malformed input.
#[verifier::rlimit(100)]
#[verifier::spinoff_prover]
pub fn data_from_value(v: &ArmaValue) -> (r: Result<crate::data::Data, DecodeError>)
    ensures
        match r {
            Ok(d) => decode_data_value(v@) == Ok::<DataV, DecodeError>(d@),
            Err(e) => decode_data_value(v@) == Err::<DataV, DecodeError>(e),
        },
{
    let nil_value = ArmaValue::Nil;
    let (tag, content) = match extract_tag_content(v, &nil_value) {
        Ok(tc) => tc,
        Err(e) => {
            return Err(e);
        },
    };
    if crate::text::str_eq(tag.as_str(), "empty") {
        let ps = match content_pairs_exec(content) {
            Ok(ps) => ps,
            Err(e) => {
                return Err(e);
            },
        };
        if ps.len() == 0 {
            proof {
                assert(rp_view(ps@) =~= Seq::<(Seq<char>, ValueV)>::empty());
            }
            Ok(crate::data::Data::Empty)
        } else {
            Err(DecodeError::Shape)
        }
    } else {
        let ps = match content_pairs_exec(content) {
            Ok(ps) => ps,
            Err(e) => {
                return Err(e);
            },
        };
        if crate::text::str_eq(tag.as_str(), "test") {
            match dec_test(&ps) {
                Ok(x) => Ok(crate::data::Data::Test(x)),
                Err(e) => Err(e),
            }
        } else if crate::text::str_eq(tag.as_str(), "init") {
            match dec_init(&ps) {
                Ok(x) => Ok(crate::data::Data::Init(x)),
                Err(e) => Err(e),
            }
        } else if crate::text::str_eq(tag.as_str(), "post_init") {
            match dec_post_init(&ps) {
                Ok(x) => Ok(crate::data::Data::PostInit(x)),
                Err(e) => Err(e),
            }
        } else if crate::text::str_eq(tag.as_str(), "query") {
            match dec_query(&ps) {
                Ok(x) => Ok(crate::data::Data::Query(x)),
                Err(e) => Err(e),
            }
        } else if crate::text::str_eq(tag.as_str(), "query_result") {
            match dec_query_result(&ps) {
                Ok(x) => Ok(crate::data::Data::QueryResult(x)),
                Err(e) => Err(e),
            }
        } else if crate::text::str_eq(tag.as_str(), "send_to_channel") {
            match dec_send_to_channel(&ps) {
                Ok(x) => Ok(crate::data::Data::SendToChannel(x)),
                Err(e) => Err(e),
            }
        } else if crate::text::str_eq(tag.as_str(), "reward") {
            match dec_reward(&ps) {
                Ok(x) => Ok(crate::data::Data::Reward(x)),
                Err(e) => Err(e),
            }
        } else if crate::text::str_eq(tag.as_str(), "sqf") {
            match dec_sqf(&ps) {
                Ok(x) => Ok(crate::data::Data::Sqf(x)),
                Err(e) => Err(e),
            }
        } else if crate::text::str_eq(tag.as_str(), "sqf_result") {
            match dec_sqf_result(&ps) {
                Ok(x) => Ok(crate::data::Data::SqfResult(x)),
                Err(e) => Err(e),
            }
        } else {
            Err(DecodeError::Shape)
        }
    }
}

/// Decodes a context value into the typed context union.
#[verifier::rlimit(100)]
#[verifier::spinoff_prover]
pub fn metadata_from_value(v: &ArmaValue) -> (r: Result<crate::metadata::Metadata, DecodeError>)
    ensures
        match r {
            Ok(m) => decode_metadata_value(v@) == Ok::<MetadataV, DecodeError>(m@),
            Err(e) => decode_metadata_value(v@) == Err::<MetadataV, DecodeError>(e),
        },
{
    let nil_value = ArmaValue::Nil;
    let (tag, content) = match extract_tag_content(v, &nil_value) {
        Ok(tc) => tc,
        Err(e) => {
            return Err(e);
        },
    };
    if crate::text::str_eq(tag.as_str(), "empty") {
        let ps = match content_pairs_exec(content) {
            Ok(ps) => ps,
            Err(e) => {
                return Err(e);
            },
        };
        if ps.len() == 0 {
            proof {
                assert(rp_view(ps@) =~= Seq::<(Seq<char>, ValueV)>::empty());
            }
            Ok(crate::metadata::Metadata::Empty)
        } else {
            Err(DecodeError::Shape)
        }
    } else {
        let ps = match content_pairs_exec(content) {
            Ok(ps) => ps,
            Err(e) => {
                return Err(e);
            },
        };
        if crate::text::str_eq(tag.as_str(), "test") {
            let foo = match req_str_exec(&ps, "foo") {
                Ok(x) => x,
                Err(e) => {
                    return Err(e);
                },
            };
            Ok(crate::metadata::Metadata::Test(crate::metadata::Test { foo }))
        } else if crate::text::str_eq(tag.as_str(), "command") {
            let player = match rp_get(&ps, "player") {
                Some(pv) => match player_exec(pv) {
                    Ok(p) => p,
                    Err(e) => {
                        return Err(e);
                    },
                },
                None => {
                    return Err(DecodeError::Shape);
                },
            };
            let target = match rp_get(&ps, "target") {
                None => None,
                Some(ArmaValue::Nil) => None,
                Some(pv) => match player_exec(pv) {
                    Ok(p) => Some(p),
                    Err(e) => {
                        return Err(e);
                    },
                },
            };
            Ok(
                crate::metadata::Metadata::Command(
                    crate::metadata::Command { player, target },
                ),
            )
        } else {
            Err(DecodeError::Shape)
        }
    }
}


// ---------------------------------------------------------------------------
// Executable encoding: each variant writes its fields in declaration order.
// ---------------------------------------------------------------------------

proof fn lemma_map_v_index(m: Seq<(Seq<char>, Seq<char>)>, k: int)
    requires
        0 <= k < m.len(),
    ensures
        map_v(m)->Arr_0.len() == m.len(),
        map_v(m)->Arr_0[k] == ValueV::Arr(seq![ValueV::Str(m[k].0), ValueV::Str(m[k].1)]),
{
}

proof fn lemma_strings_v_index(ss: Seq<Seq<char>>, k: int)
    requires
        0 <= k < ss.len(),
    ensures
        strings_v(ss)->Arr_0.len() == ss.len(),
        strings_v(ss)->Arr_0[k] == ValueV::Str(ss[k]),
{
}

proof fn lemma_maps_v_index(ms: Seq<Seq<(Seq<char>, Seq<char>)>>, k: int)
    requires
        0 <= k < ms.len(),
    ensures
        maps_v(ms)->Arr_0.len() == ms.len(),
        maps_v(ms)->Arr_0[k] == map_v(ms[k]),
{
}

/// One `[name, value]` pair of the host grammar.
fn pair_entry(name: &str, v: ArmaValue) -> (r: ArmaValue)
    ensures
        r@ == ValueV::Arr(seq![ValueV::Str(name@), v@]),
{
    let ghost vv = v@;
    let mut kv: Vec<ArmaValue> = Vec::new();
    kv.push(ArmaValue::String(name.to_owned()));
    kv.push(v);
    proof {
        assert(crate::arma_value::seq_view(kv@) =~= seq![ValueV::Str(name@), vv]);
    }
    ArmaValue::Array(kv)
}

fn str_value(s: &String) -> (r: ArmaValue)
    ensures
        r@ == str_v(s@),
{
    ArmaValue::String(s.clone())
}

fn opt_str_value(o: &Option<String>) -> (r: ArmaValue)
    ensures
        r@ == opt_str_v(crate::data::opt_string_view(*o)),
{
    match o {
        Some(s) => ArmaValue::String(s.clone()),
        None => ArmaValue::Nil,
    }
}

/// A map in the host grammar: an array of `[key, value]` pairs in order.
fn map_value(m: &crate::data::StringMap) -> (r: ArmaValue)
    ensures
        r@ == map_v(m@),
{
    let ghost target = map_v(m@)->Arr_0;
    let mut items: Vec<ArmaValue> = Vec::new();
    let n = m.len();
    let mut k: usize = 0;
    while k < n
        invariant
            0 <= k <= n == m@.len(),
            target == map_v(m@)->Arr_0,
            target.len() == m@.len(),
            items@.len() == k,
            forall|i: int| 0 <= i < k ==> (#[trigger] items@[i])@ == target[i],
        decreases n - k,
    {
        let (key, value) = m.entry_at(k);
        let entry = pair_entry(key.as_str(), ArmaValue::String(value.clone()));
        items.push(entry);
        proof {
            lemma_map_v_index(m@, k as int);
        }
        k = k + 1;
    }
    proof {
        assert(crate::arma_value::seq_view(items@) =~= target);
    }
    ArmaValue::Array(items)
}

fn opt_map_value(o: &Option<crate::data::StringMap>) -> (r: ArmaValue)
    ensures
        r@ == opt_map_v(
            match o {
                Some(m) => Some(m@),
                None => None,
            },
        ),
{
    match o {
        Some(m) => map_value(m),
        None => ArmaValue::Nil,
    }
}

/// A list of strings in the host grammar.
fn strings_value(v: &Vec<String>) -> (r: ArmaValue)
    ensures
        r@ == strings_v(crate::data::strings_view(v@)),
{
    let ghost sv = crate::data::strings_view(v@);
    let ghost target = strings_v(sv)->Arr_0;
    let mut items: Vec<ArmaValue> = Vec::new();
    let mut k: usize = 0;
    while k < v.len()
        invariant
            0 <= k <= v@.len(),
            sv == crate::data::strings_view(v@),
            sv.len() == v@.len(),
            target == strings_v(sv)->Arr_0,
            target.len() == sv.len(),
            items@.len() == k,
            forall|i: int| 0 <= i < k ==> (#[trigger] items@[i])@ == target[i],
        decreases v@.len() - k,
    {
        items.push(ArmaValue::String(v[k].clone()));
        proof {
            lemma_strings_v_index(sv, k as int);
            assert(sv[k as int] == v@[k as int]@);
        }
        k = k + 1;
    }
    proof {
        assert(crate::arma_value::seq_view(items@) =~= target);
    }
    ArmaValue::Array(items)
}

/// A list of maps in the host grammar.
fn maps_value(v: &Vec<crate::data::StringMap>) -> (r: ArmaValue)
    ensures
        r@ == maps_v(crate::data::maps_view(v@)),
{
    let ghost mv = crate::data::maps_view(v@);
    let ghost target = maps_v(mv)->Arr_0;
    let mut items: Vec<ArmaValue> = Vec::new();
    let mut k: usize = 0;
    while k < v.len()
        invariant
            0 <= k <= v@.len(),
            mv == crate::data::maps_view(v@),
            mv.len() == v@.len(),
            target == maps_v(mv)->Arr_0,
            target.len() == mv.len(),
            items@.len() == k,
            forall|i: int| 0 <= i < k ==> (#[trigger] items@[i])@ == target[i],
        decreases v@.len() - k,
    {
        items.push(map_value(&v[k]));
        proof {
            lemma_maps_v_index(mv, k as int);
            assert(mv[k as int] == v@[k as int]@);
        }
        k = k + 1;
    }
    proof {
        assert(crate::arma_value::seq_view(items@) =~= target);
    }
    ArmaValue::Array(items)
}

/// A player record in the host grammar.
fn player_value(p: &crate::metadata::Player) -> (r: ArmaValue)
    ensures
        r@ == fields_value(player_fields(p@)),
{
    let ghost fs = player_fields(p@);
    let mut items: Vec<ArmaValue> = Vec::new();
    items.push(pair_entry("discord_id", opt_str_value(&p.discord_id)));
    items.push(pair_entry("discord_mention", opt_str_value(&p.discord_mention)));
    items.push(pair_entry("discord_name", opt_str_value(&p.discord_name)));
    items.push(pair_entry("steam_uid", str_value(&p.steam_uid)));
    proof {
        assert(crate::arma_value::seq_view(items@) =~= fields_value(fs)->Arr_0);
    }
    ArmaValue::Array(items)
}

fn opt_player_value(o: &Option<crate::metadata::Player>) -> (r: ArmaValue)
    ensures
        r@ == opt_player_v(
            match o {
                Some(p) => Some(p@),
                None => None,
            },
        ),
{
    match o {
        Some(p) => player_value(p),
        None => ArmaValue::Nil,
    }
}

impl crate::data::Data {
    /// The content of this payload in the host grammar: its fields, in
    /// declaration order, as `[name, value]` pairs; the empty payload is the
    /// empty value.
    #[verifier::rlimit(100)]
#[verifier::spinoff_prover]
    pub fn to_arma(&self) -> (r: ArmaValue)
        ensures
            r@ == data_content(self@),
    {
        let ghost fs = data_fields(self@);
        match self {
            crate::data::Data::Empty => ArmaValue::Nil,
            crate::data::Data::Test(x) => {
                let mut items: Vec<ArmaValue> = Vec::new();
                items.push(pair_entry("foo", str_value(&x.foo)));
                proof {
                    assert(crate::arma_value::seq_view(items@) =~= fields_value(fs)->Arr_0);
                }
                ArmaValue::Array(items)
            },
            crate::data::Data::Init(x) => {
                let mut items: Vec<ArmaValue> = Vec::new();
                items.push(pair_entry("extension_version", str_value(&x.extension_version)));
                items.push(pair_entry("price_per_object", str_value(&x.price_per_object)));
                items.push(pair_entry("server_name", str_value(&x.server_name)));
                items.push(pair_entry("server_start_time", str_value(&x.server_start_time)));
                items.push(pair_entry("territory_data", str_value(&x.territory_data)));
                items.push(pair_entry("territory_lifetime", str_value(&x.territory_lifetime)));
                items.push(pair_entry("vg_enabled", ArmaValue::Boolean(x.vg_enabled)));
                items.push(pair_entry("vg_max_sizes", str_value(&x.vg_max_sizes)));
                proof {
                    assert(crate::arma_value::seq_view(items@) =~= fields_value(fs)->Arr_0);
                }
                ArmaValue::Array(items)
            },
            crate::data::Data::PostInit(x) => {
                let mut items: Vec<ArmaValue> = Vec::new();
                items.push(pair_entry("extdb_path", str_value(&x.extdb_path)));
                items.push(pair_entry("gambling_modifier", str_value(&x.gambling_modifier)));
                items.push(pair_entry("gambling_payout", str_value(&x.gambling_payout)));
                items.push(
                    pair_entry("gambling_randomizer_max", str_value(&x.gambling_randomizer_max)),
                );
                items.push(
                    pair_entry("gambling_randomizer_mid", str_value(&x.gambling_randomizer_mid)),
                );
                items.push(
                    pair_entry("gambling_randomizer_min", str_value(&x.gambling_randomizer_min)),
                );
                items.push(pair_entry("gambling_win_chance", str_value(&x.gambling_win_chance)));
                items.push(
                    pair_entry(
                        "logging_add_player_to_territory",
                        ArmaValue::Boolean(x.logging_add_player_to_territory),
                    ),
                );
                items.push(pair_entry("logging_channel_id", str_value(&x.logging_channel_id)));
                items.push(
                    pair_entry(
                        "logging_demote_player",
                        ArmaValue::Boolean(x.logging_demote_player),
                    ),
                );
                items.push(pair_entry("logging_exec", ArmaValue::Boolean(x.logging_exec)));
                items.push(pair_entry("logging_gamble", ArmaValue::Boolean(x.logging_gamble)));
                items.push(
                    pair_entry(
                        "logging_modify_player",
                        ArmaValue::Boolean(x.logging_modify_player),
                    ),
                );
                items.push(
                    pair_entry(
                        "logging_pay_territory",
                        ArmaValue::Boolean(x.logging_pay_territory),
                    ),
                );
                items.push(
                    pair_entry(
                        "logging_promote_player",
                        ArmaValue::Boolean(x.logging_promote_player),
                    ),
                );
                items.push(
                    pair_entry(
                        "logging_remove_player_from_territory",
                        ArmaValue::Boolean(x.logging_remove_player_from_territory),
                    ),
                );
                items.push(pair_entry("logging_reward", ArmaValue::Boolean(x.logging_reward)));
                items.push(
                    pair_entry("logging_transfer", ArmaValue::Boolean(x.logging_transfer)),
                );
                items.push(
                    pair_entry(
                        "logging_upgrade_territory",
                        ArmaValue::Boolean(x.logging_upgrade_territory),
                    ),
                );
                items.push(pair_entry("max_payment_count", str_value(&x.max_payment_count)));
                items.push(pair_entry("territory_admins", strings_value(&x.territory_admins)));
                items.push(
                    pair_entry("territory_payment_tax", str_value(&x.territory_payment_tax)),
                );
                items.push(
                    pair_entry("territory_upgrade_tax", str_value(&x.territory_upgrade_tax)),
                );
                proof {
                    assert(crate::arma_value::seq_view(items@) =~= fields_value(fs)->Arr_0);
                }
                ArmaValue::Array(items)
            },
            crate::data::Data::Query(x) => {
                let mut items: Vec<ArmaValue> = Vec::new();
                items.push(pair_entry("arguments", map_value(&x.arguments)));
                items.push(pair_entry("name", str_value(&x.name)));
                proof {
                    assert(crate::arma_value::seq_view(items@) =~= fields_value(fs)->Arr_0);
                }
                ArmaValue::Array(items)
            },
            crate::data::Data::QueryResult(x) => {
                let mut items: Vec<ArmaValue> = Vec::new();
                items.push(pair_entry("results", strings_value(&x.results)));
                proof {
                    assert(crate::arma_value::seq_view(items@) =~= fields_value(fs)->Arr_0);
                }
                ArmaValue::Array(items)
            },
            crate::data::Data::SendToChannel(x) => {
                let mut items: Vec<ArmaValue> = Vec::new();
                items.push(pair_entry("id", str_value(&x.id)));
                items.push(pair_entry("content", str_value(&x.content)));
                proof {
                    assert(crate::arma_value::seq_view(items@) =~= fields_value(fs)->Arr_0);
                }
                ArmaValue::Array(items)
            },
            crate::data::Data::Reward(x) => {
                let mut items: Vec<ArmaValue> = Vec::new();
                items.push(pair_entry("items", opt_map_value(&x.items)));
                items.push(pair_entry("locker_poptabs", opt_str_value(&x.locker_poptabs)));
                items.push(pair_entry("player_poptabs", opt_str_value(&x.player_poptabs)));
                items.push(pair_entry("respect", opt_str_value(&x.respect)));
                let vehicles = match &x.vehicles {
                    Some(vs) => maps_value(vs),
                    None => ArmaValue::Nil,
                };
                items.push(pair_entry("vehicles", vehicles));
                proof {
                    assert(crate::arma_value::seq_view(items@) =~= fields_value(fs)->Arr_0);
                }
                ArmaValue::Array(items)
            },
            crate::data::Data::Sqf(x) => {
                let mut items: Vec<ArmaValue> = Vec::new();
                items.push(pair_entry("execute_on", str_value(&x.execute_on)));
                items.push(pair_entry("code", str_value(&x.code)));
                proof {
                    assert(crate::arma_value::seq_view(items@) =~= fields_value(fs)->Arr_0);
                }
                ArmaValue::Array(items)
            },
            crate::data::Data::SqfResult(x) => {
                let mut items: Vec<ArmaValue> = Vec::new();
                items.push(pair_entry("result", opt_str_value(&x.result)));
                proof {
                    assert(crate::arma_value::seq_view(items@) =~= fields_value(fs)->Arr_0);
                }
                ArmaValue::Array(items)
            },
        }
    }
}

impl crate::metadata::Metadata {
    /// The content of this context in the host grammar.
    pub fn to_arma(&self) -> (r: ArmaValue)
        ensures
            r@ == metadata_content(self@),
    {
        let ghost fs = metadata_fields(self@);
        match self {
            crate::metadata::Metadata::Empty => ArmaValue::Nil,
            crate::metadata::Metadata::Test(x) => {
                let mut items: Vec<ArmaValue> = Vec::new();
                items.push(pair_entry("foo", str_value(&x.foo)));
                proof {
                    assert(crate::arma_value::seq_view(items@) =~= fields_value(fs)->Arr_0);
                }
                ArmaValue::Array(items)
            },
            crate::metadata::Metadata::Command(x) => {
                let mut items: Vec<ArmaValue> = Vec::new();
                items.push(pair_entry("player", player_value(&x.player)));
                items.push(pair_entry("target", opt_player_value(&x.target)));
                proof {
                    assert(crate::arma_value::seq_view(items@) =~= fields_value(fs)->Arr_0);
                }
                ArmaValue::Array(items)
            },
        }
    }
}

/// The tag of a payload, as written on the wire.
fn data_tag_exec(d: &crate::data::Data) -> (r: &'static str)
    ensures
        r@ == data_tag(d@),
{
    match d {
        crate::data::Data::Empty => "empty",
        crate::data::Data::Test(_) => "test",
        crate::data::Data::Init(_) => "init",
        crate::data::Data::PostInit(_) => "post_init",
        crate::data::Data::Query(_) => "query",
        crate::data::Data::QueryResult(_) => "query_result",
        crate::data::Data::SendToChannel(_) => "send_to_channel",
        crate::data::Data::Reward(_) => "reward",
        crate::data::Data::Sqf(_) => "sqf",
        crate::data::Data::SqfResult(_) => "sqf_result",
    }
}

/// Encodes a payload in the host grammar: `[tag, content]`.
pub fn encode_payload(d: &crate::data::Data) -> (r: ArmaValue)
    ensures
        r@ == encode_data(d@),
{
    let mut items: Vec<ArmaValue> = Vec::new();
    items.push(ArmaValue::String(data_tag_exec(d).to_owned()));
    items.push(d.to_arma());
    proof {
        assert(crate::arma_value::seq_view(items@) =~= encode_data(d@)->Arr_0);
    }
    ArmaValue::Array(items)
}

/// Encodes a context in the host grammar: `[tag, content]`.
pub fn encode_metadata_payload(m: &crate::metadata::Metadata) -> (r: ArmaValue)
    ensures
        r@ == encode_metadata(m@),
{
    let tag: &'static str = match m {
        crate::metadata::Metadata::Empty => "empty",
        crate::metadata::Metadata::Test(_) => "test",
        crate::metadata::Metadata::Command(_) => "command",
    };
    let mut items: Vec<ArmaValue> = Vec::new();
    items.push(ArmaValue::String(tag.to_owned()));
    items.push(m.to_arma());
    proof {
        assert(crate::arma_value::seq_view(items@) =~= encode_metadata(m@)->Arr_0);
    }
    ArmaValue::Array(items)
}

} // verus!
