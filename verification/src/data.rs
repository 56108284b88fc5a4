use vstd::prelude::*;

verus! {

/// Numbers at risk of losing precision in a binary float (money, large
/// counters) travel as decimal digit strings from end to end; the codec
/// never parses them into a numeric type.
pub type NumberString = String;

/// An ordered string-keyed map with unique keys; the host environment has no
/// map literal, so on the wire it is an array of key/value pairs, and
/// insertion order is kept.
#[derive(Debug, Clone, PartialEq)]
pub struct StringMap {
    entries: Vec<(String, String)>,
}

/// Model of a [`StringMap`]: its entries in order.
pub open spec fn entries_view(entries: Seq<(String, String)>) -> Seq<(Seq<char>, Seq<char>)> {
    Seq::new(
        entries.len(),
        |i: int|
            if 0 <= i < entries.len() {
                (entries[i].0@, entries[i].1@)
            } else {
                (Seq::empty(), Seq::empty())
            },
    )
}

impl View for StringMap {
    type V = Seq<(Seq<char>, Seq<char>)>;

    closed spec fn view(&self) -> Seq<(Seq<char>, Seq<char>)> {
        entries_view(self.entries@)
    }
}

/// The first index holding `key`, or -1.
pub open spec fn map_find(entries: Seq<(Seq<char>, Seq<char>)>, key: Seq<char>) -> int
    decreases entries.len(),
{
    if entries.len() == 0 {
        -1
    } else if entries[0].0 == key {
        0
    } else {
        let r = map_find(entries.drop_first(), key);
        if r == -1 {
            -1
        } else {
            r + 1
        }
    }
}

pub open spec fn map_get(entries: Seq<(Seq<char>, Seq<char>)>, key: Seq<char>) -> Option<
    Seq<char>,
> {
    let i = map_find(entries, key);
    if i == -1 {
        None
    } else {
        Some(entries[i].1)
    }
}

/// Keys are pairwise distinct.
pub open spec fn map_wf(entries: Seq<(Seq<char>, Seq<char>)>) -> bool {
    forall|i: int, j: int|
        0 <= i < j < entries.len() ==> (#[trigger] entries[i]).0 != (#[trigger] entries[j]).0
}

/// Inserting replaces the value of an existing key in place, else appends.
pub open spec fn map_insert(
    entries: Seq<(Seq<char>, Seq<char>)>,
    key: Seq<char>,
    value: Seq<char>,
) -> Seq<(Seq<char>, Seq<char>)> {
    let i = map_find(entries, key);
    if i == -1 {
        entries.push((key, value))
    } else {
        entries.update(i, (key, value))
    }
}

pub proof fn lemma_map_find_bounds(entries: Seq<(Seq<char>, Seq<char>)>, key: Seq<char>)
    ensures
        map_find(entries, key) == -1 || (0 <= map_find(entries, key) < entries.len()
            && entries[map_find(entries, key)].0 == key),
        map_find(entries, key) == -1 ==> forall|i: int|
            0 <= i < entries.len() ==> (#[trigger] entries[i]).0 != key,
    decreases entries.len(),
{
    if entries.len() > 0 && entries[0].0 != key {
        let rest = entries.drop_first();
        lemma_map_find_bounds(rest, key);
        assert(forall|i: int| 0 <= i < rest.len() ==> #[trigger] rest[i] == entries[i + 1]);
        if map_find(entries, key) == -1 {
            assert forall|i: int| 0 <= i < entries.len() implies (#[trigger] entries[i]).0
                != key by {
                if i > 0 {
                    assert(rest[i - 1] == entries[i]);
                }
            }
        } else {
            let r = map_find(rest, key);
            assert(rest[r] == entries[r + 1]);
        }
    }
}

/// Inserting a fresh key preserves well-formedness and appends.
/// The first match at `k` is what `map_find` yields.
pub proof fn lemma_map_find_first(entries: Seq<(Seq<char>, Seq<char>)>, key: Seq<char>, k: int)
    requires
        0 <= k < entries.len(),
        entries[k].0 == key,
        forall|i: int| 0 <= i < k ==> (#[trigger] entries[i]).0 != key,
    ensures
        map_find(entries, key) == k,
    decreases k,
{
    if k > 0 {
        assert(entries[0].0 != key);
        lemma_map_find_first(entries.drop_first(), key, k - 1);
        assert(forall|i: int|
            0 <= i < entries.drop_first().len() ==> entries.drop_first()[i] == entries[i + 1]);
    }
}

pub proof fn lemma_map_insert_fresh(
    entries: Seq<(Seq<char>, Seq<char>)>,
    key: Seq<char>,
    value: Seq<char>,
)
    requires
        map_wf(entries),
        map_find(entries, key) == -1,
    ensures
        map_insert(entries, key, value) == entries.push((key, value)),
        map_wf(map_insert(entries, key, value)),
{
    lemma_map_find_bounds(entries, key);
    let out = entries.push((key, value));
    assert forall|i: int, j: int| 0 <= i < j < out.len() implies (#[trigger] out[i]).0 != (
    #[trigger] out[j]).0 by {
        if j == out.len() - 1 {
            assert(entries[i].0 != key);
        }
    }
}

impl StringMap {
    /// An empty map.
    pub fn new() -> (r: StringMap)
        ensures
            r@ == Seq::<(Seq<char>, Seq<char>)>::empty(),
            map_wf(r@),
    {
        let r = StringMap { entries: Vec::new() };
        proof {
            assert(r@ =~= Seq::<(Seq<char>, Seq<char>)>::empty());
        }
        r
    }

    /// A map holding exactly the given entries, in order.
    pub fn from_entries(entries: Vec<(String, String)>) -> (r: StringMap)
        ensures
            r@ == entries_view(entries@),
    {
        StringMap { entries }
    }

    pub fn len(&self) -> (n: usize)
        ensures
            n == self@.len(),
    {
        self.entries.len()
    }

    /// The entry at position `i`, in insertion order.
    pub fn entry_at(&self, i: usize) -> (r: (&String, &String))
        requires
            i < self@.len(),
        ensures
            r.0@ == self@[i as int].0,
            r.1@ == self@[i as int].1,
    {
        (&self.entries[i].0, &self.entries[i].1)
    }

    /// The value stored under `key`, if any.
    pub fn get(&self, key: &str) -> (r: Option<&String>)
        ensures
            match r {
                Some(v) => map_get(self@, key@) == Some(v@),
                None => map_get(self@, key@) is None,
            },
    {
        let n = self.entries.len();
        let mut k: usize = 0;
        while k < n
            invariant
                0 <= k <= n == self@.len(),
                forall|i: int| 0 <= i < k ==> (#[trigger] self@[i]).0 != key@,
            decreases n - k,
        {
            if crate::text::str_eq(self.entries[k].0.as_str(), key) {
                proof {
                    lemma_map_find_first(self@, key@, k as int);
                }
                return Some(&self.entries[k].1);
            }
            proof {
                assert(self@[k as int].0 == self.entries@[k as int].0@);
            }
            k = k + 1;
        }
        proof {
            lemma_map_find_bounds(self@, key@);
        }
        None
    }

    /// Stores `value` under `key`: replaces the value in place when the key
    /// is present, else appends the pair.
    pub fn insert(&mut self, key: String, value: String)
        ensures
            final(self)@ == map_insert(old(self)@, key@, value@),
    {
        let ghost entries0 = self@;
        let n = self.entries.len();
        let mut k: usize = 0;
        while k < n
            invariant
                0 <= k <= n == entries0.len(),
                self@ == entries0,
                old(self)@ == entries0,
                self.entries@.len() == n,
                forall|i: int| 0 <= i < k ==> (#[trigger] entries0[i]).0 != key@,
            decreases n - k,
        {
            if crate::text::str_eq(self.entries[k].0.as_str(), key.as_str()) {
                proof {
                    assert(entries0[k as int].0 == self.entries@[k as int].0@);
                    lemma_map_find_first(entries0, key@, k as int);
                }
                let ghost kview = key@;
                let ghost vview = value@;
                let pair = (key, value);
                let ghost pairg = pair;
                proof {
                    assert(pairg.0@ == kview && pairg.1@ == vview);
                }
                let ghost raw0 = self.entries@;
                self.entries.remove(k);
                let ghost raw1 = self.entries@;
                self.entries.insert(k, pair);
                proof {
                    raw0.remove_ensures(k as int);
                    raw1.insert_ensures(k as int, pairg);
                    assert forall|i: int| 0 <= i < entries0.len() implies #[trigger] self@[i]
                        == entries0.update(k as int, (pairg.0@, pairg.1@))[i] by {
                        if i < k {
                            assert(raw1[i] == raw0[i]);
                            assert(self.entries@[i] == raw1[i]);
                        } else if i == k {
                            assert(self.entries@[i] == pairg);
                        } else {
                            assert(raw1[i - 1] == raw0[i]);
                            assert(self.entries@[i] == raw1[i - 1]);
                        }
                    }
                    assert(self@ =~= entries0.update(k as int, (pairg.0@, pairg.1@)));
                    assert(self@ == map_insert(entries0, kview, vview));
                }
                return ;
            }
            proof {
                assert(entries0[k as int].0 == self.entries@[k as int].0@);
            }
            k = k + 1;
        }
        proof {
            lemma_map_find_bounds(entries0, key@);
        }
        self.entries.push((key, value));
        proof {
            assert(self@ =~= entries0.push((key@, value@)));
        }
    }
}

/// The payload of a message: exactly one of a closed set of typed shapes.
#[derive(Debug, Clone, PartialEq)]
pub enum Data {
    Empty,
    Test(Test),
    Init(Init),
    PostInit(PostInit),
    Query(Query),
    QueryResult(QueryResult),
    SendToChannel(SendToChannel),
    Reward(Reward),
    Sqf(Sqf),
    SqfResult(SqfResult),
}

#[derive(Debug, Clone, PartialEq)]
pub struct Test {
    pub foo: String,
}

#[derive(Debug, Clone, PartialEq)]
pub struct Init {
    pub extension_version: String,
    pub price_per_object: NumberString,
    pub server_name: String,
    pub server_start_time: String,
    pub territory_data: String,
    pub territory_lifetime: NumberString,
    pub vg_enabled: bool,
    pub vg_max_sizes: String,
}

#[derive(Debug, Clone, PartialEq)]
pub struct PostInit {
    pub extdb_path: String,
    pub gambling_modifier: NumberString,
    pub gambling_payout: NumberString,
    pub gambling_randomizer_max: NumberString,
    pub gambling_randomizer_mid: NumberString,
    pub gambling_randomizer_min: NumberString,
    pub gambling_win_chance: NumberString,
    pub logging_add_player_to_territory: bool,
    pub logging_channel_id: String,
    pub logging_demote_player: bool,
    pub logging_exec: bool,
    pub logging_gamble: bool,
    pub logging_modify_player: bool,
    pub logging_pay_territory: bool,
    pub logging_promote_player: bool,
    pub logging_remove_player_from_territory: bool,
    pub logging_reward: bool,
    pub logging_transfer: bool,
    pub logging_upgrade_territory: bool,
    pub max_payment_count: NumberString,
    pub territory_admins: Vec<String>,
    pub territory_payment_tax: NumberString,
    pub territory_upgrade_tax: NumberString,
}

#[derive(Debug, Clone, PartialEq)]
pub struct Query {
    pub arguments: StringMap,
    pub name: String,
}

#[derive(Debug, Clone, PartialEq)]
pub struct QueryResult {
    pub results: Vec<String>,
}

#[derive(Debug, Clone, PartialEq)]
pub struct SendToChannel {
    pub id: String,
    pub content: String,
}

#[derive(Debug, Clone, PartialEq)]
pub struct Reward {
    pub items: Option<StringMap>,
    pub locker_poptabs: Option<NumberString>,
    pub player_poptabs: Option<NumberString>,
    pub respect: Option<NumberString>,
    pub vehicles: Option<Vec<StringMap>>,
}

#[derive(Debug, Clone, PartialEq)]
pub struct Sqf {
    pub execute_on: String,
    pub code: String,
}

#[derive(Debug, Clone, PartialEq)]
pub struct SqfResult {
    pub result: Option<String>,
}

/// A client event; carried for completeness of the schema, the timestamp as
/// opaque RFC 3339 text.
#[derive(Debug, Clone, PartialEq)]
pub struct Event {
    pub event_type: String,
    pub triggered_at: String,
}

// -- models ----------------------------------------------------------------

pub struct TestV {
    pub foo: Seq<char>,
}

pub struct InitV {
    pub extension_version: Seq<char>,
    pub price_per_object: Seq<char>,
    pub server_name: Seq<char>,
    pub server_start_time: Seq<char>,
    pub territory_data: Seq<char>,
    pub territory_lifetime: Seq<char>,
    pub vg_enabled: bool,
    pub vg_max_sizes: Seq<char>,
}

pub struct PostInitV {
    pub extdb_path: Seq<char>,
    pub gambling_modifier: Seq<char>,
    pub gambling_payout: Seq<char>,
    pub gambling_randomizer_max: Seq<char>,
    pub gambling_randomizer_mid: Seq<char>,
    pub gambling_randomizer_min: Seq<char>,
    pub gambling_win_chance: Seq<char>,
    pub logging_add_player_to_territory: bool,
    pub logging_channel_id: Seq<char>,
    pub logging_demote_player: bool,
    pub logging_exec: bool,
    pub logging_gamble: bool,
    pub logging_modify_player: bool,
    pub logging_pay_territory: bool,
    pub logging_promote_player: bool,
    pub logging_remove_player_from_territory: bool,
    pub logging_reward: bool,
    pub logging_transfer: bool,
    pub logging_upgrade_territory: bool,
    pub max_payment_count: Seq<char>,
    pub territory_admins: Seq<Seq<char>>,
    pub territory_payment_tax: Seq<char>,
    pub territory_upgrade_tax: Seq<char>,
}

pub struct QueryV {
    pub arguments: Seq<(Seq<char>, Seq<char>)>,
    pub name: Seq<char>,
}

pub struct QueryResultV {
    pub results: Seq<Seq<char>>,
}

pub struct SendToChannelV {
    pub id: Seq<char>,
    pub content: Seq<char>,
}

pub struct RewardV {
    pub items: Option<Seq<(Seq<char>, Seq<char>)>>,
    pub locker_poptabs: Option<Seq<char>>,
    pub player_poptabs: Option<Seq<char>>,
    pub respect: Option<Seq<char>>,
    pub vehicles: Option<Seq<Seq<(Seq<char>, Seq<char>)>>>,
}

pub struct SqfV {
    pub execute_on: Seq<char>,
    pub code: Seq<char>,
}

pub struct SqfResultV {
    pub result: Option<Seq<char>>,
}

pub struct EventV {
    pub event_type: Seq<char>,
    pub triggered_at: Seq<char>,
}

pub enum DataV {
    Empty,
    Test(TestV),
    Init(InitV),
    PostInit(PostInitV),
    Query(QueryV),
    QueryResult(QueryResultV),
    SendToChannel(SendToChannelV),
    Reward(RewardV),
    Sqf(SqfV),
    SqfResult(SqfResultV),
}

/// The models of a list of strings.
pub open spec fn strings_view(v: Seq<String>) -> Seq<Seq<char>> {
    Seq::new(
        v.len(),
        |i: int|
            if 0 <= i < v.len() {
                v[i]@
            } else {
                Seq::empty()
            },
    )
}

/// The models of a list of maps.
pub open spec fn maps_view(v: Seq<StringMap>) -> Seq<Seq<(Seq<char>, Seq<char>)>> {
    Seq::new(
        v.len(),
        |i: int|
            if 0 <= i < v.len() {
                v[i]@
            } else {
                Seq::empty()
            },
    )
}

pub open spec fn opt_string_view(v: Option<String>) -> Option<Seq<char>> {
    match v {
        Some(s) => Some(s@),
        None => None,
    }
}

impl View for Test {
    type V = TestV;

    open spec fn view(&self) -> TestV {
        TestV { foo: self.foo@ }
    }
}

impl View for Init {
    type V = InitV;

    open spec fn view(&self) -> InitV {
        InitV {
            extension_version: self.extension_version@,
            price_per_object: self.price_per_object@,
            server_name: self.server_name@,
            server_start_time: self.server_start_time@,
            territory_data: self.territory_data@,
            territory_lifetime: self.territory_lifetime@,
            vg_enabled: self.vg_enabled,
            vg_max_sizes: self.vg_max_sizes@,
        }
    }
}

impl View for PostInit {
    type V = PostInitV;

    open spec fn view(&self) -> PostInitV {
        PostInitV {
            extdb_path: self.extdb_path@,
            gambling_modifier: self.gambling_modifier@,
            gambling_payout: self.gambling_payout@,
            gambling_randomizer_max: self.gambling_randomizer_max@,
            gambling_randomizer_mid: self.gambling_randomizer_mid@,
            gambling_randomizer_min: self.gambling_randomizer_min@,
            gambling_win_chance: self.gambling_win_chance@,
            logging_add_player_to_territory: self.logging_add_player_to_territory,
            logging_channel_id: self.logging_channel_id@,
            logging_demote_player: self.logging_demote_player,
            logging_exec: self.logging_exec,
            logging_gamble: self.logging_gamble,
            logging_modify_player: self.logging_modify_player,
            logging_pay_territory: self.logging_pay_territory,
            logging_promote_player: self.logging_promote_player,
            logging_remove_player_from_territory: self.logging_remove_player_from_territory,
            logging_reward: self.logging_reward,
            logging_transfer: self.logging_transfer,
            logging_upgrade_territory: self.logging_upgrade_territory,
            max_payment_count: self.max_payment_count@,
            territory_admins: strings_view(self.territory_admins@),
            territory_payment_tax: self.territory_payment_tax@,
            territory_upgrade_tax: self.territory_upgrade_tax@,
        }
    }
}

impl View for Query {
    type V = QueryV;

    open spec fn view(&self) -> QueryV {
        QueryV { arguments: self.arguments@, name: self.name@ }
    }
}

impl View for QueryResult {
    type V = QueryResultV;

    open spec fn view(&self) -> QueryResultV {
        QueryResultV { results: strings_view(self.results@) }
    }
}

impl View for SendToChannel {
    type V = SendToChannelV;

    open spec fn view(&self) -> SendToChannelV {
        SendToChannelV { id: self.id@, content: self.content@ }
    }
}

impl View for Reward {
    type V = RewardV;

    open spec fn view(&self) -> RewardV {
        RewardV {
            items: match self.items {
                Some(m) => Some(m@),
                None => None,
            },
            locker_poptabs: opt_string_view(self.locker_poptabs),
            player_poptabs: opt_string_view(self.player_poptabs),
            respect: opt_string_view(self.respect),
            vehicles: match self.vehicles {
                Some(ref vs) => Some(maps_view(vs@)),
                None => None,
            },
        }
    }
}

impl View for Sqf {
    type V = SqfV;

    open spec fn view(&self) -> SqfV {
        SqfV { execute_on: self.execute_on@, code: self.code@ }
    }
}

impl View for SqfResult {
    type V = SqfResultV;

    open spec fn view(&self) -> SqfResultV {
        SqfResultV { result: opt_string_view(self.result) }
    }
}

impl View for Event {
    type V = EventV;

    open spec fn view(&self) -> EventV {
        EventV { event_type: self.event_type@, triggered_at: self.triggered_at@ }
    }
}

impl View for Data {
    type V = DataV;

    open spec fn view(&self) -> DataV {
        match self {
            Data::Empty => DataV::Empty,
            Data::Test(x) => DataV::Test(x@),
            Data::Init(x) => DataV::Init(x@),
            Data::PostInit(x) => DataV::PostInit(x@),
            Data::Query(x) => DataV::Query(x@),
            Data::QueryResult(x) => DataV::QueryResult(x@),
            Data::SendToChannel(x) => DataV::SendToChannel(x@),
            Data::Reward(x) => DataV::Reward(x@),
            Data::Sqf(x) => DataV::Sqf(x@),
            Data::SqfResult(x) => DataV::SqfResult(x@),
        }
    }
}

/// A payload is well formed when every map in it has unique keys.
pub open spec fn wf_data(d: DataV) -> bool {
    match d {
        DataV::Query(q) => map_wf(q.arguments),
        DataV::Reward(r) => {
            &&& match r.items {
                Some(m) => map_wf(m),
                None => true,
            }
            &&& match r.vehicles {
                Some(vs) => forall|i: int| 0 <= i < vs.len() ==> map_wf(#[trigger] vs[i]),
                None => true,
            }
        },
        _ => true,
    }
}

impl Default for Data {
    fn default() -> (r: Data)
        ensures
            r@ == DataV::Empty,
    {
        Data::Empty
    }
}

} // verus!
