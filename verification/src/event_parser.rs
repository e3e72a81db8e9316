//! Decoding of TipJar contract events into typed, indexable records.

use vstd::prelude::*;
use crate::json::{
    JsonValue, JsonModel, members_model, items_model, json_text, first_member, no_member,
    member_index, lemma_object_model, lemma_array_model,
};
use crate::text::{spec_parse_u64, parse_u64, owned, join2, str_eq, dec, lemma_parse_dec};
use crate::event_listener::RawContractEvent;

verus! {

broadcast use vstd::std_specs::vec::group_vec_axioms;

/// The first of two optional texts that is present.
pub open spec fn or_text(a: Option<Seq<char>>, b: Option<Seq<char>>) -> Option<Seq<char>> {
    if a is Some {
        a
    } else {
        b
    }
}

/// The view of an optional owned string.
pub open spec fn opt_text(o: Option<String>) -> Option<Seq<char>> {
    match o {
        Some(s) => Some(s@),
        None => None,
    }
}

/// The text a value stands for: a string or number as written, or for an object the
/// text of its first `address`, `symbol`, `string`, `bytes`, `u64` or `i128` member
/// (tried in that order) that has one.
pub open spec fn value_text(v: JsonModel) -> Option<Seq<char>>
    decreases v,
{
    match v {
        JsonModel::Str(s) => Some(s),
        JsonModel::Number(t) => Some(t),
        JsonModel::Object(members) => or_text(
            member_text(members, "address"@),
            or_text(
                member_text(members, "symbol"@),
                or_text(
                    member_text(members, "string"@),
                    or_text(
                        member_text(members, "bytes"@),
                        or_text(member_text(members, "u64"@), member_text(members, "i128"@)),
                    ),
                ),
            ),
        ),
        _ => None,
    }
}

/// The text of the first member named `key`, when that member has one.
pub open spec fn member_text(members: Seq<(Seq<char>, JsonModel)>, key: Seq<char>) -> Option<
    Seq<char>,
>
    decreases members,
{
    if members.len() == 0 {
        None
    } else if members[0].0 == key {
        value_text(members[0].1)
    } else {
        member_text(members.drop_first(), key)
    }
}

pub proof fn lemma_member_text_first(members: Seq<(Seq<char>, JsonModel)>, key: Seq<char>, i: int)
    requires
        first_member(members, key, i),
    ensures
        member_text(members, key) == value_text(members[i].1),
    decreases i,
{
    if i > 0 {
        let rest = members.drop_first();
        assert(members[0].0 != key);
        assert forall|j: int| 0 <= j < i - 1 implies #[trigger] rest[j].0 != key by {
            assert(rest[j] == members[j + 1]);
        }
        lemma_member_text_first(rest, key, i - 1);
    }
}

pub proof fn lemma_member_text_none(members: Seq<(Seq<char>, JsonModel)>, key: Seq<char>)
    requires
        no_member(members, key),
    ensures
        member_text(members, key) is None,
    decreases members.len(),
{
    if members.len() > 0 {
        let rest = members.drop_first();
        assert(members[0].0 != key);
        assert forall|j: int| 0 <= j < rest.len() implies #[trigger] rest[j].0 != key by {
            assert(rest[j] == members[j + 1]);
        }
        lemma_member_text_none(rest, key);
    }
}

/// The text of the first member named `key`, when that member has one.
fn member_text_of(members: &Vec<(String, JsonValue)>, key: &str) -> (r: Option<String>)
    ensures
        opt_text(r) == member_text(members_model(members@), key@),
    decreases members,
{
    match member_index(members, key) {
        Some(i) => {
            proof {
                lemma_member_text_first(members_model(members@), key@, i as int);
                assert(decreases_to!(members => members[i as int]));
            }
            value_to_string(&members[i].1)
        },
        None => {
            proof {
                lemma_member_text_none(members_model(members@), key@);
            }
            None
        },
    }
}

/// The text a value stands for (see [`value_text`]).
pub fn value_to_string(v: &JsonValue) -> (r: Option<String>)
    ensures
        opt_text(r) == value_text(v@),
    decreases v,
{
    match v {
        JsonValue::Str(s) => Some(s.clone()),
        JsonValue::Number(t) => Some(t.clone()),
        JsonValue::Object(members) => {
            proof {
                lemma_object_model(*members);
            }
            let a = member_text_of(members, "address");
            if a.is_some() {
                return a;
            }
            let b = member_text_of(members, "symbol");
            if b.is_some() {
                return b;
            }
            let c = member_text_of(members, "string");
            if c.is_some() {
                return c;
            }
            let d = member_text_of(members, "bytes");
            if d.is_some() {
                return d;
            }
            let e = member_text_of(members, "u64");
            if e.is_some() {
                return e;
            }
            member_text_of(members, "i128")
        },
        _ => None,
    }
}

/// The symbol a topic entry names: a string as written, or for an object the text of
/// its `symbol` member, else of its `string` member.
pub open spec fn topic_symbol_of(v: JsonModel) -> Option<Seq<char>> {
    match v {
        JsonModel::Str(s) => Some(s),
        JsonModel::Object(members) => or_text(
            member_text(members, "symbol"@),
            member_text(members, "string"@),
        ),
        _ => None,
    }
}

/// The symbol a topic entry names (see [`topic_symbol_of`]).
pub fn topic_symbol(v: &JsonValue) -> (r: Option<String>)
    ensures
        opt_text(r) == topic_symbol_of(v@),
{
    match v {
        JsonValue::Str(s) => Some(s.clone()),
        JsonValue::Object(members) => {
            proof {
                lemma_object_model(*members);
            }
            let a = member_text_of(members, "symbol");
            if a.is_some() {
                return a;
            }
            member_text_of(members, "string")
        },
        _ => None,
    }
}

/// Reads an optional text as a `u64`.
pub open spec fn parse_text_u64(t: Option<Seq<char>>) -> Option<u64> {
    match t {
        Some(t) => spec_parse_u64(t),
        None => None,
    }
}

/// The value of an optional number, zero when absent.
pub open spec fn or_zero(n: Option<u64>) -> u64 {
    match n {
        Some(n) => n,
        None => 0,
    }
}

/// The unsigned integer a value stands for, zero when it stands for none: a number or a
/// string read as a `u64`, or for an object its `u64` member, else its `i128` member.
pub open spec fn value_u64(v: JsonModel) -> u64 {
    match v {
        JsonModel::Number(t) => or_zero(spec_parse_u64(t)),
        JsonModel::Str(s) => or_zero(spec_parse_u64(s)),
        JsonModel::Object(members) => {
            let a = parse_text_u64(member_text(members, "u64"@));
            if a is Some {
                a->0
            } else {
                or_zero(parse_text_u64(member_text(members, "i128"@)))
            }
        },
        _ => 0,
    }
}

fn parse_opt_u64(t: &Option<String>) -> (r: Option<u64>)
    ensures
        r == parse_text_u64(opt_text(*t)),
{
    match t {
        Some(t) => parse_u64(t.as_str()),
        None => None,
    }
}

/// The unsigned integer a value stands for (see [`value_u64`]).
pub fn value_to_u64(v: &JsonValue) -> (r: u64)
    ensures
        r == value_u64(v@),
{
    match v {
        JsonValue::Number(t) => match parse_u64(t.as_str()) {
            Some(n) => n,
            None => 0,
        },
        JsonValue::Str(s) => match parse_u64(s.as_str()) {
            Some(n) => n,
            None => 0,
        },
        JsonValue::Object(members) => {
            proof {
                lemma_object_model(*members);
            }
            let a = parse_opt_u64(&member_text_of(members, "u64"));
            match a {
                Some(n) => n,
                None => match parse_opt_u64(&member_text_of(members, "i128")) {
                    Some(n) => n,
                    None => 0,
                },
            }
        },
        _ => 0,
    }
}

/// The amount text a value stands for: a number or string as written, or for an object
/// the text of its `i128` member, else its `u64` member; otherwise the value's JSON text.
pub open spec fn amount_text(v: JsonModel) -> Seq<char> {
    match v {
        JsonModel::Number(t) => t,
        JsonModel::Str(s) => s,
        JsonModel::Object(members) => {
            let t = or_text(member_text(members, "i128"@), member_text(members, "u64"@));
            if t is Some {
                t->0
            } else {
                json_text(v)
            }
        },
        _ => json_text(v),
    }
}

/// The amount text a value stands for (see [`amount_text`]).
pub fn value_to_i128(v: &JsonValue) -> (r: String)
    ensures
        r@ == amount_text(v@),
{
    match v {
        JsonValue::Number(t) => t.clone(),
        JsonValue::Str(s) => s.clone(),
        JsonValue::Object(members) => {
            proof {
                lemma_object_model(*members);
            }
            match member_text_of(members, "i128") {
                Some(t) => t,
                None => match member_text_of(members, "u64") {
                    Some(t) => t,
                    None => v.to_text(),
                },
            }
        },
        _ => v.to_text(),
    }
}

/// The party text a value stands for: its text when it has one, else its JSON text.
pub open spec fn party_text(v: JsonModel) -> Seq<char> {
    match value_text(v) {
        Some(t) => t,
        None => json_text(v),
    }
}

fn party_of(v: &JsonValue) -> (r: String)
    ensures
        r@ == party_text(v@),
{
    match value_to_string(v) {
        Some(t) => t,
        None => v.to_text(),
    }
}

/// What an event is about.
#[derive(Clone, Copy, Debug, PartialEq, Eq, Structural)]
pub enum EventKind {
    Tip,
    TipWithMessage,
    Withdraw,
    TipLocked,
    WithdrawLocked,
    Refund,
    RefundRequested,
    RefundApproved,
    RoleGranted,
    RoleRevoked,
    MatchCreated,
    MatchApplied,
    MatchCancelled,
    Upgraded,
    Unknown,
}

/// A decoded event: its kind, the symbol of its first topic entry, and its fields.
pub struct ParsedEvent {
    pub kind: EventKind,
    pub topic: String,
    pub fields: JsonValue,
}

/// Why an event could not be decoded.
pub enum ParserError {
    /// The event has no topic entries.
    MissingTopic,
    /// The first topic entry names no symbol.
    InvalidTopic,
    /// A topic entry or the payload does not have the shape the topic calls for.
    InvalidPayload { topic: String, reason: String },
}

/// The model of a decoded event.
pub struct ParsedModel {
    pub kind: EventKind,
    pub topic: Seq<char>,
    pub fields: JsonModel,
}

/// The model of a decoding failure.
pub enum ParserErrorModel {
    MissingTopic,
    InvalidTopic,
    InvalidPayload { topic: Seq<char>, reason: Seq<char> },
}

impl View for ParsedEvent {
    type V = ParsedModel;

    open spec fn view(&self) -> ParsedModel {
        ParsedModel { kind: self.kind, topic: self.topic@, fields: self.fields@ }
    }
}

impl View for ParserError {
    type V = ParserErrorModel;

    open spec fn view(&self) -> ParserErrorModel {
        match self {
            ParserError::MissingTopic => ParserErrorModel::MissingTopic,
            ParserError::InvalidTopic => ParserErrorModel::InvalidTopic,
            ParserError::InvalidPayload { topic, reason } => ParserErrorModel::InvalidPayload {
                topic: topic@,
                reason: reason@,
            },
        }
    }
}

/// The model of a decoding outcome.
pub open spec fn outcome_model<T: View>(r: Result<T, ParserError>) -> Result<T::V, ParserErrorModel> {
    match r {
        Ok(x) => Ok(x@),
        Err(e) => Err(e@),
    }
}

/// The model of a decoding step that yields text.
pub open spec fn text_outcome(r: Result<String, ParserError>) -> Result<Seq<char>, ParserErrorModel> {
    match r {
        Ok(x) => Ok(x@),
        Err(e) => Err(e@),
    }
}

/// A malformed-payload failure.
pub open spec fn payload_error(topic: Seq<char>, reason: Seq<char>) -> ParserErrorModel {
    ParserErrorModel::InvalidPayload { topic, reason }
}

/// The name under which a failure about this event is reported: the symbol of its
/// first topic entry, or `<unknown>`.
pub open spec fn topic_name_of(topics: Seq<JsonModel>) -> Seq<char> {
    if topics.len() > 0 && topic_symbol_of(topics[0]) is Some {
        topic_symbol_of(topics[0])->0
    } else {
        "<unknown>"@
    }
}

/// The text of topic entry `idx`, which the event must have.
pub open spec fn topic_field(topics: Seq<JsonModel>, idx: int, field: Seq<char>) -> Result<
    Seq<char>,
    ParserErrorModel,
> {
    if 0 <= idx < topics.len() && value_text(topics[idx]) is Some {
        Ok(value_text(topics[idx])->0)
    } else {
        Err(payload_error(topic_name_of(topics), "missing topic field "@ + field))
    }
}

/// The elements of the payload, which must be an array.
pub open spec fn payload_items(value: JsonModel, topic: Seq<char>) -> Result<
    Seq<JsonModel>,
    ParserErrorModel,
> {
    match value {
        JsonModel::Array(items) => Ok(items),
        _ => Err(payload_error(topic, "value is not an array"@)),
    }
}

/// A malformed-payload failure for `topic`, giving `reason`.
pub fn payload_err(topic: &str, reason: &str) -> (e: ParserError)
    ensures
        e@ == payload_error(topic@, reason@),
{
    ParserError::InvalidPayload { topic: owned(topic), reason: owned(reason) }
}

fn topic_name(event: &RawContractEvent) -> (r: String)
    ensures
        r@ == topic_name_of(event.topic_model()),
{
    proof {
        lemma_array_model(event.topic);
    }
    if event.topic.len() > 0 {
        match topic_symbol(&event.topic[0]) {
            Some(s) => {
                return s;
            },
            None => {},
        }
    }
    owned("<unknown>")
}

fn topic_value(event: &RawContractEvent, idx: usize, field: &str) -> (r: Result<String, ParserError>)
    ensures
        text_outcome(r) == topic_field(event.topic_model(), idx as int, field@),
{
    if idx < event.topic.len() {
        match value_to_string(&event.topic[idx]) {
            Some(s) => {
                return Ok(s);
            },
            None => {},
        }
    }
    let name = topic_name(event);
    let reason = join2("missing topic field ", field);
    Err(ParserError::InvalidPayload { topic: name, reason })
}

fn value_array<'a>(event: &'a RawContractEvent, topic: &str) -> (r: Result<&'a Vec<JsonValue>, ParserError>)
    ensures
        match r {
            Ok(items) => payload_items(event.value@, topic@) == Ok::<Seq<JsonModel>, ParserErrorModel>(items_model(items@)),
            Err(e) => payload_items(event.value@, topic@) == Err::<Seq<JsonModel>, ParserErrorModel>(e@),
        },
{
    match &event.value {
        JsonValue::Array(items) => {
            proof {
                lemma_array_model(*items);
            }
            Ok(items)
        },
        _ => Err(payload_err(topic, "value is not an array")),
    }
}

fn member_of(key: &str, v: JsonValue) -> (r: (String, JsonValue))
    ensures
        r.0@ == key@,
        r.1 == v,
{
    (owned(key), v)
}

fn object_of(members: Vec<(String, JsonValue)>) -> (r: JsonValue)
    ensures
        r@ == JsonModel::Object(members_model(members@)),
{
    proof {
        lemma_object_model(members);
    }
    JsonValue::Object(members)
}

fn u64_number(n: u64) -> (r: JsonValue)
    ensures
        r@ == JsonModel::Number(crate::text::dec(n as nat)),
{
    JsonValue::Number(crate::text::u64_text(n))
}

/// The message text of a value: its text, or nothing.
pub open spec fn message_text(v: JsonModel) -> Seq<char> {
    match value_text(v) {
        Some(t) => t,
        None => Seq::empty(),
    }
}

fn message_of(v: &JsonValue) -> (r: String)
    ensures
        r@ == message_text(v@),
{
    match value_to_string(v) {
        Some(t) => t,
        None => String::new(),
    }
}

/// The topic under which a refund payload failure is reported.
pub open spec fn refund_label(approved: bool) -> Seq<char> {
    if approved {
        "ref_appr"@
    } else {
        "refund"@
    }
}

/// Fields of a `tip` event: topics `[tip, creator, token]`, payload `[sender, amount]`.
pub open spec fn tip_fields(t: Seq<JsonModel>, v: JsonModel) -> Result<JsonModel, ParserErrorModel> {
    match topic_field(t, 1, "creator"@) {
        Err(e) => Err(e),
        Ok(creator) => match topic_field(t, 2, "token"@) {
        Err(e) => Err(e),
        Ok(token) => match payload_items(v, "tip"@) {
        Err(e) => Err(e),
        Ok(d) => if d.len() < 2 {
            Err(payload_error("tip"@, "expected [sender, amount]"@))
        } else {
            Ok(JsonModel::Object(seq![
            ("amount"@, JsonModel::Str(amount_text(d[1]))),
            ("creator"@, JsonModel::Str(creator)),
            ("sender"@, JsonModel::Str(party_text(d[0]))),
            ("token"@, JsonModel::Str(token)),
        ]))
        },
    },
    },
    }
}

fn parse_tip(event: &RawContractEvent) -> (r: Result<JsonValue, ParserError>)
    ensures
        outcome_model(r) == tip_fields(event.topic_model(), event.value@),
{
    let creator = match topic_value(event, 1, "creator") {
        Ok(x) => x,
        Err(e) => {
            return Err(e);
        },
    };
    let token = match topic_value(event, 2, "token") {
        Ok(x) => x,
        Err(e) => {
            return Err(e);
        },
    };
    let data = match value_array(event, "tip") {
        Ok(d) => d,
        Err(e) => {
            return Err(e);
        },
    };
    let ghost d = items_model(data@);
    if data.len() < 2 {
        return Err(payload_err("tip", "expected [sender, amount]"));
    }
    let mut members: Vec<(String, JsonValue)> = Vec::new();
    members.push(member_of("amount", JsonValue::Str(value_to_i128(&data[1]))));
    members.push(member_of("creator", JsonValue::Str(creator)));
    members.push(member_of("sender", JsonValue::Str(party_of(&data[0]))));
    members.push(member_of("token", JsonValue::Str(token)));
    proof {
        assert(members_model(members@) =~= seq![
            ("amount"@, JsonModel::Str(amount_text(d[1]))),
            ("creator"@, JsonModel::Str(creator@)),
            ("sender"@, JsonModel::Str(party_text(d[0]))),
            ("token"@, JsonModel::Str(token@)),
        ]);
    }
    let r = object_of(members);
    Ok(r)
}

/// Fields of a `tip_msg` event: topics `[tip_msg, creator]`, payload `[sender, amount, message, metadata]`.
pub open spec fn tip_message_fields(t: Seq<JsonModel>, v: JsonModel) -> Result<JsonModel, ParserErrorModel> {
    match topic_field(t, 1, "creator"@) {
        Err(e) => Err(e),
        Ok(creator) => match payload_items(v, "tip_msg"@) {
        Err(e) => Err(e),
        Ok(d) => if d.len() < 4 {
            Err(payload_error("tip_msg"@, "expected [sender, amount, message, metadata]"@))
        } else {
            Ok(JsonModel::Object(seq![
            ("amount"@, JsonModel::Str(amount_text(d[1]))),
            ("creator"@, JsonModel::Str(creator)),
            ("message"@, JsonModel::Str(message_text(d[2]))),
            ("metadata"@, d[3]),
            ("sender"@, JsonModel::Str(party_text(d[0]))),
        ]))
        },
    },
    }
}

fn parse_tip_message(event: &RawContractEvent) -> (r: Result<JsonValue, ParserError>)
    ensures
        outcome_model(r) == tip_message_fields(event.topic_model(), event.value@),
{
    let creator = match topic_value(event, 1, "creator") {
        Ok(x) => x,
        Err(e) => {
            return Err(e);
        },
    };
    let data = match value_array(event, "tip_msg") {
        Ok(d) => d,
        Err(e) => {
            return Err(e);
        },
    };
    let ghost d = items_model(data@);
    if data.len() < 4 {
        return Err(payload_err("tip_msg", "expected [sender, amount, message, metadata]"));
    }
    let mut members: Vec<(String, JsonValue)> = Vec::new();
    members.push(member_of("amount", JsonValue::Str(value_to_i128(&data[1]))));
    members.push(member_of("creator", JsonValue::Str(creator)));
    members.push(member_of("message", JsonValue::Str(message_of(&data[2]))));
    members.push(member_of("metadata", (&data[3]).duplicate()));
    members.push(member_of("sender", JsonValue::Str(party_of(&data[0]))));
    proof {
        assert(members_model(members@) =~= seq![
            ("amount"@, JsonModel::Str(amount_text(d[1]))),
            ("creator"@, JsonModel::Str(creator@)),
            ("message"@, JsonModel::Str(message_text(d[2]))),
            ("metadata"@, d[3]),
            ("sender"@, JsonModel::Str(party_text(d[0]))),
        ]);
    }
    let r = object_of(members);
    Ok(r)
}

/// Fields of a `withdraw` event: topics `[withdraw, creator, token]`, payload the amount.
pub open spec fn withdraw_fields(t: Seq<JsonModel>, v: JsonModel) -> Result<JsonModel, ParserErrorModel> {
    match topic_field(t, 1, "creator"@) {
        Err(e) => Err(e),
        Ok(creator) => match topic_field(t, 2, "token"@) {
        Err(e) => Err(e),
        Ok(token) => Ok(JsonModel::Object(seq![
            ("amount"@, JsonModel::Str(amount_text(v))),
            ("creator"@, JsonModel::Str(creator)),
            ("token"@, JsonModel::Str(token)),
        ])),
    },
    }
}

fn parse_withdraw(event: &RawContractEvent) -> (r: Result<JsonValue, ParserError>)
    ensures
        outcome_model(r) == withdraw_fields(event.topic_model(), event.value@),
{
    let creator = match topic_value(event, 1, "creator") {
        Ok(x) => x,
        Err(e) => {
            return Err(e);
        },
    };
    let token = match topic_value(event, 2, "token") {
        Ok(x) => x,
        Err(e) => {
            return Err(e);
        },
    };
    let mut members: Vec<(String, JsonValue)> = Vec::new();
    members.push(member_of("amount", JsonValue::Str(value_to_i128(&event.value))));
    members.push(member_of("creator", JsonValue::Str(creator)));
    members.push(member_of("token", JsonValue::Str(token)));
    proof {
        assert(members_model(members@) =~= seq![
            ("amount"@, JsonModel::Str(amount_text(event.value@))),
            ("creator"@, JsonModel::Str(creator@)),
            ("token"@, JsonModel::Str(token@)),
        ]);
    }
    let r = object_of(members);
    Ok(r)
}

/// Fields of a `tip_lckd` event: topics `[tip_lckd, creator, token]`, payload `[tip_id, sender, amount, unlock_timestamp]`.
pub open spec fn tip_locked_fields(t: Seq<JsonModel>, v: JsonModel) -> Result<JsonModel, ParserErrorModel> {
    match topic_field(t, 1, "creator"@) {
        Err(e) => Err(e),
        Ok(creator) => match topic_field(t, 2, "token"@) {
        Err(e) => Err(e),
        Ok(token) => match payload_items(v, "tip_lckd"@) {
        Err(e) => Err(e),
        Ok(d) => if d.len() < 4 {
            Err(payload_error("tip_lckd"@, "expected [tip_id, sender, amount, unlock_timestamp]"@))
        } else {
            Ok(JsonModel::Object(seq![
            ("amount"@, JsonModel::Str(amount_text(d[2]))),
            ("creator"@, JsonModel::Str(creator)),
            ("sender"@, JsonModel::Str(party_text(d[1]))),
            ("tip_id"@, JsonModel::Number(dec(value_u64(d[0]) as nat))),
            ("token"@, JsonModel::Str(token)),
            ("unlock_timestamp"@, JsonModel::Number(dec(value_u64(d[3]) as nat))),
        ]))
        },
    },
    },
    }
}

fn parse_tip_locked(event: &RawContractEvent) -> (r: Result<JsonValue, ParserError>)
    ensures
        outcome_model(r) == tip_locked_fields(event.topic_model(), event.value@),
{
    let creator = match topic_value(event, 1, "creator") {
        Ok(x) => x,
        Err(e) => {
            return Err(e);
        },
    };
    let token = match topic_value(event, 2, "token") {
        Ok(x) => x,
        Err(e) => {
            return Err(e);
        },
    };
    let data = match value_array(event, "tip_lckd") {
        Ok(d) => d,
        Err(e) => {
            return Err(e);
        },
    };
    let ghost d = items_model(data@);
    if data.len() < 4 {
        return Err(payload_err("tip_lckd", "expected [tip_id, sender, amount, unlock_timestamp]"));
    }
    let mut members: Vec<(String, JsonValue)> = Vec::new();
    members.push(member_of("amount", JsonValue::Str(value_to_i128(&data[2]))));
    members.push(member_of("creator", JsonValue::Str(creator)));
    members.push(member_of("sender", JsonValue::Str(party_of(&data[1]))));
    members.push(member_of("tip_id", u64_number(value_to_u64(&data[0]))));
    members.push(member_of("token", JsonValue::Str(token)));
    members.push(member_of("unlock_timestamp", u64_number(value_to_u64(&data[3]))));
    proof {
        assert(members_model(members@) =~= seq![
            ("amount"@, JsonModel::Str(amount_text(d[2]))),
            ("creator"@, JsonModel::Str(creator@)),
            ("sender"@, JsonModel::Str(party_text(d[1]))),
            ("tip_id"@, JsonModel::Number(dec(value_u64(d[0]) as nat))),
            ("token"@, JsonModel::Str(token@)),
            ("unlock_timestamp"@, JsonModel::Number(dec(value_u64(d[3]) as nat))),
        ]);
    }
    let r = object_of(members);
    Ok(r)
}

/// Fields of a `lck_wdrw` event: topics `[lck_wdrw, creator, token]`, payload `[tip_id, amount]`.
pub open spec fn withdraw_locked_fields(t: Seq<JsonModel>, v: JsonModel) -> Result<JsonModel, ParserErrorModel> {
    match topic_field(t, 1, "creator"@) {
        Err(e) => Err(e),
        Ok(creator) => match topic_field(t, 2, "token"@) {
        Err(e) => Err(e),
        Ok(token) => match payload_items(v, "lck_wdrw"@) {
        Err(e) => Err(e),
        Ok(d) => if d.len() < 2 {
            Err(payload_error("lck_wdrw"@, "expected [tip_id, amount]"@))
        } else {
            Ok(JsonModel::Object(seq![
            ("amount"@, JsonModel::Str(amount_text(d[1]))),
            ("creator"@, JsonModel::Str(creator)),
            ("tip_id"@, JsonModel::Number(dec(value_u64(d[0]) as nat))),
            ("token"@, JsonModel::Str(token)),
        ]))
        },
    },
    },
    }
}

fn parse_withdraw_locked(event: &RawContractEvent) -> (r: Result<JsonValue, ParserError>)
    ensures
        outcome_model(r) == withdraw_locked_fields(event.topic_model(), event.value@),
{
    let creator = match topic_value(event, 1, "creator") {
        Ok(x) => x,
        Err(e) => {
            return Err(e);
        },
    };
    let token = match topic_value(event, 2, "token") {
        Ok(x) => x,
        Err(e) => {
            return Err(e);
        },
    };
    let data = match value_array(event, "lck_wdrw") {
        Ok(d) => d,
        Err(e) => {
            return Err(e);
        },
    };
    let ghost d = items_model(data@);
    if data.len() < 2 {
        return Err(payload_err("lck_wdrw", "expected [tip_id, amount]"));
    }
    let mut members: Vec<(String, JsonValue)> = Vec::new();
    members.push(member_of("amount", JsonValue::Str(value_to_i128(&data[1]))));
    members.push(member_of("creator", JsonValue::Str(creator)));
    members.push(member_of("tip_id", u64_number(value_to_u64(&data[0]))));
    members.push(member_of("token", JsonValue::Str(token)));
    proof {
        assert(members_model(members@) =~= seq![
            ("amount"@, JsonModel::Str(amount_text(d[1]))),
            ("creator"@, JsonModel::Str(creator@)),
            ("tip_id"@, JsonModel::Number(dec(value_u64(d[0]) as nat))),
            ("token"@, JsonModel::Str(token@)),
        ]);
    }
    let r = object_of(members);
    Ok(r)
}

/// Fields of a `ref_req` event: topics `[ref_req, creator]`, payload `[tip_id, sender]`.
pub open spec fn refund_request_fields(t: Seq<JsonModel>, v: JsonModel) -> Result<JsonModel, ParserErrorModel> {
    match topic_field(t, 1, "creator"@) {
        Err(e) => Err(e),
        Ok(creator) => match payload_items(v, "ref_req"@) {
        Err(e) => Err(e),
        Ok(d) => if d.len() < 2 {
            Err(payload_error("ref_req"@, "expected [tip_id, sender]"@))
        } else {
            Ok(JsonModel::Object(seq![
            ("creator"@, JsonModel::Str(creator)),
            ("sender"@, JsonModel::Str(party_text(d[1]))),
            ("tip_id"@, JsonModel::Number(dec(value_u64(d[0]) as nat))),
        ]))
        },
    },
    }
}

fn parse_refund_request(event: &RawContractEvent) -> (r: Result<JsonValue, ParserError>)
    ensures
        outcome_model(r) == refund_request_fields(event.topic_model(), event.value@),
{
    let creator = match topic_value(event, 1, "creator") {
        Ok(x) => x,
        Err(e) => {
            return Err(e);
        },
    };
    let data = match value_array(event, "ref_req") {
        Ok(d) => d,
        Err(e) => {
            return Err(e);
        },
    };
    let ghost d = items_model(data@);
    if data.len() < 2 {
        return Err(payload_err("ref_req", "expected [tip_id, sender]"));
    }
    let mut members: Vec<(String, JsonValue)> = Vec::new();
    members.push(member_of("creator", JsonValue::Str(creator)));
    members.push(member_of("sender", JsonValue::Str(party_of(&data[1]))));
    members.push(member_of("tip_id", u64_number(value_to_u64(&data[0]))));
    proof {
        assert(members_model(members@) =~= seq![
            ("creator"@, JsonModel::Str(creator@)),
            ("sender"@, JsonModel::Str(party_text(d[1]))),
            ("tip_id"@, JsonModel::Number(dec(value_u64(d[0]) as nat))),
        ]);
    }
    let r = object_of(members);
    Ok(r)
}

/// Fields of a `role_grnt` or `role_rvk` event: topics `[symbol, target, role]`, payload the caller.
pub open spec fn role_event_fields(t: Seq<JsonModel>, v: JsonModel) -> Result<JsonModel, ParserErrorModel> {
    match topic_field(t, 1, "target"@) {
        Err(e) => Err(e),
        Ok(target) => match topic_field(t, 2, "role"@) {
        Err(e) => Err(e),
        Ok(role) => Ok(JsonModel::Object(seq![
            ("caller"@, JsonModel::Str(party_text(v))),
            ("role"@, JsonModel::Str(role)),
            ("target"@, JsonModel::Str(target)),
        ])),
    },
    }
}

fn parse_role_event(event: &RawContractEvent) -> (r: Result<JsonValue, ParserError>)
    ensures
        outcome_model(r) == role_event_fields(event.topic_model(), event.value@),
{
    let target = match topic_value(event, 1, "target") {
        Ok(x) => x,
        Err(e) => {
            return Err(e);
        },
    };
    let role = match topic_value(event, 2, "role") {
        Ok(x) => x,
        Err(e) => {
            return Err(e);
        },
    };
    let mut members: Vec<(String, JsonValue)> = Vec::new();
    members.push(member_of("caller", JsonValue::Str(party_of(&event.value))));
    members.push(member_of("role", JsonValue::Str(role)));
    members.push(member_of("target", JsonValue::Str(target)));
    proof {
        assert(members_model(members@) =~= seq![
            ("caller"@, JsonModel::Str(party_text(event.value@))),
            ("role"@, JsonModel::Str(role@)),
            ("target"@, JsonModel::Str(target@)),
        ]);
    }
    let r = object_of(members);
    Ok(r)
}

/// Fields of a `match_new` event: topics `[match_new, creator, token]`, payload `[sponsor, program_id, match_ratio, max_match_amount]`.
pub open spec fn match_new_fields(t: Seq<JsonModel>, v: JsonModel) -> Result<JsonModel, ParserErrorModel> {
    match topic_field(t, 1, "creator"@) {
        Err(e) => Err(e),
        Ok(creator) => match topic_field(t, 2, "token"@) {
        Err(e) => Err(e),
        Ok(token) => match payload_items(v, "match_new"@) {
        Err(e) => Err(e),
        Ok(d) => if d.len() < 4 {
            Err(payload_error("match_new"@, "expected [sponsor, program_id, match_ratio, max_match_amount]"@))
        } else {
            Ok(JsonModel::Object(seq![
            ("creator"@, JsonModel::Str(creator)),
            ("match_ratio"@, JsonModel::Number(dec(value_u64(d[2]) as nat))),
            ("max_match_amount"@, JsonModel::Str(amount_text(d[3]))),
            ("program_id"@, JsonModel::Number(dec(value_u64(d[1]) as nat))),
            ("sponsor"@, JsonModel::Str(party_text(d[0]))),
            ("token"@, JsonModel::Str(token)),
        ]))
        },
    },
    },
    }
}

fn parse_match_new(event: &RawContractEvent) -> (r: Result<JsonValue, ParserError>)
    ensures
        outcome_model(r) == match_new_fields(event.topic_model(), event.value@),
{
    let creator = match topic_value(event, 1, "creator") {
        Ok(x) => x,
        Err(e) => {
            return Err(e);
        },
    };
    let token = match topic_value(event, 2, "token") {
        Ok(x) => x,
        Err(e) => {
            return Err(e);
        },
    };
    let data = match value_array(event, "match_new") {
        Ok(d) => d,
        Err(e) => {
            return Err(e);
        },
    };
    let ghost d = items_model(data@);
    if data.len() < 4 {
        return Err(payload_err("match_new", "expected [sponsor, program_id, match_ratio, max_match_amount]"));
    }
    let mut members: Vec<(String, JsonValue)> = Vec::new();
    members.push(member_of("creator", JsonValue::Str(creator)));
    members.push(member_of("match_ratio", u64_number(value_to_u64(&data[2]))));
    members.push(member_of("max_match_amount", JsonValue::Str(value_to_i128(&data[3]))));
    members.push(member_of("program_id", u64_number(value_to_u64(&data[1]))));
    members.push(member_of("sponsor", JsonValue::Str(party_of(&data[0]))));
    members.push(member_of("token", JsonValue::Str(token)));
    proof {
        assert(members_model(members@) =~= seq![
            ("creator"@, JsonModel::Str(creator@)),
            ("match_ratio"@, JsonModel::Number(dec(value_u64(d[2]) as nat))),
            ("max_match_amount"@, JsonModel::Str(amount_text(d[3]))),
            ("program_id"@, JsonModel::Number(dec(value_u64(d[1]) as nat))),
            ("sponsor"@, JsonModel::Str(party_text(d[0]))),
            ("token"@, JsonModel::Str(token@)),
        ]);
    }
    let r = object_of(members);
    Ok(r)
}

/// Fields of a `tip_match` event: topics `[tip_match, creator, token]`, payload `[sender, amount, matched_amount]`.
pub open spec fn tip_match_fields(t: Seq<JsonModel>, v: JsonModel) -> Result<JsonModel, ParserErrorModel> {
    match topic_field(t, 1, "creator"@) {
        Err(e) => Err(e),
        Ok(creator) => match topic_field(t, 2, "token"@) {
        Err(e) => Err(e),
        Ok(token) => match payload_items(v, "tip_match"@) {
        Err(e) => Err(e),
        Ok(d) => if d.len() < 3 {
            Err(payload_error("tip_match"@, "expected [sender, amount, matched_amount]"@))
        } else {
            Ok(JsonModel::Object(seq![
            ("amount"@, JsonModel::Str(amount_text(d[1]))),
            ("creator"@, JsonModel::Str(creator)),
            ("matched_amount"@, JsonModel::Str(amount_text(d[2]))),
            ("sender"@, JsonModel::Str(party_text(d[0]))),
            ("token"@, JsonModel::Str(token)),
        ]))
        },
    },
    },
    }
}

fn parse_tip_match(event: &RawContractEvent) -> (r: Result<JsonValue, ParserError>)
    ensures
        outcome_model(r) == tip_match_fields(event.topic_model(), event.value@),
{
    let creator = match topic_value(event, 1, "creator") {
        Ok(x) => x,
        Err(e) => {
            return Err(e);
        },
    };
    let token = match topic_value(event, 2, "token") {
        Ok(x) => x,
        Err(e) => {
            return Err(e);
        },
    };
    let data = match value_array(event, "tip_match") {
        Ok(d) => d,
        Err(e) => {
            return Err(e);
        },
    };
    let ghost d = items_model(data@);
    if data.len() < 3 {
        return Err(payload_err("tip_match", "expected [sender, amount, matched_amount]"));
    }
    let mut members: Vec<(String, JsonValue)> = Vec::new();
    members.push(member_of("amount", JsonValue::Str(value_to_i128(&data[1]))));
    members.push(member_of("creator", JsonValue::Str(creator)));
    members.push(member_of("matched_amount", JsonValue::Str(value_to_i128(&data[2]))));
    members.push(member_of("sender", JsonValue::Str(party_of(&data[0]))));
    members.push(member_of("token", JsonValue::Str(token)));
    proof {
        assert(members_model(members@) =~= seq![
            ("amount"@, JsonModel::Str(amount_text(d[1]))),
            ("creator"@, JsonModel::Str(creator@)),
            ("matched_amount"@, JsonModel::Str(amount_text(d[2]))),
            ("sender"@, JsonModel::Str(party_text(d[0]))),
            ("token"@, JsonModel::Str(token@)),
        ]);
    }
    let r = object_of(members);
    Ok(r)
}

/// Fields of a `match_end` event: topics `[match_end, creator, token]`, payload `[sponsor, program_id, unspent]`.
pub open spec fn match_end_fields(t: Seq<JsonModel>, v: JsonModel) -> Result<JsonModel, ParserErrorModel> {
    match topic_field(t, 1, "creator"@) {
        Err(e) => Err(e),
        Ok(creator) => match topic_field(t, 2, "token"@) {
        Err(e) => Err(e),
        Ok(token) => match payload_items(v, "match_end"@) {
        Err(e) => Err(e),
        Ok(d) => if d.len() < 3 {
            Err(payload_error("match_end"@, "expected [sponsor, program_id, unspent]"@))
        } else {
            Ok(JsonModel::Object(seq![
            ("creator"@, JsonModel::Str(creator)),
            ("program_id"@, JsonModel::Number(dec(value_u64(d[1]) as nat))),
            ("sponsor"@, JsonModel::Str(party_text(d[0]))),
            ("token"@, JsonModel::Str(token)),
            ("unspent"@, JsonModel::Str(amount_text(d[2]))),
        ]))
        },
    },
    },
    }
}

fn parse_match_end(event: &RawContractEvent) -> (r: Result<JsonValue, ParserError>)
    ensures
        outcome_model(r) == match_end_fields(event.topic_model(), event.value@),
{
    let creator = match topic_value(event, 1, "creator") {
        Ok(x) => x,
        Err(e) => {
            return Err(e);
        },
    };
    let token = match topic_value(event, 2, "token") {
        Ok(x) => x,
        Err(e) => {
            return Err(e);
        },
    };
    let data = match value_array(event, "match_end") {
        Ok(d) => d,
        Err(e) => {
            return Err(e);
        },
    };
    let ghost d = items_model(data@);
    if data.len() < 3 {
        return Err(payload_err("match_end", "expected [sponsor, program_id, unspent]"));
    }
    let mut members: Vec<(String, JsonValue)> = Vec::new();
    members.push(member_of("creator", JsonValue::Str(creator)));
    members.push(member_of("program_id", u64_number(value_to_u64(&data[1]))));
    members.push(member_of("sponsor", JsonValue::Str(party_of(&data[0]))));
    members.push(member_of("token", JsonValue::Str(token)));
    members.push(member_of("unspent", JsonValue::Str(value_to_i128(&data[2]))));
    proof {
        assert(members_model(members@) =~= seq![
            ("creator"@, JsonModel::Str(creator@)),
            ("program_id"@, JsonModel::Number(dec(value_u64(d[1]) as nat))),
            ("sponsor"@, JsonModel::Str(party_text(d[0]))),
            ("token"@, JsonModel::Str(token@)),
            ("unspent"@, JsonModel::Str(amount_text(d[2]))),
        ]);
    }
    let r = object_of(members);
    Ok(r)
}

/// Fields of an `upgraded` event: topics `[upgraded, admin]`, payload the version.
pub open spec fn upgraded_fields(t: Seq<JsonModel>, v: JsonModel) -> Result<JsonModel, ParserErrorModel> {
    match topic_field(t, 1, "admin"@) {
        Err(e) => Err(e),
        Ok(admin) => Ok(JsonModel::Object(seq![
            ("admin"@, JsonModel::Str(admin)),
            ("version"@, JsonModel::Number(dec(value_u64(v) as nat))),
        ])),
    }
}

fn parse_upgraded(event: &RawContractEvent) -> (r: Result<JsonValue, ParserError>)
    ensures
        outcome_model(r) == upgraded_fields(event.topic_model(), event.value@),
{
    let admin = match topic_value(event, 1, "admin") {
        Ok(x) => x,
        Err(e) => {
            return Err(e);
        },
    };
    let mut members: Vec<(String, JsonValue)> = Vec::new();
    members.push(member_of("admin", JsonValue::Str(admin)));
    members.push(member_of("version", u64_number(value_to_u64(&event.value))));
    proof {
        assert(members_model(members@) =~= seq![
            ("admin"@, JsonModel::Str(admin@)),
            ("version"@, JsonModel::Number(dec(value_u64(event.value@) as nat))),
        ]);
    }
    let r = object_of(members);
    Ok(r)
}

/// Fields of a `refund` event, or of a `ref_appr` event when `approved`: topics `[symbol, creator]`, payload `[tip_id, sender, amount]`.
pub open spec fn refund_fields(t: Seq<JsonModel>, v: JsonModel, approved: bool) -> Result<JsonModel, ParserErrorModel> {
    match topic_field(t, 1, "creator"@) {
        Err(e) => Err(e),
        Ok(creator) => match payload_items(v, refund_label(approved)) {
        Err(e) => Err(e),
        Ok(d) => if d.len() < 3 {
            Err(payload_error(refund_label(approved), "expected [tip_id, sender, amount]"@))
        } else {
            Ok(JsonModel::Object(seq![
            ("amount"@, JsonModel::Str(amount_text(d[2]))),
            ("creator"@, JsonModel::Str(creator)),
            ("sender"@, JsonModel::Str(party_text(d[1]))),
            ("tip_id"@, JsonModel::Number(dec(value_u64(d[0]) as nat))),
        ]))
        },
    },
    }
}

fn parse_refund(event: &RawContractEvent, approved: bool) -> (r: Result<JsonValue, ParserError>)
    ensures
        outcome_model(r) == refund_fields(event.topic_model(), event.value@, approved),
{
    let creator = match topic_value(event, 1, "creator") {
        Ok(x) => x,
        Err(e) => {
            return Err(e);
        },
    };
    let data = match value_array(event, if approved { "ref_appr" } else { "refund" }) {
        Ok(d) => d,
        Err(e) => {
            return Err(e);
        },
    };
    let ghost d = items_model(data@);
    if data.len() < 3 {
        return Err(payload_err(if approved { "ref_appr" } else { "refund" }, "expected [tip_id, sender, amount]"));
    }
    let mut members: Vec<(String, JsonValue)> = Vec::new();
    members.push(member_of("amount", JsonValue::Str(value_to_i128(&data[2]))));
    members.push(member_of("creator", JsonValue::Str(creator)));
    members.push(member_of("sender", JsonValue::Str(party_of(&data[1]))));
    members.push(member_of("tip_id", u64_number(value_to_u64(&data[0]))));
    proof {
        assert(members_model(members@) =~= seq![
            ("amount"@, JsonModel::Str(amount_text(d[2]))),
            ("creator"@, JsonModel::Str(creator@)),
            ("sender"@, JsonModel::Str(party_text(d[1]))),
            ("tip_id"@, JsonModel::Number(dec(value_u64(d[0]) as nat))),
        ]);
    }
    let r = object_of(members);
    Ok(r)
}

/// A decoded event of kind `kind` under topic `sym`, or the failure to decode its fields.
pub open spec fn with_kind(kind: EventKind, sym: Seq<char>, fields: Result<JsonModel, ParserErrorModel>) -> Result<
    ParsedModel,
    ParserErrorModel,
> {
    match fields {
        Ok(f) => Ok(ParsedModel { kind, topic: sym, fields: f }),
        Err(e) => Err(e),
    }
}

/// How an event with topic entries `t` and payload `v` decodes. The symbol of the first
/// topic entry selects the layout; a symbol of no known layout still decodes, as
/// [`EventKind::Unknown`] with the raw topic and payload as its fields.
pub open spec fn spec_parse_event(t: Seq<JsonModel>, v: JsonModel) -> Result<ParsedModel, ParserErrorModel> {
    if t.len() == 0 {
        Err(ParserErrorModel::MissingTopic)
    } else if topic_symbol_of(t[0]) is None {
        Err(ParserErrorModel::InvalidTopic)
    } else {
        let sym = topic_symbol_of(t[0])->0;
        if sym == "tip"@ {
            with_kind(EventKind::Tip, sym, tip_fields(t, v))
        } else if sym == "tip_msg"@ {
            with_kind(EventKind::TipWithMessage, sym, tip_message_fields(t, v))
        } else if sym == "withdraw"@ {
            with_kind(EventKind::Withdraw, sym, withdraw_fields(t, v))
        } else if sym == "tip_lckd"@ {
            with_kind(EventKind::TipLocked, sym, tip_locked_fields(t, v))
        } else if sym == "lck_wdrw"@ {
            with_kind(EventKind::WithdrawLocked, sym, withdraw_locked_fields(t, v))
        } else if sym == "refund"@ {
            with_kind(EventKind::Refund, sym, refund_fields(t, v, false))
        } else if sym == "ref_req"@ {
            with_kind(EventKind::RefundRequested, sym, refund_request_fields(t, v))
        } else if sym == "ref_appr"@ {
            with_kind(EventKind::RefundApproved, sym, refund_fields(t, v, true))
        } else if sym == "role_grnt"@ {
            with_kind(EventKind::RoleGranted, sym, role_event_fields(t, v))
        } else if sym == "role_rvk"@ {
            with_kind(EventKind::RoleRevoked, sym, role_event_fields(t, v))
        } else if sym == "match_new"@ {
            with_kind(EventKind::MatchCreated, sym, match_new_fields(t, v))
        } else if sym == "tip_match"@ {
            with_kind(EventKind::MatchApplied, sym, tip_match_fields(t, v))
        } else if sym == "match_end"@ {
            with_kind(EventKind::MatchCancelled, sym, match_end_fields(t, v))
        } else if sym == "upgraded"@ {
            with_kind(EventKind::Upgraded, sym, upgraded_fields(t, v))
        } else {
            Ok(ParsedModel {
                kind: EventKind::Unknown,
                topic: sym,
                fields: JsonModel::Object(seq![("raw_topic"@, JsonModel::Array(t)), ("raw_value"@, v)]),
            })
        }
    }
}

/// Decodes a contract event according to the symbol of its first topic entry.
pub fn parse_event(event: &RawContractEvent) -> (r: Result<ParsedEvent, ParserError>)
    ensures
        outcome_model(r) == spec_parse_event(event.topic_model(), event.value@),
{
    proof {
        lemma_array_model(event.topic);
    }
    let ghost t = event.topic_model();
    let ghost v = event.value@;
    if event.topic.len() == 0 {
        return Err(ParserError::MissingTopic);
    }
    let sym = match topic_symbol(&event.topic[0]) {
        Some(s) => s,
        None => {
            return Err(ParserError::InvalidTopic);
        },
    };
    let (kind, fields) = if str_eq(sym.as_str(), "tip") {
        (EventKind::Tip, parse_tip(event))
    } else if str_eq(sym.as_str(), "tip_msg") {
        (EventKind::TipWithMessage, parse_tip_message(event))
    } else if str_eq(sym.as_str(), "withdraw") {
        (EventKind::Withdraw, parse_withdraw(event))
    } else if str_eq(sym.as_str(), "tip_lckd") {
        (EventKind::TipLocked, parse_tip_locked(event))
    } else if str_eq(sym.as_str(), "lck_wdrw") {
        (EventKind::WithdrawLocked, parse_withdraw_locked(event))
    } else if str_eq(sym.as_str(), "refund") {
        (EventKind::Refund, parse_refund(event, false))
    } else if str_eq(sym.as_str(), "ref_req") {
        (EventKind::RefundRequested, parse_refund_request(event))
    } else if str_eq(sym.as_str(), "ref_appr") {
        (EventKind::RefundApproved, parse_refund(event, true))
    } else if str_eq(sym.as_str(), "role_grnt") {
        (EventKind::RoleGranted, parse_role_event(event))
    } else if str_eq(sym.as_str(), "role_rvk") {
        (EventKind::RoleRevoked, parse_role_event(event))
    } else if str_eq(sym.as_str(), "match_new") {
        (EventKind::MatchCreated, parse_match_new(event))
    } else if str_eq(sym.as_str(), "tip_match") {
        (EventKind::MatchApplied, parse_tip_match(event))
    } else if str_eq(sym.as_str(), "match_end") {
        (EventKind::MatchCancelled, parse_match_end(event))
    } else if str_eq(sym.as_str(), "upgraded") {
        (EventKind::Upgraded, parse_upgraded(event))
    } else {
        let mut topics: Vec<JsonValue> = Vec::new();
        let n = event.topic.len();
        for i in 0..n
            invariant
                n == event.topic@.len(),
                topics@.len() == i,
                forall|j: int| 0 <= j < i ==> #[trigger] topics@[j]@ == event.topic@[j]@,
        {
            topics.push(event.topic[i].duplicate());
        }
        proof {
            lemma_array_model(topics);
            assert forall|j: int| 0 <= j < n implies #[trigger] items_model(topics@)[j] == t[j] by {
                assert(topics@[j]@ == event.topic@[j]@);
            }
            assert(items_model(topics@) =~= t);
        }
        let mut members: Vec<(String, JsonValue)> = Vec::new();
        members.push(member_of("raw_topic", JsonValue::Array(topics)));
        members.push(member_of("raw_value", event.value.duplicate()));
        proof {
            assert(members_model(members@) =~= seq![("raw_topic"@, JsonModel::Array(t)), ("raw_value"@, v)]);
        }
        return Ok(ParsedEvent { kind: EventKind::Unknown, topic: sym, fields: object_of(members) });
    };
    match fields {
        Ok(f) => Ok(ParsedEvent { kind, topic: sym, fields: f }),
        Err(e) => Err(e),
    }
}

impl ParserError {
    /// The human-readable description of this failure.
    pub open spec fn spec_message(&self) -> Seq<char> {
        match self {
            ParserError::MissingTopic => "event has no topic entries"@,
            ParserError::InvalidTopic => "topic[0] is not a recognizable symbol"@,
            ParserError::InvalidPayload { topic, reason } => "malformed payload for topic "@ + topic@
                + ": "@ + reason@,
        }
    }

    /// The human-readable description of this failure.
    pub fn message(&self) -> (r: String)
        ensures
            r@ == self.spec_message(),
    {
        match self {
            ParserError::MissingTopic => owned("event has no topic entries"),
            ParserError::InvalidTopic => owned("topic[0] is not a recognizable symbol"),
            ParserError::InvalidPayload { topic, reason } => {
                let head = join2("malformed payload for topic ", topic.as_str());
                crate::text::join3(head.as_str(), ": ", reason.as_str())
            },
        }
    }
}

/// The kind of event that a topic symbol names; `Unknown` for any symbol of no known layout.
pub open spec fn kind_for_symbol(sym: Seq<char>) -> EventKind {
    if sym == "tip"@ {
        EventKind::Tip
    } else if sym == "tip_msg"@ {
        EventKind::TipWithMessage
    } else if sym == "withdraw"@ {
        EventKind::Withdraw
    } else if sym == "tip_lckd"@ {
        EventKind::TipLocked
    } else if sym == "lck_wdrw"@ {
        EventKind::WithdrawLocked
    } else if sym == "refund"@ {
        EventKind::Refund
    } else if sym == "ref_req"@ {
        EventKind::RefundRequested
    } else if sym == "ref_appr"@ {
        EventKind::RefundApproved
    } else if sym == "role_grnt"@ {
        EventKind::RoleGranted
    } else if sym == "role_rvk"@ {
        EventKind::RoleRevoked
    } else if sym == "match_new"@ {
        EventKind::MatchCreated
    } else if sym == "tip_match"@ {
        EventKind::MatchApplied
    } else if sym == "match_end"@ {
        EventKind::MatchCancelled
    } else if sym == "upgraded"@ {
        EventKind::Upgraded
    } else {
        EventKind::Unknown
    }
}

/// A decoded event carries, as its topic, the symbol of the event's first topic entry, and
/// the kind that this symbol names.
pub proof fn lemma_parsed_topic_and_kind(t: Seq<JsonModel>, v: JsonModel)
    ensures
        spec_parse_event(t, v) matches Ok(p) ==> t.len() > 0 && topic_symbol_of(t[0]) == Some(p.topic)
            && p.kind == kind_for_symbol(p.topic),
{
}

/// An event whose first topic entry is a symbol of no known layout is never rejected: it
/// decodes as `Unknown`, keeping its raw topic entries and payload as its fields.
pub proof fn lemma_unknown_topic_indexable(t: Seq<JsonModel>, v: JsonModel)
    requires
        t.len() > 0,
        topic_symbol_of(t[0]) is Some,
        kind_for_symbol(topic_symbol_of(t[0])->0) == EventKind::Unknown,
    ensures
        spec_parse_event(t, v) == Ok::<ParsedModel, ParserErrorModel>(
            ParsedModel {
                kind: EventKind::Unknown,
                topic: topic_symbol_of(t[0])->0,
                fields: JsonModel::Object(seq![("raw_topic"@, JsonModel::Array(t)), ("raw_value"@, v)]),
            },
        ),
{
}

/// Decoding fails for want of a topic exactly when there are no topic entries, and for an
/// unreadable topic exactly when the first entry names no symbol.
pub proof fn lemma_topic_failures(t: Seq<JsonModel>, v: JsonModel)
    ensures
        (spec_parse_event(t, v) == Err::<ParsedModel, ParserErrorModel>(ParserErrorModel::MissingTopic))
            <==> t.len() == 0,
        (spec_parse_event(t, v) == Err::<ParsedModel, ParserErrorModel>(ParserErrorModel::InvalidTopic))
            <==> (t.len() > 0 && topic_symbol_of(t[0]) is None),
{
}

/// A `tip_match` event whose topics are the symbol, a creator and a token (as strings,
/// possibly followed by more) and whose payload begins with a sender, the tip amount and
/// the matched amount (as strings) decodes to exactly these: the matched amount is the
/// third payload element and the amount the second.
pub proof fn lemma_tip_match_fields(
    creator: Seq<char>,
    token: Seq<char>,
    sender: Seq<char>,
    amount: Seq<char>,
    matched: Seq<char>,
    more_topics: Seq<JsonModel>,
    more_items: Seq<JsonModel>,
)
    ensures
        spec_parse_event(
            seq![JsonModel::Str("tip_match"@), JsonModel::Str(creator), JsonModel::Str(token)] + more_topics,
            JsonModel::Array(seq![JsonModel::Str(sender), JsonModel::Str(amount), JsonModel::Str(matched)] + more_items),
        ) == Ok::<ParsedModel, ParserErrorModel>(
            ParsedModel {
                kind: EventKind::MatchApplied,
                topic: "tip_match"@,
                fields: JsonModel::Object(
                    seq![
                        ("amount"@, JsonModel::Str(amount)),
                        ("creator"@, JsonModel::Str(creator)),
                        ("matched_amount"@, JsonModel::Str(matched)),
                        ("sender"@, JsonModel::Str(sender)),
                        ("token"@, JsonModel::Str(token)),
                    ],
                ),
            },
        ),
{
    reveal_strlit("tip_match");
    reveal_strlit("tip");
    reveal_strlit("tip_msg");
    reveal_strlit("withdraw");
    reveal_strlit("tip_lckd");
    reveal_strlit("lck_wdrw");
    reveal_strlit("refund");
    reveal_strlit("ref_req");
    reveal_strlit("ref_appr");
    reveal_strlit("role_grnt");
    reveal_strlit("role_rvk");
    reveal_strlit("match_new");
    let t = seq![JsonModel::Str("tip_match"@), JsonModel::Str(creator), JsonModel::Str(token)] + more_topics;
    let d = seq![JsonModel::Str(sender), JsonModel::Str(amount), JsonModel::Str(matched)] + more_items;
    assert(t[0] == JsonModel::Str("tip_match"@));
    assert(t[1] == JsonModel::Str(creator));
    assert(t[2] == JsonModel::Str(token));
    assert(d[0] == JsonModel::Str(sender));
    assert(d[1] == JsonModel::Str(amount));
    assert(d[2] == JsonModel::Str(matched));
    let sym = "tip_match"@;
    assert(sym.len() == 9);
    assert("tip"@.len() == 3 && "tip_msg"@.len() == 7 && "withdraw"@.len() == 8 && "tip_lckd"@.len() == 8);
    assert("lck_wdrw"@.len() == 8 && "refund"@.len() == 6 && "ref_req"@.len() == 7 && "ref_appr"@.len() == 8);
    assert(sym != "tip"@ && sym != "tip_msg"@ && sym != "withdraw"@ && sym != "tip_lckd"@);
    assert(sym != "lck_wdrw"@ && sym != "refund"@ && sym != "ref_req"@ && sym != "ref_appr"@);
    assert("role_rvk"@.len() == 8);
    assert(sym[0] == 't' && "role_grnt"@[0] == 'r' && "match_new"@[0] == 'm');
    assert(sym != "role_grnt"@ && sym != "role_rvk"@ && sym != "match_new"@);
    assert(topic_symbol_of(t[0]) == Some(sym));
    assert(topic_field(t, 1, "creator"@) == Ok::<Seq<char>, ParserErrorModel>(creator));
    assert(topic_field(t, 2, "token"@) == Ok::<Seq<char>, ParserErrorModel>(token));
    assert(payload_items(JsonModel::Array(d), "tip_match"@) == Ok::<Seq<JsonModel>, ParserErrorModel>(d));
    assert(party_text(d[0]) == sender);
    assert(amount_text(d[1]) == amount);
    assert(amount_text(d[2]) == matched);
}

/// A `tip` event whose topics are the symbol and then creator, token (as strings,
/// possibly followed by more), whose payload begins with sender, amount (text fields as
/// strings, numeric fields as decimal JSON numbers), decodes to exactly
/// these, each field taken from its own position.
pub proof fn lemma_tip_fields(
    creator: Seq<char>,
    token: Seq<char>,
    sender: Seq<char>,
    amount: Seq<char>,
    more_topics: Seq<JsonModel>,
    more_items: Seq<JsonModel>,
)
    ensures
        spec_parse_event(
            seq![JsonModel::Str("tip"@), JsonModel::Str(creator), JsonModel::Str(token)] + more_topics,
            JsonModel::Array(seq![JsonModel::Str(sender), JsonModel::Str(amount)] + more_items),
        ) == Ok::<ParsedModel, ParserErrorModel>(
            ParsedModel {
                kind: EventKind::Tip,
                topic: "tip"@,
                fields: JsonModel::Object(
                    seq![
                        ("amount"@, JsonModel::Str(amount)),
                        ("creator"@, JsonModel::Str(creator)),
                        ("sender"@, JsonModel::Str(sender)),
                        ("token"@, JsonModel::Str(token)),
                    ],
                ),
            },
        ),
{
    reveal_strlit("tip");
    let t = seq![JsonModel::Str("tip"@), JsonModel::Str(creator), JsonModel::Str(token)] + more_topics;
    assert(t[0] == JsonModel::Str("tip"@));
    assert(t[1] == JsonModel::Str(creator));
    assert(t[2] == JsonModel::Str(token));
    assert(topic_symbol_of(t[0]) == Some("tip"@));
    assert(value_text(t[1]) == Some(creator));
    assert(value_text(t[2]) == Some(token));
    let d = seq![JsonModel::Str(sender), JsonModel::Str(amount)] + more_items;
    assert(d[0] == JsonModel::Str(sender));
    assert(d[1] == JsonModel::Str(amount));
}

/// A `tip_msg` event whose topics are the symbol and then creator (as strings,
/// possibly followed by more), whose payload begins with sender, amount, message, metadata (text fields as
/// strings, the metadata any value), decodes to exactly these, each field taken from its
/// own position and the metadata kept as it is.
pub proof fn lemma_tip_msg_fields(
    creator: Seq<char>,
    sender: Seq<char>,
    amount: Seq<char>,
    message: Seq<char>,
    metadata: JsonModel,
    more_topics: Seq<JsonModel>,
    more_items: Seq<JsonModel>,
)
    ensures
        spec_parse_event(
            seq![JsonModel::Str("tip_msg"@), JsonModel::Str(creator)] + more_topics,
            JsonModel::Array(seq![JsonModel::Str(sender), JsonModel::Str(amount), JsonModel::Str(message), metadata] + more_items),
        ) == Ok::<ParsedModel, ParserErrorModel>(
            ParsedModel {
                kind: EventKind::TipWithMessage,
                topic: "tip_msg"@,
                fields: JsonModel::Object(
                    seq![
                        ("amount"@, JsonModel::Str(amount)),
                        ("creator"@, JsonModel::Str(creator)),
                        ("message"@, JsonModel::Str(message)),
                        ("metadata"@, metadata),
                        ("sender"@, JsonModel::Str(sender)),
                    ],
                ),
            },
        ),
{
    reveal_strlit("tip_msg");
    reveal_strlit("tip");
    let t = seq![JsonModel::Str("tip_msg"@), JsonModel::Str(creator)] + more_topics;
    assert(t[0] == JsonModel::Str("tip_msg"@));
    assert(t[1] == JsonModel::Str(creator));
    assert(topic_symbol_of(t[0]) == Some("tip_msg"@));
    assert(value_text(t[1]) == Some(creator));
    let d = seq![JsonModel::Str(sender), JsonModel::Str(amount), JsonModel::Str(message), metadata] + more_items;
    assert(d[0] == JsonModel::Str(sender));
    assert(d[1] == JsonModel::Str(amount));
    assert(d[2] == JsonModel::Str(message));
    assert(d[3] == metadata);
    assert("tip_msg"@.len() == 7 && "tip"@.len() == 3);
    assert("tip_msg"@ != "tip"@);
}

/// A `withdraw` event whose topics are the symbol and then creator, token (as strings,
/// possibly followed by more), whose payload is the amount (text fields as
/// strings, numeric fields as decimal JSON numbers), decodes to exactly
/// these, each field taken from its own position.
pub proof fn lemma_withdraw_fields(
    creator: Seq<char>,
    token: Seq<char>,
    amount: Seq<char>,
    more_topics: Seq<JsonModel>,
)
    ensures
        spec_parse_event(
            seq![JsonModel::Str("withdraw"@), JsonModel::Str(creator), JsonModel::Str(token)] + more_topics,
            JsonModel::Str(amount),
        ) == Ok::<ParsedModel, ParserErrorModel>(
            ParsedModel {
                kind: EventKind::Withdraw,
                topic: "withdraw"@,
                fields: JsonModel::Object(
                    seq![
                        ("amount"@, JsonModel::Str(amount)),
                        ("creator"@, JsonModel::Str(creator)),
                        ("token"@, JsonModel::Str(token)),
                    ],
                ),
            },
        ),
{
    reveal_strlit("withdraw");
    reveal_strlit("tip");
    reveal_strlit("tip_msg");
    let t = seq![JsonModel::Str("withdraw"@), JsonModel::Str(creator), JsonModel::Str(token)] + more_topics;
    assert(t[0] == JsonModel::Str("withdraw"@));
    assert(t[1] == JsonModel::Str(creator));
    assert(t[2] == JsonModel::Str(token));
    assert(topic_symbol_of(t[0]) == Some("withdraw"@));
    assert(value_text(t[1]) == Some(creator));
    assert(value_text(t[2]) == Some(token));
    assert("withdraw"@.len() == 8 && "tip"@.len() == 3);
    assert("withdraw"@ != "tip"@);
    assert("withdraw"@.len() == 8 && "tip_msg"@.len() == 7);
    assert("withdraw"@ != "tip_msg"@);
}

/// A `tip_lckd` event whose topics are the symbol and then creator, token (as strings,
/// possibly followed by more), whose payload begins with tip id, sender, amount, unlock timestamp (text fields as
/// strings, numeric fields as decimal JSON numbers), decodes to exactly
/// these, each field taken from its own position.
pub proof fn lemma_tip_lckd_fields(
    creator: Seq<char>,
    token: Seq<char>,
    tip_id: u64,
    sender: Seq<char>,
    amount: Seq<char>,
    unlock_timestamp: u64,
    more_topics: Seq<JsonModel>,
    more_items: Seq<JsonModel>,
)
    ensures
        spec_parse_event(
            seq![JsonModel::Str("tip_lckd"@), JsonModel::Str(creator), JsonModel::Str(token)] + more_topics,
            JsonModel::Array(seq![JsonModel::Number(dec(tip_id as nat)), JsonModel::Str(sender), JsonModel::Str(amount), JsonModel::Number(dec(unlock_timestamp as nat))] + more_items),
        ) == Ok::<ParsedModel, ParserErrorModel>(
            ParsedModel {
                kind: EventKind::TipLocked,
                topic: "tip_lckd"@,
                fields: JsonModel::Object(
                    seq![
                        ("amount"@, JsonModel::Str(amount)),
                        ("creator"@, JsonModel::Str(creator)),
                        ("sender"@, JsonModel::Str(sender)),
                        ("tip_id"@, JsonModel::Number(dec(tip_id as nat))),
                        ("token"@, JsonModel::Str(token)),
                        ("unlock_timestamp"@, JsonModel::Number(dec(unlock_timestamp as nat))),
                    ],
                ),
            },
        ),
{
    reveal_strlit("tip_lckd");
    reveal_strlit("tip");
    reveal_strlit("tip_msg");
    reveal_strlit("withdraw");
    lemma_parse_dec(tip_id);
    lemma_parse_dec(unlock_timestamp);
    let t = seq![JsonModel::Str("tip_lckd"@), JsonModel::Str(creator), JsonModel::Str(token)] + more_topics;
    assert(t[0] == JsonModel::Str("tip_lckd"@));
    assert(t[1] == JsonModel::Str(creator));
    assert(t[2] == JsonModel::Str(token));
    assert(topic_symbol_of(t[0]) == Some("tip_lckd"@));
    assert(value_text(t[1]) == Some(creator));
    assert(value_text(t[2]) == Some(token));
    let d = seq![JsonModel::Number(dec(tip_id as nat)), JsonModel::Str(sender), JsonModel::Str(amount), JsonModel::Number(dec(unlock_timestamp as nat))] + more_items;
    assert(d[0] == JsonModel::Number(dec(tip_id as nat)));
    assert(d[1] == JsonModel::Str(sender));
    assert(d[2] == JsonModel::Str(amount));
    assert(d[3] == JsonModel::Number(dec(unlock_timestamp as nat)));
    assert("tip_lckd"@.len() == 8 && "tip"@.len() == 3);
    assert("tip_lckd"@ != "tip"@);
    assert("tip_lckd"@.len() == 8 && "tip_msg"@.len() == 7);
    assert("tip_lckd"@ != "tip_msg"@);
    assert("tip_lckd"@[0] == 't' && "withdraw"@[0] == 'w');
    assert("tip_lckd"@ != "withdraw"@);
}

/// A `lck_wdrw` event whose topics are the symbol and then creator, token (as strings,
/// possibly followed by more), whose payload begins with tip id, amount (text fields as
/// strings, numeric fields as decimal JSON numbers), decodes to exactly
/// these, each field taken from its own position.
pub proof fn lemma_lck_wdrw_fields(
    creator: Seq<char>,
    token: Seq<char>,
    tip_id: u64,
    amount: Seq<char>,
    more_topics: Seq<JsonModel>,
    more_items: Seq<JsonModel>,
)
    ensures
        spec_parse_event(
            seq![JsonModel::Str("lck_wdrw"@), JsonModel::Str(creator), JsonModel::Str(token)] + more_topics,
            JsonModel::Array(seq![JsonModel::Number(dec(tip_id as nat)), JsonModel::Str(amount)] + more_items),
        ) == Ok::<ParsedModel, ParserErrorModel>(
            ParsedModel {
                kind: EventKind::WithdrawLocked,
                topic: "lck_wdrw"@,
                fields: JsonModel::Object(
                    seq![
                        ("amount"@, JsonModel::Str(amount)),
                        ("creator"@, JsonModel::Str(creator)),
                        ("tip_id"@, JsonModel::Number(dec(tip_id as nat))),
                        ("token"@, JsonModel::Str(token)),
                    ],
                ),
            },
        ),
{
    reveal_strlit("lck_wdrw");
    reveal_strlit("tip");
    reveal_strlit("tip_msg");
    reveal_strlit("withdraw");
    reveal_strlit("tip_lckd");
    lemma_parse_dec(tip_id);
    let t = seq![JsonModel::Str("lck_wdrw"@), JsonModel::Str(creator), JsonModel::Str(token)] + more_topics;
    assert(t[0] == JsonModel::Str("lck_wdrw"@));
    assert(t[1] == JsonModel::Str(creator));
    assert(t[2] == JsonModel::Str(token));
    assert(topic_symbol_of(t[0]) == Some("lck_wdrw"@));
    assert(value_text(t[1]) == Some(creator));
    assert(value_text(t[2]) == Some(token));
    let d = seq![JsonModel::Number(dec(tip_id as nat)), JsonModel::Str(amount)] + more_items;
    assert(d[0] == JsonModel::Number(dec(tip_id as nat)));
    assert(d[1] == JsonModel::Str(amount));
    assert("lck_wdrw"@.len() == 8 && "tip"@.len() == 3);
    assert("lck_wdrw"@ != "tip"@);
    assert("lck_wdrw"@.len() == 8 && "tip_msg"@.len() == 7);
    assert("lck_wdrw"@ != "tip_msg"@);
    assert("lck_wdrw"@[0] == 'l' && "withdraw"@[0] == 'w');
    assert("lck_wdrw"@ != "withdraw"@);
    assert("lck_wdrw"@[0] == 'l' && "tip_lckd"@[0] == 't');
    assert("lck_wdrw"@ != "tip_lckd"@);
}

/// A `refund` event whose topics are the symbol and then creator (as strings,
/// possibly followed by more), whose payload begins with tip id, sender, amount (text fields as
/// strings, numeric fields as decimal JSON numbers), decodes to exactly
/// these, each field taken from its own position.
pub proof fn lemma_refund_fields(
    creator: Seq<char>,
    tip_id: u64,
    sender: Seq<char>,
    amount: Seq<char>,
    more_topics: Seq<JsonModel>,
    more_items: Seq<JsonModel>,
)
    ensures
        spec_parse_event(
            seq![JsonModel::Str("refund"@), JsonModel::Str(creator)] + more_topics,
            JsonModel::Array(seq![JsonModel::Number(dec(tip_id as nat)), JsonModel::Str(sender), JsonModel::Str(amount)] + more_items),
        ) == Ok::<ParsedModel, ParserErrorModel>(
            ParsedModel {
                kind: EventKind::Refund,
                topic: "refund"@,
                fields: JsonModel::Object(
                    seq![
                        ("amount"@, JsonModel::Str(amount)),
                        ("creator"@, JsonModel::Str(creator)),
                        ("sender"@, JsonModel::Str(sender)),
                        ("tip_id"@, JsonModel::Number(dec(tip_id as nat))),
                    ],
                ),
            },
        ),
{
    reveal_strlit("refund");
    reveal_strlit("tip");
    reveal_strlit("tip_msg");
    reveal_strlit("withdraw");
    reveal_strlit("tip_lckd");
    reveal_strlit("lck_wdrw");
    lemma_parse_dec(tip_id);
    let t = seq![JsonModel::Str("refund"@), JsonModel::Str(creator)] + more_topics;
    assert(t[0] == JsonModel::Str("refund"@));
    assert(t[1] == JsonModel::Str(creator));
    assert(topic_symbol_of(t[0]) == Some("refund"@));
    assert(value_text(t[1]) == Some(creator));
    let d = seq![JsonModel::Number(dec(tip_id as nat)), JsonModel::Str(sender), JsonModel::Str(amount)] + more_items;
    assert(d[0] == JsonModel::Number(dec(tip_id as nat)));
    assert(d[1] == JsonModel::Str(sender));
    assert(d[2] == JsonModel::Str(amount));
    assert("refund"@.len() == 6 && "tip"@.len() == 3);
    assert("refund"@ != "tip"@);
    assert("refund"@.len() == 6 && "tip_msg"@.len() == 7);
    assert("refund"@ != "tip_msg"@);
    assert("refund"@.len() == 6 && "withdraw"@.len() == 8);
    assert("refund"@ != "withdraw"@);
    assert("refund"@.len() == 6 && "tip_lckd"@.len() == 8);
    assert("refund"@ != "tip_lckd"@);
    assert("refund"@.len() == 6 && "lck_wdrw"@.len() == 8);
    assert("refund"@ != "lck_wdrw"@);
}

/// A `ref_req` event whose topics are the symbol and then creator (as strings,
/// possibly followed by more), whose payload begins with tip id, sender (text fields as
/// strings, numeric fields as decimal JSON numbers), decodes to exactly
/// these, each field taken from its own position.
pub proof fn lemma_ref_req_fields(
    creator: Seq<char>,
    tip_id: u64,
    sender: Seq<char>,
    more_topics: Seq<JsonModel>,
    more_items: Seq<JsonModel>,
)
    ensures
        spec_parse_event(
            seq![JsonModel::Str("ref_req"@), JsonModel::Str(creator)] + more_topics,
            JsonModel::Array(seq![JsonModel::Number(dec(tip_id as nat)), JsonModel::Str(sender)] + more_items),
        ) == Ok::<ParsedModel, ParserErrorModel>(
            ParsedModel {
                kind: EventKind::RefundRequested,
                topic: "ref_req"@,
                fields: JsonModel::Object(
                    seq![
                        ("creator"@, JsonModel::Str(creator)),
                        ("sender"@, JsonModel::Str(sender)),
                        ("tip_id"@, JsonModel::Number(dec(tip_id as nat))),
                    ],
                ),
            },
        ),
{
    reveal_strlit("ref_req");
    reveal_strlit("tip");
    reveal_strlit("tip_msg");
    reveal_strlit("withdraw");
    reveal_strlit("tip_lckd");
    reveal_strlit("lck_wdrw");
    reveal_strlit("refund");
    lemma_parse_dec(tip_id);
    let t = seq![JsonModel::Str("ref_req"@), JsonModel::Str(creator)] + more_topics;
    assert(t[0] == JsonModel::Str("ref_req"@));
    assert(t[1] == JsonModel::Str(creator));
    assert(topic_symbol_of(t[0]) == Some("ref_req"@));
    assert(value_text(t[1]) == Some(creator));
    let d = seq![JsonModel::Number(dec(tip_id as nat)), JsonModel::Str(sender)] + more_items;
    assert(d[0] == JsonModel::Number(dec(tip_id as nat)));
    assert(d[1] == JsonModel::Str(sender));
    assert("ref_req"@.len() == 7 && "tip"@.len() == 3);
    assert("ref_req"@ != "tip"@);
    assert("ref_req"@[0] == 'r' && "tip_msg"@[0] == 't');
    assert("ref_req"@ != "tip_msg"@);
    assert("ref_req"@.len() == 7 && "withdraw"@.len() == 8);
    assert("ref_req"@ != "withdraw"@);
    assert("ref_req"@.len() == 7 && "tip_lckd"@.len() == 8);
    assert("ref_req"@ != "tip_lckd"@);
    assert("ref_req"@.len() == 7 && "lck_wdrw"@.len() == 8);
    assert("ref_req"@ != "lck_wdrw"@);
    assert("ref_req"@.len() == 7 && "refund"@.len() == 6);
    assert("ref_req"@ != "refund"@);
}

/// A `ref_appr` event whose topics are the symbol and then creator (as strings,
/// possibly followed by more), whose payload begins with tip id, sender, amount (text fields as
/// strings, numeric fields as decimal JSON numbers), decodes to exactly
/// these, each field taken from its own position.
pub proof fn lemma_ref_appr_fields(
    creator: Seq<char>,
    tip_id: u64,
    sender: Seq<char>,
    amount: Seq<char>,
    more_topics: Seq<JsonModel>,
    more_items: Seq<JsonModel>,
)
    ensures
        spec_parse_event(
            seq![JsonModel::Str("ref_appr"@), JsonModel::Str(creator)] + more_topics,
            JsonModel::Array(seq![JsonModel::Number(dec(tip_id as nat)), JsonModel::Str(sender), JsonModel::Str(amount)] + more_items),
        ) == Ok::<ParsedModel, ParserErrorModel>(
            ParsedModel {
                kind: EventKind::RefundApproved,
                topic: "ref_appr"@,
                fields: JsonModel::Object(
                    seq![
                        ("amount"@, JsonModel::Str(amount)),
                        ("creator"@, JsonModel::Str(creator)),
                        ("sender"@, JsonModel::Str(sender)),
                        ("tip_id"@, JsonModel::Number(dec(tip_id as nat))),
                    ],
                ),
            },
        ),
{
    reveal_strlit("ref_appr");
    reveal_strlit("tip");
    reveal_strlit("tip_msg");
    reveal_strlit("withdraw");
    reveal_strlit("tip_lckd");
    reveal_strlit("lck_wdrw");
    reveal_strlit("refund");
    reveal_strlit("ref_req");
    lemma_parse_dec(tip_id);
    let t = seq![JsonModel::Str("ref_appr"@), JsonModel::Str(creator)] + more_topics;
    assert(t[0] == JsonModel::Str("ref_appr"@));
    assert(t[1] == JsonModel::Str(creator));
    assert(topic_symbol_of(t[0]) == Some("ref_appr"@));
    assert(value_text(t[1]) == Some(creator));
    let d = seq![JsonModel::Number(dec(tip_id as nat)), JsonModel::Str(sender), JsonModel::Str(amount)] + more_items;
    assert(d[0] == JsonModel::Number(dec(tip_id as nat)));
    assert(d[1] == JsonModel::Str(sender));
    assert(d[2] == JsonModel::Str(amount));
    assert("ref_appr"@.len() == 8 && "tip"@.len() == 3);
    assert("ref_appr"@ != "tip"@);
    assert("ref_appr"@.len() == 8 && "tip_msg"@.len() == 7);
    assert("ref_appr"@ != "tip_msg"@);
    assert("ref_appr"@[0] == 'r' && "withdraw"@[0] == 'w');
    assert("ref_appr"@ != "withdraw"@);
    assert("ref_appr"@[0] == 'r' && "tip_lckd"@[0] == 't');
    assert("ref_appr"@ != "tip_lckd"@);
    assert("ref_appr"@[0] == 'r' && "lck_wdrw"@[0] == 'l');
    assert("ref_appr"@ != "lck_wdrw"@);
    assert("ref_appr"@.len() == 8 && "refund"@.len() == 6);
    assert("ref_appr"@ != "refund"@);
    assert("ref_appr"@.len() == 8 && "ref_req"@.len() == 7);
    assert("ref_appr"@ != "ref_req"@);
}

/// A `role_grnt` event whose topics are the symbol and then target, role (as strings,
/// possibly followed by more), whose payload is the caller (text fields as
/// strings, numeric fields as decimal JSON numbers), decodes to exactly
/// these, each field taken from its own position.
pub proof fn lemma_role_grnt_fields(
    target: Seq<char>,
    role: Seq<char>,
    caller: Seq<char>,
    more_topics: Seq<JsonModel>,
)
    ensures
        spec_parse_event(
            seq![JsonModel::Str("role_grnt"@), JsonModel::Str(target), JsonModel::Str(role)] + more_topics,
            JsonModel::Str(caller),
        ) == Ok::<ParsedModel, ParserErrorModel>(
            ParsedModel {
                kind: EventKind::RoleGranted,
                topic: "role_grnt"@,
                fields: JsonModel::Object(
                    seq![
                        ("caller"@, JsonModel::Str(caller)),
                        ("role"@, JsonModel::Str(role)),
                        ("target"@, JsonModel::Str(target)),
                    ],
                ),
            },
        ),
{
    reveal_strlit("role_grnt");
    reveal_strlit("tip");
    reveal_strlit("tip_msg");
    reveal_strlit("withdraw");
    reveal_strlit("tip_lckd");
    reveal_strlit("lck_wdrw");
    reveal_strlit("refund");
    reveal_strlit("ref_req");
    reveal_strlit("ref_appr");
    let t = seq![JsonModel::Str("role_grnt"@), JsonModel::Str(target), JsonModel::Str(role)] + more_topics;
    assert(t[0] == JsonModel::Str("role_grnt"@));
    assert(t[1] == JsonModel::Str(target));
    assert(t[2] == JsonModel::Str(role));
    assert(topic_symbol_of(t[0]) == Some("role_grnt"@));
    assert(value_text(t[1]) == Some(target));
    assert(value_text(t[2]) == Some(role));
    assert("role_grnt"@.len() == 9 && "tip"@.len() == 3);
    assert("role_grnt"@ != "tip"@);
    assert("role_grnt"@.len() == 9 && "tip_msg"@.len() == 7);
    assert("role_grnt"@ != "tip_msg"@);
    assert("role_grnt"@.len() == 9 && "withdraw"@.len() == 8);
    assert("role_grnt"@ != "withdraw"@);
    assert("role_grnt"@.len() == 9 && "tip_lckd"@.len() == 8);
    assert("role_grnt"@ != "tip_lckd"@);
    assert("role_grnt"@.len() == 9 && "lck_wdrw"@.len() == 8);
    assert("role_grnt"@ != "lck_wdrw"@);
    assert("role_grnt"@.len() == 9 && "refund"@.len() == 6);
    assert("role_grnt"@ != "refund"@);
    assert("role_grnt"@.len() == 9 && "ref_req"@.len() == 7);
    assert("role_grnt"@ != "ref_req"@);
    assert("role_grnt"@.len() == 9 && "ref_appr"@.len() == 8);
    assert("role_grnt"@ != "ref_appr"@);
}

/// A `role_rvk` event whose topics are the symbol and then target, role (as strings,
/// possibly followed by more), whose payload is the caller (text fields as
/// strings, numeric fields as decimal JSON numbers), decodes to exactly
/// these, each field taken from its own position.
pub proof fn lemma_role_rvk_fields(
    target: Seq<char>,
    role: Seq<char>,
    caller: Seq<char>,
    more_topics: Seq<JsonModel>,
)
    ensures
        spec_parse_event(
            seq![JsonModel::Str("role_rvk"@), JsonModel::Str(target), JsonModel::Str(role)] + more_topics,
            JsonModel::Str(caller),
        ) == Ok::<ParsedModel, ParserErrorModel>(
            ParsedModel {
                kind: EventKind::RoleRevoked,
                topic: "role_rvk"@,
                fields: JsonModel::Object(
                    seq![
                        ("caller"@, JsonModel::Str(caller)),
                        ("role"@, JsonModel::Str(role)),
                        ("target"@, JsonModel::Str(target)),
                    ],
                ),
            },
        ),
{
    reveal_strlit("role_rvk");
    reveal_strlit("tip");
    reveal_strlit("tip_msg");
    reveal_strlit("withdraw");
    reveal_strlit("tip_lckd");
    reveal_strlit("lck_wdrw");
    reveal_strlit("refund");
    reveal_strlit("ref_req");
    reveal_strlit("ref_appr");
    reveal_strlit("role_grnt");
    let t = seq![JsonModel::Str("role_rvk"@), JsonModel::Str(target), JsonModel::Str(role)] + more_topics;
    assert(t[0] == JsonModel::Str("role_rvk"@));
    assert(t[1] == JsonModel::Str(target));
    assert(t[2] == JsonModel::Str(role));
    assert(topic_symbol_of(t[0]) == Some("role_rvk"@));
    assert(value_text(t[1]) == Some(target));
    assert(value_text(t[2]) == Some(role));
    assert("role_rvk"@.len() == 8 && "tip"@.len() == 3);
    assert("role_rvk"@ != "tip"@);
    assert("role_rvk"@.len() == 8 && "tip_msg"@.len() == 7);
    assert("role_rvk"@ != "tip_msg"@);
    assert("role_rvk"@[0] == 'r' && "withdraw"@[0] == 'w');
    assert("role_rvk"@ != "withdraw"@);
    assert("role_rvk"@[0] == 'r' && "tip_lckd"@[0] == 't');
    assert("role_rvk"@ != "tip_lckd"@);
    assert("role_rvk"@[0] == 'r' && "lck_wdrw"@[0] == 'l');
    assert("role_rvk"@ != "lck_wdrw"@);
    assert("role_rvk"@.len() == 8 && "refund"@.len() == 6);
    assert("role_rvk"@ != "refund"@);
    assert("role_rvk"@.len() == 8 && "ref_req"@.len() == 7);
    assert("role_rvk"@ != "ref_req"@);
    assert("role_rvk"@[1] == 'o' && "ref_appr"@[1] == 'e');
    assert("role_rvk"@ != "ref_appr"@);
    assert("role_rvk"@.len() == 8 && "role_grnt"@.len() == 9);
    assert("role_rvk"@ != "role_grnt"@);
}

/// A `match_new` event whose topics are the symbol and then creator, token (as strings,
/// possibly followed by more), whose payload begins with sponsor, program id, match ratio, max match amount (text fields as
/// strings, numeric fields as decimal JSON numbers), decodes to exactly
/// these, each field taken from its own position.
pub proof fn lemma_match_new_fields(
    creator: Seq<char>,
    token: Seq<char>,
    sponsor: Seq<char>,
    program_id: u64,
    match_ratio: u64,
    max_match_amount: Seq<char>,
    more_topics: Seq<JsonModel>,
    more_items: Seq<JsonModel>,
)
    ensures
        spec_parse_event(
            seq![JsonModel::Str("match_new"@), JsonModel::Str(creator), JsonModel::Str(token)] + more_topics,
            JsonModel::Array(seq![JsonModel::Str(sponsor), JsonModel::Number(dec(program_id as nat)), JsonModel::Number(dec(match_ratio as nat)), JsonModel::Str(max_match_amount)] + more_items),
        ) == Ok::<ParsedModel, ParserErrorModel>(
            ParsedModel {
                kind: EventKind::MatchCreated,
                topic: "match_new"@,
                fields: JsonModel::Object(
                    seq![
                        ("creator"@, JsonModel::Str(creator)),
                        ("match_ratio"@, JsonModel::Number(dec(match_ratio as nat))),
                        ("max_match_amount"@, JsonModel::Str(max_match_amount)),
                        ("program_id"@, JsonModel::Number(dec(program_id as nat))),
                        ("sponsor"@, JsonModel::Str(sponsor)),
                        ("token"@, JsonModel::Str(token)),
                    ],
                ),
            },
        ),
{
    reveal_strlit("match_new");
    reveal_strlit("tip");
    reveal_strlit("tip_msg");
    reveal_strlit("withdraw");
    reveal_strlit("tip_lckd");
    reveal_strlit("lck_wdrw");
    reveal_strlit("refund");
    reveal_strlit("ref_req");
    reveal_strlit("ref_appr");
    reveal_strlit("role_grnt");
    reveal_strlit("role_rvk");
    lemma_parse_dec(program_id);
    lemma_parse_dec(match_ratio);
    let t = seq![JsonModel::Str("match_new"@), JsonModel::Str(creator), JsonModel::Str(token)] + more_topics;
    assert(t[0] == JsonModel::Str("match_new"@));
    assert(t[1] == JsonModel::Str(creator));
    assert(t[2] == JsonModel::Str(token));
    assert(topic_symbol_of(t[0]) == Some("match_new"@));
    assert(value_text(t[1]) == Some(creator));
    assert(value_text(t[2]) == Some(token));
    let d = seq![JsonModel::Str(sponsor), JsonModel::Number(dec(program_id as nat)), JsonModel::Number(dec(match_ratio as nat)), JsonModel::Str(max_match_amount)] + more_items;
    assert(d[0] == JsonModel::Str(sponsor));
    assert(d[1] == JsonModel::Number(dec(program_id as nat)));
    assert(d[2] == JsonModel::Number(dec(match_ratio as nat)));
    assert(d[3] == JsonModel::Str(max_match_amount));
    assert("match_new"@.len() == 9 && "tip"@.len() == 3);
    assert("match_new"@ != "tip"@);
    assert("match_new"@.len() == 9 && "tip_msg"@.len() == 7);
    assert("match_new"@ != "tip_msg"@);
    assert("match_new"@.len() == 9 && "withdraw"@.len() == 8);
    assert("match_new"@ != "withdraw"@);
    assert("match_new"@.len() == 9 && "tip_lckd"@.len() == 8);
    assert("match_new"@ != "tip_lckd"@);
    assert("match_new"@.len() == 9 && "lck_wdrw"@.len() == 8);
    assert("match_new"@ != "lck_wdrw"@);
    assert("match_new"@.len() == 9 && "refund"@.len() == 6);
    assert("match_new"@ != "refund"@);
    assert("match_new"@.len() == 9 && "ref_req"@.len() == 7);
    assert("match_new"@ != "ref_req"@);
    assert("match_new"@.len() == 9 && "ref_appr"@.len() == 8);
    assert("match_new"@ != "ref_appr"@);
    assert("match_new"@[0] == 'm' && "role_grnt"@[0] == 'r');
    assert("match_new"@ != "role_grnt"@);
    assert("match_new"@.len() == 9 && "role_rvk"@.len() == 8);
    assert("match_new"@ != "role_rvk"@);
}

/// A `match_end` event whose topics are the symbol and then creator, token (as strings,
/// possibly followed by more), whose payload begins with sponsor, program id, unspent (text fields as
/// strings, numeric fields as decimal JSON numbers), decodes to exactly
/// these, each field taken from its own position.
pub proof fn lemma_match_end_fields(
    creator: Seq<char>,
    token: Seq<char>,
    sponsor: Seq<char>,
    program_id: u64,
    unspent: Seq<char>,
    more_topics: Seq<JsonModel>,
    more_items: Seq<JsonModel>,
)
    ensures
        spec_parse_event(
            seq![JsonModel::Str("match_end"@), JsonModel::Str(creator), JsonModel::Str(token)] + more_topics,
            JsonModel::Array(seq![JsonModel::Str(sponsor), JsonModel::Number(dec(program_id as nat)), JsonModel::Str(unspent)] + more_items),
        ) == Ok::<ParsedModel, ParserErrorModel>(
            ParsedModel {
                kind: EventKind::MatchCancelled,
                topic: "match_end"@,
                fields: JsonModel::Object(
                    seq![
                        ("creator"@, JsonModel::Str(creator)),
                        ("program_id"@, JsonModel::Number(dec(program_id as nat))),
                        ("sponsor"@, JsonModel::Str(sponsor)),
                        ("token"@, JsonModel::Str(token)),
                        ("unspent"@, JsonModel::Str(unspent)),
                    ],
                ),
            },
        ),
{
    reveal_strlit("match_end");
    reveal_strlit("tip");
    reveal_strlit("tip_msg");
    reveal_strlit("withdraw");
    reveal_strlit("tip_lckd");
    reveal_strlit("lck_wdrw");
    reveal_strlit("refund");
    reveal_strlit("ref_req");
    reveal_strlit("ref_appr");
    reveal_strlit("role_grnt");
    reveal_strlit("role_rvk");
    reveal_strlit("match_new");
    reveal_strlit("tip_match");
    lemma_parse_dec(program_id);
    let t = seq![JsonModel::Str("match_end"@), JsonModel::Str(creator), JsonModel::Str(token)] + more_topics;
    assert(t[0] == JsonModel::Str("match_end"@));
    assert(t[1] == JsonModel::Str(creator));
    assert(t[2] == JsonModel::Str(token));
    assert(topic_symbol_of(t[0]) == Some("match_end"@));
    assert(value_text(t[1]) == Some(creator));
    assert(value_text(t[2]) == Some(token));
    let d = seq![JsonModel::Str(sponsor), JsonModel::Number(dec(program_id as nat)), JsonModel::Str(unspent)] + more_items;
    assert(d[0] == JsonModel::Str(sponsor));
    assert(d[1] == JsonModel::Number(dec(program_id as nat)));
    assert(d[2] == JsonModel::Str(unspent));
    assert("match_end"@.len() == 9 && "tip"@.len() == 3);
    assert("match_end"@ != "tip"@);
    assert("match_end"@.len() == 9 && "tip_msg"@.len() == 7);
    assert("match_end"@ != "tip_msg"@);
    assert("match_end"@.len() == 9 && "withdraw"@.len() == 8);
    assert("match_end"@ != "withdraw"@);
    assert("match_end"@.len() == 9 && "tip_lckd"@.len() == 8);
    assert("match_end"@ != "tip_lckd"@);
    assert("match_end"@.len() == 9 && "lck_wdrw"@.len() == 8);
    assert("match_end"@ != "lck_wdrw"@);
    assert("match_end"@.len() == 9 && "refund"@.len() == 6);
    assert("match_end"@ != "refund"@);
    assert("match_end"@.len() == 9 && "ref_req"@.len() == 7);
    assert("match_end"@ != "ref_req"@);
    assert("match_end"@.len() == 9 && "ref_appr"@.len() == 8);
    assert("match_end"@ != "ref_appr"@);
    assert("match_end"@[0] == 'm' && "role_grnt"@[0] == 'r');
    assert("match_end"@ != "role_grnt"@);
    assert("match_end"@.len() == 9 && "role_rvk"@.len() == 8);
    assert("match_end"@ != "role_rvk"@);
    assert("match_end"@[6] == 'e' && "match_new"@[6] == 'n');
    assert("match_end"@ != "match_new"@);
    assert("match_end"@[0] == 'm' && "tip_match"@[0] == 't');
    assert("match_end"@ != "tip_match"@);
}

/// An `upgraded` event whose topics are the symbol and then admin (as strings,
/// possibly followed by more), whose payload is the version (text fields as
/// strings, numeric fields as decimal JSON numbers), decodes to exactly
/// these, each field taken from its own position.
pub proof fn lemma_upgraded_fields(
    admin: Seq<char>,
    version: u64,
    more_topics: Seq<JsonModel>,
)
    ensures
        spec_parse_event(
            seq![JsonModel::Str("upgraded"@), JsonModel::Str(admin)] + more_topics,
            JsonModel::Number(dec(version as nat)),
        ) == Ok::<ParsedModel, ParserErrorModel>(
            ParsedModel {
                kind: EventKind::Upgraded,
                topic: "upgraded"@,
                fields: JsonModel::Object(
                    seq![
                        ("admin"@, JsonModel::Str(admin)),
                        ("version"@, JsonModel::Number(dec(version as nat))),
                    ],
                ),
            },
        ),
{
    reveal_strlit("upgraded");
    reveal_strlit("tip");
    reveal_strlit("tip_msg");
    reveal_strlit("withdraw");
    reveal_strlit("tip_lckd");
    reveal_strlit("lck_wdrw");
    reveal_strlit("refund");
    reveal_strlit("ref_req");
    reveal_strlit("ref_appr");
    reveal_strlit("role_grnt");
    reveal_strlit("role_rvk");
    reveal_strlit("match_new");
    reveal_strlit("tip_match");
    reveal_strlit("match_end");
    lemma_parse_dec(version);
    let t = seq![JsonModel::Str("upgraded"@), JsonModel::Str(admin)] + more_topics;
    assert(t[0] == JsonModel::Str("upgraded"@));
    assert(t[1] == JsonModel::Str(admin));
    assert(topic_symbol_of(t[0]) == Some("upgraded"@));
    assert(value_text(t[1]) == Some(admin));
    assert("upgraded"@.len() == 8 && "tip"@.len() == 3);
    assert("upgraded"@ != "tip"@);
    assert("upgraded"@.len() == 8 && "tip_msg"@.len() == 7);
    assert("upgraded"@ != "tip_msg"@);
    assert("upgraded"@[0] == 'u' && "withdraw"@[0] == 'w');
    assert("upgraded"@ != "withdraw"@);
    assert("upgraded"@[0] == 'u' && "tip_lckd"@[0] == 't');
    assert("upgraded"@ != "tip_lckd"@);
    assert("upgraded"@[0] == 'u' && "lck_wdrw"@[0] == 'l');
    assert("upgraded"@ != "lck_wdrw"@);
    assert("upgraded"@.len() == 8 && "refund"@.len() == 6);
    assert("upgraded"@ != "refund"@);
    assert("upgraded"@.len() == 8 && "ref_req"@.len() == 7);
    assert("upgraded"@ != "ref_req"@);
    assert("upgraded"@[0] == 'u' && "ref_appr"@[0] == 'r');
    assert("upgraded"@ != "ref_appr"@);
    assert("upgraded"@.len() == 8 && "role_grnt"@.len() == 9);
    assert("upgraded"@ != "role_grnt"@);
    assert("upgraded"@[0] == 'u' && "role_rvk"@[0] == 'r');
    assert("upgraded"@ != "role_rvk"@);
    assert("upgraded"@.len() == 8 && "match_new"@.len() == 9);
    assert("upgraded"@ != "match_new"@);
    assert("upgraded"@.len() == 8 && "tip_match"@.len() == 9);
    assert("upgraded"@ != "tip_match"@);
    assert("upgraded"@.len() == 8 && "match_end"@.len() == 9);
    assert("upgraded"@ != "match_end"@);
}

} // verus!
