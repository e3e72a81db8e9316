//! JSON documents as the indexer reads and writes them.
//!
//! A number is kept as the text that denotes it, so every value read from the
//! event source can be written back unchanged.

use vstd::prelude::*;
use vstd::string::*;
use crate::text::{chars_of, dec, digit_char, parse_u64, spec_parse_u64, str_eq, hex_digit_lower, hex_lower};

verus! {

broadcast use vstd::std_specs::vec::group_vec_axioms;

/// A JSON document.
pub enum JsonValue {
    Null,
    Bool(bool),
    /// A number, held as its JSON notation (for example `1000`, `-3` or `2.5`).
    Number(String),
    Str(String),
    Array(Vec<JsonValue>),
    /// Members in document order.
    Object(Vec<(String, JsonValue)>),
}

/// The mathematical model of a JSON document.
#[verifier::ext_equal]
pub enum JsonModel {
    Null,
    Bool(bool),
    Number(Seq<char>),
    Str(Seq<char>),
    Array(Seq<JsonModel>),
    Object(Seq<(Seq<char>, JsonModel)>),
}

/// The model of a JSON document.
pub open spec fn model_of(v: JsonValue) -> JsonModel
    decreases v,
{
    match v {
        JsonValue::Null => JsonModel::Null,
        JsonValue::Bool(b) => JsonModel::Bool(b),
        JsonValue::Number(t) => JsonModel::Number(t@),
        JsonValue::Str(s) => JsonModel::Str(s@),
        JsonValue::Array(items) => JsonModel::Array(
            Seq::new(
                items@.len(),
                |i: int|
                    if 0 <= i < items@.len() {
                        model_of(items@[i])
                    } else {
                        JsonModel::Null
                    },
            ),
        ),
        JsonValue::Object(members) => JsonModel::Object(
            Seq::new(
                members@.len(),
                |i: int|
                    if 0 <= i < members@.len() {
                        (members@[i].0@, model_of(members@[i].1))
                    } else {
                        (Seq::empty(), JsonModel::Null)
                    },
            ),
        ),
    }
}

impl View for JsonValue {
    type V = JsonModel;

    open spec fn view(&self) -> JsonModel {
        model_of(*self)
    }
}

/// The value of the first member named `key`, if any.
pub open spec fn mget(members: Seq<(Seq<char>, JsonModel)>, key: Seq<char>) -> Option<JsonModel>
    decreases members.len(),
{
    if members.len() == 0 {
        None
    } else if members[0].0 == key {
        Some(members[0].1)
    } else {
        mget(members.drop_first(), key)
    }
}

/// The model of each member of an object, in order.
pub open spec fn members_model(members: Seq<(String, JsonValue)>) -> Seq<(Seq<char>, JsonModel)> {
    Seq::new(members.len(), |i: int| (members[i].0@, model_of(members[i].1)))
}

/// The model of each element of an array, in order.
pub open spec fn items_model(items: Seq<JsonValue>) -> Seq<JsonModel> {
    Seq::new(items.len(), |i: int| model_of(items[i]))
}

/// The model of an optional borrowed document.
pub open spec fn opt_model(o: Option<&JsonValue>) -> Option<JsonModel> {
    match o {
        Some(v) => Some(model_of(*v)),
        None => None,
    }
}

pub proof fn lemma_object_model(members: Vec<(String, JsonValue)>)
    ensures
        model_of(JsonValue::Object(members)) == JsonModel::Object(members_model(members@)),
{
    let m = model_of(JsonValue::Object(members));
    let s = match m {
        JsonModel::Object(s) => s,
        _ => Seq::empty(),
    };
    assert(s =~= members_model(members@));
}

pub proof fn lemma_array_model(items: Vec<JsonValue>)
    ensures
        model_of(JsonValue::Array(items)) == JsonModel::Array(items_model(items@)),
{
    let m = model_of(JsonValue::Array(items));
    let s = match m {
        JsonModel::Array(s) => s,
        _ => Seq::empty(),
    };
    assert(s =~= items_model(items@));
}

impl JsonModel {
    /// The value of member `key` when this is an object (`Value::get` with a string key).
    pub open spec fn get(self, key: Seq<char>) -> Option<JsonModel> {
        match self {
            JsonModel::Object(members) => mget(members, key),
            _ => None,
        }
    }

    /// The elements when this is an array.
    pub open spec fn as_array(self) -> Option<Seq<JsonModel>> {
        match self {
            JsonModel::Array(items) => Some(items),
            _ => None,
        }
    }

    /// The text when this is a string.
    pub open spec fn as_str(self) -> Option<Seq<char>> {
        match self {
            JsonModel::Str(s) => Some(s),
            _ => None,
        }
    }

    /// The number when this is a non-negative integer that fits in 64 bits.
    pub open spec fn as_u64(self) -> Option<u64> {
        match self {
            JsonModel::Number(t) => spec_parse_u64(t),
            _ => None,
        }
    }
}

/// Whether `i` is the position of the first member named `key`.
pub open spec fn first_member(members: Seq<(Seq<char>, JsonModel)>, key: Seq<char>, i: int) -> bool {
    &&& 0 <= i < members.len()
    &&& members[i].0 == key
    &&& forall|j: int| 0 <= j < i ==> #[trigger] members[j].0 != key
}

/// Whether no member is named `key`.
pub open spec fn no_member(members: Seq<(Seq<char>, JsonModel)>, key: Seq<char>) -> bool {
    forall|j: int| 0 <= j < members.len() ==> #[trigger] members[j].0 != key
}

pub proof fn lemma_mget_first(members: Seq<(Seq<char>, JsonModel)>, key: Seq<char>, i: int)
    requires
        first_member(members, key, i),
    ensures
        mget(members, key) == Some(members[i].1),
    decreases i,
{
    if i > 0 {
        let rest = members.drop_first();
        assert(members[0].0 != key);
        assert forall|j: int| 0 <= j < i - 1 implies #[trigger] rest[j].0 != key by {
            assert(rest[j] == members[j + 1]);
        }
        lemma_mget_first(rest, key, i - 1);
    }
}

pub proof fn lemma_mget_none(members: Seq<(Seq<char>, JsonModel)>, key: Seq<char>)
    requires
        no_member(members, key),
    ensures
        mget(members, key) is None,
    decreases members.len(),
{
    if members.len() > 0 {
        let rest = members.drop_first();
        assert(members[0].0 != key);
        assert forall|j: int| 0 <= j < rest.len() implies #[trigger] rest[j].0 != key by {
            assert(rest[j] == members[j + 1]);
        }
        lemma_mget_none(rest, key);
    }
}

/// The position of the first member named `key`.
pub fn member_index(members: &Vec<(String, JsonValue)>, key: &str) -> (r: Option<usize>)
    ensures
        match r {
            Some(i) => first_member(members_model(members@), key@, i as int),
            None => no_member(members_model(members@), key@),
        },
{
    let ghost m = members_model(members@);
    let n = members.len();
    for i in 0..n
        invariant
            n == members@.len(),
            m == members_model(members@),
            forall|j: int| 0 <= j < i ==> #[trigger] m[j].0 != key@,
    {
        if str_eq(members[i].0.as_str(), key) {
            return Some(i);
        }
    }
    None
}

/// The first member named `key`.
pub fn member<'a>(members: &'a Vec<(String, JsonValue)>, key: &str) -> (r: Option<&'a JsonValue>)
    ensures
        opt_model(r) == mget(members_model(members@), key@),
{
    match member_index(members, key) {
        Some(i) => {
            proof {
                lemma_mget_first(members_model(members@), key@, i as int);
            }
            Some(&members[i].1)
        },
        None => {
            proof {
                lemma_mget_none(members_model(members@), key@);
            }
            None
        },
    }
}

impl JsonValue {
    /// The member named `key` when this is an object.
    pub fn get(&self, key: &str) -> (r: Option<&JsonValue>)
        ensures
            opt_model(r) == self@.get(key@),
    {
        match self {
            JsonValue::Object(members) => {
                proof {
                    lemma_object_model(*members);
                }
                member(members, key)
            },
            _ => None,
        }
    }

    /// The elements when this is an array.
    pub fn as_array(&self) -> (r: Option<&Vec<JsonValue>>)
        ensures
            match r {
                Some(items) => self@.as_array() == Some(items_model(items@)),
                None => self@.as_array() is None,
            },
    {
        match self {
            JsonValue::Array(items) => {
                proof {
                    lemma_array_model(*items);
                }
                Some(items)
            },
            _ => None,
        }
    }

    /// The text when this is a string.
    pub fn as_str(&self) -> (r: Option<&String>)
        ensures
            match r {
                Some(s) => self@.as_str() == Some(s@),
                None => self@.as_str() is None,
            },
    {
        match self {
            JsonValue::Str(s) => Some(s),
            _ => None,
        }
    }

    /// The number when this is a non-negative integer that fits in 64 bits.
    pub fn as_u64(&self) -> (r: Option<u64>)
        ensures
            r == self@.as_u64(),
    {
        match self {
            JsonValue::Number(t) => parse_u64(t.as_str()),
            _ => None,
        }
    }

    /// A copy of this document.
    #[verifier::loop_isolation(false)]
    pub fn duplicate(&self) -> (r: JsonValue)
        ensures
            r@ == self@,
        decreases self,
    {
        match self {
            JsonValue::Null => JsonValue::Null,
            JsonValue::Bool(b) => JsonValue::Bool(*b),
            JsonValue::Number(t) => JsonValue::Number(t.clone()),
            JsonValue::Str(s) => JsonValue::Str(s.clone()),
            JsonValue::Array(items) => {
                let mut out: Vec<JsonValue> = Vec::new();
                let n = items.len();
                for i in 0..n
                    invariant
                        n == items@.len(),
                        out@.len() == i,
                        forall|j: int| 0 <= j < i ==> model_of(#[trigger] out@[j]) == model_of(items@[j]),
                {
                    proof {
                        assert(decreases_to!(items => items[i as int]));
                    }
                    let c = items[i].duplicate();
                    out.push(c);
                }
                proof {
                    lemma_array_model(*items);
                    lemma_array_model(out);
                    assert(items_model(out@) =~= items_model(items@));
                }
                JsonValue::Array(out)
            },
            JsonValue::Object(members) => {
                let mut out: Vec<(String, JsonValue)> = Vec::new();
                let n = members.len();
                for i in 0..n
                    invariant
                        n == members@.len(),
                        out@.len() == i,
                        forall|j: int| 0 <= j < i ==> (#[trigger] out@[j]).0@ == members@[j].0@
                            && model_of(out@[j].1) == model_of(members@[j].1),
                {
                    let k = members[i].0.clone();
                    proof {
                        assert(decreases_to!(members => members[i as int]));
                    }
                    let c = members[i].1.duplicate();
                    out.push((k, c));
                }
                proof {
                    lemma_object_model(*members);
                    lemma_object_model(out);
                    assert(members_model(out@) =~= members_model(members@));
                }
                JsonValue::Object(out)
            },
        }
    }
}

/// How one character of a string is written inside JSON quotes: quote, backslash and
/// control characters are escaped, every other character stands for itself.
pub open spec fn escape_char(c: char) -> Seq<char> {
    if c == '"' {
        seq!['\\', '"']
    } else if c == '\\' {
        seq!['\\', '\\']
    } else if c == '\u{8}' {
        seq!['\\', 'b']
    } else if c == '\t' {
        seq!['\\', 't']
    } else if c == '\n' {
        seq!['\\', 'n']
    } else if c == '\u{c}' {
        seq!['\\', 'f']
    } else if c == '\r' {
        seq!['\\', 'r']
    } else if (c as u32) < 32 {
        seq![
            '\\',
            'u',
            '0',
            '0',
            hex_digit_lower((c as u32 / 16) as int),
            hex_digit_lower((c as u32 % 16) as int),
        ]
    } else {
        seq![c]
    }
}

/// The escaped form of a whole string.
pub open spec fn escape(s: Seq<char>) -> Seq<char>
    decreases s.len(),
{
    if s.len() == 0 {
        Seq::empty()
    } else {
        escape(s.drop_last()) + escape_char(s.last())
    }
}

/// A string as a JSON string literal.
pub open spec fn quoted(s: Seq<char>) -> Seq<char> {
    seq!['"'] + escape(s) + seq!['"']
}

/// The compact JSON text of a document (no whitespace), as `Value::to_string` writes it.
pub open spec fn json_text(v: JsonModel) -> Seq<char>
    decreases v,
{
    match v {
        JsonModel::Null => seq!['n', 'u', 'l', 'l'],
        JsonModel::Bool(b) => if b {
            seq!['t', 'r', 'u', 'e']
        } else {
            seq!['f', 'a', 'l', 's', 'e']
        },
        JsonModel::Number(t) => t,
        JsonModel::Str(s) => quoted(s),
        JsonModel::Array(items) => seq!['['] + items_text(items) + seq![']'],
        JsonModel::Object(members) => seq!['{'] + members_text(members) + seq!['}'],
    }
}

/// The elements of an array, written one after the other and separated by commas.
pub open spec fn items_text(items: Seq<JsonModel>) -> Seq<char>
    decreases items,
{
    if items.len() == 0 {
        Seq::empty()
    } else {
        let front = if items.len() == 1 {
            Seq::empty()
        } else {
            items_text(items.drop_last()) + seq![',']
        };
        front + json_text(items[items.len() - 1])
    }
}

/// The members of an object, each as `"name":value`, separated by commas.
pub open spec fn members_text(members: Seq<(Seq<char>, JsonModel)>) -> Seq<char>
    decreases members,
{
    if members.len() == 0 {
        Seq::empty()
    } else {
        let front = if members.len() == 1 {
            Seq::empty()
        } else {
            members_text(members.drop_last()) + seq![',']
        };
        front + quoted(members[members.len() - 1].0) + seq![':'] + json_text(
            members[members.len() - 1].1,
        )
    }
}

fn write_escaped_char(c: char, out: &mut String)
    ensures
        final(out)@ == old(out)@ + escape_char(c),
{
    let code = c as u32;
    if c == '"' {
        out.push('\\');
        out.push('"');
    } else if c == '\\' {
        out.push('\\');
        out.push('\\');
    } else if c == '\u{8}' {
        out.push('\\');
        out.push('b');
    } else if c == '\t' {
        out.push('\\');
        out.push('t');
    } else if c == '\n' {
        out.push('\\');
        out.push('n');
    } else if c == '\u{c}' {
        out.push('\\');
        out.push('f');
    } else if c == '\r' {
        out.push('\\');
        out.push('r');
    } else if code < 32 {
        out.push('\\');
        out.push('u');
        out.push('0');
        out.push('0');
        out.push(hex_lower(code / 16));
        out.push(hex_lower(code % 16));
    } else {
        out.push(c);
    }
    assert(final(out)@ =~= old(out)@ + escape_char(c));
}

/// Appends `s` as a JSON string literal.
pub fn write_quoted(s: &str, out: &mut String)
    ensures
        final(out)@ == old(out)@ + quoted(s@),
{
    let chars = chars_of(s);
    out.push('"');
    let ghost start = out@;
    let n = chars.len();
    for i in 0..n
        invariant
            n == chars@.len(),
            chars@ == s@,
            out@ == start + escape(chars@.take(i as int)),
    {
        write_escaped_char(chars[i], out);
        assert(chars@.take(i + 1).drop_last() =~= chars@.take(i as int));
    }
    assert(chars@.take(n as int) =~= chars@);
    out.push('"');
    assert(final(out)@ =~= old(out)@ + quoted(s@));
}

/// Appends the elements of an array, separated by commas.
pub fn write_items(items: &Vec<JsonValue>, out: &mut String)
    ensures
        final(out)@ == old(out)@ + items_text(items_model(items@)),
    decreases items,
{
    let ghost m = items_model(items@);
    let ghost start = out@;
    let n = items.len();
    for i in 0..n
        invariant
            n == items@.len(),
            m == items_model(items@),
            out@ == start + items_text(m.take(i as int)),
    {
        if i > 0 {
            out.push(',');
        }
        proof {
            assert(decreases_to!(items => items[i as int]));
        }
        write_json(&items[i], out);
        proof {
            let t = m.take(i + 1);
            assert(t.drop_last() =~= m.take(i as int));
            assert(t[t.len() - 1] == m[i as int]);
            assert(out@ =~= start + items_text(t));
        }
    }
    assert(m.take(n as int) =~= m);
}

/// Appends the members of an object, each as `"name":value`, separated by commas.
pub fn write_members(members: &Vec<(String, JsonValue)>, out: &mut String)
    ensures
        final(out)@ == old(out)@ + members_text(members_model(members@)),
    decreases members,
{
    let ghost m = members_model(members@);
    let ghost start = out@;
    let n = members.len();
    for i in 0..n
        invariant
            n == members@.len(),
            m == members_model(members@),
            out@ == start + members_text(m.take(i as int)),
    {
        if i > 0 {
            out.push(',');
        }
        write_quoted(members[i].0.as_str(), out);
        out.push(':');
        proof {
            assert(decreases_to!(members => members[i as int]));
        }
        write_json(&members[i].1, out);
        proof {
            let t = m.take(i + 1);
            assert(t.drop_last() =~= m.take(i as int));
            assert(t[t.len() - 1] == m[i as int]);
            assert(out@ =~= start + members_text(t));
        }
    }
    assert(m.take(n as int) =~= m);
}

/// Appends the compact JSON text of `v`.
pub fn write_json(v: &JsonValue, out: &mut String)
    ensures
        final(out)@ == old(out)@ + json_text(v@),
    decreases v,
{
    match v {
        JsonValue::Null => {
            out.push('n');
            out.push('u');
            out.push('l');
            out.push('l');
            assert(final(out)@ =~= old(out)@ + json_text(v@));
        },
        JsonValue::Bool(b) => {
            if *b {
                out.push('t');
                out.push('r');
                out.push('u');
                out.push('e');
            } else {
                out.push('f');
                out.push('a');
                out.push('l');
                out.push('s');
                out.push('e');
            }
            assert(final(out)@ =~= old(out)@ + json_text(v@));
        },
        JsonValue::Number(t) => {
            out.append(t.as_str());
        },
        JsonValue::Str(s) => {
            write_quoted(s.as_str(), out);
        },
        JsonValue::Array(items) => {
            proof {
                lemma_array_model(*items);
            }
            out.push('[');
            write_items(items, out);
            out.push(']');
            assert(final(out)@ =~= old(out)@ + json_text(v@));
        },
        JsonValue::Object(members) => {
            proof {
                lemma_object_model(*members);
            }
            out.push('{');
            write_members(members, out);
            out.push('}');
            assert(final(out)@ =~= old(out)@ + json_text(v@));
        },
    }
}

impl JsonValue {
    /// The compact JSON text of this document, as `Value::to_string` writes it.
    pub fn to_text(&self) -> (s: String)
        ensures
            s@ == json_text(self@),
    {
        let mut out = String::new();
        write_json(self, &mut out);
        assert(out@ =~= json_text(self@));
        out
    }
}

/// A member named `key` with value `v`.
pub fn json_member(key: &str, v: JsonValue) -> (r: (String, JsonValue))
    ensures
        r.0@ == key@,
        r.1 == v,
{
    (key.to_owned(), v)
}

/// An object with the given members, in order.
pub fn json_object(members: Vec<(String, JsonValue)>) -> (r: JsonValue)
    ensures
        r@ == JsonModel::Object(members_model(members@)),
{
    proof {
        lemma_object_model(members);
    }
    JsonValue::Object(members)
}

/// An array with the given elements, in order.
pub fn json_array(items: Vec<JsonValue>) -> (r: JsonValue)
    ensures
        r@ == JsonModel::Array(items_model(items@)),
{
    proof {
        lemma_array_model(items);
    }
    JsonValue::Array(items)
}

/// A string value.
pub fn json_string(s: &str) -> (r: JsonValue)
    ensures
        r@ == JsonModel::Str(s@),
{
    JsonValue::Str(s.to_owned())
}

/// A number value for `n`.
pub fn json_u64(n: u64) -> (r: JsonValue)
    ensures
        r@ == JsonModel::Number(dec(n as nat)),
{
    JsonValue::Number(crate::text::u64_text(n))
}

/// The text of an optional string value, empty for anything else.
pub open spec fn text_or_empty(v: Option<JsonModel>) -> Seq<char> {
    match v {
        Some(JsonModel::Str(s)) => s,
        _ => Seq::empty(),
    }
}

/// The text of an optional string value, empty for anything else.
pub fn str_or_empty(v: Option<&JsonValue>) -> (r: String)
    ensures
        r@ == text_or_empty(opt_model(v)),
{
    match v {
        Some(JsonValue::Str(s)) => s.clone(),
        _ => String::new(),
    }
}

} // verus!
