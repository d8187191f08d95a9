use vstd::prelude::*;

use vstd::utf8::*;

use crate::text::{decimal_spec, split_char, split_spec, str_eq, views};

verus! {

#[verifier::external_type_specification]
#[verifier::external_body]
pub struct ExJsonNumber(serde_json::Number);

/// A copy of a JSON number (`serde_json::Number::clone`).
#[verifier::external_body]
fn copy_number(n: &serde_json::Number) -> (r: serde_json::Number)
    ensures
        r == *n,
{
    n.clone()
}

/// A JSON number: a non-negative integer, a negative integer, or a
/// floating-point number, which the gateway only carries through.
pub enum JsonNumber {
    PosInt(u64),
    NegInt(i64),
    Float(serde_json::Number),
}

/// A JSON value as the gateway reads and builds it. Object members keep their
/// order; keys are unique in values that come from a parser.
pub enum JsonValue {
    Null,
    Bool(bool),
    Number(JsonNumber),
    String(String),
    Array(Vec<JsonValue>),
    Object(Vec<(String, JsonValue)>),
}

/// Mathematical model of a JSON number.
pub enum NumberView {
    PosInt(nat),
    NegInt(int),
    Float(serde_json::Number),
}

/// Mathematical model of a JSON value.
pub enum JsonView {
    Null,
    Bool(bool),
    Number(NumberView),
    Str(Seq<char>),
    Array(Seq<JsonView>),
    Object(Seq<(Seq<char>, JsonView)>),
}

impl JsonNumber {
    pub open spec fn view(&self) -> NumberView {
        match self {
            JsonNumber::PosInt(n) => NumberView::PosInt(*n as nat),
            JsonNumber::NegInt(n) => NumberView::NegInt(*n as int),
            JsonNumber::Float(f) => NumberView::Float(*f),
        }
    }
}

impl JsonValue {
    pub open spec fn view(&self) -> JsonView
        decreases self,
    {
        match self {
            JsonValue::Null => JsonView::Null,
            JsonValue::Bool(b) => JsonView::Bool(*b),
            JsonValue::Number(n) => JsonView::Number(n.view()),
            JsonValue::String(s) => JsonView::Str(s@),
            JsonValue::Array(items) => JsonView::Array(
                Seq::new(
                    items@.len(),
                    |i: int|
                        if 0 <= i < items@.len() {
                            items@[i].view()
                        } else {
                            JsonView::Null
                        },
                ),
            ),
            JsonValue::Object(members) => JsonView::Object(
                Seq::new(
                    members@.len(),
                    |i: int|
                        if 0 <= i < members@.len() {
                            (members@[i].0@, members@[i].1.view())
                        } else {
                            (Seq::empty(), JsonView::Null)
                        },
                ),
            ),
        }
    }
}

/// The value of the first member named `key` in a sequence of object members.
pub open spec fn find_member(ms: Seq<(Seq<char>, JsonView)>, key: Seq<char>) -> Option<JsonView>
    decreases ms.len(),
{
    if ms.len() == 0 {
        None
    } else if ms[0].0 == key {
        Some(ms[0].1)
    } else {
        find_member(ms.drop_first(), key)
    }
}

/// `Value::get(key)`: the member named `key` of an object; nothing for any
/// other kind of value.
pub open spec fn get_member(v: JsonView, key: Seq<char>) -> Option<JsonView> {
    match v {
        JsonView::Object(ms) => find_member(ms, key),
        _ => None,
    }
}

/// `Value::as_str`: the text of a JSON string.
pub open spec fn as_text(v: JsonView) -> Option<Seq<char>> {
    match v {
        JsonView::Str(s) => Some(s),
        _ => None,
    }
}

/// The text of member `key` when it is a JSON string.
pub open spec fn text_member(v: JsonView, key: Seq<char>) -> Option<Seq<char>> {
    match get_member(v, key) {
        Some(m) => as_text(m),
        None => None,
    }
}

/// Follows `parts` through nested objects; a missing step gives `null`, and
/// `null` stays `null` for the rest of the path.
pub open spec fn lookup_path(v: JsonView, parts: Seq<Seq<char>>) -> JsonView
    decreases parts.len(),
{
    if parts.len() == 0 {
        v
    } else {
        let next = match get_member(v, parts[0]) {
            Some(m) => m,
            None => JsonView::Null,
        };
        lookup_path(next, parts.drop_first())
    }
}

/// The value at a dotted key such as `agent.model`.
pub open spec fn lookup_dotted(v: JsonView, key: Seq<char>) -> JsonView {
    lookup_path(v, split_spec(key, '.'))
}

impl JsonValue {
    /// `Value::get`: the member named `key`, when `self` is an object that has one.
    pub fn get(&self, key: &str) -> (r: Option<&JsonValue>)
        ensures
            match r {
                Some(m) => get_member(self.view(), key@) == Some(m.view()),
                None => get_member(self.view(), key@) is None,
            },
    {
        match self {
            JsonValue::Object(members) => {
                let ghost ms = self.view()->Object_0;
                let mut i: usize = 0;
                assert(ms.skip(0) =~= ms);
                while i < members.len()
                    invariant
                        *self == JsonValue::Object(*members),
                        ms == self.view()->Object_0,
                        ms.len() == members@.len(),
                        i <= members@.len(),
                        find_member(ms, key@) == find_member(ms.skip(i as int), key@),
                    decreases members@.len() - i,
                {
                    assert(ms.skip(i as int).drop_first() =~= ms.skip(i + 1));
                    assert(ms.skip(i as int)[0] == (members@[i as int].0@, members@[
                        i as int
                    ].1.view()));
                    if str_eq(members[i].0.as_str(), key) {
                        return Some(&members[i].1);
                    }
                    i = i + 1;
                }
                None
            },
            _ => None,
        }
    }

    /// `Value::as_str`: the text, when `self` is a JSON string.
    pub fn as_str(&self) -> (r: Option<&str>)
        ensures
            match r {
                Some(t) => as_text(self.view()) == Some(t@),
                None => as_text(self.view()) is None,
            },
    {
        match self {
            JsonValue::String(s) => Some(s.as_str()),
            _ => None,
        }
    }

    /// The text of member `key`, when it exists and is a JSON string.
    pub fn text_member(&self, key: &str) -> (r: Option<&str>)
        ensures
            match r {
                Some(t) => text_member(self.view(), key@) == Some(t@),
                None => text_member(self.view(), key@) is None,
            },
    {
        match self.get(key) {
            Some(m) => m.as_str(),
            None => None,
        }
    }

    /// A copy of this value.
    pub fn deep_copy(&self) -> (r: JsonValue)
        ensures
            r.view() == self.view(),
        decreases self,
    {
        match self {
            JsonValue::Null => JsonValue::Null,
            JsonValue::Bool(b) => JsonValue::Bool(*b),
            JsonValue::Number(n) => JsonValue::Number(
                match n {
                    JsonNumber::PosInt(k) => JsonNumber::PosInt(*k),
                    JsonNumber::NegInt(k) => JsonNumber::NegInt(*k),
                    JsonNumber::Float(f) => JsonNumber::Float(copy_number(f)),
                },
            ),
            JsonValue::String(s) => JsonValue::String(s.clone()),
            JsonValue::Array(items) => {
                let mut out: Vec<JsonValue> = Vec::new();
                let mut i: usize = 0;
                while i < items.len()
                    invariant
                        *self == JsonValue::Array(*items),
                        i <= items@.len(),
                        out@.len() == i,
                        forall|j: int| 0 <= j < i ==> (#[trigger] out@[j]).view() == items@[j].view(),
                    decreases items@.len() - i,
                {
                    proof {
                        assert(decreases_to!(*self => self->Array_0));
                        assert(decreases_to!(*items => items@));
                        assert(decreases_to!(items@ => items@[i as int]));
                    }
                    out.push(items[i].deep_copy());
                    i = i + 1;
                }
                let r = JsonValue::Array(out);
                assert(r.view()->Array_0 =~= self.view()->Array_0);
                r
            },
            JsonValue::Object(members) => {
                let mut out: Vec<(String, JsonValue)> = Vec::new();
                let mut i: usize = 0;
                while i < members.len()
                    invariant
                        *self == JsonValue::Object(*members),
                        i <= members@.len(),
                        out@.len() == i,
                        forall|j: int|
                            0 <= j < i ==> (#[trigger] out@[j]).0@ == members@[j].0@ && out@[j].1.view()
                                == members@[j].1.view(),
                    decreases members@.len() - i,
                {
                    proof {
                        assert(decreases_to!(*self => self->Object_0));
                        assert(decreases_to!(*members => members@));
                        assert(decreases_to!(members@ => members@[i as int]));
                        assert(decreases_to!(members@[i as int] => members@[i as int].1));
                    }
                    let v = members[i].1.deep_copy();
                    out.push((members[i].0.clone(), v));
                    i = i + 1;
                }
                let r = JsonValue::Object(out);
                assert(r.view()->Object_0 =~= self.view()->Object_0);
                r
            },
        }
    }
}

/// The value at a dotted key such as `agent.model`: each dot-separated part
/// names a member of the object reached so far, and a missing member gives
/// `null` (the lookup behind `config.get`).
pub fn lookup_dotted_key(v: &JsonValue, key: &str) -> (r: JsonValue)
    ensures
        r.view() == lookup_dotted(v.view(), key@),
{
    let parts = split_char(key, '.');
    let ghost ps = views(parts@);
    let mut cur = v.deep_copy();
    let mut i: usize = 0;
    assert(ps.skip(0) =~= ps);
    while i < parts.len()
        invariant
            ps == views(parts@),
            i <= parts@.len(),
            lookup_dotted(v.view(), key@) == lookup_path(cur.view(), ps.skip(i as int)),
            ps == split_spec(key@, '.'),
        decreases parts@.len() - i,
    {
        assert(ps.skip(i as int)[0] == parts@[i as int]@);
        assert(ps.skip(i as int).drop_first() =~= ps.skip(i + 1));
        let next = match cur.get(parts[i].as_str()) {
            Some(m) => m.deep_copy(),
            None => JsonValue::Null,
        };
        cur = next;
        i = i + 1;
    }
    assert(ps.skip(i as int) =~= Seq::<Seq<char>>::empty());
    cur
}

// ---------------------------------------------------------------------------
// JSON text
// ---------------------------------------------------------------------------

/// The lowercase hexadecimal digit of `n` (0 to 15).
pub open spec fn hex_digit(n: int) -> char {
    if n < 10 {
        (48 + n) as char
    } else {
        (87 + n) as char
    }
}

/// How a character is written inside a JSON string: `"` and `\` escaped with
/// a backslash, backspace, tab, line feed, form feed and carriage return as
/// `\b \t \n \f \r`, other characters below 0x20 as `\u00xx` (lowercase
/// hex), everything else as it is.
pub open spec fn json_escape_char(c: char) -> Seq<char> {
    let u = c as u32;
    if c == '"' {
        seq!['\\', '"']
    } else if c == '\\' {
        seq!['\\', '\\']
    } else if u == 8 {
        seq!['\\', 'b']
    } else if u == 9 {
        seq!['\\', 't']
    } else if u == 10 {
        seq!['\\', 'n']
    } else if u == 12 {
        seq!['\\', 'f']
    } else if u == 13 {
        seq!['\\', 'r']
    } else if u < 0x20 {
        seq!['\\', 'u', '0', '0', hex_digit(u as int / 16), hex_digit(u as int % 16)]
    } else {
        seq![c]
    }
}

/// The characters of `s`, each written as inside a JSON string.
pub open spec fn json_escape(s: Seq<char>) -> Seq<char>
    decreases s.len(),
{
    if s.len() == 0 {
        Seq::empty()
    } else {
        json_escape_char(s[0]) + json_escape(s.drop_first())
    }
}

/// The JSON text of a string: its escaped characters in double quotes.
pub open spec fn json_quoted(s: Seq<char>) -> Seq<char> {
    seq!['"'] + json_escape(s) + seq!['"']
}

/// Writes `s` as a JSON string (`serde_json::to_string` of a `&str`, which
/// cannot fail): in quotes, escaped by serde_json's escape table.
#[verifier::external_body]
pub(crate) fn quote_json(s: &str) -> (r: String)
    ensures
        r@ == json_quoted(s@),
{
    match serde_json::to_string(s) {
        Ok(t) => t,
        Err(_) => String::new(),
    }
}

/// The compact JSON text of an object with one integer member:
/// `{"key":value}`.
pub open spec fn int_member_json(key: Seq<char>, value: nat) -> Seq<char> {
    seq!['{'] + json_quoted(key) + seq![':'] + decimal_spec(value) + seq!['}']
}

/// The JSON bytes of an object with one integer member (`serde_json::to_vec`
/// of a one-entry map with a string key, which cannot fail): compact, the key
/// quoted as a JSON string, the value in decimal.
#[verifier::external_body]
pub(crate) fn int_member_bytes(key: &str, value: u64) -> (r: Vec<u8>)
    ensures
        r@ == encode_utf8(int_member_json(key@, value as nat)),
{
    match serde_json::to_vec(&std::collections::BTreeMap::from([(key, value)])) {
        Ok(b) => b,
        Err(_) => Vec::new(),
    }
}

} // verus!
