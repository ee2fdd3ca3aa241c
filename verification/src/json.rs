use vstd::prelude::*;
use vstd::string::*;

use crate::step_outputs::string_eq_str;

verus! {

/// A JSON number as serde_json holds it: a non-negative integer, a negative integer, or a float
/// (kept as the text serde_json writes for it).
#[derive(Debug, Clone, PartialEq)]
pub enum JsonNumber {
    PosInt(u64),
    NegInt(i64),
    Float(String),
}

/// A JSON value: the library's own copy of the tree serde_json parses and writes.
#[derive(Debug, PartialEq)]
pub enum JsonValue {
    Null,
    Bool(bool),
    Number(JsonNumber),
    Str(String),
    Array(Vec<JsonValue>),
    Object(Vec<(String, JsonValue)>),
}

/// A JSON number as plain values.
pub enum NumberView {
    PosInt(u64),
    NegInt(i64),
    Float(Seq<char>),
}

/// A JSON value as plain values.
pub enum Json {
    Null,
    Bool(bool),
    Number(NumberView),
    Str(Seq<char>),
    Array(Seq<Json>),
    Object(Seq<(Seq<char>, Json)>),
}

impl JsonNumber {
    pub open spec fn view(&self) -> NumberView {
        match self {
            JsonNumber::PosInt(u) => NumberView::PosInt(*u),
            JsonNumber::NegInt(i) => NumberView::NegInt(*i),
            JsonNumber::Float(t) => NumberView::Float(t@),
        }
    }
}

impl JsonValue {
    /// The value as plain values.
    pub open spec fn view(&self) -> Json
        decreases *self,
    {
        match self {
            JsonValue::Null => Json::Null,
            JsonValue::Bool(b) => Json::Bool(*b),
            JsonValue::Number(n) => Json::Number(n.view()),
            JsonValue::Str(s) => Json::Str(s@),
            JsonValue::Array(items) => Json::Array(array_view(items@)),
            JsonValue::Object(members) => Json::Object(members_view(members@)),
        }
    }
}

/// The views of the items of an array.
pub open spec fn array_view(items: Seq<JsonValue>) -> Seq<Json>
    decreases items,
{
    if items.len() == 0 {
        Seq::empty()
    } else {
        array_view(items.drop_last()).push(items.last().view())
    }
}

/// The views of the members of an object.
pub open spec fn members_view(members: Seq<(String, JsonValue)>) -> Seq<(Seq<char>, Json)>
    decreases members,
{
    if members.len() == 0 {
        Seq::empty()
    } else {
        members_view(members.drop_last()).push((members.last().0@, members.last().1.view()))
    }
}

/// The views of the items of an array, item by item.
pub proof fn lemma_array_view(items: Seq<JsonValue>)
    ensures
        array_view(items) == Seq::new(items.len(), |i: int| items[i].view()),
    decreases items.len(),
{
    if items.len() > 0 {
        lemma_array_view(items.drop_last());
    }
}

/// The views of the members of an object, member by member.
pub proof fn lemma_members_view(members: Seq<(String, JsonValue)>)
    ensures
        members_view(members) == Seq::new(members.len(), |i: int| (members[i].0@, members[i].1.view())),
    decreases members.len(),
{
    if members.len() > 0 {
        lemma_members_view(members.drop_last());
    }
}

/// The value of the last member named `key`, if any.
pub open spec fn member(members: Seq<(Seq<char>, Json)>, key: Seq<char>) -> Option<Json>
    decreases members.len(),
{
    if members.len() == 0 {
        None
    } else if members.last().0 == key {
        Some(members.last().1)
    } else {
        member(members.drop_last(), key)
    }
}

/// The field `key` of an object; `None` for a missing field or a value that is not an object.
pub open spec fn field(j: Json, key: Seq<char>) -> Option<Json> {
    match j {
        Json::Object(members) => member(members, key),
        _ => None,
    }
}

/// The item at position `i` of an array; `None` past its end or for a value that is not an array.
pub open spec fn item(j: Json, i: int) -> Option<Json> {
    match j {
        Json::Array(items) => if 0 <= i < items.len() {
            Some(items[i])
        } else {
            None
        },
        _ => None,
    }
}

/// The text of a JSON string; `None` for any other value.
pub open spec fn text_of(j: Json) -> Option<Seq<char>> {
    match j {
        Json::Str(s) => Some(s),
        _ => None,
    }
}

/// The value of a non-negative JSON integer; `None` for any other value.
pub open spec fn u64_of(j: Json) -> Option<u64> {
    match j {
        Json::Number(NumberView::PosInt(u)) => Some(u),
        _ => None,
    }
}

/// Whether `a` comes strictly before `b` in the order of their characters.
pub open spec fn precedes(a: Seq<char>, b: Seq<char>) -> bool
    decreases a.len(),
{
    if b.len() == 0 {
        false
    } else if a.len() == 0 {
        true
    } else if a[0] != b[0] {
        a[0] < b[0]
    } else {
        precedes(a.drop_first(), b.drop_first())
    }
}

/// No text comes before itself.
pub proof fn lemma_precedes_irreflexive(a: Seq<char>)
    ensures
        !precedes(a, a),
    decreases a.len(),
{
    if a.len() > 0 {
        lemma_precedes_irreflexive(a.drop_first());
    }
}

/// Of two texts, at most one comes before the other.
pub proof fn lemma_precedes_asymmetric(a: Seq<char>, b: Seq<char>)
    ensures
        precedes(a, b) ==> !precedes(b, a),
    decreases a.len(),
{
    if a.len() > 0 && b.len() > 0 && a[0] == b[0] {
        lemma_precedes_asymmetric(a.drop_first(), b.drop_first());
    }
}

/// Of two different texts, one comes before the other.
pub proof fn lemma_precedes_total(a: Seq<char>, b: Seq<char>)
    ensures
        a != b ==> precedes(a, b) || precedes(b, a),
    decreases a.len(),
{
    if a.len() > 0 && b.len() > 0 {
        if a[0] == b[0] {
            lemma_precedes_total(a.drop_first(), b.drop_first());
            if a.drop_first() == b.drop_first() {
                assert(a =~= seq![a[0]] + a.drop_first());
                assert(b =~= seq![b[0]] + b.drop_first());
            }
        }
    } else if a.len() == 0 && b.len() == 0 {
        assert(a =~= b);
    }
}

/// Coming before is transitive.
pub proof fn lemma_precedes_transitive(a: Seq<char>, b: Seq<char>, c: Seq<char>)
    requires
        precedes(a, b),
        precedes(b, c),
    ensures
        precedes(a, c),
    decreases a.len(),
{
    if a.len() > 0 && b.len() > 0 && c.len() > 0 && a[0] == b[0] && b[0] == c[0] {
        lemma_precedes_transitive(a.drop_first(), b.drop_first(), c.drop_first());
    }
}

/// Whether a value is written and read back unchanged: integers are stored as serde_json stores
/// them, there is no float, and object members come in strictly increasing order of their names.
pub open spec fn canonical(j: Json) -> bool
    decreases j,
{
    match j {
        Json::Number(NumberView::PosInt(_)) => true,
        Json::Number(NumberView::NegInt(i)) => i < 0,
        Json::Number(NumberView::Float(_)) => false,
        Json::Array(items) => forall|i: int| 0 <= i < items.len() ==> canonical(#[trigger] items[i]),
        Json::Object(members) => {
            &&& forall|i: int| 0 <= i < members.len() ==> canonical(#[trigger] members[i].1)
            &&& forall|i: int| 0 <= i < members.len() - 1 ==> precedes(#[trigger] members[i].0, members[i + 1].0)
        },
        _ => true,
    }
}

/// Whether arrays and objects nest at most `d` levels deep in `j` (a scalar nests zero levels,
/// an array or object one more than its deepest item).
pub open spec fn nests_within(j: Json, d: nat) -> bool
    decreases j,
{
    match j {
        Json::Array(items) => d > 0 && forall|i: int|
            0 <= i < items.len() ==> nests_within(#[trigger] items[i], (d - 1) as nat),
        Json::Object(members) => d > 0 && forall|i: int|
            0 <= i < members.len() ==> nests_within(#[trigger] members[i].1, (d - 1) as nat),
        _ => true,
    }
}

/// How deep serde_json's parser lets arrays and objects nest, with room to spare: it gives up
/// past 127 levels.
pub open spec fn parse_depth() -> nat {
    100
}

/// A successful parse giving `j`.
pub open spec fn parsed_as(j: Json) -> Result<Json, Seq<char>> {
    Ok(j)
}

/// A failed parse with the message `m`.
pub open spec fn rejected_with(m: Seq<char>) -> Result<Json, Seq<char>> {
    Err(m)
}

/// What serde_json makes of `text`: the value it parses, or the message of its error.
pub uninterp spec fn json_from_text(text: Seq<char>) -> Result<Json, Seq<char>>;

/// The compact text serde_json writes for a value.
pub uninterp spec fn json_text(value: Json) -> Seq<char>;

/// serde_json's tree of a JSON value, carried through the conversions below.
#[verifier::external_type_specification]
#[verifier::external_body]
pub struct ExSerdeJsonValue(serde_json::Value);

/// Converts serde_json's tree into the library's tree, variant by variant.
#[verifier::external_body]
fn from_serde(v: serde_json::Value) -> JsonValue {
    match v {
        serde_json::Value::Null => JsonValue::Null,
        serde_json::Value::Bool(b) => JsonValue::Bool(b),
        serde_json::Value::Number(n) => JsonValue::Number(match (n.as_u64(), n.as_i64()) {
            (Some(u), _) => JsonNumber::PosInt(u),
            (None, Some(i)) => JsonNumber::NegInt(i),
            (None, None) => JsonNumber::Float(n.to_string()),
        }),
        serde_json::Value::String(s) => JsonValue::Str(s),
        serde_json::Value::Array(a) => JsonValue::Array(a.into_iter().map(from_serde).collect()),
        serde_json::Value::Object(m) => JsonValue::Object(m.into_iter().map(|(k, x)| (k, from_serde(x))).collect()),
    }
}

/// Converts the library's tree into serde_json's tree, variant by variant.
#[verifier::external_body]
fn to_serde(v: &JsonValue) -> serde_json::Value {
    match v {
        JsonValue::Null => serde_json::Value::Null,
        JsonValue::Bool(b) => serde_json::Value::Bool(*b),
        JsonValue::Number(JsonNumber::PosInt(u)) => serde_json::Value::from(*u),
        JsonValue::Number(JsonNumber::NegInt(i)) => serde_json::Value::from(*i),
        JsonValue::Number(JsonNumber::Float(t)) => serde_json::from_str(t).unwrap_or(serde_json::Value::Null),
        JsonValue::Str(s) => serde_json::Value::String(s.clone()),
        JsonValue::Array(a) => serde_json::Value::Array(a.iter().map(to_serde).collect()),
        JsonValue::Object(m) => serde_json::Value::Object(m.iter().map(|(k, x)| (k.clone(), to_serde(x))).collect()),
    }
}

/// Parses `text` with `serde_json::from_str` into a `serde_json::Value`; the result is what
/// `json_from_text` names: the parsed tree, or the error's message.
#[verifier::external_body]
pub(crate) fn parse_json(text: &str) -> (r: Result<JsonValue, String>)
    ensures
        r is Ok ==> json_from_text(text@) == parsed_as(r->Ok_0.view()),
        r is Err ==> json_from_text(text@) == rejected_with(r->Err_0@),
{
    match serde_json::from_str::<serde_json::Value>(text) {
        Ok(v) => Ok(from_serde(v)),
        Err(e) => Err(e.to_string()),
    }
}

/// Writes a value as compact JSON text through `serde_json::Value`'s `Display`; the text is what
/// `json_text` names, and serde_json reads a canonical value that nests no deeper than its
/// parser allows back unchanged from it.
#[verifier::external_body]
pub(crate) fn json_to_text(v: &JsonValue) -> (r: String)
    ensures
        r@ == json_text(v.view()),
        canonical(v.view()) && nests_within(v.view(), parse_depth()) ==> json_from_text(r@) == parsed_as(v.view()),
{
    to_serde(v).to_string()
}

impl JsonValue {
    /// Reads a JSON text: the value serde_json parses from it, or the message of its error.
    pub fn from_text(text: &str) -> (r: Result<JsonValue, String>)
        ensures
            r is Ok ==> json_from_text(text@) == parsed_as(r->Ok_0.view()),
            r is Err ==> json_from_text(text@) == rejected_with(r->Err_0@),
    {
        parse_json(text)
    }

    /// Writes the value as compact JSON text, as serde_json writes it; a canonical value that
    /// nests no deeper than serde_json's parser allows is read back unchanged from it.
    pub fn to_text(&self) -> (r: String)
        ensures
            r@ == json_text(self.view()),
            canonical(self.view()) && nests_within(self.view(), parse_depth()) ==> json_from_text(r@)
                == parsed_as(self.view()),
    {
        json_to_text(self)
    }

    /// The field `key` of an object: the last member with that name; `None` for a missing field
    /// or a value that is not an object.
    #[verifier::loop_isolation(false)]
    pub fn get(&self, key: &str) -> (r: Option<&JsonValue>)
        ensures
            match r {
                Some(v) => field(self.view(), key@) == Some(v.view()),
                None => field(self.view(), key@) is None,
            },
    {
        match self {
            JsonValue::Object(members) => {
                let mut i = members.len();
                assert(members@.take(members@.len() as int) =~= members@);
                while i > 0
                    invariant
                        0 <= i <= members@.len(),
                        member(members_view(members@), key@) == member(members_view(members@.take(i as int)), key@),
                    decreases i,
                {
                    let ghost prefix = members@.take(i as int);
                    assert(prefix.drop_last() =~= members@.take(i - 1));
                    assert(prefix.last() == members@[i - 1]);
                    let ghost mv = members_view(prefix);
                    assert(mv == members_view(prefix.drop_last()).push((prefix.last().0@, prefix.last().1.view())));
                    assert(mv.drop_last() =~= members_view(prefix.drop_last()));
                    assert(mv.last() == (prefix.last().0@, prefix.last().1.view()));
                    if string_eq_str(&members[i - 1].0, key) {
                        assert(member(mv, key@) == Some(members@[i - 1].1.view()));
                        assert(self.view() == Json::Object(members_view(members@)));
                        return Some(&members[i - 1].1);
                    }
                    i = i - 1;
                }
                assert(members@.take(0) =~= Seq::<(String, JsonValue)>::empty());
                None
            },
            _ => None,
        }
    }

    /// The item at position `i` of an array; `None` past its end or for a value that is not an
    /// array.
    pub fn at(&self, i: usize) -> (r: Option<&JsonValue>)
        ensures
            match r {
                Some(v) => item(self.view(), i as int) == Some(v.view()),
                None => item(self.view(), i as int) is None,
            },
    {
        match self {
            JsonValue::Array(items) => {
                proof {
                    lemma_array_view(items@);
                }
                if i < items.len() {
                    Some(&items[i])
                } else {
                    None
                }
            },
            _ => None,
        }
    }

    /// The text of a JSON string; `None` for any other value.
    pub fn as_str(&self) -> (r: Option<&String>)
        ensures
            match r {
                Some(s) => text_of(self.view()) == Some(s@),
                None => text_of(self.view()) is None,
            },
    {
        match self {
            JsonValue::Str(s) => Some(s),
            _ => None,
        }
    }

    /// The value of a non-negative integer; `None` for any other value.
    pub fn as_u64(&self) -> (r: Option<u64>)
        ensures
            r == u64_of(self.view()),
    {
        match self {
            JsonValue::Number(JsonNumber::PosInt(u)) => Some(*u),
            _ => None,
        }
    }

    /// A copy with the same contents.
    #[verifier::loop_isolation(false)]
    pub fn duplicate(&self) -> (r: JsonValue)
        ensures
            r.view() == self.view(),
        decreases self,
    {
        match self {
            JsonValue::Null => JsonValue::Null,
            JsonValue::Bool(b) => JsonValue::Bool(*b),
            JsonValue::Number(JsonNumber::PosInt(u)) => JsonValue::Number(JsonNumber::PosInt(*u)),
            JsonValue::Number(JsonNumber::NegInt(i)) => JsonValue::Number(JsonNumber::NegInt(*i)),
            JsonValue::Number(JsonNumber::Float(t)) => JsonValue::Number(JsonNumber::Float(t.clone())),
            JsonValue::Str(s) => JsonValue::Str(s.clone()),
            JsonValue::Array(items) => {
                let mut copy: Vec<JsonValue> = Vec::new();
                let n = items.len();
                let mut i: usize = 0;
                while i < n
                    invariant
                        n == items@.len(),
                        0 <= i <= n,
                        array_view(copy@) == array_view(items@.take(i as int)),
                        copy@.len() == i,
                    decreases n - i,
                {
                    proof {
                        assert(decreases_to!(*self => *items));
                        assert(decreases_to!(*items => items@));
                        assert(decreases_to!(items@ => items@[i as int]));
                    }
                    let x = items[i].duplicate();
                    let ghost before = copy@;
                    copy.push(x);
                    assert(copy@.drop_last() =~= before);
                    assert(items@.take(i + 1).drop_last() =~= items@.take(i as int));
                    i = i + 1;
                }
                assert(items@.take(n as int) =~= items@);
                JsonValue::Array(copy)
            },
            JsonValue::Object(members) => {
                let mut copy: Vec<(String, JsonValue)> = Vec::new();
                let n = members.len();
                let mut i: usize = 0;
                while i < n
                    invariant
                        n == members@.len(),
                        0 <= i <= n,
                        members_view(copy@) == members_view(members@.take(i as int)),
                        copy@.len() == i,
                    decreases n - i,
                {
                    let k = members[i].0.clone();
                    proof {
                        assert(decreases_to!(*self => *members));
                        assert(decreases_to!(*members => members@));
                        assert(decreases_to!(members@ => members@[i as int]));
                        assert(decreases_to!(members@[i as int] => members@[i as int].1));
                    }
                    let x = members[i].1.duplicate();
                    let ghost before = copy@;
                    copy.push((k, x));
                    assert(copy@.drop_last() =~= before);
                    assert(members@.take(i + 1).drop_last() =~= members@.take(i as int));
                    i = i + 1;
                }
                assert(members@.take(n as int) =~= members@);
                JsonValue::Object(copy)
            },
        }
    }
}

} // verus!
