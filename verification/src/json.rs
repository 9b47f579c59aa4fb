//! JSON values: the tree that the tools read and build, and its JSON text.
//!
//! Text is read and written by `serde_json`. Its `Value` is taken apart one level at a time into a
//! [`Node`], and a [`Json`] is built from the parts; writing goes the other way.
use vstd::prelude::*;
use vstd::string::*;

use crate::text::same_text;

verus! {

/// A JSON value of `serde_json`. What it holds is [`value_view`].
#[verifier::external_type_specification]
#[verifier::external_body]
pub struct ExValue(serde_json::Value);

/// A JSON number of `serde_json`.
#[verifier::external_type_specification]
#[verifier::external_body]
pub struct ExNumber(serde_json::Number);

/// The error of `serde_json`.
#[verifier::external_type_specification]
#[verifier::external_body]
pub struct ExError(serde_json::Error);

/// A JSON value as mathematics: an object is its fields in order.
#[verifier::ext_equal]
pub enum JsonView {
    Null,
    Bool(bool),
    /// A number that is an integer from 0 to `u64::MAX`.
    UInt(u64),
    /// A number that is an integer from `i64::MIN` to -1.
    Int(i64),
    /// Any other number.
    Float(serde_json::Number),
    Str(Seq<char>),
    Array(Seq<JsonView>),
    Object(Seq<(Seq<char>, JsonView)>),
}

/// The fields of a JSON object, in order.
pub type Fields = Seq<(Seq<char>, JsonView)>;

/// No two of the fields have one key.
pub open spec fn distinct(fields: Fields) -> bool {
    forall|i: int, j: int| 0 <= i < j < fields.len() ==> fields[i].0 != fields[j].0
}

/// The index of the first field with the key, or the number of fields.
pub open spec fn position(fields: Fields, key: Seq<char>) -> nat
    decreases fields.len(),
{
    if fields.len() == 0 || fields[0].0 == key {
        0
    } else {
        1 + position(fields.drop_first(), key)
    }
}

impl JsonView {
    /// The value under a key of an object.
    pub open spec fn get(self, key: Seq<char>) -> Option<JsonView> {
        match self {
            JsonView::Object(fields) => if position(fields, key) < fields.len() {
                Some(fields[position(fields, key) as int].1)
            } else {
                None
            },
            _ => None,
        }
    }

    /// The characters of a string.
    pub open spec fn as_str(self) -> Option<Seq<char>> {
        match self {
            JsonView::Str(s) => Some(s),
            _ => None,
        }
    }

    /// The integer of a number that is one from 0 to `u64::MAX`.
    pub open spec fn as_u64(self) -> Option<u64> {
        match self {
            JsonView::UInt(n) => Some(n),
            _ => None,
        }
    }

    /// The string under a key of an object.
    pub open spec fn str_at(self, key: Seq<char>) -> Option<Seq<char>> {
        match self.get(key) {
            Some(v) => v.as_str(),
            None => None,
        }
    }

    /// The integer under a key of an object.
    pub open spec fn u64_at(self, key: Seq<char>) -> Option<u64> {
        match self.get(key) {
            Some(v) => v.as_u64(),
            None => None,
        }
    }

    /// A value without floating-point numbers, with arrays and objects nested at most `depth` deep,
    /// in which no object is opened by the marker key that `serde_json` keeps for raw text.
    pub open spec fn is_plain(self, depth: nat) -> bool
        decreases depth,
    {
        match self {
            JsonView::Float(_) => false,
            JsonView::Array(items) => {
                &&& depth > 0
                &&& forall|i: int|
                    0 <= i < items.len() ==> (#[trigger] items[i]).is_plain((depth - 1) as nat)
            },
            JsonView::Object(fields) => {
                &&& depth > 0
                &&& fields.len() > 0 ==> fields[0].0 != "$serde_json::private::RawValue"@
                &&& forall|i: int|
                    0 <= i < fields.len() ==> (#[trigger] fields[i]).1.is_plain((depth - 1) as nat)
            },
            _ => true,
        }
    }

    /// A value whose text `serde_json` reads back: plain, and nested no deeper than it reads.
    pub open spec fn reads_back(self) -> bool {
        self.is_plain(MAX_DEPTH as nat)
    }
}

/// How deep arrays and objects may be nested in a text that `serde_json` reads.
pub const MAX_DEPTH: u64 = 127;

/// A string, or null.
pub open spec fn str_or_null(text: Option<Seq<char>>) -> JsonView {
    match text {
        Some(s) => JsonView::Str(s),
        None => JsonView::Null,
    }
}

/// An integer, or null.
pub open spec fn u64_or_null(n: Option<u64>) -> JsonView {
    match n {
        Some(u) => JsonView::UInt(u),
        None => JsonView::Null,
    }
}

/// What a `serde_json::Value` holds.
pub uninterp spec fn value_view(value: serde_json::Value) -> JsonView;

/// What `serde_json::Number::as_u64` returns.
pub uninterp spec fn number_u64(number: serde_json::Number) -> Option<u64>;

/// What `serde_json::Number::as_i64` returns.
pub uninterp spec fn number_i64(number: serde_json::Number) -> Option<i64>;

/// What `serde_json::from_str` reads in a text as a `serde_json::Value`; `None` where it fails.
pub uninterp spec fn json_parse(text: Seq<char>) -> Option<JsonView>;

/// The text that `serde_json::to_string` writes for a value.
pub uninterp spec fn json_text(value: JsonView) -> Seq<char>;

/// The text that `serde_json::to_string_pretty` writes for a value.
pub uninterp spec fn json_pretty_text(value: JsonView) -> Seq<char>;

/// What a number is.
pub open spec fn number_view(number: serde_json::Number) -> JsonView {
    match number_u64(number) {
        Some(u) => JsonView::UInt(u),
        None => match number_i64(number) {
            Some(i) => JsonView::Int(i),
            None => JsonView::Float(number),
        },
    }
}

/// What an integer is.
pub open spec fn int_view(i: i64) -> JsonView {
    if i < 0 {
        JsonView::Int(i)
    } else {
        JsonView::UInt(i as u64)
    }
}

/// One level of a JSON value: its kind, with the values directly below it.
pub enum Node {
    Null,
    Bool(bool),
    Number(serde_json::Number),
    Str(String),
    Array(Vec<serde_json::Value>),
    Object(Vec<(String, serde_json::Value)>),
}

/// What the values of an array hold.
pub open spec fn values_view(values: Seq<serde_json::Value>) -> Seq<JsonView> {
    values.map_values(|v: serde_json::Value| value_view(v))
}

/// What the fields of an object hold.
pub open spec fn entries_view(entries: Seq<(String, serde_json::Value)>) -> Fields {
    entries.map_values(|e: (String, serde_json::Value)| (e.0@, value_view(e.1)))
}

impl View for Node {
    type V = JsonView;

    open spec fn view(&self) -> JsonView {
        match *self {
            Node::Null => JsonView::Null,
            Node::Bool(b) => JsonView::Bool(b),
            Node::Number(n) => number_view(n),
            Node::Str(s) => JsonView::Str(s@),
            Node::Array(values) => JsonView::Array(values_view(values@)),
            Node::Object(entries) => JsonView::Object(entries_view(entries@)),
        }
    }
}

/// Takes a `serde_json::Value` apart by its variants. The parts hold what the value held; the
/// `serde_json::Map` of an object gives its entries in their order, each key once.
#[verifier::external_body]
fn open_value(value: serde_json::Value) -> (node: Node)
    ensures
        node@ == value_view(value),
        node matches Node::Object(entries) ==> distinct(entries_view(entries@)),
{
    match value {
        serde_json::Value::Null => Node::Null,
        serde_json::Value::Bool(b) => Node::Bool(b),
        serde_json::Value::Number(n) => Node::Number(n),
        serde_json::Value::String(s) => Node::Str(s),
        serde_json::Value::Array(values) => Node::Array(values),
        serde_json::Value::Object(map) => Node::Object(map.into_iter().collect()),
    }
}

/// Makes a `serde_json::Value` of its parts. The value holds what the parts held: a
/// `serde_json::Map` keeps entries with distinct keys in the order in which they come.
#[verifier::external_body]
fn close_node(node: Node) -> (value: serde_json::Value)
    requires
        node matches Node::Object(entries) ==> distinct(entries_view(entries@)),
    ensures
        value_view(value) == node@,
{
    match node {
        Node::Null => serde_json::Value::Null,
        Node::Bool(b) => serde_json::Value::Bool(b),
        Node::Number(n) => serde_json::Value::Number(n),
        Node::Str(s) => serde_json::Value::String(s),
        Node::Array(values) => serde_json::Value::Array(values),
        Node::Object(entries) => serde_json::Value::Object(entries.into_iter().collect()),
    }
}

/// `serde_json::Number::as_u64`.
#[verifier::external_body]
fn number_as_u64(number: &serde_json::Number) -> (r: Option<u64>)
    ensures
        r == number_u64(*number),
{
    number.as_u64()
}

/// `serde_json::Number::from` of a `u64`: the number is that integer.
#[verifier::external_body]
fn number_from_u64(n: u64) -> (r: serde_json::Number)
    ensures
        number_u64(r) == Some(n),
{
    serde_json::Number::from(n)
}

/// `serde_json::Number::as_i64`. A number that is no integer from 0 to `u64::MAX` gives a negative
/// one, if any.
#[verifier::external_body]
fn number_as_i64(number: &serde_json::Number) -> (r: Option<i64>)
    ensures
        r == number_i64(*number),
        number_u64(*number) is None ==> (r matches Some(i) ==> i < 0),
{
    number.as_i64()
}

/// `serde_json::Number::from` of an `i64`: the number is that integer.
#[verifier::external_body]
fn number_from_i64(i: i64) -> (r: serde_json::Number)
    ensures
        number_view(r) == int_view(i),
{
    serde_json::Number::from(i)
}

/// `clone` of a `serde_json::Number`: the same number.
#[verifier::external_body]
fn clone_number(number: &serde_json::Number) -> (r: serde_json::Number)
    ensures
        r == *number,
{
    number.clone()
}

/// `serde_json::from_str` into a `serde_json::Value`: what it reads, and whether it fails, depends
/// on the text alone.
#[verifier::external_body]
fn parse_value(text: &str) -> (r: Result<serde_json::Value, serde_json::Error>)
    ensures
        match r {
            Ok(value) => json_parse(text@) == Some(value_view(value)),
            Err(_) => json_parse(text@) is None,
        },
{
    serde_json::from_str(text)
}

/// `serde_json::to_string` of a `serde_json::Value`: it does not fail, the text depends on what
/// the value holds alone, and `serde_json::from_str` reads it back as [`JsonView::reads_back`] says.
#[verifier::external_body]
fn value_to_string(value: &serde_json::Value) -> (r: Result<String, serde_json::Error>)
    ensures
        r is Ok,
        r->Ok_0@ == json_text(value_view(*value)),
        value_view(*value).reads_back() ==> json_parse(r->Ok_0@) == Some(value_view(*value)),
{
    serde_json::to_string(value)
}

/// `serde_json::to_string_pretty` of a `serde_json::Value`: it does not fail, the text depends on
/// what the value holds alone, and `serde_json::from_str` reads it back as [`JsonView::reads_back`] says.
#[verifier::external_body]
fn value_to_string_pretty(value: &serde_json::Value) -> (r: Result<String, serde_json::Error>)
    ensures
        r is Ok,
        r->Ok_0@ == json_pretty_text(value_view(*value)),
        value_view(*value).reads_back() ==> json_parse(r->Ok_0@) == Some(value_view(*value)),
{
    serde_json::to_string_pretty(value)
}

/// A JSON value.
#[derive(Debug, PartialEq)]
pub enum Json {
    Null,
    Bool(bool),
    /// An integer from 0 to `u64::MAX`.
    UInt(u64),
    /// An integer from `i64::MIN` to `i64::MAX`.
    Int(i64),
    /// Any other number.
    Float(serde_json::Number),
    Str(String),
    Array(Vec<Json>),
    Object(JsonObject),
}

/// A JSON object: fields in order, no key twice.
#[derive(Debug, PartialEq)]
pub struct JsonObject {
    entries: Vec<(String, Json)>,
}

impl View for Json {
    type V = JsonView;

    open spec fn view(&self) -> JsonView {
        self.model()
    }
}

impl View for JsonObject {
    type V = Fields;

    open spec fn view(&self) -> Fields {
        self.model()
    }
}

/// The JSON values of a sequence.
pub open spec fn jsons_view(items: Seq<Json>) -> Seq<JsonView> {
    items.map_values(|item: Json| item@)
}

/// The fields of a sequence of keys and values.
pub open spec fn fields_view(entries: Seq<(String, Json)>) -> Fields {
    entries.map_values(|e: (String, Json)| (e.0@, e.1@))
}

/// What an optional value holds.
pub open spec fn optional_view(value: Option<Json>) -> Option<JsonView> {
    match value {
        Some(v) => Some(v@),
        None => None,
    }
}

/// An optional value of an object's field: null where there is none.
pub open spec fn value_or_null(value: Option<JsonView>) -> JsonView {
    match value {
        Some(v) => v,
        None => JsonView::Null,
    }
}

/// A field at `at` is the first of its key where no two fields share one.
pub proof fn lemma_position(fields: Fields, at: int)
    requires
        distinct(fields),
        0 <= at < fields.len(),
    ensures
        position(fields, fields[at].0) == at,
    decreases at,
{
    if at > 0 {
        lemma_position(fields.drop_first(), at - 1);
    }
}

/// The position of a key is the index of the first field that has it.
proof fn lemma_first(fields: Fields, key: Seq<char>, at: int)
    requires
        0 <= at <= fields.len(),
        forall|i: int| 0 <= i < at ==> fields[i].0 != key,
        at == fields.len() || fields[at].0 == key,
    ensures
        position(fields, key) == at,
    decreases at,
{
    if at > 0 {
        lemma_first(fields.drop_first(), key, at - 1);
    }
}

impl JsonObject {
    #[verifier::type_invariant]
    spec fn keys_distinct(self) -> bool {
        forall|i: int, j: int|
            0 <= i < j < self.entries@.len() ==> self.entries@[i].0@ != self.entries@[j].0@
    }

    /// The fields, in order.
    pub closed spec fn model(self) -> Fields
        decreases self,
    {
        Seq::new(
            self.entries@.len(),
            |i: int|
                if 0 <= i < self.entries@.len() {
                    (self.entries@[i].0@, self.entries@[i].1.model())
                } else {
                    arbitrary()
                },
        )
    }

    /// The object with the given fields.
    pub fn from_entries(entries: Vec<(String, Json)>) -> (r: JsonObject)
        requires
            distinct(fields_view(entries@)),
        ensures
            r@ == fields_view(entries@),
    {
        assert forall|i: int, j: int| 0 <= i < j < entries@.len() implies entries@[i].0@
            != entries@[j].0@ by {
            assert(fields_view(entries@)[i].0 == entries@[i].0@);
            assert(fields_view(entries@)[j].0 == entries@[j].0@);
        }
        let r = JsonObject { entries };
        assert(r.model() =~= fields_view(r.entries@));
        r
    }

    /// The value under a key.
    pub fn get(&self, key: &str) -> (r: Option<&Json>)
        ensures
            match r {
                Some(value) => JsonView::Object(self@).get(key@) == Some(value@),
                None => JsonView::Object(self@).get(key@) is None,
            },
    {
        let mut i: usize = 0;
        while i < self.entries.len()
            invariant
                i <= self.entries@.len() == self@.len(),
                forall|j: int| 0 <= j < i ==> self@[j].0 != key@,
            decreases self.entries@.len() - i,
        {
            let entry: &(String, Json) = &self.entries[i];
            if same_text(entry.0.as_str(), key) {
                proof {
                    lemma_first(self@, key@, i as int);
                }
                return Some(&entry.1);
            }
            i += 1;
        }
        proof {
            lemma_first(self@, key@, i as int);
        }
        None
    }

    /// The same object again.
    fn copy(&self) -> (r: JsonObject)
        ensures
            r@ == self@,
        decreases self,
    {
        proof {
            use_type_invariant(self);
        }
        let mut entries: Vec<(String, Json)> = Vec::new();
        let mut i: usize = 0;
        while i < self.entries.len()
            invariant
                i == entries@.len() <= self.entries@.len(),
                self.keys_distinct(),
                forall|j: int|
                    0 <= j < i ==> (#[trigger] entries@[j]).0@ == self.entries@[j].0@ && entries@[j].1@
                        == self.entries@[j].1@,
            decreases self.entries@.len() - i,
        {
            let entry: &(String, Json) = &self.entries[i];
            let value: Json = entry.1.copy();
            entries.push((entry.0.clone(), value));
            i += 1;
        }
        assert(self.model() =~= fields_view(entries@));
        assert forall|i: int, j: int|
            0 <= i < j < entries@.len() implies fields_view(entries@)[i].0 != fields_view(
            entries@,
        )[j].0 by {
            assert(self.entries@[i].0@ != self.entries@[j].0@);
        }
        JsonObject::from_entries(entries)
    }
}

impl Json {
    /// The value, as mathematics.
    pub open spec fn model(self) -> JsonView
        decreases self,
    {
        match self {
            Json::Null => JsonView::Null,
            Json::Bool(b) => JsonView::Bool(b),
            Json::UInt(n) => JsonView::UInt(n),
            Json::Int(i) => int_view(i),
            Json::Float(n) => number_view(n),
            Json::Str(s) => JsonView::Str(s@),
            Json::Array(items) => JsonView::Array(
                Seq::new(
                    items@.len(),
                    |i: int|
                        if 0 <= i < items@.len() {
                            items@[i].model()
                        } else {
                            arbitrary()
                        },
                ),
            ),
            Json::Object(object) => JsonView::Object(object.model()),
        }
    }

    /// A string, or null.
    pub fn str_or_null(text: Option<String>) -> (r: Json)
        ensures
            r@ == str_or_null(crate::text::optional(text)),
    {
        match text {
            Some(s) => Json::Str(s),
            None => Json::Null,
        }
    }

    /// An integer, or null.
    pub fn u64_or_null(n: Option<u64>) -> (r: Json)
        ensures
            r@ == u64_or_null(n),
    {
        match n {
            Some(u) => Json::UInt(u),
            None => Json::Null,
        }
    }

    /// The array of the given values.
    pub fn array(items: Vec<Json>) -> (r: Json)
        ensures
            r@ == JsonView::Array(jsons_view(items@)),
    {
        let r = Json::Array(items);
        assert(r@->Array_0 =~= jsons_view(items@));
        r
    }

    /// The value under a key of an object.
    pub fn get(&self, key: &str) -> (r: Option<&Json>)
        ensures
            match r {
                Some(value) => self@.get(key@) == Some(value@),
                None => self@.get(key@) is None,
            },
    {
        match self {
            Json::Object(object) => object.get(key),
            _ => None,
        }
    }

    /// The characters of a string.
    pub fn as_str(&self) -> (r: Option<&str>)
        ensures
            match r {
                Some(s) => self@.as_str() == Some(s@),
                None => self@.as_str() is None,
            },
    {
        match self {
            Json::Str(s) => Some(s.as_str()),
            _ => None,
        }
    }

    /// The integer of a number that is one from 0 to `u64::MAX`.
    pub fn as_u64(&self) -> (r: Option<u64>)
        ensures
            r == self@.as_u64(),
    {
        match self {
            Json::UInt(n) => Some(*n),
            Json::Int(i) => if *i < 0 {
                None
            } else {
                Some(*i as u64)
            },
            Json::Float(n) => number_as_u64(n),
            _ => None,
        }
    }

    /// The string under a key of an object.
    pub fn str_at(&self, key: &str) -> (r: Option<&str>)
        ensures
            match r {
                Some(s) => self@.str_at(key@) == Some(s@),
                None => self@.str_at(key@) is None,
            },
    {
        match self.get(key) {
            Some(value) => value.as_str(),
            None => None,
        }
    }

    /// The integer under a key of an object.
    pub fn u64_at(&self, key: &str) -> (r: Option<u64>)
        ensures
            r == self@.u64_at(key@),
    {
        match self.get(key) {
            Some(value) => value.as_u64(),
            None => None,
        }
    }

    /// The same value again.
    fn copy(&self) -> (r: Json)
        ensures
            r@ == self@,
        decreases self,
    {
        match self {
            Json::Null => Json::Null,
            Json::Bool(b) => Json::Bool(*b),
            Json::UInt(n) => Json::UInt(*n),
            Json::Int(i) => Json::Int(*i),
            Json::Float(n) => Json::Float(clone_number(n)),
            Json::Str(s) => Json::Str(s.clone()),
            Json::Array(items) => {
                let mut out: Vec<Json> = Vec::new();
                let mut i: usize = 0;
                while i < items.len()
                    invariant
                        self == Json::Array(*items),
                        i == out@.len() <= items@.len(),
                        forall|j: int| 0 <= j < i ==> (#[trigger] out@[j])@ == items@[j]@,
                    decreases items@.len() - i,
                {
                    proof {
                        assert(decreases_to!(self => self->Array_0));
                        assert(decreases_to!(items@ => items@[i as int]));
                    }
                    out.push(items[i].copy());
                    i += 1;
                }
                assert(self@->Array_0 =~= jsons_view(out@));
                Json::array(out)
            },
            Json::Object(object) => Json::Object(object.copy()),
        }
    }

    /// The value that a `serde_json::Value` holds.
    pub fn from_value(value: serde_json::Value) -> (r: Json)
        ensures
            r@ == value_view(value),
        decreases value_view(value),
    {
        match open_value(value) {
            Node::Null => Json::Null,
            Node::Bool(b) => Json::Bool(b),
            Node::Number(n) => match number_as_u64(&n) {
                Some(u) => Json::UInt(u),
                None => match number_as_i64(&n) {
                    Some(i) => Json::Int(i),
                    None => Json::Float(n),
                },
            },
            Node::Str(s) => Json::Str(s),
            Node::Array(values) => {
                let ghost all = values@;
                let mut out: Vec<Json> = Vec::new();
                for v in it: values
                    invariant
                        it.seq() == all,
                        value_view(value) == JsonView::Array(values_view(all)),
                        out@.len() == it.index(),
                        forall|j: int| 0 <= j < it.index() ==> (#[trigger] out@[j])@ == value_view(all[j]),
                {
                    proof {
                        assert(decreases_to!(value_view(value) => value_view(value)->Array_0));
                        assert(decreases_to!(values_view(all) => values_view(all)[it.index() as int]));
                        assert(values_view(all)[it.index() as int] == value_view(v));
                    }
                    out.push(Json::from_value(v));
                }
                assert(jsons_view(out@) =~= values_view(all));
                Json::array(out)
            },
            Node::Object(entries) => {
                let ghost all = entries@;
                let mut out: Vec<(String, Json)> = Vec::new();
                for entry in it: entries
                    invariant
                        it.seq() == all,
                        value_view(value) == JsonView::Object(entries_view(all)),
                        out@.len() == it.index(),
                        forall|j: int|
                            0 <= j < it.index() ==> (#[trigger] out@[j]).0@ == all[j].0@ && out@[j].1@
                                == value_view(all[j].1),
                {
                    proof {
                        let field = entries_view(all)[it.index() as int];
                        assert(decreases_to!(value_view(value) => value_view(value)->Object_0));
                        assert(decreases_to!(entries_view(all) => field));
                        assert(decreases_to!(field => field.1));
                        assert(field.1 == value_view(entry.1));
                    }
                    let inner: Json = Json::from_value(entry.1);
                    out.push((entry.0, inner));
                }
                assert(fields_view(out@) =~= entries_view(all));
                Json::Object(JsonObject::from_entries(out))
            },
        }
    }

    /// The `serde_json::Value` that holds this value.
    pub fn to_value(&self) -> (r: serde_json::Value)
        ensures
            value_view(r) == self@,
        decreases self,
    {
        match self {
            Json::Null => close_node(Node::Null),
            Json::Bool(b) => close_node(Node::Bool(*b)),
            Json::UInt(n) => close_node(Node::Number(number_from_u64(*n))),
            Json::Int(i) => close_node(Node::Number(number_from_i64(*i))),
            Json::Float(n) => close_node(Node::Number(clone_number(n))),
            Json::Str(s) => close_node(Node::Str(s.clone())),
            Json::Array(items) => {
                let mut out: Vec<serde_json::Value> = Vec::new();
                let mut i: usize = 0;
                while i < items.len()
                    invariant
                        self == Json::Array(*items),
                        i == out@.len() <= items@.len(),
                        forall|j: int| 0 <= j < i ==> value_view(#[trigger] out@[j]) == items@[j]@,
                    decreases items@.len() - i,
                {
                    proof {
                        assert(decreases_to!(self => self->Array_0));
                        assert(decreases_to!(items@ => items@[i as int]));
                    }
                    out.push(items[i].to_value());
                    i += 1;
                }
                assert(self@->Array_0 =~= values_view(out@));
                close_node(Node::Array(out))
            },
            Json::Object(object) => {
                proof {
                    use_type_invariant(object);
                }
                let mut out: Vec<(String, serde_json::Value)> = Vec::new();
                let mut i: usize = 0;
                while i < object.entries.len()
                    invariant
                        self == Json::Object(*object),
                        object.keys_distinct(),
                        i == out@.len() <= object.entries@.len(),
                        forall|j: int|
                            0 <= j < i ==> (#[trigger] out@[j]).0@ == object.entries@[j].0@
                                && value_view(out@[j].1) == object.entries@[j].1@,
                    decreases object.entries@.len() - i,
                {
                    let entry: &(String, Json) = &object.entries[i];
                    proof {
                        assert(decreases_to!(self => self->Object_0));
                        assert(decreases_to!(object => object.entries));
                        assert(decreases_to!(object.entries@ => object.entries@[i as int]));
                        assert(decreases_to!(object.entries@[i as int] => object.entries@[i as int].1));
                    }
                    let inner: serde_json::Value = entry.1.to_value();
                    out.push((entry.0.clone(), inner));
                    i += 1;
                }
                assert(object.model() =~= entries_view(out@));
                assert forall|i: int, j: int|
                    0 <= i < j < out@.len() implies entries_view(out@)[i].0 != entries_view(
                    out@,
                )[j].0 by {
                    assert(object.entries@[i].0@ != object.entries@[j].0@);
                }
                close_node(Node::Object(out))
            },
        }
    }

    /// The value that a JSON text writes; `None` where the text is not JSON.
    pub fn parse(text: &str) -> (r: Option<Json>)
        ensures
            optional_view(r) == json_parse(text@),
    {
        match parse_value(text) {
            Ok(value) => Some(Json::from_value(value)),
            Err(_) => None,
        }
    }

    /// The JSON text of the value, on one line.
    pub fn to_text(&self) -> (r: String)
        ensures
            r@ == json_text(self@),
            self@.reads_back() ==> json_parse(r@) == Some(self@),
    {
        match value_to_string(&self.to_value()) {
            Ok(text) => text,
            Err(_) => String::new(),
        }
    }

    /// The JSON text of the value, on indented lines.
    pub fn to_pretty_text(&self) -> (r: String)
        ensures
            r@ == json_pretty_text(self@),
            self@.reads_back() ==> json_parse(r@) == Some(self@),
    {
        match value_to_string_pretty(&self.to_value()) {
            Ok(text) => text,
            Err(_) => String::new(),
        }
    }
}

impl Clone for JsonObject {
    fn clone(&self) -> (r: Self)
        ensures
            r@ == self@,
    {
        self.copy()
    }
}

impl Clone for Json {
    fn clone(&self) -> (r: Self)
        ensures
            r@ == self@,
    {
        self.copy()
    }
}

/// The value under a key of an object is that of its field, where no two fields share a key.
pub proof fn law_get(fields: Fields, at: int)
    requires
        0 <= at < fields.len(),
        forall|i: int, j: int| 0 <= i < j < fields.len() ==> fields[i].0 != fields[j].0,
    ensures
        JsonView::Object(fields).get(fields[at].0) == Some(fields[at].1),
{
    lemma_position(fields, at);
}

/// Nothing stands under a key that no field has, and under any key of a value that is no object.
pub proof fn law_get_nothing(fields: Fields, key: Seq<char>, other: JsonView)
    requires
        forall|i: int| 0 <= i < fields.len() ==> (#[trigger] fields[i]).0 != key,
        !(other is Object),
    ensures
        JsonView::Object(fields).get(key) is None,
        other.get(key) is None,
{
    lemma_first(fields, key, fields.len() as int);
}

/// The string under a key is the value there if that is a string, and the integer the value there
/// if that is an integer from 0 to `u64::MAX`; there is none where the value is another or missing.
pub proof fn law_typed_get(json: JsonView, key: Seq<char>, s: Seq<char>, n: u64)
    ensures
        json.str_at(key) == Some(s) <==> json.get(key) == Some(JsonView::Str(s)),
        json.u64_at(key) == Some(n) <==> json.get(key) == Some(JsonView::UInt(n)),
{
}

/// A JSON value is what it was built of.
pub proof fn law_json_views(
    b: bool,
    n: u64,
    i: i64,
    s: String,
    items: Vec<Json>,
    at: int,
    object: JsonObject,
    entries: Seq<(String, Json)>,
    value: Json,
)
    requires
        0 <= at < items@.len(),
        at < entries.len(),
    ensures
        Json::Null@ == JsonView::Null,
        Json::Bool(b)@ == JsonView::Bool(b),
        Json::UInt(n)@ == JsonView::UInt(n),
        i < 0 ==> Json::Int(i)@ == JsonView::Int(i),
        i >= 0 ==> Json::Int(i)@ == JsonView::UInt(i as u64),
        Json::Str(s)@ == JsonView::Str(s@),
        Json::Array(items)@ matches JsonView::Array(values) && values.len() == items@.len()
            && values[at] == items@[at]@,
        Json::Object(object)@ == JsonView::Object(object@),
        jsons_view(items@).len() == items@.len(),
        jsons_view(items@)[at] == items@[at]@,
        fields_view(entries).len() == entries.len(),
        fields_view(entries)[at] == (entries[at].0@, entries[at].1@),
        optional_view(Some(value)) == Some(value@),
        optional_view(None) is None,
{
}

/// A value that is missing is written as null, and one that is there as itself.
pub proof fn law_missing_is_null(s: Seq<char>, n: u64, v: JsonView)
    ensures
        str_or_null(Some(s)) == JsonView::Str(s),
        str_or_null(None) == JsonView::Null,
        u64_or_null(Some(n)) == JsonView::UInt(n),
        u64_or_null(None) == JsonView::Null,
        value_or_null(Some(v)) == v,
        value_or_null(None) == JsonView::Null,
{
}

} // verus!
