//! JSON documents as plain data, and the bridge to `serde_json`.

use serde_json::{Number, Value};
use vstd::prelude::*;

verus! {

/// `serde_json::Value`, a JSON document as that crate holds it.
#[verifier::external_type_specification]
#[verifier::external_body]
pub struct ExValue(serde_json::Value);

/// `serde_json::Number`, a JSON number as that crate holds it.
#[verifier::external_type_specification]
#[verifier::external_body]
pub struct ExNumber(serde_json::Number);

/// `serde_json::Error`, what that crate reports when text is not JSON.
#[verifier::external_type_specification]
#[verifier::external_body]
pub struct ExError(serde_json::Error);

/// How many levels of arrays and objects `serde_json` reads, one within the other.
pub const MAX_DEPTH: u32 = 127;

/// What a JSON document says, free of how it is stored.
///
/// The fields of an object have no order and no field occurs twice.
#[verifier::ext_equal]
pub enum JsonTree {
    Null,
    Bool(bool),
    Integer(int),
    Float(Number),
    Text(Seq<char>),
    Array(Seq<JsonTree>),
    Object(Map<Seq<char>, JsonTree>),
}

/// The integer that a `serde_json::Number` holds, or `None` for a floating-point number:
/// what `Number::as_i128` returns.
pub uninterp spec fn number_integer(n: Number) -> Option<int>;

/// What a `serde_json::Value` holds: a scalar, or a collection of further values, by place or by
/// name.
pub uninterp spec fn json_tree(v: Value) -> JsonTree;

/// What `serde_json::from_slice` reads from `raw`, or `None` where it reports an error.
pub uninterp spec fn parsed_json(raw: Seq<u8>) -> Option<JsonTree>;

/// The bytes that `serde_json::to_vec` writes for a document.
pub uninterp spec fn written_json(t: JsonTree) -> Seq<u8>;

/// What a number says.
pub open spec fn number_tree(n: Number) -> JsonTree {
    match number_integer(n) {
        Some(i) => JsonTree::Integer(i),
        None => JsonTree::Float(n),
    }
}

/// A JSON document as plain data.
#[derive(Debug)]
pub enum Json {
    Null,
    Bool(bool),
    Number(Number),
    Text(String),
    Array(Vec<Json>),
    Object(JsonObject),
}

/// The fields of a JSON object. No key occurs twice.
#[derive(Debug)]
pub struct JsonObject {
    fields: Vec<(String, Json)>,
}

/// Some entry of `fields` is named `key`.
spec fn has_key<T>(fields: Seq<(String, T)>, key: Seq<char>) -> bool {
    exists|i: int| 0 <= i < fields.len() && (#[trigger] fields[i]).0@ == key
}

/// An entry of `fields` that is named `key`.
spec fn key_index<T>(fields: Seq<(String, T)>, key: Seq<char>) -> int {
    choose|i: int| 0 <= i < fields.len() && (#[trigger] fields[i]).0@ == key
}

/// No two entries of `fields` have the same name.
spec fn distinct_keys<T>(fields: Seq<(String, T)>) -> bool {
    forall|i: int, j: int|
        0 <= i < j < fields.len() ==> (#[trigger] fields[i]).0@ != (#[trigger] fields[j]).0@
}

impl Json {
    /// What the document says.
    pub open spec fn tree(self) -> JsonTree
        decreases self,
    {
        match self {
            Json::Null => JsonTree::Null,
            Json::Bool(b) => JsonTree::Bool(b),
            Json::Number(n) => number_tree(n),
            Json::Text(s) => JsonTree::Text(s@),
            Json::Array(items) => JsonTree::Array(
                Seq::new(
                    items@.len(),
                    |i: int|
                        if 0 <= i < items@.len() {
                            items@[i].tree()
                        } else {
                            JsonTree::Null
                        },
                ),
            ),
            Json::Object(o) => JsonTree::Object(o.trees()),
        }
    }
}

impl JsonObject {
    #[verifier::type_invariant]
    spec fn keys_distinct(self) -> bool {
        distinct_keys(self.fields@)
    }

    /// What the fields say, by name.
    pub closed spec fn trees(self) -> Map<Seq<char>, JsonTree>
        decreases self,
    {
        Map::new(
            |key: Seq<char>| has_key(self.fields@, key),
            |key: Seq<char>|
                {
                    let i = key_index(self.fields@, key);
                    if 0 <= i < self.fields@.len() {
                        self.fields@[i].1.tree()
                    } else {
                        JsonTree::Null
                    }
                },
        )
    }
}

impl JsonObject {
    /// The trees of the fields, by the entries that hold them.
    proof fn lemma_trees(&self)
        requires
            distinct_keys(self.fields@),
        ensures
            forall|i: int|
                0 <= i < self.fields@.len() ==> self.trees().contains_key(
                    (#[trigger] self.fields@[i]).0@,
                ) && self.trees()[self.fields@[i].0@] == self.fields@[i].1.tree(),
            forall|key: Seq<char>| #[trigger]
                self.trees().contains_key(key) <==> has_key(self.fields@, key),
    {
        assert forall|i: int| 0 <= i < self.fields@.len() implies self.trees().contains_key(
            (#[trigger] self.fields@[i]).0@,
        ) && self.trees()[self.fields@[i].0@] == self.fields@[i].1.tree() by {
            assert(has_key(self.fields@, self.fields@[i].0@));
            assert(key_index(self.fields@, self.fields@[i].0@) == i);
        }
    }

    /// An object without fields.
    pub fn new() -> (o: JsonObject)
        ensures
            o.trees() == Map::<Seq<char>, JsonTree>::empty(),
    {
        let o = JsonObject { fields: Vec::new() };
        proof {
            o.lemma_trees();
            assert(o.trees() =~= Map::<Seq<char>, JsonTree>::empty());
        }
        o
    }

    /// Where the entry named `key` stands, or the number of entries if there is none.
    fn position(&self, key: &String) -> (at: usize)
        ensures
            at <= self.fields@.len(),
            at < self.fields@.len() ==> self.fields@[at as int].0@ == key@,
            at == self.fields@.len() ==> !has_key(self.fields@, key@),
    {
        let mut at: usize = 0;
        while at < self.fields.len()
            invariant
                at <= self.fields@.len(),
                forall|i: int| 0 <= i < at ==> (#[trigger] self.fields@[i]).0@ != key@,
            decreases self.fields@.len() - at,
        {
            if self.fields[at].0 == *key {
                return at;
            }
            at += 1;
        }
        at
    }

    /// The field named `key`.
    pub fn get(&self, key: &String) -> (r: Option<&Json>)
        ensures
            match r {
                Some(j) => self.trees().contains_key(key@) && self.trees()[key@] == j.tree(),
                None => !self.trees().contains_key(key@),
            },
    {
        proof {
            use_type_invariant(self);
            self.lemma_trees();
        }
        let at: usize = self.position(key);
        if at < self.fields.len() {
            Some(&self.fields[at].1)
        } else {
            None
        }
    }

    /// The object with the field named `key` set to `value`.
    pub fn insert(self, key: String, value: Json) -> (o: JsonObject)
        ensures
            o.trees() == self.trees().insert(key@, value.tree()),
    {
        proof {
            use_type_invariant(&self);
            self.lemma_trees();
        }
        let at: usize = self.position(&key);
        let mut fields = self.fields;
        if at < fields.len() {
            fields.set(at, (key, value));
        } else {
            fields.push((key, value));
        }
        let o = JsonObject { fields };
        proof {
            o.lemma_trees();
            assert(o.fields@[at as int] == (key, value));
            assert forall|k: Seq<char>| has_key(o.fields@, k) == (has_key(self.fields@, k) || k == key@) by {
                if has_key(self.fields@, k) {
                    let i = key_index(self.fields@, k);
                    assert(o.fields@[i].0@ == k);
                }
                if has_key(o.fields@, k) {
                    let i = key_index(o.fields@, k);
                    if i != at {
                        assert(self.fields@[i].0@ == k);
                    }
                }
            }
            assert forall|k: Seq<char>| o.trees().contains_key(k) implies o.trees()[k]
                == self.trees().insert(key@, value.tree())[k] by {
                let i = key_index(o.fields@, k);
                assert(o.fields@[i].0@ == k);
                if i != at {
                    assert(self.fields@[i] == o.fields@[i]);
                }
            }
            assert(o.trees() =~= self.trees().insert(key@, value.tree()));
        }
        o
    }

    /// The object without the field named `key`, and that field.
    pub fn remove(self, key: &String) -> (r: (JsonObject, Option<Json>))
        ensures
            r.0.trees() == self.trees().remove(key@),
            match r.1 {
                Some(j) => self.trees().contains_key(key@) && self.trees()[key@] == j.tree(),
                None => !self.trees().contains_key(key@),
            },
    {
        proof {
            use_type_invariant(&self);
            self.lemma_trees();
        }
        let at: usize = self.position(key);
        let mut fields = self.fields;
        if at < fields.len() {
            let ghost before = fields@;
            let field = fields.remove(at);
            let o = JsonObject { fields };
            proof {
                o.lemma_trees();
                assert forall|k: Seq<char>| has_key(o.fields@, k) == (has_key(before, k) && k != key@) by {
                    if has_key(before, k) && k != key@ {
                        let i = key_index(before, k);
                        assert(before[i].0@ == k);
                        if i < at {
                            assert(o.fields@[i].0@ == k);
                        } else {
                            assert(o.fields@[i - 1].0@ == k);
                        }
                    }
                    if has_key(o.fields@, k) {
                        let i = key_index(o.fields@, k);
                        if i < at {
                            assert(before[i].0@ == k);
                        } else {
                            assert(before[i + 1].0@ == k);
                        }
                    }
                }
                assert forall|k: Seq<char>| o.trees().contains_key(k) implies o.trees()[k]
                    == self.trees().remove(key@)[k] by {
                    let i = key_index(o.fields@, k);
                    assert(o.fields@[i].0@ == k);
                    let i0 = if i < at { i } else { i + 1 };
                    assert(before[i0] == o.fields@[i]);
                }
                assert(o.trees() =~= self.trees().remove(key@));
            }
            (o, Some(field.1))
        } else {
            let o = JsonObject { fields };
            proof {
                assert(o.trees() =~= self.trees().remove(key@));
            }
            (o, None)
        }
    }
}

/// One level of a `serde_json::Value`.
enum JsonNode {
    Null,
    Bool(bool),
    Number(Number),
    Text(String),
    Array(Vec<Value>),
    Object(Vec<(String, Value)>),
}

/// What the fields of one level say, by name.
spec fn field_trees(fields: Seq<(String, Value)>) -> Map<Seq<char>, JsonTree> {
    Map::new(
        |key: Seq<char>| has_key(fields, key),
        |key: Seq<char>| json_tree(fields[key_index(fields, key)].1),
    )
}

impl JsonNode {
    /// What the level says, the documents below it included.
    spec fn tree(self) -> JsonTree {
        match self {
            JsonNode::Null => JsonTree::Null,
            JsonNode::Bool(b) => JsonTree::Bool(b),
            JsonNode::Number(n) => number_tree(n),
            JsonNode::Text(s) => JsonTree::Text(s@),
            JsonNode::Array(items) => JsonTree::Array(items@.map_values(|v: Value| json_tree(v))),
            JsonNode::Object(fields) => JsonTree::Object(field_trees(fields@)),
        }
    }

    /// The names within the level are distinct.
    spec fn well_formed(self) -> bool {
        self matches JsonNode::Object(fields) ==> distinct_keys(fields@)
    }
}

/// Takes a `serde_json::Value` apart by one level, by matching on its variants.
#[verifier::external_body]
fn open_value(v: Value) -> (node: JsonNode)
    ensures
        node.tree() == json_tree(v),
        node.well_formed(),
{
    match v {
        Value::Null => JsonNode::Null,
        Value::Bool(b) => JsonNode::Bool(b),
        Value::Number(n) => JsonNode::Number(n),
        Value::String(s) => JsonNode::Text(s),
        Value::Array(items) => JsonNode::Array(items),
        Value::Object(fields) => JsonNode::Object(fields.into_iter().collect()),
    }
}

/// Puts a `serde_json::Value` together from one level, by its variants' constructors.
#[verifier::external_body]
fn close_value(node: JsonNode) -> (v: Value)
    requires
        node.well_formed(),
    ensures
        json_tree(v) == node.tree(),
{
    match node {
        JsonNode::Null => Value::Null,
        JsonNode::Bool(b) => Value::Bool(b),
        JsonNode::Number(n) => Value::Number(n),
        JsonNode::Text(s) => Value::String(s),
        JsonNode::Array(items) => Value::Array(items),
        JsonNode::Object(fields) => Value::Object(fields.into_iter().collect()),
    }
}

/// The document nests arrays and objects at most `depth` levels deep.
pub open spec fn fits(t: JsonTree, depth: nat) -> bool
    decreases depth,
{
    match t {
        JsonTree::Array(items) => depth > 0 && forall|i: int|
            0 <= i < items.len() ==> fits(#[trigger] items[i], (depth - 1) as nat),
        JsonTree::Object(fields) => depth > 0 && forall|key: Seq<char>| #[trigger]
            fields.contains_key(key) ==> fits(fields[key], (depth - 1) as nat),
        _ => true,
    }
}

/// No number of the document is a floating-point number.
pub open spec fn float_free(t: JsonTree) -> bool
    decreases t,
{
    match t {
        JsonTree::Float(_) => false,
        JsonTree::Array(items) => forall|i: int|
            0 <= i < items.len() ==> float_free(#[trigger] items[i]),
        JsonTree::Object(fields) => forall|key: Seq<char>| #[trigger]
            fields.contains_key(key) ==> float_free(fields[key]),
        _ => true,
    }
}

/// The documents are the same but for the values of floating-point numbers.
pub open spec fn alike(s: JsonTree, t: JsonTree) -> bool
    decreases s,
{
    match (s, t) {
        (JsonTree::Float(_), JsonTree::Float(_)) => true,
        (JsonTree::Array(a), JsonTree::Array(b)) => a.len() == b.len() && forall|i: int|
            0 <= i < a.len() ==> alike(#[trigger] a[i], b[i]),
        (JsonTree::Object(a), JsonTree::Object(b)) => a.dom() == b.dom() && forall|key: Seq<char>|
            #[trigger] a.contains_key(key) ==> alike(a[key], b[key]),
        _ => s == t,
    }
}

/// `serde_json::from_slice`, asked for a `Value`. The parser gives up on text that nests arrays
/// and objects more than `MAX_DEPTH` levels deep, so what it returns nests no deeper.
#[verifier::external_body]
fn parse_value(raw: &[u8]) -> (r: Result<Value, serde_json::Error>)
    ensures
        match r {
            Ok(v) => parsed_json(raw@) == Some(json_tree(v)) && fits(json_tree(v), MAX_DEPTH as nat),
            Err(_) => parsed_json(raw@) is None,
        },
{
    serde_json::from_slice(raw)
}

/// `serde_json::to_vec` of a `Value` that nests no deeper than the parser reads; writing recurses
/// as deep as the value nests. It does not fail: a `Value` has no keys but strings, and a `Vec`
/// takes every byte. Parsed again, the bytes give the document back, but for the values of
/// floating-point numbers, which the parser may miss by some units in the last place: it scales
/// the digits by a power of ten in floating-point arithmetic. It refuses none of them. A `Number`
/// is finite, its shortest digits are at most 17, and only a product that leaves the range is an
/// error; the product for the largest number, 17976931348623157 times 10 to the 292, stays in the
/// range. Which value is read for a floating-point number is not stated.
#[verifier::external_body]
fn write_value(v: &Value) -> (r: Result<Vec<u8>, serde_json::Error>)
    requires
        fits(json_tree(*v), MAX_DEPTH as nat),
    ensures
        r is Ok,
        r->Ok_0@ == written_json(json_tree(*v)),
        parsed_json(r->Ok_0@) is Some,
        alike(json_tree(*v), parsed_json(r->Ok_0@)->Some_0),
        float_free(json_tree(*v)) ==> parsed_json(r->Ok_0@) == Some(json_tree(*v)),
{
    serde_json::to_vec(v)
}

/// `serde_json::Number::as_i128`: the integer that the number holds, whether it is stored with a
/// sign or without, and nothing for a floating-point number.
pub assume_specification[ serde_json::Number::as_i128 ](n: &serde_json::Number) -> (r: Option<i128>)
    ensures
        match r {
            Some(i) => number_integer(*n) == Some(i as int),
            None => number_integer(*n) is None,
        },
;

/// `serde_json::Number::from` an `i64`: the number holds that integer.
#[verifier::external_body]
fn number_from(i: i64) -> (n: Number)
    ensures
        number_integer(n) == Some(i as int),
{
    Number::from(i)
}

impl Json {
    /// A number that is the integer `i`.
    pub fn integer(i: i64) -> (j: Json)
        ensures
            j.tree() == JsonTree::Integer(i as int),
    {
        Json::Number(number_from(i))
    }

    /// The integer that the document is.
    pub fn as_integer(&self) -> (r: Option<i128>)
        ensures
            match self.tree() {
                JsonTree::Integer(i) => r matches Some(n) && n == i,
                _ => r is None,
            },
    {
        match self {
            Json::Number(n) => n.as_i128(),
            _ => None,
        }
    }

    /// Reads a document from its text, as `serde_json` reads it.
    pub fn parse(raw: &[u8]) -> (r: Result<Json, serde_json::Error>)
        ensures
            match r {
                Ok(j) => parsed_json(raw@) == Some(j.tree()) && fits(j.tree(), MAX_DEPTH as nat),
                Err(_) => parsed_json(raw@) is None,
            },
    {
        match parse_value(raw) {
            Ok(v) => Ok(Json::from_value(v)),
            Err(e) => Err(e),
        }
    }

    /// Writes the document as text, as `serde_json` writes it. Read again, the text gives the
    /// document back, but for the values of floating-point numbers.
    pub fn write(self) -> (bytes: Vec<u8>)
        requires
            fits(self.tree(), MAX_DEPTH as nat),
        ensures
            bytes@ == written_json(self.tree()),
            parsed_json(bytes@) matches Some(t) && alike(self.tree(), t),
            float_free(self.tree()) ==> parsed_json(bytes@) == Some(self.tree()),
    {
        match write_value(&self.into_value()) {
            Ok(bytes) => bytes,
            Err(_) => Vec::new(),
        }
    }

    fn from_value(v: Value) -> (j: Json)
        ensures
            j.tree() == json_tree(v),
        decreases json_tree(v),
    {
        match open_value(v) {
            JsonNode::Null => Json::Null,
            JsonNode::Bool(b) => Json::Bool(b),
            JsonNode::Number(n) => Json::Number(n),
            JsonNode::Text(s) => Json::Text(s),
            JsonNode::Array(items) => {
                let ghost all = items@;
                let mut out: Vec<Json> = Vec::new();
                for item in it: items
                    invariant
                        it.seq() == all,
                        json_tree(v) == JsonTree::Array(all.map_values(|v: Value| json_tree(v))),
                        out@.len() == it.index(),
                        forall|i: int|
                            0 <= i < out@.len() ==> (#[trigger] out@[i]).tree() == json_tree(all[i]),
                {
                    proof {
                        assert(json_tree(v)->Array_0[it.index() as int] == json_tree(item));
                    }
                    out.push(Json::from_value(item));
                }
                let j = Json::Array(out);
                assert(j.tree()->Array_0 =~= json_tree(v)->Array_0);
                j
            },
            JsonNode::Object(fields) => {
                let ghost all = fields@;
                let mut out: Vec<(String, Json)> = Vec::new();
                for field in it: fields
                    invariant
                        it.seq() == all,
                        json_tree(v) == JsonTree::Object(field_trees(all)),
                        distinct_keys(all),
                        out@.len() == it.index(),
                        forall|i: int|
                            0 <= i < out@.len() ==> (#[trigger] out@[i]).0@ == all[i].0@
                                && out@[i].1.tree() == json_tree(all[i].1),
                {
                    proof {
                        let at = it.index() as int;
                        assert(all[at].0@ == field.0@);
                        assert(has_key(all, field.0@));
                        assert(key_index(all, field.0@) == at);
                        assert(json_tree(v)->Object_0[field.0@] == json_tree(field.1));
                    }
                    out.push((field.0, Json::from_value(field.1)));
                }
                let o = JsonObject { fields: out };
                proof {
                    assert forall|key: Seq<char>| has_key(all, key) == has_key(o.fields@, key) by {
                        if has_key(all, key) {
                            let i = key_index(all, key);
                            assert(o.fields@[i].0@ == key);
                        }
                        if has_key(o.fields@, key) {
                            let i = key_index(o.fields@, key);
                            assert(all[i].0@ == key);
                        }
                    }
                    assert(o.trees() =~= field_trees(all));
                }
                Json::Object(o)
            },
        }
    }

    fn into_value(self) -> (v: Value)
        ensures
            json_tree(v) == self.tree(),
        decreases self,
    {
        match self {
            Json::Null => close_value(JsonNode::Null),
            Json::Bool(b) => close_value(JsonNode::Bool(b)),
            Json::Number(n) => close_value(JsonNode::Number(n)),
            Json::Text(s) => close_value(JsonNode::Text(s)),
            Json::Array(items) => {
                let ghost all = items@;
                let mut out: Vec<Value> = Vec::new();
                for item in it: items
                    invariant
                        it.seq() == all,
                        self == Json::Array(items),
                        all == items@,
                        out@.len() == it.index(),
                        forall|i: int|
                            0 <= i < out@.len() ==> json_tree(#[trigger] out@[i]) == all[i].tree(),
                {
                    proof {
                        assert(item == items[it.index() as int]);
                        assert(decreases_to!(self => self->Array_0));
                        assert(decreases_to!(items => items[it.index() as int]));
                    }
                    out.push(item.into_value());
                }
                let node = JsonNode::Array(out);
                assert(node.tree()->Array_0 =~= self.tree()->Array_0);
                close_value(node)
            },
            Json::Object(o) => {
                proof {
                    use_type_invariant(&o);
                }
                let fields = o.fields;
                let ghost all = fields@;
                let mut out: Vec<(String, Value)> = Vec::new();
                for field in it: fields
                    invariant
                        it.seq() == all,
                        self == Json::Object(o),
                        o.fields == fields,
                        all == fields@,
                        out@.len() == it.index(),
                        forall|i: int|
                            0 <= i < out@.len() ==> (#[trigger] out@[i]).0@ == all[i].0@ && json_tree(
                                out@[i].1,
                            ) == all[i].1.tree(),
                {
                    proof {
                        assert(field == o.fields[it.index() as int]);
                        assert(decreases_to!(self => self->Object_0));
                        assert(decreases_to!(o => o.fields));
                        assert(decreases_to!(o.fields => o.fields[it.index() as int]));
                        assert(decreases_to!(field => field.1));
                    }
                    out.push((field.0, field.1.into_value()));
                }
                let node = JsonNode::Object(out);
                proof {
                    assert forall|key: Seq<char>| has_key(all, key) == has_key(out@, key) by {
                        if has_key(all, key) {
                            let i = key_index(all, key);
                            assert(out@[i].0@ == key);
                        }
                        if has_key(out@, key) {
                            let i = key_index(out@, key);
                            assert(all[i].0@ == key);
                        }
                    }
                    assert(field_trees(out@) =~= o.trees());
                }
                close_value(node)
            },
        }
    }
}

/// A document says what it holds, each scalar as it is and each item in its place.
pub proof fn law_tree(b: bool, n: Number, s: String, items: Vec<Json>, fields: JsonObject)
    ensures
        Json::Null.tree() == JsonTree::Null,
        Json::Bool(b).tree() == JsonTree::Bool(b),
        Json::Text(s).tree() == JsonTree::Text(s@),
        number_integer(n) matches Some(i) ==> Json::Number(n).tree() == JsonTree::Integer(i),
        number_integer(n) is None ==> Json::Number(n).tree() == JsonTree::Float(n),
        Json::Array(items).tree() matches JsonTree::Array(trees) && trees.len() == items@.len()
            && forall|i: int| 0 <= i < items@.len() ==> #[trigger] trees[i] == items@[i].tree(),
        Json::Object(fields).tree() == JsonTree::Object(fields.trees()),
{
}

/// A document holds no floating-point number exactly if it is none, and no item and no field holds
/// one.
pub proof fn law_float_free(t: JsonTree)
    ensures
        t is Float ==> !float_free(t),
        t is Array ==> (float_free(t) <==> forall|i: int|
            0 <= i < t->Array_0.len() ==> float_free(#[trigger] t->Array_0[i])),
        t is Object ==> (float_free(t) <==> forall|key: Seq<char>| #[trigger]
            t->Object_0.contains_key(key) ==> float_free(t->Object_0[key])),
        !(t is Float || t is Array || t is Object) ==> float_free(t),
{
    reveal_with_fuel(float_free, 3);
    if t is Array && float_free(t) {
        assert forall|i: int| 0 <= i < t->Array_0.len() implies float_free(
            #[trigger] t->Array_0[i],
        ) by {}
    }
    if t is Object && float_free(t) {
        assert forall|key: Seq<char>| #[trigger] t->Object_0.contains_key(key) implies float_free(
            t->Object_0[key],
        ) by {}
    }
}

/// Documents that are alike and hold no floating-point number are the same.
pub proof fn law_alike_without_floats(s: JsonTree, t: JsonTree)
    requires
        alike(s, t),
        float_free(s),
    ensures
        s == t,
    decreases s,
{
    match (s, t) {
        (JsonTree::Array(a), JsonTree::Array(b)) => {
            assert forall|i: int| 0 <= i < a.len() implies #[trigger] a[i] == b[i] by {
                law_alike_without_floats(a[i], b[i]);
            }
            assert(a =~= b);
        },
        (JsonTree::Object(a), JsonTree::Object(b)) => {
            assert forall|key: Seq<char>| a.contains_key(key) implies #[trigger] a[key]
                == b[key] by {
                law_alike_without_floats(a[key], b[key]);
            }
            assert(a =~= b);
        },
        _ => {},
    }
}

/// Documents that are alike are of the same sort, with as many items and the same field names, and
/// their items and fields are alike.
pub proof fn law_alike(s: JsonTree, t: JsonTree)
    requires
        alike(s, t),
    ensures
        s is Float <==> t is Float,
        s is Array <==> t is Array,
        s is Object <==> t is Object,
        !(s is Float || s is Array || s is Object) ==> s == t,
        s is Array ==> s->Array_0.len() == t->Array_0.len() && forall|i: int|
            0 <= i < s->Array_0.len() ==> alike(#[trigger] s->Array_0[i], t->Array_0[i]),
        s is Object ==> s->Object_0.dom() == t->Object_0.dom() && forall|key: Seq<char>| #[trigger]
            s->Object_0.contains_key(key) ==> alike(s->Object_0[key], t->Object_0[key]),
{
}

/// Scalars fit at any depth, and arrays and objects one level deeper than what is in them.
pub proof fn law_fits(t: JsonTree, depth: nat)
    ensures
        !(t is Array || t is Object) ==> fits(t, depth),
        t is Array || t is Object ==> !fits(t, 0),
        t is Array ==> (fits(t, depth + 1) <==> forall|i: int|
            0 <= i < t->Array_0.len() ==> fits(#[trigger] t->Array_0[i], depth)),
        t is Object ==> (fits(t, depth + 1) <==> forall|key: Seq<char>| #[trigger]
            t->Object_0.contains_key(key) ==> fits(t->Object_0[key], depth)),
{
    reveal_with_fuel(fits, 3);
    assert((depth + 1 - 1) as nat == depth);
}

/// One level of a value says what it holds: each scalar as it is, each item in its place, and each
/// field under its name, with none left out.
proof fn law_one_level(
    b: bool,
    n: Number,
    s: String,
    items: Vec<Value>,
    fields: Vec<(String, Value)>,
    i: int,
)
    requires
        distinct_keys(fields@),
    ensures
        JsonNode::Null.tree() == JsonTree::Null,
        JsonNode::Bool(b).tree() == JsonTree::Bool(b),
        JsonNode::Text(s).tree() == JsonTree::Text(s@),
        number_integer(n) matches Some(k) ==> JsonNode::Number(n).tree() == JsonTree::Integer(k),
        number_integer(n) is None ==> JsonNode::Number(n).tree() == JsonTree::Float(n),
        JsonNode::Array(items).tree() is Array,
        JsonNode::Array(items).tree()->Array_0.len() == items@.len(),
        0 <= i < items@.len() ==> JsonNode::Array(items).tree()->Array_0[i] == json_tree(items@[i]),
        JsonNode::Object(fields).tree() is Object,
        0 <= i < fields@.len() ==> JsonNode::Object(fields).tree()->Object_0.contains_key(
            fields@[i].0@,
        ) && JsonNode::Object(fields).tree()->Object_0[fields@[i].0@] == json_tree(fields@[i].1),
        forall|key: Seq<char>| #[trigger]
            JsonNode::Object(fields).tree()->Object_0.contains_key(key) ==> exists|k: int|
                0 <= k < fields@.len() && (#[trigger] fields@[k]).0@ == key,
{
    if 0 <= i < fields@.len() {
        assert(has_key(fields@, fields@[i].0@));
        assert(key_index(fields@, fields@[i].0@) == i);
    }
}

} // verus!
