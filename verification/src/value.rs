//! Structured documents as plain trees: manifests and `cargo metadata` output.
use crate::model;
use crate::text::same;
use serde_json::Value as Json;
use vstd::prelude::*;

verus! {

/// A node of a structured document.
#[derive(Debug, PartialEq, Eq)]
pub enum Value {
    Null,
    Bool(bool),
    /// An integer that fits an `i64`.
    Int(i64),
    /// Any other number.
    Number,
    Str(String),
    Array(Vec<Value>),
    /// Named values.
    Object(Vec<(String, Value)>),
}

/// What a [`Value`] holds.
#[verifier::ext_equal]
pub enum ValueView {
    Null,
    Bool(bool),
    Int(i64),
    Number,
    Str(Seq<char>),
    Array(Seq<ValueView>),
    Object(Seq<(Seq<char>, ValueView)>),
}

/// The view of a document.
pub open spec fn value_view(v: Value) -> ValueView
    decreases v,
{
    match v {
        Value::Null => ValueView::Null,
        Value::Bool(b) => ValueView::Bool(b),
        Value::Int(n) => ValueView::Int(n),
        Value::Number => ValueView::Number,
        Value::Str(s) => ValueView::Str(s@),
        Value::Array(a) => ValueView::Array(
            Seq::new(
                a@.len(),
                |i: int|
                    if 0 <= i < a@.len() {
                        value_view(a@[i])
                    } else {
                        arbitrary()
                    },
            ),
        ),
        Value::Object(a) => ValueView::Object(
            Seq::new(
                a@.len(),
                |i: int|
                    if 0 <= i < a@.len() {
                        (a@[i].0@, value_view(a@[i].1))
                    } else {
                        arbitrary()
                    },
            ),
        ),
    }
}

impl DeepView for Value {
    type V = ValueView;

    open spec fn deep_view(&self) -> ValueView {
        value_view(*self)
    }
}

/// The parts of a document are viewed one by one.
pub broadcast proof fn parts_view(v: Value)
    ensures
        v matches Value::Array(a) ==> #[trigger] value_view(v) == ValueView::Array(a.deep_view()),
        v matches Value::Object(a) ==> #[trigger] value_view(v) == ValueView::Object(
            a.deep_view(),
        ),
{
    match v {
        Value::Array(a) => {
            assert(value_view(v)->Array_0 =~= a.deep_view());
        },
        Value::Object(a) => {
            assert(value_view(v)->Object_0 =~= a.deep_view());
        },
        _ => {},
    }
}

/// The value of the first field called `key`, from field `from` on.
pub open spec fn field_from(
    fields: Seq<(Seq<char>, ValueView)>,
    key: Seq<char>,
    from: int,
) -> Option<ValueView>
    decreases fields.len() - from,
{
    if from < 0 || from >= fields.len() {
        None
    } else if fields[from].0 == key {
        Some(fields[from].1)
    } else {
        field_from(fields, key, from + 1)
    }
}

impl ValueView {
    /// The field called `key`; none where the value is no object or lacks it.
    pub open spec fn field(self, key: Seq<char>) -> Option<ValueView> {
        match self {
            ValueView::Object(fields) => field_from(fields, key, 0),
            _ => None,
        }
    }

    /// The text, where the value is one.
    pub open spec fn text(self) -> Option<Seq<char>> {
        match self {
            ValueView::Str(s) => Some(s),
            _ => None,
        }
    }

    /// The elements, where the value is an array.
    pub open spec fn elements(self) -> Option<Seq<ValueView>> {
        match self {
            ValueView::Array(a) => Some(a),
            _ => None,
        }
    }

    /// The text in the field called `key`.
    pub open spec fn text_at(self, key: Seq<char>) -> Option<Seq<char>> {
        match self.field(key) {
            Some(v) => v.text(),
            None => None,
        }
    }

    /// The elements of the array in the field called `key`.
    pub open spec fn elements_at(self, key: Seq<char>) -> Option<Seq<ValueView>> {
        match self.field(key) {
            Some(v) => v.elements(),
            None => None,
        }
    }
}

impl Value {
    /// The field called `key`.
    #[verifier::loop_isolation(false)]
    pub fn get(&self, key: &str) -> (r: Option<&Value>)
        ensures
            r.deep_view() == self.deep_view().field(key@),
    {
        broadcast use parts_view;

        match self {
            Value::Object(fields) => {
                let ghost fs = fields.deep_view();
                let mut i: usize = 0;
                while i < fields.len()
                    invariant
                        i <= fields.len(),
                        field_from(fs, key@, 0) == field_from(fs, key@, i as int),
                    decreases fields.len() - i,
                {
                    assert(fs[i as int] == fields@[i as int].deep_view());
                    if same(fields[i].0.as_str(), key) {
                        return Some(&fields[i].1);
                    }
                    i += 1;
                }
                None
            },
            _ => None,
        }
    }

    /// The text, where the value is one.
    pub fn as_str(&self) -> (r: Option<String>)
        ensures
            r.deep_view() == self.deep_view().text(),
    {
        match self {
            Value::Str(s) => Some(s.clone()),
            _ => None,
        }
    }

    /// The elements, where the value is an array.
    pub fn as_array(&self) -> (r: Option<&Vec<Value>>)
        ensures
            r.deep_view() == self.deep_view().elements(),
    {
        broadcast use parts_view;

        match self {
            Value::Array(a) => Some(a),
            _ => None,
        }
    }

    /// The text in the field called `key`.
    pub fn get_str(&self, key: &str) -> (r: Option<String>)
        ensures
            r.deep_view() == self.deep_view().text_at(key@),
    {
        match self.get(key) {
            Some(v) => v.as_str(),
            None => None,
        }
    }

    /// The elements of the array in the field called `key`.
    pub fn get_array(&self, key: &str) -> (r: Option<&Vec<Value>>)
        ensures
            r.deep_view() == self.deep_view().elements_at(key@),
    {
        match self.get(key) {
            Some(v) => v.as_array(),
            None => None,
        }
    }
}

// ── Parsing ──────────────────────────────────────────────────────────────

/// A node of a document as the parser hands it out: parts are texts.
#[derive(Debug, PartialEq, Eq)]
pub enum ValueNode {
    Null,
    Bool(bool),
    Int(i64),
    Number,
    Str(String),
    Array(Vec<String>),
    Object(Vec<(String, String)>),
}

/// What a [`ValueNode`] holds.
#[verifier::ext_equal]
pub enum ValueNodeView {
    Null,
    Bool(bool),
    Int(i64),
    Number,
    Str(Seq<char>),
    Array(Seq<Seq<char>>),
    Object(Seq<(Seq<char>, Seq<char>)>),
}

impl DeepView for ValueNode {
    type V = ValueNodeView;

    open spec fn deep_view(&self) -> ValueNodeView {
        match self {
            ValueNode::Null => ValueNodeView::Null,
            ValueNode::Bool(b) => ValueNodeView::Bool(*b),
            ValueNode::Int(n) => ValueNodeView::Int(*n),
            ValueNode::Number => ValueNodeView::Number,
            ValueNode::Str(s) => ValueNodeView::Str(s@),
            ValueNode::Array(a) => ValueNodeView::Array(a.deep_view()),
            ValueNode::Object(a) => ValueNodeView::Object(a.deep_view()),
        }
    }
}

/// The node a JSON text holds; none for a text that is no JSON.
pub uninterp spec fn parsed_json(text: Seq<char>) -> Option<ValueNodeView>;

/// The first document of a `serde_json::Deserializer` over the text, which may
/// nest to any depth: its node, with array elements and object fields rendered as
/// JSON texts. `None` where there is no document.
#[verifier::external_body]
pub(crate) fn json_node(text: &str) -> (r: Option<ValueNode>)
    ensures
        r.deep_view() == parsed_json(text@),
{
    let mut documents = serde_json::Deserializer::from_str(text);
    documents.disable_recursion_limit();
    Some(match documents.into_iter::<Json>().next()?.ok()? {
        Json::Null => ValueNode::Null,
        Json::Bool(b) => ValueNode::Bool(b),
        Json::Number(n) => n.as_i64().map_or(ValueNode::Number, ValueNode::Int),
        Json::String(s) => ValueNode::Str(s),
        Json::Array(a) => ValueNode::Array(a.iter().map(|v| v.to_string()).collect()),
        Json::Object(m) => ValueNode::Object(m.into_iter().map(|(k, v)| (k, v.to_string())).collect()),
    })
}

/// Why a text is refused as JSON; none for one that is accepted.
pub uninterp spec fn json_refusal(text: Seq<char>) -> Option<Seq<char>>;

/// `serde_json::from_str`: the parser's message, if it refuses the text. It
/// refuses what nests too deep.
#[verifier::external_body]
pub(crate) fn refuse_json(text: &str) -> (r: Option<String>)
    ensures
        r.deep_view() == json_refusal(text@),
{
    serde_json::from_str::<Json>(text).err().map(|e| e.to_string())
}

/// A TOML document as a JSON text, or why the text is none.
pub uninterp spec fn toml_as_json(text: Seq<char>) -> Result<Seq<char>, Seq<char>>;

/// `toml::from_str` into `toml::Value`, and `serde_json::to_string` of that: the
/// same tables, arrays, texts, booleans and integers as a JSON text, or the
/// parser's message. A date comes out as an object of one field, and a float
/// without a JSON form as null.
#[verifier::external_body]
pub(crate) fn toml_json(text: &str) -> (r: Result<String, String>)
    ensures
        model::outcome(r) == toml_as_json(text@),
{
    match toml::from_str::<toml::Value>(text) {
        Ok(v) => serde_json::to_string(&v).map_err(|e| e.to_string()),
        Err(e) => Err(e.to_string()),
    }
}

/// The document a JSON text holds, opened to a depth of `fuel`.
pub open spec fn json_to(text: Seq<char>, fuel: nat) -> ValueView
    decreases fuel,
{
    match parsed_json(text) {
        None => ValueView::Null,
        Some(node) => match node {
            ValueNodeView::Null => ValueView::Null,
            ValueNodeView::Bool(b) => ValueView::Bool(b),
            ValueNodeView::Int(n) => ValueView::Int(n),
            ValueNodeView::Number => ValueView::Number,
            ValueNodeView::Str(s) => ValueView::Str(s),
            ValueNodeView::Array(a) => if fuel == 0 {
                ValueView::Null
            } else {
                ValueView::Array(a.map_values(|t: Seq<char>| json_to(t, (fuel - 1) as nat)))
            },
            ValueNodeView::Object(a) => if fuel == 0 {
                ValueView::Null
            } else {
                ValueView::Object(
                    a.map_values(
                        |f: (Seq<char>, Seq<char>)| (f.0, json_to(f.1, (fuel - 1) as nat)),
                    ),
                )
            },
        },
    }
}

/// The whole document a JSON text holds: no text nests deeper than it is long.
pub open spec fn json_document(text: Seq<char>) -> ValueView {
    json_to(text, text.len())
}

/// The document a JSON text holds, or why it holds none.
pub open spec fn json_value(text: Seq<char>) -> Result<ValueView, Seq<char>> {
    match json_refusal(text) {
        None => Ok(json_document(text)),
        Some(e) => Err(e),
    }
}

/// The document a TOML text holds, or why it holds none.
pub open spec fn toml_value(text: Seq<char>) -> Result<ValueView, Seq<char>> {
    match toml_as_json(text) {
        Ok(json) => Ok(json_document(json)),
        Err(e) => Err(e),
    }
}

#[verifier::loop_isolation(false)]
fn read_json_to(text: &str, fuel: usize) -> (r: Value)
    ensures
        r.deep_view() == json_to(text@, fuel as nat),
    decreases fuel,
{
    broadcast use parts_view;

    match json_node(text) {
        None => Value::Null,
        Some(node) => match node {
            ValueNode::Null => Value::Null,
            ValueNode::Bool(b) => Value::Bool(b),
            ValueNode::Int(n) => Value::Int(n),
            ValueNode::Number => Value::Number,
            ValueNode::Str(s) => Value::Str(s),
            ValueNode::Array(a) => {
                if fuel == 0 {
                    return Value::Null;
                }
                let mut out: Vec<Value> = Vec::new();
                let mut i: usize = 0;
                while i < a.len()
                    invariant
                        i <= a.len(),
                        out.len() == i,
                        forall|j: int|
                            0 <= j < i ==> (#[trigger] out@[j]).deep_view() == json_to(
                                a@[j]@,
                                (fuel - 1) as nat,
                            ),
                    decreases a.len() - i,
                {
                    out.push(read_json_to(a[i].as_str(), fuel - 1));
                    i += 1;
                }
                let r = Value::Array(out);
                assert(r.deep_view()->Array_0 =~= json_to(text@, fuel as nat)->Array_0);
                r
            },
            ValueNode::Object(a) => {
                if fuel == 0 {
                    return Value::Null;
                }
                let mut out: Vec<(String, Value)> = Vec::new();
                let mut i: usize = 0;
                while i < a.len()
                    invariant
                        i <= a.len(),
                        out.len() == i,
                        forall|j: int|
                            0 <= j < i ==> (#[trigger] out@[j]).deep_view() == (
                                a@[j].0@,
                                json_to(a@[j].1@, (fuel - 1) as nat),
                            ),
                    decreases a.len() - i,
                {
                    out.push((a[i].0.clone(), read_json_to(a[i].1.as_str(), fuel - 1)));
                    i += 1;
                }
                let r = Value::Object(out);
                assert(r.deep_view()->Object_0 =~= json_to(text@, fuel as nat)->Object_0);
                r
            },
        },
    }
}

fn read_document(text: &str) -> (r: Value)
    ensures
        r.deep_view() == json_document(text@),
{
    let fuel: usize = text.unicode_len();
    read_json_to(text, fuel)
}

/// Reads a JSON document.
pub fn read_json(text: &str) -> (r: Result<Value, String>)
    ensures
        model::outcome(r) == json_value(text@),
{
    match refuse_json(text) {
        None => Ok(read_document(text)),
        Some(e) => Err(e),
    }
}

/// Reads a TOML document.
pub fn read_toml(text: &str) -> (r: Result<Value, String>)
    ensures
        model::outcome(r) == toml_value(text@),
{
    match toml_json(text) {
        Ok(json) => Ok(read_document(json.as_str())),
        Err(e) => Err(e),
    }
}

} // verus!
