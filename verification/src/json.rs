//! JSON documents as trees.

use vstd::prelude::*;

verus! {

/// The number type of `serde_json`. The library only hands such numbers on.
#[verifier::external_type_specification]
#[verifier::external_body]
pub struct ExNumber(serde_json::Number);

/// The document type of `serde_json`. Its contents are seen through [`value_tree`].
#[verifier::external_type_specification]
#[verifier::external_body]
pub struct ExValue(serde_json::Value);

/// The object type of `serde_json`. Its contents are seen through [`map_members`].
#[verifier::external_type_specification]
#[verifier::external_body]
#[verifier::reject_recursive_types(K)]
#[verifier::reject_recursive_types(V)]
pub struct ExMap<K, V>(serde_json::Map<K, V>);

/// The error type of `serde_json`.
#[verifier::external_type_specification]
#[verifier::external_body]
pub struct ExError(serde_json::Error);

/// A JSON document. The members of an object keep the order in which they were put in.
#[derive(Debug, PartialEq, Eq)]
pub enum Json {
    Null,
    Bool(bool),
    Number(serde_json::Number),
    String(String),
    Array(Vec<Json>),
    Object(Vec<(String, Json)>),
}

/// What a [`Json`] document holds.
pub enum JsonTree {
    Null,
    Bool(bool),
    Number(serde_json::Number),
    String(Seq<char>),
    Array(Seq<JsonTree>),
    Object(Seq<(Seq<char>, JsonTree)>),
}

impl Json {
    /// The tree of the document.
    pub open spec fn tree(self) -> JsonTree
        decreases self,
    {
        match self {
            Json::Null => JsonTree::Null,
            Json::Bool(b) => JsonTree::Bool(b),
            Json::Number(n) => JsonTree::Number(n),
            Json::String(s) => JsonTree::String(s@),
            Json::Array(items) => JsonTree::Array(
                Seq::new(
                    items@.len(),
                    |i: int|
                        if 0 <= i < items@.len() {
                            items@[i].tree()
                        } else {
                            JsonTree::Null
                        },
                ),
            ),
            Json::Object(members) => JsonTree::Object(
                Seq::new(
                    members@.len(),
                    |i: int|
                        if 0 <= i < members@.len() {
                            (members@[i].0@, members@[i].1.tree())
                        } else {
                            (seq![], JsonTree::Null)
                        },
                ),
            ),
        }
    }
}

/// What a `serde_json::Value` holds.
pub uninterp spec fn value_tree(value: serde_json::Value) -> JsonTree;

/// The members of a `serde_json::Map`, in the order in which it hands them out.
pub uninterp spec fn map_members(map: serde_json::Map<String, serde_json::Value>) -> Seq<
    (Seq<char>, JsonTree),
>;

/// The text that a `serde_json::Error` displays.
pub uninterp spec fn error_message(error: serde_json::Error) -> Seq<char>;

/// What `serde_json` reads in a text: a document, or the message that says why there is none.
pub uninterp spec fn json_text(text: Seq<char>) -> Result<JsonTree, Seq<char>>;

/// One layer of a `serde_json::Value`.
pub enum ValueParts {
    Null,
    Bool(bool),
    Number(serde_json::Number),
    String(String),
    Array(Vec<serde_json::Value>),
    Object(serde_json::Map<String, serde_json::Value>),
}

impl ValueParts {
    /// The tree whose top layer this is.
    pub open spec fn tree(self) -> JsonTree {
        match self {
            ValueParts::Null => JsonTree::Null,
            ValueParts::Bool(b) => JsonTree::Bool(b),
            ValueParts::Number(n) => JsonTree::Number(n),
            ValueParts::String(s) => JsonTree::String(s@),
            ValueParts::Array(items) => JsonTree::Array(
                items@.map_values(|v: serde_json::Value| value_tree(v)),
            ),
            ValueParts::Object(map) => JsonTree::Object(map_members(map)),
        }
    }
}

/// `serde_json::from_str`, reading a whole text as a `serde_json::Value`. The outcome is named
/// by [`json_text`]: nothing else is claimed of which texts are read and what they hold.
#[verifier::external_body]
fn value_from_str(text: &str) -> (res: Result<serde_json::Value, serde_json::Error>)
    ensures
        match res {
            Ok(value) => json_text(text@) == Ok::<JsonTree, Seq<char>>(value_tree(value)),
            Err(error) => json_text(text@) == Err::<JsonTree, Seq<char>>(error_message(error)),
        },
{
    serde_json::from_str(text)
}

/// The `Display` text of a `serde_json::Error`, named by [`error_message`].
#[verifier::external_body]
fn error_text(error: &serde_json::Error) -> (text: String)
    ensures
        text@ == error_message(*error),
{
    error.to_string()
}

/// The variant of a `serde_json::Value` and its field: the parts are one layer of its tree.
#[verifier::external_body]
fn value_parts(value: serde_json::Value) -> (parts: ValueParts)
    ensures
        parts.tree() == value_tree(value),
{
    match value {
        serde_json::Value::Null => ValueParts::Null,
        serde_json::Value::Bool(b) => ValueParts::Bool(b),
        serde_json::Value::Number(n) => ValueParts::Number(n),
        serde_json::Value::String(s) => ValueParts::String(s),
        serde_json::Value::Array(items) => ValueParts::Array(items),
        serde_json::Value::Object(map) => ValueParts::Object(map),
    }
}

/// `serde_json::Map::into_iter`, collected: the members of the map, each key with its value. No
/// key comes twice.
#[verifier::external_body]
fn map_into_members(map: serde_json::Map<String, serde_json::Value>) -> (members: Vec<
    (String, serde_json::Value),
>)
    ensures
        map_members(map) == members@.map_values(
            |m: (String, serde_json::Value)| (m.0@, value_tree(m.1)),
        ),
        forall|i: int, j: int|
            0 <= i < j < members@.len() ==> (#[trigger] members@[i]).0@ != (
            #[trigger] members@[j]).0@,
{
    map.into_iter().collect()
}

/// `serde_json::Number::clone`: the copy is the same number.
pub assume_specification[ <serde_json::Number as Clone>::clone ](
    number: &serde_json::Number,
) -> (copy: serde_json::Number)
    ensures
        copy == *number,
;

/// Every object of the document has each key once.
pub open spec fn distinct_keys(t: JsonTree) -> bool
    decreases t,
{
    match t {
        JsonTree::Array(items) => forall|i: int|
            0 <= i < items.len() ==> distinct_keys(#[trigger] items[i]),
        JsonTree::Object(members) => {
            &&& forall|i: int, j: int|
                0 <= i < j < members.len() ==> (#[trigger] members[i]).0 != (
                #[trigger] members[j]).0
            &&& forall|i: int| 0 <= i < members.len() ==> distinct_keys((#[trigger] members[i]).1)
        },
        _ => true,
    }
}

/// The document that a `serde_json::Value` holds. Every object of it has each key once.
pub fn json_from_value(value: serde_json::Value) -> (json: Json)
    ensures
        json.tree() == value_tree(value),
        distinct_keys(json.tree()),
    decreases value_tree(value),
{
    let ghost tree = value_tree(value);
    match value_parts(value) {
        ValueParts::Null => Json::Null,
        ValueParts::Bool(b) => Json::Bool(b),
        ValueParts::Number(n) => Json::Number(n),
        ValueParts::String(s) => Json::String(s),
        ValueParts::Array(values) => {
            let ghost all = values@;
            let ghost trees = all.map_values(|v: serde_json::Value| value_tree(v));
            let mut items: Vec<Json> = Vec::new();
            for next in it: values
                invariant
                    it.seq() == all,
                    trees == all.map_values(|v: serde_json::Value| value_tree(v)),
                    tree == JsonTree::Array(trees),
                    tree == value_tree(value),
                    items@.len() == it.index(),
                    forall|i: int|
                        0 <= i < items@.len() ==> (#[trigger] items@[i]).tree() == trees[i]
                            && distinct_keys(trees[i]),
            {
                proof {
                    let k = it.index() as int;
                    assert(trees[k] == value_tree(next));
                    assert(decreases_to!(tree => tree->Array_0));
                    assert(decreases_to!(tree->Array_0 => trees[k]));
                }
                items.push(json_from_value(next));
            }
            let json = Json::Array(items);
            proof {
                let t = json.tree();
                assert(t->Array_0 =~= trees);
                assert forall|i: int| 0 <= i < trees.len() implies distinct_keys(
                    #[trigger] trees[i],
                ) by {
                    assert(items@[i].tree() == trees[i]);
                }
                assert(distinct_keys(t));
            }
            json
        },
        ValueParts::Object(map) => {
            let pairs = map_into_members(map);
            let ghost all = pairs@;
            let ghost trees = all.map_values(
                |m: (String, serde_json::Value)| (m.0@, value_tree(m.1)),
            );
            let mut members: Vec<(String, Json)> = Vec::new();
            for pair in it: pairs
                invariant
                    it.seq() == all,
                    trees == all.map_values(
                        |m: (String, serde_json::Value)| (m.0@, value_tree(m.1)),
                    ),
                    tree == JsonTree::Object(trees),
                    tree == value_tree(value),
                    members@.len() == it.index(),
                    forall|i: int|
                        0 <= i < members@.len() ==> (
                        (#[trigger] members@[i]).0@,
                        members@[i].1.tree(),
                        ) == trees[i] && distinct_keys(trees[i].1),
            {
                let (key, next) = pair;
                proof {
                    let k = it.index() as int;
                    assert(trees[k] == (key@, value_tree(next)));
                    assert(decreases_to!(tree => tree->Object_0));
                    assert(decreases_to!(tree->Object_0 => trees[k]));
                    assert(decreases_to!(trees[k] => trees[k].1));
                }
                let json = json_from_value(next);
                members.push((key, json));
            }
            let json = Json::Object(members);
            proof {
                let t = json.tree();
                assert(t->Object_0 =~= trees);
                assert forall|i: int, j: int| 0 <= i < j < trees.len() implies (
                #[trigger] trees[i]).0 != (#[trigger] trees[j]).0 by {
                    assert(all[i].0@ != all[j].0@);
                }
                assert forall|i: int| 0 <= i < trees.len() implies distinct_keys(
                    (#[trigger] trees[i]).1,
                ) by {
                    assert(members@[i].1.tree() == trees[i].1);
                }
                assert(distinct_keys(t));
            }
            json
        },
    }
}

/// Reads a text as a JSON document; where it is none, says why.
pub fn parse_json(text: &str) -> (res: Result<Json, String>)
    ensures
        match res {
            Ok(json) => json_text(text@) == Ok::<JsonTree, Seq<char>>(json.tree())
                && distinct_keys(json.tree()),
            Err(message) => json_text(text@) == Err::<JsonTree, Seq<char>>(message@),
        },
{
    match value_from_str(text) {
        Ok(value) => Ok(json_from_value(value)),
        Err(error) => Err(error_text(&error)),
    }
}

impl Json {
    /// A copy of the document.
    pub fn duplicate(&self) -> (copy: Json)
        ensures
            copy.tree() == self.tree(),
        decreases self,
    {
        match self {
            Json::Null => Json::Null,
            Json::Bool(b) => Json::Bool(*b),
            Json::Number(n) => Json::Number(n.clone()),
            Json::String(s) => Json::String(s.clone()),
            Json::Array(items) => {
                let mut copies: Vec<Json> = Vec::new();
                let mut i: usize = 0;
                while i < items.len()
                    invariant
                        *self == Json::Array(*items),
                        i <= items@.len(),
                        copies@.len() == i,
                        forall|j: int|
                            0 <= j < i ==> (#[trigger] copies@[j]).tree() == items@[j].tree(),
                    decreases items.len() - i,
                {
                    assert(decreases_to!(*self => self->Array_0));
                    assert(decreases_to!(items@ => items@[i as int]));
                    copies.push(items[i].duplicate());
                    i += 1;
                }
                let copy = Json::Array(copies);
                assert(copy.tree()->Array_0 =~= self.tree()->Array_0);
                copy
            },
            Json::Object(members) => {
                let mut copies: Vec<(String, Json)> = Vec::new();
                let mut i: usize = 0;
                while i < members.len()
                    invariant
                        *self == Json::Object(*members),
                        i <= members@.len(),
                        copies@.len() == i,
                        forall|j: int|
                            0 <= j < i ==> (#[trigger] copies@[j]).0@ == members@[j].0@
                                && copies@[j].1.tree() == members@[j].1.tree(),
                    decreases members.len() - i,
                {
                    assert(decreases_to!(*self => self->Object_0));
                    assert(decreases_to!(members@ => members@[i as int]));
                    assert(decreases_to!(members@[i as int] => members@[i as int].1));
                    copies.push((members[i].0.clone(), members[i].1.duplicate()));
                    i += 1;
                }
                let copy = Json::Object(copies);
                assert(copy.tree()->Object_0 =~= self.tree()->Object_0);
                copy
            },
        }
    }
}

/// The tree of a document holds the document, layer by layer: of a list every item, in its place,
/// and of an object every member, in its place and under its key.
pub proof fn law_a_tree_holds_the_document(json: Json)
    ensures
        match json {
            Json::Null => json.tree() is Null,
            Json::Bool(b) => json.tree() == JsonTree::Bool(b),
            Json::Number(n) => json.tree() == JsonTree::Number(n),
            Json::String(s) => json.tree() == JsonTree::String(s@),
            Json::Array(items) => {
                &&& json.tree() is Array
                &&& json.tree()->Array_0.len() == items@.len()
                &&& forall|i: int|
                    0 <= i < items@.len() ==> #[trigger] json.tree()->Array_0[i]
                        == items@[i].tree()
            },
            Json::Object(members) => {
                &&& json.tree() is Object
                &&& json.tree()->Object_0.len() == members@.len()
                &&& forall|i: int|
                    0 <= i < members@.len() ==> #[trigger] json.tree()->Object_0[i] == (
                        members@[i].0@,
                        members@[i].1.tree(),
                    )
            },
        },
{
}

} // verus!
