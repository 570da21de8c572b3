//! Tool definitions in the format of the Chat Completions API.
//!
//! The chat template of vLLM cannot handle `oneOf` and `anyOf` in a parameter schema, so the
//! schemas are flattened first.

use crate::error::{CodexErr, CodexErrView};
use crate::json;
use crate::json::{Json, JsonTree};
use crate::nemotron_types::{ChatTool, ChatToolFunction, ChatToolFunctionView, ChatToolView};
use crate::text;
use crate::tools::spec::ToolSpec;
use vstd::prelude::*;

verus! {

/// The members of a JSON object.
pub type Members = Seq<(Seq<char>, JsonTree)>;

/// The value of the first member with the given key.
pub open spec fn member(members: Members, key: Seq<char>) -> Option<JsonTree>
    decreases members.len(),
{
    if members.len() == 0 {
        None
    } else if members[0].0 == key {
        Some(members[0].1)
    } else {
        member(members.drop_first(), key)
    }
}

/// The first variant of the union under `key`. None where there is no such member, or it is no
/// array, or the array is empty.
pub open spec fn first_variant(members: Members, key: Seq<char>) -> Option<JsonTree> {
    match member(members, key) {
        Some(JsonTree::Array(variants)) => if variants.len() > 0 {
            Some(variants[0])
        } else {
            None
        },
        _ => None,
    }
}

/// The variant that stands for a schema that is a union: `oneOf` goes before `anyOf`.
pub open spec fn union_variant(members: Members) -> Option<JsonTree> {
    match first_variant(members, "oneOf"@) {
        Some(variant) => Some(variant),
        None => first_variant(members, "anyOf"@),
    }
}

/// A schema object with a description put in, unless it has one or there is none to put in.
pub open spec fn with_description(schema: JsonTree, description: Option<JsonTree>) -> JsonTree {
    match (schema, description) {
        (JsonTree::Object(members), Some(d)) => if member(members, "description"@) is None {
            JsonTree::Object(members.push(("description"@, d)))
        } else {
            schema
        },
        _ => schema,
    }
}

/// What stands under a key of a schema.
#[derive(Debug, Clone, Copy, PartialEq, Eq, Structural)]
pub enum Holds {
    /// A schema, or a list of schemas.
    Schema,
    /// Schemas, each under a name of its own.
    NamedSchemas,
    /// No schema.
    NoSchema,
}

/// What stands under a key of a schema, by the vocabulary of JSON Schema. The unions are not
/// among these keys: a union is replaced as a whole.
pub open spec fn holds(key: Seq<char>) -> Holds {
    if key == "items"@ || key == "prefixItems"@ || key == "additionalItems"@ || key
        == "unevaluatedItems"@ || key == "contains"@ || key == "additionalProperties"@ || key
        == "unevaluatedProperties"@ || key == "propertyNames"@ || key == "contentSchema"@ || key
        == "allOf"@ || key == "not"@ || key == "if"@ || key == "then"@ || key == "else"@ {
        Holds::Schema
    } else if key == "properties"@ || key == "patternProperties"@ || key == "dependentSchemas"@
        || key == "dependencies"@ || key == "$defs"@ || key == "definitions"@ {
        Holds::NamedSchemas
    } else {
        Holds::NoSchema
    }
}

/// How many nodes a tree has.
pub open spec fn size(t: JsonTree) -> nat
    decreases t,
{
    match t {
        JsonTree::Array(items) => 1 + items_size(items),
        JsonTree::Object(members) => 1 + members_size(members),
        _ => 1,
    }
}

pub open spec fn items_size(items: Seq<JsonTree>) -> nat
    decreases items,
{
    if items.len() == 0 {
        0
    } else {
        size(items[0]) + items_size(items.drop_first())
    }
}

pub open spec fn members_size(members: Members) -> nat
    decreases members,
{
    if members.len() == 0 {
        0
    } else {
        size(members[0].1) + members_size(members.drop_first())
    }
}

/// A schema without unions: each union is replaced by its first variant, which takes over the
/// description of the union if it has none; then every schema within it is flattened. Of a list
/// of schemas each is flattened.
pub open spec fn flattened(schema: JsonTree) -> JsonTree
    decreases size(schema),
{
    match schema {
        JsonTree::Array(items) => {
            proof {
                lemma_item_sizes(items);
            }
            JsonTree::Array(
                Seq::new(
                    items.len(),
                    |i: int|
                        if 0 <= i < items.len() {
                            flattened(items[i])
                        } else {
                            JsonTree::Null
                        },
                ),
            )
        },
        JsonTree::Object(members) => {
            proof {
                lemma_member_sizes(members);
                lemma_variant_size(members);
            }
            match union_variant(members) {
                Some(variant) => flattened(
                    with_description(variant, member(members, "description"@)),
                ),
                None => JsonTree::Object(
                    Seq::new(
                        members.len(),
                        |i: int|
                            if 0 <= i < members.len() {
                                match holds(members[i].0) {
                                    Holds::Schema => (members[i].0, flattened(members[i].1)),
                                    Holds::NamedSchemas => (
                                        members[i].0,
                                        flattened_named(members[i].1),
                                    ),
                                    Holds::NoSchema => members[i],
                                }
                            } else {
                                (seq![], JsonTree::Null)
                            },
                    ),
                ),
            }
        },
        _ => schema,
    }
}

/// Named schemas, each flattened.
pub open spec fn flattened_named(schemas: JsonTree) -> JsonTree
    decreases size(schemas),
{
    match schemas {
        JsonTree::Object(members) => {
            proof {
                lemma_member_sizes(members);
            }
            JsonTree::Object(
                Seq::new(
                    members.len(),
                    |i: int|
                        if 0 <= i < members.len() {
                            (members[i].0, flattened(members[i].1))
                        } else {
                            (seq![], JsonTree::Null)
                        },
                ),
            )
        },
        _ => schemas,
    }
}

proof fn lemma_items_size_at(items: Seq<JsonTree>, i: int)
    requires
        0 <= i < items.len(),
    ensures
        size(items[i]) <= items_size(items),
    decreases items.len(),
{
    if i > 0 {
        lemma_items_size_at(items.drop_first(), i - 1);
        assert(items.drop_first()[i - 1] == items[i]);
    }
}

pub proof fn lemma_item_sizes(items: Seq<JsonTree>)
    ensures
        forall|i: int|
            0 <= i < items.len() ==> size(#[trigger] items[i]) < size(JsonTree::Array(items)),
{
    assert forall|i: int| 0 <= i < items.len() implies size(#[trigger] items[i]) < size(
        JsonTree::Array(items),
    ) by {
        lemma_items_size_at(items, i);
    }
}

proof fn lemma_members_size_at(members: Members, i: int)
    requires
        0 <= i < members.len(),
    ensures
        size(members[i].1) <= members_size(members),
    decreases members.len(),
{
    if i > 0 {
        lemma_members_size_at(members.drop_first(), i - 1);
        assert(members.drop_first()[i - 1] == members[i]);
    }
}

pub proof fn lemma_member_sizes(members: Members)
    ensures
        forall|i: int|
            0 <= i < members.len() ==> size(#[trigger] members[i].1) < size(
                JsonTree::Object(members),
            ),
{
    assert forall|i: int| 0 <= i < members.len() implies size(#[trigger] members[i].1) < size(
        JsonTree::Object(members),
    ) by {
        lemma_members_size_at(members, i);
    }
}

proof fn lemma_two_members_size(members: Members, k1: Seq<char>, k2: Seq<char>)
    requires
        k1 != k2,
    ensures
        (match member(members, k1) {
            Some(a) => size(a),
            None => 0,
        }) + (match member(members, k2) {
            Some(b) => size(b),
            None => 0,
        }) <= members_size(members),
    decreases members.len(),
{
    if members.len() > 0 {
        lemma_two_members_size(members.drop_first(), k1, k2);
        lemma_member_size_le(members.drop_first(), k1);
        lemma_member_size_le(members.drop_first(), k2);
    }
}

proof fn lemma_member_size_le(members: Members, k: Seq<char>)
    ensures
        member(members, k) matches Some(a) ==> size(a) <= members_size(members),
    decreases members.len(),
{
    if members.len() > 0 {
        lemma_member_size_le(members.drop_first(), k);
    }
}

proof fn lemma_members_size_push(members: Members, m: (Seq<char>, JsonTree))
    ensures
        members_size(members.push(m)) == members_size(members) + size(m.1),
    decreases members.len(),
{
    if members.len() == 0 {
        assert(members.push(m).drop_first() =~= members);
        reveal_with_fuel(members_size, 2);
    } else {
        assert(members.push(m).drop_first() =~= members.drop_first().push(m));
        lemma_members_size_push(members.drop_first(), m);
    }
}

pub proof fn lemma_keys_distinct()
    ensures
        "oneOf"@ != "description"@,
        "anyOf"@ != "description"@,
        "oneOf"@ != "anyOf"@,
        holds("oneOf"@) is NoSchema,
        holds("anyOf"@) is NoSchema,
        holds("description"@) is NoSchema,
{
    reveal_strlit("oneOf");
    reveal_strlit("anyOf");
    reveal_strlit("description");
    reveal_strlit("items");
    reveal_strlit("prefixItems");
    reveal_strlit("additionalItems");
    reveal_strlit("unevaluatedItems");
    reveal_strlit("contains");
    reveal_strlit("additionalProperties");
    reveal_strlit("unevaluatedProperties");
    reveal_strlit("propertyNames");
    reveal_strlit("contentSchema");
    reveal_strlit("allOf");
    reveal_strlit("not");
    reveal_strlit("if");
    reveal_strlit("then");
    reveal_strlit("else");
    reveal_strlit("properties");
    reveal_strlit("patternProperties");
    reveal_strlit("dependentSchemas");
    reveal_strlit("dependencies");
    reveal_strlit("$defs");
    reveal_strlit("definitions");
    assert("oneOf"@[0] != "anyOf"@[0]);
    assert("oneOf"@[0] != "items"@[0]);
    assert("oneOf"@[0] != "allOf"@[0]);
    assert("oneOf"@[0] != "$defs"@[0]);
    assert("anyOf"@[0] != "items"@[0]);
    assert("anyOf"@[1] != "allOf"@[1]);
    assert("anyOf"@[0] != "$defs"@[0]);
    assert("description"@[0] != "prefixItems"@[0]);
    assert("description"@[2] != "definitions"@[2]);
}

pub proof fn lemma_variant_size(members: Members)
    ensures
        union_variant(members) matches Some(v) ==> size(
            with_description(v, member(members, "description"@)),
        ) < size(JsonTree::Object(members)),
{
    lemma_keys_distinct();
    lemma_two_members_size(members, "oneOf"@, "description"@);
    lemma_two_members_size(members, "anyOf"@, "description"@);
    if let Some(v) = union_variant(members) {
        let d = member(members, "description"@);
        let union = if first_variant(members, "oneOf"@) is Some {
            member(members, "oneOf"@).unwrap()
        } else {
            member(members, "anyOf"@).unwrap()
        };
        assert(union->Array_0[0] == v);
        assert(size(union) == 1 + size(v) + items_size(union->Array_0.drop_first()));
        if let JsonTree::Object(inner) = v {
            if let Some(d) = d {
                lemma_members_size_push(inner, ("description"@, d));
            }
        }
    }
}

/// The members of an object document, as trees.
spec fn members_of(members: Seq<(String, Json)>) -> Members {
    Seq::new(members.len(), |i: int| (members[i].0@, members[i].1.tree()))
}

proof fn lemma_object_tree(members: Vec<(String, Json)>)
    ensures
        Json::Object(members).tree() == JsonTree::Object(members_of(members@)),
{
    assert(Json::Object(members).tree()->Object_0 =~= members_of(members@));
}

pub proof fn lemma_member_at(members: Members, key: Seq<char>, i: int)
    requires
        0 <= i < members.len(),
        members[i].0 == key,
        forall|j: int| 0 <= j < i ==> (#[trigger] members[j]).0 != key,
    ensures
        member(members, key) == Some(members[i].1),
    decreases i,
{
    if i > 0 {
        let rest = members.drop_first();
        assert forall|j: int| 0 <= j < i - 1 implies (#[trigger] rest[j]).0 != key by {
            assert(rest[j] == members[j + 1]);
        }
        assert(members[0].0 != key);
        lemma_member_at(rest, key, i - 1);
    }
}

pub proof fn lemma_no_member(members: Members, key: Seq<char>)
    requires
        forall|j: int| 0 <= j < members.len() ==> (#[trigger] members[j]).0 != key,
    ensures
        member(members, key) is None,
    decreases members.len(),
{
    if members.len() > 0 {
        let rest = members.drop_first();
        assert forall|j: int| 0 <= j < rest.len() implies (#[trigger] rest[j]).0 != key by {
            assert(rest[j] == members[j + 1]);
        }
        assert(members[0].0 != key);
        lemma_no_member(rest, key);
    }
}

proof fn lemma_member_remove(members: Members, i: int, key: Seq<char>)
    requires
        0 <= i < members.len(),
        members[i].0 != key,
    ensures
        member(members.remove(i), key) == member(members, key),
    decreases members.len(),
{
    if i == 0 {
        assert(members.remove(0) =~= members.drop_first());
    } else {
        assert(members.remove(i).drop_first() =~= members.drop_first().remove(i - 1));
        lemma_member_remove(members.drop_first(), i - 1, key);
    }
}

/// The position of the first member with the given key.
fn member_position(members: &Vec<(String, Json)>, key: &str) -> (res: Option<usize>)
    ensures
        match res {
            Some(i) => {
                &&& i < members@.len()
                &&& members@[i as int].0@ == key@
                &&& member(members_of(members@), key@) == Some(members@[i as int].1.tree())
            },
            None => member(members_of(members@), key@) is None,
        },
{
    let mut i: usize = 0;
    let ghost trees = members_of(members@);
    while i < members.len()
        invariant
            trees == members_of(members@),
            i <= members@.len(),
            forall|j: int| 0 <= j < i ==> (#[trigger] trees[j]).0 != key@,
        decreases members.len() - i,
    {
        if text::same_text(members[i].0.as_str(), key) {
            proof {
                lemma_member_at(trees, key@, i as int);
            }
            return Some(i);
        }
        i += 1;
    }
    proof {
        lemma_no_member(trees, key@);
    }
    None
}

/// The position of the member under `key`, if it is a union with a first variant.
fn union_position(members: &Vec<(String, Json)>, key: &str) -> (res: Option<usize>)
    ensures
        match res {
            Some(i) => {
                &&& i < members@.len()
                &&& members@[i as int].0@ == key@
                &&& members@[i as int].1 is Array
                &&& members@[i as int].1->Array_0@.len() > 0
                &&& first_variant(members_of(members@), key@) == Some(
                    members@[i as int].1->Array_0@[0].tree(),
                )
            },
            None => first_variant(members_of(members@), key@) is None,
        },
{
    match member_position(members, key) {
        Some(i) => match &members[i].1 {
            Json::Array(variants) => if variants.len() > 0 {
                Some(i)
            } else {
                None
            },
            _ => None,
        },
        None => None,
    }
}

/// What stands under a key of a schema.
fn what_stands_under(key: &str) -> (what: Holds)
    ensures
        what == holds(key@),
{
    if text::same_text(key, "items") || text::same_text(key, "prefixItems") || text::same_text(
        key,
        "additionalItems",
    ) || text::same_text(key, "unevaluatedItems") || text::same_text(key, "contains")
        || text::same_text(key, "additionalProperties") || text::same_text(
        key,
        "unevaluatedProperties",
    ) || text::same_text(key, "propertyNames") || text::same_text(key, "contentSchema")
        || text::same_text(key, "allOf") || text::same_text(key, "not") || text::same_text(
        key,
        "if",
    ) || text::same_text(key, "then") || text::same_text(key, "else") {
        Holds::Schema
    } else if text::same_text(key, "properties") || text::same_text(key, "patternProperties")
        || text::same_text(key, "dependentSchemas") || text::same_text(key, "dependencies")
        || text::same_text(key, "$defs") || text::same_text(key, "definitions") {
        Holds::NamedSchemas
    } else {
        Holds::NoSchema
    }
}

/// A schema object with a description put in, unless it has one or there is none to put in.
fn put_description(schema: Json, description: Option<Json>) -> (res: Json)
    ensures
        res.tree() == with_description(
            schema.tree(),
            match description {
                Some(d) => Some(d.tree()),
                None => None,
            },
        ),
{
    match (schema, description) {
        (Json::Object(members), Some(d)) => {
            let mut members = members;
            proof {
                lemma_object_tree(members);
            }
            let ghost before = members@;
            match member_position(&members, "description") {
                Some(_) => {},
                None => {
                    members.push(("description".to_string(), d));
                    assert(members_of(members@) =~= members_of(before).push(
                        ("description"@, d.tree()),
                    ));
                },
            }
            proof {
                lemma_object_tree(members);
            }
            Json::Object(members)
        },
        (schema, _) => schema,
    }
}

/// The flattened schema.
fn flatten(schema: Json) -> (flat: Json)
    ensures
        flat.tree() == flattened(schema.tree()),
    decreases size(schema.tree()),
{
    let ghost tree = schema.tree();
    match schema {
        Json::Array(items) => {
            let ghost all = items@;
            let ghost trees = tree->Array_0;
            proof {
                lemma_item_sizes(trees);
            }
            let mut flat: Vec<Json> = Vec::new();
            for item in it: items
                invariant
                    it.seq() == all,
                    tree == JsonTree::Array(trees),
                    tree == schema.tree(),
                    trees.len() == all.len(),
                    forall|i: int| 0 <= i < all.len() ==> #[trigger] trees[i] == all[i].tree(),
                    forall|i: int| 0 <= i < trees.len() ==> size(#[trigger] trees[i]) < size(tree),
                    flat@.len() == it.index(),
                    forall|j: int|
                        0 <= j < flat@.len() ==> (#[trigger] flat@[j]).tree() == flattened(
                            trees[j],
                        ),
            {
                assert(trees[it.index() as int] == item.tree());
                flat.push(flatten(item));
            }
            let list = Json::Array(flat);
            assert(list.tree()->Array_0 =~= flattened(tree)->Array_0);
            list
        },
        Json::Object(members) => {
            let mut members = members;
            let ghost all = members@;
            let ghost trees = members_of(all);
            proof {
                lemma_object_tree(members);
                lemma_member_sizes(trees);
                lemma_variant_size(trees);
                lemma_keys_distinct();
            }
            let at = match union_position(&members, "oneOf") {
                Some(i) => Some(i),
                None => union_position(&members, "anyOf"),
            };
            match at {
                Some(i) => {
                    let (_, union) = members.remove(i);
                    assert(members_of(members@) =~= trees.remove(i as int));
                    proof {
                        lemma_member_remove(trees, i as int, "description"@);
                    }
                    let description = match member_position(&members, "description") {
                        Some(j) => {
                            let (_, d) = members.remove(j);
                            Some(d)
                        },
                        None => None,
                    };
                    match union {
                        Json::Array(variants) => {
                            let mut variants = variants;
                            let first = variants.remove(0);
                            flatten(put_description(first, description))
                        },
                        other => other,
                    }
                },
                None => {
                    let mut flat: Vec<(String, Json)> = Vec::new();
                    for m in it: members
                        invariant
                            it.seq() == all,
                            trees == members_of(all),
                            tree == JsonTree::Object(trees),
                            tree == schema.tree(),
                            flat@.len() == it.index(),
                            union_variant(trees) is None,
                            forall|i: int|
                                0 <= i < trees.len() ==> size(#[trigger] trees[i].1) < size(tree),
                            forall|j: int|
                                0 <= j < flat@.len() ==> (
                                #[trigger] flat@[j].0@,
                                flat@[j].1.tree(),
                                ) == flattened(tree)->Object_0[j],
                    {
                        let ghost k = it.index() as int;
                        let (key, value) = m;
                        assert(trees[k] == (key@, value.tree()));
                        assert(size(trees[k].1) < size(tree));
                        let value = match what_stands_under(key.as_str()) {
                            Holds::Schema => flatten(value),
                            Holds::NamedSchemas => flatten_named(value),
                            Holds::NoSchema => value,
                        };
                        flat.push((key, value));
                    }
                    proof {
                        lemma_object_tree(flat);
                        assert(members_of(flat@) =~= flattened(tree)->Object_0);
                    }
                    Json::Object(flat)
                },
            }
        },
        other => other,
    }
}

/// Named schemas, each flattened.
fn flatten_named(schemas: Json) -> (flat: Json)
    ensures
        flat.tree() == flattened_named(schemas.tree()),
    decreases size(schemas.tree()),
{
    let ghost tree = schemas.tree();
    match schemas {
        Json::Object(members) => {
            let ghost all = members@;
            let ghost trees = members_of(all);
            proof {
                lemma_object_tree(members);
                lemma_member_sizes(trees);
            }
            let mut flat: Vec<(String, Json)> = Vec::new();
            for m in it: members
                invariant
                    it.seq() == all,
                    trees == members_of(all),
                    tree == JsonTree::Object(trees),
                    tree == schemas.tree(),
                    flat@.len() == it.index(),
                    forall|i: int|
                        0 <= i < trees.len() ==> size(#[trigger] trees[i].1) < size(tree),
                    forall|j: int|
                        0 <= j < flat@.len() ==> (#[trigger] flat@[j].0@, flat@[j].1.tree())
                            == flattened_named(tree)->Object_0[j],
            {
                let ghost k = it.index() as int;
                let (key, value) = m;
                assert(trees[k] == (key@, value.tree()));
                assert(size(trees[k].1) < size(tree));
                flat.push((key, flatten(value)));
            }
            proof {
                lemma_object_tree(flat);
                assert(members_of(flat@) =~= flattened_named(tree)->Object_0);
            }
            Json::Object(flat)
        },
        other => other,
    }
}

/// Replaces every union in a schema by its first variant, keeping the outer description.
pub fn flatten_schema(schema: &mut Json)
    ensures
        final(schema).tree() == flattened(old(schema).tree()),
{
    let mut taken = Json::Null;
    std::mem::swap(schema, &mut taken);
    *schema = flatten(taken);
}

/// The definitions of the function tools among `tools`, in order, with flattened schemas. The
/// first of them whose schema could not be serialised makes the whole list fail.
pub open spec fn nemotron_tools(tools: Seq<ToolSpec>) -> Result<Seq<ChatToolView>, CodexErrView>
    decreases tools.len(),
{
    if tools.len() == 0 {
        Ok(seq![])
    } else {
        match nemotron_tools(tools.drop_last()) {
            Err(e) => Err(e),
            Ok(defs) => match tools.last() {
                ToolSpec::Function(f) => match f.parameters {
                    Ok(schema) => Ok(
                        defs.push(
                            ChatToolView {
                                kind: "function"@,
                                function: ChatToolFunctionView {
                                    name: f.name@,
                                    description: f.description@,
                                    parameters: flattened(schema.tree()),
                                },
                            },
                        ),
                    ),
                    Err(message) => Err(CodexErrView::Json(message@)),
                },
                _ => Ok(defs),
            },
        }
    }
}

proof fn lemma_error_stays(tools: Seq<ToolSpec>, k: int)
    requires
        0 <= k <= tools.len(),
        nemotron_tools(tools.take(k)) is Err,
    ensures
        nemotron_tools(tools) == nemotron_tools(tools.take(k)),
    decreases tools.len(),
{
    if k == tools.len() {
        assert(tools.take(k) =~= tools);
    } else {
        assert(tools.drop_last().take(k) =~= tools.take(k));
        lemma_error_stays(tools.drop_last(), k);
    }
}

/// The tool definitions for the Chat Completions API.
///
/// Only function tools are converted, and their schemas are flattened.
pub fn create_tools_for_nemotron(tools: &[ToolSpec]) -> (res: Result<Vec<ChatTool>, CodexErr>)
    ensures
        match res {
            Ok(defs) => nemotron_tools(tools@) == Ok::<Seq<ChatToolView>, CodexErrView>(
                defs.deep_view(),
            ),
            Err(e) => nemotron_tools(tools@) == Err::<Seq<ChatToolView>, CodexErrView>(
                e.deep_view(),
            ),
        },
{
    let mut result: Vec<ChatTool> = Vec::new();
    let mut i: usize = 0;
    assert(result.deep_view() =~= seq![]);
    while i < tools.len()
        invariant
            i <= tools@.len(),
            nemotron_tools(tools@.take(i as int)) == Ok::<Seq<ChatToolView>, CodexErrView>(
                result.deep_view(),
            ),
        decreases tools.len() - i,
    {
        let ghost before = result.deep_view();
        assert(tools@.take(i + 1).drop_last() =~= tools@.take(i as int));
        if let ToolSpec::Function(func) = &tools[i] {
            match &func.parameters {
                Ok(schema) => {
                    let mut parameters = schema.duplicate();
                    flatten_schema(&mut parameters);
                    result.push(
                        ChatTool {
                            kind: "function".to_string(),
                            function: ChatToolFunction {
                                name: func.name.clone(),
                                description: func.description.clone(),
                                parameters,
                            },
                        },
                    );
                    assert(result.deep_view() =~= before.push(result@.last().deep_view()));
                },
                Err(message) => {
                    proof {
                        lemma_error_stays(tools@, i + 1);
                    }
                    return Err(CodexErr::Json(message.clone()));
                },
            }
        }
        i += 1;
    }
    assert(tools@.take(i as int) =~= tools@);
    Ok(result)
}

/// No union is left: not in the schema itself, and not in any schema within it. Of a list of
/// schemas, in none of them.
pub open spec fn flat(schema: JsonTree) -> bool
    decreases schema,
{
    match schema {
        JsonTree::Array(items) => forall|i: int|
            0 <= i < items.len() ==> flat(#[trigger] items[i]),
        JsonTree::Object(members) => {
            &&& union_variant(members) is None
            &&& forall|i: int|
                0 <= i < members.len() ==> match holds((#[trigger] members[i]).0) {
                    Holds::Schema => flat(members[i].1),
                    Holds::NamedSchemas => flat_named(members[i].1),
                    Holds::NoSchema => true,
                }
        },
        _ => true,
    }
}

/// No union is left in the named schemas.
pub open spec fn flat_named(schemas: JsonTree) -> bool
    decreases schemas,
{
    match schemas {
        JsonTree::Object(members) => forall|i: int|
            0 <= i < members.len() ==> flat((#[trigger] members[i]).1),
        _ => true,
    }
}

/// A member that keeps its key and its value is found where it was.
proof fn lemma_member_kept(a: Members, b: Members, key: Seq<char>)
    requires
        a.len() == b.len(),
        forall|i: int| 0 <= i < a.len() ==> (#[trigger] a[i]).0 == b[i].0,
        forall|i: int| 0 <= i < a.len() && (#[trigger] a[i]).0 == key ==> a[i].1 == b[i].1,
    ensures
        member(a, key) == member(b, key),
    decreases a.len(),
{
    if a.len() > 0 {
        let x = a.drop_first();
        let y = b.drop_first();
        assert(a[0].0 == b[0].0);
        assert forall|i: int| 0 <= i < x.len() implies (#[trigger] x[i]).0 == y[i].0 by {
            assert(x[i] == a[i + 1] && y[i] == b[i + 1]);
        }
        assert forall|i: int| 0 <= i < x.len() && (#[trigger] x[i]).0 == key implies x[i].1
            == y[i].1 by {
            assert(x[i] == a[i + 1] && y[i] == b[i + 1]);
        }
        lemma_member_kept(x, y, key);
    }
}

/// What a member holds stands somewhere among the members.
pub proof fn lemma_member_somewhere(members: Members, key: Seq<char>) -> (i: int)
    requires
        member(members, key) is Some,
    ensures
        0 <= i < members.len(),
        members[i] == (key, member(members, key).unwrap()),
    decreases members.len(),
{
    if members[0].0 == key {
        0
    } else {
        let j = lemma_member_somewhere(members.drop_first(), key);
        j + 1
    }
}

/// A schema object without a union keeps the members that flattening does not look into.
pub proof fn lemma_flattened_object(members: Members)
    requires
        union_variant(members) is None,
    ensures
        flattened(JsonTree::Object(members)) is Object,
        flattened(JsonTree::Object(members))->Object_0.len() == members.len(),
        forall|i: int|
            0 <= i < members.len() ==> (#[trigger] flattened(
                JsonTree::Object(members),
            )->Object_0[i]) == (
            members[i].0,
            match holds(members[i].0) {
                Holds::Schema => flattened(members[i].1),
                Holds::NamedSchemas => flattened_named(members[i].1),
                Holds::NoSchema => members[i].1,
            },
            ),
        forall|key: Seq<char>|
            holds(key) is NoSchema ==> #[trigger] member(
                flattened(JsonTree::Object(members))->Object_0,
                key,
            ) == member(members, key),
        union_variant(flattened(JsonTree::Object(members))->Object_0) is None,
{
    let flat = flattened(JsonTree::Object(members))->Object_0;
    assert forall|key: Seq<char>| holds(key) is NoSchema implies #[trigger] member(
        flat,
        key,
    ) == member(members, key) by {
        lemma_member_kept(flat, members, key);
    }
    lemma_keys_distinct();
    assert(member(flat, "oneOf"@) == member(members, "oneOf"@));
    assert(member(flat, "anyOf"@) == member(members, "anyOf"@));
}

/// Flattening leaves no union.
pub proof fn law_flattened_is_flat(schema: JsonTree)
    ensures
        flat(flattened(schema)),
    decreases size(schema),
{
    match schema {
        JsonTree::Array(items) => {
            lemma_item_sizes(items);
            let result = flattened(schema)->Array_0;
            assert forall|i: int| 0 <= i < result.len() implies flat(#[trigger] result[i]) by {
                assert(size(items[i]) < size(schema));
                law_flattened_is_flat(items[i]);
            }
        },
        JsonTree::Object(members) => {
            lemma_member_sizes(members);
            lemma_variant_size(members);
            match union_variant(members) {
                Some(variant) => {
                    law_flattened_is_flat(
                        with_description(variant, member(members, "description"@)),
                    );
                },
                None => {
                    lemma_flattened_object(members);
                    let result = flattened(schema)->Object_0;
                    assert forall|i: int| 0 <= i < result.len() implies match holds(
                        (#[trigger] result[i]).0,
                    ) {
                        Holds::Schema => flat(result[i].1),
                        Holds::NamedSchemas => flat_named(result[i].1),
                        Holds::NoSchema => true,
                    } by {
                        assert(size(members[i].1) < size(schema));
                        match holds(members[i].0) {
                            Holds::Schema => law_flattened_is_flat(members[i].1),
                            Holds::NamedSchemas => lemma_flattened_named_flat(members[i].1),
                            Holds::NoSchema => {},
                        }
                    }
                },
            }
        },
        _ => {},
    }
}

proof fn lemma_flattened_named_flat(schemas: JsonTree)
    ensures
        flat_named(flattened_named(schemas)),
    decreases size(schemas),
{
    if let JsonTree::Object(members) = schemas {
        lemma_member_sizes(members);
        let result = flattened_named(schemas)->Object_0;
        assert forall|i: int| 0 <= i < result.len() implies flat((#[trigger] result[i]).1) by {
            assert(size(members[i].1) < size(schemas));
            law_flattened_is_flat(members[i].1);
        }
    }
}

/// A schema without unions is left as it is.
pub proof fn law_flat_schema_unchanged(schema: JsonTree)
    requires
        flat(schema),
    ensures
        flattened(schema) == schema,
    decreases size(schema),
{
    match schema {
        JsonTree::Array(items) => {
            lemma_item_sizes(items);
            let result = flattened(schema)->Array_0;
            assert forall|i: int| 0 <= i < items.len() implies result[i] == #[trigger] items[i] by {
                assert(size(items[i]) < size(schema));
                law_flat_schema_unchanged(items[i]);
            }
            assert(result =~= items);
        },
        JsonTree::Object(members) => {
            lemma_member_sizes(members);
            lemma_flattened_object(members);
            let result = flattened(schema)->Object_0;
            assert forall|i: int| 0 <= i < members.len() implies result[i]
                == #[trigger] members[i] by {
                assert(size(members[i].1) < size(schema));
                match holds(members[i].0) {
                    Holds::Schema => law_flat_schema_unchanged(members[i].1),
                    Holds::NamedSchemas => lemma_flat_named_unchanged(members[i].1),
                    Holds::NoSchema => {},
                }
            }
            assert(result =~= members);
        },
        _ => {},
    }
}

proof fn lemma_flat_named_unchanged(schemas: JsonTree)
    requires
        flat_named(schemas),
    ensures
        flattened_named(schemas) == schemas,
    decreases size(schemas),
{
    if let JsonTree::Object(members) = schemas {
        lemma_member_sizes(members);
        let result = flattened_named(schemas)->Object_0;
        assert forall|i: int| 0 <= i < members.len() implies result[i] == #[trigger] members[i] by {
            assert(size(members[i].1) < size(schemas));
            law_flat_schema_unchanged(members[i].1);
        }
        assert(result =~= members);
    }
}

/// Flattening twice is flattening once.
pub proof fn law_flattening_is_idempotent(schema: JsonTree)
    ensures
        flattened(flattened(schema)) == flattened(schema),
{
    law_flattened_is_flat(schema);
    law_flat_schema_unchanged(flattened(schema));
}

/// A description is not lost: where a schema has one and what it is flattened to is an object,
/// that object has a description too.
pub proof fn law_description_kept(members: Members)
    requires
        member(members, "description"@) is Some,
        flattened(JsonTree::Object(members)) is Object,
    ensures
        member(flattened(JsonTree::Object(members))->Object_0, "description"@) is Some,
    decreases size(JsonTree::Object(members)),
{
    lemma_keys_distinct();
    lemma_variant_size(members);
    match union_variant(members) {
        Some(variant) => {
            let next = with_description(variant, member(members, "description"@));
            assert(flattened(JsonTree::Object(members)) == flattened(next));
            if let JsonTree::Object(inner) = next {
                if let JsonTree::Object(own) = variant {
                    if member(own, "description"@) is None {
                        let d = member(members, "description"@)->0;
                        lemma_member_pushed(own, "description"@, d);
                    }
                }
                law_description_kept(inner);
            } else {
                assert(flattened(next) == next);
            }
        },
        None => {
            lemma_flattened_object(members);
        },
    }
}

proof fn lemma_member_pushed(members: Members, key: Seq<char>, value: JsonTree)
    requires
        member(members, key) is None,
    ensures
        member(members.push((key, value)), key) == Some(value),
    decreases members.len(),
{
    let pushed = members.push((key, value));
    if members.len() > 0 {
        assert(pushed.drop_first() =~= members.drop_first().push((key, value)));
        lemma_member_pushed(members.drop_first(), key, value);
    }
}

/// The outer description goes to a first variant that has none and is no union itself.
pub proof fn law_outer_description_taken_over(members: Members, variant: Members)
    requires
        union_variant(members) == Some(JsonTree::Object(variant)),
        union_variant(variant) is None,
        member(variant, "description"@) is None,
        member(members, "description"@) is Some,
    ensures
        flattened(JsonTree::Object(members)) is Object,
        member(flattened(JsonTree::Object(members))->Object_0, "description"@) == member(
            members,
            "description"@,
        ),
{
    let d = member(members, "description"@).unwrap();
    let next = variant.push(("description"@, d));
    lemma_keys_distinct();
    lemma_variant_size(members);
    lemma_member_pushed(variant, "description"@, d);
    lemma_member_push_other(variant, ("description"@, d), "oneOf"@);
    lemma_member_push_other(variant, ("description"@, d), "anyOf"@);
    lemma_flattened_object(next);
}

proof fn lemma_member_push_other(members: Members, m: (Seq<char>, JsonTree), key: Seq<char>)
    requires
        m.0 != key,
    ensures
        member(members.push(m), key) == member(members, key),
    decreases members.len(),
{
    let pushed = members.push(m);
    if members.len() > 0 {
        assert(pushed.drop_first() =~= members.drop_first().push(m));
        lemma_member_push_other(members.drop_first(), m, key);
    } else {
        assert(pushed.drop_first() =~= members);
        reveal_with_fuel(member, 2);
    }
}

/// Flattening gives no object a key twice.
pub proof fn law_flattening_keeps_keys_distinct(schema: JsonTree)
    requires
        json::distinct_keys(schema),
    ensures
        json::distinct_keys(flattened(schema)),
    decreases size(schema),
{
    if let JsonTree::Array(items) = schema {
        lemma_item_sizes(items);
        let result = flattened(schema)->Array_0;
        assert forall|i: int| 0 <= i < result.len() implies json::distinct_keys(
            #[trigger] result[i],
        ) by {
            assert(size(items[i]) < size(schema));
            assert(json::distinct_keys(items[i]));
            law_flattening_keeps_keys_distinct(items[i]);
        }
    }
    if let JsonTree::Object(members) = schema {
        lemma_member_sizes(members);
        lemma_variant_size(members);
        lemma_keys_distinct();
        match union_variant(members) {
            Some(variant) => {
                let key = if first_variant(members, "oneOf"@) is Some {
                    "oneOf"@
                } else {
                    "anyOf"@
                };
                let i = lemma_member_somewhere(members, key);
                assert(json::distinct_keys(members[i].1));
                assert(members[i].1->Array_0[0] == variant);
                assert(json::distinct_keys(variant));
                let description = member(members, "description"@);
                let next = with_description(variant, description);
                if description is Some {
                    let j = lemma_member_somewhere(members, "description"@);
                    assert(json::distinct_keys(members[j].1));
                    if let JsonTree::Object(own) = variant {
                        if member(own, "description"@) is None {
                            lemma_pushed_keys_distinct(variant, description->0);
                        }
                    }
                }
                law_flattening_keeps_keys_distinct(next);
            },
            None => {
                lemma_flattened_object(members);
                let result = flattened(schema)->Object_0;
                assert forall|i: int| 0 <= i < result.len() implies json::distinct_keys(
                    (#[trigger] result[i]).1,
                ) by {
                    assert(size(members[i].1) < size(schema));
                    assert(json::distinct_keys(members[i].1));
                    match holds(members[i].0) {
                        Holds::Schema => law_flattening_keeps_keys_distinct(members[i].1),
                        Holds::NamedSchemas => lemma_flattened_named_distinct(members[i].1),
                        Holds::NoSchema => {},
                    }
                }
                assert forall|i: int, j: int| 0 <= i < j < result.len() implies (
                #[trigger] result[i]).0 != (#[trigger] result[j]).0 by {
                    assert(members[i].0 != members[j].0);
                }
            },
        }
    }
}

proof fn lemma_flattened_named_distinct(schemas: JsonTree)
    requires
        json::distinct_keys(schemas),
    ensures
        json::distinct_keys(flattened_named(schemas)),
    decreases size(schemas),
{
    if let JsonTree::Object(members) = schemas {
        lemma_member_sizes(members);
        let result = flattened_named(schemas)->Object_0;
        assert forall|i: int| 0 <= i < result.len() implies json::distinct_keys(
            (#[trigger] result[i]).1,
        ) by {
            assert(size(members[i].1) < size(schemas));
            assert(json::distinct_keys(members[i].1));
            law_flattening_keeps_keys_distinct(members[i].1);
        }
        assert forall|i: int, j: int| 0 <= i < j < result.len() implies (#[trigger] result[i]).0
            != (#[trigger] result[j]).0 by {
            assert(members[i].0 != members[j].0);
        }
    }
}

proof fn lemma_pushed_keys_distinct(schema: JsonTree, d: JsonTree)
    requires
        json::distinct_keys(schema),
        json::distinct_keys(d),
        schema is Object,
        member(schema->Object_0, "description"@) is None,
    ensures
        json::distinct_keys(JsonTree::Object(schema->Object_0.push(("description"@, d)))),
{
    let members = schema->Object_0;
    let pushed = members.push(("description"@, d));
    assert forall|i: int, j: int| 0 <= i < j < pushed.len() implies (#[trigger] pushed[i]).0 != (
    #[trigger] pushed[j]).0 by {
        if j == members.len() {
            lemma_absent(members, "description"@, i);
        } else {
            assert(members[i].0 != members[j].0);
        }
    }
    assert forall|i: int| 0 <= i < pushed.len() implies json::distinct_keys(
        (#[trigger] pushed[i]).1,
    ) by {
        if i < members.len() {
            assert(pushed[i] == members[i]);
        }
    }
}

pub proof fn lemma_absent(members: Members, key: Seq<char>, i: int)
    requires
        member(members, key) is None,
        0 <= i < members.len(),
    ensures
        members[i].0 != key,
    decreases members.len(),
{
    if i > 0 {
        lemma_absent(members.drop_first(), key, i - 1);
    }
}

} // verus!
