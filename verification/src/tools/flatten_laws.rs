//! What becomes of a schema when it is flattened, part by part.

use crate::json::JsonTree;
use crate::tools::nemotron_tools;
use crate::tools::nemotron_tools::Members;
use vstd::prelude::*;

verus! {

/// The member at `i` is the first with the given key.
pub open spec fn first_with(members: Members, key: Seq<char>, i: int) -> bool {
    &&& 0 <= i < members.len()
    &&& members[i].0 == key
    &&& forall|j: int| 0 <= j < i ==> (#[trigger] members[j]).0 != key
}

/// There is no member with the given key.
pub open spec fn none_with(members: Members, key: Seq<char>) -> bool {
    forall|j: int| 0 <= j < members.len() ==> (#[trigger] members[j]).0 != key
}

/// The member at `i` is a union under the given key that has a first variant.
pub open spec fn variants_at(members: Members, key: Seq<char>, i: int) -> bool {
    &&& first_with(members, key, i)
    &&& members[i].1 is Array
    &&& members[i].1->Array_0.len() > 0
}

/// No member is a union with a first variant.
pub open spec fn no_union(members: Members) -> bool {
    forall|j: int|
        !(#[trigger] variants_at(members, "oneOf"@, j)) && !variants_at(members, "anyOf"@, j)
}

/// The member at `i` is the union that stands for the schema: `oneOf` goes before `anyOf`.
pub open spec fn union_at(members: Members, i: int) -> bool {
    ||| variants_at(members, "oneOf"@, i)
    ||| variants_at(members, "anyOf"@, i) && forall|j: int| !(#[trigger] variants_at(
        members,
        "oneOf"@,
        j,
    ))
}

/// Under this key stands a schema, or a list of schemas.
pub open spec fn schema_key(key: Seq<char>) -> bool {
    ||| key == "items"@
    ||| key == "prefixItems"@
    ||| key == "additionalItems"@
    ||| key == "unevaluatedItems"@
    ||| key == "contains"@
    ||| key == "additionalProperties"@
    ||| key == "unevaluatedProperties"@
    ||| key == "propertyNames"@
    ||| key == "contentSchema"@
    ||| key == "allOf"@
    ||| key == "not"@
    ||| key == "if"@
    ||| key == "then"@
    ||| key == "else"@
}

/// Under this key stand schemas, each under a name of its own.
pub open spec fn named_schemas_key(key: Seq<char>) -> bool {
    ||| key == "properties"@
    ||| key == "patternProperties"@
    ||| key == "dependentSchemas"@
    ||| key == "dependencies"@
    ||| key == "$defs"@
    ||| key == "definitions"@
}

/// The names are the same, and under each stands the schema of before, flattened. What is no
/// object is unchanged.
pub open spec fn each_flattened(before: JsonTree, after: JsonTree) -> bool {
    match before {
        JsonTree::Object(old_members) => {
            &&& after is Object
            &&& after->Object_0.len() == old_members.len()
            &&& forall|j: int|
                0 <= j < old_members.len() ==> {
                    &&& (#[trigger] after->Object_0[j]).0 == old_members[j].0
                    &&& after->Object_0[j].1 == nemotron_tools::flattened(old_members[j].1)
                }
        },
        _ => after == before,
    }
}

/// A member is kept: its key is the same, and its value is flattened where a schema stands under
/// the key, and otherwise the same.
pub open spec fn member_kept(before: (Seq<char>, JsonTree), after: (Seq<char>, JsonTree)) -> bool {
    &&& after.0 == before.0
    &&& if schema_key(before.0) {
        after.1 == nemotron_tools::flattened(before.1)
    } else if named_schemas_key(before.0) {
        each_flattened(before.1, after.1)
    } else {
        after.1 == before.1
    }
}

/// The value under a key, found by its place.
proof fn lemma_member_found(members: Members, key: Seq<char>, i: int)
    requires
        first_with(members, key, i),
    ensures
        nemotron_tools::member(members, key) == Some(members[i].1),
{
    nemotron_tools::lemma_member_at(members, key, i);
}

proof fn lemma_first_with_exists(members: Members, key: Seq<char>, k: int)
    requires
        0 <= k < members.len(),
        members[k].0 == key,
    ensures
        exists|i: int| first_with(members, key, i),
    decreases k,
{
    if forall|j: int| 0 <= j < k ==> (#[trigger] members[j]).0 != key {
        assert(first_with(members, key, k));
    } else {
        let j = choose|j: int| 0 <= j < k && (#[trigger] members[j]).0 == key;
        lemma_first_with_exists(members, key, j);
    }
}

/// A union is offered exactly where it stands.
proof fn lemma_first_variant(members: Members, key: Seq<char>)
    ensures
        nemotron_tools::first_variant(members, key) is None <==> forall|j: int|
            !(#[trigger] variants_at(members, key, j)),
        forall|i: int| #[trigger]
            variants_at(members, key, i) ==> nemotron_tools::first_variant(members, key) == Some(
                members[i].1->Array_0[0],
            ),
{
    assert forall|i: int| #[trigger] variants_at(members, key, i) implies
        nemotron_tools::first_variant(members, key) == Some(members[i].1->Array_0[0]) by {
        lemma_member_found(members, key, i);
    }
    if nemotron_tools::first_variant(members, key) is Some {
        let k = nemotron_tools::lemma_member_somewhere(members, key);
        lemma_first_with_exists(members, key, k);
        let i = choose|i: int| first_with(members, key, i);
        lemma_member_found(members, key, i);
        assert(variants_at(members, key, i));
    }
}

proof fn lemma_union(members: Members)
    ensures
        nemotron_tools::union_variant(members) is None <==> no_union(members),
        forall|i: int| #[trigger]
            union_at(members, i) ==> nemotron_tools::union_variant(members) == Some(
                members[i].1->Array_0[0],
            ),
{
    lemma_first_variant(members, "oneOf"@);
    lemma_first_variant(members, "anyOf"@);
    if no_union(members) {
        assert forall|j: int| !(#[trigger] variants_at(members, "anyOf"@, j)) by {
            assert(!variants_at(members, "oneOf"@, j));
        }
    }
}

/// What is neither an object nor a list is left as it is.
pub proof fn law_plain_values_stay(schema: JsonTree)
    requires
        !(schema is Object),
        !(schema is Array),
    ensures
        nemotron_tools::flattened(schema) == schema,
{
}

/// Of a list each schema is flattened, in its place.
pub proof fn law_each_schema_of_a_list_is_flattened(items: Seq<JsonTree>)
    ensures
        nemotron_tools::flattened(JsonTree::Array(items)) is Array,
        nemotron_tools::flattened(JsonTree::Array(items))->Array_0.len() == items.len(),
        forall|i: int|
            0 <= i < items.len() ==> (#[trigger] nemotron_tools::flattened(
                JsonTree::Array(items),
            )->Array_0[i]) == nemotron_tools::flattened(items[i]),
{
    let schema = JsonTree::Array(items);
    let result = nemotron_tools::flattened(schema)->Array_0;
    assert(schema->Array_0 == items);
    assert forall|i: int| 0 <= i < items.len() implies (#[trigger] result[i])
        == nemotron_tools::flattened(items[i]) by {}
}

/// A schema that is no union keeps every member in its place, none is added, and the schemas
/// within it are flattened.
pub proof fn law_a_schema_without_a_union_keeps_its_members(members: Members)
    requires
        no_union(members),
    ensures
        nemotron_tools::flattened(JsonTree::Object(members)) is Object,
        nemotron_tools::flattened(JsonTree::Object(members))->Object_0.len() == members.len(),
        forall|i: int|
            0 <= i < members.len() ==> member_kept(
                members[i],
                #[trigger] nemotron_tools::flattened(JsonTree::Object(members))->Object_0[i],
            ),
{
    lemma_union(members);
    nemotron_tools::lemma_flattened_object(members);
    let result = nemotron_tools::flattened(JsonTree::Object(members))->Object_0;
    assert forall|i: int| 0 <= i < members.len() implies member_kept(
        members[i],
        #[trigger] result[i],
    ) by {
        let (key, before) = members[i];
        if !schema_key(key) && named_schemas_key(key) {
            lemma_each_flattened(before);
        }
    }
}

proof fn lemma_each_flattened(before: JsonTree)
    ensures
        each_flattened(before, nemotron_tools::flattened_named(before)),
{
    if let JsonTree::Object(members) = before {
        let after = nemotron_tools::flattened_named(before);
        assert(before->Object_0 == members);
        assert forall|j: int| 0 <= j < members.len() implies {
            &&& (#[trigger] after->Object_0[j]).0 == members[j].0
            &&& after->Object_0[j].1 == nemotron_tools::flattened(members[j].1)
        } by {}
    }
}

/// A union becomes its first variant, flattened. A first variant that is an object without a
/// description takes over that of the union.
pub proof fn law_a_union_becomes_its_first_variant_with_the_outer_description(
    members: Members,
    i: int,
    own: Members,
    d: int,
)
    requires
        union_at(members, i),
        members[i].1->Array_0[0] == JsonTree::Object(own),
        none_with(own, "description"@),
        first_with(members, "description"@, d),
    ensures
        nemotron_tools::flattened(JsonTree::Object(members)) == nemotron_tools::flattened(
            JsonTree::Object(own.push(("description"@, members[d].1))),
        ),
{
    lemma_union(members);
    lemma_member_found(members, "description"@, d);
    nemotron_tools::lemma_no_member(own, "description"@);
    nemotron_tools::lemma_variant_size(members);
}

/// A union becomes its first variant, flattened. Where the union has no description, or the first
/// variant has one or can have none, nothing is added to it.
pub proof fn law_a_union_becomes_its_first_variant(members: Members, i: int)
    requires
        union_at(members, i),
        ({
            let variant = members[i].1->Array_0[0];
            none_with(members, "description"@) || !(variant is Object) || !none_with(
                variant->Object_0,
                "description"@,
            )
        }),
    ensures
        nemotron_tools::flattened(JsonTree::Object(members)) == nemotron_tools::flattened(
            members[i].1->Array_0[0],
        ),
{
    let variant = members[i].1->Array_0[0];
    lemma_union(members);
    nemotron_tools::lemma_variant_size(members);
    if none_with(members, "description"@) {
        nemotron_tools::lemma_no_member(members, "description"@);
    } else if let JsonTree::Object(own) = variant {
        let k = choose|k: int| 0 <= k < own.len() && (#[trigger] own[k]).0 == "description"@;
        if nemotron_tools::member(own, "description"@) is None {
            nemotron_tools::lemma_absent(own, "description"@, k);
        }
    }
}

proof fn lemma_no_union_pushed(own: Members, d: JsonTree)
    requires
        no_union(own),
    ensures
        no_union(own.push(("description"@, d))),
{
    let next = own.push(("description"@, d));
    nemotron_tools::lemma_keys_distinct();
    assert forall|j: int|
        !(#[trigger] variants_at(next, "oneOf"@, j)) && !variants_at(next, "anyOf"@, j) by {
        assert(!variants_at(own, "oneOf"@, j));
        assert(!variants_at(own, "anyOf"@, j));
        if 0 <= j < own.len() {
            assert(next[j] == own[j]);
            assert forall|k: int| 0 <= k < j implies (#[trigger] own[k]).0 == next[k].0 by {}
            if first_with(next, "oneOf"@, j) {
                assert forall|k: int| 0 <= k < j implies (#[trigger] own[k]).0 != "oneOf"@ by {
                    assert(next[k].0 != "oneOf"@);
                }
                assert(first_with(own, "oneOf"@, j));
            }
            if first_with(next, "anyOf"@, j) {
                assert forall|k: int| 0 <= k < j implies (#[trigger] own[k]).0 != "anyOf"@ by {
                    assert(next[k].0 != "anyOf"@);
                }
                assert(first_with(own, "anyOf"@, j));
            }
        }
    }
}

/// A union is replaced by its whole first variant: where that is an object that is no union
/// itself, every member of it is in the result, in its place and under its key, with the schemas
/// in it flattened. The outer description is the only member that may be added, and it is added
/// exactly if there is one and the variant has none.
pub proof fn law_a_union_is_replaced_by_its_whole_first_variant(
    members: Members,
    i: int,
    own: Members,
)
    requires
        union_at(members, i),
        members[i].1->Array_0[0] == JsonTree::Object(own),
        no_union(own),
    ensures
        ({
            let result = nemotron_tools::flattened(JsonTree::Object(members));
            let added = none_with(own, "description"@) && !none_with(members, "description"@);
            &&& result is Object
            &&& result->Object_0.len() == own.len() + (if added {
                1int
            } else {
                0
            })
            &&& forall|k: int|
                0 <= k < own.len() ==> member_kept(own[k], #[trigger] result->Object_0[k])
            &&& added ==> result->Object_0.last().0 == "description"@ && exists|d: int| #[trigger]
                first_with(members, "description"@, d) && result->Object_0.last().1
                    == members[d].1
        }),
{
    let added = none_with(own, "description"@) && !none_with(members, "description"@);
    if added {
        let k = choose|k: int|
            0 <= k < members.len() && (#[trigger] members[k]).0 == "description"@;
        lemma_first_with_exists(members, "description"@, k);
        let d = choose|d: int| first_with(members, "description"@, d);
        let next = own.push(("description"@, members[d].1));
        law_a_union_becomes_its_first_variant_with_the_outer_description(members, i, own, d);
        lemma_no_union_pushed(own, members[d].1);
        law_a_schema_without_a_union_keeps_its_members(next);
        let result = nemotron_tools::flattened(JsonTree::Object(next))->Object_0;
        assert forall|k: int| 0 <= k < own.len() implies member_kept(
            own[k],
            #[trigger] result[k],
        ) by {
            assert(next[k] == own[k]);
            assert(member_kept(next[k], result[k]));
        }
        let last = own.len() as int;
        assert(member_kept(next[last], result[last]));
        lemma_description_holds_no_schema();
        assert(first_with(members, "description"@, d));
    } else {
        law_a_union_becomes_its_first_variant(members, i);
        law_a_schema_without_a_union_keeps_its_members(own);
    }
}

proof fn lemma_description_holds_no_schema()
    ensures
        !schema_key("description"@),
        !named_schemas_key("description"@),
{
    nemotron_tools::lemma_keys_distinct();
}

} // verus!
