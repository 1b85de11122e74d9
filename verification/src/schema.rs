//! Tool definitions as JSON, in the form that OpenAI-compatible servers take.
use vstd::prelude::*;
use vstd::string::*;

use crate::json;
use crate::json::{Json, JsonView};
use crate::text;

verus! {

/// A list of texts.
pub open spec fn text_list(items: Seq<Seq<char>>) -> JsonView {
    JsonView::Array(Seq::new(items.len(), |i: int| JsonView::Text(items[i])))
}

/// A parameter of a plain type.
pub open spec fn property(kind: Seq<char>, description: Seq<char>) -> JsonView {
    JsonView::Object(
        seq![
            ("description"@, JsonView::Text(description)),
            ("type"@, JsonView::Text(kind)),
        ],
    )
}

/// A text parameter that takes one of some values.
pub open spec fn choice(description: Seq<char>, values: Seq<Seq<char>>) -> JsonView {
    JsonView::Object(
        seq![
            ("description"@, JsonView::Text(description)),
            ("enum"@, text_list(values)),
            ("type"@, JsonView::Text("string"@)),
        ],
    )
}

/// A list parameter.
pub open spec fn list(description: Seq<char>, items: JsonView) -> JsonView {
    JsonView::Object(
        seq![
            ("description"@, JsonView::Text(description)),
            ("items"@, items),
            ("type"@, JsonView::Text("array"@)),
        ],
    )
}

/// An object with some properties, some of which may be required.
pub open spec fn structure(
    properties: Seq<(Seq<char>, JsonView)>,
    required: Option<Seq<Seq<char>>>,
) -> JsonView {
    match required {
        Some(names) => JsonView::Object(
            seq![
                ("properties"@, JsonView::Object(properties)),
                ("required"@, text_list(names)),
                ("type"@, JsonView::Text("object"@)),
            ],
        ),
        None => JsonView::Object(
            seq![
                ("properties"@, JsonView::Object(properties)),
                ("type"@, JsonView::Text("object"@)),
            ],
        ),
    }
}

/// A tool.
pub open spec fn function_tool(
    name: Seq<char>,
    description: Seq<char>,
    parameters: JsonView,
) -> JsonView {
    JsonView::Object(
        seq![
            (
                "function"@,
                JsonView::Object(
                    seq![
                        ("description"@, JsonView::Text(description)),
                        ("name"@, JsonView::Text(name)),
                        ("parameters"@, parameters),
                    ],
                ),
            ),
            ("type"@, JsonView::Text("function"@)),
        ],
    )
}

/// The name of a tool, as it stands in its definition.
pub open spec fn tool_name(definition: JsonView) -> Option<Seq<char>> {
    match definition.field("function"@) {
        Some(f) => match f.field("name"@) {
            Some(JsonView::Text(s)) => Some(s),
            _ => None,
        },
        None => None,
    }
}

/// The keys that schemas use ascend in the order in which the schemas list them.
pub(crate) proof fn lemma_schema_keys()
    ensures
        json::key_less("description"@, "enum"@),
        json::key_less("description"@, "items"@),
        json::key_less("description"@, "name"@),
        json::key_less("description"@, "parameters"@),
        json::key_less("description"@, "type"@),
        json::key_less("enum"@, "type"@),
        json::key_less("items"@, "type"@),
        json::key_less("name"@, "parameters"@),
        json::key_less("properties"@, "required"@),
        json::key_less("properties"@, "type"@),
        json::key_less("required"@, "type"@),
        json::key_less("function"@, "type"@),
{
    reveal_strlit("description");
    reveal_strlit("enum");
    reveal_strlit("items");
    reveal_strlit("name");
    reveal_strlit("parameters");
    reveal_strlit("type");
    reveal_strlit("properties");
    reveal_strlit("required");
    reveal_strlit("function");
}

/// Two entries are proper where their keys ascend and their values are proper.
pub(crate) proof fn lemma_proper_two(a: (Seq<char>, JsonView), b: (Seq<char>, JsonView))
    requires
        json::key_less(a.0, b.0),
        json::proper(a.1),
        json::proper(b.1),
    ensures
        json::proper(JsonView::Object(seq![a, b])),
{
    let all = seq![a, b];
    assert(all.drop_last() =~= seq![a]);
    assert(seq![a].drop_last() =~= Seq::empty());
    assert(json::proper_entries(seq![a].drop_last()));
    assert(json::proper_entries(seq![a]));
}

/// Three entries are proper where their keys ascend and their values are proper.
pub(crate) proof fn lemma_proper_three(
    a: (Seq<char>, JsonView),
    b: (Seq<char>, JsonView),
    c: (Seq<char>, JsonView),
)
    requires
        json::key_less(a.0, b.0),
        json::key_less(a.0, c.0),
        json::key_less(b.0, c.0),
        json::proper(a.1),
        json::proper(b.1),
        json::proper(c.1),
    ensures
        json::proper(JsonView::Object(seq![a, b, c])),
{
    let all = seq![a, b, c];
    lemma_proper_two(a, b);
    assert(all.drop_last() =~= seq![a, b]);
}

/// One entry is proper where its value is.
pub(crate) proof fn lemma_proper_one(a: (Seq<char>, JsonView))
    requires
        json::proper(a.1),
    ensures
        json::proper(JsonView::Object(seq![a])),
{
    assert(seq![a].drop_last() =~= Seq::empty());
    assert(json::proper_entries(seq![a].drop_last()));
}

proof fn lemma_proper_texts(items: Seq<JsonView>)
    requires
        forall|i: int| 0 <= i < items.len() ==> (#[trigger] items[i]) is Text,
    ensures
        json::proper_items(items),
    decreases items.len(),
{
    if items.len() > 0 {
        let front = items.drop_last();
        assert forall|i: int| 0 <= i < front.len() implies (#[trigger] front[i]) is Text by {
            assert(front[i] == items[i]);
        }
        lemma_proper_texts(front);
        assert(items[items.len() - 1] is Text);
        assert(json::proper(items.last()));
    }
}

pub(crate) fn text_value(s: &str) -> (r: Json)
    ensures
        r@ == JsonView::Text(s@),
{
    Json::Text(s.to_owned())
}

/// Builds an object from one entry.
pub(crate) fn object_of_one(k: &str, v: Json) -> (r: Json)
    requires
        json::proper(v@),
    ensures
        r@ == JsonView::Object(seq![(k@, v@)]),
        json::proper(r@),
{
    let mut e: Vec<(String, Json)> = Vec::new();
    e.push((k.to_owned(), v));
    proof {
        json::lemma_entries_of(e@);
        assert(json::entries_of(e@) =~= seq![(k@, v@)]);
        lemma_proper_one((k@, v@));
    }
    Json::Object(e)
}

/// Builds an object from two entries in ascending order.
pub(crate) fn object_of_two(k1: &str, v1: Json, k2: &str, v2: Json) -> (r: Json)
    requires
        json::key_less(k1@, k2@),
        json::proper(v1@),
        json::proper(v2@),
    ensures
        r@ == JsonView::Object(seq![(k1@, v1@), (k2@, v2@)]),
        json::proper(r@),
{
    let mut e: Vec<(String, Json)> = Vec::new();
    e.push((k1.to_owned(), v1));
    e.push((k2.to_owned(), v2));
    proof {
        json::lemma_entries_of(e@);
        assert(json::entries_of(e@) =~= seq![(k1@, v1@), (k2@, v2@)]);
        lemma_proper_two((k1@, v1@), (k2@, v2@));
    }
    Json::Object(e)
}

/// Builds an object from three entries in ascending order.
pub(crate) fn object_of_three(
    k1: &str,
    v1: Json,
    k2: &str,
    v2: Json,
    k3: &str,
    v3: Json,
) -> (r: Json)
    requires
        json::key_less(k1@, k2@),
        json::key_less(k1@, k3@),
        json::key_less(k2@, k3@),
        json::proper(v1@),
        json::proper(v2@),
        json::proper(v3@),
    ensures
        r@ == JsonView::Object(seq![(k1@, v1@), (k2@, v2@), (k3@, v3@)]),
        json::proper(r@),
{
    let mut e: Vec<(String, Json)> = Vec::new();
    e.push((k1.to_owned(), v1));
    e.push((k2.to_owned(), v2));
    e.push((k3.to_owned(), v3));
    proof {
        json::lemma_entries_of(e@);
        assert(json::entries_of(e@) =~= seq![(k1@, v1@), (k2@, v2@), (k3@, v3@)]);
        lemma_proper_three((k1@, v1@), (k2@, v2@), (k3@, v3@));
    }
    Json::Object(e)
}

/// Builds a list of texts.
pub(crate) fn text_array(items: &[&str]) -> (r: Json)
    ensures
        r@ == text_list(text::texts(items@)),
        json::proper(r@),
{
    let mut v: Vec<Json> = Vec::new();
    let mut i: usize = 0;
    while i < items.len()
        invariant
            i <= items.len(),
            v@.len() == i,
            forall|k: int| 0 <= k < i ==> (#[trigger] v@[k])@ == JsonView::Text(items@[k]@),
        decreases items.len() - i,
    {
        v.push(text_value(items[i]));
        i += 1;
    }
    proof {
        json::lemma_views_of(v@);
        let want = Seq::new(items@.len(), |i: int| JsonView::Text(text::texts(items@)[i]));
        assert forall|k: int| 0 <= k < v@.len() implies json::views_of(v@)[k] == want[k] by {
            assert(v@[k]@ == JsonView::Text(items@[k]@));
        }
        assert(json::views_of(v@) =~= want);
        lemma_proper_texts(want);
    }
    Json::Array(v)
}

/// Builds a parameter of a plain type.
pub(crate) fn property_schema(kind: &str, description: &str) -> (r: Json)
    ensures
        r@ == property(kind@, description@),
        json::proper(r@),
{
    proof {
        lemma_schema_keys();
    }
    object_of_two("description", text_value(description), "type", text_value(kind))
}

/// Builds a text parameter that takes one of some values.
pub(crate) fn choice_schema(description: &str, values: &[&str]) -> (r: Json)
    ensures
        r@ == choice(description@, text::texts(values@)),
        json::proper(r@),
{
    proof {
        lemma_schema_keys();
    }
    object_of_three(
        "description",
        text_value(description),
        "enum",
        text_array(values),
        "type",
        text_value("string"),
    )
}

/// Builds a list parameter.
pub(crate) fn list_schema(description: &str, items: Json) -> (r: Json)
    requires
        json::proper(items@),
    ensures
        r@ == list(description@, items@),
        json::proper(r@),
{
    proof {
        lemma_schema_keys();
    }
    object_of_three(
        "description",
        text_value(description),
        "items",
        items,
        "type",
        text_value("array"),
    )
}

/// Builds an object with properties, some of which are required.
pub(crate) fn structure_schema(properties: Json, required: Option<&[&str]>) -> (r: Json)
    requires
        properties@ is Object,
        json::proper(properties@),
    ensures
        r@ == structure(
            properties@->Object_0,
            match required {
                Some(names) => Some(text::texts(names@)),
                None => None,
            },
        ),
        json::proper(r@),
{
    proof {
        lemma_schema_keys();
    }
    match required {
        Some(names) => object_of_three(
            "properties",
            properties,
            "required",
            text_array(names),
            "type",
            text_value("object"),
        ),
        None => object_of_two("properties", properties, "type", text_value("object")),
    }
}

/// Builds a tool.
pub(crate) fn tool_schema(name: &str, description: &str, parameters: Json) -> (r: Json)
    requires
        json::proper(parameters@),
    ensures
        r@ == function_tool(name@, description@, parameters@),
        json::proper(r@),
{
    proof {
        lemma_schema_keys();
    }
    let function = object_of_three(
        "description",
        text_value(description),
        "name",
        text_value(name),
        "parameters",
        parameters,
    );
    object_of_two("function", function, "type", text_value("function"))
}

/// A definition says the name of its tool.
pub(crate) proof fn lemma_tool_name(name: Seq<char>, description: Seq<char>, parameters: JsonView)
    ensures
        tool_name(function_tool(name, description, parameters)) == Some(name),
{
    reveal_strlit("description");
    reveal_strlit("name");
    reveal_with_fuel(json::lookup, 3);
    assert("description"@.len() != "name"@.len());
}

// ---------------------------------------------------------------------------
// Laws
// ---------------------------------------------------------------------------

/// The keys that schemas use are all different.
proof fn lemma_schema_keys_differ()
    ensures
        "description"@ != "name"@,
        "description"@ != "parameters"@,
        "name"@ != "parameters"@,
        "description"@ != "type"@,
        "description"@ != "enum"@,
        "description"@ != "items"@,
        "enum"@ != "type"@,
        "items"@ != "type"@,
        "properties"@ != "required"@,
        "properties"@ != "type"@,
        "required"@ != "type"@,
        "function"@ != "type"@,
{
    reveal_strlit("description");
    reveal_strlit("enum");
    reveal_strlit("items");
    reveal_strlit("name");
    reveal_strlit("parameters");
    reveal_strlit("type");
    reveal_strlit("properties");
    reveal_strlit("required");
    reveal_strlit("function");
    assert("description"@.len() == 11);
    assert("enum"@.len() == 4 && "enum"@[0] == 'e');
    assert("items"@.len() == 5);
    assert("name"@.len() == 4);
    assert("parameters"@.len() == 10);
    assert("type"@.len() == 4 && "type"@[0] == 't');
    assert("properties"@.len() == 10);
    assert("required"@.len() == 8);
    assert("function"@.len() == 8);
}

/// A definition says that it is one of a function, and tells its name, what it is for and what it
/// takes.
pub proof fn law_tool_has_its_parts(name: Seq<char>, description: Seq<char>, parameters: JsonView)
    ensures
        ({
            let tool = function_tool(name, description, parameters);
            let function = tool.field("function"@);
            &&& tool.field("type"@) == Some(JsonView::Text("function"@))
            &&& function is Some
            &&& function->Some_0.field("name"@) == Some(JsonView::Text(name))
            &&& function->Some_0.field("description"@) == Some(JsonView::Text(description))
            &&& function->Some_0.field("parameters"@) == Some(parameters)
        }),
{
    lemma_schema_keys_differ();
    reveal_with_fuel(json::lookup, 4);
}

/// An object says that it is one, and tells its properties and which of them must be there.
pub proof fn law_structure_has_its_parts(
    properties: Seq<(Seq<char>, JsonView)>,
    required: Option<Seq<Seq<char>>>,
)
    ensures
        ({
            let s = structure(properties, required);
            &&& s.field("type"@) == Some(JsonView::Text("object"@))
            &&& s.field("properties"@) == Some(JsonView::Object(properties))
            &&& required is Some ==> s.field("required"@) == Some(text_list(required->Some_0))
            &&& required is None ==> s.field("required"@) is None
        }),
{
    lemma_schema_keys_differ();
    reveal_with_fuel(json::lookup, 4);
}

/// A parameter tells its type and what it is for; one with a choice also the values, and a list
/// also what its items are.
pub proof fn law_parameters_have_their_parts(
    kind: Seq<char>,
    description: Seq<char>,
    values: Seq<Seq<char>>,
    items: JsonView,
)
    ensures
        property(kind, description).field("type"@) == Some(JsonView::Text(kind)),
        property(kind, description).field("description"@) == Some(JsonView::Text(description)),
        choice(description, values).field("type"@) == Some(JsonView::Text("string"@)),
        choice(description, values).field("description"@) == Some(JsonView::Text(description)),
        choice(description, values).field("enum"@) == Some(text_list(values)),
        list(description, items).field("type"@) == Some(JsonView::Text("array"@)),
        list(description, items).field("description"@) == Some(JsonView::Text(description)),
        list(description, items).field("items"@) == Some(items),
{
    lemma_schema_keys_differ();
    reveal_with_fuel(json::lookup, 4);
}

/// A list of texts holds each of them, in their order.
pub proof fn law_text_list_holds_all(items: Seq<Seq<char>>, i: int)
    requires
        0 <= i < items.len(),
    ensures
        text_list(items) is Array,
        text_list(items)->Array_0.len() == items.len(),
        text_list(items)->Array_0[i] == JsonView::Text(items[i]),
{
}

} // verus!
