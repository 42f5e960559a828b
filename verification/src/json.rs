//! JSON documents with their sensitive fields taken out.

use vstd::prelude::*;

use crate::sorting;
use crate::text;

verus! {

/// A JSON document. The fields of an object are in the order of their names.
pub enum JsonTree {
    Null,
    Bool(bool),
    Number(Seq<char>),
    Text(Seq<char>),
    Array(Seq<JsonTree>),
    Object(Seq<(Seq<char>, JsonTree)>),
}

/// `serde_json::Value`, a parsed JSON document.
#[verifier::external_type_specification]
#[verifier::external_body]
pub struct ExValue(serde_json::Value);

/// The document that a `serde_json::Value` holds.
pub uninterp spec fn json_tree(value: serde_json::Value) -> JsonTree;

/// The documents that some values hold.
pub open spec fn trees(values: Seq<serde_json::Value>) -> Seq<JsonTree> {
    values.map_values(|v: serde_json::Value| json_tree(v))
}

/// The fields that some named values hold.
pub open spec fn fields(entries: Seq<(String, serde_json::Value)>) -> Seq<(Seq<char>, JsonTree)> {
    entries.map_values(|e: (String, serde_json::Value)| (e.0@, json_tree(e.1)))
}

/// The names of some fields.
pub open spec fn names(fields: Seq<(Seq<char>, JsonTree)>) -> Seq<Seq<char>> {
    fields.map_values(|f: (Seq<char>, JsonTree)| f.0)
}

/// A JSON value taken apart by one level.
pub enum JsonNode {
    Array(Vec<serde_json::Value>),
    Object(Vec<(String, serde_json::Value)>),
    Other(serde_json::Value),
}

/// The document that the bytes of a text in JSON write, if they write one.
pub uninterp spec fn json_parsed(bytes: Seq<u8>) -> Option<JsonTree>;

/// `serde_json::from_slice` into a `serde_json::Value`.
#[verifier::external_body]
pub(crate) fn parse_json(bytes: &[u8]) -> (r: Option<serde_json::Value>)
    ensures
        match r {
            Some(value) => json_parsed(bytes@) == Some(json_tree(value)),
            None => json_parsed(bytes@) is None,
        },
{
    serde_json::from_slice::<serde_json::Value>(bytes).ok()
}

/// The variants of `serde_json::Value`: an array gives its items in order, an
/// object its fields, which `serde_json::Map` keeps sorted by name, each name
/// once; any other value stays whole.
#[verifier::external_body]
pub(crate) fn open_json(value: serde_json::Value) -> (r: JsonNode)
    ensures
        match r {
            JsonNode::Array(items) => json_tree(value) == JsonTree::Array(trees(items@)),
            JsonNode::Object(entries) => {
                &&& json_tree(value) == JsonTree::Object(fields(entries@))
                &&& sorting::strictly_sorted(names(fields(entries@)))
            },
            JsonNode::Other(other) => {
                &&& json_tree(other) == json_tree(value)
                &&& !(json_tree(value) is Array)
                &&& !(json_tree(value) is Object)
            },
        },
{
    match value {
        serde_json::Value::Array(items) => JsonNode::Array(items),
        serde_json::Value::Object(map) => JsonNode::Object(map.into_iter().collect()),
        other => JsonNode::Other(other),
    }
}

/// `serde_json::Value::Array` of some items.
#[verifier::external_body]
pub(crate) fn json_array(items: Vec<serde_json::Value>) -> (r: serde_json::Value)
    ensures
        json_tree(r) == JsonTree::Array(trees(items@)),
{
    serde_json::Value::Array(items)
}

/// `serde_json::Value::Object` of some fields in the order of their names.
#[verifier::external_body]
pub(crate) fn json_object(entries: Vec<(String, serde_json::Value)>) -> (r: serde_json::Value)
    requires
        sorting::strictly_sorted(names(fields(entries@))),
    ensures
        json_tree(r) == JsonTree::Object(fields(entries@)),
{
    serde_json::Value::Object(entries.into_iter().collect())
}

/// `serde_json::Value::String` of a text.
#[verifier::external_body]
pub(crate) fn json_text(value: String) -> (r: serde_json::Value)
    ensures
        json_tree(r) == JsonTree::Text(value@),
{
    serde_json::Value::String(value)
}

/// The indented text that writes a document in JSON.
pub uninterp spec fn json_pretty(tree: JsonTree) -> Seq<char>;

/// `serde_json::to_string_pretty` of a `serde_json::Value`, which has a text for
/// every value: the names of all fields are texts, and writing a `Value` to
/// memory does not fail.
#[verifier::external_body]
pub(crate) fn pretty_json(value: &serde_json::Value) -> (r: String)
    ensures
        r@ == json_pretty(json_tree(*value)),
{
    serde_json::to_string_pretty(value).unwrap()
}

/// The names of fields, in lower case, whose values are not kept.
pub open spec fn is_sensitive_name(name: Seq<char>) -> bool {
    ||| name == "license"@
    ||| name == "latestlicense"@
    ||| name == "authorization"@
    ||| name == "cookie"@
    ||| name == "admintoken"@
    ||| name == "password"@
    ||| name == "apikey"@
    ||| name == "secret"@
    ||| name == "token"@
}

/// Whether the value of a field is not kept. Letter case does not count.
pub open spec fn is_sensitive(name: Seq<char>) -> bool {
    is_sensitive_name(text::lowered(name))
}

/// Whether the value of a field is not kept.
fn sensitive(name: &str) -> (r: bool)
    ensures
        r == is_sensitive(name@),
{
    let key = text::to_lower(name);
    let k = key.as_str();
    text::same(k, "license") || text::same(k, "latestlicense") || text::same(k, "authorization")
        || text::same(k, "cookie") || text::same(k, "admintoken") || text::same(k, "password")
        || text::same(k, "apikey") || text::same(k, "secret") || text::same(k, "token")
}

/// A document in which the value of each sensitive field, at any depth, is
/// the text `[REDACTED]`, and nothing else is changed.
pub open spec fn redacted(tree: JsonTree) -> JsonTree
    decreases tree,
{
    match tree {
        JsonTree::Array(items) => JsonTree::Array(
            Seq::new(
                items.len(),
                |i: int|
                    if 0 <= i < items.len() {
                        redacted(items[i])
                    } else {
                        JsonTree::Null
                    },
            ),
        ),
        JsonTree::Object(entries) => JsonTree::Object(
            Seq::new(
                entries.len(),
                |i: int|
                    if 0 <= i < entries.len() {
                        if is_sensitive(entries[i].0) {
                            (entries[i].0, JsonTree::Text("[REDACTED]"@))
                        } else {
                            (entries[i].0, redacted(entries[i].1))
                        }
                    } else {
                        (Seq::empty(), JsonTree::Null)
                    },
            ),
        ),
        other => other,
    }
}

/// Takes the values of the sensitive fields out of a document.
pub fn redact_json_value(value: serde_json::Value) -> (r: serde_json::Value)
    ensures
        json_tree(r) == redacted(json_tree(value)),
    decreases json_tree(value),
{
    let ghost tree = json_tree(value);
    match open_json(value) {
        JsonNode::Array(items) => {
            let ghost kids = trees(items@);
            let ghost all = items@;
            let mut out: Vec<serde_json::Value> = Vec::new();
            for item in it: items
                invariant
                    it.seq() == all,
                    kids == trees(all),
                    tree == JsonTree::Array(kids),
                    tree == json_tree(value),
                    out@.len() == it.index(),
                    forall|k: int|
                        0 <= k < it.index() ==> json_tree(#[trigger] out@[k]) == redacted(kids[k]),
            {
                proof {
                    assert(kids[it.index() as int] == json_tree(item));
                    assert(decreases_to!(tree => tree->Array_0));
                    assert(decreases_to!(kids => kids[it.index() as int]));
                }
                out.push(redact_json_value(item));
            }
            let r = json_array(out);
            assert(trees(out@) =~= redacted(tree)->Array_0);
            r
        },
        JsonNode::Object(entries) => {
            let ghost kids = fields(entries@);
            let ghost all = entries@;
            let mut out: Vec<(String, serde_json::Value)> = Vec::new();
            for entry in it: entries
                invariant
                    it.seq() == all,
                    kids == fields(all),
                    tree == JsonTree::Object(kids),
                    tree == json_tree(value),
                    out@.len() == it.index(),
                    forall|k: int|
                        0 <= k < it.index() ==> (#[trigger] out@[k]).0@ == kids[k].0 && json_tree(
                            out@[k].1,
                        ) == (if is_sensitive(kids[k].0) {
                            JsonTree::Text("[REDACTED]"@)
                        } else {
                            redacted(kids[k].1)
                        }),
            {
                let (name, child) = entry;
                proof {
                    let at = it.index() as int;
                    assert(kids[at] == (name@, json_tree(child)));
                    assert(decreases_to!(tree => tree->Object_0));
                    assert(decreases_to!(kids => kids[at]));
                    assert(decreases_to!(kids[at] => kids[at].1));
                }
                if sensitive(name.as_str()) {
                    out.push((name, json_text("[REDACTED]".to_string())));
                } else {
                    out.push((name, redact_json_value(child)));
                }
            }
            proof {
                assert(names(fields(out@)) =~= names(kids));
            }
            let r = json_object(out);
            assert(fields(out@) =~= redacted(tree)->Object_0);
            r
        },
        JsonNode::Other(other) => other,
    }
}

/// Whether each sensitive field of a document, at any depth, holds nothing but
/// the text `[REDACTED]`.
pub open spec fn is_clean(tree: JsonTree) -> bool
    decreases tree,
{
    match tree {
        JsonTree::Array(items) => forall|i: int|
            0 <= i < items.len() ==> is_clean(#[trigger] items[i]),
        JsonTree::Object(entries) => forall|i: int|
            0 <= i < entries.len() ==> if is_sensitive((#[trigger] entries[i]).0) {
                entries[i].1 == JsonTree::Text("[REDACTED]"@)
            } else {
                is_clean(entries[i].1)
            },
        _ => true,
    }
}

/// A redacted document keeps nothing of its sensitive fields.
pub proof fn law_redacted_is_clean(tree: JsonTree)
    ensures
        is_clean(redacted(tree)),
    decreases tree,
{
    match tree {
        JsonTree::Array(items) => {
            let kids = redacted(tree)->Array_0;
            assert forall|i: int| 0 <= i < kids.len() implies is_clean(#[trigger] kids[i]) by {
                law_redacted_is_clean(items[i]);
            }
        },
        JsonTree::Object(entries) => {
            let kids = redacted(tree)->Object_0;
            assert forall|i: int| 0 <= i < kids.len() implies if is_sensitive(
                (#[trigger] kids[i]).0,
            ) {
                kids[i].1 == JsonTree::Text("[REDACTED]"@)
            } else {
                is_clean(kids[i].1)
            } by {
                if !is_sensitive(entries[i].0) {
                    assert(decreases_to!(entries => entries[i]));
                    assert(decreases_to!(entries[i] => entries[i].1));
                    law_redacted_is_clean(entries[i].1);
                }
            }
        },
        _ => {},
    }
}

/// A document that holds nothing sensitive is not changed.
pub proof fn law_clean_document_is_kept(tree: JsonTree)
    requires
        is_clean(tree),
    ensures
        redacted(tree) == tree,
    decreases tree,
{
    match tree {
        JsonTree::Array(items) => {
            let kids = redacted(tree)->Array_0;
            assert forall|i: int| 0 <= i < kids.len() implies kids[i] == items[i] by {
                assert(is_clean(items[i]));
                law_clean_document_is_kept(items[i]);
            }
            assert(kids =~= items);
        },
        JsonTree::Object(entries) => {
            let kids = redacted(tree)->Object_0;
            assert forall|i: int| 0 <= i < kids.len() implies kids[i] == entries[i] by {
                let e = entries[i];
                if !is_sensitive(e.0) {
                    assert(decreases_to!(entries => entries[i]));
                    assert(decreases_to!(entries[i] => entries[i].1));
                    law_clean_document_is_kept(e.1);
                }
            }
            assert(kids =~= entries);
        },
        _ => {},
    }
}

/// Redacting a second time changes nothing.
pub proof fn law_redaction_is_idempotent(tree: JsonTree)
    ensures
        redacted(redacted(tree)) == redacted(tree),
{
    law_redacted_is_clean(tree);
    law_clean_document_is_kept(redacted(tree));
}

/// A field is sensitive exactly where its name, letter case aside, is one of nine.
pub proof fn law_sensitive_names_are_fixed(name: Seq<char>)
    ensures
        is_sensitive(name) <==> {
            let lower = text::lowered(name);
            ||| lower == "license"@
            ||| lower == "latestlicense"@
            ||| lower == "authorization"@
            ||| lower == "cookie"@
            ||| lower == "admintoken"@
            ||| lower == "password"@
            ||| lower == "apikey"@
            ||| lower == "secret"@
            ||| lower == "token"@
        },
{
}

/// Redacting an object keeps its fields in their places under their names. The value
/// of a sensitive one is the text `[REDACTED]`, and the value of any other one is
/// redacted itself. Of an array every item is redacted, and any other value stays.
pub proof fn law_redaction_replaces_sensitive_values(
    entries: Seq<(Seq<char>, JsonTree)>,
    items: Seq<JsonTree>,
    other: JsonTree,
)
    ensures
        redacted(JsonTree::Object(entries)) matches JsonTree::Object(after) && {
            &&& after.len() == entries.len()
            &&& forall|i: int|
                0 <= i < entries.len() ==> {
                    &&& (#[trigger] after[i]).0 == entries[i].0
                    &&& is_sensitive(entries[i].0) ==> after[i].1 == JsonTree::Text("[REDACTED]"@)
                    &&& !is_sensitive(entries[i].0) ==> after[i].1 == redacted(entries[i].1)
                }
        },
        redacted(JsonTree::Array(items)) matches JsonTree::Array(after) && {
            &&& after.len() == items.len()
            &&& forall|i: int| 0 <= i < items.len() ==> #[trigger] after[i] == redacted(items[i])
        },
        !(other is Array) && !(other is Object) ==> redacted(other) == other,
{
}

} // verus!
