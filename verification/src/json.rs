//! JSON documents as the `json` crate reads them, held as plain values: for
//! every value, its kind, its text as `to_string` and `dump` give it, its
//! boolean, and its members.
use vstd::prelude::*;

verus! {

/// The kind of a JSON value: one for each variant of the crate's values
/// (`Short` is a string short enough to be kept inline).
#[derive(PartialEq, Eq, Structural, Clone, Copy)]
pub enum JsonKind {
    Null,
    Short,
    Str,
    Number,
    Boolean,
    Object,
    Array,
}

/// A JSON value: what the `json` crate gives for it.
pub struct JsonNode {
    pub kind: JsonKind,
    /// The value's text as its `Display` writes it (`to_string`).
    pub shown: String,
    /// The value serialised as JSON (`dump`).
    pub dumped: String,
    /// The value as a boolean (`as_bool`).
    pub flag: Option<bool>,
    /// The members of an array, in order.
    pub items: Vec<JsonNode>,
    /// The entries of an object, in order.
    pub entries: Vec<JsonEntry>,
}

/// An entry of a JSON object.
pub struct JsonEntry {
    pub key: String,
    pub value: JsonNode,
}

#[verifier::external_type_specification]
#[verifier::external_body]
pub struct ExJsonValue(json::JsonValue);

/// The document that the `json` crate reads from a text, or `None` where it
/// refuses the text.
pub uninterp spec fn json_document(text: Seq<char>) -> Option<JsonNode>;

/// Copies a value of the `json` crate into a `JsonNode`, member by member.
#[verifier::external_body]
fn node_from(v: &json::JsonValue) -> JsonNode {
    let kind = match v {
        json::JsonValue::Null => JsonKind::Null,
        json::JsonValue::Short(_) => JsonKind::Short,
        json::JsonValue::String(_) => JsonKind::Str,
        json::JsonValue::Number(_) => JsonKind::Number,
        json::JsonValue::Boolean(_) => JsonKind::Boolean,
        json::JsonValue::Object(_) => JsonKind::Object,
        json::JsonValue::Array(_) => JsonKind::Array,
    };
    let items = v.members().map(node_from).collect();
    let entries = v.entries().map(|(k, x)| JsonEntry { key: k.to_string(), value: node_from(x) }).collect();
    JsonNode { kind, shown: v.to_string(), dumped: v.dump(), flag: v.as_bool(), items, entries }
}

/// `json::parse`: the claim is that the result is a function of the text
/// alone; what it is (the JSON grammar, the crate's `to_string` and `dump`)
/// is left to the crate.
#[verifier::external_body]
pub(crate) fn parse_json(text: &str) -> (r: Option<JsonNode>)
    ensures
        r == json_document(text@),
{
    match json::parse(text) {
        Ok(v) => Some(node_from(&v)),
        Err(_) => None,
    }
}

/// The position of the first entry of `es` with key `key`.
pub open spec fn entry_index(es: Seq<JsonEntry>, key: Seq<char>) -> Option<int>
    decreases es.len(),
{
    if es.len() == 0 {
        None
    } else {
        match entry_index(es.drop_last(), key) {
            Some(i) => Some(i),
            None => if es.last().key@ == key {
                Some(es.len() - 1)
            } else {
                None
            },
        }
    }
}

/// `value[key]`: the object member with that key; `None` stands for the
/// `null` that the crate gives for a missing key or a value that is not an
/// object.
pub open spec fn member(o: Option<JsonNode>, key: Seq<char>) -> Option<JsonNode> {
    match o {
        Some(n) => if n.kind == JsonKind::Object {
            match entry_index(n.entries@, key) {
                Some(i) => Some(n.entries@[i].value),
                None => None,
            }
        } else {
            None
        },
        None => None,
    }
}

/// `value[i]`: the array member at that position; `None` stands for the
/// `null` that the crate gives out of range or for a value that is not an
/// array.
pub open spec fn element(o: Option<JsonNode>, i: int) -> Option<JsonNode> {
    match o {
        Some(n) => if n.kind == JsonKind::Array && 0 <= i < n.items.len() {
            Some(n.items@[i])
        } else {
            None
        },
        None => None,
    }
}

/// `value.to_string()`; `null` writes `null`.
pub open spec fn shown(o: Option<JsonNode>) -> Seq<char> {
    match o {
        Some(n) => n.shown@,
        None => "null"@,
    }
}

/// `value.dump()`; `null` dumps as `null`.
pub open spec fn dumped(o: Option<JsonNode>) -> Seq<char> {
    match o {
        Some(n) => n.dumped@,
        None => "null"@,
    }
}

/// `value.as_bool()`.
pub open spec fn flag(o: Option<JsonNode>) -> Option<bool> {
    match o {
        Some(n) => n.flag,
        None => None,
    }
}

/// `value.len()`: the number of members of an array or entries of an object,
/// else 0.
pub open spec fn length(o: Option<JsonNode>) -> int {
    match o {
        Some(n) => if n.kind == JsonKind::Array {
            n.items.len() as int
        } else if n.kind == JsonKind::Object {
            n.entries.len() as int
        } else {
            0
        },
        None => 0,
    }
}

/// The value that an optional reference points to.
pub open spec fn deref_opt(o: Option<&JsonNode>) -> Option<JsonNode> {
    match o {
        Some(n) => Some(*n),
        None => None,
    }
}

/// Whether two strings hold the same text.
fn same(a: &String, b: &str) -> (r: bool)
    ensures
        r == (a@ == b@),
{
    let y = String::from_str(b);
    *a == y
}

/// `value[key]` (`None` standing for `null`).
pub fn member_of<'a>(o: Option<&'a JsonNode>, key: &str) -> (r: Option<&'a JsonNode>)
    ensures
        r matches Some(x) ==> member(deref_opt(o), key@) == Some(*x),
        r is None ==> member(deref_opt(o), key@) is None,
{
    match o {
        None => None,
        Some(n) => {
            if n.kind != JsonKind::Object {
                return None;
            }
            let mut i: usize = 0;
            while i < n.entries.len()
                invariant
                    i <= n.entries.len(),
                    deref_opt(o) == Some(*n),
                    n.kind == JsonKind::Object,
                    entry_index(n.entries@.take(i as int), key@) is None,
                decreases n.entries.len() - i,
            {
                proof {
                    assert(n.entries@.take(i + 1).drop_last() =~= n.entries@.take(i as int));
                }
                if same(&n.entries[i].key, key) {
                    proof {
                        assert(entry_index(n.entries@.take(i + 1), key@) == Some(i as int));
                        lemma_entry_index_prefix(n.entries@, key@, i as int + 1);
                        assert(n.kind == JsonKind::Object);
                        assert(deref_opt(o) == Some(*n));
                        assert(entry_index(n.entries@, key@) == Some(i as int));
                        assert(member(deref_opt(o), key@) == Some(n.entries@[i as int].value));
                    }
                    return Some(&n.entries[i].value);
                }
                i = i + 1;
            }
            proof {
                assert(n.entries@.take(i as int) =~= n.entries@);
            }
            None
        },
    }
}

/// A match found in a prefix is the first match of the whole.
proof fn lemma_entry_index_prefix(es: Seq<JsonEntry>, key: Seq<char>, k: int)
    requires
        0 <= k <= es.len(),
        entry_index(es.take(k), key) is Some,
    ensures
        entry_index(es, key) == entry_index(es.take(k), key),
    decreases es.len() - k,
{
    if k < es.len() {
        assert(es.take(k + 1).drop_last() =~= es.take(k));
        lemma_entry_index_prefix(es, key, k + 1);
    } else {
        assert(es.take(k) =~= es);
    }
}

/// `value[i]` (`None` standing for `null`).
pub fn element_of<'a>(o: Option<&'a JsonNode>, i: usize) -> (r: Option<&'a JsonNode>)
    ensures
        r matches Some(x) ==> element(deref_opt(o), i as int) == Some(*x),
        r is None ==> element(deref_opt(o), i as int) is None,
{
    match o {
        None => None,
        Some(n) => {
            if n.kind == JsonKind::Array && i < n.items.len() {
                Some(&n.items[i])
            } else {
                None
            }
        },
    }
}

/// The text `null`.
fn null_text() -> (r: String)
    ensures
        r@ == "null"@,
{
    String::from_str("null")
}

/// `value.to_string()`.
pub fn shown_of(o: Option<&JsonNode>) -> (r: String)
    ensures
        r@ == shown(
            deref_opt(o),
        ),
{
    match o {
        Some(n) => n.shown.clone(),
        None => null_text(),
    }
}

/// `value.dump()`.
pub fn dumped_of(o: Option<&JsonNode>) -> (r: String)
    ensures
        r@ == dumped(
            deref_opt(o),
        ),
{
    match o {
        Some(n) => n.dumped.clone(),
        None => null_text(),
    }
}

/// `value.as_bool()`.
pub fn flag_of(o: Option<&JsonNode>) -> (r: Option<bool>)
    ensures
        r == flag(
            deref_opt(o),
        ),
{
    match o {
        Some(n) => n.flag,
        None => None,
    }
}

/// `value.len()`.
pub fn length_of(o: Option<&JsonNode>) -> (r: usize)
    ensures
        r as int == length(
            deref_opt(o),
        ),
{
    match o {
        Some(n) => if n.kind == JsonKind::Array {
            n.items.len()
        } else if n.kind == JsonKind::Object {
            n.entries.len()
        } else {
            0
        },
        None => 0,
    }
}

} // verus!
