//! JSON documents as plain data.

use crate::order::{lemma_text_less_transitive, place, text_less, Place};
use crate::text::same_text;
use serde_json::Value;
use vstd::prelude::*;

verus! {

/// A JSON value. Numbers are kept the way the parser tells them apart: a
/// non-negative integer, a negative integer, or the bits of a double.
#[derive(Debug)]
pub enum Json {
    Null,
    Bool(bool),
    Uint(u64),
    Int(i64),
    Float(u64),
    Str(String),
    Array(Vec<Json>),
    Object(Vec<(String, Json)>),
}

/// A JSON number as the parser tells it apart.
#[derive(Debug, Clone, Copy, PartialEq, Eq, Structural)]
pub enum JsonNumber {
    Uint(u64),
    Int(i64),
    /// The bits of a double.
    Float(u64),
}

/// A JSON value, mathematically.
pub enum JsonTree {
    Null,
    Bool(bool),
    Uint(u64),
    Int(i64),
    Float(u64),
    Str(Seq<char>),
    Array(Seq<JsonTree>),
    Object(Seq<(Seq<char>, JsonTree)>),
}

/// The values of a list.
pub open spec fn trees(items: Seq<Json>) -> Seq<JsonTree>
    decreases items,
{
    Seq::new(
        items.len(),
        |i: int|
            if 0 <= i < items.len() {
                items[i].view()
            } else {
                JsonTree::Null
            },
    )
}

/// The named values of an object.
pub open spec fn member_trees(members: Seq<(String, Json)>) -> Seq<(Seq<char>, JsonTree)>
    decreases members,
{
    Seq::new(
        members.len(),
        |i: int|
            if 0 <= i < members.len() {
                (members[i].0@, members[i].1.view())
            } else {
                (Seq::empty(), JsonTree::Null)
            },
    )
}

impl Json {
    pub open spec fn view(self) -> JsonTree
        decreases self,
    {
        match self {
            Json::Null => JsonTree::Null,
            Json::Bool(b) => JsonTree::Bool(b),
            Json::Uint(n) => JsonTree::Uint(n),
            Json::Int(n) => JsonTree::Int(n),
            Json::Float(bits) => JsonTree::Float(bits),
            Json::Str(s) => JsonTree::Str(s@),
            Json::Array(items) => JsonTree::Array(trees(items@)),
            Json::Object(members) => JsonTree::Object(member_trees(members@)),
        }
    }
}

/// The value under the first `key` at or behind position `i`.
pub open spec fn find_member(
    members: Seq<(Seq<char>, JsonTree)>,
    key: Seq<char>,
    i: nat,
) -> Option<JsonTree>
    decreases members.len() - i,
{
    if i >= members.len() {
        None
    } else if members[i as int].0 == key {
        Some(members[i as int].1)
    } else {
        find_member(members, key, i + 1)
    }
}

impl JsonTree {
    /// The value under `key`; nothing if there is none, or if this is no
    /// object.
    pub open spec fn member(self, key: Seq<char>) -> Option<JsonTree> {
        match self {
            JsonTree::Object(members) => find_member(members, key, 0),
            _ => None,
        }
    }

    pub open spec fn as_uint(self) -> Option<u64> {
        match self {
            JsonTree::Uint(n) => Some(n),
            _ => None,
        }
    }

    pub open spec fn as_text(self) -> Option<Seq<char>> {
        match self {
            JsonTree::Str(s) => Some(s),
            _ => None,
        }
    }

    pub open spec fn as_flag(self) -> Option<bool> {
        match self {
            JsonTree::Bool(b) => Some(b),
            _ => None,
        }
    }

    pub open spec fn as_number(self) -> Option<JsonNumber> {
        match self {
            JsonTree::Uint(n) => Some(JsonNumber::Uint(n)),
            JsonTree::Int(n) => Some(JsonNumber::Int(n)),
            JsonTree::Float(bits) => Some(JsonNumber::Float(bits)),
            _ => None,
        }
    }

    pub open spec fn as_items(self) -> Option<Seq<JsonTree>> {
        match self {
            JsonTree::Array(items) => Some(items),
            _ => None,
        }
    }

    /// The non-negative integer under `key`.
    pub open spec fn uint_at(self, key: Seq<char>) -> Option<u64> {
        match self.member(key) {
            Some(v) => v.as_uint(),
            None => None,
        }
    }

    /// The text under `key`.
    pub open spec fn text_at(self, key: Seq<char>) -> Option<Seq<char>> {
        match self.member(key) {
            Some(v) => v.as_text(),
            None => None,
        }
    }

    /// The truth value under `key`.
    pub open spec fn flag_at(self, key: Seq<char>) -> Option<bool> {
        match self.member(key) {
            Some(v) => v.as_flag(),
            None => None,
        }
    }

    /// The number under `key`.
    pub open spec fn number_at(self, key: Seq<char>) -> Option<JsonNumber> {
        match self.member(key) {
            Some(v) => v.as_number(),
            None => None,
        }
    }

    /// The list under `key`.
    pub open spec fn items_at(self, key: Seq<char>) -> Option<Seq<JsonTree>> {
        match self.member(key) {
            Some(v) => v.as_items(),
            None => None,
        }
    }

    /// At most `n` lists and objects are nested in each other, no number is a
    /// double, a signed number is negative, and the names in an object are in
    /// strictly ascending order.
    pub open spec fn plain(self, n: nat) -> bool
        decreases n,
    {
        match self {
            JsonTree::Float(_) => false,
            JsonTree::Int(v) => v < 0,
            JsonTree::Array(items) => n > 0 && forall|i: int|
                #![trigger items[i]]
                0 <= i < items.len() ==> items[i].plain((n - 1) as nat),
            JsonTree::Object(members) => {
                &&& n > 0
                &&& ascending(members)
                &&& forall|i: int|
                    #![trigger members[i]]
                    0 <= i < members.len() ==> members[i].1.plain((n - 1) as nat)
            },
            _ => true,
        }
    }
}

impl JsonTree {
    /// The names in every object are in strictly ascending order.
    pub open spec fn orderly(self) -> bool
        decreases self,
    {
        match self {
            JsonTree::Array(items) => forall|i: int|
                #![trigger items[i]]
                0 <= i < items.len() ==> items[i].orderly(),
            JsonTree::Object(members) => {
                &&& ascending(members)
                &&& forall|i: int|
                    #![trigger members[i]]
                    0 <= i < members.len() ==> members[i].1.orderly()
            },
            _ => true,
        }
    }
}

/// The names are in strictly ascending byte order.
pub open spec fn ascending(members: Seq<(Seq<char>, JsonTree)>) -> bool {
    forall|i: int, j: int|
        #![trigger members[i], members[j]]
        0 <= i < j < members.len() ==> text_less(members[i].0, members[j].0)
}

impl Json {
    /// The value under `key`.
    pub fn get(&self, key: &str) -> (value: Option<&Json>)
        ensures
            match value {
                Some(v) => self@.member(key@) == Some(v@),
                None => self@.member(key@) is None,
            },
    {
        match self {
            Json::Object(members) => {
                let mut i: usize = 0;
                while i < members.len()
                    invariant
                        i <= members@.len(),
                        self@ == JsonTree::Object(member_trees(members@)),
                        find_member(member_trees(members@), key@, 0) == find_member(
                            member_trees(members@),
                            key@,
                            i as nat,
                        ),
                    decreases members@.len() - i,
                {
                    let m: &(String, Json) = &members[i];
                    assert(member_trees(members@)[i as int] == (m.0@, m.1@));
                    if same_text(m.0.as_str(), key) {
                        return Some(&m.1);
                    }
                    i += 1;
                }
                None
            },
            _ => None,
        }
    }

    pub fn as_u64(&self) -> (n: Option<u64>)
        ensures
            n == self@.as_uint(),
    {
        match self {
            Json::Uint(n) => Some(*n),
            _ => None,
        }
    }

    pub fn as_str(&self) -> (s: Option<&str>)
        ensures
            match s {
                Some(s) => self@.as_text() == Some(s@),
                None => self@.as_text() is None,
            },
    {
        match self {
            Json::Str(s) => Some(s.as_str()),
            _ => None,
        }
    }

    pub fn as_array(&self) -> (items: Option<&Vec<Json>>)
        ensures
            match items {
                Some(items) => self@.as_items() == Some(trees(items@)),
                None => self@.as_items() is None,
            },
    {
        match self {
            Json::Array(items) => Some(items),
            _ => None,
        }
    }

    /// The non-negative integer under `key`.
    pub fn get_u64(&self, key: &str) -> (n: Option<u64>)
        ensures
            n == self@.uint_at(key@),
    {
        match self.get(key) {
            Some(v) => v.as_u64(),
            None => None,
        }
    }

    /// The text under `key`.
    pub fn get_str(&self, key: &str) -> (s: Option<&str>)
        ensures
            match s {
                Some(s) => self@.text_at(key@) == Some(s@),
                None => self@.text_at(key@) is None,
            },
    {
        match self.get(key) {
            Some(v) => v.as_str(),
            None => None,
        }
    }

    /// The truth value under `key`.
    pub fn get_bool(&self, key: &str) -> (b: Option<bool>)
        ensures
            b == self@.flag_at(key@),
    {
        match self.get(key) {
            Some(Json::Bool(b)) => Some(*b),
            _ => None,
        }
    }

    /// The number under `key`.
    pub fn get_number(&self, key: &str) -> (n: Option<JsonNumber>)
        ensures
            n == self@.number_at(key@),
    {
        match self.get(key) {
            Some(Json::Uint(n)) => Some(JsonNumber::Uint(*n)),
            Some(Json::Int(n)) => Some(JsonNumber::Int(*n)),
            Some(Json::Float(bits)) => Some(JsonNumber::Float(*bits)),
            _ => None,
        }
    }

    /// The list under `key`.
    pub fn get_array(&self, key: &str) -> (items: Option<&Vec<Json>>)
        ensures
            match items {
                Some(items) => self@.items_at(key@) == Some(trees(items@)),
                None => self@.items_at(key@) is None,
            },
    {
        match self.get(key) {
            Some(v) => v.as_array(),
            None => None,
        }
    }
}

/// A document as `serde_json` holds it.
#[verifier::external_type_specification]
#[verifier::external_body]
pub struct ExValue(serde_json::Value);

/// Why `serde_json` could not read or write a document.
#[verifier::external_type_specification]
#[verifier::external_body]
pub struct ExJsonError(serde_json::Error);

/// What a `serde_json::Value` holds.
pub uninterp spec fn json_tree(value: serde_json::Value) -> JsonTree;

/// The document that `serde_json::from_slice` reads from `bytes`, if it is one.
pub uninterp spec fn json_document(bytes: Seq<u8>) -> Option<JsonTree>;

/// What `serde_json::to_vec` writes for a value.
pub uninterp spec fn json_text(tree: JsonTree) -> Seq<u8>;

/// `n` spaces.
pub open spec fn blanks(n: nat) -> Seq<u8> {
    Seq::new(n, |i: int| 32u8)
}

/// `serde_json::from_slice` into a `Value`. What it makes of the bytes is
/// named, not spelled out.
#[verifier::external_body]
fn parse_value(bytes: &[u8]) -> (parsed: Result<serde_json::Value, serde_json::Error>)
    ensures
        match parsed {
            Ok(value) => json_document(bytes@) == Some(json_tree(value)),
            Err(_) => json_document(bytes@) is None,
        },
{
    serde_json::from_slice(bytes)
}

/// Takes a `serde_json::Value` apart, variant by variant. Its objects are
/// `BTreeMap`s, so their names come in ascending order, each once.
#[verifier::external_body]
pub(crate) fn json_of(value: serde_json::Value) -> (json: Json)
    ensures
        json@ == json_tree(value),
        json@.orderly(),
{
    match value {
        Value::Null => Json::Null,
        Value::Bool(b) => Json::Bool(b),
        Value::Number(n) => match (n.as_u64(), n.as_i64(), n.as_f64()) {
            (Some(u), _, _) => Json::Uint(u),
            (_, Some(i), _) => Json::Int(i),
            (_, _, x) => Json::Float(x.unwrap().to_bits()),
        },
        Value::String(s) => Json::Str(s),
        Value::Array(a) => Json::Array(a.into_iter().map(json_of).collect()),
        Value::Object(o) => {
            Json::Object(o.into_iter().map(|(k, v)| (k, json_of(v))).collect())
        },
    }
}

/// Builds the `serde_json::Value` for a plain document, variant by variant.
#[verifier::external_body]
fn value_of(json: &Json) -> (value: serde_json::Value)
    requires
        json@.plain(100),
    ensures
        json_tree(value) == json@,
{
    match json {
        Json::Null | Json::Float(_) => Value::Null,
        Json::Bool(b) => Value::from(*b),
        Json::Uint(n) => Value::from(*n),
        Json::Int(n) => Value::from(*n),
        Json::Str(s) => Value::from(s.as_str()),
        Json::Array(a) => Value::Array(a.iter().map(value_of).collect()),
        Json::Object(o) => {
            Value::Object(o.iter().map(|(k, v)| (k.clone(), value_of(v))).collect())
        },
    }
}

/// `serde_json::to_vec` of a `Value`, which fails only where a `Serialize` of
/// its own fails or a map has other keys than texts: never here. What it
/// writes is named; of a plain document, reading it again gives the document,
/// also with spaces behind it.
#[verifier::external_body]
fn print_value(value: &serde_json::Value) -> (printed: Result<Vec<u8>, serde_json::Error>)
    ensures
        printed is Ok,
        match printed {
            Ok(bytes) => {
                &&& bytes@ == json_text(json_tree(*value))
                &&& json_tree(*value).plain(100) ==> forall|n: nat| #[trigger]
                    json_document(bytes@ + blanks(n)) == Some(json_tree(*value))
            },
            Err(_) => true,
        },
{
    serde_json::to_vec(value)
}

/// Reads a JSON document; `None` if `bytes` is not one.
pub fn parse_json(bytes: &[u8]) -> (json: Option<Json>)
    ensures
        match json {
            Some(json) => {
                &&& json_document(bytes@) == Some(json@)
                &&& json@.orderly()
            },
            None => json_document(bytes@) is None,
        },
{
    match parse_value(bytes) {
        Ok(value) => Some(json_of(value)),
        Err(_) => None,
    }
}

/// Writes a plain JSON document; reading it again gives the document, also
/// with spaces behind it.
pub fn print_json(json: &Json) -> (bytes: Vec<u8>)
    requires
        json@.plain(100),
    ensures
        bytes@ == json_text(json@),
        forall|n: nat| #[trigger] json_document(bytes@ + blanks(n)) == Some(json@),
{
    let value = value_of(json);
    match print_value(&value) {
        Ok(bytes) => bytes,
        Err(_) => Vec::new(),
    }
}

/// Whether a document is plain, with at most `n` lists and objects nested in
/// each other.
fn is_plain(json: &Json, n: usize) -> (yes: bool)
    ensures
        yes == json@.plain(n as nat),
    decreases n,
{
    match json {
        Json::Float(_) => false,
        Json::Int(v) => *v < 0,
        Json::Array(items) => {
            if n == 0 {
                return false;
            }
            let mut i: usize = 0;
            while i < items.len()
                invariant
                    0 < n,
                    i <= items@.len(),
                    json@ == JsonTree::Array(trees(items@)),
                    forall|k: int|
                        #![trigger trees(items@)[k]]
                        0 <= k < i ==> trees(items@)[k].plain((n - 1) as nat),
                decreases items@.len() - i,
            {
                assert(trees(items@)[i as int] == items@[i as int]@);
                if !is_plain(&items[i], n - 1) {
                    proof {
                        let all = trees(items@);
                        assert(json@->Array_0 == all);
                        assert(!all[i as int].plain((n as nat - 1) as nat));
                        assert(!JsonTree::Array(all).plain(n as nat));
                    }
                    return false;
                }
                i += 1;
            }
            true
        },
        Json::Object(members) => {
            if n == 0 {
                return false;
            }
            let mut i: usize = 0;
            while i < members.len()
                invariant
                    0 < n,
                    i <= members@.len(),
                    json@ == JsonTree::Object(member_trees(members@)),
                    forall|k: int|
                        #![trigger member_trees(members@)[k]]
                        0 <= k < i ==> member_trees(members@)[k].1.plain((n - 1) as nat),
                    forall|j: int, k: int|
                        #![trigger member_trees(members@)[j], member_trees(members@)[k]]
                        0 <= j < k < i ==> text_less(
                            member_trees(members@)[j].0,
                            member_trees(members@)[k].0,
                        ),
                decreases members@.len() - i,
            {
                let ghost all = member_trees(members@);
                assert(all[i as int] == (members@[i as int].0@, members@[i as int].1@));
                if !is_plain(&members[i].1, n - 1) {
                    return false;
                }
                if i > 0 {
                    assert(all[i - 1] == (members@[i - 1].0@, members@[i - 1].1@));
                    match place(members[i - 1].0.as_str(), members[i].0.as_str()) {
                        Place::Before => {},
                        _ => {
                            assert(!text_less(all[i - 1].0, all[i as int].0));
                            return false;
                        },
                    }
                    proof {
                        assert forall|j: int| #![trigger all[j]] 0 <= j < i implies text_less(
                            all[j].0,
                            all[i as int].0,
                        ) by {
                            if j < i - 1 {
                                lemma_text_less_transitive(
                                    all[j].0,
                                    all[i - 1].0,
                                    all[i as int].0,
                                );
                            }
                        }
                    }
                }
                i += 1;
            }
            true
        },
        _ => true,
    }
}

/// Writes a JSON document; `None` where it is not plain.
pub fn print_plain(json: &Json) -> (bytes: Option<Vec<u8>>)
    ensures
        match bytes {
            Some(bytes) => {
                &&& json@.plain(100)
                &&& bytes@ == json_text(json@)
                &&& json_document(bytes@) == Some(json@)
            },
            None => !json@.plain(100),
        },
{
    if is_plain(json, 100) {
        let bytes: Vec<u8> = print_json(json);
        assert(bytes@ + blanks(0) =~= bytes@);
        Some(bytes)
    } else {
        None
    }
}

} // verus!
