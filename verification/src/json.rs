//! JSON documents as the decoders see them: a plain tree, parsed by
//! `serde_json` and read by verified code.

use crate::text::str_equal;
use vstd::prelude::*;

verus! {

/// A JSON document.
pub enum JsonValue {
    Null,
    Bool(bool),
    /// A number. It carries its value where that is an integer from 0 to
    /// `u64::MAX`; for any other number (negative, fractional, too large)
    /// it carries `None`.
    Number(Option<u64>),
    Text(String),
    Array(Vec<JsonValue>),
    /// An object, as the list of its members.
    Object(Vec<(String, JsonValue)>),
}

/// The mathematical model of a [`JsonValue`].
pub enum JsonDoc {
    Null,
    Bool(bool),
    Number(Option<u64>),
    Text(Seq<char>),
    Array(Seq<JsonDoc>),
    Object(Seq<(Seq<char>, JsonDoc)>),
}

/// The document that `value` stands for.
pub open spec fn document(value: JsonValue) -> JsonDoc
    decreases value,
{
    match value {
        JsonValue::Null => JsonDoc::Null,
        JsonValue::Bool(b) => JsonDoc::Bool(b),
        JsonValue::Number(n) => JsonDoc::Number(n),
        JsonValue::Text(s) => JsonDoc::Text(s@),
        JsonValue::Array(items) => JsonDoc::Array(
            Seq::new(
                items@.len(),
                |i: int|
                    if 0 <= i < items@.len() {
                        document(items@[i])
                    } else {
                        JsonDoc::Null
                    },
            ),
        ),
        JsonValue::Object(members) => JsonDoc::Object(
            Seq::new(
                members@.len(),
                |i: int|
                    if 0 <= i < members@.len() {
                        (members@[i].0@, document(members@[i].1))
                    } else {
                        (Seq::empty(), JsonDoc::Null)
                    },
            ),
        ),
    }
}

impl View for JsonValue {
    type V = JsonDoc;

    open spec fn view(&self) -> JsonDoc {
        document(*self)
    }
}

/// The value of the first member of `members` named `key`, if there is one.
pub open spec fn find_member(members: Seq<(Seq<char>, JsonDoc)>, key: Seq<char>) -> Option<
    JsonDoc,
>
    decreases members.len(),
{
    if members.len() == 0 {
        None
    } else if members[0].0 == key {
        Some(members[0].1)
    } else {
        find_member(members.drop_first(), key)
    }
}

impl JsonDoc {
    /// The member `key` of an object; `None` for a missing member and for a
    /// document that is no object.
    pub open spec fn member(self, key: Seq<char>) -> Option<JsonDoc> {
        match self {
            JsonDoc::Object(members) => find_member(members, key),
            _ => None,
        }
    }

    /// The member `key` of an object where it says something: a missing
    /// member and one that is `null` both count as absent.
    pub open spec fn field(self, key: Seq<char>) -> Option<JsonDoc> {
        match self.member(key) {
            Some(JsonDoc::Null) => None,
            other => other,
        }
    }
}

/// Skipping members with another name does not change which member is found.
pub proof fn lemma_find_member_skip(members: Seq<(Seq<char>, JsonDoc)>, key: Seq<char>, n: int)
    requires
        0 <= n <= members.len(),
        forall|i: int| 0 <= i < n ==> (#[trigger] members[i]).0 != key,
    ensures
        find_member(members, key) == find_member(members.skip(n), key),
    decreases n,
{
    if n == 0 {
        assert(members.skip(0) =~= members);
    } else {
        let rest = members.drop_first();
        assert forall|i: int| 0 <= i < n - 1 implies (#[trigger] rest[i]).0 != key by {
            assert(rest[i] == members[i + 1]);
        }
        lemma_find_member_skip(rest, key, n - 1);
        assert(rest.skip(n - 1) =~= members.skip(n));
        assert(members[0].0 != key);
    }
}

/// The model of an object lists the models of its members, in order.
pub proof fn lemma_object_view(members: Vec<(String, JsonValue)>)
    ensures
        JsonValue::Object(members)@ is Object,
        JsonValue::Object(members)@->Object_0.len() == members@.len(),
        forall|j: int|
            0 <= j < members@.len() ==> #[trigger] JsonValue::Object(members)@->Object_0[j] == (
                members@[j].0@,
                members@[j].1@,
            ),
{
}

impl JsonValue {
    /// The member `key` of an object; `None` for a missing member and for a
    /// document that is no object.
    pub fn member(&self, key: &str) -> (found: Option<&JsonValue>)
        ensures
            found.is_some() == self@.member(key@).is_some(),
            found matches Some(value) ==> self@.member(key@) == Some(value@),
    {
        match self {
            JsonValue::Object(members) => {
                let mut i: usize = 0;
                proof {
                    lemma_object_view(*members);
                }
                while i < members.len()
                    invariant
                        i <= members.len(),
                        self@ is Object,
                        self@->Object_0.len() == members.len(),
                        forall|j: int|
                            0 <= j < members.len() ==> #[trigger] self@->Object_0[j] == (
                                members@[j].0@,
                                members@[j].1@,
                            ),
                        forall|j: int| 0 <= j < i ==> (#[trigger] self@->Object_0[j]).0 != key@,
                    decreases members.len() - i,
                {
                    if str_equal(members[i].0.as_str(), key) {
                        proof {
                            let all = self@->Object_0;
                            lemma_find_member_skip(all, key@, i as int);
                            assert(all.skip(i as int)[0] == all[i as int]);
                        }
                        return Some(&members[i].1);
                    }
                    i += 1;
                }
                proof {
                    let all = self@->Object_0;
                    lemma_find_member_skip(all, key@, all.len() as int);
                }
                None
            },
            _ => None,
        }
    }

    /// The member `key` of an object where it says something: a missing
    /// member and one that is `null` both count as absent.
    pub fn field(&self, key: &str) -> (found: Option<&JsonValue>)
        ensures
            found.is_some() == self@.field(key@).is_some(),
            found matches Some(value) ==> self@.field(key@) == Some(value@),
    {
        match self.member(key) {
            Some(JsonValue::Null) => None,
            other => other,
        }
    }
}

/// The document that `serde_json` reads from `text`, or `None` where it
/// reports an error: `text` is not one JSON value with nothing but white
/// space around it, or it nests deeper than the parser goes.
pub uninterp spec fn json_document(text: Seq<char>) -> Option<JsonDoc>;

/// What a `serde_json::Value` holds, as a document: variant for variant, an
/// object's members in the order in which the value hands them out.
pub uninterp spec fn value_document(value: serde_json::Value) -> JsonDoc;

/// `serde_json::Value`, known to the verifier as a type and nothing more:
/// a value of it is carried from the parser to [`lift`] unopened.
#[verifier::external_type_specification]
#[verifier::external_body]
pub struct ExValue(serde_json::Value);

/// `serde_json::from_str` at the type `serde_json::Value`. Trusted: whether
/// it succeeds and what it reads depend on `text` alone, and are named
/// [`json_document`].
#[verifier::external_body]
fn parse_value(text: &str) -> (parsed: Option<serde_json::Value>)
    ensures
        parsed.is_some() == json_document(text@).is_some(),
        parsed matches Some(value) ==> json_document(text@) == Some(value_document(value)),
{
    serde_json::from_str::<serde_json::Value>(text).ok()
}

/// Takes a `serde_json::Value` apart into a [`JsonValue`], variant for
/// variant; of a number it keeps `serde_json::Number::as_u64`. Trusted: the
/// result is the document that the value holds, named [`value_document`].
#[verifier::external_body]
fn lift(value: serde_json::Value) -> (doc: JsonValue)
    ensures
        doc@ == value_document(value),
{
    match value {
        serde_json::Value::Null => JsonValue::Null,
        serde_json::Value::Bool(b) => JsonValue::Bool(b),
        serde_json::Value::Number(n) => JsonValue::Number(n.as_u64()),
        serde_json::Value::String(s) => JsonValue::Text(s),
        serde_json::Value::Array(items) => JsonValue::Array(items.into_iter().map(lift).collect()),
        serde_json::Value::Object(members) => JsonValue::Object(
            members.into_iter().map(|(k, v)| (k, lift(v))).collect(),
        ),
    }
}

/// Parses `text` as one JSON document.
pub fn parse_document(text: &str) -> (doc: Option<JsonValue>)
    ensures
        doc.is_some() == json_document(text@).is_some(),
        doc matches Some(value) ==> json_document(text@) == Some(value@),
{
    match parse_value(text) {
        Some(value) => Some(lift(value)),
        None => None,
    }
}

} // verus!
