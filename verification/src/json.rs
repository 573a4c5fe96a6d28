//! JSON documents as values of the library.

use vstd::prelude::*;

verus! {

#[verifier::external_type_specification]
#[verifier::external_body]
pub struct ExRawValue(serde_json::Value);

#[verifier::external_type_specification]
#[verifier::external_body]
pub struct ExRawError(serde_json::Error);

/// A JSON document as a mathematical value.
pub enum Json {
    Null,
    Bool(bool),
    /// A number, as the text that stands for it.
    Number(Seq<char>),
    Str(Seq<char>),
    Array(Seq<Json>),
    Object(Seq<(Seq<char>, Json)>),
}

/// A JSON document.
#[derive(Debug, PartialEq, Eq)]
pub enum JsonValue {
    Null,
    Bool(bool),
    /// A number, as the text that stands for it.
    Number(String),
    Str(String),
    Array(Vec<JsonValue>),
    Object(Vec<(String, JsonValue)>),
}

/// The model of a document.
pub open spec fn model_of(value: JsonValue) -> Json
    decreases value,
{
    match value {
        JsonValue::Null => Json::Null,
        JsonValue::Bool(b) => Json::Bool(b),
        JsonValue::Number(n) => Json::Number(n@),
        JsonValue::Str(s) => Json::Str(s@),
        JsonValue::Array(items) => Json::Array(items_model(items@)),
        JsonValue::Object(members) => Json::Object(members_model(members@)),
    }
}

/// The models of the documents in `items`, in order.
pub open spec fn items_model(items: Seq<JsonValue>) -> Seq<Json>
    decreases items,
{
    if items.len() == 0 {
        Seq::empty()
    } else {
        items_model(items.drop_last()).push(model_of(items.last()))
    }
}

/// The models of the members in `members`, in order.
pub open spec fn members_model(members: Seq<(String, JsonValue)>) -> Seq<(Seq<char>, Json)>
    decreases members,
{
    if members.len() == 0 {
        Seq::empty()
    } else {
        members_model(members.drop_last()).push((members.last().0@, model_of(members.last().1)))
    }
}

impl View for JsonValue {
    type V = Json;

    open spec fn view(&self) -> Json {
        model_of(*self)
    }
}

/// `items_model` maps item by item.
pub proof fn lemma_items_model(items: Seq<JsonValue>)
    ensures
        items_model(items).len() == items.len(),
        forall|i: int| 0 <= i < items.len() ==> (#[trigger] items_model(items)[i]) == items[i]@,
    decreases items.len(),
{
    if items.len() > 0 {
        lemma_items_model(items.drop_last());
    }
}

/// `members_model` maps member by member.
pub proof fn lemma_members_model(members: Seq<(String, JsonValue)>)
    ensures
        members_model(members).len() == members.len(),
        forall|i: int|
            0 <= i < members.len() ==> (#[trigger] members_model(members)[i]) == (
                members[i].0@,
                members[i].1@,
            ),
    decreases members.len(),
{
    if members.len() > 0 {
        lemma_members_model(members.drop_last());
    }
}

/// The document that `serde_json::from_str` reads from a text, or `None`
/// where it reads none. The function stands for the JSON grammar, which is
/// not written out here.
pub uninterp spec fn parsed_text(text: Seq<char>) -> Option<Json>;

/// The document that a `serde_json::Value` holds.
pub uninterp spec fn raw_model(raw: serde_json::Value) -> Json;

/// `serde_json::from_str` at the type `serde_json::Value`.
///
/// Not proved: that the outcome depends on the text alone. An `Ok` holds the
/// document that `parsed_text` names for the text, and an `Err` comes where
/// `parsed_text` names none. Nothing is claimed of the grammar.
#[verifier::external_body]
fn read_raw(text: &str) -> (r: Result<serde_json::Value, serde_json::Error>)
    ensures
        r matches Ok(raw) ==> parsed_text(text@) == Some(raw_model(raw)),
        r is Err ==> parsed_text(text@) is None,
{
    serde_json::from_str::<serde_json::Value>(text)
}

/// Copies a `serde_json::Value` into a `JsonValue`, variant by variant: a
/// number as `Display` of `serde_json::Number` writes it, and the members of
/// an object in the order in which `serde_json::Map::iter` gives them.
///
/// Not proved: that the copy is the document which `raw_model` names for the
/// value. This says what `raw_model` is, and no more.
#[verifier::external_body]
fn lift(raw: &serde_json::Value) -> (r: JsonValue)
    ensures
        r@ == raw_model(*raw),
{
    match raw {
        serde_json::Value::Null => JsonValue::Null,
        serde_json::Value::Bool(b) => JsonValue::Bool(*b),
        serde_json::Value::Number(n) => JsonValue::Number(n.to_string()),
        serde_json::Value::String(s) => JsonValue::Str(s.clone()),
        serde_json::Value::Array(a) => JsonValue::Array(a.iter().map(lift).collect()),
        serde_json::Value::Object(m) => JsonValue::Object(
            m.iter().map(|(k, v)| (k.clone(), lift(v))).collect(),
        ),
    }
}

/// The message of a `serde_json::Error`, as its `Display` writes it.
/// Nothing is claimed of the message.
#[verifier::external_body]
fn error_message(error: &serde_json::Error) -> (r: String) {
    error.to_string()
}

/// The value of the member `key` of an object with the members `members`:
/// that of the last member with this key.
pub open spec fn member(members: Seq<(Seq<char>, Json)>, key: Seq<char>) -> Option<Json> {
    crate::text_map::lookup(members, key)
}

impl JsonValue {
    /// Reads a document from JSON text.
    ///
    /// The result is the document that `parsed_text` names for `text`, and
    /// where it names none, a message that says where the text goes wrong.
    pub fn parse(text: &str) -> (r: Result<JsonValue, String>)
        ensures
            r matches Ok(v) ==> parsed_text(text@) == Some(v@),
            r is Err ==> parsed_text(text@) is None,
    {
        match read_raw(text) {
            Ok(raw) => Ok(lift(&raw)),
            Err(e) => Err(error_message(&e)),
        }
    }

    /// The text of a string document.
    pub fn as_str(&self) -> (r: Option<&str>)
        ensures
            match self@ {
                Json::Str(s) => r matches Some(t) && t@ == s,
                _ => r is None,
            },
    {
        match self {
            JsonValue::Str(s) => Some(s.as_str()),
            _ => None,
        }
    }

    /// The value of a boolean document.
    pub fn as_bool(&self) -> (r: Option<bool>)
        ensures
            r == match self@ {
                Json::Bool(b) => Some(b),
                _ => None,
            },
    {
        match self {
            JsonValue::Bool(b) => Some(*b),
            _ => None,
        }
    }

    /// The items of an array document.
    pub fn as_array(&self) -> (r: Option<&Vec<JsonValue>>)
        ensures
            match self@ {
                Json::Array(items) => r matches Some(v) && items_model(v@) == items,
                _ => r is None,
            },
    {
        match self {
            JsonValue::Array(items) => Some(items),
            _ => None,
        }
    }

    /// The members of an object document.
    pub fn as_object(&self) -> (r: Option<&Vec<(String, JsonValue)>>)
        ensures
            match self@ {
                Json::Object(members) => r matches Some(v) && members_model(v@) == members,
                _ => r is None,
            },
    {
        match self {
            JsonValue::Object(members) => Some(members),
            _ => None,
        }
    }
}

impl Clone for JsonValue {
    #[verifier::loop_isolation(false)]
    fn clone(&self) -> (r: JsonValue)
        ensures
            r@ == self@,
        decreases self,
    {
        match self {
            JsonValue::Null => JsonValue::Null,
            JsonValue::Bool(b) => JsonValue::Bool(*b),
            JsonValue::Number(n) => JsonValue::Number(n.clone()),
            JsonValue::Str(s) => JsonValue::Str(s.clone()),
            JsonValue::Array(items) => {
                let mut copy: Vec<JsonValue> = Vec::new();
                let mut i: usize = 0;
                while i < items.len()
                    invariant
                        i <= items.len(),
                        copy.len() == i,
                        self == JsonValue::Array(*items),
                        forall|j: int| 0 <= j < i ==> copy@[j]@ == items@[j]@,
                    decreases items.len() - i,
                {
                    proof {
                        vstd::std_specs::vec::axiom_vec_index_decreases(*items, i as int);
                    }
                    let item = items[i].clone();
                    copy.push(item);
                    i += 1;
                }
                let r = JsonValue::Array(copy);
                proof {
                    lemma_items_model(copy@);
                    lemma_items_model(items@);
                    assert(items_model(copy@) =~= items_model(items@));
                }
                r
            },
            JsonValue::Object(members) => {
                let mut copy: Vec<(String, JsonValue)> = Vec::new();
                let mut i: usize = 0;
                while i < members.len()
                    invariant
                        i <= members.len(),
                        copy.len() == i,
                        self == JsonValue::Object(*members),
                        forall|j: int|
                            0 <= j < i ==> copy@[j].0@ == members@[j].0@ && copy@[j].1@
                                == members@[j].1@,
                    decreases members.len() - i,
                {
                    proof {
                        vstd::std_specs::vec::axiom_vec_index_decreases(*members, i as int);
                    }
                    let value = members[i].1.clone();
                    copy.push((members[i].0.clone(), value));
                    i += 1;
                }
                let r = JsonValue::Object(copy);
                proof {
                    lemma_members_model(copy@);
                    lemma_members_model(members@);
                    assert(members_model(copy@) =~= members_model(members@));
                }
                r
            },
        }
    }
}

/// The value of the member `key` among `members`, if there is one.
pub fn find_member<'a>(members: &'a Vec<(String, JsonValue)>, key: &str) -> (r: Option<&'a JsonValue>)
    ensures
        r matches Some(v) ==> member(members_model(members@), key@) == Some(v@),
        r is None ==> member(members_model(members@), key@) is None,
{
    let mut i: usize = members.len();
    proof {
        lemma_members_model(members@);
        assert(members_model(members@).subrange(0, i as int) =~= members_model(members@));
    }
    while i > 0
        invariant
            i <= members.len(),
            member(members_model(members@), key@) == member(
                members_model(members@).subrange(0, i as int),
                key@,
            ),
        decreases i,
    {
        proof {
            lemma_members_model(members@);
        }
        let ghost all = members_model(members@);
        let ghost head = all.subrange(0, i as int);
        assert(head.last() == all[i - 1]);
        assert(head.drop_last() =~= all.subrange(0, i - 1));
        if crate::text::same_text(members[i - 1].0.as_str(), key) {
            return Some(&members[i - 1].1);
        }
        i -= 1;
    }
    None
}

} // verus!
