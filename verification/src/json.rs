//! JSON documents as plain data, with `serde_json` reading and writing their
//! text.

use vstd::prelude::*;

verus! {

/// A JSON value.
pub enum Json {
    Null,
    Bool(bool),
    /// A number that is an integer from 0 to the largest 64-bit value.
    Unsigned(u64),
    /// Any other number, negative or with a fraction. Its value is not kept.
    Number,
    Text(String),
    Array(Vec<Json>),
    /// An object: its members, one after the other.
    Object(Vec<Member>),
}

/// One member of a JSON object.
pub struct Member {
    pub name: String,
    pub value: Json,
}

/// A JSON value as mathematics: strings are sequences of characters, arrays
/// and objects sequences of values.
pub enum JsonView {
    Null,
    Bool(bool),
    Unsigned(u64),
    Number,
    Text(Seq<char>),
    Array(Seq<JsonView>),
    Object(Seq<(Seq<char>, JsonView)>),
}

impl View for Json {
    type V = JsonView;

    open spec fn view(&self) -> JsonView
        decreases self,
    {
        match self {
            Json::Null => JsonView::Null,
            Json::Bool(b) => JsonView::Bool(*b),
            Json::Unsigned(n) => JsonView::Unsigned(*n),
            Json::Number => JsonView::Number,
            Json::Text(text) => JsonView::Text(text@),
            Json::Array(items) => JsonView::Array(
                Seq::new(
                    items.len() as nat,
                    |i: int|
                        if 0 <= i < items.len() {
                            items[i]@
                        } else {
                            JsonView::Null
                        },
                ),
            ),
            Json::Object(members) => JsonView::Object(
                Seq::new(
                    members.len() as nat,
                    |i: int|
                        if 0 <= i < members.len() {
                            (members[i].name@, members[i].value@)
                        } else {
                            (Seq::empty(), JsonView::Null)
                        },
                ),
            ),
        }
    }
}

/// The views of the items of an array.
pub open spec fn item_views(items: Seq<Json>) -> Seq<JsonView> {
    Seq::new(items.len(), |i: int| items[i]@)
}

/// The views of the members of an object.
pub open spec fn member_views(members: Seq<Member>) -> Seq<(Seq<char>, JsonView)> {
    Seq::new(members.len(), |i: int| (members[i].name@, members[i].value@))
}

impl JsonView {
    /// Whether the value can be written as text: it holds no number whose
    /// value was not kept, and arrays and objects nest at most `depth` deep.
    pub open spec fn writable(self, depth: nat) -> bool
        decreases depth,
    {
        match self {
            JsonView::Number => false,
            JsonView::Array(items) => if depth == 0 {
                false
            } else {
                forall|i: int|
                    0 <= i < items.len() ==> (#[trigger] items[i]).writable((depth - 1) as nat)
            },
            JsonView::Object(members) => if depth == 0 {
                false
            } else {
                forall|i: int|
                    0 <= i < members.len() ==> (#[trigger] members[i]).1.writable(
                        (depth - 1) as nat,
                    )
            },
            _ => true,
        }
    }

    /// The value of the first member called `name`, where the value is an
    /// object that has one.
    pub open spec fn field(self, name: Seq<char>) -> Option<JsonView> {
        match self {
            JsonView::Object(members) => first_named(members, name),
            _ => None,
        }
    }
}

/// A value that can be written with arrays and objects nested `shallow`
/// deep can be written with more room too.
pub proof fn lemma_writable_deeper(value: JsonView, shallow: nat, deep: nat)
    requires
        value.writable(shallow),
        shallow <= deep,
    ensures
        value.writable(deep),
    decreases shallow,
{
    match value {
        JsonView::Array(items) => {
            assert forall|i: int| 0 <= i < items.len() implies (#[trigger] items[i]).writable(
                (deep - 1) as nat,
            ) by {
                lemma_writable_deeper(items[i], (shallow - 1) as nat, (deep - 1) as nat);
            }
        },
        JsonView::Object(members) => {
            assert forall|i: int| 0 <= i < members.len() implies (#[trigger] members[i]).1.writable(
                (deep - 1) as nat,
            ) by {
                lemma_writable_deeper(members[i].1, (shallow - 1) as nat, (deep - 1) as nat);
            }
        },
        _ => {},
    }
}

/// The value of the first of `members` that is called `name`.
pub open spec fn first_named(members: Seq<(Seq<char>, JsonView)>, name: Seq<char>) -> Option<
    JsonView,
>
    decreases members.len(),
{
    if members.len() == 0 {
        None
    } else if members[0].0 == name {
        Some(members[0].1)
    } else {
        first_named(members.drop_first(), name)
    }
}

/// How deep arrays and objects may nest in a value that is written as text.
/// `serde_json` reads no text that nests deeper.
pub const MAX_DEPTH: usize = 128;

impl Json {
    /// An array's view is made of the views of its items.
    pub proof fn lemma_array_view(items: Vec<Json>)
        ensures
            Json::Array(items)@ == JsonView::Array(item_views(items@)),
    {
        reveal_with_fuel(<Json as View>::view, 2);
        assert(Json::Array(items)@->Array_0 =~= item_views(items@));
    }

    /// An object's view is made of the views of its members.
    pub proof fn lemma_object_view(members: Vec<Member>)
        ensures
            Json::Object(members)@ == JsonView::Object(member_views(members@)),
    {
        reveal_with_fuel(<Json as View>::view, 2);
        assert(Json::Object(members)@->Object_0 =~= member_views(members@));
    }

    /// The members, where the value is an object.
    pub fn as_object(&self) -> (members: Option<&Vec<Member>>)
        ensures
            match members {
                Some(m) => self@ == JsonView::Object(member_views(m@)),
                None => !(self@ is Object),
            },
    {
        match self {
            Json::Object(members) => {
                proof {
                    Json::lemma_object_view(*members);
                }
                Some(members)
            },
            _ => None,
        }
    }

    /// The items, where the value is an array.
    pub fn as_array(&self) -> (items: Option<&Vec<Json>>)
        ensures
            match items {
                Some(v) => self@ == JsonView::Array(item_views(v@)),
                None => !(self@ is Array),
            },
    {
        match self {
            Json::Array(items) => {
                proof {
                    Json::lemma_array_view(*items);
                }
                Some(items)
            },
            _ => None,
        }
    }

    /// The number, where the value is an unsigned 64-bit integer.
    pub fn as_u64(&self) -> (number: Option<u64>)
        ensures
            match number {
                Some(n) => self@ == JsonView::Unsigned(n),
                None => !(self@ is Unsigned),
            },
    {
        match self {
            Json::Unsigned(n) => Some(*n),
            _ => None,
        }
    }

    /// The text, where the value is a string.
    pub fn as_str(&self) -> (text: Option<&String>)
        ensures
            match text {
                Some(t) => self@ == JsonView::Text(t@),
                None => !(self@ is Text),
            },
    {
        match self {
            Json::Text(text) => Some(text),
            _ => None,
        }
    }

    /// The value of the first member called `name`, where the value is an
    /// object that has one.
    pub fn get(&self, name: &String) -> (value: Option<&Json>)
        ensures
            match value {
                Some(v) => self@.field(name@) == Some(v@),
                None => self@.field(name@) is None,
            },
    {
        match self.as_object() {
            Some(members) => {
                let ghost all = member_views(members@);
                let mut i: usize = 0;
                assert(all.skip(0) =~= all);
                while i < members.len()
                    invariant
                        i <= members.len(),
                        all == member_views(members@),
                        self@ == JsonView::Object(all),
                        first_named(all, name@) == first_named(all.skip(i as int), name@),
                    decreases members.len() - i,
                {
                    assert(all.skip(i as int).drop_first() =~= all.skip(i + 1));
                    assert(all.skip(i as int)[0] == all[i as int]);
                    if members[i].name == *name {
                        return Some(&members[i].value);
                    }
                    i += 1;
                }
                None
            },
            None => None,
        }
    }
}

/// `serde_json::Error`, which says why a text was not read or a document
/// not written. Nothing of it is looked at.
#[verifier::external_type_specification]
#[verifier::external_body]
pub struct ExJsonError(serde_json::Error);

/// `serde_json::Value`, the document as `serde_json` holds it. It is turned
/// into a [`Json`] as soon as it is read, and made from one just before it
/// is written.
#[verifier::external_type_specification]
#[verifier::external_body]
pub struct ExJsonValue(serde_json::Value);

/// The document that `serde_json::from_str` reads from `text`, or `None`
/// where it reports an error.
pub uninterp spec fn json_document(text: Seq<char>) -> Option<JsonView>;

/// The text that `serde_json::to_string_pretty` writes for `document`, or
/// `None` where it reports an error.
pub uninterp spec fn json_text(document: JsonView) -> Option<Seq<char>>;

/// Turns a `serde_json::Value` into a [`Json`], variant by variant, for
/// [`parse`]: a number becomes what `serde_json::Number::as_u64` says of it,
/// an object its members as `serde_json::Map::iter` hands them out. Nothing
/// is claimed of the result.
#[verifier::external_body]
fn from_value(value: &serde_json::Value) -> (tree: Json) {
    match value {
        serde_json::Value::Null => Json::Null,
        serde_json::Value::Bool(b) => Json::Bool(*b),
        serde_json::Value::Number(n) => n.as_u64().map_or(Json::Number, Json::Unsigned),
        serde_json::Value::String(s) => Json::Text(s.clone()),
        serde_json::Value::Array(items) => Json::Array(items.iter().map(from_value).collect()),
        serde_json::Value::Object(map) => Json::Object(
            map.iter().map(|(k, v)| Member { name: k.clone(), value: from_value(v) }).collect(),
        ),
    }
}

/// Turns a [`Json`] into a `serde_json::Value`, variant by variant, for
/// [`render`]. A number whose value was not kept has nothing to turn into,
/// and a value that nests without end would not come back: both are left
/// out. Nothing is claimed of the result.
#[verifier::external_body]
fn to_value(tree: &Json) -> (value: serde_json::Value)
    requires
        tree@.writable(MAX_DEPTH as nat),
{
    match tree {
        Json::Null => serde_json::Value::Null,
        Json::Number => serde_json::Value::Null,
        Json::Bool(b) => serde_json::Value::Bool(*b),
        Json::Unsigned(n) => serde_json::Value::from(*n),
        Json::Text(s) => serde_json::Value::String(s.clone()),
        Json::Array(items) => serde_json::Value::Array(items.iter().map(to_value).collect()),
        Json::Object(members) => serde_json::Value::Object(
            members.iter().map(|m| (m.name.clone(), to_value(&m.value))).collect(),
        ),
    }
}

/// Reads `text` with `serde_json::from_str`. The contract names the
/// outcome as a function of the text and claims nothing else of it.
#[verifier::external_body]
pub(crate) fn parse(text: &str) -> (read: Result<Json, serde_json::Error>)
    ensures
        match read {
            Ok(tree) => json_document(text@) == Some(tree@),
            Err(_) => json_document(text@) is None,
        },
{
    let value: serde_json::Value = serde_json::from_str(text)?;
    Ok(from_value(&value))
}

/// Writes `tree` with `serde_json::to_string_pretty`. The contract names
/// the outcome as a function of the document and claims nothing else of it.
#[verifier::external_body]
pub(crate) fn render(tree: &Json) -> (written: Result<String, serde_json::Error>)
    requires
        tree@.writable(MAX_DEPTH as nat),
    ensures
        match written {
            Ok(text) => json_text(tree@) == Some(text@),
            Err(_) => json_text(tree@) is None,
        },
{
    serde_json::to_string_pretty(&to_value(tree))
}

} // verus!
