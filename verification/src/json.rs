use vstd::prelude::*;

verus! {

/// Declares serde_json's value type, which the conversion below reads.
#[verifier::external_type_specification]
#[verifier::external_body]
pub struct ExJsonValue(serde_json::Value);

/// What a JSON value is, with the text of a number and the value of a
/// string; arrays and objects without their contents.
pub enum JsonKind {
    Null,
    Bool(bool),
    /// The number as serde_json writes it.
    Number(String),
    Str(String),
    Array,
    Object,
}

/// The text of a `JsonKind`.
pub enum KindShape {
    Null,
    Bool(bool),
    Number(Seq<char>),
    Str(Seq<char>),
    Array,
    Object,
}

impl View for JsonKind {
    type V = KindShape;

    open spec fn view(&self) -> KindShape {
        match self {
            JsonKind::Null => KindShape::Null,
            JsonKind::Bool(b) => KindShape::Bool(*b),
            JsonKind::Number(n) => KindShape::Number(n@),
            JsonKind::Str(s) => KindShape::Str(s@),
            JsonKind::Array => KindShape::Array,
            JsonKind::Object => KindShape::Object,
        }
    }
}

/// A member of a JSON object: its key, what its value is, and the compact
/// JSON text of its value as serde_json writes it.
pub struct JsonMember {
    pub key: String,
    pub value: JsonKind,
    pub text: String,
}

/// Key, value and text of a member.
pub type MemberShape = (Seq<char>, KindShape, Seq<char>);

impl View for JsonMember {
    type V = MemberShape;

    open spec fn view(&self) -> MemberShape {
        (self.key@, self.value@, self.text@)
    }
}

/// An element of a JSON array: what it is and, for an object, its members
/// in the order serde_json keeps them (sorted by key, each key once).
pub struct JsonElement {
    pub value: JsonKind,
    pub members: Vec<JsonMember>,
}

/// What an element is, and its members.
pub type ElementShape = (KindShape, Seq<MemberShape>);

/// The text of each member.
pub open spec fn member_views(members: Seq<JsonMember>) -> Seq<MemberShape> {
    members.map_values(|m: JsonMember| m@)
}

impl View for JsonElement {
    type V = ElementShape;

    open spec fn view(&self) -> ElementShape {
        (self.value@, member_views(self.members@))
    }
}

/// A JSON document: what its value is and, for an array, its elements.
pub struct JsonDocument {
    pub value: JsonKind,
    pub elements: Vec<JsonElement>,
}

/// What a document is, and its elements.
pub type DocumentShape = (KindShape, Seq<ElementShape>);

/// The text of each element.
pub open spec fn element_views(elements: Seq<JsonElement>) -> Seq<ElementShape> {
    elements.map_values(|e: JsonElement| e@)
}

impl View for JsonDocument {
    type V = DocumentShape;

    open spec fn view(&self) -> DocumentShape {
        (self.value@, element_views(self.elements@))
    }
}

/// What `serde_json::from_slice` reads from `body` into a `Value`, taken
/// down to the members of the elements of a top-level array; `None` when
/// `body` is no JSON text.
pub uninterp spec fn json_document(body: Seq<u8>) -> Option<DocumentShape>;

/// Converts a `Value` into what it is, one arm per variant; a number is kept
/// as its `Display` text. Called by `parse_json_document` alone.
#[verifier::external_body]
fn kind_of(value: &serde_json::Value) -> JsonKind {
    match value {
        serde_json::Value::Null => JsonKind::Null,
        serde_json::Value::Bool(b) => JsonKind::Bool(*b),
        serde_json::Value::Number(n) => JsonKind::Number(n.to_string()),
        serde_json::Value::String(s) => JsonKind::Str(s.clone()),
        serde_json::Value::Array(_) => JsonKind::Array,
        serde_json::Value::Object(_) => JsonKind::Object,
    }
}

/// Converts an element of an array, moving the members of an object with
/// the `Display` text of each member's value. Called by
/// `parse_json_document` alone.
#[verifier::external_body]
fn element_of(value: serde_json::Value) -> JsonElement {
    let kind = kind_of(&value);
    let members = match value {
        serde_json::Value::Object(map) => map.into_iter().map(|(key, v)| {
            JsonMember { value: kind_of(&v), text: v.to_string(), key }
        }).collect(),
        _ => Vec::new(),
    };
    JsonElement { value: kind, members }
}

/// Calls `serde_json::from_slice` into a `Value` and converts it. Claims
/// only that the result is `json_document` of the body: serde_json reads
/// nothing else, and without its `preserve_order` feature its objects are
/// sorted maps, so the same body gives the same members and texts.
#[verifier::external_body]
fn parse_json_document(body: &[u8]) -> (r: Option<JsonDocument>)
    ensures
        r is Some <==> json_document(body@) is Some,
        r matches Some(d) ==> json_document(body@) == Some(d@),
{
    let value: serde_json::Value = serde_json::from_slice(body).ok()?;
    let kind = kind_of(&value);
    let elements = match value {
        serde_json::Value::Array(items) => items.into_iter().map(element_of).collect(),
        _ => Vec::new(),
    };
    Some(JsonDocument { value: kind, elements })
}

impl JsonDocument {
    /// Reads the JSON document `body`; `None` when it is no JSON text.
    pub fn parse(body: &[u8]) -> (r: Option<JsonDocument>)
        ensures
            r is Some <==> json_document(body@) is Some,
            r matches Some(d) ==> json_document(body@) == Some(d@),
    {
        parse_json_document(body)
    }
}

/// The position of the first member with the key `key`, from `i` on.
pub open spec fn member_position(members: Seq<MemberShape>, key: Seq<char>, i: nat) -> Option<int>
    decreases members.len() - i,
{
    if i >= members.len() {
        None
    } else if members[i as int].0 == key {
        Some(i as int)
    } else {
        member_position(members, key, i + 1)
    }
}

/// The position of the first member of `members` with the key `key`.
pub fn find_member(members: &Vec<JsonMember>, key: &str) -> (r: Option<usize>)
    ensures
        r is None <==> member_position(member_views(members@), key@, 0) is None,
        r matches Some(p) ==> p < members.len() && member_position(member_views(members@), key@, 0)
            == Some(p as int),
{
    let wanted = String::from_str(key);
    let n = members.len();
    let mut i: usize = 0;
    while i < n
        invariant
            n == members.len(),
            i <= n,
            wanted@ == key@,
            member_position(member_views(members@), key@, 0) == member_position(
                member_views(members@),
                key@,
                i as nat,
            ),
        decreases n - i,
    {
        if members[i].key == wanted {
            return Some(i);
        }
        i = i + 1;
    }
    None
}

/// The position found is that of the first member with the key, and none
/// is found only when no member has it.
pub proof fn lemma_member_position_first(members: Seq<MemberShape>, key: Seq<char>, i: nat)
    ensures
        member_position(members, key, i) matches Some(p) ==> i <= p < members.len() && members[p].0
            == key && forall|m: int| i <= m < p ==> (#[trigger] members[m]).0 != key,
        member_position(members, key, i) is None ==> forall|m: int|
            i <= m < members.len() ==> (#[trigger] members[m]).0 != key,
    decreases members.len() - i,
{
    if i < members.len() && members[i as int].0 != key {
        lemma_member_position_first(members, key, i + 1);
    }
}

} // verus!
