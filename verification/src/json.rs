//! JSON documents: objects written from a list of members, members read from
//! the bytes of a document.

use serde_json::Value;
use vstd::prelude::*;
use vstd::utf8::*;

verus! {

/// A value to be written.
pub enum Json {
    Null,
    Bool(bool),
    Int(i64),
    UInt(u64),
    Text(String),
}

/// The view of a value to be written.
pub enum JsonView {
    Null,
    Bool(bool),
    Int(i64),
    UInt(u64),
    Text(Seq<char>),
}

impl View for Json {
    type V = JsonView;

    open spec fn view(&self) -> JsonView {
        match self {
            Json::Null => JsonView::Null,
            Json::Bool(b) => JsonView::Bool(*b),
            Json::Int(i) => JsonView::Int(*i),
            Json::UInt(u) => JsonView::UInt(*u),
            Json::Text(t) => JsonView::Text(t@),
        }
    }
}

/// A value that was read: a number is given as what it is as a signed and as
/// an unsigned 64-bit number, where it is one.
pub enum Leaf {
    Null,
    Bool(bool),
    Number(Option<i64>, Option<u64>),
    Text(String),
    Nested,
}

/// The view of a value that was read.
pub enum LeafView {
    Null,
    Bool(bool),
    Number(Option<i64>, Option<u64>),
    Text(Seq<char>),
    Nested,
}

impl View for Leaf {
    type V = LeafView;

    open spec fn view(&self) -> LeafView {
        match self {
            Leaf::Null => LeafView::Null,
            Leaf::Bool(b) => LeafView::Bool(*b),
            Leaf::Number(i, u) => LeafView::Number(*i, *u),
            Leaf::Text(t) => LeafView::Text(t@),
            Leaf::Nested => LeafView::Nested,
        }
    }
}

/// The view of an optional value.
pub open spec fn opt_leaf(o: Option<Leaf>) -> Option<LeafView> {
    match o {
        Some(l) => Some(l@),
        None => None,
    }
}

/// What a written value is read as.
pub open spec fn reads_as(j: JsonView) -> LeafView {
    match j {
        JsonView::Null => LeafView::Null,
        JsonView::Bool(b) => LeafView::Bool(b),
        JsonView::Int(i) => LeafView::Number(
            Some(i),
            if i >= 0 {
                Some(i as u64)
            } else {
                None
            },
        ),
        JsonView::UInt(u) => LeafView::Number(
            if u <= i64::MAX {
                Some(u as i64)
            } else {
                None
            },
            Some(u),
        ),
        JsonView::Text(t) => LeafView::Text(t),
    }
}

/// The members of an object, as views.
pub open spec fn members(m: Seq<(String, Json)>) -> Seq<(Seq<char>, JsonView)> {
    m.map_values(|f: (String, Json)| (f.0@, f.1@))
}

/// The members of several objects, as views.
pub open spec fn member_lists(m: Seq<Vec<(String, Json)>>) -> Seq<Seq<(Seq<char>, JsonView)>> {
    m.map_values(|f: Vec<(String, Json)>| members(f@))
}

/// Whether `k` names a member.
pub open spec fn names_member(m: Seq<(Seq<char>, JsonView)>, k: Seq<char>) -> bool {
    exists|i: int| 0 <= i < m.len() && (#[trigger] m[i]).0 == k
}

/// Whether member `i` is the last of its name.
pub open spec fn last_of_name(m: Seq<(Seq<char>, JsonView)>, i: int) -> bool {
    0 <= i < m.len() && forall|j: int| i < j < m.len() ==> (#[trigger] m[j]).0 != m[i].0
}

/// Whether the document `doc` is read as the object with the members `m`.
pub open spec fn holds_members(doc: Seq<u8>, m: Seq<(Seq<char>, JsonView)>) -> bool {
    &&& json_fault(doc) is None
    &&& forall|i: int|
        #![trigger m[i]]
        last_of_name(m, i) ==> json_member(doc, m[i].0) == Some(reads_as(m[i].1))
    &&& forall|k: Seq<char>| !names_member(m, k) ==> #[trigger] json_member(doc, k) is None
}

/// The text that `serde_json` writes for an object.
pub uninterp spec fn object_json(m: Seq<(Seq<char>, JsonView)>) -> Seq<char>;

/// The text that `serde_json` writes for an array of objects.
pub uninterp spec fn array_json(m: Seq<Seq<(Seq<char>, JsonView)>>) -> Seq<char>;

/// The message of `serde_json` on a document that is not JSON; `None` where it is.
pub uninterp spec fn json_fault(doc: Seq<u8>) -> Option<Seq<char>>;

/// The member of the given name in an object; `None` where the document is no
/// object, or has no such member.
pub uninterp spec fn json_member(doc: Seq<u8>, key: Seq<char>) -> Option<LeafView>;

/// The items of an array, each as a document of its own; none where the
/// document is no array.
pub uninterp spec fn json_items(doc: Seq<u8>) -> Seq<Seq<u8>>;

/// `Value::Object` written by `Value::to_string`: the text depends on the
/// members alone, and parsing it finds each member as it was written, the last
/// one where several have one name.
#[verifier::external_body]
pub(crate) fn object_text(m: &Vec<(String, Json)>) -> (r: String)
    ensures
        r@ == object_json(members(m@)),
        holds_members(encode_utf8(r@), members(m@)),
{
    let mut object = serde_json::Map::new();
    for (k, v) in m.iter() {
        let value = match v {
            Json::Null => Value::Null,
            Json::Bool(b) => Value::from(*b),
            Json::Int(i) => Value::from(*i),
            Json::UInt(u) => Value::from(*u),
            Json::Text(t) => Value::from(t.as_str()),
        };
        object.insert(k.clone(), value);
    }
    Value::Object(object).to_string()
}

/// `Value::Array` of objects written by `Value::to_string`: the text depends on
/// the members of the objects alone, and parsing it finds the objects in their order.
#[verifier::external_body]
pub(crate) fn array_text(list: &Vec<Vec<(String, Json)>>) -> (r: String)
    ensures
        r@ == array_json(member_lists(list@)),
        json_fault(encode_utf8(r@)) is None,
        json_items(encode_utf8(r@)).len() == list@.len(),
        forall|i: int|
            0 <= i < list@.len() ==> holds_members(
                #[trigger] json_items(encode_utf8(r@))[i],
                members(list@[i]@),
            ),
{
    let entry = |v: &Json| match v {
        Json::Null => Value::Null,
        Json::Bool(b) => Value::from(*b),
        Json::Int(i) => Value::from(*i),
        Json::UInt(u) => Value::from(*u),
        Json::Text(t) => Value::from(t.as_str()),
    };
    let objects = list.iter().map(|m| {
        Value::Object(m.iter().map(|(k, v)| (k.clone(), entry(v))).collect())
    });
    Value::Array(objects.collect()).to_string()
}

/// `serde_json::from_slice`: its message, where the document is not JSON.
#[verifier::external_body]
pub(crate) fn fault_of(doc: &[u8]) -> (r: Option<String>)
    ensures
        crate::text::opt_text(r) == json_fault(doc@),
{
    serde_json::from_slice::<Value>(doc).err().map(|e| e.to_string())
}

/// A character that stands for itself in a JSON text.
pub open spec fn plain_char(c: char) -> bool {
    c != '"' && c != '\\' && c as u32 >= 0x20
}

/// A text that is written in JSON as it stands, between quotes.
pub open spec fn plain_text(t: Seq<char>) -> bool {
    forall|i: int| 0 <= i < t.len() ==> plain_char(#[trigger] t[i])
}

/// Whether all names and values are written as they stand.
pub open spec fn plain_texts(m: Seq<(Seq<char>, Seq<char>)>) -> bool {
    forall|i: int| 0 <= i < m.len() ==> plain_text((#[trigger] m[i]).0) && plain_text(m[i].1)
}

/// Members that are texts, written one after the other.
pub open spec fn flat_members(m: Seq<(Seq<char>, Seq<char>)>) -> Seq<char>
    decreases m.len(),
{
    if m.len() == 0 {
        seq![]
    } else {
        let member = "\""@ + m.last().0 + "\":\""@ + m.last().1 + "\""@;
        if m.len() == 1 {
            member
        } else {
            flat_members(m.drop_last()) + ","@ + member
        }
    }
}

/// An object whose members are texts, written without blanks.
pub open spec fn flat_object(m: Seq<(Seq<char>, Seq<char>)>) -> Seq<char> {
    "{"@ + flat_members(m) + "}"@
}

/// The last value of the given name.
pub open spec fn flat_value(m: Seq<(Seq<char>, Seq<char>)>, key: Seq<char>) -> Option<Seq<char>>
    decreases m.len(),
{
    if m.len() == 0 {
        None
    } else if m.last().0 == key {
        Some(m.last().1)
    } else {
        flat_value(m.drop_last(), key)
    }
}

/// An object with one member.
pub proof fn lemma_flat_one(k: Seq<char>, v: Seq<char>)
    ensures
        flat_object(seq![(k, v)]) == "{\""@ + k + "\":\""@ + v + "\"}"@,
        flat_value(seq![(k, v)], k) == Some(v),
        plain_text(k) && plain_text(v) ==> plain_texts(seq![(k, v)]),
{
    reveal_strlit("{");
    reveal_strlit("\"");
    reveal_strlit("}");
    reveal_strlit("{\"");
    reveal_strlit("\"}");
    assert(flat_object(seq![(k, v)]) =~= "{\""@ + k + "\":\""@ + v + "\"}"@);
}

/// An object with two members.
pub proof fn lemma_flat_two(k: Seq<char>, v: Seq<char>, l: Seq<char>, w: Seq<char>)
    ensures
        flat_object(seq![(k, v), (l, w)]) == "{\""@ + k + "\":\""@ + v + "\",\""@ + l + "\":\""@ + w
            + "\"}"@,
        flat_value(seq![(k, v), (l, w)], l) == Some(w),
        plain_text(k) && plain_text(v) && plain_text(l) && plain_text(w) ==> plain_texts(
            seq![(k, v), (l, w)],
        ),
{
    let m = seq![(k, v), (l, w)];
    assert(m.drop_last() =~= seq![(k, v)]);
    reveal_with_fuel(flat_members, 2);
    reveal_strlit("{");
    reveal_strlit("\"");
    reveal_strlit(",");
    reveal_strlit("}");
    reveal_strlit("{\"");
    reveal_strlit("\",\"");
    reveal_strlit("\"}");
    assert(flat_object(m) =~= "{\""@ + k + "\":\""@ + v + "\",\""@ + l + "\":\""@ + w + "\"}"@);
}

/// `serde_json::from_slice` and `Value::get`: the member of the given name. In an
/// object that is written without blanks and escapes, with texts for members, it is
/// the last of that name.
#[verifier::external_body]
pub(crate) fn member(doc: &[u8], key: &str) -> (r: Option<Leaf>)
    ensures
        opt_leaf(r) == json_member(doc@, key@),
        forall|m: Seq<(Seq<char>, Seq<char>)>|
            plain_texts(m) && doc@ == #[trigger] encode_utf8(flat_object(m)) ==> opt_leaf(r) == (
            match flat_value(m, key@) {
                Some(t) => Some(LeafView::Text(t)),
                None => None,
            }),
{
    let value: Value = serde_json::from_slice(doc).ok()?;
    Some(match value.get(key)? {
        Value::Null => Leaf::Null,
        Value::Bool(b) => Leaf::Bool(*b),
        Value::Number(n) => Leaf::Number(n.as_i64(), n.as_u64()),
        Value::String(s) => Leaf::Text(s.clone()),
        Value::Array(_) => Leaf::Nested,
        Value::Object(_) => Leaf::Nested,
    })
}

/// The views of several documents.
pub open spec fn documents(v: Seq<Vec<u8>>) -> Seq<Seq<u8>> {
    v.map_values(|d: Vec<u8>| d@)
}

/// `serde_json::from_slice` and `Value::as_array`: the items of an array.
#[verifier::external_body]
pub(crate) fn items_of(doc: &[u8]) -> (r: Vec<Vec<u8>>)
    ensures
        documents(r@) == json_items(doc@),
{
    match serde_json::from_slice::<Value>(doc) {
        Ok(Value::Array(a)) => a.iter().map(|v| v.to_string().into_bytes()).collect(),
        _ => Vec::new(),
    }
}

// ---------- members of one kind ----------

/// The member as a text, where it is one.
pub open spec fn text_member(doc: Seq<u8>, key: Seq<char>) -> Option<Seq<char>> {
    match json_member(doc, key) {
        Some(LeafView::Text(t)) => Some(t),
        _ => None,
    }
}

/// The member as a truth value, where it is one.
pub open spec fn bool_member(doc: Seq<u8>, key: Seq<char>) -> Option<bool> {
    match json_member(doc, key) {
        Some(LeafView::Bool(b)) => Some(b),
        _ => None,
    }
}

/// The member as a signed number, where it is one.
pub open spec fn i64_member(doc: Seq<u8>, key: Seq<char>) -> Option<i64> {
    match json_member(doc, key) {
        Some(LeafView::Number(i, _)) => i,
        _ => None,
    }
}

/// The member as an unsigned number, where it is one.
pub open spec fn u64_member(doc: Seq<u8>, key: Seq<char>) -> Option<u64> {
    match json_member(doc, key) {
        Some(LeafView::Number(_, u)) => u,
        _ => None,
    }
}

/// The member as a text, where it is one.
pub fn get_text(doc: &[u8], key: &str) -> (r: Option<String>)
    ensures
        crate::text::opt_text(r) == text_member(doc@, key@),
        forall|m: Seq<(Seq<char>, Seq<char>)>|
            plain_texts(m) && doc@ == #[trigger] encode_utf8(flat_object(m))
                ==> crate::text::opt_text(r) == flat_value(m, key@),
{
    match member(doc, key) {
        Some(Leaf::Text(t)) => Some(t),
        _ => None,
    }
}

/// The member as a truth value, where it is one.
pub fn get_bool(doc: &[u8], key: &str) -> (r: Option<bool>)
    ensures
        r == bool_member(doc@, key@),
{
    match member(doc, key) {
        Some(Leaf::Bool(b)) => Some(b),
        _ => None,
    }
}

/// The member as a signed number, where it is one.
pub fn get_i64(doc: &[u8], key: &str) -> (r: Option<i64>)
    ensures
        r == i64_member(doc@, key@),
{
    match member(doc, key) {
        Some(Leaf::Number(i, _)) => i,
        _ => None,
    }
}

/// The member as an unsigned number, where it is one.
pub fn get_u64(doc: &[u8], key: &str) -> (r: Option<u64>)
    ensures
        r == u64_member(doc@, key@),
{
    match member(doc, key) {
        Some(Leaf::Number(_, u)) => u,
        _ => None,
    }
}

/// One member of an object to be written.
pub fn field(key: &str, value: Json) -> (r: (String, Json))
    ensures
        r.0@ == key@,
        r.1 == value,
{
    (key.to_string(), value)
}

// ---------- laws of members ----------

/// What is written into a document is read out of it again: a text as that text, a
/// truth value as that, and a number as that number, signed or not as far as it fits;
/// nothing is read as what it is not.
pub proof fn members_are_read_back(
    doc: Seq<u8>,
    m: Seq<(Seq<char>, JsonView)>,
    i: int,
)
    requires
        holds_members(doc, m),
        0 <= i < m.len(),
        forall|j: int| i < j < m.len() ==> (#[trigger] m[j]).0 != m[i].0,
    ensures
        m[i].1 matches JsonView::Text(t) ==> text_member(doc, m[i].0) == Some(t) && bool_member(
            doc,
            m[i].0,
        ) is None && i64_member(doc, m[i].0) is None && u64_member(doc, m[i].0) is None,
        m[i].1 matches JsonView::Bool(b) ==> bool_member(doc, m[i].0) == Some(b) && text_member(
            doc,
            m[i].0,
        ) is None,
        m[i].1 matches JsonView::Int(n) ==> i64_member(doc, m[i].0) == Some(n) && (n >= 0
            ==> u64_member(doc, m[i].0) == Some(n as u64)) && (n < 0 ==> u64_member(doc, m[i].0)
            is None) && text_member(doc, m[i].0) is None,
        m[i].1 matches JsonView::UInt(n) ==> u64_member(doc, m[i].0) == Some(n) && (n <= i64::MAX
            ==> i64_member(doc, m[i].0) == Some(n as i64)) && text_member(doc, m[i].0) is None,
        m[i].1 is Null ==> text_member(doc, m[i].0) is None && i64_member(doc, m[i].0) is None
            && u64_member(doc, m[i].0) is None && bool_member(doc, m[i].0) is None,
{
    assert(last_of_name(m, i));
}

/// What was not written is not read.
pub proof fn other_members_are_not_there(
    doc: Seq<u8>,
    m: Seq<(Seq<char>, JsonView)>,
    k: Seq<char>,
)
    requires
        holds_members(doc, m),
        forall|i: int| 0 <= i < m.len() ==> (#[trigger] m[i]).0 != k,
    ensures
        text_member(doc, k) is None,
        bool_member(doc, k) is None,
        i64_member(doc, k) is None,
        u64_member(doc, k) is None,
{
    assert(!names_member(m, k));
}

} // verus!
