//! JSON documents, as far as the library reads and edits them. Text is parsed
//! and written by serde_json; what is done to a document in between is done
//! here, on a tree that keeps whatever it does not touch.
use vstd::prelude::*;
use crate::text::text_eq;

verus! {

/// A value of serde_json.
#[verifier::external_type_specification]
#[verifier::external_body]
pub struct ExValue(serde_json::Value);

/// A number of serde_json.
#[verifier::external_type_specification]
#[verifier::external_body]
pub struct ExNumber(serde_json::Number);

/// A JSON value. A number with a fraction or an exponent is carried as it was
/// read.
#[derive(Debug)]
pub enum Json {
    Null,
    Bool(bool),
    Whole(u64),
    /// A whole number below zero.
    Negative(i64),
    Float(serde_json::Number),
    Text(String),
    List(Vec<Json>),
    Object(Vec<(String, Json)>),
}

/// What a value says: the order of an object's fields says nothing, and of
/// several fields with one key the first counts.
pub enum Doc {
    Null,
    Bool(bool),
    Whole(u64),
    Negative(i64),
    Float(serde_json::Number),
    Text(Seq<char>),
    List(Seq<Doc>),
    Object(Map<Seq<char>, Doc>),
}

/// What a value says.
pub open spec fn doc(json: Json) -> Doc
    decreases json,
{
    match json {
        Json::Null => Doc::Null,
        Json::Bool(b) => Doc::Bool(b),
        Json::Whole(n) => Doc::Whole(n),
        Json::Negative(n) => Doc::Negative(n),
        Json::Float(n) => Doc::Float(n),
        Json::Text(s) => Doc::Text(s@),
        Json::List(items) => Doc::List(docs(items@)),
        Json::Object(fields) => Doc::Object(field_docs(fields@)),
    }
}

/// What the items of a list say.
pub open spec fn docs(items: Seq<Json>) -> Seq<Doc>
    decreases items,
{
    if items.len() == 0 {
        Seq::empty()
    } else {
        docs(items.subrange(0, items.len() - 1)).push(doc(items[items.len() - 1]))
    }
}

/// What the fields of an object say.
pub open spec fn field_docs(fields: Seq<(String, Json)>) -> Map<Seq<char>, Doc>
    decreases fields,
{
    if fields.len() == 0 {
        Map::empty()
    } else {
        field_docs(fields.subrange(1, fields.len() as int)).insert(
            fields[0].0@,
            doc(fields[0].1),
        )
    }
}

/// Whether serde_json reads a document back as it wrote it: no number in it has
/// a fraction or an exponent, of which reading may change the last digit, and it
/// is nested no deeper than so many lists and objects.
pub open spec fn exact(d: Doc, depth: nat) -> bool
    decreases depth,
{
    match d {
        Doc::Float(_) => false,
        Doc::Negative(n) => n < 0,
        Doc::List(items) => depth > 0 && forall|i: int|
            0 <= i < items.len() ==> exact(#[trigger] items[i], (depth - 1) as nat),
        Doc::Object(fields) => depth > 0 && forall|key: Seq<char>|
            fields.contains_key(key) ==> exact(#[trigger] fields[key], (depth - 1) as nat),
        _ => true,
    }
}

/// How deep the lists and objects of a text may be nested that serde_json
/// reads.
pub const DEEPEST: u8 = 127;

/// What serde_json reads in a text, or its message.
pub uninterp spec fn parsed_json(text: Seq<char>) -> Result<Doc, Seq<char>>;

/// What serde_json writes for a document, with line breaks and indentation, or
/// its message.
pub uninterp spec fn pretty_json(d: Doc) -> Result<Seq<char>, Seq<char>>;

/// Converts a number of serde_json by its kind, one for one.
#[verifier::external_body]
pub(crate) fn from_number(n: serde_json::Number) -> Json {
    match (n.as_u64(), n.as_i64()) {
        (Some(whole), _) => Json::Whole(whole),
        (None, Some(negative)) => Json::Negative(negative),
        (None, None) => Json::Float(n),
    }
}

/// Converts a value of serde_json, one for one.
#[verifier::external_body]
pub(crate) fn from_value(value: serde_json::Value) -> Json {
    match value {
        serde_json::Value::Null => Json::Null,
        serde_json::Value::Bool(b) => Json::Bool(b),
        serde_json::Value::Number(n) => from_number(n),
        serde_json::Value::String(s) => Json::Text(s),
        serde_json::Value::Array(items) => Json::List(items.into_iter().map(from_value).collect()),
        serde_json::Value::Object(fields) => Json::Object(
            fields.into_iter().map(|(key, value)| (key, from_value(value))).collect(),
        ),
    }
}

/// Converts a document to a value of serde_json, one for one. Fields go in from
/// the last to the first, so that the first of a key stays.
#[verifier::external_body]
pub(crate) fn to_value(json: &Json) -> serde_json::Value {
    match json {
        Json::Null => serde_json::Value::Null,
        Json::Bool(b) => serde_json::Value::Bool(*b),
        Json::Whole(n) => serde_json::Value::from(*n),
        Json::Negative(n) => serde_json::Value::from(*n),
        Json::Float(n) => serde_json::Value::Number(n.clone()),
        Json::Text(s) => serde_json::Value::String(s.clone()),
        Json::List(items) => serde_json::Value::Array(items.iter().map(to_value).collect()),
        Json::Object(fields) => serde_json::Value::Object(
            fields.iter().rev().map(|(key, value)| (key.clone(), to_value(value))).collect(),
        ),
    }
}

/// `serde_json::from_str`: the document that a text holds, or why it holds
/// none. It depends on the text alone.
#[verifier::external_body]
pub(crate) fn parse(text: &str) -> (r: Result<Json, String>)
    ensures
        match r {
            Ok(json) => parsed_json(text@) == Ok::<Doc, Seq<char>>(doc(json)),
            Err(message) => parsed_json(text@) == Err::<Doc, Seq<char>>(message@),
        },
{
    serde_json::from_str::<serde_json::Value>(text).map(from_value).map_err(|e| e.to_string())
}

/// Whether a text is what serde_json writes for a document: with a line break
/// after it, which counts for nothing, it is read back as the document, where
/// the document is one that serde_json reads back.
pub open spec fn written_as(d: Doc, text: Seq<char>) -> bool {
    &&& pretty_json(d) == Ok::<Seq<char>, Seq<char>>(text)
    &&& exact(d, DEEPEST as nat) ==> parsed_json(text + "\n"@) == Ok::<Doc, Seq<char>>(d)
}

/// `serde_json::to_string_pretty`: the text of a document. It depends on what
/// the document says alone; and a document of whole numbers that is not nested
/// too deep is what `serde_json::from_str` reads in its text, a line break after
/// it or not.
#[verifier::external_body]
pub(crate) fn pretty(json: &Json) -> (r: Result<String, String>)
    ensures
        match r {
            Ok(text) => written_as(doc(*json), text@),
            Err(message) => pretty_json(doc(*json)) == Err::<Seq<char>, Seq<char>>(message@),
        },
{
    serde_json::to_string_pretty(&to_value(json)).map_err(|e| e.to_string())
}

/// What the items of a list say, one by one.
pub proof fn lemma_docs(items: Seq<Json>)
    ensures
        docs(items).len() == items.len(),
        forall|i: int| 0 <= i < items.len() ==> #[trigger] docs(items)[i] == doc(items[i]),
    decreases items.len(),
{
    if items.len() > 0 {
        let rest = items.subrange(0, items.len() - 1);
        lemma_docs(rest);
        assert forall|i: int| 0 <= i < items.len() implies #[trigger] docs(items)[i] == doc(
            items[i],
        ) by {
            if i < items.len() - 1 {
                assert(docs(items)[i] == docs(rest)[i]);
                assert(rest[i] == items[i]);
            }
        }
    }
}

/// What the fields of an object say, key by key.
pub proof fn lemma_field_docs(fields: Seq<(String, Json)>, key: Seq<char>)
    ensures
        field_docs(fields).contains_key(key) == (field(fields, key) is Some),
        field(fields, key) matches Some(value) ==> field_docs(fields)[key] == doc(value),
    decreases fields.len(),
{
    if fields.len() > 0 {
        assert(fields.skip(1) =~= fields.subrange(1, fields.len() as int));
        lemma_field_docs(fields.skip(1), key);
    }
}

/// Objects that say the same of every key say the same.
pub proof fn lemma_same_fields(a: Seq<(String, Json)>, b: Seq<(String, Json)>)
    requires
        forall|key: Seq<char>| #[trigger] same_field(a, b, key),
    ensures
        field_docs(a) == field_docs(b),
{
    assert forall|key: Seq<char>| #[trigger] field_docs(a).dom().contains(key) == field_docs(
        b,
    ).dom().contains(key) by {
        lemma_field_docs(a, key);
        lemma_field_docs(b, key);
        assert(same_field(a, b, key));
    }
    assert(field_docs(a).dom() =~= field_docs(b).dom());
    assert forall|key: Seq<char>| #[trigger] field_docs(a).dom().contains(key) implies field_docs(
        a,
    )[key] == field_docs(b)[key] by {
        lemma_field_docs(a, key);
        lemma_field_docs(b, key);
        assert(same_field(a, b, key));
    }
    assert(field_docs(a) =~= field_docs(b));
}

/// Whether two objects say the same of a key.
pub open spec fn same_field(a: Seq<(String, Json)>, b: Seq<(String, Json)>, key: Seq<char>) -> bool {
    match (field(a, key), field(b, key)) {
        (Some(x), Some(y)) => doc(x) == doc(y),
        (None, None) => true,
        _ => false,
    }
}

/// Objects that say the same say the same of every key.
pub proof fn lemma_fields_same(a: Seq<(String, Json)>, b: Seq<(String, Json)>, key: Seq<char>)
    requires
        field_docs(a) == field_docs(b),
    ensures
        same_field(a, b, key),
{
    lemma_field_docs(a, key);
    lemma_field_docs(b, key);
}

/// Whether a field has a key.
pub open spec fn keyed(fields: Seq<(String, Json)>, key: Seq<char>, i: int) -> bool {
    0 <= i < fields.len() && fields[i].0@ == key
}

/// Whether an object has a field.
pub open spec fn has_field(fields: Seq<(String, Json)>, key: Seq<char>) -> bool {
    exists|i: int| #[trigger] keyed(fields, key, i)
}

/// The field of an object with a key: the first, should there be several.
pub open spec fn field(fields: Seq<(String, Json)>, key: Seq<char>) -> Option<Json>
    decreases fields.len(),
{
    if fields.len() == 0 {
        None
    } else if fields[0].0@ == key {
        Some(fields[0].1)
    } else {
        field(fields.skip(1), key)
    }
}

/// The field of a value with a key, where the value is an object.
pub open spec fn member(json: Json, key: Seq<char>) -> Option<Json> {
    match json {
        Json::Object(fields) => field(fields@, key),
        _ => None,
    }
}

/// A field found at a position, with none of its key before, is the field.
pub proof fn lemma_field_at(fields: Seq<(String, Json)>, key: Seq<char>, i: int)
    requires
        keyed(fields, key, i),
        forall|j: int| 0 <= j < i ==> !#[trigger] keyed(fields, key, j),
    ensures
        field(fields, key) == Some(fields[i].1),
    decreases fields.len(),
{
    if i > 0 {
        assert(!keyed(fields, key, 0));
        let rest = fields.skip(1);
        assert forall|j: int| 0 <= j < i - 1 implies !#[trigger] keyed(rest, key, j) by {
            assert(!keyed(fields, key, j + 1));
            assert(rest[j] == fields[j + 1]);
        }
        assert(rest[i - 1] == fields[i]);
        lemma_field_at(rest, key, i - 1);
    }
}

/// Without a key among the fields there is no field of it.
pub proof fn lemma_no_field(fields: Seq<(String, Json)>, key: Seq<char>)
    ensures
        field(fields, key) is None <==> !has_field(fields, key),
    decreases fields.len(),
{
    if fields.len() > 0 {
        let rest = fields.skip(1);
        lemma_no_field(rest, key);
        if keyed(fields, key, 0) {
        } else {
            if has_field(rest, key) {
                let i = choose|i: int| #[trigger] keyed(rest, key, i);
                assert(keyed(fields, key, i + 1));
            }
            if has_field(fields, key) {
                let i = choose|i: int| #[trigger] keyed(fields, key, i);
                assert(rest[i - 1] == fields[i]);
                assert(keyed(rest, key, i - 1));
            }
        }
    }
}

/// Fields that agree with others but for one key have the same fields of every
/// other key.
proof fn lemma_update_field(fields: Seq<(String, Json)>, i: int, value: Json, other: Seq<char>)
    requires
        0 <= i < fields.len(),
        fields[i].0@ != other,
    ensures
        field(fields.update(i, (fields[i].0, value)), other) == field(fields, other),
    decreases fields.len(),
{
    let after = fields.update(i, (fields[i].0, value));
    if i == 0 {
        assert(after.skip(1) =~= fields.skip(1));
    } else if fields[0].0@ != other {
        lemma_update_field(fields.skip(1), i - 1, value, other);
        assert(after.skip(1) =~= fields.skip(1).update(i - 1, (fields[i].0, value)));
    }
}

/// A field that is added last is the field of its key where there was none, and
/// changes no other.
proof fn lemma_push_field(fields: Seq<(String, Json)>, added: (String, Json), key: Seq<char>)
    ensures
        field(fields.push(added), key) == if field(fields, key) is None && added.0@ == key {
            Some(added.1)
        } else {
            field(fields, key)
        },
    decreases fields.len(),
{
    let after = fields.push(added);
    if fields.len() == 0 {
        assert(after.skip(1) =~= Seq::<(String, Json)>::empty());
        assert(field(after.skip(1), key) is None);
        assert(after[0] == added);
    } else {
        assert(after[0] == fields[0]);
        if fields[0].0@ != key {
            lemma_push_field(fields.skip(1), added, key);
            assert(after.skip(1) =~= fields.skip(1).push(added));
        }
    }
}

/// Taking a field out changes no field of another key.
proof fn lemma_remove_field(fields: Seq<(String, Json)>, i: int, other: Seq<char>)
    requires
        0 <= i < fields.len(),
        fields[i].0@ != other,
    ensures
        field(fields.remove(i), other) == field(fields, other),
    decreases fields.len(),
{
    let after = fields.remove(i);
    if i == 0 {
        assert(after =~= fields.skip(1));
    } else {
        assert(after[0] == fields[0]);
        if fields[0].0@ != other {
            lemma_remove_field(fields.skip(1), i - 1, other);
            assert(after.skip(1) =~= fields.skip(1).remove(i - 1));
        }
    }
}

/// The position of the field of a key.
pub fn find_field(fields: &Vec<(String, Json)>, key: &str) -> (r: Option<usize>)
    ensures
        match r {
            Some(i) => keyed(fields@, key@, i as int) && field(fields@, key@) == Some(
                fields@[i as int].1,
            ) && forall|j: int| 0 <= j < i ==> !#[trigger] keyed(fields@, key@, j),
            None => field(fields@, key@) is None && !has_field(fields@, key@),
        },
{
    let mut i: usize = 0;
    while i < fields.len()
        invariant
            i <= fields@.len(),
            forall|j: int| 0 <= j < i ==> !#[trigger] keyed(fields@, key@, j),
        decreases fields.len() - i,
    {
        if text_eq(fields[i].0.as_str(), key) {
            proof {
                lemma_field_at(fields@, key@, i as int);
            }
            return Some(i);
        }
        i += 1;
    }
    proof {
        lemma_no_field(fields@, key@);
    }
    None
}

/// The field of a key, where the value is an object that has it.
pub fn get<'a>(json: &'a Json, key: &str) -> (r: Option<&'a Json>)
    ensures
        match r {
            Some(found) => member(*json, key@) == Some(*found),
            None => member(*json, key@) is None,
        },
{
    match json {
        Json::Object(fields) => match find_field(fields, key) {
            Some(i) => Some(&fields[i].1),
            None => None,
        },
        _ => None,
    }
}

/// Whether fields agree with others but for a key.
pub open spec fn agree_but(a: Seq<(String, Json)>, b: Seq<(String, Json)>, key: Seq<char>) -> bool {
    forall|other: Seq<char>| other != key ==> #[trigger] field(a, other) == field(b, other)
}

/// Takes the field of a key out.
pub fn take_field(fields: &mut Vec<(String, Json)>, key: &str) -> (r: Option<Json>)
    ensures
        r == field(old(fields)@, key@),
        field(final(fields)@, key@) is None,
        agree_but(final(fields)@, old(fields)@, key@),
    decreases old(fields)@.len(),
{
    match find_field(fields, key) {
        Some(i) => {
            let ghost before = fields@;
            let (_, value) = fields.remove(i);
            proof {
                assert(fields@ =~= before.remove(i as int));
                assert forall|other: Seq<char>| other != key@ implies #[trigger] field(
                    fields@,
                    other,
                ) == field(before, other) by {
                    lemma_remove_field(before, i as int, other);
                }
            }
            let _ = take_field(fields, key);
            Some(value)
        },
        None => None,
    }
}

/// Sets the field of a key: in its place where there is one, else at the end.
pub fn set_field(fields: &mut Vec<(String, Json)>, key: &str, value: Json)
    ensures
        field(final(fields)@, key@) == Some(value),
        agree_but(final(fields)@, old(fields)@, key@),
{
    match find_field(fields, key) {
        Some(i) => {
            let ghost before = fields@;
            let name = fields[i].0.clone();
            fields.set(i, (name, value));
            proof {
                assert(fields@ == before.update(i as int, (before[i as int].0, value)));
                assert forall|other: Seq<char>| other != key@ implies #[trigger] field(
                    fields@,
                    other,
                ) == field(before, other) by {
                    lemma_update_field(before, i as int, value, other);
                }
                assert forall|j: int| 0 <= j < i implies !#[trigger] keyed(fields@, key@, j) by {
                    assert(!keyed(before, key@, j));
                }
                assert(keyed(fields@, key@, i as int));
                lemma_field_at(fields@, key@, i as int);
            }
        },
        None => {
            let ghost before = fields@;
            fields.push((key.to_owned(), value));
            proof {
                let added = fields@.last();
                assert(fields@ == before.push(added));
                assert forall|other: Seq<char>| other != key@ implies #[trigger] field(
                    fields@,
                    other,
                ) == field(before, other) by {
                    lemma_push_field(before, added, other);
                }
                lemma_push_field(before, added, key@);
            }
        },
    }
}

} // verus!
