//! A JSON document as a value of its own, with the lookups that the response
//! parsers are made of.

use serde_json::Value;
use vstd::prelude::*;

use crate::bits;
use crate::bits::Double;
use crate::text;

verus! {

/// A JSON value. Numbers are kept the way a reader finds them: a whole number
/// that is not negative, a negative one, or the bits of a double.
#[derive(Debug)]
pub enum Json {
    Null,
    Bool(bool),
    Unsigned(u64),
    Negative(i64),
    Real(u64),
    Text(String),
    Array(Vec<Json>),
    Object(Vec<(String, Json)>),
}

/// What a [`Json`] holds.
#[verifier::ext_equal]
pub enum Doc {
    Null,
    Bool(bool),
    Unsigned(u64),
    Negative(i64),
    Real(u64),
    Text(Seq<char>),
    Array(Seq<Doc>),
    Object(Seq<(Seq<char>, Doc)>),
}

impl View for Json {
    type V = Doc;

    open spec fn view(&self) -> Doc {
        doc_of(*self)
    }
}

/// What `node` holds.
pub open spec fn doc_of(node: Json) -> Doc
    decreases node,
{
    match node {
        Json::Null => Doc::Null,
        Json::Bool(b) => Doc::Bool(b),
        Json::Unsigned(n) => Doc::Unsigned(n),
        Json::Negative(n) => Doc::Negative(n),
        Json::Real(n) => Doc::Real(n),
        Json::Text(s) => Doc::Text(s@),
        Json::Array(items) => Doc::Array(docs(items@)),
        Json::Object(fields) => Doc::Object(fields_docs(fields@)),
    }
}

/// What the elements of an array hold.
pub open spec fn docs(items: Seq<Json>) -> Seq<Doc>
    decreases items,
{
    if items.len() == 0 {
        Seq::empty()
    } else {
        docs(items.subrange(0, items.len() - 1)).push(doc_of(items[items.len() - 1]))
    }
}

/// What the fields of an object hold.
pub open spec fn fields_docs(fields: Seq<(String, Json)>) -> Seq<(Seq<char>, Doc)>
    decreases fields,
{
    if fields.len() == 0 {
        Seq::empty()
    } else {
        let last = fields[fields.len() - 1];
        fields_docs(fields.subrange(0, fields.len() - 1)).push((last.0@, doc_of(last.1)))
    }
}

/// An array's documents are those of its elements, one by one.
pub proof fn lemma_docs(items: Seq<Json>)
    ensures
        docs(items).len() == items.len(),
        forall|i: int| 0 <= i < items.len() ==> #[trigger] docs(items)[i] == items[i]@,
    decreases items.len(),
{
    if items.len() > 0 {
        let shorter = items.subrange(0, items.len() - 1);
        lemma_docs(shorter);
        assert forall|i: int| 0 <= i < items.len() implies #[trigger] docs(items)[i]
            == items[i]@ by {
            if i < shorter.len() {
                assert(docs(shorter)[i] == shorter[i]@);
            }
        }
    }
}

/// An object's documents are those of its fields, one by one.
pub proof fn lemma_fields_docs(fields: Seq<(String, Json)>)
    ensures
        fields_docs(fields).len() == fields.len(),
        forall|i: int|
            0 <= i < fields.len() ==> #[trigger] fields_docs(fields)[i] == (
                fields[i].0@,
                fields[i].1@,
            ),
    decreases fields.len(),
{
    if fields.len() > 0 {
        let shorter = fields.subrange(0, fields.len() - 1);
        lemma_fields_docs(shorter);
        assert forall|i: int| 0 <= i < fields.len() implies #[trigger] fields_docs(fields)[i] == (
            fields[i].0@,
            fields[i].1@,
        ) by {
            if i < shorter.len() {
                assert(fields_docs(shorter)[i] == (shorter[i].0@, shorter[i].1@));
            }
        }
    }
}

/// The value of the first field with that name.
pub open spec fn field(fields: Seq<(Seq<char>, Doc)>, key: Seq<char>) -> Option<Doc>
    decreases fields.len(),
{
    if fields.len() == 0 {
        None
    } else if fields[0].0 == key {
        Some(fields[0].1)
    } else {
        field(fields.drop_first(), key)
    }
}

/// The value under `key`, where `node` is an object that has it.
pub open spec fn member(node: Doc, key: Seq<char>) -> Option<Doc> {
    match node {
        Doc::Object(fields) => field(fields, key),
        _ => None,
    }
}

/// The value under `key`, or null.
pub open spec fn member_or_null(node: Doc, key: Seq<char>) -> Doc {
    match member(node, key) {
        Some(v) => v,
        None => Doc::Null,
    }
}

/// The text of a string value.
pub open spec fn text_value(node: Doc) -> Option<Seq<char>> {
    match node {
        Doc::Text(s) => Some(s),
        _ => None,
    }
}

/// The elements of an array.
pub open spec fn array_value(node: Doc) -> Option<Seq<Doc>> {
    match node {
        Doc::Array(items) => Some(items),
        _ => None,
    }
}

/// A whole number that fits a signed 64-bit integer.
pub open spec fn i64_value(node: Doc) -> Option<i64> {
    match node {
        Doc::Unsigned(n) if n <= i64::MAX => Some(n as i64),
        Doc::Negative(n) => Some(n),
        _ => None,
    }
}

/// A whole number that is not negative.
pub open spec fn u64_value(node: Doc) -> Option<u64> {
    match node {
        Doc::Unsigned(n) => Some(n),
        _ => None,
    }
}

/// The number as a float, rounded to whole units that are not below zero.
pub open spec fn rounded_value(node: Doc) -> Option<u64> {
    match node {
        Doc::Unsigned(n) => Some(bits::rounded_of(bits::double_of(n as nat)) as u64),
        Doc::Negative(_) => Some(0),
        Doc::Real(b) => Some(bits::rounded_of(Double { bits: b }) as u64),
        _ => None,
    }
}

/// The text under `key`.
pub open spec fn text_member(node: Doc, key: Seq<char>) -> Option<Seq<char>> {
    match member(node, key) {
        Some(v) => text_value(v),
        None => None,
    }
}

/// The elements of the array under `key`.
pub open spec fn array_member(node: Doc, key: Seq<char>) -> Option<Seq<Doc>> {
    match member(node, key) {
        Some(v) => array_value(v),
        None => None,
    }
}

/// The values under every occurrence of `key` in the tree below `node`, in
/// document order, an outer one before those inside it.
pub open spec fn occurrences(node: Doc, key: Seq<char>) -> Seq<Doc>
    decreases node,
{
    match node {
        Doc::Array(items) => occurrences_in_items(items, key),
        Doc::Object(fields) => occurrences_in_fields(fields, key),
        _ => Seq::empty(),
    }
}

pub open spec fn occurrences_in_items(items: Seq<Doc>, key: Seq<char>) -> Seq<Doc>
    decreases items,
{
    if items.len() == 0 {
        Seq::empty()
    } else {
        occurrences_in_items(items.subrange(0, items.len() - 1), key) + occurrences(
            items[items.len() - 1],
            key,
        )
    }
}

pub open spec fn occurrences_in_fields(fields: Seq<(Seq<char>, Doc)>, key: Seq<char>) -> Seq<Doc>
    decreases fields,
{
    if fields.len() == 0 {
        Seq::empty()
    } else {
        let last = fields[fields.len() - 1];
        let before = occurrences_in_fields(fields.subrange(0, fields.len() - 1), key);
        let here = if last.0 == key {
            seq![last.1]
        } else {
            Seq::empty()
        };
        before + here + occurrences(last.1, key)
    }
}

/// The first field with a name is the one that is read.
pub proof fn lemma_field_found(fields: Seq<(Seq<char>, Doc)>, key: Seq<char>, i: int)
    requires
        0 <= i < fields.len(),
        fields[i].0 == key,
        forall|j: int| 0 <= j < i ==> (#[trigger] fields[j]).0 != key,
    ensures
        field(fields, key) == Some(fields[i].1),
        member(Doc::Object(fields), key) == Some(fields[i].1),
    decreases fields.len(),
{
    if i > 0 {
        let rest = fields.drop_first();
        assert(fields[0].0 != key);
        assert forall|j: int| 0 <= j < i - 1 implies (#[trigger] rest[j]).0 != key by {
            assert(rest[j] == fields[j + 1]);
        }
        assert(rest[i - 1] == fields[i]);
        lemma_field_found(rest, key, i - 1);
    }
}

/// A name that no field has is not found.
pub proof fn lemma_field_missing(fields: Seq<(Seq<char>, Doc)>, key: Seq<char>)
    requires
        forall|j: int| 0 <= j < fields.len() ==> (#[trigger] fields[j]).0 != key,
    ensures
        field(fields, key) is None,
        member(Doc::Object(fields), key) is None,
    decreases fields.len(),
{
    if fields.len() > 0 {
        let rest = fields.drop_first();
        assert(fields[0].0 != key);
        assert forall|j: int| 0 <= j < rest.len() implies (#[trigger] rest[j]).0 != key by {
            assert(rest[j] == fields[j + 1]);
        }
        lemma_field_missing(rest, key);
    }
}

/// What is looked for in a tree comes in document order: that of the first
/// elements of an array before that of the others, and a single element's is
/// the array's.
pub proof fn lemma_occurrences_in_array(a: Seq<Doc>, b: Seq<Doc>, key: Seq<char>)
    ensures
        occurrences(Doc::Array(a + b), key) == occurrences(Doc::Array(a), key) + occurrences(
            Doc::Array(b),
            key,
        ),
        a.len() == 0 ==> occurrences(Doc::Array(a), key).len() == 0,
        a.len() == 1 ==> occurrences(Doc::Array(a), key) == occurrences(a[0], key),
    decreases b.len(),
{
    reveal_with_fuel(occurrences, 3);
    reveal_with_fuel(occurrences_in_items, 3);
    if b.len() == 0 {
        assert(a + b =~= a);
        assert(occurrences_in_items(a, key) + occurrences_in_items(b, key)
            =~= occurrences_in_items(a, key));
    } else {
        let shorter = b.subrange(0, b.len() - 1);
        lemma_occurrences_in_array(a, shorter, key);
        assert((a + b).subrange(0, (a + b).len() - 1) =~= a + shorter);
        assert(occurrences_in_items(a + b, key) =~= occurrences_in_items(a, key)
            + occurrences_in_items(b, key));
    }
    if a.len() == 1 {
        assert(a.subrange(0, 0) =~= Seq::<Doc>::empty());
        assert(occurrences_in_items(a, key) =~= occurrences(a[0], key));
    }
}

/// The same of an object's fields; a field with the name counts itself, before
/// what lies inside it, and any other counts for what lies inside it alone.
pub proof fn lemma_occurrences_in_object(
    a: Seq<(Seq<char>, Doc)>,
    b: Seq<(Seq<char>, Doc)>,
    key: Seq<char>,
)
    ensures
        occurrences(Doc::Object(a + b), key) == occurrences(Doc::Object(a), key) + occurrences(
            Doc::Object(b),
            key,
        ),
        a.len() == 0 ==> occurrences(Doc::Object(a), key).len() == 0,
        a.len() == 1 && a[0].0 == key ==> occurrences(Doc::Object(a), key) == seq![a[0].1]
            + occurrences(a[0].1, key),
        a.len() == 1 && a[0].0 != key ==> occurrences(Doc::Object(a), key) == occurrences(
            a[0].1,
            key,
        ),
    decreases b.len(),
{
    reveal_with_fuel(occurrences, 3);
    reveal_with_fuel(occurrences_in_fields, 3);
    if b.len() == 0 {
        assert(a + b =~= a);
        assert(occurrences_in_fields(a, key) + occurrences_in_fields(b, key)
            =~= occurrences_in_fields(a, key));
    } else {
        let shorter = b.subrange(0, b.len() - 1);
        lemma_occurrences_in_object(a, shorter, key);
        assert((a + b).subrange(0, (a + b).len() - 1) =~= a + shorter);
        assert(occurrences_in_fields(a + b, key) =~= occurrences_in_fields(a, key)
            + occurrences_in_fields(b, key));
    }
    if a.len() == 1 {
        assert(a.subrange(0, 0) =~= Seq::<(Seq<char>, Doc)>::empty());
        if a[0].0 == key {
            assert(occurrences_in_fields(a, key) =~= seq![a[0].1] + occurrences(a[0].1, key));
        } else {
            assert(occurrences_in_fields(a, key) =~= occurrences(a[0].1, key));
        }
    }
}

/// Text, numbers, truth values and null hold nothing.
pub proof fn lemma_no_occurrences(node: Doc, key: Seq<char>)
    requires
        !(node is Array),
        !(node is Object),
    ensures
        occurrences(node, key).len() == 0,
        member(node, key) is None,
{
}

/// What the readers take of a value: text of a text, the elements of an array,
/// a whole number where it fits, and nothing of anything else.
pub proof fn lemma_values(node: Doc, n: u64, m: i64, t: Seq<char>, items: Seq<Doc>)
    ensures
        text_value(Doc::Text(t)) == Some(t),
        !(node is Text) ==> text_value(node) is None,
        array_value(Doc::Array(items)) == Some(items),
        !(node is Array) ==> array_value(node) is None,
        u64_value(Doc::Unsigned(n)) == Some(n),
        !(node is Unsigned) ==> u64_value(node) is None,
        n <= i64::MAX ==> i64_value(Doc::Unsigned(n)) == Some(n as i64),
        n > i64::MAX ==> i64_value(Doc::Unsigned(n)) is None,
        i64_value(Doc::Negative(m)) == Some(m),
        !(node is Unsigned) && !(node is Negative) ==> i64_value(node) is None,
        n < 0x20_0000_0000_0000 ==> rounded_value(Doc::Unsigned(n)) == Some(n),
        rounded_value(Doc::Negative(m)) == Some(0u64),
        node is Text || node is Bool || node is Null || node is Array || node is Object
            ==> rounded_value(node) is None,
{
    if n < 0x20_0000_0000_0000 {
        bits::lemma_rounded_round_trip(n as nat);
    }
}

/// A member that is missing reads as null, and text or an array under a name is
/// what stands there.
pub proof fn lemma_members(node: Doc, key: Seq<char>, value: Doc)
    ensures
        member(node, key) is None ==> member_or_null(node, key) is Null && text_member(
            node,
            key,
        ) is None && array_member(node, key) is None,
        member(node, key) == Some(value) ==> member_or_null(node, key) == value && text_member(
            node,
            key,
        ) == text_value(value) && array_member(node, key) == array_value(value),
{
}

/// What the values that a list refers to hold.
pub open spec fn targets(refs: Seq<&Json>) -> Seq<Doc> {
    Seq::new(refs.len(), |i: int| refs[i]@)
}

/// `serde_json::Value`, a parsed document as that crate keeps it.
#[verifier::external_type_specification]
#[verifier::external_body]
pub struct ExValue(serde_json::Value);

/// What `serde_json::from_str` makes of a text: the document, or the message
/// that says why it is none.
pub uninterp spec fn parsed_text(text: Seq<char>) -> Result<Doc, Seq<char>>;

/// The document that a `serde_json::Value` holds.
pub uninterp spec fn value_doc(value: Value) -> Doc;

/// How many levels of arrays and objects a `serde_json::Value` has.
pub uninterp spec fn value_depth(value: Value) -> nat;

/// The outermost level of a `serde_json::Value`.
enum Level {
    Null,
    Bool(bool),
    Unsigned(u64),
    Negative(i64),
    Real(u64),
    Text(String),
    Array(Vec<Value>),
    Object(Vec<(String, Value)>),
}

spec fn value_docs(values: Seq<Value>) -> Seq<Doc> {
    Seq::new(values.len(), |i: int| value_doc(values[i]))
}

spec fn field_value_docs(fields: Seq<(String, Value)>) -> Seq<(Seq<char>, Doc)> {
    Seq::new(fields.len(), |i: int| (fields[i].0@, value_doc(fields[i].1)))
}

/// `serde_json::from_str` on a text, with the error as its message. The result
/// is a function of the text, and goes by the name [`parsed_text`].
#[verifier::external_body]
fn parse_value(text: &str) -> (r: Result<Value, String>)
    ensures
        match r {
            Ok(v) => parsed_text(text@) == Ok::<Doc, Seq<char>>(value_doc(v)),
            Err(e) => parsed_text(text@) == Err::<Doc, Seq<char>>(e@),
        },
{
    serde_json::from_str(text).map_err(|e| e.to_string())
}

/// What `serde_json::from_slice` makes of bytes: the document, or the message
/// that says why they are none.
pub uninterp spec fn parsed_bytes(bytes: Seq<u8>) -> Result<Doc, Seq<char>>;

/// `serde_json::from_slice` on bytes, with the error as its message. The result
/// is a function of the bytes, and goes by the name [`parsed_bytes`].
#[verifier::external_body]
fn parse_bytes_value(bytes: &Vec<u8>) -> (r: Result<Value, String>)
    ensures
        match r {
            Ok(v) => parsed_bytes(bytes@) == Ok::<Doc, Seq<char>>(value_doc(v)),
            Err(e) => parsed_bytes(bytes@) == Err::<Doc, Seq<char>>(e@),
        },
{
    serde_json::from_slice(bytes).map_err(|e| e.to_string())
}

/// The variant of a `serde_json::Value` with what is in it. A number is a
/// `u64` where `Number::as_u64` gives one, else an `i64` where `as_i64` does,
/// else the bits of what `as_f64` gives. The values in an array or an object,
/// whose fields come as the crate's `Map` walks them, have fewer levels.
#[verifier::external_body]
fn outer_level(value: Value) -> (level: Level)
    ensures
        value_doc(value) == (match level {
            Level::Null => Doc::Null,
            Level::Bool(b) => Doc::Bool(b),
            Level::Unsigned(n) => Doc::Unsigned(n),
            Level::Negative(n) => Doc::Negative(n),
            Level::Real(n) => Doc::Real(n),
            Level::Text(s) => Doc::Text(s@),
            Level::Array(items) => Doc::Array(value_docs(items@)),
            Level::Object(fields) => Doc::Object(field_value_docs(fields@)),
        }),
        level matches Level::Array(items) ==> forall|i: int|
            0 <= i < items@.len() ==> value_depth(#[trigger] items@[i]) < value_depth(value),
        level matches Level::Object(fields) ==> forall|i: int|
            0 <= i < fields@.len() ==> value_depth((#[trigger] fields@[i]).1) < value_depth(value),
{
    match value {
        Value::Null => Level::Null,
        Value::Bool(b) => Level::Bool(b),
        Value::Number(n) => match (n.as_u64(), n.as_i64()) {
            (Some(whole), _) => Level::Unsigned(whole),
            (None, Some(negative)) => Level::Negative(negative),
            (None, None) => Level::Real(n.as_f64().unwrap_or_default().to_bits()),
        },
        Value::String(s) => Level::Text(s),
        Value::Array(items) => Level::Array(items),
        Value::Object(fields) => Level::Object(fields.into_iter().collect()),
    }
}

/// A `serde_json::Value` as a [`Json`].
fn from_value(value: Value) -> (json: Json)
    ensures
        json@ == value_doc(value),
    decreases value_depth(value),
{
    let ghost depth = value_depth(value);
    match outer_level(value) {
        Level::Null => Json::Null,
        Level::Bool(b) => Json::Bool(b),
        Level::Unsigned(n) => Json::Unsigned(n),
        Level::Negative(n) => Json::Negative(n),
        Level::Real(n) => Json::Real(n),
        Level::Text(s) => Json::Text(s),
        Level::Array(items) => {
            let ghost all = items@;
            let mut out: Vec<Json> = Vec::new();
            for item in it: items.into_iter()
                invariant
                    it.seq() == all,
                    depth == value_depth(value),
                    forall|i: int|
                        0 <= i < all.len() ==> value_depth(#[trigger] all[i]) < depth,
                    out@.len() == it.index(),
                    forall|i: int| 0 <= i < out@.len() ==> (#[trigger] out@[i])@ == value_doc(all[i]),
            {
                assert(item == all[it.index() as int]);
                out.push(from_value(item));
            }
            proof {
                lemma_docs(out@);
                assert(docs(out@) =~= value_docs(all));
            }
            Json::Array(out)
        },
        Level::Object(fields) => {
            let ghost all = fields@;
            let mut out: Vec<(String, Json)> = Vec::new();
            for field in it: fields.into_iter()
                invariant
                    it.seq() == all,
                    depth == value_depth(value),
                    forall|i: int|
                        0 <= i < all.len() ==> value_depth((#[trigger] all[i]).1) < depth,
                    out@.len() == it.index(),
                    forall|i: int|
                        0 <= i < out@.len() ==> (#[trigger] out@[i]).0@ == all[i].0@ && out@[i].1@
                            == value_doc(all[i].1),
            {
                assert(field == all[it.index() as int]);
                let (key, inner) = field;
                out.push((key, from_value(inner)));
            }
            proof {
                lemma_fields_docs(out@);
                assert(fields_docs(out@) =~= field_value_docs(all));
            }
            Json::Object(out)
        },
    }
}

/// Reads a text as a document, or says why it is none.
pub fn parse(text: &str) -> (r: Result<Json, String>)
    ensures
        match r {
            Ok(j) => parsed_text(text@) == Ok::<Doc, Seq<char>>(j@),
            Err(e) => parsed_text(text@) == Err::<Doc, Seq<char>>(e@),
        },
{
    match parse_value(text) {
        Ok(value) => Ok(from_value(value)),
        Err(e) => Err(e),
    }
}

/// Reads bytes as a document, or says why they are none.
pub fn parse_bytes(bytes: &Vec<u8>) -> (r: Result<Json, String>)
    ensures
        match r {
            Ok(j) => parsed_bytes(bytes@) == Ok::<Doc, Seq<char>>(j@),
            Err(e) => parsed_bytes(bytes@) == Err::<Doc, Seq<char>>(e@),
        },
{
    match parse_bytes_value(bytes) {
        Ok(value) => Ok(from_value(value)),
        Err(e) => Err(e),
    }
}

impl Json {
    /// The value under `key`, where this is an object that has it.
    pub fn get(&self, key: &str) -> (v: Option<&Json>)
        ensures
            match v {
                Some(x) => member(self@, key@) == Some(x@),
                None => member(self@, key@) is None,
            },
    {
        match self {
            Json::Object(fields) => {
                let ghost all = fields_docs(fields@);
                let mut i: usize = 0;
                proof {
                    lemma_fields_docs(fields@);
                    assert(all.skip(0) =~= all);
                }
                while i < fields.len()
                    invariant
                        0 <= i <= fields@.len(),
                        *self == Json::Object(*fields),
                        all == fields_docs(fields@),
                        all.len() == fields@.len(),
                        forall|k: int|
                            0 <= k < fields@.len() ==> #[trigger] all[k] == (
                                fields@[k].0@,
                                fields@[k].1@,
                            ),
                        field(all, key@) == field(all.skip(i as int), key@),
                    decreases fields@.len() - i,
                {
                    assert(all.skip(i as int).drop_first() =~= all.skip(i + 1));
                    assert(all.skip(i as int)[0] == all[i as int]);
                    if text::same(fields[i].0.as_str(), key) {
                        return Some(&fields[i].1);
                    }
                    i += 1;
                }
                None
            },
            _ => None,
        }
    }

    pub fn as_str(&self) -> (s: Option<&str>)
        ensures
            match s {
                Some(x) => text_value(self@) == Some(x@),
                None => text_value(self@) is None,
            },
    {
        match self {
            Json::Text(s) => Some(s.as_str()),
            _ => None,
        }
    }

    pub fn as_array(&self) -> (a: Option<&Vec<Json>>)
        ensures
            match a {
                Some(x) => array_value(self@) == Some(docs(x@)),
                None => array_value(self@) is None,
            },
    {
        match self {
            Json::Array(items) => Some(items),
            _ => None,
        }
    }

    pub fn as_i64(&self) -> (n: Option<i64>)
        ensures
            n == i64_value(self@),
    {
        match self {
            Json::Unsigned(n) => if *n <= i64::MAX as u64 {
                Some(*n as i64)
            } else {
                None
            },
            Json::Negative(n) => Some(*n),
            _ => None,
        }
    }

    pub fn as_u64(&self) -> (n: Option<u64>)
        ensures
            n == u64_value(self@),
    {
        match self {
            Json::Unsigned(n) => Some(*n),
            _ => None,
        }
    }

    /// A number, rounded to whole units that are not below zero.
    pub fn as_rounded(&self) -> (n: Option<u64>)
        ensures
            n == rounded_value(self@),
    {
        match self {
            Json::Unsigned(n) => Some(Double::from_whole(*n).to_rounded()),
            Json::Negative(_) => Some(0),
            Json::Real(bits) => Some(Double { bits: *bits }.to_rounded()),
            _ => None,
        }
    }

    /// The text under `key`.
    pub fn get_str(&self, key: &str) -> (s: Option<&str>)
        ensures
            match s {
                Some(x) => text_member(self@, key@) == Some(x@),
                None => text_member(self@, key@) is None,
            },
    {
        match self.get(key) {
            Some(v) => v.as_str(),
            None => None,
        }
    }

    /// The elements of the array under `key`.
    pub fn get_array(&self, key: &str) -> (a: Option<&Vec<Json>>)
        ensures
            match a {
                Some(x) => array_member(self@, key@) == Some(docs(x@)),
                None => array_member(self@, key@) is None,
            },
    {
        match self.get(key) {
            Some(v) => v.as_array(),
            None => None,
        }
    }
}

/// Walks the tree in document order, collecting the value under every
/// occurrence of `key`.
pub fn find_all<'a>(node: &'a Json, key: &str, out: &mut Vec<&'a Json>)
    ensures
        targets(final(out)@) == targets(old(out)@) + occurrences(node@, key@),
    decreases node,
{
    let ghost start = targets(out@);
    match node {
        Json::Object(fields) => {
            let ghost all = fields_docs(fields@);
            let mut i: usize = 0;
            proof {
                lemma_fields_docs(fields@);
                assert(all.subrange(0, 0) =~= Seq::empty());
            }
            while i < fields.len()
                invariant
                    0 <= i <= fields@.len(),
                    *node == Json::Object(*fields),
                    all == fields_docs(fields@),
                    all.len() == fields@.len(),
                    forall|k: int|
                        0 <= k < fields@.len() ==> #[trigger] all[k] == (
                            fields@[k].0@,
                            fields@[k].1@,
                        ),
                    targets(out@) == start + occurrences_in_fields(
                        all.subrange(0, i as int),
                        key@,
                    ),
                decreases fields@.len() - i,
            {
                let ghost done = all.subrange(0, i + 1);
                assert(done.subrange(0, done.len() - 1) =~= all.subrange(0, i as int));
                assert(done[done.len() - 1] == all[i as int]);
                let entry: &'a (String, Json) = &fields[i];
                let ghost before = out@;
                if text::same(entry.0.as_str(), key) {
                    out.push(&entry.1);
                    assert(targets(out@) =~= targets(before).push(entry.1@));
                }
                proof {
                    assert(decreases_to!(*node => node->Object_0));
                    assert(decreases_to!(fields => fields@));
                    assert(decreases_to!(fields@ => fields@[i as int]));
                    assert(decreases_to!(fields@[i as int] => fields@[i as int].1));
                }
                find_all(&entry.1, key, out);
                assert(targets(out@) =~= start + occurrences_in_fields(done, key@));
                i += 1;
            }
            assert(all.subrange(0, all.len() as int) =~= all);
        },
        Json::Array(items) => {
            let ghost all = docs(items@);
            let mut i: usize = 0;
            proof {
                lemma_docs(items@);
                assert(all.subrange(0, 0) =~= Seq::empty());
            }
            while i < items.len()
                invariant
                    0 <= i <= items@.len(),
                    *node == Json::Array(*items),
                    all == docs(items@),
                    all.len() == items@.len(),
                    forall|k: int| 0 <= k < items@.len() ==> #[trigger] all[k] == items@[k]@,
                    targets(out@) == start + occurrences_in_items(all.subrange(0, i as int), key@),
                decreases items@.len() - i,
            {
                let ghost done = all.subrange(0, i + 1);
                assert(done.subrange(0, done.len() - 1) =~= all.subrange(0, i as int));
                assert(done[done.len() - 1] == all[i as int]);
                proof {
                    assert(decreases_to!(*node => node->Array_0));
                    assert(decreases_to!(items => items@));
                    assert(decreases_to!(items@ => items@[i as int]));
                }
                find_all(&items[i], key, out);
                assert(targets(out@) =~= start + occurrences_in_items(done, key@));
                i += 1;
            }
            assert(all.subrange(0, all.len() as int) =~= all);
        },
        _ => {
            assert(targets(out@) =~= start + Seq::<Doc>::empty());
        },
    }
}

/// The values under every occurrence of `key` below `node`.
pub fn all_under<'a>(node: &'a Json, key: &str) -> (found: Vec<&'a Json>)
    ensures
        targets(found@) == occurrences(node@, key@),
{
    let mut found: Vec<&'a Json> = Vec::new();
    find_all(node, key, &mut found);
    assert(targets(Seq::<&Json>::empty()) + occurrences(node@, key@) =~= occurrences(node@, key@));
    found
}

} // verus!
