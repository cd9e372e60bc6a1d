//! Fields of a JSON object, read from its text and written to it.
//!
//! Each reader parses the text with `serde_json`, looks the key up in the top
//! level object, and takes the value where it is of the kind asked for. What
//! does not parse, is no object, lacks the key or holds another kind of value
//! has no such field. What a text parses to is not spelled out: it is a
//! function of the text.
//!
//! A text is written from an object that is filled field by field and keeps the
//! order in which its fields came. What is written is read back.

use vstd::prelude::*;

verus! {

/// Whether a text is JSON.
pub uninterp spec fn json_text(text: Seq<char>) -> bool;

/// Whether a text is JSON, with `serde_json::from_str`.
#[verifier::external_body]
pub(crate) fn is_json(text: &str) -> (r: bool)
    ensures
        r == json_text(text@),
{
    serde_json::from_str::<serde_json::Value>(text).is_ok()
}

/// The boolean that a text holds under a key.
pub uninterp spec fn bool_field(text: Seq<char>, key: Seq<char>) -> Option<bool>;

/// The string that a text holds under a key.
pub uninterp spec fn str_field(text: Seq<char>, key: Seq<char>) -> Option<Seq<char>>;

/// The integer from 0 to `u64::MAX` that a text holds under a key.
pub uninterp spec fn u64_field(text: Seq<char>, key: Seq<char>) -> Option<u64>;

/// The integer from `i64::MIN` to `i64::MAX` that a text holds under a key.
pub uninterp spec fn i64_field(text: Seq<char>, key: Seq<char>) -> Option<i64>;

/// Reads a boolean, with `serde_json::from_str`, `Value::get` and
/// `Value::as_bool`.
#[verifier::external_body]
pub(crate) fn read_bool(text: &str, key: &str) -> (r: Option<bool>)
    ensures
        r == bool_field(text@, key@),
{
    serde_json::from_str::<serde_json::Value>(text).ok()?.get(key)?.as_bool()
}

/// Reads a string, with `serde_json::from_str`, `Value::get` and
/// `Value::as_str`.
#[verifier::external_body]
pub(crate) fn read_str(text: &str, key: &str) -> (r: Option<String>)
    ensures
        crate::text::opt_view(r) == str_field(text@, key@),
{
    serde_json::from_str::<serde_json::Value>(text).ok()?.get(key)?.as_str().map(String::from)
}

/// Reads an integer, with `serde_json::from_str`, `Value::get` and
/// `Value::as_u64`.
#[verifier::external_body]
pub(crate) fn read_u64(text: &str, key: &str) -> (r: Option<u64>)
    ensures
        r == u64_field(text@, key@),
{
    serde_json::from_str::<serde_json::Value>(text).ok()?.get(key)?.as_u64()
}

/// Reads an integer, with `serde_json::from_str`, `Value::get` and
/// `Value::as_i64`.
#[verifier::external_body]
pub(crate) fn read_i64(text: &str, key: &str) -> (r: Option<i64>)
    ensures
        r == i64_field(text@, key@),
{
    serde_json::from_str::<serde_json::Value>(text).ok()?.get(key)?.as_i64()
}

// ---------------------------------------------------------------------------
// Writing
// ---------------------------------------------------------------------------

/// The value of a field.
pub enum Field {
    Flag(bool),
    Text(Seq<char>),
    Number(int),
}

/// The fields of an object, in order.
pub type Fields = Seq<(Seq<char>, Field)>;

/// The field of a key, where there is one.
pub open spec fn field_at(fs: Fields, key: Seq<char>) -> Option<Field>
    decreases fs.len(),
{
    if fs.len() == 0 {
        None
    } else if fs[0].0 == key {
        Some(fs[0].1)
    } else {
        field_at(fs.skip(1), key)
    }
}

/// The fields with `f` under a key: in place of the one that is there, or at the
/// end.
pub open spec fn with_field(fs: Fields, key: Seq<char>, f: Field) -> Fields
    decreases fs.len(),
{
    if fs.len() == 0 {
        seq![(key, f)]
    } else if fs[0].0 == key {
        seq![(key, f)] + fs.skip(1)
    } else {
        seq![fs[0]] + with_field(fs.skip(1), key, f)
    }
}

/// The boolean of a field that is one.
pub open spec fn flag_of(f: Option<Field>) -> Option<bool> {
    match f {
        Some(Field::Flag(b)) => Some(b),
        _ => None,
    }
}

/// The string of a field that is one.
pub open spec fn text_of(f: Option<Field>) -> Option<Seq<char>> {
    match f {
        Some(Field::Text(t)) => Some(t),
        _ => None,
    }
}

/// The number of a field that is one from 0 to `u64::MAX`.
pub open spec fn natural_of(f: Option<Field>) -> Option<u64> {
    match f {
        Some(Field::Number(n)) => if 0 <= n <= u64::MAX {
            Some(n as u64)
        } else {
            None
        },
        _ => None,
    }
}

/// The number of a field that is one from `i64::MIN` to `i64::MAX`.
pub open spec fn integer_of(f: Option<Field>) -> Option<i64> {
    match f {
        Some(Field::Number(n)) => if i64::MIN <= n <= i64::MAX {
            Some(n as i64)
        } else {
            None
        },
        _ => None,
    }
}

/// A field at the end is found under its key, unless an earlier one has it, and
/// changes no other.
pub proof fn lemma_field_at_push(fs: Fields, key: Seq<char>, f: Field, k: Seq<char>)
    ensures
        field_at(fs.push((key, f)), k) == (match field_at(fs, k) {
            Some(g) => Some(g),
            None => if k == key {
                Some(f)
            } else {
                None
            },
        }),
    decreases fs.len(),
{
    let t = fs.push((key, f));
    if fs.len() > 0 {
        assert(t[0] == fs[0]);
        assert(t.skip(1) =~= fs.skip(1).push((key, f)));
        lemma_field_at_push(fs.skip(1), key, f, k);
    } else {
        assert(field_at(t.skip(1), k) is None);
    }
}

/// A key that has no field goes to the end.
pub proof fn lemma_with_new_field(fs: Fields, key: Seq<char>, f: Field)
    requires
        field_at(fs, key) is None,
    ensures
        with_field(fs, key, f) == fs.push((key, f)),
    decreases fs.len(),
{
    if fs.len() > 0 {
        let t = fs.skip(1);
        lemma_with_new_field(t, key, f);
        assert(seq![fs[0]] + t.push((key, f)) =~= fs.push((key, f)));
    } else {
        assert(seq![(key, f)] =~= fs.push((key, f)));
    }
}

/// `serde_json::Value`, a JSON value. Nothing is known of what is inside.
#[verifier::external_type_specification]
#[verifier::external_body]
pub struct ExJsonValue(serde_json::Value);

/// `serde_json::Map`, the fields of a JSON object. What it holds is
/// `object_fields`.
#[verifier::external_type_specification]
#[verifier::external_body]
#[verifier::reject_recursive_types(K)]
#[verifier::reject_recursive_types(V)]
pub struct ExJsonMap<K, V>(serde_json::Map<K, V>);

/// All the entries of an object, in the order in which they stand in it. What
/// stands here for a value that is no boolean, string or integer is left open.
pub uninterp spec fn object_fields(
    o: serde_json::Map<String, serde_json::Value>,
) -> Seq<(Seq<char>, Field)>;

/// Whether an object holds booleans, strings and integers alone.
pub uninterp spec fn is_flat(o: serde_json::Map<String, serde_json::Value>) -> bool;

/// The text of an object with these fields, as `serde_json` prints it with
/// indentation.
pub uninterp spec fn pretty_text(fields: Seq<(Seq<char>, Field)>) -> Seq<char>;

/// An object without fields, with `serde_json::Map::new`.
#[verifier::external_body]
pub(crate) fn new_object() -> (o: serde_json::Map<String, serde_json::Value>)
    ensures
        object_fields(o) == Seq::<(Seq<char>, Field)>::empty(),
        is_flat(o),
{
    serde_json::Map::new()
}

/// Puts a boolean under a key, with `serde_json::Map::insert`: a key that is
/// there keeps its place, any other goes to the end.
#[verifier::external_body]
pub(crate) fn put_flag(
    o: &mut serde_json::Map<String, serde_json::Value>,
    key: &str,
    b: bool,
)
    ensures
        object_fields(*final(o)) == with_field(object_fields(*old(o)), key@, Field::Flag(b)),
        is_flat(*old(o)) ==> is_flat(*final(o)),
{
    o.insert(key.to_string(), serde_json::Value::from(b));
}

/// Puts a string under a key, with `serde_json::Map::insert`, as `put_flag`
/// does a boolean.
#[verifier::external_body]
pub(crate) fn put_text(
    o: &mut serde_json::Map<String, serde_json::Value>,
    key: &str,
    t: &str,
)
    ensures
        object_fields(*final(o)) == with_field(object_fields(*old(o)), key@, Field::Text(t@)),
        is_flat(*old(o)) ==> is_flat(*final(o)),
{
    o.insert(key.to_string(), serde_json::Value::from(t));
}

/// Puts an integer under a key, with `serde_json::Map::insert`, as `put_flag`
/// does a boolean.
#[verifier::external_body]
pub(crate) fn put_number(
    o: &mut serde_json::Map<String, serde_json::Value>,
    key: &str,
    n: i64,
)
    ensures
        object_fields(*final(o)) == with_field(
            object_fields(*old(o)),
            key@,
            Field::Number(n as int),
        ),
        is_flat(*old(o)) ==> is_flat(*final(o)),
{
    o.insert(key.to_string(), serde_json::Value::from(n));
}

/// The text of an object, with `serde_json::to_string_pretty`, which fails on no
/// object of booleans, strings and integers. The text is JSON and depends on the
/// fields and their order alone, and each field is read back from it.
#[verifier::external_body]
pub(crate) fn pretty(o: &serde_json::Map<String, serde_json::Value>) -> (r: Option<String>)
    requires
        is_flat(*o),
    ensures
        r is Some,
        r->0@ == pretty_text(object_fields(*o)),
        json_text(r->0@),
        forall|k: Seq<char>|
            #[trigger] bool_field(r->0@, k) == flag_of(field_at(object_fields(*o), k)),
        forall|k: Seq<char>|
            #[trigger] str_field(r->0@, k) == text_of(field_at(object_fields(*o), k)),
        forall|k: Seq<char>|
            #[trigger] u64_field(r->0@, k) == natural_of(field_at(object_fields(*o), k)),
        forall|k: Seq<char>|
            #[trigger] i64_field(r->0@, k) == integer_of(field_at(object_fields(*o), k)),
{
    serde_json::to_string_pretty(o).ok()
}

} // verus!
