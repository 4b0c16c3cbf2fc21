//! JSON values of `serde_json`, as far as the history needs them: values are
//! carried through untouched, objects are read as maps from field name to value.

use vstd::prelude::*;

verus! {

/// `serde_json::Value`, of which nothing is known but what the names below say.
#[verifier::external_type_specification]
#[verifier::external_body]
pub struct ExValue(serde_json::Value);

/// `serde_json::Map`, the map from field names to values behind a JSON object.
#[verifier::external_type_specification]
#[verifier::external_body]
#[verifier::reject_recursive_types(K)]
#[verifier::reject_recursive_types(V)]
pub struct ExObject<K, V>(serde_json::Map<K, V>);

/// A JSON object.
pub type Object = serde_json::Map<String, serde_json::Value>;

/// The fields that a JSON object holds: each field name with its value.
pub uninterp spec fn fields_of(object: Object) -> Map<Seq<char>, serde_json::Value>;

/// The JSON value that is the object with exactly the given fields.
pub uninterp spec fn object_of(fields: Map<Seq<char>, serde_json::Value>) -> serde_json::Value;

/// `serde_json::Map::new`: an object without fields.
#[verifier::external_body]
pub(crate) fn new_fields() -> (fresh: Object)
    ensures
        fields_of(fresh) =~= Map::empty(),
{
    serde_json::Map::new()
}

/// `Clone::clone` of `serde_json::Map`: the copy holds the same fields.
#[verifier::external_body]
pub(crate) fn clone_fields(object: &Object) -> (copy: Object)
    ensures
        fields_of(copy) == fields_of(*object),
{
    object.clone()
}

/// `Extend::extend` of `serde_json::Map`: every field of `later` is inserted
/// into `object`, replacing the value of a field that is already there; the
/// other fields of `object` stay as they were.
#[verifier::external_body]
pub(crate) fn extend_fields(object: &mut Object, later: Object)
    ensures
        fields_of(*final(object)) == fields_of(*old(object)).union_prefer_right(fields_of(later)),
{
    object.extend(later)
}

/// `serde_json::Value::Object`: the value that is the given object.
#[verifier::external_body]
pub(crate) fn object_value(object: Object) -> (value: serde_json::Value)
    ensures
        value == object_of(fields_of(object)),
{
    serde_json::Value::Object(object)
}

} // verus!
