//! `Dig` for JSON values: only an object resolves a name, to the value
//! stored under exactly that key.

use vstd::prelude::*;

use crate::dig::{deref_opt, Dig, NamedChildren};

verus! {

/// serde_json's JSON value, opaque here: what the walk reads of it is
/// given by `object_of` and `entries_of`.
#[verifier::external_type_specification]
#[verifier::external_body]
pub struct ExJsonValue(serde_json::Value);

/// serde_json's map of an object, opaque here.
#[verifier::external_type_specification]
#[verifier::external_body]
#[verifier::reject_recursive_types(K)]
#[verifier::reject_recursive_types(V)]
pub struct ExJsonMap<K, V>(serde_json::Map<K, V>);

/// The keyed mapping that a JSON value holds when it is an object.
pub uninterp spec fn object_of(v: serde_json::Value) -> Option<
    serde_json::Map<String, serde_json::Value>,
>;

/// The entries of a JSON object's map, each key taken as its characters.
pub uninterp spec fn entries_of(m: serde_json::Map<String, serde_json::Value>) -> Map<
    Seq<char>,
    serde_json::Value,
>;

/// Relies on serde_json::Value::as_object: the map of an object, none for
/// every other kind of value.
pub assume_specification[ serde_json::Value::as_object ](v: &serde_json::Value) -> (r: Option<
    &serde_json::Map<String, serde_json::Value>,
>)
    ensures
        match r {
            Some(m) => object_of(*v) == Some(*m),
            None => object_of(*v) is None,
        },
;

/// Relies on serde_json::Map::get: the value stored under the key equal to
/// `name`, if the map has that key.
#[verifier::external_body]
fn object_get<'a>(m: &'a serde_json::Map<String, serde_json::Value>, name: &str) -> (r: Option<
    &'a serde_json::Value,
>)
    ensures
        match r {
            Some(v) => entries_of(*m).contains_key(name@) && entries_of(*m)[name@] == *v,
            None => !entries_of(*m).contains_key(name@),
        },
{
    m.get(name)
}

/// The child that object map `m` holds under `name`, if any.
pub open spec fn entry(m: serde_json::Map<String, serde_json::Value>, name: Seq<char>) -> Option<
    serde_json::Value,
> {
    if entries_of(m).contains_key(name) {
        Some(entries_of(m)[name])
    } else {
        None
    }
}

impl NamedChildren for serde_json::Value {
    open spec fn named_child(&self, name: Seq<char>) -> Option<serde_json::Value> {
        match object_of(*self) {
            Some(m) => entry(m, name),
            None => None,
        }
    }
}

impl Dig for serde_json::Value {
    fn value_for_name(&self, name: &str) -> (r: Option<&serde_json::Value>)
        ensures
            deref_opt(r) == (match object_of(*self) {
                Some(m) => entry(m, name@),
                None => None,
            }),
    {
        match self.as_object() {
            Some(o) => object_get(o, name),
            None => None,
        }
    }
}

/// A value that is not an object has no child under any name.
pub proof fn law_non_object_has_no_children(x: serde_json::Value, name: Seq<char>)
    requires
        object_of(x) is None,
    ensures
        x.named_child(name) is None,
{
}

} // verus!
