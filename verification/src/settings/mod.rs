//! The settings window: configuration values into the form, and the form back into the
//! configuration document.

pub mod document;
pub mod form;
pub mod laws;
pub mod readback;
pub mod save;
pub mod window;

use crate::settings::document::{
    bool_value, map_contains_key, map_get_mut, map_insert, new_map, number_value, object_value,
    text_value, Tree,
};
use vstd::prelude::*;

verus! {

/// Why the settings could not be written back.
#[derive(Debug)]
pub enum SettingsError {
    /// The configuration text is no HCL, for the reason given.
    Unparsable { reason: String },
    /// The document is not an object.
    RootNotObject,
    /// The value under the key is not an object.
    NotAnObject { key: String },
    /// `image.sources` is not an array.
    SourcesNotArray,
    /// The document cannot be written as HCL, for the reason given.
    Unprintable { reason: String },
}

/// The view of a `SettingsError`.
pub enum Fault {
    Unparsable(Seq<char>),
    RootNotObject,
    NotAnObject(Seq<char>),
    SourcesNotArray,
    Unprintable(Seq<char>),
}

impl View for SettingsError {
    type V = Fault;

    open spec fn view(&self) -> Fault {
        match *self {
            SettingsError::Unparsable { reason } => Fault::Unparsable(reason@),
            SettingsError::RootNotObject => Fault::RootNotObject,
            SettingsError::NotAnObject { key } => Fault::NotAnObject(key@),
            SettingsError::SourcesNotArray => Fault::SourcesNotArray,
            SettingsError::Unprintable { reason } => Fault::Unprintable(reason@),
        }
    }
}

/// The object map of `tree` that `key` names, where an absent key counts as an empty object.
/// The empty key names the document itself.
pub open spec fn section(tree: Tree, key: Seq<char>) -> Result<Seq<(Seq<char>, Tree)>, Fault> {
    match tree {
        Tree::Object(items) => if key.len() == 0 {
            Ok(items)
        } else {
            match document::lookup(items, key) {
                None => Ok(Seq::<(Seq<char>, Tree)>::empty()),
                Some(Tree::Object(inner)) => Ok(inner),
                Some(_) => Err(Fault::NotAnObject(key)),
            }
        },
        _ => Err(Fault::RootNotObject),
    }
}

/// `tree` with `items` as the object map that `key` names.
pub open spec fn with_section(tree: Tree, key: Seq<char>, items: Seq<(Seq<char>, Tree)>) -> Tree {
    if key.len() == 0 {
        Tree::Object(items)
    } else {
        Tree::Object(document::put(tree->Object_0, key, Tree::Object(items)))
    }
}

/// Returns the object map for `key` (empty string = root object), creating it when absent.
pub fn ensure_object<'a>(root: &'a mut hcl::Value, key: &str) -> (r: Result<
    &'a mut hcl::Map<String, hcl::Value>,
    SettingsError,
>)
    ensures
        match r {
            Ok(map) => {
                &&& section(document::value_tree(*old(root)), key@) == Ok::<
                    Seq<(Seq<char>, Tree)>,
                    Fault,
                >(document::map_items(*map))
                &&& document::value_tree(*final(root)) == with_section(
                    document::value_tree(*old(root)),
                    key@,
                    document::map_items(*final(map)),
                )
            },
            Err(error) => {
                &&& section(document::value_tree(*old(root)), key@) == Err::<
                    Seq<(Seq<char>, Tree)>,
                    Fault,
                >(error@)
                &&& document::value_tree(*final(root)) == document::value_tree(*old(root))
            },
        },
{
    match root.as_object_mut() {
        None => Err(SettingsError::RootNotObject),
        Some(map) => {
            if key.is_empty() {
                return Ok(map);
            }
            let ghost items = document::map_items(*map);
            if !map_contains_key(map, key) {
                map_insert(map, key.to_owned(), object_value(new_map()));
            }
            proof {
                let empty = Tree::Object(Seq::<(Seq<char>, Tree)>::empty());
                document::law_put_then_lookup(items, key@, empty, key@);
                document::lemma_position(items, key@);
                document::lemma_put_same(items, key@);
                assert forall|value: Tree|
                    #[trigger] document::put(document::put(items, key@, empty), key@, value)
                        == document::put(items, key@, value) by {
                    document::lemma_put_twice(items, key@, empty, value);
                }
            }
            match map_get_mut(map, key) {
                None => Err(SettingsError::NotAnObject { key: key.to_owned() }),
                Some(value) => match value.as_object_mut() {
                    None => Err(SettingsError::NotAnObject { key: key.to_owned() }),
                    Some(inner) => Ok(inner),
                },
            }
        },
    }
}

/// `tree` with `value` under `key` in the object that `object` names.
pub open spec fn with_key(tree: Tree, object: Seq<char>, key: Seq<char>, value: Tree) -> Result<
    Tree,
    Fault,
> {
    match section(tree, object) {
        Ok(items) => Ok(with_section(tree, object, document::put(items, key, value))),
        Err(fault) => Err(fault),
    }
}

/// Whether an operation did what `outcome` says: it made the tree of an `Ok`, or reported the
/// fault and left the tree `before` as it was.
pub open spec fn carried_out(
    before: Tree,
    outcome: Result<Tree, Fault>,
    after: Tree,
    r: Result<(), SettingsError>,
) -> bool {
    match outcome {
        Ok(tree) => r is Ok && after == tree,
        Err(fault) => r is Err && r->Err_0@ == fault && after == before,
    }
}

/// Stores a string in an object map.
pub fn set_in_object_string(map: &mut hcl::Map<String, hcl::Value>, key: &str, value: &str) -> (r:
    Result<(), SettingsError>)
    ensures
        r is Ok,
        document::map_items(*final(map)) == document::put(
            document::map_items(*old(map)),
            key@,
            Tree::Text(value@),
        ),
{
    map_insert(map, key.to_owned(), text_value(value));
    Ok(())
}

/// Stores a number in an object map.
pub fn set_in_object_number(map: &mut hcl::Map<String, hcl::Value>, key: &str, value: i64) -> (r:
    Result<(), SettingsError>)
    ensures
        r is Ok,
        document::map_items(*final(map)) == document::put(
            document::map_items(*old(map)),
            key@,
            Tree::Int(value as int),
        ),
{
    map_insert(map, key.to_owned(), number_value(value));
    Ok(())
}

/// Stores a flag in an object map.
pub fn set_in_object_bool(map: &mut hcl::Map<String, hcl::Value>, key: &str, value: bool) -> (r:
    Result<(), SettingsError>)
    ensures
        r is Ok,
        document::map_items(*final(map)) == document::put(
            document::map_items(*old(map)),
            key@,
            Tree::Bool(value),
        ),
{
    map_insert(map, key.to_owned(), bool_value(value));
    Ok(())
}

/// Stores a string in the object `object` (empty string = root object), creating it when absent.
pub fn set_object_string(root: &mut hcl::Value, object: &str, key: &str, value: &str) -> (r: Result<
    (),
    SettingsError,
>)
    ensures
        carried_out(
            document::value_tree(*old(root)),
            with_key(document::value_tree(*old(root)), object@, key@, Tree::Text(value@)),
            document::value_tree(*final(root)),
            r,
        ),
{
    match ensure_object(root, object) {
        Ok(map) => set_in_object_string(map, key, value),
        Err(error) => Err(error),
    }
}

/// Stores a number in the object `object` (empty string = root object), creating it when absent.
pub fn set_object_number(root: &mut hcl::Value, object: &str, key: &str, value: i64) -> (r: Result<
    (),
    SettingsError,
>)
    ensures
        carried_out(
            document::value_tree(*old(root)),
            with_key(document::value_tree(*old(root)), object@, key@, Tree::Int(value as int)),
            document::value_tree(*final(root)),
            r,
        ),
{
    match ensure_object(root, object) {
        Ok(map) => set_in_object_number(map, key, value),
        Err(error) => Err(error),
    }
}

/// Stores a flag in the object `object` (empty string = root object), creating it when absent.
pub fn set_object_bool(root: &mut hcl::Value, object: &str, key: &str, value: bool) -> (r: Result<
    (),
    SettingsError,
>)
    ensures
        carried_out(
            document::value_tree(*old(root)),
            with_key(document::value_tree(*old(root)), object@, key@, Tree::Bool(value)),
            document::value_tree(*final(root)),
            r,
        ),
{
    match ensure_object(root, object) {
        Ok(map) => set_in_object_bool(map, key, value),
        Err(error) => Err(error),
    }
}

} // verus!
