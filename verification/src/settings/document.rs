//! The configuration document: its model as a tree, and the operations of the HCL library on it.

use vstd::prelude::*;

verus! {

/// What an HCL value holds. The keys of an object stand in their order of insertion.
pub enum Tree {
    Null,
    Bool(bool),
    Int(int),
    Float(hcl::Number),
    Text(Seq<char>),
    Array(Seq<Tree>),
    Object(Seq<(Seq<char>, Tree)>),
}

#[verifier::external_type_specification]
#[verifier::external_body]
pub struct ExValue(hcl::Value);

#[verifier::external_type_specification]
#[verifier::external_body]
pub struct ExNumber(hcl::Number);

#[verifier::external_type_specification]
#[verifier::external_body]
pub struct ExError(hcl::Error);

#[verifier::external_type_specification]
#[verifier::external_body]
#[verifier::reject_recursive_types(K)]
#[verifier::reject_recursive_types(V)]
#[verifier::reject_recursive_types(S)]
pub struct ExIndexMap<K, V, S>(indexmap::IndexMap<K, V, S>);

/// What a value of the HCL library holds.
pub uninterp spec fn value_tree(value: hcl::Value) -> Tree;

/// The keys and values of an object map of the HCL library, in order.
pub uninterp spec fn map_items(map: hcl::Map<String, hcl::Value>) -> Seq<(Seq<char>, Tree)>;

/// What each value of an array holds.
pub open spec fn trees(values: Seq<hcl::Value>) -> Seq<Tree> {
    values.map_values(|value: hcl::Value| value_tree(value))
}

/// The position of `key` among `items`, or their number where the key is absent.
pub open spec fn position(items: Seq<(Seq<char>, Tree)>, key: Seq<char>) -> int
    decreases items.len(),
{
    if items.len() == 0 || items[0].0 == key {
        0
    } else {
        1 + position(items.skip(1), key)
    }
}

pub open spec fn has_key(items: Seq<(Seq<char>, Tree)>, key: Seq<char>) -> bool {
    position(items, key) < items.len()
}

/// The value stored under `key`.
pub open spec fn lookup(items: Seq<(Seq<char>, Tree)>, key: Seq<char>) -> Option<Tree> {
    if has_key(items, key) {
        Some(items[position(items, key)].1)
    } else {
        None
    }
}

/// `items` with `value` under `key`: in the place of the old value where the key is there,
/// else behind all other keys.
pub open spec fn put(items: Seq<(Seq<char>, Tree)>, key: Seq<char>, value: Tree) -> Seq<
    (Seq<char>, Tree),
> {
    if has_key(items, key) {
        items.update(position(items, key), (key, value))
    } else {
        items.push((key, value))
    }
}

/// `items` without `key`; the others keep their order.
pub open spec fn without(items: Seq<(Seq<char>, Tree)>, key: Seq<char>) -> Seq<(Seq<char>, Tree)> {
    items.filter(|item: (Seq<char>, Tree)| item.0 != key)
}

pub proof fn lemma_position(items: Seq<(Seq<char>, Tree)>, key: Seq<char>)
    ensures
        0 <= position(items, key) <= items.len(),
        has_key(items, key) ==> items[position(items, key)].0 == key,
        forall|i: int| 0 <= i < position(items, key) ==> (#[trigger] items[i]).0 != key,
    decreases items.len(),
{
    if items.len() > 0 && items[0].0 != key {
        let rest = items.skip(1);
        lemma_position(rest, key);
        assert forall|i: int| 0 <= i < position(items, key) implies (#[trigger] items[i]).0
            != key by {
            if i > 0 {
                assert(rest[i - 1] == items[i]);
            }
        }
        if has_key(items, key) {
            assert(rest[position(rest, key)] == items[position(items, key)]);
        }
    }
}

/// The position of a key is the first place where it stands.
pub proof fn lemma_position_is(items: Seq<(Seq<char>, Tree)>, key: Seq<char>, at: int)
    requires
        0 <= at <= items.len(),
        at < items.len() ==> items[at].0 == key,
        forall|i: int| 0 <= i < at ==> (#[trigger] items[i]).0 != key,
    ensures
        position(items, key) == at,
{
    lemma_position(items, key);
    let p = position(items, key);
    if p < at {
        assert(items[p].0 != key);
    } else if at < p {
        assert(items[at].0 != key);
    }
}

/// A stored value is read back, and no other key is touched.
pub proof fn law_put_then_lookup(
    items: Seq<(Seq<char>, Tree)>,
    key: Seq<char>,
    value: Tree,
    other: Seq<char>,
)
    ensures
        lookup(put(items, key, value), key) == Some(value),
        other != key ==> lookup(put(items, key, value), other) == lookup(items, other),
{
    let after = put(items, key, value);
    lemma_position(items, key);
    lemma_position(items, other);
    lemma_position_is(after, key, position(items, key));
    if other != key {
        let p = position(items, other);
        if p < items.len() {
            assert forall|i: int| 0 <= i < p implies (#[trigger] after[i]).0 != other by {
                assert(items[i].0 != other);
            }
            lemma_position_is(after, other, p);
        } else {
            assert forall|i: int| 0 <= i < after.len() implies (#[trigger] after[i]).0
                != other by {
                if i < items.len() {
                    assert(items[i].0 != other);
                }
            }
            lemma_position_is(after, other, after.len() as int);
        }
    }
}

/// Of two values put under one key the second stays.
pub proof fn lemma_put_twice(items: Seq<(Seq<char>, Tree)>, key: Seq<char>, a: Tree, b: Tree)
    ensures
        put(put(items, key, a), key, b) == put(items, key, b),
{
    let once = put(items, key, a);
    lemma_position(items, key);
    lemma_position_is(once, key, position(items, key));
    assert(put(once, key, b) =~= put(items, key, b));
}

/// Putting back the value that stands under a key changes nothing.
pub proof fn lemma_put_same(items: Seq<(Seq<char>, Tree)>, key: Seq<char>)
    ensures
        has_key(items, key) ==> put(items, key, lookup(items, key)->0) == items,
{
    lemma_position(items, key);
    if has_key(items, key) {
        assert(put(items, key, lookup(items, key)->0) =~= items);
    }
}

/// A removed key is gone, and no other key is touched.
pub proof fn law_without_then_lookup(
    items: Seq<(Seq<char>, Tree)>,
    key: Seq<char>,
    other: Seq<char>,
)
    ensures
        lookup(without(items, key), key) is None,
        other != key ==> lookup(without(items, key), other) == lookup(items, other),
    decreases items.len(),
{
    let keep = |item: (Seq<char>, Tree)| item.0 != key;
    reveal(Seq::filter);
    if items.len() == 0 {
        assert(without(items, key) =~= items);
        lemma_position(items, key);
        lemma_position(items, other);
    } else {
        let init = items.drop_last();
        let last = items.last();
        law_without_then_lookup(init, key, other);
        lemma_position(init, key);
        lemma_position(init, other);
        let kept = without(init, key);
        lemma_position(kept, key);
        lemma_position(kept, other);
        let after = without(items, key);
        assert(after == if keep(last) { kept.push(last) } else { kept });
        lemma_lookup_push(init, last, other);
        lemma_lookup_push(kept, last, other);
        lemma_lookup_push(kept, last, key);
        assert(items =~= init.push(last));
    }
}

/// Looking up behind a further item.
pub proof fn lemma_lookup_push(
    items: Seq<(Seq<char>, Tree)>,
    item: (Seq<char>, Tree),
    key: Seq<char>,
)
    ensures
        lookup(items.push(item), key) == if has_key(items, key) {
            lookup(items, key)
        } else if item.0 == key {
            Some(item.1)
        } else {
            None
        },
{
    let longer = items.push(item);
    lemma_position(items, key);
    let p = position(items, key);
    if p < items.len() {
        assert forall|i: int| 0 <= i < p implies (#[trigger] longer[i]).0 != key by {
            assert(items[i].0 != key);
        }
        lemma_position_is(longer, key, p);
    } else {
        let at: int = if item.0 == key { items.len() as int } else { items.len() + 1int };
        assert forall|i: int| 0 <= i < at implies (#[trigger] longer[i]).0 != key by {
            if i < items.len() {
                assert(items[i].0 != key);
            }
        }
        lemma_position_is(longer, key, at);
    }
}

/// `hcl::Value::as_object` gives the map of an object, and nothing for any other value.
pub assume_specification[ hcl::Value::as_object ](value: &hcl::Value) -> (r: Option<
    &hcl::Map<String, hcl::Value>,
>)
    ensures
        match r {
            Some(map) => value_tree(*value) == Tree::Object(map_items(*map)),
            None => !(value_tree(*value) is Object),
        },
;

/// `hcl::Value::as_object_mut` gives the map of an object, so that what the map holds in the
/// end is what the value holds then, and nothing for any other value, which stays as it is.
pub assume_specification[ hcl::Value::as_object_mut ](value: &mut hcl::Value) -> (r: Option<
    &mut hcl::Map<String, hcl::Value>,
>)
    ensures
        match r {
            Some(map) => {
                &&& value_tree(*old(value)) == Tree::Object(map_items(*map))
                &&& value_tree(*final(value)) == Tree::Object(map_items(*final(map)))
            },
            None => {
                &&& !(value_tree(*old(value)) is Object)
                &&& *final(value) == *old(value)
            },
        },
;

/// `hcl::Value::as_array_mut` gives the vector of an array, so that what the vector holds in
/// the end is what the value holds then, and nothing for any other value, which stays as it is.
pub assume_specification[ hcl::Value::as_array_mut ](value: &mut hcl::Value) -> (r: Option<
    &mut Vec<hcl::Value>,
>)
    ensures
        match r {
            Some(values) => {
                &&& value_tree(*old(value)) == Tree::Array(trees(values@))
                &&& value_tree(*final(value)) == Tree::Array(trees(final(values)@))
            },
            None => {
                &&& !(value_tree(*old(value)) is Array)
                &&& *final(value) == *old(value)
            },
        },
;

/// `hcl::Value::as_str` gives the text of a string, and nothing for any other value.
pub assume_specification[ hcl::Value::as_str ](value: &hcl::Value) -> (r: Option<&str>)
    ensures
        match r {
            Some(text) => value_tree(*value) == Tree::Text(text@),
            None => !(value_tree(*value) is Text),
        },
;

/// `hcl::Value::from` on a string slice makes a string value.
#[verifier::external_body]
pub(crate) fn text_value(text: &str) -> (r: hcl::Value)
    ensures
        value_tree(r) == Tree::Text(text@),
{
    hcl::Value::from(text)
}

/// `hcl::Value::from` on an `i64` makes an integer value.
#[verifier::external_body]
pub(crate) fn number_value(number: i64) -> (r: hcl::Value)
    ensures
        value_tree(r) == Tree::Int(number as int),
{
    hcl::Value::from(number)
}

/// `hcl::Value::from` on a `bool` makes a boolean value.
#[verifier::external_body]
pub(crate) fn bool_value(flag: bool) -> (r: hcl::Value)
    ensures
        value_tree(r) == Tree::Bool(flag),
{
    hcl::Value::from(flag)
}

/// `hcl::Value::from` on a map makes an object value.
#[verifier::external_body]
pub(crate) fn object_value(map: hcl::Map<String, hcl::Value>) -> (r: hcl::Value)
    ensures
        value_tree(r) == Tree::Object(map_items(map)),
{
    hcl::Value::from(map)
}

/// `hcl::Value::Array` makes an array value.
#[verifier::external_body]
pub(crate) fn array_value(values: Vec<hcl::Value>) -> (r: hcl::Value)
    ensures
        value_tree(r) == Tree::Array(trees(values@)),
{
    hcl::Value::Array(values)
}

/// `IndexMap::new` makes a map without keys.
#[verifier::external_body]
pub(crate) fn new_map() -> (r: hcl::Map<String, hcl::Value>)
    ensures
        map_items(r) == Seq::<(Seq<char>, Tree)>::empty(),
{
    hcl::Map::new()
}

/// `IndexMap::contains_key` tells whether a key is there.
#[verifier::external_body]
pub(crate) fn map_contains_key(map: &hcl::Map<String, hcl::Value>, key: &str) -> (r: bool)
    ensures
        r == has_key(map_items(*map), key@),
{
    map.contains_key(key)
}

/// `IndexMap::get` gives the value under a key.
#[verifier::external_body]
pub(crate) fn map_get<'a>(map: &'a hcl::Map<String, hcl::Value>, key: &str) -> (r: Option<
    &'a hcl::Value,
>)
    ensures
        match r {
            Some(value) => lookup(map_items(*map), key@) == Some(value_tree(*value)),
            None => lookup(map_items(*map), key@) is None,
        },
{
    map.get(key)
}

/// `IndexMap::get_mut` gives the value under a key; what it holds in the end stands under the
/// key then, and nothing else in the map changes.
#[verifier::external_body]
pub(crate) fn map_get_mut<'a>(map: &'a mut hcl::Map<String, hcl::Value>, key: &str) -> (r: Option<
    &'a mut hcl::Value,
>)
    ensures
        match r {
            Some(value) => {
                &&& lookup(map_items(*old(map)), key@) == Some(value_tree(*value))
                &&& map_items(*final(map)) == put(
                    map_items(*old(map)),
                    key@,
                    value_tree(*final(value)),
                )
            },
            None => {
                &&& lookup(map_items(*old(map)), key@) is None
                &&& *final(map) == *old(map)
            },
        },
{
    map.get_mut(key)
}

/// `IndexMap::insert` stores a value under a key: in the place of the old value where the key
/// is there, else behind all other keys.
#[verifier::external_body]
pub(crate) fn map_insert(map: &mut hcl::Map<String, hcl::Value>, key: String, value: hcl::Value)
    ensures
        map_items(*final(map)) == put(map_items(*old(map)), key@, value_tree(value)),
{
    map.insert(key, value);
}

/// `IndexMap::shift_remove` takes a key out and keeps the order of the others.
#[verifier::external_body]
pub(crate) fn map_shift_remove(map: &mut hcl::Map<String, hcl::Value>, key: &str)
    ensures
        map_items(*final(map)) == without(map_items(*old(map)), key@),
{
    map.shift_remove(key);
}

/// What an error of the HCL library says.
pub uninterp spec fn hcl_reason(error: hcl::Error) -> Seq<char>;

/// `to_string` on an `hcl::Error` depends on the error alone; its text is called `hcl_reason`.
#[verifier::external_body]
pub(crate) fn hcl_error_text(error: &hcl::Error) -> (r: String)
    ensures
        r@ == hcl_reason(*error),
{
    error.to_string()
}

/// The value that an HCL text describes, or why the text is no HCL.
pub uninterp spec fn parsed_hcl(text: Seq<char>) -> Result<Tree, Seq<char>>;

/// The HCL text of a value, or why the value cannot stand at the top of a document.
pub uninterp spec fn printed_hcl(tree: Tree) -> Result<Seq<char>, Seq<char>>;

/// `hcl::from_str` into an `hcl::Value` depends on the text alone; what it reads, or what
/// its error says, is called `parsed_hcl`. What it reads is an object with identifiers for keys,
/// which `hcl::to_string` can write.
#[verifier::external_body]
pub(crate) fn parse_hcl(text: &str) -> (r: Result<hcl::Value, hcl::Error>)
    ensures
        match r {
            Ok(value) => {
                &&& parsed_hcl(text@) == Ok::<Tree, Seq<char>>(value_tree(value))
                &&& value_tree(value) is Object
                &&& printed_hcl(value_tree(value)) is Ok
            },
            Err(error) => parsed_hcl(text@) == Err::<Tree, Seq<char>>(hcl_reason(error)),
        },
{
    hcl::from_str(text)
}

/// Whether `c` can stand in front of `{` to open an interpolation or a directive.
pub open spec fn marker_char(c: char) -> bool {
    c == '$' || c == '%'
}

/// Whether an opening marker `${` or `%{` stands at a position.
pub open spec fn marker_at(s: Seq<char>, i: int) -> bool {
    0 <= i && i + 1 < s.len() && marker_char(s[i]) && s[i + 1] == '{'
}

/// How many `$` and `%` stand in a row up to a position.
pub open spec fn run_length(s: Seq<char>, i: int) -> nat
    decreases i + 1,
{
    if i < 0 || i >= s.len() || !marker_char(s[i]) {
        0
    } else {
        1 + run_length(s, i - 1)
    }
}

/// Whether the escaping of every opening marker in a text is undone by reading it: it is the first
/// one, or ends a row of an odd length.
pub open spec fn escapable(s: Seq<char>) -> bool {
    forall|i: int| #[trigger]
        marker_at(s, i) ==> run_length(s, i) % 2 == 1 || (forall|j: int|
            0 <= j < i ==> !marker_at(s, j))
}

/// Whether a value reads back as it was written, at most `levels` arrays and objects deep.
pub open spec fn readable_value(tree: Tree, levels: nat) -> bool
    decreases levels,
{
    match tree {
        Tree::Text(text) => escapable(text),
        Tree::Array(values) => values.len() == 0 || (levels > 0 && forall|i: int|
            0 <= i < values.len() ==> readable_value(#[trigger] values[i], (levels - 1) as nat)),
        Tree::Object(items) => items.len() == 0 || (levels > 0 && forall|i: int|
            0 <= i < items.len() ==> escapable((#[trigger] items[i]).0) && readable_value(
                items[i].1,
                (levels - 1) as nat,
            )),
        _ => true,
    }
}

/// The nesting that the HCL reader accepts below a top level key.
pub const MAX_LEVELS: u64 = 64;

/// Whether a document reads back as it was written.
pub open spec fn readable(tree: Tree) -> bool {
    match tree {
        Tree::Object(items) => forall|i: int|
            0 <= i < items.len() ==> readable_value((#[trigger] items[i]).1, MAX_LEVELS as nat),
        _ => false,
    }
}

/// Whether `key` is an identifier of ASCII letters, digits, `_` and `-`.
pub open spec fn plain_identifier(key: Seq<char>) -> bool {
    &&& key.len() > 0
    &&& plain_letter(key[0])
    &&& forall|i: int|
        0 <= i < key.len() ==> plain_letter(#[trigger] key[i]) || '0' <= key[i] <= '9' || key[i]
            == '-'
}

pub open spec fn plain_letter(c: char) -> bool {
    'a' <= c <= 'z' || 'A' <= c <= 'Z' || c == '_'
}

/// Whether `key` can stand at the top of a document: it is a plain identifier, or stands there in
/// some document that can be written.
pub open spec fn printable_key(key: Seq<char>) -> bool {
    plain_identifier(key) || exists|items: Seq<(Seq<char>, Tree)>| #[trigger]
        has_key(items, key) && printed_hcl(Tree::Object(items)) is Ok
}

/// Whether a document is an object whose keys can stand at the top of a document.
pub open spec fn printable(tree: Tree) -> bool {
    match tree {
        Tree::Object(items) => printable_keys(items),
        _ => false,
    }
}

pub open spec fn printable_keys(items: Seq<(Seq<char>, Tree)>) -> bool {
    forall|i: int| 0 <= i < items.len() ==> printable_key((#[trigger] items[i]).0)
}

/// `hcl::to_string` depends on what the value holds alone; what it writes, or what its error says,
/// is called `printed_hcl`. It succeeds on an object whose keys are identifiers, whatever stands
/// under them, and `hcl::from_str` reads back what it wrote, floats and escapes included. The
/// exceptions are values nested deeper than the reader accepts and texts with an even number of `$`
/// and `%` before the brace of a later opening marker, where the escaping is not undone.
#[verifier::external_body]
pub(crate) fn print_hcl(value: &hcl::Value) -> (r: Result<String, hcl::Error>)
    ensures
        match r {
            Ok(text) => {
                &&& printed_hcl(value_tree(*value)) == Ok::<Seq<char>, Seq<char>>(text@)
                &&& readable(value_tree(*value)) ==> parsed_hcl(text@) == Ok::<Tree, Seq<char>>(
                    value_tree(*value),
                )
            },
            Err(error) => {
                &&& printed_hcl(value_tree(*value)) == Err::<Seq<char>, Seq<char>>(
                    hcl_reason(error),
                )
                &&& !printable(value_tree(*value))
            },
        },
{
    hcl::to_string(value)
}

/// The keys of a document that can be written stay printable when a value is put under a printable
/// key, or a key is taken out.
pub proof fn lemma_printable_edits(
    items: Seq<(Seq<char>, Tree)>,
    key: Seq<char>,
    value: Tree,
)
    requires
        printable(Tree::Object(items)),
        printable_key(key),
    ensures
        printable(Tree::Object(put(items, key, value))),
        printable(Tree::Object(without(items, key))),
{
    lemma_position(items, key);
    assert(printable_keys(items));
    let after = put(items, key, value);
    assert forall|i: int| 0 <= i < after.len() implies printable_key((#[trigger] after[i]).0) by {
        if i < items.len() && i != position(items, key) {
            assert(after[i] == items[i]);
            assert(printable_key(items[i].0));
        } else {
            assert(after[i].0 == key);
        }
    }
    lemma_without_keeps_printable(items, key);
}

proof fn lemma_without_keeps_printable(items: Seq<(Seq<char>, Tree)>, key: Seq<char>)
    requires
        printable_keys(items),
    ensures
        printable_keys(without(items, key)),
    decreases items.len(),
{
    reveal(Seq::filter);
    if items.len() > 0 {
        let init = items.drop_last();
        assert forall|i: int| 0 <= i < init.len() implies printable_key((#[trigger] init[i]).0) by {
            assert(init[i] == items[i]);
        }
        lemma_without_keeps_printable(init, key);
        assert(items[items.len() - 1] == items.last());
        let kept = without(init, key);
        let keep = |item: (Seq<char>, Tree)| item.0 != key;
        assert(without(items, key) == if keep(items.last()) {
            kept.push(items.last())
        } else {
            kept
        });
    }
}

/// A document that can be written has printable keys.
pub proof fn lemma_printed_is_printable(items: Seq<(Seq<char>, Tree)>)
    requires
        printed_hcl(Tree::Object(items)) is Ok,
    ensures
        printable(Tree::Object(items)),
{
    assert forall|i: int| 0 <= i < items.len() implies printable_key((#[trigger] items[i]).0) by {
        lemma_position(items, items[i].0);
        assert(has_key(items, items[i].0));
    }
}

} // verus!
