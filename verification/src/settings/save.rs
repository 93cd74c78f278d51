//! Writing the form back into the configuration document.

use crate::settings::document::{
    array_value, hcl_error_text, map_contains_key, map_get, map_get_mut, map_insert,
    map_shift_remove, new_map, number_value, object_value, parse_hcl, print_hcl, text_value, Tree,
};
use crate::settings::form::{
    atleast_str, color_space_str, format_str, log_level_str, renderer_str, scope_str, sorting_str,
    top_range_str, SettingsForm, WallhavenForm,
};
use crate::settings::{
    document, ensure_object, form, set_object_bool, set_object_number, set_object_string, Fault,
    SettingsError,
};
use crate::text::{join, same_text};
use vstd::prelude::*;

verus! {

/// `items` with a string under `key`, or without the key where the string is empty.
pub open spec fn put_text(
    items: Seq<(Seq<char>, Tree)>,
    key: Seq<char>,
    text: Seq<char>,
) -> Seq<(Seq<char>, Tree)> {
    if text.len() == 0 {
        document::without(items, key)
    } else {
        document::put(items, key, Tree::Text(text))
    }
}

/// The chosen ones of three names, in their order.
pub open spec fn chosen(
    first: bool,
    first_name: Seq<char>,
    second: bool,
    second_name: Seq<char>,
    third: bool,
    third_name: Seq<char>,
) -> Seq<Seq<char>> {
    let none = Seq::<Seq<char>>::empty();
    let one = if first {
        none.push(first_name)
    } else {
        none
    };
    let two = if second {
        one.push(second_name)
    } else {
        one
    };
    if third {
        two.push(third_name)
    } else {
        two
    }
}

pub open spec fn chosen_categories(form: WallhavenForm) -> Seq<Seq<char>> {
    chosen(
        form.cat_general,
        "general"@,
        form.cat_people,
        "people"@,
        form.cat_anime,
        "anime"@,
    )
}

pub open spec fn chosen_purities(form: WallhavenForm) -> Seq<Seq<char>> {
    chosen(
        form.purity_sfw,
        "sfw"@,
        form.purity_sketchy,
        "sketchy"@,
        form.purity_nsfw,
        "nsfw"@,
    )
}

pub open spec fn clamped_items(max_items: i32) -> int {
    if max_items < 1 {
        1
    } else if max_items > 1000 {
        1000
    } else {
        max_items as int
    }
}

/// The text stored under `topRange`: only the top list has a range.
pub open spec fn stored_top_range(form: WallhavenForm) -> Seq<char> {
    if form::sorting_name(form.sorting_index) == "toplist"@ {
        form::top_range_name(form.top_range_index)
    } else {
        Seq::empty()
    }
}

/// A Wallhaven source entry after the form was written to it. Keys that the form does not know
/// stay as they are.
pub open spec fn wallhaven_entry(items: Seq<(Seq<char>, Tree)>, form: WallhavenForm) -> Seq<
    (Seq<char>, Tree),
> {
    let typed = document::put(items, "type"@, Tree::Text("wallhaven"@));
    let queried = put_text(typed, "query"@, crate::text::trimmed(form.query@));
    let categorised = put_text(
        queried,
        "categories"@,
        crate::text::joined(chosen_categories(form), ","@),
    );
    let purified = put_text(
        categorised,
        "purity"@,
        crate::text::joined(chosen_purities(form), ","@),
    );
    let sorted = document::put(
        purified,
        "sorting"@,
        Tree::Text(form::sorting_name(form.sorting_index)),
    );
    let ranged = put_text(sorted, "topRange"@, stored_top_range(form));
    let sized = put_text(ranged, "atleast"@, form::atleast_name(form.atleast_index));
    let counted = document::put(
        sized,
        "maxItems"@,
        Tree::Int(clamped_items(form.max_items)),
    );
    put_text(counted, "apiKey"@, crate::text::trimmed(form.api_key@))
}

/// Whether a source entry is a Wallhaven one.
pub open spec fn is_wallhaven(entry: Tree) -> bool {
    match entry {
        Tree::Object(items) => document::lookup(items, "type"@) == Some(Tree::Text("wallhaven"@)),
        _ => false,
    }
}

/// The sources that are not Wallhaven ones, in their order.
pub open spec fn other_sources(sources: Seq<Tree>) -> Seq<Tree> {
    sources.filter(|entry: Tree| !is_wallhaven(entry))
}

/// The position of the first Wallhaven source, or the number of sources where there is none.
pub open spec fn first_wallhaven(sources: Seq<Tree>) -> int
    decreases sources.len(),
{
    if sources.len() == 0 || is_wallhaven(sources[0]) {
        0
    } else {
        1 + first_wallhaven(sources.skip(1))
    }
}

/// The source list after the form was written to it: the first Wallhaven source is updated where
/// it stands, or appended, and there is no further one; or there is none at all.
pub open spec fn synced_sources(sources: Seq<Tree>, form: WallhavenForm) -> Seq<Tree> {
    let at = first_wallhaven(sources);
    if !form.enabled {
        other_sources(sources)
    } else if at < sources.len() {
        sources.take(at).push(Tree::Object(wallhaven_entry(sources[at]->Object_0, form)))
            + other_sources(sources.skip(at + 1))
    } else {
        sources.push(
            Tree::Object(wallhaven_entry(Seq::<(Seq<char>, Tree)>::empty(), form)),
        )
    }
}

/// The `image` object after the Wallhaven part of the form was written to it.
pub open spec fn synced_image(image: Seq<(Seq<char>, Tree)>, form: WallhavenForm) -> Result<
    Seq<(Seq<char>, Tree)>,
    Fault,
> {
    match document::lookup(image, "sources"@) {
        None => if form.enabled {
            Ok(
                document::put(
                    image,
                    "sources"@,
                    Tree::Array(synced_sources(Seq::<Tree>::empty(), form)),
                ),
            )
        } else {
            Ok(image)
        },
        Some(Tree::Array(sources)) => Ok(
            document::put(image, "sources"@, Tree::Array(synced_sources(sources, form))),
        ),
        Some(_) => Err(Fault::SourcesNotArray),
    }
}

/// The document after the Wallhaven part of the form was written to it.
pub open spec fn with_wallhaven(tree: Tree, form: WallhavenForm) -> Result<Tree, Fault> {
    match crate::settings::section(tree, "image"@) {
        Ok(image) => match synced_image(image, form) {
            Ok(items) => Ok(crate::settings::with_section(tree, "image"@, items)),
            Err(fault) => Err(fault),
        },
        Err(fault) => Err(fault),
    }
}

fn is_wallhaven_source(entry: &hcl::Value) -> (r: bool)
    ensures
        r == is_wallhaven(document::value_tree(*entry)),
{
    match entry.as_object() {
        None => false,
        Some(map) => match map_get(map, "type") {
            None => false,
            Some(kind) => match kind.as_str() {
                None => false,
                Some(text) => same_text(text, "wallhaven"),
            },
        },
    }
}

/// Drops the Wallhaven entries of a source list from position `from` on.
fn drop_wallhaven_sources(sources: &mut Vec<hcl::Value>, from: usize)
    requires
        from <= old(sources)@.len(),
    ensures
        document::trees(final(sources)@) == document::trees(old(sources)@).take(from as int)
            + other_sources(document::trees(old(sources)@).skip(from as int)),
{
    let ghost before = document::trees(sources@).take(from as int);
    let ghost all = document::trees(sources@).skip(from as int);
    let ghost keep = |entry: Tree| !is_wallhaven(entry);
    let mut i: usize = from;
    let ghost mut seen: int = 0;
    proof {
        reveal(Seq::filter);
        assert(all.take(0).filter(keep) =~= Seq::<Tree>::empty());
        assert(document::trees(sources@).take(from as int) =~= before + Seq::<Tree>::empty());
        assert(all.skip(0) =~= all);
    }
    while i < sources.len()
        invariant
            keep == (|entry: Tree| !is_wallhaven(entry)),
            0 <= seen <= all.len(),
            i <= sources@.len(),
            document::trees(sources@).take(i as int) == before + all.take(seen).filter(keep),
            document::trees(sources@).skip(i as int) == all.skip(seen),
        decreases sources@.len() - i,
    {
        let ghost now = document::trees(sources@);
        let drop = is_wallhaven_source(&sources[i]);
        proof {
            reveal(Seq::filter);
            assert(now.skip(i as int)[0] == now[i as int]);
            assert(all.skip(seen).len() == now.len() - i);
            assert(all.skip(seen)[0] == all[seen]);
            assert(all.take(seen + 1).drop_last() =~= all.take(seen));
            assert(all.take(seen + 1).last() == all[seen]);
        }
        if drop {
            let _ = sources.remove(i);
            proof {
                let then = document::trees(sources@);
                assert(then =~= now.remove(i as int));
                assert(then.take(i as int) =~= now.take(i as int));
                assert(then.skip(i as int) =~= now.skip(i as int).skip(1));
                assert(all.skip(seen + 1) =~= all.skip(seen).skip(1));
            }
        } else {
            proof {
                assert(now.take(i + 1) =~= now.take(i as int).push(now[i as int]));
                assert(before + all.take(seen).filter(keep).push(all[seen]) =~= (before
                    + all.take(seen).filter(keep)).push(all[seen]));
                assert(now.skip(i + 1) =~= now.skip(i as int).skip(1));
                assert(all.skip(seen + 1) =~= all.skip(seen).skip(1));
            }
            i += 1;
        }
        proof {
            seen = seen + 1;
        }
    }
    proof {
        let now = document::trees(sources@);
        assert(now.take(i as int) =~= now);
        assert(all.skip(seen).len() == now.skip(i as int).len());
        assert(all.take(seen) =~= all);
    }
}

proof fn lemma_first_wallhaven(sources: Seq<Tree>, at: int)
    requires
        0 <= at <= sources.len(),
        at < sources.len() ==> is_wallhaven(sources[at]),
        forall|i: int| 0 <= i < at ==> !is_wallhaven(#[trigger] sources[i]),
    ensures
        first_wallhaven(sources) == at,
    decreases at,
{
    if at > 0 {
        assert(!is_wallhaven(sources[0]));
        let rest = sources.skip(1);
        assert forall|i: int| 0 <= i < at - 1 implies !is_wallhaven(#[trigger] rest[i]) by {
            assert(rest[i] == sources[i + 1]);
        }
        lemma_first_wallhaven(rest, at - 1);
    }
}

fn find_wallhaven_source(sources: &Vec<hcl::Value>) -> (r: usize)
    ensures
        r == first_wallhaven(document::trees(sources@)),
        r <= sources@.len(),
        r < sources@.len() ==> is_wallhaven(document::value_tree(sources@[r as int])),
{
    let mut i: usize = 0;
    while i < sources.len()
        invariant
            i <= sources@.len(),
            forall|k: int|
                0 <= k < i ==> !is_wallhaven(#[trigger] document::trees(sources@)[k]),
        decreases sources@.len() - i,
    {
        if is_wallhaven_source(&sources[i]) {
            proof {
                lemma_first_wallhaven(document::trees(sources@), i as int);
            }
            return i;
        }
        i += 1;
    }
    proof {
        lemma_first_wallhaven(document::trees(sources@), i as int);
    }
    i
}

fn chosen_names(
    first: bool,
    first_name: &str,
    second: bool,
    second_name: &str,
    third: bool,
    third_name: &str,
) -> (r: Vec<String>)
    ensures
        crate::text::texts(r@) == chosen(
            first,
            first_name@,
            second,
            second_name@,
            third,
            third_name@,
        ),
{
    let mut r: Vec<String> = Vec::new();
    if first {
        r.push(first_name.to_owned());
    }
    if second {
        r.push(second_name.to_owned());
    }
    if third {
        r.push(third_name.to_owned());
    }
    assert(crate::text::texts(r@) =~= chosen(
        first,
        first_name@,
        second,
        second_name@,
        third,
        third_name@,
    ));
    r
}

fn insert_text(map: &mut hcl::Map<String, hcl::Value>, key: &str, text: &str)
    ensures
        document::map_items(*final(map)) == put_text(
            document::map_items(*old(map)),
            key@,
            text@,
        ),
{
    if text.is_empty() {
        map_shift_remove(map, key);
    } else {
        map_insert(map, key.to_owned(), text_value(text));
    }
}

fn update_wallhaven_entry(entry: &mut hcl::Map<String, hcl::Value>, form: &WallhavenForm)
    ensures
        document::map_items(*final(entry)) == wallhaven_entry(
            document::map_items(*old(entry)),
            *form,
        ),
{
    map_insert(entry, "type".to_owned(), text_value("wallhaven"));
    insert_text(entry, "query", form.query.as_str().trim());
    let categories = chosen_names(
        form.cat_general,
        "general",
        form.cat_people,
        "people",
        form.cat_anime,
        "anime",
    );
    insert_text(entry, "categories", join(&categories, ",").as_str());
    let purity = chosen_names(
        form.purity_sfw,
        "sfw",
        form.purity_sketchy,
        "sketchy",
        form.purity_nsfw,
        "nsfw",
    );
    insert_text(entry, "purity", join(&purity, ",").as_str());
    let sorting = sorting_str(form.sorting_index);
    map_insert(entry, "sorting".to_owned(), text_value(sorting));
    if same_text(sorting, "toplist") {
        insert_text(entry, "topRange", top_range_str(form.top_range_index));
    } else {
        map_shift_remove(entry, "topRange");
    }
    insert_text(entry, "atleast", atleast_str(form.atleast_index));
    let max_items: i64 = if form.max_items < 1 {
        1
    } else if form.max_items > 1000 {
        1000
    } else {
        form.max_items as i64
    };
    map_insert(entry, "maxItems".to_owned(), number_value(max_items));
    insert_text(entry, "apiKey", form.api_key.as_str().trim());
}

/// Writes the Wallhaven part of the form to a source list.
fn sync_sources(sources: &mut Vec<hcl::Value>, form: &WallhavenForm)
    ensures
        document::trees(final(sources)@) == synced_sources(
            document::trees(old(sources)@),
            *form,
        ),
{
    let ghost all = document::trees(sources@);
    if !form.enabled {
        drop_wallhaven_sources(sources, 0);
        proof {
            assert(all.skip(0) =~= all);
            assert(all.take(0) + other_sources(all) =~= other_sources(all));
        }
        return;
    }
    let at = find_wallhaven_source(sources);
    if at < sources.len() {
        drop_wallhaven_sources(sources, at + 1);
        let ghost kept = document::trees(sources@);
        proof {
            assert(kept.len() == sources@.len());
            assert(kept[at as int] == all[at as int]);
        }
        if let Some(entry) = sources[at].as_object_mut() {
            update_wallhaven_entry(entry, form);
        }
        assert(document::trees(sources@) =~= kept.update(
            at as int,
            Tree::Object(wallhaven_entry(all[at as int]->Object_0, *form)),
        ));
        assert(document::trees(sources@) =~= synced_sources(all, *form));
    } else {
        let mut entry = new_map();
        update_wallhaven_entry(&mut entry, form);
        sources.push(object_value(entry));
        assert(document::trees(sources@) =~= synced_sources(all, *form));
    }
}

/// Synchronises the Wallhaven source entry inside `image.sources`.
///
/// When the form enables it, an existing `type = "wallhaven"` entry is updated (or appended);
/// when disabled, any Wallhaven entry is removed. Other source entries are left untouched.
pub fn save_wallhaven_to_root(root: &mut hcl::Value, form: &WallhavenForm) -> (r: Result<
    (),
    SettingsError,
>)
    ensures
        crate::settings::carried_out(
            document::value_tree(*old(root)),
            with_wallhaven(document::value_tree(*old(root)), *form),
            document::value_tree(*final(root)),
            r,
        ),
{
    let ghost tree = document::value_tree(*root);
    let image = match ensure_object(root, "image") {
        Ok(image) => image,
        Err(error) => {
            return Err(error);
        },
    };
    let ghost items = document::map_items(*image);
    let had_sources = map_contains_key(image, "sources");
    if !had_sources && !form.enabled {
        return Ok(());
    }
    if !had_sources {
        map_insert(image, "sources".to_owned(), array_value(Vec::new()));
    }
    proof {
        reveal_strlit("image");
        document::lemma_put_same(tree->Object_0, "image"@);
        let empty = Tree::Array(Seq::<Tree>::empty());
        assert(document::trees(Seq::<hcl::Value>::empty()) =~= Seq::<Tree>::empty());
        document::law_put_then_lookup(items, "sources"@, empty, "sources"@);
        document::lemma_position(items, "sources"@);
        document::lemma_put_same(items, "sources"@);
        assert forall|value: Tree|
            #[trigger] document::put(
                document::put(items, "sources"@, empty),
                "sources"@,
                value,
            ) == document::put(items, "sources"@, value) by {
            document::lemma_put_twice(items, "sources"@, empty, value);
        }
    }
    let sources = match map_get_mut(image, "sources") {
        None => {
            return Err(SettingsError::SourcesNotArray);
        },
        Some(value) => match value.as_array_mut() {
            None => {
                return Err(SettingsError::SourcesNotArray);
            },
            Some(sources) => sources,
        },
    };
    sync_sources(sources, form);
    Ok(())
}

/// One value to store: the object that holds it (empty for the document itself), its key, itself.
pub struct Edit {
    pub object: Seq<char>,
    pub key: Seq<char>,
    pub value: Tree,
}

pub open spec fn text_edit(object: Seq<char>, key: Seq<char>, text: Seq<char>) -> Edit {
    Edit { object, key, value: Tree::Text(text) }
}

pub open spec fn number_edit(object: Seq<char>, key: Seq<char>, number: i32) -> Edit {
    Edit { object, key, value: Tree::Int(number as int) }
}

pub open spec fn flag_edit(object: Seq<char>, key: Seq<char>, flag: bool) -> Edit {
    Edit { object, key, value: Tree::Bool(flag) }
}

/// Every value that the form stores under a fixed key, in the order of storing.
pub open spec fn form_edits(form: SettingsForm) -> Seq<Edit> {
    seq![
        text_edit(""@, "renderer"@, form::renderer_name(form.renderer_index)),
        number_edit("image"@, "timer"@, form.image_timer_secs),
        number_edit("image"@, "remoteUpdateTimer"@, form.remote_update_secs),
        text_edit("image"@, "format"@, form::format_name(form.format_index)),
        number_edit("image"@, "jpeg_quality"@, form.jpeg_quality),
        text_edit("shader"@, "name"@, form.shader_name@),
        number_edit("shader"@, "target_fps"@, form.shader_fps),
        number_edit("shader"@, "resolution"@, form.shader_resolution),
        flag_edit("shader"@, "mouse_enabled"@, form.shader_mouse_enabled),
        text_edit("shader"@, "desktop_scope"@, form::scope_name(form.shader_scope_index)),
        text_edit(
            "shader"@,
            "color_space"@,
            form::color_space_name(form.shader_color_space_index),
        ),
        flag_edit("updater"@, "enabled"@, form.updater_enabled),
        number_edit("updater"@, "checkInterval"@, form.updater_interval_secs),
        text_edit("updater"@, "feedUrl"@, form.feed_url@),
        text_edit(""@, "log_level"@, form::log_level_name(form.log_level_index)),
    ]
}

/// `tree` after all `edits`, or the first fault among them.
pub open spec fn with_edits(tree: Tree, edits: Seq<Edit>) -> Result<Tree, Fault>
    decreases edits.len(),
{
    if edits.len() == 0 {
        Ok(tree)
    } else {
        match with_edits(tree, edits.drop_last()) {
            Ok(before) => crate::settings::with_key(
                before,
                edits.last().object,
                edits.last().key,
                edits.last().value,
            ),
            Err(fault) => Err(fault),
        }
    }
}

/// The document with the proxy of the form: an empty one removes the key, so that the
/// environment variables stay in charge instead of an empty override.
pub open spec fn with_proxy(tree: Tree, proxy_url: Seq<char>) -> Result<Tree, Fault> {
    let proxy = crate::text::trimmed(proxy_url);
    match tree {
        Tree::Object(items) => Ok(
            Tree::Object(
                if proxy.len() == 0 {
                    document::without(items, "proxy"@)
                } else {
                    document::put(items, "proxy"@, Tree::Text(proxy))
                },
            ),
        ),
        _ => Err(Fault::RootNotObject),
    }
}

/// The document after the whole form was written to it.
pub open spec fn saved_tree(tree: Tree, form: SettingsForm) -> Result<Tree, Fault> {
    match with_edits(tree, form_edits(form)) {
        Ok(edited) => match with_proxy(edited, form.proxy_url@) {
            Ok(proxied) => with_wallhaven(proxied, form.wallhaven),
            Err(fault) => Err(fault),
        },
        Err(fault) => Err(fault),
    }
}

/// The configuration text after the form was written to it.
pub open spec fn saved_text(text: Seq<char>, form: SettingsForm) -> Result<Seq<char>, Fault> {
    match document::parsed_hcl(text) {
        Ok(tree) => match saved_tree(tree, form) {
            Ok(saved) => match document::printed_hcl(saved) {
                Ok(printed) => Ok(printed),
                Err(reason) => Err(Fault::Unprintable(reason)),
            },
            Err(fault) => Err(fault),
        },
        Err(reason) => Err(Fault::Unparsable(reason)),
    }
}

/// Whether a saved text reads back as the document that was saved, wherever that document can be
/// read back at all.
pub open spec fn reads_back(text: Seq<char>, form: SettingsForm, saved: Seq<char>) -> bool {
    document::parsed_hcl(text) matches Ok(tree) ==> saved_tree(tree, form) matches Ok(after)
        ==> document::readable(after) ==> document::parsed_hcl(saved) == Ok::<Tree, Seq<char>>(
        after,
    )
}

/// One more edit after the first `done` ones.
pub(crate) proof fn lemma_next_edit(tree: Tree, edits: Seq<Edit>, done: int)
    requires
        0 <= done < edits.len(),
    ensures
        with_edits(tree, edits.take(done + 1)) == match with_edits(tree, edits.take(done)) {
            Ok(before) => crate::settings::with_key(
                before,
                edits[done].object,
                edits[done].key,
                edits[done].value,
            ),
            Err(fault) => Err(fault),
        },
{
    assert(edits.take(done + 1).drop_last() =~= edits.take(done));
}

/// A fault among the first edits is the fault of all of them.
pub(crate) proof fn lemma_fault_stays(tree: Tree, edits: Seq<Edit>, done: int)
    requires
        0 <= done <= edits.len(),
        with_edits(tree, edits.take(done)) is Err,
    ensures
        with_edits(tree, edits) == with_edits(tree, edits.take(done)),
    decreases edits.len() - done,
{
    if done < edits.len() {
        lemma_next_edit(tree, edits, done);
        lemma_fault_stays(tree, edits, done + 1);
    } else {
        assert(edits.take(done) =~= edits);
    }
}

/// Stores every value of the form that has a fixed key.
fn store_fixed_keys(root: &mut hcl::Value, form: &SettingsForm) -> (r: Result<(), SettingsError>)
    ensures
        match with_edits(document::value_tree(*old(root)), form_edits(*form)) {
            Ok(tree) => r is Ok && document::value_tree(*final(root)) == tree,
            Err(fault) => r is Err && r->Err_0@ == fault,
        },
{
    let ghost tree = document::value_tree(*root);
    let ghost edits = form_edits(*form);
    proof {
        assert(edits.take(0) =~= Seq::<Edit>::empty());
        assert(edits.take(15) =~= edits);
        lemma_next_edit(tree, edits, 0);
        lemma_next_edit(tree, edits, 1);
        lemma_next_edit(tree, edits, 2);
        lemma_next_edit(tree, edits, 3);
        lemma_next_edit(tree, edits, 4);
        lemma_next_edit(tree, edits, 5);
        lemma_next_edit(tree, edits, 6);
        lemma_next_edit(tree, edits, 7);
        lemma_next_edit(tree, edits, 8);
        lemma_next_edit(tree, edits, 9);
        lemma_next_edit(tree, edits, 10);
        lemma_next_edit(tree, edits, 11);
        lemma_next_edit(tree, edits, 12);
        lemma_next_edit(tree, edits, 13);
        lemma_next_edit(tree, edits, 14);
        assert forall|done: int|
            0 <= done <= 15 && with_edits(tree, #[trigger] edits.take(done)) is Err
                implies with_edits(tree, edits) == with_edits(tree, edits.take(done)) by {
            lemma_fault_stays(tree, edits, done);
        }
    }
    set_object_string(root, "", "renderer", renderer_str(form.renderer_index))?;
    set_object_number(root, "image", "timer", form.image_timer_secs as i64)?;
    set_object_number(root, "image", "remoteUpdateTimer", form.remote_update_secs as i64)?;
    set_object_string(root, "image", "format", format_str(form.format_index))?;
    set_object_number(root, "image", "jpeg_quality", form.jpeg_quality as i64)?;
    set_object_string(root, "shader", "name", form.shader_name.as_str())?;
    set_object_number(root, "shader", "target_fps", form.shader_fps as i64)?;
    set_object_number(root, "shader", "resolution", form.shader_resolution as i64)?;
    set_object_bool(root, "shader", "mouse_enabled", form.shader_mouse_enabled)?;
    set_object_string(root, "shader", "desktop_scope", scope_str(form.shader_scope_index))?;
    set_object_string(
        root,
        "shader",
        "color_space",
        color_space_str(form.shader_color_space_index),
    )?;
    set_object_bool(root, "updater", "enabled", form.updater_enabled)?;
    set_object_number(root, "updater", "checkInterval", form.updater_interval_secs as i64)?;
    set_object_string(root, "updater", "feedUrl", form.feed_url.as_str())?;
    set_object_string(root, "", "log_level", log_level_str(form.log_level_index))
}

/// A document with the whole form written to it.
pub fn apply_form(root: hcl::Value, form: &SettingsForm) -> (r: Result<hcl::Value, SettingsError>)
    ensures
        match saved_tree(document::value_tree(root), *form) {
            Ok(tree) => r is Ok && document::value_tree(r->Ok_0) == tree,
            Err(fault) => r is Err && r->Err_0@ == fault,
        },
{
    let mut root = root;
    store_fixed_keys(&mut root, form)?;
    let proxy = form.proxy_url.as_str().trim();
    proof {
        reveal_strlit("");
    }
    match ensure_object(&mut root, "") {
        Ok(root_map) => {
            if proxy.is_empty() {
                map_shift_remove(root_map, "proxy");
            } else {
                map_insert(root_map, "proxy".to_owned(), text_value(proxy));
            }
        },
        Err(error) => {
            return Err(error);
        },
    }
    save_wallhaven_to_root(&mut root, &form.wallhaven)?;
    Ok(root)
}

/// The configuration text with the form written to it; whatever the form does not know stays.
pub fn save_config_from_ui(form: &SettingsForm, text: &str) -> (r: Result<String, SettingsError>)
    ensures
        match saved_text(text@, *form) {
            Ok(saved) => r is Ok && r->Ok_0@ == saved,
            Err(fault) => r is Err && r->Err_0@ == fault,
        },
        r matches Ok(saved) ==> reads_back(text@, *form, saved@),
        r is Ok <==> document::parsed_hcl(text@) is Ok && crate::settings::laws::writable(
            document::parsed_hcl(text@)->Ok_0,
        ),
{
    let parsed = match parse_hcl(text) {
        Ok(parsed) => parsed,
        Err(error) => {
            return Err(SettingsError::Unparsable { reason: hcl_error_text(&error) });
        },
    };
    let ghost tree = document::value_tree(parsed);
    proof {
        crate::settings::laws::law_saving_succeeds_on_writable_documents(tree, *form);
        if saved_tree(tree, *form) is Ok {
            document::lemma_printed_is_printable(tree->Object_0);
            crate::settings::laws::lemma_saved_is_printable(tree, *form);
        }
    }
    let root = apply_form(parsed, form)?;
    match print_hcl(&root) {
        Ok(saved) => Ok(saved),
        Err(error) => Err(SettingsError::Unprintable { reason: hcl_error_text(&error) }),
    }
}

} // verus!
