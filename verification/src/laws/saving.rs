//! What saving the settings leaves in the configuration document.

use crate::settings::document::{lookup, parsed_hcl, printed_hcl, Tree};
use crate::settings::form::{
    atleast_name, color_space_name, format_name, log_level_name, renderer_name, scope_name,
    sorting_name, top_range_name, SettingsForm, WallhavenForm,
};
use crate::settings::laws::{
    kept_place, lemma_edits_keep, lemma_edits_succeed, lemma_first_wallhaven, lemma_names,
    lemma_other_sources, lemma_other_sources_of_sum, lemma_proxy, lemma_section_kept,
    lemma_wallhaven, lemma_with_key, lemma_with_section, value_at,
};
use crate::settings::save::{
    form_edits, is_wallhaven, other_sources, saved_text, saved_tree, synced_sources,
    with_edits, with_proxy, with_wallhaven, wallhaven_entry, Edit,
};
use crate::settings::{carried_out, section, with_key, with_section, Fault, SettingsError};
use crate::text::trimmed;
use vstd::prelude::*;

verus! {

/// What a document holds under a key: its own one, where no object is named, or one of the object
/// under a key of it.
pub open spec fn held(tree: Tree, object: Seq<char>, key: Seq<char>) -> Option<Tree> {
    match tree {
        Tree::Object(items) => if object.len() == 0 {
            lookup(items, key)
        } else {
            match lookup(items, object) {
                Some(Tree::Object(inner)) => lookup(inner, key),
                _ => None,
            }
        },
        _ => None,
    }
}

proof fn lemma_held(tree: Tree, object: Seq<char>, key: Seq<char>)
    ensures
        value_at(tree, object, key) == held(tree, object, key),
{
}

/// A saved document holds every value of the form under the key of its own, choices by their
/// keyword. The proxy is trimmed, and an empty one is not there.
pub proof fn law_saved_document_holds_the_form(tree: Tree, form: SettingsForm, after: Tree)
    requires
        saved_tree(tree, form) == Ok::<Tree, Fault>(after),
    ensures
        held(after, ""@, "renderer"@) == Some(Tree::Text(renderer_name(form.renderer_index))),
        held(after, "image"@, "timer"@) == Some(Tree::Int(form.image_timer_secs as int)),
        held(after, "image"@, "remoteUpdateTimer"@) == Some(
            Tree::Int(form.remote_update_secs as int),
        ),
        held(after, "image"@, "format"@) == Some(Tree::Text(format_name(form.format_index))),
        held(after, "image"@, "jpeg_quality"@) == Some(Tree::Int(form.jpeg_quality as int)),
        held(after, "shader"@, "name"@) == Some(Tree::Text(form.shader_name@)),
        held(after, "shader"@, "target_fps"@) == Some(Tree::Int(form.shader_fps as int)),
        held(after, "shader"@, "resolution"@) == Some(Tree::Int(form.shader_resolution as int)),
        held(after, "shader"@, "mouse_enabled"@) == Some(Tree::Bool(form.shader_mouse_enabled)),
        held(after, "shader"@, "desktop_scope"@) == Some(
            Tree::Text(scope_name(form.shader_scope_index)),
        ),
        held(after, "shader"@, "color_space"@) == Some(
            Tree::Text(color_space_name(form.shader_color_space_index)),
        ),
        held(after, "updater"@, "enabled"@) == Some(Tree::Bool(form.updater_enabled)),
        held(after, "updater"@, "checkInterval"@) == Some(
            Tree::Int(form.updater_interval_secs as int),
        ),
        held(after, "updater"@, "feedUrl"@) == Some(Tree::Text(form.feed_url@)),
        held(after, ""@, "log_level"@) == Some(Tree::Text(log_level_name(form.log_level_index))),
        trimmed(form.proxy_url@).len() > 0 ==> held(after, ""@, "proxy"@) == Some(
            Tree::Text(trimmed(form.proxy_url@)),
        ),
        trimmed(form.proxy_url@).len() == 0 ==> held(after, ""@, "proxy"@) is None,
{
    lemma_names();
    assert forall|at: int| 0 <= at < 15 implies held(
        after,
        (#[trigger] form_edits(form)[at]).object,
        form_edits(form)[at].key,
    ) == Some(form_edits(form)[at].value) by {
        crate::settings::laws::law_form_values_are_stored(tree, form, after, at);
    }
    assert(form_edits(form)[0].key == "renderer"@);
    assert(form_edits(form)[1].key == "timer"@);
    assert(form_edits(form)[2].key == "remoteUpdateTimer"@);
    assert(form_edits(form)[3].key == "format"@);
    assert(form_edits(form)[4].key == "jpeg_quality"@);
    assert(form_edits(form)[5].key == "name"@);
    assert(form_edits(form)[6].key == "target_fps"@);
    assert(form_edits(form)[7].key == "resolution"@);
    assert(form_edits(form)[8].key == "mouse_enabled"@);
    assert(form_edits(form)[9].key == "desktop_scope"@);
    assert(form_edits(form)[10].key == "color_space"@);
    assert(form_edits(form)[11].key == "enabled"@);
    assert(form_edits(form)[12].key == "checkInterval"@);
    assert(form_edits(form)[13].key == "feedUrl"@);
    assert(form_edits(form)[14].key == "log_level"@);
    crate::settings::laws::law_empty_proxy_removes_the_key(tree, form, after);
    assert(Seq::<char>::empty() =~= ""@);
}

/// Saving leaves alone every key that the form does not know, in the document and in its objects.
pub proof fn law_saved_document_keeps_the_rest(
    tree: Tree,
    form: SettingsForm,
    after: Tree,
    object: Seq<char>,
    key: Seq<char>,
)
    requires
        saved_tree(tree, form) == Ok::<Tree, Fault>(after),
        kept_place(object, key),
    ensures
        held(after, object, key) == held(tree, object, key),
{
    crate::settings::laws::law_unknown_keys_survive(tree, form, after, object, key);
}

/// Whether a key of a document holds something other than an object.
pub open spec fn misused(tree: Tree, key: Seq<char>) -> bool {
    lookup(tree->Object_0, key) is Some && !(lookup(tree->Object_0, key)->0 is Object)
}

/// Saving fails on what is no object, on `image`, `shader` and `updater` that are none, in this
/// order, and on sources that are no array, and says which it was; it fails for no other reason.
pub proof fn law_saving_says_what_is_in_the_way(tree: Tree, form: SettingsForm)
    ensures
        !(tree is Object) ==> saved_tree(tree, form) == Err::<Tree, Fault>(Fault::RootNotObject),
        tree is Object && misused(tree, "image"@) ==> saved_tree(tree, form) == Err::<Tree, Fault>(
            Fault::NotAnObject("image"@),
        ),
        tree is Object && !misused(tree, "image"@) && misused(tree, "shader"@) ==> saved_tree(
            tree,
            form,
        ) == Err::<Tree, Fault>(Fault::NotAnObject("shader"@)),
        tree is Object && !misused(tree, "image"@) && !misused(tree, "shader"@) && misused(
            tree,
            "updater"@,
        ) ==> saved_tree(tree, form) == Err::<Tree, Fault>(Fault::NotAnObject("updater"@)),
        tree is Object && !misused(tree, "image"@) && !misused(tree, "shader"@) && !misused(
            tree,
            "updater"@,
        ) ==> match held(tree, "image"@, "sources"@) {
            None => saved_tree(tree, form) is Ok,
            Some(Tree::Array(_)) => saved_tree(tree, form) is Ok,
            Some(_) => saved_tree(tree, form) == Err::<Tree, Fault>(Fault::SourcesNotArray),
        },
{
    lemma_names();
    let edits = form_edits(form);
    crate::settings::laws::law_saving_succeeds_on_writable_documents(tree, form);
    lemma_held(tree, "image"@, "sources"@);
    if !(tree is Object) {
        lemma_first_fault(tree, edits, 0);
    } else if misused(tree, "image"@) {
        lemma_first_fault(tree, edits, 1);
    } else if misused(tree, "shader"@) {
        lemma_first_fault(tree, edits, 5);
    } else if misused(tree, "updater"@) {
        lemma_first_fault(tree, edits, 11);
    } else {
        assert forall|i: int| 0 <= i < edits.len() && edits[i].object.len() > 0 implies section(
            tree,
            (#[trigger] edits[i]).object,
        ) is Ok by {}
        lemma_edits_succeed(tree, edits);
        let edited = with_edits(tree, edits)->Ok_0;
        lemma_section_kept(tree, edits, edited, "image"@);
        lemma_edits_keep(tree, edits, edited, "image"@, "sources"@);
        let proxied = with_proxy(edited, form.proxy_url@)->Ok_0;
        lemma_proxy(edited, form.proxy_url@, proxied, "image"@, "sources"@);
        lemma_held(proxied, "image"@, "sources"@);
    }
}

proof fn lemma_first_fault(tree: Tree, edits: Seq<Edit>, at: int)
    requires
        0 <= at < edits.len(),
        section(tree, edits[at].object) is Err,
        edits[at].object.len() == 0 ==> at == 0,
        at > 0 ==> tree is Object,
        forall|i: int|
            0 <= i < at && edits[i].object.len() > 0 ==> section(
                tree,
                (#[trigger] edits[i]).object,
            ) is Ok,
        forall|i: int, j: int|
            0 <= i < edits.len() && 0 <= j < edits.len() && edits[i].object.len() == 0
                && edits[j].object.len() > 0 ==> (#[trigger] edits[i]).key
                != (#[trigger] edits[j]).object,
    ensures
        with_edits(tree, edits) == Err::<Tree, Fault>(section(tree, edits[at].object)->Err_0),
{
    let first = edits.take(at);
    assert forall|i: int| 0 <= i < first.len() implies first[i] == edits[i] by {}
    if at > 0 {
        lemma_edits_succeed(tree, first);
        let before = with_edits(tree, first)->Ok_0;
        assert forall|i: int| 0 <= i < first.len() && first[i].object.len() == 0 implies (
        #[trigger] first[i]).key != edits[at].object by {
            assert(edits[i].key != edits[at].object);
        }
        lemma_section_kept(tree, first, before, edits[at].object);
    } else {
        assert(first =~= Seq::<Edit>::empty());
    }
    crate::settings::save::lemma_next_edit(tree, edits, at);
    crate::settings::save::lemma_fault_stays(tree, edits, at + 1);
}

/// The object under a key is what stands there, an empty one where nothing does, and the document
/// itself where no key is named; there is none where the document, or what stands there, is no
/// object. Replacing it replaces that one key.
pub proof fn law_objects_are_what_stands_under_their_key(
    items: Seq<(Seq<char>, Tree)>,
    key: Seq<char>,
    inner: Seq<(Seq<char>, Tree)>,
    other: Seq<char>,
)
    ensures
        section(Tree::Object(items), Seq::empty()) == Ok::<Seq<(Seq<char>, Tree)>, Fault>(items),
        key.len() > 0 && lookup(items, key) == Some(Tree::Object(inner)) ==> section(
            Tree::Object(items),
            key,
        ) == Ok::<Seq<(Seq<char>, Tree)>, Fault>(inner),
        key.len() > 0 && lookup(items, key) is None ==> section(Tree::Object(items), key) == Ok::<
            Seq<(Seq<char>, Tree)>,
            Fault,
        >(Seq::empty()),
        key.len() > 0 && lookup(items, key) is Some && !(lookup(items, key)->0 is Object)
            ==> section(Tree::Object(items), key) == Err::<Seq<(Seq<char>, Tree)>, Fault>(
            Fault::NotAnObject(key),
        ),
        with_section(Tree::Object(items), Seq::empty(), inner) == Tree::Object(inner),
        key.len() > 0 ==> held(with_section(Tree::Object(items), key, inner), key, other) == lookup(
            inner,
            other,
        ),
        key.len() > 0 && other != key ==> held(
            with_section(Tree::Object(items), key, inner),
            Seq::empty(),
            other,
        ) == lookup(items, other),
{
    crate::settings::document::law_put_then_lookup(items, key, Tree::Object(inner), key);
    crate::settings::document::law_put_then_lookup(items, key, Tree::Object(inner), other);
}

/// A document that is no object has no objects in it.
pub proof fn law_only_objects_have_objects(tree: Tree, key: Seq<char>)
    requires
        !(tree is Object),
    ensures
        section(tree, key) == Err::<Seq<(Seq<char>, Tree)>, Fault>(Fault::RootNotObject),
{
}

/// Storing one value puts it under its key and leaves every other one; it fails exactly where the
/// document, or what stands under the key of the object, is no object, and changes nothing then.
pub proof fn law_storing_a_value_changes_its_key_only(
    tree: Tree,
    object: Seq<char>,
    key: Seq<char>,
    value: Tree,
    after: Tree,
    r: Result<(), SettingsError>,
    other: Seq<char>,
)
    requires
        carried_out(tree, with_key(tree, object, key, value), after, r),
    ensures
        r is Err <==> !(tree is Object) || (object.len() > 0 && misused(tree, object)),
        r is Err ==> after == tree,
        !(tree is Object) ==> r->Err_0 is RootNotObject,
        tree is Object && r is Err ==> r->Err_0 is NotAnObject && r->Err_0->key@ == object,
        r is Ok ==> held(after, object, key) == Some(value),
        r is Ok && other != key ==> held(after, object, other) == held(tree, object, other),
        r is Ok && object.len() > 0 && other != object ==> held(after, ""@, other) == held(
            tree,
            ""@,
            other,
        ),
{
    reveal_strlit("");
    if r is Ok {
        let edit = Edit { object, key, value };
        lemma_with_key(tree, edit, after, object, other);
        lemma_with_key(tree, edit, after, ""@, other);
    }
}

/// Whether a source entry of a document is a Wallhaven one.
pub open spec fn typed_wallhaven(entry: Tree) -> bool {
    entry matches Tree::Object(items) && lookup(items, "type"@) == Some(Tree::Text("wallhaven"@))
}

/// What a key holds of a text: nothing where it is empty.
pub open spec fn text_or_nothing(text: Seq<char>) -> Option<Tree> {
    if text.len() > 0 {
        Some(Tree::Text(text))
    } else {
        None
    }
}

/// The ticked ones of three words with commas between them.
pub open spec fn ticked_words(
    a: bool,
    x: Seq<char>,
    b: bool,
    y: Seq<char>,
    c: bool,
    z: Seq<char>,
) -> Seq<char> {
    let none = Seq::<char>::empty();
    (if a { x } else { none }) + (if a && (b || c) { ","@ } else { none }) + (if b {
        y
    } else {
        none
    }) + (if b && c { ","@ } else { none }) + (if c { z } else { none })
}

/// Whether a Wallhaven entry holds the form: each value under the key of its own, trimmed and left
/// out where it is empty; the range only with the top list; between one and a thousand images. All
/// other keys are as they were in `old_items`.
pub open spec fn holds_form(
    items: Seq<(Seq<char>, Tree)>,
    old_items: Seq<(Seq<char>, Tree)>,
    form: WallhavenForm,
) -> bool {
    &&& lookup(items, "type"@) == Some(Tree::Text("wallhaven"@))
    &&& lookup(items, "query"@) == text_or_nothing(trimmed(form.query@))
    &&& lookup(items, "categories"@) == text_or_nothing(
        ticked_words(
            form.cat_general,
            "general"@,
            form.cat_people,
            "people"@,
            form.cat_anime,
            "anime"@,
        ),
    )
    &&& lookup(items, "purity"@) == text_or_nothing(
        ticked_words(
            form.purity_sfw,
            "sfw"@,
            form.purity_sketchy,
            "sketchy"@,
            form.purity_nsfw,
            "nsfw"@,
        ),
    )
    &&& lookup(items, "sorting"@) == Some(Tree::Text(sorting_name(form.sorting_index)))
    &&& form.sorting_index == 5 ==> lookup(items, "topRange"@) == Some(
        Tree::Text(top_range_name(form.top_range_index)),
    )
    &&& form.sorting_index != 5 ==> lookup(items, "topRange"@) is None
    &&& lookup(items, "atleast"@) == text_or_nothing(atleast_name(form.atleast_index))
    &&& form.max_items < 1 ==> lookup(items, "maxItems"@) == Some(Tree::Int(1))
    &&& 1 <= form.max_items <= 1000 ==> lookup(items, "maxItems"@) == Some(
        Tree::Int(form.max_items as int),
    )
    &&& form.max_items > 1000 ==> lookup(items, "maxItems"@) == Some(Tree::Int(1000))
    &&& lookup(items, "apiKey"@) == text_or_nothing(trimmed(form.api_key@))
    &&& forall|key: Seq<char>| #[trigger]
        other_key(key) ==> lookup(items, key) == lookup(old_items, key)
}

/// Whether a key of a source entry is none that the form writes.
pub open spec fn other_key(key: Seq<char>) -> bool {
    &&& key != "type"@ && key != "query"@ && key != "categories"@ && key != "purity"@
    &&& key != "sorting"@ && key != "topRange"@ && key != "atleast"@ && key != "maxItems"@
    &&& key != "apiKey"@
}

proof fn lemma_ticked_words(
    a: bool,
    x: Seq<char>,
    b: bool,
    y: Seq<char>,
    c: bool,
    z: Seq<char>,
)
    ensures
        crate::text::joined(crate::settings::save::chosen(a, x, b, y, c, z), ","@) == ticked_words(
            a,
            x,
            b,
            y,
            c,
            z,
        ),
{
    reveal_with_fuel(crate::text::joined, 4);
    let all = crate::settings::save::chosen(a, x, b, y, c, z);
    let none = Seq::<char>::empty();
    if a && b && c {
        assert(all =~= seq![x, y, z]);
        assert(all.drop_last() =~= seq![x, y]);
        assert(seq![x, y].drop_last() =~= seq![x]);
        assert(x + ","@ + y + ","@ + z =~= ticked_words(a, x, b, y, c, z));
    } else if a && b {
        assert(all =~= seq![x, y]);
        assert(seq![x, y].drop_last() =~= seq![x]);
        assert(x + ","@ + y =~= ticked_words(a, x, b, y, c, z));
    } else if a && c {
        assert(all =~= seq![x, z]);
        assert(seq![x, z].drop_last() =~= seq![x]);
        assert(x + ","@ + z =~= ticked_words(a, x, b, y, c, z));
    } else if b && c {
        assert(all =~= seq![y, z]);
        assert(seq![y, z].drop_last() =~= seq![y]);
        assert(y + ","@ + z =~= ticked_words(a, x, b, y, c, z));
    } else if a {
        assert(all =~= seq![x]);
        assert(x =~= ticked_words(a, x, b, y, c, z));
    } else if b {
        assert(all =~= seq![y]);
        assert(y =~= ticked_words(a, x, b, y, c, z));
    } else if c {
        assert(all =~= seq![z]);
        assert(z =~= ticked_words(a, x, b, y, c, z));
    } else {
        assert(none =~= ticked_words(a, x, b, y, c, z));
    }
}

/// A written Wallhaven entry holds the form, and keeps what the form does not know.
pub proof fn law_wallhaven_entry_holds_the_form(
    items: Seq<(Seq<char>, Tree)>,
    form: WallhavenForm,
)
    ensures
        holds_form(wallhaven_entry(items, form), items, form),
{
    let entry = wallhaven_entry(items, form);
    lemma_entry_words();
    lemma_ticked_words(
        form.cat_general,
        "general"@,
        form.cat_people,
        "people"@,
        form.cat_anime,
        "anime"@,
    );
    lemma_ticked_words(
        form.purity_sfw,
        "sfw"@,
        form.purity_sketchy,
        "sketchy"@,
        form.purity_nsfw,
        "nsfw"@,
    );
    crate::settings::laws::law_wallhaven_entry_values(items, form, "type"@);
    crate::settings::laws::law_wallhaven_entry_values(items, form, "query"@);
    crate::settings::laws::law_wallhaven_entry_values(items, form, "categories"@);
    crate::settings::laws::law_wallhaven_entry_values(items, form, "purity"@);
    crate::settings::laws::law_wallhaven_entry_values(items, form, "sorting"@);
    crate::settings::laws::law_wallhaven_entry_values(items, form, "topRange"@);
    crate::settings::laws::law_wallhaven_entry_values(items, form, "atleast"@);
    crate::settings::laws::law_wallhaven_entry_values(items, form, "maxItems"@);
    crate::settings::laws::law_wallhaven_entry_values(items, form, "apiKey"@);
    crate::laws::form::law_choices_have_their_keywords(form.sorting_index);
    crate::laws::form::law_choices_have_their_keywords(form.top_range_index);
    assert forall|key: Seq<char>| #[trigger] other_key(key) implies lookup(entry, key) == lookup(
        items,
        key,
    ) by {
        crate::settings::laws::law_wallhaven_entry_values(items, form, key);
    }
}

proof fn lemma_entry_words()
    ensures
        "type"@.len() == 4 && "query"@.len() == 5 && "categories"@.len() == 10,
        "purity"@.len() == 6 && "apiKey"@.len() == 6 && "purity"@ != "apiKey"@,
        "sorting"@.len() == 7 && "atleast"@.len() == 7 && "sorting"@ != "atleast"@,
        "topRange"@.len() == 8 && "maxItems"@.len() == 8 && "topRange"@ != "maxItems"@,
        "toplist"@.len() == 7 && "toplist"@[0] == 't',
        "relevance"@.len() == 9 && "random"@.len() == 6 && "views"@.len() == 5,
        "favorites"@.len() == 9 && "date_added"@.len() == 10,
        "1d"@.len() == 2 && "3d"@.len() == 2 && "1w"@.len() == 2 && "1M"@.len() == 2,
        "3M"@.len() == 2 && "6M"@.len() == 2 && "1y"@.len() == 2,
{
    reveal_strlit("type");
    reveal_strlit("query");
    reveal_strlit("categories");
    reveal_strlit("purity");
    reveal_strlit("apiKey");
    reveal_strlit("sorting");
    reveal_strlit("atleast");
    reveal_strlit("topRange");
    reveal_strlit("maxItems");
    reveal_strlit("toplist");
    reveal_strlit("relevance");
    reveal_strlit("random");
    reveal_strlit("views");
    reveal_strlit("favorites");
    reveal_strlit("date_added");
    reveal_strlit("1d");
    reveal_strlit("3d");
    reveal_strlit("1w");
    reveal_strlit("1M");
    reveal_strlit("3M");
    reveal_strlit("6M");
    reveal_strlit("1y");
    assert("purity"@[0] == 'p' && "apiKey"@[0] == 'a');
    assert("sorting"@[0] == 's' && "atleast"@[0] == 'a');
    assert("topRange"@[0] == 't' && "maxItems"@[0] == 'm');
}

/// The sources that are not Wallhaven ones, in their order.
pub open spec fn rest_of(sources: Seq<Tree>) -> Seq<Tree> {
    sources.filter(|entry: Tree| !typed_wallhaven(entry))
}

proof fn lemma_rest(sources: Seq<Tree>)
    ensures
        rest_of(sources) == other_sources(sources),
    decreases sources.len(),
{
    reveal(Seq::filter);
    if sources.len() > 0 {
        lemma_rest(sources.drop_last());
        assert(typed_wallhaven(sources.last()) == is_wallhaven(sources.last()));
    }
}

/// Whether a source list is written: all other sources are as they were, in their order. Without
/// the part there is no Wallhaven source; with it there is one, which holds the form, where the
/// first one stood or at the end where there was none.
pub open spec fn list_written(before: Seq<Tree>, form: WallhavenForm, after: Seq<Tree>) -> bool {
    &&& rest_of(after) == rest_of(before)
    &&& !form.enabled ==> forall|i: int|
        0 <= i < after.len() ==> !typed_wallhaven(#[trigger] after[i])
    &&& form.enabled ==> exists|at: int| #[trigger] written_at(before, form, after, at)
}

/// Whether the Wallhaven source of a written list stands at a place.
pub open spec fn written_at(
    before: Seq<Tree>,
    form: WallhavenForm,
    after: Seq<Tree>,
    at: int,
) -> bool {
    &&& 0 <= at < after.len()
    &&& at <= before.len()
    &&& forall|i: int| 0 <= i < at ==> !typed_wallhaven(#[trigger] before[i]) && after[i] == before[i]
    &&& at < before.len() ==> typed_wallhaven(before[at])
    &&& after[at] matches Tree::Object(items) && holds_form(
        items,
        if at < before.len() { before[at]->Object_0 } else { Seq::empty() },
        form,
    )
    &&& forall|i: int| 0 <= i < after.len() ==> (typed_wallhaven(#[trigger] after[i]) <==> i == at)
}

proof fn lemma_list_written(before: Seq<Tree>, form: WallhavenForm)
    ensures
        list_written(before, form, synced_sources(before, form)),
{
    let after = synced_sources(before, form);
    lemma_rest(before);
    lemma_rest(after);
    lemma_other_sources(before);
    lemma_first_wallhaven(before);
    let at = crate::settings::save::first_wallhaven(before);
    if !form.enabled {
        assert forall|i: int| 0 <= i < after.len() implies !typed_wallhaven(
            #[trigger] after[i],
        ) by {
            assert(!is_wallhaven(other_sources(before)[i]));
        }
        lemma_other_sources(after);
    } else {
        let old_items = if at < before.len() { before[at]->Object_0 } else { Seq::empty() };
        let entry = Tree::Object(wallhaven_entry(old_items, form));
        law_wallhaven_entry_holds_the_form(old_items, form);
        assert(typed_wallhaven(entry) && is_wallhaven(entry));
        let head = before.take(at);
        assert forall|i: int| 0 <= i < head.len() implies !is_wallhaven(#[trigger] head[i]) by {
            assert(head[i] == before[i]);
        }
        lemma_other_sources(head);
        reveal(Seq::filter);
        assert(head.push(entry).drop_last() =~= head);
        if at < before.len() {
            let tail = before.skip(at + 1);
            let others = other_sources(tail);
            lemma_other_sources(tail);
            lemma_other_sources(others);
            lemma_other_sources_of_sum(head.push(entry), others);
            lemma_other_sources_of_sum(head.push(before[at]), tail);
            assert(head.push(before[at]).drop_last() =~= head);
            assert(before =~= head.push(before[at]) + tail);
            assert forall|i: int| 0 <= i < after.len() implies (typed_wallhaven(#[trigger] after[i])
                <==> i == at) by {
                if i < at {
                    assert(after[i] == head[i]);
                } else if i > at {
                    assert(after[i] == others[i - at - 1]);
                }
            }
        } else {
            assert(head =~= before);
            assert(after =~= before.push(entry));
            assert(before.push(entry).drop_last() =~= before);
            assert forall|i: int| 0 <= i < after.len() implies (typed_wallhaven(#[trigger] after[i])
                <==> i == at) by {
                if i < at {
                    assert(after[i] == head[i]);
                }
            }
        }
        assert forall|i: int| 0 <= i < at implies !typed_wallhaven(#[trigger] before[i]) && after[i]
            == before[i] by {
            assert(head[i] == before[i]);
        }
        assert(written_at(before, form, after, at));
    }
}

/// The sources of a document, none where it has no array of them.
pub open spec fn source_list(tree: Tree) -> Seq<Tree> {
    match held(tree, "image"@, "sources"@) {
        Some(Tree::Array(sources)) => sources,
        _ => Seq::empty(),
    }
}

proof fn lemma_sources_written(tree: Tree, form: WallhavenForm, after: Tree)
    requires
        with_wallhaven(tree, form) == Ok::<Tree, Fault>(after),
    ensures
        list_written(source_list(tree), form, source_list(after)),
        form.enabled || held(tree, "image"@, "sources"@) is Some ==> held(
            after,
            "image"@,
            "sources"@,
        ) == Some(Tree::Array(source_list(after))),
        !form.enabled && held(tree, "image"@, "sources"@) is None ==> held(
            after,
            "image"@,
            "sources"@,
        ) is None,
{
    lemma_names();
    let before = source_list(tree);
    lemma_list_written(before, form);
    let image = section(tree, "image"@)->Ok_0;
    let synced = crate::settings::save::synced_image(image, form)->Ok_0;
    lemma_with_section(tree, "image"@, synced, "image"@);
    lemma_held(tree, "image"@, "sources"@);
    lemma_held(after, "image"@, "sources"@);
    assert forall|value: Tree|
        lookup(#[trigger] crate::settings::document::put(image, "sources"@, value), "sources"@)
            == Some(value) by {
        crate::settings::document::law_put_then_lookup(image, "sources"@, value, "sources"@);
    }
    if !form.enabled && held(tree, "image"@, "sources"@) is None {
        assert(before =~= Seq::<Tree>::empty());
        assert(source_list(after) =~= Seq::<Tree>::empty());
    }
}

/// Writing the Wallhaven part changes nothing but the sources: one Wallhaven source that holds the
/// form, or none, and all others as they were. No list is made up where there is none to write.
pub proof fn law_wallhaven_part_writes_the_sources_only(
    tree: Tree,
    form: WallhavenForm,
    after: Tree,
    object: Seq<char>,
    key: Seq<char>,
)
    requires
        with_wallhaven(tree, form) == Ok::<Tree, Fault>(after),
    ensures
        list_written(source_list(tree), form, source_list(after)),
        form.enabled || held(tree, "image"@, "sources"@) is Some ==> held(
            after,
            "image"@,
            "sources"@,
        ) == Some(Tree::Array(source_list(after))),
        !form.enabled && held(tree, "image"@, "sources"@) is None ==> held(
            after,
            "image"@,
            "sources"@,
        ) is None,
        (object.len() > 0 || key != "image"@) && !(object == "image"@ && key == "sources"@)
            ==> held(after, object, key) == held(tree, object, key),
{
    lemma_sources_written(tree, form, after);
    if (object.len() > 0 || key != "image"@) && !(object == "image"@ && key == "sources"@) {
        lemma_wallhaven(tree, form, after, object, key);
        lemma_held(tree, object, key);
        lemma_held(after, object, key);
    }
}

/// Saving writes the Wallhaven part of the form to the sources of the document.
pub proof fn law_saved_document_holds_the_wallhaven_part(
    tree: Tree,
    form: SettingsForm,
    after: Tree,
)
    requires
        saved_tree(tree, form) == Ok::<Tree, Fault>(after),
    ensures
        list_written(source_list(tree), form.wallhaven, source_list(after)),
        form.wallhaven.enabled || held(tree, "image"@, "sources"@) is Some ==> held(
            after,
            "image"@,
            "sources"@,
        ) == Some(Tree::Array(source_list(after))),
        !form.wallhaven.enabled && held(tree, "image"@, "sources"@) is None ==> held(
            after,
            "image"@,
            "sources"@,
        ) is None,
{
    lemma_names();
    let edits = form_edits(form);
    let edited = with_edits(tree, edits)->Ok_0;
    let proxied = with_proxy(edited, form.proxy_url@)->Ok_0;
    lemma_edits_keep(tree, edits, edited, "image"@, "sources"@);
    lemma_proxy(edited, form.proxy_url@, proxied, "image"@, "sources"@);
    lemma_held(tree, "image"@, "sources"@);
    lemma_held(proxied, "image"@, "sources"@);
    lemma_sources_written(proxied, form.wallhaven, after);
}

/// A saved text is the print of a document that holds the form and, for the rest, is the one that
/// was read. Where the text cannot be read or the document not be written, the reason is given.
pub proof fn law_saved_text_is_the_saved_document(text: Seq<char>, form: SettingsForm)
    ensures
        saved_text(text, form) matches Ok(saved) ==> exists|tree: Tree, after: Tree| #[trigger]
            saved_tree(tree, form) == Ok::<Tree, Fault>(after) && parsed_hcl(text) == Ok::<
                Tree,
                Seq<char>,
            >(tree) && #[trigger] printed_hcl(after) == Ok::<Seq<char>, Seq<char>>(saved),
        parsed_hcl(text) matches Err(reason) ==> saved_text(text, form) == Err::<Seq<char>, Fault>(
            Fault::Unparsable(reason),
        ),
        parsed_hcl(text) matches Ok(tree) ==> saved_tree(tree, form) matches Err(fault)
            ==> saved_text(text, form) == Err::<Seq<char>, Fault>(fault),
        parsed_hcl(text) matches Ok(tree) ==> saved_tree(tree, form) matches Ok(after)
            ==> printed_hcl(after) matches Err(reason) ==> saved_text(text, form) == Err::<
            Seq<char>,
            Fault,
        >(Fault::Unprintable(reason)),
{
    if let Ok(tree) = parsed_hcl(text) {
        if let Ok(after) = saved_tree(tree, form) {
            assert(saved_tree(tree, form) == Ok::<Tree, Fault>(after));
        }
    }
}

/// The view of an error holds what the error holds.
pub proof fn law_errors_are_seen_as_they_are(error: SettingsError)
    ensures
        error matches SettingsError::Unparsable { reason } ==> error@ == Fault::Unparsable(reason@),
        error is RootNotObject ==> error@ == Fault::RootNotObject,
        error matches SettingsError::NotAnObject { key } ==> error@ == Fault::NotAnObject(key@),
        error is SourcesNotArray ==> error@ == Fault::SourcesNotArray,
        error matches SettingsError::Unprintable { reason } ==> error@ == Fault::Unprintable(
            reason@,
        ),
{
}

/// A line about a failure ends in the error.
pub proof fn law_failures_are_shown_with_their_error(lead: Seq<char>, error: Seq<char>)
    ensures
        crate::settings::window::failure_line(lead, error) == Some(lead + error),
{
}

/// What the window says of an error names the file, the key and the reason that the error holds.
pub proof fn law_errors_name_what_is_wrong(error: SettingsError, path: Seq<char>)
    ensures
        ({
            let said = crate::settings::window::error_message(error, path);
            &&& error matches SettingsError::Unparsable { reason } ==> said
                == "failed to parse config file "@ + path + ": "@ + reason@
            &&& error is RootNotObject ==> said == "config root is not an object"@
            &&& error matches SettingsError::NotAnObject { key } ==> said == "config key '"@ + key@
                + "' is not an object"@
            &&& error is SourcesNotArray ==> said == "image.sources is not an array"@
            &&& error matches SettingsError::Unprintable { reason } ==> said
                == "failed to serialize config: "@ + reason@
        }),
{
}

} // verus!
