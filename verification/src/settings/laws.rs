//! What saving the settings keeps, stores and reads back.

use crate::settings::document::Tree;
use crate::settings::form::{SettingsForm, WallhavenForm};
use crate::settings::save::Edit;
use crate::settings::{document, form, save, section, with_key, with_section, Fault};
use vstd::prelude::*;

verus! {

/// What stands under `key` in the object that `object` names (empty for the document itself).
pub open spec fn value_at(tree: Tree, object: Seq<char>, key: Seq<char>) -> Option<Tree> {
    match section(tree, object) {
        Ok(items) => document::lookup(items, key),
        Err(_) => None,
    }
}

/// The object maps of a document after one of them was replaced.
pub(crate) proof fn lemma_with_section(
    tree: Tree,
    replaced: Seq<char>,
    items: Seq<(Seq<char>, Tree)>,
    object: Seq<char>,
)
    requires
        section(tree, replaced) is Ok,
    ensures
        with_section(tree, replaced, items) is Object,
        object == replaced ==> section(with_section(tree, replaced, items), object) == Ok::<
            Seq<(Seq<char>, Tree)>,
            Fault,
        >(items),
        object != replaced && object.len() > 0 && replaced.len() > 0 ==> section(
            with_section(tree, replaced, items),
            object,
        ) == section(tree, object),
{
    if replaced.len() > 0 {
        document::law_put_then_lookup(
            tree->Object_0,
            replaced,
            Tree::Object(items),
            object,
        );
    } else if object == replaced {
        assert(object.len() == 0);
    }
}

/// Whether storing under one place can change what stands at another.
pub open spec fn touches(edit: Edit, object: Seq<char>, key: Seq<char>) -> bool {
    ||| edit.object == object && edit.key == key
    ||| edit.object.len() == 0 && object.len() > 0 && edit.key == object
    ||| object.len() == 0 && edit.object.len() > 0 && key == edit.object
}

pub(crate) proof fn lemma_with_key(tree: Tree, edit: Edit, after: Tree, object: Seq<char>, key: Seq<char>)
    requires
        with_key(tree, edit.object, edit.key, edit.value) == Ok::<Tree, Fault>(after),
    ensures
        after is Object,
        value_at(after, edit.object, edit.key) == Some(edit.value),
        !touches(edit, object, key) ==> value_at(after, object, key) == value_at(tree, object, key),
        object.len() > 0 && !(edit.object.len() == 0 && edit.key == object) ==> (section(
            after,
            object,
        ) is Ok <==> section(tree, object) is Ok),
{
    let items = section(tree, edit.object)->Ok_0;
    let put = document::put(items, edit.key, edit.value);
    document::law_put_then_lookup(items, edit.key, edit.value, key);
    document::law_put_then_lookup(items, edit.key, edit.value, object);
    lemma_with_section(tree, edit.object, put, edit.object);
    lemma_with_section(tree, edit.object, put, object);
    if edit.object.len() > 0 {
        document::law_put_then_lookup(tree->Object_0, edit.object, Tree::Object(put), key);
        if object.len() == 0 {
            assert(section(tree, object) == Ok::<Seq<(Seq<char>, Tree)>, Fault>(tree->Object_0));
        }
    } else if object.len() == 0 {
        assert(object =~= edit.object);
    }
}

/// Edits leave every place that none of them touches.
pub(crate) proof fn lemma_edits_keep(
    tree: Tree,
    edits: Seq<Edit>,
    after: Tree,
    object: Seq<char>,
    key: Seq<char>,
)
    requires
        save::with_edits(tree, edits) == Ok::<Tree, Fault>(after),
        forall|i: int| 0 <= i < edits.len() ==> !touches(#[trigger] edits[i], object, key),
    ensures
        value_at(after, object, key) == value_at(tree, object, key),
    decreases edits.len(),
{
    if edits.len() > 0 {
        let init = edits.drop_last();
        let before = save::with_edits(tree, init)->Ok_0;
        assert forall|i: int| 0 <= i < init.len() implies !touches(
            #[trigger] init[i],
            object,
            key,
        ) by {
            assert(init[i] == edits[i]);
        }
        lemma_edits_keep(tree, init, before, object, key);
        assert(!touches(edits[edits.len() - 1], object, key));
        lemma_with_key(before, edits.last(), after, object, key);
    }
}

/// An edit that no later one touches is there in the end.
proof fn lemma_edits_store(tree: Tree, edits: Seq<Edit>, after: Tree, at: int)
    requires
        save::with_edits(tree, edits) == Ok::<Tree, Fault>(after),
        0 <= at < edits.len(),
        forall|i: int|
            at < i < edits.len() ==> !touches(
                #[trigger] edits[i],
                edits[at].object,
                edits[at].key,
            ),
    ensures
        value_at(after, edits[at].object, edits[at].key) == Some(edits[at].value),
    decreases edits.len(),
{
    let init = edits.drop_last();
    let before = save::with_edits(tree, init)->Ok_0;
    lemma_with_key(before, edits.last(), after, edits[at].object, edits[at].key);
    if at < edits.len() - 1 {
        assert(init[at] == edits[at]);
        assert forall|i: int| at < i < init.len() implies !touches(
            #[trigger] init[i],
            init[at].object,
            init[at].key,
        ) by {
            assert(init[i] == edits[i]);
        }
        lemma_edits_store(tree, init, before, at);
        assert(!touches(edits[edits.len() - 1], edits[at].object, edits[at].key));
    }
}

/// Edits go through on a document whose objects are objects, and leave them objects.
pub(crate) proof fn lemma_edits_succeed(tree: Tree, edits: Seq<Edit>)
    requires
        tree is Object,
        forall|i: int|
            0 <= i < edits.len() && edits[i].object.len() > 0 ==> section(
                tree,
                (#[trigger] edits[i]).object,
            ) is Ok,
        forall|i: int, j: int|
            0 <= i < edits.len() && 0 <= j < edits.len() && edits[i].object.len() == 0
                && edits[j].object.len() > 0 ==> (#[trigger] edits[i]).key
                != (#[trigger] edits[j]).object,
    ensures
        save::with_edits(tree, edits) is Ok,
        save::with_edits(tree, edits)->Ok_0 is Object,
        forall|object: Seq<char>|
            object.len() > 0 && (forall|i: int|
                0 <= i < edits.len() && edits[i].object.len() == 0 ==> (#[trigger] edits[i]).key
                    != object) ==> (#[trigger] section(
                save::with_edits(tree, edits)->Ok_0,
                object,
            ) is Ok <==> section(tree, object) is Ok),
    decreases edits.len(),
{
    if edits.len() > 0 {
        let init = edits.drop_last();
        assert forall|i: int| 0 <= i < init.len() implies init[i] == edits[i] by {}
        lemma_edits_succeed(tree, init);
        let before = save::with_edits(tree, init)->Ok_0;
        let last = edits.last();
        assert(last == edits[edits.len() - 1]);
        if last.object.len() > 0 {
            assert(section(tree, last.object) is Ok);
            assert forall|i: int|
                0 <= i < init.len() && init[i].object.len() == 0 implies (#[trigger] init[i]).key
                != last.object by {
                assert(edits[i].key != last.object);
            }
            assert(section(before, last.object) is Ok);
        }
        let after = save::with_edits(tree, edits)->Ok_0;
        assert(with_key(before, last.object, last.key, last.value) == Ok::<Tree, Fault>(after));
        lemma_with_key(before, last, after, last.object, last.key);
        assert forall|object: Seq<char>|
            object.len() > 0 && (forall|i: int|
                0 <= i < edits.len() && edits[i].object.len() == 0 ==> (#[trigger] edits[i]).key
                    != object) implies (#[trigger] section(after, object) is Ok <==> section(
            tree,
            object,
        ) is Ok) by {
            assert forall|i: int|
                0 <= i < init.len() && init[i].object.len() == 0 implies (#[trigger] init[i]).key
                != object by {
                assert(edits[i].key != object);
            }
            assert(section(before, object) is Ok <==> section(tree, object) is Ok);
            lemma_with_key(before, last, after, object, last.key);
        }
    }
}

/// The names of the objects and the keys that the form writes.
pub(crate) proof fn lemma_names()
    ensures
        ""@.len() == 0,
        "image"@.len() == 5,
        "shader"@.len() == 6,
        "updater"@.len() == 7,
        "renderer"@.len() == 8,
        "log_level"@.len() == 9,
        "proxy"@.len() == 5,
        "proxy"@ != "image"@,
        "timer"@.len() == 5,
        "remoteUpdateTimer"@.len() == 17,
        "format"@.len() == 6,
        "jpeg_quality"@.len() == 12,
        "sources"@.len() == 7,
        "name"@.len() == 4,
        "target_fps"@.len() == 10,
        "resolution"@.len() == 10,
        "target_fps"@ != "resolution"@,
        "mouse_enabled"@.len() == 13,
        "desktop_scope"@.len() == 13,
        "mouse_enabled"@ != "desktop_scope"@,
        "color_space"@.len() == 11,
        "enabled"@.len() == 7,
        "checkInterval"@.len() == 13,
        "feedUrl"@.len() == 7,
        "enabled"@ != "feedUrl"@,
{
    reveal_strlit("");
    reveal_strlit("image");
    reveal_strlit("shader");
    reveal_strlit("updater");
    reveal_strlit("renderer");
    reveal_strlit("log_level");
    reveal_strlit("proxy");
    reveal_strlit("timer");
    reveal_strlit("remoteUpdateTimer");
    reveal_strlit("format");
    reveal_strlit("jpeg_quality");
    reveal_strlit("sources");
    reveal_strlit("name");
    reveal_strlit("target_fps");
    reveal_strlit("resolution");
    reveal_strlit("mouse_enabled");
    reveal_strlit("desktop_scope");
    reveal_strlit("color_space");
    reveal_strlit("enabled");
    reveal_strlit("checkInterval");
    reveal_strlit("feedUrl");
    assert("proxy"@[0] == 'p' && "image"@[0] == 'i');
    assert("target_fps"@[0] == 't' && "resolution"@[0] == 'r');
    assert("mouse_enabled"@[0] == 'm' && "desktop_scope"@[0] == 'd');
    assert("enabled"@[0] == 'e' && "feedUrl"@[0] == 'f');
}

/// Whether the form writes nothing at a place: no key of its own stands there, and none of the
/// keys on the way is its own.
pub open spec fn kept_place(object: Seq<char>, key: Seq<char>) -> bool {
    if object.len() == 0 {
        &&& key != "renderer"@ && key != "log_level"@ && key != "proxy"@
        &&& key != "image"@ && key != "shader"@ && key != "updater"@
    } else if object == "image"@ {
        &&& key != "timer"@ && key != "remoteUpdateTimer"@ && key != "format"@
        &&& key != "jpeg_quality"@ && key != "sources"@
    } else if object == "shader"@ {
        &&& key != "name"@ && key != "target_fps"@ && key != "resolution"@
        &&& key != "mouse_enabled"@ && key != "desktop_scope"@ && key != "color_space"@
    } else if object == "updater"@ {
        key != "enabled"@ && key != "checkInterval"@ && key != "feedUrl"@
    } else {
        object != "renderer"@ && object != "log_level"@ && object != "proxy"@
    }
}

pub(crate) proof fn lemma_proxy(
    tree: Tree,
    proxy_url: Seq<char>,
    after: Tree,
    object: Seq<char>,
    key: Seq<char>,
)
    requires
        save::with_proxy(tree, proxy_url) == Ok::<Tree, Fault>(after),
        object.len() == 0 ==> key != "proxy"@,
        object != "proxy"@,
    ensures
        tree is Object,
        after is Object,
        value_at(after, object, key) == value_at(tree, object, key),
        section(after, object) is Ok <==> section(tree, object) is Ok,
{
    let items = tree->Object_0;
    let proxy = crate::text::trimmed(proxy_url);
    document::law_without_then_lookup(items, "proxy"@, key);
    document::law_without_then_lookup(items, "proxy"@, object);
    document::law_put_then_lookup(items, "proxy"@, Tree::Text(proxy), key);
    document::law_put_then_lookup(items, "proxy"@, Tree::Text(proxy), object);
}

pub(crate) proof fn lemma_wallhaven(
    tree: Tree,
    form: WallhavenForm,
    after: Tree,
    object: Seq<char>,
    key: Seq<char>,
)
    requires
        save::with_wallhaven(tree, form) == Ok::<Tree, Fault>(after),
        object.len() == 0 ==> key != "image"@,
        object == "image"@ ==> key != "sources"@,
    ensures
        tree is Object,
        after is Object,
        value_at(after, object, key) == value_at(tree, object, key),
{
    lemma_names();
    let image = section(tree, "image"@)->Ok_0;
    let synced = save::synced_image(image, form)->Ok_0;
    lemma_with_section(tree, "image"@, synced, object);
    document::law_put_then_lookup(tree->Object_0, "image"@, Tree::Object(synced), key);
    assert forall|value: Tree|
        key != "sources"@ implies document::lookup(
        #[trigger] document::put(image, "sources"@, value),
        key,
    ) == document::lookup(image, key) by {
        document::law_put_then_lookup(image, "sources"@, value, key);
    }
}

/// Saving keeps every key that the form does not know, in the document and in its objects.
pub proof fn law_unknown_keys_survive(
    tree: Tree,
    form: SettingsForm,
    after: Tree,
    object: Seq<char>,
    key: Seq<char>,
)
    requires
        save::saved_tree(tree, form) == Ok::<Tree, Fault>(after),
        kept_place(object, key),
    ensures
        value_at(after, object, key) == value_at(tree, object, key),
{
    lemma_names();
    let edits = save::form_edits(form);
    let edited = save::with_edits(tree, edits)->Ok_0;
    let proxied = save::with_proxy(edited, form.proxy_url@)->Ok_0;
    assert forall|i: int| 0 <= i < edits.len() implies !touches(
        #[trigger] edits[i],
        object,
        key,
    ) by {}
    lemma_edits_keep(tree, edits, edited, object, key);
    lemma_proxy(edited, form.proxy_url@, proxied, object, key);
    lemma_wallhaven(proxied, form.wallhaven, after, object, key);
}

proof fn lemma_form_edits_apart(form: SettingsForm, at: int)
    requires
        0 <= at < 15,
    ensures
        forall|i: int|
            at < i < 15 ==> !touches(
                #[trigger] save::form_edits(form)[i],
                save::form_edits(form)[at].object,
                save::form_edits(form)[at].key,
            ),
{
    lemma_names();
}

/// After saving, every fixed key holds the value of the form.
pub proof fn law_form_values_are_stored(tree: Tree, form: SettingsForm, after: Tree, at: int)
    requires
        save::saved_tree(tree, form) == Ok::<Tree, Fault>(after),
        0 <= at < save::form_edits(form).len(),
    ensures
        ({
            let edit = save::form_edits(form)[at];
            value_at(after, edit.object, edit.key) == Some(edit.value)
        }),
{
    lemma_names();
    let edits = save::form_edits(form);
    let edit = edits[at];
    let edited = save::with_edits(tree, edits)->Ok_0;
    let proxied = save::with_proxy(edited, form.proxy_url@)->Ok_0;
    lemma_form_edits_apart(form, at);
    lemma_edits_store(tree, edits, edited, at);
    lemma_proxy(edited, form.proxy_url@, proxied, edit.object, edit.key);
    lemma_wallhaven(proxied, form.wallhaven, after, edit.object, edit.key);
}

/// After saving, the proxy of the form stands in the document, and an empty one is not there.
pub proof fn law_empty_proxy_removes_the_key(tree: Tree, form: SettingsForm, after: Tree)
    requires
        save::saved_tree(tree, form) == Ok::<Tree, Fault>(after),
    ensures
        ({
            let proxy = crate::text::trimmed(form.proxy_url@);
            value_at(after, Seq::empty(), "proxy"@) == if proxy.len() == 0 {
                None
            } else {
                Some(Tree::Text(proxy))
            }
        }),
{
    lemma_names();
    let edited = save::with_edits(tree, save::form_edits(form))->Ok_0;
    let proxied = save::with_proxy(edited, form.proxy_url@)->Ok_0;
    let proxy = crate::text::trimmed(form.proxy_url@);
    document::law_without_then_lookup(edited->Object_0, "proxy"@, "proxy"@);
    document::law_put_then_lookup(edited->Object_0, "proxy"@, Tree::Text(proxy), "proxy"@);
    lemma_wallhaven(proxied, form.wallhaven, after, Seq::empty(), "proxy"@);
}

/// Whether the form can be written to a document: it is an object, the objects that the form
/// fills are objects or absent, and the sources are an array or absent.
pub open spec fn writable(tree: Tree) -> bool {
    &&& tree is Object
    &&& section(tree, "image"@) is Ok
    &&& section(tree, "shader"@) is Ok
    &&& section(tree, "updater"@) is Ok
    &&& value_at(tree, "image"@, "sources"@) is None || value_at(
        tree,
        "image"@,
        "sources"@,
    )->0 is Array
}

proof fn lemma_failing_section(tree: Tree, edits: Seq<Edit>, at: int)
    requires
        0 <= at < edits.len(),
        edits[at].object.len() > 0,
        section(tree, edits[at].object) is Err,
        forall|i: int|
            0 <= i < edits.len() && edits[i].object.len() == 0 ==> (#[trigger] edits[i]).key
                != edits[at].object,
    ensures
        save::with_edits(tree, edits) is Err,
    decreases edits.len(),
{
    let init = edits.drop_last();
    assert forall|i: int| 0 <= i < init.len() implies init[i] == edits[i] by {}
    if save::with_edits(tree, edits) is Ok {
        let before = save::with_edits(tree, init)->Ok_0;
        if at < edits.len() - 1 {
            lemma_failing_section(tree, init, at);
        } else {
            lemma_section_kept(tree, init, before, edits[at].object);
        }
    }
}

pub(crate) proof fn lemma_section_kept(tree: Tree, edits: Seq<Edit>, after: Tree, object: Seq<char>)
    requires
        save::with_edits(tree, edits) == Ok::<Tree, Fault>(after),
        object.len() > 0,
        forall|i: int|
            0 <= i < edits.len() && edits[i].object.len() == 0 ==> (#[trigger] edits[i]).key
                != object,
    ensures
        section(after, object) is Ok <==> section(tree, object) is Ok,
    decreases edits.len(),
{
    if edits.len() > 0 {
        let init = edits.drop_last();
        let before = save::with_edits(tree, init)->Ok_0;
        assert forall|i: int|
            0 <= i < init.len() && init[i].object.len() == 0 implies (#[trigger] init[i]).key
            != object by {
            assert(edits[i].key != object);
        }
        lemma_section_kept(tree, init, before, object);
        assert(edits[edits.len() - 1] == edits.last());
        lemma_with_key(before, edits.last(), after, object, edits.last().key);
    }
}

/// Saving succeeds on exactly the writable documents.
pub proof fn law_saving_succeeds_on_writable_documents(tree: Tree, form: SettingsForm)
    ensures
        save::saved_tree(tree, form) is Ok <==> writable(tree),
{
    lemma_names();
    let edits = save::form_edits(form);
    assert(edits[1].object == "image"@);
    assert(edits[5].object == "shader"@);
    assert(edits[11].object == "updater"@);
    if !(tree is Object) {
        assert(edits[0].object.len() == 0);
        lemma_root_must_be_object(tree, edits);
    } else if section(tree, "image"@) is Err {
        lemma_failing_section(tree, edits, 1);
    } else if section(tree, "shader"@) is Err {
        lemma_failing_section(tree, edits, 5);
    } else if section(tree, "updater"@) is Err {
        lemma_failing_section(tree, edits, 11);
    } else {
        lemma_edits_succeed(tree, edits);
        let edited = save::with_edits(tree, edits)->Ok_0;
        lemma_section_kept(tree, edits, edited, "image"@);
        lemma_edits_keep(tree, edits, edited, "image"@, "sources"@);
        let proxied = save::with_proxy(edited, form.proxy_url@)->Ok_0;
        lemma_proxy(edited, form.proxy_url@, proxied, "image"@, "sources"@);
    }
}

/// The objects and the keys that the form fills at the top of a document are plain identifiers.
proof fn lemma_top_keys_are_plain()
    ensures
        document::plain_identifier("renderer"@),
        document::plain_identifier("image"@),
        document::plain_identifier("shader"@),
        document::plain_identifier("updater"@),
        document::plain_identifier("log_level"@),
        document::plain_identifier("proxy"@),
{
    reveal_strlit("renderer");
    reveal_strlit("image");
    reveal_strlit("shader");
    reveal_strlit("updater");
    reveal_strlit("log_level");
    reveal_strlit("proxy");
}

proof fn lemma_edits_keep_printable(tree: Tree, edits: Seq<Edit>)
    requires
        document::printable(tree),
        save::with_edits(tree, edits) is Ok,
        forall|i: int|
            0 <= i < edits.len() ==> document::plain_identifier(
                if (#[trigger] edits[i]).object.len() == 0 {
                    edits[i].key
                } else {
                    edits[i].object
                },
            ),
    ensures
        document::printable(save::with_edits(tree, edits)->Ok_0),
    decreases edits.len(),
{
    if edits.len() > 0 {
        let init = edits.drop_last();
        let last = edits.last();
        assert forall|i: int| 0 <= i < init.len() implies document::plain_identifier(
            if (#[trigger] init[i]).object.len() == 0 {
                init[i].key
            } else {
                init[i].object
            },
        ) by {
            assert(init[i] == edits[i]);
        }
        lemma_edits_keep_printable(tree, init);
        let before = save::with_edits(tree, init)->Ok_0;
        assert(edits[edits.len() - 1] == last);
        let items = before->Object_0;
        if last.object.len() == 0 {
            document::lemma_printable_edits(items, last.key, last.value);
        } else {
            let inner = section(before, last.object)->Ok_0;
            document::lemma_printable_edits(
                items,
                last.object,
                Tree::Object(document::put(inner, last.key, last.value)),
            );
        }
    }
}

/// A document that can be written can be written after saving the form to it.
pub proof fn lemma_saved_is_printable(tree: Tree, form: SettingsForm)
    requires
        document::printable(tree),
        save::saved_tree(tree, form) is Ok,
    ensures
        document::printable(save::saved_tree(tree, form)->Ok_0),
{
    lemma_names();
    lemma_top_keys_are_plain();
    let edits = save::form_edits(form);
    lemma_edits_keep_printable(tree, edits);
    let edited = save::with_edits(tree, edits)->Ok_0;
    document::lemma_printable_edits(
        edited->Object_0,
        "proxy"@,
        Tree::Text(crate::text::trimmed(form.proxy_url@)),
    );
    let proxied = save::with_proxy(edited, form.proxy_url@)->Ok_0;
    let image = section(proxied, "image"@)->Ok_0;
    let synced = save::synced_image(image, form.wallhaven)->Ok_0;
    document::lemma_printable_edits(proxied->Object_0, "image"@, Tree::Object(synced));
}

proof fn lemma_root_must_be_object(tree: Tree, edits: Seq<Edit>)
    requires
        !(tree is Object),
        edits.len() > 0,
    ensures
        save::with_edits(tree, edits) is Err,
    decreases edits.len(),
{
    if edits.len() > 1 {
        lemma_root_must_be_object(tree, edits.drop_last());
    } else {
        assert(edits.drop_last() =~= Seq::<Edit>::empty());
        assert(save::with_edits(tree, edits.drop_last()) == Ok::<Tree, Fault>(tree));
    }
}

/// The sources of a document.
pub open spec fn sources_of(tree: Tree) -> Seq<Tree> {
    match value_at(tree, "image"@, "sources"@) {
        Some(Tree::Array(sources)) => sources,
        _ => Seq::empty(),
    }
}

/// Saving writes the Wallhaven part of the form to the sources of the document.
proof fn lemma_saved_sources(tree: Tree, form: SettingsForm, after: Tree)
    requires
        save::saved_tree(tree, form) == Ok::<Tree, Fault>(after),
    ensures
        sources_of(after) == save::synced_sources(sources_of(tree), form.wallhaven),
{
    lemma_names();
    let edits = save::form_edits(form);
    let edited = save::with_edits(tree, edits)->Ok_0;
    let proxied = save::with_proxy(edited, form.proxy_url@)->Ok_0;
    lemma_edits_keep(tree, edits, edited, "image"@, "sources"@);
    lemma_proxy(edited, form.proxy_url@, proxied, "image"@, "sources"@);
    let image = section(proxied, "image"@)->Ok_0;
    let synced = save::synced_image(image, form.wallhaven)->Ok_0;
    lemma_with_section(proxied, "image"@, synced, "image"@);
    let none = Seq::<Tree>::empty();
    reveal(Seq::filter);
    assert(save::other_sources(none) =~= none);
    assert forall|value: Tree|
        document::lookup(#[trigger] document::put(image, "sources"@, value), "sources"@) == Some(
            value,
        ) by {
        document::law_put_then_lookup(image, "sources"@, value, "sources"@);
    }
}

pub(crate) proof fn lemma_other_sources(sources: Seq<Tree>)
    ensures
        forall|i: int|
            0 <= i < save::other_sources(sources).len() ==> !save::is_wallhaven(
                #[trigger] save::other_sources(sources)[i],
            ),
        (forall|i: int| 0 <= i < sources.len() ==> !save::is_wallhaven(#[trigger] sources[i]))
            ==> save::other_sources(sources) == sources,
    decreases sources.len(),
{
    reveal(Seq::filter);
    if sources.len() > 0 {
        let init = sources.drop_last();
        lemma_other_sources(init);
        if forall|i: int| 0 <= i < sources.len() ==> !save::is_wallhaven(#[trigger] sources[i]) {
            assert forall|i: int| 0 <= i < init.len() implies !save::is_wallhaven(
                #[trigger] init[i],
            ) by {
                assert(init[i] == sources[i]);
            }
            assert(!save::is_wallhaven(sources[sources.len() - 1]));
            assert(init.push(sources.last()) =~= sources);
        }
    } else {
        assert(save::other_sources(sources) =~= sources);
    }
}

pub(crate) proof fn lemma_other_sources_of_sum(a: Seq<Tree>, b: Seq<Tree>)
    ensures
        save::other_sources(a + b) == save::other_sources(a) + save::other_sources(b),
    decreases b.len(),
{
    reveal(Seq::filter);
    if b.len() == 0 {
        assert(a + b =~= a);
        assert(save::other_sources(a) + save::other_sources(b) =~= save::other_sources(a));
    } else {
        let init = b.drop_last();
        lemma_other_sources_of_sum(a, init);
        assert((a + b).drop_last() =~= a + init);
        assert((a + b).last() == b.last());
        let others = save::other_sources(a) + save::other_sources(init);
        assert(others.push(b.last()) =~= save::other_sources(a) + save::other_sources(init).push(
            b.last(),
        ));
    }
}

pub proof fn lemma_first_wallhaven(sources: Seq<Tree>)
    ensures
        0 <= save::first_wallhaven(sources) <= sources.len(),
        save::first_wallhaven(sources) < sources.len() ==> save::is_wallhaven(
            sources[save::first_wallhaven(sources)],
        ),
        forall|i: int|
            0 <= i < save::first_wallhaven(sources) ==> !save::is_wallhaven(#[trigger] sources[i]),
    decreases sources.len(),
{
    if sources.len() > 0 && !save::is_wallhaven(sources[0]) {
        let rest = sources.skip(1);
        lemma_first_wallhaven(rest);
        let at = save::first_wallhaven(sources);
        assert forall|i: int| 0 <= i < at implies !save::is_wallhaven(#[trigger] sources[i]) by {
            if i > 0 {
                assert(rest[i - 1] == sources[i]);
            }
        }
        if at < sources.len() {
            assert(rest[at - 1] == sources[at]);
        }
    }
}

/// A text as a key holds it: an empty one is not there.
pub open spec fn stored_text(text: Seq<char>) -> Option<Tree> {
    if text.len() == 0 {
        None
    } else {
        Some(Tree::Text(text))
    }
}

proof fn lemma_put_text(
    items: Seq<(Seq<char>, Tree)>,
    key: Seq<char>,
    text: Seq<char>,
    other: Seq<char>,
)
    ensures
        document::lookup(save::put_text(items, key, text), key) == stored_text(text),
        other != key ==> document::lookup(save::put_text(items, key, text), other)
            == document::lookup(items, other),
{
    document::law_put_then_lookup(items, key, Tree::Text(text), other);
    document::law_without_then_lookup(items, key, other);
}

proof fn lemma_wallhaven_names()
    ensures
        "type"@.len() == 4,
        "query"@.len() == 5,
        "categories"@.len() == 10,
        "purity"@.len() == 6,
        "apiKey"@.len() == 6,
        "purity"@ != "apiKey"@,
        "sorting"@.len() == 7,
        "atleast"@.len() == 7,
        "sorting"@ != "atleast"@,
        "topRange"@.len() == 8,
        "maxItems"@.len() == 8,
        "topRange"@ != "maxItems"@,
{
    reveal_strlit("type");
    reveal_strlit("query");
    reveal_strlit("categories");
    reveal_strlit("purity");
    reveal_strlit("apiKey");
    reveal_strlit("sorting");
    reveal_strlit("atleast");
    reveal_strlit("topRange");
    reveal_strlit("maxItems");
    assert("purity"@[0] == 'p' && "apiKey"@[0] == 'a');
    assert("sorting"@[0] == 's' && "atleast"@[0] == 'a');
    assert("topRange"@[0] == 't' && "maxItems"@[0] == 'm');
}

/// What a written Wallhaven source holds under every key.
pub open spec fn wallhaven_value(
    items: Seq<(Seq<char>, Tree)>,
    form: WallhavenForm,
    key: Seq<char>,
) -> Option<Tree> {
    if key == "type"@ {
        Some(Tree::Text("wallhaven"@))
    } else if key == "query"@ {
        stored_text(crate::text::trimmed(form.query@))
    } else if key == "categories"@ {
        stored_text(crate::text::joined(save::chosen_categories(form), ","@))
    } else if key == "purity"@ {
        stored_text(crate::text::joined(save::chosen_purities(form), ","@))
    } else if key == "sorting"@ {
        Some(Tree::Text(form::sorting_name(form.sorting_index)))
    } else if key == "topRange"@ {
        stored_text(save::stored_top_range(form))
    } else if key == "atleast"@ {
        stored_text(form::atleast_name(form.atleast_index))
    } else if key == "maxItems"@ {
        Some(Tree::Int(save::clamped_items(form.max_items)))
    } else if key == "apiKey"@ {
        stored_text(crate::text::trimmed(form.api_key@))
    } else {
        document::lookup(items, key)
    }
}

/// A written Wallhaven source holds the values of the form, empty ones left out, and keeps the
/// keys that the form does not know.
pub proof fn law_wallhaven_entry_values(
    items: Seq<(Seq<char>, Tree)>,
    form: WallhavenForm,
    key: Seq<char>,
)
    ensures
        document::lookup(save::wallhaven_entry(items, form), key) == wallhaven_value(
            items,
            form,
            key,
        ),
{
    lemma_wallhaven_names();
    let typed = document::put(items, "type"@, Tree::Text("wallhaven"@));
    document::law_put_then_lookup(items, "type"@, Tree::Text("wallhaven"@), key);
    let query = crate::text::trimmed(form.query@);
    let queried = save::put_text(typed, "query"@, query);
    lemma_put_text(typed, "query"@, query, key);
    let categories = crate::text::joined(save::chosen_categories(form), ","@);
    let categorised = save::put_text(queried, "categories"@, categories);
    lemma_put_text(queried, "categories"@, categories, key);
    let purity = crate::text::joined(save::chosen_purities(form), ","@);
    let purified = save::put_text(categorised, "purity"@, purity);
    lemma_put_text(categorised, "purity"@, purity, key);
    let sorting = Tree::Text(form::sorting_name(form.sorting_index));
    let sorted = document::put(purified, "sorting"@, sorting);
    document::law_put_then_lookup(purified, "sorting"@, sorting, key);
    let ranged = save::put_text(sorted, "topRange"@, save::stored_top_range(form));
    lemma_put_text(sorted, "topRange"@, save::stored_top_range(form), key);
    let atleast = form::atleast_name(form.atleast_index);
    let sized = save::put_text(ranged, "atleast"@, atleast);
    lemma_put_text(ranged, "atleast"@, atleast, key);
    let count = Tree::Int(save::clamped_items(form.max_items));
    let counted = document::put(sized, "maxItems"@, count);
    document::law_put_then_lookup(sized, "maxItems"@, count, key);
    lemma_put_text(counted, "apiKey"@, crate::text::trimmed(form.api_key@), key);
}

/// A disabled Wallhaven form leaves no Wallhaven source; the others stay, in their order.
pub proof fn law_disabled_wallhaven_is_removed(tree: Tree, form: SettingsForm, after: Tree)
    requires
        save::saved_tree(tree, form) == Ok::<Tree, Fault>(after),
        !form.wallhaven.enabled,
    ensures
        sources_of(after) == save::other_sources(sources_of(tree)),
        forall|i: int|
            0 <= i < sources_of(after).len() ==> !save::is_wallhaven(
                #[trigger] sources_of(after)[i],
            ),
{
    lemma_saved_sources(tree, form, after);
    lemma_other_sources(sources_of(tree));
}

/// An enabled Wallhaven form leaves exactly one Wallhaven source: the updated first one in its
/// place, or a new one at the end. The other sources stay, in their order.
pub proof fn law_enabled_wallhaven_is_unique(tree: Tree, form: SettingsForm, after: Tree)
    requires
        save::saved_tree(tree, form) == Ok::<Tree, Fault>(after),
        form.wallhaven.enabled,
    ensures
        save::other_sources(sources_of(after)) == save::other_sources(sources_of(tree)),
        ({
            let at = save::first_wallhaven(sources_of(tree));
            let old_items = if at < sources_of(tree).len() {
                sources_of(tree)[at]->Object_0
            } else {
                Seq::empty()
            };
            &&& 0 <= at < sources_of(after).len()
            &&& sources_of(after)[at] == Tree::Object(
                save::wallhaven_entry(old_items, form.wallhaven),
            )
            &&& forall|i: int|
                0 <= i < sources_of(after).len() ==> (save::is_wallhaven(
                    #[trigger] sources_of(after)[i],
                ) <==> i == at)
        }),
{
    lemma_saved_sources(tree, form, after);
    let before = sources_of(tree);
    let now = sources_of(after);
    let at = save::first_wallhaven(before);
    lemma_first_wallhaven(before);
    let old_items = if at < before.len() { before[at]->Object_0 } else { Seq::empty() };
    let entry = Tree::Object(save::wallhaven_entry(old_items, form.wallhaven));
    law_wallhaven_entry_values(old_items, form.wallhaven, "type"@);
    assert(save::is_wallhaven(entry));
    let head = before.take(at);
    assert forall|i: int| 0 <= i < head.len() implies !save::is_wallhaven(#[trigger] head[i]) by {
        assert(head[i] == before[i]);
    }
    lemma_other_sources(head);
    reveal(Seq::filter);
    if at < before.len() {
        let tail = before.skip(at + 1);
        let others = save::other_sources(tail);
        lemma_other_sources(tail);
        lemma_other_sources(others);
        lemma_other_sources_of_sum(head.push(entry), others);
        lemma_other_sources_of_sum(head.push(before[at]), tail);
        assert(head.push(entry).drop_last() =~= head);
        assert(head.push(before[at]).drop_last() =~= head);
        assert(before =~= head.push(before[at]) + tail);
        assert forall|i: int| 0 <= i < now.len() implies (save::is_wallhaven(#[trigger] now[i])
            <==> i == at) by {
            if i < at {
                assert(now[i] == head[i]);
            } else if i > at {
                assert(now[i] == others[i - at - 1]);
            }
        }
    } else {
        assert(head =~= before);
        assert(before.push(entry).drop_last() =~= before);
        assert forall|i: int| 0 <= i < now.len() implies (save::is_wallhaven(#[trigger] now[i])
            <==> i == at) by {
            if i < at {
                assert(now[i] == head[i]);
            }
        }
    }
}

proof fn lemma_log_levels(index: i32)
    ensures
        0 <= index <= 4 ==> form::log_level_choice(form::log_level_name(index)) == index,
{
    reveal_strlit("error");
    reveal_strlit("warn");
    reveal_strlit("info");
    reveal_strlit("debug");
    reveal_strlit("trace");
    assert("error"@[0] == 'e' && "debug"@[0] == 'd' && "trace"@[0] == 't');
    assert("warn"@[0] == 'w' && "info"@[0] == 'i');
}

proof fn lemma_sortings(index: i32)
    ensures
        0 <= index <= 5 ==> form::sorting_choice(Some(form::sorting_name(index))) == index,
{
    reveal_strlit("relevance");
    reveal_strlit("random");
    reveal_strlit("views");
    reveal_strlit("favorites");
    reveal_strlit("toplist");
    reveal_strlit("date_added");
    assert("relevance"@.len() == 9 && "random"@.len() == 6 && "views"@.len() == 5);
    assert("favorites"@.len() == 9 && "toplist"@.len() == 7 && "date_added"@.len() == 10);
    assert("relevance"@[0] == 'r' && "favorites"@[0] == 'f');
}

proof fn lemma_top_ranges(index: i32)
    ensures
        0 <= index <= 6 ==> form::top_range_choice(Some(form::top_range_name(index))) == index,
{
    reveal_strlit("1d");
    reveal_strlit("3d");
    reveal_strlit("1w");
    reveal_strlit("1M");
    reveal_strlit("3M");
    reveal_strlit("6M");
    reveal_strlit("1y");
    assert("1d"@[1] == 'd' && "1w"@[1] == 'w' && "1M"@[1] == 'M' && "1y"@[1] == 'y');
    assert("1d"@[0] == '1' && "3d"@[0] == '3' && "3d"@[1] == 'd' && "3M"@[1] == 'M');
    assert("1w"@[0] == '1' && "1M"@[0] == '1' && "3M"@[0] == '3' && "6M"@[0] == '6' && "1y"@[0]
        == '1');
}

proof fn lemma_resolutions(index: i32)
    ensures
        0 <= index <= 3 ==> form::atleast_choice(Some(form::atleast_name(index))) == index,
{
    reveal_strlit("1920x1080");
    reveal_strlit("2560x1440");
    reveal_strlit("3840x2160");
    reveal_strlit("");
    assert("1920x1080"@.len() == 9 && "2560x1440"@.len() == 9 && "3840x2160"@.len() == 9);
    assert(""@.len() == 0);
    assert("1920x1080"@[0] == '1' && "2560x1440"@[0] == '2' && "3840x2160"@[0] == '3');
}

/// Every choice of the form is the choice that its keyword reads back as.
pub proof fn law_choices_read_back(index: i32)
    ensures
        0 <= index <= 4 ==> form::log_level_choice(form::log_level_name(index)) == index,
        0 <= index <= 5 ==> form::sorting_choice(Some(form::sorting_name(index))) == index,
        0 <= index <= 6 ==> form::top_range_choice(Some(form::top_range_name(index))) == index,
        0 <= index <= 3 ==> form::atleast_choice(Some(form::atleast_name(index))) == index,
{
    lemma_log_levels(index);
    lemma_sortings(index);
    lemma_top_ranges(index);
    lemma_resolutions(index);
}

proof fn lemma_nonempty_kept(names: Seq<Seq<char>>)
    requires
        forall|i: int| 0 <= i < names.len() ==> (#[trigger] names[i]).len() > 0,
    ensures
        names.filter(|part: Seq<char>| part.len() > 0) == names,
    decreases names.len(),
{
    reveal(Seq::filter);
    if names.len() > 0 {
        let init = names.drop_last();
        assert forall|i: int| 0 <= i < init.len() implies (#[trigger] init[i]).len() > 0 by {
            assert(init[i] == names[i]);
        }
        lemma_nonempty_kept(init);
        assert(names[names.len() - 1].len() > 0);
        assert(init.push(names.last()) =~= names);
    } else {
        assert(names.filter(|part: Seq<char>| part.len() > 0) =~= names);
    }
}

proof fn lemma_chosen_words(
    first: bool,
    first_name: Seq<char>,
    second: bool,
    second_name: Seq<char>,
    third: bool,
    third_name: Seq<char>,
)
    requires
        first_name.len() > 0 && second_name.len() > 0 && third_name.len() > 0,
        forall|i: int| 0 <= i < first_name.len() ==> 'a' <= #[trigger] first_name[i] <= 'z',
        forall|i: int| 0 <= i < second_name.len() ==> 'a' <= #[trigger] second_name[i] <= 'z',
        forall|i: int| 0 <= i < third_name.len() ==> 'a' <= #[trigger] third_name[i] <= 'z',
        first_name != second_name && first_name != third_name && second_name != third_name,
    ensures
        ({
            let names = save::chosen(
                first,
                first_name,
                second,
                second_name,
                third,
                third_name,
            );
            let text = crate::text::joined(names, ","@);
            let read = form::list_names(
                if text.len() == 0 {
                    None
                } else {
                    Some(text)
                },
            );
            &&& read == names
            &&& read.contains(first_name) == first
            &&& read.contains(second_name) == second
            &&& read.contains(third_name) == third
        }),
{
    let names = save::chosen(first, first_name, second, second_name, third, third_name);
    crate::text::lemma_plain_word(first_name);
    crate::text::lemma_plain_word(second_name);
    crate::text::lemma_plain_word(third_name);
    reveal_strlit(",");
    assert(","@ =~= seq![',']);
    let text = crate::text::joined(names, ","@);
    if names.len() > 0 {
        crate::text::law_split_undoes_join(names, ',');
        assert(text.len() > 0) by {
            reveal_with_fuel(crate::text::joined, 3);
        }
        let lower = |part: Seq<char>| crate::text::ascii_lowered(crate::text::trimmed(part));
        assert(names.map_values(lower) =~= names);
        lemma_nonempty_kept(names);
    }
    if first {
        assert(names[0] == first_name);
    }
    if second {
        assert(names[if first { 1int } else { 0int }] == second_name);
    }
    if third {
        assert(names[names.len() - 1] == third_name);
    }
}

/// The stored category and purity lists read back as the ticks of the form.
pub proof fn law_stored_lists_read_back(form: WallhavenForm)
    ensures
        ({
            let categories = crate::text::joined(save::chosen_categories(form), ","@);
            let read = form::list_names(
                if categories.len() == 0 {
                    None
                } else {
                    Some(categories)
                },
            );
            &&& read.contains("general"@) == form.cat_general
            &&& read.contains("people"@) == form.cat_people
            &&& read.contains("anime"@) == form.cat_anime
        }),
        ({
            let purities = crate::text::joined(save::chosen_purities(form), ","@);
            let read = form::list_names(
                if purities.len() == 0 {
                    None
                } else {
                    Some(purities)
                },
            );
            &&& read.contains("sfw"@) == form.purity_sfw
            &&& read.contains("sketchy"@) == form.purity_sketchy
            &&& read.contains("nsfw"@) == form.purity_nsfw
        }),
{
    reveal_strlit("general");
    reveal_strlit("people");
    reveal_strlit("anime");
    reveal_strlit("sfw");
    reveal_strlit("sketchy");
    reveal_strlit("nsfw");
    lemma_chosen_words(
        form.cat_general,
        "general"@,
        form.cat_people,
        "people"@,
        form.cat_anime,
        "anime"@,
    );
    lemma_chosen_words(
        form.purity_sfw,
        "sfw"@,
        form.purity_sketchy,
        "sketchy"@,
        form.purity_nsfw,
        "nsfw"@,
    );
}

/// Storing what already stands at a place changes nothing.
proof fn lemma_edit_again(tree: Tree, edit: Edit)
    requires
        value_at(tree, edit.object, edit.key) == Some(edit.value),
    ensures
        with_key(tree, edit.object, edit.key, edit.value) == Ok::<Tree, Fault>(tree),
{
    let items = section(tree, edit.object)->Ok_0;
    document::lemma_put_same(items, edit.key);
    if edit.object.len() > 0 {
        document::lemma_position(Seq::<(Seq<char>, Tree)>::empty(), edit.key);
        document::lemma_put_same(tree->Object_0, edit.object);
    }
}

proof fn lemma_edits_again(tree: Tree, edits: Seq<Edit>)
    requires
        forall|i: int|
            0 <= i < edits.len() ==> value_at(tree, (#[trigger] edits[i]).object, edits[i].key)
                == Some(edits[i].value),
    ensures
        save::with_edits(tree, edits) == Ok::<Tree, Fault>(tree),
    decreases edits.len(),
{
    if edits.len() > 0 {
        let init = edits.drop_last();
        assert forall|i: int| 0 <= i < init.len() implies value_at(
            tree,
            (#[trigger] init[i]).object,
            init[i].key,
        ) == Some(init[i].value) by {
            assert(init[i] == edits[i]);
        }
        lemma_edits_again(tree, init);
        assert(edits[edits.len() - 1] == edits.last());
        lemma_edit_again(tree, edits.last());
    }
}

/// Removing an absent key changes nothing.
proof fn lemma_without_absent(items: Seq<(Seq<char>, Tree)>, key: Seq<char>)
    requires
        !document::has_key(items, key),
    ensures
        document::without(items, key) == items,
    decreases items.len(),
{
    reveal(Seq::filter);
    document::lemma_position(items, key);
    if items.len() > 0 {
        let init = items.drop_last();
        assert forall|i: int| 0 <= i < init.len() implies (#[trigger] init[i]).0 != key by {
            assert(init[i] == items[i]);
        }
        document::lemma_position_is(init, key, init.len() as int);
        lemma_without_absent(init, key);
        assert(items[items.len() - 1].0 != key);
        assert(init.push(items.last()) =~= items);
    } else {
        assert(document::without(items, key) =~= items);
    }
}

proof fn lemma_put_text_again(items: Seq<(Seq<char>, Tree)>, key: Seq<char>, text: Seq<char>)
    requires
        document::lookup(items, key) == stored_text(text),
    ensures
        save::put_text(items, key, text) == items,
{
    if text.len() == 0 {
        lemma_without_absent(items, key);
    } else {
        document::lemma_put_same(items, key);
    }
}

/// Writing a Wallhaven source twice is writing it once.
proof fn lemma_entry_again(items: Seq<(Seq<char>, Tree)>, form: WallhavenForm)
    ensures
        save::wallhaven_entry(save::wallhaven_entry(items, form), form) == save::wallhaven_entry(
            items,
            form,
        ),
{
    let entry = save::wallhaven_entry(items, form);
    assert forall|key: Seq<char>|
        #[trigger] document::lookup(entry, key) == wallhaven_value(items, form, key) by {
        law_wallhaven_entry_values(items, form, key);
    }
    lemma_wallhaven_names();
    document::lemma_put_same(entry, "type"@);
    lemma_put_text_again(entry, "query"@, crate::text::trimmed(form.query@));
    lemma_put_text_again(
        entry,
        "categories"@,
        crate::text::joined(save::chosen_categories(form), ","@),
    );
    lemma_put_text_again(
        entry,
        "purity"@,
        crate::text::joined(save::chosen_purities(form), ","@),
    );
    document::lemma_put_same(entry, "sorting"@);
    lemma_put_text_again(entry, "topRange"@, save::stored_top_range(form));
    lemma_put_text_again(entry, "atleast"@, form::atleast_name(form.atleast_index));
    document::lemma_put_same(entry, "maxItems"@);
    lemma_put_text_again(entry, "apiKey"@, crate::text::trimmed(form.api_key@));
}

proof fn lemma_first_wallhaven_is(sources: Seq<Tree>, at: int)
    requires
        0 <= at <= sources.len(),
        at < sources.len() ==> save::is_wallhaven(sources[at]),
        forall|i: int| 0 <= i < at ==> !save::is_wallhaven(#[trigger] sources[i]),
    ensures
        save::first_wallhaven(sources) == at,
{
    lemma_first_wallhaven(sources);
    let first = save::first_wallhaven(sources);
    if first < at {
        assert(!save::is_wallhaven(sources[first]));
    } else if at < first {
        assert(!save::is_wallhaven(sources[at]));
    }
}

proof fn lemma_sources_again(sources: Seq<Tree>, form: WallhavenForm)
    ensures
        save::synced_sources(save::synced_sources(sources, form), form) == save::synced_sources(
            sources,
            form,
        ),
{
    let now = save::synced_sources(sources, form);
    lemma_other_sources(sources);
    lemma_other_sources(save::other_sources(sources));
    if form.enabled {
        let at = save::first_wallhaven(sources);
        lemma_first_wallhaven(sources);
        let old_items = if at < sources.len() { sources[at]->Object_0 } else { Seq::empty() };
        let entry = Tree::Object(save::wallhaven_entry(old_items, form));
        law_wallhaven_entry_values(old_items, form, "type"@);
        lemma_entry_again(old_items, form);
        assert(now[at] == entry);
        assert forall|i: int| 0 <= i < at implies !save::is_wallhaven(#[trigger] now[i]) by {
            assert(now[i] == sources[i]);
        }
        lemma_first_wallhaven_is(now, at);
        let tail = now.skip(at + 1);
        if at < sources.len() {
            let others = save::other_sources(sources.skip(at + 1));
            lemma_other_sources(sources.skip(at + 1));
            lemma_other_sources(others);
            assert(tail =~= others);
        } else {
            assert(tail =~= Seq::<Tree>::empty());
            lemma_other_sources(tail);
        }
        assert(save::synced_sources(now, form) =~= now);
    }
}

/// Saving the same form a second time changes nothing.
pub proof fn law_saving_twice_is_saving_once(tree: Tree, form: SettingsForm, after: Tree)
    requires
        save::saved_tree(tree, form) == Ok::<Tree, Fault>(after),
    ensures
        save::saved_tree(after, form) == Ok::<Tree, Fault>(after),
{
    lemma_names();
    let edits = save::form_edits(form);
    assert forall|i: int| 0 <= i < edits.len() implies value_at(
        after,
        (#[trigger] edits[i]).object,
        edits[i].key,
    ) == Some(edits[i].value) by {
        law_form_values_are_stored(tree, form, after, i);
    }
    lemma_edits_again(after, edits);
    law_empty_proxy_removes_the_key(tree, form, after);
    assert(edits[0].object =~= Seq::<char>::empty());
    assert(value_at(after, edits[0].object, edits[0].key) is Some);
    let items = after->Object_0;
    document::lemma_put_same(items, "proxy"@);
    if crate::text::trimmed(form.proxy_url@).len() == 0 {
        lemma_without_absent(items, "proxy"@);
    }
    assert(save::with_proxy(after, form.proxy_url@) == Ok::<Tree, Fault>(after));
    lemma_saved_sources(tree, form, after);
    lemma_sources_again(sources_of(tree), form.wallhaven);
    assert(edits[1].object == "image"@);
    assert(value_at(after, edits[1].object, edits[1].key) is Some);
    let image = section(after, "image"@)->Ok_0;
    document::lemma_position(Seq::<(Seq<char>, Tree)>::empty(), "timer"@);
    document::lemma_put_same(items, "image"@);
    document::lemma_put_same(image, "sources"@);
    lemma_sources_present(tree, form, after);
}

/// After saving, the sources are an array, or absent where the form has none to add.
proof fn lemma_sources_present(tree: Tree, form: SettingsForm, after: Tree)
    requires
        save::saved_tree(tree, form) == Ok::<Tree, Fault>(after),
    ensures
        match value_at(after, "image"@, "sources"@) {
            None => !form.wallhaven.enabled,
            Some(value) => value is Array,
        },
{
    lemma_names();
    let edits = save::form_edits(form);
    let edited = save::with_edits(tree, edits)->Ok_0;
    let proxied = save::with_proxy(edited, form.proxy_url@)->Ok_0;
    let image = section(proxied, "image"@)->Ok_0;
    let synced = save::synced_image(image, form.wallhaven)->Ok_0;
    lemma_with_section(proxied, "image"@, synced, "image"@);
    assert forall|value: Tree|
        document::lookup(#[trigger] document::put(image, "sources"@, value), "sources"@) == Some(
            value,
        ) by {
        document::law_put_then_lookup(image, "sources"@, value, "sources"@);
    }
}

/// A saved text reads back as the saved document, with the values of the form in it and every
/// unknown key as it was, wherever the saved document can be read back.
pub proof fn law_saved_text_reads_back(
    text: Seq<char>,
    form: SettingsForm,
    saved: Seq<char>,
    object: Seq<char>,
    key: Seq<char>,
)
    requires
        save::saved_text(text, form) == Ok::<Seq<char>, Fault>(saved),
        save::reads_back(text, form, saved),
        document::readable(save::saved_tree(document::parsed_hcl(text)->Ok_0, form)->Ok_0),
        kept_place(object, key),
    ensures
        document::parsed_hcl(saved) is Ok,
        value_at(document::parsed_hcl(saved)->Ok_0, object, key) == value_at(
            document::parsed_hcl(text)->Ok_0,
            object,
            key,
        ),
        forall|i: int|
            0 <= i < save::form_edits(form).len() ==> ({
                let edit = #[trigger] save::form_edits(form)[i];
                value_at(document::parsed_hcl(saved)->Ok_0, edit.object, edit.key) == Some(
                    edit.value,
                )
            }),
{
    let tree = document::parsed_hcl(text)->Ok_0;
    let after = save::saved_tree(tree, form)->Ok_0;
    law_unknown_keys_survive(tree, form, after, object, key);
    assert forall|i: int| 0 <= i < save::form_edits(form).len() implies ({
        let edit = #[trigger] save::form_edits(form)[i];
        value_at(after, edit.object, edit.key) == Some(edit.value)
    }) by {
        law_form_values_are_stored(tree, form, after, i);
    }
}

/// The lists that the form stores reach the Wallhaven search as the flags of its ticks.
pub proof fn law_stored_lists_become_flags(form: WallhavenForm)
    ensures
        form.cat_general || form.cat_people || form.cat_anime
            ==> crate::sources::wallhaven::normalized_flags(
            crate::text::joined(save::chosen_categories(form), ","@),
            crate::sources::wallhaven::category_names(),
            true,
        ) == seq![
            crate::sources::wallhaven::flag_char(form.cat_general),
            crate::sources::wallhaven::flag_char(form.cat_people),
            crate::sources::wallhaven::flag_char(form.cat_anime),
        ],
        form.purity_sfw || form.purity_sketchy || form.purity_nsfw
            ==> crate::sources::wallhaven::normalized_flags(
            crate::text::joined(save::chosen_purities(form), ","@),
            crate::sources::wallhaven::purity_names(),
            false,
        ) == seq![
            crate::sources::wallhaven::flag_char(form.purity_sfw),
            crate::sources::wallhaven::flag_char(form.purity_sketchy),
            crate::sources::wallhaven::flag_char(form.purity_nsfw),
        ],
{
    reveal_strlit("general");
    reveal_strlit("people");
    reveal_strlit("anime");
    reveal_strlit("sfw");
    reveal_strlit("sketchy");
    reveal_strlit("nsfw");
    if form.cat_general || form.cat_people || form.cat_anime {
        lemma_words_become_flags(
            form.cat_general,
            "general"@,
            form.cat_people,
            "people"@,
            form.cat_anime,
            "anime"@,
            true,
        );
    }
    if form.purity_sfw || form.purity_sketchy || form.purity_nsfw {
        lemma_words_become_flags(
            form.purity_sfw,
            "sfw"@,
            form.purity_sketchy,
            "sketchy"@,
            form.purity_nsfw,
            "nsfw"@,
            false,
        );
    }
}

pub proof fn lemma_words_become_flags(
    first: bool,
    first_name: Seq<char>,
    second: bool,
    second_name: Seq<char>,
    third: bool,
    third_name: Seq<char>,
    default_all: bool,
)
    requires
        first || second || third,
        first_name.len() > 0 && second_name.len() > 0 && third_name.len() > 0,
        forall|i: int| 0 <= i < first_name.len() ==> 'a' <= #[trigger] first_name[i] <= 'z',
        forall|i: int| 0 <= i < second_name.len() ==> 'a' <= #[trigger] second_name[i] <= 'z',
        forall|i: int| 0 <= i < third_name.len() ==> 'a' <= #[trigger] third_name[i] <= 'z',
        first_name != second_name && first_name != third_name && second_name != third_name,
    ensures
        crate::sources::wallhaven::normalized_flags(
            crate::text::joined(
                save::chosen(first, first_name, second, second_name, third, third_name),
                ","@,
            ),
            seq![first_name, second_name, third_name],
            default_all,
        ) == seq![
            crate::sources::wallhaven::flag_char(first),
            crate::sources::wallhaven::flag_char(second),
            crate::sources::wallhaven::flag_char(third),
        ],
{
    let names = save::chosen(first, first_name, second, second_name, third, third_name);
    let text = crate::text::joined(names, ","@);
    let known = seq![first_name, second_name, third_name];
    lemma_chosen_words(first, first_name, second, second_name, third, third_name);
    crate::text::lemma_plain_word(first_name);
    crate::text::lemma_plain_word(second_name);
    crate::text::lemma_plain_word(third_name);
    reveal_strlit(",");
    assert(","@ =~= seq![',']);
    lemma_joined_words(names);
    crate::text::law_split_undoes_join(names, ',');
    let trim = |part: Seq<char>| crate::text::trimmed(part);
    assert(names.map_values(trim) =~= names);
    assert(crate::sources::wallhaven::flag_names(text) == names);
    assert(known[0] == first_name && known[1] == second_name && known[2] == third_name);
}

/// Joined words start and end with a letter, and are in lower case.
proof fn lemma_joined_words(names: Seq<Seq<char>>)
    requires
        names.len() > 0,
        forall|i: int| 0 <= i < names.len() ==> (#[trigger] names[i]).len() > 0,
        forall|i: int, j: int|
            0 <= i < names.len() && 0 <= j < names[i].len() ==> 'a' <= #[trigger] names[i][j]
                <= 'z',
    ensures
        ({
            let text = crate::text::joined(names, seq![',']);
            &&& crate::text::trimmed(text) == text
            &&& crate::text::ascii_lowered(text) == text
            &&& !crate::sources::wallhaven::is_flags(text)
        }),
{
    lemma_joined_letters(names);
    let text = crate::text::joined(names, seq![',']);
    assert('a' <= text[0] <= 'z');
    assert('a' <= text[text.len() - 1] <= 'z');
    assert(crate::text::ascii_lowered(text) =~= text);
}

proof fn lemma_joined_letters(names: Seq<Seq<char>>)
    requires
        names.len() > 0,
        forall|i: int| 0 <= i < names.len() ==> (#[trigger] names[i]).len() > 0,
        forall|i: int, j: int|
            0 <= i < names.len() && 0 <= j < names[i].len() ==> 'a' <= #[trigger] names[i][j]
                <= 'z',
    ensures
        ({
            let text = crate::text::joined(names, seq![',']);
            &&& text.len() > 0
            &&& 'a' <= text[0] <= 'z'
            &&& 'a' <= text.last() <= 'z'
            &&& forall|i: int|
                0 <= i < text.len() ==> 'a' <= #[trigger] text[i] <= 'z' || text[i] == ','
        }),
    decreases names.len(),
{
    let text = crate::text::joined(names, seq![',']);
    if names.len() > 1 {
        let init = names.drop_last();
        assert forall|i: int, j: int|
            0 <= i < init.len() && 0 <= j < init[i].len() implies 'a' <= #[trigger] init[i][j]
            <= 'z' by {
            assert(names[i][j] == init[i][j]);
        }
        assert forall|i: int| 0 <= i < init.len() implies (#[trigger] init[i]).len() > 0 by {
            assert(names[i] == init[i]);
        }
        lemma_joined_letters(init);
        let head = crate::text::joined(init, seq![',']);
        let last = names.last();
        assert(last == names[names.len() - 1]);
        assert(text =~= head + seq![','] + last);
        assert forall|i: int| 0 <= i < text.len() implies 'a' <= #[trigger] text[i] <= 'z'
            || text[i] == ',' by {
            if i < head.len() {
                assert(text[i] == head[i]);
            } else if i > head.len() {
                assert(text[i] == names[names.len() - 1][i - head.len() - 1]);
            }
        }
        assert(text[0] == head[0]);
        assert(text.last() == names[names.len() - 1][last.len() - 1]);
    } else {
        assert(text == names[0]);
        assert forall|i: int| 0 <= i < text.len() implies 'a' <= #[trigger] text[i] <= 'z'
            || text[i] == ',' by {
            assert(text[i] == names[0][i]);
        }
        assert(text[0] == names[0][0]);
        assert(text.last() == names[0][names[0].len() - 1]);
    }
}

/// Saving a form that shows a configuration, untouched, stores the values of the configuration.
/// (Times beyond the largest number of the form are cut to it, and an unknown log level becomes
/// `info`.)
pub proof fn law_untouched_form_stores_the_configuration(
    tree: Tree,
    blank: SettingsForm,
    form: SettingsForm,
    config: crate::config::AuraConfig,
    after: Tree,
)
    requires
        form::shows_config(form, blank, config),
        save::saved_tree(tree, form) == Ok::<Tree, Fault>(after),
    ensures
        value_at(after, Seq::empty(), "renderer"@) == Some(
            Tree::Text(
                if config.renderer is Shader {
                    "shader"@
                } else {
                    "image"@
                },
            ),
        ),
        config.image.timer <= i32::MAX ==> value_at(after, "image"@, "timer"@) == Some(
            Tree::Int(config.image.timer as int),
        ),
        config.image.remote_update_timer <= i32::MAX ==> value_at(
            after,
            "image"@,
            "remoteUpdateTimer"@,
        ) == Some(Tree::Int(config.image.remote_update_timer as int)),
        value_at(after, "image"@, "format"@) == Some(
            Tree::Text(
                if config.image.format is Jpg {
                    "jpg"@
                } else {
                    "png"@
                },
            ),
        ),
        value_at(after, "image"@, "jpeg_quality"@) == Some(
            Tree::Int(config.image.jpeg_quality as int),
        ),
        value_at(after, "updater"@, "enabled"@) == Some(Tree::Bool(config.updater.enabled)),
        config.updater.check_interval <= i32::MAX ==> value_at(
            after,
            "updater"@,
            "checkInterval"@,
        ) == Some(Tree::Int(config.updater.check_interval as int)),
        value_at(after, "updater"@, "feedUrl"@) == Some(Tree::Text(config.updater.feed_url@)),
        config.shader matches Some(shader) ==> {
            &&& value_at(after, "shader"@, "name"@) == Some(Tree::Text(shader.name@))
            &&& shader.target_fps <= i32::MAX ==> value_at(after, "shader"@, "target_fps"@) == Some(
                Tree::Int(shader.target_fps as int),
            )
            &&& shader.resolution <= i32::MAX ==> value_at(after, "shader"@, "resolution"@) == Some(
                Tree::Int(shader.resolution as int),
            )
            &&& value_at(after, "shader"@, "mouse_enabled"@) == Some(
                Tree::Bool(shader.mouse_enabled),
            )
            &&& value_at(after, "shader"@, "desktop_scope"@) == Some(
                Tree::Text(
                    if shader.desktop_scope is Primary {
                        "primary"@
                    } else {
                        "virtual"@
                    },
                ),
            )
            &&& value_at(after, "shader"@, "color_space"@) == Some(
                Tree::Text(
                    if shader.color_space is Srgb {
                        "srgb"@
                    } else {
                        "unorm"@
                    },
                ),
            )
        },
        known_log_level(config.log_level@) ==> value_at(after, Seq::empty(), "log_level"@) == Some(
            Tree::Text(config.log_level@),
        ),
{
    lemma_names();
    let edits = save::form_edits(form);
    assert(edits[0].object =~= Seq::<char>::empty());
    assert(edits[14].object =~= Seq::<char>::empty());
    law_form_values_are_stored(tree, form, after, 0);
    law_form_values_are_stored(tree, form, after, 1);
    law_form_values_are_stored(tree, form, after, 2);
    law_form_values_are_stored(tree, form, after, 3);
    law_form_values_are_stored(tree, form, after, 4);
    law_form_values_are_stored(tree, form, after, 5);
    law_form_values_are_stored(tree, form, after, 6);
    law_form_values_are_stored(tree, form, after, 7);
    law_form_values_are_stored(tree, form, after, 8);
    law_form_values_are_stored(tree, form, after, 9);
    law_form_values_are_stored(tree, form, after, 10);
    law_form_values_are_stored(tree, form, after, 11);
    law_form_values_are_stored(tree, form, after, 12);
    law_form_values_are_stored(tree, form, after, 13);
    law_form_values_are_stored(tree, form, after, 14);
}

/// The log levels that the form knows.
pub open spec fn known_log_level(level: Seq<char>) -> bool {
    level == "error"@ || level == "warn"@ || level == "info"@ || level == "debug"@ || level
        == "trace"@
}

/// The text under a key.
pub open spec fn text_under(items: Seq<(Seq<char>, Tree)>, key: Seq<char>) -> Option<Seq<char>> {
    match document::lookup(items, key) {
        Some(Tree::Text(text)) => Some(text),
        _ => None,
    }
}

/// Whether a configured source has the values that a source entry holds.
pub open spec fn has_values_of(
    source: crate::config::SourceConfig,
    items: Seq<(Seq<char>, Tree)>,
) -> bool {
    source matches crate::config::SourceConfig::Wallhaven {
        query,
        categories,
        purity,
        sorting,
        top_range,
        atleast,
        max_items,
        api_key,
    } && {
        &&& crate::text::opt_text(query) == text_under(items, "query"@)
        &&& crate::text::opt_text(categories) == text_under(items, "categories"@)
        &&& crate::text::opt_text(purity) == text_under(items, "purity"@)
        &&& crate::text::opt_text(sorting) == text_under(items, "sorting"@)
        &&& crate::text::opt_text(top_range) == text_under(items, "topRange"@)
        &&& crate::text::opt_text(atleast) == text_under(items, "atleast"@)
        &&& document::lookup(items, "maxItems"@) == Some(Tree::Int(max_items as int))
        &&& crate::text::opt_text(api_key) == text_under(items, "apiKey"@)
    }
}

/// A form that shows a source with the values of a saved entry shows what was saved: the same
/// ticks and choices, and the texts without white space around them. The range of the top list is
/// saved for the top list only, and shown as one month otherwise. (A choice that is not in its
/// list is saved as the default one, a limit outside of 1 to 1000 as the nearest.)
pub proof fn law_saved_wallhaven_shows_the_same_form(
    items: Seq<(Seq<char>, Tree)>,
    form: WallhavenForm,
    source: crate::config::SourceConfig,
    shown: WallhavenForm,
)
    requires
        has_values_of(source, save::wallhaven_entry(items, form)),
        form::shows_wallhaven(shown, seq![source]),
        0 <= form.sorting_index <= 5,
        0 <= form.top_range_index <= 6,
        0 <= form.atleast_index <= 3,
        1 <= form.max_items <= 1000,
    ensures
        shown.enabled,
        shown.query@ == crate::text::trimmed(form.query@),
        shown.cat_general == form.cat_general,
        shown.cat_people == form.cat_people,
        shown.cat_anime == form.cat_anime,
        shown.purity_sfw == form.purity_sfw,
        shown.purity_sketchy == form.purity_sketchy,
        shown.purity_nsfw == form.purity_nsfw,
        shown.sorting_index == form.sorting_index,
        shown.top_range_index == if form.sorting_index == 5 {
            form.top_range_index
        } else {
            3
        },
        shown.atleast_index == form.atleast_index,
        shown.max_items == form.max_items,
        shown.api_key@ == crate::text::trimmed(form.api_key@),
{
    lemma_wallhaven_names();
    law_wallhaven_entry_values(items, form, "query"@);
    law_wallhaven_entry_values(items, form, "categories"@);
    law_wallhaven_entry_values(items, form, "purity"@);
    law_wallhaven_entry_values(items, form, "sorting"@);
    law_wallhaven_entry_values(items, form, "topRange"@);
    law_wallhaven_entry_values(items, form, "atleast"@);
    law_wallhaven_entry_values(items, form, "maxItems"@);
    law_wallhaven_entry_values(items, form, "apiKey"@);
    law_stored_lists_read_back(form);
    lemma_sortings(form.sorting_index);
    lemma_sortings(5);
    assert(form.sorting_index != 5 ==> save::stored_top_range(form).len() == 0);
    lemma_top_ranges(form.top_range_index);
    lemma_resolutions(form.atleast_index);
    assert(form::first_wallhaven(seq![source]) == Some(source));
    assert(form::top_range_name(form.top_range_index).len() > 0) by {
        reveal_strlit("1d");
        reveal_strlit("3d");
        reveal_strlit("1w");
        reveal_strlit("1M");
        reveal_strlit("3M");
        reveal_strlit("6M");
        reveal_strlit("1y");
    }
    assert(form::atleast_name(form.atleast_index).len() == 0 <==> form.atleast_index == 0) by {
        reveal_strlit("1920x1080");
        reveal_strlit("2560x1440");
        reveal_strlit("3840x2160");
        reveal_strlit("");
    }
    let query = crate::text::trimmed(form.query@);
    let api_key = crate::text::trimmed(form.api_key@);
    assert(query.len() == 0 ==> query =~= Seq::<char>::empty());
    assert(api_key.len() == 0 ==> api_key =~= Seq::<char>::empty());
}

} // verus!
