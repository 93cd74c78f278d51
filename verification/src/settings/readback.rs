//! Which documents still read back after the form was saved to them.

use crate::settings::document::{self, escapable, readable, readable_value, Tree, MAX_LEVELS};
use crate::settings::form::{self, SettingsForm, WallhavenForm};
use crate::settings::save::{self, Edit};
use crate::settings::{laws, section, with_section, Fault};
use vstd::prelude::*;

verus! {

/// Whether the texts of the form read back as they were written.
pub open spec fn escapable_form(form: SettingsForm) -> bool {
    &&& escapable(form.shader_name@)
    &&& escapable(form.feed_url@)
    &&& escapable(crate::text::trimmed(form.proxy_url@))
    &&& escapable_search(form.wallhaven)
}

/// Whether the texts of the Wallhaven part of the form read back as they were written.
pub open spec fn escapable_search(form: WallhavenForm) -> bool {
    escapable(crate::text::trimmed(form.query@)) && escapable(crate::text::trimmed(form.api_key@))
}

pub open spec fn brace_free(s: Seq<char>) -> bool {
    crate::text::free_of(s, '{')
}

/// A text without an opening brace has no marker.
proof fn lemma_brace_free(s: Seq<char>)
    requires
        brace_free(s),
    ensures
        escapable(s),
{
    assert forall|i: int| #[trigger] document::marker_at(s, i) implies document::run_length(s, i)
        % 2 == 1 || (forall|j: int| 0 <= j < i ==> !document::marker_at(s, j)) by {
        assert(s[i + 1] != '{');
    }
}

proof fn lemma_joined_brace_free(parts: Seq<Seq<char>>, separator: Seq<char>)
    requires
        brace_free(separator),
        forall|i: int| 0 <= i < parts.len() ==> brace_free(#[trigger] parts[i]),
    ensures
        brace_free(crate::text::joined(parts, separator)),
    decreases parts.len(),
{
    if parts.len() == 1 {
        assert(brace_free(parts[0]));
    } else if parts.len() > 1 {
        let init = parts.drop_last();
        assert forall|i: int| 0 <= i < init.len() implies brace_free(#[trigger] init[i]) by {
            assert(init[i] == parts[i]);
        }
        lemma_joined_brace_free(init, separator);
        assert(brace_free(parts[parts.len() - 1]));
    }
}

/// The keys that the form fills read back as they were written.
proof fn lemma_keys_escapable()
    ensures
        escapable("timer"@),
        escapable("remoteUpdateTimer"@),
        escapable("format"@),
        escapable("jpeg_quality"@),
        escapable("name"@),
        escapable("target_fps"@),
        escapable("resolution"@),
        escapable("mouse_enabled"@),
        escapable("desktop_scope"@),
        escapable("color_space"@),
        escapable("enabled"@),
        escapable("checkInterval"@),
        escapable("feedUrl"@),
        escapable("sources"@),
{
    reveal_strlit("timer");
    lemma_brace_free("timer"@);
    reveal_strlit("remoteUpdateTimer");
    lemma_brace_free("remoteUpdateTimer"@);
    reveal_strlit("format");
    lemma_brace_free("format"@);
    reveal_strlit("jpeg_quality");
    lemma_brace_free("jpeg_quality"@);
    reveal_strlit("name");
    lemma_brace_free("name"@);
    reveal_strlit("target_fps");
    lemma_brace_free("target_fps"@);
    reveal_strlit("resolution");
    lemma_brace_free("resolution"@);
    reveal_strlit("mouse_enabled");
    lemma_brace_free("mouse_enabled"@);
    reveal_strlit("desktop_scope");
    lemma_brace_free("desktop_scope"@);
    reveal_strlit("color_space");
    lemma_brace_free("color_space"@);
    reveal_strlit("enabled");
    lemma_brace_free("enabled"@);
    reveal_strlit("checkInterval");
    lemma_brace_free("checkInterval"@);
    reveal_strlit("feedUrl");
    lemma_brace_free("feedUrl"@);
    reveal_strlit("sources");
    lemma_brace_free("sources"@);
}

/// The keys of a Wallhaven source read back as they were written.
proof fn lemma_source_keys_escapable()
    ensures
        escapable("type"@),
        escapable("wallhaven"@),
        escapable("query"@),
        escapable("categories"@),
        escapable("purity"@),
        escapable("sorting"@),
        escapable("topRange"@),
        escapable("atleast"@),
        escapable("maxItems"@),
        escapable("apiKey"@),
{
    reveal_strlit("type");
    lemma_brace_free("type"@);
    reveal_strlit("wallhaven");
    lemma_brace_free("wallhaven"@);
    reveal_strlit("query");
    lemma_brace_free("query"@);
    reveal_strlit("categories");
    lemma_brace_free("categories"@);
    reveal_strlit("purity");
    lemma_brace_free("purity"@);
    reveal_strlit("sorting");
    lemma_brace_free("sorting"@);
    reveal_strlit("topRange");
    lemma_brace_free("topRange"@);
    reveal_strlit("atleast");
    lemma_brace_free("atleast"@);
    reveal_strlit("maxItems");
    lemma_brace_free("maxItems"@);
    reveal_strlit("apiKey");
    lemma_brace_free("apiKey"@);
}

/// The keywords of the choices read back as they were written.
proof fn lemma_choices_escapable(index: i32)
    ensures
        escapable(form::renderer_name(index)),
        escapable(form::format_name(index)),
        escapable(form::scope_name(index)),
        escapable(form::color_space_name(index)),
        escapable(form::log_level_name(index)),
{
    reveal_strlit("shader");
    reveal_strlit("image");
    lemma_brace_free(form::renderer_name(index));
    reveal_strlit("jpg");
    reveal_strlit("png");
    lemma_brace_free(form::format_name(index));
    reveal_strlit("primary");
    reveal_strlit("virtual");
    lemma_brace_free(form::scope_name(index));
    reveal_strlit("srgb");
    reveal_strlit("unorm");
    lemma_brace_free(form::color_space_name(index));
    reveal_strlit("error");
    reveal_strlit("warn");
    reveal_strlit("debug");
    reveal_strlit("trace");
    reveal_strlit("info");
    lemma_brace_free(form::log_level_name(index));
}

/// The keywords of the search choices read back as they were written.
proof fn lemma_search_choices_escapable(form: WallhavenForm)
    ensures
        escapable(crate::text::joined(save::chosen_categories(form), ","@)),
        escapable(crate::text::joined(save::chosen_purities(form), ","@)),
        escapable(form::sorting_name(form.sorting_index)),
        escapable(save::stored_top_range(form)),
        escapable(form::atleast_name(form.atleast_index)),
{
    reveal_strlit("relevance");
    reveal_strlit("random");
    reveal_strlit("views");
    reveal_strlit("favorites");
    reveal_strlit("toplist");
    reveal_strlit("date_added");
    lemma_brace_free(form::sorting_name(form.sorting_index));
    reveal_strlit("1d");
    reveal_strlit("3d");
    reveal_strlit("1w");
    reveal_strlit("3M");
    reveal_strlit("6M");
    reveal_strlit("1y");
    reveal_strlit("1M");
    lemma_brace_free(save::stored_top_range(form));
    reveal_strlit("1920x1080");
    reveal_strlit("2560x1440");
    reveal_strlit("3840x2160");
    reveal_strlit("");
    lemma_brace_free(form::atleast_name(form.atleast_index));
    reveal_strlit(",");
    reveal_strlit("general");
    reveal_strlit("people");
    reveal_strlit("anime");
    assert(brace_free("general"@) && brace_free("people"@) && brace_free("anime"@));
    lemma_joined_brace_free(save::chosen_categories(form), ","@);
    lemma_brace_free(crate::text::joined(save::chosen_categories(form), ","@));
    reveal_strlit("sfw");
    reveal_strlit("sketchy");
    reveal_strlit("nsfw");
    assert(brace_free("sfw"@) && brace_free("sketchy"@) && brace_free("nsfw"@));
    lemma_joined_brace_free(save::chosen_purities(form), ","@);
    lemma_brace_free(crate::text::joined(save::chosen_purities(form), ","@));
}

/// Whether the keys and values of an object read back, the values at most `levels` deep.
pub open spec fn readable_items(items: Seq<(Seq<char>, Tree)>, levels: nat) -> bool {
    forall|i: int|
        0 <= i < items.len() ==> escapable((#[trigger] items[i]).0) && readable_value(
            items[i].1,
            levels,
        )
}

/// Whether the values at the top of a document read back.
pub open spec fn readable_tops(items: Seq<(Seq<char>, Tree)>) -> bool {
    forall|i: int|
        0 <= i < items.len() ==> readable_value((#[trigger] items[i]).1, MAX_LEVELS as nat)
}

proof fn lemma_readable_object(items: Seq<(Seq<char>, Tree)>, levels: nat)
    requires
        levels > 0,
    ensures
        readable_value(Tree::Object(items), levels) <==> readable_items(
            items,
            (levels - 1) as nat,
        ),
{
    let below = (levels - 1) as nat;
    if readable_items(items, below) {
        assert(readable_value(Tree::Object(items), levels));
    }
    if readable_value(Tree::Object(items), levels) {
        assert forall|i: int| 0 <= i < items.len() implies escapable((#[trigger] items[i]).0)
            && readable_value(items[i].1, below) by {}
    }
}

proof fn lemma_readable_put(
    items: Seq<(Seq<char>, Tree)>,
    key: Seq<char>,
    value: Tree,
    levels: nat,
)
    requires
        readable_items(items, levels),
        escapable(key),
        readable_value(value, levels),
    ensures
        readable_items(document::put(items, key, value), levels),
{
    document::lemma_position(items, key);
    let after = document::put(items, key, value);
    assert forall|i: int| 0 <= i < after.len() implies escapable((#[trigger] after[i]).0)
        && readable_value(after[i].1, levels) by {
        if i < items.len() && i != document::position(items, key) {
            assert(after[i] == items[i]);
        }
    }
}

proof fn lemma_readable_tops_put(items: Seq<(Seq<char>, Tree)>, key: Seq<char>, value: Tree)
    requires
        readable_tops(items),
        readable_value(value, MAX_LEVELS as nat),
    ensures
        readable_tops(document::put(items, key, value)),
{
    document::lemma_position(items, key);
    let after = document::put(items, key, value);
    assert forall|i: int| 0 <= i < after.len() implies readable_value(
        (#[trigger] after[i]).1,
        MAX_LEVELS as nat,
    ) by {
        if i < items.len() && i != document::position(items, key) {
            assert(after[i] == items[i]);
        }
    }
}

/// Taking a key out leaves only items that were there.
proof fn lemma_without(items: Seq<(Seq<char>, Tree)>, key: Seq<char>, levels: nat)
    ensures
        readable_items(items, levels) ==> readable_items(document::without(items, key), levels),
        readable_tops(items) ==> readable_tops(document::without(items, key)),
    decreases items.len(),
{
    reveal(Seq::filter);
    if items.len() > 0 {
        let init = items.drop_last();
        let last = items.last();
        lemma_without(init, key, levels);
        let kept = document::without(init, key);
        let keep = |item: (Seq<char>, Tree)| item.0 != key;
        assert(document::without(items, key) == if keep(last) {
            kept.push(last)
        } else {
            kept
        });
        assert(items[items.len() - 1] == last);
        if readable_items(items, levels) {
            assert forall|i: int| 0 <= i < init.len() implies escapable((#[trigger] init[i]).0)
                && readable_value(init[i].1, levels) by {
                assert(init[i] == items[i]);
            }
        }
        if readable_tops(items) {
            assert forall|i: int| 0 <= i < init.len() implies readable_value(
                (#[trigger] init[i]).1,
                MAX_LEVELS as nat,
            ) by {
                assert(init[i] == items[i]);
            }
        }
    }
}

proof fn lemma_readable_put_text(
    items: Seq<(Seq<char>, Tree)>,
    key: Seq<char>,
    text: Seq<char>,
    levels: nat,
)
    requires
        readable_items(items, levels),
        escapable(key),
        escapable(text),
    ensures
        readable_items(save::put_text(items, key, text), levels),
{
    lemma_without(items, key, levels);
    lemma_readable_put(items, key, Tree::Text(text), levels);
}

/// A source entry still reads back after the form was written to it.
proof fn lemma_entry_stays_readable(
    items: Seq<(Seq<char>, Tree)>,
    form: WallhavenForm,
    levels: nat,
)
    requires
        readable_items(items, levels),
        escapable_search(form),
    ensures
        readable_items(save::wallhaven_entry(items, form), levels),
{
    lemma_source_keys_escapable();
    lemma_search_choices_escapable(form);
    let typed = document::put(items, "type"@, Tree::Text("wallhaven"@));
    lemma_readable_put(items, "type"@, Tree::Text("wallhaven"@), levels);
    let query = crate::text::trimmed(form.query@);
    let queried = save::put_text(typed, "query"@, query);
    lemma_readable_put_text(typed, "query"@, query, levels);
    let categories = crate::text::joined(save::chosen_categories(form), ","@);
    let categorised = save::put_text(queried, "categories"@, categories);
    lemma_readable_put_text(queried, "categories"@, categories, levels);
    let purities = crate::text::joined(save::chosen_purities(form), ","@);
    let purified = save::put_text(categorised, "purity"@, purities);
    lemma_readable_put_text(categorised, "purity"@, purities, levels);
    let sorting = Tree::Text(form::sorting_name(form.sorting_index));
    let sorted = document::put(purified, "sorting"@, sorting);
    lemma_readable_put(purified, "sorting"@, sorting, levels);
    let ranged = save::put_text(sorted, "topRange"@, save::stored_top_range(form));
    lemma_readable_put_text(sorted, "topRange"@, save::stored_top_range(form), levels);
    let sized = save::put_text(ranged, "atleast"@, form::atleast_name(form.atleast_index));
    lemma_readable_put_text(ranged, "atleast"@, form::atleast_name(form.atleast_index), levels);
    let count = Tree::Int(save::clamped_items(form.max_items));
    let counted = document::put(sized, "maxItems"@, count);
    lemma_readable_put(sized, "maxItems"@, count, levels);
    lemma_readable_put_text(
        counted,
        "apiKey"@,
        crate::text::trimmed(form.api_key@),
        levels,
    );
}

/// Whether every value of a list reads back.
pub open spec fn readable_list(values: Seq<Tree>, levels: nat) -> bool {
    forall|i: int| 0 <= i < values.len() ==> readable_value(#[trigger] values[i], levels)
}

proof fn lemma_other_sources(sources: Seq<Tree>, levels: nat)
    requires
        readable_list(sources, levels),
    ensures
        readable_list(save::other_sources(sources), levels),
    decreases sources.len(),
{
    reveal(Seq::filter);
    if sources.len() > 0 {
        let init = sources.drop_last();
        assert forall|i: int| 0 <= i < init.len() implies readable_value(
            #[trigger] init[i],
            levels,
        ) by {
            assert(init[i] == sources[i]);
        }
        lemma_other_sources(init, levels);
        assert(sources[sources.len() - 1] == sources.last());
    }
}

/// A source list still reads back after the form was written to it.
proof fn lemma_sources_stay_readable(sources: Seq<Tree>, form: WallhavenForm, levels: nat)
    requires
        readable_list(sources, levels),
        levels > 0,
        escapable_search(form),
    ensures
        readable_list(save::synced_sources(sources, form), levels),
{
    let at = save::first_wallhaven(sources);
    let below = (levels - 1) as nat;
    lemma_other_sources(sources, levels);
    if form.enabled {
        laws::lemma_first_wallhaven(sources);
        if at < sources.len() {
            let items = sources[at]->Object_0;
            assert(readable_value(sources[at], levels));
            lemma_readable_object(items, levels);
            lemma_entry_stays_readable(items, form, below);
            let entry = save::wallhaven_entry(items, form);
            lemma_readable_object(entry, levels);
            let rest = sources.skip(at + 1);
            assert forall|i: int| 0 <= i < rest.len() implies readable_value(
                #[trigger] rest[i],
                levels,
            ) by {
                assert(rest[i] == sources[at + 1 + i]);
            }
            lemma_other_sources(rest, levels);
            let others = save::other_sources(rest);
            let after = save::synced_sources(sources, form);
            assert forall|i: int| 0 <= i < after.len() implies readable_value(
                #[trigger] after[i],
                levels,
            ) by {
                if i < at {
                    assert(after[i] == sources[i]);
                } else if i == at {
                    assert(after[i] == Tree::Object(entry));
                } else {
                    assert(after[i] == others[i - at - 1]);
                }
            }
        } else {
            let none = Seq::<(Seq<char>, Tree)>::empty();
            lemma_entry_stays_readable(none, form, below);
            lemma_readable_object(save::wallhaven_entry(none, form), levels);
        }
    }
}

/// A section of a document that reads back has items that do.
proof fn lemma_section_readable(tree: Tree, key: Seq<char>)
    requires
        readable(tree),
        key.len() > 0,
        section(tree, key) is Ok,
    ensures
        readable_items(section(tree, key)->Ok_0, (MAX_LEVELS - 1) as nat),
{
    let items = tree->Object_0;
    document::lemma_position(items, key);
    if document::has_key(items, key) {
        let inner = section(tree, key)->Ok_0;
        assert(items[document::position(items, key)].1 == Tree::Object(inner));
        lemma_readable_object(inner, MAX_LEVELS as nat);
    }
}

/// A document still reads back with other items in a section.
proof fn lemma_with_section_readable(tree: Tree, key: Seq<char>, items: Seq<(Seq<char>, Tree)>)
    requires
        readable(tree),
        key.len() > 0,
        readable_items(items, (MAX_LEVELS - 1) as nat),
    ensures
        readable(with_section(tree, key, items)),
{
    assert(readable_tops(tree->Object_0));
    lemma_readable_object(items, MAX_LEVELS as nat);
    lemma_readable_tops_put(tree->Object_0, key, Tree::Object(items));
}

/// Whether an edit stores a value that reads back.
pub open spec fn readable_edit(edit: Edit) -> bool {
    &&& escapable(edit.key) || edit.object.len() == 0
    &&& match edit.value {
        Tree::Text(text) => escapable(text),
        Tree::Int(_) | Tree::Bool(_) => true,
        _ => false,
    }
}

proof fn lemma_edits_stay_readable(tree: Tree, edits: Seq<Edit>)
    requires
        readable(tree),
        save::with_edits(tree, edits) is Ok,
        forall|i: int| 0 <= i < edits.len() ==> readable_edit(#[trigger] edits[i]),
    ensures
        readable(save::with_edits(tree, edits)->Ok_0),
    decreases edits.len(),
{
    if edits.len() > 0 {
        let init = edits.drop_last();
        let last = edits.last();
        assert forall|i: int| 0 <= i < init.len() implies readable_edit(#[trigger] init[i]) by {
            assert(init[i] == edits[i]);
        }
        lemma_edits_stay_readable(tree, init);
        let before = save::with_edits(tree, init)->Ok_0;
        assert(readable_edit(edits[edits.len() - 1]));
        if last.object.len() == 0 {
            assert(readable_tops(before->Object_0));
            lemma_readable_tops_put(before->Object_0, last.key, last.value);
        } else {
            let inner = section(before, last.object)->Ok_0;
            lemma_section_readable(before, last.object);
            lemma_readable_put(inner, last.key, last.value, (MAX_LEVELS - 1) as nat);
            lemma_with_section_readable(
                before,
                last.object,
                document::put(inner, last.key, last.value),
            );
        }
    }
}

proof fn lemma_form_edits_readable(form: SettingsForm)
    requires
        escapable_form(form),
    ensures
        forall|i: int|
            0 <= i < save::form_edits(form).len() ==> readable_edit(
                #[trigger] save::form_edits(form)[i],
            ),
{
    reveal_strlit("");
    lemma_keys_escapable();
    lemma_choices_escapable(form.renderer_index);
    lemma_choices_escapable(form.format_index);
    lemma_choices_escapable(form.shader_scope_index);
    lemma_choices_escapable(form.shader_color_space_index);
    lemma_choices_escapable(form.log_level_index);
}

/// A document that reads back still does so after the form was saved to it, as long as the texts
/// of the form do.
pub proof fn law_readable_documents_stay_readable(tree: Tree, form: SettingsForm, after: Tree)
    requires
        readable(tree),
        escapable_form(form),
        save::saved_tree(tree, form) == Ok::<Tree, Fault>(after),
    ensures
        readable(after),
{
    let levels = (MAX_LEVELS - 1) as nat;
    let below = (MAX_LEVELS - 2) as nat;
    let edits = save::form_edits(form);
    lemma_form_edits_readable(form);
    lemma_edits_stay_readable(tree, edits);
    let edited = save::with_edits(tree, edits)->Ok_0;
    let proxy = Tree::Text(crate::text::trimmed(form.proxy_url@));
    assert(readable_tops(edited->Object_0));
    lemma_without(edited->Object_0, "proxy"@, levels);
    lemma_readable_tops_put(edited->Object_0, "proxy"@, proxy);
    let proxied = save::with_proxy(edited, form.proxy_url@)->Ok_0;
    reveal_strlit("image");
    lemma_section_readable(proxied, "image"@);
    lemma_keys_escapable();
    let image = section(proxied, "image"@)->Ok_0;
    let synced = save::synced_image(image, form.wallhaven)->Ok_0;
    document::lemma_position(image, "sources"@);
    let sources = match document::lookup(image, "sources"@) {
        Some(Tree::Array(sources)) => sources,
        _ => Seq::empty(),
    };
    if document::has_key(image, "sources"@) {
        let at = document::position(image, "sources"@);
        assert(readable_value(image[at].1, levels));
        assert forall|i: int| 0 <= i < sources.len() implies readable_value(
            #[trigger] sources[i],
            below,
        ) by {}
    }
    lemma_sources_stay_readable(sources, form.wallhaven, below);
    let list = save::synced_sources(sources, form.wallhaven);
    assert(readable_value(Tree::Array(list), levels));
    lemma_readable_put(image, "sources"@, Tree::Array(list), levels);
    lemma_with_section_readable(proxied, "image"@, synced);
}

} // verus!
