//! What the settings window shows of a configuration.

use crate::config::{
    AuraConfig, OutputFormat, RendererMode, ShaderColorSpace, ShaderDesktopScope, SourceConfig,
};
use crate::laws::lists::lemma_kept;
use crate::laws::text::{
    law_pieces_stand_between_separators, lemma_one_piece, lemma_split_in_two, piece_at,
};
use crate::settings::form::{
    atleast_choice, atleast_name, color_space_name, first_wallhaven, format_name, i32_seconds,
    list_names, log_level_choice, log_level_name, renderer_name, same_apart_from_wallhaven,
    scope_name, shows_config,
    shows_wallhaven, sorting_choice, sorting_name, source_lines, summary, top_range_choice,
    top_range_name, SettingsForm, WallhavenForm,
};
use crate::text::{ascii_lowered, decimal, joined, split_on, texts, trimmed};
use vstd::prelude::*;

verus! {

/// Whether a comma separated list names a word, regardless of white space around it and of the
/// case of ASCII letters.
pub open spec fn list_names_word(list: Seq<char>, word: Seq<char>) -> bool {
    exists|i: int, j: int| #[trigger]
        piece_at(list, ',', i, j) && ascii_lowered(trimmed(list.subrange(i, j))) == word
}

/// The words of a list are those that it names, but for the empty one; a list that is not there
/// has none.
pub proof fn law_lists_are_split_into_their_words(list: Seq<char>, word: Seq<char>)
    ensures
        word.len() > 0 ==> (list_names(Some(list)).contains(word) <==> list_names_word(list, word)),
        word.len() == 0 ==> !list_names(Some(list)).contains(word),
        list_names(None).len() == 0,
{
    let pieces = split_on(list, ',');
    let lower = |part: Seq<char>| ascii_lowered(trimmed(part));
    let words = pieces.map_values(lower);
    let keep = |part: Seq<char>| part.len() > 0;
    let names = list_names(Some(list));
    assert(names == words.filter(keep));
    if names.contains(word) {
        lemma_kept(words, keep);
        let k = choose|k: int| 0 <= k < words.len() && words[k] == word;
        assert(pieces.contains(pieces[k]));
        law_pieces_stand_between_separators(list, ',', pieces[k]);
        let (i, j) = choose|i: int, j: int| #[trigger]
            piece_at(list, ',', i, j) && pieces[k] == list.subrange(i, j);
        assert(piece_at(list, ',', i, j) && ascii_lowered(trimmed(list.subrange(i, j))) == word);
    }
    if word.len() == 0 {
        lemma_kept(words, keep);
    }
    if word.len() > 0 && list_names_word(list, word) {
        let (i, j) = choose|i: int, j: int| #[trigger]
            piece_at(list, ',', i, j) && ascii_lowered(trimmed(list.subrange(i, j))) == word;
        let piece = list.subrange(i, j);
        law_pieces_stand_between_separators(list, ',', piece);
        let k = choose|k: int| 0 <= k < pieces.len() && pieces[k] == piece;
        assert(words[k] == word);
        words.lemma_filter_contains_rev(keep, word);
    }
}

/// The words of two lists with a comma between them are those of the first and then those of the
/// second. A piece without a comma is one word, in lower case and without the white space around
/// it, or none where nothing else is in it.
pub proof fn law_words_keep_their_order(first: Seq<char>, second: Seq<char>, piece: Seq<char>)
    ensures
        list_names(Some(first.push(',') + second)) == list_names(Some(first)) + list_names(
            Some(second),
        ),
        (forall|i: int| 0 <= i < piece.len() ==> #[trigger] piece[i] != ',') ==> list_names(
            Some(piece),
        ) == if trimmed(piece).len() == 0 {
            Seq::<Seq<char>>::empty()
        } else {
            seq![ascii_lowered(trimmed(piece))]
        },
{
    let lower = |part: Seq<char>| ascii_lowered(trimmed(part));
    let keep = |part: Seq<char>| part.len() > 0;
    lemma_split_in_two(first, second, ',');
    let a = split_on(first, ',').map_values(lower);
    let b = split_on(second, ',').map_values(lower);
    assert((split_on(first, ',') + split_on(second, ',')).map_values(lower) =~= a + b);
    Seq::filter_distributes_over_add(a, b, keep);
    if forall|i: int| 0 <= i < piece.len() ==> #[trigger] piece[i] != ',' {
        lemma_one_piece(piece, ',');
        let word = ascii_lowered(trimmed(piece));
        let one = seq![piece].map_values(lower);
        assert(one =~= seq![word]);
        assert(one.drop_last() =~= Seq::<Seq<char>>::empty());
        assert(word.len() == trimmed(piece).len());
        reveal(Seq::filter);
        assert(one.drop_last().filter(keep) =~= Seq::<Seq<char>>::empty());
        assert(one.filter(keep) =~= if word.len() == 0 {
            Seq::<Seq<char>>::empty()
        } else {
            seq![word]
        });
    }
}

/// Whether an optional text is there and is the given one.
pub open spec fn is_word(value: Option<String>, word: Seq<char>) -> bool {
    value matches Some(text) && text@ == word
}

/// Whether an optional list is there and names a word.
pub open spec fn ticks(list: Option<String>, word: Seq<char>) -> bool {
    list matches Some(text) && list_names_word(text@, word)
}

/// Whether a text shows an optional one: it is empty where there is none.
pub open spec fn shows_text(shown: Seq<char>, value: Option<String>) -> bool {
    &&& value matches Some(text) ==> shown == text@
    &&& value is None ==> shown.len() == 0
}

proof fn lemma_sorting_words()
    ensures
        sorting_choice(Some("relevance"@)) == 1,
        sorting_choice(Some("random"@)) == 2,
        sorting_choice(Some("views"@)) == 3,
        sorting_choice(Some("favorites"@)) == 4,
        sorting_choice(Some("toplist"@)) == 5,
{
    reveal_strlit("relevance");
    reveal_strlit("random");
    reveal_strlit("views");
    reveal_strlit("favorites");
    reveal_strlit("toplist");
    assert("relevance"@[0] == 'r' && "relevance"@.len() == 9);
    assert("random"@.len() == 6);
    assert("views"@.len() == 5);
    assert("favorites"@[0] == 'f' && "favorites"@.len() == 9);
    assert("toplist"@.len() == 7);
}

proof fn lemma_range_words()
    ensures
        top_range_choice(Some("1d"@)) == 0,
        top_range_choice(Some("3d"@)) == 1,
        top_range_choice(Some("1w"@)) == 2,
        top_range_choice(Some("1M"@)) == 3,
        top_range_choice(Some("3M"@)) == 4,
        top_range_choice(Some("6M"@)) == 5,
        top_range_choice(Some("1y"@)) == 6,
{
    reveal_strlit("1d");
    reveal_strlit("3d");
    reveal_strlit("1w");
    reveal_strlit("1M");
    reveal_strlit("3M");
    reveal_strlit("6M");
    reveal_strlit("1y");
    assert("1d"@[0] == '1' && "1d"@[1] == 'd');
    assert("3d"@[0] == '3' && "3d"@[1] == 'd');
    assert("1w"@[0] == '1' && "1w"@[1] == 'w');
    assert("1M"@[0] == '1' && "1M"@[1] == 'M');
    assert("3M"@[0] == '3' && "3M"@[1] == 'M');
    assert("6M"@[0] == '6' && "6M"@[1] == 'M');
    assert("1y"@[0] == '1' && "1y"@[1] == 'y');
}

proof fn lemma_size_words()
    ensures
        atleast_choice(Some("1920x1080"@)) == 1,
        atleast_choice(Some("2560x1440"@)) == 2,
        atleast_choice(Some("3840x2160"@)) == 3,
{
    reveal_strlit("1920x1080");
    reveal_strlit("2560x1440");
    reveal_strlit("3840x2160");
    assert("1920x1080"@[0] == '1');
    assert("2560x1440"@[0] == '2');
    assert("3840x2160"@[0] == '3');
}

proof fn lemma_level_words()
    ensures
        log_level_choice("error"@) == 0,
        log_level_choice("warn"@) == 1,
        log_level_choice("info"@) == 2,
        log_level_choice("debug"@) == 3,
        log_level_choice("trace"@) == 4,
{
    reveal_strlit("error");
    reveal_strlit("warn");
    reveal_strlit("info");
    reveal_strlit("debug");
    reveal_strlit("trace");
    assert("error"@[0] == 'e' && "error"@.len() == 5);
    assert("warn"@[0] == 'w' && "warn"@.len() == 4);
    assert("info"@[0] == 'i' && "info"@.len() == 4);
    assert("debug"@[0] == 'd' && "debug"@.len() == 5);
    assert("trace"@[0] == 't' && "trace"@.len() == 5);
}

/// Whether the Wallhaven part of the form shows the values of a source.
pub open spec fn shows_values(form: WallhavenForm, source: SourceConfig) -> bool {
    source matches SourceConfig::Wallhaven {
        query,
        categories,
        purity,
        sorting,
        top_range,
        atleast,
        max_items,
        api_key,
    } && {
        &&& form.enabled
        &&& shows_text(form.query@, query)
        &&& form.cat_general <==> ticks(categories, "general"@)
        &&& form.cat_people <==> ticks(categories, "people"@)
        &&& form.cat_anime <==> ticks(categories, "anime"@)
        &&& form.purity_sfw <==> ticks(purity, "sfw"@)
        &&& form.purity_sketchy <==> ticks(purity, "sketchy"@)
        &&& form.purity_nsfw <==> ticks(purity, "nsfw"@)
        &&& 0 <= form.sorting_index <= 5
        &&& form.sorting_index == 1 <==> is_word(sorting, "relevance"@)
        &&& form.sorting_index == 2 <==> is_word(sorting, "random"@)
        &&& form.sorting_index == 3 <==> is_word(sorting, "views"@)
        &&& form.sorting_index == 4 <==> is_word(sorting, "favorites"@)
        &&& form.sorting_index == 5 <==> is_word(sorting, "toplist"@)
        &&& 0 <= form.top_range_index <= 6
        &&& form.top_range_index == 0 <==> is_word(top_range, "1d"@)
        &&& form.top_range_index == 1 <==> is_word(top_range, "3d"@)
        &&& form.top_range_index == 2 <==> is_word(top_range, "1w"@)
        &&& form.top_range_index == 4 <==> is_word(top_range, "3M"@)
        &&& form.top_range_index == 5 <==> is_word(top_range, "6M"@)
        &&& form.top_range_index == 6 <==> is_word(top_range, "1y"@)
        &&& 0 <= form.atleast_index <= 3
        &&& form.atleast_index == 1 <==> is_word(atleast, "1920x1080"@)
        &&& form.atleast_index == 2 <==> is_word(atleast, "2560x1440"@)
        &&& form.atleast_index == 3 <==> is_word(atleast, "3840x2160"@)
        &&& max_items <= 1000 ==> form.max_items == max_items
        &&& max_items > 1000 ==> form.max_items == 1000
        &&& shows_text(form.api_key@, api_key)
    }
}

proof fn lemma_first(sources: Seq<SourceConfig>, at: int)
    requires
        0 <= at < sources.len(),
        sources[at] is Wallhaven,
        forall|i: int| 0 <= i < at ==> !(#[trigger] sources[i] is Wallhaven),
    ensures
        first_wallhaven(sources) == Some(sources[at]),
    decreases at,
{
    if at > 0 {
        assert(!(sources[0] is Wallhaven));
        let rest = sources.skip(1);
        assert forall|i: int| 0 <= i < at - 1 implies !(#[trigger] rest[i] is Wallhaven) by {
            assert(rest[i] == sources[i + 1]);
        }
        lemma_first(rest, at - 1);
    }
}

proof fn lemma_none(sources: Seq<SourceConfig>)
    requires
        forall|i: int| 0 <= i < sources.len() ==> !(#[trigger] sources[i] is Wallhaven),
    ensures
        first_wallhaven(sources) is None,
    decreases sources.len(),
{
    if sources.len() > 0 {
        assert(!(sources[0] is Wallhaven));
        let rest = sources.skip(1);
        assert forall|i: int| 0 <= i < rest.len() implies !(#[trigger] rest[i] is Wallhaven) by {
            assert(rest[i] == sources[i + 1]);
        }
        lemma_none(rest);
    }
}

/// The form shows the values of the Wallhaven source that stands first, wherever that is.
pub proof fn law_first_wallhaven_source_is_shown(
    form: WallhavenForm,
    sources: Seq<SourceConfig>,
    at: int,
)
    requires
        shows_wallhaven(form, sources),
        0 <= at < sources.len(),
        sources[at] is Wallhaven,
        forall|i: int| 0 <= i < at ==> !(#[trigger] sources[i] is Wallhaven),
    ensures
        shows_values(form, sources[at]),
{
    lemma_first(sources, at);
    lemma_sorting_words();
    lemma_range_words();
    lemma_size_words();
    lemma_words();
    if let SourceConfig::Wallhaven { categories, purity, .. } = sources[at] {
        if let Some(list) = categories {
            law_lists_are_split_into_their_words(list@, "general"@);
            law_lists_are_split_into_their_words(list@, "people"@);
            law_lists_are_split_into_their_words(list@, "anime"@);
        }
        if let Some(list) = purity {
            law_lists_are_split_into_their_words(list@, "sfw"@);
            law_lists_are_split_into_their_words(list@, "sketchy"@);
            law_lists_are_split_into_their_words(list@, "nsfw"@);
        }
    }
}

/// A Wallhaven source behind others is shown like one that stands alone: with its query, its key,
/// its sorting and its number of images.
pub proof fn law_wallhaven_source_is_shown_wherever_it_stands(
    form: WallhavenForm,
    others: Seq<SourceConfig>,
    source: SourceConfig,
    behind: Seq<SourceConfig>,
    alone: WallhavenForm,
)
    requires
        source is Wallhaven,
        forall|i: int| 0 <= i < others.len() ==> !(#[trigger] others[i] is Wallhaven),
        shows_wallhaven(form, others.push(source) + behind),
        shows_wallhaven(alone, seq![source]),
    ensures
        form.enabled && alone.enabled,
        form.query@ == alone.query@,
        form.cat_general == alone.cat_general,
        form.cat_people == alone.cat_people,
        form.cat_anime == alone.cat_anime,
        form.purity_sfw == alone.purity_sfw,
        form.purity_sketchy == alone.purity_sketchy,
        form.purity_nsfw == alone.purity_nsfw,
        form.sorting_index == alone.sorting_index,
        form.top_range_index == alone.top_range_index,
        form.atleast_index == alone.atleast_index,
        form.max_items == alone.max_items,
        form.api_key@ == alone.api_key@,
        source->Wallhaven_query is Some ==> form.query@ == source->Wallhaven_query->0@,
        source->Wallhaven_query is None ==> form.query@.len() == 0,
        source->Wallhaven_api_key is Some ==> form.api_key@ == source->Wallhaven_api_key->0@,
        source->Wallhaven_max_items <= 1000 ==> form.max_items == source->Wallhaven_max_items,
{
    let sources = others.push(source) + behind;
    let at = others.len() as int;
    assert forall|i: int| 0 <= i < at implies !(#[trigger] sources[i] is Wallhaven) by {
        assert(sources[i] == others[i]);
    }
    assert(sources[at] == source);
    lemma_first(sources, at);
    lemma_first(seq![source], 0);
}

proof fn lemma_words()
    ensures
        "general"@.len() > 0 && "people"@.len() > 0 && "anime"@.len() > 0,
        "sfw"@.len() > 0 && "sketchy"@.len() > 0 && "nsfw"@.len() > 0,
{
    reveal_strlit("general");
    reveal_strlit("people");
    reveal_strlit("anime");
    reveal_strlit("sfw");
    reveal_strlit("sketchy");
    reveal_strlit("nsfw");
}

/// Only without any Wallhaven source is the part disabled: all categories, safe images, by date,
/// the range of a month and twenty-four images are what it offers then.
pub proof fn law_defaults_are_shown_without_a_wallhaven_source(
    form: WallhavenForm,
    sources: Seq<SourceConfig>,
)
    requires
        shows_wallhaven(form, sources),
    ensures
        form.enabled <==> exists|i: int|
            0 <= i < sources.len() && #[trigger] sources[i] is Wallhaven,
        !form.enabled ==> {
            &&& form.query@.len() == 0
            &&& form.cat_general && form.cat_people && form.cat_anime
            &&& form.purity_sfw && !form.purity_sketchy && !form.purity_nsfw
            &&& form.sorting_index == 0
            &&& form.top_range_index == 3
            &&& form.atleast_index == 0
            &&& form.max_items == 24
            &&& form.api_key@.len() == 0
        },
{
    if exists|i: int| 0 <= i < sources.len() && #[trigger] sources[i] is Wallhaven {
        let i = choose|i: int| 0 <= i < sources.len() && #[trigger] sources[i] is Wallhaven;
        let at = lemma_lowest(sources, i);
        lemma_first(sources, at);
    } else {
        lemma_none(sources);
    }
}

proof fn lemma_lowest(sources: Seq<SourceConfig>, from: int) -> (at: int)
    requires
        0 <= from < sources.len(),
        sources[from] is Wallhaven,
    ensures
        0 <= at <= from,
        sources[at] is Wallhaven,
        forall|i: int| 0 <= i < at ==> !(#[trigger] sources[i] is Wallhaven),
    decreases from,
{
    if exists|i: int| 0 <= i < from && #[trigger] sources[i] is Wallhaven {
        let i = choose|i: int| 0 <= i < from && #[trigger] sources[i] is Wallhaven;
        lemma_lowest(sources, i)
    } else {
        from
    }
}

/// Whether a form field shows a number of seconds, as far as it can.
pub open spec fn shows_seconds(shown: i32, secs: u64) -> bool {
    &&& secs <= 0x7FFF_FFFF ==> shown == secs
    &&& secs > 0x7FFF_FFFF ==> shown == 0x7FFF_FFFF
}

/// The form shows every value of the configuration in the field of its own.
pub proof fn law_form_shows_every_value(form: SettingsForm, before: SettingsForm, config: AuraConfig)
    requires
        shows_config(form, before, config),
    ensures
        form.renderer_index == 0 <==> config.renderer == RendererMode::Image,
        form.renderer_index == 1 <==> config.renderer == RendererMode::Shader,
        shows_seconds(form.image_timer_secs, config.image.timer),
        shows_seconds(form.remote_update_secs, config.image.remote_update_timer),
        form.format_index == 0 <==> config.image.format == OutputFormat::Png,
        form.format_index == 1 <==> config.image.format == OutputFormat::Jpg,
        form.jpeg_quality == config.image.jpeg_quality,
        form.sources_summary@ == summary(config.image.sources@),
        form.updater_enabled <==> config.updater.enabled,
        shows_seconds(form.updater_interval_secs, config.updater.check_interval),
        form.feed_url@ == config.updater.feed_url@,
        config.shader matches Some(shader) ==> {
            &&& form.shader_name@ == shader.name@
            &&& form.shader_fps == shader.target_fps as i32
            &&& form.shader_resolution == shader.resolution as i32
            &&& form.shader_mouse_enabled <==> shader.mouse_enabled
            &&& form.shader_scope_index == 0 <==> shader.desktop_scope
                == ShaderDesktopScope::Virtual
            &&& form.shader_scope_index == 1 <==> shader.desktop_scope
                == ShaderDesktopScope::Primary
            &&& form.shader_color_space_index == 0 <==> shader.color_space
                == ShaderColorSpace::Unorm
            &&& form.shader_color_space_index == 1 <==> shader.color_space
                == ShaderColorSpace::Srgb
        },
        config.shader is None ==> {
            &&& form.shader_name@ == before.shader_name@
            &&& form.shader_fps == before.shader_fps
            &&& form.shader_resolution == before.shader_resolution
            &&& form.shader_mouse_enabled == before.shader_mouse_enabled
            &&& form.shader_scope_index == before.shader_scope_index
            &&& form.shader_color_space_index == before.shader_color_space_index
        },
        form.log_level_index == 0 <==> config.log_level@ == "error"@,
        form.log_level_index == 1 <==> config.log_level@ == "warn"@,
        form.log_level_index == 3 <==> config.log_level@ == "debug"@,
        form.log_level_index == 4 <==> config.log_level@ == "trace"@,
        0 <= form.log_level_index <= 4,
        form.cache_dir@ == config.cache_dir@,
        form.state_file@ == config.state_file@,
        shows_text(form.proxy_url@, config.proxy),
        shows_wallhaven(form.wallhaven, config.image.sources@),
{
    lemma_level_words();
}

/// Showing the Wallhaven part leaves every other field of the form alone.
pub proof fn law_wallhaven_part_leaves_the_other_fields(form: SettingsForm, before: SettingsForm)
    requires
        same_apart_from_wallhaven(form, before),
    ensures
        form.renderer_index == before.renderer_index,
        form.image_timer_secs == before.image_timer_secs,
        form.remote_update_secs == before.remote_update_secs,
        form.format_index == before.format_index,
        form.jpeg_quality == before.jpeg_quality,
        form.sources_summary@ == before.sources_summary@,
        form.updater_enabled == before.updater_enabled,
        form.updater_interval_secs == before.updater_interval_secs,
        form.feed_url@ == before.feed_url@,
        form.shader_name@ == before.shader_name@,
        form.shader_fps == before.shader_fps,
        form.shader_resolution == before.shader_resolution,
        form.shader_mouse_enabled == before.shader_mouse_enabled,
        form.shader_scope_index == before.shader_scope_index,
        form.shader_color_space_index == before.shader_color_space_index,
        form.log_level_index == before.log_level_index,
        form.cache_dir@ == before.cache_dir@,
        form.state_file@ == before.state_file@,
        form.proxy_url@ == before.proxy_url@,
{
}

/// The keywords behind the choices of the form, and the choice behind each keyword. A choice that
/// there is not stands for the keyword that is the default.
pub proof fn law_choices_have_their_keywords(index: i32)
    ensures
        renderer_name(index) == if index == 1 { "shader"@ } else { "image"@ },
        format_name(index) == if index == 1 { "jpg"@ } else { "png"@ },
        scope_name(index) == if index == 1 { "primary"@ } else { "virtual"@ },
        color_space_name(index) == if index == 1 { "srgb"@ } else { "unorm"@ },
        log_level_name(0) == "error"@,
        log_level_name(1) == "warn"@,
        log_level_name(3) == "debug"@,
        log_level_name(4) == "trace"@,
        index < 0 || index == 2 || index > 4 ==> log_level_name(index) == "info"@,
        sorting_name(1) == "relevance"@,
        sorting_name(2) == "random"@,
        sorting_name(3) == "views"@,
        sorting_name(4) == "favorites"@,
        sorting_name(5) == "toplist"@,
        index < 1 || index > 5 ==> sorting_name(index) == "date_added"@,
        top_range_name(0) == "1d"@,
        top_range_name(1) == "3d"@,
        top_range_name(2) == "1w"@,
        top_range_name(4) == "3M"@,
        top_range_name(5) == "6M"@,
        top_range_name(6) == "1y"@,
        index < 0 || index == 3 || index > 6 ==> top_range_name(index) == "1M"@,
        atleast_name(1) == "1920x1080"@,
        atleast_name(2) == "2560x1440"@,
        atleast_name(3) == "3840x2160"@,
        index < 1 || index > 3 ==> atleast_name(index).len() == 0,
{
    reveal_strlit("");
}

/// The choice for a keyword is the one that stands for it; another word counts as the default.
pub proof fn law_keywords_have_their_choices(word: Seq<char>)
    ensures
        log_level_choice(word) == 0 <==> word == "error"@,
        log_level_choice(word) == 1 <==> word == "warn"@,
        log_level_choice(word) == 3 <==> word == "debug"@,
        log_level_choice(word) == 4 <==> word == "trace"@,
        0 <= log_level_choice(word) <= 4,
        sorting_choice(Some(word)) == 1 <==> word == "relevance"@,
        sorting_choice(Some(word)) == 2 <==> word == "random"@,
        sorting_choice(Some(word)) == 3 <==> word == "views"@,
        sorting_choice(Some(word)) == 4 <==> word == "favorites"@,
        sorting_choice(Some(word)) == 5 <==> word == "toplist"@,
        0 <= sorting_choice(Some(word)) <= 5,
        sorting_choice(None) == 0,
        top_range_choice(Some(word)) == 0 <==> word == "1d"@,
        top_range_choice(Some(word)) == 1 <==> word == "3d"@,
        top_range_choice(Some(word)) == 2 <==> word == "1w"@,
        top_range_choice(Some(word)) == 4 <==> word == "3M"@,
        top_range_choice(Some(word)) == 5 <==> word == "6M"@,
        top_range_choice(Some(word)) == 6 <==> word == "1y"@,
        0 <= top_range_choice(Some(word)) <= 6,
        top_range_choice(None) == 3,
        atleast_choice(Some(word)) == 1 <==> word == "1920x1080"@,
        atleast_choice(Some(word)) == 2 <==> word == "2560x1440"@,
        atleast_choice(Some(word)) == 3 <==> word == "3840x2160"@,
        0 <= atleast_choice(Some(word)) <= 3,
        atleast_choice(None) == 0,
{
    lemma_level_words();
    lemma_sorting_words();
    lemma_range_words();
    lemma_size_words();
}

/// A number of seconds is shown as it is, up to the largest one that a field can hold.
pub proof fn law_seconds_are_shown_as_they_are(secs: u64)
    ensures
        shows_seconds(i32_seconds(secs), secs),
{
}

/// Whether a line describes a source under a number: what kind it is, where the images come from,
/// and what is asked of them.
pub open spec fn describes(line: Seq<char>, number: nat, source: SourceConfig) -> bool {
    match source {
        SourceConfig::File { path } => line == decimal(number) + ". 文件: "@ + path@,
        SourceConfig::Directory { path, recursive, extensions } => {
            let note = match extensions {
                Some(list) => " ("@ + joined(texts(list@), ", "@) + ")"@,
                None => Seq::empty(),
            };
            line == decimal(number) + ". 目录: "@ + path@ + note + "（递归: "@ + (if recursive {
                "是"@
            } else {
                "否"@
            }) + "）"@
        },
        SourceConfig::Rss { url, max_items } => line == decimal(number) + ". RSS: "@ + url@
            + "（最多 "@ + decimal(max_items as nat) + " 项）"@,
        SourceConfig::Wallhaven { query, categories, purity, sorting, max_items, .. } => {
            let asked = match query {
                Some(text) => if text@.len() > 0 { text@ } else { "全部"@ },
                None => "全部"@,
            };
            let cats = match categories { Some(text) => text@, None => "全部"@ };
            let pure = match purity { Some(text) => text@, None => "sfw"@ };
            let sorted = match sorting { Some(text) => text@, None => "date_added"@ };
            line == decimal(number) + ". Wallhaven: "@ + asked + "（"@ + cats + " / "@ + pure
                + " / "@ + sorted + "，最多 "@ + decimal(max_items as nat) + " 项）"@
        },
    }
}

/// The summary has a line for every source, numbered from one in their order: one more source at
/// the end adds a line that describes it, and changes nothing above.
pub proof fn law_summary_describes_every_source(sources: Seq<SourceConfig>, source: SourceConfig)
    ensures
        summary(Seq::empty()) == "（无来源）"@,
        sources.len() == 0 ==> describes(summary(sources.push(source)), 1, source),
        sources.len() > 0 ==> exists|line: Seq<char>| #[trigger]
            describes(line, sources.len() + 1, source) && summary(sources.push(source)) == summary(
                sources,
            ) + "\n"@ + line,
{
    let more = sources.push(source);
    let lines = source_lines(more);
    let line = lines.last();
    assert(lines.drop_last() =~= source_lines(sources));
    assert(more[sources.len() as int] == source);
    assert(describes(line, sources.len() + 1, source));
}

} // verus!
