//! What a Wallhaven search asks for, and what is made of the answer.

use crate::config::SourceConfig;
use crate::laws::text::{digits_value, law_decimal_stands_for_the_number, piece_at};
use crate::sources::wallhaven::{
    category_names, configured, encoded, error_message, fits_url, flag_names, is_flags, names_flag, normalized_flags, page_added,
    page_count, page_share, page_urls, pair_texts, params_len, plain_base, purity_names, result_urls, search_params, url_bound, FoundImage, Json, Refresh,
    WallhavenError, WallhavenFault, WallhavenSource,
};
use crate::sources::{Location, Origin};
use crate::text::{ascii_lowered, trimmed};
use vstd::prelude::*;

verus! {

/// Whether a comma separated list holds a name, up to white space around it and to the case of
/// ASCII letters.
pub open spec fn list_holds(list: Seq<char>, name: Seq<char>) -> bool {
    exists|i: int, j: int| #[trigger]
        piece_at(ascii_lowered(trimmed(list)), ',', i, j) && trimmed(
            ascii_lowered(trimmed(list)).subrange(i, j),
        ) == name
}

/// Whether `flags` are what a setting stands for: its own three flags; else a flag for each of
/// three names, set exactly where the list holds the name; else the given ones, where it holds
/// none of them.
pub open spec fn flags_for(
    raw: Seq<char>,
    first: Seq<char>,
    second: Seq<char>,
    third: Seq<char>,
    otherwise: Seq<char>,
    flags: Seq<char>,
) -> bool {
    let given = trimmed(raw);
    if given.len() == 3 && (given[0] == '0' || given[0] == '1') && (given[1] == '0' || given[1]
        == '1') && (given[2] == '0' || given[2] == '1') {
        flags == given
    } else if list_holds(raw, first) || list_holds(raw, second) || list_holds(raw, third) {
        &&& flags.len() == 3
        &&& flags[0] == if list_holds(raw, first) { '1' } else { '0' }
        &&& flags[1] == if list_holds(raw, second) { '1' } else { '0' }
        &&& flags[2] == if list_holds(raw, third) { '1' } else { '0' }
    } else {
        flags == otherwise
    }
}

/// A setting with three known names becomes three flags, one for each name in their order.
pub proof fn law_flags_follow_the_names(raw: Seq<char>, known: Seq<Seq<char>>, default_all: bool)
    requires
        known.len() == 3,
        known[0].len() > 0 && known[1].len() > 0 && known[2].len() > 0,
        known[0] != known[1] && known[0] != known[2] && known[1] != known[2],
    ensures
        flags_for(
            raw,
            known[0],
            known[1],
            known[2],
            if default_all { "111"@ } else { "100"@ },
            normalized_flags(raw, known, default_all),
        ),
{
    let given = trimmed(raw);
    let names = flag_names(raw);
    if given.len() == 3 && (given[0] == '0' || given[0] == '1') && (given[1] == '0' || given[1]
        == '1') && (given[2] == '0' || given[2] == '1') {
        assert(is_flags(given));
    } else {
        assert(!is_flags(given)) by {
            if is_flags(given) {
                assert(given[0] == '0' || given[0] == '1');
                assert(given[1] == '0' || given[1] == '1');
                assert(given[2] == '0' || given[2] == '1');
            }
        }
    }
    lemma_list_holds(raw, known[0]);
    lemma_list_holds(raw, known[1]);
    lemma_list_holds(raw, known[2]);
    assert(names_flag(names, known, 0) <==> list_holds(raw, known[0]));
    assert(names_flag(names, known, 1) <==> list_holds(raw, known[1]));
    assert(names_flag(names, known, 2) <==> list_holds(raw, known[2]));
}

/// A flag is set for a known name that the list holds, unless the name is empty or stands earlier
/// among the known ones too.
pub proof fn law_flags_follow_any_names(
    raw: Seq<char>,
    known: Seq<Seq<char>>,
    default_all: bool,
    k: int,
)
    requires
        known.len() == 3,
        0 <= k < 3,
        !(trimmed(raw).len() == 3 && forall|i: int|
            0 <= i < 3 ==> #[trigger] trimmed(raw)[i] == '0' || trimmed(raw)[i] == '1'),
    ensures
        ({
            let flags = normalized_flags(raw, known, default_all);
            let wanted = |i: int|
                known[i].len() > 0 && list_holds(raw, known[i]) && forall|j: int|
                    0 <= j < i ==> #[trigger] known[j] != known[i];
            if wanted(0) || wanted(1) || wanted(2) {
                flags.len() == 3 && flags[k] == if wanted(k) { '1' } else { '0' }
            } else {
                flags == if default_all { "111"@ } else { "100"@ }
            }
        }),
{
    let names = flag_names(raw);
    assert(!is_flags(trimmed(raw)));
    lemma_list_holds(raw, known[0]);
    lemma_list_holds(raw, known[1]);
    lemma_list_holds(raw, known[2]);
    assert(k == 0 || k == 1 || k == 2);
}

proof fn lemma_list_holds(raw: Seq<char>, name: Seq<char>)
    ensures
        flag_names(raw).contains(name) <==> list_holds(raw, name),
{
    let list = ascii_lowered(trimmed(raw));
    let pieces = crate::text::split_on(list, ',');
    let names = flag_names(raw);
    if names.contains(name) {
        let k = choose|k: int| 0 <= k < names.len() && names[k] == name;
        assert(pieces.contains(pieces[k]));
        crate::laws::text::law_pieces_stand_between_separators(list, ',', pieces[k]);
        let (i, j) = choose|i: int, j: int| #[trigger]
            piece_at(list, ',', i, j) && pieces[k] == list.subrange(i, j);
        assert(piece_at(list, ',', i, j) && trimmed(list.subrange(i, j)) == name);
    }
    if list_holds(raw, name) {
        let (i, j) = choose|i: int, j: int| #[trigger]
            piece_at(list, ',', i, j) && trimmed(list.subrange(i, j)) == name;
        let piece = list.subrange(i, j);
        crate::laws::text::law_pieces_stand_between_separators(list, ',', piece);
        let k = choose|k: int| 0 <= k < pieces.len() && pieces[k] == piece;
        assert(names[k] == name);
    }
}

/// The place of a parameter in the query.
pub open spec fn param_place(name: Seq<char>) -> int {
    if name == "q"@ {
        0
    } else if name == "categories"@ {
        1
    } else if name == "purity"@ {
        2
    } else if name == "sorting"@ {
        3
    } else if name == "topRange"@ {
        4
    } else if name == "atleast"@ {
        5
    } else if name == "apikey"@ {
        6
    } else {
        7
    }
}

/// Whether a search asks for a value under a parameter name. Each value is that of its own field:
/// the query and the key without white space around them, both and the size only where they are
/// not empty, and the range of a top list only where that is the sorting.
pub open spec fn asks_for(
    search: WallhavenSource,
    page: u32,
    name: Seq<char>,
    value: Seq<char>,
) -> bool {
    ||| name == "q"@ && value.len() > 0 && (search.query matches Some(query) && value == trimmed(
        query@,
    ))
    ||| name == "categories"@ && flags_for(
        search.categories@,
        "general"@,
        "people"@,
        "anime"@,
        "111"@,
        value,
    )
    ||| name == "purity"@ && flags_for(
        search.purity@,
        "sfw"@,
        "sketchy"@,
        "nsfw"@,
        "100"@,
        value,
    )
    ||| name == "sorting"@ && value == search.sorting@
    ||| name == "topRange"@ && search.sorting@ == "toplist"@ && value.len() > 0 && value
        == search.top_range@
    ||| name == "atleast"@ && value.len() > 0 && (search.atleast matches Some(size) && value
        == size@)
    ||| name == "apikey"@ && value.len() > 0 && (search.api_key matches Some(key) && value
        == trimmed(key@))
    ||| name == "page"@ && value == crate::text::decimal(page as nat)
}

proof fn lemma_param_names()
    ensures
        param_place("q"@) == 0,
        param_place("categories"@) == 1,
        param_place("purity"@) == 2,
        param_place("sorting"@) == 3,
        param_place("topRange"@) == 4,
        param_place("atleast"@) == 5,
        param_place("apikey"@) == 6,
        param_place("page"@) == 7,
{
    reveal_strlit("q");
    reveal_strlit("categories");
    reveal_strlit("purity");
    reveal_strlit("sorting");
    reveal_strlit("topRange");
    reveal_strlit("atleast");
    reveal_strlit("apikey");
    reveal_strlit("page");
    assert("q"@.len() == 1);
    assert("categories"@.len() == 10);
    assert("purity"@.len() == 6 && "purity"@[0] == 'p');
    assert("sorting"@.len() == 7 && "sorting"@[0] == 's');
    assert("topRange"@.len() == 8);
    assert("atleast"@.len() == 7 && "atleast"@[0] == 'a');
    assert("apikey"@.len() == 6 && "apikey"@[0] == 'a');
    assert("page"@.len() == 4);
}

proof fn lemma_known_flags(search: WallhavenSource)
    ensures
        forall|value: Seq<char>| #[trigger]
            flags_for(
                search.categories@,
                "general"@,
                "people"@,
                "anime"@,
                "111"@,
                value,
            ) <==> value == normalized_flags(search.categories@, category_names(), true),
        forall|value: Seq<char>| #[trigger]
            flags_for(
                search.purity@,
                "sfw"@,
                "sketchy"@,
                "nsfw"@,
                "100"@,
                value,
            ) <==> value == normalized_flags(search.purity@, purity_names(), false),
{
    reveal_strlit("general");
    reveal_strlit("people");
    reveal_strlit("anime");
    reveal_strlit("sfw");
    reveal_strlit("sketchy");
    reveal_strlit("nsfw");
    assert("general"@.len() == 7 && "people"@.len() == 6 && "anime"@.len() == 5);
    assert("sfw"@.len() == 3 && "sketchy"@.len() == 7 && "nsfw"@.len() == 4);
    law_flags_follow_the_names(search.categories@, category_names(), true);
    law_flags_follow_the_names(search.purity@, purity_names(), false);
    let categories = normalized_flags(search.categories@, category_names(), true);
    let purity = normalized_flags(search.purity@, purity_names(), false);
    assert forall|value: Seq<char>| #[trigger]
        flags_for(
            search.categories@,
            "general"@,
            "people"@,
            "anime"@,
            "111"@,
            value,
        ) implies value == categories by {
        assert(value =~= categories);
    }
    assert forall|value: Seq<char>| #[trigger]
        flags_for(
            search.purity@,
            "sfw"@,
            "sketchy"@,
            "nsfw"@,
            "100"@,
            value,
        ) implies value == purity by {
        assert(value =~= purity);
    }
}

/// A query carries exactly what its search asks for: each parameter at most once, with the value
/// of its own field, and in their order.
pub proof fn law_query_carries_what_the_search_asks_for(search: WallhavenSource, page: u32)
    ensures
        forall|name: Seq<char>, value: Seq<char>|
            search_params(search, page).contains((name, value)) <==> #[trigger] asks_for(
                search,
                page,
                name,
                value,
            ),
        forall|i: int, j: int|
            0 <= i < j < search_params(search, page).len() ==> param_place(
                (#[trigger] search_params(search, page)[i]).0,
            ) < param_place((#[trigger] search_params(search, page)[j]).0),
{
    lemma_param_names();
    lemma_known_flags(search);
    let params = search_params(search, page);
    let categories = normalized_flags(search.categories@, category_names(), true);
    let purity = normalized_flags(search.purity@, purity_names(), false);
    let none = Seq::<(Seq<char>, Seq<char>)>::empty();
    let query = trimmed(crate::text::text_or(search.query, Seq::empty()));
    let range = if search.sorting@ == "toplist"@ { search.top_range@ } else { Seq::empty() };
    let size = crate::text::text_or(search.atleast, Seq::empty());
    let key = trimmed(crate::text::text_or(search.api_key, Seq::empty()));
    assert(trimmed(Seq::<char>::empty()).len() == 0);
    let a = lemma_param_added(none, 0, "q"@, query);
    let b = lemma_param_pushed(a, 1, "categories"@, categories);
    let c = lemma_param_pushed(b, 2, "purity"@, purity);
    let d = lemma_param_pushed(c, 3, "sorting"@, search.sorting@);
    let e = lemma_param_added(d, 4, "topRange"@, range);
    let f = lemma_param_added(e, 5, "atleast"@, size);
    let g = lemma_param_added(f, 6, "apikey"@, key);
    let h = lemma_param_pushed(g, 7, "page"@, crate::text::decimal(page as nat));
    assert(h == params);
    assert forall|name: Seq<char>, value: Seq<char>|
        params.contains((name, value)) <==> #[trigger] asks_for(search, page, name, value) by {
        let pair = (name, value);
        assert(!none.contains(pair));
    }
}

/// Whether parameters stand in their order, all of them ahead of a place.
pub open spec fn in_order(params: Seq<(Seq<char>, Seq<char>)>, place: int) -> bool {
    &&& forall|i: int, j: int|
        0 <= i < j < params.len() ==> param_place((#[trigger] params[i]).0) < param_place(
            (#[trigger] params[j]).0,
        )
    &&& forall|i: int| 0 <= i < params.len() ==> param_place((#[trigger] params[i]).0) < place
}

proof fn lemma_param_pushed(
    params: Seq<(Seq<char>, Seq<char>)>,
    place: int,
    name: Seq<char>,
    value: Seq<char>,
) -> (r: Seq<(Seq<char>, Seq<char>)>)
    requires
        in_order(params, place),
        param_place(name) == place,
    ensures
        r == params.push((name, value)),
        in_order(r, place + 1),
        forall|pair: (Seq<char>, Seq<char>)| #[trigger]
            r.contains(pair) <==> params.contains(pair) || pair == (name, value),
{
    let r = params.push((name, value));
    assert forall|pair: (Seq<char>, Seq<char>)| #[trigger]
        r.contains(pair) <==> params.contains(pair) || pair == (name, value) by {
        if params.contains(pair) {
            let i = choose|i: int| 0 <= i < params.len() && params[i] == pair;
            assert(r[i] == pair);
        }
        assert(r[params.len() as int] == (name, value));
        if r.contains(pair) {
            let i = choose|i: int| 0 <= i < r.len() && r[i] == pair;
            if i < params.len() {
                assert(params[i] == pair);
            }
        }
    }
    r
}

proof fn lemma_param_added(
    params: Seq<(Seq<char>, Seq<char>)>,
    place: int,
    name: Seq<char>,
    value: Seq<char>,
) -> (r: Seq<(Seq<char>, Seq<char>)>)
    requires
        in_order(params, place),
        param_place(name) == place,
    ensures
        r == if value.len() == 0 { params } else { params.push((name, value)) },
        in_order(r, place + 1),
        forall|pair: (Seq<char>, Seq<char>)| #[trigger]
            r.contains(pair) <==> params.contains(pair) || (pair == (name, value) && value.len()
                > 0),
{
    if value.len() == 0 {
        params
    } else {
        lemma_param_pushed(params, place, name, value)
    }
}

/// A search with the sorting `toplist` and a range asks for that range and for no other, and one
/// with another sorting or no range asks for none.
pub proof fn law_top_list_asks_for_its_own_range(search: WallhavenSource, page: u32)
    ensures
        search.sorting@ == "toplist"@ && search.top_range@.len() > 0 ==> search_params(
            search,
            page,
        ).contains(("topRange"@, search.top_range@)),
        forall|k: int|
            0 <= k < search_params(search, page).len() && (#[trigger] search_params(
                search,
                page,
            )[k]).0 == "topRange"@ ==> search.sorting@ == "toplist"@ && search_params(
                search,
                page,
            )[k].1 == search.top_range@,
{
    law_query_carries_what_the_search_asks_for(search, page);
    lemma_param_names();
    let params = search_params(search, page);
    assert(asks_for(search, page, "topRange"@, search.top_range@) <==> search.sorting@
        == "toplist"@ && search.top_range@.len() > 0);
    assert forall|k: int| 0 <= k < params.len() && (#[trigger] params[k]).0 == "topRange"@ implies
        search.sorting@ == "toplist"@ && params[k].1 == search.top_range@ by {
        assert(params.contains((params[k].0, params[k].1)));
        assert(asks_for(search, page, params[k].0, params[k].1));
    }
}

/// The query, the size and the key that are asked for are those of the search, the query and the
/// key without white space around them; each is asked for exactly where it is not empty.
pub proof fn law_query_size_and_key_are_those_of_the_search(
    search: WallhavenSource,
    page: u32,
    value: Seq<char>,
)
    ensures
        search_params(search, page).contains(("q"@, value)) <==> search.query is Some && value
            == trimmed(search.query->0@) && value.len() > 0,
        search_params(search, page).contains(("atleast"@, value)) <==> search.atleast is Some
            && value == search.atleast->0@ && value.len() > 0,
        search_params(search, page).contains(("apikey"@, value)) <==> search.api_key is Some
            && value == trimmed(search.api_key->0@) && value.len() > 0,
        search_params(search, page).contains(("sorting"@, value)) <==> value == search.sorting@,
{
    law_query_carries_what_the_search_asks_for(search, page);
    lemma_param_names();
    assert(asks_for(search, page, "q"@, value) <==> search.query is Some && value == trimmed(
        search.query->0@,
    ) && value.len() > 0);
    assert(asks_for(search, page, "atleast"@, value) <==> search.atleast is Some && value
        == search.atleast->0@ && value.len() > 0);
    assert(asks_for(search, page, "apikey"@, value) <==> search.api_key is Some && value
        == trimmed(search.api_key->0@) && value.len() > 0);
    assert(asks_for(search, page, "sorting"@, value) <==> value == search.sorting@);
}

proof fn lemma_joined_holds(parts: Seq<Seq<char>>, separator: Seq<char>, k: int) -> (r: (
    Seq<char>,
    Seq<char>,
))
    requires
        0 <= k < parts.len(),
    ensures
        crate::text::joined(parts, separator) == r.0 + parts[k] + r.1,
    decreases parts.len(),
{
    let none = Seq::<char>::empty();
    if parts.len() == 1 {
        assert(parts[0] =~= none + parts[k] + none);
        (none, none)
    } else {
        let init = parts.drop_last();
        let before = crate::text::joined(init, separator);
        if k == parts.len() - 1 {
            assert(before + separator + parts.last() =~= (before + separator) + parts[k] + none);
            (before + separator, none)
        } else {
            let r = lemma_joined_holds(init, separator, k);
            let after = r.1 + separator + parts.last();
            assert(before + separator + parts.last() =~= r.0 + parts[k] + after);
            (r.0, after)
        }
    }
}

/// On the default base every page of every search has an address that fits: it leads to the search
/// page there, and carries everything that the search asks for.
pub proof fn law_default_searches_have_an_address(
    search: &WallhavenSource,
    page: u32,
    room: bool,
    r: Result<String, WallhavenError>,
    name: Seq<char>,
    value: Seq<char>,
)
    requires
        search.api_base@ == "https://wallhaven.cc/api/v1"@,
        call_ensures(WallhavenSource::has_room, (search, page), room),
        call_ensures(WallhavenSource::search_url, (search, page), r),
    ensures
        room,
        search.address_fits(page),
        r is Ok,
        r->Ok_0@.len() > 35,
        r->Ok_0@.take(35) == "https://wallhaven.cc/api/v1/search?"@,
        asks_for(*search, page, name, value) ==> exists|before: Seq<char>, after: Seq<char>|
            r->Ok_0@ == #[trigger] (before + (encoded(name) + "="@ + encoded(value)) + after),
{
    let base = search.search_base();
    let params = search_params(*search, page);
    lemma_default_base(*search);
    law_query_carries_what_the_search_asks_for(*search, page);
    let texts = params.map_values(
        |param: (Seq<char>, Seq<char>)| encoded(param.0) + "="@ + encoded(param.1),
    );
    let query = crate::text::joined(texts, "&"@);
    assert(r->Ok_0@ == base + "?"@ + query);
    let start = base + "?"@;
    assert(start =~= "https://wallhaven.cc/api/v1/search?"@);
    assert(start.len() == 35) by {
        reveal_strlit("?");
    }
    let digits = crate::text::decimal(page as nat);
    assert(asks_for(*search, page, "page"@, digits));
    assert(params.contains(("page"@, digits)));
    let at = choose|at: int| 0 <= at < params.len() && params[at] == ("page"@, digits);
    let around = lemma_joined_holds(texts, "&"@, at);
    assert(texts[at].len() > 0) by {
        reveal_strlit("=");
    }
    assert(r->Ok_0@.take(35) =~= start);
    if asks_for(*search, page, name, value) {
        assert(params.contains((name, value)));
        let k = choose|k: int| 0 <= k < params.len() && params[k] == (name, value);
        let (before, after) = lemma_joined_holds(texts, "&"@, k);
        assert(texts[k] == encoded(name) + "="@ + encoded(value));
        assert(start + (before + texts[k] + after) =~= (start + before) + texts[k] + after);
    }
}

/// Whether an address fits is a matter of the lengths of its texts: where the base and the
/// parameters are not of millions of characters, it does.
pub proof fn law_short_addresses_fit(base: Seq<char>, params: Seq<(Seq<char>, Seq<char>)>, n: nat)
    requires
        base.len() <= 0x10_0000,
        params.len() <= 8,
        n <= 0x100_0000,
        forall|k: int|
            0 <= k < params.len() ==> (#[trigger] params[k]).0.len() + params[k].1.len() <= n,
    ensures
        url_bound(base, params) <= 0xFFFF_FFFF,
        fits_url(base, params),
{
    lemma_params_len(params, n);
    assert(params.len() * n <= 8 * 0x100_0000) by (nonlinear_arith)
        requires
            params.len() <= 8,
            n <= 0x100_0000,
    ;
}

proof fn lemma_params_len(params: Seq<(Seq<char>, Seq<char>)>, n: nat)
    requires
        forall|k: int|
            0 <= k < params.len() ==> (#[trigger] params[k]).0.len() + params[k].1.len() <= n,
    ensures
        params_len(params) <= params.len() * n,
    decreases params.len(),
{
    if params.len() > 0 {
        let init = params.drop_last();
        assert forall|k: int| 0 <= k < init.len() implies (#[trigger] init[k]).0.len()
            + init[k].1.len() <= n by {
            assert(init[k] == params[k]);
        }
        lemma_params_len(init, n);
        assert(params[params.len() - 1] == params.last());
        assert(params.len() * n == init.len() * n + n) by (nonlinear_arith)
            requires
                params.len() == init.len() + 1,
        ;
    }
}

proof fn lemma_default_base(search: WallhavenSource)
    requires
        search.api_base@ == "https://wallhaven.cc/api/v1"@,
    ensures
        plain_base(search.search_base()),
        search.search_base() + "?"@ == "https://wallhaven.cc/api/v1/search?"@,
        search.search_base().len() == 34,
        crate::text::ascii_only(search.search_base()),
        crate::text::free_of(search.search_base(), '%'),
        crate::text::free_of(search.search_base(), '#'),
{
    crate::sources::wallhaven::law_default_base_is_an_address(search);
    reveal_strlit("https://wallhaven.cc/api/v1");
    reveal_strlit("/search");
    reveal_strlit("?");
    reveal_strlit("https://wallhaven.cc/api/v1/search?");
    let base = search.search_base();
    assert(base + "?"@ =~= "https://wallhaven.cc/api/v1/search?"@);
    assert(base.len() == 34);
}

/// A query names its page.
pub proof fn law_query_names_its_page(search: WallhavenSource, page: u32)
    ensures
        exists|digits: Seq<char>| #[trigger]
            search_params(search, page).contains(("page"@, digits)) && digits_value(digits) == page,
{
    law_query_carries_what_the_search_asks_for(search, page);
    law_decimal_stands_for_the_number(page as nat);
    let digits = crate::text::decimal(page as nat);
    assert(asks_for(search, page, "page"@, digits));
    assert(search_params(search, page).contains(("page"@, digits)));
}

/// A configured source is searched for with its own values; a value that is not configured is
/// filled in, but none is made up for the query, the size and the key.
pub proof fn law_configured_values_are_searched_for(
    search: WallhavenSource,
    source: SourceConfig,
    download_dir: Seq<char>,
)
    requires
        configured(search, source, download_dir),
    ensures
        source matches SourceConfig::Wallhaven {
            query,
            categories,
            purity,
            sorting,
            top_range,
            atleast,
            max_items,
            api_key,
        } && {
            &&& query matches Some(text) ==> search.query matches Some(own) && own@ == text@
            &&& query is None ==> search.query is None
            &&& categories matches Some(text) ==> search.categories@ == text@
            &&& categories is None ==> search.categories@ == "general,people,anime"@
            &&& purity matches Some(text) ==> search.purity@ == text@
            &&& purity is None ==> search.purity@ == "sfw"@
            &&& sorting matches Some(text) ==> search.sorting@ == text@
            &&& sorting is None ==> search.sorting@ == "date_added"@
            &&& top_range matches Some(text) ==> search.top_range@ == text@
            &&& top_range is None ==> search.top_range@ == "1M"@
            &&& atleast matches Some(text) ==> search.atleast matches Some(own) && own@ == text@
            &&& atleast is None ==> search.atleast is None
            &&& search.max_items == max_items
            &&& api_key matches Some(text) ==> search.api_key matches Some(own) && own@ == text@
            &&& api_key is None ==> search.api_key is None
            &&& search.download_dir@ == download_dir
            &&& search.api_base@ == "https://wallhaven.cc/api/v1"@
        },
{
}

/// The pages of a search are asked for under `/search` of its base.
pub proof fn law_searches_go_to_the_search_page(search: WallhavenSource)
    ensures
        search.search_base() == search.api_base@ + "/search"@,
{
}

/// Whether a search result holds an image URL that is not blank.
pub open spec fn holds_url(item: Json, url: Seq<char>) -> bool {
    item matches Json::Object(members) && members.contains_key("path"@) && members["path"@]
        == Json::Text(url) && trimmed(url).len() > 0
}

/// A result page gives the URLs of its items one by one: the items of two pages put together give
/// the URLs of the first and then those of the second, one item gives its own URL, and none where
/// it has none or a blank one.
pub proof fn law_page_gives_the_url_of_each_item(
    first: Seq<Json>,
    second: Seq<Json>,
    item: Json,
    page: Map<Seq<char>, Json>,
)
    ensures
        page_urls(Json::Object(page.insert("data"@, Json::Array(first + second)))) == page_urls(
            Json::Object(page.insert("data"@, Json::Array(first))),
        ) + page_urls(Json::Object(page.insert("data"@, Json::Array(second)))),
        forall|url: Seq<char>| #[trigger]
            holds_url(item, url) ==> page_urls(
                Json::Object(page.insert("data"@, Json::Array(seq![item]))),
            ) == seq![url],
        (forall|url: Seq<char>| !#[trigger] holds_url(item, url)) ==> page_urls(
            Json::Object(page.insert("data"@, Json::Array(seq![item]))),
        ).len() == 0,
        !page.contains_key("data"@) || !(page["data"@] is Array) ==> page_urls(
            Json::Object(page),
        ).len() == 0,
    decreases second.len(),
{
    let one = seq![item];
    assert(one.drop_last() =~= Seq::<Json>::empty());
    reveal_with_fuel(result_urls, 2);
    if let Some(Json::Text(path)) = crate::sources::wallhaven::json_member(item, "path"@) {
        if trimmed(path).len() > 0 {
            assert(holds_url(item, path));
            assert(result_urls(one) =~= seq![path]);
        }
    }
    if second.len() == 0 {
        assert(first + second =~= first);
        assert(result_urls(first) + result_urls(second) =~= result_urls(first));
    } else {
        law_page_gives_the_url_of_each_item(first, second.drop_last(), item, page);
        assert((first + second).drop_last() =~= first + second.drop_last());
        assert(result_urls(first + second) =~= result_urls(first) + result_urls(second));
    }
}

/// A page says how many there are; where it does not, it is taken for the last one. The number is
/// at least one and at most ten thousand.
pub proof fn law_page_says_how_many_there_are(page: u32, json: Map<Seq<char>, Json>, number: u64)
    ensures
        1 <= page_count(Json::Object(json), page) <= 10_000,
        ({
            let told = Json::Object(
                json.insert(
                    "meta"@,
                    Json::Object(map!["last_page"@ => Json::Natural(number)]),
                ),
            );
            &&& 1 <= number <= 10_000 ==> page_count(told, page) == number
            &&& number == 0 ==> page_count(told, page) == 1
            &&& number > 10_000 ==> page_count(told, page) == 10_000
        }),
        !json.contains_key("meta"@) && 1 <= page <= 10_000 ==> page_count(Json::Object(json), page)
            == page,
        !json.contains_key("meta"@) && page == 0 ==> page_count(Json::Object(json), page) == 1,
        !json.contains_key("meta"@) && page > 10_000 ==> page_count(Json::Object(json), page)
            == 10_000,
        json.contains_key("meta"@) && !(json["meta"@] is Object) && 1 <= page <= 10_000
            ==> page_count(Json::Object(json), page) == page,
        json.contains_key("meta"@) && (json["meta"@] matches Json::Object(meta) && (
        !meta.contains_key("last_page"@) || !(meta["last_page"@] is Natural))) && 1 <= page
            <= 10_000 ==> page_count(Json::Object(json), page) == page,
{
}

/// An answer that is no object holds no image, and is taken for the last page.
pub proof fn law_other_answers_hold_no_image(json: Json, page: u32)
    requires
        !(json is Object),
    ensures
        page_urls(json).len() == 0,
        1 <= page <= 10_000 ==> page_count(json, page) == page,
{
}

/// A page gives all of its images while there is room for them, and only as many as there is room
/// for; the first image of a page is taken even where there is none.
pub proof fn law_page_gives_what_there_is_room_for(have: int, max_items: int, on_page: int)
    requires
        0 <= have,
        0 <= max_items,
        0 <= on_page,
    ensures
        have + on_page <= max_items ==> page_share(have, max_items, on_page) == on_page,
        have < max_items < have + on_page ==> page_share(have, max_items, on_page) == max_items
            - have,
        have >= max_items && on_page > 0 ==> page_share(have, max_items, on_page) == 1,
        on_page == 0 ==> page_share(have, max_items, on_page) == 0,
{
}

/// The parameters of a query are the pairs that are given, in their order.
pub proof fn law_every_pair_is_a_parameter(pairs: Seq<(String, String)>)
    ensures
        pair_texts(pairs).len() == pairs.len(),
        forall|i: int|
            0 <= i < pairs.len() ==> (#[trigger] pair_texts(pairs)[i]).0 == pairs[i].0@
                && pair_texts(pairs)[i].1 == pairs[i].1@,
{
}

/// What an error of a search says names the base or the page, and its view holds these and the
/// reason.
pub proof fn law_search_errors_say_what_is_wrong(error: WallhavenError)
    ensures
        error is NotWallhaven ==> error_message(error) == "not a wallhaven source"@ && error@
            == WallhavenFault::NotWallhaven,
        error matches WallhavenError::InvalidApiBase { base, reason } ==> error_message(error)
            == "invalid wallhaven api base "@ + base@ && error@ == WallhavenFault::InvalidApiBase(
            base@,
            reason@,
        ),
        error matches WallhavenError::InvalidResponse { page, reason } ==> error_message(error)
            == "failed to parse wallhaven response (page "@ + crate::text::decimal(page as nat)
            + ")"@ && error@ == WallhavenFault::InvalidResponse(page, reason@),
{
}

/// Every image of a page becomes a candidate behind those there were, with its id, its address,
/// its date and the directory of the refresh. Another page is needed exactly while there is room
/// and there is one.
pub proof fn law_images_become_candidates(
    before: Refresh,
    found: Seq<FoundImage>,
    last_page: u32,
    after: Refresh,
    more: bool,
    k: int,
)
    requires
        page_added(before, found, last_page, after, more),
    ensures
        after.candidates@.len() == before.candidates@.len() + found.len(),
        0 <= k < before.candidates@.len() ==> after.candidates@[k] == before.candidates@[k],
        0 <= k < found.len() ==> {
            let candidate = after.candidates@[before.candidates@.len() + k];
            &&& candidate.id@ == found[k].id@
            &&& candidate.modified == found[k].modified
            &&& candidate.origin == Origin::Rss
            &&& candidate.location matches Location::Remote { url, download_dir } && url@
                == found[k].url@ && download_dir@ == before.download_dir@
        },
        more <==> before.candidates@.len() + found.len() < before.max_items && before.page
            < last_page,
        after.page == if more { before.page + 1 } else { before.page as int },
        after.max_items == before.max_items,
        after.download_dir@ == before.download_dir@,
{
    if 0 <= k < before.candidates@.len() {
        assert(after.candidates@.take(before.candidates@.len() as int)[k] == before.candidates@[k]);
    }
}

} // verus!
