//! Wallhaven image source.
//!
//! Pulls wallpaper candidates from the Wallhaven API (`https://wallhaven.cc/api/v1/search`). The
//! images are downloaded and cached like those of a feed, so the candidates have the origin
//! `Origin::Rss`.

use crate::config::SourceConfig;
use crate::sources::{ImageCandidate, SourceKind};
use crate::text::{chars_of, decimal_text, same_text, split};
use vstd::prelude::*;
use vstd::string::*;

verus! {

/// Where the API is found.
pub const DEFAULT_API_BASE: &'static str = "https://wallhaven.cc/api/v1";

/// Whether a text is a three-bit flag string.
pub open spec fn is_flags(s: Seq<char>) -> bool {
    s.len() == 3 && forall|i: int| 0 <= i < 3 ==> (#[trigger] s[i] == '0' || s[i] == '1')
}

/// The names of a comma separated list, in lower case.
pub open spec fn flag_names(raw: Seq<char>) -> Seq<Seq<char>> {
    crate::text::split_on(crate::text::ascii_lowered(crate::text::trimmed(raw)), ',').map_values(
        |part: Seq<char>| crate::text::trimmed(part),
    )
}

/// Whether the list names the known name at `index`; of equal known names only the first counts,
/// and an empty name never does.
pub open spec fn names_flag(names: Seq<Seq<char>>, known: Seq<Seq<char>>, index: int) -> bool {
    &&& known[index].len() > 0
    &&& names.contains(known[index])
    &&& forall|j: int| 0 <= j < index ==> #[trigger] known[j] != known[index]
}

pub open spec fn flag_char(set: bool) -> char {
    if set {
        '1'
    } else {
        '0'
    }
}

/// The flag string that a list of names, or a flag string, stands for.
pub open spec fn normalized_flags(
    raw: Seq<char>,
    known: Seq<Seq<char>>,
    default_all: bool,
) -> Seq<char> {
    let names = flag_names(raw);
    if is_flags(crate::text::trimmed(raw)) {
        crate::text::trimmed(raw)
    } else if names_flag(names, known, 0) || names_flag(names, known, 1) || names_flag(
        names,
        known,
        2,
    ) {
        seq![
            flag_char(names_flag(names, known, 0)),
            flag_char(names_flag(names, known, 1)),
            flag_char(names_flag(names, known, 2)),
        ]
    } else if default_all {
        "111"@
    } else {
        "100"@
    }
}

/// The characters of three texts.
pub open spec fn three(known: Seq<&str>) -> Seq<Seq<char>> {
    known.map_values(|name: &str| name@)
}

fn flags_given(s: &str) -> (r: bool)
    ensures
        r == is_flags(s@),
{
    let chars = chars_of(s);
    chars.len() == 3 && (chars[0] == '0' || chars[0] == '1') && (chars[1] == '0' || chars[1] == '1')
        && (chars[2] == '0' || chars[2] == '1')
}

/// The position of a name among the known ones, or 3.
fn known_position(known: &[&str; 3], name: &str) -> (r: usize)
    ensures
        r <= 3,
        r < 3 ==> three(known@)[r as int] == name@,
        forall|j: int| 0 <= j < r ==> #[trigger] three(known@)[j] != name@,
{
    if same_text(known[0], name) {
        assert(three(known@)[0] == name@);
        0
    } else if same_text(known[1], name) {
        assert(three(known@)[0] != name@);
        assert(three(known@)[1] == name@);
        1
    } else if same_text(known[2], name) {
        assert(three(known@)[0] != name@ && three(known@)[1] != name@);
        assert(three(known@)[2] == name@);
        2
    } else {
        assert(three(known@)[0] != name@ && three(known@)[1] != name@ && three(known@)[2]
            != name@);
        3
    }
}

fn flag_digit(set: bool) -> (r: char)
    ensures
        r == flag_char(set),
{
    if set {
        '1'
    } else {
        '0'
    }
}

/// Wallhaven encodes `categories` and `purity` as three-bit flag strings (`1` = include) while the
/// config file and the settings window write human names such as `"general,anime"` or `"sfw"`.
///
/// The API silently ignores a value it cannot parse, which would quietly widen the search to every
/// category or purity instead of failing, so both shapes are normalised into the flag string it
/// actually honours. An empty or unrecognised value means "no restriction" for categories but
/// "safe for work" for purity.
pub fn normalize_flag(raw: &str, known: [&str; 3], default_all: bool) -> (r: String)
    ensures
        r@ == normalized_flags(raw@, three(known@), default_all),
{
    let trimmed = raw.trim();
    if flags_given(trimmed) {
        return trimmed.to_owned();
    }
    let parts = split(trimmed.to_ascii_lowercase().as_str(), ',');
    let ghost names = flag_names(raw@);
    let ghost all = three(known@);
    let mut first = false;
    let mut second = false;
    let mut third = false;
    let mut i: usize = 0;
    while i < parts.len()
        invariant
            i <= parts@.len(),
            all == three(known@),
            all.len() == 3,
            names == flag_names(raw@),
            names.len() == parts@.len(),
            forall|k: int|
                0 <= k < parts@.len() ==> #[trigger] names[k] == crate::text::trimmed(
                    parts@[k]@,
                ),
            first == names_flag(names.take(i as int), all, 0),
            second == names_flag(names.take(i as int), all, 1),
            third == names_flag(names.take(i as int), all, 2),
        decreases parts@.len() - i,
    {
        let name = parts[i].as_str().trim();
        proof {
            lemma_one_more_name(names, i as int);
            assert(names[i as int] == name@);
        }
        if !name.is_empty() {
            let index = known_position(&known, name);
            if index == 0 {
                first = true;
            } else if index == 1 {
                second = true;
            } else if index == 2 {
                third = true;
            }
            proof {
                assert(index > 0 ==> all[0] != name@);
                assert(index > 1 ==> all[1] != name@);
                assert(index > 2 ==> all[2] != name@);
            }
        }
        i += 1;
    }
    assert(names.take(i as int) =~= names);
    if !first && !second && !third {
        return if default_all { "111".to_owned() } else { "100".to_owned() };
    }
    let mut r = String::new();
    r.push(flag_digit(first));
    r.push(flag_digit(second));
    r.push(flag_digit(third));
    assert(r@ =~= normalized_flags(raw@, all, default_all));
    r
}

proof fn lemma_one_more_name(names: Seq<Seq<char>>, at: int)
    requires
        0 <= at < names.len(),
    ensures
        forall|name: Seq<char>| #[trigger]
            names.take(at + 1).contains(name) <==> names.take(at).contains(name) || name
                == names[at],
{
    assert forall|name: Seq<char>| #[trigger]
        names.take(at + 1).contains(name) <==> names.take(at).contains(name) || name
            == names[at] by {
        if names.take(at).contains(name) {
            let m = names.take(at).index_of(name);
            assert(names.take(at + 1)[m] == name);
        }
        if names.take(at + 1).contains(name) && name != names[at] {
            let m = names.take(at + 1).index_of(name);
            assert(names.take(at)[m] == name);
        }
        assert(names.take(at + 1)[at] == names[at]);
    }
}

pub open spec fn category_names() -> Seq<Seq<char>> {
    seq!["general"@, "people"@, "anime"@]
}

pub open spec fn purity_names() -> Seq<Seq<char>> {
    seq!["sfw"@, "sketchy"@, "nsfw"@]
}

/// The category flags that a configured value stands for.
pub fn normalize_categories(raw: &str) -> (r: String)
    ensures
        r@ == normalized_flags(raw@, category_names(), true),
{
    let known = ["general", "people", "anime"];
    assert(three(known@) =~= category_names());
    normalize_flag(raw, known, true)
}

/// The purity flags that a configured value stands for.
pub fn normalize_purity(raw: &str) -> (r: String)
    ensures
        r@ == normalized_flags(raw@, purity_names(), false),
{
    let known = ["sfw", "sketchy", "nsfw"];
    assert(three(known@) =~= purity_names());
    normalize_flag(raw, known, false)
}

/// A normalised value is a flag string.
pub proof fn law_normalised_values_are_flags(
    raw: Seq<char>,
    known: Seq<Seq<char>>,
    default_all: bool,
)
    ensures
        is_flags(normalized_flags(raw, known, default_all)),
{
    reveal_strlit("111");
    reveal_strlit("100");
}

/// Flag strings have no white space to trim.
proof fn lemma_flags_trimmed(s: Seq<char>)
    requires
        is_flags(s),
    ensures
        crate::text::trimmed(s) == s,
{
    assert(s[0] == '0' || s[0] == '1');
    assert(s[2] == '0' || s[2] == '1');
}

/// Normalising a normalised value changes nothing.
pub proof fn law_normalising_twice_is_normalising_once(
    raw: Seq<char>,
    known: Seq<Seq<char>>,
    default_all: bool,
)
    ensures
        normalized_flags(normalized_flags(raw, known, default_all), known, default_all)
            == normalized_flags(raw, known, default_all),
{
    law_normalised_values_are_flags(raw, known, default_all);
    lemma_flags_trimmed(normalized_flags(raw, known, default_all));
}

/// Why a Wallhaven operation failed.
#[derive(Debug, PartialEq, Eq)]
pub enum WallhavenError {
    /// The configured source is of another kind.
    NotWallhaven,
    /// The API base is no URL, for the reason given.
    InvalidApiBase { base: String, reason: String },
    /// The response for a page is no JSON, for the reason given.
    InvalidResponse { page: u32, reason: String },
}

/// The view of a `WallhavenError`.
pub enum WallhavenFault {
    NotWallhaven,
    InvalidApiBase(Seq<char>, Seq<char>),
    InvalidResponse(u32, Seq<char>),
}

impl View for WallhavenError {
    type V = WallhavenFault;

    open spec fn view(&self) -> WallhavenFault {
        match *self {
            WallhavenError::NotWallhaven => WallhavenFault::NotWallhaven,
            WallhavenError::InvalidApiBase { base, reason } => WallhavenFault::InvalidApiBase(
                base@,
                reason@,
            ),
            WallhavenError::InvalidResponse { page, reason } => WallhavenFault::InvalidResponse(
                page,
                reason@,
            ),
        }
    }
}

/// What an error says, without the reason behind it.
pub open spec fn error_message(error: WallhavenError) -> Seq<char> {
    match error {
        WallhavenError::NotWallhaven => "not a wallhaven source"@,
        WallhavenError::InvalidApiBase { base, .. } => "invalid wallhaven api base "@ + base@,
        WallhavenError::InvalidResponse { page, .. } => "failed to parse wallhaven response (page "@
            + crate::text::decimal(page as nat) + ")"@,
    }
}

impl WallhavenError {
    /// What the error says, without the reason behind it.
    pub fn message(&self) -> (r: String)
        ensures
            r@ == error_message(*self),
    {
        match self {
            WallhavenError::NotWallhaven => "not a wallhaven source".to_owned(),
            WallhavenError::InvalidApiBase { base, .. } => {
                let mut r = "invalid wallhaven api base ".to_owned();
                r.append(base.as_str());
                r
            },
            WallhavenError::InvalidResponse { page, .. } => {
                let mut r = "failed to parse wallhaven response (page ".to_owned();
                r.append(decimal_text(*page as u64).as_str());
                r.append(")");
                r
            },
        }
    }

    /// The reason behind the error, where there is one.
    pub fn reason(&self) -> (r: Option<&str>)
        ensures
            match self@ {
                WallhavenFault::NotWallhaven => r is None,
                WallhavenFault::InvalidApiBase(_, reason) => r is Some && r->0@ == reason,
                WallhavenFault::InvalidResponse(_, reason) => r is Some && r->0@ == reason,
            },
    {
        match self {
            WallhavenError::NotWallhaven => None,
            WallhavenError::InvalidApiBase { reason, .. } => Some(reason.as_str()),
            WallhavenError::InvalidResponse { reason, .. } => Some(reason.as_str()),
        }
    }
}

/// A configured Wallhaven search. Paths are held as text.
#[derive(Debug)]
pub struct WallhavenSource {
    pub query: Option<String>,
    pub categories: String,
    pub purity: String,
    pub sorting: String,
    pub top_range: String,
    pub atleast: Option<String>,
    pub max_items: usize,
    pub api_key: Option<String>,
    pub download_dir: String,
    pub api_base: String,
}

/// Whether a search is what a configured source stands for, defaults filled in.
pub open spec fn configured(
    search: WallhavenSource,
    source: SourceConfig,
    download_dir: Seq<char>,
) -> bool {
    source matches SourceConfig::Wallhaven {
        query,
        categories,
        purity,
        sorting,
        top_range,
        atleast,
        max_items,
        api_key,
    } && {
        &&& crate::text::opt_text(search.query) == crate::text::opt_text(query)
        &&& search.categories@ == crate::text::text_or(categories, "general,people,anime"@)
        &&& search.purity@ == crate::text::text_or(purity, "sfw"@)
        &&& search.sorting@ == crate::text::text_or(sorting, "date_added"@)
        &&& search.top_range@ == crate::text::text_or(top_range, "1M"@)
        &&& crate::text::opt_text(search.atleast) == crate::text::opt_text(atleast)
        &&& search.max_items == max_items
        &&& crate::text::opt_text(search.api_key) == crate::text::opt_text(api_key)
        &&& search.download_dir@ == download_dir
        &&& search.api_base@ == "https://wallhaven.cc/api/v1"@
    }
}

/// The query parameters: name and value of each, in their order.
pub open spec fn search_params(search: WallhavenSource, page: u32) -> Seq<(Seq<char>, Seq<char>)> {
    let none = Seq::<(Seq<char>, Seq<char>)>::empty();
    let query = crate::text::trimmed(crate::text::text_or(search.query, Seq::empty()));
    let queried = with_param(none, "q"@, query);
    let flagged = queried.push(
        ("categories"@, normalized_flags(search.categories@, category_names(), true)),
    ).push(("purity"@, normalized_flags(search.purity@, purity_names(), false))).push(
        ("sorting"@, search.sorting@),
    );
    let ranged = if search.sorting@ == "toplist"@ {
        with_param(flagged, "topRange"@, search.top_range@)
    } else {
        flagged
    };
    let sized = with_param(
        ranged,
        "atleast"@,
        crate::text::text_or(search.atleast, Seq::empty()),
    );
    let key = crate::text::trimmed(crate::text::text_or(search.api_key, Seq::empty()));
    with_param(sized, "apikey"@, key).push(("page"@, crate::text::decimal(page as nat)))
}

/// `params` with one more, unless its value is empty.
pub open spec fn with_param(
    params: Seq<(Seq<char>, Seq<char>)>,
    name: Seq<char>,
    value: Seq<char>,
) -> Seq<(Seq<char>, Seq<char>)> {
    if value.len() == 0 {
        params
    } else {
        params.push((name, value))
    }
}

/// The characters of a list of pairs.
pub open spec fn pair_texts(pairs: Seq<(String, String)>) -> Seq<(Seq<char>, Seq<char>)> {
    pairs.map_values(|pair: (String, String)| (pair.0@, pair.1@))
}

fn add_param(params: &mut Vec<(String, String)>, name: &str, value: &str)
    ensures
        pair_texts(final(params)@) == pair_texts(old(params)@).push((name@, value@)),
{
    params.push((name.to_owned(), value.to_owned()));
    assert(pair_texts(params@) =~= pair_texts(old(params)@).push((name@, value@)));
}

fn add_param_if_set(params: &mut Vec<(String, String)>, name: &str, value: &str)
    ensures
        pair_texts(final(params)@) == with_param(pair_texts(old(params)@), name@, value@),
{
    if !value.is_empty() {
        add_param(params, name, value);
    }
}

/// An optional text, empty where it is absent.
fn or_empty(value: &Option<String>) -> (r: &str)
    ensures
        r@ == crate::text::text_or(*value, Seq::empty()),
{
    match value {
        Some(text) => text.as_str(),
        None => {
            proof {
                reveal_strlit("");
                assert(""@ =~= Seq::<char>::empty());
            }
            ""
        },
    }
}

fn or_default(value: &Option<String>, default: &str) -> (r: String)
    ensures
        r@ == crate::text::text_or(*value, default@),
{
    match value {
        Some(text) => text.clone(),
        None => default.to_owned(),
    }
}

impl WallhavenSource {
    /// The search that a configured source stands for.
    pub fn new(source: &SourceConfig, download_dir: String) -> (r: Result<Self, WallhavenError>)
        ensures
            match r {
                Ok(search) => configured(search, *source, download_dir@),
                Err(error) => !(source is Wallhaven) && error is NotWallhaven,
            },
    {
        match source {
            SourceConfig::Wallhaven {
                query,
                categories,
                purity,
                sorting,
                top_range,
                atleast,
                max_items,
                api_key,
            } => Ok(
                WallhavenSource {
                    query: query.clone(),
                    categories: or_default(categories, "general,people,anime"),
                    purity: or_default(purity, "sfw"),
                    sorting: or_default(sorting, "date_added"),
                    top_range: or_default(top_range, "1M"),
                    atleast: atleast.clone(),
                    max_items: *max_items,
                    api_key: api_key.clone(),
                    download_dir,
                    api_base: DEFAULT_API_BASE.to_owned(),
                },
            ),
            _ => Err(WallhavenError::NotWallhaven),
        }
    }

    /// The same search on another API base.
    pub fn with_api_base(self, api_base: &str) -> (r: Self)
        ensures
            r.api_base@ == api_base@,
            r == (WallhavenSource { api_base: r.api_base, ..self }),
    {
        WallhavenSource { api_base: api_base.to_owned(), ..self }
    }

    /// The name of the source.
    pub fn name(&self) -> (r: &str)
        ensures
            r@ == "wallhaven"@,
    {
        "wallhaven"
    }

    /// The kind of the source.
    pub fn kind(&self) -> (r: SourceKind)
        ensures
            r == SourceKind::Wallhaven,
    {
        SourceKind::Wallhaven
    }

    /// The query parameters of a result page.
    pub fn query_params(&self, page: u32) -> (r: Vec<(String, String)>)
        ensures
            pair_texts(r@) == search_params(*self, page),
    {
        let mut params: Vec<(String, String)> = Vec::new();
        assert(pair_texts(params@) =~= Seq::<(Seq<char>, Seq<char>)>::empty());
        add_param_if_set(&mut params, "q", or_empty(&self.query).trim());
        add_param(
            &mut params,
            "categories",
            normalize_categories(self.categories.as_str()).as_str(),
        );
        add_param(&mut params, "purity", normalize_purity(self.purity.as_str()).as_str());
        add_param(&mut params, "sorting", self.sorting.as_str());
        if same_text(self.sorting.as_str(), "toplist") {
            add_param_if_set(&mut params, "topRange", self.top_range.as_str());
        }
        add_param_if_set(&mut params, "atleast", or_empty(&self.atleast));
        add_param_if_set(&mut params, "apikey", or_empty(&self.api_key).trim());
        add_param(&mut params, "page", decimal_text(page as u64).as_str());
        params
    }

    /// The address of a result page.
    pub fn search_url(&self, page: u32) -> (r: Result<String, WallhavenError>)
        requires
            self.address_fits(page),
        ensures
            match url_with_params(self.search_base(), search_params(*self, page)) {
                Ok(text) => r is Ok && r->Ok_0@ == text,
                Err(reason) => r is Err && r->Err_0@ == WallhavenFault::InvalidApiBase(
                    self.api_base@,
                    reason,
                ),
            },
            plain_base(self.search_base()) ==> r is Ok && r->Ok_0@ == address(
                self.search_base(),
                search_params(*self, page),
            ),
    {
        let mut base = self.api_base.clone();
        base.append("/search");
        let params = self.query_params(page);
        assert(params@.len() > 0) by {
            assert(pair_texts(params@).len() == params@.len());
        }
        match parse_with_params(base.as_str(), &params) {
            Ok(address) => Ok(address),
            Err(error) => Err(
                WallhavenError::InvalidApiBase {
                    base: self.api_base.clone(),
                    reason: url_error_text(&error),
                },
            ),
        }
    }

    pub open spec fn search_base(&self) -> Seq<char> {
        self.api_base@ + "/search"@
    }

    /// Whether the address of a result page is sure to fit an URL.
    pub fn has_room(&self, page: u32) -> (r: bool)
        ensures
            r == (url_bound(self.search_base(), search_params(*self, page)) <= u32::MAX),
            r ==> self.address_fits(page),
    {
        let mut base = self.api_base.clone();
        base.append("/search");
        let chars = chars_of(base.as_str());
        let mut simple = true;
        let mut fragment = false;
        let mut i: usize = 0;
        while i < chars.len()
            invariant
                i <= chars@.len(),
                simple <==> crate::text::ascii_only(chars@.take(i as int)) && crate::text::free_of(
                    chars@.take(i as int),
                    '%',
                ),
                fragment <==> !crate::text::free_of(chars@.take(i as int), '#'),
            decreases chars@.len() - i,
        {
            let c = chars[i];
            proof {
                let before = chars@.take(i as int);
                let after = chars@.take(i + 1);
                assert(after =~= before.push(c));
                assert(after[i as int] == c);
                assert forall|k: int| 0 <= k < i implies after[k] == before[k] by {}
            }
            if c == '%' || c > '\u{7f}' {
                simple = false;
            }
            if c == '#' {
                fragment = true;
            }
            i += 1;
        }
        assert(chars@.take(i as int) =~= chars@);
        let count: u128 = chars.len() as u128;
        let mut bound: u128 = if simple {
            3 * count + 64
        } else {
            128 * count + 64
        };
        if fragment {
            let params = self.query_params(page);
            assert(params@.len() == pair_texts(params@).len());
            bound = bound + 12 * params_size(&params) + 2 * params.len() as u128;
        }
        bound <= 0xFFFF_FFFF
    }

    /// Whether the address of a result page is not too long for an URL.
    pub open spec fn address_fits(&self, page: u32) -> bool {
        fits_url(self.search_base(), search_params(*self, page))
    }
}

#[verifier::external_type_specification]
#[verifier::external_body]
pub struct ExParseError(url::ParseError);

/// What an error of the URL library says.
pub uninterp spec fn url_reason(error: url::ParseError) -> Seq<char>;

/// `to_string` on an `url::ParseError` depends on the error alone; its text is called `url_reason`.
#[verifier::external_body]
fn url_error_text(error: &url::ParseError) -> (r: String)
    ensures
        r@ == url_reason(*error),
{
    error.to_string()
}

/// The absolute URL that a text describes, with parameters added to its query string, or why the
/// text is no absolute URL.
pub uninterp spec fn url_with_params(
    base: Seq<char>,
    params: Seq<(Seq<char>, Seq<char>)>,
) -> Result<Seq<char>, Seq<char>>;

pub open spec fn params_len(params: Seq<(Seq<char>, Seq<char>)>) -> nat
    decreases params.len(),
{
    if params.len() == 0 {
        0
    } else {
        params_len(params.drop_last()) + params.last().0.len() + params.last().1.len()
    }
}

/// Whether a byte stands for itself in a query string.
pub open spec fn unreserved(b: u8) -> bool {
    0x61 <= b <= 0x7A || 0x41 <= b <= 0x5A || 0x30 <= b <= 0x39 || b == 0x2A || b == 0x2D || b
        == 0x2E || b == 0x5F
}

/// The upper case hexadecimal digit `d`.
pub open spec fn hex_char(d: u8) -> char {
    if d < 10 {
        (0x30 + d) as char
    } else {
        (0x37 + d) as char
    }
}

/// A byte in a query string: itself, a plus sign for a space, or a percent sign and two digits.
pub open spec fn encoded_byte(b: u8) -> Seq<char> {
    if unreserved(b) {
        seq![b as char]
    } else if b == 0x20 {
        seq!['+']
    } else {
        seq!['%', hex_char(b / 16), hex_char(b % 16)]
    }
}

pub open spec fn encoded_bytes(bytes: Seq<u8>) -> Seq<char>
    decreases bytes.len(),
{
    if bytes.len() == 0 {
        Seq::empty()
    } else {
        encoded_byte(bytes[0]) + encoded_bytes(bytes.skip(1))
    }
}

/// A text in a query string.
pub open spec fn encoded(s: Seq<char>) -> Seq<char> {
    encoded_bytes(vstd::utf8::encode_utf8(s))
}

/// Whether `base` is `https://` with a host of lower case words and a path of lower case words
/// and digits, all separated by single dots and slashes.
pub open spec fn plain_base(base: Seq<char>) -> bool {
    let rest = base.skip(8);
    &&& base.len() > 8
    &&& base.take(8) == "https://"@
    &&& 'a' <= rest[0] <= 'z'
    &&& 'a' <= rest.last() <= 'z' || '0' <= rest.last() <= '9'
    &&& forall|i: int|
        0 <= i < rest.len() ==> 'a' <= #[trigger] rest[i] <= 'z' || rest[i] == '.' || rest[i] == '/'
            || ('0' <= rest[i] <= '9' && rest.take(i).contains('/'))
    &&& forall|i: int|
        0 < i < rest.len() && (#[trigger] rest[i] == '.' || rest[i] == '/') ==> rest[i - 1] != '.'
            && rest[i - 1] != '/'
    &&& rest.contains('/')
}

/// A base with parameters behind it.
pub open spec fn address(base: Seq<char>, params: Seq<(Seq<char>, Seq<char>)>) -> Seq<char> {
    base + "?"@ + crate::text::joined(
        params.map_values(
            |param: (Seq<char>, Seq<char>)| encoded(param.0) + "="@ + encoded(param.1),
        ),
        "&"@,
    )
}

/// Letters, digits and the signs of resolutions and flags are searched for as they are.
pub proof fn law_plain_text_is_not_encoded(s: Seq<char>)
    requires
        forall|i: int|
            0 <= i < s.len() ==> 'a' <= #[trigger] s[i] <= 'z' || 'A' <= s[i] <= 'Z' || '0' <= s[i]
                <= '9' || s[i] == '-' || s[i] == '_' || s[i] == '.' || s[i] == '*',
    ensures
        encoded(s) == s,
{
    assert(vstd::utf8::is_ascii_chars(s));
    vstd::utf8::is_ascii_chars_encode_utf8(s);
    let bytes = vstd::utf8::encode_utf8(s);
    assert forall|i: int| 0 <= i < s.len() implies unreserved(#[trigger] bytes[i]) && bytes[i]
        as char == s[i] by {
        assert(s[i] as u8 == bytes[i]);
    }
    lemma_unreserved_bytes(bytes, s);
}

proof fn lemma_unreserved_bytes(bytes: Seq<u8>, s: Seq<char>)
    requires
        bytes.len() == s.len(),
        forall|i: int|
            0 <= i < s.len() ==> unreserved(#[trigger] bytes[i]) && bytes[i] as char == s[i],
    ensures
        encoded_bytes(bytes) == s,
    decreases bytes.len(),
{
    if bytes.len() == 0 {
        assert(encoded_bytes(bytes) =~= s);
    } else {
        let rest = bytes.skip(1);
        assert forall|i: int| 0 <= i < rest.len() implies unreserved(#[trigger] rest[i])
            && rest[i] as char == s.skip(1)[i] by {
            assert(rest[i] == bytes[i + 1]);
        }
        lemma_unreserved_bytes(rest, s.skip(1));
        assert(bytes[0] as char == s[0]);
        assert(s =~= seq![s[0]] + s.skip(1));
    }
}

/// A length that the part of an URL does not exceed whose length has to fit 32 bits: all of it in
/// front of the parameters, or of a fragment behind them. A character of a base becomes three at
/// most, or many more where it is encoded in a host name, a byte of a parameter three.
pub open spec fn url_bound(base: Seq<char>, params: Seq<(Seq<char>, Seq<char>)>) -> nat {
    let of_base = if crate::text::ascii_only(base) && crate::text::free_of(base, '%') {
        3 * base.len() + 64
    } else {
        128 * base.len() + 64
    };
    if crate::text::free_of(base, '#') {
        of_base
    } else {
        of_base + 12 * params_len(params) + 2 * params.len()
    }
}

/// Whether an URL can be built: the positions of its query and of its fragment have to fit 32 bits.
/// A plain base is as long in the URL as it is.
pub open spec fn fits_url(base: Seq<char>, params: Seq<(Seq<char>, Seq<char>)>) -> bool {
    if plain_base(base) {
        base.len() <= u32::MAX
    } else {
        url_bound(base, params) <= u32::MAX
    }
}

/// The number of characters of parameters.
fn params_size(params: &Vec<(String, String)>) -> (r: u128)
    requires
        params@.len() <= 8,
    ensures
        r == params_len(pair_texts(params@)),
        r <= 16 * usize::MAX,
{
    let ghost all = pair_texts(params@);
    let mut r: u128 = 0;
    let mut i: usize = 0;
    assert(all.take(0) =~= Seq::<(Seq<char>, Seq<char>)>::empty());
    while i < params.len()
        invariant
            all == pair_texts(params@),
            i <= params@.len() <= 8,
            r == params_len(all.take(i as int)),
            r <= 2 * i * usize::MAX,
        decreases params@.len() - i,
    {
        let name: usize = chars_of(params[i].0.as_str()).len();
        let value: usize = chars_of(params[i].1.as_str()).len();
        proof {
            assert(all.take(i + 1).drop_last() =~= all.take(i as int));
            assert(2 * i * usize::MAX <= 16 * usize::MAX && 2 * i * usize::MAX + 2 * usize::MAX == 2
                * (i + 1) * usize::MAX) by (nonlinear_arith)
                requires
                    i <= 7,
            ;
        }
        r = r + name as u128 + value as u128;
        i += 1;
    }
    assert(all.take(i as int) =~= all);
    assert(2 * i * usize::MAX <= 16 * usize::MAX) by (nonlinear_arith)
        requires
            i <= 8,
    ;
    r
}

/// `url::Url::parse_with_params` parses an absolute URL and appends parameters to its query
/// string, form-urlencoded. It depends on its arguments alone; what it makes of them, or what
/// its error says, is called `url_with_params`. A plain base is left as it is.
#[verifier::external_body]
fn parse_with_params(base: &str, params: &Vec<(String, String)>) -> (r: Result<
    String,
    url::ParseError,
>)
    requires
        params@.len() > 0,
        fits_url(base@, pair_texts(params@)),
    ensures
        match r {
            Ok(address) => url_with_params(base@, pair_texts(params@)) == Ok::<
                Seq<char>,
                Seq<char>,
            >(address@),
            Err(error) => url_with_params(base@, pair_texts(params@)) == Err::<
                Seq<char>,
                Seq<char>,
            >(url_reason(error)),
        },
        plain_base(base@) ==> r is Ok && r->Ok_0@ == address(base@, pair_texts(params@)),
{
    url::Url::parse_with_params(base, params).map(String::from)
}

/// What a JSON value holds, as far as it is read.
pub enum Json {
    Natural(u64),
    Text(Seq<char>),
    Array(Seq<Json>),
    Object(Map<Seq<char>, Json>),
    Other,
}

#[verifier::external_type_specification]
#[verifier::external_body]
pub struct ExJsonValue(serde_json::Value);

#[verifier::external_type_specification]
#[verifier::external_body]
pub struct ExJsonError(serde_json::Error);

/// What a value of the JSON library holds.
pub uninterp spec fn json_tree(value: serde_json::Value) -> Json;

/// What an error of the JSON library says.
pub uninterp spec fn json_reason(error: serde_json::Error) -> Seq<char>;

/// `to_string` on a `serde_json::Error` depends on the error alone; its text is called
/// `json_reason`.
#[verifier::external_body]
fn json_error_text(error: &serde_json::Error) -> (r: String)
    ensures
        r@ == json_reason(*error),
{
    error.to_string()
}

/// The JSON value that bytes describe, or why they are no JSON.
pub uninterp spec fn parsed_json(bytes: Seq<u8>) -> Result<Json, Seq<char>>;

/// What each value of an array holds.
pub open spec fn json_trees(values: Seq<serde_json::Value>) -> Seq<Json> {
    values.map_values(|value: serde_json::Value| json_tree(value))
}

/// `serde_json::from_slice` into a `serde_json::Value` depends on the bytes alone; what it reads,
/// or what its error says, is called `parsed_json`.
#[verifier::external_body]
fn parse_json(bytes: &[u8]) -> (r: Result<serde_json::Value, serde_json::Error>)
    ensures
        match r {
            Ok(value) => parsed_json(bytes@) == Ok::<Json, Seq<char>>(json_tree(value)),
            Err(error) => parsed_json(bytes@) == Err::<Json, Seq<char>>(json_reason(error)),
        },
{
    serde_json::from_slice(bytes)
}

/// The value under a key of an object.
pub open spec fn json_member(json: Json, key: Seq<char>) -> Option<Json> {
    match json {
        Json::Object(members) => if members.contains_key(key) {
            Some(members[key])
        } else {
            None
        },
        _ => None,
    }
}

/// `serde_json::Value::get` with a string gives the value under a key of an object, and nothing
/// for any other value.
#[verifier::external_body]
fn json_get<'a>(value: &'a serde_json::Value, key: &str) -> (r: Option<&'a serde_json::Value>)
    ensures
        match r {
            Some(member) => json_member(json_tree(*value), key@) == Some(json_tree(*member)),
            None => json_member(json_tree(*value), key@) is None,
        },
{
    value.get(key)
}

/// `serde_json::Value::as_array` gives the vector of an array, and nothing for any other value.
pub assume_specification[ serde_json::Value::as_array ](value: &serde_json::Value) -> (r: Option<
    &Vec<serde_json::Value>,
>)
    ensures
        match r {
            Some(values) => json_tree(*value) == Json::Array(json_trees(values@)),
            None => !(json_tree(*value) is Array),
        },
;

/// `serde_json::Value::as_str` gives the text of a string, and nothing for any other value.
pub assume_specification[ serde_json::Value::as_str ](value: &serde_json::Value) -> (r: Option<
    &str,
>)
    ensures
        match r {
            Some(text) => json_tree(*value) == Json::Text(text@),
            None => !(json_tree(*value) is Text),
        },
;

/// `serde_json::Value::as_u64` gives a number that is a `u64`, and nothing for any other value.
pub assume_specification[ serde_json::Value::as_u64 ](value: &serde_json::Value) -> (r: Option<
    u64,
>)
    ensures
        match r {
            Some(number) => json_tree(*value) == Json::Natural(number),
            None => !(json_tree(*value) is Natural),
        },
;

/// The image URL of a search result: its `path`, unless that is blank or no text.
pub open spec fn result_url(item: Json) -> Option<Seq<char>> {
    match json_member(item, "path"@) {
        Some(Json::Text(path)) => if crate::text::trimmed(path).len() == 0 {
            None
        } else {
            Some(path)
        },
        _ => None,
    }
}

/// The image URLs of search results, in their order.
pub open spec fn result_urls(items: Seq<Json>) -> Seq<Seq<char>>
    decreases items.len(),
{
    if items.len() == 0 {
        Seq::empty()
    } else {
        match result_url(items.last()) {
            Some(url) => result_urls(items.drop_last()).push(url),
            None => result_urls(items.drop_last()),
        }
    }
}

/// The image URLs of a result page.
pub open spec fn page_urls(json: Json) -> Seq<Seq<char>> {
    match json_member(json, "data"@) {
        Some(Json::Array(items)) => result_urls(items),
        _ => Seq::empty(),
    }
}

/// The number of the last result page: what the page says, or the page itself.
pub open spec fn page_count(json: Json, page: u32) -> int {
    let said = match json_member(json, "meta"@) {
        Some(meta) => match json_member(meta, "last_page"@) {
            Some(Json::Natural(number)) => number as int,
            _ => page as int,
        },
        None => page as int,
    };
    if said < 1 {
        1
    } else if said > 10_000 {
        10_000
    } else {
        said
    }
}

fn read_result_url(item: &serde_json::Value) -> (r: Option<String>)
    ensures
        crate::text::opt_text(r) == result_url(json_tree(*item)),
{
    match json_get(item, "path") {
        None => None,
        Some(value) => match value.as_str() {
            None => None,
            Some(path) => if path.trim().is_empty() {
                None
            } else {
                Some(path.to_owned())
            },
        },
    }
}

/// Reads a parsed result page: its image URLs, and the number of the last page.
pub fn page_contents(json: &serde_json::Value, page: u32) -> (r: (Vec<String>, u32))
    ensures
        crate::text::texts(r.0@) == page_urls(json_tree(*json)),
        r.1 == page_count(json_tree(*json), page),
{
    let mut urls: Vec<String> = Vec::new();
    assert(crate::text::texts(urls@) =~= Seq::<Seq<char>>::empty());
    if let Some(data) = json_get(json, "data") {
        if let Some(items) = data.as_array() {
            let ghost trees = json_trees(items@);
            let mut i: usize = 0;
            assert(trees.take(0) =~= Seq::<Json>::empty());
            while i < items.len()
                invariant
                    trees == json_trees(items@),
                    i <= items@.len(),
                    crate::text::texts(urls@) == result_urls(trees.take(i as int)),
                decreases items@.len() - i,
            {
                let ghost before = crate::text::texts(urls@);
                proof {
                    assert(trees[i as int] == json_tree(items@[i as int]));
                    assert(trees.take(i + 1).drop_last() =~= trees.take(i as int));
                    assert(trees.take(i + 1).last() == trees[i as int]);
                }
                if let Some(url) = read_result_url(&items[i]) {
                    urls.push(url);
                    assert(crate::text::texts(urls@) =~= before.push(url@));
                }
                i += 1;
            }
            assert(trees.take(i as int) =~= trees);
        }
    }
    let said: u64 = match json_get(json, "meta") {
        None => page as u64,
        Some(meta) => match json_get(meta, "last_page") {
            None => page as u64,
            Some(value) => match value.as_u64() {
                Some(number) => number,
                None => page as u64,
            },
        },
    };
    let last_page: u32 = if said < 1 {
        1
    } else if said > 10_000 {
        10_000
    } else {
        said as u32
    };
    (urls, last_page)
}

/// Reads the response to a page request: its image URLs, and the number of the last page.
pub fn read_page(body: &[u8], page: u32) -> (r: Result<(Vec<String>, u32), WallhavenError>)
    ensures
        match parsed_json(body@) {
            Ok(json) => {
                &&& r is Ok
                &&& crate::text::texts(r->Ok_0.0@) == page_urls(json)
                &&& r->Ok_0.1 == page_count(json, page)
            },
            Err(reason) => r is Err && r->Err_0@ == WallhavenFault::InvalidResponse(page, reason),
        },
{
    match parse_json(body) {
        Ok(json) => Ok(page_contents(&json, page)),
        Err(error) => Err(
            WallhavenError::InvalidResponse { page, reason: json_error_text(&error) },
        ),
    }
}

/// An image of a result page: its URL, the id it gets, and the time of its cached file, if there
/// is one.
#[derive(Debug)]
pub struct FoundImage {
    pub id: String,
    pub url: String,
    pub modified: Option<u64>,
}

/// A refresh in progress: the candidates so far, and the page to fetch.
#[derive(Debug)]
pub struct Refresh {
    pub candidates: Vec<ImageCandidate>,
    pub page: u32,
    pub max_items: usize,
    pub download_dir: String,
}

/// The candidate of an image that was found, over what it holds.
pub open spec fn is_candidate_of(
    candidate: ImageCandidate,
    found: FoundImage,
    download_dir: Seq<char>,
) -> bool {
    &&& candidate.id@ == found.id@
    &&& candidate.origin == crate::sources::Origin::Rss
    &&& candidate.modified == found.modified
    &&& candidate.location matches crate::sources::Location::Remote { url, download_dir: dir }
        && url@ == found.url@ && dir@ == download_dir
}

/// The number of images that a page contributes: the limit is looked at after each image, so a
/// page that has any contributes at least one.
pub open spec fn page_share(have: int, max_items: int, on_page: int) -> int {
    let room = if max_items > have {
        max_items - have
    } else {
        1
    };
    if on_page < room {
        on_page
    } else {
        room
    }
}

/// The image URLs of the candidates.
pub open spec fn candidate_urls(candidates: Seq<ImageCandidate>) -> Seq<Seq<char>> {
    candidates.map_values(
        |candidate: ImageCandidate|
            match candidate.location {
                crate::sources::Location::Remote { url, .. } => url@,
                _ => Seq::empty(),
            },
    )
}

/// The images of all pages, page by page.
pub open spec fn all_images(pages: Seq<Seq<Seq<char>>>) -> Seq<Seq<char>>
    decreases pages.len(),
{
    if pages.len() == 0 {
        Seq::empty()
    } else {
        all_images(pages.drop_last()) + pages.last()
    }
}

/// Whether a refresh has read exactly `pages`, the first ones, and goes on with the next: it has
/// every image of them and room for more.
pub open spec fn has_read(refresh: Refresh, pages: Seq<Seq<Seq<char>>>) -> bool {
    &&& candidate_urls(refresh.candidates@) == all_images(pages)
    &&& refresh.page == pages.len() + 1
    &&& pages.len() > 0 ==> all_images(pages).len() < refresh.max_items
}

/// Whether `after` is a refresh with the images of one more page, and `more` tells whether a
/// further page is needed.
pub open spec fn page_added(
    before: Refresh,
    found: Seq<FoundImage>,
    last_page: u32,
    after: Refresh,
    more: bool,
) -> bool {
    &&& after.candidates@.len() == before.candidates@.len() + found.len()
    &&& after.candidates@.take(before.candidates@.len() as int) == before.candidates@
    &&& forall|i: int|
        0 <= i < found.len() ==> is_candidate_of(
            #[trigger] after.candidates@[before.candidates@.len() + i],
            found[i],
            before.download_dir@,
        )
    &&& more <==> after.candidates@.len() < before.max_items && before.page < last_page
    &&& after.page == before.page + if more {
        1int
    } else {
        0int
    }
    &&& after.max_items == before.max_items
    &&& after.download_dir == before.download_dir
}

impl Refresh {
    /// The refresh before its first page.
    pub fn start(source: &WallhavenSource) -> (r: Self)
        ensures
            r.candidates@.len() == 0,
            r.page == 1,
            r.max_items == source.max_items,
            r.download_dir@ == source.download_dir@,
            has_read(r, Seq::empty()),
    {
        let r = Refresh {
            candidates: Vec::new(),
            page: 1,
            max_items: source.max_items,
            download_dir: source.download_dir.clone(),
        };
        assert(candidate_urls(r.candidates@) =~= all_images(Seq::empty()));
        r
    }

    /// The images of the fetched page that become candidates: its first ones, up to the limit.
    pub fn wanted(&self, urls: &Vec<String>) -> (r: Vec<String>)
        ensures
            crate::text::texts(r@) == crate::text::texts(urls@).take(
                page_share(
                    self.candidates@.len() as int,
                    self.max_items as int,
                    urls@.len() as int,
                ),
            ),
    {
        let room: usize = if self.max_items > self.candidates.len() {
            self.max_items - self.candidates.len()
        } else {
            1
        };
        let count: usize = if urls.len() < room {
            urls.len()
        } else {
            room
        };
        let mut r: Vec<String> = Vec::new();
        let mut i: usize = 0;
        assert(crate::text::texts(r@) =~= crate::text::texts(urls@).take(0));
        while i < count
            invariant
                i <= count <= urls@.len(),
                crate::text::texts(r@) == crate::text::texts(urls@).take(i as int),
            decreases count - i,
        {
            let ghost before = crate::text::texts(r@);
            r.push(urls[i].clone());
            proof {
                assert(crate::text::texts(r@) =~= before.push(urls@[i as int]@));
                assert(crate::text::texts(urls@).take(i + 1) =~= before.push(
                    crate::text::texts(urls@)[i as int],
                ));
            }
            i += 1;
        }
        r
    }

    /// Adds the wanted images of the fetched page. Returns whether a further page is needed, whose
    /// number then stands in `page`: until the limit is reached or the last page was read.
    pub fn add_page(&mut self, found: Vec<FoundImage>, last_page: u32) -> (more: bool)
        ensures
            page_added(*old(self), found@, last_page, *final(self), more),
    {
        let ghost before = self.candidates@;
        let mut i: usize = 0;
        while i < found.len()
            invariant
                i <= found@.len(),
                before == old(self).candidates@,
                self.page == old(self).page,
                self.max_items == old(self).max_items,
                self.download_dir == old(self).download_dir,
                self.candidates@.len() == before.len() + i,
                self.candidates@.take(before.len() as int) =~= before,
                forall|k: int|
                    0 <= k < i ==> is_candidate_of(
                        #[trigger] self.candidates@[before.len() + k],
                        found@[k],
                        old(self).download_dir@,
                    ),
            decreases found@.len() - i,
        {
            let ghost now = self.candidates@;
            self.candidates.push(
                ImageCandidate::rss(
                    found[i].id.clone(),
                    found[i].url.clone(),
                    self.download_dir.clone(),
                    found[i].modified,
                ),
            );
            proof {
                assert forall|k: int| 0 <= k < i + 1 implies is_candidate_of(
                    #[trigger] self.candidates@[before.len() + k],
                    found@[k],
                    old(self).download_dir@,
                ) by {
                    if k < i {
                        assert(self.candidates@[before.len() + k] == now[before.len() + k]);
                    }
                }
            }
            i += 1;
        }
        if self.candidates.len() >= self.max_items || self.page >= last_page {
            false
        } else {
            self.page = self.page + 1;
            true
        }
    }
}

/// Whether a refresh can go on: it has nothing yet, or fewer candidates than the limit.
pub open spec fn open_to_more(have: int, max_items: int) -> bool {
    have == 0 || have < max_items
}

/// A refresh honours the limit (where zero counts as one): a page is taken whole or up to the
/// limit, and where a further page is fetched the limit is not reached yet.
pub proof fn law_refresh_honours_the_limit(have: int, max_items: int, on_page: int)
    requires
        0 <= have,
        0 <= max_items,
        0 <= on_page,
        open_to_more(have, max_items),
    ensures
        ({
            let limit = if max_items == 0 {
                1
            } else {
                max_items
            };
            let after = have + page_share(have, max_items, on_page);
            &&& have <= after <= limit
            &&& after == have + on_page || after == limit
            &&& after < max_items ==> open_to_more(after, max_items)
        }),
{
}

/// A refresh gathers the first images of the pages, in their order, up to the limit (where zero
/// counts as one). It reads the pages one by one from the first on, and ends when the limit is
/// reached or the last page was read.
pub proof fn law_refresh_gathers_the_first_images(
    before: Refresh,
    pages: Seq<Seq<Seq<char>>>,
    urls: Seq<Seq<char>>,
    found: Seq<FoundImage>,
    last_page: u32,
    after: Refresh,
    more: bool,
)
    requires
        has_read(before, pages),
        found.len() == page_share(
            before.candidates@.len() as int,
            before.max_items as int,
            urls.len() as int,
        ),
        forall|i: int| 0 <= i < found.len() ==> (#[trigger] found[i]).url@ == urls[i],
        page_added(before, found, last_page, after, more),
    ensures
        ({
            let all = all_images(pages.push(urls));
            let limit: int = if before.max_items == 0 {
                1
            } else {
                before.max_items as int
            };
            &&& candidate_urls(after.candidates@) == all.take(
                if all.len() < limit {
                    all.len() as int
                } else {
                    limit
                },
            )
            &&& more ==> has_read(after, pages.push(urls))
            &&& !more ==> all.len() >= before.max_items || before.page >= last_page
        }),
{
    let had = before.candidates@.len() as int;
    let now = pages.push(urls);
    let all = all_images(now);
    assert(now.drop_last() =~= pages);
    assert(candidate_urls(before.candidates@).len() == had);
    assert(all == all_images(pages) + urls);
    let gathered = candidate_urls(after.candidates@);
    assert forall|i: int| 0 <= i < gathered.len() implies #[trigger] gathered[i] == all[i] by {
        if i < had {
            assert(after.candidates@.take(had)[i] == after.candidates@[i]);
            assert(candidate_urls(before.candidates@)[i] == gathered[i]);
        } else {
            assert(is_candidate_of(
                after.candidates@[had + (i - had)],
                found[i - had],
                before.download_dir@,
            ));
        }
    }
    assert(gathered =~= all.take(gathered.len() as int));
    if more {
        assert(gathered =~= all);
    }
}

/// The query of every page carries the normalised flags and the number of the page.
pub proof fn law_search_carries_normalised_flags(search: WallhavenSource, page: u32)
    ensures
        search_params(search, page).contains(
            ("categories"@, normalized_flags(search.categories@, category_names(), true)),
        ),
        search_params(search, page).contains(
            ("purity"@, normalized_flags(search.purity@, purity_names(), false)),
        ),
        search_params(search, page).contains(("sorting"@, search.sorting@)),
        search_params(search, page).last() == ("page"@, crate::text::decimal(page as nat)),
{
    let params = search_params(search, page);
    let query = crate::text::trimmed(crate::text::text_or(search.query, Seq::empty()));
    let at: int = if query.len() == 0 { 0 } else { 1 };
    assert(params[at] == (
        "categories"@,
        normalized_flags(search.categories@, category_names(), true),
    ));
    assert(params[at + 1] == (
        "purity"@,
        normalized_flags(search.purity@, purity_names(), false),
    ));
    assert(params[at + 2] == ("sorting"@, search.sorting@));
}

/// A search on the default API base has an address for every page.
pub proof fn law_default_base_is_an_address(search: WallhavenSource)
    requires
        search.api_base@ == "https://wallhaven.cc/api/v1"@,
    ensures
        plain_base(search.search_base()),
{
    reveal_strlit("https://wallhaven.cc/api/v1");
    reveal_strlit("https://");
    reveal_strlit("/search");
    let base = search.search_base();
    let rest = base.skip(8);
    assert(base.take(8) =~= "https://"@);
    assert(rest =~= seq![
        'w', 'a', 'l', 'l', 'h', 'a', 'v', 'e', 'n', '.', 'c', 'c', '/', 'a', 'p', 'i', '/', 'v',
        '1', '/', 's', 'e', 'a', 'r', 'c', 'h',
    ]);
    assert(rest.take(18)[12] == '/');
    assert(rest.take(18).contains('/'));
    assert(rest[12] == '/');
    assert(rest.contains('/'));
}

} // verus!
