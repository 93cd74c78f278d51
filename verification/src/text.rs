//! Text helpers over strings seen as sequences of characters.

use vstd::prelude::*;
use vstd::string::*;

verus! {

/// Whether `c` has the Unicode `White_Space` property.
pub open spec fn white_space(c: char) -> bool {
    ||| '\u{9}' <= c <= '\u{d}'
    ||| c == ' '
    ||| c == '\u{85}'
    ||| c == '\u{a0}'
    ||| c == '\u{1680}'
    ||| '\u{2000}' <= c <= '\u{200a}'
    ||| c == '\u{2028}'
    ||| c == '\u{2029}'
    ||| c == '\u{202f}'
    ||| c == '\u{205f}'
    ||| c == '\u{3000}'
}

/// `s` without its leading white space.
pub open spec fn trimmed_start(s: Seq<char>) -> Seq<char>
    decreases s.len(),
{
    if s.len() > 0 && white_space(s[0]) {
        trimmed_start(s.skip(1))
    } else {
        s
    }
}

/// `s` without its trailing white space.
pub open spec fn trimmed_end(s: Seq<char>) -> Seq<char>
    decreases s.len(),
{
    if s.len() > 0 && white_space(s.last()) {
        trimmed_end(s.drop_last())
    } else {
        s
    }
}

/// `s` without white space at either end.
pub open spec fn trimmed(s: Seq<char>) -> Seq<char> {
    trimmed_end(trimmed_start(s))
}

/// `str::trim` removes the white space (the Unicode `White_Space` characters) at both ends
/// and nothing else.
pub assume_specification[ str::trim ](s: &str) -> (r: &str)
    ensures
        r@ == trimmed(s@),
;

/// The ASCII letters `A` to `Z` become `a` to `z`; every other character stays.
pub open spec fn ascii_lower(c: char) -> char {
    if 'A' <= c <= 'Z' {
        (c as u32 + 32) as char
    } else {
        c
    }
}

pub open spec fn ascii_lowered(s: Seq<char>) -> Seq<char> {
    s.map_values(|c: char| ascii_lower(c))
}

/// `str::to_ascii_lowercase` maps the ASCII letters to lower case, character by character.
pub assume_specification[ str::to_ascii_lowercase ](s: &str) -> (r: String)
    ensures
        r@ == ascii_lowered(s@),
;

/// Whether a text has ASCII characters only.
pub open spec fn ascii_only(s: Seq<char>) -> bool {
    forall|i: int| 0 <= i < s.len() ==> #[trigger] s[i] <= '\u{7f}'
}

/// The Unicode lower case mapping of a text, as `str::to_lowercase` computes it.
pub uninterp spec fn unicode_lowered(s: Seq<char>) -> Seq<char>;

/// A text in lower case.
pub open spec fn lowercased(s: Seq<char>) -> Seq<char> {
    if ascii_only(s) {
        ascii_lowered(s)
    } else {
        unicode_lowered(s)
    }
}

/// `str::to_lowercase` depends on the text alone; its result is called `unicode_lowered`. Of ASCII
/// text only the letters change, as in `str::to_ascii_lowercase`.
pub assume_specification[ str::to_lowercase ](s: &str) -> (r: String)
    ensures
        ascii_only(s@) ==> r@ == ascii_lowered(s@),
        !ascii_only(s@) ==> r@ == unicode_lowered(s@),
;

/// `String::push` appends one character.
pub assume_specification[ String::push ](s: &mut String, c: char)
    ensures
        final(s)@ == old(s)@.push(c),
;

/// Whether two texts have the same characters.
pub fn same_text(a: &str, b: &str) -> (r: bool)
    ensures
        r == (a@ == b@),
{
    a.to_owned() == b.to_owned()
}

/// The characters of each string of a list.
pub open spec fn texts(list: Seq<String>) -> Seq<Seq<char>> {
    list.map_values(|s: String| s@)
}

/// The characters of an optional string.
pub open spec fn opt_text(value: Option<String>) -> Option<Seq<char>> {
    match value {
        Some(s) => Some(s@),
        None => None,
    }
}

/// The characters of an optional string, or none where it is absent.
pub open spec fn text_or(value: Option<String>, default: Seq<char>) -> Seq<char> {
    match value {
        Some(s) => s@,
        None => default,
    }
}

/// The characters of `s` as a vector.
pub fn chars_of(s: &str) -> (r: Vec<char>)
    ensures
        r@ == s@,
{
    let mut r: Vec<char> = Vec::new();
    for c in it: s.chars()
        invariant
            it.seq() == s@,
            r@ == s@.take(it.index() as int),
    {
        r.push(c);
        assert(s@.take(it.index() as int + 1) =~= s@.take(it.index() as int).push(c));
    }
    assert(s@.take(s@.len() as int) =~= s@);
    r
}

/// The pieces of `s` between occurrences of `separator`; there is always at least one piece.
pub open spec fn split_on(s: Seq<char>, separator: char) -> Seq<Seq<char>>
    decreases s.len(),
{
    if s.len() == 0 {
        seq![Seq::<char>::empty()]
    } else {
        let init = split_on(s.drop_last(), separator);
        if s.last() == separator {
            init.push(Seq::<char>::empty())
        } else {
            init.drop_last().push(init.last().push(s.last()))
        }
    }
}

/// A text always has a first piece.
pub proof fn lemma_split_nonempty(s: Seq<char>, separator: char)
    ensures
        split_on(s, separator).len() > 0,
    decreases s.len(),
{
    if s.len() > 0 {
        lemma_split_nonempty(s.drop_last(), separator);
    }
}

/// Splits `s` at every `separator`.
pub fn split(s: &str, separator: char) -> (r: Vec<String>)
    ensures
        texts(r@) == split_on(s@, separator),
{
    let chars = chars_of(s);
    let mut done: Vec<String> = Vec::new();
    let mut piece = String::new();
    let mut i: usize = 0;
    assert(s@.take(0) =~= Seq::<char>::empty());
    assert(texts(done@).push(piece@) =~= seq![Seq::<char>::empty()]);
    while i < chars.len()
        invariant
            chars@ == s@,
            i <= chars@.len(),
            texts(done@).push(piece@) == split_on(s@.take(i as int), separator),
        decreases chars@.len() - i,
    {
        let c = chars[i];
        let ghost before = s@.take(i as int);
        let ghost after = s@.take(i + 1);
        assert(after.drop_last() =~= before);
        assert(texts(done@).push(piece@).drop_last() =~= texts(done@));
        if c == separator {
            let ghost pieces = texts(done@).push(piece@);
            done.push(piece);
            piece = String::new();
            assert(texts(done@) =~= pieces);
        } else {
            piece.push(c);
        }
        i += 1;
    }
    assert(s@.take(i as int) =~= s@);
    let ghost pieces = texts(done@).push(piece@);
    done.push(piece);
    assert(texts(done@) =~= pieces);
    done
}

/// `parts` one after the other, with `separator` between neighbours.
pub open spec fn joined(parts: Seq<Seq<char>>, separator: Seq<char>) -> Seq<char>
    decreases parts.len(),
{
    if parts.len() == 0 {
        Seq::<char>::empty()
    } else if parts.len() == 1 {
        parts[0]
    } else {
        joined(parts.drop_last(), separator) + separator + parts.last()
    }
}

/// Joins `parts` with `separator`.
pub fn join(parts: &Vec<String>, separator: &str) -> (r: String)
    ensures
        r@ == joined(texts(parts@), separator@),
{
    let mut r = String::new();
    let mut i: usize = 0;
    while i < parts.len()
        invariant
            i <= parts@.len(),
            r@ == joined(texts(parts@).take(i as int), separator@),
        decreases parts@.len() - i,
    {
        assert(texts(parts@).take(i + 1).drop_last() =~= texts(parts@).take(i as int));
        if i > 0 {
            r.append(separator);
        }
        r.append(parts[i].as_str());
        i += 1;
    }
    assert(texts(parts@).take(i as int) =~= texts(parts@));
    r
}

/// Whether a separator does not occur in a text.
pub open spec fn free_of(s: Seq<char>, separator: char) -> bool {
    forall|i: int| 0 <= i < s.len() ==> s[i] != separator
}

/// What stands behind the last separator is the last piece.
proof fn lemma_split_last(head: Seq<char>, tail: Seq<char>, separator: char)
    requires
        free_of(tail, separator),
    ensures
        split_on(head.push(separator) + tail, separator) == split_on(head, separator).push(tail),
    decreases tail.len(),
{
    let whole = head.push(separator) + tail;
    if tail.len() == 0 {
        assert(whole =~= head.push(separator));
        assert(whole.drop_last() =~= head);
        assert(tail =~= Seq::<char>::empty());
    } else {
        let init = tail.drop_last();
        assert forall|i: int| 0 <= i < init.len() implies init[i] != separator by {
            assert(tail[i] != separator);
        }
        lemma_split_last(head, init, separator);
        assert(whole.drop_last() =~= head.push(separator) + init);
        assert(whole.last() == tail[tail.len() - 1]);
        let before = split_on(head, separator).push(init);
        assert(before.drop_last() =~= split_on(head, separator));
        assert(init.push(tail.last()) =~= tail);
    }
}

/// A text without the separator is its only piece.
proof fn lemma_split_free(s: Seq<char>, separator: char)
    requires
        free_of(s, separator),
    ensures
        split_on(s, separator) == seq![s],
    decreases s.len(),
{
    if s.len() == 0 {
        assert(s =~= Seq::<char>::empty());
    } else {
        let init = s.drop_last();
        assert forall|i: int| 0 <= i < init.len() implies init[i] != separator by {
            assert(s[i] != separator);
        }
        lemma_split_free(init, separator);
        assert(s[s.len() - 1] != separator);
        assert(init.push(s.last()) =~= s);
        assert(split_on(s, separator) =~= seq![s]);
    }
}

/// Splitting undoes joining, as long as no part holds the separator.
pub proof fn law_split_undoes_join(parts: Seq<Seq<char>>, separator: char)
    requires
        parts.len() > 0,
        forall|i: int| 0 <= i < parts.len() ==> free_of(#[trigger] parts[i], separator),
    ensures
        split_on(joined(parts, seq![separator]), separator) == parts,
    decreases parts.len(),
{
    if parts.len() == 1 {
        lemma_split_free(parts[0], separator);
        assert(parts =~= seq![parts[0]]);
    } else {
        let init = parts.drop_last();
        assert forall|i: int| 0 <= i < init.len() implies free_of(
            #[trigger] init[i],
            separator,
        ) by {
            assert(init[i] == parts[i]);
        }
        law_split_undoes_join(init, separator);
        assert(parts[parts.len() - 1] == parts.last());
        let head = joined(init, seq![separator]);
        lemma_split_last(head, parts.last(), separator);
        assert(head + seq![separator] + parts.last() =~= head.push(separator) + parts.last());
        assert(init.push(parts.last()) =~= parts);
    }
}

/// A word of lower case letters is its own trimmed and lower case form.
pub proof fn lemma_plain_word(word: Seq<char>)
    requires
        word.len() > 0,
        forall|i: int| 0 <= i < word.len() ==> 'a' <= #[trigger] word[i] <= 'z',
    ensures
        trimmed(word) == word,
        ascii_lowered(word) == word,
        free_of(word, ','),
{
    assert('a' <= word[0] <= 'z');
    assert('a' <= word[word.len() - 1] <= 'z');
    assert(ascii_lowered(word) =~= word);
}

/// The character of the decimal digit `d`.
pub open spec fn digit_char(d: nat) -> char {
    (48 + d) as char
}

/// `n` in decimal notation, without leading zeros.
pub open spec fn decimal(n: nat) -> Seq<char>
    decreases n,
{
    if n < 10 {
        seq![digit_char(n)]
    } else {
        decimal(n / 10).push(digit_char(n % 10))
    }
}

/// Writes `n` in decimal notation.
pub fn decimal_text(n: u64) -> (r: String)
    ensures
        r@ == decimal(n as nat),
    decreases n,
{
    let mut r = String::new();
    if n >= 10 {
        r = decimal_text(n / 10);
    }
    let digit = (48 + (n % 10) as u8) as char;
    r.push(digit);
    assert(r@ =~= decimal(n as nat));
    r
}

/// Whether `part` occurs in `whole` as a run of neighbouring characters.
pub open spec fn occurs_in(part: Seq<char>, whole: Seq<char>) -> bool {
    exists|i: int| #[trigger] occurs_at(part, whole, i)
}

/// Whether `part` occurs in `whole` at position `i`.
pub open spec fn occurs_at(part: Seq<char>, whole: Seq<char>, i: int) -> bool {
    0 <= i && i + part.len() <= whole.len() && whole.subrange(i, i + part.len()) == part
}

/// Whether `part` occurs in `whole`.
pub fn contains_text(whole: &str, part: &str) -> (r: bool)
    ensures
        r == occurs_in(part@, whole@),
{
    let w = chars_of(whole);
    let p = chars_of(part);
    if p.len() > w.len() {
        return false;
    }
    let last: usize = w.len() - p.len();
    let mut i: usize = 0;
    while i <= last
        invariant
            w@ == whole@,
            p@ == part@,
            last == w@.len() - p@.len(),
            i <= last + 1,
            forall|j: int| 0 <= j < i ==> !occurs_at(part@, whole@, j),
        decreases last + 1 - i,
    {
        let mut k: usize = 0;
        let mut equal = true;
        while k < p.len() && equal
            invariant
                w@ == whole@,
                p@ == part@,
                k <= p@.len(),
                i + p@.len() <= w.len(),
                equal ==> forall|j: int| 0 <= j < k ==> w@[i + j] == p@[j],
                !equal ==> !occurs_at(part@, whole@, i as int),
            decreases p@.len() - k + (if equal { 1int } else { 0int }),
        {
            if w[i + k] != p[k] {
                equal = false;
                assert(whole@.subrange(i as int, i + part@.len())[k as int] == w@[i + k]);
            } else {
                k += 1;
            }
        }
        if equal {
            assert(whole@.subrange(i as int, i + part@.len()) =~= part@);
            assert(occurs_at(part@, whole@, i as int));
            return true;
        }
        if i == last {
            assert forall|j: int| !occurs_at(part@, whole@, j) by {}
            return false;
        }
        i += 1;
    }
    false
}

/// Whether `a` comes strictly before `b` in the character order of texts.
pub open spec fn text_less(a: Seq<char>, b: Seq<char>) -> bool
    decreases a.len(),
{
    if b.len() == 0 {
        false
    } else if a.len() == 0 {
        true
    } else if a[0] == b[0] {
        text_less(a.skip(1), b.skip(1))
    } else {
        a[0] < b[0]
    }
}

/// Compares two texts in character order.
pub fn less(a: &Vec<char>, b: &Vec<char>) -> (r: bool)
    ensures
        r == text_less(a@, b@),
{
    let mut i: usize = 0;
    assert(a@.skip(0) =~= a@);
    assert(b@.skip(0) =~= b@);
    while i < a.len() && i < b.len() && a[i] == b[i]
        invariant
            i <= a@.len(),
            i <= b@.len(),
            text_less(a@, b@) == text_less(a@.skip(i as int), b@.skip(i as int)),
        decreases a@.len() - i,
    {
        assert(a@.skip(i as int).skip(1) =~= a@.skip(i + 1));
        assert(b@.skip(i as int).skip(1) =~= b@.skip(i + 1));
        i += 1;
    }
    if i >= b.len() {
        false
    } else if i >= a.len() {
        true
    } else {
        a[i] < b[i]
    }
}

/// The order is total: of two different texts one comes first.
pub proof fn lemma_text_less_total(a: Seq<char>, b: Seq<char>)
    ensures
        a == b || text_less(a, b) || text_less(b, a),
    decreases a.len(),
{
    if a.len() > 0 && b.len() > 0 {
        lemma_text_less_total(a.skip(1), b.skip(1));
        if a[0] == b[0] && a.skip(1) == b.skip(1) {
            assert(a =~= seq![a[0]] + a.skip(1));
            assert(b =~= seq![b[0]] + b.skip(1));
        }
    } else {
        assert(a.len() == 0 && b.len() == 0 ==> a =~= b);
    }
}

/// The order is asymmetric, hence irreflexive.
pub proof fn lemma_text_less_asymmetric(a: Seq<char>, b: Seq<char>)
    requires
        text_less(a, b),
    ensures
        !text_less(b, a),
    decreases a.len(),
{
    if a.len() > 0 && b.len() > 0 && a[0] == b[0] {
        lemma_text_less_asymmetric(a.skip(1), b.skip(1));
    }
}

/// The order is transitive.
pub proof fn lemma_text_less_transitive(a: Seq<char>, b: Seq<char>, c: Seq<char>)
    requires
        text_less(a, b),
        text_less(b, c),
    ensures
        text_less(a, c),
    decreases a.len(),
{
    if a.len() > 0 && b.len() > 0 && c.len() > 0 && a[0] == b[0] && b[0] == c[0] {
        lemma_text_less_transitive(a.skip(1), b.skip(1), c.skip(1));
    }
}

} // verus!
