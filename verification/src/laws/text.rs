//! Numbers, lists, searches and the order of texts.

use crate::text;
use vstd::prelude::*;

verus! {

/// The number that a row of decimal digits stands for.
pub open spec fn digits_value(digits: Seq<char>) -> int
    decreases digits.len(),
{
    if digits.len() == 0 {
        0
    } else {
        10 * digits_value(digits.drop_last()) + (digits.last() as u32 - '0' as u32)
    }
}

/// A number is written with digits that stand for it, without leading zeros.
pub proof fn law_decimal_stands_for_the_number(n: nat)
    ensures
        text::decimal(n).len() > 0,
        forall|i: int| 0 <= i < text::decimal(n).len() ==> '0' <= #[trigger] text::decimal(n)[i] <= '9',
        digits_value(text::decimal(n)) == n,
        text::decimal(n)[0] == '0' ==> n == 0 && text::decimal(n).len() == 1,
    decreases n,
{
    let last = n % 10;
    let c = text::digit_char(last);
    assert('0' <= c <= '9' && c as u32 - '0' as u32 == last);
    reveal_with_fuel(digits_value, 2);
    if n < 10 {
        assert(text::decimal(n) =~= seq![c]);
        assert(text::decimal(n).drop_last() =~= Seq::<char>::empty());
    } else {
        let init = text::decimal(n / 10);
        law_decimal_stands_for_the_number(n / 10);
        assert(text::decimal(n) =~= init.push(c));
        assert(text::decimal(n).drop_last() =~= init);
        assert(text::decimal(n)[0] == init[0]);
    }
}

/// A part occurs in a text exactly where the text is the part with something around it.
pub proof fn law_occurring_is_standing_inside(part: Seq<char>, whole: Seq<char>)
    ensures
        text::occurs_in(part, whole) <==> exists|before: Seq<char>, after: Seq<char>|
            whole == #[trigger] (before + part + after),
{
    if text::occurs_in(part, whole) {
        let i = choose|i: int| #[trigger] text::occurs_at(part, whole, i);
        let before = whole.take(i);
        let after = whole.skip(i + part.len());
        assert(whole =~= before + part + after);
    }
    if exists|before: Seq<char>, after: Seq<char>| whole == #[trigger] (before + part + after) {
        let (before, after) = choose|before: Seq<char>, after: Seq<char>|
            whole == #[trigger] (before + part + after);
        let at = before.len() as int;
        assert(whole.subrange(at, at + part.len()) =~= part);
        assert(text::occurs_at(part, whole, at));
    }
}

/// Whether two texts agree up to a position, and the first ends or has the smaller character
/// there.
pub open spec fn smaller_at(a: Seq<char>, b: Seq<char>, at: int) -> bool {
    &&& 0 <= at <= a.len() && at < b.len()
    &&& forall|k: int| 0 <= k < at ==> #[trigger] a[k] == b[k]
    &&& at == a.len() || a[at] < b[at]
}

/// A text comes before another one where it is the beginning of it, or has the smaller character
/// at the first difference.
pub proof fn law_texts_are_ordered_by_their_first_difference(a: Seq<char>, b: Seq<char>)
    ensures
        text::text_less(a, b) <==> exists|at: int| #[trigger] smaller_at(a, b, at),
    decreases a.len(),
{
    if a.len() > 0 && b.len() > 0 && a[0] == b[0] {
        let x = a.skip(1);
        let y = b.skip(1);
        law_texts_are_ordered_by_their_first_difference(x, y);
        if text::text_less(a, b) {
            let at = choose|at: int| #[trigger] smaller_at(x, y, at);
            assert forall|k: int| 0 <= k < at + 1 implies #[trigger] a[k] == b[k] by {
                if k > 0 {
                    assert(x[k - 1] == y[k - 1]);
                }
            }
            assert(smaller_at(a, b, at + 1));
        }
        if exists|at: int| #[trigger] smaller_at(a, b, at) {
            let at = choose|at: int| #[trigger] smaller_at(a, b, at);
            assert(at > 0);
            assert forall|k: int| 0 <= k < at - 1 implies #[trigger] x[k] == y[k] by {
                assert(a[k + 1] == b[k + 1]);
            }
            assert(smaller_at(x, y, at - 1));
        }
    } else {
        if text::text_less(a, b) {
            assert(smaller_at(a, b, 0));
        }
        if exists|at: int| #[trigger] smaller_at(a, b, at) {
            let at = choose|at: int| #[trigger] smaller_at(a, b, at);
            if at > 0 {
                assert(a[0] == b[0]);
            }
        }
    }
}

/// Whether the characters from `i` to `j` of a list stand between two separators, or between one
/// and an end of the list.
pub open spec fn piece_at(list: Seq<char>, separator: char, i: int, j: int) -> bool {
    &&& 0 <= i <= j <= list.len()
    &&& i == 0 || list[i - 1] == separator
    &&& j == list.len() || list[j] == separator
    &&& forall|k: int| i <= k < j ==> #[trigger] list[k] != separator
}

proof fn lemma_last_piece(list: Seq<char>, separator: char) -> (start: int)
    ensures
        text::split_on(list, separator).len() > 0,
        piece_at(list, separator, start, list.len() as int),
        text::split_on(list, separator).last() == list.subrange(start, list.len() as int),
    decreases list.len(),
{
    let pieces = text::split_on(list, separator);
    let n = list.len() as int;
    if n == 0 {
        assert(pieces.last() =~= list.subrange(0, 0));
        0
    } else {
        let init = list.drop_last();
        let start = lemma_last_piece(init, separator);
        if list.last() == separator {
            assert(pieces.last() =~= list.subrange(n, n));
            n
        } else {
            assert forall|k: int| start <= k < n implies #[trigger] list[k] != separator by {
                if k < n - 1 {
                    assert(init[k] != separator);
                }
            }
            assert(pieces.last() =~= list.subrange(start, n));
            start
        }
    }
}

proof fn lemma_piece_has_a_place(list: Seq<char>, separator: char, k: int) -> (place: (int, int))
    requires
        0 <= k < text::split_on(list, separator).len() - 1,
    ensures
        piece_at(list, separator, place.0, place.1),
        place.1 < list.len(),
        text::split_on(list, separator)[k] == list.subrange(place.0, place.1),
    decreases list.len(),
{
    let init = list.drop_last();
    let before = text::split_on(init, separator);
    let start = lemma_last_piece(init, separator);
    if k < before.len() - 1 {
        let place = lemma_piece_has_a_place(init, separator, k);
        lemma_place_in_a_longer_list(list, separator, place.0, place.1);
        place
    } else {
        let n = init.len() as int;
        assert(list.last() == separator);
        assert forall|k: int| start <= k < n implies #[trigger] list[k] != separator by {
            assert(init[k] != separator);
        }
        assert(init.subrange(start, n) =~= list.subrange(start, n));
        (start, n)
    }
}

proof fn lemma_place_in_a_longer_list(list: Seq<char>, separator: char, i: int, j: int)
    requires
        list.len() > 0,
        j < list.len() - 1,
    ensures
        piece_at(list.drop_last(), separator, i, j) <==> piece_at(list, separator, i, j),
        0 <= i <= j ==> list.drop_last().subrange(i, j) == list.subrange(i, j),
{
    let init = list.drop_last();
    if piece_at(init, separator, i, j) {
        assert forall|k: int| i <= k < j implies #[trigger] list[k] != separator by {
            assert(init[k] != separator);
        }
    }
    if piece_at(list, separator, i, j) {
        assert forall|k: int| i <= k < j implies #[trigger] init[k] != separator by {
            assert(list[k] != separator);
        }
    }
    if 0 <= i <= j {
        assert(init.subrange(i, j) =~= list.subrange(i, j));
    }
}

proof fn lemma_place_has_a_piece(list: Seq<char>, separator: char, i: int, j: int) -> (k: int)
    requires
        piece_at(list, separator, i, j),
        j < list.len(),
    ensures
        0 <= k < text::split_on(list, separator).len() - 1,
        text::split_on(list, separator)[k] == list.subrange(i, j),
    decreases list.len(),
{
    let init = list.drop_last();
    let before = text::split_on(init, separator);
    let n = init.len() as int;
    let start = lemma_last_piece(init, separator);
    if j < n {
        lemma_place_in_a_longer_list(list, separator, i, j);
        lemma_place_has_a_piece(init, separator, i, j)
    } else {
        assert forall|k: int| i <= k < j implies #[trigger] init[k] != separator by {
            assert(list[k] != separator);
        }
        lemma_last_piece_starts_once(init, separator, i, start);
        assert(init.subrange(i, n) =~= list.subrange(i, n));
        before.len() - 1
    }
}

proof fn lemma_last_piece_starts_once(list: Seq<char>, separator: char, i: int, j: int)
    requires
        piece_at(list, separator, i, list.len() as int),
        piece_at(list, separator, j, list.len() as int),
    ensures
        i == j,
{
    if i < j {
        assert(list[j - 1] != separator);
    } else if j < i {
        assert(list[i - 1] != separator);
    }
}

/// The pieces of a list are what stands between its separators and its ends, and nothing else; put
/// together again with the separator they are the list.
pub proof fn law_pieces_stand_between_separators(
    list: Seq<char>,
    separator: char,
    piece: Seq<char>,
)
    ensures
        text::split_on(list, separator).contains(piece) <==> exists|i: int, j: int| #[trigger]
            piece_at(list, separator, i, j) && piece == list.subrange(i, j),
        text::joined(text::split_on(list, separator), seq![separator]) == list,
{
    let pieces = text::split_on(list, separator);
    let n = list.len() as int;
    let start = lemma_last_piece(list, separator);
    lemma_joining_undoes_splitting(list, separator);
    if pieces.contains(piece) {
        let k = choose|k: int| 0 <= k < pieces.len() && pieces[k] == piece;
        if k < pieces.len() - 1 {
            let place = lemma_piece_has_a_place(list, separator, k);
            assert(piece_at(list, separator, place.0, place.1));
        }
    }
    if exists|i: int, j: int| #[trigger]
        piece_at(list, separator, i, j) && piece == list.subrange(i, j) {
        let (i, j) = choose|i: int, j: int| #[trigger]
            piece_at(list, separator, i, j) && piece == list.subrange(i, j);
        if j < n {
            let k = lemma_place_has_a_piece(list, separator, i, j);
            assert(pieces[k] == piece);
        } else {
            lemma_last_piece_starts_once(list, separator, i, start);
            assert(pieces[pieces.len() - 1] == piece);
        }
    }
}

proof fn lemma_joining_undoes_splitting(list: Seq<char>, separator: char)
    ensures
        text::split_on(list, separator).len() > 0,
        text::joined(text::split_on(list, separator), seq![separator]) == list,
    decreases list.len(),
{
    let pieces = text::split_on(list, separator);
    let between = seq![separator];
    if list.len() == 0 {
        assert(text::joined(pieces, between) =~= list);
    } else {
        let init = list.drop_last();
        let before = text::split_on(init, separator);
        lemma_joining_undoes_splitting(init, separator);
        assert(list =~= init.push(list.last()));
        if list.last() == separator {
            assert(pieces.drop_last() =~= before);
            assert(text::joined(pieces, between) =~= init + between + Seq::<char>::empty());
            assert(init + between + Seq::<char>::empty() =~= list);
        } else {
            assert(pieces.drop_last() =~= before.drop_last());
            assert(text::joined(pieces, between) =~= list);
        }
    }
}

/// Two lists with a separator between them split into the pieces of both.
pub(crate) proof fn lemma_split_in_two(first: Seq<char>, second: Seq<char>, separator: char)
    ensures
        text::split_on(first.push(separator) + second, separator) == text::split_on(first, separator) + text::split_on(
            second,
            separator,
        ),
        text::split_on(second, separator).len() > 0,
    decreases second.len(),
{
    let whole = first.push(separator) + second;
    if second.len() == 0 {
        assert(whole =~= first.push(separator));
        assert(whole.drop_last() =~= first);
        assert(text::split_on(whole, separator) =~= text::split_on(first, separator) + text::split_on(
            second,
            separator,
        ));
    } else {
        let init = second.drop_last();
        lemma_split_in_two(first, init, separator);
        assert(whole.drop_last() =~= first.push(separator) + init);
        assert(whole.last() == second.last());
        assert(text::split_on(whole, separator) =~= text::split_on(first, separator) + text::split_on(
            second,
            separator,
        ));
    }
}

/// A list without the separator is its only piece.
pub(crate) proof fn lemma_one_piece(piece: Seq<char>, separator: char)
    requires
        forall|i: int| 0 <= i < piece.len() ==> #[trigger] piece[i] != separator,
    ensures
        text::split_on(piece, separator) == seq![piece],
    decreases piece.len(),
{
    if piece.len() > 0 {
        lemma_one_piece(piece.drop_last(), separator);
        assert(piece.drop_last().push(piece.last()) =~= piece);
        assert(text::split_on(piece, separator) =~= seq![piece]);
    } else {
        assert(piece =~= Seq::<char>::empty());
        assert(text::split_on(piece, separator) =~= seq![piece]);
    }
}

/// Joining puts the separator between neighbours: one more part at the end adds the separator and
/// the part.
pub proof fn law_joining_adds_part_by_part(
    parts: Seq<Seq<char>>,
    part: Seq<char>,
    separator: Seq<char>,
)
    ensures
        text::joined(Seq::<Seq<char>>::empty(), separator) == Seq::<char>::empty(),
        text::joined(seq![part], separator) == part,
        parts.len() > 0 ==> text::joined(parts.push(part), separator) == text::joined(
            parts,
            separator,
        ) + separator + part,
{
    assert(parts.push(part).drop_last() =~= parts);
}

} // verus!
