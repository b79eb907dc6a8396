//! What the operations on text come to, by what can be seen of their results.

use vstd::prelude::*;
use crate::text::{
    ascii_lower, ascii_lower_char, decimal, digit, has_prefix, has_suffix, lemma_trimmed, pieces,
    replaced, signed_decimal, three_digits, trimmed, white_space,
};

verus! {

/// Law: a text ends with another just where it is something followed by the other, and starts with another
/// just where it is the other followed by something.
pub proof fn law_prefixes_and_suffixes_come_off(s: Seq<char>, part: Seq<char>)
    ensures
        forall|rest: Seq<char>| s == #[trigger] (rest + part) ==> has_suffix(s, part),
        has_suffix(s, part) ==> exists|rest: Seq<char>| s == #[trigger] (rest + part),
        forall|rest: Seq<char>| s == #[trigger] (part + rest) ==> has_prefix(s, part),
        has_prefix(s, part) ==> exists|rest: Seq<char>| s == #[trigger] (part + rest),
{
    assert forall|rest: Seq<char>| s == #[trigger] (rest + part) implies has_suffix(s, part) by {
        assert((rest + part).skip(rest.len() as int) =~= part);
    }
    assert forall|rest: Seq<char>| s == #[trigger] (part + rest) implies has_prefix(s, part) by {
        assert((part + rest).take(part.len() as int) =~= part);
    }
    if has_suffix(s, part) {
        let rest = s.take(s.len() - part.len());
        assert(s =~= rest + s.skip(s.len() - part.len()));
        assert(s == rest + part);
    }
    if has_prefix(s, part) {
        let rest = s.skip(part.len() as int);
        assert(s =~= s.take(part.len() as int) + rest);
        assert(s == part + rest);
    }
}

/// Law: the white space is that of Unicode: the tabulator to the carriage return, the space, the next line,
/// the spaces without a break, the Ogham space, the spaces of the general punctuation, the line and
/// paragraph separators and the ideographic space; no letter, digit or sign of a path is.
pub proof fn law_white_space_is_that_of_unicode(c: char)
    ensures
        white_space(c) <==> {
            let n = c as u32;
            ||| n == 0x9 || n == 0xa || n == 0xb || n == 0xc || n == 0xd || n == 0x20 || n == 0x85
            ||| n == 0xa0 || n == 0x1680 || n == 0x2028 || n == 0x2029 || n == 0x202f
            ||| n == 0x205f || n == 0x3000
            ||| 0x2000 <= n <= 0x200a
        },
{
}

/// Whether a text is nothing but white space.
pub open spec fn blank(s: Seq<char>) -> bool {
    forall|i: int| 0 <= i < s.len() ==> white_space(#[trigger] s[i])
}

/// Law: trimming takes white space off the two ends and nothing else, until no end is white space.
pub proof fn law_trimming_takes_off_blank_ends(s: Seq<char>)
    ensures
        exists|before: Seq<char>, after: Seq<char>|
            blank(before) && blank(after) && s == #[trigger] (before + trimmed(s) + after),
        trimmed(s).len() > 0 ==> !white_space(trimmed(s).first()) && !white_space(trimmed(s).last()),
    decreases s.len(),
{
    let none: Seq<char> = Seq::empty();
    lemma_trimmed(s);
    if s.len() == 0 || (!white_space(s.first()) && !white_space(s.last())) {
        assert(blank(none));
        assert(s =~= none + trimmed(s) + none);
    } else if white_space(s.first()) {
        law_trimming_takes_off_blank_ends(s.drop_first());
        let (before, after) = choose|before: Seq<char>, after: Seq<char>|
            blank(before) && blank(after) && s.drop_first() == #[trigger] (before + trimmed(
                s.drop_first(),
            ) + after);
        let more = seq![s.first()] + before;
        assert(blank(more));
        assert(s =~= seq![s.first()] + s.drop_first());
        assert(s =~= more + trimmed(s) + after);
    } else {
        law_trimming_takes_off_blank_ends(s.drop_last());
        let (before, after) = choose|before: Seq<char>, after: Seq<char>|
            blank(before) && blank(after) && s.drop_last() == #[trigger] (before + trimmed(
                s.drop_last(),
            ) + after);
        let more = after.push(s.last());
        assert(blank(more));
        assert(s =~= s.drop_last().push(s.last()));
        assert(s =~= before + trimmed(s) + more);
    }
}

/// Law: a replacement leaves a text as long as it is, and changes just the characters that are replaced.
pub proof fn law_replacing_changes_one_character(s: Seq<char>, from: char, to: char)
    ensures
        replaced(s, from, to).len() == s.len(),
        forall|i: int|
            0 <= i < s.len() ==> #[trigger] replaced(s, from, to)[i] == (if s[i] == from {
                to
            } else {
                s[i]
            }),
{
}

/// Some texts one after the other, with a separator between them.
pub open spec fn rejoined(list: Seq<Seq<char>>, separator: char) -> Seq<char>
    decreases list.len(),
{
    if list.len() == 0 {
        Seq::empty()
    } else if list.len() == 1 {
        list[0]
    } else {
        rejoined(list.drop_last(), separator) + seq![separator] + list.last()
    }
}

/// Law: the pieces of a text hold no separator, and with one between each two of them they are the text.
pub proof fn law_pieces_make_up_the_text(s: Seq<char>, separator: char)
    ensures
        pieces(s, separator).len() > 0,
        rejoined(pieces(s, separator), separator) == s,
        forall|i: int, k: int|
            0 <= i < pieces(s, separator).len() && 0 <= k < pieces(s, separator)[i].len() ==> (
            #[trigger] pieces(s, separator)[i][k]) != separator,
    decreases s.len(),
{
    if s.len() == 0 {
        assert(rejoined(pieces(s, separator), separator) =~= s);
    } else {
        let front = s.drop_last();
        let before = pieces(front, separator);
        let all = pieces(s, separator);
        law_pieces_make_up_the_text(front, separator);
        if s.last() == separator {
            assert(all.drop_last() =~= before);
            assert(rejoined(all, separator) =~= front.push(separator));
        } else {
            assert(all.drop_last() =~= before.drop_last());
            if before.len() == 1 {
                assert(rejoined(all, separator) =~= front.push(s.last()));
            } else {
                assert(rejoined(all, separator) =~= front.push(s.last()));
            }
        }
        assert(front.push(s.last()) =~= s);
        assert forall|i: int, k: int| 0 <= i < all.len() && 0 <= k < all[i].len() implies (
        #[trigger] all[i][k]) != separator by {
            if i < before.len() && k < before[i].len() {
                assert(all[i][k] == before[i][k]);
            }
        }
    }
}

/// Law: turning a text to lower case leaves it as long as it is, turns each of the letters from `A` to `Z`
/// into the one from `a` to `z` at the same place in the alphabet, and leaves every other character alone.
pub proof fn law_lower_case_is_that_of_ascii(s: Seq<char>)
    ensures
        ascii_lower(s).len() == s.len(),
        forall|i: int|
            0 <= i < s.len() ==> {
                let from = s[i] as u32;
                let to = #[trigger] ascii_lower(s)[i] as u32;
                &&& 0x41 <= from <= 0x5a ==> to == from + 0x20
                &&& !(0x41 <= from <= 0x5a) ==> to == from
            },
{
    assert forall|i: int| 0 <= i < s.len() implies {
        let from = s[i] as u32;
        let to = #[trigger] ascii_lower(s)[i] as u32;
        &&& 0x41 <= from <= 0x5a ==> to == from + 0x20
        &&& !(0x41 <= from <= 0x5a) ==> to == from
    } by {
        assert(ascii_lower(s)[i] == ascii_lower_char(s[i]));
    }
}

/// The number that some decimal digits stand for.
pub open spec fn value_of(digits: Seq<char>) -> int
    decreases digits.len(),
{
    if digits.len() == 0 {
        0
    } else {
        10 * value_of(digits.drop_last()) + (digits.last() as u32 - 0x30)
    }
}

/// Whether a text is nothing but decimal digits.
pub open spec fn all_digits(s: Seq<char>) -> bool {
    forall|i: int| 0 <= i < s.len() ==> '0' <= #[trigger] s[i] <= '9'
}

/// Law: a number is written in decimal digits that stand for it, without a zero at the start but for zero
/// itself.
pub proof fn law_decimal_stands_for_its_number(n: nat)
    ensures
        decimal(n).len() > 0,
        all_digits(decimal(n)),
        value_of(decimal(n)) == n,
        decimal(n).len() > 1 ==> decimal(n)[0] != '0',
        n > 0 ==> decimal(n)[0] != '0',
    decreases n,
{
    let last = digit(n % 10);
    assert(last as u32 == 48 + n % 10);
    if n < 10 {
        assert(decimal(n).drop_last() =~= Seq::empty());
        assert(value_of(decimal(n).drop_last()) == 0);
    } else {
        law_decimal_stands_for_its_number(n / 10);
        assert(decimal(n).drop_last() =~= decimal(n / 10));
        assert(decimal(n).last() == last);
    }
}

/// Law: a number below one thousand is written in three decimal digits that stand for it.
pub proof fn law_three_digits_stand_for_their_number(n: nat)
    requires
        n < 1000,
    ensures
        three_digits(n).len() == 3,
        all_digits(three_digits(n)),
        value_of(three_digits(n)) == n,
{
    let d = three_digits(n);
    assert(digit(n / 100) as u32 == 48 + n / 100);
    assert(digit(n / 10 % 10) as u32 == 48 + n / 10 % 10);
    assert(digit(n % 10) as u32 == 48 + n % 10);
    assert(d.drop_last() =~= seq![d[0], d[1]]);
    assert(seq![d[0], d[1]].drop_last() =~= seq![d[0]]);
    assert(seq![d[0]].drop_last() =~= Seq::empty());
    assert(value_of(Seq::empty()) == 0);
    assert(value_of(seq![d[0]]) == n / 100);
    assert(value_of(seq![d[0], d[1]]) == 10 * (n / 100) + n / 10 % 10);
}

/// Law: an integer is written as the decimal digits of its amount, behind a hyphen where it is negative.
pub proof fn law_signed_decimal_stands_for_its_number(n: int)
    ensures
        n >= 0 ==> all_digits(signed_decimal(n)) && value_of(signed_decimal(n)) == n,
        n < 0 ==> {
            &&& signed_decimal(n).len() > 1
            &&& signed_decimal(n)[0] == '-'
            &&& all_digits(signed_decimal(n).skip(1))
            &&& value_of(signed_decimal(n).skip(1)) == -n
        },
{
    if n < 0 {
        law_decimal_stands_for_its_number((-n) as nat);
        assert(signed_decimal(n).skip(1) =~= decimal((-n) as nat));
    } else {
        law_decimal_stands_for_its_number(n as nat);
    }
}

} // verus!
