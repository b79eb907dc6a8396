//! Plain operations on text: comparing, trimming, splitting and rendering numbers.

use vstd::prelude::*;

verus! {

/// `String::push` appends one character at the end of the string.
pub assume_specification[ String::push ](s: &mut String, c: char)
    ensures
        final(s)@ == old(s)@.push(c),
;

/// The text as a vector of its characters.
pub fn to_chars(s: &str) -> (chars: Vec<char>)
    ensures
        chars@ == s@,
{
    let mut chars: Vec<char> = Vec::new();
    for c in it: s.chars()
        invariant
            it.seq() == s@,
            chars@ == s@.take(it.index()),
    {
        proof {
            assert(s@.take(it.index() + 1) =~= s@.take(it.index()).push(c));
        }
        chars.push(c);
    }
    proof {
        assert(s@.take(s@.len() as int) =~= s@);
    }
    chars
}

/// The text made of the characters from `start` up to `end`.
pub fn text_between(chars: &Vec<char>, start: usize, end: usize) -> (s: String)
    requires
        start <= end <= chars@.len(),
    ensures
        s@ == chars@.subrange(start as int, end as int),
{
    let mut s = String::new();
    let mut i: usize = start;
    while i < end
        invariant
            start <= i <= end <= chars@.len(),
            s@ == chars@.subrange(start as int, i as int),
        decreases end - i,
    {
        s.push(chars[i]);
        i = i + 1;
        proof {
            assert(chars@.subrange(start as int, i as int) =~= chars@.subrange(
                start as int,
                i - 1,
            ).push(chars@[i - 1]));
        }
    }
    s
}

/// Whether two vectors hold the same characters.
pub fn same_chars(a: &Vec<char>, b: &Vec<char>) -> (same: bool)
    ensures
        same == (a@ == b@),
{
    if a.len() != b.len() {
        return false;
    }
    let mut i: usize = 0;
    while i < a.len()
        invariant
            i <= a@.len() == b@.len(),
            forall|j: int| 0 <= j < i ==> a@[j] == b@[j],
        decreases a.len() - i,
    {
        if a[i] != b[i] {
            return false;
        }
        i = i + 1;
    }
    assert(a@ =~= b@);
    true
}

/// A text, what it is about in brackets, and an error.
pub fn report_at(before: &str, inside: &str, error: &str) -> (res: String)
    ensures
        res@ == before@ + inside@ + "]: "@ + error@,
{
    let mut res = before.to_owned();
    res.append(inside);
    res.append("]: ");
    res.append(error);
    res
}

/// A text, two paths in brackets, and an error.
pub fn report_between(before: &str, from: &str, to: &str, error: &str) -> (res: String)
    ensures
        res@ == before@ + from@ + "] -> ["@ + to@ + "]: "@ + error@,
{
    let mut res = before.to_owned();
    res.append(from);
    res.append("] -> [");
    res.append(to);
    res.append("]: ");
    res.append(error);
    res
}

/// Whether two texts are equal.
pub fn same_text(a: &str, b: &str) -> (same: bool)
    ensures
        same == (a@ == b@),
{
    same_chars(&to_chars(a), &to_chars(b))
}

/// Whether `s` ends with `suffix`.
pub open spec fn has_suffix(s: Seq<char>, suffix: Seq<char>) -> bool {
    suffix.len() <= s.len() && s.skip(s.len() - suffix.len()) == suffix
}

/// Whether `s` starts with `prefix`.
pub open spec fn has_prefix(s: Seq<char>, prefix: Seq<char>) -> bool {
    prefix.len() <= s.len() && s.take(prefix.len() as int) == prefix
}

/// Whether one text ends with another.
pub fn ends_with(s: &str, suffix: &str) -> (res: bool)
    ensures
        res == has_suffix(s@, suffix@),
{
    let a = to_chars(s);
    let b = to_chars(suffix);
    if b.len() > a.len() {
        return false;
    }
    let shift: usize = a.len() - b.len();
    let mut i: usize = 0;
    while i < b.len()
        invariant
            shift + b.len() == a.len(),
            i <= b@.len(),
            a@ == s@,
            b@ == suffix@,
            forall|j: int| 0 <= j < i ==> a@[shift + j] == b@[j],
        decreases b.len() - i,
    {
        if a[shift + i] != b[i] {
            assert(s@.skip(s@.len() - suffix@.len())[i as int] != suffix@[i as int]);
            return false;
        }
        i = i + 1;
    }
    assert(s@.skip(s@.len() - suffix@.len()) =~= suffix@);
    true
}

/// Whether one text starts with another.
pub fn starts_with(s: &str, prefix: &str) -> (res: bool)
    ensures
        res == has_prefix(s@, prefix@),
{
    let a = to_chars(s);
    let b = to_chars(prefix);
    if b.len() > a.len() {
        return false;
    }
    let mut i: usize = 0;
    while i < b.len()
        invariant
            i <= b@.len() <= a@.len(),
            a@ == s@,
            b@ == prefix@,
            forall|j: int| 0 <= j < i ==> a@[j] == b@[j],
        decreases b.len() - i,
    {
        if a[i] != b[i] {
            assert(s@.take(prefix@.len() as int)[i as int] != prefix@[i as int]);
            return false;
        }
        i = i + 1;
    }
    assert(s@.take(prefix@.len() as int) =~= prefix@);
    true
}

/// The characters with the Unicode property `White_Space`.
pub open spec fn white_space(c: char) -> bool {
    ||| '\u{9}' <= c <= '\u{d}'
    ||| c == ' '
    ||| c == '\u{85}'
    ||| c == '\u{a0}'
    ||| c == '\u{1680}'
    ||| '\u{2000}' <= c <= '\u{200a}'
    ||| c == '\u{2028}'
    ||| c == '\u{2029}'
    ||| c == '\u{202f}'
    ||| c == '\u{205f}'
    ||| c == '\u{3000}'
}

/// Whether a character has the Unicode property `White_Space`.
pub fn is_white_space(c: char) -> (res: bool)
    ensures
        res == white_space(c),
{
    ('\u{9}' <= c && c <= '\u{d}') || c == ' ' || c == '\u{85}' || c == '\u{a0}' || c == '\u{1680}'
        || ('\u{2000}' <= c && c <= '\u{200a}') || c == '\u{2028}' || c == '\u{2029}' || c
        == '\u{202f}' || c == '\u{205f}' || c == '\u{3000}'
}

/// The text without the white space at its two ends.
#[verifier::opaque]
pub open spec fn trimmed(s: Seq<char>) -> Seq<char>
    decreases s.len(),
{
    if s.len() == 0 {
        s
    } else if white_space(s.first()) {
        trimmed(s.drop_first())
    } else if white_space(s.last()) {
        trimmed(s.drop_last())
    } else {
        s
    }
}

/// How a text is trimmed, by its two ends.
pub proof fn lemma_trimmed(s: Seq<char>)
    ensures
        s.len() == 0 ==> trimmed(s) == s,
        s.len() > 0 && white_space(s.first()) ==> trimmed(s) == trimmed(s.drop_first()),
        s.len() > 0 && !white_space(s.first()) && white_space(s.last()) ==> trimmed(s) == trimmed(
            s.drop_last(),
        ),
        s.len() > 0 && !white_space(s.first()) && !white_space(s.last()) ==> trimmed(s) == s,
{
    reveal(trimmed);
}

/// Removes the white space at the two ends of a text.
pub fn trim(s: &str) -> (res: Vec<char>)
    ensures
        res@ == trimmed(s@),
{
    let chars = to_chars(s);
    let mut start: usize = 0;
    let mut end: usize = chars.len();
    proof {
        assert(chars@.subrange(0, end as int) =~= s@);
    }
    while start < end && is_white_space(chars[start])
        invariant
            start <= end == chars@.len(),
            trimmed(chars@.subrange(start as int, end as int)) == trimmed(s@),
        decreases end - start,
    {
        proof {
            let now = chars@.subrange(start as int, end as int);
            assert(now.drop_first() =~= chars@.subrange(start + 1, end as int));
            lemma_trimmed(now);
        }
        start = start + 1;
    }
    while start < end && is_white_space(chars[end - 1])
        invariant
            start <= end <= chars@.len(),
            start < end ==> !white_space(chars@[start as int]),
            trimmed(chars@.subrange(start as int, end as int)) == trimmed(s@),
        decreases end - start,
    {
        proof {
            let now = chars@.subrange(start as int, end as int);
            assert(now.drop_last() =~= chars@.subrange(start as int, end - 1));
            lemma_trimmed(now);
        }
        end = end - 1;
    }
    proof {
        lemma_trimmed(chars@.subrange(start as int, end as int));
    }
    let mut res: Vec<char> = Vec::new();
    let mut i: usize = start;
    while i < end
        invariant
            start <= i <= end <= chars@.len(),
            res@ == chars@.subrange(start as int, i as int),
        decreases end - i,
    {
        res.push(chars[i]);
        i = i + 1;
        proof {
            assert(chars@.subrange(start as int, i as int) =~= chars@.subrange(
                start as int,
                i - 1,
            ).push(chars@[i - 1]));
        }
    }
    res
}

/// The text with every `from` turned into `to`.
pub open spec fn replaced(s: Seq<char>, from: char, to: char) -> Seq<char> {
    s.map_values(|c: char| if c == from { to } else { c })
}

/// Turns every `from` into `to`.
pub fn replace_char(chars: &Vec<char>, from: char, to: char) -> (res: Vec<char>)
    ensures
        res@ == replaced(chars@, from, to),
{
    let mut res: Vec<char> = Vec::new();
    let mut i: usize = 0;
    while i < chars.len()
        invariant
            i <= chars@.len(),
            res@.len() == i,
            forall|j: int| 0 <= j < i ==> res@[j] == (if chars@[j] == from { to } else { chars@[j] }),
        decreases chars.len() - i,
    {
        let c = chars[i];
        res.push(if c == from { to } else { c });
        i = i + 1;
    }
    assert(res@ =~= replaced(chars@, from, to));
    res
}

/// The pieces of a text between the occurrences of `separator`; the text without one is a single
/// piece.
pub open spec fn pieces(s: Seq<char>, separator: char) -> Seq<Seq<char>>
    decreases s.len(),
{
    if s.len() == 0 {
        seq![Seq::<char>::empty()]
    } else {
        let before = pieces(s.drop_last(), separator);
        if s.last() == separator {
            before.push(Seq::empty())
        } else {
            before.drop_last().push(before.last().push(s.last()))
        }
    }
}

/// The texts that a sequence of strings holds.
pub open spec fn texts(strings: Seq<String>) -> Seq<Seq<char>> {
    strings.map_values(|s: String| s@)
}

pub proof fn lemma_texts_push(strings: Seq<String>, s: String)
    ensures
        texts(strings.push(s)) == texts(strings).push(s@),
{
    assert(texts(strings.push(s)) =~= texts(strings).push(s@));
}

/// A copy of a list of texts.
pub fn clone_texts(list: &Vec<String>) -> (res: Vec<String>)
    ensures
        texts(res@) == texts(list@),
{
    let mut res: Vec<String> = Vec::new();
    let mut i: usize = 0;
    while i < list.len()
        invariant
            i <= list@.len(),
            texts(res@) == texts(list@).take(i as int),
        decreases list.len() - i,
    {
        let text = list[i].clone();
        proof {
            lemma_texts_push(res@, text);
            assert(texts(list@).take(i + 1) =~= texts(list@).take(i as int).push(text@));
        }
        res.push(text);
        i = i + 1;
    }
    proof {
        assert(texts(list@).take(i as int) =~= texts(list@));
    }
    res
}

/// Cuts a text at every occurrence of `separator`.
pub fn split_pieces(chars: &Vec<char>, separator: char) -> (res: Vec<String>)
    ensures
        texts(res@) == pieces(chars@, separator),
{
    let mut done: Vec<String> = Vec::new();
    let mut current = String::new();
    let mut i: usize = 0;
    proof {
        assert(chars@.take(0) =~= Seq::<char>::empty());
        assert(texts(done@).push(current@) =~= seq![Seq::<char>::empty()]);
    }
    while i < chars.len()
        invariant
            i <= chars@.len(),
            texts(done@).push(current@) == pieces(chars@.take(i as int), separator),
        decreases chars.len() - i,
    {
        let c = chars[i];
        let ghost before = texts(done@).push(current@);
        proof {
            assert(chars@.take(i + 1).drop_last() =~= chars@.take(i as int));
            assert(before.drop_last() =~= texts(done@));
            assert(before.last() == current@);
        }
        if c == separator {
            proof {
                lemma_texts_push(done@, current);
            }
            done.push(current);
            current = String::new();
        } else {
            current.push(c);
        }
        i = i + 1;
    }
    proof {
        assert(chars@.take(i as int) =~= chars@);
        lemma_texts_push(done@, current);
    }
    done.push(current);
    done
}

/// The lower-case letter of an ASCII capital; any other character is left alone.
pub open spec fn ascii_lower_char(c: char) -> char {
    if 'A' <= c <= 'Z' {
        (c as u8 + 32) as char
    } else {
        c
    }
}

/// The text with its ASCII capitals turned into lower-case letters.
pub open spec fn ascii_lower(s: Seq<char>) -> Seq<char> {
    s.map_values(|c: char| ascii_lower_char(c))
}

/// Turns an ASCII capital into its lower-case letter.
pub fn to_ascii_lower_char(c: char) -> (res: char)
    ensures
        res == ascii_lower_char(c),
{
    if 'A' <= c && c <= 'Z' {
        ((c as u8) + 32) as char
    } else {
        c
    }
}

/// Turns the ASCII capitals of a text into lower-case letters.
pub fn to_ascii_lower(s: &str) -> (res: String)
    ensures
        res@ == ascii_lower(s@),
{
    let chars = to_chars(s);
    let mut res = String::new();
    let mut i: usize = 0;
    while i < chars.len()
        invariant
            i <= chars@.len(),
            res@.len() == i,
            forall|j: int| 0 <= j < i ==> res@[j] == ascii_lower_char(chars@[j]),
        decreases chars.len() - i,
    {
        res.push(to_ascii_lower_char(chars[i]));
        i = i + 1;
    }
    assert(res@ =~= ascii_lower(s@));
    res
}

/// The decimal digit of a number below ten.
pub open spec fn digit(n: nat) -> char {
    (48 + n) as char
}

/// A number in decimal, without leading zeros.
pub open spec fn decimal(n: nat) -> Seq<char>
    decreases n,
{
    if n < 10 {
        seq![digit(n)]
    } else {
        decimal(n / 10).push(digit(n % 10))
    }
}

/// Renders a number in decimal.
pub fn decimal_text(n: u64) -> (res: String)
    ensures
        res@ == decimal(n as nat),
    decreases n,
{
    if n < 10 {
        let mut res = String::new();
        res.push((48 + n as u8) as char);
        proof {
            assert(res@ =~= seq![digit(n as nat)]);
        }
        res
    } else {
        let mut res = decimal_text(n / 10);
        res.push((48 + (n % 10) as u8) as char);
        res
    }
}

/// A number below one thousand as three decimal digits.
pub open spec fn three_digits(n: nat) -> Seq<char> {
    seq![digit(n / 100), digit(n / 10 % 10), digit(n % 10)]
}

/// Renders a number below one thousand as three decimal digits.
pub fn three_digit_text(n: u32) -> (res: String)
    requires
        n < 1000,
    ensures
        res@ == three_digits(n as nat),
{
    let mut res = String::new();
    res.push((48 + (n / 100) as u8) as char);
    res.push((48 + (n / 10 % 10) as u8) as char);
    res.push((48 + (n % 10) as u8) as char);
    assert(res@ =~= three_digits(n as nat));
    res
}

/// An integer in decimal, with a minus sign where it is negative.
pub open spec fn signed_decimal(n: int) -> Seq<char> {
    if n < 0 {
        seq!['-'] + decimal((-n) as nat)
    } else {
        decimal(n as nat)
    }
}

/// Renders an integer in decimal.
pub fn signed_decimal_text(n: i32) -> (res: String)
    ensures
        res@ == signed_decimal(n as int),
{
    if n < 0 {
        let mut res = String::new();
        res.push('-');
        let digits = decimal_text((-(n as i64)) as u64);
        res.append(digits.as_str());
        assert(res@ =~= seq!['-'] + decimal((-n) as nat));
        res
    } else {
        decimal_text(n as u64)
    }
}

} // verus!
