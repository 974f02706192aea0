//! Text helpers shared by the command and wire surfaces.

use vstd::prelude::*;

verus! {

/// `str`'s `==` from std: two string slices are equal exactly when they hold
/// the same characters.
pub assume_specification[ <str as PartialEq>::eq ](a: &str, b: &str) -> (same: bool)
    ensures
        same == (a@ == b@),
;

/// The character of a decimal digit.
pub open spec fn digit_char(digit: nat) -> char {
    if digit == 0 {
        '0'
    } else if digit == 1 {
        '1'
    } else if digit == 2 {
        '2'
    } else if digit == 3 {
        '3'
    } else if digit == 4 {
        '4'
    } else if digit == 5 {
        '5'
    } else if digit == 6 {
        '6'
    } else if digit == 7 {
        '7'
    } else if digit == 8 {
        '8'
    } else {
        '9'
    }
}

/// The value of a decimal digit, if the character is one.
pub open spec fn digit_value(c: char) -> Option<nat> {
    if c == '0' {
        Some(0)
    } else if c == '1' {
        Some(1)
    } else if c == '2' {
        Some(2)
    } else if c == '3' {
        Some(3)
    } else if c == '4' {
        Some(4)
    } else if c == '5' {
        Some(5)
    } else if c == '6' {
        Some(6)
    } else if c == '7' {
        Some(7)
    } else if c == '8' {
        Some(8)
    } else if c == '9' {
        Some(9)
    } else {
        None
    }
}

/// A number in decimal digits, without sign or leading zeros.
pub open spec fn decimal_text(n: nat) -> Seq<char>
    decreases n,
{
    if n < 10 {
        seq![digit_char(n)]
    } else {
        decimal_text(n / 10).push(digit_char(n % 10))
    }
}

/// The number that a text of decimal digits spells; nothing for the empty
/// text and for a text with any other character.
pub open spec fn decimal_value(text: Seq<char>) -> Option<nat>
    decreases text.len(),
{
    if text.len() == 0 {
        None
    } else {
        match digit_value(text.last()) {
            None => None,
            Some(digit) => if text.len() == 1 {
                Some(digit)
            } else {
                match decimal_value(text.drop_last()) {
                    None => None,
                    Some(front) => Some(front * 10 + digit),
                }
            },
        }
    }
}

/// Reading back the digits of a number gives the number.
pub proof fn decimal_round_trip(n: nat)
    ensures
        decimal_value(decimal_text(n)) == Some(n),
    decreases n,
{
    if n >= 10 {
        decimal_round_trip(n / 10);
        let text = decimal_text(n);
        assert(text.drop_last() =~= decimal_text(n / 10));
        assert(text.last() == digit_char(n % 10));
        assert(decimal_text(n / 10).len() >= 1) by {
            lemma_decimal_text_len(n / 10);
        }
    }
}

/// The digits of a number are at least one.
pub proof fn lemma_decimal_text_len(n: nat)
    ensures
        decimal_text(n).len() >= 1,
    decreases n,
{
    if n >= 10 {
        lemma_decimal_text_len(n / 10);
    }
}

/// The one-character text of a digit.
fn digit_text(digit: u64) -> (text: &'static str)
    requires
        digit < 10,
    ensures
        text@ == seq![digit_char(digit as nat)],
{
    proof {
        reveal_strlit("0");
        reveal_strlit("1");
        reveal_strlit("2");
        reveal_strlit("3");
        reveal_strlit("4");
        reveal_strlit("5");
        reveal_strlit("6");
        reveal_strlit("7");
        reveal_strlit("8");
        reveal_strlit("9");
    }
    let text: &'static str = if digit == 0 {
        "0"
    } else if digit == 1 {
        "1"
    } else if digit == 2 {
        "2"
    } else if digit == 3 {
        "3"
    } else if digit == 4 {
        "4"
    } else if digit == 5 {
        "5"
    } else if digit == 6 {
        "6"
    } else if digit == 7 {
        "7"
    } else if digit == 8 {
        "8"
    } else {
        "9"
    };
    assert(text@ =~= seq![digit_char(digit as nat)]);
    text
}

/// Writes a number in decimal digits.
pub fn decimal(n: u64) -> (text: String)
    ensures
        text@ == decimal_text(n as nat),
    decreases n,
{
    if n < 10 {
        digit_text(n).to_owned()
    } else {
        let mut text: String = decimal(n / 10);
        text.append(digit_text(n % 10));
        text
    }
}

/// The texts joined into one, `separator` between each two.
pub open spec fn joined(parts: Seq<Seq<char>>, separator: Seq<char>) -> Seq<char>
    decreases parts.len(),
{
    if parts.len() == 0 {
        Seq::empty()
    } else if parts.len() == 1 {
        parts[0]
    } else {
        joined(parts.drop_last(), separator) + separator + parts.last()
    }
}

/// The texts of a vector of strings.
pub open spec fn texts(names: Seq<String>) -> Seq<Seq<char>> {
    names.map_values(|name: String| name@)
}

/// Joins the strings into one, `separator` between each two.
pub fn join(parts: &Vec<String>, separator: &str) -> (text: String)
    ensures
        text@ == joined(texts(parts@), separator@),
{
    let mut text: String = String::new();
    let mut i: usize = 0;
    while i < parts.len()
        invariant
            i <= parts.len(),
            text@ == joined(texts(parts@).take(i as int), separator@),
        decreases parts.len() - i,
    {
        proof {
            assert(texts(parts@).take(i + 1).drop_last() =~= texts(parts@).take(i as int));
            assert(texts(parts@).take(i + 1).last() == parts@[i as int]@);
        }
        if i > 0 {
            text.append(separator);
        }
        text.append(parts[i].as_str());
        proof {
            if i == 0 {
                assert(text@ =~= parts@[0]@);
                assert(texts(parts@).take(1)[0] == parts@[0]@);
            }
        }
        i += 1;
    }
    assert(texts(parts@).take(i as int) =~= texts(parts@));
    text
}

/// The characters of a text.
pub fn chars_of(text: &str) -> (chars: Vec<char>)
    ensures
        chars@ == text@,
{
    let mut chars: Vec<char> = Vec::new();
    for c in it: text.chars()
        invariant
            it.seq() == text@,
            chars@ == text@.take(it.index() as int),
    {
        chars.push(c);
        assert(chars@ =~= text@.take(it.index() + 1));
    }
    assert(chars@ =~= text@);
    chars
}

/// The character is white space, as Unicode defines it.
pub open spec fn is_space(c: char) -> bool {
    ||| ('\u{9}' <= c && c <= '\u{d}')
    ||| c == ' '
    ||| c == '\u{85}'
    ||| c == '\u{a0}'
    ||| c == '\u{1680}'
    ||| ('\u{2000}' <= c && c <= '\u{200a}')
    ||| c == '\u{2028}'
    ||| c == '\u{2029}'
    ||| c == '\u{202f}'
    ||| c == '\u{205f}'
    ||| c == '\u{3000}'
}

/// Computes `is_space`.
pub fn space(c: char) -> (white: bool)
    ensures
        white == is_space(c),
{
    ('\u{9}' <= c && c <= '\u{d}') || c == ' ' || c == '\u{85}' || c == '\u{a0}' || c
        == '\u{1680}' || ('\u{2000}' <= c && c <= '\u{200a}') || c == '\u{2028}' || c
        == '\u{2029}' || c == '\u{202f}' || c == '\u{205f}' || c == '\u{3000}'
}

/// The text without the white space at its start.
pub open spec fn trim_start(text: Seq<char>) -> Seq<char>
    decreases text.len(),
{
    if text.len() > 0 && is_space(text[0]) {
        trim_start(text.drop_first())
    } else {
        text
    }
}

/// The text without the white space at its end.
pub open spec fn trim_end(text: Seq<char>) -> Seq<char>
    decreases text.len(),
{
    if text.len() > 0 && is_space(text.last()) {
        trim_end(text.drop_last())
    } else {
        text
    }
}

/// The text without the white space at its start and at its end.
pub open spec fn trimmed(text: Seq<char>) -> Seq<char> {
    trim_end(trim_start(text))
}

/// Skipping leading white space up to `from` leaves the trimming to the rest.
proof fn lemma_trim_start(text: Seq<char>, from: int)
    requires
        0 <= from <= text.len(),
        forall|i: int| 0 <= i < from ==> is_space(#[trigger] text[i]),
    ensures
        trim_start(text) == trim_start(text.skip(from)),
    decreases from,
{
    if from > 0 {
        assert(text.drop_first().skip(from - 1) =~= text.skip(from));
        lemma_trim_start(text.drop_first(), from - 1);
    } else {
        assert(text.skip(0) =~= text);
    }
}

/// Dropping trailing white space down to `to` leaves the trimming to the rest.
proof fn lemma_trim_end(text: Seq<char>, to: int)
    requires
        0 <= to <= text.len(),
        forall|i: int| to <= i < text.len() ==> is_space(#[trigger] text[i]),
    ensures
        trim_end(text) == trim_end(text.take(to)),
    decreases text.len() - to,
{
    if to < text.len() {
        assert(text.drop_last().take(to) =~= text.take(to));
        lemma_trim_end(text.drop_last(), to);
    } else {
        assert(text.take(to) =~= text);
    }
}

/// The text without the white space at its start and at its end.
pub fn trim<'a>(text: &'a str) -> (out: &'a str)
    ensures
        out@ == trimmed(text@),
{
    let chars = chars_of(text);
    let mut from: usize = 0;
    while from < chars.len() && space(chars[from])
        invariant
            from <= chars.len(),
            forall|i: int| 0 <= i < from ==> is_space(#[trigger] chars@[i]),
        decreases chars.len() - from,
    {
        from += 1;
    }
    let mut to: usize = chars.len();
    while to > from && space(chars[to - 1])
        invariant
            from <= to <= chars.len(),
            forall|i: int| to <= i < chars.len() ==> is_space(#[trigger] chars@[i]),
        decreases to,
    {
        to -= 1;
    }
    proof {
        let rest = text@.skip(from as int);
        lemma_trim_start(text@, from as int);
        assert(trim_start(text@) == rest) by {
            if rest.len() > 0 {
                assert(rest[0] == chars@[from as int]);
            }
        }
        assert forall|i: int| to - from <= i < rest.len() implies is_space(#[trigger] rest[i]) by {
            assert(rest[i] == chars@[i + from]);
        }
        lemma_trim_end(rest, to - from);
        let kept = rest.take(to - from);
        assert(kept =~= text@.subrange(from as int, to as int));
        assert(trim_end(kept) == kept) by {
            if kept.len() > 0 {
                assert(kept.last() == chars@[to - 1]);
            }
        }
    }
    text.substring_char(from, to)
}

/// The text begins with the prefix.
pub open spec fn starts_with(text: Seq<char>, prefix: Seq<char>) -> bool {
    prefix.len() <= text.len() && text.take(prefix.len() as int) == prefix
}

/// The rest of the text after the prefix, if the text begins with it.
pub fn strip_prefix<'a>(text: &'a str, prefix: &str) -> (rest: Option<&'a str>)
    ensures
        match rest {
            Some(rest) => starts_with(text@, prefix@) && rest@ == text@.skip(prefix@.len() as int),
            None => !starts_with(text@, prefix@),
        },
{
    let chars = chars_of(text);
    let head = chars_of(prefix);
    if head.len() > chars.len() {
        return None;
    }
    let mut i: usize = 0;
    while i < head.len()
        invariant
            i <= head.len() <= chars.len(),
            chars@ == text@,
            head@ == prefix@,
            forall|k: int| 0 <= k < i ==> chars@[k] == head@[k],
        decreases head.len() - i,
    {
        if chars[i] != head[i] {
            proof {
                assert(text@.take(prefix@.len() as int)[i as int] != prefix@[i as int]);
            }
            return None;
        }
        i += 1;
    }
    proof {
        assert(text@.take(prefix@.len() as int) =~= prefix@);
        assert(text@.skip(prefix@.len() as int) =~= text@.subrange(
            prefix@.len() as int,
            text@.len() as int,
        ));
    }
    Some(text.substring_char(head.len(), chars.len()))
}

/// The place of the first `mark` in the text; the length of the text where
/// there is none.
pub open spec fn first_of(text: Seq<char>, mark: char) -> int
    decreases text.len(),
{
    if text.len() == 0 {
        0
    } else if text[0] == mark {
        0
    } else {
        1 + first_of(text.drop_first(), mark)
    }
}

/// `first_of` is the place of a `mark` before which there is none.
pub proof fn lemma_first_of(text: Seq<char>, mark: char)
    ensures
        0 <= first_of(text, mark) <= text.len(),
        first_of(text, mark) < text.len() ==> text[first_of(text, mark)] == mark,
        forall|i: int| 0 <= i < first_of(text, mark) ==> #[trigger] text[i] != mark,
    decreases text.len(),
{
    if text.len() > 0 && text[0] != mark {
        let rest = text.drop_first();
        lemma_first_of(rest, mark);
        assert forall|i: int| 0 <= i < first_of(text, mark) implies #[trigger] text[i] != mark by {
            if i > 0 {
                assert(rest[i - 1] == text[i]);
            }
        }
    }
}

/// A place of a `mark` before which there is none is `first_of`.
pub proof fn lemma_first_of_is(text: Seq<char>, mark: char, at: int)
    requires
        0 <= at <= text.len(),
        at < text.len() ==> text[at] == mark,
        forall|i: int| 0 <= i < at ==> #[trigger] text[i] != mark,
    ensures
        first_of(text, mark) == at,
{
    lemma_first_of(text, mark);
    let found = first_of(text, mark);
    if found < at {
        assert(text[found] != mark);
    } else if at < found {
        assert(text[at] != mark);
    }
}

/// The two parts of a text around its first space, if it has one.
pub open spec fn split_at_space(text: Seq<char>) -> Option<(Seq<char>, Seq<char>)> {
    let at = first_of(text, ' ');
    if at < text.len() {
        Some((text.take(at), text.skip(at + 1)))
    } else {
        None
    }
}

/// Splits a text at its first space.
pub fn split_once<'a>(text: &'a str) -> (parts: Option<(&'a str, &'a str)>)
    ensures
        match parts {
            Some((front, back)) => split_at_space(text@) == Some((front@, back@)),
            None => split_at_space(text@) is None,
        },
{
    let chars = chars_of(text);
    let mut at: usize = 0;
    while at < chars.len() && chars[at] != ' '
        invariant
            at <= chars.len(),
            forall|i: int| 0 <= i < at ==> #[trigger] chars@[i] != ' ',
        decreases chars.len() - at,
    {
        at += 1;
    }
    proof {
        lemma_first_of_is(text@, ' ', at as int);
    }
    if at < chars.len() {
        proof {
            assert(text@.take(at as int) =~= text@.subrange(0, at as int));
            assert(text@.skip(at + 1) =~= text@.subrange(at + 1, text@.len() as int));
        }
        Some((text.substring_char(0, at), text.substring_char(at + 1, chars.len())))
    } else {
        None
    }
}

/// The number that the text spells in decimal digits, if it spells one that
/// fits.
pub open spec fn decimal_usize(text: Seq<char>) -> Option<usize> {
    match decimal_value(text) {
        Some(n) => if n <= usize::MAX {
            Some(n as usize)
        } else {
            None
        },
        None => None,
    }
}

/// The value of a decimal digit, if the character is one.
fn digit_of(c: char) -> (digit: Option<usize>)
    ensures
        match digit {
            Some(d) => digit_value(c) == Some(d as nat) && d < 10,
            None => digit_value(c) is None,
        },
{
    if c == '0' {
        Some(0)
    } else if c == '1' {
        Some(1)
    } else if c == '2' {
        Some(2)
    } else if c == '3' {
        Some(3)
    } else if c == '4' {
        Some(4)
    } else if c == '5' {
        Some(5)
    } else if c == '6' {
        Some(6)
    } else if c == '7' {
        Some(7)
    } else if c == '8' {
        Some(8)
    } else if c == '9' {
        Some(9)
    } else {
        None
    }
}

/// A text that has a digit-free character, or a value too large, somewhere
/// in a prefix has no value that fits.
proof fn lemma_decimal_prefix(text: Seq<char>, i: int)
    requires
        0 < i <= text.len(),
        decimal_value(text.take(i)) matches Some(n) ==> n > usize::MAX,
    ensures
        decimal_usize(text) is None,
    decreases text.len() - i,
{
    if i < text.len() {
        assert(text.take(i + 1).drop_last() =~= text.take(i));
        lemma_decimal_prefix(text, i + 1);
    } else {
        assert(text.take(i) =~= text);
    }
}

/// Reads a number in decimal digits: digits only, at least one.
pub fn parse_decimal(text: &str) -> (value: Option<usize>)
    ensures
        value == decimal_usize(text@),
{
    let chars = chars_of(text);
    if chars.len() == 0 {
        return None;
    }
    let mut value: usize = 0;
    let mut i: usize = 0;
    while i < chars.len()
        invariant
            i <= chars.len(),
            chars@ == text@,
            i > 0 ==> decimal_value(text@.take(i as int)) == Some(value as nat),
            i == 0 ==> value == 0,
        decreases chars.len() - i,
    {
        proof {
            assert(text@.take(i + 1).drop_last() =~= text@.take(i as int));
            assert(text@.take(i + 1).last() == chars@[i as int]);
        }
        let digit: usize = match digit_of(chars[i]) {
            Some(digit) => digit,
            None => {
                proof {
                    lemma_decimal_prefix(text@, i + 1);
                }
                return None;
            },
        };
        let scaled: usize = match value.checked_mul(10) {
            Some(scaled) => scaled,
            None => {
                proof {
                    lemma_decimal_prefix(text@, i + 1);
                }
                return None;
            },
        };
        value = match scaled.checked_add(digit) {
            Some(sum) => sum,
            None => {
                proof {
                    lemma_decimal_prefix(text@, i + 1);
                }
                return None;
            },
        };
        i += 1;
    }
    assert(text@.take(i as int) =~= text@);
    Some(value)
}

/// The pieces of a text between its spaces: one more than it has spaces.
pub open spec fn pieces(text: Seq<char>) -> Seq<Seq<char>>
    decreases text.len(),
{
    let at = first_of(text, ' ');
    if 0 <= at < text.len() {
        seq![text.take(at)] + pieces(text.skip(at + 1))
    } else {
        seq![text]
    }
}

/// Splits a text at each of its spaces.
pub fn split(text: &str) -> (parts: Vec<String>)
    ensures
        texts(parts@) == pieces(text@),
{
    let mut parts: Vec<String> = Vec::new();
    let mut rest: &str = text;
    loop
        invariant
            texts(parts@) + pieces(rest@) == pieces(text@),
        decreases rest@.len(),
    {
        proof {
            lemma_first_of(rest@, ' ');
        }
        match split_once(rest) {
            Some((front, back)) => {
                let ghost before = parts@;
                parts.push(front.to_owned());
                proof {
                    assert(texts(parts@) =~= texts(before) + seq![front@]);
                    assert(texts(parts@) + pieces(back@) =~= texts(before) + pieces(rest@));
                }
                rest = back;
            },
            None => {
                let ghost before = parts@;
                parts.push(rest.to_owned());
                proof {
                    assert(texts(parts@) =~= texts(before) + seq![rest@]);
                }
                return parts;
            },
        }
    }
}

/// A text that neither begins nor ends with white space is its own trimming.
pub proof fn lemma_trimmed_plain(text: Seq<char>)
    requires
        text.len() > 0 ==> !is_space(text[0]) && !is_space(text.last()),
    ensures
        trimmed(text) == text,
{
}

/// The last digit of a number is no white space, nor is its first.
pub proof fn lemma_decimal_text_plain(n: nat)
    ensures
        decimal_text(n).len() > 0,
        !is_space(decimal_text(n).last()),
        !is_space(decimal_text(n)[0]),
    decreases n,
{
    if n >= 10 {
        lemma_decimal_text_plain(n / 10);
    }
}

/// A text without a space, a space, and a second text split into the two.
pub proof fn lemma_split_joined(front: Seq<char>, back: Seq<char>)
    requires
        !front.contains(' '),
    ensures
        split_at_space(front + seq![' '] + back) == Some((front, back)),
{
    let whole = front + seq![' '] + back;
    assert forall|i: int| 0 <= i < front.len() implies #[trigger] whole[i] != ' ' by {
        assert(whole[i] == front[i]);
        assert(front.contains(front[i]));
    }
    assert(whole[front.len() as int] == ' ');
    lemma_first_of_is(whole, ' ', front.len() as int);
    assert(whole.take(front.len() as int) =~= front);
    assert(whole.skip(front.len() as int + 1) =~= back);
}

} // verus!
