//! Numbers as text, text as numbers, and the little else that is asked of text.

use vstd::prelude::*;

verus! {

/// The decimal digit of a number below ten.
pub open spec fn digit(n: nat) -> char {
    if n == 0 {
        '0'
    } else if n == 1 {
        '1'
    } else if n == 2 {
        '2'
    } else if n == 3 {
        '3'
    } else if n == 4 {
        '4'
    } else if n == 5 {
        '5'
    } else if n == 6 {
        '6'
    } else if n == 7 {
        '7'
    } else if n == 8 {
        '8'
    } else {
        '9'
    }
}

/// A number in decimal notation, without leading zeros.
pub open spec fn decimal(n: nat) -> Seq<char>
    decreases n,
{
    if n < 10 {
        seq![digit(n)]
    } else {
        decimal(n / 10).push(digit(n % 10))
    }
}

/// Returns the digit of a number below ten as text.
fn digit_text(n: u128) -> (text: &'static str)
    requires
        n < 10,
    ensures
        text@ == seq![digit(n as nat)],
{
    proof {
        reveal_strlit("0");
        reveal_strlit("1");
        reveal_strlit("2");
        reveal_strlit("3");
        reveal_strlit("4");
        reveal_strlit("5");
        reveal_strlit("6");
        reveal_strlit("7");
        reveal_strlit("8");
        reveal_strlit("9");
    }
    let text: &'static str = if n == 0 {
        "0"
    } else if n == 1 {
        "1"
    } else if n == 2 {
        "2"
    } else if n == 3 {
        "3"
    } else if n == 4 {
        "4"
    } else if n == 5 {
        "5"
    } else if n == 6 {
        "6"
    } else if n == 7 {
        "7"
    } else if n == 8 {
        "8"
    } else {
        "9"
    };
    assert(text@ =~= seq![digit(n as nat)]);
    text
}

/// Appends a number in decimal notation to a text.
pub fn append_decimal(text: &mut String, n: u128)
    ensures
        final(text)@ == old(text)@ + decimal(n as nat),
    decreases n,
{
    if n >= 10 {
        append_decimal(text, n / 10);
    }
    text.append(digit_text(n % 10));
    assert(text@ =~= old(text)@ + decimal(n as nat));
}

proof fn lemma_decimal_value(n: nat)
    ensures
        decimal(n).len() > 0,
        value_of(decimal(n)) == n,
    decreases n,
{
    if n >= 10 {
        lemma_decimal_value(n / 10);
        assert(decimal(n).drop_last() =~= decimal(n / 10));
    } else {
        assert(decimal(n).drop_last() =~= Seq::<char>::empty());
        assert(value_of(Seq::<char>::empty()) == 0);
    }
}

/// The number that decimal digits stand for.
pub open spec fn value_of(digits: Seq<char>) -> int
    decreases digits.len(),
{
    if digits.len() == 0 {
        0
    } else {
        value_of(digits.drop_last()) * 10 + (digits.last() as int - '0' as int)
    }
}

/// Different numbers have different texts.
pub proof fn law_decimal_is_injective(m: nat, n: nat)
    requires
        decimal(m) == decimal(n),
    ensures
        m == n,
{
    lemma_decimal_value(m);
    lemma_decimal_value(n);
}

/// Whether a character is white space: it has the Unicode property `White_Space`.
pub open spec fn is_white_space(c: char) -> bool {
    ||| '\u{9}' <= c && c <= '\u{d}'
    ||| c == ' '
    ||| c == '\u{85}'
    ||| c == '\u{a0}'
    ||| c == '\u{1680}'
    ||| '\u{2000}' <= c && c <= '\u{200a}'
    ||| c == '\u{2028}'
    ||| c == '\u{2029}'
    ||| c == '\u{202f}'
    ||| c == '\u{205f}'
    ||| c == '\u{3000}'
}

/// Whether a character is an ASCII character.
pub open spec fn is_ascii(c: char) -> bool {
    c <= '\u{7f}'
}

/// Whether an ASCII character is a letter or a digit.
pub open spec fn is_ascii_letter_or_digit(c: char) -> bool {
    ||| '0' <= c && c <= '9'
    ||| 'A' <= c && c <= 'Z'
    ||| 'a' <= c && c <= 'z'
}

/// The capital letter of an ASCII letter; any other character itself.
pub open spec fn capital(c: char) -> char {
    if 'a' <= c && c <= 'z' {
        (c as int - 32) as char
    } else {
        c
    }
}

/// The small letter of an ASCII letter; any other character itself.
pub open spec fn small(c: char) -> char {
    if 'A' <= c && c <= 'Z' {
        (c as int + 32) as char
    } else {
        c
    }
}

/// A text with its ASCII letters capitalized.
pub open spec fn capitalized(text: Seq<char>) -> Seq<char> {
    text.map_values(|c: char| capital(c))
}

/// A text with its ASCII letters made small.
pub open spec fn made_small(text: Seq<char>) -> Seq<char> {
    text.map_values(|c: char| small(c))
}

/// Whether a text consists of ASCII characters and white space.
pub open spec fn is_plain(text: Seq<char>) -> bool {
    forall|i: int|
        0 <= i < text.len() ==> is_ascii(#[trigger] text[i]) || is_white_space(text[i])
}

/// Whether a character beyond ASCII is a letter or a number.
pub uninterp spec fn unicode_letter_or_number(c: char) -> bool;

/// A text that is not plain in capital letters.
pub uninterp spec fn unicode_uppercase(text: Seq<char>) -> Seq<char>;

/// Whether a character is a letter or a number.
pub open spec fn is_letter_or_number(c: char) -> bool {
    if is_ascii(c) {
        is_ascii_letter_or_digit(c)
    } else {
        unicode_letter_or_number(c)
    }
}

/// A text in capital letters.
pub open spec fn uppercase_of(text: Seq<char>) -> Seq<char> {
    if is_plain(text) {
        capitalized(text)
    } else {
        unicode_uppercase(text)
    }
}

/// `char::is_whitespace` tells the characters with the Unicode property `White_Space`.
pub assume_specification[ char::is_whitespace ](c: char) -> (white: bool)
    ensures
        white == is_white_space(c),
;

/// `char::is_alphanumeric` tells letters and numbers by the character alone. Of the ASCII
/// characters they are the letters and the digits; which other characters are letters or numbers
/// is for the Unicode tables of the standard library to say.
pub assume_specification[ char::is_alphanumeric ](c: char) -> (alphanumeric: bool)
    ensures
        is_ascii(c) ==> alphanumeric == is_ascii_letter_or_digit(c),
        !is_ascii(c) ==> alphanumeric == unicode_letter_or_number(c),
;

/// `String::push` appends one character.
pub assume_specification[ String::push ](s: &mut String, c: char)
    ensures
        final(s)@ == old(s)@.push(c),
;

/// `str::to_uppercase` gives a text in capital letters that depends on the text alone. Of a text of
/// ASCII characters and white space it capitalizes the letters and leaves the rest; what the
/// capital letters of other texts are is for the Unicode tables of the standard library to say.
#[verifier::external_body]
pub(crate) fn to_uppercase(text: &str) -> (upper: String)
    ensures
        is_plain(text@) ==> upper@ == capitalized(text@),
        !is_plain(text@) ==> upper@ == unicode_uppercase(text@),
{
    text.to_uppercase()
}

/// Returns the characters of a text.
pub(crate) fn chars_of(text: &str) -> (chars: Vec<char>)
    ensures
        chars@ == text@,
{
    let mut chars: Vec<char> = Vec::new();
    let count: usize = text.unicode_len();
    let mut i: usize = 0;
    while i < count
        invariant
            i <= count,
            count == text@.len(),
            chars@ == text@.take(i as int),
        decreases count - i,
    {
        chars.push(text.get_char(i));
        assert(text@.take(i + 1) =~= text@.take(i as int).push(text@[i as int]));
        i += 1;
    }
    assert(text@.take(i as int) =~= text@);
    chars
}

/// Returns the text that consists of some characters.
pub(crate) fn text_of(chars: &Vec<char>, start: usize, end: usize) -> (text: String)
    requires
        start <= end <= chars@.len(),
    ensures
        text@ == chars@.subrange(start as int, end as int),
{
    let mut text = String::new();
    let mut i: usize = start;
    assert(text@ =~= chars@.subrange(start as int, start as int));
    while i < end
        invariant
            start <= i <= end <= chars@.len(),
            text@ == chars@.subrange(start as int, i as int),
        decreases end - i,
    {
        text.push(chars[i]);
        assert(chars@.subrange(start as int, i + 1) =~= chars@.subrange(
            start as int,
            i as int,
        ).push(chars@[i as int]));
        i += 1;
    }
    text
}

/// A text without the white space at its start.
pub open spec fn trim_start(text: Seq<char>) -> Seq<char>
    decreases text.len(),
{
    if text.len() > 0 && is_white_space(text[0]) {
        trim_start(text.drop_first())
    } else {
        text
    }
}

/// A text without the white space at its end.
pub open spec fn trim_end(text: Seq<char>) -> Seq<char>
    decreases text.len(),
{
    if text.len() > 0 && is_white_space(text.last()) {
        trim_end(text.drop_last())
    } else {
        text
    }
}

/// A text without the white space around it.
pub open spec fn trimmed(text: Seq<char>) -> Seq<char> {
    trim_end(trim_start(text))
}

proof fn lemma_trim_end(text: Seq<char>)
    ensures
        trim_end(text).len() <= text.len(),
        trim_end(text) == text.take(trim_end(text).len() as int),
        trim_end(text).len() == 0 || !is_white_space(trim_end(text).last()),
    decreases text.len(),
{
    if text.len() > 0 && is_white_space(text.last()) {
        lemma_trim_end(text.drop_last());
        let n = trim_end(text).len() as int;
        assert(text.drop_last().take(n) =~= text.take(n));
    } else {
        assert(text.take(text.len() as int) =~= text);
    }
}

proof fn lemma_trim_start(text: Seq<char>)
    ensures
        trim_start(text).len() == 0 || !is_white_space(trim_start(text)[0]),
    decreases text.len(),
{
    if text.len() > 0 && is_white_space(text[0]) {
        lemma_trim_start(text.drop_first());
    }
}

/// Removing the white space around a text a second time changes nothing.
pub proof fn law_trimming_again_changes_nothing(text: Seq<char>)
    ensures
        trimmed(trimmed(text)) == trimmed(text),
{
    let front = trim_start(text);
    lemma_trim_start(text);
    lemma_trim_end(front);
    let both = trim_end(front);
    if both.len() > 0 {
        assert(both[0] == front[0]);
    }
}

proof fn lemma_capitalizing_commutes_with_trim_start(text: Seq<char>)
    ensures
        trim_start(capitalized(text)) == capitalized(trim_start(text)),
        is_plain(text) ==> is_plain(trim_start(text)),
    decreases text.len(),
{
    if text.len() > 0 {
        assert(capitalized(text)[0] == capital(text[0]));
        if is_white_space(text[0]) {
            let rest = text.drop_first();
            assert(capitalized(text).drop_first() =~= capitalized(rest));
            lemma_capitalizing_commutes_with_trim_start(rest);
            if is_plain(text) {
                assert forall|i: int| 0 <= i < rest.len() implies is_ascii(#[trigger] rest[i])
                    || is_white_space(rest[i]) by {
                    assert(rest[i] == text[i + 1]);
                }
            }
        }
    }
}

proof fn lemma_capitalizing_commutes_with_trim_end(text: Seq<char>)
    ensures
        trim_end(capitalized(text)) == capitalized(trim_end(text)),
        is_plain(text) ==> is_plain(trim_end(text)),
    decreases text.len(),
{
    if text.len() > 0 {
        assert(capitalized(text).last() == capital(text.last()));
        if is_white_space(text.last()) {
            let rest = text.drop_last();
            assert(capitalized(text).drop_last() =~= capitalized(rest));
            lemma_capitalizing_commutes_with_trim_end(rest);
            if is_plain(text) {
                assert forall|i: int| 0 <= i < rest.len() implies is_ascii(#[trigger] rest[i])
                    || is_white_space(rest[i]) by {
                    assert(rest[i] == text[i]);
                }
            }
        }
    }
}

/// It does not matter whether a text is capitalized before or after the white space around it is
/// removed, and what is left of a plain text is plain.
pub proof fn law_capitalizing_commutes_with_trimming(text: Seq<char>)
    ensures
        trimmed(capitalized(text)) == capitalized(trimmed(text)),
        is_plain(text) ==> is_plain(trimmed(text)),
{
    lemma_capitalizing_commutes_with_trim_start(text);
    lemma_capitalizing_commutes_with_trim_end(trim_start(text));
}

/// Capitalizing a text undoes that its letters were made small, and capitalizing it twice comes to
/// capitalizing it once; both leave it plain.
pub proof fn law_capitals_forget_letter_case(text: Seq<char>)
    ensures
        capitalized(made_small(text)) == capitalized(text),
        capitalized(capitalized(text)) == capitalized(text),
        is_plain(text) ==> is_plain(capitalized(text)) && is_plain(made_small(text)),
{
    assert(capitalized(made_small(text)) =~= capitalized(text));
    assert(capitalized(capitalized(text)) =~= capitalized(text));
    if is_plain(text) {
        assert forall|i: int| 0 <= i < text.len() implies is_ascii(
            #[trigger] capitalized(text)[i],
        ) || is_white_space(capitalized(text)[i]) by {
            assert(is_ascii(text[i]) || is_white_space(text[i]));
        }
        assert forall|i: int| 0 <= i < text.len() implies is_ascii(
            #[trigger] made_small(text)[i],
        ) || is_white_space(made_small(text)[i]) by {
            assert(is_ascii(text[i]) || is_white_space(text[i]));
        }
    }
}

/// What is no white space is not trimmed at the end, nor what comes before it.
pub proof fn lemma_trimmed_end_keeps(text: Seq<char>, i: int)
    requires
        0 <= i < text.len(),
        !is_white_space(text[i]),
    ensures
        i < trim_end(text).len() <= text.len(),
        trim_end(text)[i] == text[i],
    decreases text.len(),
{
    if is_white_space(text.last()) {
        lemma_trimmed_end_keeps(text.drop_last(), i);
    }
}

proof fn lemma_front_trimmed(text: Seq<char>) -> (space: Seq<char>)
    ensures
        text == space + trim_start(text),
        forall|i: int| 0 <= i < space.len() ==> is_white_space(#[trigger] space[i]),
        trim_start(text).len() > 0 ==> !is_white_space(trim_start(text)[0]),
    decreases text.len(),
{
    if text.len() > 0 && is_white_space(text[0]) {
        let rest = lemma_front_trimmed(text.drop_first());
        let space = seq![text[0]] + rest;
        assert forall|i: int| 0 <= i < space.len() implies is_white_space(#[trigger] space[i]) by {
            if i > 0 {
                assert(space[i] == rest[i - 1]);
            }
        }
        let tail = text.drop_first();
        assert(text =~= seq![text[0]] + tail);
        assert(seq![text[0]] + (rest + trim_start(tail)) =~= space + trim_start(tail));
        space
    } else {
        assert(text =~= Seq::<char>::empty() + text);
        Seq::empty()
    }
}

proof fn lemma_back_trimmed(text: Seq<char>) -> (space: Seq<char>)
    ensures
        text == trim_end(text) + space,
        forall|i: int| 0 <= i < space.len() ==> is_white_space(#[trigger] space[i]),
        trim_end(text).len() > 0 ==> !is_white_space(trim_end(text).last()),
    decreases text.len(),
{
    if text.len() > 0 && is_white_space(text.last()) {
        let rest = lemma_back_trimmed(text.drop_last());
        let space = rest.push(text.last());
        assert forall|i: int| 0 <= i < space.len() implies is_white_space(#[trigger] space[i]) by {
            if i < rest.len() {
                assert(space[i] == rest[i]);
            }
        }
        let head = text.drop_last();
        assert(text =~= head.push(text.last()));
        assert((trim_end(head) + rest).push(text.last()) =~= trim_end(head) + space);
        space
    } else {
        assert(text =~= text + Seq::<char>::empty());
        Seq::empty()
    }
}

/// What is trimmed of a text is white space before it and after it, and all of it: the rest neither
/// begins nor ends with white space. White space is the tabulator, the line feed, the vertical
/// tabulator, the form feed, the carriage return, the space and what Unicode adds to them.
pub proof fn law_only_space_is_trimmed(text: Seq<char>) -> (space: (Seq<char>, Seq<char>))
    ensures
        text == space.0 + trimmed(text) + space.1,
        forall|i: int| 0 <= i < space.0.len() ==> is_white_space(#[trigger] space.0[i]),
        forall|i: int| 0 <= i < space.1.len() ==> is_white_space(#[trigger] space.1[i]),
        trimmed(text).len() > 0 ==> !is_white_space(trimmed(text)[0]) && !is_white_space(
            trimmed(text).last(),
        ),
        is_white_space(' '),
        forall|c: char|
            c <= '\u{7f}' ==> (#[trigger] is_white_space(c) <==> c == ' ' || ('\u{9}' <= c && c
                <= '\u{d}')),
{
    let before = lemma_front_trimmed(text);
    let front = trim_start(text);
    let after = lemma_back_trimmed(front);
    lemma_trim_end(front);
    assert(text =~= before + trimmed(text) + after);
    if trimmed(text).len() > 0 {
        assert(trimmed(text)[0] == front[0]);
    }
    (before, after)
}

/// A number is written in decimal digits: below ten by the one digit, from ten on by the digits of
/// the number without its last digit, and that.
pub proof fn law_decimals_are_digits(n: nat, d: nat)
    requires
        d < 10,
    ensures
        decimal(d).len() == 1,
        decimal(d)[0] as int == '0' as int + d,
        n > 0 ==> decimal(10 * n + d).len() == decimal(n).len() + 1,
        n > 0 ==> decimal(10 * n + d).drop_last() == decimal(n),
        n > 0 ==> decimal(10 * n + d).last() as int == '0' as int + d,
{
    if n > 0 {
        let m = 10 * n + d;
        assert(m / 10 == n);
        assert(m % 10 == d);
        assert(decimal(m).drop_last() =~= decimal(n));
    }
}

proof fn lemma_decimal_digits(n: nat)
    ensures
        all_digits(decimal(n)),
    decreases n,
{
    if n >= 10 {
        lemma_decimal_digits(n / 10);
        let front = decimal(n / 10);
        assert forall|i: int| 0 <= i < decimal(n).len() implies is_digit(
            #[trigger] decimal(n)[i],
        ) by {
            if i < front.len() {
                assert(decimal(n)[i] == front[i]);
            }
        }
    }
}

/// A number that is written down is read again, with or without a plus sign before it and zeros
/// before its digits; a number that is too large is none.
pub proof fn law_numbers_are_read(n: nat, digits: Seq<char>)
    ensures
        n <= usize::MAX ==> number_in(decimal(n)) == Some(n as usize),
        n <= usize::MAX ==> number_in(seq!['+'] + decimal(n)) == Some(n as usize),
        n > usize::MAX ==> number_in(decimal(n)) is None,
        number_in(Seq::empty()) is None,
        number_in(seq!['+']) is None,
        all_digits(digits) ==> number_in(seq!['0'] + digits) == number_in(digits),
{
    lemma_decimal_value(n);
    lemma_decimal_digits(n);
    let written = decimal(n);
    assert(is_digit(written[0]));
    assert((seq!['+'] + written).drop_first() =~= written);
    assert(seq!['+'].drop_first() =~= Seq::<char>::empty());
    if all_digits(digits) {
        let padded = seq!['0'] + digits;
        assert forall|i: int| 0 <= i < padded.len() implies is_digit(#[trigger] padded[i]) by {
            if i > 0 {
                assert(padded[i] == digits[i - 1]);
                assert(is_digit(digits[i - 1]));
            }
        }
        assert(is_digit(digits[0]));
        lemma_leading_zero(digits);
    }
}

proof fn lemma_leading_zero(digits: Seq<char>)
    ensures
        value_of(seq!['0'] + digits) == value_of(digits),
    decreases digits.len(),
{
    let padded = seq!['0'] + digits;
    if digits.len() == 0 {
        assert(padded.drop_last() =~= Seq::<char>::empty());
        assert(value_of(Seq::<char>::empty()) == 0);
        assert(padded.last() == '0');
    } else {
        lemma_leading_zero(digits.drop_last());
        assert(padded.drop_last() =~= seq!['0'] + digits.drop_last());
    }
}

/// The two last characters of a text are what it ends with.
pub proof fn law_endings_are_stripped(front: Seq<char>, first: char, second: char, text: Seq<char>)
    ensures
        before_ending(front.push(first).push(second), first, second) == Some(front),
        before_ending(text, first, second) matches Some(rest) ==> text == rest.push(first).push(
            second,
        ),
{
    let whole = front.push(first).push(second);
    assert(whole.take(whole.len() - 2) =~= front);
    if let Some(rest) = before_ending(text, first, second) {
        assert(text =~= rest.push(first).push(second));
    }
}

/// Of ASCII, the small letters have capital letters, 32 before them, and nothing else changes.
pub proof fn law_capitals_are_letters(c: char)
    ensures
        'a' <= c && c <= 'z' ==> capital(c) as int == c as int - 32,
        !('a' <= c && c <= 'z') ==> capital(c) == c,
        'A' <= c && c <= 'Z' ==> small(c) as int == c as int + 32,
        !('A' <= c && c <= 'Z') ==> small(c) == c,
{
}

/// White space after a text that does not end with it is what is trimmed at the end.
pub proof fn lemma_trim_end_of_space(text: Seq<char>, space: Seq<char>)
    requires
        text.len() > 0,
        !is_white_space(text.last()),
        forall|i: int| 0 <= i < space.len() ==> is_white_space(#[trigger] space[i]),
    ensures
        trim_end(text + space) == text,
    decreases space.len(),
{
    if space.len() == 0 {
        assert(text + space =~= text);
    } else {
        assert((text + space).last() == space[space.len() - 1]);
        assert((text + space).drop_last() =~= text + space.drop_last());
        assert forall|i: int| 0 <= i < space.drop_last().len() implies is_white_space(
            #[trigger] space.drop_last()[i],
        ) by {
            assert(space.drop_last()[i] == space[i]);
        }
        lemma_trim_end_of_space(text, space.drop_last());
    }
}

/// Returns a text without the white space around it.
pub fn trim(text: &str) -> (rest: String)
    ensures
        rest@ == trimmed(text@),
{
    let chars = chars_of(text);
    let mut start: usize = 0;
    assert(chars@.subrange(0, chars@.len() as int) =~= chars@);
    while start < chars.len() && chars[start].is_whitespace()
        invariant
            start <= chars@.len(),
            trim_start(chars@) == trim_start(chars@.subrange(start as int, chars@.len() as int)),
        decreases chars@.len() - start,
    {
        assert(chars@.subrange(start as int, chars@.len() as int).drop_first() =~= chars@.subrange(
            start + 1,
            chars@.len() as int,
        ));
        start += 1;
    }
    let ghost front = chars@.subrange(start as int, chars@.len() as int);
    assert(trim_start(chars@) == front);
    let mut end: usize = chars.len();
    while end > start && chars[end - 1].is_whitespace()
        invariant
            start <= end <= chars@.len(),
            trim_end(front) == trim_end(chars@.subrange(start as int, end as int)),
        decreases end,
    {
        let ghost now = chars@.subrange(start as int, end as int);
        assert(now.last() == chars@[end - 1]);
        assert(now.drop_last() =~= chars@.subrange(start as int, end - 1));
        end -= 1;
    }
    proof {
        let now = chars@.subrange(start as int, end as int);
        if now.len() > 0 {
            assert(now.last() == chars@[end - 1]);
        }
    }
    text_of(&chars, start, end)
}

/// Whether a character is a decimal digit.
pub open spec fn is_digit(c: char) -> bool {
    '0' <= c && c <= '9'
}

/// Whether a text is one or more decimal digits.
pub open spec fn all_digits(text: Seq<char>) -> bool {
    text.len() > 0 && forall|i: int| 0 <= i < text.len() ==> is_digit(#[trigger] text[i])
}

/// A text without the plus sign that it may begin with.
pub open spec fn unsigned(text: Seq<char>) -> Seq<char> {
    if text.len() > 0 && text[0] == '+' {
        text.drop_first()
    } else {
        text
    }
}

/// The number that a text stands for: decimal digits, with or without a plus sign before them.
pub open spec fn number_in(text: Seq<char>) -> Option<usize> {
    if all_digits(unsigned(text)) && value_of(unsigned(text)) <= usize::MAX {
        Some(value_of(unsigned(text)) as usize)
    } else {
        None
    }
}

proof fn lemma_value_grows(digits: Seq<char>, i: int)
    requires
        0 <= i <= digits.len(),
        forall|j: int| 0 <= j < digits.len() ==> is_digit(#[trigger] digits[j]),
    ensures
        0 <= value_of(digits.take(i)) <= value_of(digits),
    decreases digits.len(),
{
    if digits.len() == 0 {
        assert(digits.take(i) =~= digits);
    } else {
        let front = digits.drop_last();
        assert forall|j: int| 0 <= j < front.len() implies is_digit(#[trigger] front[j]) by {
            assert(front[j] == digits[j]);
        }
        assert(is_digit(digits[digits.len() - 1]));
        if i == digits.len() {
            assert(digits.take(i) =~= digits);
            lemma_value_grows(front, front.len() as int);
            assert(front.take(front.len() as int) =~= front);
        } else {
            lemma_value_grows(front, i);
            assert(front.take(i) =~= digits.take(i));
        }
    }
}

/// Decimal digits stand for a number that is not negative.
pub proof fn lemma_digits_have_value(digits: Seq<char>)
    requires
        all_digits(digits),
    ensures
        value_of(digits) >= 0,
{
    lemma_value_grows(digits, 0);
    assert(digits.take(0) =~= Seq::empty());
}

/// Texts that differ at most in the case of ASCII letters stand for the same number, if any.
pub proof fn lemma_numbers_have_no_case(one: Seq<char>, other: Seq<char>)
    requires
        capitalized(one) == capitalized(other),
    ensures
        number_in(one) == number_in(other),
{
    assert(one.len() == capitalized(one).len() == capitalized(other).len() == other.len());
    assert forall|i: int| 0 <= i < one.len() implies capital(#[trigger] one[i]) == capital(
        other[i],
    ) by {
        assert(capitalized(one)[i] == capital(one[i]));
        assert(capitalized(other)[i] == capital(other[i]));
    }
    if all_digits(unsigned(one)) {
        lemma_cased_digits(one, other);
    }
    if all_digits(unsigned(other)) {
        assert forall|i: int| 0 <= i < other.len() implies capital(#[trigger] other[i]) == capital(
            one[i],
        ) by {
            assert(capital(one[i]) == capital(other[i]));
        }
        lemma_cased_digits(other, one);
    }
}

proof fn lemma_cased_digits(one: Seq<char>, other: Seq<char>)
    requires
        one.len() == other.len(),
        forall|i: int|
            0 <= i < one.len() ==> capital(#[trigger] one[i]) == capital(other[i]),
        all_digits(unsigned(one)),
    ensures
        other == one,
{
    assert forall|i: int| 0 <= i < one.len() implies one[i] == other[i] by {
        assert(capital(one[i]) == capital(other[i]));
        if unsigned(one) == one {
            assert(is_digit(unsigned(one)[i]));
        } else if i > 0 {
            assert(unsigned(one)[i - 1] == one[i]);
            assert(is_digit(unsigned(one)[i - 1]));
        }
    }
    assert(other =~= one);
}

/// Parses a number: decimal digits, with or without a plus sign before them. Returns `None` for
/// any other text and for numbers that are too large.
pub fn parse_number(text: &str) -> (number: Option<usize>)
    ensures
        number == number_in(text@),
{
    let chars = chars_of(text);
    let start: usize = if chars.len() > 0 && chars[0] == '+' {
        1
    } else {
        0
    };
    let ghost digits = unsigned(text@);
    assert(digits =~= chars@.subrange(start as int, chars@.len() as int));
    if start == chars.len() {
        return None;
    }
    let mut value: usize = 0;
    let mut i: usize = start;
    assert(digits.take(0) =~= Seq::empty());
    while i < chars.len()
        invariant
            start <= i <= chars@.len(),
            digits == chars@.subrange(start as int, chars@.len() as int),
            digits == unsigned(text@),
            value == value_of(digits.take(i - start)),
            forall|j: int| 0 <= j < i - start ==> is_digit(#[trigger] digits[j]),
        decreases chars@.len() - i,
    {
        let c: char = chars[i];
        assert(digits[i - start] == c);
        if !('0' <= c && c <= '9') {
            assert(!is_digit(digits[i - start]));
            return None;
        }
        let digit: usize = (c as u32 - '0' as u32) as usize;
        let ghost next = digits.take(i + 1 - start);
        assert(next.drop_last() =~= digits.take(i - start));
        assert(value_of(next) == value * 10 + digit);
        let next_value: Option<usize> = match value.checked_mul(10) {
            Some(tens) => tens.checked_add(digit),
            None => None,
        };
        match next_value {
            Some(sum) => {
                value = sum;
            },
            None => {
                proof {
                    if all_digits(digits) {
                        lemma_value_grows(digits, i + 1 - start);
                    }
                }
                return None;
            },
        }
        i += 1;
    }
    assert(digits.take(i - start) =~= digits);
    Some(value)
}

/// The front of a text that ends with two characters.
pub open spec fn before_ending(text: Seq<char>, first: char, second: char) -> Option<Seq<char>> {
    if text.len() >= 2 && text[text.len() - 2] == first && text[text.len() - 1] == second {
        Some(text.take(text.len() - 2))
    } else {
        None
    }
}

/// Returns the front of a text that ends with two characters, or `None` if it does not.
pub fn strip_ending(text: &str, first: char, second: char) -> (front: Option<String>)
    ensures
        match front {
            Some(rest) => before_ending(text@, first, second) == Some(rest@),
            None => before_ending(text@, first, second) is None,
        },
{
    let chars = chars_of(text);
    let count: usize = chars.len();
    if count >= 2 && chars[count - 2] == first && chars[count - 1] == second {
        let front = text_of(&chars, 0, count - 2);
        assert(front@ =~= text@.take(text@.len() - 2));
        Some(front)
    } else {
        None
    }
}

/// A text takes at most four bytes for each of its characters.
pub proof fn lemma_encoded_length(text: Seq<char>)
    ensures
        vstd::utf8::encode_utf8(text).len() <= 4 * text.len(),
    decreases text.len(),
{
    if text.len() > 0 {
        lemma_encoded_length(text.drop_first());
    }
}

/// A number below 100000 has at most five digits.
pub proof fn lemma_short_decimal(n: nat)
    requires
        n < 100000,
    ensures
        decimal(n).len() <= 5,
{
    reveal_with_fuel(decimal, 5);
}

} // verus!
