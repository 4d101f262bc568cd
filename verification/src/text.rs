//! Reading settings from text.

use vstd::prelude::*;

verus! {

/// Whether a character is white space: whether it has Unicode's property `White_Space`.
pub open spec fn is_white(c: char) -> bool {
    ||| 0x9 <= c as int <= 0xd
    ||| c as int == 0x20
    ||| c as int == 0x85
    ||| c as int == 0xa0
    ||| c as int == 0x1680
    ||| 0x2000 <= c as int <= 0x200a
    ||| 0x2028 <= c as int <= 0x2029
    ||| c as int == 0x202f
    ||| c as int == 0x205f
    ||| c as int == 0x3000
}

/// A text without the white space at its start.
pub open spec fn trimmed_start(text: Seq<char>) -> Seq<char>
    decreases text.len(),
{
    if text.len() > 0 && is_white(text[0]) {
        trimmed_start(text.skip(1))
    } else {
        text
    }
}

/// A text without the white space at its end.
pub open spec fn trimmed_end(text: Seq<char>) -> Seq<char>
    decreases text.len(),
{
    if text.len() > 0 && is_white(text.last()) {
        trimmed_end(text.drop_last())
    } else {
        text
    }
}

/// A text without the white space at its ends.
pub open spec fn trimmed(text: Seq<char>) -> Seq<char> {
    trimmed_end(trimmed_start(text))
}

/// Whether a character is white space.
fn check_white(c: char) -> (b: bool)
    ensures
        b == is_white(c),
{
    let code: u32 = c as u32;
    (0x9 <= code && code <= 0xd) || code == 0x20 || code == 0x85 || code == 0xa0 || code == 0x1680
        || (0x2000 <= code && code <= 0x200a) || code == 0x2028 || code == 0x2029 || code == 0x202f
        || code == 0x205f || code == 0x3000
}

/// A text without the white space at its ends.
pub(crate) fn trim_text(text: &str) -> (rest: &str)
    ensures
        rest@ == trimmed(text@),
{
    let chars = chars_of(text);
    let mut start: usize = 0;
    let mut end: usize = chars.len();
    proof {
        assert(chars@.skip(0) =~= chars@);
    }
    while start < end && check_white(chars[start])
        invariant
            start <= end == chars@.len(),
            trimmed_start(chars@) == trimmed_start(chars@.skip(start as int)),
        decreases end - start,
    {
        proof {
            assert(chars@.skip(start as int).skip(1) =~= chars@.skip(start + 1));
        }
        start = start + 1;
    }
    proof {
        assert(trimmed_start(chars@) == chars@.skip(start as int));
        assert(chars@.subrange(start as int, end as int) =~= chars@.skip(start as int));
    }
    while start < end && check_white(chars[end - 1])
        invariant
            start <= end <= chars@.len(),
            trimmed(chars@) == trimmed_end(chars@.subrange(start as int, end as int)),
        decreases end - start,
    {
        proof {
            assert(chars@.subrange(start as int, end as int).drop_last() =~= chars@.subrange(
                start as int,
                end - 1,
            ));
        }
        end = end - 1;
    }
    text.substring_char(start, end)
}

/// Whether two texts are the same.
pub fn same_text(a: &str, b: &str) -> (same: bool)
    ensures
        same == (a@ == b@),
{
    a.to_owned() == b.to_owned()
}

/// The characters of a text.
pub fn chars_of(text: &str) -> (chars: Vec<char>)
    ensures
        chars@ == text@,
{
    let mut chars: Vec<char> = Vec::new();
    for c in it: text.chars()
        invariant
            it.seq() == text@,
            chars@ == text@.take(it.index() as int),
    {
        proof {
            assert(text@.take(it.index() + 1) =~= text@.take(it.index() as int).push(c));
        }
        chars.push(c);
    }
    assert(text@.take(text@.len() as int) =~= text@);
    chars
}

/// Whether a character is a decimal digit.
pub open spec fn is_digit(c: char) -> bool {
    '0' <= c <= '9'
}

/// The number that a sequence of digits stands for.
pub open spec fn decimal(digits: Seq<char>) -> int
    decreases digits.len(),
{
    if digits.len() == 0 {
        0
    } else {
        decimal(digits.drop_last()) * 10 + (digits.last() as int - '0' as int)
    }
}

/// The digits of a number that may have a plus sign in front.
pub open spec fn without_plus(text: Seq<char>) -> Seq<char> {
    if text.len() > 0 && text[0] == '+' {
        text.skip(1)
    } else {
        text
    }
}

/// The machine number that a text stands for: an optional plus sign and then digits,
/// at least one and nothing else, with a value that fits.
pub open spec fn usize_of(text: Seq<char>) -> Option<usize> {
    let digits = without_plus(text);
    if digits.len() > 0 && (forall|i: int| 0 <= i < digits.len() ==> is_digit(#[trigger] digits[i]))
        && decimal(digits) <= usize::MAX {
        Some(decimal(digits) as usize)
    } else {
        None
    }
}

proof fn lemma_decimal_grows(digits: Seq<char>, n: int)
    requires
        0 <= n <= digits.len(),
        forall|i: int| 0 <= i < digits.len() ==> is_digit(#[trigger] digits[i]),
    ensures
        0 <= decimal(digits.take(n)) <= decimal(digits),
    decreases digits.len(),
{
    if n == digits.len() {
        assert(digits.take(n) =~= digits);
        if n > 0 {
            assert(is_digit(digits[n - 1]));
            lemma_decimal_grows(digits.drop_last(), n - 1);
        }
    } else {
        assert(is_digit(digits[digits.len() - 1]));
        lemma_decimal_grows(digits.drop_last(), n);
        assert(digits.drop_last().take(n) =~= digits.take(n));
    }
}

/// Reads a machine number.
pub fn parse_usize(text: &str) -> (value: Option<usize>)
    ensures
        value == usize_of(text@),
{
    let chars = chars_of(text);
    let start: usize = if chars.len() > 0 && chars[0] == '+' { 1 } else { 0 };
    let ghost digits = without_plus(text@);
    if start == chars.len() {
        return None;
    }
    let mut value: usize = 0;
    let mut i: usize = start;
    proof {
        assert(digits.take(0) =~= Seq::<char>::empty());
    }
    while i < chars.len()
        invariant
            start <= i <= chars@.len(),
            start <= 1,
            chars@ == text@,
            digits == text@.skip(start as int),
            digits == without_plus(text@),
            digits.len() > 0,
            forall|j: int| 0 <= j < i - start ==> is_digit(#[trigger] digits[j]),
            value == decimal(digits.take(i - start)),
        decreases chars@.len() - i,
    {
        let c = chars[i];
        let ghost at = i - start;
        assert(digits[at] == c);
        if !('0' <= c && c <= '9') {
            assert(!is_digit(digits[at]));
            return None;
        }
        let d: usize = (c as u32 - '0' as u32) as usize;
        proof {
            assert(digits.take(at + 1).drop_last() =~= digits.take(at));
            assert(decimal(digits.take(at + 1)) == value * 10 + d);
            if decimal(digits.take(at + 1)) > usize::MAX {
                if forall|j: int| 0 <= j < digits.len() ==> is_digit(#[trigger] digits[j]) {
                    lemma_decimal_grows(digits, at + 1);
                }
                assert(usize_of(text@) is None);
            }
        }
        let tens: usize = match value.checked_mul(10) {
            Some(t) => t,
            None => {
                return None;
            },
        };
        value = match tens.checked_add(d) {
            Some(v) => v,
            None => {
                return None;
            },
        };
        i = i + 1;
    }
    proof {
        assert(digits.take(i - start) =~= digits);
    }
    Some(value)
}

/// A capital letter A to Z made small; any other character as it is.
pub open spec fn small(c: char) -> char {
    if 'A' <= c <= 'Z' {
        (c as int + 32) as char
    } else {
        c
    }
}

/// The text with its capital letters A to Z made small.
pub open spec fn lowered(text: Seq<char>) -> Seq<char> {
    Seq::new(text.len(), |i: int| small(text[i]))
}

/// Whether a text is `word` but for capital letters.
fn is_word(chars: &Vec<char>, word: &str) -> (same: bool)
    ensures
        same == (lowered(chars@) == word@),
{
    let letters = chars_of(word);
    if chars.len() != letters.len() {
        assert(lowered(chars@).len() != word@.len());
        return false;
    }
    let mut i: usize = 0;
    while i < chars.len()
        invariant
            i <= chars@.len() == letters@.len(),
            letters@ == word@,
            forall|j: int| 0 <= j < i ==> small(#[trigger] chars@[j]) == word@[j],
        decreases chars@.len() - i,
    {
        let c = chars[i];
        let w = letters[i];
        let same: bool = if 'A' <= c && c <= 'Z' {
            'a' <= w && w <= 'z' && c as u32 + 32 == w as u32
        } else {
            c == w
        };
        if !same {
            assert(lowered(chars@)[i as int] != word@[i as int]);
            return false;
        }
        i = i + 1;
    }
    assert(lowered(chars@) =~= word@);
    true
}

/// The answer that a text gives to a yes-or-no question, if it gives one.
pub open spec fn bool_of(text: Seq<char>) -> Option<bool> {
    let word = lowered(text);
    if word == "1"@ || word == "true"@ || word == "yes"@ || word == "on"@ {
        Some(true)
    } else if word == "0"@ || word == "false"@ || word == "no"@ || word == "off"@ {
        Some(false)
    } else {
        None
    }
}

/// Reads a yes-or-no setting, whatever the case of its letters.
pub fn parse_bool(text: &str) -> (value: Option<bool>)
    ensures
        value == bool_of(text@),
{
    let chars = chars_of(text);
    if is_word(&chars, "1") || is_word(&chars, "true") || is_word(&chars, "yes") || is_word(
        &chars,
        "on",
    ) {
        Some(true)
    } else if is_word(&chars, "0") || is_word(&chars, "false") || is_word(&chars, "no")
        || is_word(&chars, "off") {
        Some(false)
    } else {
        None
    }
}

/// The number that a setting holds, without the white space around it.
pub fn setting_usize(raw: Option<&str>) -> (value: Option<usize>)
    ensures
        value == (match raw {
            Some(text) => usize_of(trimmed(text@)),
            None => None,
        }),
{
    match raw {
        Some(text) => parse_usize(trim_text(text)),
        None => None,
    }
}

/// The answer that a setting holds, without the white space around it.
pub fn setting_bool(raw: Option<&str>) -> (value: Option<bool>)
    ensures
        value == (match raw {
            Some(text) => bool_of(trimmed(text@)),
            None => None,
        }),
{
    match raw {
        Some(text) => parse_bool(trim_text(text)),
        None => None,
    }
}

/// Whether `word` stands at place `i` of a text.
pub open spec fn occurs_at(text: Seq<char>, word: Seq<char>, i: int) -> bool {
    0 <= i && i + word.len() <= text.len() && text.subrange(i, i + word.len()) == word
}

/// The first place of a text, from `from` on, where `word` stands.
pub open spec fn first_place(text: Seq<char>, word: Seq<char>, from: int) -> Option<int>
    decreases text.len() + 1 - from,
{
    if from > text.len() {
        None
    } else if occurs_at(text, word, from) {
        Some(from)
    } else {
        first_place(text, word, from + 1)
    }
}

/// Whether `word` stands at place `i` of a text.
fn stands_at(text: &Vec<char>, word: &Vec<char>, i: usize) -> (b: bool)
    ensures
        b == occurs_at(text@, word@, i as int),
{
    let text_len: usize = text.len();
    let word_len: usize = word.len();
    if i > text_len || word_len > text_len - i {
        return false;
    }
    let mut j: usize = 0;
    while j < word_len
        invariant
            j <= word_len == word@.len(),
            i + word_len <= text_len == text@.len(),
            forall|k: int| 0 <= k < j ==> #[trigger] word@[k] == text@[i + k],
        decreases word_len - j,
    {
        if text[i + j] != word[j] {
            proof {
                assert(text@.subrange(i as int, i + word@.len())[j as int] != word@[j as int]);
            }
            return false;
        }
        j = j + 1;
    }
    proof {
        assert(text@.subrange(i as int, i + word@.len()) =~= word@);
    }
    true
}

/// The first place of a text, from `from` on, where `word` stands.
pub fn find_word(text: &Vec<char>, word: &str, from: usize) -> (place: Option<usize>)
    ensures
        match first_place(text@, word@, from as int) {
            Some(i) => place == Some(i as usize) && from <= i <= text@.len(),
            None => place is None,
        },
{
    let letters = chars_of(word);
    let text_len: usize = text.len();
    let mut i: usize = from;
    while i <= text_len
        invariant
            from <= i,
            text_len == text@.len(),
            letters@ == word@,
            first_place(text@, word@, from as int) == first_place(text@, word@, i as int),
        decreases text_len + 1 - i,
    {
        if stands_at(text, &letters, i) {
            return Some(i);
        }
        proof {
            assert(first_place(text@, word@, i as int) == first_place(text@, word@, i + 1));
        }
        if i == text_len {
            return None;
        }
        i = i + 1;
    }
    None
}

// ---------------------------------------------------------------------------
// What the readings mean
// ---------------------------------------------------------------------------

/// White space is tab, line feed, vertical tab, form feed, carriage return, space, next
/// line, and the spaces and separators of the other scripts.
pub proof fn law_white_space(c: char)
    ensures
        is_white(c) <==> c as int == 0x9 || c as int == 0xa || c as int == 0xb || c as int == 0xc || c as int == 0xd || c as int == 0x20 || c as int == 0x85 || c as int == 0xa0 || c as int == 0x1680 || c as int == 0x2000 || c as int == 0x2001 || c as int == 0x2002 || c as int == 0x2003 || c as int == 0x2004 || c as int == 0x2005 || c as int == 0x2006 || c as int == 0x2007 || c as int == 0x2008 || c as int == 0x2009 || c as int == 0x200a || c as int == 0x2028 || c as int == 0x2029 || c as int == 0x202f || c as int == 0x205f || c as int == 0x3000,
{
}

proof fn lemma_trimmed_start(text: Seq<char>) -> (a: int)
    ensures
        0 <= a <= text.len(),
        trimmed_start(text) == text.subrange(a, text.len() as int),
        forall|i: int| 0 <= i < a ==> is_white(#[trigger] text[i]),
        a < text.len() ==> !is_white(text[a]),
    decreases text.len(),
{
    if text.len() > 0 && is_white(text[0]) {
        let rest = text.skip(1);
        let b = lemma_trimmed_start(rest);
        assert(rest.subrange(b, rest.len() as int) =~= text.subrange(b + 1, text.len() as int));
        assert forall|i: int| 0 <= i < b + 1 implies is_white(#[trigger] text[i]) by {
            if i > 0 {
                assert(rest[i - 1] == text[i]);
            }
        }
        if b < rest.len() {
            assert(rest[b] == text[b + 1]);
        }
        b + 1
    } else {
        assert(text.subrange(0, text.len() as int) =~= text);
        0
    }
}

proof fn lemma_trimmed_end(text: Seq<char>) -> (b: int)
    ensures
        0 <= b <= text.len(),
        trimmed_end(text) == text.subrange(0, b),
        forall|i: int| b <= i < text.len() ==> is_white(#[trigger] text[i]),
        b > 0 ==> !is_white(text[b - 1]),
    decreases text.len(),
{
    if text.len() > 0 && is_white(text.last()) {
        let rest = text.drop_last();
        let b = lemma_trimmed_end(rest);
        assert(rest.subrange(0, b) =~= text.subrange(0, b));
        assert forall|i: int| b <= i < text.len() implies is_white(#[trigger] text[i]) by {
            if i < rest.len() {
                assert(rest[i] == text[i]);
            }
        }
        b
    } else {
        assert(text.subrange(0, text.len() as int) =~= text);
        text.len() as int
    }
}

/// Trimming takes white space off both ends, all of it, and nothing else: what is left
/// is a stretch of the text that neither starts nor ends with white space, and all around
/// it is white space.
pub proof fn law_trimming_takes_white_space_off_the_ends(text: Seq<char>) -> (ends: (int, int))
    ensures
        0 <= ends.0 <= ends.1 <= text.len(),
        trimmed(text) == text.subrange(ends.0, ends.1),
        forall|i: int| 0 <= i < ends.0 ==> is_white(#[trigger] text[i]),
        forall|i: int| ends.1 <= i < text.len() ==> is_white(#[trigger] text[i]),
        ends.0 < ends.1 ==> !is_white(text[ends.0]) && !is_white(text[ends.1 - 1]),
{
    let a = lemma_trimmed_start(text);
    let rest = trimmed_start(text);
    let b = lemma_trimmed_end(rest);
    assert(rest.subrange(0, b) =~= text.subrange(a, a + b));
    assert forall|i: int| a + b <= i < text.len() implies is_white(#[trigger] text[i]) by {
        assert(rest[i - a] == text[i]);
    }
    if b > 0 {
        assert(rest[b - 1] == text[a + b - 1]);
    }
    (a, a + b)
}

/// A digit behind others counts ten times what stands before it, and itself.
pub proof fn law_digits_count_by_tens(digits: Seq<char>, c: char)
    ensures
        is_digit(c) <==> 48 <= c as int <= 57,
        decimal(Seq::<char>::empty()) == 0,
        decimal(digits.push(c)) == 10 * decimal(digits) + (c as int - 48),
{
    assert(digits.push(c).drop_last() =~= digits);
}

/// A text of digits is the number that they make, with or without a plus sign before
/// them, where it is a machine number.
pub proof fn law_digits_are_numbers(digits: Seq<char>)
    requires
        digits.len() > 0,
        forall|i: int| 0 <= i < digits.len() ==> 48 <= (#[trigger] digits[i]) as int <= 57,
    ensures
        0 <= decimal(digits) <= usize::MAX ==> usize_of(digits) == Some(decimal(digits) as usize)
            && usize_of(seq!['+'] + digits) == Some(decimal(digits) as usize),
        decimal(digits) > usize::MAX ==> usize_of(digits) is None && usize_of(seq!['+'] + digits)
            is None,
{
    assert(digits[0] as int <= 57 && 48 <= digits[0] as int);
    assert(digits[0] != '+');
    assert(without_plus(digits) == digits);
    assert(without_plus(seq!['+'] + digits) =~= digits);
    assert forall|i: int| 0 <= i < digits.len() implies is_digit(#[trigger] digits[i]) by {
        assert(48 <= digits[i] as int <= 57);
    }
}

/// A text with anything but digits is no number, but for one plus sign before them; nor
/// is one without a digit.
pub proof fn law_other_texts_are_no_numbers(text: Seq<char>, i: int)
    requires
        text.len() == 0 || text == seq!['+'] || (0 <= i < text.len() && !(48 <= text[i] as int
            <= 57) && (i > 0 || text[i] != '+')),
    ensures
        usize_of(text) is None,
{
    let digits = without_plus(text);
    if text.len() > 0 && text != seq!['+'] {
        if text[0] == '+' {
            assert(digits[i - 1] == text[i]);
        } else {
            assert(digits[i] == text[i]);
        }
    }
}

/// Capital letters become small ones, which stand 32 places behind them, and everything
/// else stays, letter by letter.
pub proof fn law_capitals_become_small(text: Seq<char>, i: int)
    requires
        0 <= i < text.len(),
    ensures
        lowered(text).len() == text.len(),
        65 <= text[i] as int <= 90 ==> lowered(text)[i] as int == text[i] as int + 32,
        !(65 <= text[i] as int <= 90) ==> lowered(text)[i] == text[i],
{
}

/// A text is a yes if it is 1, true, yes or on, a no if it is 0, false, no or off, in
/// small letters or not, and else neither.
pub proof fn law_yes_and_no(text: Seq<char>)
    ensures
        bool_of(text) == Some(true) <==> lowered(text) == "1"@ || lowered(text) == "true"@
            || lowered(text) == "yes"@ || lowered(text) == "on"@,
        bool_of(text) == Some(false) <==> lowered(text) == "0"@ || lowered(text) == "false"@
            || lowered(text) == "no"@ || lowered(text) == "off"@,
{
    reveal_strlit("1");
    reveal_strlit("true");
    reveal_strlit("yes");
    reveal_strlit("on");
    reveal_strlit("0");
    reveal_strlit("false");
    reveal_strlit("no");
    reveal_strlit("off");
    let word = lowered(text);
    if word == "0"@ || word == "false"@ || word == "no"@ || word == "off"@ {
        assert(word[0] == '0' || word[0] == 'f' || word[0] == 'n' || (word[0] == 'o' && word.len()
            == 3));
    }
}

/// A word stands at a place if its characters do, one behind the other.
pub proof fn law_words_stand_letter_by_letter(text: Seq<char>, word: Seq<char>, i: int)
    ensures
        occurs_at(text, word, i) <==> 0 <= i && i + word.len() <= text.len() && (forall|j: int|
            0 <= j < word.len() ==> #[trigger] word[j] == text[i + j]),
{
    if 0 <= i && i + word.len() <= text.len() {
        let part = text.subrange(i, (i + word.len()) as int);
        if forall|j: int| 0 <= j < word.len() ==> #[trigger] word[j] == text[i + j] {
            assert forall|j: int| 0 <= j < part.len() implies part[j] == word[j] by {
                assert(word[j] == text[i + j]);
            }
            assert(part =~= word);
        }
        if part == word {
            assert forall|j: int| 0 <= j < word.len() implies #[trigger] word[j] == text[i + j] by {
                assert(part[j] == text[i + j]);
            }
        }
    }
}

/// The first place is a place where the word stands, and it stands at none between; where
/// there is no first place, it stands nowhere behind.
pub proof fn law_first_place_is_the_first(text: Seq<char>, word: Seq<char>, from: int, i: int)
    requires
        0 <= from,
    ensures
        first_place(text, word, from) matches Some(p) ==> from <= p && occurs_at(text, word, p) && (
        from <= i < p ==> !occurs_at(text, word, i)),
        first_place(text, word, from) is None && from <= i ==> !occurs_at(text, word, i),
    decreases text.len() + 1 - from,
{
    if from <= text.len() && !occurs_at(text, word, from) {
        law_first_place_is_the_first(text, word, from + 1, i);
    }
}

} // verus!
