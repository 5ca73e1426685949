//! Text handling shared by the command parsers and the reply renderers:
//! trimming, splitting at spaces, and decimal numbers.

use vstd::prelude::*;
use vstd::string::*;

verus! {

/// White space as trimming understands it: the Unicode characters with the
/// property `White_Space`.
pub open spec fn is_blank(c: char) -> bool {
    let code = c as u32;
    ||| 0x09 <= code <= 0x0D
    ||| code == 0x20
    ||| code == 0x85
    ||| code == 0xA0
    ||| code == 0x1680
    ||| 0x2000 <= code <= 0x200A
    ||| code == 0x2028
    ||| code == 0x2029
    ||| code == 0x202F
    ||| code == 0x205F
    ||| code == 0x3000
}

/// Index of the first character at or after `from` that is not blank; the
/// length where there is none.
pub open spec fn skip_blanks(s: Seq<char>, from: int) -> int
    decreases s.len() - from,
{
    if 0 <= from < s.len() && is_blank(s[from]) {
        skip_blanks(s, from + 1)
    } else {
        from
    }
}

/// Index just behind the last character before `to` that is not blank; zero
/// where there is none.
pub open spec fn skip_blanks_back(s: Seq<char>, to: int) -> int
    decreases to,
{
    if 0 < to <= s.len() && is_blank(s[to - 1]) {
        skip_blanks_back(s, to - 1)
    } else {
        to
    }
}

/// `s` without its leading blanks.
pub open spec fn trim_start(s: Seq<char>) -> Seq<char> {
    s.subrange(skip_blanks(s, 0), s.len() as int)
}

/// `s` without its trailing blanks.
pub open spec fn trim_end(s: Seq<char>) -> Seq<char> {
    s.subrange(0, skip_blanks_back(s, s.len() as int))
}

/// `s` without leading and trailing blanks.
pub open spec fn trim(s: Seq<char>) -> Seq<char> {
    trim_end(trim_start(s))
}

/// Index of the first space at or after `from`; the length where there is
/// none.
pub open spec fn find_space(s: Seq<char>, from: int) -> int
    decreases s.len() - from,
{
    if 0 <= from < s.len() && s[from] != ' ' {
        find_space(s, from + 1)
    } else {
        from
    }
}

/// The word that `s` begins with: everything before its first space.
pub open spec fn first_word(s: Seq<char>) -> Seq<char> {
    s.subrange(0, find_space(s, 0))
}

/// What follows the first word of `s`: empty, or beginning with a space.
pub open spec fn after_first_word(s: Seq<char>) -> Seq<char> {
    s.subrange(find_space(s, 0), s.len() as int)
}

/// One of the ten decimal digits.
pub open spec fn is_digit(c: char) -> bool {
    '0' <= c <= '9'
}

/// The digit that stands for `d`, which is below ten.
pub open spec fn digit_char(d: nat) -> char
    recommends
        d < 10,
{
    (d + 48) as char
}

/// Every character of `s` is a decimal digit, and there is at least one.
pub open spec fn is_number(s: Seq<char>) -> bool {
    s.len() > 0 && forall|i: int| 0 <= i < s.len() ==> is_digit(#[trigger] s[i])
}

/// The number that the digits of `s` spell in base ten.
pub open spec fn number_value(s: Seq<char>) -> nat
    decreases s.len(),
{
    if s.len() == 0 {
        0
    } else {
        (number_value(s.drop_last()) * 10 + (s.last() as u32 - 48)) as nat
    }
}

/// `n` written in base ten, without leading zeros.
pub open spec fn decimal(n: nat) -> Seq<char>
    decreases n,
{
    if n < 10 {
        seq![digit_char(n)]
    } else {
        decimal(n / 10).push(digit_char(n % 10))
    }
}

/// Whether `c` is white space.
pub fn blank(c: char) -> (b: bool)
    ensures
        b == is_blank(c),
{
    let code: u32 = c as u32;
    (0x09 <= code && code <= 0x0D) || code == 0x20 || code == 0x85 || code == 0xA0 || code
        == 0x1680 || (0x2000 <= code && code <= 0x200A) || code == 0x2028 || code == 0x2029
        || code == 0x202F || code == 0x205F || code == 0x3000
}

/// The characters of `text`, one by one.
pub fn chars_of(text: &str) -> (chars: Vec<char>)
    ensures
        chars@ == text@,
{
    let mut chars: Vec<char> = Vec::new();
    for c in it: text.chars()
        invariant
            chars@ == it.seq().take(it.index() as int),
            it.seq() == text@,
    {
        chars.push(c);
    }
    chars
}

/// Whether two texts consist of the same characters.
pub fn same_text(a: &str, b: &str) -> (same: bool)
    ensures
        same == (a@ == b@),
{
    let left = chars_of(a);
    let right = chars_of(b);
    if left.len() != right.len() {
        return false;
    }
    let mut i: usize = 0;
    while i < left.len()
        invariant
            i <= left.len(),
            left.len() == right.len(),
            left@ == a@,
            right@ == b@,
            forall|j: int| 0 <= j < i ==> left@[j] == right@[j],
        decreases left.len() - i,
    {
        if left[i] != right[i] {
            return false;
        }
        i += 1;
    }
    assert(left@ =~= right@);
    true
}

/// Whether `text` begins with `prefix`.
pub fn starts_with(text: &str, prefix: &str) -> (found: bool)
    ensures
        found == prefix@.is_prefix_of(text@),
{
    let whole = chars_of(text);
    let head = chars_of(prefix);
    if head.len() > whole.len() {
        return false;
    }
    let mut i: usize = 0;
    while i < head.len()
        invariant
            i <= head.len() <= whole.len(),
            head@ == prefix@,
            whole@ == text@,
            forall|j: int| 0 <= j < i ==> head@[j] == whole@[j],
        decreases head.len() - i,
    {
        if head[i] != whole[i] {
            return false;
        }
        i += 1;
    }
    true
}

/// `text` without its leading blanks.
pub fn trimmed_start(text: &str) -> (rest: &str)
    ensures
        rest@ == trim_start(text@),
        0 <= skip_blanks(text@, 0) <= text@.len(),
{
    let chars = chars_of(text);
    let mut i: usize = 0;
    while i < chars.len() && blank(chars[i])
        invariant
            i <= chars.len(),
            skip_blanks(chars@, 0) == skip_blanks(chars@, i as int),
        decreases chars.len() - i,
    {
        i += 1;
    }
    text.substring_char(i, chars.len())
}

/// `text` without its trailing blanks.
pub fn trimmed_end(text: &str) -> (rest: &str)
    ensures
        rest@ == trim_end(text@),
        0 <= skip_blanks_back(text@, text@.len() as int) <= text@.len(),
{
    let chars = chars_of(text);
    let mut i: usize = chars.len();
    while i > 0 && blank(chars[i - 1])
        invariant
            i <= chars.len(),
            skip_blanks_back(chars@, chars@.len() as int) == skip_blanks_back(chars@, i as int),
        decreases i,
    {
        i -= 1;
    }
    text.substring_char(0, i)
}

/// `text` without leading and trailing blanks.
pub fn trimmed(text: &str) -> (rest: &str)
    ensures
        rest@ == trim(text@),
{
    trimmed_end(trimmed_start(text))
}

/// Splits `text` at its first space: the word before it, and what follows,
/// the space included. Without a space the whole text is the word.
pub fn split_word(text: &str) -> (parts: (&str, &str))
    ensures
        parts.0@ == first_word(text@),
        parts.1@ == after_first_word(text@),
        0 <= find_space(text@, 0) <= text@.len(),
{
    let chars = chars_of(text);
    let mut i: usize = 0;
    while i < chars.len() && chars[i] != ' '
        invariant
            i <= chars.len(),
            find_space(chars@, 0) == find_space(chars@, i as int),
        decreases chars.len() - i,
    {
        i += 1;
    }
    (text.substring_char(0, i), text.substring_char(i, chars.len()))
}

/// Reads `text` as a decimal number. The text must consist of digits alone;
/// a number too large for `usize` is not read.
pub fn parse_index(text: &str) -> (parsed: Option<usize>)
    ensures
        parsed.is_some() == (is_number(text@) && number_value(text@) <= usize::MAX),
        parsed matches Some(n) ==> n == number_value(text@),
{
    let chars = chars_of(text);
    if chars.len() == 0 {
        return None;
    }
    let mut value: usize = 0;
    let mut i: usize = 0;
    while i < chars.len()
        invariant
            i <= chars.len(),
            chars@ == text@,
            forall|j: int| 0 <= j < i ==> is_digit(#[trigger] chars@[j]),
            value == number_value(chars@.take(i as int)),
        decreases chars.len() - i,
    {
        let c: char = chars[i];
        if c < '0' || c > '9' {
            return None;
        }
        let digit: usize = (c as u32 - 48) as usize;
        proof {
            assert(chars@.take(i + 1).drop_last() =~= chars@.take(i as int));
            if is_number(chars@) {
                lemma_number_grows(chars@, i + 1);
            }
        }
        if value > (usize::MAX - digit) / 10 {
            return None;
        }
        value = value * 10 + digit;
        i += 1;
    }
    assert(chars@.take(chars@.len() as int) =~= chars@);
    Some(value)
}

/// A number does not get smaller when more digits follow.
pub proof fn lemma_number_grows(s: Seq<char>, n: int)
    requires
        0 <= n <= s.len(),
        forall|i: int| n <= i < s.len() ==> is_digit(#[trigger] s[i]),
    ensures
        number_value(s.take(n)) <= number_value(s),
    decreases s.len() - n,
{
    if n < s.len() {
        assert(s.take(n + 1).drop_last() =~= s.take(n));
        lemma_number_grows(s, n + 1);
    } else {
        assert(s.take(n) =~= s);
    }
}

/// The text of one decimal digit.
fn digit_text(d: u64) -> (text: &'static str)
    requires
        d < 10,
    ensures
        text@ == seq![digit_char(d as nat)],
{
    proof {
        reveal_strlit("0");
        reveal_strlit("1");
        reveal_strlit("2");
        reveal_strlit("3");
        reveal_strlit("4");
        reveal_strlit("5");
        reveal_strlit("6");
        reveal_strlit("7");
        reveal_strlit("8");
        reveal_strlit("9");
    }
    match d {
        0 => "0",
        1 => "1",
        2 => "2",
        3 => "3",
        4 => "4",
        5 => "5",
        6 => "6",
        7 => "7",
        8 => "8",
        _ => "9",
    }
}

/// Appends `n`, written in base ten, to `out`.
pub fn push_decimal(out: &mut String, n: u64)
    ensures
        final(out)@ == old(out)@ + decimal(n as nat),
    decreases n,
{
    if n >= 10 {
        push_decimal(out, n / 10);
    }
    out.append(digit_text(n % 10));
}

/// A number written in base ten consists of digits and reads back as
/// itself.
pub proof fn lemma_decimal_reads_back(n: nat)
    ensures
        is_number(decimal(n)),
        number_value(decimal(n)) == n,
    decreases n,
{
    let digits = decimal(n);
    if n < 10 {
        assert(number_value(digits.drop_last()) == 0);
    } else {
        lemma_decimal_reads_back(n / 10);
        assert(digits.drop_last() =~= decimal(n / 10));
        assert forall|i: int| 0 <= i < digits.len() implies is_digit(#[trigger] digits[i]) by {}
    }
}

/// Two numbers that are written alike are the same number.
pub proof fn lemma_decimal_is_injective(a: nat, b: nat)
    requires
        decimal(a) == decimal(b),
    ensures
        a == b,
{
    lemma_decimal_reads_back(a);
    lemma_decimal_reads_back(b);
}

/// Digits that are followed by something that is no digit end where that
/// begins: two such texts are equal only if their digits are the same and
/// what follows is the same.
pub proof fn lemma_digits_end_at_other_text(
    digits: Seq<char>,
    rest: Seq<char>,
    other_digits: Seq<char>,
    other_rest: Seq<char>,
)
    requires
        forall|i: int| 0 <= i < digits.len() ==> is_digit(#[trigger] digits[i]),
        forall|i: int| 0 <= i < other_digits.len() ==> is_digit(#[trigger] other_digits[i]),
        rest.len() > 0 && !is_digit(rest[0]),
        other_rest.len() > 0 && !is_digit(other_rest[0]),
        digits + rest == other_digits + other_rest,
    ensures
        digits == other_digits,
        rest == other_rest,
{
    let whole = digits + rest;
    let other = other_digits + other_rest;
    if digits.len() < other_digits.len() {
        assert(whole[digits.len() as int] == rest[0]);
        assert(other[digits.len() as int] == other_digits[digits.len() as int]);
    } else if other_digits.len() < digits.len() {
        assert(other[other_digits.len() as int] == other_rest[0]);
        assert(whole[other_digits.len() as int] == digits[other_digits.len() as int]);
    }
    assert(digits =~= whole.take(digits.len() as int));
    assert(other_digits =~= other.take(digits.len() as int));
    assert(rest =~= whole.skip(digits.len() as int));
    assert(other_rest =~= other.skip(digits.len() as int));
}

/// The search for a space stops at the first space.
pub proof fn lemma_find_space_stops(s: Seq<char>, from: int, at: int)
    requires
        0 <= from <= at <= s.len(),
        forall|i: int| from <= i < at ==> s[i] != ' ',
        at < s.len() ==> s[at] == ' ',
    ensures
        find_space(s, from) == at,
    decreases at - from,
{
    if from < at {
        lemma_find_space_stops(s, from + 1, at);
    }
}

/// Leading blanks end at the first character that is not blank.
pub proof fn lemma_skip_blanks_stops(s: Seq<char>, from: int, at: int)
    requires
        0 <= from <= at <= s.len(),
        forall|i: int| from <= i < at ==> is_blank(s[i]),
        at < s.len() ==> !is_blank(s[at]),
    ensures
        skip_blanks(s, from) == at,
    decreases at - from,
{
    if from < at {
        lemma_skip_blanks_stops(s, from + 1, at);
    }
}

/// Trailing blanks begin behind the last character that is not blank.
pub proof fn lemma_skip_blanks_back_stops(s: Seq<char>, to: int, at: int)
    requires
        0 <= at <= to <= s.len(),
        forall|i: int| at <= i < to ==> is_blank(s[i]),
        at > 0 ==> !is_blank(s[at - 1]),
    ensures
        skip_blanks_back(s, to) == at,
    decreases to - at,
{
    if at < to {
        lemma_skip_blanks_back_stops(s, to - 1, at);
    }
}

} // verus!
