//! Text handling: order, trimming, upper case, search and decimal numbers.

use vstd::prelude::*;
use vstd::string::{StrSliceExecFns, StringExecFns};

verus! {

/// Lexicographic order by code points.
pub open spec fn text_le(a: Seq<char>, b: Seq<char>) -> bool
    decreases a.len(),
{
    if a.len() == 0 {
        true
    } else if b.len() == 0 {
        false
    } else if a[0] == b[0] {
        text_le(a.drop_first(), b.drop_first())
    } else {
        a[0] < b[0]
    }
}

/// Of any two texts, one comes no later than the other; only equal texts come
/// no later than each other.
pub proof fn text_order_is_total(a: Seq<char>, b: Seq<char>)
    ensures
        text_le(a, b) || text_le(b, a),
        text_le(a, b) && text_le(b, a) ==> a == b,
    decreases a.len(),
{
    if a.len() > 0 && b.len() > 0 && a[0] == b[0] {
        text_order_is_total(a.drop_first(), b.drop_first());
        assert(a =~= seq![a[0]] + a.drop_first());
        assert(b =~= seq![b[0]] + b.drop_first());
    } else if a.len() == 0 && b.len() == 0 {
        assert(a =~= b);
    }
}

/// The order of texts chains.
pub proof fn text_order_is_transitive(a: Seq<char>, b: Seq<char>, c: Seq<char>)
    requires
        text_le(a, b),
        text_le(b, c),
    ensures
        text_le(a, c),
    decreases a.len(),
{
    if a.len() > 0 && a[0] == b[0] && b[0] == c[0] {
        text_order_is_transitive(a.drop_first(), b.drop_first(), c.drop_first());
    }
}

/// Whether `a` comes no later than `b`, lexicographically by code points.
pub fn text_comes_by(a: &str, b: &str) -> (holds: bool)
    ensures
        holds == text_le(a@, b@),
{
    let left = chars_of(a);
    let right = chars_of(b);
    let mut i: usize = 0;
    assert(a@.skip(0) =~= a@ && b@.skip(0) =~= b@);
    while i < left.len() && i < right.len() && left[i] == right[i]
        invariant
            left@ == a@,
            right@ == b@,
            i <= left.len(),
            i <= right.len(),
            text_le(a@, b@) == text_le(a@.skip(i as int), b@.skip(i as int)),
        decreases left.len() - i,
    {
        assert(a@.skip(i as int).drop_first() =~= a@.skip(i + 1));
        assert(b@.skip(i as int).drop_first() =~= b@.skip(i + 1));
        i += 1;
    }
    if i == left.len() {
        true
    } else if i == right.len() {
        false
    } else {
        left[i] < right[i]
    }
}

/// The characters of a text.
pub fn chars_of(text: &str) -> (chars: Vec<char>)
    ensures
        chars@ == text@,
{
    let mut chars: Vec<char> = Vec::new();
    for c in it: text.chars()
        invariant
            it.seq() == text@,
            chars@ == text@.take(it.index() as int),
    {
        chars.push(c);
    }
    assert(text@.take(text@.len() as int) =~= text@);
    chars
}

/// White space as Unicode defines it.
pub open spec fn is_white_space(c: char) -> bool {
    ||| '\u{9}' <= c <= '\u{d}'
    ||| c == '\u{20}'
    ||| c == '\u{85}'
    ||| c == '\u{a0}'
    ||| c == '\u{1680}'
    ||| '\u{2000}' <= c <= '\u{200a}'
    ||| c == '\u{2028}'
    ||| c == '\u{2029}'
    ||| c == '\u{202f}'
    ||| c == '\u{205f}'
    ||| c == '\u{3000}'
}

fn white_space(c: char) -> (holds: bool)
    ensures
        holds == is_white_space(c),
{
    ('\u{9}' <= c && c <= '\u{d}') || c == '\u{20}' || c == '\u{85}' || c == '\u{a0}' || c
        == '\u{1680}' || ('\u{2000}' <= c && c <= '\u{200a}') || c == '\u{2028}' || c == '\u{2029}'
        || c == '\u{202f}' || c == '\u{205f}' || c == '\u{3000}'
}

/// A text without its leading white space.
pub open spec fn trimmed_front(text: Seq<char>) -> Seq<char>
    decreases text.len(),
{
    if text.len() > 0 && is_white_space(text[0]) {
        trimmed_front(text.drop_first())
    } else {
        text
    }
}

/// A text without its trailing white space.
pub open spec fn trimmed_back(text: Seq<char>) -> Seq<char>
    decreases text.len(),
{
    if text.len() > 0 && is_white_space(text.last()) {
        trimmed_back(text.drop_last())
    } else {
        text
    }
}

/// A text without the white space around it.
pub open spec fn trimmed(text: Seq<char>) -> Seq<char> {
    trimmed_back(trimmed_front(text))
}

/// Takes the white space around a text away.
pub fn trim(text: &str) -> (inner: &str)
    ensures
        inner@ == trimmed(text@),
{
    let chars = chars_of(text);
    let ghost all = text@;
    let mut from: usize = 0;
    assert(all.skip(0) =~= all);
    while from < chars.len() && white_space(chars[from])
        invariant
            chars@ == all,
            from <= chars.len(),
            trimmed_front(all) == trimmed_front(all.skip(from as int)),
        decreases chars.len() - from,
    {
        assert(all.skip(from as int).drop_first() =~= all.skip(from + 1));
        from += 1;
    }
    let mut to: usize = chars.len();
    assert(all.subrange(from as int, to as int) =~= all.skip(from as int));
    while from < to && white_space(chars[to - 1])
        invariant
            chars@ == all,
            from <= to <= chars.len(),
            trimmed(all) == trimmed_back(all.subrange(from as int, to as int)),
        decreases to - from,
    {
        assert(all.subrange(from as int, to as int).drop_last() =~= all.subrange(
            from as int,
            to - 1,
        ));
        to -= 1;
    }
    text.substring_char(from, to)
}

/// The upper case of an ASCII letter; any other character as it is.
pub open spec fn ascii_upper_char(c: char) -> char {
    if 'a' <= c <= 'z' {
        ((c as u8 - 32) as u8) as char
    } else {
        c
    }
}

/// A text with its ASCII letters in upper case.
pub open spec fn ascii_upper(text: Seq<char>) -> Seq<char> {
    text.map_values(|c: char| ascii_upper_char(c))
}

/// The characters of a text, ASCII letters in upper case.
pub fn ascii_upper_chars(text: &str) -> (upper: Vec<char>)
    ensures
        upper@ == ascii_upper(text@),
{
    let chars = chars_of(text);
    let mut upper: Vec<char> = Vec::new();
    let mut i: usize = 0;
    while i < chars.len()
        invariant
            chars@ == text@,
            i <= chars.len(),
            upper@ == ascii_upper(text@).take(i as int),
        decreases chars.len() - i,
    {
        let c = chars[i];
        upper.push(
            if 'a' <= c && c <= 'z' {
                (c as u8 - 32) as char
            } else {
                c
            },
        );
        i += 1;
    }
    assert(ascii_upper(text@).take(i as int) =~= ascii_upper(text@));
    upper
}

/// Whether `part` stands in `whole` from `at` on.
pub open spec fn stands_at(whole: Seq<char>, part: Seq<char>, at: int) -> bool {
    0 <= at && at + part.len() <= whole.len() && whole.subrange(at, at + part.len()) == part
}

/// Whether `part` stands somewhere in `whole`.
pub open spec fn occurs_in(whole: Seq<char>, part: Seq<char>) -> bool {
    exists|at: int| stands_at(whole, part, at)
}

/// Whether `part` stands in `whole` from `at` on.
pub fn is_at(whole: &Vec<char>, part: &Vec<char>, at: usize) -> (holds: bool)
    ensures
        holds == stands_at(whole@, part@, at as int),
{
    if at > whole.len() || part.len() > whole.len() - at {
        return false;
    }
    let mut i: usize = 0;
    while i < part.len()
        invariant
            i <= part.len(),
            at + part.len() <= whole.len(),
            forall|j: int| 0 <= j < i ==> whole@[at + j] == #[trigger] part@[j],
        decreases part.len() - i,
    {
        if whole[at + i] != part[i] {
            assert(whole@.subrange(at as int, at + part.len())[i as int] != part@[i as int]);
            return false;
        }
        i += 1;
    }
    assert(whole@.subrange(at as int, at + part.len()) =~= part@);
    true
}

/// Whether `part` stands somewhere in `whole`.
pub fn occurs(whole: &Vec<char>, part: &Vec<char>) -> (holds: bool)
    ensures
        holds == occurs_in(whole@, part@),
{
    let mut at: usize = 0;
    while at < whole.len()
        invariant
            at <= whole.len(),
            forall|i: int| 0 <= i < at ==> !stands_at(whole@, part@, i),
        decreases whole.len() - at,
    {
        if is_at(whole, part, at) {
            return true;
        }
        at += 1;
    }
    is_at(whole, part, at)
}

/// The character of a decimal digit.
pub open spec fn digit_char(digit: int) -> char {
    (('0' as u8 + digit) as u8) as char
}

/// A number in decimal, without leading zeros.
pub open spec fn decimal(n: nat) -> Seq<char>
    decreases n,
{
    if n < 10 {
        seq![digit_char(n as int)]
    } else {
        decimal(n / 10).push(digit_char(n as int % 10))
    }
}

fn push_digit(out: &mut String, digit: u32)
    requires
        digit < 10,
    ensures
        final(out)@ == old(out)@.push(digit_char(digit as int)),
{
    proof {
        reveal_strlit("0");
        reveal_strlit("1");
        reveal_strlit("2");
        reveal_strlit("3");
        reveal_strlit("4");
        reveal_strlit("5");
        reveal_strlit("6");
        reveal_strlit("7");
        reveal_strlit("8");
        reveal_strlit("9");
    }
    let ghost before = out@;
    if digit == 0 {
        out.append("0");
    } else if digit == 1 {
        out.append("1");
    } else if digit == 2 {
        out.append("2");
    } else if digit == 3 {
        out.append("3");
    } else if digit == 4 {
        out.append("4");
    } else if digit == 5 {
        out.append("5");
    } else if digit == 6 {
        out.append("6");
    } else if digit == 7 {
        out.append("7");
    } else if digit == 8 {
        out.append("8");
    } else {
        out.append("9");
    }
    assert(out@ =~= before.push(digit_char(digit as int)));
}

/// Appends a number in decimal.
pub fn push_decimal(out: &mut String, n: u32)
    ensures
        final(out)@ == old(out)@ + decimal(n as nat),
    decreases n,
{
    let ghost before = out@;
    if n >= 10 {
        push_decimal(out, n / 10);
    }
    push_digit(out, n % 10);
    assert(out@ =~= before + decimal(n as nat));
}

/// Whether a character is a decimal digit.
pub open spec fn is_digit(c: char) -> bool {
    '0' <= c <= '9'
}

/// Whether a text is made of one digit or more.
pub open spec fn all_digits(text: Seq<char>) -> bool {
    text.len() > 0 && forall|i: int| 0 <= i < text.len() ==> is_digit(#[trigger] text[i])
}

/// The number that a sequence of digits writes.
pub open spec fn digits_value(text: Seq<char>) -> int
    decreases text.len(),
{
    if text.len() == 0 {
        0
    } else {
        digits_value(text.drop_last()) * 10 + (text.last() as int - '0' as int)
    }
}

/// A text without a leading plus sign.
pub open spec fn without_plus(text: Seq<char>) -> Seq<char> {
    if text.len() > 0 && text[0] == '+' {
        text.drop_first()
    } else {
        text
    }
}

/// The number that a text writes: an optional plus sign and digits alone.
pub open spec fn parsed_u64(text: Seq<char>) -> Option<u64> {
    let digits = without_plus(text);
    if all_digits(digits) && digits_value(digits) <= u64::MAX {
        Some(digits_value(digits) as u64)
    } else {
        None
    }
}

proof fn lemma_digits_value_grows(text: Seq<char>, upto: int)
    requires
        all_digits(text),
        0 <= upto <= text.len(),
    ensures
        0 <= digits_value(text.take(upto)) <= digits_value(text),
    decreases text.len(),
{
    if upto == text.len() {
        assert(text.take(upto) =~= text);
        if text.len() > 1 {
            assert(all_digits(text.drop_last()));
            lemma_digits_value_grows(text.drop_last(), text.len() - 1);
        } else {
            assert(text.drop_last().len() == 0);
        }
        assert(text.drop_last().take(text.len() - 1) =~= text.drop_last());
        assert(is_digit(text[text.len() - 1]));
    } else {
        assert(is_digit(text[text.len() - 1]));
        if text.len() > 1 {
            assert(all_digits(text.drop_last()));
            lemma_digits_value_grows(text.drop_last(), upto);
        }
        assert(text.take(upto) =~= text.drop_last().take(upto));
    }
}

/// Reads a decimal number: an optional plus sign and digits alone.
pub fn parse_u64(text: &str) -> (number: Option<u64>)
    ensures
        number == parsed_u64(text@),
{
    let chars = chars_of(text);
    let start: usize = if chars.len() > 0 && chars[0] == '+' {
        1
    } else {
        0
    };
    let ghost digits = without_plus(text@);
    assert(digits =~= text@.skip(start as int));
    if start == chars.len() {
        return None;
    }
    let mut value: u64 = 0;
    let mut i: usize = start;
    assert(digits.take(0) =~= Seq::<char>::empty());
    while i < chars.len()
        invariant
            chars@ == text@,
            start <= i <= chars.len(),
            digits == text@.skip(start as int),
            digits == without_plus(text@),
            digits.len() > 0,
            forall|j: int| 0 <= j < i - start ==> is_digit(#[trigger] digits[j]),
            value == digits_value(digits.take(i - start)),
        decreases chars.len() - i,
    {
        let c = chars[i];
        assert(c == digits[i - start]);
        if !('0' <= c && c <= '9') {
            return None;
        }
        let digit: u64 = c as u64 - '0' as u64;
        proof {
            let next = digits.take(i - start + 1);
            assert(next.drop_last() =~= digits.take(i - start));
            assert(next.last() == c);
            if all_digits(digits) {
                lemma_digits_value_grows(digits, i - start + 1);
            }
        }
        let shifted: u64 = match value.checked_mul(10) {
            Some(shifted) => shifted,
            None => return None,
        };
        value = match shifted.checked_add(digit) {
            Some(sum) => sum,
            None => return None,
        };
        i += 1;
    }
    assert(digits.take(i - start) =~= digits);
    Some(value)
}

/// Where texts first differ, the smaller code point comes first.
pub proof fn first_difference_decides(a: Seq<char>, b: Seq<char>, at: int)
    requires
        0 <= at < a.len(),
        at < b.len(),
        forall|i: int| 0 <= i < at ==> #[trigger] a[i] == b[i],
        a[at] != b[at],
    ensures
        text_le(a, b) <==> (a[at] as int) < (b[at] as int),
    decreases at,
{
    if at > 0 {
        assert(a[0] == b[0]);
        let (s, t) = (a.drop_first(), b.drop_first());
        assert forall|i: int| 0 <= i < at - 1 implies #[trigger] s[i] == t[i] by {
            assert(a[i + 1] == b[i + 1]);
        }
        first_difference_decides(s, t, at - 1);
    }
}

/// A text comes before every text that it starts, and behind none of them but
/// itself.
pub proof fn beginnings_come_first(a: Seq<char>, b: Seq<char>)
    requires
        a.len() <= b.len(),
        forall|i: int| 0 <= i < a.len() ==> #[trigger] a[i] == b[i],
    ensures
        text_le(a, b),
        a.len() < b.len() ==> !text_le(b, a),
    decreases a.len(),
{
    if a.len() > 0 {
        assert(a[0] == b[0]);
        let (s, t) = (a.drop_first(), b.drop_first());
        assert forall|i: int| 0 <= i < s.len() implies #[trigger] s[i] == t[i] by {
            assert(a[i + 1] == b[i + 1]);
        }
        beginnings_come_first(s, t);
    }
}

/// The white space characters are the twenty-five of Unicode.
pub proof fn white_space_is_that_of_unicode(c: char)
    ensures
        is_white_space(c) <==> {
            let code = c as int;
            ||| 0x9 <= code <= 0xd
            ||| code == 0x20 || code == 0x85 || code == 0xa0 || code == 0x1680
            ||| 0x2000 <= code <= 0x200a
            ||| code == 0x2028 || code == 0x2029 || code == 0x202f || code == 0x205f || code
                == 0x3000
        },
{
}

/// Whether a text is white space, then `inner`, then white space, with no white
/// space at either end of `inner`.
pub open spec fn stands_between_white_space(text: Seq<char>, inner: Seq<char>) -> bool {
    exists|from: int, to: int|
        {
            &&& 0 <= from <= to <= text.len()
            &&& inner == #[trigger] text.subrange(from, to)
            &&& forall|i: int| 0 <= i < from ==> is_white_space(#[trigger] text[i])
            &&& forall|i: int| to <= i < text.len() ==> is_white_space(#[trigger] text[i])
            &&& from < to ==> !is_white_space(text[from]) && !is_white_space(text[to - 1])
        }
}

proof fn lemma_trimmed_front(text: Seq<char>) -> (from: int)
    ensures
        0 <= from <= text.len(),
        trimmed_front(text) == text.skip(from),
        forall|i: int| 0 <= i < from ==> is_white_space(#[trigger] text[i]),
        from < text.len() ==> !is_white_space(text[from]),
    decreases text.len(),
{
    if text.len() > 0 && is_white_space(text[0]) {
        let from = lemma_trimmed_front(text.drop_first());
        assert(text.drop_first().skip(from) =~= text.skip(from + 1));
        assert forall|i: int| 0 <= i < from + 1 implies is_white_space(#[trigger] text[i]) by {
            if i > 0 {
                assert(is_white_space(text.drop_first()[i - 1]));
            }
        }
        from + 1
    } else {
        assert(text.skip(0) =~= text);
        0
    }
}

proof fn lemma_trimmed_back(text: Seq<char>) -> (to: int)
    ensures
        0 <= to <= text.len(),
        trimmed_back(text) == text.take(to),
        forall|i: int| to <= i < text.len() ==> is_white_space(#[trigger] text[i]),
        0 < to ==> !is_white_space(text[to - 1]),
    decreases text.len(),
{
    if text.len() > 0 && is_white_space(text.last()) {
        let to = lemma_trimmed_back(text.drop_last());
        assert(text.drop_last().take(to) =~= text.take(to));
        assert forall|i: int| to <= i < text.len() implies is_white_space(#[trigger] text[i]) by {
            if i < text.len() - 1 {
                assert(is_white_space(text.drop_last()[i]));
            }
        }
        to
    } else {
        assert(text.take(text.len() as int) =~= text);
        text.len() as int
    }
}

/// Trimming takes the white space around a text, all of it, and nothing else.
pub proof fn trimming_takes_white_space_only(text: Seq<char>)
    ensures
        stands_between_white_space(text, trimmed(text)),
{
    let from = lemma_trimmed_front(text);
    let rest = text.skip(from);
    let to = lemma_trimmed_back(rest);
    assert(rest.take(to) =~= text.subrange(from, from + to));
    assert forall|i: int| from + to <= i < text.len() implies is_white_space(
        #[trigger] text[i],
    ) by {
        assert(is_white_space(rest[i - from]));
    }
    assert(0 < to ==> rest[to - 1] == text[from + to - 1]);
}

/// What stands between the white space of a text is what trimming leaves of it.
pub proof fn trimming_is_exact(text: Seq<char>, inner: Seq<char>)
    requires
        stands_between_white_space(text, inner),
    ensures
        trimmed(text) == inner,
{
    let (from, to) = choose|from: int, to: int|
        {
            &&& 0 <= from <= to <= text.len()
            &&& inner == #[trigger] text.subrange(from, to)
            &&& forall|i: int| 0 <= i < from ==> is_white_space(#[trigger] text[i])
            &&& forall|i: int| to <= i < text.len() ==> is_white_space(#[trigger] text[i])
            &&& from < to ==> !is_white_space(text[from]) && !is_white_space(text[to - 1])
        };
    let start = lemma_trimmed_front(text);
    let rest = text.skip(start);
    let length = lemma_trimmed_back(rest);
    let end = start + length;
    assert(rest.take(length) =~= text.subrange(start, end));
    assert forall|i: int| end <= i < text.len() implies is_white_space(#[trigger] text[i]) by {
        assert(is_white_space(rest[i - start]));
    }
    assert(0 < length ==> rest[length - 1] == text[end - 1]);
    if from < to {
        assert(!is_white_space(text[from]));
        assert(start <= from);
        assert(start == from);
        assert(!is_white_space(text[to - 1]));
        assert(end == to);
    } else {
        assert forall|i: int| 0 <= i < text.len() implies is_white_space(#[trigger] text[i]) by {}
        assert(length == 0);
        assert(text.subrange(start, end) =~= inner);
    }
}

/// Upper case keeps the length, raises the twenty-six small letters of ASCII to
/// their capitals, and keeps every other character.
pub proof fn upper_case_goes_letter_by_letter(text: Seq<char>, i: int)
    requires
        0 <= i < text.len(),
    ensures
        ascii_upper(text).len() == text.len(),
        97 <= text[i] as int <= 122 ==> ascii_upper(text)[i] as int == text[i] as int - 32,
        !(97 <= text[i] as int <= 122) ==> ascii_upper(text)[i] == text[i],
{
}

/// A part stands at a place exactly where it agrees with the text character by
/// character, and occurs exactly where it stands at some place.
pub proof fn parts_agree_character_by_character(whole: Seq<char>, part: Seq<char>, at: int)
    ensures
        stands_at(whole, part, at) <==> {
            &&& 0 <= at
            &&& at + part.len() <= whole.len()
            &&& forall|i: int| 0 <= i < part.len() ==> #[trigger] part[i] == whole[at + i]
        },
        stands_at(whole, part, at) ==> occurs_in(whole, part),
        occurs_in(whole, part) ==> exists|place: int| #[trigger] stands_at(whole, part, place),
{
    if 0 <= at && at + part.len() <= whole.len() {
        let cut = whole.subrange(at, at + part.len());
        if forall|i: int| 0 <= i < part.len() ==> #[trigger] part[i] == whole[at + i] {
            assert(cut =~= part);
        }
        if cut == part {
            assert forall|i: int| 0 <= i < part.len() implies #[trigger] part[i] == whole[at
                + i] by {
                assert(cut[i] == whole[at + i]);
            }
        }
    }
}

/// The value of a sequence of digits goes by tens: a further digit adds itself to
/// ten times the value.
pub proof fn digits_go_by_tens(text: Seq<char>, c: char)
    ensures
        digits_value(Seq::<char>::empty()) == 0,
        digits_value(text.push(c)) == digits_value(text) * 10 + (c as int - 48),
{
    assert(text.push(c).drop_last() =~= text);
}

proof fn lemma_decimal_digits(n: nat)
    ensures
        all_digits(decimal(n)),
        digits_value(decimal(n)) == n,
        n > 0 ==> decimal(n)[0] != '0',
    decreases n,
{
    let last = n as int % 10;
    assert(decimal(n).last() == digit_char(last));
    assert(digit_char(last) as int - '0' as int == last);
    if n < 10 {
        assert(decimal(n).drop_last() =~= Seq::<char>::empty());
        assert(digits_value(decimal(n).drop_last()) == 0);
    } else {
        lemma_decimal_digits(n / 10);
        assert(decimal(n).drop_last() =~= decimal(n / 10));
        assert forall|i: int| 0 <= i < decimal(n).len() implies is_digit(
            #[trigger] decimal(n)[i],
        ) by {
            if i < decimal(n / 10).len() {
                assert(is_digit(decimal(n / 10)[i]));
            }
        }
    }
}

/// A number that is written in decimal reads back as itself, with or without a
/// plus sign, and is written without leading zeros.
pub proof fn written_numbers_read_back(n: u64)
    ensures
        parsed_u64(decimal(n as nat)) == Some(n),
        parsed_u64(seq!['+'] + decimal(n as nat)) == Some(n),
        n > 0 ==> decimal(n as nat)[0] != '0',
        n == 0 ==> decimal(n as nat) == seq!['0'],
        forall|i: int|
            0 <= i < decimal(n as nat).len() ==> 48 <= (#[trigger] decimal(n as nat)[i]) as int
                <= 57,
{
    lemma_decimal_digits(n as nat);
    let text = decimal(n as nat);
    assert(is_digit(text[0]));
    assert((seq!['+'] + text).drop_first() =~= text);
    assert forall|i: int| 0 <= i < text.len() implies 48 <= (#[trigger] text[i]) as int <= 57 by {
        assert(is_digit(text[i]));
    }
    if n == 0 {
        assert(text =~= seq!['0']);
    }
}

/// Whether every character is one of the ten digits.
pub open spec fn is_digits_alone(text: Seq<char>) -> bool {
    text.len() > 0 && forall|i: int|
        0 <= i < text.len() ==> 48 <= (#[trigger] text[i]) as int <= 57
}

/// What reads as a number is a sequence of digits, behind a plus sign or not, and
/// nothing else; the number is the value of the digits, and every such sequence
/// reads as a number unless 64 bits cannot hold its value.
pub proof fn only_digits_read_as_numbers(text: Seq<char>)
    ensures
        text.len() == 0 || text[0] != '+' ==> (parsed_u64(text) is Some <==> is_digits_alone(text)
            && digits_value(text) <= 0xffff_ffff_ffff_ffff),
        text.len() == 0 || text[0] != '+' ==> (parsed_u64(text) matches Some(n) ==> n
            == digits_value(text)),
        parsed_u64(seq!['+'] + text) is Some <==> is_digits_alone(text) && digits_value(text)
            <= 0xffff_ffff_ffff_ffff,
        parsed_u64(seq!['+'] + text) matches Some(n) ==> n == digits_value(text),
{
    assert((seq!['+'] + text).drop_first() =~= text);
    if all_digits(text) {
        assert forall|i: int| 0 <= i < text.len() implies 48 <= (#[trigger] text[i]) as int
            <= 57 by {
            assert(is_digit(text[i]));
        }
        lemma_digits_value_grows(text, text.len() as int);
        assert(text.take(text.len() as int) =~= text);
    }
    assert(is_digits_alone(text) ==> all_digits(text));
}

} // verus!
