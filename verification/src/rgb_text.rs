//! Colours written as text: three numbers from 0 to 255 with commas between them.

use vstd::prelude::*;
use crate::frame::chars_of;

verus! {

/// Why a text is no colour.
#[derive(Debug, Clone, Copy, PartialEq, Eq, Structural)]
pub enum ColorParseError {
    /// The text does not have three parts with commas between them.
    Format,
    /// One of the three parts is not a number from 0 to 255.
    Number,
}

/// The commas in a text.
pub open spec fn comma_count(s: Seq<char>) -> nat
    decreases s.len(),
{
    if s.len() == 0 {
        0
    } else {
        comma_count(s.drop_last()) + if s.last() == ',' {
            1nat
        } else {
            0nat
        }
    }
}

/// The place of the first comma at or behind `from`, and the length of the text
/// where there is none.
pub open spec fn first_comma(s: Seq<char>, from: int) -> int
    decreases s.len() - from,
{
    if from < 0 || from >= s.len() {
        s.len() as int
    } else if s[from] == ',' {
        from
    } else {
        first_comma(s, from + 1)
    }
}

/// White space, as Unicode has it.
pub open spec fn is_space(c: char) -> bool {
    ||| ('\u{0009}' <= c && c <= '\u{000D}')
    ||| c == ' '
    ||| c == '\u{0085}'
    ||| c == '\u{00A0}'
    ||| c == '\u{1680}'
    ||| ('\u{2000}' <= c && c <= '\u{200A}')
    ||| c == '\u{2028}'
    ||| c == '\u{2029}'
    ||| c == '\u{202F}'
    ||| c == '\u{205F}'
    ||| c == '\u{3000}'
}

/// A text without the white space at its start.
pub open spec fn trimmed_start(s: Seq<char>) -> Seq<char>
    decreases s.len(),
{
    if s.len() > 0 && is_space(s[0]) {
        trimmed_start(s.drop_first())
    } else {
        s
    }
}

/// A text without the white space at its end.
pub open spec fn trimmed_end(s: Seq<char>) -> Seq<char>
    decreases s.len(),
{
    if s.len() > 0 && is_space(s.last()) {
        trimmed_end(s.drop_last())
    } else {
        s
    }
}

/// A text without the white space at either end.
pub open spec fn trimmed(s: Seq<char>) -> Seq<char> {
    trimmed_end(trimmed_start(s))
}

/// Whether a character is one of the digits 0 to 9.
pub open spec fn is_digit(c: char) -> bool {
    '0' <= c && c <= '9'
}

/// Whether a text is made of digits, and of one at least.
pub open spec fn is_digits(s: Seq<char>) -> bool {
    s.len() > 0 && forall|i: int| 0 <= i < s.len() ==> is_digit(#[trigger] s[i])
}

/// The number that a text of digits writes in base ten.
pub open spec fn digits_value(s: Seq<char>) -> nat
    decreases s.len(),
{
    if s.len() == 0 {
        0
    } else {
        (digits_value(s.drop_last()) * 10 + (s.last() as int - '0' as int)) as nat
    }
}

/// The channel that a text writes: digits, with or without a plus sign before
/// them, that make a number up to 255.
pub open spec fn channel_of(s: Seq<char>) -> Option<u8> {
    let digits = if s.len() > 0 && s[0] == '+' {
        s.drop_first()
    } else {
        s
    };
    if is_digits(digits) && digits_value(digits) <= 255 {
        Some(digits_value(digits) as u8)
    } else {
        None
    }
}

/// The colour that a text writes. The text must hold two commas. The three parts
/// that they divide it into are read without the white space around them.
pub open spec fn parsed_rgb(s: Seq<char>) -> Result<(u8, u8, u8), ColorParseError> {
    if comma_count(s) != 2 {
        Err(ColorParseError::Format)
    } else {
        let i = first_comma(s, 0);
        let j = first_comma(s, i + 1);
        match (
            channel_of(trimmed(s.subrange(0, i))),
            channel_of(trimmed(s.subrange(i + 1, j))),
            channel_of(trimmed(s.subrange(j + 1, s.len() as int))),
        ) {
            (Some(r), Some(g), Some(b)) => Ok((r, g, b)),
            _ => Err(ColorParseError::Number),
        }
    }
}

/// A text of digits writes at least what any of its beginnings writes.
proof fn lemma_digits_value_grows(s: Seq<char>, k: int)
    requires
        0 <= k <= s.len(),
        forall|i: int| 0 <= i < s.len() ==> is_digit(#[trigger] s[i]),
    ensures
        digits_value(s.take(k)) <= digits_value(s),
    decreases s.len() - k,
{
    if k < s.len() {
        lemma_digits_value_grows(s, k + 1);
        assert(s.take(k + 1).drop_last() =~= s.take(k));
    } else {
        assert(s.take(k) =~= s);
    }
}

/// Whether a character is white space.
fn is_whitespace(c: char) -> (r: bool)
    ensures
        r == is_space(c),
{
    ('\u{0009}' <= c && c <= '\u{000D}') || c == ' ' || c == '\u{0085}' || c == '\u{00A0}' || c
        == '\u{1680}' || ('\u{2000}' <= c && c <= '\u{200A}') || c == '\u{2028}' || c == '\u{2029}'
        || c == '\u{202F}' || c == '\u{205F}' || c == '\u{3000}'
}

/// Reads the channel written between `start` and `end`.
fn parse_channel(chars: &Vec<char>, start: usize, end: usize) -> (r: Option<u8>)
    requires
        start <= end <= chars@.len(),
    ensures
        r == channel_of(trimmed(chars@.subrange(start as int, end as int))),
{
    let ghost part = chars@.subrange(start as int, end as int);
    let mut lo: usize = start;
    while lo < end && is_whitespace(chars[lo])
        invariant
            start <= lo <= end <= chars@.len(),
            trimmed_start(part) == trimmed_start(chars@.subrange(lo as int, end as int)),
        decreases end - lo,
    {
        proof {
            assert(chars@.subrange(lo as int, end as int).drop_first() =~= chars@.subrange(
                lo + 1,
                end as int,
            ));
        }
        lo += 1;
    }
    assert(trimmed_start(part) == chars@.subrange(lo as int, end as int));
    let mut hi: usize = end;
    while hi > lo && is_whitespace(chars[hi - 1])
        invariant
            lo <= hi <= end <= chars@.len(),
            trimmed(part) == trimmed_end(chars@.subrange(lo as int, hi as int)),
        decreases hi - lo,
    {
        proof {
            assert(chars@.subrange(lo as int, hi as int).drop_last() =~= chars@.subrange(
                lo as int,
                hi - 1,
            ));
        }
        hi -= 1;
    }
    assert(trimmed(part) == chars@.subrange(lo as int, hi as int));
    let ghost text = chars@.subrange(lo as int, hi as int);
    let mut k: usize = lo;
    if k < hi && chars[k] == '+' {
        k += 1;
    }
    let first: usize = k;
    let ghost digits = chars@.subrange(first as int, hi as int);
    proof {
        if first > lo {
            assert(text.drop_first() =~= digits);
        } else {
            assert(text =~= digits);
        }
    }
    let ghost expected = channel_of(trimmed(part));
    assert(expected == if is_digits(digits) && digits_value(digits) <= 255 {
        Some(digits_value(digits) as u8)
    } else {
        None
    });
    if first == hi {
        return None;
    }
    let mut value: u32 = 0;
    proof {
        assert(digits.take(0) =~= Seq::<char>::empty());
    }
    while k < hi
        invariant
            first <= k <= hi <= chars@.len(),
            first < hi,
            digits == chars@.subrange(first as int, hi as int),
            expected == channel_of(trimmed(chars@.subrange(start as int, end as int))),
            expected == if is_digits(digits) && digits_value(digits) <= 255 {
                Some(digits_value(digits) as u8)
            } else {
                None
            },
            forall|i: int| 0 <= i < k - first ==> is_digit(#[trigger] digits[i]),
            value as nat == digits_value(digits.take(k - first)),
            value <= 255,
        decreases hi - k,
    {
        let c = chars[k];
        if !('0' <= c && c <= '9') {
            proof {
                assert(!is_digit(digits[k - first]));
            }
            return None;
        }
        let digit: u32 = c as u32 - '0' as u32;
        proof {
            assert(digits.take(k - first + 1).drop_last() =~= digits.take(k - first));
            assert(digits.take(k - first + 1).last() == c);
        }
        value = value * 10 + digit;
        k += 1;
        if value > 255 {
            proof {
                if forall|i: int| 0 <= i < digits.len() ==> is_digit(#[trigger] digits[i]) {
                    lemma_digits_value_grows(digits, k - first);
                }
            }
            return None;
        }
    }
    proof {
        assert(digits.take(k - first) =~= digits);
    }
    Some(value as u8)
}

/// Reads a colour written as three numbers from 0 to 255 with commas between them.
/// White space around a number is passed over, and so is a plus sign before it.
pub fn parse_rgb_color(color_str: &str) -> (r: Result<(u8, u8, u8), ColorParseError>)
    ensures
        r == parsed_rgb(color_str@),
{
    let chars = chars_of(color_str);
    let mut commas: usize = 0;
    let mut first: usize = chars.len();
    let mut second: usize = chars.len();
    let mut i: usize = 0;
    proof {
        assert(chars@.take(0) =~= Seq::<char>::empty());
    }
    while i < chars.len()
        invariant
            i <= chars@.len(),
            commas <= i,
            commas as nat == comma_count(chars@.take(i as int)),
            commas <= 1 ==> second == chars@.len(),
            commas == 0 ==> first == chars@.len() && first_comma(chars@, 0) == first_comma(
                chars@,
                i as int,
            ),
            commas >= 1 ==> first < i && first as int == first_comma(chars@, 0),
            commas == 1 ==> second == chars@.len() && first_comma(chars@, first + 1) == first_comma(
                chars@,
                i as int,
            ),
            commas >= 2 ==> first < second < i && second as int == first_comma(chars@, first + 1),
        decreases chars@.len() - i,
    {
        proof {
            assert(chars@.take(i + 1).drop_last() =~= chars@.take(i as int));
        }
        if chars[i] == ',' {
            if commas == 0 {
                first = i;
            } else if commas == 1 {
                second = i;
            }
            commas += 1;
        }
        i += 1;
    }
    proof {
        assert(chars@.take(i as int) =~= chars@);
    }
    if commas != 2 {
        return Err(ColorParseError::Format);
    }
    let red = parse_channel(&chars, 0, first);
    let green = parse_channel(&chars, first + 1, second);
    let blue = parse_channel(&chars, second + 1, chars.len());
    match (red, green, blue) {
        (Some(r), Some(g), Some(b)) => Ok((r, g, b)),
        _ => Err(ColorParseError::Number),
    }
}

/// The character of a digit from 0 to 9.
pub open spec fn digit_char(d: int) -> char {
    ('0' as int + d) as char
}

/// A number from 0 to 255 written in base ten, without leading zeros.
pub open spec fn decimal(n: int) -> Seq<char> {
    if n >= 100 {
        seq![digit_char(n / 100), digit_char(n / 10 % 10), digit_char(n % 10)]
    } else if n >= 10 {
        seq![digit_char(n / 10), digit_char(n % 10)]
    } else {
        seq![digit_char(n)]
    }
}

/// A colour written as text: red, green and blue in base ten, with a comma after
/// red and after green.
pub open spec fn written_rgb(color: (u8, u8, u8)) -> Seq<char> {
    decimal(color.0 as int) + seq![','] + decimal(color.1 as int) + seq![','] + decimal(
        color.2 as int,
    )
}

/// Writes one digit behind a text.
fn push_digit(text: &mut String, d: u8)
    requires
        d <= 9,
    ensures
        final(text)@ == old(text)@.push(digit_char(d as int)),
{
    text.push((48u8 + d) as char);
}

/// Writes a number in base ten behind a text.
fn push_decimal(text: &mut String, n: u8)
    ensures
        final(text)@ == old(text)@ + decimal(n as int),
{
    let ghost before = text@;
    if n >= 100 {
        push_digit(text, n / 100);
        push_digit(text, n / 10 % 10);
        push_digit(text, n % 10);
    } else if n >= 10 {
        push_digit(text, n / 10);
        push_digit(text, n % 10);
    } else {
        push_digit(text, n);
    }
    assert(text@ =~= before + decimal(n as int));
}

/// Writes a colour as text, in the form that `parse_rgb_color` reads.
pub fn format_rgb_color(color: (u8, u8, u8)) -> (text: String)
    ensures
        text@ == written_rgb(color),
{
    let mut text = String::new();
    push_decimal(&mut text, color.0);
    text.push(',');
    push_decimal(&mut text, color.1);
    text.push(',');
    push_decimal(&mut text, color.2);
    assert(text@ =~= written_rgb(color));
    text
}

/// The commas of two texts joined are those of the one and those of the other.
proof fn lemma_comma_count_joined(a: Seq<char>, b: Seq<char>)
    ensures
        comma_count(a + b) == comma_count(a) + comma_count(b),
    decreases b.len(),
{
    if b.len() == 0 {
        assert(a + b =~= a);
    } else {
        lemma_comma_count_joined(a, b.drop_last());
        assert((a + b).drop_last() =~= a + b.drop_last());
    }
}

/// A text without commas has no first comma, and joined to a text that starts with
/// a comma has its first comma where the first text ends.
proof fn lemma_first_comma_behind(a: Seq<char>, rest: Seq<char>, from: int)
    requires
        0 <= from <= a.len(),
        forall|i: int| 0 <= i < a.len() ==> a[i] != ',',
        rest.len() == 0 || rest[0] == ',',
    ensures
        first_comma(a + rest, from) == a.len(),
    decreases a.len() - from,
{
    if from < a.len() {
        assert((a + rest)[from] == a[from]);
        lemma_first_comma_behind(a, rest, from + 1);
    } else if rest.len() > 0 {
        assert((a + rest)[from] == rest[0]);
    }
}

/// What a text writes and how many commas it holds, once a character is added
/// behind it.
proof fn lemma_pushed(s: Seq<char>, c: char)
    ensures
        is_digit(c) ==> digits_value(s.push(c)) == digits_value(s) * 10 + (c as int - '0' as int),
        comma_count(s.push(c)) == comma_count(s) + if c == ',' {
            1nat
        } else {
            0nat
        },
        digits_value(Seq::<char>::empty()) == 0,
        comma_count(Seq::<char>::empty()) == 0,
{
    assert(s.push(c).drop_last() =~= s);
    assert(s.push(c).last() == c);
    assert(digits_value(s) >= 0);
}

/// A number from 0 to 255, written, is read as itself; and what is written holds
/// digits only.
proof fn lemma_decimal_is_read(n: int)
    requires
        0 <= n <= 255,
    ensures
        channel_of(trimmed(decimal(n))) == Some(n as u8),
        comma_count(decimal(n)) == 0,
        forall|i: int| 0 <= i < decimal(n).len() ==> (#[trigger] decimal(n)[i]) != ',',
{
    let d = decimal(n);
    let none = Seq::<char>::empty();
    assert(forall|k: int| 0 <= k <= 9 ==> is_digit(#[trigger] digit_char(k)) && digit_char(k) as int
        == '0' as int + k);
    assert(forall|c: char| is_digit(c) ==> !is_space(c) && c != ',' && c != '+');
    if n >= 100 {
        let (a, b, c) = (digit_char(n / 100), digit_char(n / 10 % 10), digit_char(n % 10));
        assert(d =~= none.push(a).push(b).push(c));
        lemma_pushed(none, a);
        lemma_pushed(none.push(a), b);
        lemma_pushed(none.push(a).push(b), c);
    } else if n >= 10 {
        let (a, b) = (digit_char(n / 10), digit_char(n % 10));
        assert(d =~= none.push(a).push(b));
        lemma_pushed(none, a);
        lemma_pushed(none.push(a), b);
    } else {
        let a = digit_char(n);
        assert(d =~= none.push(a));
        lemma_pushed(none, a);
    }
    assert(digits_value(d) == n);
    assert(is_digits(d));
    assert(!is_space(d[0]) && !is_space(d.last()));
    assert(trimmed_start(d) == d);
    assert(trimmed_end(d) == d);
}

/// What `format_rgb_color` writes, `parse_rgb_color` reads as the same colour.
pub proof fn lemma_written_is_read(color: (u8, u8, u8))
    ensures
        parsed_rgb(written_rgb(color)) == Ok::<(u8, u8, u8), ColorParseError>(color),
{
    let red = decimal(color.0 as int);
    let green = decimal(color.1 as int);
    let blue = decimal(color.2 as int);
    let comma = seq![','];
    let text = written_rgb(color);
    lemma_decimal_is_read(color.0 as int);
    lemma_decimal_is_read(color.1 as int);
    lemma_decimal_is_read(color.2 as int);
    assert(comma_count(comma) == 1) by {
        lemma_pushed(Seq::<char>::empty(), ',');
        assert(comma =~= Seq::<char>::empty().push(','));
    }
    lemma_comma_count_joined(red, comma);
    lemma_comma_count_joined(red + comma, green);
    lemma_comma_count_joined(red + comma + green, comma);
    lemma_comma_count_joined(red + comma + green + comma, blue);
    assert(comma_count(text) == 2);

    let behind_red = comma + green + comma + blue;
    assert(text =~= red + behind_red);
    lemma_first_comma_behind(red, behind_red, 0);
    let i = first_comma(text, 0);
    assert(i == red.len());

    // From behind the first comma on, the text is green, a comma and blue.
    let upto_green = red + comma + green;
    let behind_green = comma + blue;
    assert(text =~= upto_green + behind_green);
    lemma_first_comma_from(text, upto_green, behind_green, red.len() as int + 1);
    let j = first_comma(text, i + 1);
    assert(j == upto_green.len());

    assert(text.subrange(0, i) =~= red);
    assert(text.subrange(i + 1, j) =~= green);
    assert(text.subrange(j + 1, text.len() as int) =~= blue);
}

/// In a text joined of a head and a tail that starts with a comma, the first comma
/// behind a place from which the head holds no comma is where the head ends.
proof fn lemma_first_comma_from(text: Seq<char>, head: Seq<char>, tail: Seq<char>, from: int)
    requires
        text == head + tail,
        0 <= from <= head.len(),
        forall|i: int| from <= i < head.len() ==> head[i] != ',',
        tail.len() > 0 && tail[0] == ',',
    ensures
        first_comma(text, from) == head.len(),
    decreases head.len() - from,
{
    if from < head.len() {
        assert(text[from] == head[from]);
        lemma_first_comma_from(text, head, tail, from + 1);
    } else {
        assert(text[from] == tail[0]);
    }
}

} // verus!
