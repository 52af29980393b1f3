//! Decimal numbers as text, and the pieces that texts are put together from.

use vstd::prelude::*;

verus! {

/// The decimal digit of `d`.
pub open spec fn digit(d: int) -> char {
    (48 + d) as char
}

/// The decimal digits of `n`, without leading zeros.
pub open spec fn digits(n: nat) -> Seq<char>
    decreases n,
{
    if n < 10 {
        seq![digit(n as int)]
    } else {
        digits(n / 10).push(digit((n % 10) as int))
    }
}

/// `n` in decimal, with a minus sign before a negative number.
pub open spec fn decimal(n: int) -> Seq<char> {
    if n < 0 {
        seq!['-'] + digits((-n) as nat)
    } else {
        digits(n as nat)
    }
}

/// Whether `text` is made of decimal digits alone.
pub open spec fn all_digits(text: Seq<char>) -> bool {
    forall|i: int| 0 <= i < text.len() ==> '0' <= #[trigger] text[i] <= '9'
}

/// The number that the digits of `text` write.
pub open spec fn digits_value(text: Seq<char>) -> int
    decreases text.len(),
{
    if text.len() == 0 {
        0
    } else {
        digits_value(text.drop_last()) * 10 + (text.last() as int - 48)
    }
}

/// Whether `text` starts with a sign.
pub open spec fn has_sign(text: Seq<char>) -> bool {
    text.len() > 0 && (text[0] == '-' || text[0] == '+')
}

/// The part of `text` behind its sign.
pub open spec fn unsigned_part(text: Seq<char>) -> Seq<char> {
    if has_sign(text) {
        text.skip(1)
    } else {
        text
    }
}

/// The number that `text` writes: an optional sign, then one digit or more.
pub open spec fn signed_value(text: Seq<char>) -> int {
    let value = digits_value(unsigned_part(text));
    if has_sign(text) && text[0] == '-' {
        -value
    } else {
        value
    }
}

/// What `text` reads as: a number of 32 bits in decimal with an optional sign.
pub open spec fn i32_value(text: Seq<char>) -> Option<i32> {
    let value = signed_value(text);
    if unsigned_part(text).len() > 0 && all_digits(unsigned_part(text)) && i32::MIN <= value
        <= i32::MAX {
        Some(value as i32)
    } else {
        None
    }
}

/// The characters of a text.
pub(crate) fn chars_of(text: &str) -> (chars: Vec<char>)
    ensures
        chars@ == text@,
{
    let mut chars: Vec<char> = Vec::new();
    for c in it: text.chars()
        invariant
            it.seq() == text@,
            chars@ == text@.take(it.index()),
    {
        chars.push(c);
    }
    chars
}

fn digit_text(d: u8) -> (text: &'static str)
    requires
        d < 10,
    ensures
        text@ == seq![digit(d as int)],
{
    proof {
        reveal_strlit("0");
        reveal_strlit("1");
        reveal_strlit("2");
        reveal_strlit("3");
        reveal_strlit("4");
        reveal_strlit("5");
        reveal_strlit("6");
        reveal_strlit("7");
        reveal_strlit("8");
        reveal_strlit("9");
    }
    match d {
        0 => "0",
        1 => "1",
        2 => "2",
        3 => "3",
        4 => "4",
        5 => "5",
        6 => "6",
        7 => "7",
        8 => "8",
        _ => "9",
    }
}

fn digits_text(n: u64) -> (text: String)
    ensures
        text@ == digits(n as nat),
    decreases n,
{
    let last = digit_text((n % 10) as u8);
    if n < 10 {
        last.to_owned()
    } else {
        let mut text = digits_text(n / 10);
        text.append(last);
        text
    }
}

/// Writes `n` in decimal.
pub fn decimal_text(n: i64) -> (text: String)
    ensures
        text@ == decimal(n as int),
{
    if n < 0 {
        let magnitude: u64 = (-(n + 1)) as u64 + 1;
        let mut text = "-".to_owned();
        proof {
            reveal_strlit("-");
        }
        let tail = digits_text(magnitude);
        text.append(tail.as_str());
        text
    } else {
        digits_text(n as u64)
    }
}

/// Reads a decimal number of 32 bits from the characters at `from` and behind.
pub(crate) fn read_i32(chars: &Vec<char>, from: usize) -> (value: Option<i32>)
    requires
        from <= chars.len(),
    ensures
        value == i32_value(chars@.skip(from as int)),
{
    let ghost text = chars@.skip(from as int);
    let signed = from < chars.len() && (chars[from] == '-' || chars[from] == '+');
    let negative = signed && chars[from] == '-';
    let start: usize = if signed { from + 1 } else { from };
    let ghost number = unsigned_part(text);
    assert(number == chars@.skip(start as int));
    if start == chars.len() {
        return None;
    }
    let limit: u64 = 0x8000_0000;
    let mut value: u64 = 0;
    let mut i: usize = start;
    assert(number.take(0) == Seq::<char>::empty());
    while i < chars.len()
        invariant
            from <= start <= i <= chars.len(),
            number == chars@.skip(start as int),
            number == unsigned_part(chars@.skip(from as int)),
            limit == 0x8000_0000,
            all_digits(number.take(i - start)),
            value <= limit ==> value == digits_value(number.take(i - start)),
            value > limit ==> digits_value(number.take(i - start)) > limit,
            value <= limit + 1,
        decreases chars.len() - i,
    {
        let c = chars[i];
        let ghost before = number.take(i - start);
        let ghost after = number.take(i + 1 - start);
        assert(after.drop_last() == before);
        assert(after.last() == c);
        if c < '0' || c > '9' {
            assert(number[i - start] == c);
            return None;
        }
        let d: u64 = (c as u32 - 48) as u64;
        if value <= limit && value * 10 + d <= limit {
            value = value * 10 + d;
        } else {
            value = limit + 1;
        }
        assert(all_digits(after)) by {
            assert forall|j: int| 0 <= j < after.len() implies '0' <= #[trigger] after[j]
                <= '9' by {
                if j < before.len() {
                    assert(after[j] == before[j]);
                }
            }
        }
        i += 1;
    }
    assert(number.take(i - start) == number);
    if value > limit {
        None
    } else if negative {
        Some((-(value as i64)) as i32)
    } else if value < limit {
        Some(value as i32)
    } else {
        None
    }
}

/// Reads a decimal number of 32 bits, with an optional sign before it.
pub fn parse_i32(text: &str) -> (value: Option<i32>)
    ensures
        value == i32_value(text@),
{
    let chars = chars_of(text);
    assert(chars@.skip(0) == text@);
    read_i32(&chars, 0)
}

/// The digits of a number write it.
pub proof fn lemma_digits(n: nat)
    ensures
        digits(n).len() > 0,
        all_digits(digits(n)),
        digits_value(digits(n)) == n,
    decreases n,
{
    if n < 10 {
        assert(digits(n).drop_last() == Seq::<char>::empty());
        assert(digits_value(digits(n).drop_last()) == 0);
    } else {
        lemma_digits(n / 10);
        assert(digits(n).drop_last() == digits(n / 10));
    }
}

/// Every number of 32 bits reads back from its decimal text.
pub proof fn law_decimal_reads_back(n: i32)
    ensures
        i32_value(decimal(n as int)) == Some(n),
{
    let magnitude: nat = if n < 0 {
        (-n) as nat
    } else {
        n as nat
    };
    lemma_digits(magnitude);
    let text = decimal(n as int);
    if n < 0 {
        assert(text.skip(1) == digits(magnitude));
    } else {
        assert('0' <= text[0] <= '9');
    }
}

/// Every number reads back from its decimal text, which is digits alone, one or more,
/// behind a minus sign if and only if the number is negative.
pub proof fn law_decimal_writes_number(n: int)
    ensures
        signed_value(decimal(n)) == n,
        n >= 0 ==> decimal(n).len() > 0 && all_digits(decimal(n)),
        n < 0 ==> decimal(n).len() > 1 && decimal(n)[0] == '-' && all_digits(decimal(n).skip(1)),
{
    let magnitude: nat = if n < 0 {
        (-n) as nat
    } else {
        n as nat
    };
    lemma_digits(magnitude);
    let text = decimal(n);
    if n < 0 {
        assert(text.skip(1) == digits(magnitude));
    } else {
        assert('0' <= text[0] <= '9');
    }
}

/// Decimal texts are written digit by digit: a number below ten is the one character of its
/// digit, and ten times a number and a digit more is the text of the number with that digit
/// behind it.
pub proof fn law_decimal_grows_by_digits(n: nat, d: nat)
    requires
        d < 10,
    ensures
        digits(d).len() == 1,
        digits(d)[0] as int == '0' as int + d,
        n > 0 ==> digits(10 * n + d) == digits(n) + digits(d),
        n > 0 ==> decimal((10 * n + d) as int) == decimal(n as int) + decimal(d as int),
        n > 0 ==> decimal(-(n as int)) == seq!['-'] + decimal(n as int),
{
    if n > 0 {
        let longer: nat = 10 * n + d;
        assert(longer / 10 == n);
        assert(longer % 10 == d);
        assert(digits(longer) == digits(n) + digits(d));
    }
}

/// Texts of digits are read digit by digit: a digit behind a text adds to ten times what
/// the text reads as.
pub proof fn law_digits_read_as_decimal(text: Seq<char>, c: char)
    ensures
        digits_value(Seq::empty()) == 0,
        digits_value(text.push(c)) == 10 * digits_value(text) + (c as int - '0' as int),
{
    assert(text.push(c).drop_last() == text);
}

/// A text of digits reads as its number where that fits, and so does one behind a sign.
pub proof fn law_numbers_are_read(text: Seq<char>)
    requires
        text.len() > 0,
        forall|i: int| 0 <= i < text.len() ==> '0' <= #[trigger] text[i] <= '9',
    ensures
        ({
            let n = digits_value(text);
            &&& n >= 0
            &&& n <= 0x7fff_ffff ==> i32_value(text) == Some(n as i32)
            &&& n > 0x7fff_ffff ==> i32_value(text) is None
            &&& i32_value(seq!['+'] + text) == i32_value(text)
            &&& n <= 0x8000_0000 ==> i32_value(seq!['-'] + text) == Some((-n) as i32)
            &&& n > 0x8000_0000 ==> i32_value(seq!['-'] + text) is None
        }),
{
    lemma_digits_value_is_no_debt(text);
    assert((seq!['+'] + text).skip(1) == text);
    assert((seq!['-'] + text).skip(1) == text);
    assert('0' <= text[0] <= '9');
}

proof fn lemma_digits_value_is_no_debt(text: Seq<char>)
    requires
        forall|i: int| 0 <= i < text.len() ==> '0' <= #[trigger] text[i] <= '9',
    ensures
        digits_value(text) >= 0,
    decreases text.len(),
{
    if text.len() > 0 {
        let shorter = text.drop_last();
        assert forall|i: int| 0 <= i < shorter.len() implies '0' <= #[trigger] shorter[i]
            <= '9' by {
            assert(shorter[i] == text[i]);
        }
        lemma_digits_value_is_no_debt(shorter);
        assert('0' <= text[text.len() - 1] <= '9');
    }
}

/// A text that is empty, a sign alone, or holds anything but digits behind its sign, reads
/// as no number.
pub proof fn law_other_texts_are_no_numbers(text: Seq<char>, at: int)
    requires
        0 <= at < text.len(),
        !('0' <= text[at] <= '9'),
        at > 0 || (text[0] != '+' && text[0] != '-') || text.len() == 1,
    ensures
        i32_value(text) is None,
        i32_value(Seq::empty()) is None,
{
    let number = unsigned_part(text);
    if has_sign(text) && text.len() > 1 {
        assert(number[at - 1] == text[at]);
    } else if !has_sign(text) {
        assert(number[at] == text[at]);
    }
}

} // verus!
