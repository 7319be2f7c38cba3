//! Numbers as text: decimal and hexadecimal digits, and decimal numbers read
//! back.

use vstd::prelude::*;
use vstd::string::*;

verus! {

/// The character of one digit, upper case above nine.
pub open spec fn digit_char(digit: nat) -> char {
    if digit < 10 {
        (('0' as nat) + digit) as char
    } else {
        (('A' as nat) + (digit - 10)) as char
    }
}

/// The digits of a number in a base, most significant first, without leading
/// zeros.
pub open spec fn digits(n: nat, base: nat) -> Seq<char>
    recommends
        base >= 2,
    decreases n,
{
    if n < base || base < 2 {
        seq![digit_char(n)]
    } else {
        proof {
            vstd::arithmetic::div_mod::lemma_div_decreases(n as int, base as int);
        }
        digits(n / base, base).push(digit_char(n % base))
    }
}

/// A number in decimal.
pub open spec fn decimal(n: nat) -> Seq<char> {
    digits(n, 10)
}

/// A number in upper case hexadecimal, filled up with zeros on the left to a
/// least width.
pub open spec fn hex_padded(n: nat, width: nat) -> Seq<char> {
    let plain = digits(n, 16);
    if plain.len() < width {
        Seq::new((width - plain.len()) as nat, |i: int| '0') + plain
    } else {
        plain
    }
}

/// The text of one digit.
fn digit_str(digit: u64) -> (text: &'static str)
    requires
        digit < 16,
    ensures
        text@ == seq![digit_char(digit as nat)],
{
    proof {
        reveal_strlit("0");
        reveal_strlit("1");
        reveal_strlit("2");
        reveal_strlit("3");
        reveal_strlit("4");
        reveal_strlit("5");
        reveal_strlit("6");
        reveal_strlit("7");
        reveal_strlit("8");
        reveal_strlit("9");
        reveal_strlit("A");
        reveal_strlit("B");
        reveal_strlit("C");
        reveal_strlit("D");
        reveal_strlit("E");
        reveal_strlit("F");
    }
    match digit {
        0 => "0",
        1 => "1",
        2 => "2",
        3 => "3",
        4 => "4",
        5 => "5",
        6 => "6",
        7 => "7",
        8 => "8",
        9 => "9",
        10 => "A",
        11 => "B",
        12 => "C",
        13 => "D",
        14 => "E",
        _ => "F",
    }
}

/// The digits of a number in base ten or sixteen.
fn digits_text(n: u64, base: u64) -> (text: String)
    requires
        base == 10 || base == 16,
    ensures
        text@ == digits(n as nat, base as nat),
    decreases n,
{
    if n < base {
        digit_str(n).to_owned()
    } else {
        let mut text = digits_text(n / base, base);
        text.append(digit_str(n % base));
        text
    }
}

/// A number in decimal.
pub fn decimal_text(n: u64) -> (text: String)
    ensures
        text@ == decimal(n as nat),
{
    digits_text(n, 10)
}

/// A number in upper case hexadecimal, filled up with zeros to `width`.
pub fn hex_text(n: u64, width: usize) -> (text: String)
    ensures
        text@ == hex_padded(n as nat, width as nat),
{
    let plain = digits_text(n, 16);
    let length: usize = plain.as_str().unicode_len();
    let mut text = String::new();
    let mut filled: usize = length;
    while filled < width
        invariant
            length == plain@.len(),
            length <= filled,
            filled <= width || filled == length,
            text@ == Seq::new((filled - length) as nat, |i: int| '0'),
        decreases width - filled,
    {
        proof {
            reveal_strlit("0");
        }
        text.append("0");
        filled = filled + 1;
    }
    text.append(plain.as_str());
    text
}

/// Whether a character is a decimal digit.
pub open spec fn is_digit(c: char) -> bool {
    '0' <= c <= '9'
}

/// The number that a run of decimal digits stands for.
pub open spec fn digits_value(run: Seq<char>) -> nat
    decreases run.len(),
{
    if run.len() == 0 {
        0
    } else {
        10 * digits_value(run.drop_last()) + (run.last() as nat - '0' as nat) as nat
    }
}

/// The run of digits in the text of a number: all of it but a leading plus
/// sign.
pub open spec fn unsigned_part(text: Seq<char>) -> Seq<char> {
    if text.len() > 0 && text[0] == '+' {
        text.skip(1)
    } else {
        text
    }
}

/// The number that a text stands for: an optional plus sign and one or more
/// decimal digits, and nothing else.
pub open spec fn number_value(text: Seq<char>) -> Option<nat> {
    let run = unsigned_part(text);
    if run.len() > 0 && (forall|i: int| 0 <= i < run.len() ==> is_digit(#[trigger] run[i])) {
        Some(digits_value(run))
    } else {
        None
    }
}

/// The `usize` that a text stands for, where it stands for a number that fits.
pub open spec fn usize_value(text: Seq<char>) -> Option<usize> {
    match number_value(text) {
        Some(n) => if n <= usize::MAX {
            Some(n as usize)
        } else {
            None
        },
        None => None,
    }
}

proof fn lemma_digits_value_grows(run: Seq<char>, i: int)
    requires
        0 <= i <= run.len(),
        forall|j: int| 0 <= j < run.len() ==> is_digit(#[trigger] run[j]),
    ensures
        digits_value(run.take(i)) <= digits_value(run),
    decreases run.len() - i,
{
    if i == run.len() {
        assert(run.take(i) == run);
    } else {
        lemma_digits_value_grows(run, i + 1);
        assert(run.take(i + 1).drop_last() == run.take(i));
        assert(is_digit(run[i]));
    }
}

/// Reads a `usize`: an optional plus sign, then decimal digits.
pub fn parse_usize(text: &str) -> (number: Option<usize>)
    ensures
        number == usize_value(text@),
{
    let ghost run = unsigned_part(text@);
    let ghost sign: int = text@.len() - run.len();
    let mut value: usize = 0;
    let mut first: bool = true;
    let mut any_digit: bool = false;
    for c in it: text.chars()
        invariant
            it.seq() == text@,
            run == unsigned_part(text@),
            sign == text@.len() - run.len(),
            first == (it.index() == 0),
            any_digit == (it.index() > sign),
            forall|j: int| 0 <= j < it.index() - sign ==> is_digit(#[trigger] run[j]),
            value == digits_value(run.take(if any_digit { it.index() - sign } else { 0 })),
    {
        let ghost at: int = it.index() - sign;
        if first && c == '+' {
            first = false;
            assert(sign == 1);
        } else {
            assert(at >= 0 && run[at] == c);
            if !(c >= '0' && c <= '9') {
                assert(!is_digit(run[at]));
                return None;
            }
            first = false;
            any_digit = true;
            let digit: usize = (c as u32 - '0' as u32) as usize;
            assert(run.take(at + 1).drop_last() == run.take(at));
            assert(digits_value(run.take(at + 1)) == 10 * value + digit);
            if value > usize::MAX / 10 || value * 10 > usize::MAX - digit {
                proof {
                    if forall|j: int| 0 <= j < run.len() ==> is_digit(#[trigger] run[j]) {
                        lemma_digits_value_grows(run, at + 1);
                    }
                }
                return None;
            }
            value = value * 10 + digit;
        }
    }
    assert(run.take(run.len() as int) == run);
    if any_digit {
        Some(value)
    } else {
        None
    }
}

/// The number that a run of upper case hexadecimal digits stands for, most
/// significant digit first.
pub open spec fn base16_value(run: Seq<char>) -> nat
    decreases run.len(),
{
    if run.len() == 0 {
        0
    } else {
        16 * base16_value(run.drop_last()) + hex_digit_value(run.last())
    }
}

/// The number that one upper case hexadecimal digit stands for.
pub open spec fn hex_digit_value(c: char) -> nat {
    if '0' <= c <= '9' {
        (c as nat - '0' as nat) as nat
    } else {
        (c as nat - 'A' as nat + 10) as nat
    }
}

/// How runs of digits are read: an empty run is zero, and a further digit adds
/// its own value to what stands before it times the base.
pub proof fn law_digits_are_read_in_turn(run: Seq<char>, c: char)
    ensures
        digits_value(Seq::empty()) == 0,
        '0' <= c <= '9' ==> digits_value(run.push(c)) == 10 * digits_value(run) + (c as int
            - '0' as int),
        base16_value(Seq::empty()) == 0,
        '0' <= c <= '9' ==> base16_value(run.push(c)) == 16 * base16_value(run) + (c as int
            - '0' as int),
        'A' <= c <= 'F' ==> base16_value(run.push(c)) == 16 * base16_value(run) + (c as int
            - 'A' as int) + 10,
{
    assert(run.push(c).drop_last() =~= run);
}

proof fn lemma_digits_of_ten(n: nat)
    ensures
        digits(n, 10).len() > 0,
        forall|i: int| 0 <= i < digits(n, 10).len() ==> '0' <= #[trigger] digits(n, 10)[i] <= '9',
        digits_value(digits(n, 10)) == n,
        digits(n, 10)[0] == '0' ==> n == 0,
        n == 0 ==> digits(n, 10).len() == 1,
    decreases n,
{
    if n < 10 {
        let one = digits(n, 10);
        assert(one =~= Seq::empty().push(digit_char(n)));
        law_digits_are_read_in_turn(Seq::empty(), digit_char(n));
    } else {
        let front = digits(n / 10, 10);
        lemma_digits_of_ten(n / 10);
        law_digits_are_read_in_turn(front, digit_char(n % 10));
        assert(digits(n, 10) == front.push(digit_char(n % 10)));
    }
}

proof fn lemma_digits_of_sixteen(n: nat)
    ensures
        digits(n, 16).len() > 0,
        forall|i: int|
            0 <= i < digits(n, 16).len() ==> ('0' <= #[trigger] digits(n, 16)[i] <= '9' || 'A'
                <= digits(n, 16)[i] <= 'F'),
        base16_value(digits(n, 16)) == n,
        digits(n, 16)[0] == '0' ==> n == 0,
        n == 0 ==> digits(n, 16).len() == 1,
    decreases n,
{
    if n < 16 {
        let one = digits(n, 16);
        assert(one =~= Seq::empty().push(digit_char(n)));
        law_digits_are_read_in_turn(Seq::empty(), digit_char(n));
    } else {
        let front = digits(n / 16, 16);
        lemma_digits_of_sixteen(n / 16);
        law_digits_are_read_in_turn(front, digit_char(n % 16));
        assert(digits(n, 16) == front.push(digit_char(n % 16)));
    }
}

proof fn lemma_zeros_in_front(zeros: nat, run: Seq<char>)
    ensures
        base16_value(Seq::new(zeros, |i: int| '0') + run) == base16_value(run),
    decreases run.len() + zeros,
{
    let whole = Seq::new(zeros, |i: int| '0') + run;
    if run.len() > 0 {
        lemma_zeros_in_front(zeros, run.drop_last());
        assert(whole.drop_last() =~= Seq::new(zeros, |i: int| '0') + run.drop_last());
    } else if zeros > 0 {
        let fewer = (zeros - 1) as nat;
        lemma_zeros_in_front(fewer, run);
        assert(whole.drop_last() =~= Seq::new(fewer, |i: int| '0') + run);
    } else {
        assert(whole =~= run);
    }
}

/// A number in decimal has decimal digits alone, none of them a zero in front
/// of others, and read back it is the number, also as a setting.
pub proof fn law_decimal_reads_back(n: nat)
    ensures
        decimal(n).len() > 0,
        forall|i: int| 0 <= i < decimal(n).len() ==> '0' <= #[trigger] decimal(n)[i] <= '9',
        decimal(n)[0] == '0' ==> decimal(n).len() == 1,
        digits_value(decimal(n)) == n,
        number_value(decimal(n)) == Some(n),
{
    lemma_digits_of_ten(n);
}

/// A number in hexadecimal has the digits 0 to 9 and A to F alone, as many as
/// the width asks for at least; beyond the width there is no zero in front; and
/// read back it is the number.
pub proof fn law_hexadecimal_reads_back(n: nat, width: nat)
    ensures
        hex_padded(n, width).len() >= width,
        hex_padded(n, width).len() > 0,
        forall|i: int|
            0 <= i < hex_padded(n, width).len() ==> ('0' <= #[trigger] hex_padded(n, width)[i]
                <= '9' || 'A' <= hex_padded(n, width)[i] <= 'F'),
        hex_padded(n, width).len() > width && hex_padded(n, width)[0] == '0' ==> hex_padded(
            n,
            width,
        ).len() == 1,
        base16_value(hex_padded(n, width)) == n,
{
    lemma_digits_of_sixteen(n);
    let plain = digits(n, 16);
    if plain.len() < width {
        lemma_zeros_in_front((width - plain.len()) as nat, plain);
    }
}

/// Which texts are numbers, and which number each is. One digit is a number. A
/// further digit behind a number makes it ten times as large and adds the
/// digit. A plus sign in front of a number that has none changes nothing.
/// Without a digit, and with any other character, a text is no number.
pub proof fn law_numbers_are_read_in_turn(text: Seq<char>, c: char)
    ensures
        '0' <= c <= '9' ==> number_value(seq![c]) == Some((c as int - '0' as int) as nat),
        '0' <= c <= '9' ==> (number_value(text) matches Some(n) ==> number_value(text.push(c))
            == Some((10 * n + (c as int - '0' as int)) as nat)),
        number_value(text) is Some && text[0] != '+' ==> number_value(seq!['+'] + text)
            == number_value(text),
        number_value(Seq::empty()) is None,
        number_value(seq!['+']) is None,
        (exists|i: int|
            0 <= i < text.len() && !('0' <= #[trigger] text[i] <= '9') && !(i == 0 && text[i]
                == '+')) ==> number_value(text) is None,
{
    let one = seq![c];
    if '0' <= c <= '9' {
        assert(unsigned_part(one) =~= one);
        assert(one =~= Seq::empty().push(c));
        law_digits_are_read_in_turn(Seq::empty(), c);
        assert forall|i: int| 0 <= i < one.len() implies is_digit(#[trigger] one[i]) by {}
        if number_value(text) is Some {
            let run = unsigned_part(text);
            let longer = text.push(c);
            assert(unsigned_part(longer) =~= run.push(c));
            law_digits_are_read_in_turn(run, c);
            assert forall|i: int| 0 <= i < run.push(c).len() implies is_digit(
                #[trigger] run.push(c)[i],
            ) by {
                if i < run.len() {
                    assert(is_digit(run[i]));
                }
            }
        }
    }
    if number_value(text) is Some && text[0] != '+' {
        let signed = seq!['+'] + text;
        assert(unsigned_part(signed) =~= text);
    }
    assert(unsigned_part(seq!['+']) =~= Seq::empty());
    if exists|i: int|
        0 <= i < text.len() && !('0' <= #[trigger] text[i] <= '9') && !(i == 0 && text[i] == '+') {
        let i = choose|i: int|
            0 <= i < text.len() && !('0' <= #[trigger] text[i] <= '9') && !(i == 0 && text[i]
                == '+');
        let run = unsigned_part(text);
        let at = i - (text.len() - run.len());
        assert(run[at] == text[i]);
        assert(!is_digit(run[at]));
    }
}

/// A text is a `usize` if it is a number that is not too large.
pub proof fn law_usize_is_a_number_that_fits(text: Seq<char>)
    ensures
        match number_value(text) {
            Some(n) if n <= usize::MAX => usize_value(text) matches Some(value) && value == n,
            _ => usize_value(text) is None,
        },
{
}

}
