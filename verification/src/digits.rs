//! Numbers written out.

use vstd::prelude::*;

verus! {

/// The digit for `value` in bases up to sixteen; letters are small.
pub open spec fn digit(value: nat) -> char {
    if value < 10 {
        ('0' as u32 + value) as char
    } else {
        ('a' as u32 + (value - 10)) as char
    }
}

/// The numeral of `value` in `base`, without leading zeros.
pub open spec fn numeral(value: nat, base: nat) -> Seq<char>
    decreases value,
{
    if base < 2 || value < base {
        seq![digit(value)]
    } else {
        proof {
            lemma_quotient_is_smaller(value, base);
        }
        numeral(value / base, base).push(digit(value % base))
    }
}

/// Division by two or more makes a number smaller.
pub proof fn lemma_quotient_is_smaller(value: nat, base: nat)
    by (nonlinear_arith)
    requires
        value >= base,
        base >= 2,
    ensures
        value / base < value,
{
}

/// `value` written in base ten.
pub open spec fn decimal(value: nat) -> Seq<char> {
    numeral(value, 10)
}

/// `text` with as many `fill` in front as it takes to reach `width`.
pub open spec fn padded_left(text: Seq<char>, width: nat, fill: char) -> Seq<char> {
    if text.len() >= width {
        text
    } else {
        Seq::new((width - text.len()) as nat, |at: int| fill) + text
    }
}

/// `text` with as many `fill` behind as it takes to reach `width`.
pub open spec fn padded_right(text: Seq<char>, width: nat, fill: char) -> Seq<char> {
    if text.len() >= width {
        text
    } else {
        text + Seq::new((width - text.len()) as nat, |at: int| fill)
    }
}

/// Writes one digit.
fn digit_of(value: u64) -> (character: char)
    requires
        value < 16,
    ensures
        character == digit(value as nat),
{
    let code: u8 = if value < 10 {
        48u8 + value as u8
    } else {
        87u8 + value as u8
    };
    code as char
}

/// Writes `value` in `base`.
pub fn numeral_of(value: u64, base: u64) -> (text: String)
    requires
        2 <= base <= 16,
    ensures
        text@ == numeral(value as nat, base as nat),
    decreases value,
{
    if value < base {
        let mut text = String::new();
        text.push(digit_of(value));
        text
    } else {
        proof {
            lemma_quotient_is_smaller(value as nat, base as nat);
        }
        let mut text = numeral_of(value / base, base);
        text.push(digit_of(value % base));
        text
    }
}

/// Writes `value` in base ten.
pub fn decimal_of(value: u64) -> (text: String)
    ensures
        text@ == decimal(value as nat),
{
    numeral_of(value, 10)
}

/// Fills `text` up in front.
pub fn pad_left(text: &str, width: usize, fill: char) -> (padded: String)
    ensures
        padded@ == padded_left(text@, width as nat, fill),
{
    let length: usize = text.unicode_len();
    let mut padded = String::new();
    if length < width {
        let mut at: usize = 0;
        while at < width - length
            invariant
                length < width,
                at <= width - length,
                padded@ == Seq::new(at as nat, |place: int| fill),
            decreases width - length - at,
        {
            padded.push(fill);
            at += 1;
            assert(padded@ =~= Seq::new(at as nat, |place: int| fill));
        }
    }
    padded.append(text);
    assert(padded@ =~= padded_left(text@, width as nat, fill));
    padded
}

/// Fills `text` up behind.
pub fn pad_right(text: &str, width: usize, fill: char) -> (padded: String)
    ensures
        padded@ == padded_right(text@, width as nat, fill),
{
    let length: usize = text.unicode_len();
    let mut padded = text.to_owned();
    let mut at: usize = length;
    while at < width
        invariant
            text@.len() == length,
            length <= at,
            at <= width || at == length,
            padded@ == text@ + Seq::new((at - length) as nat, |place: int| fill),
        decreases width - at,
    {
        padded.push(fill);
        at += 1;
        assert(padded@ =~= text@ + Seq::new((at - length) as nat, |place: int| fill));
    }
    assert(padded@ =~= padded_right(text@, width as nat, fill));
    padded
}

/// A numeral has at least one digit, and no more than `count` when the value is below the
/// `count`-th power of the base.
pub proof fn lemma_numeral_length(value: nat, base: nat, count: nat)
    requires
        base >= 2,
        count >= 1,
        value < vstd::arithmetic::power::pow(base as int, count),
    ensures
        1 <= numeral(value, base).len() <= count,
    decreases count,
{
    if value >= base {
        vstd::arithmetic::power::lemma_pow1(base as int);
        assert(count > 1) by {
            if count == 1 {
                assert(false);
            }
        }
        let less = (count - 1) as nat;
        vstd::arithmetic::power::lemma_pow_adds(base as int, 1, less);
        let power = vstd::arithmetic::power::pow(base as int, less);
        assert(value / base < power) by (nonlinear_arith)
            requires
                value < base * power,
                base >= 2,
        ;
        lemma_numeral_length(value / base, base, less);
    }
}

/// A numeral that is filled up with zeros to a width that its value cannot exceed has that width.
pub proof fn lemma_padded_numeral_length(value: nat, base: nat, width: nat)
    requires
        base >= 2,
        width >= 1,
        value < vstd::arithmetic::power::pow(base as int, width),
    ensures
        padded_left(numeral(value, base), width, '0').len() == width,
{
    lemma_numeral_length(value, base, width);
}

/// A number in base ten is made of the ten digits.
pub proof fn lemma_decimal_digits(value: nat)
    ensures
        forall|at: int|
            0 <= at < decimal(value).len() ==> '0' <= #[trigger] decimal(value)[at] <= '9',
    decreases value,
{
    if value >= 10 {
        lemma_decimal_digits(value / 10);
        let before = decimal(value / 10);
        assert forall|at: int| 0 <= at < decimal(value).len() implies '0' <= #[trigger] decimal(
            value,
        )[at] <= '9' by {
            if at < before.len() {
                assert(decimal(value)[at] == before[at]);
            }
        }
    }
}

/// The number that a digit stands for; -1 where a character is none.
pub open spec fn digit_value(character: char) -> int {
    if '0' <= character <= '9' {
        character as int - '0' as int
    } else if 'a' <= character <= 'f' {
        character as int - 'a' as int + 10
    } else {
        -1
    }
}

/// The number that a list of digits stands for.
pub open spec fn number_in(text: Seq<char>, base: int) -> int
    decreases text.len(),
{
    if text.len() == 0 {
        0
    } else {
        number_in(text.drop_last(), base) * base + digit_value(text.last())
    }
}

/// A numeral stands for its number, is made of digits of its base, and begins with a zero only
/// where it is zero.
pub proof fn law_numeral_is_read_back(value: nat, base: nat)
    requires
        2 <= base <= 16,
    ensures
        number_in(numeral(value, base), base as int) == value,
        numeral(value, base).len() > 0,
        forall|at: int|
            0 <= at < numeral(value, base).len() ==> 0 <= digit_value(
                #[trigger] numeral(value, base)[at],
            ) < base,
        numeral(value, base)[0] == '0' ==> value == 0 && numeral(value, base).len() == 1,
    decreases value,
{
    let text = numeral(value, base);
    if value < base {
        assert(text.drop_last() =~= Seq::<char>::empty());
        assert(number_in(text.drop_last(), base as int) == 0);
        assert(0 * (base as int) == 0);
    } else {
        lemma_quotient_is_smaller(value, base);
        let front = numeral(value / base, base);
        law_numeral_is_read_back(value / base, base);
        assert(text.drop_last() =~= front);
        assert(value == (value / base) * base + value % base) by (nonlinear_arith)
            requires
                base >= 2,
        ;
        assert(value % base < base) by (nonlinear_arith)
            requires
                base >= 2,
        ;
        assert(value / base >= 1) by (nonlinear_arith)
            requires
                value >= base,
                base >= 2,
        ;
        assert forall|at: int| 0 <= at < text.len() implies 0 <= digit_value(#[trigger] text[at])
            < base by {
            if at < front.len() {
                assert(text[at] == front[at]);
            }
        }
        assert(text[0] == front[0]);
    }
}

/// Padding brings a text to its width and changes nothing in it: the fill stands before it, or
/// behind it, and a text that is wide enough stays.
pub proof fn law_padding_fills_up(text: Seq<char>, width: nat, fill: char)
    ensures
        padded_left(text, width, fill).len() == padded_right(text, width, fill).len(),
        padded_left(text, width, fill).len() == if text.len() < width {
            width
        } else {
            text.len()
        },
        padded_left(text, width, fill).skip(padded_left(text, width, fill).len() - text.len())
            == text,
        padded_right(text, width, fill).take(text.len() as int) == text,
        forall|at: int|
            0 <= at < padded_left(text, width, fill).len() - text.len() ==> #[trigger] padded_left(
                text,
                width,
                fill,
            )[at] == fill,
        forall|at: int|
            text.len() <= at < padded_right(text, width, fill).len() ==> #[trigger] padded_right(
                text,
                width,
                fill,
            )[at] == fill,
{
    let left = padded_left(text, width, fill);
    assert(left.skip(left.len() - text.len()) =~= text);
    assert(padded_right(text, width, fill).take(text.len() as int) =~= text);
}

/// Leading zeros do not change what a numeral stands for.
pub proof fn law_padded_numeral_is_read_back(value: nat, base: nat, width: nat)
    requires
        2 <= base <= 16,
    ensures
        number_in(padded_left(numeral(value, base), width, '0'), base as int) == value,
{
    law_numeral_is_read_back(value, base);
    let text = numeral(value, base);
    if text.len() < width {
        let zeros = Seq::new((width - text.len()) as nat, |at: int| '0');
        lemma_leading_zeros(zeros, text, base as int);
    }
}

proof fn lemma_leading_zeros(zeros: Seq<char>, text: Seq<char>, base: int)
    requires
        forall|at: int| 0 <= at < zeros.len() ==> #[trigger] zeros[at] == '0',
    ensures
        number_in(zeros + text, base) == number_in(text, base),
    decreases zeros.len() + text.len(),
{
    let all = zeros + text;
    if text.len() > 0 {
        assert(all.drop_last() =~= zeros + text.drop_last());
        lemma_leading_zeros(zeros, text.drop_last(), base);
    } else if zeros.len() > 0 {
        assert(all =~= zeros);
        let fewer = zeros.drop_last();
        assert forall|at: int| 0 <= at < fewer.len() implies #[trigger] fewer[at] == '0' by {
            assert(fewer[at] == zeros[at]);
        }
        lemma_leading_zeros(fewer, text, base);
        assert(fewer + text =~= fewer);
        assert(zeros.last() == '0');
        assert(0 * base == 0);
    }
}

} // verus!
