//! Numbers as they are written, with a decimal point and an exponent.

use crate::text::{
    all_digits, chars_of, cut, decimal, digits_value, is_digit, law_cutting_goes_by_the_first,
    law_decimal_stands_for_its_number, law_written_sizes_are_read_back, lemma_digits_grow,
    parse_size, parsed_size, split_once, text_of,
};
use vstd::prelude::*;

verus! {

/// Whether a text begins with a minus sign, and what is left without it.
pub open spec fn signed(s: Seq<char>) -> (bool, Seq<char>) {
    if s.len() > 0 && s[0] == '-' {
        (true, s.drop_first())
    } else {
        (false, s)
    }
}

/// The exponent that a text writes down.
pub open spec fn exponent_of(s: Seq<char>) -> Option<int> {
    let (negative, digits) = signed(s);
    match parsed_size(digits) {
        Some(n) => Some(
            if negative {
                -n
            } else {
                n
            },
        ),
        None => None,
    }
}

/// Ten to a power.
pub open spec fn ten_to(n: nat) -> int
    decreases n,
{
    if n == 0 {
        1
    } else {
        10 * ten_to((n - 1) as nat)
    }
}

/// The number that the first `n` digits write down, with zeros behind the
/// last where there are fewer.
pub open spec fn leading(digits: Seq<char>, n: int) -> int {
    if n <= 0 {
        0
    } else if n <= digits.len() {
        digits_value(digits.take(n))
    } else {
        digits_value(digits) * ten_to((n - digits.len()) as nat)
    }
}

/// Whether any digit but zero stands behind the first `n`.
pub open spec fn has_more(digits: Seq<char>, n: int) -> bool {
    exists|i: int| n <= i && 0 <= i < digits.len() && #[trigger] digits[i] != '0'
}

/// The mantissa of a number and the text of its exponent.
pub open spec fn mantissa_of(number: Seq<char>) -> (Seq<char>, Option<int>) {
    match cut(number, 'e') {
        Some((mantissa, exponent)) => (mantissa, exponent_of(exponent)),
        None => (number, Some(0int)),
    }
}

/// The digits of a mantissa, and how many of them stand before the point.
pub open spec fn digits_of(mantissa: Seq<char>) -> (Seq<char>, int) {
    match cut(mantissa, '.') {
        Some((whole, fraction)) => (whole + fraction, whole.len() as int),
        None => (mantissa, mantissa.len() as int),
    }
}

/// The whole tenths of a number as it is written, rounded down; 0 where the
/// text is no number.
pub open spec fn tenths_of(text: Seq<char>) -> int {
    let (negative, number) = signed(text);
    let (mantissa, exponent) = mantissa_of(number);
    let (digits, before) = digits_of(mantissa);
    match exponent {
        Some(exponent) if all_digits(digits) => {
            let n = before + exponent + 1;
            if !negative {
                leading(digits, n)
            } else if has_more(digits, n) {
                -leading(digits, n) - 1
            } else {
                -leading(digits, n)
            }
        },
        _ => 0,
    }
}

/// More tenths than any page is high.
pub const MOST_TENTHS: i128 = 1000000000000000000000000000000;

/// A number of tenths, or the nearest that is told apart.
pub open spec fn within_most(n: int) -> int {
    if n > MOST_TENTHS {
        MOST_TENTHS as int
    } else if n < -MOST_TENTHS {
        -MOST_TENTHS
    } else {
        n
    }
}

proof fn lemma_ten_to(n: nat)
    ensures
        ten_to(n) >= 1,
    decreases n,
{
    if n > 0 {
        lemma_ten_to((n - 1) as nat);
    }
}

proof fn lemma_leading_grows(digits: Seq<char>, i: int, n: int)
    requires
        all_digits(digits),
        0 <= i <= n,
    ensures
        0 <= leading(digits, i) <= leading(digits, n),
    decreases n - i,
{
    if n <= digits.len() {
        let start = digits.take(n);
        assert(start.take(i) =~= digits.take(i));
        lemma_digits_grow(start, i);
        if i == 0 {
            assert(start.take(0) =~= Seq::empty());
        }
    } else {
        assert(digits.take(digits.len() as int) =~= digits);
        lemma_digits_grow(digits, digits.len() as int);
        let all = digits_value(digits);
        if i <= digits.len() {
            lemma_digits_grow(digits, i);
            let k = (n - digits.len()) as nat;
            lemma_ten_to(k);
            assert(all <= all * ten_to(k)) by (nonlinear_arith)
                requires
                    all >= 0,
                    ten_to(k) >= 1,
            ;
        } else if i < n {
            lemma_leading_grows(digits, i, n - 1);
            let k = (n - 1 - digits.len()) as nat;
            lemma_ten_to(k);
            assert(all * ten_to(k) <= all * (10 * ten_to(k))) by (nonlinear_arith)
                requires
                    all >= 0,
                    ten_to(k) >= 1,
            ;
        } else {
            let k = (n - digits.len()) as nat;
            lemma_ten_to(k);
            assert(0 <= all * ten_to(k)) by (nonlinear_arith)
                requires
                    all >= 0,
                    ten_to(k) >= 1,
            ;
        }
    }
}

/// The number that the first `n` digits write down, or one more than the
/// most that is told apart.
fn leading_value(digits: &Vec<char>, n: i128) -> (value: i128)
    requires
        all_digits(digits@),
    ensures
        leading(digits@, n as int) <= MOST_TENTHS ==> value == leading(digits@, n as int),
        leading(digits@, n as int) > MOST_TENTHS ==> value == MOST_TENTHS + 1,
{
    let mut value: i128 = 0;
    let mut i: usize = 0;
    assert(digits@.take(0) =~= Seq::empty());
    while i < digits.len() && (i as i128) < n
        invariant
            all_digits(digits@),
            i <= digits@.len(),
            i == 0 || i <= n,
            0 <= value <= MOST_TENTHS,
            value == leading(digits@, i as int),
            value == digits_value(digits@.take(i as int)),
        decreases digits@.len() - i,
    {
        let c = digits[i];
        assert(is_digit(digits@[i as int]));
        let d: i128 = (c as u32 - 0x30) as i128;
        value = 10 * value + d;
        i = i + 1;
        proof {
            let start = digits@.take(i as int);
            assert(start.drop_last() =~= digits@.take(i - 1));
            assert(start.last() == c);
            lemma_leading_grows(digits@, i as int, n as int);
        }
        if value > MOST_TENTHS {
            return MOST_TENTHS + 1;
        }
    }
    if n <= 0 || (i as i128) == n {
        return value;
    }
    assert(digits@.take(digits@.len() as int) =~= digits@);
    let ghost all = digits_value(digits@);
    let length: i128 = digits.len() as i128;
    let mut k: i128 = 0;
    while value > 0 && k < n - length
        invariant
            all_digits(digits@),
            length == digits@.len(),
            0 <= k <= n - length,
            0 < n <= i128::MAX,
            all == digits_value(digits@),
            0 <= value <= MOST_TENTHS,
            value == all * ten_to(k as nat),
        decreases n - length - k,
    {
        proof {
            assert(all * (10 * ten_to(k as nat)) == 10 * (all * ten_to(k as nat))) by (
                nonlinear_arith);
            lemma_leading_grows(digits@, length + k + 1, n as int);
        }
        value = 10 * value;
        k = k + 1;
        if value > MOST_TENTHS {
            return MOST_TENTHS + 1;
        }
    }
    proof {
        if k < n - length {
            lemma_ten_to(k as nat);
            lemma_digits_grow(digits@, digits@.len() as int);
            assert(all == 0) by (nonlinear_arith)
                requires
                    all >= 0,
                    ten_to(k as nat) >= 1,
                    all * ten_to(k as nat) == 0,
            ;
            assert(0 * ten_to((n - length) as nat) == 0);
        }
    }
    value
}

fn any_more(digits: &Vec<char>, n: i128) -> (more: bool)
    ensures
        more == has_more(digits@, n as int),
{
    for i in 0..digits.len()
        invariant
            forall|k: int| n <= k && 0 <= k < i ==> #[trigger] digits@[k] == '0',
    {
        if n <= i as i128 && digits[i] != '0' {
            assert(digits@[i as int] != '0');
            return true;
        }
    }
    false
}

fn are_digits(chars: &Vec<char>) -> (yes: bool)
    ensures
        yes == all_digits(chars@),
{
    for i in 0..chars.len()
        invariant
            forall|k: int| 0 <= k < i ==> is_digit(#[trigger] chars@[k]),
    {
        if !('0' <= chars[i] && chars[i] <= '9') {
            assert(!is_digit(chars@[i as int]));
            return false;
        }
    }
    true
}

fn without_sign(s: &str) -> (parts: (bool, String))
    ensures
        parts.0 == signed(s@).0,
        parts.1@ == signed(s@).1,
{
    let chars = chars_of(s);
    if chars.len() > 0 && chars[0] == '-' {
        assert(s@.subrange(1, s@.len() as int) =~= s@.drop_first());
        (true, text_of(&chars, 1, chars.len()))
    } else {
        (false, s.to_owned())
    }
}

fn read_exponent(s: &str) -> (exponent: Option<i128>)
    ensures
        exponent is Some == exponent_of(s@) is Some,
        exponent is Some ==> exponent->0 == exponent_of(s@)->0,
        exponent is Some ==> -usize::MAX <= exponent->0 <= usize::MAX,
{
    let (negative, digits) = without_sign(s);
    match parse_size(digits.as_str()) {
        Some(n) => Some(
            if negative {
                -(n as i128)
            } else {
                n as i128
            },
        ),
        None => None,
    }
}

/// The whole tenths of a number as it is written, rounded down; 0 where the
/// text is no number.
pub fn read_tenths(text: &str) -> (tenths: i128)
    ensures
        tenths == within_most(tenths_of(text@)),
{
    let (negative, number) = without_sign(text);
    let (mantissa, exponent) = match split_once(number.as_str(), 'e') {
        Some((mantissa, exponent)) => (mantissa, read_exponent(exponent.as_str())),
        None => (number, Some(0i128)),
    };
    let (digits, before) = match split_once(mantissa.as_str(), '.') {
        Some((whole, fraction)) => {
            let before: usize = whole.as_str().unicode_len();
            (whole.concat(fraction.as_str()), before)
        },
        None => {
            let before: usize = mantissa.as_str().unicode_len();
            (mantissa, before)
        },
    };
    let exponent = match exponent {
        Some(exponent) => exponent,
        None => {
            return 0;
        },
    };
    let digits = chars_of(digits.as_str());
    if !are_digits(&digits) {
        return 0;
    }
    let n: i128 = before as i128 + exponent + 1;
    let value = leading_value(&digits, n);
    proof {
        lemma_leading_grows(digits@, 0, if n > 0 { n as int } else { 0 });
    }
    if !negative {
        if value > MOST_TENTHS {
            MOST_TENTHS
        } else {
            value
        }
    } else {
        let floor: i128 = if any_more(&digits, n) {
            -value - 1
        } else {
            -value
        };
        if floor < -MOST_TENTHS {
            -MOST_TENTHS
        } else {
            floor
        }
    }
}

proof fn lemma_digits_of_start(digits: Seq<char>, n: int)
    requires
        all_digits(digits),
        n <= digits.len(),
    ensures
        ({
            let k = (digits.len() - n) as nat;
            let rest = digits_value(digits) - leading(digits, n) * ten_to(k);
            &&& 0 <= rest < ten_to(k)
            &&& has_more(digits, n) <==> rest > 0
        }),
    decreases digits.len(),
{
    let k = (digits.len() - n) as nat;
    lemma_ten_to(k);
    if digits.len() == 0 || n == digits.len() {
        if digits.len() > 0 {
            assert(digits.take(n) =~= digits);
        } else if n <= 0 {
            assert(leading(digits, n) == 0);
        }
        if n == digits.len() {
            assert(leading(digits, n) * 1 == digits_value(digits));
        } else {
            assert(0 * ten_to(k) == 0);
        }
    } else {
        let head = digits.drop_last();
        let c = digits.last();
        assert forall|i: int| 0 <= i < head.len() implies is_digit(#[trigger] head[i]) by {
            assert(head[i] == digits[i]);
        }
        assert(is_digit(digits[digits.len() - 1]));
        lemma_digits_of_start(head, n);
        if n > 0 {
            assert(head.take(n) =~= digits.take(n));
        }
        let lead = leading(digits, n);
        assert(lead == leading(head, n));
        let j = (k - 1) as nat;
        assert(ten_to(k) == 10 * ten_to(j));
        assert(lead * (10 * ten_to(j)) == 10 * (lead * ten_to(j))) by (nonlinear_arith);
        let before = digits_value(head) - lead * ten_to(j);
        let d = c as u32 - 0x30;
        assert(digits_value(digits) - lead * ten_to(k) == 10 * before + d);
        if has_more(head, n) {
            let i = choose|i: int| n <= i && 0 <= i < head.len() && #[trigger] head[i] != '0';
            assert(digits[i] != '0');
        }
        if c != '0' {
            assert(digits[digits.len() - 1] != '0');
        }
        if has_more(digits, n) {
            let i = choose|i: int| n <= i && 0 <= i < digits.len() && #[trigger] digits[i] != '0';
            if i < head.len() {
                assert(head[i] != '0');
            }
        }
    }
}

/// Whether `tenths` are a value divided by ten as often as there are `places`,
/// rounded down.
pub open spec fn are_tenths(tenths: int, value: int, places: int) -> bool {
    if places <= 0 {
        tenths == value * ten_to((-places) as nat)
    } else {
        tenths * ten_to(places as nat) <= value < (tenths + 1) * ten_to(places as nat)
    }
}

proof fn lemma_tenths(digits: Seq<char>, n: int, negative: bool)
    requires
        all_digits(digits),
    ensures
        ({
            let tenths = if !negative {
                leading(digits, n)
            } else if has_more(digits, n) {
                -leading(digits, n) - 1
            } else {
                -leading(digits, n)
            };
            let value = if negative {
                -digits_value(digits)
            } else {
                digits_value(digits)
            };
            are_tenths(tenths, value, digits.len() - n)
        }),
{
    let lead = leading(digits, n);
    let value = digits_value(digits);
    if n < digits.len() {
        lemma_digits_of_start(digits, n);
        let ten = ten_to((digits.len() - n) as nat);
        assert((lead + 1) * ten == lead * ten + ten) by (nonlinear_arith);
        assert((-lead - 1) * ten == -(lead * ten) - ten) by (nonlinear_arith);
        assert((-lead) * ten == -(lead * ten)) by (nonlinear_arith);
        assert((-lead + 1) * ten == -(lead * ten) + ten) by (nonlinear_arith);
    } else {
        assert(!has_more(digits, n));
        if digits.len() == n {
            assert(digits.take(n) =~= digits);
            assert(ten_to(0) == 1);
            assert(value * 1 == value && (-value) * 1 == -value);
            if n == 0 {
                assert(digits =~= Seq::empty());
            }
        } else {
            let ten = ten_to((n - digits.len()) as nat);
            assert((-value) * ten == -(value * ten)) by (nonlinear_arith);
            if n <= 0 {
                assert(false);
            }
        }
    }
}

/// A number that is written with a point is read as its whole tenths, rounded
/// down, also below zero: digits before the point and digits behind it, of
/// which one counts as tenths. An exponent moves the point.
pub proof fn law_numbers_are_read_in_tenths(
    whole: Seq<char>,
    fraction: Seq<char>,
    exponent: Seq<char>,
)
    requires
        all_digits(whole),
        all_digits(fraction),
        exponent_of(exponent) is Some,
    ensures
        ({
            let value = digits_value(whole + fraction);
            let plain = whole + seq!['.'] + fraction;
            let moved = plain + seq!['e'] + exponent;
            let by = exponent_of(exponent)->0;
            &&& are_tenths(tenths_of(plain), value, fraction.len() - 1)
            &&& are_tenths(tenths_of(seq!['-'] + plain), -value, fraction.len() - 1)
            &&& are_tenths(tenths_of(moved), value, fraction.len() - 1 - by)
            &&& are_tenths(tenths_of(seq!['-'] + moved), -value, fraction.len() - 1 - by)
        }),
{
    let digits = whole + fraction;
    let plain = whole + seq!['.'] + fraction;
    let moved = plain + seq!['e'] + exponent;
    assert forall|k: int| 0 <= k < digits.len() implies is_digit(#[trigger] digits[k]) by {
        if k < whole.len() {
            assert(digits[k] == whole[k]);
        } else {
            assert(digits[k] == fraction[k - whole.len()]);
        }
    }
    if whole.contains('.') {
        let k = choose|k: int| 0 <= k < whole.len() && whole[k] == '.';
        assert(is_digit(whole[k]));
    }
    if plain.contains('e') {
        let k = choose|k: int| 0 <= k < plain.len() && plain[k] == 'e';
        if k < whole.len() {
            assert(is_digit(whole[k]));
        } else if k > whole.len() {
            assert(is_digit(fraction[k - whole.len() - 1]));
        }
    }
    law_cutting_goes_by_the_first(whole, '.', fraction);
    law_cutting_goes_by_the_first(plain, 'e', exponent);
    if whole.len() > 0 {
        assert(is_digit(whole[0]));
        assert(plain[0] == whole[0] && moved[0] == whole[0]);
    } else {
        assert(plain[0] == '.' && moved[0] == '.');
    }
    assert((seq!['-'] + plain).drop_first() =~= plain);
    assert((seq!['-'] + moved).drop_first() =~= moved);
    let n = whole.len() + 1;
    let by = exponent_of(exponent)->0;
    lemma_tenths(digits, n as int, false);
    lemma_tenths(digits, n as int, true);
    lemma_tenths(digits, n + by, false);
    lemma_tenths(digits, n + by, true);
}

/// An exponent is a whole number, with or without a sign.
pub proof fn law_exponents_are_whole_numbers(n: nat)
    requires
        n <= usize::MAX,
    ensures
        exponent_of(decimal(n)) == Some(n as int),
        exponent_of(seq!['+'] + decimal(n)) == Some(n as int),
        exponent_of(seq!['-'] + decimal(n)) == Some(-(n as int)),
{
    law_written_sizes_are_read_back(n);
    law_decimal_stands_for_its_number(n);
    assert(is_digit(decimal(n)[0]));
    assert((seq!['-'] + decimal(n)).drop_first() =~= decimal(n));
    assert((seq!['+'] + decimal(n))[0] == '+');
}

/// A number that is written without a point is whole; an exponent moves the
/// point that would stand behind it.
pub proof fn law_whole_numbers_are_read_in_tenths(whole: Seq<char>, exponent: Seq<char>)
    requires
        all_digits(whole),
        whole.len() > 0,
        exponent_of(exponent) is Some,
    ensures
        ({
            let value = digits_value(whole);
            let moved = whole + seq!['e'] + exponent;
            let by = exponent_of(exponent)->0;
            &&& tenths_of(whole) == 10 * value
            &&& tenths_of(seq!['-'] + whole) == -10 * value
            &&& are_tenths(tenths_of(moved), value, -1 - by)
            &&& are_tenths(tenths_of(seq!['-'] + moved), -value, -1 - by)
        }),
{
    let moved = whole + seq!['e'] + exponent;
    if whole.contains('.') {
        let k = choose|k: int| 0 <= k < whole.len() && whole[k] == '.';
        assert(is_digit(whole[k]));
    }
    if whole.contains('e') {
        let k = choose|k: int| 0 <= k < whole.len() && whole[k] == 'e';
        assert(is_digit(whole[k]));
    }
    law_cutting_goes_by_the_first(whole, '.', Seq::empty());
    law_cutting_goes_by_the_first(whole, 'e', exponent);
    assert(is_digit(whole[0]));
    assert(moved[0] == whole[0]);
    assert((seq!['-'] + whole).drop_first() =~= whole);
    assert((seq!['-'] + moved).drop_first() =~= moved);
    let n = whole.len() + 1;
    let by = exponent_of(exponent)->0;
    lemma_tenths(whole, n as int, false);
    lemma_tenths(whole, n as int, true);
    lemma_tenths(whole, n + by, false);
    lemma_tenths(whole, n + by, true);
    assert(ten_to(1) == 10) by {
        assert(ten_to(0) == 1);
    }
}

/// What is no number counts as 0.
pub proof fn law_other_texts_are_no_numbers(text: Seq<char>, k: int)
    requires
        0 <= k < text.len(),
        !is_digit(text[k]),
        text[0] != '-',
        !text.contains('e'),
        !text.contains('.'),
    ensures
        tenths_of(text) == 0,
{
    law_cutting_goes_by_the_first(text, 'e', Seq::empty());
    law_cutting_goes_by_the_first(text, '.', Seq::empty());
}

} // verus!
