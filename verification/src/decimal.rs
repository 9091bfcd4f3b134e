use crate::order::{int_order, Order};
use crate::text::{
    all_digits, chars_of, decimal_value, is_digit, lemma_run_end, peek_at, run_end, scan_run,
    CharClass,
};
use vstd::prelude::*;
use vstd::slice::{slice_subrange, slice_to_vec};

verus! {

/// A decimal number as a text spells it: its sign, the digits before the
/// point and the digits after it.
pub struct Decimal {
    pub negative: bool,
    pub whole: Seq<char>,
    pub fraction: Seq<char>,
}

/// The decimal number that a text spells, if it spells one: an optional
/// `-`, digits, and optionally `.` and digits, with at least one digit in
/// all. A text with anything else in it, such as an exponent or a name for
/// infinity, spells none.
pub open spec fn decimal_of(text: Seq<char>) -> Option<Decimal> {
    let negative = peek_at(text, 0) == Some('-');
    let start = if negative {
        1int
    } else {
        0int
    };
    let dot = run_end(text, start, CharClass::Digit);
    let end = run_end(text, dot + 1, CharClass::Digit);
    if dot >= text.len() {
        if dot > start {
            Some(Decimal { negative, whole: text.subrange(start, dot), fraction: Seq::empty() })
        } else {
            None
        }
    } else if text[dot] == '.' && end >= text.len() && (dot > start || end > dot + 1) {
        Some(
            Decimal {
                negative,
                whole: text.subrange(start, dot),
                fraction: text.subrange(dot + 1, end),
            },
        )
    } else {
        None
    }
}

/// `n` times the digit `0`.
pub open spec fn zeros(n: nat) -> Seq<char> {
    Seq::new(n, |i: int| '0')
}

/// The number that a decimal spells, times ten to the power of `places`,
/// for a number of places that is not less than the length of its fraction:
/// the number, then, that its digits spell when the fraction is filled up
/// with zeros to that length.
pub open spec fn scaled(d: Decimal, places: nat) -> int {
    let magnitude = decimal_value(
        d.whole + d.fraction + zeros((places - d.fraction.len()) as nat),
    );
    if d.negative {
        -magnitude
    } else {
        magnitude as int
    }
}

/// The longer of the two fractions' lengths.
pub open spec fn common_places(a: Decimal, b: Decimal) -> nat {
    if a.fraction.len() >= b.fraction.len() {
        a.fraction.len()
    } else {
        b.fraction.len()
    }
}

/// The order of two decimals by the numbers that they spell.
pub open spec fn decimal_order(a: Decimal, b: Decimal) -> Order {
    int_order(scaled(a, common_places(a, b)), scaled(b, common_places(a, b)))
}

/// The order of two floats by the numbers that their texts spell; none
/// where one of the texts spells no decimal number.
pub open spec fn float_order(x: Seq<char>, y: Seq<char>) -> Option<Order> {
    match (decimal_of(x), decimal_of(y)) {
        (Some(a), Some(b)) => Some(decimal_order(a, b)),
        _ => None,
    }
}

/// Zeros before a text of digits do not change the number that it spells.
pub proof fn lemma_leading_zeros(n: nat, digits: Seq<char>)
    ensures
        decimal_value(zeros(n) + digits) == decimal_value(digits),
    decreases digits.len(),
{
    if digits.len() == 0 {
        assert(zeros(n) + digits =~= zeros(n));
        lemma_zeros_spell_zero(n);
    } else {
        lemma_leading_zeros(n, digits.drop_last());
        assert((zeros(n) + digits).drop_last() =~= zeros(n) + digits.drop_last());
    }
}

/// Zeros spell zero.
pub proof fn lemma_zeros_spell_zero(n: nat)
    ensures
        decimal_value(zeros(n)) == 0,
    decreases n,
{
    if n > 0 {
        lemma_zeros_spell_zero((n - 1) as nat);
        assert(zeros(n).drop_last() =~= zeros((n - 1) as nat));
    }
}

/// Of two texts of digits of one length, the one that spells less up to
/// some place spells less in all.
pub proof fn lemma_order_extends(a: Seq<char>, b: Seq<char>, upto: int)
    requires
        a.len() == b.len(),
        all_digits(a),
        all_digits(b),
        0 <= upto <= a.len(),
        decimal_value(a.take(upto)) < decimal_value(b.take(upto)),
    ensures
        decimal_value(a) < decimal_value(b),
    decreases a.len() - upto,
{
    if upto == a.len() {
        assert(a.take(upto) =~= a);
        assert(b.take(upto) =~= b);
    } else {
        assert(a.take(upto + 1).drop_last() =~= a.take(upto));
        assert(b.take(upto + 1).drop_last() =~= b.take(upto));
        assert(is_digit(a[upto]) && is_digit(b[upto]));
        lemma_order_extends(a, b, upto + 1);
    }
}

/// Compares the numbers that two texts of digits of one length spell.
fn compare_digits(a: &Vec<char>, b: &Vec<char>) -> (r: Order)
    requires
        a.len() == b.len(),
        all_digits(a@),
        all_digits(b@),
    ensures
        r == int_order(decimal_value(a@) as int, decimal_value(b@) as int),
{
    let mut i: usize = 0;
    while i < a.len()
        invariant
            i <= a.len(),
            a.len() == b.len(),
            all_digits(a@),
            all_digits(b@),
            a@.take(i as int) == b@.take(i as int),
        decreases a.len() - i,
    {
        let x = a[i];
        let y = b[i];
        proof {
            assert(a@.take(i + 1).drop_last() =~= a@.take(i as int));
            assert(b@.take(i + 1).drop_last() =~= b@.take(i as int));
            assert(is_digit(a@[i as int]) && is_digit(b@[i as int]));
        }
        if x < y {
            proof {
                lemma_order_extends(a@, b@, i + 1);
            }
            return Order::Less;
        }
        if x > y {
            proof {
                lemma_order_extends(b@, a@, i + 1);
            }
            return Order::Greater;
        }
        proof {
            assert(a@.take(i + 1) =~= a@.take(i as int).push(x));
            assert(b@.take(i + 1) =~= b@.take(i as int).push(y));
        }
        i += 1;
    }
    proof {
        assert(a@.take(i as int) =~= a@);
        assert(b@.take(i as int) =~= b@);
    }
    Order::Equal
}

/// Tells whether a text of digits spells zero.
fn spells_zero(digits: &Vec<char>) -> (r: bool)
    requires
        all_digits(digits@),
    ensures
        r == (decimal_value(digits@) == 0),
{
    let mut i: usize = 0;
    while i < digits.len()
        invariant
            i <= digits.len(),
            all_digits(digits@),
            decimal_value(digits@.take(i as int)) == 0,
        decreases digits.len() - i,
    {
        proof {
            assert(digits@.take(i + 1).drop_last() =~= digits@.take(i as int));
            assert(is_digit(digits@[i as int]));
        }
        if digits[i] != '0' {
            proof {
                lemma_zero_extends(digits@, i + 1);
            }
            return false;
        }
        i += 1;
    }
    proof {
        assert(digits@.take(i as int) =~= digits@);
    }
    true
}

/// A text of digits whose beginning spells more than zero spells more
/// than zero.
pub proof fn lemma_zero_extends(digits: Seq<char>, upto: int)
    requires
        all_digits(digits),
        0 <= upto <= digits.len(),
        decimal_value(digits.take(upto)) > 0,
    ensures
        decimal_value(digits) > 0,
    decreases digits.len() - upto,
{
    if upto == digits.len() {
        assert(digits.take(upto) =~= digits);
    } else {
        assert(digits.take(upto + 1).drop_last() =~= digits.take(upto));
        lemma_zero_extends(digits, upto + 1);
    }
}

/// The digits of a decimal laid out for comparison: `lead` zeros, the
/// digits before the point, the digits after it, and `trail` zeros.
fn aligned(whole: &Vec<char>, fraction: &Vec<char>, lead: usize, trail: usize) -> (digits: Vec<
    char,
>)
    ensures
        digits@ == zeros(lead as nat) + whole@ + fraction@ + zeros(trail as nat),
{
    let mut digits: Vec<char> = Vec::new();
    let mut i: usize = 0;
    while i < lead
        invariant
            i <= lead,
            digits@ == zeros(i as nat),
        decreases lead - i,
    {
        digits.push('0');
        i += 1;
        assert(digits@ =~= zeros(i as nat));
    }
    let mut i: usize = 0;
    while i < whole.len()
        invariant
            i <= whole.len(),
            digits@ == zeros(lead as nat) + whole@.take(i as int),
        decreases whole.len() - i,
    {
        digits.push(whole[i]);
        i += 1;
        assert(digits@ =~= zeros(lead as nat) + whole@.take(i as int));
    }
    assert(whole@.take(whole.len() as int) =~= whole@);
    let mut i: usize = 0;
    while i < fraction.len()
        invariant
            i <= fraction.len(),
            digits@ == zeros(lead as nat) + whole@ + fraction@.take(i as int),
        decreases fraction.len() - i,
    {
        digits.push(fraction[i]);
        i += 1;
        assert(digits@ =~= zeros(lead as nat) + whole@ + fraction@.take(i as int));
    }
    assert(fraction@.take(fraction.len() as int) =~= fraction@);
    let mut i: usize = 0;
    while i < trail
        invariant
            i <= trail,
            digits@ == zeros(lead as nat) + whole@ + fraction@ + zeros(i as nat),
        decreases trail - i,
    {
        digits.push('0');
        i += 1;
        assert(digits@ =~= zeros(lead as nat) + whole@ + fraction@ + zeros(i as nat));
    }
    digits
}

/// The order seen from the other side.
pub open spec fn reverse_of(order: Order) -> Order {
    match order {
        Order::Less => Order::Greater,
        Order::Equal => Order::Equal,
        Order::Greater => Order::Less,
    }
}

/// Compares two decimals, each given by its sign and its digits before
/// and after the point, by the numbers that they spell.
fn compare_decimals(
    a_negative: bool,
    a_whole: &Vec<char>,
    a_fraction: &Vec<char>,
    b_negative: bool,
    b_whole: &Vec<char>,
    b_fraction: &Vec<char>,
) -> (r: Order)
    requires
        all_digits(a_whole@),
        all_digits(a_fraction@),
        all_digits(b_whole@),
        all_digits(b_fraction@),
    ensures
        r == decimal_order(
            Decimal { negative: a_negative, whole: a_whole@, fraction: a_fraction@ },
            Decimal { negative: b_negative, whole: b_whole@, fraction: b_fraction@ },
        ),
{
    let ghost a = Decimal { negative: a_negative, whole: a_whole@, fraction: a_fraction@ };
    let ghost b = Decimal { negative: b_negative, whole: b_whole@, fraction: b_fraction@ };
    let ghost places = common_places(a, b);
    let (a_lead, b_lead) = if a_whole.len() >= b_whole.len() {
        (0, a_whole.len() - b_whole.len())
    } else {
        (b_whole.len() - a_whole.len(), 0)
    };
    let (a_trail, b_trail) = if a_fraction.len() >= b_fraction.len() {
        (0, a_fraction.len() - b_fraction.len())
    } else {
        (b_fraction.len() - a_fraction.len(), 0)
    };
    let a_digits = aligned(a_whole, a_fraction, a_lead, a_trail);
    let b_digits = aligned(b_whole, b_fraction, b_lead, b_trail);
    proof {
        lemma_leading_zeros(a_lead as nat, a_whole@ + a_fraction@ + zeros(a_trail as nat));
        lemma_leading_zeros(b_lead as nat, b_whole@ + b_fraction@ + zeros(b_trail as nat));
        assert(a_digits@ =~= zeros(a_lead as nat) + (a_whole@ + a_fraction@ + zeros(
            a_trail as nat,
        )));
        assert(b_digits@ =~= zeros(b_lead as nat) + (b_whole@ + b_fraction@ + zeros(
            b_trail as nat,
        )));
        assert(is_digit('0'));
        assert(all_digits(a_digits@));
        assert(all_digits(b_digits@));
    }
    let magnitudes = compare_digits(&a_digits, &b_digits);
    if a_negative == b_negative {
        if a_negative {
            match magnitudes {
                Order::Less => Order::Greater,
                Order::Equal => Order::Equal,
                Order::Greater => Order::Less,
            }
        } else {
            magnitudes
        }
    } else {
        let both_zero = match magnitudes {
            Order::Equal => spells_zero(&a_digits),
            _ => false,
        };
        if both_zero {
            Order::Equal
        } else if a_negative {
            Order::Less
        } else {
            Order::Greater
        }
    }
}

/// Reads a text as a decimal number: its sign, its digits before the
/// point and its digits after it; `None` where the text spells no decimal
/// number.
pub fn read_decimal_text(text: &str) -> (r: Option<(bool, Vec<char>, Vec<char>)>)
    ensures
        match r {
            Some((negative, whole, fraction)) => decimal_of(text@) == Some(
                Decimal { negative, whole: whole@, fraction: fraction@ },
            ) && all_digits(whole@) && all_digits(fraction@),
            None => decimal_of(text@) is None,
        },
{
    let chars = chars_of(text);
    let input = chars.as_slice();
    let negative = input.len() > 0 && input[0] == '-';
    let start: usize = if negative {
        1
    } else {
        0
    };
    let dot = scan_run(input, start, CharClass::Digit);
    proof {
        lemma_run_end(input@, start as int, CharClass::Digit);
    }
    if dot >= input.len() {
        if dot > start {
            let whole = slice_to_vec(slice_subrange(input, start, dot));
            Some((negative, whole, Vec::new()))
        } else {
            None
        }
    } else if input[dot] == '.' {
        let end = scan_run(input, dot + 1, CharClass::Digit);
        proof {
            lemma_run_end(input@, dot + 1, CharClass::Digit);
        }
        if end >= input.len() && (dot > start || end > dot + 1) {
            let whole = slice_to_vec(slice_subrange(input, start, dot));
            let fraction = slice_to_vec(slice_subrange(input, dot + 1, end));
            Some((negative, whole, fraction))
        } else {
            None
        }
    } else {
        None
    }
}

/// Compares two floats by the numbers that their texts spell; `None`
/// where one of the texts spells no decimal number.
pub fn compare_floats(x: &str, y: &str) -> (r: Option<Order>)
    ensures
        r == float_order(x@, y@),
{
    match (read_decimal_text(x), read_decimal_text(y)) {
        (Some((a_negative, a_whole, a_fraction)), Some((b_negative, b_whole, b_fraction))) => Some(
            compare_decimals(a_negative, &a_whole, &a_fraction, b_negative, &b_whole, &b_fraction),
        ),
        _ => None,
    }
}

} // verus!
