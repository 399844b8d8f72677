//! Laws on numerals: numbers are written and read place by place, and what is written is read back.
use crate::number;
use vstd::prelude::*;
use vstd::string::*;

verus! {

/// A decimal digit.
pub open spec fn is_digit(c: char) -> bool {
    '0' as u32 <= c as u32 <= '9' as u32
}

/// A decimal numeral ends with the last place of its number, before which the other places stand.
pub proof fn law_decimal_places(n: nat)
    ensures
        number::decimal(n).last() as int == 48 + n % 10,
        n < 10 ==> number::decimal(n).len() == 1,
        n >= 10 ==> number::decimal(n).drop_last() == number::decimal(n / 10),
{
    if n >= 10 {
        assert(number::decimal(n).drop_last() =~= number::decimal(n / 10));
    }
}

/// A hexadecimal numeral ends with the last place of its number, in small letters above nine, before
/// which the other places stand.
pub proof fn law_hexadecimal_places(n: nat)
    ensures
        n % 16 < 10 ==> number::hexadecimal(n).last() as int == 48 + n % 16,
        n % 16 >= 10 ==> number::hexadecimal(n).last() as int == 87 + n % 16,
        n < 16 ==> number::hexadecimal(n).len() == 1,
        n >= 16 ==> number::hexadecimal(n).drop_last() == number::hexadecimal(n / 16),
{
    if n >= 16 {
        assert(number::hexadecimal(n).drop_last() =~= number::hexadecimal(n / 16));
    }
}

/// A numeral of two places has a zero in front where the number has one place.
pub proof fn law_two_places(n: nat)
    ensures
        n < 10 ==> number::decimal_two(n) == seq!['0'] + number::decimal(n),
        n >= 10 ==> number::decimal_two(n) == number::decimal(n),
{
}

/// What is written is read back, with and without a sign, as long as it is within the limits; else
/// it is refused.
pub proof fn law_numbers_are_read_back(n: nat, min: int, max: int)
    ensures
        n <= max ==> number::unsigned_meaning(number::decimal(n), max) == Some(n as int)
            && number::unsigned_meaning(seq!['+'] + number::decimal(n), max) == Some(n as int)
            && number::signed_meaning(number::decimal(n), min, max) == Some(n as int),
        n > max ==> number::unsigned_meaning(number::decimal(n), max) is None
            && number::signed_meaning(number::decimal(n), min, max) is None,
        -n >= min ==> number::signed_meaning(seq!['-'] + number::decimal(n), min, max) == Some(
            -(n as int),
        ),
        -n < min ==> number::signed_meaning(seq!['-'] + number::decimal(n), min, max) is None,
{
    number::lemma_decimal_value(n);
    let d = number::decimal(n);
    assert(number::digit(d[0]));
    assert((seq!['+'] + d).skip(1) =~= d);
    assert((seq!['-'] + d).skip(1) =~= d);
}

/// Numbers are read place by place: one more digit makes it ten times as much and the digit more.
pub proof fn law_reading_place_by_place(s: Seq<char>, c: char, max: int, v: int)
    requires
        is_digit(c),
    ensures
        c as int - 48 <= max ==> number::unsigned_meaning(seq![c], max) == Some(c as int - 48),
        number::unsigned_meaning(s, max) == Some(v) && 10 * v + (c as int - 48) <= max
            ==> number::unsigned_meaning(s.push(c), max) == Some(10 * v + (c as int - 48)),
{
    let one = seq![c];
    assert(one.drop_last() =~= Seq::<char>::empty());
    reveal_with_fuel(number::digits_value, 2);
    if number::unsigned_meaning(s, max) == Some(v) {
        let d = if s.len() > 0 && s[0] == '+' {
            s.skip(1)
        } else {
            s
        };
        let t = s.push(c);
        let e = if t.len() > 0 && t[0] == '+' {
            t.skip(1)
        } else {
            t
        };
        assert(e =~= d.push(c));
        assert(e.drop_last() =~= d);
        assert forall|i: int| 0 <= i < e.len() implies number::digit(#[trigger] e[i]) by {
            if i < d.len() {
                assert(number::digit(d[i]));
            }
        }
    }
}

/// Nothing is read that holds anything but digits, behind at most one plus sign, or that holds none.
pub proof fn law_what_is_no_number(s: Seq<char>, i: int, max: int)
    ensures
        0 <= i < s.len() && !is_digit(s[i]) && !(i == 0 && s[0] == '+') ==> number::unsigned_meaning(
            s,
            max,
        ) is None,
        number::unsigned_meaning(Seq::empty(), max) is None,
        number::unsigned_meaning(seq!['+'], max) is None,
        0 <= i < s.len() && !is_digit(s[i]) && !(i == 0 && (s[0] == '+' || s[0] == '-'))
            ==> number::signed_meaning(s, -max, max) is None,
{
    assert(seq!['+'].skip(1) =~= Seq::<char>::empty());
    if 0 <= i < s.len() && !is_digit(s[i]) {
        assert(!number::digit(s[i]));
        if s[0] == '+' || s[0] == '-' {
            if i > 0 {
                assert(s.skip(1)[i - 1] == s[i]);
                assert(!number::digit(s.skip(1)[i - 1]));
            }
        }
    }
}

/// The truth values are the words true and false, and no others.
pub proof fn law_truth_values(s: Seq<char>)
    ensures
        number::bool_meaning(s) == Some(true) <==> s == "true"@,
        number::bool_meaning(s) == Some(false) <==> s == "false"@,
{
    reveal_strlit("true");
    reveal_strlit("false");
    assert("true"@.len() != "false"@.len());
}

/// A signed number is an unsigned one within the limits, or a minus sign and digits, which mean as
/// much below zero.
pub proof fn law_signed_numbers(s: Seq<char>, min: int, max: int)
    requires
        min <= 0 <= max,
    ensures
        s.len() == 0 || s[0] != '-' ==> number::signed_meaning(s, min, max)
            == number::unsigned_meaning(s, max),
        s.len() == 0 || s[0] != '+' ==> number::signed_meaning(seq!['-'] + s, min, max) == (
        match number::unsigned_meaning(s, -min) {
            Some(v) => Some(-v),
            None => None,
        }),
        number::signed_meaning(seq!['-'] + (seq!['+'] + s), min, max) is None,
{
    assert((seq!['-'] + s).skip(1) =~= s);
    let t = seq!['+'] + s;
    assert((seq!['-'] + t).skip(1) =~= t);
    assert(t[0] == '+' && !number::digit(t[0]));
}

} // verus!
