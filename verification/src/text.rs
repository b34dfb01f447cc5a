//! Decimal rendering of integers, as `Display` prints them.

use vstd::prelude::*;

verus! {

/// The decimal digit character for `d` (taken modulo ten).
pub open spec fn digit_char(d: nat) -> char {
    let d = d % 10;
    if d == 0 {
        '0'
    } else if d == 1 {
        '1'
    } else if d == 2 {
        '2'
    } else if d == 3 {
        '3'
    } else if d == 4 {
        '4'
    } else if d == 5 {
        '5'
    } else if d == 6 {
        '6'
    } else if d == 7 {
        '7'
    } else if d == 8 {
        '8'
    } else {
        '9'
    }
}

/// The decimal text of a natural number, without leading zeros.
pub open spec fn nat_text(n: nat) -> Seq<char>
    decreases n,
{
    if n < 10 {
        seq![digit_char(n)]
    } else {
        nat_text(n / 10).push(digit_char(n % 10))
    }
}

/// The decimal text of an integer: a minus sign before negative values.
pub open spec fn int_text(i: int) -> Seq<char> {
    if i < 0 {
        seq!['-'] + nat_text((-i) as nat)
    } else {
        nat_text(i as nat)
    }
}

fn digit_str(d: u64) -> (s: &'static str)
    requires
        d < 10,
    ensures
        s@ == seq![digit_char(d as nat)],
{
    if d == 0 {
        proof {
            reveal_strlit("0");
        }
        "0"
    } else if d == 1 {
        proof {
            reveal_strlit("1");
        }
        "1"
    } else if d == 2 {
        proof {
            reveal_strlit("2");
        }
        "2"
    } else if d == 3 {
        proof {
            reveal_strlit("3");
        }
        "3"
    } else if d == 4 {
        proof {
            reveal_strlit("4");
        }
        "4"
    } else if d == 5 {
        proof {
            reveal_strlit("5");
        }
        "5"
    } else if d == 6 {
        proof {
            reveal_strlit("6");
        }
        "6"
    } else if d == 7 {
        proof {
            reveal_strlit("7");
        }
        "7"
    } else if d == 8 {
        proof {
            reveal_strlit("8");
        }
        "8"
    } else {
        proof {
            reveal_strlit("9");
        }
        "9"
    }
}

/// Appends the decimal text of `n` to `s`.
pub fn push_nat(s: &mut String, n: u64)
    ensures
        final(s)@ == old(s)@ + nat_text(n as nat),
    decreases n,
{
    if n >= 10 {
        push_nat(s, n / 10);
        s.append(digit_str(n % 10));
        proof {
            assert(old(s)@ + nat_text(n as nat) =~= (old(s)@ + nat_text((n / 10) as nat)) + seq![
                digit_char((n % 10) as nat),
            ]);
        }
    } else {
        s.append(digit_str(n));
    }
}

/// Appends the decimal text of `i` to `s`, with a leading `-` when negative.
pub fn push_int(s: &mut String, i: i64)
    ensures
        final(s)@ == old(s)@ + int_text(i as int),
{
    if i < 0 {
        proof {
            reveal_strlit("-");
        }
        s.append("-");
        let m: u64 = if i == i64::MIN {
            9223372036854775808u64
        } else {
            (-i) as u64
        };
        push_nat(s, m);
        proof {
            assert(old(s)@ + int_text(i as int) =~= (old(s)@ + seq!['-']) + nat_text(m as nat));
        }
    } else {
        push_nat(s, i as u64);
    }
}

/// A decimal digit character.
pub open spec fn is_digit(c: char) -> bool {
    '0' <= c && c <= '9'
}

/// The number a string of decimal digits denotes.
pub open spec fn digits_value(s: Seq<char>) -> int
    decreases s.len(),
{
    if s.len() == 0 {
        0
    } else {
        digits_value(s.drop_last()) * 10 + (s.last() as int - '0' as int)
    }
}

/// Law: the text of a number is its decimal numeral: at least one digit,
/// only digits, no leading zero, and the digits denote the number.
pub proof fn lemma_nat_text_is_decimal(n: nat)
    ensures
        nat_text(n).len() >= 1,
        forall|i: int| 0 <= i < nat_text(n).len() ==> is_digit(#[trigger] nat_text(n)[i]),
        n > 0 ==> nat_text(n)[0] != '0',
        digits_value(nat_text(n)) == n,
    decreases n,
{
    let d = n % 10;
    assert(digit_char(d) as int - '0' as int == d);
    if n >= 10 {
        lemma_nat_text_is_decimal(n / 10);
        let t = nat_text(n / 10);
        assert(nat_text(n) == t.push(digit_char(d)));
        assert(nat_text(n).drop_last() =~= t);
        assert(nat_text(n)[0] == t[0]);
        assert forall|i: int| 0 <= i < nat_text(n).len() implies is_digit(#[trigger] nat_text(n)[i]) by {
            if i < t.len() {
                assert(nat_text(n)[i] == t[i]);
            }
        }
        assert(nat_text(n).last() == digit_char(d));
        assert(digits_value(nat_text(n)) == digits_value(t) * 10 + d);
        assert((n / 10) * 10 + n % 10 == n) by (nonlinear_arith);
    } else {
        assert(nat_text(n).drop_last() =~= Seq::<char>::empty());
        assert(nat_text(n).last() == digit_char(d));
        assert(digits_value(Seq::<char>::empty()) == 0);
        assert(digits_value(nat_text(n)) == d);
    }
}

/// Law: the text of an integer is a minus sign before the numeral of its
/// magnitude when negative, and the numeral itself otherwise.
pub proof fn lemma_int_text_sign(i: int)
    ensures
        i < 0 ==> int_text(i)[0] == '-' && int_text(i).subrange(1, int_text(i).len() as int)
            == nat_text((-i) as nat),
        i >= 0 ==> int_text(i) == nat_text(i as nat),
{
    if i < 0 {
        assert((seq!['-'] + nat_text((-i) as nat)).subrange(1, int_text(i).len() as int) =~= nat_text(
            (-i) as nat,
        ));
    }
}

} // verus!
