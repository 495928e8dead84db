//! Decimal rendering of integers, as text.

use vstd::prelude::*;
use vstd::string::*;

verus! {

/// The character for a single decimal digit `d`, `0 <= d <= 9`.
pub open spec fn digit_char(d: int) -> char {
    ((48 + d) as u8) as char
}

/// The decimal digits of a natural number, most significant first, without
/// leading zeros (zero itself is `"0"`).
pub open spec fn spec_decimal_nat(n: nat) -> Seq<char>
    decreases n,
{
    if n < 10 {
        seq![digit_char(n as int)]
    } else {
        spec_decimal_nat(n / 10).push(digit_char((n % 10) as int))
    }
}

/// The decimal text of an integer: a minus sign for a negative number, then
/// the digits of its magnitude.
pub open spec fn spec_decimal(n: int) -> Seq<char> {
    if n < 0 {
        seq!['-'] + spec_decimal_nat((-n) as nat)
    } else {
        spec_decimal_nat(n as nat)
    }
}

/// The one-character text of a decimal digit.
fn digit_text(d: u64) -> (s: &'static str)
    requires
        d < 10,
    ensures
        s@ == seq![digit_char(d as int)],
{
    proof {
        reveal_strlit("0");
        reveal_strlit("1");
        reveal_strlit("2");
        reveal_strlit("3");
        reveal_strlit("4");
        reveal_strlit("5");
        reveal_strlit("6");
        reveal_strlit("7");
        reveal_strlit("8");
        reveal_strlit("9");
    }
    let s = if d == 0 {
        "0"
    } else if d == 1 {
        "1"
    } else if d == 2 {
        "2"
    } else if d == 3 {
        "3"
    } else if d == 4 {
        "4"
    } else if d == 5 {
        "5"
    } else if d == 6 {
        "6"
    } else if d == 7 {
        "7"
    } else if d == 8 {
        "8"
    } else {
        "9"
    };
    assert(s@ =~= seq![digit_char(d as int)]);
    s
}

/// Renders a natural number in decimal.
pub fn render_decimal_nat(n: u64) -> (s: String)
    ensures
        s@ == spec_decimal_nat(n as nat),
    decreases n,
{
    if n < 10 {
        String::from_str(digit_text(n))
    } else {
        let mut s = render_decimal_nat(n / 10);
        s.append(digit_text(n % 10));
        assert(s@ =~= spec_decimal_nat((n / 10) as nat).push(digit_char((n % 10) as int)));
        s
    }
}

/// Renders a signed integer in decimal.
pub fn render_decimal(n: i64) -> (s: String)
    ensures
        s@ == spec_decimal(n as int),
{
    if n < 0 {
        let magnitude: u64 = (-(n + 1)) as u64 + 1;
        let digits = render_decimal_nat(magnitude);
        let mut s = String::from_str("-");
        s.append(digits.as_str());
        proof {
            reveal_strlit("-");
            assert(s@ =~= seq!['-'] + spec_decimal_nat((-n) as nat));
        }
        s
    } else {
        render_decimal_nat(n as u64)
    }
}

/// The number that a text of decimal digits stands for.
pub open spec fn spec_digits_value(digits: Seq<char>) -> int
    decreases digits.len(),
{
    if digits.len() == 0 {
        0
    } else {
        spec_digits_value(digits.drop_last()) * 10 + (digits.last() as int - 48)
    }
}

/// The digits of a number stand for that number, and start with a digit.
pub proof fn lemma_decimal_nat_value(n: nat)
    ensures
        spec_digits_value(spec_decimal_nat(n)) == n,
        spec_decimal_nat(n).len() >= 1,
        spec_decimal_nat(n)[0] != '-',
    decreases n,
{
    if n < 10 {
        let digits = spec_decimal_nat(n);
        assert(digits.drop_last() =~= Seq::<char>::empty());
        assert(spec_digits_value(Seq::<char>::empty()) == 0);
        assert(digits.last() == digit_char(n as int));
        assert(digit_char(n as int) as int == 48 + n);
    } else {
        lemma_decimal_nat_value(n / 10);
        let front = spec_decimal_nat(n / 10);
        let last = digit_char((n % 10) as int);
        let digits = front.push(last);
        assert(digits.drop_last() =~= front);
        assert(digits.last() == last);
        assert(last as int == 48 + n % 10);
        assert(digits[0] == front[0]);
    }
}

/// Different numbers have different decimal texts.
pub proof fn lemma_decimal_injective(a: int, b: int)
    requires
        spec_decimal(a) == spec_decimal(b),
    ensures
        a == b,
{
    let minus = seq!['-'];
    if a < 0 {
        lemma_decimal_nat_value((-a) as nat);
        assert(spec_decimal(a)[0] == '-');
        assert(spec_decimal(a).skip(1) =~= spec_decimal_nat((-a) as nat));
        if b < 0 {
            lemma_decimal_nat_value((-b) as nat);
            assert(spec_decimal(b).skip(1) =~= spec_decimal_nat((-b) as nat));
        } else {
            lemma_decimal_nat_value(b as nat);
        }
    } else {
        lemma_decimal_nat_value(a as nat);
        if b < 0 {
            assert(spec_decimal(b)[0] == '-');
        } else {
            lemma_decimal_nat_value(b as nat);
        }
    }
}

/// Whether a text is made of decimal digits and minus signs alone.
pub open spec fn spec_plain_number_text(text: Seq<char>) -> bool {
    forall|i: int|
        0 <= i < text.len() ==> 48 <= (#[trigger] text[i]) as int <= 57 || text[i] == '-'
}

/// The digits of a number are decimal digits.
pub proof fn lemma_decimal_nat_is_plain(n: nat)
    ensures
        spec_plain_number_text(spec_decimal_nat(n)),
    decreases n,
{
    if n < 10 {
        assert(digit_char(n as int) as int == 48 + n);
    } else {
        lemma_decimal_nat_is_plain(n / 10);
        let front = spec_decimal_nat(n / 10);
        let last = digit_char((n % 10) as int);
        assert(last as int == 48 + n % 10);
        let digits = front.push(last);
        assert forall|i: int| 0 <= i < digits.len() implies 48 <= (#[trigger] digits[i]) as int
            <= 57 || digits[i] == '-' by {
            if i < front.len() {
                assert(digits[i] == front[i]);
            }
        }
    }
}

/// The decimal text of a number is made of digits and a minus sign alone.
pub proof fn lemma_decimal_is_plain(n: int)
    ensures
        spec_plain_number_text(spec_decimal(n)),
{
    if n < 0 {
        lemma_decimal_nat_is_plain((-n) as nat);
        let digits = spec_decimal_nat((-n) as nat);
        let text = spec_decimal(n);
        assert forall|i: int| 0 <= i < text.len() implies 48 <= (#[trigger] text[i]) as int <= 57
            || text[i] == '-' by {
            if i > 0 {
                assert(text[i] == digits[i - 1]);
            }
        }
    } else {
        lemma_decimal_nat_is_plain(n as nat);
    }
}

} // verus!
