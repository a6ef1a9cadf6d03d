//! Numbers as text, for diagnostics.

use vstd::prelude::*;

verus! {

/// The character that stands for a digit below sixteen, letters in lower case.
pub open spec fn digit_char(d: int) -> char {
    seq!['0', '1', '2', '3', '4', '5', '6', '7', '8', '9', 'a', 'b', 'c', 'd', 'e', 'f'][d]
}

/// The decimal numeral of `n`, without leading zeros.
pub open spec fn decimal(n: nat) -> Seq<char>
    decreases n,
{
    if n < 10 {
        seq![digit_char(n as int)]
    } else {
        decimal(n / 10).push(digit_char((n % 10) as int))
    }
}

/// The decimal numeral of `n`, with a minus sign where `n` is negative.
pub open spec fn signed_decimal(n: int) -> Seq<char> {
    if n < 0 {
        seq!['-'] + decimal((-n) as nat)
    } else {
        decimal(n as nat)
    }
}

/// A byte as two hexadecimal digits.
pub open spec fn hex_byte(b: u8) -> Seq<char> {
    seq![digit_char((b / 16) as int), digit_char((b % 16) as int)]
}

/// A one-character string for a digit below sixteen.
fn digit_str(d: u8) -> (r: &'static str)
    requires
        d < 16,
    ensures
        r@ == seq![digit_char(d as int)],
{
    proof {
        reveal_strlit("0");
        reveal_strlit("1");
        reveal_strlit("2");
        reveal_strlit("3");
        reveal_strlit("4");
        reveal_strlit("5");
        reveal_strlit("6");
        reveal_strlit("7");
        reveal_strlit("8");
        reveal_strlit("9");
        reveal_strlit("a");
        reveal_strlit("b");
        reveal_strlit("c");
        reveal_strlit("d");
        reveal_strlit("e");
        reveal_strlit("f");
    }
    match d {
        0 => "0",
        1 => "1",
        2 => "2",
        3 => "3",
        4 => "4",
        5 => "5",
        6 => "6",
        7 => "7",
        8 => "8",
        9 => "9",
        10 => "a",
        11 => "b",
        12 => "c",
        13 => "d",
        14 => "e",
        _ => "f",
    }
}

/// Appends the decimal numeral of `n`.
pub fn push_decimal(s: &mut String, n: u64)
    ensures
        final(s)@ == old(s)@ + decimal(n as nat),
    decreases n,
{
    if n >= 10 {
        push_decimal(s, n / 10);
    }
    s.append(digit_str((n % 10) as u8));
}

/// Appends the decimal numeral of `n`, with its sign where it is negative.
pub fn push_signed_decimal(s: &mut String, n: i32)
    ensures
        final(s)@ == old(s)@ + signed_decimal(n as int),
{
    if n < 0 {
        proof {
            reveal_strlit("-");
        }
        s.append("-");
        push_decimal(s, (-(n as i64)) as u64);
    } else {
        push_decimal(s, n as u64);
    }
}

/// Appends a byte as two hexadecimal digits.
pub fn push_hex_byte(s: &mut String, b: u8)
    ensures
        final(s)@ == old(s)@ + hex_byte(b),
{
    s.append(digit_str(b / 16));
    s.append(digit_str(b % 16));
}

// ---- Laws ----

/// The value of a character as a digit, if it is one: '0' to '9' and 'a' to 'f' in their order.
pub open spec fn digit_of(c: char) -> Option<int> {
    if '0' <= c <= '9' {
        Some(c as int - '0' as int)
    } else if 'a' <= c <= 'f' {
        Some(10 + (c as int - 'a' as int))
    } else {
        None
    }
}

/// What digits are worth in a place-value system.
pub open spec fn worth(s: Seq<char>, base: int) -> int
    decreases s.len(),
{
    if s.len() == 0 {
        0
    } else {
        base * worth(s.drop_last(), base) + digit_of(s.last())->0
    }
}

/// A decimal numeral consists of decimal digits, is worth its number, and does not start with a
/// zero but for zero itself.
pub proof fn lemma_decimal(n: nat)
    ensures
        worth(decimal(n), 10) == n,
        forall|i: int| 0 <= i < decimal(n).len() ==> '0' <= (#[trigger] decimal(n)[i]) <= '9',
        decimal(n).len() > 0,
        n > 0 ==> decimal(n)[0] != '0',
        n == 0 ==> decimal(n) == seq!['0'],
    decreases n,
{
    reveal_with_fuel(worth, 2);
    if n >= 10 {
        lemma_decimal(n / 10);
        assert(decimal(n).drop_last() =~= decimal(n / 10));
    } else {
        assert(decimal(n).drop_last() =~= seq![]);
    }
}

/// A numeral with a sign is a minus where the number is negative, and the numeral of its size.
pub proof fn lemma_signed_decimal(n: int)
    ensures
        n >= 0 ==> worth(signed_decimal(n), 10) == n && signed_decimal(n)[0] != '-',
        n < 0 ==> signed_decimal(n).len() > 1 && signed_decimal(n)[0] == '-' && worth(
            signed_decimal(n).skip(1),
            10,
        ) == -n,
{
    if n < 0 {
        lemma_decimal((-n) as nat);
        assert(signed_decimal(n).skip(1) =~= decimal((-n) as nat));
    } else {
        lemma_decimal(n as nat);
        assert('0' <= decimal(n as nat)[0] <= '9');
    }
}

/// A byte is written as two hexadecimal digits that are worth it.
pub proof fn lemma_hex_byte(b: u8)
    ensures
        hex_byte(b).len() == 2,
        digit_of(hex_byte(b)[0]) is Some,
        digit_of(hex_byte(b)[1]) is Some,
        16 * digit_of(hex_byte(b)[0])->0 + digit_of(hex_byte(b)[1])->0 == b,
{
    let (h, l) = ((b / 16) as int, (b % 16) as int);
    assert(digit_of(digit_char(h)) == Some(h));
    assert(digit_of(digit_char(l)) == Some(l));
}

} // verus!
