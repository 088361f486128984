//! Room names.
//!
//! Every room the controller creates is named by a sequence number:
//! the fixed prefix `"Voice - "` followed by the number in decimal.
//! The rendering is canonical (no leading zeros, most significant digit
//! first), so distinct sequence numbers always yield distinct names.

use vstd::prelude::*;

verus! {

/// The decimal digit character for a value below ten.
pub open spec fn digit_char(d: nat) -> char
    recommends
        d < 10,
{
    if d == 0 {
        '0'
    } else if d == 1 {
        '1'
    } else if d == 2 {
        '2'
    } else if d == 3 {
        '3'
    } else if d == 4 {
        '4'
    } else if d == 5 {
        '5'
    } else if d == 6 {
        '6'
    } else if d == 7 {
        '7'
    } else if d == 8 {
        '8'
    } else {
        '9'
    }
}

/// The canonical decimal rendering of `n`, most significant digit first.
pub open spec fn decimal_seq(n: nat) -> Seq<char>
    decreases n,
{
    if n < 10 {
        seq![digit_char(n)]
    } else {
        decimal_seq(n / 10).push(digit_char(n % 10))
    }
}

/// The fixed prefix every managed room's name carries.
pub open spec fn name_prefix() -> Seq<char> {
    "Voice - "@
}

/// The name of the room numbered `n`.
pub open spec fn room_name_seq(n: nat) -> Seq<char> {
    name_prefix() + decimal_seq(n)
}

/// A sequence with the shape of a managed room's name: the prefix
/// followed by at least one decimal digit.
pub open spec fn has_name_shape(s: Seq<char>) -> bool {
    &&& s.len() > name_prefix().len()
    &&& s.take(name_prefix().len() as int) == name_prefix()
    &&& forall|i: int|
        name_prefix().len() <= i < s.len() ==> is_decimal_digit(#[trigger] s[i])
}

/// The numeric value a digit character stands for.
pub open spec fn digit_value(c: char) -> nat
    recommends
        is_decimal_digit(c),
{
    (c as nat - '0' as nat) as nat
}

/// Whether `c` is one of the ten decimal digit characters.
pub open spec fn is_decimal_digit(c: char) -> bool {
    '0' <= c && c <= '9'
}

/// The number a sequence of digit characters denotes, read in decimal.
pub open spec fn decimal_value(s: Seq<char>) -> nat
    decreases s.len(),
{
    if s.len() == 0 {
        0
    } else {
        decimal_value(s.drop_last()) * 10 + digit_value(s.last())
    }
}

/// Reading back the canonical rendering of `n` gives `n` again.
pub proof fn lemma_decimal_round_trip(n: nat)
    ensures
        decimal_value(decimal_seq(n)) == n,
    decreases n,
{
    if n < 10 {
        let s = decimal_seq(n);
        assert(s.len() == 1);
        assert(s.last() == digit_char(n));
        assert(s.drop_last() =~= Seq::<char>::empty());
        assert(decimal_value(s.drop_last()) == 0);
        assert(decimal_value(s) == digit_value(digit_char(n)));
        assert(digit_value(digit_char(n)) == n);
    } else {
        lemma_decimal_round_trip(n / 10);
        let s = decimal_seq(n);
        assert(s.drop_last() =~= decimal_seq(n / 10));
        assert(decimal_value(s) == (n / 10) * 10 + n % 10);
    }
}

/// Distinct numbers render to distinct digit sequences.
pub proof fn lemma_decimal_seq_injective(a: nat, b: nat)
    requires
        a != b,
    ensures
        decimal_seq(a) != decimal_seq(b),
{
    lemma_decimal_round_trip(a);
    lemma_decimal_round_trip(b);
}

/// Distinct sequence numbers yield distinct room names.
pub proof fn lemma_room_name_injective(a: nat, b: nat)
    requires
        a != b,
    ensures
        room_name_seq(a) != room_name_seq(b),
{
    lemma_decimal_seq_injective(a, b);
    let p = "Voice - "@;
    assert((p + decimal_seq(a)).skip(p.len() as int) =~= decimal_seq(a));
    assert((p + decimal_seq(b)).skip(p.len() as int) =~= decimal_seq(b));
}

/// Every character of a canonical rendering is a decimal digit, and
/// there is at least one.
pub proof fn lemma_decimal_seq_digits(n: nat)
    ensures
        decimal_seq(n).len() >= 1,
        forall|i: int| 0 <= i < decimal_seq(n).len() ==> is_decimal_digit(#[trigger] decimal_seq(n)[i]),
    decreases n,
{
    if n >= 10 {
        lemma_decimal_seq_digits(n / 10);
    }
}

/// Reading an initial segment of a digit sequence never reads past the
/// whole: the denoted value only grows with the digits taken.
pub proof fn lemma_decimal_value_take(s: Seq<char>, k: int)
    requires
        0 <= k <= s.len(),
    ensures
        decimal_value(s.take(k)) <= decimal_value(s),
    decreases s.len() - k,
{
    if k < s.len() {
        lemma_decimal_value_take(s, k + 1);
        assert(s.take(k + 1).drop_last() =~= s.take(k));
        assert(decimal_value(s.take(k + 1)) == decimal_value(s.take(k)) * 10 + digit_value(
            s.take(k + 1).last(),
        ));
        assert(decimal_value(s.take(k)) <= decimal_value(s.take(k)) * 10) by (nonlinear_arith);
    } else {
        assert(s.take(k) =~= s);
    }
}

/// Round trip: the name rendered for `n` has the name shape and its
/// digits read back as `n`, so managed rooms are identified across
/// restarts and sweeps by their names alone.
pub proof fn lemma_name_round_trip(n: nat)
    ensures
        has_name_shape(room_name_seq(n)),
        decimal_value(room_name_seq(n).skip(name_prefix().len() as int)) == n,
{
    lemma_decimal_seq_digits(n);
    lemma_decimal_round_trip(n);
    let name = room_name_seq(n);
    assert(name.take(name_prefix().len() as int) =~= name_prefix());
    assert(name.skip(name_prefix().len() as int) =~= decimal_seq(n));
}

/// The sequence number a room name denotes: the digits after the prefix
/// read in decimal, as long as they fit the counter's width. Anything
/// else — a foreign name, no digits, or a value too wide — parses to
/// nothing.
pub fn parse_room_name(s: &str) -> (r: Option<u128>)
    ensures
        r is Some <==> has_name_shape(s@) && decimal_value(
            s@.skip(name_prefix().len() as int),
        ) <= u128::MAX,
        r matches Some(k) ==> k == decimal_value(s@.skip(name_prefix().len() as int)),
{
    proof {
        reveal_strlit("Voice - ");
    }
    let n = s.unicode_len();
    if n <= 8 {
        return None;
    }
    let mut j: usize = 0;
    while j < 8
        invariant
            j <= 8,
            8 < n == s@.len(),
            name_prefix().len() == 8,
            forall|k: int| 0 <= k < j ==> s@[k] == name_prefix()[k],
        decreases 8 - j,
    {
        let expected: char = match j {
            0 => 'V',
            1 => 'o',
            2 => 'i',
            3 => 'c',
            4 => 'e',
            5 => ' ',
            6 => '-',
            _ => ' ',
        };
        proof {
            reveal_strlit("Voice - ");
            assert(expected == name_prefix()[j as int]);
        }
        if s.get_char(j) != expected {
            proof {
                assert(s@.take(8)[j as int] == s@[j as int]);
            }
            return None;
        }
        j = j + 1;
    }
    proof {
        assert(s@.take(8) =~= name_prefix());
    }
    let ghost digits = s@.skip(8);
    let mut acc: u128 = 0;
    let mut i: usize = 8;
    while i < n
        invariant
            8 <= i <= n == s@.len(),
            name_prefix().len() == 8,
            s@.take(8) == name_prefix(),
            digits == s@.skip(8),
            forall|k: int| 8 <= k < i ==> is_decimal_digit(#[trigger] s@[k]),
            acc == decimal_value(digits.take(i - 8)),
        decreases n - i,
    {
        let c = s.get_char(i);
        let v = c as u32;
        proof {
            assert(digits[i - 8] == s@[i as int]);
        }
        if !(48 <= v && v <= 57) {
            proof {
                assert(!is_decimal_digit(s@[i as int]));
            }
            return None;
        }
        let d = (v - 48) as u128;
        proof {
            assert(is_decimal_digit(s@[i as int]));
            assert(d == digit_value(digits[i - 8]));
        }
        if acc > (u128::MAX - d) / 10 {
            proof {
                let m = u128::MAX as int;
                let q = m - d;
                assert(q == 10 * (q / 10) + (q % 10) && 0 <= q % 10 < 10) by (nonlinear_arith)
                    requires
                        0 <= q,
                ;
                assert(acc * 10 + d > m);
                assert(digits.take(i - 8 + 1).drop_last() =~= digits.take(i - 8));
                assert(decimal_value(digits.take(i - 8 + 1)) == acc * 10 + d);
                lemma_decimal_value_take(digits, i - 8 + 1);
            }
            return None;
        }
        proof {
            let m = u128::MAX as int;
            let q = m - d;
            assert(q == 10 * (q / 10) + (q % 10) && 0 <= q % 10 < 10) by (nonlinear_arith)
                requires
                    0 <= q,
            ;
            assert(acc * 10 + d <= m);
            assert(digits.take(i - 8 + 1).drop_last() =~= digits.take(i - 8));
        }
        acc = acc * 10 + d;
        i = i + 1;
    }
    proof {
        assert(digits.take(n - 8) =~= digits);
    }
    Some(acc)
}

/// The one-character string for a digit.
fn digit_str(d: u128) -> (r: &'static str)
    requires
        d < 10,
    ensures
        r@ == seq![digit_char(d as nat)],
{
    let r: &'static str = match d {
        0 => "0",
        1 => "1",
        2 => "2",
        3 => "3",
        4 => "4",
        5 => "5",
        6 => "6",
        7 => "7",
        8 => "8",
        _ => "9",
    };
    proof {
        reveal_strlit("0");
        reveal_strlit("1");
        reveal_strlit("2");
        reveal_strlit("3");
        reveal_strlit("4");
        reveal_strlit("5");
        reveal_strlit("6");
        reveal_strlit("7");
        reveal_strlit("8");
        reveal_strlit("9");
        assert(r@ =~= seq![digit_char(d as nat)]);
    }
    r
}

/// Renders `n` in decimal.
pub fn decimal_string(n: u128) -> (r: String)
    ensures
        r@ == decimal_seq(n as nat),
    decreases n,
{
    if n < 10 {
        String::from_str(digit_str(n))
    } else {
        let mut s = decimal_string(n / 10);
        s.append(digit_str(n % 10));
        proof {
            assert(s@ =~= decimal_seq(n as nat));
        }
        s
    }
}

/// The name for the room numbered `n`: the prefix `"Voice - "` followed
/// by `n` in decimal.
pub fn room_name(n: u128) -> (r: String)
    ensures
        r@ == room_name_seq(n as nat),
{
    let mut s = String::from_str("Voice - ");
    s.append(decimal_string(n).as_str());
    s
}

} // verus!
