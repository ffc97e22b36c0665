//! Text forms of numbers and bytes as they appear in decoded JSON: decimal
//! integers, zero-padded fractions, and standard base64.
use vstd::prelude::*;

use crate::text::{push_char, push_str};

verus! {

/// The ASCII digit for `d`, which is below ten.
pub open spec fn digit(d: int) -> char {
    (48 + d) as char
}

/// The decimal digits of a natural number, most significant first.
pub open spec fn nat_digits(n: nat) -> Seq<char>
    decreases n,
{
    if n < 10 {
        seq![digit(n as int)]
    } else {
        nat_digits(n / 10).push(digit((n % 10) as int))
    }
}

/// The decimal form of an integer, as Rust's `Display` writes it: a minus
/// sign before negative numbers, no leading zeros.
pub open spec fn int_decimal(n: int) -> Seq<char> {
    if n < 0 {
        seq!['-'] + nat_digits((-n) as nat)
    } else {
        nat_digits(n as nat)
    }
}

/// `s` with `fill` before it up to `width` characters, as the format spec
/// `{:0>9}` pads with `fill` `'0'` and width nine.
pub open spec fn pad_left(s: Seq<char>, width: nat, fill: char) -> Seq<char> {
    if s.len() < width {
        Seq::new((width - s.len()) as nat, |i: int| fill) + s
    } else {
        s
    }
}

/// The number that a string of decimal digits spells.
pub open spec fn digits_value(s: Seq<char>) -> int
    decreases s.len(),
{
    if s.len() == 0 {
        0
    } else {
        10 * digits_value(s.drop_last()) + (s.last() as int - 48)
    }
}

/// Every character is a decimal digit.
pub open spec fn all_digits(s: Seq<char>) -> bool {
    forall|i: int| 0 <= i < s.len() ==> '0' <= #[trigger] s[i] <= '9'
}

/// The digits of a natural number below `10^k` spell it and are at most `k`.
pub proof fn lemma_nat_digits_spell(n: nat, k: nat, bound: nat)
    requires
        n < bound,
        bound == vstd::arithmetic::power::pow(10, k),
        k >= 1,
    ensures
        all_digits(nat_digits(n)),
        digits_value(nat_digits(n)) == n,
        nat_digits(n).len() <= k,
    decreases n,
{
    vstd::arithmetic::power::lemma_pow_positive(10, k);
    if n < 10 {
        assert(nat_digits(n).drop_last() =~= Seq::<char>::empty());
        assert(digit(n as int) as int == 48 + n);
        let d = nat_digits(n);
        assert(digits_value(d) == 10 * digits_value(d.drop_last()) + (d.last() as int - 48));
    } else {
        assert(digit((n % 10) as int) as int == 48 + n % 10);
        vstd::arithmetic::power::lemma_pow_adds(10, 1, (k - 1) as nat);
        vstd::arithmetic::power::lemma_pow1(10);
        if k == 1 {
            assert(false);
        }
        let b2 = vstd::arithmetic::power::pow(10, (k - 1) as nat);
        assert(n / 10 < b2) by (nonlinear_arith)
            requires
                n < bound,
                bound == 10 * b2,
        ;
        lemma_nat_digits_spell(n / 10, (k - 1) as nat, b2 as nat);
        let d = nat_digits(n);
        assert(d.drop_last() =~= nat_digits(n / 10));
        assert(d.last() == digit((n % 10) as int));
        assert(digits_value(d) == 10 * digits_value(d.drop_last()) + (d.last() as int - 48));
        assert(n == 10 * (n / 10) + n % 10);
    }
}

/// Zeros in front of digits do not change the number they spell.
pub proof fn lemma_leading_zeros(z: nat, s: Seq<char>)
    ensures
        digits_value(Seq::new(z, |i: int| '0') + s) == digits_value(s),
    decreases s.len(), z,
{
    let zs = Seq::new(z, |i: int| '0');
    if s.len() == 0 {
        assert(zs + s =~= zs);
        if z > 0 {
            assert(zs.drop_last() =~= Seq::new((z - 1) as nat, |i: int| '0'));
            lemma_leading_zeros((z - 1) as nat, s);
            assert(Seq::new((z - 1) as nat, |i: int| '0') + s =~= Seq::new((z - 1) as nat, |i: int| '0'));
        }
    } else {
        assert((zs + s).drop_last() =~= zs + s.drop_last());
        lemma_leading_zeros(z, s.drop_last());
    }
}

fn digit_char(d: u128) -> (c: char)
    requires
        d < 10,
    ensures
        c == digit(d as int),
{
    let b: u8 = 48u8 + (d as u8);
    b as char
}

fn push_digits(s: &mut String, n: u128)
    ensures
        final(s)@ == old(s)@ + nat_digits(n as nat),
    decreases n,
{
    if n >= 10 {
        push_digits(s, n / 10);
    }
    push_char(s, digit_char(n % 10));
    proof {
        if n >= 10 {
            assert(old(s)@ + nat_digits(n as nat) == old(s)@ + nat_digits((n / 10) as nat) + seq![digit((n % 10) as int)]);
        } else {
            assert(n % 10 == n);
        }
    }
}

/// The decimal form of `n`.
pub fn decimal(n: i128) -> (res: String)
    ensures
        res@ == int_decimal(n as int),
{
    let mut s = String::new();
    if n < 0 {
        push_char(&mut s, '-');
        let magnitude: u128 = ((-(n + 1)) as u128) + 1;
        push_digits(&mut s, magnitude);
    } else {
        push_digits(&mut s, n as u128);
    }
    s
}

/// The decimal form of `n`, padded on the left with zeros to nine
/// characters.
pub fn decimal_padded9(n: i128) -> (res: String)
    ensures
        res@ == pad_left(int_decimal(n as int), 9, '0'),
{
    let digits = decimal(n);
    let len = digits.as_str().unicode_len();
    let mut s = String::new();
    let mut i: usize = len;
    while i < 9
        invariant
            len == digits@.len(),
            len <= i <= 9 || (len > 9 && i == len),
            s@ == Seq::new((i - len) as nat, |j: int| '0'),
        decreases 9 - i,
    {
        push_char(&mut s, '0');
        i = i + 1;
        proof {
            assert(s@ =~= Seq::new((i - len) as nat, |j: int| '0'));
        }
    }
    push_str(&mut s, digits.as_str());
    proof {
        if len < 9 {
            assert(s@ == pad_left(int_decimal(n as int), 9, '0'));
        } else {
            assert(s@ =~= digits@);
        }
    }
    s
}

/// The character of the standard base64 alphabet with index `i` below 64.
pub open spec fn base64_char(i: int) -> char {
    if i < 26 {
        (65 + i) as char
    } else if i < 52 {
        (97 + i - 26) as char
    } else if i < 62 {
        (48 + i - 52) as char
    } else if i == 62 {
        '+'
    } else {
        '/'
    }
}

/// Standard base64 with padding, as RFC 4648 defines it: each three bytes
/// become four characters, and a final one or two bytes become two or three
/// characters and `=` up to four.
pub open spec fn base64_standard(data: Seq<u8>) -> Seq<char>
    decreases data.len(),
{
    if data.len() == 0 {
        Seq::empty()
    } else if data.len() == 1 {
        seq![base64_char((data[0] / 4) as int), base64_char((data[0] % 4) * 16), '=', '=']
    } else if data.len() == 2 {
        seq![
            base64_char((data[0] / 4) as int),
            base64_char((data[0] % 4) * 16 + data[1] / 16),
            base64_char((data[1] % 16) * 4),
            '=',
        ]
    } else {
        seq![
            base64_char((data[0] / 4) as int),
            base64_char((data[0] % 4) * 16 + data[1] / 16),
            base64_char((data[1] % 16) * 4 + data[2] / 64),
            base64_char((data[2] % 64) as int),
        ] + base64_standard(data.skip(3))
    }
}

/// Encodes with the `STANDARD` engine of the base64 crate, which its
/// documentation gives as the standard alphabet with padding. Claims the
/// result is `base64_standard` of the data.
#[verifier::external_body]
pub(crate) fn base64_encode(data: &[u8]) -> (res: String)
    ensures
        res@ == base64_standard(data@),
{
    base64::Engine::encode(&base64::engine::general_purpose::STANDARD, data)
}

} // verus!
