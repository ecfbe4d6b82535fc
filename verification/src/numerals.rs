//! What holds of the plain decimal text of a number: how long it is, which
//! characters it is made of, and that different parts have different texts.
use crate::decimal::{
    decimal_text, lemma_pow10_add, lemma_pow10_positive, magnitude, pow10, representable,
    MAX_MANTISSA,
};
use crate::text::{
    digit_char, digits, lemma_digits_are_digits, lemma_digits_injective, padded_digits,
};
use vstd::prelude::*;

verus! {

/// Whether a character can stand in the text of a number.
pub open spec fn is_numeral(c: char) -> bool {
    c == '-' || c == '.' || 48 <= c as int <= 57
}

proof fn lemma_digits_length(n: nat, k: nat)
    requires
        k >= 1,
        n < pow10(k),
    ensures
        digits(n).len() <= k,
    decreases k,
{
    if n >= 10 {
        if k == 1 {
            assert(pow10(1) == 10 * pow10(0));
            assert(pow10(0) == 1);
        } else {
            assert(pow10(k) == 10 * pow10((k - 1) as nat));
            lemma_digits_length(n / 10, (k - 1) as nat);
        }
    }
}

pub(crate) proof fn lemma_padded_digits(n: nat, width: nat)
    ensures
        padded_digits(n, width).len() == width,
        forall|i: int|
            0 <= i < width ==> 48 <= (#[trigger] padded_digits(n, width)[i]) as int <= 57,
    decreases width,
{
    if width > 0 {
        lemma_padded_digits(n / 10, (width - 1) as nat);
    }
}

/// The padded digits of two numbers agree only where their last digits do.
proof fn lemma_padded_injective(a: nat, b: nat, width: nat)
    requires
        padded_digits(a, width) == padded_digits(b, width),
    ensures
        a as int % pow10(width) == b as int % pow10(width),
    decreases width,
{
    lemma_pow10_positive(width);
    if width > 0 {
        let w = (width - 1) as nat;
        let pa = padded_digits(a, width);
        let pb = padded_digits(b, width);
        lemma_padded_digits(a / 10, w);
        lemma_padded_digits(b / 10, w);
        assert(pa.last() == digit_char(a % 10));
        assert(pb.last() == digit_char(b % 10));
        assert((48 + a % 10) as char as int == 48 + a % 10);
        assert((48 + b % 10) as char as int == 48 + b % 10);
        assert(pa.drop_last() =~= padded_digits(a / 10, w));
        assert(pb.drop_last() =~= padded_digits(b / 10, w));
        lemma_padded_injective(a / 10, b / 10, w);
        lemma_pow10_positive(w);
        lemma_last_digits(a as int, w);
        lemma_last_digits(b as int, w);
    }
}

/// The last digits of a number are the last digits of its tenth and its last digit.
proof fn lemma_last_digits(a: int, w: nat)
    requires
        a >= 0,
    ensures
        a % pow10(w + 1) == ((a / 10) % pow10(w)) * 10 + a % 10,
{
    let p = pow10(w);
    lemma_pow10_positive(w);
    assert(pow10(w + 1) == 10 * p);
    let q = a / 10;
    let r = a % 10;
    vstd::arithmetic::div_mod::lemma_fundamental_div_mod(q, p);
    let k = q / p;
    let m = q % p;
    vstd::arithmetic::div_mod::lemma_mod_bound(q, p);
    assert(a == (10 * p) * k + (m * 10 + r)) by (nonlinear_arith)
        requires
            a == 10 * q + r,
            q == p * k + m,
    ;
    assert(0 <= m * 10 + r < 10 * p);
    vstd::arithmetic::div_mod::lemma_fundamental_div_mod_converse(a, 10 * p, k, m * 10 + r);
}

/// The text of a number is made of signs, points and digits, is not empty, and has at
/// most 31 characters.
pub proof fn lemma_text_shape(mantissa: int, scale: nat)
    requires
        representable(mantissa, scale as int),
    ensures
        1 <= decimal_text(mantissa, scale).len() <= 31,
        forall|i: int|
            0 <= i < decimal_text(mantissa, scale).len() ==> is_numeral(
                #[trigger] decimal_text(mantissa, scale)[i],
            ),
{
    let mag = magnitude(mantissa);
    let p = pow10(scale);
    lemma_pow10_positive(scale);
    let q = (mag as int / p) as nat;
    lemma_digits_are_digits(q);
    lemma_padded_digits(mag, scale);
    let k = (29 - scale) as nat;
    lemma_pow10_add(k, scale);
    assert(pow10(29) > MAX_MANTISSA) by {
        reveal_with_fuel(pow10, 30);
    }
    let pk = pow10(k);
    assert(mag < pk * p);
    assert(mag as int / p < pk) by (nonlinear_arith)
        requires
            0 <= mag < pk * p,
            p >= 1,
    ;
    assert(mag as int / p >= 0) by (nonlinear_arith)
        requires
            mag >= 0,
            p >= 1,
    ;
    lemma_digits_length(q, k);
}

/// Different parts have different texts.
pub proof fn lemma_text_injective(m1: int, s1: nat, m2: int, s2: nat)
    requires
        decimal_text(m1, s1) == decimal_text(m2, s2),
    ensures
        m1 == m2,
        s1 == s2,
{
    let t = decimal_text(m1, s1);
    let a1 = magnitude(m1);
    let a2 = magnitude(m2);
    lemma_pow10_positive(s1);
    lemma_pow10_positive(s2);
    let q1 = (a1 as int / pow10(s1)) as nat;
    let q2 = (a2 as int / pow10(s2)) as nat;
    let w1 = digits(q1);
    let w2 = digits(q2);
    lemma_digits_are_digits(q1);
    lemma_digits_are_digits(q2);
    lemma_padded_digits(a1, s1);
    lemma_padded_digits(a2, s2);
    let n1: int = if m1 < 0 {
        1
    } else {
        0
    };
    let n2: int = if m2 < 0 {
        1
    } else {
        0
    };
    assert(m1 >= 0 ==> t[0] == w1[0]);
    assert(m2 >= 0 ==> t[0] == w2[0]);
    assert(m1 < 0 ==> t[0] == '-');
    assert(m2 < 0 ==> t[0] == '-');
    assert(n1 == n2);
    assert forall|i: int| 0 <= i < w1.len() implies t[n1 + i] == w1[i] by {}
    assert forall|i: int| 0 <= i < w2.len() implies t[n1 + i] == w2[i] by {}
    assert(s1 > 0 ==> t[n1 + w1.len()] == '.');
    assert(s2 > 0 ==> t[n1 + w2.len()] == '.');
    assert(t.len() == n1 + w1.len() + if s1 == 0 {
        0
    } else {
        1 + s1
    });
    assert(t.len() == n1 + w2.len() + if s2 == 0 {
        0
    } else {
        1 + s2
    });
    if w1.len() < w2.len() {
        assert(s1 > 0);
        assert(t[n1 + w1.len()] == w2[w1.len() as int]);
        assert(false);
    }
    if w2.len() < w1.len() {
        assert(s2 > 0);
        assert(t[n1 + w2.len()] == w1[w2.len() as int]);
        assert(false);
    }
    assert(w1 =~= w2) by {
        assert forall|i: int| 0 <= i < w1.len() implies w1[i] == w2[i] by {
            assert(t[n1 + i] == w1[i]);
            assert(t[n1 + i] == w2[i]);
        }
    }
    lemma_digits_injective(q1, q2);
    let p = pow10(s1);
    if s1 > 0 {
        let f1 = padded_digits(a1, s1);
        let f2 = padded_digits(a2, s1);
        let b = n1 + w1.len() + 1;
        assert forall|i: int| 0 <= i < s1 implies f1[i] == f2[i] by {
            assert(t[b + i] == f1[i]);
            assert(t[b + i] == f2[i]);
        }
        assert(f1 =~= f2);
        lemma_padded_injective(a1, a2, s1);
    } else {
        assert(pow10(0) == 1);
        assert(a1 as int % 1 == a2 as int % 1);
    }
    vstd::arithmetic::div_mod::lemma_fundamental_div_mod(a1 as int, p);
    vstd::arithmetic::div_mod::lemma_fundamental_div_mod(a2 as int, p);
    assert(a1 as int / p >= 0 && a2 as int / p >= 0) by (nonlinear_arith)
        requires
            p >= 1,
            a1 >= 0,
            a2 >= 0,
    ;
    assert(a1 == a2);
}

} // verus!
