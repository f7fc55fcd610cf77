//! Rendering of integers as text, as the CDN's file names and range requests
//! spell them.
use vstd::prelude::*;

verus! {

/// `16` to the power `n`.
pub open spec fn pow16(n: nat) -> nat
    decreases n,
{
    if n == 0 {
        1
    } else {
        16 * pow16((n - 1) as nat)
    }
}

/// The upper-case hexadecimal digit for `d`, for `d < 16`.
pub open spec fn hex_digit(d: nat) -> char {
    if d < 10 {
        (48 + d) as char
    } else {
        (55 + d) as char
    }
}

/// The decimal digit for `d`, for `d < 10`.
pub open spec fn dec_digit(d: nat) -> char {
    (48 + d) as char
}

/// The last `n` upper-case hexadecimal digits of `v`, most significant first
/// (that is, `v` modulo `16^n`, zero-padded to `n` digits).
pub open spec fn hex_digits(v: nat, n: nat) -> Seq<char>
    decreases n,
{
    if n == 0 {
        Seq::empty()
    } else {
        hex_digits(v / 16, (n - 1) as nat).push(hex_digit(v % 16))
    }
}

/// The decimal digits of `v`, most significant first, without leading zeros
/// (`0` is the one digit `0`).
pub open spec fn dec_digits(v: nat) -> Seq<char>
    decreases v,
{
    if v < 10 {
        seq![dec_digit(v)]
    } else {
        dec_digits(v / 10).push(dec_digit(v % 10))
    }
}

/// Appends `c` to `s` by `String::push`.
#[verifier::external_body]
pub(crate) fn push_char(s: &mut String, c: char)
    ensures
        final(s)@ == old(s)@.push(c),
{
    s.push(c);
}

fn hex_char(d: u64) -> (c: char)
    requires
        d < 16,
    ensures
        c == hex_digit(d as nat),
{
    if d < 10 {
        ((48 + d) as u8) as char
    } else {
        ((55 + d) as u8) as char
    }
}

/// Appends the last `n` upper-case hexadecimal digits of `v` to `s`.
pub fn push_hex_digits(s: &mut String, v: u64, n: usize)
    ensures
        final(s)@ == old(s)@ + hex_digits(v as nat, n as nat),
    decreases n,
{
    if n > 0 {
        push_hex_digits(s, v / 16, n - 1);
        push_char(s, hex_char(v % 16));
    }
    assert(s@ == old(s)@ + hex_digits(v as nat, n as nat)) by {
        if n > 0 {
            assert(old(s)@ + hex_digits(v as nat, n as nat) =~= (old(s)@ + hex_digits(
                (v / 16) as nat,
                (n - 1) as nat,
            )).push(hex_digit((v % 16) as nat)));
        }
    }
}

/// Appends the decimal digits of `v` to `s`.
pub fn push_decimal(s: &mut String, v: u64)
    ensures
        final(s)@ == old(s)@ + dec_digits(v as nat),
    decreases v,
{
    if v >= 10 {
        push_decimal(s, v / 10);
    }
    push_char(s, ((48 + v % 10) as u8) as char);
    assert(s@ == old(s)@ + dec_digits(v as nat)) by {
        if v >= 10 {
            assert(old(s)@ + dec_digits(v as nat) =~= (old(s)@ + dec_digits((v / 10) as nat)).push(
                dec_digit((v % 10) as nat),
            ));
        } else {
            assert(old(s)@ + dec_digits(v as nat) =~= old(s)@.push(dec_digit(v as nat)));
        }
    }
}

/// Distinct digits below 16 are distinct characters.
pub proof fn lemma_hex_digit_injective(d: nat, e: nat)
    requires
        d < 16,
        e < 16,
        hex_digit(d) == hex_digit(e),
    ensures
        d == e,
{
    let x = if d < 10 { 48 + d } else { 55 + d };
    let y = if e < 10 { 48 + e } else { 55 + e };
    assert(hex_digit(d) as int == x);
    assert(hex_digit(e) as int == y);
}

/// Two numbers below `16^n` with the same `n` hexadecimal digits are equal.
pub proof fn lemma_hex_digits_injective(v: nat, w: nat, n: nat)
    requires
        v < pow16(n),
        w < pow16(n),
        hex_digits(v, n) == hex_digits(w, n),
    ensures
        v == w,
    decreases n,
{
    if n > 0 {
        let p = pow16((n - 1) as nat);
        assert(v / 16 < p) by (nonlinear_arith)
            requires
                v < 16 * p,
        ;
        assert(w / 16 < p) by (nonlinear_arith)
            requires
                w < 16 * p,
        ;
        let sv = hex_digits(v / 16, (n - 1) as nat);
        let sw = hex_digits(w / 16, (n - 1) as nat);
        assert(sv.push(hex_digit(v % 16)) == sw.push(hex_digit(w % 16)));
        assert(sv.push(hex_digit(v % 16)).drop_last() =~= sv);
        assert(sw.push(hex_digit(w % 16)).drop_last() =~= sw);
        assert(sv.push(hex_digit(v % 16)).last() == hex_digit(v % 16));
        assert(sw.push(hex_digit(w % 16)).last() == hex_digit(w % 16));
        lemma_hex_digits_injective(v / 16, w / 16, (n - 1) as nat);
        lemma_hex_digit_injective(v % 16, w % 16);
    } else {
        assert(pow16(0) == 1);
    }
}

/// `n` hexadecimal digits are `n` characters.
pub proof fn lemma_hex_digits_len(v: nat, n: nat)
    ensures
        hex_digits(v, n).len() == n,
    decreases n,
{
    if n > 0 {
        lemma_hex_digits_len(v / 16, (n - 1) as nat);
    }
}

/// `16^16` is `2^64`, so every `u64` has 16 hexadecimal digits.
pub proof fn lemma_pow16_16()
    ensures
        pow16(16) == 0x1_0000_0000_0000_0000,
{
    reveal_with_fuel(pow16, 17);
}

/// The value of the upper-case hexadecimal digit `c`, or -1 where `c` is no
/// such digit (`0`-`9` are 0-9, `A`-`F` are 10-15).
pub open spec fn hex_digit_value(c: char) -> int {
    if 48 <= c as int <= 57 {
        c as int - 48
    } else if 65 <= c as int <= 70 {
        c as int - 55
    } else {
        -1
    }
}

/// The value of the decimal digit `c`, or -1 where `c` is no such digit.
pub open spec fn dec_digit_value(c: char) -> int {
    if 48 <= c as int <= 57 {
        c as int - 48
    } else {
        -1
    }
}

/// `s` read as a number in base 16, most significant digit first.
pub open spec fn hex_value(s: Seq<char>) -> int
    decreases s.len(),
{
    if s.len() == 0 {
        0
    } else {
        hex_value(s.drop_last()) * 16 + hex_digit_value(s.last())
    }
}

/// `s` read as a number in base 10, most significant digit first.
pub open spec fn dec_value(s: Seq<char>) -> int
    decreases s.len(),
{
    if s.len() == 0 {
        0
    } else {
        dec_value(s.drop_last()) * 10 + dec_digit_value(s.last())
    }
}

/// Every character of `s` is an upper-case hexadecimal digit.
pub open spec fn all_hex_digits(s: Seq<char>) -> bool {
    forall|i: int| 0 <= i < s.len() ==> #[trigger] hex_digit_value(s[i]) >= 0
}

/// Every character of `s` is a decimal digit.
pub open spec fn all_dec_digits(s: Seq<char>) -> bool {
    forall|i: int| 0 <= i < s.len() ==> #[trigger] dec_digit_value(s[i]) >= 0
}

/// Writing `v` as `n` hexadecimal digits and reading them back gives `v`,
/// where `v` has at most `n` digits: the digits are `v` in base 16.
pub proof fn lemma_hex_digits_read_back(v: nat, n: nat)
    requires
        v < pow16(n),
    ensures
        hex_digits(v, n).len() == n,
        all_hex_digits(hex_digits(v, n)),
        hex_value(hex_digits(v, n)) == v,
    decreases n,
{
    lemma_hex_digits_len(v, n);
    if n > 0 {
        let p = pow16((n - 1) as nat);
        assert(v / 16 < p) by (nonlinear_arith)
            requires
                v < 16 * p,
        ;
        lemma_hex_digits_read_back(v / 16, (n - 1) as nat);
        let s = hex_digits(v, n);
        let pre = hex_digits(v / 16, (n - 1) as nat);
        let d = v % 16;
        assert(s.drop_last() =~= pre);
        assert(s.last() == hex_digit(d));
        assert(hex_digit(d) as int == if d < 10 { 48 + d } else { 55 + d });
        assert(hex_digit_value(hex_digit(d)) == d);
        assert forall|i: int| 0 <= i < s.len() implies #[trigger] hex_digit_value(s[i]) >= 0 by {
            if i < s.len() - 1 {
                assert(s[i] == pre[i]);
            }
        }
    }
}

/// Writing `v` in decimal and reading it back gives `v`; the digits are not
/// empty and have no leading zero (but for `0` itself).
pub proof fn lemma_dec_digits_read_back(v: nat)
    ensures
        dec_digits(v).len() > 0,
        all_dec_digits(dec_digits(v)),
        dec_value(dec_digits(v)) == v,
        dec_digits(v).len() > 1 ==> dec_digits(v)[0] != '0',
    decreases v,
{
    let s = dec_digits(v);
    if v < 10 {
        assert(dec_digit(v) as int == 48 + v);
        assert(s.drop_last() =~= Seq::<char>::empty());
        assert(dec_value(s.drop_last()) == 0);
        assert(s.last() == s[0]);
        assert(dec_digit_value(s[0]) == v);
    } else {
        lemma_dec_digits_read_back(v / 10);
        let pre = dec_digits(v / 10);
        let d = v % 10;
        assert(s.drop_last() =~= pre);
        assert(dec_digit(d) as int == 48 + d);
        assert(dec_digit_value(s.last()) == d);
        assert forall|i: int| 0 <= i < s.len() implies #[trigger] dec_digit_value(s[i]) >= 0 by {
            if i < s.len() - 1 {
                assert(s[i] == pre[i]);
            }
        }
        assert(s[0] == pre[0]);
        if pre.len() == 1 {
            assert(v / 10 >= 1);
            assert(v / 10 < 10) by {
                if v / 10 >= 10 {
                    assert(dec_digits(v / 10).len() > 1) by {
                        lemma_dec_digits_read_back((v / 10) / 10);
                    }
                }
            }
            assert(pre[0] == dec_digit(v / 10));
            assert(dec_digit(v / 10) as int == 48 + v / 10);
        }
    }
}

} // verus!
