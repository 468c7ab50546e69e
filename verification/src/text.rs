//! The textual form of a report line.
//!
//! A temperature sample of `k` sixteenths of a degree is rendered as the
//! fixed prefix `"Temperature is: "`, the exact decimal expansion of
//! `k / 16` (sign, integer digits, and a fractional part without
//! trailing zeroes, zero-padded on the left to at least two characters),
//! a carriage return and a line feed. These spec functions state that
//! text byte by byte; the exec functions below build it and are proved
//! to match.

use vstd::prelude::*;

verus! {

/// The bytes of the literal prefix `"Temperature is: "`.
pub open spec fn prefix_bytes() -> Seq<u8> {
    seq![
        84u8, 101u8, 109u8, 112u8, 101u8, 114u8, 97u8, 116u8, 117u8, 114u8, 101u8, 32u8, 105u8,
        115u8, 58u8, 32u8,
    ]
}

/// The ASCII decimal digits of `n`, most significant first.
pub open spec fn dec_digits(n: int) -> Seq<u8>
    recommends
        0 <= n,
    decreases n,
{
    if n < 10 {
        seq![(48 + n) as u8]
    } else {
        dec_digits(n / 10).push((48 + n % 10) as u8)
    }
}

/// The ASCII digits of the decimal expansion of `rem / 16`, for
/// `0 <= rem < 16`: each step brings out one digit of the expansion and
/// keeps the remainder, stopping when the remainder is gone. The
/// expansion of a sixteenth is exact within four digits, so `fuel` of 4
/// never cuts it short, and no trailing zero is ever produced.
pub open spec fn frac_digits(rem: int, fuel: nat) -> Seq<u8>
    decreases fuel,
{
    if rem <= 0 || fuel == 0 {
        Seq::<u8>::empty()
    } else {
        seq![(48 + (rem * 10) / 16) as u8] + frac_digits((rem * 10) % 16, (fuel - 1) as nat)
    }
}

/// The unsigned decimal text of `m` sixteenths: integer digits, and a
/// point with the fractional digits when `m` is no whole number.
pub open spec fn magnitude_text(m: int) -> Seq<u8> {
    if m % 16 == 0 {
        dec_digits(m / 16)
    } else {
        dec_digits(m / 16) + seq![46u8] + frac_digits(m % 16, 4)
    }
}

/// The decimal text of sample `k`: a minus sign for negative samples,
/// and a leading zero when the text would otherwise be a single
/// character (the report's minimum field width of two).
pub open spec fn temp_text(k: int) -> Seq<u8> {
    let signed = if k < 0 {
        seq![45u8] + magnitude_text(-k)
    } else {
        magnitude_text(k)
    };
    if signed.len() < 2 {
        seq![48u8] + signed
    } else {
        signed
    }
}

/// The whole report line for sample `k`: prefix, decimal text, carriage
/// return, line feed.
pub open spec fn line_text(k: int) -> Seq<u8> {
    prefix_bytes() + temp_text(k) + seq![13u8, 10u8]
}

/// The ASCII decimal digits of `n`, built to match `dec_digits`.
pub fn dec_digits_exec(n: u32) -> (r: Vec<u8>)
    ensures
        r@ == dec_digits(n as int),
    decreases n,
{
    if n < 10 {
        let mut v: Vec<u8> = Vec::new();
        v.push(48 + n as u8);
        proof {
            assert(v@ =~= dec_digits(n as int));
        }
        v
    } else {
        let mut v = dec_digits_exec(n / 10);
        v.push(48 + (n % 10) as u8);
        v
    }
}

/// The fractional digits of `rem / 16`, built to match `frac_digits`.
pub fn frac_digits_exec(rem: u32, fuel: u32) -> (r: Vec<u8>)
    requires
        rem < 16,
    ensures
        r@ == frac_digits(rem as int, fuel as nat),
    decreases fuel,
{
    if rem == 0 || fuel == 0 {
        Vec::new()
    } else {
        let d: u32 = (rem * 10) / 16;
        let next: u32 = (rem * 10) % 16;
        let mut v: Vec<u8> = Vec::new();
        v.push(48 + d as u8);
        let mut rest = frac_digits_exec(next, fuel - 1);
        v.append(&mut rest);
        proof {
            assert(v@ =~= frac_digits(rem as int, fuel as nat));
        }
        v
    }
}

/// The decimal text of sample `k`, built to match `temp_text`.
pub fn temp_text_exec(k: i16) -> (r: Vec<u8>)
    requires
        -2048 <= k <= 2047,
    ensures
        r@ == temp_text(k as int),
{
    let m: u32 = if k < 0 {
        (-(k as i32)) as u32
    } else {
        k as u32
    };
    let mut body = dec_digits_exec(m / 16);
    if m % 16 != 0 {
        body.push(46);
        let mut fr = frac_digits_exec(m % 16, 4);
        body.append(&mut fr);
    }
    proof {
        assert(body@ =~= magnitude_text(m as int));
    }
    let mut out: Vec<u8> = Vec::new();
    if k < 0 {
        out.push(45);
    }
    out.append(&mut body);
    proof {
        assert(out@ =~= (if k < 0 {
            seq![45u8] + magnitude_text(-(k as int))
        } else {
            magnitude_text(k as int)
        }));
    }
    if out.len() < 2 {
        let mut padded: Vec<u8> = Vec::new();
        padded.push(48);
        padded.append(&mut out);
        proof {
            assert(padded@ =~= temp_text(k as int));
        }
        padded
    } else {
        out
    }
}

/// The whole report line for sample `k`, built to match `line_text`.
pub fn line_text_exec(k: i16) -> (r: Vec<u8>)
    requires
        -2048 <= k <= 2047,
    ensures
        r@ == line_text(k as int),
{
    let mut out: Vec<u8> = Vec::new();
    out.push(84);
    out.push(101);
    out.push(109);
    out.push(112);
    out.push(101);
    out.push(114);
    out.push(97);
    out.push(116);
    out.push(117);
    out.push(114);
    out.push(101);
    out.push(32);
    out.push(105);
    out.push(115);
    out.push(58);
    out.push(32);
    proof {
        assert(out@ =~= prefix_bytes());
    }
    let mut body = temp_text_exec(k);
    out.append(&mut body);
    out.push(13);
    out.push(10);
    proof {
        assert(out@ =~= line_text(k as int));
    }
    out
}

/// Every byte of `dec_digits` is an ASCII digit.
pub proof fn lemma_dec_digits_ascii(n: int)
    requires
        0 <= n,
    ensures
        forall|i: int|
            0 <= i < dec_digits(n).len() ==> 48 <= #[trigger] dec_digits(n)[i] <= 57,
    decreases n,
{
    if n < 10 {
    } else {
        lemma_dec_digits_ascii(n / 10);
        let s = dec_digits(n);
        let p = dec_digits(n / 10);
        assert forall|i: int| 0 <= i < s.len() implies 48 <= #[trigger] s[i] <= 57 by {
            if i < p.len() {
                assert(s[i] == p[i]);
            } else {
                assert(s[i] == (48 + n % 10) as u8);
            }
        }
    }
}

/// Every byte of `frac_digits` is an ASCII digit.
pub proof fn lemma_frac_digits_ascii(rem: int, fuel: nat)
    requires
        0 <= rem < 16,
    ensures
        forall|i: int|
            0 <= i < frac_digits(rem, fuel).len() ==> 48 <= #[trigger] frac_digits(rem, fuel)[i]
                <= 57,
    decreases fuel,
{
    if rem <= 0 || fuel == 0 {
    } else {
        assert((rem * 10) / 16 <= 9) by (nonlinear_arith)
            requires 0 <= rem < 16;
        assert(0 <= (rem * 10) % 16 < 16) by (nonlinear_arith);
        lemma_frac_digits_ascii((rem * 10) % 16, (fuel - 1) as nat);
        let s = frac_digits(rem, fuel);
        let rest = frac_digits((rem * 10) % 16, (fuel - 1) as nat);
        assert forall|i: int| 0 <= i < s.len() implies 48 <= #[trigger] s[i] <= 57 by {
            if i == 0 {
                assert(s[i] == (48 + (rem * 10) / 16) as u8);
            } else {
                assert(s[i] == rest[i - 1]);
            }
        }
    }
}

/// Ten to the `n`th power.
pub open spec fn pow10(n: nat) -> int
    decreases n,
{
    if n == 0 {
        1
    } else {
        10 * pow10((n - 1) as nat)
    }
}

/// The number denoted by a run of ASCII digits, most significant first.
pub open spec fn digits_value(s: Seq<u8>) -> int
    decreases s.len(),
{
    if s.len() == 0 {
        0
    } else {
        digits_value(s.drop_last()) * 10 + (s.last() - 48)
    }
}

/// Reading two runs of digits as one number: the first run is shifted
/// left by the length of the second.
pub proof fn lemma_digits_value_concat(a: Seq<u8>, b: Seq<u8>)
    ensures
        digits_value(a + b) == digits_value(a) * pow10(b.len()) + digits_value(b),
    decreases b.len(),
{
    if b.len() == 0 {
        assert(a + b =~= a);
    } else {
        lemma_digits_value_concat(a, b.drop_last());
        assert((a + b).drop_last() =~= a + b.drop_last());
        assert((a + b).last() == b.last());
        let p = pow10((b.len() - 1) as nat);
        assert(pow10(b.len()) == 10 * p);
        assert(digits_value(a + b) == digits_value(a + b.drop_last()) * 10 + (b.last() - 48));
        assert(digits_value(b) == digits_value(b.drop_last()) * 10 + (b.last() - 48));
        assert((digits_value(a) * p + digits_value(b.drop_last())) * 10 == digits_value(a) * (10
            * p) + digits_value(b.drop_last()) * 10) by (nonlinear_arith);
    }
}

/// The digits of `n` denote `n`.
pub proof fn lemma_dec_digits_value(n: int)
    requires
        0 <= n,
    ensures
        digits_value(dec_digits(n)) == n,
    decreases n,
{
    if n < 10 {
        assert(dec_digits(n).drop_last() =~= Seq::<u8>::empty());
        assert(dec_digits(n).last() == (48 + n) as u8);
        assert((48 + n) as u8 == 48 + n);
        assert(digits_value(Seq::<u8>::empty()) == 0);
    } else {
        lemma_dec_digits_value(n / 10);
        vstd::arithmetic::div_mod::lemma_fundamental_div_mod(n, 10);
        assert(dec_digits(n).drop_last() =~= dec_digits(n / 10));
        assert(dec_digits(n).last() == (48 + n % 10) as u8);
        assert(0 <= n % 10 < 10);
        assert((48 + n % 10) as u8 == 48 + n % 10);
    }
}

/// The fractional digits of `rem / 16` denote it exactly: scaled by
/// ten for each digit rendered, sixteen times their value gives back
/// the remainder. The `fuel` must be enough for the expansion to
/// finish, which `rem * 10^fuel % 16 == 0` says.
pub proof fn lemma_frac_digits_value(rem: int, fuel: nat)
    requires
        0 <= rem < 16,
        (rem * pow10(fuel)) % 16 == 0,
    ensures
        16 * digits_value(frac_digits(rem, fuel)) == rem * pow10(frac_digits(rem, fuel).len()),
    decreases fuel,
{
    if rem == 0 {
    } else if fuel == 0 {
        vstd::arithmetic::div_mod::lemma_small_mod(rem as nat, 16);
        assert(false);
    } else {
        let d = (rem * 10) / 16;
        let rem1 = (rem * 10) % 16;
        vstd::arithmetic::div_mod::lemma_fundamental_div_mod(rem * 10, 16);
        assert(rem * 10 == 16 * d + rem1);
        assert(0 <= d <= 9) by (nonlinear_arith)
            requires 0 < rem < 16, d == (rem * 10) / 16;
        let rest = frac_digits(rem1, (fuel - 1) as nat);
        let n1 = rest.len();
        // the leftover requirement carries to the next digit
        let p1 = pow10((fuel - 1) as nat);
        assert(rem * pow10(fuel) == 16 * (d * p1) + rem1 * p1) by (nonlinear_arith)
            requires rem * 10 == 16 * d + rem1, pow10(fuel) == 10 * p1;
        vstd::arithmetic::div_mod::lemma_mod_multiples_vanish(d * p1, rem1 * p1, 16);
        lemma_frac_digits_value(rem1, (fuel - 1) as nat);
        // the head digit shifts left by the digits behind it
        let head = seq![(48 + d) as u8];
        lemma_digits_value_concat(head, rest);
        assert(head.drop_last() =~= Seq::<u8>::empty());
        assert(head.last() == (48 + d) as u8);
        assert((48 + d) as u8 == 48 + d);
        assert(digits_value(Seq::<u8>::empty()) == 0);
        assert(digits_value(head) == d);
        assert(frac_digits(rem, fuel) == head + rest);
        assert(16 * (d * pow10(n1) + digits_value(rest)) == rem * pow10(n1 + 1))
            by (nonlinear_arith)
            requires
                16 * digits_value(rest) == rem1 * pow10(n1),
                rem * 10 == 16 * d + rem1,
                pow10(n1 + 1) == 10 * pow10(n1);
        assert(frac_digits(rem, fuel).len() == n1 + 1);
    }
}

/// The report's digits, read back as a decimal number, denote the
/// sample's magnitude exactly: with integer digits `i`, fractional
/// digits `f`, and `d` of the latter, `16 * (i * 10^d + f)` equals the
/// magnitude times `10^d`. Together with the sign of the text this is
/// the round trip: parsing the rendered number gives back exactly the
/// temperature that was rendered.
pub proof fn lemma_rendered_value_exact(k: int)
    requires
        -2048 <= k <= 2047,
    ensures
        ({
            let m = if k < 0 { -k } else { k };
            let d = frac_digits(m % 16, 4).len();
            16 * (digits_value(dec_digits(m / 16)) * pow10(d) + digits_value(
                frac_digits(m % 16, 4),
            )) == m * pow10(d)
        }),
{
    let m = if k < 0 { -k } else { k };
    let f = m % 16;
    let i = m / 16;
    vstd::arithmetic::div_mod::lemma_fundamental_div_mod(m, 16);
    lemma_dec_digits_value(i);
    assert(pow10(4) == 10000) by {
        reveal_with_fuel(pow10, 5);
    }
    assert((f * 10000) % 16 == 0) by {
        assert(f * 10000 == 16 * (f * 625)) by (nonlinear_arith);
        vstd::arithmetic::div_mod::lemma_mod_multiples_vanish(f * 625, 0, 16);
    }
    lemma_frac_digits_value(f, 4);
    let d = frac_digits(f, 4).len();
    assert(16 * (digits_value(dec_digits(i)) * pow10(d) + digits_value(frac_digits(f, 4))) == m
        * pow10(d)) by (nonlinear_arith)
        requires
            digits_value(dec_digits(i)) == i,
            16 * digits_value(frac_digits(f, 4)) == f * pow10(d),
            m == 16 * i + f;
}

/// How many digits a magnitude takes.
pub proof fn lemma_dec_digits_len(n: int)
    requires
        0 <= n,
    ensures
        1 <= dec_digits(n).len(),
        n < 10 ==> dec_digits(n).len() == 1,
        n < 100 ==> dec_digits(n).len() <= 2,
        n < 1000 ==> dec_digits(n).len() <= 3,
    decreases n,
{
    if n < 10 {
    } else {
        assert(n < 100 ==> n / 10 < 10) by (nonlinear_arith);
        assert(n < 1000 ==> n / 10 < 100) by (nonlinear_arith);
        lemma_dec_digits_len(n / 10);
    }
}

/// No more fractional digits than fuel.
pub proof fn lemma_frac_digits_len_le_fuel(rem: int, fuel: nat)
    ensures
        frac_digits(rem, fuel).len() <= fuel,
    decreases fuel,
{
    if rem <= 0 || fuel == 0 {
    } else {
        lemma_frac_digits_len_le_fuel((rem * 10) % 16, (fuel - 1) as nat);
    }
}

/// How many fractional digits a sixteenth takes: at most four, and at
/// most three when the remainder is even (an even numerator over 16
/// reduces to eighths, whose expansion stops a digit earlier).
pub proof fn lemma_frac_digits_len(f: int)
    requires
        0 <= f < 16,
    ensures
        frac_digits(f, 4).len() <= 4,
        f % 2 == 0 ==> frac_digits(f, 4).len() <= 3,
        f != 0 ==> 1 <= frac_digits(f, 4).len(),
{
    lemma_frac_digits_len_le_fuel(f, 4);
    reveal_with_fuel(frac_digits, 5);
    if f == 2 {
        assert(frac_digits(2, 4).len() == 3);
    } else if f == 4 {
        assert(frac_digits(4, 4).len() == 2);
    } else if f == 6 {
        assert(frac_digits(6, 4).len() == 3);
    } else if f == 8 {
        assert(frac_digits(8, 4).len() == 1);
    } else if f == 10 {
        assert(frac_digits(10, 4).len() == 3);
    } else if f == 12 {
        assert(frac_digits(12, 4).len() == 2);
    } else if f == 14 {
        assert(frac_digits(14, 4).len() == 3);
    }
}

/// Every report fits the 26-byte line, except for the negative odd
/// samples at or below -1601 sixteenths, whose text alone needs nine
/// bytes and the line 27.
pub proof fn lemma_report_fits(k: int)
    requires
        -2048 <= k <= 2047,
        k % 2 == 0 || k >= -1599,
    ensures
        line_text(k).len() <= 26,
{
    let m = if k < 0 { -k } else { k };
    let i = m / 16;
    let f = m % 16;
    assert(0 <= f < 16);
    lemma_frac_digits_len(f);
    lemma_dec_digits_len(i);
    if k >= 0 {
        assert(i < 1000) by (nonlinear_arith)
            requires i == m / 16, 0 <= m <= 2047;
        assert(magnitude_text(m).len() <= 8);
    } else if k % 2 == 0 {
        assert(i < 1000) by (nonlinear_arith)
            requires i == m / 16, 0 <= m <= 2048;
        assert(m % 2 == 0) by (nonlinear_arith)
            requires k % 2 == 0, m == -k;
        assert(f % 2 == 0) by (nonlinear_arith)
            requires m % 2 == 0, f == m % 16;
        assert(magnitude_text(m).len() <= 7);
    } else {
        assert(m <= 1599);
        assert(i < 100) by (nonlinear_arith)
            requires i == m / 16, 0 <= m <= 1599;
        assert(magnitude_text(m).len() <= 7);
    }
    assert(temp_text(k).len() <= 8);
    assert(line_text(k).len() <= 26);
}

/// The widest reports still fit: the largest sample fills the line
/// exactly, the smallest leaves room to spare.
pub proof fn lemma_extreme_samples_fit()
    ensures
        line_text(2047).len() == 26,
        line_text(-2048).len() == 22,
{
    reveal_with_fuel(dec_digits, 4);
    reveal_with_fuel(frac_digits, 5);
    assert(dec_digits(127).len() == 3);
    assert(frac_digits(15, 4).len() == 4);
    assert(temp_text(2047).len() == 8);
    assert(dec_digits(128).len() == 3);
    assert(temp_text(-2048).len() == 4);
}

/// Every report line wears the exact literal prefix, ends with a
/// carriage return and a line feed, holds at least two characters of
/// number, and carries a minus sign exactly for the negative samples.
pub proof fn lemma_line_shape(k: int)
    requires
        -2048 <= k <= 2047,
    ensures
        line_text(k).len() >= 20,
        line_text(k).subrange(0, 16) == prefix_bytes(),
        line_text(k).subrange(16, line_text(k).len() - 2) == temp_text(k),
        line_text(k)[line_text(k).len() - 2] == 13,
        line_text(k)[line_text(k).len() - 1] == 10,
        (line_text(k)[16] == 45 <==> k < 0),
{
    let m = if k < 0 { -k } else { k };
    lemma_dec_digits_len(m / 16);
    lemma_frac_digits_len(m % 16);
    let t = temp_text(k);
    assert(t.len() >= 2);
    assert(line_text(k).subrange(0, 16) =~= prefix_bytes());
    assert(line_text(k).subrange(16, line_text(k).len() - 2) =~= temp_text(k));
    assert(line_text(k)[16] == t[0]);
    if k < 0 {
        assert(t[0] == 45);
    } else {
        lemma_dec_digits_ascii(m / 16);
        let signed = magnitude_text(m);
        assert(signed[0] == dec_digits(m / 16)[0]);
        assert(48 <= signed[0] <= 57);
        if signed.len() < 2 {
            assert(t[0] == 48);
        } else {
            assert(t[0] == signed[0]);
        }
        assert(t[0] != 45);
    }
}

/// Every byte of a report line is ASCII.
pub proof fn lemma_line_text_ascii(k: int)
    requires
        -2048 <= k <= 2047,
    ensures
        forall|i: int| 0 <= i < line_text(k).len() ==> #[trigger] line_text(k)[i] < 128,
{
    let m = if k < 0 { -k } else { k };
    lemma_dec_digits_ascii(m / 16);
    lemma_frac_digits_ascii(m % 16, 4);
}

} // verus!
