//! Byte counts as the upload log writes them, and the bookkeeping of an
//! upload that copies a file in chunks and reports its progress.
use vstd::prelude::*;
use vstd::arithmetic::div_mod::{
    lemma_div_denominator, lemma_div_is_ordered, lemma_div_is_ordered_by_denominator,
    lemma_fundamental_div_mod,
};

use crate::text::{decimal, digit_char, push_char, push_decimal};

verus! {

/// The spacing of the values a `f64` can hold near `b`: 1 below 2^53, and
/// doubled with each further binary digit of `b`.
pub open spec fn f64_spacing(b: nat) -> nat
    decreases b,
{
    if b < 0x20_0000_0000_0000 {
        1
    } else {
        2 * f64_spacing(b / 2)
    }
}

/// `n / d` rounded to the nearest integer, ties to the even one.
pub open spec fn div_round_even(n: nat, d: nat) -> nat {
    let q = n / d;
    let r = n % d;
    if 2 * r > d || (2 * r == d && q % 2 == 1) {
        q + 1
    } else {
        q
    }
}

/// The value of `b as f64`: `b` rounded to a multiple of its spacing (53
/// significant binary digits), ties to even.
pub open spec fn as_f64_value(b: nat) -> nat {
    let p = f64_spacing(b);
    div_round_even(b, p) * p
}

/// `v / d` written with two decimals, as `{:.2}` writes the `f64` value
/// `v / d` (a power-of-two divisor keeps the quotient exact; the last digit
/// is rounded half to even).
pub open spec fn two_decimals(v: nat, d: nat) -> Seq<char> {
    let h = div_round_even(v * 100, d);
    decimal(h / 100) + seq!['.', digit_char((h % 100) / 10), digit_char(h % 10)]
}

/// A byte count as the log writes it: in MiB or KiB with two decimals from
/// one KiB on, else in bytes.
pub open spec fn format_bytes_spec(b: nat) -> Seq<char> {
    let v = as_f64_value(b);
    if v >= 1048576 {
        two_decimals(v, 1048576) + " MiB"@
    } else if v >= 1024 {
        two_decimals(v, 1024) + " KiB"@
    } else {
        decimal(b) + " B"@
    }
}

proof fn lemma_spacing_small(b: nat)
    requires
        b < 0x20_0000_0000_0000,
    ensures
        f64_spacing(b) == 1,
        as_f64_value(b) == b,
{
    assert(b / 1 == b);
    assert(b % 1 == 0);
}

/// `bytes as f64`, as the integer it equals.
fn as_f64_exact(bytes: u64) -> (v: u128)
    ensures
        v == as_f64_value(bytes as nat),
        v <= 0x2_0000_0000_0000_0000,
{
    let mut p: u64 = 1;
    let mut q: u64 = bytes;
    while q >= 0x20_0000_0000_0000
        invariant
            0 < p <= 4096,
            q == bytes as nat / p as nat,
            f64_spacing(bytes as nat) == p * f64_spacing(q as nat),
            p * q <= bytes,
        decreases q,
    {
        proof {
            lemma_div_denominator(bytes as int, p as int, 2);
            assert(p < 2048) by (nonlinear_arith)
                requires
                    q >= 0x20_0000_0000_0000,
                    p * q <= bytes,
                    bytes < 0x1_0000_0000_0000_0000,
            ;
            assert((q / 2) * (p * 2) <= p * q) by (nonlinear_arith);
            let f = f64_spacing((q / 2) as nat);
            assert(f64_spacing(q as nat) == 2 * f);
            assert(p * (2 * f) == (p * 2) * f) by (nonlinear_arith);
        }
        q = q / 2;
        p = p * 2;
    }
    proof {
        lemma_spacing_small(q as nat);
        lemma_fundamental_div_mod(bytes as int, p as int);
    }
    let r: u64 = bytes - p * q;
    assert(r == bytes as nat % p as nat);
    let up = 2 * (r as u128) > p as u128 || (2 * (r as u128) == p as u128 && q % 2 == 1);
    let m: u128 = if up {
        q as u128 + 1
    } else {
        q as u128
    };
    assert(m == div_round_even(bytes as nat, p as nat));
    proof {
        assert(m * p <= 0x2_0000_0000_0000_0000) by (nonlinear_arith)
            requires
                m <= 0x20_0000_0000_0000,
                p <= 4096,
        ;
    }
    m * (p as u128)
}

/// Appends `v / d` with two decimals.
fn push_two_decimals(out: &mut String, v: u128, d: u128)
    requires
        1024 <= d <= 1048576,
        v <= 0x2_0000_0000_0000_0000,
    ensures
        final(out)@ == old(out)@ + two_decimals(v as nat, d as nat),
{
    let n = v * 100;
    let q = n / d;
    let r = n % d;
    proof {
        lemma_div_is_ordered_by_denominator(n as int, 1024, d as int);
        lemma_div_is_ordered(n as int, 0x2_0000_0000_0000_0000int * 100, 1024);
    }
    let h: u128 = if 2 * r > d || (2 * r == d && q % 2 == 1) {
        q + 1
    } else {
        q
    };
    assert(h == div_round_even(n as nat, d as nat));
    push_decimal(out, (h / 100) as u64);
    push_char(out, '.');
    let tens = ((h % 100) / 10) as u8;
    let units = (h % 10) as u8;
    push_char(out, (48u8 + tens) as char);
    push_char(out, (48u8 + units) as char);
    assert(final(out)@ =~= old(out)@ + two_decimals(v as nat, d as nat));
}

/// A byte count as the upload log writes it.
pub fn format_bytes(bytes: u64) -> (r: String)
    ensures
        r@ == format_bytes_spec(bytes as nat),
{
    let v = as_f64_exact(bytes);
    let mut s = String::new();
    if v >= 1048576 {
        push_two_decimals(&mut s, v, 1048576);
        s.append(" MiB");
    } else if v >= 1024 {
        push_two_decimals(&mut s, v, 1024);
        s.append(" KiB");
    } else {
        push_decimal(&mut s, bytes);
        s.append(" B");
    }
    s
}

/// The first progress line of an upload of `total_size` bytes; an upload
/// of unknown (zero) size reports nothing.
pub fn progress_start_line(total_size: u64) -> (r: Option<String>)
    ensures
        r is None <==> total_size == 0,
        r matches Some(l) ==> l@ == "upload progress: 0 B / "@ + format_bytes_spec(
            total_size as nat,
        ) + " (0.0%)"@,
{
    if total_size == 0 {
        return None;
    }
    let mut s = "upload progress: 0 B / ".to_string();
    let t = format_bytes(total_size);
    s.append(t.as_str());
    s.append(" (0.0%)");
    Some(s)
}

/// A progress line: the bytes copied, the total, and the percentage as the
/// caller wrote it.
pub fn progress_line(copied: u64, total_size: u64, percent: &str) -> (r: String)
    ensures
        r@ == "upload progress: "@ + format_bytes_spec(copied as nat) + " / "@ + format_bytes_spec(
            total_size as nat,
        ) + " ("@ + percent@ + "%)"@,
{
    let mut s = "upload progress: ".to_string();
    let c = format_bytes(copied);
    s.append(c.as_str());
    s.append(" / ");
    let t = format_bytes(total_size);
    s.append(t.as_str());
    s.append(" (");
    s.append(percent);
    s.append("%)");
    s
}

/// One turn of the copy loop, after a read of `read` bytes: `None` when
/// nothing was read and the copy is done, else the new count of bytes
/// copied and whether to report progress (a known size, and a second gone
/// by since the last report).
pub fn copy_step(copied: u64, read: u64, total_size: u64, second_passed: bool) -> (r: Option<
    (u64, bool),
>)
    requires
        copied + read <= u64::MAX,
    ensures
        r is None <==> read == 0,
        r matches Some(s) ==> s.0 == copied + read && s.1 == (total_size > 0 && second_passed),
{
    if read == 0 {
        None
    } else {
        Some((copied + read, total_size > 0 && second_passed))
    }
}

} // verus!
