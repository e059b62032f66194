use vstd::prelude::*;
use vstd::string::StringExecFns;

use crate::util::{pow10, EB, EIB, GB, GIB, KB, KIB, MB, MIB, PB, PIB, TB, TIB};

verus! {

/// The character of a decimal digit.
pub open spec fn digit_char(d: nat) -> char {
    if d == 0 {
        '0'
    } else if d == 1 {
        '1'
    } else if d == 2 {
        '2'
    } else if d == 3 {
        '3'
    } else if d == 4 {
        '4'
    } else if d == 5 {
        '5'
    } else if d == 6 {
        '6'
    } else if d == 7 {
        '7'
    } else if d == 8 {
        '8'
    } else {
        '9'
    }
}

/// The decimal digits of `n`, without leading zeros.
pub open spec fn dec_digits(n: nat) -> Seq<char>
    decreases n,
{
    if n < 10 {
        seq![digit_char(n)]
    } else {
        dec_digits(n / 10).push(digit_char(n % 10))
    }
}

/// The last `d` decimal digits of `n`, with leading zeros.
pub open spec fn padded_digits(n: nat, d: nat) -> Seq<char>
    decreases d,
{
    if d == 0 {
        Seq::empty()
    } else {
        padded_digits(n / 10, (d - 1) as nat).push(digit_char(n % 10))
    }
}

/// `a / b` in units of `10^-d`, rounded to the nearest, halves to even.
pub open spec fn round_quotient(a: nat, b: nat, d: nat) -> nat {
    let num = a * pow10(d);
    let q = num / b;
    let rem = num % b;
    if 2 * rem > b {
        q + 1
    } else if 2 * rem == b && q % 2 == 1 {
        q + 1
    } else {
        q
    }
}

/// `a / b` written with `d` fraction digits.
pub open spec fn fixed(a: nat, b: nat, d: nat) -> Seq<char> {
    let q = round_quotient(a, b, d);
    dec_digits(q / pow10(d)) + seq!['.'] + padded_digits(q % pow10(d), d)
}

/// The count in the largest binary unit it reaches, from kiB on.
pub open spec fn binary_part(count: u64) -> Seq<char> {
    if count >= EIB {
        fixed((count / TIB) as nat, MIB as nat, 4) + " EiB"@
    } else if count >= PIB {
        fixed((count / GIB) as nat, MIB as nat, 4) + " PiB"@
    } else if count >= TIB {
        fixed((count / MIB) as nat, MIB as nat, 4) + " TiB"@
    } else if count >= GIB {
        fixed((count / MIB) as nat, KIB as nat, 2) + " GiB"@
    } else if count >= MIB {
        fixed(count as nat, MIB as nat, 1) + " MiB"@
    } else {
        fixed(count as nat, KIB as nat, 1) + " kiB"@
    }
}

/// The count in the largest decimal unit it reaches, from kB on.
pub open spec fn decimal_part(count: u64) -> Seq<char> {
    if count >= EB {
        fixed((count / TB) as nat, MB as nat, 4) + " EB"@
    } else if count >= PB {
        fixed((count / GB) as nat, MB as nat, 4) + " PB"@
    } else if count >= TB {
        fixed((count / MB) as nat, MB as nat, 4) + " TB"@
    } else if count >= GB {
        fixed((count / MB) as nat, KB as nat, 2) + " GB"@
    } else if count >= MB {
        fixed(count as nat, MB as nat, 1) + " MB"@
    } else {
        fixed(count as nat, KB as nat, 1) + " kB"@
    }
}

/// A byte count for people: in binary units, in decimal units, and as a plain
/// number of bytes, as selected; the second and third in parentheses after the first.
pub open spec fn prettybytes_spec(count: u64, binary: bool, decimal: bool, bytes: bool) -> Seq<char> {
    if !binary && !decimal {
        Seq::empty()
    } else if count < KIB {
        dec_digits(count as nat) + " bytes"@
    } else {
        let b = if binary { binary_part(count) } else { Seq::empty() };
        let paren = b.len() > 0 && (decimal || bytes);
        let d = if decimal { decimal_part(count) } else { Seq::empty() };
        let sep = if bytes && decimal { ", "@ } else { Seq::empty() };
        let n = if bytes { dec_digits(count as nat) + " bytes"@ } else { Seq::empty() };
        if paren {
            b + " ("@ + d + sep + n + ")"@
        } else {
            b + d + sep + n
        }
    }
}

/// Relies on String::push: the character is appended.
#[verifier::external_body]
fn push_char(s: &mut String, c: char)
    ensures
        final(s)@ == old(s)@.push(c),
{
    s.push(c);
}

fn digit_of(d: u64) -> (c: char)
    requires
        d < 10,
    ensures
        c == digit_char(d as nat),
{
    if d == 0 {
        '0'
    } else if d == 1 {
        '1'
    } else if d == 2 {
        '2'
    } else if d == 3 {
        '3'
    } else if d == 4 {
        '4'
    } else if d == 5 {
        '5'
    } else if d == 6 {
        '6'
    } else if d == 7 {
        '7'
    } else if d == 8 {
        '8'
    } else {
        '9'
    }
}

fn push_decimal(s: &mut String, n: u64)
    ensures
        final(s)@ == old(s)@ + dec_digits(n as nat),
    decreases n,
{
    if n >= 10 {
        push_decimal(s, n / 10);
    }
    push_char(s, digit_of(n % 10));
    proof {
        if n < 10 {
            assert(old(s)@.push(digit_char(n as nat)) =~= old(s)@ + seq![digit_char(n as nat)]);
        } else {
            assert((old(s)@ + dec_digits((n / 10) as nat)).push(digit_char((n % 10) as nat)) =~= old(
                s,
            )@ + dec_digits((n / 10) as nat).push(digit_char((n % 10) as nat)));
        }
    }
}

fn push_padded(s: &mut String, n: u64, d: u64)
    ensures
        final(s)@ == old(s)@ + padded_digits(n as nat, d as nat),
    decreases d,
{
    if d == 0 {
        assert(old(s)@ + Seq::<char>::empty() =~= old(s)@);
        return;
    }
    push_padded(s, n / 10, d - 1);
    push_char(s, digit_of(n % 10));
    proof {
        assert((old(s)@ + padded_digits((n / 10) as nat, (d - 1) as nat)).push(
            digit_char((n % 10) as nat),
        ) =~= old(s)@ + padded_digits((n / 10) as nat, (d - 1) as nat).push(
            digit_char((n % 10) as nat),
        ));
    }
}

proof fn lemma_pow10_small()
    ensures
        pow10(1) == 10,
        pow10(2) == 100,
        pow10(4) == 10000,
{
    reveal_with_fuel(pow10, 5);
}

/// Appends `a / b` with `d` fraction digits.
fn push_fixed(s: &mut String, a: u64, b: u64, d: u64)
    requires
        0 < b,
        a < 0x1_0000_0000,
        d == 1 || d == 2 || d == 4,
    ensures
        final(s)@ == old(s)@ + fixed(a as nat, b as nat, d as nat),
{
    proof {
        lemma_pow10_small();
    }
    let p: u64 = if d == 1 {
        10
    } else if d == 2 {
        100
    } else {
        10000
    };
    assert(a * p <= 0xffff_ffff * 10000) by (nonlinear_arith)
        requires
            a < 0x1_0000_0000,
            p <= 10000,
    ;
    let num: u64 = a * p;
    let q0: u64 = num / b;
    let rem: u64 = num % b;
    let q: u64 = if rem > b - rem {
        q0 + 1
    } else if rem == b - rem && q0 % 2 == 1 {
        q0 + 1
    } else {
        q0
    };
    assert(q == round_quotient(a as nat, b as nat, d as nat));
    push_decimal(s, q / p);
    push_char(s, '.');
    push_padded(s, q % p, d);
    proof {
        assert(s@ =~= old(s)@ + fixed(a as nat, b as nat, d as nat));
    }
}

/// Formats a byte count for people; see `prettybytes_spec`.
pub fn prettybytes(count: u64, binary: bool, decimal: bool, bytes: bool) -> (r: String)
    ensures
        r@ == prettybytes_spec(count, binary, decimal, bytes),
{
    let mut ret = String::new();
    if !binary && !decimal {
        return ret;
    }
    if count < KIB {
        push_decimal(&mut ret, count);
        ret.append(" bytes");
        return ret;
    }
    if binary {
        if count >= EIB {
            push_fixed(&mut ret, count / TIB, MIB, 4);
            ret.append(" EiB");
        } else if count >= PIB {
            push_fixed(&mut ret, count / GIB, MIB, 4);
            ret.append(" PiB");
        } else if count >= TIB {
            push_fixed(&mut ret, count / MIB, MIB, 4);
            ret.append(" TiB");
        } else if count >= GIB {
            push_fixed(&mut ret, count / MIB, KIB, 2);
            ret.append(" GiB");
        } else if count >= MIB {
            push_fixed(&mut ret, count, MIB, 1);
            ret.append(" MiB");
        } else {
            push_fixed(&mut ret, count, KIB, 1);
            ret.append(" kiB");
        }
    }
    let ghost b = ret@;
    let paren = binary && (decimal || bytes);
    proof {
        if binary {
            assert(b.len() > 0);
        } else {
            assert(b =~= Seq::<char>::empty());
        }
    }
    if paren {
        ret.append(" (");
    }
    let ghost after_open = ret@;
    if decimal {
        if count >= EB {
            push_fixed(&mut ret, count / TB, MB, 4);
            ret.append(" EB");
        } else if count >= PB {
            push_fixed(&mut ret, count / GB, MB, 4);
            ret.append(" PB");
        } else if count >= TB {
            push_fixed(&mut ret, count / MB, MB, 4);
            ret.append(" TB");
        } else if count >= GB {
            push_fixed(&mut ret, count / MB, KB, 2);
            ret.append(" GB");
        } else if count >= MB {
            push_fixed(&mut ret, count, MB, 1);
            ret.append(" MB");
        } else {
            push_fixed(&mut ret, count, KB, 1);
            ret.append(" kB");
        }
    }
    let ghost after_dec = ret@;
    if bytes {
        if decimal {
            ret.append(", ");
        }
        push_decimal(&mut ret, count);
        ret.append(" bytes");
    }
    let ghost after_bytes = ret@;
    if paren {
        ret.append(")");
    }
    proof {
        let d = if decimal { decimal_part(count) } else { Seq::empty() };
        let sep = if bytes && decimal { ", "@ } else { Seq::empty() };
        let n = if bytes { dec_digits(count as nat) + " bytes"@ } else { Seq::empty() };
        assert(after_dec =~= after_open + d);
        assert(after_bytes =~= after_dec + sep + n);
        if paren {
            assert(ret@ =~= b + " ("@ + d + sep + n + ")"@);
        } else {
            assert(after_open =~= b);
            assert(ret@ =~= b + d + sep + n);
        }
    }
    ret
}

/// Clock time for people.
pub trait Hhmmss {
    fn hhmmss(&self) -> String;
}

/// The largest time shown: 99 hours, 59 minutes and 59 seconds.
pub const HHMMSS_LIMIT: u64 = 359999;

/// `secs` as hours, minutes and seconds with two digits each; times beyond the
/// limit show as the limit, after a '>'.
pub open spec fn hhmmss_spec(secs: u64) -> Seq<char> {
    let lim = if secs > HHMMSS_LIMIT { ">"@ } else { Seq::empty() };
    let t = if secs > HHMMSS_LIMIT { HHMMSS_LIMIT } else { secs };
    let h = t / 3600;
    let m = (t % 3600) / 60;
    let s = t % 60;
    lim + padded_digits(h as nat, 2) + "h:"@ + padded_digits(m as nat, 2) + "m:"@ + padded_digits(
        s as nat,
        2,
    ) + "s"@
}

impl Hhmmss for u64 {
    /// The number of seconds as a clock time; see `hhmmss_spec`.
    fn hhmmss(&self) -> (r: String)
        ensures
            r@ == hhmmss_spec(*self),
    {
        let secs = *self;
        let mut ret = String::new();
        if secs > HHMMSS_LIMIT {
            ret.append(">");
        }
        let t = if secs > HHMMSS_LIMIT {
            HHMMSS_LIMIT
        } else {
            secs
        };
        let ghost l = ret@;
        push_padded(&mut ret, t / 3600, 2);
        ret.append("h:");
        push_padded(&mut ret, (t % 3600) / 60, 2);
        ret.append("m:");
        push_padded(&mut ret, t % 60, 2);
        ret.append("s");
        proof {
            assert(t % 60 == (t % 3600) % 60);
            if secs > HHMMSS_LIMIT {
                assert(l =~= ">"@);
            } else {
                assert(l =~= Seq::<char>::empty());
            }
            assert(ret@ =~= hhmmss_spec(secs));
        }
        ret
    }
}

} // verus!
