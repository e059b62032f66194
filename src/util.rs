use vstd::prelude::*;
use vstd::string::StrSliceExecFns;
use vstd::slice::slice_subrange;

use crate::error::{Error, ErrorKind};

verus! {

/// Byte `k` of the XOR fold of `input` onto `n` bytes: the XOR of every
/// input byte whose index is congruent to `k` modulo `n`, over the first `m` input bytes.
pub open spec fn fold_prefix(input: Seq<u8>, n: nat, m: nat, k: nat) -> u8
    decreases m,
{
    if m == 0 {
        0u8
    } else if (m - 1) % (n as int) == k as int {
        fold_prefix(input, n, (m - 1) as nat, k) ^ input[m - 1]
    } else {
        fold_prefix(input, n, (m - 1) as nat, k)
    }
}

/// The XOR fold of `input` onto `n` bytes.
pub open spec fn fold_spec(input: Seq<u8>, n: nat) -> Seq<u8> {
    Seq::new(n, |k: int| fold_prefix(input, n, input.len(), k as nat))
}

/// Fold a byte sequence into `output_size` bytes with XOR.
/// Byte `i` of the input is XORed into output byte `i % output_size`;
/// output bytes that no input byte reaches stay zero.
pub fn fold(input: &[u8], output_size: usize) -> (r: Vec<u8>)
    ensures
        r@ == fold_spec(input@, output_size as nat),
{
    let mut output: Vec<u8> = Vec::new();
    let mut k: usize = 0;
    while k < output_size
        invariant
            k <= output_size,
            output@.len() == k,
            forall|j: int| 0 <= j < k ==> output@[j] == 0u8,
        decreases output_size - k,
    {
        output.push(0u8);
        k = k + 1;
    }
    if output_size > 0 {
        let mut i: usize = 0;
        while i < input.len()
            invariant
                output_size > 0,
                i <= input@.len(),
                output@.len() == output_size,
                forall|j: int|
                    0 <= j < output_size ==> output@[j] == fold_prefix(
                        input@,
                        output_size as nat,
                        i as nat,
                        j as nat,
                    ),
            decreases input@.len() - i,
        {
            let idx = i % output_size;
            let v = output[idx] ^ input[i];
            output.set(idx, v);
            i = i + 1;
        }
    }
    proof {
        assert(output@ =~= fold_spec(input@, output_size as nat));
    }
    output
}


pub const KIB: u64 = 1024;
pub const MIB: u64 = 1048576;
pub const GIB: u64 = 1073741824;
pub const TIB: u64 = 1099511627776;
pub const PIB: u64 = 1125899906842624;
pub const EIB: u64 = 1152921504606846976;
pub const KB: u64 = 1000;
pub const MB: u64 = 1000000;
pub const GB: u64 = 1000000000;
pub const TB: u64 = 1000000000000;
pub const PB: u64 = 1000000000000000;
pub const EB: u64 = 1000000000000000000;

/// The most fraction digits a byte count may carry.
pub const MAX_FRACTION_DIGITS: usize = 19;

/// Unicode White_Space: tab to carriage return, space, next line, no-break
/// space, ogham space mark, the spaces U+2000 to U+200A, line and paragraph
/// separators, narrow no-break space, medium mathematical space and
/// ideographic space.
pub open spec fn is_ws(c: u32) -> bool {
    ||| c == 32
    ||| (9 <= c <= 13)
    ||| c == 0x85
    ||| c == 0xA0
    ||| c == 0x1680
    ||| (0x2000 <= c <= 0x200A)
    ||| c == 0x2028
    ||| c == 0x2029
    ||| c == 0x202F
    ||| c == 0x205F
    ||| c == 0x3000
}

/// Whether the code is Unicode whitespace; see `is_ws`.
fn is_ws_code(c: u32) -> (r: bool)
    ensures
        r == is_ws(c),
{
    c == 32 || (9 <= c && c <= 13) || c == 0x85 || c == 0xA0 || c == 0x1680 || (0x2000 <= c
        && c <= 0x200A) || c == 0x2028 || c == 0x2029 || c == 0x202F || c == 0x205F || c == 0x3000
}

pub open spec fn is_digit(c: u32) -> bool {
    48 <= c <= 57
}

/// The lower case of a character as far as it can matter for a number with a
/// unit: ASCII upper case letters, and the Kelvin sign U+212A, which lower-cases
/// to `k`. Every other character either has no lower case form or one that is
/// neither an ASCII letter nor a digit, and stays as it is.
pub open spec fn ascii_lower(c: u32) -> u32 {
    if 65 <= c <= 90 {
        (c + 32) as u32
    } else if c == 0x212A {
        107
    } else {
        c
    }
}

/// The character codes of a text.
pub open spec fn codes(s: Seq<char>) -> Seq<u32> {
    s.map_values(|c: char| c as u32)
}

pub open spec fn trim_start(s: Seq<u32>) -> Seq<u32>
    decreases s.len(),
{
    if s.len() > 0 && is_ws(s[0]) {
        trim_start(s.drop_first())
    } else {
        s
    }
}

pub open spec fn trim_end(s: Seq<u32>) -> Seq<u32>
    decreases s.len(),
{
    if s.len() > 0 && is_ws(s.last()) {
        trim_end(s.drop_last())
    } else {
        s
    }
}

/// The text without leading and trailing whitespace.
pub open spec fn trim(s: Seq<u32>) -> Seq<u32> {
    trim_end(trim_start(s))
}

/// The value of a sequence of decimal digits.
pub open spec fn digits_value(s: Seq<u32>) -> nat
    decreases s.len(),
{
    if s.len() == 0 {
        0
    } else {
        digits_value(s.drop_last()) * 10 + (s.last() - 48) as nat
    }
}

pub open spec fn all_digits(s: Seq<u32>) -> bool {
    forall|i: int| 0 <= i < s.len() ==> is_digit(#[trigger] s[i])
}

/// The text without a leading '+', if it has one.
pub open spec fn unsigned_part(s: Seq<u32>) -> Seq<u32> {
    if s.len() > 0 && s[0] == 43 {
        s.drop_first()
    } else {
        s
    }
}

/// An integer: an optional '+' and one or more digits, whose value fits in 64 bits.
pub open spec fn parse_int(s: Seq<u32>) -> Option<u64> {
    let d = unsigned_part(s);
    if d.len() > 0 && all_digits(d) && digits_value(d) <= u64::MAX {
        Some(digits_value(d) as u64)
    } else {
        None
    }
}

/// Where the first decimal point stands in a text; its length if it has none.
pub open spec fn point_index(d: Seq<u32>) -> int
    decreases d.len(),
{
    if d.len() == 0 {
        0
    } else if d[0] == 46 {
        0
    } else {
        1 + point_index(d.drop_first())
    }
}

/// A decimal number: an optional '+', digits, a point and at most 19 further
/// digits, with at least one digit in all. Its value is `int + frac / 10^k`,
/// given as `(int, frac, k)`.
pub open spec fn parse_decimal(s: Seq<u32>) -> Option<(nat, nat, nat)> {
    let d = unsigned_part(s);
    let p = point_index(d);
    let ip = d.subrange(0, p);
    let fp = if p < d.len() { d.subrange(p + 1, d.len() as int) } else { Seq::empty() };
    if all_digits(ip) && all_digits(fp) && ip.len() + fp.len() > 0 && fp.len() <= 19 {
        Some((digits_value(ip), digits_value(fp), fp.len()))
    } else {
        None
    }
}

pub open spec fn pow10(k: nat) -> nat
    decreases k,
{
    if k == 0 {
        1
    } else {
        10 * pow10((k - 1) as nat)
    }
}

/// `(int + frac / 10^k) * factor`, rounded to the nearest integer, halves away from zero.
pub open spec fn scaled_round(int_part: nat, frac: nat, k: nat, factor: nat) -> nat {
    int_part * factor + (2 * frac * factor + pow10(k)) / (2 * pow10(k))
}

/// One suffix tried: the text must end in `suffix`; what stands before it,
/// trimmed, is an integer or a decimal number, and its product with `factor`
/// must fit in 64 bits.
pub open spec fn try_one_spec(s: Seq<u32>, suffix: Seq<u32>, factor: u64) -> Option<u64> {
    if s.len() >= suffix.len() && s.subrange(s.len() - suffix.len(), s.len() as int) == suffix {
        let t = trim(s.subrange(0, s.len() - suffix.len()));
        match parse_int(t) {
            Some(v) => if v * factor <= u64::MAX {
                Some((v * factor) as u64)
            } else {
                None
            },
            None => match parse_decimal(t) {
                Some((i, f, k)) => {
                    let p = scaled_round(i, f, k, factor as nat);
                    if p <= u64::MAX {
                        Some(p as u64)
                    } else {
                        None
                    }
                },
                None => None,
            },
        }
    } else {
        None
    }
}

proof fn lemma_point_index(d: Seq<u32>, i: int)
    requires
        0 <= i <= d.len(),
        forall|j: int| 0 <= j < i ==> d[j] != 46,
        i == d.len() || d[i] == 46,
    ensures
        point_index(d) == i,
    decreases i,
{
    if i > 0 {
        lemma_point_index(d.drop_first(), i - 1);
    }
}

proof fn lemma_digits_step(x: Seq<u32>, j: int)
    requires
        0 <= j < x.len(),
    ensures
        digits_value(x.subrange(0, j + 1)) == digits_value(x.subrange(0, j)) * 10 + (x[j] - 48) as nat,
{
    assert(x.subrange(0, j + 1).drop_last() =~= x.subrange(0, j));
}

/// The character codes of `s`.
pub(crate) fn str_codes(s: &str) -> (r: Vec<u32>)
    ensures
        r@ == codes(s@),
{
    let n = s.unicode_len();
    let mut v: Vec<u32> = Vec::new();
    let mut i: usize = 0;
    while i < n
        invariant
            n == s@.len(),
            i <= n,
            v@ == codes(s@).subrange(0, i as int),
        decreases n - i,
    {
        let c = s.get_char(i);
        v.push(c as u32);
        proof {
            assert(codes(s@).subrange(0, i + 1) =~= codes(s@).subrange(0, i as int).push(c as u32));
        }
        i = i + 1;
    }
    proof {
        assert(codes(s@).subrange(0, n as int) =~= codes(s@));
    }
    v
}

/// `s` without leading and trailing whitespace.
fn trim_codes(s: &[u32]) -> (r: Vec<u32>)
    ensures
        r@ == trim(s@),
{
    let n = s.len();
    let mut a: usize = 0;
    assert(s@.subrange(0, n as int) =~= s@);
    while a < n && is_ws_code(s[a])
        invariant
            n == s@.len(),
            a <= n,
            trim_start(s@) == trim_start(s@.subrange(a as int, n as int)),
        decreases n - a,
    {
        proof {
            assert(s@.subrange(a as int, n as int).drop_first() =~= s@.subrange(a + 1, n as int));
        }
        a = a + 1;
    }
    let ghost ts = s@.subrange(a as int, n as int);
    assert(trim_start(s@) == ts);
    let mut b: usize = n;
    while b > a && is_ws_code(s[b - 1])
        invariant
            n == s@.len(),
            a <= b <= n,
            ts == s@.subrange(a as int, n as int),
            trim_end(ts) == trim_end(s@.subrange(a as int, b as int)),
        decreases b - a,
    {
        proof {
            assert(s@.subrange(a as int, b as int).drop_last() =~= s@.subrange(a as int, b - 1));
        }
        b = b - 1;
    }
    let mut r: Vec<u32> = Vec::new();
    let mut i: usize = a;
    while i < b
        invariant
            n == s@.len(),
            a <= i <= b <= n,
            r@ == s@.subrange(a as int, i as int),
        decreases b - i,
    {
        r.push(s[i]);
        proof {
            assert(s@.subrange(a as int, i + 1) =~= s@.subrange(a as int, i as int).push(s@[i as int]));
        }
        i = i + 1;
    }
    r
}

/// `s` with ASCII upper case letters in lower case.
pub(crate) fn lower_codes(s: &[u32]) -> (r: Vec<u32>)
    ensures
        r@ == s@.map_values(|c: u32| ascii_lower(c)),
{
    let mut r: Vec<u32> = Vec::new();
    let mut i: usize = 0;
    while i < s.len()
        invariant
            i <= s@.len(),
            r@ == s@.subrange(0, i as int).map_values(|c: u32| ascii_lower(c)),
        decreases s@.len() - i,
    {
        let c = s[i];
        let l = if 65 <= c && c <= 90 {
            c + 32
        } else if c == 0x212A {
            107
        } else {
            c
        };
        r.push(l);
        proof {
            assert(s@.subrange(0, i + 1).map_values(|c: u32| ascii_lower(c)) =~= s@.subrange(
                0,
                i as int,
            ).map_values(|c: u32| ascii_lower(c)).push(l));
        }
        i = i + 1;
    }
    proof {
        assert(s@.subrange(0, s@.len() as int) =~= s@);
    }
    r
}

/// The value of the digits `s[from..to]`, or `None` where they are not all
/// digits or their value passes `u64::MAX`.
fn digits_u64(s: &[u32], from: usize, to: usize) -> (r: Option<u64>)
    requires
        from <= to <= s@.len(),
    ensures
        r is Some <==> all_digits(s@.subrange(from as int, to as int)) && digits_value(
            s@.subrange(from as int, to as int),
        ) <= u64::MAX,
        r matches Some(v) ==> v == digits_value(s@.subrange(from as int, to as int)),
{
    let ghost x = s@.subrange(from as int, to as int);
    let mut acc: u64 = 0;
    let mut i: usize = from;
    while i < to
        invariant
            from <= i <= to <= s@.len(),
            x == s@.subrange(from as int, to as int),
            all_digits(x.subrange(0, i - from)),
            acc == digits_value(x.subrange(0, i - from)),
        decreases to - i,
    {
        let c = s[i];
        if c < 48 || c > 57 {
            proof {
                assert(!is_digit(x[i - from]));
            }
            return None;
        }
        proof {
            lemma_digits_step(x, i - from);
            assert(x.subrange(0, i - from + 1) =~= x.subrange(0, i - from).push(c));
        }
        if acc > (u64::MAX - (c - 48) as u64) / 10 {
            proof {
                let d = (c - 48) as u64;
                assert(acc * 10 + d > u64::MAX) by (nonlinear_arith)
                    requires
                        acc > (u64::MAX - d) / 10,
                        d <= 9,
                ;
                if all_digits(x) {
                    lemma_digits_prefix_le(x, i - from + 1);
                }
            }
            return None;
        }
        acc = acc * 10 + (c - 48) as u64;
        i = i + 1;
    }
    proof {
        assert(x.subrange(0, to - from) =~= x);
    }
    Some(acc)
}

/// A prefix of a digit string has a value no larger than the whole.
proof fn lemma_digits_prefix_le(x: Seq<u32>, j: int)
    requires
        0 <= j <= x.len(),
        all_digits(x),
    ensures
        digits_value(x.subrange(0, j)) <= digits_value(x),
    decreases x.len() - j,
{
    if j < x.len() {
        lemma_digits_prefix_le(x, j + 1);
        lemma_digits_step(x, j);
    } else {
        assert(x.subrange(0, j) =~= x);
    }
}

/// The unit suffixes in the order they are tried, with their factors.
pub open spec fn suffixes() -> Seq<(Seq<u32>, u64)> {
    seq![
        (seq![101u32, 105, 98], EIB),
        (seq![112u32, 105, 98], PIB),
        (seq![116u32, 105, 98], TIB),
        (seq![103u32, 105, 98], GIB),
        (seq![109u32, 105, 98], MIB),
        (seq![107u32, 105, 98], KIB),
        (seq![101u32], EIB),
        (seq![112u32], PIB),
        (seq![116u32], TIB),
        (seq![103u32], GIB),
        (seq![109u32], MIB),
        (seq![107u32], KIB),
        (seq![101u32, 98], EB),
        (seq![112u32, 98], PB),
        (seq![116u32, 98], TB),
        (seq![103u32, 98], GB),
        (seq![109u32, 98], MB),
        (seq![107u32, 98], KB),
    ]
}

/// The first suffix from number `i` on that gives a value; failing all, a plain integer.
pub open spec fn parse_suffixed(t: Seq<u32>, i: nat) -> Option<u64>
    decreases 18 - i,
{
    if i >= 18 {
        parse_int(t)
    } else {
        match try_one_spec(t, suffixes()[i as int].0, suffixes()[i as int].1) {
            Some(v) => Some(v),
            None => parse_suffixed(t, i + 1),
        }
    }
}

/// The byte count that a text denotes: trimmed and in lower case, a number with
/// one of the suffixes `eib pib tib gib mib kib`, `e p t g m k` (powers of 1024),
/// `eb pb tb gb mb kb` (powers of 1000), or a plain integer. A number with a
/// unit may carry a fraction; exponent forms such as `1e3k` are not accepted.
pub open spec fn parse_bytes_spec(s: Seq<char>) -> Option<u64> {
    parse_suffixed(trim(codes(s)).map_values(|c: u32| ascii_lower(c)), 0)
}

proof fn lemma_digits_bound(x: Seq<u32>)
    requires
        all_digits(x),
    ensures
        digits_value(x) < pow10(x.len()),
    decreases x.len(),
{
    if x.len() > 0 {
        let y = x.drop_last();
        assert(all_digits(y)) by {
            assert forall|i: int| 0 <= i < y.len() implies is_digit(#[trigger] y[i]) by {
                assert(y[i] == x[i]);
            }
        }
        lemma_digits_bound(y);
        assert(is_digit(x[x.len() - 1]));
    }
}

/// Whether `s[from..to]` are all digits.
pub(crate) fn all_digit_codes(s: &[u32], from: usize, to: usize) -> (r: bool)
    requires
        from <= to <= s@.len(),
    ensures
        r == all_digits(s@.subrange(from as int, to as int)),
{
    let mut i: usize = from;
    while i < to
        invariant
            from <= i <= to <= s@.len(),
            forall|j: int| from <= j < i ==> is_digit(#[trigger] s@[j]),
        decreases to - i,
    {
        if s[i] < 48 || s[i] > 57 {
            proof {
                assert(!is_digit(s@.subrange(from as int, to as int)[i - from]));
            }
            return false;
        }
        i = i + 1;
    }
    proof {
        let x = s@.subrange(from as int, to as int);
        assert forall|j: int| 0 <= j < x.len() implies is_digit(#[trigger] x[j]) by {
            assert(x[j] == s@[from + j]);
        }
    }
    true
}

/// An integer: an optional '+' and digits.
pub(crate) fn parse_int_codes(t: &[u32]) -> (r: Option<u64>)
    ensures
        r == parse_int(t@),
{
    let from: usize = if t.len() > 0 && t[0] == 43 {
        1
    } else {
        0
    };
    proof {
        assert(unsigned_part(t@) =~= t@.subrange(from as int, t@.len() as int));
    }
    if from == t.len() {
        return None;
    }
    digits_u64(t, from, t.len())
}

/// A decimal number scaled by `factor`, rounded, if the product fits in 64 bits.
fn decimal_product(t: &[u32], factor: u64) -> (r: Option<u64>)
    requires
        1 <= factor <= EIB,
    ensures
        r == match parse_decimal(t@) {
            Some((i, f, k)) => if scaled_round(i, f, k, factor as nat) <= u64::MAX {
                Some(scaled_round(i, f, k, factor as nat) as u64)
            } else {
                None
            },
            None => None,
        },
{
    let n = t.len();
    let from: usize = if n > 0 && t[0] == 43 {
        1
    } else {
        0
    };
    let ghost d = unsigned_part(t@);
    proof {
        assert(d =~= t@.subrange(from as int, n as int));
    }
    let mut p: usize = from;
    while p < n && t[p] != 46
        invariant
            from <= p <= n == t@.len(),
            forall|j: int| from <= j < p ==> t@[j] != 46,
        decreases n - p,
    {
        p = p + 1;
    }
    proof {
        assert forall|j: int| 0 <= j < p - from implies d[j] != 46 by {
            assert(d[j] == t@[from + j]);
        }
        lemma_point_index(d, p - from);
        assert(d.subrange(0, p - from) =~= t@.subrange(from as int, p as int));
    }
    let fstart: usize = if p < n {
        p + 1
    } else {
        n
    };
    proof {
        if p < n {
            assert(d.subrange(p - from + 1, d.len() as int) =~= t@.subrange(fstart as int, n as int));
        } else {
            assert(Seq::<u32>::empty() =~= t@.subrange(fstart as int, n as int));
        }
    }
    let ilen: usize = p - from;
    let flen: usize = n - fstart;
    if !all_digit_codes(t, from, p) || !all_digit_codes(t, fstart, n) || ilen + flen == 0 || flen
        > MAX_FRACTION_DIGITS {
        return None;
    }
    let ghost ip = t@.subrange(from as int, p as int);
    let ghost fp = t@.subrange(fstart as int, n as int);
    proof {
        lemma_digits_bound(fp);
    }
    let mut pk: u128 = 1;
    let mut j: usize = 0;
    while j < flen
        invariant
            j <= flen <= 19,
            pk == pow10(j as nat),
            pk <= 10000000000000000000u128,
        decreases flen - j,
    {
        proof {
            lemma_pow10_mono(j as nat + 1, 19);
        }
        pk = pk * 10;
        j = j + 1;
    }
    proof {
        lemma_pow10_mono(flen as nat, 19);
    }
    let fv: u64 = match digits_u64(t, fstart, n) {
        Some(v) => v,
        None => {
            return None;
        },
    };
    let iv: u64 = match digits_u64(t, from, p) {
        Some(v) => v,
        None => {
            proof {
                assert(digits_value(ip) * factor >= digits_value(ip)) by (nonlinear_arith)
                    requires
                        factor >= 1,
                ;
            }
            return None;
        },
    };
    let prod: u64 = match iv.checked_mul(factor) {
        Some(v) => v,
        None => {
            return None;
        },
    };
    proof {
        assert(2 * (fv as int) * (factor as int) + pk <= 2 * 10000000000000000000 * 1152921504606846976 + 10000000000000000000) by (nonlinear_arith)
            requires
                fv < 10000000000000000000int,
                factor <= 1152921504606846976int,
                pk <= 10000000000000000000int,
        ;
    }
    let rnd: u128 = (2 * (fv as u128) * (factor as u128) + pk) / (2 * pk);
    let total: u128 = prod as u128 + rnd;
    if total > u64::MAX as u128 {
        return None;
    }
    Some(total as u64)
}

proof fn lemma_pow10_mono(a: nat, b: nat)
    requires
        a <= b,
    ensures
        pow10(a) <= pow10(b),
        pow10(19) == 10000000000000000000,
    decreases b - a,
{
    reveal_with_fuel(pow10, 20);
    if a < b {
        lemma_pow10_mono(a, (b - 1) as nat);
    }
}

/// Tries one unit suffix on the trimmed, lower case text `s`.
fn try_one_parsebytes(s: &[u32], suffix: &[u32], factor: u64) -> (r: Option<u64>)
    requires
        1 <= factor <= EIB,
    ensures
        r == try_one_spec(s@, suffix@, factor),
{
    let n = s.len();
    let m = suffix.len();
    if n < m {
        return None;
    }
    let mut i: usize = 0;
    while i < m
        invariant
            n == s@.len(),
            m == suffix@.len(),
            m <= n,
            i <= m,
            forall|j: int| 0 <= j < i ==> s@[n - m + j] == suffix@[j],
        decreases m - i,
    {
        if s[n - m + i] != suffix[i] {
            proof {
                assert(s@.subrange(n - m, n as int)[i as int] != suffix@[i as int]);
            }
            return None;
        }
        i = i + 1;
    }
    proof {
        assert(s@.subrange(n - m, n as int) =~= suffix@);
    }
    let head = slice_subrange(s, 0, n - m);
    let t = trim_codes(head);
    match parse_int_codes(t.as_slice()) {
        Some(v) => {
            match v.checked_mul(factor) {
                Some(p) => Some(p),
                None => None,
            }
        },
        None => decimal_product(t.as_slice(), factor),
    }
}

fn codes1(a: u32) -> (r: Vec<u32>)
    ensures
        r@ == seq![a],
{
    let mut v: Vec<u32> = Vec::new();
    v.push(a);
    proof {
        assert(v@ =~= seq![a]);
    }
    v
}

fn codes2(a: u32, b: u32) -> (r: Vec<u32>)
    ensures
        r@ == seq![a, b],
{
    let mut v = codes1(a);
    v.push(b);
    proof {
        assert(v@ =~= seq![a, b]);
    }
    v
}

fn codes3(a: u32, b: u32, c: u32) -> (r: Vec<u32>)
    ensures
        r@ == seq![a, b, c],
{
    let mut v = codes2(a, b);
    v.push(c);
    proof {
        assert(v@ =~= seq![a, b, c]);
    }
    v
}

/// Suffix number `i` and its factor.
fn suffix_at(i: usize) -> (r: (Vec<u32>, u64))
    requires
        i < 18,
    ensures
        r.0@ == suffixes()[i as int].0,
        r.1 == suffixes()[i as int].1,
        1 <= r.1 <= EIB,
{
    match i {
        0 => (codes3(101, 105, 98), EIB),
        1 => (codes3(112, 105, 98), PIB),
        2 => (codes3(116, 105, 98), TIB),
        3 => (codes3(103, 105, 98), GIB),
        4 => (codes3(109, 105, 98), MIB),
        5 => (codes3(107, 105, 98), KIB),
        6 => (codes1(101), EIB),
        7 => (codes1(112), PIB),
        8 => (codes1(116), TIB),
        9 => (codes1(103), GIB),
        10 => (codes1(109), MIB),
        11 => (codes1(107), KIB),
        12 => (codes2(101, 98), EB),
        13 => (codes2(112, 98), PB),
        14 => (codes2(116, 98), TB),
        15 => (codes2(103, 98), GB),
        16 => (codes2(109, 98), MB),
        _ => (codes2(107, 98), KB),
    }
}

/// Parses a byte count such as `"42"`, `"1.5 GiB"` or `" 42 mb "`.
/// Fails with `Parse` exactly where `parse_bytes_spec` gives no value.
pub fn parsebytes(s: &str) -> (r: Result<u64, Error>)
    ensures
        r is Ok <==> parse_bytes_spec(s@) is Some,
        r matches Ok(v) ==> parse_bytes_spec(s@) == Some(v),
        r matches Err(e) ==> e.kind == ErrorKind::Parse,
{
    let c = str_codes(s);
    let t0 = trim_codes(c.as_slice());
    let t = lower_codes(t0.as_slice());
    let mut i: usize = 0;
    while i < 18
        invariant
            i <= 18,
            parse_bytes_spec(s@) == parse_suffixed(t@, i as nat),
        decreases 18 - i,
    {
        let (suffix, factor) = suffix_at(i);
        match try_one_parsebytes(t.as_slice(), suffix.as_slice(), factor) {
            Some(v) => {
                return Ok(v);
            },
            None => {},
        }
        i = i + 1;
    }
    match parse_int_codes(t.as_slice()) {
        Some(v) => Ok(v),
        None => Err(Error::new(ErrorKind::Parse)),
    }
}

} // verus!
