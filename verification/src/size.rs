//! Human-readable size thresholds: `"500MB"`, `"1GB"`, `"2.5GB"`, `"1TB"`.
//!
//! A size is a decimal number followed by an optional unit `B`, `KB`, `MB`, `GB`
//! or `TB` (binary multiples). The text is put in upper case before it is read, so
//! its letters may be written in either case. The number is read exactly; the byte
//! count is the whole part of number times unit, held at `u64::MAX`.
use vstd::prelude::*;
use vstd::arithmetic::div_mod::*;
use vstd::arithmetic::mul::*;
use crate::text::{
    chars_of, decimal, digit_char, is_white, lemma_trim_twice, push_str, string_of, trim,
    trim_bounds, trim_end, trim_start,
};

verus! {

/// Bytes in a kilobyte as this tool counts them.
pub const KIB: u64 = 1024;

/// Bytes in a megabyte as this tool counts them.
pub const MIB: u64 = 1048576;

/// Bytes in a gigabyte as this tool counts them.
pub const GIB: u64 = 1073741824;

/// Bytes in a terabyte as this tool counts them.
pub const TIB: u64 = 1099511627776;

/// Exponents larger than this are all treated alike: their results are 0 or `u64::MAX`.
pub const EXPONENT_CAP: u128 = 0x10_0000_0000_0000_0000_0000_0000;

// ─── The model ─────────────────────────────────────────────

/// An ASCII decimal digit.
pub open spec fn is_digit(c: char) -> bool {
    48 <= c as u32 <= 57
}

/// The value of a decimal digit.
pub open spec fn digit_value(c: char) -> nat {
    (c as u32 - 48) as nat
}

/// Every character of `s` is a decimal digit.
pub open spec fn all_digits(s: Seq<char>) -> bool {
    forall|i: int| 0 <= i < s.len() ==> is_digit(#[trigger] s[i])
}

/// The number that the decimal digits `s` spell (0 for none).
pub open spec fn digits_value(s: Seq<char>) -> nat
    decreases s.len(),
{
    if s.len() == 0 {
        0
    } else {
        digits_value(s.drop_last()) * 10 + digit_value(s.last())
    }
}

/// Ten to the power `n`.
pub open spec fn pow10(n: nat) -> nat
    decreases n,
{
    if n == 0 {
        1
    } else {
        10 * pow10((n - 1) as nat)
    }
}

/// `x`, held at `u64::MAX`, as a float-to-integer cast saturates.
pub open spec fn cap(x: nat) -> nat {
    if x > u64::MAX {
        u64::MAX as nat
    } else {
        x
    }
}

/// The whole part of `n * 10^e * m`.
pub open spec fn scaled(n: nat, e: int, m: nat) -> nat {
    if e >= 0 {
        n * pow10(e as nat) * m
    } else {
        n * m / pow10((-e) as nat)
    }
}

/// `c` is the ASCII letter `upper`, in either case.
pub open spec fn letter_is(c: char, upper: char) -> bool {
    c == upper || c as u32 == upper as u32 + 32
}

/// `s` spells `word` (upper-case ASCII letters), ignoring ASCII case.
pub open spec fn ci_eq(s: Seq<char>, word: Seq<char>) -> bool {
    s.len() == word.len() && forall|i: int| 0 <= i < s.len() ==> letter_is(#[trigger] s[i], word[i])
}

/// The index of the first character at or after `i` that is not a digit.
pub open spec fn first_non_digit(s: Seq<char>, i: int) -> int
    decreases s.len() - i,
{
    if 0 <= i < s.len() && is_digit(s[i]) {
        first_non_digit(s, i + 1)
    } else {
        i
    }
}

/// The unit at the end of the trimmed size text: how many characters it takes and
/// how many bytes it stands for.
pub open spec fn size_unit(t: Seq<char>) -> (nat, nat) {
    let n = t.len() as int;
    if n >= 2 && letter_is(t[n - 1], 'B') && letter_is(t[n - 2], 'T') {
        (2, TIB as nat)
    } else if n >= 2 && letter_is(t[n - 1], 'B') && letter_is(t[n - 2], 'G') {
        (2, GIB as nat)
    } else if n >= 2 && letter_is(t[n - 1], 'B') && letter_is(t[n - 2], 'M') {
        (2, MIB as nat)
    } else if n >= 2 && letter_is(t[n - 1], 'B') && letter_is(t[n - 2], 'K') {
        (2, KIB as nat)
    } else if n >= 1 && letter_is(t[n - 1], 'B') {
        (1, 1)
    } else {
        (0, 1)
    }
}

/// The text of the number in a trimmed size text: all of it before its unit.
pub open spec fn size_number(t: Seq<char>) -> Seq<char> {
    t.subrange(0, t.len() - size_unit(t).0)
}

/// The text of the number in a size: the trimmed text without its unit.
pub open spec fn number_text(s: Seq<char>) -> Seq<char> {
    size_number(trim(s))
}

/// Where the integer digits of the mantissa end.
pub open spec fn int_end(b: Seq<char>) -> int {
    first_non_digit(b, 0)
}

/// The mantissa has a decimal point.
pub open spec fn has_point(b: Seq<char>) -> bool {
    int_end(b) < b.len() && b[int_end(b)] == '.'
}

/// Where the mantissa ends.
pub open spec fn mantissa_end(b: Seq<char>) -> int {
    if has_point(b) {
        first_non_digit(b, int_end(b) + 1)
    } else {
        int_end(b)
    }
}

/// The fraction digits of the mantissa.
pub open spec fn frac_digits(b: Seq<char>) -> Seq<char> {
    if has_point(b) {
        b.subrange(int_end(b) + 1, mantissa_end(b))
    } else {
        Seq::<char>::empty()
    }
}

/// All digits of the mantissa, without the point.
pub open spec fn mantissa_digits(b: Seq<char>) -> Seq<char> {
    b.subrange(0, int_end(b)) + frac_digits(b)
}

/// Where the exponent digits start (after the `e` and its sign).
pub open spec fn exponent_start(b: Seq<char>) -> int {
    let j0 = mantissa_end(b) + 1;
    if j0 < b.len() && (b[j0] == '+' || b[j0] == '-') {
        j0 + 1
    } else {
        j0
    }
}

/// The exponent is negative.
pub open spec fn exponent_negative(b: Seq<char>) -> bool {
    let j0 = mantissa_end(b) + 1;
    j0 < b.len() && b[j0] == '-'
}

/// The digits and the power of ten of a finite decimal number
/// (`Digit+ | Digit+ '.' Digit* | Digit* '.' Digit+`, then an optional
/// exponent `e` or `E`, an optional sign and digits), or `None` if `b` is not one.
pub open spec fn finite_parts(b: Seq<char>) -> Option<(Seq<char>, int)> {
    let digits = mantissa_digits(b);
    let f = frac_digits(b).len() as int;
    let i2 = mantissa_end(b);
    if digits.len() == 0 {
        None
    } else if i2 == b.len() {
        Some((digits, -f))
    } else if letter_is(b[i2], 'E') {
        let j1 = exponent_start(b);
        let j2 = first_non_digit(b, j1);
        if j2 == j1 || j2 != b.len() {
            None
        } else {
            let e = digits_value(b.subrange(j1, j2)) as int;
            Some((digits, (if exponent_negative(b) { -e } else { e }) - f))
        }
    } else {
        None
    }
}

/// The bytes that the number text `s` stands for with unit multiplier `m`, or
/// `None` if `s` is not a number. A sign may lead; `inf`, `infinity` and `nan`
/// are numbers too. Negative numbers and `nan` give 0, `inf` gives `u64::MAX`.
pub open spec fn number_value(s: Seq<char>, m: nat) -> Option<nat> {
    let neg = s.len() > 0 && s[0] == '-';
    let b = if s.len() > 0 && (s[0] == '+' || s[0] == '-') {
        s.drop_first()
    } else {
        s
    };
    if ci_eq(b, seq!['I', 'N', 'F']) || ci_eq(b, seq!['I', 'N', 'F', 'I', 'N', 'I', 'T', 'Y']) {
        Some(
            if neg {
                0
            } else {
                u64::MAX as nat
            },
        )
    } else if ci_eq(b, seq!['N', 'A', 'N']) {
        Some(0)
    } else {
        match finite_parts(b) {
            Some(parts) => Some(
                if neg {
                    0
                } else {
                    cap(scaled(digits_value(parts.0), parts.1, m))
                },
            ),
            None => None,
        }
    }
}

/// The byte count that a trimmed size text `t` stands for: its number, read without
/// the blanks around it, times its unit; `None` if the number cannot be read.
pub open spec fn read_size(t: Seq<char>) -> Option<nat> {
    number_value(trim(size_number(t)), size_unit(t).1)
}

/// The byte count that the size text `s` stands for, or `None` if it is not a size:
/// the text is trimmed and put in upper case (Unicode upper case, as `str::to_uppercase`
/// gives it) before its unit and number are read.
pub open spec fn size_bytes(s: Seq<char>) -> Option<nat> {
    read_size(uppercase(trim(s)))
}

// ─── Arithmetic facts ──────────────────────────────────────

pub proof fn lemma_pow10_positive(n: nat)
    ensures
        pow10(n) >= 1,
    decreases n,
{
    if n > 0 {
        lemma_pow10_positive((n - 1) as nat);
    }
}

pub proof fn lemma_pow10_add(a: nat, b: nat)
    ensures
        pow10(a + b) == pow10(a) * pow10(b),
    decreases a,
{
    if a > 0 {
        let a1 = (a - 1) as nat;
        lemma_pow10_add(a1, b);
        assert(pow10(a + b) == 10 * pow10(a1 + b));
        assert(pow10(a) == 10 * pow10(a1));
        lemma_mul_is_associative(10, pow10(a1) as int, pow10(b) as int);
    } else {
        assert(pow10(0) == 1);
        assert(a + b == b);
    }
}

pub proof fn lemma_pow10_monotone(a: nat, b: nat)
    requires
        a <= b,
    ensures
        pow10(a) <= pow10(b),
    decreases b,
{
    if a < b {
        lemma_pow10_monotone(a, (b - 1) as nat);
        lemma_pow10_positive((b - 1) as nat);
    }
}

pub proof fn lemma_pow10_21()
    ensures
        pow10(21) > u64::MAX,
        pow10(13) > TIB,
{
    reveal_with_fuel(pow10, 22);
}

pub proof fn lemma_digits_concat(x: Seq<char>, y: Seq<char>)
    ensures
        digits_value(x + y) == digits_value(x) * pow10(y.len()) + digits_value(y),
    decreases y.len(),
{
    if y.len() == 0 {
        assert(x + y =~= x);
        assert(digits_value(y) == 0);
        assert(pow10(0) == 1);
        assert(digits_value(x) * 1 == digits_value(x));
    } else {
        let y1 = y.drop_last();
        assert((x + y).drop_last() =~= x + y1);
        assert((x + y).last() == y.last());
        lemma_digits_concat(x, y1);
        let a = digits_value(x) as int;
        let p = pow10(y1.len()) as int;
        let c = digits_value(y1) as int;
        assert((a * p + c) * 10 == a * (10 * p) + c * 10) by (nonlinear_arith);
        assert(pow10(y.len()) == 10 * p);
        assert(digits_value(y) == c * 10 + digit_value(y.last()));
        assert(digits_value(x + y) == (a * p + c) * 10 + digit_value(y.last()));
    }
}

pub proof fn lemma_digits_bound(x: Seq<char>)
    requires
        all_digits(x),
    ensures
        digits_value(x) < pow10(x.len()),
    decreases x.len(),
{
    if x.len() > 0 {
        let x1 = x.drop_last();
        assert(is_digit(x[x.len() - 1]));
        lemma_digits_bound(x1);
    }
}

pub proof fn lemma_digits_first(f: Seq<char>)
    requires
        f.len() >= 1,
    ensures
        digits_value(f) == digit_value(f[0]) * pow10((f.len() - 1) as nat) + digits_value(
            f.drop_first(),
        ),
{
    let x = seq![f[0]];
    let y = f.drop_first();
    assert(x + y =~= f);
    lemma_digits_concat(x, y);
    assert(x.drop_last() =~= Seq::<char>::empty());
    assert(digits_value(x.drop_last()) == 0);
    assert(x.last() == f[0]);
    assert(digits_value(x) == digit_value(f[0]));
}

/// The right-to-left evaluation of `floor(0.f * m)`.
pub open spec fn frac_times(f: Seq<char>, m: nat) -> nat
    decreases f.len(),
{
    if f.len() == 0 {
        0
    } else {
        (digit_value(f[0]) * m + frac_times(f.drop_first(), m)) / 10
    }
}

pub proof fn lemma_frac_times(f: Seq<char>, m: nat)
    requires
        all_digits(f),
    ensures
        frac_times(f, m) == digits_value(f) * m / pow10(f.len()),
    decreases f.len(),
{
    if f.len() > 0 {
        let r = f.drop_first();
        lemma_frac_times(r, m);
        lemma_digits_first(f);
        let n = f.len();
        let p = pow10((n - 1) as nat) as int;
        let d0 = digit_value(f[0]) as int;
        let x = (digits_value(r) * m) as int;
        lemma_pow10_positive((n - 1) as nat);
        assert(pow10(n) == 10 * p);
        let a = digits_value(r) as int;
        let mm = m as int;
        assert((d0 * p + a) * mm == a * mm + (d0 * mm) * p) by (nonlinear_arith);
        lemma_hoist_over_denominator(x, d0 * m, p as nat);
        assert(x >= 0) by (nonlinear_arith)
            requires
                x == digits_value(r) * m,
        ;
        assert(d0 * m >= 0) by (nonlinear_arith)
            requires
                d0 >= 0,
        ;
        lemma_div_denominator(x + (d0 * m) * p, p, 10);
        lemma_mul_is_commutative(p, 10);
        assert(x + (d0 * m) * p == digits_value(f) * m);
        assert(frac_times(r, m) == x / p);
        assert(r.len() == n - 1);
        assert(frac_times(f, m) == (d0 * m + frac_times(r, m)) / 10);
        assert((x + (d0 * m) * p) / p == x / p + d0 * m);
        assert(digits_value(f) * m / pow10(n) == ((x + (d0 * m) * p) / p) / 10);
        assert(digits_value(f) * m / pow10(n) == (x / p + d0 * m) / 10);
        assert(frac_times(f, m) == (x / p + d0 * m) / 10);
    } else {
        assert(digits_value(f) == 0);
        assert(pow10(0) == 1);
        assert(0 * m == 0);
    }
}

/// The whole part splits over an integer part and a fraction.
pub proof fn lemma_split_floor(i: nat, f: nat, q: nat, m: nat)
    requires
        q > 0,
    ensures
        (i * q + f) * m / q == i * m + f * m / q,
{
    assert((i * q + f) * m == (f * m) as int + (i * m) as int * q) by (nonlinear_arith);
    lemma_hoist_over_denominator((f * m) as int, (i * m) as int, q);
}

/// Holding at the cap before a multiplication by a positive factor changes nothing.
pub proof fn lemma_cap_mul(x: nat, y: nat)
    requires
        y >= 1,
    ensures
        cap(cap(x) * y) == cap(x * y),
{
    if x > u64::MAX {
        assert(x * y >= x) by (nonlinear_arith)
            requires
                y >= 1,
        ;
        assert((u64::MAX as nat) * y >= u64::MAX) by (nonlinear_arith)
            requires
                y >= 1,
        ;
    }
}

/// Holding at the cap before appending a digit changes nothing.
pub proof fn lemma_cap_step(x: nat, d: nat)
    ensures
        cap(cap(x) * 10 + d) == cap(x * 10 + d),
{
}

/// Exponents beyond the cap lead to the same byte count as the cap itself.
pub proof fn lemma_huge_exponent(n: nat, len: nat, f: nat, e: nat, neg: bool, m: nat)
    requires
        n < pow10(len),
        f <= len,
        len <= usize::MAX,
        1 <= m <= TIB,
        e >= EXPONENT_CAP,
    ensures
        cap(scaled(n, (if neg { -(e as int) } else { e as int }) - f, m)) == cap(
            scaled(n, (if neg { -(EXPONENT_CAP as int) } else { EXPONENT_CAP as int }) - f, m),
        ),
{
    let e1 = (if neg { -(e as int) } else { e as int }) - f;
    let e2 = (if neg { -(EXPONENT_CAP as int) } else { EXPONENT_CAP as int }) - f;
    lemma_pow10_21();
    if !neg {
        assert(e1 >= 21 && e2 >= 21);
        lemma_big_positive(n, e1 as nat, m);
        lemma_big_positive(n, e2 as nat, m);
    } else {
        assert(-e1 >= len + 13 && -e2 >= len + 13);
        lemma_big_negative(n, len, (-e1) as nat, m);
        lemma_big_negative(n, len, (-e2) as nat, m);
    }
}

pub proof fn lemma_big_positive(n: nat, e: nat, m: nat)
    requires
        e >= 21,
        m >= 1,
    ensures
        cap(scaled(n, e as int, m)) == if n == 0 {
            0
        } else {
            u64::MAX as nat
        },
{
    lemma_pow10_21();
    lemma_pow10_monotone(21, e);
    let p = pow10(e);
    if n == 0 {
        assert(n * p * m == 0) by (nonlinear_arith)
            requires
                n == 0,
        ;
    } else {
        assert(n * p * m >= p) by (nonlinear_arith)
            requires
                n >= 1,
                m >= 1,
                p >= 1,
        ;
    }
}

pub proof fn lemma_big_negative(n: nat, len: nat, k: nat, m: nat)
    requires
        n < pow10(len),
        k >= len + 13,
        1 <= m <= TIB,
    ensures
        scaled(n, -(k as int), m) == 0,
{
    lemma_pow10_21();
    lemma_pow10_add(len, 13);
    lemma_pow10_monotone(len + 13, k);
    let a = pow10(len);
    let b = pow10(13);
    assert(n * m < a * b) by (nonlinear_arith)
        requires
            n < a,
            m < b,
            m >= 1,
    ;
    assert(n * m / pow10(k) == 0) by {
        let q = pow10(k);
        assert(0 <= n * m < q);
        lemma_basic_div((n * m) as int, q as int);
    }
}

// ─── Executable pieces ─────────────────────────────────────

fn is_digit_char(c: char) -> (b: bool)
    ensures
        b == is_digit(c),
{
    let u = c as u32;
    48 <= u && u <= 57
}

fn digit_of(c: char) -> (d: u64)
    requires
        is_digit(c),
    ensures
        d == digit_value(c),
        d < 10,
{
    (c as u32 - 48) as u64
}

fn letter_matches(c: char, upper: char) -> (b: bool)
    requires
        upper as u32 <= 127,
    ensures
        b == letter_is(c, upper),
{
    c == upper || c as u32 == upper as u32 + 32
}

fn skip_digits(v: &[char], i: usize) -> (j: usize)
    requires
        i <= v.len(),
    ensures
        j == first_non_digit(v@, i as int),
        i <= j <= v.len(),
        all_digits(v@.subrange(i as int, j as int)),
{
    let mut j = i;
    while j < v.len() && is_digit_char(v[j])
        invariant
            i <= j <= v.len(),
            first_non_digit(v@, i as int) == first_non_digit(v@, j as int),
            forall|k: int| i <= k < j ==> is_digit(v@[k]),
        decreases v.len() - j,
    {
        j = j + 1;
    }
    assert(all_digits(v@.subrange(i as int, j as int))) by {
        assert forall|k: int| 0 <= k < j - i implies is_digit(
            #[trigger] v@.subrange(i as int, j as int)[k],
        ) by {
            assert(v@.subrange(i as int, j as int)[k] == v@[i + k]);
        }
    }
    j
}

fn ci_matches(v: &[char], word: &[char]) -> (b: bool)
    requires
        forall|i: int| 0 <= i < word.len() ==> (#[trigger] word@[i]) as u32 <= 127,
    ensures
        b == ci_eq(v@, word@),
{
    if v.len() != word.len() {
        return false;
    }
    let mut i: usize = 0;
    while i < v.len()
        invariant
            v.len() == word.len(),
            i <= v.len(),
            forall|k: int| 0 <= k < word.len() ==> (#[trigger] word@[k]) as u32 <= 127,
            forall|k: int| 0 <= k < i ==> letter_is(#[trigger] v@[k], word@[k]),
        decreases v.len() - i,
    {
        if !letter_matches(v[i], word[i]) {
            return false;
        }
        i = i + 1;
    }
    true
}

/// The number spelled by the digits `v[lo..hi]`, held at `u64::MAX`.
fn capped_digits(v: &[char], lo: usize, hi: usize) -> (r: u64)
    requires
        lo <= hi <= v.len(),
        all_digits(v@.subrange(lo as int, hi as int)),
    ensures
        r == cap(digits_value(v@.subrange(lo as int, hi as int))),
{
    let mut acc: u64 = 0;
    let mut j = lo;
    assert(v@.subrange(lo as int, lo as int) =~= Seq::<char>::empty());
    while j < hi
        invariant
            lo <= j <= hi <= v.len(),
            all_digits(v@.subrange(lo as int, hi as int)),
            acc == cap(digits_value(v@.subrange(lo as int, j as int))),
        decreases hi - j,
    {
        assert(v@.subrange(lo as int, hi as int)[j - lo] == v@[j as int]);
        let d = digit_of(v[j]);
        let ghost prev = digits_value(v@.subrange(lo as int, j as int));
        assert(v@.subrange(lo as int, j + 1).drop_last() =~= v@.subrange(lo as int, j as int));
        proof {
            lemma_cap_step(prev, d as nat);
        }
        acc = match acc.checked_mul(10) {
            Some(a) => match a.checked_add(d) {
                Some(b) => b,
                None => u64::MAX,
            },
            None => u64::MAX,
        };
        j = j + 1;
    }
    acc
}

/// The exponent spelled by the digits `v[lo..hi]`, held at `EXPONENT_CAP`.
fn capped_exponent(v: &[char], lo: usize, hi: usize) -> (r: u128)
    requires
        lo <= hi <= v.len(),
        all_digits(v@.subrange(lo as int, hi as int)),
    ensures
        r == if digits_value(v@.subrange(lo as int, hi as int)) > EXPONENT_CAP {
            EXPONENT_CAP as nat
        } else {
            digits_value(v@.subrange(lo as int, hi as int))
        },
{
    let mut acc: u128 = 0;
    let mut j = lo;
    assert(v@.subrange(lo as int, lo as int) =~= Seq::<char>::empty());
    while j < hi
        invariant
            lo <= j <= hi <= v.len(),
            all_digits(v@.subrange(lo as int, hi as int)),
            acc == if digits_value(v@.subrange(lo as int, j as int)) > EXPONENT_CAP {
                EXPONENT_CAP as nat
            } else {
                digits_value(v@.subrange(lo as int, j as int))
            },
        decreases hi - j,
    {
        assert(v@.subrange(lo as int, hi as int)[j - lo] == v@[j as int]);
        let d = digit_of(v[j]);
        assert(v@.subrange(lo as int, j + 1).drop_last() =~= v@.subrange(lo as int, j as int));
        let next = acc * 10 + d as u128;
        acc = if next > EXPONENT_CAP {
            EXPONENT_CAP
        } else {
            next
        };
        j = j + 1;
    }
    acc
}

/// `floor(0.v[lo..hi] * m)`, evaluated digit by digit from the right.
fn frac_bytes(v: &[char], lo: usize, hi: usize, m: u64) -> (r: u64)
    requires
        lo <= hi <= v.len(),
        all_digits(v@.subrange(lo as int, hi as int)),
        1 <= m <= TIB,
    ensures
        r == digits_value(v@.subrange(lo as int, hi as int)) * (m as nat) / pow10((hi - lo) as nat),
        r < m,
{
    let mut h: u64 = 0;
    let mut j = hi;
    assert(v@.subrange(hi as int, hi as int) =~= Seq::<char>::empty());
    while j > lo
        invariant
            lo <= j <= hi <= v.len(),
            all_digits(v@.subrange(lo as int, hi as int)),
            1 <= m <= TIB,
            h == frac_times(v@.subrange(j as int, hi as int), m as nat),
            h < m,
        decreases j - lo,
    {
        assert(v@.subrange(lo as int, hi as int)[j - 1 - lo] == v@[j - 1]);
        let d = digit_of(v[j - 1]);
        assert(v@.subrange(j - 1, hi as int).drop_first() =~= v@.subrange(j as int, hi as int));
        assert(v@.subrange(j - 1, hi as int)[0] == v@[j - 1]);
        assert(d * m <= 9 * TIB) by (nonlinear_arith)
            requires
                d < 10,
                m <= TIB,
        ;
        assert(d * m + h < 10 * m) by (nonlinear_arith)
            requires
                d <= 9,
                h < m,
        ;
        h = (d * m + h) / 10;
        j = j - 1;
    }
    proof {
        lemma_frac_times(v@.subrange(lo as int, hi as int), m as nat);
    }
    h
}

/// `cap(x * m)` for `x` already held at the cap.
fn capped_mul(x: u64, m: u64) -> (r: u64)
    ensures
        r == cap((x * m) as nat),
{
    match x.checked_mul(m) {
        Some(y) => y,
        None => u64::MAX,
    }
}

/// The bytes for the finite number with digits `v[lo..hi]` and power of ten `e`.
fn finite_bytes(v: &[char], lo: usize, hi: usize, e: i128, m: u64) -> (r: u64)
    requires
        lo <= hi <= v.len(),
        all_digits(v@.subrange(lo as int, hi as int)),
        1 <= m <= TIB,
        -(EXPONENT_CAP as int) - (usize::MAX as int) <= e <= EXPONENT_CAP,
    ensures
        r == cap(scaled(digits_value(v@.subrange(lo as int, hi as int)), e as int, m as nat)),
{
    let ghost d = v@.subrange(lo as int, hi as int);
    let ghost n = digits_value(d);
    proof {
        lemma_digits_bound(d);
        lemma_pow10_21();
    }
    if e >= 0 {
        let mut x = capped_digits(v, lo, hi);
        if x == 0 {
            assert(n * pow10(e as nat) * m == 0) by (nonlinear_arith)
                requires
                    n == 0,
            ;
            return 0;
        }
        if e > 20 {
            proof {
                lemma_big_positive(n, e as nat, m as nat);
            }
            return u64::MAX;
        }
        let mut i: i128 = 0;
        assert(pow10(0) == 1);
        assert(n * pow10(0) == n);
        while i < e
            invariant
                0 <= i <= e <= 20,
                x == cap(n * pow10(i as nat)),
            decreases e - i,
        {
            proof {
                lemma_cap_mul(n * pow10(i as nat), 10);
                assert(n * pow10(i as nat) * 10 == n * pow10((i + 1) as nat)) by {
                    lemma_mul_is_associative(n as int, pow10(i as nat) as int, 10);
                    lemma_mul_is_commutative(pow10(i as nat) as int, 10);
                }
            }
            x = capped_mul(x, 10);
            i = i + 1;
        }
        proof {
            lemma_cap_mul(n * pow10(e as nat), m as nat);
        }
        capped_mul(x, m)
    } else {
        let k = -e;
        let len = hi - lo;
        if k <= len as i128 {
            let mid = hi - k as usize;
            let ghost ip = v@.subrange(lo as int, mid as int);
            let ghost fp = v@.subrange(mid as int, hi as int);
            assert(ip + fp =~= d);
            assert(all_digits(ip)) by {
                assert forall|i: int| 0 <= i < ip.len() implies is_digit(#[trigger] ip[i]) by {
                    assert(ip[i] == d[i]);
                }
            }
            assert(all_digits(fp)) by {
                assert forall|i: int| 0 <= i < fp.len() implies is_digit(#[trigger] fp[i]) by {
                    assert(fp[i] == d[i + mid - lo]);
                }
            }
            let x = capped_digits(v, lo, mid);
            let h = frac_bytes(v, mid, hi, m);
            proof {
                lemma_digits_concat(ip, fp);
                lemma_pow10_positive(k as nat);
                lemma_split_floor(digits_value(ip), digits_value(fp), pow10(k as nat), m as nat);
                lemma_cap_mul(digits_value(ip), m as nat);
            }
            let y = capped_mul(x, m);
            y.saturating_add(h)
        } else {
            let h = frac_bytes(v, lo, hi, m);
            let j = k - len as i128;
            proof {
                lemma_pow10_add(len as nat, j as nat);
                lemma_pow10_positive(len as nat);
                lemma_pow10_positive(j as nat);
                lemma_div_denominator((n * m) as int, pow10(len as nat) as int, pow10(j as nat) as int);
            }
            if j >= 14 {
                proof {
                    lemma_pow10_monotone(13, j as nat);
                    lemma_basic_div(h as int, pow10(j as nat) as int);
                }
                return 0;
            }
            let mut r = h;
            let mut i: i128 = 0;
            assert((h as nat) / pow10(0) == h);
            while i < j
                invariant
                    0 <= i <= j < 14,
                    r == (h as nat) / pow10(i as nat),
                decreases j - i,
            {
                proof {
                    lemma_pow10_positive(i as nat);
                    lemma_div_denominator(h as int, pow10(i as nat) as int, 10);
                }
                r = r / 10;
                i = i + 1;
            }
            r
        }
    }
}

/// Copies `v[lo..hi]`.
fn copy_range(v: &[char], lo: usize, hi: usize) -> (r: Vec<char>)
    requires
        lo <= hi <= v.len(),
    ensures
        r@ == v@.subrange(lo as int, hi as int),
{
    let mut r: Vec<char> = Vec::new();
    let mut j = lo;
    while j < hi
        invariant
            lo <= j <= hi <= v.len(),
            r@ == v@.subrange(lo as int, j as int),
        decreases hi - j,
    {
        r.push(v[j]);
        j = j + 1;
        assert(r@ =~= v@.subrange(lo as int, j as int));
    }
    r
}

/// The digits of the mantissa of `b`, without the point.
fn mantissa_of(b: &[char]) -> (r: (Vec<char>, usize, usize))
    ensures
        r.0@ == mantissa_digits(b@),
        all_digits(r.0@),
        r.1 == frac_digits(b@).len(),
        r.2 == mantissa_end(b@),
        r.2 <= b.len(),
{
    let i1 = skip_digits(b, 0);
    let has_dot = i1 < b.len() && b[i1] == '.';
    let i2 = if has_dot {
        skip_digits(b, i1 + 1)
    } else {
        i1
    };
    let mut digits = copy_range(b, 0, i1);
    let ghost int_part = digits@;
    if has_dot {
        let mut f = copy_range(b, i1 + 1, i2);
        digits.append(&mut f);
    }
    assert(digits@ =~= mantissa_digits(b@));
    let frac_len = if has_dot {
        i2 - (i1 + 1)
    } else {
        0
    };
    assert(all_digits(digits@)) by {
        assert forall|i: int| 0 <= i < digits@.len() implies is_digit(#[trigger] digits@[i]) by {
            if i < i1 {
                assert(int_part[i] == digits@[i]);
            } else {
                assert(b@.subrange(i1 + 1, i2 as int)[i - i1] == digits@[i]);
            }
        }
    }
    (digits, frac_len, i2)
}

/// The number text `b` (no sign) as a finite decimal, evaluated with multiplier `m`.
#[verifier::rlimit(40)]
fn finite_value(b: &[char], m: u64) -> (r: Option<u64>)
    requires
        1 <= m <= TIB,
    ensures
        match finite_parts(b@) {
            Some(parts) => r == Some(cap(scaled(digits_value(parts.0), parts.1, m as nat)) as u64),
            None => r is None,
        },
{
    let (digits, frac_len, i2) = mantissa_of(b);
    let n_digits = digits.len();
    assert(digits@.subrange(0, n_digits as int) =~= digits@);
    if n_digits == 0 {
        return None;
    }
    if i2 == b.len() {
        return Some(finite_bytes(&digits, 0, n_digits, -(frac_len as i128), m));
    }
    if !letter_matches(b[i2], 'E') {
        return None;
    }
    let j0 = i2 + 1;
    let eneg = j0 < b.len() && b[j0] == '-';
    let j1 = if j0 < b.len() && (b[j0] == '+' || b[j0] == '-') {
        j0 + 1
    } else {
        j0
    };
    assert(j1 == exponent_start(b@));
    assert(eneg == exponent_negative(b@));
    let j2 = skip_digits(b, j1);
    if j2 == j1 || j2 != b.len() {
        return None;
    }
    let e = capped_exponent(b, j1, j2);
    let signed = if eneg {
        -(e as i128)
    } else {
        e as i128
    };
    let ghost exact = digits_value(b@.subrange(j1 as int, j2 as int));
    proof {
        lemma_digits_bound(digits@);
        if exact >= EXPONENT_CAP {
            lemma_huge_exponent(
                digits_value(digits@),
                n_digits as nat,
                frac_len as nat,
                exact,
                eneg,
                m as nat,
            );
        }
    }
    Some(finite_bytes(&digits, 0, n_digits, signed - frac_len as i128, m))
}

/// The number text `s` evaluated with multiplier `m`.
fn number_bytes(s: &[char], m: u64) -> (r: Option<u64>)
    requires
        1 <= m <= TIB,
    ensures
        match number_value(s@, m as nat) {
            Some(n) => r == Some(n as u64),
            None => r is None,
        },
{
    let neg = s.len() > 0 && s[0] == '-';
    let signed = s.len() > 0 && (s[0] == '+' || s[0] == '-');
    let b = if signed {
        copy_range(s, 1, s.len())
    } else {
        copy_range(s, 0, s.len())
    };
    assert(signed ==> b@ =~= s@.drop_first());
    assert(!signed ==> b@ =~= s@);
    let inf: [char; 3] = ['I', 'N', 'F'];
    let infinity: [char; 8] = ['I', 'N', 'F', 'I', 'N', 'I', 'T', 'Y'];
    let nan: [char; 3] = ['N', 'A', 'N'];
    assert(inf@ =~= seq!['I', 'N', 'F']);
    assert(infinity@ =~= seq!['I', 'N', 'F', 'I', 'N', 'I', 'T', 'Y']);
    assert(nan@ =~= seq!['N', 'A', 'N']);
    if ci_matches(&b, &inf) || ci_matches(&b, &infinity) {
        return Some(
            if neg {
                0
            } else {
                u64::MAX
            },
        );
    }
    if ci_matches(&b, &nan) {
        return Some(0);
    }
    match finite_value(&b, m) {
        Some(x) => Some(
            if neg {
                0
            } else {
                x
            },
        ),
        None => None,
    }
}

// ─── The public entry point ────────────────────────────────

/// `c` in upper case if it is an ASCII small letter, else `c` itself.
pub open spec fn upper_char(c: char) -> char {
    if 97 <= c as u32 <= 122 {
        ((c as u32) - 32) as char
    } else {
        c
    }
}

/// `s` with each ASCII small letter in upper case.
pub open spec fn ascii_upper(s: Seq<char>) -> Seq<char> {
    s.map_values(|c: char| upper_char(c))
}

/// Every character is ASCII.
pub open spec fn is_ascii_text(s: Seq<char>) -> bool {
    forall|i: int| 0 <= i < s.len() ==> (#[trigger] s[i]) as u32 <= 127
}

/// The text that `str::to_uppercase` gives (Unicode upper case).
pub uninterp spec fn uppercase(s: Seq<char>) -> Seq<char>;

/// `str::to_uppercase`. Its documentation defines it by Unicode's upper-case mapping,
/// which takes the ASCII small letters to their capitals and leaves other ASCII alone.
#[verifier::external_body]
fn to_uppercase(s: &str) -> (r: String)
    ensures
        r@ == uppercase(s@),
        is_ascii_text(s@) ==> r@ == ascii_upper(s@),
{
    s.to_uppercase()
}

/// A size text whose number could not be read.
pub struct SizeError {
    /// The number part of the text, as it stood before its unit, in upper case.
    pub value: String,
}

impl SizeError {
    /// The message that reports this error.
    pub fn message(&self) -> (s: String)
        ensures
            s@ == seq![
                'I', 'n', 'v', 'a', 'l', 'i', 'd', ' ', 's', 'i', 'z', 'e', ' ', 'v', 'a', 'l',
                'u', 'e', ':', ' '
            ] + self.value@,
    {
        let prefix: [char; 20] = [
            'I', 'n', 'v', 'a', 'l', 'i', 'd', ' ', 's', 'i', 'z', 'e', ' ', 'v', 'a', 'l',
            'u', 'e', ':', ' ',
        ];
        let mut s = string_of(&prefix);
        push_str(&mut s, self.value.as_str());
        s
    }
}

/// The unit at the end of `v[lo..hi]` (trimmed text): its length and multiplier.
fn unit_of(v: &[char], lo: usize, hi: usize) -> (r: (usize, u64))
    requires
        lo <= hi <= v.len(),
    ensures
        r.0 as nat == size_unit(v@.subrange(lo as int, hi as int)).0,
        r.1 as nat == size_unit(v@.subrange(lo as int, hi as int)).1,
        r.0 <= hi - lo,
        1 <= r.1 <= TIB,
{
    let ghost t = v@.subrange(lo as int, hi as int);
    let n = hi - lo;
    if n >= 1 {
        assert(t[n - 1] == v@[hi - 1]);
    }
    if n >= 2 {
        assert(t[n - 2] == v@[hi - 2]);
    }
    if n >= 2 && letter_matches(v[hi - 1], 'B') {
        let c = v[hi - 2];
        if letter_matches(c, 'T') {
            return (2, TIB);
        } else if letter_matches(c, 'G') {
            return (2, GIB);
        } else if letter_matches(c, 'M') {
            return (2, MIB);
        } else if letter_matches(c, 'K') {
            return (2, KIB);
        }
    }
    if n >= 1 && letter_matches(v[hi - 1], 'B') {
        (1, 1)
    } else {
        (0, 1)
    }
}

/// Reads a size threshold such as `"500MB"`, `"2.5 GB"` or `"1tb"`.
///
/// The text is trimmed and put in upper case; then its unit is taken off its end and
/// the rest, without the blanks around it, is read as a number. The result is the
/// whole part of the number times the unit, held at `u64::MAX`; it is an error,
/// carrying the upper-cased number part, when the number cannot be read. For an
/// ASCII text this is the same as reading the trimmed text in its own letter case.
pub fn parse_size(s: &str) -> (r: Result<u64, SizeError>)
    ensures
        match r {
            Ok(n) => size_bytes(s@) == Some(n as nat),
            Err(e) => {
                &&& size_bytes(s@) is None
                &&& e.value@ == size_number(uppercase(trim(s@)))
                &&& is_ascii_text(trim(s@)) ==> e.value@ == ascii_upper(number_text(s@))
            },
        },
        is_ascii_text(trim(s@)) ==> size_bytes(s@) == read_size(trim(s@)),
{
    let v0 = chars_of(s);
    let (lo, hi) = trim_bounds(&v0, 0, v0.len());
    assert(v0@.subrange(0, v0.len() as int) =~= s@);
    let t = string_of(&copy_range(&v0, lo, hi));
    let u = to_uppercase(t.as_str());
    proof {
        if is_ascii_text(t@) {
            lemma_ascii_reading(s@, u@);
        }
    }
    read_size_text(u.as_str())
}

/// Reads a size from its trimmed, upper-cased text: the unit is taken off its end and
/// the rest, without the blanks around it, is read as a number. It is an error,
/// carrying the text before the unit, when the number cannot be read.
pub fn read_size_text(t: &str) -> (r: Result<u64, SizeError>)
    ensures
        match r {
            Ok(n) => read_size(t@) == Some(n as nat),
            Err(e) => read_size(t@) is None && e.value@ == size_number(t@),
        },
{
    let v = chars_of(t);
    let (ulen, m) = unit_of(&v, 0, v.len());
    assert(v@.subrange(0, v.len() as int) =~= v@);
    let nhi = v.len() - ulen;
    assert(v@.subrange(0, nhi as int) == size_number(v@));
    let (a, b) = trim_bounds(&v, 0, nhi);
    let num = copy_range(&v, a, b);
    match number_bytes(&num, m) {
        Some(n) => Ok(n),
        None => Err(SizeError { value: string_of(&copy_range(&v, 0, nhi)) }),
    }
}

// ─── Laws ──────────────────────────────────────────────────

/// A size written as a whole number of units is that many units in bytes:
/// `"<n>B"`, `"<n>KB"`, `"<n>MB"`, `"<n>GB"` and `"<n>TB"` with `n` in decimal
/// stand for `n`, `n * 1024`, `n * 1024^2`, `n * 1024^3` and `n * 1024^4` bytes (at most `u64::MAX`).
pub proof fn law_whole_units(n: nat, unit: Seq<char>, m: nat)
    requires
        (unit == seq!['B'] && m == 1) || (unit == seq!['K', 'B'] && m == KIB) || (unit == seq![
            'M',
            'B',
        ] && m == MIB) || (unit == seq!['G', 'B'] && m == GIB) || (unit == seq!['T', 'B'] && m
            == TIB),
    ensures
        read_size(decimal(n) + unit) == Some(cap(n * m)),
{
    let s = decimal(n) + unit;
    lemma_decimal_digits(n);
    let dn = decimal(n);
    assert(trim_start(s) == s) by {
        assert(s[0] == dn[0]);
    }
    assert(trim_end(s) == s) by {
        assert(s.last() == unit.last());
    }
    assert(trim(s) == s);
    let (k, mm) = size_unit(s);
    assert(s[s.len() - 1] == unit[unit.len() - 1]);
    if unit.len() == 2 {
        assert(s[s.len() - 2] == unit[0]);
    } else {
        assert(s[s.len() - 2] == dn[dn.len() - 1]);
        assert(is_digit(dn[dn.len() - 1]));
    }
    assert(k == unit.len() && mm == m);
    assert(size_number(s) =~= dn);
    assert(trim_start(dn) == dn);
    assert(trim_end(dn) == dn) by {
        assert(is_digit(dn.last()));
    }
    assert(dn.len() > 0 && dn[0] != '+' && dn[0] != '-') by {
        assert(is_digit(dn[0]));
    }
    assert(!ci_eq(dn, seq!['I', 'N', 'F'])) by {
        assert(is_digit(dn[0]));
    }
    assert(!ci_eq(dn, seq!['I', 'N', 'F', 'I', 'N', 'I', 'T', 'Y'])) by {
        assert(is_digit(dn[0]));
    }
    assert(!ci_eq(dn, seq!['N', 'A', 'N'])) by {
        assert(is_digit(dn[0]));
    }
    lemma_first_non_digit_all(dn, 0);
    assert(dn.subrange(0, dn.len() as int) =~= dn);
    assert(dn + Seq::<char>::empty() =~= dn);
    assert(finite_parts(dn) == Some((dn, 0int)));
    lemma_decimal_value(n);
    assert(pow10(0) == 1);
    assert(n * 1 * m == n * m) by (nonlinear_arith);
}

/// The decimal representation is made of digits.
pub proof fn lemma_decimal_digits(n: nat)
    ensures
        decimal(n).len() >= 1,
        all_digits(decimal(n)),
    decreases n,
{
    if n >= 10 {
        lemma_decimal_digits(n / 10);
        assert forall|i: int| 0 <= i < decimal(n).len() implies is_digit(
            #[trigger] decimal(n)[i],
        ) by {
            if i < decimal(n / 10).len() {
                assert(decimal(n)[i] == decimal(n / 10)[i]);
            }
        }
    }
}

/// The digits of the decimal representation spell the number.
pub proof fn lemma_decimal_value(n: nat)
    ensures
        digits_value(decimal(n)) == n,
    decreases n,
{
    if n >= 10 {
        lemma_decimal_value(n / 10);
        assert(decimal(n) == decimal(n / 10).push(digit_char(n % 10)));
        assert(decimal(n).drop_last() =~= decimal(n / 10));
        assert(decimal(n).last() == digit_char(n % 10));
        lemma_digit_char(n % 10);
        lemma_fundamental_div_mod(n as int, 10);
        assert(digits_value(decimal(n)) == digits_value(decimal(n / 10)) * 10 + digit_value(
            digit_char(n % 10),
        ));
    } else {
        assert(seq![digit_char(n)].drop_last() =~= Seq::<char>::empty());
        lemma_digit_char(n);
        assert(decimal(n) == seq![digit_char(n)]);
        assert(digits_value(Seq::<char>::empty()) == 0);
        assert(digits_value(decimal(n)) == digits_value(Seq::<char>::empty()) * 10 + digit_value(
            digit_char(n),
        ));
    }
}

/// A digit character has the value it stands for.
pub proof fn lemma_digit_char(d: nat)
    requires
        d < 10,
    ensures
        is_digit(digit_char(d)),
        digit_value(digit_char(d)) == d,
{
}

/// A run of digits from `i` to the end ends the digit scan at the end.
pub proof fn lemma_first_non_digit_all(s: Seq<char>, i: int)
    requires
        0 <= i <= s.len(),
        forall|j: int| i <= j < s.len() ==> is_digit(#[trigger] s[j]),
    ensures
        first_non_digit(s, i) == s.len(),
    decreases s.len() - i,
{
    if i < s.len() {
        lemma_first_non_digit_all(s, i + 1);
    }
}

// ─── Letter case ───────────────────────────────────────────

/// Two texts that agree but for the case of ASCII letters.
pub open spec fn same_but_case(s: Seq<char>, t: Seq<char>) -> bool {
    s.len() == t.len() && forall|i: int| 0 <= i < s.len() ==> upper_char(#[trigger] s[i]) == upper_char(t[i])
}

proof fn lemma_upper_char(c: char)
    ensures
        is_white(upper_char(c)) == is_white(c),
        is_digit(upper_char(c)) == is_digit(c),
        is_digit(c) ==> upper_char(c) == c,
        upper_char(upper_char(c)) == upper_char(c),
        (upper_char(c) == '.') == (c == '.'),
        (upper_char(c) == '+') == (c == '+'),
        (upper_char(c) == '-') == (c == '-'),
{
}

proof fn lemma_letter_case(c: char, upper: char)
    requires
        65 <= upper as u32 <= 90,
    ensures
        letter_is(c, upper) == (upper_char(c) == upper),
{
}

proof fn lemma_case_subrange(s: Seq<char>, t: Seq<char>, i: int, j: int)
    requires
        same_but_case(s, t),
        0 <= i <= j <= s.len(),
    ensures
        same_but_case(s.subrange(i, j), t.subrange(i, j)),
{
    assert forall|k: int| 0 <= k < j - i implies upper_char(#[trigger] s.subrange(i, j)[k])
        == upper_char(t.subrange(i, j)[k]) by {
        assert(s.subrange(i, j)[k] == s[i + k]);
        assert(t.subrange(i, j)[k] == t[i + k]);
    }
}

proof fn lemma_case_trim_start(s: Seq<char>, t: Seq<char>)
    requires
        same_but_case(s, t),
    ensures
        same_but_case(trim_start(s), trim_start(t)),
    decreases s.len(),
{
    if s.len() > 0 {
        lemma_upper_char(s[0]);
        lemma_upper_char(t[0]);
        assert(upper_char(s[0]) == upper_char(t[0]));
        if is_white(s[0]) {
            lemma_case_subrange(s, t, 1, s.len() as int);
            assert(s.drop_first() =~= s.subrange(1, s.len() as int));
            assert(t.drop_first() =~= t.subrange(1, t.len() as int));
            lemma_case_trim_start(s.drop_first(), t.drop_first());
        }
    }
}

proof fn lemma_case_trim_end(s: Seq<char>, t: Seq<char>)
    requires
        same_but_case(s, t),
    ensures
        same_but_case(trim_end(s), trim_end(t)),
    decreases s.len(),
{
    if s.len() > 0 {
        let n = s.len() - 1;
        lemma_upper_char(s[n]);
        lemma_upper_char(t[n]);
        assert(upper_char(s[n]) == upper_char(t[n]));
        if is_white(s.last()) {
            lemma_case_subrange(s, t, 0, n);
            assert(s.drop_last() =~= s.subrange(0, n));
            assert(t.drop_last() =~= t.subrange(0, n));
            lemma_case_trim_end(s.drop_last(), t.drop_last());
        }
    }
}

proof fn lemma_case_trim(s: Seq<char>, t: Seq<char>)
    requires
        same_but_case(s, t),
    ensures
        same_but_case(trim(s), trim(t)),
{
    lemma_case_trim_start(s, t);
    lemma_case_trim_end(trim_start(s), trim_start(t));
}

proof fn lemma_case_unit(s: Seq<char>, t: Seq<char>)
    requires
        same_but_case(s, t),
    ensures
        size_unit(s) == size_unit(t),
{
    let n = s.len() as int;
    if n >= 1 {
        assert(upper_char(s[n - 1]) == upper_char(t[n - 1]));
        lemma_letter_case(s[n - 1], 'B');
        lemma_letter_case(t[n - 1], 'B');
    }
    if n >= 2 {
        assert(upper_char(s[n - 2]) == upper_char(t[n - 2]));
        lemma_letter_case(s[n - 2], 'T');
        lemma_letter_case(t[n - 2], 'T');
        lemma_letter_case(s[n - 2], 'G');
        lemma_letter_case(t[n - 2], 'G');
        lemma_letter_case(s[n - 2], 'M');
        lemma_letter_case(t[n - 2], 'M');
        lemma_letter_case(s[n - 2], 'K');
        lemma_letter_case(t[n - 2], 'K');
    }
}

proof fn lemma_case_first_non_digit(s: Seq<char>, t: Seq<char>, i: int)
    requires
        same_but_case(s, t),
    ensures
        first_non_digit(s, i) == first_non_digit(t, i),
    decreases s.len() - i,
{
    if 0 <= i < s.len() {
        assert(upper_char(s[i]) == upper_char(t[i]));
        lemma_upper_char(s[i]);
        lemma_upper_char(t[i]);
        if is_digit(s[i]) {
            lemma_case_first_non_digit(s, t, i + 1);
        }
    }
}

/// Where one text has digits, the other has the same digits.
proof fn lemma_case_digits(s: Seq<char>, t: Seq<char>, i: int, j: int)
    requires
        same_but_case(s, t),
        0 <= i <= j <= s.len(),
        forall|k: int| i <= k < j ==> is_digit(#[trigger] s[k]),
    ensures
        s.subrange(i, j) == t.subrange(i, j),
{
    assert forall|k: int| i <= k < j implies s[k] == t[k] by {
        assert(upper_char(s[k]) == upper_char(t[k]));
        lemma_upper_char(s[k]);
        lemma_upper_char(t[k]);
    }
    assert(s.subrange(i, j) =~= t.subrange(i, j));
}

proof fn lemma_digits_to_first_non_digit(s: Seq<char>, i: int, k: int)
    requires
        0 <= i <= k < first_non_digit(s, i),
    ensures
        is_digit(s[k]),
        first_non_digit(s, i) <= s.len(),
    decreases s.len() - i,
{
    if i < k {
        lemma_digits_to_first_non_digit(s, i + 1, k);
    } else {
        lemma_first_non_digit_bound(s, i);
    }
}

proof fn lemma_first_non_digit_bound(s: Seq<char>, i: int)
    requires
        0 <= i,
    ensures
        i <= first_non_digit(s, i),
        i <= s.len() ==> first_non_digit(s, i) <= s.len(),
    decreases s.len() - i,
{
    if 0 <= i < s.len() && is_digit(s[i]) {
        lemma_first_non_digit_bound(s, i + 1);
    }
}

proof fn lemma_case_finite_parts(s: Seq<char>, t: Seq<char>)
    requires
        same_but_case(s, t),
    ensures
        finite_parts(s) == finite_parts(t),
{
    lemma_case_first_non_digit(s, t, 0);
    lemma_first_non_digit_bound(s, 0);
    let e1 = int_end(s);
    assert forall|k: int| 0 <= k < e1 implies is_digit(#[trigger] s[k]) by {
        lemma_digits_to_first_non_digit(s, 0, k);
    }
    lemma_case_digits(s, t, 0, e1);
    if e1 < s.len() {
        assert(upper_char(s[e1]) == upper_char(t[e1]));
        lemma_upper_char(s[e1]);
        lemma_upper_char(t[e1]);
    }
    assert(has_point(s) == has_point(t));
    if has_point(s) {
        lemma_case_first_non_digit(s, t, e1 + 1);
        lemma_first_non_digit_bound(s, e1 + 1);
        let e2 = mantissa_end(s);
        assert forall|k: int| e1 + 1 <= k < e2 implies is_digit(#[trigger] s[k]) by {
            lemma_digits_to_first_non_digit(s, e1 + 1, k);
        }
        lemma_case_digits(s, t, e1 + 1, e2);
    }
    assert(mantissa_end(s) == mantissa_end(t));
    assert(frac_digits(s) == frac_digits(t));
    assert(mantissa_digits(s) == mantissa_digits(t));
    let i2 = mantissa_end(s);
    let j0 = i2 + 1;
    if 0 <= i2 < s.len() {
        assert(upper_char(s[i2]) == upper_char(t[i2]));
        lemma_letter_case(s[i2], 'E');
        lemma_letter_case(t[i2], 'E');
    }
    if 0 <= j0 < s.len() {
        assert(upper_char(s[j0]) == upper_char(t[j0]));
        lemma_upper_char(s[j0]);
        lemma_upper_char(t[j0]);
    }
    assert(exponent_start(s) == exponent_start(t));
    assert(exponent_negative(s) == exponent_negative(t));
    let j1 = exponent_start(s);
    if 0 <= j1 {
        lemma_case_first_non_digit(s, t, j1);
        lemma_first_non_digit_bound(s, j1);
        let j2 = first_non_digit(s, j1);
        if j2 == s.len() && j1 <= j2 {
            assert forall|k: int| j1 <= k < j2 implies is_digit(#[trigger] s[k]) by {
                lemma_digits_to_first_non_digit(s, j1, k);
            }
            lemma_case_digits(s, t, j1, j2);
        }
    }
}

proof fn lemma_case_ci_eq(s: Seq<char>, t: Seq<char>, word: Seq<char>)
    requires
        same_but_case(s, t),
        forall|i: int| 0 <= i < word.len() ==> 65 <= (#[trigger] word[i]) as u32 <= 90,
    ensures
        ci_eq(s, word) == ci_eq(t, word),
{
    if s.len() == word.len() {
        if ci_eq(s, word) {
            assert forall|i: int| 0 <= i < t.len() implies letter_is(#[trigger] t[i], word[i]) by {
                assert(letter_is(s[i], word[i]));
                assert(upper_char(s[i]) == upper_char(t[i]));
                lemma_letter_case(s[i], word[i]);
                lemma_letter_case(t[i], word[i]);
            }
        }
        if ci_eq(t, word) {
            assert forall|i: int| 0 <= i < s.len() implies letter_is(#[trigger] s[i], word[i]) by {
                assert(letter_is(t[i], word[i]));
                assert(upper_char(s[i]) == upper_char(t[i]));
                lemma_letter_case(s[i], word[i]);
                lemma_letter_case(t[i], word[i]);
            }
        }
    }
}

proof fn lemma_case_number_value(s: Seq<char>, t: Seq<char>, m: nat)
    requires
        same_but_case(s, t),
    ensures
        number_value(s, m) == number_value(t, m),
{
    if s.len() > 0 {
        assert(upper_char(s[0]) == upper_char(t[0]));
        lemma_upper_char(s[0]);
        lemma_upper_char(t[0]);
    }
    let signed = s.len() > 0 && (s[0] == '+' || s[0] == '-');
    let b = if signed { s.drop_first() } else { s };
    let c = if signed { t.drop_first() } else { t };
    if signed {
        lemma_case_subrange(s, t, 1, s.len() as int);
        assert(s.drop_first() =~= s.subrange(1, s.len() as int));
        assert(t.drop_first() =~= t.subrange(1, t.len() as int));
    }
    assert(same_but_case(b, c));
    lemma_case_ci_eq(b, c, seq!['I', 'N', 'F']);
    lemma_case_ci_eq(b, c, seq!['I', 'N', 'F', 'I', 'N', 'I', 'T', 'Y']);
    lemma_case_ci_eq(b, c, seq!['N', 'A', 'N']);
    lemma_case_finite_parts(b, c);
}

/// Letter case does not matter in a size text: `"1gb"`, `"1Gb"` and `"1GB"` are the same
/// size, and so are `"inf"` and `"INF"` or `"1e3"` and `"1E3"`.
pub proof fn law_case_blind(s: Seq<char>, t: Seq<char>)
    requires
        same_but_case(s, t),
    ensures
        read_size(s) == read_size(t),
{
    lemma_case_unit(s, t);
    let u = size_unit(s).0 as int;
    lemma_case_subrange(s, t, 0, s.len() - u);
    lemma_case_trim(size_number(s), size_number(t));
    lemma_case_number_value(trim(size_number(s)), trim(size_number(t)), size_unit(s).1);
}

proof fn lemma_same_as_upper(s: Seq<char>)
    ensures
        same_but_case(s, ascii_upper(s)),
{
    assert forall|i: int| 0 <= i < s.len() implies upper_char(#[trigger] s[i]) == upper_char(
        ascii_upper(s)[i],
    ) by {
        lemma_upper_char(s[i]);
    }
}

/// A size text reads the same once its ASCII letters are put in upper case.
pub proof fn law_upper_case_same_size(s: Seq<char>)
    ensures
        read_size(ascii_upper(s)) == read_size(s),
{
    lemma_same_as_upper(s);
    law_case_blind(s, ascii_upper(s));
}

/// For an ASCII text, reading its upper case is reading the text itself.
proof fn lemma_ascii_reading(s: Seq<char>, u: Seq<char>)
    requires
        u == ascii_upper(trim(s)),
    ensures
        read_size(u) == read_size(trim(s)),
        size_number(u) == ascii_upper(number_text(s)),
{
    law_upper_case_same_size(trim(s));
    lemma_upper_text(trim(s));
}

/// The number part of an upper-cased text is the upper-cased number part.
proof fn lemma_upper_text(t: Seq<char>)
    ensures
        size_number(ascii_upper(t)) == ascii_upper(size_number(t)),
{
    lemma_same_as_upper(t);
    lemma_case_unit(t, ascii_upper(t));
    assert(size_number(ascii_upper(t)) =~= ascii_upper(size_number(t)));
}

/// Reading a size again from its trimmed, upper-cased text gives the same size. For an
/// ASCII text, whose upper case `parse_size` states, this is what makes
/// `parse_size(s)` and `parse_size(&s.trim().to_uppercase())` agree.
pub proof fn law_upper_trimmed_same_size(s: Seq<char>)
    ensures
        read_size(trim(ascii_upper(trim(s)))) == read_size(trim(s)),
{
    let t = trim(s);
    lemma_same_as_upper(t);
    lemma_case_trim(t, ascii_upper(t));
    lemma_trim_twice(s);
    law_case_blind(trim(t), trim(ascii_upper(t)));
}

/// A run of digits from `i` up to `j`, where a non-digit or the end stands, ends the
/// digit scan at `j`.
proof fn lemma_first_non_digit_run(s: Seq<char>, i: int, j: int)
    requires
        0 <= i <= j <= s.len(),
        forall|k: int| i <= k < j ==> is_digit(#[trigger] s[k]),
        j == s.len() || !is_digit(s[j]),
    ensures
        first_non_digit(s, i) == j,
    decreases j - i,
{
    if i < j {
        lemma_first_non_digit_run(s, i + 1, j);
    }
}

/// The mantissa `<i>.<f>` splits into its digits and the power of ten of its fraction.
proof fn lemma_fraction_parts(i: Seq<char>, f: Seq<char>)
    requires
        all_digits(i),
        all_digits(f),
        i.len() + f.len() > 0,
    ensures
        finite_parts(i + seq!['.'] + f) == Some((i + f, -(f.len() as int))),
{
    let b = i + seq!['.'] + f;
    let il = i.len() as int;
    assert(b[il] == '.');
    assert forall|k: int| 0 <= k < il implies is_digit(#[trigger] b[k]) by {
        assert(b[k] == i[k]);
    }
    assert forall|k: int| il + 1 <= k < b.len() implies is_digit(#[trigger] b[k]) by {
        assert(b[k] == f[k - il - 1]);
    }
    lemma_first_non_digit_run(b, 0, il);
    assert(int_end(b) == il);
    assert(has_point(b));
    lemma_first_non_digit_run(b, il + 1, b.len() as int);
    assert(mantissa_end(b) == b.len());
    assert(frac_digits(b) =~= f);
    assert(mantissa_digits(b) =~= i + f);
}

/// The number `<i>.<f>` has no blanks, sign or word, and reads as its digits scaled.
proof fn lemma_fraction_number(i: Seq<char>, f: Seq<char>, m: nat)
    requires
        all_digits(i),
        all_digits(f),
        i.len() + f.len() > 0,
    ensures
        trim(i + seq!['.'] + f) == i + seq!['.'] + f,
        number_value(i + seq!['.'] + f, m) == Some(
            cap(scaled(digits_value(i + f), -(f.len() as int), m)),
        ),
{
    let b = i + seq!['.'] + f;
    if i.len() > 0 {
        assert(b[0] == i[0]);
        assert(is_digit(i[0]));
    } else {
        assert(b[0] == '.');
    }
    if f.len() > 0 {
        assert(b[b.len() - 1] == f[f.len() - 1]);
        assert(is_digit(f[f.len() - 1]));
    } else {
        assert(b[b.len() - 1] == '.');
    }
    assert(trim_start(b) == b);
    assert(trim_end(b) == b);
    assert(!letter_is(b[0], 'I') && !letter_is(b[0], 'N'));
    assert(!ci_eq(b, seq!['I', 'N', 'F']));
    assert(!ci_eq(b, seq!['I', 'N', 'F', 'I', 'N', 'I', 'T', 'Y']));
    assert(!ci_eq(b, seq!['N', 'A', 'N']));
    lemma_fraction_parts(i, f);
}

/// A size with a decimal fraction is its exact decimal value times the unit:
/// `"<i>.<f>B"`, `"<i>.<f>KB"`, ... with digit strings `i` and `f` (not both empty)
/// stand for the whole part of `<i><f> * unit / 10^|f|` bytes (at most `u64::MAX`),
/// the power of ten being the number of fraction digits.
pub proof fn law_fraction_units(i: Seq<char>, f: Seq<char>, unit: Seq<char>, m: nat)
    requires
        all_digits(i),
        all_digits(f),
        i.len() + f.len() > 0,
        (unit == seq!['B'] && m == 1) || (unit == seq!['K', 'B'] && m == KIB) || (unit == seq![
            'M',
            'B',
        ] && m == MIB) || (unit == seq!['G', 'B'] && m == GIB) || (unit == seq!['T', 'B'] && m
            == TIB),
    ensures
        read_size(i + seq!['.'] + f + unit) == Some(
            cap(digits_value(i + f) * m / pow10(f.len())),
        ),
{
    let b = i + seq!['.'] + f;
    let s = b + unit;
    assert(s[s.len() - 1] == unit[unit.len() - 1]);
    if unit.len() == 2 {
        assert(s[s.len() - 2] == unit[0]);
    } else {
        assert(s[s.len() - 2] == b[b.len() - 1]);
        if f.len() > 0 {
            assert(b[b.len() - 1] == f[f.len() - 1]);
            assert(is_digit(f[f.len() - 1]));
        } else {
            assert(b[b.len() - 1] == '.');
        }
    }
    assert(size_unit(s) == (unit.len(), m));
    assert(size_number(s) =~= b);
    lemma_fraction_number(i, f, m);
    let n = digits_value(i + f);
    if f.len() == 0 {
        assert(pow10(0) == 1);
        assert(n * 1 * m == n * m) by (nonlinear_arith);
        assert(n * m / 1 == n * m);
        assert(scaled(n, 0, m) == n * m / pow10(f.len()));
    } else {
        assert(scaled(n, -(f.len() as int), m) == n * m / pow10(f.len()));
    }
    assert(read_size(s) == number_value(trim(b), m));
}

} // verus!

