//! Decimal numbers as they are written, scaled by a factor and rounded
//! down to a whole number, in exact arithmetic.
//!
//! A number is written with an optional sign, digits with an optional
//! point among them, and an optional exponent; or it is one of the words
//! `inf`, `infinity` and `nan`, in whatever case.

use vstd::prelude::*;
use crate::text::{all_digits, append, chars_of, digits_value, is_digit, slice_of};

verus! {

/// How many digits stand at the start of `s`.
pub open spec fn digit_prefix_len(s: Seq<char>) -> nat
    decreases s.len(),
{
    if s.len() > 0 && is_digit(s[0]) {
        1 + digit_prefix_len(s.skip(1))
    } else {
        0
    }
}

/// Ten to the power of `k`.
pub open spec fn pow10(k: nat) -> nat
    decreases k,
{
    if k == 0 {
        1
    } else {
        10 * pow10((k - 1) as nat)
    }
}

/// A text without the sign that may begin it.
pub open spec fn unsigned_part(text: Seq<char>) -> Seq<char> {
    if text.len() > 0 && (text[0] == '+' || text[0] == '-') {
        text.skip(1)
    } else {
        text
    }
}

/// Whether a text begins with a minus sign.
pub open spec fn is_negative(text: Seq<char>) -> bool {
    text.len() > 0 && text[0] == '-'
}

/// The digits before the point.
pub open spec fn whole_digits(text: Seq<char>) -> Seq<char> {
    unsigned_part(text).take(digit_prefix_len(unsigned_part(text)) as int)
}

/// What follows the digits before the point.
pub open spec fn after_whole(text: Seq<char>) -> Seq<char> {
    unsigned_part(text).skip(digit_prefix_len(unsigned_part(text)) as int)
}

/// What follows the point, or the digits before it where there is none.
pub open spec fn after_point(text: Seq<char>) -> Seq<char> {
    if after_whole(text).len() > 0 && after_whole(text)[0] == '.' {
        after_whole(text).skip(1)
    } else {
        after_whole(text)
    }
}

/// The digits behind the point.
pub open spec fn fraction_digits(text: Seq<char>) -> Seq<char> {
    after_point(text).take(digit_prefix_len(after_point(text)) as int)
}

/// What follows the digits of the number.
pub open spec fn after_mantissa(text: Seq<char>) -> Seq<char> {
    after_point(text).skip(digit_prefix_len(after_point(text)) as int)
}

/// Whether an exponent is announced behind the digits.
pub open spec fn has_exponent(text: Seq<char>) -> bool {
    after_mantissa(text).len() > 0 && (after_mantissa(text)[0] == 'e' || after_mantissa(text)[0]
        == 'E')
}

/// The exponent as it is written, with its sign.
pub open spec fn exponent_text(text: Seq<char>) -> Seq<char> {
    after_mantissa(text).skip(1)
}

/// The exponent: zero where none is written.
pub open spec fn exponent_of(text: Seq<char>) -> int {
    if !has_exponent(text) {
        0
    } else if is_negative(exponent_text(text)) {
        -(digits_value(unsigned_part(exponent_text(text))) as int)
    } else {
        digits_value(unsigned_part(exponent_text(text))) as int
    }
}

/// Whether a text is a decimal number: an optional sign; digits with an
/// optional point before, among or behind them, one digit at least; and
/// an optional exponent, which is `e` or `E`, an optional sign and digits,
/// one at least.
pub open spec fn is_decimal_number(text: Seq<char>) -> bool {
    &&& whole_digits(text).len() + fraction_digits(text).len() >= 1
    &&& after_mantissa(text).len() > 0 ==> {
        &&& has_exponent(text)
        &&& unsigned_part(exponent_text(text)).len() >= 1
        &&& all_digits(unsigned_part(exponent_text(text)))
    }
}

/// A letter in upper case; every other character as it is.
pub open spec fn ascii_upper(c: char) -> char {
    if 'a' <= c <= 'z' {
        ((c as u8) - 32) as char
    } else {
        c
    }
}

/// Whether a text is the given word, whatever the case of its letters.
pub open spec fn is_word(text: Seq<char>, upper: Seq<char>) -> bool {
    text.len() == upper.len() && forall|i: int|
        0 <= i < text.len() ==> ascii_upper(#[trigger] text[i]) == upper[i]
}

/// Whether a text, without its sign, is a word for infinity.
pub open spec fn is_infinity(text: Seq<char>) -> bool {
    is_word(unsigned_part(text), seq!['I', 'N', 'F']) || is_word(
        unsigned_part(text),
        seq!['I', 'N', 'F', 'I', 'N', 'I', 'T', 'Y'],
    )
}

/// Whether a text, without its sign, is the word for what is no number.
pub open spec fn is_nan(text: Seq<char>) -> bool {
    is_word(unsigned_part(text), seq!['N', 'A', 'N'])
}

/// All digits of a number, those before and those behind the point.
pub open spec fn mantissa(text: Seq<char>) -> Seq<char> {
    whole_digits(text) + fraction_digits(text)
}

/// By how many places the point stands right of the last digit: the
/// exponent less the number of digits behind the point.
pub open spec fn shift_of(text: Seq<char>) -> int {
    exponent_of(text) - fraction_digits(text).len()
}

/// The product of `d` times ten to the power of `shift` and `factor`,
/// rounded down to a whole number.
pub open spec fn scaled_floor(d: nat, shift: int, factor: nat) -> nat {
    if shift >= 0 {
        d * pow10(shift as nat) * factor
    } else {
        ((d * factor) as int / pow10((-shift) as nat) as int) as nat
    }
}

/// A number no larger than the largest that 64 bits hold.
pub open spec fn saturated(v: nat) -> u64 {
    if v > u64::MAX {
        u64::MAX
    } else {
        v as u64
    }
}

/// What a number text times a factor comes to, rounded down to a whole
/// number no larger than the largest that 64 bits hold. Nothing negative
/// and nothing that is no number comes to more than zero; infinity comes
/// to the largest number, unless the factor is zero.
pub open spec fn scaled_value(text: Seq<char>, factor: u64) -> Option<u64> {
    if is_nan(text) {
        Some(0u64)
    } else if is_infinity(text) {
        Some(
            if is_negative(text) || factor == 0 {
                0u64
            } else {
                u64::MAX
            },
        )
    } else if is_decimal_number(text) {
        Some(
            if is_negative(text) {
                0u64
            } else {
                saturated(
                    scaled_floor(digits_value(mantissa(text)), shift_of(text), factor as nat),
                )
            },
        )
    } else {
        None
    }
}

proof fn lemma_digit_prefix_is(s: Seq<char>, n: int)
    requires
        0 <= n <= s.len(),
        all_digits(s.take(n)),
        n < s.len() ==> !is_digit(s[n]),
    ensures
        digit_prefix_len(s) == n,
    decreases n,
{
    if n > 0 {
        assert(s.take(n)[0] == s[0]);
        assert forall|i: int| 0 <= i < n - 1 implies is_digit(
            #[trigger] s.skip(1).take(n - 1)[i],
        ) by {
            assert(s.skip(1).take(n - 1)[i] == s.take(n)[i + 1]);
        }
        if n < s.len() {
            assert(s.skip(1)[n - 1] == s[n]);
        }
        lemma_digit_prefix_is(s.skip(1), n - 1);
    }
}

proof fn lemma_pow10_grows(a: nat, b: nat)
    requires
        a <= b,
    ensures
        1 <= pow10(a) <= pow10(b),
    decreases b,
{
    if b == 0 {
    } else if a == b {
        lemma_pow10_grows((a - 1) as nat, (b - 1) as nat);
    } else {
        lemma_pow10_grows(a, (b - 1) as nat);
    }
}

proof fn lemma_pow10_20()
    ensures
        pow10(20) == 100_000_000_000_000_000_000,
{
    reveal_with_fuel(pow10, 22);
}

proof fn lemma_pow10_add(a: nat, b: nat)
    ensures
        pow10(a + b) == pow10(a) * pow10(b),
    decreases b,
{
    if b > 0 {
        lemma_pow10_add(a, (b - 1) as nat);
        assert(pow10(a + b) == 10 * pow10((a + b - 1) as nat));
        assert(10 * (pow10(a) * pow10((b - 1) as nat)) == pow10(a) * (10 * pow10((b - 1) as nat)))
            by (nonlinear_arith);
    } else {
        assert(pow10(a) * 1 == pow10(a)) by (nonlinear_arith);
    }
}

/// The value of a run of digits is the value of its first `k` digits,
/// moved left by the rest, and the value of the rest.
proof fn lemma_value_split(s: Seq<char>, k: int)
    requires
        all_digits(s),
        0 <= k <= s.len(),
    ensures
        digits_value(s) == digits_value(s.take(k)) * pow10((s.len() - k) as nat) + digits_value(
            s.skip(k),
        ),
        all_digits(s.take(k)),
        all_digits(s.skip(k)),
    decreases s.len() - k,
{
    assert forall|i: int| 0 <= i < s.take(k).len() implies is_digit(#[trigger] s.take(k)[i]) by {
        assert(s.take(k)[i] == s[i]);
    }
    assert forall|i: int| 0 <= i < s.skip(k).len() implies is_digit(#[trigger] s.skip(k)[i]) by {
        assert(s.skip(k)[i] == s[i + k]);
    }
    if k == s.len() {
        assert(s.take(k) == s);
        assert(s.skip(k) == Seq::<char>::empty());
        assert(digits_value(s) * 1 == digits_value(s)) by (nonlinear_arith);
    } else {
        let t = s.drop_last();
        assert forall|i: int| 0 <= i < t.len() implies is_digit(#[trigger] t[i]) by {
            assert(t[i] == s[i]);
        }
        lemma_value_split(t, k);
        assert(t.take(k) == s.take(k));
        assert(t.skip(k) == s.skip(k).drop_last());
        assert(s.skip(k).last() == s.last());
        assert(is_digit(s[s.len() - 1]));
        let a = digits_value(s.take(k));
        let p = pow10((s.len() - 1 - k) as nat);
        let r = digits_value(t.skip(k));
        let d = s.last() as int - '0' as int;
        assert(pow10((s.len() - k) as nat) == 10 * p);
        assert((a * p + r) * 10 + d == a * (10 * p) + (r * 10 + d)) by (nonlinear_arith);
    }
}

/// The value of a run of digits is less than ten to the power of its
/// length.
proof fn lemma_value_bound(s: Seq<char>)
    requires
        all_digits(s),
    ensures
        digits_value(s) < pow10(s.len()),
    decreases s.len(),
{
    if s.len() > 0 {
        let t = s.drop_last();
        assert forall|i: int| 0 <= i < t.len() implies is_digit(#[trigger] t[i]) by {
            assert(t[i] == s[i]);
        }
        lemma_value_bound(t);
        assert(is_digit(s[s.len() - 1]));
    }
}

/// A number of at least one, moved left by twenty places or more, is
/// larger than the largest that 64 bits hold.
proof fn lemma_large_shift(v: nat, k: nat)
    requires
        v >= 1,
        k >= 20,
    ensures
        v * pow10(k) > u64::MAX,
{
    lemma_pow10_20();
    lemma_pow10_grows(20, k);
    assert(v * pow10(k) >= pow10(k)) by (nonlinear_arith)
        requires
            v >= 1,
            pow10(k) >= 1,
    ;
}

/// A number of `len` digits times a factor that 64 bits hold, moved right
/// by twenty places more than it has digits, comes to nothing.
proof fn lemma_tiny(d: nat, len: nat, factor: nat, q: nat)
    requires
        d < pow10(len),
        factor <= u64::MAX,
        q >= len + 20,
    ensures
        (d * factor) as int / pow10(q) as int == 0,
{
    lemma_pow10_20();
    lemma_pow10_add(len, 20);
    lemma_pow10_grows(len + 20, q);
    lemma_pow10_grows(0, len);
    assert(d * factor < pow10(len) * pow10(20)) by (nonlinear_arith)
        requires
            d < pow10(len),
            factor < pow10(20),
            pow10(len) >= 1,
    ;
    vstd::arithmetic::div_mod::lemma_basic_div((d * factor) as int, pow10(q) as int);
}

/// Finds where the digits that stand at `from` end.
fn digits_end(chars: &Vec<char>, from: usize) -> (end: usize)
    requires
        from <= chars@.len(),
    ensures
        from <= end <= chars@.len(),
        end == from + digit_prefix_len(chars@.skip(from as int)),
        all_digits(chars@.subrange(from as int, end as int)),
        end < chars@.len() ==> !is_digit(chars@[end as int]),
{
    let n: usize = chars.len();
    let ghost body = chars@.skip(from as int);
    let mut i: usize = from;
    assert(body.take(0) == Seq::<char>::empty());
    while i < n && chars[i] >= '0' && chars[i] <= '9'
        invariant
            from <= i <= n,
            n == chars@.len(),
            body == chars@.skip(from as int),
            all_digits(body.take(i - from)),
        decreases n - i,
    {
        let ghost next = body.take(i - from + 1);
        assert forall|j: int| 0 <= j < next.len() implies is_digit(#[trigger] next[j]) by {
            if j < i - from {
                assert(next[j] == body.take(i - from)[j]);
            } else {
                assert(next[j] == chars@[i as int]);
            }
        }
        i = i + 1;
    }
    proof {
        if i < n {
            assert(body[i - from] == chars@[i as int]);
        }
        lemma_digit_prefix_is(body, i - from);
        assert(body.take(i - from) == chars@.subrange(from as int, i as int));
    }
    i
}

/// The value of the first `upto` digits, and whether it is too large to
/// be held.
fn value_of(digits: &Vec<char>, upto: usize) -> (r: (u64, bool))
    requires
        upto <= digits@.len(),
        all_digits(digits@),
    ensures
        !r.1 ==> r.0 == digits_value(digits@.take(upto as int)),
        r.1 ==> digits_value(digits@.take(upto as int)) > u64::MAX,
{
    let mut value: u64 = 0;
    let mut big: bool = false;
    let mut i: usize = 0;
    assert(digits@.take(0) == Seq::<char>::empty());
    while i < upto
        invariant
            i <= upto <= digits@.len(),
            all_digits(digits@),
            !big ==> value == digits_value(digits@.take(i as int)),
            big ==> digits_value(digits@.take(i as int)) > u64::MAX,
        decreases upto - i,
    {
        let c: char = digits[i];
        assert(is_digit(digits@[i as int]));
        let d: u64 = (c as u32 - '0' as u32) as u64;
        let ghost next = digits@.take(i + 1);
        assert(next.drop_last() == digits@.take(i as int));
        assert(next.last() == c);
        if !big {
            if value > (u64::MAX - d) / 10 {
                big = true;
            } else {
                value = value * 10 + d;
            }
        }
        i = i + 1;
    }
    (value, big)
}

/// The value of the digits from `from` on, as far as it stays below two
/// to the power of a hundred, and whether it does not.
fn exponent_value(chars: &Vec<char>, from: usize) -> (r: (u128, bool))
    requires
        from <= chars@.len(),
        all_digits(chars@.skip(from as int)),
    ensures
        !r.1 ==> r.0 == digits_value(chars@.skip(from as int)) && r.0
            < 0x10_0000_0000_0000_0000_0000_0000,
        r.1 ==> digits_value(chars@.skip(from as int)) >= 0x10_0000_0000_0000_0000_0000_0000,
{
    let n: usize = chars.len();
    let ghost body = chars@.skip(from as int);
    let mut value: u128 = 0;
    let mut huge: bool = false;
    let mut i: usize = from;
    assert(body.take(0) == Seq::<char>::empty());
    while i < n
        invariant
            from <= i <= n,
            n == chars@.len(),
            body == chars@.skip(from as int),
            all_digits(body),
            !huge ==> value == digits_value(body.take(i - from)) && value
                < 0x10_0000_0000_0000_0000_0000_0000,
            huge ==> digits_value(body.take(i - from)) >= 0x10_0000_0000_0000_0000_0000_0000,
        decreases n - i,
    {
        let c: char = chars[i];
        assert(body[i - from] == c);
        assert(is_digit(body[i - from]));
        let d: u128 = (c as u32 - '0' as u32) as u128;
        let ghost next = body.take(i - from + 1);
        assert(next.drop_last() == body.take(i - from));
        assert(next.last() == c);
        if !huge {
            let grown: u128 = value * 10 + d;
            if grown >= 0x10_0000_0000_0000_0000_0000_0000 {
                huge = true;
            } else {
                value = grown;
            }
        }
        i = i + 1;
    }
    assert(body.take(body.len() as int) == body);
    (value, huge)
}

/// A number moved left by `k` places, and whether the result is too large
/// to be held.
fn times_pow10(v: u64, k: u128) -> (r: (u64, bool))
    ensures
        !r.1 ==> r.0 == v * pow10(k as nat),
        r.1 ==> v * pow10(k as nat) > u64::MAX,
{
    if v == 0 {
        assert(0 * pow10(k as nat) == 0) by (nonlinear_arith);
        return (0, false);
    }
    let mut value: u64 = v;
    let mut j: u128 = 0;
    assert(v * pow10(0) == v) by (nonlinear_arith)
        requires
            pow10(0) == 1,
    ;
    while j < k && j < 20
        invariant
            j <= k,
            j <= 20,
            v >= 1,
            value == v * pow10(j as nat),
        decreases 20 - j,
    {
        assert(v * pow10((j + 1) as nat) == (v * pow10(j as nat)) * 10) by (nonlinear_arith)
            requires
                pow10((j + 1) as nat) == 10 * pow10(j as nat),
        ;
        if value > u64::MAX / 10 {
            proof {
                lemma_pow10_grows((j + 1) as nat, k as nat);
                assert(v * pow10(k as nat) >= v * pow10((j + 1) as nat)) by (nonlinear_arith)
                    requires
                        pow10(k as nat) >= pow10((j + 1) as nat),
                        v >= 1,
                ;
            }
            return (0, true);
        }
        value = value * 10;
        j = j + 1;
    }
    proof {
        if j < k {
            lemma_large_shift(v as nat, 20);
        }
    }
    (value, false)
}

/// A number moved right by `k` places, rounded down.
fn div_pow10(y: u64, k: u128) -> (r: u64)
    ensures
        r as int == y as int / pow10(k as nat) as int,
{
    let mut value: u64 = y;
    let mut j: u128 = 0;
    assert(pow10(0) == 1);
    while j < k && j < 20
        invariant
            j <= k,
            j <= 20,
            value as int == y as int / pow10(j as nat) as int,
        decreases 20 - j,
    {
        proof {
            lemma_pow10_grows(0, j as nat);
            vstd::arithmetic::div_mod::lemma_div_denominator(
                y as int,
                pow10(j as nat) as int,
                10,
            );
            assert(pow10((j + 1) as nat) == pow10(j as nat) * 10) by (nonlinear_arith)
                requires
                    pow10((j + 1) as nat) == 10 * pow10(j as nat),
            ;
        }
        value = value / 10;
        j = j + 1;
    }
    proof {
        if j < k {
            lemma_pow10_20();
            lemma_pow10_grows(20, k as nat);
            vstd::arithmetic::div_mod::lemma_basic_div(y as int, pow10(20) as int);
            vstd::arithmetic::div_mod::lemma_basic_div(y as int, pow10(k as nat) as int);
        }
    }
    value
}

/// The digits from `from` on, read as a number between zero and one,
/// times a factor, rounded down.
fn fraction_floor(digits: &Vec<char>, from: usize, factor: u64) -> (r: u64)
    requires
        from <= digits@.len(),
        all_digits(digits@),
    ensures
        r as int == (digits_value(digits@.skip(from as int)) * factor) as int / pow10(
            (digits@.len() - from) as nat,
        ) as int,
        r <= factor,
{
    let n: usize = digits.len();
    let mut y: u64 = 0;
    let mut i: usize = n;
    assert(digits@.skip(n as int) == Seq::<char>::empty());
    assert((0 * factor) as int / 1 == 0) by (nonlinear_arith);
    while i > from
        invariant
            from <= i <= n,
            n == digits@.len(),
            all_digits(digits@),
            y as int == (digits_value(digits@.skip(i as int)) * factor) as int / pow10(
                (n - i) as nat,
            ) as int,
            y <= factor,
        decreases i,
    {
        let c: char = digits[i - 1];
        assert(is_digit(digits@[i - 1]));
        let d: u128 = (c as u32 - '0' as u32) as u128;
        assert(d <= 9);
        assert(d * (factor as u128) <= 9 * 0xffff_ffff_ffff_ffff) by (nonlinear_arith)
            requires
                d <= 9,
                factor <= 0xffff_ffff_ffff_ffff,
        ;
        let sum: u128 = d * (factor as u128) + (y as u128);
        let next: u128 = sum / 10;
        assert(next <= factor) by (nonlinear_arith)
            requires
                next == sum / 10,
                sum == d * (factor as u128) + (y as u128),
                d <= 9,
                y <= factor,
        ;
        proof {
            let tail = digits@.skip(i - 1);
            let len = (n - i + 1) as nat;
            assert forall|j: int| 0 <= j < tail.len() implies is_digit(#[trigger] tail[j]) by {
                assert(tail[j] == digits@[j + i - 1]);
            }
            lemma_value_split(tail, 1);
            assert(tail.skip(1) == digits@.skip(i as int));
            assert(tail.take(1).drop_last() == Seq::<char>::empty());
            assert(tail.take(1).last() == c);
            assert(digits_value(tail.take(1)) == d) by {
                assert(digits_value(tail.take(1).drop_last()) == 0);
            }
            let p = pow10((len - 1) as nat) as int;
            let v = digits_value(digits@.skip(i as int)) as int;
            let x = v * factor;
            let df = d as int * factor;
            lemma_pow10_grows(0, (len - 1) as nat);
            assert(digits_value(tail) * factor == x + df * p) by (nonlinear_arith)
                requires
                    digits_value(tail) == d * p + v,
                    x == v * factor,
                    df == d * factor,
            ;
            vstd::arithmetic::div_mod::lemma_hoist_over_denominator(x, df, p as nat);
            assert(x >= 0 && df >= 0 && x + df * p >= 0) by (nonlinear_arith)
                requires
                    v >= 0,
                    factor >= 0,
                    d >= 0,
                    p >= 1,
                    x == v * factor,
                    df == d * factor,
            ;
            vstd::arithmetic::div_mod::lemma_div_denominator(x + df * p, p, 10);
            assert(pow10(len) as int == p * 10) by (nonlinear_arith)
                requires
                    pow10(len) == 10 * pow10((len - 1) as nat),
                    p == pow10((len - 1) as nat),
            ;
            assert(sum as int == x / p + df);
            assert(next as int == (x + df * p) / (p * 10));
            assert(next as int == (digits_value(tail) * factor) as int / pow10(len) as int);
            assert(len == (n - (i - 1)) as nat);
        }
        y = next as u64;
        i = i - 1;
    }
    y
}

/// A number that may be too large to be held, times a factor, no larger
/// than the largest that 64 bits hold; `more` is added to the product.
fn saturating_product(v: u64, big: bool, factor: u64, more: u64, Ghost(exact): Ghost<nat>) -> (r:
    u64)
    requires
        !big ==> v == exact,
        big ==> exact > u64::MAX,
        more <= factor,
    ensures
        r == saturated((exact * factor + more) as nat),
{
    if factor == 0 {
        assert(exact * factor == 0) by (nonlinear_arith)
            requires
                factor == 0,
        ;
        return 0;
    }
    if big {
        assert(exact * factor > u64::MAX) by (nonlinear_arith)
            requires
                exact > u64::MAX,
                factor >= 1,
        ;
        return u64::MAX;
    }
    assert((v as u128) * (factor as u128) <= 0xffff_ffff_ffff_ffff * 0xffff_ffff_ffff_ffff)
        by (nonlinear_arith)
        requires
            v <= 0xffff_ffff_ffff_ffff,
            factor <= 0xffff_ffff_ffff_ffff,
    ;
    let sum: u128 = (v as u128) * (factor as u128) + (more as u128);
    if sum > u64::MAX as u128 {
        u64::MAX
    } else {
        sum as u64
    }
}

/// The digits of a number, moved by its exponent, times a factor, rounded
/// down. `frac_len` of the digits stand behind the point. The exponent is
/// given by its sign and its value, or as too large to be held.
fn scale_digits(
    digits: &Vec<char>,
    frac_len: usize,
    exp_negative: bool,
    exp_value: u128,
    exp_huge: bool,
    factor: u64,
    Ghost(e): Ghost<nat>,
) -> (r: u64)
    requires
        all_digits(digits@),
        frac_len <= digits@.len(),
        !exp_huge ==> exp_value == e && exp_value < 0x10_0000_0000_0000_0000_0000_0000,
        exp_huge ==> e >= 0x10_0000_0000_0000_0000_0000_0000,
    ensures
        r == saturated(
            scaled_floor(
                digits_value(digits@),
                (if exp_negative {
                    -(e as int)
                } else {
                    e as int
                }) - frac_len,
                factor as nat,
            ),
        ),
{
    let len: usize = digits.len();
    let ghost d = digits_value(digits@);
    let ghost shift = (if exp_negative {
        -(e as int)
    } else {
        e as int
    }) - frac_len;
    assert(digits@.take(len as int) == digits@);
    assert(digits@.skip(0) == digits@);
    proof {
        lemma_value_bound(digits@);
    }
    if exp_huge {
        if exp_negative {
            proof {
                lemma_tiny(d, len as nat, factor as nat, (e + frac_len) as nat);
            }
            return 0;
        }
        let whole = value_of(digits, len);
        proof {
            lemma_pow10_grows(0, shift as nat);
            if d >= 1 {
                lemma_large_shift(d, shift as nat);
            } else {
                assert(d * pow10(shift as nat) == 0) by (nonlinear_arith)
                    requires
                        d == 0,
                ;
            }
        }
        let moved_big: bool = whole.1 || whole.0 > 0;
        return saturating_product(0, moved_big, factor, 0, Ghost(d * pow10(shift as nat)));
    }
    if !exp_negative && exp_value >= frac_len as u128 {
        let whole = value_of(digits, len);
        if whole.1 {
            proof {
                lemma_pow10_grows(0, shift as nat);
                assert(d * pow10(shift as nat) > u64::MAX) by (nonlinear_arith)
                    requires
                        d > u64::MAX,
                        pow10(shift as nat) >= 1,
                ;
            }
            return saturating_product(0, true, factor, 0, Ghost(d * pow10(shift as nat)));
        }
        let moved = times_pow10(whole.0, exp_value - frac_len as u128);
        return saturating_product(moved.0, moved.1, factor, 0, Ghost(d * pow10(shift as nat)));
    }
    let q: u128 = if exp_negative {
        exp_value + frac_len as u128
    } else {
        frac_len as u128 - exp_value
    };
    assert(shift == -(q as int));
    if q == 0 {
        let whole = value_of(digits, len);
        assert(d * pow10(0) == d) by (nonlinear_arith)
            requires
                pow10(0) == 1,
        ;
        return saturating_product(whole.0, whole.1, factor, 0, Ghost(d));
    }
    if q <= len as u128 {
        let k: usize = len - (q as usize);
        let head = value_of(digits, k);
        let tail = fraction_floor(digits, k, factor);
        proof {
            lemma_value_split(digits@, k as int);
            let a = digits_value(digits@.take(k as int));
            let f = digits_value(digits@.skip(k as int));
            let p = pow10(q as nat);
            lemma_pow10_grows(0, q as nat);
            assert(d * factor == f * factor + (a * factor) * p) by (nonlinear_arith)
                requires
                    d == a * p + f,
            ;
            vstd::arithmetic::div_mod::lemma_hoist_over_denominator(
                (f * factor) as int,
                (a * factor) as int,
                p,
            );
            assert(scaled_floor(d, shift, factor as nat) == a * factor + tail);
        }
        return saturating_product(
            head.0,
            head.1,
            factor,
            tail,
            Ghost(digits_value(digits@.take(k as int))),
        );
    }
    let within = fraction_floor(digits, 0, factor);
    let rest = div_pow10(within, q - len as u128);
    proof {
        let x = (d * factor) as int;
        lemma_pow10_grows(0, len as nat);
        lemma_pow10_grows(0, (q - len) as nat);
        vstd::arithmetic::div_mod::lemma_div_denominator(
            x,
            pow10(len as nat) as int,
            pow10((q - len) as nat) as int,
        );
        lemma_pow10_add(len as nat, (q - len) as nat);
        assert(rest as int == x / pow10(q as nat) as int);
        assert(0 * factor + rest == rest) by (nonlinear_arith);
    }
    saturating_product(0, false, factor, rest, Ghost(0nat))
}

fn upper_of(c: char) -> (u: char)
    ensures
        u == ascii_upper(c),
{
    if c >= 'a' && c <= 'z' {
        ((c as u8) - 32) as char
    } else {
        c
    }
}

fn is_word_at(chars: &Vec<char>, from: usize, upper: &Vec<char>) -> (b: bool)
    requires
        from <= chars@.len(),
    ensures
        b == is_word(chars@.skip(from as int), upper@),
{
    let n: usize = chars.len();
    if n - from != upper.len() {
        return false;
    }
    let ghost text = chars@.skip(from as int);
    let mut i: usize = 0;
    while i < upper.len()
        invariant
            i <= upper.len(),
            n == chars@.len(),
            from + upper.len() == n,
            text == chars@.skip(from as int),
            forall|k: int| 0 <= k < i ==> ascii_upper(#[trigger] text[k]) == upper@[k],
        decreases upper.len() - i,
    {
        assert(text[i as int] == chars@[from + i]);
        if upper_of(chars[from + i]) != upper[i] {
            return false;
        }
        i = i + 1;
    }
    true
}

/// Tells whether a text, from `start` on, is one of the words that are
/// numbers: the first answer is for `nan`, the second for infinity.
fn special_at(chars: &Vec<char>, start: usize) -> (r: (bool, bool))
    requires
        start <= chars@.len(),
    ensures
        r.0 == is_word(chars@.skip(start as int), seq!['N', 'A', 'N']),
        r.1 == (is_word(chars@.skip(start as int), seq!['I', 'N', 'F']) || is_word(
            chars@.skip(start as int),
            seq!['I', 'N', 'F', 'I', 'N', 'I', 'T', 'Y'],
        )),
{
    let nan = vec!['N', 'A', 'N'];
    assert(nan@ == seq!['N', 'A', 'N']);
    let inf = vec!['I', 'N', 'F'];
    assert(inf@ == seq!['I', 'N', 'F']);
    let infinity = vec!['I', 'N', 'F', 'I', 'N', 'I', 'T', 'Y'];
    assert(infinity@ == seq!['I', 'N', 'F', 'I', 'N', 'I', 'T', 'Y']);
    let is_nan: bool = is_word_at(chars, start, &nan);
    let is_inf: bool = is_word_at(chars, start, &inf) || is_word_at(chars, start, &infinity);
    (is_nan, is_inf)
}

/// Finds the digits of a number that begins at `start`: where the digits
/// before the point end, where those behind it begin, and where they end.
fn scan_digits(chars: &Vec<char>, start: usize, Ghost(text): Ghost<Seq<char>>) -> (r: (
    usize,
    usize,
    usize,
))
    requires
        start <= chars@.len(),
        unsigned_part(text) == chars@.skip(start as int),
    ensures
        start <= r.0 <= r.1 <= r.2 <= chars@.len(),
        whole_digits(text) == chars@.subrange(start as int, r.0 as int),
        fraction_digits(text) == chars@.subrange(r.1 as int, r.2 as int),
        after_mantissa(text) == chars@.skip(r.2 as int),
        all_digits(chars@.subrange(start as int, r.0 as int)),
        all_digits(chars@.subrange(r.1 as int, r.2 as int)),
{
    let n: usize = chars.len();
    let w_end: usize = digits_end(chars, start);
    assert(whole_digits(text) == chars@.subrange(start as int, w_end as int));
    assert(after_whole(text) == chars@.skip(w_end as int));
    let p_end: usize = if w_end < n && chars[w_end] == '.' {
        w_end + 1
    } else {
        w_end
    };
    assert(w_end < n ==> after_whole(text)[0] == chars@[w_end as int]);
    assert(after_point(text) == chars@.skip(p_end as int)) by {
        if p_end > w_end {
            assert(chars@.skip(w_end as int).skip(1) == chars@.skip(p_end as int));
        }
    }
    let f_end: usize = digits_end(chars, p_end);
    assert(fraction_digits(text) == chars@.subrange(p_end as int, f_end as int));
    assert(after_mantissa(text) == chars@.skip(f_end as int));
    (w_end, p_end, f_end)
}

/// Reads the exponent that begins at `from`, where the digits of the
/// number end: its sign, its value or that it is too large to be held,
/// and the value itself. None where what stands there is no exponent.
fn scan_exponent(chars: &Vec<char>, from: usize, Ghost(text): Ghost<Seq<char>>) -> (r: Option<
    (bool, u128, bool, Ghost<nat>),
>)
    requires
        from <= chars@.len(),
        after_mantissa(text) == chars@.skip(from as int),
    ensures
        r is Some <==> (after_mantissa(text).len() > 0 ==> has_exponent(text) && unsigned_part(
            exponent_text(text),
        ).len() >= 1 && all_digits(unsigned_part(exponent_text(text)))),
        r matches Some(x) ==> {
            &&& exponent_of(text) == if x.0 {
                -(x.3@ as int)
            } else {
                x.3@ as int
            }
            &&& !x.2 ==> x.1 == x.3@ && x.1 < 0x10_0000_0000_0000_0000_0000_0000
            &&& x.2 ==> x.3@ >= 0x10_0000_0000_0000_0000_0000_0000
        },
{
    let n: usize = chars.len();
    if from >= n {
        return Some((false, 0, false, Ghost(0nat)));
    }
    assert(after_mantissa(text)[0] == chars@[from as int]);
    if chars[from] != 'e' && chars[from] != 'E' {
        return None;
    }
    let e1: usize = from + 1;
    assert(exponent_text(text) == chars@.skip(e1 as int)) by {
        assert(chars@.skip(from as int).skip(1) == chars@.skip(e1 as int));
    }
    assert(e1 < n ==> exponent_text(text)[0] == chars@[e1 as int]);
    let exp_negative: bool = e1 < n && chars[e1] == '-';
    let e2: usize = if e1 < n && (chars[e1] == '+' || chars[e1] == '-') {
        e1 + 1
    } else {
        e1
    };
    assert(unsigned_part(exponent_text(text)) == chars@.skip(e2 as int)) by {
        if e2 > e1 {
            assert(chars@.skip(e1 as int).skip(1) == chars@.skip(e2 as int));
        }
    }
    if e2 >= n {
        return None;
    }
    let e_end: usize = digits_end(chars, e2);
    if e_end != n {
        assert(!is_digit(chars@.skip(e2 as int)[e_end - e2]));
        return None;
    }
    assert(chars@.subrange(e2 as int, n as int) == chars@.skip(e2 as int));
    let exp = exponent_value(chars, e2);
    Some((exp_negative, exp.0, exp.1, Ghost(digits_value(chars@.skip(e2 as int)))))
}

/// Computes what a number text times a factor comes to, rounded down.
pub fn scaled(text: &str, factor: u64) -> (r: Option<u64>)
    ensures
        r == scaled_value(text@, factor),
{
    let chars = chars_of(text);
    let n: usize = chars.len();
    let negative: bool = n > 0 && chars[0] == '-';
    let start: usize = if n > 0 && (chars[0] == '+' || chars[0] == '-') {
        1
    } else {
        0
    };
    assert(unsigned_part(text@) == chars@.skip(start as int));
    let special = special_at(&chars, start);
    if special.0 {
        return Some(0);
    }
    if special.1 {
        return Some(
            if negative || factor == 0 {
                0
            } else {
                u64::MAX
            },
        );
    }
    let (w_end, p_end, f_end) = scan_digits(&chars, start, Ghost(text@));
    if (w_end - start) + (f_end - p_end) == 0 {
        return None;
    }
    let exp = match scan_exponent(&chars, f_end, Ghost(text@)) {
        Some(exp) => exp,
        None => {
            return None;
        },
    };
    assert(is_decimal_number(text@));
    if negative {
        return Some(0);
    }
    let mut digits = slice_of(&chars, start, w_end);
    let behind = slice_of(&chars, p_end, f_end);
    append(&mut digits, &behind);
    assert(digits@ == mantissa(text@));
    assert(all_digits(digits@)) by {
        assert forall|i: int| 0 <= i < digits@.len() implies is_digit(#[trigger] digits@[i]) by {
            if i < w_end - start {
                assert(digits@[i] == chars@.subrange(start as int, w_end as int)[i]);
            } else {
                assert(digits@[i] == chars@.subrange(p_end as int, f_end as int)[i - (w_end
                    - start)]);
            }
        }
    }
    Some(scale_digits(&digits, f_end - p_end, exp.0, exp.1, exp.2, factor, exp.3))
}

} // verus!
