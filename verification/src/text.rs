//! Text as sequences of characters: conversions between strings and
//! character vectors, and the searching, trimming and number formats that
//! the rest of the library shares.

use vstd::prelude::*;

verus! {

/// `String::push` appends one character to the string.
pub assume_specification[ String::push ](s: &mut String, c: char)
    ensures
        final(s)@ == old(s)@.push(c),
;

/// The characters of a string, in order.
pub fn chars_of(s: &str) -> (v: Vec<char>)
    ensures
        v@ == s@,
{
    let mut v: Vec<char> = Vec::new();
    for c in it: s.chars()
        invariant
            v@ == it.seq().take(it.index() as int),
            it.seq() == s@,
    {
        v.push(c);
        assert(it.seq().take(it.index() + 1) == it.seq().take(it.index() as int).push(c));
    }
    assert(s@.take(s@.len() as int) == s@);
    v
}

/// The string made of the given characters.
pub fn string_of(chars: &Vec<char>) -> (s: String)
    ensures
        s@ == chars@,
{
    let mut s = String::new();
    let mut i: usize = 0;
    while i < chars.len()
        invariant
            i <= chars.len(),
            s@ == chars@.take(i as int),
        decreases chars.len() - i,
    {
        s.push(chars[i]);
        assert(chars@.take(i + 1) == chars@.take(i as int).push(chars@[i as int]));
        i = i + 1;
    }
    assert(chars@.take(chars@.len() as int) == chars@);
    s
}

/// The characters of each text of a list.
pub open spec fn texts(v: Seq<String>) -> Seq<Seq<char>> {
    v.map_values(|s: String| s@)
}

/// The characters of an optional text.
pub open spec fn text_view(t: Option<String>) -> Option<Seq<char>> {
    match t {
        Some(s) => Some(s@),
        None => None,
    }
}

/// Tests whether one of the texts is the given one.
pub fn any_is(pieces: &Vec<Vec<char>>, t: &Vec<char>) -> (b: bool)
    ensures
        b == texts_of(pieces@).contains(t@),
{
    let mut i: usize = 0;
    while i < pieces.len()
        invariant
            i <= pieces.len(),
            forall|k: int| 0 <= k < i ==> texts_of(pieces@)[k] != t@,
        decreases pieces.len() - i,
    {
        if same_chars(&pieces[i], t) {
            assert(texts_of(pieces@)[i as int] == t@);
            return true;
        }
        i = i + 1;
    }
    false
}

/// Whether `pattern` stands in `s` at position `at`.
pub open spec fn occurs_at(s: Seq<char>, at: int, pattern: Seq<char>) -> bool {
    &&& 0 <= at
    &&& at + pattern.len() <= s.len()
    &&& s.subrange(at, at + pattern.len()) == pattern
}

/// Whether `pattern` stands somewhere in `s`.
pub open spec fn has_substring(s: Seq<char>, pattern: Seq<char>) -> bool {
    exists|at: int| occurs_at(s, at, pattern)
}

/// Tests whether `pattern` stands in `s` at position `at`.
pub fn matches_at(s: &Vec<char>, at: usize, pattern: &Vec<char>) -> (b: bool)
    ensures
        b == occurs_at(s@, at as int, pattern@),
{
    if at > s.len() || pattern.len() > s.len() - at {
        return false;
    }
    let mut i: usize = 0;
    while i < pattern.len()
        invariant
            i <= pattern.len(),
            at + pattern.len() <= s.len(),
            s@.subrange(at as int, at + i) == pattern@.take(i as int),
        decreases pattern.len() - i,
    {
        if s[at + i] != pattern[i] {
            assert(s@.subrange(at as int, at + pattern.len())[i as int] == s@[at + i]);
            return false;
        }
        assert(s@.subrange(at as int, at + i + 1) == s@.subrange(at as int, at + i).push(
            s@[at + i],
        ));
        assert(pattern@.take(i + 1) == pattern@.take(i as int).push(pattern@[i as int]));
        i = i + 1;
    }
    assert(pattern@.take(pattern@.len() as int) == pattern@);
    true
}

/// Tests whether `s` begins with `pattern`.
pub fn starts_with(s: &Vec<char>, pattern: &Vec<char>) -> (b: bool)
    ensures
        b == pattern@.is_prefix_of(s@),
{
    matches_at(s, 0, pattern)
}

/// Tests whether `s` ends with `pattern`.
pub fn ends_with(s: &Vec<char>, pattern: &Vec<char>) -> (b: bool)
    ensures
        b == pattern@.is_suffix_of(s@),
{
    if pattern.len() > s.len() {
        return false;
    }
    matches_at(s, s.len() - pattern.len(), pattern)
}

/// Tests whether `pattern` stands somewhere in `s`.
pub fn contains(s: &Vec<char>, pattern: &Vec<char>) -> (b: bool)
    ensures
        b == has_substring(s@, pattern@),
{
    if pattern.len() > s.len() {
        return false;
    }
    let last: usize = s.len() - pattern.len();
    let mut at: usize = 0;
    while at < last
        invariant
            last == s.len() - pattern.len(),
            at <= last,
            forall|k: int| 0 <= k < at ==> !occurs_at(s@, k, pattern@),
        decreases last - at,
    {
        if matches_at(s, at, pattern) {
            return true;
        }
        at = at + 1;
    }
    matches_at(s, last, pattern)
}

/// `s` without every leading repetition of `pattern`.
pub open spec fn without_leading(s: Seq<char>, pattern: Seq<char>) -> Seq<char>
    decreases s.len(),
{
    if pattern.len() > 0 && pattern.is_prefix_of(s) {
        without_leading(s.skip(pattern.len() as int), pattern)
    } else {
        s
    }
}

/// `s` without every trailing repetition of `pattern`.
pub open spec fn without_trailing(s: Seq<char>, pattern: Seq<char>) -> Seq<char>
    decreases s.len(),
{
    if pattern.len() > 0 && pattern.is_suffix_of(s) {
        without_trailing(s.take(s.len() - pattern.len()), pattern)
    } else {
        s
    }
}

/// The characters of `s` from `from` up to `to`.
pub fn slice_of(s: &Vec<char>, from: usize, to: usize) -> (r: Vec<char>)
    requires
        from <= to <= s.len(),
    ensures
        r@ == s@.subrange(from as int, to as int),
{
    let mut r: Vec<char> = Vec::new();
    let mut i: usize = from;
    while i < to
        invariant
            from <= i <= to <= s.len(),
            r@ == s@.subrange(from as int, i as int),
        decreases to - i,
    {
        r.push(s[i]);
        assert(s@.subrange(from as int, i + 1) == s@.subrange(from as int, i as int).push(
            s@[i as int],
        ));
        i = i + 1;
    }
    r
}

/// Removes every leading repetition of `pattern`.
pub fn trim_start_matches(s: &Vec<char>, pattern: &Vec<char>) -> (r: Vec<char>)
    ensures
        r@ == without_leading(s@, pattern@),
{
    let mut from: usize = 0;
    assert(s@.skip(0) == s@);
    if pattern.len() > 0 {
        while matches_at(s, from, pattern)
            invariant
                from <= s.len(),
                pattern.len() > 0,
                without_leading(s@, pattern@) == without_leading(s@.skip(from as int), pattern@),
            decreases s.len() - from,
        {
            assert(s@.skip(from as int).subrange(0, pattern@.len() as int) == s@.subrange(
                from as int,
                from + pattern@.len(),
            ));
            assert(s@.skip(from as int).skip(pattern@.len() as int) == s@.skip(
                from + pattern@.len(),
            ));
            from = from + pattern.len();
        }
        assert(s@.skip(from as int).len() >= pattern@.len() ==> s@.skip(from as int).subrange(
            0,
            pattern@.len() as int,
        ) == s@.subrange(from as int, from + pattern@.len()));
    }
    assert(s@.skip(from as int) == s@.subrange(from as int, s@.len() as int));
    slice_of(s, from, s.len())
}

/// Removes every trailing repetition of `pattern`.
pub fn trim_end_matches(s: &Vec<char>, pattern: &Vec<char>) -> (r: Vec<char>)
    ensures
        r@ == without_trailing(s@, pattern@),
{
    let mut to: usize = s.len();
    assert(s@.take(s@.len() as int) == s@);
    if pattern.len() > 0 {
        while to >= pattern.len() && matches_at(s, to - pattern.len(), pattern)
            invariant
                to <= s.len(),
                pattern.len() > 0,
                without_trailing(s@, pattern@) == without_trailing(s@.take(to as int), pattern@),
            decreases to,
        {
            assert(s@.take(to as int).subrange(to - pattern@.len(), to as int) == s@.subrange(
                to - pattern@.len(),
                to as int,
            ));
            assert(s@.take(to as int).take(to - pattern@.len()) == s@.take(to - pattern@.len()));
            to = to - pattern.len();
        }
        assert(to >= pattern@.len() ==> s@.take(to as int).subrange(
            to - pattern@.len(),
            to as int,
        ) == s@.subrange(to - pattern@.len(), to as int));
    }
    assert(s@.take(to as int) == s@.subrange(0, to as int));
    slice_of(s, 0, to)
}

/// `s` with every `from` replaced by the characters of `to`.
pub open spec fn replaced(s: Seq<char>, from: char, to: Seq<char>) -> Seq<char>
    decreases s.len(),
{
    if s.len() == 0 {
        s
    } else if s.last() == from {
        replaced(s.drop_last(), from, to) + to
    } else {
        replaced(s.drop_last(), from, to).push(s.last())
    }
}

/// Appends the characters of `tail` to `out`.
pub fn append(out: &mut Vec<char>, tail: &Vec<char>)
    ensures
        final(out)@ == old(out)@ + tail@,
{
    let mut i: usize = 0;
    while i < tail.len()
        invariant
            i <= tail.len(),
            out@ == old(out)@ + tail@.take(i as int),
        decreases tail.len() - i,
    {
        out.push(tail[i]);
        assert(tail@.take(i + 1) == tail@.take(i as int).push(tail@[i as int]));
        i = i + 1;
    }
    assert(tail@.take(tail@.len() as int) == tail@);
}

/// Replaces every `from` by the characters of `to`.
pub fn replace(s: &Vec<char>, from: char, to: &Vec<char>) -> (r: Vec<char>)
    ensures
        r@ == replaced(s@, from, to@),
{
    let mut r: Vec<char> = Vec::new();
    let mut i: usize = 0;
    while i < s.len()
        invariant
            i <= s.len(),
            r@ == replaced(s@.take(i as int), from, to@),
        decreases s.len() - i,
    {
        assert(s@.take(i + 1).drop_last() == s@.take(i as int));
        if s[i] == from {
            append(&mut r, to);
        } else {
            r.push(s[i]);
        }
        i = i + 1;
    }
    assert(s@.take(s@.len() as int) == s@);
    r
}

/// The character that writes the digit `d` in bases up to sixteen, with
/// lower-case letters from ten on.
pub open spec fn digit_char(d: int) -> char {
    if d < 10 {
        (48 + d) as u8 as char
    } else {
        (87 + d) as u8 as char
    }
}

/// `n` written in decimal, most significant digit first, without leading
/// zeros; zero is written as one digit.
pub open spec fn decimal_digits(n: nat) -> Seq<char>
    decreases n,
{
    if n < 10 {
        seq![digit_char(n as int)]
    } else {
        decimal_digits(n / 10).push(digit_char((n % 10) as int))
    }
}

/// `n` written in hexadecimal with lower-case letters, most significant
/// digit first, without leading zeros; zero is written as one digit.
pub open spec fn hex_digits(n: nat) -> Seq<char>
    decreases n,
{
    if n < 16 {
        seq![digit_char(n as int)]
    } else {
        hex_digits(n / 16).push(digit_char((n % 16) as int))
    }
}

spec fn digits_in_base(n: nat, base: nat) -> Seq<char> {
    if base == 16 {
        hex_digits(n)
    } else {
        decimal_digits(n)
    }
}

fn digit_of(d: u8) -> (c: char)
    requires
        d < 16,
    ensures
        c == digit_char(d as int),
{
    if d < 10 {
        (48u8 + d) as char
    } else {
        (87u8 + d) as char
    }
}

fn push_digits(out: &mut Vec<char>, n: u64, base: u64)
    requires
        base == 10 || base == 16,
    ensures
        final(out)@ == old(out)@ + digits_in_base(n as nat, base as nat),
    decreases n,
{
    if n >= base {
        push_digits(out, n / base, base);
    }
    out.push(digit_of((n % base) as u8));
    assert(final(out)@ == old(out)@ + digits_in_base(n as nat, base as nat)) by {
        if n >= base {
            assert(out@ == (old(out)@ + digits_in_base((n / base) as nat, base as nat)).push(
                digit_char((n % base) as int),
            ));
        } else {
            assert(out@ == old(out)@.push(digit_char(n as int)));
        }
    }
}

/// Appends `n` in decimal to `out`.
pub fn push_decimal(out: &mut Vec<char>, n: u64)
    ensures
        final(out)@ == old(out)@ + decimal_digits(n as nat),
{
    push_digits(out, n, 10);
}

/// Writes `n` in decimal.
pub fn decimal_of(n: u64) -> (r: Vec<char>)
    ensures
        r@ == decimal_digits(n as nat),
{
    let mut r: Vec<char> = Vec::new();
    push_digits(&mut r, n, 10);
    assert(Seq::<char>::empty() + decimal_digits(n as nat) == decimal_digits(n as nat));
    r
}

/// Writes `n` in hexadecimal, with lower-case letters.
pub fn hex_of(n: u64) -> (r: Vec<char>)
    ensures
        r@ == hex_digits(n as nat),
{
    let mut r: Vec<char> = Vec::new();
    push_digits(&mut r, n, 16);
    assert(Seq::<char>::empty() + hex_digits(n as nat) == hex_digits(n as nat));
    r
}

/// Whether `c` is one of the digits `0` to `9`.
pub open spec fn is_digit(c: char) -> bool {
    '0' <= c <= '9'
}

/// Whether `s` holds digits only.
pub open spec fn all_digits(s: Seq<char>) -> bool {
    forall|i: int| 0 <= i < s.len() ==> is_digit(#[trigger] s[i])
}

/// The number that a run of digits writes in decimal.
pub open spec fn digits_value(s: Seq<char>) -> nat
    decreases s.len(),
{
    if s.len() == 0 {
        0
    } else {
        (digits_value(s.drop_last()) * 10 + (s.last() as int - '0' as int)) as nat
    }
}

/// The digits of a number text, after an optional plus sign.
pub open spec fn unsigned_body(s: Seq<char>) -> Seq<char> {
    if s.len() > 0 && s[0] == '+' {
        s.skip(1)
    } else {
        s
    }
}

/// The number that `s` writes, if `s` is an unsigned decimal number no
/// larger than `max`: an optional plus sign followed by at least one
/// digit, and nothing else.
pub open spec fn decimal_value(s: Seq<char>, max: nat) -> Option<nat> {
    let body = unsigned_body(s);
    if body.len() > 0 && all_digits(body) && digits_value(body) <= max {
        Some(digits_value(body))
    } else {
        None
    }
}

proof fn lemma_digits_value_grows(s: Seq<char>, k: int)
    requires
        all_digits(s),
        0 <= k <= s.len(),
    ensures
        digits_value(s.take(k)) <= digits_value(s),
    decreases s.len() - k,
{
    if k < s.len() {
        lemma_digits_value_grows(s, k + 1);
        assert(s.take(k + 1).drop_last() == s.take(k));
        assert(is_digit(s[k]));
        assert(s.take(k + 1).last() == s[k]);
    } else {
        assert(s.take(k) == s);
    }
}

/// Reads an unsigned decimal number no larger than `max`.
pub fn parse_decimal(s: &Vec<char>, max: u64) -> (r: Option<u64>)
    ensures
        match r {
            Some(n) => decimal_value(s@, max as nat) == Some(n as nat),
            None => decimal_value(s@, max as nat) is None,
        },
{
    let start: usize = if s.len() > 0 && s[0] == '+' {
        1
    } else {
        0
    };
    if start >= s.len() {
        return None;
    }
    let ghost body = unsigned_body(s@);
    assert(body == s@.skip(start as int));
    let mut value: u64 = 0;
    let mut i: usize = start;
    while i < s.len()
        invariant
            start <= i <= s.len(),
            body == s@.skip(start as int),
            body == unsigned_body(s@),
            all_digits(body.take(i - start)),
            value as nat == digits_value(body.take(i - start)),
            value <= max,
        decreases s.len() - i,
    {
        let c: char = s[i];
        assert(body[i - start] == c);
        if c < '0' || c > '9' {
            assert(!is_digit(body[i - start]));
            return None;
        }
        let d: u64 = (c as u32 - '0' as u32) as u64;
        assert(body.take(i - start + 1).drop_last() == body.take(i - start));
        assert(body.take(i - start + 1).last() == c);
        assert(all_digits(body.take(i - start + 1))) by {
            assert forall|j: int| 0 <= j < i - start + 1 implies is_digit(
                #[trigger] body.take(i - start + 1)[j],
            ) by {
                if j < i - start {
                    assert(body.take(i - start + 1)[j] == body.take(i - start)[j]);
                }
            }
        }
        if d > max || value > (max - d) / 10 {
            proof {
                if all_digits(body) {
                    lemma_digits_value_grows(body, i - start + 1);
                }
            }
            return None;
        }
        value = value * 10 + d;
        i = i + 1;
    }
    assert(body.take(body.len() as int) == body);
    Some(value)
}

/// Whether a character is white space: one of the characters with the
/// Unicode property White_Space.
pub open spec fn is_whitespace_char(c: char) -> bool {
    let u = c as u32;
    (0x09 <= u <= 0x0D) || u == 0x20 || u == 0x85 || u == 0xA0 || u == 0x1680 || (0x2000 <= u
        <= 0x200A) || u == 0x2028 || u == 0x2029 || u == 0x202F || u == 0x205F || u == 0x3000
}

/// Whether a character is a letter, as `char::is_alphabetic` tells.
pub uninterp spec fn is_alphabetic_char(c: char) -> bool;

/// Whether a character is numeric, as `char::is_numeric` tells.
pub uninterp spec fn is_numeric_char(c: char) -> bool;

/// The lower-case form of a text, as `str::to_lowercase` gives it.
pub uninterp spec fn lowercase_of(s: Seq<char>) -> Seq<char>;

/// The upper-case form of a text, as `str::to_uppercase` gives it.
pub uninterp spec fn uppercase_of(s: Seq<char>) -> Seq<char>;

/// `char::is_whitespace` tells whether a character has the Unicode
/// property White_Space.
pub assume_specification[ char::is_whitespace ](c: char) -> (b: bool)
    ensures
        b == is_whitespace_char(c),
;

/// `char::is_alphabetic` depends on the character alone; its answer is
/// named, not stated.
pub assume_specification[ char::is_alphabetic ](c: char) -> (b: bool)
    ensures
        b == is_alphabetic_char(c),
;

/// `char::is_numeric` depends on the character alone; its answer is named,
/// not stated.
pub assume_specification[ char::is_numeric ](c: char) -> (b: bool)
    ensures
        b == is_numeric_char(c),
;

/// `str::to_lowercase` depends on the text alone; its result is named, not
/// stated.
pub assume_specification[ str::to_lowercase ](s: &str) -> (r: String)
    ensures
        r@ == lowercase_of(s@),
;

/// `str::to_uppercase` depends on the text alone; its result is named, not
/// stated.
pub assume_specification[ str::to_uppercase ](s: &str) -> (r: String)
    ensures
        r@ == uppercase_of(s@),
;

/// `s` without the white space at its start.
pub open spec fn without_leading_space(s: Seq<char>) -> Seq<char>
    decreases s.len(),
{
    if s.len() > 0 && is_whitespace_char(s[0]) {
        without_leading_space(s.skip(1))
    } else {
        s
    }
}

/// `s` without the white space at its end.
pub open spec fn without_trailing_space(s: Seq<char>) -> Seq<char>
    decreases s.len(),
{
    if s.len() > 0 && is_whitespace_char(s.last()) {
        without_trailing_space(s.drop_last())
    } else {
        s
    }
}

/// `s` without the white space at its start and at its end.
pub open spec fn trimmed(s: Seq<char>) -> Seq<char> {
    without_trailing_space(without_leading_space(s))
}

/// Removes the white space at the start and at the end.
pub fn trim(s: &Vec<char>) -> (r: Vec<char>)
    ensures
        r@ == trimmed(s@),
{
    let mut from: usize = 0;
    assert(s@.skip(0) == s@);
    while from < s.len() && s[from].is_whitespace()
        invariant
            from <= s.len(),
            without_leading_space(s@) == without_leading_space(s@.skip(from as int)),
        decreases s.len() - from,
    {
        assert(s@.skip(from as int).skip(1) == s@.skip(from + 1));
        from = from + 1;
    }
    let ghost rest = s@.skip(from as int);
    assert(without_leading_space(s@) == rest);
    let mut to: usize = s.len();
    assert(rest.take(rest.len() as int) == rest);
    while to > from && s[to - 1].is_whitespace()
        invariant
            from <= to <= s.len(),
            rest == s@.skip(from as int),
            without_trailing_space(rest) == without_trailing_space(rest.take(to - from)),
        decreases to,
    {
        assert(rest.take(to - from).last() == s@[to - 1]);
        assert(rest.take(to - from).drop_last() == rest.take(to - from - 1));
        to = to - 1;
    }
    assert(to > from ==> rest.take(to - from).last() == s@[to - 1]);
    assert(rest.take(to - from) == s@.subrange(from as int, to as int));
    slice_of(s, from, to)
}

/// The pieces of `s` between the separators in `seps`: one more piece than
/// there are separators in `s`, empty pieces included.
pub open spec fn split_on(s: Seq<char>, seps: Seq<char>) -> Seq<Seq<char>>
    decreases s.len(),
{
    if s.len() == 0 {
        seq![Seq::<char>::empty()]
    } else {
        let head = split_on(s.drop_last(), seps);
        if seps.contains(s.last()) {
            head.push(Seq::<char>::empty())
        } else {
            head.update(head.len() - 1, head.last().push(s.last()))
        }
    }
}

/// The pieces of `s` between runs of white space; none of them is empty.
pub open spec fn words_of(s: Seq<char>) -> Seq<Seq<char>>
    decreases s.len(),
{
    if s.len() == 0 {
        Seq::<Seq<char>>::empty()
    } else {
        let head = words_of(s.drop_last());
        if is_whitespace_char(s.last()) {
            head
        } else if s.len() >= 2 && !is_whitespace_char(s[s.len() - 2]) {
            head.update(head.len() - 1, head.last().push(s.last()))
        } else {
            head.push(seq![s.last()])
        }
    }
}

/// The views of the texts in a vector.
pub open spec fn texts_of(v: Seq<Vec<char>>) -> Seq<Seq<char>> {
    v.map_values(|t: Vec<char>| t@)
}

/// Whether `c` is one of the characters of `set`.
pub fn is_one_of(c: char, set: &Vec<char>) -> (b: bool)
    ensures
        b == set@.contains(c),
{
    let mut i: usize = 0;
    while i < set.len()
        invariant
            i <= set.len(),
            forall|k: int| 0 <= k < i ==> set@[k] != c,
        decreases set.len() - i,
    {
        if set[i] == c {
            return true;
        }
        i = i + 1;
    }
    false
}

/// Cuts `s` at every separator.
pub fn split(s: &Vec<char>, seps: &Vec<char>) -> (pieces: Vec<Vec<char>>)
    ensures
        texts_of(pieces@) == split_on(s@, seps@),
        pieces@.len() >= 1,
{
    let mut pieces: Vec<Vec<char>> = Vec::new();
    let mut current: Vec<char> = Vec::new();
    let mut i: usize = 0;
    assert(s@.take(0) == Seq::<char>::empty());
    assert(texts_of(pieces@).push(current@) == seq![Seq::<char>::empty()]);
    while i < s.len()
        invariant
            i <= s.len(),
            texts_of(pieces@).push(current@) == split_on(s@.take(i as int), seps@),
        decreases s.len() - i,
    {
        let c: char = s[i];
        assert(s@.take(i + 1).drop_last() == s@.take(i as int));
        assert(s@.take(i + 1).last() == c);
        let ghost head = split_on(s@.take(i as int), seps@);
        assert(head.last() == current@);
        assert(head.drop_last() == texts_of(pieces@));
        if is_one_of(c, seps) {
            let ghost before = pieces@;
            pieces.push(current);
            current = Vec::new();
            assert(texts_of(pieces@) == texts_of(before).push(pieces@.last()@));
            assert(texts_of(pieces@).push(current@) == head.push(Seq::<char>::empty()));
        } else {
            current.push(c);
            assert(texts_of(pieces@).push(current@) == head.update(
                head.len() - 1,
                head.last().push(c),
            ));
        }
        i = i + 1;
    }
    assert(s@.take(s@.len() as int) == s@);
    let ghost before = pieces@;
    pieces.push(current);
    assert(texts_of(pieces@) == texts_of(before).push(pieces@.last()@));
    pieces
}

/// Cuts `s` into its words.
pub fn split_whitespace(s: &Vec<char>) -> (words: Vec<Vec<char>>)
    ensures
        texts_of(words@) == words_of(s@),
{
    let mut words: Vec<Vec<char>> = Vec::new();
    let mut current: Vec<char> = Vec::new();
    let mut i: usize = 0;
    assert(s@.take(0) == Seq::<char>::empty());
    assert(texts_of(words@) == Seq::<Seq<char>>::empty());
    while i < s.len()
        invariant
            i <= s.len(),
            current@.len() > 0 <==> (i > 0 && !is_whitespace_char(s@[i - 1])),
            words_of(s@.take(i as int)) == if current@.len() > 0 {
                texts_of(words@).push(current@)
            } else {
                texts_of(words@)
            },
        decreases s.len() - i,
    {
        let c: char = s[i];
        let ghost prefix = s@.take(i + 1);
        assert(prefix.drop_last() == s@.take(i as int));
        assert(prefix.last() == c);
        assert(i > 0 ==> prefix[prefix.len() - 2] == s@[i - 1]);
        if c.is_whitespace() {
            if current.len() > 0 {
                let ghost before = words@;
                words.push(current);
                current = Vec::new();
                assert(texts_of(words@) == texts_of(before).push(words@.last()@));
            }
        } else {
            let ghost head = words_of(s@.take(i as int));
            if current.len() > 0 {
                assert(head.last() == current@);
                assert(head.drop_last() == texts_of(words@));
                current.push(c);
                assert(texts_of(words@).push(current@) == head.update(
                    head.len() - 1,
                    head.last().push(c),
                ));
            } else {
                current.push(c);
                assert(current@ == seq![c]);
            }
        }
        i = i + 1;
    }
    assert(s@.take(s@.len() as int) == s@);
    if current.len() > 0 {
        let ghost before = words@;
        words.push(current);
        assert(texts_of(words@) == texts_of(before).push(words@.last()@));
    }
    words
}

/// Whether `c` is an ASCII control character: below the space, or DEL.
pub open spec fn is_ascii_control(c: char) -> bool {
    (c as u32) < 32 || c as u32 == 127
}

/// `s` with a question mark in place of every ASCII control character.
pub open spec fn without_controls(s: Seq<char>) -> Seq<char> {
    s.map_values(
        |c: char|
            if is_ascii_control(c) {
                '?'
            } else {
                c
            },
    )
}

/// Puts a question mark in place of every ASCII control character.
pub fn mask_controls(s: &Vec<char>) -> (r: Vec<char>)
    ensures
        r@ == without_controls(s@),
{
    let mut r: Vec<char> = Vec::new();
    let mut i: usize = 0;
    while i < s.len()
        invariant
            i <= s.len(),
            r@ == without_controls(s@.take(i as int)),
        decreases s.len() - i,
    {
        let c: char = s[i];
        let code: u32 = c as u32;
        if code < 32 || code == 127 {
            r.push('?');
        } else {
            r.push(c);
        }
        assert(without_controls(s@.take(i + 1)) == without_controls(s@.take(i as int)).push(
            r@.last(),
        ));
        i = i + 1;
    }
    assert(s@.take(s@.len() as int) == s@);
    r
}

/// Where `pattern` first stands in `s`, if it stands in it at all.
#[verifier::opaque]
pub open spec fn first_occurrence(s: Seq<char>, pattern: Seq<char>) -> Option<int> {
    if has_substring(s, pattern) {
        Some(
            choose|at: int|
                occurs_at(s, at, pattern) && forall|k: int| 0 <= k < at ==> !occurs_at(s, k, pattern),
        )
    } else {
        None
    }
}

/// Finds where `pattern` first stands in `s`.
pub fn find(s: &Vec<char>, pattern: &Vec<char>) -> (r: Option<usize>)
    ensures
        match r {
            Some(at) => first_occurrence(s@, pattern@) == Some(at as int),
            None => first_occurrence(s@, pattern@) is None,
        },
        r matches Some(at) ==> occurs_at(s@, at as int, pattern@),
{
    reveal(first_occurrence);
    if pattern.len() > s.len() {
        return None;
    }
    let last: usize = s.len() - pattern.len();
    let mut at: usize = 0;
    while at <= last
        invariant
            last == s.len() - pattern.len(),
            at <= last + 1,
            last < usize::MAX || at <= last,
            forall|k: int| 0 <= k < at ==> !occurs_at(s@, k, pattern@),
        decreases last + 1 - at,
    {
        proof {
            reveal(first_occurrence);
        }
        if matches_at(s, at, pattern) {
            proof {
                let first = choose|f: int|
                    occurs_at(s@, f, pattern@) && forall|k: int|
                        0 <= k < f ==> !occurs_at(s@, k, pattern@);
                assert(first == at) by {
                    if first < at {
                        assert(!occurs_at(s@, first, pattern@));
                    }
                    if first > at {
                        assert(!occurs_at(s@, at as int, pattern@));
                    }
                }
            }
            return Some(at);
        }
        if at == last {
            return None;
        }
        at = at + 1;
    }
    None
}

/// Whether `c` is a hexadecimal digit, in either case.
pub open spec fn is_hex_digit(c: char) -> bool {
    ('0' <= c <= '9') || ('a' <= c <= 'f') || ('A' <= c <= 'F')
}

/// Whether `s` holds hexadecimal digits only.
pub open spec fn all_hex_digits(s: Seq<char>) -> bool {
    forall|i: int| 0 <= i < s.len() ==> is_hex_digit(#[trigger] s[i])
}

/// How many hexadecimal digits stand at the start of `s`.
pub open spec fn hex_prefix_len(s: Seq<char>) -> nat
    decreases s.len(),
{
    if s.len() > 0 && is_hex_digit(s[0]) {
        1 + hex_prefix_len(s.skip(1))
    } else {
        0
    }
}

/// Tests whether `c` is a hexadecimal digit.
pub fn is_hex(c: char) -> (b: bool)
    ensures
        b == is_hex_digit(c),
{
    (c >= '0' && c <= '9') || (c >= 'a' && c <= 'f') || (c >= 'A' && c <= 'F')
}

/// Counts the hexadecimal digits at the start of `s`.
pub fn hex_prefix(s: &Vec<char>) -> (n: usize)
    ensures
        n == hex_prefix_len(s@),
        n <= s@.len(),
        all_hex_digits(s@.take(n as int)),
{
    let mut n: usize = 0;
    assert(s@.skip(0) == s@);
    while n < s.len() && is_hex(s[n])
        invariant
            n <= s.len(),
            hex_prefix_len(s@) == n + hex_prefix_len(s@.skip(n as int)),
            all_hex_digits(s@.take(n as int)),
        decreases s.len() - n,
    {
        assert(s@.skip(n as int).skip(1) == s@.skip(n + 1));
        assert forall|i: int| 0 <= i < n + 1 implies is_hex_digit(#[trigger] s@.take(n + 1)[i]) by {
            if i < n {
                assert(s@.take(n + 1)[i] == s@.take(n as int)[i]);
            }
        }
        n = n + 1;
    }
    n
}

/// The characters with the codes of the given bytes.
pub open spec fn latin1(bytes: Seq<u8>) -> Seq<char> {
    bytes.map_values(|b: u8| b as char)
}

/// Reads bytes as characters, each byte as the character with its code.
pub fn chars_of_bytes(bytes: &Vec<u8>) -> (r: Vec<char>)
    ensures
        r@ == latin1(bytes@),
{
    let mut r: Vec<char> = Vec::new();
    let mut i: usize = 0;
    while i < bytes.len()
        invariant
            i <= bytes.len(),
            r@ == latin1(bytes@.take(i as int)),
        decreases bytes.len() - i,
    {
        r.push(bytes[i] as char);
        assert(latin1(bytes@.take(i + 1)) == latin1(bytes@.take(i as int)).push(
            bytes@[i as int] as char,
        ));
        i = i + 1;
    }
    assert(bytes@.take(bytes@.len() as int) == bytes@);
    r
}

/// Tests whether two texts hold the same characters.
pub fn same_chars(a: &Vec<char>, b: &Vec<char>) -> (r: bool)
    ensures
        r == (a@ == b@),
{
    if a.len() != b.len() {
        return false;
    }
    let r = matches_at(a, 0, b);
    assert(a@.subrange(0, a@.len() as int) == a@);
    r
}

} // verus!
