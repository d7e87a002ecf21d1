//! Character-level grammars for the fields of an access-log line: decimal and
//! hexadecimal integers, number syntax, and the splitting of composite fields.
//!
//! Every grammar is given as a spec function over `Seq<char>`; the executable
//! readers below are proved to compute exactly those functions.

use vstd::prelude::*;
use vstd::string::StrSliceExecFns;

verus! {

/// The characters of `text`, in order.
pub fn chars_of(text: &str) -> (chars: Vec<char>)
    ensures
        chars@ == text@,
{
    broadcast use vstd::string::axiom_spec_iter;

    let mut chars: Vec<char> = Vec::new();
    for c in it: text.chars()
        invariant
            it.seq() == text@,
            chars@ == text@.take(it.index() as int),
    {
        chars.push(c);
        assert(text@.take(it.index() + 1) == text@.take(it.index() as int).push(c));
    }
    assert(text@.take(text@.len() as int) == text@);
    chars
}

pub open spec fn is_digit(c: char) -> bool {
    '0' <= c <= '9'
}

pub open spec fn digit_value(c: char) -> nat {
    (c as u32 - '0' as u32) as nat
}

pub open spec fn is_hex_digit(c: char) -> bool {
    is_digit(c) || ('a' <= c <= 'f') || ('A' <= c <= 'F')
}

pub open spec fn hex_digit_value(c: char) -> nat {
    if is_digit(c) {
        digit_value(c)
    } else if 'a' <= c <= 'f' {
        (c as u32 - 'a' as u32 + 10) as nat
    } else {
        (c as u32 - 'A' as u32 + 10) as nat
    }
}

/// Whether `c` is a digit of the given radix (10 or 16).
pub open spec fn is_radix_digit(c: char, radix: nat) -> bool {
    if radix == 16 {
        is_hex_digit(c)
    } else {
        is_digit(c)
    }
}

pub open spec fn radix_digit_value(c: char, radix: nat) -> nat {
    if radix == 16 {
        hex_digit_value(c)
    } else {
        digit_value(c)
    }
}

pub open spec fn all_radix_digits(s: Seq<char>, radix: nat) -> bool {
    forall|i: int| 0 <= i < s.len() ==> is_radix_digit(#[trigger] s[i], radix)
}

/// The number that the digits of `s` denote in the given radix, most
/// significant digit first.
pub open spec fn radix_value(s: Seq<char>, radix: nat) -> nat
    decreases s.len(),
{
    if s.len() == 0 {
        0
    } else {
        radix_value(s.drop_last(), radix) * radix + radix_digit_value(s.last(), radix)
    }
}

/// `Some(n)` when `s` is one or more digits of the radix that denote
/// `n <= limit`, else `None`.
pub open spec fn digits_within(s: Seq<char>, radix: nat, limit: nat) -> Option<nat> {
    if s.len() > 0 && all_radix_digits(s, radix) && radix_value(s, radix) <= limit {
        Some(radix_value(s, radix))
    } else {
        None
    }
}

/// An unsigned number with an optional leading `+`.
pub open spec fn unsigned_number(s: Seq<char>, radix: nat, limit: nat) -> Option<nat> {
    if s.len() > 0 && s[0] == '+' {
        digits_within(s.skip(1), radix, limit)
    } else {
        digits_within(s, radix, limit)
    }
}

/// A signed decimal number with an optional leading `+` or `-`, between
/// `-lowest` and `highest`.
pub open spec fn signed_number(s: Seq<char>, lowest: nat, highest: nat) -> Option<int> {
    if s.len() > 0 && s[0] == '-' {
        match digits_within(s.skip(1), 10, lowest) {
            Some(n) => Some(-(n as int)),
            None => None,
        }
    } else {
        match unsigned_number(s, 10, highest) {
            Some(n) => Some(n as int),
            None => None,
        }
    }
}

/// An unsigned integer field: hexadecimal after the prefix `0x`, decimal
/// otherwise, in both cases with an optional `+` before the digits.
pub open spec fn integer_field(s: Seq<char>, limit: nat) -> Option<nat> {
    if s.len() >= 2 && s[0] == '0' && s[1] == 'x' {
        unsigned_number(s.skip(2), 16, limit)
    } else {
        unsigned_number(s, 10, limit)
    }
}

/// Appending digits never makes the denoted number smaller.
pub proof fn lemma_radix_value_prefix(s: Seq<char>, radix: nat, k: int)
    requires
        0 <= k <= s.len(),
        radix == 10 || radix == 16,
    ensures
        radix_value(s.take(k), radix) <= radix_value(s, radix),
    decreases s.len() - k,
{
    if k == s.len() {
        assert(s.take(k) == s);
    } else {
        lemma_radix_value_prefix(s.drop_last(), radix, k);
        assert(s.drop_last().take(k) == s.take(k));
        let v = radix_value(s.drop_last(), radix);
        assert(v <= v * radix) by (nonlinear_arith)
            requires
                radix >= 1,
        ;
    }
}

fn radix_digit(c: char, radix: u32) -> (res: Option<u32>)
    requires
        radix == 10 || radix == 16,
    ensures
        res is Some <==> is_radix_digit(c, radix as nat),
        res matches Some(d) ==> d == radix_digit_value(c, radix as nat) && d < radix,
{
    if '0' <= c && c <= '9' {
        Some(c as u32 - '0' as u32)
    } else if radix == 16 && 'a' <= c && c <= 'f' {
        Some(c as u32 - 'a' as u32 + 10)
    } else if radix == 16 && 'A' <= c && c <= 'F' {
        Some(c as u32 - 'A' as u32 + 10)
    } else {
        None
    }
}

/// Reads the digits from position `from` to the end of `chars`.
pub fn read_digits(chars: &Vec<char>, from: usize, radix: u32, limit: u128) -> (res: Option<u128>)
    requires
        from <= chars.len(),
        radix == 10 || radix == 16,
    ensures
        match res {
            Some(n) => digits_within(chars@.skip(from as int), radix as nat, limit as nat) == Some(
                n as nat,
            ),
            None => digits_within(chars@.skip(from as int), radix as nat, limit as nat) is None,
        },
{
    let ghost s = chars@.skip(from as int);
    if from == chars.len() {
        return None;
    }
    let mut value: u128 = 0;
    let mut i: usize = from;
    while i < chars.len()
        invariant
            from <= i <= chars.len(),
            s == chars@.skip(from as int),
            radix == 10 || radix == 16,
            all_radix_digits(s.take(i - from), radix as nat),
            value == radix_value(s.take(i - from), radix as nat),
            value <= limit,
        decreases chars.len() - i,
    {
        let ghost prefix = s.take(i - from);
        let ghost next = s.take(i + 1 - from);
        proof {
            assert(next.drop_last() == prefix);
            assert(next.last() == chars@[i as int]);
            lemma_radix_value_prefix(s, radix as nat, i + 1 - from);
        }
        match radix_digit(chars[i], radix) {
            None => {
                assert(!is_radix_digit(s[i - from], radix as nat));
                return None;
            },
            Some(d) => {
                let r = radix as u128;
                if value > limit / r {
                    assert(value * r + d > limit) by (nonlinear_arith)
                        requires
                            value > limit / r,
                            r > 0,
                            d >= 0,
                    ;
                    return None;
                }
                assert(value * r <= limit) by (nonlinear_arith)
                    requires
                        value <= limit / r,
                        r > 0,
                ;
                let scaled = value * r;
                if d as u128 > limit - scaled {
                    return None;
                }
                value = scaled + d as u128;
                assert forall|j: int| 0 <= j < next.len() implies is_radix_digit(
                    #[trigger] next[j],
                    radix as nat,
                ) by {
                    if j < prefix.len() {
                        assert(next[j] == prefix[j]);
                    }
                }
            },
        }
        i = i + 1;
    }
    assert(s.take(i - from) == s);
    Some(value)
}

/// Reads an unsigned number with an optional leading `+`, from position
/// `from` to the end of `chars`.
pub fn read_unsigned(chars: &Vec<char>, from: usize, radix: u32, limit: u128) -> (res: Option<u128>)
    requires
        from <= chars.len(),
        radix == 10 || radix == 16,
    ensures
        match res {
            Some(n) => unsigned_number(chars@.skip(from as int), radix as nat, limit as nat)
                == Some(n as nat),
            None => unsigned_number(chars@.skip(from as int), radix as nat, limit as nat) is None,
        },
{
    let ghost s = chars@.skip(from as int);
    if from < chars.len() && chars[from] == '+' {
        assert(s.skip(1) == chars@.skip(from + 1));
        read_digits(chars, from + 1, radix, limit)
    } else {
        read_digits(chars, from, radix, limit)
    }
}

/// Reads a whole field as an unsigned integer no greater than `limit`.
pub fn read_integer_field(text: &str, limit: u64) -> (res: Option<u64>)
    ensures
        match res {
            Some(n) => integer_field(text@, limit as nat) == Some(n as nat),
            None => integer_field(text@, limit as nat) is None,
        },
{
    let chars = chars_of(text);
    assert(chars@.skip(0) == chars@);
    let read = if chars.len() >= 2 && chars[0] == '0' && chars[1] == 'x' {
        read_unsigned(&chars, 2, 16, limit as u128)
    } else {
        read_unsigned(&chars, 0, 10, limit as u128)
    };
    match read {
        Some(n) => Some(n as u64),
        None => None,
    }
}

/// A signed decimal number between `-lowest` and `highest`, with an optional
/// sign before the digits: whether a `-` stands before them, and the number
/// that they denote.
fn read_signed(chars: &Vec<char>, lowest: u128, highest: u128) -> (res: Option<(bool, u128)>)
    ensures
        match res {
            Some((negative, magnitude)) => signed_number(chars@, lowest as nat, highest as nat)
                == Some(
                if negative {
                    -(magnitude as int)
                } else {
                    magnitude as int
                },
            ),
            None => signed_number(chars@, lowest as nat, highest as nat) is None,
        },
{
    assert(chars@.skip(0) == chars@);
    if chars.len() > 0 && chars[0] == '-' {
        match read_digits(chars, 1, 10, lowest) {
            Some(n) => Some((true, n)),
            None => None,
        }
    } else {
        match read_unsigned(chars, 0, 10, highest) {
            Some(n) => Some((false, n)),
            None => None,
        }
    }
}

/// The position of the first character at or after `from` that is no digit
/// (the length of `s` if all are digits).
pub open spec fn digits_end(s: Seq<char>, from: int) -> int
    decreases s.len() - from,
{
    if 0 <= from < s.len() && is_digit(s[from]) {
        digits_end(s, from + 1)
    } else {
        from
    }
}

pub open spec fn is_sign(c: char) -> bool {
    c == '+' || c == '-'
}

/// An exponent after its marker: an optional sign and one or more digits, up
/// to the end of `s`.
pub open spec fn is_exponent_at(s: Seq<char>, at: int) -> bool {
    let digits = if 0 <= at < s.len() && is_sign(s[at]) {
        at + 1
    } else {
        at
    };
    0 <= digits < s.len() && digits_end(s, digits) == s.len()
}

/// A decimal number from `start` to the end of `s`: digits with an optional
/// point among them, at least one digit before or after the point, and an
/// optional exponent.
pub open spec fn is_decimal_at(s: Seq<char>, start: int) -> bool {
    let whole_end = digits_end(s, start);
    let has_point = 0 <= whole_end < s.len() && s[whole_end] == '.';
    let fraction_end = if has_point {
        digits_end(s, whole_end + 1)
    } else {
        whole_end
    };
    let digits = if has_point {
        fraction_end - start - 1
    } else {
        fraction_end - start
    };
    digits > 0 && (fraction_end == s.len() || (0 <= fraction_end < s.len() && (s[fraction_end]
        == 'e' || s[fraction_end] == 'E') && is_exponent_at(s, fraction_end + 1)))
}

pub open spec fn letter(c: char, lower: char, upper: char) -> bool {
    c == lower || c == upper
}

/// One of the words `inf`, `infinity` and `nan`, in any mix of cases, from
/// `start` to the end of `s`.
pub open spec fn is_special_at(s: Seq<char>, start: int) -> bool {
    let n = s.len() - start;
    ||| n == 3 && letter(s[start], 'n', 'N') && letter(s[start + 1], 'a', 'A') && letter(
        s[start + 2],
        'n',
        'N',
    )
    ||| (n == 3 || n == 8) && letter(s[start], 'i', 'I') && letter(s[start + 1], 'n', 'N')
        && letter(s[start + 2], 'f', 'F') && (n == 8 ==> letter(s[start + 3], 'i', 'I')
        && letter(s[start + 4], 'n', 'N') && letter(s[start + 5], 'i', 'I') && letter(
        s[start + 6],
        't',
        'T',
    ) && letter(s[start + 7], 'y', 'Y'))
}

/// Number syntax: an optional sign, then a decimal number or one of the
/// words for infinity and not-a-number.
pub open spec fn is_float_literal(s: Seq<char>) -> bool {
    let start: int = if s.len() > 0 && is_sign(s[0]) {
        1
    } else {
        0
    };
    is_special_at(s, start) || is_decimal_at(s, start)
}

fn scan_digits(chars: &Vec<char>, from: usize) -> (end: usize)
    requires
        from <= chars.len(),
    ensures
        end == digits_end(chars@, from as int),
        from <= end <= chars.len(),
{
    let mut i: usize = from;
    while i < chars.len() && '0' <= chars[i] && chars[i] <= '9'
        invariant
            from <= i <= chars.len(),
            digits_end(chars@, i as int) == digits_end(chars@, from as int),
        decreases chars.len() - i,
    {
        i = i + 1;
    }
    i
}

fn is_letter(c: char, lower: char, upper: char) -> (res: bool)
    ensures
        res == letter(c, lower, upper),
{
    c == lower || c == upper
}

fn check_special(chars: &Vec<char>, start: usize) -> (res: bool)
    requires
        start <= chars.len(),
    ensures
        res == is_special_at(chars@, start as int),
{
    let n = chars.len() - start;
    if n == 3 && is_letter(chars[start], 'n', 'N') && is_letter(chars[start + 1], 'a', 'A')
        && is_letter(chars[start + 2], 'n', 'N') {
        return true;
    }
    if n != 3 && n != 8 {
        return false;
    }
    if !(is_letter(chars[start], 'i', 'I') && is_letter(chars[start + 1], 'n', 'N') && is_letter(
        chars[start + 2],
        'f',
        'F',
    )) {
        return false;
    }
    n == 3 || (is_letter(chars[start + 3], 'i', 'I') && is_letter(chars[start + 4], 'n', 'N')
        && is_letter(chars[start + 5], 'i', 'I') && is_letter(chars[start + 6], 't', 'T')
        && is_letter(chars[start + 7], 'y', 'Y'))
}

fn check_exponent(chars: &Vec<char>, at: usize) -> (res: bool)
    requires
        at <= chars.len(),
    ensures
        res == is_exponent_at(chars@, at as int),
{
    let digits = if at < chars.len() && (chars[at] == '+' || chars[at] == '-') {
        at + 1
    } else {
        at
    };
    digits < chars.len() && scan_digits(chars, digits) == chars.len()
}

fn check_decimal(chars: &Vec<char>, start: usize) -> (res: bool)
    requires
        start <= chars.len(),
    ensures
        res == is_decimal_at(chars@, start as int),
{
    let whole_end = scan_digits(chars, start);
    let has_point = whole_end < chars.len() && chars[whole_end] == '.';
    let fraction_end = if has_point {
        scan_digits(chars, whole_end + 1)
    } else {
        whole_end
    };
    let digits = if has_point {
        fraction_end - start - 1
    } else {
        fraction_end - start
    };
    if digits == 0 {
        return false;
    }
    if fraction_end == chars.len() {
        return true;
    }
    (chars[fraction_end] == 'e' || chars[fraction_end] == 'E') && check_exponent(
        chars,
        fraction_end + 1,
    )
}

/// Whether `chars` has number syntax.
pub fn check_float_literal(chars: &Vec<char>) -> (res: bool)
    ensures
        res == is_float_literal(chars@),
{
    let start: usize = if chars.len() > 0 && (chars[0] == '+' || chars[0] == '-') {
        1
    } else {
        0
    };
    check_special(chars, start) || check_decimal(chars, start)
}

/// What a field whose type is not fixed is taken to be.
#[derive(Debug, Clone, Copy, PartialEq, Eq)]
pub enum Inferred {
    /// One of the words `true` and `false`.
    Boolean,
    /// A decimal integer that fits 64 bits without a sign.
    Unsigned(u64),
    /// A decimal integer that fits 64 bits with a sign, and is no `Unsigned`.
    Signed(i64),
    /// A decimal integer that fits 128 bits, with or without a sign.
    Wide,
    /// Number syntax otherwise: a fraction, an exponent, infinity, not-a-number.
    Float,
    /// Anything else.
    Text,
}

pub open spec fn is_boolean_word(s: Seq<char>) -> bool {
    s =~= seq!['t', 'r', 'u', 'e'] || s =~= seq!['f', 'a', 'l', 's', 'e']
}

pub open spec fn fits_wide(s: Seq<char>) -> bool {
    unsigned_number(s, 10, u128::MAX as nat) is Some || signed_number(
        s,
        0x8000_0000_0000_0000_0000_0000_0000_0000,
        0x7fff_ffff_ffff_ffff_ffff_ffff_ffff_ffff,
    ) is Some
}

/// The kinds are tried in the order in which [`Inferred`] lists them; the
/// first that fits is taken.
pub open spec fn infer(s: Seq<char>) -> Inferred {
    if is_boolean_word(s) {
        Inferred::Boolean
    } else if unsigned_number(s, 10, u64::MAX as nat) is Some {
        Inferred::Unsigned(unsigned_number(s, 10, u64::MAX as nat).unwrap() as u64)
    } else if signed_number(s, 0x8000_0000_0000_0000, 0x7fff_ffff_ffff_ffff) is Some {
        Inferred::Signed(
            signed_number(s, 0x8000_0000_0000_0000, 0x7fff_ffff_ffff_ffff).unwrap() as i64,
        )
    } else if fits_wide(s) {
        Inferred::Wide
    } else if is_float_literal(s) {
        Inferred::Float
    } else {
        Inferred::Text
    }
}

fn check_boolean_word(chars: &Vec<char>) -> (res: bool)
    ensures
        res == is_boolean_word(chars@),
{
    (chars.len() == 4 && chars[0] == 't' && chars[1] == 'r' && chars[2] == 'u' && chars[3] == 'e')
        || (chars.len() == 5 && chars[0] == 'f' && chars[1] == 'a' && chars[2] == 'l' && chars[3]
        == 's' && chars[4] == 'e')
}

/// Decides what the field `text` is taken to be.
pub fn infer_field(text: &str) -> (res: Inferred)
    ensures
        res == infer(text@),
{
    let chars = chars_of(text);
    assert(chars@.skip(0) == chars@);
    if check_boolean_word(&chars) {
        return Inferred::Boolean;
    }
    if let Some(n) = read_unsigned(&chars, 0, 10, u64::MAX as u128) {
        return Inferred::Unsigned(n as u64);
    }
    if let Some((negative, magnitude)) = read_signed(
        &chars,
        0x8000_0000_0000_0000,
        0x7fff_ffff_ffff_ffff,
    ) {
        let value: i64 = if !negative {
            magnitude as i64
        } else if magnitude == 0x8000_0000_0000_0000 {
            i64::MIN
        } else {
            -(magnitude as i64)
        };
        return Inferred::Signed(value);
    }
    if read_unsigned(&chars, 0, 10, u128::MAX).is_some() || read_signed(
        &chars,
        0x8000_0000_0000_0000_0000_0000_0000_0000,
        0x7fff_ffff_ffff_ffff_ffff_ffff_ffff_ffff,
    ).is_some() {
        return Inferred::Wide;
    }
    if check_float_literal(&chars) {
        Inferred::Float
    } else {
        Inferred::Text
    }
}

/// The position of the first `c` at or after `from` (the length of `s` if
/// there is none).
pub open spec fn find_char(s: Seq<char>, c: char, from: int) -> int
    decreases s.len() - from,
{
    if 0 <= from < s.len() && s[from] != c {
        find_char(s, c, from + 1)
    } else {
        from
    }
}

/// Where the part of `s` after its last `c` begins (0 if `s` holds no `c`).
pub open spec fn last_segment_start(s: Seq<char>, c: char) -> int
    decreases s.len(),
{
    if s.len() == 0 || s.last() == c {
        s.len() as int
    } else {
        last_segment_start(s.drop_last(), c)
    }
}

/// What [`find_char`] finds is the first `c` at or after `from`: no `c`
/// stands between `from` and it.
pub proof fn lemma_find_char_bounds(s: Seq<char>, c: char, from: int)
    requires
        0 <= from <= s.len(),
    ensures
        from <= find_char(s, c, from) <= s.len(),
        forall|i: int| from <= i < find_char(s, c, from) ==> s[i] != c,
        find_char(s, c, from) < s.len() ==> s[find_char(s, c, from)] == c,
    decreases s.len() - from,
{
    if from < s.len() && s[from] != c {
        lemma_find_char_bounds(s, c, from + 1);
    }
}

/// The part after the last `c` holds no `c`, and a `c` stands before it
/// unless it is all of `s`.
pub proof fn lemma_last_segment(s: Seq<char>, c: char)
    ensures
        0 <= last_segment_start(s, c) <= s.len(),
        forall|i: int| last_segment_start(s, c) <= i < s.len() ==> s[i] != c,
        last_segment_start(s, c) > 0 ==> s[last_segment_start(s, c) - 1] == c,
    decreases s.len(),
{
    if !(s.len() == 0 || s.last() == c) {
        let front = s.drop_last();
        lemma_last_segment(front, c);
        assert forall|i: int| last_segment_start(s, c) <= i < s.len() implies s[i] != c by {
            if i < front.len() {
                assert(front[i] == s[i]);
            }
        }
        if last_segment_start(s, c) > 0 {
            assert(front[last_segment_start(s, c) - 1] == s[last_segment_start(s, c) - 1]);
        }
    }
}

/// Finds the first `c` at or after `from`.
pub fn find_in(chars: &Vec<char>, c: char, from: usize) -> (at: usize)
    requires
        from <= chars.len(),
    ensures
        at == find_char(chars@, c, from as int),
        from <= at <= chars.len(),
{
    let mut i: usize = from;
    while i < chars.len() && chars[i] != c
        invariant
            from <= i <= chars.len(),
            find_char(chars@, c, i as int) == find_char(chars@, c, from as int),
        decreases chars.len() - i,
    {
        i = i + 1;
    }
    i
}

/// Finds where the part after the last `c` begins.
pub fn find_last_segment(chars: &Vec<char>, c: char) -> (at: usize)
    ensures
        at == last_segment_start(chars@, c),
        at <= chars.len(),
{
    let mut i: usize = chars.len();
    assert(chars@.take(i as int) == chars@);
    while i > 0 && chars[i - 1] != c
        invariant
            i <= chars.len(),
            last_segment_start(chars@.take(i as int), c) == last_segment_start(chars@, c),
        decreases i,
    {
        assert(chars@.take(i as int).drop_last() == chars@.take(i - 1));
        i = i - 1;
    }
    i
}

/// The part of `text` after its last `separator`; all of it if it holds
/// none.
pub fn last_segment(text: &str, separator: char) -> (segment: String)
    ensures
        segment@ == text@.skip(last_segment_start(text@, separator)),
        !segment@.contains(separator),
{
    let chars = chars_of(text);
    let start = find_last_segment(&chars, separator);
    let segment = text.substring_char(start, chars.len());
    proof {
        lemma_last_segment(text@, separator);
        assert(text@.subrange(start as int, chars.len() as int) == text@.skip(start as int));
    }
    segment.to_owned()
}

/// Whether `text` is the one character `c`.
pub fn is_single(text: &str, c: char) -> (res: bool)
    ensures
        res == (text@ =~= seq![c]),
{
    let chars = chars_of(text);
    chars.len() == 1 && chars[0] == c
}

} // verus!
