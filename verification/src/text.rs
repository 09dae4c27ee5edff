//! Characters, decimal numerals and text building.
use vstd::prelude::*;

verus! {

/// The characters with the Unicode property `White_Space`.
pub open spec fn whitespace(c: char) -> bool {
    let u = c as u32;
    ||| 0x09 <= u <= 0x0D
    ||| u == 0x20
    ||| u == 0x85
    ||| u == 0xA0
    ||| u == 0x1680
    ||| 0x2000 <= u <= 0x200A
    ||| u == 0x2028
    ||| u == 0x2029
    ||| u == 0x202F
    ||| u == 0x205F
    ||| u == 0x3000
}

/// The ASCII decimal digits.
pub open spec fn digit(c: char) -> bool {
    '0' <= c <= '9'
}

/// The value of a decimal digit.
pub open spec fn digit_value(c: char) -> nat
    recommends
        digit(c),
{
    (c as u32 - '0' as u32) as nat
}

/// The ASCII letters.
pub open spec fn letter(c: char) -> bool {
    'a' <= c <= 'z' || 'A' <= c <= 'Z'
}

/// The number of bytes that a character takes in UTF-8.
pub open spec fn utf8_width(c: char) -> nat {
    let u = c as u32;
    if u < 0x80 {
        1
    } else if u < 0x800 {
        2
    } else if u < 0x10000 {
        3
    } else {
        4
    }
}

/// The number of bytes that the first `n` characters of `s` take in UTF-8:
/// the byte offset of the character at index `n`.
pub open spec fn byte_offset(s: Seq<char>, n: int) -> nat
    decreases n,
{
    if n <= 0 || n > s.len() {
        0
    } else {
        byte_offset(s, n - 1) + utf8_width(s[n - 1])
    }
}

/// Whether `c` is whitespace.
pub fn is_whitespace(c: char) -> (r: bool)
    ensures
        r == whitespace(c),
{
    let u: u32 = c as u32;
    (0x09 <= u && u <= 0x0D) || u == 0x20 || u == 0x85 || u == 0xA0 || u == 0x1680 || (0x2000
        <= u && u <= 0x200A) || u == 0x2028 || u == 0x2029 || u == 0x202F || u == 0x205F || u
        == 0x3000
}

/// Whether `c` is an ASCII decimal digit.
pub fn is_digit(c: char) -> (r: bool)
    ensures
        r == digit(c),
{
    '0' <= c && c <= '9'
}

/// Whether `c` is an ASCII letter.
pub fn is_letter(c: char) -> (r: bool)
    ensures
        r == letter(c),
{
    ('a' <= c && c <= 'z') || ('A' <= c && c <= 'Z')
}

/// The number of bytes that `c` takes in UTF-8.
pub fn width_of(c: char) -> (r: u32)
    ensures
        r == utf8_width(c),
{
    let u: u32 = c as u32;
    if u < 0x80 {
        1
    } else if u < 0x800 {
        2
    } else if u < 0x10000 {
        3
    } else {
        4
    }
}

/// The index of the first character at or after `start` on which `stop`
/// holds, or the length of `s` where there is none.
pub open spec fn run_end(s: Seq<char>, start: int, stop: spec_fn(char) -> bool) -> int
    decreases s.len() - start,
{
    if start >= s.len() {
        s.len() as int
    } else if stop(s[start]) {
        start
    } else {
        run_end(s, start + 1, stop)
    }
}

/// `run_end` is the one index from `start` on before which nothing stops and
/// at which, if it is inside `s`, `stop` holds.
pub proof fn lemma_run_end(s: Seq<char>, start: int, stop: spec_fn(char) -> bool, end: int)
    requires
        0 <= start <= end <= s.len(),
        forall|i: int| start <= i < end ==> !stop(#[trigger] s[i]),
        end < s.len() ==> stop(s[end]),
    ensures
        run_end(s, start, stop) == end,
    decreases end - start,
{
    if start < end {
        lemma_run_end(s, start + 1, stop, end);
    }
}

/// Nothing stops between `start` and `run_end`, and at `run_end`, if it is
/// inside `s`, `stop` holds.
pub proof fn lemma_run_end_found(s: Seq<char>, start: int, stop: spec_fn(char) -> bool)
    requires
        0 <= start <= s.len(),
    ensures
        start <= run_end(s, start, stop) <= s.len(),
        forall|i: int| start <= i < run_end(s, start, stop) ==> !stop(#[trigger] s[i]),
        run_end(s, start, stop) < s.len() ==> stop(s[run_end(s, start, stop)]),
    decreases s.len() - start,
{
    if start < s.len() && !stop(s[start]) {
        lemma_run_end_found(s, start + 1, stop);
    }
}

/// Every character of `s` is a decimal digit.
pub open spec fn all_digits(s: Seq<char>) -> bool {
    forall|i: int| 0 <= i < s.len() ==> digit(#[trigger] s[i])
}

/// The number that a sequence of decimal digits denotes.
pub open spec fn decimal_value(s: Seq<char>) -> nat
    decreases s.len(),
{
    if s.len() == 0 {
        0
    } else {
        decimal_value(s.drop_last()) * 10 + digit_value(s.last())
    }
}

/// The number that `s` denotes, where `s` is one or more decimal digits and
/// the number is at most `max`.
pub open spec fn unsigned_literal(s: Seq<char>, max: nat) -> Option<nat> {
    if s.len() > 0 && all_digits(s) && decimal_value(s) <= max {
        Some(decimal_value(s))
    } else {
        None
    }
}

/// The 32-bit integer that `s` denotes: an optional sign, `+` or `-`, and
/// one or more decimal digits.
pub open spec fn integer_literal(s: Seq<char>) -> Option<i32> {
    if s.len() > 0 && s[0] == '-' {
        match unsigned_literal(s.skip(1), 0x8000_0000) {
            Some(n) => Some((-n) as i32),
            None => None,
        }
    } else if s.len() > 0 && s[0] == '+' {
        match unsigned_literal(s.skip(1), 0x7fff_ffff) {
            Some(n) => Some(n as i32),
            None => None,
        }
    } else {
        match unsigned_literal(s, 0x7fff_ffff) {
            Some(n) => Some(n as i32),
            None => None,
        }
    }
}

/// A numeral denotes at least what any of its prefixes denotes.
pub proof fn lemma_decimal_value_prefix(s: Seq<char>, k: int)
    requires
        0 <= k <= s.len(),
    ensures
        decimal_value(s.take(k)) <= decimal_value(s),
    decreases s.len() - k,
{
    if k == s.len() {
        assert(s.take(k) =~= s);
    } else {
        lemma_decimal_value_prefix(s, k + 1);
        assert(s.take(k + 1).drop_last() =~= s.take(k));
    }
}

/// Reads the characters of `chars` from `from` up to `to` as a decimal
/// numeral that denotes at most `max`.
pub fn parse_decimal(chars: &Vec<char>, from: usize, to: usize, max: u32) -> (r: Option<u32>)
    requires
        from <= to <= chars@.len(),
    ensures
        match unsigned_literal(chars@.subrange(from as int, to as int), max as nat) {
            Some(n) => r == Some(n as u32),
            None => r is None,
        },
{
    let ghost s = chars@.subrange(from as int, to as int);
    if from == to {
        return None;
    }
    let limit: u64 = max as u64;
    let mut acc: u64 = 0;
    let mut i: usize = from;
    while i < to
        invariant
            from <= i <= to <= chars@.len(),
            s == chars@.subrange(from as int, to as int),
            limit == max,
            acc == decimal_value(s.take(i - from)),
            acc <= limit,
            forall|j: int| 0 <= j < i - from ==> digit(#[trigger] s[j]),
        decreases to - i,
    {
        let c = chars[i];
        if !is_digit(c) {
            assert(!digit(s[i - from]));
            return None;
        }
        let d: u64 = (c as u32 - '0' as u32) as u64;
        let next: u64 = acc * 10 + d;
        proof {
            assert(s.take(i - from + 1).drop_last() =~= s.take(i - from));
            assert(s.take(i - from + 1).last() == c);
            assert(next == decimal_value(s.take(i - from + 1)));
        }
        if next > limit {
            proof {
                lemma_decimal_value_prefix(s, i - from + 1);
            }
            return None;
        }
        acc = next;
        i = i + 1;
    }
    proof {
        assert(s.take(to - from) =~= s);
    }
    Some(acc as u32)
}

/// Reads `chars` as a 32-bit integer: an optional sign and decimal digits.
pub fn parse_integer(chars: &Vec<char>) -> (r: Option<i32>)
    ensures
        r == integer_literal(chars@),
{
    let n = chars.len();
    proof {
        assert(chars@.subrange(0, n as int) =~= chars@);
        assert(chars@.subrange(1, n as int) =~= chars@.skip(1));
    }
    if n > 0 && chars[0] == '-' {
        match parse_decimal(chars, 1, n, 0x8000_0000) {
            Some(m) => if m == 0x8000_0000 {
                Some(i32::MIN)
            } else {
                Some(-(m as i32))
            },
            None => None,
        }
    } else if n > 0 && chars[0] == '+' {
        match parse_decimal(chars, 1, n, 0x7fff_ffff) {
            Some(m) => Some(m as i32),
            None => None,
        }
    } else {
        match parse_decimal(chars, 0, n, 0x7fff_ffff) {
            Some(m) => Some(m as i32),
            None => None,
        }
    }
}

/// The digit that stands for `d`, a number below ten.
pub open spec fn digit_char(d: nat) -> char
    recommends
        d < 10,
{
    ('0' as u32 + d) as char
}

/// The decimal numeral of `n`, without leading zeros.
pub open spec fn decimal(n: nat) -> Seq<char>
    decreases n,
{
    if n < 10 {
        seq![digit_char(n)]
    } else {
        decimal(n / 10).push(digit_char(n % 10))
    }
}

/// The decimal numeral of `i`, with a minus sign where `i` is negative.
pub open spec fn signed_decimal(i: int) -> Seq<char> {
    if i < 0 {
        seq!['-'] + decimal((-i) as nat)
    } else {
        decimal(i as nat)
    }
}

/// `String::push` appends one character to the end of the string. This is
/// assumed of the standard library, not proved.
pub assume_specification[ std::string::String::push ](s: &mut std::string::String, c: char)
    ensures
        final(s)@ == old(s)@.push(c),
;

/// Appends the decimal numeral of `n`.
pub fn push_decimal(out: &mut String, n: u64)
    ensures
        final(out)@ == old(out)@ + decimal(n as nat),
    decreases n,
{
    if n >= 10 {
        push_decimal(out, n / 10);
    }
    let d: u8 = (n % 10) as u8;
    out.push((48u8 + d) as char);
    proof {
        assert(((48u8 + d) as char) == digit_char((n % 10) as nat));
        if n < 10 {
            assert(old(out)@.push(digit_char(n as nat)) =~= old(out)@ + decimal(n as nat));
        } else {
            assert((old(out)@ + decimal((n / 10) as nat)).push(digit_char((n % 10) as nat))
                =~= old(out)@ + decimal(n as nat));
        }
    }
}

/// Appends the decimal numeral of `i`, with its sign where it is negative.
pub fn push_signed_decimal(out: &mut String, i: i32)
    ensures
        final(out)@ == old(out)@ + signed_decimal(i as int),
{
    if i < 0 {
        out.push('-');
        let ghost mid = out@;
        push_decimal(out, (-(i as i64)) as u64);
        proof {
            assert(mid + decimal((-i) as nat) =~= old(out)@ + signed_decimal(i as int));
        }
    } else {
        push_decimal(out, i as u64);
    }
}

/// The characters of `s`, in order.
pub fn chars_of(s: &str) -> (v: Vec<char>)
    ensures
        v@ == s@,
{
    let mut v: Vec<char> = Vec::new();
    for c in it: s.chars()
        invariant
            v@ == it.seq().take(it.index() as int),
            it.seq() == s@,
    {
        v.push(c);
    }
    v
}

/// Whether two vectors hold the same characters.
pub fn same_chars(a: &Vec<char>, b: &Vec<char>) -> (r: bool)
    ensures
        r == (a@ == b@),
{
    if a.len() != b.len() {
        return false;
    }
    let mut i: usize = 0;
    while i < a.len()
        invariant
            i <= a@.len() == b@.len(),
            a@.take(i as int) == b@.take(i as int),
        decreases a@.len() - i,
    {
        if a[i] != b[i] {
            return false;
        }
        proof {
            assert(a@.take(i + 1) =~= a@.take(i as int).push(a@[i as int]));
            assert(b@.take(i + 1) =~= b@.take(i as int).push(b@[i as int]));
        }
        i = i + 1;
    }
    proof {
        assert(a@.take(i as int) =~= a@);
        assert(b@.take(i as int) =~= b@);
    }
    true
}

/// Whether `chars` spells `text`.
pub fn spells(chars: &Vec<char>, text: &str) -> (r: bool)
    ensures
        r == (chars@ == text@),
{
    let other = chars_of(text);
    same_chars(chars, &other)
}

} // verus!
