//! Characters, digits and text buffers.
//!
//! Text is modelled as `Seq<char>`. Everything that scans text works on a
//! `Vec<char>` obtained once from the source string, so that positions are
//! character positions and indexing is constant time.

use vstd::prelude::*;
use vstd::string::*;

verus! {

/// `String::push` of the standard library: the character is appended at the
/// end and nothing else changes.
pub assume_specification[ String::push ](s: &mut String, c: char)
    ensures
        final(s)@ == old(s)@.push(c),
;

/// `str::eq` of the standard library: two string slices are equal exactly when
/// they hold the same characters in the same order.
pub assume_specification[ <str as PartialEq>::eq ](a: &str, b: &str) -> (r: bool)
    ensures
        r == (a@ == b@),
;

/// The characters with the Unicode `White_Space` property.
pub open spec fn is_space(c: char) -> bool {
    let u = c as u32;
    ||| 0x09 <= u <= 0x0D
    ||| u == 0x20
    ||| u == 0x85
    ||| u == 0xA0
    ||| u == 0x1680
    ||| 0x2000 <= u <= 0x200A
    ||| u == 0x2028
    ||| u == 0x2029
    ||| u == 0x202F
    ||| u == 0x205F
    ||| u == 0x3000
}

/// Whether `c` is white space.
pub fn is_whitespace(c: char) -> (r: bool)
    ensures
        r == is_space(c),
{
    let u: u32 = c as u32;
    (0x09 <= u && u <= 0x0D) || u == 0x20 || u == 0x85 || u == 0xA0 || u == 0x1680 || (0x2000 <= u
        && u <= 0x200A) || u == 0x2028 || u == 0x2029 || u == 0x202F || u == 0x205F || u == 0x3000
}

/// An ASCII decimal digit.
pub open spec fn is_digit(c: char) -> bool {
    '0' <= c <= '9'
}

/// The value of a decimal digit.
pub open spec fn digit_value(c: char) -> nat
    recommends
        is_digit(c),
{
    (c as u32 - '0' as u32) as nat
}

/// Every character of `s` is a decimal digit.
pub open spec fn all_digits(s: Seq<char>) -> bool {
    forall|i: int| 0 <= i < s.len() ==> is_digit(#[trigger] s[i])
}

/// The number written by the decimal digits `s`, most significant first.
pub open spec fn decimal_value(s: Seq<char>) -> nat
    decreases s.len(),
{
    if s.len() == 0 {
        0
    } else {
        decimal_value(s.drop_last()) * 10 + digit_value(s.last())
    }
}

/// An ASCII hexadecimal digit, in either case.
pub open spec fn is_hex_digit(c: char) -> bool {
    ||| '0' <= c <= '9'
    ||| 'a' <= c <= 'f'
    ||| 'A' <= c <= 'F'
}

/// The value of a hexadecimal digit.
pub open spec fn hex_digit_value(c: char) -> nat
    recommends
        is_hex_digit(c),
{
    if '0' <= c <= '9' {
        (c as u32 - '0' as u32) as nat
    } else if 'a' <= c <= 'f' {
        (c as u32 - 'a' as u32 + 10) as nat
    } else {
        (c as u32 - 'A' as u32 + 10) as nat
    }
}

/// Every character of `s` is a hexadecimal digit.
pub open spec fn all_hex_digits(s: Seq<char>) -> bool {
    forall|i: int| 0 <= i < s.len() ==> is_hex_digit(#[trigger] s[i])
}

/// The number written by the hexadecimal digits `s`, most significant first.
pub open spec fn hex_value(s: Seq<char>) -> nat
    decreases s.len(),
{
    if s.len() == 0 {
        0
    } else {
        hex_value(s.drop_last()) * 16 + hex_digit_value(s.last())
    }
}

/// The character that writes the digit `d` in bases up to 16, with capital
/// letters above nine.
pub open spec fn digit_char(d: nat) -> char
    recommends
        d < 16,
{
    if d < 10 {
        ((d + 0x30) as u8) as char
    } else {
        ((d - 10 + 0x41) as u8) as char
    }
}

/// `n` written in decimal without sign or leading zeros.
pub open spec fn decimal_text(n: nat) -> Seq<char>
    decreases n,
{
    if n < 10 {
        seq![digit_char(n)]
    } else {
        decimal_text(n / 10).push(digit_char(n % 10))
    }
}

/// `n` written in decimal, with a leading `-` when it is negative.
pub open spec fn signed_decimal_text(n: int) -> Seq<char> {
    if n < 0 {
        seq!['-'] + decimal_text((-n) as nat)
    } else {
        decimal_text(n as nat)
    }
}

/// `n` written in hexadecimal with capital letters, without prefix or
/// leading zeros.
pub open spec fn hex_text(n: nat) -> Seq<char>
    decreases n,
{
    if n < 16 {
        seq![digit_char(n)]
    } else {
        hex_text(n / 16).push(digit_char(n % 16))
    }
}

/// The 32-bit two's complement pattern of `n`, read as an unsigned number.
pub open spec fn bits_of(n: i32) -> nat {
    if n >= 0 {
        n as nat
    } else {
        (n + 0x1_0000_0000) as nat
    }
}

/// The digit character for `d`.
pub fn digit_to_char(d: u8) -> (c: char)
    requires
        d < 16,
    ensures
        c == digit_char(d as nat),
{
    if d < 10 {
        (d + 0x30) as char
    } else {
        (d - 10 + 0x41) as char
    }
}

/// The characters of `s`, in order.
pub fn chars_of(s: &str) -> (v: Vec<char>)
    ensures
        v@ == s@,
{
    let mut v: Vec<char> = Vec::new();
    for c in it: s.chars()
        invariant
            v@ == it.seq().take(it.index() as int),
            it.seq() == s@,
    {
        v.push(c);
    }
    v
}

/// Appends `chars[from..to]` to `s`.
pub fn push_range(s: &mut String, chars: &Vec<char>, from: usize, to: usize)
    requires
        from <= to <= chars@.len(),
    ensures
        final(s)@ == old(s)@ + chars@.subrange(from as int, to as int),
{
    let mut i: usize = from;
    while i < to
        invariant
            from <= i <= to <= chars@.len(),
            s@ == old(s)@ + chars@.subrange(from as int, i as int),
        decreases to - i,
    {
        s.push(chars[i]);
        i += 1;
    }
}

/// The text `chars[from..to]`.
pub fn text_of(chars: &Vec<char>, from: usize, to: usize) -> (s: String)
    requires
        from <= to <= chars@.len(),
    ensures
        s@ == chars@.subrange(from as int, to as int),
{
    let mut s = String::new();
    push_range(&mut s, chars, from, to);
    s
}

/// Appends `n` in decimal.
pub fn push_decimal(s: &mut String, n: u64)
    ensures
        final(s)@ == old(s)@ + decimal_text(n as nat),
    decreases n,
{
    if n >= 10 {
        push_decimal(s, n / 10);
    }
    s.push(digit_to_char((n % 10) as u8));
}

/// Appends `n` in decimal, with its sign when negative.
pub fn push_signed_decimal(s: &mut String, n: i32)
    ensures
        final(s)@ == old(s)@ + signed_decimal_text(n as int),
{
    if n < 0 {
        s.push('-');
        let m: u64 = (-(n as i64)) as u64;
        push_decimal(s, m);
    } else {
        push_decimal(s, n as u64);
    }
}

/// Appends `n` in capital hexadecimal.
pub fn push_hex(s: &mut String, n: u64)
    ensures
        final(s)@ == old(s)@ + hex_text(n as nat),
    decreases n,
{
    if n >= 16 {
        push_hex(s, n / 16);
    }
    s.push(digit_to_char((n % 16) as u8));
}

/// The 32-bit pattern of `n` as an unsigned number.
pub fn bits(n: i32) -> (r: u64)
    ensures
        r == bits_of(n),
{
    if n >= 0 {
        n as u64
    } else {
        (n as i64 + 0x1_0000_0000i64) as u64
    }
}


/// The first position in `[from, to)` that holds `c`, or `to` if none does.
pub open spec fn find_in(s: Seq<char>, c: char, from: int, to: int) -> int
    decreases to - from,
{
    if from >= to {
        to
    } else if s[from] == c {
        from
    } else {
        find_in(s, c, from + 1, to)
    }
}

/// A search ends within its window: at the first occurrence, or at the end
/// of the window if there is none.
pub proof fn lemma_find_in_bounds(s: Seq<char>, c: char, from: int, to: int)
    requires
        from <= to,
    ensures
        from <= find_in(s, c, from, to) <= to,
        find_in(s, c, from, to) < to ==> s[find_in(s, c, from, to)] == c,
        forall|k: int| from <= k < find_in(s, c, from, to) ==> s[k] != c,
    decreases to - from,
{
    if from < to && s[from] != c {
        lemma_find_in_bounds(s, c, from + 1, to);
    }
}


/// The first position in `[from, to)` that holds `c`, or `to`.
pub fn find_char(chars: &Vec<char>, c: char, from: usize, to: usize) -> (at: usize)
    requires
        from <= to <= chars@.len(),
    ensures
        at == find_in(chars@, c, from as int, to as int),
        from <= at <= to,
{
    let mut at: usize = from;
    while at < to && chars[at] != c
        invariant
            from <= at <= to <= chars@.len(),
            find_in(chars@, c, from as int, to as int) == find_in(chars@, c, at as int, to as int),
        decreases to - at,
    {
        at += 1;
    }
    at
}

/// One more digit: ten times the value so far, plus the digit.
pub proof fn lemma_decimal_step(s: Seq<char>, from: int, i: int)
    requires
        0 <= from <= i < s.len(),
    ensures
        decimal_value(s.subrange(from, i + 1)) == decimal_value(s.subrange(from, i)) * 10
            + digit_value(s[i]),
{
    assert(s.subrange(from, i + 1).drop_last() =~= s.subrange(from, i));
}

/// Reads `chars[from..to)` as decimal digits. The first component says
/// whether they all are digits; the second is their value, or `None` when it
/// is above `limit`.
pub fn scan_digits(chars: &Vec<char>, from: usize, to: usize, limit: u64) -> (r: (bool, Option<u64>))
    requires
        from <= to <= chars@.len(),
    ensures
        r.0 == all_digits(chars@.subrange(from as int, to as int)),
        r.0 ==> (r.1 is Some <==> decimal_value(chars@.subrange(from as int, to as int)) <= limit),
        r.0 ==> (r.1 matches Some(v) ==> v == decimal_value(
            chars@.subrange(from as int, to as int),
        )),
{
    let ghost s = chars@;
    let mut value: u128 = 0;
    let mut fits = true;
    let mut i: usize = from;
    while i < to
        invariant
            from <= i <= to <= chars@.len(),
            s == chars@,
            all_digits(s.subrange(from as int, i as int)),
            fits <==> decimal_value(s.subrange(from as int, i as int)) <= limit,
            fits ==> value == decimal_value(s.subrange(from as int, i as int)),
        decreases to - i,
    {
        let c = chars[i];
        if !('0' <= c && c <= '9') {
            assert(!all_digits(s.subrange(from as int, to as int))) by {
                assert(s.subrange(from as int, to as int)[i - from] == c);
            }
            return (false, None);
        }
        proof {
            lemma_decimal_step(s, from as int, i as int);
            assert forall|k: int| 0 <= k < i + 1 - from implies is_digit(
                #[trigger] s.subrange(from as int, i + 1)[k],
            ) by {
                if k < i - from {
                    assert(s.subrange(from as int, i as int)[k] == s[from + k]);
                }
            }
        }
        if fits {
            let next: u128 = value * 10 + (c as u32 - '0' as u32) as u128;
            if next > limit as u128 {
                fits = false;
            } else {
                value = next;
            }
        }
        i += 1;
    }
    assert(s.subrange(from as int, i as int) == s.subrange(from as int, to as int));
    if fits {
        (true, Some(value as u64))
    } else {
        (true, None)
    }
}

/// Whether `chars[from..to)` holds decimal digits only.
pub fn digits_only(chars: &Vec<char>, from: usize, to: usize) -> (r: bool)
    requires
        from <= to <= chars@.len(),
    ensures
        r == all_digits(chars@.subrange(from as int, to as int)),
{
    let mut i: usize = from;
    while i < to
        invariant
            from <= i <= to <= chars@.len(),
            forall|k: int| from <= k < i ==> is_digit(#[trigger] chars@[k]),
        decreases to - i,
    {
        let c = chars[i];
        if !('0' <= c && c <= '9') {
            assert(chars@.subrange(from as int, to as int)[i - from] == c);
            return false;
        }
        i += 1;
    }
    assert forall|k: int| 0 <= k < to - from implies is_digit(
        #[trigger] chars@.subrange(from as int, to as int)[k],
    ) by {
        assert(is_digit(chars@[from + k]));
    }
    true
}


/// The first position in `[from, to)` that holds no white space, or `to`.
pub open spec fn trim_start(s: Seq<char>, from: int, to: int) -> int
    decreases to - from,
{
    if from >= to {
        to
    } else if !is_space(s[from]) {
        from
    } else {
        trim_start(s, from + 1, to)
    }
}

/// The end of `s[from..to)` without its trailing white space: the position
/// after the last character that is not white space, or `from`.
pub open spec fn trim_end(s: Seq<char>, from: int, to: int) -> int
    decreases to - from,
{
    if to <= from {
        from
    } else if !is_space(s[to - 1]) {
        to
    } else {
        trim_end(s, from, to - 1)
    }
}

/// The window `s[from..to)` without white space at either end.
pub open spec fn trimmed(s: Seq<char>, from: int, to: int) -> (int, int) {
    let start = trim_start(s, from, to);
    (start, trim_end(s, start, to))
}

/// The window `chars[from..to)` without white space at either end.
pub fn trim_window(chars: &Vec<char>, from: usize, to: usize) -> (r: (usize, usize))
    requires
        from <= to <= chars@.len(),
    ensures
        (r.0 as int, r.1 as int) == trimmed(chars@, from as int, to as int),
        from <= r.0 <= r.1 <= to,
{
    let mut start: usize = from;
    while start < to && is_whitespace(chars[start])
        invariant
            from <= start <= to <= chars@.len(),
            trim_start(chars@, from as int, to as int) == trim_start(
                chars@,
                start as int,
                to as int,
            ),
        decreases to - start,
    {
        start += 1;
    }
    let mut end: usize = to;
    while end > start && is_whitespace(chars[end - 1])
        invariant
            start <= end <= to <= chars@.len(),
            trim_end(chars@, start as int, to as int) == trim_end(
                chars@,
                start as int,
                end as int,
            ),
        decreases end - start,
    {
        end -= 1;
    }
    (start, end)
}

/// An opening or closing round bracket.
pub open spec fn is_bracket(c: char) -> bool {
    c == '(' || c == ')'
}

/// The first position in `[from, to)` that holds no round bracket, or `to`.
pub open spec fn unwrap_start(s: Seq<char>, from: int, to: int) -> int
    decreases to - from,
{
    if from >= to {
        to
    } else if !is_bracket(s[from]) {
        from
    } else {
        unwrap_start(s, from + 1, to)
    }
}

/// The position after the last character of `s[from..to)` that is no round
/// bracket, or `from`.
pub open spec fn unwrap_end(s: Seq<char>, from: int, to: int) -> int
    decreases to - from,
{
    if to <= from {
        from
    } else if !is_bracket(s[to - 1]) {
        to
    } else {
        unwrap_end(s, from, to - 1)
    }
}

/// The window `s[from..to)` without the round brackets at either end.
pub open spec fn unwrapped(s: Seq<char>, from: int, to: int) -> (int, int) {
    let start = unwrap_start(s, from, to);
    (start, unwrap_end(s, start, to))
}

/// The window `chars[from..to)` without the round brackets at either end.
pub fn unwrap_window(chars: &Vec<char>, from: usize, to: usize) -> (r: (usize, usize))
    requires
        from <= to <= chars@.len(),
    ensures
        (r.0 as int, r.1 as int) == unwrapped(chars@, from as int, to as int),
        from <= r.0 <= r.1 <= to,
{
    let mut start: usize = from;
    while start < to && (chars[start] == '(' || chars[start] == ')')
        invariant
            from <= start <= to <= chars@.len(),
            unwrap_start(chars@, from as int, to as int) == unwrap_start(
                chars@,
                start as int,
                to as int,
            ),
        decreases to - start,
    {
        start += 1;
    }
    let mut end: usize = to;
    while end > start && (chars[end - 1] == '(' || chars[end - 1] == ')')
        invariant
            start <= end <= to <= chars@.len(),
            unwrap_end(chars@, start as int, to as int) == unwrap_end(
                chars@,
                start as int,
                end as int,
            ),
        decreases end - start,
    {
        end -= 1;
    }
    (start, end)
}

/// The number that `s` writes as the standard library reads an unsigned
/// integer: an optional `+`, then at least one decimal digit, and a value
/// that fits in `usize`.
pub open spec fn plain_number(s: Seq<char>) -> Option<usize> {
    let digits = if s.len() > 0 && s[0] == '+' {
        s.skip(1)
    } else {
        s
    };
    if digits.len() > 0 && all_digits(digits) && decimal_value(digits) <= usize::MAX {
        Some(decimal_value(digits) as usize)
    } else {
        None
    }
}

/// Reads `chars[from..to)` as an unsigned integer.
pub fn scan_number(chars: &Vec<char>, from: usize, to: usize) -> (r: Option<usize>)
    requires
        from <= to <= chars@.len(),
    ensures
        r == plain_number(chars@.subrange(from as int, to as int)),
{
    let ghost w = chars@.subrange(from as int, to as int);
    if from == to {
        return None;
    }
    assert(w[0] == chars@[from as int]);
    let start: usize = if chars[from] == '+' {
        from + 1
    } else {
        from
    };
    assert(w.skip(start - from) =~= chars@.subrange(start as int, to as int));
    if start == to {
        return None;
    }
    let (digits, value) = scan_digits(chars, start, to, usize::MAX as u64);
    if !digits {
        return None;
    }
    match value {
        Some(v) => Some(v as usize),
        None => None,
    }
}

/// `needle` stands in `hay` at position `at`.
pub open spec fn occurs_at(hay: Seq<char>, needle: Seq<char>, at: int) -> bool {
    0 <= at && at + needle.len() <= hay.len() && hay.subrange(at, at + needle.len()) == needle
}

/// `needle` stands somewhere in `hay`.
pub open spec fn contains_text(hay: Seq<char>, needle: Seq<char>) -> bool {
    exists|at: int| occurs_at(hay, needle, at)
}

/// Whether `needle` stands in `hay` at position `at`.
fn matches_at(hay: &Vec<char>, needle: &Vec<char>, at: usize) -> (r: bool)
    requires
        at + needle@.len() <= hay@.len(),
    ensures
        r == occurs_at(hay@, needle@, at as int),
{
    let size = hay.len();
    let mut k: usize = 0;
    while k < needle.len()
        invariant
            k <= needle@.len(),
            at + needle@.len() <= hay@.len(),
            hay@.len() == size,
            forall|j: int| 0 <= j < k ==> hay@[at + j] == needle@[j],
        decreases needle@.len() - k,
    {
        if hay[at + k] != needle[k] {
            assert(hay@.subrange(at as int, at + needle@.len())[k as int] != needle@[k as int]);
            return false;
        }
        k += 1;
    }
    assert(hay@.subrange(at as int, at + needle@.len()) =~= needle@);
    true
}

/// Whether `needle` stands somewhere in `hay`.
pub fn contains(hay: &Vec<char>, needle: &Vec<char>) -> (r: bool)
    ensures
        r == contains_text(hay@, needle@),
{
    if needle.len() > hay.len() {
        return false;
    }
    let last = hay.len() - needle.len();
    let mut at: usize = 0;
    loop
        invariant
            last == hay@.len() - needle@.len(),
            at <= last,
            forall|j: int| 0 <= j < at ==> !occurs_at(hay@, needle@, j),
        decreases last - at,
    {
        if matches_at(hay, needle, at) {
            return true;
        }
        if at == last {
            return false;
        }
        at += 1;
    }
}


/// A window that does not hold `c` is searched to its end.
pub proof fn lemma_find_in_none(s: Seq<char>, c: char, from: int, to: int)
    requires
        from <= to,
        forall|k: int| from <= k < to ==> s[k] != c,
    ensures
        find_in(s, c, from, to) == to,
    decreases to - from,
{
    if from < to {
        lemma_find_in_none(s, c, from + 1, to);
    }
}

/// Writing a number in decimal and reading it back gives the number: the
/// text is not empty, holds digits only, and has the number as its value.
pub proof fn lemma_decimal_text(n: nat)
    ensures
        decimal_text(n).len() > 0,
        all_digits(decimal_text(n)),
        decimal_value(decimal_text(n)) == n,
    decreases n,
{
    let last = digit_char(n % 10);
    assert(is_digit(last) && digit_value(last) == n % 10);
    if n < 10 {
        let text = seq![last];
        assert(text.drop_last() =~= Seq::<char>::empty());
        assert(decimal_value(text.drop_last()) == 0);
        assert(text.last() == last);
    } else {
        lemma_decimal_text(n / 10);
        let front = decimal_text(n / 10);
        let text = front.push(last);
        assert(text.drop_last() =~= front);
        assert(text.last() == last);
        assert forall|i: int| 0 <= i < text.len() implies is_digit(#[trigger] text[i]) by {
            if i < front.len() {
                assert(text[i] == front[i]);
            }
        }
    }
}

} // verus!
