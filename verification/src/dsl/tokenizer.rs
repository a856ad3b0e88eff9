//! From source text to tokens.
//!
//! The text is read line by line. A `#` starts a comment that runs to the end
//! of its line. What is left of a line is split into words at white space, and
//! each word becomes one token; a line with at least one word is closed by an
//! end-of-line token. Lines without words leave no trace.

use vstd::prelude::*;
use crate::dsl::parser::ParseError;
use crate::dsl::token::{Token, TokenKind, TokenKindView, TokenView};
use crate::utils::text::{
    all_digits, chars_of, decimal_text, decimal_value, digits_only, find_in, is_digit, is_space,
    is_whitespace, lemma_decimal_text, lemma_find_in_bounds, lemma_find_in_none, scan_digits,
    text_of,
};

verus! {

/// The first position in `[from, to)` that holds white space, or `to`.
pub open spec fn word_end(s: Seq<char>, from: int, to: int) -> int
    decreases to - from,
{
    if from >= to {
        to
    } else if is_space(s[from]) {
        from
    } else {
        word_end(s, from + 1, to)
    }
}

/// A word ends within its window, before white space or at the end of the
/// window, and holds no white space.
pub proof fn lemma_word_end_bounds(s: Seq<char>, from: int, to: int)
    requires
        from <= to,
    ensures
        from <= word_end(s, from, to) <= to,
        word_end(s, from, to) < to ==> is_space(s[word_end(s, from, to)]),
        forall|k: int| from <= k < word_end(s, from, to) ==> !is_space(s[k]),
    decreases to - from,
{
    if from < to && !is_space(s[from]) {
        lemma_word_end_bounds(s, from + 1, to);
    }
}

/// The words of `s[from..to)`: its maximal runs of characters that are not
/// white space, in order.
pub open spec fn words_in(s: Seq<char>, from: int, to: int) -> Seq<Seq<char>>
    decreases to - from,
    via words_in_decreases
{
    if from >= to {
        seq![]
    } else if is_space(s[from]) {
        words_in(s, from + 1, to)
    } else {
        let end = word_end(s, from + 1, to);
        seq![s.subrange(from, end)] + words_in(s, end, to)
    }
}

#[via_fn]
proof fn words_in_decreases(s: Seq<char>, from: int, to: int) {
    if from < to && !is_space(s[from]) {
        lemma_word_end_bounds(s, from + 1, to);
    }
}

/// `w` without one leading `-`, if it has one.
pub open spec fn unsigned_part(w: Seq<char>) -> Seq<char> {
    if w.len() > 0 && w[0] == '-' {
        w.skip(1)
    } else {
        w
    }
}

/// The integer that `w` writes: decimal digits after an optional `-`.
pub open spec fn integer_value(w: Seq<char>) -> int {
    if w.len() > 0 && w[0] == '-' {
        -(decimal_value(w.skip(1)) as int)
    } else {
        decimal_value(w) as int
    }
}

/// `w` is an optional `-` and at least one decimal digit, and the number fits
/// in 32 bits.
pub open spec fn is_integer(w: Seq<char>) -> bool {
    &&& unsigned_part(w).len() > 0
    &&& all_digits(unsigned_part(w))
    &&& i32::MIN <= integer_value(w) <= i32::MAX
}

/// `w` without one leading `+` or `-`, if it has one.
pub open spec fn after_sign(w: Seq<char>) -> Seq<char> {
    if w.len() > 0 && (w[0] == '-' || w[0] == '+') {
        w.skip(1)
    } else {
        w
    }
}

/// The first position of `w` that holds `e` or `E`, or its length.
pub open spec fn exponent_start(w: Seq<char>, from: int) -> int
    decreases w.len() - from,
{
    if from >= w.len() {
        w.len() as int
    } else if w[from] == 'e' || w[from] == 'E' {
        from
    } else {
        exponent_start(w, from + 1)
    }
}

/// Digits around exactly one point, with at least one digit: `1.5`, `1.`, `.5`.
pub open spec fn is_point_number(m: Seq<char>) -> bool {
    let dot = find_in(m, '.', 0, m.len() as int);
    &&& dot < m.len()
    &&& m.len() >= 2
    &&& all_digits(m.take(dot))
    &&& all_digits(m.skip(dot + 1))
}

/// `e` or `E`, an optional sign, and at least one digit.
pub open spec fn is_exponent(x: Seq<char>) -> bool {
    &&& x.len() >= 2
    &&& (x[0] == 'e' || x[0] == 'E')
    &&& after_sign(x.skip(1)).len() > 0
    &&& all_digits(after_sign(x.skip(1)))
}

/// `w` is a decimal literal with a point: an optional sign, a number with a
/// point, and an optional exponent.
pub open spec fn is_float(w: Seq<char>) -> bool {
    let body = after_sign(w);
    let e = exponent_start(body, 0);
    &&& is_point_number(body.take(e))
    &&& (e == body.len() || is_exponent(body.skip(e)))
}

/// `w` is one of the three symbols.
pub open spec fn is_symbol(w: Seq<char>) -> bool {
    w == seq!['<'] || w == seq!['>'] || w == seq![':']
}

/// The kind of the token that the word `w` becomes: an integer if it is one,
/// else a float, else a symbol, else an identifier.
pub open spec fn classify(w: Seq<char>) -> TokenKindView {
    if is_integer(w) {
        TokenKindView::Number(integer_value(w) as i32)
    } else if is_float(w) {
        TokenKindView::Float(w)
    } else if is_symbol(w) {
        TokenKindView::Symbol(w)
    } else {
        TokenKindView::Ident(w)
    }
}

/// The part of the line `s[from..to)` before its comment.
pub open spec fn code_end(s: Seq<char>, from: int, to: int) -> int {
    find_in(s, '#', from, to)
}

/// The tokens of the line `s[from..to)`, which has the number `line`: one per
/// word before the comment, then an end-of-line token; nothing at all if
/// there is no word.
pub open spec fn line_tokens(s: Seq<char>, from: int, to: int, line: nat) -> Seq<TokenView> {
    let words = words_in(s, from, code_end(s, from, to));
    if words.len() == 0 {
        seq![]
    } else {
        Seq::new(words.len(), |i: int| TokenView { kind: classify(words[i]), line }).push(
            TokenView { kind: TokenKindView::Eol, line },
        )
    }
}

/// The tokens of the lines of `s` from the one that starts at `from` and has
/// the number `line`. Lines end at a line feed or at the end of the text.
pub open spec fn tokens_from(s: Seq<char>, from: int, line: nat) -> Seq<TokenView>
    decreases s.len() - from,
    via tokens_from_decreases
{
    if from < 0 || from > s.len() {
        seq![]
    } else {
        let end = find_in(s, '\n', from, s.len() as int);
        if end >= s.len() {
            line_tokens(s, from, end, line)
        } else {
            line_tokens(s, from, end, line) + tokens_from(s, end + 1, line + 1)
        }
    }
}

#[via_fn]
proof fn tokens_from_decreases(s: Seq<char>, from: int, line: nat) {
    if 0 <= from <= s.len() {
        lemma_find_in_bounds(s, '\n', from, s.len() as int);
    }
}

/// The tokens of the text `s`; its first line has the number 1.
pub open spec fn tokenize_spec(s: Seq<char>) -> Seq<TokenView> {
    tokens_from(s, 0, 1)
}


/// The integer that the word `chars[from..to)` writes, if it is one.
fn scan_integer(chars: &Vec<char>, from: usize, to: usize) -> (r: Option<i32>)
    requires
        from < to <= chars@.len(),
    ensures
        r is Some <==> is_integer(chars@.subrange(from as int, to as int)),
        r matches Some(n) ==> n == integer_value(chars@.subrange(from as int, to as int)),
{
    let ghost w = chars@.subrange(from as int, to as int);
    assert(w[0] == chars@[from as int]);
    if chars[from] == '-' {
        assert(w.skip(1) =~= chars@.subrange(from + 1, to as int));
        if from + 1 == to {
            return None;
        }
        let (digits, value) = scan_digits(chars, from + 1, to, 0x8000_0000);
        if !digits {
            return None;
        }
        match value {
            Some(v) => Some((-(v as i64)) as i32),
            None => None,
        }
    } else {
        let (digits, value) = scan_digits(chars, from, to, 0x7FFF_FFFF);
        if !digits {
            return None;
        }
        match value {
            Some(v) => Some(v as i32),
            None => None,
        }
    }
}

/// Where the exponent of `chars[from..to)` starts: the first `e` or `E`, or
/// `to`.
fn find_exponent(chars: &Vec<char>, from: usize, to: usize) -> (e: usize)
    requires
        from <= to <= chars@.len(),
    ensures
        from <= e <= to,
        e - from == exponent_start(chars@.subrange(from as int, to as int), 0),
{
    let ghost body = chars@.subrange(from as int, to as int);
    let mut e: usize = from;
    while e < to && chars[e] != 'e' && chars[e] != 'E'
        invariant
            from <= e <= to <= chars@.len(),
            body == chars@.subrange(from as int, to as int),
            exponent_start(body, 0) == exponent_start(body, e - from),
        decreases to - e,
    {
        assert(body[e - from] == chars@[e as int]);
        e += 1;
    }
    if e < to {
        assert(body[e - from] == chars@[e as int]);
    }
    e
}

/// Whether `chars[from..to)` is digits around one point, with at least one
/// digit.
fn scan_point_number(chars: &Vec<char>, from: usize, to: usize) -> (r: bool)
    requires
        from <= to <= chars@.len(),
    ensures
        r == is_point_number(chars@.subrange(from as int, to as int)),
{
    let ghost m = chars@.subrange(from as int, to as int);
    let dot = crate::utils::text::find_char(chars, '.', from, to);
    proof {
        lemma_find_in_window(chars@, '.', from as int, to as int, from as int);
    }
    if dot >= to || to - from < 2 {
        return false;
    }
    assert(m.take(dot - from) =~= chars@.subrange(from as int, dot as int));
    assert(m.skip(dot - from + 1) =~= chars@.subrange(dot + 1, to as int));
    digits_only(chars, from, dot) && digits_only(chars, dot + 1, to)
}

/// A search in a window of a text is a search in the text of the window.
proof fn lemma_find_in_window(s: Seq<char>, c: char, from: int, to: int, at: int)
    requires
        0 <= from <= at <= to <= s.len(),
    ensures
        find_in(s, c, at, to) - from == find_in(s.subrange(from, to), c, at - from, to - from),
    decreases to - at,
{
    if at < to {
        assert(s.subrange(from, to)[at - from] == s[at]);
        if s[at] != c {
            lemma_find_in_window(s, c, from, to, at + 1);
        }
    }
}

/// Whether `chars[from..to)` is an exponent: `e` or `E`, an optional sign,
/// and at least one digit.
fn scan_exponent(chars: &Vec<char>, from: usize, to: usize) -> (r: bool)
    requires
        from <= to <= chars@.len(),
    ensures
        r == is_exponent(chars@.subrange(from as int, to as int)),
{
    let ghost x = chars@.subrange(from as int, to as int);
    if to - from < 2 {
        return false;
    }
    assert(x[0] == chars@[from as int]);
    if chars[from] != 'e' && chars[from] != 'E' {
        return false;
    }
    assert(x.skip(1) =~= chars@.subrange(from + 1, to as int));
    assert(x.skip(1)[0] == chars@[from + 1]);
    let digits: usize = if chars[from + 1] == '-' || chars[from + 1] == '+' {
        from + 2
    } else {
        from + 1
    };
    assert(after_sign(x.skip(1)) =~= chars@.subrange(digits as int, to as int));
    digits < to && digits_only(chars, digits, to)
}

/// Whether the word `chars[from..to)` is a decimal literal with a point.
fn scan_float(chars: &Vec<char>, from: usize, to: usize) -> (r: bool)
    requires
        from < to <= chars@.len(),
    ensures
        r == is_float(chars@.subrange(from as int, to as int)),
{
    let ghost s = chars@;
    let ghost w = s.subrange(from as int, to as int);
    assert(w[0] == s[from as int]);
    let start: usize = if chars[from] == '-' || chars[from] == '+' {
        from + 1
    } else {
        from
    };
    let ghost body = after_sign(w);
    assert(body =~= s.subrange(start as int, to as int));
    let e = find_exponent(chars, start, to);
    assert(body.take(e - start) =~= s.subrange(start as int, e as int));
    assert(body.skip(e - start) =~= s.subrange(e as int, to as int));
    scan_point_number(chars, start, e) && (e == to || scan_exponent(chars, e, to))
}

/// The token kind of the word `chars[from..to)`.
fn classify_word(chars: &Vec<char>, from: usize, to: usize) -> (kind: TokenKind)
    requires
        from < to <= chars@.len(),
    ensures
        kind@ == classify(chars@.subrange(from as int, to as int)),
{
    let ghost w = chars@.subrange(from as int, to as int);
    match scan_integer(chars, from, to) {
        Some(n) => TokenKind::Number(n),
        None => {
            if scan_float(chars, from, to) {
                TokenKind::Float(text_of(chars, from, to))
            } else {
                assert(w[0] == chars@[from as int]);
                let c = chars[from];
                let symbol = to - from == 1 && (c == '<' || c == '>' || c == ':');
                assert(symbol == is_symbol(w)) by {
                    if symbol {
                        assert(w =~= seq![c]);
                    }
                }
                if symbol {
                    TokenKind::Symbol(text_of(chars, from, to))
                } else {
                    TokenKind::Ident(text_of(chars, from, to))
                }
            }
        },
    }
}

/// The tokens of `words`, all on the line `line`, without the closing
/// end-of-line token.
pub open spec fn word_tokens(words: Seq<Seq<char>>, line: nat) -> Seq<TokenView> {
    Seq::new(words.len(), |i: int| TokenView { kind: classify(words[i]), line })
}

/// Appends the tokens of the line `chars[from..to)` to `tokens`.
fn tokenize_line(chars: &Vec<char>, from: usize, to: usize, line: usize, tokens: &mut Vec<Token>)
    requires
        from <= to <= chars@.len(),
    ensures
        final(tokens).deep_view() == old(tokens).deep_view() + line_tokens(
            chars@,
            from as int,
            to as int,
            line as nat,
        ),
{
    let ghost s = chars@;
    let ghost before = tokens.deep_view();
    // Where the comment starts.
    let mut stop: usize = from;
    while stop < to && chars[stop] != '#'
        invariant
            from <= stop <= to <= chars@.len(),
            find_in(chars@, '#', from as int, to as int) == find_in(
                chars@,
                '#',
                stop as int,
                to as int,
            ),
        decreases to - stop,
    {
        stop += 1;
    }
    assert(code_end(s, from as int, to as int) == stop);
    let ghost done: Seq<Seq<char>> = seq![];
    let mut found = false;
    let mut p: usize = from;
    while p < stop
        invariant
            from <= p <= stop <= to <= chars@.len(),
            s == chars@,
            words_in(s, from as int, stop as int) == done + words_in(s, p as int, stop as int),
            tokens.deep_view() == before + word_tokens(done, line as nat),
            found == (done.len() > 0),
        decreases stop - p,
    {
        if is_whitespace(chars[p]) {
            p += 1;
        } else {
            let mut end: usize = p + 1;
            while end < stop && !is_whitespace(chars[end])
                invariant
                    p < end <= stop <= chars@.len(),
                    s == chars@,
                    word_end(s, p + 1, stop as int) == word_end(s, end as int, stop as int),
                decreases stop - end,
            {
                end += 1;
            }
            assert(word_end(s, p + 1, stop as int) == end);
            let kind = classify_word(chars, p, end);
            let ghost word = s.subrange(p as int, end as int);
            let ghost prev = tokens.deep_view();
            let token = Token { kind, line };
            tokens.push(token);
            proof {
                assert(tokens.deep_view() =~= prev.push(token@));
                assert(prev.push(token@) =~= before + word_tokens(done.push(word), line as nat));
                assert(done + (seq![word] + words_in(s, end as int, stop as int)) =~= done.push(
                    word,
                ) + words_in(s, end as int, stop as int));
                done = done.push(word);
            }
            found = true;
            p = end;
        }
    }
    assert(words_in(s, from as int, stop as int) =~= done);
    if found {
        let ghost prev = tokens.deep_view();
        let token = Token { kind: TokenKind::Eol, line };
        tokens.push(token);
        assert(tokens.deep_view() =~= prev.push(token@));
    } else {
        assert(tokens.deep_view() =~= before + Seq::<TokenView>::empty());
    }
}

/// Splits `input` into tokens.
///
/// Never fails: every word is some token.
pub fn tokenize(input: &str) -> (r: Result<Vec<Token>, ParseError>)
    ensures
        r is Ok,
        r->Ok_0.deep_view() == tokenize_spec(input@),
{
    let chars = chars_of(input);
    let ghost s = chars@;
    let mut tokens: Vec<Token> = Vec::new();
    assert(tokens.deep_view() =~= Seq::<TokenView>::empty());
    let mut from: usize = 0;
    // The number of lines that came before the one at `from`.
    let mut passed: usize = 0;
    loop
        invariant
            s == chars@,
            s == input@,
            from <= s.len(),
            passed <= from,
            tokenize_spec(s) == tokens.deep_view() + tokens_from(s, from as int, passed as nat + 1),
        decreases s.len() - from,
    {
        let mut end: usize = from;
        while end < chars.len() && chars[end] != '\n'
            invariant
                from <= end <= chars@.len(),
                s == chars@,
                find_in(s, '\n', from as int, s.len() as int) == find_in(
                    s,
                    '\n',
                    end as int,
                    s.len() as int,
                ),
            decreases chars@.len() - end,
        {
            end += 1;
        }
        assert(find_in(s, '\n', from as int, s.len() as int) == end);
        let ghost prev = tokens.deep_view();
        if from < end {
            tokenize_line(&chars, from, end, passed + 1, &mut tokens);
        } else {
            assert(line_tokens(s, from as int, end as int, passed as nat + 1) =~= seq![]);
            assert(prev + Seq::<TokenView>::empty() =~= prev);
        }
        if end >= chars.len() {
            assert(tokenize_spec(s) == tokens.deep_view());
            return Ok(tokens);
        }
        assert(prev + (line_tokens(s, from as int, end as int, passed as nat + 1) + tokens_from(
            s,
            end + 1,
            passed as nat + 2,
        )) =~= (prev + line_tokens(s, from as int, end as int, passed as nat + 1)) + tokens_from(
            s,
            end + 1,
            passed as nat + 2,
        ));
        from = end + 1;
        passed += 1;
    }
}


/// Where line `k` of `s` starts, counting lines from zero; `None` if `s` has
/// fewer lines. Lines end at a line feed.
pub open spec fn line_start(s: Seq<char>, k: nat) -> Option<int>
    decreases k,
{
    if k == 0 {
        Some(0)
    } else {
        match line_start(s, (k - 1) as nat) {
            Some(start) => {
                let end = find_in(s, '\n', start, s.len() as int);
                if end < s.len() {
                    Some(end + 1)
                } else {
                    None
                }
            },
            None => None,
        }
    }
}

/// The tokens of line `k` of `s`, counting lines from zero: they carry the
/// line number `k + 1`. Nothing if `s` has no such line.
pub open spec fn tokens_of_line(s: Seq<char>, k: nat) -> Seq<TokenView> {
    match line_start(s, k) {
        Some(start) => line_tokens(s, start, find_in(s, '\n', start, s.len() as int), k + 1),
        None => seq![],
    }
}

/// The tokens that carry the line number `line`.
pub open spec fn on_line(tokens: Seq<TokenView>, line: nat) -> Seq<TokenView> {
    tokens.filter(|t: TokenView| t.line == line)
}

/// A line's tokens all carry the line's number; the last one, and only the
/// last one, is the end-of-line token. A line has no tokens at all exactly
/// when everything before its comment is white space.
pub proof fn lemma_line_tokens(s: Seq<char>, from: int, to: int, line: nat)
    requires
        0 <= from <= to <= s.len(),
    ensures
        forall|i: int|
            0 <= i < line_tokens(s, from, to, line).len() ==> (#[trigger] line_tokens(
                s,
                from,
                to,
                line,
            )[i]).line == line,
        forall|i: int|
            0 <= i < line_tokens(s, from, to, line).len() ==> ((#[trigger] line_tokens(
                s,
                from,
                to,
                line,
            )[i]).kind == TokenKindView::Eol <==> i == line_tokens(s, from, to, line).len() - 1),
        line_tokens(s, from, to, line).len() == 0 <==> forall|i: int|
            from <= i < code_end(s, from, to) ==> is_space(#[trigger] s[i]),
{
    lemma_find_in_bounds(s, '#', from, to);
    let stop = code_end(s, from, to);
    lemma_words(s, from, stop);
    let words = words_in(s, from, stop);
    assert forall|i: int| 0 <= i < line_tokens(s, from, to, line).len() implies ((
    #[trigger] line_tokens(s, from, to, line)[i]).kind == TokenKindView::Eol <==> i
        == line_tokens(s, from, to, line).len() - 1) by {
        if i < words.len() {
            assert(words[i].len() > 0);
        }
    }
}

/// Words are not empty, and a window has no word exactly when it is all
/// white space.
pub proof fn lemma_words(s: Seq<char>, from: int, to: int)
    requires
        0 <= from <= to <= s.len(),
    ensures
        forall|i: int|
            0 <= i < words_in(s, from, to).len() ==> (#[trigger] words_in(s, from, to)[i]).len()
                > 0,
        words_in(s, from, to).len() == 0 <==> forall|i: int|
            from <= i < to ==> is_space(#[trigger] s[i]),
    decreases to - from,
{
    if from < to {
        if is_space(s[from]) {
            lemma_words(s, from + 1, to);
        } else {
            lemma_word_end_bounds(s, from + 1, to);
            let end = word_end(s, from + 1, to);
            lemma_words(s, end, to);
            assert(s.subrange(from, end).len() > 0);
            let rest = words_in(s, end, to);
            assert forall|i: int| 0 <= i < words_in(s, from, to).len() implies (
            #[trigger] words_in(s, from, to)[i]).len() > 0 by {
                if i > 0 {
                    assert(words_in(s, from, to)[i] == rest[i - 1]);
                }
            }
        }
    }
}

/// Every token from a line on carries the number of that line or a later
/// one.
proof fn lemma_lines_grow(s: Seq<char>, from: int, line: nat)
    requires
        0 <= from <= s.len(),
    ensures
        forall|i: int|
            0 <= i < tokens_from(s, from, line).len() ==> (#[trigger] tokens_from(
                s,
                from,
                line,
            )[i]).line >= line,
    decreases s.len() - from,
{
    lemma_find_in_bounds(s, '\n', from, s.len() as int);
    let end = find_in(s, '\n', from, s.len() as int);
    lemma_line_tokens(s, from, end, line);
    if end < s.len() {
        lemma_lines_grow(s, end + 1, line + 1);
    }
}

/// Filtering a sequence whose elements all pass keeps it; filtering one whose
/// elements all fail empties it.
proof fn lemma_filter_uniform(tokens: Seq<TokenView>, pred: spec_fn(TokenView) -> bool)
    ensures
        (forall|i: int| 0 <= i < tokens.len() ==> pred(#[trigger] tokens[i])) ==> tokens.filter(
            pred,
        ) == tokens,
        (forall|i: int| 0 <= i < tokens.len() ==> !pred(#[trigger] tokens[i])) ==> tokens.filter(
            pred,
        ) == Seq::<TokenView>::empty(),
    decreases tokens.len(),
{
    reveal(Seq::filter);
    if tokens.len() > 0 {
        lemma_filter_uniform(tokens.drop_last(), pred);
        if forall|i: int| 0 <= i < tokens.len() ==> pred(#[trigger] tokens[i]) {
            assert forall|i: int| 0 <= i < tokens.drop_last().len() implies pred(
                #[trigger] tokens.drop_last()[i],
            ) by {
                assert(tokens.drop_last()[i] == tokens[i]);
            }
            assert(pred(tokens.last()));
            assert(tokens.drop_last().push(tokens.last()) =~= tokens);
        }
        if forall|i: int| 0 <= i < tokens.len() ==> !pred(#[trigger] tokens[i]) {
            assert forall|i: int| 0 <= i < tokens.drop_last().len() implies !pred(
                #[trigger] tokens.drop_last()[i],
            ) by {
                assert(tokens.drop_last()[i] == tokens[i]);
            }
            assert(!pred(tokens.last()));
        }
    }
}

/// Once the text has run out of lines it has no later line either.
proof fn lemma_no_later_line(s: Seq<char>, j: nat, k: nat)
    requires
        j <= k,
        line_start(s, j) is None,
    ensures
        line_start(s, k) is None,
    decreases k - j,
{
    if j < k {
        lemma_no_later_line(s, j, (k - 1) as nat);
    }
}

proof fn lemma_line_start_bounds(s: Seq<char>, k: nat)
    ensures
        line_start(s, k) matches Some(start) ==> 0 <= start <= s.len(),
    decreases k,
{
    if k > 0 {
        lemma_line_start_bounds(s, (k - 1) as nat);
        if let Some(start) = line_start(s, (k - 1) as nat) {
            lemma_find_in_bounds(s, '\n', start, s.len() as int);
        }
    }
}

proof fn lemma_tokens_from_line(s: Seq<char>, j: nat, k: nat)
    requires
        line_start(s, j) is Some,
    ensures
        on_line(tokens_from(s, line_start(s, j)->Some_0, j + 1), k + 1) == if k >= j {
            tokens_of_line(s, k)
        } else {
            Seq::<TokenView>::empty()
        },
    decreases s.len() - line_start(s, j)->Some_0,
{
    lemma_line_start_bounds(s, j);
    let from = line_start(s, j)->Some_0;
    let pred = |t: TokenView| t.line == k + 1;
    lemma_find_in_bounds(s, '\n', from, s.len() as int);
    let end = find_in(s, '\n', from, s.len() as int);
    let here = line_tokens(s, from, end, j + 1);
    lemma_line_tokens(s, from, end, j + 1);
    lemma_filter_uniform(here, pred);
    if end < s.len() {
        let rest = tokens_from(s, end + 1, j + 2);
        assert(line_start(s, j + 1) == Some(end + 1));
        lemma_tokens_from_line(s, j + 1, k);
        Seq::filter_distributes_over_add(here, rest, pred);
        if k == j {
            assert(here + Seq::<TokenView>::empty() =~= here);
        } else if k > j {
            assert(Seq::<TokenView>::empty() + tokens_of_line(s, k) =~= tokens_of_line(s, k));
        } else {
            assert(Seq::<TokenView>::empty() + Seq::<TokenView>::empty() =~= Seq::<
                TokenView,
            >::empty());
        }
    } else {
        assert(line_start(s, j + 1) is None);
        if k > j {
            lemma_no_later_line(s, j + 1, k);
        }
    }
}

/// The tokens that carry the line number `k + 1` are exactly the tokens of
/// the source line `k`, counted from zero, in their order: every token's
/// line is its source line, and a line that is blank or holds only a comment
/// has no token at all.
pub proof fn lemma_tokens_by_line(s: Seq<char>, k: nat)
    ensures
        on_line(tokenize_spec(s), k + 1) == tokens_of_line(s, k),
        on_line(tokenize_spec(s), 0) == Seq::<TokenView>::empty(),
{
    lemma_tokens_from_line(s, 0, k);
    lemma_lines_grow(s, 0, 1);
    lemma_filter_uniform(tokenize_spec(s), |t: TokenView| t.line == 0);
}


/// A run of characters that are not white space, which ends at `to` or
/// before white space, is a word: the first of the window.
pub proof fn lemma_first_word(s: Seq<char>, from: int, end: int, to: int)
    requires
        0 <= from < end <= to <= s.len(),
        forall|k: int| from <= k < end ==> !is_space(#[trigger] s[k]),
        end == to || is_space(s[end]),
    ensures
        words_in(s, from, to) == seq![s.subrange(from, end)] + words_in(s, end, to),
        end < to ==> words_in(s, end, to) == words_in(s, end + 1, to),
{
    lemma_word_end_is(s, from + 1, end, to);
}

proof fn lemma_word_end_is(s: Seq<char>, from: int, end: int, to: int)
    requires
        0 <= from <= end <= to <= s.len(),
        forall|k: int| from <= k < end ==> !is_space(#[trigger] s[k]),
        end == to || is_space(s[end]),
    ensures
        word_end(s, from, to) == end,
    decreases end - from,
{
    if from < end {
        lemma_word_end_is(s, from + 1, end, to);
    }
}

/// A number up to the largest 32-bit integer, written in decimal, is
/// classified as that number.
pub proof fn lemma_classify_number(n: nat)
    requires
        n <= i32::MAX,
    ensures
        classify(decimal_text(n)) == TokenKindView::Number(n as i32),
{
    lemma_decimal_text(n);
    let text = decimal_text(n);
    assert(is_digit(text[0]));
    assert(unsigned_part(text) == text);
}

/// A word without a decimal point is no float.
pub proof fn lemma_no_point_no_float(w: Seq<char>)
    requires
        forall|k: int| 0 <= k < w.len() ==> w[k] != '.',
    ensures
        !is_float(w),
{
    let body = after_sign(w);
    let head = body.take(exponent_start(body, 0));
    lemma_exponent_start_bounds(body, 0);
    assert forall|k: int| 0 <= k < head.len() implies head[k] != '.' by {
        if w.len() > 0 && (w[0] == '-' || w[0] == '+') {
            assert(head[k] == w[k + 1]);
        } else {
            assert(head[k] == w[k]);
        }
    }
    lemma_find_in_none(head, '.', 0, head.len() as int);
}

proof fn lemma_exponent_start_bounds(w: Seq<char>, from: int)
    requires
        0 <= from <= w.len(),
    ensures
        from <= exponent_start(w, from) <= w.len(),
    decreases w.len() - from,
{
    if from < w.len() && w[from] != 'e' && w[from] != 'E' {
        lemma_exponent_start_bounds(w, from + 1);
    }
}

/// A text without line feed is one line.
pub proof fn lemma_one_line(s: Seq<char>)
    requires
        forall|k: int| 0 <= k < s.len() ==> s[k] != '\n',
    ensures
        tokenize_spec(s) == line_tokens(s, 0, s.len() as int, 1),
{
    lemma_find_in_none(s, '\n', 0, s.len() as int);
}

} // verus!
