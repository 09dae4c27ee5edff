//! The lexer: from the text of a line to its number and its tokens.
//!
//! Every token carries the byte offset at which it begins, for messages.
//! A text literal that is not closed before the end of the line is an
//! error.
use crate::text::{
    byte_offset, chars_of, decimal, digit, is_digit, is_letter, is_whitespace, lemma_run_end,
    lemma_run_end_found, letter, parse_decimal, push_decimal, run_end, unsigned_literal,
    whitespace, width_of,
};
use crate::token::{option_view, table_token, Token, TokenView};
use itertools::Itertools;
use vstd::prelude::*;
use vstd::string::{StrSliceExecFns, StringExecFns};

verus! {

/// The number that a line of code begins with. Lines run in ascending order
/// of their numbers, and a jump names its target by it.
#[derive(Debug, Clone, Copy, PartialEq, Eq, PartialOrd, Ord, Structural)]
pub struct LineNumber(pub u32);

/// A token and the byte offset in its line at which it begins.
#[derive(Debug, PartialEq)]
pub struct TokenAndPos(pub u32, pub Token);

/// A line of code: its number and its tokens, in the order of the text.
#[derive(Debug, PartialEq)]
pub struct LineOfCode {
    pub line_number: LineNumber,
    pub tokens: Vec<TokenAndPos>,
}

/// Why a line could not be split into tokens.
#[derive(Debug, PartialEq)]
pub enum LexError {
    /// The line does not begin with a number that fits in 32 bits, followed
    /// by whitespace or the end of the line.
    MissingLineNumber,
    /// The text literal that opens at `pos` is not closed.
    UnterminatedString { pos: u32 },
    /// The word at `pos` is no number, operator, keyword or name.
    UnimplementedToken { pos: u32, word: String },
    /// The line takes `u32::MAX` bytes or more, so that not every offset in
    /// it can be given.
    LineTooLong,
}

/// What a line of code is: its number, and each token with its offset.
pub struct LineView {
    pub line_number: u32,
    pub tokens: Seq<(u32, TokenView)>,
}

/// What a `LexError` is, with text as a sequence of characters.
pub enum LexErrorView {
    MissingLineNumber,
    UnterminatedString { pos: u32 },
    UnimplementedToken { pos: u32, word: Seq<char> },
    LineTooLong,
}

impl View for TokenAndPos {
    type V = (u32, TokenView);

    open spec fn view(&self) -> (u32, TokenView) {
        (self.0, self.1@)
    }
}

/// The views of a sequence of tokens with their offsets.
pub open spec fn token_views(tokens: Seq<TokenAndPos>) -> Seq<(u32, TokenView)> {
    tokens.map_values(|t: TokenAndPos| t@)
}

impl View for LineOfCode {
    type V = LineView;

    open spec fn view(&self) -> LineView {
        LineView { line_number: self.line_number.0, tokens: token_views(self.tokens@) }
    }
}

impl View for LexError {
    type V = LexErrorView;

    open spec fn view(&self) -> LexErrorView {
        match self {
            LexError::MissingLineNumber => LexErrorView::MissingLineNumber,
            LexError::UnterminatedString { pos } => LexErrorView::UnterminatedString {
                pos: *pos,
            },
            LexError::UnimplementedToken { pos, word } => LexErrorView::UnimplementedToken {
                pos: *pos,
                word: word@,
            },
            LexError::LineTooLong => LexErrorView::LineTooLong,
        }
    }
}

impl Clone for TokenAndPos {
    fn clone(&self) -> (r: Self)
        ensures
            r == *self,
    {
        TokenAndPos(self.0, self.1.clone())
    }
}

impl Clone for LineOfCode {
    fn clone(&self) -> (r: Self)
        ensures
            r@ == self@,
    {
        let mut tokens: Vec<TokenAndPos> = Vec::new();
        let mut i: usize = 0;
        while i < self.tokens.len()
            invariant
                i <= self.tokens@.len(),
                tokens@ == self.tokens@.take(i as int),
            decreases self.tokens@.len() - i,
        {
            tokens.push(self.tokens[i].clone());
            proof {
                assert(self.tokens@.take(i + 1) =~= self.tokens@.take(i as int).push(
                    self.tokens@[i as int],
                ));
            }
            i = i + 1;
        }
        proof {
            assert(self.tokens@.take(i as int) =~= self.tokens@);
        }
        LineOfCode { line_number: self.line_number, tokens }
    }
}

/// The view of what `tokenize_line` returns.
pub open spec fn lexed_view(r: Result<LineOfCode, LexError>) -> Result<LineView, LexErrorView> {
    match r {
        Ok(line) => Ok(line@),
        Err(e) => Err(e@),
    }
}

/// A name: a letter, then letters, digits and underscores.
pub open spec fn identifier(word: Seq<char>) -> bool {
    &&& word.len() > 0
    &&& letter(word[0])
    &&& forall|i: int|
        1 <= i < word.len() ==> letter(#[trigger] word[i]) || digit(word[i]) || word[i] == '_'
}

/// A word ends before whitespace and before a closing parenthesis.
pub open spec fn word_stop(c: char) -> bool {
    whitespace(c) || c == ')'
}

/// The stop at whitespace.
pub open spec fn at_whitespace() -> spec_fn(char) -> bool {
    |c: char| whitespace(c)
}

/// The stop at a double quote.
pub open spec fn at_quote() -> spec_fn(char) -> bool {
    |c: char| c == '"'
}

/// The stop at the end of a word.
pub open spec fn at_word_stop() -> spec_fn(char) -> bool {
    |c: char| word_stop(c)
}

/// The token that a word stands for: a number, if it is all digits and fits
/// in 32 bits; else what the fixed table gives; else a variable, if it is a
/// name.
pub open spec fn word_token(word: Seq<char>) -> Option<TokenView> {
    match unsigned_literal(word, 0x7fff_ffff) {
        Some(n) => Some(TokenView::Number(n as i32)),
        None => match table_token(word) {
            Some(t) => Some(t),
            None => if identifier(word) {
                Some(TokenView::Variable(word))
            } else {
                None
            },
        },
    }
}

/// The tokens `first`, then those of `rest`; the error of `rest` where it is
/// one.
pub open spec fn then_tokens(
    first: Seq<(u32, TokenView)>,
    rest: Result<Seq<(u32, TokenView)>, LexErrorView>,
) -> Result<Seq<(u32, TokenView)>, LexErrorView> {
    match rest {
        Ok(tokens) => Ok(first + tokens),
        Err(e) => Err(e),
    }
}

/// The tokens of the line `s` from the character at index `i` on.
/// `after_value` tells whether the token before them is a literal or a
/// variable: a `-` after one is the binary minus, any other the unary.
///
/// Whitespace separates tokens. A `"` opens a text literal that runs to the
/// next `"`. The characters `-`, `!`, `(` and `)` are tokens by themselves.
/// Anything else begins a word, which runs to the next whitespace or `)`.
/// After the word `REM` one whitespace character is passed over, and the
/// rest of the line is a comment.
pub open spec fn lex_from(s: Seq<char>, i: int, after_value: bool) -> Result<
    Seq<(u32, TokenView)>,
    LexErrorView,
>
    decreases s.len() - i,
    via lex_from_decreases
{
    if i < 0 || i >= s.len() {
        Ok(Seq::empty())
    } else {
        let c = s[i];
        let pos = byte_offset(s, i) as u32;
        if whitespace(c) {
            lex_from(s, i + 1, after_value)
        } else if c == '"' {
            let end = run_end(s, i + 1, at_quote());
            if end >= s.len() {
                Err(LexErrorView::UnterminatedString { pos })
            } else {
                then_tokens(
                    seq![(pos, TokenView::BString(s.subrange(i + 1, end)))],
                    lex_from(s, end + 1, true),
                )
            }
        } else if c == '-' {
            then_tokens(
                seq![(pos, if after_value { TokenView::Minus } else { TokenView::UMinus })],
                lex_from(s, i + 1, false),
            )
        } else if c == '!' {
            then_tokens(seq![(pos, TokenView::Bang)], lex_from(s, i + 1, false))
        } else if c == '(' {
            then_tokens(seq![(pos, TokenView::LParen)], lex_from(s, i + 1, false))
        } else if c == ')' {
            then_tokens(seq![(pos, TokenView::RParen)], lex_from(s, i + 1, false))
        } else {
            let end = run_end(s, i + 1, at_word_stop());
            let word = s.subrange(i, end);
            match word_token(word) {
                None => Err(LexErrorView::UnimplementedToken { pos, word }),
                Some(TokenView::Rem) => {
                    let from = if end < s.len() && whitespace(s[end]) {
                        end + 1
                    } else {
                        end
                    };
                    Ok(
                        seq![
                            (pos, TokenView::Rem),
                            ((pos + 4) as u32, TokenView::Comment(s.subrange(from, s.len() as int))),
                        ],
                    )
                },
                Some(t) => then_tokens(seq![(pos, t)], lex_from(s, end, t.is_value())),
            }
        }
    }
}

#[via_fn]
proof fn lex_from_decreases(s: Seq<char>, i: int, after_value: bool) {
    if 0 <= i < s.len() {
        lemma_run_end_found(s, i + 1, at_quote());
        lemma_run_end_found(s, i + 1, at_word_stop());
    }
}

/// The line of code that the text `s` holds.
///
/// A line of `u32::MAX` bytes or more is refused. An empty line is the line
/// with the number 0 and no tokens. Any other line begins with its number:
/// the characters up to the first whitespace are decimal digits, and denote
/// a number that fits in 32 bits. The tokens follow.
pub open spec fn lex_line(s: Seq<char>) -> Result<LineView, LexErrorView> {
    if byte_offset(s, s.len() as int) >= u32::MAX {
        Err(LexErrorView::LineTooLong)
    } else if s.len() == 0 {
        Ok(LineView { line_number: 0, tokens: Seq::empty() })
    } else {
        let end = run_end(s, 0, at_whitespace());
        match unsigned_literal(s.subrange(0, end), u32::MAX as nat) {
            None => Err(LexErrorView::MissingLineNumber),
            Some(n) => match lex_from(s, end, false) {
                Ok(tokens) => Ok(LineView { line_number: n as u32, tokens }),
                Err(e) => Err(e),
            },
        }
    }
}

/// The byte offset grows with the index.
pub proof fn lemma_byte_offset_grows(s: Seq<char>, i: int, j: int)
    requires
        0 <= i <= j <= s.len(),
    ensures
        byte_offset(s, i) + (j - i) <= byte_offset(s, j),
    decreases j - i,
{
    if i < j {
        lemma_byte_offset_grows(s, i, j - 1);
    }
}

/// The byte offset of every character of `chars`, and at the end that of the
/// end of the line; `None` where the line takes `u32::MAX` bytes or more.
fn byte_offsets(chars: &Vec<char>) -> (r: Option<Vec<u32>>)
    ensures
        match r {
            Some(offsets) => {
                &&& byte_offset(chars@, chars@.len() as int) < u32::MAX
                &&& offsets@.len() == chars@.len() + 1
                &&& forall|i: int|
                    0 <= i <= chars@.len() ==> #[trigger] offsets@[i] == byte_offset(chars@, i)
            },
            None => byte_offset(chars@, chars@.len() as int) >= u32::MAX,
        },
{
    let mut offsets: Vec<u32> = Vec::new();
    offsets.push(0);
    let mut at: u32 = 0;
    let mut i: usize = 0;
    while i < chars.len()
        invariant
            i <= chars@.len(),
            at == byte_offset(chars@, i as int),
            at < u32::MAX,
            offsets@.len() == i + 1,
            forall|k: int| 0 <= k <= i ==> #[trigger] offsets@[k] == byte_offset(chars@, k),
        decreases chars@.len() - i,
    {
        let width = width_of(chars[i]);
        if width >= u32::MAX - at {
            proof {
                lemma_byte_offset_grows(chars@, i + 1, chars@.len() as int);
            }
            return None;
        }
        at = at + width;
        offsets.push(at);
        i = i + 1;
    }
    Some(offsets)
}

/// The index of the first whitespace character from `start` on.
fn find_whitespace(chars: &Vec<char>, start: usize) -> (end: usize)
    requires
        start <= chars@.len(),
    ensures
        end == run_end(chars@, start as int, at_whitespace()),
        start <= end <= chars@.len(),
{
    let mut end: usize = start;
    while end < chars.len() && !is_whitespace(chars[end])
        invariant
            start <= end <= chars@.len(),
            forall|i: int| start <= i < end ==> !at_whitespace()(#[trigger] chars@[i]),
        decreases chars@.len() - end,
    {
        end = end + 1;
    }
    proof {
        lemma_run_end(chars@, start as int, at_whitespace(), end as int);
    }
    end
}

/// The index of the first double quote from `start` on.
fn find_quote(chars: &Vec<char>, start: usize) -> (end: usize)
    requires
        start <= chars@.len(),
    ensures
        end == run_end(chars@, start as int, at_quote()),
        start <= end <= chars@.len(),
{
    let mut end: usize = start;
    while end < chars.len() && chars[end] != '"'
        invariant
            start <= end <= chars@.len(),
            forall|i: int| start <= i < end ==> !at_quote()(#[trigger] chars@[i]),
        decreases chars@.len() - end,
    {
        end = end + 1;
    }
    proof {
        lemma_run_end(chars@, start as int, at_quote(), end as int);
    }
    end
}

/// Whether a word goes on with the character `c`.
pub fn continues_word(c: char) -> (r: bool)
    ensures
        r == !word_stop(c),
{
    !(is_whitespace(c) || c == ')')
}

/// The length of the run of characters from `start` on that go on a word,
/// counted by `Itertools::peeking_take_while` with `continues_word` as the
/// test.
///
/// The contract is assumed, not proved. It says what itertools documents of
/// the adaptor: it hands out items as long as the test holds of the next
/// one, and leaves the first that fails where it is. So the count is the
/// length of the longest run from `start` in which no character stops a
/// word.
#[verifier::external_body]
fn word_run(chars: &Vec<char>, start: usize) -> (n: usize)
    requires
        start <= chars@.len(),
    ensures
        start + n <= chars@.len(),
        forall|i: int| start <= i < start + n ==> !word_stop(#[trigger] chars@[i]),
        start + n < chars@.len() ==> word_stop(chars@[start + n]),
{
    chars[start..].iter().peeking_take_while(|c| continues_word(**c)).count()
}

/// The index at which the word that begins before `start` ends.
fn find_word_end(chars: &Vec<char>, start: usize) -> (end: usize)
    requires
        start <= chars@.len(),
    ensures
        end == run_end(chars@, start as int, at_word_stop()),
        start <= end <= chars@.len(),
{
    let n = word_run(chars, start);
    let len = chars.len();
    proof {
        assert forall|i: int| start <= i < start + n implies !at_word_stop()(
            #[trigger] chars@[i],
        ) by {}
        lemma_run_end(chars@, start as int, at_word_stop(), start + n);
    }
    start + n
}

/// Whether `token_str` is a name: a letter, then letters, digits and
/// underscores.
pub fn is_valid_identifier(token_str: &str) -> (r: bool)
    ensures
        r == identifier(token_str@),
{
    let chars = chars_of(token_str);
    if chars.len() == 0 || !is_letter(chars[0]) {
        return false;
    }
    let mut i: usize = 1;
    while i < chars.len()
        invariant
            1 <= i <= chars@.len(),
            chars@ == token_str@,
            forall|k: int|
                1 <= k < i ==> letter(#[trigger] chars@[k]) || digit(chars@[k]) || chars@[k]
                    == '_',
        decreases chars@.len() - i,
    {
        let c = chars[i];
        if !(is_letter(c) || is_digit(c) || c == '_') {
            return false;
        }
        i = i + 1;
    }
    true
}

/// The token that the word from `from` up to `to` stands for.
fn classify_word(line: &str, chars: &Vec<char>, from: usize, to: usize) -> (r: Option<Token>)
    requires
        chars@ == line@,
        from <= to <= chars@.len(),
    ensures
        option_view(r) == word_token(chars@.subrange(from as int, to as int)),
{
    match parse_decimal(chars, from, to, 0x7fff_ffff) {
        Some(n) => Some(Token::Number(n as i32)),
        None => {
            let word = line.substring_char(from, to);
            match Token::token_for_string(word) {
                Some(token) => Some(token),
                None => if is_valid_identifier(word) {
                    Some(Token::Variable(word.to_owned()))
                } else {
                    None
                },
            }
        },
    }
}

/// Appending a token to those that are done is the same as putting it before
/// those that follow.
proof fn lemma_then_tokens_push(
    done: Seq<(u32, TokenView)>,
    t: (u32, TokenView),
    rest: Result<Seq<(u32, TokenView)>, LexErrorView>,
)
    ensures
        then_tokens(done, then_tokens(seq![t], rest)) == then_tokens(done.push(t), rest),
{
    match rest {
        Ok(r) => {
            assert(done + (seq![t] + r) =~= done.push(t) + r);
        },
        Err(_) => {},
    }
}

/// Splits a line into its number and its tokens.
///
/// The result is what `lex_line` says of the text. Offsets count bytes. A
/// text literal that is not closed is an error.
pub fn tokenize_line(line: &str) -> (r: Result<LineOfCode, LexError>)
    ensures
        lexed_view(r) == lex_line(line@),
{
    let chars = chars_of(line);
    let n = chars.len();
    let offsets = match byte_offsets(&chars) {
        Some(offsets) => offsets,
        None => {
            return Err(LexError::LineTooLong);
        },
    };
    let mut tokens: Vec<TokenAndPos> = Vec::new();
    if n == 0 {
        assert(token_views(tokens@) =~= Seq::empty());
        return Ok(LineOfCode { line_number: LineNumber(0), tokens });
    }
    let start = find_whitespace(&chars, 0);
    let number = match parse_decimal(&chars, 0, start, u32::MAX) {
        Some(number) => number,
        None => {
            return Err(LexError::MissingLineNumber);
        },
    };
    let ghost s = chars@;
    let mut i: usize = start;
    proof {
        assert(token_views(tokens@) =~= Seq::empty());
        match lex_from(s, start as int, false) {
            Ok(r) => {
                assert(Seq::<(u32, TokenView)>::empty() + r =~= r);
            },
            Err(_) => {},
        }
    }
    while i < n
        invariant
            start <= i <= n,
            n == chars@.len(),
            s == chars@,
            s == line@,
            byte_offset(s, n as int) < u32::MAX,
            offsets@.len() == n + 1,
            forall|k: int| 0 <= k <= n ==> #[trigger] offsets@[k] == byte_offset(s, k),
            lex_line(s) == (match lex_from(s, start as int, false) {
                Ok(tokens) => Ok(LineView { line_number: number, tokens }),
                Err(e) => Err(e),
            }),
            lex_from(s, start as int, false) == then_tokens(
                token_views(tokens@),
                lex_from(
                    s,
                    i as int,
                    tokens@.len() > 0 && tokens@.last().1@.is_value(),
                ),
            ),
        decreases n - i,
    {
        let c = chars[i];
        let pos = offsets[i];
        let after_value = tokens.len() > 0 && tokens[tokens.len() - 1].1.is_value();
        let ghost done = token_views(tokens@);
        assert(pos == byte_offset(s, i as int) as u32);
        if is_whitespace(c) {
            i = i + 1;
        } else if c == '"' {
            let end = find_quote(&chars, i + 1);
            if end >= n {
                return Err(LexError::UnterminatedString { pos });
            }
            let text = line.substring_char(i + 1, end).to_owned();
            let token = TokenAndPos(pos, Token::BString(text));
            proof {
                lemma_then_tokens_push(done, token@, lex_from(s, end + 1, true));
                assert(token_views(tokens@.push(token)) =~= done.push(token@));
            }
            tokens.push(token);
            i = end + 1;
        } else if c == '-' {
            let token = if after_value {
                TokenAndPos(pos, Token::Minus)
            } else {
                TokenAndPos(pos, Token::UMinus)
            };
            proof {
                lemma_then_tokens_push(done, token@, lex_from(s, i + 1, false));
                assert(token_views(tokens@.push(token)) =~= done.push(token@));
            }
            tokens.push(token);
            i = i + 1;
        } else if c == '!' {
            let token = TokenAndPos(pos, Token::Bang);
            proof {
                lemma_then_tokens_push(done, token@, lex_from(s, i + 1, false));
                assert(token_views(tokens@.push(token)) =~= done.push(token@));
            }
            tokens.push(token);
            i = i + 1;
        } else if c == '(' {
            let token = TokenAndPos(pos, Token::LParen);
            proof {
                lemma_then_tokens_push(done, token@, lex_from(s, i + 1, false));
                assert(token_views(tokens@.push(token)) =~= done.push(token@));
            }
            tokens.push(token);
            i = i + 1;
        } else if c == ')' {
            let token = TokenAndPos(pos, Token::RParen);
            proof {
                lemma_then_tokens_push(done, token@, lex_from(s, i + 1, false));
                assert(token_views(tokens@.push(token)) =~= done.push(token@));
            }
            tokens.push(token);
            i = i + 1;
        } else {
            let end = find_word_end(&chars, i + 1);
            match classify_word(line, &chars, i, end) {
                None => {
                    let word = line.substring_char(i, end).to_owned();
                    return Err(LexError::UnimplementedToken { pos, word });
                },
                Some(Token::Rem) => {
                    let from = if end < n && is_whitespace(chars[end]) {
                        end + 1
                    } else {
                        end
                    };
                    let comment = line.substring_char(from, n).to_owned();
                    proof {
                        lemma_rem_is_three_bytes(s, i as int, end as int);
                    }
                    let rem = TokenAndPos(pos, Token::Rem);
                    let rest = TokenAndPos(pos + 4, Token::Comment(comment));
                    proof {
                        assert(token_views(tokens@.push(rem).push(rest)) =~= done + seq![
                            rem@,
                            rest@,
                        ]);
                        assert(done + seq![rem@, rest@] + Seq::empty() =~= done + seq![
                            rem@,
                            rest@,
                        ]);
                    }
                    tokens.push(rem);
                    tokens.push(rest);
                    i = n;
                },
                Some(word) => {
                    let token = TokenAndPos(pos, word);
                    proof {
                        lemma_then_tokens_push(
                            done,
                            token@,
                            lex_from(s, end as int, token@.1.is_value()),
                        );
                        assert(token_views(tokens@.push(token)) =~= done.push(token@));
                    }
                    tokens.push(token);
                    i = end;
                },
            }
        }
    }
    proof {
        assert(token_views(tokens@) + Seq::empty() =~= token_views(tokens@));
    }
    Ok(LineOfCode { line_number: LineNumber(number), tokens })
}

/// The word `REM` takes three bytes.
proof fn lemma_rem_is_three_bytes(s: Seq<char>, i: int, end: int)
    requires
        0 <= i <= end <= s.len(),
        word_token(s.subrange(i, end)) == Some(TokenView::Rem),
    ensures
        byte_offset(s, i) + 3 <= byte_offset(s, s.len() as int),
{
    let word = s.subrange(i, end);
    reveal_strlit("REM");
    assert(word == "REM"@);
    assert(word.len() == 3);
    lemma_byte_offset_grows(s, i, end);
    lemma_byte_offset_grows(s, end, s.len() as int);
}

/// The offsets of a sequence of tokens grow from each token to the next,
/// and none is below `from`.
pub open spec fn offsets_ascend(tokens: Seq<(u32, TokenView)>, from: nat) -> bool {
    &&& forall|k: int| 0 <= k < tokens.len() ==> (#[trigger] tokens[k]).0 >= from
    &&& forall|a: int, b: int| 0 <= a < b < tokens.len() ==> tokens[a].0 < tokens[b].0
}

proof fn lemma_offsets_ascend_from(
    first: (u32, TokenView),
    rest: Seq<(u32, TokenView)>,
    from: nat,
    next: nat,
)
    requires
        from <= first.0 < next,
        offsets_ascend(rest, next),
    ensures
        offsets_ascend(seq![first] + rest, from),
{
    let all = seq![first] + rest;
    assert forall|k: int| 0 <= k < all.len() implies (#[trigger] all[k]).0 >= from by {
        if k > 0 {
            assert(all[k] == rest[k - 1]);
        }
    }
    assert forall|a: int, b: int| 0 <= a < b < all.len() implies all[a].0 < all[b].0 by {
        assert(all[b] == rest[b - 1]);
        if a > 0 {
            assert(all[a] == rest[a - 1]);
        }
    }
}

proof fn lemma_lex_from_ascends(s: Seq<char>, i: int, after_value: bool)
    requires
        0 <= i <= s.len(),
        byte_offset(s, s.len() as int) < u32::MAX,
    ensures
        lex_from(s, i, after_value) is Ok ==> offsets_ascend(
            lex_from(s, i, after_value)->Ok_0,
            byte_offset(s, i),
        ),
    decreases s.len() - i,
{
    if i < s.len() && lex_from(s, i, after_value) is Ok {
        let c = s[i];
        let pos = byte_offset(s, i) as u32;
        lemma_byte_offset_grows(s, i, s.len() as int);
        if whitespace(c) {
            lemma_lex_from_ascends(s, i + 1, after_value);
            lemma_byte_offset_grows(s, i, i + 1);
        } else if c == '"' {
            let end = run_end(s, i + 1, at_quote());
            lemma_run_end_found(s, i + 1, at_quote());
            lemma_lex_from_ascends(s, end + 1, true);
            lemma_byte_offset_grows(s, i, end + 1);
            lemma_offsets_ascend_from(
                (pos, TokenView::BString(s.subrange(i + 1, end))),
                lex_from(s, end + 1, true)->Ok_0,
                byte_offset(s, i),
                byte_offset(s, end + 1),
            );
        } else if c == '-' || c == '!' || c == '(' || c == ')' {
            let t = if c == '-' {
                if after_value {
                    TokenView::Minus
                } else {
                    TokenView::UMinus
                }
            } else if c == '!' {
                TokenView::Bang
            } else if c == '(' {
                TokenView::LParen
            } else {
                TokenView::RParen
            };
            lemma_lex_from_ascends(s, i + 1, false);
            lemma_byte_offset_grows(s, i, i + 1);
            lemma_offsets_ascend_from(
                (pos, t),
                lex_from(s, i + 1, false)->Ok_0,
                byte_offset(s, i),
                byte_offset(s, i + 1),
            );
        } else {
            let end = run_end(s, i + 1, at_word_stop());
            lemma_run_end_found(s, i + 1, at_word_stop());
            let word = s.subrange(i, end);
            match word_token(word) {
                None => {},
                Some(TokenView::Rem) => {
                    lemma_rem_is_three_bytes(s, i, end);
                },
                Some(t) => {
                    lemma_lex_from_ascends(s, end, t.is_value());
                    lemma_byte_offset_grows(s, i, end);
                    lemma_offsets_ascend_from(
                        (pos, t),
                        lex_from(s, end, t.is_value())->Ok_0,
                        byte_offset(s, i),
                        byte_offset(s, end),
                    );
                },
            }
        }
    }
}

/// The tokens of a line stand in the order of the text: the byte offset
/// grows from each token to the next.
pub proof fn lemma_tokens_in_source_order(s: Seq<char>)
    requires
        lex_line(s) is Ok,
    ensures
        forall|a: int, b: int|
            0 <= a < b < lex_line(s)->Ok_0.tokens.len() ==> lex_line(s)->Ok_0.tokens[a].0
                < lex_line(s)->Ok_0.tokens[b].0,
{
    if s.len() > 0 {
        let end = run_end(s, 0, at_whitespace());
        lemma_run_end_found(s, 0, at_whitespace());
        lemma_lex_from_ascends(s, end, false);
    }
}

/// Splitting a text into tokens gives the same each time: whatever
/// `tokenize_line` returns for one text has one and the same view.
pub proof fn lemma_tokenize_repeatable(
    line: Seq<char>,
    first: Result<LineOfCode, LexError>,
    second: Result<LineOfCode, LexError>,
)
    requires
        lexed_view(first) == lex_line(line),
        lexed_view(second) == lex_line(line),
    ensures
        lexed_view(first) == lexed_view(second),
        first is Ok <==> second is Ok,
        first is Ok ==> first->Ok_0@.tokens == second->Ok_0@.tokens,
{
}

/// The message of a `LexError`.
pub open spec fn lex_error_text(e: LexErrorView) -> Seq<char> {
    match e {
        LexErrorView::MissingLineNumber => "Line must start with a line number"@,
        LexErrorView::UnterminatedString { pos } => "Unterminated string at "@ + decimal(
            pos as nat,
        ),
        LexErrorView::UnimplementedToken { pos, word } => "Unimplemented token at "@ + decimal(
            pos as nat,
        ) + ":\t"@ + word,
        LexErrorView::LineTooLong => "Line is too long"@,
    }
}

impl LexError {
    /// The message of the error.
    pub fn message(&self) -> (r: String)
        ensures
            r@ == lex_error_text(self@),
    {
        match self {
            LexError::MissingLineNumber => "Line must start with a line number".to_owned(),
            LexError::UnterminatedString { pos } => {
                let mut out = "Unterminated string at ".to_owned();
                push_decimal(&mut out, *pos as u64);
                out
            },
            LexError::UnimplementedToken { pos, word } => {
                let mut out = "Unimplemented token at ".to_owned();
                push_decimal(&mut out, *pos as u64);
                out.append(":\t");
                out.append(word.as_str());
                out
            },
            LexError::LineTooLong => "Line is too long".to_owned(),
        }
    }
}

} // verus!
