//! The tokenizer: a lazy, restartable-by-index stream of classified tokens
//! over a random-access character buffer. The stream position `index` is a
//! plain public field so a caller can bookmark it and rewind for unbounded
//! lookahead. Positions, and the ranges diagnostics carry, are character
//! offsets into the buffer; on ASCII input they coincide with byte offsets.

use vstd::prelude::*;
use vstd::string::*;

use crate::diagnostics::SyntaxError;
use crate::lexer::token::{Token, TokenType, TokenV};
use crate::text::str_eq;

verus! {

// ---- Character classes ----

pub open spec fn is_blank(c: char) -> bool {
    c == ' ' || c == '\t' || c == '\r'
}

pub open spec fn is_line_break(c: char) -> bool {
    c == '\n'
}

pub open spec fn is_digit(c: char) -> bool {
    '0' <= c && c <= '9'
}

pub open spec fn is_ident_start(c: char) -> bool {
    ('a' <= c && c <= 'z') || ('A' <= c && c <= 'Z') || c == '_'
}

pub open spec fn is_ident_char(c: char) -> bool {
    is_ident_start(c) || is_digit(c)
}

/// The fixed punctuation set, line breaks aside.
pub open spec fn is_bracket_punct(c: char) -> bool {
    c == '(' || c == ')' || c == '[' || c == ']' || c == '{' || c == '}' || c == ',' || c == ':'
}

/// Operators written with a single character.
pub open spec fn is_single_op(c: char) -> bool {
    c == '=' || c == '+' || c == '-' || c == '*' || c == '/' || c == '|' || c == '>' || c == '<'
}

/// Operators written with two characters; matched before the single ones so
/// that, for example, `==` is not tokenized as two `=`.
pub open spec fn is_double_op(a: char, b: char) -> bool {
    (b == '=' && (a == '=' || a == '!' || a == '>' || a == '<' || a == '+' || a == '-' || a == '*'
        || a == '/')) || (a == '&' && b == '&') || (a == '|' && b == '|')
}

/// The fixed keyword set: an alphabetic run with exactly this text is a
/// keyword, any other is an identifier.
pub open spec fn is_keyword_text(t: Seq<char>) -> bool {
    t == "func"@ || t == "var"@ || t == "return"@ || t == "struct"@
}

// ---- The spec-level lexer ----

pub open spec fn blank_p() -> spec_fn(char) -> bool {
    |c: char| is_blank(c)
}

pub open spec fn digit_p() -> spec_fn(char) -> bool {
    |c: char| is_digit(c)
}

pub open spec fn ident_p() -> spec_fn(char) -> bool {
    |c: char| is_ident_char(c)
}

pub open spec fn nonquote_p() -> spec_fn(char) -> bool {
    |c: char| c != '"'
}

/// End of the run of characters satisfying `p` that starts at `i`.
pub open spec fn run_end(p: spec_fn(char) -> bool, s: Seq<char>, i: int) -> int
    decreases s.len() - i,
{
    if 0 <= i < s.len() && p(s[i]) {
        run_end(p, s, i + 1)
    } else {
        i
    }
}

pub proof fn lemma_run_end(p: spec_fn(char) -> bool, s: Seq<char>, i: int)
    requires
        0 <= i <= s.len(),
    ensures
        i <= run_end(p, s, i) <= s.len(),
        forall|k: int| i <= k < run_end(p, s, i) ==> p(s[k]),
        run_end(p, s, i) < s.len() ==> !p(s[run_end(p, s, i)]),
    decreases s.len() - i,
{
    if i < s.len() && p(s[i]) {
        lemma_run_end(p, s, i + 1);
    }
}

/// First position at or after `i` that holds no blank.
pub open spec fn skip_blanks(s: Seq<char>, i: int) -> int {
    run_end(blank_p(), s, i)
}

/// One token lexed at position `i`, which must hold no blank: the token and
/// the position just past it, or nothing when the leading character opens no
/// token (or a string never closes).
pub open spec fn lex_at(s: Seq<char>, i: int) -> Option<(TokenV, int)> {
    let c = s[i];
    if is_line_break(c) || is_bracket_punct(c) {
        Some((TokenV { kind: TokenType::Punctuation, text: seq![c] }, i + 1))
    } else if is_digit(c) {
        let j = run_end(digit_p(), s, i);
        Some((TokenV { kind: TokenType::Number, text: s.subrange(i, j) }, j))
    } else if is_ident_start(c) {
        let j = run_end(ident_p(), s, i);
        let t = s.subrange(i, j);
        if is_keyword_text(t) {
            Some((TokenV { kind: TokenType::Keyword, text: t }, j))
        } else {
            Some((TokenV { kind: TokenType::Identifier, text: t }, j))
        }
    } else if c == '"' {
        let j = run_end(nonquote_p(), s, i + 1);
        if j < s.len() {
            Some((TokenV { kind: TokenType::String, text: s.subrange(i + 1, j) }, j + 1))
        } else {
            None
        }
    } else if i + 1 < s.len() && is_double_op(c, s[i + 1]) {
        Some((TokenV { kind: TokenType::Operator, text: s.subrange(i, i + 2) }, i + 2))
    } else if is_single_op(c) {
        Some((TokenV { kind: TokenType::Operator, text: seq![c] }, i + 1))
    } else {
        None
    }
}

/// The token the stream yields at position `i`, blanks skipped.
pub open spec fn token_at(s: Seq<char>, i: int) -> Option<TokenV> {
    let j = skip_blanks(s, i);
    if 0 <= j < s.len() {
        match lex_at(s, j) {
            Some(p) => Some(p.0),
            None => None,
        }
    } else {
        None
    }
}

/// The stream position after yielding the token at `i`; when no token is
/// yielded, the position with leading blanks consumed.
pub open spec fn token_end(s: Seq<char>, i: int) -> int {
    let j = skip_blanks(s, i);
    if 0 <= j < s.len() {
        match lex_at(s, j) {
            Some(p) => p.1,
            None => j,
        }
    } else {
        j
    }
}

pub proof fn lemma_token_bounds(s: Seq<char>, i: int)
    requires
        0 <= i <= s.len(),
    ensures
        i <= token_end(s, i) <= s.len(),
        token_at(s, i) is Some ==> i < token_end(s, i),
{
    lemma_run_end(blank_p(), s, i);
    let j = skip_blanks(s, i);
    if j < s.len() {
        if is_digit(s[j]) {
            lemma_run_end(digit_p(), s, j);
        }
        if is_ident_start(s[j]) {
            lemma_run_end(ident_p(), s, j);
        }
        if s[j] == '"' {
            lemma_run_end(nonquote_p(), s, j + 1);
        }
    }
}

/// The token at `i` is a punctuation token carrying exactly `ch`.
pub open spec fn token_is_punct(s: Seq<char>, i: int, ch: char) -> bool {
    token_at(s, i) matches Some(tv) && tv.kind == TokenType::Punctuation && tv.text == seq![ch]
}

/// The token at `i` is a keyword token carrying exactly `w`.
pub open spec fn token_is_keyword(s: Seq<char>, i: int, w: Seq<char>) -> bool {
    token_at(s, i) matches Some(tv) && tv.kind == TokenType::Keyword && tv.text == w
}

/// Position after the run of line-break tokens that starts at `i`.
pub open spec fn lines_end(s: Seq<char>, i: int) -> int
    decreases s.len() - i,
        via lines_end_decreases
{
    if 0 <= i <= s.len() && token_is_punct(s, i, '\n') {
        lines_end(s, token_end(s, i))
    } else {
        i
    }
}

#[via_fn]
proof fn lines_end_decreases(s: Seq<char>, i: int) {
    if 0 <= i <= s.len() && token_is_punct(s, i, '\n') {
        lemma_token_bounds(s, i);
    }
}

pub proof fn lemma_lines_end(s: Seq<char>, i: int)
    requires
        0 <= i <= s.len(),
    ensures
        i <= lines_end(s, i) <= s.len(),
    decreases s.len() - i,
{
    if token_is_punct(s, i, '\n') {
        lemma_token_bounds(s, i);
        lemma_lines_end(s, token_end(s, i));
    }
}

// ---- The tokenizer ----

/// Token stream over a character buffer. `index` is the current character
/// offset; setting it rewinds or advances the stream.
pub struct Tokenizer {
    pub src: String,
    pub index: usize,
}

impl Tokenizer {
    /// The character buffer being tokenized.
    pub open spec fn text(&self) -> Seq<char> {
        self.src@
    }

    pub fn new(source: &str) -> (r: Tokenizer)
        ensures
            r.text() == source@,
            r.index == 0,
    {
        Tokenizer { src: source.to_owned(), index: 0 }
    }

    fn len_chars(&self) -> (n: usize)
        ensures
            n == self.text().len(),
    {
        self.src.as_str().unicode_len()
    }

    fn char_at(&self, i: usize) -> (c: char)
        requires
            i < self.text().len(),
        ensures
            c == self.text()[i as int],
    {
        self.src.as_str().get_char(i)
    }

    fn substring(&self, from: usize, to: usize) -> (r: String)
        requires
            from <= to <= self.text().len(),
        ensures
            r@ == self.text().subrange(from as int, to as int),
    {
        String::from_str(self.src.as_str().substring_char(from, to))
    }

    fn skip_blank_chars(&mut self)
        ensures
            final(self).text() == old(self).text(),
            final(self).index as int == skip_blanks(old(self).text(), old(self).index as int),
    {
        let ghost s0 = self.text();
        let ghost i0 = self.index as int;
        let n = self.len_chars();
        loop
            invariant
                self.text() == s0,
                n == s0.len(),
                skip_blanks(s0, self.index as int) == skip_blanks(s0, i0),
            ensures
                self.text() == s0,
                self.index as int == skip_blanks(s0, i0),
            decreases s0.len() - self.index,
        {
            if self.index < n {
                let c = self.char_at(self.index);
                proof {
                    assert(blank_p()(s0[self.index as int]) == is_blank(s0[self.index as int]));
                }
                if c == ' ' || c == '\t' || c == '\r' {
                    self.index = self.index + 1;
                    continue;
                }
            }
            break;
        }
    }

    /// End of the run of digits starting at `j`.
    fn scan_digits(&self, j: usize, n: usize) -> (k: usize)
        requires
            j <= n,
            n == self.text().len(),
        ensures
            k as int == run_end(digit_p(), self.text(), j as int),
            j <= k <= n,
    {
        let ghost s0 = self.text();
        let mut k = j;
        loop
            invariant
                j <= k <= n,
                n == s0.len(),
                self.text() == s0,
                run_end(digit_p(), s0, k as int) == run_end(digit_p(), s0, j as int),
            ensures
                j <= k <= n,
                k as int == run_end(digit_p(), s0, j as int),
            decreases s0.len() - k,
        {
            if k < n {
                let c = self.char_at(k);
                proof {
                    assert(digit_p()(s0[k as int]) == is_digit(s0[k as int]));
                }
                if '0' <= c && c <= '9' {
                    k = k + 1;
                    continue;
                }
            }
            break;
        }
        k
    }

    /// End of the run of identifier characters starting at `j`.
    fn scan_ident(&self, j: usize, n: usize) -> (k: usize)
        requires
            j <= n,
            n == self.text().len(),
        ensures
            k as int == run_end(ident_p(), self.text(), j as int),
            j <= k <= n,
    {
        let ghost s0 = self.text();
        let mut k = j;
        loop
            invariant
                j <= k <= n,
                n == s0.len(),
                self.text() == s0,
                run_end(ident_p(), s0, k as int) == run_end(ident_p(), s0, j as int),
            ensures
                j <= k <= n,
                k as int == run_end(ident_p(), s0, j as int),
            decreases s0.len() - k,
        {
            if k < n {
                let c = self.char_at(k);
                proof {
                    assert(ident_p()(s0[k as int]) == is_ident_char(s0[k as int]));
                }
                if ('a' <= c && c <= 'z') || ('A' <= c && c <= 'Z') || c == '_' || ('0' <= c && c
                    <= '9') {
                    k = k + 1;
                    continue;
                }
            }
            break;
        }
        k
    }

    /// End of the run of non-quote characters starting at `j`.
    fn scan_nonquote(&self, j: usize, n: usize) -> (k: usize)
        requires
            j <= n,
            n == self.text().len(),
        ensures
            k as int == run_end(nonquote_p(), self.text(), j as int),
            j <= k <= n,
    {
        let ghost s0 = self.text();
        let mut k = j;
        loop
            invariant
                j <= k <= n,
                n == s0.len(),
                self.text() == s0,
                run_end(nonquote_p(), s0, k as int) == run_end(nonquote_p(), s0, j as int),
            ensures
                j <= k <= n,
                k as int == run_end(nonquote_p(), s0, j as int),
            decreases s0.len() - k,
        {
            if k < n {
                let c = self.char_at(k);
                proof {
                    assert(nonquote_p()(s0[k as int]) == (s0[k as int] != '"'));
                }
                if c != '"' {
                    k = k + 1;
                    continue;
                }
            }
            break;
        }
        k
    }

    /// Consumes and returns the next token, or nothing at the end of input
    /// (or at a character that opens no token, where the stream ends).
    pub fn next(&mut self) -> (r: Option<Token>)
        ensures
            final(self).text() == old(self).text(),
            final(self).index as int == token_end(old(self).text(), old(self).index as int),
            match token_at(old(self).text(), old(self).index as int) {
                Some(tv) => r matches Some(t) && t@ == tv,
                None => r is None,
            },
    {
        let ghost s0 = self.text();
        let ghost i0 = self.index as int;
        self.skip_blank_chars();
        let n = self.len_chars();
        if self.index >= n {
            return None;
        }
        let j = self.index;
        let c = self.char_at(j);
        if c == '\n' || c == '(' || c == ')' || c == '[' || c == ']' || c == '{' || c == '}' || c
            == ',' || c == ':' {
            self.index = j + 1;
            let value = self.substring(j, j + 1);
            assert(value@ =~= seq![c]);
            Some(Token { type_: TokenType::Punctuation, value })
        } else if '0' <= c && c <= '9' {
            let k = self.scan_digits(j, n);
            self.index = k;
            Some(Token { type_: TokenType::Number, value: self.substring(j, k) })
        } else if ('a' <= c && c <= 'z') || ('A' <= c && c <= 'Z') || c == '_' {
            let k = self.scan_ident(j, n);
            let value = self.substring(j, k);
            self.index = k;
            let kw = str_eq(value.as_str(), "func") || str_eq(value.as_str(), "var") || str_eq(
                value.as_str(),
                "return",
            ) || str_eq(value.as_str(), "struct");
            if kw {
                Some(Token { type_: TokenType::Keyword, value })
            } else {
                Some(Token { type_: TokenType::Identifier, value })
            }
        } else if c == '"' {
            let k = self.scan_nonquote(j + 1, n);
            if k < n {
                self.index = k + 1;
                Some(Token { type_: TokenType::String, value: self.substring(j + 1, k) })
            } else {
                None
            }
        } else if j + 1 < n && {
            let d = self.char_at(j + 1);
            (d == '=' && (c == '=' || c == '!' || c == '>' || c == '<' || c == '+' || c == '-' || c
                == '*' || c == '/')) || (c == '&' && d == '&') || (c == '|' && d == '|')
        } {
            self.index = j + 2;
            Some(Token { type_: TokenType::Operator, value: self.substring(j, j + 2) })
        } else if c == '=' || c == '+' || c == '-' || c == '*' || c == '/' || c == '|' || c == '>'
            || c == '<' {
            self.index = j + 1;
            let value = self.substring(j, j + 1);
            assert(value@ =~= seq![c]);
            Some(Token { type_: TokenType::Operator, value })
        } else {
            None
        }
    }

    /// Returns the next token without consuming it.
    pub fn peek(&mut self) -> (r: Option<Token>)
        ensures
            final(self).text() == old(self).text(),
            final(self).index == old(self).index,
            match token_at(old(self).text(), old(self).index as int) {
                Some(tv) => r matches Some(t) && t@ == tv,
                None => r is None,
            },
    {
        let save = self.index;
        let r = self.next();
        self.index = save;
        r
    }

    /// Whether the stream position still lies inside the buffer.
    pub fn in_range(&self) -> (r: bool)
        ensures
            r == (self.index < self.text().len()),
    {
        self.index < self.len_chars()
    }

    /// Consumes and returns the next token, failing with a `SyntaxError`
    /// carrying the offending range if its kind differs from `kind`; on
    /// failure the position is left unchanged.
    pub fn expect(&mut self, kind: TokenType) -> (r: Result<Token, SyntaxError>)
        ensures
            final(self).text() == old(self).text(),
            match token_at(old(self).text(), old(self).index as int) {
                Some(tv) => {
                    if tv.kind == kind {
                        r matches Ok(t) && t@ == tv && final(self).index as int == token_end(
                            old(self).text(),
                            old(self).index as int,
                        )
                    } else {
                        r is Err && final(self).index == old(self).index
                    }
                },
                None => r is Err && final(self).index == old(self).index,
            },
    {
        let save = self.index;
        match self.next() {
            Some(t) => {
                if t.type_ == kind {
                    Ok(t)
                } else {
                    let end = self.index;
                    self.index = save;
                    Err(SyntaxError::new(save, end, "unexpected token kind"))
                }
            },
            None => {
                let end = self.index;
                self.index = save;
                Err(SyntaxError::new(save, end, "unexpected end of input"))
            },
        }
    }

    /// Consumes the next token, failing if it is not the punctuation `ch`;
    /// on failure the position is left unchanged.
    pub fn expect_punctuation(&mut self, ch: char) -> (r: Result<(), SyntaxError>)
        ensures
            final(self).text() == old(self).text(),
            if token_is_punct(old(self).text(), old(self).index as int, ch) {
                r is Ok && final(self).index as int == token_end(
                    old(self).text(),
                    old(self).index as int,
                )
            } else {
                r is Err && final(self).index == old(self).index
            },
    {
        if self.optionally_expect_punctuation(ch) {
            Ok(())
        } else {
            Err(SyntaxError::new(self.index, self.index, "expected punctuation"))
        }
    }

    /// Consumes the next token and reports true when it is the punctuation
    /// `ch`; otherwise reports false and leaves the position unchanged.
    pub fn optionally_expect_punctuation(&mut self, ch: char) -> (r: bool)
        ensures
            final(self).text() == old(self).text(),
            r == token_is_punct(old(self).text(), old(self).index as int, ch),
            r ==> final(self).index as int == token_end(old(self).text(), old(self).index as int),
            !r ==> final(self).index == old(self).index,
    {
        let save = self.index;
        match self.next() {
            Some(t) => {
                let matched = t.type_ == TokenType::Punctuation && t.value.as_str().unicode_len()
                    == 1 && t.value.as_str().get_char(0) == ch;
                if matched {
                    assert(t.value@ =~= seq![ch]);
                    true
                } else {
                    self.index = save;
                    assert(t@.text == seq![ch] ==> t@.text[0] == ch && t@.text.len() == 1);
                    false
                }
            },
            None => {
                self.index = save;
                false
            },
        }
    }

    /// Consumes the next token and reports true when its text is exactly
    /// `w`; otherwise reports false and leaves the position unchanged.
    pub fn optionally_expect_string(&mut self, w: &str) -> (r: bool)
        ensures
            final(self).text() == old(self).text(),
            r == (token_at(old(self).text(), old(self).index as int) matches Some(tv) && tv.text
                == w@),
            r ==> final(self).index as int == token_end(old(self).text(), old(self).index as int),
            !r ==> final(self).index == old(self).index,
    {
        let save = self.index;
        match self.next() {
            Some(t) => {
                if str_eq(t.value.as_str(), w) {
                    true
                } else {
                    self.index = save;
                    false
                }
            },
            None => {
                self.index = save;
                false
            },
        }
    }

    /// Consumes the next token and reports true when it is the keyword `w`;
    /// otherwise reports false and leaves the position unchanged.
    pub fn optionally_expect_keyword_of(&mut self, w: &str) -> (r: bool)
        ensures
            final(self).text() == old(self).text(),
            r == token_is_keyword(old(self).text(), old(self).index as int, w@),
            r ==> final(self).index as int == token_end(old(self).text(), old(self).index as int),
            !r ==> final(self).index == old(self).index,
    {
        let save = self.index;
        match self.next() {
            Some(t) => {
                if t.type_ == TokenType::Keyword && str_eq(t.value.as_str(), w) {
                    true
                } else {
                    self.index = save;
                    false
                }
            },
            None => {
                self.index = save;
                false
            },
        }
    }

    /// Consumes the next token and reports true when its kind is `kind`;
    /// otherwise reports false and leaves the position unchanged.
    pub fn optionally_expect_type(&mut self, kind: TokenType) -> (r: bool)
        ensures
            final(self).text() == old(self).text(),
            r == (token_at(old(self).text(), old(self).index as int) matches Some(tv) && tv.kind
                == kind),
            r ==> final(self).index as int == token_end(old(self).text(), old(self).index as int),
            !r ==> final(self).index == old(self).index,
    {
        let save = self.index;
        match self.next() {
            Some(t) => {
                if t.type_ == kind {
                    true
                } else {
                    self.index = save;
                    false
                }
            },
            None => {
                self.index = save;
                false
            },
        }
    }

    /// Skips the run of statement-separator (line-break) tokens at the
    /// current position.
    pub fn eat_lines(&mut self)
        ensures
            final(self).text() == old(self).text(),
            final(self).index as int == lines_end(old(self).text(), old(self).index as int),
            final(self).index >= old(self).index,
    {
        let ghost s0 = self.text();
        let ghost i0 = self.index as int;
        loop
            invariant
                self.text() == s0,
                self.index >= i0,
                lines_end(s0, self.index as int) == lines_end(s0, i0),
            ensures
                self.text() == s0,
                self.index >= i0,
                self.index as int == lines_end(s0, i0),
            decreases s0.len() - self.index,
        {
            let ghost cur = self.index as int;
            proof {
                if cur <= s0.len() {
                    lemma_token_bounds(s0, cur);
                } else {
                    assert(run_end(blank_p(), s0, cur) == cur);
                    assert(token_at(s0, cur) is None);
                }
            }
            if !self.optionally_expect_punctuation('\n') {
                proof {
                    assert(lines_end(s0, cur) == cur);
                }
                break;
            }
            proof {
                assert(lines_end(s0, cur) == lines_end(s0, self.index as int));
            }
        }
    }
}

} // verus!
