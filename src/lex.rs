use vstd::prelude::*;
use vstd::string::StringExecFns;
use vstd::string::StrSliceExecFns;
use crate::errors::{lemma_diagnostic_in_source, located, same_diagnostic, Error, ErrorMessage, LexError};
use crate::text::line_of;
use crate::text::{alphabetic, chars_of, is_alphabetic, is_numeric, numeric};
use crate::tokens::{Kind, Token, TokenType};

verus! {

/// `s` holds `c` at offset `i`.
pub open spec fn at(s: Seq<char>, i: int, c: char) -> bool {
    0 <= i < s.len() && s[i] == c
}

/// End of the run of numeric characters that starts at `i`.
pub open spec fn numeric_run(s: Seq<char>, i: int) -> int
    decreases s.len() - i,
{
    if 0 <= i < s.len() && numeric(s[i]) {
        numeric_run(s, i + 1)
    } else {
        i
    }
}

/// A character that may continue an identifier.
pub open spec fn ident_char(c: char) -> bool {
    alphabetic(c) || c == '_'
}

/// A character that may start an identifier or keyword.
pub open spec fn ident_start(c: char) -> bool {
    ('a' <= c <= 'z') || ('A' <= c <= 'Z') || c == '_'
}

/// End of the run of identifier characters that starts at `i`.
pub open spec fn ident_run(s: Seq<char>, i: int) -> int
    decreases s.len() - i,
{
    if 0 <= i < s.len() && ident_char(s[i]) {
        ident_run(s, i + 1)
    } else {
        i
    }
}

/// Offset of the first `c` at or after `i`, or the length of `s` when there is none.
pub open spec fn find(s: Seq<char>, i: int, c: char) -> int
    decreases s.len() - i,
{
    if i < 0 || i >= s.len() {
        s.len() as int
    } else if s[i] == c {
        i
    } else {
        find(s, i + 1, c)
    }
}

/// `///` starts at offset `i`.
pub open spec fn doc_fence(s: Seq<char>, i: int) -> bool {
    at(s, i, '/') && at(s, i + 1, '/') && at(s, i + 2, '/')
}

/// Offset of the first line break or `///` at or after `i`, or the length of `s`.
pub open spec fn doc_end(s: Seq<char>, i: int) -> int
    decreases s.len() - i,
{
    if i < 0 || i >= s.len() {
        s.len() as int
    } else if s[i] == '\n' || doc_fence(s, i) {
        i
    } else {
        doc_end(s, i + 1)
    }
}

/// End of the numeral that starts at `i`: digits, then a point and digits if a digit follows
/// the point.
pub open spec fn number_end(s: Seq<char>, i: int) -> int {
    let a = numeric_run(s, i + 1);
    if at(s, a, '.') && a + 1 < s.len() && numeric(s[a + 1]) {
        numeric_run(s, a + 2)
    } else {
        a
    }
}

/// The text reads as a decimal number: ASCII digits and the point between them.
pub open spec fn is_decimal(t: Seq<char>) -> bool {
    forall|k: int| 0 <= k < t.len() ==> ('0' <= #[trigger] t[k] <= '9' || t[k] == '.')
}

/// The keyword spelled by `t`, if any.
pub open spec fn keyword(t: Seq<char>) -> Option<Kind> {
    if t == "and"@ {
        Some(Kind::And)
    } else if t == "or"@ {
        Some(Kind::Or)
    } else if t == "match"@ {
        Some(Kind::Match)
    } else if t == "enum"@ {
        Some(Kind::Enum)
    } else if t == "struct"@ {
        Some(Kind::Struct)
    } else if t == "let"@ {
        Some(Kind::Let)
    } else if t == "const"@ {
        Some(Kind::Const)
    } else if t == "false"@ {
        Some(Kind::False)
    } else if t == "true"@ {
        Some(Kind::True)
    } else if t == "fn"@ {
        Some(Kind::Fn)
    } else if t == "return"@ {
        Some(Kind::Return)
    } else {
        None
    }
}

/// A keyword if `t` spells one, else an identifier.
pub open spec fn word(t: Seq<char>) -> Kind {
    match keyword(t) {
        Some(k) => k,
        None => Kind::Identifier(t),
    }
}

/// The token that starts at offset `i` and the offset where it ends; or the error it raises
/// and the offset where the offending text ends. Longer operators win over their prefixes.
pub open spec fn next_token(s: Seq<char>, i: int) -> Result<(Kind, int), (LexError, int)> {
    let c = s[i];
    if c == '(' {
        Ok((Kind::LParen, i + 1))
    } else if c == ')' {
        Ok((Kind::RParen, i + 1))
    } else if c == '{' {
        Ok((Kind::LBrace, i + 1))
    } else if c == '}' {
        Ok((Kind::RBrace, i + 1))
    } else if c == ',' {
        Ok((Kind::Comma, i + 1))
    } else if c == '.' {
        Ok((Kind::Period, i + 1))
    } else if c == '+' {
        Ok((Kind::Plus, i + 1))
    } else if c == '-' {
        Ok((Kind::Minus, i + 1))
    } else if c == '*' {
        Ok((Kind::Asterisk, i + 1))
    } else if c == ';' {
        Ok((Kind::Semicolon, i + 1))
    } else if c == '/' {
        if at(s, i + 1, '/') {
            if at(s, i + 2, '/') {
                let j = doc_end(s, i + 3);
                if j >= s.len() {
                    Err((LexError::UnterminatedComment, s.len() as int))
                } else if s[j] == '\n' {
                    Ok((Kind::DocComment(s.subrange(i + 3, j)), j))
                } else {
                    Ok((Kind::DocComment(s.subrange(i + 3, j)), j + 3))
                }
            } else {
                Ok((Kind::Comment, find(s, i + 2, '\n')))
            }
        } else {
            Ok((Kind::Slash, i + 1))
        }
    } else if c == '!' {
        if at(s, i + 1, '=') {
            if at(s, i + 2, '=') {
                Ok((Kind::NotStrictEqual, i + 3))
            } else {
                Ok((Kind::NotEqual, i + 2))
            }
        } else {
            Ok((Kind::Not, i + 1))
        }
    } else if c == '=' {
        if at(s, i + 1, '=') {
            if at(s, i + 2, '=') {
                Ok((Kind::StrictComparisonEqual, i + 3))
            } else {
                Ok((Kind::ComparisonEqual, i + 2))
            }
        } else {
            Ok((Kind::Equal, i + 1))
        }
    } else if c == '>' {
        if at(s, i + 1, '=') {
            Ok((Kind::GreaterThanEqualTo, i + 2))
        } else {
            Ok((Kind::Greater, i + 1))
        }
    } else if c == '<' {
        if at(s, i + 1, '=') {
            Ok((Kind::LessThanEqualTo, i + 2))
        } else {
            Ok((Kind::Less, i + 1))
        }
    } else if c == ' ' || c == '\t' || c == '\r' || c == '\n' {
        Ok((Kind::Whitespace, i + 1))
    } else if c == '"' || c == '`' {
        let j = find(s, i + 1, c);
        if j >= s.len() {
            Err((LexError::UnterminatedString, s.len() as int))
        } else {
            Ok((Kind::Str(s.subrange(i + 1, j)), j + 1))
        }
    } else if '0' <= c <= '9' {
        let e = number_end(s, i);
        if is_decimal(s.subrange(i, e)) {
            Ok((Kind::Number(s.subrange(i, e)), e))
        } else {
            Err((LexError::InvalidNumber, e))
        }
    } else if ident_start(c) {
        let e = ident_run(s, i + 1);
        Ok((word(s.subrange(i, e)), e))
    } else {
        Ok((Kind::Unknown, i + 1))
    }
}

/// Where the token that starts at `i` ends, whether it was read or refused.
pub open spec fn token_end(s: Seq<char>, i: int) -> int {
    match next_token(s, i) {
        Ok((_, j)) => j,
        Err((_, j)) => j,
    }
}

/// A token read from the source: its kind, start and end.
pub type Lexeme = (Kind, int, int);

/// `done` followed by what `rest` holds, or the error of `rest`.
pub open spec fn glue(done: Seq<Lexeme>, rest: Result<Seq<Lexeme>, (LexError, int, int)>) -> Result<
    Seq<Lexeme>,
    (LexError, int, int),
> {
    match rest {
        Ok(t) => Ok(done + t),
        Err(e) => Err(e),
    }
}

/// The tokens of `s` from offset `i` on, ending with one end-of-input token; or the first
/// error, with the offsets where its offending text starts and ends.
pub open spec fn lex_from(s: Seq<char>, i: int) -> Result<Seq<Lexeme>, (LexError, int, int)>
    decreases s.len() - i,
{
    if i < 0 || i >= s.len() {
        Ok(seq![(Kind::EOI, s.len() as int, s.len() as int)])
    } else {
        match next_token(s, i) {
            Err((e, j)) => Err((e, i, j)),
            Ok((k, j)) => if i < j <= s.len() {
                glue(seq![(k, i, j)], lex_from(s, j))
            } else {
                Ok(seq![])
            },
        }
    }
}

/// Each token ends after it starts, and within the text.
pub proof fn lemma_next_token_advances(s: Seq<char>, i: int)
    requires
        0 <= i < s.len(),
    ensures
        i < token_end(s, i) <= s.len(),
{
    lemma_numeric_run(s, i + 1);
    lemma_ident_run(s, i + 1);
    lemma_find(s, i + 1, s[i]);
    lemma_find(s, i + 2, '\n');
    lemma_doc_end(s, i + 3);
    let a = numeric_run(s, i + 1);
    if at(s, a, '.') && a + 1 < s.len() {
        lemma_numeric_run(s, a + 2);
    }
}

proof fn lemma_numeric_run(s: Seq<char>, i: int)
    requires
        0 <= i <= s.len(),
    ensures
        i <= numeric_run(s, i) <= s.len(),
    decreases s.len() - i,
{
    if i < s.len() && numeric(s[i]) {
        lemma_numeric_run(s, i + 1);
    }
}

proof fn lemma_ident_run(s: Seq<char>, i: int)
    requires
        0 <= i <= s.len(),
    ensures
        i <= ident_run(s, i) <= s.len(),
    decreases s.len() - i,
{
    if i < s.len() && ident_char(s[i]) {
        lemma_ident_run(s, i + 1);
    }
}

proof fn lemma_find(s: Seq<char>, i: int, c: char)
    requires
        0 <= i,
    ensures
        i <= s.len() ==> i <= find(s, i, c),
        find(s, i, c) <= s.len(),
        find(s, i, c) < s.len() ==> s[find(s, i, c)] == c,
    decreases s.len() - i,
{
    if i < s.len() && s[i] != c {
        lemma_find(s, i + 1, c);
    }
}

proof fn lemma_doc_end(s: Seq<char>, i: int)
    requires
        0 <= i,
    ensures
        i <= s.len() ==> i <= doc_end(s, i),
        doc_end(s, i) <= s.len(),
        doc_end(s, i) < s.len() ==> s[doc_end(s, i)] == '\n' || doc_fence(s, doc_end(s, i)),
    decreases s.len() - i,
{
    if i < s.len() && s[i] != '\n' && !doc_fence(s, i) {
        lemma_doc_end(s, i + 1);
    }
}

/// A forward cursor over a source text: `start` is where the token being read began, `index`
/// the next character to look at.
#[derive(Debug)]
pub struct Lexer<'a> {
    pub source: &'a str,
    pub chars: Vec<char>,
    pub start: usize,
    pub index: usize,
}

impl<'a> Lexer<'a> {
    /// The characters are those of the source, and both offsets lie within them.
    pub open spec fn wf(&self) -> bool {
        &&& self.chars@ == self.source@
        &&& self.start <= self.index <= self.chars@.len()
    }

    /// The characters being read.
    pub open spec fn text(&self) -> Seq<char> {
        self.chars@
    }

    /// A cursor at the start of `source`.
    pub fn new(source: &'a str) -> (r: Lexer<'a>)
        ensures
            r.wf(),
            r.source == source,
            r.start == 0,
            r.index == 0,
    {
        Lexer { source, chars: chars_of(source), start: 0, index: 0 }
    }

    /// The current character, without advancing.
    pub fn peek(&self) -> (r: Option<char>)
        requires
            self.wf(),
        ensures
            r == (if self.index < self.text().len() {
                Some(self.text()[self.index as int])
            } else {
                None
            }),
    {
        if self.index < self.chars.len() {
            Some(self.chars[self.index])
        } else {
            None
        }
    }

    /// The character `idx` places after the current one, without advancing.
    pub fn peek_nth(&self, idx: usize) -> (r: Option<char>)
        requires
            self.wf(),
        ensures
            r == (if self.index + idx < self.text().len() {
                Some(self.text()[self.index + idx])
            } else {
                None
            }),
    {
        if idx < self.chars.len() - self.index {
            Some(self.chars[self.index + idx])
        } else {
            None
        }
    }

    /// Advances by one character, unless at the end, and returns the new current character.
    pub fn next(&mut self) -> (r: Option<char>)
        requires
            old(self).wf(),
        ensures
            final(self).wf(),
            final(self).source == old(self).source,
            final(self).chars == old(self).chars,
            final(self).start == old(self).start,
            final(self).index == if old(self).index < old(self).text().len() {
                old(self).index + 1
            } else {
                old(self).index as int
            },
            r == (if final(self).index < final(self).text().len() {
                Some(final(self).text()[final(self).index as int])
            } else {
                None
            }),
    {
        if self.index < self.chars.len() {
            self.index = self.index + 1;
        }
        self.peek()
    }

    /// Advances by `idx` characters, stopping at the end, and returns the new current character.
    pub fn next_nth(&mut self, idx: usize) -> (r: Option<char>)
        requires
            old(self).wf(),
        ensures
            final(self).wf(),
            final(self).source == old(self).source,
            final(self).chars == old(self).chars,
            final(self).start == old(self).start,
            final(self).index == if old(self).index + idx <= old(self).text().len() {
                old(self).index + idx
            } else {
                old(self).text().len() as int
            },
            r == (if final(self).index < final(self).text().len() {
                Some(final(self).text()[final(self).index as int])
            } else {
                None
            }),
    {
        if idx <= self.chars.len() - self.index {
            self.index = self.index + idx;
        } else {
            self.index = self.chars.len();
        }
        self.peek()
    }

    /// Whether every character has been read.
    pub fn is_ended(&self) -> (r: bool)
        requires
            self.wf(),
        ensures
            r == (self.index >= self.text().len()),
    {
        self.index >= self.chars.len()
    }

    /// The span of the token just read; the next token starts where it ends.
    pub fn span(&mut self) -> (r: (usize, usize))
        requires
            old(self).wf(),
        ensures
            final(self).wf(),
            r == (old(self).start, old(self).index),
            final(self).source == old(self).source,
            final(self).chars == old(self).chars,
            final(self).index == old(self).index,
            final(self).start == old(self).index,
    {
        let s = (self.start, self.index);
        self.start = self.index;
        s
    }

    /// The token of type `token_type` over the text just read.
    pub fn create_token(&mut self, token_type: TokenType) -> (r: Token<'a>)
        requires
            old(self).wf(),
        ensures
            final(self).wf(),
            r.token_type == token_type,
            r.span == (old(self).start, old(self).index),
            r.source == old(self).source,
            final(self).source == old(self).source,
            final(self).chars == old(self).chars,
            final(self).index == old(self).index,
            final(self).start == old(self).index,
    {
        Token { token_type, span: self.span(), source: self.source }
    }

    /// The text from offset `from` to offset `to`.
    fn lexeme(&self, from: usize, to: usize) -> (r: String)
        requires
            self.wf(),
            from <= to <= self.text().len(),
        ensures
            r@ == self.text().subrange(from as int, to as int),
    {
        String::from_str(self.source.substring_char(from, to))
    }

    /// Reads a string literal whose opening delimiter, `starting_char`, was just read, up to
    /// and including the closing one; returns the text between the two.
    pub fn string(&mut self, starting_char: char) -> (r: Result<String, LexError>)
        requires
            old(self).wf(),
            old(self).index == old(self).start + 1,
        ensures
            final(self).wf(),
            final(self).source == old(self).source,
            final(self).chars == old(self).chars,
            final(self).start == old(self).start,
            ({
                let s = old(self).text();
                let j = find(s, old(self).index as int, starting_char);
                if j >= s.len() {
                    r == Err::<String, LexError>(LexError::UnterminatedString)
                        && final(self).index == s.len()
                } else {
                    r is Ok && r->Ok_0@ == s.subrange(old(self).index as int, j)
                        && final(self).index == j + 1
                }
            }),
    {
        let ghost i0 = self.index as int;
        proof {
            lemma_find(self.text(), i0, starting_char);
        }
        while self.index < self.chars.len() && self.chars[self.index] != starting_char
            invariant
                self.wf(),
                self.source == old(self).source,
                self.chars == old(self).chars,
                self.start == old(self).start,
                i0 <= self.index,
                find(self.text(), i0, starting_char) == find(self.text(), self.index as int, starting_char),
            decreases self.text().len() - self.index,
        {
            self.next();
        }
        if self.is_ended() {
            return Err(LexError::UnterminatedString);
        }
        let value = self.lexeme(self.start + 1, self.index);
        // the closing delimiter
        self.next();
        Ok(value)
    }

    /// Advances over a run of numeric characters.
    fn numeric_run(&mut self)
        requires
            old(self).wf(),
        ensures
            final(self).wf(),
            final(self).source == old(self).source,
            final(self).chars == old(self).chars,
            final(self).start == old(self).start,
            final(self).index == numeric_run(old(self).text(), old(self).index as int),
    {
        while self.index < self.chars.len() && is_numeric(self.chars[self.index])
            invariant
                self.wf(),
                self.source == old(self).source,
                self.chars == old(self).chars,
                self.start == old(self).start,
                numeric_run(self.text(), old(self).index as int) == numeric_run(self.text(), self.index as int),
            decreases self.text().len() - self.index,
        {
            self.next();
        }
    }

    /// Reads the rest of a numeral whose first digit was just read; its text is returned when
    /// it reads as a decimal number.
    pub fn number(&mut self) -> (r: Result<String, LexError>)
        requires
            old(self).wf(),
            old(self).index == old(self).start + 1,
        ensures
            final(self).wf(),
            final(self).source == old(self).source,
            final(self).chars == old(self).chars,
            final(self).start == old(self).start,
            final(self).index == number_end(old(self).text(), old(self).start as int),
            ({
                let t = old(self).text().subrange(old(self).start as int, final(self).index as int);
                if is_decimal(t) {
                    r is Ok && r->Ok_0@ == t
                } else {
                    r == Err::<String, LexError>(LexError::InvalidNumber)
                }
            }),
    {
        proof {
            lemma_numeric_run(self.text(), self.index as int);
        }
        self.numeric_run();
        // a point belongs to the number only when a digit follows it
        if self.index < self.chars.len() && self.chars[self.index] == '.' {
            if let Some(v) = self.peek_nth(1) {
                if is_numeric(v) {
                    self.next();
                    self.next();
                    self.numeric_run();
                }
            }
        }
        let ghost scanned = *self;
        let mut k = self.start;
        while k < self.index
            invariant
                *self == scanned,
                self.wf(),
                self.source == old(self).source,
                self.chars == old(self).chars,
                self.start == old(self).start,
                self.index == number_end(old(self).text(), old(self).start as int),
                self.start <= k <= self.index,
                forall|m: int| self.start <= m < k ==> ('0' <= #[trigger] self.text()[m] <= '9' || self.text()[m] == '.'),
            decreases self.index - k,
        {
            let c = self.chars[k];
            if !(('0' <= c && c <= '9') || c == '.') {
                assert(self.text().subrange(self.start as int, self.index as int)[k - self.start]
                    == c);
                return Err(LexError::InvalidNumber);
            }
            k = k + 1;
        }
        assert(is_decimal(self.text().subrange(self.start as int, self.index as int)));
        Ok(self.lexeme(self.start, self.index))
    }

    /// Whether the character `n` places after the current one is `c`.
    fn ahead(&self, n: usize, c: char) -> (r: bool)
        requires
            self.wf(),
        ensures
            r == at(self.text(), self.index + n, c),
    {
        match self.peek_nth(n) {
            Some(d) => d == c,
            None => false,
        }
    }

    /// Whether the text read since `start` is `w`.
    fn read_is(&self, w: &str) -> (r: bool)
        requires
            self.wf(),
        ensures
            r == (self.text().subrange(self.start as int, self.index as int) == w@),
    {
        let n = w.unicode_len();
        if n != self.index - self.start {
            return false;
        }
        let mut k: usize = 0;
        while k < n
            invariant
                self.wf(),
                n == w@.len(),
                n == self.index - self.start,
                k <= n,
                forall|m: int| 0 <= m < k ==> self.text()[self.start + m] == w@[m],
            decreases n - k,
        {
            if self.chars[self.start + k] != w.get_char(k) {
                assert(self.text().subrange(self.start as int, self.index as int)[k as int] != w@[k as int]);
                return false;
            }
            k = k + 1;
        }
        assert(self.text().subrange(self.start as int, self.index as int) =~= w@);
        true
    }

    /// The keyword spelled by the text read since `start`, if any.
    fn reserved(&self) -> (r: Option<TokenType>)
        requires
            self.wf(),
        ensures
            match keyword(self.text().subrange(self.start as int, self.index as int)) {
                Some(k) => r is Some && r->Some_0@ == k,
                None => r is None,
            },
    {
        if self.read_is("and") {
            Some(TokenType::And)
        } else if self.read_is("or") {
            Some(TokenType::Or)
        } else if self.read_is("match") {
            Some(TokenType::Match)
        } else if self.read_is("enum") {
            Some(TokenType::Enum)
        } else if self.read_is("struct") {
            Some(TokenType::Struct)
        } else if self.read_is("let") {
            Some(TokenType::Let)
        } else if self.read_is("const") {
            Some(TokenType::Const)
        } else if self.read_is("false") {
            Some(TokenType::False)
        } else if self.read_is("true") {
            Some(TokenType::True)
        } else if self.read_is("fn") {
            Some(TokenType::Fn)
        } else if self.read_is("return") {
            Some(TokenType::Return)
        } else {
            None
        }
    }

    /// Reads the rest of an identifier whose first character was just read; a keyword's
    /// spelling gives the keyword.
    pub fn identifier(&mut self) -> (r: TokenType)
        requires
            old(self).wf(),
            old(self).index == old(self).start + 1,
        ensures
            final(self).wf(),
            final(self).source == old(self).source,
            final(self).chars == old(self).chars,
            final(self).start == old(self).start,
            final(self).index == ident_run(old(self).text(), old(self).index as int),
            r@ == word(old(self).text().subrange(old(self).start as int, final(self).index as int)),
    {
        while self.index < self.chars.len() && (is_alphabetic(self.chars[self.index])
            || self.chars[self.index] == '_')
            invariant
                self.wf(),
                self.source == old(self).source,
                self.chars == old(self).chars,
                self.start == old(self).start,
                ident_run(self.text(), old(self).index as int) == ident_run(self.text(), self.index as int),
            decreases self.text().len() - self.index,
        {
            self.next();
        }
        match self.reserved() {
            Some(k) => k,
            None => TokenType::Identifier(self.lexeme(self.start, self.index)),
        }
    }

    /// Reads a doc comment whose opening `///` was just read, up to its closing `///` or the
    /// end of its line, and returns the text in between.
    pub fn doc_comment(&mut self) -> (r: Result<String, LexError>)
        requires
            old(self).wf(),
            old(self).index == old(self).start + 3,
        ensures
            final(self).wf(),
            final(self).source == old(self).source,
            final(self).chars == old(self).chars,
            final(self).start == old(self).start,
            ({
                let s = old(self).text();
                let j = doc_end(s, old(self).index as int);
                if j >= s.len() {
                    r == Err::<String, LexError>(LexError::UnterminatedComment)
                        && final(self).index == s.len()
                } else {
                    r is Ok && r->Ok_0@ == s.subrange(old(self).index as int, j)
                        && final(self).index == (if s[j] == '\n' { j } else { j + 3 })
                }
            }),
    {
        let ghost i0 = self.index as int;
        proof {
            lemma_doc_end(self.text(), i0);
        }
        while self.index < self.chars.len() && self.chars[self.index] != '\n' && !(self.ahead(0, '/')
            && self.ahead(1, '/') && self.ahead(2, '/'))
            invariant
                self.wf(),
                self.source == old(self).source,
                self.chars == old(self).chars,
                self.start == old(self).start,
                i0 <= self.index,
                doc_end(self.text(), i0) == doc_end(self.text(), self.index as int),
            decreases self.text().len() - self.index,
        {
            self.next();
        }
        if self.is_ended() {
            return Err(LexError::UnterminatedComment);
        }
        let comment = self.lexeme(self.start + 3, self.index);
        if self.chars[self.index] != '\n' {
            self.next_nth(3);
        }
        Ok(comment)
    }

    /// Reads the rest of a line comment whose opening `//` was just read, up to the line break.
    fn comment(&mut self)
        requires
            old(self).wf(),
        ensures
            final(self).wf(),
            final(self).source == old(self).source,
            final(self).chars == old(self).chars,
            final(self).start == old(self).start,
            final(self).index == find(old(self).text(), old(self).index as int, '\n'),
    {
        while self.index < self.chars.len() && self.chars[self.index] != '\n'
            invariant
                self.wf(),
                self.source == old(self).source,
                self.chars == old(self).chars,
                self.start == old(self).start,
                find(self.text(), old(self).index as int, '\n') == find(self.text(), self.index as int, '\n'),
            decreases self.text().len() - self.index,
        {
            self.next();
        }
    }

    /// Reads the token that starts at the current character.
    pub fn scan(&mut self) -> (r: Result<TokenType, LexError>)
        requires
            old(self).wf(),
            old(self).start == old(self).index,
            old(self).index < old(self).text().len(),
        ensures
            final(self).wf(),
            final(self).source == old(self).source,
            final(self).chars == old(self).chars,
            final(self).start == old(self).start,
            match next_token(old(self).text(), old(self).index as int) {
                Ok((k, j)) => r is Ok && r->Ok_0@ == k && final(self).index == j,
                Err((e, j)) => r == Err::<TokenType, LexError>(e) && final(self).index == j,
            },
    {
        let c = self.chars[self.index];
        self.next();
        if c == '(' {
            Ok(TokenType::LParen)
        } else if c == ')' {
            Ok(TokenType::RParen)
        } else if c == '{' {
            Ok(TokenType::LBrace)
        } else if c == '}' {
            Ok(TokenType::RBrace)
        } else if c == ',' {
            Ok(TokenType::Comma)
        } else if c == '.' {
            Ok(TokenType::Period)
        } else if c == '+' {
            Ok(TokenType::Plus)
        } else if c == '-' {
            Ok(TokenType::Minus)
        } else if c == '*' {
            Ok(TokenType::Asterisk)
        } else if c == ';' {
            Ok(TokenType::Semicolon)
        } else if c == '/' {
            if self.ahead(0, '/') {
                if self.ahead(1, '/') {
                    self.next_nth(2);
                    match self.doc_comment() {
                        Ok(d) => Ok(TokenType::DocComment(d)),
                        Err(e) => Err(e),
                    }
                } else {
                    self.next();
                    self.comment();
                    Ok(TokenType::Comment)
                }
            } else {
                Ok(TokenType::Slash)
            }
        } else if c == '!' {
            if self.ahead(0, '=') {
                if self.ahead(1, '=') {
                    self.next_nth(2);
                    Ok(TokenType::NotStrictEqual)
                } else {
                    self.next();
                    Ok(TokenType::NotEqual)
                }
            } else {
                Ok(TokenType::Not)
            }
        } else if c == '=' {
            if self.ahead(0, '=') {
                if self.ahead(1, '=') {
                    self.next_nth(2);
                    Ok(TokenType::StrictComparisonEqual)
                } else {
                    self.next();
                    Ok(TokenType::ComparisonEqual)
                }
            } else {
                Ok(TokenType::Equal)
            }
        } else if c == '>' {
            if self.ahead(0, '=') {
                self.next();
                Ok(TokenType::GreaterThanEqualTo)
            } else {
                Ok(TokenType::Greater)
            }
        } else if c == '<' {
            if self.ahead(0, '=') {
                self.next();
                Ok(TokenType::LessThanEqualTo)
            } else {
                Ok(TokenType::Less)
            }
        } else if c == ' ' || c == '\t' || c == '\r' || c == '\n' {
            Ok(TokenType::Whitespace)
        } else if c == '"' || c == '`' {
            match self.string(c) {
                Ok(s) => Ok(TokenType::String(s)),
                Err(e) => Err(e),
            }
        } else if '0' <= c && c <= '9' {
            match self.number() {
                Ok(n) => Ok(TokenType::Number(n)),
                Err(e) => Err(e),
            }
        } else if ('a' <= c && c <= 'z') || ('A' <= c && c <= 'Z') || c == '_' {
            Ok(self.identifier())
        } else {
            Ok(TokenType::Unknown)
        }
    }

} // impl Lexer

/// What the lexer's output says of each token: its kind, start and end.
pub open spec fn lexemes(tokens: Seq<Token>) -> Seq<Lexeme> {
    tokens.map_values(|t: Token| (t.token_type@, t.span.0 as int, t.span.1 as int))
}

/// `r` is what lexing `src` gives: the tokens of `lex_from`, each read from `src`, or its
/// error located in `src`.
pub open spec fn lexes_to<'a>(src: &'a str, r: Result<Vec<Token<'a>>, ErrorMessage>) -> bool {
    match lex_from(src@, 0) {
        Ok(ts) => r is Ok && lexemes(r->Ok_0@) == ts && forall|k: int|
            0 <= k < r->Ok_0@.len() ==> (#[trigger] r->Ok_0@[k]).source == src,
        Err((e, a, b)) => r is Err && located(r->Err_0, src@, a, b - a, Error::LexError(e)),
    }
}

/// Splits `src` into tokens, ending with one end-of-input token, or reports the first
/// malformed literal or comment at its place in `src`.
pub fn tokenise(src: &str) -> (r: Result<Vec<Token<'_>>, ErrorMessage>)
    ensures
        lexes_to(src, r),
{
    let mut tokens: Vec<Token> = Vec::new();
    let mut lexer = Lexer::new(src);
    while !lexer.is_ended()
        invariant
            lexer.wf(),
            lexer.source == src,
            lexer.start == lexer.index,
            glue(lexemes(tokens@), lex_from(src@, lexer.index as int)) == lex_from(src@, 0),
            forall|k: int| 0 <= k < tokens@.len() ==> (#[trigger] tokens@[k]).source == src,
        decreases lexer.text().len() - lexer.index,
    {
        let here = lexer.index;
        proof {
            lemma_next_token_advances(src@, here as int);
        }
        match lexer.scan() {
            Ok(tt) => {
                let tok = lexer.create_token(tt);
                proof {
                    let ghost x = (tok.token_type@, here as int, lexer.index as int);
                    assert(lex_from(src@, here as int) == glue(seq![x], lex_from(src@, lexer.index as int)));
                    assert(lexemes(tokens@.push(tok)) =~= lexemes(tokens@).push(x));
                    match lex_from(src@, lexer.index as int) {
                        Ok(t) => {
                            assert(lexemes(tokens@) + (seq![x] + t) =~= lexemes(tokens@).push(x) + t);
                        },
                        Err(_) => {},
                    }
                }
                tokens.push(tok);
            },
            Err(e) => {
                let len = lexer.index - here;
                return Err(ErrorMessage::at(src, &lexer.chars, here, len, Error::LexError(e)));
            },
        }
    }
    let end = lexer.create_token(TokenType::EOI);
    proof {
        assert(lexemes(tokens@.push(end)) =~= lexemes(tokens@) + seq![(Kind::EOI, src@.len() as int, src@.len() as int)]);
    }
    tokens.push(end);
    Ok(tokens)
}

} // verus!

verus! {

/// Lexing the same text twice gives the same tokens, or the same diagnostic.
pub proof fn lemma_tokenise_deterministic<'a>(
    src: &'a str,
    r1: Result<Vec<Token<'a>>, ErrorMessage>,
    r2: Result<Vec<Token<'a>>, ErrorMessage>,
)
    requires
        lexes_to(src, r1),
        lexes_to(src, r2),
    ensures
        r1 is Ok <==> r2 is Ok,
        r1 is Ok ==> lexemes(r1->Ok_0@) == lexemes(r2->Ok_0@),
        r1 is Err ==> same_diagnostic(r1->Err_0, r2->Err_0),
{
}

/// An error of the lexer blames text that lies within the source, from where it starts.
pub proof fn lemma_lex_error_in_source(s: Seq<char>, i: int)
    requires
        0 <= i <= s.len(),
    ensures
        lex_from(s, i) is Err ==> i <= lex_from(s, i)->Err_0.1 < lex_from(s, i)->Err_0.2 <= s.len(),
    decreases s.len() - i,
{
    if i < s.len() {
        lemma_next_token_advances(s, i);
        match next_token(s, i) {
            Ok((_, j)) => {
                lemma_lex_error_in_source(s, j);
            },
            Err(_) => {},
        }
    }
}

/// A diagnostic of the lexer points into the source: at a line that exists, at a column
/// within the line it quotes, and at the offending character there.
pub proof fn lemma_tokenise_error_in_source<'a>(src: &'a str, r: Result<Vec<Token<'a>>, ErrorMessage>)
    requires
        lexes_to(src, r),
        r is Err,
    ensures
        r->Err_0.line <= line_of(src@, src@.len() as int),
        r->Err_0.column <= r->Err_0.source_text@.len(),
        exists|off: int|
            0 <= off < src@.len() && located(r->Err_0, src@, off, r->Err_0.len as int, r->Err_0.message)
                && (src@[off] != '\n' ==> r->Err_0.source_text@[r->Err_0.column as int] == src@[off]),
{
    lemma_lex_error_in_source(src@, 0);
    let (e, a, b) = lex_from(src@, 0)->Err_0;
    lemma_diagnostic_in_source(r->Err_0, src@, a, b - a, Error::LexError(e));
}

/// The spelling of a punctuation or operator token; empty for the other kinds.
pub open spec fn spelling(k: Kind) -> Seq<char> {
    match k {
        Kind::LParen => seq!['('],
        Kind::RParen => seq![')'],
        Kind::LBrace => seq!['{'],
        Kind::RBrace => seq!['}'],
        Kind::Comma => seq![','],
        Kind::Period => seq!['.'],
        Kind::Plus => seq!['+'],
        Kind::Minus => seq!['-'],
        Kind::Asterisk => seq!['*'],
        Kind::Slash => seq!['/'],
        Kind::Semicolon => seq![';'],
        Kind::NotEqual => seq!['!', '='],
        Kind::NotStrictEqual => seq!['!', '=', '='],
        Kind::ComparisonEqual => seq!['=', '='],
        Kind::Equal => seq!['='],
        Kind::StrictComparisonEqual => seq!['=', '=', '='],
        Kind::Greater => seq!['>'],
        Kind::GreaterThanEqualTo => seq!['>', '='],
        Kind::Less => seq!['<'],
        Kind::LessThanEqualTo => seq!['<', '='],
        Kind::Not => seq!['!'],
        _ => seq![],
    }
}

/// `s` holds `w` from offset `i` on.
pub open spec fn spells(s: Seq<char>, i: int, w: Seq<char>) -> bool {
    0 <= i && i + w.len() <= s.len() && s.subrange(i, i + w.len()) == w
}

proof fn lemma_spells(s: Seq<char>, i: int, w: Seq<char>)
    ensures
        spells(s, i, w) <==> (0 <= i && i + w.len() <= s.len() && forall|m: int|
            0 <= m < w.len() ==> s[i + m] == w[m]),
{
    if 0 <= i && i + w.len() <= s.len() {
        if forall|m: int| 0 <= m < w.len() ==> s[i + m] == w[m] {
            assert(s.subrange(i, i + w.len()) =~= w);
        }
        if spells(s, i, w) {
            assert forall|m: int| 0 <= m < w.len() implies s[i + m] == w[m] by {
                assert(s.subrange(i, i + w.len())[m] == w[m]);
            }
        }
    }
}

/// Where an operator or punctuation mark is spelled, and no comment starts, the lexer reads
/// an operator spelled there that is at least as long as any other spelled there.
pub proof fn lemma_longest_match(s: Seq<char>, i: int, k: Kind)
    requires
        0 <= i < s.len(),
        spelling(k).len() > 0,
        spells(s, i, spelling(k)),
        !(at(s, i, '/') && at(s, i + 1, '/')),
    ensures
        next_token(s, i) is Ok,
        spelling(next_token(s, i)->Ok_0.0).len() > 0,
        spells(s, i, spelling(next_token(s, i)->Ok_0.0)),
        next_token(s, i)->Ok_0.1 == i + spelling(next_token(s, i)->Ok_0.0).len(),
        spelling(k).len() <= spelling(next_token(s, i)->Ok_0.0).len(),
{
    lemma_spells(s, i, spelling(k));
    assert(s[i] == spelling(k)[0]);
    let t = next_token(s, i)->Ok_0.0;
    lemma_spells(s, i, spelling(t));
}

/// Each token of `lex_from(s, i)` but the last is the token that `next_token` reads where it
/// starts; the last is the end of input; all lie in order within `i..s.len()`.
pub proof fn lemma_lex_from_tokens(s: Seq<char>, i: int)
    requires
        0 <= i <= s.len(),
        lex_from(s, i) is Ok,
    ensures
        ({
            let ts = lex_from(s, i)->Ok_0;
            &&& ts.len() >= 1
            &&& ts.last() == (Kind::EOI, s.len() as int, s.len() as int)
            &&& forall|m: int|
                0 <= m < ts.len() ==> i <= (#[trigger] ts[m]).1 <= ts[m].2 <= s.len()
            &&& forall|m: int|
                0 <= m < ts.len() - 1 ==> (#[trigger] ts[m]).1 < s.len() && next_token(s, ts[m].1)
                    == Ok::<(Kind, int), (LexError, int)>((ts[m].0, ts[m].2))
        }),
    decreases s.len() - i,
{
    if i < s.len() {
        lemma_next_token_advances(s, i);
        let (k, j) = next_token(s, i)->Ok_0;
        lemma_lex_from_tokens(s, j);
        let rest = lex_from(s, j)->Ok_0;
        let ts = lex_from(s, i)->Ok_0;
        assert(ts == seq![(k, i, j)] + rest);
        assert forall|m: int| 0 <= m < ts.len() implies i <= (#[trigger] ts[m]).1 <= ts[m].2 <= s.len() by {
            if m > 0 {
                assert(ts[m] == rest[m - 1]);
            }
        }
        assert forall|m: int| 0 <= m < ts.len() - 1 implies (#[trigger] ts[m]).1 < s.len() && next_token(s, ts[m].1)
            == Ok::<(Kind, int), (LexError, int)>((ts[m].0, ts[m].2)) by {
            if m > 0 {
                assert(ts[m] == rest[m - 1]);
            }
        }
    }
}

/// In the output of `tokenise`, a token that starts where an operator or punctuation mark is
/// spelled, and no comment starts, is an operator spelled there, and at least as long as any
/// other spelled there.
pub proof fn lemma_tokenise_longest_match<'a>(src: &'a str, toks: Vec<Token<'a>>, m: int, k: Kind)
    requires
        lexes_to(src, Ok(toks)),
        0 <= m < toks@.len(),
        spelling(k).len() > 0,
        spells(src@, toks@[m].span.0 as int, spelling(k)),
        !(at(src@, toks@[m].span.0 as int, '/') && at(src@, toks@[m].span.0 + 1, '/')),
    ensures
        ({
            let t = toks@[m];
            &&& spelling(t.token_type@).len() > 0
            &&& spells(src@, t.span.0 as int, spelling(t.token_type@))
            &&& t.span.1 == t.span.0 + spelling(t.token_type@).len()
            &&& spelling(k).len() <= spelling(t.token_type@).len()
        }),
{
    let s = src@;
    lemma_lex_from_tokens(s, 0);
    let ts = lex_from(s, 0)->Ok_0;
    assert(ts[m] == (toks@[m].token_type@, toks@[m].span.0 as int, toks@[m].span.1 as int));
    if m == ts.len() - 1 {
        assert(ts[m] == ts.last());
    } else {
        lemma_longest_match(s, toks@[m].span.0 as int, k);
    }
}

} // verus!
