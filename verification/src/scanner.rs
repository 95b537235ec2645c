//! The scanner: source text to tokens.
//!
//! `scan_from` says, as a function of the characters alone, which tokens and
//! which reports a source gives; `Scanner` computes exactly that.
use vstd::prelude::*;
use vstd::string::*;
use crate::loxerr::{error, report_text};
use crate::text::{append_chars, chars_of, push_char, spells, texts};
use crate::token::{token_models, Token, TokenModel, TokenType};

verus! {

/// Whether `c` is a decimal digit.
pub open spec fn digit(c: char) -> bool {
    c >= '0' && c <= '9'
}

/// Whether `c` is a letter of the English alphabet or an underscore.
pub open spec fn alpha(c: char) -> bool {
    (c >= 'a' && c <= 'z') || (c >= 'A' && c <= 'Z') || c == '_'
}

/// Whether `c` may stand inside a word.
pub open spec fn alpha_numeric(c: char) -> bool {
    alpha(c) || digit(c)
}

/// The kind of the word `lexeme`: a keyword's kind, or `Identifier`.
pub open spec fn keyword(lexeme: Seq<char>) -> TokenType {
    if lexeme == "and"@ {
        TokenType::And
    } else if lexeme == "class"@ {
        TokenType::Class
    } else if lexeme == "else"@ {
        TokenType::Else
    } else if lexeme == "false"@ {
        TokenType::False
    } else if lexeme == "for"@ {
        TokenType::For
    } else if lexeme == "fun"@ {
        TokenType::Fun
    } else if lexeme == "if"@ {
        TokenType::If
    } else if lexeme == "nil"@ {
        TokenType::Nil
    } else if lexeme == "or"@ {
        TokenType::Or
    } else if lexeme == "print"@ {
        TokenType::Print
    } else if lexeme == "return"@ {
        TokenType::Return
    } else if lexeme == "super"@ {
        TokenType::Super
    } else if lexeme == "this"@ {
        TokenType::This
    } else if lexeme == "true"@ {
        TokenType::True
    } else if lexeme == "var"@ {
        TokenType::Var
    } else if lexeme == "while"@ {
        TokenType::While
    } else {
        TokenType::Identifier
    }
}

/// How many digits stand at `s[from..]` before the first other character.
pub open spec fn digit_run(s: Seq<char>, from: int) -> nat
    decreases s.len() - from,
{
    if 0 <= from < s.len() && digit(s[from]) {
        1 + digit_run(s, from + 1)
    } else {
        0
    }
}

/// How many letters, digits and underscores stand at `s[from..]` before the
/// first other character.
pub open spec fn word_run(s: Seq<char>, from: int) -> nat
    decreases s.len() - from,
{
    if 0 <= from < s.len() && alpha_numeric(s[from]) {
        1 + word_run(s, from + 1)
    } else {
        0
    }
}

/// How many characters stand at `s[from..]` before the first `stop`, or
/// before the end where there is none.
pub open spec fn run_until(s: Seq<char>, from: int, stop: char) -> nat
    decreases s.len() - from,
{
    if 0 <= from < s.len() && s[from] != stop {
        1 + run_until(s, from + 1, stop)
    } else {
        0
    }
}

/// How many line feeds stand in `s[from..to]`.
pub open spec fn newlines(s: Seq<char>, from: int, to: int) -> nat
    decreases to - from,
{
    if from < to <= s.len() && 0 <= from {
        newlines(s, from, to - 1) + if s[to - 1] == '\n' {
            1nat
        } else {
            0nat
        }
    } else {
        0
    }
}

/// What one scanning step does at a position: how far it reaches beyond the
/// first character, the line it ends on, and what it emits.
pub struct ScanStep {
    pub extra: nat,
    pub line: nat,
    pub tokens: Seq<TokenModel>,
    pub errors: Seq<Seq<char>>,
}

/// The tokens and the reports of a scan, in source order.
pub struct Scan {
    pub tokens: Seq<TokenModel>,
    pub errors: Seq<Seq<char>>,
}

/// The one token of `kind` whose lexeme is `s[from..to]`.
pub open spec fn emit(kind: TokenType, s: Seq<char>, from: int, to: int, line: nat) -> Seq<
    TokenModel,
> {
    seq![TokenModel { token_type: kind, lexeme: s.subrange(from, to), line }]
}

/// A one-character operator, or its two-character form where `=` follows.
pub open spec fn operator_step(
    s: Seq<char>,
    pos: int,
    line: nat,
    single: TokenType,
    double: TokenType,
) -> ScanStep {
    if pos + 1 < s.len() && s[pos + 1] == '=' {
        ScanStep { extra: 1, line, tokens: emit(double, s, pos, pos + 2, line), errors: seq![] }
    } else {
        ScanStep { extra: 0, line, tokens: emit(single, s, pos, pos + 1, line), errors: seq![] }
    }
}

/// A token of one character.
pub open spec fn punctuation_step(s: Seq<char>, pos: int, line: nat, kind: TokenType) -> ScanStep {
    ScanStep { extra: 0, line, tokens: emit(kind, s, pos, pos + 1, line), errors: seq![] }
}

/// A string literal that opens at `pos`: it runs to the next `"`; its lexeme
/// is the text between the quotes, its line the one it closes on. Without a
/// closing quote it is reported and gives no token.
pub open spec fn string_step(s: Seq<char>, pos: int, line: nat) -> ScanStep {
    let body = run_until(s, pos + 1, '"');
    let close = pos + 1 + body;
    let last = line + newlines(s, pos + 1, close);
    if close >= s.len() {
        ScanStep {
            extra: body,
            line: last,
            tokens: seq![],
            errors: seq![report_text(last, seq![], "Unterminated string."@)],
        }
    } else {
        ScanStep {
            extra: body + 1,
            line: last,
            tokens: emit(TokenType::StringLiteral, s, pos + 1, close, last),
            errors: seq![],
        }
    }
}

/// A number that starts at `pos`: digits, then a fraction where a `.` is
/// followed by at least one digit.
pub open spec fn number_step(s: Seq<char>, pos: int, line: nat) -> ScanStep {
    let whole = digit_run(s, pos + 1);
    let dot = pos + 1 + whole;
    let fraction = if dot + 1 < s.len() && s[dot] == '.' && digit(s[dot + 1]) {
        1 + digit_run(s, dot + 1)
    } else {
        0
    };
    ScanStep {
        extra: whole + fraction,
        line,
        tokens: emit(TokenType::Number, s, pos, dot + fraction, line),
        errors: seq![],
    }
}

/// A word that starts at `pos`: a keyword or an identifier.
pub open spec fn word_step(s: Seq<char>, pos: int, line: nat) -> ScanStep {
    let rest = word_run(s, pos + 1);
    let lexeme = s.subrange(pos, pos + 1 + rest);
    ScanStep {
        extra: rest,
        line,
        tokens: seq![TokenModel { token_type: keyword(lexeme), lexeme, line }],
        errors: seq![],
    }
}

/// The scanning step at `pos`, a position inside `s`.
pub open spec fn scan_one(s: Seq<char>, pos: int, line: nat) -> ScanStep {
    let c = s[pos];
    let silent = ScanStep { extra: 0, line, tokens: seq![], errors: seq![] };
    if c == '{' {
        punctuation_step(s, pos, line, TokenType::LeftBrace)
    } else if c == '}' {
        punctuation_step(s, pos, line, TokenType::RightBrace)
    } else if c == '(' {
        punctuation_step(s, pos, line, TokenType::LeftParen)
    } else if c == ')' {
        punctuation_step(s, pos, line, TokenType::RightParen)
    } else if c == ',' {
        punctuation_step(s, pos, line, TokenType::Comma)
    } else if c == '.' {
        punctuation_step(s, pos, line, TokenType::Dot)
    } else if c == '-' {
        punctuation_step(s, pos, line, TokenType::Minus)
    } else if c == '+' {
        punctuation_step(s, pos, line, TokenType::Plus)
    } else if c == ';' {
        punctuation_step(s, pos, line, TokenType::Semicolon)
    } else if c == '*' {
        punctuation_step(s, pos, line, TokenType::Star)
    } else if c == '<' {
        operator_step(s, pos, line, TokenType::Less, TokenType::LessEqual)
    } else if c == '!' {
        operator_step(s, pos, line, TokenType::Bang, TokenType::BangEqual)
    } else if c == '>' {
        operator_step(s, pos, line, TokenType::Greater, TokenType::GreaterEqual)
    } else if c == '=' {
        operator_step(s, pos, line, TokenType::Equal, TokenType::EqualEqual)
    } else if c == '/' {
        if pos + 1 < s.len() && s[pos + 1] == '/' {
            ScanStep { extra: 1 + run_until(s, pos + 2, '\n'), ..silent }
        } else {
            punctuation_step(s, pos, line, TokenType::Slash)
        }
    } else if c == '\t' || c == '\r' || c == ' ' {
        silent
    } else if c == '\n' {
        ScanStep { line: line + 1, ..silent }
    } else if c == '"' {
        string_step(s, pos, line)
    } else if digit(c) {
        number_step(s, pos, line)
    } else if alpha(c) {
        word_step(s, pos, line)
    } else {
        ScanStep {
            errors: seq![report_text(line, seq![], "Unexpected character "@.push(c))],
            ..silent
        }
    }
}

/// What scanning `s` from `pos` on gives, `line` being the line of `pos`:
/// the tokens of every step, then `Eof` on the last line.
pub open spec fn scan_from(s: Seq<char>, pos: int, line: nat) -> Scan
    decreases
            if pos <= s.len() {
                s.len() - pos
            } else {
                0
            },
{
    if 0 <= pos < s.len() {
        let step = scan_one(s, pos, line);
        let rest = scan_from(s, pos + 1 + step.extra, step.line);
        Scan { tokens: step.tokens + rest.tokens, errors: step.errors + rest.errors }
    } else {
        Scan {
            tokens: seq![TokenModel { token_type: TokenType::Eof, lexeme: seq![], line }],
            errors: seq![],
        }
    }
}

/// What scanning the whole of `s` gives.
pub open spec fn scan(s: Seq<char>) -> Scan {
    scan_from(s, 0, 1)
}



/// Whether `c` is a decimal digit.
pub fn is_digit(c: char) -> (r: bool)
    ensures
        r == digit(c),
{
    c >= '0' && c <= '9'
}

/// Whether `c` is a letter of the English alphabet or an underscore.
pub fn is_alpha(c: char) -> (r: bool)
    ensures
        r == alpha(c),
{
    (c >= 'a' && c <= 'z') || (c >= 'A' && c <= 'Z') || c == '_'
}

/// Whether `c` may stand inside a word.
pub fn is_alpha_numeric(c: char) -> (r: bool)
    ensures
        r == alpha_numeric(c),
{
    is_alpha(c) || is_digit(c)
}

/// The kind of the word `lexeme`: a keyword's kind, or `Identifier`.
pub fn keyword_or_identifier(lexeme: &str) -> (r: TokenType)
    ensures
        r == keyword(lexeme@),
{
    let word = chars_of(lexeme);
    if spells(&word, "and") {
        TokenType::And
    } else if spells(&word, "class") {
        TokenType::Class
    } else if spells(&word, "else") {
        TokenType::Else
    } else if spells(&word, "false") {
        TokenType::False
    } else if spells(&word, "for") {
        TokenType::For
    } else if spells(&word, "fun") {
        TokenType::Fun
    } else if spells(&word, "if") {
        TokenType::If
    } else if spells(&word, "nil") {
        TokenType::Nil
    } else if spells(&word, "or") {
        TokenType::Or
    } else if spells(&word, "print") {
        TokenType::Print
    } else if spells(&word, "return") {
        TokenType::Return
    } else if spells(&word, "super") {
        TokenType::Super
    } else if spells(&word, "this") {
        TokenType::This
    } else if spells(&word, "true") {
        TokenType::True
    } else if spells(&word, "var") {
        TokenType::Var
    } else if spells(&word, "while") {
        TokenType::While
    } else {
        TokenType::Identifier
    }
}

/// A scan in progress over one source text.
pub struct Scanner {
    chars: Vec<char>,
    current: usize,
    start: usize,
    line: usize,
    tokens: Vec<Token>,
    errors: Vec<String>,
    has_error: bool,
}

impl Scanner {
    /// The characters of the source.
    pub closed spec fn source(&self) -> Seq<char> {
        self.chars@
    }

    /// How many characters have been consumed.
    pub closed spec fn position(&self) -> int {
        self.current as int
    }

    /// The line of the next character.
    pub closed spec fn line(&self) -> nat {
        self.line as nat
    }

    /// The tokens emitted so far.
    pub closed spec fn emitted(&self) -> Seq<TokenModel> {
        token_models(self.tokens@)
    }

    /// The reports made so far.
    pub closed spec fn reports(&self) -> Seq<Seq<char>> {
        texts(self.errors@)
    }

    /// Whether any report was made.
    pub closed spec fn failed(&self) -> bool {
        self.has_error
    }

    /// What holds of a scanner between steps: the position is inside the
    /// source or at its end, and no line was counted without a character.
    pub closed spec fn wf(&self) -> bool {
        &&& self.start <= self.current <= self.chars@.len()
        &&& self.chars@.len() < usize::MAX
        &&& 1 <= self.line <= self.current + 1
    }

    /// The state after `step`, taken at the position of `before`.
    pub open spec fn advanced_by(&self, before: &Scanner, pos: int, step: ScanStep) -> bool {
        &&& self.wf()
        &&& self.source() == before.source()
        &&& self.position() == pos + 1 + step.extra
        &&& self.line() == step.line
        &&& self.emitted() == before.emitted() + step.tokens
        &&& self.reports() == before.reports() + step.errors
        &&& self.failed() == (before.failed() || step.errors.len() > 0)
    }

    /// Whether any report was made.
    pub fn has_error(&self) -> (r: bool)
        ensures
            r == self.failed(),
    {
        self.has_error
    }

    /// The reports made so far, in order.
    pub fn errors(&self) -> (r: &Vec<String>)
        ensures
            texts(r@) == self.reports(),
    {
        &self.errors
    }

    /// Hands out the reports made so far and keeps none.
    pub fn take_errors(&mut self) -> (r: Vec<String>)
        ensures
            texts(r@) == old(self).reports(),
            final(self).reports() == Seq::<Seq<char>>::empty(),
            final(self).source() == old(self).source(),
            final(self).emitted() == old(self).emitted(),
            final(self).failed() == old(self).failed(),
    {
        let mut taken: Vec<String> = Vec::new();
        std::mem::swap(&mut taken, &mut self.errors);
        assert(texts(self.errors@) =~= Seq::<Seq<char>>::empty());
        taken
    }

    /// A scanner at the start of `source`, on line 1.
    pub fn new(source: &str) -> (r: Scanner)
        requires
            source@.len() < usize::MAX,
        ensures
            r.wf(),
            r.source() == source@,
            r.position() == 0,
            r.line() == 1,
            r.emitted() == Seq::<TokenModel>::empty(),
            r.reports() == Seq::<Seq<char>>::empty(),
            !r.failed(),
    {
        let r = Scanner {
            chars: chars_of(source),
            current: 0,
            start: 0,
            line: 1,
            tokens: Vec::new(),
            errors: Vec::new(),
            has_error: false,
        };
        assert(r.emitted() =~= Seq::<TokenModel>::empty());
        assert(r.reports() =~= Seq::<Seq<char>>::empty());
        r
    }

    /// Scans what is left of the source and returns every token emitted,
    /// the last of them `Eof`.
    pub fn scan_tokens(&mut self) -> (r: &Vec<Token>)
        requires
            old(self).wf(),
        ensures
            final(self).wf(),
            final(self).source() == old(self).source(),
            final(self).position() == if old(self).position() <= old(self).source().len() {
                old(self).source().len() as int
            } else {
                old(self).position()
            },
            final(self).emitted() == old(self).emitted() + scan_from(
                old(self).source(),
                old(self).position(),
                old(self).line(),
            ).tokens,
            final(self).reports() == old(self).reports() + scan_from(
                old(self).source(),
                old(self).position(),
                old(self).line(),
            ).errors,
            final(self).failed() == (old(self).failed() || scan_from(
                old(self).source(),
                old(self).position(),
                old(self).line(),
            ).errors.len() > 0),
            token_models(r@) == final(self).emitted(),
    {
        let ghost goal = scan_from(old(self).source(), old(self).position(), old(self).line());
        while !self.is_at_end()
            invariant
                self.wf(),
                self.source() == old(self).source(),
                old(self).emitted() + goal.tokens == self.emitted() + scan_from(
                    self.source(),
                    self.position(),
                    self.line(),
                ).tokens,
                texts(old(self).errors@) + goal.errors == texts(self.errors@) + scan_from(
                    self.source(),
                    self.position(),
                    self.line(),
                ).errors,
                (old(self).has_error || goal.errors.len() > 0) == (self.has_error || scan_from(
                    self.source(),
                    self.position(),
                    self.line(),
                ).errors.len() > 0),
            decreases self.chars@.len() - self.current,
        {
            let ghost before = *self;
            let ghost step = scan_one(self.source(), self.position(), self.line());
            let ghost rest = scan_from(self.source(), self.position() + 1 + step.extra, step.line);
            self.start = self.current;
            self.scan_token();
            proof {
                assert(before.emitted() + (step.tokens + rest.tokens) =~= (before.emitted()
                    + step.tokens) + rest.tokens);
                assert(texts(before.errors@) + (step.errors + rest.errors) =~= (texts(
                    before.errors@,
                ) + step.errors) + rest.errors);
            }
        }
        let ghost before = *self;
        self.tokens.push(Token::new(TokenType::Eof, "", self.line));
        proof {
            reveal_strlit("");
            assert(""@ =~= Seq::<char>::empty());
            assert(self.emitted() =~= before.emitted() + scan_from(
                before.source(),
                before.position(),
                before.line(),
            ).tokens);
            assert(texts(self.errors@) + Seq::<Seq<char>>::empty() =~= texts(self.errors@));
        }
        &self.tokens
    }

    fn is_at_end(&self) -> (r: bool)
        ensures
            r == (self.current >= self.chars@.len()),
    {
        self.current >= self.chars.len()
    }

    fn advance(&mut self) -> (c: char)
        requires
            old(self).current < old(self).chars@.len(),
        ensures
            c == old(self).chars@[old(self).current as int],
            *final(self) == (Scanner { current: (old(self).current + 1) as usize, ..*old(self) }),
    {
        let end = self.chars.len();
        let c = self.chars[self.current];
        assert(self.current < end);
        self.current += 1;
        c
    }

    fn is_match(&mut self, expected: char) -> (r: bool)
        ensures
            r == (old(self).current < old(self).chars@.len() && old(self).chars@[old(
                self,
            ).current as int] == expected),
            *final(self) == if r {
                Scanner { current: (old(self).current + 1) as usize, ..*old(self) }
            } else {
                *old(self)
            },
    {
        if self.is_at_end() || self.chars[self.current] != expected {
            false
        } else {
            self.advance();
            true
        }
    }

    fn peek(&self) -> (c: char)
        ensures
            c == if self.current < self.chars@.len() {
                self.chars@[self.current as int]
            } else {
                '\0'
            },
    {
        if self.is_at_end() {
            '\0'
        } else {
            self.chars[self.current]
        }
    }

    fn peek_next(&self) -> (c: char)
        ensures
            c == if self.current + 1 < self.chars@.len() {
                self.chars@[self.current + 1]
            } else {
                '\0'
            },
    {
        if self.chars.len() == 0 || self.current >= self.chars.len() - 1 {
            '\0'
        } else {
            self.chars[self.current + 1]
        }
    }

    /// Emits a token of `kind` whose lexeme is `chars[from..to]`.
    fn add_token(&mut self, kind: TokenType, from: usize, to: usize)
        requires
            from <= to <= old(self).chars@.len(),
        ensures
            final(self).emitted() == old(self).emitted() + emit(
                kind,
                old(self).source(),
                from as int,
                to as int,
                old(self).line(),
            ),
            *final(self) == (Scanner { tokens: final(self).tokens, ..*old(self) }),
    {
        let mut lexeme = String::new();
        append_chars(&mut lexeme, &self.chars, from, to);
        let t = Token { token_type: kind, lexeme, line: self.line };
        self.tokens.push(t);
        assert(self.emitted() =~= old(self).emitted() + emit(
            kind,
            old(self).source(),
            from as int,
            to as int,
            old(self).line(),
        ));
    }

    fn error(&mut self, msg: &str)
        ensures
            texts(final(self).errors@) == texts(old(self).errors@) + seq![
                report_text(old(self).line(), seq![], msg@),
            ],
            final(self).has_error,
            *final(self) == (Scanner {
                errors: final(self).errors,
                has_error: true,
                ..*old(self)
            }),
    {
        self.errors.push(error(self.line, msg));
        self.has_error = true;
        assert(texts(self.errors@) =~= texts(old(self).errors@) + seq![
            report_text(old(self).line(), seq![], msg@),
        ]);
    }

    /// Takes one step at the current position, which is inside the source.
    fn scan_token(&mut self)
        requires
            old(self).wf(),
            old(self).current < old(self).chars@.len(),
            old(self).start == old(self).current,
        ensures
            final(self).advanced_by(
                old(self),
                old(self).position(),
                scan_one(old(self).source(), old(self).position(), old(self).line()),
            ),
    {
        let ghost s = self.chars@;
        let ghost pos = self.current as int;
        let c = self.advance();
        if c == '{' {
            self.add_token(TokenType::LeftBrace, self.start, self.current);
        } else if c == '}' {
            self.add_token(TokenType::RightBrace, self.start, self.current);
        } else if c == '(' {
            self.add_token(TokenType::LeftParen, self.start, self.current);
        } else if c == ')' {
            self.add_token(TokenType::RightParen, self.start, self.current);
        } else if c == ',' {
            self.add_token(TokenType::Comma, self.start, self.current);
        } else if c == '.' {
            self.add_token(TokenType::Dot, self.start, self.current);
        } else if c == '-' {
            self.add_token(TokenType::Minus, self.start, self.current);
        } else if c == '+' {
            self.add_token(TokenType::Plus, self.start, self.current);
        } else if c == ';' {
            self.add_token(TokenType::Semicolon, self.start, self.current);
        } else if c == '*' {
            self.add_token(TokenType::Star, self.start, self.current);
        } else if c == '<' {
            let kind = if self.is_match('=') {
                TokenType::LessEqual
            } else {
                TokenType::Less
            };
            self.add_token(kind, self.start, self.current);
        } else if c == '!' {
            let kind = if self.is_match('=') {
                TokenType::BangEqual
            } else {
                TokenType::Bang
            };
            self.add_token(kind, self.start, self.current);
        } else if c == '>' {
            let kind = if self.is_match('=') {
                TokenType::GreaterEqual
            } else {
                TokenType::Greater
            };
            self.add_token(kind, self.start, self.current);
        } else if c == '=' {
            let kind = if self.is_match('=') {
                TokenType::EqualEqual
            } else {
                TokenType::Equal
            };
            self.add_token(kind, self.start, self.current);
        } else if c == '/' {
            if self.is_match('/') {
                while self.peek() != '\n' && !self.is_at_end()
                    invariant
                        self.wf(),
                        s == self.chars@,
                        pos + 2 <= self.current <= s.len(),
                        *self == (Scanner { current: self.current, ..*old(self) }),
                        run_until(s, pos + 2, '\n') == (self.current - (pos + 2)) + run_until(
                            s,
                            self.current as int,
                            '\n',
                        ),
                    decreases s.len() - self.current,
                {
                    self.advance();
                }
                assert(self.emitted() + Seq::<TokenModel>::empty() =~= self.emitted());
                assert(texts(self.errors@) + Seq::<Seq<char>>::empty() =~= texts(self.errors@));
            } else {
                self.add_token(TokenType::Slash, self.start, self.current);
            }
        } else if c == '\t' || c == '\r' || c == ' ' {
            assert(self.emitted() + Seq::<TokenModel>::empty() =~= self.emitted());
            assert(texts(self.errors@) + Seq::<Seq<char>>::empty() =~= texts(self.errors@));
        } else if c == '\n' {
            self.line += 1;
            assert(self.emitted() + Seq::<TokenModel>::empty() =~= self.emitted());
            assert(texts(self.errors@) + Seq::<Seq<char>>::empty() =~= texts(self.errors@));
        } else if c == '"' {
            self.string();
        } else if is_digit(c) {
            self.number();
        } else if is_alpha(c) {
            self.identifier();
        } else {
            let mut msg = String::from_str("Unexpected character ");
            push_char(&mut msg, c);
            self.error(msg.as_str());
            assert(self.emitted() + Seq::<TokenModel>::empty() =~= self.emitted());
        }
        proof {
            assert(texts(self.errors@) + Seq::<Seq<char>>::empty() =~= texts(self.errors@));
        }
    }

    /// Scans a string literal whose opening quote was just consumed.
    fn string(&mut self)
        requires
            old(self).wf(),
            old(self).start + 1 == old(self).current,
            old(self).chars@[old(self).start as int] == '"',
        ensures
            final(self).advanced_by(
                old(self),
                old(self).start as int,
                string_step(old(self).source(), old(self).start as int, old(self).line()),
            ),
    {
        let ghost s = self.chars@;
        let ghost pos = self.start as int;
        while self.peek() != '"' && !self.is_at_end()
            invariant
                self.wf(),
                s == self.chars@,
                pos + 1 <= self.current <= s.len(),
                *self == (Scanner { current: self.current, line: self.line, ..*old(self) }),
                run_until(s, pos + 1, '"') == (self.current - (pos + 1)) + run_until(
                    s,
                    self.current as int,
                    '"',
                ),
                self.line == old(self).line + newlines(s, pos + 1, self.current as int),
            decreases s.len() - self.current,
        {
            if self.peek() == '\n' {
                self.line += 1;
            }
            self.advance();
        }

        if self.is_at_end() {
            self.error("Unterminated string.");
            assert(self.emitted() + Seq::<TokenModel>::empty() =~= self.emitted());
            return ;
        }
        self.advance();
        self.add_token(TokenType::StringLiteral, self.start + 1, self.current - 1);
        assert(texts(self.errors@) + Seq::<Seq<char>>::empty() =~= texts(self.errors@));
    }

    /// Scans a number whose first digit was just consumed.
    fn number(&mut self)
        requires
            old(self).wf(),
            old(self).start + 1 == old(self).current,
        ensures
            final(self).advanced_by(
                old(self),
                old(self).start as int,
                number_step(old(self).source(), old(self).start as int, old(self).line()),
            ),
    {
        let ghost s = self.chars@;
        let ghost pos = self.start as int;
        while is_digit(self.peek())
            invariant
                self.wf(),
                s == self.chars@,
                pos + 1 <= self.current <= s.len(),
                *self == (Scanner { current: self.current, ..*old(self) }),
                digit_run(s, pos + 1) == (self.current - (pos + 1)) + digit_run(
                    s,
                    self.current as int,
                ),
            decreases s.len() - self.current,
        {
            self.advance();
        }
        let ghost dot = self.current as int;
        if self.peek() == '.' && is_digit(self.peek_next()) {
            self.advance();
            while is_digit(self.peek())
                invariant
                    self.wf(),
                    s == self.chars@,
                    dot + 1 <= self.current <= s.len(),
                    *self == (Scanner { current: self.current, ..*old(self) }),
                    digit_run(s, dot + 1) == (self.current - (dot + 1)) + digit_run(
                        s,
                        self.current as int,
                    ),
                decreases s.len() - self.current,
            {
                self.advance();
            }
        }
        self.add_token(TokenType::Number, self.start, self.current);
        assert(texts(self.errors@) + Seq::<Seq<char>>::empty() =~= texts(self.errors@));
    }

    /// Scans a word whose first character was just consumed.
    fn identifier(&mut self)
        requires
            old(self).wf(),
            old(self).start + 1 == old(self).current,
        ensures
            final(self).advanced_by(
                old(self),
                old(self).start as int,
                word_step(old(self).source(), old(self).start as int, old(self).line()),
            ),
    {
        let ghost s = self.chars@;
        let ghost pos = self.start as int;
        while is_alpha_numeric(self.peek())
            invariant
                self.wf(),
                s == self.chars@,
                pos + 1 <= self.current <= s.len(),
                *self == (Scanner { current: self.current, ..*old(self) }),
                word_run(s, pos + 1) == (self.current - (pos + 1)) + word_run(
                    s,
                    self.current as int,
                ),
            decreases s.len() - self.current,
        {
            self.advance();
        }
        let mut lexeme = String::new();
        append_chars(&mut lexeme, &self.chars, self.start, self.current);
        let kind = keyword_or_identifier(lexeme.as_str());
        let t = Token { token_type: kind, lexeme, line: self.line };
        self.tokens.push(t);
        assert(self.emitted() =~= old(self).emitted() + word_step(
            old(self).source(),
            old(self).start as int,
            old(self).line(),
        ).tokens);
        assert(texts(self.errors@) + Seq::<Seq<char>>::empty() =~= texts(self.errors@));
    }
}


/// A scan always ends with `Eof`.
pub proof fn lemma_scan_ends_with_eof(s: Seq<char>, pos: int, line: nat)
    ensures
        scan_from(s, pos, line).tokens.len() > 0,
        scan_from(s, pos, line).tokens.last().token_type == TokenType::Eof,
    decreases
            if pos <= s.len() {
                s.len() - pos
            } else {
                0
            },
{
    if 0 <= pos < s.len() {
        let step = scan_one(s, pos, line);
        lemma_scan_ends_with_eof(s, pos + 1 + step.extra, step.line);
    }
}

} // verus!
