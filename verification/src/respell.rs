//! Respelling: the tokens of a source, written out again with a space
//! after each, scan to the same tokens. Strings have to be written within
//! quotes for that; the lexemes alone do where no token is a string.
use vstd::prelude::*;
use crate::scanner::Scanner;
use crate::scanner::{
    alpha, alpha_numeric, digit, digit_run, keyword, newlines, number_step, operator_step, punctuation_step, run_until, scan, scan_from, scan_one, string_step, word_run, word_step, ScanStep,
};
use vstd::string::*;
use crate::text::push_char;
use crate::token::{token_models, Token, TokenModel, TokenType};

verus! {

/// What a run of digits is: it stays inside the text, holds digits only,
/// and ends at the end of the text or before a character that is no digit.
proof fn lemma_digit_run_props(s: Seq<char>, from: int)
    requires
        0 <= from <= s.len(),
    ensures
        from + digit_run(s, from) <= s.len(),
        forall|i: int| from <= i < from + digit_run(s, from) ==> digit(#[trigger] s[i]),
        from + digit_run(s, from) == s.len() || !digit(s[from + digit_run(s, from)]),
    decreases s.len() - from,
{
    if from < s.len() && digit(s[from]) {
        lemma_digit_run_props(s, from + 1);
    }
}

/// A stretch of digits that ends the text, or that a character which is no
/// digit follows, is the run of digits from its start.
proof fn lemma_digit_run_is(s: Seq<char>, from: int, n: nat)
    requires
        0 <= from,
        from + n <= s.len(),
        forall|i: int| from <= i < from + n ==> digit(#[trigger] s[i]),
        from + n == s.len() || !digit(s[from + n]),
    ensures
        digit_run(s, from) == n,
    decreases n,
{
    if n > 0 {
        assert(digit(s[from]));
        lemma_digit_run_is(s, from + 1, (n - 1) as nat);
    }
}

proof fn lemma_word_run_props(s: Seq<char>, from: int)
    requires
        0 <= from <= s.len(),
    ensures
        from + word_run(s, from) <= s.len(),
        forall|i: int| from <= i < from + word_run(s, from) ==> alpha_numeric(#[trigger] s[i]),
        from + word_run(s, from) == s.len() || !alpha_numeric(s[from + word_run(s, from)]),
    decreases s.len() - from,
{
    if from < s.len() && alpha_numeric(s[from]) {
        lemma_word_run_props(s, from + 1);
    }
}

proof fn lemma_word_run_is(s: Seq<char>, from: int, n: nat)
    requires
        0 <= from,
        from + n <= s.len(),
        forall|i: int| from <= i < from + n ==> alpha_numeric(#[trigger] s[i]),
        from + n == s.len() || !alpha_numeric(s[from + n]),
    ensures
        word_run(s, from) == n,
    decreases n,
{
    if n > 0 {
        assert(alpha_numeric(s[from]));
        lemma_word_run_is(s, from + 1, (n - 1) as nat);
    }
}

/// A run in a text that follows another text is the run in the text alone.
proof fn lemma_digit_run_suffix(pre: Seq<char>, suf: Seq<char>, from: int)
    requires
        0 <= from <= suf.len(),
    ensures
        digit_run(pre + suf, pre.len() + from) == digit_run(suf, from),
    decreases suf.len() - from,
{
    if from < suf.len() {
        assert((pre + suf)[pre.len() + from] == suf[from]);
        if digit(suf[from]) {
            lemma_digit_run_suffix(pre, suf, from + 1);
        }
    }
}

proof fn lemma_word_run_suffix(pre: Seq<char>, suf: Seq<char>, from: int)
    requires
        0 <= from <= suf.len(),
    ensures
        word_run(pre + suf, pre.len() + from) == word_run(suf, from),
    decreases suf.len() - from,
{
    if from < suf.len() {
        assert((pre + suf)[pre.len() + from] == suf[from]);
        if alpha_numeric(suf[from]) {
            lemma_word_run_suffix(pre, suf, from + 1);
        }
    }
}

proof fn lemma_run_until_suffix(pre: Seq<char>, suf: Seq<char>, from: int, stop: char)
    requires
        0 <= from <= suf.len(),
    ensures
        run_until(pre + suf, pre.len() + from, stop) == run_until(suf, from, stop),
    decreases suf.len() - from,
{
    if from < suf.len() {
        assert((pre + suf)[pre.len() + from] == suf[from]);
        if suf[from] != stop {
            lemma_run_until_suffix(pre, suf, from + 1, stop);
        }
    }
}

proof fn lemma_run_until_props(s: Seq<char>, from: int, stop: char)
    requires
        0 <= from <= s.len(),
    ensures
        from + run_until(s, from, stop) <= s.len(),
        forall|i: int| from <= i < from + run_until(s, from, stop) ==> #[trigger] s[i] != stop,
        from + run_until(s, from, stop) == s.len() || s[from + run_until(s, from, stop)] == stop,
    decreases s.len() - from,
{
    if from < s.len() && s[from] != stop {
        lemma_run_until_props(s, from + 1, stop);
    }
}

proof fn lemma_run_until_is(s: Seq<char>, from: int, stop: char, n: nat)
    requires
        0 <= from,
        from + n <= s.len(),
        forall|i: int| from <= i < from + n ==> #[trigger] s[i] != stop,
        from + n == s.len() || s[from + n] == stop,
    ensures
        run_until(s, from, stop) == n,
    decreases n,
{
    if n > 0 {
        assert(s[from] != stop);
        lemma_run_until_is(s, from + 1, stop, (n - 1) as nat);
    }
}

proof fn lemma_run_until_bound(s: Seq<char>, from: int, stop: char)
    requires
        0 <= from <= s.len(),
    ensures
        from + run_until(s, from, stop) <= s.len(),
    decreases s.len() - from,
{
    if from < s.len() && s[from] != stop {
        lemma_run_until_bound(s, from + 1, stop);
    }
}

proof fn lemma_newlines_suffix(pre: Seq<char>, suf: Seq<char>, from: int, to: int)
    requires
        0 <= from,
        to <= suf.len(),
    ensures
        newlines(pre + suf, pre.len() + from, pre.len() + to) == newlines(suf, from, to),
    decreases to - from,
{
    if from < to {
        assert((pre + suf)[pre.len() + to - 1] == suf[to - 1]);
        lemma_newlines_suffix(pre, suf, from, to - 1);
    }
}

/// A stretch of a text that follows another text is the stretch of the
/// text alone.
proof fn lemma_subrange_suffix(pre: Seq<char>, suf: Seq<char>, from: int, to: int)
    requires
        0 <= from <= to <= suf.len(),
    ensures
        (pre + suf).subrange(pre.len() + from, pre.len() + to) == suf.subrange(from, to),
{
    assert((pre + suf).subrange(pre.len() + from, pre.len() + to) =~= suf.subrange(from, to));
}

proof fn lemma_string_step_suffix(pre: Seq<char>, suf: Seq<char>, pos: int, line: nat)
    requires
        0 <= pos < suf.len(),
    ensures
        string_step(pre + suf, pre.len() + pos, line) == string_step(suf, pos, line),
{
    let body = run_until(suf, pos + 1, '"');
    lemma_run_until_suffix(pre, suf, pos + 1, '"');
    lemma_run_until_bound(suf, pos + 1, '"');
    lemma_newlines_suffix(pre, suf, pos + 1, pos + 1 + body);
    if pos + 1 + body < suf.len() {
        lemma_subrange_suffix(pre, suf, pos + 1, pos + 1 + body);
    }
}

proof fn lemma_number_step_suffix(pre: Seq<char>, suf: Seq<char>, pos: int, line: nat)
    requires
        0 <= pos < suf.len(),
    ensures
        number_step(pre + suf, pre.len() + pos, line) == number_step(suf, pos, line),
{
    let whole = digit_run(suf, pos + 1);
    let dot = pos + 1 + whole;
    lemma_digit_run_suffix(pre, suf, pos + 1);
    lemma_digit_run_props(suf, pos + 1);
    if dot + 1 < suf.len() {
        assert((pre + suf)[pre.len() + dot] == suf[dot]);
        assert((pre + suf)[pre.len() + dot + 1] == suf[dot + 1]);
        lemma_digit_run_suffix(pre, suf, dot + 1);
        lemma_digit_run_props(suf, dot + 1);
    }
    let fraction = if dot + 1 < suf.len() && suf[dot] == '.' && digit(suf[dot + 1]) {
        1 + digit_run(suf, dot + 1)
    } else {
        0
    };
    lemma_subrange_suffix(pre, suf, pos, dot + fraction);
}

proof fn lemma_word_step_suffix(pre: Seq<char>, suf: Seq<char>, pos: int, line: nat)
    requires
        0 <= pos < suf.len(),
    ensures
        word_step(pre + suf, pre.len() + pos, line) == word_step(suf, pos, line),
{
    lemma_word_run_suffix(pre, suf, pos + 1);
    lemma_word_run_props(suf, pos + 1);
    lemma_subrange_suffix(pre, suf, pos, pos + 1 + word_run(suf, pos + 1));
}

proof fn lemma_operator_step_suffix(
    pre: Seq<char>,
    suf: Seq<char>,
    pos: int,
    line: nat,
    single: TokenType,
    double: TokenType,
)
    requires
        0 <= pos < suf.len(),
    ensures
        operator_step(pre + suf, pre.len() + pos, line, single, double) == operator_step(
            suf,
            pos,
            line,
            single,
            double,
        ),
{
    lemma_subrange_suffix(pre, suf, pos, pos + 1);
    if pos + 1 < suf.len() {
        assert((pre + suf)[pre.len() + pos + 1] == suf[pos + 1]);
        lemma_subrange_suffix(pre, suf, pos, pos + 2);
    }
}

proof fn lemma_punctuation_step_suffix(
    pre: Seq<char>,
    suf: Seq<char>,
    pos: int,
    line: nat,
    kind: TokenType,
)
    requires
        0 <= pos < suf.len(),
    ensures
        punctuation_step(pre + suf, pre.len() + pos, line, kind) == punctuation_step(
            suf,
            pos,
            line,
            kind,
        ),
{
    lemma_subrange_suffix(pre, suf, pos, pos + 1);
}

/// A step in a text that follows another text is the step in the text
/// alone: the scanner never looks back.
pub proof fn lemma_scan_one_suffix(pre: Seq<char>, suf: Seq<char>, pos: int, line: nat)
    requires
        0 <= pos < suf.len(),
    ensures
        scan_one(pre + suf, pre.len() + pos, line) == scan_one(suf, pos, line),
{
    let c = suf[pos];
    assert((pre + suf)[pre.len() + pos] == c);
    if c == '{' || c == '}' || c == '(' || c == ')' || c == ',' || c == '.' || c == '-' || c == '+'
        || c == ';' || c == '*' {
        lemma_punctuation_step_suffix(pre, suf, pos, line, TokenType::LeftBrace);
        lemma_punctuation_step_suffix(pre, suf, pos, line, TokenType::RightBrace);
        lemma_punctuation_step_suffix(pre, suf, pos, line, TokenType::LeftParen);
        lemma_punctuation_step_suffix(pre, suf, pos, line, TokenType::RightParen);
        lemma_punctuation_step_suffix(pre, suf, pos, line, TokenType::Comma);
        lemma_punctuation_step_suffix(pre, suf, pos, line, TokenType::Dot);
        lemma_punctuation_step_suffix(pre, suf, pos, line, TokenType::Minus);
        lemma_punctuation_step_suffix(pre, suf, pos, line, TokenType::Plus);
        lemma_punctuation_step_suffix(pre, suf, pos, line, TokenType::Semicolon);
        lemma_punctuation_step_suffix(pre, suf, pos, line, TokenType::Star);
    } else if c == '<' {
        lemma_operator_step_suffix(pre, suf, pos, line, TokenType::Less, TokenType::LessEqual);
    } else if c == '!' {
        lemma_operator_step_suffix(pre, suf, pos, line, TokenType::Bang, TokenType::BangEqual);
    } else if c == '>' {
        lemma_operator_step_suffix(
            pre,
            suf,
            pos,
            line,
            TokenType::Greater,
            TokenType::GreaterEqual,
        );
    } else if c == '=' {
        lemma_operator_step_suffix(pre, suf, pos, line, TokenType::Equal, TokenType::EqualEqual);
    } else if c == '/' {
        if pos + 1 < suf.len() {
            assert((pre + suf)[pre.len() + pos + 1] == suf[pos + 1]);
            if suf[pos + 1] == '/' {
                lemma_run_until_suffix(pre, suf, pos + 2, '\n');
            }
        }
        lemma_punctuation_step_suffix(pre, suf, pos, line, TokenType::Slash);
    } else if c == '\t' || c == '\r' || c == ' ' || c == '\n' {
    } else if c == '"' {
        lemma_string_step_suffix(pre, suf, pos, line);
    } else if digit(c) {
        lemma_number_step_suffix(pre, suf, pos, line);
    } else if alpha(c) {
        lemma_word_step_suffix(pre, suf, pos, line);
    }
}

/// How far a step reaches: never beyond the end of the text.
proof fn lemma_scan_one_bound(s: Seq<char>, pos: int, line: nat)
    requires
        0 <= pos < s.len(),
    ensures
        pos + 1 + scan_one(s, pos, line).extra <= s.len(),
{
    lemma_run_until_bound(s, pos + 1, '"');
    lemma_digit_run_props(s, pos + 1);
    lemma_word_run_props(s, pos + 1);
    if pos + 1 < s.len() {
        lemma_run_until_bound(s, pos + 2, '\n');
    }
    let dot = pos + 1 + digit_run(s, pos + 1);
    if dot + 1 < s.len() {
        lemma_digit_run_props(s, dot + 1);
    }
}

/// A scan of a text that follows another text is the scan of the text
/// alone.
pub proof fn lemma_scan_from_suffix(pre: Seq<char>, suf: Seq<char>, pos: int, line: nat)
    requires
        0 <= pos <= suf.len(),
    ensures
        scan_from(pre + suf, pre.len() + pos, line) == scan_from(suf, pos, line),
    decreases suf.len() - pos,
{
    if pos < suf.len() {
        lemma_scan_one_suffix(pre, suf, pos, line);
        lemma_scan_one_bound(suf, pos, line);
        let step = scan_one(suf, pos, line);
        lemma_scan_from_suffix(pre, suf, pos + 1 + step.extra, step.line);
    }
}

/// The tokens written out again: each lexeme with a space after it, and
/// nothing for `Eof`.
pub open spec fn spell(tokens: Seq<TokenModel>) -> Seq<char>
    decreases tokens.len(),
{
    if tokens.len() == 0 {
        Seq::empty()
    } else {
        let first = if tokens[0].token_type == TokenType::Eof {
            Seq::empty()
        } else {
            tokens[0].lexeme.push(' ')
        };
        first + spell(tokens.skip(1))
    }
}

/// Whether two token sequences agree in kinds and lexemes.
pub open spec fn spelled_alike(a: Seq<TokenModel>, b: Seq<TokenModel>) -> bool {
    &&& a.len() == b.len()
    &&& forall|i: int|
        0 <= i < a.len() ==> a[i].token_type == b[i].token_type && a[i].lexeme == b[i].lexeme
}

/// Whether no token is a string literal.
pub open spec fn no_strings(tokens: Seq<TokenModel>) -> bool {
    forall|i: int| 0 <= i < tokens.len() ==> tokens[i].token_type != TokenType::StringLiteral
}

/// What a step that emitted `token` gives when it is taken again at the
/// start of a text that holds the lexeme and then a space.
pub open spec fn taken_again(token: TokenModel, again: nat) -> ScanStep {
    ScanStep {
        extra: (token.lexeme.len() - 1) as nat,
        line: again,
        tokens: seq![TokenModel { line: again, ..token }],
        errors: seq![],
    }
}

/// A number, written out with a space after it, scans to the same number.
proof fn lemma_number_rescans(s: Seq<char>, pos: int, line: nat, rest: Seq<char>, again: nat)
    requires
        0 <= pos < s.len(),
        digit(s[pos]),
    ensures
        number_step(s, pos, line).tokens.len() == 1,
        number_step(s, pos, line).tokens[0].lexeme.len() >= 1,
        number_step(s, pos, line).tokens[0].lexeme[0] == s[pos],
        number_step(number_step(s, pos, line).tokens[0].lexeme.push(' ') + rest, 0, again)
            == taken_again(number_step(s, pos, line).tokens[0], again),
{
    let whole = digit_run(s, pos + 1);
    let dot = pos + 1 + whole;
    lemma_digit_run_props(s, pos + 1);
    if dot + 1 < s.len() {
        lemma_digit_run_props(s, dot + 1);
    }
    let fraction = if dot + 1 < s.len() && s[dot] == '.' && digit(s[dot + 1]) {
        1 + digit_run(s, dot + 1)
    } else {
        0
    };
    let l = s.subrange(pos, dot + fraction);
    let x = l.push(' ') + rest;
    assert(number_step(s, pos, line).tokens[0].lexeme == l);
    assert(l.len() == 1 + whole + fraction);
    assert(forall|i: int| 0 <= i < l.len() ==> x[i] == s[pos + i]);
    assert(x[l.len() as int] == ' ');
    assert forall|i: int| 1 <= i < 1 + whole implies digit(#[trigger] x[i]) by {
        assert(x[i] == s[pos + i]);
    }
    if fraction == 0 {
        assert(1 + whole == l.len());
    } else {
        assert(x[1 + whole as int] == s[dot]);
    }
    lemma_digit_run_is(x, 1, whole);
    if fraction > 0 {
        let f = digit_run(s, dot + 1);
        assert(x[1 + whole as int + 1] == s[dot + 1]);
        assert forall|i: int| 1 + whole + 1 <= i < 1 + whole + 1 + f implies digit(
            #[trigger] x[i],
        ) by {
            assert(x[i] == s[pos + i]);
        }
        lemma_digit_run_is(x, 1 + whole as int + 1, f);
    }
    assert(x.subrange(0, l.len() as int) =~= l);
}

/// A word, written out with a space after it, scans to the same word.
proof fn lemma_word_rescans(s: Seq<char>, pos: int, line: nat, rest: Seq<char>, again: nat)
    requires
        0 <= pos < s.len(),
    ensures
        word_step(s, pos, line).tokens.len() == 1,
        word_step(s, pos, line).tokens[0].lexeme.len() >= 1,
        word_step(s, pos, line).tokens[0].lexeme[0] == s[pos],
        word_step(word_step(s, pos, line).tokens[0].lexeme.push(' ') + rest, 0, again)
            == taken_again(word_step(s, pos, line).tokens[0], again),
{
    let run = word_run(s, pos + 1);
    lemma_word_run_props(s, pos + 1);
    let l = s.subrange(pos, pos + 1 + run);
    let x = l.push(' ') + rest;
    assert(forall|i: int| 0 <= i < l.len() ==> x[i] == s[pos + i]);
    assert(x[l.len() as int] == ' ');
    assert forall|i: int| 1 <= i < 1 + run implies alpha_numeric(#[trigger] x[i]) by {
        assert(x[i] == s[pos + i]);
    }
    lemma_word_run_is(x, 1, run);
    assert(x.subrange(0, l.len() as int) =~= l);
}

/// An operator, written out with a space after it, scans to the same
/// operator.
proof fn lemma_operator_rescans(
    s: Seq<char>,
    pos: int,
    line: nat,
    single: TokenType,
    double: TokenType,
    rest: Seq<char>,
    again: nat,
)
    requires
        0 <= pos < s.len(),
    ensures
        operator_step(s, pos, line, single, double).tokens.len() == 1,
        operator_step(s, pos, line, single, double).tokens[0].lexeme.len() >= 1,
        operator_step(s, pos, line, single, double).tokens[0].lexeme[0] == s[pos],
        operator_step(
            operator_step(s, pos, line, single, double).tokens[0].lexeme.push(' ') + rest,
            0,
            again,
            single,
            double,
        ) == taken_again(operator_step(s, pos, line, single, double).tokens[0], again),
{
    let l = operator_step(s, pos, line, single, double).tokens[0].lexeme;
    let x = l.push(' ') + rest;
    assert(x.subrange(0, l.len() as int) =~= l);
    if pos + 1 < s.len() && s[pos + 1] == '=' {
        assert(l[1] == '=');
        assert(x[1] == l[1]);
    } else {
        assert(x[1] == ' ');
    }
}

/// A step that emitted a token other than a string gives the same token
/// when it is taken again on the lexeme and a space.
proof fn lemma_step_rescans(s: Seq<char>, pos: int, line: nat, rest: Seq<char>, again: nat)
    requires
        0 <= pos < s.len(),
        scan_one(s, pos, line).tokens.len() > 0,
        scan_one(s, pos, line).tokens[0].token_type != TokenType::StringLiteral,
    ensures
        scan_one(s, pos, line).tokens.len() == 1,
        scan_one(s, pos, line).tokens[0].token_type != TokenType::Eof,
        scan_one(s, pos, line).tokens[0].lexeme.len() >= 1,
        scan_one(scan_one(s, pos, line).tokens[0].lexeme.push(' ') + rest, 0, again)
            == taken_again(scan_one(s, pos, line).tokens[0], again),
{
    let c = s[pos];
    let l = scan_one(s, pos, line).tokens[0].lexeme;
    let x = l.push(' ') + rest;
    if c == '{' || c == '}' || c == '(' || c == ')' || c == ',' || c == '.' || c == '-' || c == '+'
        || c == ';' || c == '*' {
        assert(l == s.subrange(pos, pos + 1));
        assert(x[0] == c);
        assert(x.subrange(0, 1) =~= l);
    } else if c == '<' {
        lemma_operator_rescans(s, pos, line, TokenType::Less, TokenType::LessEqual, rest, again);
        assert(x[0] == c);
    } else if c == '!' {
        lemma_operator_rescans(s, pos, line, TokenType::Bang, TokenType::BangEqual, rest, again);
        assert(x[0] == c);
    } else if c == '>' {
        lemma_operator_rescans(
            s,
            pos,
            line,
            TokenType::Greater,
            TokenType::GreaterEqual,
            rest,
            again,
        );
        assert(x[0] == c);
    } else if c == '=' {
        lemma_operator_rescans(s, pos, line, TokenType::Equal, TokenType::EqualEqual, rest, again);
        assert(x[0] == c);
    } else if c == '/' {
        assert(l == s.subrange(pos, pos + 1));
        assert(x[0] == c);
        assert(x[1] == ' ');
        assert(x.subrange(0, 1) =~= l);
    } else if c == '\t' || c == '\r' || c == ' ' || c == '\n' {
    } else if c == '"' {
    } else if digit(c) {
        lemma_number_rescans(s, pos, line, rest, again);
        assert(x[0] == c);
    } else if alpha(c) {
        lemma_word_rescans(s, pos, line, rest, again);
        assert(x[0] == c);
        lemma_keyword_never_eof(l);
    }
}

/// No word is of the kind `Eof`.
proof fn lemma_keyword_never_eof(lexeme: Seq<char>)
    ensures
        keyword(lexeme) != TokenType::Eof,
        keyword(lexeme) != TokenType::StringLiteral,
{
}

/// How a token is written out so that it scans again: its lexeme, a
/// string within quotes, and a space; nothing for `Eof`.
pub open spec fn quoted(token: TokenModel) -> Seq<char> {
    if token.token_type == TokenType::Eof {
        Seq::empty()
    } else if token.token_type == TokenType::StringLiteral {
        seq!['"'] + token.lexeme + seq!['"', ' ']
    } else {
        token.lexeme.push(' ')
    }
}

/// The tokens written out again, strings within quotes.
pub open spec fn spell_quoted(tokens: Seq<TokenModel>) -> Seq<char>
    decreases tokens.len(),
{
    if tokens.len() == 0 {
        Seq::empty()
    } else {
        quoted(tokens[0]) + spell_quoted(tokens.skip(1))
    }
}

proof fn lemma_spell_quoted_concat(a: Seq<TokenModel>, b: Seq<TokenModel>)
    ensures
        spell_quoted(a + b) == spell_quoted(a) + spell_quoted(b),
    decreases a.len(),
{
    if a.len() == 0 {
        assert(a + b =~= b);
        assert(spell_quoted(a) + spell_quoted(b) =~= spell_quoted(b));
    } else {
        assert((a + b).skip(1) =~= a.skip(1) + b);
        lemma_spell_quoted_concat(a.skip(1), b);
        assert(quoted(a[0]) + (spell_quoted(a.skip(1)) + spell_quoted(b)) =~= (quoted(a[0])
            + spell_quoted(a.skip(1))) + spell_quoted(b));
    }
}

proof fn lemma_spell_quoted_single(tokens: Seq<TokenModel>)
    requires
        tokens.len() == 1,
    ensures
        spell_quoted(tokens) == quoted(tokens[0]),
{
    let rest = tokens.skip(1);
    assert(rest.len() == 0);
    assert(spell_quoted(rest) =~= Seq::<char>::empty());
    assert(quoted(tokens[0]) + spell_quoted(rest) =~= quoted(tokens[0]));
}

/// Where no token is a string, the quotes make no difference.
pub proof fn lemma_spellings_agree(tokens: Seq<TokenModel>)
    requires
        no_strings(tokens),
    ensures
        spell(tokens) == spell_quoted(tokens),
    decreases tokens.len(),
{
    if tokens.len() > 0 {
        assert(tokens[0].token_type != TokenType::StringLiteral);
        assert forall|i: int| 0 <= i < tokens.skip(1).len() implies tokens.skip(
            1,
        )[i].token_type != TokenType::StringLiteral by {
            assert(tokens.skip(1)[i] == tokens[i + 1]);
        }
        lemma_spellings_agree(tokens.skip(1));
    }
}

/// A string, written out within quotes and with a space after it, scans
/// to the same string.
proof fn lemma_string_rescans(s: Seq<char>, pos: int, line: nat, rest: Seq<char>, again: nat)
    requires
        0 <= pos < s.len(),
        string_step(s, pos, line).tokens.len() > 0,
    ensures
        string_step(s, pos, line).tokens.len() == 1,
        string_step(s, pos, line).tokens[0].token_type == TokenType::StringLiteral,
        ({
            let token = string_step(s, pos, line).tokens[0];
            let again_step = string_step(quoted(token) + rest, 0, again);
            &&& again_step.extra == token.lexeme.len() + 1
            &&& again_step.errors == Seq::<Seq<char>>::empty()
            &&& again_step.tokens.len() == 1
            &&& again_step.tokens[0].token_type == TokenType::StringLiteral
            &&& again_step.tokens[0].lexeme == token.lexeme
        }),
{
    let body = run_until(s, pos + 1, '"');
    lemma_run_until_props(s, pos + 1, '"');
    let l = s.subrange(pos + 1, pos + 1 + body);
    let token = string_step(s, pos, line).tokens[0];
    assert(token.lexeme == l);
    let x = quoted(token) + rest;
    assert(x[0] == '"');
    assert forall|i: int| 1 <= i < 1 + body implies #[trigger] x[i] != '"' by {
        assert(x[i] == l[i - 1]);
        assert(l[i - 1] == s[pos + i]);
    }
    assert(x[1 + body as int] == '"');
    lemma_run_until_is(x, 1, '"', body);
    assert(x.subrange(1, 1 + body as int) =~= l);
}

/// A step that emitted a token gives a token of the same kind and lexeme
/// when it is taken again on the token as it is written out.
proof fn lemma_head_rescans(s: Seq<char>, pos: int, line: nat, tail: Seq<char>, again: nat)
    requires
        0 <= pos < s.len(),
        scan_one(s, pos, line).tokens.len() > 0,
    ensures
        scan_one(s, pos, line).tokens.len() == 1,
        ({
            let token = scan_one(s, pos, line).tokens[0];
            let width = quoted(token).len() as int;
            let first = scan_one(quoted(token) + tail, 0, again);
            &&& width >= 2
            &&& (quoted(token) + tail)[width - 1] == ' '
            &&& first.extra == width - 2
            &&& first.tokens.len() == 1
            &&& first.tokens[0].token_type == token.token_type
            &&& first.tokens[0].lexeme == token.lexeme
            &&& first.errors == Seq::<Seq<char>>::empty()
        }),
{
    let token = scan_one(s, pos, line).tokens[0];
    let text = quoted(token) + tail;
    if token.token_type == TokenType::StringLiteral {
        assert(s[pos] == '"') by {
            lemma_keyword_never_eof(word_step(s, pos, line).tokens[0].lexeme);
        }
        lemma_string_rescans(s, pos, line, tail, again);
        assert(text[0] == '"');
        assert(quoted(token).len() == token.lexeme.len() + 3);
        assert(text[token.lexeme.len() as int + 2] == ' ');
    } else {
        lemma_step_rescans(s, pos, line, tail, again);
        assert(quoted(token).len() == token.lexeme.len() + 1);
        assert(text[token.lexeme.len() as int] == ' ');
    }
}

/// A scan that starts with a token and a space is that token and then the
/// scan of what follows the space.
proof fn lemma_scan_past_head(text: Seq<char>, width: int, again: nat)
    requires
        2 <= width <= text.len(),
        text[width - 1] == ' ',
        scan_one(text, 0, again).extra == width - 2,
    ensures
        scan_from(text, 0, again).tokens == scan_one(text, 0, again).tokens + scan_from(
            text,
            width,
            scan_one(text, 0, again).line,
        ).tokens,
        scan_from(text, 0, again).errors == scan_one(text, 0, again).errors + scan_from(
            text,
            width,
            scan_one(text, 0, again).line,
        ).errors,
{
    let first = scan_one(text, 0, again);
    let at_space = scan_from(text, width - 1, first.line);
    let after_space = scan_from(text, width, first.line);
    assert(scan_one(text, width - 1, first.line) == (ScanStep {
        extra: 0,
        line: first.line,
        tokens: seq![],
        errors: seq![],
    }));
    assert(at_space.tokens =~= after_space.tokens);
    assert(at_space.errors =~= after_space.errors);
}

/// The tokens that a scan emits from `pos` on, written out again, scan to
/// tokens of the same kinds and lexemes, without any report.
proof fn lemma_respelled_from(s: Seq<char>, pos: int, line: nat, again: nat)
    requires
        0 <= pos <= s.len(),
    ensures
        spelled_alike(
            scan_from(spell_quoted(scan_from(s, pos, line).tokens), 0, again).tokens,
            scan_from(s, pos, line).tokens,
        ),
        scan_from(spell_quoted(scan_from(s, pos, line).tokens), 0, again).errors == Seq::<
            Seq<char>,
        >::empty(),
    decreases s.len() - pos,
{
    let tokens = scan_from(s, pos, line).tokens;
    if pos < s.len() {
        let step = scan_one(s, pos, line);
        let next = pos + 1 + step.extra;
        let rest = scan_from(s, next, step.line);
        lemma_scan_one_bound(s, pos, line);
        assert(tokens == step.tokens + rest.tokens);
        lemma_spell_quoted_concat(step.tokens, rest.tokens);
        let tail = spell_quoted(rest.tokens);
        if step.tokens.len() == 0 {
            lemma_respelled_from(s, next, step.line, again);
            assert(tokens =~= rest.tokens);
            assert(spell_quoted(step.tokens) + tail =~= tail);
        } else {
            lemma_head_rescans(s, pos, line, tail, again);
            let token = step.tokens[0];
            let head = quoted(token);
            let text = head + tail;
            let width = head.len() as int;
            lemma_spell_quoted_single(step.tokens);
            assert(spell_quoted(tokens) == text);
            let first = scan_one(text, 0, again);
            lemma_scan_past_head(text, width, again);
            lemma_scan_from_suffix(head, tail, 0, first.line);
            lemma_respelled_from(s, next, step.line, first.line);
            let after = scan_from(tail, 0, first.line);
            let whole = scan_from(text, 0, again);
            assert(whole.tokens == first.tokens + after.tokens);
            assert(whole.errors =~= after.errors);
            assert forall|i: int| 0 <= i < whole.tokens.len() implies whole.tokens[i].token_type
                == tokens[i].token_type && whole.tokens[i].lexeme == tokens[i].lexeme by {
                if i > 0 {
                    assert(whole.tokens[i] == after.tokens[i - 1]);
                    assert(tokens[i] == rest.tokens[i - 1]);
                }
            }
        }
    } else {
        lemma_spell_quoted_single(tokens);
        assert(spell_quoted(tokens) =~= Seq::<char>::empty());
    }
}

/// The tokens of a source, written out again with strings within quotes
/// and a space after each, scan to tokens of the same kinds and lexemes,
/// and nothing is reported.
pub proof fn lemma_respelling_scans_alike(source: Seq<char>)
    ensures
        spelled_alike(scan(spell_quoted(scan(source).tokens)).tokens, scan(source).tokens),
        scan(spell_quoted(scan(source).tokens)).errors == Seq::<Seq<char>>::empty(),
{
    lemma_respelled_from(source, 0, 1, 1);
}

/// The lexemes of the tokens of a source, each with a space after it, scan
/// to tokens of the same kinds and lexemes, and nothing is reported. A
/// source with a string literal is left out: the lexeme of a string is the
/// text without its quotes.
pub proof fn lemma_lexemes_scan_alike(source: Seq<char>)
    requires
        no_strings(scan(source).tokens),
    ensures
        spelled_alike(scan(spell(scan(source).tokens)).tokens, scan(source).tokens),
        scan(spell(scan(source).tokens)).errors == Seq::<Seq<char>>::empty(),
{
    lemma_spellings_agree(scan(source).tokens);
    lemma_respelling_scans_alike(source);
}


/// Writes the tokens out again: each lexeme with a space after it, a
/// string within quotes, and nothing for `Eof`.
pub fn respell(tokens: &Vec<Token>) -> (r: String)
    ensures
        r@ == spell_quoted(token_models(tokens@)),
{
    let ghost all = token_models(tokens@);
    let mut out = String::new();
    let mut i: usize = 0;
    proof {
        assert(all.skip(0) =~= all);
        assert(out@ + spell_quoted(all) =~= spell_quoted(all));
    }
    while i < tokens.len()
        invariant
            i <= tokens@.len(),
            all == token_models(tokens@),
            out@ + spell_quoted(all.skip(i as int)) == spell_quoted(all),
        decreases tokens@.len() - i,
    {
        let ghost before = out@;
        let ghost rest = all.skip(i as int);
        let token = &tokens[i];
        proof {
            assert(rest[0] == token@);
            assert(rest.skip(1) =~= all.skip(i + 1));
        }
        if token.token_type == TokenType::Eof {
        } else if token.token_type == TokenType::StringLiteral {
            push_char(&mut out, '"');
            out.append(token.lexeme.as_str());
            push_char(&mut out, '"');
            push_char(&mut out, ' ');
        } else {
            out.append(token.lexeme.as_str());
            push_char(&mut out, ' ');
        }
        proof {
            assert(out@ =~= before + quoted(token@));
            assert(before + (quoted(token@) + spell_quoted(rest.skip(1))) =~= (before + quoted(
                token@,
            )) + spell_quoted(rest.skip(1)));
        }
        i = i + 1;
    }
    proof {
        assert(all.skip(i as int).len() == 0);
        assert(out@ + spell_quoted(all.skip(i as int)) =~= out@);
    }
    out
}


/// Scans `source`, writes the tokens out again, scans what was written,
/// and says whether the second scan reported nothing and gave tokens of
/// the same kinds and lexemes. It always does, unless what was written is
/// too long to be scanned at all.
pub fn rescans_alike(source: &str) -> (r: bool)
    requires
        source@.len() < usize::MAX,
    ensures
        r == (spell_quoted(scan(source@).tokens).len() < usize::MAX),
{
    let mut first = Scanner::new(source);
    let tokens = first.scan_tokens();
    proof {
        assert(Seq::<TokenModel>::empty() + scan(source@).tokens =~= scan(source@).tokens);
        lemma_respelling_scans_alike(source@);
    }
    let written = respell(tokens);
    if written.as_str().unicode_len() >= usize::MAX {
        return false;
    }
    let mut second = Scanner::new(written.as_str());
    let again = second.scan_tokens();
    proof {
        assert(Seq::<TokenModel>::empty() + scan(written@).tokens =~= scan(written@).tokens);
        assert(Seq::<Seq<char>>::empty() + scan(written@).errors =~= scan(written@).errors);
    }
    if again.len() != tokens.len() {
        return false;
    }
    let mut i: usize = 0;
    while i < tokens.len()
        invariant
            i <= tokens@.len() == again@.len(),
            spelled_alike(token_models(again@), token_models(tokens@)),
            spell_quoted(scan(source@).tokens).len() < usize::MAX,
        decreases tokens@.len() - i,
    {
        assert(token_models(again@)[i as int] == again@[i as int]@);
        assert(token_models(tokens@)[i as int] == tokens@[i as int]@);
        if again[i].token_type != tokens[i].token_type || again[i].lexeme != tokens[i].lexeme {
            return false;
        }
        i = i + 1;
    }
    !second.has_error()
}

} // verus!
