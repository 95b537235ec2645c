//! Diagnostics: the text of compile-time reports.
use vstd::prelude::*;
use vstd::string::*;
use crate::expr::{Value, ValueModel};
use crate::text::{append_decimal, decimal};
use crate::token::{Token, TokenModel, TokenType};

verus! {

/// The report `[line N] Error<where>: <msg>`.
pub open spec fn report_text(line: nat, wher: Seq<char>, msg: Seq<char>) -> Seq<char> {
    "[line "@ + decimal(line) + "] Error"@ + wher + ": "@ + msg
}

/// Where a report points: the end of the input, or the offending lexeme.
pub open spec fn location_text(token: TokenModel) -> Seq<char> {
    if token.token_type == TokenType::Eof {
        " at end"@
    } else {
        " at '"@ + token.lexeme + "'"@
    }
}

/// The report of a syntax or resolution error at `token`.
pub open spec fn parse_error_text(token: TokenModel, msg: Seq<char>) -> Seq<char> {
    report_text(token.line, location_text(token), msg)
}

fn report(line: usize, wher: &str, msg: &str) -> (r: String)
    ensures
        r@ == report_text(line as nat, wher@, msg@),
{
    let mut out = String::from_str("[line ");
    append_decimal(&mut out, line);
    out.append("] Error");
    out.append(wher);
    out.append(": ");
    out.append(msg);
    out
}

/// The report of an error on `line` that points at no token.
pub fn error(line: usize, msg: &str) -> (r: String)
    ensures
        r@ == report_text(line as nat, Seq::empty(), msg@),
{
    let r = report(line, "", msg);
    proof {
        reveal_strlit("");
        assert(""@ =~= Seq::<char>::empty());
    }
    r
}

/// The failure of a grammar rule; the report has been recorded by then.
#[derive(Debug)]
pub struct ParseError;

/// The report of an error at `token`.
pub fn parse_error(token: &Token, msg: &str) -> (r: String)
    ensures
        r@ == parse_error_text(token@, msg@),
{
    if token.token_type == TokenType::Eof {
        report(token.line, " at end", msg)
    } else {
        let mut wher = String::from_str(" at '");
        wher.append(token.lexeme.as_str());
        wher.append("'");
        report(token.line, wher.as_str(), msg)
    }
}


/// What ends an evaluation early: a runtime error at a token, or the value
/// of a `return` on its way to the call that it ends.
pub enum RuntimeException {
    RuntimeError { token: Token, error: String },
    Return(Value),
}

/// What an exception is, apart from how it is stored.
pub enum ExceptionModel {
    RuntimeError { token: TokenModel, error: Seq<char> },
    Return(ValueModel),
}

impl View for RuntimeException {
    type V = ExceptionModel;

    open spec fn view(&self) -> ExceptionModel {
        match self {
            RuntimeException::RuntimeError { token, error } => ExceptionModel::RuntimeError {
                token: token@,
                error: error@,
            },
            RuntimeException::Return(v) => ExceptionModel::Return(v.model()),
        }
    }
}

/// The error of a name that nothing binds.
pub open spec fn undefined_variable(name: TokenModel) -> ExceptionModel {
    ExceptionModel::RuntimeError {
        token: name,
        error: "Undefined variable '"@ + name.lexeme + "'."@,
    }
}

/// The error of a property that an instance lacks.
pub open spec fn undefined_property(name: TokenModel) -> ExceptionModel {
    ExceptionModel::RuntimeError {
        token: name,
        error: "Undefined property '"@ + name.lexeme + "'."@,
    }
}

/// The report of a runtime error: the message, then the line.
pub open spec fn runtime_report(error: Seq<char>, line: nat) -> Seq<char> {
    error + "\n[line "@ + decimal(line) + "]"@
}

impl RuntimeException {
    /// The runtime error `msg` at `token`.
    pub fn new(token: &Token, msg: &str) -> (r: Self)
        ensures
            r@ == (ExceptionModel::RuntimeError { token: token@, error: msg@ }),
    {
        RuntimeException::RuntimeError { token: token.clone(), error: msg.to_owned() }
    }

    /// The error of a name that nothing binds.
    pub fn undefined(name: &Token) -> (r: Self)
        ensures
            r@ == undefined_variable(name@),
    {
        let mut msg = String::from_str("Undefined variable '");
        msg.append(name.lexeme.as_str());
        msg.append("'.");
        RuntimeException::RuntimeError { token: name.clone(), error: msg }
    }

    /// The error of a property that an instance lacks.
    pub fn undefined_property(name: &Token) -> (r: Self)
        ensures
            r@ == undefined_property(name@),
    {
        let mut msg = String::from_str("Undefined property '");
        msg.append(name.lexeme.as_str());
        msg.append("'.");
        RuntimeException::RuntimeError { token: name.clone(), error: msg }
    }

    /// The report of this runtime error.
    pub fn error(&self) -> (r: String)
        requires
            self is RuntimeError,
        ensures
            r@ == runtime_report(self@->error, self@->token.line),
    {
        match self {
            RuntimeException::RuntimeError { token, error } => {
                let mut out = error.clone();
                out.append("\n[line ");
                append_decimal(&mut out, token.line);
                out.append("]");
                out
            },
            RuntimeException::Return(_) => String::new(),
        }
    }
}

} // verus!
