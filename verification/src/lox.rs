//! The pipeline: source text to a scheduled program, or to its reports.
use vstd::prelude::*;
use vstd::string::*;
use std::rc::Rc;
use crate::grammar;

use crate::interpreter::{Action, Interpreter};
use crate::parser::Parser;
use crate::resolver::{fresh, resolve_stmts, resolved, Resolver};
use crate::scanner::{lemma_scan_ends_with_eof, scan, Scanner};
use crate::semantics;
use crate::semantics::Machine;
use crate::stmt::{stmt_models, Stmt, StmtModel};
use crate::text::texts;

verus! {

/// The exit code of a program that ran to its end.
pub const EXIT_OK: i32 = 0;

/// The exit code for a wrong command line.
pub const EXIT_USAGE: i32 = 64;

/// The exit code for a source that does not compile.
pub const EXIT_COMPILE_ERROR: i32 = 65;

/// The exit code for a program that failed while it ran.
pub const EXIT_RUNTIME_ERROR: i32 = 70;

/// The exit code of a run that ended with `outcome`: that of a runtime
/// error where the program ended early, that of success otherwise.
pub fn exit_code(outcome: &Action) -> (r: i32)
    ensures
        r == if outcome@ is Failed {
            EXIT_RUNTIME_ERROR
        } else {
            EXIT_OK
        },
{
    match outcome {
        Action::Failed(_) => EXIT_RUNTIME_ERROR,
        _ => EXIT_OK,
    }
}

/// An interpreter that takes one source after another; what one source
/// leaves in the global frame the next one finds.
pub struct Lox {
    pub interpreter: Interpreter,
    /// The identity that the next variable expression gets.
    pub next_id: usize,
}

/// What became of a source.
pub struct Compiled {
    /// `EXIT_OK` where the program was scheduled, `EXIT_COMPILE_ERROR`
    /// where it was rejected.
    pub code: i32,
    /// The reports, in the order they were made.
    pub diagnostics: Vec<String>,
    /// The statements that were parsed.
    pub program: Vec<Rc<Stmt>>,
}

/// The reports of scanning and parsing `source`, identities starting at
/// `first_id`.
pub open spec fn syntax_errors(source: Seq<char>, first_id: nat) -> Seq<Seq<char>> {
    scan(source).errors + grammar::parse(scan(source).tokens, first_id).0.errors
}

/// The statements that `source` parses to.
pub open spec fn parsed(source: Seq<char>, first_id: nat) -> Seq<StmtModel> {
    grammar::parse(scan(source).tokens, first_id).1
}

/// Whether a source is within what this machine can number.
pub open spec fn fits(source: Seq<char>, first_id: nat) -> bool {
    source.len() < usize::MAX && first_id + scan(source).tokens.len() <= usize::MAX
}

impl Lox {
    /// The identity that the next variable expression gets.
    pub open spec fn next_id(&self) -> nat {
        self.next_id as nat
    }

    /// A fresh interpreter that numbers expressions from 0.
    pub fn new() -> (r: Self)
        ensures
            r.interpreter@ == crate::interpreter::initial(),
            crate::form::well_formed(r.interpreter@),
            r.next_id() == 0,
    {
        Lox { interpreter: Interpreter::new(), next_id: 0 }
    }

    /// Scans, parses and resolves `line`, and schedules the program where
    /// nothing was reported. The caller then steps the interpreter.
    pub fn run(&mut self, line: &str) -> (r: Compiled)
        ensures
            crate::form::well_formed(old(self).interpreter@) ==> crate::form::well_formed(
                final(self).interpreter@,
            ),
            !fits(line@, old(self).next_id()) ==> {
                &&& r.code == EXIT_COMPILE_ERROR
                &&& texts(r.diagnostics@) == seq!["Source is too long."@]
                &&& *final(self) == *old(self)
            },
            fits(line@, old(self).next_id()) ==> {
                &&& stmt_models(r.program@) == parsed(line@, old(self).next_id())
                &&& final(self).next_id() == grammar::parse(
                    scan(line@).tokens,
                    old(self).next_id(),
                ).0.next_id
                &&& if syntax_errors(line@, old(self).next_id()).len() > 0 {
                    &&& r.code == EXIT_COMPILE_ERROR
                    &&& texts(r.diagnostics@) == syntax_errors(line@, old(self).next_id())
                    &&& final(self).interpreter@ == old(self).interpreter@
                } else {
                    let noted = Machine {
                        locals: resolved(old(self).interpreter@.locals, r.program@),
                        ..old(self).interpreter@
                    };
                    &&& texts(r.diagnostics@) == resolve_stmts(r.program@, 0, fresh()).errors
                    &&& if texts(r.diagnostics@).len() > 0 {
                        r.code == EXIT_COMPILE_ERROR && final(self).interpreter@ == noted
                    } else {
                        r.code == EXIT_OK && final(self).interpreter@ == semantics::load(
                            noted,
                            r.program@,
                        )
                    }
                }
            },
    {
        let mut diagnostics: Vec<String> = Vec::new();
        if line.unicode_len() >= usize::MAX {
            diagnostics.push(String::from_str("Source is too long."));
            assert(texts(diagnostics@) =~= seq!["Source is too long."@]);
            return Compiled { code: EXIT_COMPILE_ERROR, diagnostics, program: Vec::new() };
        }
        let mut scanner = Scanner::new(line);
        let tokens = scanner.scan_tokens();
        proof {
            lemma_scan_ends_with_eof(line@, 0, 1);
            assert(Seq::<crate::token::TokenModel>::empty() + scan(line@).tokens =~= scan(
                line@,
            ).tokens);
            assert(Seq::<Seq<char>>::empty() + scan(line@).errors =~= scan(line@).errors);
        }
        if tokens.len() > usize::MAX - self.next_id {
            diagnostics.push(String::from_str("Source is too long."));
            assert(texts(diagnostics@) =~= seq!["Source is too long."@]);
            return Compiled { code: EXIT_COMPILE_ERROR, diagnostics, program: Vec::new() };
        }
        let mut parser = Parser::numbered_from(tokens.as_slice(), self.next_id);
        let program = parser.parse();
        self.next_id = parser.next_id();
        let parse_failed = parser.has_error();
        let mut parse_errors = parser.take_errors();
        let scan_failed = scanner.has_error();
        if parse_failed || scan_failed {
            let mut scan_errors = scanner.take_errors();
            diagnostics.append(&mut scan_errors);
            diagnostics.append(&mut parse_errors);
            assert(texts(diagnostics@) =~= syntax_errors(line@, old(self).next_id()));
            return Compiled { code: EXIT_COMPILE_ERROR, diagnostics, program };
        }
        let mut resolver = Resolver::new(&self.interpreter);
        resolver.resolve(&mut self.interpreter, &program);
        let failed = resolver.has_error();
        let mut found = resolver.take_errors();
        diagnostics.append(&mut found);
        assert(texts(diagnostics@) =~= resolve_stmts(program@, 0, fresh()).errors);
        if failed {
            return Compiled { code: EXIT_COMPILE_ERROR, diagnostics, program };
        }
        self.interpreter.interpret(&program);
        Compiled { code: EXIT_OK, diagnostics, program }
    }
}

} // verus!
