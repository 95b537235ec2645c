//! The grammar, as functions on sequences of tokens.
//!
//! Each rule maps the tokens and a state (position, next expression
//! identity, reports so far) to the state after the rule and what it parsed.
//! The rules call each other as the grammar does; `fuel` bounds the depth of
//! those calls, and `enough` says how much a position needs. With that much
//! a rule gives the same as with any more (`crate::fuel`).
use vstd::prelude::*;
use crate::expr::{ExprModel, LiteralModel};
use crate::loxerr::parse_error_text;
use crate::stmt::StmtModel;
use crate::token::{TokenModel, TokenType};

verus! {

/// Where a parse stands.
pub struct ParseState {
    /// How many tokens have been consumed.
    pub pos: nat,
    /// The identity that the next variable expression gets.
    pub next_id: nat,
    /// The reports made so far.
    pub errors: Seq<Seq<char>>,
}

/// The outcome of a rule: the state after it, and its value unless it failed.
pub struct Parsed<T> {
    pub state: ParseState,
    pub value: Option<T>,
}

/// A token sequence that a parser accepts: not empty, and closed by `Eof`.
pub open spec fn well_formed(tokens: Seq<TokenModel>) -> bool {
    tokens.len() > 0 && tokens[tokens.len() - 1].token_type == TokenType::Eof
}

/// The next token.
pub open spec fn peek(tokens: Seq<TokenModel>, st: ParseState) -> TokenModel {
    tokens[st.pos as int]
}

/// Whether the next token is `Eof`.
pub open spec fn at_end(tokens: Seq<TokenModel>, st: ParseState) -> bool {
    peek(tokens, st).token_type == TokenType::Eof
}

/// Whether the next token is of `kind` and not `Eof`.
pub open spec fn check(tokens: Seq<TokenModel>, st: ParseState, kind: TokenType) -> bool {
    !at_end(tokens, st) && peek(tokens, st).token_type == kind
}

/// The state past the next token; `Eof` is never passed.
pub open spec fn advance(tokens: Seq<TokenModel>, st: ParseState) -> ParseState {
    if at_end(tokens, st) {
        st
    } else {
        ParseState { pos: st.pos + 1, ..st }
    }
}

/// The state after a report at `token`.
pub open spec fn report_at(st: ParseState, token: TokenModel, msg: Seq<char>) -> ParseState {
    ParseState { errors: st.errors.push(parse_error_text(token, msg)), ..st }
}

/// A rule that succeeded.
pub open spec fn ok<T>(state: ParseState, value: T) -> Parsed<T> {
    Parsed { state, value: Some(value) }
}

/// A rule that failed.
pub open spec fn failed<T>(state: ParseState) -> Parsed<T> {
    Parsed { state, value: None }
}

/// Takes the next token if it is of `kind`; reports `msg` at it otherwise.
pub open spec fn consume(
    tokens: Seq<TokenModel>,
    st: ParseState,
    kind: TokenType,
    msg: Seq<char>,
) -> Parsed<TokenModel> {
    if check(tokens, st, kind) {
        ok(advance(tokens, st), peek(tokens, st))
    } else {
        failed(report_at(st, peek(tokens, st), msg))
    }
}

/// Whether a statement starts with a token of this kind.
pub open spec fn starts_statement(kind: TokenType) -> bool {
    kind == TokenType::Class || kind == TokenType::Fun || kind == TokenType::Var || kind
        == TokenType::For || kind == TokenType::If || kind == TokenType::While || kind
        == TokenType::Print || kind == TokenType::Return
}

/// Skips tokens from `pos` until one follows a `;` or starts a statement.
pub open spec fn skip_to_boundary(tokens: Seq<TokenModel>, pos: nat) -> nat
    decreases tokens.len() - pos,
{
    if pos >= tokens.len() || tokens[pos as int].token_type == TokenType::Eof {
        pos
    } else if pos >= 1 && tokens[pos - 1].token_type == TokenType::Semicolon {
        pos
    } else if starts_statement(tokens[pos as int].token_type) {
        pos
    } else {
        skip_to_boundary(tokens, pos + 1)
    }
}

/// Recovery after a failed declaration: drops the offending token, then
/// skips to the next statement boundary.
pub open spec fn synchronize(tokens: Seq<TokenModel>, st: ParseState) -> ParseState {
    ParseState { pos: skip_to_boundary(tokens, advance(tokens, st).pos), ..st }
}

/// Whether `kind` is an operator of the binary level `level`: 0 `or`, 1 `and`,
/// 2 equality, 3 comparison, 4 term, 5 factor.
pub open spec fn level_operator(level: nat, kind: TokenType) -> bool {
    if level == 0 {
        kind == TokenType::Or
    } else if level == 1 {
        kind == TokenType::And
    } else if level == 2 {
        kind == TokenType::BangEqual || kind == TokenType::EqualEqual
    } else if level == 3 {
        kind == TokenType::Greater || kind == TokenType::GreaterEqual || kind == TokenType::Less
            || kind == TokenType::LessEqual
    } else if level == 4 {
        kind == TokenType::Plus || kind == TokenType::Minus
    } else {
        kind == TokenType::Slash || kind == TokenType::Star
    }
}

/// The node that joins two operands of a binary level.
pub open spec fn join(level: nat, left: ExprModel, op: TokenModel, right: ExprModel) -> ExprModel {
    if level <= 1 {
        ExprModel::Logical(Box::new(left), op, Box::new(right))
    } else {
        ExprModel::Binary(Box::new(left), op, Box::new(right))
    }
}

/// `primary := "true" | "false" | "nil" | "this" | NUMBER | STRING | IDENT
///           | "(" expression ")" | "super" "." IDENT`
pub open spec fn primary(tokens: Seq<TokenModel>, st: ParseState, fuel: nat) -> Parsed<ExprModel>
    decreases fuel, 0nat,
{
    let token = peek(tokens, st);
    let next = advance(tokens, st);
    let numbered = ParseState { next_id: st.next_id + 1, ..next };
    if fuel == 0 {
        failed(st)
    } else {
        match token.token_type {
            TokenType::True => ok(next, ExprModel::Literal(LiteralModel::Bool(true))),
            TokenType::False => ok(next, ExprModel::Literal(LiteralModel::Bool(false))),
            TokenType::Nil => ok(next, ExprModel::Literal(LiteralModel::Nil)),
            TokenType::Number => ok(next, ExprModel::Literal(LiteralModel::Number(token.lexeme))),
            TokenType::StringLiteral => ok(
                next,
                ExprModel::Literal(LiteralModel::String(token.lexeme)),
            ),
            TokenType::Identifier => ok(numbered, ExprModel::Variable(st.next_id, token)),
            TokenType::This => ok(numbered, ExprModel::This(st.next_id, token)),
            TokenType::LeftParen => {
                let inner = expression(tokens, next, (fuel - 1) as nat);
                match inner.value {
                    None => inner,
                    Some(e) => {
                        let close = consume(
                            tokens,
                            inner.state,
                            TokenType::RightParen,
                            "Expect ')' after expression."@,
                        );
                        if close.value is None {
                            failed(close.state)
                        } else {
                            ok(close.state, ExprModel::Grouping(Box::new(e)))
                        }
                    },
                }
            },
            TokenType::Super => {
                let dot = consume(tokens, numbered, TokenType::Dot, "Expect '.' after 'super'."@);
                if dot.value is None {
                    failed(dot.state)
                } else {
                    let method = consume(
                        tokens,
                        dot.state,
                        TokenType::Identifier,
                        "Expect superclass method name."@,
                    );
                    match method.value {
                        None => failed(method.state),
                        Some(name) => ok(method.state, ExprModel::Super(st.next_id, token, name)),
                    }
                }
            },
            _ => failed(report_at(st, token, "Expect expression."@)),
        }
    }
}

/// `expression := assignment`
pub open spec fn expression(tokens: Seq<TokenModel>, st: ParseState, fuel: nat) -> Parsed<
    ExprModel,
>
    decreases fuel, 1nat,
{
    assignment(tokens, st, fuel)
}

/// `assignment := (call ".")? IDENT "=" assignment | logic_or`
pub open spec fn assignment(tokens: Seq<TokenModel>, st: ParseState, fuel: nat) -> Parsed<
    ExprModel,
>
    decreases fuel, 0nat,
{
    if fuel == 0 {
        failed(st)
    } else {
        let left = binary(tokens, st, 0, (fuel - 1) as nat);
        match left.value {
            None => left,
            Some(target) => if check(tokens, left.state, TokenType::Equal) {
                let equals = peek(tokens, left.state);
                let value = assignment(tokens, advance(tokens, left.state), (fuel - 1) as nat);
                match value.value {
                    None => value,
                    Some(v) => match target {
                        ExprModel::Variable(id, name) => ok(
                            value.state,
                            ExprModel::Assign(id, name, Box::new(v)),
                        ),
                        ExprModel::Get(object, name) => ok(
                            value.state,
                            ExprModel::SetField(object, name, Box::new(v)),
                        ),
                        _ => failed(report_at(value.state, equals, "Invalid assignment target."@)),
                    },
                }
            } else {
                left
            },
        }
    }
}

/// An operand of the binary level `level`: the next level, or a unary
/// expression below the last.
pub open spec fn operand(tokens: Seq<TokenModel>, st: ParseState, level: nat, fuel: nat) -> Parsed<
    ExprModel,
>
    decreases fuel, 1nat,
{
    if level >= 5 {
        unary(tokens, st, fuel)
    } else {
        binary(tokens, st, level + 1, fuel)
    }
}

/// `level := operand (operator operand)*`, joined to the left.
pub open spec fn binary(tokens: Seq<TokenModel>, st: ParseState, level: nat, fuel: nat) -> Parsed<
    ExprModel,
>
    decreases fuel, 0nat,
{
    if fuel == 0 {
        failed(st)
    } else {
        let first = operand(tokens, st, level, (fuel - 1) as nat);
        match first.value {
            None => first,
            Some(left) => binary_rest(tokens, first.state, level, left, (fuel - 1) as nat),
        }
    }
}

/// What follows the first operand of a binary level.
pub open spec fn binary_rest(
    tokens: Seq<TokenModel>,
    st: ParseState,
    level: nat,
    left: ExprModel,
    fuel: nat,
) -> Parsed<ExprModel>
    decreases fuel, 0nat,
{
    if fuel == 0 {
        failed(st)
    } else if !at_end(tokens, st) && level_operator(level, peek(tokens, st).token_type) {
        let op = peek(tokens, st);
        let right = operand(tokens, advance(tokens, st), level, (fuel - 1) as nat);
        match right.value {
            None => right,
            Some(r) => binary_rest(
                tokens,
                right.state,
                level,
                join(level, left, op, r),
                (fuel - 1) as nat,
            ),
        }
    } else {
        ok(st, left)
    }
}

/// `unary := ("!"|"-") unary | call`
pub open spec fn unary(tokens: Seq<TokenModel>, st: ParseState, fuel: nat) -> Parsed<ExprModel>
    decreases fuel, 0nat,
{
    if fuel == 0 {
        failed(st)
    } else if check(tokens, st, TokenType::Bang) || check(tokens, st, TokenType::Minus) {
        let right = unary(tokens, advance(tokens, st), (fuel - 1) as nat);
        match right.value {
            None => right,
            Some(r) => ok(right.state, ExprModel::Unary(peek(tokens, st), Box::new(r))),
        }
    } else {
        call(tokens, st, (fuel - 1) as nat)
    }
}

/// `call := primary ( "(" args? ")" | "." IDENT )*`
pub open spec fn call(tokens: Seq<TokenModel>, st: ParseState, fuel: nat) -> Parsed<ExprModel>
    decreases fuel, 0nat,
{
    if fuel == 0 {
        failed(st)
    } else {
        let first = primary(tokens, st, (fuel - 1) as nat);
        match first.value {
            None => first,
            Some(callee) => call_rest(tokens, first.state, callee, (fuel - 1) as nat),
        }
    }
}

/// What follows the callee: calls and property reads, in any number.
pub open spec fn call_rest(
    tokens: Seq<TokenModel>,
    st: ParseState,
    callee: ExprModel,
    fuel: nat,
) -> Parsed<ExprModel>
    decreases fuel, 0nat,
{
    if fuel == 0 {
        failed(st)
    } else if check(tokens, st, TokenType::LeftParen) {
        let made = finish_call(tokens, advance(tokens, st), callee, (fuel - 1) as nat);
        match made.value {
            None => made,
            Some(e) => call_rest(tokens, made.state, e, (fuel - 1) as nat),
        }
    } else if check(tokens, st, TokenType::Dot) {
        let name = consume(
            tokens,
            advance(tokens, st),
            TokenType::Identifier,
            "Expect property name after '.'."@,
        );
        match name.value {
            None => failed(name.state),
            Some(n) => call_rest(
                tokens,
                name.state,
                ExprModel::Get(Box::new(callee), n),
                (fuel - 1) as nat,
            ),
        }
    } else {
        ok(st, callee)
    }
}

/// The arguments and the closing parenthesis of a call whose `(` was taken.
pub open spec fn finish_call(
    tokens: Seq<TokenModel>,
    st: ParseState,
    callee: ExprModel,
    fuel: nat,
) -> Parsed<ExprModel>
    decreases fuel, 0nat,
{
    if fuel == 0 {
        failed(st)
    } else {
        let args = if check(tokens, st, TokenType::RightParen) {
            ok(st, Seq::<ExprModel>::empty())
        } else {
            arguments(tokens, st, Seq::empty(), (fuel - 1) as nat)
        };
        match args.value {
            None => failed(args.state),
            Some(list) => {
                let paren = consume(
                    tokens,
                    args.state,
                    TokenType::RightParen,
                    "Expect ')' after arguments."@,
                );
                match paren.value {
                    None => failed(paren.state),
                    Some(p) => ok(paren.state, ExprModel::Call(Box::new(callee), p, list)),
                }
            },
        }
    }
}

/// `args := expression ("," expression)*`; an argument beyond the 255th is
/// reported and parsing goes on.
pub open spec fn arguments(
    tokens: Seq<TokenModel>,
    st: ParseState,
    sofar: Seq<ExprModel>,
    fuel: nat,
) -> Parsed<Seq<ExprModel>>
    decreases fuel, 0nat,
{
    if fuel == 0 {
        failed(st)
    } else {
        let warned = if sofar.len() >= 255 {
            report_at(st, peek(tokens, st), "Can't have more than 255 arguments."@)
        } else {
            st
        };
        let arg = expression(tokens, warned, (fuel - 1) as nat);
        match arg.value {
            None => failed(arg.state),
            Some(e) => if check(tokens, arg.state, TokenType::Comma) {
                arguments(tokens, advance(tokens, arg.state), sofar.push(e), (fuel - 1) as nat)
            } else {
                ok(arg.state, sofar.push(e))
            },
        }
    }
}


/// `expression ;`
pub open spec fn expression_statement(tokens: Seq<TokenModel>, st: ParseState, fuel: nat) -> Parsed<
    StmtModel,
>
    decreases fuel, 2nat,
{
    let value = expression(tokens, st, fuel);
    match value.value {
        None => failed(value.state),
        Some(e) => {
            let end = consume(
                tokens,
                value.state,
                TokenType::Semicolon,
                "Expect ';' after expression."@,
            );
            if end.value is None {
                failed(end.state)
            } else {
                ok(end.state, StmtModel::Expression(e))
            }
        },
    }
}

/// `expression ;`, the `print` already taken.
pub open spec fn print_statement(tokens: Seq<TokenModel>, st: ParseState, fuel: nat) -> Parsed<
    StmtModel,
>
    decreases fuel, 2nat,
{
    let value = expression(tokens, st, fuel);
    match value.value {
        None => failed(value.state),
        Some(e) => {
            let end = consume(tokens, value.state, TokenType::Semicolon, "Expect ';' after value."@);
            if end.value is None {
                failed(end.state)
            } else {
                ok(end.state, StmtModel::Print(e))
            }
        },
    }
}

/// `return expression? ;`, the keyword already taken.
pub open spec fn return_statement(
    tokens: Seq<TokenModel>,
    st: ParseState,
    keyword: TokenModel,
    fuel: nat,
) -> Parsed<StmtModel>
    decreases fuel, 2nat,
{
    let value = if check(tokens, st, TokenType::Semicolon) {
        ok(st, None::<ExprModel>)
    } else {
        let e = expression(tokens, st, fuel);
        match e.value {
            None => failed(e.state),
            Some(v) => ok(e.state, Some(v)),
        }
    };
    match value.value {
        None => failed(value.state),
        Some(v) => {
            let end = consume(
                tokens,
                value.state,
                TokenType::Semicolon,
                "Expect ';' after return value."@,
            );
            if end.value is None {
                failed(end.state)
            } else {
                ok(end.state, StmtModel::Return(keyword, v))
            }
        },
    }
}

/// `IDENT ("=" expression)? ;`, the `var` already taken.
pub open spec fn var_declaration(tokens: Seq<TokenModel>, st: ParseState, fuel: nat) -> Parsed<
    StmtModel,
>
    decreases fuel, 2nat,
{
    let name = consume(tokens, st, TokenType::Identifier, "Expect variable name."@);
    match name.value {
        None => failed(name.state),
        Some(n) => {
            let init = if check(tokens, name.state, TokenType::Equal) {
                let e = expression(tokens, advance(tokens, name.state), fuel);
                match e.value {
                    None => failed(e.state),
                    Some(v) => ok(e.state, Some(v)),
                }
            } else {
                ok(name.state, None::<ExprModel>)
            };
            match init.value {
                None => failed(init.state),
                Some(v) => {
                    let end = consume(
                        tokens,
                        init.state,
                        TokenType::Semicolon,
                        "Expect ';' after variable declaration."@,
                    );
                    if end.value is None {
                        failed(end.state)
                    } else {
                        ok(end.state, StmtModel::Var(n, v))
                    }
                },
            }
        },
    }
}

/// `( expression ) statement (else statement)?`, the `if` already taken.
pub open spec fn if_statement(tokens: Seq<TokenModel>, st: ParseState, fuel: nat) -> Parsed<
    StmtModel,
>
    decreases fuel, 0nat,
{
    if fuel == 0 {
        failed(st)
    } else {
        let open = consume(tokens, st, TokenType::LeftParen, "Expect '(' after 'if'."@);
        if open.value is None {
            failed(open.state)
        } else {
            let condition = expression(tokens, open.state, (fuel - 1) as nat);
            match condition.value {
                None => failed(condition.state),
                Some(c) => {
                    let close = consume(
                        tokens,
                        condition.state,
                        TokenType::RightParen,
                        "Expect ')' after if condition."@,
                    );
                    if close.value is None {
                        failed(close.state)
                    } else {
                        if_branches(tokens, close.state, c, (fuel - 1) as nat)
                    }
                },
            }
        }
    }
}

/// The branches of an `if` whose condition was taken.
pub open spec fn if_branches(
    tokens: Seq<TokenModel>,
    st: ParseState,
    condition: ExprModel,
    fuel: nat,
) -> Parsed<StmtModel>
    decreases fuel, 4nat,
{
    let then_branch = statement(tokens, st, fuel);
    match then_branch.value {
        None => failed(then_branch.state),
        Some(t) => if check(tokens, then_branch.state, TokenType::Else) {
            let else_branch = statement(tokens, advance(tokens, then_branch.state), fuel);
            match else_branch.value {
                None => failed(else_branch.state),
                Some(e) => ok(
                    else_branch.state,
                    StmtModel::If(condition, Box::new(t), Some(Box::new(e))),
                ),
            }
        } else {
            ok(then_branch.state, StmtModel::If(condition, Box::new(t), None))
        },
    }
}

/// `( expression ) statement`, the `while` already taken.
pub open spec fn while_statement(tokens: Seq<TokenModel>, st: ParseState, fuel: nat) -> Parsed<
    StmtModel,
>
    decreases fuel, 0nat,
{
    if fuel == 0 {
        failed(st)
    } else {
        let open = consume(tokens, st, TokenType::LeftParen, "Expect '(' after 'while'."@);
        if open.value is None {
            failed(open.state)
        } else {
            let condition = expression(tokens, open.state, (fuel - 1) as nat);
            match condition.value {
                None => failed(condition.state),
                Some(c) => {
                    let close = consume(
                        tokens,
                        condition.state,
                        TokenType::RightParen,
                        "Expect ')' after condition."@,
                    );
                    if close.value is None {
                        failed(close.state)
                    } else {
                        let body = statement(tokens, close.state, (fuel - 1) as nat);
                        match body.value {
                            None => failed(body.state),
                            Some(b) => ok(body.state, StmtModel::While(c, Box::new(b))),
                        }
                    }
                },
            }
        }
    }
}

/// The first clause of a `for`: nothing, a declaration, or an expression.
pub open spec fn for_initializer(tokens: Seq<TokenModel>, st: ParseState, fuel: nat) -> Parsed<
    StmtModel,
>
    decreases fuel, 3nat,
{
    if check(tokens, st, TokenType::Semicolon) {
        ok(advance(tokens, st), StmtModel::Null)
    } else if check(tokens, st, TokenType::Var) {
        var_declaration(tokens, advance(tokens, st), fuel)
    } else {
        expression_statement(tokens, st, fuel)
    }
}

/// The loop that a `for` stands for: the initializer, then a `while` over the
/// condition whose body ends with the increment.
pub open spec fn desugar_for(
    initializer: StmtModel,
    condition: ExprModel,
    increment: Option<ExprModel>,
    body: StmtModel,
) -> StmtModel {
    let inner = match increment {
        Some(i) => StmtModel::Block(seq![body, StmtModel::Expression(i)]),
        None => body,
    };
    StmtModel::Block(seq![initializer, StmtModel::While(condition, Box::new(inner))])
}

/// `( init? ; condition? ; increment? ) statement`, the `for` already taken.
pub open spec fn for_statement(tokens: Seq<TokenModel>, st: ParseState, fuel: nat) -> Parsed<
    StmtModel,
>
    decreases fuel, 0nat,
{
    if fuel == 0 {
        failed(st)
    } else {
        let open = consume(tokens, st, TokenType::LeftParen, "Expect '(' after 'for'."@);
        if open.value is None {
            failed(open.state)
        } else {
            let first = for_initializer(tokens, open.state, (fuel - 1) as nat);
            match first.value {
                None => failed(first.state),
                Some(initializer) => {
                    let second = if !check(tokens, first.state, TokenType::Semicolon) {
                        expression(tokens, first.state, (fuel - 1) as nat)
                    } else {
                        ok(first.state, ExprModel::Literal(LiteralModel::Bool(true)))
                    };
                    match second.value {
                        None => failed(second.state),
                        Some(condition) => for_tail(
                            tokens,
                            second.state,
                            initializer,
                            condition,
                            (fuel - 1) as nat,
                        ),
                    }
                },
            }
        }
    }
}

/// What follows the condition of a `for`.
pub open spec fn for_tail(
    tokens: Seq<TokenModel>,
    st: ParseState,
    initializer: StmtModel,
    condition: ExprModel,
    fuel: nat,
) -> Parsed<StmtModel>
    decreases fuel, 4nat,
{
    let semi = consume(tokens, st, TokenType::Semicolon, "Expect ';' after loop condition."@);
    if semi.value is None {
        failed(semi.state)
    } else {
        let third = if !check(tokens, semi.state, TokenType::RightParen) {
            let e = expression(tokens, semi.state, fuel);
            match e.value {
                None => failed(e.state),
                Some(v) => ok(e.state, Some(v)),
            }
        } else {
            ok(semi.state, None::<ExprModel>)
        };
        match third.value {
            None => failed(third.state),
            Some(increment) => {
                let close = consume(
                    tokens,
                    third.state,
                    TokenType::RightParen,
                    "Expect ')' after for clauses."@,
                );
                if close.value is None {
                    failed(close.state)
                } else {
                    let body = statement(tokens, close.state, fuel);
                    match body.value {
                        None => failed(body.state),
                        Some(b) => ok(body.state, desugar_for(initializer, condition, increment, b)),
                    }
                }
            },
        }
    }
}

/// `statement := exprStmt | forStmt | ifStmt | printStmt | returnStmt
///             | whileStmt | block`
pub open spec fn statement(tokens: Seq<TokenModel>, st: ParseState, fuel: nat) -> Parsed<StmtModel>
    decreases fuel, 3nat,
{
    if fuel == 0 {
        failed(st)
    } else {
        let next = advance(tokens, st);
        if check(tokens, st, TokenType::If) {
            if_statement(tokens, next, (fuel - 1) as nat)
        } else if check(tokens, st, TokenType::Print) {
            print_statement(tokens, next, (fuel - 1) as nat)
        } else if check(tokens, st, TokenType::LeftBrace) {
            let body = block(tokens, next, Seq::empty(), (fuel - 1) as nat);
            match body.value {
                None => failed(body.state),
                Some(b) => ok(body.state, StmtModel::Block(b)),
            }
        } else if check(tokens, st, TokenType::While) {
            while_statement(tokens, next, (fuel - 1) as nat)
        } else if check(tokens, st, TokenType::For) {
            for_statement(tokens, next, (fuel - 1) as nat)
        } else if check(tokens, st, TokenType::Return) {
            return_statement(tokens, next, peek(tokens, st), (fuel - 1) as nat)
        } else {
            expression_statement(tokens, st, (fuel - 1) as nat)
        }
    }
}

/// `declaration* "}"`, the `{` already taken.
pub open spec fn block(
    tokens: Seq<TokenModel>,
    st: ParseState,
    sofar: Seq<StmtModel>,
    fuel: nat,
) -> Parsed<Seq<StmtModel>>
    decreases fuel, 0nat,
{
    if fuel == 0 {
        failed(st)
    } else if !check(tokens, st, TokenType::RightBrace) && !at_end(tokens, st) {
        let (next, stmt) = declaration(tokens, st, (fuel - 1) as nat);
        block(tokens, next, sofar.push(stmt), (fuel - 1) as nat)
    } else {
        let close = consume(tokens, st, TokenType::RightBrace, "Expect '}' after block."@);
        if close.value is None {
            failed(close.state)
        } else {
            ok(close.state, sofar)
        }
    }
}

/// `IDENT ("," IDENT)*`; a parameter beyond the 255th is reported and
/// parsing goes on.
pub open spec fn parameters(
    tokens: Seq<TokenModel>,
    st: ParseState,
    sofar: Seq<TokenModel>,
    fuel: nat,
) -> Parsed<Seq<TokenModel>>
    decreases fuel, 0nat,
{
    if fuel == 0 {
        failed(st)
    } else {
        let warned = if sofar.len() >= 255 {
            report_at(st, peek(tokens, st), "Can't have more than 255 parameters."@)
        } else {
            st
        };
        let name = consume(tokens, warned, TokenType::Identifier, "Expect parameter name."@);
        match name.value {
            None => failed(name.state),
            Some(n) => if check(tokens, name.state, TokenType::Comma) {
                parameters(tokens, advance(tokens, name.state), sofar.push(n), (fuel - 1) as nat)
            } else {
                ok(name.state, sofar.push(n))
            },
        }
    }
}

/// `IDENT "(" params? ")" block`; `kind` words the reports.
pub open spec fn function(
    tokens: Seq<TokenModel>,
    st: ParseState,
    kind: Seq<char>,
    fuel: nat,
) -> Parsed<StmtModel>
    decreases fuel, 0nat,
{
    if fuel == 0 {
        failed(st)
    } else {
        let name = consume(tokens, st, TokenType::Identifier, "Expect "@ + kind + " name"@);
        match name.value {
            None => failed(name.state),
            Some(n) => {
                let open = consume(
                    tokens,
                    name.state,
                    TokenType::LeftParen,
                    "Expect '(' after "@ + kind + " name."@,
                );
                if open.value is None {
                    failed(open.state)
                } else {
                    let params = if check(tokens, open.state, TokenType::RightParen) {
                        ok(open.state, Seq::<TokenModel>::empty())
                    } else {
                        parameters(tokens, open.state, Seq::empty(), (fuel - 1) as nat)
                    };
                    match params.value {
                        None => failed(params.state),
                        Some(ps) => function_body(
                            tokens,
                            params.state,
                            kind,
                            n,
                            ps,
                            (fuel - 1) as nat,
                        ),
                    }
                }
            },
        }
    }
}

/// What follows the parameters of a function.
pub open spec fn function_body(
    tokens: Seq<TokenModel>,
    st: ParseState,
    kind: Seq<char>,
    name: TokenModel,
    params: Seq<TokenModel>,
    fuel: nat,
) -> Parsed<StmtModel>
    decreases fuel, 1nat,
{
    let close = consume(tokens, st, TokenType::RightParen, "Expect ')' after parameters."@);
    if close.value is None {
        failed(close.state)
    } else {
        let open = consume(
            tokens,
            close.state,
            TokenType::LeftBrace,
            "Expect '{' before "@ + kind + " body."@,
        );
        if open.value is None {
            failed(open.state)
        } else {
            let body = block(tokens, open.state, Seq::empty(), fuel);
            match body.value {
                None => failed(body.state),
                Some(b) => ok(body.state, StmtModel::Function(name, params, b)),
            }
        }
    }
}

/// `function*`, up to the closing brace of a class.
pub open spec fn methods(
    tokens: Seq<TokenModel>,
    st: ParseState,
    sofar: Seq<StmtModel>,
    fuel: nat,
) -> Parsed<Seq<StmtModel>>
    decreases fuel, 0nat,
{
    if fuel == 0 {
        failed(st)
    } else if !check(tokens, st, TokenType::RightBrace) && !at_end(tokens, st) {
        let method = function(tokens, st, "method"@, (fuel - 1) as nat);
        match method.value {
            None => failed(method.state),
            Some(m) => methods(tokens, method.state, sofar.push(m), (fuel - 1) as nat),
        }
    } else {
        ok(st, sofar)
    }
}

/// The `< IDENT` of a class, where there is one.
pub open spec fn superclass(tokens: Seq<TokenModel>, st: ParseState) -> Parsed<Option<ExprModel>> {
    if check(tokens, st, TokenType::Less) {
        let name = consume(
            tokens,
            advance(tokens, st),
            TokenType::Identifier,
            "Expect superclass name."@,
        );
        match name.value {
            None => failed(name.state),
            Some(n) => ok(
                ParseState { next_id: name.state.next_id + 1, ..name.state },
                Some(ExprModel::Variable(name.state.next_id, n)),
            ),
        }
    } else {
        ok(st, None)
    }
}

/// `IDENT ("<" IDENT)? "{" function* "}"`, the `class` already taken.
pub open spec fn class_declaration(tokens: Seq<TokenModel>, st: ParseState, fuel: nat) -> Parsed<
    StmtModel,
>
    decreases fuel, 0nat,
{
    if fuel == 0 {
        failed(st)
    } else {
        let name = consume(tokens, st, TokenType::Identifier, "Expect class name."@);
        match name.value {
            None => failed(name.state),
            Some(n) => {
                let parent = superclass(tokens, name.state);
                match parent.value {
                    None => failed(parent.state),
                    Some(p) => {
                        let open = consume(
                            tokens,
                            parent.state,
                            TokenType::LeftBrace,
                            "Expect '{' before class body."@,
                        );
                        if open.value is None {
                            failed(open.state)
                        } else {
                            let members = methods(
                                tokens,
                                open.state,
                                Seq::empty(),
                                (fuel - 1) as nat,
                            );
                            match members.value {
                                None => failed(members.state),
                                Some(ms) => {
                                    let close = consume(
                                        tokens,
                                        members.state,
                                        TokenType::RightBrace,
                                        "Expect '}' after class body."@,
                                    );
                                    if close.value is None {
                                        failed(close.state)
                                    } else {
                                        ok(close.state, StmtModel::Class(n, p, ms))
                                    }
                                },
                            }
                        }
                    },
                }
            },
        }
    }
}

/// `declaration := classDecl | funDecl | varDecl | statement`. A rule that
/// fails leaves `Null` and the parser at the next statement boundary.
pub open spec fn declaration(tokens: Seq<TokenModel>, st: ParseState, fuel: nat) -> (
    ParseState,
    StmtModel,
)
    decreases fuel, 0nat,
{
    if fuel == 0 {
        (st, StmtModel::Null)
    } else {
        let next = advance(tokens, st);
        let parsed = if check(tokens, st, TokenType::Class) {
            class_declaration(tokens, next, (fuel - 1) as nat)
        } else if check(tokens, st, TokenType::Fun) {
            function(tokens, next, "function"@, (fuel - 1) as nat)
        } else if check(tokens, st, TokenType::Var) {
            var_declaration(tokens, next, (fuel - 1) as nat)
        } else {
            statement(tokens, st, (fuel - 1) as nat)
        };
        match parsed.value {
            Some(s) => (parsed.state, s),
            None => (synchronize(tokens, parsed.state), StmtModel::Null),
        }
    }
}

/// `program := declaration* EOF`
pub open spec fn program(
    tokens: Seq<TokenModel>,
    st: ParseState,
    sofar: Seq<StmtModel>,
    fuel: nat,
) -> (ParseState, Seq<StmtModel>)
    decreases fuel, 0nat,
{
    if fuel == 0 || at_end(tokens, st) {
        (st, sofar)
    } else {
        let (next, stmt) = declaration(tokens, st, (fuel - 1) as nat);
        program(tokens, next, sofar.push(stmt), (fuel - 1) as nat)
    }
}

/// The fuel that suffices for a rule of rank `rank` at position `pos`.
pub open spec fn enough(tokens: Seq<TokenModel>, pos: nat, rank: nat) -> nat {
    ((tokens.len() - pos) * 64 + rank) as nat
}

/// What parsing `tokens` gives when identities start at `first_id`: the
/// final state and the statements of the program.
pub open spec fn parse(tokens: Seq<TokenModel>, first_id: nat) -> (ParseState, Seq<StmtModel>) {
    program(
        tokens,
        ParseState { pos: 0, next_id: first_id, errors: Seq::empty() },
        Seq::empty(),
        enough(tokens, 0, 40),
    )
}

} // verus!
