//! Numbering: a parse that starts its identities later gives the same
//! statements with every identity moved by as much, and nothing else
//! changes.
use vstd::prelude::*;
use crate::expr::{ExprModel, LiteralModel};
use crate::grammar::{
    advance, arguments, assignment, at_end, binary, binary_rest, block, call, call_rest, check, class_declaration, consume, declaration, desugar_for, expression, expression_statement, failed, finish_call, for_initializer, for_statement, for_tail, function, function_body, if_branches, if_statement, join, methods, ok, operand, parameters, parse, peek, primary, print_statement, program, report_at, return_statement, statement, superclass, unary, var_declaration, while_statement, ParseState, Parsed,
};
use crate::stmt::StmtModel;
use crate::token::{TokenModel, TokenType};

verus! {

/// The expression with every identity moved up by `k`.
pub open spec fn moved_expr(e: ExprModel, k: nat) -> ExprModel
    decreases e,
{
    match e {
        ExprModel::Assign(id, name, value) => ExprModel::Assign(
            id + k,
            name,
            Box::new(moved_expr(*value, k)),
        ),
        ExprModel::Binary(left, op, right) => ExprModel::Binary(
            Box::new(moved_expr(*left, k)),
            op,
            Box::new(moved_expr(*right, k)),
        ),
        ExprModel::Call(callee, paren, args) => ExprModel::Call(
            Box::new(moved_expr(*callee, k)),
            paren,
            Seq::new(
                args.len(),
                |i: int|
                    if 0 <= i < args.len() {
                        moved_expr(args[i], k)
                    } else {
                        ExprModel::Literal(LiteralModel::Nil)
                    },
            ),
        ),
        ExprModel::Get(object, name) => ExprModel::Get(Box::new(moved_expr(*object, k)), name),
        ExprModel::Grouping(inner) => ExprModel::Grouping(Box::new(moved_expr(*inner, k))),
        ExprModel::Literal(value) => ExprModel::Literal(value),
        ExprModel::Logical(left, op, right) => ExprModel::Logical(
            Box::new(moved_expr(*left, k)),
            op,
            Box::new(moved_expr(*right, k)),
        ),
        ExprModel::SetField(object, name, value) => ExprModel::SetField(
            Box::new(moved_expr(*object, k)),
            name,
            Box::new(moved_expr(*value, k)),
        ),
        ExprModel::Super(id, keyword, method) => ExprModel::Super(id + k, keyword, method),
        ExprModel::This(id, keyword) => ExprModel::This(id + k, keyword),
        ExprModel::Unary(op, right) => ExprModel::Unary(op, Box::new(moved_expr(*right, k))),
        ExprModel::Variable(id, name) => ExprModel::Variable(id + k, name),
    }
}

/// The expressions, each with every identity moved up by `k`.
pub open spec fn moved_exprs(list: Seq<ExprModel>, k: nat) -> Seq<ExprModel> {
    Seq::new(list.len(), |i: int| moved_expr(list[i], k))
}

/// The expression, if any, with every identity moved up by `k`.
pub open spec fn moved_optional(e: Option<ExprModel>, k: nat) -> Option<ExprModel> {
    match e {
        Some(e) => Some(moved_expr(e, k)),
        None => None,
    }
}

/// The statement with every identity moved up by `k`.
pub open spec fn moved_stmt(s: StmtModel, k: nat) -> StmtModel
    decreases s,
{
    match s {
        StmtModel::Null => StmtModel::Null,
        StmtModel::Block(body) => StmtModel::Block(
            Seq::new(
                body.len(),
                |i: int|
                    if 0 <= i < body.len() {
                        moved_stmt(body[i], k)
                    } else {
                        StmtModel::Null
                    },
            ),
        ),
        StmtModel::Class(name, parent, members) => StmtModel::Class(
            name,
            moved_optional(parent, k),
            Seq::new(
                members.len(),
                |i: int|
                    if 0 <= i < members.len() {
                        moved_stmt(members[i], k)
                    } else {
                        StmtModel::Null
                    },
            ),
        ),
        StmtModel::Expression(e) => StmtModel::Expression(moved_expr(e, k)),
        StmtModel::Function(name, params, body) => StmtModel::Function(
            name,
            params,
            Seq::new(
                body.len(),
                |i: int|
                    if 0 <= i < body.len() {
                        moved_stmt(body[i], k)
                    } else {
                        StmtModel::Null
                    },
            ),
        ),
        StmtModel::If(condition, then_branch, else_branch) => StmtModel::If(
            moved_expr(condition, k),
            Box::new(moved_stmt(*then_branch, k)),
            match else_branch {
                Some(other) => Some(Box::new(moved_stmt(*other, k))),
                None => None,
            },
        ),
        StmtModel::Print(e) => StmtModel::Print(moved_expr(e, k)),
        StmtModel::Return(keyword, value) => StmtModel::Return(keyword, moved_optional(value, k)),
        StmtModel::Var(name, initializer) => StmtModel::Var(name, moved_optional(initializer, k)),
        StmtModel::While(condition, body) => StmtModel::While(
            moved_expr(condition, k),
            Box::new(moved_stmt(*body, k)),
        ),
    }
}

/// The statements, each with every identity moved up by `k`.
pub open spec fn moved_stmts(list: Seq<StmtModel>, k: nat) -> Seq<StmtModel> {
    Seq::new(list.len(), |i: int| moved_stmt(list[i], k))
}

/// The state that numbers from `k` further on.
pub open spec fn moved_state(st: ParseState, k: nat) -> ParseState {
    ParseState { next_id: st.next_id + k, ..st }
}

/// The outcome of a rule for one expression, numbered `k` further on.
pub open spec fn moved_parsed_expr(p: Parsed<ExprModel>, k: nat) -> Parsed<ExprModel> {
    Parsed { state: moved_state(p.state, k), value: moved_optional(p.value, k) }
}

/// The outcome of a rule for expressions, numbered `k` further on.
pub open spec fn moved_parsed_exprs(p: Parsed<Seq<ExprModel>>, k: nat) -> Parsed<Seq<ExprModel>> {
    Parsed {
        state: moved_state(p.state, k),
        value: match p.value {
            Some(list) => Some(moved_exprs(list, k)),
            None => None,
        },
    }
}

/// The outcome of a rule for one statement, numbered `k` further on.
pub open spec fn moved_parsed_stmt(p: Parsed<StmtModel>, k: nat) -> Parsed<StmtModel> {
    Parsed {
        state: moved_state(p.state, k),
        value: match p.value {
            Some(s) => Some(moved_stmt(s, k)),
            None => None,
        },
    }
}

/// The outcome of a rule for statements, numbered `k` further on.
pub open spec fn moved_parsed_stmts(p: Parsed<Seq<StmtModel>>, k: nat) -> Parsed<Seq<StmtModel>> {
    Parsed {
        state: moved_state(p.state, k),
        value: match p.value {
            Some(list) => Some(moved_stmts(list, k)),
            None => None,
        },
    }
}

proof fn lemma_moved_exprs_push(list: Seq<ExprModel>, e: ExprModel, k: nat)
    ensures
        moved_exprs(list.push(e), k) == moved_exprs(list, k).push(moved_expr(e, k)),
        moved_exprs(Seq::empty(), k) == Seq::<ExprModel>::empty(),
{
    assert(moved_exprs(list.push(e), k) =~= moved_exprs(list, k).push(moved_expr(e, k)));
    assert(moved_exprs(Seq::empty(), k) =~= Seq::<ExprModel>::empty());
}

proof fn lemma_moved_stmts_push(list: Seq<StmtModel>, s: StmtModel, k: nat)
    ensures
        moved_stmts(list.push(s), k) == moved_stmts(list, k).push(moved_stmt(s, k)),
        moved_stmts(Seq::empty(), k) == Seq::<StmtModel>::empty(),
{
    assert(moved_stmts(list.push(s), k) =~= moved_stmts(list, k).push(moved_stmt(s, k)));
    assert(moved_stmts(Seq::empty(), k) =~= Seq::<StmtModel>::empty());
}

proof fn lemma_moved_call(callee: ExprModel, paren: TokenModel, args: Seq<ExprModel>, k: nat)
    ensures
        moved_expr(ExprModel::Call(Box::new(callee), paren, args), k) == ExprModel::Call(
            Box::new(moved_expr(callee, k)),
            paren,
            moved_exprs(args, k),
        ),
{
    assert(moved_expr(ExprModel::Call(Box::new(callee), paren, args), k)->Call_2 =~= moved_exprs(
        args,
        k,
    ));
}

proof fn lemma_moved_block(body: Seq<StmtModel>, k: nat)
    ensures
        moved_stmt(StmtModel::Block(body), k) == StmtModel::Block(moved_stmts(body, k)),
{
    assert(moved_stmt(StmtModel::Block(body), k)->Block_0 =~= moved_stmts(body, k));
}

proof fn lemma_moved_function(
    name: TokenModel,
    params: Seq<TokenModel>,
    body: Seq<StmtModel>,
    k: nat,
)
    ensures
        moved_stmt(StmtModel::Function(name, params, body), k) == StmtModel::Function(
            name,
            params,
            moved_stmts(body, k),
        ),
{
    assert(moved_stmt(StmtModel::Function(name, params, body), k)->Function_2 =~= moved_stmts(
        body,
        k,
    ));
}

proof fn lemma_moved_class(
    name: TokenModel,
    parent: Option<ExprModel>,
    members: Seq<StmtModel>,
    k: nat,
)
    ensures
        moved_stmt(StmtModel::Class(name, parent, members), k) == StmtModel::Class(
            name,
            moved_optional(parent, k),
            moved_stmts(members, k),
        ),
{
    assert(moved_stmt(StmtModel::Class(name, parent, members), k)->Class_2 =~= moved_stmts(
        members,
        k,
    ));
}

proof fn lemma_moved_for(
    initializer: StmtModel,
    condition: ExprModel,
    increment: Option<ExprModel>,
    body: StmtModel,
    k: nat,
)
    ensures
        moved_stmt(desugar_for(initializer, condition, increment, body), k) == desugar_for(
            moved_stmt(initializer, k),
            moved_expr(condition, k),
            moved_optional(increment, k),
            moved_stmt(body, k),
        ),
{
    let inner = match increment {
        Some(i) => StmtModel::Block(seq![body, StmtModel::Expression(i)]),
        None => body,
    };
    let looped = StmtModel::While(condition, Box::new(inner));
    match increment {
        Some(i) => {
            lemma_moved_block(seq![body, StmtModel::Expression(i)], k);
            assert(moved_stmts(seq![body, StmtModel::Expression(i)], k) =~= seq![
                moved_stmt(body, k),
                StmtModel::Expression(moved_expr(i, k)),
            ]);
        },
        None => {},
    }
    lemma_moved_block(seq![initializer, looped], k);
    assert(moved_stmts(seq![initializer, looped], k) =~= seq![
        moved_stmt(initializer, k),
        moved_stmt(looped, k),
    ]);
}

proof fn lemma_primary_moved(tokens: Seq<TokenModel>, st: ParseState, fuel: nat, k: nat)
    ensures
        primary(tokens, moved_state(st, k), fuel) == moved_parsed_expr(
            primary(tokens, st, fuel),
            k,
        ),
    decreases fuel, 0nat,
{
    if fuel > 0 && peek(tokens, st).token_type == TokenType::LeftParen {
        lemma_expression_moved(tokens, advance(tokens, st), (fuel - 1) as nat, k);
    }
}

proof fn lemma_expression_moved(tokens: Seq<TokenModel>, st: ParseState, fuel: nat, k: nat)
    ensures
        expression(tokens, moved_state(st, k), fuel) == moved_parsed_expr(
            expression(tokens, st, fuel),
            k,
        ),
    decreases fuel, 1nat,
{
    lemma_assignment_moved(tokens, st, fuel, k);
}

proof fn lemma_assignment_moved(tokens: Seq<TokenModel>, st: ParseState, fuel: nat, k: nat)
    ensures
        assignment(tokens, moved_state(st, k), fuel) == moved_parsed_expr(
            assignment(tokens, st, fuel),
            k,
        ),
    decreases fuel, 0nat,
{
    if fuel > 0 {
        lemma_binary_moved(tokens, st, 0, (fuel - 1) as nat, k);
        let left = binary(tokens, st, 0, (fuel - 1) as nat);
        if left.value is Some && check(tokens, left.state, TokenType::Equal) {
            lemma_assignment_moved(tokens, advance(tokens, left.state), (fuel - 1) as nat, k);
        }
    }
}

proof fn lemma_operand_moved(
    tokens: Seq<TokenModel>,
    st: ParseState,
    level: nat,
    fuel: nat,
    k: nat,
)
    ensures
        operand(tokens, moved_state(st, k), level, fuel) == moved_parsed_expr(
            operand(tokens, st, level, fuel),
            k,
        ),
    decreases fuel, 1nat,
{
    if level >= 5 {
        lemma_unary_moved(tokens, st, fuel, k);
    } else {
        lemma_binary_moved(tokens, st, level + 1, fuel, k);
    }
}

proof fn lemma_binary_moved(
    tokens: Seq<TokenModel>,
    st: ParseState,
    level: nat,
    fuel: nat,
    k: nat,
)
    ensures
        binary(tokens, moved_state(st, k), level, fuel) == moved_parsed_expr(
            binary(tokens, st, level, fuel),
            k,
        ),
    decreases fuel, 0nat,
{
    if fuel > 0 {
        lemma_operand_moved(tokens, st, level, (fuel - 1) as nat, k);
        let first = operand(tokens, st, level, (fuel - 1) as nat);
        match first.value {
            Some(left) => lemma_binary_rest_moved(
                tokens,
                first.state,
                level,
                left,
                (fuel - 1) as nat,
                k,
            ),
            None => {},
        }
    }
}

proof fn lemma_binary_rest_moved(
    tokens: Seq<TokenModel>,
    st: ParseState,
    level: nat,
    left: ExprModel,
    fuel: nat,
    k: nat,
)
    ensures
        binary_rest(tokens, moved_state(st, k), level, moved_expr(left, k), fuel)
            == moved_parsed_expr(binary_rest(tokens, st, level, left, fuel), k),
    decreases fuel, 0nat,
{
    if fuel > 0 && !at_end(tokens, st) && crate::grammar::level_operator(
        level,
        peek(tokens, st).token_type,
    ) {
        let op = peek(tokens, st);
        lemma_operand_moved(tokens, advance(tokens, st), level, (fuel - 1) as nat, k);
        let right = operand(tokens, advance(tokens, st), level, (fuel - 1) as nat);
        match right.value {
            Some(r) => {
                lemma_binary_rest_moved(
                    tokens,
                    right.state,
                    level,
                    join(level, left, op, r),
                    (fuel - 1) as nat,
                    k,
                );
                assert(moved_expr(join(level, left, op, r), k) == join(
                    level,
                    moved_expr(left, k),
                    op,
                    moved_expr(r, k),
                ));
            },
            None => {},
        }
    }
}

proof fn lemma_unary_moved(tokens: Seq<TokenModel>, st: ParseState, fuel: nat, k: nat)
    ensures
        unary(tokens, moved_state(st, k), fuel) == moved_parsed_expr(unary(tokens, st, fuel), k),
    decreases fuel, 0nat,
{
    if fuel > 0 {
        if check(tokens, st, TokenType::Bang) || check(tokens, st, TokenType::Minus) {
            lemma_unary_moved(tokens, advance(tokens, st), (fuel - 1) as nat, k);
        } else {
            lemma_call_moved(tokens, st, (fuel - 1) as nat, k);
        }
    }
}

proof fn lemma_call_moved(tokens: Seq<TokenModel>, st: ParseState, fuel: nat, k: nat)
    ensures
        call(tokens, moved_state(st, k), fuel) == moved_parsed_expr(call(tokens, st, fuel), k),
    decreases fuel, 0nat,
{
    if fuel > 0 {
        lemma_primary_moved(tokens, st, (fuel - 1) as nat, k);
        let first = primary(tokens, st, (fuel - 1) as nat);
        match first.value {
            Some(callee) => lemma_call_rest_moved(
                tokens,
                first.state,
                callee,
                (fuel - 1) as nat,
                k,
            ),
            None => {},
        }
    }
}

proof fn lemma_call_rest_moved(
    tokens: Seq<TokenModel>,
    st: ParseState,
    callee: ExprModel,
    fuel: nat,
    k: nat,
)
    ensures
        call_rest(tokens, moved_state(st, k), moved_expr(callee, k), fuel) == moved_parsed_expr(
            call_rest(tokens, st, callee, fuel),
            k,
        ),
    decreases fuel, 0nat,
{
    if fuel > 0 {
        if check(tokens, st, TokenType::LeftParen) {
            lemma_finish_call_moved(tokens, advance(tokens, st), callee, (fuel - 1) as nat, k);
            let made = finish_call(tokens, advance(tokens, st), callee, (fuel - 1) as nat);
            match made.value {
                Some(e) => lemma_call_rest_moved(tokens, made.state, e, (fuel - 1) as nat, k),
                None => {},
            }
        } else if check(tokens, st, TokenType::Dot) {
            let name = consume(
                tokens,
                advance(tokens, st),
                TokenType::Identifier,
                "Expect property name after '.'."@,
            );
            match name.value {
                Some(n) => lemma_call_rest_moved(
                    tokens,
                    name.state,
                    ExprModel::Get(Box::new(callee), n),
                    (fuel - 1) as nat,
                    k,
                ),
                None => {},
            }
        }
    }
}

proof fn lemma_finish_call_moved(
    tokens: Seq<TokenModel>,
    st: ParseState,
    callee: ExprModel,
    fuel: nat,
    k: nat,
)
    ensures
        finish_call(tokens, moved_state(st, k), moved_expr(callee, k), fuel) == moved_parsed_expr(
            finish_call(tokens, st, callee, fuel),
            k,
        ),
    decreases fuel, 0nat,
{
    if fuel > 0 {
        lemma_moved_exprs_push(Seq::empty(), callee, k);
        let args = if check(tokens, st, TokenType::RightParen) {
            ok(st, Seq::<ExprModel>::empty())
        } else {
            lemma_arguments_moved(tokens, st, Seq::empty(), (fuel - 1) as nat, k);
            arguments(tokens, st, Seq::empty(), (fuel - 1) as nat)
        };
        match args.value {
            Some(list) => {
                let paren = consume(
                    tokens,
                    args.state,
                    TokenType::RightParen,
                    "Expect ')' after arguments."@,
                );
                match paren.value {
                    Some(p) => lemma_moved_call(callee, p, list, k),
                    None => {},
                }
            },
            None => {},
        }
    }
}

proof fn lemma_arguments_moved(
    tokens: Seq<TokenModel>,
    st: ParseState,
    sofar: Seq<ExprModel>,
    fuel: nat,
    k: nat,
)
    ensures
        arguments(tokens, moved_state(st, k), moved_exprs(sofar, k), fuel) == moved_parsed_exprs(
            arguments(tokens, st, sofar, fuel),
            k,
        ),
    decreases fuel, 0nat,
{
    if fuel > 0 {
        let warned = if sofar.len() >= 255 {
            report_at(st, peek(tokens, st), "Can't have more than 255 arguments."@)
        } else {
            st
        };
        lemma_expression_moved(tokens, warned, (fuel - 1) as nat, k);
        let arg = expression(tokens, warned, (fuel - 1) as nat);
        match arg.value {
            Some(e) => {
                lemma_moved_exprs_push(sofar, e, k);
                if check(tokens, arg.state, TokenType::Comma) {
                    lemma_arguments_moved(
                        tokens,
                        advance(tokens, arg.state),
                        sofar.push(e),
                        (fuel - 1) as nat,
                        k,
                    );
                }
            },
            None => {},
        }
    }
}

proof fn lemma_expression_statement_moved(
    tokens: Seq<TokenModel>,
    st: ParseState,
    fuel: nat,
    k: nat,
)
    ensures
        expression_statement(tokens, moved_state(st, k), fuel) == moved_parsed_stmt(
            expression_statement(tokens, st, fuel),
            k,
        ),
    decreases fuel, 2nat,
{
    lemma_expression_moved(tokens, st, fuel, k);
}

proof fn lemma_print_statement_moved(tokens: Seq<TokenModel>, st: ParseState, fuel: nat, k: nat)
    ensures
        print_statement(tokens, moved_state(st, k), fuel) == moved_parsed_stmt(
            print_statement(tokens, st, fuel),
            k,
        ),
    decreases fuel, 2nat,
{
    lemma_expression_moved(tokens, st, fuel, k);
}

proof fn lemma_return_statement_moved(
    tokens: Seq<TokenModel>,
    st: ParseState,
    keyword: TokenModel,
    fuel: nat,
    k: nat,
)
    ensures
        return_statement(tokens, moved_state(st, k), keyword, fuel) == moved_parsed_stmt(
            return_statement(tokens, st, keyword, fuel),
            k,
        ),
    decreases fuel, 2nat,
{
    if !check(tokens, st, TokenType::Semicolon) {
        lemma_expression_moved(tokens, st, fuel, k);
    }
}

proof fn lemma_var_declaration_moved(tokens: Seq<TokenModel>, st: ParseState, fuel: nat, k: nat)
    ensures
        var_declaration(tokens, moved_state(st, k), fuel) == moved_parsed_stmt(
            var_declaration(tokens, st, fuel),
            k,
        ),
    decreases fuel, 2nat,
{
    let name = consume(tokens, st, TokenType::Identifier, "Expect variable name."@);
    if name.value is Some && check(tokens, name.state, TokenType::Equal) {
        lemma_expression_moved(tokens, advance(tokens, name.state), fuel, k);
    }
}

proof fn lemma_if_statement_moved(tokens: Seq<TokenModel>, st: ParseState, fuel: nat, k: nat)
    ensures
        if_statement(tokens, moved_state(st, k), fuel) == moved_parsed_stmt(
            if_statement(tokens, st, fuel),
            k,
        ),
    decreases fuel, 0nat,
{
    if fuel > 0 {
        let open = consume(tokens, st, TokenType::LeftParen, "Expect '(' after 'if'."@);
        if open.value is Some {
            lemma_expression_moved(tokens, open.state, (fuel - 1) as nat, k);
            let condition = expression(tokens, open.state, (fuel - 1) as nat);
            match condition.value {
                Some(c) => {
                    let close = consume(
                        tokens,
                        condition.state,
                        TokenType::RightParen,
                        "Expect ')' after if condition."@,
                    );
                    if close.value is Some {
                        lemma_if_branches_moved(tokens, close.state, c, (fuel - 1) as nat, k);
                    }
                },
                None => {},
            }
        }
    }
}

proof fn lemma_if_branches_moved(
    tokens: Seq<TokenModel>,
    st: ParseState,
    condition: ExprModel,
    fuel: nat,
    k: nat,
)
    ensures
        if_branches(tokens, moved_state(st, k), moved_expr(condition, k), fuel)
            == moved_parsed_stmt(if_branches(tokens, st, condition, fuel), k),
    decreases fuel, 4nat,
{
    lemma_statement_moved(tokens, st, fuel, k);
    let then_branch = statement(tokens, st, fuel);
    if then_branch.value is Some && check(tokens, then_branch.state, TokenType::Else) {
        lemma_statement_moved(tokens, advance(tokens, then_branch.state), fuel, k);
    }
}

proof fn lemma_while_statement_moved(tokens: Seq<TokenModel>, st: ParseState, fuel: nat, k: nat)
    ensures
        while_statement(tokens, moved_state(st, k), fuel) == moved_parsed_stmt(
            while_statement(tokens, st, fuel),
            k,
        ),
    decreases fuel, 0nat,
{
    if fuel > 0 {
        let open = consume(tokens, st, TokenType::LeftParen, "Expect '(' after 'while'."@);
        if open.value is Some {
            lemma_expression_moved(tokens, open.state, (fuel - 1) as nat, k);
            let condition = expression(tokens, open.state, (fuel - 1) as nat);
            if condition.value is Some {
                let close = consume(
                    tokens,
                    condition.state,
                    TokenType::RightParen,
                    "Expect ')' after condition."@,
                );
                if close.value is Some {
                    lemma_statement_moved(tokens, close.state, (fuel - 1) as nat, k);
                }
            }
        }
    }
}

proof fn lemma_for_initializer_moved(tokens: Seq<TokenModel>, st: ParseState, fuel: nat, k: nat)
    ensures
        for_initializer(tokens, moved_state(st, k), fuel) == moved_parsed_stmt(
            for_initializer(tokens, st, fuel),
            k,
        ),
    decreases fuel, 3nat,
{
    if check(tokens, st, TokenType::Semicolon) {
    } else if check(tokens, st, TokenType::Var) {
        lemma_var_declaration_moved(tokens, advance(tokens, st), fuel, k);
    } else {
        lemma_expression_statement_moved(tokens, st, fuel, k);
    }
}

proof fn lemma_for_statement_moved(tokens: Seq<TokenModel>, st: ParseState, fuel: nat, k: nat)
    ensures
        for_statement(tokens, moved_state(st, k), fuel) == moved_parsed_stmt(
            for_statement(tokens, st, fuel),
            k,
        ),
    decreases fuel, 0nat,
{
    if fuel > 0 {
        let open = consume(tokens, st, TokenType::LeftParen, "Expect '(' after 'for'."@);
        if open.value is Some {
            lemma_for_initializer_moved(tokens, open.state, (fuel - 1) as nat, k);
            let first = for_initializer(tokens, open.state, (fuel - 1) as nat);
            match first.value {
                Some(initializer) => {
                    let second = if !check(tokens, first.state, TokenType::Semicolon) {
                        lemma_expression_moved(tokens, first.state, (fuel - 1) as nat, k);
                        expression(tokens, first.state, (fuel - 1) as nat)
                    } else {
                        ok(first.state, ExprModel::Literal(LiteralModel::Bool(true)))
                    };
                    match second.value {
                        Some(condition) => lemma_for_tail_moved(
                            tokens,
                            second.state,
                            initializer,
                            condition,
                            (fuel - 1) as nat,
                            k,
                        ),
                        None => {},
                    }
                },
                None => {},
            }
        }
    }
}

proof fn lemma_for_tail_moved(
    tokens: Seq<TokenModel>,
    st: ParseState,
    initializer: StmtModel,
    condition: ExprModel,
    fuel: nat,
    k: nat,
)
    ensures
        for_tail(
            tokens,
            moved_state(st, k),
            moved_stmt(initializer, k),
            moved_expr(condition, k),
            fuel,
        ) == moved_parsed_stmt(for_tail(tokens, st, initializer, condition, fuel), k),
    decreases fuel, 4nat,
{
    let semi = consume(tokens, st, TokenType::Semicolon, "Expect ';' after loop condition."@);
    if semi.value is Some {
        let third = if !check(tokens, semi.state, TokenType::RightParen) {
            lemma_expression_moved(tokens, semi.state, fuel, k);
            let e = expression(tokens, semi.state, fuel);
            match e.value {
                None => failed(e.state),
                Some(v) => ok(e.state, Some(v)),
            }
        } else {
            ok(semi.state, None::<ExprModel>)
        };
        match third.value {
            Some(increment) => {
                let close = consume(
                    tokens,
                    third.state,
                    TokenType::RightParen,
                    "Expect ')' after for clauses."@,
                );
                if close.value is Some {
                    lemma_statement_moved(tokens, close.state, fuel, k);
                    let body = statement(tokens, close.state, fuel);
                    match body.value {
                        Some(b) => lemma_moved_for(initializer, condition, increment, b, k),
                        None => {},
                    }
                }
            },
            None => {},
        }
    }
}

proof fn lemma_statement_moved(tokens: Seq<TokenModel>, st: ParseState, fuel: nat, k: nat)
    ensures
        statement(tokens, moved_state(st, k), fuel) == moved_parsed_stmt(
            statement(tokens, st, fuel),
            k,
        ),
    decreases fuel, 3nat,
{
    if fuel > 0 {
        let next = advance(tokens, st);
        if check(tokens, st, TokenType::If) {
            lemma_if_statement_moved(tokens, next, (fuel - 1) as nat, k);
        } else if check(tokens, st, TokenType::Print) {
            lemma_print_statement_moved(tokens, next, (fuel - 1) as nat, k);
        } else if check(tokens, st, TokenType::LeftBrace) {
            lemma_moved_stmts_push(Seq::empty(), StmtModel::Null, k);
            lemma_block_moved(tokens, next, Seq::empty(), (fuel - 1) as nat, k);
            let body = block(tokens, next, Seq::empty(), (fuel - 1) as nat);
            match body.value {
                Some(b) => lemma_moved_block(b, k),
                None => {},
            }
        } else if check(tokens, st, TokenType::While) {
            lemma_while_statement_moved(tokens, next, (fuel - 1) as nat, k);
        } else if check(tokens, st, TokenType::For) {
            lemma_for_statement_moved(tokens, next, (fuel - 1) as nat, k);
        } else if check(tokens, st, TokenType::Return) {
            lemma_return_statement_moved(tokens, next, peek(tokens, st), (fuel - 1) as nat, k);
        } else {
            lemma_expression_statement_moved(tokens, st, (fuel - 1) as nat, k);
        }
    }
}

proof fn lemma_block_moved(
    tokens: Seq<TokenModel>,
    st: ParseState,
    sofar: Seq<StmtModel>,
    fuel: nat,
    k: nat,
)
    ensures
        block(tokens, moved_state(st, k), moved_stmts(sofar, k), fuel) == moved_parsed_stmts(
            block(tokens, st, sofar, fuel),
            k,
        ),
    decreases fuel, 0nat,
{
    if fuel > 0 && !check(tokens, st, TokenType::RightBrace) && !at_end(tokens, st) {
        lemma_declaration_moved(tokens, st, (fuel - 1) as nat, k);
        let (next, stmt) = declaration(tokens, st, (fuel - 1) as nat);
        lemma_moved_stmts_push(sofar, stmt, k);
        lemma_block_moved(tokens, next, sofar.push(stmt), (fuel - 1) as nat, k);
    }
}

proof fn lemma_parameters_moved(
    tokens: Seq<TokenModel>,
    st: ParseState,
    sofar: Seq<TokenModel>,
    fuel: nat,
    k: nat,
)
    ensures
        parameters(tokens, moved_state(st, k), sofar, fuel).state == moved_state(
            parameters(tokens, st, sofar, fuel).state,
            k,
        ),
        parameters(tokens, moved_state(st, k), sofar, fuel).value == parameters(
            tokens,
            st,
            sofar,
            fuel,
        ).value,
    decreases fuel, 0nat,
{
    if fuel > 0 {
        let warned = if sofar.len() >= 255 {
            report_at(st, peek(tokens, st), "Can't have more than 255 parameters."@)
        } else {
            st
        };
        let name = consume(tokens, warned, TokenType::Identifier, "Expect parameter name."@);
        match name.value {
            Some(n) => if check(tokens, name.state, TokenType::Comma) {
                lemma_parameters_moved(
                    tokens,
                    advance(tokens, name.state),
                    sofar.push(n),
                    (fuel - 1) as nat,
                    k,
                );
            },
            None => {},
        }
    }
}

proof fn lemma_function_moved(
    tokens: Seq<TokenModel>,
    st: ParseState,
    kind: Seq<char>,
    fuel: nat,
    k: nat,
)
    ensures
        function(tokens, moved_state(st, k), kind, fuel) == moved_parsed_stmt(
            function(tokens, st, kind, fuel),
            k,
        ),
    decreases fuel, 0nat,
{
    if fuel > 0 {
        let name = consume(tokens, st, TokenType::Identifier, "Expect "@ + kind + " name"@);
        match name.value {
            Some(n) => {
                let open = consume(
                    tokens,
                    name.state,
                    TokenType::LeftParen,
                    "Expect '(' after "@ + kind + " name."@,
                );
                if open.value is Some {
                    let params = if check(tokens, open.state, TokenType::RightParen) {
                        ok(open.state, Seq::<TokenModel>::empty())
                    } else {
                        lemma_parameters_moved(
                            tokens,
                            open.state,
                            Seq::empty(),
                            (fuel - 1) as nat,
                            k,
                        );
                        parameters(tokens, open.state, Seq::empty(), (fuel - 1) as nat)
                    };
                    match params.value {
                        Some(ps) => lemma_function_body_moved(
                            tokens,
                            params.state,
                            kind,
                            n,
                            ps,
                            (fuel - 1) as nat,
                            k,
                        ),
                        None => {},
                    }
                }
            },
            None => {},
        }
    }
}

proof fn lemma_function_body_moved(
    tokens: Seq<TokenModel>,
    st: ParseState,
    kind: Seq<char>,
    name: TokenModel,
    params: Seq<TokenModel>,
    fuel: nat,
    k: nat,
)
    ensures
        function_body(tokens, moved_state(st, k), kind, name, params, fuel) == moved_parsed_stmt(
            function_body(tokens, st, kind, name, params, fuel),
            k,
        ),
    decreases fuel, 1nat,
{
    let close = consume(tokens, st, TokenType::RightParen, "Expect ')' after parameters."@);
    if close.value is Some {
        let open = consume(
            tokens,
            close.state,
            TokenType::LeftBrace,
            "Expect '{' before "@ + kind + " body."@,
        );
        if open.value is Some {
            lemma_moved_stmts_push(Seq::empty(), StmtModel::Null, k);
            lemma_block_moved(tokens, open.state, Seq::empty(), fuel, k);
            let body = block(tokens, open.state, Seq::empty(), fuel);
            match body.value {
                Some(b) => lemma_moved_function(name, params, b, k),
                None => {},
            }
        }
    }
}

proof fn lemma_methods_moved(
    tokens: Seq<TokenModel>,
    st: ParseState,
    sofar: Seq<StmtModel>,
    fuel: nat,
    k: nat,
)
    ensures
        methods(tokens, moved_state(st, k), moved_stmts(sofar, k), fuel) == moved_parsed_stmts(
            methods(tokens, st, sofar, fuel),
            k,
        ),
    decreases fuel, 0nat,
{
    if fuel > 0 && !check(tokens, st, TokenType::RightBrace) && !at_end(tokens, st) {
        lemma_function_moved(tokens, st, "method"@, (fuel - 1) as nat, k);
        let method = function(tokens, st, "method"@, (fuel - 1) as nat);
        match method.value {
            Some(m) => {
                lemma_moved_stmts_push(sofar, m, k);
                lemma_methods_moved(tokens, method.state, sofar.push(m), (fuel - 1) as nat, k);
            },
            None => {},
        }
    }
}

proof fn lemma_class_declaration_moved(
    tokens: Seq<TokenModel>,
    st: ParseState,
    fuel: nat,
    k: nat,
)
    ensures
        class_declaration(tokens, moved_state(st, k), fuel) == moved_parsed_stmt(
            class_declaration(tokens, st, fuel),
            k,
        ),
    decreases fuel, 0nat,
{
    if fuel > 0 {
        let name = consume(tokens, st, TokenType::Identifier, "Expect class name."@);
        match name.value {
            Some(n) => {
                let parent = superclass(tokens, name.state);
                match parent.value {
                    Some(p) => {
                        let open = consume(
                            tokens,
                            parent.state,
                            TokenType::LeftBrace,
                            "Expect '{' before class body."@,
                        );
                        if open.value is Some {
                            lemma_moved_stmts_push(Seq::empty(), StmtModel::Null, k);
                            lemma_methods_moved(
                                tokens,
                                open.state,
                                Seq::empty(),
                                (fuel - 1) as nat,
                                k,
                            );
                            let members = methods(
                                tokens,
                                open.state,
                                Seq::empty(),
                                (fuel - 1) as nat,
                            );
                            match members.value {
                                Some(ms) => lemma_moved_class(n, p, ms, k),
                                None => {},
                            }
                        }
                    },
                    None => {},
                }
            },
            None => {},
        }
    }
}

proof fn lemma_declaration_moved(tokens: Seq<TokenModel>, st: ParseState, fuel: nat, k: nat)
    ensures
        declaration(tokens, moved_state(st, k), fuel).0 == moved_state(
            declaration(tokens, st, fuel).0,
            k,
        ),
        declaration(tokens, moved_state(st, k), fuel).1 == moved_stmt(
            declaration(tokens, st, fuel).1,
            k,
        ),
    decreases fuel, 0nat,
{
    if fuel > 0 {
        let next = advance(tokens, st);
        if check(tokens, st, TokenType::Class) {
            lemma_class_declaration_moved(tokens, next, (fuel - 1) as nat, k);
        } else if check(tokens, st, TokenType::Fun) {
            lemma_function_moved(tokens, next, "function"@, (fuel - 1) as nat, k);
        } else if check(tokens, st, TokenType::Var) {
            lemma_var_declaration_moved(tokens, next, (fuel - 1) as nat, k);
        } else {
            lemma_statement_moved(tokens, st, (fuel - 1) as nat, k);
        }
    }
}

proof fn lemma_program_moved(
    tokens: Seq<TokenModel>,
    st: ParseState,
    sofar: Seq<StmtModel>,
    fuel: nat,
    k: nat,
)
    ensures
        program(tokens, moved_state(st, k), moved_stmts(sofar, k), fuel).0 == moved_state(
            program(tokens, st, sofar, fuel).0,
            k,
        ),
        program(tokens, moved_state(st, k), moved_stmts(sofar, k), fuel).1 == moved_stmts(
            program(tokens, st, sofar, fuel).1,
            k,
        ),
    decreases fuel, 0nat,
{
    if fuel > 0 && !at_end(tokens, st) {
        lemma_declaration_moved(tokens, st, (fuel - 1) as nat, k);
        let (next, stmt) = declaration(tokens, st, (fuel - 1) as nat);
        lemma_moved_stmts_push(sofar, stmt, k);
        lemma_program_moved(tokens, next, sofar.push(stmt), (fuel - 1) as nat, k);
    }
}

/// Where numbering starts matters to the identities alone: a parse that
/// numbers from `first_id + k` stops at the same token, makes the same
/// reports and gives the same statements as one that numbers from
/// `first_id`, with every identity `k` higher.
pub proof fn lemma_parse_moved(tokens: Seq<TokenModel>, first_id: nat, k: nat)
    ensures
        parse(tokens, first_id + k).0 == moved_state(parse(tokens, first_id).0, k),
        parse(tokens, first_id + k).1 == moved_stmts(parse(tokens, first_id).1, k),
{
    let start = ParseState { pos: 0, next_id: first_id, errors: Seq::empty() };
    lemma_moved_stmts_push(Seq::empty(), StmtModel::Null, k);
    lemma_program_moved(tokens, start, Seq::empty(), crate::grammar::enough(tokens, 0, 40), k);
    assert(moved_state(start, k) == (ParseState {
        pos: 0,
        next_id: first_id + k,
        errors: Seq::empty(),
    }));
}

} // verus!
