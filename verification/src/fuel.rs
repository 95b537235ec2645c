//! Fuel: a rule that has enough fuel gives the same with more, so the fuel
//! of a parse is no part of its meaning.
use vstd::prelude::*;
use crate::expr::{ExprModel, LiteralModel};
use crate::grammar::{
    advance, arguments, assignment, at_end, binary, binary_rest, block, call, call_rest, check,
    class_declaration, consume, declaration, enough, expression, expression_statement, failed,
    finish_call, for_initializer, for_statement, for_tail, function, function_body, if_branches,
    if_statement, join, level_operator, methods, ok, operand, parameters, parse, peek, primary,
    print_statement, program, report_at, return_statement, skip_to_boundary, statement,
    superclass, unary, var_declaration, well_formed, while_statement, ParseState, Parsed,
};
use crate::stmt::StmtModel;
use crate::token::{TokenModel, TokenType};

verus! {

/// Whether a state stands at a token of `tokens`, which end with `Eof`.
pub open spec fn inside(tokens: Seq<TokenModel>, st: ParseState) -> bool {
    well_formed(tokens) && st.pos < tokens.len()
}

/// What holds of a rule with enough fuel: one more unit changes nothing,
/// the rule ends at a token, not before where it began, and beyond it where
/// it succeeded.
pub open spec fn settled<T>(
    tokens: Seq<TokenModel>,
    st: ParseState,
    less: Parsed<T>,
    more: Parsed<T>,
) -> bool {
    &&& more == less
    &&& st.pos <= less.state.pos < tokens.len()
    &&& less.value is Some ==> less.state.pos > st.pos
}

proof fn lemma_primary_steady(tokens: Seq<TokenModel>, st: ParseState, fuel: nat)
    requires
        inside(tokens, st),
        fuel >= enough(tokens, st.pos, 0),
    ensures
        settled(tokens, st, primary(tokens, st, fuel), primary(tokens, st, fuel + 1)),
    decreases fuel, 0nat,
{
    if peek(tokens, st).token_type == TokenType::LeftParen {
        lemma_expression_steady(tokens, advance(tokens, st), (fuel - 1) as nat);
    }
}

proof fn lemma_expression_steady(tokens: Seq<TokenModel>, st: ParseState, fuel: nat)
    requires
        inside(tokens, st),
        fuel >= enough(tokens, st.pos, 16),
    ensures
        settled(tokens, st, expression(tokens, st, fuel), expression(tokens, st, fuel + 1)),
    decreases fuel, 1nat,
{
    lemma_assignment_steady(tokens, st, fuel);
}

proof fn lemma_assignment_steady(tokens: Seq<TokenModel>, st: ParseState, fuel: nat)
    requires
        inside(tokens, st),
        fuel >= enough(tokens, st.pos, 16),
    ensures
        settled(tokens, st, assignment(tokens, st, fuel), assignment(tokens, st, fuel + 1)),
    decreases fuel, 0nat,
{
    lemma_binary_steady(tokens, st, 0, (fuel - 1) as nat);
    let left = binary(tokens, st, 0, (fuel - 1) as nat);
    if left.value is Some && check(tokens, left.state, TokenType::Equal) {
        lemma_assignment_steady(tokens, advance(tokens, left.state), (fuel - 1) as nat);
    }
}

proof fn lemma_operand_steady(tokens: Seq<TokenModel>, st: ParseState, level: nat, fuel: nat)
    requires
        inside(tokens, st),
        level <= 5,
        fuel >= enough(tokens, st.pos, (13 - 2 * level) as nat),
    ensures
        settled(
            tokens,
            st,
            operand(tokens, st, level, fuel),
            operand(tokens, st, level, fuel + 1),
        ),
    decreases fuel, 1nat,
{
    if level >= 5 {
        lemma_unary_steady(tokens, st, fuel);
    } else {
        lemma_binary_steady(tokens, st, level + 1, fuel);
    }
}

proof fn lemma_binary_steady(tokens: Seq<TokenModel>, st: ParseState, level: nat, fuel: nat)
    requires
        inside(tokens, st),
        level <= 5,
        fuel >= enough(tokens, st.pos, (15 - 2 * level) as nat),
    ensures
        settled(tokens, st, binary(tokens, st, level, fuel), binary(tokens, st, level, fuel + 1)),
    decreases fuel, 0nat,
{
    lemma_operand_steady(tokens, st, level, (fuel - 1) as nat);
    let first = operand(tokens, st, level, (fuel - 1) as nat);
    match first.value {
        Some(left) => lemma_binary_rest_steady(
            tokens,
            first.state,
            level,
            left,
            (fuel - 1) as nat,
        ),
        None => {},
    }
}

proof fn lemma_binary_rest_steady(
    tokens: Seq<TokenModel>,
    st: ParseState,
    level: nat,
    left: ExprModel,
    fuel: nat,
)
    requires
        inside(tokens, st),
        level <= 5,
        fuel >= enough(tokens, st.pos, (14 - 2 * level) as nat),
    ensures
        binary_rest(tokens, st, level, left, fuel + 1) == binary_rest(
            tokens,
            st,
            level,
            left,
            fuel,
        ),
        st.pos <= binary_rest(tokens, st, level, left, fuel).state.pos < tokens.len(),
    decreases fuel, 0nat,
{
    if !at_end(tokens, st) && level_operator(level, peek(tokens, st).token_type) {
        let op = peek(tokens, st);
        lemma_operand_steady(tokens, advance(tokens, st), level, (fuel - 1) as nat);
        let right = operand(tokens, advance(tokens, st), level, (fuel - 1) as nat);
        match right.value {
            Some(r) => lemma_binary_rest_steady(
                tokens,
                right.state,
                level,
                join(level, left, op, r),
                (fuel - 1) as nat,
            ),
            None => {},
        }
    }
}

proof fn lemma_unary_steady(tokens: Seq<TokenModel>, st: ParseState, fuel: nat)
    requires
        inside(tokens, st),
        fuel >= enough(tokens, st.pos, 3),
    ensures
        settled(tokens, st, unary(tokens, st, fuel), unary(tokens, st, fuel + 1)),
    decreases fuel, 0nat,
{
    if check(tokens, st, TokenType::Bang) || check(tokens, st, TokenType::Minus) {
        lemma_unary_steady(tokens, advance(tokens, st), (fuel - 1) as nat);
    } else {
        lemma_call_steady(tokens, st, (fuel - 1) as nat);
    }
}

proof fn lemma_call_steady(tokens: Seq<TokenModel>, st: ParseState, fuel: nat)
    requires
        inside(tokens, st),
        fuel >= enough(tokens, st.pos, 2),
    ensures
        settled(tokens, st, call(tokens, st, fuel), call(tokens, st, fuel + 1)),
    decreases fuel, 0nat,
{
    lemma_primary_steady(tokens, st, (fuel - 1) as nat);
    let first = primary(tokens, st, (fuel - 1) as nat);
    match first.value {
        Some(callee) => lemma_call_rest_steady(tokens, first.state, callee, (fuel - 1) as nat),
        None => {},
    }
}

proof fn lemma_call_rest_steady(
    tokens: Seq<TokenModel>,
    st: ParseState,
    callee: ExprModel,
    fuel: nat,
)
    requires
        inside(tokens, st),
        fuel >= enough(tokens, st.pos, 1),
    ensures
        call_rest(tokens, st, callee, fuel + 1) == call_rest(tokens, st, callee, fuel),
        st.pos <= call_rest(tokens, st, callee, fuel).state.pos < tokens.len(),
    decreases fuel, 0nat,
{
    if check(tokens, st, TokenType::LeftParen) {
        lemma_finish_call_steady(tokens, advance(tokens, st), callee, (fuel - 1) as nat);
        let made = finish_call(tokens, advance(tokens, st), callee, (fuel - 1) as nat);
        match made.value {
            Some(e) => lemma_call_rest_steady(tokens, made.state, e, (fuel - 1) as nat),
            None => {},
        }
    } else if check(tokens, st, TokenType::Dot) {
        let name = consume(
            tokens,
            advance(tokens, st),
            TokenType::Identifier,
            "Expect property name after '.'."@,
        );
        match name.value {
            Some(n) => lemma_call_rest_steady(
                tokens,
                name.state,
                ExprModel::Get(Box::new(callee), n),
                (fuel - 1) as nat,
            ),
            None => {},
        }
    }
}

proof fn lemma_finish_call_steady(
    tokens: Seq<TokenModel>,
    st: ParseState,
    callee: ExprModel,
    fuel: nat,
)
    requires
        inside(tokens, st),
        fuel >= enough(tokens, st.pos, 18),
    ensures
        settled(
            tokens,
            st,
            finish_call(tokens, st, callee, fuel),
            finish_call(tokens, st, callee, fuel + 1),
        ),
    decreases fuel, 0nat,
{
    if !check(tokens, st, TokenType::RightParen) {
        lemma_arguments_steady(tokens, st, Seq::empty(), (fuel - 1) as nat);
    }
}

proof fn lemma_arguments_steady(
    tokens: Seq<TokenModel>,
    st: ParseState,
    sofar: Seq<ExprModel>,
    fuel: nat,
)
    requires
        inside(tokens, st),
        fuel >= enough(tokens, st.pos, 17),
    ensures
        settled(
            tokens,
            st,
            arguments(tokens, st, sofar, fuel),
            arguments(tokens, st, sofar, fuel + 1),
        ),
    decreases fuel, 0nat,
{
    let warned = if sofar.len() >= 255 {
        report_at(st, peek(tokens, st), "Can't have more than 255 arguments."@)
    } else {
        st
    };
    lemma_expression_steady(tokens, warned, (fuel - 1) as nat);
    let arg = expression(tokens, warned, (fuel - 1) as nat);
    match arg.value {
        Some(e) => if check(tokens, arg.state, TokenType::Comma) {
            lemma_arguments_steady(
                tokens,
                advance(tokens, arg.state),
                sofar.push(e),
                (fuel - 1) as nat,
            );
        },
        None => {},
    }
}


proof fn lemma_expression_statement_steady(tokens: Seq<TokenModel>, st: ParseState, fuel: nat)
    requires
        inside(tokens, st),
        fuel >= enough(tokens, st.pos, 16),
    ensures
        settled(
            tokens,
            st,
            expression_statement(tokens, st, fuel),
            expression_statement(tokens, st, fuel + 1),
        ),
    decreases fuel, 2nat,
{
    lemma_expression_steady(tokens, st, fuel);
}

proof fn lemma_print_statement_steady(tokens: Seq<TokenModel>, st: ParseState, fuel: nat)
    requires
        inside(tokens, st),
        fuel >= enough(tokens, st.pos, 16),
    ensures
        print_statement(tokens, st, fuel + 1) == print_statement(tokens, st, fuel),
        st.pos <= print_statement(tokens, st, fuel).state.pos < tokens.len(),
    decreases fuel, 2nat,
{
    lemma_expression_steady(tokens, st, fuel);
}

proof fn lemma_return_statement_steady(
    tokens: Seq<TokenModel>,
    st: ParseState,
    keyword: TokenModel,
    fuel: nat,
)
    requires
        inside(tokens, st),
        fuel >= enough(tokens, st.pos, 16),
    ensures
        return_statement(tokens, st, keyword, fuel + 1) == return_statement(
            tokens,
            st,
            keyword,
            fuel,
        ),
        st.pos <= return_statement(tokens, st, keyword, fuel).state.pos < tokens.len(),
    decreases fuel, 2nat,
{
    if !check(tokens, st, TokenType::Semicolon) {
        lemma_expression_steady(tokens, st, fuel);
    }
}

proof fn lemma_var_declaration_steady(tokens: Seq<TokenModel>, st: ParseState, fuel: nat)
    requires
        inside(tokens, st),
        fuel >= enough(tokens, st.pos, 16),
    ensures
        settled(
            tokens,
            st,
            var_declaration(tokens, st, fuel),
            var_declaration(tokens, st, fuel + 1),
        ),
    decreases fuel, 2nat,
{
    let name = consume(tokens, st, TokenType::Identifier, "Expect variable name."@);
    if name.value is Some && check(tokens, name.state, TokenType::Equal) {
        lemma_expression_steady(tokens, advance(tokens, name.state), fuel);
    }
}

proof fn lemma_if_statement_steady(tokens: Seq<TokenModel>, st: ParseState, fuel: nat)
    requires
        inside(tokens, st),
        fuel >= enough(tokens, st.pos, 1),
    ensures
        if_statement(tokens, st, fuel + 1) == if_statement(tokens, st, fuel),
        st.pos <= if_statement(tokens, st, fuel).state.pos < tokens.len(),
    decreases fuel, 0nat,
{
    let open = consume(tokens, st, TokenType::LeftParen, "Expect '(' after 'if'."@);
    if open.value is Some {
        lemma_expression_steady(tokens, open.state, (fuel - 1) as nat);
        let condition = expression(tokens, open.state, (fuel - 1) as nat);
        match condition.value {
            Some(c) => {
                let close = consume(
                    tokens,
                    condition.state,
                    TokenType::RightParen,
                    "Expect ')' after if condition."@,
                );
                if close.value is Some {
                    lemma_if_branches_steady(tokens, close.state, c, (fuel - 1) as nat);
                }
            },
            None => {},
        }
    }
}

proof fn lemma_if_branches_steady(
    tokens: Seq<TokenModel>,
    st: ParseState,
    condition: ExprModel,
    fuel: nat,
)
    requires
        inside(tokens, st),
        fuel >= enough(tokens, st.pos, 17),
    ensures
        settled(
            tokens,
            st,
            if_branches(tokens, st, condition, fuel),
            if_branches(tokens, st, condition, fuel + 1),
        ),
    decreases fuel, 4nat,
{
    lemma_statement_steady(tokens, st, fuel);
    let then_branch = statement(tokens, st, fuel);
    if then_branch.value is Some && check(tokens, then_branch.state, TokenType::Else) {
        lemma_statement_steady(tokens, advance(tokens, then_branch.state), fuel);
    }
}

proof fn lemma_while_statement_steady(tokens: Seq<TokenModel>, st: ParseState, fuel: nat)
    requires
        inside(tokens, st),
        fuel >= enough(tokens, st.pos, 1),
    ensures
        while_statement(tokens, st, fuel + 1) == while_statement(tokens, st, fuel),
        st.pos <= while_statement(tokens, st, fuel).state.pos < tokens.len(),
    decreases fuel, 0nat,
{
    let open = consume(tokens, st, TokenType::LeftParen, "Expect '(' after 'while'."@);
    if open.value is Some {
        lemma_expression_steady(tokens, open.state, (fuel - 1) as nat);
        let condition = expression(tokens, open.state, (fuel - 1) as nat);
        if condition.value is Some {
            let close = consume(
                tokens,
                condition.state,
                TokenType::RightParen,
                "Expect ')' after condition."@,
            );
            if close.value is Some {
                lemma_statement_steady(tokens, close.state, (fuel - 1) as nat);
            }
        }
    }
}

proof fn lemma_for_initializer_steady(tokens: Seq<TokenModel>, st: ParseState, fuel: nat)
    requires
        inside(tokens, st),
        fuel >= enough(tokens, st.pos, 16),
    ensures
        settled(
            tokens,
            st,
            for_initializer(tokens, st, fuel),
            for_initializer(tokens, st, fuel + 1),
        ),
    decreases fuel, 3nat,
{
    if check(tokens, st, TokenType::Semicolon) {
    } else if check(tokens, st, TokenType::Var) {
        lemma_var_declaration_steady(tokens, advance(tokens, st), fuel);
    } else {
        lemma_expression_statement_steady(tokens, st, fuel);
    }
}

proof fn lemma_for_statement_steady(tokens: Seq<TokenModel>, st: ParseState, fuel: nat)
    requires
        inside(tokens, st),
        fuel >= enough(tokens, st.pos, 1),
    ensures
        for_statement(tokens, st, fuel + 1) == for_statement(tokens, st, fuel),
        st.pos <= for_statement(tokens, st, fuel).state.pos < tokens.len(),
    decreases fuel, 0nat,
{
    let open = consume(tokens, st, TokenType::LeftParen, "Expect '(' after 'for'."@);
    if open.value is Some {
        lemma_for_initializer_steady(tokens, open.state, (fuel - 1) as nat);
        let first = for_initializer(tokens, open.state, (fuel - 1) as nat);
        match first.value {
            Some(initializer) => {
                let second = if !check(tokens, first.state, TokenType::Semicolon) {
                    lemma_expression_steady(tokens, first.state, (fuel - 1) as nat);
                    expression(tokens, first.state, (fuel - 1) as nat)
                } else {
                    ok(first.state, ExprModel::Literal(LiteralModel::Bool(true)))
                };
                match second.value {
                    Some(condition) => lemma_for_tail_steady(
                        tokens,
                        second.state,
                        initializer,
                        condition,
                        (fuel - 1) as nat,
                    ),
                    None => {},
                }
            },
            None => {},
        }
    }
}

proof fn lemma_for_tail_steady(
    tokens: Seq<TokenModel>,
    st: ParseState,
    initializer: StmtModel,
    condition: ExprModel,
    fuel: nat,
)
    requires
        inside(tokens, st),
        fuel >= enough(tokens, st.pos, 17),
    ensures
        for_tail(tokens, st, initializer, condition, fuel + 1) == for_tail(
            tokens,
            st,
            initializer,
            condition,
            fuel,
        ),
        st.pos <= for_tail(tokens, st, initializer, condition, fuel).state.pos < tokens.len(),
    decreases fuel, 4nat,
{
    let semi = consume(tokens, st, TokenType::Semicolon, "Expect ';' after loop condition."@);
    if semi.value is Some {
        let third = if !check(tokens, semi.state, TokenType::RightParen) {
            lemma_expression_steady(tokens, semi.state, fuel);
            let e = expression(tokens, semi.state, fuel);
            match e.value {
                None => failed(e.state),
                Some(v) => ok(e.state, Some(v)),
            }
        } else {
            ok(semi.state, None::<ExprModel>)
        };
        if third.value is Some {
            let close = consume(
                tokens,
                third.state,
                TokenType::RightParen,
                "Expect ')' after for clauses."@,
            );
            if close.value is Some {
                lemma_statement_steady(tokens, close.state, fuel);
            }
        }
    }
}

proof fn lemma_statement_steady(tokens: Seq<TokenModel>, st: ParseState, fuel: nat)
    requires
        inside(tokens, st),
        fuel >= enough(tokens, st.pos, 17),
    ensures
        settled(tokens, st, statement(tokens, st, fuel), statement(tokens, st, fuel + 1)),
    decreases fuel, 3nat,
{
    let next = advance(tokens, st);
    if check(tokens, st, TokenType::If) {
        lemma_if_statement_steady(tokens, next, (fuel - 1) as nat);
    } else if check(tokens, st, TokenType::Print) {
        lemma_print_statement_steady(tokens, next, (fuel - 1) as nat);
    } else if check(tokens, st, TokenType::LeftBrace) {
        lemma_block_steady(tokens, next, Seq::empty(), (fuel - 1) as nat);
    } else if check(tokens, st, TokenType::While) {
        lemma_while_statement_steady(tokens, next, (fuel - 1) as nat);
    } else if check(tokens, st, TokenType::For) {
        lemma_for_statement_steady(tokens, next, (fuel - 1) as nat);
    } else if check(tokens, st, TokenType::Return) {
        lemma_return_statement_steady(tokens, next, peek(tokens, st), (fuel - 1) as nat);
    } else {
        lemma_expression_statement_steady(tokens, st, (fuel - 1) as nat);
    }
}

proof fn lemma_block_steady(
    tokens: Seq<TokenModel>,
    st: ParseState,
    sofar: Seq<StmtModel>,
    fuel: nat,
)
    requires
        inside(tokens, st),
        fuel >= enough(tokens, st.pos, 19),
    ensures
        block(tokens, st, sofar, fuel + 1) == block(tokens, st, sofar, fuel),
        st.pos <= block(tokens, st, sofar, fuel).state.pos < tokens.len(),
    decreases fuel, 0nat,
{
    if !check(tokens, st, TokenType::RightBrace) && !at_end(tokens, st) {
        lemma_declaration_steady(tokens, st, (fuel - 1) as nat);
        let (next, stmt) = declaration(tokens, st, (fuel - 1) as nat);
        lemma_block_steady(tokens, next, sofar.push(stmt), (fuel - 1) as nat);
    }
}

proof fn lemma_parameters_steady(
    tokens: Seq<TokenModel>,
    st: ParseState,
    sofar: Seq<TokenModel>,
    fuel: nat,
)
    requires
        inside(tokens, st),
        fuel >= enough(tokens, st.pos, 1),
    ensures
        parameters(tokens, st, sofar, fuel + 1) == parameters(tokens, st, sofar, fuel),
        st.pos <= parameters(tokens, st, sofar, fuel).state.pos < tokens.len(),
    decreases fuel, 0nat,
{
    let warned = if sofar.len() >= 255 {
        report_at(st, peek(tokens, st), "Can't have more than 255 parameters."@)
    } else {
        st
    };
    let name = consume(tokens, warned, TokenType::Identifier, "Expect parameter name."@);
    match name.value {
        Some(n) => if check(tokens, name.state, TokenType::Comma) {
            lemma_parameters_steady(
                tokens,
                advance(tokens, name.state),
                sofar.push(n),
                (fuel - 1) as nat,
            );
        },
        None => {},
    }
}

proof fn lemma_function_steady(
    tokens: Seq<TokenModel>,
    st: ParseState,
    kind: Seq<char>,
    fuel: nat,
)
    requires
        inside(tokens, st),
        fuel >= enough(tokens, st.pos, 20),
    ensures
        settled(
            tokens,
            st,
            function(tokens, st, kind, fuel),
            function(tokens, st, kind, fuel + 1),
        ),
    decreases fuel, 0nat,
{
    let name = consume(tokens, st, TokenType::Identifier, "Expect "@ + kind + " name"@);
    match name.value {
        Some(n) => {
            let open = consume(
                tokens,
                name.state,
                TokenType::LeftParen,
                "Expect '(' after "@ + kind + " name."@,
            );
            if open.value is Some {
                let params = if check(tokens, open.state, TokenType::RightParen) {
                    ok(open.state, Seq::<TokenModel>::empty())
                } else {
                    lemma_parameters_steady(tokens, open.state, Seq::empty(), (fuel - 1) as nat);
                    parameters(tokens, open.state, Seq::empty(), (fuel - 1) as nat)
                };
                match params.value {
                    Some(ps) => lemma_function_body_steady(
                        tokens,
                        params.state,
                        kind,
                        n,
                        ps,
                        (fuel - 1) as nat,
                    ),
                    None => {},
                }
            }
        },
        None => {},
    }
}

proof fn lemma_function_body_steady(
    tokens: Seq<TokenModel>,
    st: ParseState,
    kind: Seq<char>,
    name: TokenModel,
    params: Seq<TokenModel>,
    fuel: nat,
)
    requires
        inside(tokens, st),
        fuel >= enough(tokens, st.pos, 20),
    ensures
        function_body(tokens, st, kind, name, params, fuel + 1) == function_body(
            tokens,
            st,
            kind,
            name,
            params,
            fuel,
        ),
        st.pos <= function_body(tokens, st, kind, name, params, fuel).state.pos < tokens.len(),
    decreases fuel, 1nat,
{
    let close = consume(tokens, st, TokenType::RightParen, "Expect ')' after parameters."@);
    if close.value is Some {
        let open = consume(
            tokens,
            close.state,
            TokenType::LeftBrace,
            "Expect '{' before "@ + kind + " body."@,
        );
        if open.value is Some {
            lemma_block_steady(tokens, open.state, Seq::empty(), fuel);
        }
    }
}

proof fn lemma_methods_steady(
    tokens: Seq<TokenModel>,
    st: ParseState,
    sofar: Seq<StmtModel>,
    fuel: nat,
)
    requires
        inside(tokens, st),
        fuel >= enough(tokens, st.pos, 21),
    ensures
        methods(tokens, st, sofar, fuel + 1) == methods(tokens, st, sofar, fuel),
        st.pos <= methods(tokens, st, sofar, fuel).state.pos < tokens.len(),
    decreases fuel, 0nat,
{
    if !check(tokens, st, TokenType::RightBrace) && !at_end(tokens, st) {
        lemma_function_steady(tokens, st, "method"@, (fuel - 1) as nat);
        let method = function(tokens, st, "method"@, (fuel - 1) as nat);
        match method.value {
            Some(m) => lemma_methods_steady(
                tokens,
                method.state,
                sofar.push(m),
                (fuel - 1) as nat,
            ),
            None => {},
        }
    }
}

proof fn lemma_class_declaration_steady(tokens: Seq<TokenModel>, st: ParseState, fuel: nat)
    requires
        inside(tokens, st),
        fuel >= enough(tokens, st.pos, 1),
    ensures
        class_declaration(tokens, st, fuel + 1) == class_declaration(tokens, st, fuel),
        st.pos <= class_declaration(tokens, st, fuel).state.pos < tokens.len(),
    decreases fuel, 0nat,
{
    let name = consume(tokens, st, TokenType::Identifier, "Expect class name."@);
    if name.value is Some {
        let parent = superclass(tokens, name.state);
        if parent.value is Some {
            let open = consume(
                tokens,
                parent.state,
                TokenType::LeftBrace,
                "Expect '{' before class body."@,
            );
            if open.value is Some {
                lemma_methods_steady(tokens, open.state, Seq::empty(), (fuel - 1) as nat);
            }
        }
    }
}

/// Recovery ends at a token, not before where it began.
proof fn lemma_skip_bounds(tokens: Seq<TokenModel>, pos: nat)
    requires
        well_formed(tokens),
        pos < tokens.len(),
    ensures
        pos <= skip_to_boundary(tokens, pos) < tokens.len(),
    decreases tokens.len() - pos,
{
    if tokens[pos as int].token_type != TokenType::Eof && !(pos >= 1 && tokens[pos
        - 1].token_type == TokenType::Semicolon) && !crate::grammar::starts_statement(
        tokens[pos as int].token_type,
    ) {
        lemma_skip_bounds(tokens, pos + 1);
    }
}

proof fn lemma_declaration_steady(tokens: Seq<TokenModel>, st: ParseState, fuel: nat)
    requires
        inside(tokens, st),
        fuel >= enough(tokens, st.pos, 18),
    ensures
        declaration(tokens, st, fuel + 1) == declaration(tokens, st, fuel),
        st.pos <= declaration(tokens, st, fuel).0.pos < tokens.len(),
        !at_end(tokens, st) ==> declaration(tokens, st, fuel).0.pos > st.pos,
    decreases fuel, 0nat,
{
    let next = advance(tokens, st);
    let parsed = if check(tokens, st, TokenType::Class) {
        lemma_class_declaration_steady(tokens, next, (fuel - 1) as nat);
        class_declaration(tokens, next, (fuel - 1) as nat)
    } else if check(tokens, st, TokenType::Fun) {
        lemma_function_steady(tokens, next, "function"@, (fuel - 1) as nat);
        function(tokens, next, "function"@, (fuel - 1) as nat)
    } else if check(tokens, st, TokenType::Var) {
        lemma_var_declaration_steady(tokens, next, (fuel - 1) as nat);
        var_declaration(tokens, next, (fuel - 1) as nat)
    } else {
        lemma_statement_steady(tokens, st, (fuel - 1) as nat);
        statement(tokens, st, (fuel - 1) as nat)
    };
    if parsed.value is None {
        lemma_skip_bounds(tokens, advance(tokens, parsed.state).pos);
    }
}

proof fn lemma_program_steady(
    tokens: Seq<TokenModel>,
    st: ParseState,
    sofar: Seq<StmtModel>,
    fuel: nat,
)
    requires
        inside(tokens, st),
        fuel >= enough(tokens, st.pos, 19),
    ensures
        program(tokens, st, sofar, fuel + 1) == program(tokens, st, sofar, fuel),
        at_end(tokens, program(tokens, st, sofar, fuel).0),
        program(tokens, st, sofar, fuel).0.pos < tokens.len(),
    decreases fuel, 0nat,
{
    if !at_end(tokens, st) {
        lemma_declaration_steady(tokens, st, (fuel - 1) as nat);
        let (next, stmt) = declaration(tokens, st, (fuel - 1) as nat);
        lemma_program_steady(tokens, next, sofar.push(stmt), (fuel - 1) as nat);
    }
}

/// Any fuel that is enough gives the same program.
pub proof fn lemma_program_settled(
    tokens: Seq<TokenModel>,
    st: ParseState,
    sofar: Seq<StmtModel>,
    fuel: nat,
    more: nat,
)
    requires
        inside(tokens, st),
        fuel >= enough(tokens, st.pos, 19),
    ensures
        program(tokens, st, sofar, fuel + more) == program(tokens, st, sofar, fuel),
    decreases more,
{
    if more > 0 {
        lemma_program_settled(tokens, st, sofar, fuel, (more - 1) as nat);
        lemma_program_steady(tokens, st, sofar, (fuel + more - 1) as nat);
    }
}

/// The fuel of a parse is no part of its meaning: with any fuel from
/// `enough` for the whole input on, the rules give the statements and the
/// state of `parse`, and they end at `Eof`.
pub proof fn lemma_parse_needs_no_more(tokens: Seq<TokenModel>, first_id: nat, fuel: nat)
    requires
        well_formed(tokens),
        fuel >= enough(tokens, 0, 19),
    ensures
        program(
            tokens,
            ParseState { pos: 0, next_id: first_id, errors: Seq::empty() },
            Seq::empty(),
            fuel,
        ) == parse(tokens, first_id),
        at_end(tokens, parse(tokens, first_id).0),
{
    let start = ParseState { pos: 0, next_id: first_id, errors: Seq::empty() };
    let base = enough(tokens, 0, 19);
    lemma_program_settled(tokens, start, Seq::empty(), base, (fuel - base) as nat);
    lemma_program_settled(tokens, start, Seq::empty(), base, 21);
    lemma_program_steady(tokens, start, Seq::empty(), enough(tokens, 0, 40));
}

} // verus!
