use rlox::ast_printer::print;
use rlox::expr::{Expr, Literal};
use rlox::parser::Parser;
use rlox::scanner::Scanner;
use rlox::stmt::Stmt;
use rlox::token::{Token, TokenType};
use std::rc::Rc;

fn parse(source: &str) -> (Vec<Rc<Stmt>>, Vec<String>, bool) {
    let mut scanner = Scanner::new(source);
    let tokens = scanner.scan_tokens().clone();
    let mut parser = Parser::new(&tokens);
    let stmts = parser.parse();
    (stmts, parser.errors().clone(), parser.has_error())
}

/// The expression in prefix form, with every grouping and nesting shown.
fn show(e: &Expr) -> String {
    match e {
        Expr::Assign(_, name, value) => format!("(= {} {})", name.lexeme, show(value)),
        Expr::Binary(l, op, r) => format!("({} {} {})", op.lexeme, show(l), show(r)),
        Expr::Call(callee, _, args) => {
            let args: Vec<String> = args.iter().map(|a| show(a)).collect();
            format!("(call {} [{}])", show(callee), args.join(" "))
        }
        Expr::Get(object, name) => format!("(get {} {})", show(object), name.lexeme),
        Expr::Grouping(inner) => format!("(group {})", show(inner)),
        Expr::Literal(Literal::Nil) => "nil".to_string(),
        Expr::Literal(Literal::Bool(b)) => format!("{}", b),
        Expr::Literal(Literal::Number(n)) => n.clone(),
        Expr::Literal(Literal::String(s)) => format!("\"{}\"", s),
        Expr::Logical(l, op, r) => format!("({} {} {})", op.lexeme, show(l), show(r)),
        Expr::SetField(object, name, value) => {
            format!("(set {} {} {})", show(object), name.lexeme, show(value))
        }
        Expr::Super(_, _, method) => format!("(super {})", method.lexeme),
        Expr::This(_, _) => "this".to_string(),
        Expr::Unary(op, right) => format!("({} {})", op.lexeme, show(right)),
        Expr::Variable(_, name) => name.lexeme.clone(),
    }
}

fn shown(s: &Stmt) -> String {
    match s {
        Stmt::Null => "null".to_string(),
        Stmt::Block(body) => {
            let body: Vec<String> = body.iter().map(|s| shown(s)).collect();
            format!("{{{}}}", body.join(" "))
        }
        Stmt::Class(name, superclass, methods) => {
            let methods: Vec<String> = methods.iter().map(|s| shown(s)).collect();
            let parent = match superclass {
                Some(p) => format!(" < {}", show(p)),
                None => String::new(),
            };
            format!("(class {}{} [{}])", name.lexeme, parent, methods.join(" "))
        }
        Stmt::Expression(e) => format!("(expr {})", show(e)),
        Stmt::Function(name, params, body) => {
            let params: Vec<String> = params.iter().map(|p| p.lexeme.clone()).collect();
            let body: Vec<String> = body.iter().map(|s| shown(s)).collect();
            format!("(fun {} [{}] [{}])", name.lexeme, params.join(" "), body.join(" "))
        }
        Stmt::If(c, t, None) => format!("(if {} {})", show(c), shown(t)),
        Stmt::If(c, t, Some(e)) => format!("(if {} {} {})", show(c), shown(t), shown(e)),
        Stmt::Print(e) => format!("(print {})", show(e)),
        Stmt::Return(_, None) => "(return)".to_string(),
        Stmt::Return(_, Some(e)) => format!("(return {})", show(e)),
        Stmt::Var(name, None) => format!("(var {})", name.lexeme),
        Stmt::Var(name, Some(e)) => format!("(var {} {})", name.lexeme, show(e)),
        Stmt::While(c, body) => format!("(while {} {})", show(c), shown(body)),
    }
}

fn tree(source: &str) -> Vec<String> {
    let (stmts, errors, failed) = parse(source);
    assert_eq!(errors, Vec::<String>::new());
    assert!(!failed);
    stmts.iter().map(|s| shown(s)).collect()
}

fn reports(source: &str) -> Vec<String> {
    let (_, errors, failed) = parse(source);
    assert!(failed);
    errors
}

#[test]
fn empty_program_has_no_statements() {
    assert_eq!(tree(""), Vec::<String>::new());
}

#[test]
fn binary_operators_bind_by_precedence() {
    assert_eq!(tree("1 + 2 * 3;"), vec!["(expr (+ 1 (* 2 3)))"]);
    assert_eq!(tree("1 * 2 + 3;"), vec!["(expr (+ (* 1 2) 3))"]);
    assert_eq!(tree("1 < 2 == 3 > 4;"), vec!["(expr (== (< 1 2) (> 3 4)))"]);
    assert_eq!(tree("a or b and c;"), vec!["(expr (or a (and b c)))"]);
    assert_eq!(tree("a == b or c != d;"), vec!["(expr (or (== a b) (!= c d)))"]);
    assert_eq!(tree("1 + 2 <= 3 - 4;"), vec!["(expr (<= (+ 1 2) (- 3 4)))"]);
}

#[test]
fn binary_operators_join_to_the_left() {
    assert_eq!(tree("1 - 2 - 3;"), vec!["(expr (- (- 1 2) 3))"]);
    assert_eq!(tree("8 / 4 / 2;"), vec!["(expr (/ (/ 8 4) 2))"]);
    assert_eq!(tree("a or b or c;"), vec!["(expr (or (or a b) c))"]);
}

#[test]
fn unary_operators_nest_to_the_right() {
    assert_eq!(tree("!-a;"), vec!["(expr (! (- a)))"]);
    assert_eq!(tree("-a * b;"), vec!["(expr (* (- a) b))"]);
    assert_eq!(tree("-a.b();"), vec!["(expr (- (call (get a b) [])))"]);
}

#[test]
fn grouping_is_kept() {
    assert_eq!(tree("(1 + 2) * 3;"), vec!["(expr (* (group (+ 1 2)) 3))"]);
    assert_eq!(tree("((a));"), vec!["(expr (group (group a)))"]);
}

#[test]
fn literals_keep_their_text() {
    assert_eq!(
        tree("true; false; nil; 12.50; \"s\"; this;"),
        vec![
            "(expr true)",
            "(expr false)",
            "(expr nil)",
            "(expr 12.50)",
            "(expr \"s\")",
            "(expr this)"
        ]
    );
}

#[test]
fn assignment_is_right_associative() {
    assert_eq!(tree("a = b = c;"), vec!["(expr (= a (= b c)))"]);
    assert_eq!(tree("a.b = c;"), vec!["(expr (set a b c))"]);
    assert_eq!(tree("a.b.c = d = e;"), vec!["(expr (set (get a b) c (= d e)))"]);
    assert_eq!(tree("a = b or c;"), vec!["(expr (= a (or b c)))"]);
}

#[test]
fn invalid_assignment_target_is_reported_at_the_equal_sign() {
    assert_eq!(reports("1 = 2;"), vec!["[line 1] Error at '=': Invalid assignment target."]);
    assert_eq!(reports("a + b = c;"), vec!["[line 1] Error at '=': Invalid assignment target."]);
    assert_eq!(reports("(a) = 1;"), vec!["[line 1] Error at '=': Invalid assignment target."]);
}

#[test]
fn calls_and_properties_chain() {
    assert_eq!(tree("f();"), vec!["(expr (call f []))"]);
    assert_eq!(tree("f(1, a + b)(c);"), vec!["(expr (call (call f [1 (+ a b)]) [c]))"]);
    assert_eq!(tree("a.b.c;"), vec!["(expr (get (get a b) c))"]);
    assert_eq!(tree("a.b(1).c;"), vec!["(expr (get (call (get a b) [1]) c))"]);
    assert_eq!(tree("super.m(1);"), vec!["(expr (call (super m) [1]))"]);
}

#[test]
fn call_keeps_the_closing_parenthesis() {
    let (stmts, _, _) = parse("f(\n1\n);");
    match &*stmts[0] {
        Stmt::Expression(e) => match &**e {
            Expr::Call(_, paren, args) => {
                assert_eq!(paren.token_type, TokenType::RightParen);
                assert_eq!(paren.line, 3);
                assert_eq!(args.len(), 1);
            }
            _ => panic!("not a call"),
        },
        _ => panic!("not an expression statement"),
    }
}

#[test]
fn statements_parse() {
    assert_eq!(tree("print 1;"), vec!["(print 1)"]);
    assert_eq!(tree("var a;"), vec!["(var a)"]);
    assert_eq!(tree("var a = 1 + 2;"), vec!["(var a (+ 1 2))"]);
    assert_eq!(tree("{ var a; print a; }"), vec!["{(var a) (print a)}"]);
    assert_eq!(tree("{}"), vec!["{}"]);
    assert_eq!(tree("if (a) b; else c;"), vec!["(if a (expr b) (expr c))"]);
    assert_eq!(tree("if (a) if (b) c; else d;"), vec!["(if a (if b (expr c) (expr d)))"]);
    assert_eq!(tree("while (a) { b; }"), vec!["(while a {(expr b)})"]);
    assert_eq!(
        tree("fun f(a, b) { return a; } fun g() { return; }"),
        vec!["(fun f [a b] [(return a)])", "(fun g [] [(return)])"]
    );
}

#[test]
fn for_becomes_a_block_with_a_while() {
    assert_eq!(
        tree("for (var i = 0; i < 3; i = i + 1) print i;"),
        vec!["{(var i 0) (while (< i 3) {(print i) (expr (= i (+ i 1)))})}"]
    );
    assert_eq!(tree("for (;;) f();"), vec!["{null (while true (expr (call f [])))}"]);
    assert_eq!(tree("for (i = 0; ; ) {}"), vec!["{(expr (= i 0)) (while true {})}"]);
    assert_eq!(tree("for (; a; b) c;"), vec!["{null (while a {(expr c) (expr b)})}"]);
}

#[test]
fn classes_parse() {
    assert_eq!(tree("class A {}"), vec!["(class A [])"]);
    assert_eq!(
        tree("class B < A { init(x) { this.x = x; } get() { return this.x; } }"),
        vec!["(class B < A [(fun init [x] [(expr (set this x x))]) (fun get [] [(return (get this x))])])"]
    );
}

#[test]
fn failed_declaration_becomes_null_and_parsing_resumes() {
    let (stmts, errors, failed) = parse("var 1 = 2; print 3; + ; print 4;");
    assert!(failed);
    let shape: Vec<String> = stmts.iter().map(|s| shown(s)).collect();
    assert_eq!(shape, vec!["null", "(print 3)", "null", "(print 4)"]);
    assert_eq!(
        errors,
        vec![
            "[line 1] Error at '1': Expect variable name.",
            "[line 1] Error at '+': Expect expression."
        ]
    );
}

#[test]
fn recovery_stops_before_a_statement_keyword() {
    let (stmts, errors, _) = parse("print ( 1 2 3 var a = 1;");
    let shape: Vec<String> = stmts.iter().map(|s| shown(s)).collect();
    assert_eq!(shape, vec!["null", "(var a 1)"]);
    assert_eq!(errors, vec!["[line 1] Error at '2': Expect ')' after expression."]);
}

#[test]
fn error_at_the_end_says_so() {
    assert_eq!(reports("print 1"), vec!["[line 1] Error at end: Expect ';' after value."]);
    assert_eq!(reports("{ a;"), vec!["[line 1] Error at end: Expect '}' after block."]);
    assert_eq!(reports("a +"), vec!["[line 1] Error at end: Expect expression."]);
}

#[test]
fn rule_reports_name_what_is_missing() {
    assert_eq!(reports("a"), vec!["[line 1] Error at end: Expect ';' after expression."]);
    assert_eq!(reports("var a = 1"), vec![
        "[line 1] Error at end: Expect ';' after variable declaration."
    ]);
    assert_eq!(reports("if a) b;"), vec!["[line 1] Error at 'a': Expect '(' after 'if'."]);
    assert_eq!(reports("if (a b;"), vec!["[line 1] Error at 'b': Expect ')' after if condition."]);
    assert_eq!(reports("while a) b;"), vec!["[line 1] Error at 'a': Expect '(' after 'while'."]);
    assert_eq!(reports("while (a b;"), vec!["[line 1] Error at 'b': Expect ')' after condition."]);
    assert_eq!(reports("for a"), vec!["[line 1] Error at 'a': Expect '(' after 'for'."]);
    assert_eq!(reports("for (;a b) c;"), vec![
        "[line 1] Error at 'b': Expect ';' after loop condition."
    ]);
    assert_eq!(reports("for (;;a b) c;"), vec![
        "[line 1] Error at 'b': Expect ')' after for clauses."
    ]);
    assert_eq!(reports("return 1 }"), vec![
        "[line 1] Error at '}': Expect ';' after return value."
    ]);
    assert_eq!(reports("f(1 2);"), vec!["[line 1] Error at '2': Expect ')' after arguments."]);
    assert_eq!(reports("a.1;"), vec!["[line 1] Error at '1': Expect property name after '.'."]);
    assert_eq!(reports("super;"), vec!["[line 1] Error at ';': Expect '.' after 'super'."]);
    assert_eq!(reports("super.1;"), vec!["[line 1] Error at '1': Expect superclass method name."]);
}

#[test]
fn function_reports_are_worded_by_kind() {
    assert_eq!(reports("fun 1() {}"), vec!["[line 1] Error at '1': Expect function name"]);
    assert_eq!(reports("fun f {}"), vec!["[line 1] Error at '{': Expect '(' after function name."]);
    assert_eq!(reports("fun f(1) {}"), vec!["[line 1] Error at '1': Expect parameter name."]);
    assert_eq!(reports("fun f(a {}"), vec!["[line 1] Error at '{': Expect ')' after parameters."]);
    assert_eq!(reports("fun f() 1;"), vec!["[line 1] Error at '1': Expect '{' before function body."]);
    assert_eq!(reports("class A { 1 }"), vec!["[line 1] Error at '1': Expect method name"]);
    assert_eq!(reports("class A { m }"), vec!["[line 1] Error at '}': Expect '(' after method name."]);
    assert_eq!(reports("class A { m() 1 }"), vec![
        "[line 1] Error at '1': Expect '{' before method body."
    ]);
    assert_eq!(reports("class 1 {}"), vec!["[line 1] Error at '1': Expect class name."]);
    assert_eq!(reports("class A < 1 {}"), vec!["[line 1] Error at '1': Expect superclass name."]);
    assert_eq!(reports("class A 1"), vec!["[line 1] Error at '1': Expect '{' before class body."]);
    assert_eq!(reports("class A { m() {}"), vec!["[line 1] Error at end: Expect '}' after class body."]);
}

fn numbered_list(count: usize) -> String {
    let items: Vec<String> = (0..count).map(|i| format!("a{}", i)).collect();
    items.join(", ")
}

#[test]
fn the_256th_argument_is_reported_and_kept() {
    let (stmts, errors, failed) = parse(&format!("f({});", numbered_list(255)));
    assert!(!failed && errors.is_empty());
    assert_eq!(stmts.len(), 1);

    let (stmts, errors, failed) = parse(&format!("f({});", numbered_list(256)));
    assert!(failed);
    assert_eq!(errors, vec!["[line 1] Error at 'a255': Can't have more than 255 arguments."]);
    match &*stmts[0] {
        Stmt::Expression(e) => match &**e {
            Expr::Call(_, _, args) => assert_eq!(args.len(), 256),
            _ => panic!("not a call"),
        },
        _ => panic!("not an expression statement"),
    }
}

#[test]
fn the_256th_parameter_is_reported_and_kept() {
    let (_, errors, failed) = parse(&format!("fun f({}) {{}}", numbered_list(255)));
    assert!(!failed && errors.is_empty());

    let (stmts, errors, failed) = parse(&format!("fun f({}) {{}}", numbered_list(256)));
    assert!(failed);
    assert_eq!(errors, vec!["[line 1] Error at 'a255': Can't have more than 255 parameters."]);
    match &*stmts[0] {
        Stmt::Function(_, params, _) => assert_eq!(params.len(), 256),
        _ => panic!("not a function"),
    }
}

fn ids(e: &Expr, out: &mut Vec<usize>) {
    match e {
        Expr::Assign(id, _, value) => {
            out.push(*id);
            ids(value, out);
        }
        Expr::Binary(l, _, r) | Expr::Logical(l, _, r) => {
            ids(l, out);
            ids(r, out);
        }
        Expr::Call(callee, _, args) => {
            ids(callee, out);
            for a in args {
                ids(a, out);
            }
        }
        Expr::Get(object, _) | Expr::Grouping(object) | Expr::Unary(_, object) => ids(object, out),
        Expr::Literal(_) => {}
        Expr::SetField(object, _, value) => {
            ids(object, out);
            ids(value, out);
        }
        Expr::Super(id, _, _) | Expr::This(id, _) | Expr::Variable(id, _) => out.push(*id),
    }
}

#[test]
fn variable_expressions_get_distinct_identities() {
    let (stmts, _, _) = parse("a = b + a * this.c(super.d, a);");
    let mut found = Vec::new();
    match &*stmts[0] {
        Stmt::Expression(e) => ids(e, &mut found),
        _ => panic!("not an expression statement"),
    }
    assert_eq!(found, vec![0, 1, 2, 3, 4, 5]);
}

#[test]
fn identities_start_where_the_caller_says() {
    let mut scanner = Scanner::new("a; b;");
    let tokens = scanner.scan_tokens().clone();
    let mut parser = Parser::numbered_from(&tokens, 40);
    let stmts = parser.parse();
    let mut found = Vec::new();
    for s in &stmts {
        match &**s {
            Stmt::Expression(e) => ids(e, &mut found),
            _ => panic!("not an expression statement"),
        }
    }
    assert_eq!(found, vec![40, 41]);
    assert_eq!(parser.next_id(), 42);
}

#[test]
fn same_source_parses_to_the_same_tree() {
    let source = "class A < B { init(x) { this.x = x; } } \
                  fun f(a) { for (var i = 0; i < a; i = i + 1) { print i; } return a or nil; } \
                  var v = f(3) + -2 * (4 - 1); x = ; print \"s\";";
    let first = parse(source);
    let second = parse(source);
    assert_eq!(format!("{:?}", first.0), format!("{:?}", second.0));
    assert_eq!(first.1, second.1);
    assert_eq!(first.2, second.2);
    assert_eq!(first.0.len(), 5);
}

#[test]
fn parser_takes_hand_made_tokens() {
    let tokens = vec![
        Token::new(TokenType::Print, "print", 1),
        Token::new(TokenType::Number, "1", 1),
        Token::new(TokenType::Semicolon, ";", 1),
        Token::new(TokenType::Eof, "", 1),
    ];
    let mut parser = Parser::new(&tokens);
    let stmts = parser.parse();
    assert_eq!(stmts.len(), 1);
    assert_eq!(shown(&stmts[0]), "(print 1)");
    assert!(!parser.has_error());
}

fn printed(source: &str) -> String {
    let (stmts, _, _) = parse(source);
    match &*stmts[0] {
        Stmt::Expression(e) => print(e),
        _ => panic!("not an expression statement"),
    }
}

#[test]
fn printer_shows_every_nesting() {
    assert_eq!(printed("-123 * (45.67);"), "(* (- (123)) (group (45.67)))");
    assert_eq!(printed("1 + 2 == 3;"), "(== (+ (1) (2)) (3))");
    assert_eq!(printed("nil or !true;"), "(or (nil) (! (true)))");
    assert_eq!(printed("a = \"s\";"), "(= a (s))");
    assert_eq!(printed("f(a, 1)(b);"), "(call (call f a (1)) b)");
    assert_eq!(printed("f();"), "(call f)");
    assert_eq!(printed("this.x.y = super.m;"), "(set (get this x) y (super m))");
}

fn moved(e: &Expr, k: usize) -> String {
    let mut out = Vec::new();
    ids(e, &mut out);
    format!("{} {:?}", show(e), out.iter().map(|id| id + k).collect::<Vec<usize>>())
}

#[test]
fn a_later_start_moves_every_identity_and_nothing_else() {
    let source = "a = b.c(this, super.d) or (e = f);";
    let mut scanner = Scanner::new(source);
    let tokens = scanner.scan_tokens().clone();
    let mut early = Parser::numbered_from(&tokens, 3);
    let mut late = Parser::numbered_from(&tokens, 10);
    let first = early.parse();
    let second = late.parse();
    assert_eq!(first.len(), 1);
    assert_eq!(second.len(), 1);
    match (&*first[0], &*second[0]) {
        (Stmt::Expression(a), Stmt::Expression(b)) => {
            assert_eq!(moved(a, 7), moved(b, 0));
            let mut found = Vec::new();
            ids(b, &mut found);
            assert_eq!(found, vec![10, 11, 12, 13, 14, 15]);
        }
        _ => panic!("not an expression statement"),
    }
    assert_eq!(early.next_id() + 7, late.next_id());
    assert_eq!(early.errors(), late.errors());
}
