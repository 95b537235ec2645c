use rlox::expr::Expr;
use rlox::interpreter::Interpreter;
use rlox::parser::Parser;
use rlox::resolver::Resolver;
use rlox::scanner::Scanner;
use rlox::stmt::Stmt;
use std::rc::Rc;

fn parse(source: &str) -> Vec<Rc<Stmt>> {
    let mut scanner = Scanner::new(source);
    let tokens = scanner.scan_tokens().clone();
    let mut parser = Parser::new(&tokens);
    let stmts = parser.parse();
    assert!(!parser.has_error(), "{:?}", parser.errors());
    stmts
}

fn resolve(source: &str) -> (Interpreter, Vec<String>, bool) {
    let stmts = parse(source);
    let mut interpreter = Interpreter::new();
    let mut resolver = Resolver::new(&interpreter);
    resolver.resolve(&mut interpreter, &stmts);
    (interpreter, resolver.errors().clone(), resolver.has_error())
}

fn reports(source: &str) -> Vec<String> {
    let (_, errors, failed) = resolve(source);
    assert_eq!(failed, !errors.is_empty());
    errors
}

/// The depth of each variable expression, by identity, as far as `count`.
fn depths(source: &str, count: usize) -> Vec<Option<usize>> {
    let (interpreter, errors, _) = resolve(source);
    assert_eq!(errors, Vec::<String>::new());
    (0..count).map(|id| interpreter.depth(id)).collect()
}

#[test]
fn globals_are_left_unresolved() {
    assert_eq!(depths("var a = 1; print a; a = 2;", 3), vec![None, None, None]);
}

#[test]
fn locals_resolve_to_their_distance() {
    // identities: a(0) in `print a`, b(1), a(2)
    assert_eq!(
        depths("{ var a = 1; print a; { var b = 2; print b; print a; } }", 4),
        vec![Some(0), Some(0), Some(1), None]
    );
}

#[test]
fn assignment_resolves_like_a_read() {
    // identities: a(0) is the target, b(1) the value
    assert_eq!(depths("{ var a; { var b; a = b; } }", 3), vec![Some(1), Some(0), None]);
}

#[test]
fn function_body_is_one_scope_inside_the_parameters_scope() {
    // identities: x(0), g(1) global
    assert_eq!(depths("fun f(x) { print x; print g; }", 3), vec![Some(0), None, None]);
    // identities: a(0) is one block out of the function scope
    assert_eq!(depths("{ var a; fun f() { print a; } }", 2), vec![Some(1), None]);
    // the function's own name is visible inside it
    assert_eq!(depths("{ fun f() { f; } }", 2), vec![Some(1), None]);
}

#[test]
fn closure_resolves_to_the_earlier_declaration() {
    // identities: a(0) in f refers to the global; f(1) the call
    assert_eq!(
        depths("var a = 1; { fun f() { print a; } var a = 2; f(); }", 3),
        vec![None, Some(0), None]
    );
}

#[test]
fn this_and_super_resolve_through_their_scopes() {
    // identities: this(0)
    assert_eq!(depths("class A { m() { this; } }", 2), vec![Some(1), None]);
    // identities: A(0) the superclass, super(1), this(2)
    assert_eq!(
        depths("class A {} class B < A { m() { super.m; this; } }", 4),
        vec![None, Some(2), Some(1), None]
    );
    // a local superclass is resolved like any variable
    assert_eq!(depths("{ class A {} class B < A {} }", 2), vec![Some(0), None]);
}

#[test]
fn top_level_return_is_reported() {
    assert_eq!(
        reports("return 1;"),
        vec!["[line 1] Error at 'return': Can't return from top-level code."]
    );
    assert_eq!(
        reports("{\nreturn;\n}"),
        vec!["[line 2] Error at 'return': Can't return from top-level code."]
    );
    assert_eq!(reports("fun f() { return 1; }"), Vec::<String>::new());
}

#[test]
fn initializer_may_not_return_a_value() {
    assert_eq!(
        reports("class A { init() { return 1; } }"),
        vec!["[line 1] Error at 'return': Can't return a value from an initializer."]
    );
    assert_eq!(reports("class A { init() { return; } }"), Vec::<String>::new());
    assert_eq!(reports("class A { other() { return 1; } }"), Vec::<String>::new());
    assert_eq!(reports("class A { init() { fun f() { return 1; } } }"), Vec::<String>::new());
}

#[test]
fn this_outside_a_class_is_reported() {
    assert_eq!(
        reports("print this;"),
        vec!["[line 1] Error at 'this': Can't use 'this' outside of a class."]
    );
    assert_eq!(
        reports("fun f() { this; }"),
        vec!["[line 1] Error at 'this': Can't use 'this' outside of a class."]
    );
    assert_eq!(reports("class A { m() { fun f() { this; } } }"), Vec::<String>::new());
}

#[test]
fn super_needs_a_superclass() {
    assert_eq!(
        reports("super.m;"),
        vec!["[line 1] Error at 'super': Can't use 'super' outside of a class."]
    );
    assert_eq!(
        reports("class A { m() { super.m; } }"),
        vec!["[line 1] Error at 'super': Can't use 'super' in a class with no superclass."]
    );
    assert_eq!(reports("class A {} class B < A { m() { super.m; } }"), Vec::<String>::new());
}

#[test]
fn class_mode_is_restored_after_a_class() {
    assert_eq!(
        reports("class A {} class B < A {} class C { m() { super.m; } }"),
        vec!["[line 1] Error at 'super': Can't use 'super' in a class with no superclass."]
    );
    assert_eq!(
        reports("class A { m() {} } this;"),
        vec!["[line 1] Error at 'this': Can't use 'this' outside of a class."]
    );
}

#[test]
fn class_may_not_inherit_from_itself() {
    assert_eq!(
        reports("class A < A {}"),
        vec!["[line 1] Error at 'A': A class can't inherit from itself"]
    );
}

#[test]
fn local_may_not_be_read_in_its_own_initializer() {
    assert_eq!(
        reports("{ var a = a; }"),
        vec!["[line 1] Error at 'a': Can't read local variable in its own initializer."]
    );
    assert_eq!(reports("var a = 1; { var b = a; }"), Vec::<String>::new());
    assert_eq!(reports("var a = a;"), Vec::<String>::new());
}

#[test]
fn local_may_not_be_declared_twice_in_one_scope() {
    assert_eq!(
        reports("{ var a = 1;\nvar a = 2; }"),
        vec!["[line 2] Error at 'a': Already a variable with this name in this scope."]
    );
    assert_eq!(
        reports("fun f(a, a) {}"),
        vec!["[line 1] Error at 'a': Already a variable with this name in this scope."]
    );
    assert_eq!(reports("{ var a; { var a; } }"), Vec::<String>::new());
    assert_eq!(reports("var a; var a;"), Vec::<String>::new());
}

#[test]
fn resolution_goes_on_after_an_error() {
    assert_eq!(
        reports("return 1; print this; { var a = a; }"),
        vec![
            "[line 1] Error at 'return': Can't return from top-level code.",
            "[line 1] Error at 'this': Can't use 'this' outside of a class.",
            "[line 1] Error at 'a': Can't read local variable in its own initializer.",
        ]
    );
}

#[test]
fn resolving_twice_changes_no_depth() {
    let source = "var g; { var a; fun f(x) { a = x; { var b = g; print a + b; } } \
                  class A { m() { this.n = a; } } class B < A { m() { super.m(); } } }";
    let stmts = parse(source);
    let mut interpreter = Interpreter::new();
    let mut first = Resolver::new(&interpreter);
    first.resolve(&mut interpreter, &stmts);
    assert!(!first.has_error());
    let once: Vec<Option<usize>> = (0..20).map(|id| interpreter.depth(id)).collect();
    let mut second = Resolver::new(&interpreter);
    second.resolve(&mut interpreter, &stmts);
    assert!(!second.has_error());
    let twice: Vec<Option<usize>> = (0..20).map(|id| interpreter.depth(id)).collect();
    assert_eq!(once, twice);
    assert_eq!(once.iter().filter(|d| d.is_some()).count(), 8);
}

#[test]
fn interpreter_records_what_it_is_told() {
    let mut interpreter = Interpreter::new();
    assert_eq!(interpreter.depth(5), None);
    interpreter.resolve(5, 2);
    assert_eq!(interpreter.depth(5), Some(2));
    assert_eq!(interpreter.depth(4), None);
    assert_eq!(interpreter.depth(6), None);
    interpreter.resolve(5, 0);
    assert_eq!(interpreter.depth(5), Some(0));
}

#[test]
fn variable_nodes_of_one_name_are_told_apart() {
    let stmts = parse("{ var a; a; { var a; a; } }");
    let mut found = Vec::new();
    fn walk(s: &Stmt, out: &mut Vec<usize>) {
        match s {
            Stmt::Block(body) => body.iter().for_each(|s| walk(s, out)),
            Stmt::Expression(e) => {
                if let Expr::Variable(id, _) = &**e {
                    out.push(*id)
                }
            }
            _ => {}
        }
    }
    stmts.iter().for_each(|s| walk(s, &mut found));
    assert_eq!(found, vec![0, 1]);
}
