use rlox::interpreter::{Action, Shown};
use rlox::expr::Value;
use rlox::lox::{exit_code, Lox, EXIT_COMPILE_ERROR, EXIT_OK, EXIT_RUNTIME_ERROR};
use rlox::loxerr::RuntimeException;
use rlox::token::TokenType;

struct Outcome {
    out: Vec<String>,
    err: Vec<String>,
    code: i32,
}

fn drive(lox: &mut Lox, out: &mut Vec<String>) -> Result<(), RuntimeException> {
    loop {
        match lox.interpreter.step() {
            Action::Continue => {}
            Action::Waiting => panic!("the interpreter waits for a reply that is not due"),
            Action::Finished => return Ok(()),
            Action::Print(Shown::Text(text)) => out.push(text),
            Action::Print(Shown::Number(bits)) => out.push(format!("{}", f64::from_bits(bits))),
            Action::Literal(text) => {
                let number: f64 = text.parse().unwrap();
                lox.interpreter.reply(Value::Number(number.to_bits()));
            }
            Action::Arithmetic(op, left, right) => {
                let (l, r) = (f64::from_bits(left), f64::from_bits(right));
                let result = match op {
                    TokenType::Plus => l + r,
                    TokenType::Minus => l - r,
                    TokenType::Star => l * r,
                    TokenType::Slash => l / r,
                    _ => unreachable!(),
                };
                lox.interpreter.reply(Value::Number(result.to_bits()));
            }
            Action::Native(name, _) => {
                assert_eq!(name, "clock");
                lox.interpreter.reply(Value::Number(1234.0f64.to_bits()));
            }
            Action::Failed(e) => return Err(e),
        }
    }
}

fn feed(lox: &mut Lox, source: &str, outcome: &mut Outcome) {
    let compiled = lox.run(source);
    if compiled.code != EXIT_OK {
        outcome.err.extend(compiled.diagnostics);
        outcome.code = compiled.code;
        return;
    }
    match drive(lox, &mut outcome.out) {
        Ok(()) => outcome.code = EXIT_OK,
        Err(e) => {
            outcome.err.push(e.error());
            outcome.code = EXIT_RUNTIME_ERROR;
        }
    }
}

fn run(source: &str) -> Outcome {
    let mut lox = Lox::new();
    let mut outcome = Outcome { out: Vec::new(), err: Vec::new(), code: EXIT_OK };
    feed(&mut lox, source, &mut outcome);
    outcome
}

fn prints(source: &str, expected: &[&str]) {
    let outcome = run(source);
    assert_eq!(outcome.err, Vec::<String>::new());
    assert_eq!(outcome.out, expected);
    assert_eq!(outcome.code, EXIT_OK);
}

fn fails(source: &str, report: &str) {
    let outcome = run(source);
    assert_eq!(outcome.err, vec![report.to_string()]);
    assert_eq!(outcome.code, EXIT_RUNTIME_ERROR);
}

#[test]
fn prints_a_sum() {
    prints("print 1 + 2;", &["3"]);
}

#[test]
fn arithmetic_follows_precedence() {
    prints("print 1 + 2 * 3 - 8 / 4;", &["5"]);
    prints("print (1 + 2) * 3;", &["9"]);
    prints("print -3 + 1;", &["-2"]);
    prints("print 3.5;", &["3.5"]);
    prints("print 7 / 2;", &["3.5"]);
}

#[test]
fn lexical_scope_is_fixed_at_declaration() {
    prints("var a = 1; { fun f() { print a; } var a = 2; f(); }", &["1"]);
}

#[test]
fn block_function_sees_the_global_twice() {
    prints(
        "var a = \"global\"; { fun show() { print a; } show(); var a = \"block\"; show(); }",
        &["global", "global"],
    );
}

#[test]
fn counter_keeps_its_frame() {
    prints(
        "fun makeCounter() { var i = 0; fun count() { i = i + 1; print i; } return count; } \
         var c = makeCounter(); c(); c();",
        &["1", "2"],
    );
}

#[test]
fn two_counters_do_not_share() {
    prints(
        "fun makeCounter() { var i = 0; fun count() { i = i + 1; print i; } return count; } \
         var a = makeCounter(); var b = makeCounter(); a(); a(); b();",
        &["1", "2", "1"],
    );
}

#[test]
fn method_call_prints() {
    prints("class Bagel { eat() { print \"crunch\"; } } Bagel().eat();", &["crunch"]);
}

#[test]
fn super_calls_the_parent_method() {
    prints(
        "class A { f() { print \"A\"; } } class B < A { f() { super.f(); print \"B\"; } } B().f();",
        &["A", "B"],
    );
}

#[test]
fn inherited_method_is_found() {
    prints(
        "class A { hello() { print \"hi\"; } } class B < A {} class C < B {} C().hello();",
        &["hi"],
    );
}

#[test]
fn top_level_return_is_a_compile_error() {
    let outcome = run("return 1;");
    assert_eq!(outcome.err, vec!["[line 1] Error at 'return': Can't return from top-level code."]);
    assert_eq!(outcome.code, EXIT_COMPILE_ERROR);
    assert_eq!(outcome.code, 65);
    assert!(outcome.out.is_empty());
}

#[test]
fn string_plus_number_is_a_runtime_error() {
    let outcome = run("\"a\" + 1;");
    assert_eq!(outcome.err, vec!["Operands must be two numbers or two strings.\n[line 1]"]);
    assert_eq!(outcome.code, 70);
}

#[test]
fn strings_concatenate() {
    prints("print \"a\" + \"b\";", &["ab"]);
}

#[test]
fn initializer_with_bare_return_gives_the_instance() {
    prints("class A { init() { return; } } print A();", &["A instance"]);
}

#[test]
fn initializer_called_again_gives_the_instance() {
    prints(
        "class A { init() { this.x = 1; } } var a = A(); a.x = 2; print a.init(); print a.x;",
        &["A instance", "1"],
    );
}

#[test]
fn or_gives_the_first_truthy_operand() {
    prints("print nil or \"x\";", &["x"]);
    prints("print 1 or 2;", &["1"]);
    prints("print false or false;", &["false"]);
}

#[test]
fn and_does_not_evaluate_the_right_operand() {
    prints(
        "fun effect() { print \"called\"; return true; } print false and effect();",
        &["false"],
    );
    prints(
        "fun effect() { print \"called\"; return true; } print true and effect();",
        &["called", "true"],
    );
}

#[test]
fn zero_and_empty_string_are_truthy() {
    prints("if (0) print \"yes\"; else print \"no\";", &["yes"]);
    prints("if (\"\") print \"yes\"; else print \"no\";", &["yes"]);
    prints("if (nil) print \"yes\"; else print \"no\";", &["no"]);
    prints("print !nil; print !0; print !false;", &["true", "false", "true"]);
}

#[test]
fn values_print_by_the_display_rules() {
    prints("print nil; print true; print false;", &["nil", "true", "false"]);
    prints("print \"text\";", &["text"]);
    prints("print clock;", &["<native fn>"]);
    prints("fun f() {} print f;", &["<fn f>"]);
    prints("class K {} print K; print K();", &["K", "K instance"]);
    prints("print 3; print 3.14; print 100;", &["3", "3.14", "100"]);
}

#[test]
fn clock_is_asked_of_the_host() {
    prints("print clock();", &["1234"]);
}

#[test]
fn equality_compares_by_content() {
    prints("print 1 == 1; print 1 == 2; print 1 != 2;", &["true", "false", "true"]);
    prints("print \"a\" == \"a\"; print \"a\" == \"b\";", &["true", "false"]);
    prints("print nil == nil; print nil == false; print 1 == \"1\";", &["true", "false", "false"]);
    prints("print true == true; print true != false;", &["true", "true"]);
    prints("print 0 == -0;", &["true"]);
    prints("print (0 / 0) == (0 / 0);", &["false"]);
}

#[test]
fn classes_and_functions_are_equal_by_name() {
    prints("class A {} class B {} print A == A; print A == B;", &["true", "false"]);
    prints("fun f() {} fun g() {} print f == f; print f == g;", &["true", "false"]);
    prints("class A {} var a = A(); print a == a;", &["false"]);
}

#[test]
fn comparisons_order_numbers() {
    prints("print 1 < 2; print 2 < 1; print 2 <= 2;", &["true", "false", "true"]);
    prints("print 1 > 2; print 2 > 1; print 2 >= 3;", &["false", "true", "false"]);
    prints("print -1 < 0; print -2 < -1; print -1 < -2;", &["true", "true", "false"]);
    prints("print 0.5 < 0.25; print -0.5 < 0.25;", &["false", "true"]);
}

#[test]
fn comparison_of_other_values_fails() {
    fails("print 1 < \"a\";", "Operands must be numbers.\n[line 1]");
    fails("print nil - 1;", "Operands must be numbers.\n[line 1]");
    fails("print \"a\" * \"b\";", "Operands must be numbers.\n[line 1]");
}

#[test]
fn negation_needs_a_number() {
    fails("print -\"a\";", "Operand must be a number.\n[line 1]");
    prints("print -(1 + 2);", &["-3"]);
    prints("print --3;", &["3"]);
}

#[test]
fn undefined_variable_fails_with_its_line() {
    fails("var a = 1;\nprint b;", "Undefined variable 'b'.\n[line 2]");
    fails("b = 1;", "Undefined variable 'b'.\n[line 1]");
}

#[test]
fn calling_what_is_not_callable_fails() {
    fails("\"text\"();", "Can only call functions and classes.\n[line 1]");
    fails("var a = 1; a(2);", "Can only call functions and classes.\n[line 1]");
}

#[test]
fn wrong_number_of_arguments_fails() {
    fails("fun f(a, b) {} f(1);", "Expected 2 arguments but got 1.\n[line 1]");
    fails("class A { init(x) {} } A();", "Expected 1 arguments but got 0.\n[line 1]");
    fails("class A {} A(1, 2);", "Expected 0 arguments but got 2.\n[line 1]");
    fails("clock(1);", "Expected 0 arguments but got 1.\n[line 1]");
}

#[test]
fn properties_belong_to_instances() {
    fails("var a = 1; print a.x;", "Only instances have properties.\n[line 1]");
    fails("var a = 1; a.x = 2;", "Only instances have fields.\n[line 1]");
    fails("class A {} print A().x;", "Undefined property 'x'.\n[line 1]");
    fails(
        "class A {} class B < A { f() { super.g(); } } B().f();",
        "Undefined property 'g'.\n[line 1]",
    );
}

#[test]
fn superclass_must_be_a_class() {
    fails("var a = 1; class B < a {}", "Superclass must be a class.\n[line 1]");
}

#[test]
fn fields_shadow_methods() {
    prints(
        "class A { f() { return \"method\"; } } var a = A(); print a.f(); a.f = \"field\"; print a.f;",
        &["method", "field"],
    );
}

#[test]
fn bound_method_remembers_its_instance() {
    prints(
        "class P { init(n) { this.n = n; } name() { return this.n; } } \
         var m = P(\"x\").name; print m();",
        &["x"],
    );
}

#[test]
fn assignment_yields_the_value() {
    prints("var a; var b; a = b = 3; print a; print b;", &["3", "3"]);
    prints("class A {} var a = A(); print a.x = 5;", &["5"]);
}

#[test]
fn variable_without_initializer_is_nil() {
    prints("var a; print a;", &["nil"]);
}

#[test]
fn while_and_for_loop() {
    prints("var i = 0; while (i < 3) { print i; i = i + 1; }", &["0", "1", "2"]);
    prints("for (var i = 0; i < 3; i = i + 1) print i;", &["0", "1", "2"]);
    prints("var i = 0; for (; i < 2;) { print i; i = i + 1; }", &["0", "1"]);
}

#[test]
fn recursion_returns_through_the_calls() {
    prints(
        "fun fib(n) { if (n < 2) return n; return fib(n - 2) + fib(n - 1); } print fib(10);",
        &["55"],
    );
}

#[test]
fn return_leaves_nested_blocks_and_loops() {
    prints(
        "fun f() { var i = 0; while (true) { { if (i == 3) return i; } i = i + 1; } } \
         var a = 10; print f(); print a;",
        &["3", "10"],
    );
}

#[test]
fn function_without_return_gives_nil() {
    prints("fun f() {} print f();", &["nil"]);
}

#[test]
fn arguments_are_evaluated_left_to_right() {
    prints(
        "fun show(x) { print x; return x; } fun add(a, b, c) { return a + b + c; } \
         print add(show(1), show(2), show(3));",
        &["1", "2", "3", "6"],
    );
}

#[test]
fn globals_persist_from_one_source_to_the_next() {
    let mut lox = Lox::new();
    let mut outcome = Outcome { out: Vec::new(), err: Vec::new(), code: EXIT_OK };
    feed(&mut lox, "var a = 1; fun next() { a = a + 1; return a; }", &mut outcome);
    feed(&mut lox, "print next();", &mut outcome);
    feed(&mut lox, "print undefined;", &mut outcome);
    assert_eq!(outcome.code, EXIT_RUNTIME_ERROR);
    feed(&mut lox, "{ var b = next(); print b + a; }", &mut outcome);
    assert_eq!(outcome.out, ["2", "6"]);
    assert_eq!(outcome.err, ["Undefined variable 'undefined'.\n[line 1]"]);
    assert_eq!(outcome.code, EXIT_OK);
}

#[test]
fn runtime_error_stops_the_program() {
    let outcome = run("print 1; print nil + 1; print 2;");
    assert_eq!(outcome.out, ["1"]);
    assert_eq!(outcome.code, 70);
}

#[test]
fn compile_errors_keep_the_program_from_running() {
    let outcome = run("print 1; print ;");
    assert!(outcome.out.is_empty());
    assert_eq!(outcome.err, ["[line 1] Error at ';': Expect expression."]);
    assert_eq!(outcome.code, 65);
}

#[test]
fn class_can_be_local() {
    prints(
        "{ class A { f() { return 1; } } class B < A { g() { return super.f() + 1; } } print B().g(); }",
        &["2"],
    );
}

#[test]
fn redefining_a_global_is_allowed() {
    prints("var a = 1; var a = 2; print a;", &["2"]);
}

#[test]
fn this_is_seen_by_a_function_nested_in_a_method() {
    prints(
        "class A { init() { this.v = \"mine\"; } m() { fun inner() { return this.v; } return inner(); } } \
         print A().m();",
        &["mine"],
    );
}

#[test]
fn super_is_seen_by_a_closure_made_in_a_method() {
    prints(
        "class A { say() { return \"A\"; } } \
         class B < A { get() { fun f() { return super.say(); } return f; } say() { return \"B\"; } } \
         print B().get()();",
        &["A"],
    );
}

#[test]
fn super_starts_at_the_superclass_of_the_defining_class() {
    prints(
        "class A { m() { return \"A\"; } } \
         class B < A { m() { return \"B\"; } test() { return super.m(); } } \
         class C < B {} \
         print C().test();",
        &["A"],
    );
}

#[test]
fn initializer_arguments_become_fields() {
    prints(
        "class Point { init(x, y) { this.x = x; this.y = y; } sum() { return this.x + this.y; } } \
         var p = Point(3, 4); print p.sum(); p.x = 10; print p.sum();",
        &["7", "14"],
    );
}

#[test]
fn inherited_initializer_runs() {
    prints(
        "class A { init(v) { this.v = v; } } class B < A {} print B(\"set\").v;",
        &["set"],
    );
}

#[test]
fn instances_are_shared_not_copied() {
    prints(
        "class Box {} var a = Box(); var b = a; b.v = 1; print a.v; \
         fun set(box) { box.v = 2; } set(a); print b.v;",
        &["1", "2"],
    );
}

#[test]
fn method_can_name_its_own_class() {
    prints(
        "class Node { init(n) { this.n = n; } next() { return Node(this.n + 1); } } \
         print Node(1).next().next().n;",
        &["3"],
    );
}

#[test]
fn closures_share_one_frame() {
    prints(
        "fun pair() { var n = 0; fun inc() { n = n + 1; } fun get() { return n; } \
         class P {} var p = P(); p.inc = inc; p.get = get; return p; } \
         var p = pair(); p.inc(); p.inc(); print p.get();",
        &["2"],
    );
}

#[test]
fn each_block_entry_makes_a_new_frame() {
    prints(
        "var fs = nil; class L {} var list = L(); \
         for (var i = 0; i < 2; i = i + 1) { var j = i; fun show() { print j; } \
         if (i == 0) list.a = show; else list.b = show; } \
         list.a(); list.b();",
        &["0", "1"],
    );
}

#[test]
fn shadowing_ends_with_the_block() {
    prints(
        "var a = \"outer\"; { var a = \"inner\"; print a; { var a = \"innermost\"; print a; } print a; } print a;",
        &["inner", "innermost", "inner", "outer"],
    );
}

#[test]
fn parameters_shadow_globals() {
    prints("var a = 1; fun f(a) { a = a + 1; return a; } print f(10); print a;", &["11", "1"]);
}

#[test]
fn deep_recursion_does_not_exhaust_the_host() {
    prints(
        "fun count(n) { if (n == 0) return 0; return 1 + count(n - 1); } print count(20000);",
        &["20000"],
    );
}

#[test]
fn long_loop_ends() {
    prints(
        "var sum = 0; for (var i = 1; i <= 1000; i = i + 1) sum = sum + i; print sum;",
        &["500500"],
    );
}

#[test]
fn callee_is_checked_before_any_argument_is_evaluated() {
    let outcome = run("fun show(x) { print x; return x; } nil(show(1), show(2));");
    assert!(outcome.out.is_empty());
    assert_eq!(outcome.err, ["Can only call functions and classes.\n[line 1]"]);
    fails("\"s\"(x);", "Can only call functions and classes.\n[line 1]");
    fails("var a = 1;\na(\nb\n);", "Can only call functions and classes.\n[line 4]");
}

#[test]
fn arguments_are_evaluated_before_their_number_is_checked() {
    let outcome = run("fun show(x) { print x; return x; } fun f(a) {} f(show(1), show(2));");
    assert_eq!(outcome.out, ["1", "2"]);
    assert_eq!(outcome.err, ["Expected 1 arguments but got 2.\n[line 1]"]);
    fails("fun f() {} f(x);", "Undefined variable 'x'.\n[line 1]");
}

#[test]
fn error_inside_a_call_leaves_the_globals_current() {
    let mut lox = Lox::new();
    let mut outcome = Outcome { out: Vec::new(), err: Vec::new(), code: EXIT_OK };
    feed(&mut lox, "var a = \"global\"; fun f() { var a = \"local\"; { return nil + 1; } }", &mut outcome);
    feed(&mut lox, "f();", &mut outcome);
    assert_eq!(outcome.code, EXIT_RUNTIME_ERROR);
    feed(&mut lox, "print a; var b = 2; print b;", &mut outcome);
    assert_eq!(outcome.out, ["global", "2"]);
    assert_eq!(outcome.code, EXIT_OK);
}

#[test]
fn runtime_errors_carry_the_line_of_their_token() {
    fails("var a = 1;\nvar b = \"s\";\nprint a\n  +\n  b;", "Operands must be two numbers or two strings.\n[line 4]");
    fails("fun f() {}\n\nf(1,\n2);", "Expected 0 arguments but got 2.\n[line 4]");
}

#[test]
fn else_belongs_to_the_nearest_if() {
    prints("if (true) if (false) print 1; else print 2;", &["2"]);
    prints("if (false) if (true) print 1; else print 2; print 3;", &["3"]);
}

#[test]
fn comparison_results_feed_logic() {
    prints("print 1 < 2 and 2 < 3; print 1 > 2 or 3 > 2; print !(1 == 1);", &["true", "true", "false"]);
    prints("print nil and 1; print 0 and 2; print false or nil;", &["nil", "2", "nil"]);
}

#[test]
fn numbers_print_in_the_shortest_form() {
    prints("print 0.1 + 0.2; print 1 / 3; print 100 * 1000000;", &[
        "0.30000000000000004",
        "0.3333333333333333",
        "100000000",
    ]);
    prints("print 1 / 0; print -1 / 0; print 0 / 0;", &["inf", "-inf", "NaN"]);
    prints("print -0;", &["-0"]);
}

#[test]
fn class_statement_in_a_function_can_inherit_from_a_parameter() {
    prints(
        "class Base { hi() { return \"base\"; } } \
         fun make(parent) { class Child < parent {} return Child; } \
         print make(Base)().hi();",
        &["base"],
    );
}

#[test]
fn assigning_to_a_captured_variable_after_the_block_is_left() {
    prints(
        "var get; var set; { var v = 1; fun g() { return v; } fun s(x) { v = x; } get = g; set = s; } \
         set(5); print get();",
        &["5"],
    );
}

#[test]
fn exit_code_tells_a_failed_run_from_the_others() {
    let at = rlox::token::Token::new(TokenType::Plus, "+", 1);
    assert_eq!(exit_code(&Action::Failed(RuntimeException::new(&at, "m"))), 70);
    assert_eq!(exit_code(&Action::Failed(RuntimeException::Return(Value::Nil))), 70);
    assert_eq!(exit_code(&Action::Finished), 0);
    assert_eq!(exit_code(&Action::Continue), 0);
}

#[test]
fn the_kth_call_of_a_counter_gives_the_start_plus_k() {
    prints(
        "fun make(n) { var i = n; fun count() { i = i + 1; return i; } return count; } \
         var c = make(10); c(); c(); c(); c(); print c(); \
         var d = make(-2); print d(); print d(); print d(); print c();",
        &["15", "-1", "0", "1", "16"],
    );
}

#[test]
fn a_return_in_a_block_at_the_top_leaves_the_block() {
    // the resolver would reject this; scheduled without it, the return ends
    // the program and the global frame is current again
    let mut lox = Lox::new();
    let mut outcome = Outcome { out: Vec::new(), err: Vec::new(), code: EXIT_OK };
    feed(&mut lox, "var a = \"global\";", &mut outcome);
    let mut scanner = rlox::scanner::Scanner::new("{ var a = \"block\"; return; }");
    let tokens = scanner.scan_tokens().clone();
    let mut parser = rlox::parser::Parser::numbered_from(&tokens, 100);
    let program = parser.parse();
    lox.interpreter.interpret(&program);
    match drive(&mut lox, &mut outcome.out) {
        Err(RuntimeException::Return(Value::Nil)) => {}
        _ => panic!("the return did not end the program"),
    }
    feed(&mut lox, "print a;", &mut outcome);
    assert_eq!(outcome.out, ["global"]);
}
