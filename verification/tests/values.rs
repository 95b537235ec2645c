use rlox::class::LoxClass;
use rlox::env::Environment;
use rlox::expr::{Expr, Literal, Value};
use rlox::instance::LoxInstance;
use rlox::interpreter::{is_truthy, Action, Interpreter, Shown};
use rlox::loxcallables::{Callable, Function, LoxCallable, Native};
use rlox::loxerr::RuntimeException;
use rlox::number::{equal, is_nan, less, negate};
use rlox::stmt::Stmt;
use rlox::table::Table;
use rlox::token::{Token, TokenType};
use std::rc::Rc;

fn number(x: f64) -> Value {
    Value::Number(x.to_bits())
}

fn text(s: &str) -> Value {
    Value::String(s.to_string())
}

fn name(lexeme: &str) -> Token {
    Token::new(TokenType::Identifier, lexeme, 3)
}

fn declaration(function: &str, params: &[&str]) -> Rc<Stmt> {
    Rc::new(Stmt::Function(
        name(function),
        params.iter().map(|p| name(p)).collect(),
        Vec::new(),
    ))
}

fn samples() -> Vec<f64> {
    vec![
        0.0,
        -0.0,
        1.0,
        -1.0,
        0.5,
        -0.5,
        2.5,
        1e300,
        -1e300,
        5e-324,
        -5e-324,
        f64::MIN_POSITIVE,
        f64::MAX,
        f64::MIN,
        f64::INFINITY,
        f64::NEG_INFINITY,
        f64::NAN,
        -f64::NAN,
        3.0,
        3.0000000000000004,
    ]
}

#[test]
fn bit_patterns_compare_as_the_floats_do() {
    for a in samples() {
        assert_eq!(is_nan(a.to_bits()), a.is_nan(), "is_nan {}", a);
        assert_eq!(negate(a.to_bits()), (-a).to_bits(), "negate {}", a);
        for b in samples() {
            assert_eq!(equal(a.to_bits(), b.to_bits()), a == b, "{} == {}", a, b);
            assert_eq!(less(a.to_bits(), b.to_bits()), a < b, "{} < {}", a, b);
        }
    }
}

#[test]
fn negating_twice_gives_the_number_back() {
    for a in samples() {
        assert_eq!(negate(negate(a.to_bits())), a.to_bits());
    }
}

#[test]
fn only_nil_and_false_are_falsey() {
    assert!(!is_truthy(&Value::Nil));
    assert!(!is_truthy(&Value::Bool(false)));
    assert!(is_truthy(&Value::Bool(true)));
    assert!(is_truthy(&number(0.0)));
    assert!(is_truthy(&text("")));
    assert!(is_truthy(&Value::Instance(0)));
}

#[test]
fn values_are_equal_by_content() {
    assert!(Value::Nil.eq(&Value::Nil));
    assert!(Value::Bool(true).eq(&Value::Bool(true)));
    assert!(!Value::Bool(true).eq(&Value::Bool(false)));
    assert!(number(1.5).eq(&number(1.5)));
    assert!(!number(1.5).eq(&number(2.5)));
    assert!(number(0.0).eq(&number(-0.0)));
    assert!(!number(f64::NAN).eq(&number(f64::NAN)));
    assert!(text("a").eq(&text("a")));
    assert!(!text("a").eq(&text("b")));
    assert!(!text("1").eq(&number(1.0)));
    assert!(!Value::Nil.eq(&Value::Bool(false)));
    assert!(!Value::Instance(1).eq(&Value::Instance(1)));
}

#[test]
fn callables_and_classes_are_equal_by_name() {
    let f = Value::Callable(Callable::Function(Function::new(&declaration("f", &[]), 0, false)));
    let f2 = Value::Callable(Callable::Function(Function::new(&declaration("f", &["x"]), 4, true)));
    let g = Value::Callable(Callable::Function(Function::new(&declaration("g", &[]), 0, false)));
    let clock = Value::Callable(Callable::Native(Native::new(0, "clock")));
    let other = Value::Callable(Callable::Native(Native::new(2, "other")));
    assert!(f.eq(&f2));
    assert!(!f.eq(&g));
    assert!(clock.eq(&other));
    assert!(!clock.eq(&f));
    let methods = Rc::new(Table::new());
    let a = Value::Class(Rc::new(LoxClass::new("A".to_string(), None, &methods)));
    let a2 = Value::Class(Rc::new(LoxClass::new("A".to_string(), None, &methods)));
    let b = Value::Class(Rc::new(LoxClass::new("B".to_string(), None, &methods)));
    assert!(a.eq(&a2));
    assert!(!a.eq(&b));
    assert!(!a.eq(&text("A")));
}

#[test]
fn clone_keeps_the_value() {
    for v in [Value::Nil, Value::Bool(true), number(2.0), text("s"), Value::Instance(7)] {
        let copy = v.clone();
        match (&v, &copy) {
            (Value::Instance(a), Value::Instance(b)) => assert_eq!(a, b),
            _ => assert!(v.eq(&copy)),
        }
    }
}

#[test]
fn table_binds_and_rebinds() {
    let mut table: Table<u32> = Table::new();
    assert!(!table.contains_key("a"));
    assert_eq!(table.get("a"), None);
    table.insert("a".to_string(), 1);
    table.insert("b".to_string(), 2);
    assert_eq!(table.get("a"), Some(&1));
    assert_eq!(table.get("b"), Some(&2));
    table.insert("a".to_string(), 3);
    assert_eq!(table.get("a"), Some(&3));
    assert_eq!(table.get("b"), Some(&2));
    assert!(table.contains_key("b"));
    assert!(!table.contains_key(""));
    table.insert(String::new(), 9);
    assert_eq!(table.get(""), Some(&9));
}

fn shown(v: Result<Value, RuntimeException>) -> String {
    match v {
        Ok(Value::Number(bits)) => format!("{}", f64::from_bits(bits)),
        Ok(Value::String(s)) => s,
        Ok(Value::Nil) => "nil".to_string(),
        Ok(_) => "other".to_string(),
        Err(e) => e.error(),
    }
}

fn chain() -> Vec<Environment> {
    // frame 0 binds a and b; frame 1, inside 0, binds b; frame 2, inside 1, binds c
    let mut globals = Environment::new();
    globals.define("a", number(1.0));
    globals.define("b", number(2.0));
    let mut middle = Environment::encloser(0);
    middle.define("b", number(20.0));
    let mut inner = Environment::encloser(1);
    inner.define("c", number(300.0));
    vec![globals, middle, inner]
}

#[test]
fn get_walks_the_chain_outward() {
    let frames = chain();
    assert_eq!(shown(Environment::get(&frames, 2, &name("c"))), "300");
    assert_eq!(shown(Environment::get(&frames, 2, &name("b"))), "20");
    assert_eq!(shown(Environment::get(&frames, 2, &name("a"))), "1");
    assert_eq!(shown(Environment::get(&frames, 1, &name("b"))), "20");
    assert_eq!(shown(Environment::get(&frames, 0, &name("b"))), "2");
    assert_eq!(
        shown(Environment::get(&frames, 1, &name("c"))),
        "Undefined variable 'c'.\n[line 3]"
    );
    assert_eq!(
        shown(Environment::get(&frames, 2, &name("zz"))),
        "Undefined variable 'zz'.\n[line 3]"
    );
    assert_eq!(Environment::find(&frames, 2, "a"), Some(0));
    assert_eq!(Environment::find(&frames, 2, "b"), Some(1));
    assert_eq!(Environment::find(&frames, 0, "c"), None);
}

#[test]
fn assign_rebinds_the_nearest_binding() {
    let mut frames = chain();
    assert!(Environment::assign(&mut frames, 2, &name("b"), number(21.0)).is_ok());
    assert_eq!(shown(Environment::get(&frames, 2, &name("b"))), "21");
    assert_eq!(shown(Environment::get(&frames, 0, &name("b"))), "2");
    assert!(Environment::assign(&mut frames, 2, &name("a"), text("new")).is_ok());
    assert_eq!(shown(Environment::get(&frames, 0, &name("a"))), "new");
    match Environment::assign(&mut frames, 2, &name("nowhere"), Value::Nil) {
        Err(e) => assert_eq!(e.error(), "Undefined variable 'nowhere'.\n[line 3]"),
        Ok(()) => panic!("assigned to a name that nothing binds"),
    }
    assert_eq!(Environment::find(&frames, 2, "nowhere"), None);
}

#[test]
fn get_at_and_assign_at_use_exactly_one_frame() {
    let mut frames = chain();
    assert_eq!(Environment::ancestor(&frames, 2, 0), Some(2));
    assert_eq!(Environment::ancestor(&frames, 2, 1), Some(1));
    assert_eq!(Environment::ancestor(&frames, 2, 2), Some(0));
    assert_eq!(Environment::ancestor(&frames, 2, 3), None);
    assert_eq!(Environment::ancestor(&frames, 5, 0), None);
    assert!(Environment::has_at(&frames, 2, 0, &name("c")));
    assert!(!Environment::has_at(&frames, 2, 0, &name("b")));
    assert!(Environment::has_at(&frames, 2, 1, &name("b")));
    assert!(Environment::has_at(&frames, 2, 2, &name("b")));
    assert!(!Environment::has_at(&frames, 2, 3, &name("b")));
    assert_eq!(shown(Environment::get_at(&frames, 2, 1, &name("b"))), "20");
    assert_eq!(shown(Environment::get_at(&frames, 2, 2, &name("b"))), "2");
    assert_eq!(shown(Environment::get_at(&frames, 2, 0, &name("c"))), "300");
    Environment::assign_at(&mut frames, 2, 2, &name("b"), number(5.0));
    assert_eq!(shown(Environment::get_at(&frames, 2, 2, &name("b"))), "5");
    assert_eq!(shown(Environment::get_at(&frames, 2, 1, &name("b"))), "20");
    Environment::assign_at(&mut frames, 2, 0, &name("fresh"), number(7.0));
    assert_eq!(shown(Environment::get_at(&frames, 2, 0, &name("fresh"))), "7");
    assert!(!Environment::has_at(&frames, 2, 1, &name("fresh")));
}

#[test]
fn define_rebinds_in_the_same_frame() {
    let mut frames = vec![Environment::new()];
    frames[0].define("a", number(1.0));
    frames[0].define("a", number(2.0));
    assert_eq!(shown(Environment::get(&frames, 0, &name("a"))), "2");
    Environment::define_in(&mut frames, 0, "a", number(3.0));
    assert_eq!(shown(Environment::get(&frames, 0, &name("a"))), "3");
}

fn class_with(class: &str, methods: &[(&str, usize)], parent: Option<Rc<LoxClass>>) -> LoxClass {
    let mut table = Table::new();
    for (method, arity) in methods {
        let params: Vec<String> = (0..*arity).map(|i| format!("p{}", i)).collect();
        let params: Vec<&str> = params.iter().map(|p| p.as_str()).collect();
        table.insert(
            method.to_string(),
            Function::new(&declaration(method, &params), 0, *method == "init"),
        );
    }
    LoxClass::new(class.to_string(), parent, &Rc::new(table))
}

#[test]
fn find_method_searches_the_superclasses() {
    let a = Rc::new(class_with("A", &[("f", 0), ("g", 1)], None));
    let b = Rc::new(class_with("B", &[("g", 2)], Some(a.clone())));
    let c = class_with("C", &[], Some(b.clone()));
    assert_eq!(c.find_method("f").map(|m| m.arity()), Some(0));
    assert_eq!(c.find_method("g").map(|m| m.arity()), Some(2));
    assert_eq!(a.find_method("g").map(|m| m.arity()), Some(1));
    assert!(c.find_method("h").is_none());
    assert_eq!(c.name, "C");
}

#[test]
fn class_arity_is_that_of_init() {
    let a = Rc::new(class_with("A", &[("init", 3)], None));
    let b = class_with("B", &[("other", 1)], Some(a.clone()));
    let c = class_with("C", &[("other", 1)], None);
    assert_eq!(a.arity(), 3);
    assert_eq!(b.arity(), 3);
    assert_eq!(c.arity(), 0);
}

#[test]
fn callables_know_their_arity_and_name() {
    let f = Function::new(&declaration("add", &["a", "b"]), 2, false);
    assert_eq!(f.arity(), 2);
    assert_eq!(f.name(), "add");
    assert_eq!(f.closure, 2);
    assert!(!f.is_init);
    let n = Native::new(4, "native");
    assert_eq!(n.arity(), 4);
    assert_eq!(n.name, "native");
}

#[test]
fn bind_adds_a_frame_that_holds_this() {
    let mut frames = chain();
    let method = Function::new(&declaration("m", &[]), 1, true);
    let bound = method.bind(Value::Instance(9), &mut frames);
    assert_eq!(frames.len(), 4);
    assert_eq!(bound.closure, 3);
    assert!(bound.is_init);
    assert_eq!(bound.name(), "m");
    assert_eq!(frames[3].enclosing, Some(1));
    match Environment::get_at(&frames, 3, 0, &name("this")) {
        Ok(Value::Instance(9)) => {}
        _ => panic!("this is not the instance"),
    }
    // the closure of the bound method still sees what the method saw
    assert_eq!(shown(Environment::get(&frames, bound.closure, &name("b"))), "20");
}

#[test]
fn instance_gives_fields_before_methods() {
    let class = class_with("A", &[("f", 0)], None);
    let mut instance = LoxInstance::new(class);
    let mut frames = chain();
    match instance.get(&name("f"), Value::Instance(0), &mut frames) {
        Ok(Value::Callable(Callable::Function(bound))) => {
            assert_eq!(bound.closure, 3);
            assert_eq!(frames.len(), 4);
        }
        _ => panic!("the method was not found"),
    }
    instance.set(&name("f"), number(1.0));
    assert_eq!(shown(instance.get(&name("f"), Value::Instance(0), &mut frames)), "1");
    assert_eq!(frames.len(), 4);
    instance.set(&name("f"), number(2.0));
    assert_eq!(shown(instance.get(&name("f"), Value::Instance(0), &mut frames)), "2");
    assert_eq!(
        shown(instance.get(&name("none"), Value::Instance(0), &mut frames)),
        "Undefined property 'none'.\n[line 3]"
    );
    assert_eq!(instance.class.name, "A");
}

#[test]
fn runtime_report_is_the_message_and_the_line() {
    let at = Token::new(TokenType::Plus, "+", 12);
    assert_eq!(RuntimeException::new(&at, "Operands must be numbers.").error(),
        "Operands must be numbers.\n[line 12]");
    assert_eq!(RuntimeException::undefined(&name("x")).error(), "Undefined variable 'x'.\n[line 3]");
    assert_eq!(
        RuntimeException::undefined_property(&name("x")).error(),
        "Undefined property 'x'.\n[line 3]"
    );
}

fn literal(l: Literal) -> Rc<Stmt> {
    Rc::new(Stmt::Print(Rc::new(Expr::Literal(l))))
}

#[test]
fn step_by_step_a_print_of_a_literal() {
    let mut interpreter = Interpreter::new();
    assert!(matches!(interpreter.step(), Action::Finished));
    interpreter.interpret(&vec![literal(Literal::String("hi".to_string()))]);
    // execute the statement, evaluate the literal, print
    assert!(matches!(interpreter.step(), Action::Continue));
    assert!(matches!(interpreter.step(), Action::Continue));
    match interpreter.step() {
        Action::Print(Shown::Text(text)) => assert_eq!(text, "hi"),
        _ => panic!("nothing was printed"),
    }
    assert!(matches!(interpreter.step(), Action::Finished));
    assert!(matches!(interpreter.step(), Action::Finished));
}

#[test]
fn a_numeral_is_asked_of_the_host() {
    let mut interpreter = Interpreter::new();
    interpreter.interpret(&vec![literal(Literal::Number("2.50".to_string()))]);
    assert!(matches!(interpreter.step(), Action::Continue));
    match interpreter.step() {
        Action::Literal(text) => assert_eq!(text, "2.50"),
        _ => panic!("the numeral was not asked for"),
    }
    // until the reply comes, nothing moves
    assert!(matches!(interpreter.step(), Action::Waiting));
    assert!(matches!(interpreter.run(10), Action::Waiting));
    interpreter.reply(number(2.5));
    match interpreter.step() {
        Action::Print(Shown::Number(bits)) => assert_eq!(f64::from_bits(bits), 2.5),
        _ => panic!("nothing was printed"),
    }
    assert!(matches!(interpreter.step(), Action::Finished));
}

#[test]
fn a_reply_that_nobody_waits_for_is_dropped() {
    let mut interpreter = Interpreter::new();
    interpreter.reply(number(1.0));
    interpreter.interpret(&vec![literal(Literal::Nil)]);
    interpreter.reply(number(2.0));
    match interpreter.run(100) {
        Action::Print(Shown::Text(text)) => assert_eq!(text, "nil"),
        _ => panic!("nothing was printed"),
    }
    assert!(matches!(interpreter.run(100), Action::Finished));
}

#[test]
fn run_stops_when_the_budget_is_spent() {
    let mut interpreter = Interpreter::new();
    interpreter.interpret(&vec![literal(Literal::Bool(true)), literal(Literal::Bool(false))]);
    assert!(matches!(interpreter.run(0), Action::Continue));
    assert!(matches!(interpreter.run(2), Action::Continue));
    match interpreter.run(1) {
        Action::Print(Shown::Text(text)) => assert_eq!(text, "true"),
        _ => panic!("nothing was printed"),
    }
    match interpreter.run(usize::MAX) {
        Action::Print(Shown::Text(text)) => assert_eq!(text, "false"),
        _ => panic!("nothing was printed"),
    }
    assert!(matches!(interpreter.run(usize::MAX), Action::Finished));
}

#[test]
fn execute_block_runs_in_the_given_frame_and_leaves_it() {
    let mut interpreter = Interpreter::new();
    let mut frame = Environment::encloser(0);
    frame.define("x", text("inside"));
    let read = Rc::new(Stmt::Print(Rc::new(Expr::Variable(0, name("x")))));
    interpreter.resolve(0, 0);
    interpreter.execute_block(&vec![read.clone()], frame);
    match interpreter.run(100) {
        Action::Print(Shown::Text(text)) => assert_eq!(text, "inside"),
        _ => panic!("nothing was printed"),
    }
    assert!(matches!(interpreter.run(100), Action::Finished));
    // back in the global frame the same expression finds nothing at depth 0
    interpreter.interpret(&vec![read]);
    match interpreter.run(100) {
        Action::Failed(e) => assert_eq!(e.error(), "Undefined variable 'x'.\n[line 3]"),
        _ => panic!("the read did not fail"),
    }
}

#[test]
fn show_follows_the_display_rules() {
    let interpreter = Interpreter::new();
    let text_of = |v: Value| match interpreter.show(&v) {
        Shown::Text(s) => s,
        Shown::Number(bits) => format!("{}", f64::from_bits(bits)),
    };
    assert_eq!(text_of(Value::Nil), "nil");
    assert_eq!(text_of(Value::Bool(true)), "true");
    assert_eq!(text_of(Value::Bool(false)), "false");
    assert_eq!(text_of(number(3.0)), "3");
    assert_eq!(text_of(text("raw \"text\"")), "raw \"text\"");
    assert_eq!(text_of(Value::Callable(Callable::Native(Native::new(0, "clock")))), "<native fn>");
    assert_eq!(
        text_of(Value::Callable(Callable::Function(Function::new(
            &declaration("name", &[]),
            0,
            false
        )))),
        "<fn name>"
    );
    assert_eq!(text_of(Value::Class(Rc::new(class_with("Klass", &[], None)))), "Klass");
}

#[test]
fn a_call_through_the_protocol_schedules_the_body() {
    let mut interpreter = Interpreter::new();
    let body = vec![literal(Literal::String("in f".to_string()))];
    let f = Function::new(&Rc::new(Stmt::Function(name("f"), vec![name("a")], body)), 0, false);
    assert!(matches!(f.call(&mut interpreter, vec![number(1.0)]), Action::Continue));
    match interpreter.run(100) {
        Action::Print(Shown::Text(text)) => assert_eq!(text, "in f"),
        _ => panic!("the body did not run"),
    }
    assert!(matches!(interpreter.run(100), Action::Finished));

    let clock = Native::new(0, "clock");
    match clock.call(&mut interpreter, Vec::new()) {
        Action::Native(name, args) => {
            assert_eq!(name, "clock");
            assert!(args.is_empty());
        }
        _ => panic!("the host was not asked"),
    }
    assert!(matches!(interpreter.step(), Action::Waiting));
    interpreter.reply(number(5.0));
    assert!(matches!(interpreter.step(), Action::Finished));
}

#[test]
fn a_return_outside_any_call_ends_the_program_with_its_value() {
    let mut interpreter = Interpreter::new();
    let keyword = Token::new(TokenType::Return, "return", 1);
    let value = Rc::new(Expr::Literal(Literal::String("out".to_string())));
    interpreter.interpret(&vec![
        Rc::new(Stmt::Return(keyword, Some(value))),
        literal(Literal::Nil),
    ]);
    match interpreter.run(100) {
        Action::Failed(RuntimeException::Return(Value::String(s))) => assert_eq!(s, "out"),
        _ => panic!("the return did not end the program"),
    }
    // what was scheduled after it is dropped
    assert!(matches!(interpreter.run(100), Action::Finished));
}

#[test]
fn a_return_ends_only_the_innermost_call() {
    let mut interpreter = Interpreter::new();
    let keyword = Token::new(TokenType::Return, "return", 1);
    let inner_value = Rc::new(Expr::Literal(Literal::String("from f".to_string())));
    let body = vec![
        Rc::new(Stmt::Return(keyword, Some(inner_value))),
        literal(Literal::String("not reached".to_string())),
    ];
    let f = Function::new(&Rc::new(Stmt::Function(name("f"), Vec::new(), body)), 0, false);
    interpreter.interpret(&vec![literal(Literal::String("after".to_string()))]);
    f.call(&mut interpreter, Vec::new());
    match interpreter.run(100) {
        Action::Print(Shown::Text(text)) => assert_eq!(text, "after"),
        _ => panic!("the caller did not go on"),
    }
}

#[test]
fn a_class_call_gives_the_instance_however_init_was_made() {
    // `init` made as an ordinary function whose body is `return "other";`
    let keyword = Token::new(TokenType::Return, "return", 1);
    let other = Rc::new(Expr::Literal(Literal::String("other".to_string())));
    let body = vec![Rc::new(Stmt::Return(keyword, Some(other)))];
    let declaration = Rc::new(Stmt::Function(name("init"), Vec::new(), body));
    let mut methods = Table::new();
    methods.insert("init".to_string(), Function::new(&declaration, 0, false));
    let class = LoxClass::new("A".to_string(), None, &Rc::new(methods));

    let mut frame = Environment::encloser(0);
    frame.define("A", Value::Class(Rc::new(class)));
    let paren = Token::new(TokenType::RightParen, ")", 1);
    let call = Rc::new(Expr::Call(Rc::new(Expr::Variable(0, name("A"))), paren, Vec::new()));
    let mut interpreter = Interpreter::new();
    interpreter.resolve(0, 0);
    interpreter.execute_block(&vec![Rc::new(Stmt::Print(call))], frame);
    match interpreter.run(100) {
        Action::Print(Shown::Text(text)) => assert_eq!(text, "A instance"),
        _ => panic!("the call did not give the instance"),
    }
    assert!(matches!(interpreter.run(100), Action::Finished));
}

#[test]
fn an_error_in_a_nested_block_leaves_every_block() {
    let mut interpreter = Interpreter::new();
    interpreter.resolve(0, 0);
    interpreter.resolve(1, 0);
    let read_x = Rc::new(Stmt::Print(Rc::new(Expr::Variable(0, name("x")))));
    let read_clock = Rc::new(Stmt::Print(Rc::new(Expr::Variable(1, name("clock")))));
    let read_nothing = Rc::new(Stmt::Print(Rc::new(Expr::Variable(2, name("nothing")))));

    let mut outer = Environment::encloser(0);
    outer.define("x", text("outer"));
    interpreter.execute_block(&vec![read_x.clone(), read_x.clone()], outer);
    match interpreter.run(100) {
        Action::Print(Shown::Text(text)) => assert_eq!(text, "outer"),
        _ => panic!("nothing was printed"),
    }
    // the outer block is under way; a block inside it fails
    interpreter.execute_block(&vec![read_nothing], Environment::encloser(1));
    match interpreter.run(100) {
        Action::Failed(e) => assert_eq!(e.error(), "Undefined variable 'nothing'.\n[line 3]"),
        _ => panic!("the read did not fail"),
    }
    // both blocks are left: the rest of the outer block is dropped and the
    // global frame, current before it, is current again
    assert!(matches!(interpreter.run(100), Action::Finished));
    interpreter.interpret(&vec![read_clock, read_x]);
    match interpreter.run(100) {
        Action::Print(Shown::Text(text)) => assert_eq!(text, "<native fn>"),
        _ => panic!("the global frame is not current"),
    }
    match interpreter.run(100) {
        Action::Failed(e) => assert_eq!(e.error(), "Undefined variable 'x'.\n[line 3]"),
        _ => panic!("the outer block is still current"),
    }
}
