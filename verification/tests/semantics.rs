use brainrot::interpreter::{Interpreter, LangError};
use brainrot::value::{RuntimeError, Value};

fn run_ok(src: &str) -> Interpreter {
    let mut i = Interpreter::new();
    i.run(src.into()).expect("program should run");
    i
}

fn runtime_message(src: &str) -> String {
    let mut i = Interpreter::new();
    match i.run(src.into()) {
        Err(LangError::Runtime(RuntimeError::Message(m))) => m,
        other => panic!("expected a runtime error, got {:?}", other),
    }
}

fn parse_message(src: &str) -> String {
    let mut i = Interpreter::new();
    match i.run(src.into()) {
        Err(LangError::Parse(m)) => m,
        other => panic!("expected a parse error, got {:?}", other),
    }
}

#[test]
fn print_collects_values_in_order() {
    let mut i = run_ok("fn n() { } print(1, \"a\", true, n()); print(2);");
    let out = i.take_output();
    assert_eq!(out.len(), 5);
    assert_eq!(out[0], Value::Int(1));
    assert_eq!(out[1], Value::Str("a".into()));
    assert_eq!(out[2], Value::Bool(true));
    assert!(matches!(out[3], Value::Null));
    assert_eq!(out[4], Value::Int(2));
    assert!(i.take_output().is_empty());
}

#[test]
fn printed_values_display() {
    let mut i = run_ok("fn foo() { } print(-42, \"hi\", false, foo(), foo);");
    let shown: Vec<String> = i.take_output().iter().map(|v| v.display_string()).collect();
    assert_eq!(shown, vec!["-42", "hi", "false", "null", "fn<foo>"]);
}

#[test]
fn closure_prints_expected_values() {
    let mut i = run_ok(
        r#"
        let x = 1;
        fn outer(a) {
            let y = 2;
            fn inner(b) {
                print(x + a + y + b);
            }
            inner(4);
        }
        outer(3);
        "#,
    );
    assert_eq!(i.take_output(), vec![Value::Int(10)]);
}

#[test]
fn lexical_scope_sees_later_global() {
    let mut i = run_ok("fn f() { print(x); } let x = 10; f();");
    assert_eq!(i.take_output(), vec![Value::Int(10)]);
}

#[test]
fn undefined_variable_message() {
    assert_eq!(runtime_message("let x = y;"), "undefined variable 'y'");
}

#[test]
fn division_by_zero_is_an_error() {
    assert_eq!(runtime_message("let x = 1 / 0;"), "cannot divide by zero");
}

/// A source on which the run would not come back: `run_checked` refuses it
/// and leaves the interpreter as it was.
fn does_not_return(src: &str) {
    let mut i = Interpreter::new();
    i.run("let keep = 1;".into()).unwrap();
    assert!(!i.can_run(&src.to_string()));
    assert!(i.run_checked(src.into()).is_none());
    assert_eq!(i.get("keep").unwrap(), Value::Int(1));
    assert!(i.get("x").is_none());
    assert!(i.take_output().is_empty());
}

#[test]
fn remainder_by_zero_does_not_return() {
    does_not_return("print(1); let x = 5 % 0;");
}

#[test]
fn integer_overflow_does_not_return() {
    does_not_return("let x = 2147483647 + 1;");
    does_not_return("let x = 0 - 2147483647 - 2;");
    does_not_return("let x = 65536 * 65536;");
    does_not_return("let m = 0 - 2147483647 - 1; let x = -m;");
    does_not_return("let m = 0 - 2147483647 - 1; let x = m / -1;");
}

#[test]
fn run_checked_runs_what_returns() {
    let mut i = Interpreter::new();
    assert!(i.can_run(&"let x = 1 / 0;".to_string()));
    assert!(matches!(i.run_checked("let x = 1 / 0;".into()), Some(Err(LangError::Runtime(_)))));
    assert!(matches!(i.run_checked("let x = 2;".into()), Some(Ok(()))));
    assert_eq!(i.get("x").unwrap(), Value::Int(2));
}

#[test]
fn type_errors() {
    assert_eq!(runtime_message("let x = 1 + \"a\";"), "type mismatch");
    assert_eq!(runtime_message("let x = \"a\" % 2;"), "modulo not implemented for this type");
    assert_eq!(runtime_message("let x = \"a\" * -1;"), "cannot multiply string by negative integer");
    assert_eq!(runtime_message("fn n() { } let x = !n();"), "cannot apply '!' to null");
    assert_eq!(runtime_message("fn f() { } let x = !f;"), "cannot apply '!' to function");
}

#[test]
fn calling_a_non_function_does_not_return() {
    does_not_return("let f = 1; f();");
}

#[test]
fn arity_mismatch_message() {
    assert_eq!(runtime_message("fn f(a, b) { } f(1);"), "expected 2 args got 1");
}

#[test]
fn undefined_function_message() {
    assert_eq!(runtime_message("foo();"), "function not defined: foo");
}

#[test]
fn assignment_to_undefined_message() {
    assert_eq!(runtime_message("x = 1;"), "cannot reassign value to undefined variable");
}

#[test]
fn top_level_break_is_an_error() {
    let m = runtime_message("break;");
    assert!(m.starts_with("invalid control flow at top level Break in statement"));
    let m = runtime_message("return 5;");
    assert!(m.starts_with("invalid control flow at top level Return(Int(5))"));
}

#[test]
fn unknown_operator_is_an_error() {
    assert_eq!(runtime_message("let a = 1; let x = (a = 2);"), "unimplemented Assign");
}

#[test]
fn unrecognized_character_does_not_return() {
    does_not_return("let x = 1 @ 2;");
    does_not_return("let x = 1 & 2;");
}

#[test]
fn number_out_of_range_does_not_return() {
    does_not_return("let x = 2147483648;");
    does_not_return("let x = 1.5;");
    does_not_return("let x = 1 +");
}

#[test]
fn missing_semicolon_is_a_parse_error() {
    let m = parse_message("let x = 1");
    assert!(!m.is_empty());
}

#[test]
fn largest_integer_literal() {
    let i = run_ok("let x = 2147483647; let y = -2147483647 - 1;");
    assert_eq!(i.get("x").unwrap(), Value::Int(2147483647));
    assert_eq!(i.get("y").unwrap(), Value::Int(-2147483648));
}

#[test]
fn division_rounds_toward_zero() {
    let i = run_ok("let a = -7 / 2; let b = -7 % 2; let c = 7 / -2; let d = 7 % -2;");
    assert_eq!(i.get("a").unwrap(), Value::Int(-3));
    assert_eq!(i.get("b").unwrap(), Value::Int(-1));
    assert_eq!(i.get("c").unwrap(), Value::Int(-3));
    assert_eq!(i.get("d").unwrap(), Value::Int(1));
}

#[test]
fn string_comparisons() {
    let i = run_ok(
        "let a = \"abc\" < \"abd\"; let b = \"b\" > \"abc\"; let c = \"ab\" <= \"ab\"; let d = false < true; let e = 1 < \"a\";",
    );
    assert_eq!(i.get("a").unwrap(), Value::Bool(true));
    assert_eq!(i.get("b").unwrap(), Value::Bool(true));
    assert_eq!(i.get("c").unwrap(), Value::Bool(true));
    assert_eq!(i.get("d").unwrap(), Value::Bool(true));
    assert_eq!(i.get("e").unwrap(), Value::Bool(false));
}

#[test]
fn null_is_not_equal_to_null() {
    let i = run_ok("fn n() { } let a = n() == n(); let b = n() != n();");
    assert_eq!(i.get("a").unwrap(), Value::Bool(false));
    assert_eq!(i.get("b").unwrap(), Value::Bool(true));
}

#[test]
fn truthiness_in_conditions() {
    let i = run_ok(
        "let a = 0; if (\"\") { a = 1; } elif (0) { a = 2; } elif (\"x\") { a = 3; } let b = !\"\"; let c = !5;",
    );
    assert_eq!(i.get("a").unwrap(), Value::Int(3));
    assert_eq!(i.get("b").unwrap(), Value::Bool(true));
    assert_eq!(i.get("c").unwrap(), Value::Bool(false));
}

#[test]
fn logical_operators_give_booleans() {
    let i = run_ok("let a = 1 && \"x\"; let b = 0 || \"\"; let c = \"\" && 1;");
    assert_eq!(i.get("a").unwrap(), Value::Bool(true));
    assert_eq!(i.get("b").unwrap(), Value::Bool(false));
    assert_eq!(i.get("c").unwrap(), Value::Bool(false));
}

#[test]
fn call_without_return_gives_null() {
    let i = run_ok("fn f() { let z = 1; } let x = f(); let y = x == f();");
    assert!(matches!(i.get("x").unwrap(), Value::Null));
    assert_eq!(i.get("y").unwrap(), Value::Bool(false));
}

#[test]
fn return_from_inside_a_loop() {
    let i = run_ok(
        "fn first(n) { for (let i = 0; i < 10; i = i + 1) { if (i == n) { return i * 2; } } return -1; } let a = first(3); let b = first(20);",
    );
    assert_eq!(i.get("a").unwrap(), Value::Int(6));
    assert_eq!(i.get("b").unwrap(), Value::Int(-1));
}

#[test]
fn while_with_continue() {
    let i = run_ok("let i = 0; let s = 0; while (i < 5) { i = i + 1; if (i == 2) { continue; } s = s + i; }");
    assert_eq!(i.get("s").unwrap(), Value::Int(13));
}

#[test]
fn env_dump_lists_scopes() {
    let i = run_ok("let a = 1; let b = 2; a = 3;");
    assert_eq!(i.env_dump(), vec![vec!["a".to_string(), "b".to_string()]]);
}

#[test]
fn state_survives_across_runs() {
    let mut i = Interpreter::new();
    i.run("let a = 1;".into()).unwrap();
    i.run("a = a + 1; print(a);".into()).unwrap();
    assert_eq!(i.get("a").unwrap(), Value::Int(2));
    assert_eq!(i.take_output(), vec![Value::Int(2)]);
}
