use brainrot::env::Env;
use brainrot::interpreter::Interpreter;
use brainrot::lexer::Lexer;
use brainrot::parser::{Expr, Parser, Stmt};
use brainrot::repl::Repl;
use brainrot::token::TokenType;
use brainrot::value::{Order, Value};

#[test]
fn lookup_after_define_gives_the_value() {
    let mut envs = vec![Env::new(None)];
    Env::define(&mut envs, 0, "x".into(), Value::Int(1));
    assert_eq!(Env::get(&envs, 0, "x"), Some(Value::Int(1)));
    Env::define(&mut envs, 0, "x".into(), Value::Int(2));
    assert_eq!(Env::get(&envs, 0, "x"), Some(Value::Int(2)));
}

#[test]
fn define_keeps_other_names_and_outer_scopes() {
    let mut envs = vec![Env::new(None)];
    Env::define(&mut envs, 0, "x".into(), Value::Int(1));
    Env::define(&mut envs, 0, "y".into(), Value::Int(7));
    let inner = Env::push_scope(&mut envs, 0);
    assert_eq!(inner, 1);
    Env::define(&mut envs, inner, "x".into(), Value::Int(2));
    assert_eq!(Env::get(&envs, inner, "x"), Some(Value::Int(2)));
    assert_eq!(Env::get(&envs, inner, "y"), Some(Value::Int(7)));
    assert_eq!(Env::get(&envs, 0, "x"), Some(Value::Int(1)));
    assert_eq!(Env::get(&envs, 0, "z"), None);
}

#[test]
fn lookup_follows_parents_stored_later() {
    let mut envs = vec![Env::new(Some(1)), Env::new(None)];
    Env::define(&mut envs, 1, "x".into(), Value::Int(7));
    assert_eq!(Env::get(&envs, 0, "x"), Some(Value::Int(7)));
    assert_eq!(Env::assign(&mut envs, 0, "x".into(), Value::Int(8)), Ok(()));
    assert_eq!(Env::get(&envs, 1, "x"), Some(Value::Int(8)));
    assert_eq!(Env::get(&envs, 0, "y"), None);
}

#[test]
fn assign_rebinds_nearest_scope_or_fails() {
    let mut envs = vec![Env::new(None)];
    Env::define(&mut envs, 0, "x".into(), Value::Int(1));
    let inner = Env::push_scope(&mut envs, 0);
    assert_eq!(Env::assign(&mut envs, inner, "x".into(), Value::Int(5)), Ok(()));
    assert_eq!(Env::get(&envs, 0, "x"), Some(Value::Int(5)));
    assert_eq!(
        Env::assign(&mut envs, inner, "y".into(), Value::Int(5)),
        Err("cannot reassign value to undefined variable".to_string())
    );
}

#[test]
fn block_and_loop_and_call_keep_names_to_themselves() {
    let mut i = Interpreter::new();
    i.run("let a = 1; { let b = 2; a = 3; } for (let c = 0; c < 2; c = c + 1) { let d = c; } fn f(e) { let g = e; } f(4);".into())
        .unwrap();
    assert_eq!(i.env_dump(), vec![vec!["a".to_string(), "f".to_string()]]);
    assert_eq!(i.get("a").unwrap(), Value::Int(3));
    for name in ["b", "c", "d", "e", "g"] {
        assert!(i.get(name).is_none());
    }
}

#[test]
fn failed_run_keeps_what_was_printed() {
    let mut i = Interpreter::new();
    let res = i.run("print(1); let x = 1 / 0; print(2);".into());
    assert!(res.is_err());
    assert_eq!(i.take_output(), vec![Value::Int(1)]);
    i.run("print(3);".into()).unwrap();
    assert_eq!(i.take_output(), vec![Value::Int(3)]);
}

#[test]
fn tokens_cover_their_text_in_order() {
    let src = "let ab_1 = 12; // note\n\t\"s t\" >= x";
    let chars: Vec<char> = src.chars().collect();
    let toks = Lexer::new(src.into()).tokenize();
    let kinds: Vec<TokenType> = toks.iter().map(|t| t.kind).collect();
    assert_eq!(
        kinds,
        vec![
            TokenType::Let,
            TokenType::Identifier,
            TokenType::Assign,
            TokenType::Number,
            TokenType::Semicolon,
            TokenType::String,
            TokenType::GreaterEqual,
            TokenType::Identifier,
            TokenType::EOF,
        ]
    );
    for w in toks.windows(2) {
        assert!(w[0].span.end <= w[1].span.start);
    }
    for t in &toks {
        assert!(t.span.start <= t.span.end);
        let text: String = match t.kind {
            TokenType::EOF => "EOF".into(),
            TokenType::String => {
                assert_eq!(chars[t.span.start - 1], '"');
                chars[t.span.start..t.span.end - 1].iter().collect()
            }
            _ => chars[t.span.start..t.span.end].iter().collect(),
        };
        assert_eq!(t.lexeme, text);
    }
    assert_eq!(toks[5].lexeme, "s t");
}

#[test]
fn token_text_is_sliced_by_byte_offsets() {
    let mut i = Interpreter::new();
    i.run("let s = \"éé\";".into()).unwrap();
    assert_eq!(i.get("s").unwrap(), Value::Str("é".into()));
    let toks = Lexer::new("\"éé\" ab".into()).tokenize();
    assert_eq!(toks[0].lexeme, "é");
    assert_eq!(toks[1].kind, TokenType::Identifier);
    assert_eq!(toks[1].span, 5..7);
    assert_eq!(toks[1].lexeme, "\" ");
}

#[test]
fn slicing_off_a_character_boundary_fails() {
    let mut l = Lexer::new("let aé = 1;".into());
    assert!(l.try_tokenize().is_none());
    let mut i = Interpreter::new();
    assert!(i.run_checked("let aé = 1;".into()).is_none());
}

#[test]
fn unterminated_string_runs_to_the_end() {
    let toks = Lexer::new("\"abc".into()).tokenize();
    assert_eq!(toks.len(), 2);
    assert_eq!(toks[0].kind, TokenType::String);
    assert_eq!(toks[0].lexeme, "abc");
    assert_eq!(toks[0].span, 1..5);
    assert_eq!(toks[1].kind, TokenType::EOF);
    assert_eq!(toks[1].span, 5..5);
}

#[test]
fn lexing_stops_on_unknown_characters() {
    let mut l = Lexer::new("let x = #;".into());
    assert!(!l.can_tokenize());
    assert!(l.try_tokenize().is_none());
    let mut l = Lexer::new("let x = 1;".into());
    assert!(l.can_tokenize());
    assert_eq!(l.try_tokenize().unwrap().len(), 6);
}

#[test]
fn lexing_finishes_on_paired_operators() {
    let src = "if (a && b || c) { x = \"s\"; } // done";
    let toks = Lexer::new(src.into()).tokenize();
    assert!(toks.len() <= src.chars().count() + 1);
    assert!(Lexer::new("a&&&&b".into()).can_tokenize());
    assert!(!Lexer::new("a &&& b".into()).can_tokenize());
    assert!(!Lexer::new("a | b".into()).can_tokenize());
    assert!(Lexer::new("let s = \"a & @ #\"; // | ~ $ &".into()).can_tokenize());
}

#[test]
fn parse_reads_every_statement() {
    let toks = Lexer::new("a; b = 2; { c; }".into()).tokenize();
    let ast = Parser::new(toks).parse().unwrap();
    assert_eq!(ast.len(), 3);
}

#[test]
fn order_is_antisymmetric() {
    let a = Value::Str("abc".into());
    let b = Value::Str("abd".into());
    assert_eq!(a.order(&b), Some(Order::Less));
    assert_eq!(b.order(&a), Some(Order::Greater));
    assert_eq!(a.order(&a), Some(Order::Equal));
    assert!(a == a.dup());
    assert_eq!(Value::Int(3).order(&Value::Int(-3)), Some(Order::Greater));
    assert_eq!(Value::Bool(true).order(&Value::Bool(false)), Some(Order::Greater));
    assert_eq!(Value::Int(1).order(&Value::Str("1".into())), None);
    assert!(Value::Int(1) != Value::Str("1".into()));
    assert!(Value::Str("1".into()) != Value::Int(1));
    assert_eq!(Value::Int(1).partial_cmp(&Value::Int(2)), Some(std::cmp::Ordering::Less));
    assert!(Value::Str("a".into()) < Value::Str("b".into()));
    assert!(Value::Bool(false) <= Value::Bool(false));
    assert_eq!(Value::Int(1).partial_cmp(&Value::Bool(true)), None);
}

#[test]
fn multiplication_commutes() {
    let x = Value::Str("ab".into()).mul(Value::Int(3)).unwrap();
    let y = Value::Int(3).mul(Value::Str("ab".into())).unwrap();
    assert_eq!(x, Value::Str("ababab".into()));
    assert_eq!(x, y);
    assert_eq!(Value::Int(-6).mul(Value::Int(7)).unwrap(), Value::Int(7).mul(Value::Int(-6)).unwrap());
    assert_eq!(Value::Str("ab".into()).mul(Value::Int(0)).unwrap(), Value::Str("".into()));
    assert!(Value::Str("ab".into()).mul(Value::Str("c".into())).is_err());
}

#[test]
fn division_and_remainder_fit_together() {
    for (a, b) in [(7, 2), (-7, 2), (7, -2), (-7, -2), (0, 5), (i32::MIN, 2), (i32::MAX, -1)] {
        let q = match Value::Int(a).div(Value::Int(b)).unwrap() {
            Value::Int(q) => q,
            _ => panic!(),
        };
        let r = match Value::Int(a).rem(Value::Int(b)).unwrap() {
            Value::Int(r) => r,
            _ => panic!(),
        };
        assert_eq!(q as i64 * b as i64 + r as i64, a as i64);
        assert!((r as i64).abs() < (b as i64).abs());
        assert!(r == 0 || (r < 0) == (a < 0));
    }
}

#[test]
fn not_negates_truthiness() {
    assert_eq!(Value::Str("".into()).not().unwrap(), Value::Bool(true));
    assert_eq!(Value::Int(3).not().unwrap(), Value::Bool(false));
    assert_eq!(Value::Bool(false).not().unwrap(), Value::Bool(true));
    assert_eq!(Value::Int(0).logical_not().unwrap(), true);
    assert!(Value::Null.not().is_err());
    assert!(Value::Null.logical_not().is_err());
}

#[test]
fn printed_integers_parse_back() {
    for n in [0, 7, -7, 1234567, i32::MAX, i32::MIN] {
        let s = Value::Int(n).display_string();
        assert_eq!(s, n.to_string());
        assert_eq!(s.parse::<i32>().unwrap(), n);
    }
}

#[test]
fn repl_gathers_lines_until_a_statement_ends() {
    let mut r = Repl::new();
    assert_eq!(r.prompt(), ">>> ");
    assert_eq!(r.feed("let x = 1;\n"), Some("let x = 1;".to_string()));
    assert_eq!(r.prompt(), ">>> ");
    assert_eq!(r.feed("if (x) {\n"), None);
    assert_eq!(r.depth(), 1);
    assert_eq!(r.prompt(), "... ");
    assert_eq!(r.feed("  x = 2;\n"), None);
    assert_eq!(r.feed("}\n"), None);
    assert_eq!(r.depth(), 0);
    assert_eq!(r.prompt(), "... ");
    assert_eq!(r.feed("\n"), None);
    assert_eq!(r.feed("\n"), None);
    assert_eq!(r.prompt(), ">>> ");
    assert_eq!(r.feed("print(x);\n"), Some("if (x) {x = 2;}print(x);".to_string()));
}

#[test]
fn repl_ignores_braces_in_strings() {
    let mut r = Repl::new();
    assert_eq!(r.feed("print(\"{\");\n"), Some("print(\"{\");".to_string()));
    assert_eq!(r.depth(), 0);
}

#[test]
fn operators_group_by_precedence_then_to_the_left() {
    let ast = Parser::new(Lexer::new("1 - 2 - 3; true || false && false;".into()).tokenize()).parse().unwrap();
    match &ast[0] {
        Stmt::Expr(Expr::Binary(l, TokenType::Minus, r)) => {
            assert!(matches!(**r, Expr::Number(3)));
            assert!(matches!(&**l, Expr::Binary(a, TokenType::Minus, b)
                if matches!(**a, Expr::Number(1)) && matches!(**b, Expr::Number(2))));
        }
        other => panic!("unexpected {:?}", other),
    }
    match &ast[1] {
        Stmt::Expr(Expr::Binary(l, TokenType::Or, r)) => {
            assert!(matches!(**l, Expr::Bool(true)));
            assert!(matches!(&**r, Expr::Binary(_, TokenType::And, _)));
        }
        other => panic!("unexpected {:?}", other),
    }
}
