use lisp_core::ast::Node;
use lisp_core::error::LispError;
use lisp_core::runtime::{Data, Runtime};

fn ident(s: &str) -> Node {
    Node::Identifier(s.to_string())
}

fn num(i: i32) -> Node {
    Node::IntegerLiteral(i)
}

fn strlit(s: &str) -> Node {
    Node::StringLiteral(s.to_string())
}

fn list(items: Vec<Node>) -> Node {
    Node::List(items)
}

fn quoted(n: Node) -> Node {
    Node::Quote(Box::new(n))
}

fn rt() -> Runtime {
    Runtime::try_new().unwrap()
}

#[test]
fn test_quote_unquote() {
    let mut runtime = rt();
    let node1 = list(vec![
        ident("let"),
        ident("quoted"),
        list(vec![ident("quote"), list(vec![ident("do"), num(2), num(3)])]),
    ]);
    runtime.eval(node1).unwrap();
    assert_eq!(
        &Data::Quote(Node::List(vec![ident("do"), num(2), num(3)])),
        runtime.stack.lookup("quoted").unwrap()
    );
    let node2 = list(vec![
        ident("let"),
        ident("unquoted"),
        list(vec![ident("unquote"), ident("quoted")]),
    ]);
    runtime.eval(node2).unwrap();
    assert_eq!(&Data::Int(3), runtime.stack.lookup("unquoted").unwrap());
}

#[test]
fn scenario_do_let_add() {
    let mut runtime = rt();
    let node = list(vec![
        ident("do"),
        list(vec![ident("let"), ident("x"), num(5)]),
        list(vec![ident("+"), ident("x"), num(3)]),
    ]);
    assert_eq!(Data::Int(8), runtime.eval(node).unwrap());
}

#[test]
fn scenario_function_application() {
    let mut runtime = rt();
    let def = list(vec![
        ident("let"),
        ident("f"),
        list(vec![
            ident("fn"),
            list(vec![ident("a"), ident("b")]),
            list(vec![ident("+"), ident("a"), ident("b")]),
        ]),
    ]);
    runtime.eval(def).unwrap();
    let call = list(vec![ident("f"), num(2), num(3)]);
    assert_eq!(Data::Int(5), runtime.eval(call).unwrap());
}

#[test]
fn scenario_if_equality() {
    let mut runtime = rt();
    let node = list(vec![
        ident("if"),
        list(vec![ident("="), num(1), num(1)]),
        strlit("yes"),
        strlit("no"),
    ]);
    assert_eq!(Data::Str("yes".to_string()), runtime.eval(node).unwrap());
}

#[test]
fn scenario_modulo() {
    let mut runtime = rt();
    let node = list(vec![ident("mod"), num(10), num(3)]);
    assert_eq!(Data::Int(1), runtime.eval(node).unwrap());
    let by_zero = list(vec![ident("mod"), num(10), num(0)]);
    assert!(matches!(runtime.eval(by_zero), Err(LispError::Runtime(_))));
}

#[test]
fn arity_violations_are_syntax_errors() {
    let mut runtime = rt();
    let plus = list(vec![ident("+"), num(1), num(2), num(3)]);
    assert!(matches!(runtime.eval(plus), Err(LispError::SyntaxError(_))));

    let def = list(vec![
        ident("let"),
        ident("one"),
        list(vec![ident("fn"), list(vec![ident("a")]), ident("a")]),
    ]);
    runtime.eval(def).unwrap();
    let call = list(vec![ident("one"), num(1), num(2)]);
    assert!(matches!(runtime.eval(call), Err(LispError::SyntaxError(_))));
}

#[test]
fn truthiness_table() {
    let mut runtime = rt();
    let cases = [
        (num(0), Data::Int(2)),
        (num(1), Data::Int(1)),
        (strlit(""), Data::Int(2)),
        (strlit("x"), Data::Int(1)),
    ];
    for (cond, expect) in cases {
        let node = list(vec![ident("if"), cond, num(1), num(2)]);
        assert_eq!(expect, runtime.eval(node).unwrap());
    }
    // The quoted identifier `true` is the one truthy quote.
    let qt = list(vec![ident("if"), quoted(ident("true")), num(1), num(2)]);
    assert_eq!(Data::Int(1), runtime.eval(qt).unwrap());
    let qf = list(vec![ident("if"), quoted(ident("other")), num(1), num(2)]);
    assert_eq!(Data::Int(2), runtime.eval(qf).unwrap());
}

#[test]
fn quote_round_trip() {
    let mut runtime = rt();
    let bind = list(vec![
        ident("let"),
        ident("q"),
        list(vec![ident("quote"), list(vec![ident("+"), num(1), num(2)])]),
    ]);
    runtime.eval(bind).unwrap();
    let unq = list(vec![ident("unquote"), ident("q")]);
    assert_eq!(Data::Int(3), runtime.eval(unq).unwrap());
}

#[test]
fn arithmetic_exact_values() {
    let mut runtime = rt();
    let cases = [
        ("+", 7, 5, Data::Int(12)),
        ("-", 7, 5, Data::Int(2)),
        ("*", 7, 5, Data::Int(35)),
        ("/", 7, 5, Data::Int(1)),
        ("/", -7, 5, Data::Int(-1)),
        ("mod", -7, 5, Data::Int(-2)),
        ("mod", 7, -5, Data::Int(2)),
    ];
    for (op, a, b, expect) in cases {
        let node = list(vec![ident(op), num(a), num(b)]);
        assert_eq!(expect, runtime.eval(node).unwrap(), "({} {} {})", op, a, b);
    }
}

#[test]
fn arithmetic_overflow_is_runtime_error() {
    let mut runtime = rt();
    let node = list(vec![ident("+"), num(i32::MAX), num(1)]);
    assert!(matches!(runtime.eval(node), Err(LispError::Runtime(_))));
    let node = list(vec![ident("/"), num(i32::MIN), num(-1)]);
    assert!(matches!(runtime.eval(node), Err(LispError::Runtime(_))));
    let div_zero = list(vec![ident("/"), num(1), num(0)]);
    assert!(matches!(runtime.eval(div_zero), Err(LispError::Runtime(_))));
}

#[test]
fn error_variants() {
    let mut runtime = rt();
    // Applying a non-callable value.
    let node = list(vec![num(1), num(2)]);
    assert!(matches!(runtime.eval(node), Err(LispError::TypeError(_))));
    // Unquoting a value that is not a quote.
    let node = list(vec![ident("unquote"), num(5)]);
    assert!(matches!(runtime.eval(node), Err(LispError::TypeError(_))));
    // A `let` key that is not an identifier.
    let node = list(vec![ident("let"), num(1), num(2)]);
    assert!(matches!(runtime.eval(node), Err(LispError::TypeError(_))));
    // An unbound identifier.
    assert!(matches!(
        runtime.eval(ident("nowhere")),
        Err(LispError::VariableNotFound(_))
    ));
    // An odd number of `let` arguments.
    let node = list(vec![ident("let"), ident("x")]);
    assert!(matches!(runtime.eval(node), Err(LispError::SyntaxError(_))));
    // An empty `do` block.
    let node = list(vec![ident("do")]);
    assert!(matches!(runtime.eval(node), Err(LispError::SyntaxError(_))));
    // `quote` with no argument.
    let node = list(vec![ident("quote")]);
    assert!(matches!(runtime.eval(node), Err(LispError::SyntaxError(_))));
    // `if` with a wrong argument count.
    let node = list(vec![ident("if"), num(1)]);
    assert!(matches!(runtime.eval(node), Err(LispError::SyntaxError(_))));
    // `fn` with a non-identifier parameter.
    let node = list(vec![ident("fn"), list(vec![num(1)]), num(1)]);
    assert!(matches!(runtime.eval(node), Err(LispError::SyntaxError(_))));
}

#[test]
fn nesting_beyond_the_depth_budget_is_reported() {
    let mut runtime = rt();
    let mut node = num(1);
    for _ in 0..600 {
        node = list(vec![ident("do"), node]);
    }
    assert!(matches!(runtime.eval(node), Err(LispError::Runtime(_))));
}

#[test]
fn debug_records_values_for_the_driver() {
    let mut runtime = rt();
    let node = list(vec![ident("debug"), num(4), strlit("hi")]);
    assert_eq!(Data::Empty, runtime.eval(node).unwrap());
    let out = runtime.take_output();
    assert_eq!(vec![Data::Int(4), Data::Str("hi".to_string())], out);
    assert!(runtime.take_output().is_empty());
}

#[test]
fn value_equality_semantics() {
    // Intrinsics are equal exactly when their names are.
    assert_eq!(
        Data::Intrinsic("+".to_string()),
        Data::Intrinsic("+".to_string())
    );
    assert_ne!(
        Data::Intrinsic("+".to_string()),
        Data::Intrinsic("-".to_string())
    );
    // Functions are equal exactly when parameter names and bodies are.
    let f1 = Data::Function(vec!["a".to_string()], ident("a"));
    let f2 = Data::Function(vec!["a".to_string()], ident("a"));
    let f3 = Data::Function(vec!["b".to_string()], ident("a"));
    let f4 = Data::Function(vec!["a".to_string()], num(1));
    assert_eq!(f1, f2);
    assert_ne!(f1, f3);
    assert_ne!(f1, f4);
    // Different kinds of value are never equal.
    assert_ne!(Data::Int(0), Data::Empty);
    assert_ne!(Data::Str("1".to_string()), Data::Int(1));
    // `=` answers with Int(1) / Int(0).
    let mut runtime = rt();
    let node = list(vec![ident("="), strlit("a"), strlit("a")]);
    assert_eq!(Data::Int(1), runtime.eval(node).unwrap());
    let node = list(vec![ident("!="), strlit("a"), strlit("a")]);
    assert_eq!(Data::Int(0), runtime.eval(node).unwrap());
}

#[test]
fn intrinsics_can_be_shadowed_by_user_bindings() {
    let mut runtime = rt();
    let shadow = list(vec![ident("let"), ident("mod"), num(42)]);
    runtime.eval(shadow).unwrap();
    assert_eq!(&Data::Int(42), runtime.stack.lookup("mod").unwrap());
}
