use lisp_core::ast::Node;
use lisp_core::error::LispError;
use lisp_core::runtime::{Data, NSStack, Runtime};

fn ident(s: &str) -> Node {
    Node::Identifier(s.to_string())
}

fn num(i: i32) -> Node {
    Node::IntegerLiteral(i)
}

fn list(items: Vec<Node>) -> Node {
    Node::List(items)
}

#[test]
fn shadowing_and_unshadowing() {
    let mut stack = NSStack::new();
    stack.top().insert("x".to_string(), Data::Int(1));
    stack.enter_scope();
    stack.top().insert("x".to_string(), Data::Int(2));
    assert_eq!(&Data::Int(2), stack.lookup("x").unwrap());
    stack.exit_scope();
    assert_eq!(&Data::Int(1), stack.lookup("x").unwrap());

    stack.enter_scope();
    stack.top().insert("y".to_string(), Data::Int(3));
    assert_eq!(&Data::Int(3), stack.lookup("y").unwrap());
    stack.exit_scope();
    assert!(matches!(
        stack.lookup("y"),
        Err(LispError::VariableNotFound(_))
    ));
}

#[test]
fn frame_balance_under_failure() {
    let mut runtime = Runtime::try_new().unwrap();
    let before = runtime.stack.depth();

    // Body evaluation fails: the body names an unbound identifier.
    let bad_body = list(vec![
        list(vec![ident("fn"), list(vec![ident("a")]), ident("nowhere")]),
        num(1),
    ]);
    assert!(runtime.eval(bad_body).is_err());
    assert_eq!(before, runtime.stack.depth());

    // Argument evaluation fails partway through.
    let bad_arg = list(vec![
        list(vec![ident("fn"), list(vec![ident("a"), ident("b")]), num(0)]),
        num(1),
        ident("nowhere"),
    ]);
    assert!(runtime.eval(bad_arg).is_err());
    assert_eq!(before, runtime.stack.depth());

    // A successful application is balanced too.
    let good = list(vec![
        list(vec![ident("fn"), list(vec![ident("a")]), ident("a")]),
        num(9),
    ]);
    assert_eq!(Data::Int(9), runtime.eval(good).unwrap());
    assert_eq!(before, runtime.stack.depth());
}

#[test]
fn lookup_mut_updates_innermost_binding() {
    let mut stack = NSStack::new();
    stack.top().insert("x".to_string(), Data::Int(1));
    stack.enter_scope();
    stack.top().insert("x".to_string(), Data::Int(2));

    stack.lookup_mut("x", Data::Int(20)).unwrap();
    assert_eq!(&Data::Int(20), stack.lookup("x").unwrap());
    stack.exit_scope();
    assert_eq!(&Data::Int(1), stack.lookup("x").unwrap());

    assert!(matches!(
        stack.lookup_mut("missing", Data::Int(0)),
        Err(LispError::VariableNotFound(_))
    ));
}

#[test]
fn register_intrinsic_writes_the_base_frame_only() {
    let mut stack = NSStack::new();
    stack.enter_scope();
    stack.register_intrinsic("blip").unwrap();
    stack.exit_scope();
    assert_eq!(
        &Data::Intrinsic("blip".to_string()),
        stack.lookup("blip").unwrap()
    );
}

#[test]
fn top_level_bindings_persist_across_eval_calls() {
    let mut runtime = Runtime::try_new().unwrap();
    runtime
        .eval(list(vec![ident("let"), ident("x"), num(5)]))
        .unwrap();
    assert_eq!(
        Data::Int(6),
        runtime
            .eval(list(vec![ident("+"), ident("x"), num(1)]))
            .unwrap()
    );
}

#[test]
fn intrinsics_called_directly() {
    let mut stack = NSStack::new();
    let r = lisp_core::runtime::f_do(&mut stack, &[num(4), num(5)], 16).unwrap();
    assert_eq!(Data::Int(5), r);
    let r = lisp_core::runtime::add(&mut stack, &[num(4), num(5)], 16).unwrap();
    assert_eq!(Data::Int(9), r);
    let r = lisp_core::runtime::f_fn(&mut stack, &[list(vec![ident("a")]), ident("a")]).unwrap();
    assert_eq!(Data::Function(vec!["a".to_string()], ident("a")), r);
    let r = lisp_core::runtime::quote(&mut stack, &[num(3)]).unwrap();
    assert_eq!(Data::Quote(num(3)), r);
}

#[test]
fn node_structural_equality() {
    let a = list(vec![ident("do"), num(1), Node::StringLiteral("s".to_string())]);
    let b = list(vec![ident("do"), num(1), Node::StringLiteral("s".to_string())]);
    let c = list(vec![ident("do"), num(2), Node::StringLiteral("s".to_string())]);
    assert_eq!(a, b);
    assert_ne!(a, c);
    let qa = Node::Quote(Box::new(a));
    let qb = Node::Quote(Box::new(b));
    assert_eq!(qa, qb);
}
