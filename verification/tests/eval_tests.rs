use mlisp::eval::Environment;
use mlisp::types::{Expr, Number};

#[test]
fn cannot_add_to_contextless_env() {
    let mut env = Environment::empty();
    let r = env.add_var("a", Expr::number(Number::new(1, 1)));
    assert!(r.is_err(), "Expected add_var to fail, but it succeeded: {:?}", r);
}

#[test]
fn can_add_var_to_context_env() {
    let mut env = Environment::empty();
    let val = Expr::number(Number::new(1, 1));
    assert_eq!(0usize, env.num_contexts());
    env.push_context();
    assert_eq!(1usize, env.num_contexts());

    let _ = env.add_var("a", Expr::number(Number::new(1, 1)));

    env.lookup("a").map_or_else(
        || panic!("Failed to find var in environment."),
        |(param, x)| {
            assert_eq!(val, x);
            assert_eq!(0usize, param.len());
        },
    );

    env.pop_context();
    if let Some(x) = env.lookup("a") {
        panic!("Expected Err, got {:?}", x);
    }
    assert_eq!(0usize, env.num_contexts());
}

#[test]
fn default_environment_is_correct() {
    let env = Environment::default();
    env.lookup("False").map_or_else(
        || panic!("Expected Some, got None 1"),
        |(ps, expr)| {
            assert_eq!(0, ps.len());
            assert_eq!(Expr::list(vec![]), expr);
        },
    );
    env.lookup("True").map_or_else(
        || panic!("Expected Some, got None 2"),
        |(ps, expr)| {
            assert_eq!(0, ps.len());
            assert_eq!(Expr::list(vec![Expr::number(Number::new(1, 1))]), expr);
        },
    );
}

#[test]
fn matched_push_pop_restores_frame_count() {
    let mut env = Environment::default();
    let before = env.num_contexts();
    for n in 1..6usize {
        for _ in 0..n {
            env.push_context();
        }
        for _ in 0..n {
            env.pop_context();
        }
        assert_eq!(before, env.num_contexts());
    }
    // Bindings made inside a pushed frame vanish with it.
    env.push_context();
    let _ = env.add_var("inner", Expr::number(Number::new(7, 1)));
    assert!(env.lookup("inner").is_some());
    env.pop_context();
    assert!(env.lookup("inner").is_none());
    assert_eq!(before, env.num_contexts());
}

#[test]
fn from_vars_builds_one_frame() {
    let vars = [
        ("x", Expr::number(Number::new(5, 1))),
        ("y", Expr::symbol("hello")),
    ];
    let env = Environment::from_vars(&vars);
    assert_eq!(1usize, env.num_contexts());
    let (ps, x) = env.lookup("x").expect("x bound");
    assert_eq!(0, ps.len());
    assert_eq!(x, Expr::number(Number::new(5, 1)));
    let (ps2, y) = env.lookup("y").expect("y bound");
    assert_eq!(0, ps2.len());
    assert_eq!(y, Expr::symbol("hello"));
    assert!(env.lookup("z").is_none());
    assert!(env.contains_key("y"));
    assert!(!env.contains_key("z"));
}

#[test]
fn inner_frames_shadow_outer() {
    let mut env = Environment::default();
    let _ = env.add_var("v", Expr::number(Number::new(1, 1)));
    env.push_context();
    let _ = env.add_var("v", Expr::number(Number::new(2, 1)));
    let (_, x) = env.lookup("v").expect("v bound");
    assert_eq!(x, Expr::number(Number::new(2, 1)));
    env.pop_context();
    let (_, x2) = env.lookup("v").expect("v bound");
    assert_eq!(x2, Expr::number(Number::new(1, 1)));
}
