use shoutter_minifier::js::{
    map_function, optimize_js, rename_stmts, Arrow, ArrowBody, Expr, FunctionToArrowFn, Function,
    Param, Pat, Stmt, TransformError,
};

fn ident(n: &str) -> Expr {
    Expr::Ident(n.to_string())
}

fn call(f: Expr, args: Vec<Expr>) -> Expr {
    Expr::Call { callee: Box::new(f), args, type_args: false }
}

fn func(params: Vec<Param>, body: Vec<Stmt>) -> Function {
    Function { params, body, is_async: false, is_generator: false }
}

fn plain(n: &str) -> Param {
    Param { decorated: false, pat: Pat::Ident(n.to_string()) }
}

#[test]
fn arguments_become_rest_parameter() {
    // function() { return f(arguments); }
    let e = Expr::Fn {
        ident: None,
        function: Box::new(func(vec![], vec![Stmt::Return(Some(call(ident("f"), vec![ident("arguments")])))])),
    };
    let out = FunctionToArrowFn::visit_mut_expr(e).unwrap();
    let expected = Expr::Arrow(Box::new(Arrow {
        params: vec![Pat::Rest("__minifier_arguments".to_string())],
        body: ArrowBody::Block(vec![Stmt::Return(Some(call(
            ident("f"),
            vec![ident("__minifier_arguments")],
        )))]),
        is_async: false,
        is_generator: false,
    }));
    assert_eq!(out, expected);
}

#[test]
fn arguments_with_parameters_fail() {
    // function(x) { return f(arguments); }
    let f = func(vec![plain("x")], vec![Stmt::Return(Some(call(ident("f"), vec![ident("arguments")])))]);
    assert_eq!(map_function(f).err(), Some(TransformError::ArgumentsWithParams));
}

#[test]
fn decorated_parameter_fails() {
    let f = func(vec![Param { decorated: true, pat: Pat::Ident("a".to_string()) }], vec![]);
    assert_eq!(map_function(f).err(), Some(TransformError::DecoratedParam));
}

fn sum() -> Expr {
    Expr::Op { op: "+".to_string(), operands: vec![ident("a"), ident("b")] }
}

#[test]
fn redundant_binding_folds() {
    // function() { const x = a + b; return g(x); }
    let f = func(
        vec![],
        vec![
            Stmt::Const { name: "x".to_string(), typed: false, declare: false, init: sum() },
            Stmt::Return(Some(call(ident("g"), vec![ident("x")]))),
        ],
    );
    let ar = map_function(f).unwrap();
    assert_eq!(ar.params, vec![]);
    assert_eq!(ar.body, ArrowBody::Expr(Box::new(call(ident("g"), vec![sum()]))));
}

#[test]
fn binding_with_two_arguments_stays() {
    // function() { const x = a; return g(x, y); }
    let body = vec![
        Stmt::Const { name: "x".to_string(), typed: false, declare: false, init: ident("a") },
        Stmt::Return(Some(call(ident("g"), vec![ident("x"), ident("y")]))),
    ];
    let ar = map_function(func(vec![], body)).unwrap();
    assert_eq!(
        ar.body,
        ArrowBody::Block(vec![
            Stmt::Const { name: "x".to_string(), typed: false, declare: false, init: ident("a") },
            Stmt::Return(Some(call(ident("g"), vec![ident("x"), ident("y")]))),
        ])
    );
}

#[test]
fn declaration_becomes_const_arrow() {
    let m = vec![Stmt::FnDecl {
        ident: "h".to_string(),
        declare: false,
        function: func(vec![plain("p")], vec![Stmt::Return(Some(ident("p")))]),
    }];
    let out = optimize_js(m).unwrap();
    assert_eq!(
        out,
        vec![Stmt::Const {
            name: "h".to_string(),
            typed: false,
            declare: false,
            init: Expr::Arrow(Box::new(Arrow {
                params: vec![Pat::Ident("p".to_string())],
                body: ArrowBody::Block(vec![Stmt::Return(Some(ident("p")))]),
                is_async: false,
                is_generator: false,
            })),
        }]
    );
}

fn sample_module() -> Vec<Stmt> {
    vec![
        Stmt::FnDecl {
            ident: "outer".to_string(),
            declare: false,
            function: func(
                vec![],
                vec![
                    Stmt::Expr(call(ident("log"), vec![ident("arguments")])),
                    Stmt::Return(Some(Expr::Fn {
                        ident: None,
                        function: Box::new(func(vec![], vec![Stmt::Return(Some(ident("arguments")))])),
                    })),
                ],
            ),
        },
        Stmt::Expr(Expr::Fn {
            ident: Some("named".to_string()),
            function: Box::new(func(vec![plain("q")], vec![Stmt::Return(Some(ident("q")))])),
        }),
    ]
}

#[test]
fn optimize_twice_changes_nothing() {
    let once = optimize_js(sample_module()).unwrap();
    let twice = optimize_js(optimize_js(sample_module()).unwrap()).unwrap();
    assert_eq!(once, twice);
}

#[test]
fn rename_stops_at_nested_function() {
    let inner = Expr::Fn {
        ident: None,
        function: Box::new(func(vec![], vec![Stmt::Return(Some(ident("arguments")))])),
    };
    let stmts = vec![Stmt::Expr(ident("arguments")), Stmt::Return(Some(inner))];
    let (out, used) = rename_stmts(stmts);
    assert!(used);
    assert_eq!(out[0], Stmt::Expr(ident("__minifier_arguments")));
    match &out[1] {
        Stmt::Return(Some(Expr::Fn { function, .. })) => {
            assert_eq!(function.body, vec![Stmt::Return(Some(ident("arguments")))]);
        }
        other => panic!("unexpected {other:?}"),
    }
}

#[test]
fn nested_function_keeps_its_own_arguments() {
    let out = optimize_js(sample_module()).unwrap();
    match &out[0] {
        Stmt::Const { init: Expr::Arrow(outer), .. } => {
            assert_eq!(outer.params, vec![Pat::Rest("__minifier_arguments".to_string())]);
            match &outer.body {
                ArrowBody::Block(b) => match &b[1] {
                    Stmt::Return(Some(Expr::Arrow(inner))) => {
                        assert_eq!(inner.params, vec![Pat::Rest("__minifier_arguments".to_string())]);
                    }
                    other => panic!("unexpected {other:?}"),
                },
                other => panic!("unexpected {other:?}"),
            }
        }
        other => panic!("unexpected {other:?}"),
    }
    match &out[1] {
        Stmt::Expr(Expr::Fn { ident: Some(n), .. }) => assert_eq!(n, "named"),
        other => panic!("unexpected {other:?}"),
    }
}

#[test]
fn arrow_binding_folds() {
    // () => { const x = a + b; return g(x); }
    let e = Expr::Arrow(Box::new(Arrow {
        params: vec![],
        body: ArrowBody::Block(vec![
            Stmt::Const { name: "x".to_string(), typed: false, declare: false, init: sum() },
            Stmt::Return(Some(call(ident("g"), vec![ident("x")]))),
        ]),
        is_async: false,
        is_generator: false,
    }));
    let out = optimize_js(vec![Stmt::Expr(e)]).unwrap();
    let expected = Expr::Arrow(Box::new(Arrow {
        params: vec![],
        body: ArrowBody::Expr(Box::new(call(ident("g"), vec![sum()]))),
        is_async: false,
        is_generator: false,
    }));
    assert_eq!(out, vec![Stmt::Expr(expected)]);
}

#[test]
fn arrow_binding_with_two_arguments_stays() {
    // () => { const x = a; return g(x, y); }
    let body = || {
        vec![
            Stmt::Const { name: "x".to_string(), typed: false, declare: false, init: ident("a") },
            Stmt::Return(Some(call(ident("g"), vec![ident("x"), ident("y")]))),
        ]
    };
    let arrow = |b| {
        Expr::Arrow(Box::new(Arrow { params: vec![], body: ArrowBody::Block(b), is_async: false, is_generator: false }))
    };
    let out = optimize_js(vec![Stmt::Expr(arrow(body()))]).unwrap();
    assert_eq!(out, vec![Stmt::Expr(arrow(body()))]);
}

#[test]
fn module_with_arguments_and_parameters_fails() {
    // (function(x) { return f(arguments); });
    let e = Expr::Fn {
        ident: None,
        function: Box::new(func(vec![plain("x")], vec![Stmt::Return(Some(call(ident("f"), vec![ident("arguments")])))])),
    };
    assert_eq!(optimize_js(vec![Stmt::Expr(e)]).err(), Some(TransformError::ArgumentsWithParams));
}

#[test]
fn nested_failure_fails_the_module() {
    let inner = Expr::Fn {
        ident: None,
        function: Box::new(func(vec![Param { decorated: true, pat: Pat::Ident("d".to_string()) }], vec![])),
    };
    let m = vec![Stmt::FnDecl {
        ident: "outer".to_string(),
        declare: false,
        function: func(vec![], vec![Stmt::Return(Some(inner))]),
    }];
    assert_eq!(optimize_js(m).err(), Some(TransformError::DecoratedParam));
}

#[test]
fn declaration_body_folds_after_inner_conversion() {
    // function h() { function x() {} return g(x); } : the inner declaration
    // becomes `const x = () => {}`, and the body then folds.
    let m = vec![Stmt::FnDecl {
        ident: "h".to_string(),
        declare: false,
        function: func(
            vec![],
            vec![
                Stmt::FnDecl { ident: "x".to_string(), declare: false, function: func(vec![], vec![]) },
                Stmt::Return(Some(call(ident("g"), vec![ident("x")]))),
            ],
        ),
    }];
    let out = optimize_js(m).unwrap();
    let empty = Expr::Arrow(Box::new(Arrow { params: vec![], body: ArrowBody::Block(vec![]), is_async: false, is_generator: false }));
    match &out[0] {
        Stmt::Const { name, init: Expr::Arrow(ar), .. } => {
            assert_eq!(name, "h");
            assert_eq!(ar.body, ArrowBody::Expr(Box::new(call(ident("g"), vec![empty]))));
        }
        other => panic!("unexpected {other:?}"),
    }
}
