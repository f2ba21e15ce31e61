//! The JavaScript pre-optimizer, on a syntax tree of the forms it rewrites.
//!
//! Function declarations and anonymous function expressions become arrow
//! functions; a use of `arguments` becomes a rest parameter; and an arrow
//! body that binds a constant only to pass it to a call is folded into the
//! call. Whether a function uses `arguments` is judged on its body as
//! written; its inner functions are converted first, from the leaves up.
use vstd::prelude::*;

verus! {

/// An expression.
#[derive(Debug, PartialEq, Eq)]
pub enum Expr {
    Ident(String),
    /// A call; `type_args` tells whether it has type arguments.
    Call { callee: Box<Expr>, args: Vec<Expr>, type_args: bool },
    /// A spread argument `...e`.
    Spread(Box<Expr>),
    /// A function expression, named or not.
    Fn { ident: Option<String>, function: Box<Function> },
    Arrow(Box<Arrow>),
    /// Any other expression, by its operator and operands: `a + b` is
    /// `Op { op: "+", operands: [a, b] }`, a literal is an operator with no
    /// operands.
    Op { op: String, operands: Vec<Expr> },
}

/// A binding pattern.
#[derive(Debug, PartialEq, Eq)]
pub enum Pat {
    Ident(String),
    /// A rest parameter `...name`.
    Rest(String),
}

/// A parameter of a function.
#[derive(Debug, PartialEq, Eq)]
pub struct Param {
    pub decorated: bool,
    pub pat: Pat,
}

/// A function: its parameters, its body and its flags.
#[derive(Debug, PartialEq, Eq)]
pub struct Function {
    pub params: Vec<Param>,
    pub body: Vec<Stmt>,
    pub is_async: bool,
    pub is_generator: bool,
}

/// The body of an arrow function.
#[derive(Debug, PartialEq, Eq)]
pub enum ArrowBody {
    Block(Vec<Stmt>),
    Expr(Box<Expr>),
}

/// An arrow function.
#[derive(Debug, PartialEq, Eq)]
pub struct Arrow {
    pub params: Vec<Pat>,
    pub body: ArrowBody,
    pub is_async: bool,
    pub is_generator: bool,
}

/// A statement or declaration.
#[derive(Debug, PartialEq, Eq)]
pub enum Stmt {
    Expr(Expr),
    Return(Option<Expr>),
    /// `const name = init;`, a single declarator; `typed` tells whether the
    /// name has a type annotation.
    Const { name: String, typed: bool, declare: bool, init: Expr },
    FnDecl { ident: String, declare: bool, function: Function },
    Block(Vec<Stmt>),
}

/// The name that replaces `arguments`.
pub const ARGUMENTS_REPLACEMENT: &'static str = "__minifier_arguments";

/// An identifier after the rename of `arguments`.
pub open spec fn renamed_ident(n: Seq<char>) -> Seq<char> {
    if n == "arguments"@ {
        ARGUMENTS_REPLACEMENT@
    } else {
        n
    }
}

/// `b` is `a` with `arguments` renamed in its scope: every identifier of
/// `a` is renamed, but those inside a nested function, which is left as it
/// is.
pub open spec fn expr_renamed(a: Expr, b: Expr) -> bool
    decreases a,
{
    match a {
        Expr::Ident(n) => match b {
            Expr::Ident(m) => m@ == renamed_ident(n@),
            _ => false,
        },
        Expr::Call { callee, args, type_args } => match b {
            Expr::Call { callee: c, args: g, type_args: t } => {
                &&& t == type_args
                &&& expr_renamed(*callee, *c)
                &&& g@.len() == args@.len()
                &&& forall|i: int| 0 <= i < args@.len() ==> expr_renamed(args@[i], #[trigger] g@[i])
            },
            _ => false,
        },
        Expr::Spread(e) => match b {
            Expr::Spread(f) => expr_renamed(*e, *f),
            _ => false,
        },
        Expr::Fn { .. } => b == a,
        Expr::Arrow(ar) => match b {
            Expr::Arrow(br) => {
                &&& br.is_async == ar.is_async
                &&& br.is_generator == ar.is_generator
                &&& pats_renamed(ar.params@, br.params@)
                &&& match (ar.body, br.body) {
                    (ArrowBody::Block(s), ArrowBody::Block(t)) => t@.len() == s@.len() && forall|i: int|
                        0 <= i < s@.len() ==> stmt_renamed(s@[i], #[trigger] t@[i]),
                    (ArrowBody::Expr(e), ArrowBody::Expr(f)) => expr_renamed(*e, *f),
                    _ => false,
                }
            },
            _ => false,
        },
        Expr::Op { op, operands } => match b {
            Expr::Op { op: o, operands: p } => o == op && p@.len() == operands@.len() && forall|i: int|
                0 <= i < operands@.len() ==> expr_renamed(operands@[i], #[trigger] p@[i]),
            _ => false,
        },
    }
}

/// `b` is the pattern `a` with `arguments` renamed.
pub open spec fn pat_renamed(a: Pat, b: Pat) -> bool {
    match (a, b) {
        (Pat::Ident(n), Pat::Ident(m)) => m@ == renamed_ident(n@),
        (Pat::Rest(n), Pat::Rest(m)) => m@ == renamed_ident(n@),
        _ => false,
    }
}

/// `b` is the patterns `a` with `arguments` renamed.
pub open spec fn pats_renamed(a: Seq<Pat>, b: Seq<Pat>) -> bool {
    b.len() == a.len() && forall|i: int| 0 <= i < a.len() ==> pat_renamed(a[i], #[trigger] b[i])
}

/// `b` is the statement `a` with `arguments` renamed in its scope.
pub open spec fn stmt_renamed(a: Stmt, b: Stmt) -> bool
    decreases a,
{
    match a {
        Stmt::Expr(e) => match b {
            Stmt::Expr(f) => expr_renamed(e, f),
            _ => false,
        },
        Stmt::Return(e) => match b {
            Stmt::Return(f) => match (e, f) {
                (Some(x), Some(y)) => expr_renamed(x, y),
                (None, None) => true,
                _ => false,
            },
            _ => false,
        },
        Stmt::Const { name, typed, declare, init } => match b {
            Stmt::Const { name: n, typed: t, declare: d, init: i } => n@ == renamed_ident(name@) && t
                == typed && d == declare && expr_renamed(init, i),
            _ => false,
        },
        Stmt::FnDecl { .. } => b == a,
        Stmt::Block(s) => match b {
            Stmt::Block(t) => t@.len() == s@.len() && forall|i: int|
                0 <= i < s@.len() ==> stmt_renamed(s@[i], #[trigger] t@[i]),
            _ => false,
        },
    }
}


/// The scope of `a` uses `arguments`: some identifier of `a` outside the
/// nested functions is `arguments`.
pub open spec fn expr_mentions(a: Expr) -> bool
    decreases a,
{
    match a {
        Expr::Ident(n) => n@ == "arguments"@,
        Expr::Call { callee, args, .. } => expr_mentions(*callee) || exists|i: int|
            0 <= i < args@.len() && expr_mentions(#[trigger] args@[i]),
        Expr::Spread(e) => expr_mentions(*e),
        Expr::Fn { .. } => false,
        Expr::Arrow(ar) => (exists|i: int|
            0 <= i < ar.params@.len() && pat_mentions(#[trigger] ar.params@[i])) || match ar.body {
            ArrowBody::Block(s) => exists|i: int| 0 <= i < s@.len() && stmt_mentions(#[trigger] s@[i]),
            ArrowBody::Expr(e) => expr_mentions(*e),
        },
        Expr::Op { operands, .. } => exists|i: int|
            0 <= i < operands@.len() && expr_mentions(#[trigger] operands@[i]),
    }
}

/// The pattern `a` binds `arguments`.
pub open spec fn pat_mentions(a: Pat) -> bool {
    match a {
        Pat::Ident(n) => n@ == "arguments"@,
        Pat::Rest(n) => n@ == "arguments"@,
    }
}

/// The scope of the statement `a` uses `arguments`.
pub open spec fn stmt_mentions(a: Stmt) -> bool
    decreases a,
{
    match a {
        Stmt::Expr(e) => expr_mentions(e),
        Stmt::Return(e) => match e {
            Some(x) => expr_mentions(x),
            None => false,
        },
        Stmt::Const { name, init, .. } => name@ == "arguments"@ || expr_mentions(init),
        Stmt::FnDecl { .. } => false,
        Stmt::Block(s) => exists|i: int| 0 <= i < s@.len() && stmt_mentions(#[trigger] s@[i]),
    }
}

/// Renames an identifier; tells whether it was `arguments`.
fn rename_name(n: String) -> (r: (String, bool))
    ensures
        r.0@ == renamed_ident(n@),
        r.1 == (n@ == "arguments"@),
{
    if n == "arguments".to_owned() {
        (ARGUMENTS_REPLACEMENT.to_owned(), true)
    } else {
        (n, false)
    }
}

/// Renames a pattern.
fn rename_pat(p: Pat) -> (r: (Pat, bool))
    ensures
        pat_renamed(p, r.0),
        r.1 == pat_mentions(p),
{
    match p {
        Pat::Ident(n) => {
            let (m, b) = rename_name(n);
            (Pat::Ident(m), b)
        },
        Pat::Rest(n) => {
            let (m, b) = rename_name(n);
            (Pat::Rest(m), b)
        },
    }
}

/// Renames `arguments` in a list of expressions.
#[verifier::loop_isolation(false)]
fn rename_exprs(v: Vec<Expr>) -> (r: (Vec<Expr>, bool))
    ensures
        r.0@.len() == v@.len(),
        forall|i: int| 0 <= i < v@.len() ==> expr_renamed(v@[i], #[trigger] r.0@[i]),
        r.1 == exists|i: int| 0 <= i < v@.len() && expr_mentions(#[trigger] v@[i]),
    decreases v,
{
    let ghost orig = v;
    let mut rest = v;
    let mut out: Vec<Expr> = Vec::new();
    let mut found = false;
    let mut i: usize = 0;
    let n = rest.len();
    while rest.len() > 0
        invariant
            n == orig@.len(),
            i <= orig@.len(),
            rest@ == orig@.subrange(i as int, orig@.len() as int),
            out@.len() == i,
            forall|j: int| 0 <= j < i ==> expr_renamed(orig@[j], #[trigger] out@[j]),
            found == exists|j: int| 0 <= j < i && expr_mentions(#[trigger] orig@[j]),
        decreases rest@.len(),
    {
        let x = rest.remove(0);
        assert(x == orig@[i as int]);
        proof {
            assert(decreases_to!(orig => orig@));
            assert(decreases_to!(orig => orig@[i as int]));
            assert(decreases_to!(orig => x));
        }
        let (y, m) = rename_expr(x);
        out.push(y);
        found = found || m;
        proof {
            assert(rest@ =~= orig@.subrange(i + 1, orig@.len() as int));
            if m {
                assert(expr_mentions(orig@[i as int]));
            }
        }
        i = i + 1;
    }
    (out, found)
}

/// Renames `arguments` in the scope of an expression; tells whether it
/// was used.
pub fn rename_expr(e: Expr) -> (r: (Expr, bool))
    ensures
        expr_renamed(e, r.0),
        r.1 == expr_mentions(e),
    decreases e,
{
    match e {
        Expr::Ident(n) => {
            let (m, b) = rename_name(n);
            (Expr::Ident(m), b)
        },
        Expr::Call { callee, args, type_args } => {
            let (c, b1) = rename_expr(*callee);
            let (g, b2) = rename_exprs(args);
            (Expr::Call { callee: Box::new(c), args: g, type_args }, b1 || b2)
        },
        Expr::Spread(x) => {
            let (y, b) = rename_expr(*x);
            (Expr::Spread(Box::new(y)), b)
        },
        Expr::Fn { ident, function } => (Expr::Fn { ident, function }, false),
        Expr::Arrow(ar) => {
            let ar = *ar;
            let (params, b1) = rename_pats(ar.params);
            let (body, b2) = match ar.body {
                ArrowBody::Block(s) => {
                    let (t, b) = rename_stmts(s);
                    (ArrowBody::Block(t), b)
                },
                ArrowBody::Expr(x) => {
                    let (y, b) = rename_expr(*x);
                    (ArrowBody::Expr(Box::new(y)), b)
                },
            };
            (
                Expr::Arrow(
                    Box::new(
                        Arrow { params, body, is_async: ar.is_async, is_generator: ar.is_generator },
                    ),
                ),
                b1 || b2,
            )
        },
        Expr::Op { op, operands } => {
            let (p, b) = rename_exprs(operands);
            (Expr::Op { op, operands: p }, b)
        },
    }
}

/// Renames `arguments` in a list of patterns.
fn rename_pats(v: Vec<Pat>) -> (r: (Vec<Pat>, bool))
    ensures
        pats_renamed(v@, r.0@),
        r.1 == exists|i: int| 0 <= i < v@.len() && pat_mentions(#[trigger] v@[i]),
{
    let ghost orig = v;
    let mut rest = v;
    let mut out: Vec<Pat> = Vec::new();
    let mut found = false;
    let mut i: usize = 0;
    let n = rest.len();
    while rest.len() > 0
        invariant
            n == orig@.len(),
            i <= orig@.len(),
            rest@ == orig@.subrange(i as int, orig@.len() as int),
            out@.len() == i,
            forall|j: int| 0 <= j < i ==> pat_renamed(orig@[j], #[trigger] out@[j]),
            found == exists|j: int| 0 <= j < i && pat_mentions(#[trigger] orig@[j]),
        decreases rest@.len(),
    {
        let x = rest.remove(0);
        assert(x == orig@[i as int]);
        let (y, m) = rename_pat(x);
        out.push(y);
        found = found || m;
        proof {
            assert(rest@ =~= orig@.subrange(i + 1, orig@.len() as int));
            if m {
                assert(pat_mentions(orig@[i as int]));
            }
        }
        i = i + 1;
    }
    (out, found)
}

/// Renames `arguments` in the scope of a list of statements; tells whether
/// it was used. Nested functions are left as they are.
#[verifier::loop_isolation(false)]
pub fn rename_stmts(v: Vec<Stmt>) -> (r: (Vec<Stmt>, bool))
    ensures
        r.0@.len() == v@.len(),
        forall|i: int| 0 <= i < v@.len() ==> stmt_renamed(v@[i], #[trigger] r.0@[i]),
        r.1 == exists|i: int| 0 <= i < v@.len() && stmt_mentions(#[trigger] v@[i]),
    decreases v,
{
    let ghost orig = v;
    let mut rest = v;
    let mut out: Vec<Stmt> = Vec::new();
    let mut found = false;
    let mut i: usize = 0;
    let n = rest.len();
    while rest.len() > 0
        invariant
            n == orig@.len(),
            i <= orig@.len(),
            rest@ == orig@.subrange(i as int, orig@.len() as int),
            out@.len() == i,
            forall|j: int| 0 <= j < i ==> stmt_renamed(orig@[j], #[trigger] out@[j]),
            found == exists|j: int| 0 <= j < i && stmt_mentions(#[trigger] orig@[j]),
        decreases rest@.len(),
    {
        let x = rest.remove(0);
        assert(x == orig@[i as int]);
        proof {
            assert(decreases_to!(orig => orig@));
            assert(decreases_to!(orig => orig@[i as int]));
            assert(decreases_to!(orig => x));
        }
        let (y, m) = rename_stmt(x);
        out.push(y);
        found = found || m;
        proof {
            assert(rest@ =~= orig@.subrange(i + 1, orig@.len() as int));
            if m {
                assert(stmt_mentions(orig@[i as int]));
            }
        }
        i = i + 1;
    }
    (out, found)
}

/// Renames `arguments` in the scope of a statement.
fn rename_stmt(s: Stmt) -> (r: (Stmt, bool))
    ensures
        stmt_renamed(s, r.0),
        r.1 == stmt_mentions(s),
    decreases s,
{
    match s {
        Stmt::Expr(e) => {
            let (f, b) = rename_expr(e);
            (Stmt::Expr(f), b)
        },
        Stmt::Return(e) => match e {
            Some(x) => {
                let (y, b) = rename_expr(x);
                (Stmt::Return(Some(y)), b)
            },
            None => (Stmt::Return(None), false),
        },
        Stmt::Const { name, typed, declare, init } => {
            let (n, b1) = rename_name(name);
            let (i, b2) = rename_expr(init);
            (Stmt::Const { name: n, typed, declare, init: i }, b1 || b2)
        },
        Stmt::FnDecl { ident, declare, function } => (Stmt::FnDecl { ident, declare, function }, false),
        Stmt::Block(v) => {
            let (t, b) = rename_stmts(v);
            (Stmt::Block(t), b)
        },
    }
}


/// Renaming `arguments` leaves each nested function as it was: a nested
/// function has an `arguments` of its own.
pub proof fn lemma_rename_stops_at_functions(a: Stmt, b: Stmt)
    requires
        stmt_renamed(a, b),
    ensures
        a is FnDecl ==> b == a,
        a matches Stmt::Expr(e) && e is Fn ==> b == a,
        a matches Stmt::Return(Some(e)) && e is Fn ==> b == a,
        a is Const && a->Const_init is Fn ==> b is Const && b->Const_init == a->Const_init,
{
    match a {
        Stmt::Expr(e) => {
            if e is Fn {
                assert(expr_renamed(e, b->Expr_0));
            }
        },
        Stmt::Return(Some(e)) => {
            if e is Fn {
                assert(expr_renamed(e, b->Return_0->Some_0));
            }
        },
        Stmt::Const { init, .. } => {
            if init is Fn {
                assert(expr_renamed(init, b->Const_init));
            }
        },
        _ => {},
    }
}

/// Why a function cannot become an arrow function.
#[derive(Clone, Copy, Debug, PartialEq, Eq, Structural)]
pub enum TransformError {
    /// A parameter carries a decorator, which an arrow function cannot.
    DecoratedParam,
    /// The function uses `arguments` and has parameters of its own.
    ArgumentsWithParams,
}

/// Some statement of `body` uses `arguments` in its scope.
pub open spec fn body_mentions(body: Seq<Stmt>) -> bool {
    exists|i: int| 0 <= i < body.len() && stmt_mentions(#[trigger] body[i])
}

/// `t` is `body` with `arguments` renamed.
pub open spec fn stmts_renamed(body: Seq<Stmt>, t: Seq<Stmt>) -> bool {
    t.len() == body.len() && forall|i: int| 0 <= i < body.len() ==> stmt_renamed(body[i], #[trigger] t[i])
}

/// Some parameter of `params` carries a decorator.
pub open spec fn any_decorated(params: Seq<Param>) -> bool {
    exists|i: int| 0 <= i < params.len() && (#[trigger] params[i]).decorated
}

/// The call that `t` returns, when `t` is `const x = init; return f(x);`
/// with a plain name, a call of that one argument and no type arguments.
pub open spec fn fold_parts(t: Seq<Stmt>) -> Option<(Expr, Box<Expr>)> {
    if t.len() != 2 {
        None
    } else {
        match (t[0], t[1]) {
            (
                Stmt::Const { name, typed, declare, init },
                Stmt::Return(Some(Expr::Call { callee, args, type_args })),
            ) => if !typed && !declare && !type_args && args@.len() == 1 && (match args@[0] {
                Expr::Ident(x) => x@ == name@,
                _ => false,
            }) {
                Some((init, callee))
            } else {
                None
            },
            _ => None,
        }
    }
}

/// The body `t` has the shape that folds.
pub open spec fn foldable(t: Seq<Stmt>) -> bool {
    fold_parts(t) is Some
}

/// `e` is the body `t` folded: `const x = init; return f(x);` becomes
/// `f(init)`.
pub open spec fn folds_to(t: Seq<Stmt>, e: Expr) -> bool {
    match fold_parts(t) {
        Some((init, callee)) => match e {
            Expr::Call { callee: c, args: a, type_args: ta } => !ta && c == callee && a@ == seq![init],
            _ => false,
        },
        None => false,
    }
}

/// The patterns of the parameters `params`.
pub open spec fn param_pats(params: Seq<Param>) -> Seq<Pat> {
    params.map_values(|p: Param| p.pat)
}

/// `ar` is the arrow form of the function `g`, where `uses` tells whether
/// `g` uses `arguments`: `arguments` renamed in the body and, where it was
/// used, a rest parameter in place of the parameters; the body folded where
/// it has the shape for it; the flags kept.
pub open spec fn arrow_built(g: Function, uses: bool, ar: Arrow) -> bool {
    &&& ar.is_async == g.is_async
    &&& ar.is_generator == g.is_generator
    &&& if uses {
        ar.params@.len() == 1 && ar.params@[0] is Rest && ar.params@[0]->Rest_0@ == ARGUMENTS_REPLACEMENT@
    } else {
        ar.params@ == param_pats(g.params@)
    }
    &&& match ar.body {
        ArrowBody::Block(t) => stmts_renamed(g.body@, t@) && !foldable(t@),
        ArrowBody::Expr(e) => exists|t: Seq<Stmt>| stmts_renamed(g.body@, t) && folds_to(t, *e),
    }
}

/// `ar` is the arrow form of the function `f`.
pub open spec fn arrow_of(f: Function, ar: Arrow) -> bool {
    arrow_built(f, body_mentions(f.body@), ar)
}

/// A function cannot become an arrow function: it uses `arguments` and has
/// parameters, or a parameter carries a decorator.
pub open spec fn conversion_fails(f: Function) -> bool {
    (body_mentions(f.body@) && f.params@.len() > 0) || any_decorated(f.params@)
}

/// Whether a parameter of `params` carries a decorator.
fn has_decorated(params: &Vec<Param>) -> (r: bool)
    ensures
        r == any_decorated(params@),
{
    let mut i: usize = 0;
    while i < params.len()
        invariant
            i <= params@.len(),
            forall|j: int| 0 <= j < i ==> !(#[trigger] params@[j]).decorated,
        decreases params@.len() - i,
    {
        if params[i].decorated {
            return true;
        }
        i = i + 1;
    }
    false
}

/// The patterns of `params`, in order.
fn take_pats(params: Vec<Param>) -> (r: Vec<Pat>)
    ensures
        r@ == param_pats(params@),
{
    let ghost orig = params@;
    let mut rest = params;
    let mut out: Vec<Pat> = Vec::new();
    let mut i: usize = 0;
    let n = rest.len();
    while rest.len() > 0
        invariant
            n == orig.len(),
            i <= orig.len(),
            rest@ == orig.subrange(i as int, orig.len() as int),
            out@ == param_pats(orig.subrange(0, i as int)),
        decreases rest@.len(),
    {
        let p = rest.remove(0);
        out.push(p.pat);
        proof {
            assert(rest@ =~= orig.subrange(i + 1, orig.len() as int));
            assert(out@ =~= param_pats(orig.subrange(0, i + 1)));
        }
        i = i + 1;
    }
    assert(orig.subrange(0, n as int) =~= orig);
    out
}

/// Folds the body `t` if it has the shape for it.
fn fold_body(t: Vec<Stmt>) -> (r: ArrowBody)
    ensures
        foldable(t@) ==> r is Expr && folds_to(t@, *r->Expr_0),
        !foldable(t@) ==> r is Block && r->Block_0@ == t@,
{
    if t.len() != 2 {
        return ArrowBody::Block(t);
    }
    let shape = match (&t[0], &t[1]) {
        (Stmt::Const { name, typed, declare, .. }, Stmt::Return(Some(Expr::Call { args, type_args, .. }))) => {
            !*typed && !*declare && !*type_args && args.len() == 1 && match &args[0] {
                Expr::Ident(x) => *x == *name,
                _ => false,
            }
        },
        _ => false,
    };
    if !shape {
        return ArrowBody::Block(t);
    }
    let ghost orig = t@;
    let mut t = t;
    let ret = t.remove(1);
    let decl = t.remove(0);
    match (decl, ret) {
        (Stmt::Const { init, .. }, Stmt::Return(Some(Expr::Call { callee, args, type_args }))) => {
            let mut a: Vec<Expr> = Vec::new();
            a.push(init);
            let e = Expr::Call { callee, args: a, type_args };
            assert(a@ =~= seq![fold_parts(orig)->Some_0.0]);
            ArrowBody::Expr(Box::new(e))
        },
        _ => {
            proof {
                assert(false);
            }
            ArrowBody::Block(Vec::new())
        },
    }
}

/// The arrow form of the function `g`, given whether the function it came
/// from uses `arguments`. It fails when that function uses `arguments` and
/// has parameters, and else when a parameter carries a decorator.
fn convert(g: Function, uses: bool) -> (r: Result<Arrow, TransformError>)
    ensures
        r == Err::<Arrow, TransformError>(TransformError::ArgumentsWithParams) <==> uses
            && g.params@.len() > 0,
        r == Err::<Arrow, TransformError>(TransformError::DecoratedParam) <==> !(uses
            && g.params@.len() > 0) && any_decorated(g.params@),
        r is Ok ==> arrow_built(g, uses, r->Ok_0),
{
    let ghost g0 = g;
    let Function { params, body, is_async, is_generator } = g;
    if uses && params.len() > 0 {
        return Err(TransformError::ArgumentsWithParams);
    }
    if has_decorated(&params) {
        return Err(TransformError::DecoratedParam);
    }
    let (body, _) = rename_stmts(body);
    let params = if uses {
        let mut p: Vec<Pat> = Vec::new();
        p.push(Pat::Rest(ARGUMENTS_REPLACEMENT.to_owned()));
        p
    } else {
        take_pats(params)
    };
    let ghost t = body@;
    let body = fold_body(body);
    let ar = Arrow { params, body, is_async, is_generator };
    proof {
        if ar.body is Expr {
            assert(stmts_renamed(g0.body@, t) && folds_to(t, *ar.body->Expr_0));
        }
    }
    Ok(ar)
}

/// The arrow form of the function `f`. It fails when `f` uses `arguments`
/// and has parameters, and else when a parameter carries a decorator.
pub fn map_function(f: Function) -> (r: Result<Arrow, TransformError>)
    ensures
        r == Err::<Arrow, TransformError>(TransformError::ArgumentsWithParams) <==> body_mentions(
            f.body@,
        ) && f.params@.len() > 0,
        r == Err::<Arrow, TransformError>(TransformError::DecoratedParam) <==> !(body_mentions(
            f.body@,
        ) && f.params@.len() > 0) && any_decorated(f.params@),
        r is Ok ==> arrow_of(f, r->Ok_0),
{
    let uses = stmts_use_arguments(&f.body);
    convert(f, uses)
}

/// Whether some expression of `v` uses `arguments` in its scope.
#[verifier::loop_isolation(false)]
fn exprs_use_arguments(v: &Vec<Expr>) -> (r: bool)
    ensures
        r == exists|i: int| 0 <= i < v@.len() && expr_mentions(#[trigger] v@[i]),
    decreases v,
{
    let mut i: usize = 0;
    while i < v.len()
        invariant
            i <= v@.len(),
            forall|j: int| 0 <= j < i ==> !expr_mentions(#[trigger] v@[j]),
        decreases v@.len() - i,
    {
        proof {
            assert(decreases_to!(v => v@));
            assert(decreases_to!(v => v@[i as int]));
        }
        if expr_uses_arguments(&v[i]) {
            return true;
        }
        i = i + 1;
    }
    false
}

/// Whether the scope of `e` uses `arguments`.
fn expr_uses_arguments(e: &Expr) -> (r: bool)
    ensures
        r == expr_mentions(*e),
    decreases e,
{
    match e {
        Expr::Ident(n) => *n == "arguments".to_owned(),
        Expr::Call { callee, args, .. } => expr_uses_arguments(callee) || exprs_use_arguments(args),
        Expr::Spread(x) => expr_uses_arguments(x),
        Expr::Fn { .. } => false,
        Expr::Arrow(ar) => {
            let mut found = false;
            let mut i: usize = 0;
            while i < ar.params.len()
                invariant
                    i <= ar.params@.len(),
                    found == exists|j: int| 0 <= j < i && pat_mentions(#[trigger] ar.params@[j]),
                decreases ar.params@.len() - i,
            {
                let m = match &ar.params[i] {
                    Pat::Ident(n) => *n == "arguments".to_owned(),
                    Pat::Rest(n) => *n == "arguments".to_owned(),
                };
                proof {
                    if m {
                        assert(pat_mentions(ar.params@[i as int]));
                    }
                }
                found = found || m;
                i = i + 1;
            }
            found || match &ar.body {
                ArrowBody::Block(s) => stmts_use_arguments(s),
                ArrowBody::Expr(x) => expr_uses_arguments(x),
            }
        },
        Expr::Op { operands, .. } => exprs_use_arguments(operands),
    }
}

/// Whether some statement of `v` uses `arguments` in its scope.
#[verifier::loop_isolation(false)]
fn stmts_use_arguments(v: &Vec<Stmt>) -> (r: bool)
    ensures
        r == body_mentions(v@),
    decreases v,
{
    let mut i: usize = 0;
    while i < v.len()
        invariant
            i <= v@.len(),
            forall|j: int| 0 <= j < i ==> !stmt_mentions(#[trigger] v@[j]),
        decreases v@.len() - i,
    {
        proof {
            assert(decreases_to!(v => v@));
            assert(decreases_to!(v => v@[i as int]));
        }
        if stmt_uses_arguments(&v[i]) {
            return true;
        }
        i = i + 1;
    }
    false
}

/// Whether the scope of the statement `s` uses `arguments`.
fn stmt_uses_arguments(s: &Stmt) -> (r: bool)
    ensures
        r == stmt_mentions(*s),
    decreases s,
{
    match s {
        Stmt::Expr(e) => expr_uses_arguments(e),
        Stmt::Return(e) => match e {
            Some(x) => expr_uses_arguments(x),
            None => false,
        },
        Stmt::Const { name, init, .. } => *name == "arguments".to_owned() || expr_uses_arguments(init),
        Stmt::FnDecl { .. } => false,
        Stmt::Block(v) => stmts_use_arguments(v),
    }
}

/// Nothing is left to rewrite anywhere in `a`: no function expression
/// without a name, no function declaration, no arrow body that folds.
pub open spec fn expr_converted(a: Expr) -> bool
    decreases a,
{
    match a {
        Expr::Ident(_) => true,
        Expr::Call { callee, args, .. } => expr_converted(*callee) && forall|i: int|
            0 <= i < args@.len() ==> expr_converted(#[trigger] args@[i]),
        Expr::Spread(e) => expr_converted(*e),
        Expr::Fn { ident, function } => ident is Some && forall|i: int|
            0 <= i < function.body@.len() ==> stmt_converted(#[trigger] function.body@[i]),
        Expr::Arrow(ar) => match ar.body {
            ArrowBody::Block(s) => (forall|i: int| 0 <= i < s@.len() ==> stmt_converted(#[trigger] s@[i]))
                && !foldable(s@),
            ArrowBody::Expr(e) => expr_converted(*e),
        },
        Expr::Op { operands, .. } => forall|i: int|
            0 <= i < operands@.len() ==> expr_converted(#[trigger] operands@[i]),
    }
}

/// Nothing is left to rewrite anywhere in the statement `a`.
pub open spec fn stmt_converted(a: Stmt) -> bool
    decreases a,
{
    match a {
        Stmt::Expr(e) => expr_converted(e),
        Stmt::Return(e) => match e {
            Some(x) => expr_converted(x),
            None => true,
        },
        Stmt::Const { init, .. } => expr_converted(init),
        Stmt::FnDecl { .. } => false,
        Stmt::Block(s) => forall|i: int| 0 <= i < s@.len() ==> stmt_converted(#[trigger] s@[i]),
    }
}

/// The statements `v` are all converted.
pub open spec fn stmts_converted(v: Seq<Stmt>) -> bool {
    forall|i: int| 0 <= i < v.len() ==> stmt_converted(#[trigger] v[i])
}

/// `a` and `b` are the same tree.
pub open spec fn expr_same(a: Expr, b: Expr) -> bool
    decreases a,
{
    match a {
        Expr::Ident(n) => b is Ident && b->Ident_0@ == n@,
        Expr::Call { callee, args, type_args } => match b {
            Expr::Call { callee: c, args: g, type_args: t } => t == type_args && expr_same(*callee, *c)
                && g@.len() == args@.len() && forall|i: int|
                0 <= i < args@.len() ==> expr_same(args@[i], #[trigger] g@[i]),
            _ => false,
        },
        Expr::Spread(e) => b is Spread && expr_same(*e, *b->Spread_0),
        Expr::Fn { ident, function } => match b {
            Expr::Fn { ident: j, function: g } => j == ident && g.params == function.params
                && g.is_async == function.is_async && g.is_generator == function.is_generator
                && g.body@.len() == function.body@.len() && forall|i: int|
                0 <= i < function.body@.len() ==> stmt_same(function.body@[i], #[trigger] g.body@[i]),
            _ => false,
        },
        Expr::Arrow(ar) => match b {
            Expr::Arrow(br) => br.params == ar.params && br.is_async == ar.is_async && br.is_generator
                == ar.is_generator && match (ar.body, br.body) {
                (ArrowBody::Block(s), ArrowBody::Block(t)) => t@.len() == s@.len() && forall|i: int|
                    0 <= i < s@.len() ==> stmt_same(s@[i], #[trigger] t@[i]),
                (ArrowBody::Expr(e), ArrowBody::Expr(f)) => expr_same(*e, *f),
                _ => false,
            },
            _ => false,
        },
        Expr::Op { op, operands } => match b {
            Expr::Op { op: o, operands: p } => o == op && p@.len() == operands@.len() && forall|i: int|
                0 <= i < operands@.len() ==> expr_same(operands@[i], #[trigger] p@[i]),
            _ => false,
        },
    }
}

/// `a` and `b` are the same statement.
pub open spec fn stmt_same(a: Stmt, b: Stmt) -> bool
    decreases a,
{
    match a {
        Stmt::Expr(e) => b is Expr && expr_same(e, b->Expr_0),
        Stmt::Return(e) => match (e, b) {
            (Some(x), Stmt::Return(Some(y))) => expr_same(x, y),
            (None, Stmt::Return(None)) => true,
            _ => false,
        },
        Stmt::Const { name, typed, declare, init } => match b {
            Stmt::Const { name: n, typed: t, declare: d, init: i } => n@ == name@ && t == typed && d
                == declare && expr_same(init, i),
            _ => false,
        },
        Stmt::FnDecl { .. } => false,
        Stmt::Block(s) => match b {
            Stmt::Block(t) => t@.len() == s@.len() && forall|i: int|
                0 <= i < s@.len() ==> stmt_same(s@[i], #[trigger] t@[i]),
            _ => false,
        },
    }
}

proof fn lemma_same_foldable(s: Seq<Stmt>, t: Seq<Stmt>)
    requires
        t.len() == s.len(),
        forall|i: int| 0 <= i < s.len() ==> stmt_same(s[i], #[trigger] t[i]),
    ensures
        foldable(t) == foldable(s),
{
    if s.len() == 2 {
        assert(stmt_same(s[0], t[0]));
        assert(stmt_same(s[1], t[1]));
        match (s[0], s[1]) {
            (Stmt::Const { .. }, Stmt::Return(Some(x))) => {
                let y = t[1]->Return_0->Some_0;
                assert(expr_same(x, y));
                if let Expr::Call { callee, args, type_args } = x {
                    let g = y->Call_args;
                    assert(g@.len() == args@.len());
                    if args@.len() == 1 {
                        assert(expr_same(args@[0], g@[0]));
                    }
                }
            },
            _ => {},
        }
    }
}

/// Some function in `a`, at any depth, cannot become an arrow function
/// (see `conversion_fails`); named function expressions are not converted,
/// but their bodies are looked into.
pub open spec fn expr_fails(a: Expr) -> bool
    decreases a,
{
    match a {
        Expr::Ident(_) => false,
        Expr::Call { callee, args, .. } => expr_fails(*callee) || exists|i: int|
            0 <= i < args@.len() && expr_fails(#[trigger] args@[i]),
        Expr::Spread(e) => expr_fails(*e),
        Expr::Fn { ident, function } => (exists|i: int|
            0 <= i < function.body@.len() && stmt_fails(#[trigger] function.body@[i])) || (ident is None
            && conversion_fails(*function)),
        Expr::Arrow(ar) => match ar.body {
            ArrowBody::Block(s) => exists|i: int| 0 <= i < s@.len() && stmt_fails(#[trigger] s@[i]),
            ArrowBody::Expr(e) => expr_fails(*e),
        },
        Expr::Op { operands, .. } => exists|i: int|
            0 <= i < operands@.len() && expr_fails(#[trigger] operands@[i]),
    }
}

/// Some function in the statement `a` cannot become an arrow function.
pub open spec fn stmt_fails(a: Stmt) -> bool
    decreases a,
{
    match a {
        Stmt::Expr(e) => expr_fails(e),
        Stmt::Return(e) => match e {
            Some(x) => expr_fails(x),
            None => false,
        },
        Stmt::Const { init, .. } => expr_fails(init),
        Stmt::FnDecl { function, .. } => (exists|i: int|
            0 <= i < function.body@.len() && stmt_fails(#[trigger] function.body@[i])) || conversion_fails(
            function,
        ),
        Stmt::Block(s) => exists|i: int| 0 <= i < s@.len() && stmt_fails(#[trigger] s@[i]),
    }
}

/// Some statement of `v` fails.
pub open spec fn stmts_fail(v: Seq<Stmt>) -> bool {
    exists|i: int| 0 <= i < v.len() && stmt_fails(#[trigger] v[i])
}

/// `g` is the function `f` with its body optimized.
pub open spec fn function_optimized(f: Function, g: Function) -> bool
    decreases f,
{
    &&& g.params == f.params
    &&& g.is_async == f.is_async
    &&& g.is_generator == f.is_generator
    &&& g.body@.len() == f.body@.len()
    &&& forall|i: int| 0 <= i < f.body@.len() ==> stmt_optimized(f.body@[i], #[trigger] g.body@[i])
}

/// `b` is the expression `a` optimized: an anonymous function expression
/// becomes the arrow form of itself with its body optimized; a named one
/// stays, with its body optimized; an arrow function has its body optimized
/// and then folded where it has the shape for it; everything else keeps its
/// shape, with its parts optimized.
pub open spec fn expr_optimized(a: Expr, b: Expr) -> bool
    decreases a,
{
    match a {
        Expr::Ident(n) => b is Ident && b->Ident_0@ == n@,
        Expr::Call { callee, args, type_args } => match b {
            Expr::Call { callee: c, args: g, type_args: t } => t == type_args && expr_optimized(
                *callee,
                *c,
            ) && g@.len() == args@.len() && forall|i: int|
                0 <= i < args@.len() ==> expr_optimized(args@[i], #[trigger] g@[i]),
            _ => false,
        },
        Expr::Spread(e) => b is Spread && expr_optimized(*e, *b->Spread_0),
        Expr::Fn { ident, function } => match ident {
            Some(n) => match b {
                Expr::Fn { ident: j, function: g } => j is Some && j->Some_0@ == n@ && function_optimized(
                    *function,
                    *g,
                ),
                _ => false,
            },
            None => match b {
                Expr::Arrow(ar) => exists|g: Function|
                    #![trigger arrow_built(g, body_mentions(function.body@), *ar)]
                    function_optimized(*function, g) && arrow_built(
                        g,
                        body_mentions(function.body@),
                        *ar,
                    ),
                _ => false,
            },
        },
        Expr::Arrow(ar) => match b {
            Expr::Arrow(br) => br.params == ar.params && br.is_async == ar.is_async && br.is_generator
                == ar.is_generator && match ar.body {
                ArrowBody::Block(s) => exists|t: Seq<Stmt>|
                    #![trigger foldable(t)]
                    t.len() == s@.len() && (forall|i: int|
                        0 <= i < s@.len() ==> stmt_optimized(s@[i], #[trigger] t[i])) && if foldable(t) {
                        br.body is Expr && folds_to(t, *br.body->Expr_0)
                    } else {
                        br.body is Block && br.body->Block_0@ == t
                    },
                ArrowBody::Expr(e) => br.body is Expr && expr_optimized(*e, *br.body->Expr_0),
            },
            _ => false,
        },
        Expr::Op { op, operands } => match b {
            Expr::Op { op: o, operands: p } => o@ == op@ && p@.len() == operands@.len() && forall|i: int|
                0 <= i < operands@.len() ==> expr_optimized(operands@[i], #[trigger] p@[i]),
            _ => false,
        },
    }
}

/// `b` is the statement `a` optimized: a function declaration becomes a
/// constant of the same name bound to the arrow form of the function with
/// its body optimized; everything else keeps its shape, with its parts
/// optimized.
pub open spec fn stmt_optimized(a: Stmt, b: Stmt) -> bool
    decreases a,
{
    match a {
        Stmt::Expr(e) => b is Expr && expr_optimized(e, b->Expr_0),
        Stmt::Return(e) => match (e, b) {
            (Some(x), Stmt::Return(Some(y))) => expr_optimized(x, y),
            (None, Stmt::Return(None)) => true,
            _ => false,
        },
        Stmt::Const { name, typed, declare, init } => match b {
            Stmt::Const { name: n, typed: t, declare: d, init: i } => n@ == name@ && t == typed && d
                == declare && expr_optimized(init, i),
            _ => false,
        },
        Stmt::FnDecl { ident, declare, function } => match b {
            Stmt::Const { name: n, typed: t, declare: d, init: Expr::Arrow(ar) } => n@ == ident@ && !t && d
                == declare && exists|g: Function|
                #![trigger arrow_built(g, body_mentions(function.body@), *ar)]
                function_optimized(function, g) && arrow_built(g, body_mentions(function.body@), *ar),
            _ => false,
        },
        Stmt::Block(s) => match b {
            Stmt::Block(t) => t@.len() == s@.len() && forall|i: int|
                0 <= i < s@.len() ==> stmt_optimized(s@[i], #[trigger] t@[i]),
            _ => false,
        },
    }
}

/// `t` is the statements `s` optimized, one by one.
pub open spec fn stmts_optimized(s: Seq<Stmt>, t: Seq<Stmt>) -> bool {
    t.len() == s.len() && forall|i: int| 0 <= i < s.len() ==> stmt_optimized(s[i], #[trigger] t[i])
}

/// A name that renaming `arguments` neither changes nor produces.
pub open spec fn plain_name(n: Seq<char>) -> bool {
    n != "arguments"@ && n != ARGUMENTS_REPLACEMENT@
}

/// Every constant and every function declaration anywhere in `a` has a
/// plain name (see `plain_name`).
pub open spec fn expr_plain_names(a: Expr) -> bool
    decreases a,
{
    match a {
        Expr::Ident(_) => true,
        Expr::Call { callee, args, .. } => expr_plain_names(*callee) && forall|i: int|
            0 <= i < args@.len() ==> expr_plain_names(#[trigger] args@[i]),
        Expr::Spread(e) => expr_plain_names(*e),
        Expr::Fn { function, .. } => forall|i: int|
            0 <= i < function.body@.len() ==> stmt_plain_names(#[trigger] function.body@[i]),
        Expr::Arrow(ar) => match ar.body {
            ArrowBody::Block(s) => forall|i: int| 0 <= i < s@.len() ==> stmt_plain_names(#[trigger] s@[i]),
            ArrowBody::Expr(e) => expr_plain_names(*e),
        },
        Expr::Op { operands, .. } => forall|i: int|
            0 <= i < operands@.len() ==> expr_plain_names(#[trigger] operands@[i]),
    }
}

/// Every constant and every function declaration anywhere in the statement
/// `a` has a plain name.
pub open spec fn stmt_plain_names(a: Stmt) -> bool
    decreases a,
{
    match a {
        Stmt::Expr(e) => expr_plain_names(e),
        Stmt::Return(e) => match e {
            Some(x) => expr_plain_names(x),
            None => true,
        },
        Stmt::Const { name, init, .. } => plain_name(name@) && expr_plain_names(init),
        Stmt::FnDecl { ident, function, .. } => plain_name(ident@) && forall|i: int|
            0 <= i < function.body@.len() ==> stmt_plain_names(#[trigger] function.body@[i]),
        Stmt::Block(s) => forall|i: int| 0 <= i < s@.len() ==> stmt_plain_names(#[trigger] s@[i]),
    }
}

/// Every statement of `v` has plain names.
pub open spec fn stmts_plain_names(v: Seq<Stmt>) -> bool {
    forall|i: int| 0 <= i < v.len() ==> stmt_plain_names(#[trigger] v[i])
}

proof fn lemma_renamed_foldable(s: Seq<Stmt>, t: Seq<Stmt>)
    requires
        t.len() == s.len(),
        forall|i: int| 0 <= i < s.len() ==> stmt_renamed(s[i], #[trigger] t[i]),
        forall|i: int| 0 <= i < s.len() ==> stmt_plain_names(#[trigger] s[i]),
    ensures
        foldable(t) == foldable(s),
{
    if s.len() == 2 {
        assert(stmt_renamed(s[0], t[0]));
        assert(stmt_renamed(s[1], t[1]));
        assert(stmt_plain_names(s[0]));
        if let Stmt::Const { name, .. } = s[0] {
            if let Stmt::Return(Some(x)) = s[1] {
                let y = t[1]->Return_0->Some_0;
                assert(expr_renamed(x, y));
                if let Expr::Call { args, .. } = x {
                    let g = y->Call_args;
                    if args@.len() == 1 {
                        assert(expr_renamed(args@[0], g@[0]));
                        assert(t[0]->Const_name@ == name@);
                    }
                }
            }
        }
    }
}

proof fn lemma_fold_converted(t: Seq<Stmt>, e: Expr)
    requires
        stmts_converted(t),
        stmts_plain_names(t),
        folds_to(t, e),
    ensures
        expr_converted(e),
        expr_plain_names(e),
{
    assert(stmt_converted(t[0]) && stmt_plain_names(t[0]));
    assert(stmt_converted(t[1]) && stmt_plain_names(t[1]));
    let args = e->Call_args;
    assert(args@[0] == t[0]->Const_init);
    assert forall|i: int| 0 <= i < args@.len() implies expr_converted(#[trigger] args@[i])
        && expr_plain_names(args@[i]) by {}
    assert(expr_converted(t[1]->Return_0->Some_0));
    assert(expr_plain_names(t[1]->Return_0->Some_0));
    assert(expr_plain_names(*e->Call_callee));
}

/// The arrow form of a function whose body has nothing left to rewrite and
/// plain names has nothing left to rewrite and plain names.
proof fn lemma_arrow_converted(g: Function, uses: bool, ar: Arrow)
    requires
        arrow_built(g, uses, ar),
        stmts_converted(g.body@),
        stmts_plain_names(g.body@),
    ensures
        expr_converted(Expr::Arrow(Box::new(ar))),
        expr_plain_names(Expr::Arrow(Box::new(ar))),
{
    match ar.body {
        ArrowBody::Block(t) => {
            assert forall|i: int| 0 <= i < t@.len() implies stmt_converted(#[trigger] t@[i])
                && stmt_plain_names(t@[i]) by {
                lemma_renamed_converted_stmt(g.body@[i], t@[i]);
            }
            let b = Box::new(ar);
            assert(b.body == ar.body);
        },
        ArrowBody::Expr(e) => {
            let t = choose|t: Seq<Stmt>| stmts_renamed(g.body@, t) && folds_to(t, *e);
            assert forall|i: int| 0 <= i < t.len() implies stmt_converted(#[trigger] t[i])
                && stmt_plain_names(t[i]) by {
                lemma_renamed_converted_stmt(g.body@[i], t[i]);
            }
            lemma_fold_converted(t, *e);
        },
    }
}

proof fn lemma_renamed_converted_expr(a: Expr, b: Expr)
    requires
        expr_renamed(a, b),
        expr_converted(a),
        expr_plain_names(a),
    ensures
        expr_converted(b),
        expr_plain_names(b),
    decreases a,
{
    match a {
        Expr::Call { callee, args, .. } => {
            let g = b->Call_args;
            lemma_renamed_converted_expr(*callee, *b->Call_callee);
            assert forall|i: int| 0 <= i < g@.len() implies expr_converted(#[trigger] g@[i])
                && expr_plain_names(g@[i]) by {
                assert(decreases_to!(a => args@[i]));
                lemma_renamed_converted_expr(args@[i], g@[i]);
            }
        },
        Expr::Spread(e) => {
            lemma_renamed_converted_expr(*e, *b->Spread_0);
        },
        Expr::Arrow(ar) => {
            let br = b->Arrow_0;
            match (ar.body, br.body) {
                (ArrowBody::Block(s), ArrowBody::Block(t)) => {
                    assert forall|i: int| 0 <= i < t@.len() implies stmt_converted(#[trigger] t@[i])
                        && stmt_plain_names(t@[i]) by {
                        assert(decreases_to!(a => s@[i]));
                        lemma_renamed_converted_stmt(s@[i], t@[i]);
                    }
                    lemma_renamed_foldable(s@, t@);
                },
                (ArrowBody::Expr(e), ArrowBody::Expr(f)) => {
                    lemma_renamed_converted_expr(*e, *f);
                },
                _ => {},
            }
        },
        Expr::Op { operands, .. } => {
            let p = b->Op_operands;
            assert forall|i: int| 0 <= i < p@.len() implies expr_converted(#[trigger] p@[i])
                && expr_plain_names(p@[i]) by {
                assert(decreases_to!(a => operands@[i]));
                lemma_renamed_converted_expr(operands@[i], p@[i]);
            }
        },
        _ => {},
    }
}

proof fn lemma_renamed_converted_stmt(a: Stmt, b: Stmt)
    requires
        stmt_renamed(a, b),
        stmt_converted(a),
        stmt_plain_names(a),
    ensures
        stmt_converted(b),
        stmt_plain_names(b),
    decreases a,
{
    match a {
        Stmt::Expr(e) => {
            lemma_renamed_converted_expr(e, b->Expr_0);
        },
        Stmt::Return(Some(x)) => {
            lemma_renamed_converted_expr(x, b->Return_0->Some_0);
        },
        Stmt::Const { init, .. } => {
            lemma_renamed_converted_expr(init, b->Const_init);
        },
        Stmt::Block(s) => {
            let t = b->Block_0;
            assert forall|i: int| 0 <= i < t@.len() implies stmt_converted(#[trigger] t@[i])
                && stmt_plain_names(t@[i]) by {
                assert(decreases_to!(a => s@[i]));
                lemma_renamed_converted_stmt(s@[i], t@[i]);
            }
        },
        _ => {},
    }
}

/// Optimizes a list of expressions, in order.
#[verifier::loop_isolation(false)]
fn optimize_exprs(v: Vec<Expr>) -> (r: Result<Vec<Expr>, TransformError>)
    ensures
        r is Ok <==> !exists|i: int| 0 <= i < v@.len() && expr_fails(#[trigger] v@[i]),
        r is Ok ==> r->Ok_0@.len() == v@.len() && forall|i: int|
            0 <= i < v@.len() ==> expr_optimized(v@[i], #[trigger] r->Ok_0@[i]),
        r is Ok && (forall|i: int| 0 <= i < v@.len() ==> expr_plain_names(#[trigger] v@[i])) ==> forall|
            i: int,
        |
            0 <= i < v@.len() ==> expr_converted(#[trigger] r->Ok_0@[i]) && expr_plain_names(r->Ok_0@[i]),
        (forall|i: int| 0 <= i < v@.len() ==> expr_converted(#[trigger] v@[i])) ==> r is Ok && forall|i: int|
            0 <= i < v@.len() ==> expr_same(v@[i], #[trigger] r->Ok_0@[i]),
    decreases v,
{
    let ghost orig = v;
    let mut rest = v;
    let mut out: Vec<Expr> = Vec::new();
    let mut i: usize = 0;
    let n = rest.len();
    while rest.len() > 0
        invariant
            n == orig@.len(),
            i <= orig@.len(),
            rest@ == orig@.subrange(i as int, orig@.len() as int),
            out@.len() == i,
            forall|j: int| 0 <= j < i ==> !expr_fails(#[trigger] orig@[j]),
            forall|j: int| 0 <= j < i ==> expr_optimized(orig@[j], #[trigger] out@[j]),
            (forall|j: int| 0 <= j < orig@.len() ==> expr_plain_names(#[trigger] orig@[j])) ==> forall|
                j: int,
            |
                0 <= j < i ==> expr_converted(#[trigger] out@[j]) && expr_plain_names(out@[j]),
            (forall|j: int| 0 <= j < orig@.len() ==> expr_converted(#[trigger] orig@[j])) ==> forall|j: int|
                0 <= j < i ==> expr_same(orig@[j], #[trigger] out@[j]),
        decreases rest@.len(),
    {
        let x = rest.remove(0);
        assert(x == orig@[i as int]);
        proof {
            assert(decreases_to!(orig => orig@));
            assert(decreases_to!(orig => orig@[i as int]));
            assert(decreases_to!(orig => x));
        }
        let y = match FunctionToArrowFn::visit_mut_expr(x) {
            Ok(y) => y,
            Err(e) => {
                return Err(e);
            },
        };
        out.push(y);
        proof {
            assert(rest@ =~= orig@.subrange(i + 1, orig@.len() as int));
        }
        i = i + 1;
    }
    Ok(out)
}

/// Optimizes a list of statements, in order: each function expression
/// without a name becomes an arrow function and each function declaration
/// a constant bound to one, innermost first, and each arrow body that binds
/// a constant only to pass it to a call is folded. It fails exactly when
/// some function cannot become an arrow function. Statements with nothing
/// to rewrite come out the same.
#[verifier::loop_isolation(false)]
pub fn optimize_stmts(v: Vec<Stmt>) -> (r: Result<Vec<Stmt>, TransformError>)
    ensures
        r is Ok <==> !stmts_fail(v@),
        r is Ok ==> stmts_optimized(v@, r->Ok_0@),
        r is Ok && stmts_plain_names(v@) ==> stmts_converted(r->Ok_0@) && stmts_plain_names(r->Ok_0@),
        stmts_converted(v@) ==> r is Ok && forall|i: int|
            0 <= i < v@.len() ==> stmt_same(v@[i], #[trigger] r->Ok_0@[i]),
    decreases v,
{
    let ghost orig = v;
    let mut rest = v;
    let mut out: Vec<Stmt> = Vec::new();
    let mut i: usize = 0;
    let n = rest.len();
    while rest.len() > 0
        invariant
            n == orig@.len(),
            i <= orig@.len(),
            rest@ == orig@.subrange(i as int, orig@.len() as int),
            out@.len() == i,
            forall|j: int| 0 <= j < i ==> !stmt_fails(#[trigger] orig@[j]),
            forall|j: int| 0 <= j < i ==> stmt_optimized(orig@[j], #[trigger] out@[j]),
            stmts_plain_names(orig@) ==> forall|j: int|
                0 <= j < i ==> stmt_converted(#[trigger] out@[j]) && stmt_plain_names(out@[j]),
            stmts_converted(orig@) ==> forall|j: int|
                0 <= j < i ==> stmt_same(orig@[j], #[trigger] out@[j]),
        decreases rest@.len(),
    {
        let x = rest.remove(0);
        assert(x == orig@[i as int]);
        proof {
            assert(decreases_to!(orig => orig@));
            assert(decreases_to!(orig => orig@[i as int]));
            assert(decreases_to!(orig => x));
        }
        let y = match FunctionToArrowFn::visit_mut_stmt(x) {
            Ok(y) => y,
            Err(e) => {
                return Err(e);
            },
        };
        out.push(y);
        proof {
            assert(rest@ =~= orig@.subrange(i + 1, orig@.len() as int));
        }
        i = i + 1;
    }
    Ok(out)
}

/// Optimizes the body of a function, keeping the rest of it.
fn optimize_function(f: Function) -> (r: Result<Function, TransformError>)
    ensures
        r is Ok <==> !stmts_fail(f.body@),
        r is Ok ==> function_optimized(f, r->Ok_0),
        r is Ok && stmts_plain_names(f.body@) ==> stmts_converted(r->Ok_0.body@) && stmts_plain_names(
            r->Ok_0.body@,
        ),
        stmts_converted(f.body@) ==> r is Ok && r->Ok_0.body@.len() == f.body@.len() && forall|i: int|
            0 <= i < f.body@.len() ==> stmt_same(f.body@[i], #[trigger] r->Ok_0.body@[i]),
    decreases f,
{
    let Function { params, body, is_async, is_generator } = f;
    let body = optimize_stmts(body)?;
    Ok(Function { params, body, is_async, is_generator })
}

/// Optimizes a function and turns it into an arrow function.
fn function_to_arrow(f: Function) -> (r: Result<Arrow, TransformError>)
    ensures
        r is Ok <==> !stmts_fail(f.body@) && !conversion_fails(f),
        r is Ok ==> exists|g: Function|
            function_optimized(f, g) && arrow_built(g, body_mentions(f.body@), r->Ok_0),
        r is Ok && stmts_plain_names(f.body@) ==> expr_converted(Expr::Arrow(Box::new(r->Ok_0)))
            && expr_plain_names(Expr::Arrow(Box::new(r->Ok_0))),
    decreases f,
{
    let ghost f0 = f;
    let uses = stmts_use_arguments(&f.body);
    let Function { params, body, is_async, is_generator } = f;
    let body = optimize_stmts(body)?;
    let g = Function { params, body, is_async, is_generator };
    let ghost g0 = g;
    let ar = convert(g, uses)?;
    assert(function_optimized(f0, g0) && arrow_built(g0, body_mentions(f0.body@), ar));
    proof {
        if stmts_plain_names(f0.body@) {
            lemma_arrow_converted(g0, uses, ar);
        }
    }
    Ok(ar)
}

/// The rewrite of functions into arrow functions, applied from the leaves
/// of a tree up.
pub struct FunctionToArrowFn;

impl FunctionToArrowFn {
    /// Optimizes an expression (see `optimize_stmts` and `expr_optimized`).
    pub fn visit_mut_expr(e: Expr) -> (r: Result<Expr, TransformError>)
        ensures
            r is Ok <==> !expr_fails(e),
            r is Ok ==> expr_optimized(e, r->Ok_0),
            r is Ok && expr_plain_names(e) ==> expr_converted(r->Ok_0) && expr_plain_names(r->Ok_0),
            expr_converted(e) ==> r is Ok && expr_same(e, r->Ok_0),
        decreases e,
    {
        let ghost e0 = e;
        match e {
            Expr::Ident(n) => Ok(Expr::Ident(n)),
            Expr::Call { callee, args, type_args } => {
                let c = FunctionToArrowFn::visit_mut_expr(*callee)?;
                let g = optimize_exprs(args)?;
                let r = Expr::Call { callee: Box::new(c), args: g, type_args };
                assert(expr_optimized(e0, r));
                Ok(r)
            },
            Expr::Spread(x) => {
                let y = FunctionToArrowFn::visit_mut_expr(*x)?;
                let r = Expr::Spread(Box::new(y));
                assert(expr_optimized(e0, r));
                Ok(r)
            },
            Expr::Fn { ident, function } => match ident {
                Some(name) => {
                    let f = optimize_function(*function)?;
                    let r = Expr::Fn { ident: Some(name), function: Box::new(f) };
                    assert(expr_optimized(e0, r));
                    Ok(r)
                },
                None => {
                    let ghost f0 = *function;
                    let ar = function_to_arrow(*function)?;
                    let r = Expr::Arrow(Box::new(ar));
                    proof {
                        let g = choose|g: Function|
                            function_optimized(f0, g) && arrow_built(g, body_mentions(f0.body@), ar);
                        assert(function_optimized(f0, g) && arrow_built(g, body_mentions(f0.body@), *r->Arrow_0));
                    }
                    assert(expr_optimized(e0, r));
                    Ok(r)
                },
            },
            Expr::Arrow(ar) => {
                let Arrow { params, body, is_async, is_generator } = *ar;
                let ghost mut tv: Seq<Stmt> = Seq::empty();
                let body = match body {
                    ArrowBody::Block(s) => {
                        let ghost s0 = s@;
                        let t = optimize_stmts(s)?;
                        proof {
                            tv = t@;
                        }
                        let b = fold_body(t);
                        proof {
                            if stmts_converted(s0) {
                                lemma_same_foldable(s0, tv);
                            }
                            if stmts_plain_names(s0) && b is Expr {
                                lemma_fold_converted(tv, *b->Expr_0);
                            }
                            assert(tv.len() == s0.len() && (forall|i: int|
                                0 <= i < s0.len() ==> stmt_optimized(s0[i], #[trigger] tv[i]))
                                && if foldable(tv) {
                                b is Expr && folds_to(tv, *b->Expr_0)
                            } else {
                                b is Block && b->Block_0@ == tv
                            });
                        }
                        b
                    },
                    ArrowBody::Expr(x) => ArrowBody::Expr(Box::new(FunctionToArrowFn::visit_mut_expr(*x)?)),
                };
                let r = Expr::Arrow(Box::new(Arrow { params, body, is_async, is_generator }));
                proof {
                    if e0->Arrow_0.body is Block {
                        let s0 = e0->Arrow_0.body->Block_0@;
                        let br = r->Arrow_0;
                        assert(tv.len() == s0.len() && (forall|i: int|
                            0 <= i < s0.len() ==> stmt_optimized(s0[i], #[trigger] tv[i])) && if foldable(tv) {
                            br.body is Expr && folds_to(tv, *br.body->Expr_0)
                        } else {
                            br.body is Block && br.body->Block_0@ == tv
                        });
                    }
                }
                assert(expr_optimized(e0, r));
                Ok(r)
            },
            Expr::Op { op, operands } => {
                let p = optimize_exprs(operands)?;
                let r = Expr::Op { op, operands: p };
                assert(expr_optimized(e0, r));
                Ok(r)
            },
        }
    }

    /// Optimizes a statement (see `optimize_stmts` and `stmt_optimized`); a
    /// function declaration becomes a constant bound to an arrow function.
    pub fn visit_mut_stmt(s: Stmt) -> (r: Result<Stmt, TransformError>)
        ensures
            r is Ok <==> !stmt_fails(s),
            r is Ok ==> stmt_optimized(s, r->Ok_0),
            r is Ok && stmt_plain_names(s) ==> stmt_converted(r->Ok_0) && stmt_plain_names(r->Ok_0),
            stmt_converted(s) ==> r is Ok && stmt_same(s, r->Ok_0),
        decreases s,
    {
        match s {
            Stmt::Expr(e) => Ok(Stmt::Expr(FunctionToArrowFn::visit_mut_expr(e)?)),
            Stmt::Return(e) => match e {
                Some(x) => Ok(Stmt::Return(Some(FunctionToArrowFn::visit_mut_expr(x)?))),
                None => Ok(Stmt::Return(None)),
            },
            Stmt::Const { name, typed, declare, init } => {
                let i = FunctionToArrowFn::visit_mut_expr(init)?;
                Ok(Stmt::Const { name, typed, declare, init: i })
            },
            Stmt::FnDecl { ident, declare, function } => {
                let ghost f0 = function;
                let ar = function_to_arrow(function)?;
                let r = Stmt::Const { name: ident, typed: false, declare, init: Expr::Arrow(Box::new(ar)) };
                proof {
                    let g = choose|g: Function|
                        function_optimized(f0, g) && arrow_built(g, body_mentions(f0.body@), ar);
                    assert(function_optimized(f0, g) && arrow_built(g, body_mentions(f0.body@), ar));
                }
                Ok(r)
            },
            Stmt::Block(v) => Ok(Stmt::Block(optimize_stmts(v)?)),
        }
    }
}

/// Optimizes a module (see `optimize_stmts`): it fails exactly when some
/// function cannot become an arrow function, and else returns the module
/// optimized. A module with nothing left to rewrite comes out the same;
/// and where no constant or function declaration is named `arguments` or
/// `__minifier_arguments`, what it returns has nothing left to rewrite, so
/// that applied to its own output it changes nothing.
pub fn optimize_js(module: Vec<Stmt>) -> (r: Result<Vec<Stmt>, TransformError>)
    ensures
        r is Ok <==> !stmts_fail(module@),
        r is Ok ==> stmts_optimized(module@, r->Ok_0@),
        r is Ok && stmts_plain_names(module@) ==> stmts_converted(r->Ok_0@) && stmts_plain_names(
            r->Ok_0@,
        ),
        stmts_converted(module@) ==> r is Ok && forall|i: int|
            0 <= i < module@.len() ==> stmt_same(module@[i], #[trigger] r->Ok_0@[i]),
{
    optimize_stmts(module)
}

} // verus!
