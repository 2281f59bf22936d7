//! Recursive-descent parsing with one token of lookahead.
//!
//! The parser never aborts on a structurally unexpected token: it consumes
//! and ignores it, favoring forward progress over strict validation. Each
//! routine has a specification twin over the token sequence, and every
//! routine is proved to produce exactly what its twin describes.

use vstd::prelude::*;

use crate::ast::Expr;
use crate::ast::ExprModel;
use crate::ast::Literal;
use crate::ast::LitModel;
use crate::ast::Stmt;
use crate::ast::StmtModel;
use crate::ast::stmts_model;
use crate::ast::strings_model;
use crate::ast::pairs_model;
use crate::ast::lemma_stmts_model_index;
use crate::token::Token;

verus! {

/// The token at `i`, or `Eof` past the end.
pub open spec fn tok_at(ts: Seq<Token>, i: int) -> Token {
    if 0 <= i < ts.len() {
        ts[i]
    } else {
        Token::Eof
    }
}

/// The position after consuming one token at `i`.
pub open spec fn adv(ts: Seq<Token>, i: int) -> int {
    if 0 <= i < ts.len() {
        i + 1
    } else {
        i
    }
}

/// Clamp a continuation position to keep moving forward and stay in range.
pub open spec fn bump(ts: Seq<Token>, lo: int, j: int) -> int {
    if j < lo {
        lo
    } else if j > ts.len() {
        ts.len() as int
    } else {
        j
    }
}

/// The word `is`, in either case, as written in a type annotation.
pub open spec fn is_is_word(w: Seq<char>) -> bool {
    w.len() == 2 && (w[0] == 'i' || w[0] == 'I') && (w[1] == 's' || w[1] == 'S')
}

/// One operand, optionally followed by a single keyword operator and a
/// recursively parsed right-hand side.
pub open spec fn spec_parse_operand(ts: Seq<Token>, i: int) -> (ExprModel, int) {
    match tok_at(ts, i) {
        Token::Identifier(s) => (ExprModel::Var(s@), adv(ts, i)),
        Token::StringLit(s) => (ExprModel::Lit(LitModel::Str(s@)), adv(ts, i)),
        Token::NumberLit(n) => (ExprModel::Lit(LitModel::Num(n)), adv(ts, i)),
        Token::BoolLit(b) => (ExprModel::Lit(LitModel::Bool(b)), adv(ts, i)),
        Token::LParen => {
            let i1 = adv(ts, i);
            match tok_at(ts, i1) {
                Token::Identifier(s) => (ExprModel::Var(s@), adv(ts, adv(ts, i1))),
                _ => (ExprModel::Lit(LitModel::Bool(false)), adv(ts, i1)),
            }
        },
        Token::Eof => (ExprModel::Lit(LitModel::Bool(false)), adv(ts, i)),
        _ => (ExprModel::Lit(LitModel::Bool(false)), adv(ts, i)),
    }
}

pub open spec fn spec_parse_simple_expr(ts: Seq<Token>, i: int) -> (ExprModel, int)
    decreases ts.len() - i, 0int,
{
    let operand: (ExprModel, int) = spec_parse_operand(ts, i);
    let left = operand.0;
    let j = operand.1;
    match tok_at(ts, j) {
        Token::Operator(w) => {
            if w@ == "not"@ && (match tok_at(ts, j + 1) {
                Token::Identifier(e) => e@ == "equal"@,
                _ => false,
            }) {
                let rhs = spec_parse_simple_expr(ts, bump(ts, i + 1, j + 2));
                (
                    ExprModel::Binary {
                        left: Box::new(left),
                        op: "not_equal"@,
                        right: Box::new(rhs.0),
                    },
                    rhs.1,
                )
            } else {
                let rhs = spec_parse_simple_expr(ts, bump(ts, i + 1, j + 1));
                (
                    ExprModel::Binary { left: Box::new(left), op: w@, right: Box::new(rhs.0) },
                    rhs.1,
                )
            }
        },
        _ => (left, j),
    }
}

/// The then-branch statements of a conditional: `ret` and `run` statements
/// up to `otherwise`, the block end, or the end of input; the flag says
/// whether `otherwise` was met and consumed.
pub open spec fn spec_parse_then(ts: Seq<Token>, i: int) -> (Seq<StmtModel>, int, bool)
    decreases ts.len() - i, 1int,
{
    match tok_at(ts, i) {
        Token::Otherwise => (Seq::<StmtModel>::empty(), adv(ts, i), true),
        Token::Ret => {
            let e = spec_parse_simple_expr(ts, adv(ts, i));
            let rest = spec_parse_then(ts, bump(ts, i + 1, e.1));
            (
                seq![StmtModel::Expr(ExprModel::Return(Box::new(e.0)))] + rest.0,
                rest.1,
                rest.2,
            )
        },
        Token::Run => {
            let e = spec_parse_simple_expr(ts, adv(ts, i));
            let rest = spec_parse_then(ts, bump(ts, i + 1, e.1));
            (seq![StmtModel::Expr(ExprModel::Run(Box::new(e.0)))] + rest.0, rest.1, rest.2)
        },
        Token::BlockEnd => (Seq::<StmtModel>::empty(), i, false),
        Token::Eof => (Seq::<StmtModel>::empty(), i, false),
        _ => spec_parse_then(ts, adv(ts, i)),
    }
}

/// The otherwise-branch statements, under the same rules as the then-branch.
pub open spec fn spec_parse_else(ts: Seq<Token>, i: int) -> (Seq<StmtModel>, int)
    decreases ts.len() - i, 1int,
{
    match tok_at(ts, i) {
        Token::Ret => {
            let e = spec_parse_simple_expr(ts, adv(ts, i));
            let rest = spec_parse_else(ts, bump(ts, i + 1, e.1));
            (seq![StmtModel::Expr(ExprModel::Return(Box::new(e.0)))] + rest.0, rest.1)
        },
        Token::Run => {
            let e = spec_parse_simple_expr(ts, adv(ts, i));
            let rest = spec_parse_else(ts, bump(ts, i + 1, e.1));
            (seq![StmtModel::Expr(ExprModel::Run(Box::new(e.0)))] + rest.0, rest.1)
        },
        Token::BlockEnd => (Seq::<StmtModel>::empty(), i),
        Token::Eof => (Seq::<StmtModel>::empty(), i),
        _ => spec_parse_else(ts, adv(ts, i)),
    }
}

/// A conditional: condition, optional `then`, then-branch, and an
/// otherwise-branch exactly when `otherwise` appeared.
pub open spec fn spec_parse_if(ts: Seq<Token>, i: int) -> (ExprModel, int)
    decreases ts.len() - i, 2int,
{
    let c = spec_parse_simple_expr(ts, adv(ts, i));
    let j1 = bump(ts, i + 1, c.1);
    let j2 = if tok_at(ts, j1) is Then {
        adv(ts, j1)
    } else {
        j1
    };
    let thn = spec_parse_then(ts, bump(ts, i + 1, j2));
    if thn.2 {
        let els = spec_parse_else(ts, bump(ts, i + 1, thn.1));
        (
            ExprModel::If {
                cond: Box::new(c.0),
                then_body: thn.0,
                else_body: Some(els.0),
            },
            els.1,
        )
    } else {
        (ExprModel::If { cond: Box::new(c.0), then_body: thn.0, else_body: None }, thn.1)
    }
}

/// An import: `import name [-> alias] from module`.
pub open spec fn spec_parse_import(ts: Seq<Token>, i: int) -> (ExprModel, int) {
    let i1 = adv(ts, i);
    let name = match tok_at(ts, i1) {
        Token::Identifier(s) => s@,
        _ => Seq::<char>::empty(),
    };
    let i2 = adv(ts, i1);
    let aliased: (Option<Seq<char>>, int) = if tok_at(ts, i2) is Arrow {
        let ia = adv(ts, i2);
        match tok_at(ts, ia) {
            Token::Identifier(a) => (Some(a@), adv(ts, ia)),
            _ => (None, adv(ts, ia)),
        }
    } else {
        (None, i2)
    };
    let i4 = adv(ts, aliased.1);
    let module = match tok_at(ts, i4) {
        Token::Identifier(m) => m@,
        Token::StringLit(s) => s@,
        _ => Seq::<char>::empty(),
    };
    let i5 = adv(ts, i4);
    (ExprModel::Import { name, alias: aliased.0, module }, i5)
}

/// The parenthesized parameter-name list of a function definition.
pub open spec fn spec_parse_params(ts: Seq<Token>, i: int) -> (Seq<Seq<char>>, int)
    decreases ts.len() - i,
{
    match tok_at(ts, i) {
        Token::Identifier(s) => {
            let rest = spec_parse_params(ts, adv(ts, i));
            (seq![s@] + rest.0, rest.1)
        },
        Token::Comma => spec_parse_params(ts, adv(ts, i)),
        Token::RParen => (Seq::<Seq<char>>::empty(), adv(ts, i)),
        Token::Eof => (Seq::<Seq<char>>::empty(), i),
        _ => spec_parse_params(ts, adv(ts, i)),
    }
}

/// The `name is type` clauses of a type-annotation block, up to `>`.
pub open spec fn spec_parse_types(ts: Seq<Token>, i: int) -> (
    Seq<(Seq<char>, Seq<char>)>,
    int,
)
    decreases ts.len() - i,
{
    match tok_at(ts, i) {
        Token::Gt => (Seq::<(Seq<char>, Seq<char>)>::empty(), adv(ts, i)),
        Token::Eof => (Seq::<(Seq<char>, Seq<char>)>::empty(), i),
        Token::Comma => spec_parse_types(ts, adv(ts, i)),
        Token::Identifier(pname) => {
            let i1 = adv(ts, i);
            match tok_at(ts, i1) {
                Token::Identifier(kw) => {
                    if is_is_word(kw@) {
                        let i2 = adv(ts, i1);
                        match tok_at(ts, i2) {
                            Token::Identifier(typ) => {
                                let rest = spec_parse_types(ts, adv(ts, i2));
                                (seq![(pname@, typ@)] + rest.0, rest.1)
                            },
                            _ => spec_parse_types(ts, adv(ts, adv(ts, i2))),
                        }
                    } else {
                        spec_parse_types(ts, i1)
                    }
                },
                _ => spec_parse_types(ts, i1),
            }
        },
        _ => spec_parse_types(ts, adv(ts, i)),
    }
}

/// The statements of a function body, up to the block-end marker.
pub open spec fn spec_parse_fn_body(ts: Seq<Token>, i: int) -> (Seq<StmtModel>, int)
    decreases ts.len() - i, 3int,
{
    match tok_at(ts, i) {
        Token::BlockEnd => (Seq::<StmtModel>::empty(), adv(ts, i)),
        Token::Eof => (Seq::<StmtModel>::empty(), i),
        Token::If => {
            let e = spec_parse_if(ts, i);
            let rest = spec_parse_fn_body(ts, bump(ts, i + 1, e.1));
            (seq![StmtModel::Expr(e.0)] + rest.0, rest.1)
        },
        Token::Run => {
            let e = spec_parse_simple_expr(ts, adv(ts, i));
            let rest = spec_parse_fn_body(ts, bump(ts, i + 1, e.1));
            (seq![StmtModel::Expr(ExprModel::Run(Box::new(e.0)))] + rest.0, rest.1)
        },
        Token::Ret => {
            let e = spec_parse_simple_expr(ts, adv(ts, i));
            let rest = spec_parse_fn_body(ts, bump(ts, i + 1, e.1));
            (seq![StmtModel::Expr(ExprModel::Return(Box::new(e.0)))] + rest.0, rest.1)
        },
        _ => spec_parse_fn_body(ts, adv(ts, i)),
    }
}

/// A function definition: marker, optional `=`, parameter list, optional
/// type-annotation block, body.
pub open spec fn spec_parse_function(ts: Seq<Token>, i: int) -> (ExprModel, int)
    decreases ts.len() - i, 4int,
{
    let i1 = adv(ts, i);
    let i2 = if tok_at(ts, i1) is Assign {
        adv(ts, i1)
    } else {
        i1
    };
    let opened = tok_at(ts, i2);
    let i3 = adv(ts, i2);
    let ps: (Seq<Seq<char>>, int) = if opened is LParen {
        spec_parse_params(ts, bump(ts, i + 1, i3))
    } else {
        (Seq::<Seq<char>>::empty(), i3)
    };
    let j = bump(ts, i + 1, ps.1);
    let tys: (Seq<(Seq<char>, Seq<char>)>, int) = if tok_at(ts, j) is Colon {
        let j1 = adv(ts, j);
        let angled = tok_at(ts, j1);
        let j2 = adv(ts, j1);
        if angled is Lt {
            spec_parse_types(ts, bump(ts, i + 1, j2))
        } else {
            (Seq::<(Seq<char>, Seq<char>)>::empty(), j2)
        }
    } else {
        (Seq::<(Seq<char>, Seq<char>)>::empty(), j)
    };
    let body = spec_parse_fn_body(ts, bump(ts, i + 1, tys.1));
    (
        ExprModel::Function { params: ps.0, types: tys.0, body: body.0 },
        body.1,
    )
}

/// The top level: imports and function definitions; anything else is
/// skipped; stops at end of input.
pub open spec fn spec_parse_program(ts: Seq<Token>, i: int) -> (Seq<StmtModel>, int)
    decreases ts.len() - i, 5int,
{
    match tok_at(ts, i) {
        Token::Eof => (Seq::<StmtModel>::empty(), i),
        Token::Import => {
            let e = spec_parse_import(ts, i);
            let rest = spec_parse_program(ts, bump(ts, i + 1, e.1));
            (seq![StmtModel::ImportStmt(e.0)] + rest.0, rest.1)
        },
        Token::FnStart => {
            let e = spec_parse_function(ts, i);
            let rest = spec_parse_program(ts, bump(ts, i + 1, e.1));
            (seq![StmtModel::FunctionDef(e.0)] + rest.0, rest.1)
        },
        _ => spec_parse_program(ts, adv(ts, i)),
    }
}

/// One consumed position, staying inside the token list.
fn adv_at(ts: &Vec<Token>, i: usize) -> (r: usize)
    requires
        i <= ts@.len(),
    ensures
        r as int == adv(ts@, i as int),
        i <= r <= ts@.len(),
{
    if i < ts.len() {
        i + 1
    } else {
        i
    }
}

fn parse_simple_expr_at(ts: &Vec<Token>, i: usize) -> (r: (Expr, usize))
    requires
        i <= ts@.len(),
    ensures
        crate::ast::expr_model(r.0) == spec_parse_simple_expr(ts@, i as int).0,
        r.1 as int == spec_parse_simple_expr(ts@, i as int).1,
        i <= r.1 <= ts@.len(),
    decreases ts@.len() - i, 0int,
{
    let operand: (Expr, usize) = if i >= ts.len() {
        (Expr::Lit(Literal::Bool(false)), i)
    } else {
        match &ts[i] {
            Token::Identifier(s) => (Expr::Var(s.clone()), i + 1),
            Token::StringLit(s) => (Expr::Lit(Literal::Str(s.clone())), i + 1),
            Token::NumberLit(n) => (Expr::Lit(Literal::Num(*n)), i + 1),
            Token::BoolLit(b) => (Expr::Lit(Literal::Bool(*b)), i + 1),
            Token::LParen => {
                let i1 = i + 1;
                if i1 < ts.len() {
                    match &ts[i1] {
                        Token::Identifier(s) => {
                            let j = adv_at(ts, adv_at(ts, i1));
                            (Expr::Var(s.clone()), j)
                        },
                        _ => (Expr::Lit(Literal::Bool(false)), i1 + 1),
                    }
                } else {
                    (Expr::Lit(Literal::Bool(false)), i1)
                }
            },
            _ => (Expr::Lit(Literal::Bool(false)), i + 1),
        }
    };
    proof {
        assert(crate::ast::expr_model(operand.0) == spec_parse_operand(ts@, i as int).0);
        assert(operand.1 as int == spec_parse_operand(ts@, i as int).1);
    }
    let left = operand.0;
    let j = operand.1;
    if j < ts.len() {
        match &ts[j] {
            Token::Operator(w) => {
                let not_equal: bool = crate::text::str_eq(w.as_str(), "not") && j + 1 < ts.len()
                    && (match &ts[j + 1] {
                    Token::Identifier(e) => crate::text::str_eq(e.as_str(), "equal"),
                    _ => false,
                });
                proof {
                    if j + 1 < ts@.len() {
                    } else {
                        assert(tok_at(ts@, j + 1) is Eof);
                    }
                }
                if not_equal {
                    let rhs = parse_simple_expr_at(ts, j + 2);
                    let op = crate::text::string_from_chars(
                        &vec!['n', 'o', 't', '_', 'e', 'q', 'u', 'a', 'l'],
                    );
                    proof {
                        reveal_strlit("not_equal");
                        assert(op@ =~= "not_equal"@);
                    }
                    (
                        Expr::Binary {
                            left: Box::new(left),
                            op,
                            right: Box::new(rhs.0),
                        },
                        rhs.1,
                    )
                } else {
                    let rhs = parse_simple_expr_at(ts, j + 1);
                    (
                        Expr::Binary {
                            left: Box::new(left),
                            op: w.clone(),
                            right: Box::new(rhs.0),
                        },
                        rhs.1,
                    )
                }
            },
            _ => (left, j),
        }
    } else {
        (left, j)
    }
}

fn parse_then_at(ts: &Vec<Token>, i: usize) -> (r: (Vec<Stmt>, usize, bool))
    requires
        i <= ts@.len(),
    ensures
        stmts_model(r.0@) == spec_parse_then(ts@, i as int).0,
        r.1 as int == spec_parse_then(ts@, i as int).1,
        r.2 == spec_parse_then(ts@, i as int).2,
        i <= r.1 <= ts@.len(),
    decreases ts@.len() - i, 1int,
{
    if i >= ts.len() {
        let r = (Vec::<Stmt>::new(), i, false);
        proof {
            assert(stmts_model(r.0@) =~= Seq::<StmtModel>::empty());
        }
        return r;
    }
    match &ts[i] {
        Token::Otherwise => {
            let r = (Vec::<Stmt>::new(), i + 1, true);
            proof {
                assert(stmts_model(r.0@) =~= Seq::<StmtModel>::empty());
            }
            r
        },
        Token::Ret => {
            let e = parse_simple_expr_at(ts, i + 1);
            let rest = parse_then_at(ts, e.1);
            let ghost rm = stmts_model(rest.0@);
            let ghost rs = rest.0@;
            let mut v = rest.0;
            let s = Stmt::Expr(Expr::Return(Box::new(e.0)));
            let ghost sm = crate::ast::stmt_model(s);
            v.insert(0, s);
            proof {
                assert(v@.drop_first() =~= rs);
                lemma_insert_front_stmts(v@, sm, rm);
            }
            (v, rest.1, rest.2)
        },
        Token::Run => {
            let e = parse_simple_expr_at(ts, i + 1);
            let rest = parse_then_at(ts, e.1);
            let ghost rm = stmts_model(rest.0@);
            let ghost rs = rest.0@;
            let mut v = rest.0;
            let s = Stmt::Expr(Expr::Run(Box::new(e.0)));
            let ghost sm = crate::ast::stmt_model(s);
            v.insert(0, s);
            proof {
                assert(v@.drop_first() =~= rs);
                lemma_insert_front_stmts(v@, sm, rm);
            }
            (v, rest.1, rest.2)
        },
        Token::BlockEnd => {
            let r = (Vec::<Stmt>::new(), i, false);
            proof {
                assert(stmts_model(r.0@) =~= Seq::<StmtModel>::empty());
            }
            r
        },
        Token::Eof => {
            let r = (Vec::<Stmt>::new(), i, false);
            proof {
                assert(stmts_model(r.0@) =~= Seq::<StmtModel>::empty());
            }
            r
        },
        _ => parse_then_at(ts, i + 1),
    }
}

fn parse_else_at(ts: &Vec<Token>, i: usize) -> (r: (Vec<Stmt>, usize))
    requires
        i <= ts@.len(),
    ensures
        stmts_model(r.0@) == spec_parse_else(ts@, i as int).0,
        r.1 as int == spec_parse_else(ts@, i as int).1,
        i <= r.1 <= ts@.len(),
    decreases ts@.len() - i, 1int,
{
    if i >= ts.len() {
        let r = (Vec::<Stmt>::new(), i);
        proof {
            assert(stmts_model(r.0@) =~= Seq::<StmtModel>::empty());
        }
        return r;
    }
    match &ts[i] {
        Token::Ret => {
            let e = parse_simple_expr_at(ts, i + 1);
            let rest = parse_else_at(ts, e.1);
            let ghost rm = stmts_model(rest.0@);
            let ghost rs = rest.0@;
            let mut v = rest.0;
            let s = Stmt::Expr(Expr::Return(Box::new(e.0)));
            let ghost sm = crate::ast::stmt_model(s);
            v.insert(0, s);
            proof {
                assert(v@.drop_first() =~= rs);
                lemma_insert_front_stmts(v@, sm, rm);
            }
            (v, rest.1)
        },
        Token::Run => {
            let e = parse_simple_expr_at(ts, i + 1);
            let rest = parse_else_at(ts, e.1);
            let ghost rm = stmts_model(rest.0@);
            let ghost rs = rest.0@;
            let mut v = rest.0;
            let s = Stmt::Expr(Expr::Run(Box::new(e.0)));
            let ghost sm = crate::ast::stmt_model(s);
            v.insert(0, s);
            proof {
                assert(v@.drop_first() =~= rs);
                lemma_insert_front_stmts(v@, sm, rm);
            }
            (v, rest.1)
        },
        Token::BlockEnd => {
            let r = (Vec::<Stmt>::new(), i);
            proof {
                assert(stmts_model(r.0@) =~= Seq::<StmtModel>::empty());
            }
            r
        },
        Token::Eof => {
            let r = (Vec::<Stmt>::new(), i);
            proof {
                assert(stmts_model(r.0@) =~= Seq::<StmtModel>::empty());
            }
            r
        },
        _ => parse_else_at(ts, i + 1),
    }
}

fn parse_if_at(ts: &Vec<Token>, i: usize) -> (r: (Expr, usize))
    requires
        i < ts@.len(),
    ensures
        crate::ast::expr_model(r.0) == spec_parse_if(ts@, i as int).0,
        r.1 as int == spec_parse_if(ts@, i as int).1,
        i <= r.1 <= ts@.len(),
    decreases ts@.len() - i, 2int,
{
    let i1 = adv_at(ts, i);
    let c = parse_simple_expr_at(ts, i1);
    let j1 = c.1;
    let j2: usize = if j1 < ts.len() && (match &ts[j1] {
        Token::Then => true,
        _ => false,
    }) {
        j1 + 1
    } else {
        j1
    };
    let thn = parse_then_at(ts, j2);
    if thn.2 {
        let els = parse_else_at(ts, thn.1);
        (
            Expr::If {
                cond: Box::new(c.0),
                then_body: thn.0,
                else_body: Some(els.0),
            },
            els.1,
        )
    } else {
        (Expr::If { cond: Box::new(c.0), then_body: thn.0, else_body: None }, thn.1)
    }
}

fn parse_import_at(ts: &Vec<Token>, i: usize) -> (r: (Expr, usize))
    requires
        i <= ts@.len(),
    ensures
        crate::ast::expr_model(r.0) == spec_parse_import(ts@, i as int).0,
        r.1 as int == spec_parse_import(ts@, i as int).1,
        i <= r.1 <= ts@.len(),
{
    let i1 = adv_at(ts, i);
    let name: String = if i1 < ts.len() {
        match &ts[i1] {
            Token::Identifier(s) => s.clone(),
            _ => String::new(),
        }
    } else {
        String::new()
    };
    let i2 = adv_at(ts, i1);
    let has_arrow: bool = i2 < ts.len() && (match &ts[i2] {
        Token::Arrow => true,
        _ => false,
    });
    let mut alias: Option<String> = None;
    let i3: usize = if has_arrow {
        let ia = adv_at(ts, i2);
        if ia < ts.len() {
            match &ts[ia] {
                Token::Identifier(a) => {
                    alias = Some(a.clone());
                },
                _ => {},
            }
        }
        adv_at(ts, ia)
    } else {
        i2
    };
    let i4 = adv_at(ts, i3);
    let module: String = if i4 < ts.len() {
        match &ts[i4] {
            Token::Identifier(m) => m.clone(),
            Token::StringLit(s) => s.clone(),
            _ => String::new(),
        }
    } else {
        String::new()
    };
    let i5 = adv_at(ts, i4);
    (Expr::Import { name, alias, module }, i5)
}

fn parse_params_at(ts: &Vec<Token>, i: usize) -> (r: (Vec<String>, usize))
    requires
        i <= ts@.len(),
    ensures
        strings_model(r.0@) == spec_parse_params(ts@, i as int).0,
        r.1 as int == spec_parse_params(ts@, i as int).1,
        i <= r.1 <= ts@.len(),
    decreases ts@.len() - i,
{
    if i >= ts.len() {
        let r = (Vec::<String>::new(), i);
        proof {
            assert(strings_model(r.0@) =~= Seq::<Seq<char>>::empty());
        }
        return r;
    }
    match &ts[i] {
        Token::Identifier(s) => {
            let rest = parse_params_at(ts, i + 1);
            let ghost rm = strings_model(rest.0@);
            let mut v = rest.0;
            v.insert(0, s.clone());
            proof {
                assert(strings_model(v@) =~= seq![s@] + rm);
            }
            (v, rest.1)
        },
        Token::Comma => parse_params_at(ts, i + 1),
        Token::RParen => {
            let r = (Vec::<String>::new(), i + 1);
            proof {
                assert(strings_model(r.0@) =~= Seq::<Seq<char>>::empty());
            }
            r
        },
        Token::Eof => {
            let r = (Vec::<String>::new(), i);
            proof {
                assert(strings_model(r.0@) =~= Seq::<Seq<char>>::empty());
            }
            r
        },
        _ => parse_params_at(ts, i + 1),
    }
}

/// Whether a word is `is`, ignoring case.
fn is_word_is(w: &String) -> (r: bool)
    ensures
        r == is_is_word(w@),
{
    let n = w.as_str().unicode_len();
    if n != 2 {
        return false;
    }
    let c0 = w.as_str().get_char(0);
    let c1 = w.as_str().get_char(1);
    (c0 == 'i' || c0 == 'I') && (c1 == 's' || c1 == 'S')
}

fn parse_types_at(ts: &Vec<Token>, i: usize) -> (r: (Vec<(String, String)>, usize))
    requires
        i <= ts@.len(),
    ensures
        pairs_model(r.0@) == spec_parse_types(ts@, i as int).0,
        r.1 as int == spec_parse_types(ts@, i as int).1,
        i <= r.1 <= ts@.len(),
    decreases ts@.len() - i,
{
    if i >= ts.len() {
        let r = (Vec::<(String, String)>::new(), i);
        proof {
            assert(pairs_model(r.0@) =~= Seq::<(Seq<char>, Seq<char>)>::empty());
        }
        return r;
    }
    match &ts[i] {
        Token::Gt => {
            let r = (Vec::<(String, String)>::new(), i + 1);
            proof {
                assert(pairs_model(r.0@) =~= Seq::<(Seq<char>, Seq<char>)>::empty());
            }
            r
        },
        Token::Eof => {
            let r = (Vec::<(String, String)>::new(), i);
            proof {
                assert(pairs_model(r.0@) =~= Seq::<(Seq<char>, Seq<char>)>::empty());
            }
            r
        },
        Token::Comma => parse_types_at(ts, i + 1),
        Token::Identifier(pname) => {
            let i1 = i + 1;
            let is_is: bool = i1 < ts.len() && (match &ts[i1] {
                Token::Identifier(kw) => is_word_is(kw),
                _ => false,
            });
            if is_is {
                let i2 = adv_at(ts, i1);
                if i2 < ts.len() {
                    match &ts[i2] {
                        Token::Identifier(typ) => {
                            let rest = parse_types_at(ts, i2 + 1);
                            let ghost rm = pairs_model(rest.0@);
                            let mut v = rest.0;
                            v.insert(0, (pname.clone(), typ.clone()));
                            proof {
                                assert(pairs_model(v@) =~= seq![(pname@, typ@)] + rm);
                            }
                            (v, rest.1)
                        },
                        _ => parse_types_at(ts, adv_at(ts, adv_at(ts, i2))),
                    }
                } else {
                    parse_types_at(ts, adv_at(ts, adv_at(ts, i2)))
                }
            } else {
                if i1 < ts.len() {
                    match &ts[i1] {
                        Token::Identifier(_) => parse_types_at(ts, i1),
                        _ => parse_types_at(ts, i1),
                    }
                } else {
                    parse_types_at(ts, i1)
                }
            }
        },
        _ => parse_types_at(ts, i + 1),
    }
}

fn parse_fn_body_at(ts: &Vec<Token>, i: usize) -> (r: (Vec<Stmt>, usize))
    requires
        i <= ts@.len(),
    ensures
        stmts_model(r.0@) == spec_parse_fn_body(ts@, i as int).0,
        r.1 as int == spec_parse_fn_body(ts@, i as int).1,
        i <= r.1 <= ts@.len(),
    decreases ts@.len() - i, 3int,
{
    if i >= ts.len() {
        let r = (Vec::<Stmt>::new(), i);
        proof {
            assert(stmts_model(r.0@) =~= Seq::<StmtModel>::empty());
        }
        return r;
    }
    match &ts[i] {
        Token::BlockEnd => {
            let r = (Vec::<Stmt>::new(), i + 1);
            proof {
                assert(stmts_model(r.0@) =~= Seq::<StmtModel>::empty());
            }
            r
        },
        Token::Eof => {
            let r = (Vec::<Stmt>::new(), i);
            proof {
                assert(stmts_model(r.0@) =~= Seq::<StmtModel>::empty());
            }
            r
        },
        Token::If => {
            let e = parse_if_at(ts, i);
            let next = if e.1 > i { e.1 } else { i + 1 };
            let rest = parse_fn_body_at(ts, next);
            let ghost rm = stmts_model(rest.0@);
            let ghost rs = rest.0@;
            let mut v = rest.0;
            let s = Stmt::Expr(e.0);
            let ghost sm = crate::ast::stmt_model(s);
            v.insert(0, s);
            proof {
                assert(v@.drop_first() =~= rs);
                lemma_insert_front_stmts(v@, sm, rm);
            }
            (v, rest.1)
        },
        Token::Run => {
            let e = parse_simple_expr_at(ts, i + 1);
            let rest = parse_fn_body_at(ts, e.1);
            let ghost rm = stmts_model(rest.0@);
            let ghost rs = rest.0@;
            let mut v = rest.0;
            let s = Stmt::Expr(Expr::Run(Box::new(e.0)));
            let ghost sm = crate::ast::stmt_model(s);
            v.insert(0, s);
            proof {
                assert(v@.drop_first() =~= rs);
                lemma_insert_front_stmts(v@, sm, rm);
            }
            (v, rest.1)
        },
        Token::Ret => {
            let e = parse_simple_expr_at(ts, i + 1);
            let rest = parse_fn_body_at(ts, e.1);
            let ghost rm = stmts_model(rest.0@);
            let ghost rs = rest.0@;
            let mut v = rest.0;
            let s = Stmt::Expr(Expr::Return(Box::new(e.0)));
            let ghost sm = crate::ast::stmt_model(s);
            v.insert(0, s);
            proof {
                assert(v@.drop_first() =~= rs);
                lemma_insert_front_stmts(v@, sm, rm);
            }
            (v, rest.1)
        },
        _ => parse_fn_body_at(ts, i + 1),
    }
}

fn parse_function_at(ts: &Vec<Token>, i: usize) -> (r: (Expr, usize))
    requires
        i < ts@.len(),
    ensures
        crate::ast::expr_model(r.0) == spec_parse_function(ts@, i as int).0,
        r.1 as int == spec_parse_function(ts@, i as int).1,
        i <= r.1 <= ts@.len(),
    decreases ts@.len() - i, 4int,
{
    let i1 = adv_at(ts, i);
    let i2: usize = if i1 < ts.len() && (match &ts[i1] {
        Token::Assign => true,
        _ => false,
    }) {
        i1 + 1
    } else {
        i1
    };
    let has_paren: bool = i2 < ts.len() && (match &ts[i2] {
        Token::LParen => true,
        _ => false,
    });
    let i3 = adv_at(ts, i2);
    let ps: (Vec<String>, usize) = if has_paren {
        parse_params_at(ts, i3)
    } else {
        let r = (Vec::<String>::new(), i3);
        proof {
            assert(strings_model(r.0@) =~= Seq::<Seq<char>>::empty());
        }
        r
    };
    let j = ps.1;
    let has_colon: bool = j < ts.len() && (match &ts[j] {
        Token::Colon => true,
        _ => false,
    });
    let tys: (Vec<(String, String)>, usize) = if has_colon {
        let j1 = j + 1;
        let has_angle: bool = j1 < ts.len() && (match &ts[j1] {
            Token::Lt => true,
            _ => false,
        });
        let j2 = adv_at(ts, j1);
        if has_angle {
            parse_types_at(ts, j2)
        } else {
            let r = (Vec::<(String, String)>::new(), j2);
            proof {
                assert(pairs_model(r.0@) =~= Seq::<(Seq<char>, Seq<char>)>::empty());
            }
            r
        }
    } else {
        let r = (Vec::<(String, String)>::new(), j);
        proof {
            assert(pairs_model(r.0@) =~= Seq::<(Seq<char>, Seq<char>)>::empty());
        }
        r
    };
    let b0: usize = if tys.1 > i { tys.1 } else { i + 1 };
    let body = parse_fn_body_at(ts, b0);
    (Expr::Function { params: ps.0, types: tys.0, body: body.0 }, body.1)
}

fn parse_program_at(ts: &Vec<Token>, i: usize) -> (r: (Vec<Stmt>, usize))
    requires
        i <= ts@.len(),
    ensures
        stmts_model(r.0@) == spec_parse_program(ts@, i as int).0,
        r.1 as int == spec_parse_program(ts@, i as int).1,
        i <= r.1 <= ts@.len(),
    decreases ts@.len() - i, 5int,
{
    if i >= ts.len() {
        let r = (Vec::<Stmt>::new(), i);
        proof {
            assert(stmts_model(r.0@) =~= Seq::<StmtModel>::empty());
        }
        return r;
    }
    match &ts[i] {
        Token::Eof => {
            let r = (Vec::<Stmt>::new(), i);
            proof {
                assert(stmts_model(r.0@) =~= Seq::<StmtModel>::empty());
            }
            r
        },
        Token::Import => {
            let e = parse_import_at(ts, i);
            let next = if e.1 > i { e.1 } else { i + 1 };
            let rest = parse_program_at(ts, next);
            let ghost rm = stmts_model(rest.0@);
            let ghost rs = rest.0@;
            let mut v = rest.0;
            let s = Stmt::ImportStmt(e.0);
            let ghost sm = crate::ast::stmt_model(s);
            v.insert(0, s);
            proof {
                assert(v@.drop_first() =~= rs);
                lemma_insert_front_stmts(v@, sm, rm);
            }
            (v, rest.1)
        },
        Token::FnStart => {
            let e = parse_function_at(ts, i);
            let next = if e.1 > i { e.1 } else { i + 1 };
            let rest = parse_program_at(ts, next);
            let ghost rm = stmts_model(rest.0@);
            let ghost rs = rest.0@;
            let mut v = rest.0;
            let s = Stmt::FunctionDef(e.0);
            let ghost sm = crate::ast::stmt_model(s);
            v.insert(0, s);
            proof {
                assert(v@.drop_first() =~= rs);
                lemma_insert_front_stmts(v@, sm, rm);
            }
            (v, rest.1)
        },
        _ => parse_program_at(ts, i + 1),
    }
}

/// The parser: the token sequence and the read position.
pub struct Parser {
    pub tokens: Vec<Token>,
    pub pos: usize,
}

impl Parser {
    pub fn new(tokens: Vec<Token>) -> (r: Self)
        ensures
            r.tokens@ == tokens@,
            r.pos == 0,
    {
        Parser { tokens, pos: 0 }
    }

    /// Parses the whole token sequence into a top-level statement list.
    pub fn parse_program(&mut self) -> (r: Vec<Stmt>)
        requires
            old(self).pos <= old(self).tokens@.len(),
        ensures
            final(self).tokens@ == old(self).tokens@,
            stmts_model(r@) == spec_parse_program(old(self).tokens@, old(self).pos as int).0,
            final(self).pos as int == spec_parse_program(
                old(self).tokens@,
                old(self).pos as int,
            ).1,
    {
        let parsed = parse_program_at(&self.tokens, self.pos);
        self.pos = parsed.1;
        parsed.0
    }
}

/// A statement list with one statement put in front models as that
/// statement's model followed by the rest.
proof fn lemma_insert_front_stmts(v: Seq<Stmt>, sm: StmtModel, rm: Seq<StmtModel>)
    requires
        v.len() >= 1,
        crate::ast::stmt_model(v[0]) == sm,
        stmts_model(v.drop_first()) == rm,
    ensures
        stmts_model(v) == seq![sm] + rm,
{
    lemma_stmts_model_index(v);
    lemma_stmts_model_index(v.drop_first());
    assert(stmts_model(v) =~= seq![sm] + rm);
}

} // verus!
