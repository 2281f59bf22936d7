//! The syntax tree the parser produces and the interpreter walks, and its
//! mathematical model: each node kind has a model type whose strings are
//! character sequences, so that contracts can speak of structure.

use vstd::prelude::*;

verus! {

/// A literal value as written in source text.
#[derive(Debug)]
pub enum Literal {
    Str(String),
    Num(u128),
    Bool(bool),
    Array(Vec<Literal>),
}

/// An expression node.
#[derive(Debug)]
pub enum Expr {
    Import { name: String, alias: Option<String>, module: String },
    Function { params: Vec<String>, types: Vec<(String, String)>, body: Vec<Stmt> },
    Call { callee: Box<Expr>, args: Vec<Expr> },
    If { cond: Box<Expr>, then_body: Vec<Stmt>, else_body: Option<Vec<Stmt>> },
    Run(Box<Expr>),
    Return(Box<Expr>),
    Binary { left: Box<Expr>, op: String, right: Box<Expr> },
    Var(String),
    Lit(Literal),
}

/// A statement; a program is an ordered sequence of these.
#[derive(Debug)]
pub enum Stmt {
    Expr(Expr),
    FunctionDef(Expr),
    ImportStmt(Expr),
    Empty,
}

/// The model of a literal.
pub enum LitModel {
    Str(Seq<char>),
    Num(u128),
    Bool(bool),
    Array(Seq<LitModel>),
}

/// The model of an expression.
pub enum ExprModel {
    Import { name: Seq<char>, alias: Option<Seq<char>>, module: Seq<char> },
    Function {
        params: Seq<Seq<char>>,
        types: Seq<(Seq<char>, Seq<char>)>,
        body: Seq<StmtModel>,
    },
    Call { callee: Box<ExprModel>, args: Seq<ExprModel> },
    If { cond: Box<ExprModel>, then_body: Seq<StmtModel>, else_body: Option<Seq<StmtModel>> },
    Run(Box<ExprModel>),
    Return(Box<ExprModel>),
    Binary { left: Box<ExprModel>, op: Seq<char>, right: Box<ExprModel> },
    Var(Seq<char>),
    Lit(LitModel),
}

/// The model of a statement.
pub enum StmtModel {
    Expr(ExprModel),
    FunctionDef(ExprModel),
    ImportStmt(ExprModel),
    Empty,
}

pub open spec fn lit_model(l: Literal) -> LitModel
    decreases l,
{
    match l {
        Literal::Str(s) => LitModel::Str(s@),
        Literal::Num(u) => LitModel::Num(u),
        Literal::Bool(b) => LitModel::Bool(b),
        Literal::Array(items) => LitModel::Array(lits_model(items@)),
    }
}

pub open spec fn lits_model(v: Seq<Literal>) -> Seq<LitModel>
    decreases v,
{
    if v.len() == 0 {
        Seq::<LitModel>::empty()
    } else {
        seq![lit_model(v[0])] + lits_model(v.drop_first())
    }
}

pub open spec fn strings_model(v: Seq<String>) -> Seq<Seq<char>> {
    v.map_values(|s: String| s@)
}

pub open spec fn pairs_model(v: Seq<(String, String)>) -> Seq<(Seq<char>, Seq<char>)> {
    v.map_values(|p: (String, String)| (p.0@, p.1@))
}

pub open spec fn expr_model(e: Expr) -> ExprModel
    decreases e,
{
    match e {
        Expr::Import { name, alias, module } => ExprModel::Import {
            name: name@,
            alias: match alias {
                Some(a) => Some(a@),
                None => None,
            },
            module: module@,
        },
        Expr::Function { params, types, body } => ExprModel::Function {
            params: strings_model(params@),
            types: pairs_model(types@),
            body: stmts_model(body@),
        },
        Expr::Call { callee, args } => ExprModel::Call {
            callee: Box::new(expr_model(*callee)),
            args: exprs_model(args@),
        },
        Expr::If { cond, then_body, else_body } => ExprModel::If {
            cond: Box::new(expr_model(*cond)),
            then_body: stmts_model(then_body@),
            else_body: match else_body {
                Some(b) => Some(stmts_model(b@)),
                None => None,
            },
        },
        Expr::Run(inner) => ExprModel::Run(Box::new(expr_model(*inner))),
        Expr::Return(inner) => ExprModel::Return(Box::new(expr_model(*inner))),
        Expr::Binary { left, op, right } => ExprModel::Binary {
            left: Box::new(expr_model(*left)),
            op: op@,
            right: Box::new(expr_model(*right)),
        },
        Expr::Var(name) => ExprModel::Var(name@),
        Expr::Lit(l) => ExprModel::Lit(lit_model(l)),
    }
}

pub open spec fn stmt_model(s: Stmt) -> StmtModel
    decreases s,
{
    match s {
        Stmt::Expr(e) => StmtModel::Expr(expr_model(e)),
        Stmt::FunctionDef(e) => StmtModel::FunctionDef(expr_model(e)),
        Stmt::ImportStmt(e) => StmtModel::ImportStmt(expr_model(e)),
        Stmt::Empty => StmtModel::Empty,
    }
}

pub open spec fn stmts_model(v: Seq<Stmt>) -> Seq<StmtModel>
    decreases v,
{
    if v.len() == 0 {
        Seq::<StmtModel>::empty()
    } else {
        seq![stmt_model(v[0])] + stmts_model(v.drop_first())
    }
}

pub open spec fn exprs_model(v: Seq<Expr>) -> Seq<ExprModel>
    decreases v,
{
    if v.len() == 0 {
        Seq::<ExprModel>::empty()
    } else {
        seq![expr_model(v[0])] + exprs_model(v.drop_first())
    }
}

/// The model of a statement sequence is the statements' models, in place.
pub proof fn lemma_stmts_model_index(v: Seq<Stmt>)
    ensures
        stmts_model(v).len() == v.len(),
        forall|i: int| 0 <= i < v.len() ==> stmts_model(v)[i] == stmt_model(v[i]),
    decreases v.len(),
{
    if v.len() > 0 {
        lemma_stmts_model_index(v.drop_first());
    }
}

/// The model of an expression sequence is the expressions' models, in place.
pub proof fn lemma_exprs_model_index(v: Seq<Expr>)
    ensures
        exprs_model(v).len() == v.len(),
        forall|i: int| 0 <= i < v.len() ==> exprs_model(v)[i] == expr_model(v[i]),
    decreases v.len(),
{
    if v.len() > 0 {
        lemma_exprs_model_index(v.drop_first());
    }
}

/// The model of a literal sequence is the literals' models, in place.
pub proof fn lemma_lits_model_index(v: Seq<Literal>)
    ensures
        lits_model(v).len() == v.len(),
        forall|i: int| 0 <= i < v.len() ==> lits_model(v)[i] == lit_model(v[i]),
    decreases v.len(),
{
    if v.len() > 0 {
        lemma_lits_model_index(v.drop_first());
    }
}

/// A copy of a string vector with the same characters in each place.
pub fn clone_strings(v: &Vec<String>) -> (r: Vec<String>)
    ensures
        r@ == v@,
{
    let mut out: Vec<String> = Vec::new();
    let mut i: usize = 0;
    while i < v.len()
        invariant
            i <= v@.len(),
            out@ == v@.take(i as int),
        decreases v@.len() - i,
    {
        out.push(v[i].clone());
        proof {
            assert(out@ =~= v@.take(i + 1 as int));
        }
        i = i + 1;
    }
    proof {
        assert(v@.take(v@.len() as int) =~= v@);
    }
    out
}

/// A copy of a string-pair vector.
pub fn clone_string_pairs(v: &Vec<(String, String)>) -> (r: Vec<(String, String)>)
    ensures
        r@ == v@,
{
    let mut out: Vec<(String, String)> = Vec::new();
    let mut i: usize = 0;
    while i < v.len()
        invariant
            i <= v@.len(),
            out@ == v@.take(i as int),
        decreases v@.len() - i,
    {
        let p = &v[i];
        out.push((p.0.clone(), p.1.clone()));
        proof {
            assert(out@ =~= v@.take(i + 1 as int));
        }
        i = i + 1;
    }
    proof {
        assert(v@.take(v@.len() as int) =~= v@);
    }
    out
}

/// A copy of a literal with the same model.
#[verifier::loop_isolation(false)]
pub fn clone_literal(l: &Literal) -> (r: Literal)
    ensures
        lit_model(r) == lit_model(*l),
    decreases *l,
{
    match l {
        Literal::Str(s) => Literal::Str(s.clone()),
        Literal::Num(u) => Literal::Num(*u),
        Literal::Bool(b) => Literal::Bool(*b),
        Literal::Array(items) => {
            let mut out: Vec<Literal> = Vec::new();
            let mut i: usize = 0;
            while i < items.len()
                invariant
                    i <= items@.len(),
                    out@.len() == i,
                    forall|j: int| 0 <= j < i ==> lit_model(out@[j]) == lit_model(items@[j]),
                decreases items@.len() - i,
            {
                out.push(clone_literal(&items[i]));
                i = i + 1;
            }
            proof {
                lemma_lits_model_index(out@);
                lemma_lits_model_index(items@);
                assert(lits_model(out@) =~= lits_model(items@));
            }
            Literal::Array(out)
        },
    }
}

/// A copy of an expression with the same model.
#[verifier::loop_isolation(false)]
pub fn clone_expr(e: &Expr) -> (r: Expr)
    ensures
        expr_model(r) == expr_model(*e),
    decreases *e,
{
    match e {
        Expr::Import { name, alias, module } => Expr::Import {
            name: name.clone(),
            alias: match alias {
                Some(a) => Some(a.clone()),
                None => None,
            },
            module: module.clone(),
        },
        Expr::Function { params, types, body } => Expr::Function {
            params: clone_strings(params),
            types: clone_string_pairs(types),
            body: clone_stmts(body),
        },
        Expr::Call { callee, args } => {
            let mut out: Vec<Expr> = Vec::new();
            let mut i: usize = 0;
            while i < args.len()
                invariant
                    i <= args@.len(),
                    out@.len() == i,
                    forall|j: int| 0 <= j < i ==> expr_model(out@[j]) == expr_model(args@[j]),
                decreases args@.len() - i,
            {
                out.push(clone_expr(&args[i]));
                i = i + 1;
            }
            proof {
                lemma_exprs_model_index(out@);
                lemma_exprs_model_index(args@);
                assert(exprs_model(out@) =~= exprs_model(args@));
            }
            Expr::Call { callee: Box::new(clone_expr(callee)), args: out }
        },
        Expr::If { cond, then_body, else_body } => Expr::If {
            cond: Box::new(clone_expr(cond)),
            then_body: clone_stmts(then_body),
            else_body: match else_body {
                Some(b) => Some(clone_stmts(b)),
                None => None,
            },
        },
        Expr::Run(inner) => Expr::Run(Box::new(clone_expr(inner))),
        Expr::Return(inner) => Expr::Return(Box::new(clone_expr(inner))),
        Expr::Binary { left, op, right } => Expr::Binary {
            left: Box::new(clone_expr(left)),
            op: op.clone(),
            right: Box::new(clone_expr(right)),
        },
        Expr::Var(name) => Expr::Var(name.clone()),
        Expr::Lit(l) => Expr::Lit(clone_literal(l)),
    }
}

/// A copy of a statement with the same model.
pub fn clone_stmt(s: &Stmt) -> (r: Stmt)
    ensures
        stmt_model(r) == stmt_model(*s),
    decreases *s,
{
    match s {
        Stmt::Expr(e) => Stmt::Expr(clone_expr(e)),
        Stmt::FunctionDef(e) => Stmt::FunctionDef(clone_expr(e)),
        Stmt::ImportStmt(e) => Stmt::ImportStmt(clone_expr(e)),
        Stmt::Empty => Stmt::Empty,
    }
}

/// A copy of a statement sequence with the same model.
#[verifier::loop_isolation(false)]
pub fn clone_stmts(v: &Vec<Stmt>) -> (r: Vec<Stmt>)
    ensures
        stmts_model(r@) == stmts_model(v@),
    decreases *v,
{
    let mut out: Vec<Stmt> = Vec::new();
    let mut i: usize = 0;
    while i < v.len()
        invariant
            i <= v@.len(),
            out@.len() == i,
            forall|j: int| 0 <= j < i ==> stmt_model(out@[j]) == stmt_model(v@[j]),
        decreases v@.len() - i,
    {
        out.push(clone_stmt(&v[i]));
        i = i + 1;
    }
    proof {
        lemma_stmts_model_index(out@);
        lemma_stmts_model_index(v@);
        assert(stmts_model(out@) =~= stmts_model(v@));
    }
    out
}

} // verus!
