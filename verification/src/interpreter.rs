//! The tree-walking evaluator.
//!
//! Execution walks statements against the environment: imports bind module
//! values, function definitions register closure values under generated
//! names, `if` picks a branch on a boolean condition, and the first `Return`
//! executed in a body short-circuits the rest and becomes the body's result.
//! Recoverable conditions (unknown modules, unbound variables, operand kind
//! mismatches, arity mismatches) resolve locally to null. Call depth is
//! bounded by a fuel argument: a call with no fuel left yields null.
//!
//! Each routine is proved against a specification twin over models.
//! Registration names mix a salt, drawn from a random source when the
//! interpreter is built, with a running counter held in the state.

use vstd::prelude::*;

use crate::ast::Expr;
use crate::ast::ExprModel;
use crate::ast::Literal;
use crate::ast::LitModel;
use crate::ast::Stmt;
use crate::ast::StmtModel;
use crate::ast::stmts_model;
use crate::ast::expr_model;
use crate::ast::stmt_model;
use crate::ast::lit_model;
use crate::ast::lits_model;
use crate::ast::exprs_model;
use crate::ast::lemma_stmts_model_index;
use crate::ast::lemma_exprs_model_index;
use crate::ast::lemma_lits_model_index;
use crate::environment::Environment;
use crate::environment::Function;
use crate::environment::FuncModel;
use crate::environment::ScopeModel;
use crate::environment::Value;
use crate::environment::ValModel;
use crate::environment::binds_set;
use crate::environment::binds_model;
use crate::environment::env_model;
use crate::environment::env_wf;
use crate::environment::spec_lookup;
use crate::environment::val_model;
use crate::environment::vals_model;
use crate::environment::lemma_vals_model_index;
use crate::environment::clone_value;
use crate::numbers::spec_plus_number;
use crate::numbers::spec_same_number;
use crate::numbers::spec_not_equal_number;
use crate::numbers::spec_render_number;
use crate::numbers::spec_digits;

verus! {

/// One observable event: a function registration or a returned value.
#[derive(Debug)]
pub enum LogEvent {
    Registered(String),
    Returned(Value),
}

/// The model of a log event.
pub enum LogEventModel {
    Registered(Seq<char>),
    Returned(ValModel),
}

pub open spec fn log_event_model(e: LogEvent) -> LogEventModel {
    match e {
        LogEvent::Registered(s) => LogEventModel::Registered(s@),
        LogEvent::Returned(v) => LogEventModel::Returned(val_model(v)),
    }
}

pub open spec fn log_model(v: Seq<LogEvent>) -> Seq<LogEventModel>
    decreases v,
{
    if v.len() == 0 {
        Seq::<LogEventModel>::empty()
    } else {
        seq![log_event_model(v[0])] + log_model(v.drop_first())
    }
}

pub proof fn lemma_log_model_index(v: Seq<LogEvent>)
    ensures
        log_model(v).len() == v.len(),
        forall|i: int| 0 <= i < v.len() ==> log_model(v)[i] == log_event_model(v[i]),
    decreases v.len(),
{
    if v.len() > 0 {
        lemma_log_model_index(v.drop_first());
    }
}

/// The interpreter's state: the environment, the host-supplied module
/// registry, and the log of observable events.
#[derive(Debug)]
pub struct Interp {
    pub env: Environment,
    pub modules: Vec<(String, Value)>,
    pub log: Vec<LogEvent>,
    pub salt: u32,
    pub counter: u64,
}

/// The model of the interpreter's state.
pub struct InterpModel {
    pub scopes: Seq<ScopeModel>,
    pub cur: usize,
    pub modules: Seq<(Seq<char>, ValModel)>,
    pub log: Seq<LogEventModel>,
    pub salt: u32,
    pub counter: u64,
}

pub open spec fn interp_model(it: Interp) -> InterpModel {
    InterpModel {
        scopes: env_model(it.env),
        cur: it.env.cur,
        modules: binds_model(it.modules@),
        log: log_model(it.log@),
        salt: it.salt,
        counter: it.counter,
    }
}

pub open spec fn interp_wf(it: Interp) -> bool {
    env_wf(it.env)
}

/// The value a literal denotes.
pub open spec fn lit_to_val(l: LitModel) -> ValModel
    decreases l,
{
    match l {
        LitModel::Str(s) => ValModel::Str(s),
        LitModel::Num(u) => ValModel::Num(u),
        LitModel::Bool(b) => ValModel::Bool(b),
        LitModel::Array(items) => ValModel::Arr(lits_to_vals(items)),
    }
}

pub open spec fn lits_to_vals(s: Seq<LitModel>) -> Seq<ValModel>
    decreases s,
{
    if s.len() == 0 {
        Seq::<ValModel>::empty()
    } else {
        seq![lit_to_val(s[0])] + lits_to_vals(s.drop_first())
    }
}

/// The binary-operator table: what `op` yields on two evaluated operands.
pub open spec fn spec_apply_binary(op: Seq<char>, a: ValModel, b: ValModel) -> ValModel {
    if op == "plus"@ {
        match (a, b) {
            (ValModel::Num(x), ValModel::Num(y)) => ValModel::Num(spec_plus_number(x, y)),
            (ValModel::Str(x), ValModel::Num(y)) => ValModel::Str(x + spec_render_number(y)),
            (ValModel::Str(x), ValModel::Str(y)) => ValModel::Str(x + y),
            _ => ValModel::Null,
        }
    } else if op == "and"@ {
        match (a, b) {
            (ValModel::Bool(x), ValModel::Bool(y)) => ValModel::Bool(x && y),
            _ => ValModel::Null,
        }
    } else if op == "same"@ {
        match (a, b) {
            (ValModel::Str(x), ValModel::Str(y)) => ValModel::Bool(x == y),
            (ValModel::Num(x), ValModel::Num(y)) => ValModel::Bool(spec_same_number(x, y)),
            _ => ValModel::Bool(false),
        }
    } else if op == "not_equal"@ {
        match (a, b) {
            (ValModel::Num(x), ValModel::Num(y)) => ValModel::Bool(
                spec_not_equal_number(x, y),
            ),
            (ValModel::Str(x), ValModel::Str(y)) => ValModel::Bool(x != y),
            _ => ValModel::Bool(true),
        }
    } else {
        ValModel::Null
    }
}

/// The module registry's entry for `name`, if any.
pub open spec fn find_module(ms: Seq<(Seq<char>, ValModel)>, name: Seq<char>) -> Option<
    ValModel,
>
    decreases ms.len(),
{
    if ms.len() == 0 {
        None
    } else if ms[0].0 == name {
        Some(ms[0].1)
    } else {
        find_module(ms.drop_first(), name)
    }
}

/// The state after binding `name` to `v` in the current scope.
pub open spec fn spec_bind(st: InterpModel, name: Seq<char>, v: ValModel) -> InterpModel {
    InterpModel {
        scopes: st.scopes.update(
            st.cur as int,
            ScopeModel {
                parent: st.scopes[st.cur as int].parent,
                binds: binds_set(st.scopes[st.cur as int].binds, name, v),
            },
        ),
        ..st
    }
}

/// The state after binding each parameter from `k` on to the matching
/// argument value; missing arguments bind null, excess arguments are
/// ignored.
pub open spec fn spec_bind_params_at(
    st: InterpModel,
    params: Seq<Seq<char>>,
    args: Seq<ValModel>,
    k: int,
) -> InterpModel
    decreases params.len() - k,
{
    if k < 0 || k >= params.len() {
        st
    } else {
        let v = if k < args.len() {
            args[k]
        } else {
            ValModel::Null
        };
        spec_bind_params_at(spec_bind(st, params[k], v), params, args, k + 1)
    }
}

/// The name registered for the next function definition: a marker joined to
/// the decimal digits of the drawn salt and of the registration counter.
pub open spec fn fn_name_of(salt: u32, counter: u64) -> Seq<char> {
    "__fn_"@ + spec_digits(salt as int) + seq!['_'] + spec_digits(counter as int)
}

/// The outcome of evaluating an expression: its value, a pending return
/// signal, and the state after.
pub struct EvalOut {
    pub v: ValModel,
    pub ret: Option<ValModel>,
    pub st: InterpModel,
}

/// The outcome of executing statements: a pending return signal and the
/// state after.
pub struct StmtOut {
    pub ret: Option<ValModel>,
    pub st: InterpModel,
}

/// The outcome of evaluating an argument list.
pub struct ArgsOut {
    pub vals: Seq<ValModel>,
    pub ret: Option<ValModel>,
    pub st: InterpModel,
}

pub open spec fn spec_eval_expr(e: ExprModel, st: InterpModel, fuel: nat) -> EvalOut
    decreases fuel, e, 1int,
{
    match e {
        ExprModel::Lit(l) => EvalOut { v: lit_to_val(l), ret: None, st },
        ExprModel::Var(name) => {
            let v = match spec_lookup(st.scopes, st.cur as int, name) {
                Some(v) => v,
                None => ValModel::Null,
            };
            EvalOut { v, ret: None, st }
        },
        ExprModel::Binary { left, op, right } => {
            let el = spec_eval_expr(*left, st, fuel);
            if el.ret is Some {
                EvalOut { v: ValModel::Null, ret: el.ret, st: el.st }
            } else {
                let er = spec_eval_expr(*right, el.st, fuel);
                if er.ret is Some {
                    EvalOut { v: ValModel::Null, ret: er.ret, st: er.st }
                } else {
                    EvalOut { v: spec_apply_binary(op, el.v, er.v), ret: None, st: er.st }
                }
            }
        },
        ExprModel::If { cond, then_body, else_body } => {
            let ec = spec_eval_expr(*cond, st, fuel);
            if ec.ret is Some {
                EvalOut { v: ValModel::Null, ret: ec.ret, st: ec.st }
            } else {
                if ec.v == ValModel::Bool(true) {
                    let r = spec_exec_stmts_at(then_body, ec.st, fuel, 0);
                    EvalOut { v: ValModel::Null, ret: r.ret, st: r.st }
                } else {
                    match else_body {
                        Some(els) => {
                            let r = spec_exec_stmts_at(els, ec.st, fuel, 0);
                            EvalOut { v: ValModel::Null, ret: r.ret, st: r.st }
                        },
                        None => EvalOut { v: ValModel::Null, ret: None, st: ec.st },
                    }
                }
            }
        },
        ExprModel::Run(inner) => spec_eval_expr(*inner, st, fuel),
        ExprModel::Return(inner) => {
            let ei = spec_eval_expr(*inner, st, fuel);
            if ei.ret is Some {
                ei
            } else {
                EvalOut {
                    v: ei.v,
                    ret: Some(ei.v),
                    st: InterpModel {
                        log: ei.st.log.push(LogEventModel::Returned(ei.v)),
                        ..ei.st
                    },
                }
            }
        },
        ExprModel::Call { callee, args } => {
            let ec = spec_eval_expr(*callee, st, fuel);
            if ec.ret is Some {
                EvalOut { v: ValModel::Null, ret: ec.ret, st: ec.st }
            } else {
                match ec.v {
                    ValModel::Func(f) => {
                        let ea = spec_eval_args(args, ec.st, fuel);
                        if ea.ret is Some {
                            EvalOut { v: ValModel::Null, ret: ea.ret, st: ea.st }
                        } else if fuel == 0 || f.scope >= ea.st.scopes.len() {
                            EvalOut { v: ValModel::Null, ret: None, st: ea.st }
                        } else {
                            let entered = InterpModel {
                                scopes: ea.st.scopes.push(
                                    ScopeModel {
                                        parent: Some(f.scope),
                                        binds: Seq::<(Seq<char>, ValModel)>::empty(),
                                    },
                                ),
                                cur: ea.st.scopes.len() as usize,
                                ..ea.st
                            };
                            let bound = spec_bind_params_at(entered, f.params, ea.vals, 0);
                            let r = spec_exec_stmts_at(f.body, bound, (fuel - 1) as nat, 0);
                            let result = match r.ret {
                                Some(v) => v,
                                None => ValModel::Null,
                            };
                            EvalOut {
                                v: result,
                                ret: None,
                                st: InterpModel { cur: ea.st.cur, ..r.st },
                            }
                        }
                    },
                    _ => EvalOut { v: ValModel::Null, ret: None, st: ec.st },
                }
            }
        },
        ExprModel::Import { .. } => EvalOut { v: ValModel::Null, ret: None, st },
        ExprModel::Function { params, types, body } => EvalOut {
            v: ValModel::Func(FuncModel { params, types, body, scope: st.cur }),
            ret: None,
            st,
        },
    }
}

pub open spec fn spec_eval_args(
    args: Seq<ExprModel>,
    st: InterpModel,
    fuel: nat,
) -> ArgsOut
    decreases fuel, args, 2int,
{
    if args.len() == 0 {
        ArgsOut { vals: Seq::<ValModel>::empty(), ret: None, st }
    } else {
        let e = spec_eval_expr(args[0], st, fuel);
        if e.ret is Some {
            ArgsOut { vals: Seq::<ValModel>::empty(), ret: e.ret, st: e.st }
        } else {
            let rest = spec_eval_args(args.drop_first(), e.st, fuel);
            ArgsOut { vals: seq![e.v] + rest.vals, ret: rest.ret, st: rest.st }
        }
    }
}

pub open spec fn spec_exec_stmt(s: StmtModel, st: InterpModel, fuel: nat) -> StmtOut
    decreases fuel, s, 2int,
{
    match s {
        StmtModel::ImportStmt(e) => {
            match e {
                ExprModel::Import { name, alias, module } => {
                    let bound_name = match alias {
                        Some(a) => a,
                        None => name,
                    };
                    let v = match find_module(st.modules, module) {
                        Some(v) => v,
                        None => ValModel::Null,
                    };
                    StmtOut { ret: None, st: spec_bind(st, bound_name, v) }
                },
                _ => StmtOut { ret: None, st },
            }
        },
        StmtModel::FunctionDef(e) => {
            match e {
                ExprModel::Function { params, types, body } => {
                    let name = fn_name_of(st.salt, st.counter);
                    let v = ValModel::Func(
                        FuncModel { params, types, body, scope: st.cur },
                    );
                    let st1 = spec_bind(st, name, v);
                    StmtOut {
                        ret: None,
                        st: InterpModel {
                            log: st1.log.push(LogEventModel::Registered(name)),
                            counter: if st1.counter < 0xffff_ffff_ffff_ffff {
                                (st1.counter + 1) as u64
                            } else {
                                st1.counter
                            },
                            ..st1
                        },
                    }
                },
                _ => StmtOut { ret: None, st },
            }
        },
        StmtModel::Expr(e) => {
            let r = spec_eval_expr(e, st, fuel);
            StmtOut { ret: r.ret, st: r.st }
        },
        StmtModel::Empty => StmtOut { ret: None, st },
    }
}

/// Statements run in order from `k`; the first pending return stops the
/// rest.
pub open spec fn spec_exec_stmts_at(
    ss: Seq<StmtModel>,
    st: InterpModel,
    fuel: nat,
    k: int,
) -> StmtOut
    decreases fuel, ss, 3int, ss.len() - k,
{
    if k < 0 || k >= ss.len() {
        StmtOut { ret: None, st }
    } else {
        let r = spec_exec_stmt(ss[k], st, fuel);
        if r.ret is Some {
            r
        } else {
            spec_exec_stmts_at(ss, r.st, fuel, k + 1)
        }
    }
}

/// Statements run in order; the first pending return stops the rest.
pub open spec fn spec_exec_stmts_m(ss: Seq<StmtModel>, st: InterpModel, fuel: nat) -> StmtOut
    decreases fuel, ss, 4int,
{
    spec_exec_stmts_at(ss, st, fuel, 0)
}


/// The model of an optional value.
pub open spec fn opt_val_model(o: Option<Value>) -> Option<ValModel> {
    match o {
        Some(v) => Some(val_model(v)),
        None => None,
    }
}

/// The literals' values, elementwise.
pub proof fn lemma_lits_to_vals_index(s: Seq<LitModel>)
    ensures
        lits_to_vals(s).len() == s.len(),
        forall|i: int| 0 <= i < s.len() ==> lits_to_vals(s)[i] == lit_to_val(s[i]),
    decreases s.len(),
{
    if s.len() > 0 {
        lemma_lits_to_vals_index(s.drop_first());
    }
}

/// The log with one event appended models as the old log plus that event.
pub proof fn lemma_log_model_push(v: Seq<LogEvent>, e: LogEvent)
    ensures
        log_model(v.push(e)) == log_model(v).push(log_event_model(e)),
{
    lemma_log_model_index(v.push(e));
    lemma_log_model_index(v);
    assert(log_model(v.push(e)) =~= log_model(v).push(log_event_model(e)));
}

/// The value a literal denotes.
#[verifier::loop_isolation(false)]
pub fn literal_value(l: &Literal) -> (r: Value)
    ensures
        val_model(r) == lit_to_val(lit_model(*l)),
    decreases *l,
{
    match l {
        Literal::Str(s) => Value::Str(s.clone()),
        Literal::Num(u) => Value::Num(*u),
        Literal::Bool(b) => Value::Bool(*b),
        Literal::Array(items) => {
            let mut out: Vec<Value> = Vec::new();
            let mut i: usize = 0;
            while i < items.len()
                invariant
                    i <= items@.len(),
                    out@.len() == i,
                    forall|j: int|
                        0 <= j < i ==> val_model(out@[j]) == lit_to_val(lit_model(items@[j])),
                decreases items@.len() - i,
            {
                out.push(literal_value(&items[i]));
                i = i + 1;
            }
            proof {
                lemma_vals_model_index(out@);
                lemma_lits_model_index(items@);
                lemma_lits_to_vals_index(lits_model(items@));
                assert(vals_model(out@) =~= lits_to_vals(lits_model(items@)));
            }
            Value::Arr(out)
        },
    }
}

/// Applies a binary operator to two evaluated operands, per the table.
pub fn apply_binary(op: &String, a: Value, b: Value) -> (r: Value)
    ensures
        val_model(r) == spec_apply_binary(op@, val_model(a), val_model(b)),
{
    if crate::text::str_eq(op.as_str(), "plus") {
        match (a, b) {
            (Value::Num(x), Value::Num(y)) => Value::Num(crate::numbers::plus_number(x, y)),
            (Value::Str(x), Value::Num(y)) => {
                let rendered = crate::numbers::render_number(y);
                Value::Str(x.concat(rendered.as_str()))
            },
            (Value::Str(x), Value::Str(y)) => Value::Str(x.concat(y.as_str())),
            _ => Value::Null,
        }
    } else if crate::text::str_eq(op.as_str(), "and") {
        match (a, b) {
            (Value::Bool(x), Value::Bool(y)) => Value::Bool(x && y),
            _ => Value::Null,
        }
    } else if crate::text::str_eq(op.as_str(), "same") {
        match (a, b) {
            (Value::Str(x), Value::Str(y)) => Value::Bool(x == y),
            (Value::Num(x), Value::Num(y)) => Value::Bool(
                crate::numbers::same_number(x, y),
            ),
            _ => Value::Bool(false),
        }
    } else if crate::text::str_eq(op.as_str(), "not_equal") {
        match (a, b) {
            (Value::Num(x), Value::Num(y)) => Value::Bool(
                crate::numbers::not_equal_number(x, y),
            ),
            (Value::Str(x), Value::Str(y)) => Value::Bool(!(x == y)),
            _ => Value::Bool(true),
        }
    } else {
        Value::Null
    }
}

/// The registry entry for `name` from position `k` on, if any.
fn find_module_at(ms: &Vec<(String, Value)>, k: usize, name: &str) -> (r: Option<Value>)
    requires
        k <= ms@.len(),
    ensures
        match r {
            Some(v) => find_module(binds_model(ms@).skip(k as int), name@) == Some(
                val_model(v),
            ),
            None => find_module(binds_model(ms@).skip(k as int), name@) is None,
        },
    decreases ms@.len() - k,
{
    proof {
        crate::environment::lemma_binds_model_index(ms@);
    }
    if k >= ms.len() {
        proof {
            assert(binds_model(ms@).skip(k as int) =~= Seq::<(Seq<char>, ValModel)>::empty());
        }
        return None;
    }
    proof {
        assert(binds_model(ms@).skip(k as int)[0] == binds_model(ms@)[k as int]);
        assert(binds_model(ms@).skip(k as int).drop_first() =~= binds_model(ms@).skip(
            k + 1 as int,
        ));
    }
    if crate::text::str_eq(ms[k].0.as_str(), name) {
        Some(clone_value(&ms[k].1))
    } else {
        find_module_at(ms, k + 1, name)
    }
}

/// Relies on rand's `random`: a value drawn from the thread-local generator.
pub assume_specification<T>[ rand::random::<T> ]() -> (r: T)
    where
        rand::distributions::Standard: rand::distributions::Distribution<T>,
;

/// The generated name for the next function registration.
pub fn make_fn_name(salt: u32, counter: u64) -> (r: String)
    ensures
        r@ == fn_name_of(salt, counter),
{
    let mut out: Vec<char> = Vec::new();
    out.push('_');
    out.push('_');
    out.push('f');
    out.push('n');
    out.push('_');
    crate::numbers::push_digits(salt as u128, &mut out);
    out.push('_');
    crate::numbers::push_digits(counter as u128, &mut out);
    let r = crate::text::string_from_chars(&out);
    proof {
        reveal_strlit("__fn_");
        assert(r@ =~= fn_name_of(salt, counter));
    }
    r
}

/// Binds each parameter from `k` on to the matching argument value; missing
/// arguments bind null, excess arguments are ignored.
#[verifier::rlimit(100)]
fn bind_params_at(params: &Vec<String>, argv: &Vec<Value>, k: usize, it: &mut Interp)
    requires
        interp_wf(*old(it)),
        k <= params@.len(),
    ensures
        interp_wf(*final(it)),
        interp_model(*final(it)).scopes.len() >= interp_model(*old(it)).scopes.len(),
        interp_model(*final(it)) == spec_bind_params_at(
            interp_model(*old(it)),
            crate::ast::strings_model(params@),
            vals_model(argv@),
            k as int,
        ),
    decreases params@.len() - k,
{
    proof {
        lemma_vals_model_index(argv@);
    }
    if k >= params.len() {
        return ;
    }
    let v: Value = if k < argv.len() {
        clone_value(&argv[k])
    } else {
        Value::Null
    };
    let ghost st0 = interp_model(*it);
    let ghost vm = val_model(v);
    it.env.set(params[k].as_str(), v);
    proof {
        assert(interp_model(*it) == spec_bind(st0, params@[k as int]@, vm));
        assert(interp_model(*it).scopes.len() == st0.scopes.len());
    }
    bind_params_at(params, argv, k + 1, it);
}

/// Evaluates one expression: its value and a pending return signal.
#[verifier::rlimit(100)]
#[verifier::spinoff_prover]
pub fn eval_expr(e: &Expr, it: &mut Interp, fuel: u64) -> (r: (Value, Option<Value>))
    requires
        interp_wf(*old(it)),
    ensures
        interp_wf(*final(it)),
        interp_model(*final(it)).scopes.len() >= interp_model(*old(it)).scopes.len(),
        ({
            let out = spec_eval_expr(expr_model(*e), interp_model(*old(it)), fuel as nat);
            &&& val_model(r.0) == out.v
            &&& opt_val_model(r.1) == out.ret
            &&& interp_model(*final(it)) == out.st
        }),
    decreases fuel, *e, 1int, 0int,
{
    match e {
        Expr::Lit(l) => (literal_value(l), None),
        Expr::Var(name) => {
            let v = match it.env.get(name.as_str()) {
                Some(v) => v,
                None => Value::Null,
            };
            (v, None)
        },
        Expr::Binary { left, op, right } => {
            let el = eval_expr(left, it, fuel);
            if el.1.is_some() {
                return (Value::Null, el.1);
            }
            let er = eval_expr(right, it, fuel);
            if er.1.is_some() {
                return (Value::Null, er.1);
            }
            (apply_binary(op, el.0, er.0), None)
        },
        Expr::If { cond, then_body, else_body } => {
            let ec = eval_expr(cond, it, fuel);
            if ec.1.is_some() {
                return (Value::Null, ec.1);
            }
            let take_then: bool = match &ec.0 {
                Value::Bool(b) => *b,
                _ => false,
            };
            if take_then {
                let r = exec_stmts_at(then_body, 0, it, fuel);
                (Value::Null, r)
            } else {
                match else_body {
                    Some(els) => {
                        let r = exec_stmts_at(els, 0, it, fuel);
                        (Value::Null, r)
                    },
                    None => (Value::Null, None),
                }
            }
        },
        Expr::Run(inner) => eval_expr(inner, it, fuel),
        Expr::Return(inner) => {
            let ei = eval_expr(inner, it, fuel);
            if ei.1.is_some() {
                return ei;
            }
            let for_ret = clone_value(&ei.0);
            let for_log = clone_value(&ei.0);
            let ghost log0 = it.log@;
            it.log.push(LogEvent::Returned(for_log));
            proof {
                lemma_log_model_push(log0, it.log@.last());
            }
            (ei.0, Some(for_ret))
        },
        Expr::Call { callee, args } => {
            let ec = eval_expr(callee, it, fuel);
            if ec.1.is_some() {
                return (Value::Null, ec.1);
            }
            match ec.0 {
                Value::Func(f) => {
                    proof {
                        assert(exprs_model(args@).skip(0) =~= exprs_model(args@));
                    }
                    let ea = eval_args_at(args, 0, it, fuel);
                    if ea.1.is_some() {
                        return (Value::Null, ea.1);
                    }
                    proof {
                        crate::environment::lemma_scopes_model_index(it.env.scopes@);
                    }
                    if fuel == 0 || f.scope >= it.env.scopes.len() {
                        return (Value::Null, None);
                    }
                    let ghost st_args = interp_model(*it);
                    let saved = it.env.cur;
                    let idx = it.env.child_of(f.scope);
                    it.env.cur = idx;
                    proof {
                        crate::environment::lemma_scopes_model_index(it.env.scopes@);
                        assert(interp_model(*it) == InterpModel {
                            scopes: st_args.scopes.push(
                                ScopeModel {
                                    parent: Some(f.scope),
                                    binds: Seq::<(Seq<char>, ValModel)>::empty(),
                                },
                            ),
                            cur: st_args.scopes.len() as usize,
                            ..st_args
                        });
                    }
                    bind_params_at(&f.params, &ea.0, 0, it);
                    let body_ret = exec_stmts_at(&f.body, 0, it, fuel - 1);
                    let ghost bodyst = interp_model(*it);
                    proof {
                        crate::environment::lemma_scopes_model_index(it.env.scopes@);
                        assert(saved < it.env.scopes@.len());
                    }
                    it.env.cur = saved;
                    proof {
                        assert(interp_model(*it) == InterpModel { cur: saved, ..bodyst });
                        assert(env_wf(it.env));
                    }
                    let result = match body_ret {
                        Some(v) => v,
                        None => Value::Null,
                    };
                    proof {
                        let outx = spec_eval_expr(
                            expr_model(*e),
                            interp_model(*old(it)),
                            fuel as nat,
                        );
                        assert(interp_model(*it) == outx.st);
                        assert(val_model(result) == outx.v);
                    }
                    (result, None)
                },
                _ => (Value::Null, None),
            }
        },
        Expr::Import { .. } => (Value::Null, None),
        Expr::Function { params, types, body } => {
            let f = Function {
                params: crate::ast::clone_strings(params),
                types: crate::ast::clone_string_pairs(types),
                body: crate::ast::clone_stmts(body),
                scope: it.env.cur,
            };
            proof {
                let outx = spec_eval_expr(
                    expr_model(*e),
                    interp_model(*old(it)),
                    fuel as nat,
                );
                assert(val_model(Value::Func(f)) == outx.v);
            }
            (Value::Func(f), None)
        },
    }
}

/// Evaluates the argument expressions from `k` on, left to right.
#[verifier::rlimit(100)]
fn eval_args_at(args: &Vec<Expr>, k: usize, it: &mut Interp, fuel: u64) -> (r: (
    Vec<Value>,
    Option<Value>,
))
    requires
        interp_wf(*old(it)),
        k <= args@.len(),
    ensures
        interp_wf(*final(it)),
        interp_model(*final(it)).scopes.len() >= interp_model(*old(it)).scopes.len(),
        ({
            let out = spec_eval_args(
                exprs_model(args@).skip(k as int),
                interp_model(*old(it)),
                fuel as nat,
            );
            &&& vals_model(r.0@) == out.vals
            &&& opt_val_model(r.1) == out.ret
            &&& interp_model(*final(it)) == out.st
        }),
    decreases fuel, *args, 2int, args@.len() - k,
{
    proof {
        lemma_exprs_model_index(args@);
    }
    if k >= args.len() {
        let r = (Vec::<Value>::new(), None::<Value>);
        proof {
            assert(exprs_model(args@).skip(k as int) =~= Seq::<ExprModel>::empty());
            assert(vals_model(r.0@) =~= Seq::<ValModel>::empty());
        }
        return r;
    }
    proof {
        assert(exprs_model(args@).skip(k as int)[0] == expr_model(args@[k as int]));
        assert(exprs_model(args@).skip(k as int).drop_first() =~= exprs_model(args@).skip(
            k + 1 as int,
        ));
    }
    let e = eval_expr(&args[k], it, fuel);
    if e.1.is_some() {
        let r = (Vec::<Value>::new(), e.1);
        proof {
            assert(vals_model(r.0@) =~= Seq::<ValModel>::empty());
        }
        return r;
    }
    let rest = eval_args_at(args, k + 1, it, fuel);
    let ghost rvm = vals_model(rest.0@);
    let ghost rs = rest.0@;
    let mut v = rest.0;
    let ghost ev = val_model(e.0);
    v.insert(0, e.0);
    proof {
        assert(v@.drop_first() =~= rs);
        lemma_vals_model_index(v@);
        lemma_vals_model_index(rs);
        assert(vals_model(v@) =~= seq![ev] + rvm);
    }
    (v, rest.1)
}

/// Executes one statement; the result is its pending return signal.
#[verifier::rlimit(100)]
pub fn exec_stmt(s: &Stmt, it: &mut Interp, fuel: u64) -> (r: Option<Value>)
    requires
        interp_wf(*old(it)),
    ensures
        interp_wf(*final(it)),
        interp_model(*final(it)).scopes.len() >= interp_model(*old(it)).scopes.len(),
        ({
            let out = spec_exec_stmt(stmt_model(*s), interp_model(*old(it)), fuel as nat);
            &&& opt_val_model(r) == out.ret
            &&& interp_model(*final(it)) == out.st
        }),
    decreases fuel, *s, 2int, 0int,
{
    match s {
        Stmt::ImportStmt(e) => {
            match e {
                Expr::Import { name, alias, module } => {
                    let bname: &String = match alias {
                        Some(a) => a,
                        None => name,
                    };
                    let found = find_module_at(&it.modules, 0, module.as_str());
                    proof {
                        assert(binds_model(it.modules@).skip(0) =~= binds_model(it.modules@));
                    }
                    let bv = match found {
                        Some(v) => v,
                        None => Value::Null,
                    };
                    let ghost st0 = interp_model(*it);
                    it.env.set(bname.as_str(), bv);
                    proof {
                        assert(interp_model(*it).scopes.len() == st0.scopes.len());
                    }
                    None
                },
                _ => None,
            }
        },
        Stmt::FunctionDef(e) => {
            match e {
                Expr::Function { params, types, body } => {
                    let name = make_fn_name(it.salt, it.counter);
                    let func = Function {
                        params: crate::ast::clone_strings(params),
                        types: crate::ast::clone_string_pairs(types),
                        body: crate::ast::clone_stmts(body),
                        scope: it.env.cur,
                    };
                    let ghost st0 = interp_model(*it);
                    it.env.set(name.as_str(), Value::Func(func));
                    proof {
                        assert(interp_model(*it).scopes.len() == st0.scopes.len());
                    }
                    let ghost log0 = it.log@;
                    it.log.push(LogEvent::Registered(name));
                    proof {
                        lemma_log_model_push(log0, it.log@.last());
                    }
                    if it.counter < 0xffff_ffff_ffff_ffff {
                        it.counter = it.counter + 1;
                    }
                    None
                },
                _ => None,
            }
        },
        Stmt::Expr(e) => {
            let r = eval_expr(e, it, fuel);
            r.1
        },
        Stmt::Empty => None,
    }
}

/// Executes statements in order from `k`; the first pending return stops
/// the rest and is the result.
#[verifier::rlimit(100)]
pub fn exec_stmts_at(ss: &Vec<Stmt>, k: usize, it: &mut Interp, fuel: u64) -> (r: Option<
    Value,
>)
    requires
        interp_wf(*old(it)),
        k <= ss@.len(),
    ensures
        interp_wf(*final(it)),
        interp_model(*final(it)).scopes.len() >= interp_model(*old(it)).scopes.len(),
        ({
            let out = spec_exec_stmts_at(
                stmts_model(ss@),
                interp_model(*old(it)),
                fuel as nat,
                k as int,
            );
            &&& opt_val_model(r) == out.ret
            &&& interp_model(*final(it)) == out.st
        }),
    decreases fuel, *ss, 3int, ss@.len() - k,
{
    proof {
        lemma_stmts_model_index(ss@);
    }
    if k >= ss.len() {
        return None;
    }
    let r = exec_stmt(&ss[k], it, fuel);
    if r.is_some() {
        return r;
    }
    exec_stmts_at(ss, k + 1, it, fuel)
}

impl Interp {
    /// A fresh interpreter over an environment and a module registry, with
    /// an empty log and a newly drawn name salt.
    pub fn new(env: Environment, modules: Vec<(String, Value)>) -> (r: Interp)
        ensures
            env_model(r.env) == env_model(env),
            r.env.cur == env.cur,
            binds_model(r.modules@) == binds_model(modules@),
            r.log@.len() == 0,
            r.counter == 0,
            env_wf(env) ==> interp_wf(r),
    {
        let salt: u32 = rand::random::<u32>();
        Interp { env, modules, log: Vec::new(), salt, counter: 0 }
    }
}

/// Executes a program's statements against the interpreter's state, to
/// completion or to the first top-level return, with calls nested at most
/// `fuel` deep.
pub fn interpret(program: &Vec<Stmt>, it: &mut Interp, fuel: u64)
    requires
        interp_wf(*old(it)),
    ensures
        interp_wf(*final(it)),
        interp_model(*final(it)).scopes.len() >= interp_model(*old(it)).scopes.len(),
        interp_model(*final(it)) == spec_exec_stmts_m(
            stmts_model(program@),
            interp_model(*old(it)),
            fuel as nat,
        ).st,
{
    let _r = exec_stmts_at(program, 0, it, fuel);
}

} // verus!
