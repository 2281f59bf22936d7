//! Runtime values and the chained-scope environment.
//!
//! Scopes live in an arena: each scope names its parent by index, and a
//! function value captures its defining scope by index, which gives closures
//! shared, read-only sight of outer bindings. Lookup walks from a scope
//! outward along the parent chain and yields the first binding found.

use vstd::prelude::*;

use crate::ast::Stmt;
use crate::ast::StmtModel;
use crate::ast::stmts_model;
use crate::ast::strings_model;
use crate::ast::pairs_model;
use crate::ast::clone_strings;
use crate::ast::clone_string_pairs;
use crate::ast::clone_stmts;

verus! {

/// A function value: parameters, declared parameter types, body, and the
/// index of its defining scope.
#[derive(Debug)]
pub struct Function {
    pub params: Vec<String>,
    pub types: Vec<(String, String)>,
    pub body: Vec<Stmt>,
    pub scope: usize,
}

/// A runtime value.
#[derive(Debug)]
pub enum Value {
    Str(String),
    Num(u128),
    Bool(bool),
    Arr(Vec<Value>),
    Func(Function),
    Null,
}

/// The model of a function value.
pub struct FuncModel {
    pub params: Seq<Seq<char>>,
    pub types: Seq<(Seq<char>, Seq<char>)>,
    pub body: Seq<StmtModel>,
    pub scope: usize,
}

/// The model of a runtime value.
pub enum ValModel {
    Str(Seq<char>),
    Num(u128),
    Bool(bool),
    Arr(Seq<ValModel>),
    Func(FuncModel),
    Null,
}

pub open spec fn func_model(f: Function) -> FuncModel {
    FuncModel {
        params: strings_model(f.params@),
        types: pairs_model(f.types@),
        body: stmts_model(f.body@),
        scope: f.scope,
    }
}

pub open spec fn val_model(v: Value) -> ValModel
    decreases v,
{
    match v {
        Value::Str(s) => ValModel::Str(s@),
        Value::Num(u) => ValModel::Num(u),
        Value::Bool(b) => ValModel::Bool(b),
        Value::Arr(items) => ValModel::Arr(vals_model(items@)),
        Value::Func(f) => ValModel::Func(func_model(f)),
        Value::Null => ValModel::Null,
    }
}

pub open spec fn vals_model(s: Seq<Value>) -> Seq<ValModel>
    decreases s,
{
    if s.len() == 0 {
        Seq::<ValModel>::empty()
    } else {
        seq![val_model(s[0])] + vals_model(s.drop_first())
    }
}

/// The model of a value sequence is the values' models, in place.
pub proof fn lemma_vals_model_index(v: Seq<Value>)
    ensures
        vals_model(v).len() == v.len(),
        forall|i: int| 0 <= i < v.len() ==> vals_model(v)[i] == val_model(v[i]),
    decreases v.len(),
{
    if v.len() > 0 {
        lemma_vals_model_index(v.drop_first());
    }
}

/// A copy of a function value with the same model.
pub fn clone_function(f: &Function) -> (r: Function)
    ensures
        func_model(r) == func_model(*f),
{
    Function {
        params: clone_strings(&f.params),
        types: clone_string_pairs(&f.types),
        body: clone_stmts(&f.body),
        scope: f.scope,
    }
}

/// A copy of a value with the same model.
#[verifier::loop_isolation(false)]
pub fn clone_value(v: &Value) -> (r: Value)
    ensures
        val_model(r) == val_model(*v),
    decreases *v,
{
    match v {
        Value::Str(s) => Value::Str(s.clone()),
        Value::Num(u) => Value::Num(*u),
        Value::Bool(b) => Value::Bool(*b),
        Value::Arr(items) => {
            let mut out: Vec<Value> = Vec::new();
            let mut i: usize = 0;
            while i < items.len()
                invariant
                    i <= items@.len(),
                    out@.len() == i,
                    forall|j: int| 0 <= j < i ==> val_model(out@[j]) == val_model(items@[j]),
                decreases items@.len() - i,
            {
                out.push(clone_value(&items[i]));
                i = i + 1;
            }
            proof {
                lemma_vals_model_index(out@);
                lemma_vals_model_index(items@);
                assert(vals_model(out@) =~= vals_model(items@));
            }
            Value::Arr(out)
        },
        Value::Func(f) => Value::Func(clone_function(f)),
        Value::Null => Value::Null,
    }
}

/// One scope: its parent's index and its bindings, in insertion order.
#[derive(Debug)]
pub struct Scope {
    pub parent: Option<usize>,
    pub binds: Vec<(String, Value)>,
}

/// The model of one scope.
pub struct ScopeModel {
    pub parent: Option<usize>,
    pub binds: Seq<(Seq<char>, ValModel)>,
}

pub open spec fn binds_model(v: Seq<(String, Value)>) -> Seq<(Seq<char>, ValModel)>
    decreases v,
{
    if v.len() == 0 {
        Seq::<(Seq<char>, ValModel)>::empty()
    } else {
        seq![(v[0].0@, val_model(v[0].1))] + binds_model(v.drop_first())
    }
}

pub proof fn lemma_binds_model_index(v: Seq<(String, Value)>)
    ensures
        binds_model(v).len() == v.len(),
        forall|i: int|
            0 <= i < v.len() ==> binds_model(v)[i] == (v[i].0@, val_model(v[i].1)),
    decreases v.len(),
{
    if v.len() > 0 {
        lemma_binds_model_index(v.drop_first());
    }
}

pub open spec fn scope_model(s: Scope) -> ScopeModel {
    ScopeModel { parent: s.parent, binds: binds_model(s.binds@) }
}

pub open spec fn scopes_model(v: Seq<Scope>) -> Seq<ScopeModel>
    decreases v,
{
    if v.len() == 0 {
        Seq::<ScopeModel>::empty()
    } else {
        seq![scope_model(v[0])] + scopes_model(v.drop_first())
    }
}

pub proof fn lemma_scopes_model_index(v: Seq<Scope>)
    ensures
        scopes_model(v).len() == v.len(),
        forall|i: int| 0 <= i < v.len() ==> scopes_model(v)[i] == scope_model(v[i]),
    decreases v.len(),
{
    if v.len() > 0 {
        lemma_scopes_model_index(v.drop_first());
    }
}

/// The chained-scope environment: the scope arena and the current scope.
#[derive(Debug)]
pub struct Environment {
    pub scopes: Vec<Scope>,
    pub cur: usize,
}

pub open spec fn env_model(e: Environment) -> Seq<ScopeModel> {
    scopes_model(e.scopes@)
}

/// Every scope's parent comes earlier in the arena, so parent chains are
/// finite, and the current scope exists.
pub open spec fn env_wf(e: Environment) -> bool {
    &&& e.cur < e.scopes@.len()
    &&& forall|i: int|
        0 <= i < env_model(e).len() ==> match (#[trigger] env_model(e)[i]).parent {
            Some(p) => p < i,
            None => true,
        }
}

/// The first binding of `name` in a scope's bindings.
pub open spec fn lookup_in_binds(bs: Seq<(Seq<char>, ValModel)>, name: Seq<char>) -> Option<
    ValModel,
>
    decreases bs.len(),
{
    if bs.len() == 0 {
        None
    } else if bs[0].0 == name {
        Some(bs[0].1)
    } else {
        lookup_in_binds(bs.drop_first(), name)
    }
}

/// Lookup from scope `s` outward along the parent chain.
pub open spec fn spec_lookup(m: Seq<ScopeModel>, s: int, name: Seq<char>) -> Option<ValModel>
    decreases (if s < 0 {
        0
    } else {
        s + 1
    }),
{
    if s < 0 || s >= m.len() {
        None
    } else {
        match lookup_in_binds(m[s].binds, name) {
            Some(v) => Some(v),
            None => match m[s].parent {
                Some(p) => if p < s {
                    spec_lookup(m, p as int, name)
                } else {
                    None
                },
                None => None,
            },
        }
    }
}

/// Bindings after `set`: the first binding of `name` is replaced, or a new
/// one is appended.
pub open spec fn binds_set(
    bs: Seq<(Seq<char>, ValModel)>,
    name: Seq<char>,
    v: ValModel,
) -> Seq<(Seq<char>, ValModel)>
    decreases bs.len(),
{
    if bs.len() == 0 {
        seq![(name, v)]
    } else if bs[0].0 == name {
        seq![(name, v)] + bs.drop_first()
    } else {
        seq![bs[0]] + binds_set(bs.drop_first(), name, v)
    }
}

pub proof fn lemma_binds_set_found(
    bs: Seq<(Seq<char>, ValModel)>,
    name: Seq<char>,
    v: ValModel,
    k: int,
)
    requires
        0 <= k < bs.len(),
        bs[k].0 == name,
        forall|j: int| 0 <= j < k ==> bs[j].0 != name,
    ensures
        binds_set(bs, name, v) == bs.update(k, (name, v)),
    decreases k,
{
    if k == 0 {
        assert(binds_set(bs, name, v) =~= bs.update(0, (name, v)));
    } else {
        assert(bs.drop_first()[k - 1].0 == name);
        lemma_binds_set_found(bs.drop_first(), name, v, k - 1);
        assert(seq![bs[0]] + bs.drop_first().update(k - 1, (name, v)) =~= bs.update(
            k,
            (name, v),
        ));
    }
}

pub proof fn lemma_binds_set_missing(
    bs: Seq<(Seq<char>, ValModel)>,
    name: Seq<char>,
    v: ValModel,
)
    requires
        forall|j: int| 0 <= j < bs.len() ==> bs[j].0 != name,
    ensures
        binds_set(bs, name, v) == bs.push((name, v)),
    decreases bs.len(),
{
    if bs.len() == 0 {
        assert(binds_set(bs, name, v) =~= bs.push((name, v)));
    } else {
        lemma_binds_set_missing(bs.drop_first(), name, v);
        assert(seq![bs[0]] + bs.drop_first().push((name, v)) =~= bs.push((name, v)));
    }
}

pub proof fn lemma_lookup_in_binds_found(
    bs: Seq<(Seq<char>, ValModel)>,
    name: Seq<char>,
    k: int,
)
    requires
        0 <= k < bs.len(),
        bs[k].0 == name,
        forall|j: int| 0 <= j < k ==> bs[j].0 != name,
    ensures
        lookup_in_binds(bs, name) == Some(bs[k].1),
    decreases k,
{
    if k > 0 {
        assert(bs.drop_first()[k - 1].0 == name);
        lemma_lookup_in_binds_found(bs.drop_first(), name, k - 1);
    }
}

pub proof fn lemma_lookup_in_binds_missing(bs: Seq<(Seq<char>, ValModel)>, name: Seq<char>)
    requires
        forall|j: int| 0 <= j < bs.len() ==> bs[j].0 != name,
    ensures
        lookup_in_binds(bs, name) is None,
    decreases bs.len(),
{
    if bs.len() > 0 {
        lemma_lookup_in_binds_missing(bs.drop_first(), name);
    }
}

impl Environment {
    /// A fresh environment: one root scope with no bindings.
    pub fn new() -> (r: Environment)
        ensures
            env_model(r) =~= seq![
                ScopeModel { parent: None, binds: Seq::<(Seq<char>, ValModel)>::empty() },
            ],
            r.cur == 0,
            env_wf(r),
    {
        let mut scopes: Vec<Scope> = Vec::new();
        scopes.push(Scope { parent: None, binds: Vec::new() });
        let r = Environment { scopes, cur: 0 };
        proof {
            lemma_scopes_model_index(r.scopes@);
            assert(env_model(r) =~= seq![
                ScopeModel { parent: None, binds: Seq::<(Seq<char>, ValModel)>::empty() },
            ]);
        }
        r
    }

    /// Inserts or overwrites `name` in the current scope.
    pub fn set(&mut self, name: &str, v: Value)
        requires
            env_wf(*old(self)),
        ensures
            env_wf(*final(self)),
            final(self).cur == old(self).cur,
            env_model(*final(self)).len() == env_model(*old(self)).len(),
            env_model(*final(self)) == env_model(*old(self)).update(
                old(self).cur as int,
                ScopeModel {
                    parent: env_model(*old(self))[old(self).cur as int].parent,
                    binds: binds_set(
                        env_model(*old(self))[old(self).cur as int].binds,
                        name@,
                        val_model(v),
                    ),
                },
            ),
    {
        let ghost m0 = env_model(*self);
        let cur = self.cur;
        proof {
            lemma_scopes_model_index(self.scopes@);
            lemma_binds_model_index(self.scopes@[cur as int].binds@);
        }
        let n = self.scopes[cur].binds.len();
        let mut k: usize = 0;
        let mut found: bool = false;
        while k < n && !found
            invariant
                cur < self.scopes@.len(),
                n == self.scopes@[cur as int].binds@.len(),
                k <= n,
                !found ==> forall|j: int|
                    0 <= j < k ==> self.scopes@[cur as int].binds@[j].0@ != name@,
                found ==> k < n && self.scopes@[cur as int].binds@[k as int].0@ == name@
                    && forall|j: int|
                    0 <= j < k ==> self.scopes@[cur as int].binds@[j].0@ != name@,
            decreases n - k + (if found {
                0int
            } else {
                1int
            }),
        {
            if crate::text::str_eq(self.scopes[cur].binds[k].0.as_str(), name) {
                found = true;
            } else {
                k = k + 1;
            }
        }
        let pair = (String::from_str(name), v);
        let ghost vm = val_model(pair.1);
        let ghost bs0 = binds_model(self.scopes@[cur as int].binds@);
        if found {
            self.scopes[cur].binds[k] = pair;
            proof {
                lemma_binds_model_index(old(self).scopes@[cur as int].binds@);
                lemma_binds_model_index(self.scopes@[cur as int].binds@);
                lemma_binds_set_found(bs0, name@, vm, k as int);
                assert(binds_model(self.scopes@[cur as int].binds@) =~= binds_set(
                    bs0,
                    name@,
                    vm,
                ));
            }
        } else {
            self.scopes[cur].binds.push(pair);
            proof {
                lemma_binds_model_index(old(self).scopes@[cur as int].binds@);
                lemma_binds_model_index(self.scopes@[cur as int].binds@);
                lemma_binds_set_missing(bs0, name@, vm);
                assert(binds_model(self.scopes@[cur as int].binds@) =~= binds_set(
                    bs0,
                    name@,
                    vm,
                ));
            }
        }
        proof {
            lemma_scopes_model_index(old(self).scopes@);
            lemma_scopes_model_index(self.scopes@);
            assert(env_model(*self) =~= m0.update(
                cur as int,
                ScopeModel { parent: m0[cur as int].parent, binds: binds_set(bs0, name@, vm) },
            ));
        }
    }

    /// The value bound to `name`, searching from the current scope outward.
    pub fn get(&self, name: &str) -> (r: Option<Value>)
        requires
            env_wf(*self),
        ensures
            match r {
                Some(v) => spec_lookup(env_model(*self), self.cur as int, name@) == Some(
                    val_model(v),
                ),
                None => spec_lookup(env_model(*self), self.cur as int, name@) is None,
            },
    {
        let mut s: usize = self.cur;
        loop
            invariant_except_break
                env_wf(*self),
                s < self.scopes@.len(),
                spec_lookup(env_model(*self), self.cur as int, name@) == spec_lookup(
                    env_model(*self),
                    s as int,
                    name@,
                ),
            ensures
                match self.find_result(s, name@) {
                    Some(v) => spec_lookup(env_model(*self), self.cur as int, name@) == Some(v),
                    None => spec_lookup(env_model(*self), self.cur as int, name@) is None,
                },
            decreases s,
        {
            proof {
                lemma_scopes_model_index(self.scopes@);
                lemma_binds_model_index(self.scopes@[s as int].binds@);
            }
            let n = self.scopes[s].binds.len();
            let mut k: usize = 0;
            while k < n
                invariant
                    env_wf(*self),
                    s < self.scopes@.len(),
                    n == self.scopes@[s as int].binds@.len(),
                    k <= n,
                    forall|j: int|
                        0 <= j < k ==> self.scopes@[s as int].binds@[j].0@ != name@,
                    spec_lookup(env_model(*self), self.cur as int, name@) == spec_lookup(
                        env_model(*self),
                        s as int,
                        name@,
                    ),
                decreases n - k,
            {
                if crate::text::str_eq(self.scopes[s].binds[k].0.as_str(), name) {
                    let v = clone_value(&self.scopes[s].binds[k].1);
                    proof {
                        lemma_binds_model_index(self.scopes@[s as int].binds@);
                        lemma_lookup_in_binds_found(
                            binds_model(self.scopes@[s as int].binds@),
                            name@,
                            k as int,
                        );
                        lemma_scopes_model_index(self.scopes@);
                        assert(self.find_result(s, name@) == Some(val_model(v)));
                    }
                    return Some(v);
                }
                k = k + 1;
            }
            proof {
                lemma_binds_model_index(self.scopes@[s as int].binds@);
                lemma_lookup_in_binds_missing(
                    binds_model(self.scopes@[s as int].binds@),
                    name@,
                );
                lemma_scopes_model_index(self.scopes@);
            }
            match self.scopes[s].parent {
                Some(p) => {
                    proof {
                        assert(env_model(*self)[s as int].parent == Some(p));
                    }
                    s = p;
                },
                None => {
                    proof {
                        assert(self.find_result(s, name@) is None);
                    }
                    return None;
                },
            }
        }
    }

    /// What lookup from scope `s` yields; the loop's link between iterations.
    pub open spec fn find_result(&self, s: usize, name: Seq<char>) -> Option<ValModel> {
        spec_lookup(env_model(*self), s as int, name)
    }

    /// A new empty scope whose parent is `parent`; returns its index.
    pub fn child_of(&mut self, parent: usize) -> (idx: usize)
        requires
            env_wf(*old(self)),
            parent < old(self).scopes@.len(),
        ensures
            env_wf(*final(self)),
            final(self).cur == old(self).cur,
            idx == env_model(*old(self)).len(),
            env_model(*final(self)) == env_model(*old(self)).push(
                ScopeModel {
                    parent: Some(parent),
                    binds: Seq::<(Seq<char>, ValModel)>::empty(),
                },
            ),
    {
        let idx = self.scopes.len();
        self.scopes.push(Scope { parent: Some(parent), binds: Vec::new() });
        proof {
            lemma_scopes_model_index(old(self).scopes@);
            lemma_scopes_model_index(self.scopes@);
            assert(env_model(*self) =~= env_model(*old(self)).push(
                ScopeModel {
                    parent: Some(parent),
                    binds: Seq::<(Seq<char>, ValModel)>::empty(),
                },
            ));
        }
        idx
    }

    /// A new empty scope chained to the current one; returns its index.
    pub fn child_scope(&mut self) -> (idx: usize)
        requires
            env_wf(*old(self)),
        ensures
            env_wf(*final(self)),
            final(self).cur == old(self).cur,
            idx == env_model(*old(self)).len(),
            env_model(*final(self)) == env_model(*old(self)).push(
                ScopeModel {
                    parent: Some(old(self).cur),
                    binds: Seq::<(Seq<char>, ValModel)>::empty(),
                },
            ),
    {
        let cur = self.cur;
        self.child_of(cur)
    }
}

} // verus!
