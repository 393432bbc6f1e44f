//! Runtime evaluation: expressions over a stack of scopes, and the
//! statements of transition bodies, entry/exit actions and function
//! bodies.
//!
//! A scope stack is a vector of environments, innermost last; a name means
//! its binding in the innermost scope that has one.  Arithmetic is checked
//! integer arithmetic; equality compares values of one kind (strings by
//! their characters, floats by their bit patterns); order comparisons are
//! integer-only.  A call in value position yields no value — the
//! language's function bodies cannot return one — so it fails evaluation.
//! Every failure is surfaced as [`RuntimeError::Stuck`]: on a type-checked
//! model it marks a broken engine invariant, not a user error.

use vstd::prelude::*;

use crate::ast::ControlFlowExpr;
use crate::ast::ValueExpr;
use crate::ast::VarType;
use crate::env::Env;
use crate::lookup::find_keyed;
use crate::lookup::lookup_keyed;
use crate::runtime::EventInstance;
use crate::runtime::EventSignature;
use crate::runtime::FuncSignature;
use crate::value::Value;

verus! {

/// A dispatch-time failure.  Dispatch expects a type-checked model;
/// getting stuck indicates an engine invariant break, never a user-facing
/// error.
#[derive(Debug)]
pub enum RuntimeError {
    Stuck,
}

/// What one scope resolves: a map from a name to its typed value.
pub type ScopeModel = Map<Seq<char>, (VarType, Value)>;

/// The bindings an environment resolves, as a map.
pub open spec fn env_model(e: Env) -> ScopeModel {
    Map::new(|n: Seq<char>| e.resolves(n) is Some, |n: Seq<char>| e.resolves(n).unwrap())
}

/// The models of a stack of scopes, innermost last.
pub open spec fn stack_model(scopes: Seq<Env>) -> Seq<ScopeModel> {
    Seq::new(scopes.len(), |i: int| env_model(scopes[i]))
}

/// Resolves a name against a stack of scope models, innermost first.
pub open spec fn model_resolve(stack: Seq<ScopeModel>, n: Seq<char>) -> Option<(VarType, Value)>
    decreases stack.len(),
{
    if stack.len() == 0 {
        None
    } else if stack.last().dom().contains(n) {
        Some(stack.last()[n])
    } else {
        model_resolve(stack.drop_last(), n)
    }
}

/// The value of an expression under a stack of scope models, or `None`
/// when evaluation fails: an unbound name, an operand of the wrong kind,
/// overflowing or dividing-by-zero arithmetic, or a call in value
/// position.
pub open spec fn spec_eval(stack: Seq<ScopeModel>, e: ValueExpr) -> Option<Value>
    decreases e,
{
    match e {
        ValueExpr::Bool(b) => Some(Value::Bool(b)),
        ValueExpr::Int(i) => Some(Value::Int(i)),
        ValueExpr::Float(f) => Some(Value::Float(f)),
        ValueExpr::Str(s) => Some(Value::Str(s)),
        ValueExpr::Ident(n) => match model_resolve(stack, n@) {
            Some(p) => Some(p.1),
            None => None,
        },
        ValueExpr::AddExpr { l, r } => match (spec_eval(stack, *l), spec_eval(stack, *r)) {
            (Some(Value::Int(a)), Some(Value::Int(b))) => match a.checked_add(b) {
                Some(s) => Some(Value::Int(s)),
                None => None,
            },
            _ => None,
        },
        ValueExpr::SubExpr { l, r } => match (spec_eval(stack, *l), spec_eval(stack, *r)) {
            (Some(Value::Int(a)), Some(Value::Int(b))) => match a.checked_sub(b) {
                Some(s) => Some(Value::Int(s)),
                None => None,
            },
            _ => None,
        },
        ValueExpr::MulExpr { l, r } => match (spec_eval(stack, *l), spec_eval(stack, *r)) {
            (Some(Value::Int(a)), Some(Value::Int(b))) => match a.checked_mul(b) {
                Some(s) => Some(Value::Int(s)),
                None => None,
            },
            _ => None,
        },
        ValueExpr::DivExpr { l, r } => match (spec_eval(stack, *l), spec_eval(stack, *r)) {
            (Some(Value::Int(a)), Some(Value::Int(b))) => match a.checked_div(b) {
                Some(s) => Some(Value::Int(s)),
                None => None,
            },
            _ => None,
        },
        ValueExpr::NotExpr { v } => match spec_eval(stack, *v) {
            Some(Value::Bool(b)) => Some(Value::Bool(!b)),
            _ => None,
        },
        ValueExpr::OrExpr { l, r } => match (spec_eval(stack, *l), spec_eval(stack, *r)) {
            (Some(Value::Bool(a)), Some(Value::Bool(b))) => Some(Value::Bool(a || b)),
            _ => None,
        },
        ValueExpr::AndExpr { l, r } => match (spec_eval(stack, *l), spec_eval(stack, *r)) {
            (Some(Value::Bool(a)), Some(Value::Bool(b))) => Some(Value::Bool(a && b)),
            _ => None,
        },
        ValueExpr::XorExpr { l, r } => match (spec_eval(stack, *l), spec_eval(stack, *r)) {
            (Some(Value::Bool(a)), Some(Value::Bool(b))) => Some(Value::Bool(a != b)),
            _ => None,
        },
        ValueExpr::EqExpr { l, r } => match (spec_eval(stack, *l), spec_eval(stack, *r)) {
            (Some(a), Some(b)) => Some(Value::Bool(a.spec_eq(b))),
            _ => None,
        },
        ValueExpr::NeqExpr { l, r } => match (spec_eval(stack, *l), spec_eval(stack, *r)) {
            (Some(a), Some(b)) => Some(Value::Bool(!a.spec_eq(b))),
            _ => None,
        },
        ValueExpr::LeqExpr { l, r } => match (spec_eval(stack, *l), spec_eval(stack, *r)) {
            (Some(Value::Int(a)), Some(Value::Int(b))) => Some(Value::Bool(a <= b)),
            _ => None,
        },
        ValueExpr::GeqExpr { l, r } => match (spec_eval(stack, *l), spec_eval(stack, *r)) {
            (Some(Value::Int(a)), Some(Value::Int(b))) => Some(Value::Bool(a >= b)),
            _ => None,
        },
        ValueExpr::LtExpr { l, r } => match (spec_eval(stack, *l), spec_eval(stack, *r)) {
            (Some(Value::Int(a)), Some(Value::Int(b))) => Some(Value::Bool(a < b)),
            _ => None,
        },
        ValueExpr::GtExpr { l, r } => match (spec_eval(stack, *l), spec_eval(stack, *r)) {
            (Some(Value::Int(a)), Some(Value::Int(b))) => Some(Value::Bool(a > b)),
            _ => None,
        },
        ValueExpr::FuncCallExpr { func_name, func_args } => None,
    }
}

/// Evaluates an expression against a stack of scopes.
pub fn eval_expr(scopes: &Vec<Env>, e: &ValueExpr) -> (r: Option<Value>)
    ensures
        r == spec_eval(stack_model(scopes@), *e),
    decreases *e,
{
    match e {
        ValueExpr::Bool(b) => Some(Value::Bool(*b)),
        ValueExpr::Int(i) => Some(Value::Int(*i)),
        ValueExpr::Float(f) => Some(Value::Float(*f)),
        ValueExpr::Str(s) => Some(Value::Str(s.clone())),
        ValueExpr::Ident(n) => match stack_get(scopes, n) {
            Some(v) => Some(v),
            None => None,
        },
        ValueExpr::AddExpr { l, r } => {
            match (eval_expr(scopes, l), eval_expr(scopes, r)) {
                (Some(Value::Int(a)), Some(Value::Int(b))) => match a.checked_add(b) {
                    Some(s) => Some(Value::Int(s)),
                    None => None,
                },
                _ => None,
            }
        },
        ValueExpr::SubExpr { l, r } => {
            match (eval_expr(scopes, l), eval_expr(scopes, r)) {
                (Some(Value::Int(a)), Some(Value::Int(b))) => match a.checked_sub(b) {
                    Some(s) => Some(Value::Int(s)),
                    None => None,
                },
                _ => None,
            }
        },
        ValueExpr::MulExpr { l, r } => {
            match (eval_expr(scopes, l), eval_expr(scopes, r)) {
                (Some(Value::Int(a)), Some(Value::Int(b))) => match a.checked_mul(b) {
                    Some(s) => Some(Value::Int(s)),
                    None => None,
                },
                _ => None,
            }
        },
        ValueExpr::DivExpr { l, r } => {
            match (eval_expr(scopes, l), eval_expr(scopes, r)) {
                (Some(Value::Int(a)), Some(Value::Int(b))) => match a.checked_div(b) {
                    Some(s) => Some(Value::Int(s)),
                    None => None,
                },
                _ => None,
            }
        },
        ValueExpr::NotExpr { v } => {
            match eval_expr(scopes, v) {
                Some(Value::Bool(b)) => Some(Value::Bool(!b)),
                _ => None,
            }
        },
        ValueExpr::OrExpr { l, r } => {
            match (eval_expr(scopes, l), eval_expr(scopes, r)) {
                (Some(Value::Bool(a)), Some(Value::Bool(b))) => Some(Value::Bool(a || b)),
                _ => None,
            }
        },
        ValueExpr::AndExpr { l, r } => {
            match (eval_expr(scopes, l), eval_expr(scopes, r)) {
                (Some(Value::Bool(a)), Some(Value::Bool(b))) => Some(Value::Bool(a && b)),
                _ => None,
            }
        },
        ValueExpr::XorExpr { l, r } => {
            match (eval_expr(scopes, l), eval_expr(scopes, r)) {
                (Some(Value::Bool(a)), Some(Value::Bool(b))) => Some(Value::Bool(a != b)),
                _ => None,
            }
        },
        ValueExpr::EqExpr { l, r } => {
            match (eval_expr(scopes, l), eval_expr(scopes, r)) {
                (Some(a), Some(b)) => Some(Value::Bool(a.equals(&b))),
                _ => None,
            }
        },
        ValueExpr::NeqExpr { l, r } => {
            match (eval_expr(scopes, l), eval_expr(scopes, r)) {
                (Some(a), Some(b)) => Some(Value::Bool(!a.equals(&b))),
                _ => None,
            }
        },
        ValueExpr::LeqExpr { l, r } => {
            match (eval_expr(scopes, l), eval_expr(scopes, r)) {
                (Some(Value::Int(a)), Some(Value::Int(b))) => Some(Value::Bool(a <= b)),
                _ => None,
            }
        },
        ValueExpr::GeqExpr { l, r } => {
            match (eval_expr(scopes, l), eval_expr(scopes, r)) {
                (Some(Value::Int(a)), Some(Value::Int(b))) => Some(Value::Bool(a >= b)),
                _ => None,
            }
        },
        ValueExpr::LtExpr { l, r } => {
            match (eval_expr(scopes, l), eval_expr(scopes, r)) {
                (Some(Value::Int(a)), Some(Value::Int(b))) => Some(Value::Bool(a < b)),
                _ => None,
            }
        },
        ValueExpr::GtExpr { l, r } => {
            match (eval_expr(scopes, l), eval_expr(scopes, r)) {
                (Some(Value::Int(a)), Some(Value::Int(b))) => Some(Value::Bool(a > b)),
                _ => None,
            }
        },
        ValueExpr::FuncCallExpr { func_name, func_args } => None,
    }
}

/// Resolves a name against a stack of scopes, innermost first, handing
/// back a copy of the value.
fn stack_get(scopes: &Vec<Env>, name: &String) -> (r: Option<Value>)
    ensures
        r == match model_resolve(stack_model(scopes@), name@) {
            Some(p) => Some::<Value>(p.1),
            None => None::<Value>,
        },
{
    let n = scopes.len();
    let mut i: usize = n;
    proof {
        assert(stack_model(scopes@).take(n as int) =~= stack_model(scopes@));
    }
    while i > 0
        invariant
            n == scopes@.len(),
            i <= n,
            model_resolve(stack_model(scopes@), name@) == model_resolve(
                stack_model(scopes@).take(i as int),
                name@,
            ),
        decreases i,
    {
        i = i - 1;
        match scopes[i].get_var(name) {
            Some(p) => {
                proof {
                    let stk = stack_model(scopes@).take(i as int + 1);
                    assert(stk.last() == env_model(scopes@[i as int]));
                    assert(stk.last().dom().contains(name@));
                    assert(stk.last()[name@] == (p.0, p.1));
                }
                return Some(p.1.duplicate());
            },
            None => {
                proof {
                    let stk = stack_model(scopes@).take(i as int + 1);
                    assert(!stk.last().dom().contains(name@));
                    assert(stk.drop_last() =~= stack_model(scopes@).take(i as int));
                }
            },
        }
    }
    proof {
        assert(stack_model(scopes@).take(0) =~= Seq::<ScopeModel>::empty());
    }
    None
}

// ---------------------------------------------------------------------
// Statement execution.
// ---------------------------------------------------------------------

/// One send a body asked for: the target actor's name, the event's name,
/// its declared parameter types, and the argument values.
pub type SendModel = (Seq<char>, Seq<char>, Seq<VarType>, Seq<Value>);

/// The models of the sends collected so far.
pub open spec fn sends_model(v: Seq<(String, EventInstance)>) -> Seq<SendModel> {
    Seq::new(
        v.len(),
        |i: int| (v[i].0@, v[i].1.signature.name@, v[i].1.signature.params@, v[i].1.params@),
    )
}

/// The values of the first `upto` argument expressions, or `None` when
/// one fails.
pub open spec fn spec_eval_args(
    stack: Seq<ScopeModel>,
    args: Seq<ValueExpr>,
    upto: int,
) -> Option<Seq<Value>>
    decreases upto,
{
    if upto <= 0 || upto > args.len() {
        Some(Seq::empty())
    } else {
        match spec_eval_args(stack, args, upto - 1) {
            Some(vs) => match spec_eval(stack, args[upto - 1]) {
                Some(v) => Some(vs.push(v)),
                None => None,
            },
            None => None,
        }
    }
}

/// Evaluates each argument in order.
fn eval_args(scopes: &Vec<Env>, args: &Vec<ValueExpr>) -> (r: Option<Vec<Value>>)
    ensures
        match r {
            Some(vs) => spec_eval_args(stack_model(scopes@), args@, args@.len() as int) == Some(
                vs@,
            ) && vs@.len() == args@.len(),
            None => spec_eval_args(stack_model(scopes@), args@, args@.len() as int) is None,
        },
{
    let mut vs: Vec<Value> = Vec::new();
    let n = args.len();
    let mut i: usize = 0;
    while i < n
        invariant
            n == args@.len(),
            i <= n,
            vs@.len() == i,
            spec_eval_args(stack_model(scopes@), args@, i as int) == Some(vs@),
        decreases n - i,
    {
        match eval_expr(scopes, &args[i]) {
            Some(v) => {
                vs.push(v);
            },
            None => {
                proof {
                    lemma_eval_args_none(stack_model(scopes@), args@, i as int + 1, n as int);
                }
                return None;
            },
        }
        i = i + 1;
    }
    Some(vs)
}

/// A failing argument keeps failing as more arguments are taken in.
proof fn lemma_eval_args_none(stack: Seq<ScopeModel>, args: Seq<ValueExpr>, j: int, k: int)
    requires
        0 < j <= k <= args.len(),
        spec_eval_args(stack, args, j) is None,
    ensures
        spec_eval_args(stack, args, k) is None,
    decreases k - j,
{
    if j < k {
        lemma_eval_args_none(stack, args, j + 1, k);
    }
}

/// Assignment into the innermost scope model that binds the name,
/// keeping its declared type; `None` when no scope binds it.
pub open spec fn model_assign(
    stack: Seq<ScopeModel>,
    n: Seq<char>,
    v: Value,
) -> Option<Seq<ScopeModel>>
    decreases stack.len(),
{
    if stack.len() == 0 {
        None
    } else if stack.last().dom().contains(n) {
        Some(stack.update(stack.len() - 1, stack.last().insert(n, (stack.last()[n].0, v))))
    } else {
        match model_assign(stack.drop_last(), n, v) {
            Some(s) => Some(s.push(stack.last())),
            None => None,
        }
    }
}

/// Assignment rewrites exactly the innermost scope that binds the name:
/// with no binding above position `j` and one at `j`, the result updates
/// position `j` alone.
proof fn lemma_model_assign_at(stack: Seq<ScopeModel>, n: Seq<char>, v: Value, j: int)
    requires
        0 <= j < stack.len(),
        stack[j].dom().contains(n),
        forall|k: int| j < k < stack.len() ==> !(#[trigger] stack[k]).dom().contains(n),
    ensures
        model_assign(stack, n, v) == Some(
            stack.update(j, stack[j].insert(n, (stack[j][n].0, v))),
        ),
    decreases stack.len(),
{
    if j == stack.len() - 1 {
    } else {
        lemma_model_assign_at(stack.drop_last(), n, v, j);
        let inner = stack.drop_last().update(
            j,
            stack.drop_last()[j].insert(n, (stack.drop_last()[j][n].0, v)),
        );
        assert(inner.push(stack.last()) =~= stack.update(
            j,
            stack[j].insert(n, (stack[j][n].0, v)),
        ));
    }
}

/// With no scope binding the name, assignment fails.
proof fn lemma_model_assign_none(stack: Seq<ScopeModel>, n: Seq<char>, v: Value)
    requires
        forall|k: int| 0 <= k < stack.len() ==> !(#[trigger] stack[k]).dom().contains(n),
    ensures
        model_assign(stack, n, v) is None,
    decreases stack.len(),
{
    if stack.len() > 0 {
        lemma_model_assign_none(stack.drop_last(), n, v);
    }
}

/// The scope a function body runs in: its parameters bound, in order, to
/// the argument values.
pub open spec fn param_binding(
    params: Seq<(String, VarType)>,
    vals: Seq<Value>,
    upto: int,
) -> ScopeModel
    decreases upto,
{
    if upto <= 0 || upto > params.len() || params.len() != vals.len() {
        Map::empty()
    } else {
        param_binding(params, vals, upto - 1).insert(
            params[upto - 1].0@,
            (params[upto - 1].1, vals[upto - 1]),
        )
    }
}

/// What executing one statement does to the scope stack and the pending
/// sends, or `None` when it gets stuck: a missing or non-literal local
/// initializer, an assignment to an unbound name, a send whose pattern is
/// not a call on a declared event or whose argument fails, a call that
/// does not resolve or whose depth exhausts the budget, or a failing
/// expression.
pub open spec fn spec_exec_stmt(
    stack: Seq<ScopeModel>,
    sends: Seq<SendModel>,
    s: ControlFlowExpr,
    events: Seq<EventSignature>,
    funcs: Seq<FuncSignature>,
    fuel: nat,
) -> Option<(Seq<ScopeModel>, Seq<SendModel>)>
    decreases fuel, 0int, 0int,
{
    match s {
        ControlFlowExpr::VarDecl { var_name, var_type, initial } => match initial {
            Some(e) => match crate::value::spec_eval_pure(e) {
                Some(v) => if stack.len() > 0 {
                    Some(
                        (
                            stack.update(
                                stack.len() - 1,
                                stack.last().insert(var_name@, (var_type, v)),
                            ),
                            sends,
                        ),
                    )
                } else {
                    None
                },
                None => None,
            },
            None => None,
        },
        ControlFlowExpr::AssignStatement { var_name, val_expr } => match spec_eval(
            stack,
            val_expr,
        ) {
            Some(v) => match model_assign(stack, var_name@, v) {
                Some(st) => Some((st, sends)),
                None => None,
            },
            None => None,
        },
        ControlFlowExpr::SendStatement { target_state, event } => match event {
            ValueExpr::FuncCallExpr { func_name, func_args } => match lookup_keyed(
                events,
                func_name@,
            ) {
                Some(sig) => match spec_eval_args(stack, func_args@, func_args@.len() as int) {
                    Some(vals) => Some(
                        (stack, sends.push((target_state@, sig.name@, sig.params@, vals))),
                    ),
                    None => None,
                },
                None => None,
            },
            _ => None,
        },
        ControlFlowExpr::FuncCallStatement(e) => match e {
            ValueExpr::FuncCallExpr { func_name, func_args } => match lookup_keyed(
                funcs,
                func_name@,
            ) {
                Some(f) => if f.params@.len() == func_args@.len() && fuel > 0 {
                    match spec_eval_args(stack, func_args@, func_args@.len() as int) {
                        Some(vals) => {
                            let callee = seq![
                                param_binding(f.params@, vals, f.params@.len() as int),
                            ];
                            match spec_exec_stmts(
                                callee,
                                sends,
                                f.body@,
                                f.body@.len() as int,
                                events,
                                funcs,
                                (fuel - 1) as nat,
                            ) {
                                Some((st, sd)) => Some((stack, sd)),
                                None => None,
                            }
                        },
                        None => None,
                    }
                } else {
                    None
                },
                None => None,
            },
            _ => match spec_eval(stack, e) {
                Some(v) => Some((stack, sends)),
                None => None,
            },
        },
    }
}

/// What executing the first `upto` statements does, or `None` when one
/// gets stuck.
pub open spec fn spec_exec_stmts(
    stack: Seq<ScopeModel>,
    sends: Seq<SendModel>,
    stmts: Seq<ControlFlowExpr>,
    upto: int,
    events: Seq<EventSignature>,
    funcs: Seq<FuncSignature>,
    fuel: nat,
) -> Option<(Seq<ScopeModel>, Seq<SendModel>)>
    decreases fuel, upto, 1int,
{
    if upto <= 0 || upto > stmts.len() {
        Some((stack, sends))
    } else {
        match spec_exec_stmts(stack, sends, stmts, upto - 1, events, funcs, fuel) {
            Some((st, sd)) => spec_exec_stmt(st, sd, stmts[upto - 1], events, funcs, fuel),
            None => None,
        }
    }
}

/// Copies a list of parameter types.
fn clone_var_types(v: &Vec<VarType>) -> (r: Vec<VarType>)
    ensures
        r@ == v@,
{
    let mut r: Vec<VarType> = Vec::new();
    let n = v.len();
    let mut i: usize = 0;
    while i < n
        invariant
            n == v@.len(),
            i <= n,
            r@ == v@.take(i as int),
        decreases n - i,
    {
        r.push(v[i]);
        proof {
            assert(r@ =~= v@.take(i as int + 1));
        }
        i = i + 1;
    }
    proof {
        assert(v@.take(n as int) =~= v@);
    }
    r
}

/// Executes a sequence of statements against the scope stack, collecting
/// the sends they ask for.  `fuel` bounds the depth of nested function
/// calls; statement execution itself cannot recurse unboundedly.
pub fn exec_stmts(
    scopes: &mut Vec<Env>,
    stmts: &Vec<ControlFlowExpr>,
    events: &Vec<EventSignature>,
    funcs: &Vec<FuncSignature>,
    sends: &mut Vec<(String, EventInstance)>,
    fuel: u32,
) -> (r: Result<(), RuntimeError>)
    ensures
        match spec_exec_stmts(
            stack_model(old(scopes)@),
            sends_model(old(sends)@),
            stmts@,
            stmts@.len() as int,
            events@,
            funcs@,
            fuel as nat,
        ) {
            Some((st, sd)) => r is Ok && stack_model(final(scopes)@) == st && sends_model(
                final(sends)@,
            ) == sd,
            None => r is Err,
        },
        final(scopes)@.len() == old(scopes)@.len(),
        old(sends)@.is_prefix_of(final(sends)@),
    decreases fuel, 1int,
{
    let n = stmts.len();
    let mut i: usize = 0;
    while i < n
        invariant
            n == stmts@.len(),
            i <= n,
            scopes@.len() == old(scopes)@.len(),
            old(sends)@.is_prefix_of(sends@),
            spec_exec_stmts(
                stack_model(old(scopes)@),
                sends_model(old(sends)@),
                stmts@,
                i as int,
                events@,
                funcs@,
                fuel as nat,
            ) == Some((stack_model(scopes@), sends_model(sends@))),
        decreases n - i,
    {
        let step_ok = exec_one_stmt(scopes, &stmts[i], events, funcs, sends, fuel);
        if !step_ok {
            proof {
                lemma_exec_stmts_none(
                    stack_model(old(scopes)@),
                    sends_model(old(sends)@),
                    stmts@,
                    i as int + 1,
                    n as int,
                    events@,
                    funcs@,
                    fuel as nat,
                );
            }
            return Err(RuntimeError::Stuck);
        }
        i = i + 1;
    }
    Ok(())
}

/// A stuck statement keeps the whole body stuck as more statements are
/// taken in.
proof fn lemma_exec_stmts_none(
    stack: Seq<ScopeModel>,
    sends: Seq<SendModel>,
    stmts: Seq<ControlFlowExpr>,
    j: int,
    k: int,
    events: Seq<EventSignature>,
    funcs: Seq<FuncSignature>,
    fuel: nat,
)
    requires
        0 < j <= k <= stmts.len(),
        spec_exec_stmts(stack, sends, stmts, j, events, funcs, fuel) is None,
    ensures
        spec_exec_stmts(stack, sends, stmts, k, events, funcs, fuel) is None,
    decreases k - j,
{
    if j < k {
        lemma_exec_stmts_none(stack, sends, stmts, j + 1, k, events, funcs, fuel);
    }
}

/// Executes one statement; `false` means it got stuck.
fn exec_one_stmt(
    scopes: &mut Vec<Env>,
    s: &ControlFlowExpr,
    events: &Vec<EventSignature>,
    funcs: &Vec<FuncSignature>,
    sends: &mut Vec<(String, EventInstance)>,
    fuel: u32,
) -> (ok: bool)
    ensures
        match spec_exec_stmt(
            stack_model(old(scopes)@),
            sends_model(old(sends)@),
            *s,
            events@,
            funcs@,
            fuel as nat,
        ) {
            Some((st, sd)) => ok && stack_model(final(scopes)@) == st && sends_model(
                final(sends)@,
            ) == sd,
            None => !ok,
        },
        final(scopes)@.len() == old(scopes)@.len(),
        old(sends)@.is_prefix_of(final(sends)@),
    decreases fuel, 0int,
{
    match s {
        ControlFlowExpr::VarDecl { var_name, var_type, initial } => {
            match initial {
                Some(e) => {
                    match crate::value::eval_pure_ref(e) {
                        Some(v) => {
                            if scopes.len() == 0 {
                                return false;
                            }
                            let li = scopes.len() - 1;
                            let ghost pre = scopes@;
                            scopes[li].set_var(var_name.clone(), *var_type, v);
                            proof {
                                assert(stack_model(scopes@) =~= stack_model(pre).update(
                                    li as int,
                                    stack_model(pre).last().insert(var_name@, (*var_type, v)),
                                )) by {
                                    assert forall|k: int| 0 <= k < scopes@.len() implies
                                        stack_model(scopes@)[k] == stack_model(pre).update(
                                        li as int,
                                        stack_model(pre).last().insert(var_name@, (*var_type, v)),
                                    )[k] by {
                                        if k == li as int {
                                            assert(env_model(scopes@[k]) =~= env_model(
                                                pre[k],
                                            ).insert(var_name@, (*var_type, v)));
                                        } else {
                                            assert(scopes@[k] == pre[k]);
                                        }
                                    }
                                }
                            }
                            true
                        },
                        None => false,
                    }
                },
                None => false,
            }
        },
        ControlFlowExpr::AssignStatement { var_name, val_expr } => {
            match eval_expr(scopes, val_expr) {
                Some(v) => assign_var(scopes, var_name, v),
                None => false,
            }
        },
        ControlFlowExpr::SendStatement { target_state, event } => {
            match event {
                ValueExpr::FuncCallExpr { func_name, func_args } => {
                    match find_keyed(events, func_name) {
                        Some(si) => {
                            match eval_args(scopes, func_args) {
                                Some(vals) => {
                                    let signature = EventSignature::new(
                                        events[si].name.clone(),
                                        clone_var_types(&events[si].params),
                                    );
                                    let instance = EventInstance { signature, params: vals };
                                    let ghost pre = sends@;
                                    sends.push((target_state.clone(), instance));
                                    proof {
                                        assert(sends_model(sends@) =~= sends_model(pre).push(
                                            (
                                                target_state@,
                                                events@[si as int].name@,
                                                events@[si as int].params@,
                                                spec_eval_args(
                                                    stack_model(scopes@),
                                                    func_args@,
                                                    func_args@.len() as int,
                                                ).unwrap(),
                                            ),
                                        ));
                                    }
                                    true
                                },
                                None => false,
                            }
                        },
                        None => false,
                    }
                },
                _ => false,
            }
        },
        ControlFlowExpr::FuncCallStatement(e) => {
            match e {
                ValueExpr::FuncCallExpr { func_name, func_args } => {
                    match find_keyed(funcs, func_name) {
                        Some(fi) => {
                            if funcs[fi].params.len() != func_args.len() || fuel == 0 {
                                return false;
                            }
                            match eval_args(scopes, func_args) {
                                Some(vals) => {
                                    let mut callee_env = Env::new();
                                    proof {
                                        assert(env_model(callee_env) =~= Map::<
                                            Seq<char>,
                                            (VarType, Value),
                                        >::empty());
                                    }
                                    let np = funcs[fi].params.len();
                                    let mut p: usize = 0;
                                    while p < np
                                        invariant
                                            fi < funcs@.len(),
                                            np == funcs@[fi as int].params@.len(),
                                            np == vals@.len(),
                                            p <= np,
                                            env_model(callee_env) == param_binding(
                                                funcs@[fi as int].params@,
                                                vals@,
                                                p as int,
                                            ),
                                        decreases np - p,
                                    {
                                        let ghost pre_env = callee_env;
                                        callee_env.set_var(
                                            funcs[fi].params[p].0.clone(),
                                            funcs[fi].params[p].1,
                                            vals[p].duplicate(),
                                        );
                                        proof {
                                            assert(env_model(callee_env) =~= env_model(
                                                pre_env,
                                            ).insert(
                                                funcs@[fi as int].params@[p as int].0@,
                                                (
                                                    funcs@[fi as int].params@[p as int].1,
                                                    vals@[p as int],
                                                ),
                                            ));
                                        }
                                        p = p + 1;
                                    }
                                    let mut callee_scopes: Vec<Env> = Vec::new();
                                    callee_scopes.push(callee_env);
                                    proof {
                                        assert(stack_model(callee_scopes@) =~= seq![
                                            param_binding(
                                                funcs@[fi as int].params@,
                                                vals@,
                                                funcs@[fi as int].params@.len() as int,
                                            ),
                                        ]);
                                    }
                                    let body = &funcs[fi].body;
                                    match exec_stmts(
                                        &mut callee_scopes,
                                        body,
                                        events,
                                        funcs,
                                        sends,
                                        fuel - 1,
                                    ) {
                                        Ok(()) => true,
                                        Err(_) => false,
                                    }
                                },
                                None => false,
                            }
                        },
                        None => false,
                    }
                },
                _ => {
                    match eval_expr(scopes, e) {
                        Some(_) => true,
                        None => false,
                    }
                },
            }
        },
    }
}

/// Assigns into the innermost scope that binds the name; `false` when no
/// scope does.
fn assign_var(scopes: &mut Vec<Env>, name: &String, v: Value) -> (ok: bool)
    ensures
        match model_assign(stack_model(old(scopes)@), name@, v) {
            Some(st) => ok && stack_model(final(scopes)@) == st,
            None => !ok && final(scopes)@ == old(scopes)@,
        },
        final(scopes)@.len() == old(scopes)@.len(),
{
    let n = scopes.len();
    let mut i: usize = n;
    while i > 0
        invariant
            n == scopes@.len(),
            i <= n,
            scopes@ == old(scopes)@,
            forall|k: int|
                i <= k < n ==> !(#[trigger] stack_model(scopes@)[k]).dom().contains(name@),
        decreases i,
    {
        i = i - 1;
        let found = match scopes[i].get_var(name) {
            Some(p) => Some(p.0),
            None => None,
        };
        match found {
            Some(t) => {
                let ghost pre = scopes@;
                scopes[i].set_var(name.clone(), t, v);
                proof {
                    assert(env_model(scopes@[i as int]) =~= env_model(pre[i as int]).insert(
                        name@,
                        (t, v),
                    ));
                    assert(stack_model(scopes@) =~= stack_model(pre).update(
                        i as int,
                        stack_model(pre)[i as int].insert(name@, (t, v)),
                    )) by {
                        assert forall|k: int| 0 <= k < scopes@.len() implies stack_model(
                            scopes@,
                        )[k] == stack_model(pre).update(
                            i as int,
                            stack_model(pre)[i as int].insert(name@, (t, v)),
                        )[k] by {
                            if k != i as int {
                                assert(scopes@[k] == pre[k]);
                            }
                        }
                    }
                    assert(stack_model(pre)[i as int][name@].0 == t);
                    lemma_model_assign_at(stack_model(pre), name@, v, i as int);
                }
                return true;
            },
            None => {
                proof {
                    assert(!(stack_model(scopes@)[i as int]).dom().contains(name@));
                }
            },
        }
    }
    proof {
        lemma_model_assign_none(stack_model(scopes@), name@, v);
    }
    false
}

} // verus!
