//! The type checker: a pure validation pass over the evaluated model.
//!
//! It collects every error rather than stopping at the first.  The rules:
//!
//! * every stored variable's value must inhabit its declared type;
//! * every transition's event name must resolve to a declared event, with
//!   as many bound names as the event has parameters;
//! * every guard must type-check to `bool` under an environment seeding
//!   the bound names with the event's parameter types, then the declaring
//!   state's variables, then the enclosing scopes;
//! * a non-empty `goto` target must name a sibling of the declaring state
//!   (a child of its parent; for the root state, one of its own
//!   children) — resolution does not search the whole tree;
//! * every function call in a guard or body must name a declared function
//!   with matching arity (a send's event pattern is not a function call,
//!   but its arguments are scanned); a call in value position never
//!   type-checks, since function bodies cannot return a value;
//! * a declaration under an already-declared name (event, function, actor
//!   or sibling state) is a duplicate.
//!
//! Arithmetic operators are typed on integers only; `==` and `!=` compare
//! two operands of one type; order comparisons are integer-only; the
//! boolean operators take booleans.  The engine never computes with
//! floats, it only stores and moves them.

use vstd::prelude::*;

use crate::ast::ControlFlowExpr;
use crate::ast::ValueExpr;
use crate::ast::VarType;
use crate::env::Env;
use crate::env::VarEntry;
use crate::lookup::lookup_keyed;
use crate::lookup::find_keyed;
use crate::runtime::Actor;
use crate::runtime::EventSignature;
use crate::runtime::FuncSignature;
use crate::runtime::InterpretationUnit;
use crate::runtime::State;
use crate::runtime::Transition;
use crate::runtime::TransitionGroup;
use crate::runtime::TransitionTable;

verus! {

/// A defect the type checker reports.  Compilation fails when any exist;
/// callers receive the full list.
#[derive(Debug)]
pub enum TypeError {
    /// A variable's stored value does not inhabit its declared type.
    VarInitMismatch { var: String },
    /// A transition reacts to an event that no declaration introduces.
    UnknownEvent { event: String },
    /// A transition binds more or fewer names than its event has
    /// parameters.
    ArityMismatch { event: String },
    /// A guard expression does not type-check to `bool`.
    GuardNotBool { event: String },
    /// A transition's target names no sibling state.
    UnknownState { target: String },
    /// A call names no declared function, or disagrees with its arity.
    UnknownFunction { func: String },
    /// A second declaration under one name.
    DuplicateDeclaration { name: String },
}

/// A typing environment: names with their declared types, innermost
/// scope first; a name means its first entry.
pub type TypeEnv = Vec<(String, VarType)>;

/// Resolves `n` to the type of its first entry.
pub open spec fn lookup_type(tenv: Seq<(String, VarType)>, n: Seq<char>) -> Option<VarType>
    decreases tenv.len(),
{
    if tenv.len() == 0 {
        None
    } else if tenv[0].0@ == n {
        Some(tenv[0].1)
    } else {
        lookup_type(tenv.drop_first(), n)
    }
}

/// Looks a name up in a typing environment.
fn find_type(tenv: &TypeEnv, name: &String) -> (r: Option<VarType>)
    ensures
        r == lookup_type(tenv@, name@),
{
    let n = tenv.len();
    let mut i: usize = 0;
    while i < n
        invariant
            n == tenv@.len(),
            i <= n,
            forall|j: int| 0 <= j < i ==> tenv@[j].0@ != name@,
        decreases n - i,
    {
        if tenv[i].0 == *name {
            proof {
                lemma_type_at(tenv@, name@, i as int);
            }
            return Some(tenv[i].1);
        }
        i = i + 1;
    }
    proof {
        lemma_type_absent(tenv@, name@);
    }
    None
}

proof fn lemma_type_at(s: Seq<(String, VarType)>, n: Seq<char>, i: int)
    requires
        0 <= i < s.len(),
        forall|j: int| 0 <= j < i ==> s[j].0@ != n,
        s[i].0@ == n,
    ensures
        lookup_type(s, n) == Some(s[i].1),
    decreases i,
{
    if i > 0 {
        lemma_type_at(s.drop_first(), n, i - 1);
    }
}

proof fn lemma_type_absent(s: Seq<(String, VarType)>, n: Seq<char>)
    requires
        forall|j: int| 0 <= j < s.len() ==> s[j].0@ != n,
    ensures
        lookup_type(s, n) is None,
    decreases s.len(),
{
    if s.len() > 0 {
        lemma_type_absent(s.drop_first(), n);
    }
}

/// The type of an expression under a typing environment, or `None` when
/// it is ill-typed or mentions an unbound name.  A call never types: the
/// language's function bodies cannot return a value, so a call in value
/// position can never evaluate, and the checker rejects it — calls are
/// statements, checked for resolution by the scans below.
pub open spec fn spec_type_of(
    e: ValueExpr,
    tenv: Seq<(String, VarType)>,
    funcs: Seq<FuncSignature>,
) -> Option<VarType>
    decreases e,
{
    match e {
        ValueExpr::Bool(_) => Some(VarType::BoolType),
        ValueExpr::Int(_) => Some(VarType::IntType),
        ValueExpr::Float(_) => Some(VarType::FloatType),
        ValueExpr::Str(_) => Some(VarType::StringType),
        ValueExpr::Ident(n) => lookup_type(tenv, n@),
        ValueExpr::AddExpr { l, r } => spec_arith_type(
            spec_type_of(*l, tenv, funcs),
            spec_type_of(*r, tenv, funcs),
        ),
        ValueExpr::SubExpr { l, r } => spec_arith_type(
            spec_type_of(*l, tenv, funcs),
            spec_type_of(*r, tenv, funcs),
        ),
        ValueExpr::MulExpr { l, r } => spec_arith_type(
            spec_type_of(*l, tenv, funcs),
            spec_type_of(*r, tenv, funcs),
        ),
        ValueExpr::DivExpr { l, r } => spec_arith_type(
            spec_type_of(*l, tenv, funcs),
            spec_type_of(*r, tenv, funcs),
        ),
        ValueExpr::NotExpr { v } => if spec_type_of(*v, tenv, funcs) == Some(VarType::BoolType) {
            Some(VarType::BoolType)
        } else {
            None
        },
        ValueExpr::OrExpr { l, r } => spec_bool_type(
            spec_type_of(*l, tenv, funcs),
            spec_type_of(*r, tenv, funcs),
        ),
        ValueExpr::AndExpr { l, r } => spec_bool_type(
            spec_type_of(*l, tenv, funcs),
            spec_type_of(*r, tenv, funcs),
        ),
        ValueExpr::XorExpr { l, r } => spec_bool_type(
            spec_type_of(*l, tenv, funcs),
            spec_type_of(*r, tenv, funcs),
        ),
        ValueExpr::EqExpr { l, r } => spec_eq_type(
            spec_type_of(*l, tenv, funcs),
            spec_type_of(*r, tenv, funcs),
        ),
        ValueExpr::NeqExpr { l, r } => spec_eq_type(
            spec_type_of(*l, tenv, funcs),
            spec_type_of(*r, tenv, funcs),
        ),
        ValueExpr::LeqExpr { l, r } => spec_cmp_type(
            spec_type_of(*l, tenv, funcs),
            spec_type_of(*r, tenv, funcs),
        ),
        ValueExpr::GeqExpr { l, r } => spec_cmp_type(
            spec_type_of(*l, tenv, funcs),
            spec_type_of(*r, tenv, funcs),
        ),
        ValueExpr::LtExpr { l, r } => spec_cmp_type(
            spec_type_of(*l, tenv, funcs),
            spec_type_of(*r, tenv, funcs),
        ),
        ValueExpr::GtExpr { l, r } => spec_cmp_type(
            spec_type_of(*l, tenv, funcs),
            spec_type_of(*r, tenv, funcs),
        ),
        ValueExpr::FuncCallExpr { .. } => None,
    }
}

/// Arithmetic is typed on integers only.
pub open spec fn spec_arith_type(l: Option<VarType>, r: Option<VarType>) -> Option<VarType> {
    if l == Some(VarType::IntType) && r == Some(VarType::IntType) {
        Some(VarType::IntType)
    } else {
        None
    }
}

/// The boolean connectives take two booleans.
pub open spec fn spec_bool_type(l: Option<VarType>, r: Option<VarType>) -> Option<VarType> {
    if l == Some(VarType::BoolType) && r == Some(VarType::BoolType) {
        Some(VarType::BoolType)
    } else {
        None
    }
}

/// Equality compares two operands of one type.
pub open spec fn spec_eq_type(l: Option<VarType>, r: Option<VarType>) -> Option<VarType> {
    if l is Some && l == r {
        Some(VarType::BoolType)
    } else {
        None
    }
}

/// Order comparisons are typed on integers only.
pub open spec fn spec_cmp_type(l: Option<VarType>, r: Option<VarType>) -> Option<VarType> {
    if l == Some(VarType::IntType) && r == Some(VarType::IntType) {
        Some(VarType::BoolType)
    } else {
        None
    }
}

/// Infers the type of an expression under a typing environment.
pub fn type_of_expr(e: &ValueExpr, tenv: &TypeEnv, funcs: &Vec<FuncSignature>) -> (r: Option<
    VarType,
>)
    ensures
        r == spec_type_of(*e, tenv@, funcs@),
    decreases *e,
{
    match e {
        ValueExpr::Bool(_) => Some(VarType::BoolType),
        ValueExpr::Int(_) => Some(VarType::IntType),
        ValueExpr::Float(_) => Some(VarType::FloatType),
        ValueExpr::Str(_) => Some(VarType::StringType),
        ValueExpr::Ident(n) => find_type(tenv, n),
        ValueExpr::AddExpr { l, r } => arith_type(
            type_of_expr(l, tenv, funcs),
            type_of_expr(r, tenv, funcs),
        ),
        ValueExpr::SubExpr { l, r } => arith_type(
            type_of_expr(l, tenv, funcs),
            type_of_expr(r, tenv, funcs),
        ),
        ValueExpr::MulExpr { l, r } => arith_type(
            type_of_expr(l, tenv, funcs),
            type_of_expr(r, tenv, funcs),
        ),
        ValueExpr::DivExpr { l, r } => arith_type(
            type_of_expr(l, tenv, funcs),
            type_of_expr(r, tenv, funcs),
        ),
        ValueExpr::NotExpr { v } => {
            let t = type_of_expr(v, tenv, funcs);
            if matches!(t, Some(VarType::BoolType)) {
                Some(VarType::BoolType)
            } else {
                None
            }
        },
        ValueExpr::OrExpr { l, r } => bool_type(
            type_of_expr(l, tenv, funcs),
            type_of_expr(r, tenv, funcs),
        ),
        ValueExpr::AndExpr { l, r } => bool_type(
            type_of_expr(l, tenv, funcs),
            type_of_expr(r, tenv, funcs),
        ),
        ValueExpr::XorExpr { l, r } => bool_type(
            type_of_expr(l, tenv, funcs),
            type_of_expr(r, tenv, funcs),
        ),
        ValueExpr::EqExpr { l, r } => eq_type(
            type_of_expr(l, tenv, funcs),
            type_of_expr(r, tenv, funcs),
        ),
        ValueExpr::NeqExpr { l, r } => eq_type(
            type_of_expr(l, tenv, funcs),
            type_of_expr(r, tenv, funcs),
        ),
        ValueExpr::LeqExpr { l, r } => cmp_type(
            type_of_expr(l, tenv, funcs),
            type_of_expr(r, tenv, funcs),
        ),
        ValueExpr::GeqExpr { l, r } => cmp_type(
            type_of_expr(l, tenv, funcs),
            type_of_expr(r, tenv, funcs),
        ),
        ValueExpr::LtExpr { l, r } => cmp_type(
            type_of_expr(l, tenv, funcs),
            type_of_expr(r, tenv, funcs),
        ),
        ValueExpr::GtExpr { l, r } => cmp_type(
            type_of_expr(l, tenv, funcs),
            type_of_expr(r, tenv, funcs),
        ),
        ValueExpr::FuncCallExpr { .. } => None,
    }
}

/// Decides [`spec_arith_type`].
fn arith_type(l: Option<VarType>, r: Option<VarType>) -> (t: Option<VarType>)
    ensures
        t == spec_arith_type(l, r),
{
    if matches!(l, Some(VarType::IntType)) && matches!(r, Some(VarType::IntType)) {
        Some(VarType::IntType)
    } else {
        None
    }
}

/// Decides [`spec_bool_type`].
fn bool_type(l: Option<VarType>, r: Option<VarType>) -> (t: Option<VarType>)
    ensures
        t == spec_bool_type(l, r),
{
    if matches!(l, Some(VarType::BoolType)) && matches!(r, Some(VarType::BoolType)) {
        Some(VarType::BoolType)
    } else {
        None
    }
}

/// Decides [`spec_eq_type`].
fn eq_type(l: Option<VarType>, r: Option<VarType>) -> (t: Option<VarType>)
    ensures
        t == spec_eq_type(l, r),
{
    match (l, r) {
        (Some(a), Some(b)) => if a == b {
            Some(VarType::BoolType)
        } else {
            None
        },
        _ => None,
    }
}

/// Decides [`spec_cmp_type`].
fn cmp_type(l: Option<VarType>, r: Option<VarType>) -> (t: Option<VarType>)
    ensures
        t == spec_cmp_type(l, r),
{
    if matches!(l, Some(VarType::IntType)) && matches!(r, Some(VarType::IntType)) {
        Some(VarType::BoolType)
    } else {
        None
    }
}

// ---------------------------------------------------------------------
// Function-call resolution inside guards and bodies.
// ---------------------------------------------------------------------

/// Whether a call resolves: the callee exists with matching arity.
pub open spec fn call_resolves(
    func_name: String,
    func_args: Seq<ValueExpr>,
    funcs: Seq<FuncSignature>,
) -> bool {
    match lookup_keyed(funcs, func_name@) {
        Some(f) => f.params@.len() == func_args.len(),
        None => false,
    }
}

/// The unresolved-call errors inside an expression, in reading order: a
/// call's own error, then those of its arguments.
pub open spec fn spec_scan_expr(e: ValueExpr, funcs: Seq<FuncSignature>) -> Seq<TypeError>
    decreases e, 0int,
{
    match e {
        ValueExpr::NotExpr { v } => spec_scan_expr(*v, funcs),
        ValueExpr::AddExpr { l, r } => spec_scan_expr(*l, funcs) + spec_scan_expr(*r, funcs),
        ValueExpr::SubExpr { l, r } => spec_scan_expr(*l, funcs) + spec_scan_expr(*r, funcs),
        ValueExpr::MulExpr { l, r } => spec_scan_expr(*l, funcs) + spec_scan_expr(*r, funcs),
        ValueExpr::DivExpr { l, r } => spec_scan_expr(*l, funcs) + spec_scan_expr(*r, funcs),
        ValueExpr::OrExpr { l, r } => spec_scan_expr(*l, funcs) + spec_scan_expr(*r, funcs),
        ValueExpr::AndExpr { l, r } => spec_scan_expr(*l, funcs) + spec_scan_expr(*r, funcs),
        ValueExpr::XorExpr { l, r } => spec_scan_expr(*l, funcs) + spec_scan_expr(*r, funcs),
        ValueExpr::EqExpr { l, r } => spec_scan_expr(*l, funcs) + spec_scan_expr(*r, funcs),
        ValueExpr::NeqExpr { l, r } => spec_scan_expr(*l, funcs) + spec_scan_expr(*r, funcs),
        ValueExpr::LeqExpr { l, r } => spec_scan_expr(*l, funcs) + spec_scan_expr(*r, funcs),
        ValueExpr::GeqExpr { l, r } => spec_scan_expr(*l, funcs) + spec_scan_expr(*r, funcs),
        ValueExpr::LtExpr { l, r } => spec_scan_expr(*l, funcs) + spec_scan_expr(*r, funcs),
        ValueExpr::GtExpr { l, r } => spec_scan_expr(*l, funcs) + spec_scan_expr(*r, funcs),
        ValueExpr::FuncCallExpr { func_name, func_args } => {
            let own: Seq<TypeError> = if call_resolves(func_name, func_args@, funcs) {
                Seq::empty()
            } else {
                seq![TypeError::UnknownFunction { func: func_name }]
            };
            own + spec_scan_args(func_args@, func_args@.len() as int, funcs)
        },
        _ => Seq::empty(),
    }
}

/// The unresolved-call errors inside the first `upto` arguments.
pub open spec fn spec_scan_args(
    args: Seq<ValueExpr>,
    upto: int,
    funcs: Seq<FuncSignature>,
) -> Seq<TypeError>
    decreases args, upto,
{
    if upto <= 0 || upto > args.len() {
        Seq::empty()
    } else {
        spec_scan_args(args, upto - 1, funcs) + spec_scan_expr(args[upto - 1], funcs)
    }
}

/// Appends the unresolved-call errors inside `e` to `out`.
pub fn scan_expr(e: &ValueExpr, funcs: &Vec<FuncSignature>, out: &mut Vec<TypeError>)
    ensures
        final(out)@ == old(out)@ + spec_scan_expr(*e, funcs@),
    decreases *e,
{
    match e {
        ValueExpr::NotExpr { v } => {
            scan_expr(v, funcs, out);
        },
        ValueExpr::AddExpr { l, r } => {
            scan_expr(l, funcs, out);
            scan_expr(r, funcs, out);
        },
        ValueExpr::SubExpr { l, r } => {
            scan_expr(l, funcs, out);
            scan_expr(r, funcs, out);
        },
        ValueExpr::MulExpr { l, r } => {
            scan_expr(l, funcs, out);
            scan_expr(r, funcs, out);
        },
        ValueExpr::DivExpr { l, r } => {
            scan_expr(l, funcs, out);
            scan_expr(r, funcs, out);
        },
        ValueExpr::OrExpr { l, r } => {
            scan_expr(l, funcs, out);
            scan_expr(r, funcs, out);
        },
        ValueExpr::AndExpr { l, r } => {
            scan_expr(l, funcs, out);
            scan_expr(r, funcs, out);
        },
        ValueExpr::XorExpr { l, r } => {
            scan_expr(l, funcs, out);
            scan_expr(r, funcs, out);
        },
        ValueExpr::EqExpr { l, r } => {
            scan_expr(l, funcs, out);
            scan_expr(r, funcs, out);
        },
        ValueExpr::NeqExpr { l, r } => {
            scan_expr(l, funcs, out);
            scan_expr(r, funcs, out);
        },
        ValueExpr::LeqExpr { l, r } => {
            scan_expr(l, funcs, out);
            scan_expr(r, funcs, out);
        },
        ValueExpr::GeqExpr { l, r } => {
            scan_expr(l, funcs, out);
            scan_expr(r, funcs, out);
        },
        ValueExpr::LtExpr { l, r } => {
            scan_expr(l, funcs, out);
            scan_expr(r, funcs, out);
        },
        ValueExpr::GtExpr { l, r } => {
            scan_expr(l, funcs, out);
            scan_expr(r, funcs, out);
        },
        ValueExpr::FuncCallExpr { func_name, func_args } => {
            let resolved = match find_keyed(funcs, func_name) {
                Some(i) => funcs[i].params.len() == func_args.len(),
                None => false,
            };
            if !resolved {
                out.push(TypeError::UnknownFunction { func: func_name.clone() });
            }
            scan_args(func_args, funcs, out);
        },
        _ => {},
    }
}

/// Appends the unresolved-call errors inside each argument to `out`.
fn scan_args(args: &Vec<ValueExpr>, funcs: &Vec<FuncSignature>, out: &mut Vec<TypeError>)
    ensures
        final(out)@ == old(out)@ + spec_scan_args(args@, args@.len() as int, funcs@),
    decreases args@,
{
    let n = args.len();
    let mut i: usize = 0;
    while i < n
        invariant
            n == args@.len(),
            i <= n,
            out@ == old(out)@ + spec_scan_args(args@, i as int, funcs@),
        decreases n - i,
    {
        proof {
            assert(decreases_to!(args@ => args@[i as int]));
        }
        scan_expr(&args[i], funcs, out);
        i = i + 1;
    }
}

// ---------------------------------------------------------------------
// Statements and transition bodies.
// ---------------------------------------------------------------------

/// The unresolved-call errors inside one statement.  A send's event
/// pattern names an event, not a function: only its arguments are
/// scanned.
pub open spec fn spec_scan_stmt(s: ControlFlowExpr, funcs: Seq<FuncSignature>) -> Seq<TypeError> {
    match s {
        ControlFlowExpr::VarDecl { initial, .. } => match initial {
            Some(e) => spec_scan_expr(e, funcs),
            None => Seq::empty(),
        },
        ControlFlowExpr::SendStatement { event, .. } => match event {
            ValueExpr::FuncCallExpr { func_name, func_args } => spec_scan_args(
                func_args@,
                func_args@.len() as int,
                funcs,
            ),
            _ => spec_scan_expr(event, funcs),
        },
        ControlFlowExpr::AssignStatement { val_expr, .. } => spec_scan_expr(val_expr, funcs),
        ControlFlowExpr::FuncCallStatement(e) => spec_scan_expr(e, funcs),
    }
}

/// The unresolved-call errors inside the first `upto` statements.
pub open spec fn spec_scan_body(
    body: Seq<ControlFlowExpr>,
    upto: int,
    funcs: Seq<FuncSignature>,
) -> Seq<TypeError>
    decreases upto,
{
    if upto <= 0 || upto > body.len() {
        Seq::empty()
    } else {
        spec_scan_body(body, upto - 1, funcs) + spec_scan_stmt(body[upto - 1], funcs)
    }
}

/// Appends the unresolved-call errors inside one statement to `out`.
fn scan_stmt(s: &ControlFlowExpr, funcs: &Vec<FuncSignature>, out: &mut Vec<TypeError>)
    ensures
        final(out)@ == old(out)@ + spec_scan_stmt(*s, funcs@),
{
    match s {
        ControlFlowExpr::VarDecl { initial, .. } => {
            match initial {
                Some(e) => scan_expr(e, funcs, out),
                None => {},
            }
        },
        ControlFlowExpr::SendStatement { event, .. } => {
            match event {
                ValueExpr::FuncCallExpr { func_name, func_args } => {
                    scan_args(func_args, funcs, out);
                },
                _ => scan_expr(event, funcs, out),
            }
        },
        ControlFlowExpr::AssignStatement { val_expr, .. } => scan_expr(val_expr, funcs, out),
        ControlFlowExpr::FuncCallStatement(e) => scan_expr(e, funcs, out),
    }
}

/// Appends the unresolved-call errors inside each statement to `out`.
fn scan_body(body: &Vec<ControlFlowExpr>, funcs: &Vec<FuncSignature>, out: &mut Vec<TypeError>)
    ensures
        final(out)@ == old(out)@ + spec_scan_body(body@, body@.len() as int, funcs@),
{
    let n = body.len();
    let mut i: usize = 0;
    while i < n
        invariant
            n == body@.len(),
            i <= n,
            out@ == old(out)@ + spec_scan_body(body@, i as int, funcs@),
        decreases n - i,
    {
        scan_stmt(&body[i], funcs, out);
        i = i + 1;
    }
}

// ---------------------------------------------------------------------
// Transitions.
// ---------------------------------------------------------------------

/// The views of a list of names.
pub open spec fn name_views(v: Seq<String>) -> Seq<Seq<char>> {
    Seq::new(v.len(), |i: int| v[i]@)
}

/// The typing environment a transition's bound names contribute: each
/// name at the type of its positional event parameter.
pub open spec fn bound_tenv(bound: Seq<String>, params: Seq<VarType>) -> Seq<(String, VarType)> {
    Seq::new(bound.len(), |i: int| (bound[i], params[i]))
}

/// The guard errors among the first `upto` guard expressions: one per
/// guard that does not type-check to `bool`.
pub open spec fn spec_guard_errs(
    conds: Seq<ValueExpr>,
    upto: int,
    tenv: Seq<(String, VarType)>,
    funcs: Seq<FuncSignature>,
    event: String,
) -> Seq<TypeError>
    decreases upto,
{
    if upto <= 0 || upto > conds.len() {
        Seq::empty()
    } else {
        let p = spec_guard_errs(conds, upto - 1, tenv, funcs, event);
        if spec_type_of(conds[upto - 1], tenv, funcs) == Some(VarType::BoolType) {
            p
        } else {
            p.push(TypeError::GuardNotBool { event })
        }
    }
}

/// The unresolved-call errors inside the first `upto` guards.
pub open spec fn spec_cond_scans(
    conds: Seq<ValueExpr>,
    upto: int,
    funcs: Seq<FuncSignature>,
) -> Seq<TypeError>
    decreases upto,
{
    if upto <= 0 || upto > conds.len() {
        Seq::empty()
    } else {
        spec_cond_scans(conds, upto - 1, funcs) + spec_scan_expr(conds[upto - 1], funcs)
    }
}

/// Whether a transition carries entry or exit actions rather than an
/// event reaction.
pub open spec fn is_reserved(t: Transition) -> bool {
    t.event_name@ == "_ENTRY"@ || t.event_name@ == "_EXIT"@
}

/// The event-resolution, arity and guard errors of a transition.  With
/// an unknown event the guards cannot be seeded, so only the resolution
/// error is reported; likewise under an arity mismatch.
pub open spec fn spec_trans_head(
    t: Transition,
    outer: Seq<(String, VarType)>,
    events: Seq<EventSignature>,
    funcs: Seq<FuncSignature>,
) -> Seq<TypeError> {
    if is_reserved(t) {
        Seq::empty()
    } else {
        match lookup_keyed(events, t.event_name@) {
            None => seq![TypeError::UnknownEvent { event: t.event_name }],
            Some(sig) => if sig.params@.len() != t.bound_vars@.len() {
                seq![TypeError::ArityMismatch { event: t.event_name }]
            } else {
                spec_guard_errs(
                    t.conditions@,
                    t.conditions@.len() as int,
                    bound_tenv(t.bound_vars@, sig.params@) + outer,
                    funcs,
                    t.event_name,
                )
            },
        }
    }
}

/// Every error a transition contributes, in order: its event resolution
/// or arity or guard errors, then an unresolved target, then the calls
/// its guards and body make.
pub open spec fn spec_check_transition(
    t: Transition,
    outer: Seq<(String, VarType)>,
    targets: Seq<Seq<char>>,
    events: Seq<EventSignature>,
    funcs: Seq<FuncSignature>,
) -> Seq<TypeError> {
    spec_check_transition_head_targ(t, outer, targets, events, funcs) + spec_cond_scans(
        t.conditions@,
        t.conditions@.len() as int,
        funcs,
    ) + spec_scan_body(t.body@, t.body@.len() as int, funcs)
}

/// Appends every error `t` contributes to `out`.
fn check_transition(
    t: &Transition,
    outer: &TypeEnv,
    targets: &Vec<String>,
    events: &Vec<EventSignature>,
    funcs: &Vec<FuncSignature>,
    out: &mut Vec<TypeError>,
)
    ensures
        final(out)@ == old(out)@ + spec_check_transition(
            *t,
            outer@,
            name_views(targets@),
            events@,
            funcs@,
        ),
{
    let ghost base = out@;
    let entry = entry_name();
    let exit = exit_name();
    let reserved = t.event_name == entry || t.event_name == exit;
    if !reserved {
        match find_keyed(events, &t.event_name) {
            None => {
                out.push(TypeError::UnknownEvent { event: t.event_name.clone() });
            },
            Some(si) => {
                if events[si].params.len() != t.bound_vars.len() {
                    out.push(TypeError::ArityMismatch { event: t.event_name.clone() });
                } else {
                    let ghost sig = events@[si as int];
                    let mut tenv: TypeEnv = Vec::new();
                    let nb = t.bound_vars.len();
                    let mut i: usize = 0;
                    while i < nb
                        invariant
                            nb == t.bound_vars@.len(),
                            nb == events@[si as int].params@.len(),
                            si < events@.len(),
                            i <= nb,
                            tenv@ == bound_tenv(t.bound_vars@, events@[si as int].params@).take(
                                i as int,
                            ),
                        decreases nb - i,
                    {
                        tenv.push((t.bound_vars[i].clone(), events[si].params[i]));
                        proof {
                            assert(tenv@ =~= bound_tenv(
                                t.bound_vars@,
                                events@[si as int].params@,
                            ).take(i as int + 1));
                        }
                        i = i + 1;
                    }
                    let no = outer.len();
                    let mut j: usize = 0;
                    while j < no
                        invariant
                            no == outer@.len(),
                            j <= no,
                            nb == t.bound_vars@.len(),
                            nb == events@[si as int].params@.len(),
                            si < events@.len(),
                            tenv@ == bound_tenv(t.bound_vars@, events@[si as int].params@)
                                + outer@.take(j as int),
                        decreases no - j,
                    {
                        let pair = (outer[j].0.clone(), outer[j].1);
                        tenv.push(pair);
                        proof {
                            assert(tenv@ =~= bound_tenv(
                                t.bound_vars@,
                                events@[si as int].params@,
                            ) + outer@.take(j as int + 1));
                        }
                        j = j + 1;
                    }
                    proof {
                        assert(outer@.take(no as int) =~= outer@);
                    }
                    let nc = t.conditions.len();
                    let mut k: usize = 0;
                    while k < nc
                        invariant
                            nc == t.conditions@.len(),
                            k <= nc,
                            tenv@ == bound_tenv(t.bound_vars@, events@[si as int].params@)
                                + outer@,
                            si < events@.len(),
                            nb == t.bound_vars@.len(),
                            nb == events@[si as int].params@.len(),
                            out@ == old(out)@ + spec_guard_errs(
                                t.conditions@,
                                k as int,
                                tenv@,
                                funcs@,
                                t.event_name,
                            ),
                        decreases nc - k,
                    {
                        let ty = type_of_expr(&t.conditions[k], &tenv, funcs);
                        if !matches!(ty, Some(VarType::BoolType)) {
                            out.push(TypeError::GuardNotBool { event: t.event_name.clone() });
                        }
                        k = k + 1;
                    }
                }
            },
        }
    }
    proof {
        assert(out@ =~= base + spec_trans_head(
            *t,
            outer@,
            events@,
            funcs@,
        ));
    }
    if t.target.as_str().unicode_len() > 0 {
        let found = contains_name(targets, &t.target);
        if !found {
            out.push(TypeError::UnknownState { target: t.target.clone() });
        }
    }
    let ghost base2 = out@;
    proof {
        assert(out@ =~= base + spec_check_transition_head_targ(
            *t,
            outer@,
            name_views(targets@),
            events@,
            funcs@,
        ));
    }
    let nc = t.conditions.len();
    let mut k: usize = 0;
    while k < nc
        invariant
            nc == t.conditions@.len(),
            k <= nc,
            out@ == base2 + spec_cond_scans(t.conditions@, k as int, funcs@),
        decreases nc - k,
    {
        scan_expr(&t.conditions[k], funcs, out);
        k = k + 1;
    }
    scan_body(&t.body, funcs, out);
    proof {
        assert(final(out)@ =~= old(out)@ + spec_check_transition(
            *t,
            outer@,
            name_views(targets@),
            events@,
            funcs@,
        ));
    }
}

/// Whether one of the names is the given string.
fn contains_name(names: &Vec<String>, target: &String) -> (r: bool)
    ensures
        r == name_views(names@).contains(target@),
{
    let n = names.len();
    let mut i: usize = 0;
    while i < n
        invariant
            n == names@.len(),
            i <= n,
            forall|j: int| 0 <= j < i ==> names@[j]@ != target@,
        decreases n - i,
    {
        if names[i] == *target {
            proof {
                assert(name_views(names@)[i as int] == target@);
            }
            return true;
        }
        i = i + 1;
    }
    proof {
        assert forall|j: int| 0 <= j < name_views(names@).len() implies name_views(names@)[j]
            != target@ by {
            assert(name_views(names@)[j] == names@[j]@);
        }
        if name_views(names@).contains(target@) {
            let j = choose|j: int|
                0 <= j < name_views(names@).len() && name_views(names@)[j] == target@;
        }
    }
    false
}

/// The event, guard and target errors of a transition, without the call
/// scans: the prefix the scans are appended to.
pub open spec fn spec_check_transition_head_targ(
    t: Transition,
    outer: Seq<(String, VarType)>,
    targets: Seq<Seq<char>>,
    events: Seq<EventSignature>,
    funcs: Seq<FuncSignature>,
) -> Seq<TypeError> {
    let targ: Seq<TypeError> = if t.target@.len() > 0 && !targets.contains(t.target@) {
        seq![TypeError::UnknownState { target: t.target }]
    } else {
        Seq::empty()
    };
    spec_trans_head(t, outer, events, funcs) + targ
}

/// The reserved name carrying entry actions, for comparisons.
fn entry_name() -> (r: String)
    ensures
        r@ == "_ENTRY"@,
{
    "_ENTRY".to_owned()
}

/// The reserved name carrying exit actions, for comparisons.
fn exit_name() -> (r: String)
    ensures
        r@ == "_EXIT"@,
{
    "_EXIT".to_owned()
}

// ---------------------------------------------------------------------
// Environments, duplicates, and the walk over the whole model.
// ---------------------------------------------------------------------

/// The mismatch errors among the first `upto` stored bindings: one per
/// value that does not inhabit its declared type.
pub open spec fn spec_env_errs(entries: Seq<VarEntry>, upto: int) -> Seq<TypeError>
    decreases upto,
{
    if upto <= 0 || upto > entries.len() {
        Seq::empty()
    } else {
        let p = spec_env_errs(entries, upto - 1);
        let e = entries[upto - 1];
        if e.1.1.spec_kind() == e.1.0 {
            p
        } else {
            p.push(TypeError::VarInitMismatch { var: e.0 })
        }
    }
}

/// Appends the mismatch errors of an environment to `out`.
fn check_env(env: &Env, out: &mut Vec<TypeError>)
    ensures
        final(out)@ == old(out)@ + spec_env_errs(env.entries@, env.entries@.len() as int),
{
    let n = env.entries.len();
    let mut i: usize = 0;
    while i < n
        invariant
            n == env.entries@.len(),
            i <= n,
            out@ == old(out)@ + spec_env_errs(env.entries@, i as int),
        decreases n - i,
    {
        let kind = env.entries[i].1.1.kind();
        if !(kind == env.entries[i].1.0) {
            out.push(TypeError::VarInitMismatch { var: env.entries[i].0.clone() });
        }
        i = i + 1;
    }
}

/// The duplicate errors among the first `upto` event signatures.
pub open spec fn spec_dup_errs_events(s: Seq<EventSignature>, upto: int) -> Seq<TypeError>
    decreases upto,
{
    if upto <= 0 || upto > s.len() {
        Seq::empty()
    } else {
        let p = spec_dup_errs_events(s, upto - 1);
        if exists|j: int| 0 <= j < upto - 1 && #[trigger] s[j].name@ == s[upto - 1].name@ {
            p.push(TypeError::DuplicateDeclaration { name: s[upto - 1].name })
        } else {
            p
        }
    }
}

/// Appends the duplicate errors among event names to `out`.
fn check_dup_events(v: &Vec<EventSignature>, out: &mut Vec<TypeError>)
    ensures
        final(out)@ == old(out)@ + spec_dup_errs_events(v@, v@.len() as int),
{
    let n = v.len();
    let mut k: usize = 0;
    while k < n
        invariant
            n == v@.len(),
            k <= n,
            out@ == old(out)@ + spec_dup_errs_events(v@, k as int),
        decreases n - k,
    {
        let nm = v[k].name.clone();
        match find_keyed(v, &nm) {
            Some(i) => {
                if i < k {
                    out.push(TypeError::DuplicateDeclaration { name: nm });
                }
            },
            None => {
                proof {
                    crate::lookup::lemma_keyed_none(v@, nm@);
                    assert(false);
                }
            },
        }
        k = k + 1;
    }
}

/// The duplicate errors among the first `upto` function signatures.
pub open spec fn spec_dup_errs_funcs(s: Seq<FuncSignature>, upto: int) -> Seq<TypeError>
    decreases upto,
{
    if upto <= 0 || upto > s.len() {
        Seq::empty()
    } else {
        let p = spec_dup_errs_funcs(s, upto - 1);
        if exists|j: int| 0 <= j < upto - 1 && #[trigger] s[j].func_name@ == s[upto - 1].func_name@ {
            p.push(TypeError::DuplicateDeclaration { name: s[upto - 1].func_name })
        } else {
            p
        }
    }
}

/// Appends the duplicate errors among function names to `out`.
fn check_dup_funcs(v: &Vec<FuncSignature>, out: &mut Vec<TypeError>)
    ensures
        final(out)@ == old(out)@ + spec_dup_errs_funcs(v@, v@.len() as int),
{
    let n = v.len();
    let mut k: usize = 0;
    while k < n
        invariant
            n == v@.len(),
            k <= n,
            out@ == old(out)@ + spec_dup_errs_funcs(v@, k as int),
        decreases n - k,
    {
        let nm = v[k].func_name.clone();
        match find_keyed(v, &nm) {
            Some(i) => {
                if i < k {
                    out.push(TypeError::DuplicateDeclaration { name: nm });
                }
            },
            None => {
                proof {
                    crate::lookup::lemma_keyed_none(v@, nm@);
                    assert(false);
                }
            },
        }
        k = k + 1;
    }
}

/// The duplicate errors among the first `upto` actors.
pub open spec fn spec_dup_errs_actors(s: Seq<Actor>, upto: int) -> Seq<TypeError>
    decreases upto,
{
    if upto <= 0 || upto > s.len() {
        Seq::empty()
    } else {
        let p = spec_dup_errs_actors(s, upto - 1);
        if exists|j: int| 0 <= j < upto - 1 && #[trigger] s[j].name@ == s[upto - 1].name@ {
            p.push(TypeError::DuplicateDeclaration { name: s[upto - 1].name })
        } else {
            p
        }
    }
}

/// Appends the duplicate errors among actor names to `out`.
fn check_dup_actors(v: &Vec<Actor>, out: &mut Vec<TypeError>)
    ensures
        final(out)@ == old(out)@ + spec_dup_errs_actors(v@, v@.len() as int),
{
    let n = v.len();
    let mut k: usize = 0;
    while k < n
        invariant
            n == v@.len(),
            k <= n,
            out@ == old(out)@ + spec_dup_errs_actors(v@, k as int),
        decreases n - k,
    {
        let nm = v[k].name.clone();
        match find_keyed(v, &nm) {
            Some(i) => {
                if i < k {
                    out.push(TypeError::DuplicateDeclaration { name: nm });
                }
            },
            None => {
                proof {
                    crate::lookup::lemma_keyed_none(v@, nm@);
                    assert(false);
                }
            },
        }
        k = k + 1;
    }
}

/// The duplicate errors among the first `upto` child states.
pub open spec fn spec_dup_errs_states(s: Seq<State>, upto: int) -> Seq<TypeError>
    decreases upto,
{
    if upto <= 0 || upto > s.len() {
        Seq::empty()
    } else {
        let p = spec_dup_errs_states(s, upto - 1);
        if exists|j: int| 0 <= j < upto - 1 && #[trigger] s[j].name@ == s[upto - 1].name@ {
            p.push(TypeError::DuplicateDeclaration { name: s[upto - 1].name })
        } else {
            p
        }
    }
}

/// Appends the duplicate errors among child-state names to `out`.
fn check_dup_states(v: &Vec<State>, out: &mut Vec<TypeError>)
    ensures
        final(out)@ == old(out)@ + spec_dup_errs_states(v@, v@.len() as int),
{
    let n = v.len();
    let mut k: usize = 0;
    while k < n
        invariant
            n == v@.len(),
            k <= n,
            out@ == old(out)@ + spec_dup_errs_states(v@, k as int),
        decreases n - k,
    {
        let nm = v[k].name.clone();
        match find_keyed(v, &nm) {
            Some(i) => {
                if i < k {
                    out.push(TypeError::DuplicateDeclaration { name: nm });
                }
            },
            None => {
                proof {
                    crate::lookup::lemma_keyed_none(v@, nm@);
                    assert(false);
                }
            },
        }
        k = k + 1;
    }
}

/// Every error the first `upto` transitions of one group contribute.
pub open spec fn spec_check_items(
    items: Seq<Transition>,
    upto: int,
    outer: Seq<(String, VarType)>,
    targets: Seq<Seq<char>>,
    events: Seq<EventSignature>,
    funcs: Seq<FuncSignature>,
) -> Seq<TypeError>
    decreases upto,
{
    if upto <= 0 || upto > items.len() {
        Seq::empty()
    } else {
        spec_check_items(items, upto - 1, outer, targets, events, funcs) + spec_check_transition(
            items[upto - 1],
            outer,
            targets,
            events,
            funcs,
        )
    }
}

/// Every error the first `upto` groups of a transition table contribute.
pub open spec fn spec_check_groups(
    groups: Seq<TransitionGroup>,
    upto: int,
    outer: Seq<(String, VarType)>,
    targets: Seq<Seq<char>>,
    events: Seq<EventSignature>,
    funcs: Seq<FuncSignature>,
) -> Seq<TypeError>
    decreases upto,
{
    if upto <= 0 || upto > groups.len() {
        Seq::empty()
    } else {
        spec_check_groups(groups, upto - 1, outer, targets, events, funcs) + spec_check_items(
            groups[upto - 1].items@,
            groups[upto - 1].items@.len() as int,
            outer,
            targets,
            events,
            funcs,
        )
    }
}

/// Appends every error a transition table contributes to `out`.
fn check_groups(
    table: &TransitionTable,
    outer: &TypeEnv,
    targets: &Vec<String>,
    events: &Vec<EventSignature>,
    funcs: &Vec<FuncSignature>,
    out: &mut Vec<TypeError>,
)
    ensures
        final(out)@ == old(out)@ + spec_check_groups(
            table.groups@,
            table.groups@.len() as int,
            outer@,
            name_views(targets@),
            events@,
            funcs@,
        ),
{
    let ng = table.groups.len();
    let mut g: usize = 0;
    while g < ng
        invariant
            ng == table.groups@.len(),
            g <= ng,
            out@ == old(out)@ + spec_check_groups(
                table.groups@,
                g as int,
                outer@,
                name_views(targets@),
                events@,
                funcs@,
            ),
        decreases ng - g,
    {
        let ni = table.groups[g].items.len();
        let ghost items = table.groups@[g as int].items@;
        let mut i: usize = 0;
        while i < ni
            invariant
                g < table.groups@.len(),
                ng == table.groups@.len(),
                ni == items.len(),
                items == table.groups@[g as int].items@,
                i <= ni,
                out@ == old(out)@ + spec_check_groups(
                    table.groups@,
                    g as int,
                    outer@,
                    name_views(targets@),
                    events@,
                    funcs@,
                ) + spec_check_items(
                    items,
                    i as int,
                    outer@,
                    name_views(targets@),
                    events@,
                    funcs@,
                ),
            decreases ni - i,
        {
            check_transition(&table.groups[g].items[i], outer, targets, events, funcs, out);
            i = i + 1;
        }
        i = ni;
        g = g + 1;
    }
}

/// The typing contribution of an environment: each stored binding at its
/// declared type.
pub open spec fn env_pairs(entries: Seq<VarEntry>) -> Seq<(String, VarType)> {
    Seq::new(entries.len(), |i: int| (entries[i].0, entries[i].1.0))
}

/// Builds the typing environment of a scope: its own bindings first,
/// then the enclosing ones.
fn extend_tenv(env: &Env, outer: &TypeEnv) -> (r: TypeEnv)
    ensures
        r@ == env_pairs(env.entries@) + outer@,
{
    let mut r: TypeEnv = Vec::new();
    let n = env.entries.len();
    let mut i: usize = 0;
    while i < n
        invariant
            n == env.entries@.len(),
            i <= n,
            r@ == env_pairs(env.entries@).take(i as int),
        decreases n - i,
    {
        r.push((env.entries[i].0.clone(), env.entries[i].1.0));
        proof {
            assert(r@ =~= env_pairs(env.entries@).take(i as int + 1));
        }
        i = i + 1;
    }
    let no = outer.len();
    let mut j: usize = 0;
    while j < no
        invariant
            no == outer@.len(),
            n == env.entries@.len(),
            j <= no,
            r@ == env_pairs(env.entries@) + outer@.take(j as int),
        decreases no - j,
    {
        r.push((outer[j].0.clone(), outer[j].1));
        proof {
            assert(r@ =~= env_pairs(env.entries@) + outer@.take(j as int + 1));
        }
        j = j + 1;
    }
    proof {
        assert(env_pairs(env.entries@).take(n as int) =~= env_pairs(env.entries@));
        assert(outer@.take(no as int) =~= outer@);
    }
    r
}

/// The names of a state's children.
pub open spec fn child_names(subs: Seq<State>) -> Seq<Seq<char>> {
    Seq::new(subs.len(), |i: int| subs[i].name@)
}

/// Collects the names of a state's children.
fn child_name_vec(subs: &Vec<State>) -> (r: Vec<String>)
    ensures
        name_views(r@) == child_names(subs@),
{
    let mut r: Vec<String> = Vec::new();
    let n = subs.len();
    let mut i: usize = 0;
    while i < n
        invariant
            n == subs@.len(),
            i <= n,
            r@.len() == i,
            forall|j: int| 0 <= j < i ==> #[trigger] r@[j]@ == subs@[j].name@,
        decreases n - i,
    {
        r.push(subs[i].name.clone());
        i = i + 1;
    }
    proof {
        assert(name_views(r@) =~= child_names(subs@));
    }
    r
}

/// Every error a state contributes: its bindings, duplicate child
/// names, its transitions (guards seeded inside its scope, targets among
/// its siblings), then each child in turn, whose targets are this
/// state's children.
pub open spec fn spec_check_state(
    st: State,
    outer: Seq<(String, VarType)>,
    siblings: Seq<Seq<char>>,
    events: Seq<EventSignature>,
    funcs: Seq<FuncSignature>,
) -> Seq<TypeError>
    decreases st, 0int,
{
    spec_env_errs(st.env.entries@, st.env.entries@.len() as int) + spec_dup_errs_states(
        st.subs@,
        st.subs@.len() as int,
    ) + spec_check_groups(
        st.transitions.groups@,
        st.transitions.groups@.len() as int,
        env_pairs(st.env.entries@) + outer,
        siblings,
        events,
        funcs,
    ) + spec_check_children(
        st.subs@,
        st.subs@.len() as int,
        env_pairs(st.env.entries@) + outer,
        child_names(st.subs@),
        events,
        funcs,
    )
}

/// Every error the first `upto` children contribute.
pub open spec fn spec_check_children(
    subs: Seq<State>,
    upto: int,
    tenv: Seq<(String, VarType)>,
    siblings: Seq<Seq<char>>,
    events: Seq<EventSignature>,
    funcs: Seq<FuncSignature>,
) -> Seq<TypeError>
    decreases subs, upto,
{
    if upto <= 0 || upto > subs.len() {
        Seq::empty()
    } else {
        spec_check_children(subs, upto - 1, tenv, siblings, events, funcs) + spec_check_state(
            subs[upto - 1],
            tenv,
            siblings,
            events,
            funcs,
        )
    }
}

/// Appends every error a state and its descendants contribute to `out`.
fn check_state(
    st: &State,
    outer: &TypeEnv,
    targets: &Vec<String>,
    events: &Vec<EventSignature>,
    funcs: &Vec<FuncSignature>,
    out: &mut Vec<TypeError>,
)
    ensures
        final(out)@ == old(out)@ + spec_check_state(
            *st,
            outer@,
            name_views(targets@),
            events@,
            funcs@,
        ),
    decreases *st,
{
    check_env(&st.env, out);
    check_dup_states(&st.subs, out);
    let tenv = extend_tenv(&st.env, outer);
    check_groups(&st.transitions, &tenv, targets, events, funcs, out);
    let kid_names = child_name_vec(&st.subs);
    let ghost base = out@;
    let n = st.subs.len();
    let mut i: usize = 0;
    while i < n
        invariant
            n == st.subs@.len(),
            i <= n,
            tenv@ == env_pairs(st.env.entries@) + outer@,
            name_views(kid_names@) == child_names(st.subs@),
            out@ == base + spec_check_children(
                st.subs@,
                i as int,
                tenv@,
                child_names(st.subs@),
                events@,
                funcs@,
            ),
        decreases n - i,
    {
        proof {
            assert(decreases_to!(*st => st.subs@[i as int]));
        }
        check_state(&st.subs[i], &tenv, &kid_names, events, funcs, out);
        i = i + 1;
    }
}

/// Every error an actor contributes: its bindings, its flat transitions
/// (no targets exist at actor scope), then its state tree.
pub open spec fn spec_check_actor(
    a: Actor,
    events: Seq<EventSignature>,
    funcs: Seq<FuncSignature>,
) -> Seq<TypeError> {
    spec_env_errs(a.env.entries@, a.env.entries@.len() as int) + spec_check_groups(
        a.transitions.groups@,
        a.transitions.groups@.len() as int,
        env_pairs(a.env.entries@),
        Seq::empty(),
        events,
        funcs,
    ) + match a.statemachine {
        Some(st) => spec_check_state(
            st,
            env_pairs(a.env.entries@),
            child_names(st.subs@),
            events,
            funcs,
        ),
        None => Seq::empty(),
    }
}

/// Appends every error an actor contributes to `out`.
fn check_actor(
    a: &Actor,
    events: &Vec<EventSignature>,
    funcs: &Vec<FuncSignature>,
    out: &mut Vec<TypeError>,
)
    ensures
        final(out)@ == old(out)@ + spec_check_actor(*a, events@, funcs@),
{
    check_env(&a.env, out);
    let tenv = extend_tenv(&a.env, &Vec::new());
    proof {
        assert(tenv@ =~= env_pairs(a.env.entries@));
    }
    let no_targets: Vec<String> = Vec::new();
    proof {
        assert(name_views(no_targets@) =~= Seq::<Seq<char>>::empty());
    }
    check_groups(&a.transitions, &tenv, &no_targets, events, funcs, out);
    match &a.statemachine {
        Some(st) => {
            let kid_names = child_name_vec(&st.subs);
            check_state(st, &tenv, &kid_names, events, funcs, out);
        },
        None => {
            proof {
                assert(final(out)@ =~= old(out)@ + spec_check_actor(*a, events@, funcs@));
            }
        },
    }
}

/// Every error the first `upto` actors contribute.
pub open spec fn spec_check_actors(
    actors: Seq<Actor>,
    upto: int,
    events: Seq<EventSignature>,
    funcs: Seq<FuncSignature>,
) -> Seq<TypeError>
    decreases upto,
{
    if upto <= 0 || upto > actors.len() {
        Seq::empty()
    } else {
        spec_check_actors(actors, upto - 1, events, funcs) + spec_check_actor(
            actors[upto - 1],
            events,
            funcs,
        )
    }
}

/// Every error a unit contributes: duplicate declarations first, then
/// each actor in declaration order.
pub open spec fn spec_check_unit(u: InterpretationUnit) -> Seq<TypeError> {
    spec_dup_errs_events(u.events@, u.events@.len() as int) + spec_dup_errs_funcs(
        u.funcs@,
        u.funcs@.len() as int,
    ) + spec_dup_errs_actors(u.actors@, u.actors@.len() as int) + spec_check_actors(
        u.actors@,
        u.actors@.len() as int,
        u.events@,
        u.funcs@,
    )
}

/// Validates an evaluated unit, collecting every error rather than
/// stopping at the first; the model itself is never changed.  An empty
/// result means the unit is well-typed.
pub fn typecheck(unit: &InterpretationUnit) -> (r: Vec<TypeError>)
    ensures
        r@ == spec_check_unit(*unit),
{
    let mut out: Vec<TypeError> = Vec::new();
    check_dup_events(&unit.events, &mut out);
    check_dup_funcs(&unit.funcs, &mut out);
    check_dup_actors(&unit.actors, &mut out);
    let ghost base = out@;
    let n = unit.actors.len();
    let mut i: usize = 0;
    while i < n
        invariant
            n == unit.actors@.len(),
            i <= n,
            out@ == base + spec_check_actors(unit.actors@, i as int, unit.events@, unit.funcs@),
        decreases n - i,
    {
        check_actor(&unit.actors[i], &unit.events, &unit.funcs, &mut out);
        i = i + 1;
    }
    proof {
        assert(out@ =~= spec_check_unit(*unit));
    }
    out
}

} // verus!
