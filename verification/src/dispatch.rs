//! The dispatch engine: drives an actor's current configuration through
//! the state hierarchy in response to incoming events.
//!
//! The active configuration is the path from the root to the active leaf,
//! obtained by following each state's `at` marker.  One event is
//! processed to completion at a time: the deepest state whose table has
//! an enabled transition for the event handles it; transitions are tried
//! in declaration order and the first whose guards all evaluate to true
//! is selected.  A transition with a target exits the states from the
//! active leaf up to the handling state, flips the parent's marker to the
//! target sibling, and enters the target chain outer-to-inner; the common
//! ancestor itself is neither exited nor entered.  A transition with an
//! empty target runs its body in place.  An event no state handles is
//! discarded, which is not an error.  Because each state keeps a single
//! marker that doubles as its initial and its active child, re-entering a
//! state resumes the child it last occupied.
//!
//! A guard that fails to evaluate to a boolean simply does not enable its
//! transition; on a type-checked model this does not happen.  Bodies run
//! after the entries, innermost scope first, and their sends are
//! collected for the engine to deliver afterwards.

use vstd::prelude::*;

use crate::ast::ControlFlowExpr;
use crate::ast::VarType;
use crate::env::Env;
use crate::interp::env_model;
use crate::interp::eval_expr;
use crate::interp::exec_stmts;
use crate::interp::spec_eval;
use crate::interp::stack_model;
use crate::interp::RuntimeError;
use crate::interp::ScopeModel;
use crate::lookup::find_keyed;
use crate::lookup::lookup_keyed;
use crate::lookup::Keyed;
use crate::runtime::Actor;
use crate::runtime::EventInstance;
use crate::runtime::EventSignature;
use crate::runtime::FuncSignature;
use crate::runtime::State;
use crate::runtime::Transition;
use crate::value::Value;

verus! {

/// One observable step of the dispatch engine: a state ran its exit or
/// entry actions.
#[derive(Debug, Clone, Copy, PartialEq, Eq, Structural)]
pub enum StateAction {
    Entered { id: u32 },
    Exited { id: u32 },
}

/// The identifiers of the active configuration: the path from this state
/// to its active leaf, following the `at` markers, outermost first.
pub open spec fn active_ids(st: State) -> Seq<u32>
    decreases st,
    via active_ids_dec
{
    if st.at@.len() == 0 {
        seq![st.id]
    } else {
        match lookup_keyed(st.subs@, st.at@) {
            Some(c) => seq![st.id] + active_ids(c),
            None => seq![st.id],
        }
    }
}

#[via_fn]
proof fn active_ids_dec(st: State) {
    if st.at@.len() > 0 {
        if lookup_keyed(st.subs@, st.at@) is Some {
            crate::lookup::lemma_keyed_found(st.subs@, st.at@);
            let i = choose|i: int|
                0 <= i < st.subs@.len() && #[trigger] st.subs@[i] == lookup_keyed(
                    st.subs@,
                    st.at@,
                ).unwrap();
            assert(decreases_to!(st => st.subs@[i]));
        }
    }
}

/// Entry actions for a path, outermost first.
pub open spec fn entries_of(ids: Seq<u32>) -> Seq<StateAction> {
    Seq::new(ids.len(), |i: int| StateAction::Entered { id: ids[i] })
}

/// Exit actions for a path, innermost first.
pub open spec fn exits_of(ids: Seq<u32>) -> Seq<StateAction> {
    Seq::new(ids.len(), |i: int| StateAction::Exited { id: ids[ids.len() - 1 - i] })
}

/// Whether two states have the same skeleton: identifiers, names,
/// transition tables and children, recursively.  The variable
/// environments and the active markers may differ.
pub open spec fn same_shape(a: State, b: State) -> bool
    decreases a,
{
    &&& a.id == b.id
    &&& a.name == b.name
    &&& a.transitions == b.transitions
    &&& a.subs@.len() == b.subs@.len()
    &&& forall|q: int| 0 <= q < a.subs@.len() ==> same_shape(#[trigger] a.subs@[q], b.subs@[q])
}

/// The skeleton relation carries over.
pub proof fn lemma_same_shape_refl(a: State)
    ensures
        same_shape(a, a),
    decreases a,
{
    assert forall|q: int| 0 <= q < a.subs@.len() implies same_shape(
        #[trigger] a.subs@[q],
        a.subs@[q],
    ) by {
        lemma_same_shape_refl(a.subs@[q]);
    }
}

/// The skeleton relation composes.
pub proof fn lemma_same_shape_trans(a: State, b: State, c: State)
    requires
        same_shape(a, b),
        same_shape(b, c),
    ensures
        same_shape(a, c),
    decreases a,
{
    assert forall|q: int| 0 <= q < a.subs@.len() implies same_shape(
        #[trigger] a.subs@[q],
        c.subs@[q],
    ) by {
        lemma_same_shape_trans(a.subs@[q], b.subs@[q], c.subs@[q]);
    }
}

// ---------------------------------------------------------------------
// The mathematical image of a state tree, and the dispatch relation
// over it.  Every dispatch function's contract equates what it did with
// one of the relations below, so a body that does none of the work does
// not verify.
// ---------------------------------------------------------------------

/// A mathematical image of one state: everything dispatch reads or
/// writes, with the environment as a map.
#[verifier::ext_equal]
pub struct StateModel {
    pub id: u32,
    pub name: Seq<char>,
    pub at: Seq<char>,
    pub env: ScopeModel,
    pub subs: Seq<StateModel>,
    pub table: crate::runtime::TransitionTable,
}

/// The image of a state, children included.
pub open spec fn state_model(st: State) -> StateModel
    decreases st, 0int,
{
    StateModel {
        id: st.id,
        name: st.name@,
        at: st.at@,
        env: env_model(st.env),
        subs: models_of(st.subs@, st.subs@.len() as int),
        table: st.transitions,
    }
}

/// The images of the first `upto` children.
pub open spec fn models_of(subs: Seq<State>, upto: int) -> Seq<StateModel>
    decreases subs, upto,
{
    if upto <= 0 || upto > subs.len() {
        Seq::empty()
    } else {
        models_of(subs, upto - 1).push(state_model(subs[upto - 1]))
    }
}

/// The images of children line up with the children.
pub proof fn lemma_models_of_index(subs: Seq<State>, upto: int)
    requires
        0 <= upto <= subs.len(),
    ensures
        models_of(subs, upto).len() == upto,
        forall|i: int| 0 <= i < upto ==> models_of(subs, upto)[i] == state_model(subs[i]),
    decreases upto,
{
    if upto > 0 {
        lemma_models_of_index(subs, upto - 1);
    }
}

/// Replacing one child replaces one image.
pub proof fn lemma_models_of_update(pre: Seq<State>, post: Seq<State>, ci: int)
    requires
        pre.len() == post.len(),
        0 <= ci < pre.len(),
        forall|j: int| 0 <= j < pre.len() && j != ci ==> pre[j] == post[j],
    ensures
        models_of(post, post.len() as int) == models_of(pre, pre.len() as int).update(
            ci,
            state_model(post[ci]),
        ),
{
    lemma_models_of_index(pre, pre.len() as int);
    lemma_models_of_index(post, post.len() as int);
    assert(models_of(post, post.len() as int) =~= models_of(pre, pre.len() as int).update(
        ci,
        state_model(post[ci]),
    ));
}

/// The position of the first child image bearing `name`.
pub open spec fn model_child_index(subs: Seq<StateModel>, name: Seq<char>) -> Option<int>
    decreases subs.len(),
{
    if subs.len() == 0 {
        None
    } else if subs[0].name == name {
        Some(0)
    } else {
        match model_child_index(subs.drop_first(), name) {
            Some(i) => Some(i + 1),
            None => None,
        }
    }
}

/// With no image of `name` before `i` and one at `i`, the index is `i`.
pub proof fn lemma_model_child_at(subs: Seq<StateModel>, name: Seq<char>, i: int)
    requires
        0 <= i < subs.len(),
        forall|j: int| 0 <= j < i ==> subs[j].name != name,
        subs[i].name == name,
    ensures
        model_child_index(subs, name) == Some(i),
    decreases i,
{
    if i > 0 {
        lemma_model_child_at(subs.drop_first(), name, i - 1);
    }
}

/// With no image of `name` at all, there is no index.
pub proof fn lemma_model_child_none(subs: Seq<StateModel>, name: Seq<char>)
    requires
        forall|j: int| 0 <= j < subs.len() ==> subs[j].name != name,
    ensures
        model_child_index(subs, name) is None,
    decreases subs.len(),
{
    if subs.len() > 0 {
        lemma_model_child_none(subs.drop_first(), name);
    }
}

/// A found index is in range and bears the name, with none before it.
pub proof fn lemma_model_child_props(subs: Seq<StateModel>, name: Seq<char>)
    requires
        model_child_index(subs, name) is Some,
    ensures
        ({
            let i = model_child_index(subs, name).unwrap();
            &&& 0 <= i < subs.len()
            &&& subs[i].name == name
            &&& forall|j: int| 0 <= j < i ==> subs[j].name != name
        }),
    decreases subs.len(),
{
    if subs.len() > 0 && subs[0].name != name {
        lemma_model_child_props(subs.drop_first(), name);
        let i = model_child_index(subs, name).unwrap();
        assert forall|j: int| 0 <= j < i implies subs[j].name != name by {
            if j > 0 {
                assert(subs[j] == subs.drop_first()[j - 1]);
            }
        }
    }
}

/// The active path of an image: the same walk [`active_ids`] makes.
pub open spec fn model_active_ids(m: StateModel) -> Seq<u32>
    decreases m, 0int,
    via model_active_ids_dec
{
    if m.at.len() == 0 {
        seq![m.id]
    } else {
        match model_child_index(m.subs, m.at) {
            Some(ci) => seq![m.id] + model_active_ids(m.subs[ci]),
            None => seq![m.id],
        }
    }
}

#[via_fn]
proof fn model_active_ids_dec(m: StateModel) {
    if m.at.len() > 0 {
        if model_child_index(m.subs, m.at) is Some {
            lemma_model_child_props(m.subs, m.at);
        }
    }
}

/// A state and its image walk the same active path.
pub proof fn lemma_active_ids_model(st: State)
    ensures
        model_active_ids(state_model(st)) == active_ids(st),
    decreases st,
{
    let m = state_model(st);
    lemma_models_of_index(st.subs@, st.subs@.len() as int);
    if st.at@.len() > 0 {
        match lookup_keyed(st.subs@, st.at@) {
            Some(c) => {
                // The first exec match is the first image match.
                lemma_first_key_index(st.subs@, st.at@);
                let fi = first_key_index(st.subs@, st.at@);
                assert forall|j: int| 0 <= j < fi implies m.subs[j].name != st.at@ by {
                    assert(m.subs[j] == state_model(st.subs@[j]));
                }
                assert(m.subs[fi] == state_model(st.subs@[fi]));
                lemma_model_child_at(m.subs, st.at@, fi);
                assert(decreases_to!(st => st.subs@[fi]));
                lemma_active_ids_model(st.subs@[fi]);
                assert(active_ids(st) == seq![st.id] + active_ids(st.subs@[fi]));
            },
            None => {
                crate::lookup::lemma_keyed_none(st.subs@, st.at@);
                assert forall|j: int| 0 <= j < m.subs.len() implies m.subs[j].name != st.at@ by {
                    assert(m.subs[j] == state_model(st.subs@[j]));
                }
                lemma_model_child_none(m.subs, st.at@);
            },
        }
    }
}

/// The index of the first entry filed under `name`, meaningful only when
/// one exists.
pub open spec fn first_key_index(subs: Seq<State>, name: Seq<char>) -> int
    decreases subs.len(),
{
    if subs.len() == 0 {
        0
    } else if subs[0].name@ == name {
        0
    } else {
        1 + first_key_index(subs.drop_first(), name)
    }
}

/// When resolution succeeds it finds exactly the entry at the first
/// index.
pub proof fn lemma_first_key_index(subs: Seq<State>, name: Seq<char>)
    requires
        lookup_keyed(subs, name) is Some,
    ensures
        ({
            let i = first_key_index(subs, name);
            &&& 0 <= i < subs.len()
            &&& subs[i].name@ == name
            &&& (forall|j: int| 0 <= j < i ==> subs[j].name@ != name)
            &&& lookup_keyed(subs, name) == Some(subs[i])
        }),
    decreases subs.len(),
{
    if subs.len() > 0 && subs[0].name@ != name {
        lemma_first_key_index(subs.drop_first(), name);
        let i = first_key_index(subs, name);
        assert(subs[i] == subs.drop_first()[i - 1]);
        assert forall|j: int| 0 <= j < i implies subs[j].name@ != name by {
            if j > 0 {
                assert(subs[j] == subs.drop_first()[j - 1]);
            }
        }
    }
}

/// The image of a stack grows at the back with the image of the pushed
/// scope.
pub proof fn lemma_stack_model_push(s: Seq<Env>, e: Env)
    ensures
        stack_model(s.push(e)) == stack_model(s).push(env_model(e)),
{
    assert(stack_model(s.push(e)) =~= stack_model(s).push(env_model(e)));
}

/// The image of a stack shrinks at the back when popped.
pub proof fn lemma_stack_model_drop_last(s: Seq<Env>)
    requires
        s.len() > 0,
    ensures
        stack_model(s.drop_last()) == stack_model(s).drop_last(),
        stack_model(s).last() == env_model(s.last()),
{
    assert(stack_model(s.drop_last()) =~= stack_model(s).drop_last());
}

/// The scope holding a transition's bound names: each name carries the
/// value of its positional event argument, at that value's own kind.
pub open spec fn arg_binding(bound: Seq<String>, vals: Seq<Value>, upto: int) -> ScopeModel
    decreases upto,
{
    if upto <= 0 || upto > bound.len() || bound.len() != vals.len() {
        Map::empty()
    } else {
        arg_binding(bound, vals, upto - 1).insert(
            bound[upto - 1]@,
            (vals[upto - 1].spec_kind(), vals[upto - 1]),
        )
    }
}

/// Whether a transition is enabled for an event under a scope stack: it
/// binds exactly the event's arguments, and every guard evaluates to true
/// in the stack extended with those bindings.
pub open spec fn spec_enabled(t: Transition, ev: EventInstance, stack: Seq<ScopeModel>) -> bool {
    let bound = stack.push(arg_binding(t.bound_vars@, ev.params@, t.bound_vars@.len() as int));
    &&& t.bound_vars@.len() == ev.params@.len()
    &&& forall|g: int|
        0 <= g < t.conditions@.len() ==> spec_eval(bound, #[trigger] t.conditions@[g]) == Some(
            Value::Bool(true),
        )
}

/// The first enabled transition, in declaration order; ties between
/// enabled transitions are resolved by declaration order, an explicit
/// policy that keeps selection deterministic.
pub open spec fn spec_select(ts: Seq<Transition>, ev: EventInstance, stack: Seq<ScopeModel>) -> Option<
    int,
>
    decreases ts.len(),
{
    if ts.len() == 0 {
        None
    } else if spec_enabled(ts[0], ev, stack) {
        Some(0)
    } else {
        match spec_select(ts.drop_first(), ev, stack) {
            Some(i) => Some(i + 1),
            None => None,
        }
    }
}

/// With no enabled transition before index `i` and an enabled one at
/// `i`, selection picks `i`.
proof fn lemma_select_at(ts: Seq<Transition>, ev: EventInstance, stack: Seq<ScopeModel>, i: int)
    requires
        0 <= i < ts.len(),
        forall|j: int| 0 <= j < i ==> !spec_enabled(#[trigger] ts[j], ev, stack),
        spec_enabled(ts[i], ev, stack),
    ensures
        spec_select(ts, ev, stack) == Some(i),
    decreases i,
{
    if i > 0 {
        lemma_select_at(ts.drop_first(), ev, stack, i - 1);
    }
}

/// With no enabled transition at all, selection fails.
proof fn lemma_select_none(ts: Seq<Transition>, ev: EventInstance, stack: Seq<ScopeModel>)
    requires
        forall|j: int| 0 <= j < ts.len() ==> !spec_enabled(#[trigger] ts[j], ev, stack),
    ensures
        spec_select(ts, ev, stack) is None,
    decreases ts.len(),
{
    if ts.len() > 0 {
        lemma_select_none(ts.drop_first(), ev, stack);
    }
}

/// Builds the scope binding a transition's names to the event's
/// arguments.
fn make_binding(bound: &Vec<String>, vals: &Vec<Value>) -> (r: Env)
    requires
        bound@.len() == vals@.len(),
    ensures
        env_model(r) == arg_binding(bound@, vals@, bound@.len() as int),
{
    let mut env = Env::new();
    proof {
        assert(env_model(env) =~= Map::<Seq<char>, (VarType, Value)>::empty());
    }
    let n = bound.len();
    let mut i: usize = 0;
    while i < n
        invariant
            n == bound@.len(),
            n == vals@.len(),
            i <= n,
            env_model(env) == arg_binding(bound@, vals@, i as int),
        decreases n - i,
    {
        let ghost pre = env;
        let v = vals[i].duplicate();
        let k = v.kind();
        env.set_var(bound[i].clone(), k, v);
        proof {
            assert(env_model(env) =~= env_model(pre).insert(
                bound@[i as int]@,
                (vals@[i as int].spec_kind(), vals@[i as int]),
            ));
        }
        i = i + 1;
    }
    env
}

/// Picks the first transition enabled for `ev`, trying the transitions
/// in declaration order and selecting the first whose guards all
/// evaluate to true.
pub fn select_transition(ts: &Vec<Transition>, ev: &EventInstance, scopes: &Vec<Env>) -> (r: Option<
    usize,
>)
    ensures
        match r {
            Some(i) => i < ts@.len() && spec_select(ts@, *ev, stack_model(scopes@)) == Some(
                i as int,
            ) && spec_enabled(ts@[i as int], *ev, stack_model(scopes@)),
            None => spec_select(ts@, *ev, stack_model(scopes@)) is None,
        },
{
    let n = ts.len();
    let mut i: usize = 0;
    while i < n
        invariant
            n == ts@.len(),
            i <= n,
            forall|j: int| 0 <= j < i ==> !spec_enabled(#[trigger] ts@[j], *ev, stack_model(scopes@)),
        decreases n - i,
    {
        if transition_enabled(&ts[i], ev, scopes) {
            proof {
                lemma_select_at(ts@, *ev, stack_model(scopes@), i as int);
            }
            return Some(i);
        }
        i = i + 1;
    }
    proof {
        lemma_select_none(ts@, *ev, stack_model(scopes@));
    }
    None
}

/// Decides whether one transition is enabled for `ev`.
fn transition_enabled(t: &Transition, ev: &EventInstance, scopes: &Vec<Env>) -> (r: bool)
    ensures
        r == spec_enabled(*t, *ev, stack_model(scopes@)),
{
    if t.bound_vars.len() != ev.params.len() {
        return false;
    }
    let binding = make_binding(&t.bound_vars, &ev.params);
    let mut bound_scopes: Vec<Env> = clone_scope_refs(scopes, binding);
    let ghost bound = stack_model(scopes@).push(
        arg_binding(t.bound_vars@, ev.params@, t.bound_vars@.len() as int),
    );
    proof {
        assert(stack_model(bound_scopes@) =~~= bound);
    }
    let n = t.conditions.len();
    let mut i: usize = 0;
    while i < n
        invariant
            n == t.conditions@.len(),
            stack_model(bound_scopes@) == bound,
            bound == stack_model(scopes@).push(
                arg_binding(t.bound_vars@, ev.params@, t.bound_vars@.len() as int),
            ),
            i <= n,
            forall|g: int|
                0 <= g < i ==> spec_eval(bound, #[trigger] t.conditions@[g]) == Some(
                    Value::Bool(true),
                ),
        decreases n - i,
    {
        let ok = match eval_expr(&bound_scopes, &t.conditions[i]) {
            Some(Value::Bool(true)) => true,
            _ => false,
        };
        if !ok {
            return false;
        }
        i = i + 1;
    }
    true
}

/// Rebuilds a scope stack with the binding scope on top.  Guard
/// evaluation never writes, so the guards see copies of the scopes.
fn clone_scope_refs(scopes: &Vec<Env>, binding: Env) -> (r: Vec<Env>)
    ensures
        stack_model(r@) == stack_model(scopes@).push(env_model(binding)),
{
    let mut r: Vec<Env> = Vec::new();
    let n = scopes.len();
    let mut i: usize = 0;
    while i < n
        invariant
            n == scopes@.len(),
            i <= n,
            r@.len() == i,
            forall|k: int| 0 <= k < i ==> env_model(#[trigger] r@[k]) == env_model(scopes@[k]),
        decreases n - i,
    {
        let c = clone_env(&scopes[i]);
        r.push(c);
        i = i + 1;
    }
    let ghost bg = binding;
    r.push(binding);
    proof {
        let target = stack_model(scopes@).push(env_model(bg));
        assert forall|k: int| 0 <= k < r@.len() implies stack_model(r@)[k] == target[k] by {
            if k < n {
                assert(env_model(r@[k]) == env_model(scopes@[k]));
            } else {
                assert(r@[k] == bg);
            }
        }
        assert(stack_model(r@) =~= target);
    }
    r
}

/// The reserved name carrying entry actions.
fn entry_key() -> (r: String)
    ensures
        r@ == "_ENTRY"@,
{
    "_ENTRY".to_owned()
}

/// The reserved name carrying exit actions.
fn exit_key() -> (r: String)
    ensures
        r@ == "_EXIT"@,
{
    "_EXIT".to_owned()
}

/// What running the bodies of the first `upto` transitions, in
/// declaration order, does to the scope stack and the pending sends, or
/// `None` when one gets stuck.
pub open spec fn spec_run_bodies(
    stack: Seq<ScopeModel>,
    sends: Seq<crate::interp::SendModel>,
    ts: Seq<Transition>,
    upto: int,
    events: Seq<EventSignature>,
    funcs: Seq<FuncSignature>,
    fuel: nat,
) -> Option<(Seq<ScopeModel>, Seq<crate::interp::SendModel>)>
    decreases upto,
{
    if upto <= 0 || upto > ts.len() {
        Some((stack, sends))
    } else {
        match spec_run_bodies(stack, sends, ts, upto - 1, events, funcs, fuel) {
            Some((st1, sd1)) => crate::interp::spec_exec_stmts(
                st1,
                sd1,
                ts[upto - 1].body@,
                ts[upto - 1].body@.len() as int,
                events,
                funcs,
                fuel,
            ),
            None => None,
        }
    }
}

/// A stuck body keeps the whole run stuck as more bodies are taken in.
proof fn lemma_run_bodies_none(
    stack: Seq<ScopeModel>,
    sends: Seq<crate::interp::SendModel>,
    ts: Seq<Transition>,
    j: int,
    k: int,
    events: Seq<EventSignature>,
    funcs: Seq<FuncSignature>,
    fuel: nat,
)
    requires
        0 < j <= k <= ts.len(),
        spec_run_bodies(stack, sends, ts, j, events, funcs, fuel) is None,
    ensures
        spec_run_bodies(stack, sends, ts, k, events, funcs, fuel) is None,
    decreases k - j,
{
    if j < k {
        lemma_run_bodies_none(stack, sends, ts, j + 1, k, events, funcs, fuel);
    }
}

/// Runs the bodies of every transition in `ts`, in declaration order;
/// `false` means one of them got stuck, and stuck is decided by
/// [`spec_run_bodies`].
fn run_bodies(
    ts: &Vec<Transition>,
    scopes: &mut Vec<Env>,
    events: &Vec<EventSignature>,
    funcs: &Vec<FuncSignature>,
    sends: &mut Vec<(String, EventInstance)>,
    fuel: u32,
) -> (ok: bool)
    ensures
        match spec_run_bodies(
            stack_model(old(scopes)@),
            crate::interp::sends_model(old(sends)@),
            ts@,
            ts@.len() as int,
            events@,
            funcs@,
            fuel as nat,
        ) {
            Some((st2, sd2)) => ok && stack_model(final(scopes)@) == st2 && crate::interp::sends_model(
                final(sends)@,
            ) == sd2,
            None => !ok,
        },
        final(scopes)@.len() == old(scopes)@.len(),
        old(sends)@.is_prefix_of(final(sends)@),
{
    let n = ts.len();
    let mut i: usize = 0;
    while i < n
        invariant
            n == ts@.len(),
            i <= n,
            scopes@.len() == old(scopes)@.len(),
            old(sends)@.is_prefix_of(sends@),
            spec_run_bodies(
                stack_model(old(scopes)@),
                crate::interp::sends_model(old(sends)@),
                ts@,
                i as int,
                events@,
                funcs@,
                fuel as nat,
            ) == Some((stack_model(scopes@), crate::interp::sends_model(sends@))),
        decreases n - i,
    {
        match exec_stmts(scopes, &ts[i].body, events, funcs, sends, fuel) {
            Ok(()) => {},
            Err(_) => {
                proof {
                    lemma_run_bodies_none(
                        stack_model(old(scopes)@),
                        crate::interp::sends_model(old(sends)@),
                        ts@,
                        i as int + 1,
                        n as int,
                        events@,
                        funcs@,
                        fuel as nat,
                    );
                }
                return false;
            },
        }
        i = i + 1;
    }
    true
}

/// Runs a state's actions registered under a reserved name, in
/// declaration order.
fn run_actions(
    table: &crate::runtime::TransitionTable,
    key: &String,
    scopes: &mut Vec<Env>,
    events: &Vec<EventSignature>,
    funcs: &Vec<FuncSignature>,
    sends: &mut Vec<(String, EventInstance)>,
    fuel: u32,
) -> (ok: bool)
    ensures
        match spec_run_bodies(
            stack_model(old(scopes)@),
            crate::interp::sends_model(old(sends)@),
            table.trans_for(key@),
            table.trans_for(key@).len() as int,
            events@,
            funcs@,
            fuel as nat,
        ) {
            Some((st2, sd2)) => ok && stack_model(final(scopes)@) == st2 && crate::interp::sends_model(
                final(sends)@,
            ) == sd2,
            None => !ok,
        },
        final(scopes)@.len() == old(scopes)@.len(),
        old(sends)@.is_prefix_of(final(sends)@),
{
    match table.get(key) {
        Some(ts) => run_bodies(ts, scopes, events, funcs, sends, fuel),
        None => true,
    }
}

/// What entering a subtree does: the state's entry bodies run with its
/// scope pushed, then the active child is entered the same way; the
/// scopes and sends thread through, and the possibly rewritten
/// environments return to their states.  `None` when an entry body gets
/// stuck or a marker names no child.
pub open spec fn spec_enter(
    m: StateModel,
    stack: Seq<ScopeModel>,
    sends: Seq<crate::interp::SendModel>,
    events: Seq<EventSignature>,
    funcs: Seq<FuncSignature>,
    fuel: nat,
) -> Option<(StateModel, Seq<ScopeModel>, Seq<crate::interp::SendModel>)>
    decreases m, 1int,
    via spec_enter_dec
{
    let stack1 = stack.push(m.env);
    let ts = m.table.trans_for("_ENTRY"@);
    match spec_run_bodies(stack1, sends, ts, ts.len() as int, events, funcs, fuel) {
        None => None,
        Some((stack2, sends2)) => {
            if m.at.len() == 0 {
                Some(
                    (
                        StateModel {
                            id: m.id,
                            name: m.name,
                            at: m.at,
                            env: stack2.last(),
                            subs: m.subs,
                            table: m.table,
                        },
                        stack2.drop_last(),
                        sends2,
                    ),
                )
            } else {
                match model_child_index(m.subs, m.at) {
                    None => None,
                    Some(ci) => match spec_enter(m.subs[ci], stack2, sends2, events, funcs, fuel) {
                        None => None,
                        Some((c2, stack3, sends3)) => Some(
                            (
                                StateModel {
                                    id: m.id,
                                    name: m.name,
                                    at: m.at,
                                    env: stack3.last(),
                                    subs: m.subs.update(ci, c2),
                                    table: m.table,
                                },
                                stack3.drop_last(),
                                sends3,
                            ),
                        ),
                    },
                }
            }
        },
    }
}

#[via_fn]
proof fn spec_enter_dec(
    m: StateModel,
    stack: Seq<ScopeModel>,
    sends: Seq<crate::interp::SendModel>,
    events: Seq<EventSignature>,
    funcs: Seq<FuncSignature>,
    fuel: nat,
) {
    if m.at.len() > 0 && model_child_index(m.subs, m.at) is Some {
        lemma_model_child_props(m.subs, m.at);
    }
}

/// What exiting a subtree does: the active child exits first, inner to
/// outer, then the state's own exit bodies run; the scopes and sends
/// thread through.  `None` when an exit body gets stuck or a marker
/// names no child.
pub open spec fn spec_exit(
    m: StateModel,
    stack: Seq<ScopeModel>,
    sends: Seq<crate::interp::SendModel>,
    events: Seq<EventSignature>,
    funcs: Seq<FuncSignature>,
    fuel: nat,
) -> Option<(StateModel, Seq<ScopeModel>, Seq<crate::interp::SendModel>)>
    decreases m, 1int,
    via spec_exit_dec
{
    let stack1 = stack.push(m.env);
    let ts = m.table.trans_for("_EXIT"@);
    if m.at.len() == 0 {
        match spec_run_bodies(stack1, sends, ts, ts.len() as int, events, funcs, fuel) {
            None => None,
            Some((stack2, sends2)) => Some(
                (
                    StateModel {
                        id: m.id,
                        name: m.name,
                        at: m.at,
                        env: stack2.last(),
                        subs: m.subs,
                        table: m.table,
                    },
                    stack2.drop_last(),
                    sends2,
                ),
            ),
        }
    } else {
        match model_child_index(m.subs, m.at) {
            None => None,
            Some(ci) => match spec_exit(m.subs[ci], stack1, sends, events, funcs, fuel) {
                None => None,
                Some((c2, stack2, sends2)) => match spec_run_bodies(
                    stack2,
                    sends2,
                    ts,
                    ts.len() as int,
                    events,
                    funcs,
                    fuel,
                ) {
                    None => None,
                    Some((stack3, sends3)) => Some(
                        (
                            StateModel {
                                id: m.id,
                                name: m.name,
                                at: m.at,
                                env: stack3.last(),
                                subs: m.subs.update(ci, c2),
                                table: m.table,
                            },
                            stack3.drop_last(),
                            sends3,
                        ),
                    ),
                },
            },
        }
    }
}

#[via_fn]
proof fn spec_exit_dec(
    m: StateModel,
    stack: Seq<ScopeModel>,
    sends: Seq<crate::interp::SendModel>,
    events: Seq<EventSignature>,
    funcs: Seq<FuncSignature>,
    fuel: nat,
) {
    if m.at.len() > 0 && model_child_index(m.subs, m.at) is Some {
        lemma_model_child_props(m.subs, m.at);
    }
}

/// When the marker of a state names a child, the first matching child
/// and the first matching image sit at one index; the facts the chain
/// proofs need at a descend site.
proof fn lemma_descend_index(st0: State, ci: int)
    requires
        st0.at@.len() > 0,
        0 <= ci < st0.subs@.len(),
        st0.subs@[ci].name@ == st0.at@,
        forall|j: int| 0 <= j < ci ==> st0.subs@[j].name@ != st0.at@,
    ensures
        model_child_index(state_model(st0).subs, st0.at@) == Some(ci),
        state_model(st0).subs[ci] == state_model(st0.subs@[ci]),
        state_model(st0).subs.len() == st0.subs@.len(),
{
    let m = state_model(st0);
    lemma_models_of_index(st0.subs@, st0.subs@.len() as int);
    assert forall|j: int| 0 <= j < ci implies m.subs[j].name != st0.at@ by {
        assert(m.subs[j] == state_model(st0.subs@[j]));
    }
    assert(m.subs[ci] == state_model(st0.subs@[ci]));
    lemma_model_child_at(m.subs, st0.at@, ci);
}

/// A state that differs from another only in its environment and in one
/// child images as the other with that child image replaced and the
/// environment swapped.
proof fn lemma_state_model_rebuild(st0: State, st1: State, ci: int)
    requires
        0 <= ci < st0.subs@.len(),
        st1.id == st0.id,
        st1.name == st0.name,
        st1.at == st0.at,
        st1.transitions == st0.transitions,
        st1.subs@.len() == st0.subs@.len(),
        forall|j: int| 0 <= j < st0.subs@.len() && j != ci ==> st0.subs@[j] == st1.subs@[j],
    ensures
        state_model(st1) == (StateModel {
            id: state_model(st0).id,
            name: state_model(st0).name,
            at: state_model(st0).at,
            env: env_model(st1.env),
            subs: state_model(st0).subs.update(ci, state_model(st1.subs@[ci])),
            table: state_model(st0).table,
        }),
{
    lemma_models_of_update(st0.subs@, st1.subs@, ci);
    assert(state_model(st1) =~= (StateModel {
        id: state_model(st0).id,
        name: state_model(st0).name,
        at: state_model(st0).at,
        env: env_model(st1.env),
        subs: state_model(st0).subs.update(ci, state_model(st1.subs@[ci])),
        table: state_model(st0).table,
    }));
}

/// A state that differs from another only in its environment images as
/// the other with the environment swapped.
proof fn lemma_state_model_env(st0: State, st1: State)
    requires
        st1.id == st0.id,
        st1.name == st0.name,
        st1.at == st0.at,
        st1.transitions == st0.transitions,
        st1.subs == st0.subs,
    ensures
        state_model(st1) == (StateModel {
            id: state_model(st0).id,
            name: state_model(st0).name,
            at: state_model(st0).at,
            env: env_model(st1.env),
            subs: state_model(st0).subs,
            table: state_model(st0).table,
        }),
{
    assert(state_model(st1) =~= (StateModel {
        id: state_model(st0).id,
        name: state_model(st0).name,
        at: state_model(st0).at,
        env: env_model(st1.env),
        subs: state_model(st0).subs,
        table: state_model(st0).table,
    }));
}

/// Runs the entry actions from this state down to its active leaf, outer
/// to inner, establishing the configuration.  The markers are followed,
/// never moved, so the configuration afterwards is the one the trace
/// names.
fn enter_chain(
    st: &mut State,
    measure: Ghost<State>,
    scopes: &mut Vec<Env>,
    events: &Vec<EventSignature>,
    funcs: &Vec<FuncSignature>,
    sends: &mut Vec<(String, EventInstance)>,
    fuel: u32,
) -> (r: Result<Vec<StateAction>, RuntimeError>)
    requires
        *old(st) == measure@,
    ensures
        same_shape(*old(st), *final(st)),
        active_ids(*final(st)) == active_ids(*old(st)),
        final(scopes)@.len() == old(scopes)@.len(),
        old(sends)@.is_prefix_of(final(sends)@),
        ({
            let outcome = spec_enter(
                state_model(*old(st)),
                stack_model(old(scopes)@),
                crate::interp::sends_model(old(sends)@),
                events@,
                funcs@,
                fuel as nat,
            );
            match r {
                Ok(tr) => tr@ == entries_of(active_ids(*old(st))) && outcome == Some(
                    (
                        state_model(*final(st)),
                        stack_model(final(scopes)@),
                        crate::interp::sends_model(final(sends)@),
                    ),
                ),
                Err(_) => outcome is None,
            }
        }),
    decreases measure@,
{
    let ghost st0 = *st;
    let ghost m0 = state_model(st0);
    let ghost stack0 = stack_model(scopes@);
    let ghost sends0 = crate::interp::sends_model(sends@);
    let mut env = Env::new();
    core::mem::swap(&mut env, &mut st.env);
    proof {
        lemma_stack_model_push(scopes@, env);
    }
    scopes.push(env);
    let mut trace: Vec<StateAction> = Vec::new();
    trace.push(StateAction::Entered { id: st.id });
    let ekey = entry_key();
    let actions_ok = run_actions(&st.transitions, &ekey, scopes, events, funcs, sends, fuel);
    if !actions_ok {
        restore_env(st, scopes);
        proof {
            lemma_pairwise_refl_active(st0.subs@, st.subs@);
            lemma_shape_after_child(st0, *st);
        }
        return Err(RuntimeError::Stuck);
    }
    let ghost stack2 = stack_model(scopes@);
    let ghost sends2 = crate::interp::sends_model(sends@);
    if st.at.as_str().unicode_len() > 0 {
        match find_keyed(&st.subs, &st.at) {
            Some(ci) => {
                proof {
                    assert(st.subs@ == st0.subs@);
                    lemma_descend_index(st0, ci as int);
                    assert(decreases_to!(st0 => st0.subs));
                    assert(decreases_to!(st0.subs => st0.subs@));
                    assert(decreases_to!(st0.subs@ => st0.subs@[ci as int]));
                }
                let ghost child0 = st.subs@[ci as int];
                match enter_chain(
                    &mut st.subs[ci],
                    Ghost(child0),
                    scopes,
                    events,
                    funcs,
                    sends,
                    fuel,
                ) {
                    Ok(mut child_tr) => {
                        trace.append(&mut child_tr);
                        let ghost stack3 = stack_model(scopes@);
                        restore_env(st, scopes);
                        proof {
                            assert(lookup_keyed(st0.subs@, st0.at@) == Some(child0));
                            assert(active_ids(st0) == seq![st0.id] + active_ids(child0));
                            assert(trace@ =~= entries_of(active_ids(st0)));
                            lemma_pairwise_child_active(st0.subs@, st.subs@, ci as int);
                            lemma_shape_after_child(st0, *st);
                            lemma_state_model_rebuild(st0, *st, ci as int);
                            lemma_stack_model_drop_last(scopes@.push(st.env));
                            assert(scopes@.push(st.env).drop_last() =~= scopes@);
                            assert(stack_model(scopes@) == stack3.drop_last());
                            assert(env_model(st.env) == stack3.last());
                        }
                        Ok(trace)
                    },
                    Err(e) => {
                        restore_env(st, scopes);
                        proof {
                            lemma_pairwise_child_active(st0.subs@, st.subs@, ci as int);
                            lemma_shape_after_child(st0, *st);
                        }
                        Err(e)
                    },
                }
            },
            None => {
                restore_env(st, scopes);
                proof {
                    crate::lookup::lemma_keyed_none(st0.subs@, st0.at@);
                    lemma_models_of_index(st0.subs@, st0.subs@.len() as int);
                    assert forall|j: int| 0 <= j < m0.subs.len() implies m0.subs[j].name
                        != st0.at@ by {
                        assert(m0.subs[j] == state_model(st0.subs@[j]));
                    }
                    lemma_model_child_none(m0.subs, st0.at@);
                    lemma_pairwise_refl_active(st0.subs@, st.subs@);
                    lemma_shape_after_child(st0, *st);
                }
                Err(RuntimeError::Stuck)
            },
        }
    } else {
        let ghost stack3 = stack_model(scopes@);
        restore_env(st, scopes);
        proof {
            lemma_pairwise_refl_active(st0.subs@, st.subs@);
            lemma_shape_after_child(st0, *st);
            lemma_state_model_env(st0, *st);
            lemma_stack_model_drop_last(scopes@.push(st.env));
            assert(scopes@.push(st.env).drop_last() =~= scopes@);
            assert(stack_model(scopes@) == stack3.drop_last());
            assert(env_model(st.env) == stack3.last());
            assert(trace@ =~= entries_of(active_ids(st0)));
        }
        Ok(trace)
    }
}

/// The children of an untouched table keep their shapes and paths.
proof fn lemma_pairwise_refl_active(pre: Seq<State>, post: Seq<State>)
    requires
        pre == post,
    ensures
        forall|q: int|
            0 <= q < pre.len() ==> same_shape(#[trigger] pre[q], post[q]) && active_ids(post[q])
                == active_ids(pre[q]),
{
    assert forall|q: int| 0 <= q < pre.len() implies same_shape(#[trigger] pre[q], post[q])
        && active_ids(post[q]) == active_ids(pre[q]) by {
        lemma_same_shape_refl(pre[q]);
    }
}

/// After one child was rebuilt by a chain that preserved its shape and
/// path, the table is pairwise preserved.
proof fn lemma_pairwise_child_active(pre: Seq<State>, post: Seq<State>, ci: int)
    requires
        pre.len() == post.len(),
        0 <= ci < pre.len(),
        same_shape(pre[ci], post[ci]),
        active_ids(post[ci]) == active_ids(pre[ci]),
        forall|j: int| 0 <= j < pre.len() && j != ci ==> pre[j] == post[j],
    ensures
        forall|q: int|
            0 <= q < pre.len() ==> same_shape(#[trigger] pre[q], post[q]) && active_ids(post[q])
                == active_ids(pre[q]),
{
    assert forall|q: int| 0 <= q < pre.len() implies same_shape(#[trigger] pre[q], post[q])
        && active_ids(post[q]) == active_ids(pre[q]) by {
        if q != ci {
            lemma_same_shape_refl(pre[q]);
        }
    }
}

/// Runs the exit actions from the active leaf up to and including this
/// state, inner to outer.
fn exit_chain(
    st: &mut State,
    measure: Ghost<State>,
    scopes: &mut Vec<Env>,
    events: &Vec<EventSignature>,
    funcs: &Vec<FuncSignature>,
    sends: &mut Vec<(String, EventInstance)>,
    fuel: u32,
) -> (r: Result<Vec<StateAction>, RuntimeError>)
    requires
        *old(st) == measure@,
    ensures
        same_shape(*old(st), *final(st)),
        active_ids(*final(st)) == active_ids(*old(st)),
        final(scopes)@.len() == old(scopes)@.len(),
        old(sends)@.is_prefix_of(final(sends)@),
        ({
            let outcome = spec_exit(
                state_model(*old(st)),
                stack_model(old(scopes)@),
                crate::interp::sends_model(old(sends)@),
                events@,
                funcs@,
                fuel as nat,
            );
            match r {
                Ok(tr) => tr@ == exits_of(active_ids(*old(st))) && outcome == Some(
                    (
                        state_model(*final(st)),
                        stack_model(final(scopes)@),
                        crate::interp::sends_model(final(sends)@),
                    ),
                ),
                Err(_) => outcome is None,
            }
        }),
    decreases measure@,
{
    let ghost st0 = *st;
    let ghost m0 = state_model(st0);
    let ghost stack0 = stack_model(scopes@);
    let ghost sends0 = crate::interp::sends_model(sends@);
    let mut env = Env::new();
    core::mem::swap(&mut env, &mut st.env);
    proof {
        lemma_stack_model_push(scopes@, env);
    }
    scopes.push(env);
    let mut trace: Vec<StateAction> = Vec::new();
    if st.at.as_str().unicode_len() > 0 {
        match find_keyed(&st.subs, &st.at) {
            Some(ci) => {
                proof {
                    assert(st.subs@ == st0.subs@);
                    lemma_descend_index(st0, ci as int);
                    assert(decreases_to!(st0 => st0.subs));
                    assert(decreases_to!(st0.subs => st0.subs@));
                    assert(decreases_to!(st0.subs@ => st0.subs@[ci as int]));
                }
                let ghost child0 = st.subs@[ci as int];
                match exit_chain(
                    &mut st.subs[ci],
                    Ghost(child0),
                    scopes,
                    events,
                    funcs,
                    sends,
                    fuel,
                ) {
                    Ok(mut child_tr) => {
                        trace.append(&mut child_tr);
                        let xkey = exit_key();
                        let actions_ok = run_actions(
                            &st.transitions,
                            &xkey,
                            scopes,
                            events,
                            funcs,
                            sends,
                            fuel,
                        );
                        trace.push(StateAction::Exited { id: st.id });
                        let ghost stack3 = stack_model(scopes@);
                        restore_env(st, scopes);
                        proof {
                            lemma_pairwise_child_active(st0.subs@, st.subs@, ci as int);
                            lemma_shape_after_child(st0, *st);
                        }
                        if !actions_ok {
                            return Err(RuntimeError::Stuck);
                        }
                        proof {
                            assert(lookup_keyed(st0.subs@, st0.at@) == Some(child0));
                            assert(active_ids(st0) == seq![st0.id] + active_ids(child0));
                            assert(trace@ =~= exits_of(active_ids(st0)));
                            lemma_state_model_rebuild(st0, *st, ci as int);
                            lemma_stack_model_drop_last(scopes@.push(st.env));
                            assert(scopes@.push(st.env).drop_last() =~= scopes@);
                            assert(stack_model(scopes@) == stack3.drop_last());
                            assert(env_model(st.env) == stack3.last());
                        }
                        Ok(trace)
                    },
                    Err(e) => {
                        restore_env(st, scopes);
                        proof {
                            lemma_pairwise_child_active(st0.subs@, st.subs@, ci as int);
                            lemma_shape_after_child(st0, *st);
                        }
                        Err(e)
                    },
                }
            },
            None => {
                restore_env(st, scopes);
                proof {
                    crate::lookup::lemma_keyed_none(st0.subs@, st0.at@);
                    lemma_models_of_index(st0.subs@, st0.subs@.len() as int);
                    assert forall|j: int| 0 <= j < m0.subs.len() implies m0.subs[j].name
                        != st0.at@ by {
                        assert(m0.subs[j] == state_model(st0.subs@[j]));
                    }
                    lemma_model_child_none(m0.subs, st0.at@);
                    lemma_pairwise_refl_active(st0.subs@, st.subs@);
                    lemma_shape_after_child(st0, *st);
                }
                Err(RuntimeError::Stuck)
            },
        }
    } else {
        let xkey = exit_key();
        let actions_ok = run_actions(&st.transitions, &xkey, scopes, events, funcs, sends, fuel);
        trace.push(StateAction::Exited { id: st.id });
        let ghost stack3 = stack_model(scopes@);
        restore_env(st, scopes);
        proof {
            lemma_pairwise_refl_active(st0.subs@, st.subs@);
            lemma_shape_after_child(st0, *st);
        }
        if !actions_ok {
            return Err(RuntimeError::Stuck);
        }
        proof {
            lemma_state_model_env(st0, *st);
            lemma_stack_model_drop_last(scopes@.push(st.env));
            assert(scopes@.push(st.env).drop_last() =~= scopes@);
            assert(stack_model(scopes@) == stack3.drop_last());
            assert(env_model(st.env) == stack3.last());
            assert(trace@ =~= exits_of(active_ids(st0)));
        }
        Ok(trace)
    }
}

/// Takes the top scope back into the state it was borrowed from.
fn restore_env(st: &mut State, scopes: &mut Vec<Env>)
    requires
        old(scopes)@.len() > 0,
    ensures
        final(scopes)@ == old(scopes)@.drop_last(),
        final(st).env == old(scopes)@.last(),
        final(st).id == old(st).id,
        final(st).name == old(st).name,
        final(st).at == old(st).at,
        final(st).subs == old(st).subs,
        final(st).transitions == old(st).transitions,
{
    match scopes.pop() {
        Some(mut env) => {
            core::mem::swap(&mut env, &mut st.env);
        },
        None => {
            proof {
                assert(false);
            }
        },
    }
}

/// Two tables with the same keys, entry for entry, resolve a name at the
/// same position.
proof fn lemma_lookup_pointwise(s1: Seq<State>, s2: Seq<State>, n: Seq<char>)
    requires
        s1.len() == s2.len(),
        forall|q: int| 0 <= q < s1.len() ==> (#[trigger] s1[q]).key() == s2[q].key(),
    ensures
        lookup_keyed(s1, n) is None <==> lookup_keyed(s2, n) is None,
        lookup_keyed(s1, n) is Some ==> exists|i: int|
            0 <= i < s1.len() && #[trigger] s1[i] == lookup_keyed(s1, n).unwrap() && lookup_keyed(
                s2,
                n,
            ) == Some(s2[i]),
    decreases s1.len(),
{
    if s1.len() > 0 {
        if s1[0].key() == n {
            assert(s1[0] == lookup_keyed(s1, n).unwrap());
        } else {
            assert forall|q: int|
                0 <= q < s1.drop_first().len() implies (#[trigger] s1.drop_first()[q]).key()
                == s2.drop_first()[q].key() by {
                assert(s1.drop_first()[q] == s1[q + 1]);
                assert(s2.drop_first()[q] == s2[q + 1]);
            }
            lemma_lookup_pointwise(s1.drop_first(), s2.drop_first(), n);
            if lookup_keyed(s1, n) is Some {
                let i = choose|i: int|
                    0 <= i < s1.drop_first().len() && #[trigger] s1.drop_first()[i] == lookup_keyed(
                        s1.drop_first(),
                        n,
                    ).unwrap() && lookup_keyed(s2.drop_first(), n) == Some(s2.drop_first()[i]);
                assert(s1[i + 1] == s1.drop_first()[i]);
                assert(s2[i + 1] == s2.drop_first()[i]);
            }
        }
    }
}

/// A state whose scalar fields are unchanged and whose children each kept
/// their skeleton and configuration keeps its own.
proof fn lemma_shape_after_child(st0: State, st1: State)
    requires
        st1.id == st0.id,
        st1.name == st0.name,
        st1.at == st0.at,
        st1.transitions == st0.transitions,
        st1.subs@.len() == st0.subs@.len(),
        forall|q: int|
            0 <= q < st0.subs@.len() ==> same_shape(#[trigger] st0.subs@[q], st1.subs@[q])
                && active_ids(st1.subs@[q]) == active_ids(st0.subs@[q]),
    ensures
        same_shape(st0, st1),
        active_ids(st1) == active_ids(st0),
{
    assert forall|q: int| 0 <= q < st0.subs@.len() implies (#[trigger] st0.subs@[q]).key()
        == st1.subs@[q].key() by {
        assert(same_shape(st0.subs@[q], st1.subs@[q]));
    }
    if st0.at@.len() > 0 {
        lemma_lookup_pointwise(st0.subs@, st1.subs@, st0.at@);
        match lookup_keyed(st0.subs@, st0.at@) {
            Some(c0) => {
                let i = choose|i: int|
                    0 <= i < st0.subs@.len() && #[trigger] st0.subs@[i] == lookup_keyed(
                        st0.subs@,
                        st0.at@,
                    ).unwrap() && lookup_keyed(st1.subs@, st0.at@) == Some(st1.subs@[i]);
                assert(active_ids(st1.subs@[i]) == active_ids(st0.subs@[i]));
                assert(active_ids(st1) == seq![st1.id] + active_ids(st1.subs@[i]));
                assert(active_ids(st0) == seq![st0.id] + active_ids(c0));
            },
            None => {},
        }
    }
}

/// Two states with unchanged scalar fields and pairwise same-shaped
/// children have the same shape, whatever their markers do.
proof fn lemma_shape_fields(st0: State, st1: State)
    requires
        st1.id == st0.id,
        st1.name == st0.name,
        st1.transitions == st0.transitions,
        st1.subs@.len() == st0.subs@.len(),
        forall|q: int| 0 <= q < st0.subs@.len() ==> same_shape(#[trigger] st0.subs@[q], st1.subs@[q]),
    ensures
        same_shape(st0, st1),
{
}

/// What running the body of the transition at position `sel`, under a
/// binding scope, does to the ambient scope stack and the pending sends;
/// `None` when the position is off or the body gets stuck.
pub open spec fn spec_run_one_body(
    stack: Seq<ScopeModel>,
    sends: Seq<crate::interp::SendModel>,
    ts: Seq<Transition>,
    sel: int,
    binding: ScopeModel,
    events: Seq<EventSignature>,
    funcs: Seq<FuncSignature>,
    fuel: nat,
) -> Option<(Seq<ScopeModel>, Seq<crate::interp::SendModel>)> {
    if 0 <= sel < ts.len() {
        match crate::interp::spec_exec_stmts(
            stack.push(binding),
            sends,
            ts[sel].body@,
            ts[sel].body@.len() as int,
            events,
            funcs,
            fuel,
        ) {
            Some((st2, sd2)) => Some((st2.drop_last(), sd2)),
            None => None,
        }
    } else {
        None
    }
}

/// The image of how a state answered an event.
pub enum OutcomeModel {
    NotHandled,
    Done(Seq<StateAction>),
    Switch { target: Seq<char>, trace: Seq<StateAction>, sel: int, binding: ScopeModel },
}

/// What one state does with an event once no descendant has taken it:
/// the first enabled transition of its own table is selected; an empty
/// target runs its body in place; at the root a target names a child, so
/// the active subtree exits, the marker flips, the target chain enters
/// and the body runs; anywhere else the subtree and the state itself
/// exit and the switch is handed to the parent.  The state's environment
/// rides on top of `stack` throughout.
pub open spec fn spec_dispatch_own(
    m: StateModel,
    is_root: bool,
    ev: EventInstance,
    stack: Seq<ScopeModel>,
    sends: Seq<crate::interp::SendModel>,
    events: Seq<EventSignature>,
    funcs: Seq<FuncSignature>,
    fuel: nat,
) -> Option<(StateModel, Seq<ScopeModel>, Seq<crate::interp::SendModel>, OutcomeModel)> {
    let ts = m.table.trans_for(ev.signature.name@);
    match spec_select(ts, ev, stack) {
        None => Some(
            (
                StateModel {
                    id: m.id,
                    name: m.name,
                    at: m.at,
                    env: stack.last(),
                    subs: m.subs,
                    table: m.table,
                },
                stack.drop_last(),
                sends,
                OutcomeModel::NotHandled,
            ),
        ),
        Some(sel) => {
            let t = ts[sel];
            let binding = arg_binding(t.bound_vars@, ev.params@, t.bound_vars@.len() as int);
            if t.target@.len() == 0 {
                match spec_run_one_body(stack, sends, ts, sel, binding, events, funcs, fuel) {
                    None => None,
                    Some((stack2, sends2)) => Some(
                        (
                            StateModel {
                                id: m.id,
                                name: m.name,
                                at: m.at,
                                env: stack2.last(),
                                subs: m.subs,
                                table: m.table,
                            },
                            stack2.drop_last(),
                            sends2,
                            OutcomeModel::Done(Seq::empty()),
                        ),
                    ),
                }
            } else {
                let exited: Option<
                    (Seq<StateModel>, Seq<ScopeModel>, Seq<crate::interp::SendModel>, Seq<StateAction>),
                > = if m.at.len() > 0 {
                    match model_child_index(m.subs, m.at) {
                        None => None,
                        Some(aci) => match spec_exit(m.subs[aci], stack, sends, events, funcs, fuel) {
                            None => None,
                            Some((x2, stack2, sends2)) => Some(
                                (
                                    m.subs.update(aci, x2),
                                    stack2,
                                    sends2,
                                    exits_of(model_active_ids(m.subs[aci])),
                                ),
                            ),
                        },
                    }
                } else {
                    Some((m.subs, stack, sends, Seq::empty()))
                };
                match exited {
                    None => None,
                    Some((subs2, stack2, sends2, extrace)) => {
                        if is_root {
                            match model_child_index(subs2, t.target@) {
                                None => None,
                                Some(ti) => match spec_enter(
                                    subs2[ti],
                                    stack2,
                                    sends2,
                                    events,
                                    funcs,
                                    fuel,
                                ) {
                                    None => None,
                                    Some((t2, stack3, sends3)) => match spec_run_one_body(
                                        stack3,
                                        sends3,
                                        ts,
                                        sel,
                                        binding,
                                        events,
                                        funcs,
                                        fuel,
                                    ) {
                                        None => None,
                                        Some((stack4, sends4)) => Some(
                                            (
                                                StateModel {
                                                    id: m.id,
                                                    name: m.name,
                                                    at: t.target@,
                                                    env: stack4.last(),
                                                    subs: subs2.update(ti, t2),
                                                    table: m.table,
                                                },
                                                stack4.drop_last(),
                                                sends4,
                                                OutcomeModel::Done(
                                                    extrace + entries_of(
                                                        model_active_ids(subs2[ti]),
                                                    ),
                                                ),
                                            ),
                                        ),
                                    },
                                },
                            }
                        } else {
                            let xts = m.table.trans_for("_EXIT"@);
                            match spec_run_bodies(
                                stack2,
                                sends2,
                                xts,
                                xts.len() as int,
                                events,
                                funcs,
                                fuel,
                            ) {
                                None => None,
                                Some((stack3, sends3)) => Some(
                                    (
                                        StateModel {
                                            id: m.id,
                                            name: m.name,
                                            at: m.at,
                                            env: stack3.last(),
                                            subs: subs2,
                                            table: m.table,
                                        },
                                        stack3.drop_last(),
                                        sends3,
                                        OutcomeModel::Switch {
                                            target: t.target@,
                                            trace: extrace.push(StateAction::Exited { id: m.id }),
                                            sel: sel,
                                            binding: binding,
                                        },
                                    ),
                                ),
                            }
                        }
                    },
                }
            }
        },
    }
}

/// What dispatching an event into a subtree does: the deepest state
/// first; a switch a child hands up is consumed here by flipping the
/// marker, entering the target and running the recorded body; a child
/// that declines leaves the event to this state's own table.  `None`
/// exactly when the dispatch gets stuck: a marker or target naming no
/// child, a stuck body, or a switch no parent consumed.
pub open spec fn spec_dispatch(
    m: StateModel,
    is_root: bool,
    ev: EventInstance,
    stack: Seq<ScopeModel>,
    sends: Seq<crate::interp::SendModel>,
    events: Seq<EventSignature>,
    funcs: Seq<FuncSignature>,
    fuel: nat,
) -> Option<(StateModel, Seq<ScopeModel>, Seq<crate::interp::SendModel>, OutcomeModel)>
    decreases m, 1int,
    via spec_dispatch_dec
{
    let stack1 = stack.push(m.env);
    if m.at.len() > 0 {
        match model_child_index(m.subs, m.at) {
            None => None,
            Some(ci) => match spec_dispatch(m.subs[ci], false, ev, stack1, sends, events, funcs, fuel) {
                None => None,
                Some((c2, stack2, sends2, out)) => {
                    let subs2 = m.subs.update(ci, c2);
                    match out {
                        OutcomeModel::Done(tr) => Some(
                            (
                                StateModel {
                                    id: m.id,
                                    name: m.name,
                                    at: m.at,
                                    env: stack2.last(),
                                    subs: subs2,
                                    table: m.table,
                                },
                                stack2.drop_last(),
                                sends2,
                                OutcomeModel::Done(tr),
                            ),
                        ),
                        OutcomeModel::Switch { target, trace, sel, binding } => match model_child_index(
                            subs2,
                            target,
                        ) {
                            None => None,
                            Some(ti) => match spec_enter(subs2[ti], stack2, sends2, events, funcs, fuel) {
                                None => None,
                                Some((t2, stack3, sends3)) => {
                                    let bts = c2.table.trans_for(ev.signature.name@);
                                    match spec_run_one_body(
                                        stack3,
                                        sends3,
                                        bts,
                                        sel,
                                        binding,
                                        events,
                                        funcs,
                                        fuel,
                                    ) {
                                        None => None,
                                        Some((stack4, sends4)) => Some(
                                            (
                                                StateModel {
                                                    id: m.id,
                                                    name: m.name,
                                                    at: target,
                                                    env: stack4.last(),
                                                    subs: subs2.update(ti, t2),
                                                    table: m.table,
                                                },
                                                stack4.drop_last(),
                                                sends4,
                                                OutcomeModel::Done(
                                                    trace + entries_of(model_active_ids(subs2[ti])),
                                                ),
                                            ),
                                        ),
                                    }
                                },
                            },
                        },
                        OutcomeModel::NotHandled => spec_dispatch_own(
                            StateModel {
                                id: m.id,
                                name: m.name,
                                at: m.at,
                                env: m.env,
                                subs: subs2,
                                table: m.table,
                            },
                            is_root,
                            ev,
                            stack2,
                            sends2,
                            events,
                            funcs,
                            fuel,
                        ),
                    }
                },
            },
        }
    } else {
        spec_dispatch_own(m, is_root, ev, stack1, sends, events, funcs, fuel)
    }
}

#[via_fn]
proof fn spec_dispatch_dec(
    m: StateModel,
    is_root: bool,
    ev: EventInstance,
    stack: Seq<ScopeModel>,
    sends: Seq<crate::interp::SendModel>,
    events: Seq<EventSignature>,
    funcs: Seq<FuncSignature>,
    fuel: nat,
) {
    if m.at.len() > 0 && model_child_index(m.subs, m.at) is Some {
        lemma_model_child_props(m.subs, m.at);
    }
}

/// How a state answered an event.
enum DispatchOutcome {
    /// No state in this subtree has an enabled transition for the event.
    NotHandled,
    /// The event was handled to completion inside this subtree.
    Done(Vec<StateAction>),
    /// A transition was selected here whose target names a sibling: the
    /// subtree has already run its exits; the parent flips its marker,
    /// enters the target, and runs the selected transition's body, found
    /// at position `sel` of the event's transitions in the emitting
    /// child's table, under the recorded argument `binding`.
    Switch { target: String, trace: Vec<StateAction>, sel: usize, binding: Env },
}

/// A found first match in a table of states is the found first match in
/// their images.
proof fn lemma_find_to_model(subs: Seq<State>, name: Seq<char>, ci: int)
    requires
        0 <= ci < subs.len(),
        subs[ci].name@ == name,
        forall|j: int| 0 <= j < ci ==> subs[j].name@ != name,
    ensures
        model_child_index(models_of(subs, subs.len() as int), name) == Some(ci),
        models_of(subs, subs.len() as int)[ci] == state_model(subs[ci]),
{
    lemma_models_of_index(subs, subs.len() as int);
    let ms = models_of(subs, subs.len() as int);
    assert forall|j: int| 0 <= j < ci implies ms[j].name != name by {
        assert(ms[j] == state_model(subs[j]));
    }
    assert(ms[ci] == state_model(subs[ci]));
    lemma_model_child_at(ms, name, ci);
}

/// A name absent from a table of states is absent from their images.
proof fn lemma_find_none_to_model(subs: Seq<State>, name: Seq<char>)
    requires
        forall|j: int| 0 <= j < subs.len() ==> subs[j].name@ != name,
    ensures
        model_child_index(models_of(subs, subs.len() as int), name) is None,
{
    lemma_models_of_index(subs, subs.len() as int);
    let ms = models_of(subs, subs.len() as int);
    assert forall|j: int| 0 <= j < ms.len() implies ms[j].name != name by {
        assert(ms[j] == state_model(subs[j]));
    }
    lemma_model_child_none(ms, name);
}

/// The image of how a state answered, read off the answer.
spec fn outcome_model(o: DispatchOutcome) -> OutcomeModel {
    match o {
        DispatchOutcome::NotHandled => OutcomeModel::NotHandled,
        DispatchOutcome::Done(tr) => OutcomeModel::Done(tr@),
        DispatchOutcome::Switch { target, trace, sel, binding } => OutcomeModel::Switch {
            target: target@,
            trace: trace@,
            sel: sel as int,
            binding: env_model(binding),
        },
    }
}

/// Searches this subtree, deepest state first, for an enabled transition
/// and performs it.  At the root, a target names one of the root's own
/// children; anywhere else it names a sibling of the declaring state.
/// What happened is exactly what [`spec_dispatch`] says for the subtree's
/// image, and an error comes exactly when that relation gets stuck.
#[verifier::rlimit(100)]
#[verifier::spinoff_prover]
fn dispatch_in(
    st: &mut State,
    measure: Ghost<State>,
    is_root: bool,
    ev: &EventInstance,
    scopes: &mut Vec<Env>,
    events: &Vec<EventSignature>,
    funcs: &Vec<FuncSignature>,
    sends: &mut Vec<(String, EventInstance)>,
    fuel: u32,
) -> (r: Result<DispatchOutcome, RuntimeError>)
    requires
        *old(st) == measure@,
    ensures
        same_shape(*old(st), *final(st)),
        final(scopes)@.len() == old(scopes)@.len(),
        old(sends)@.is_prefix_of(final(sends)@),
        match r {
            Ok(DispatchOutcome::NotHandled) => active_ids(*final(st)) == active_ids(*old(st)),
            Ok(DispatchOutcome::Done(tr)) => tr@.len() == 0 ==> active_ids(*final(st))
                == active_ids(*old(st)),
            _ => true,
        },
        ({
            let outcome = spec_dispatch(
                state_model(*old(st)),
                is_root,
                *ev,
                stack_model(old(scopes)@),
                crate::interp::sends_model(old(sends)@),
                events@,
                funcs@,
                fuel as nat,
            );
            match r {
                Ok(o) => outcome == Some(
                    (
                        state_model(*final(st)),
                        stack_model(final(scopes)@),
                        crate::interp::sends_model(final(sends)@),
                        outcome_model(o),
                    ),
                ),
                Err(_) => outcome is None,
            }
        }),
    decreases measure@,
{
    let ghost st0 = *st;
    let ghost m0 = state_model(st0);
    let ghost stack0 = stack_model(scopes@);
    let ghost sends0 = crate::interp::sends_model(sends@);
    let mut env = Env::new();
    core::mem::swap(&mut env, &mut st.env);
    proof {
        lemma_stack_model_push(scopes@, env);
    }
    scopes.push(env);
    if st.at.as_str().unicode_len() > 0 {
        let found = find_keyed(&st.subs, &st.at);
        match found {
            Some(ci) => {
                proof {
                    assert(st.subs@ == st0.subs@);
                    lemma_descend_index(st0, ci as int);
                    assert(decreases_to!(st0 => st0.subs));
                    assert(decreases_to!(st0.subs => st0.subs@));
                    assert(decreases_to!(st0.subs@ => st0.subs@[ci as int]));
                }
                let ghost child0 = st.subs@[ci as int];
                let sub_r = dispatch_in(
                    &mut st.subs[ci],
                    Ghost(child0),
                    false,
                    ev,
                    scopes,
                    events,
                    funcs,
                    sends,
                    fuel,
                );
                proof {
                    lemma_pairwise_one_changed(st0.subs@, st.subs@, ci as int);
                    lemma_models_of_update(st0.subs@, st.subs@, ci as int);
                }
                match sub_r {
                    Err(e) => {
                        restore_env(st, scopes);
                        proof {
                            lemma_shape_fields(st0, *st);
                        }
                        return Err(e);
                    },
                    Ok(DispatchOutcome::Done(tr)) => {
                        let ghost stack_now = stack_model(scopes@);
                        restore_env(st, scopes);
                        proof {
                            lemma_shape_fields(st0, *st);
                            if tr@.len() == 0 {
                                assert forall|q: int| 0 <= q < st0.subs@.len() implies same_shape(
                                    #[trigger] st0.subs@[q],
                                    st.subs@[q],
                                ) && active_ids(st.subs@[q]) == active_ids(st0.subs@[q]) by {
                                    if st.subs@[q] == st0.subs@[q] {
                                        lemma_same_shape_refl(st0.subs@[q]);
                                    }
                                }
                                lemma_shape_after_child(st0, *st);
                            }
                            lemma_state_model_rebuild(st0, *st, ci as int);
                            lemma_stack_model_drop_last(scopes@.push(st.env));
                            assert(scopes@.push(st.env).drop_last() =~= scopes@);
                            assert(stack_model(scopes@) == stack_now.drop_last());
                            assert(env_model(st.env) == stack_now.last());
                        }
                        return Ok(DispatchOutcome::Done(tr));
                    },
                    Ok(DispatchOutcome::Switch { target, mut trace, sel, binding }) => {
                        let ghost st_mid = *st;
                        let ghost c2 = state_model(st.subs@[ci as int]);
                        let ghost stack2 = stack_model(scopes@);
                        let ghost sends2 = crate::interp::sends_model(sends@);
                        let found_t = find_keyed(&st.subs, &target);
                        match found_t {
                            Some(ti) => {
                                proof {
                                    lemma_find_to_model(st.subs@, target@, ti as int);
                                }
                                st.at = target;
                                let ghost target0 = st.subs@[ti as int];
                                let entries_r = enter_chain(
                                    &mut st.subs[ti],
                                    Ghost(target0),
                                    scopes,
                                    events,
                                    funcs,
                                    sends,
                                    fuel,
                                );
                                proof {
                                    lemma_pairwise_one_changed(st_mid.subs@, st.subs@, ti as int);
                                    lemma_pairwise_shape_trans(st0.subs@, st_mid.subs@, st.subs@);
                                    lemma_models_of_update(st_mid.subs@, st.subs@, ti as int);
                                }
                                match entries_r {
                                    Ok(mut entries) => {
                                        proof {
                                            assert(active_ids(target0).len() >= 1);
                                            lemma_active_ids_model(target0);
                                        }
                                        trace.append(&mut entries);
                                        proof {
                                            assert(trace@.len() > 0);
                                        }
                                        let body_ok = run_selected_body(
                                            st,
                                            ci,
                                            ev,
                                            sel,
                                            binding,
                                            scopes,
                                            events,
                                            funcs,
                                            sends,
                                            fuel,
                                        );
                                        let ghost stack_now = stack_model(scopes@);
                                        restore_env(st, scopes);
                                        proof {
                                            lemma_shape_fields(st0, *st);
                                            lemma_stack_model_drop_last(scopes@.push(st.env));
                                            assert(scopes@.push(st.env).drop_last() =~= scopes@);
                                            assert(stack_model(scopes@) == stack_now.drop_last());
                                            assert(env_model(st.env) == stack_now.last());
                                            assert(state_model(*st) =~= (StateModel {
                                                id: m0.id,
                                                name: m0.name,
                                                at: target@,
                                                env: env_model(st.env),
                                                subs: m0.subs.update(ci as int, c2).update(
                                                    ti as int,
                                                    state_model(st.subs@[ti as int]),
                                                ),
                                                table: m0.table,
                                            }));
                                        }
                                        if body_ok {
                                            return Ok(DispatchOutcome::Done(trace));
                                        } else {
                                            return Err(RuntimeError::Stuck);
                                        }
                                    },
                                    Err(e) => {
                                        restore_env(st, scopes);
                                        proof {
                                            lemma_shape_fields(st0, *st);
                                        }
                                        return Err(e);
                                    },
                                }
                            },
                            None => {
                                restore_env(st, scopes);
                                proof {
                                    crate::lookup::lemma_keyed_none(st_mid.subs@, target@);
                                    lemma_find_none_to_model(st_mid.subs@, target@);
                                    lemma_shape_fields(st0, *st);
                                }
                                return Err(RuntimeError::Stuck);
                            },
                        }
                    },
                    Ok(DispatchOutcome::NotHandled) => {},
                }
            },
            None => {
                restore_env(st, scopes);
                proof {
                    crate::lookup::lemma_keyed_none(st0.subs@, st0.at@);
                    lemma_find_none_to_model(st0.subs@, st0.at@);
                    lemma_pairwise_refl(st0.subs@, st.subs@);
                    lemma_shape_fields(st0, *st);
                }
                return Err(RuntimeError::Stuck);
            },
        }
    }
    // No descendant handled the event: try this state's own table.  The
    // subtree's relation from here on is its own-table relation, on the
    // image with the possibly rebuilt children.
    let ghost st_pre = *st;
    let ghost mown = StateModel {
        id: m0.id,
        name: m0.name,
        at: m0.at,
        env: m0.env,
        subs: models_of(st.subs@, st.subs@.len() as int),
        table: m0.table,
    };
    let ghost stack_p = stack_model(scopes@);
    let ghost sends_p = crate::interp::sends_model(sends@);
    proof {
        assert(st.at == st0.at);
        assert(st.transitions == st0.transitions);
        if st0.at@.len() == 0 {
            lemma_models_of_index(st0.subs@, st0.subs@.len() as int);
            lemma_models_of_index(st.subs@, st.subs@.len() as int);
            assert(mown =~= m0);
        }
        assert(spec_dispatch(m0, is_root, *ev, stack0, sends0, events@, funcs@, fuel as nat)
            == spec_dispatch_own(mown, is_root, *ev, stack_p, sends_p, events@, funcs@, fuel as nat));
        assert forall|q: int| 0 <= q < st0.subs@.len() implies same_shape(
            #[trigger] st0.subs@[q],
            st_pre.subs@[q],
        ) by {
            if st_pre.subs@[q] == st0.subs@[q] {
                lemma_same_shape_refl(st0.subs@[q]);
            }
        }
    }
    let selected: Option<(usize, bool)> = {
        match st.transitions.get(&ev.signature.name) {
            Some(ts) => {
                match select_transition(ts, ev, scopes) {
                    Some(i) => Some((i, ts[i].target.as_str().unicode_len() == 0)),
                    None => None,
                }
            },
            None => None,
        }
    };
    proof {
        if st.transitions.trans_for(ev.signature.name@).len() == 0 {
            assert(spec_select(
                st.transitions.trans_for(ev.signature.name@),
                *ev,
                stack_p,
            ) is None);
        }
    }
    match selected {
        None => {
            let ghost stack_now = stack_model(scopes@);
            restore_env(st, scopes);
            proof {
                assert forall|q: int| 0 <= q < st0.subs@.len() implies same_shape(
                    #[trigger] st0.subs@[q],
                    st.subs@[q],
                ) && active_ids(st.subs@[q]) == active_ids(st0.subs@[q]) by {
                    if st.subs@[q] == st0.subs@[q] {
                        lemma_same_shape_refl(st0.subs@[q]);
                    }
                }
                lemma_shape_after_child(st0, *st);
                lemma_state_model_env_only(st_pre, *st, mown);
                lemma_stack_model_drop_last(scopes@.push(st.env));
                assert(scopes@.push(st.env).drop_last() =~= scopes@);
                assert(stack_model(scopes@) == stack_now.drop_last());
                assert(env_model(st.env) == stack_now.last());
            }
            Ok(DispatchOutcome::NotHandled)
        },
        Some((sel, empty_target)) => {
            let binding = make_own_binding(st, ev, sel);
            if empty_target {
                // A self or flat transition: the body runs in place, with
                // no exits and no entries.
                let body_ok = run_table_body(
                    &st.transitions,
                    ev,
                    sel,
                    binding,
                    scopes,
                    events,
                    funcs,
                    sends,
                    fuel,
                );
                let ghost stack_now = stack_model(scopes@);
                restore_env(st, scopes);
                proof {
                    assert forall|q: int| 0 <= q < st0.subs@.len() implies same_shape(
                        #[trigger] st0.subs@[q],
                        st.subs@[q],
                    ) && active_ids(st.subs@[q]) == active_ids(st0.subs@[q]) by {
                        if st.subs@[q] == st0.subs@[q] {
                            lemma_same_shape_refl(st0.subs@[q]);
                        }
                    }
                    lemma_shape_after_child(st0, *st);
                    lemma_state_model_env_only(st_pre, *st, mown);
                    lemma_stack_model_drop_last(scopes@.push(st.env));
                    assert(scopes@.push(st.env).drop_last() =~= scopes@);
                    assert(stack_model(scopes@) == stack_now.drop_last());
                    assert(env_model(st.env) == stack_now.last());
                }
                if body_ok {
                    Ok(DispatchOutcome::Done(Vec::new()))
                } else {
                    Err(RuntimeError::Stuck)
                }
            } else {
                let target = clone_target(st, ev, sel);
                // Exit the subtree below this state, innermost first.
                let mut trace: Vec<StateAction> = Vec::new();
                if st.at.as_str().unicode_len() > 0 {
                    let found = find_keyed(&st.subs, &st.at);
                    match found {
                        Some(aci) => {
                            proof {
                                lemma_find_to_model(st.subs@, st.at@, aci as int);
                            }
                            let ghost ac0 = st.subs@[aci as int];
                            let exits_r = exit_chain(
                                &mut st.subs[aci],
                                Ghost(ac0),
                                scopes,
                                events,
                                funcs,
                                sends,
                                fuel,
                            );
                            proof {
                                lemma_pairwise_one_changed(st_pre.subs@, st.subs@, aci as int);
                                lemma_pairwise_shape_trans(st0.subs@, st_pre.subs@, st.subs@);
                                lemma_models_of_update(st_pre.subs@, st.subs@, aci as int);
                                lemma_active_ids_model(ac0);
                            }
                            match exits_r {
                                Ok(mut ex) => {
                                    trace.append(&mut ex);
                                },
                                Err(e) => {
                                    restore_env(st, scopes);
                                    proof {
                                        lemma_shape_fields(st0, *st);
                                    }
                                    return Err(e);
                                },
                            }
                        },
                        None => {
                            restore_env(st, scopes);
                            proof {
                                crate::lookup::lemma_keyed_none(st_pre.subs@, st0.at@);
                                lemma_find_none_to_model(st_pre.subs@, st0.at@);
                                lemma_pairwise_refl(st_pre.subs@, st.subs@);
                                lemma_pairwise_shape_trans(st0.subs@, st_pre.subs@, st.subs@);
                                lemma_shape_fields(st0, *st);
                            }
                            return Err(RuntimeError::Stuck);
                        },
                    }
                }
                let ghost st_x = *st;
                let ghost stack_x = stack_model(scopes@);
                let ghost sends_x = crate::interp::sends_model(sends@);
                let ghost subs2 = models_of(st.subs@, st.subs@.len() as int);
                if is_root {
                    // The root's target names one of its own children: flip
                    // the marker, enter the target chain, run the body.
                    let found_t = find_keyed(&st.subs, &target);
                    match found_t {
                        Some(ti) => {
                            proof {
                                lemma_find_to_model(st.subs@, target@, ti as int);
                            }
                            st.at = target;
                            let ghost target0 = st.subs@[ti as int];
                            let entries_r = enter_chain(
                                &mut st.subs[ti],
                                Ghost(target0),
                                scopes,
                                events,
                                funcs,
                                sends,
                                fuel,
                            );
                            proof {
                                lemma_pairwise_one_changed(st_x.subs@, st.subs@, ti as int);
                                lemma_pairwise_shape_trans(st0.subs@, st_x.subs@, st.subs@);
                                lemma_models_of_update(st_x.subs@, st.subs@, ti as int);
                            }
                            match entries_r {
                                Ok(mut entries) => {
                                    proof {
                                        assert(active_ids(target0).len() >= 1);
                                        lemma_active_ids_model(target0);
                                    }
                                    trace.append(&mut entries);
                                    proof {
                                        assert(trace@.len() > 0);
                                    }
                                    let body_ok = run_table_body(
                                        &st.transitions,
                                        ev,
                                        sel,
                                        binding,
                                        scopes,
                                        events,
                                        funcs,
                                        sends,
                                        fuel,
                                    );
                                    let ghost stack_now = stack_model(scopes@);
                                    restore_env(st, scopes);
                                    proof {
                                        lemma_shape_fields(st0, *st);
                                        lemma_stack_model_drop_last(scopes@.push(st.env));
                                        assert(scopes@.push(st.env).drop_last() =~= scopes@);
                                        assert(stack_model(scopes@) == stack_now.drop_last());
                                        assert(env_model(st.env) == stack_now.last());
                                        assert(state_model(*st) =~= (StateModel {
                                            id: mown.id,
                                            name: mown.name,
                                            at: target@,
                                            env: env_model(st.env),
                                            subs: subs2.update(
                                                ti as int,
                                                state_model(st.subs@[ti as int]),
                                            ),
                                            table: mown.table,
                                        }));
                                    }
                                    if body_ok {
                                        Ok(DispatchOutcome::Done(trace))
                                    } else {
                                        Err(RuntimeError::Stuck)
                                    }
                                },
                                Err(e) => {
                                    restore_env(st, scopes);
                                    proof {
                                        lemma_shape_fields(st0, *st);
                                    }
                                    Err(e)
                                },
                            }
                        },
                        None => {
                            restore_env(st, scopes);
                            proof {
                                crate::lookup::lemma_keyed_none(st_x.subs@, target@);
                                lemma_find_none_to_model(st_x.subs@, target@);
                                lemma_shape_fields(st0, *st);
                            }
                            Err(RuntimeError::Stuck)
                        },
                    }
                } else {
                    // A sibling target: finish exiting this state and hand
                    // the switch to the parent.
                    let xkey = exit_key();
                    let actions_ok = run_actions(
                        &st.transitions,
                        &xkey,
                        scopes,
                        events,
                        funcs,
                        sends,
                        fuel,
                    );
                    trace.push(StateAction::Exited { id: st.id });
                    let ghost stack_now = stack_model(scopes@);
                    restore_env(st, scopes);
                    proof {
                        lemma_shape_fields(st0, *st);
                    }
                    if !actions_ok {
                        return Err(RuntimeError::Stuck);
                    }
                    proof {
                        lemma_state_model_env_only(st_x, *st, StateModel {
                            id: mown.id,
                            name: mown.name,
                            at: mown.at,
                            env: mown.env,
                            subs: subs2,
                            table: mown.table,
                        });
                        lemma_stack_model_drop_last(scopes@.push(st.env));
                        assert(scopes@.push(st.env).drop_last() =~= scopes@);
                        assert(stack_model(scopes@) == stack_now.drop_last());
                        assert(env_model(st.env) == stack_now.last());
                    }
                    Ok(DispatchOutcome::Switch { target, trace, sel, binding })
                }
            }
        },
    }
}

/// A state whose scalar fields and children equal a reference image,
/// environment aside, images as that reference with its environment.
proof fn lemma_state_model_env_only(st_pre: State, st1: State, m: StateModel)
    requires
        st1.id == st_pre.id,
        st1.name == st_pre.name,
        st1.at == st_pre.at,
        st1.transitions == st_pre.transitions,
        st1.subs == st_pre.subs,
        m.id == st_pre.id,
        m.name == st_pre.name@,
        m.at == st_pre.at@,
        m.table == st_pre.transitions,
        m.subs == models_of(st_pre.subs@, st_pre.subs@.len() as int),
    ensures
        state_model(st1) == (StateModel {
            id: m.id,
            name: m.name,
            at: m.at,
            env: env_model(st1.env),
            subs: m.subs,
            table: m.table,
        }),
{
    assert(state_model(st1) =~= (StateModel {
        id: m.id,
        name: m.name,
        at: m.at,
        env: env_model(st1.env),
        subs: m.subs,
        table: m.table,
    }));
}

/// Pairwise shapes after one child changed under a recursive call whose
/// contract preserves that child's shape.
proof fn lemma_pairwise_one_changed(pre: Seq<State>, post: Seq<State>, ci: int)
    requires
        pre.len() == post.len(),
        0 <= ci < pre.len(),
        same_shape(pre[ci], post[ci]),
        forall|q: int| 0 <= q < pre.len() && q != ci ==> pre[q] == post[q],
    ensures
        forall|q: int| 0 <= q < pre.len() ==> same_shape(#[trigger] pre[q], post[q]),
{
    assert forall|q: int| 0 <= q < pre.len() implies same_shape(#[trigger] pre[q], post[q]) by {
        if q != ci {
            lemma_same_shape_refl(pre[q]);
        }
    }
}

/// Pairwise shapes are reflexive on an unchanged table.
proof fn lemma_pairwise_refl(pre: Seq<State>, post: Seq<State>)
    requires
        pre == post,
    ensures
        forall|q: int| 0 <= q < pre.len() ==> same_shape(#[trigger] pre[q], post[q]),
{
    assert forall|q: int| 0 <= q < pre.len() implies same_shape(#[trigger] pre[q], post[q]) by {
        lemma_same_shape_refl(pre[q]);
    }
}

/// Pairwise shapes compose across an intermediate table.
proof fn lemma_pairwise_shape_trans(a: Seq<State>, b: Seq<State>, c: Seq<State>)
    requires
        a.len() == b.len(),
        b.len() == c.len(),
        forall|q: int| 0 <= q < a.len() ==> same_shape(#[trigger] a[q], b[q]),
        forall|q: int| 0 <= q < b.len() ==> same_shape(#[trigger] b[q], c[q]),
    ensures
        forall|q: int| 0 <= q < a.len() ==> same_shape(#[trigger] a[q], c[q]),
{
    assert forall|q: int| 0 <= q < a.len() implies same_shape(#[trigger] a[q], c[q]) by {
        lemma_same_shape_trans(a[q], b[q], c[q]);
    }
}

/// Builds the binding scope for the transition at position `sel` of this
/// state's own table for the event; empty when the position or the
/// binding arity is off.
fn make_own_binding(st: &State, ev: &EventInstance, sel: usize) -> (r: Env)
    ensures
        ({
            let ts = st.transitions.trans_for(ev.signature.name@);
            sel < ts.len() && ts[sel as int].bound_vars@.len() == ev.params@.len()
                ==> env_model(r) == arg_binding(
                ts[sel as int].bound_vars@,
                ev.params@,
                ts[sel as int].bound_vars@.len() as int,
            )
        }),
{
    match st.transitions.get(&ev.signature.name) {
        Some(ts) => {
            if sel < ts.len() && ts[sel].bound_vars.len() == ev.params.len() {
                make_binding(&ts[sel].bound_vars, &ev.params)
            } else {
                Env::new()
            }
        },
        None => Env::new(),
    }
}

/// Copies the target of the transition at position `sel` of this state's
/// own table for the event; empty when the position is off.
fn clone_target(st: &State, ev: &EventInstance, sel: usize) -> (r: String)
    ensures
        ({
            let ts = st.transitions.trans_for(ev.signature.name@);
            if sel < ts.len() {
                r == ts[sel as int].target
            } else {
                r@ == Seq::<char>::empty()
            }
        }),
{
    match st.transitions.get(&ev.signature.name) {
        Some(ts) => {
            if sel < ts.len() {
                ts[sel].target.clone()
            } else {
                String::new()
            }
        },
        None => String::new(),
    }
}

/// Runs the body of the transition at position `sel` of the given table
/// for the event, under the binding scope; `false` exactly when
/// [`spec_run_one_body`] has no result.
fn run_table_body(
    table: &crate::runtime::TransitionTable,
    ev: &EventInstance,
    sel: usize,
    binding: Env,
    scopes: &mut Vec<Env>,
    events: &Vec<EventSignature>,
    funcs: &Vec<FuncSignature>,
    sends: &mut Vec<(String, EventInstance)>,
    fuel: u32,
) -> (ok: bool)
    ensures
        match spec_run_one_body(
            stack_model(old(scopes)@),
            crate::interp::sends_model(old(sends)@),
            table.trans_for(ev.signature.name@),
            sel as int,
            env_model(binding),
            events@,
            funcs@,
            fuel as nat,
        ) {
            Some((st2, sd2)) => ok && stack_model(final(scopes)@) == st2 && crate::interp::sends_model(
                final(sends)@,
            ) == sd2,
            None => !ok,
        },
        final(scopes)@.len() == old(scopes)@.len(),
        old(sends)@.is_prefix_of(final(sends)@),
{
    match table.get(&ev.signature.name) {
        Some(ts) => {
            if sel < ts.len() {
                proof {
                    lemma_stack_model_push(scopes@, binding);
                }
                scopes.push(binding);
                let r = exec_stmts(scopes, &ts[sel].body, events, funcs, sends, fuel);
                let ghost pushed = stack_model(scopes@);
                let popped = scopes.pop();
                proof {
                    if r is Ok {
                        lemma_stack_model_drop_last(scopes@.push(popped.unwrap()));
                        assert(scopes@.push(popped.unwrap()).drop_last() =~= scopes@);
                        assert(stack_model(scopes@) == pushed.drop_last());
                    }
                }
                match r {
                    Ok(()) => matches!(popped, Some(_)),
                    Err(_) => false,
                }
            } else {
                false
            }
        },
        None => false,
    }
}

/// Runs the body of the transition at position `sel` of child `ci`'s
/// table for the event, under the binding scope.
fn run_selected_body(
    st: &State,
    ci: usize,
    ev: &EventInstance,
    sel: usize,
    binding: Env,
    scopes: &mut Vec<Env>,
    events: &Vec<EventSignature>,
    funcs: &Vec<FuncSignature>,
    sends: &mut Vec<(String, EventInstance)>,
    fuel: u32,
) -> (ok: bool)
    requires
        ci < st.subs@.len(),
    ensures
        match spec_run_one_body(
            stack_model(old(scopes)@),
            crate::interp::sends_model(old(sends)@),
            st.subs@[ci as int].transitions.trans_for(ev.signature.name@),
            sel as int,
            env_model(binding),
            events@,
            funcs@,
            fuel as nat,
        ) {
            Some((st2, sd2)) => ok && stack_model(final(scopes)@) == st2 && crate::interp::sends_model(
                final(sends)@,
            ) == sd2,
            None => !ok,
        },
        final(scopes)@.len() == old(scopes)@.len(),
        old(sends)@.is_prefix_of(final(sends)@),
{
    run_table_body(&st.subs[ci].transitions, ev, sel, binding, scopes, events, funcs, sends, fuel)
}

/// Takes the top scope back into the actor it was borrowed from.
fn restore_actor_env(actor: &mut Actor, scopes: &mut Vec<Env>)
    requires
        old(scopes)@.len() > 0,
    ensures
        final(scopes)@ == old(scopes)@.drop_last(),
        final(actor).env == old(scopes)@.last(),
        final(actor).id == old(actor).id,
        final(actor).name == old(actor).name,
        final(actor).queue == old(actor).queue,
        final(actor).statemachine == old(actor).statemachine,
        final(actor).transitions == old(actor).transitions,
{
    match scopes.pop() {
        Some(mut env) => {
            core::mem::swap(&mut env, &mut actor.env);
        },
        None => {
            proof {
                assert(false);
            }
        },
    }
}

/// Activates an actor: runs the entry actions from the root of its state
/// machine down to the initial leaf, outer to inner, exactly once per
/// state on the initial path, establishing the starting configuration.
/// An actor without a state machine activates trivially.
/// What activating an actor does: its state machine's entry chain runs
/// against a stack holding the actor's own scope, whose possibly
/// rewritten bindings come back to the actor.  An actor without a state
/// machine activates without effect.
pub open spec fn spec_activate(
    tree: Option<StateModel>,
    aenv: ScopeModel,
    sends: Seq<crate::interp::SendModel>,
    events: Seq<EventSignature>,
    funcs: Seq<FuncSignature>,
    fuel: nat,
) -> Option<(Option<StateModel>, ScopeModel, Seq<crate::interp::SendModel>)> {
    match tree {
        Some(m) => match spec_enter(m, seq![aenv], sends, events, funcs, fuel) {
            None => None,
            Some((m2, stack1, sends1)) => Some((Some(m2), stack1.last(), sends1)),
        },
        None => Some((None, aenv, sends)),
    }
}

/// The image of an actor's state machine, if it has one.
pub open spec fn tree_model(sm: Option<State>) -> Option<StateModel> {
    match sm {
        Some(st) => Some(state_model(st)),
        None => None,
    }
}

/// Activates an actor: runs the entry actions from the root of its state
/// machine down to the initial leaf, outer to inner, exactly once per
/// state on the initial path, establishing the starting configuration.
/// What happened — the configuration, every environment and the sends —
/// is exactly what [`spec_activate`] says of the actor's image, and
/// activation fails exactly when that relation gets stuck.
pub fn activate(
    actor: &mut Actor,
    events: &Vec<EventSignature>,
    funcs: &Vec<FuncSignature>,
    sends: &mut Vec<(String, EventInstance)>,
    fuel: u32,
) -> (r: Result<Vec<StateAction>, RuntimeError>)
    ensures
        final(actor).id == old(actor).id,
        final(actor).name == old(actor).name,
        final(actor).queue == old(actor).queue,
        final(actor).transitions == old(actor).transitions,
        match (old(actor).statemachine, final(actor).statemachine) {
            (Some(r0), Some(r1)) => same_shape(r0, r1) && active_ids(r1) == active_ids(r0) && (
            r matches Ok(tr) ==> tr@ == entries_of(active_ids(r0))),
            (None, None) => r matches Ok(tr) && tr@ == Seq::<StateAction>::empty(),
            _ => false,
        },
        old(sends)@.is_prefix_of(final(sends)@),
        ({
            let outcome = spec_activate(
                tree_model(old(actor).statemachine),
                env_model(old(actor).env),
                crate::interp::sends_model(old(sends)@),
                events@,
                funcs@,
                fuel as nat,
            );
            match r {
                Ok(_) => outcome == Some(
                    (
                        tree_model(final(actor).statemachine),
                        env_model(final(actor).env),
                        crate::interp::sends_model(final(sends)@),
                    ),
                ),
                Err(_) => outcome is None,
            }
        }),
{
    let mut env = Env::new();
    core::mem::swap(&mut env, &mut actor.env);
    let mut scopes: Vec<Env> = Vec::new();
    proof {
        assert(stack_model(scopes@.push(env)) =~= seq![env_model(env)]);
    }
    scopes.push(env);
    let result = match &mut actor.statemachine {
        Some(root) => {
            let ghost r0 = *root;
            enter_chain(root, Ghost(r0), &mut scopes, events, funcs, sends, fuel)
        },
        None => Ok(Vec::new()),
    };
    let ghost stack_now = stack_model(scopes@);
    restore_actor_env(actor, &mut scopes);
    proof {
        if result is Ok {
            lemma_stack_model_drop_last(scopes@.push(actor.env));
            assert(scopes@.push(actor.env).drop_last() =~= scopes@);
            assert(env_model(actor.env) == stack_now.last());
            if old(actor).statemachine is Some {
                assert(stack_now.drop_last() =~= Seq::<ScopeModel>::empty());
            }
        }
    }
    result
}

/// What processing one event does to an actor's image: the state tree
/// dispatches it first; if no state takes it, the first enabled flat
/// transition runs its body in place; an event neither takes is
/// discarded without effect, which is not an error.  `None` exactly when
/// the dispatch relation gets stuck.
pub open spec fn spec_handle(
    tree: Option<StateModel>,
    flat: crate::runtime::TransitionTable,
    aenv: ScopeModel,
    ev: EventInstance,
    sends: Seq<crate::interp::SendModel>,
    events: Seq<EventSignature>,
    funcs: Seq<FuncSignature>,
    fuel: nat,
) -> Option<(Option<StateModel>, ScopeModel, Seq<crate::interp::SendModel>, Seq<StateAction>)> {
    match tree {
        Some(m) => match spec_dispatch(m, true, ev, seq![aenv], sends, events, funcs, fuel) {
            None => None,
            Some((m2, stack1, sends1, out)) => match out {
                OutcomeModel::Done(tr) => Some((Some(m2), stack1.last(), sends1, tr)),
                OutcomeModel::Switch { .. } => None,
                OutcomeModel::NotHandled => spec_handle_flat(
                    Some(m2),
                    flat,
                    stack1,
                    ev,
                    sends1,
                    events,
                    funcs,
                    fuel,
                ),
            },
        },
        None => spec_handle_flat(None, flat, seq![aenv], ev, sends, events, funcs, fuel),
    }
}

/// The flat, actor-scoped half of event processing: first enabled
/// transition in declaration order, body in place, no configuration
/// change; no enabled transition discards the event.
pub open spec fn spec_handle_flat(
    tree: Option<StateModel>,
    flat: crate::runtime::TransitionTable,
    stack: Seq<ScopeModel>,
    ev: EventInstance,
    sends: Seq<crate::interp::SendModel>,
    events: Seq<EventSignature>,
    funcs: Seq<FuncSignature>,
    fuel: nat,
) -> Option<(Option<StateModel>, ScopeModel, Seq<crate::interp::SendModel>, Seq<StateAction>)> {
    let ts = flat.trans_for(ev.signature.name@);
    match spec_select(ts, ev, stack) {
        None => Some((tree, stack.last(), sends, Seq::empty())),
        Some(sel) => {
            let t = ts[sel];
            let binding = arg_binding(t.bound_vars@, ev.params@, t.bound_vars@.len() as int);
            match spec_run_one_body(stack, sends, ts, sel, binding, events, funcs, fuel) {
                None => None,
                Some((stack2, sends2)) => Some((tree, stack2.last(), sends2, Seq::empty())),
            }
        },
    }
}

/// Processes one event to completion: the deepest state with an enabled
/// transition handles it; an event no state handles falls to the flat
/// actor-scoped transitions, and one nothing handles is discarded, which
/// is not an error.  The trace names the exit and entry actions that
/// ran, in order.  What happened — the configuration, every environment,
/// the sends and the trace — is exactly what [`spec_handle`] says of the
/// actor's image, and processing fails exactly when that relation gets
/// stuck.
pub fn handle_event(
    actor: &mut Actor,
    ev: &EventInstance,
    events: &Vec<EventSignature>,
    funcs: &Vec<FuncSignature>,
    sends: &mut Vec<(String, EventInstance)>,
    fuel: u32,
) -> (r: Result<Vec<StateAction>, RuntimeError>)
    ensures
        final(actor).id == old(actor).id,
        final(actor).name == old(actor).name,
        final(actor).queue == old(actor).queue,
        final(actor).transitions == old(actor).transitions,
        match (old(actor).statemachine, final(actor).statemachine) {
            (Some(r0), Some(r1)) => same_shape(r0, r1) && ((r matches Ok(tr) && tr@.len() == 0)
                ==> active_ids(r1) == active_ids(r0)),
            (None, None) => true,
            _ => false,
        },
        old(sends)@.is_prefix_of(final(sends)@),
        ({
            let outcome = spec_handle(
                tree_model(old(actor).statemachine),
                old(actor).transitions,
                env_model(old(actor).env),
                *ev,
                crate::interp::sends_model(old(sends)@),
                events@,
                funcs@,
                fuel as nat,
            );
            match r {
                Ok(tr) => outcome == Some(
                    (
                        tree_model(final(actor).statemachine),
                        env_model(final(actor).env),
                        crate::interp::sends_model(final(sends)@),
                        tr@,
                    ),
                ),
                Err(_) => outcome is None,
            }
        }),
{
    let mut env = Env::new();
    core::mem::swap(&mut env, &mut actor.env);
    let mut scopes: Vec<Env> = Vec::new();
    proof {
        assert(stack_model(scopes@.push(env)) =~= seq![env_model(env)]);
    }
    scopes.push(env);
    let mut outcome = DispatchOutcome::NotHandled;
    let mut errored = false;
    let ghost had_tree = actor.statemachine is Some;
    match &mut actor.statemachine {
        Some(root) => {
            let ghost r0 = *root;
            match dispatch_in(root, Ghost(r0), true, ev, &mut scopes, events, funcs, sends, fuel) {
                Ok(o) => {
                    outcome = o;
                },
                Err(_) => {
                    errored = true;
                },
            }
        },
        None => {},
    }
    if errored {
        restore_actor_env(actor, &mut scopes);
        return Err(RuntimeError::Stuck);
    }
    match outcome {
        DispatchOutcome::Done(tr) => {
            let ghost stack_now = stack_model(scopes@);
            restore_actor_env(actor, &mut scopes);
            proof {
                lemma_stack_model_drop_last(scopes@.push(actor.env));
                assert(scopes@.push(actor.env).drop_last() =~= scopes@);
                assert(env_model(actor.env) == stack_now.last());
            }
            Ok(tr)
        },
        DispatchOutcome::Switch { .. } => {
            // The root consumes every switch itself; one reaching here
            // marks a broken engine invariant.
            restore_actor_env(actor, &mut scopes);
            Err(RuntimeError::Stuck)
        },
        DispatchOutcome::NotHandled => {
            // The tree declined: try the flat, actor-scoped transitions.
            let ghost stack_p = stack_model(scopes@);
            let ghost sends_p = crate::interp::sends_model(sends@);
            let selected = match actor.transitions.get(&ev.signature.name) {
                Some(ts) => select_transition(ts, ev, &scopes),
                None => None,
            };
            proof {
                if actor.transitions.trans_for(ev.signature.name@).len() == 0 {
                    assert(spec_select(
                        actor.transitions.trans_for(ev.signature.name@),
                        *ev,
                        stack_p,
                    ) is None);
                }
            }
            match selected {
                Some(i) => {
                    let ok = match actor.transitions.get(&ev.signature.name) {
                        Some(ts) => {
                            if i < ts.len() && ts[i].bound_vars.len() == ev.params.len() {
                                let binding = make_binding(&ts[i].bound_vars, &ev.params);
                                proof {
                                    lemma_stack_model_push(scopes@, binding);
                                }
                                scopes.push(binding);
                                let body_r = exec_stmts(
                                    &mut scopes,
                                    &ts[i].body,
                                    events,
                                    funcs,
                                    sends,
                                    fuel,
                                );
                                let ghost pushed = stack_model(scopes@);
                                let popped = scopes.pop();
                                proof {
                                    if body_r is Ok {
                                        lemma_stack_model_drop_last(
                                            scopes@.push(popped.unwrap()),
                                        );
                                        assert(scopes@.push(popped.unwrap()).drop_last()
                                            =~= scopes@);
                                        assert(stack_model(scopes@) == pushed.drop_last());
                                    }
                                }
                                matches!(body_r, Ok(())) && matches!(popped, Some(_))
                            } else {
                                false
                            }
                        },
                        None => false,
                    };
                    let ghost stack_now = stack_model(scopes@);
                    restore_actor_env(actor, &mut scopes);
                    proof {
                        if ok {
                            lemma_stack_model_drop_last(scopes@.push(actor.env));
                            assert(scopes@.push(actor.env).drop_last() =~= scopes@);
                            assert(env_model(actor.env) == stack_now.last());
                        }
                    }
                    if ok {
                        Ok(Vec::new())
                    } else {
                        Err(RuntimeError::Stuck)
                    }
                },
                None => {
                    let ghost stack_now = stack_model(scopes@);
                    restore_actor_env(actor, &mut scopes);
                    proof {
                        lemma_stack_model_drop_last(scopes@.push(actor.env));
                        assert(scopes@.push(actor.env).drop_last() =~= scopes@);
                        assert(env_model(actor.env) == stack_now.last());
                    }
                    Ok(Vec::new())
                },
            }
        },
    }
}

/// Copies an environment, binding for binding.
fn clone_env(e: &Env) -> (r: Env)
    ensures
        env_model(r) == env_model(*e),
        r.entries@.len() == e.entries@.len(),
{
    let mut entries: Vec<crate::env::VarEntry> = Vec::new();
    let n = e.entries.len();
    let mut i: usize = 0;
    while i < n
        invariant
            n == e.entries@.len(),
            i <= n,
            entries@.len() == i,
            forall|j: int| 0 <= j < i ==> #[trigger] entries@[j] == e.entries@[j],
        decreases n - i,
    {
        let name = e.entries[i].0.clone();
        let t = e.entries[i].1.0;
        let v = e.entries[i].1.1.duplicate();
        entries.push((name, (t, v)));
        i = i + 1;
    }
    let r = Env { entries };
    proof {
        assert(r.entries@ =~= e.entries@);
        assert(env_model(r) =~= env_model(*e));
    }
    r
}

} // verus!
