//! The evaluator: transforms the syntax tree into the runtime model.
//!
//! Actors and states receive dense, depth-first identifiers from an
//! explicit counter threaded through the call chain, so re-evaluating the
//! same tree yields the same identifiers.  Variable initializers must be
//! literals; a non-literal or missing initializer is a fatal evaluation
//! error.  A malformed transition declaration is dropped and recorded as a
//! diagnostic.  A later declaration under an already-declared name does not
//! shadow the earlier one: both are kept in declaration order, names
//! resolve to their first declaration, and the type checker rejects the
//! duplicate.
//!
//! The folds below are each parameterised by `upto`, the number of leading
//! items already processed; the model of a whole body is the fold at its
//! full length.

use vstd::prelude::*;

use crate::ast::ActorExpr;
use crate::ast::Program;
use crate::ast::StateMachineExpr;
use crate::ast::TopLevelExpr;
use crate::ast::ValueExpr;
use crate::ast::VarType;
use crate::runtime::Diagnostic;
use crate::runtime::EventSignature;
use crate::runtime::FuncSignature;
use crate::runtime::Transition;
use crate::runtime::transition_pattern_ok;
use crate::runtime::trans_matches_decl;
use crate::runtime::action_trans_matches;
use crate::runtime::State;
use crate::runtime::Actor;
use crate::runtime::InterpretationUnit;
use crate::env::Env;
use crate::mailbox::mailbox_events;
use crate::mailbox::mailbox_new;
use crate::runtime::EventInstance;
use crate::runtime::TransitionTable;
use crate::value::eval_pure;
use crate::value::spec_eval_pure;
use crate::value::Value;

verus! {

/// A fatal failure while building the runtime model: an initializer that
/// the evaluator cannot resolve to a literal value.
#[derive(Debug)]
pub enum EvalError {
    /// The named variable's initializer is an expression, not a literal;
    /// the evaluator does not perform constant folding.
    NonLiteralInitializer { scope: String, var: String },
    /// The named variable carries no initializer at all.
    MissingInitializer { scope: String, var: String },
}

/// The explicit identifier counter threaded through the evaluator, in
/// place of any process-wide state: every actor and state receives one
/// fresh, monotonically increasing identifier from it.
#[derive(Debug)]
pub struct IdGen {
    pub next_id: u32,
}

impl IdGen {
    /// Creates a counter that starts at zero.
    pub fn new() -> (r: IdGen)
        ensures
            r.next_id == 0,
    {
        IdGen { next_id: 0 }
    }

    /// Hands out the next identifier.
    pub fn generate(&mut self) -> (r: u32)
        requires
            old(self).next_id < u32::MAX,
        ensures
            r == old(self).next_id,
            final(self).next_id == old(self).next_id + 1,
    {
        let id = self.next_id;
        self.next_id = self.next_id + 1;
        id
    }
}

// ---------------------------------------------------------------------
// Well-formedness of initializers, and error witnesses.
// ---------------------------------------------------------------------

/// Whether a variable declaration can be evaluated: it carries an
/// initializer and the initializer is a literal.
pub open spec fn var_decl_ok(initial: Option<ValueExpr>) -> bool {
    initial matches Some(e) && spec_eval_pure(e) is Some
}

/// The literal value of a well-formed initializer.
pub open spec fn var_decl_value(initial: Option<ValueExpr>) -> Value
    recommends
        var_decl_ok(initial),
{
    spec_eval_pure(initial->0).unwrap()
}

/// Whether `e` is the error the evaluator reports for the declaration of
/// `var` in scope `scope` with the given initializer.
pub open spec fn var_decl_err(
    scope: Seq<char>,
    var: Seq<char>,
    initial: Option<ValueExpr>,
    e: EvalError,
) -> bool {
    match initial {
        None => e matches EvalError::MissingInitializer { scope: s, var: v } && s@ == scope && v@
            == var,
        Some(ex) => spec_eval_pure(ex) is None && (e matches EvalError::NonLiteralInitializer {
            scope: s,
            var: v,
        } && s@ == scope && v@ == var),
    }
}

/// Whether a state-machine item evaluates without a fatal error.
pub open spec fn sm_item_ok(item: StateMachineExpr) -> bool
    decreases item,
{
    match item {
        StateMachineExpr::VarDecl { initial, .. } => var_decl_ok(initial),
        StateMachineExpr::StateDecl { content, .. } => forall|j: int|
            0 <= j < content@.len() ==> sm_item_ok(#[trigger] content@[j]),
        _ => true,
    }
}

/// Whether the first `upto` items of a state-machine body all evaluate
/// without a fatal error.
pub open spec fn sm_items_ok(items: Seq<StateMachineExpr>, upto: int) -> bool {
    forall|j: int| 0 <= j < upto ==> sm_item_ok(#[trigger] items[j])
}

/// Whether `e` is a fatal error arising somewhere inside `item`, evaluated
/// in scope `scope`.
pub open spec fn sm_item_err_witness(scope: Seq<char>, item: StateMachineExpr, e: EvalError) -> bool
    decreases item,
{
    match item {
        StateMachineExpr::VarDecl { var_name, initial, .. } => var_decl_err(
            scope,
            var_name@,
            initial,
            e,
        ),
        StateMachineExpr::StateDecl { state_name, content } => exists|j: int|
            0 <= j < content@.len() && sm_item_err_witness(state_name@, #[trigger] content@[j], e),
        _ => false,
    }
}

/// Whether an actor item evaluates without a fatal error.
pub open spec fn actor_item_ok(item: ActorExpr) -> bool {
    match item {
        ActorExpr::VarDecl { initial, .. } => var_decl_ok(initial),
        ActorExpr::StateMachine(sm) => sm_items_ok(sm@, sm@.len() as int),
        _ => true,
    }
}

/// Whether the first `upto` actor items all evaluate without a fatal
/// error.
pub open spec fn actor_items_ok(items: Seq<ActorExpr>, upto: int) -> bool {
    forall|j: int| 0 <= j < upto ==> actor_item_ok(#[trigger] items[j])
}

/// Whether `e` is a fatal error arising somewhere inside an actor item
/// evaluated in scope `scope`.
pub open spec fn actor_item_err_witness(scope: Seq<char>, item: ActorExpr, e: EvalError) -> bool {
    match item {
        ActorExpr::VarDecl { var_name, initial, .. } => var_decl_err(scope, var_name@, initial, e),
        ActorExpr::StateMachine(sm) => exists|j: int|
            0 <= j < sm@.len() && sm_item_err_witness(scope, #[trigger] sm@[j], e),
        _ => false,
    }
}

// ---------------------------------------------------------------------
// Identifier accounting.
// ---------------------------------------------------------------------

/// How many identifiers the state declarations among the first `upto`
/// items of a state-machine body consume: one per state, recursively.
pub open spec fn sm_items_ids(items: Seq<StateMachineExpr>, upto: int) -> int
    decreases items, upto,
    via sm_items_ids_dec
{
    if upto <= 0 || upto > items.len() {
        0
    } else {
        let prior = sm_items_ids(items, upto - 1);
        match items[upto - 1] {
            StateMachineExpr::StateDecl { state_name, content } => prior + 1 + sm_items_ids(
                content@,
                content@.len() as int,
            ),
            _ => prior,
        }
    }
}

#[via_fn]
proof fn sm_items_ids_dec(items: Seq<StateMachineExpr>, upto: int) {
    if 0 < upto <= items.len() {
        match items[upto - 1] {
            StateMachineExpr::StateDecl { state_name, content } => {
                assert(decreases_to!(items => items[upto - 1]));
                assert(decreases_to!(items[upto - 1] => content@));
            },
            _ => {},
        }
    }
}

/// Identifier consumption never shrinks as more items are taken in, and
/// never goes negative.
pub proof fn lemma_sm_ids_mono(items: Seq<StateMachineExpr>, a: int, b: int)
    requires
        0 <= a <= b <= items.len(),
    ensures
        0 <= sm_items_ids(items, a) <= sm_items_ids(items, b),
    decreases items, b, 1int,
{
    lemma_sm_ids_nonneg(items, a);
    if a < b {
        lemma_sm_ids_mono(items, a, b - 1);
        match items[b - 1] {
            StateMachineExpr::StateDecl { state_name, content } => {
                lemma_sm_ids_nonneg(content@, content@.len() as int);
            },
            _ => {},
        }
    }
}

/// Identifier consumption is never negative.
pub proof fn lemma_sm_ids_nonneg(items: Seq<StateMachineExpr>, upto: int)
    ensures
        0 <= sm_items_ids(items, upto),
    decreases items, upto, 0int,
{
    if 0 < upto <= items.len() {
        lemma_sm_ids_nonneg(items, upto - 1);
        match items[upto - 1] {
            StateMachineExpr::StateDecl { state_name, content } => {
                lemma_sm_ids_nonneg(content@, content@.len() as int);
            },
            _ => {},
        }
    }
}

/// How many identifiers the first `upto` actor items consume: one per
/// state of each state-machine block, the root state included.
pub open spec fn actor_items_ids(items: Seq<ActorExpr>, upto: int) -> int
    decreases upto,
{
    if upto <= 0 || upto > items.len() {
        0
    } else {
        let prior = actor_items_ids(items, upto - 1);
        match items[upto - 1] {
            ActorExpr::StateMachine(sm) => prior + 1 + sm_items_ids(sm@, sm@.len() as int),
            _ => prior,
        }
    }
}

/// Actor-item identifier consumption never shrinks, and never goes
/// negative.
pub proof fn lemma_actor_ids_mono(items: Seq<ActorExpr>, a: int, b: int)
    requires
        0 <= a <= b <= items.len(),
    ensures
        0 <= actor_items_ids(items, a) <= actor_items_ids(items, b),
    decreases b - a,
{
    lemma_actor_ids_nonneg(items, a);
    if a < b {
        lemma_actor_ids_mono(items, a, b - 1);
        match items[b - 1] {
            ActorExpr::StateMachine(sm) => {
                lemma_sm_ids_nonneg(sm@, sm@.len() as int);
            },
            _ => {},
        }
    }
}

/// Actor-item identifier consumption is never negative.
pub proof fn lemma_actor_ids_nonneg(items: Seq<ActorExpr>, upto: int)
    ensures
        0 <= actor_items_ids(items, upto),
    decreases upto,
{
    if 0 < upto <= items.len() {
        lemma_actor_ids_nonneg(items, upto - 1);
        match items[upto - 1] {
            ActorExpr::StateMachine(sm) => {
                lemma_sm_ids_nonneg(sm@, sm@.len() as int);
            },
            _ => {},
        }
    }
}

// ---------------------------------------------------------------------
// Folds describing the model a body evaluates to.
// ---------------------------------------------------------------------

/// The initial-child name after the first `upto` items: the last
/// `initial` declaration wins; empty when none was seen.
pub open spec fn sm_at_of(items: Seq<StateMachineExpr>, upto: int) -> Seq<char>
    decreases upto,
{
    if upto <= 0 || upto > items.len() {
        Seq::empty()
    } else {
        match items[upto - 1] {
            StateMachineExpr::InitialStateDecl(n) => n@,
            _ => sm_at_of(items, upto - 1),
        }
    }
}

/// What `n` resolves to in a state's environment after the first `upto`
/// items: the last well-formed declaration of `n` wins.
pub open spec fn sm_env_resolve(items: Seq<StateMachineExpr>, upto: int, n: Seq<char>) -> Option<
    (VarType, Value),
>
    decreases upto,
{
    if upto <= 0 || upto > items.len() {
        None
    } else {
        let rest = sm_env_resolve(items, upto - 1, n);
        match items[upto - 1] {
            StateMachineExpr::VarDecl { var_name, var_type, initial } => if var_name@ == n
                && var_decl_ok(initial) {
                Some((var_type, var_decl_value(initial)))
            } else {
                rest
            },
            _ => rest,
        }
    }
}

/// What `n` resolves to in an actor's environment after the first `upto`
/// items.
pub open spec fn actor_env_resolve(items: Seq<ActorExpr>, upto: int, n: Seq<char>) -> Option<
    (VarType, Value),
>
    decreases upto,
{
    if upto <= 0 || upto > items.len() {
        None
    } else {
        let rest = actor_env_resolve(items, upto - 1, n);
        match items[upto - 1] {
            ActorExpr::VarDecl { var_name, var_type, initial } => if var_name@ == n
                && var_decl_ok(initial) {
                Some((var_type, var_decl_value(initial)))
            } else {
                rest
            },
            _ => rest,
        }
    }
}

/// The event name a state-machine item registers a transition under, if
/// any: the pattern's call name, or a reserved name for an entry or exit
/// action.  A malformed pattern registers nothing.
pub open spec fn sm_item_trans_key(item: StateMachineExpr) -> Option<Seq<char>> {
    match item {
        StateMachineExpr::TransitionDecl { event, .. } => if transition_pattern_ok(event) {
            Some(event->func_name@)
        } else {
            None
        },
        StateMachineExpr::EntryDecl(_) => Some("_ENTRY"@),
        StateMachineExpr::ExitDecl(_) => Some("_EXIT"@),
        _ => None,
    }
}

/// Whether `t` is the transition a state-machine item registers.
pub open spec fn sm_item_trans_matches(t: Transition, item: StateMachineExpr) -> bool {
    match item {
        StateMachineExpr::TransitionDecl { event, conditions, target, body } => trans_matches_decl(
            t,
            event,
            conditions,
            target@,
            body,
        ),
        StateMachineExpr::EntryDecl(body) => action_trans_matches(t, "_ENTRY"@, body),
        StateMachineExpr::ExitDecl(body) => action_trans_matches(t, "_EXIT"@, body),
        _ => false,
    }
}

/// The indices, in declaration order, of the first `upto` state-machine
/// items that register a transition under `n`.
pub open spec fn sm_trans_idxs(items: Seq<StateMachineExpr>, upto: int, n: Seq<char>) -> Seq<int>
    decreases upto,
{
    if upto <= 0 || upto > items.len() {
        Seq::empty()
    } else {
        let p = sm_trans_idxs(items, upto - 1, n);
        if sm_item_trans_key(items[upto - 1]) == Some(n) {
            p.push(upto - 1)
        } else {
            p
        }
    }
}

/// The event name an actor item registers a transition under, if any.
pub open spec fn actor_item_trans_key(item: ActorExpr) -> Option<Seq<char>> {
    match item {
        ActorExpr::TransitionDecl { event, .. } => if transition_pattern_ok(event) {
            Some(event->func_name@)
        } else {
            None
        },
        ActorExpr::EntryDecl(_) => Some("_ENTRY"@),
        ActorExpr::ExitDecl(_) => Some("_EXIT"@),
        _ => None,
    }
}

/// Whether `t` is the transition an actor item registers.  A flat,
/// actor-scoped transition carries an empty target.
pub open spec fn actor_item_trans_matches(t: Transition, item: ActorExpr) -> bool {
    match item {
        ActorExpr::TransitionDecl { event, conditions, body } => trans_matches_decl(
            t,
            event,
            conditions,
            Seq::empty(),
            body,
        ),
        ActorExpr::EntryDecl(body) => action_trans_matches(t, "_ENTRY"@, body),
        ActorExpr::ExitDecl(body) => action_trans_matches(t, "_EXIT"@, body),
        _ => false,
    }
}

/// The indices, in declaration order, of the first `upto` actor items
/// that register a transition under `n`.
pub open spec fn actor_trans_idxs(items: Seq<ActorExpr>, upto: int, n: Seq<char>) -> Seq<int>
    decreases upto,
{
    if upto <= 0 || upto > items.len() {
        Seq::empty()
    } else {
        let p = actor_trans_idxs(items, upto - 1, n);
        if actor_item_trans_key(items[upto - 1]) == Some(n) {
            p.push(upto - 1)
        } else {
            p
        }
    }
}

/// The indices, in declaration order, of the child-state declarations
/// among the first `upto` items.
pub open spec fn sm_child_idxs(items: Seq<StateMachineExpr>, upto: int) -> Seq<int>
    decreases upto,
{
    if upto <= 0 || upto > items.len() {
        Seq::empty()
    } else {
        let p = sm_child_idxs(items, upto - 1);
        if items[upto - 1] is StateDecl {
            p.push(upto - 1)
        } else {
            p
        }
    }
}

/// The index of the state-machine block the actor's root state is built
/// from: the last such block wins.
pub open spec fn actor_sm_idx(items: Seq<ActorExpr>, upto: int) -> Option<int>
    decreases upto,
{
    if upto <= 0 || upto > items.len() {
        None
    } else if items[upto - 1] is StateMachine {
        Some(upto - 1)
    } else {
        actor_sm_idx(items, upto - 1)
    }
}

/// The diagnostics the first `upto` items of a state-machine body record,
/// in order: one per malformed transition declaration, recursively.
pub open spec fn sm_diag_seq(scope: String, items: Seq<StateMachineExpr>, upto: int) -> Seq<
    Diagnostic,
>
    decreases items, upto,
    via sm_diag_seq_dec
{
    if upto <= 0 || upto > items.len() {
        Seq::empty()
    } else {
        let p = sm_diag_seq(scope, items, upto - 1);
        match items[upto - 1] {
            StateMachineExpr::TransitionDecl { event, .. } => if !transition_pattern_ok(event) {
                p.push(Diagnostic::MalformedTransition { scope })
            } else {
                p
            },
            StateMachineExpr::StateDecl { state_name, content } => p + sm_diag_seq(
                state_name,
                content@,
                content@.len() as int,
            ),
            _ => p,
        }
    }
}

#[via_fn]
proof fn sm_diag_seq_dec(scope: String, items: Seq<StateMachineExpr>, upto: int) {
    if 0 < upto <= items.len() {
        match items[upto - 1] {
            StateMachineExpr::StateDecl { state_name, content } => {
                assert(decreases_to!(items => items[upto - 1]));
                assert(decreases_to!(items[upto - 1] => content@));
            },
            _ => {},
        }
    }
}

/// The diagnostics the first `upto` actor items record, in order.
pub open spec fn actor_diag_seq(scope: String, items: Seq<ActorExpr>, upto: int) -> Seq<Diagnostic>
    decreases upto,
{
    if upto <= 0 || upto > items.len() {
        Seq::empty()
    } else {
        let p = actor_diag_seq(scope, items, upto - 1);
        match items[upto - 1] {
            ActorExpr::TransitionDecl { event, .. } => if !transition_pattern_ok(event) {
                p.push(Diagnostic::MalformedTransition { scope })
            } else {
                p
            },
            ActorExpr::StateMachine(sm) => p + sm_diag_seq(scope, sm@, sm@.len() as int),
            _ => p,
        }
    }
}

// ---------------------------------------------------------------------
// The relation between a body and the model it evaluates to.
// ---------------------------------------------------------------------

/// Whether the state `st` is exactly what evaluating the body `items`
/// under the given name yields, with `start` the first identifier the
/// evaluation consumed.  Identifiers are dense and depth-first: the state
/// itself takes `start`, and each child subtree takes the block that
/// follows its elder siblings'.
pub open spec fn state_matches(
    st: State,
    name: Seq<char>,
    items: Seq<StateMachineExpr>,
    start: int,
) -> bool
    decreases st,
{
    let len = items.len() as int;
    &&& st.id == start
    &&& st.name@ == name
    &&& st.at@ == sm_at_of(items, len)
    &&& forall|n: Seq<char>| #![trigger st.env.resolves(n)]
        st.env.resolves(n) == sm_env_resolve(items, len, n)
    &&& forall|n: Seq<char>| #![trigger st.transitions.trans_for(n)]
        {
            let idxs = sm_trans_idxs(items, len, n);
            let ts = st.transitions.trans_for(n);
            ts.len() == idxs.len() && (forall|q: int|
                0 <= q < idxs.len() ==> sm_item_trans_matches(#[trigger] ts[q], items[idxs[q]]))
        }
    &&& {
        let kids = sm_child_idxs(items, len);
        &&& st.subs@.len() == kids.len()
        &&& forall|q: int|
            0 <= q < kids.len() ==> state_matches(
                #[trigger] st.subs@[q],
                items[kids[q]]->state_name@,
                items[kids[q]]->content@,
                start + 1 + sm_items_ids(items, kids[q]),
            )
    }
}

/// How many identifiers the first `upto` top-level declarations consume:
/// one per actor plus its states.
pub open spec fn prog_ids(prog: Seq<TopLevelExpr>, upto: int) -> int
    decreases upto,
{
    if upto <= 0 || upto > prog.len() {
        0
    } else {
        let prior = prog_ids(prog, upto - 1);
        match prog[upto - 1] {
            TopLevelExpr::Actor { actor_name, content } => prior + 1 + actor_items_ids(
                content@,
                content@.len() as int,
            ),
            _ => prior,
        }
    }
}

/// Program identifier consumption never shrinks, and never goes negative.
pub proof fn lemma_prog_ids_mono(prog: Seq<TopLevelExpr>, a: int, b: int)
    requires
        0 <= a <= b <= prog.len(),
    ensures
        0 <= prog_ids(prog, a) <= prog_ids(prog, b),
    decreases b,
{
    lemma_prog_ids_nonneg(prog, a);
    if a < b {
        lemma_prog_ids_mono(prog, a, b - 1);
        match prog[b - 1] {
            TopLevelExpr::Actor { actor_name, content } => {
                lemma_actor_ids_nonneg(content@, content@.len() as int);
            },
            _ => {},
        }
    }
}

/// Program identifier consumption is never negative.
pub proof fn lemma_prog_ids_nonneg(prog: Seq<TopLevelExpr>, upto: int)
    ensures
        0 <= prog_ids(prog, upto),
    decreases upto,
{
    if 0 < upto <= prog.len() {
        lemma_prog_ids_nonneg(prog, upto - 1);
        match prog[upto - 1] {
            TopLevelExpr::Actor { actor_name, content } => {
                lemma_actor_ids_nonneg(content@, content@.len() as int);
            },
            _ => {},
        }
    }
}

/// The event signatures the first `upto` declarations register, in
/// declaration order.
pub open spec fn spec_events_of(prog: Seq<TopLevelExpr>, upto: int) -> Seq<EventSignature>
    decreases upto,
{
    if upto <= 0 || upto > prog.len() {
        Seq::empty()
    } else {
        let p = spec_events_of(prog, upto - 1);
        match prog[upto - 1] {
            TopLevelExpr::Event { event_name, params } => p.push(
                EventSignature { name: event_name, params },
            ),
            _ => p,
        }
    }
}

/// The function signatures the first `upto` declarations register, in
/// declaration order.
pub open spec fn spec_funcs_of(prog: Seq<TopLevelExpr>, upto: int) -> Seq<FuncSignature>
    decreases upto,
{
    if upto <= 0 || upto > prog.len() {
        Seq::empty()
    } else {
        let p = spec_funcs_of(prog, upto - 1);
        match prog[upto - 1] {
            TopLevelExpr::Func { func_name, params, ret_type, body } => p.push(
                FuncSignature { func_name, params, ret_type, body },
            ),
            _ => p,
        }
    }
}

/// The indices, in declaration order, of the actor declarations among the
/// first `upto` top-level declarations.
pub open spec fn actor_decl_idxs(prog: Seq<TopLevelExpr>, upto: int) -> Seq<int>
    decreases upto,
{
    if upto <= 0 || upto > prog.len() {
        Seq::empty()
    } else {
        let p = actor_decl_idxs(prog, upto - 1);
        if prog[upto - 1] is Actor {
            p.push(upto - 1)
        } else {
            p
        }
    }
}

/// The diagnostics the first `upto` top-level declarations record, in
/// order.
pub open spec fn prog_diag_seq(prog: Seq<TopLevelExpr>, upto: int) -> Seq<Diagnostic>
    decreases upto,
{
    if upto <= 0 || upto > prog.len() {
        Seq::empty()
    } else {
        let p = prog_diag_seq(prog, upto - 1);
        match prog[upto - 1] {
            TopLevelExpr::Actor { actor_name, content } => p + actor_diag_seq(
                actor_name,
                content@,
                content@.len() as int,
            ),
            _ => p,
        }
    }
}

/// Whether a top-level declaration evaluates without a fatal error.
pub open spec fn top_item_ok(item: TopLevelExpr) -> bool {
    match item {
        TopLevelExpr::Actor { content, .. } => actor_items_ok(content@, content@.len() as int),
        _ => true,
    }
}

/// Whether the first `upto` top-level declarations all evaluate without a
/// fatal error.
pub open spec fn prog_ok(prog: Seq<TopLevelExpr>, upto: int) -> bool {
    forall|j: int| 0 <= j < upto ==> top_item_ok(#[trigger] prog[j])
}

/// Whether `e` is a fatal error arising somewhere inside a top-level
/// declaration.
pub open spec fn top_item_err_witness(item: TopLevelExpr, e: EvalError) -> bool {
    match item {
        TopLevelExpr::Actor { actor_name, content } => exists|j: int|
            0 <= j < content@.len() && actor_item_err_witness(
                actor_name@,
                #[trigger] content@[j],
                e,
            ),
        _ => false,
    }
}

/// Whether the actor `a` is exactly what evaluating the body `items`
/// under the given name yields, with `start` the first identifier the
/// evaluation consumed.  A fresh actor's mailbox is empty.
pub open spec fn actor_matches(a: Actor, name: String, items: Seq<ActorExpr>, start: int) -> bool {
    let len = items.len() as int;
    &&& a.id == start
    &&& a.name == name
    &&& crate::mailbox::mailbox_events(a.queue) == Seq::<crate::runtime::EventInstance>::empty()
    &&& forall|n: Seq<char>| #![trigger a.env.resolves(n)]
        a.env.resolves(n) == actor_env_resolve(items, len, n)
    &&& forall|n: Seq<char>| #![trigger a.transitions.trans_for(n)]
        {
            let idxs = actor_trans_idxs(items, len, n);
            let ts = a.transitions.trans_for(n);
            ts.len() == idxs.len() && (forall|q: int|
                0 <= q < idxs.len() ==> actor_item_trans_matches(#[trigger] ts[q], items[idxs[q]]))
        }
    &&& match actor_sm_idx(items, len) {
        Some(k) => a.statemachine matches Some(st) && state_matches(
            st,
            name@,
            items[k]->StateMachine_0@,
            start + 1 + actor_items_ids(items, k),
        ),
        None => a.statemachine is None,
    }
}

/// Whether the unit is exactly what evaluating the program under the
/// given name yields, with `start` the first identifier the evaluation
/// consumed.
pub open spec fn unit_matches(
    unit: InterpretationUnit,
    name: String,
    prog: Seq<TopLevelExpr>,
    start: int,
) -> bool {
    let len = prog.len() as int;
    &&& unit.name == name
    &&& unit.events@ == spec_events_of(prog, len)
    &&& unit.funcs@ == spec_funcs_of(prog, len)
    &&& unit.diagnostics@ == prog_diag_seq(prog, len)
    &&& {
        let idxs = actor_decl_idxs(prog, len);
        &&& unit.actors@.len() == idxs.len()
        &&& forall|q: int|
            0 <= q < idxs.len() ==> actor_matches(
                #[trigger] unit.actors@[q],
                prog[idxs[q]]->actor_name,
                prog[idxs[q]]->content@,
                start + prog_ids(prog, idxs[q]),
            )
    }
}

/// A witness to a fatal error rules the item out as well-formed.
pub proof fn lemma_witness_not_ok(scope: Seq<char>, item: StateMachineExpr, e: EvalError)
    requires
        sm_item_err_witness(scope, item, e),
    ensures
        !sm_item_ok(item),
    decreases item,
{
    match item {
        StateMachineExpr::StateDecl { state_name, content } => {
            let j = choose|j: int|
                0 <= j < content@.len() && sm_item_err_witness(state_name@, #[trigger] content@[j], e);
            lemma_witness_not_ok(state_name@, content@[j], e);
        },
        _ => {},
    }
}

// ---------------------------------------------------------------------
// The evaluator itself.
// ---------------------------------------------------------------------

/// The reserved event name that carries a state's entry actions.
fn entry_key() -> (r: String)
    ensures
        r@ == "_ENTRY"@,
{
    "_ENTRY".to_owned()
}

/// The reserved event name that carries a state's exit actions.
fn exit_key() -> (r: String)
    ensures
        r@ == "_EXIT"@,
{
    "_EXIT".to_owned()
}

/// Builds one state of the hierarchy from its body: a recursive builder
/// returning an owned state, composed bottom-up into its parent.
///
/// The state takes the next identifier; nested states take the following
/// ones, depth-first in declaration order.  Malformed transitions are
/// recorded in `diags` and dropped; an initializer that is not a literal
/// aborts the whole evaluation.
pub fn eval_state(
    name: String,
    items: Vec<StateMachineExpr>,
    ids: &mut IdGen,
    diags: &mut Vec<Diagnostic>,
) -> (r: Result<State, EvalError>)
    requires
        old(ids).next_id + 1 + sm_items_ids(items@, items@.len() as int) <= u32::MAX,
    ensures
        sm_items_ok(items@, items@.len() as int) ==> (r matches Ok(st) && state_matches(
            st,
            name@,
            items@,
            old(ids).next_id as int,
        ) && st.name == name && final(ids).next_id == old(ids).next_id + 1 + sm_items_ids(
            items@,
            items@.len() as int,
        ) && final(diags)@ == old(diags)@ + sm_diag_seq(name, items@, items@.len() as int)),
        !sm_items_ok(items@, items@.len() as int) ==> (r matches Err(e) && exists|k: int|
            0 <= k < items@.len() && sm_item_err_witness(name@, #[trigger] items@[k], e)),
        old(diags)@.is_prefix_of(final(diags)@),
        old(ids).next_id <= final(ids).next_id,
{
    let ghost m = items@;
    eval_state_rec(name, items, Ghost(m), ids, diags)
}

/// The recursive worker behind [`eval_state`]; the ghost copy of the body
/// is the termination measure, untouched by the draining of `items`.
fn eval_state_rec(
    name: String,
    mut items: Vec<StateMachineExpr>,
    measure: Ghost<Seq<StateMachineExpr>>,
    ids: &mut IdGen,
    diags: &mut Vec<Diagnostic>,
) -> (r: Result<State, EvalError>)
    requires
        items@ == measure@,
        old(ids).next_id + 1 + sm_items_ids(items@, items@.len() as int) <= u32::MAX,
    ensures
        sm_items_ok(measure@, measure@.len() as int) ==> (r matches Ok(st) && state_matches(
            st,
            name@,
            measure@,
            old(ids).next_id as int,
        ) && st.name == name && final(ids).next_id == old(ids).next_id + 1 + sm_items_ids(
            measure@,
            measure@.len() as int,
        ) && final(diags)@ == old(diags)@ + sm_diag_seq(name, measure@, measure@.len() as int)),
        !sm_items_ok(measure@, measure@.len() as int) ==> (r matches Err(e) && exists|k: int|
            0 <= k < measure@.len() && sm_item_err_witness(name@, #[trigger] measure@[k], e)),
        old(diags)@.is_prefix_of(final(diags)@),
        old(ids).next_id <= final(ids).next_id,
    decreases measure@,
{
    let ghost items0 = items@;
    let ghost n_total = items0.len() as int;
    let ghost start = ids.next_id as int;
    let ghost diags0 = diags@;
    proof {
        lemma_sm_ids_nonneg(items0, n_total);
        vstd::std_specs::vec::axiom_spec_len(&items);
    }
    let id = ids.generate();
    let mut st = State {
        id,
        name,
        at: String::new(),
        env: Env::new(),
        subs: Vec::new(),
        transitions: TransitionTable::new(),
    };
    let mut i: usize = 0;
    while items.len() > 0
        invariant
            items0 == measure@,
            start == old(ids).next_id as int,
            diags0 == old(diags)@,
            items0.skip(i as int) == items@,
            0 <= i as int <= n_total,
            n_total == items0.len(),
            n_total <= usize::MAX,
            sm_items_ok(items0, i as int),
            st.id as int == start,
            st.name == name,
            st.at@ == sm_at_of(items0, i as int),
            forall|nm: Seq<char>| #![trigger st.env.resolves(nm)]
                st.env.resolves(nm) == sm_env_resolve(items0, i as int, nm),
            forall|nm: Seq<char>| #![trigger st.transitions.trans_for(nm)]
                {
                    let idxs = sm_trans_idxs(items0, i as int, nm);
                    let ts = st.transitions.trans_for(nm);
                    ts.len() == idxs.len() && (forall|q: int|
                        0 <= q < idxs.len() ==> sm_item_trans_matches(
                            #[trigger] ts[q],
                            items0[idxs[q]],
                        ))
                },
            ({
                let kids = sm_child_idxs(items0, i as int);
                st.subs@.len() == kids.len() && (forall|q: int|
                    0 <= q < kids.len() ==> state_matches(
                        #[trigger] st.subs@[q],
                        items0[kids[q]]->state_name@,
                        items0[kids[q]]->content@,
                        start + 1 + sm_items_ids(items0, kids[q]),
                    ))
            }),
            ids.next_id as int == start + 1 + sm_items_ids(items0, i as int),
            start + 1 + sm_items_ids(items0, n_total) <= u32::MAX,
            diags@ == diags0 + sm_diag_seq(name, items0, i as int),
        decreases items@.len(),
    {
        proof {
            assert((i as int) < n_total);
        }
        let item = items.remove(0);
        proof {
            assert(items0.skip(i as int).drop_first() =~= items0.skip(i as int + 1));
            assert(item == items0[i as int]);
            lemma_sm_ids_mono(items0, i as int, n_total);
        }
        match item {
            StateMachineExpr::VarDecl { var_name, var_type, initial } => {
                match initial {
                    Some(expr) => {
                        match eval_pure(expr) {
                            Some(v) => {
                                st.set_var(var_name, var_type, v);
                                proof {
                                    assert forall|nm: Seq<char>| #![trigger st.env.resolves(nm)]
                                        st.env.resolves(nm) == sm_env_resolve(
                                        items0,
                                        i as int + 1,
                                        nm,
                                    ) by {
                                        if nm != var_name@ {
                                            assert(st.env.resolves(nm) == sm_env_resolve(
                                                items0,
                                                i as int,
                                                nm,
                                            ));
                                        }
                                    }
                                }
                            },
                            None => {
                                let e = EvalError::NonLiteralInitializer {
                                    scope: st.name.clone(),
                                    var: var_name,
                                };
                                proof {
                                    assert(sm_item_err_witness(name@, items0[i as int], e));
                                    assert(!sm_item_ok(items0[i as int]));
                                    assert(!sm_items_ok(items0, n_total));
                                }
                                return Err(e);
                            },
                        }
                    },
                    None => {
                        let e = EvalError::MissingInitializer {
                            scope: st.name.clone(),
                            var: var_name,
                        };
                        proof {
                            assert(sm_item_err_witness(name@, items0[i as int], e));
                            assert(!sm_item_ok(items0[i as int]));
                            assert(!sm_items_ok(items0, n_total));
                        }
                        return Err(e);
                    },
                }
            },
            StateMachineExpr::InitialStateDecl(nm) => {
                st.at = nm;
            },
            StateMachineExpr::StateDecl { state_name, content } => {
                proof {
                    assert(decreases_to!(items0 => items0[i as int]));
                    assert(decreases_to!(items0[i as int] => content@));
                    assert(sm_items_ids(items0, i as int + 1) == sm_items_ids(items0, i as int) + 1
                        + sm_items_ids(content@, content@.len() as int));
                    lemma_sm_ids_mono(items0, i as int + 1, n_total);
                }
                let ghost child_start = ids.next_id as int;
                let ghost cm = content@;
                match eval_state_rec(state_name, content, Ghost(cm), ids, diags) {
                    Ok(sub) => {
                        let ghost subs_prev = st.subs@;
                        st.subs.push(sub);
                        proof {
                            let kids_new = sm_child_idxs(items0, i as int + 1);
                            let kids_prev = sm_child_idxs(items0, i as int);
                            assert(kids_new == kids_prev.push(i as int));
                            assert forall|q: int| 0 <= q < kids_new.len() implies state_matches(
                                #[trigger] st.subs@[q],
                                items0[kids_new[q]]->state_name@,
                                items0[kids_new[q]]->content@,
                                start + 1 + sm_items_ids(items0, kids_new[q]),
                            ) by {
                                if q < kids_prev.len() {
                                    assert(st.subs@[q] == subs_prev[q]);
                                    assert(kids_new[q] == kids_prev[q]);
                                } else {
                                    assert(kids_new[q] == i as int);
                                    assert(st.subs@[q] == st.subs@.last());
                                }
                            }
                        }
                    },
                    Err(e) => {
                        proof {
                            let j = choose|j: int|
                                0 <= j < cm.len() && sm_item_err_witness(
                                    items0[i as int]->state_name@,
                                    #[trigger] cm[j],
                                    e,
                                );
                            assert(sm_item_err_witness(name@, items0[i as int], e));
                            lemma_witness_not_ok(name@, items0[i as int], e);
                            assert(!sm_items_ok(items0, n_total));
                        }
                        return Err(e);
                    },
                }
            },
            StateMachineExpr::TransitionDecl { event, conditions, target, body } => {
                let ghost ev = event;
                match Transition::try_eval(event, conditions, target, body) {
                    Some(t) => {
                        let ghost table_prev = st.transitions;
                        st.transitions.insert(t);
                        proof {
                            reestablish_trans_invariant(
                                table_prev,
                                st.transitions,
                                t,
                                items0,
                                i as int,
                            );
                        }
                    },
                    None => {
                        diags.push(Diagnostic::MalformedTransition { scope: st.name.clone() });
                    },
                }
            },
            StateMachineExpr::EntryDecl(body) => {
                let t = Transition {
                    event_name: entry_key(),
                    bound_vars: Vec::new(),
                    conditions: Vec::new(),
                    target: String::new(),
                    body,
                };
                let ghost table_prev = st.transitions;
                st.transitions.insert(t);
                proof {
                    reestablish_trans_invariant(table_prev, st.transitions, t, items0, i as int);
                }
            },
            StateMachineExpr::ExitDecl(body) => {
                let t = Transition {
                    event_name: exit_key(),
                    bound_vars: Vec::new(),
                    conditions: Vec::new(),
                    target: String::new(),
                    body,
                };
                let ghost table_prev = st.transitions;
                st.transitions.insert(t);
                proof {
                    reestablish_trans_invariant(table_prev, st.transitions, t, items0, i as int);
                }
            },
        }
        i = i + 1;
    }
    proof {
        assert(i as int == n_total);
    }
    Ok(st)
}

/// Registering the transition an item declares extends exactly the group
/// of its event name, preserving all earlier registrations.
proof fn reestablish_trans_invariant(
    prev: TransitionTable,
    cur: TransitionTable,
    t: Transition,
    items0: Seq<StateMachineExpr>,
    i: int,
)
    requires
        0 <= i < items0.len(),
        sm_item_trans_key(items0[i]) == Some(t.event_name@),
        sm_item_trans_matches(t, items0[i]),
        cur.trans_for(t.event_name@) == prev.trans_for(t.event_name@).push(t),
        forall|m: Seq<char>| m != t.event_name@ ==> cur.trans_for(m) == prev.trans_for(m),
        forall|nm: Seq<char>| #![trigger prev.trans_for(nm)]
            {
                let idxs = sm_trans_idxs(items0, i, nm);
                let ts = prev.trans_for(nm);
                ts.len() == idxs.len() && (forall|q: int|
                    0 <= q < idxs.len() ==> sm_item_trans_matches(#[trigger] ts[q], items0[idxs[q]]))
            },
    ensures
        forall|nm: Seq<char>| #![trigger cur.trans_for(nm)]
            {
                let idxs = sm_trans_idxs(items0, i + 1, nm);
                let ts = cur.trans_for(nm);
                ts.len() == idxs.len() && (forall|q: int|
                    0 <= q < idxs.len() ==> sm_item_trans_matches(#[trigger] ts[q], items0[idxs[q]]))
            },
{
    assert forall|nm: Seq<char>| #![trigger cur.trans_for(nm)]
        {
            let idxs = sm_trans_idxs(items0, i + 1, nm);
            let ts = cur.trans_for(nm);
            ts.len() == idxs.len() && (forall|q: int|
                0 <= q < idxs.len() ==> sm_item_trans_matches(#[trigger] ts[q], items0[idxs[q]]))
        } by {
        let idxs = sm_trans_idxs(items0, i + 1, nm);
        let ts = cur.trans_for(nm);
        let idxs_prev = sm_trans_idxs(items0, i, nm);
        let ts_prev = prev.trans_for(nm);
        if nm == t.event_name@ {
            assert(idxs == idxs_prev.push(i));
            assert(ts == ts_prev.push(t));
            assert forall|q: int| 0 <= q < idxs.len() implies sm_item_trans_matches(
                #[trigger] ts[q],
                items0[idxs[q]],
            ) by {
                if q < idxs_prev.len() {
                    assert(ts[q] == ts_prev[q]);
                    assert(idxs[q] == idxs_prev[q]);
                } else {
                    assert(ts[q] == t);
                    assert(idxs[q] == i);
                }
            }
        } else {
            assert(idxs == idxs_prev);
            assert(ts == ts_prev);
        }
    }
}

/// A witness to a fatal error rules the actor item out as well-formed.
pub proof fn lemma_actor_witness_not_ok(scope: Seq<char>, item: ActorExpr, e: EvalError)
    requires
        actor_item_err_witness(scope, item, e),
    ensures
        !actor_item_ok(item),
{
    match item {
        ActorExpr::StateMachine(sm) => {
            let j = choose|j: int|
                0 <= j < sm@.len() && sm_item_err_witness(scope, #[trigger] sm@[j], e);
            lemma_witness_not_ok(scope, sm@[j], e);
        },
        _ => {},
    }
}

/// Builds an actor from its body: a fresh identifier, an empty mailbox,
/// its variables, its flat transitions, and its state tree if it declares
/// one (the root state is named after the actor; when several blocks are
/// declared, the last one stands).
pub fn eval_actor(
    name: String,
    content: Vec<ActorExpr>,
    ids: &mut IdGen,
    diags: &mut Vec<Diagnostic>,
) -> (r: Result<Actor, EvalError>)
    requires
        old(ids).next_id + 1 + actor_items_ids(content@, content@.len() as int) <= u32::MAX,
    ensures
        actor_items_ok(content@, content@.len() as int) ==> (r matches Ok(a) && actor_matches(
            a,
            name,
            content@,
            old(ids).next_id as int,
        ) && final(ids).next_id == old(ids).next_id + 1 + actor_items_ids(
            content@,
            content@.len() as int,
        ) && final(diags)@ == old(diags)@ + actor_diag_seq(name, content@, content@.len() as int)),
        !actor_items_ok(content@, content@.len() as int) ==> (r matches Err(e) && exists|k: int|
            0 <= k < content@.len() && actor_item_err_witness(name@, #[trigger] content@[k], e)),
        old(diags)@.is_prefix_of(final(diags)@),
        old(ids).next_id <= final(ids).next_id,
{
    let mut items = content;
    let ghost items0 = items@;
    let ghost n_total = items0.len() as int;
    let ghost start = ids.next_id as int;
    let ghost diags0 = diags@;
    proof {
        lemma_actor_ids_nonneg(items0, n_total);
        vstd::std_specs::vec::axiom_spec_len(&items);
    }
    let id = ids.generate();
    let mut actor = Actor {
        id,
        name,
        queue: mailbox_new(),
        env: Env::new(),
        statemachine: None,
        transitions: TransitionTable::new(),
    };
    let mut i: usize = 0;
    while items.len() > 0
        invariant
            items0 == content@,
            start == old(ids).next_id as int,
            diags0 == old(diags)@,
            items0.skip(i as int) == items@,
            0 <= i as int <= n_total,
            n_total == items0.len(),
            n_total <= usize::MAX,
            actor_items_ok(items0, i as int),
            actor.id as int == start,
            actor.name == name,
            mailbox_events(actor.queue) == Seq::<EventInstance>::empty(),
            forall|nm: Seq<char>| #![trigger actor.env.resolves(nm)]
                actor.env.resolves(nm) == actor_env_resolve(items0, i as int, nm),
            forall|nm: Seq<char>| #![trigger actor.transitions.trans_for(nm)]
                {
                    let idxs = actor_trans_idxs(items0, i as int, nm);
                    let ts = actor.transitions.trans_for(nm);
                    ts.len() == idxs.len() && (forall|q: int|
                        0 <= q < idxs.len() ==> actor_item_trans_matches(
                            #[trigger] ts[q],
                            items0[idxs[q]],
                        ))
                },
            match actor_sm_idx(items0, i as int) {
                Some(k) => actor.statemachine matches Some(st) && state_matches(
                    st,
                    name@,
                    items0[k]->StateMachine_0@,
                    start + 1 + actor_items_ids(items0, k),
                ),
                None => actor.statemachine is None,
            },
            ids.next_id as int == start + 1 + actor_items_ids(items0, i as int),
            start + 1 + actor_items_ids(items0, n_total) <= u32::MAX,
            diags@ == diags0 + actor_diag_seq(name, items0, i as int),
        decreases items@.len(),
    {
        proof {
            assert((i as int) < n_total);
        }
        let item = items.remove(0);
        proof {
            assert(items0.skip(i as int).drop_first() =~= items0.skip(i as int + 1));
            assert(item == items0[i as int]);
            lemma_actor_ids_mono(items0, i as int, n_total);
        }
        match item {
            ActorExpr::VarDecl { var_name, var_type, initial } => {
                match initial {
                    Some(expr) => {
                        match eval_pure(expr) {
                            Some(v) => {
                                actor.env.set_var(var_name, var_type, v);
                                proof {
                                    assert forall|nm: Seq<char>| #![trigger actor.env.resolves(nm)]
                                        actor.env.resolves(nm) == actor_env_resolve(
                                        items0,
                                        i as int + 1,
                                        nm,
                                    ) by {
                                        if nm != var_name@ {
                                            assert(actor.env.resolves(nm) == actor_env_resolve(
                                                items0,
                                                i as int,
                                                nm,
                                            ));
                                        }
                                    }
                                }
                            },
                            None => {
                                let e = EvalError::NonLiteralInitializer {
                                    scope: actor.name.clone(),
                                    var: var_name,
                                };
                                proof {
                                    assert(actor_item_err_witness(name@, items0[i as int], e));
                                    assert(!actor_item_ok(items0[i as int]));
                                    assert(!actor_items_ok(items0, n_total));
                                }
                                return Err(e);
                            },
                        }
                    },
                    None => {
                        let e = EvalError::MissingInitializer {
                            scope: actor.name.clone(),
                            var: var_name,
                        };
                        proof {
                            assert(actor_item_err_witness(name@, items0[i as int], e));
                            assert(!actor_item_ok(items0[i as int]));
                            assert(!actor_items_ok(items0, n_total));
                        }
                        return Err(e);
                    },
                }
            },
            ActorExpr::StateMachine(sm) => {
                proof {
                    assert(actor_items_ids(items0, i as int + 1) == actor_items_ids(
                        items0,
                        i as int,
                    ) + 1 + sm_items_ids(sm@, sm@.len() as int));
                    lemma_actor_ids_mono(items0, i as int + 1, n_total);
                }
                let root_name = actor.name.clone();
                match eval_state(root_name, sm, ids, diags) {
                    Ok(st) => {
                        actor.statemachine = Some(st);
                    },
                    Err(e) => {
                        proof {
                            lemma_actor_witness_not_ok(name@, items0[i as int], e);
                            assert(!actor_items_ok(items0, n_total));
                        }
                        return Err(e);
                    },
                }
            },
            ActorExpr::TransitionDecl { event, conditions, body } => {
                match Transition::try_eval(event, conditions, String::new(), body) {
                    Some(t) => {
                        let ghost table_prev = actor.transitions;
                        actor.transitions.insert(t);
                        proof {
                            reestablish_actor_trans_invariant(
                                table_prev,
                                actor.transitions,
                                t,
                                items0,
                                i as int,
                            );
                        }
                    },
                    None => {
                        diags.push(Diagnostic::MalformedTransition { scope: actor.name.clone() });
                    },
                }
            },
            ActorExpr::EntryDecl(body) => {
                let t = Transition {
                    event_name: entry_key(),
                    bound_vars: Vec::new(),
                    conditions: Vec::new(),
                    target: String::new(),
                    body,
                };
                let ghost table_prev = actor.transitions;
                actor.transitions.insert(t);
                proof {
                    reestablish_actor_trans_invariant(
                        table_prev,
                        actor.transitions,
                        t,
                        items0,
                        i as int,
                    );
                }
            },
            ActorExpr::ExitDecl(body) => {
                let t = Transition {
                    event_name: exit_key(),
                    bound_vars: Vec::new(),
                    conditions: Vec::new(),
                    target: String::new(),
                    body,
                };
                let ghost table_prev = actor.transitions;
                actor.transitions.insert(t);
                proof {
                    reestablish_actor_trans_invariant(
                        table_prev,
                        actor.transitions,
                        t,
                        items0,
                        i as int,
                    );
                }
            },
        }
        i = i + 1;
    }
    proof {
        assert(i as int == n_total);
    }
    Ok(actor)
}

/// Registering the transition an actor item declares extends exactly the
/// group of its event name, preserving all earlier registrations.
proof fn reestablish_actor_trans_invariant(
    prev: TransitionTable,
    cur: TransitionTable,
    t: Transition,
    items0: Seq<ActorExpr>,
    i: int,
)
    requires
        0 <= i < items0.len(),
        actor_item_trans_key(items0[i]) == Some(t.event_name@),
        actor_item_trans_matches(t, items0[i]),
        cur.trans_for(t.event_name@) == prev.trans_for(t.event_name@).push(t),
        forall|m: Seq<char>| m != t.event_name@ ==> cur.trans_for(m) == prev.trans_for(m),
        forall|nm: Seq<char>| #![trigger prev.trans_for(nm)]
            {
                let idxs = actor_trans_idxs(items0, i, nm);
                let ts = prev.trans_for(nm);
                ts.len() == idxs.len() && (forall|q: int|
                    0 <= q < idxs.len() ==> actor_item_trans_matches(
                        #[trigger] ts[q],
                        items0[idxs[q]],
                    ))
            },
    ensures
        forall|nm: Seq<char>| #![trigger cur.trans_for(nm)]
            {
                let idxs = actor_trans_idxs(items0, i + 1, nm);
                let ts = cur.trans_for(nm);
                ts.len() == idxs.len() && (forall|q: int|
                    0 <= q < idxs.len() ==> actor_item_trans_matches(
                        #[trigger] ts[q],
                        items0[idxs[q]],
                    ))
            },
{
    assert forall|nm: Seq<char>| #![trigger cur.trans_for(nm)]
        {
            let idxs = actor_trans_idxs(items0, i + 1, nm);
            let ts = cur.trans_for(nm);
            ts.len() == idxs.len() && (forall|q: int|
                0 <= q < idxs.len() ==> actor_item_trans_matches(#[trigger] ts[q], items0[idxs[q]]))
        } by {
        let idxs = actor_trans_idxs(items0, i + 1, nm);
        let ts = cur.trans_for(nm);
        let idxs_prev = actor_trans_idxs(items0, i, nm);
        let ts_prev = prev.trans_for(nm);
        if nm == t.event_name@ {
            assert(idxs == idxs_prev.push(i));
            assert(ts == ts_prev.push(t));
            assert forall|q: int| 0 <= q < idxs.len() implies actor_item_trans_matches(
                #[trigger] ts[q],
                items0[idxs[q]],
            ) by {
                if q < idxs_prev.len() {
                    assert(ts[q] == ts_prev[q]);
                    assert(idxs[q] == idxs_prev[q]);
                } else {
                    assert(ts[q] == t);
                    assert(idxs[q] == i);
                }
            }
        } else {
            assert(idxs == idxs_prev);
            assert(ts == ts_prev);
        }
    }
}

/// Evaluates a whole program into an interpretation unit: events and
/// functions are registered in declaration order, and each actor is built
/// in turn, identifiers running densely across them.
pub fn eval_program(name: String, program: Program, ids: &mut IdGen) -> (r: Result<
    InterpretationUnit,
    EvalError,
>)
    requires
        old(ids).next_id + prog_ids(program@, program@.len() as int) <= u32::MAX,
    ensures
        prog_ok(program@, program@.len() as int) ==> (r matches Ok(unit) && unit_matches(
            unit,
            name,
            program@,
            old(ids).next_id as int,
        ) && final(ids).next_id == old(ids).next_id + prog_ids(program@, program@.len() as int)),
        !prog_ok(program@, program@.len() as int) ==> (r matches Err(e) && exists|k: int|
            0 <= k < program@.len() && top_item_err_witness(#[trigger] program@[k], e)),
        old(ids).next_id <= final(ids).next_id,
{
    let mut items = program;
    let ghost items0 = items@;
    let ghost n_total = items0.len() as int;
    let ghost start = ids.next_id as int;
    proof {
        lemma_prog_ids_nonneg(items0, n_total);
        vstd::std_specs::vec::axiom_spec_len(&items);
    }
    let mut unit = InterpretationUnit::new(name);
    let mut i: usize = 0;
    while items.len() > 0
        invariant
            items0 == program@,
            start == old(ids).next_id as int,
            items0.skip(i as int) == items@,
            0 <= i as int <= n_total,
            n_total == items0.len(),
            n_total <= usize::MAX,
            prog_ok(items0, i as int),
            unit.name == name,
            unit.events@ == spec_events_of(items0, i as int),
            unit.funcs@ == spec_funcs_of(items0, i as int),
            unit.diagnostics@ == prog_diag_seq(items0, i as int),
            ({
                let idxs = actor_decl_idxs(items0, i as int);
                unit.actors@.len() == idxs.len() && (forall|q: int|
                    0 <= q < idxs.len() ==> actor_matches(
                        #[trigger] unit.actors@[q],
                        items0[idxs[q]]->actor_name,
                        items0[idxs[q]]->content@,
                        start + prog_ids(items0, idxs[q]),
                    ))
            }),
            ids.next_id as int == start + prog_ids(items0, i as int),
            start + prog_ids(items0, n_total) <= u32::MAX,
        decreases items@.len(),
    {
        proof {
            assert((i as int) < n_total);
        }
        let item = items.remove(0);
        proof {
            assert(items0.skip(i as int).drop_first() =~= items0.skip(i as int + 1));
            assert(item == items0[i as int]);
            lemma_prog_ids_mono(items0, i as int, n_total);
        }
        match item {
            TopLevelExpr::Event { event_name, params } => {
                unit.events.push(EventSignature::new(event_name, params));
            },
            TopLevelExpr::Func { func_name, params, ret_type, body } => {
                unit.funcs.push(FuncSignature::new(func_name, params, ret_type, body));
            },
            TopLevelExpr::Actor { actor_name, content } => {
                proof {
                    assert(prog_ids(items0, i as int + 1) == prog_ids(items0, i as int) + 1
                        + actor_items_ids(content@, content@.len() as int));
                    lemma_prog_ids_mono(items0, i as int + 1, n_total);
                }
                let ghost actors_prev = unit.actors@;
                match eval_actor(actor_name, content, ids, &mut unit.diagnostics) {
                    Ok(a) => {
                        unit.actors.push(a);
                        proof {
                            let idxs_new = actor_decl_idxs(items0, i as int + 1);
                            let idxs_prev = actor_decl_idxs(items0, i as int);
                            assert(idxs_new == idxs_prev.push(i as int));
                            assert forall|q: int| 0 <= q < idxs_new.len() implies actor_matches(
                                #[trigger] unit.actors@[q],
                                items0[idxs_new[q]]->actor_name,
                                items0[idxs_new[q]]->content@,
                                start + prog_ids(items0, idxs_new[q]),
                            ) by {
                                if q < idxs_prev.len() {
                                    assert(unit.actors@[q] == actors_prev[q]);
                                    assert(idxs_new[q] == idxs_prev[q]);
                                } else {
                                    assert(idxs_new[q] == i as int);
                                    assert(unit.actors@[q] == unit.actors@.last());
                                }
                            }
                        }
                    },
                    Err(e) => {
                        proof {
                            let j = choose|j: int|
                                0 <= j < items0[i as int]->content@.len()
                                    && actor_item_err_witness(
                                    items0[i as int]->actor_name@,
                                    #[trigger] items0[i as int]->content@[j],
                                    e,
                                );
                            lemma_actor_witness_not_ok(
                                items0[i as int]->actor_name@,
                                items0[i as int]->content@[j],
                                e,
                            );
                            assert(top_item_err_witness(items0[i as int], e));
                            assert(!top_item_ok(items0[i as int]));
                            assert(!prog_ok(items0, n_total));
                        }
                        return Err(e);
                    },
                }
            },
        }
        i = i + 1;
    }
    proof {
        assert(i as int == n_total);
    }
    Ok(unit)
}

} // verus!
