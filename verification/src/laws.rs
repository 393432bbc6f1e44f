//! The laws the library states about itself, proved once and for all:
//! evaluation is deterministic, identifiers along any active path are met
//! in strictly increasing order (so activation enters each state exactly
//! once, outer to inner, and exits mirror entries), transition selection
//! follows declaration order, and a mailbox hands events out in the order
//! one producer put them in.

use vstd::prelude::*;

use crate::dispatch::active_ids;
use crate::dispatch::entries_of;
use crate::dispatch::exits_of;
use crate::dispatch::spec_enabled;
use crate::dispatch::spec_select;
use crate::dispatch::StateAction;
use crate::eval::actor_matches;
use crate::eval::lemma_sm_ids_nonneg;
use crate::eval::sm_items_ids;
use crate::eval::state_matches;
use crate::eval::unit_matches;
use crate::interp::ScopeModel;
use crate::lookup::lookup_keyed;
use crate::lookup::Keyed;
use crate::runtime::EventInstance;
use crate::runtime::State;
use crate::runtime::Transition;
use crate::runtime::TransitionTable;
use crate::ast::StateMachineExpr;
use crate::ast::TopLevelExpr;

verus! {

// ---------------------------------------------------------------------
// Determinism of evaluation.
// ---------------------------------------------------------------------

/// Observational equality of two transitions: everything the dispatch
/// engine and the type checker read from them agrees.
pub open spec fn trans_obs_eq(t1: Transition, t2: Transition) -> bool {
    &&& t1.event_name@ == t2.event_name@
    &&& t1.bound_vars@ == t2.bound_vars@
    &&& t1.conditions@ == t2.conditions@
    &&& t1.target@ == t2.target@
    &&& t1.body@ == t2.body@
}

/// Observational equality of two transition tables.
pub open spec fn table_obs_eq(a: TransitionTable, b: TransitionTable) -> bool {
    forall|n: Seq<char>|
        {
            let ts1 = (#[trigger] a.trans_for(n));
            let ts2 = b.trans_for(n);
            ts1.len() == ts2.len() && (forall|q: int|
                0 <= q < ts1.len() ==> trans_obs_eq(#[trigger] ts1[q], ts2[q]))
        }
}

/// Observational equality of two states: identical identifiers, names,
/// markers, variable resolution, transition tables, and children,
/// recursively — identical structure and identical relative identifier
/// ordering.
pub open spec fn state_obs_eq(s1: State, s2: State) -> bool
    decreases s1,
{
    &&& s1.id == s2.id
    &&& s1.name@ == s2.name@
    &&& s1.at@ == s2.at@
    &&& forall|n: Seq<char>| #![trigger s1.env.resolves(n)]
        s1.env.resolves(n) == s2.env.resolves(n)
    &&& table_obs_eq(s1.transitions, s2.transitions)
    &&& s1.subs@.len() == s2.subs@.len()
    &&& forall|q: int| 0 <= q < s1.subs@.len() ==> state_obs_eq(#[trigger] s1.subs@[q], s2.subs@[q])
}

/// Two states built from one body at one starting identifier are
/// observationally equal: evaluating the same tree twice yields state
/// machines with identical structure and identical identifiers.
pub proof fn lemma_eval_state_deterministic(
    s1: State,
    s2: State,
    name: Seq<char>,
    items: Seq<StateMachineExpr>,
    start: int,
)
    requires
        state_matches(s1, name, items, start),
        state_matches(s2, name, items, start),
    ensures
        state_obs_eq(s1, s2),
    decreases s1,
{
    let len = items.len() as int;
    assert forall|n: Seq<char>|
        {
            let ts1 = (#[trigger] s1.transitions.trans_for(n));
            let ts2 = s2.transitions.trans_for(n);
            ts1.len() == ts2.len() && (forall|q: int|
                0 <= q < ts1.len() ==> trans_obs_eq(#[trigger] ts1[q], ts2[q]))
        } by {
        let ts1 = s1.transitions.trans_for(n);
        let ts2 = s2.transitions.trans_for(n);
        let idxs = crate::eval::sm_trans_idxs(items, len, n);
        assert(ts1.len() == idxs.len());
        assert(ts2.len() == idxs.len());
        assert forall|q: int| 0 <= q < ts1.len() implies trans_obs_eq(
            #[trigger] ts1[q],
            ts2[q],
        ) by {
            assert(crate::eval::sm_item_trans_matches(ts1[q], items[idxs[q]]));
            assert(crate::eval::sm_item_trans_matches(ts2[q], items[idxs[q]]));
            lemma_matched_trans_obs_eq_sm(ts1[q], ts2[q], items[idxs[q]]);
        }
    }
    let kids = crate::eval::sm_child_idxs(items, len);
    assert forall|q: int| 0 <= q < s1.subs@.len() implies state_obs_eq(
        #[trigger] s1.subs@[q],
        s2.subs@[q],
    ) by {
        lemma_eval_state_deterministic(
            s1.subs@[q],
            s2.subs@[q],
            items[kids[q]]->state_name@,
            items[kids[q]]->content@,
            start + 1 + sm_items_ids(items, kids[q]),
        );
    }
}

/// Two transitions matching one state-machine declaration are
/// observationally equal.
proof fn lemma_matched_trans_obs_eq_sm(t1: Transition, t2: Transition, item: StateMachineExpr)
    requires
        crate::eval::sm_item_trans_matches(t1, item),
        crate::eval::sm_item_trans_matches(t2, item),
    ensures
        trans_obs_eq(t1, t2),
{
    match item {
        StateMachineExpr::TransitionDecl { event, conditions, target, body } => {
            assert(crate::runtime::trans_matches_decl(t1, event, conditions, target@, body));
            assert(crate::runtime::trans_matches_decl(t2, event, conditions, target@, body));
            assert(t1.target@ == target@);
            assert(t2.target@ == target@);
            assert(t1.bound_vars@ =~= t2.bound_vars@);
        },
        StateMachineExpr::EntryDecl(body) => {
            assert(t1.bound_vars@ =~= t2.bound_vars@);
            assert(t1.conditions@ =~= t2.conditions@);
            assert(t1.target@ =~= t2.target@);
        },
        StateMachineExpr::ExitDecl(body) => {
            assert(t1.bound_vars@ =~= t2.bound_vars@);
            assert(t1.conditions@ =~= t2.conditions@);
            assert(t1.target@ =~= t2.target@);
        },
        _ => {},
    }
}

/// Two transitions matching one actor declaration are observationally
/// equal.
proof fn lemma_matched_trans_obs_eq_actor(t1: Transition, t2: Transition, item: crate::ast::ActorExpr)
    requires
        crate::eval::actor_item_trans_matches(t1, item),
        crate::eval::actor_item_trans_matches(t2, item),
    ensures
        trans_obs_eq(t1, t2),
{
    match item {
        crate::ast::ActorExpr::TransitionDecl { event, conditions, body } => {
            assert(crate::runtime::trans_matches_decl(t1, event, conditions, Seq::empty(), body));
            assert(crate::runtime::trans_matches_decl(t2, event, conditions, Seq::empty(), body));
            assert(t1.target@ == Seq::<char>::empty());
            assert(t2.target@ == Seq::<char>::empty());
            assert(t1.bound_vars@ =~= t2.bound_vars@);
        },
        crate::ast::ActorExpr::EntryDecl(body) => {
            assert(t1.bound_vars@ =~= t2.bound_vars@);
            assert(t1.conditions@ =~= t2.conditions@);
            assert(t1.target@ =~= t2.target@);
        },
        crate::ast::ActorExpr::ExitDecl(body) => {
            assert(t1.bound_vars@ =~= t2.bound_vars@);
            assert(t1.conditions@ =~= t2.conditions@);
            assert(t1.target@ =~= t2.target@);
        },
        _ => {},
    }
}

/// Two units built from one program at one starting identifier observe
/// equal: the event, function and diagnostic lists are identical, and the
/// actors agree pairwise on identifier, name, variable resolution,
/// transition tables, and their whole state trees.  Evaluating the same
/// tree twice yields runtime models with identical structure and
/// identical identifier ordering.
pub proof fn lemma_eval_deterministic(
    u1: crate::runtime::InterpretationUnit,
    u2: crate::runtime::InterpretationUnit,
    n1: String,
    n2: String,
    prog: Seq<TopLevelExpr>,
    start: int,
)
    requires
        unit_matches(u1, n1, prog, start),
        unit_matches(u2, n2, prog, start),
    ensures
        u1.events@ == u2.events@,
        u1.funcs@ == u2.funcs@,
        u1.diagnostics@ == u2.diagnostics@,
        u1.actors@.len() == u2.actors@.len(),
        forall|q: int|
            0 <= q < u1.actors@.len() ==> {
                let a1 = (#[trigger] u1.actors@[q]);
                let a2 = u2.actors@[q];
                &&& a1.id == a2.id
                &&& a1.name@ == a2.name@
                &&& (forall|n: Seq<char>| #![trigger a1.env.resolves(n)]
                    a1.env.resolves(n) == a2.env.resolves(n))
                &&& table_obs_eq(a1.transitions, a2.transitions)
                &&& match (a1.statemachine, a2.statemachine) {
                    (Some(r1), Some(r2)) => state_obs_eq(r1, r2),
                    (None, None) => true,
                    _ => false,
                }
            },
{
    let len = prog.len() as int;
    let idxs = crate::eval::actor_decl_idxs(prog, len);
    assert forall|q: int|
        0 <= q < u1.actors@.len() implies {
        let a1 = (#[trigger] u1.actors@[q]);
        let a2 = u2.actors@[q];
        &&& a1.id == a2.id
        &&& a1.name@ == a2.name@
        &&& (forall|n: Seq<char>| #![trigger a1.env.resolves(n)]
            a1.env.resolves(n) == a2.env.resolves(n))
        &&& table_obs_eq(a1.transitions, a2.transitions)
        &&& match (a1.statemachine, a2.statemachine) {
            (Some(r1), Some(r2)) => state_obs_eq(r1, r2),
            (None, None) => true,
            _ => false,
        }
    } by {
        let a1 = u1.actors@[q];
        let a2 = u2.actors@[q];
        let items = prog[idxs[q]]->content@;
        let astart = start + crate::eval::prog_ids(prog, idxs[q]);
        assert(actor_matches(a1, prog[idxs[q]]->actor_name, items, astart));
        assert(actor_matches(a2, prog[idxs[q]]->actor_name, items, astart));
        let ilen = items.len() as int;
        assert forall|n: Seq<char>|
            {
                let ts1 = (#[trigger] a1.transitions.trans_for(n));
                let ts2 = a2.transitions.trans_for(n);
                ts1.len() == ts2.len() && (forall|p: int|
                    0 <= p < ts1.len() ==> trans_obs_eq(#[trigger] ts1[p], ts2[p]))
            } by {
            let ts1 = a1.transitions.trans_for(n);
            let ts2 = a2.transitions.trans_for(n);
            let tidxs = crate::eval::actor_trans_idxs(items, ilen, n);
            assert(ts1.len() == tidxs.len());
            assert(ts2.len() == tidxs.len());
            assert forall|p: int| 0 <= p < ts1.len() implies trans_obs_eq(
                #[trigger] ts1[p],
                ts2[p],
            ) by {
                lemma_matched_trans_obs_eq_actor(ts1[p], ts2[p], items[tidxs[p]]);
            }
        }
        match crate::eval::actor_sm_idx(items, ilen) {
            Some(k) => {
                lemma_eval_state_deterministic(
                    a1.statemachine.unwrap(),
                    a2.statemachine.unwrap(),
                    prog[idxs[q]]->actor_name@,
                    items[k]->StateMachine_0@,
                    astart + 1 + crate::eval::actor_items_ids(items, k),
                );
            },
            None => {},
        }
    }
}

// ---------------------------------------------------------------------
// Entry and exit ordering.
// ---------------------------------------------------------------------

/// Along an evaluated state tree's active path, identifiers strictly
/// increase: activation enters each state of the initial path exactly
/// once, outer to inner, and the exit actions of any chain mirror its
/// entry actions in reverse.
pub proof fn lemma_active_path_increasing(
    st: State,
    name: Seq<char>,
    items: Seq<StateMachineExpr>,
    start: int,
)
    requires
        state_matches(st, name, items, start),
    ensures
        active_ids(st).len() >= 1,
        active_ids(st)[0] == st.id,
        forall|i: int, j: int|
            0 <= i < j < active_ids(st).len() ==> active_ids(st)[i] < active_ids(st)[j],
        forall|i: int|
            0 <= i < active_ids(st).len() ==> start <= (#[trigger] active_ids(st)[i]) < start + 1
                + sm_items_ids(items, items.len() as int),
    decreases st,
{
    let len = items.len() as int;
    let path = active_ids(st);
    lemma_sm_ids_nonneg(items, len);
    if st.at@.len() > 0 && lookup_keyed(st.subs@, st.at@) is Some {
        crate::lookup::lemma_keyed_found(st.subs@, st.at@);
        let q = choose|q: int|
            0 <= q < st.subs@.len() && #[trigger] st.subs@[q] == lookup_keyed(
                st.subs@,
                st.at@,
            ).unwrap();
        let kids = crate::eval::sm_child_idxs(items, len);
        lemma_child_idxs_props(items, len);
        let child = st.subs@[q];
        let cstart = start + 1 + sm_items_ids(items, kids[q]);
        let citems = items[kids[q]]->content@;
        assert(state_matches(child, items[kids[q]]->state_name@, citems, cstart));
        lemma_active_path_increasing(child, items[kids[q]]->state_name@, citems, cstart);
        lemma_child_ids_window(items, len, kids[q]);
        crate::eval::lemma_sm_ids_mono(items, 0, kids[q]);
        assert(path == seq![st.id] + active_ids(child));
        assert forall|i: int, j: int| 0 <= i < j < path.len() implies path[i] < path[j] by {
            if i > 0 {
                assert(path[i] == active_ids(child)[i - 1]);
                assert(path[j] == active_ids(child)[j - 1]);
            } else {
                assert(path[j] == active_ids(child)[j - 1]);
                assert(active_ids(child)[j - 1] >= cstart);
            }
        }
        assert forall|i: int| 0 <= i < path.len() implies start <= (#[trigger] path[i]) < start + 1
            + sm_items_ids(items, len) by {
            if i > 0 {
                assert(path[i] == active_ids(child)[i - 1]);
            }
        }
    }
}

/// Child-declaration indices point at state declarations inside the
/// body.
proof fn lemma_child_idxs_props(items: Seq<StateMachineExpr>, upto: int)
    requires
        0 <= upto <= items.len(),
    ensures
        forall|p: int|
            0 <= p < crate::eval::sm_child_idxs(items, upto).len() ==> 0 <= (
            #[trigger] crate::eval::sm_child_idxs(items, upto)[p]) < upto && items[crate::eval::sm_child_idxs(
                items,
                upto,
            )[p]] is StateDecl,
    decreases upto,
{
    if upto > 0 {
        lemma_child_idxs_props(items, upto - 1);
    }
}

/// The identifier window of the child declared at item `k` sits inside
/// its parent's window.
proof fn lemma_child_ids_window(items: Seq<StateMachineExpr>, len: int, k: int)
    requires
        len == items.len(),
        0 <= k < len,
        items[k] is StateDecl,
    ensures
        sm_items_ids(items, k) + 1 + sm_items_ids(
            items[k]->content@,
            items[k]->content@.len() as int,
        ) <= sm_items_ids(items, len),
{
    assert(sm_items_ids(items, k + 1) == sm_items_ids(items, k) + 1 + sm_items_ids(
        items[k]->content@,
        items[k]->content@.len() as int,
    ));
    crate::eval::lemma_sm_ids_mono(items, k + 1, len);
}

/// Entry actions name the path states in order, exits name them in
/// reverse: on a path of distinct identifiers, each state is entered and
/// exited exactly once, entries outer to inner and exits inner to outer.
pub proof fn lemma_entries_mirror_exits(ids: Seq<u32>)
    ensures
        entries_of(ids).len() == ids.len(),
        exits_of(ids).len() == ids.len(),
        forall|i: int|
            0 <= i < ids.len() ==> (#[trigger] entries_of(ids)[i]) == (StateAction::Entered {
                id: ids[i],
            }),
        forall|i: int|
            0 <= i < ids.len() ==> (#[trigger] exits_of(ids)[i]) == (StateAction::Exited {
                id: ids[ids.len() - 1 - i],
            }),
{
}

// ---------------------------------------------------------------------
// Guard selection.
// ---------------------------------------------------------------------

/// Selection is strictly by declaration order, not by guard truth alone:
/// a disabled transition followed by an enabled one selects the second,
/// and the same pair declared in the other order selects the first.
pub proof fn lemma_guard_selection_order(
    t_disabled: Transition,
    t_enabled: Transition,
    ev: EventInstance,
    stack: Seq<ScopeModel>,
)
    requires
        !spec_enabled(t_disabled, ev, stack),
        spec_enabled(t_enabled, ev, stack),
    ensures
        spec_select(seq![t_disabled, t_enabled], ev, stack) == Some(1int),
        spec_select(seq![t_enabled, t_disabled], ev, stack) == Some(0int),
{
    let both = seq![t_disabled, t_enabled];
    assert(both.drop_first() =~= seq![t_enabled]);
    assert(spec_select(both.drop_first(), ev, stack) == Some(0int));
}

// ---------------------------------------------------------------------
// Mailbox order.
// ---------------------------------------------------------------------

/// For a single producer enqueuing `e1` and then `e2`, the consumer takes
/// `e1` strictly before `e2`: the two sit at consecutive positions after
/// whatever was already queued, and taking from the front preserves that
/// order.
pub proof fn lemma_mailbox_fifo(q0: Seq<EventInstance>, e1: EventInstance, e2: EventInstance)
    ensures
        q0.push(e1).push(e2)[q0.len() as int] == e1,
        q0.push(e1).push(e2)[q0.len() as int + 1] == e2,
        q0.len() == 0 ==> q0.push(e1).push(e2).first() == e1 && q0.push(e1).push(
            e2,
        ).drop_first().first() == e2 && q0.push(e1).push(e2).drop_first().drop_first() =~= q0,
{
    if q0.len() == 0 {
        assert(q0.push(e1).push(e2).drop_first() =~= seq![e2]);
    }
}

} // verus!
