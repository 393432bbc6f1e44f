//! The runtime model built by the evaluator and driven by the dispatch
//! engine: event and function signatures, transitions, hierarchical states,
//! actors and interpretation units.

use vstd::prelude::*;

use lockfree::queue::Queue;

use crate::ast::ControlFlowExpr;
use crate::ast::ValueExpr;
use crate::ast::VarType;
use crate::env::Env;
use crate::lookup::find_keyed;
use crate::lookup::lemma_keyed_push;
use crate::lookup::lemma_keyed_update;
use crate::lookup::lookup_keyed;
use crate::lookup::Keyed;
use crate::mailbox::mailbox_events;
use crate::mailbox::mailbox_pop;
use crate::mailbox::mailbox_push;
use crate::value::Value;
use vstd::pervasive::VecAdditionalExecFns;

verus! {

/// The typed shape of an event: its identity is its name.
#[derive(Debug)]
pub struct EventSignature {
    pub name: String,
    pub params: Vec<VarType>,
}

impl EventSignature {
    /// Builds a signature from a name and its ordered parameter types.
    pub fn new(name: String, params: Vec<VarType>) -> (r: EventSignature)
        ensures
            r.name == name,
            r.params == params,
    {
        EventSignature { name, params }
    }
}

impl Keyed for EventSignature {
    open spec fn key(self) -> Seq<char> {
        self.name@
    }

    fn key_matches(&self, name: &String) -> (r: bool) {
        self.name == *name
    }
}

/// One in-flight message: a signature together with concrete argument
/// values.
#[derive(Debug)]
pub struct EventInstance {
    pub signature: EventSignature,
    pub params: Vec<Value>,
}

/// The typed shape of a free function, together with its body.
#[derive(Debug)]
pub struct FuncSignature {
    pub func_name: String,
    pub params: Vec<(String, VarType)>,
    pub ret_type: Option<VarType>,
    pub body: Vec<ControlFlowExpr>,
}

impl FuncSignature {
    /// Builds a signature from a name, typed parameters, an optional return
    /// type and a body.
    pub fn new(
        func_name: String,
        params: Vec<(String, VarType)>,
        ret_type: Option<VarType>,
        body: Vec<ControlFlowExpr>,
    ) -> (r: FuncSignature)
        ensures
            r.func_name == func_name,
            r.params == params,
            r.ret_type == ret_type,
            r.body == body,
    {
        FuncSignature { func_name, params, ret_type, body }
    }
}

impl Keyed for FuncSignature {
    open spec fn key(self) -> Seq<char> {
        self.func_name@
    }

    fn key_matches(&self, name: &String) -> (r: bool) {
        self.func_name == *name
    }
}

/// A note the evaluator records while building the model.  Recorded, not
/// printed: callers query the unit for what was dropped.
#[derive(Debug)]
pub enum Diagnostic {
    /// A transition whose event pattern was not a call over bare
    /// identifiers was dropped; `scope` names the actor or state that
    /// declared it.
    MalformedTransition { scope: String },
}

/// One guarded transition: the event it reacts to, the names bound to the
/// event's arguments, the guard expressions in declaration order, the
/// target state name (empty for a self or flat transition) and the body.
#[derive(Debug)]
pub struct Transition {
    pub event_name: String,
    pub bound_vars: Vec<String>,
    pub conditions: Vec<ValueExpr>,
    pub target: String,
    pub body: Vec<ControlFlowExpr>,
}

/// Whether every argument of a call-shaped event pattern is a bare
/// identifier.
pub open spec fn all_ident_args(args: Seq<ValueExpr>) -> bool {
    forall|i: int| #![trigger args[i]] 0 <= i < args.len() ==> args[i] is Ident
}

/// Whether `event` is a well-formed transition pattern: a call over bare
/// identifiers.
pub open spec fn transition_pattern_ok(event: ValueExpr) -> bool {
    event is FuncCallExpr && all_ident_args(event->func_args@)
}

/// Whether `t` is exactly the transition built from the declaration pieces
/// `event`, `conditions`, `target` and `body`.
pub open spec fn transition_built_from(
    t: Transition,
    event: ValueExpr,
    conditions: Vec<ValueExpr>,
    target: String,
    body: Vec<ControlFlowExpr>,
) -> bool {
    &&& transition_pattern_ok(event)
    &&& t.event_name == event->func_name
    &&& t.bound_vars@.len() == event->func_args@.len()
    &&& forall|i: int|
        0 <= i < t.bound_vars@.len() ==> t.bound_vars@[i] == event->func_args@[i]->Ident_0
    &&& t.conditions == conditions
    &&& t.target == target
    &&& t.body == body
}

/// Like [`transition_built_from`], but pins the target only up to its
/// characters: the builders of actor-scoped transitions mint the empty
/// target themselves.
pub open spec fn trans_matches_decl(
    t: Transition,
    event: ValueExpr,
    conditions: Vec<ValueExpr>,
    target: Seq<char>,
    body: Vec<ControlFlowExpr>,
) -> bool {
    &&& transition_pattern_ok(event)
    &&& t.event_name == event->func_name
    &&& t.bound_vars@.len() == event->func_args@.len()
    &&& forall|i: int|
        0 <= i < t.bound_vars@.len() ==> t.bound_vars@[i] == event->func_args@[i]->Ident_0
    &&& t.conditions == conditions
    &&& t.target@ == target
    &&& t.body == body
}

/// Whether `t` is the synthetic transition carrying an entry or exit
/// action body under the reserved event name `key`.
pub open spec fn action_trans_matches(t: Transition, key: Seq<char>, body: Vec<ControlFlowExpr>) -> bool {
    &&& t.event_name@ == key
    &&& t.bound_vars@.len() == 0
    &&& t.conditions@.len() == 0
    &&& t.target@.len() == 0
    &&& t.body == body
}

impl Transition {
    /// Builds a transition from a declaration.
    ///
    /// The event pattern must be a call whose arguments are all bare
    /// identifiers; the identifiers become the names bound to the
    /// triggering event's arguments, so `bound_vars` has exactly one name
    /// per pattern argument.  Any other pattern shape yields `None` and the
    /// declaration is dropped by the caller.
    pub fn try_eval(
        func: ValueExpr,
        conditions: Vec<ValueExpr>,
        target: String,
        body: Vec<ControlFlowExpr>,
    ) -> (r: Option<Transition>)
        ensures
            transition_pattern_ok(func) ==> (r matches Some(t)
                && transition_built_from(t, func, conditions, target, body)),
            !transition_pattern_ok(func) ==> r is None,
    {
        match func {
            ValueExpr::FuncCallExpr { func_name, func_args } => {
                let n = func_args.len();
                let mut bound: Vec<String> = Vec::new();
                let mut i: usize = 0;
                while i < n
                    invariant
                        func == (ValueExpr::FuncCallExpr { func_name, func_args }),
                        n == func_args@.len(),
                        i <= n,
                        bound@.len() == i,
                        forall|j: int| #![trigger func_args@[j]]
                            0 <= j < i ==> func_args@[j] is Ident && bound@[j] == func_args@[j]->Ident_0,
                    decreases n - i,
                {
                    let ghost prev = bound@;
                    match &func_args[i] {
                        ValueExpr::Ident(id) => {
                            bound.push(id.clone());
                        },
                        _ => {
                            return None;
                        },
                    }
                    proof {
                        assert(bound@ == prev.push(bound@[i as int]));
                        assert forall|j: int| #![trigger func_args@[j]]
                            0 <= j < i + 1 implies func_args@[j] is Ident && bound@[j]
                            == func_args@[j]->Ident_0 by {
                            if j < i {
                                assert(bound@[j] == prev[j]);
                            }
                        }
                    }
                    i = i + 1;
                }
                Some(Transition { event_name: func_name, bound_vars: bound, conditions, target, body })
            },
            _ => None,
        }
    }
}

/// The transitions registered for one event name, in declaration order.
#[derive(Debug)]
pub struct TransitionGroup {
    pub event: String,
    pub items: Vec<Transition>,
}

impl Keyed for TransitionGroup {
    open spec fn key(self) -> Seq<char> {
        self.event@
    }

    fn key_matches(&self, name: &String) -> (r: bool) {
        self.event == *name
    }
}

/// A transition table: for each event name, the transitions registered
/// under it, in declaration order.  The reserved names carrying entry and
/// exit actions are ordinary keys of this table.
#[derive(Debug)]
pub struct TransitionTable {
    pub groups: Vec<TransitionGroup>,
}

impl TransitionTable {
    /// The transitions registered for `name`, in declaration order; empty
    /// when none are.
    pub open spec fn trans_for(self, name: Seq<char>) -> Seq<Transition> {
        match lookup_keyed(self.groups@, name) {
            Some(g) => g.items@,
            None => Seq::empty(),
        }
    }

    /// Creates an empty table.
    pub fn new() -> (r: TransitionTable)
        ensures
            forall|n: Seq<char>| r.trans_for(n) == Seq::<Transition>::empty(),
    {
        TransitionTable { groups: Vec::new() }
    }

    /// Hands back the transitions registered for `name`, in declaration
    /// order.
    pub fn get(&self, name: &String) -> (r: Option<&Vec<Transition>>)
        ensures
            match r {
                Some(v) => v@ == self.trans_for(name@),
                None => self.trans_for(name@) == Seq::<Transition>::empty(),
            },
    {
        match find_keyed(&self.groups, name) {
            Some(i) => Some(&self.groups[i].items),
            None => None,
        }
    }

    /// Registers `t` under its event name, after every transition already
    /// registered there; every other event name keeps its transitions.
    pub fn insert(&mut self, t: Transition)
        ensures
            final(self).trans_for(t.event_name@) == old(self).trans_for(t.event_name@).push(t),
            forall|m: Seq<char>|
                m != t.event_name@ ==> final(self).trans_for(m) == old(self).trans_for(m),
    {
        let found = find_keyed(&self.groups, &t.event_name);
        match found {
            Some(i) => {
                let ghost old_groups = self.groups@;
                let ghost g = self.groups@[i as int];
                self.groups[i].items.push(t);
                proof {
                    let e = self.groups@[i as int];
                    assert(self.groups@ == old_groups.update(i as int, e));
                    assert(e.items@ == g.items@.push(t));
                    lemma_keyed_update(old_groups, i as int, e);
                }
            },
            None => {
                let ghost old_groups = self.groups@;
                let event = t.event_name.clone();
                let mut items: Vec<Transition> = Vec::new();
                items.push(t);
                let g = TransitionGroup { event, items };
                proof {
                    crate::lookup::lemma_keyed_none(old_groups, t.event_name@);
                    lemma_keyed_push(old_groups, g);
                }
                self.groups.push(g);
            },
        }
    }
}

/// One node of an actor's hierarchical state tree.
///
/// A state owns its children exclusively; `at` names the initial or
/// currently active direct child, and is empty at a leaf.
#[derive(Debug)]
pub struct State {
    pub id: u32,
    pub name: String,
    pub at: String,
    pub env: Env,
    pub subs: Vec<State>,
    pub transitions: TransitionTable,
}

impl Keyed for State {
    open spec fn key(self) -> Seq<char> {
        self.name@
    }

    fn key_matches(&self, name: &String) -> (r: bool) {
        self.name == *name
    }
}

impl State {
    /// Binds a variable in this state's own environment.
    pub fn set_var(&mut self, name: String, typ: VarType, val: Value)
        ensures
            final(self).env.resolves(name@) == Some((typ, val)),
            forall|m: Seq<char>|
                m != name@ ==> final(self).env.resolves(m) == old(self).env.resolves(m),
            final(self).id == old(self).id,
            final(self).name == old(self).name,
            final(self).at == old(self).at,
            final(self).subs == old(self).subs,
            final(self).transitions == old(self).transitions,
    {
        self.env.set_var(name, typ, val);
    }

    /// Looks a variable up in this state's own environment.
    pub fn get_var(&self, name: &String) -> (r: Option<&(VarType, Value)>)
        ensures
            match r {
                Some(p) => self.env.resolves(name@) == Some(*p),
                None => self.env.resolves(name@) is None,
            },
    {
        self.env.get_var(name)
    }
}

/// An independently scheduled unit: a mailbox, local variables, and either
/// a hierarchical state machine or a flat transition table.
#[derive(Debug)]
pub struct Actor {
    pub id: u32,
    pub name: String,
    pub queue: Queue<EventInstance>,
    pub env: Env,
    pub statemachine: Option<State>,
    pub transitions: TransitionTable,
}

impl Keyed for Actor {
    open spec fn key(self) -> Seq<char> {
        self.name@
    }

    fn key_matches(&self, name: &String) -> (r: bool) {
        self.name == *name
    }
}

impl Actor {
    /// Takes the oldest event from this actor's mailbox, if any.
    pub fn poll(&mut self) -> (r: Option<EventInstance>)
        ensures
            match r {
                Some(e) => mailbox_events(old(self).queue).len() > 0
                    && e == mailbox_events(old(self).queue).first()
                    && mailbox_events(final(self).queue)
                        == mailbox_events(old(self).queue).drop_first(),
                None => mailbox_events(old(self).queue).len() == 0
                    && mailbox_events(final(self).queue) == mailbox_events(old(self).queue),
            },
            final(self).id == old(self).id,
            final(self).name == old(self).name,
            final(self).env == old(self).env,
            final(self).statemachine == old(self).statemachine,
            final(self).transitions == old(self).transitions,
    {
        mailbox_pop(&mut self.queue)
    }

    /// Appends an event at the back of this actor's mailbox.
    pub fn push(&mut self, event: EventInstance)
        ensures
            mailbox_events(final(self).queue) == mailbox_events(old(self).queue).push(event),
            final(self).id == old(self).id,
            final(self).name == old(self).name,
            final(self).env == old(self).env,
            final(self).statemachine == old(self).statemachine,
            final(self).transitions == old(self).transitions,
    {
        mailbox_push(&mut self.queue, event);
    }

    /// Binds a variable in this actor's own environment.
    pub fn set_var(&mut self, name: String, typ: VarType, val: Value)
        ensures
            final(self).env.resolves(name@) == Some((typ, val)),
            forall|m: Seq<char>|
                m != name@ ==> final(self).env.resolves(m) == old(self).env.resolves(m),
            final(self).id == old(self).id,
            final(self).name == old(self).name,
            final(self).queue == old(self).queue,
            final(self).statemachine == old(self).statemachine,
            final(self).transitions == old(self).transitions,
    {
        self.env.set_var(name, typ, val);
    }

    /// Looks a variable up in this actor's own environment.
    pub fn get_var(&self, name: &String) -> (r: Option<&(VarType, Value)>)
        ensures
            match r {
                Some(p) => self.env.resolves(name@) == Some(*p),
                None => self.env.resolves(name@) is None,
            },
    {
        self.env.get_var(name)
    }
}

/// One parsed-and-evaluated source unit: its namespace of actors, events
/// and functions, in declaration order, with the diagnostics recorded while
/// evaluating it.
#[derive(Debug)]
pub struct InterpretationUnit {
    pub name: String,
    pub actors: Vec<Actor>,
    pub events: Vec<EventSignature>,
    pub funcs: Vec<FuncSignature>,
    pub diagnostics: Vec<Diagnostic>,
}

impl InterpretationUnit {
    /// Creates an empty unit under the given name.
    pub fn new(name: String) -> (r: InterpretationUnit)
        ensures
            r.name == name,
            r.actors@ == Seq::<Actor>::empty(),
            r.events@ == Seq::<EventSignature>::empty(),
            r.funcs@ == Seq::<FuncSignature>::empty(),
            r.diagnostics@ == Seq::<Diagnostic>::empty(),
    {
        InterpretationUnit {
            name,
            actors: Vec::new(),
            events: Vec::new(),
            funcs: Vec::new(),
            diagnostics: Vec::new(),
        }
    }

    /// Looks an event signature up by name.
    pub fn get_event(&self, name: &String) -> (r: Option<&EventSignature>)
        ensures
            match r {
                Some(p) => lookup_keyed(self.events@, name@) == Some(*p),
                None => lookup_keyed(self.events@, name@) is None,
            },
    {
        match find_keyed(&self.events, name) {
            Some(i) => Some(&self.events[i]),
            None => None,
        }
    }

    /// Looks a function signature up by name.
    pub fn get_func(&self, name: &String) -> (r: Option<&FuncSignature>)
        ensures
            match r {
                Some(p) => lookup_keyed(self.funcs@, name@) == Some(*p),
                None => lookup_keyed(self.funcs@, name@) is None,
            },
    {
        match find_keyed(&self.funcs, name) {
            Some(i) => Some(&self.funcs[i]),
            None => None,
        }
    }

    /// Looks an actor up by name.
    pub fn get_actor(&self, name: &String) -> (r: Option<&Actor>)
        ensures
            match r {
                Some(p) => lookup_keyed(self.actors@, name@) == Some(*p),
                None => lookup_keyed(self.actors@, name@) is None,
            },
    {
        match find_keyed(&self.actors, name) {
            Some(i) => Some(&self.actors[i]),
            None => None,
        }
    }
}

} // verus!
