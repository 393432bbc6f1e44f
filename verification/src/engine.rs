//! The aggregation root: loads parsed units, compiles them, and drives
//! actors.
//!
//! The engine owns the identifier counter and injects it into the
//! evaluator at load time, so identifiers stay unique and deterministic
//! across units without any process-wide state.  Units are kept in load
//! order under their names; loading two units under one name keeps both.
//! Compilation runs the type checker over every loaded unit and fails
//! with the full list of errors when any unit has one.
//!
//! The textual grammar is an external collaborator: the engine takes a
//! syntax tree at its boundary and never retries or recovers from a parse
//! failure, which aborts the loading of that unit before it reaches the
//! engine.

use vstd::prelude::*;

use crate::ast::Program;
use crate::dispatch::activate;
use crate::dispatch::handle_event;
use crate::dispatch::StateAction;
use crate::eval::eval_program;
use crate::eval::prog_ids;
use crate::eval::prog_ok;
use crate::eval::unit_matches;
use crate::eval::EvalError;
use crate::eval::IdGen;
use crate::interp::RuntimeError;
use crate::lookup::find_keyed;
use crate::lookup::lookup_keyed;
use crate::lookup::Keyed;
use crate::mailbox::mailbox_events;
use crate::runtime::EventInstance;
use crate::runtime::InterpretationUnit;
use crate::typecheck::spec_check_unit;
use crate::typecheck::typecheck;
use crate::typecheck::TypeError;

verus! {

/// A failed compilation: the full list of type errors over all loaded
/// units, in load order.
#[derive(Debug)]
pub struct CompileError {
    pub errors: Vec<TypeError>,
}

/// The engine: loaded units in load order, and the identifier counter the
/// evaluator draws from.
#[derive(Debug)]
pub struct EvalEngine {
    pub units: Vec<InterpretationUnit>,
    pub ids: IdGen,
}

/// The errors of the first `upto` units, concatenated in load order.
pub open spec fn spec_engine_errs(units: Seq<InterpretationUnit>, upto: int) -> Seq<TypeError>
    decreases upto,
{
    if upto <= 0 || upto > units.len() {
        Seq::empty()
    } else {
        spec_engine_errs(units, upto - 1) + spec_check_unit(units[upto - 1])
    }
}

impl EvalEngine {
    /// Creates an engine with no units and a fresh identifier counter.
    pub fn new() -> (r: EvalEngine)
        ensures
            r.units@ == Seq::<InterpretationUnit>::empty(),
            r.ids.next_id == 0,
    {
        EvalEngine { units: Vec::new(), ids: IdGen::new() }
    }

    /// Evaluates a parsed program into a unit under the given name and
    /// keeps it.  A non-literal or missing initializer aborts the load and
    /// leaves the engine's units unchanged.
    pub fn load_program(&mut self, name: String, program: Program) -> (r: Result<(), EvalError>)
        requires
            old(self).ids.next_id + prog_ids(program@, program@.len() as int) <= u32::MAX,
        ensures
            prog_ok(program@, program@.len() as int) ==> (r is Ok && final(self).units@.len()
                == old(self).units@.len() + 1 && final(self).units@.last().name == name
                && unit_matches(
                final(self).units@.last(),
                name,
                program@,
                old(self).ids.next_id as int,
            ) && final(self).units@.drop_last() == old(self).units@),
            !prog_ok(program@, program@.len() as int) ==> (r is Err && final(self).units@ == old(
                self,
            ).units@),
    {
        match eval_program(name, program, &mut self.ids) {
            Ok(unit) => {
                let ghost prev = self.units@;
                self.units.push(unit);
                proof {
                    assert(self.units@.drop_last() =~= prev);
                }
                Ok(())
            },
            Err(e) => Err(e),
        }
    }

    /// Validates every loaded unit.  The full list of errors, in load
    /// order; empty when the engine is well-typed.
    fn typecheck(&self) -> (r: Vec<TypeError>)
        ensures
            r@ == spec_engine_errs(self.units@, self.units@.len() as int),
    {
        let mut out: Vec<TypeError> = Vec::new();
        let n = self.units.len();
        let mut i: usize = 0;
        while i < n
            invariant
                n == self.units@.len(),
                i <= n,
                out@ == spec_engine_errs(self.units@, i as int),
            decreases n - i,
        {
            let mut errs = typecheck(&self.units[i]);
            out.append(&mut errs);
            i = i + 1;
        }
        out
    }

    /// Runs type-checking over all loaded units: succeeds exactly when no
    /// unit has an error, and otherwise hands back the full list.
    pub fn compile(&mut self) -> (r: Result<(), CompileError>)
        ensures
            *final(self) == *old(self),
            r matches Err(e) ==> e.errors@ == spec_engine_errs(
                old(self).units@,
                old(self).units@.len() as int,
            ) && e.errors@.len() > 0,
            r is Ok <==> spec_engine_errs(old(self).units@, old(self).units@.len() as int).len()
                == 0,
    {
        let errors = self.typecheck();
        if errors.len() == 0 {
            Ok(())
        } else {
            Err(CompileError { errors })
        }
    }
}

/// Enqueues an event onto the named actor's mailbox; `false` when the
/// unit has no actor of that name, in which case nothing changes.
pub fn send_event(unit: &mut InterpretationUnit, target: &String, event: EventInstance) -> (ok:
    bool)
    ensures
        final(unit).name == old(unit).name,
        final(unit).events == old(unit).events,
        final(unit).funcs == old(unit).funcs,
        final(unit).diagnostics == old(unit).diagnostics,
        ok ==> exists|i: int|
            {
                &&& 0 <= i < old(unit).actors@.len()
                &&& (#[trigger] old(unit).actors@[i]).name@ == target@
                &&& (forall|j: int| 0 <= j < i ==> old(unit).actors@[j].name@ != target@)
                &&& final(unit).actors@.len() == old(unit).actors@.len()
                &&& mailbox_events(final(unit).actors@[i].queue) == mailbox_events(
                    old(unit).actors@[i].queue,
                ).push(event)
                &&& final(unit).actors@[i].id == old(unit).actors@[i].id
                &&& final(unit).actors@[i].name == old(unit).actors@[i].name
                &&& final(unit).actors@[i].env == old(unit).actors@[i].env
                &&& final(unit).actors@[i].statemachine == old(unit).actors@[i].statemachine
                &&& final(unit).actors@[i].transitions == old(unit).actors@[i].transitions
                &&& (forall|j: int|
                    0 <= j < old(unit).actors@.len() && j != i ==> final(unit).actors@[j] == old(
                        unit,
                    ).actors@[j])
            },
        !ok ==> final(unit).actors@ == old(unit).actors@ && lookup_keyed(
            old(unit).actors@,
            target@,
        ) is None,
{
    match find_keyed(&unit.actors, target) {
        Some(i) => {
            let ghost pre = unit.actors@;
            unit.actors[i].push(event);
            proof {
                assert(unit.actors@ =~= pre.update(i as int, unit.actors@[i as int]));
            }
            true
        },
        None => false,
    }
}

/// The names of a unit's actors, in order.
pub open spec fn actor_names(actors: Seq<crate::runtime::Actor>) -> Seq<Seq<char>> {
    Seq::new(actors.len(), |j: int| actors[j].name@)
}

/// The position of the first name equal to `target`.
pub open spec fn first_name_index(names: Seq<Seq<char>>, target: Seq<char>) -> Option<int>
    decreases names.len(),
{
    if names.len() == 0 {
        None
    } else if names[0] == target {
        Some(0)
    } else {
        match first_name_index(names.drop_first(), target) {
            Some(i) => Some(i + 1),
            None => None,
        }
    }
}

/// With no earlier match and one at `i`, the first match is `i`.
proof fn lemma_first_name_at(names: Seq<Seq<char>>, target: Seq<char>, i: int)
    requires
        0 <= i < names.len(),
        forall|j: int| 0 <= j < i ==> names[j] != target,
        names[i] == target,
    ensures
        first_name_index(names, target) == Some(i),
    decreases i,
{
    if i > 0 {
        lemma_first_name_at(names.drop_first(), target, i - 1);
    }
}

/// With no match at all, there is no first match.
proof fn lemma_first_name_none(names: Seq<Seq<char>>, target: Seq<char>)
    requires
        forall|j: int| 0 <= j < names.len() ==> names[j] != target,
    ensures
        first_name_index(names, target) is None,
    decreases names.len(),
{
    if names.len() > 0 {
        lemma_first_name_none(names.drop_first(), target);
    }
}

/// The events the first `upto` pending sends deliver to the actor at
/// position `j`: those whose target's first matching name sits at `j`,
/// in order.  A send whose target matches no name is dropped.
pub open spec fn delivered_to(
    sent: Seq<(String, EventInstance)>,
    names: Seq<Seq<char>>,
    j: int,
    upto: int,
) -> Seq<EventInstance>
    decreases upto,
{
    if upto <= 0 || upto > sent.len() {
        Seq::empty()
    } else {
        let p = delivered_to(sent, names, j, upto - 1);
        if first_name_index(names, sent[upto - 1].0@) == Some(j) {
            p.push(sent[upto - 1].1)
        } else {
            p
        }
    }
}

/// Activates the named actor: runs its initial entry chain, then
/// delivers the sends the activation asked for, each to the first actor
/// of its target's name, dropping one naming no actor.  `None` exactly
/// when the unit has no actor of that name; an error exactly when the
/// activation relation gets stuck.
pub fn activate_actor(
    unit: &mut InterpretationUnit,
    actor_name: &String,
    fuel: u32,
) -> (r: Result<Option<Vec<StateAction>>, RuntimeError>)
    ensures
        final(unit).name == old(unit).name,
        final(unit).events == old(unit).events,
        final(unit).funcs == old(unit).funcs,
        final(unit).diagnostics == old(unit).diagnostics,
        final(unit).actors@.len() == old(unit).actors@.len(),
        ({
            let names = actor_names(old(unit).actors@);
            match first_name_index(names, actor_name@) {
                None => (r matches Ok(o) && o is None) && final(unit).actors@ == old(
                    unit,
                ).actors@,
                Some(i) => {
                    let a0 = old(unit).actors@[i];
                    let outcome = crate::dispatch::spec_activate(
                        crate::dispatch::tree_model(a0.statemachine),
                        crate::interp::env_model(a0.env),
                        Seq::empty(),
                        old(unit).events@,
                        old(unit).funcs@,
                        fuel as nat,
                    );
                    match r {
                        Ok(Some(tr)) => outcome matches Some((tree2, env2, sends2)) && ({
                            let a1 = final(unit).actors@[i];
                            &&& crate::dispatch::tree_model(a1.statemachine) == tree2
                            &&& crate::interp::env_model(a1.env) == env2
                            &&& a1.id == a0.id
                            &&& a1.name == a0.name
                            &&& a1.transitions == a0.transitions
                            &&& (a0.statemachine matches Some(r0) ==> tr@ == crate::dispatch::entries_of(
                                crate::dispatch::active_ids(r0),
                            ))
                            &&& (a0.statemachine is None ==> tr@ == Seq::<StateAction>::empty())
                            &&& exists|sent: Seq<(String, EventInstance)>|
                                #![auto]
                                crate::interp::sends_model(sent) == sends2 && (forall|j: int|
                                    0 <= j < old(unit).actors@.len() ==> mailbox_events(
                                        final(unit).actors@[j].queue,
                                    ) == mailbox_events(old(unit).actors@[j].queue) + delivered_to(
                                        sent,
                                        names,
                                        j,
                                        sent.len() as int,
                                    ))
                            &&& (forall|j: int|
                                #![trigger final(unit).actors@[j]]
                                0 <= j < old(unit).actors@.len() && j != i ==> {
                                    let b0 = old(unit).actors@[j];
                                    let b1 = final(unit).actors@[j];
                                    b1.id == b0.id && b1.name == b0.name && b1.env == b0.env
                                        && b1.statemachine == b0.statemachine && b1.transitions
                                        == b0.transitions
                                })
                        }),
                        Ok(None) => false,
                        Err(_) => outcome is None,
                    }
                },
            }
        }),
{
    let mut sends: Vec<(String, EventInstance)> = Vec::new();
    proof {
        assert(crate::interp::sends_model(sends@) =~= Seq::<crate::interp::SendModel>::empty());
    }
    let ghost actors0 = unit.actors@;
    let ghost names0 = actor_names(actors0);
    let found = find_keyed(&unit.actors, actor_name);
    proof {
        match found {
            Some(i) => {
                assert forall|j: int| 0 <= j < i implies names0[j] != actor_name@ by {
                    assert(actors0[j].name@ != actor_name@);
                }
                lemma_first_name_at(names0, actor_name@, i as int);
            },
            None => {
                crate::lookup::lemma_keyed_none(actors0, actor_name@);
                assert forall|j: int| 0 <= j < names0.len() implies names0[j] != actor_name@ by {
                    assert(actors0[j].name@ != actor_name@);
                }
                lemma_first_name_none(names0, actor_name@);
            },
        }
    }
    match found {
        Some(i) => {
            let ghost pre = unit.actors@;
            let r = activate(&mut unit.actors[i], &unit.events, &unit.funcs, &mut sends, fuel);
            proof {
                assert(unit.actors@ == pre.update(i as int, unit.actors@[i as int]));
            }
            let ghost sent = sends@;
            let ghost mid_actors = unit.actors@;
            route_sends(unit, sends);
            proof {
                lemma_names_stable(actors0, mid_actors);
            }
            match r {
                Ok(tr) => Ok(Some(tr)),
                Err(e) => Err(e),
            }
        },
        None => Ok(None),
    }
}

/// Two actor tables whose entries bear the same names name alike.
proof fn lemma_names_stable(a: Seq<crate::runtime::Actor>, b: Seq<crate::runtime::Actor>)
    requires
        a.len() == b.len(),
        forall|j: int| 0 <= j < a.len() ==> (#[trigger] b[j]).name == a[j].name,
    ensures
        actor_names(b) == actor_names(a),
{
    assert(actor_names(b) =~= actor_names(a));
}

/// Takes the oldest event from the named actor's mailbox and processes it
/// to completion, then delivers the sends its bodies asked for, each to
/// the first actor of its target's name, dropping one naming no actor.
/// `None` exactly when the actor is missing or its mailbox is empty; an
/// error exactly when the dispatch relation gets stuck on the polled
/// event.
pub fn step_actor(
    unit: &mut InterpretationUnit,
    actor_name: &String,
    fuel: u32,
) -> (r: Result<Option<Vec<StateAction>>, RuntimeError>)
    ensures
        final(unit).name == old(unit).name,
        final(unit).events == old(unit).events,
        final(unit).funcs == old(unit).funcs,
        final(unit).diagnostics == old(unit).diagnostics,
        final(unit).actors@.len() == old(unit).actors@.len(),
        ({
            let names = actor_names(old(unit).actors@);
            match first_name_index(names, actor_name@) {
                None => (r matches Ok(o) && o is None) && final(unit).actors@ == old(
                    unit,
                ).actors@,
                Some(i) => {
                    let a0 = old(unit).actors@[i];
                    let q0 = mailbox_events(a0.queue);
                    if q0.len() == 0 {
                        &&& (r matches Ok(o) && o is None)
                        &&& (forall|j: int|
                            #![trigger final(unit).actors@[j]]
                            0 <= j < old(unit).actors@.len() && j != i ==> final(unit).actors@[j]
                                == old(unit).actors@[j])
                        &&& ({
                            let a1 = final(unit).actors@[i];
                            a1.id == a0.id && a1.name == a0.name && a1.env == a0.env
                                && a1.statemachine == a0.statemachine && a1.transitions
                                == a0.transitions && mailbox_events(a1.queue) == q0
                        })
                    } else {
                        let ev = q0.first();
                        let outcome = crate::dispatch::spec_handle(
                            crate::dispatch::tree_model(a0.statemachine),
                            a0.transitions,
                            crate::interp::env_model(a0.env),
                            ev,
                            Seq::empty(),
                            old(unit).events@,
                            old(unit).funcs@,
                            fuel as nat,
                        );
                        match r {
                            Ok(Some(tr)) => outcome matches Some((tree2, env2, sends2, trm))
                                && trm == tr@ && ({
                                let a1 = final(unit).actors@[i];
                                &&& crate::dispatch::tree_model(a1.statemachine) == tree2
                                &&& crate::interp::env_model(a1.env) == env2
                                &&& a1.id == a0.id
                                &&& a1.name == a0.name
                                &&& a1.transitions == a0.transitions
                                &&& exists|sent: Seq<(String, EventInstance)>|
                                    #![auto]
                                    crate::interp::sends_model(sent) == sends2 && (forall|j: int|
                                        0 <= j < old(unit).actors@.len() ==> mailbox_events(
                                            final(unit).actors@[j].queue,
                                        ) == (if j == i {
                                            q0.drop_first()
                                        } else {
                                            mailbox_events(old(unit).actors@[j].queue)
                                        }) + delivered_to(sent, names, j, sent.len() as int))
                                &&& (forall|j: int|
                                    #![trigger final(unit).actors@[j]]
                                    0 <= j < old(unit).actors@.len() && j != i ==> {
                                        let b0 = old(unit).actors@[j];
                                        let b1 = final(unit).actors@[j];
                                        b1.id == b0.id && b1.name == b0.name && b1.env == b0.env
                                            && b1.statemachine == b0.statemachine
                                            && b1.transitions == b0.transitions
                                    })
                            }),
                            Ok(None) => false,
                            Err(_) => outcome is None,
                        }
                    }
                },
            }
        }),
{
    let mut sends: Vec<(String, EventInstance)> = Vec::new();
    proof {
        assert(crate::interp::sends_model(sends@) =~= Seq::<crate::interp::SendModel>::empty());
    }
    let ghost actors0 = unit.actors@;
    let ghost names0 = actor_names(actors0);
    let found = find_keyed(&unit.actors, actor_name);
    proof {
        match found {
            Some(i) => {
                assert forall|j: int| 0 <= j < i implies names0[j] != actor_name@ by {
                    assert(actors0[j].name@ != actor_name@);
                }
                lemma_first_name_at(names0, actor_name@, i as int);
            },
            None => {
                crate::lookup::lemma_keyed_none(actors0, actor_name@);
                assert forall|j: int| 0 <= j < names0.len() implies names0[j] != actor_name@ by {
                    assert(actors0[j].name@ != actor_name@);
                }
                lemma_first_name_none(names0, actor_name@);
            },
        }
    }
    match found {
        Some(i) => {
            let ghost pre = unit.actors@;
            let polled = unit.actors[i].poll();
            proof {
                assert(unit.actors@ == pre.update(i as int, unit.actors@[i as int]));
            }
            match polled {
                Some(ev) => {
                    let ghost poll_actors = unit.actors@;
                    let r = handle_event(
                        &mut unit.actors[i],
                        &ev,
                        &unit.events,
                        &unit.funcs,
                        &mut sends,
                        fuel,
                    );
                    proof {
                        assert(unit.actors@ == poll_actors.update(
                            i as int,
                            unit.actors@[i as int],
                        ));
                    }
                    let ghost sent = sends@;
                    let ghost mid_actors = unit.actors@;
                    route_sends(unit, sends);
                    proof {
                        lemma_names_stable(actors0, mid_actors);
                    }
                    match r {
                        Ok(tr) => Ok(Some(tr)),
                        Err(e) => Err(e),
                    }
                },
                None => Ok(None),
            }
        },
        None => Ok(None),
    }
}

/// Delivers each pending send to its target's mailbox, in order; a send
/// naming no actor is dropped.  Delivery is asynchronous by design: it
/// never blocks and never reaches back into the sender's own processing.
/// Each mailbox ends exactly with what [`delivered_to`] says it was
/// handed, and nothing else of any actor changes.
fn route_sends(unit: &mut InterpretationUnit, sends: Vec<(String, EventInstance)>)
    ensures
        final(unit).name == old(unit).name,
        final(unit).events == old(unit).events,
        final(unit).funcs == old(unit).funcs,
        final(unit).diagnostics == old(unit).diagnostics,
        final(unit).actors@.len() == old(unit).actors@.len(),
        forall|j: int|
            #![trigger final(unit).actors@[j]]
            0 <= j < old(unit).actors@.len() ==> {
                let b0 = old(unit).actors@[j];
                let b1 = final(unit).actors@[j];
                &&& b1.id == b0.id
                &&& b1.name == b0.name
                &&& b1.env == b0.env
                &&& b1.statemachine == b0.statemachine
                &&& b1.transitions == b0.transitions
                &&& mailbox_events(b1.queue) == mailbox_events(b0.queue) + delivered_to(
                    sends@,
                    actor_names(old(unit).actors@),
                    j,
                    sends@.len() as int,
                )
            },
{
    let ghost sends0 = sends@;
    let ghost actors0 = unit.actors@;
    let ghost names0 = actor_names(actors0);
    let mut pending = sends;
    let n = pending.len();
    let mut i: usize = 0;
    proof {
        assert forall|j: int| 0 <= j < actors0.len() implies mailbox_events(
            unit.actors@[j].queue,
        ) =~= mailbox_events(actors0[j].queue) + delivered_to(sends0, names0, j, 0) by {}
    }
    while i < n
        invariant
            pending@.len() + i == n,
            i <= n,
            n == sends0.len(),
            pending@ == sends0.skip(i as int),
            unit.name == old(unit).name,
            unit.events == old(unit).events,
            unit.funcs == old(unit).funcs,
            unit.diagnostics == old(unit).diagnostics,
            unit.actors@.len() == actors0.len(),
            actors0 == old(unit).actors@,
            names0 == actor_names(actors0),
            forall|j: int|
                #![trigger unit.actors@[j]]
                0 <= j < actors0.len() ==> {
                    let b0 = actors0[j];
                    let b1 = unit.actors@[j];
                    &&& b1.id == b0.id
                    &&& b1.name == b0.name
                    &&& b1.env == b0.env
                    &&& b1.statemachine == b0.statemachine
                    &&& b1.transitions == b0.transitions
                    &&& mailbox_events(b1.queue) == mailbox_events(b0.queue) + delivered_to(
                        sends0,
                        names0,
                        j,
                        i as int,
                    )
                },
        decreases n - i,
    {
        proof {
            assert(sends0.skip(i as int).drop_first() =~= sends0.skip(i as int + 1));
            assert(pending@[0] == sends0[i as int]);
        }
        let (target, event) = pending.remove(0);
        let ghost cur = unit.actors@;
        let delivered = send_event(unit, &target, event);
        proof {
            lemma_names_stable(actors0, cur);
            if delivered {
                let k = choose|k: int|
                    {
                        &&& 0 <= k < cur.len()
                        &&& (#[trigger] cur[k]).name@ == target@
                        &&& (forall|j: int| 0 <= j < k ==> cur[j].name@ != target@)
                        &&& unit.actors@.len() == cur.len()
                        &&& mailbox_events(unit.actors@[k].queue) == mailbox_events(
                            cur[k].queue,
                        ).push(sends0[i as int].1)
                        &&& unit.actors@[k].id == cur[k].id
                        &&& unit.actors@[k].name == cur[k].name
                        &&& unit.actors@[k].env == cur[k].env
                        &&& unit.actors@[k].statemachine == cur[k].statemachine
                        &&& unit.actors@[k].transitions == cur[k].transitions
                        &&& (forall|j: int|
                            0 <= j < cur.len() && j != k ==> unit.actors@[j] == cur[j])
                    };
                assert forall|j: int| 0 <= j < names0.len() && j < k implies names0[j]
                    != target@ by {
                    assert(cur[j].name@ == names0[j]);
                }
                assert(names0[k] == cur[k].name@);
                lemma_first_name_at(names0, target@, k);
                assert forall|j: int|
                    0 <= j < actors0.len() implies mailbox_events(unit.actors@[j].queue)
                    == mailbox_events(actors0[j].queue) + delivered_to(
                    sends0,
                    names0,
                    j,
                    i as int + 1,
                ) by {
                    if j == k {
                        assert(mailbox_events(unit.actors@[j].queue) =~= mailbox_events(
                            actors0[j].queue,
                        ) + delivered_to(sends0, names0, j, i as int + 1));
                    } else {
                        assert(unit.actors@[j] == cur[j]);
                    }
                }
            } else {
                crate::lookup::lemma_keyed_none(cur, target@);
                assert forall|j: int| 0 <= j < names0.len() implies names0[j] != target@ by {
                    assert(cur[j].name@ == names0[j]);
                }
                lemma_first_name_none(names0, target@);
            }
        }
        i = i + 1;
    }
    proof {
        assert(sends0.skip(n as int).len() == 0);
    }
}

} // verus!
