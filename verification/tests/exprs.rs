//! Runtime expression semantics: checked arithmetic, equality across
//! kinds, function bodies, and the edges where dispatch gets stuck.

use proteus::ast::{ActorExpr, ControlFlowExpr, StateMachineExpr, TopLevelExpr, ValueExpr, VarType};
use proteus::engine::{activate_actor, send_event, step_actor, EvalEngine};
use proteus::runtime::{EventInstance, EventSignature};
use proteus::value::Value;

const FUEL: u32 = 64;

fn call(name: &str, args: Vec<ValueExpr>) -> ValueExpr {
    ValueExpr::FuncCallExpr { func_name: name.to_string(), func_args: args }
}

fn ident(name: &str) -> ValueExpr {
    ValueExpr::Ident(name.to_string())
}

fn unit_event(name: &str) -> EventInstance {
    EventInstance { signature: EventSignature::new(name.to_string(), vec![]), params: vec![] }
}

/// A machine whose single transition carries the given guard, crossing
/// from `P` to `Q` when it holds.
fn guard_machine(guard: ValueExpr) -> Vec<TopLevelExpr> {
    vec![
        TopLevelExpr::Event { event_name: "Go".to_string(), params: vec![] },
        TopLevelExpr::Actor {
            actor_name: "A".to_string(),
            content: vec![
                ActorExpr::VarDecl {
                    var_name: "n".to_string(),
                    var_type: VarType::IntType,
                    initial: Some(ValueExpr::Int(6)),
                },
                ActorExpr::VarDecl {
                    var_name: "s".to_string(),
                    var_type: VarType::StringType,
                    initial: Some(ValueExpr::Str("abc".to_string())),
                },
                ActorExpr::StateMachine(vec![
                    StateMachineExpr::StateDecl {
                        state_name: "P".to_string(),
                        content: vec![StateMachineExpr::TransitionDecl {
                            event: call("Go", vec![]),
                            conditions: vec![guard],
                            target: "Q".to_string(),
                            body: vec![],
                        }],
                    },
                    StateMachineExpr::StateDecl { state_name: "Q".to_string(), content: vec![] },
                    StateMachineExpr::InitialStateDecl("P".to_string()),
                ]),
            ],
        },
    ]
}

fn runs_to_q(guard: ValueExpr) -> bool {
    let mut engine = EvalEngine::new();
    engine.load_program("g".to_string(), guard_machine(guard)).expect("loads");
    let unit = &mut engine.units[0];
    let a = "A".to_string();
    activate_actor(unit, &a, FUEL).expect("activates");
    assert!(send_event(unit, &a, unit_event("Go")));
    step_actor(unit, &a, FUEL).expect("dispatch never errs on a guard").expect("queued");
    let actor = unit.get_actor(&a).expect("exists");
    actor.statemachine.as_ref().expect("tree").at == "Q"
}

#[test]
fn integer_arithmetic_in_guards() {
    // 6 + 6 * 2 - 3 == 15, integer precedence encoded in the tree.
    let fifteen = ValueExpr::SubExpr {
        l: Box::new(ValueExpr::AddExpr {
            l: Box::new(ident("n")),
            r: Box::new(ValueExpr::MulExpr {
                l: Box::new(ident("n")),
                r: Box::new(ValueExpr::Int(2)),
            }),
        }),
        r: Box::new(ValueExpr::Int(3)),
    };
    let guard = ValueExpr::EqExpr { l: Box::new(fifteen), r: Box::new(ValueExpr::Int(15)) };
    assert!(runs_to_q(guard));
}

#[test]
fn integer_division_truncates() {
    // 6 / 4 == 1 for the engine's integers.
    let quotient = ValueExpr::DivExpr { l: Box::new(ident("n")), r: Box::new(ValueExpr::Int(4)) };
    let guard = ValueExpr::EqExpr { l: Box::new(quotient), r: Box::new(ValueExpr::Int(1)) };
    assert!(runs_to_q(guard));
}

#[test]
fn division_by_zero_disables_a_guard() {
    // A guard that cannot be evaluated does not enable its transition.
    let quotient = ValueExpr::DivExpr { l: Box::new(ident("n")), r: Box::new(ValueExpr::Int(0)) };
    let guard = ValueExpr::EqExpr { l: Box::new(quotient), r: Box::new(ValueExpr::Int(0)) };
    assert!(!runs_to_q(guard));
}

#[test]
fn overflowing_arithmetic_disables_a_guard() {
    let sum = ValueExpr::AddExpr {
        l: Box::new(ValueExpr::Int(i64::MAX)),
        r: Box::new(ValueExpr::Int(1)),
    };
    let guard = ValueExpr::GtExpr { l: Box::new(sum), r: Box::new(ValueExpr::Int(0)) };
    assert!(!runs_to_q(guard));
}

#[test]
fn string_equality_in_guards() {
    let guard = ValueExpr::EqExpr {
        l: Box::new(ident("s")),
        r: Box::new(ValueExpr::Str("abc".to_string())),
    };
    assert!(runs_to_q(guard));
    let guard2 = ValueExpr::NeqExpr {
        l: Box::new(ident("s")),
        r: Box::new(ValueExpr::Str("abd".to_string())),
    };
    assert!(runs_to_q(guard2));
}

#[test]
fn boolean_connectives_in_guards() {
    let t = || Box::new(ValueExpr::Bool(true));
    let f = || Box::new(ValueExpr::Bool(false));
    assert!(runs_to_q(ValueExpr::AndExpr { l: t(), r: t() }));
    assert!(!runs_to_q(ValueExpr::AndExpr { l: t(), r: f() }));
    assert!(runs_to_q(ValueExpr::OrExpr { l: f(), r: t() }));
    assert!(runs_to_q(ValueExpr::XorExpr { l: t(), r: f() }));
    assert!(!runs_to_q(ValueExpr::XorExpr { l: t(), r: t() }));
    assert!(runs_to_q(ValueExpr::NotExpr { v: f() }));
}

#[test]
fn mismatched_kinds_never_compare_equal() {
    // `6 == "abc"` evaluates to false rather than getting stuck.
    let guard = ValueExpr::NeqExpr { l: Box::new(ident("n")), r: Box::new(ident("s")) };
    assert!(runs_to_q(guard));
}

#[test]
fn function_bodies_run_for_their_sends() {
    // A declared function whose body sends; calling it as a statement
    // performs the send.
    let program = vec![
        TopLevelExpr::Event { event_name: "Go".to_string(), params: vec![] },
        TopLevelExpr::Event { event_name: "Ping".to_string(), params: vec![] },
        TopLevelExpr::Func {
            func_name: "notify".to_string(),
            params: vec![],
            ret_type: None,
            body: vec![ControlFlowExpr::SendStatement {
                target_state: "Sink".to_string(),
                event: call("Ping", vec![]),
            }],
        },
        TopLevelExpr::Actor {
            actor_name: "Src".to_string(),
            content: vec![ActorExpr::TransitionDecl {
                event: call("Go", vec![]),
                conditions: vec![],
                body: vec![ControlFlowExpr::FuncCallStatement(call("notify", vec![]))],
            }],
        },
        TopLevelExpr::Actor { actor_name: "Sink".to_string(), content: vec![] },
    ];
    let mut engine = EvalEngine::new();
    engine.load_program("f".to_string(), program).expect("loads");
    engine.compile().expect("well-typed");
    let unit = &mut engine.units[0];
    let src = "Src".to_string();
    assert!(send_event(unit, &src, unit_event("Go")));
    step_actor(unit, &src, FUEL).expect("dispatches").expect("queued");
    // The function body's send reached Sink.
    let sink = "Sink".to_string();
    let delivered = step_actor(unit, &sink, FUEL).expect("fine").expect("one event arrived");
    assert!(delivered.is_empty());
}

#[test]
fn local_declarations_shadow_outer_scopes() {
    // A body-local declaration of `n` shadows the actor's `n` for the
    // body, and assignment through the local leaves the actor's alone.
    let program = vec![
        TopLevelExpr::Event { event_name: "Go".to_string(), params: vec![] },
        TopLevelExpr::Actor {
            actor_name: "A".to_string(),
            content: vec![
                ActorExpr::VarDecl {
                    var_name: "n".to_string(),
                    var_type: VarType::IntType,
                    initial: Some(ValueExpr::Int(1)),
                },
                ActorExpr::VarDecl {
                    var_name: "seen".to_string(),
                    var_type: VarType::IntType,
                    initial: Some(ValueExpr::Int(0)),
                },
                ActorExpr::TransitionDecl {
                    event: call("Go", vec![]),
                    conditions: vec![],
                    body: vec![
                        ControlFlowExpr::VarDecl {
                            var_name: "n".to_string(),
                            var_type: VarType::IntType,
                            initial: Some(ValueExpr::Int(100)),
                        },
                        ControlFlowExpr::AssignStatement {
                            var_name: "seen".to_string(),
                            val_expr: ident("n"),
                        },
                    ],
                },
            ],
        },
    ];
    let mut engine = EvalEngine::new();
    engine.load_program("s".to_string(), program).expect("loads");
    engine.compile().expect("well-typed");
    let unit = &mut engine.units[0];
    let a = "A".to_string();
    assert!(send_event(unit, &a, unit_event("Go")));
    step_actor(unit, &a, FUEL).expect("dispatches").expect("queued");
    let actor = unit.get_actor(&a).expect("exists");
    match actor.get_var(&"seen".to_string()) {
        Some((_, Value::Int(v))) => assert_eq!(*v, 100),
        other => panic!("the local should have shadowed, got {:?}", other),
    }
    match actor.get_var(&"n".to_string()) {
        Some((_, Value::Int(v))) => assert_eq!(*v, 1),
        other => panic!("the actor's own binding should be untouched, got {:?}", other),
    }
}

#[test]
fn assignment_to_an_unbound_name_gets_stuck() {
    let program = vec![
        TopLevelExpr::Event { event_name: "Go".to_string(), params: vec![] },
        TopLevelExpr::Actor {
            actor_name: "A".to_string(),
            content: vec![ActorExpr::TransitionDecl {
                event: call("Go", vec![]),
                conditions: vec![],
                body: vec![ControlFlowExpr::AssignStatement {
                    var_name: "ghostly".to_string(),
                    val_expr: ValueExpr::Int(1),
                }],
            }],
        },
    ];
    let mut engine = EvalEngine::new();
    engine.load_program("s".to_string(), program).expect("loads");
    let unit = &mut engine.units[0];
    let a = "A".to_string();
    assert!(send_event(unit, &a, unit_event("Go")));
    assert!(step_actor(unit, &a, FUEL).is_err());
}
