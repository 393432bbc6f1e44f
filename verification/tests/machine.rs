//! The back half of the pipeline: activation, event dispatch, guard
//! selection, mailboxes, and a whole source-to-runtime scenario.

use proteus::ast::{ActorExpr, ControlFlowExpr, StateMachineExpr, TopLevelExpr, ValueExpr, VarType};
use proteus::dispatch::StateAction;
use proteus::engine::{activate_actor, send_event, step_actor, EvalEngine};
use proteus::eval::{eval_program, IdGen};
use proteus::runtime::{EventInstance, EventSignature, InterpretationUnit};
use proteus::value::Value;

const FUEL: u32 = 64;

fn call(name: &str, args: Vec<ValueExpr>) -> ValueExpr {
    ValueExpr::FuncCallExpr { func_name: name.to_string(), func_args: args }
}

fn ident(name: &str) -> ValueExpr {
    ValueExpr::Ident(name.to_string())
}

fn instance(name: &str, params: Vec<Value>) -> EventInstance {
    EventInstance { signature: EventSignature::new(name.to_string(), vec![]), params }
}

/// The two-state lights machine: `Off` and `On` under one root, toggled
/// by `PowerOn` and `PowerOff`.
fn lights_program() -> Vec<TopLevelExpr> {
    vec![
        TopLevelExpr::Event { event_name: "PowerOn".to_string(), params: vec![] },
        TopLevelExpr::Event { event_name: "PowerOff".to_string(), params: vec![] },
        TopLevelExpr::Actor {
            actor_name: "Lights".to_string(),
            content: vec![ActorExpr::StateMachine(vec![
                StateMachineExpr::StateDecl {
                    state_name: "Off".to_string(),
                    content: vec![StateMachineExpr::TransitionDecl {
                        event: call("PowerOn", vec![]),
                        conditions: vec![],
                        target: "On".to_string(),
                        body: vec![],
                    }],
                },
                StateMachineExpr::StateDecl {
                    state_name: "On".to_string(),
                    content: vec![StateMachineExpr::TransitionDecl {
                        event: call("PowerOff", vec![]),
                        conditions: vec![],
                        target: "Off".to_string(),
                        body: vec![],
                    }],
                },
                StateMachineExpr::InitialStateDecl("Off".to_string()),
            ])],
        },
    ]
}

fn active_leaf(unit: &InterpretationUnit, actor: &str) -> String {
    let a = unit.get_actor(&actor.to_string()).expect("actor exists");
    let mut st = a.statemachine.as_ref().expect("has a state machine");
    loop {
        if st.at.is_empty() {
            return st.name.clone();
        }
        match st.subs.iter().find(|c| c.name == st.at) {
            Some(child) => st = child,
            None => return st.name.clone(),
        }
    }
}

#[test]
fn lights_toggle_end_to_end() {
    let mut engine = EvalEngine::new();
    engine.load_program("lights".to_string(), lights_program()).expect("loads");
    engine.compile().expect("the lights program is well-typed");
    let unit = &mut engine.units[0];
    let lights = "Lights".to_string();
    activate_actor(unit, &lights, FUEL).expect("activates");
    assert_eq!(active_leaf(unit, "Lights"), "Off");

    assert!(send_event(unit, &lights, instance("PowerOn", vec![])));
    step_actor(unit, &lights, FUEL).expect("dispatches").expect("one event was queued");
    assert_eq!(active_leaf(unit, "Lights"), "On");

    assert!(send_event(unit, &lights, instance("PowerOff", vec![])));
    step_actor(unit, &lights, FUEL).expect("dispatches").expect("one event was queued");
    assert_eq!(active_leaf(unit, "Lights"), "Off");
}

#[test]
fn unhandled_event_is_discarded_silently() {
    let mut engine = EvalEngine::new();
    engine.load_program("lights".to_string(), lights_program()).expect("loads");
    let unit = &mut engine.units[0];
    let lights = "Lights".to_string();
    activate_actor(unit, &lights, FUEL).expect("activates");
    // `PowerOff` has no transition in `Off`: the event is discarded.
    assert!(send_event(unit, &lights, instance("PowerOff", vec![])));
    let trace = step_actor(unit, &lights, FUEL).expect("not an error").expect("was queued");
    assert!(trace.is_empty());
    assert_eq!(active_leaf(unit, "Lights"), "Off");
    // The mailbox is drained: a further step finds nothing.
    assert!(step_actor(unit, &lights, FUEL).expect("fine").is_none());
}

/// A three-level machine to observe entry and exit ordering.
fn nested_program() -> Vec<TopLevelExpr> {
    vec![
        TopLevelExpr::Event { event_name: "Cross".to_string(), params: vec![] },
        TopLevelExpr::Actor {
            actor_name: "M".to_string(),
            content: vec![ActorExpr::StateMachine(vec![
                StateMachineExpr::StateDecl {
                    state_name: "A".to_string(),
                    content: vec![
                        StateMachineExpr::StateDecl {
                            state_name: "A1".to_string(),
                            content: vec![StateMachineExpr::TransitionDecl {
                                event: call("Cross", vec![]),
                                conditions: vec![],
                                target: "A2".to_string(),
                                body: vec![],
                            }],
                        },
                        StateMachineExpr::StateDecl {
                            state_name: "A2".to_string(),
                            content: vec![],
                        },
                        StateMachineExpr::InitialStateDecl("A1".to_string()),
                    ],
                },
                StateMachineExpr::InitialStateDecl("A".to_string()),
            ])],
        },
    ]
}

#[test]
fn activation_enters_outer_to_inner_exactly_once() {
    let mut engine = EvalEngine::new();
    engine.load_program("m".to_string(), nested_program()).expect("loads");
    engine.compile().expect("well-typed");
    let unit = &mut engine.units[0];
    let m = "M".to_string();
    let trace = activate_actor(unit, &m, FUEL).expect("activates").expect("actor exists");
    // Actor M is id 0; the path root, A, A1 holds ids 1, 2, 3.
    assert_eq!(
        trace,
        vec![
            StateAction::Entered { id: 1 },
            StateAction::Entered { id: 2 },
            StateAction::Entered { id: 3 },
        ]
    );
}

#[test]
fn crossing_exits_inner_to_outer_then_enters_target() {
    let mut engine = EvalEngine::new();
    engine.load_program("m".to_string(), nested_program()).expect("loads");
    engine.compile().expect("well-typed");
    let unit = &mut engine.units[0];
    let m = "M".to_string();
    activate_actor(unit, &m, FUEL).expect("activates");
    assert!(send_event(unit, &m, instance("Cross", vec![])));
    let trace = step_actor(unit, &m, FUEL).expect("dispatches").expect("queued");
    // A1 (id 3) is exited; its sibling A2 (id 4) is entered; the common
    // ancestor A (id 2) is neither exited nor entered.
    assert_eq!(
        trace,
        vec![StateAction::Exited { id: 3 }, StateAction::Entered { id: 4 }]
    );
    assert_eq!(active_leaf(unit, "M"), "A2");
}

/// One event, two guarded transitions in a given order.
fn guarded_program(first: bool, second: bool) -> Vec<TopLevelExpr> {
    vec![
        TopLevelExpr::Event { event_name: "Pick".to_string(), params: vec![] },
        TopLevelExpr::Actor {
            actor_name: "G".to_string(),
            content: vec![ActorExpr::StateMachine(vec![
                StateMachineExpr::StateDecl {
                    state_name: "Start".to_string(),
                    content: vec![
                        StateMachineExpr::TransitionDecl {
                            event: call("Pick", vec![]),
                            conditions: vec![ValueExpr::Bool(first)],
                            target: "First".to_string(),
                            body: vec![],
                        },
                        StateMachineExpr::TransitionDecl {
                            event: call("Pick", vec![]),
                            conditions: vec![ValueExpr::Bool(second)],
                            target: "Second".to_string(),
                            body: vec![],
                        },
                    ],
                },
                StateMachineExpr::StateDecl { state_name: "First".to_string(), content: vec![] },
                StateMachineExpr::StateDecl { state_name: "Second".to_string(), content: vec![] },
                StateMachineExpr::InitialStateDecl("Start".to_string()),
            ])],
        },
    ]
}

fn pick_target(first: bool, second: bool) -> String {
    let mut engine = EvalEngine::new();
    engine.load_program("g".to_string(), guarded_program(first, second)).expect("loads");
    engine.compile().expect("well-typed");
    let unit = &mut engine.units[0];
    let g = "G".to_string();
    activate_actor(unit, &g, FUEL).expect("activates");
    assert!(send_event(unit, &g, instance("Pick", vec![])));
    step_actor(unit, &g, FUEL).expect("dispatches").expect("queued");
    active_leaf(unit, "G")
}

#[test]
fn selection_is_by_declaration_order_not_guard_truth() {
    // Guards [false] then [true]: the second transition is selected.
    assert_eq!(pick_target(false, true), "Second");
    // Declared in the other order, the first true guard wins.
    assert_eq!(pick_target(true, false), "First");
    // Both true: declaration order breaks the tie.
    assert_eq!(pick_target(true, true), "First");
    // Neither: the event is discarded and the machine stays put.
    assert_eq!(pick_target(false, false), "Start");
}

#[test]
fn mailbox_is_fifo_per_producer() {
    let mut engine = EvalEngine::new();
    engine.load_program("lights".to_string(), lights_program()).expect("loads");
    let unit = &mut engine.units[0];
    let lights = "Lights".to_string();
    activate_actor(unit, &lights, FUEL).expect("activates");
    // Enqueue PowerOn then PowerOff; processing must meet them in order,
    // leaving the machine back in Off only if PowerOn ran first.
    assert!(send_event(unit, &lights, instance("PowerOn", vec![])));
    assert!(send_event(unit, &lights, instance("PowerOff", vec![])));
    step_actor(unit, &lights, FUEL).expect("dispatches").expect("first event");
    assert_eq!(active_leaf(unit, "Lights"), "On");
    step_actor(unit, &lights, FUEL).expect("dispatches").expect("second event");
    assert_eq!(active_leaf(unit, "Lights"), "Off");
}

#[test]
fn mailbox_pops_in_push_order() {
    let program = vec![
        TopLevelExpr::Event { event_name: "E1".to_string(), params: vec![] },
        TopLevelExpr::Event { event_name: "E2".to_string(), params: vec![] },
        TopLevelExpr::Actor { actor_name: "A".to_string(), content: vec![] },
    ];
    let mut ids = IdGen::new();
    let mut unit = eval_program("u".to_string(), program, &mut ids).expect("evaluates");
    let actor = &mut unit.actors[0];
    actor.push(instance("E1", vec![]));
    actor.push(instance("E2", vec![]));
    let first = actor.poll().expect("two were queued");
    assert_eq!(first.signature.name, "E1");
    let second = actor.poll().expect("one is left");
    assert_eq!(second.signature.name, "E2");
    assert!(actor.poll().is_none());
}

#[test]
fn bodies_assign_variables_and_send_events() {
    let program = vec![
        TopLevelExpr::Event { event_name: "Tick".to_string(), params: vec![VarType::IntType] },
        TopLevelExpr::Event { event_name: "Note".to_string(), params: vec![VarType::IntType] },
        TopLevelExpr::Actor {
            actor_name: "Counter".to_string(),
            content: vec![
                ActorExpr::VarDecl {
                    var_name: "total".to_string(),
                    var_type: VarType::IntType,
                    initial: Some(ValueExpr::Int(10)),
                },
                ActorExpr::TransitionDecl {
                    event: call("Tick", vec![ident("n")]),
                    conditions: vec![],
                    body: vec![
                        ControlFlowExpr::AssignStatement {
                            var_name: "total".to_string(),
                            val_expr: ValueExpr::AddExpr {
                                l: Box::new(ident("total")),
                                r: Box::new(ident("n")),
                            },
                        },
                        ControlFlowExpr::SendStatement {
                            target_state: "Log".to_string(),
                            event: call("Note", vec![ident("n")]),
                        },
                    ],
                },
            ],
        },
        TopLevelExpr::Actor { actor_name: "Log".to_string(), content: vec![] },
    ];
    let mut engine = EvalEngine::new();
    engine.load_program("c".to_string(), program).expect("loads");
    engine.compile().expect("well-typed");
    let unit = &mut engine.units[0];
    let counter = "Counter".to_string();
    let tick = EventInstance {
        signature: EventSignature::new("Tick".to_string(), vec![VarType::IntType]),
        params: vec![Value::Int(5)],
    };
    assert!(send_event(unit, &counter, tick));
    step_actor(unit, &counter, FUEL).expect("dispatches").expect("queued");
    let a = unit.get_actor(&counter).expect("exists");
    match a.get_var(&"total".to_string()) {
        Some((VarType::IntType, Value::Int(v))) => assert_eq!(*v, 15),
        other => panic!("expected the updated integer, got {:?}", other),
    }
    // The send reached Log's mailbox: stepping Log consumes it.
    let log = "Log".to_string();
    let took = step_actor(unit, &log, FUEL).expect("fine");
    assert!(took.is_some());
}

#[test]
fn guards_see_event_arguments() {
    let program = vec![
        TopLevelExpr::Event { event_name: "Set".to_string(), params: vec![VarType::IntType] },
        TopLevelExpr::Actor {
            actor_name: "T".to_string(),
            content: vec![ActorExpr::StateMachine(vec![
                StateMachineExpr::StateDecl {
                    state_name: "Low".to_string(),
                    content: vec![StateMachineExpr::TransitionDecl {
                        event: call("Set", vec![ident("v")]),
                        conditions: vec![ValueExpr::GtExpr {
                            l: Box::new(ident("v")),
                            r: Box::new(ValueExpr::Int(100)),
                        }],
                        target: "High".to_string(),
                        body: vec![],
                    }],
                },
                StateMachineExpr::StateDecl { state_name: "High".to_string(), content: vec![] },
                StateMachineExpr::InitialStateDecl("Low".to_string()),
            ])],
        },
    ];
    let mut engine = EvalEngine::new();
    engine.load_program("t".to_string(), program).expect("loads");
    engine.compile().expect("well-typed");
    let unit = &mut engine.units[0];
    let t = "T".to_string();
    activate_actor(unit, &t, FUEL).expect("activates");
    let set = |v: i64| EventInstance {
        signature: EventSignature::new("Set".to_string(), vec![VarType::IntType]),
        params: vec![Value::Int(v)],
    };
    // Below the threshold the guard is false and the event is discarded.
    assert!(send_event(unit, &t, set(7)));
    step_actor(unit, &t, FUEL).expect("fine").expect("queued");
    assert_eq!(active_leaf(unit, "T"), "Low");
    // Above it, the transition fires.
    assert!(send_event(unit, &t, set(101)));
    step_actor(unit, &t, FUEL).expect("fine").expect("queued");
    assert_eq!(active_leaf(unit, "T"), "High");
}

#[test]
fn entry_actions_run_on_activation() {
    let program = vec![TopLevelExpr::Actor {
        actor_name: "W".to_string(),
        content: vec![ActorExpr::StateMachine(vec![
            StateMachineExpr::VarDecl {
                var_name: "mark".to_string(),
                var_type: VarType::IntType,
                initial: Some(ValueExpr::Int(0)),
            },
            StateMachineExpr::EntryDecl(vec![ControlFlowExpr::AssignStatement {
                var_name: "mark".to_string(),
                val_expr: ValueExpr::Int(42),
            }]),
        ])],
    }];
    let mut engine = EvalEngine::new();
    engine.load_program("w".to_string(), program).expect("loads");
    engine.compile().expect("well-typed");
    let unit = &mut engine.units[0];
    let w = "W".to_string();
    activate_actor(unit, &w, FUEL).expect("activates");
    let a = unit.get_actor(&w).expect("exists");
    let root = a.statemachine.as_ref().expect("tree");
    match root.get_var(&"mark".to_string()) {
        Some((VarType::IntType, Value::Int(v))) => assert_eq!(*v, 42),
        other => panic!("the entry action should have run, got {:?}", other),
    }
}

#[test]
fn stepping_a_missing_actor_or_empty_mailbox_does_nothing() {
    let mut engine = EvalEngine::new();
    engine.load_program("lights".to_string(), lights_program()).expect("loads");
    let unit = &mut engine.units[0];
    // A name no actor bears: no work, no error.
    let ghostly = "Nobody".to_string();
    assert!(step_actor(unit, &ghostly, FUEL).expect("not an error").is_none());
    assert!(activate_actor(unit, &ghostly, FUEL).expect("not an error").is_none());
    // An empty mailbox: likewise.
    let lights = "Lights".to_string();
    assert!(step_actor(unit, &lights, FUEL).expect("not an error").is_none());
}

#[test]
fn values_compare_by_kind_and_payload() {
    assert!(Value::Int(3).equals(&Value::Int(3)));
    assert!(!Value::Int(3).equals(&Value::Int(4)));
    assert!(!Value::Int(1).equals(&Value::Bool(true)));
    assert!(Value::Str("a".to_string()).equals(&Value::Str("a".to_string())));
    assert!(!Value::Str("a".to_string()).equals(&Value::Str("b".to_string())));
    let bits = 0x4000000000000000u64;
    assert!(Value::Float(bits).equals(&Value::Float(bits)));
    assert!(matches!(Value::Float(bits).kind(), VarType::FloatType));
}
