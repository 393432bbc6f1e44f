//! The front half of the pipeline: evaluating syntax trees into runtime
//! models, and type-checking the models.

use proteus::ast::{ActorExpr, ControlFlowExpr, StateMachineExpr, TopLevelExpr, ValueExpr, VarType};
use proteus::engine::EvalEngine;
use proteus::eval::{eval_program, EvalError, IdGen};
use proteus::runtime::{Diagnostic, Transition};
use proteus::typecheck::{typecheck, TypeError};
use proteus::value::{eval_pure, Value};

fn ident(name: &str) -> ValueExpr {
    ValueExpr::Ident(name.to_string())
}

fn call(name: &str, args: Vec<ValueExpr>) -> ValueExpr {
    ValueExpr::FuncCallExpr { func_name: name.to_string(), func_args: args }
}

#[test]
fn eval_pure_resolves_literals_only() {
    assert!(matches!(eval_pure(ValueExpr::Int(7)), Some(Value::Int(7))));
    assert!(matches!(eval_pure(ValueExpr::Bool(true)), Some(Value::Bool(true))));
    assert!(matches!(eval_pure(ValueExpr::Float(0x3ff0000000000000)), Some(Value::Float(_))));
    match eval_pure(ValueExpr::Str("hi".to_string())) {
        Some(Value::Str(s)) => assert_eq!(s, "hi"),
        other => panic!("expected a string value, got {:?}", other),
    }
    assert!(eval_pure(ident("x")).is_none());
    assert!(eval_pure(ValueExpr::AddExpr {
        l: Box::new(ValueExpr::Int(1)),
        r: Box::new(ValueExpr::Int(2)),
    })
    .is_none());
}

#[test]
fn try_eval_binds_one_name_per_argument() {
    let t = Transition::try_eval(
        call("Pressed", vec![ident("a"), ident("b")]),
        vec![ValueExpr::Bool(true)],
        "Target".to_string(),
        vec![],
    )
    .expect("a call over bare identifiers is a well-formed pattern");
    assert_eq!(t.event_name, "Pressed");
    assert_eq!(t.bound_vars, vec!["a".to_string(), "b".to_string()]);
    assert_eq!(t.bound_vars.len(), 2);
    assert_eq!(t.target, "Target");
    assert_eq!(t.conditions.len(), 1);
}

#[test]
fn try_eval_rejects_malformed_patterns() {
    // A non-identifier argument is rejected, without a panic.
    let r = Transition::try_eval(
        call("Pressed", vec![ValueExpr::Int(3)]),
        vec![],
        String::new(),
        vec![],
    );
    assert!(r.is_none());
    // A pattern that is not a call at all is rejected too.
    let r2 = Transition::try_eval(ident("Pressed"), vec![], String::new(), vec![]);
    assert!(r2.is_none());
}

fn func_program() -> Vec<TopLevelExpr> {
    vec![TopLevelExpr::Func {
        func_name: "add".to_string(),
        params: vec![
            ("x".to_string(), VarType::IntType),
            ("y".to_string(), VarType::IntType),
        ],
        ret_type: Some(VarType::IntType),
        body: vec![],
    }]
}

#[test]
fn func_declaration_registers_signature() {
    let mut ids = IdGen::new();
    let unit = eval_program("u".to_string(), func_program(), &mut ids).expect("evaluates");
    let sig = unit.get_func(&"add".to_string()).expect("registered by name");
    assert_eq!(sig.func_name, "add");
    assert_eq!(sig.params.len(), 2);
    assert!(matches!(sig.params[0].1, VarType::IntType));
    assert!(matches!(sig.params[1].1, VarType::IntType));
    assert!(matches!(sig.ret_type, Some(VarType::IntType)));
}

#[test]
fn evaluation_is_deterministic() {
    let build = || {
        vec![
            TopLevelExpr::Event { event_name: "Go".to_string(), params: vec![] },
            TopLevelExpr::Actor {
                actor_name: "A".to_string(),
                content: vec![ActorExpr::StateMachine(vec![
                    StateMachineExpr::StateDecl { state_name: "X".to_string(), content: vec![] },
                    StateMachineExpr::StateDecl { state_name: "Y".to_string(), content: vec![] },
                    StateMachineExpr::InitialStateDecl("X".to_string()),
                ])],
            },
            TopLevelExpr::Actor { actor_name: "B".to_string(), content: vec![] },
        ]
    };
    let mut ids1 = IdGen::new();
    let u1 = eval_program("u".to_string(), build(), &mut ids1).expect("evaluates");
    let mut ids2 = IdGen::new();
    let u2 = eval_program("u".to_string(), build(), &mut ids2).expect("evaluates");
    assert_eq!(ids1.next_id, ids2.next_id);
    assert_eq!(u1.actors.len(), u2.actors.len());
    for (a1, a2) in u1.actors.iter().zip(u2.actors.iter()) {
        assert_eq!(a1.id, a2.id);
        assert_eq!(a1.name, a2.name);
    }
    // Identifiers are dense and depth-first: actor A, its root, X, Y, B.
    let a = u1.get_actor(&"A".to_string()).unwrap();
    assert_eq!(a.id, 0);
    let root = a.statemachine.as_ref().unwrap();
    assert_eq!(root.id, 1);
    assert_eq!(root.subs[0].id, 2);
    assert_eq!(root.subs[0].name, "X");
    assert_eq!(root.subs[1].id, 3);
    assert_eq!(root.subs[1].name, "Y");
    assert_eq!(root.at, "X");
    let b = u1.get_actor(&"B".to_string()).unwrap();
    assert_eq!(b.id, 4);
}

#[test]
fn non_literal_initializer_is_fatal() {
    let program = vec![TopLevelExpr::Actor {
        actor_name: "A".to_string(),
        content: vec![ActorExpr::VarDecl {
            var_name: "n".to_string(),
            var_type: VarType::IntType,
            initial: Some(ValueExpr::AddExpr {
                l: Box::new(ValueExpr::Int(1)),
                r: Box::new(ValueExpr::Int(2)),
            }),
        }],
    }];
    let mut ids = IdGen::new();
    match eval_program("u".to_string(), program, &mut ids) {
        Err(EvalError::NonLiteralInitializer { scope, var }) => {
            assert_eq!(scope, "A");
            assert_eq!(var, "n");
        },
        other => panic!("expected a non-literal initializer error, got {:?}", other),
    }
}

#[test]
fn missing_initializer_is_fatal() {
    let program = vec![TopLevelExpr::Actor {
        actor_name: "A".to_string(),
        content: vec![ActorExpr::VarDecl {
            var_name: "n".to_string(),
            var_type: VarType::IntType,
            initial: None,
        }],
    }];
    let mut ids = IdGen::new();
    match eval_program("u".to_string(), program, &mut ids) {
        Err(EvalError::MissingInitializer { scope, var }) => {
            assert_eq!(scope, "A");
            assert_eq!(var, "n");
        },
        other => panic!("expected a missing initializer error, got {:?}", other),
    }
}

#[test]
fn malformed_transition_is_recorded_not_fatal() {
    let program = vec![TopLevelExpr::Actor {
        actor_name: "A".to_string(),
        content: vec![ActorExpr::TransitionDecl {
            event: ident("NotACall"),
            conditions: vec![],
            body: vec![],
        }],
    }];
    let mut ids = IdGen::new();
    let unit = eval_program("u".to_string(), program, &mut ids).expect("non-fatal");
    assert_eq!(unit.diagnostics.len(), 1);
    match &unit.diagnostics[0] {
        Diagnostic::MalformedTransition { scope } => assert_eq!(scope, "A"),
    }
}

#[test]
fn unknown_event_is_reported() {
    let program = vec![TopLevelExpr::Actor {
        actor_name: "A".to_string(),
        content: vec![ActorExpr::TransitionDecl {
            event: call("Missing", vec![]),
            conditions: vec![],
            body: vec![],
        }],
    }];
    let mut ids = IdGen::new();
    let unit = eval_program("u".to_string(), program, &mut ids).expect("evaluates");
    let errors = typecheck(&unit);
    assert_eq!(errors.len(), 1);
    match &errors[0] {
        TypeError::UnknownEvent { event } => assert_eq!(event, "Missing"),
        other => panic!("expected an unknown-event error, got {:?}", other),
    }
}

#[test]
fn unknown_event_fails_compilation() {
    let mut engine = EvalEngine::new();
    let program = vec![TopLevelExpr::Actor {
        actor_name: "A".to_string(),
        content: vec![ActorExpr::TransitionDecl {
            event: call("Missing", vec![]),
            conditions: vec![],
            body: vec![],
        }],
    }];
    engine.load_program("u".to_string(), program).expect("loads");
    let err = engine.compile().expect_err("an unknown event is not silent success");
    assert!(err
        .errors
        .iter()
        .any(|e| matches!(e, TypeError::UnknownEvent { event } if event == "Missing")));
}

#[test]
fn arity_mismatch_is_reported() {
    let program = vec![
        TopLevelExpr::Event { event_name: "E".to_string(), params: vec![VarType::IntType] },
        TopLevelExpr::Actor {
            actor_name: "A".to_string(),
            content: vec![ActorExpr::TransitionDecl {
                event: call("E", vec![ident("x"), ident("y")]),
                conditions: vec![],
                body: vec![],
            }],
        },
    ];
    let mut ids = IdGen::new();
    let unit = eval_program("u".to_string(), program, &mut ids).expect("evaluates");
    let errors = typecheck(&unit);
    assert!(errors
        .iter()
        .any(|e| matches!(e, TypeError::ArityMismatch { event } if event == "E")));
}

#[test]
fn guard_must_type_check_to_bool() {
    let program = vec![
        TopLevelExpr::Event { event_name: "E".to_string(), params: vec![VarType::IntType] },
        TopLevelExpr::Actor {
            actor_name: "A".to_string(),
            content: vec![ActorExpr::TransitionDecl {
                event: call("E", vec![ident("x")]),
                conditions: vec![ident("x")],
                body: vec![],
            }],
        },
    ];
    let mut ids = IdGen::new();
    let unit = eval_program("u".to_string(), program, &mut ids).expect("evaluates");
    let errors = typecheck(&unit);
    assert!(errors
        .iter()
        .any(|e| matches!(e, TypeError::GuardNotBool { event } if event == "E")));
}

#[test]
fn guard_comparing_bound_int_is_accepted() {
    let program = vec![
        TopLevelExpr::Event { event_name: "E".to_string(), params: vec![VarType::IntType] },
        TopLevelExpr::Actor {
            actor_name: "A".to_string(),
            content: vec![ActorExpr::TransitionDecl {
                event: call("E", vec![ident("x")]),
                conditions: vec![ValueExpr::GtExpr {
                    l: Box::new(ident("x")),
                    r: Box::new(ValueExpr::Int(0)),
                }],
                body: vec![],
            }],
        },
    ];
    let mut ids = IdGen::new();
    let unit = eval_program("u".to_string(), program, &mut ids).expect("evaluates");
    assert!(typecheck(&unit).is_empty());
}

#[test]
fn unknown_state_target_is_reported() {
    let program = vec![
        TopLevelExpr::Event { event_name: "E".to_string(), params: vec![] },
        TopLevelExpr::Actor {
            actor_name: "A".to_string(),
            content: vec![ActorExpr::StateMachine(vec![
                StateMachineExpr::StateDecl {
                    state_name: "X".to_string(),
                    content: vec![StateMachineExpr::TransitionDecl {
                        event: call("E", vec![]),
                        conditions: vec![],
                        target: "Nowhere".to_string(),
                        body: vec![],
                    }],
                },
                StateMachineExpr::InitialStateDecl("X".to_string()),
            ])],
        },
    ];
    let mut ids = IdGen::new();
    let unit = eval_program("u".to_string(), program, &mut ids).expect("evaluates");
    let errors = typecheck(&unit);
    assert!(errors
        .iter()
        .any(|e| matches!(e, TypeError::UnknownState { target } if target == "Nowhere")));
}

#[test]
fn sibling_target_resolves() {
    let program = vec![
        TopLevelExpr::Event { event_name: "E".to_string(), params: vec![] },
        TopLevelExpr::Actor {
            actor_name: "A".to_string(),
            content: vec![ActorExpr::StateMachine(vec![
                StateMachineExpr::StateDecl {
                    state_name: "X".to_string(),
                    content: vec![StateMachineExpr::TransitionDecl {
                        event: call("E", vec![]),
                        conditions: vec![],
                        target: "Y".to_string(),
                        body: vec![],
                    }],
                },
                StateMachineExpr::StateDecl { state_name: "Y".to_string(), content: vec![] },
                StateMachineExpr::InitialStateDecl("X".to_string()),
            ])],
        },
    ];
    let mut ids = IdGen::new();
    let unit = eval_program("u".to_string(), program, &mut ids).expect("evaluates");
    assert!(typecheck(&unit).is_empty());
}

#[test]
fn unknown_function_in_guard_is_reported() {
    let program = vec![
        TopLevelExpr::Event { event_name: "E".to_string(), params: vec![] },
        TopLevelExpr::Actor {
            actor_name: "A".to_string(),
            content: vec![ActorExpr::TransitionDecl {
                event: call("E", vec![]),
                conditions: vec![call("helper", vec![])],
                body: vec![],
            }],
        },
    ];
    let mut ids = IdGen::new();
    let unit = eval_program("u".to_string(), program, &mut ids).expect("evaluates");
    let errors = typecheck(&unit);
    assert!(errors
        .iter()
        .any(|e| matches!(e, TypeError::UnknownFunction { func } if func == "helper")));
}

#[test]
fn call_in_value_position_never_type_checks() {
    // Function bodies cannot return a value, so even a declared,
    // arity-correct call is rejected as a guard rather than left to get
    // stuck at dispatch; the call itself still resolves.
    let program = vec![
        TopLevelExpr::Event { event_name: "E".to_string(), params: vec![] },
        TopLevelExpr::Func {
            func_name: "noop".to_string(),
            params: vec![],
            ret_type: Some(VarType::BoolType),
            body: vec![],
        },
        TopLevelExpr::Actor {
            actor_name: "A".to_string(),
            content: vec![ActorExpr::TransitionDecl {
                event: call("E", vec![]),
                conditions: vec![call("noop", vec![])],
                body: vec![],
            }],
        },
    ];
    let mut ids = IdGen::new();
    let unit = eval_program("u".to_string(), program, &mut ids).expect("evaluates");
    let errors = typecheck(&unit);
    assert!(errors
        .iter()
        .any(|e| matches!(e, TypeError::GuardNotBool { event } if event == "E")));
    assert!(!errors
        .iter()
        .any(|e| matches!(e, TypeError::UnknownFunction { .. })));
}

#[test]
fn duplicate_event_declaration_is_reported() {
    let program = vec![
        TopLevelExpr::Event { event_name: "E".to_string(), params: vec![] },
        TopLevelExpr::Event { event_name: "E".to_string(), params: vec![VarType::IntType] },
    ];
    let mut ids = IdGen::new();
    let unit = eval_program("u".to_string(), program, &mut ids).expect("evaluates");
    let errors = typecheck(&unit);
    assert_eq!(errors.len(), 1);
    assert!(matches!(&errors[0], TypeError::DuplicateDeclaration { name } if name == "E"));
}

#[test]
fn stored_value_must_inhabit_declared_type() {
    let program = vec![TopLevelExpr::Actor {
        actor_name: "A".to_string(),
        content: vec![ActorExpr::VarDecl {
            var_name: "flag".to_string(),
            var_type: VarType::BoolType,
            initial: Some(ValueExpr::Int(1)),
        }],
    }];
    let mut ids = IdGen::new();
    let unit = eval_program("u".to_string(), program, &mut ids).expect("evaluates");
    let errors = typecheck(&unit);
    assert!(errors
        .iter()
        .any(|e| matches!(e, TypeError::VarInitMismatch { var } if var == "flag")));
}

#[test]
fn send_argument_calls_are_scanned() {
    let program = vec![
        TopLevelExpr::Event { event_name: "E".to_string(), params: vec![VarType::IntType] },
        TopLevelExpr::Actor {
            actor_name: "A".to_string(),
            content: vec![ActorExpr::TransitionDecl {
                event: call("E", vec![ident("x")]),
                conditions: vec![],
                body: vec![ControlFlowExpr::SendStatement {
                    target_state: "B".to_string(),
                    event: call("E", vec![call("mystery", vec![])]),
                }],
            }],
        },
    ];
    let mut ids = IdGen::new();
    let unit = eval_program("u".to_string(), program, &mut ids).expect("evaluates");
    let errors = typecheck(&unit);
    // The send's own event name is not a function call, but its argument is.
    assert!(errors
        .iter()
        .any(|e| matches!(e, TypeError::UnknownFunction { func } if func == "mystery")));
    assert!(!errors
        .iter()
        .any(|e| matches!(e, TypeError::UnknownFunction { func } if func == "E")));
}
