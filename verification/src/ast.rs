//! The abstract syntax tree: an immutable representation of parsed source.
//!
//! Top-level declarations, actor bodies, state-machine bodies, control-flow
//! statements and value expressions.  Pure data, no behaviour; the evaluator
//! consumes it once to build the runtime model.

use vstd::prelude::*;

verus! {

/// The closed set of variable and event-parameter types of the language.
#[derive(Debug, Clone, Copy, PartialEq, Eq, Structural)]
pub enum VarType {
    IntType,
    BoolType,
    FloatType,
    StringType,
}

/// An ordered sequence of top-level declarations: one parsed source unit.
pub type Program = Vec<TopLevelExpr>;

/// A top-level declaration of a program.
#[derive(Debug)]
pub enum TopLevelExpr {
    Actor { actor_name: String, content: Vec<ActorExpr> },
    Event { event_name: String, params: Vec<VarType> },
    Func {
        func_name: String,
        params: Vec<(String, VarType)>,
        ret_type: Option<VarType>,
        body: Vec<ControlFlowExpr>,
    },
}

/// An item of an actor body.
#[derive(Debug)]
pub enum ActorExpr {
    VarDecl { var_name: String, var_type: VarType, initial: Option<ValueExpr> },
    StateMachine(Vec<StateMachineExpr>),
    /// A flat, actor-scoped transition; the `event` expression must be a
    /// call-shaped pattern over bare identifiers to be accepted.
    TransitionDecl { event: ValueExpr, conditions: Vec<ValueExpr>, body: Vec<ControlFlowExpr> },
    EntryDecl(Vec<ControlFlowExpr>),
    ExitDecl(Vec<ControlFlowExpr>),
}

/// An item of a state-machine body; `StateDecl` nests recursively.
#[derive(Debug)]
pub enum StateMachineExpr {
    VarDecl { var_name: String, var_type: VarType, initial: Option<ValueExpr> },
    InitialStateDecl(String),
    StateDecl { state_name: String, content: Vec<StateMachineExpr> },
    /// A state-scoped transition carrying an explicit target state name;
    /// an empty target means a self transition.
    TransitionDecl {
        event: ValueExpr,
        conditions: Vec<ValueExpr>,
        target: String,
        body: Vec<ControlFlowExpr>,
    },
    EntryDecl(Vec<ControlFlowExpr>),
    ExitDecl(Vec<ControlFlowExpr>),
}

/// A statement of a function body, transition body or entry/exit action.
#[derive(Debug)]
pub enum ControlFlowExpr {
    VarDecl { var_name: String, var_type: VarType, initial: Option<ValueExpr> },
    /// Enqueue `event` onto the mailbox of the actor named `target_state`.
    SendStatement { target_state: String, event: ValueExpr },
    AssignStatement { var_name: String, val_expr: ValueExpr },
    FuncCallStatement(ValueExpr),
}

/// A value expression tree: literals, identifier references, unary not,
/// arithmetic, boolean and comparison operators, and function calls.
///
/// A float literal is carried as its IEEE-754 bit pattern; the front end
/// converts between the textual form and the bits at the boundary.
#[derive(Debug)]
pub enum ValueExpr {
    Bool(bool),
    Int(i64),
    Float(u64),
    Str(String),
    Ident(String),
    AddExpr { l: Box<ValueExpr>, r: Box<ValueExpr> },
    SubExpr { l: Box<ValueExpr>, r: Box<ValueExpr> },
    MulExpr { l: Box<ValueExpr>, r: Box<ValueExpr> },
    DivExpr { l: Box<ValueExpr>, r: Box<ValueExpr> },
    NotExpr { v: Box<ValueExpr> },
    OrExpr { l: Box<ValueExpr>, r: Box<ValueExpr> },
    AndExpr { l: Box<ValueExpr>, r: Box<ValueExpr> },
    XorExpr { l: Box<ValueExpr>, r: Box<ValueExpr> },
    EqExpr { l: Box<ValueExpr>, r: Box<ValueExpr> },
    NeqExpr { l: Box<ValueExpr>, r: Box<ValueExpr> },
    LeqExpr { l: Box<ValueExpr>, r: Box<ValueExpr> },
    GeqExpr { l: Box<ValueExpr>, r: Box<ValueExpr> },
    LtExpr { l: Box<ValueExpr>, r: Box<ValueExpr> },
    GtExpr { l: Box<ValueExpr>, r: Box<ValueExpr> },
    FuncCallExpr { func_name: String, func_args: Vec<ValueExpr> },
}

} // verus!
