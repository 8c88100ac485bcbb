//! Checked programs: every name is resolved and every type is known.

use crate::bytecode::Intrinsic;
use crate::index_map::IndexMap;
use crate::types::{FieldId, GlobalId, MethodId, Parameterized, Type, TypeId};
use vstd::prelude::*;

verus! {

/// A range of the source text.
#[derive(Debug, Clone, Copy, PartialEq, Eq, Structural)]
pub struct Span {
    pub low: usize,
    pub high: usize,
}

/// A value that the code of one function can name.
#[derive(Debug, Clone, Copy, PartialEq, Eq, Structural)]
pub enum Local {
    /// A variable that the function declares.
    Var(u16),
    /// A parameter of the function.
    Param(u16),
    /// A value that a lambda keeps from the function around it.
    Capture(u16),
    /// The object that the function was called on.
    This,
}

/// What a quoted literal stands for.
#[derive(Debug, Clone, Copy, PartialEq, Eq, Structural)]
pub enum Literal {
    String,
    Name,
    Resource,
    TweakDbId,
}

/// A constant. Floating-point values are held as their bit patterns.
#[derive(Debug)]
pub enum Constant {
    String(Literal, String),
    F32(u32),
    F64(u64),
    I32(i32),
    I64(i64),
    U32(u32),
    U64(u64),
    Bool(bool),
}

/// What a call calls.
#[derive(Debug, Clone, Copy, PartialEq, Eq, Structural)]
pub enum Callable {
    Static(MethodId),
    Instance(MethodId),
    Lambda,
    Global(GlobalId),
    Intrinsic(Intrinsic),
    Cast,
}

/// What a member access reads.
#[derive(Debug, Clone, Copy, PartialEq, Eq, Structural)]
pub enum Member {
    ClassField(FieldId),
    StructField(FieldId),
    EnumMember(TypeId, u32),
}

/// The types that a call was checked with.
#[derive(Debug)]
pub struct CallMeta {
    pub arg_types: Vec<Type>,
    pub ret_type: Type,
}

/// What a lambda takes and keeps. A capture maps the local inside the lambda to its
/// type and to the local around the lambda that it is taken from.
#[derive(Debug)]
pub struct LambdaEnv {
    pub captures: IndexMap<(Type, Local)>,
    pub params: IndexMap<Type>,
    pub ret_type: Type,
}

#[derive(Debug, Clone, Copy, PartialEq, Eq, Structural)]
pub enum BinOp {
    AssignAdd,
    AssignSubtract,
    AssignMultiply,
    AssignDivide,
    LogicOr,
    LogicAnd,
    Or,
    Xor,
    And,
    Equal,
    NotEqual,
    Less,
    LessEqual,
    Greater,
    GreaterEqual,
    Add,
    Subtract,
    Multiply,
    Divide,
    Modulo,
}

#[derive(Debug, Clone, Copy, PartialEq, Eq, Structural)]
pub enum UnOp {
    BitNot,
    LogicNot,
    Neg,
}

/// Expressions that are evaluated one after the other.
#[derive(Debug)]
pub struct Block {
    pub exprs: Vec<Expr>,
}

#[derive(Debug)]
pub struct SwitchCase {
    pub matcher: Expr,
    pub body: Block,
}

#[derive(Debug)]
pub enum Expr {
    Ident(Local, Span),
    Constant(Constant, Span),
    ArrayLit(Vec<Expr>, Type, Span),
    InterpolatedString(String, Vec<(Expr, String)>, Span),
    Declare(Local, Option<Type>, Option<Box<Expr>>, Span),
    DynCast(Parameterized, Box<Expr>, Span),
    Assign(Box<Expr>, Box<Expr>, Type, Span),
    Call(Box<Expr>, Callable, Vec<Type>, Vec<Expr>, CallMeta, Span),
    Lambda(LambdaEnv, Box<Expr>, Span),
    Member(Box<Expr>, Member, Span),
    ArrayElem(Box<Expr>, Box<Expr>, Type, Span),
    New(Parameterized, Vec<Expr>, Span),
    Return(Option<Box<Expr>>, Span),
    Block(Block),
    Switch(Box<Expr>, Vec<SwitchCase>, Option<Block>, Span),
    If(Box<Expr>, Block, Option<Block>, Span),
    Conditional(Box<Expr>, Box<Expr>, Box<Expr>, Span),
    While(Box<Expr>, Block, Span),
    ForIn(Local, Box<Expr>, Block, Span),
    Null(Span),
    This(Span),
    Super(Span),
    Break(Span),
    BinOp(Box<Expr>, Box<Expr>, BinOp, Span),
    UnOp(Box<Expr>, UnOp, Span),
    Goto(usize, Span),
}

} // verus!
