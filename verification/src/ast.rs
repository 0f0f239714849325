use vstd::prelude::*;

use crate::diag::{NodeId, SourceSpan};
use crate::schema::SchemaDecl;
use crate::types::Type;

verus! {

/// Whether a declaration is visible outside its module.
#[derive(Clone, Copy, PartialEq, Eq, Structural)]
pub enum Visibility {
    Public,
    Private,
}

/// What a function declaration declares.
#[derive(Clone, Copy, PartialEq, Eq, Structural)]
pub enum FunctionKind {
    Function,
    Test,
}

impl FunctionKind {
    /// The node kind under which the declaration's node id is shown.
    pub fn node_prefix(self) -> (r: &'static str)
        ensures
            r@ == (match self { FunctionKind::Function => "fn"@, FunctionKind::Test => "test"@ }),
    {
        proof {
            reveal_strlit("fn");
            reveal_strlit("test");
        }
        match self {
            FunctionKind::Function => "fn",
            FunctionKind::Test => "test",
        }
    }
}

/// A type annotation as written, with the type it parses to or the parse error.
pub struct Annotation {
    pub text: String,
    pub parsed: Result<Type, String>,
}

/// A function parameter.
pub struct Param {
    pub name: String,
    pub ty: Option<Annotation>,
    /// Where the parameter's type annotation is written.
    pub ty_span: Option<SourceSpan>,
    pub is_variadic: bool,
    pub node_id: NodeId,
    pub span: SourceSpan,
}

/// The name given to a function's result in its contracts.
pub struct ReturnBinding {
    pub name: String,
    pub node_id: NodeId,
    pub span: SourceSpan,
}

/// Whether a contract clause constrains inputs or the result.
#[derive(Clone, Copy, PartialEq, Eq, Structural)]
pub enum ContractKind {
    Require,
    Ensure,
}

/// A contract clause and its predicate text.
pub struct Contract {
    pub kind: ContractKind,
    pub text: String,
    pub node_id: NodeId,
    pub span: SourceSpan,
}

/// Binary operators.
#[derive(Clone, Copy, PartialEq, Eq, Structural)]
pub enum BinaryOp {
    Or,
    And,
    Equal,
    NotEqual,
    Less,
    LessEqual,
    Greater,
    GreaterEqual,
    Add,
    Subtract,
    Multiply,
    Divide,
    BitwiseOr,
    BitwiseXor,
    BitwiseAnd,
    ShiftLeft,
    ShiftRight,
    ShiftRightLogical,
    PipeGreater,
}

/// Prefix operators.
#[derive(Clone, Copy, PartialEq, Eq, Structural)]
pub enum PrefixOp {
    Not,
    Negate,
    BitwiseNot,
}

/// An expression with its node id and span.
pub struct Expr {
    pub kind: ExprKind,
    pub node_id: NodeId,
    pub span: SourceSpan,
}

/// The expression forms the body checker reasons about.
#[allow(inconsistent_fields)]
pub enum ExprKind {
    Missing,
    NamePath { segments: Vec<String> },
    StringLiteral(String),
    /// An integer literal: its text and, when the literal parser accepted it, its value.
    IntLiteral { text: String, value: Option<i64> },
    FloatLiteral(String),
    BoolLiteral(bool),
    Unit,
    List(Vec<Expr>),
    Match { scrutinee: Box<Expr>, arms: Vec<MatchArm> },
    If { condition: Box<Expr>, then_branch: Box<Expr>, else_if_branches: Vec<IfBranch>, else_branch: Box<Expr> },
    Prefix { op: PrefixOp, expr: Box<Expr> },
    Binary { op: BinaryOp, left: Box<Expr>, right: Box<Expr> },
    /// `perform Effect.operation(args)`: the effect's path, the operation's name, their
    /// spans, and the arguments.
    Perform { effect: Vec<String>, effect_span: SourceSpan, operation: String, operation_span: SourceSpan, args: Vec<Expr> },
    /// `handle body with Handler(args)`: the handled body, the handler's path and span,
    /// and the handler's arguments.
    Handle { body: Box<Expr>, handler: Vec<String>, handler_span: SourceSpan, args: Vec<Expr> },
    /// `base.field`, with the field name's span.
    FieldAccess { base: Box<Expr>, field: String, field_span: SourceSpan },
    /// A dictionary literal `{key: value, ...}`.
    Dict(Vec<DictEntry>),
    /// A record literal `{name = expr, ...}`.
    Record(Vec<RecordField>),
}

/// One `name = expr` field of a record literal.
pub struct RecordField {
    pub name: String,
    pub expr: Expr,
    pub node_id: NodeId,
    pub span: SourceSpan,
}

/// One `key: value` entry of a dictionary literal.
pub struct DictEntry {
    pub key: Expr,
    pub value: Expr,
}

/// One `else if` branch.
pub struct IfBranch {
    pub condition: Expr,
    pub expr: Expr,
}

/// One arm of a `match`.
pub struct MatchArm {
    pub pattern: Pattern,
    pub expr: Expr,
}

/// A pattern with its node id and span.
pub struct Pattern {
    pub kind: PatternKind,
    pub node_id: NodeId,
    pub span: SourceSpan,
}

/// The pattern forms.
pub enum PatternKind {
    Wildcard,
    Binding(String),
    BoolLiteral(bool),
    IntLiteral(String),
    FloatLiteral(String),
    StringLiteral(String),
    Unit,
    Constructor { name: Vec<String>, args: Vec<Pattern> },
    Record(Vec<RecordPatternField>),
}

/// `name: pattern` inside a record pattern.
pub struct RecordPatternField {
    pub name: String,
    pub pattern: Pattern,
    pub node_id: NodeId,
    pub span: SourceSpan,
}

/// One statement of a function body.
pub struct BodyLine {
    pub kind: BodyLineKind,
    pub node_id: NodeId,
    pub span: SourceSpan,
}

/// A `let` or an expression statement.
pub enum BodyLineKind {
    Let { pattern: Pattern, annotation: Option<Annotation>, expr: Expr },
    Expr { expr: Expr },
}

/// A function declaration as the body checker sees it.
pub struct Function {
    pub name: Option<String>,
    pub module_name: Option<String>,
    pub kind: FunctionKind,
    pub visibility: Visibility,
    pub params: Vec<Param>,
    pub return_type: Option<Annotation>,
    /// Where the return type annotation is written.
    pub return_type_span: Option<SourceSpan>,
    pub return_binding: Option<ReturnBinding>,
    pub effects: Option<Vec<String>>,
    /// Where each declared effect is written.
    pub effect_spans: Option<Vec<SourceSpan>>,
    /// The effect row variable the function binds, if any.
    pub effect_binder: Option<String>,
    pub contracts: Vec<Contract>,
    pub body: Vec<BodyLine>,
    pub node_id: NodeId,
    pub span: SourceSpan,
}

/// Where a `use` declaration comes from: written in the source, or added by the
/// toolchain.
#[derive(Clone, Copy, PartialEq, Eq, Structural)]
pub enum UseOrigin {
    Source,
    Implicit,
}

/// A `use` declaration: the imported module path, the name it is known by here, and
/// the module it stands in.
pub struct UseDecl {
    pub name: String,
    pub alias: String,
    pub module_name: Option<String>,
    pub origin: UseOrigin,
    pub node_id: NodeId,
    pub span: SourceSpan,
}

/// A variant (constructor) of a type declaration.
pub struct VariantDecl {
    pub name: Option<String>,
    pub node_id: NodeId,
    pub span: SourceSpan,
}

/// A type declaration with its variants.
pub struct TypeDecl {
    pub name: Option<String>,
    pub module_name: Option<String>,
    pub variants: Vec<VariantDecl>,
    pub node_id: NodeId,
    pub span: SourceSpan,
}

/// An operation declared by an effect.
pub struct EffectOperationDecl {
    pub name: Option<String>,
    pub node_id: NodeId,
    pub name_span: SourceSpan,
}

/// An effect declaration with its operations.
pub struct EffectDecl {
    pub name: Option<String>,
    pub module_name: Option<String>,
    pub operations: Vec<EffectOperationDecl>,
    pub node_id: NodeId,
    pub span: SourceSpan,
}

/// What a public alias stands for.
#[derive(Clone, Copy, PartialEq, Eq, Structural)]
pub enum PublicAliasKind {
    Function,
    Type,
    Schema,
}

/// A public alias: a new name for a function, type or schema at the target path.
pub struct PublicAlias {
    pub name: Option<String>,
    pub module_name: Option<String>,
    pub kind: PublicAliasKind,
    pub target: Vec<String>,
    pub node_id: NodeId,
    pub span: SourceSpan,
}

/// A name bound by an operation clause to one of the operation's arguments.
pub struct ClauseParam {
    pub name: String,
    pub node_id: NodeId,
    pub span: SourceSpan,
}

/// One operation clause of a handler: the operation it handles, the names it binds to
/// the operation's arguments, and the body computing the operation's result.
pub struct HandlerOperationClauseDecl {
    pub operation: Option<String>,
    pub operation_span: SourceSpan,
    pub params: Vec<ClauseParam>,
    pub body: Expr,
    pub node_id: NodeId,
    pub span: SourceSpan,
}

/// A handler declaration: the effect it handles, its parameters, the effects its
/// clauses may use, and its operation clauses.
pub struct HandlerDecl {
    pub name: Option<String>,
    pub module_name: Option<String>,
    pub visibility: Visibility,
    pub effect: Vec<String>,
    pub effect_span: SourceSpan,
    pub effects: Option<Vec<String>>,
    /// Where each declared effect is written.
    pub effect_spans: Option<Vec<SourceSpan>>,
    pub params: Vec<Param>,
    pub operation_clauses: Vec<HandlerOperationClauseDecl>,
    pub node_id: NodeId,
    pub span: SourceSpan,
}

/// The `mod` declaration that gives a source file its module identity.
pub struct ModuleHeader {
    pub name: String,
    pub node_id: NodeId,
    pub span: SourceSpan,
}

/// The declarations of a source module.
pub struct SurfaceModule {
    pub module: Option<ModuleHeader>,
    pub uses: Vec<UseDecl>,
    pub functions: Vec<Function>,
    pub types: Vec<TypeDecl>,
    pub effects: Vec<EffectDecl>,
    pub schemas: Vec<SchemaDecl>,
    pub aliases: Vec<PublicAlias>,
    pub handlers: Vec<HandlerDecl>,
}

} // verus!
