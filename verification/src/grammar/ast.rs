//! The data structures of OPENQASM abstract syntax trees, with their
//! mathematical values.
use vstd::prelude::*;

use crate::grammar::lexer::Location;

verus! {

/// An OPENQASM program: a version string and a list of statements, each
/// related to the fragment of source code where it appears.
#[derive(Debug, PartialEq)]
pub struct OpenQasmProgram {
    /// The version of the language as in `X.Y`.
    pub version: String,
    /// List of statements conforming the program body.
    pub program: Vec<Span<Statement>>,
}

/// An OPENQASM library: gate declarations only.
#[derive(Debug, PartialEq)]
pub struct OpenQasmLibrary {
    /// List of gate declarations.
    pub definitions: Vec<Statement>,
}

/// A pragma for a gate optimizer preventing the combination of the gates at
/// both sides of the barrier. It takes a list of registers or qubits.
#[derive(Debug, Clone, PartialEq, Eq, Hash)]
pub struct BarrierPragma(pub Vec<Argument>);

/// Each of the statements of an OPENQASM program.
#[non_exhaustive]
#[derive(Debug, PartialEq)]
pub enum Statement {
    /// Quantum register declaration with name and size.
    QRegDecl(String, usize),
    /// Classical register declaration with name and size.
    CRegDecl(String, usize),
    /// Quantum gate declaration with name, formal real parameters, formal
    /// quantum registers and its body.
    GateDecl(String, Vec<String>, Vec<String>, Vec<GateOperation>),
    /// Include statement for linking with gate libraries.
    Include(String),
    /// A wrapper for the barrier pragma.
    Barrier(BarrierPragma),
    /// Opaque gate declaration with name, formal real parameters and formal
    /// quantum registers. Opaque declarations have no body.
    OpaqueGateDecl(String, Vec<String>, Vec<String>),
    /// A wrapper for a quantum operation.
    QuantumOperation(QuantumOperation),
    /// A quantum operation performed only when a classical register holds
    /// a value: the register, the value and the operation.
    Conditional(Argument, u64, QuantumOperation),
}

/// Relates a node with the fragment of source code where it appears.
#[derive(Debug, PartialEq)]
pub struct Span<S> {
    /// Pair of source locations where the AST node can be found.
    pub boundaries: (Location, Location),
    /// Boxed AST node.
    pub node: Box<S>,
}

/// Any of the statements that can appear inside a gate definition.
#[non_exhaustive]
#[derive(Debug, PartialEq)]
pub enum GateOperation {
    /// A gate invocation.
    Unitary(UnitaryOperation),
    /// A barrier pragma.
    Barrier(BarrierPragma),
}

/// Any of the operations that act on quantum registers.
#[non_exhaustive]
#[derive(Debug, PartialEq)]
pub enum QuantumOperation {
    /// A gate invocation.
    Unitary(UnitaryOperation),
    /// A measurement on a quantum register to a classical register.
    Measure(Argument, Argument),
    /// A reset operation on a quantum register.
    Reset(Argument),
}

/// A gate invocation: its name, the real parameters and the quantum
/// arguments.
#[derive(Debug, PartialEq)]
pub struct UnitaryOperation(pub String, pub Vec<Expression>, pub Vec<Argument>);

/// Any of the operators that can appear in an expression.
#[non_exhaustive]
#[derive(Debug, Clone, Copy, PartialEq, Eq, Structural, Hash)]
pub enum Opcode {
    /// Code for the addition operator `+`.
    Add,
    /// Code for the substraction operator `-`.
    Sub,
    /// Code for the multiplication operator `*`.
    Mul,
    /// Code for the division operator `/`.
    Div,
    /// Code for the power operator `^`.
    Pow,
}

/// Any of the functions that can appear in an expression.
#[non_exhaustive]
#[derive(Debug, Clone, Copy, PartialEq, Eq, Structural, Hash)]
pub enum Funccode {
    /// Function sinus `sin`.
    Sin,
    /// Function cosinus `cos`.
    Cos,
    /// Function tangent `tan`.
    Tan,
    /// Function exponential `exp`.
    Exp,
    /// Function natural logarithm `ln`.
    Ln,
    /// Function square root `sqrt`.
    Sqrt,
}

/// Any of the subexpressions that can appear inside an expression.
#[non_exhaustive]
#[derive(Debug, PartialEq)]
pub enum Expression {
    /// The pi constant `pi`.
    Pi,
    /// A valid OPENQASM identifier.
    Id(String),
    /// A real number, as written in the source code.
    Real(String),
    /// An integer number.
    Int(u64),
    /// A binary operation.
    Op(Opcode, Box<Expression>, Box<Expression>),
    /// A call to a function.
    Function(Funccode, Box<Expression>),
    /// A negation of an expression.
    Minus(Box<Expression>),
}

/// A reference to a register or register component.
#[non_exhaustive]
#[derive(Debug, Clone, PartialEq, Eq, Hash)]
pub enum Argument {
    /// An entire register like `q`.
    Id(String),
    /// One of the bits/qubits of a register `q[0]`.
    Item(String, usize),
}

// ---------------------------------------------------------------------------
// Mathematical values of the trees.
// ---------------------------------------------------------------------------

/// The value of an [`Argument`].
pub enum ArgumentV {
    Id(Seq<char>),
    Item(Seq<char>, usize),
}

/// The value of an [`Expression`].
pub enum ExpressionV {
    Pi,
    Id(Seq<char>),
    Real(Seq<char>),
    Int(u64),
    Op(Opcode, Box<ExpressionV>, Box<ExpressionV>),
    Function(Funccode, Box<ExpressionV>),
    Minus(Box<ExpressionV>),
}

/// The value of a [`UnitaryOperation`].
pub struct UnitaryV {
    pub name: Seq<char>,
    pub reals: Seq<ExpressionV>,
    pub args: Seq<ArgumentV>,
}

/// The value of a [`GateOperation`].
pub enum GateOperationV {
    Unitary(UnitaryV),
    Barrier(Seq<ArgumentV>),
}

/// The value of a [`QuantumOperation`].
pub enum QuantumOperationV {
    Unitary(UnitaryV),
    Measure(ArgumentV, ArgumentV),
    Reset(ArgumentV),
}

/// The value of a [`Statement`].
pub enum StatementV {
    QRegDecl(Seq<char>, usize),
    CRegDecl(Seq<char>, usize),
    GateDecl(Seq<char>, Seq<Seq<char>>, Seq<Seq<char>>, Seq<GateOperationV>),
    Include(Seq<char>),
    Barrier(Seq<ArgumentV>),
    OpaqueGateDecl(Seq<char>, Seq<Seq<char>>, Seq<Seq<char>>),
    QuantumOperation(QuantumOperationV),
    Conditional(ArgumentV, u64, QuantumOperationV),
}

/// The value of a statement together with its source boundaries.
pub struct SpannedV {
    pub start: int,
    pub end: int,
    pub node: StatementV,
}

/// The value of an [`OpenQasmProgram`].
pub struct ProgramV {
    pub version: Seq<char>,
    pub program: Seq<SpannedV>,
}

/// The values of a list of strings.
pub open spec fn strings_view(v: Seq<String>) -> Seq<Seq<char>> {
    v.map_values(|s: String| s@)
}

impl View for Argument {
    type V = ArgumentV;

    open spec fn view(&self) -> ArgumentV {
        match self {
            Argument::Id(n) => ArgumentV::Id(n@),
            Argument::Item(n, i) => ArgumentV::Item(n@, *i),
        }
    }
}

/// The values of a list of arguments.
pub open spec fn args_view(v: Seq<Argument>) -> Seq<ArgumentV> {
    v.map_values(|a: Argument| a@)
}

/// The value of an expression.
pub open spec fn expr_view(e: Expression) -> ExpressionV
    decreases e,
{
    match e {
        Expression::Pi => ExpressionV::Pi,
        Expression::Id(n) => ExpressionV::Id(n@),
        Expression::Real(r) => ExpressionV::Real(r@),
        Expression::Int(i) => ExpressionV::Int(i),
        Expression::Op(o, l, r) => ExpressionV::Op(
            o,
            Box::new(expr_view(*l)),
            Box::new(expr_view(*r)),
        ),
        Expression::Function(f, a) => ExpressionV::Function(f, Box::new(expr_view(*a))),
        Expression::Minus(a) => ExpressionV::Minus(Box::new(expr_view(*a))),
    }
}

impl View for Expression {
    type V = ExpressionV;

    open spec fn view(&self) -> ExpressionV {
        expr_view(*self)
    }
}

/// The values of a list of expressions.
pub open spec fn exprs_view(v: Seq<Expression>) -> Seq<ExpressionV> {
    v.map_values(|e: Expression| e@)
}

impl View for UnitaryOperation {
    type V = UnitaryV;

    open spec fn view(&self) -> UnitaryV {
        UnitaryV { name: self.0@, reals: exprs_view(self.1@), args: args_view(self.2@) }
    }
}

impl View for GateOperation {
    type V = GateOperationV;

    open spec fn view(&self) -> GateOperationV {
        match self {
            GateOperation::Unitary(u) => GateOperationV::Unitary(u@),
            GateOperation::Barrier(b) => GateOperationV::Barrier(args_view(b.0@)),
        }
    }
}

/// The values of a list of gate operations.
pub open spec fn gate_ops_view(v: Seq<GateOperation>) -> Seq<GateOperationV> {
    v.map_values(|g: GateOperation| g@)
}

impl View for QuantumOperation {
    type V = QuantumOperationV;

    open spec fn view(&self) -> QuantumOperationV {
        match self {
            QuantumOperation::Unitary(u) => QuantumOperationV::Unitary(u@),
            QuantumOperation::Measure(a, b) => QuantumOperationV::Measure(a@, b@),
            QuantumOperation::Reset(a) => QuantumOperationV::Reset(a@),
        }
    }
}

impl View for Statement {
    type V = StatementV;

    open spec fn view(&self) -> StatementV {
        match self {
            Statement::QRegDecl(n, s) => StatementV::QRegDecl(n@, *s),
            Statement::CRegDecl(n, s) => StatementV::CRegDecl(n@, *s),
            Statement::GateDecl(n, r, a, b) => StatementV::GateDecl(
                n@,
                strings_view(r@),
                strings_view(a@),
                gate_ops_view(b@),
            ),
            Statement::Include(p) => StatementV::Include(p@),
            Statement::Barrier(b) => StatementV::Barrier(args_view(b.0@)),
            Statement::OpaqueGateDecl(n, r, a) => StatementV::OpaqueGateDecl(
                n@,
                strings_view(r@),
                strings_view(a@),
            ),
            Statement::QuantumOperation(q) => StatementV::QuantumOperation(q@),
            Statement::Conditional(a, v, q) => StatementV::Conditional(a@, *v, q@),
        }
    }
}

/// The value of a statement with its boundaries.
pub open spec fn span_view(s: Span<Statement>) -> SpannedV {
    SpannedV { start: s.boundaries.0.0 as int, end: s.boundaries.1.0 as int, node: (*s.node)@ }
}

/// The values of a list of statements with their boundaries.
pub open spec fn spans_view(v: Seq<Span<Statement>>) -> Seq<SpannedV> {
    v.map_values(|s: Span<Statement>| span_view(s))
}

/// The values of a list of statements.
pub open spec fn statements_view(v: Seq<Statement>) -> Seq<StatementV> {
    v.map_values(|s: Statement| s@)
}

impl View for OpenQasmProgram {
    type V = ProgramV;

    open spec fn view(&self) -> ProgramV {
        ProgramV { version: self.version@, program: spans_view(self.program@) }
    }
}

impl View for OpenQasmLibrary {
    type V = Seq<StatementV>;

    open spec fn view(&self) -> Seq<StatementV> {
        statements_view(self.definitions@)
    }
}

} // verus!

verus! {

// ---------------------------------------------------------------------------
// Copies that keep the value.
// ---------------------------------------------------------------------------

impl Argument {
    /// A copy of this argument.
    pub fn copy(&self) -> (r: Argument)
        ensures
            r@ == self@,
    {
        match self {
            Argument::Id(n) => Argument::Id(n.clone()),
            Argument::Item(n, i) => Argument::Item(n.clone(), *i),
        }
    }
}

impl Expression {
    /// A copy of this expression.
    pub fn copy(&self) -> (r: Expression)
        ensures
            r@ == self@,
        decreases self,
    {
        match self {
            Expression::Pi => Expression::Pi,
            Expression::Id(n) => Expression::Id(n.clone()),
            Expression::Real(t) => Expression::Real(t.clone()),
            Expression::Int(v) => Expression::Int(*v),
            Expression::Op(o, l, r) => Expression::Op(*o, Box::new(l.copy()), Box::new(r.copy())),
            Expression::Function(f, a) => Expression::Function(*f, Box::new(a.copy())),
            Expression::Minus(a) => Expression::Minus(Box::new(a.copy())),
        }
    }
}

/// A copy of a list of strings.
pub fn copy_strings(v: &Vec<String>) -> (r: Vec<String>)
    ensures
        strings_view(r@) == strings_view(v@),
{
    let mut r: Vec<String> = Vec::new();
    let mut i: usize = 0;
    while i < v.len()
        invariant
            i <= v@.len(),
            strings_view(r@) == strings_view(v@.take(i as int)),
        decreases v@.len() - i,
    {
        let ghost prev = r@;
        r.push(v[i].clone());
        assert(strings_view(r@) =~= strings_view(prev).push(v@[i as int]@));
        assert(strings_view(v@.take(i + 1)) =~= strings_view(v@.take(i as int)).push(
            v@[i as int]@,
        ));
        i += 1;
    }
    assert(v@.take(i as int) =~= v@);
    r
}

/// A copy of a list of arguments.
pub fn copy_args(v: &Vec<Argument>) -> (r: Vec<Argument>)
    ensures
        args_view(r@) == args_view(v@),
{
    let mut r: Vec<Argument> = Vec::new();
    let mut i: usize = 0;
    while i < v.len()
        invariant
            i <= v@.len(),
            args_view(r@) == args_view(v@.take(i as int)),
        decreases v@.len() - i,
    {
        let ghost prev = r@;
        r.push(v[i].copy());
        assert(args_view(r@) =~= args_view(prev).push(v@[i as int]@));
        assert(args_view(v@.take(i + 1)) =~= args_view(v@.take(i as int)).push(v@[i as int]@));
        i += 1;
    }
    assert(v@.take(i as int) =~= v@);
    r
}

/// A copy of a list of expressions.
pub fn copy_exprs(v: &Vec<Expression>) -> (r: Vec<Expression>)
    ensures
        exprs_view(r@) == exprs_view(v@),
{
    let mut r: Vec<Expression> = Vec::new();
    let mut i: usize = 0;
    while i < v.len()
        invariant
            i <= v@.len(),
            exprs_view(r@) == exprs_view(v@.take(i as int)),
        decreases v@.len() - i,
    {
        let ghost prev = r@;
        r.push(v[i].copy());
        assert(exprs_view(r@) =~= exprs_view(prev).push(v@[i as int]@));
        assert(exprs_view(v@.take(i + 1)) =~= exprs_view(v@.take(i as int)).push(v@[i as int]@));
        i += 1;
    }
    assert(v@.take(i as int) =~= v@);
    r
}

impl UnitaryOperation {
    /// A copy of this gate invocation.
    pub fn copy(&self) -> (r: UnitaryOperation)
        ensures
            r@ == self@,
    {
        UnitaryOperation(self.0.clone(), copy_exprs(&self.1), copy_args(&self.2))
    }
}

impl GateOperation {
    /// A copy of this gate operation.
    pub fn copy(&self) -> (r: GateOperation)
        ensures
            r@ == self@,
    {
        match self {
            GateOperation::Unitary(u) => GateOperation::Unitary(u.copy()),
            GateOperation::Barrier(b) => GateOperation::Barrier(BarrierPragma(copy_args(&b.0))),
        }
    }
}

/// A copy of a list of gate operations.
pub fn copy_gate_ops(v: &Vec<GateOperation>) -> (r: Vec<GateOperation>)
    ensures
        gate_ops_view(r@) == gate_ops_view(v@),
{
    let mut r: Vec<GateOperation> = Vec::new();
    let mut i: usize = 0;
    while i < v.len()
        invariant
            i <= v@.len(),
            gate_ops_view(r@) == gate_ops_view(v@.take(i as int)),
        decreases v@.len() - i,
    {
        let ghost prev = r@;
        r.push(v[i].copy());
        assert(gate_ops_view(r@) =~= gate_ops_view(prev).push(v@[i as int]@));
        assert(gate_ops_view(v@.take(i + 1)) =~= gate_ops_view(v@.take(i as int)).push(
            v@[i as int]@,
        ));
        i += 1;
    }
    assert(v@.take(i as int) =~= v@);
    r
}

} // verus!
