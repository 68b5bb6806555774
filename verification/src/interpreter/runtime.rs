//! The runtime: what each statement of a program does, as instructions for
//! a quantum simulator, and the errors it raises.
//!
//! Statements are compiled one by one. Gate calls are expanded down to the
//! primitive gates `U` and `CX`, whole registers are expanded into their
//! qubits and the real parameters of gates are substituted into the
//! expressions of gate bodies. What only a simulator can do (applying
//! gates to a state, measuring) is left to whoever runs the instructions;
//! the classical memory is kept here.
use vstd::prelude::*;

use crate::grammar::ast::{Argument, ArgumentV, Expression, ExpressionV, GateOperation, GateOperationV, OpenQasmProgram, ProgramV, QuantumOperation, QuantumOperationV, SpannedV, Statement, StatementV, UnitaryOperation, UnitaryV};
use crate::grammar::lexer::Location;
use crate::grammar::ast::{args_view, copy_args, copy_exprs, exprs_view, strings_view};
use crate::interpreter::argument_solver::{ArgumentSolver, bindings_view, resolve_argument};
use crate::semantics::{entry_size, layout_ok, lemma_memory_layout, quantum_within, register_laid_out, semantics_defined, semantics_of, MemoryV, QasmType, RegisterType, RegisterV, SemanticError, SemanticErrorV, Semantics, SemanticsV, lemma_names, table_view};
use crate::table::{assoc_insert, find, first_index, keys_of, lemma_first_index, lookup, names};
use crate::interpreter::computation::memory_view;
use crate::grammar::ast::{Span, span_view, spans_view};
use vstd::arithmetic::power2::pow2;

verus! {

/// Represent one of the possible errors that can happen during runtime.
#[non_exhaustive]
#[derive(Debug, Clone, PartialEq, Eq, Hash)]
pub enum RuntimeError {
    /// An unknown error.
    Other,
    /// A semantic error.
    SemanticError(SemanticError),
    /// Use of register index that does not fit the register size.
    IndexOutOfBounds {
        /// Abstract location in the code.
        location: Location,
        /// Name of the register.
        symbol_name: String,
        /// Index tried to access.
        index: usize,
        /// Size of the register.
        size: usize,
    },
    /// Use of an unknown/undeclared symbol.
    SymbolNotFound {
        /// Abstract location in the code.
        location: Location,
        /// Name of the unknown symbol.
        symbol_name: String,
        /// The expected type.
        expected: QasmType,
    },
    /// The attempt of applying an operation passing the wrong number of
    /// parameters.
    WrongNumberOfParameters {
        /// Indicate if the parameters are registers or real values.
        are_registers: bool,
        /// Abstract location in the code.
        location: Location,
        /// Name of the invoked gate.
        symbol_name: String,
        /// The number of expected parameters.
        expected: usize,
        /// The number of passed parameters.
        given: usize,
    },
    /// Use of an undefined gate.
    UndefinedGate {
        /// Abstract location in the code.
        location: Location,
        /// Name of the unknown gate.
        symbol_name: String,
    },
    /// Found an unexpected type of value.
    TypeMismatch {
        /// Abstract location in the code.
        location: Location,
        /// Name of the symbol with the wrong type.
        symbol_name: String,
        /// Expected type.
        expected: QasmType,
    },
    /// Registers of different sizes in one operation.
    RegisterSizeMismatch {
        /// Abstract location in the code.
        location: Location,
        /// Name of the operation.
        symbol_name: String,
        /// Sizes of the different registers involved.
        sizes: Vec<usize>,
    },
}

/// The value of a [`RuntimeError`].
pub enum RuntimeErrorV {
    Other,
    Semantic(SemanticErrorV),
    IndexOutOfBounds { location: usize, name: Seq<char>, index: usize, size: usize },
    SymbolNotFound { location: usize, name: Seq<char>, expected: QasmType },
    WrongNumberOfParameters {
        are_registers: bool,
        location: usize,
        name: Seq<char>,
        expected: usize,
        given: usize,
    },
    UndefinedGate { location: usize, name: Seq<char> },
    TypeMismatch { location: usize, name: Seq<char>, expected: QasmType },
    RegisterSizeMismatch { location: usize, name: Seq<char>, sizes: Seq<usize> },
}

impl View for RuntimeError {
    type V = RuntimeErrorV;

    open spec fn view(&self) -> RuntimeErrorV {
        match self {
            RuntimeError::Other => RuntimeErrorV::Other,
            RuntimeError::SemanticError(e) => RuntimeErrorV::Semantic(e@),
            RuntimeError::IndexOutOfBounds { location, symbol_name, index, size } =>
                RuntimeErrorV::IndexOutOfBounds {
                location: location.0,
                name: symbol_name@,
                index: *index,
                size: *size,
            },
            RuntimeError::SymbolNotFound { location, symbol_name, expected } =>
                RuntimeErrorV::SymbolNotFound {
                location: location.0,
                name: symbol_name@,
                expected: *expected,
            },
            RuntimeError::WrongNumberOfParameters {
                are_registers,
                location,
                symbol_name,
                expected,
                given,
            } => RuntimeErrorV::WrongNumberOfParameters {
                are_registers: *are_registers,
                location: location.0,
                name: symbol_name@,
                expected: *expected,
                given: *given,
            },
            RuntimeError::UndefinedGate { location, symbol_name } => RuntimeErrorV::UndefinedGate {
                location: location.0,
                name: symbol_name@,
            },
            RuntimeError::TypeMismatch { location, symbol_name, expected } =>
                RuntimeErrorV::TypeMismatch {
                location: location.0,
                name: symbol_name@,
                expected: *expected,
            },
            RuntimeError::RegisterSizeMismatch { location, symbol_name, sizes } =>
                RuntimeErrorV::RegisterSizeMismatch {
                location: location.0,
                name: symbol_name@,
                sizes: sizes@,
            },
        }
    }
}

impl RuntimeError {
    /// Wraps a semantic error.
    pub fn from_semantic_error(semantic_error: SemanticError) -> (r: RuntimeError)
        ensures
            r@ == RuntimeErrorV::Semantic(semantic_error@),
    {
        RuntimeError::SemanticError(semantic_error)
    }
}

/// A primitive operation for a quantum simulator.
#[derive(Debug, PartialEq)]
pub enum Instruction {
    /// Gate `U(theta, phi, lambda)` on the qubit; the three expressions
    /// hold no identifier.
    U(Expression, Expression, Expression, usize),
    /// Gate `CX` with a control and a target qubit.
    CX(usize, usize),
    /// Measuring a qubit into a bit of a classical register.
    Measure(usize, String, usize),
}

/// The value of an [`Instruction`].
pub enum InstructionV {
    U(ExpressionV, ExpressionV, ExpressionV, usize),
    CX(usize, usize),
    Measure(usize, Seq<char>, usize),
}

impl View for Instruction {
    type V = InstructionV;

    open spec fn view(&self) -> InstructionV {
        match self {
            Instruction::U(a, b, c, t) => InstructionV::U(a@, b@, c@, *t),
            Instruction::CX(c, t) => InstructionV::CX(*c, *t),
            Instruction::Measure(q, r, b) => InstructionV::Measure(*q, r@, *b),
        }
    }
}

/// The values of a list of instructions.
pub open spec fn instrs_view(v: Seq<Instruction>) -> Seq<InstructionV> {
    v.map_values(|i: Instruction| i@)
}

/// What a statement does: instructions, or the error it raises.
pub type Compiled = Result<Seq<InstructionV>, RuntimeErrorV>;

/// The value of an executable outcome.
pub open spec fn compiled_view(r: Result<Vec<Instruction>, RuntimeError>) -> Compiled {
    match r {
        Ok(v) => Ok(instrs_view(v@)),
        Err(e) => Err(e@),
    }
}

/// What a statement of a program does when it is run.
#[derive(Debug, PartialEq)]
pub enum Step {
    /// Instructions to run, or the error raised.
    Run(Result<Vec<Instruction>, RuntimeError>),
    /// The same, only when the classical register holds the value.
    Conditional(String, u64, Result<Vec<Instruction>, RuntimeError>),
}

/// The value of a [`Step`].
pub enum StepV {
    Run(Compiled),
    Conditional(Seq<char>, u64, Compiled),
}

impl View for Step {
    type V = StepV;

    open spec fn view(&self) -> StepV {
        match self {
            Step::Run(r) => StepV::Run(compiled_view(*r)),
            Step::Conditional(n, v, r) => StepV::Conditional(n@, *v, compiled_view(*r)),
        }
    }
}

/// How deep gate calls may nest in a program with symbols `sem`: as many
/// levels as there are gate definitions. A deeper call repeats a gate
/// inside its own expansion, which then has no end, as gate bodies hold no
/// condition.
pub open spec fn nesting_bound(sem: SemanticsV) -> nat {
    sem.macros.len()
}

/// The bindings while a gate body is expanded: none at the top level.
pub struct CtxV {
    pub in_macro: bool,
    pub reals: Seq<(Seq<char>, ExpressionV)>,
    pub args: Seq<(Seq<char>, ArgumentV)>,
}

/// The bindings at the top level of a program.
pub open spec fn top_ctx() -> CtxV {
    CtxV { in_macro: false, reals: Seq::empty(), args: Seq::empty() }
}

/// The register an argument refers to.
pub open spec fn register_name(a: ArgumentV) -> Seq<char> {
    match a {
        ArgumentV::Id(n) => n,
        ArgumentV::Item(n, _) => n,
    }
}

/// The error, if any, for `name` not being a register of kind `kind`.
pub open spec fn check_register(
    sem: SemanticsV,
    name: Seq<char>,
    kind: RegisterType,
    expected: QasmType,
    loc: usize,
) -> Option<RuntimeErrorV> {
    match lookup(sem.registers, name) {
        None => Some(RuntimeErrorV::SymbolNotFound { location: loc, name, expected }),
        Some(e) => if e.kind == kind {
            None
        } else {
            Some(RuntimeErrorV::TypeMismatch { location: loc, name, expected })
        },
    }
}

/// The first error for an argument of `args` that is not a quantum
/// register.
pub open spec fn check_quantum_all(sem: SemanticsV, args: Seq<ArgumentV>, loc: usize) -> Option<RuntimeErrorV>
    decreases args.len(),
{
    if args.len() == 0 {
        None
    } else {
        match check_register(
            sem,
            register_name(args[0]),
            RegisterType::Q,
            QasmType::QuantumRegister,
            loc,
        ) {
            Some(e) => Some(e),
            None => check_quantum_all(sem, args.skip(1), loc),
        }
    }
}

/// The actual arguments for `args`: themselves at the top level, what the
/// formal arguments are bound to inside a gate.
pub open spec fn resolve_args(ctx: CtxV, args: Seq<ArgumentV>, loc: usize) -> Result<Seq<ArgumentV>, RuntimeErrorV>
    decreases args.len(),
{
    if !ctx.in_macro || args.len() == 0 {
        Ok(args)
    } else {
        match crate::interpreter::argument_solver::resolve_argument(ctx.args, args[0]) {
            Err(n) => Err(
                RuntimeErrorV::SymbolNotFound {
                    location: loc,
                    name: n,
                    expected: QasmType::QuantumRegister,
                },
            ),
            Ok(b) => match resolve_args(ctx, args.skip(1), loc) {
                Ok(rest) => Ok(seq![b] + rest),
                Err(e) => Err(e),
            },
        }
    }
}

/// Expression `e` with its identifiers replaced by the expressions they are
/// bound to; the first identifier without a binding, from the left,
/// otherwise.
pub open spec fn subst(e: ExpressionV, reals: Seq<(Seq<char>, ExpressionV)>) -> Result<ExpressionV, Seq<char>>
    decreases e,
{
    match e {
        ExpressionV::Id(n) => match lookup(reals, n) {
            Some(x) => Ok(x),
            None => Err(n),
        },
        ExpressionV::Op(o, l, r) => match subst(*l, reals) {
            Err(n) => Err(n),
            Ok(l2) => match subst(*r, reals) {
                Err(n) => Err(n),
                Ok(r2) => Ok(ExpressionV::Op(o, Box::new(l2), Box::new(r2))),
            },
        },
        ExpressionV::Function(f, a) => match subst(*a, reals) {
            Err(n) => Err(n),
            Ok(a2) => Ok(ExpressionV::Function(f, Box::new(a2))),
        },
        ExpressionV::Minus(a) => match subst(*a, reals) {
            Err(n) => Err(n),
            Ok(a2) => Ok(ExpressionV::Minus(Box::new(a2))),
        },
        _ => Ok(e),
    }
}

/// The real parameters `exprs` with their identifiers replaced, or the error
/// for the first identifier without a binding.
pub open spec fn resolve_reals(ctx: CtxV, exprs: Seq<ExpressionV>, loc: usize) -> Result<Seq<ExpressionV>, RuntimeErrorV>
    decreases exprs.len(),
{
    if exprs.len() == 0 {
        Ok(Seq::empty())
    } else {
        match subst(exprs[0], ctx.reals) {
            Err(n) => Err(
                RuntimeErrorV::SymbolNotFound { location: loc, name: n, expected: QasmType::RealValue },
            ),
            Ok(x) => match resolve_reals(ctx, exprs.skip(1), loc) {
                Ok(rest) => Ok(seq![x] + rest),
                Err(e) => Err(e),
            },
        }
    }
}

/// The sizes of the whole registers among `args`, in order.
pub open spec fn whole_sizes(sem: SemanticsV, args: Seq<ArgumentV>) -> Seq<usize>
    decreases args.len(),
{
    if args.len() == 0 {
        Seq::empty()
    } else {
        (match args[0] {
            ArgumentV::Id(n) => seq![lookup(sem.registers, n).unwrap().size],
            ArgumentV::Item(_, _) => Seq::empty(),
        }) + whole_sizes(sem, args.skip(1))
    }
}

/// How many times an operation on `args` is applied: once per qubit of the
/// whole registers, which must have the same size, or once if there is
/// none; the sizes otherwise.
pub open spec fn expansion_count(sem: SemanticsV, args: Seq<ArgumentV>) -> Result<nat, Seq<usize>> {
    let sizes = whole_sizes(sem, args);
    if sizes.len() == 0 {
        Ok(1)
    } else if forall|i: int| 0 <= i < sizes.len() ==> #[trigger] sizes[i] == sizes[0] {
        Ok(sizes[0] as nat)
    } else {
        Err(sizes)
    }
}

/// `args` with each whole register replaced by its component `k`.
pub open spec fn specify(args: Seq<ArgumentV>, k: usize) -> Seq<ArgumentV> {
    args.map_values(
        |a: ArgumentV|
            match a {
                ArgumentV::Id(n) => ArgumentV::Item(n, k),
                ArgumentV::Item(n, i) => ArgumentV::Item(n, i),
            },
    )
}

/// Where component `a` of a register lives in memory.
pub open spec fn bit_mapping(sem: SemanticsV, a: ArgumentV, loc: usize) -> Result<usize, RuntimeErrorV> {
    match a {
        ArgumentV::Item(n, idx) => match lookup(sem.memory, n) {
            None => Err(
                RuntimeErrorV::SymbolNotFound { location: loc, name: n, expected: QasmType::Register },
            ),
            Some(e) => if idx >= entry_size(e) {
                Err(
                    RuntimeErrorV::IndexOutOfBounds {
                        location: loc,
                        name: n,
                        index: idx,
                        size: entry_size(e) as usize,
                    },
                )
            } else {
                Ok((e.start + idx) as usize)
            },
        },
        ArgumentV::Id(_) => Err(RuntimeErrorV::Other),
    }
}

/// The first `n` formal names bound to the first `n` values, a later name
/// replacing an equal earlier one.
pub open spec fn zip_bindings<X>(formals: Seq<Seq<char>>, vals: Seq<X>, n: nat) -> Seq<(Seq<char>, X)>
    decreases n,
{
    if n == 0 {
        Seq::empty()
    } else {
        assoc_insert(zip_bindings(formals, vals, (n - 1) as nat), formals[n - 1], vals[n - 1])
    }
}

/// Concatenates two outcomes, the first error winning.
pub open spec fn then(a: Compiled, b: Compiled) -> Compiled {
    match a {
        Err(e) => Err(e),
        Ok(x) => match b {
            Err(e) => Err(e),
            Ok(y) => Ok(x + y),
        },
    }
}

/// A gate invocation `u`, with bindings `ctx`, at the statement starting at
/// `loc`.
pub open spec fn c_unitary(sem: SemanticsV, ctx: CtxV, u: UnitaryV, loc: usize, depth: nat) -> Compiled
    decreases depth, 2nat, 0nat,
{
    match resolve_args(ctx, u.args, loc) {
        Err(e) => Err(e),
        Ok(actual) => match check_quantum_all(sem, actual, loc) {
            Some(e) => Err(e),
            None => match resolve_reals(ctx, u.reals, loc) {
                Err(e) => Err(e),
                Ok(reals) => match expansion_count(sem, actual) {
                    Err(sizes) => Err(
                        RuntimeErrorV::RegisterSizeMismatch { location: loc, name: u.name, sizes },
                    ),
                    Ok(n) => c_expansions(sem, u.name, reals, actual, n, 0, loc, depth),
                },
            },
        },
    }
}

/// The applications `k` to `n` of gate `name` to the components of `args`.
pub open spec fn c_expansions(
    sem: SemanticsV,
    name: Seq<char>,
    reals: Seq<ExpressionV>,
    args: Seq<ArgumentV>,
    n: nat,
    k: nat,
    loc: usize,
    depth: nat,
) -> Compiled
    decreases depth, 1nat, n - k,
{
    if k >= n {
        Ok(Seq::empty())
    } else {
        then(
            c_one_gate(sem, name, reals, specify(args, k as usize), loc, depth),
            c_expansions(sem, name, reals, args, n, k + 1, loc, depth),
        )
    }
}

/// One application of gate `name` to components of registers: a primitive
/// gate, or the body of a gate definition with its parameters bound.
pub open spec fn c_one_gate(
    sem: SemanticsV,
    name: Seq<char>,
    reals: Seq<ExpressionV>,
    args: Seq<ArgumentV>,
    loc: usize,
    depth: nat,
) -> Compiled
    decreases depth, 0nat, 0nat,
{
    if name == "U"@ {
        match bit_mapping(sem, args[0], loc) {
            Err(e) => Err(e),
            Ok(t) => Ok(seq![InstructionV::U(reals[0], reals[1], reals[2], t)]),
        }
    } else if name == "CX"@ {
        match bit_mapping(sem, args[0], loc) {
            Err(e) => Err(e),
            Ok(c) => match bit_mapping(sem, args[1], loc) {
                Err(e) => Err(e),
                Ok(t) => Ok(seq![InstructionV::CX(c, t)]),
            },
        }
    } else {
        match lookup(sem.macros, name) {
            None => Err(RuntimeErrorV::UndefinedGate { location: loc, name }),
            Some(def) => if reals.len() != def.reals.len() {
                Err(
                    RuntimeErrorV::WrongNumberOfParameters {
                        are_registers: false,
                        location: loc,
                        name,
                        expected: def.reals.len() as usize,
                        given: reals.len() as usize,
                    },
                )
            } else if args.len() != def.args.len() {
                Err(
                    RuntimeErrorV::WrongNumberOfParameters {
                        are_registers: true,
                        location: loc,
                        name,
                        expected: def.args.len() as usize,
                        given: args.len() as usize,
                    },
                )
            } else if depth == 0 {
                Err(RuntimeErrorV::Other)
            } else {
                c_ops(
                    sem,
                    CtxV {
                        in_macro: true,
                        reals: zip_bindings(def.reals, reals, reals.len()),
                        args: zip_bindings(def.args, args, args.len()),
                    },
                    def.body,
                    0,
                    loc,
                    (depth - 1) as nat,
                )
            },
        }
    }
}

/// The operations `i..` of a gate body; barriers do nothing.
pub open spec fn c_ops(
    sem: SemanticsV,
    ctx: CtxV,
    body: Seq<GateOperationV>,
    i: nat,
    loc: usize,
    depth: nat,
) -> Compiled
    decreases depth, 3nat, body.len() - i,
{
    if i >= body.len() {
        Ok(Seq::empty())
    } else {
        match body[i as int] {
            GateOperationV::Unitary(u) => then(
                c_unitary(sem, ctx, u, loc, depth),
                c_ops(sem, ctx, body, i + 1, loc, depth),
            ),
            GateOperationV::Barrier(_) => c_ops(sem, ctx, body, i + 1, loc, depth),
        }
    }
}

/// The measurements `k` to `n` of the components of `a` into `b`.
pub open spec fn c_measurements(
    sem: SemanticsV,
    a: ArgumentV,
    b: ArgumentV,
    n: nat,
    k: nat,
    loc: usize,
) -> Compiled
    decreases n - k,
{
    if k >= n {
        Ok(Seq::empty())
    } else {
        let args = specify(seq![a, b], k as usize);
        match bit_mapping(sem, args[0], loc) {
            Err(e) => Err(e),
            Ok(q) => match bit_mapping(sem, args[1], loc) {
                Err(e) => Err(e),
                Ok(t) => then(
                    Ok(seq![InstructionV::Measure(q, register_name(b), t)]),
                    c_measurements(sem, a, b, n, k + 1, loc),
                ),
            },
        }
    }
}

/// Measuring quantum register or qubit `a` into classical register or bit
/// `b`.
pub open spec fn c_measure(sem: SemanticsV, a: ArgumentV, b: ArgumentV, loc: usize) -> Compiled {
    match check_register(sem, register_name(a), RegisterType::Q, QasmType::QuantumRegister, loc) {
        Some(e) => Err(e),
        None => match check_register(
            sem,
            register_name(b),
            RegisterType::C,
            QasmType::ClassicalRegister,
            loc,
        ) {
            Some(e) => Err(e),
            None => match expansion_count(sem, seq![a, b]) {
                Err(sizes) => Err(
                    RuntimeErrorV::RegisterSizeMismatch { location: loc, name: "measure"@, sizes },
                ),
                Ok(n) => c_measurements(sem, a, b, n, 0, loc),
            },
        },
    }
}

/// A quantum operation at the statement starting at `loc`; a reset does
/// nothing.
pub open spec fn c_qop(sem: SemanticsV, op: QuantumOperationV, loc: usize) -> Compiled {
    match op {
        QuantumOperationV::Unitary(u) => c_unitary(sem, top_ctx(), u, loc, nesting_bound(sem)),
        QuantumOperationV::Measure(a, b) => c_measure(sem, a, b, loc),
        QuantumOperationV::Reset(_) => Ok(Seq::empty()),
    }
}

/// What statement `s` does: quantum operations act, conditional ones after
/// checking their register; declarations and other statements do nothing.
pub open spec fn c_statement(sem: SemanticsV, s: SpannedV) -> StepV {
    let loc = s.start as usize;
    match s.node {
        StatementV::QuantumOperation(op) => StepV::Run(c_qop(sem, op, loc)),
        StatementV::Conditional(a, v, op) => match check_register(
            sem,
            register_name(a),
            RegisterType::C,
            QasmType::ClassicalRegister,
            loc,
        ) {
            Some(e) => StepV::Run(Err(e)),
            None => StepV::Conditional(register_name(a), v, c_qop(sem, op, loc)),
        },
        _ => StepV::Run(Ok(Seq::empty())),
    }
}

/// What each statement of program `p` does.
pub open spec fn compile_program(sem: SemanticsV, p: ProgramV) -> Seq<StepV> {
    p.program.map_values(|s: SpannedV| c_statement(sem, s))
}

} // verus!

verus! {

/// The value of an optional error.
pub open spec fn opt_error_view(r: Option<RuntimeError>) -> Option<RuntimeErrorV> {
    match r {
        Some(e) => Some(e@),
        None => None,
    }
}

/// The bindings while a gate body is expanded.
pub struct Ctx {
    pub in_macro: bool,
    pub reals: Vec<(String, Expression)>,
    pub args: Vec<(String, Argument)>,
}

impl View for Ctx {
    type V = CtxV;

    open spec fn view(&self) -> CtxV {
        CtxV { in_macro: self.in_macro, reals: table_view(self.reals@), args: table_view(self.args@) }
    }
}

/// The entry of register `name`, if declared.
fn register_entry<'a>(sem: &'a Semantics, name: &String) -> (r: Option<&'a crate::semantics::RegisterEntry>)
    ensures
        match r {
            Some(e) => lookup(sem@.registers, name@) == Some(e@),
            None => lookup(sem@.registers, name@) is None,
        },
{
    proof {
        lemma_names(sem.register_table@);
    }
    match find(&sem.register_table, name) {
        Some(i) => Some(&sem.register_table[i].1),
        None => None,
    }
}

/// The error, if any, for `name` not being a register of kind `kind`.
fn check_register_exec(
    sem: &Semantics,
    name: &String,
    kind: RegisterType,
    expected: QasmType,
    loc: Location,
) -> (r: Option<RuntimeError>)
    ensures
        opt_error_view(r) == check_register(sem@, name@, kind, expected, loc.0),
{
    match register_entry(sem, name) {
        None => Some(RuntimeError::SymbolNotFound { location: loc, symbol_name: name.clone(), expected }),
        Some(e) => {
            if e.1 == kind {
                None
            } else {
                Some(RuntimeError::TypeMismatch { location: loc, symbol_name: name.clone(), expected })
            }
        },
    }
}

/// The register an argument refers to.
fn register_name_of(a: &Argument) -> (r: &String)
    ensures
        r@ == register_name(a@),
{
    match a {
        Argument::Id(n) => n,
        Argument::Item(n, _) => n,
    }
}

/// Every argument of `args` names a declared register.
pub open spec fn all_registered(sem: SemanticsV, args: Seq<ArgumentV>) -> bool {
    forall|i: int| 0 <= i < args.len() ==> lookup(sem.registers, register_name(#[trigger] args[i])) is Some
}

/// The first error for an argument of `args` that is not a quantum register.
fn check_quantum_all_exec(sem: &Semantics, args: &Vec<Argument>, loc: Location) -> (r: Option<RuntimeError>)
    ensures
        opt_error_view(r) == check_quantum_all(sem@, args_view(args@), loc.0),
        r is None ==> all_registered(sem@, args_view(args@)),
{
    let ghost av = args_view(args@);
    let mut k: usize = 0;
    assert(av.skip(0) =~= av);
    while k < args.len()
        invariant
            av == args_view(args@),
            k <= args@.len(),
            check_quantum_all(sem@, av.skip(k as int), loc.0) == check_quantum_all(sem@, av, loc.0),
            forall|i: int| 0 <= i < k ==> lookup(sem@.registers, register_name(#[trigger] av[i])) is Some,
        decreases args@.len() - k,
    {
        assert(av.skip(k as int)[0] == args@[k as int]@);
        assert(av.skip(k as int).skip(1) =~= av.skip(k + 1));
        match check_register_exec(sem, register_name_of(&args[k]), RegisterType::Q, QasmType::QuantumRegister, loc) {
            Some(e) => {
                return Some(e);
            },
            None => {},
        }
        k += 1;
    }
    assert(av.skip(k as int) =~= Seq::<ArgumentV>::empty());
    None
}

/// The actual arguments for `args` under `ctx`.
fn resolve_args_exec(ctx: &Ctx, args: &Vec<Argument>, loc: Location) -> (r: Result<Vec<Argument>, RuntimeError>)
    ensures
        match resolve_args(ctx@, args_view(args@), loc.0) {
            Ok(v) => r matches Ok(x) && args_view(x@) == v,
            Err(e) => r matches Err(x) && x@ == e,
        },
        r matches Ok(x) ==> x@.len() == args@.len(),
{
    if !ctx.in_macro {
        return Ok(copy_args(args));
    }
    let solver = ArgumentSolver::new(&ctx.args);
    assert(solver.bindings() =~= ctx@.args);
    let ghost av = args_view(args@);
    let mut out: Vec<Argument> = Vec::new();
    let mut k: usize = 0;
    assert(av.skip(0) =~= av);
    assert(args_view(out@) =~= Seq::<ArgumentV>::empty());
    while k < args.len()
        invariant
            av == args_view(args@),
            ctx@.in_macro,
            solver.bindings() == ctx@.args,
            k <= args@.len(),
            out@.len() == k,
            match resolve_args(ctx@, av.skip(k as int), loc.0) {
                Ok(v) => resolve_args(ctx@, av, loc.0) == Ok::<Seq<ArgumentV>, RuntimeErrorV>(
                    args_view(out@) + v,
                ),
                Err(e) => resolve_args(ctx@, av, loc.0) == Err::<Seq<ArgumentV>, RuntimeErrorV>(e),
            },
        decreases args@.len() - k,
    {
        assert(av.skip(k as int)[0] == args@[k as int]@);
        assert(av.skip(k as int).skip(1) =~= av.skip(k + 1));
        match solver.try_solve(&args[k]) {
            Err(n) => {
                return Err(
                    RuntimeError::SymbolNotFound {
                        location: loc,
                        symbol_name: n,
                        expected: QasmType::QuantumRegister,
                    },
                );
            },
            Ok(b) => {
                let ghost prev = args_view(out@);
                let ghost bv = b@;
                out.push(b);
                assert(args_view(out@) =~= prev.push(bv));
                proof {
                    match resolve_args(ctx@, av.skip(k + 1), loc.0) {
                        Ok(v) => {
                            assert(args_view(out@) + v =~= prev + (seq![bv] + v));
                        },
                        Err(e) => {},
                    }
                }
            },
        }
        k += 1;
    }
    assert(av.skip(k as int) =~= Seq::<ArgumentV>::empty());
    assert(args_view(out@) + Seq::<ArgumentV>::empty() =~= args_view(out@));
    Ok(out)
}

/// The expression bound to `name` in `reals`, if any.
fn real_binding<'a>(reals: &'a Vec<(String, Expression)>, name: &String) -> (r: Option<&'a Expression>)
    ensures
        match r {
            Some(e) => lookup(table_view(reals@), name@) == Some(e@),
            None => lookup(table_view(reals@), name@) is None,
        },
{
    proof {
        lemma_names(reals@);
    }
    match find(reals, name) {
        Some(i) => Some(&reals[i].1),
        None => None,
    }
}

/// Expression `e` with its identifiers replaced by their bindings.
fn subst_exec(e: &Expression, reals: &Vec<(String, Expression)>) -> (r: Result<Expression, String>)
    ensures
        match subst(e@, table_view(reals@)) {
            Ok(x) => r matches Ok(y) && y@ == x,
            Err(n) => r matches Err(y) && y@ == n,
        },
    decreases e,
{
    match e {
        Expression::Id(n) => match real_binding(reals, n) {
            Some(x) => Ok(x.copy()),
            None => Err(n.clone()),
        },
        Expression::Op(o, l, r) => match subst_exec(l, reals) {
            Err(n) => Err(n),
            Ok(l2) => match subst_exec(r, reals) {
                Err(n) => Err(n),
                Ok(r2) => Ok(Expression::Op(*o, Box::new(l2), Box::new(r2))),
            },
        },
        Expression::Function(f, a) => match subst_exec(a, reals) {
            Err(n) => Err(n),
            Ok(a2) => Ok(Expression::Function(*f, Box::new(a2))),
        },
        Expression::Minus(a) => match subst_exec(a, reals) {
            Err(n) => Err(n),
            Ok(a2) => Ok(Expression::Minus(Box::new(a2))),
        },
        _ => Ok(e.copy()),
    }
}

/// The real parameters `exprs` with their identifiers replaced.
fn resolve_reals_exec(ctx: &Ctx, exprs: &Vec<Expression>, loc: Location) -> (r: Result<Vec<Expression>, RuntimeError>)
    ensures
        match resolve_reals(ctx@, exprs_view(exprs@), loc.0) {
            Ok(v) => r matches Ok(x) && exprs_view(x@) == v,
            Err(e) => r matches Err(x) && x@ == e,
        },
        r matches Ok(x) ==> x@.len() == exprs@.len(),
{
    let ghost ev = exprs_view(exprs@);
    let mut out: Vec<Expression> = Vec::new();
    let mut k: usize = 0;
    assert(ev.skip(0) =~= ev);
    assert(exprs_view(out@) =~= Seq::<ExpressionV>::empty());
    while k < exprs.len()
        invariant
            ev == exprs_view(exprs@),
            k <= exprs@.len(),
            out@.len() == k,
            match resolve_reals(ctx@, ev.skip(k as int), loc.0) {
                Ok(v) => resolve_reals(ctx@, ev, loc.0) == Ok::<Seq<ExpressionV>, RuntimeErrorV>(
                    exprs_view(out@) + v,
                ),
                Err(e) => resolve_reals(ctx@, ev, loc.0) == Err::<Seq<ExpressionV>, RuntimeErrorV>(e),
            },
        decreases exprs@.len() - k,
    {
        assert(ev.skip(k as int)[0] == exprs@[k as int]@);
        assert(ev.skip(k as int).skip(1) =~= ev.skip(k + 1));
        match subst_exec(&exprs[k], &ctx.reals) {
            Err(n) => {
                return Err(
                    RuntimeError::SymbolNotFound {
                        location: loc,
                        symbol_name: n,
                        expected: QasmType::RealValue,
                    },
                );
            },
            Ok(x) => {
                let ghost prev = exprs_view(out@);
                let ghost xv = x@;
                out.push(x);
                assert(exprs_view(out@) =~= prev.push(xv));
                proof {
                    match resolve_reals(ctx@, ev.skip(k + 1), loc.0) {
                        Ok(v) => {
                            assert(exprs_view(out@) + v =~= prev + (seq![xv] + v));
                        },
                        Err(e) => {},
                    }
                }
            },
        }
        k += 1;
    }
    assert(ev.skip(k as int) =~= Seq::<ExpressionV>::empty());
    assert(exprs_view(out@) + Seq::<ExpressionV>::empty() =~= exprs_view(out@));
    Ok(out)
}

} // verus!

verus! {

/// The sizes of the whole registers among `args`.
fn whole_sizes_exec(sem: &Semantics, args: &Vec<Argument>) -> (r: Vec<usize>)
    requires
        all_registered(sem@, args_view(args@)),
    ensures
        r@ == whole_sizes(sem@, args_view(args@)),
{
    let ghost av = args_view(args@);
    let mut out: Vec<usize> = Vec::new();
    let mut k: usize = 0;
    assert(av.skip(0) =~= av);
    while k < args.len()
        invariant
            av == args_view(args@),
            all_registered(sem@, av),
            k <= args@.len(),
            out@ + whole_sizes(sem@, av.skip(k as int)) == whole_sizes(sem@, av),
        decreases args@.len() - k,
    {
        assert(av.skip(k as int)[0] == args@[k as int]@);
        assert(av.skip(k as int).skip(1) =~= av.skip(k + 1));
        let ghost prev = out@;
        match &args[k] {
            Argument::Id(n) => {
                assert(lookup(sem@.registers, register_name(av[k as int])) is Some);
                match register_entry(sem, n) {
                    Some(e) => {
                        out.push(e.2);
                        assert(out@ + whole_sizes(sem@, av.skip(k + 1)) =~= prev + (seq![e.2]
                            + whole_sizes(sem@, av.skip(k + 1))));
                    },
                    None => {},
                }
            },
            Argument::Item(_, _) => {
                assert(Seq::<usize>::empty() + whole_sizes(sem@, av.skip(k + 1)) =~= whole_sizes(
                    sem@,
                    av.skip(k + 1),
                ));
            },
        }
        k += 1;
    }
    assert(av.skip(k as int) =~= Seq::<ArgumentV>::empty());
    assert(out@ + Seq::<usize>::empty() =~= out@);
    out
}

/// How many times an operation on `args` is applied, or the sizes of its
/// whole registers when they differ.
fn expansion_count_exec(sem: &Semantics, args: &Vec<Argument>) -> (r: Result<usize, Vec<usize>>)
    requires
        all_registered(sem@, args_view(args@)),
    ensures
        match expansion_count(sem@, args_view(args@)) {
            Ok(n) => r matches Ok(x) && x as nat == n,
            Err(sizes) => r matches Err(x) && x@ == sizes,
        },
{
    let sizes = whole_sizes_exec(sem, args);
    if sizes.len() == 0 {
        return Ok(1);
    }
    let reference = sizes[0];
    let mut k: usize = 1;
    while k < sizes.len()
        invariant
            1 <= k <= sizes@.len(),
            sizes@ == whole_sizes(sem@, args_view(args@)),
            reference == sizes@[0],
            forall|i: int| 0 <= i < k ==> #[trigger] sizes@[i] == reference,
        decreases sizes@.len() - k,
    {
        if sizes[k] != reference {
            assert(sizes@[k as int] != sizes@[0]);
            return Err(sizes);
        }
        k += 1;
    }
    Ok(reference)
}

/// `args` with each whole register replaced by its component `k`.
fn specify_exec(args: &Vec<Argument>, k: usize) -> (r: Vec<Argument>)
    ensures
        args_view(r@) == specify(args_view(args@), k),
{
    let mut out: Vec<Argument> = Vec::new();
    let mut i: usize = 0;
    while i < args.len()
        invariant
            i <= args@.len(),
            args_view(out@) == specify(args_view(args@), k).take(i as int),
        decreases args@.len() - i,
    {
        let a = match &args[i] {
            Argument::Id(n) => Argument::Item(n.clone(), k),
            Argument::Item(n, j) => Argument::Item(n.clone(), *j),
        };
        let ghost prev = args_view(out@);
        let ghost sp = specify(args_view(args@), k);
        assert(sp[i as int] == a@);
        let ghost av = a@;
        out.push(a);
        assert(args_view(out@) =~= prev.push(av));
        assert(sp.take(i + 1) =~= sp.take(i as int).push(sp[i as int]));
        i += 1;
    }
    assert(specify(args_view(args@), k).take(i as int) =~= specify(args_view(args@), k));
    out
}

/// Where component `a` of a register lives in memory.
fn bit_mapping_exec(sem: &Semantics, a: &Argument, loc: Location) -> (r: Result<usize, RuntimeError>)
    ensures
        match bit_mapping(sem@, a@, loc.0) {
            Ok(x) => r == Ok::<usize, RuntimeError>(x),
            Err(e) => r matches Err(y) && y@ == e,
        },
{
    match a {
        Argument::Item(name, index) => {
            proof {
                lemma_names(sem.memory_map@);
            }
            match find(&sem.memory_map, name) {
                None => Err(
                    RuntimeError::SymbolNotFound {
                        location: loc,
                        symbol_name: name.clone(),
                        expected: QasmType::Register,
                    },
                ),
                Some(i) => {
                    let start = sem.memory_map[i].1.1;
                    let end = sem.memory_map[i].1.2;
                    if end < start {
                        Err(
                            RuntimeError::IndexOutOfBounds {
                                location: loc,
                                symbol_name: name.clone(),
                                index: *index,
                                size: 0,
                            },
                        )
                    } else {
                        let span = end - start;
                        if *index > span {
                            Err(
                                RuntimeError::IndexOutOfBounds {
                                    location: loc,
                                    symbol_name: name.clone(),
                                    index: *index,
                                    size: span + 1,
                                },
                            )
                        } else {
                            Ok(start + *index)
                        }
                    }
                },
            }
        },
        Argument::Id(_) => Err(RuntimeError::Other),
    }
}

/// Sets `k` to `v` in table `t`.
fn set_binding<T: View>(t: &mut Vec<(String, T)>, k: String, v: T)
    ensures
        table_view(final(t)@) == assoc_insert(table_view(old(t)@), k@, v@),
{
    proof {
        lemma_names(t@);
    }
    let ghost prev = t@;
    let ghost kv = k@;
    let ghost vv = v@;
    match find(t, &k) {
        Some(i) => {
            t.set(i, (k, v));
            assert(table_view(t@) =~= table_view(prev).update(i as int, (kv, vv)));
        },
        None => {
            t.push((k, v));
            assert(table_view(t@) =~= table_view(prev).push((kv, vv)));
        },
    }
}

/// The values of a list.
pub open spec fn values_view<T: View>(v: Seq<T>) -> Seq<T::V> {
    v.map_values(|x: T| x@)
}

/// The formal names `formals` bound to `vals`, in order.
fn bind_all<T: View>(formals: &Vec<String>, vals: Vec<T>) -> (r: Vec<(String, T)>)
    requires
        formals@.len() == vals@.len(),
    ensures
        table_view(r@) == zip_bindings(strings_view(formals@), values_view(vals@), vals@.len()),
{
    let ghost fv = strings_view(formals@);
    let ghost vv = values_view(vals@);
    let ghost n = vals@.len();
    let mut rest = vals;
    let mut out: Vec<(String, T)> = Vec::new();
    let mut k: usize = 0;
    assert(table_view(out@) =~= Seq::<(Seq<char>, T::V)>::empty());
    while k < formals.len()
        invariant
            fv == strings_view(formals@),
            n == formals@.len(),
            vv.len() == n,
            k <= n,
            values_view(rest@) == vv.skip(k as int),
            table_view(out@) == zip_bindings(fv, vv, k as nat),
        decreases n - k,
    {
        let ghost before = values_view(rest@);
        let ghost old_rest = rest@;
        assert(rest@.len() == before.len());
        let v = rest.remove(0);
        assert(v == old_rest[0]);
        assert(before[0] == v@);
        assert(values_view(rest@) =~= before.skip(1));
        assert(vv.skip(k as int).skip(1) =~= vv.skip(k + 1));
        assert(vv[k as int] == before[0]);
        set_binding(&mut out, formals[k].clone(), v);
        k += 1;
    }
    out
}

} // verus!

verus! {

/// Gate invocation `u` names a primitive gate only with the parameters and
/// arguments that gate takes.
pub open spec fn unitary_wf(u: UnitaryV) -> bool {
    &&& u.name == "U"@ ==> u.reals.len() >= 3 && u.args.len() >= 1
    &&& u.name == "CX"@ ==> u.args.len() >= 2
}

/// Every gate invocation of a gate body is well formed.
pub open spec fn body_wf(body: Seq<GateOperationV>) -> bool {
    forall|i: int| 0 <= i < body.len() ==> (#[trigger] body[i] matches GateOperationV::Unitary(u) ==> unitary_wf(u))
}

/// Every gate body of `sem` is well formed.
pub open spec fn macros_wf(sem: SemanticsV) -> bool {
    forall|i: int| 0 <= i < sem.macros.len() ==> body_wf(#[trigger] sem.macros[i].1.body)
}

/// Running `a` after the instructions `x`.
proof fn lemma_then_assoc(x: Seq<InstructionV>, a: Compiled, b: Compiled)
    ensures
        then(Ok(x), then(a, b)) == (match a {
            Err(e) => Err(e),
            Ok(y) => then(Ok(x + y), b),
        }),
{
    match a {
        Err(e) => {},
        Ok(y) => match b {
            Err(e) => {},
            Ok(z) => {
                assert(x + (y + z) =~= (x + y) + z);
            },
        },
    }
}

/// Nothing before an outcome changes it.
proof fn lemma_then_empty(a: Compiled)
    ensures
        then(Ok(Seq::empty()), a) == a,
{
    match a {
        Ok(y) => {
            assert(Seq::<InstructionV>::empty() + y =~= y);
        },
        Err(e) => {},
    }
}

/// The definition of gate `name`, with the position of its entry.
fn macro_entry<'a>(sem: &'a Semantics, name: &String) -> (r: Option<&'a crate::semantics::MacroDefinition>)
    ensures
        match r {
            Some(d) => lookup(sem@.macros, name@) == Some(d@),
            None => lookup(sem@.macros, name@) is None,
        },
        r is Some ==> exists|i: int| 0 <= i < sem@.macros.len() && sem@.macros[i].1 == r.unwrap()@,
{
    proof {
        lemma_names(sem.macro_definitions@);
    }
    match find(&sem.macro_definitions, name) {
        Some(i) => Some(&sem.macro_definitions[i].1),
        None => None,
    }
}

/// Appends the instructions of `x` to `acc`.
fn append_instrs(acc: &mut Vec<Instruction>, x: Vec<Instruction>)
    ensures
        instrs_view(final(acc)@) == instrs_view(old(acc)@) + instrs_view(x@),
{
    let mut y = x;
    let ghost a0 = instrs_view(acc@);
    let ghost y0 = instrs_view(y@);
    acc.append(&mut y);
    assert(instrs_view(acc@) =~= a0 + y0);
}

/// A gate invocation `u`, with bindings `ctx`.
fn c_unitary_exec(sem: &Semantics, ctx: &Ctx, u: &UnitaryOperation, loc: Location, depth: usize) -> (r: Result<Vec<Instruction>, RuntimeError>)
    requires
        unitary_wf(u@),
        macros_wf(sem@),
    ensures
        compiled_view(r) == c_unitary(sem@, ctx@, u@, loc.0, depth as nat),
    decreases depth, 2nat,
{
    let actual = match resolve_args_exec(ctx, &u.2, loc) {
        Err(e) => return Err(e),
        Ok(a) => a,
    };
    match check_quantum_all_exec(sem, &actual, loc) {
        Some(e) => return Err(e),
        None => {},
    }
    let reals = match resolve_reals_exec(ctx, &u.1, loc) {
        Err(e) => return Err(e),
        Ok(r) => r,
    };
    let n = match expansion_count_exec(sem, &actual) {
        Err(sizes) => {
            return Err(
                RuntimeError::RegisterSizeMismatch { location: loc, symbol_name: u.0.clone(), sizes },
            );
        },
        Ok(n) => n,
    };
    let ghost rv = exprs_view(reals@);
    let ghost av = args_view(actual@);
    let mut acc: Vec<Instruction> = Vec::new();
    let mut k: usize = 0;
    proof {
        lemma_then_empty(c_expansions(sem@, u@.name, rv, av, n as nat, 0, loc.0, depth as nat));
        assert(instrs_view(acc@) =~= Seq::<InstructionV>::empty());
    }
    assert(c_unitary(sem@, ctx@, u@, loc.0, depth as nat) == c_expansions(sem@, u@.name, rv, av, n as nat, 0, loc.0, depth as nat));
    while k < n
        invariant
            c_unitary(sem@, ctx@, u@, loc.0, depth as nat) == c_expansions(sem@, u@.name, rv, av, n as nat, 0, loc.0, depth as nat),
            unitary_wf(u@),
            macros_wf(sem@),
            rv == exprs_view(reals@),
            av == args_view(actual@),
            u@.name == "U"@ ==> rv.len() >= 3 && av.len() >= 1,
            u@.name == "CX"@ ==> av.len() >= 2,
            k <= n,
            then(Ok(instrs_view(acc@)), c_expansions(sem@, u@.name, rv, av, n as nat, k as nat, loc.0, depth as nat))
                == c_expansions(sem@, u@.name, rv, av, n as nat, 0, loc.0, depth as nat),
        decreases n - k,
    {
        let args_k = specify_exec(&actual, k);
        assert(c_expansions(sem@, u@.name, rv, av, n as nat, k as nat, loc.0, depth as nat) == then(
            c_one_gate(sem@, u@.name, rv, specify(av, k), loc.0, depth as nat),
            c_expansions(sem@, u@.name, rv, av, n as nat, (k + 1) as nat, loc.0, depth as nat),
        ));
        proof {
            lemma_then_assoc(
                instrs_view(acc@),
                c_one_gate(sem@, u@.name, rv, specify(av, k), loc.0, depth as nat),
                c_expansions(sem@, u@.name, rv, av, n as nat, (k + 1) as nat, loc.0, depth as nat),
            );
        }
        match c_one_gate_exec(sem, &u.0, &reals, args_k, loc, depth) {
            Err(e) => {
                return Err(e);
            },
            Ok(x) => {
                append_instrs(&mut acc, x);
            },
        }
        k += 1;
    }
    proof {
        assert(instrs_view(acc@) + Seq::<InstructionV>::empty() =~= instrs_view(acc@));
    }
    Ok(acc)
}

/// One application of gate `name` to components of registers.
fn c_one_gate_exec(
    sem: &Semantics,
    name: &String,
    reals: &Vec<Expression>,
    args: Vec<Argument>,
    loc: Location,
    depth: usize,
) -> (r: Result<Vec<Instruction>, RuntimeError>)
    requires
        name@ == "U"@ ==> reals@.len() >= 3 && args@.len() >= 1,
        name@ == "CX"@ ==> args@.len() >= 2,
        macros_wf(sem@),
    ensures
        compiled_view(r) == c_one_gate(sem@, name@, exprs_view(reals@), args_view(args@), loc.0, depth as nat),
    decreases depth, 0nat,
{
    let u_name = "U".to_owned();
    let cx_name = "CX".to_owned();
    if *name == u_name {
        return match bit_mapping_exec(sem, &args[0], loc) {
            Err(e) => Err(e),
            Ok(t) => {
                let mut out: Vec<Instruction> = Vec::new();
                out.push(Instruction::U(reals[0].copy(), reals[1].copy(), reals[2].copy(), t));
                assert(instrs_view(out@) =~= seq![InstructionV::U(exprs_view(reals@)[0], exprs_view(reals@)[1], exprs_view(reals@)[2], t)]);
                Ok(out)
            },
        };
    }
    if *name == cx_name {
        return match bit_mapping_exec(sem, &args[0], loc) {
            Err(e) => Err(e),
            Ok(c) => match bit_mapping_exec(sem, &args[1], loc) {
                Err(e) => Err(e),
                Ok(t) => {
                    let mut out: Vec<Instruction> = Vec::new();
                    out.push(Instruction::CX(c, t));
                    assert(instrs_view(out@) =~= seq![InstructionV::CX(c, t)]);
                    Ok(out)
                },
            },
        };
    }
    let def = match macro_entry(sem, name) {
        None => {
            return Err(RuntimeError::UndefinedGate { location: loc, symbol_name: name.clone() });
        },
        Some(d) => d,
    };
    if reals.len() != def.1.len() {
        return Err(
            RuntimeError::WrongNumberOfParameters {
                are_registers: false,
                location: loc,
                symbol_name: name.clone(),
                expected: def.1.len(),
                given: reals.len(),
            },
        );
    }
    if args.len() != def.2.len() {
        return Err(
            RuntimeError::WrongNumberOfParameters {
                are_registers: true,
                location: loc,
                symbol_name: name.clone(),
                expected: def.2.len(),
                given: args.len(),
            },
        );
    }
    if depth == 0 {
        return Err(RuntimeError::Other);
    }
    let ghost argsv = args_view(args@);
    let real_copies = copy_exprs(reals);
    assert(values_view(real_copies@) =~= exprs_view(real_copies@));
    assert(values_view(args@) =~= args_view(args@));
    let ctx = Ctx { in_macro: true, reals: bind_all(&def.1, real_copies), args: bind_all(&def.2, args) };
    proof {
        let i = choose|i: int| 0 <= i < sem@.macros.len() && sem@.macros[i].1 == def@;
        assert(body_wf(sem@.macros[i].1.body));
    }
    c_ops_exec(sem, &ctx, &def.3, loc, depth - 1)
}

/// The operations of a gate body, with bindings `ctx`.
fn c_ops_exec(sem: &Semantics, ctx: &Ctx, body: &Vec<GateOperation>, loc: Location, depth: usize) -> (r: Result<Vec<Instruction>, RuntimeError>)
    requires
        body_wf(crate::grammar::ast::gate_ops_view(body@)),
        macros_wf(sem@),
    ensures
        compiled_view(r) == c_ops(sem@, ctx@, crate::grammar::ast::gate_ops_view(body@), 0, loc.0, depth as nat),
    decreases depth, 3nat,
{
    let ghost bv = crate::grammar::ast::gate_ops_view(body@);
    let mut acc: Vec<Instruction> = Vec::new();
    let mut i: usize = 0;
    proof {
        lemma_then_empty(c_ops(sem@, ctx@, bv, 0, loc.0, depth as nat));
        assert(instrs_view(acc@) =~= Seq::<InstructionV>::empty());
    }
    while i < body.len()
        invariant
            bv == crate::grammar::ast::gate_ops_view(body@),
            body_wf(bv),
            macros_wf(sem@),
            i <= body@.len(),
            then(Ok(instrs_view(acc@)), c_ops(sem@, ctx@, bv, i as nat, loc.0, depth as nat)) == c_ops(
                sem@,
                ctx@,
                bv,
                0,
                loc.0,
                depth as nat,
            ),
        decreases body@.len() - i,
    {
        assert(bv[i as int] == body@[i as int]@);
        match &body[i] {
            GateOperation::Unitary(u) => {
                proof {
                    lemma_then_assoc(
                        instrs_view(acc@),
                        c_unitary(sem@, ctx@, u@, loc.0, depth as nat),
                        c_ops(sem@, ctx@, bv, (i + 1) as nat, loc.0, depth as nat),
                    );
                }
                match c_unitary_exec(sem, ctx, u, loc, depth) {
                    Err(e) => {
                        return Err(e);
                    },
                    Ok(x) => {
                        append_instrs(&mut acc, x);
                    },
                }
            },
            GateOperation::Barrier(_) => {},
        }
        i += 1;
    }
    proof {
        assert(instrs_view(acc@) + Seq::<InstructionV>::empty() =~= instrs_view(acc@));
    }
    Ok(acc)
}

} // verus!

verus! {

/// `check_register` finds no error only for a declared register.
proof fn lemma_check_register_found(sem: SemanticsV, name: Seq<char>, kind: RegisterType, expected: QasmType, loc: usize)
    requires
        check_register(sem, name, kind, expected, loc) is None,
    ensures
        lookup(sem.registers, name) is Some,
{
}

/// Measuring quantum register or qubit `a` into classical register or bit
/// `b`.
fn c_measure_exec(sem: &Semantics, a: &Argument, b: &Argument, loc: Location) -> (r: Result<Vec<Instruction>, RuntimeError>)
    ensures
        compiled_view(r) == c_measure(sem@, a@, b@, loc.0),
{
    match check_register_exec(sem, register_name_of(a), RegisterType::Q, QasmType::QuantumRegister, loc) {
        Some(e) => return Err(e),
        None => {},
    }
    match check_register_exec(sem, register_name_of(b), RegisterType::C, QasmType::ClassicalRegister, loc) {
        Some(e) => return Err(e),
        None => {},
    }
    let mut pair: Vec<Argument> = Vec::new();
    pair.push(a.copy());
    pair.push(b.copy());
    let ghost pv = seq![a@, b@];
    assert(args_view(pair@) =~= pv);
    assert(all_registered(sem@, pv)) by {
        assert forall|i: int| 0 <= i < pv.len() implies lookup(sem@.registers, register_name(#[trigger] pv[i])) is Some by {
            if i == 0 {
                lemma_check_register_found(sem@, register_name(a@), RegisterType::Q, QasmType::QuantumRegister, loc.0);
            } else {
                lemma_check_register_found(sem@, register_name(b@), RegisterType::C, QasmType::ClassicalRegister, loc.0);
            }
        }
    }
    let n = match expansion_count_exec(sem, &pair) {
        Err(sizes) => {
            return Err(
                RuntimeError::RegisterSizeMismatch { location: loc, symbol_name: "measure".to_owned(), sizes },
            );
        },
        Ok(n) => n,
    };
    let target = register_name_of(b);
    let mut acc: Vec<Instruction> = Vec::new();
    let mut k: usize = 0;
    proof {
        lemma_then_empty(c_measurements(sem@, a@, b@, n as nat, 0, loc.0));
        assert(instrs_view(acc@) =~= Seq::<InstructionV>::empty());
    }
    assert(c_measure(sem@, a@, b@, loc.0) == c_measurements(sem@, a@, b@, n as nat, 0, loc.0));
    while k < n
        invariant
            c_measure(sem@, a@, b@, loc.0) == c_measurements(sem@, a@, b@, n as nat, 0, loc.0),
            args_view(pair@) == seq![a@, b@],
            target@ == register_name(b@),
            k <= n,
            then(Ok(instrs_view(acc@)), c_measurements(sem@, a@, b@, n as nat, k as nat, loc.0))
                == c_measurements(sem@, a@, b@, n as nat, 0, loc.0),
        decreases n - k,
    {
        let args_k = specify_exec(&pair, k);
        assert(args_view(args_k@).len() == 2);
        assert(args_k@[0]@ == specify(seq![a@, b@], k)[0]);
        assert(args_k@[1]@ == specify(seq![a@, b@], k)[1]);
        let q = match bit_mapping_exec(sem, &args_k[0], loc) {
            Err(e) => return Err(e),
            Ok(q) => q,
        };
        let t = match bit_mapping_exec(sem, &args_k[1], loc) {
            Err(e) => return Err(e),
            Ok(t) => t,
        };
        let ghost x = seq![InstructionV::Measure(q, register_name(b@), t)];
        proof {
            lemma_then_assoc(instrs_view(acc@), Ok(x), c_measurements(sem@, a@, b@, n as nat, (k + 1) as nat, loc.0));
        }
        let ghost prev = instrs_view(acc@);
        acc.push(Instruction::Measure(q, target.clone(), t));
        assert(instrs_view(acc@) =~= prev + x);
        k += 1;
    }
    proof {
        assert(instrs_view(acc@) + Seq::<InstructionV>::empty() =~= instrs_view(acc@));
    }
    Ok(acc)
}

/// The quantum operation `op` is well formed.
pub open spec fn qop_wf(op: QuantumOperationV) -> bool {
    match op {
        QuantumOperationV::Unitary(u) => unitary_wf(u),
        _ => true,
    }
}

/// Statement `s` is well formed: its gate invocation names a primitive gate
/// only with what that gate takes, and a condition is on a whole register.
pub open spec fn statement_wf(s: StatementV) -> bool {
    match s {
        StatementV::QuantumOperation(op) => qop_wf(op),
        StatementV::Conditional(a, _, op) => a is Id && qop_wf(op),
        _ => true,
    }
}

/// Every statement of program `p` is well formed, as those the parser reads
/// are.
pub open spec fn program_wf(p: ProgramV) -> bool {
    forall|i: int| 0 <= i < p.program.len() ==> statement_wf(#[trigger] p.program[i].node)
}

/// A quantum operation at the statement starting at `loc`.
fn c_qop_exec(sem: &Semantics, op: &QuantumOperation, loc: Location) -> (r: Result<Vec<Instruction>, RuntimeError>)
    requires
        qop_wf(op@),
        macros_wf(sem@),
    ensures
        compiled_view(r) == c_qop(sem@, op@, loc.0),
{
    match op {
        QuantumOperation::Unitary(u) => {
            let top = Ctx { in_macro: false, reals: Vec::new(), args: Vec::new() };
            assert(top@.reals =~= Seq::<(Seq<char>, ExpressionV)>::empty());
            assert(top@.args =~= Seq::<(Seq<char>, ArgumentV)>::empty());
            c_unitary_exec(sem, &top, u, loc, sem.macro_definitions.len())
        },
        QuantumOperation::Measure(a, b) => c_measure_exec(sem, a, b, loc),
        QuantumOperation::Reset(_) => {
            let v: Vec<Instruction> = Vec::new();
            assert(instrs_view(v@) =~= Seq::<InstructionV>::empty());
            Ok(v)
        },
    }
}

/// What statement `span` does.
fn c_statement_exec(sem: &Semantics, span: &Span<Statement>) -> (r: Step)
    requires
        statement_wf(span_view(*span).node),
        macros_wf(sem@),
    ensures
        r@ == c_statement(sem@, span_view(*span)),
{
    let loc = span.boundaries.0;
    match &*span.node {
        Statement::QuantumOperation(op) => Step::Run(c_qop_exec(sem, op, loc)),
        Statement::Conditional(a, v, op) => {
            match check_register_exec(sem, register_name_of(a), RegisterType::C, QasmType::ClassicalRegister, loc) {
                Some(e) => Step::Run(Err(e)),
                None => Step::Conditional(register_name_of(a).clone(), *v, c_qop_exec(sem, op, loc)),
            }
        },
        _ => {
            let v: Vec<Instruction> = Vec::new();
            assert(instrs_view(v@) =~= Seq::<InstructionV>::empty());
            Step::Run(Ok(v))
        },
    }
}

/// The values of a list of steps.
pub open spec fn steps_view(v: Seq<Step>) -> Seq<StepV> {
    v.map_values(|s: Step| s@)
}

/// What each statement of `program` does, given its symbols `semantics`.
pub fn compile(program: &OpenQasmProgram, semantics: &Semantics) -> (r: Vec<Step>)
    requires
        program_wf(program@),
        macros_wf(semantics@),
    ensures
        steps_view(r@) == compile_program(semantics@, program@),
{
    let mut out: Vec<Step> = Vec::new();
    let mut k: usize = 0;
    while k < program.program.len()
        invariant
            program_wf(program@),
            macros_wf(semantics@),
            k <= program.program@.len(),
            steps_view(out@) == compile_program(semantics@, program@).take(k as int),
        decreases program.program@.len() - k,
    {
        assert(program@.program[k as int] == span_view(program.program@[k as int]));
        let step = c_statement_exec(semantics, &program.program[k]);
        let ghost prev = steps_view(out@);
        let ghost sv = step@;
        out.push(step);
        assert(steps_view(out@) =~= prev.push(sv));
        assert(compile_program(semantics@, program@).take(k + 1) =~= compile_program(semantics@, program@).take(k as int).push(sv));
        k += 1;
    }
    assert(compile_program(semantics@, program@).take(k as int) =~= compile_program(semantics@, program@));
    out
}

} // verus!

verus! {

/// The classical memory before a run: every classical register, in
/// declaration order, holds 0.
pub open spec fn initial_memory_of(regs: Seq<(Seq<char>, RegisterV)>) -> Seq<(Seq<char>, u64)>
    decreases regs.len(),
{
    if regs.len() == 0 {
        Seq::empty()
    } else {
        initial_memory_of(regs.drop_last()) + (if regs.last().1.kind == RegisterType::C {
            seq![(regs.last().1.name, 0u64)]
        } else {
            Seq::empty()
        })
    }
}

/// The classical memory before a run of a program with symbols `semantics`.
pub fn initial_memory(semantics: &Semantics) -> (r: Vec<(String, u64)>)
    ensures
        memory_view(r@) == initial_memory_of(semantics@.registers),
{
    let ghost regs = semantics@.registers;
    let mut out: Vec<(String, u64)> = Vec::new();
    let mut k: usize = 0;
    assert(memory_view(out@) =~= initial_memory_of(regs.take(0)));
    while k < semantics.register_table.len()
        invariant
            regs == semantics@.registers,
            k <= regs.len(),
            memory_view(out@) == initial_memory_of(regs.take(k as int)),
        decreases regs.len() - k,
    {
        let entry = &semantics.register_table[k].1;
        assert(regs.take(k + 1).drop_last() =~= regs.take(k as int));
        assert(regs.take(k + 1).last() == regs[k as int]);
        assert(regs[k as int].1 == entry@);
        let ghost prev = memory_view(out@);
        if entry.1 == RegisterType::C {
            out.push((entry.0.clone(), 0));
            assert(memory_view(out@) =~= prev + seq![(entry@.name, 0u64)]);
        } else {
            assert(prev + Seq::<(Seq<char>, u64)>::empty() =~= prev);
        }
        k += 1;
    }
    assert(regs.take(k as int) =~= regs);
    out
}

/// Whether step `step` acts on memory `memory`: always, or for a
/// conditional step only when its register holds its value.
pub open spec fn step_runs(step: StepV, memory: Seq<(Seq<char>, u64)>) -> bool {
    match step {
        StepV::Run(_) => true,
        StepV::Conditional(n, v, _) => lookup(memory, n) == Some(v),
    }
}

/// Whether `step` acts on `memory`.
pub fn should_run(step: &Step, memory: &Vec<(String, u64)>) -> (b: bool)
    requires
        step@ matches StepV::Conditional(n, _, _) ==> lookup(memory_view(memory@), n) is Some,
    ensures
        b == step_runs(step@, memory_view(memory@)),
{
    match step {
        Step::Run(_) => true,
        Step::Conditional(name, value, _) => {
            assert(names(memory_view(memory@)) =~= keys_of(memory@));
            match find(memory, name) {
                Some(i) => memory[i].1 == *value,
                None => false,
            }
        },
    }
}

/// Memory `memory` once bit `bit` of register `register` was measured as
/// `outcome`: the outcome times the weight of the bit is added to the value
/// of the register.
pub open spec fn measured(memory: Seq<(Seq<char>, u64)>, register: Seq<char>, bit: usize, outcome: u64) -> Seq<(Seq<char>, u64)> {
    assoc_insert(
        memory,
        register,
        (lookup(memory, register).unwrap() + outcome * pow2(bit as nat)) as u64,
    )
}

/// Adds the measured `outcome` of bit `bit` to register `register`.
pub fn record_measurement(memory: &mut Vec<(String, u64)>, register: &String, bit: usize, outcome: u64)
    requires
        lookup(memory_view(old(memory)@), register@) is Some,
        bit < 64,
        lookup(memory_view(old(memory)@), register@).unwrap() + outcome * pow2(bit as nat) <= u64::MAX,
    ensures
        memory_view(final(memory)@) == measured(memory_view(old(memory)@), register@, bit, outcome),
{
    let ghost mv = memory_view(memory@);
    assert(names(mv) =~= keys_of(memory@));
    let i = match find(memory, register) {
        Some(i) => i,
        None => {
            return;
        },
    };
    let prev = memory[i].1;
    proof {
        vstd::bits::lemma_u64_pow2_no_overflow(bit as nat);
        vstd::arithmetic::mul::lemma_mul_inequality(outcome as int, outcome as int, pow2(bit as nat) as int);
        assert(outcome * pow2(bit as nat) <= u64::MAX);
        if outcome > 0 {
            vstd::arithmetic::mul::lemma_mul_increases(outcome as int, pow2(bit as nat) as int);
        }
        assert(outcome * pow2(bit as nat) >= pow2(bit as nat) || outcome == 0);
        vstd::bits::lemma_u64_shl_is_mul(1, bit as u64);
    }
    let weight: u64 = 1u64 << (bit as u64);
    assert(weight == pow2(bit as nat));
    let value = outcome * weight;
    let ghost nv = register@;
    memory.set(i, (register.clone(), prev + value));
    assert(memory_view(memory@) =~= mv.update(i as int, (nv, (prev + value) as u64)));
}

} // verus!

verus! {

/// Whether gate invocation `u` is well formed.
fn unitary_is_well_formed(u: &UnitaryOperation) -> (b: bool)
    ensures
        b == unitary_wf(u@),
{
    let u_name = "U".to_owned();
    let cx_name = "CX".to_owned();
    let u_ok = u.0 != u_name || (u.1.len() >= 3 && u.2.len() >= 1);
    let cx_ok = u.0 != cx_name || u.2.len() >= 2;
    assert(exprs_view(u.1@).len() == u.1@.len());
    assert(args_view(u.2@).len() == u.2@.len());
    u_ok && cx_ok
}

/// Whether every gate invocation of `body` is well formed.
fn body_is_well_formed(body: &Vec<GateOperation>) -> (b: bool)
    ensures
        b == body_wf(crate::grammar::ast::gate_ops_view(body@)),
{
    let ghost bv = crate::grammar::ast::gate_ops_view(body@);
    let mut i: usize = 0;
    while i < body.len()
        invariant
            bv == crate::grammar::ast::gate_ops_view(body@),
            i <= body@.len(),
            forall|j: int| 0 <= j < i ==> (#[trigger] bv[j] matches GateOperationV::Unitary(u) ==> unitary_wf(u)),
        decreases body@.len() - i,
    {
        assert(bv[i as int] == body@[i as int]@);
        match &body[i] {
            GateOperation::Unitary(u) => {
                if !unitary_is_well_formed(u) {
                    return false;
                }
            },
            GateOperation::Barrier(_) => {},
        }
        i += 1;
    }
    true
}

/// Whether every gate body of `semantics` is well formed, which is the case
/// for the symbols of a program the parser read.
pub fn macros_are_well_formed(semantics: &Semantics) -> (b: bool)
    ensures
        b == macros_wf(semantics@),
{
    let mut i: usize = 0;
    while i < semantics.macro_definitions.len()
        invariant
            i <= semantics@.macros.len(),
            semantics@.macros.len() == semantics.macro_definitions@.len(),
            forall|j: int| 0 <= j < i ==> body_wf(#[trigger] semantics@.macros[j].1.body),
        decreases semantics@.macros.len() - i,
    {
        assert(semantics@.macros[i as int].1 == semantics.macro_definitions@[i as int].1@);
        if !body_is_well_formed(&semantics.macro_definitions[i].1.3) {
            assert(!body_wf(semantics@.macros[i as int].1.body));
            return false;
        }
        i += 1;
    }
    true
}

/// Whether every statement of `program` is well formed, which is the case
/// for a program the parser read.
pub fn program_is_well_formed(program: &OpenQasmProgram) -> (b: bool)
    ensures
        b == program_wf(program@),
{
    let mut i: usize = 0;
    while i < program.program.len()
        invariant
            i <= program@.program.len(),
            program@.program.len() == program.program@.len(),
            forall|j: int| 0 <= j < i ==> statement_wf(#[trigger] program@.program[j].node),
        decreases program@.program.len() - i,
    {
        assert(program@.program[i as int] == span_view(program.program@[i as int]));
        let ok = match &*program.program[i].node {
            Statement::QuantumOperation(QuantumOperation::Unitary(u)) => unitary_is_well_formed(u),
            Statement::Conditional(a, _, op) => {
                let is_id = match a {
                    Argument::Id(_) => true,
                    Argument::Item(_, _) => false,
                };
                is_id && match op {
                    QuantumOperation::Unitary(u) => unitary_is_well_formed(u),
                    _ => true,
                }
            },
            _ => true,
        };
        if !ok {
            assert(!statement_wf(program@.program[i as int].node));
            return false;
        }
        assert(statement_wf(program@.program[i as int].node));
        i += 1;
    }
    true
}

} // verus!

verus! {

// ---------------------------------------------------------------------------
// Compiled instructions stay within memory.
// ---------------------------------------------------------------------------

/// Instruction `i` acts within the memory of symbols `sem`: its qubits are
/// among the first `sem.qsize`, and a measured bit is a bit of a classical
/// register.
pub open spec fn instruction_in_bounds(sem: SemanticsV, i: InstructionV) -> bool {
    match i {
        InstructionV::U(_, _, _, t) => t < sem.qsize,
        InstructionV::CX(c, t) => c < sem.qsize && t < sem.qsize,
        InstructionV::Measure(q, r, b) => q < sem.qsize && match lookup(sem.registers, r) {
            Some(e) => e.kind == RegisterType::C && b < e.size,
            None => false,
        },
    }
}

/// Every instruction of outcome `c`, if it is not an error, acts within the
/// memory of `sem`.
pub open spec fn compiled_in_bounds(sem: SemanticsV, c: Compiled) -> bool {
    c matches Ok(v) ==> forall|j: int| 0 <= j < v.len() ==> instruction_in_bounds(sem, #[trigger] v[j])
}

/// The instructions of step `st` act within the memory of `sem`.
pub open spec fn step_in_bounds(sem: SemanticsV, st: StepV) -> bool {
    match st {
        StepV::Run(c) => compiled_in_bounds(sem, c),
        StepV::Conditional(_, _, c) => compiled_in_bounds(sem, c),
    }
}

/// Name `n` is a register of kind `kind` in `sem`.
pub open spec fn is_register_of(sem: SemanticsV, n: Seq<char>, kind: RegisterType) -> bool {
    lookup(sem.registers, n) matches Some(e) && e.kind == kind
}

/// Every argument of `args` refers to a quantum register of `sem`.
pub open spec fn args_quantum(sem: SemanticsV, args: Seq<ArgumentV>) -> bool {
    forall|j: int| 0 <= j < args.len() ==> is_register_of(sem, register_name(#[trigger] args[j]), RegisterType::Q)
}

/// A component of a quantum register maps to a qubit of the quantum memory,
/// one of a classical register to a bit within the register.
proof fn lemma_bit_in_bounds(sem: SemanticsV, a: ArgumentV, loc: usize)
    requires
        layout_ok(sem),
        quantum_within(sem),
        lookup(sem.registers, register_name(a)) is Some,
    ensures
        bit_mapping(sem, a, loc) matches Ok(t) ==> {
            let e = lookup(sem.registers, register_name(a))->Some_0;
            &&& e.kind == RegisterType::Q ==> t < sem.qsize
            &&& e.kind == RegisterType::C ==> t < e.size
        },
{
    let n = register_name(a);
    lemma_first_index(names(sem.registers), n);
    let i = first_index(names(sem.registers), n)->Some_0;
    assert(names(sem.registers)[i] == sem.registers[i].0);
    assert(register_laid_out(sem, i));
}

/// Two outcomes within memory make one.
proof fn lemma_then_bounds(sem: SemanticsV, a: Compiled, b: Compiled)
    requires
        compiled_in_bounds(sem, a),
        compiled_in_bounds(sem, b),
    ensures
        compiled_in_bounds(sem, then(a, b)),
{
    if let (Ok(x), Ok(y)) = (a, b) {
        assert forall|j: int| 0 <= j < (x + y).len() implies instruction_in_bounds(sem, #[trigger] (x + y)[j]) by {
            if j < x.len() {
                assert((x + y)[j] == x[j]);
            } else {
                assert((x + y)[j] == y[j - x.len()]);
            }
        }
    }
}

/// Arguments that pass the quantum check refer to quantum registers.
proof fn lemma_check_quantum_all(sem: SemanticsV, args: Seq<ArgumentV>, loc: usize)
    ensures
        check_quantum_all(sem, args, loc) is None ==> args_quantum(sem, args),
    decreases args.len(),
{
    if args.len() > 0 {
        lemma_check_quantum_all(sem, args.skip(1), loc);
        if check_quantum_all(sem, args, loc) is None {
            assert forall|j: int| 0 <= j < args.len() implies is_register_of(
                sem,
                register_name(#[trigger] args[j]),
                RegisterType::Q,
            ) by {
                if j > 0 {
                    assert(args[j] == args.skip(1)[j - 1]);
                }
            }
        }
    }
}

/// Resolving arguments keeps their number.
proof fn lemma_resolve_args_len(ctx: CtxV, args: Seq<ArgumentV>, loc: usize)
    ensures
        resolve_args(ctx, args, loc) matches Ok(r) ==> r.len() == args.len(),
    decreases args.len(),
{
    if ctx.in_macro && args.len() > 0 {
        lemma_resolve_args_len(ctx, args.skip(1), loc);
    }
}

/// A gate invocation compiles to instructions within memory.
proof fn lemma_unitary_bounds(sem: SemanticsV, ctx: CtxV, u: UnitaryV, loc: usize, depth: nat)
    requires
        layout_ok(sem),
        quantum_within(sem),
        macros_wf(sem),
        unitary_wf(u),
    ensures
        compiled_in_bounds(sem, c_unitary(sem, ctx, u, loc, depth)),
    decreases depth, 2nat, 0nat,
{
    lemma_resolve_args_len(ctx, u.args, loc);
    if let Ok(actual) = resolve_args(ctx, u.args, loc) {
        lemma_check_quantum_all(sem, actual, loc);
        if check_quantum_all(sem, actual, loc) is None {
            if let Ok(reals) = resolve_reals(ctx, u.reals, loc) {
                if let Ok(n) = expansion_count(sem, actual) {
                    lemma_expansions_bounds(sem, u.name, reals, actual, n, 0, loc, depth);
                }
            }
        }
    }
}

/// The applications of a gate to the components of quantum registers
/// compile to instructions within memory.
proof fn lemma_expansions_bounds(
    sem: SemanticsV,
    name: Seq<char>,
    reals: Seq<ExpressionV>,
    args: Seq<ArgumentV>,
    n: nat,
    k: nat,
    loc: usize,
    depth: nat,
)
    requires
        layout_ok(sem),
        quantum_within(sem),
        macros_wf(sem),
        args_quantum(sem, args),
        name == "U"@ ==> args.len() >= 1,
        name == "CX"@ ==> args.len() >= 2,
    ensures
        compiled_in_bounds(sem, c_expansions(sem, name, reals, args, n, k, loc, depth)),
    decreases depth, 1nat, n - k,
{
    if k < n {
        let sp = specify(args, k as usize);
        assert forall|j: int| 0 <= j < sp.len() implies is_register_of(
            sem,
            register_name(#[trigger] sp[j]),
            RegisterType::Q,
        ) by {
            assert(register_name(sp[j]) == register_name(args[j]));
        }
        lemma_one_gate_bounds(sem, name, reals, sp, loc, depth);
        lemma_expansions_bounds(sem, name, reals, args, n, k + 1, loc, depth);
        lemma_then_bounds(
            sem,
            c_one_gate(sem, name, reals, sp, loc, depth),
            c_expansions(sem, name, reals, args, n, k + 1, loc, depth),
        );
    }
}

/// One application of a gate to components of quantum registers compiles
/// to instructions within memory.
proof fn lemma_one_gate_bounds(
    sem: SemanticsV,
    name: Seq<char>,
    reals: Seq<ExpressionV>,
    args: Seq<ArgumentV>,
    loc: usize,
    depth: nat,
)
    requires
        layout_ok(sem),
        quantum_within(sem),
        macros_wf(sem),
        args_quantum(sem, args),
        name == "U"@ ==> args.len() >= 1,
        name == "CX"@ ==> args.len() >= 2,
    ensures
        compiled_in_bounds(sem, c_one_gate(sem, name, reals, args, loc, depth)),
    decreases depth, 0nat, 0nat,
{
    if name == "U"@ {
        assert(is_register_of(sem, register_name(args[0]), RegisterType::Q));
        lemma_bit_in_bounds(sem, args[0], loc);
    } else if name == "CX"@ {
        assert(is_register_of(sem, register_name(args[0]), RegisterType::Q));
        assert(is_register_of(sem, register_name(args[1]), RegisterType::Q));
        lemma_bit_in_bounds(sem, args[0], loc);
        lemma_bit_in_bounds(sem, args[1], loc);
    } else {
        if let Some(def) = lookup(sem.macros, name) {
            if reals.len() == def.reals.len() && args.len() == def.args.len() && depth > 0 {
                lemma_first_index(names(sem.macros), name);
                let i = first_index(names(sem.macros), name)->Some_0;
                assert(body_wf(sem.macros[i].1.body));
                lemma_ops_bounds(
                    sem,
                    CtxV {
                        in_macro: true,
                        reals: zip_bindings(def.reals, reals, reals.len()),
                        args: zip_bindings(def.args, args, args.len()),
                    },
                    def.body,
                    0,
                    loc,
                    (depth - 1) as nat,
                );
            }
        }
    }
}

/// The operations of a gate body compile to instructions within memory.
proof fn lemma_ops_bounds(sem: SemanticsV, ctx: CtxV, body: Seq<GateOperationV>, i: nat, loc: usize, depth: nat)
    requires
        layout_ok(sem),
        quantum_within(sem),
        macros_wf(sem),
        body_wf(body),
    ensures
        compiled_in_bounds(sem, c_ops(sem, ctx, body, i, loc, depth)),
    decreases depth, 3nat, body.len() - i,
{
    if i < body.len() {
        lemma_ops_bounds(sem, ctx, body, i + 1, loc, depth);
        if let GateOperationV::Unitary(u) = body[i as int] {
            lemma_unitary_bounds(sem, ctx, u, loc, depth);
            lemma_then_bounds(sem, c_unitary(sem, ctx, u, loc, depth), c_ops(sem, ctx, body, i + 1, loc, depth));
        }
    }
}

/// Measurements of a quantum register into a classical one compile to
/// instructions within memory.
proof fn lemma_measurements_bounds(sem: SemanticsV, a: ArgumentV, b: ArgumentV, n: nat, k: nat, loc: usize)
    requires
        layout_ok(sem),
        quantum_within(sem),
        is_register_of(sem, register_name(a), RegisterType::Q),
        is_register_of(sem, register_name(b), RegisterType::C),
    ensures
        compiled_in_bounds(sem, c_measurements(sem, a, b, n, k, loc)),
    decreases n - k,
{
    if k < n {
        let args = specify(seq![a, b], k as usize);
        assert(register_name(args[0]) == register_name(a));
        assert(register_name(args[1]) == register_name(b));
        lemma_bit_in_bounds(sem, args[0], loc);
        lemma_bit_in_bounds(sem, args[1], loc);
        lemma_measurements_bounds(sem, a, b, n, k + 1, loc);
        if let (Ok(q), Ok(t)) = (bit_mapping(sem, args[0], loc), bit_mapping(sem, args[1], loc)) {
            let first: Compiled = Ok(seq![InstructionV::Measure(q, register_name(b), t)]);
            assert(instruction_in_bounds(sem, InstructionV::Measure(q, register_name(b), t)));
            assert(compiled_in_bounds(sem, first));
            lemma_then_bounds(sem, first, c_measurements(sem, a, b, n, k + 1, loc));
        }
    }
}

/// A quantum operation compiles to instructions within memory.
proof fn lemma_qop_bounds(sem: SemanticsV, op: QuantumOperationV, loc: usize)
    requires
        layout_ok(sem),
        quantum_within(sem),
        macros_wf(sem),
        qop_wf(op),
    ensures
        compiled_in_bounds(sem, c_qop(sem, op, loc)),
{
    match op {
        QuantumOperationV::Unitary(u) => lemma_unitary_bounds(sem, top_ctx(), u, loc, nesting_bound(sem)),
        QuantumOperationV::Measure(a, b) => {
            let qa = check_register(sem, register_name(a), RegisterType::Q, QasmType::QuantumRegister, loc);
            let cb = check_register(sem, register_name(b), RegisterType::C, QasmType::ClassicalRegister, loc);
            if qa is None && cb is None {
                if let Ok(n) = expansion_count(sem, seq![a, b]) {
                    lemma_measurements_bounds(sem, a, b, n, 0, loc);
                }
            }
        },
        QuantumOperationV::Reset(_) => {},
    }
}

/// Every instruction that the statements of a program compile to acts
/// within the memory of the program's symbols: a gate touches only qubits
/// of the quantum memory, and a measurement goes to a bit of a classical
/// register.
pub proof fn lemma_compiled_in_bounds(p: ProgramV)
    requires
        semantics_defined(p),
        program_wf(p),
        semantics_of(p) matches Ok(s) ==> macros_wf(s),
    ensures
        semantics_of(p) matches Ok(s) ==> forall|k: int|
            0 <= k < p.program.len() ==> step_in_bounds(s, #[trigger] compile_program(s, p)[k]),
{
    lemma_memory_layout(p);
    if let Ok(s) = semantics_of(p) {
        assert forall|k: int| 0 <= k < p.program.len() implies step_in_bounds(s, #[trigger] compile_program(s, p)[k]) by {
            let st = p.program[k];
            assert(statement_wf(st.node));
            match st.node {
                StatementV::QuantumOperation(op) => lemma_qop_bounds(s, op, st.start as usize),
                StatementV::Conditional(_, _, op) => lemma_qop_bounds(s, op, st.start as usize),
                _ => {},
            }
        }
    }
}

} // verus!

verus! {

// ---------------------------------------------------------------------------
// Compile errors are reported at their statements.
// ---------------------------------------------------------------------------

/// Where runtime error `e` is reported, if anywhere.
pub open spec fn runtime_error_location(e: RuntimeErrorV) -> Option<usize> {
    match e {
        RuntimeErrorV::Other => None,
        RuntimeErrorV::Semantic(SemanticErrorV::Redefinition { location, .. }) => Some(location),
        RuntimeErrorV::IndexOutOfBounds { location, .. } => Some(location),
        RuntimeErrorV::SymbolNotFound { location, .. } => Some(location),
        RuntimeErrorV::WrongNumberOfParameters { location, .. } => Some(location),
        RuntimeErrorV::UndefinedGate { location, .. } => Some(location),
        RuntimeErrorV::TypeMismatch { location, .. } => Some(location),
        RuntimeErrorV::RegisterSizeMismatch { location, .. } => Some(location),
    }
}

/// The error of outcome `c`, if any, is an unknown one or one reported at
/// `loc`, and no semantic error.
pub open spec fn errs_at(c: Compiled, loc: usize) -> bool {
    c matches Err(e) ==> !(e is Semantic) && (e is Other || runtime_error_location(e) == Some(loc))
}

/// The error of step `st`, if any, is reported at `loc`.
pub open spec fn step_errs_at(st: StepV, loc: usize) -> bool {
    match st {
        StepV::Run(c) => errs_at(c, loc),
        StepV::Conditional(_, _, c) => errs_at(c, loc),
    }
}

proof fn lemma_then_errs_at(a: Compiled, b: Compiled, loc: usize)
    requires
        errs_at(a, loc),
        errs_at(b, loc),
    ensures
        errs_at(then(a, b), loc),
{
}

proof fn lemma_check_quantum_all_at(sem: SemanticsV, args: Seq<ArgumentV>, loc: usize)
    ensures
        check_quantum_all(sem, args, loc) matches Some(e) ==> errs_at(Err(e), loc),
    decreases args.len(),
{
    if args.len() > 0 {
        lemma_check_quantum_all_at(sem, args.skip(1), loc);
    }
}

proof fn lemma_resolve_args_at(ctx: CtxV, args: Seq<ArgumentV>, loc: usize)
    ensures
        resolve_args(ctx, args, loc) matches Err(e) ==> errs_at(Err(e), loc),
    decreases args.len(),
{
    if ctx.in_macro && args.len() > 0 {
        lemma_resolve_args_at(ctx, args.skip(1), loc);
    }
}

proof fn lemma_resolve_reals_at(ctx: CtxV, exprs: Seq<ExpressionV>, loc: usize)
    ensures
        resolve_reals(ctx, exprs, loc) matches Err(e) ==> errs_at(Err(e), loc),
    decreases exprs.len(),
{
    if exprs.len() > 0 {
        lemma_resolve_reals_at(ctx, exprs.skip(1), loc);
    }
}

proof fn lemma_unitary_at(sem: SemanticsV, ctx: CtxV, u: UnitaryV, loc: usize, depth: nat)
    ensures
        errs_at(c_unitary(sem, ctx, u, loc, depth), loc),
    decreases depth, 2nat, 0nat,
{
    lemma_resolve_args_at(ctx, u.args, loc);
    lemma_resolve_reals_at(ctx, u.reals, loc);
    if let Ok(actual) = resolve_args(ctx, u.args, loc) {
        lemma_check_quantum_all_at(sem, actual, loc);
        if let Ok(n) = expansion_count(sem, actual) {
            lemma_expansions_at(sem, u.name, resolve_reals(ctx, u.reals, loc)->Ok_0, actual, n, 0, loc, depth);
        }
    }
}

proof fn lemma_expansions_at(
    sem: SemanticsV,
    name: Seq<char>,
    reals: Seq<ExpressionV>,
    args: Seq<ArgumentV>,
    n: nat,
    k: nat,
    loc: usize,
    depth: nat,
)
    ensures
        errs_at(c_expansions(sem, name, reals, args, n, k, loc, depth), loc),
    decreases depth, 1nat, n - k,
{
    if k < n {
        lemma_one_gate_at(sem, name, reals, specify(args, k as usize), loc, depth);
        lemma_expansions_at(sem, name, reals, args, n, k + 1, loc, depth);
        lemma_then_errs_at(
            c_one_gate(sem, name, reals, specify(args, k as usize), loc, depth),
            c_expansions(sem, name, reals, args, n, k + 1, loc, depth),
            loc,
        );
    }
}

proof fn lemma_one_gate_at(
    sem: SemanticsV,
    name: Seq<char>,
    reals: Seq<ExpressionV>,
    args: Seq<ArgumentV>,
    loc: usize,
    depth: nat,
)
    ensures
        errs_at(c_one_gate(sem, name, reals, args, loc, depth), loc),
    decreases depth, 0nat, 0nat,
{
    if name != "U"@ && name != "CX"@ {
        if let Some(def) = lookup(sem.macros, name) {
            if reals.len() == def.reals.len() && args.len() == def.args.len() && depth > 0 {
                lemma_ops_at(
                    sem,
                    CtxV {
                        in_macro: true,
                        reals: zip_bindings(def.reals, reals, reals.len()),
                        args: zip_bindings(def.args, args, args.len()),
                    },
                    def.body,
                    0,
                    loc,
                    (depth - 1) as nat,
                );
            }
        }
    }
}

proof fn lemma_ops_at(sem: SemanticsV, ctx: CtxV, body: Seq<GateOperationV>, i: nat, loc: usize, depth: nat)
    ensures
        errs_at(c_ops(sem, ctx, body, i, loc, depth), loc),
    decreases depth, 3nat, body.len() - i,
{
    if i < body.len() {
        lemma_ops_at(sem, ctx, body, i + 1, loc, depth);
        if let GateOperationV::Unitary(u) = body[i as int] {
            lemma_unitary_at(sem, ctx, u, loc, depth);
            lemma_then_errs_at(c_unitary(sem, ctx, u, loc, depth), c_ops(sem, ctx, body, i + 1, loc, depth), loc);
        }
    }
}

proof fn lemma_measurements_at(sem: SemanticsV, a: ArgumentV, b: ArgumentV, n: nat, k: nat, loc: usize)
    ensures
        errs_at(c_measurements(sem, a, b, n, k, loc), loc),
    decreases n - k,
{
    if k < n {
        lemma_measurements_at(sem, a, b, n, k + 1, loc);
    }
}

/// Compiling a statement reports an error, if any, at the start of the
/// statement: every error of a compiled program points at the statement
/// that raised it, apart from unknown errors.
pub proof fn lemma_compile_errors_at_statements(sem: SemanticsV, p: ProgramV)
    ensures
        forall|k: int|
            0 <= k < p.program.len() ==> step_errs_at(
                #[trigger] compile_program(sem, p)[k],
                p.program[k].start as usize,
            ),
{
    assert forall|k: int| 0 <= k < p.program.len() implies step_errs_at(
        #[trigger] compile_program(sem, p)[k],
        p.program[k].start as usize,
    ) by {
        let st = p.program[k];
        let loc = st.start as usize;
        let op = match st.node {
            StatementV::QuantumOperation(op) => Some(op),
            StatementV::Conditional(_, _, op) => Some(op),
            _ => None,
        };
        if let Some(op) = op {
            match op {
                QuantumOperationV::Unitary(u) => lemma_unitary_at(sem, top_ctx(), u, loc, nesting_bound(sem)),
                QuantumOperationV::Measure(a, b) => {
                    if let Ok(n) = expansion_count(sem, seq![a, b]) {
                        lemma_measurements_at(sem, a, b, n, 0, loc);
                    }
                },
                QuantumOperationV::Reset(_) => {},
            }
        }
    }
}

} // verus!

verus! {

// ---------------------------------------------------------------------------
// Laws of substitution and of conditional steps.
// ---------------------------------------------------------------------------

/// Expression `e` names no identifier.
pub open spec fn has_no_identifier(e: ExpressionV) -> bool
    decreases e,
{
    match e {
        ExpressionV::Id(_) => false,
        ExpressionV::Op(_, l, r) => has_no_identifier(*l) && has_no_identifier(*r),
        ExpressionV::Function(_, a) => has_no_identifier(*a),
        ExpressionV::Minus(a) => has_no_identifier(*a),
        _ => true,
    }
}

/// Substituting the real parameters of an expression that names no
/// identifier gives the expression back unchanged, whatever the bindings:
/// every operator, function and negation keeps its place.
pub proof fn lemma_subst_no_identifier(e: ExpressionV, reals: Seq<(Seq<char>, ExpressionV)>)
    requires
        has_no_identifier(e),
    ensures
        subst(e, reals) == Ok::<ExpressionV, Seq<char>>(e),
    decreases e,
{
    match e {
        ExpressionV::Op(_, l, r) => {
            lemma_subst_no_identifier(*l, reals);
            lemma_subst_no_identifier(*r, reals);
        },
        ExpressionV::Function(_, a) => {
            lemma_subst_no_identifier(*a, reals);
        },
        ExpressionV::Minus(a) => {
            lemma_subst_no_identifier(*a, reals);
        },
        _ => {},
    }
}

/// The real parameters of a gate invocation that name no identifier are
/// passed on unchanged, in any bindings.
pub proof fn lemma_resolve_reals_no_identifier(ctx: CtxV, exprs: Seq<ExpressionV>, loc: usize)
    requires
        forall|k: int| 0 <= k < exprs.len() ==> has_no_identifier(#[trigger] exprs[k]),
    ensures
        resolve_reals(ctx, exprs, loc) == Ok::<Seq<ExpressionV>, RuntimeErrorV>(exprs),
    decreases exprs.len(),
{
    if exprs.len() > 0 {
        lemma_subst_no_identifier(exprs[0], ctx.reals);
        let rest = exprs.skip(1);
        assert forall|k: int| 0 <= k < rest.len() implies has_no_identifier(#[trigger] rest[k]) by {
            assert(rest[k] == exprs[k + 1]);
        }
        lemma_resolve_reals_no_identifier(ctx, rest, loc);
        assert(seq![exprs[0]] + rest =~= exprs);
    } else {
        assert(exprs =~= Seq::<ExpressionV>::empty());
    }
}

/// A conditional step runs on a memory exactly when the first entry of the
/// memory for its register holds its value; with no entry for the register
/// it does not run. A step that is not conditional always runs.
pub proof fn lemma_step_runs(step: StepV, memory: Seq<(Seq<char>, u64)>)
    ensures
        step matches StepV::Conditional(n, v, _) ==> (step_runs(step, memory) <==> exists|i: int|
            0 <= i < memory.len() && memory[i].0 == n && memory[i].1 == v && (forall|j: int|
                0 <= j < i ==> #[trigger] memory[j].0 != n)),
        step is Run ==> step_runs(step, memory),
{
    if let StepV::Conditional(n, v, _) = step {
        lemma_first_index(names(memory), n);
        if let Some(i) = first_index(names(memory), n) {
            assert(names(memory)[i] == memory[i].0);
            assert forall|j: int| 0 <= j < i implies #[trigger] memory[j].0 != n by {
                assert(names(memory)[j] == memory[j].0);
            }
            if !step_runs(step, memory) {
                assert forall|i2: int|
                    !(0 <= i2 < memory.len() && memory[i2].0 == n && memory[i2].1 == v && (forall|j: int|
                        0 <= j < i2 ==> #[trigger] memory[j].0 != n)) by {
                    if 0 <= i2 < memory.len() && memory[i2].0 == n && memory[i2].1 == v && (forall|j: int|
                        0 <= j < i2 ==> #[trigger] memory[j].0 != n) {
                        if i2 < i {
                            assert(memory[i2].0 != n);
                        } else if i2 > i {
                            assert(memory[i].0 != n);
                        }
                    }
                }
            }
        } else {
            assert forall|i2: int| 0 <= i2 < memory.len() implies memory[i2].0 != n by {
                assert(names(memory)[i2] == memory[i2].0);
            }
        }
    }
}

} // verus!
