//! The symbols a program declares: registers, their place in memory, and
//! gate definitions.
use vstd::prelude::*;

use crate::grammar::ast::{GateOperation, GateOperationV, OpenQasmProgram, ProgramV, SpannedV, Statement, StatementV, copy_gate_ops, copy_strings, gate_ops_view, span_view, spans_view, strings_view};
use crate::grammar::lexer::Location;
use crate::table::{assoc_insert, find, first_index, keys_of, keys_unique, lemma_first_index, lemma_first_index_found, lemma_first_index_push, lookup, names};

verus! {

/// The different types for OPENQASM values.
#[non_exhaustive]
#[derive(Debug, Clone, Copy, PartialEq, Eq, Structural, Hash)]
pub enum QasmType {
    /// A generic register.
    Register,
    /// A quantum register.
    QuantumRegister,
    /// A classical register.
    ClassicalRegister,
    /// A real value.
    RealValue,
}

/// The human readable name of a type.
pub open spec fn qasm_type_name(t: QasmType) -> Seq<char> {
    match t {
        QasmType::RealValue => "real value"@,
        QasmType::Register => "register"@,
        QasmType::QuantumRegister => "quantum register"@,
        QasmType::ClassicalRegister => "classical register"@,
    }
}

impl QasmType {
    /// The human readable name of this type.
    pub fn display(&self) -> (r: String)
        ensures
            r@ == qasm_type_name(*self),
    {
        match self {
            QasmType::RealValue => "real value".to_owned(),
            QasmType::Register => "register".to_owned(),
            QasmType::QuantumRegister => "quantum register".to_owned(),
            QasmType::ClassicalRegister => "classical register".to_owned(),
        }
    }
}

/// The kind of a register: quantum or classical.
#[derive(Debug, Clone, Copy, PartialEq, Eq, Structural, Hash)]
pub enum RegisterType {
    /// A quantum register.
    Q,
    /// A classical register.
    C,
}

/// Represent the possible semantic errors.
#[non_exhaustive]
#[derive(Debug, Clone, PartialEq, Eq, Hash)]
pub enum SemanticError {
    /// Attempt to redefine an already defined symbol.
    RedefinitionError {
        /// Name of the redefined symbol.
        symbol_name: String,
        /// Location where the redefinition happens.
        location: Location,
        /// Location of the first definition.
        previous_location: Location,
    },
}

/// Register name, type, size and definition location.
#[derive(Debug, Clone, PartialEq, Eq, Hash)]
pub struct RegisterEntry(pub String, pub RegisterType, pub usize, pub Location);

/// Register name, start index, end index.
#[derive(Debug, Clone, PartialEq, Eq, Hash)]
pub struct MemoryMapEntry(pub String, pub usize, pub usize);

/// Macro name, real arguments, register arguments, list of statements and
/// definition location.
#[derive(Debug, PartialEq)]
pub struct MacroDefinition(
    pub String,
    pub Vec<String>,
    pub Vec<String>,
    pub Vec<GateOperation>,
    pub Location,
);

/// The symbols of a program. Each table holds at most one entry per name.
#[derive(Debug, PartialEq)]
pub struct Semantics {
    /// Gate definitions by name.
    pub macro_definitions: Vec<(String, MacroDefinition)>,
    /// Registers by name.
    pub register_table: Vec<(String, RegisterEntry)>,
    /// Map quantum registers to a unique unified register while classical
    /// registers map to themselves.
    pub memory_map: Vec<(String, MemoryMapEntry)>,
    /// The number of qubits of all the quantum registers.
    pub quantum_memory_size: usize,
    /// The number of bits of all the classical registers.
    pub classical_memory_size: usize,
}

/// Collects the symbols of a program, declaration after declaration.
#[derive(Debug, PartialEq)]
pub struct SemanticsBuilder {
    semantics: Semantics,
    last_quantum_register: Option<String>,
    last_classical_register: Option<String>,
}

// ---------------------------------------------------------------------------
// Mathematical values.
// ---------------------------------------------------------------------------

/// The value of a [`RegisterEntry`].
pub struct RegisterV {
    pub name: Seq<char>,
    pub kind: RegisterType,
    pub size: usize,
    pub location: usize,
}

/// The value of a [`MemoryMapEntry`].
pub struct MemoryV {
    pub name: Seq<char>,
    pub start: usize,
    pub end: usize,
}

/// The value of a [`MacroDefinition`].
pub struct MacroV {
    pub name: Seq<char>,
    pub reals: Seq<Seq<char>>,
    pub args: Seq<Seq<char>>,
    pub body: Seq<GateOperationV>,
    pub location: usize,
}

/// The value of [`Semantics`].
pub struct SemanticsV {
    pub macros: Seq<(Seq<char>, MacroV)>,
    pub registers: Seq<(Seq<char>, RegisterV)>,
    pub memory: Seq<(Seq<char>, MemoryV)>,
    pub qsize: usize,
    pub csize: usize,
}

/// The value of a [`SemanticsBuilder`].
pub struct BuilderV {
    pub sem: SemanticsV,
    pub last_q: Option<Seq<char>>,
    pub last_c: Option<Seq<char>>,
}

/// The value of a [`SemanticError`].
pub enum SemanticErrorV {
    Redefinition { name: Seq<char>, location: usize, previous: usize },
}

impl View for RegisterEntry {
    type V = RegisterV;

    open spec fn view(&self) -> RegisterV {
        RegisterV { name: self.0@, kind: self.1, size: self.2, location: self.3.0 }
    }
}

impl View for MemoryMapEntry {
    type V = MemoryV;

    open spec fn view(&self) -> MemoryV {
        MemoryV { name: self.0@, start: self.1, end: self.2 }
    }
}

impl View for MacroDefinition {
    type V = MacroV;

    open spec fn view(&self) -> MacroV {
        MacroV {
            name: self.0@,
            reals: strings_view(self.1@),
            args: strings_view(self.2@),
            body: gate_ops_view(self.3@),
            location: self.4.0,
        }
    }
}

/// The value of a table whose entries have values.
pub open spec fn table_view<T: View>(s: Seq<(String, T)>) -> Seq<(Seq<char>, T::V)> {
    s.map_values(|e: (String, T)| (e.0@, e.1@))
}

impl View for Semantics {
    type V = SemanticsV;

    open spec fn view(&self) -> SemanticsV {
        SemanticsV {
            macros: table_view(self.macro_definitions@),
            registers: table_view(self.register_table@),
            memory: table_view(self.memory_map@),
            qsize: self.quantum_memory_size,
            csize: self.classical_memory_size,
        }
    }
}

/// The value of an optional name.
pub open spec fn opt_name(n: Option<String>) -> Option<Seq<char>> {
    match n {
        Some(s) => Some(s@),
        None => None,
    }
}

impl View for SemanticsBuilder {
    type V = BuilderV;

    closed spec fn view(&self) -> BuilderV {
        BuilderV {
            sem: self.semantics@,
            last_q: opt_name(self.last_quantum_register),
            last_c: opt_name(self.last_classical_register),
        }
    }
}

impl View for SemanticError {
    type V = SemanticErrorV;

    open spec fn view(&self) -> SemanticErrorV {
        match self {
            SemanticError::RedefinitionError { symbol_name, location, previous_location } =>
                SemanticErrorV::Redefinition {
                name: symbol_name@,
                location: location.0,
                previous: previous_location.0,
            },
        }
    }
}

// ---------------------------------------------------------------------------
// The rules that build the tables.
// ---------------------------------------------------------------------------

/// No symbols at all.
pub open spec fn empty_semantics() -> SemanticsV {
    SemanticsV {
        macros: Seq::empty(),
        registers: Seq::empty(),
        memory: Seq::empty(),
        qsize: 0,
        csize: 0,
    }
}

/// A builder that has seen no declaration.
pub open spec fn empty_builder() -> BuilderV {
    BuilderV { sem: empty_semantics(), last_q: None, last_c: None }
}

/// Mapping a quantum register of `size` qubits is possible: the first one
/// must not be empty, and a later one must fit after the previous one.
pub open spec fn map_quantum_ok(b: BuilderV, size: usize) -> bool {
    match b.last_q {
        None => size >= 1,
        Some(r) => match first_index(names(b.sem.memory), r) {
            Some(i) => b.sem.memory[i].1.end + size <= usize::MAX && b.sem.memory[i].1.end
                < usize::MAX,
            None => false,
        },
    }
}

/// The memory entry of a quantum register `name` of `size` qubits: after the
/// last quantum register mapped, or at the start.
pub open spec fn quantum_entry(b: BuilderV, name: Seq<char>, size: usize) -> MemoryV {
    match b.last_q {
        None => MemoryV { name, start: 0, end: (size - 1) as usize },
        Some(r) => {
            let last = b.sem.memory[first_index(names(b.sem.memory), r).unwrap()].1.end;
            MemoryV { name, start: (last + 1) as usize, end: (last + size) as usize }
        },
    }
}

/// `b` with the quantum register `name` of `size` qubits mapped.
pub open spec fn map_quantum(b: BuilderV, name: Seq<char>, size: usize) -> BuilderV {
    BuilderV {
        sem: SemanticsV {
            memory: assoc_insert(b.sem.memory, name, quantum_entry(b, name, size)),
            ..b.sem
        },
        ..b
    }
}

/// `b` with the classical register `name` of `size` bits mapped to itself.
pub open spec fn map_classical(b: BuilderV, name: Seq<char>, size: usize) -> BuilderV {
    BuilderV {
        sem: SemanticsV {
            memory: assoc_insert(
                b.sem.memory,
                name,
                MemoryV { name, start: 0, end: (size - 1) as usize },
            ),
            ..b.sem
        },
        ..b
    }
}

/// Declaring register `name` of `size` does not overflow or underflow.
pub open spec fn new_register_ok(b: BuilderV, name: Seq<char>, kind: RegisterType, size: usize) -> bool {
    first_index(names(b.sem.registers), name) is None ==> match kind {
        RegisterType::Q => map_quantum_ok(b, size) && b.sem.qsize + size <= usize::MAX,
        RegisterType::C => size >= 1 && b.sem.csize + size <= usize::MAX,
    }
}

/// Declaring register `name` of kind `kind` and `size` at `location`: an
/// error if the name is taken; otherwise the register is added, mapped to
/// memory and counted.
pub open spec fn new_register(
    b: BuilderV,
    name: Seq<char>,
    kind: RegisterType,
    size: usize,
    location: usize,
) -> Result<BuilderV, SemanticErrorV> {
    match first_index(names(b.sem.registers), name) {
        Some(i) => Err(
            SemanticErrorV::Redefinition {
                name,
                location,
                previous: b.sem.registers[i].1.location,
            },
        ),
        None => {
            let entry = RegisterV { name, kind, size, location };
            let b1 = BuilderV {
                sem: SemanticsV { registers: b.sem.registers.push((name, entry)), ..b.sem },
                ..b
            };
            match kind {
                RegisterType::Q => {
                    let b2 = map_quantum(b1, name, size);
                    Ok(
                        BuilderV {
                            sem: SemanticsV { qsize: (b.sem.qsize + size) as usize, ..b2.sem },
                            last_q: Some(name),
                            ..b2
                        },
                    )
                },
                RegisterType::C => {
                    let b2 = map_classical(b1, name, size);
                    Ok(
                        BuilderV {
                            sem: SemanticsV { csize: (b.sem.csize + size) as usize, ..b2.sem },
                            last_c: Some(name),
                            ..b2
                        },
                    )
                },
            }
        },
    }
}

/// Declaring gate `name` at `location`: an error if the name is taken.
pub open spec fn new_gate(
    b: BuilderV,
    name: Seq<char>,
    reals: Seq<Seq<char>>,
    args: Seq<Seq<char>>,
    body: Seq<GateOperationV>,
    location: usize,
) -> Result<BuilderV, SemanticErrorV> {
    match first_index(names(b.sem.macros), name) {
        Some(i) => Err(
            SemanticErrorV::Redefinition { name, location, previous: b.sem.macros[i].1.location },
        ),
        None => Ok(
            BuilderV {
                sem: SemanticsV {
                    macros: b.sem.macros.push(
                        (name, MacroV { name, reals, args, body, location }),
                    ),
                    ..b.sem
                },
                ..b
            },
        ),
    }
}

/// A statement can be taken into account without overflow or underflow.
pub open spec fn step_ok(b: BuilderV, s: SpannedV) -> bool {
    match s.node {
        StatementV::QRegDecl(n, size) => new_register_ok(b, n, RegisterType::Q, size),
        StatementV::CRegDecl(n, size) => new_register_ok(b, n, RegisterType::C, size),
        _ => true,
    }
}

/// Taking a statement into account: declarations add symbols, located at
/// the start of the statement; other statements change nothing.
pub open spec fn step(b: BuilderV, s: SpannedV) -> Result<BuilderV, SemanticErrorV> {
    match s.node {
        StatementV::QRegDecl(n, size) => new_register(b, n, RegisterType::Q, size, s.start as usize),
        StatementV::CRegDecl(n, size) => new_register(b, n, RegisterType::C, size, s.start as usize),
        StatementV::GateDecl(n, r, a, body) => new_gate(b, n, r, a, body, s.start as usize),
        _ => Ok(b),
    }
}

/// Taking the statements into account in order, up to the first error.
pub open spec fn run(b: BuilderV, stmts: Seq<SpannedV>) -> Result<BuilderV, SemanticErrorV>
    decreases stmts.len(),
{
    if stmts.len() == 0 {
        Ok(b)
    } else {
        match step(b, stmts[0]) {
            Ok(b2) => run(b2, stmts.skip(1)),
            Err(e) => Err(e),
        }
    }
}

/// No statement taken into account by `run` overflows or underflows.
pub open spec fn run_ok(b: BuilderV, stmts: Seq<SpannedV>) -> bool
    decreases stmts.len(),
{
    if stmts.len() == 0 {
        true
    } else {
        step_ok(b, stmts[0]) && match step(b, stmts[0]) {
            Ok(b2) => run_ok(b2, stmts.skip(1)),
            Err(_) => true,
        }
    }
}

/// The declarations of program `p` can be collected: no register is empty
/// where a size is subtracted from, and no count overflows.
pub open spec fn semantics_defined(p: ProgramV) -> bool {
    run_ok(empty_builder(), p.program)
}

/// The symbols of program `p`, or the first redefinition.
pub open spec fn semantics_of(p: ProgramV) -> Result<SemanticsV, SemanticErrorV> {
    match run(empty_builder(), p.program) {
        Ok(b) => Ok(b.sem),
        Err(e) => Err(e),
    }
}

} // verus!

verus! {

/// The names of an executable table are those of its value.
pub proof fn lemma_names<T: View>(s: Seq<(String, T)>)
    ensures
        names(table_view(s)) == keys_of(s),
{
    assert(names(table_view(s)) =~= keys_of(s));
}

impl Semantics {
    /// Creates an empty set of symbols.
    pub fn new() -> (r: Semantics)
        ensures
            r@ == empty_semantics(),
    {
        let r = Semantics {
            macro_definitions: Vec::new(),
            register_table: Vec::new(),
            memory_map: Vec::new(),
            quantum_memory_size: 0,
            classical_memory_size: 0,
        };
        assert(r@.macros =~= Seq::<(Seq<char>, MacroV)>::empty());
        assert(r@.registers =~= Seq::<(Seq<char>, RegisterV)>::empty());
        assert(r@.memory =~= Seq::<(Seq<char>, MemoryV)>::empty());
        r
    }
}

impl SemanticsBuilder {
    /// Creates a builder that has seen no declaration.
    pub fn new() -> (r: Self)
        ensures
            r@ == empty_builder(),
    {
        SemanticsBuilder {
            semantics: Semantics::new(),
            last_quantum_register: None,
            last_classical_register: None,
        }
    }

    /// The symbols collected so far.
    pub fn into_semantics(self) -> (r: Semantics)
        ensures
            r@ == self@.sem,
    {
        self.semantics
    }

    /// Declares register `name`, unless the name is taken.
    fn new_register(
        &mut self,
        name: String,
        kind: RegisterType,
        size: usize,
        location: Location,
    ) -> (r: Result<(), SemanticError>)
        ensures
            match first_index(names(old(self)@.sem.registers), name@) {
                Some(i) => r matches Err(e) && e@ == (SemanticErrorV::Redefinition {
                    name: name@,
                    location: location.0,
                    previous: old(self)@.sem.registers[i].1.location,
                }) && final(self)@ == old(self)@,
                None => r is Ok && final(self)@ == (BuilderV {
                    sem: SemanticsV {
                        registers: old(self)@.sem.registers.push(
                            (name@, RegisterV { name: name@, kind, size, location: location.0 }),
                        ),
                        ..old(self)@.sem
                    },
                    ..old(self)@
                }),
            },
    {
        proof {
            lemma_names(self.semantics.register_table@);
        }
        match find(&self.semantics.register_table, &name) {
            Some(i) => {
                let previous_location = self.semantics.register_table[i].1.3;
                Err(SemanticError::RedefinitionError { symbol_name: name, location, previous_location })
            },
            None => {
                let n2 = name.clone();
                let ghost prev = self.semantics.register_table@;
                self.semantics.register_table.push((name, RegisterEntry(n2, kind, size, location)));
                assert(table_view(self.semantics.register_table@) =~= table_view(prev).push(
                    (n2@, RegisterV { name: n2@, kind, size, location: location.0 }),
                ));
                Ok(())
            },
        }
    }

    /// Sets the memory entry of `name`.
    fn set_memory_entry(&mut self, name: String, entry: MemoryMapEntry)
        ensures
            final(self)@ == (BuilderV {
                sem: SemanticsV {
                    memory: assoc_insert(old(self)@.sem.memory, name@, entry@),
                    ..old(self)@.sem
                },
                ..old(self)@
            }),
    {
        proof {
            lemma_names(self.semantics.memory_map@);
        }
        let ghost prev = self.semantics.memory_map@;
        let ghost ev = entry@;
        match find(&self.semantics.memory_map, &name) {
            Some(i) => {
                let ghost nv = name@;
                self.semantics.memory_map.set(i, (name, entry));
                assert(table_view(self.semantics.memory_map@) =~= table_view(prev).update(
                    i as int,
                    (nv, ev),
                ));
            },
            None => {
                let ghost nv = name@;
                self.semantics.memory_map.push((name, entry));
                assert(table_view(self.semantics.memory_map@) =~= table_view(prev).push((nv, ev)));
            },
        }
    }

    /// Maps quantum register `name` of `size` qubits after the last quantum
    /// register declared, or at the start if there is none.
    pub fn map_quantum_register(&mut self, name: String, size: usize)
        requires
            map_quantum_ok(old(self)@, size),
        ensures
            final(self)@ == map_quantum(old(self)@, name@, size),
    {
        proof {
            lemma_names(self.semantics.memory_map@);
        }
        let entry = match &self.last_quantum_register {
            None => MemoryMapEntry(name.clone(), 0, size - 1),
            Some(r) => match find(&self.semantics.memory_map, r) {
                Some(i) => {
                    let last_index = self.semantics.memory_map[i].1.2;
                    MemoryMapEntry(name.clone(), last_index + 1, last_index + size)
                },
                None => MemoryMapEntry(name.clone(), 0, 0),
            },
        };
        assert(entry@ == quantum_entry(self@, name@, size));
        self.set_memory_entry(name, entry);
    }

    /// Maps classical register `name` of `size` bits to itself.
    pub fn map_classical_register(&mut self, name: String, size: usize)
        requires
            size >= 1,
        ensures
            final(self)@ == map_classical(old(self)@, name@, size),
    {
        let entry = MemoryMapEntry(name.clone(), 0, size - 1);
        self.set_memory_entry(name, entry);
    }

    /// Whether declaring register `name` of kind `kind` and `size` neither
    /// overflows nor underflows.
    pub fn can_declare(&self, name: &String, kind: RegisterType, size: usize) -> (b: bool)
        ensures
            b == new_register_ok(self@, name@, kind, size),
    {
        proof {
            lemma_names(self.semantics.register_table@);
            lemma_names(self.semantics.memory_map@);
        }
        if find(&self.semantics.register_table, name).is_some() {
            return true;
        }
        match kind {
            RegisterType::Q => {
                let mapped = match &self.last_quantum_register {
                    None => size >= 1,
                    Some(r) => match find(&self.semantics.memory_map, r) {
                        Some(i) => {
                            let end = self.semantics.memory_map[i].1.2;
                            end < usize::MAX && size <= usize::MAX - end
                        },
                        None => false,
                    },
                };
                mapped && size <= usize::MAX - self.semantics.quantum_memory_size
            },
            RegisterType::C => size >= 1 && size <= usize::MAX - self.semantics.classical_memory_size,
        }
    }

    /// Declares quantum register `name` of `size` qubits at `location`.
    pub fn new_quantum_register(&mut self, name: String, size: usize, location: Location) -> (r:
        Result<(), SemanticError>)
        requires
            new_register_ok(old(self)@, name@, RegisterType::Q, size),
        ensures
            match new_register(old(self)@, name@, RegisterType::Q, size, location.0) {
                Ok(b) => r is Ok && final(self)@ == b,
                Err(e) => r matches Err(x) && x@ == e && final(self)@ == old(self)@,
            },
    {
        match self.new_register(name.clone(), RegisterType::Q, size, location) {
            Err(e) => {
                return Err(e);
            },
            Ok(()) => {},
        }
        self.map_quantum_register(name.clone(), size);
        self.semantics.quantum_memory_size = self.semantics.quantum_memory_size + size;
        self.last_quantum_register = Some(name);
        Ok(())
    }

    /// Declares classical register `name` of `size` bits at `location`.
    pub fn new_classical_register(&mut self, name: String, size: usize, location: Location) -> (r:
        Result<(), SemanticError>)
        requires
            new_register_ok(old(self)@, name@, RegisterType::C, size),
        ensures
            match new_register(old(self)@, name@, RegisterType::C, size, location.0) {
                Ok(b) => r is Ok && final(self)@ == b,
                Err(e) => r matches Err(x) && x@ == e && final(self)@ == old(self)@,
            },
    {
        match self.new_register(name.clone(), RegisterType::C, size, location) {
            Err(e) => {
                return Err(e);
            },
            Ok(()) => {},
        }
        self.map_classical_register(name.clone(), size);
        self.semantics.classical_memory_size = self.semantics.classical_memory_size + size;
        self.last_classical_register = Some(name);
        Ok(())
    }

    /// Declares gate `name` at `location`, unless the name is taken.
    pub fn new_gate(
        &mut self,
        name: String,
        real_args: Vec<String>,
        args: Vec<String>,
        body: Vec<GateOperation>,
        location: Location,
    ) -> (r: Result<(), SemanticError>)
        ensures
            match new_gate(
                old(self)@,
                name@,
                strings_view(real_args@),
                strings_view(args@),
                gate_ops_view(body@),
                location.0,
            ) {
                Ok(b) => r is Ok && final(self)@ == b,
                Err(e) => r matches Err(x) && x@ == e && final(self)@ == old(self)@,
            },
    {
        proof {
            lemma_names(self.semantics.macro_definitions@);
        }
        match find(&self.semantics.macro_definitions, &name) {
            Some(i) => {
                let previous_location = self.semantics.macro_definitions[i].1.4;
                Err(SemanticError::RedefinitionError { symbol_name: name, location, previous_location })
            },
            None => {
                let ghost prev = self.semantics.macro_definitions@;
                let n2 = name.clone();
                let def = MacroDefinition(n2, real_args, args, body, location);
                let ghost dv = def@;
                let ghost nv = name@;
                self.semantics.macro_definitions.push((name, def));
                assert(table_view(self.semantics.macro_definitions@) =~= table_view(prev).push(
                    (nv, dv),
                ));
                Ok(())
            },
        }
    }
}

/// Collects the symbols of `tree`: its registers, where they live in memory
/// and its gate definitions, failing at the first redefinition.
pub fn extract_semantics(tree: &OpenQasmProgram) -> (r: Result<Semantics, SemanticError>)
    requires
        semantics_defined(tree@),
    ensures
        match semantics_of(tree@) {
            Ok(s) => r matches Ok(x) && x@ == s,
            Err(e) => r matches Err(x) && x@ == e,
        },
{
    let mut builder = SemanticsBuilder::new();
    let ghost stmts = tree@.program;
    let mut k: usize = 0;
    assert(stmts.skip(0) =~= stmts);
    while k < tree.program.len()
        invariant
            stmts == tree@.program,
            stmts.len() == tree.program@.len(),
            k <= stmts.len(),
            run(builder@, stmts.skip(k as int)) == run(empty_builder(), stmts),
            run_ok(builder@, stmts.skip(k as int)),
        decreases stmts.len() - k,
    {
        let span = &tree.program[k];
        let location = span.boundaries.0;
        let ghost sv = stmts[k as int];
        assert(stmts.skip(k as int)[0] == sv);
        assert(stmts.skip(k as int).skip(1) =~= stmts.skip(k + 1));
        assert(sv == span_view(*span));
        match &*span.node {
            Statement::QRegDecl(name, size) => {
                match builder.new_quantum_register(name.clone(), *size, location) {
                    Err(e) => {
                        return Err(e);
                    },
                    Ok(()) => {},
                }
            },
            Statement::CRegDecl(name, size) => {
                match builder.new_classical_register(name.clone(), *size, location) {
                    Err(e) => {
                        return Err(e);
                    },
                    Ok(()) => {},
                }
            },
            Statement::GateDecl(name, real_args, args, operations) => {
                match builder.new_gate(
                    name.clone(),
                    copy_strings(real_args),
                    copy_strings(args),
                    copy_gate_ops(operations),
                    location,
                ) {
                    Err(e) => {
                        return Err(e);
                    },
                    Ok(()) => {},
                }
            },
            _ => {},
        }
        k += 1;
    }
    assert(stmts.skip(k as int) =~= Seq::<SpannedV>::empty());
    Ok(builder.into_semantics())
}

/// Collects the symbols of `tree` as [`extract_semantics`] does, or `None`
/// where a register of no size is declared or a size overflows.
pub fn try_extract_semantics(tree: &OpenQasmProgram) -> (r: Option<Result<Semantics, SemanticError>>)
    ensures
        r is None <==> !semantics_defined(tree@),
        r matches Some(res) ==> match semantics_of(tree@) {
            Ok(s) => res matches Ok(x) && x@ == s,
            Err(e) => res matches Err(x) && x@ == e,
        },
{
    let mut builder = SemanticsBuilder::new();
    let ghost stmts = tree@.program;
    let mut k: usize = 0;
    assert(stmts.skip(0) =~= stmts);
    while k < tree.program.len()
        invariant
            stmts == tree@.program,
            stmts.len() == tree.program@.len(),
            k <= stmts.len(),
            run(builder@, stmts.skip(k as int)) == run(empty_builder(), stmts),
            run_ok(builder@, stmts.skip(k as int)) == run_ok(empty_builder(), stmts),
        decreases stmts.len() - k,
    {
        let span = &tree.program[k];
        let location = span.boundaries.0;
        let ghost sv = stmts[k as int];
        assert(stmts.skip(k as int)[0] == sv);
        assert(stmts.skip(k as int).skip(1) =~= stmts.skip(k + 1));
        assert(sv == span_view(*span));
        match &*span.node {
            Statement::QRegDecl(name, size) => {
                if !builder.can_declare(name, RegisterType::Q, *size) {
                    return None;
                }
                match builder.new_quantum_register(name.clone(), *size, location) {
                    Err(e) => {
                        return Some(Err(e));
                    },
                    Ok(()) => {},
                }
            },
            Statement::CRegDecl(name, size) => {
                if !builder.can_declare(name, RegisterType::C, *size) {
                    return None;
                }
                match builder.new_classical_register(name.clone(), *size, location) {
                    Err(e) => {
                        return Some(Err(e));
                    },
                    Ok(()) => {},
                }
            },
            Statement::GateDecl(name, real_args, args, operations) => {
                match builder.new_gate(
                    name.clone(),
                    copy_strings(real_args),
                    copy_strings(args),
                    copy_gate_ops(operations),
                    location,
                ) {
                    Err(e) => {
                        return Some(Err(e));
                    },
                    Ok(()) => {},
                }
            },
            _ => {},
        }
        k += 1;
    }
    assert(stmts.skip(k as int) =~= Seq::<SpannedV>::empty());
    Some(Ok(builder.into_semantics()))
}

/// The registers and gates collected by `b` are declared within the first
/// `n` characters.
pub open spec fn locations_within(b: BuilderV, n: int) -> bool {
    &&& forall|i: int| 0 <= i < b.sem.registers.len() ==> #[trigger] b.sem.registers[i].1.location <= n
    &&& forall|i: int| 0 <= i < b.sem.macros.len() ==> #[trigger] b.sem.macros[i].1.location <= n
}

/// A builder that has seen no declaration has its declarations anywhere.
pub proof fn lemma_empty_locations(n: int)
    ensures
        locations_within(empty_builder(), n),
{
}

/// Collecting the symbols of statements that start within the first `n`
/// characters keeps every declaration within them, and a redefinition is
/// reported at two places within them.
pub proof fn lemma_run_locations(b: BuilderV, stmts: Seq<SpannedV>, n: int)
    requires
        locations_within(b, n),
        crate::linker::starts_within(stmts, n),
        n <= usize::MAX,
    ensures
        match run(b, stmts) {
            Ok(b2) => locations_within(b2, n),
            Err(SemanticErrorV::Redefinition { location, previous, .. }) => location <= n && previous <= n,
        },
    decreases stmts.len(),
{
    if stmts.len() > 0 {
        let s = stmts[0];
        assert(0 <= s.start <= n);
        let rest = stmts.skip(1);
        assert(crate::linker::starts_within(rest, n)) by {
            assert forall|k: int| 0 <= k < rest.len() implies 0 <= #[trigger] rest[k].start <= n by {
                assert(rest[k] == stmts[k + 1]);
            }
        }
        match step(b, s) {
            Ok(b2) => {
                assert(locations_within(b2, n)) by {
                    assert forall|i: int| 0 <= i < b2.sem.registers.len() implies #[trigger] b2.sem.registers[i].1.location
                        <= n by {
                        if i < b.sem.registers.len() {
                            assert(b.sem.registers[i].1.location <= n);
                        }
                    }
                    assert forall|i: int| 0 <= i < b2.sem.macros.len() implies #[trigger] b2.sem.macros[i].1.location
                        <= n by {
                        if i < b.sem.macros.len() {
                            assert(b.sem.macros[i].1.location <= n);
                        }
                    }
                }
                lemma_run_locations(b2, rest, n);
            },
            Err(e) => {
                match s.node {
                    StatementV::QRegDecl(nm, _) => {
                        crate::table::lemma_first_index(names(b.sem.registers), nm);
                    },
                    StatementV::CRegDecl(nm, _) => {
                        crate::table::lemma_first_index(names(b.sem.registers), nm);
                    },
                    StatementV::GateDecl(nm, _, _, _) => {
                        crate::table::lemma_first_index(names(b.sem.macros), nm);
                    },
                    _ => {},
                }
            },
        }
    }
}


// ---------------------------------------------------------------------------
// Where the registers live in memory.
// ---------------------------------------------------------------------------

/// The total size of the registers of kind `kind` among `regs`.
pub open spec fn total_size(regs: Seq<(Seq<char>, RegisterV)>, kind: RegisterType) -> nat
    decreases regs.len(),
{
    if regs.len() == 0 {
        0
    } else {
        total_size(regs.drop_last(), kind) + if regs.last().1.kind == kind {
            regs.last().1.size as nat
        } else {
            0nat
        }
    }
}

/// How many qubits or bits a memory entry spans.
pub open spec fn entry_size(e: MemoryV) -> int {
    if e.end >= e.start {
        e.end - e.start + 1
    } else {
        0
    }
}

/// The memory entry of the `i`-th register of `s` bears its name and spans
/// its size, ending `size - 1` after its start for a register that is not
/// empty; a classical one starts at bit 0, a quantum one right after the
/// quantum registers declared before it, at the sum of their sizes.
pub open spec fn register_laid_out(s: SemanticsV, i: int) -> bool {
    let r = s.registers[i].1;
    match lookup(s.memory, s.registers[i].0) {
        Some(m) => m.name == s.registers[i].0 && entry_size(m) == r.size && (r.size >= 1 ==> m.end
            == m.start + r.size - 1) && match r.kind {
            RegisterType::C => m.start == 0,
            RegisterType::Q => m.start == total_size(s.registers.take(i), RegisterType::Q),
        },
        None => false,
    }
}

/// The memory layout of symbols `s`: every register laid out, and the
/// quantum and classical memory sizes the totals of the register sizes.
pub open spec fn layout_ok(s: SemanticsV) -> bool {
    &&& s.qsize == total_size(s.registers, RegisterType::Q)
    &&& s.csize == total_size(s.registers, RegisterType::C)
    &&& forall|i: int| 0 <= i < s.registers.len() ==> #[trigger] register_laid_out(s, i)
}

/// Every quantum register of `s` lies within the quantum memory.
pub open spec fn quantum_within(s: SemanticsV) -> bool {
    forall|i: int|
        0 <= i < s.registers.len() && #[trigger] s.registers[i].1.kind == RegisterType::Q
            ==> lookup(s.memory, s.registers[i].0)->Some_0.start + s.registers[i].1.size <= s.qsize
}

/// The quantum registers of `s` do not overlap: each one ends before any
/// quantum register declared after it starts.
pub open spec fn quantum_disjoint(s: SemanticsV) -> bool {
    forall|i: int, j: int|
        0 <= i < j < s.registers.len() && #[trigger] s.registers[i].1.kind == RegisterType::Q
            && #[trigger] s.registers[j].1.kind == RegisterType::Q ==> lookup(
            s.memory,
            s.registers[i].0,
        )->Some_0.start + s.registers[i].1.size <= lookup(s.memory, s.registers[j].0)->Some_0.start
}

/// What collecting declarations keeps of a builder besides the layout: no
/// register is declared twice, only registers are in memory, and the last
/// quantum register ends where the quantum memory does.
pub open spec fn builder_inv(b: BuilderV) -> bool {
    &&& layout_ok(b.sem)
    &&& keys_unique(names(b.sem.registers))
    &&& forall|j: int| 0 <= j < b.sem.memory.len() ==> #[trigger] first_index(names(b.sem.registers), b.sem.memory[j].0) is Some
    &&& match b.last_q {
        None => b.sem.qsize == 0,
        Some(r) => match lookup(b.sem.memory, r) {
            Some(m) => m.end + 1 == b.sem.qsize,
            None => false,
        },
    }
}

/// Looking up in a table with one more entry.
proof fn lemma_lookup_push<X>(s: Seq<(Seq<char>, X)>, k: Seq<char>, v: X, n: Seq<char>)
    ensures
        lookup(s.push((k, v)), n) == (match first_index(names(s), n) {
            Some(_) => lookup(s, n),
            None => if n == k {
                Some(v)
            } else {
                None
            },
        }),
{
    assert(names(s.push((k, v))) =~= names(s).push(k));
    lemma_first_index_push(names(s), k, n);
    lemma_first_index(names(s), n);
}

/// The total size of a table with one more register.
proof fn lemma_total_size_push(regs: Seq<(Seq<char>, RegisterV)>, x: (Seq<char>, RegisterV), kind: RegisterType)
    ensures
        total_size(regs.push(x), kind) == total_size(regs, kind) + if x.1.kind == kind {
            x.1.size as nat
        } else {
            0nat
        },
{
    assert(regs.push(x).drop_last() =~= regs);
}

/// The total size of a prefix grows with the prefix.
proof fn lemma_total_size_prefix(regs: Seq<(Seq<char>, RegisterV)>, i: int, kind: RegisterType)
    requires
        0 <= i < regs.len(),
    ensures
        total_size(regs.take(i + 1), kind) == total_size(regs.take(i), kind) + if regs[i].1.kind == kind {
            regs[i].1.size as nat
        } else {
            0nat
        },
        total_size(regs.take(i + 1), kind) <= total_size(regs, kind),
    decreases regs.len() - i,
{
    assert(regs.take(i + 1) =~= regs.take(i).push(regs[i]));
    lemma_total_size_push(regs.take(i), regs[i], kind);
    if i + 1 < regs.len() {
        lemma_total_size_prefix(regs, i + 1, kind);
    } else {
        assert(regs.take(i + 1) =~= regs);
    }
}

/// A declaration keeps the builder invariant.
proof fn lemma_step_inv(b: BuilderV, s: SpannedV)
    requires
        builder_inv(b),
        step_ok(b, s),
    ensures
        step(b, s) matches Ok(b2) ==> builder_inv(b2),
{
    match s.node {
        StatementV::QRegDecl(n, size) => lemma_new_register_inv(b, n, RegisterType::Q, size, s.start as usize),
        StatementV::CRegDecl(n, size) => lemma_new_register_inv(b, n, RegisterType::C, size, s.start as usize),
        StatementV::GateDecl(n, r, a, body) => {
            if let Ok(b2) = new_gate(b, n, r, a, body, s.start as usize) {
                assert forall|i: int| 0 <= i < b2.sem.registers.len() implies #[trigger] register_laid_out(
                    b2.sem,
                    i,
                ) by {
                    assert(register_laid_out(b.sem, i));
                }
            }
        },
        _ => {},
    }
}

/// Declaring a register keeps the builder invariant.
proof fn lemma_new_register_inv(b: BuilderV, n: Seq<char>, kind: RegisterType, size: usize, location: usize)
    requires
        builder_inv(b),
        new_register_ok(b, n, kind, size),
    ensures
        new_register(b, n, kind, size, location) matches Ok(b2) ==> builder_inv(b2),
{
    lemma_first_index(names(b.sem.registers), n);
    if first_index(names(b.sem.registers), n) is None {
        let regs = b.sem.registers;
        let mem = b.sem.memory;
        let entry = RegisterV { name: n, kind, size, location };
        let regs2 = regs.push((n, entry));
        let b2 = new_register(b, n, kind, size, location)->Ok_0;
        let m = if kind == RegisterType::Q {
            quantum_entry(BuilderV { sem: SemanticsV { registers: regs2, ..b.sem }, ..b }, n, size)
        } else {
            MemoryV { name: n, start: 0, end: (size - 1) as usize }
        };
        // The name is new to the memory too.
        lemma_first_index(names(mem), n);
        assert(first_index(names(mem), n) is None) by {
            if first_index(names(mem), n) is Some {
                let j = first_index(names(mem), n).unwrap();
                assert(names(mem)[j] == mem[j].0);
            }
        }
        assert(b2.sem.memory == mem.push((n, m)));
        assert(b2.sem.registers == regs2);
        assert(names(regs2) =~= names(regs).push(n));
        lemma_total_size_push(regs, (n, entry), RegisterType::Q);
        lemma_total_size_push(regs, (n, entry), RegisterType::C);
        // Old registers keep their entries.
        assert forall|i: int| 0 <= i < regs2.len() implies #[trigger] register_laid_out(b2.sem, i) by {
            lemma_lookup_push(mem, n, m, regs2[i].0);
            if i < regs.len() {
                assert(regs2[i] == regs[i]);
                assert(regs2.take(i) =~= regs.take(i));
                assert(register_laid_out(b.sem, i));
                lemma_first_index_found(names(regs), i);
                assert(names(regs)[i] == regs[i].0);
                lemma_first_index(names(mem), regs[i].0);
                assert(first_index(names(mem), regs[i].0) is Some);
            } else {
                assert(regs2.take(i) =~= regs);
                lemma_first_index(names(mem), n);
                match kind {
                    RegisterType::Q => {
                        match b.last_q {
                            None => {},
                            Some(r) => {
                                lemma_first_index(names(mem), r);
                            },
                        }
                    },
                    RegisterType::C => {},
                }
            }
        }
        assert forall|j: int| 0 <= j < b2.sem.memory.len() implies #[trigger] first_index(
            names(b2.sem.registers),
            b2.sem.memory[j].0,
        ) is Some by {
            lemma_first_index_push(names(regs), n, b2.sem.memory[j].0);
            assert(names(b2.sem.registers) == names(regs).push(n));
            if j < mem.len() {
                assert(b2.sem.memory[j] == mem[j]);
                assert(first_index(names(regs), mem[j].0) is Some);
            } else {
                assert(b2.sem.memory[j].0 == n);
            }
        }
        assert(keys_unique(names(regs2))) by {
            assert forall|i: int, j: int| 0 <= i < j < names(regs2).len() implies names(regs2)[i]
                != names(regs2)[j] by {
                if j == regs.len() {
                    assert(names(regs)[i] == names(regs2)[i]);
                }
            }
        }
        match kind {
            RegisterType::Q => {
                lemma_lookup_push(mem, n, m, n);
            },
            RegisterType::C => {
                match b.last_q {
                    None => {},
                    Some(r) => {
                        lemma_lookup_push(mem, n, m, r);
                        lemma_first_index(names(mem), r);
                    },
                }
            },
        }
    }
}

/// Collecting declarations keeps the builder invariant.
proof fn lemma_run_inv(b: BuilderV, stmts: Seq<SpannedV>)
    requires
        builder_inv(b),
        run_ok(b, stmts),
    ensures
        run(b, stmts) matches Ok(b2) ==> builder_inv(b2),
    decreases stmts.len(),
{
    if stmts.len() > 0 {
        lemma_step_inv(b, stmts[0]);
        match step(b, stmts[0]) {
            Ok(b2) => lemma_run_inv(b2, stmts.skip(1)),
            Err(_) => {},
        }
    }
}

/// The memory layout of a program's symbols: no register name is declared
/// twice; every register has a memory entry as large as the register and
/// named after it; classical registers start at bit 0; quantum registers
/// lie one after another in declaration order, without overlap, each within
/// the quantum memory; and the quantum and classical memory sizes are the
/// sums of the sizes of the registers of each kind.
pub proof fn lemma_memory_layout(p: ProgramV)
    requires
        semantics_defined(p),
    ensures
        semantics_of(p) matches Ok(s) ==> layout_ok(s) && quantum_within(s) && quantum_disjoint(s)
            && keys_unique(names(s.registers)),
{
    assert(builder_inv(empty_builder())) by {
        assert(names(empty_builder().sem.registers) =~= Seq::<Seq<char>>::empty());
    }
    lemma_run_inv(empty_builder(), p.program);
    if semantics_of(p) is Ok {
        let s = semantics_of(p)->Ok_0;
        assert forall|i: int|
            0 <= i < s.registers.len() && #[trigger] s.registers[i].1.kind == RegisterType::Q
                implies lookup(s.memory, s.registers[i].0)->Some_0.start + s.registers[i].1.size
            <= s.qsize by {
            assert(register_laid_out(s, i));
            lemma_total_size_prefix(s.registers, i, RegisterType::Q);
        }
        assert forall|i: int, j: int|
            0 <= i < j < s.registers.len() && #[trigger] s.registers[i].1.kind == RegisterType::Q
                && #[trigger] s.registers[j].1.kind == RegisterType::Q implies lookup(
                s.memory,
                s.registers[i].0,
            )->Some_0.start + s.registers[i].1.size <= lookup(s.memory, s.registers[j].0)->Some_0.start by {
            assert(register_laid_out(s, i));
            assert(register_laid_out(s, j));
            let pre = s.registers.take(j);
            assert(pre[i] == s.registers[i]);
            lemma_total_size_prefix(pre, i, RegisterType::Q);
            assert(pre.take(i) =~= s.registers.take(i));
        }
    }
}

} // verus!
