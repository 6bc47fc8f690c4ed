//! The syntax tree of an assembly program: modules, machines and their
//! statements.

use crate::parsed::{Expression, Natural, PilStatement, TypedExpression};
use crate::path::SymbolPath;
use crate::source::SourceRef;
use crate::sequence::{current_values, each_mut};
use crate::types::values_of_refs;
use vstd::prelude::*;

verus! {

#[derive(Default, Clone, Debug, PartialEq, Eq)]
pub struct ASMProgram {
    pub main: ASMModule,
}

#[derive(Default, Debug, PartialEq, Eq)]
pub struct ASMModule {
    pub statements: Vec<ModuleStatement>,
}

#[derive(Debug, PartialEq, Eq)]
pub enum ModuleStatement {
    SymbolDefinition(SymbolDefinition),
}

#[derive(Debug, PartialEq, Eq)]
pub struct SymbolDefinition {
    pub name: String,
    pub value: SymbolValue,
}

#[derive(Debug, PartialEq, Eq)]
pub enum SymbolValue {
    /// A machine definition.
    Machine(Machine),
    /// An import of a symbol from another module.
    Import(Import),
    /// A module definition.
    Module(Module),
    /// A generic symbol or function.
    Expression(TypedExpression),
}

#[derive(Debug, PartialEq, Eq)]
pub enum SymbolValueRef<'a> {
    /// A machine definition.
    Machine(&'a Machine),
    /// An import of a symbol from another module.
    Import(&'a Import),
    /// A module definition.
    Module(ModuleRef<'a>),
    /// A generic symbol or function.
    Expression(&'a TypedExpression),
}

#[derive(Debug, PartialEq, Eq)]
pub enum Module {
    External(String),
    Local(ASMModule),
}

#[derive(Debug, PartialEq, Eq)]
pub enum ModuleRef<'a> {
    External(&'a str),
    Local(&'a ASMModule),
}

#[derive(Debug, PartialEq, Eq, Clone)]
pub struct Import {
    /// The path imported in the source.
    pub path: SymbolPath,
}

#[derive(Debug, PartialEq, Eq, Clone)]
pub struct Machine {
    pub arguments: MachineArguments,
    pub statements: Vec<MachineStatement>,
}

#[derive(Debug, PartialEq, Eq, PartialOrd, Ord, Default, Clone)]
pub struct MachineArguments {
    pub latch: Option<String>,
    pub operation_id: Option<String>,
}

#[derive(Debug, PartialEq, Eq, PartialOrd, Ord, Clone, Default)]
pub struct Params {
    pub inputs: Vec<Param>,
    pub outputs: Vec<Param>,
}

/// The operation id needed to call a function from the outside.
#[derive(Debug, PartialEq, Eq, PartialOrd, Ord, Clone)]
pub struct OperationId {
    pub id: Option<Natural>,
}

#[derive(Debug, PartialEq, Eq, Clone, PartialOrd, Ord)]
pub struct Instruction {
    pub params: Params,
    pub body: InstructionBody,
}

#[derive(Debug, PartialEq, Eq, PartialOrd, Ord, Clone)]
pub enum MachineStatement {
    Degree(SourceRef, Natural),
    Pil(SourceRef, PilStatement),
    Submachine(SourceRef, SymbolPath, String),
    RegisterDeclaration(SourceRef, String, Option<RegisterFlag>),
    InstructionDeclaration(SourceRef, String, Instruction),
    LinkDeclaration(SourceRef, LinkDeclaration),
    FunctionDeclaration(SourceRef, String, Params, Vec<FunctionStatement>),
    OperationDeclaration(SourceRef, String, OperationId, Params),
}

#[derive(Debug, PartialEq, Eq, PartialOrd, Ord, Clone)]
pub struct LinkDeclaration {
    pub flag: Expression,
    pub to: CallableRef,
}

#[derive(Debug, PartialEq, Eq, PartialOrd, Ord, Clone)]
pub struct CallableRef {
    pub instance: String,
    pub callable: String,
    pub params: Params,
}

#[derive(Debug, PartialEq, Eq, PartialOrd, Ord, Clone)]
pub enum InstructionBody {
    Local(Vec<PilStatement>),
    CallableRef(CallableRef),
}

#[derive(Clone, Debug, PartialEq, Eq, PartialOrd, Ord)]
pub enum AssignmentRegister {
    Register(String),
    Wildcard,
}

#[derive(Debug, PartialEq, Eq, PartialOrd, Ord, Clone)]
pub enum FunctionStatement {
    Assignment(SourceRef, Vec<String>, Option<Vec<AssignmentRegister>>, Box<Expression>),
    Instruction(SourceRef, String, Vec<Expression>),
    Label(SourceRef, String),
    DebugDirective(SourceRef, DebugDirective),
    Return(SourceRef, Vec<Expression>),
}

#[derive(Debug, PartialEq, Eq, PartialOrd, Ord, Clone)]
pub enum DebugDirective {
    File(usize, String, String),
    Loc(usize, usize, usize),
    OriginalInstruction(String),
}

#[derive(Debug, PartialEq, Eq, PartialOrd, Ord, Clone)]
pub enum RegisterFlag {
    IsPC,
    IsAssignment,
    IsReadOnly,
}

#[derive(Debug, PartialEq, Eq, PartialOrd, Ord, Clone)]
pub struct Param {
    pub name: String,
    pub index: Option<Natural>,
    pub ty: Option<String>,
}

/// The symbol definition that a module statement holds.
pub open spec fn definition_of(statement: ModuleStatement) -> SymbolDefinition {
    match statement {
        ModuleStatement::SymbolDefinition(d) => d,
    }
}

impl ASMModule {
    fn duplicate(&self) -> (copy: Self)
        ensures
            copy.statements@.len() == self.statements@.len(),
        decreases self,
    {
        let mut statements: Vec<ModuleStatement> = Vec::new();
        let mut i: usize = 0;
        while i < self.statements.len()
            invariant
                i <= self.statements.len(),
                statements@.len() == i,
            decreases self.statements.len() - i,
        {
            proof {
                vstd::std_specs::vec::axiom_vec_index_decreases(self.statements, i as int);
            }
            let copy = match &self.statements[i] {
                ModuleStatement::SymbolDefinition(definition) => {
                    let value = match &definition.value {
                        SymbolValue::Machine(machine) => SymbolValue::Machine(machine.clone()),
                        SymbolValue::Import(import) => SymbolValue::Import(import.clone()),
                        SymbolValue::Module(Module::External(name)) => SymbolValue::Module(
                            Module::External(name.clone()),
                        ),
                        SymbolValue::Module(Module::Local(module)) => SymbolValue::Module(
                            Module::Local(module.duplicate()),
                        ),
                        SymbolValue::Expression(expression) => SymbolValue::Expression(
                            expression.clone(),
                        ),
                    };
                    ModuleStatement::SymbolDefinition(
                        SymbolDefinition { name: definition.name.clone(), value },
                    )
                },
            };
            statements.push(copy);
            i += 1;
        }
        ASMModule { statements }
    }
}

impl Clone for ASMModule {
    fn clone(&self) -> (copy: Self)
        ensures
            copy.statements@.len() == self.statements@.len(),
    {
        self.duplicate()
    }
}

impl Clone for Module {
    fn clone(&self) -> (copy: Self) {
        match self {
            Module::External(name) => Module::External(name.clone()),
            Module::Local(module) => Module::Local(module.duplicate()),
        }
    }
}

impl Clone for SymbolValue {
    fn clone(&self) -> (copy: Self) {
        match self {
            SymbolValue::Machine(machine) => SymbolValue::Machine(machine.clone()),
            SymbolValue::Import(import) => SymbolValue::Import(import.clone()),
            SymbolValue::Module(module) => SymbolValue::Module(module.clone()),
            SymbolValue::Expression(expression) => SymbolValue::Expression(expression.clone()),
        }
    }
}

impl Clone for SymbolDefinition {
    fn clone(&self) -> (copy: Self) {
        SymbolDefinition { name: self.name.clone(), value: self.value.clone() }
    }
}

impl Clone for ModuleStatement {
    fn clone(&self) -> (copy: Self) {
        match self {
            ModuleStatement::SymbolDefinition(definition) => ModuleStatement::SymbolDefinition(
                definition.clone(),
            ),
        }
    }
}

impl ASMModule {
    /// The symbol definitions of the module, in order.
    pub fn symbol_definitions(&self) -> (definitions: Vec<&SymbolDefinition>)
        ensures
            values_of_refs(definitions@) == self.statements@.map_values(
                |s: ModuleStatement| definition_of(s),
            ),
    {
        let mut definitions: Vec<&SymbolDefinition> = Vec::new();
        let mut i: usize = 0;
        while i < self.statements.len()
            invariant
                i <= self.statements.len(),
                definitions@.len() == i,
                forall|k: int| 0 <= k < i ==> *definitions@[k] == definition_of(self.statements@[k]),
            decreases self.statements.len() - i,
        {
            match &self.statements[i] {
                ModuleStatement::SymbolDefinition(d) => {
                    definitions.push(d);
                },
            }
            i += 1;
        }
        assert(values_of_refs(definitions@) =~= self.statements@.map_values(
            |s: ModuleStatement| definition_of(s),
        ));
        definitions
    }
}

impl Module {
    fn as_ref(&self) -> (borrowed: ModuleRef)
        ensures
            match (*self, borrowed) {
                (Module::External(name), ModuleRef::External(n)) => n@ == name@,
                (Module::Local(module), ModuleRef::Local(m)) => *m == module,
                _ => false,
            },
    {
        match self {
            Module::External(name) => ModuleRef::External(name.as_str()),
            Module::Local(module) => ModuleRef::Local(module),
        }
    }
}

impl SymbolValue {
    /// The value, borrowed.
    pub fn as_ref(&self) -> (borrowed: SymbolValueRef)
        ensures
            match (*self, borrowed) {
                (SymbolValue::Machine(machine), SymbolValueRef::Machine(m)) => *m == machine,
                (SymbolValue::Import(import), SymbolValueRef::Import(i)) => *i == import,
                (SymbolValue::Module(module), SymbolValueRef::Module(m)) => match (module, m) {
                    (Module::External(name), ModuleRef::External(n)) => n@ == name@,
                    (Module::Local(inner), ModuleRef::Local(i)) => *i == inner,
                    _ => false,
                },
                (SymbolValue::Expression(expression), SymbolValueRef::Expression(e)) => *e
                    == expression,
                _ => false,
            },
    {
        match self {
            SymbolValue::Machine(machine) => SymbolValueRef::Machine(machine),
            SymbolValue::Import(import) => SymbolValueRef::Import(import),
            SymbolValue::Module(module) => SymbolValueRef::Module(module.as_ref()),
            SymbolValue::Expression(expression) => SymbolValueRef::Expression(expression),
        }
    }
}

/// The names that a machine statement defines: that of a register, or those
/// of a PIL statement.
pub open spec fn names_of_statement(statement: MachineStatement) -> Seq<String> {
    match statement {
        MachineStatement::RegisterDeclaration(_, name, _) => seq![name],
        MachineStatement::Pil(_, pil) => pil.spec_symbol_definition_names(),
        _ => Seq::empty(),
    }
}

/// The names that the statements define, one list after the other.
pub open spec fn names_of_statements(statements: Seq<MachineStatement>) -> Seq<String>
    decreases statements.len(),
{
    if statements.len() == 0 {
        Seq::empty()
    } else {
        names_of_statements(statements.drop_last()) + names_of_statement(statements.last())
    }
}

impl Machine {
    /// The names of the registers and symbols that the machine defines, in
    /// the order of its statements.
    pub fn local_names(&self) -> (names: Vec<&String>)
        ensures
            values_of_refs(names@) == names_of_statements(self.statements@),
    {
        let mut names: Vec<&String> = Vec::new();
        let mut i: usize = 0;
        assert(values_of_refs(names@) =~= names_of_statements(self.statements@.take(0)));
        while i < self.statements.len()
            invariant
                i <= self.statements.len(),
                values_of_refs(names@) == names_of_statements(self.statements@.take(i as int)),
            decreases self.statements.len() - i,
        {
            let mut more = match &self.statements[i] {
                MachineStatement::RegisterDeclaration(_, name, _) => {
                    let mut one: Vec<&String> = Vec::new();
                    one.push(name);
                    assert(values_of_refs(one@) =~= seq![*name]);
                    one
                },
                MachineStatement::Pil(_, statement) => statement.symbol_definition_names(),
                _ => {
                    let none: Vec<&String> = Vec::new();
                    assert(values_of_refs(none@) =~= Seq::<String>::empty());
                    none
                },
            };
            proof {
                let all = self.statements@;
                assert(all.take(i + 1).drop_last() =~= all.take(i as int));
                assert(values_of_refs(names@ + more@) =~= values_of_refs(names@) + values_of_refs(
                    more@,
                ));
            }
            names.append(&mut more);
            i += 1;
        }
        assert(self.statements@.take(i as int) =~= self.statements@);
        names
    }
}

impl Params {
    /// The parameters with the given inputs and outputs.
    pub fn new(inputs: Vec<Param>, outputs: Vec<Param>) -> (params: Self)
        ensures
            params.inputs == inputs,
            params.outputs == outputs,
    {
        Params { inputs, outputs }
    }

    /// Whether there are neither inputs nor outputs.
    pub fn is_empty(&self) -> (empty: bool)
        ensures
            empty == (self.inputs@.len() == 0 && self.outputs@.len() == 0),
    {
        self.inputs.len() == 0 && self.outputs.len() == 0
    }

    /// The inputs and then the outputs.
    pub fn inputs_and_outputs(&self) -> (params: Vec<&Param>)
        ensures
            values_of_refs(params@) == self.inputs@ + self.outputs@,
    {
        let mut params = crate::parsed::refs_of(&self.inputs);
        let mut more = crate::parsed::refs_of(&self.outputs);
        proof {
            assert(values_of_refs(params@ + more@) =~= values_of_refs(params@) + values_of_refs(
                more@,
            ));
        }
        params.append(&mut more);
        params
    }
}

impl Params {
    /// Mutable references to the inputs and then to the outputs. What is
    /// written through them is what the parameters are afterwards; their
    /// numbers do not change.
    pub fn inputs_and_outputs_mut(&mut self) -> (params: Vec<&mut Param>)
        ensures
            current_values(params@) == old(self).inputs@ + old(self).outputs@,
            final(self).inputs@.len() == old(self).inputs@.len(),
            final(self).outputs@.len() == old(self).outputs@.len(),
            (final(self).inputs@ + final(self).outputs@).len() == params@.len(),
            forall|i: int|
                0 <= i < params@.len() ==> (final(self).inputs@ + final(self).outputs@)[i]
                    == *final(#[trigger] params@[i]),
    {
        let mut params = each_mut(&mut self.inputs);
        let mut more = each_mut(&mut self.outputs);
        let ghost first = params@;
        let ghost second = more@;
        params.append(&mut more);
        proof {
            assert(params@ =~= first + second);
            assert(current_values(params@) =~= current_values(first) + current_values(second));
        }
        params
    }
}

impl AssignmentRegister {
    /// The name of the register. A wildcard has none.
    pub fn unwrap(self) -> (name: String)
        requires
            self is Register,
        ensures
            self == AssignmentRegister::Register(name),
    {
        match self {
            AssignmentRegister::Register(r) => r,
            AssignmentRegister::Wildcard => vstd::pervasive::unreached(),
        }
    }
}

impl From<SymbolDefinition> for ModuleStatement {
    fn from(value: SymbolDefinition) -> (made: Self)
        ensures
            made == ModuleStatement::SymbolDefinition(value),
    {
        ModuleStatement::SymbolDefinition(value)
    }
}

impl vstd::std_specs::convert::FromSpecImpl<SymbolDefinition> for ModuleStatement {
    open spec fn obeys_from_spec() -> bool {
        true
    }

    open spec fn from_spec(value: SymbolDefinition) -> Self {
        ModuleStatement::SymbolDefinition(value)
    }
}

impl From<Machine> for SymbolValue {
    fn from(value: Machine) -> (made: Self)
        ensures
            made == SymbolValue::Machine(value),
    {
        SymbolValue::Machine(value)
    }
}

impl vstd::std_specs::convert::FromSpecImpl<Machine> for SymbolValue {
    open spec fn obeys_from_spec() -> bool {
        true
    }

    open spec fn from_spec(value: Machine) -> Self {
        SymbolValue::Machine(value)
    }
}

impl From<Import> for SymbolValue {
    fn from(value: Import) -> (made: Self)
        ensures
            made == SymbolValue::Import(value),
    {
        SymbolValue::Import(value)
    }
}

impl vstd::std_specs::convert::FromSpecImpl<Import> for SymbolValue {
    open spec fn obeys_from_spec() -> bool {
        true
    }

    open spec fn from_spec(value: Import) -> Self {
        SymbolValue::Import(value)
    }
}

impl From<Module> for SymbolValue {
    fn from(value: Module) -> (made: Self)
        ensures
            made == SymbolValue::Module(value),
    {
        SymbolValue::Module(value)
    }
}

impl vstd::std_specs::convert::FromSpecImpl<Module> for SymbolValue {
    open spec fn obeys_from_spec() -> bool {
        true
    }

    open spec fn from_spec(value: Module) -> Self {
        SymbolValue::Module(value)
    }
}

impl From<TypedExpression> for SymbolValue {
    fn from(value: TypedExpression) -> (made: Self)
        ensures
            made == SymbolValue::Expression(value),
    {
        SymbolValue::Expression(value)
    }
}

impl vstd::std_specs::convert::FromSpecImpl<TypedExpression> for SymbolValue {
    open spec fn obeys_from_spec() -> bool {
        true
    }

    open spec fn from_spec(value: TypedExpression) -> Self {
        SymbolValue::Expression(value)
    }
}

impl From<String> for Module {
    fn from(value: String) -> (made: Self)
        ensures
            made == Module::External(value),
    {
        Module::External(value)
    }
}

impl vstd::std_specs::convert::FromSpecImpl<String> for Module {
    open spec fn obeys_from_spec() -> bool {
        true
    }

    open spec fn from_spec(value: String) -> Self {
        Module::External(value)
    }
}

impl From<ASMModule> for Module {
    fn from(value: ASMModule) -> (made: Self)
        ensures
            made == Module::Local(value),
    {
        Module::Local(value)
    }
}

impl vstd::std_specs::convert::FromSpecImpl<ASMModule> for Module {
    open spec fn obeys_from_spec() -> bool {
        true
    }

    open spec fn from_spec(value: ASMModule) -> Self {
        Module::Local(value)
    }
}

impl<'a> From<&'a Machine> for SymbolValueRef<'a> {
    fn from(value: &'a Machine) -> (made: Self)
        ensures
            made == SymbolValueRef::Machine(value),
    {
        SymbolValueRef::Machine(value)
    }
}

impl<'a> vstd::std_specs::convert::FromSpecImpl<&'a Machine> for SymbolValueRef<'a> {
    open spec fn obeys_from_spec() -> bool {
        true
    }

    open spec fn from_spec(value: &'a Machine) -> Self {
        SymbolValueRef::Machine(value)
    }
}

impl<'a> From<&'a Import> for SymbolValueRef<'a> {
    fn from(value: &'a Import) -> (made: Self)
        ensures
            made == SymbolValueRef::Import(value),
    {
        SymbolValueRef::Import(value)
    }
}

impl<'a> vstd::std_specs::convert::FromSpecImpl<&'a Import> for SymbolValueRef<'a> {
    open spec fn obeys_from_spec() -> bool {
        true
    }

    open spec fn from_spec(value: &'a Import) -> Self {
        SymbolValueRef::Import(value)
    }
}

impl<'a> From<ModuleRef<'a>> for SymbolValueRef<'a> {
    fn from(value: ModuleRef<'a>) -> (made: Self)
        ensures
            made == SymbolValueRef::Module(value),
    {
        SymbolValueRef::Module(value)
    }
}

impl<'a> vstd::std_specs::convert::FromSpecImpl<ModuleRef<'a>> for SymbolValueRef<'a> {
    open spec fn obeys_from_spec() -> bool {
        true
    }

    open spec fn from_spec(value: ModuleRef<'a>) -> Self {
        SymbolValueRef::Module(value)
    }
}

impl<'a> From<&'a TypedExpression> for SymbolValueRef<'a> {
    fn from(value: &'a TypedExpression) -> (made: Self)
        ensures
            made == SymbolValueRef::Expression(value),
    {
        SymbolValueRef::Expression(value)
    }
}

impl<'a> vstd::std_specs::convert::FromSpecImpl<&'a TypedExpression> for SymbolValueRef<'a> {
    open spec fn obeys_from_spec() -> bool {
        true
    }

    open spec fn from_spec(value: &'a TypedExpression) -> Self {
        SymbolValueRef::Expression(value)
    }
}

impl<'a> From<&'a str> for ModuleRef<'a> {
    fn from(value: &'a str) -> (made: Self)
        ensures
            made == ModuleRef::External(value),
    {
        ModuleRef::External(value)
    }
}

impl<'a> vstd::std_specs::convert::FromSpecImpl<&'a str> for ModuleRef<'a> {
    open spec fn obeys_from_spec() -> bool {
        true
    }

    open spec fn from_spec(value: &'a str) -> Self {
        ModuleRef::External(value)
    }
}

impl<'a> From<&'a ASMModule> for ModuleRef<'a> {
    fn from(value: &'a ASMModule) -> (made: Self)
        ensures
            made == ModuleRef::Local(value),
    {
        ModuleRef::Local(value)
    }
}

impl<'a> vstd::std_specs::convert::FromSpecImpl<&'a ASMModule> for ModuleRef<'a> {
    open spec fn obeys_from_spec() -> bool {
        true
    }

    open spec fn from_spec(value: &'a ASMModule) -> Self {
        ModuleRef::Local(value)
    }
}

} // verus!
