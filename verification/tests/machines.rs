use pil_condenser::machine::{
    ASMModule, AssignmentRegister, Import, Machine, MachineArguments, MachineStatement, Module,
    ModuleRef, ModuleStatement, Param, Params, SymbolDefinition, SymbolValue, SymbolValueRef,
};
use pil_condenser::parsed::{Expression, Natural, PilStatement, PolynomialName, TypedExpression};
use pil_condenser::path::SymbolPath;
use pil_condenser::source::SourceRef;

fn param(name: &str) -> Param {
    Param {
        name: name.to_string(),
        index: None,
        ty: None,
    }
}

#[test]
fn symbol_definitions_of_a_module() {
    let import = |name: &str| SymbolDefinition {
        name: name.to_string(),
        value: SymbolValue::Import(Import {
            path: SymbolPath::from_identifier(name.to_string()),
        }),
    };
    let module = ASMModule {
        statements: vec![
            ModuleStatement::SymbolDefinition(import("a")),
            ModuleStatement::SymbolDefinition(import("b")),
        ],
    };
    assert_eq!(module.symbol_definitions(), vec![&import("a"), &import("b")]);
    assert!(ASMModule::default().symbol_definitions().is_empty());
}

#[test]
fn symbol_values_are_borrowed() {
    let machine = Machine {
        arguments: MachineArguments::default(),
        statements: vec![],
    };
    assert_eq!(
        SymbolValue::Machine(machine.clone()).as_ref(),
        SymbolValueRef::Machine(&machine)
    );
    let import = Import {
        path: SymbolPath::from_identifier("x".to_string()),
    };
    assert_eq!(
        SymbolValue::Import(import.clone()).as_ref(),
        SymbolValueRef::Import(&import)
    );
    assert_eq!(
        SymbolValue::Module(Module::External("m".to_string())).as_ref(),
        SymbolValueRef::Module(ModuleRef::External("m"))
    );
    assert_eq!(
        SymbolValue::Module(Module::Local(ASMModule::default())).as_ref(),
        SymbolValueRef::Module(ModuleRef::Local(&ASMModule::default()))
    );
    let expression = TypedExpression {
        e: Expression::from_u32(1),
        type_scheme: None,
    };
    assert_eq!(
        SymbolValue::Expression(expression.clone()).as_ref(),
        SymbolValueRef::Expression(&expression)
    );
}

#[test]
fn local_names_of_a_machine() {
    let src = SourceRef::unknown;
    let machine = Machine {
        arguments: MachineArguments::default(),
        statements: vec![
            MachineStatement::Degree(src(), Natural::from_u64(8)),
            MachineStatement::RegisterDeclaration(src(), "pc".to_string(), None),
            MachineStatement::Pil(
                src(),
                PilStatement::PolynomialCommitDeclaration(
                    src(),
                    vec![
                        PolynomialName {
                            name: "w".to_string(),
                            array_size: None,
                        },
                        PolynomialName {
                            name: "v".to_string(),
                            array_size: None,
                        },
                    ],
                    None,
                ),
            ),
            MachineStatement::Submachine(
                src(),
                SymbolPath::from_identifier("Sub".to_string()),
                "sub".to_string(),
            ),
            MachineStatement::Pil(src(), PilStatement::Expression(src(), Expression::from_u32(1))),
            MachineStatement::RegisterDeclaration(src(), "A".to_string(), None),
        ],
    };
    assert_eq!(machine.local_names(), vec!["pc", "w", "v", "A"]);
}

#[test]
fn params_and_registers() {
    let mut params = Params::new(vec![param("a"), param("b")], vec![param("c")]);
    assert!(!params.is_empty());
    assert!(Params::default().is_empty());
    assert!(!Params::new(vec![], vec![param("c")]).is_empty());
    assert_eq!(
        params.inputs_and_outputs(),
        vec![&param("a"), &param("b"), &param("c")]
    );
    for p in params.inputs_and_outputs_mut() {
        p.name.push('x');
    }
    assert_eq!(
        params,
        Params::new(vec![param("ax"), param("bx")], vec![param("cx")])
    );
    assert_eq!(
        AssignmentRegister::Register("r".to_string()).unwrap(),
        "r".to_string()
    );
}

#[test]
fn values_from_their_parts() {
    let import = Import {
        path: SymbolPath::from_identifier("x".to_string()),
    };
    let value: SymbolValue = import.clone().into();
    assert_eq!(value, SymbolValue::Import(import.clone()));
    let borrowed: SymbolValueRef = (&import).into();
    assert_eq!(borrowed, value.as_ref());
    let module: Module = "m".to_string().into();
    assert_eq!(module, Module::External("m".to_string()));
    let local: Module = ASMModule::default().into();
    assert_eq!(local.clone(), Module::Local(ASMModule::default()));
    let nested: SymbolValue = local.into();
    let definition = SymbolDefinition {
        name: "inner".to_string(),
        value: nested,
    };
    let statement: ModuleStatement = definition.clone().into();
    let outer = ASMModule {
        statements: vec![statement],
    };
    assert_eq!(outer.clone(), outer);
    assert_eq!(outer.symbol_definitions(), vec![&definition]);
    let external: ModuleRef = "m".into();
    assert_eq!(external, ModuleRef::External("m"));
}
