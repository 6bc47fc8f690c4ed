use pil_condenser::parsed::{
    ArrayExpression, Expression, FunctionDefinition, NamespacedPolynomialReference, PilStatement,
    PolynomialName, SelectedExpressions,
};
use pil_condenser::path::{Part, SymbolPath};
use pil_condenser::source::SourceRef;
use pil_condenser::types::{ArrayType, FunctionType, TupleType, Type, TypeBounds, TypeScheme};

fn num(n: u32) -> Expression {
    Expression::from_u32(n)
}

fn array(base: Type, length: Option<u64>) -> Type {
    Type::Array(ArrayType {
        base: Box::new(base),
        length,
    })
}

fn add_hundred(found: Vec<&mut u64>) {
    for length in found {
        *length += 100;
    }
}

fn renumber(found: Vec<&mut Expression>) {
    for (i, e) in found.into_iter().enumerate() {
        *e = num(100 + i as u32);
    }
}

#[test]
fn lengths_of_a_type_are_written_in_place() {
    let mut ty: Type = Type::Function(FunctionType {
        params: vec![
            array(array(Type::Int, Some(1)), Some(2)),
            array(Type::Fe, None),
            Type::Tuple(TupleType {
                items: vec![array(Type::Bool, Some(3)), Type::TypeVar("T".to_string())],
            }),
        ],
        value: Box::new(array(Type::Expr, Some(4))),
    });
    {
        let found = ty.expressions_mut();
        assert_eq!(
            found.iter().map(|l| **l).collect::<Vec<_>>(),
            vec![1, 2, 3, 4]
        );
        add_hundred(found);
    }
    assert_eq!(
        ty,
        Type::Function(FunctionType {
            params: vec![
                array(array(Type::Int, Some(101)), Some(102)),
                array(Type::Fe, None),
                Type::Tuple(TupleType {
                    items: vec![array(Type::Bool, Some(103)), Type::TypeVar("T".to_string())],
                }),
            ],
            value: Box::new(array(Type::Expr, Some(104))),
        })
    );
    let mut elementary: Type = Type::Col;
    assert!(elementary.expressions_mut().is_empty());
}

#[test]
fn lengths_of_the_parts_of_a_type_are_written_in_place() {
    let mut a: ArrayType = ArrayType {
        base: Box::new(array(Type::Int, Some(7))),
        length: Some(8),
    };
    add_hundred(a.expressions_mut());
    assert_eq!(a.expressions(), vec![&107, &108]);
    let mut t: TupleType = TupleType {
        items: vec![array(Type::Int, Some(5)), Type::Int, array(Type::Int, Some(6))],
    };
    add_hundred(t.expressions_mut());
    assert_eq!(t.expressions(), vec![&105, &106]);
    let mut f: FunctionType = FunctionType {
        params: vec![array(Type::Int, Some(9))],
        value: Box::new(array(Type::Int, Some(10))),
    };
    add_hundred(f.expressions_mut());
    assert_eq!(f.expressions(), vec![&109, &110]);
}

#[test]
fn selected_expressions_are_written_in_place() {
    let mut side = SelectedExpressions {
        selector: Some(num(1)),
        expressions: vec![num(2), num(3)],
    };
    renumber(side.expressions_mut());
    assert_eq!(
        side,
        SelectedExpressions {
            selector: Some(num(100)),
            expressions: vec![num(101), num(102)],
        }
    );
    let mut bare = SelectedExpressions {
        selector: None,
        expressions: vec![num(2)],
    };
    renumber(bare.expressions_mut());
    assert_eq!(
        bare,
        SelectedExpressions {
            selector: None,
            expressions: vec![num(100)],
        }
    );
}

#[test]
fn array_expressions_are_written_in_place() {
    let mut array = ArrayExpression::value(vec![num(1), num(2)])
        .concat(ArrayExpression::repeated_value(vec![num(3)]))
        .concat(ArrayExpression::value(vec![num(4)]));
    renumber(array.expressions_mut());
    assert_eq!(
        array,
        ArrayExpression::value(vec![num(100), num(101)])
            .concat(ArrayExpression::repeated_value(vec![num(102)]))
            .concat(ArrayExpression::value(vec![num(103)]))
    );
    let mut definition = FunctionDefinition::Array(array);
    renumber(definition.expressions_mut());
    assert_eq!(definition.expressions().len(), 4);
    let mut query = FunctionDefinition::Query(num(1));
    renumber(query.expressions_mut());
    assert_eq!(query, FunctionDefinition::Query(num(100)));
    let mut expression = FunctionDefinition::Expression(num(1));
    renumber(expression.expressions_mut());
    assert_eq!(expression, FunctionDefinition::Expression(num(100)));
}

#[test]
fn statement_expressions_are_written_in_place() {
    let src = SourceRef::unknown;
    let mut lookup = PilStatement::PlookupIdentity(
        src(),
        SelectedExpressions {
            selector: Some(num(1)),
            expressions: vec![num(2)],
        },
        SelectedExpressions {
            selector: None,
            expressions: vec![num(3), num(4)],
        },
    );
    renumber(lookup.expressions_mut());
    assert_eq!(
        lookup,
        PilStatement::PlookupIdentity(
            src(),
            SelectedExpressions {
                selector: Some(num(100)),
                expressions: vec![num(101)],
            },
            SelectedExpressions {
                selector: None,
                expressions: vec![num(102), num(103)],
            },
        )
    );
    let mut connect = PilStatement::ConnectIdentity(src(), vec![num(1)], vec![num(2), num(3)]);
    renumber(connect.expressions_mut());
    assert_eq!(
        connect,
        PilStatement::ConnectIdentity(src(), vec![num(100)], vec![num(101), num(102)])
    );
    let scheme = |length: u32| TypeScheme {
        vars: TypeBounds::default(),
        ty: Type::Array(ArrayType {
            base: Box::new(Type::<Expression>::Int),
            length: Some(num(length)),
        }),
    };
    let mut let_statement =
        PilStatement::LetStatement(src(), "l".to_string(), Some(scheme(4)), Some(num(6)));
    renumber(let_statement.expressions_mut());
    assert_eq!(
        let_statement,
        PilStatement::LetStatement(src(), "l".to_string(), Some(scheme(100)), Some(num(101)))
    );
    let reference = || NamespacedPolynomialReference::from_identifier("x".to_string());
    let mut public =
        PilStatement::PublicDeclaration(src(), "o".to_string(), reference(), Some(num(7)), num(8));
    renumber(public.expressions_mut());
    assert_eq!(
        public,
        PilStatement::PublicDeclaration(
            src(),
            "o".to_string(),
            reference(),
            Some(num(100)),
            num(101)
        )
    );
    let mut commit = PilStatement::PolynomialCommitDeclaration(
        src(),
        vec![PolynomialName {
            name: "w".to_string(),
            array_size: Some(num(3)),
        }],
        Some(FunctionDefinition::Query(num(9))),
    );
    renumber(commit.expressions_mut());
    assert_eq!(
        commit,
        PilStatement::PolynomialCommitDeclaration(
            src(),
            vec![PolynomialName {
                name: "w".to_string(),
                array_size: Some(num(3)),
            }],
            Some(FunctionDefinition::Query(num(100))),
        )
    );
    for mut single in [
        PilStatement::Expression(src(), num(1)),
        PilStatement::Namespace(src(), SymbolPath::from_identifier("N".to_string()), num(1)),
        PilStatement::PolynomialDefinition(src(), "p".to_string(), num(1)),
        PilStatement::ConstantDefinition(src(), "c".to_string(), num(1)),
        PilStatement::PolynomialConstantDefinition(
            src(),
            "f".to_string(),
            FunctionDefinition::Expression(num(1)),
        ),
    ] {
        renumber(single.expressions_mut());
        assert_eq!(single.expressions(), vec![&num(100)]);
    }
    let mut inclusion = PilStatement::Include(src(), "f".to_string());
    assert!(inclusion.expressions_mut().is_empty());
    let mut declaration = PilStatement::PolynomialConstantDeclaration(src(), vec![]);
    assert!(declaration.expressions_mut().is_empty());
}

#[test]
fn the_last_name_of_a_path_is_written_in_place() {
    let mut path = SymbolPath::from_str("a::b").unwrap();
    *path.try_last_part_mut().unwrap() = "c".to_string();
    assert_eq!(path, SymbolPath::from_str("a::c").unwrap());
    let mut up = SymbolPath::from_parts(vec![Part::Named("a".to_string()), Part::Super]);
    assert_eq!(up.try_last_part_mut(), None);
    assert_eq!(SymbolPath::from_parts(vec![]).try_last_part_mut(), None);
}
