use pil_condenser::parsed::{
    ArrayExpression, Expression, FunctionDefinition, NamespacedPolynomialReference, Natural,
    PilStatement, PolynomialName, SelectedExpressions,
};
use pil_condenser::path::SymbolPath;
use pil_condenser::source::SourceRef;
use pil_condenser::types::{
    ArrayType, FunctionType, TupleType, Type, TypeBounds, TypeScheme, UnresolvedArrayLength,
};

fn num(n: u32) -> Expression {
    Expression::from_u32(n)
}

fn src() -> SourceRef {
    SourceRef::unknown()
}

fn poly(name: &str) -> PolynomialName {
    PolynomialName {
        name: name.to_string(),
        array_size: None,
    }
}

fn sel(selector: Option<Expression>, expressions: Vec<Expression>) -> SelectedExpressions<Expression> {
    SelectedExpressions {
        selector,
        expressions,
    }
}

fn array_of(base: Type<Expression>, length: Option<Expression>) -> Type<Expression> {
    Type::Array(ArrayType {
        base: Box::new(base),
        length,
    })
}

#[test]
fn names_that_a_statement_defines() {
    let names = |s: &PilStatement| {
        s.symbol_definition_names()
            .into_iter()
            .cloned()
            .collect::<Vec<_>>()
    };
    assert_eq!(
        names(&PilStatement::PolynomialDefinition(src(), "p".to_string(), num(1))),
        vec!["p"]
    );
    assert_eq!(
        names(&PilStatement::PolynomialConstantDefinition(
            src(),
            "c".to_string(),
            FunctionDefinition::Expression(num(1))
        )),
        vec!["c"]
    );
    assert_eq!(
        names(&PilStatement::ConstantDefinition(src(), "k".to_string(), num(1))),
        vec!["k"]
    );
    assert_eq!(
        names(&PilStatement::PublicDeclaration(
            src(),
            "out".to_string(),
            NamespacedPolynomialReference::from_identifier("x".to_string()),
            None,
            num(0)
        )),
        vec!["out"]
    );
    assert_eq!(
        names(&PilStatement::LetStatement(src(), "l".to_string(), None, None)),
        vec!["l"]
    );
    assert_eq!(
        names(&PilStatement::PolynomialConstantDeclaration(
            src(),
            vec![poly("a"), poly("b")]
        )),
        vec!["a", "b"]
    );
    assert_eq!(
        names(&PilStatement::PolynomialCommitDeclaration(
            src(),
            vec![poly("w"), poly("v"), poly("u")],
            None
        )),
        vec!["w", "v", "u"]
    );
    assert!(names(&PilStatement::Include(src(), "file".to_string())).is_empty());
    assert!(names(&PilStatement::Namespace(
        src(),
        SymbolPath::from_identifier("N".to_string()),
        num(8)
    ))
    .is_empty());
    assert!(names(&PilStatement::Expression(src(), num(1))).is_empty());
    assert!(names(&PilStatement::ConnectIdentity(src(), vec![], vec![])).is_empty());
}

#[test]
fn expressions_of_identities() {
    let lookup = PilStatement::PlookupIdentity(
        src(),
        sel(Some(num(1)), vec![num(2)]),
        sel(None, vec![num(3), num(4)]),
    );
    assert_eq!(
        lookup.expressions(),
        vec![&num(1), &num(2), &num(3), &num(4)]
    );
    let permutation = PilStatement::PermutationIdentity(
        src(),
        sel(None, vec![num(2)]),
        sel(Some(num(9)), vec![]),
    );
    assert_eq!(permutation.expressions(), vec![&num(2), &num(9)]);
    let connect = PilStatement::ConnectIdentity(src(), vec![num(1), num(2)], vec![num(3)]);
    assert_eq!(connect.expressions(), vec![&num(1), &num(2), &num(3)]);
}

#[test]
fn expressions_of_definitions() {
    assert_eq!(
        PilStatement::Expression(src(), num(1)).expressions(),
        vec![&num(1)]
    );
    assert_eq!(
        PilStatement::Namespace(src(), SymbolPath::from_identifier("N".to_string()), num(16))
            .expressions(),
        vec![&num(16)]
    );
    assert_eq!(
        PilStatement::PolynomialDefinition(src(), "p".to_string(), num(2)).expressions(),
        vec![&num(2)]
    );
    assert_eq!(
        PilStatement::ConstantDefinition(src(), "c".to_string(), num(3)).expressions(),
        vec![&num(3)]
    );
    let scheme = TypeScheme {
        vars: TypeBounds::default(),
        ty: array_of(array_of(Type::Int, Some(num(4))), Some(num(5))),
    };
    assert_eq!(
        PilStatement::LetStatement(src(), "l".to_string(), Some(scheme), Some(num(6)))
            .expressions(),
        vec![&num(4), &num(5), &num(6)]
    );
    assert!(PilStatement::LetStatement(src(), "l".to_string(), None, None)
        .expressions()
        .is_empty());
    assert_eq!(
        PilStatement::PublicDeclaration(
            src(),
            "out".to_string(),
            NamespacedPolynomialReference::from_identifier("x".to_string()),
            Some(num(7)),
            num(8)
        )
        .expressions(),
        vec![&num(7), &num(8)]
    );
    let array = ArrayExpression::value(vec![num(1)])
        .concat(ArrayExpression::repeated_value(vec![num(0)]));
    assert_eq!(
        PilStatement::PolynomialConstantDefinition(
            src(),
            "f".to_string(),
            FunctionDefinition::Array(array.clone())
        )
        .expressions(),
        vec![&num(1), &num(0)]
    );
    assert_eq!(
        PilStatement::PolynomialCommitDeclaration(
            src(),
            vec![poly("w")],
            Some(FunctionDefinition::Query(num(9)))
        )
        .expressions(),
        vec![&num(9)]
    );
    assert!(
        PilStatement::PolynomialCommitDeclaration(src(), vec![poly("w")], None)
            .expressions()
            .is_empty()
    );
    assert!(PilStatement::Include(src(), "f".to_string())
        .expressions()
        .is_empty());
    assert!(
        PilStatement::PolynomialConstantDeclaration(src(), vec![poly("a")])
            .expressions()
            .is_empty()
    );
}

#[test]
fn array_lengths_are_resolved() {
    let ty: Type<Expression> = Type::Function(FunctionType {
        params: vec![
            array_of(Type::TypeVar("T".to_string()), Some(num(3))),
            Type::Tuple(TupleType {
                items: vec![Type::Int, array_of(Type::Fe, None)],
            }),
        ],
        value: Box::new(array_of(array_of(Type::Expr, Some(num(2))), Some(num(7)))),
    });
    let expected: Type = Type::Function(FunctionType {
        params: vec![
            Type::Array(ArrayType {
                base: Box::new(Type::TypeVar("T".to_string())),
                length: Some(3),
            }),
            Type::Tuple(TupleType {
                items: vec![
                    Type::Int,
                    Type::Array(ArrayType {
                        base: Box::new(Type::Fe),
                        length: None,
                    }),
                ],
            }),
        ],
        value: Box::new(Type::Array(ArrayType {
            base: Box::new(Type::Array(ArrayType {
                base: Box::new(Type::Expr),
                length: Some(2),
            })),
            length: Some(7),
        })),
    });
    assert_eq!(ty.resolve_lengths(), Ok(expected));
    let elementary: Type<Expression> = Type::Constr;
    assert_eq!(elementary.resolve_lengths(), Ok(Type::Constr));
}

#[test]
fn unresolved_array_lengths_are_refused() {
    let sum = num(1).add(num(2));
    let not_a_number = array_of(Type::Int, Some(sum.clone()));
    assert_eq!(
        not_a_number.resolve_lengths(),
        Err(UnresolvedArrayLength::NotANumber(sum))
    );
    let three_int = Expression::Number(Natural::from_u64(3), Some(Type::Int));
    let typed = array_of(Type::Int, Some(three_int.clone()));
    assert_eq!(
        typed.resolve_lengths(),
        Err(UnresolvedArrayLength::TypedLiteral(three_int))
    );
    let huge = Expression::Number(Natural::from_digits(&vec![1, 0]), None);
    let large = array_of(Type::Int, Some(huge.clone()));
    assert_eq!(
        large.resolve_lengths(),
        Err(UnresolvedArrayLength::TooLarge(huge))
    );
    let outer_first = array_of(
        array_of(
            Type::Int,
            Some(Expression::Number(Natural::from_u64(3), Some(Type::Int))),
        ),
        Some(Expression::String("n".to_string())),
    );
    assert_eq!(
        outer_first.resolve_lengths(),
        Err(UnresolvedArrayLength::NotANumber(Expression::String(
            "n".to_string()
        )))
    );
    let in_tuple: TupleType<Expression> = TupleType {
        items: vec![
            array_of(Type::Int, Some(num(1))),
            array_of(Type::Int, Some(Expression::String("x".to_string()))),
            array_of(
                Type::Int,
                Some(Expression::Number(Natural::from_u64(3), Some(Type::Int))),
            ),
        ],
    };
    assert_eq!(
        in_tuple.resolve_lengths(),
        Err(UnresolvedArrayLength::NotANumber(Expression::String(
            "x".to_string()
        )))
    );
    let f: FunctionType<Expression> = FunctionType {
        params: vec![Type::Int],
        value: Box::new(array_of(Type::Int, Some(num(4)))),
    };
    assert_eq!(
        f.resolve_lengths(),
        Ok(FunctionType {
            params: vec![Type::Int],
            value: Box::new(Type::Array(ArrayType {
                base: Box::new(Type::Int),
                length: Some(4)
            })),
        })
    );
    let a: ArrayType<Expression> = ArrayType {
        base: Box::new(Type::Bool),
        length: Some(num(5)),
    };
    assert_eq!(
        a.resolve_lengths(),
        Ok(ArrayType {
            base: Box::new(Type::Bool),
            length: Some(5)
        })
    );
}

#[test]
fn scheme_of_a_plain_type() {
    let scheme = TypeScheme::from(Type::Expr);
    assert!(scheme.vars.is_empty());
    assert_eq!(scheme.ty, Type::Expr);
}
