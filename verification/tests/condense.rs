use pil_condenser::analyzed::{
    AlgebraicBinaryOperator, AlgebraicExpression, AlgebraicReference, Analyzed, Expression,
    FunctionValueDefinition, Identity, IdentityKind, PolyID, PolynomialReference, PolynomialType,
    PublicDeclaration, Reference, StatementIdentifier, Symbol, SymbolKind, TypedExpression,
};
use pil_condenser::condenser::{
    condense, condense_selected_expressions, condense_to_algebraic_expression,
    condense_to_array_of_algebraic_expressions, condense_to_constraint_or_array, CondenseError,
    Condenser, Definition, EvalError, Evaluation, Value, ValueError, ValueKind,
};
use pil_condenser::parsed::SelectedExpressions;
use pil_condenser::source::SourceRef;
use pil_condenser::types::{ArrayType, Type, TypeBounds, TypeScheme};

type Field = u64;

fn column(name: &str, id: u64) -> AlgebraicExpression<Field> {
    AlgebraicExpression::Reference(AlgebraicReference {
        name: name.to_string(),
        poly_id: PolyID {
            id,
            ptype: PolynomialType::Committed,
        },
        next: false,
    })
}

fn constant(n: Field) -> AlgebraicExpression<Field> {
    AlgebraicExpression::Number(n)
}

fn minus(l: AlgebraicExpression<Field>, r: AlgebraicExpression<Field>) -> AlgebraicExpression<Field> {
    AlgebraicExpression::BinaryOperation(Box::new(l), AlgebraicBinaryOperator::Sub, Box::new(r))
}

fn at(line: usize) -> SourceRef {
    SourceRef {
        file: Some("test.pil".to_string()),
        line,
        col: 1,
    }
}

fn symbol(name: &str, id: u64, kind: SymbolKind, length: Option<u64>) -> Symbol {
    Symbol {
        id,
        source: at(id as usize),
        absolute_name: name.to_string(),
        stage: None,
        kind,
        length,
    }
}

fn plain(name: &str, id: u64, kind: SymbolKind) -> Definition<Field> {
    Definition {
        name: name.to_string(),
        symbol: symbol(name, id, kind, None),
        value: None,
        evaluated: None,
    }
}

fn reference(name: &str) -> Expression {
    Expression::Reference(Reference::Poly(PolynomialReference {
        name: name.to_string(),
        poly_id: None,
    }))
}

fn typed(e: Expression, ty: Option<Type>) -> Option<FunctionValueDefinition> {
    Some(FunctionValueDefinition::Expression(TypedExpression {
        e,
        type_scheme: ty.map(TypeScheme::from),
    }))
}

fn expr_array() -> Type {
    Type::Array(ArrayType {
        base: Box::new(Type::Expr),
        length: None,
    })
}

fn intermediate(
    name: &str,
    id: u64,
    length: Option<u64>,
    ty: Option<Type>,
    evaluated: Evaluation<Field>,
) -> Definition<Field> {
    Definition {
        name: name.to_string(),
        symbol: symbol(
            name,
            id,
            SymbolKind::Poly(PolynomialType::Intermediate),
            length,
        ),
        value: typed(reference("N.x"), ty),
        evaluated: Some(evaluated),
    }
}

fn polynomial(id: u64, evaluation: Evaluation<Field>) -> Identity<Evaluation<Field>> {
    Identity::from_polynomial_identity(id, at(id as usize), evaluation)
}

fn condenser() -> Condenser {
    Condenser { symbols: vec![] }
}

fn equation(l: AlgebraicExpression<Field>, r: AlgebraicExpression<Field>) -> Value<Field> {
    Value::Identity(l, r)
}

#[test]
fn a_single_expression_is_expected() {
    assert_eq!(
        condense_to_algebraic_expression(&Ok(Value::Expression(column("x", 0)))),
        Ok(column("x", 0))
    );
    assert_eq!(
        condense_to_algebraic_expression(&Ok(equation(column("x", 0), constant(1)))),
        Err(ValueError::TypeMismatch {
            expected: ValueKind::Expression,
            found: ValueKind::Identity
        })
    );
    assert_eq!(
        condense_to_algebraic_expression::<Field>(&Ok(Value::Array(vec![]))),
        Err(ValueError::TypeMismatch {
            expected: ValueKind::Expression,
            found: ValueKind::Array
        })
    );
    let failed = EvalError::OutOfBounds("y[3]".to_string());
    assert_eq!(
        condense_to_algebraic_expression::<Field>(&Err(failed.clone())),
        Err(ValueError::Evaluation(failed))
    );
}

#[test]
fn an_array_of_expressions_is_expected() {
    let array = Ok(Value::Array(vec![
        Value::Expression(column("x", 0)),
        Value::Expression(constant(2)),
    ]));
    assert_eq!(
        condense_to_array_of_algebraic_expressions(&array),
        Ok(vec![column("x", 0), constant(2)])
    );
    assert_eq!(
        condense_to_array_of_algebraic_expressions::<Field>(&Ok(Value::Array(vec![]))),
        Ok(vec![])
    );
    assert_eq!(
        condense_to_array_of_algebraic_expressions(&Ok(Value::Expression(column("x", 0)))),
        Err(ValueError::TypeMismatch {
            expected: ValueKind::Array,
            found: ValueKind::Expression
        })
    );
    let mixed = Ok(Value::Array(vec![
        Value::Expression(column("x", 0)),
        Value::Array(vec![]),
        equation(constant(1), constant(1)),
    ]));
    assert_eq!(
        condense_to_array_of_algebraic_expressions(&mixed),
        Err(ValueError::TypeMismatch {
            expected: ValueKind::Expression,
            found: ValueKind::Array
        })
    );
    let failed = EvalError::UndefinedSymbol("z".to_string());
    assert_eq!(
        condense_to_array_of_algebraic_expressions::<Field>(&Err(failed.clone())),
        Err(ValueError::Evaluation(failed))
    );
}

#[test]
fn a_constraint_is_left_minus_right() {
    assert_eq!(
        condense_to_constraint_or_array(&Ok(equation(column("x", 0), constant(3)))),
        Ok(vec![minus(column("x", 0), constant(3))])
    );
    let array = Ok(Value::Array(vec![
        equation(column("x", 0), column("y", 1)),
        equation(column("x", 0), constant(0)),
    ]));
    assert_eq!(
        condense_to_constraint_or_array(&array),
        Ok(vec![
            minus(column("x", 0), column("y", 1)),
            minus(column("x", 0), constant(0))
        ])
    );
    assert_eq!(
        condense_to_constraint_or_array::<Field>(&Ok(Value::Array(vec![]))),
        Ok(vec![])
    );
    assert_eq!(
        condense_to_constraint_or_array(&Ok(Value::Expression(minus(
            column("y", 0),
            constant(2)
        )))),
        Err(ValueError::TypeMismatch {
            expected: ValueKind::Identity,
            found: ValueKind::Expression
        })
    );
    let mixed = Ok(Value::Array(vec![
        equation(column("x", 0), constant(0)),
        Value::Expression(column("x", 0)),
    ]));
    assert_eq!(
        condense_to_constraint_or_array(&mixed),
        Err(ValueError::TypeMismatch {
            expected: ValueKind::Identity,
            found: ValueKind::Expression
        })
    );
    let failed = EvalError::ArityMismatch("f".to_string());
    assert_eq!(
        condense_to_constraint_or_array::<Field>(&Err(failed.clone())),
        Err(ValueError::Evaluation(failed))
    );
}

#[test]
fn selected_expressions_keep_their_order() {
    let side = SelectedExpressions {
        selector: Some(Ok(Value::Expression(constant(1)))),
        expressions: vec![
            Ok(Value::Expression(column("a", 0))),
            Ok(Value::Expression(column("b", 1))),
        ],
    };
    assert_eq!(
        condense_selected_expressions(&side),
        Ok(SelectedExpressions {
            selector: Some(constant(1)),
            expressions: vec![column("a", 0), column("b", 1)],
        })
    );
    let selector_first: SelectedExpressions<Evaluation<Field>> = SelectedExpressions {
        selector: Some(Ok(Value::Array(vec![]))),
        expressions: vec![Err(EvalError::TypeMismatch("t".to_string()))],
    };
    assert_eq!(
        condense_selected_expressions(&selector_first),
        Err(ValueError::TypeMismatch {
            expected: ValueKind::Expression,
            found: ValueKind::Array
        })
    );
    let second_fails: SelectedExpressions<Evaluation<Field>> = SelectedExpressions {
        selector: None,
        expressions: vec![
            Ok(Value::Expression(column("a", 0))),
            Err(EvalError::UnresolvedOperator("+".to_string())),
            Ok(Value::Array(vec![])),
        ],
    };
    assert_eq!(
        condense_selected_expressions(&second_fails),
        Err(ValueError::Evaluation(EvalError::UnresolvedOperator(
            "+".to_string()
        )))
    );
}

#[test]
fn a_polynomial_identity_gives_one_identity_for_each_constraint() {
    let array = polynomial(
        7,
        Ok(Value::Array(vec![
            equation(column("x", 0), column("y", 1)),
            equation(column("x", 0), constant(0)),
            equation(column("y", 1), constant(5)),
        ])),
    );
    let condensed = condenser().condense_identity(&array).unwrap();
    assert_eq!(
        condensed,
        vec![
            Identity::from_polynomial_identity(7, at(7), minus(column("x", 0), column("y", 1))),
            Identity::from_polynomial_identity(7, at(7), minus(column("x", 0), constant(0))),
            Identity::from_polynomial_identity(7, at(7), minus(column("y", 1), constant(5))),
        ]
    );
    let single = polynomial(3, Ok(equation(column("x", 0), constant(2))));
    assert_eq!(
        condenser().condense_identity(&single),
        Ok(vec![Identity::from_polynomial_identity(
            3,
            at(3),
            minus(column("x", 0), constant(2))
        )])
    );
    let none = polynomial(4, Ok(Value::Array(vec![])));
    assert_eq!(condenser().condense_identity(&none), Ok(vec![]));
    assert_eq!(
        single.expression_for_poly_id(),
        Some(&Ok(equation(column("x", 0), constant(2))))
    );
}

#[test]
fn an_expression_where_a_constraint_is_expected_is_refused() {
    let identity = polynomial(
        1,
        Ok(Value::Expression(minus(column("y", 0), constant(2)))),
    );
    assert_eq!(
        condenser().condense_identity(&identity),
        Err(CondenseError::Identity {
            id: 1,
            source: at(1),
            error: ValueError::TypeMismatch {
                expected: ValueKind::Identity,
                found: ValueKind::Expression
            }
        })
    );
}

#[test]
fn a_lookup_keeps_its_kind_and_its_sides() {
    let lookup: Identity<Evaluation<Field>> = Identity {
        id: 5,
        kind: IdentityKind::Lookup,
        source: at(9),
        left: SelectedExpressions {
            selector: Some(Ok(Value::Expression(constant(1)))),
            expressions: vec![Ok(Value::Expression(column("a", 0)))],
        },
        right: SelectedExpressions {
            selector: None,
            expressions: vec![Ok(Value::Expression(column("b", 1)))],
        },
    };
    assert_eq!(
        condenser().condense_identity(&lookup),
        Ok(vec![Identity {
            id: 5,
            kind: IdentityKind::Lookup,
            source: at(9),
            left: SelectedExpressions {
                selector: Some(constant(1)),
                expressions: vec![column("a", 0)],
            },
            right: SelectedExpressions {
                selector: None,
                expressions: vec![column("b", 1)],
            },
        }])
    );
    let constraint_inside: Identity<Evaluation<Field>> = Identity {
        id: 6,
        kind: IdentityKind::Permutation,
        source: at(2),
        left: SelectedExpressions {
            selector: None,
            expressions: vec![Ok(equation(column("y", 0), constant(0)))],
        },
        right: SelectedExpressions {
            selector: None,
            expressions: vec![Ok(Value::Expression(column("y", 0)))],
        },
    };
    assert_eq!(
        condenser().condense_identity(&constraint_inside),
        Err(CondenseError::Identity {
            id: 6,
            source: at(2),
            error: ValueError::TypeMismatch {
                expected: ValueKind::Expression,
                found: ValueKind::Identity
            }
        })
    );
}

#[test]
fn malformed_identities_are_refused() {
    let no_expression: Identity<Evaluation<Field>> = Identity {
        id: 2,
        kind: IdentityKind::Polynomial,
        source: at(4),
        left: SelectedExpressions::default(),
        right: SelectedExpressions::default(),
    };
    assert_eq!(
        condenser().condense_identity(&no_expression),
        Err(CondenseError::MalformedIdentity {
            id: 2,
            source: at(4)
        })
    );
    assert_eq!(no_expression.expression_for_poly_id(), None);
    let selected_connect: Identity<Evaluation<Field>> = Identity {
        id: 3,
        kind: IdentityKind::Connect,
        source: at(5),
        left: SelectedExpressions {
            selector: None,
            expressions: vec![Ok(Value::Expression(column("a", 0)))],
        },
        right: SelectedExpressions {
            selector: Some(Ok(Value::Expression(constant(1)))),
            expressions: vec![Ok(Value::Expression(column("b", 1)))],
        },
    };
    assert_eq!(
        condenser().condense_identity(&selected_connect),
        Err(CondenseError::MalformedIdentity {
            id: 3,
            source: at(5)
        })
    );
    let connect: Identity<Evaluation<Field>> = Identity {
        id: 3,
        kind: IdentityKind::Connect,
        source: at(5),
        left: SelectedExpressions {
            selector: None,
            expressions: vec![Ok(Value::Expression(column("a", 0)))],
        },
        right: SelectedExpressions {
            selector: None,
            expressions: vec![Ok(Value::Expression(column("b", 1)))],
        },
    };
    assert_eq!(condenser().condense_identity(&connect).unwrap().len(), 1);
}

#[test]
fn an_array_identity_expands_in_the_statement_order() {
    let identities = vec![
        polynomial(10, Ok(equation(column("x", 0), constant(1)))),
        polynomial(
            11,
            Ok(Value::Array(vec![
                equation(column("x", 0), column("y", 1)),
                equation(column("x", 0), constant(0)),
                equation(column("y", 1), constant(0)),
            ])),
        ),
        polynomial(12, Ok(equation(column("y", 1), constant(2)))),
    ];
    let order = vec![
        StatementIdentifier::Definition("N.x".to_string()),
        StatementIdentifier::Identity(0),
        StatementIdentifier::Definition("N.y".to_string()),
        StatementIdentifier::Identity(1),
        StatementIdentifier::PublicDeclaration("out".to_string()),
        StatementIdentifier::Identity(2),
    ];
    let analyzed: Analyzed<Field> =
        condense(Some(16), vec![], vec![], &identities, order).unwrap();
    assert_eq!(analyzed.degree, Some(16));
    assert_eq!(
        analyzed.source_order,
        vec![
            StatementIdentifier::Definition("N.x".to_string()),
            StatementIdentifier::Identity(0),
            StatementIdentifier::Definition("N.y".to_string()),
            StatementIdentifier::Identity(1),
            StatementIdentifier::Identity(2),
            StatementIdentifier::Identity(3),
            StatementIdentifier::PublicDeclaration("out".to_string()),
            StatementIdentifier::Identity(4),
        ]
    );
    assert_eq!(
        analyzed.identities,
        vec![
            Identity::from_polynomial_identity(0, at(10), minus(column("x", 0), constant(1))),
            Identity::from_polynomial_identity(1, at(11), minus(column("x", 0), column("y", 1))),
            Identity::from_polynomial_identity(2, at(11), minus(column("x", 0), constant(0))),
            Identity::from_polynomial_identity(3, at(11), minus(column("y", 1), constant(0))),
            Identity::from_polynomial_identity(4, at(12), minus(column("y", 1), constant(2))),
        ]
    );
}

#[test]
fn identities_follow_the_statement_order_not_the_list() {
    let identities = vec![
        polynomial(0, Ok(equation(column("a", 0), constant(0)))),
        polynomial(1, Ok(Value::Array(vec![]))),
        polynomial(2, Ok(equation(column("c", 2), constant(2)))),
    ];
    let order = vec![
        StatementIdentifier::Identity(2),
        StatementIdentifier::Identity(1),
        StatementIdentifier::Identity(2),
    ];
    let analyzed: Analyzed<Field> = condense(None, vec![], vec![], &identities, order).unwrap();
    assert_eq!(
        analyzed.source_order,
        vec![
            StatementIdentifier::Identity(0),
            StatementIdentifier::Identity(1)
        ]
    );
    assert_eq!(
        analyzed.identities,
        vec![
            Identity::from_polynomial_identity(0, at(2), minus(column("c", 2), constant(2))),
            Identity::from_polynomial_identity(1, at(2), minus(column("c", 2), constant(2))),
        ]
    );
    assert_eq!(analyzed.degree, None);
}

#[test]
fn a_statement_for_an_identity_that_is_not_there_is_refused() {
    let identities = vec![polynomial(0, Ok(equation(column("a", 0), constant(0))))];
    let order = vec![
        StatementIdentifier::Identity(0),
        StatementIdentifier::Identity(1),
    ];
    assert_eq!(
        condense::<Field>(None, vec![], vec![], &identities, order),
        Err(CondenseError::UndefinedIdentity { index: 1 })
    );
}

#[test]
fn a_scalar_intermediate_column_is_taken_out() {
    let x = column("N.x", 0);
    let definitions = vec![
        plain("N.x", 0, SymbolKind::Poly(PolynomialType::Committed)),
        intermediate(
            "N.intermediate",
            0,
            None,
            Some(Type::Expr),
            Ok(Value::Expression(x.clone())),
        ),
    ];
    let identities = vec![polynomial(
        0,
        Ok(equation(
            column("N.intermediate", 0),
            column("N.intermediate", 0),
        )),
    )];
    let order = vec![
        StatementIdentifier::Definition("N.x".to_string()),
        StatementIdentifier::Definition("N.intermediate".to_string()),
        StatementIdentifier::Identity(0),
    ];
    let analyzed = condense(Some(65536), definitions, vec![], &identities, order.clone()).unwrap();
    assert_eq!(
        analyzed.intermediate_columns,
        vec![(
            "N.intermediate".to_string(),
            (
                symbol(
                    "N.intermediate",
                    0,
                    SymbolKind::Poly(PolynomialType::Intermediate),
                    None
                ),
                vec![x]
            )
        )]
    );
    assert_eq!(
        analyzed.definitions,
        vec![(
            "N.x".to_string(),
            (
                symbol("N.x", 0, SymbolKind::Poly(PolynomialType::Committed), None),
                None
            )
        )]
    );
    assert_eq!(analyzed.source_order, order);
    assert_eq!(
        analyzed.identities,
        vec![Identity::from_polynomial_identity(
            0,
            at(0),
            minus(column("N.intermediate", 0), column("N.intermediate", 0))
        )]
    );
}

#[test]
fn an_intermediate_array_has_one_expression_for_each_element() {
    let values = vec![column("a", 0), column("b", 1), constant(3)];
    let evaluated = Ok(Value::Array(
        values.iter().cloned().map(Value::Expression).collect(),
    ));
    assert_eq!(evaluated.clone(), evaluated);
    let definitions = vec![intermediate("N.i", 4, Some(3), Some(expr_array()), evaluated)];
    let analyzed = condense(None, definitions, vec![], &vec![], vec![]).unwrap();
    assert_eq!(analyzed.intermediate_columns.len(), 1);
    assert_eq!(analyzed.intermediate_columns[0].1 .1, values);
    assert!(analyzed.definitions.is_empty());
}

#[test]
fn an_intermediate_array_of_another_length_is_refused() {
    let evaluated = Ok(Value::Array(vec![
        Value::Expression(column("a", 0)),
        Value::Expression(column("b", 1)),
    ]));
    let definitions = vec![intermediate("N.i", 4, Some(3), Some(expr_array()), evaluated)];
    assert_eq!(
        condense(None, definitions, vec![], &vec![], vec![]),
        Err(CondenseError::ArrayLengthMismatch {
            name: "N.i".to_string(),
            expected: 3,
            found: 2
        })
    );
}

#[test]
fn an_intermediate_column_of_another_type_is_refused() {
    let value = Ok(Value::Expression(column("a", 0)));
    let refused = |definition: Definition<Field>| {
        assert_eq!(
            condense(None, vec![definition], vec![], &vec![], vec![]),
            Err(CondenseError::IntermediateTypeError {
                name: "N.i".to_string()
            })
        );
    };
    refused(intermediate("N.i", 1, None, Some(Type::Int), value.clone()));
    refused(intermediate("N.i", 1, None, Some(expr_array()), value.clone()));
    refused(intermediate("N.i", 1, Some(1), Some(Type::Expr), value.clone()));
    refused(intermediate(
        "N.i",
        1,
        Some(1),
        Some(Type::Array(ArrayType {
            base: Box::new(Type::Col),
            length: None,
        })),
        value.clone(),
    ));
    let mut generic = intermediate("N.i", 1, None, Some(Type::Expr), value.clone());
    generic.value = Some(FunctionValueDefinition::Expression(TypedExpression {
        e: reference("N.x"),
        type_scheme: Some(TypeScheme {
            vars: TypeBounds::new(vec![("T".to_string(), Default::default())]),
            ty: Type::Expr,
        }),
    }));
    refused(generic);
    let mut query = intermediate("N.i", 1, None, Some(Type::Expr), value.clone());
    query.value = Some(FunctionValueDefinition::Query(reference("N.x")));
    refused(query);
    let mut nothing = intermediate("N.i", 1, None, Some(Type::Expr), value.clone());
    nothing.value = None;
    refused(nothing);
}

#[test]
fn an_intermediate_column_without_a_type_scheme_is_refused() {
    let value = Ok(Value::Expression(column("a", 0)));
    for length in [None, Some(1)] {
        let definition = intermediate("N.i", 1, length, None, value.clone());
        assert_eq!(
            condense(None, vec![definition], vec![], &vec![], vec![]),
            Err(CondenseError::MissingTypeScheme {
                name: "N.i".to_string()
            })
        );
    }
}

#[test]
fn an_intermediate_column_that_was_not_evaluated_is_refused() {
    let mut definition = intermediate(
        "N.i",
        1,
        None,
        Some(Type::Expr),
        Ok(Value::Expression(column("a", 0))),
    );
    definition.evaluated = None;
    assert_eq!(
        condense(None, vec![definition], vec![], &vec![], vec![]),
        Err(CondenseError::MissingEvaluation {
            name: "N.i".to_string()
        })
    );
}

#[test]
fn an_intermediate_column_with_another_value_is_refused() {
    let constraint = intermediate(
        "N.i",
        1,
        None,
        Some(Type::Expr),
        Ok(equation(column("a", 0), constant(0))),
    );
    assert_eq!(
        condense(None, vec![constraint], vec![], &vec![], vec![]),
        Err(CondenseError::IntermediateColumn {
            name: "N.i".to_string(),
            error: ValueError::TypeMismatch {
                expected: ValueKind::Expression,
                found: ValueKind::Identity
            }
        })
    );
    let failed = intermediate(
        "N.i",
        1,
        Some(2),
        Some(expr_array()),
        Err(EvalError::UndefinedSymbol("N.q".to_string())),
    );
    assert_eq!(
        condense(None, vec![failed], vec![], &vec![], vec![]),
        Err(CondenseError::IntermediateColumn {
            name: "N.i".to_string(),
            error: ValueError::Evaluation(EvalError::UndefinedSymbol("N.q".to_string()))
        })
    );
}

fn public(name: &str, column: &str) -> (String, PublicDeclaration) {
    (
        name.to_string(),
        PublicDeclaration {
            id: 0,
            source: at(20),
            name: name.to_string(),
            polynomial: PolynomialReference {
                name: column.to_string(),
                poly_id: None,
            },
            array_index: Some(1),
            index: 2,
        },
    )
}

#[test]
fn a_public_declaration_gets_the_id_of_its_column() {
    let definitions = vec![
        plain("T.a", 3, SymbolKind::Poly(PolynomialType::Constant)),
        plain("T.pc", 5, SymbolKind::Poly(PolynomialType::Committed)),
    ];
    let analyzed = condense::<Field>(
        None,
        definitions,
        vec![public("P", "T.pc"), public("Q", "T.a")],
        &vec![],
        vec![],
    )
    .unwrap();
    let (name, resolved) = &analyzed.public_declarations[0];
    assert_eq!(name, "P");
    assert_eq!(
        resolved.polynomial,
        PolynomialReference {
            name: "T.pc".to_string(),
            poly_id: Some(PolyID {
                id: 5,
                ptype: PolynomialType::Committed
            }),
        }
    );
    assert_eq!(resolved.array_index, Some(1));
    assert_eq!(resolved.index, 2);
    assert_eq!(resolved.source, at(20));
    assert_eq!(
        analyzed.public_declarations[1].1.polynomial.poly_id,
        Some(PolyID {
            id: 3,
            ptype: PolynomialType::Constant
        })
    );
}

#[test]
fn a_public_declaration_of_an_unknown_column_is_refused() {
    let undefined = Err(CondenseError::UndefinedSymbol {
        name: "T.pc".to_string(),
    });
    assert_eq!(
        condense::<Field>(None, vec![], vec![public("P", "T.pc")], &vec![], vec![]),
        undefined
    );
    let not_a_column = vec![plain("T.pc", 1, SymbolKind::Other())];
    assert_eq!(
        condense::<Field>(
            None,
            not_a_column,
            vec![public("P", "T.pc")],
            &vec![],
            vec![]
        ),
        undefined
    );
    let taken_out = vec![intermediate(
        "T.pc",
        1,
        None,
        Some(Type::Expr),
        Ok(Value::Expression(column("a", 0))),
    )];
    assert_eq!(
        condense(None, taken_out, vec![public("P", "T.pc")], &vec![], vec![]),
        undefined
    );
}

#[test]
fn the_first_failure_ends_the_pass() {
    let identities = vec![
        polynomial(0, Ok(Value::Expression(column("a", 0)))),
        polynomial(1, Err(EvalError::OutOfBounds("y[3]".to_string()))),
    ];
    let definitions = || {
        vec![intermediate(
            "N.i",
            1,
            None,
            Some(Type::Int),
            Ok(Value::Expression(column("a", 0))),
        )]
    };
    let mismatch = CondenseError::Identity {
        id: 0,
        source: at(0),
        error: ValueError::TypeMismatch {
            expected: ValueKind::Identity,
            found: ValueKind::Expression,
        },
    };
    let failed = CondenseError::Identity {
        id: 1,
        source: at(1),
        error: ValueError::Evaluation(EvalError::OutOfBounds("y[3]".to_string())),
    };
    let both = vec![
        StatementIdentifier::Identity(0),
        StatementIdentifier::Identity(1),
    ];
    assert_eq!(
        condense(None, definitions(), vec![public("P", "q")], &identities, both),
        Err(mismatch)
    );
    let reversed = vec![
        StatementIdentifier::Identity(1),
        StatementIdentifier::Identity(0),
    ];
    assert_eq!(
        condense(None, definitions(), vec![public("P", "q")], &identities, reversed),
        Err(failed)
    );
    assert_eq!(
        condense(None, definitions(), vec![public("P", "q")], &identities, vec![]),
        Err(CondenseError::IntermediateTypeError {
            name: "N.i".to_string()
        })
    );
}

#[test]
fn symbols_know_their_column_id() {
    let committed = symbol("x", 4, SymbolKind::Poly(PolynomialType::Committed), None);
    assert_eq!(
        committed.poly_id(),
        Some(PolyID {
            id: 4,
            ptype: PolynomialType::Committed
        })
    );
    assert!(!committed.is_intermediate());
    assert_eq!(symbol("c", 1, SymbolKind::Constant(), None).poly_id(), None);
    assert!(symbol("i", 1, SymbolKind::Poly(PolynomialType::Intermediate), None).is_intermediate());
    assert_eq!(committed.clone(), committed);
}

#[test]
fn a_condenser_finds_symbols_by_name() {
    let symbols = vec![
        (
            "a".to_string(),
            (symbol("a", 1, SymbolKind::Poly(PolynomialType::Constant), None), None),
        ),
        ("b".to_string(), (symbol("b", 2, SymbolKind::Other(), None), None)),
        (
            "a".to_string(),
            (symbol("a", 3, SymbolKind::Poly(PolynomialType::Committed), None), None),
        ),
    ];
    let condenser = Condenser { symbols };
    assert_eq!(condenser.symbol(&"a".to_string()).map(|s| s.id), Some(1));
    assert_eq!(condenser.symbol(&"b".to_string()).map(|s| s.id), Some(2));
    assert_eq!(condenser.symbol(&"c".to_string()), None);
    let resolved = condenser.resolve_declaration(public("P", "a").1).unwrap();
    assert_eq!(
        resolved.polynomial.poly_id,
        Some(PolyID {
            id: 1,
            ptype: PolynomialType::Constant
        })
    );
    assert_eq!(
        condenser.resolve_declaration(public("P", "b").1),
        Err(CondenseError::UndefinedSymbol {
            name: "b".to_string()
        })
    );
}
