use pil_condenser::parsed::{
    ArrayExpression, ArrayLiteral, ArraySolveError, BinaryOperator, Expression, FunctionCall,
    FunctionDefinition, IfExpression, IndexAccess, LambdaExpression, MatchArm, MatchPattern,
    Natural, NamespacedPolynomialReference, SelectedExpressions, UnaryOperator,
};
use pil_condenser::path::SymbolPath;

fn num(n: u32) -> Expression {
    Expression::from_u32(n)
}

fn name(n: &str) -> Expression {
    Expression::Reference(NamespacedPolynomialReference::from_identifier(n.to_string()))
}

#[test]
fn solve_fills_the_rest_of_the_degree() {
    let array = ArrayExpression::value(vec![name("a"), name("b")])
        .concat(ArrayExpression::repeated_value(vec![num(0)]));
    assert_eq!(array.solve(9), Ok(7));
    assert_eq!(array.solve(2), Ok(0));
    assert_eq!(ArrayExpression::value(vec![]).solve(0), Ok(0));
    assert_eq!(ArrayExpression::repeated_value(vec![num(1)]).solve(16), Ok(16));
}

#[test]
fn solve_refuses_two_repeated_blocks() {
    let twice = ArrayExpression::repeated_value(vec![num(1)])
        .concat(ArrayExpression::value(vec![num(2)]))
        .concat(ArrayExpression::repeated_value(vec![num(3)]));
    for degree in [0, 1, 9, u64::MAX] {
        assert_eq!(
            twice.solve(degree),
            Err(ArraySolveError::AmbiguousRepetition)
        );
    }
    let nested = ArrayExpression::value(vec![num(2)]).concat(
        ArrayExpression::repeated_value(vec![]).concat(ArrayExpression::repeated_value(vec![])),
    );
    assert_eq!(nested.solve(100), Err(ArraySolveError::AmbiguousRepetition));
}

#[test]
fn solve_refuses_an_array_longer_than_the_degree() {
    let array = ArrayExpression::value(vec![num(1), num(2)])
        .concat(ArrayExpression::repeated_value(vec![num(0)]))
        .concat(ArrayExpression::value(vec![num(3)]));
    assert_eq!(
        array.solve(2),
        Err(ArraySolveError::ArrayTooLarge {
            length: 3,
            degree: 2
        })
    );
    assert_eq!(array.solve(3), Ok(0));
}

#[test]
fn pad_with_zeroes_appends_a_repeated_zero() {
    let array = ArrayExpression::value(vec![num(1), num(2)]);
    assert_eq!(
        array.clone().pad_with_zeroes(),
        array.concat(ArrayExpression::repeated_value(vec![num(0)]))
    );
    assert_eq!(
        ArrayExpression::value(vec![]).pad_with_zeroes(),
        ArrayExpression::value(vec![])
    );
}

#[test]
fn pad_with_last_repeats_the_last_expression() {
    let last = Expression::new_binary(name("x"), BinaryOperator::Mul, num(3));
    let array =
        ArrayExpression::value(vec![num(1)]).concat(ArrayExpression::value(vec![last.clone()]));
    assert_eq!(
        array.clone().pad_with_last(),
        Some(array.concat(ArrayExpression::repeated_value(vec![last])))
    );
    assert_eq!(ArrayExpression::value(vec![]).pad_with_last(), None);
    let empty_at_the_right =
        ArrayExpression::value(vec![num(1)]).concat(ArrayExpression::value(vec![]));
    assert_eq!(
        empty_at_the_right.clone().pad_with_last(),
        Some(empty_at_the_right.concat(ArrayExpression::repeated_value(vec![num(1)])))
    );
    let empty_blocks = ArrayExpression::value(vec![])
        .concat(ArrayExpression::value(vec![]).concat(ArrayExpression::value(vec![])));
    assert_eq!(empty_blocks.pad_with_last(), None);
    let deep = ArrayExpression::value(vec![num(1), num(2)])
        .concat(ArrayExpression::value(vec![]))
        .concat(ArrayExpression::value(vec![]).concat(ArrayExpression::value(vec![])));
    assert_eq!(
        deep.clone().pad_with_last(),
        Some(deep.concat(ArrayExpression::repeated_value(vec![num(2)])))
    );
}

#[test]
fn array_expressions_from_left_to_right() {
    let array = ArrayExpression::value(vec![num(1), num(2)])
        .concat(ArrayExpression::repeated_value(vec![num(3)]))
        .concat(ArrayExpression::value(vec![num(4)]));
    assert_eq!(
        array.expressions(),
        vec![&num(1), &num(2), &num(3), &num(4)]
    );
    assert_eq!(
        FunctionDefinition::Array(array).expressions(),
        vec![&num(1), &num(2), &num(3), &num(4)]
    );
    assert_eq!(
        FunctionDefinition::Query(num(5)).expressions(),
        vec![&num(5)]
    );
    assert_eq!(
        FunctionDefinition::Expression(num(6)).expressions(),
        vec![&num(6)]
    );
}

#[test]
fn selected_expressions_start_with_the_selector() {
    let with = SelectedExpressions {
        selector: Some(num(1)),
        expressions: vec![num(2), num(3)],
    };
    assert_eq!(with.expressions(), vec![&num(1), &num(2), &num(3)]);
    let without = SelectedExpressions {
        selector: None,
        expressions: vec![num(2)],
    };
    assert_eq!(without.expressions(), vec![&num(2)]);
    let empty: SelectedExpressions<Expression> = SelectedExpressions::default();
    assert!(empty.expressions().is_empty());
    assert_eq!(empty.selector, None);
}

#[test]
fn numbers_are_ordered_by_value() {
    let small = Natural::from_u64(5);
    let large = Natural::from_digits(&vec![1, 0]);
    let larger = Natural::from_digits(&vec![1, 1]);
    assert!(small < large);
    assert!(large < larger);
    assert_eq!(Natural::from_digits(&vec![0, 0, 5]), small);
    assert_eq!(Natural::from_u64(0), Natural::default());
    assert_eq!(small.to_u64(), Some(5));
    assert_eq!(Natural::from_u64(u64::MAX).to_u64(), Some(u64::MAX));
    assert_eq!(large.to_u64(), None);
    assert_eq!(Natural::from_u32(7).to_u64(), Some(7));
    assert_eq!(larger.digits(), &vec![1, 1]);
    assert!(Natural::from_u64(0).digits().is_empty());
    assert_eq!(larger.clone(), larger);
}

#[test]
fn expression_builders() {
    let a = name("a");
    let b = num(2);
    assert_eq!(
        a.clone().add(b.clone()),
        Expression::BinaryOperation(Box::new(a.clone()), BinaryOperator::Add, Box::new(b.clone()))
    );
    assert_eq!(
        a.clone().sub(b.clone()),
        Expression::new_binary(a.clone(), BinaryOperator::Sub, b.clone())
    );
    assert_eq!(
        a.clone().mul(b.clone()),
        Expression::new_binary(a.clone(), BinaryOperator::Mul, b.clone())
    );
    assert_eq!(
        Expression::<NamespacedPolynomialReference>::from_number(Natural::from_u64(2)),
        b
    );
    assert_eq!(num(2), Expression::Number(Natural::from_u64(2), None));
}

#[test]
fn references_and_operators() {
    let reference = NamespacedPolynomialReference::from_identifier("x".to_string());
    assert_eq!(reference.try_to_identifier(), Some(&"x".to_string()));
    let path = SymbolPath::from_str("a::b").unwrap();
    let long = NamespacedPolynomialReference::from(path.clone());
    assert_eq!(long.path, path);
    assert_eq!(long.try_to_identifier(), None);
    assert!(UnaryOperator::Minus.is_prefix());
    assert!(UnaryOperator::LogicalNot.is_prefix());
    assert!(!UnaryOperator::Next.is_prefix());
}

#[test]
fn any_looks_at_every_expression_inside() {
    let is = |wanted: u32| move |e: &Expression| *e == num(wanted);
    let nested = Expression::MatchExpression(
        Box::new(Expression::Tuple(vec![num(1), num(2)])),
        vec![
            MatchArm {
                pattern: MatchPattern::Pattern(num(3)),
                value: Expression::LambdaExpression(LambdaExpression {
                    params: vec!["i".to_string()],
                    body: Box::new(Expression::ArrayLiteral(ArrayLiteral {
                        items: vec![num(4), num(1).add(num(5))],
                    })),
                }),
            },
            MatchArm {
                pattern: MatchPattern::CatchAll,
                value: Expression::IfExpression(IfExpression {
                    condition: Box::new(Expression::UnaryOperation(
                        UnaryOperator::LogicalNot,
                        Box::new(num(6)),
                    )),
                    body: Box::new(Expression::IndexAccess(IndexAccess {
                        array: Box::new(num(7)),
                        index: Box::new(num(8)),
                    })),
                    else_body: Box::new(Expression::FunctionCall(FunctionCall {
                        function: Box::new(num(9)),
                        arguments: vec![Expression::FreeInput(Box::new(num(10))), num(11)],
                    })),
                }),
            },
        ],
    );
    for wanted in 1..=11 {
        assert!(nested.any(is(wanted)), "{wanted}");
    }
    assert!(!nested.any(is(12)));
    assert!(nested.any(|e| matches!(e, Expression::MatchExpression(_, _))));
    assert!(num(1).any(is(1)));
    assert!(!num(1).any(is(2)));
    assert!(!name("a").any(|e| matches!(e, Expression::Number(_, _))));
    let asked = std::cell::Cell::new(0);
    assert!(nested.any(|e| {
        asked.set(asked.get() + 1);
        *e == num(2)
    }));
    assert_eq!(asked.get(), 4);
}
