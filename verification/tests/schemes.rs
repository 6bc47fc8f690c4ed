use std::collections::BTreeSet;

use pil_condenser::parsed::{Expression, NamespacedPolynomialReference, Natural};
use pil_condenser::path::{parse_absolute_path, Part, SymbolPath};
use pil_condenser::types::{TupleType, Type, TypeBounds, TypeScheme, TypeSchemeError};

fn var(name: &str) -> Type {
    Type::TypeVar(name.to_string())
}

fn scheme(declared: &[&str], used: &[&str]) -> TypeScheme {
    TypeScheme {
        vars: TypeBounds::new(
            declared
                .iter()
                .map(|n| (n.to_string(), BTreeSet::new()))
                .collect(),
        ),
        ty: Type::Tuple(TupleType {
            items: used.iter().map(|n| var(n)).collect(),
        }),
    }
}

fn names(list: &[&str]) -> Vec<String> {
    list.iter().map(|n| n.to_string()).collect()
}

#[test]
fn declared_and_used_type_variables_agree() {
    assert_eq!(scheme(&[], &[]).check_type_vars(), Ok(()));
    assert_eq!(scheme(&["T"], &["T", "T"]).check_type_vars(), Ok(()));
    assert_eq!(scheme(&["A", "B"], &["B", "A", "B"]).check_type_vars(), Ok(()));
    let plain: TypeScheme = TypeScheme::from(Type::Int);
    assert_eq!(plain.check_type_vars(), Ok(()));
}

#[test]
fn a_declared_type_variable_that_is_not_used_is_reported() {
    assert_eq!(
        scheme(&["T"], &[]).check_type_vars(),
        Err(TypeSchemeError::DeclaredButUnusedTypeVar(names(&["T"])))
    );
    assert_eq!(
        scheme(&["A", "B", "C"], &["B"]).check_type_vars(),
        Err(TypeSchemeError::DeclaredButUnusedTypeVar(names(&["A", "C"])))
    );
}

#[test]
fn a_used_type_variable_that_is_not_declared_is_reported() {
    assert_eq!(
        scheme(&[], &["T"]).check_type_vars(),
        Err(TypeSchemeError::UsedButUndeclaredTypeVar(names(&["T"])))
    );
    assert_eq!(
        scheme(&["A"], &["Z", "A", "Y", "Z"]).check_type_vars(),
        Err(TypeSchemeError::UsedButUndeclaredTypeVar(names(&["Z", "Y"])))
    );
}

#[test]
fn both_excesses_are_reported_together() {
    assert_eq!(
        scheme(&["K"], &["T"]).check_type_vars(),
        Err(TypeSchemeError::DeclaredAndUsedDiffer {
            declared_but_unused: names(&["K"]),
            used_but_undeclared: names(&["T"]),
        })
    );
}

#[test]
fn conversions_between_the_kinds_of_paths_and_expressions() {
    let absolute = parse_absolute_path("::a::b").unwrap();
    let relative: SymbolPath = absolute.clone().into();
    assert_eq!(
        relative,
        SymbolPath::from_parts(vec![
            Part::Root,
            Part::Named("a".to_string()),
            Part::Named("b".to_string())
        ])
    );
    assert_eq!(
        parse_absolute_path("::x::y").unwrap().join(relative),
        Ok(absolute)
    );
    let parsed: SymbolPath = "a.b".parse().unwrap();
    assert_eq!(parsed, SymbolPath::from_str("a::b").unwrap());
    assert!("a.b::c".parse::<SymbolPath>().is_err());
    let reference: NamespacedPolynomialReference = parsed.clone().into();
    assert_eq!(reference.path, parsed);
    let e: Expression = reference.clone().into();
    assert_eq!(e, Expression::Reference(reference));
    let n: Expression = 7u32.into();
    assert_eq!(n, Expression::Number(Natural::from_u64(7), None));
    let m: Expression = Natural::from_u64(8).into();
    assert_eq!(m, Expression::Number(Natural::from_u64(8), None));
}
