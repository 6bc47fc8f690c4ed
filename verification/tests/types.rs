use std::collections::BTreeSet;

use pil_condenser::types::{ArrayType, FunctionType, TupleType, Type, TypeBounds, TypeScheme};

fn var(name: &str) -> Type {
    Type::TypeVar(name.to_string())
}

fn array(base: Type, length: Option<u64>) -> Type {
    Type::Array(ArrayType {
        base: Box::new(base),
        length,
    })
}

fn tuple(items: Vec<Type>) -> Type {
    Type::Tuple(TupleType { items })
}

fn function(params: Vec<Type>, value: Type) -> Type {
    Type::Function(FunctionType {
        params,
        value: Box::new(value),
    })
}

fn traits(names: &[&str]) -> BTreeSet<String> {
    names.iter().map(|n| n.to_string()).collect()
}

#[test]
fn elementary_types() {
    let elementary: [Type; 8] = [
        Type::Bottom,
        Type::Bool,
        Type::Int,
        Type::Fe,
        Type::String,
        Type::Col,
        Type::Expr,
        Type::Constr,
    ];
    for ty in elementary {
        assert!(ty.is_elementary());
        assert!(!ty.needs_parentheses());
        assert!(ty.is_concrete_type());
    }
    assert!(!var("T").is_elementary());
    assert!(!array(Type::Int, None).is_elementary());
    assert!(!tuple(vec![]).is_elementary());
    assert!(!function(vec![], Type::Int).is_elementary());
    assert!(function(vec![], Type::Int).needs_parentheses());
    assert!(!tuple(vec![Type::Int]).needs_parentheses());
    assert!(!var("T").needs_parentheses());
}

#[test]
fn type_vars_in_order_of_occurrence() {
    let ty = function(
        vec![var("B"), tuple(vec![var("A"), array(var("B"), Some(3))])],
        function(vec![var("C")], var("A")),
    );
    let names = |v: Vec<&String>| v.into_iter().cloned().collect::<Vec<_>>();
    assert_eq!(
        names(ty.contained_type_vars_with_repetitions()),
        vec!["B", "A", "B", "C", "A"]
    );
    assert_eq!(names(ty.contained_type_vars()), vec!["B", "A", "C"]);
    assert!(ty.contains_type_var("C"));
    assert!(!ty.contains_type_var("D"));
    assert!(!ty.is_concrete_type());
}

#[test]
fn concrete_exactly_without_type_vars() {
    let samples = vec![
        Type::Int,
        var("T"),
        array(var("T"), None),
        array(Type::Fe, Some(2)),
        tuple(vec![Type::Int, Type::Bool]),
        tuple(vec![Type::Int, var("X")]),
        function(vec![Type::Int], var("X")),
        function(vec![Type::Int], Type::Constr),
    ];
    for ty in samples {
        assert_eq!(
            ty.is_concrete_type(),
            ty.contained_type_vars().is_empty(),
            "{ty:?}"
        );
    }
}

#[test]
fn array_lengths_in_order() {
    let ty: Type = function(
        vec![array(array(Type::Int, Some(1)), Some(2)), array(Type::Fe, None)],
        tuple(vec![array(Type::Bool, Some(3)), Type::Int]),
    );
    assert_eq!(ty.expressions(), vec![&1, &2, &3]);
    let a = ArrayType {
        base: Box::new(array(Type::Int, Some(7))),
        length: Some(8u64),
    };
    assert_eq!(a.expressions(), vec![&7, &8]);
    let t = TupleType {
        items: vec![array(Type::Int, Some(5)), array(Type::Int, Some(6))],
    };
    assert_eq!(t.expressions(), vec![&5, &6]);
    let f = FunctionType {
        params: vec![array(Type::Int, Some(9))],
        value: Box::new(array(Type::Int, Some(10))),
    };
    assert_eq!(f.expressions(), vec![&9, &10]);
    assert!(Type::<u64>::Int.expressions().is_empty());
}

#[test]
fn substitution_is_one_pass() {
    let substitutions = vec![
        ("A".to_string(), var("B")),
        ("B".to_string(), Type::Int),
        ("A".to_string(), Type::Bool),
    ];
    let mut ty = tuple(vec![var("A"), var("B"), var("C"), array(var("A"), Some(4))]);
    ty.substitute_type_vars(&substitutions);
    assert_eq!(
        ty,
        tuple(vec![var("B"), Type::Int, var("C"), array(var("B"), Some(4))])
    );
    let f = function(vec![var("B")], var("A")).substitute_type_vars_to(&substitutions);
    assert_eq!(f, function(vec![Type::Int], var("B")));
    assert_eq!(Type::<u64>::Fe.substitute_type_vars_to(&substitutions), Type::Fe);
}

#[test]
fn substitution_copies_the_replacement() {
    let replacement = function(vec![array(Type::Int, Some(2))], tuple(vec![var("X")]));
    let substitutions = vec![("T".to_string(), replacement.clone())];
    let ty = tuple(vec![var("T"), var("T")]).substitute_type_vars_to(&substitutions);
    assert_eq!(ty, tuple(vec![replacement.clone(), replacement]));
}

#[test]
fn simplify_renames_in_order_of_first_occurrence() {
    let scheme = TypeScheme {
        vars: TypeBounds::new(vec![
            ("K".to_string(), traits(&["Add", "Mul"])),
            ("V".to_string(), traits(&[])),
        ]),
        ty: function(vec![var("V"), var("K")], array(var("K"), None)),
    };
    let simplified = scheme.simplify_type_vars();
    assert_eq!(
        simplified,
        TypeScheme {
            vars: TypeBounds::new(vec![
                ("T2".to_string(), traits(&["Add", "Mul"])),
                ("T1".to_string(), traits(&[])),
            ]),
            ty: function(vec![var("T1"), var("T2")], array(var("T2"), None)),
        }
    );
    let swapped: TypeScheme = TypeScheme {
        vars: TypeBounds::new(vec![
            ("A".to_string(), traits(&[])),
            ("B".to_string(), traits(&[])),
        ]),
        ty: function(vec![var("B")], var("A")),
    };
    assert_eq!(
        swapped.simplify_type_vars().ty,
        function(vec![var("T1")], var("T2"))
    );
}

#[test]
fn simplify_numbers_unused_variables_last() {
    let scheme: TypeScheme = TypeScheme {
        vars: TypeBounds::new(vec![
            ("A".to_string(), traits(&["X"])),
            ("B".to_string(), traits(&[])),
            ("C".to_string(), traits(&["Y"])),
            ("D".to_string(), traits(&[])),
        ]),
        ty: tuple(vec![var("D"), var("free"), var("B"), var("D")]),
    };
    let once = scheme.simplify_type_vars();
    assert_eq!(once.clone().simplify_type_vars(), once);
    assert_eq!(
        once,
        TypeScheme {
            vars: TypeBounds::new(vec![
                ("T3".to_string(), traits(&["X"])),
                ("T2".to_string(), traits(&[])),
                ("T4".to_string(), traits(&["Y"])),
                ("T1".to_string(), traits(&[])),
            ]),
            ty: tuple(vec![var("T1"), var("free"), var("T2"), var("T1")]),
        }
    );
}

#[test]
fn simplify_names_a_single_variable_t() {
    let scheme: TypeScheme = TypeScheme {
        vars: TypeBounds::new(vec![("Item".to_string(), traits(&["Ord"]))]),
        ty: array(var("Item"), Some(3)),
    };
    assert_eq!(
        scheme.simplify_type_vars(),
        TypeScheme {
            vars: TypeBounds::new(vec![("T".to_string(), traits(&["Ord"]))]),
            ty: array(var("T"), Some(3)),
        }
    );
}

#[test]
fn simplify_swaps_names_at_once() {
    let scheme: TypeScheme = TypeScheme {
        vars: TypeBounds::new(vec![
            ("T2".to_string(), traits(&[])),
            ("T1".to_string(), traits(&["Eq"])),
        ]),
        ty: tuple(vec![var("T2"), var("T1"), var("free")]),
    };
    let once = scheme.simplify_type_vars();
    assert_eq!(
        once.ty,
        tuple(vec![var("T1"), var("T2"), var("free")])
    );
    assert_eq!(
        once.vars,
        TypeBounds::new(vec![
            ("T1".to_string(), traits(&[])),
            ("T2".to_string(), traits(&["Eq"])),
        ])
    );
}

#[test]
fn simplify_twice_is_simplify_once() {
    let schemes: Vec<TypeScheme> = vec![
        TypeScheme {
            vars: TypeBounds::new(vec![]),
            ty: var("X"),
        },
        TypeScheme {
            vars: TypeBounds::new(vec![("X".to_string(), traits(&["A"]))]),
            ty: tuple(vec![var("X"), var("T")]),
        },
        TypeScheme {
            vars: TypeBounds::new(
                (0..12)
                    .map(|i| (format!("v{i}"), traits(&[])))
                    .collect(),
            ),
            ty: tuple((0..12).rev().map(|i| var(&format!("v{i}"))).collect()),
        },
    ];
    for scheme in schemes {
        let once = scheme.simplify_type_vars();
        let twice = once.clone().simplify_type_vars();
        assert_eq!(once, twice);
    }
}

#[test]
fn simplify_counts_in_decimal() {
    let scheme: TypeScheme = TypeScheme {
        vars: TypeBounds::new((0..11).map(|i| (format!("v{i}"), traits(&[]))).collect()),
        ty: tuple((0..11).map(|i| var(&format!("v{i}"))).collect()),
    };
    assert_eq!(
        scheme.simplify_type_vars().ty,
        tuple((1..=11).map(|i| var(&format!("T{i}"))).collect())
    );
}

#[test]
fn type_bounds_accessors() {
    let bounds = TypeBounds::new(vec![
        ("A".to_string(), traits(&["X"])),
        ("B".to_string(), traits(&[])),
    ]);
    assert!(!bounds.is_empty());
    assert_eq!(bounds.len(), 2);
    assert_eq!(bounds.vars(), vec!["A", "B"]);
    let x = traits(&["X"]);
    let none = traits(&[]);
    assert_eq!(
        bounds.bounds(),
        vec![(&"A".to_string(), &x), (&"B".to_string(), &none)]
    );
    assert!(TypeBounds::default().is_empty());
    assert_eq!(TypeBounds::default().len(), 0);
}

#[test]
fn declared_variables_are_written_between_angle_brackets() {
    let bounds = TypeBounds::new(vec![
        ("T".to_string(), traits(&["Mul", "Add", "Ord"])),
        ("U".to_string(), traits(&[])),
        ("V".to_string(), traits(&["Eq"])),
    ]);
    assert_eq!(bounds.to_string(), "T: Add + Mul + Ord, U, V: Eq");
    assert_eq!(TypeBounds::default().to_string(), "");
    let scheme: TypeScheme = TypeScheme {
        vars: bounds,
        ty: tuple(vec![var("T"), var("U"), var("V")]),
    };
    assert_eq!(scheme.type_vars_to_string(), "<T: Add + Mul + Ord, U, V: Eq>");
    let single: TypeScheme = TypeScheme {
        vars: TypeBounds::new(vec![("T".to_string(), traits(&[]))]),
        ty: var("T"),
    };
    assert_eq!(single.type_vars_to_string(), "<T>");
    let plain: TypeScheme = TypeScheme {
        vars: TypeBounds::default(),
        ty: Type::Int,
    };
    assert_eq!(plain.type_vars_to_string(), "");
    let ordered = TypeBounds::new(vec![("X".to_string(), traits(&["b", "B", "ab", "a", "aa"]))]);
    assert_eq!(ordered.to_string(), "X: B + a + aa + ab + b");
}
