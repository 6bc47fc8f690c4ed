//! Condensation: from identities and definitions whose expressions were
//! evaluated to the flat list of algebraic identities and the table of
//! intermediate columns.

use crate::analyzed::{
    column_views, difference, identity_views, names_occur_once, polynomial_identity,
    selected_view, table_names,
    AlgebraicExpression, Analyzed, AnalyzedView, FunctionValueDefinition, Identity, IdentityKind,
    IdentityView, PolynomialReference, PublicDeclaration, SelectedView,
    StatementIdentifier, Symbol,
};
use crate::parsed::SelectedExpressions;
use crate::sequence::{
    collected, lemma_collected_all, lemma_collected_fails, lemma_collected_step,
    lemma_collected_values,
};
use crate::source::SourceRef;
use crate::types::Type;
use vstd::prelude::*;

verus! {

/// What the evaluation of an expression gives.
#[derive(Debug, PartialEq, Eq)]
pub enum Value<T> {
    /// An algebraic expression.
    Expression(AlgebraicExpression<T>),
    /// An identity between two algebraic expressions.
    Identity(AlgebraicExpression<T>, AlgebraicExpression<T>),
    /// A list of values.
    Array(Vec<Value<T>>),
}

/// Why an expression could not be evaluated.
#[derive(Debug, PartialEq, Eq)]
pub enum EvalError {
    UndefinedSymbol(String),
    ArityMismatch(String),
    TypeMismatch(String),
    OutOfBounds(String),
    UnresolvedOperator(String),
}

impl Clone for EvalError {
    fn clone(&self) -> (copy: Self)
        ensures
            copy == *self,
    {
        match self {
            EvalError::UndefinedSymbol(m) => EvalError::UndefinedSymbol(m.clone()),
            EvalError::ArityMismatch(m) => EvalError::ArityMismatch(m.clone()),
            EvalError::TypeMismatch(m) => EvalError::TypeMismatch(m.clone()),
            EvalError::OutOfBounds(m) => EvalError::OutOfBounds(m.clone()),
            EvalError::UnresolvedOperator(m) => EvalError::UnresolvedOperator(m.clone()),
        }
    }
}

/// What the evaluator answered for an expression.
pub type Evaluation<T> = Result<Value<T>, EvalError>;

/// The shape of a value.
#[derive(Debug, PartialEq, Eq, Clone, Copy)]
pub enum ValueKind {
    Expression,
    Identity,
    Array,
}

/// Why an evaluation does not give what is asked of it.
#[derive(Debug, PartialEq, Eq, Clone)]
pub enum ValueError {
    /// The evaluator failed.
    Evaluation(EvalError),
    /// The value has another shape than the one that is asked for.
    TypeMismatch { expected: ValueKind, found: ValueKind },
}

/// Why a program cannot be condensed.
#[derive(Debug, PartialEq, Eq, Clone)]
pub enum CondenseError {
    /// An expression of the identity does not give what is asked of it.
    Identity { id: u64, source: SourceRef, error: ValueError },
    /// A polynomial identity without its expression, or a connect identity
    /// with a selector.
    MalformedIdentity { id: u64, source: SourceRef },
    /// The statement order names an identity that is not in the list.
    UndefinedIdentity { index: usize },
    /// The body of the intermediate column does not give what is asked of it.
    IntermediateColumn { name: String, error: ValueError },
    /// The intermediate column is not defined by an expression of type
    /// `expr`, or `expr[]` for an array, without type variables.
    IntermediateTypeError { name: String },
    /// The definition of the intermediate column has no type scheme.
    MissingTypeScheme { name: String },
    /// The body of the intermediate column was not evaluated.
    MissingEvaluation { name: String },
    /// The intermediate column has another number of elements than declared.
    ArrayLengthMismatch { name: String, expected: u64, found: usize },
    /// No column of this name is left among the definitions.
    UndefinedSymbol { name: String },
}

/// The shape of a value.
pub open spec fn kind_of<T>(value: Value<T>) -> ValueKind {
    match value {
        Value::Expression(_) => ValueKind::Expression,
        Value::Identity(_, _) => ValueKind::Identity,
        Value::Array(_) => ValueKind::Array,
    }
}

/// What is asked of an item: a constraint, or else an expression.
pub open spec fn wanted_kind(constraint: bool) -> ValueKind {
    if constraint {
        ValueKind::Identity
    } else {
        ValueKind::Expression
    }
}

/// The algebraic expression that a value stands for: itself where an
/// expression is asked for, left less right where a constraint is.
pub open spec fn item_of<T>(value: Value<T>, constraint: bool) -> Result<
    AlgebraicExpression<T>,
    ValueError,
> {
    match value {
        Value::Expression(e) if !constraint => Ok(e),
        Value::Identity(left, right) if constraint => Ok(difference(left, right)),
        _ => Err(
            ValueError::TypeMismatch { expected: wanted_kind(constraint), found: kind_of(value) },
        ),
    }
}

/// What each value of a list stands for.
pub open spec fn item_results<T>(values: Seq<Value<T>>, constraint: bool) -> Seq<
    Result<AlgebraicExpression<T>, ValueError>,
> {
    values.map_values(|v: Value<T>| item_of(v, constraint))
}

/// The one algebraic expression that an evaluation gives.
pub open spec fn expect_expression<T>(evaluation: Evaluation<T>) -> Result<
    AlgebraicExpression<T>,
    ValueError,
> {
    match evaluation {
        Ok(value) => item_of(value, false),
        Err(e) => Err(ValueError::Evaluation(e)),
    }
}

/// The algebraic expressions that an evaluation gives as an array.
pub open spec fn expect_expressions<T>(evaluation: Evaluation<T>) -> Result<
    Seq<AlgebraicExpression<T>>,
    ValueError,
> {
    match evaluation {
        Ok(Value::Array(items)) => collected(item_results(items@, false)),
        Ok(value) => Err(
            ValueError::TypeMismatch { expected: ValueKind::Array, found: kind_of(value) },
        ),
        Err(e) => Err(ValueError::Evaluation(e)),
    }
}

/// The constraints that an evaluation gives: one for an identity, one for
/// each item of an array of identities. A constraint is the left side less
/// the right side.
pub open spec fn expect_constraints<T>(evaluation: Evaluation<T>) -> Result<
    Seq<AlgebraicExpression<T>>,
    ValueError,
> {
    match evaluation {
        Ok(Value::Array(items)) => collected(item_results(items@, true)),
        Ok(value) => match item_of(value, true) {
            Ok(constraint) => Ok(seq![constraint]),
            Err(e) => Err(e),
        },
        Err(e) => Err(ValueError::Evaluation(e)),
    }
}

/// What each evaluation of a list gives as an expression.
pub open spec fn expression_results<T>(evaluations: Seq<Evaluation<T>>) -> Seq<
    Result<AlgebraicExpression<T>, ValueError>,
> {
    evaluations.map_values(|e: Evaluation<T>| expect_expression(e))
}

/// One side of an identity, condensed: the selector first, then the
/// expressions in order.
pub open spec fn condensed_selected<T>(side: SelectedExpressions<Evaluation<T>>) -> Result<
    SelectedView<AlgebraicExpression<T>>,
    ValueError,
> {
    let selector = match side.selector {
        Some(evaluation) => match expect_expression(evaluation) {
            Ok(e) => Ok(Some(e)),
            Err(e) => Err(e),
        },
        None => Ok(None),
    };
    match selector {
        Ok(selector) => match collected(expression_results(side.expressions@)) {
            Ok(expressions) => Ok(SelectedView { selector, expressions }),
            Err(e) => Err(e),
        },
        Err(e) => Err(e),
    }
}

/// Whether an identity has the parts that its kind asks for: a polynomial
/// identity its expression, a connect identity no selector.
pub open spec fn well_formed<Expr>(identity: Identity<Expr>) -> bool {
    match identity.kind {
        IdentityKind::Polynomial => identity.left.selector is Some,
        IdentityKind::Connect => identity.left.selector is None && identity.right.selector is None,
        _ => true,
    }
}

/// The identities that one identity condenses to, each with the id and the
/// source of the identity that it comes from: of a polynomial identity one
/// for each constraint, of another identity the one with both sides
/// condensed, the left side first.
pub open spec fn condensed_identity<T>(identity: Identity<Evaluation<T>>) -> Result<
    Seq<IdentityView<AlgebraicExpression<T>>>,
    CondenseError,
> {
    if !well_formed(identity) {
        Err(CondenseError::MalformedIdentity { id: identity.id, source: identity.source })
    } else if identity.kind is Polynomial {
        match expect_constraints(identity.left.selector->0) {
            Ok(constraints) => Ok(
                constraints.map_values(
                    |c: AlgebraicExpression<T>|
                        polynomial_identity(identity.id, identity.source, c),
                ),
            ),
            Err(error) => Err(
                CondenseError::Identity { id: identity.id, source: identity.source, error },
            ),
        }
    } else {
        match condensed_selected(identity.left) {
            Ok(left) => match condensed_selected(identity.right) {
                Ok(right) => Ok(
                    seq![
                        IdentityView {
                            id: identity.id,
                            kind: identity.kind,
                            source: identity.source,
                            left,
                            right,
                        },
                    ],
                ),
                Err(error) => Err(
                    CondenseError::Identity { id: identity.id, source: identity.source, error },
                ),
            },
            Err(error) => Err(
                CondenseError::Identity { id: identity.id, source: identity.source, error },
            ),
        }
    }
}

fn kind(value: &Value<impl Sized>) -> (kind: ValueKind)
    ensures
        kind == kind_of(*value),
{
    match value {
        Value::Expression(_) => ValueKind::Expression,
        Value::Identity(_, _) => ValueKind::Identity,
        Value::Array(_) => ValueKind::Array,
    }
}

fn condense_item<T: Copy>(value: &Value<T>, constraint: bool) -> (item: Result<
    AlgebraicExpression<T>,
    ValueError,
>)
    ensures
        item == item_of(*value, constraint),
{
    match value {
        Value::Expression(e) if !constraint => Ok(e.clone()),
        Value::Identity(left, right) if constraint => Ok(left.clone().sub(right.clone())),
        _ => Err(
            ValueError::TypeMismatch {
                expected: if constraint {
                    ValueKind::Identity
                } else {
                    ValueKind::Expression
                },
                found: kind(value),
            },
        ),
    }
}

fn condense_items<T: Copy>(values: &Vec<Value<T>>, constraint: bool) -> (items: Result<
    Vec<AlgebraicExpression<T>>,
    ValueError,
>)
    ensures
        match items {
            Ok(found) => collected(item_results(values@, constraint)) == Ok::<_, ValueError>(
                found@,
            ),
            Err(e) => collected(item_results(values@, constraint)) == Err::<
                Seq<AlgebraicExpression<T>>,
                _,
            >(e),
        },
{
    let ghost results = item_results(values@, constraint);
    let mut found: Vec<AlgebraicExpression<T>> = Vec::new();
    let mut i: usize = 0;
    proof {
        if values@.len() > 0 {
            lemma_collected_step(results, 0);
        }
        assert(results.take(0) =~= Seq::empty());
    }
    while i < values.len()
        invariant
            i <= values.len(),
            results == item_results(values@, constraint),
            collected(results.take(i as int)) == Ok::<_, ValueError>(found@),
        decreases values.len() - i,
    {
        proof {
            lemma_collected_step(results, i as int);
        }
        match condense_item(&values[i], constraint) {
            Ok(item) => {
                found.push(item);
            },
            Err(e) => {
                proof {
                    lemma_collected_fails(results, i + 1);
                }
                return Err(e);
            },
        }
        i += 1;
    }
    proof {
        assert(results.take(i as int) =~= results);
    }
    Ok(found)
}

/// The one algebraic expression that an evaluation gives. An evaluation
/// that failed, or that gives an identity or an array, is refused.
pub fn condense_to_algebraic_expression<T: Copy>(evaluation: &Evaluation<T>) -> (expression: Result<
    AlgebraicExpression<T>,
    ValueError,
>)
    ensures
        expression == expect_expression(*evaluation),
{
    match evaluation {
        Ok(value) => condense_item(value, false),
        Err(e) => Err(ValueError::Evaluation(e.clone())),
    }
}

/// The algebraic expressions that an evaluation gives as an array. An
/// evaluation that failed, or that is no array, or an array with an item
/// that is no expression, is refused.
pub fn condense_to_array_of_algebraic_expressions<T: Copy>(evaluation: &Evaluation<T>) -> (expressions:
    Result<Vec<AlgebraicExpression<T>>, ValueError>)
    ensures
        match expressions {
            Ok(found) => expect_expressions(*evaluation) == Ok::<_, ValueError>(found@),
            Err(e) => expect_expressions(*evaluation) == Err::<Seq<AlgebraicExpression<T>>, _>(e),
        },
{
    match evaluation {
        Ok(Value::Array(items)) => condense_items(items, false),
        Ok(value) => Err(
            ValueError::TypeMismatch { expected: ValueKind::Array, found: kind(value) },
        ),
        Err(e) => Err(ValueError::Evaluation(e.clone())),
    }
}

/// The constraints that an evaluation gives: the left side less the right
/// side of an identity, or of each identity of an array. An evaluation that
/// failed, or that gives anything else, is refused.
pub fn condense_to_constraint_or_array<T: Copy>(evaluation: &Evaluation<T>) -> (constraints: Result<
    Vec<AlgebraicExpression<T>>,
    ValueError,
>)
    ensures
        match constraints {
            Ok(found) => expect_constraints(*evaluation) == Ok::<_, ValueError>(found@),
            Err(e) => expect_constraints(*evaluation) == Err::<Seq<AlgebraicExpression<T>>, _>(e),
        },
{
    match evaluation {
        Ok(Value::Array(items)) => condense_items(items, true),
        Ok(value) => match condense_item(value, true) {
            Ok(constraint) => {
                let mut found: Vec<AlgebraicExpression<T>> = Vec::new();
                found.push(constraint);
                assert(found@ =~= seq![constraint]);
                Ok(found)
            },
            Err(e) => Err(e),
        },
        Err(e) => Err(ValueError::Evaluation(e.clone())),
    }
}

/// One side of an identity with its selector and each of its expressions
/// condensed to an algebraic expression; the first that cannot be is
/// reported, the selector before the expressions.
pub fn condense_selected_expressions<T: Copy>(
    side: &SelectedExpressions<Evaluation<T>>,
) -> (condensed: Result<SelectedExpressions<AlgebraicExpression<T>>, ValueError>)
    ensures
        match condensed {
            Ok(found) => condensed_selected(*side) == Ok::<_, ValueError>(selected_view(found)),
            Err(e) => condensed_selected(*side) == Err::<SelectedView<AlgebraicExpression<T>>, _>(
                e,
            ),
        },
{
    let selector = match &side.selector {
        Some(evaluation) => match condense_to_algebraic_expression(evaluation) {
            Ok(e) => Some(e),
            Err(e) => {
                return Err(e);
            },
        },
        None => None,
    };
    let ghost results = expression_results(side.expressions@);
    let mut expressions: Vec<AlgebraicExpression<T>> = Vec::new();
    let mut i: usize = 0;
    proof {
        if side.expressions@.len() > 0 {
            lemma_collected_step(results, 0);
        }
        assert(results.take(0) =~= Seq::empty());
    }
    while i < side.expressions.len()
        invariant
            i <= side.expressions.len(),
            results == expression_results(side.expressions@),
            collected(results.take(i as int)) == Ok::<_, ValueError>(expressions@),
            match side.selector {
                Some(evaluation) => expect_expression(evaluation) == Ok::<_, ValueError>(
                    selector->0,
                ) && selector is Some,
                None => selector is None,
            },
        decreases side.expressions.len() - i,
    {
        proof {
            lemma_collected_step(results, i as int);
        }
        match condense_to_algebraic_expression(&side.expressions[i]) {
            Ok(e) => {
                expressions.push(e);
            },
            Err(e) => {
                proof {
                    lemma_collected_fails(results, i + 1);
                }
                return Err(e);
            },
        }
        i += 1;
    }
    proof {
        assert(results.take(i as int) =~= results);
    }
    Ok(SelectedExpressions { selector, expressions })
}

/// A row of the symbol table as it is handed to the pass: a symbol, its body,
/// and, for an intermediate column, what the evaluator answered for the
/// expression of the body.
#[derive(Debug, PartialEq, Eq)]
pub struct Definition<T> {
    pub name: String,
    pub symbol: Symbol,
    pub value: Option<FunctionValueDefinition>,
    pub evaluated: Option<Evaluation<T>>,
}

/// Holds the symbol table against which identities are condensed and public
/// declarations are resolved.
#[derive(Debug, PartialEq, Eq, Clone)]
pub struct Condenser {
    /// The definitions, each under its name. Where a name occurs twice, the
    /// first definition counts.
    pub symbols: Vec<(String, (Symbol, Option<FunctionValueDefinition>))>,
}

/// The identities with the ids `start`, `start + 1`, ... in place of their own.
pub open spec fn renumbered<Expr>(identities: Seq<IdentityView<Expr>>, start: nat) -> Seq<
    IdentityView<Expr>,
> {
    Seq::new(
        identities.len(),
        |k: int|
            IdentityView {
                id: (start + k) as u64,
                kind: identities[k].kind,
                source: identities[k].source,
                left: identities[k].left,
                right: identities[k].right,
            },
    )
}

/// The entries of the statement order for the identities at the positions
/// `start`, `start + 1`, ..., `count` of them.
pub open spec fn references(start: nat, count: nat) -> Seq<StatementIdentifier> {
    Seq::new(count, |k: int| StatementIdentifier::Identity((start + k) as usize))
}

/// The list of condensed identities and the statement order that the entries
/// of `order` give, read from first to last: an entry for an identity is
/// replaced by one entry for each identity that it condenses to, and these
/// are appended to the list and numbered by their place in it; any other
/// entry is kept. The first entry that cannot be dealt with is reported.
pub open spec fn condensed_order<T>(
    identities: Seq<Identity<Evaluation<T>>>,
    order: Seq<StatementIdentifier>,
) -> Result<(Seq<IdentityView<AlgebraicExpression<T>>>, Seq<StatementIdentifier>), CondenseError>
    decreases order.len(),
{
    if order.len() == 0 {
        Ok((Seq::empty(), Seq::empty()))
    } else {
        match condensed_order(identities, order.drop_last()) {
            Ok((done, written)) => match order.last() {
                StatementIdentifier::Identity(index) => if index >= identities.len() {
                    Err(CondenseError::UndefinedIdentity { index })
                } else {
                    match condensed_identity(identities[index as int]) {
                        Ok(more) => Ok(
                            (
                                done + renumbered(more, done.len()),
                                written + references(done.len(), more.len()),
                            ),
                        ),
                        Err(e) => Err(e),
                    }
                },
                other => Ok((done, written.push(other))),
            },
            Err(e) => Err(e),
        }
    }
}

/// Whether a type scheme is the type `expr` without type variables.
pub open spec fn is_expr_scheme(scheme: crate::types::TypeScheme<u64>) -> bool {
    scheme.vars@.len() == 0 && scheme.ty is Expr
}

/// Whether a type scheme is an array of `expr`, of whatever length, without
/// type variables.
pub open spec fn is_expr_array_scheme(scheme: crate::types::TypeScheme<u64>) -> bool {
    &&& scheme.vars@.len() == 0
    &&& scheme.ty matches Type::Array(array)
    &&& *array.base is Expr
}

/// The expressions of an intermediate column, one for each element: the
/// definition must be an expression with a type scheme that fits, and what
/// it was evaluated to must have as many items as the column has elements.
pub open spec fn column_values<T>(definition: Definition<T>) -> Result<
    Seq<AlgebraicExpression<T>>,
    CondenseError,
> {
    let name = definition.name;
    match definition.value {
        Some(FunctionValueDefinition::Expression(typed)) => match typed.type_scheme {
            Some(scheme) => match definition.symbol.length {
                Some(length) => if !is_expr_array_scheme(scheme) {
                    Err(CondenseError::IntermediateTypeError { name })
                } else {
                    match definition.evaluated {
                        Some(evaluation) => match expect_expressions(evaluation) {
                            Ok(values) => if values.len() == length {
                                Ok(values)
                            } else {
                                Err(
                                    CondenseError::ArrayLengthMismatch {
                                        name,
                                        expected: length,
                                        found: values.len() as usize,
                                    },
                                )
                            },
                            Err(error) => Err(CondenseError::IntermediateColumn { name, error }),
                        },
                        None => Err(CondenseError::MissingEvaluation { name }),
                    }
                },
                None => if !is_expr_scheme(scheme) {
                    Err(CondenseError::IntermediateTypeError { name })
                } else {
                    match definition.evaluated {
                        Some(evaluation) => match expect_expression(evaluation) {
                            Ok(value) => Ok(seq![value]),
                            Err(error) => Err(CondenseError::IntermediateColumn { name, error }),
                        },
                        None => Err(CondenseError::MissingEvaluation { name }),
                    }
                },
            },
            None => Err(CondenseError::MissingTypeScheme { name }),
        },
        _ => Err(CondenseError::IntermediateTypeError { name }),
    }
}

/// The definitions that stay and the intermediate columns that are taken
/// out, both in the order of the table; the first intermediate column that
/// cannot be condensed is reported.
pub open spec fn split_definitions<T>(definitions: Seq<Definition<T>>) -> Result<
    (
        Seq<(String, (Symbol, Option<FunctionValueDefinition>))>,
        Seq<(String, (Symbol, Seq<AlgebraicExpression<T>>))>,
    ),
    CondenseError,
>
    decreases definitions.len(),
{
    if definitions.len() == 0 {
        Ok((Seq::empty(), Seq::empty()))
    } else {
        match split_definitions(definitions.drop_last()) {
            Ok((kept, columns)) => {
                let d = definitions.last();
                if d.symbol.spec_is_intermediate() {
                    match column_values(d) {
                        Ok(values) => Ok((kept, columns.push((d.name, (d.symbol, values))))),
                        Err(e) => Err(e),
                    }
                } else {
                    Ok((kept.push((d.name, (d.symbol, d.value))), columns))
                }
            },
            Err(e) => Err(e),
        }
    }
}

/// The symbol of the first definition with the given name.
pub open spec fn symbol_named(
    definitions: Seq<(String, (Symbol, Option<FunctionValueDefinition>))>,
    name: Seq<char>,
) -> Option<Symbol>
    decreases definitions.len(),
{
    if definitions.len() == 0 {
        None
    } else if definitions[0].0@ == name {
        Some(definitions[0].1.0)
    } else {
        symbol_named(definitions.drop_first(), name)
    }
}

/// The declaration with the resolved id of its column, which must be among
/// the definitions.
pub open spec fn resolved_declaration(
    definitions: Seq<(String, (Symbol, Option<FunctionValueDefinition>))>,
    declaration: PublicDeclaration,
) -> Result<PublicDeclaration, CondenseError> {
    let column = match symbol_named(definitions, declaration.polynomial.name@) {
        Some(symbol) => symbol.spec_poly_id(),
        None => None,
    };
    match column {
        Some(id) => Ok(
            PublicDeclaration {
                id: declaration.id,
                source: declaration.source,
                name: declaration.name,
                polynomial: PolynomialReference {
                    name: declaration.polynomial.name,
                    poly_id: Some(id),
                },
                array_index: declaration.array_index,
                index: declaration.index,
            },
        ),
        None => Err(CondenseError::UndefinedSymbol { name: declaration.polynomial.name }),
    }
}

/// Each declaration resolved, under its name.
pub open spec fn declaration_results(
    definitions: Seq<(String, (Symbol, Option<FunctionValueDefinition>))>,
    declarations: Seq<(String, PublicDeclaration)>,
) -> Seq<Result<(String, PublicDeclaration), CondenseError>> {
    declarations.map_values(
        |d: (String, PublicDeclaration)|
            match resolved_declaration(definitions, d.1) {
                Ok(resolved) => Ok((d.0, resolved)),
                Err(e) => Err(e),
            },
    )
}

/// The analyzed program that the pass gives: the identities condensed in the
/// order of the statements, then the intermediate columns taken out of the
/// definitions, then the public declarations resolved against the
/// definitions that stay. The first step that fails is reported.
pub open spec fn condensed<T>(
    degree: Option<u64>,
    definitions: Seq<Definition<T>>,
    public_declarations: Seq<(String, PublicDeclaration)>,
    identities: Seq<Identity<Evaluation<T>>>,
    source_order: Seq<StatementIdentifier>,
) -> Result<AnalyzedView<T>, CondenseError> {
    match condensed_order(identities, source_order) {
        Ok((condensed_identities, order)) => match split_definitions(definitions) {
            Ok((kept, columns)) => match collected(declaration_results(kept, public_declarations)) {
                Ok(declarations) => Ok(
                    AnalyzedView {
                        degree,
                        definitions: kept,
                        public_declarations: declarations,
                        intermediate_columns: columns,
                        identities: condensed_identities,
                        source_order: order,
                    },
                ),
                Err(e) => Err(e),
            },
            Err(e) => Err(e),
        },
        Err(e) => Err(e),
    }
}

impl Condenser {
    /// The identities that `identity` condenses to, its expressions having
    /// been evaluated: one for each constraint of a polynomial identity, one
    /// for any other identity. Each has the id and the source of `identity`.
    pub fn condense_identity<T: Copy>(&self, identity: &Identity<Evaluation<T>>) -> (condensed:
        Result<Vec<Identity<AlgebraicExpression<T>>>, CondenseError>)
        ensures
            match condensed {
                Ok(found) => condensed_identity(*identity) == Ok::<_, CondenseError>(
                    identity_views(found@),
                ),
                Err(e) => condensed_identity(*identity) == Err::<
                    Seq<IdentityView<AlgebraicExpression<T>>>,
                    _,
                >(e),
            },
    {
        condense_one(identity)
    }
}

fn condense_one<T: Copy>(identity: &Identity<Evaluation<T>>) -> (condensed: Result<
    Vec<Identity<AlgebraicExpression<T>>>,
    CondenseError,
>)
    ensures
        match condensed {
            Ok(found) => condensed_identity(*identity) == Ok::<_, CondenseError>(
                identity_views(found@),
            ),
            Err(e) => condensed_identity(*identity) == Err::<
                Seq<IdentityView<AlgebraicExpression<T>>>,
                _,
            >(e),
        },
{
    match identity.kind {
        IdentityKind::Polynomial => {
            let evaluation = match &identity.left.selector {
                Some(evaluation) => evaluation,
                None => {
                    return Err(
                        CondenseError::MalformedIdentity {
                            id: identity.id,
                            source: identity.source.clone(),
                        },
                    );
                },
            };
            let constraints = match condense_to_constraint_or_array(evaluation) {
                Ok(constraints) => constraints,
                Err(error) => {
                    return Err(
                        CondenseError::Identity {
                            id: identity.id,
                            source: identity.source.clone(),
                            error,
                        },
                    );
                },
            };
            let ghost all = constraints@;
            let mut found: Vec<Identity<AlgebraicExpression<T>>> = Vec::new();
            for constraint in it: constraints
                invariant
                    it.seq() == all,
                    found@.len() == it.index(),
                    forall|k: int|
                        0 <= k < found@.len() ==> (#[trigger] found@[k])@ == polynomial_identity(
                            identity.id,
                            identity.source,
                            all[k],
                        ),
            {
                found.push(
                    Identity::from_polynomial_identity(
                        identity.id,
                        identity.source.clone(),
                        constraint,
                    ),
                );
            }
            proof {
                assert(identity_views(found@) =~= all.map_values(
                    |c: AlgebraicExpression<T>|
                        polynomial_identity(identity.id, identity.source, c),
                ));
            }
            Ok(found)
        },
        _ => {
            if matches!(identity.kind, IdentityKind::Connect) && (identity.left.selector.is_some()
                || identity.right.selector.is_some()) {
                return Err(
                    CondenseError::MalformedIdentity {
                        id: identity.id,
                        source: identity.source.clone(),
                    },
                );
            }
            let left = match condense_selected_expressions(&identity.left) {
                Ok(left) => left,
                Err(error) => {
                    return Err(
                        CondenseError::Identity {
                            id: identity.id,
                            source: identity.source.clone(),
                            error,
                        },
                    );
                },
            };
            let right = match condense_selected_expressions(&identity.right) {
                Ok(right) => right,
                Err(error) => {
                    return Err(
                        CondenseError::Identity {
                            id: identity.id,
                            source: identity.source.clone(),
                            error,
                        },
                    );
                },
            };
            let mut found: Vec<Identity<AlgebraicExpression<T>>> = Vec::new();
            let condensed = Identity {
                id: identity.id,
                kind: identity.kind,
                source: identity.source.clone(),
                left,
                right,
            };
            found.push(condensed);
            proof {
                assert(identity_views(found@) =~= seq![condensed@]);
            }
            Ok(found)
        },
    }
}

proof fn lemma_order_step<T>(
    identities: Seq<Identity<Evaluation<T>>>,
    order: Seq<StatementIdentifier>,
    i: int,
)
    requires
        0 <= i < order.len(),
    ensures
        order.take(i + 1).drop_last() == order.take(i),
        order.take(i + 1).last() == order[i],
        order.take(order.len() as int) == order,
{
    assert(order.take(i + 1).drop_last() =~= order.take(i));
    assert(order.take(order.len() as int) =~= order);
}

proof fn lemma_order_fails<T>(
    identities: Seq<Identity<Evaluation<T>>>,
    order: Seq<StatementIdentifier>,
    i: int,
)
    requires
        0 <= i <= order.len(),
        condensed_order(identities, order.take(i)) is Err,
    ensures
        condensed_order(identities, order) == condensed_order(identities, order.take(i)),
    decreases order.len() - i,
{
    if i < order.len() {
        lemma_order_step(identities, order, i);
        lemma_order_fails(identities, order, i + 1);
    } else {
        assert(order.take(i) =~= order);
    }
}

fn condense_order<T: Copy>(
    identities: &Vec<Identity<Evaluation<T>>>,
    source_order: Vec<StatementIdentifier>,
) -> (result: Result<
    (Vec<Identity<AlgebraicExpression<T>>>, Vec<StatementIdentifier>),
    CondenseError,
>)
    ensures
        match result {
            Ok((found, written)) => condensed_order(identities@, source_order@) == Ok::<
                _,
                CondenseError,
            >((identity_views(found@), written@)),
            Err(e) => condensed_order(identities@, source_order@) == Err::<
                (Seq<IdentityView<AlgebraicExpression<T>>>, Seq<StatementIdentifier>),
                _,
            >(e),
        },
{
    let ghost all = source_order@;
    let mut found: Vec<Identity<AlgebraicExpression<T>>> = Vec::new();
    let mut written: Vec<StatementIdentifier> = Vec::new();
    proof {
        assert(all.take(0) =~= Seq::empty());
        assert(identity_views(found@) =~= Seq::empty());
    }
    for entry in it: source_order
        invariant
            it.seq() == all,
            condensed_order(identities@, all.take(it.index() as int)) == Ok::<_, CondenseError>(
                (identity_views(found@), written@),
            ),
    {
        let ghost i = it.index() as int;
        let ghost done = identity_views(found@);
        let ghost before = written@;
        proof {
            lemma_order_step(identities@, all, i);
        }
        match entry {
            StatementIdentifier::Identity(index) => {
                if index >= identities.len() {
                    proof {
                        lemma_order_fails(identities@, all, i + 1);
                    }
                    return Err(CondenseError::UndefinedIdentity { index });
                }
                let more = match condense_one(&identities[index]) {
                    Ok(more) => more,
                    Err(e) => {
                        proof {
                            lemma_order_fails(identities@, all, i + 1);
                        }
                        return Err(e);
                    },
                };
                let ghost views = identity_views(more@);
                let ghost start = found@.len();
                for one in inner: more
                    invariant
                        inner.seq().len() == views.len(),
                        forall|k: int| 0 <= k < views.len() ==> (#[trigger] inner.seq()[k])@ == views[k],
                        found@.len() == start + inner.index(),
                        identity_views(found@) == done + renumbered(views, start).take(
                            inner.index() as int,
                        ),
                        written@ == before + references(start, inner.index() as nat),
                {
                    let ghost j = inner.index() as int;
                    let position = found.len();
                    let numbered = Identity {
                        id: position as u64,
                        kind: one.kind,
                        source: one.source,
                        left: one.left,
                        right: one.right,
                    };
                    proof {
                        assert(numbered@ == renumbered(views, start)[j]);
                        assert(identity_views(found@.push(numbered)) =~= identity_views(found@).push(
                            numbered@,
                        ));
                        assert(renumbered(views, start).take(j + 1) =~= renumbered(views, start).take(
                            j,
                        ).push(renumbered(views, start)[j]));
                        assert(references(start, (j + 1) as nat) =~= references(start, j as nat).push(
                            StatementIdentifier::Identity(position),
                        ));
                    }
                    found.push(numbered);
                    written.push(StatementIdentifier::Identity(position));
                }
                proof {
                    assert(renumbered(views, start).take(views.len() as int) =~= renumbered(
                        views,
                        start,
                    ));
                    assert(identity_views(found@) =~= done + renumbered(views, done.len()));
                }
            },
            other => {
                written.push(other);
            },
        }
    }
    proof {
        assert(all.take(all.len() as int) =~= all);
    }
    Ok((found, written))
}

fn condense_column<T: Copy>(definition: &Definition<T>) -> (values: Result<
    Vec<AlgebraicExpression<T>>,
    CondenseError,
>)
    ensures
        match values {
            Ok(found) => column_values(*definition) == Ok::<_, CondenseError>(found@),
            Err(e) => column_values(*definition) == Err::<Seq<AlgebraicExpression<T>>, _>(e),
        },
{
    let typed = match &definition.value {
        Some(FunctionValueDefinition::Expression(typed)) => typed,
        _ => {
            return Err(CondenseError::IntermediateTypeError { name: definition.name.clone() });
        },
    };
    let scheme = match &typed.type_scheme {
        Some(scheme) => scheme,
        None => {
            return Err(CondenseError::MissingTypeScheme { name: definition.name.clone() });
        },
    };
    match definition.symbol.length {
        Some(length) => {
            let fits = scheme.vars.is_empty() && match &scheme.ty {
                Type::Array(array) => matches!(&*array.base, Type::Expr),
                _ => false,
            };
            if !fits {
                return Err(
                    CondenseError::IntermediateTypeError { name: definition.name.clone() },
                );
            }
            let evaluation = match &definition.evaluated {
                Some(evaluation) => evaluation,
                None => {
                    return Err(CondenseError::MissingEvaluation { name: definition.name.clone() });
                },
            };
            match condense_to_array_of_algebraic_expressions(evaluation) {
                Ok(values) => {
                    if values.len() as u64 == length {
                        Ok(values)
                    } else {
                        Err(
                            CondenseError::ArrayLengthMismatch {
                                name: definition.name.clone(),
                                expected: length,
                                found: values.len(),
                            },
                        )
                    }
                },
                Err(error) => Err(
                    CondenseError::IntermediateColumn { name: definition.name.clone(), error },
                ),
            }
        },
        None => {
            let fits = scheme.vars.is_empty() && matches!(&scheme.ty, Type::Expr);
            if !fits {
                return Err(
                    CondenseError::IntermediateTypeError { name: definition.name.clone() },
                );
            }
            let evaluation = match &definition.evaluated {
                Some(evaluation) => evaluation,
                None => {
                    return Err(CondenseError::MissingEvaluation { name: definition.name.clone() });
                },
            };
            match condense_to_algebraic_expression(evaluation) {
                Ok(value) => {
                    let mut values: Vec<AlgebraicExpression<T>> = Vec::new();
                    values.push(value);
                    assert(values@ =~= seq![value]);
                    Ok(values)
                },
                Err(error) => Err(
                    CondenseError::IntermediateColumn { name: definition.name.clone(), error },
                ),
            }
        },
    }
}

proof fn lemma_split_step<T>(definitions: Seq<Definition<T>>, i: int)
    requires
        0 <= i < definitions.len(),
    ensures
        definitions.take(i + 1).drop_last() == definitions.take(i),
        definitions.take(i + 1).last() == definitions[i],
{
    assert(definitions.take(i + 1).drop_last() =~= definitions.take(i));
}

proof fn lemma_split_fails<T>(definitions: Seq<Definition<T>>, i: int)
    requires
        0 <= i <= definitions.len(),
        split_definitions(definitions.take(i)) is Err,
    ensures
        split_definitions(definitions) == split_definitions(definitions.take(i)),
    decreases definitions.len() - i,
{
    if i < definitions.len() {
        lemma_split_step(definitions, i);
        lemma_split_fails(definitions, i + 1);
    } else {
        assert(definitions.take(i) =~= definitions);
    }
}

fn condense_definitions<T: Copy>(definitions: Vec<Definition<T>>) -> (result: Result<
    (
        Vec<(String, (Symbol, Option<FunctionValueDefinition>))>,
        Vec<(String, (Symbol, Vec<AlgebraicExpression<T>>))>,
    ),
    CondenseError,
>)
    ensures
        match result {
            Ok((kept, columns)) => split_definitions(definitions@) == Ok::<_, CondenseError>(
                (kept@, column_views(columns@)),
            ),
            Err(e) => split_definitions(definitions@) == Err::<
                (
                    Seq<(String, (Symbol, Option<FunctionValueDefinition>))>,
                    Seq<(String, (Symbol, Seq<AlgebraicExpression<T>>))>,
                ),
                _,
            >(e),
        },
{
    let ghost all = definitions@;
    let mut kept: Vec<(String, (Symbol, Option<FunctionValueDefinition>))> = Vec::new();
    let mut columns: Vec<(String, (Symbol, Vec<AlgebraicExpression<T>>))> = Vec::new();
    proof {
        assert(all.take(0) =~= Seq::empty());
        assert(column_views(columns@) =~= Seq::empty());
    }
    for definition in it: definitions
        invariant
            it.seq() == all,
            split_definitions(all.take(it.index() as int)) == Ok::<_, CondenseError>(
                (kept@, column_views(columns@)),
            ),
    {
        let ghost i = it.index() as int;
        proof {
            lemma_split_step(all, i);
        }
        if definition.symbol.is_intermediate() {
            match condense_column(&definition) {
                Ok(values) => {
                    let column = (definition.name, (definition.symbol, values));
                    proof {
                        assert(column_views(columns@.push(column)) =~= column_views(columns@).push(
                            (column.0, (column.1.0, column.1.1@)),
                        ));
                    }
                    columns.push(column);
                },
                Err(e) => {
                    proof {
                        lemma_split_fails(all, i + 1);
                    }
                    return Err(e);
                },
            }
        } else {
            kept.push((definition.name, (definition.symbol, definition.value)));
        }
    }
    proof {
        assert(all.take(all.len() as int) =~= all);
    }
    Ok((kept, columns))
}

impl Condenser {
    /// The symbol of the first definition with the given name.
    pub fn symbol(&self, name: &String) -> (found: Option<&Symbol>)
        ensures
            match found {
                Some(symbol) => symbol_named(self.symbols@, name@) == Some(*symbol),
                None => symbol_named(self.symbols@, name@) is None,
            },
    {
        let mut i: usize = 0;
        assert(self.symbols@.skip(0) =~= self.symbols@);
        while i < self.symbols.len()
            invariant
                i <= self.symbols.len(),
                symbol_named(self.symbols@, name@) == symbol_named(
                    self.symbols@.skip(i as int),
                    name@,
                ),
            decreases self.symbols.len() - i,
        {
            proof {
                assert(self.symbols@.skip(i as int).drop_first() =~= self.symbols@.skip(i + 1));
            }
            if self.symbols[i].0 == *name {
                return Some(&self.symbols[i].1.0);
            }
            i += 1;
        }
        None
    }

    /// The declaration with the resolved id of its column, which must be
    /// among the definitions.
    pub fn resolve_declaration(&self, declaration: PublicDeclaration) -> (resolved: Result<
        PublicDeclaration,
        CondenseError,
    >)
        ensures
            resolved == resolved_declaration(self.symbols@, declaration),
    {
        let column = match self.symbol(&declaration.polynomial.name) {
            Some(symbol) => symbol.poly_id(),
            None => None,
        };
        match column {
            Some(id) => Ok(
                PublicDeclaration {
                    id: declaration.id,
                    source: declaration.source,
                    name: declaration.name,
                    polynomial: PolynomialReference {
                        name: declaration.polynomial.name,
                        poly_id: Some(id),
                    },
                    array_index: declaration.array_index,
                    index: declaration.index,
                },
            ),
            None => Err(CondenseError::UndefinedSymbol { name: declaration.polynomial.name }),
        }
    }
}

fn resolve_declarations(
    condenser: &Condenser,
    declarations: Vec<(String, PublicDeclaration)>,
) -> (result: Result<Vec<(String, PublicDeclaration)>, CondenseError>)
    ensures
        match result {
            Ok(resolved) => collected(declaration_results(condenser.symbols@, declarations@))
                == Ok::<_, CondenseError>(resolved@),
            Err(e) => collected(declaration_results(condenser.symbols@, declarations@)) == Err::<
                Seq<(String, PublicDeclaration)>,
                _,
            >(e),
        },
{
    let ghost results = declaration_results(condenser.symbols@, declarations@);
    let mut resolved: Vec<(String, PublicDeclaration)> = Vec::new();
    proof {
        if declarations@.len() > 0 {
            lemma_collected_step(results, 0);
        }
        assert(results.take(0) =~= Seq::empty());
    }
    for entry in it: declarations
        invariant
            it.seq() == declarations@,
            results == declaration_results(condenser.symbols@, declarations@),
            collected(results.take(it.index() as int)) == Ok::<_, CondenseError>(resolved@),
    {
        let ghost i = it.index() as int;
        proof {
            lemma_collected_step(results, i);
        }
        let (name, declaration) = entry;
        match condenser.resolve_declaration(declaration) {
            Ok(declaration) => {
                resolved.push((name, declaration));
            },
            Err(e) => {
                proof {
                    lemma_collected_fails(results, i + 1);
                }
                return Err(e);
            },
        }
    }
    proof {
        assert(results.take(results.len() as int) =~= results);
    }
    Ok(resolved)
}

/// The names of the rows of a symbol table, in order.
pub open spec fn definition_names<T>(definitions: Seq<Definition<T>>) -> Seq<Seq<char>> {
    definitions.map_values(|d: Definition<T>| d.name@)
}

proof fn lemma_split_names<T>(definitions: Seq<Definition<T>>)
    requires
        definition_names(definitions).no_duplicates(),
        split_definitions(definitions) is Ok,
    ensures
        ({
            let (kept, columns) = split_definitions(definitions)->Ok_0;
            &&& table_names(kept).no_duplicates()
            &&& table_names(columns).no_duplicates()
            &&& forall|i: int|
                0 <= i < kept.len() ==> definition_names(definitions).contains(
                    (#[trigger] kept[i]).0@,
                )
            &&& forall|j: int|
                0 <= j < columns.len() ==> definition_names(definitions).contains(
                    (#[trigger] columns[j]).0@,
                )
            &&& forall|i: int, j: int|
                0 <= i < kept.len() && 0 <= j < columns.len() ==> (#[trigger] kept[i]).0@
                    != (#[trigger] columns[j]).0@
        }),
    decreases definitions.len(),
{
    if definitions.len() > 0 {
        let front = definitions.drop_last();
        let last = definitions.last();
        let names = definition_names(definitions);
        assert(definition_names(front) =~= names.drop_last());
        assert(names[names.len() - 1] == last.name@);
        assert forall|i: int, j: int|
            0 <= i < front.len() && 0 <= j < front.len() && i != j implies definition_names(
            front,
        )[i] != definition_names(front)[j] by {
            assert(names[i] != names[j]);
        }
        lemma_split_names(front);
        let (kept_before, columns_before) = split_definitions(front)->Ok_0;
        let (kept, columns) = split_definitions(definitions)->Ok_0;
        assert forall|name: Seq<char>| definition_names(front).contains(name) implies name
            != last.name@ && names.contains(name) by {
            let k = choose|k: int|
                0 <= k < definition_names(front).len() && definition_names(front)[k] == name;
            assert(names[k] == name);
            assert(names[k] != names[names.len() - 1]);
        }
        assert(names.contains(last.name@));
        assert forall|i: int| 0 <= i < kept.len() implies names.contains((#[trigger] kept[i]).0@) by {
            if i < kept_before.len() {
                assert(kept[i] == kept_before[i]);
            }
        }
        assert forall|j: int| 0 <= j < columns.len() implies names.contains(
            (#[trigger] columns[j]).0@,
        ) by {
            if j < columns_before.len() {
                assert(columns[j] == columns_before[j]);
            }
        }
        assert forall|i: int, j: int| 0 <= i < kept.len() && 0 <= j < kept.len() && i
            != j implies table_names(kept)[i] != table_names(kept)[j] by {
            if i < kept_before.len() {
                assert(kept[i] == kept_before[i]);
                assert(definition_names(front).contains(kept_before[i].0@));
            }
            if j < kept_before.len() {
                assert(kept[j] == kept_before[j]);
                assert(definition_names(front).contains(kept_before[j].0@));
            }
            if i < kept_before.len() && j < kept_before.len() {
                assert(table_names(kept_before)[i] != table_names(kept_before)[j]);
            }
        }
        assert forall|i: int, j: int| 0 <= i < columns.len() && 0 <= j < columns.len() && i
            != j implies table_names(columns)[i] != table_names(columns)[j] by {
            if i < columns_before.len() {
                assert(columns[i] == columns_before[i]);
                assert(definition_names(front).contains(columns_before[i].0@));
            }
            if j < columns_before.len() {
                assert(columns[j] == columns_before[j]);
                assert(definition_names(front).contains(columns_before[j].0@));
            }
            if i < columns_before.len() && j < columns_before.len() {
                assert(table_names(columns_before)[i] != table_names(columns_before)[j]);
            }
        }
        assert forall|i: int, j: int| 0 <= i < kept.len() && 0 <= j < columns.len() implies (
        #[trigger] kept[i]).0@ != (#[trigger] columns[j]).0@ by {
            if i < kept_before.len() {
                assert(kept[i] == kept_before[i]);
                assert(definition_names(front).contains(kept_before[i].0@));
            }
            if j < columns_before.len() {
                assert(columns[j] == columns_before[j]);
                assert(definition_names(front).contains(columns_before[j].0@));
            }
        }
    }
}

/// Where no name occurs twice among the definitions nor among the public
/// declarations that are handed to the pass, each name stands for one thing
/// in what the pass gives.
pub proof fn lemma_condensed_names<T>(
    degree: Option<u64>,
    definitions: Seq<Definition<T>>,
    public_declarations: Seq<(String, PublicDeclaration)>,
    identities: Seq<Identity<Evaluation<T>>>,
    source_order: Seq<StatementIdentifier>,
)
    requires
        definition_names(definitions).no_duplicates(),
        table_names(public_declarations).no_duplicates(),
    ensures
        condensed(degree, definitions, public_declarations, identities, source_order) matches Ok(
            analyzed,
        ) ==> names_occur_once(analyzed),
{
    if let Ok(analyzed) = condensed(
        degree,
        definitions,
        public_declarations,
        identities,
        source_order,
    ) {
        lemma_split_names(definitions);
        let results = declaration_results(analyzed.definitions, public_declarations);
        lemma_collected_values(results);
        assert forall|i: int| 0 <= i < public_declarations.len() implies table_names(
            analyzed.public_declarations,
        )[i] == table_names(public_declarations)[i] by {
            assert(results[i] == Ok::<_, CondenseError>(analyzed.public_declarations[i]));
        }
        assert(table_names(analyzed.public_declarations) =~= table_names(public_declarations));
    }
}

/// Condenses a program whose expressions were evaluated. The identities are
/// condensed in the order in which the statements name them and numbered in
/// that order, and each entry of the statement order for an identity is
/// replaced by the entries for what it condenses to. The intermediate
/// columns are taken out of the definitions, each with one algebraic
/// expression for each of its elements. Each public declaration gets the
/// resolved id of its column, which must be among the definitions that
/// stay. The degree is handed on. The first failure ends the pass. Where no
/// name occurs twice among the definitions nor among the public
/// declarations, none does in the result, and no intermediate column has
/// the name of a definition that stays.
pub fn condense<T: Copy>(
    degree: Option<u64>,
    definitions: Vec<Definition<T>>,
    public_declarations: Vec<(String, PublicDeclaration)>,
    identities: &Vec<Identity<Evaluation<T>>>,
    source_order: Vec<StatementIdentifier>,
) -> (analyzed: Result<Analyzed<T>, CondenseError>)
    ensures
        match analyzed {
            Ok(result) => condensed(
                degree,
                definitions@,
                public_declarations@,
                identities@,
                source_order@,
            ) == Ok::<_, CondenseError>(result@),
            Err(e) => condensed(
                degree,
                definitions@,
                public_declarations@,
                identities@,
                source_order@,
            ) == Err::<AnalyzedView<T>, _>(e),
        },
        definition_names(definitions@).no_duplicates() && table_names(
            public_declarations@,
        ).no_duplicates() ==> (analyzed matches Ok(result) ==> names_occur_once(result@)),
{
    proof {
        if definition_names(definitions@).no_duplicates() && table_names(
            public_declarations@,
        ).no_duplicates() {
            lemma_condensed_names(
                degree,
                definitions@,
                public_declarations@,
                identities@,
                source_order@,
            );
        }
    }
    let (condensed_identities, order) = match condense_order(identities, source_order) {
        Ok(pair) => pair,
        Err(e) => {
            return Err(e);
        },
    };
    let (kept, columns) = match condense_definitions(definitions) {
        Ok(pair) => pair,
        Err(e) => {
            return Err(e);
        },
    };
    let condenser = Condenser { symbols: kept };
    let declarations = match resolve_declarations(&condenser, public_declarations) {
        Ok(declarations) => declarations,
        Err(e) => {
            return Err(e);
        },
    };
    Ok(
        Analyzed {
            degree,
            definitions: condenser.symbols,
            public_declarations: declarations,
            intermediate_columns: columns,
            identities: condensed_identities,
            source_order: order,
        },
    )
}

/// The constraint of the identity value at position `k`: its left side less
/// its right side.
pub open spec fn constraint_at<T>(items: Seq<Value<T>>, k: int) -> AlgebraicExpression<T> {
    difference(items[k]->Identity_0, items[k]->Identity_1)
}

/// A polynomial identity whose expression was evaluated to an array of N
/// identities condenses to N polynomial identities, one for each item in
/// order. Where the statement order names it once more at its end, these are
/// appended to the list of identities with the next N numbers as ids, which
/// are their places in the list and differ from each other, and the one
/// entry becomes N entries, one for each of them in order; what was there
/// before stays.
pub proof fn lemma_polynomial_array_expands<T>(
    identities: Seq<Identity<Evaluation<T>>>,
    order: Seq<StatementIdentifier>,
    index: usize,
    items: Seq<Value<T>>,
)
    requires
        index < identities.len(),
        identities[index as int].kind is Polynomial,
        identities[index as int].left.selector matches Some(Ok(Value::Array(values)))
            && values@ == items,
        forall|k: int| 0 <= k < items.len() ==> #[trigger] items[k] is Identity,
        condensed_order(identities, order) is Ok,
        condensed_order(identities, order)->Ok_0.0.len() + items.len() <= usize::MAX,
    ensures
        condensed_identity(identities[index as int]) matches Ok(made) && made.len() == items.len(),
        condensed_order(identities, order.push(StatementIdentifier::Identity(index))) matches Ok(
            (found, written),
        ) && {
            let (done, before) = condensed_order(identities, order)->Ok_0;
            &&& found.len() == done.len() + items.len()
            &&& found.take(done.len() as int) == done
            &&& forall|i: int|
                done.len() <= i < found.len() ==> #[trigger] found[i] == polynomial_identity(
                    i as u64,
                    identities[index as int].source,
                    constraint_at(items, i - done.len()),
                )
            &&& forall|i: int, j: int|
                done.len() <= i < j < found.len() ==> (#[trigger] found[i]).id
                    != (#[trigger] found[j]).id
            &&& written.len() == before.len() + items.len()
            &&& written.take(before.len() as int) == before
            &&& forall|i: int|
                before.len() <= i < written.len() ==> #[trigger] written[i]
                    == StatementIdentifier::Identity((done.len() + (i - before.len())) as usize)
        },
{
    let identity = identities[index as int];
    let results = item_results(items, true);
    let constraints = Seq::new(items.len(), |k: int| constraint_at(items, k));
    assert forall|k: int| 0 <= k < results.len() implies #[trigger] results[k] == Ok::<
        AlgebraicExpression<T>,
        ValueError,
    >(constraints[k]) by {
        assert(items[k] is Identity);
    }
    lemma_collected_all(results, constraints);
    let made = condensed_identity(identity)->Ok_0;
    let extended = order.push(StatementIdentifier::Identity(index));
    assert(extended.drop_last() =~= order);
    let (done, before) = condensed_order(identities, order)->Ok_0;
    let (found, written) = condensed_order(identities, extended)->Ok_0;
    assert(found.take(done.len() as int) =~= done);
    assert(written.take(before.len() as int) =~= before);
}

/// An intermediate column without a length, defined by an expression of
/// type `expr` that was evaluated to one algebraic expression, is taken out
/// of the definitions and listed among the intermediate columns with that
/// one expression.
pub proof fn lemma_scalar_intermediate_column<T>(
    definitions: Seq<Definition<T>>,
    column: Definition<T>,
    expression: AlgebraicExpression<T>,
)
    requires
        column.symbol.spec_is_intermediate(),
        column.symbol.length is None,
        column.value matches Some(FunctionValueDefinition::Expression(typed))
            && typed.type_scheme matches Some(scheme) && is_expr_scheme(scheme),
        column.evaluated == Some(
            Ok::<Value<T>, EvalError>(Value::Expression(expression)),
        ),
        split_definitions(definitions) is Ok,
    ensures
        split_definitions(definitions.push(column)) == Ok::<_, CondenseError>(
            (
                split_definitions(definitions)->Ok_0.0,
                split_definitions(definitions)->Ok_0.1.push(
                    (column.name, (column.symbol, seq![expression])),
                ),
            ),
        ),
{
    assert(definitions.push(column).drop_last() =~= definitions);
}

/// Whether `copy` is what cloning `value` gives: the same value, its lists
/// holding the same items in the same order.
pub open spec fn same_value<T>(value: Value<T>, copy: Value<T>) -> bool
    decreases value,
{
    match (value, copy) {
        (Value::Array(items), Value::Array(copied)) => {
            &&& items@.len() == copied@.len()
            &&& forall|i: int| 0 <= i < items@.len() ==> same_value(#[trigger] items@[i], copied@[i])
        },
        (Value::Array(_), _) => false,
        _ => value == copy,
    }
}

impl<T: Copy> Value<T> {
    fn duplicate(&self) -> (copy: Self)
        ensures
            same_value(*self, copy),
        decreases self,
    {
        match self {
            Value::Expression(e) => Value::Expression(e.clone()),
            Value::Identity(left, right) => Value::Identity(left.clone(), right.clone()),
            Value::Array(items) => {
                let mut copied: Vec<Value<T>> = Vec::new();
                let mut i: usize = 0;
                while i < items.len()
                    invariant
                        i <= items.len(),
                        *self == Value::Array(*items),
                        copied@.len() == i,
                        forall|k: int| 0 <= k < i ==> same_value(#[trigger] items@[k], copied@[k]),
                    decreases items.len() - i,
                {
                    proof {
                        vstd::std_specs::vec::axiom_vec_index_decreases(*items, i as int);
                        assert(decreases_to!(*self => self->Array_0));
                    }
                    copied.push(items[i].duplicate());
                    i += 1;
                }
                Value::Array(copied)
            },
        }
    }
}

impl<T: Copy> Clone for Value<T> {
    fn clone(&self) -> (copy: Self)
        ensures
            same_value(*self, copy),
    {
        self.duplicate()
    }
}

} // verus!
